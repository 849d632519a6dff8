//! Reading a Git remote URL: its host, its repository path and the forge
//! family that serves it.
//!
//! Two spellings are understood: `scheme://[user@]host[:port]/path` and the
//! scp-like `[user@]host:path`. A remote is told apart by its first `:`:
//! followed by `//` it ends a scheme, otherwise it ends the host.
use vstd::prelude::*;
use crate::text::{ascii_lower, ascii_lower_chars, chars_of, contains, contains_chars, slice_chars, string_of};

verus! {

broadcast use vstd::string::group_string_axioms;

/// Index of the first `c` in `s`.
pub open spec fn first_index(s: Seq<char>, c: char) -> Option<int>
    decreases s.len(),
{
    if s.len() == 0 {
        None
    } else if s[0] == c {
        Some(0)
    } else {
        match first_index(s.drop_first(), c) {
            Some(i) => Some(i + 1),
            None => None,
        }
    }
}

/// Index of the last `c` in `s`.
pub open spec fn last_index(s: Seq<char>, c: char) -> Option<int>
    decreases s.len(),
{
    if s.len() == 0 {
        None
    } else if s.last() == c {
        Some(s.len() - 1)
    } else {
        last_index(s.drop_last(), c)
    }
}

/// The part of `s` before its first `c` (all of `s` when there is none).
pub open spec fn before_first(s: Seq<char>, c: char) -> Seq<char> {
    match first_index(s, c) {
        Some(i) => s.take(i),
        None => s,
    }
}

/// The part of `s` after its last `c` (all of `s` when there is none).
pub open spec fn after_last(s: Seq<char>, c: char) -> Seq<char> {
    match last_index(s, c) {
        Some(i) => s.skip(i + 1),
        None => s,
    }
}

/// Whether the first `:` of `url` opens `://`.
pub open spec fn has_scheme(url: Seq<char>) -> bool {
    match first_index(url, ':') {
        Some(c) => c + 3 <= url.len() && url[c + 1] == '/' && url[c + 2] == '/',
        None => false,
    }
}

/// `(host with port, path)` of a remote URL, if it has either spelling.
pub open spec fn remote_parts(url: Seq<char>) -> Option<(Seq<char>, Seq<char>)> {
    match first_index(url, ':') {
        Some(c) => if has_scheme(url) {
            let after = url.skip(c + 3);
            match first_index(after, '/') {
                Some(k) => Some((after_last(after.take(k), '@'), after.skip(k + 1))),
                None => Some((after_last(after, '@'), Seq::empty())),
            }
        } else {
            Some((after_last(url.take(c), '@'), url.skip(c + 1)))
        },
        None => None,
    }
}

/// The host of a remote URL (without user or port); `None` when it has
/// none.
pub open spec fn remote_host_spec(url: Seq<char>) -> Option<Seq<char>> {
    match remote_parts(url) {
        Some(p) => {
            let host = before_first(p.0, ':');
            if host.len() == 0 {
                None
            } else {
                Some(host)
            }
        },
        None => None,
    }
}

/// `s` without leading `c`s.
pub open spec fn trim_start_char(s: Seq<char>, c: char) -> Seq<char>
    decreases s.len(),
{
    if s.len() > 0 && s[0] == c {
        trim_start_char(s.drop_first(), c)
    } else {
        s
    }
}

/// `s` without trailing `c`s.
pub open spec fn trim_end_char(s: Seq<char>, c: char) -> Seq<char>
    decreases s.len(),
{
    if s.len() > 0 && s.last() == c {
        trim_end_char(s.drop_last(), c)
    } else {
        s
    }
}

pub open spec fn strip_git_suffix(s: Seq<char>) -> Seq<char> {
    if s.len() >= 4 && s.skip(s.len() - 4) == ".git"@ {
        s.take(s.len() - 4)
    } else {
        s
    }
}

/// The repository path of a remote URL: its path without surrounding `/`
/// and without a `.git` suffix; `None` when that leaves nothing.
pub open spec fn remote_repo_path_spec(url: Seq<char>) -> Option<Seq<char>> {
    match remote_parts(url) {
        Some(p) => {
            let path = strip_git_suffix(trim_end_char(trim_start_char(p.1, '/'), '/'));
            if path.len() == 0 {
                None
            } else {
                Some(path)
            }
        },
        None => None,
    }
}

/// The forge family that serves a remote.
#[derive(Debug, Clone, Copy, PartialEq, Eq, Structural)]
pub enum ForgeFamily {
    Github,
    Gitlab,
    Other,
}

impl ForgeFamily {
    pub open spec fn spec_label(self) -> Seq<char> {
        match self {
            ForgeFamily::Github => "GitHub"@,
            ForgeFamily::Gitlab => "GitLab"@,
            ForgeFamily::Other => "unknown forge"@,
        }
    }

    /// The name shown to the user.
    pub fn label(&self) -> (r: &'static str)
        ensures
            r@ == self.spec_label(),
    {
        match self {
            ForgeFamily::Github => "GitHub",
            ForgeFamily::Gitlab => "GitLab",
            ForgeFamily::Other => "unknown forge",
        }
    }
}

/// The family of a remote by its host, case-insensitively: a host naming
/// `github` is GitHub, one naming `gitlab` is GitLab.
pub open spec fn classify_forge_spec(url: Seq<char>) -> ForgeFamily {
    match remote_host_spec(url) {
        Some(h) => if contains(ascii_lower(h), "github"@) {
            ForgeFamily::Github
        } else if contains(ascii_lower(h), "gitlab"@) {
            ForgeFamily::Gitlab
        } else {
            ForgeFamily::Other
        },
        None => ForgeFamily::Other,
    }
}

pub(crate) fn first_index_exec(s: &Vec<char>, c: char) -> (r: Option<usize>)
    ensures
        match r {
            Some(i) => first_index(s@, c) == Some(i as int) && i < s@.len(),
            None => first_index(s@, c) is None,
        },
{
    let mut i: usize = 0;
    proof {
        assert(s@.skip(0) =~= s@);
    }
    while i < s.len()
        invariant
            i <= s@.len(),
            forall|k: int| 0 <= k < i ==> s@[k] != c,
            first_index(s@, c) == match first_index(s@.skip(i as int), c) {
                Some(j) => Some(j + i),
                None => None,
            },
        decreases s@.len() - i,
    {
        proof {
            assert(s@.skip(i as int)[0] == s@[i as int]);
            assert(s@.skip(i as int).drop_first() =~= s@.skip(i + 1));
        }
        if s[i] == c {
            return Some(i);
        }
        i = i + 1;
    }
    proof {
        assert(s@.skip(i as int) =~= Seq::<char>::empty());
    }
    None
}

fn last_index_exec(s: &Vec<char>, c: char) -> (r: Option<usize>)
    ensures
        match r {
            Some(i) => last_index(s@, c) == Some(i as int) && i < s@.len(),
            None => last_index(s@, c) is None,
        },
{
    let mut n: usize = s.len();
    proof {
        assert(s@.take(n as int) =~= s@);
    }
    while n > 0
        invariant
            n <= s@.len(),
            last_index(s@, c) == last_index(s@.take(n as int), c),
        decreases n,
    {
        proof {
            assert(s@.take(n as int).last() == s@[n - 1]);
            assert(s@.take(n as int).drop_last() =~= s@.take(n - 1));
        }
        if s[n - 1] == c {
            return Some(n - 1);
        }
        n = n - 1;
    }
    None
}

fn after_last_exec(s: &Vec<char>, c: char) -> (r: Vec<char>)
    ensures
        r@ == after_last(s@, c),
{
    match last_index_exec(s, c) {
        Some(i) => {
            let n = s.len();
            let r = slice_chars(s, i + 1, n);
            assert(r@ =~= s@.skip(i + 1));
            r
        },
        None => {
            let r = slice_chars(s, 0, s.len());
            assert(r@ =~= s@);
            r
        },
    }
}

fn before_first_exec(s: &Vec<char>, c: char) -> (r: Vec<char>)
    ensures
        r@ == before_first(s@, c),
{
    match first_index_exec(s, c) {
        Some(i) => {
            let r = slice_chars(s, 0, i);
            assert(r@ =~= s@.take(i as int));
            r
        },
        None => {
            let r = slice_chars(s, 0, s.len());
            assert(r@ =~= s@);
            r
        },
    }
}

fn remote_parts_exec(url: &Vec<char>) -> (r: Option<(Vec<char>, Vec<char>)>)
    ensures
        match r {
            Some(p) => remote_parts(url@) == Some((p.0@, p.1@)),
            None => remote_parts(url@) is None,
        },
{
    match first_index_exec(url, ':') {
        None => None,
        Some(c) => {
            let n = url.len();
            if n - c >= 3 && url[c + 1] == '/' && url[c + 2] == '/' {
                let after = slice_chars(url, c + 3, n);
                assert(after@ =~= url@.skip(c + 3));
                match first_index_exec(&after, '/') {
                    Some(k) => {
                        let auth = slice_chars(&after, 0, k);
                        assert(auth@ =~= after@.take(k as int));
                        let path = slice_chars(&after, k + 1, after.len());
                        assert(path@ =~= after@.skip(k + 1));
                        Some((after_last_exec(&auth, '@'), path))
                    },
                    None => {
                        let empty: Vec<char> = Vec::new();
                        assert(empty@ =~= Seq::<char>::empty());
                        Some((after_last_exec(&after, '@'), empty))
                    },
                }
            } else {
                let before = slice_chars(url, 0, c);
                assert(before@ =~= url@.take(c as int));
                let path = slice_chars(url, c + 1, n);
                assert(path@ =~= url@.skip(c + 1));
                Some((after_last_exec(&before, '@'), path))
            }
        },
    }
}

/// The host of a remote URL.
pub fn remote_host(url: &str) -> (r: Option<String>)
    ensures
        match r {
            Some(h) => remote_host_spec(url@) == Some(h@),
            None => remote_host_spec(url@) is None,
        },
{
    let v = chars_of(url);
    match remote_parts_exec(&v) {
        None => None,
        Some((hostport, _path)) => {
            let host = before_first_exec(&hostport, ':');
            if host.len() == 0 {
                None
            } else {
                Some(string_of(host.as_slice()))
            }
        },
    }
}

fn slash_bounds(p: &Vec<char>) -> (r: (usize, usize))
    ensures
        r.0 <= r.1 <= p@.len(),
        p@.subrange(r.0 as int, r.1 as int) == trim_end_char(trim_start_char(p@, '/'), '/'),
{
    let mut a: usize = 0;
    proof {
        assert(p@.skip(0) =~= p@);
    }
    while a < p.len() && p[a] == '/'
        invariant
            a <= p@.len(),
            trim_start_char(p@, '/') == trim_start_char(p@.skip(a as int), '/'),
        decreases p@.len() - a,
    {
        proof {
            assert(p@.skip(a as int).drop_first() =~= p@.skip(a + 1));
        }
        a = a + 1;
    }
    let mut b: usize = p.len();
    let ghost t = p@.skip(a as int);
    proof {
        assert(p@.subrange(a as int, b as int) =~= t);
    }
    while b > a && p[b - 1] == '/'
        invariant
            a <= b <= p@.len(),
            t == p@.skip(a as int),
            trim_start_char(p@, '/') == t,
            trim_end_char(t, '/') == trim_end_char(p@.subrange(a as int, b as int), '/'),
        decreases b - a,
    {
        proof {
            assert(p@.subrange(a as int, b as int).drop_last() =~= p@.subrange(a as int, b - 1));
        }
        b = b - 1;
    }
    (a, b)
}

fn strip_git_exec(s: &Vec<char>) -> (r: Vec<char>)
    ensures
        r@ == strip_git_suffix(s@),
{
    let n = s.len();
    proof {
        reveal_strlit(".git");
    }
    if n >= 4 && s[n - 4] == '.' && s[n - 3] == 'g' && s[n - 2] == 'i' && s[n - 1] == 't' {
        proof {
            assert(s@.skip(n - 4) =~= ".git"@);
        }
        slice_chars(s, 0, n - 4)
    } else {
        proof {
            if n >= 4 {
                assert(s@.skip(n - 4)[0] == s@[n - 4]);
                assert(s@.skip(n - 4)[1] == s@[n - 3]);
                assert(s@.skip(n - 4)[2] == s@[n - 2]);
                assert(s@.skip(n - 4)[3] == s@[n - 1]);
            }
        }
        let r = slice_chars(s, 0, n);
        assert(r@ =~= s@);
        r
    }
}

fn trim_path(p: &Vec<char>) -> (r: Vec<char>)
    ensures
        r@ == strip_git_suffix(trim_end_char(trim_start_char(p@, '/'), '/')),
{
    let (a, b) = slash_bounds(p);
    let mid = slice_chars(p, a, b);
    strip_git_exec(&mid)
}

/// The repository path of a remote URL.
pub fn remote_repo_path(url: &str) -> (r: Option<String>)
    ensures
        match r {
            Some(p) => remote_repo_path_spec(url@) == Some(p@),
            None => remote_repo_path_spec(url@) is None,
        },
{
    let v = chars_of(url);
    match remote_parts_exec(&v) {
        None => None,
        Some((_hostport, path)) => {
            let p = trim_path(&path);
            if p.len() == 0 {
                None
            } else {
                Some(string_of(p.as_slice()))
            }
        },
    }
}

/// The forge family of a remote URL.
pub fn classify_forge(url: &str) -> (f: ForgeFamily)
    ensures
        f == classify_forge_spec(url@),
{
    match remote_host(url) {
        None => ForgeFamily::Other,
        Some(h) => {
            let hv = chars_of(h.as_str());
            let lower = ascii_lower_chars(hv.as_slice());
            let gh = chars_of("github");
            let gl = chars_of("gitlab");
            if contains_chars(lower.as_slice(), gh.as_slice()) {
                ForgeFamily::Github
            } else if contains_chars(lower.as_slice(), gl.as_slice()) {
                ForgeFamily::Gitlab
            } else {
                ForgeFamily::Other
            }
        },
    }
}

} // verus!
