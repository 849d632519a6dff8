//! The workspace file browser and chat attachments: which paths lie inside
//! the workspace, which directory entries the tree shows and in what
//! order, and how an uploaded attachment is named and decoded.
//!
//! Paths use `/` as separator.
use vstd::prelude::*;
use crate::evidence::lemma_first_index_bound;
use crate::forge::{first_index, first_index_exec};
use crate::order::{lex_le, str_le, string_views};
use crate::text::{chars_of, owned, str_eq, string_of, to_lowercase, unicode_lowercase};

verus! {

broadcast use vstd::string::group_string_axioms;

// ── Paths ────────────────────────────────────────────────────────────────

/// A piece that counts: not empty and not `.`.
pub open spec fn kept_piece(p: Seq<char>) -> Seq<Seq<char>> {
    if p.len() == 0 || p == seq!['.'] {
        Seq::empty()
    } else {
        seq![p]
    }
}

/// The `/`-separated pieces of a path, with empty and `.` pieces dropped
/// (as `Path::components` normalises them).
pub open spec fn pieces(s: Seq<char>) -> Seq<Seq<char>>
    decreases s.len(),
{
    if s.len() == 0 {
        Seq::empty()
    } else {
        match first_index(s, '/') {
            Some(i) => {
                proof {
                    lemma_first_index_bound(s, '/');
                }
                kept_piece(s.take(i)) + pieces(s.skip(i + 1))
            },
            None => kept_piece(s),
        }
    }
}

/// Splits a path into its pieces.
pub fn path_pieces(s: &str) -> (r: Vec<String>)
    ensures
        string_views(r@) == pieces(s@),
{
    let mut out: Vec<String> = Vec::new();
    let mut rest: Vec<char> = chars_of(s);
    proof {
        assert(string_views(out@) + pieces(rest@) =~= pieces(s@));
    }
    while rest.len() > 0
        invariant
            string_views(out@) + pieces(rest@) == pieces(s@),
        decreases rest@.len(),
    {
        let ghost r0 = rest@;
        let ghost before = string_views(out@);
        let (piece, next) = match first_index_exec(&rest, '/') {
            Some(i) => {
                let p = crate::text::slice_chars(&rest, 0, i);
                let nx = crate::text::slice_chars(&rest, i + 1, rest.len());
                proof {
                    lemma_first_index_bound(r0, '/');
                    assert(r0.subrange(0, i as int) =~= r0.take(i as int));
                    assert(r0.subrange(i + 1, r0.len() as int) =~= r0.skip(i + 1));
                }
                (p, nx)
            },
            None => (crate::text::slice_chars(&rest, 0, rest.len()), Vec::new()),
        };
        proof {
            if first_index(r0, '/') is None {
                assert(r0.subrange(0, r0.len() as int) =~= r0);
                assert(pieces(next@) =~= Seq::<Seq<char>>::empty());
            }
            assert(pieces(r0) =~= kept_piece(piece@) + pieces(next@));
        }
        if piece.len() > 0 && !(piece.len() == 1 && piece[0] == '.') {
            out.push(string_of(piece.as_slice()));
            proof {
                assert(string_views(out@) =~= before.push(piece@));
                assert(kept_piece(piece@) =~= seq![piece@]);
            }
        } else {
            proof {
                if piece@.len() == 1 {
                    assert(piece@ =~= seq!['.']);
                }
                assert(kept_piece(piece@) =~= Seq::<Seq<char>>::empty());
            }
        }
        rest = next;
        proof {
            assert(string_views(out@) + pieces(rest@) =~= before + pieces(r0));
        }
    }
    proof {
        assert(pieces(rest@) =~= Seq::<Seq<char>>::empty());
        assert(string_views(out@) + Seq::<Seq<char>>::empty() =~= string_views(out@));
    }
    out
}

/// `path` is `root` or lies below it, compared piece by piece as
/// `Path::starts_with` compares (both absolute or both relative).
pub open spec fn path_within_spec(root: Seq<char>, path: Seq<char>) -> bool {
    let rp = pieces(root);
    let pp = pieces(path);
    ((root.len() > 0 && root[0] == '/') == (path.len() > 0 && path[0] == '/')) && rp.len()
        <= pp.len() && pp.take(rp.len() as int) == rp
}

/// Whether the canonical `path` lies inside the canonical workspace `root`.
pub fn path_within(root: &str, path: &str) -> (r: bool)
    ensures
        r == path_within_spec(root@, path@),
{
    let rv = chars_of(root);
    let pv = chars_of(path);
    let r_abs = rv.len() > 0 && rv[0] == '/';
    let p_abs = pv.len() > 0 && pv[0] == '/';
    if r_abs != p_abs {
        return false;
    }
    let rp = path_pieces(root);
    let pp = path_pieces(path);
    let ghost rs = string_views(rp@);
    let ghost ps = string_views(pp@);
    if rp.len() > pp.len() {
        return false;
    }
    let mut i: usize = 0;
    while i < rp.len()
        invariant
            rs == string_views(rp@),
            ps == string_views(pp@),
            rs == pieces(root@),
            ps == pieces(path@),
            (root@.len() > 0 && root@[0] == '/') == (path@.len() > 0 && path@[0] == '/'),
            rp@.len() <= pp@.len(),
            i <= rp@.len(),
            forall|k: int| 0 <= k < i ==> rs[k] == ps[k],
        decreases rp@.len() - i,
    {
        proof {
            assert(rs[i as int] == rp@[i as int]@);
            assert(ps[i as int] == pp@[i as int]@);
        }
        if !str_eq(rp[i].as_str(), pp[i].as_str()) {
            proof {
                assert(ps.take(rs.len() as int)[i as int] != rs[i as int]);
            }
            return false;
        }
        i = i + 1;
    }
    proof {
        assert(ps.take(rs.len() as int) =~= rs);
    }
    true
}

/// The deepest listing the file tree asks for.
pub fn tree_depth(depth: u32) -> (r: u32)
    ensures
        r == if depth < 3 {
            depth
        } else {
            3
        },
{
    if depth < 3 {
        depth
    } else {
        3
    }
}

// ── Directory listings ───────────────────────────────────────────────────

/// A directory entry as read from disk.
#[derive(Debug)]
pub struct DirEntryInfo {
    pub name: String,
    /// `Some(is_dir)`, or `None` when its file type could not be read.
    pub is_dir: Option<bool>,
}

/// Directories the tree never shows.
pub open spec fn ignored_dir(name: Seq<char>) -> bool {
    name == "target"@ || name == "node_modules"@ || name == ".git"@ || name == "__pycache__"@
        || name == ".next"@ || name == "dist"@ || name == "build"@ || name == ".venv"@ || name
        == "venv"@ || name == ".cache"@
}

/// The tree shows an entry unless it is hidden (its name starts with
/// `.`), its type is unknown, or it is an ignored directory.
pub open spec fn shown(e: DirEntryInfo) -> bool {
    !(e.name@.len() > 0 && e.name@[0] == '.') && e.is_dir is Some && !(e.is_dir == Some(true)
        && ignored_dir(e.name@))
}

/// What the listing is ordered by: directories first, then the names in
/// lower case.
pub open spec fn sorts_dir(e: DirEntryInfo) -> bool {
    e.is_dir == Some(true)
}

/// Entry `a` is listed before entry `b` (positions `i` and `j` break
/// ties, the sort being stable).
pub open spec fn listed_before(a: DirEntryInfo, i: int, b: DirEntryInfo, j: int) -> bool {
    if sorts_dir(a) != sorts_dir(b) {
        sorts_dir(a)
    } else {
        let la = unicode_lowercase(a.name@);
        let lb = unicode_lowercase(b.name@);
        if la != lb {
            lex_le(la, lb)
        } else {
            i < j
        }
    }
}

/// The positions of the shown entries, in the order the tree lists them.
pub open spec fn listing_order(entries: Seq<DirEntryInfo>, r: Seq<usize>) -> bool {
    &&& forall|k: int| 0 <= k < r.len() ==> r[k] < entries.len() && shown(entries[r[k] as int])
    &&& forall|i: int| 0 <= i < entries.len() && shown(entries[i]) ==> r.contains(i as usize)
    &&& forall|a: int, b: int|
        0 <= a < b < r.len() ==> listed_before(
            entries[r[a] as int],
            r[a] as int,
            entries[r[b] as int],
            r[b] as int,
        )
}

fn is_shown(e: &DirEntryInfo) -> (r: bool)
    ensures
        r == shown(*e),
{
    let v = chars_of(e.name.as_str());
    if v.len() > 0 && v[0] == '.' {
        return false;
    }
    match e.is_dir {
        None => false,
        Some(d) => {
            if d {
                let n = e.name.as_str();
                !(str_eq(n, "target") || str_eq(n, "node_modules") || str_eq(n, ".git") || str_eq(
                    n,
                    "__pycache__",
                ) || str_eq(n, ".next") || str_eq(n, "dist") || str_eq(n, "build") || str_eq(
                    n,
                    ".venv",
                ) || str_eq(n, "venv") || str_eq(n, ".cache"))
            } else {
                true
            }
        },
    }
}

proof fn lemma_listed_total(a: DirEntryInfo, i: int, b: DirEntryInfo, j: int)
    requires
        i != j,
    ensures
        listed_before(a, i, b, j) || listed_before(b, j, a, i),
{
    crate::order::lemma_lex_total(unicode_lowercase(a.name@), unicode_lowercase(b.name@));
}

proof fn lemma_listed_trans(
    a: DirEntryInfo,
    i: int,
    b: DirEntryInfo,
    j: int,
    c: DirEntryInfo,
    k: int,
)
    requires
        listed_before(a, i, b, j),
        listed_before(b, j, c, k),
    ensures
        listed_before(a, i, c, k),
{
    let la = unicode_lowercase(a.name@);
    let lb = unicode_lowercase(b.name@);
    let lc = unicode_lowercase(c.name@);
    if sorts_dir(a) == sorts_dir(b) && sorts_dir(b) == sorts_dir(c) {
        if la != lb && lb != lc {
            crate::order::lemma_lex_trans(la, lb, lc);
            if la == lc {
                crate::order::lemma_lex_antisym(la, lb);
            }
        }
    }
}

/// The positions of the entries the tree shows, directories first, then
/// by lower-cased name, ties kept in the order read.
pub fn visible_entries(entries: &Vec<DirEntryInfo>) -> (r: Vec<usize>)
    ensures
        listing_order(entries@, r@),
{
    let n = entries.len();
    let mut keys: Vec<String> = Vec::new();
    let mut i: usize = 0;
    while i < n
        invariant
            n == entries@.len(),
            i <= n,
            keys@.len() == i,
            forall|k: int| 0 <= k < i ==> keys@[k]@ == unicode_lowercase(entries@[k].name@),
        decreases n - i,
    {
        keys.push(to_lowercase(entries[i].name.as_str()));
        i = i + 1;
    }
    let mut out: Vec<usize> = Vec::new();
    let mut j: usize = 0;
    while j < n
        invariant
            n == entries@.len(),
            keys@.len() == n,
            forall|k: int| 0 <= k < n ==> keys@[k]@ == unicode_lowercase(entries@[k].name@),
            j <= n,
            forall|k: int| 0 <= k < out@.len() ==> out@[k] < j && shown(entries@[out@[k] as int]),
            forall|x: int| 0 <= x < j && shown(entries@[x]) ==> out@.contains(x as usize),
            forall|a: int, b: int|
                0 <= a < b < out@.len() ==> listed_before(
                    entries@[out@[a] as int],
                    out@[a] as int,
                    entries@[out@[b] as int],
                    out@[b] as int,
                ),
        decreases n - j,
    {
        if is_shown(&entries[j]) {
            // Find where entry `j` goes: after every entry listed before it.
            let mut pos: usize = out.len();
            let mut settled = false;
            while pos > 0 && !settled
                invariant
                    n == entries@.len(),
                    keys@.len() == n,
                    forall|k: int| 0 <= k < n ==> keys@[k]@ == unicode_lowercase(entries@[k].name@),
                    j < n,
                    pos <= out@.len(),
                    forall|k: int| 0 <= k < out@.len() ==> out@[k] < j,
                    forall|k: int|
                        pos <= k < out@.len() ==> listed_before(
                            entries@[j as int],
                            j as int,
                            entries@[out@[k] as int],
                            out@[k] as int,
                        ),
                    settled ==> pos > 0 && !listed_before(
                        entries@[j as int],
                        j as int,
                        entries@[out@[pos - 1] as int],
                        out@[pos - 1] as int,
                    ),
                decreases pos + if settled {
                    0int
                } else {
                    1int
                },
            {
                let o = out[pos - 1];
                let dj = entries[j].is_dir == Some(true);
                let dp = entries[o].is_dir == Some(true);
                let before = if dj != dp {
                    dj
                } else if !str_eq(keys[j].as_str(), keys[o].as_str()) {
                    str_le(keys[j].as_str(), keys[o].as_str())
                } else {
                    false
                };
                proof {
                    assert(keys@[j as int]@ == unicode_lowercase(entries@[j as int].name@));
                    assert(keys@[o as int]@ == unicode_lowercase(entries@[o as int].name@));
                    assert(o < j);
                }
                if !before {
                    settled = true;
                } else {
                    pos = pos - 1;
                }
            }
            proof {
                if pos > 0 {
                    let o = out@[pos - 1];
                    lemma_listed_total(entries@[j as int], j as int, entries@[o as int], o as int);
                }
            }
            let ghost old_out = out@;
            out.insert(pos, j);
            proof {
                assert forall|a: int, b: int| 0 <= a < b < out@.len() implies listed_before(
                    entries@[out@[a] as int],
                    out@[a] as int,
                    entries@[out@[b] as int],
                    out@[b] as int,
                ) by {
                    if b < pos {
                        assert(out@[a] == old_out[a] && out@[b] == old_out[b]);
                    } else if a > pos {
                        assert(out@[a] == old_out[a - 1] && out@[b] == old_out[b - 1]);
                    } else if a == pos {
                        assert(out@[b] == old_out[b - 1]);
                    } else if b == pos {
                        assert(out@[a] == old_out[a]);
                        if a < pos - 1 {
                            let o = old_out[pos - 1];
                            lemma_listed_trans(
                                entries@[old_out[a] as int],
                                old_out[a] as int,
                                entries@[o as int],
                                o as int,
                                entries@[j as int],
                                j as int,
                            );
                        }
                    } else {
                        assert(out@[a] == old_out[a] && out@[b] == old_out[b - 1]);
                    }
                }
                assert forall|x: int| 0 <= x < j + 1 && shown(entries@[x]) implies out@.contains(
                    x as usize,
                ) by {
                    if x < j {
                        let k = choose|k: int| 0 <= k < old_out.len() && old_out[k] == x as usize;
                        if k < pos {
                            assert(out@[k] == x as usize);
                        } else {
                            assert(out@[k + 1] == x as usize);
                        }
                    } else {
                        assert(out@[pos as int] == j);
                    }
                }
                assert forall|k: int| 0 <= k < out@.len() implies out@[k] < j + 1 && shown(
                    entries@[out@[k] as int],
                ) by {
                    if k < pos {
                        assert(out@[k] == old_out[k]);
                    } else if k > pos {
                        assert(out@[k] == old_out[k - 1]);
                    }
                }
            }
        }
        j = j + 1;
    }
    out
}

// ── Attachments ──────────────────────────────────────────────────────────

/// The last piece of a path unless it is `..` (`Path::file_name`).
pub open spec fn file_name_spec(path: Seq<char>) -> Option<Seq<char>> {
    let ps = pieces(path);
    if ps.len() == 0 || ps.last() == seq!['.', '.'] {
        None
    } else {
        Some(ps.last())
    }
}

/// Index of the last `.` of `s`.
pub open spec fn last_dot(s: Seq<char>) -> Option<int>
    decreases s.len(),
{
    if s.len() == 0 {
        None
    } else if s.last() == '.' {
        Some(s.len() - 1)
    } else {
        last_dot(s.drop_last())
    }
}

/// The part of a file name after its last `.`, unless that dot starts
/// the name (`Path::extension`).
pub open spec fn extension_spec(path: Seq<char>) -> Option<Seq<char>> {
    match file_name_spec(path) {
        Some(name) => match last_dot(name) {
            Some(d) => if d == 0 {
                None
            } else {
                Some(name.skip(d + 1))
            },
            None => None,
        },
        None => None,
    }
}

pub open spec fn ascii_alnum(c: char) -> bool {
    ('0' <= c <= '9') || ('a' <= c <= 'z') || ('A' <= c <= 'Z')
}

/// The extension a saved attachment gets: the upload's own, lower-cased,
/// when it is made of ASCII letters and digits only; `bin` otherwise.
pub open spec fn attachment_extension_spec(filename: Seq<char>) -> Seq<char> {
    match extension_spec(filename) {
        Some(e) => {
            let l = unicode_lowercase(e);
            if forall|i: int| 0 <= i < l.len() ==> ascii_alnum(#[trigger] l[i]) {
                l
            } else {
                "bin"@
            }
        },
        None => "bin"@,
    }
}

fn last_dot_exec(v: &Vec<char>) -> (r: Option<usize>)
    ensures
        match r {
            Some(d) => last_dot(v@) == Some(d as int) && d < v@.len(),
            None => last_dot(v@) is None,
        },
{
    let mut k: usize = v.len();
    proof {
        assert(v@.take(k as int) =~= v@);
    }
    while k > 0
        invariant
            k <= v@.len(),
            last_dot(v@) == last_dot(v@.take(k as int)),
        decreases k,
    {
        proof {
            assert(v@.take(k as int).last() == v@[k - 1]);
            assert(v@.take(k as int).drop_last() =~= v@.take(k - 1));
        }
        if v[k - 1] == '.' {
            return Some(k - 1);
        }
        k = k - 1;
    }
    None
}

pub fn attachment_extension(filename: &str) -> (r: String)
    ensures
        r@ == attachment_extension_spec(filename@),
{
    let ps = path_pieces(filename);
    let ghost pv = string_views(ps@);
    if ps.len() == 0 {
        return owned("bin");
    }
    let last = chars_of(ps[ps.len() - 1].as_str());
    proof {
        assert(pv.last() == ps@[ps@.len() - 1]@);
    }
    if last.len() == 2 && last[0] == '.' && last[1] == '.' {
        proof {
            assert(last@ =~= seq!['.', '.']);
        }
        return owned("bin");
    }
    proof {
        assert(last@ != seq!['.', '.']);
    }
    match last_dot_exec(&last) {
        Some(d) => {
            if d == 0 {
                return owned("bin");
            }
            let ext = crate::text::slice_chars(&last, d + 1, last.len());
            proof {
                assert(last@.subrange(d + 1, last@.len() as int) =~= last@.skip(d + 1));
            }
            let ext_s = string_of(ext.as_slice());
            let lower = to_lowercase(ext_s.as_str());
            let lv = chars_of(lower.as_str());
            proof {
                assert(file_name_spec(filename@) == Some(last@));
                assert(extension_spec(filename@) == Some(ext_s@));
            }
            let mut i: usize = 0;
            while i < lv.len()
                invariant
                    lv@ == lower@,
                    lower@ == unicode_lowercase(ext_s@),
                    extension_spec(filename@) == Some(ext_s@),
                    i <= lv@.len(),
                    forall|k: int| 0 <= k < i ==> ascii_alnum(#[trigger] lv@[k]),
                decreases lv@.len() - i,
            {
                let c = lv[i];
                if !(('0' <= c && c <= '9') || ('a' <= c && c <= 'z') || ('A' <= c && c <= 'Z')) {
                    proof {
                        assert(!ascii_alnum(lower@[i as int]));
                    }
                    return owned("bin");
                }
                i = i + 1;
            }
            lower
        },
        None => owned("bin"),
    }
}

/// What `base64`'s standard engine decodes a text to, or the message of
/// its decode error.
pub uninterp spec fn base64_standard_decode(data: Seq<char>) -> Result<Seq<u8>, Seq<char>>;

/// Decodes with `base64::engine::general_purpose::STANDARD`; an error is
/// given as its `Display` text.
#[verifier::external_body]
fn decode_base64(data: &str) -> (r: Result<Vec<u8>, String>)
    ensures
        match r {
            Ok(b) => base64_standard_decode(data@) == Ok::<Seq<u8>, Seq<char>>(b@),
            Err(e) => base64_standard_decode(data@) == Err::<Seq<u8>, Seq<char>>(e@),
        },
{
    base64::Engine::decode(&base64::engine::general_purpose::STANDARD, data).map_err(
        |e| e.to_string(),
    )
}

/// An upload ready to be written: its bytes and the extension its file
/// gets.
#[derive(Debug)]
pub struct PreparedAttachment {
    pub bytes: Vec<u8>,
    pub extension: String,
}

/// Decodes an uploaded attachment and picks its extension; a body that
/// is not base64 is refused with the decoder's message.
pub fn prepare_attachment(filename: &str, data_base64: &str) -> (r: Result<PreparedAttachment, String>)
    ensures
        match base64_standard_decode(data_base64@) {
            Ok(b) => (r matches Ok(p) && p.bytes@ == b && p.extension@ == attachment_extension_spec(
                filename@,
            )),
            Err(m) => (r matches Err(e) && e@ == "base64 decode failed: "@ + m),
        },
{
    match decode_base64(data_base64) {
        Ok(bytes) => Ok(PreparedAttachment { bytes, extension: attachment_extension(filename) }),
        Err(m) => Err(crate::text::concat("base64 decode failed: ", m.as_str())),
    }
}

} // verus!
