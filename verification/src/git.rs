//! The Git panel's data: repository status, commits and branches, and how a
//! file's status flags route it to the staged, unstaged or untracked list.
use vstd::prelude::*;
use crate::evidence::text_lines;
use crate::order::{lex_le, str_le};
use crate::text::{
    chars_of, owned, prefix_chars, str_eq, take_chars, to_lowercase, trim, trim_bounds, trim_str,
    unicode_lowercase,
};

verus! {

broadcast use vstd::string::group_string_axioms;

/// The state of a repository's working tree.
#[derive(Debug)]
pub struct GitStatus {
    pub branch: String,
    pub upstream: Option<String>,
    pub ahead: usize,
    pub behind: usize,
    pub staged: Vec<FileChange>,
    pub unstaged: Vec<FileChange>,
    pub untracked: Vec<String>,
    pub is_repo: bool,
}

/// A changed file and how it changed.
#[derive(Debug)]
pub struct FileChange {
    pub path: String,
    pub status: String,
}

/// One commit of the history.
#[derive(Debug)]
pub struct GitCommit {
    pub hash: String,
    pub short_hash: String,
    pub author: String,
    pub email: String,
    pub timestamp: i64,
    pub message: String,
    pub message_body: String,
}

/// One local or remote branch.
#[derive(Debug)]
pub struct GitBranch {
    pub name: String,
    pub is_current: bool,
    pub is_remote: bool,
    pub upstream: Option<String>,
}

/// The status reported for a directory that is not a repository.
pub fn empty_status() -> (s: GitStatus)
    ensures
        s.branch@ == Seq::<char>::empty(),
        s.upstream is None,
        s.ahead == 0,
        s.behind == 0,
        s.staged@.len() == 0,
        s.unstaged@.len() == 0,
        s.untracked@.len() == 0,
        !s.is_repo,
{
    GitStatus {
        branch: String::new(),
        upstream: None,
        ahead: 0,
        behind: 0,
        staged: Vec::new(),
        unstaged: Vec::new(),
        untracked: Vec::new(),
        is_repo: false,
    }
}

// Status flags of a file, as libgit2 numbers them.
pub const INDEX_NEW: u32 = 1;

pub const INDEX_MODIFIED: u32 = 2;

pub const INDEX_DELETED: u32 = 4;

pub const INDEX_RENAMED: u32 = 8;

pub const INDEX_TYPECHANGE: u32 = 16;

pub const WT_NEW: u32 = 128;

pub const WT_MODIFIED: u32 = 256;

pub const WT_DELETED: u32 = 512;

pub const WT_TYPECHANGE: u32 = 1024;

pub const WT_RENAMED: u32 = 2048;

/// Whether flag `f` is set in `s`.
pub open spec fn has(s: u32, f: u32) -> bool {
    s & f == f
}

fn has_exec(s: u32, f: u32) -> (b: bool)
    ensures
        b == has(s, f),
{
    s & f == f
}

/// The label of a file's staged change, the first of added, modified,
/// deleted, renamed, type change that applies.
pub open spec fn index_label(s: u32) -> Option<Seq<char>> {
    if has(s, INDEX_NEW) {
        Some("added"@)
    } else if has(s, INDEX_MODIFIED) {
        Some("modified"@)
    } else if has(s, INDEX_DELETED) {
        Some("deleted"@)
    } else if has(s, INDEX_RENAMED) {
        Some("renamed"@)
    } else if has(s, INDEX_TYPECHANGE) {
        Some("typechange"@)
    } else {
        None
    }
}

/// The label of a file's unstaged change, the first of modified, deleted,
/// renamed, type change, added that applies.
pub open spec fn workdir_label(s: u32) -> Option<Seq<char>> {
    if has(s, WT_MODIFIED) {
        Some("modified"@)
    } else if has(s, WT_DELETED) {
        Some("deleted"@)
    } else if has(s, WT_RENAMED) {
        Some("renamed"@)
    } else if has(s, WT_TYPECHANGE) {
        Some("typechange"@)
    } else if has(s, WT_NEW) {
        Some("added"@)
    } else {
        None
    }
}

pub open spec fn opt_label(o: Option<&'static str>) -> Option<Seq<char>> {
    match o {
        Some(s) => Some(s@),
        None => None,
    }
}

/// Label of a staged change.
pub fn classify_index_status(s: u32) -> (r: Option<&'static str>)
    ensures
        opt_label(r) == index_label(s),
{
    if has_exec(s, INDEX_NEW) {
        Some("added")
    } else if has_exec(s, INDEX_MODIFIED) {
        Some("modified")
    } else if has_exec(s, INDEX_DELETED) {
        Some("deleted")
    } else if has_exec(s, INDEX_RENAMED) {
        Some("renamed")
    } else if has_exec(s, INDEX_TYPECHANGE) {
        Some("typechange")
    } else {
        None
    }
}

/// Label of an unstaged change.
pub fn classify_workdir_status(s: u32) -> (r: Option<&'static str>)
    ensures
        opt_label(r) == workdir_label(s),
{
    if has_exec(s, WT_MODIFIED) {
        Some("modified")
    } else if has_exec(s, WT_DELETED) {
        Some("deleted")
    } else if has_exec(s, WT_RENAMED) {
        Some("renamed")
    } else if has_exec(s, WT_TYPECHANGE) {
        Some("typechange")
    } else if has_exec(s, WT_NEW) {
        Some("added")
    } else {
        None
    }
}

/// Staged and unstaged changes are named alike: each kind of change (new,
/// modified, deleted, renamed, type change) gets the same label whether it
/// is staged or in the working tree, the five kinds get five different
/// labels, and a file deleted from the working tree, and not also modified
/// there, is reported with the label of a deletion.
pub proof fn lemma_change_labels()
    ensures
        index_label(INDEX_NEW) == workdir_label(WT_NEW),
        index_label(INDEX_MODIFIED) == workdir_label(WT_MODIFIED),
        index_label(INDEX_DELETED) == workdir_label(WT_DELETED),
        index_label(INDEX_RENAMED) == workdir_label(WT_RENAMED),
        index_label(INDEX_TYPECHANGE) == workdir_label(WT_TYPECHANGE),
        workdir_label(WT_DELETED) == Some("deleted"@),
        forall|a: u32, b: u32|
            #![trigger workdir_label(a), workdir_label(b)]
            (a == WT_NEW || a == WT_MODIFIED || a == WT_DELETED || a == WT_RENAMED || a == WT_TYPECHANGE)
                && (b == WT_NEW || b == WT_MODIFIED || b == WT_DELETED || b == WT_RENAMED || b
                == WT_TYPECHANGE) && a != b ==> workdir_label(a) != workdir_label(b),
        forall|s: u32|
            has(s, WT_DELETED) && !(has(s, WT_MODIFIED)) ==> #[trigger] workdir_label(s) == workdir_label(
                WT_DELETED,
            ),
        forall|s: u32|
            has(s, INDEX_DELETED) && !(has(s, INDEX_NEW)) && !(has(s, INDEX_MODIFIED)) ==> #[trigger] index_label(
                s,
            ) == index_label(INDEX_DELETED),
{
    reveal_strlit("added");
    reveal_strlit("modified");
    reveal_strlit("deleted");
    reveal_strlit("renamed");
    reveal_strlit("typechange");
    assert(has(1u32, 1u32)) by (bit_vector);
    assert(has(2u32, 2u32) && !(has(2u32, 1u32))) by (bit_vector);
    assert(has(4u32, 4u32) && !(has(4u32, 1u32)) && !(has(4u32, 2u32))) by (bit_vector);
    assert(has(8u32, 8u32) && !(has(8u32, 1u32)) && !(has(8u32, 2u32)) && !(has(8u32, 4u32))) by (bit_vector);
    assert(has(16u32, 16u32) && !(has(16u32, 1u32)) && !(has(16u32, 2u32)) && !(has(16u32, 4u32)) && !(has(16u32, 8u32,))) by (bit_vector);
    assert(has(256u32, 256u32)) by (bit_vector);
    assert(has(512u32, 512u32) && !(has(512u32, 256u32))) by (bit_vector);
    assert(has(2048u32, 2048u32) && !(has(2048u32, 256u32)) && !(has(2048u32, 512u32))) by (bit_vector);
    assert(has(1024u32, 1024u32) && !(has(1024u32, 256u32)) && !(has(1024u32, 512u32)) && !(has(1024u32, 2048u32,))) by (bit_vector);
    assert(has(128u32, 128u32) && !(has(128u32, 256u32)) && !(has(128u32, 512u32)) && !(has(128u32, 2048u32))
        && !(has(128u32, 1024u32))) by (bit_vector);
    assert("added"@.len() == 5 && "modified"@.len() == 8 && "deleted"@.len() == 7);
    assert("renamed"@.len() == 7 && "typechange"@.len() == 10);
    assert("deleted"@[0] != "renamed"@[0]);
}

/// A new file with no staged change is untracked.
pub open spec fn is_untracked(s: u32) -> bool {
    has(s, WT_NEW) && index_label(s) is None
}

/// Where a file of status `s` is listed.
pub struct Placement {
    pub untracked: bool,
    pub staged: Option<&'static str>,
    pub unstaged: Option<&'static str>,
}

/// Routes a file by its status flags: an untracked file is only listed as
/// untracked; otherwise it is listed as staged and/or unstaged by its
/// labels.
pub fn place_status(s: u32) -> (p: Placement)
    ensures
        p.untracked == is_untracked(s),
        opt_label(p.staged) == if is_untracked(s) {
            None
        } else {
            index_label(s)
        },
        opt_label(p.unstaged) == if is_untracked(s) {
            None
        } else {
            workdir_label(s)
        },
{
    let index = classify_index_status(s);
    if has_exec(s, WT_NEW) && index.is_none() {
        return Placement { untracked: true, staged: None, unstaged: None };
    }
    Placement { untracked: false, staged: index, unstaged: classify_workdir_status(s) }
}

/// The message of a failed `git` command: its trimmed error output, else
/// its trimmed standard output, else the exit status.
pub open spec fn git_error_spec(stderr: Seq<char>, stdout: Seq<char>, status: Seq<char>) -> Seq<
    char,
> {
    if trim(stderr).len() > 0 {
        trim(stderr)
    } else if trim(stdout).len() > 0 {
        trim(stdout)
    } else {
        "git exited with status "@ + status
    }
}

/// Builds the message of a failed `git` command.
pub fn git_error_message(stderr: &str, stdout: &str, status: &str) -> (r: String)
    ensures
        r@ == git_error_spec(stderr@, stdout@, status@),
{
    let e = trim_str(stderr);
    let ev = chars_of(e.as_str());
    if ev.len() > 0 {
        return e;
    }
    let o = trim_str(stdout);
    let ov = chars_of(o.as_str());
    if ov.len() > 0 {
        return o;
    }
    let mut m = owned("git exited with status ");
    crate::text::push_str(&mut m, status);
    m
}

/// Refuses a blank required argument of a Git command with `message`.
pub fn require_nonblank(value: &str, message: &str) -> (r: Result<(), String>)
    ensures
        trim(value@).len() == 0 <==> r is Err,
        r matches Err(m) ==> m@ == message@,
{
    let v = chars_of(value);
    let (a, b) = trim_bounds(v.as_slice());
    if a == b {
        Err(owned(message))
    } else {
        Ok(())
    }
}


// ── Status lists ─────────────────────────────────────────────────────────

pub open spec fn change_view(c: FileChange) -> (Seq<char>, Seq<char>) {
    (c.path@, c.status@)
}

pub open spec fn change_views(v: Seq<FileChange>) -> Seq<(Seq<char>, Seq<char>)> {
    v.map_values(|c: FileChange| change_view(c))
}

/// The staged changes among status entries `(path, flags)`; entries
/// without a path are skipped.
pub open spec fn staged_spec(entries: Seq<(String, u32)>) -> Seq<(Seq<char>, Seq<char>)>
    decreases entries.len(),
{
    if entries.len() == 0 {
        Seq::empty()
    } else {
        let rest = staged_spec(entries.drop_last());
        let (p, f) = entries.last();
        if p@.len() > 0 && !is_untracked(f) && index_label(f) is Some {
            rest.push((p@, index_label(f)->0))
        } else {
            rest
        }
    }
}

/// The unstaged changes among status entries.
pub open spec fn unstaged_spec(entries: Seq<(String, u32)>) -> Seq<(Seq<char>, Seq<char>)>
    decreases entries.len(),
{
    if entries.len() == 0 {
        Seq::empty()
    } else {
        let rest = unstaged_spec(entries.drop_last());
        let (p, f) = entries.last();
        if p@.len() > 0 && !is_untracked(f) && workdir_label(f) is Some {
            rest.push((p@, workdir_label(f)->0))
        } else {
            rest
        }
    }
}

/// The untracked paths among status entries.
pub open spec fn untracked_spec(entries: Seq<(String, u32)>) -> Seq<Seq<char>>
    decreases entries.len(),
{
    if entries.len() == 0 {
        Seq::empty()
    } else {
        let rest = untracked_spec(entries.drop_last());
        let (p, f) = entries.last();
        if p@.len() > 0 && is_untracked(f) {
            rest.push(p@)
        } else {
            rest
        }
    }
}

/// The branch shown for a repository: the head's short name, `(detached)`
/// when it has none, `(no commits yet)` when there is no head.
pub open spec fn branch_label_spec(head: Option<Option<Seq<char>>>) -> Seq<char> {
    match head {
        Some(Some(n)) => n,
        Some(None) => "(detached)"@,
        None => "(no commits yet)"@,
    }
}

pub fn branch_label(head: Option<Option<String>>) -> (r: String)
    ensures
        r@ == branch_label_spec(
            match head {
                Some(Some(n)) => Some(Some(n@)),
                Some(None) => Some(None),
                None => None,
            },
        ),
{
    match head {
        Some(Some(n)) => n,
        Some(None) => owned("(detached)"),
        None => owned("(no commits yet)"),
    }
}

/// Upstream tracking is looked up only for a named branch.
pub fn tracks_upstream(branch: &str) -> (r: bool)
    ensures
        r == (branch@ != "(detached)"@ && branch@ != "(no commits yet)"@),
{
    !str_eq(branch, "(detached)") && !str_eq(branch, "(no commits yet)")
}

/// A repository's status from its branch, upstream and the flags of each
/// changed path.
pub fn repo_status(
    branch: String,
    upstream: Option<String>,
    ahead: usize,
    behind: usize,
    entries: &Vec<(String, u32)>,
) -> (r: GitStatus)
    ensures
        r.branch@ == branch@,
        r.upstream == upstream,
        r.ahead == ahead,
        r.behind == behind,
        r.is_repo,
        change_views(r.staged@) == staged_spec(entries@),
        change_views(r.unstaged@) == unstaged_spec(entries@),
        r.untracked@.map_values(|p: String| p@) == untracked_spec(entries@),
{
    let mut staged: Vec<FileChange> = Vec::new();
    let mut unstaged: Vec<FileChange> = Vec::new();
    let mut untracked: Vec<String> = Vec::new();
    let mut i: usize = 0;
    proof {
        assert(entries@.take(0) =~= Seq::<(String, u32)>::empty());
        assert(change_views(staged@) =~= Seq::<(Seq<char>, Seq<char>)>::empty());
        assert(change_views(unstaged@) =~= Seq::<(Seq<char>, Seq<char>)>::empty());
        assert(untracked@.map_values(|p: String| p@) =~= Seq::<Seq<char>>::empty());
    }
    while i < entries.len()
        invariant
            i <= entries@.len(),
            change_views(staged@) == staged_spec(entries@.take(i as int)),
            change_views(unstaged@) == unstaged_spec(entries@.take(i as int)),
            untracked@.map_values(|p: String| p@) == untracked_spec(entries@.take(i as int)),
        decreases entries@.len() - i,
    {
        proof {
            assert(entries@.take(i + 1).drop_last() =~= entries@.take(i as int));
            assert(entries@.take(i + 1).last() == entries@[i as int]);
        }
        let path = &entries[i].0;
        let flags = entries[i].1;
        let nonempty = chars_of(path.as_str()).len() > 0;
        if nonempty {
            let p = place_status(flags);
            if p.untracked {
                let ghost before = untracked@.map_values(|p: String| p@);
                untracked.push(path.clone());
                proof {
                    assert(untracked@.map_values(|p: String| p@) =~= before.push(path@));
                }
            } else {
                match p.staged {
                    Some(label) => {
                        let ghost before = change_views(staged@);
                        staged.push(FileChange { path: path.clone(), status: owned(label) });
                        proof {
                            assert(change_views(staged@) =~= before.push((path@, label@)));
                        }
                    },
                    None => {},
                }
                match p.unstaged {
                    Some(label) => {
                        let ghost before = change_views(unstaged@);
                        unstaged.push(FileChange { path: path.clone(), status: owned(label) });
                        proof {
                            assert(change_views(unstaged@) =~= before.push((path@, label@)));
                        }
                    },
                    None => {},
                }
            }
        }
        i = i + 1;
    }
    proof {
        assert(entries@.take(entries@.len() as int) =~= entries@);
    }
    GitStatus { branch, upstream, ahead, behind, staged, unstaged, untracked, is_repo: true }
}

// ── History ──────────────────────────────────────────────────────────────

/// How many commits the history shows: 50 when no limit is given.
pub fn log_limit(limit: u32) -> (r: usize)
    ensures
        r == if limit == 0 {
            50
        } else {
            limit as usize
        },
{
    if limit == 0 {
        50
    } else {
        limit as usize
    }
}

/// A commit's subject: the first line of its message (empty for an empty
/// message).
pub open spec fn subject_spec(message: Seq<char>) -> Seq<char> {
    let ls = text_lines(message);
    if ls.len() > 0 {
        ls[0]
    } else {
        Seq::empty()
    }
}

/// A commit as the history lists it: its hash and the first seven
/// characters of it, author, e-mail, time, subject and full message.
pub fn history_commit(hash: String, author: String, email: String, timestamp: i64, message: String) -> (r:
    GitCommit)
    ensures
        r.hash@ == hash@,
        r.short_hash@ == prefix_chars(hash@, 7),
        r.author@ == author@,
        r.email@ == email@,
        r.timestamp == timestamp,
        r.message@ == subject_spec(message@),
        r.message_body@ == message@,
{
    let short_hash = take_chars(hash.as_str(), 7);
    let lines = crate::evidence::split_lines(message.as_str());
    let subject = if lines.len() > 0 {
        proof {
            assert(crate::order::string_views(lines@)[0] == lines@[0]@);
        }
        lines[0].clone()
    } else {
        String::new()
    };
    GitCommit { hash, short_hash, author, email, timestamp, message: subject, message_body: message }
}

// ── Branch order ─────────────────────────────────────────────────────────

/// Branch `a` is listed before branch `b`: the current branch first, then
/// local before remote, then by lower-cased name, ties in the order read.
pub open spec fn branch_before(a: GitBranch, i: int, b: GitBranch, j: int) -> bool {
    if a.is_current != b.is_current {
        a.is_current
    } else if a.is_remote != b.is_remote {
        !a.is_remote
    } else {
        let la = unicode_lowercase(a.name@);
        let lb = unicode_lowercase(b.name@);
        if la != lb {
            lex_le(la, lb)
        } else {
            i < j
        }
    }
}

proof fn lemma_branch_total(a: GitBranch, i: int, b: GitBranch, j: int)
    requires
        i != j,
    ensures
        branch_before(a, i, b, j) || branch_before(b, j, a, i),
{
    crate::order::lemma_lex_total(unicode_lowercase(a.name@), unicode_lowercase(b.name@));
}

proof fn lemma_branch_trans(a: GitBranch, i: int, b: GitBranch, j: int, c: GitBranch, k: int)
    requires
        branch_before(a, i, b, j),
        branch_before(b, j, c, k),
    ensures
        branch_before(a, i, c, k),
{
    let la = unicode_lowercase(a.name@);
    let lb = unicode_lowercase(b.name@);
    let lc = unicode_lowercase(c.name@);
    if a.is_current == b.is_current && b.is_current == c.is_current && a.is_remote == b.is_remote
        && b.is_remote == c.is_remote {
        if la != lb && lb != lc {
            crate::order::lemma_lex_trans(la, lb, lc);
            if la == lc {
                crate::order::lemma_lex_antisym(la, lb);
            }
        }
    }
}

/// The positions of the branches in the order the panel lists them.
pub fn branch_order(branches: &Vec<GitBranch>) -> (r: Vec<usize>)
    ensures
        r@.len() == branches@.len(),
        forall|k: int| 0 <= k < r@.len() ==> r@[k] < branches@.len(),
        forall|i: usize| i < branches@.len() ==> r@.contains(i),
        forall|a: int, b: int|
            0 <= a < b < r@.len() ==> branch_before(
                branches@[r@[a] as int],
                r@[a] as int,
                branches@[r@[b] as int],
                r@[b] as int,
            ),
{
    let n = branches.len();
    let mut keys: Vec<String> = Vec::new();
    let mut i: usize = 0;
    while i < n
        invariant
            n == branches@.len(),
            i <= n,
            keys@.len() == i,
            forall|k: int| 0 <= k < i ==> keys@[k]@ == unicode_lowercase(branches@[k].name@),
        decreases n - i,
    {
        keys.push(to_lowercase(branches[i].name.as_str()));
        i = i + 1;
    }
    let mut out: Vec<usize> = Vec::new();
    let mut j: usize = 0;
    while j < n
        invariant
            n == branches@.len(),
            keys@.len() == n,
            forall|k: int| 0 <= k < n ==> keys@[k]@ == unicode_lowercase(branches@[k].name@),
            j <= n,
            out@.len() == j,
            forall|k: int| 0 <= k < out@.len() ==> out@[k] < j,
            forall|x: usize| x < j ==> out@.contains(x),
            forall|a: int, b: int|
                0 <= a < b < out@.len() ==> branch_before(
                    branches@[out@[a] as int],
                    out@[a] as int,
                    branches@[out@[b] as int],
                    out@[b] as int,
                ),
        decreases n - j,
    {
        let mut pos: usize = out.len();
        let mut settled = false;
        while pos > 0 && !settled
            invariant
                n == branches@.len(),
                keys@.len() == n,
                forall|k: int| 0 <= k < n ==> keys@[k]@ == unicode_lowercase(branches@[k].name@),
                j < n,
                pos <= out@.len(),
                forall|k: int| 0 <= k < out@.len() ==> out@[k] < j,
                forall|k: int|
                    pos <= k < out@.len() ==> branch_before(
                        branches@[j as int],
                        j as int,
                        branches@[out@[k] as int],
                        out@[k] as int,
                    ),
                settled ==> pos > 0 && !branch_before(
                    branches@[j as int],
                    j as int,
                    branches@[out@[pos - 1] as int],
                    out@[pos - 1] as int,
                ),
            decreases pos + if settled {
                0int
            } else {
                1int
            },
        {
            let o = out[pos - 1];
            let bj = &branches[j];
            let bo = &branches[o];
            let before = if bj.is_current != bo.is_current {
                bj.is_current
            } else if bj.is_remote != bo.is_remote {
                !bj.is_remote
            } else if !str_eq(keys[j].as_str(), keys[o].as_str()) {
                str_le(keys[j].as_str(), keys[o].as_str())
            } else {
                false
            };
            proof {
                assert(keys@[j as int]@ == unicode_lowercase(branches@[j as int].name@));
                assert(keys@[o as int]@ == unicode_lowercase(branches@[o as int].name@));
                assert(o < j);
            }
            if !before {
                settled = true;
            } else {
                pos = pos - 1;
            }
        }
        proof {
            if pos > 0 {
                let o = out@[pos - 1];
                lemma_branch_total(branches@[j as int], j as int, branches@[o as int], o as int);
            }
        }
        let ghost old_out = out@;
        out.insert(pos, j);
        proof {
            assert forall|a: int, b: int| 0 <= a < b < out@.len() implies branch_before(
                branches@[out@[a] as int],
                out@[a] as int,
                branches@[out@[b] as int],
                out@[b] as int,
            ) by {
                if b < pos {
                    assert(out@[a] == old_out[a] && out@[b] == old_out[b]);
                } else if a > pos {
                    assert(out@[a] == old_out[a - 1] && out@[b] == old_out[b - 1]);
                } else if a == pos {
                    assert(out@[b] == old_out[b - 1]);
                } else if b == pos {
                    assert(out@[a] == old_out[a]);
                    if a < pos - 1 {
                        let o = old_out[pos - 1];
                        lemma_branch_trans(
                            branches@[old_out[a] as int],
                            old_out[a] as int,
                            branches@[o as int],
                            o as int,
                            branches@[j as int],
                            j as int,
                        );
                    }
                } else {
                    assert(out@[a] == old_out[a] && out@[b] == old_out[b - 1]);
                }
            }
            assert forall|x: usize| x < j + 1 implies out@.contains(x) by {
                if x < j {
                    assert(old_out.contains(x));
                    let k = choose|k: int| 0 <= k < old_out.len() && old_out[k] == x;
                    if k < pos {
                        assert(out@[k] == x);
                    } else {
                        assert(out@[k + 1] == x);
                    }
                } else {
                    assert(out@[pos as int] == j);
                }
            }
            assert forall|k: int| 0 <= k < out@.len() implies out@[k] < j + 1 by {
                if k < pos {
                    assert(out@[k] == old_out[k]);
                } else if k > pos {
                    assert(out@[k] == old_out[k - 1]);
                }
            }
        }
        j = j + 1;
    }
    out
}

} // verus!
