//! Evidence packs: what a finished spec run is summarised as — its task
//! outcomes, the files it changed, its verification verdict, its commits
//! and a Markdown summary.
use vstd::prelude::*;
use crate::json::{entries_of, json_as_bool, json_as_str, json_get, set_result, Json};
use crate::forge::{first_index, first_index_exec};
use crate::order::{dedup, dedup_strings, lex_le, str_le, string_views};
use crate::redact::{json_redacted, redact_json, redact_spec, redact_text};
use crate::text::{
    chars_of, concat, contains, owned, prefix_chars, push_str, slice_chars, str_contains, str_eq,
    string_of, take_chars, decimal, int_decimal, i64_string, u64_string, join, join_strings, views,
};

verus! {

broadcast use vstd::string::group_string_axioms;

/// A task run of the spec, as the evidence pack reads it.
#[derive(Debug)]
pub struct TaskRunInfo {
    pub id: String,
    pub title: String,
    pub description: String,
    pub status: String,
    pub error: Option<String>,
    /// The recorded verification results, as JSON text.
    pub verification_results: Option<String>,
    pub started_at: Option<String>,
    pub completed_at: Option<String>,
}

// ── Task outcomes ────────────────────────────────────────────────────────

/// How many tasks have the status `s`.
pub open spec fn count_status(tasks: Seq<TaskRunInfo>, s: Seq<char>) -> nat
    decreases tasks.len(),
{
    if tasks.len() == 0 {
        0
    } else {
        count_status(tasks.drop_last(), s) + if tasks.last().status@ == s {
            1nat
        } else {
            0nat
        }
    }
}

fn count_with_status(tasks: &Vec<TaskRunInfo>, s: &str) -> (r: usize)
    ensures
        r == count_status(tasks@, s@),
{
    let mut c: usize = 0;
    let mut i: usize = 0;
    proof {
        assert(tasks@.take(0) =~= Seq::<TaskRunInfo>::empty());
    }
    while i < tasks.len()
        invariant
            i <= tasks@.len(),
            c == count_status(tasks@.take(i as int), s@),
            c <= i,
        decreases tasks@.len() - i,
    {
        proof {
            assert(tasks@.take(i + 1).drop_last() =~= tasks@.take(i as int));
            assert(tasks@.take(i + 1).last() == tasks@[i as int]);
        }
        if str_eq(tasks[i].status.as_str(), s) {
            c = c + 1;
        }
        i = i + 1;
    }
    proof {
        assert(tasks@.take(tasks@.len() as int) =~= tasks@);
    }
    c
}

/// The overall status of a run: `passed` when every task completed and
/// none failed, `failed` when none completed, else `partial`.
pub open spec fn pack_status_spec(total: nat, completed: nat, failed: nat) -> Seq<char> {
    if failed == 0 && completed == total && total > 0 {
        "passed"@
    } else if completed == 0 {
        "failed"@
    } else {
        "partial"@
    }
}

/// Task counts of a run and its overall status.
#[derive(Debug)]
pub struct TaskOutcome {
    pub total_tasks: usize,
    pub completed_tasks: usize,
    pub failed_tasks: usize,
    pub status: String,
}

pub fn task_outcome(tasks: &Vec<TaskRunInfo>) -> (r: TaskOutcome)
    ensures
        r.total_tasks == tasks@.len(),
        r.completed_tasks == count_status(tasks@, "completed"@),
        r.failed_tasks == count_status(tasks@, "failed"@),
        r.status@ == pack_status_spec(
            tasks@.len(),
            count_status(tasks@, "completed"@),
            count_status(tasks@, "failed"@),
        ),
{
    let completed = count_with_status(tasks, "completed");
    let failed = count_with_status(tasks, "failed");
    let total = tasks.len();
    let status = if failed == 0 && completed == total && total > 0 {
        owned("passed")
    } else if completed == 0 {
        owned("failed")
    } else {
        owned("partial")
    };
    TaskOutcome { total_tasks: total, completed_tasks: completed, failed_tasks: failed, status }
}

/// `[title] ` followed by at most 120 characters of `text`.
pub open spec fn task_note(title: Seq<char>, infix: Seq<char>, text: Seq<char>) -> Seq<char> {
    "["@ + title + "] "@ + infix + prefix_chars(text, 120)
}

/// Notes on the tasks whose description mentions an assumption or a
/// default.
pub open spec fn assumption_notes_spec(tasks: Seq<TaskRunInfo>) -> Seq<Seq<char>>
    decreases tasks.len(),
{
    if tasks.len() == 0 {
        Seq::empty()
    } else {
        let rest = assumption_notes_spec(tasks.drop_last());
        let t = tasks.last();
        if contains(t.description@, "assume"@) || contains(t.description@, "default"@) {
            rest.push(task_note(t.title@, ""@, t.description@))
        } else {
            rest
        }
    }
}

/// Notes on the failed tasks and their errors.
pub open spec fn review_notes_spec(tasks: Seq<TaskRunInfo>) -> Seq<Seq<char>>
    decreases tasks.len(),
{
    if tasks.len() == 0 {
        Seq::empty()
    } else {
        let rest = review_notes_spec(tasks.drop_last());
        let t = tasks.last();
        if t.status@ == "failed"@ {
            rest.push(
                task_note(
                    t.title@,
                    "Failed: "@,
                    match t.error {
                        Some(e) => e@,
                        None => "unknown error"@,
                    },
                ),
            )
        } else {
            rest
        }
    }
}

fn note(title: &str, infix: &str, text: &str) -> (r: String)
    ensures
        r@ == task_note(title@, infix@, text@),
{
    let mut r = owned("[");
    push_str(&mut r, title);
    push_str(&mut r, "] ");
    push_str(&mut r, infix);
    let t = take_chars(text, 120);
    push_str(&mut r, t.as_str());
    r
}

pub fn assumption_notes(tasks: &Vec<TaskRunInfo>) -> (r: Vec<String>)
    ensures
        string_views(r@) == assumption_notes_spec(tasks@),
{
    let mut out: Vec<String> = Vec::new();
    let mut i: usize = 0;
    proof {
        assert(tasks@.take(0) =~= Seq::<TaskRunInfo>::empty());
        assert(string_views(out@) =~= Seq::<Seq<char>>::empty());
    }
    while i < tasks.len()
        invariant
            i <= tasks@.len(),
            string_views(out@) == assumption_notes_spec(tasks@.take(i as int)),
        decreases tasks@.len() - i,
    {
        proof {
            assert(tasks@.take(i + 1).drop_last() =~= tasks@.take(i as int));
            assert(tasks@.take(i + 1).last() == tasks@[i as int]);
        }
        let t = &tasks[i];
        let d = t.description.as_str();
        if str_contains(d, "assume") || str_contains(d, "default") {
            let ghost before = string_views(out@);
            out.push(note(t.title.as_str(), "", d));
            proof {
                assert(string_views(out@) =~= before.push(
                    task_note(t.title@, ""@, t.description@),
                ));
            }
        }
        i = i + 1;
    }
    proof {
        assert(tasks@.take(tasks@.len() as int) =~= tasks@);
    }
    out
}

pub fn review_notes(tasks: &Vec<TaskRunInfo>) -> (r: Vec<String>)
    ensures
        string_views(r@) == review_notes_spec(tasks@),
{
    let mut out: Vec<String> = Vec::new();
    let mut i: usize = 0;
    proof {
        assert(tasks@.take(0) =~= Seq::<TaskRunInfo>::empty());
        assert(string_views(out@) =~= Seq::<Seq<char>>::empty());
    }
    while i < tasks.len()
        invariant
            i <= tasks@.len(),
            string_views(out@) == review_notes_spec(tasks@.take(i as int)),
        decreases tasks@.len() - i,
    {
        proof {
            assert(tasks@.take(i + 1).drop_last() =~= tasks@.take(i as int));
            assert(tasks@.take(i + 1).last() == tasks@[i as int]);
        }
        let t = &tasks[i];
        if str_eq(t.status.as_str(), "failed") {
            let ghost before = string_views(out@);
            let n = match &t.error {
                Some(e) => note(t.title.as_str(), "Failed: ", e.as_str()),
                None => note(t.title.as_str(), "Failed: ", "unknown error"),
            };
            out.push(n);
            proof {
                assert(string_views(out@) =~= before.push(
                    task_note(
                        t.title@,
                        "Failed: "@,
                        match t.error {
                            Some(e) => e@,
                            None => "unknown error"@,
                        },
                    ),
                ));
            }
        }
        i = i + 1;
    }
    proof {
        assert(tasks@.take(tasks@.len() as int) =~= tasks@);
    }
    out
}

// ── Changed files ────────────────────────────────────────────────────────

pub open spec fn is_file_write_tool(name: Seq<char>) -> bool {
    name == "write_file"@ || name == "edit_file"@ || name == "WriteFile"@ || name == "EditFile"@
}

/// The path a file-writing call names: its `path` entry, or its
/// `file_path` entry when there is no `path`, when that entry is text.
pub open spec fn written_path(args: Json) -> Option<Seq<char>> {
    let entry = match json_get(args, "path"@) {
        Some(v) => Some(v),
        None => json_get(args, "file_path"@),
    };
    match entry {
        Some(v) => json_as_str(v),
        None => None,
    }
}

/// A recorded tool call: its name and its (redacted) arguments.
pub open spec fn call_path(call: (String, Json)) -> Option<Seq<char>> {
    if is_file_write_tool(call.0@) {
        written_path(call.1)
    } else {
        None
    }
}

pub open spec fn written_paths(calls: Seq<(String, Json)>) -> Seq<Seq<char>>
    decreases calls.len(),
{
    if calls.len() == 0 {
        Seq::empty()
    } else {
        let rest = written_paths(calls.drop_last());
        match call_path(calls.last()) {
            Some(p) => rest.push(p),
            None => rest,
        }
    }
}

fn path_of_call(call: &(String, Json)) -> (r: Option<String>)
    ensures
        match r {
            Some(p) => call_path(*call) == Some(p@),
            None => call_path(*call) is None,
        },
{
    let name = call.0.as_str();
    if !(str_eq(name, "write_file") || str_eq(name, "edit_file") || str_eq(name, "WriteFile")
        || str_eq(name, "EditFile")) {
        return None;
    }
    let entry = match call.1.get("path") {
        Some(v) => Some(v),
        None => call.1.get("file_path"),
    };
    match entry {
        Some(v) => match v.as_str() {
            Some(p) => Some(owned(p)),
            None => None,
        },
        None => None,
    }
}

/// The files the run's tool calls wrote, each once, in order of first
/// write.
pub fn changed_paths(calls: &Vec<(String, Json)>) -> (r: Vec<String>)
    ensures
        string_views(r@) == dedup(written_paths(calls@)),
{
    let mut all: Vec<String> = Vec::new();
    let mut i: usize = 0;
    proof {
        assert(calls@.take(0) =~= Seq::<(String, Json)>::empty());
        assert(string_views(all@) =~= Seq::<Seq<char>>::empty());
    }
    while i < calls.len()
        invariant
            i <= calls@.len(),
            string_views(all@) == written_paths(calls@.take(i as int)),
        decreases calls@.len() - i,
    {
        proof {
            assert(calls@.take(i + 1).drop_last() =~= calls@.take(i as int));
            assert(calls@.take(i + 1).last() == calls@[i as int]);
        }
        match path_of_call(&calls[i]) {
            Some(p) => {
                let ghost before = string_views(all@);
                all.push(p);
                proof {
                    assert(string_views(all@) =~= before.push(p@));
                }
            },
            None => {},
        }
        i = i + 1;
    }
    proof {
        assert(calls@.take(calls@.len() as int) =~= calls@);
    }
    dedup_strings(&all)
}

// ── Verification ─────────────────────────────────────────────────────────

/// The run passed verification: it has verification results and none of
/// them reports `passed: false`.
pub open spec fn verification_passed_spec(items: Seq<Json>) -> bool {
    items.len() > 0 && forall|i: int|
        0 <= i < items.len() ==> !(match json_get(#[trigger] items[i], "passed"@) {
            Some(v) => json_as_bool(v) == Some(false),
            None => false,
        })
}

pub fn verification_passed(items: &Vec<Json>) -> (r: bool)
    ensures
        r == verification_passed_spec(items@),
{
    if items.len() == 0 {
        return false;
    }
    let mut i: usize = 0;
    while i < items.len()
        invariant
            i <= items@.len(),
            forall|k: int|
                0 <= k < i ==> !(match json_get(#[trigger] items@[k], "passed"@) {
                    Some(v) => json_as_bool(v) == Some(false),
                    None => false,
                }),
        decreases items@.len() - i,
    {
        match items[i].get("passed") {
            Some(v) => {
                if v.as_bool() == Some(false) {
                    return false;
                }
            },
            None => {},
        }
        i = i + 1;
    }
    true
}

// ── Knowledge retrievals ─────────────────────────────────────────────────

/// Indices of the first occurrence of each id, ascending.
pub open spec fn first_occurrence(ids: Seq<String>, i: int) -> bool {
    forall|j: int| 0 <= j < i ==> ids[j]@ != ids[i]@
}

/// Positions of the retrieval events to keep: the first event of each id.
pub fn first_occurrences(ids: &Vec<String>) -> (r: Vec<usize>)
    ensures
        forall|k: int| 0 <= k < r@.len() ==> (r@[k] as int) < ids@.len(),
        forall|a: int, b: int| 0 <= a < b < r@.len() ==> r@[a] < r@[b],
        forall|i: int|
            0 <= i < ids@.len() ==> (first_occurrence(ids@, i) <==> r@.contains(i as usize)),
{
    let mut out: Vec<usize> = Vec::new();
    let mut seen: Vec<String> = Vec::new();
    let mut i: usize = 0;
    while i < ids.len()
        invariant
            i <= ids@.len(),
            forall|k: int| 0 <= k < out@.len() ==> (out@[k] as int) < i,
            forall|a: int, b: int| 0 <= a < b < out@.len() ==> out@[a] < out@[b],
            forall|x: int| 0 <= x < i ==> (first_occurrence(ids@, x) <==> out@.contains(x as usize)),
            forall|s: Seq<char>|
                string_views(seen@).contains(s) <==> exists|j: int| 0 <= j < i && ids@[j]@ == s,
        decreases ids@.len() - i,
    {
        let known = crate::order::contains_string(&seen, ids[i].as_str());
        let ghost out0 = out@;
        let ghost seen0 = string_views(seen@);
        if !known {
            out.push(i);
            seen.push(ids[i].clone());
            proof {
                assert(string_views(seen@) =~= seen0.push(ids@[i as int]@));
            }
        }
        proof {
            assert forall|x: int| 0 <= x < i + 1 implies (first_occurrence(ids@, x)
                <==> out@.contains(x as usize)) by {
                if x < i {
                    if out@.contains(x as usize) {
                        let k = choose|k: int| 0 <= k < out@.len() && out@[k] == x as usize;
                        if k == out@.len() - 1 && !known {
                            assert(out@[k] == i);
                        } else {
                            assert(out0[k] == out@[k]);
                            assert(out0.contains(x as usize));
                        }
                    }
                    if out0.contains(x as usize) {
                        let k = choose|k: int| 0 <= k < out0.len() && out0[k] == x as usize;
                        assert(out@[k] == out0[k]);
                    }
                } else {
                    if known {
                        let j = choose|j: int| 0 <= j < i && ids@[j]@ == ids@[i as int]@;
                        assert(!first_occurrence(ids@, x));
                        assert forall|k: int| 0 <= k < out@.len() implies out@[k] != x as usize by {
                            assert(out0[k] == out@[k]);
                        }
                    } else {
                        assert(out@[out@.len() - 1] == i);
                        assert forall|j: int| 0 <= j < x implies ids@[j]@ != ids@[x]@ by {
                            if ids@[j]@ == ids@[x]@ {
                                assert(seen0.contains(ids@[x]@));
                            }
                        }
                    }
                }
            }
            assert forall|s: Seq<char>| string_views(seen@).contains(s) <==> exists|j: int|
                0 <= j < i + 1 && ids@[j]@ == s by {
                if string_views(seen@).contains(s) {
                    if !known && s == ids@[i as int]@ {
                        assert(ids@[i as int]@ == s);
                    } else {
                        let k = choose|k: int|
                            0 <= k < string_views(seen@).len() && string_views(seen@)[k] == s;
                        if !known {
                            if k < seen0.len() {
                                assert(seen0[k] == s);
                            }
                        } else {
                            assert(seen0[k] == s);
                        }
                        assert(seen0.contains(s) || s == ids@[i as int]@);
                    }
                }
                if exists|j: int| 0 <= j < i + 1 && ids@[j]@ == s {
                    let j = choose|j: int| 0 <= j < i + 1 && ids@[j]@ == s;
                    if j < i {
                        assert(seen0.contains(s));
                        let k = choose|k: int| 0 <= k < seen0.len() && seen0[k] == s;
                        if !known {
                            assert(string_views(seen@)[k] == s);
                        }
                    } else {
                        if !known {
                            assert(string_views(seen@)[seen0.len() as int] == s);
                        }
                    }
                }
            }
        }
        i = i + 1;
    }
    out
}


// ── Commits ──────────────────────────────────────────────────────────────

pub proof fn lemma_first_index_bound(s: Seq<char>, c: char)
    ensures
        first_index(s, c) matches Some(i) ==> 0 <= i < s.len() && s[i] == c && forall|k: int|
            0 <= k < i ==> s[k] != c,
    decreases s.len(),
{
    if s.len() > 0 && s[0] != c {
        lemma_first_index_bound(s.drop_first(), c);
        if let Some(i) = first_index(s.drop_first(), c) {
            assert forall|k: int| 0 <= k < i + 1 implies s[k] != c by {
                if k > 0 {
                    assert(s[k] == s.drop_first()[k - 1]);
                }
            }
        }
    }
}

/// A line without the `\r` of a `\r\n` ending.
pub open spec fn strip_cr(l: Seq<char>) -> Seq<char> {
    if l.len() > 0 && l.last() == '\r' {
        l.drop_last()
    } else {
        l
    }
}

/// The lines of a text (`str::lines`): split at `\n`, a `\r` before the
/// `\n` dropped, no line after a final `\n`.
pub open spec fn text_lines(s: Seq<char>) -> Seq<Seq<char>>
    decreases s.len(),
{
    if s.len() == 0 {
        Seq::empty()
    } else {
        match first_index(s, '\n') {
            Some(i) => {
                proof {
                    lemma_first_index_bound(s, '\n');
                }
                seq![strip_cr(s.take(i))] + text_lines(s.skip(i + 1))
            },
            None => seq![s],
        }
    }
}

/// `s.splitn(n, '|')`: at most `n` pieces, the last holding the rest.
pub open spec fn bar_fields(s: Seq<char>, n: nat) -> Seq<Seq<char>>
    decreases n,
{
    if n <= 1 {
        seq![s]
    } else {
        match first_index(s, '|') {
            Some(i) => seq![s.take(i)] + bar_fields(s.skip(i + 1), (n - 1) as nat),
            None => seq![s],
        }
    }
}

pub type CommitView = (Seq<char>, Seq<char>, Seq<char>, Seq<char>, Seq<char>, Seq<char>);

/// The commit a `%H|%s|%an|%ae|%ai` log line describes: hash, short hash
/// (its first seven characters), subject, author, e-mail and date.
pub open spec fn commit_of_line(line: Seq<char>) -> Option<CommitView> {
    let f = bar_fields(line, 5);
    if f.len() == 5 {
        Some((f[0], prefix_chars(f[0], 7), f[1], f[2], f[3], f[4]))
    } else {
        None
    }
}

pub open spec fn commits_of_lines(lines: Seq<Seq<char>>) -> Seq<CommitView>
    decreases lines.len(),
{
    if lines.len() == 0 {
        Seq::empty()
    } else {
        let rest = commits_of_lines(lines.drop_first());
        match commit_of_line(lines[0]) {
            Some(c) => seq![c] + rest,
            None => rest,
        }
    }
}

/// A commit made during the run.
#[derive(Debug)]
pub struct CommitEvidence {
    pub hash: String,
    pub short_hash: String,
    pub message: String,
    pub author: String,
    pub email: String,
    pub timestamp: String,
}

pub open spec fn commit_view(c: CommitEvidence) -> CommitView {
    (c.hash@, c.short_hash@, c.message@, c.author@, c.email@, c.timestamp@)
}

pub open spec fn commit_views(v: Seq<CommitEvidence>) -> Seq<CommitView> {
    v.map_values(|c: CommitEvidence| commit_view(c))
}

fn split_fields(line: &Vec<char>) -> (r: Vec<String>)
    ensures
        string_views(r@) == bar_fields(line@, 5),
{
    let mut out: Vec<String> = Vec::new();
    let mut rest: Vec<char> = slice_chars(line, 0, line.len());
    let mut n: usize = 5;
    proof {
        assert(line@.subrange(0, line@.len() as int) =~= line@);
        assert(string_views(out@) =~= Seq::<Seq<char>>::empty());
    }
    loop
        invariant
            1 <= n <= 5,
            string_views(out@) + bar_fields(rest@, n as nat) == bar_fields(line@, 5),
        decreases n,
    {
        if n == 1 {
            let ghost before = string_views(out@);
            out.push(string_of(rest.as_slice()));
            proof {
                assert(string_views(out@) =~= before + seq![rest@]);
            }
            return out;
        }
        match first_index_exec(&rest, '|') {
            Some(i) => {
                let ghost before = string_views(out@);
                let ghost r0 = rest@;
                let piece = slice_chars(&rest, 0, i);
                out.push(string_of(piece.as_slice()));
                let n_rest = rest.len();
                let start = i + 1;
                rest = slice_chars(&rest, start, n_rest);
                proof {
                    assert(r0.subrange(0, i as int) =~= r0.take(i as int));
                    assert(r0.subrange(i + 1, r0.len() as int) =~= r0.skip(i + 1));
                    assert(string_views(out@) =~= before + seq![r0.take(i as int)]);
                    assert(bar_fields(r0, n as nat) == seq![r0.take(i as int)] + bar_fields(
                        rest@,
                        (n - 1) as nat,
                    ));
                    assert(string_views(out@) + bar_fields(rest@, (n - 1) as nat) =~= before
                        + bar_fields(r0, n as nat));
                }
                n = n - 1;
            },
            None => {
                let ghost before = string_views(out@);
                out.push(string_of(rest.as_slice()));
                proof {
                    assert(string_views(out@) =~= before + seq![rest@]);
                }
                return out;
            },
        }
    }
}

/// The lines of a text, as `str::lines` gives them.
pub fn split_lines(text: &str) -> (r: Vec<String>)
    ensures
        string_views(r@) == text_lines(text@),
{
    let mut out: Vec<String> = Vec::new();
    let mut rest: Vec<char> = chars_of(text);
    proof {
        assert(string_views(out@) + text_lines(rest@) =~= text_lines(text@));
    }
    while rest.len() > 0
        invariant
            string_views(out@) + text_lines(rest@) == text_lines(text@),
        decreases rest@.len(),
    {
        let ghost r0 = rest@;
        let ghost before = string_views(out@);
        let (line, next) = match first_index_exec(&rest, '\n') {
            Some(i) => {
                let mut l = slice_chars(&rest, 0, i);
                if l.len() > 0 && l[l.len() - 1] == '\r' {
                    l.pop();
                }
                let nx = slice_chars(&rest, i + 1, rest.len());
                proof {
                    lemma_first_index_bound(r0, '\n');
                    assert(r0.subrange(0, i as int) =~= r0.take(i as int));
                    assert(r0.subrange(i + 1, r0.len() as int) =~= r0.skip(i + 1));
                }
                (l, nx)
            },
            None => (slice_chars(&rest, 0, rest.len()), Vec::new()),
        };
        proof {
            if first_index(r0, '\n') is None {
                assert(r0.subrange(0, r0.len() as int) =~= r0);
                assert(text_lines(next@) =~= Seq::<Seq<char>>::empty());
            }
            assert(text_lines(r0) =~= seq![line@] + text_lines(next@));
        }
        out.push(string_of(line.as_slice()));
        rest = next;
        proof {
            assert(string_views(out@) =~= before.push(line@));
            assert(string_views(out@) + text_lines(rest@) =~= before + text_lines(r0));
        }
    }
    proof {
        assert(text_lines(rest@) =~= Seq::<Seq<char>>::empty());
        assert(string_views(out@) + Seq::<Seq<char>>::empty() =~= string_views(out@));
    }
    out
}

/// The commits listed by `git log --format=%H|%s|%an|%ae|%ai`; lines
/// with fewer than five fields are skipped.
pub fn parse_git_log(log: &str) -> (r: Vec<CommitEvidence>)
    ensures
        commit_views(r@) == commits_of_lines(text_lines(log@)),
{
    let mut out: Vec<CommitEvidence> = Vec::new();
    let mut rest: Vec<char> = chars_of(log);
    proof {
        assert(commit_views(out@) =~= Seq::<CommitView>::empty());
        assert(Seq::<CommitView>::empty() + commits_of_lines(text_lines(rest@)) =~= commits_of_lines(
            text_lines(log@),
        ));
    }
    while rest.len() > 0
        invariant
            commit_views(out@) + commits_of_lines(text_lines(rest@)) == commits_of_lines(
                text_lines(log@),
            ),
        decreases rest@.len(),
    {
        let ghost r0 = rest@;
        let ghost before = commit_views(out@);
        let (line, next) = match first_index_exec(&rest, '\n') {
            Some(i) => {
                let mut l = slice_chars(&rest, 0, i);
                if l.len() > 0 && l[l.len() - 1] == '\r' {
                    l.pop();
                }
                let nx = slice_chars(&rest, i + 1, rest.len());
                proof {
                    lemma_first_index_bound(r0, '\n');
                    assert(r0.subrange(0, i as int) =~= r0.take(i as int));
                    assert(r0.subrange(i + 1, r0.len() as int) =~= r0.skip(i + 1));
                }
                (l, nx)
            },
            None => (slice_chars(&rest, 0, rest.len()), Vec::new()),
        };
        proof {
            if first_index(r0, '\n') is None {
                assert(r0.subrange(0, r0.len() as int) =~= r0);
                assert(text_lines(next@) =~= Seq::<Seq<char>>::empty());
            }
            assert(text_lines(r0) =~= seq![line@] + text_lines(next@));
            assert((seq![line@] + text_lines(next@)).drop_first() =~= text_lines(next@));
        }
        let f = split_fields(&line);
        if f.len() == 5 {
            let c = CommitEvidence {
                hash: f[0].clone(),
                short_hash: take_chars(f[0].as_str(), 7),
                message: f[1].clone(),
                author: f[2].clone(),
                email: f[3].clone(),
                timestamp: f[4].clone(),
            };
            out.push(c);
            proof {
                assert(string_views(f@)[0] == f@[0]@);
                assert(string_views(f@)[1] == f@[1]@);
                assert(string_views(f@)[2] == f@[2]@);
                assert(string_views(f@)[3] == f@[3]@);
                assert(string_views(f@)[4] == f@[4]@);
                assert(commit_views(out@) =~= before + seq![commit_of_line(line@)->0]);
            }
        }
        rest = next;
        proof {
            assert(commit_views(out@) + commits_of_lines(text_lines(rest@)) =~= before
                + commits_of_lines(text_lines(r0)));
        }
    }
    proof {
        assert(text_lines(rest@) =~= Seq::<Seq<char>>::empty());
        assert(commit_views(out@) + Seq::<CommitView>::empty() =~= commit_views(out@));
    }
    out
}

// ── Duration ─────────────────────────────────────────────────────────────

/// Whole seconds from one RFC 3339 instant to another, rounded toward zero.
pub uninterp spec fn whole_seconds_between(start: Seq<char>, end: Seq<char>) -> Option<int>;

/// Parses both instants with chrono and gives
/// `end.signed_duration_since(start).num_seconds()`.
#[verifier::external_body]
fn seconds_between(start: &str, end: &str) -> (r: Option<i64>)
    ensures
        match r {
            Some(d) => whole_seconds_between(start@, end@) == Some(d as int),
            None => whole_seconds_between(start@, end@) is None,
        },
{
    let s = chrono::DateTime::parse_from_rfc3339(start).ok()?;
    let e = chrono::DateTime::parse_from_rfc3339(end).ok()?;
    Some(e.signed_duration_since(s).num_seconds())
}

/// The least of the texts by `String`'s order.
pub open spec fn lex_min(ss: Seq<Seq<char>>) -> Option<Seq<char>>
    decreases ss.len(),
{
    if ss.len() == 0 {
        None
    } else {
        match lex_min(ss.drop_last()) {
            Some(m) => if lex_le(m, ss.last()) {
                Some(m)
            } else {
                Some(ss.last())
            },
            None => Some(ss.last()),
        }
    }
}

/// The greatest of the texts by `String`'s order.
pub open spec fn lex_max(ss: Seq<Seq<char>>) -> Option<Seq<char>>
    decreases ss.len(),
{
    if ss.len() == 0 {
        None
    } else {
        match lex_max(ss.drop_last()) {
            Some(m) => if lex_le(m, ss.last()) {
                Some(ss.last())
            } else {
                Some(m)
            },
            None => Some(ss.last()),
        }
    }
}

pub open spec fn present(v: Seq<Option<String>>) -> Seq<Seq<char>>
    decreases v.len(),
{
    if v.len() == 0 {
        Seq::empty()
    } else {
        match v.last() {
            Some(s) => present(v.drop_last()).push(s@),
            None => present(v.drop_last()),
        }
    }
}

pub open spec fn started_times(tasks: Seq<TaskRunInfo>) -> Seq<Option<String>> {
    tasks.map_values(|t: TaskRunInfo| t.started_at)
}

pub open spec fn completed_times(tasks: Seq<TaskRunInfo>) -> Seq<Option<String>> {
    tasks.map_values(|t: TaskRunInfo| t.completed_at)
}

/// Seconds from the earliest task start to the latest task completion;
/// zero when either is missing or does not parse.
pub open spec fn run_seconds_spec(tasks: Seq<TaskRunInfo>) -> int {
    match (lex_min(present(started_times(tasks))), lex_max(present(completed_times(tasks)))) {
        (Some(s), Some(e)) => match whole_seconds_between(s, e) {
            Some(d) => d,
            None => 0,
        },
        _ => 0,
    }
}

fn extreme_time(times: &Vec<Option<String>>, want_max: bool) -> (r: Option<String>)
    ensures
        match r {
            Some(s) => (if want_max {
                lex_max(present(times@))
            } else {
                lex_min(present(times@))
            }) == Some(s@),
            None => (if want_max {
                lex_max(present(times@))
            } else {
                lex_min(present(times@))
            }) is None,
        },
{
    let mut best: Option<String> = None;
    let mut i: usize = 0;
    proof {
        assert(times@.take(0) =~= Seq::<Option<String>>::empty());
    }
    while i < times.len()
        invariant
            i <= times@.len(),
            match best {
                Some(s) => (if want_max {
                    lex_max(present(times@.take(i as int)))
                } else {
                    lex_min(present(times@.take(i as int)))
                }) == Some(s@),
                None => (if want_max {
                    lex_max(present(times@.take(i as int)))
                } else {
                    lex_min(present(times@.take(i as int)))
                }) is None,
            },
        decreases times@.len() - i,
    {
        proof {
            assert(times@.take(i + 1).drop_last() =~= times@.take(i as int));
            assert(times@.take(i + 1).last() == times@[i as int]);
        }
        match &times[i] {
            Some(t) => {
                proof {
                    let p = present(times@.take(i as int));
                    assert(present(times@.take(i + 1)) == p.push(t@));
                    assert(p.push(t@).drop_last() =~= p);
                    assert(p.push(t@).last() == t@);
                }
                let next = match &best {
                    None => owned(t.as_str()),
                    Some(b) => {
                        let keep_b = if want_max {
                            !str_le(b.as_str(), t.as_str())
                        } else {
                            str_le(b.as_str(), t.as_str())
                        };
                        if keep_b {
                            owned(b.as_str())
                        } else {
                            owned(t.as_str())
                        }
                    },
                };
                best = Some(next);
            },
            None => {},
        }
        i = i + 1;
    }
    proof {
        assert(times@.take(times@.len() as int) =~= times@);
    }
    best
}

/// How long the run took, in whole seconds.
pub fn run_duration_seconds(tasks: &Vec<TaskRunInfo>) -> (r: i64)
    ensures
        r == run_seconds_spec(tasks@),
{
    let mut starts: Vec<Option<String>> = Vec::new();
    let mut ends: Vec<Option<String>> = Vec::new();
    let mut i: usize = 0;
    while i < tasks.len()
        invariant
            i <= tasks@.len(),
            starts@ == started_times(tasks@.take(i as int)),
            ends@ == completed_times(tasks@.take(i as int)),
        decreases tasks@.len() - i,
    {
        starts.push(tasks[i].started_at.clone());
        ends.push(tasks[i].completed_at.clone());
        i = i + 1;
        proof {
            assert(starts@ =~= started_times(tasks@.take(i as int)));
            assert(ends@ =~= completed_times(tasks@.take(i as int)));
        }
    }
    proof {
        assert(tasks@.take(tasks@.len() as int) =~= tasks@);
    }
    let first = extreme_time(&starts, false);
    let last = extreme_time(&ends, true);
    match (first, last) {
        (Some(s), Some(e)) => match seconds_between(s.as_str(), e.as_str()) {
            Some(d) => d,
            None => 0,
        },
        _ => 0,
    }
}

// ── Tool calls and tokens ────────────────────────────────────────────────

/// Where a tool call recorded in a message keeps its arguments.
#[derive(Debug)]
pub enum CallArguments {
    /// A JSON value (`input`, or a `function.arguments` that is not text).
    Value(Json),
    /// JSON text still to be parsed (`function.arguments` given as text).
    Text(String),
    /// No arguments were recorded.
    Missing,
}

/// The name of a message's tool call: its `name`, else its
/// `function.name`, when that entry is text; `unknown` otherwise.
pub open spec fn call_name_spec(tc: Json) -> Seq<char> {
    let entry = match json_get(tc, "name"@) {
        Some(v) => Some(v),
        None => match json_get(tc, "function"@) {
            Some(f) => json_get(f, "name"@),
            None => None,
        },
    };
    match entry {
        Some(v) => match json_as_str(v) {
            Some(s) => s,
            None => "unknown"@,
        },
        None => "unknown"@,
    }
}

pub fn call_name(tc: &Json) -> (r: String)
    ensures
        r@ == call_name_spec(*tc),
{
    let entry = match tc.get("name") {
        Some(v) => Some(v),
        None => match tc.get("function") {
            Some(f) => f.get("name"),
            None => None,
        },
    };
    match entry {
        Some(v) => match v.as_str() {
            Some(s) => owned(s),
            None => owned("unknown"),
        },
        None => owned("unknown"),
    }
}

/// The arguments of a message's tool call: its `input` entry, else its
/// `function.arguments` entry (to be parsed when it is text).
pub open spec fn call_arguments_spec(tc: Json) -> Option<Json> {
    match json_get(tc, "input"@) {
        Some(v) => Some(v),
        None => match json_get(tc, "function"@) {
            Some(f) => json_get(f, "arguments"@),
            None => None,
        },
    }
}

pub fn call_arguments(tc: Json) -> (r: CallArguments)
    ensures
        match call_arguments_spec(tc) {
            Some(Json::Str(s)) => r matches CallArguments::Text(t) && t@ == s@,
            Some(v) => r matches CallArguments::Value(w) && w == v,
            None => r is Missing,
        },
{
    let has_input = tc.get("input").is_some();
    let found = if has_input {
        tc.into_entry("input")
    } else {
        match tc.into_entry("function") {
            Some(f) => f.into_entry("arguments"),
            None => None,
        }
    };
    match found {
        Some(Json::Str(s)) => CallArguments::Text(s),
        Some(v) => CallArguments::Value(v),
        None => CallArguments::Missing,
    }
}

/// One tool call of an evidence pack.
#[derive(Debug)]
pub enum ToolCallEvidence {
    /// Read from an assistant message's tool-call JSON.
    FromMessage { tool_name: String, args: Json, timestamp: String, message_id: String },
    /// Read from the normalised tool-call table, with bounded, redacted
    /// previews of its result and error.
    FromTable {
        tool_name: String,
        args: Json,
        result_preview: String,
        status: String,
        error: Option<String>,
        timestamp: String,
        duration_ms: Option<i64>,
        message_id: String,
    },
}

/// The evidence record of one row of the tool-call table: the arguments
/// are redacted, the result and the error are redacted and kept to 200
/// characters, the creation instant becomes the timestamp.
pub fn table_tool_call(
    tool_name: String,
    args: Json,
    result: Option<String>,
    status: String,
    duration_ms: Option<i64>,
    error: Option<String>,
    message_id: String,
    created_at_ms: i64,
) -> (r: ToolCallEvidence)
    ensures
        r matches ToolCallEvidence::FromTable {
            tool_name: t,
            args: a,
            result_preview: p,
            status: st,
            error: er,
            timestamp: ts,
            duration_ms: d,
            message_id: m,
        } && t@ == tool_name@ && json_redacted(args, a) && p@ == redact_spec(
            match result {
                Some(x) => x@,
                None => Seq::empty(),
            },
            200,
        ) && st@ == status@ && match error {
            Some(x) => er matches Some(y) && y@ == redact_spec(x@, 200),
            None => er is None,
        } && ts@ == match millis_rfc3339(created_at_ms as int) {
            Some(x) => x,
            None => ""@,
        } && d == duration_ms && m@ == message_id@,
{
    let result_preview = match &result {
        Some(x) => redact_text(x.as_str(), 200),
        None => redact_text("", 200),
    };
    proof {
        reveal_strlit("");
    }
    let error_preview = match &error {
        Some(x) => Some(redact_text(x.as_str(), 200)),
        None => None,
    };
    let timestamp = evidence_timestamp(created_at_ms);
    let args = redact_json(&args);
    ToolCallEvidence::FromTable {
        tool_name,
        args,
        result_preview,
        status,
        error: error_preview,
        timestamp,
        duration_ms,
        message_id,
    }
}

/// The arguments a message's tool call records: its `input` or
/// `function.arguments` value; text arguments stand for the JSON they parse
/// to (`parsed_text`, `None` when they do not parse); `null` when there are
/// none.
pub open spec fn message_args_spec(tc: Json, parsed_text: Option<Json>) -> Json {
    match call_arguments_spec(tc) {
        Some(Json::Str(_)) => match parsed_text {
            Some(p) => p,
            None => Json::Null,
        },
        Some(v) => v,
        None => Json::Null,
    }
}

/// The evidence record of one tool call read from an assistant message's
/// JSON, with its arguments redacted.
pub fn message_tool_call(
    tc: Json,
    parsed_text: Option<Json>,
    timestamp: String,
    message_id: String,
) -> (r: ToolCallEvidence)
    ensures
        r matches ToolCallEvidence::FromMessage { tool_name: t, args: a, timestamp: ts, message_id: m }
            && t@ == call_name_spec(tc) && json_redacted(message_args_spec(tc, parsed_text), a) && ts@
            == timestamp@ && m@ == message_id@,
{
    let tool_name = call_name(&tc);
    let args = match call_arguments(tc) {
        CallArguments::Text(_) => match parsed_text {
            Some(p) => p,
            None => Json::Null,
        },
        CallArguments::Value(v) => v,
        CallArguments::Missing => Json::Null,
    };
    let args = redact_json(&args);
    ToolCallEvidence::FromMessage { tool_name, args, timestamp, message_id }
}

/// The tool calls a pack records: the rows of the normalised table when
/// there are any, else those read from message JSON.
pub fn evidence_tool_calls(from_messages: Vec<ToolCallEvidence>, from_table: Vec<
    ToolCallEvidence,
>) -> (r: Vec<ToolCallEvidence>)
    ensures
        r@ == if from_table@.len() > 0 {
            from_table@
        } else {
            from_messages@
        },
{
    if from_table.len() > 0 {
        from_table
    } else {
        from_messages
    }
}

/// A verification result annotated with the task it belongs to: an object
/// gets `task_id` and `task_title` set; any other value is kept.
pub fn annotate_verification(item: Json, task_id: &str, task_title: &str) -> (r: Json)
    ensures
        item is Object ==> r is Object && exists|mid: Seq<(String, Json)>, a: Json, b: Json|
            json_as_str(a) == Some(task_id@) && json_as_str(b) == Some(task_title@) && set_result(
                entries_of(item),
                "task_id"@,
                a,
                mid,
            ) && set_result(mid, "task_title"@, b, entries_of(r)),
        !(item is Object) ==> r == item,
{
    match item {
        Json::Object(f) => {
            let ghost f0 = f@;
            let mut j = Json::Object(f);
            let a = crate::json::text(task_id);
            let ghost av = a;
            j.set("task_id", a);
            let ghost mid = entries_of(j);
            let b = crate::json::text(task_title);
            let ghost bv = b;
            j.set("task_title", b);
            proof {
                assert(json_as_str(av) == Some(task_id@));
                assert(json_as_str(bv) == Some(task_title@));
                assert(set_result(f0, "task_id"@, av, mid));
                assert(set_result(mid, "task_title"@, bv, entries_of(j)));
            }
            j
        },
        other => other,
    }
}

/// An instant given in Unix milliseconds, as RFC 3339 in UTC.
pub uninterp spec fn millis_rfc3339(ms: int) -> Option<Seq<char>>;

/// chrono's `DateTime::<Utc>::from_timestamp_millis(ms)` written with
/// `to_rfc3339`; `None` outside chrono's range.
#[verifier::external_body]
fn rfc3339_of_millis(ms: i64) -> (r: Option<String>)
    ensures
        match r {
            Some(t) => millis_rfc3339(ms as int) == Some(t@),
            None => millis_rfc3339(ms as int) is None,
        },
{
    chrono::DateTime::<chrono::Utc>::from_timestamp_millis(ms).map(|d| d.to_rfc3339())
}

/// The timestamp of an evidence record: the instant's RFC 3339 text, empty
/// when the instant cannot be represented.
pub fn evidence_timestamp(ms: i64) -> (r: String)
    ensures
        r@ == match millis_rfc3339(ms as int) {
            Some(t) => t,
            None => ""@,
        },
{
    match rfc3339_of_millis(ms) {
        Some(t) => t,
        None => owned(""),
    }
}

/// A Unix time in whole seconds written as `%Y-%m-%d %H:%M:%S` in UTC.
pub uninterp spec fn utc_seconds_text(secs: int) -> Option<Seq<char>>;

/// chrono's `DateTime::<Utc>::from_timestamp(secs, 0)` formatted as
/// `%Y-%m-%d %H:%M:%S`; `None` outside chrono's range.
#[verifier::external_body]
fn format_utc_seconds(secs: i64) -> (r: Option<String>)
    ensures
        match r {
            Some(t) => utc_seconds_text(secs as int) == Some(t@),
            None => utc_seconds_text(secs as int) is None,
        },
{
    chrono::DateTime::<chrono::Utc>::from_timestamp(secs, 0).map(
        |d| d.format("%Y-%m-%d %H:%M:%S").to_string(),
    )
}

/// `ms / 1000` rounded toward zero, as Rust divides.
pub open spec fn millis_to_secs(ms: int) -> int {
    if ms >= 0 {
        ms / 1000
    } else {
        -((-ms) / 1000)
    }
}

/// The date from which commits count as part of the run: the session's
/// creation time, in whole seconds, as `git log --after` reads it; `None`
/// when it cannot be written (then no commits are collected).
pub fn git_after_date(created_ms: i64) -> (r: Option<String>)
    ensures
        match utc_seconds_text(millis_to_secs(created_ms as int)) {
            Some(t) => if t.len() == 0 {
                r is None
            } else {
                r matches Some(x) && x@ == t
            },
            None => r is None,
        },
{
    let secs: i64 = if created_ms >= 0 {
        created_ms / 1000
    } else {
        let pos: i64 = if created_ms == i64::MIN {
            9223372036854775807
        } else {
            -created_ms
        };
        -(pos / 1000)
    };
    proof {
        if created_ms == i64::MIN {
            assert((9223372036854775807int / 1000) == (9223372036854775808int / 1000));
        }
    }
    match format_utc_seconds(secs) {
        Some(t) => {
            let v = chars_of(t.as_str());
            if v.len() == 0 {
                None
            } else {
                Some(t)
            }
        },
        None => None,
    }
}

/// Sum of the input and output tokens of the messages (missing counts
/// read as zero).
pub open spec fn token_sum(rows: Seq<(Option<i64>, Option<i64>)>) -> int
    decreases rows.len(),
{
    if rows.len() == 0 {
        0
    } else {
        token_sum(rows.drop_last()) + row_tokens(rows.last())
    }
}

pub open spec fn row_tokens(r: (Option<i64>, Option<i64>)) -> int {
    (match r.0 {
        Some(a) => a as int,
        None => 0,
    }) + (match r.1 {
        Some(b) => b as int,
        None => 0,
    })
}

pub fn message_token_total(rows: &Vec<(Option<i64>, Option<i64>)>) -> (r: i64)
    requires
        forall|i: int| 0 <= i < rows@.len() ==> i64::MIN <= #[trigger] row_tokens(rows@[i]) <= i64::MAX,
        forall|k: int| 0 <= k <= rows@.len() ==> i64::MIN <= #[trigger] token_sum(rows@.take(k)) <= i64::MAX,
    ensures
        r == token_sum(rows@),
{
    let mut total: i64 = 0;
    let mut i: usize = 0;
    proof {
        assert(rows@.take(0) =~= Seq::<(Option<i64>, Option<i64>)>::empty());
    }
    while i < rows.len()
        invariant
            i <= rows@.len(),
            total == token_sum(rows@.take(i as int)),
            forall|i: int| 0 <= i < rows@.len() ==> i64::MIN <= #[trigger] row_tokens(rows@[i]) <= i64::MAX,
            forall|k: int| 0 <= k <= rows@.len() ==> i64::MIN <= #[trigger] token_sum(rows@.take(k)) <= i64::MAX,
        decreases rows@.len() - i,
    {
        proof {
            assert(rows@.take(i + 1).drop_last() =~= rows@.take(i as int));
            assert(rows@.take(i + 1).last() == rows@[i as int]);
            assert(i64::MIN <= row_tokens(rows@[i as int]) <= i64::MAX);
            assert(i64::MIN <= token_sum(rows@.take(i + 1)) <= i64::MAX);
        }
        let a = match rows[i].0 {
            Some(a) => a,
            None => 0,
        };
        let b = match rows[i].1 {
            Some(b) => b,
            None => 0,
        };
        total = total + (a + b);
        i = i + 1;
    }
    proof {
        assert(rows@.take(rows@.len() as int) =~= rows@);
    }
    total
}


// ── Summary ──────────────────────────────────────────────────────────────

/// The figures the summary reports.
#[derive(Debug)]
pub struct SummaryFacts {
    pub spec_req_id: String,
    pub spec_title: String,
    pub session_id: String,
    pub status: String,
    pub total_tasks: usize,
    pub completed_tasks: usize,
    pub failed_tasks: usize,
    pub total_tool_calls: usize,
    pub files_changed: usize,
    pub verification_passed: bool,
    pub total_tokens: i64,
    /// The run's duration in minutes, written with one decimal.
    pub duration_text: String,
    pub knowledge_refs_count: usize,
}

pub open spec fn task_line(t: TaskRunInfo) -> Seq<char> {
    "- **["@ + prefix_chars(t.id@, 8) + "]** "@ + t.title@ + " \u{2014} status: `"@ + t.status@ + "` ("@
        + (if t.verification_results is Some {
        "verified"@
    } else {
        "not verified"@
    }) + ")"@
}

pub open spec fn commit_line(c: CommitEvidence) -> Seq<char> {
    "- `"@ + c.short_hash@ + "` "@ + c.message@ + " ("@ + c.author@ + ")"@
}

pub open spec fn bullet(s: Seq<char>) -> Seq<char> {
    "- "@ + s
}

pub open spec fn task_lines(tasks: Seq<TaskRunInfo>) -> Seq<Seq<char>> {
    tasks.map_values(|t: TaskRunInfo| task_line(t))
}

pub open spec fn commit_lines(commits: Seq<CommitEvidence>) -> Seq<Seq<char>> {
    commits.map_values(|c: CommitEvidence| commit_line(c))
}

pub open spec fn bullets(items: Seq<Seq<char>>) -> Seq<Seq<char>> {
    items.map_values(|s: Seq<char>| bullet(s))
}

pub open spec fn or_else(s: Seq<char>, fallback: Seq<char>) -> Seq<char> {
    if s.len() == 0 {
        fallback
    } else {
        s
    }
}

/// The Markdown summary of an evidence pack.
pub open spec fn summary_md_spec(
    f: SummaryFacts,
    tasks: Seq<TaskRunInfo>,
    commits: Seq<CommitEvidence>,
    model: Seq<char>,
    assumptions: Seq<Seq<char>>,
    review_points: Seq<Seq<char>>,
) -> Seq<char> {
    let verif = if f.verification_passed {
        "PASSED"@
    } else {
        "FAILED / NOT RUN"@
    };
    let passed = if f.verification_passed {
        "true"@
    } else {
        "false"@
    };
    let tasks_section = join(task_lines(tasks), "\n"@);
    let commits_section = or_else(
        join(commit_lines(commits), "\n"@),
        "No commits recorded."@,
    );
    let assumptions_section = or_else(
        join(bullets(assumptions), "\n"@),
        "(none recorded)"@,
    );
    let review_section = or_else(
        join(bullets(review_points), "\n"@),
        "(none)"@,
    );
    "# Evidence Pack — "@
        + f.spec_req_id@
        + ": "@
        + f.spec_title@
        + "\n\n## Primary User Path\n\n- Spec: `"@
        + f.spec_req_id@
        + "` — "@
        + f.spec_title@
        + "\n- Session: `"@
        + f.session_id@
        + "`\n- Status: **"@
        + f.status@
        + "**\n- Duration: "@
        + f.duration_text@
        + " minutes\n- Total tool calls: "@
        + decimal(f.total_tool_calls as nat)
        + "\n- Files changed: "@
        + decimal(f.files_changed as nat)
        + "\n- Knowledge retrieval events: "@
        + decimal(f.knowledge_refs_count as nat)
        + "\n\n## Task Execution\n\n"@
        + tasks_section
        + "\n\n## Request and Response Evidence\n\n- Total tasks: "@
        + decimal(f.total_tasks as nat)
        + "\n- Completed: "@
        + decimal(f.completed_tasks as nat)
        + "\n- Failed: "@
        + decimal(f.failed_tasks as nat)
        + "\n- Total tokens consumed: "@
        + int_decimal(f.total_tokens as int)
        + "\n\n## QA Conclusion\n\n- Verification result: **"@
        + verif
        + "**\n- Overall status: `"@
        + f.status@
        + "`\n\n## Live Verification\n\n- Verification passed: "@
        + passed
        + "\n- health: N/A\n- deployment: N/A\n\n## Git History\n\n"@
        + commits_section
        + "\n\n## AI Collaboration\n\n- context scope: session `"@
        + f.session_id@
        + "`\n- model: "@
        + model
        + "\n- total tokens: "@
        + int_decimal(f.total_tokens as int)
        + "\n- assumptions:\n"@
        + assumptions_section
        + "\n- review points:\n"@
        + review_section
        + "\n- validation result: "@
        + verif
        + "\n"@
}

fn task_line_exec(t: &TaskRunInfo) -> (r: String)
    ensures
        r@ == task_line(*t),
{
    let mut r = owned("- **[");
    let id = take_chars(t.id.as_str(), 8);
    push_str(&mut r, id.as_str());
    push_str(&mut r, "]** ");
    push_str(&mut r, t.title.as_str());
    push_str(&mut r, " \u{2014} status: `");
    push_str(&mut r, t.status.as_str());
    push_str(&mut r, "` (");
    if t.verification_results.is_some() {
        push_str(&mut r, "verified");
    } else {
        push_str(&mut r, "not verified");
    }
    push_str(&mut r, ")");
    r
}

fn commit_line_exec(c: &CommitEvidence) -> (r: String)
    ensures
        r@ == commit_line(*c),
{
    let mut r = owned("- `");
    push_str(&mut r, c.short_hash.as_str());
    push_str(&mut r, "` ");
    push_str(&mut r, c.message.as_str());
    push_str(&mut r, " (");
    push_str(&mut r, c.author.as_str());
    push_str(&mut r, ")");
    r
}

fn task_section(tasks: &Vec<TaskRunInfo>) -> (r: String)
    ensures
        r@ == join(task_lines(tasks@), "\n"@),
{
    let mut lines: Vec<String> = Vec::new();
    let mut i: usize = 0;
    while i < tasks.len()
        invariant
            i <= tasks@.len(),
            views(lines@) == task_lines(tasks@.take(i as int)),
        decreases tasks@.len() - i,
    {
        let ghost before = views(lines@);
        let line = task_line_exec(&tasks[i]);
        lines.push(line);
        proof {
            assert(views(lines@) =~= before.push(line@));
            assert(task_lines(tasks@.take(i + 1)) =~= task_lines(tasks@.take(i as int)).push(
                task_line(tasks@[i as int]),
            ));
        }
        i = i + 1;
    }
    proof {
        assert(tasks@.take(tasks@.len() as int) =~= tasks@);
    }
    join_strings(&lines, "\n")
}

fn commit_section(commits: &Vec<CommitEvidence>) -> (r: String)
    ensures
        r@ == join(commit_lines(commits@), "\n"@),
{
    let mut lines: Vec<String> = Vec::new();
    let mut i: usize = 0;
    while i < commits.len()
        invariant
            i <= commits@.len(),
            views(lines@) == commit_lines(commits@.take(i as int)),
        decreases commits@.len() - i,
    {
        let ghost before = views(lines@);
        let line = commit_line_exec(&commits[i]);
        lines.push(line);
        proof {
            assert(views(lines@) =~= before.push(line@));
            assert(commit_lines(commits@.take(i + 1)) =~= commit_lines(commits@.take(i as int)).push(
                commit_line(commits@[i as int]),
            ));
        }
        i = i + 1;
    }
    proof {
        assert(commits@.take(commits@.len() as int) =~= commits@);
    }
    join_strings(&lines, "\n")
}

fn bullet_section(items: &Vec<String>) -> (r: String)
    ensures
        r@ == join(bullets(views(items@)), "\n"@),
{
    let mut lines: Vec<String> = Vec::new();
    let mut i: usize = 0;
    while i < items.len()
        invariant
            i <= items@.len(),
            views(lines@) == bullets(views(items@.take(i as int))),
        decreases items@.len() - i,
    {
        let ghost before = views(lines@);
        let line = concat("- ", items[i].as_str());
        lines.push(line);
        proof {
            assert(views(lines@) =~= before.push(line@));
            assert(bullets(views(items@.take(i + 1))) =~= bullets(views(items@.take(i as int))).push(
                bullet(items@[i as int]@),
            ));
        }
        i = i + 1;
    }
    proof {
        assert(items@.take(items@.len() as int) =~= items@);
    }
    join_strings(&lines, "\n")
}

fn or_else_exec(s: String, fallback: &str) -> (r: String)
    ensures
        r@ == or_else(s@, fallback@),
{
    let v = chars_of(s.as_str());
    if v.len() == 0 {
        owned(fallback)
    } else {
        s
    }
}

/// The summary written as `summary.md` into an evidence pack.
pub fn build_summary_md(
    f: &SummaryFacts,
    tasks: &Vec<TaskRunInfo>,
    commits: &Vec<CommitEvidence>,
    model: &str,
    assumptions: &Vec<String>,
    review_points: &Vec<String>,
) -> (r: String)
    ensures
        r@ == summary_md_spec(*f, tasks@, commits@, model@, views(assumptions@), views(review_points@)),
{
    let verif = if f.verification_passed {
        "PASSED"
    } else {
        "FAILED / NOT RUN"
    };
    let passed = if f.verification_passed {
        "true"
    } else {
        "false"
    };
    let tasks_section = task_section(tasks);
    let commits_section = or_else_exec(commit_section(commits), "No commits recorded.");
    let assumptions_section = or_else_exec(bullet_section(assumptions), "(none recorded)");
    let review_section = or_else_exec(bullet_section(review_points), "(none)");
    let tool_calls = u64_string(f.total_tool_calls as u64);
    let files = u64_string(f.files_changed as u64);
    let refs = u64_string(f.knowledge_refs_count as u64);
    let total = u64_string(f.total_tasks as u64);
    let completed = u64_string(f.completed_tasks as u64);
    let failed = u64_string(f.failed_tasks as u64);
    let tokens = i64_string(f.total_tokens);
    let mut r = owned("# Evidence Pack — ");
    push_str(&mut r, f.spec_req_id.as_str());
    push_str(&mut r, ": ");
    push_str(&mut r, f.spec_title.as_str());
    push_str(&mut r, "\n\n## Primary User Path\n\n- Spec: `");
    push_str(&mut r, f.spec_req_id.as_str());
    push_str(&mut r, "` — ");
    push_str(&mut r, f.spec_title.as_str());
    push_str(&mut r, "\n- Session: `");
    push_str(&mut r, f.session_id.as_str());
    push_str(&mut r, "`\n- Status: **");
    push_str(&mut r, f.status.as_str());
    push_str(&mut r, "**\n- Duration: ");
    push_str(&mut r, f.duration_text.as_str());
    push_str(&mut r, " minutes\n- Total tool calls: ");
    push_str(&mut r, tool_calls.as_str());
    push_str(&mut r, "\n- Files changed: ");
    push_str(&mut r, files.as_str());
    push_str(&mut r, "\n- Knowledge retrieval events: ");
    push_str(&mut r, refs.as_str());
    push_str(&mut r, "\n\n## Task Execution\n\n");
    push_str(&mut r, tasks_section.as_str());
    push_str(&mut r, "\n\n## Request and Response Evidence\n\n- Total tasks: ");
    push_str(&mut r, total.as_str());
    push_str(&mut r, "\n- Completed: ");
    push_str(&mut r, completed.as_str());
    push_str(&mut r, "\n- Failed: ");
    push_str(&mut r, failed.as_str());
    push_str(&mut r, "\n- Total tokens consumed: ");
    push_str(&mut r, tokens.as_str());
    push_str(&mut r, "\n\n## QA Conclusion\n\n- Verification result: **");
    push_str(&mut r, verif);
    push_str(&mut r, "**\n- Overall status: `");
    push_str(&mut r, f.status.as_str());
    push_str(&mut r, "`\n\n## Live Verification\n\n- Verification passed: ");
    push_str(&mut r, passed);
    push_str(&mut r, "\n- health: N/A\n- deployment: N/A\n\n## Git History\n\n");
    push_str(&mut r, commits_section.as_str());
    push_str(&mut r, "\n\n## AI Collaboration\n\n- context scope: session `");
    push_str(&mut r, f.session_id.as_str());
    push_str(&mut r, "`\n- model: ");
    push_str(&mut r, model);
    push_str(&mut r, "\n- total tokens: ");
    push_str(&mut r, tokens.as_str());
    push_str(&mut r, "\n- assumptions:\n");
    push_str(&mut r, assumptions_section.as_str());
    push_str(&mut r, "\n- review points:\n");
    push_str(&mut r, review_section.as_str());
    push_str(&mut r, "\n- validation result: ");
    push_str(&mut r, verif);
    push_str(&mut r, "\n");
    r
}

} // verus!
