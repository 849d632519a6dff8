//! The bounded, redacted evidence a post-mortem pass is given about one
//! session: task outcomes when there are any, otherwise the last chat
//! turns, then the tool outcomes counted by tool and status.
use vstd::prelude::*;
use crate::learning::text_or_empty;
use crate::order::{sorted_distinct, sorted_distinct_strings, string_views};
use crate::redact::{redact_spec, redact_text};
use crate::text::{decimal, join, join_strings, owned, push_str, str_eq, u64_string, views};

verus! {

broadcast use vstd::string::group_string_axioms;

/// `(title, status, result, error)` of a task run.
pub type TaskOutcome = (String, String, Option<String>, Option<String>);

/// `(role, content)` of a chat message.
pub type ChatTurn = (String, String);

/// `(tool name, status, error)` of a tool call.
pub type ToolOutcome = (String, String, Option<String>);

/// What a task's line reports: its result when completed, its error when
/// failed, otherwise its status.
pub open spec fn task_outcome(t: TaskOutcome) -> Seq<char> {
    if t.1@ == "completed"@ {
        text_or_empty(t.2)
    } else if t.1@ == "failed"@ {
        text_or_empty(t.3)
    } else {
        t.1@
    }
}

pub open spec fn fail_prefix(status: Seq<char>) -> Seq<char> {
    if status == "failed"@ {
        "FAIL: "@
    } else {
        Seq::empty()
    }
}

/// `{i+1}. [{status}] {title} — {prefix}{outcome}`.
pub open spec fn task_line(i: int, t: TaskOutcome) -> Seq<char> {
    decimal((i + 1) as nat) + ". ["@ + t.1@ + "] "@ + redact_spec(t.0@, 100) + " — "@
        + fail_prefix(t.1@) + redact_spec(task_outcome(t), 80)
}

/// `{i+1}. [{role}] {content}`.
pub open spec fn message_line(i: int, m: ChatTurn) -> Seq<char> {
    decimal((i + 1) as nat) + ". ["@ + m.0@ + "] "@ + redact_spec(m.1@, 160)
}

pub open spec fn task_lines(tasks: Seq<TaskOutcome>) -> Seq<Seq<char>> {
    Seq::new(tasks.len(), |i: int| task_line(i, tasks[i]))
}

pub open spec fn message_lines(ms: Seq<ChatTurn>) -> Seq<Seq<char>> {
    Seq::new(ms.len(), |i: int| message_line(i, ms[i]))
}

pub open spec fn tool_names(tools: Seq<ToolOutcome>) -> Seq<Seq<char>> {
    tools.map_values(|t: ToolOutcome| t.0@)
}

/// The statuses of the calls of tool `name`, in order.
pub open spec fn statuses_of(tools: Seq<ToolOutcome>, name: Seq<char>) -> Seq<Seq<char>>
    decreases tools.len(),
{
    if tools.len() == 0 {
        Seq::empty()
    } else {
        let r = statuses_of(tools.drop_last(), name);
        if tools.last().0@ == name {
            r.push(tools.last().1@)
        } else {
            r
        }
    }
}

/// How many calls of tool `name` ended with `status`.
pub open spec fn tool_count(tools: Seq<ToolOutcome>, name: Seq<char>, status: Seq<char>) -> nat
    decreases tools.len(),
{
    if tools.len() == 0 {
        0
    } else {
        tool_count(tools.drop_last(), name, status) + if tools.last().0@ == name && tools.last().1@
            == status {
            1nat
        } else {
            0nat
        }
    }
}

/// `- {name}: {status} × {count}`.
pub open spec fn count_line(name: Seq<char>, status: Seq<char>, n: nat) -> Seq<char> {
    "- "@ + name + ": "@ + status + " × "@ + decimal(n)
}

pub open spec fn name_lines(tools: Seq<ToolOutcome>, name: Seq<char>, sts: Seq<Seq<char>>) -> Seq<
    Seq<char>,
> {
    Seq::new(sts.len(), |j: int| count_line(name, sts[j], tool_count(tools, name, sts[j])))
}

/// One count line per (tool, status) pair, tools ascending, and within a
/// tool its statuses ascending.
pub open spec fn count_lines(tools: Seq<ToolOutcome>, names: Seq<Seq<char>>) -> Seq<Seq<char>>
    decreases names.len(),
{
    if names.len() == 0 {
        Seq::empty()
    } else {
        count_lines(tools, names.drop_last()) + name_lines(
            tools,
            names.last(),
            sorted_distinct(statuses_of(tools, names.last())),
        )
    }
}

/// Tool and error of the first call that ended in `error`, if that call has
/// an error text.
pub open spec fn first_error(tools: Seq<ToolOutcome>) -> Option<(Seq<char>, Seq<char>)>
    decreases tools.len(),
{
    if tools.len() == 0 {
        None
    } else if tools[0].1@ == "error"@ {
        match tools[0].2 {
            Some(e) => Some((tools[0].0@, e@)),
            None => None,
        }
    } else {
        first_error(tools.drop_first())
    }
}

pub open spec fn tool_section(tools: Seq<ToolOutcome>) -> Seq<Seq<char>> {
    if tools.len() == 0 {
        Seq::empty()
    } else {
        seq!["Tool outcomes:"@] + count_lines(tools, sorted_distinct(tool_names(tools))) + match first_error(tools) {
            Some(p) => seq!["- sample error from "@ + p.0 + ": "@ + redact_spec(p.1, 100)],
            None => Seq::empty(),
        }
    }
}

pub open spec fn summary_lines(
    tasks: Seq<TaskOutcome>,
    messages: Seq<ChatTurn>,
    tools: Seq<ToolOutcome>,
) -> Seq<Seq<char>> {
    let head = if tasks.len() > 0 {
        seq!["Task outcomes:"@] + task_lines(tasks)
    } else if messages.len() > 0 {
        seq!["Conversation turns (bounded, redacted):"@] + message_lines(messages)
    } else {
        Seq::empty()
    };
    head + tool_section(tools)
}

/// The summary: its lines joined by newlines.
pub open spec fn postmortem_summary_spec(
    tasks: Seq<TaskOutcome>,
    messages: Seq<ChatTurn>,
    tools: Seq<ToolOutcome>,
) -> Seq<char> {
    join(summary_lines(tasks, messages, tools), "\n"@)
}

fn task_line_exec(i: usize, t: &TaskOutcome) -> (r: String)
    requires
        i < usize::MAX,
    ensures
        r@ == task_line(i as int, *t),
{
    let raw: &str = if str_eq(t.1.as_str(), "completed") {
        match &t.2 {
            Some(s) => s.as_str(),
            None => "",
        }
    } else if str_eq(t.1.as_str(), "failed") {
        match &t.3 {
            Some(s) => s.as_str(),
            None => "",
        }
    } else {
        t.1.as_str()
    };
    proof {
        reveal_strlit("");
        assert(raw@ == task_outcome(*t));
    }
    let outcome = redact_text(raw, 80);
    let title = redact_text(t.0.as_str(), 100);
    let mut s = u64_string((i + 1) as u64);
    push_str(&mut s, ". [");
    push_str(&mut s, t.1.as_str());
    push_str(&mut s, "] ");
    push_str(&mut s, title.as_str());
    push_str(&mut s, " — ");
    if str_eq(t.1.as_str(), "failed") {
        push_str(&mut s, "FAIL: ");
    } else {
        proof {
            assert(s@ + Seq::<char>::empty() =~= s@);
        }
    }
    push_str(&mut s, outcome.as_str());
    s
}

fn message_line_exec(i: usize, m: &ChatTurn) -> (r: String)
    requires
        i < usize::MAX,
    ensures
        r@ == message_line(i as int, *m),
{
    let content = redact_text(m.1.as_str(), 160);
    let mut s = u64_string((i + 1) as u64);
    push_str(&mut s, ". [");
    push_str(&mut s, m.0.as_str());
    push_str(&mut s, "] ");
    push_str(&mut s, content.as_str());
    s
}

/// Statuses of the calls of `name`, in order.
fn statuses_exec(tools: &[ToolOutcome], name: &str) -> (r: Vec<String>)
    ensures
        string_views(r@) == statuses_of(tools@, name@),
{
    let mut out: Vec<String> = Vec::new();
    let mut i: usize = 0;
    proof {
        assert(tools@.take(0) =~= Seq::<ToolOutcome>::empty());
        assert(string_views(out@) =~= Seq::<Seq<char>>::empty());
    }
    while i < tools.len()
        invariant
            i <= tools@.len(),
            string_views(out@) == statuses_of(tools@.take(i as int), name@),
        decreases tools@.len() - i,
    {
        proof {
            assert(tools@.take(i + 1).drop_last() =~= tools@.take(i as int));
            assert(tools@.take(i + 1).last() == tools@[i as int]);
        }
        if str_eq(tools[i].0.as_str(), name) {
            let ghost before = string_views(out@);
            out.push(tools[i].1.clone());
            assert(string_views(out@) =~= before.push(tools@[i as int].1@));
        }
        i = i + 1;
    }
    proof {
        assert(tools@.take(tools@.len() as int) =~= tools@);
    }
    out
}

fn tool_count_exec(tools: &[ToolOutcome], name: &str, status: &str) -> (r: u64)
    ensures
        r == tool_count(tools@, name@, status@),
{
    let mut n: u64 = 0;
    let mut i: usize = 0;
    proof {
        assert(tools@.take(0) =~= Seq::<ToolOutcome>::empty());
    }
    while i < tools.len()
        invariant
            i <= tools@.len(),
            n == tool_count(tools@.take(i as int), name@, status@),
            n <= i,
        decreases tools@.len() - i,
    {
        proof {
            assert(tools@.take(i + 1).drop_last() =~= tools@.take(i as int));
            assert(tools@.take(i + 1).last() == tools@[i as int]);
        }
        if str_eq(tools[i].0.as_str(), name) && str_eq(tools[i].1.as_str(), status) {
            n = n + 1;
        }
        i = i + 1;
    }
    proof {
        assert(tools@.take(tools@.len() as int) =~= tools@);
    }
    n
}

fn count_line_exec(name: &str, status: &str, n: u64) -> (r: String)
    ensures
        r@ == count_line(name@, status@, n as nat),
{
    let mut s = owned("- ");
    push_str(&mut s, name);
    push_str(&mut s, ": ");
    push_str(&mut s, status);
    push_str(&mut s, " × ");
    let c = u64_string(n);
    push_str(&mut s, c.as_str());
    s
}

fn name_lines_exec(tools: &[ToolOutcome], name: &str) -> (r: Vec<String>)
    ensures
        views(r@) == name_lines(tools@, name@, sorted_distinct(statuses_of(tools@, name@))),
{
    let statuses = statuses_exec(tools, name);
    let sorted = sorted_distinct_strings(&statuses);
    let ghost sts = string_views(sorted@);
    let mut out: Vec<String> = Vec::new();
    let mut j: usize = 0;
    while j < sorted.len()
        invariant
            j <= sorted@.len(),
            sts == string_views(sorted@),
            views(out@) == name_lines(tools@, name@, sts.take(j as int)),
        decreases sorted@.len() - j,
    {
        let n = tool_count_exec(tools, name, sorted[j].as_str());
        let ghost before = views(out@);
        let line = count_line_exec(name, sorted[j].as_str(), n);
        out.push(line);
        proof {
            let prev = name_lines(tools@, name@, sts.take(j as int));
            let next = name_lines(tools@, name@, sts.take(j + 1));
            assert forall|k: int| 0 <= k < j implies #[trigger] next[k] == prev[k] by {
                assert(sts.take(j + 1)[k] == sts.take(j as int)[k]);
            }
            assert(sts.take(j + 1)[j as int] == sorted@[j as int]@);
            assert(next =~= prev.push(line@));
            assert(views(out@) =~= before.push(line@));
        }
        j = j + 1;
    }
    assert(sts.take(sorted@.len() as int) =~= sts);
    out
}

fn first_error_exec(tools: &[ToolOutcome]) -> (r: Option<(String, String)>)
    ensures
        match r {
            Some(p) => first_error(tools@) == Some((p.0@, p.1@)),
            None => first_error(tools@) is None,
        },
{
    let mut i: usize = 0;
    proof {
        assert(tools@.skip(0) =~= tools@);
    }
    while i < tools.len()
        invariant
            i <= tools@.len(),
            first_error(tools@) == first_error(tools@.skip(i as int)),
        decreases tools@.len() - i,
    {
        proof {
            assert(tools@.skip(i as int)[0] == tools@[i as int]);
            assert(tools@.skip(i as int).drop_first() =~= tools@.skip(i + 1));
        }
        if str_eq(tools[i].1.as_str(), "error") {
            return match &tools[i].2 {
                Some(e) => Some((tools[i].0.clone(), e.clone())),
                None => None,
            };
        }
        i = i + 1;
    }
    None
}

/// Lines `start..` of the list appended to `out`.
fn append_lines(out: &mut Vec<String>, more: Vec<String>)
    ensures
        views(final(out)@) == views(old(out)@) + views(more@),
{
    let mut more = more;
    let ghost a = old(out)@;
    let ghost b = more@;
    out.append(&mut more);
    assert(views(out@) =~= views(a) + views(b));
}

fn tool_section_exec(tools: &[ToolOutcome]) -> (r: Vec<String>)
    ensures
        views(r@) == tool_section(tools@),
{
    let mut out: Vec<String> = Vec::new();
    if tools.len() == 0 {
        assert(views(out@) =~= Seq::<Seq<char>>::empty());
        return out;
    }
    out.push(owned("Tool outcomes:"));
    let mut names: Vec<String> = Vec::new();
    let mut i: usize = 0;
    while i < tools.len()
        invariant
            i <= tools@.len(),
            string_views(names@) == tool_names(tools@).take(i as int),
        decreases tools@.len() - i,
    {
        let ghost before = string_views(names@);
        names.push(tools[i].0.clone());
        proof {
            assert(string_views(names@) =~= before.push(tools@[i as int].0@));
            assert(tool_names(tools@).take(i + 1) =~= tool_names(tools@).take(i as int).push(
                tools@[i as int].0@,
            ));
        }
        i = i + 1;
    }
    assert(tool_names(tools@).take(tools@.len() as int) =~= tool_names(tools@));
    let sorted = sorted_distinct_strings(&names);
    let ghost ns = string_views(sorted@);
    let mut k: usize = 0;
    proof {
        assert(ns.take(0) =~= Seq::<Seq<char>>::empty());
        assert(views(out@) =~= seq!["Tool outcomes:"@] + count_lines(tools@, ns.take(0)));
    }
    while k < sorted.len()
        invariant
            k <= sorted@.len(),
            ns == string_views(sorted@),
            views(out@) == seq!["Tool outcomes:"@] + count_lines(tools@, ns.take(k as int)),
        decreases sorted@.len() - k,
    {
        let lines = name_lines_exec(tools, sorted[k].as_str());
        append_lines(&mut out, lines);
        proof {
            assert(ns.take(k + 1).drop_last() =~= ns.take(k as int));
            assert(ns.take(k + 1).last() == sorted@[k as int]@);
            assert(views(out@) =~= seq!["Tool outcomes:"@] + count_lines(tools@, ns.take(k + 1)));
        }
        k = k + 1;
    }
    assert(ns.take(sorted@.len() as int) =~= ns);
    let ghost counted = views(out@);
    match first_error_exec(tools) {
        Some((name, error)) => {
            let mut line = owned("- sample error from ");
            push_str(&mut line, name.as_str());
            push_str(&mut line, ": ");
            let e = redact_text(error.as_str(), 100);
            push_str(&mut line, e.as_str());
            out.push(line);
            assert(views(out@) =~= counted + seq![line@]);
        },
        None => {
            assert(views(out@) =~= counted + Seq::<Seq<char>>::empty());
        },
    }
    out
}

/// The evidence text the post-mortem pass is given about a session.
pub fn build_postmortem_summary(
    tasks: &[TaskOutcome],
    messages: &[ChatTurn],
    tools: &[ToolOutcome],
) -> (r: String)
    ensures
        r@ == postmortem_summary_spec(tasks@, messages@, tools@),
{
    let mut lines: Vec<String> = Vec::new();
    if tasks.len() > 0 {
        lines.push(owned("Task outcomes:"));
        let mut i: usize = 0;
        while i < tasks.len()
            invariant
                i <= tasks@.len(),
                views(lines@) == seq!["Task outcomes:"@] + task_lines(tasks@.take(i as int)),
            decreases tasks@.len() - i,
        {
            let ghost before = views(lines@);
            let line = task_line_exec(i, &tasks[i]);
            lines.push(line);
            proof {
                let prev = task_lines(tasks@.take(i as int));
                let next = task_lines(tasks@.take(i + 1));
                assert forall|k: int| 0 <= k < i implies #[trigger] next[k] == prev[k] by {
                    assert(tasks@.take(i + 1)[k] == tasks@.take(i as int)[k]);
                }
                assert(next =~= prev.push(task_line(i as int, tasks@[i as int])));
                assert(views(lines@) =~= before.push(line@));
            }
            assert(views(lines@) =~= seq!["Task outcomes:"@] + task_lines(tasks@.take(i + 1)));
            i = i + 1;
        }
        assert(tasks@.take(tasks@.len() as int) =~= tasks@);
    } else if messages.len() > 0 {
        lines.push(owned("Conversation turns (bounded, redacted):"));
        let mut i: usize = 0;
        while i < messages.len()
            invariant
                i <= messages@.len(),
                views(lines@) == seq!["Conversation turns (bounded, redacted):"@] + message_lines(
                    messages@.take(i as int),
                ),
            decreases messages@.len() - i,
        {
            let ghost before = views(lines@);
            let line = message_line_exec(i, &messages[i]);
            lines.push(line);
            proof {
                let prev = message_lines(messages@.take(i as int));
                let next = message_lines(messages@.take(i + 1));
                assert forall|k: int| 0 <= k < i implies #[trigger] next[k] == prev[k] by {
                    assert(messages@.take(i + 1)[k] == messages@.take(i as int)[k]);
                }
                assert(next =~= prev.push(message_line(i as int, messages@[i as int])));
                assert(views(lines@) =~= before.push(line@));
            }
            assert(views(lines@) =~= seq!["Conversation turns (bounded, redacted):"@]
                + message_lines(messages@.take(i + 1)));
            i = i + 1;
        }
        assert(messages@.take(messages@.len() as int) =~= messages@);
    } else {
        assert(views(lines@) =~= Seq::<Seq<char>>::empty());
    }
    let tail = tool_section_exec(tools);
    append_lines(&mut lines, tail);
    assert(views(lines@) =~= summary_lines(tasks@, messages@, tools@));
    join_strings(&lines, "\n")
}

} // verus!
