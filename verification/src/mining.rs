//! Cross-session pattern mining: pure detectors that turn recorded tool
//! calls, task retries and learning decisions into evidence-backed
//! insights, and the read-only proposals built from them.
use vstd::prelude::*;
use crate::errors::AppError;
use crate::json::{flat_view, json_as_i64, json_as_str, json_get, scalar_of, Json, Scalar};
use crate::learning::{norm_spec, norm_suggestion, text_or_empty};
use crate::order::{contains_string, dedup, dedup_strings, string_views};
use crate::redact::{redact_spec, redact_text, truncate};
use crate::text::{
    chars_of, i64_string, int_decimal, owned, push_str, slice_chars, starts_with, starts_with_chars,
    str_eq, string_of,
};

verus! {

broadcast use vstd::string::group_string_axioms;

/// A mined pattern, before it becomes a learning event.
#[derive(Debug)]
pub struct PatternInsight {
    pub observation: String,
    pub suggestion: String,
    pub support_count: i64,
    pub evidence: Json,
}

/// A recorded tool call.
#[derive(Debug)]
pub struct ToolCallRow {
    pub session_id: String,
    pub tool_name: String,
    pub status: String,
    pub error: Option<String>,
}

/// A recorded task run.
#[derive(Debug)]
pub struct TaskRow {
    pub session_id: String,
    pub status: String,
    pub attempt_count: i64,
    pub error: Option<String>,
}

/// A decided learning candidate.
#[derive(Debug)]
pub struct LearningDecisionRow {
    pub kind: String,
    pub status: String,
}

/// An insight by its contents: observation, suggestion, support and the
/// entries of its evidence object.
pub type InsightView = (Seq<char>, Seq<char>, int, Seq<(Seq<char>, Scalar)>);

pub open spec fn insight_view(p: PatternInsight) -> InsightView {
    (p.observation@, p.suggestion@, p.support_count as int, flat_view(p.evidence))
}

pub open spec fn insight_views(s: Seq<PatternInsight>) -> Seq<InsightView> {
    s.map_values(|p: PatternInsight| insight_view(p))
}

pub open spec fn abs(x: int) -> int {
    if x < 0 {
        -x
    } else {
        x
    }
}

/// Integer division rounding toward zero, as Rust's `/` does.
pub open spec fn trunc_div(n: int, d: int) -> int {
    let q = abs(n) / abs(d);
    if (n < 0) != (d < 0) {
        -q
    } else {
        q
    }
}

/// `n` as a percentage of `d`, rounded toward zero; 0 when `d` is 0.
pub open spec fn pct_spec(n: int, d: int) -> int {
    if d == 0 {
        0
    } else {
        trunc_div(n * 100, d)
    }
}

/// `n * 100 / d`, or 0 for `d == 0`.
pub fn pct(n: i64, d: i64) -> (r: i64)
    requires
        d == 0 || (i64::MIN <= n * 100 <= i64::MAX),
    ensures
        r == pct_spec(n as int, d as int),
{
    if d == 0 {
        return 0;
    }
    let m: i128 = (n as i128) * 100;
    let a: u128 = if m < 0 {
        (-m) as u128
    } else {
        m as u128
    };
    let dd: i128 = d as i128;
    let b: u128 = if dd < 0 {
        (-dd) as u128
    } else {
        dd as u128
    };
    let q: u128 = a / b;
    proof {
        assert(q <= a) by (nonlinear_arith)
            requires
                b >= 1,
                q == a / b,
        ;
    }
    if (m < 0) != (dd < 0) {
        (-(q as i128)) as i64
    } else {
        (q as i128) as i64
    }
}

/// `x` placed after every leading element whose support is at least its
/// own: one step of a stable sort by descending support.
pub open spec fn insert_desc(s: Seq<InsightView>, x: InsightView) -> Seq<InsightView>
    decreases s.len(),
{
    if s.len() == 0 {
        seq![x]
    } else if s[0].2 >= x.2 {
        seq![s[0]] + insert_desc(s.drop_first(), x)
    } else {
        seq![x] + s
    }
}

/// Stable sort by descending support (what `sort_by` with a reversed
/// comparison of the supports yields).
pub open spec fn sort_desc(s: Seq<InsightView>) -> Seq<InsightView>
    decreases s.len(),
{
    if s.len() == 0 {
        Seq::empty()
    } else {
        insert_desc(sort_desc(s.drop_last()), s.last())
    }
}

proof fn lemma_insert_desc_at(s: Seq<InsightView>, x: InsightView, j: int)
    requires
        0 <= j <= s.len(),
        forall|k: int| 0 <= k < j ==> s[k].2 >= x.2,
        j == s.len() || s[j].2 < x.2,
    ensures
        insert_desc(s, x) == s.insert(j, x),
    decreases s.len(),
{
    if j > 0 {
        assert forall|k: int| 0 <= k < j - 1 implies s.drop_first()[k].2 >= x.2 by {
            assert(s.drop_first()[k] == s[k + 1]);
        }
        if j < s.len() {
            assert(s.drop_first()[j - 1] == s[j]);
        }
        lemma_insert_desc_at(s.drop_first(), x, j - 1);
        assert(seq![s[0]] + s.drop_first().insert(j - 1, x) =~= s.insert(j, x));
    } else {
        assert(seq![x] + s =~= s.insert(0, x));
    }
}

/// Sorts insights by descending support, keeping the order of ties.
pub fn sort_by_support(v: Vec<PatternInsight>) -> (r: Vec<PatternInsight>)
    ensures
        insight_views(r@) == sort_desc(insight_views(v@)),
{
    let ghost orig = insight_views(v@);
    let ghost n = v@.len();
    let mut rest = v;
    let mut out: Vec<PatternInsight> = Vec::new();
    proof {
        assert(orig.skip(0) =~= orig);
        assert(orig.take(0) =~= Seq::<InsightView>::empty());
        assert(insight_views(out@) =~= Seq::<InsightView>::empty());
    }
    while rest.len() > 0
        invariant
            rest@.len() <= n,
            orig.len() == n,
            insight_views(rest@) == orig.skip(n - rest@.len()),
            insight_views(out@) == sort_desc(orig.take(n - rest@.len())),
        decreases rest@.len(),
    {
        let ghost i = n - rest@.len();
        let ghost before = insight_views(out@);
        let ghost rest0 = rest@;
        proof {
            assert(insight_views(rest@)[0] == orig[i]);
        }
        let x = rest.remove(0);
        proof {
            assert forall|k: int| 0 <= k < rest@.len() implies #[trigger] insight_views(rest@)[k]
                == orig.skip(i + 1)[k] by {
                assert(rest@[k] == rest0[k + 1]);
                assert(insight_views(rest0)[k + 1] == orig.skip(i)[k + 1]);
            }
        }
        let mut j: usize = 0;
        while j < out.len() && out[j].support_count >= x.support_count
            invariant
                j <= out@.len(),
                forall|k: int| 0 <= k < j ==> out@[k].support_count >= x.support_count,
            decreases out@.len() - j,
        {
            j = j + 1;
        }
        proof {
            assert forall|k: int| 0 <= k < j implies before[k].2 >= insight_view(x).2 by {
                assert(before[k] == insight_view(out@[k]));
            }
            if j < out@.len() {
                assert(before[j as int] == insight_view(out@[j as int]));
            }
            lemma_insert_desc_at(before, insight_view(x), j as int);
        }
        out.insert(j, x);
        proof {
            assert(insight_views(out@) =~= before.insert(j as int, insight_view(x)));
            assert(orig.take(i + 1).drop_last() =~= orig.take(i));
            assert(orig.take(i + 1).last() == orig[i]);
            assert(insight_views(rest@) =~= orig.skip(i + 1));
        }
    }
    proof {
        assert(orig.take(n as int) =~= orig);
    }
    out
}

/// An evidence entry holding text.
fn text_entry(k: &str, v: &str) -> (r: (String, Json))
    ensures
        r.0@ == k@,
        scalar_of(r.1) == Scalar::Text(v@),
{
    (owned(k), Json::Str(owned(v)))
}

/// An evidence entry holding an integer.
fn number_entry(k: &str, n: i64) -> (r: (String, Json))
    ensures
        r.0@ == k@,
        scalar_of(r.1) == Scalar::Number(n as int),
{
    (owned(k), Json::Int(n))
}

/// Appends an entry to evidence entries.
fn push_entry(f: &mut Vec<(String, Json)>, e: (String, Json))
    ensures
        final(f)@.map_values(|e: (String, Json)| (e.0@, scalar_of(e.1))) == old(f)@.map_values(
            |e: (String, Json)| (e.0@, scalar_of(e.1)),
        ).push((e.0@, scalar_of(e.1))),
{
    f.push(e);
    assert(f@.map_values(|e: (String, Json)| (e.0@, scalar_of(e.1))) =~= old(f)@.map_values(
        |e: (String, Json)| (e.0@, scalar_of(e.1)),
    ).push((e.0@, scalar_of(e.1))));
}

// ── Tool reliability ─────────────────────────────────────────────────────

/// A call that finished, successfully or not.
pub open spec fn counted(r: ToolCallRow) -> bool {
    r.status@ == "done"@ || r.status@ == "error"@
}

/// Tool names of finished calls, in order.
pub open spec fn counted_names(rows: Seq<ToolCallRow>) -> Seq<Seq<char>>
    decreases rows.len(),
{
    if rows.len() == 0 {
        Seq::empty()
    } else {
        let p = counted_names(rows.drop_last());
        if counted(rows.last()) {
            p.push(rows.last().tool_name@)
        } else {
            p
        }
    }
}

/// Finished calls of `tool`.
pub open spec fn tool_total(rows: Seq<ToolCallRow>, tool: Seq<char>) -> nat
    decreases rows.len(),
{
    if rows.len() == 0 {
        0
    } else {
        tool_total(rows.drop_last(), tool) + if counted(rows.last()) && rows.last().tool_name@
            == tool {
            1nat
        } else {
            0nat
        }
    }
}

/// Failed calls of `tool`.
pub open spec fn tool_errors(rows: Seq<ToolCallRow>, tool: Seq<char>) -> nat
    decreases rows.len(),
{
    if rows.len() == 0 {
        0
    } else {
        tool_errors(rows.drop_last(), tool) + if rows.last().status@ == "error"@
            && rows.last().tool_name@ == tool {
            1nat
        } else {
            0nat
        }
    }
}

/// Sessions of the finished calls of `tool`, in order (with repeats).
pub open spec fn tool_sessions(rows: Seq<ToolCallRow>, tool: Seq<char>) -> Seq<Seq<char>>
    decreases rows.len(),
{
    if rows.len() == 0 {
        Seq::empty()
    } else {
        let p = tool_sessions(rows.drop_last(), tool);
        if counted(rows.last()) && rows.last().tool_name@ == tool {
            p.push(rows.last().session_id@)
        } else {
            p
        }
    }
}

/// The error text of the first failed call of `tool` that has one.
pub open spec fn tool_sample(rows: Seq<ToolCallRow>, tool: Seq<char>) -> Option<Seq<char>>
    decreases rows.len(),
{
    if rows.len() == 0 {
        None
    } else {
        match tool_sample(rows.drop_last(), tool) {
            Some(x) => Some(x),
            None => if rows.last().status@ == "error"@ && rows.last().tool_name@ == tool {
                match rows.last().error {
                    Some(e) => Some(e@),
                    None => None,
                }
            } else {
                None
            },
        }
    }
}

pub open spec fn sample_text(o: Option<Seq<char>>, max: nat) -> Seq<char> {
    match o {
        Some(e) => redact_spec(e, max),
        None => Seq::empty(),
    }
}

/// The insight about a tool with `t` finished calls, `e` failures, over
/// `sc` sessions, with sample error `ex`.
pub open spec fn reliability_insight(tool: Seq<char>, t: int, e: int, sc: int, ex: Seq<char>) -> InsightView {
    let rate = pct_spec(e, t);
    let tail = if ex.len() == 0 {
        Seq::empty()
    } else {
        "，最常见："@ + ex
    };
    (
        "工具 `"@ + tool + "` 跨 "@ + int_decimal(sc) + " 个 session 的最近 "@ + int_decimal(t)
            + " 次调用失败 "@ + int_decimal(e) + " 次（"@ + int_decimal(rate) + "%）"@ + tail
            + "。"@,
        "`"@ + tool + "` 近期失败率偏高（"@ + int_decimal(e) + "/"@ + int_decimal(t) + "，"@
            + int_decimal(rate) + "%）——调用前先核对前置条件，或考虑替代方案。"@,
        sc,
        seq![
            ("detector"@, Scalar::Text("tool_reliability"@)),
            ("support_unit"@, Scalar::Text("sessions"@)),
            ("tool"@, Scalar::Text(tool)),
            ("total"@, Scalar::Number(t)),
            ("total_calls"@, Scalar::Number(t)),
            ("errors"@, Scalar::Number(e)),
            ("rate"@, Scalar::Number(rate)),
            ("session_count"@, Scalar::Number(sc)),
        ],
    )
}

/// A tool is flagged with at least 8 finished calls, a failure rate of at
/// least 25%, over at least 2 sessions.
pub open spec fn flagged(t: int, e: int, sc: int) -> bool {
    t >= 8 && pct_spec(e, t) >= 25 && sc >= 2
}

pub open spec fn reliability_insights(rows: Seq<ToolCallRow>, tools: Seq<Seq<char>>) -> Seq<
    InsightView,
>
    decreases tools.len(),
{
    if tools.len() == 0 {
        Seq::empty()
    } else {
        let p = reliability_insights(rows, tools.drop_last());
        let tool = tools.last();
        let t = tool_total(rows, tool) as int;
        let e = tool_errors(rows, tool) as int;
        let sc = dedup(tool_sessions(rows, tool)).len() as int;
        if flagged(t, e, sc) {
            p.push(reliability_insight(tool, t, e, sc, sample_text(tool_sample(rows, tool), 80)))
        } else {
            p
        }
    }
}

/// Flagged tools, in order of first finished call, then stably sorted by
/// descending session support.
pub open spec fn tool_reliability_spec(rows: Seq<ToolCallRow>) -> Seq<InsightView> {
    sort_desc(reliability_insights(rows, dedup(counted_names(rows))))
}

proof fn lemma_tool_counts_bounded(rows: Seq<ToolCallRow>, tool: Seq<char>)
    ensures
        tool_errors(rows, tool) <= tool_total(rows, tool) <= rows.len(),
        tool_sessions(rows, tool).len() == tool_total(rows, tool),
    decreases rows.len(),
{
    if rows.len() > 0 {
        lemma_tool_counts_bounded(rows.drop_last(), tool);
    }
}

proof fn lemma_dedup_len(s: Seq<Seq<char>>)
    ensures
        dedup(s).len() <= s.len(),
    decreases s.len(),
{
    if s.len() > 0 {
        lemma_dedup_len(s.drop_last());
    }
}

/// The distinct sessions in which `tool` has a finished (done or failed)
/// call.
pub open spec fn tool_session_set(rows: Seq<ToolCallRow>, tool: Seq<char>) -> Set<Seq<char>> {
    Set::new(
        |s: Seq<char>|
            exists|i: int|
                0 <= i < rows.len() && counted(#[trigger] rows[i]) && rows[i].tool_name@ == tool
                    && rows[i].session_id@ == s,
    )
}

proof fn lemma_tool_sessions_contains(rows: Seq<ToolCallRow>, tool: Seq<char>)
    ensures
        forall|s: Seq<char>|
            #[trigger] tool_sessions(rows, tool).contains(s) <==> tool_session_set(rows, tool).contains(s),
    decreases rows.len(),
{
    if rows.len() > 0 {
        let d = rows.drop_last();
        lemma_tool_sessions_contains(d, tool);
        let last = rows.last();
        assert forall|s: Seq<char>| #[trigger] tool_sessions(rows, tool).contains(s) <==> tool_session_set(
            rows,
            tool,
        ).contains(s) by {
            let p = tool_sessions(d, tool);
            if tool_sessions(rows, tool).contains(s) {
                if counted(last) && last.tool_name@ == tool && s == last.session_id@ {
                    assert(rows[rows.len() - 1] == last);
                } else {
                    if counted(last) && last.tool_name@ == tool {
                        let k = choose|k: int| 0 <= k < p.push(last.session_id@).len() && p.push(
                            last.session_id@,
                        )[k] == s;
                        assert(k < p.len());
                        assert(p[k] == s);
                    }
                    assert(p.contains(s));
                    assert(tool_session_set(d, tool).contains(s));
                    let i = choose|i: int|
                        0 <= i < d.len() && counted(#[trigger] d[i]) && d[i].tool_name@ == tool
                            && d[i].session_id@ == s;
                    assert(rows[i] == d[i]);
                }
            }
            if tool_session_set(rows, tool).contains(s) {
                let i = choose|i: int|
                    0 <= i < rows.len() && counted(#[trigger] rows[i]) && rows[i].tool_name@ == tool
                        && rows[i].session_id@ == s;
                if i == rows.len() - 1 {
                    let q = p.push(last.session_id@);
                    assert(q[q.len() - 1] == s);
                } else {
                    assert(d[i] == rows[i]);
                    assert(tool_session_set(d, tool).contains(s));
                    assert(p.contains(s));
                    let k = choose|k: int| 0 <= k < p.len() && p[k] == s;
                    if counted(last) && last.tool_name@ == tool {
                        assert(p.push(last.session_id@)[k] == s);
                    }
                }
            }
        }
    } else {
        assert(tool_session_set(rows, tool) =~= Set::<Seq<char>>::empty());
    }
}

proof fn lemma_dedup_props(s: Seq<Seq<char>>)
    ensures
        dedup(s).no_duplicates(),
        forall|x: Seq<char>| #[trigger] dedup(s).contains(x) <==> s.contains(x),
    decreases s.len(),
{
    if s.len() > 0 {
        let d = s.drop_last();
        lemma_dedup_props(d);
        if !dedup(d).contains(s.last()) {
            let q = dedup(d).push(s.last());
            assert forall|i: int, j: int| 0 <= i < q.len() && 0 <= j < q.len() && i != j implies q[i]
                != q[j] by {
                if i == q.len() - 1 && j < q.len() - 1 {
                    assert(dedup(d)[j] == q[j]);
                } else if j == q.len() - 1 && i < q.len() - 1 {
                    assert(dedup(d)[i] == q[i]);
                } else {
                    assert(dedup(d)[i] == q[i] && dedup(d)[j] == q[j]);
                }
            }
        }
        assert forall|x: Seq<char>| #[trigger] dedup(s).contains(x) <==> s.contains(x) by {
            if dedup(s).contains(x) {
                if !dedup(d).contains(x) {
                    let q = dedup(d).push(s.last());
                    let k = choose|k: int| 0 <= k < q.len() && q[k] == x;
                    assert(x == s.last());
                    assert(s[s.len() - 1] == x);
                } else {
                    let k = choose|k: int| 0 <= k < d.len() && d[k] == x;
                    assert(s[k] == x);
                }
            }
            if s.contains(x) {
                let k = choose|k: int| 0 <= k < s.len() && s[k] == x;
                if k == s.len() - 1 {
                    if !dedup(d).contains(s.last()) {
                        let q = dedup(d).push(s.last());
                        assert(q[q.len() - 1] == x);
                    }
                } else {
                    assert(d[k] == x);
                    assert(d.contains(x));
                    assert(dedup(d).contains(x));
                    let j = choose|j: int| 0 <= j < dedup(d).len() && dedup(d)[j] == x;
                    if !dedup(d).contains(s.last()) {
                        assert(dedup(d).push(s.last())[j] == x);
                    }
                }
            }
        }
    }
}

/// The session support of a tool is the number of its distinct sessions.
proof fn lemma_session_count(rows: Seq<ToolCallRow>, tool: Seq<char>)
    ensures
        dedup(tool_sessions(rows, tool)).len() == tool_session_set(rows, tool).len(),
{
    let d = dedup(tool_sessions(rows, tool));
    lemma_dedup_props(tool_sessions(rows, tool));
    lemma_tool_sessions_contains(rows, tool);
    d.unique_seq_to_set();
    assert(d.to_set() =~= tool_session_set(rows, tool));
}

proof fn lemma_insert_desc_elems(s: Seq<InsightView>, x: InsightView)
    ensures
        insert_desc(s, x).len() == s.len() + 1,
        forall|j: int|
            0 <= j < insert_desc(s, x).len() ==> #[trigger] insert_desc(s, x)[j] == x || s.contains(
                insert_desc(s, x)[j],
            ),
    decreases s.len(),
{
    if s.len() > 0 && s[0].2 >= x.2 {
        let t = s.drop_first();
        lemma_insert_desc_elems(t, x);
        assert forall|j: int| 0 <= j < insert_desc(s, x).len() implies #[trigger] insert_desc(s, x)[j]
            == x || s.contains(insert_desc(s, x)[j]) by {
            if j == 0 {
                assert(s[0] == insert_desc(s, x)[0]);
            } else {
                let y = insert_desc(t, x)[j - 1];
                assert(insert_desc(s, x)[j] == y);
                if y != x {
                    let k = choose|k: int| 0 <= k < t.len() && t[k] == y;
                    assert(s[k + 1] == y);
                }
            }
        }
    } else if s.len() > 0 {
        assert forall|j: int| 0 <= j < insert_desc(s, x).len() implies #[trigger] insert_desc(s, x)[j]
            == x || s.contains(insert_desc(s, x)[j]) by {
            if j > 0 {
                assert(insert_desc(s, x)[j] == s[j - 1]);
            }
        }
    }
}

/// Sorting by support keeps only insights that were there.
proof fn lemma_sort_desc_elems(s: Seq<InsightView>)
    ensures
        sort_desc(s).len() == s.len(),
        forall|j: int| 0 <= j < sort_desc(s).len() ==> s.contains(#[trigger] sort_desc(s)[j]),
    decreases s.len(),
{
    if s.len() > 0 {
        let d = s.drop_last();
        lemma_sort_desc_elems(d);
        lemma_insert_desc_elems(sort_desc(d), s.last());
        assert forall|j: int| 0 <= j < sort_desc(s).len() implies s.contains(#[trigger] sort_desc(s)[j]) by {
            let y = sort_desc(s)[j];
            if y == s.last() {
                assert(s[s.len() - 1] == y);
            } else {
                let k = choose|k: int| 0 <= k < sort_desc(d).len() && sort_desc(d)[k] == y;
                assert(d.contains(sort_desc(d)[k]));
                let m = choose|m: int| 0 <= m < d.len() && d[m] == y;
                assert(s[m] == y);
            }
        }
    }
}

/// What every reliability insight is: the insight of a flagged tool,
/// supported by its distinct sessions.
pub open spec fn supported_tool_insight(rows: Seq<ToolCallRow>, x: InsightView) -> bool {
    exists|tool: Seq<char>|
        x.3.len() > 2 && x.3[2] == ("tool"@, Scalar::Text(tool)) && x.2 == tool_session_set(rows, tool).len()
}

proof fn lemma_reliability_elems(rows: Seq<ToolCallRow>, tools: Seq<Seq<char>>)
    ensures
        forall|j: int|
            0 <= j < reliability_insights(rows, tools).len() ==> (#[trigger] reliability_insights(
                rows,
                tools,
            )[j]).2 >= 2 && supported_tool_insight(rows, reliability_insights(rows, tools)[j]),
    decreases tools.len(),
{
    if tools.len() > 0 {
        let p = reliability_insights(rows, tools.drop_last());
        lemma_reliability_elems(rows, tools.drop_last());
        let tool = tools.last();
        lemma_session_count(rows, tool);
        let r = reliability_insights(rows, tools);
        assert forall|j: int| 0 <= j < r.len() implies (#[trigger] r[j]).2 >= 2
            && supported_tool_insight(rows, r[j]) by {
            if j < p.len() {
                assert(r[j] == p[j]);
            } else {
                let x = r[j];
                assert(x.3[2] == ("tool"@, Scalar::Text(tool)));
            }
        }
    }
}

/// A tool is reported as unreliable only across sessions: every tool
/// reliability insight names its tool and is supported by at least two
/// distinct sessions, its support being exactly the number of distinct
/// sessions with a finished call of that tool.
pub proof fn lemma_reliability_needs_two_sessions(rows: Seq<ToolCallRow>)
    ensures
        forall|j: int|
            0 <= j < tool_reliability_spec(rows).len() ==> (#[trigger] tool_reliability_spec(rows)[j]).2
                >= 2 && supported_tool_insight(rows, tool_reliability_spec(rows)[j]),
{
    let s = reliability_insights(rows, dedup(counted_names(rows)));
    lemma_reliability_elems(rows, dedup(counted_names(rows)));
    lemma_sort_desc_elems(s);
    assert forall|j: int| 0 <= j < tool_reliability_spec(rows).len() implies (
    #[trigger] tool_reliability_spec(rows)[j]).2 >= 2 && supported_tool_insight(
        rows,
        tool_reliability_spec(rows)[j],
    ) by {
        let y = tool_reliability_spec(rows)[j];
        assert(s.contains(sort_desc(s)[j]));
        let k = choose|k: int| 0 <= k < s.len() && s[k] == y;
    }
}

/// Counts of the finished and failed calls of `tool`, its distinct
/// sessions and its sample error.
fn tool_stats(rows: &[ToolCallRow], tool: &str) -> (r: (u64, u64, Vec<String>, Option<String>))
    ensures
        r.0 == tool_total(rows@, tool@),
        r.1 == tool_errors(rows@, tool@),
        string_views(r.2@) == tool_sessions(rows@, tool@),
        opt_text(r.3) == tool_sample(rows@, tool@),
{
    let mut t: u64 = 0;
    let mut e: u64 = 0;
    let mut sessions: Vec<String> = Vec::new();
    let mut sample: Option<String> = None;
    let mut i: usize = 0;
    proof {
        assert(rows@.take(0) =~= Seq::<ToolCallRow>::empty());
        assert(string_views(sessions@) =~= Seq::<Seq<char>>::empty());
    }
    while i < rows.len()
        invariant
            i <= rows@.len(),
            t == tool_total(rows@.take(i as int), tool@),
            e == tool_errors(rows@.take(i as int), tool@),
            e <= t <= i,
            string_views(sessions@) == tool_sessions(rows@.take(i as int), tool@),
            opt_text(sample) == tool_sample(rows@.take(i as int), tool@),
        decreases rows@.len() - i,
    {
        proof {
            assert(rows@.take(i + 1).drop_last() =~= rows@.take(i as int));
            assert(rows@.take(i + 1).last() == rows@[i as int]);
            lemma_tool_counts_bounded(rows@.take(i as int), tool@);
        }
        let r = &rows[i];
        let same = str_eq(r.tool_name.as_str(), tool);
        let is_error = str_eq(r.status.as_str(), "error");
        let is_done = str_eq(r.status.as_str(), "done");
        if same && (is_error || is_done) {
            t = t + 1;
            let ghost before = string_views(sessions@);
            sessions.push(r.session_id.clone());
            assert(string_views(sessions@) =~= before.push(r.session_id@));
        }
        if same && is_error {
            e = e + 1;
            if sample.is_none() {
                match &r.error {
                    Some(msg) => {
                        sample = Some(msg.clone());
                    },
                    None => {},
                }
            }
        }
        i = i + 1;
    }
    proof {
        assert(rows@.take(rows@.len() as int) =~= rows@);
    }
    (t, e, sessions, sample)
}

pub open spec fn opt_text(o: Option<String>) -> Option<Seq<char>> {
    match o {
        Some(s) => Some(s@),
        None => None,
    }
}

/// The insight about one flagged tool.
fn reliability_insight_exec(tool: &str, t: i64, e: i64, sc: i64, ex: &str) -> (p: PatternInsight)
    requires
        0 <= e <= t,
        t * 100 <= i64::MAX,
        0 < t,
    ensures
        insight_view(p) == reliability_insight(tool@, t as int, e as int, sc as int, ex@),
{
    let rate = pct(e, t);
    let sc_text = i64_string(sc);
    let t_text = i64_string(t);
    let e_text = i64_string(e);
    let rate_text = i64_string(rate);
    let mut obs = owned("工具 `");
    push_str(&mut obs, tool);
    push_str(&mut obs, "` 跨 ");
    push_str(&mut obs, sc_text.as_str());
    push_str(&mut obs, " 个 session 的最近 ");
    push_str(&mut obs, t_text.as_str());
    push_str(&mut obs, " 次调用失败 ");
    push_str(&mut obs, e_text.as_str());
    push_str(&mut obs, " 次（");
    push_str(&mut obs, rate_text.as_str());
    push_str(&mut obs, "%）");
    let exv = chars_of(ex);
    if exv.len() > 0 {
        push_str(&mut obs, "，最常见：");
        push_str(&mut obs, ex);
    } else {
        assert(obs@ + Seq::<char>::empty() =~= obs@);
    }
    push_str(&mut obs, "。");
    let mut sug = owned("`");
    push_str(&mut sug, tool);
    push_str(&mut sug, "` 近期失败率偏高（");
    push_str(&mut sug, e_text.as_str());
    push_str(&mut sug, "/");
    push_str(&mut sug, t_text.as_str());
    push_str(&mut sug, "，");
    push_str(&mut sug, rate_text.as_str());
    push_str(&mut sug, "%）——调用前先核对前置条件，或考虑替代方案。");
    let mut f: Vec<(String, Json)> = Vec::new();
    push_entry(&mut f, text_entry("detector", "tool_reliability"));
    push_entry(&mut f, text_entry("support_unit", "sessions"));
    push_entry(&mut f, text_entry("tool", tool));
    push_entry(&mut f, number_entry("total", t));
    push_entry(&mut f, number_entry("total_calls", t));
    push_entry(&mut f, number_entry("errors", e));
    push_entry(&mut f, number_entry("rate", rate));
    push_entry(&mut f, number_entry("session_count", sc));
    let p = PatternInsight { observation: obs, suggestion: sug, support_count: sc, evidence: Json::Object(f) };
    assert(flat_view(p.evidence) =~= reliability_insight(tool@, t as int, e as int, sc as int, ex@).3);
    p
}

/// Tools whose recent failure rate is high enough to warn about.
pub fn detect_tool_reliability(rows: &[ToolCallRow]) -> (r: Vec<PatternInsight>)
    requires
        rows@.len() * 100 <= i64::MAX,
    ensures
        insight_views(r@) == tool_reliability_spec(rows@),
{
    let mut names: Vec<String> = Vec::new();
    let mut i: usize = 0;
    proof {
        assert(rows@.take(0) =~= Seq::<ToolCallRow>::empty());
        assert(string_views(names@) =~= Seq::<Seq<char>>::empty());
    }
    while i < rows.len()
        invariant
            i <= rows@.len(),
            string_views(names@) == counted_names(rows@.take(i as int)),
        decreases rows@.len() - i,
    {
        proof {
            assert(rows@.take(i + 1).drop_last() =~= rows@.take(i as int));
            assert(rows@.take(i + 1).last() == rows@[i as int]);
        }
        if str_eq(rows[i].status.as_str(), "done") || str_eq(rows[i].status.as_str(), "error") {
            let ghost before = string_views(names@);
            names.push(rows[i].tool_name.clone());
            assert(string_views(names@) =~= before.push(rows@[i as int].tool_name@));
        }
        i = i + 1;
    }
    proof {
        assert(rows@.take(rows@.len() as int) =~= rows@);
    }
    let tools = dedup_strings(&names);
    let ghost ts = string_views(tools@);
    let mut out: Vec<PatternInsight> = Vec::new();
    let mut k: usize = 0;
    proof {
        assert(ts.take(0) =~= Seq::<Seq<char>>::empty());
        assert(insight_views(out@) =~= Seq::<InsightView>::empty());
    }
    while k < tools.len()
        invariant
            k <= tools@.len(),
            ts == string_views(tools@),
            rows@.len() * 100 <= i64::MAX,
            insight_views(out@) == reliability_insights(rows@, ts.take(k as int)),
        decreases tools@.len() - k,
    {
        let tool = tools[k].as_str();
        let (t, e, sessions, sample) = tool_stats(rows, tool);
        let distinct = dedup_strings(&sessions);
        proof {
            lemma_tool_counts_bounded(rows@, tool@);
            lemma_dedup_len(tool_sessions(rows@, tool@));
            assert(ts.take(k + 1).drop_last() =~= ts.take(k as int));
            assert(ts.take(k + 1).last() == tool@);
        }
        let ti = t as i64;
        let ei = e as i64;
        let sc = distinct.len() as i64;
        if ti >= 8 && pct(ei, ti) >= 25 && sc >= 2 {
            let ex: String = match &sample {
                Some(msg) => redact_text(msg.as_str(), 80),
                None => String::new(),
            };
            proof {
                reveal_strlit("");
            }
            let p = reliability_insight_exec(tool, ti, ei, sc, ex.as_str());
            let ghost before = insight_views(out@);
            out.push(p);
            assert(insight_views(out@) =~= before.push(insight_view(p)));
        }
        k = k + 1;
    }
    proof {
        assert(ts.take(tools@.len() as int) =~= ts);
    }
    sort_by_support(out)
}

// ── Retry-prone failures ─────────────────────────────────────────────────

/// The redacted error of a task run.
pub open spec fn retry_raw(r: TaskRow) -> Seq<char> {
    redact_spec(text_or_empty(r.error), 120)
}

/// `(key, raw error)` of a task that was retried and whose error gives a
/// non-empty key; the key is the normalised first 50 characters.
pub open spec fn retry_key(r: TaskRow) -> Option<(Seq<char>, Seq<char>)> {
    if r.attempt_count < 2 {
        None
    } else {
        let raw = retry_raw(r);
        let key = norm_spec(truncate(raw, 50));
        if key.len() == 0 {
            None
        } else {
            Some((key, raw))
        }
    }
}

/// Keys of the retried tasks, in order.
pub open spec fn retry_keys(rows: Seq<TaskRow>) -> Seq<Seq<char>>
    decreases rows.len(),
{
    if rows.len() == 0 {
        Seq::empty()
    } else {
        let p = retry_keys(rows.drop_last());
        match retry_key(rows.last()) {
            Some(kr) => p.push(kr.0),
            None => p,
        }
    }
}

/// Retried tasks with key `key`.
pub open spec fn key_count(rows: Seq<TaskRow>, key: Seq<char>) -> nat
    decreases rows.len(),
{
    if rows.len() == 0 {
        0
    } else {
        key_count(rows.drop_last(), key) + match retry_key(rows.last()) {
            Some(kr) => if kr.0 == key {
                1nat
            } else {
                0nat
            },
            None => 0nat,
        }
    }
}

/// Sessions of the retried tasks with key `key`, in order (with repeats).
pub open spec fn key_sessions(rows: Seq<TaskRow>, key: Seq<char>) -> Seq<Seq<char>>
    decreases rows.len(),
{
    if rows.len() == 0 {
        Seq::empty()
    } else {
        let p = key_sessions(rows.drop_last(), key);
        match retry_key(rows.last()) {
            Some(kr) => if kr.0 == key {
                p.push(rows.last().session_id@)
            } else {
                p
            },
            None => p,
        }
    }
}

/// The raw error of the first retried task with key `key`.
pub open spec fn key_sample(rows: Seq<TaskRow>, key: Seq<char>) -> Option<Seq<char>>
    decreases rows.len(),
{
    if rows.len() == 0 {
        None
    } else {
        match key_sample(rows.drop_last(), key) {
            Some(x) => Some(x),
            None => match retry_key(rows.last()) {
                Some(kr) => if kr.0 == key {
                    Some(kr.1)
                } else {
                    None
                },
                None => None,
            },
        }
    }
}

pub open spec fn retry_insight(count: int, sample: Seq<char>, sc: int) -> InsightView {
    (
        "跨 "@ + int_decimal(sc) + " 个 session 有 "@ + int_decimal(count) + " 个任务因「"@ + sample
            + "」反复重试。"@,
        "反复踩坑：「"@ + sample + "」导致多次重试——值得加一道前置检查或固定解法。"@,
        sc,
        seq![
            ("detector"@, Scalar::Text("retry_prone"@)),
            ("support_unit"@, Scalar::Text("sessions"@)),
            ("task_count"@, Scalar::Number(count)),
            ("session_count"@, Scalar::Number(sc)),
            ("sample"@, Scalar::Text(sample)),
        ],
    )
}

/// A failure is surfaced when at least 3 retried tasks over at least 2
/// sessions share its key.
pub open spec fn retry_insights(rows: Seq<TaskRow>, keys: Seq<Seq<char>>) -> Seq<InsightView>
    decreases keys.len(),
{
    if keys.len() == 0 {
        Seq::empty()
    } else {
        let p = retry_insights(rows, keys.drop_last());
        let key = keys.last();
        let count = key_count(rows, key) as int;
        let sc = dedup(key_sessions(rows, key)).len() as int;
        let sample = match key_sample(rows, key) {
            Some(raw) => truncate(raw, 60),
            None => Seq::empty(),
        };
        if count >= 3 && sc >= 2 {
            p.push(retry_insight(count, sample, sc))
        } else {
            p
        }
    }
}

/// Recurring retry failures, in order of first occurrence, then stably
/// sorted by descending session support.
pub open spec fn retry_prone_spec(rows: Seq<TaskRow>) -> Seq<InsightView> {
    sort_desc(retry_insights(rows, dedup(retry_keys(rows))))
}

/// The first `n` characters of `s` (all of them when it is shorter).
fn prefix_chars(s: &str, n: usize) -> (r: String)
    ensures
        r@ == truncate(s@, n as nat),
{
    let v = chars_of(s);
    if v.len() <= n {
        let all = slice_chars(&v, 0, v.len());
        assert(all@ =~= s@);
        string_of(all.as_slice())
    } else {
        let part = slice_chars(&v, 0, n);
        assert(part@ =~= s@.take(n as int));
        string_of(part.as_slice())
    }
}

pub open spec fn pair_view(o: Option<(String, String)>) -> Option<(Seq<char>, Seq<char>)> {
    match o {
        Some(p) => Some((p.0@, p.1@)),
        None => None,
    }
}

fn retry_key_exec(r: &TaskRow) -> (o: Option<(String, String)>)
    ensures
        pair_view(o) == retry_key(*r),
{
    if r.attempt_count < 2 {
        return None;
    }
    let raw = match &r.error {
        Some(e) => redact_text(e.as_str(), 120),
        None => redact_text("", 120),
    };
    proof {
        reveal_strlit("");
    }
    let head = prefix_chars(raw.as_str(), 50);
    let key = norm_suggestion(head.as_str());
    let kv = chars_of(key.as_str());
    if kv.len() == 0 {
        None
    } else {
        Some((key, raw))
    }
}

/// Count, distinct sessions and first raw error of the retried tasks with
/// key `key`, given each row's key.
fn key_stats(rows: &[TaskRow], keyed: &Vec<Option<(String, String)>>, key: &str) -> (r: (
    u64,
    Vec<String>,
    Option<String>,
))
    requires
        keyed@.len() == rows@.len(),
        forall|j: int| 0 <= j < rows@.len() ==> pair_view(#[trigger] keyed@[j]) == retry_key(rows@[j]),
    ensures
        r.0 == key_count(rows@, key@),
        string_views(r.1@) == key_sessions(rows@, key@),
        opt_text(r.2) == key_sample(rows@, key@),
{
    let mut count: u64 = 0;
    let mut sessions: Vec<String> = Vec::new();
    let mut sample: Option<String> = None;
    let mut i: usize = 0;
    proof {
        assert(rows@.take(0) =~= Seq::<TaskRow>::empty());
        assert(string_views(sessions@) =~= Seq::<Seq<char>>::empty());
    }
    while i < rows.len()
        invariant
            i <= rows@.len(),
            keyed@.len() == rows@.len(),
            forall|j: int| 0 <= j < rows@.len() ==> pair_view(#[trigger] keyed@[j]) == retry_key(rows@[j]),
            count == key_count(rows@.take(i as int), key@),
            count <= i,
            string_views(sessions@) == key_sessions(rows@.take(i as int), key@),
            opt_text(sample) == key_sample(rows@.take(i as int), key@),
        decreases rows@.len() - i,
    {
        proof {
            assert(rows@.take(i + 1).drop_last() =~= rows@.take(i as int));
            assert(rows@.take(i + 1).last() == rows@[i as int]);
            assert(pair_view(keyed@[i as int]) == retry_key(rows@[i as int]));
        }
        match &keyed[i] {
            Some(kr) => {
                if str_eq(kr.0.as_str(), key) {
                    count = count + 1;
                    let ghost before = string_views(sessions@);
                    sessions.push(rows[i].session_id.clone());
                    assert(string_views(sessions@) =~= before.push(rows@[i as int].session_id@));
                    if sample.is_none() {
                        sample = Some(kr.1.clone());
                    }
                }
            },
            None => {},
        }
        i = i + 1;
    }
    proof {
        assert(rows@.take(rows@.len() as int) =~= rows@);
    }
    (count, sessions, sample)
}

fn retry_insight_exec(count: i64, sample: &str, sc: i64) -> (p: PatternInsight)
    ensures
        insight_view(p) == retry_insight(count as int, sample@, sc as int),
{
    let sc_text = i64_string(sc);
    let count_text = i64_string(count);
    let mut obs = owned("跨 ");
    push_str(&mut obs, sc_text.as_str());
    push_str(&mut obs, " 个 session 有 ");
    push_str(&mut obs, count_text.as_str());
    push_str(&mut obs, " 个任务因「");
    push_str(&mut obs, sample);
    push_str(&mut obs, "」反复重试。");
    let mut sug = owned("反复踩坑：「");
    push_str(&mut sug, sample);
    push_str(&mut sug, "」导致多次重试——值得加一道前置检查或固定解法。");
    let mut f: Vec<(String, Json)> = Vec::new();
    push_entry(&mut f, text_entry("detector", "retry_prone"));
    push_entry(&mut f, text_entry("support_unit", "sessions"));
    push_entry(&mut f, number_entry("task_count", count));
    push_entry(&mut f, number_entry("session_count", sc));
    push_entry(&mut f, text_entry("sample", sample));
    let p = PatternInsight { observation: obs, suggestion: sug, support_count: sc, evidence: Json::Object(f) };
    assert(flat_view(p.evidence) =~= retry_insight(count as int, sample@, sc as int).3);
    p
}

proof fn lemma_key_counts_bounded(rows: Seq<TaskRow>, key: Seq<char>)
    ensures
        key_count(rows, key) <= rows.len(),
        key_sessions(rows, key).len() == key_count(rows, key),
    decreases rows.len(),
{
    if rows.len() > 0 {
        lemma_key_counts_bounded(rows.drop_last(), key);
    }
}

/// Failures that keep forcing retries across tasks.
pub fn detect_retry_prone(rows: &[TaskRow]) -> (r: Vec<PatternInsight>)
    requires
        rows@.len() <= i64::MAX,
    ensures
        insight_views(r@) == retry_prone_spec(rows@),
{
    let mut keyed: Vec<Option<(String, String)>> = Vec::new();
    let mut keys: Vec<String> = Vec::new();
    let mut i: usize = 0;
    proof {
        assert(rows@.take(0) =~= Seq::<TaskRow>::empty());
        assert(string_views(keys@) =~= Seq::<Seq<char>>::empty());
    }
    while i < rows.len()
        invariant
            i <= rows@.len(),
            keyed@.len() == i,
            forall|j: int| 0 <= j < i ==> pair_view(#[trigger] keyed@[j]) == retry_key(rows@[j]),
            string_views(keys@) == retry_keys(rows@.take(i as int)),
        decreases rows@.len() - i,
    {
        proof {
            assert(rows@.take(i + 1).drop_last() =~= rows@.take(i as int));
            assert(rows@.take(i + 1).last() == rows@[i as int]);
        }
        let kr = retry_key_exec(&rows[i]);
        match &kr {
            Some(p) => {
                let ghost before = string_views(keys@);
                keys.push(p.0.clone());
                assert(string_views(keys@) =~= before.push(p.0@));
            },
            None => {},
        }
        keyed.push(kr);
        i = i + 1;
    }
    proof {
        assert(rows@.take(rows@.len() as int) =~= rows@);
    }
    let groups = dedup_strings(&keys);
    let ghost gs = string_views(groups@);
    let mut out: Vec<PatternInsight> = Vec::new();
    let mut k: usize = 0;
    proof {
        assert(gs.take(0) =~= Seq::<Seq<char>>::empty());
        assert(insight_views(out@) =~= Seq::<InsightView>::empty());
    }
    while k < groups.len()
        invariant
            k <= groups@.len(),
            gs == string_views(groups@),
            rows@.len() <= i64::MAX,
            keyed@.len() == rows@.len(),
            forall|j: int| 0 <= j < rows@.len() ==> pair_view(#[trigger] keyed@[j]) == retry_key(rows@[j]),
            insight_views(out@) == retry_insights(rows@, gs.take(k as int)),
        decreases groups@.len() - k,
    {
        let key = groups[k].as_str();
        let (count, sessions, sample) = key_stats(rows, &keyed, key);
        let distinct = dedup_strings(&sessions);
        proof {
            lemma_key_counts_bounded(rows@, key@);
            lemma_dedup_len(key_sessions(rows@, key@));
            assert(gs.take(k + 1).drop_last() =~= gs.take(k as int));
            assert(gs.take(k + 1).last() == key@);
        }
        let ci = count as i64;
        let sc = distinct.len() as i64;
        if ci >= 3 && sc >= 2 {
            let shown = match &sample {
                Some(raw) => prefix_chars(raw.as_str(), 60),
                None => String::new(),
            };
            let p = retry_insight_exec(ci, shown.as_str(), sc);
            let ghost before = insight_views(out@);
            out.push(p);
            assert(insight_views(out@) =~= before.push(insight_view(p)));
        }
        k = k + 1;
    }
    proof {
        assert(gs.take(groups@.len() as int) =~= gs);
    }
    sort_by_support(out)
}

// ── Learning calibration ─────────────────────────────────────────────────

pub open spec fn decided(r: LearningDecisionRow) -> bool {
    r.status@ == "accepted"@ || r.status@ == "rejected"@
}

/// Kinds of the decided candidates, in order.
pub open spec fn decided_kinds(rows: Seq<LearningDecisionRow>) -> Seq<Seq<char>>
    decreases rows.len(),
{
    if rows.len() == 0 {
        Seq::empty()
    } else {
        let p = decided_kinds(rows.drop_last());
        if decided(rows.last()) {
            p.push(rows.last().kind@)
        } else {
            p
        }
    }
}

/// Decided candidates of kind `kind`.
pub open spec fn kind_decided(rows: Seq<LearningDecisionRow>, kind: Seq<char>) -> nat
    decreases rows.len(),
{
    if rows.len() == 0 {
        0
    } else {
        kind_decided(rows.drop_last(), kind) + if decided(rows.last()) && rows.last().kind@ == kind {
            1nat
        } else {
            0nat
        }
    }
}

/// Accepted candidates of kind `kind`.
pub open spec fn kind_accepts(rows: Seq<LearningDecisionRow>, kind: Seq<char>) -> nat
    decreases rows.len(),
{
    if rows.len() == 0 {
        0
    } else {
        kind_accepts(rows.drop_last(), kind) + if rows.last().status@ == "accepted"@
            && rows.last().kind@ == kind {
            1nat
        } else {
            0nat
        }
    }
}

pub open spec fn calibration_evidence(kind: Seq<char>, a: int, d: int) -> Seq<(Seq<char>, Scalar)> {
    seq![
        ("detector"@, Scalar::Text("learning_calibration"@)),
        ("support_unit"@, Scalar::Text("decisions"@)),
        ("kind"@, Scalar::Text(kind)),
        ("decided"@, Scalar::Number(d)),
        ("decision_count"@, Scalar::Number(d)),
        ("accepted"@, Scalar::Number(a)),
        ("accept_rate"@, Scalar::Number(pct_spec(a, d))),
    ]
}

/// The insight about a kind with `a` of `d` decisions accepted: only with
/// at least 5 decisions, at an accept rate of at most 20% or at least 80%.
pub open spec fn calibration_insight(kind: Seq<char>, a: int, d: int) -> Option<InsightView> {
    let rate = pct_spec(a, d);
    if d < 5 {
        None
    } else if rate <= 20 {
        Some(
            (
                "你几乎总是拒绝『"@ + kind + "』类学习建议（接受 "@ + int_decimal(a) + "/"@ + int_decimal(d)
                    + "）。"@,
                "校准：少提『"@ + kind + "』类学习（接受率仅 "@ + int_decimal(rate) + "%）——除非很有把握。"@,
                d,
                calibration_evidence(kind, a, d),
            ),
        )
    } else if rate >= 80 {
        Some(
            (
                "你几乎总是接受『"@ + kind + "』类学习（接受 "@ + int_decimal(a) + "/"@ + int_decimal(d)
                    + "）。"@,
                "校准：『"@ + kind + "』类学习接受率高（"@ + int_decimal(rate) + "%）——可以多提。"@,
                d,
                calibration_evidence(kind, a, d),
            ),
        )
    } else {
        None
    }
}

pub open spec fn calibration_insights(rows: Seq<LearningDecisionRow>, kinds: Seq<Seq<char>>) -> Seq<
    InsightView,
>
    decreases kinds.len(),
{
    if kinds.len() == 0 {
        Seq::empty()
    } else {
        let p = calibration_insights(rows, kinds.drop_last());
        let kind = kinds.last();
        match calibration_insight(
            kind,
            kind_accepts(rows, kind) as int,
            kind_decided(rows, kind) as int,
        ) {
            Some(x) => p.push(x),
            None => p,
        }
    }
}

/// Kinds at an extreme accept rate, in order of first decision, then stably
/// sorted by descending number of decisions.
pub open spec fn learning_calibration_spec(rows: Seq<LearningDecisionRow>) -> Seq<InsightView> {
    sort_desc(calibration_insights(rows, dedup(decided_kinds(rows))))
}

proof fn lemma_kind_counts_bounded(rows: Seq<LearningDecisionRow>, kind: Seq<char>)
    ensures
        kind_accepts(rows, kind) <= kind_decided(rows, kind) <= rows.len(),
    decreases rows.len(),
{
    if rows.len() > 0 {
        lemma_kind_counts_bounded(rows.drop_last(), kind);
    }
}

fn kind_stats(rows: &[LearningDecisionRow], kind: &str) -> (r: (u64, u64))
    ensures
        r.0 == kind_accepts(rows@, kind@),
        r.1 == kind_decided(rows@, kind@),
{
    let mut a: u64 = 0;
    let mut d: u64 = 0;
    let mut i: usize = 0;
    proof {
        assert(rows@.take(0) =~= Seq::<LearningDecisionRow>::empty());
    }
    while i < rows.len()
        invariant
            i <= rows@.len(),
            a == kind_accepts(rows@.take(i as int), kind@),
            d == kind_decided(rows@.take(i as int), kind@),
            a <= d <= i,
        decreases rows@.len() - i,
    {
        proof {
            assert(rows@.take(i + 1).drop_last() =~= rows@.take(i as int));
            assert(rows@.take(i + 1).last() == rows@[i as int]);
            lemma_kind_counts_bounded(rows@.take(i as int), kind@);
        }
        if str_eq(rows[i].kind.as_str(), kind) {
            let accepted = str_eq(rows[i].status.as_str(), "accepted");
            if accepted || str_eq(rows[i].status.as_str(), "rejected") {
                d = d + 1;
            }
            if accepted {
                a = a + 1;
            }
        }
        i = i + 1;
    }
    proof {
        assert(rows@.take(rows@.len() as int) =~= rows@);
    }
    (a, d)
}

fn calibration_entries(kind: &str, a: i64, d: i64, rate: i64) -> (j: Json)
    requires
        rate == pct_spec(a as int, d as int),
    ensures
        flat_view(j) == calibration_evidence(kind@, a as int, d as int),
{
    let mut f: Vec<(String, Json)> = Vec::new();
    push_entry(&mut f, text_entry("detector", "learning_calibration"));
    push_entry(&mut f, text_entry("support_unit", "decisions"));
    push_entry(&mut f, text_entry("kind", kind));
    push_entry(&mut f, number_entry("decided", d));
    push_entry(&mut f, number_entry("decision_count", d));
    push_entry(&mut f, number_entry("accepted", a));
    push_entry(&mut f, number_entry("accept_rate", rate));
    let j = Json::Object(f);
    assert(flat_view(j) =~= calibration_evidence(kind@, a as int, d as int));
    j
}

/// Calibrates the proposer from the user's accept/reject history.
pub fn detect_learning_calibration(rows: &[LearningDecisionRow]) -> (r: Vec<PatternInsight>)
    requires
        rows@.len() * 100 <= i64::MAX,
    ensures
        insight_views(r@) == learning_calibration_spec(rows@),
{
    let mut names: Vec<String> = Vec::new();
    let mut i: usize = 0;
    proof {
        assert(rows@.take(0) =~= Seq::<LearningDecisionRow>::empty());
        assert(string_views(names@) =~= Seq::<Seq<char>>::empty());
    }
    while i < rows.len()
        invariant
            i <= rows@.len(),
            string_views(names@) == decided_kinds(rows@.take(i as int)),
        decreases rows@.len() - i,
    {
        proof {
            assert(rows@.take(i + 1).drop_last() =~= rows@.take(i as int));
            assert(rows@.take(i + 1).last() == rows@[i as int]);
        }
        if str_eq(rows[i].status.as_str(), "accepted") || str_eq(rows[i].status.as_str(), "rejected") {
            let ghost before = string_views(names@);
            names.push(rows[i].kind.clone());
            assert(string_views(names@) =~= before.push(rows@[i as int].kind@));
        }
        i = i + 1;
    }
    proof {
        assert(rows@.take(rows@.len() as int) =~= rows@);
    }
    let kinds = dedup_strings(&names);
    let ghost ks = string_views(kinds@);
    let mut out: Vec<PatternInsight> = Vec::new();
    let mut k: usize = 0;
    proof {
        assert(ks.take(0) =~= Seq::<Seq<char>>::empty());
        assert(insight_views(out@) =~= Seq::<InsightView>::empty());
    }
    while k < kinds.len()
        invariant
            k <= kinds@.len(),
            ks == string_views(kinds@),
            rows@.len() * 100 <= i64::MAX,
            insight_views(out@) == calibration_insights(rows@, ks.take(k as int)),
        decreases kinds@.len() - k,
    {
        let kind = kinds[k].as_str();
        let (a, d) = kind_stats(rows, kind);
        proof {
            lemma_kind_counts_bounded(rows@, kind@);
            assert(ks.take(k + 1).drop_last() =~= ks.take(k as int));
            assert(ks.take(k + 1).last() == kind@);
        }
        let ai = a as i64;
        let di = d as i64;
        if di >= 5 {
            let rate = pct(ai, di);
            let a_text = i64_string(ai);
            let d_text = i64_string(di);
            let rate_text = i64_string(rate);
            if rate <= 20 {
                let mut obs = owned("你几乎总是拒绝『");
                push_str(&mut obs, kind);
                push_str(&mut obs, "』类学习建议（接受 ");
                push_str(&mut obs, a_text.as_str());
                push_str(&mut obs, "/");
                push_str(&mut obs, d_text.as_str());
                push_str(&mut obs, "）。");
                let mut sug = owned("校准：少提『");
                push_str(&mut sug, kind);
                push_str(&mut sug, "』类学习（接受率仅 ");
                push_str(&mut sug, rate_text.as_str());
                push_str(&mut sug, "%）——除非很有把握。");
                let evidence = calibration_entries(kind, ai, di, rate);
                let p = PatternInsight { observation: obs, suggestion: sug, support_count: di, evidence };
                let ghost before = insight_views(out@);
                out.push(p);
                assert(insight_views(out@) =~= before.push(insight_view(p)));
            } else if rate >= 80 {
                let mut obs = owned("你几乎总是接受『");
                push_str(&mut obs, kind);
                push_str(&mut obs, "』类学习（接受 ");
                push_str(&mut obs, a_text.as_str());
                push_str(&mut obs, "/");
                push_str(&mut obs, d_text.as_str());
                push_str(&mut obs, "）。");
                let mut sug = owned("校准：『");
                push_str(&mut sug, kind);
                push_str(&mut sug, "』类学习接受率高（");
                push_str(&mut sug, rate_text.as_str());
                push_str(&mut sug, "%）——可以多提。");
                let evidence = calibration_entries(kind, ai, di, rate);
                let p = PatternInsight { observation: obs, suggestion: sug, support_count: di, evidence };
                let ghost before = insight_views(out@);
                out.push(p);
                assert(insight_views(out@) =~= before.push(insight_view(p)));
            }
        }
        k = k + 1;
    }
    proof {
        assert(ks.take(kinds@.len() as int) =~= ks);
    }
    sort_by_support(out)
}

/// Every detector over the supplied rows: tool reliability, then retry
/// failures, then calibration.
pub fn run_detectors(
    tools: &[ToolCallRow],
    tasks: &[TaskRow],
    decisions: &[LearningDecisionRow],
) -> (r: Vec<PatternInsight>)
    requires
        tools@.len() * 100 <= i64::MAX,
        tasks@.len() <= i64::MAX,
        decisions@.len() * 100 <= i64::MAX,
    ensures
        insight_views(r@) == tool_reliability_spec(tools@) + retry_prone_spec(tasks@)
            + learning_calibration_spec(decisions@),
{
    let mut out = detect_tool_reliability(tools);
    let mut retry = detect_retry_prone(tasks);
    let mut calibration = detect_learning_calibration(decisions);
    let ghost a = out@;
    let ghost b = retry@;
    let ghost c = calibration@;
    out.append(&mut retry);
    out.append(&mut calibration);
    assert(insight_views(out@) =~= insight_views(a) + insight_views(b) + insight_views(c));
    out
}

/// The mined insights a run stores: an insight whose normalised suggestion
/// was already seen (among the project's accepted or pending learnings, or
/// earlier in this run) is dropped. Also gives the normalised forms seen
/// after.
pub open spec fn mined_spec(ins: Seq<InsightView>, seen: Seq<Seq<char>>) -> (Seq<InsightView>, Seq<
    Seq<char>,
>)
    decreases ins.len(),
{
    if ins.len() == 0 {
        (Seq::empty(), seen)
    } else {
        let n = norm_spec(ins[0].1);
        if seen.contains(n) {
            mined_spec(ins.drop_first(), seen)
        } else {
            let r = mined_spec(ins.drop_first(), seen.push(n));
            (seq![ins[0]] + r.0, r.1)
        }
    }
}

/// The normalised forms of the suggestions already recorded, in order.
pub fn seen_suggestions(existing: &[String]) -> (r: Vec<String>)
    ensures
        r@.len() == existing@.len(),
        forall|i: int| 0 <= i < existing@.len() ==> #[trigger] r@[i]@ == norm_spec(existing@[i]@),
{
    let mut out: Vec<String> = Vec::new();
    let mut i: usize = 0;
    while i < existing.len()
        invariant
            i <= existing@.len(),
            out@.len() == i,
            forall|k: int| 0 <= k < i ==> #[trigger] out@[k]@ == norm_spec(existing@[k]@),
        decreases existing@.len() - i,
    {
        let n = norm_suggestion(existing[i].as_str());
        out.push(n);
        i = i + 1;
    }
    out
}

/// The insights a mining run stores, in the order the detectors gave them,
/// given the normalised suggestions already known (extended with the ones
/// kept).
pub fn plan_mined_candidates(insights: Vec<PatternInsight>, seen: &mut Vec<String>) -> (r: Vec<
    PatternInsight,
>)
    ensures
        insight_views(r@) == mined_spec(insight_views(insights@), string_views(old(seen)@)).0,
        string_views(final(seen)@) == mined_spec(insight_views(insights@), string_views(old(seen)@)).1,
{
    let ghost all = insight_views(insights@);
    let ghost seen0 = string_views(seen@);
    let mut rest = insights;
    let mut out: Vec<PatternInsight> = Vec::new();
    proof {
        assert(insight_views(out@) + mined_spec(insight_views(rest@), string_views(seen@)).0
            =~= mined_spec(all, seen0).0);
    }
    while rest.len() > 0
        invariant
            insight_views(out@) + mined_spec(insight_views(rest@), string_views(seen@)).0
                == mined_spec(all, seen0).0,
            mined_spec(insight_views(rest@), string_views(seen@)).1 == mined_spec(all, seen0).1,
        decreases rest@.len(),
    {
        let ghost r0 = rest@;
        let ghost s0 = string_views(seen@);
        let ghost o0 = insight_views(out@);
        let p = rest.remove(0);
        proof {
            assert(insight_views(r0).drop_first() =~= insight_views(rest@));
            assert(insight_views(r0)[0] == insight_view(p));
        }
        let n = norm_suggestion(p.suggestion.as_str());
        let known = contains_string(seen, n.as_str());
        if !known {
            let ghost pv = insight_view(p);
            seen.push(n);
            out.push(p);
            proof {
                assert(string_views(seen@) =~= s0.push(norm_spec(pv.1)));
                assert(insight_views(out@) =~= o0.push(pv));
                assert(insight_views(out@) + mined_spec(insight_views(rest@), string_views(seen@)).0
                    =~= o0 + mined_spec(insight_views(r0), s0).0);
            }
        }
    }
    proof {
        assert(insight_views(out@) + Seq::<InsightView>::empty() =~= insight_views(out@));
    }
    out
}

/// Mining never stores one suggestion twice: the normalised suggestions of
/// the kept insights differ from each other and from every one seen before,
/// and every insight left out repeats a suggestion already seen or kept.
pub proof fn lemma_mined_distinct(ins: Seq<InsightView>, seen: Seq<Seq<char>>)
    ensures
        forall|a: int, b: int|
            0 <= a < b < mined_spec(ins, seen).0.len() ==> norm_spec(mined_spec(ins, seen).0[a].1)
                != norm_spec(mined_spec(ins, seen).0[b].1),
        forall|a: int|
            0 <= a < mined_spec(ins, seen).0.len() ==> !seen.contains(
                norm_spec(#[trigger] mined_spec(ins, seen).0[a].1),
            ),
        forall|k: int|
            0 <= k < ins.len() ==> mined_spec(ins, seen).1.contains(norm_spec(#[trigger] ins[k].1)),
        forall|x: Seq<char>| seen.contains(x) ==> #[trigger] mined_spec(ins, seen).1.contains(x),
    decreases ins.len(),
{
    if ins.len() > 0 {
        let n = norm_spec(ins[0].1);
        let t = ins.drop_first();
        if seen.contains(n) {
            lemma_mined_distinct(t, seen);
            assert(mined_spec(ins, seen) == mined_spec(t, seen));
            assert forall|k: int| 0 <= k < ins.len() implies mined_spec(ins, seen).1.contains(
                norm_spec(#[trigger] ins[k].1),
            ) by {
                if k > 0 {
                    assert(ins[k] == t[k - 1]);
                }
            }
        } else {
            let s2 = seen.push(n);
            lemma_mined_distinct(t, s2);
            let r = mined_spec(t, s2).0;
            let all = mined_spec(ins, seen).0;
            assert(all == seq![ins[0]] + r);
            assert forall|a: int| 0 <= a < r.len() implies norm_spec(r[a].1) != n && !seen.contains(
                norm_spec(r[a].1),
            ) by {
                assert(!s2.contains(norm_spec(r[a].1)));
                if norm_spec(r[a].1) == n {
                    assert(s2[s2.len() - 1] == n);
                }
                if seen.contains(norm_spec(r[a].1)) {
                    let k = choose|k: int| 0 <= k < seen.len() && seen[k] == norm_spec(r[a].1);
                    assert(s2[k] == seen[k]);
                }
            }
            assert forall|a: int, b: int| 0 <= a < b < all.len() implies norm_spec(all[a].1)
                != norm_spec(all[b].1) by {
                if a == 0 {
                    assert(all[b] == r[b - 1]);
                } else {
                    assert(all[a] == r[a - 1] && all[b] == r[b - 1]);
                }
            }
            assert forall|a: int| 0 <= a < all.len() implies !seen.contains(
                norm_spec(#[trigger] all[a].1),
            ) by {
                if a > 0 {
                    assert(all[a] == r[a - 1]);
                }
            }
            assert(s2[s2.len() - 1] == n);
            assert(s2.contains(n));
            assert forall|k: int| 0 <= k < ins.len() implies mined_spec(ins, seen).1.contains(
                norm_spec(#[trigger] ins[k].1),
            ) by {
                if k > 0 {
                    assert(ins[k] == t[k - 1]);
                }
            }
            assert forall|x: Seq<char>| seen.contains(x) implies #[trigger] mined_spec(
                ins,
                seen,
            ).1.contains(x) by {
                let k = choose|k: int| 0 <= k < seen.len() && seen[k] == x;
                assert(s2[k] == seen[k]);
            }
        }
    }
}

proof fn lemma_mined_all_seen(ins: Seq<InsightView>, seen: Seq<Seq<char>>)
    requires
        forall|k: int| 0 <= k < ins.len() ==> seen.contains(norm_spec(#[trigger] ins[k].1)),
    ensures
        mined_spec(ins, seen).0.len() == 0,
        mined_spec(ins, seen).1 == seen,
    decreases ins.len(),
{
    if ins.len() > 0 {
        let t = ins.drop_first();
        assert(seen.contains(norm_spec(ins[0].1)));
        assert forall|k: int| 0 <= k < t.len() implies seen.contains(norm_spec(#[trigger] t[k].1)) by {
            assert(t[k] == ins[k + 1]);
        }
        lemma_mined_all_seen(t, seen);
    }
}

/// Mining the same insights again right after a run stores nothing, and
/// its job ends `no_candidates`.
pub proof fn lemma_second_run_keeps_nothing(ins: Seq<InsightView>, seen: Seq<Seq<char>>)
    ensures
        mined_spec(ins, mined_spec(ins, seen).1).0.len() == 0,
        mined_spec(ins, mined_spec(ins, seen).1).1 == mined_spec(ins, seen).1,
{
    lemma_mined_distinct(ins, seen);
    lemma_mined_all_seen(ins, mined_spec(ins, seen).1);
}

/// The status a mining job ends with: `no_candidates` when it stored
/// nothing, `succeeded` otherwise.
pub fn mining_terminal_status(stored: usize) -> (r: &'static str)
    ensures
        r@ == (if stored == 0 {
            "no_candidates"@
        } else {
            "succeeded"@
        }),
{
    if stored == 0 {
        "no_candidates"
    } else {
        "succeeded"
    }
}

/// A miner failure and the stage it happened in.
#[derive(Debug)]
pub struct MiningFailure {
    pub stage: &'static str,
    pub error: AppError,
}

impl MiningFailure {
    pub fn new(stage: &'static str, error: AppError) -> (r: Self)
        ensures
            r.stage == stage,
            r.error == error,
    {
        MiningFailure { stage, error }
    }
}

// ── Tool gating proposals ────────────────────────────────────────────────

/// A proposal to gate a flaky tool behind a confirmation prompt.
#[derive(Debug)]
pub struct ToolGateProposal {
    pub tool: String,
    pub total: i64,
    pub errors: i64,
    pub rate: i64,
    pub observation: String,
}

pub type GateView = (Seq<char>, int, int, int, Seq<char>);

pub open spec fn gate_view(p: ToolGateProposal) -> GateView {
    (p.tool@, p.total as int, p.errors as int, p.rate as int, p.observation@)
}

pub open spec fn gate_views(s: Seq<ToolGateProposal>) -> Seq<GateView> {
    s.map_values(|p: ToolGateProposal| gate_view(p))
}

/// An integer entry of the evidence, 0 when missing or not an `i64`.
pub open spec fn evidence_int(ev: Json, key: Seq<char>) -> int {
    match json_get(ev, key) {
        Some(v) => match json_as_i64(v) {
            Some(n) => n as int,
            None => 0,
        },
        None => 0,
    }
}

/// The proposal for one insight: only for an insight that names a tool,
/// not `bash` or a `skill_` tool, and only while that tool is auto-allowed.
pub open spec fn gate_for(ins: PatternInsight, allow: Seq<Seq<char>>) -> Option<GateView> {
    match json_get(ins.evidence, "tool"@) {
        Some(v) => match json_as_str(v) {
            Some(tool) => if tool == "bash"@ || starts_with(tool, "skill_"@) || !allow.contains(
                tool,
            ) {
                None
            } else {
                Some(
                    (
                        tool,
                        evidence_int(ins.evidence, "total"@),
                        evidence_int(ins.evidence, "errors"@),
                        evidence_int(ins.evidence, "rate"@),
                        ins.observation@,
                    ),
                )
            },
            None => None,
        },
        None => None,
    }
}

pub open spec fn gates(insights: Seq<PatternInsight>, allow: Seq<Seq<char>>) -> Seq<GateView>
    decreases insights.len(),
{
    if insights.len() == 0 {
        Seq::empty()
    } else {
        let p = gates(insights.drop_last(), allow);
        match gate_for(insights.last(), allow) {
            Some(g) => p.push(g),
            None => p,
        }
    }
}

fn evidence_int_exec(ev: &Json, key: &str) -> (r: i64)
    ensures
        r == evidence_int(*ev, key@),
{
    match ev.get(key) {
        Some(v) => match v.as_i64() {
            Some(n) => n,
            None => 0,
        },
        None => 0,
    }
}

/// Proposals to gate the flaky tools that are currently auto-allowed, in
/// the order of the insights.
pub fn tool_gate_proposals(insights: &[PatternInsight], allow: &[String]) -> (r: Vec<
    ToolGateProposal,
>)
    ensures
        gate_views(r@) == gates(insights@, string_views(allow@)),
{
    let mut allowed: Vec<String> = Vec::new();
    let mut a: usize = 0;
    while a < allow.len()
        invariant
            a <= allow@.len(),
            string_views(allowed@) == string_views(allow@).take(a as int),
        decreases allow@.len() - a,
    {
        let ghost before = string_views(allowed@);
        allowed.push(allow[a].clone());
        proof {
            assert(string_views(allowed@) =~= before.push(allow@[a as int]@));
            assert(string_views(allow@).take(a + 1) =~= string_views(allow@).take(a as int).push(
                allow@[a as int]@,
            ));
        }
        a = a + 1;
    }
    assert(string_views(allow@).take(allow@.len() as int) =~= string_views(allow@));
    let ghost al = string_views(allow@);
    let mut out: Vec<ToolGateProposal> = Vec::new();
    let mut i: usize = 0;
    proof {
        assert(insights@.take(0) =~= Seq::<PatternInsight>::empty());
        assert(gate_views(out@) =~= Seq::<GateView>::empty());
    }
    while i < insights.len()
        invariant
            i <= insights@.len(),
            al == string_views(allow@),
            string_views(allowed@) == al,
            gate_views(out@) == gates(insights@.take(i as int), al),
        decreases insights@.len() - i,
    {
        proof {
            assert(insights@.take(i + 1).drop_last() =~= insights@.take(i as int));
            assert(insights@.take(i + 1).last() == insights@[i as int]);
        }
        let ins = &insights[i];
        match ins.evidence.get("tool") {
            Some(v) => match v.as_str() {
                Some(tool) => {
                    let tv = chars_of(tool);
                    let skill = chars_of("skill_");
                    let special = str_eq(tool, "bash") || starts_with_chars(
                        tv.as_slice(),
                        skill.as_slice(),
                    );
                    if !special && contains_string(&allowed, tool) {
                        let p = ToolGateProposal {
                            tool: owned(tool),
                            total: evidence_int_exec(&ins.evidence, "total"),
                            errors: evidence_int_exec(&ins.evidence, "errors"),
                            rate: evidence_int_exec(&ins.evidence, "rate"),
                            observation: ins.observation.clone(),
                        };
                        let ghost before = gate_views(out@);
                        out.push(p);
                        assert(gate_views(out@) =~= before.push(gate_view(p)));
                    }
                },
                None => {},
            },
            None => {},
        }
        i = i + 1;
    }
    proof {
        assert(insights@.take(insights@.len() as int) =~= insights@);
    }
    out
}

// ── Self-improvement proposal ────────────────────────────────────────────

pub open spec fn proposal_header() -> Seq<char> {
    "# CodeFactory 自我改进提案\n\n> 本提案由系统从你的使用数据**只读聚合**生成。它**不修改任何代码、不开 PR、不发布任何版本**——一切改动由你决定并经人工审批。\n\n"@
}

/// One bullet per insight: its suggestion and the note.
pub open spec fn bullets(s: Seq<PatternInsight>, note: Seq<char>) -> Seq<char>
    decreases s.len(),
{
    if s.len() == 0 {
        Seq::empty()
    } else {
        bullets(s.drop_last(), note) + "- "@ + s.last().suggestion@ + "\n  - 可考虑："@ + note + "\n"@
    }
}

/// The first five insights.
pub open spec fn top5(s: Seq<PatternInsight>) -> Seq<PatternInsight> {
    if s.len() <= 5 {
        s
    } else {
        s.take(5)
    }
}

pub open spec fn tool_note() -> Seq<char> {
    "在该工具实现里加前置检查 / 更稳的错误处理。"@
}

pub open spec fn retry_note() -> Seq<char> {
    "为这个失败加一道前置检查或固定解法。"@
}

pub open spec fn section(title: Seq<char>, s: Seq<PatternInsight>, note: Seq<char>) -> Seq<char> {
    if s.len() == 0 {
        Seq::empty()
    } else {
        title + bullets(top5(s), note) + "\n"@
    }
}

/// The markdown proposal: a header stating that nothing is changed, then
/// the tool and retry friction (at most five of each) and a footer; or a
/// note that no friction was found.
pub open spec fn improvement_proposal_spec(
    tools: Seq<PatternInsight>,
    retries: Seq<PatternInsight>,
) -> Seq<char> {
    if tools.len() == 0 && retries.len() == 0 {
        proposal_header() + "暂未发现明显的反复摩擦点。继续用着，数据多了再来看。\n"@
    } else {
        proposal_header() + section("## 工具可靠性\n"@, tools, tool_note()) + section(
            "## 反复重试的失败\n"@,
            retries,
            retry_note(),
        ) + "---\n采纳方式：你（或在你审批下的 agent）据此开分支实现、verify、提 PR——系统不会自己动手。\n"@
    }
}

fn push_section(md: &mut String, title: &str, s: &[PatternInsight], note: &str)
    ensures
        final(md)@ == old(md)@ + section(title@, s@, note@),
{
    if s.len() == 0 {
        assert(old(md)@ + Seq::<char>::empty() =~= old(md)@);
        return;
    }
    let ghost start = md@;
    push_str(md, title);
    let n: usize = if s.len() <= 5 {
        s.len()
    } else {
        5
    };
    let ghost top = top5(s@);
    proof {
        assert(top.len() == n);
    }
    let mut i: usize = 0;
    proof {
        assert(top.take(0) =~= Seq::<PatternInsight>::empty());
    }
    while i < n
        invariant
            i <= n,
            n <= s@.len(),
            top == top5(s@),
            top.len() == n,
            md@ == start + title@ + bullets(top.take(i as int), note@),
        decreases n - i,
    {
        proof {
            assert(top.take(i + 1).drop_last() =~= top.take(i as int));
            assert(top.take(i + 1).last() == s@[i as int]);
        }
        push_str(md, "- ");
        push_str(md, s[i].suggestion.as_str());
        push_str(md, "\n  - 可考虑：");
        push_str(md, note);
        push_str(md, "\n");
        i = i + 1;
    }
    assert(top.take(n as int) =~= top);
    push_str(md, "\n");
}

/// Renders the read-only self-improvement proposal.
pub fn build_improvement_proposal(
    tool_insights: &[PatternInsight],
    retry_insights: &[PatternInsight],
) -> (r: String)
    ensures
        r@ == improvement_proposal_spec(tool_insights@, retry_insights@),
{
    let mut md = owned(
        "# CodeFactory 自我改进提案\n\n> 本提案由系统从你的使用数据**只读聚合**生成。它**不修改任何代码、不开 PR、不发布任何版本**——一切改动由你决定并经人工审批。\n\n",
    );
    if tool_insights.len() == 0 && retry_insights.len() == 0 {
        push_str(&mut md, "暂未发现明显的反复摩擦点。继续用着，数据多了再来看。\n");
        return md;
    }
    push_section(
        &mut md,
        "## 工具可靠性\n",
        tool_insights,
        "在该工具实现里加前置检查 / 更稳的错误处理。",
    );
    push_section(&mut md, "## 反复重试的失败\n", retry_insights, "为这个失败加一道前置检查或固定解法。");
    push_str(
        &mut md,
        "---\n采纳方式：你（或在你审批下的 agent）据此开分支实现、verify、提 PR——系统不会自己动手。\n",
    );
    md
}

} // verus!
