//! The details that learning and evolution jobs record with their events:
//! only allowlisted top-level scalar entries survive, text is redacted and
//! bounded, and every detail carries a schema version.
use vstd::prelude::*;
use crate::json::{json_get, Json};
use crate::redact::{redact_spec, redact_text};
use crate::text::{owned, str_eq};

verus! {

broadcast use vstd::string::group_string_axioms;

/// Longest text value kept in a detail.
pub const DETAIL_TEXT_LIMIT: usize = 160;

/// A scalar JSON value by its contents.
pub enum DetailScalar {
    Null,
    Bool(bool),
    Int(i64),
    UInt(u64),
    Decimal(Seq<char>),
    Text(Seq<char>),
}

/// The contents of a scalar value; `None` for arrays and objects.
pub open spec fn scalar_view(j: Json) -> Option<DetailScalar> {
    match j {
        Json::Null => Some(DetailScalar::Null),
        Json::Bool(b) => Some(DetailScalar::Bool(b)),
        Json::Int(n) => Some(DetailScalar::Int(n)),
        Json::UInt(n) => Some(DetailScalar::UInt(n)),
        Json::Decimal(t) => Some(DetailScalar::Decimal(t@)),
        Json::Str(s) => Some(DetailScalar::Text(s@)),
        _ => None,
    }
}

/// What a detail keeps of the entry `key`: scalars, with text redacted and
/// bounded; nothing for a missing, array or object entry.
pub open spec fn kept_value(detail: Json, key: Seq<char>) -> Option<DetailScalar> {
    match json_get(detail, key) {
        Some(v) => match scalar_view(v) {
            Some(DetailScalar::Text(t)) => Some(
                DetailScalar::Text(redact_spec(t, DETAIL_TEXT_LIMIT as nat)),
            ),
            other => other,
        },
        None => None,
    }
}

/// The kept entries, in the order of `keys`.
pub open spec fn kept_entries(detail: Json, keys: Seq<Seq<char>>) -> Seq<(Seq<char>, DetailScalar)>
    decreases keys.len(),
{
    if keys.len() == 0 {
        Seq::empty()
    } else {
        let rest = kept_entries(detail, keys.drop_last());
        match kept_value(detail, keys.last()) {
            Some(v) => rest.push((keys.last(), v)),
            None => rest,
        }
    }
}

/// The kept entries, with `schema_version: 1` added when none was kept.
pub open spec fn bounded_detail_spec(detail: Json, keys: Seq<Seq<char>>) -> Seq<
    (Seq<char>, DetailScalar),
> {
    let e = kept_entries(detail, keys);
    if exists|i: int| 0 <= i < e.len() && e[i].0 == "schema_version"@ {
        e
    } else {
        e.push(("schema_version"@, DetailScalar::Int(1)))
    }
}

/// `j` is an object whose entries, in order, are `entries`.
pub open spec fn object_holds(j: Json, entries: Seq<(Seq<char>, DetailScalar)>) -> bool {
    match j {
        Json::Object(f) => f@.len() == entries.len() && forall|i: int|
            0 <= i < entries.len() ==> (#[trigger] f@[i]).0@ == entries[i].0 && scalar_view(f@[i].1)
                == Some(entries[i].1),
        _ => false,
    }
}

pub open spec fn key_views(keys: Seq<&str>) -> Seq<Seq<char>> {
    keys.map_values(|k: &str| k@)
}

fn kept(v: &Json) -> (r: Option<Json>)
    ensures
        match scalar_view(*v) {
            Some(DetailScalar::Text(t)) => r matches Some(j) && scalar_view(j) == Some(
                DetailScalar::Text(redact_spec(t, DETAIL_TEXT_LIMIT as nat)),
            ),
            Some(s) => r matches Some(j) && scalar_view(j) == Some(s),
            None => r is None,
        },
{
    match v {
        Json::Null => Some(Json::Null),
        Json::Bool(b) => Some(Json::Bool(*b)),
        Json::Int(n) => Some(Json::Int(*n)),
        Json::UInt(n) => Some(Json::UInt(*n)),
        Json::Decimal(t) => Some(Json::Decimal(t.clone())),
        Json::Str(s) => Some(Json::Str(redact_text(s.as_str(), DETAIL_TEXT_LIMIT))),
        _ => None,
    }
}

/// The detail reduced to the entries named in `keys`.
pub fn bounded_detail(detail: &Json, keys: &Vec<&str>) -> (r: Json)
    ensures
        object_holds(r, bounded_detail_spec(*detail, key_views(keys@))),
{
    let ghost kv = key_views(keys@);
    let mut out: Vec<(String, Json)> = Vec::new();
    let ghost mut spec_out: Seq<(Seq<char>, DetailScalar)> = Seq::empty();
    let mut has_version = false;
    let n = keys.len();
    let mut i: usize = 0;
    proof {
        assert(kv.take(0) =~= Seq::<Seq<char>>::empty());
    }
    while i < n
        invariant
            n == keys@.len(),
            kv == key_views(keys@),
            i <= n,
            spec_out == kept_entries(*detail, kv.take(i as int)),
            object_holds(Json::Object(out), spec_out),
            has_version <==> exists|j: int|
                0 <= j < spec_out.len() && spec_out[j].0 == "schema_version"@,
        decreases n - i,
    {
        let key = keys[i];
        proof {
            assert(kv.take(i + 1).drop_last() =~= kv.take(i as int));
            assert(kv.take(i + 1).last() == key@);
        }
        match detail.get(key) {
            Some(v) => match kept(v) {
                Some(j) => {
                    let ghost prev = spec_out;
                    proof {
                        spec_out = prev.push((key@, kept_value(*detail, key@)->0));
                    }
                    let is_version = str_eq(key, "schema_version");
                    if is_version {
                        has_version = true;
                    }
                    out.push((owned(key), j));
                    proof {
                        assert(spec_out.drop_last() =~= prev);
                        assert forall|k: int| 0 <= k < spec_out.len() implies (#[trigger] out@[k]).0@
                            == spec_out[k].0 && scalar_view(out@[k].1) == Some(spec_out[k].1) by {
                            if k < spec_out.len() - 1 {
                                assert(out@[k] == out@.drop_last()[k]);
                                assert(spec_out[k] == prev[k]);
                            }
                        }
                        if has_version {
                            if is_version {
                                assert(spec_out[spec_out.len() - 1].0 == "schema_version"@);
                            } else {
                                let w = choose|j: int|
                                    0 <= j < prev.len() && prev[j].0 == "schema_version"@;
                                assert(spec_out[w] == prev[w]);
                            }
                        } else {
                            assert forall|j: int| 0 <= j < spec_out.len() implies spec_out[j].0
                                != "schema_version"@ by {
                                if j < spec_out.len() - 1 {
                                    assert(spec_out[j] == prev[j]);
                                }
                            }
                        }
                    }
                },
                None => {},
            },
            None => {},
        }
        i = i + 1;
    }
    proof {
        assert(kv.take(n as int) =~= kv);
    }
    if !has_version {
        out.push((owned("schema_version"), Json::Int(1)));
        proof {
            let full = spec_out.push(("schema_version"@, DetailScalar::Int(1)));
            assert forall|k: int| 0 <= k < full.len() implies (#[trigger] out@[k]).0@ == full[k].0
                && scalar_view(out@[k].1) == Some(full[k].1) by {
                if k < full.len() - 1 {
                    assert(out@[k] == out@.drop_last()[k]);
                }
            }
        }
    }
    Json::Object(out)
}

/// Entries a learning job's event detail may keep.
pub open spec fn job_detail_keys() -> Seq<Seq<char>> {
    seq![
        "schema_version"@,
        "session_count"@,
        "trace_count"@,
        "tool_call_count"@,
        "task_run_count"@,
        "decision_count"@,
        "candidate_count"@,
        "extracted_count"@,
        "duplicate_count"@,
        "pending_count"@,
        "support_count"@,
        "status"@,
        "terminal_status"@,
        "candidate_status"@,
        "candidate_kind"@,
        "decision"@,
        "target"@,
        "trigger"@,
        "reason"@,
        "error"@,
        "aggregate_only"@,
        "redactor"@,
        "reasoning_included"@,
        "raw_prompt_included"@,
        "already_present"@,
        "candidate_marker_present"@,
        "value_persisted"@,
        "materialization_started"@,
    ]
}

/// Entries an evolution job's event detail may keep.
pub open spec fn evolution_detail_keys() -> Seq<Seq<char>> {
    seq![
        "schema_version"@,
        "candidate_id"@,
        "revision"@,
        "run_id"@,
        "manifest_hash"@,
        "required_count"@,
        "passed_count"@,
        "failed_count"@,
        "verdict"@,
        "auto_activate"@,
        "activation_id"@,
        "target"@,
        "reason"@,
        "before_hash"@,
        "after_hash"@,
    ]
}

/// The detail recorded with a learning job event.
pub fn redacted_job_detail(detail: &Json) -> (r: Json)
    ensures
        object_holds(r, bounded_detail_spec(*detail, job_detail_keys())),
{
    let keys: Vec<&str> = vec![
        "schema_version",
        "session_count",
        "trace_count",
        "tool_call_count",
        "task_run_count",
        "decision_count",
        "candidate_count",
        "extracted_count",
        "duplicate_count",
        "pending_count",
        "support_count",
        "status",
        "terminal_status",
        "candidate_status",
        "candidate_kind",
        "decision",
        "target",
        "trigger",
        "reason",
        "error",
        "aggregate_only",
        "redactor",
        "reasoning_included",
        "raw_prompt_included",
        "already_present",
        "candidate_marker_present",
        "value_persisted",
        "materialization_started",
    ];
    proof {
        assert(key_views(keys@) =~= job_detail_keys());
    }
    bounded_detail(detail, &keys)
}

/// The detail recorded with an evolution job event.
pub fn safe_detail(detail: &Json) -> (r: Json)
    ensures
        object_holds(r, bounded_detail_spec(*detail, evolution_detail_keys())),
{
    let keys: Vec<&str> = vec![
        "schema_version",
        "candidate_id",
        "revision",
        "run_id",
        "manifest_hash",
        "required_count",
        "passed_count",
        "failed_count",
        "verdict",
        "auto_activate",
        "activation_id",
        "target",
        "reason",
        "before_hash",
        "after_hash",
    ];
    proof {
        assert(key_views(keys@) =~= evolution_detail_keys());
    }
    bounded_detail(detail, &keys)
}

} // verus!
