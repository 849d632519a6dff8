//! A project's turn timing profile, assembled from its recorded plan
//! events, bash calls and external jobs.
use vstd::prelude::*;
use crate::chat_progress::{
    external_job_duration, is_build_or_test_command, job_duration_spec, json_command_field,
    names_build_or_test, summarize, summary_spec, DurationSampleSummary,
};
use crate::phases::{
    pairs_map, phase_samples_spec, phase_summaries, row_views, summaries_map, summaries_view,
    unique_keys, PlanObservation,
};
use crate::requests::TurnTimingProfile;

verus! {

broadcast use vstd::string::group_string_axioms;

/// Most build and test samples that enter the profile.
pub const BUILD_SAMPLE_LIMIT: usize = 200;

/// A finished bash call: its JSON arguments and how long it ran.
#[derive(Debug)]
pub struct BashObservation {
    pub arguments: String,
    pub duration_ms: i64,
}

/// A completed external job's start and completion timestamps.
#[derive(Debug)]
pub struct ExternalJobObservation {
    pub started_at: String,
    pub completed_at: String,
}

/// The call ran a build or test command.
pub open spec fn is_build_row(b: BashObservation) -> bool {
    names_build_or_test(
        match json_command_field(b.arguments@) {
            Some(c) => c,
            None => Seq::<char>::empty(),
        },
    )
}

/// Durations of the build and test calls, in the order given.
pub open spec fn build_durations(rows: Seq<BashObservation>) -> Seq<i64>
    decreases rows.len(),
{
    if rows.len() == 0 {
        Seq::empty()
    } else if is_build_row(rows.last()) {
        build_durations(rows.drop_last()).push(rows.last().duration_ms)
    } else {
        build_durations(rows.drop_last())
    }
}

/// The first `BUILD_SAMPLE_LIMIT` build and test durations.
pub open spec fn build_samples_spec(rows: Seq<BashObservation>) -> Seq<i64> {
    let d = build_durations(rows);
    if d.len() <= BUILD_SAMPLE_LIMIT {
        d
    } else {
        d.take(BUILD_SAMPLE_LIMIT as int)
    }
}

/// Durations of the jobs whose duration can be measured, in the order given.
pub open spec fn job_samples_spec(rows: Seq<ExternalJobObservation>) -> Seq<i64>
    decreases rows.len(),
{
    if rows.len() == 0 {
        Seq::empty()
    } else {
        let rest = job_samples_spec(rows.drop_last());
        match job_duration_spec(rows.last().started_at@, rows.last().completed_at@) {
            Some(d) => rest.push(d as i64),
            None => rest,
        }
    }
}

proof fn lemma_build_durations_prefix(rows: Seq<BashObservation>, i: int)
    requires
        0 <= i <= rows.len(),
    ensures
        build_durations(rows.take(i)).len() <= build_durations(rows).len(),
        build_durations(rows.take(i)) == build_durations(rows).take(
            build_durations(rows.take(i)).len() as int,
        ),
    decreases rows.len(),
{
    if i == rows.len() {
        assert(rows.take(i) =~= rows);
        assert(build_durations(rows).take(build_durations(rows).len() as int) =~= build_durations(
            rows,
        ));
    } else {
        let d = rows.drop_last();
        assert(rows.take(i) =~= d.take(i));
        lemma_build_durations_prefix(d, i);
        let p = build_durations(d.take(i));
        let bd = build_durations(d);
        if is_build_row(rows.last()) {
            assert(build_durations(rows).take(p.len() as int) =~= bd.take(p.len() as int));
        }
    }
}

/// The durations of the build and test calls among `rows`, the first
/// `BUILD_SAMPLE_LIMIT` of them.
pub fn build_test_samples(rows: &Vec<BashObservation>) -> (r: Vec<i64>)
    ensures
        r@ == build_samples_spec(rows@),
{
    let n = rows.len();
    let mut out: Vec<i64> = Vec::new();
    let mut i: usize = 0;
    proof {
        assert(rows@.take(0) =~= Seq::<BashObservation>::empty());
    }
    while i < n && out.len() < BUILD_SAMPLE_LIMIT
        invariant
            n == rows@.len(),
            i <= n,
            out@ == build_durations(rows@.take(i as int)),
            out@.len() <= BUILD_SAMPLE_LIMIT,
        decreases n - i,
    {
        let row = &rows[i];
        proof {
            assert(rows@.take(i + 1).drop_last() =~= rows@.take(i as int));
            assert(rows@.take(i + 1).last() == rows@[i as int]);
        }
        if is_build_or_test_command(row.arguments.as_str()) {
            out.push(row.duration_ms);
        }
        i = i + 1;
    }
    proof {
        lemma_build_durations_prefix(rows@, i as int);
        if i == n {
            assert(rows@.take(n as int) =~= rows@);
        }
    }
    out
}

/// The measurable durations of `rows`, in order.
pub fn external_job_samples(rows: &Vec<ExternalJobObservation>) -> (r: Vec<i64>)
    ensures
        r@ == job_samples_spec(rows@),
{
    let n = rows.len();
    let mut out: Vec<i64> = Vec::new();
    let mut i: usize = 0;
    proof {
        assert(rows@.take(0) =~= Seq::<ExternalJobObservation>::empty());
    }
    while i < n
        invariant
            n == rows@.len(),
            i <= n,
            out@ == job_samples_spec(rows@.take(i as int)),
        decreases n - i,
    {
        let row = &rows[i];
        proof {
            assert(rows@.take(i + 1).drop_last() =~= rows@.take(i as int));
            assert(rows@.take(i + 1).last() == rows@[i as int]);
        }
        match external_job_duration(row.started_at.as_str(), row.completed_at.as_str()) {
            Some(d) => out.push(d),
            None => {},
        }
        i = i + 1;
    }
    proof {
        assert(rows@.take(n as int) =~= rows@);
    }
    out
}

/// The timing profile: a summary per plan step kind, one of the recent
/// build and test calls and one of the external jobs.
pub fn turn_timing_profile(
    plan_rows: Vec<PlanObservation>,
    bash_rows: &Vec<BashObservation>,
    job_rows: &Vec<ExternalJobObservation>,
) -> (r: TurnTimingProfile)
    ensures
        unique_keys(summaries_view(r.phases@)),
        pairs_map(summaries_view(r.phases@)) == summaries_map(
            phase_samples_spec(row_views(plan_rows@)),
        ),
        r.build == summary_spec(build_samples_spec(bash_rows@)),
        r.external_job == summary_spec(job_samples_spec(job_rows@)),
{
    let phases = phase_summaries(plan_rows);
    let build = summarize(build_test_samples(bash_rows));
    let external_job = summarize(external_job_samples(job_rows));
    TurnTimingProfile { phases, build, external_job }
}

} // verus!
