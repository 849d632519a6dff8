use codefactory::chat_progress::DurationSampleSummary;
use codefactory::phases::{PlanObservation, PlanStep};
use codefactory::timing::{
    build_test_samples, external_job_samples, turn_timing_profile, BashObservation,
    ExternalJobObservation,
};

fn bash(command: &str, duration_ms: i64) -> BashObservation {
    BashObservation { arguments: format!("{{\"command\":\"{}\"}}", command), duration_ms }
}

fn plan(status: &str, created_at: i64) -> PlanObservation {
    PlanObservation {
        root_turn_id: "root".to_string(),
        steps: Some(vec![PlanStep {
            id: "verify".to_string(),
            kind: "verification".to_string(),
            status: status.to_string(),
        }]),
        created_at,
    }
}

#[test]
fn build_history_keeps_build_and_test_commands_only() {
    let rows = vec![
        bash("pnpm build", 100),
        bash("pnpm test", 200),
        bash("pnpm lint", 300),
        bash("echo latest", 500),
    ];
    let mut samples = build_test_samples(&rows);
    samples.sort_unstable();
    assert_eq!(samples, vec![100, 200]);
}

#[test]
fn build_history_is_capped_at_two_hundred_samples() {
    let rows: Vec<BashObservation> = (1..=250).map(|i| bash("cargo test", i)).collect();
    let samples = build_test_samples(&rows);
    assert_eq!(samples.len(), 200);
    assert_eq!(samples[0], 1);
    assert_eq!(samples[199], 200);
}

#[test]
fn unparsable_bash_arguments_are_not_build_samples() {
    let rows = vec![BashObservation { arguments: "not json".to_string(), duration_ms: 10 }];
    assert!(build_test_samples(&rows).is_empty());
}

#[test]
fn external_jobs_with_bad_or_reversed_timestamps_are_skipped() {
    let rows = vec![
        ExternalJobObservation {
            started_at: "2024-01-01T00:00:00+00:00".to_string(),
            completed_at: "2024-01-01T00:00:02+00:00".to_string(),
        },
        ExternalJobObservation {
            started_at: "invalid".to_string(),
            completed_at: "2024-01-01T00:00:02+00:00".to_string(),
        },
        ExternalJobObservation {
            started_at: "2024-01-01T00:00:05+00:00".to_string(),
            completed_at: "2024-01-01T00:00:02+00:00".to_string(),
        },
    ];
    assert_eq!(external_job_samples(&rows), vec![2_000]);
}

#[test]
fn timing_profile_summarises_each_source() {
    let profile = turn_timing_profile(
        vec![plan("completed", 1_200), plan("in_progress", 200)],
        &vec![bash("pnpm build", 100), bash("pnpm test", 300)],
        &Vec::new(),
    );
    assert_eq!(profile.phases.len(), 1);
    assert_eq!(profile.phases[0].0, "verification");
    assert_eq!(
        profile.phases[0].1,
        DurationSampleSummary { sample_count: 1, p25_ms: 1_000, p75_ms: 1_000 }
    );
    assert_eq!(
        profile.build,
        Some(DurationSampleSummary { sample_count: 2, p25_ms: 100, p75_ms: 300 })
    );
    assert_eq!(profile.external_job, None);
}
