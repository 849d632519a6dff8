use codefactory::phases::{phase_samples, PlanObservation, PlanStep};

fn steps(status: &str) -> Option<Vec<PlanStep>> {
    Some(vec![PlanStep {
        id: "verify".to_string(),
        kind: "verification".to_string(),
        status: status.to_string(),
    }])
}

fn row(status: &str, created_at: i64) -> PlanObservation {
    PlanObservation { root_turn_id: "root".to_string(), steps: steps(status), created_at }
}

fn samples_for<'a>(samples: &'a [(String, Vec<i64>)], kind: &str) -> Option<&'a Vec<i64>> {
    samples.iter().find(|(k, _)| k == kind).map(|(_, v)| v)
}

#[test]
fn phase_duration_requires_observed_start_and_completion() {
    let samples = phase_samples(vec![
        row("pending", 100),
        row("in_progress", 200),
        row("completed", 1_200),
    ]);
    assert_eq!(samples_for(&samples, "verification"), Some(&vec![1_000]));
}

#[test]
fn phase_duration_is_stable_when_recent_rows_arrive_newest_first() {
    let samples = phase_samples(vec![row("completed", 1_200), row("in_progress", 200)]);
    assert_eq!(samples_for(&samples, "verification"), Some(&vec![1_000]));
}

#[test]
fn phase_duration_discards_a_reverted_active_interval() {
    let samples = phase_samples(vec![
        row("in_progress", 100),
        row("pending", 200),
        row("in_progress", 1_000),
        row("completed", 1_500),
    ]);
    assert_eq!(samples_for(&samples, "verification"), Some(&vec![500]));
}

#[test]
fn completion_without_observed_start_records_nothing() {
    let samples = phase_samples(vec![row("completed", 1_200)]);
    assert!(samples.is_empty());
}

#[test]
fn unreadable_plan_rows_are_skipped() {
    let samples = phase_samples(vec![
        row("in_progress", 200),
        PlanObservation { root_turn_id: "root".to_string(), steps: None, created_at: 600 },
        row("completed", 1_200),
    ]);
    assert_eq!(samples_for(&samples, "verification"), Some(&vec![1_000]));
}

#[test]
fn a_plan_that_drops_the_step_forgets_its_start() {
    let samples = phase_samples(vec![
        row("in_progress", 200),
        PlanObservation { root_turn_id: "root".to_string(), steps: Some(Vec::new()), created_at: 600 },
        row("completed", 1_200),
    ]);
    assert!(samples.is_empty());
}

#[test]
fn other_turns_keep_their_active_steps() {
    let samples = phase_samples(vec![
        row("in_progress", 200),
        PlanObservation { root_turn_id: "other".to_string(), steps: Some(Vec::new()), created_at: 600 },
        row("completed", 1_200),
    ]);
    assert_eq!(samples_for(&samples, "verification"), Some(&vec![1_000]));
}

#[test]
fn repeated_in_progress_keeps_the_first_start() {
    let samples = phase_samples(vec![
        row("in_progress", 200),
        row("in_progress", 700),
        row("completed", 1_200),
    ]);
    assert_eq!(samples_for(&samples, "verification"), Some(&vec![1_000]));
}

#[test]
fn zero_length_intervals_are_not_recorded() {
    let samples = phase_samples(vec![row("in_progress", 200), row("completed", 200)]);
    assert!(samples.is_empty());
}
