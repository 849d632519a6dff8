use codefactory::evolution::{case_outcomes, CaseChecks};
use codefactory::lifecycle::{
    activation_admission, activation_after_hash, activation_idempotency_key, after_approval_eval,
    pending_event_admission, eval_admission, eval_verdict, next_stage, parse_stage,
    preference_rollback_conflict, rollback_admission, rollback_result, stale_target_error,
    target_freshness,
    accept_materialization, decision_job_admission, decision_job_key, decision_raced_error,
    reject_admission, ActivationStart, AfterApproval, CandidateEvent, Materialization,
    RollbackStart, Stage,
};

fn checks(all: bool) -> CaseChecks {
    CaseChecks {
        frozen: true,
        project_scope: true,
        privacy: all,
        target_allowed: true,
        baseline_isolated: true,
        treatment_projection: true,
        rollback_ready: true,
    }
}

fn run(start: Stage, events: &[CandidateEvent]) -> Option<Stage> {
    let mut s = start;
    for e in events {
        s = next_stage(s, *e)?;
    }
    Some(s)
}

#[test]
fn stages_round_trip_through_their_names() {
    for s in [
        Stage::Approved,
        Stage::EvalFailed,
        Stage::EvalError,
        Stage::EvalStale,
        Stage::PendingActivation,
        Stage::Activating,
        Stage::Active,
        Stage::RolledBack,
        Stage::RollbackConflict,
    ] {
        assert_eq!(parse_stage(s.name()), Some(s));
    }
    assert_eq!(parse_stage("archived"), None);
}

#[test]
fn a_passing_eval_awaits_activation_and_a_failing_one_does_not() {
    let pass = eval_verdict(&case_outcomes(checks(true)));
    assert_eq!((pass.passed_count, pass.failed_count, pass.verdict), (7, 0, "passed"));
    assert_eq!(pass.stage, Stage::PendingActivation);
    let fail = eval_verdict(&case_outcomes(checks(false)));
    assert_eq!((fail.passed_count, fail.failed_count, fail.verdict), (6, 1, "failed"));
    assert_eq!(fail.stage, Stage::EvalFailed);
    assert_eq!(fail.event_status, "failed");
}

#[test]
fn failed_evals_never_reach_activation() {
    assert_eq!(
        run(Stage::Approved, &[CandidateEvent::EvalFailed, CandidateEvent::Activated]),
        None
    );
    let err = activation_admission("c1", "eval_failed", Some("failed"), Some("run")).unwrap_err();
    assert_eq!(err.to_message(), "candidate c1 requires exact passed Eval before activation");
}

#[test]
fn activation_is_idempotent_and_rollback_is_exact() {
    assert!(matches!(
        activation_admission("c1", "pending_activation", Some("passed"), Some("run-1")),
        Ok(ActivationStart::Proceed(r)) if r == "run-1"
    ));
    assert!(matches!(
        activation_admission("c1", "active", None, None),
        Ok(ActivationStart::AlreadyActive)
    ));
    assert_eq!(rollback_admission("a1", "active").unwrap(), RollbackStart::Proceed);
    assert_eq!(rollback_admission("a1", "rolled_back").unwrap(), RollbackStart::AlreadyRolledBack);
    assert_eq!(
        rollback_admission("a1", "rollback_conflict").unwrap_err().to_message(),
        "activation a1 is rollback_conflict"
    );
    assert_eq!(
        run(Stage::Approved, &[CandidateEvent::EvalPassed, CandidateEvent::Activated, CandidateEvent::RolledBack]),
        Some(Stage::RolledBack)
    );
    assert_eq!(next_stage(Stage::RolledBack, CandidateEvent::RolledBack), None);
}

#[test]
fn a_target_change_after_eval_requires_a_fresh_eval() {
    assert_eq!(
        run(Stage::Approved, &[CandidateEvent::EvalPassed, CandidateEvent::TargetChanged]),
        Some(Stage::EvalStale)
    );
    assert_eq!(next_stage(Stage::EvalStale, CandidateEvent::Activated), None);
    assert!(eval_admission("c1", "eval_stale").is_ok());
    assert_eq!(
        eval_admission("c1", "active").unwrap_err().to_message(),
        "candidate c1 cannot run Eval from active"
    );
    assert_eq!(
        stale_target_error().to_message(),
        "target changed after Eval; rerun Evals before activation"
    );
}

#[test]
fn a_changed_preference_is_never_overwritten_by_rollback() {
    let after = activation_after_hash("preference", Some("concise"), "ignored");
    let untouched = Some(("concise".to_string(), Some("a1".to_string())));
    assert!(!preference_rollback_conflict(&untouched, "a1", &after));
    let edited = Some(("verbose".to_string(), Some("a1".to_string())));
    assert!(preference_rollback_conflict(&edited, "a1", &after));
    let other_owner = Some(("concise".to_string(), Some("a2".to_string())));
    assert!(preference_rollback_conflict(&other_owner, "a1", &after));
    assert!(preference_rollback_conflict(&None, "a1", &after));
    let r = rollback_result(true);
    assert_eq!((r.stage, r.job_status, r.reason), (Stage::RollbackConflict, "partial", "target_changed"));
    let r = rollback_result(false);
    assert_eq!((r.stage, r.job_status, r.error), (Stage::RolledBack, "succeeded", None));
}

#[test]
fn approvals_need_a_pending_event_and_activate_only_when_asked() {
    assert!(pending_event_admission("e1", "pending").is_ok());
    assert_eq!(
        pending_event_admission("e1", "accepted").unwrap_err().to_message(),
        "learning event e1 already accepted"
    );
    assert!(matches!(after_approval_eval("pending_activation", true), AfterApproval::Activate));
    assert!(matches!(after_approval_eval("pending_activation", false), AfterApproval::Finish("succeeded")));
    assert!(matches!(after_approval_eval("eval_failed", true), AfterApproval::Finish("partial")));
}

#[test]
fn activation_keys_name_the_exact_revision_and_run() {
    assert_eq!(activation_idempotency_key("c1", 3, "run-9", "abc"), "activate:c1:3:run-9:abc");
    assert_eq!(activation_after_hash("memory", None, "text").len(), 64);
    assert_ne!(
        activation_after_hash("memory", None, "text"),
        activation_after_hash("preference", Some("text2"), "text")
    );
}

#[test]
fn a_running_or_finished_decision_cannot_be_reentered() {
    assert_eq!(decision_job_key("review_accept", "/p", "e1"), "review_accept:/p:e1");
    assert_eq!(decision_job_admission("e1", None).unwrap(), false);
    assert_eq!(decision_job_admission("e1", Some("failed")).unwrap(), true);
    assert_eq!(
        decision_job_admission("e1", Some("running")).unwrap_err().to_message(),
        "decision job for learning event e1 is already running"
    );
    assert_eq!(
        decision_job_admission("e1", Some("queued")).unwrap_err().to_message(),
        "decision job for learning event e1 is already running"
    );
    assert_eq!(
        decision_job_admission("e1", Some("succeeded")).unwrap_err().to_message(),
        "decision job for learning event e1 already succeeded"
    );
}

#[test]
fn rejecting_a_memory_already_written_is_refused() {
    assert!(reject_admission("e1", "memory", false).is_ok());
    assert!(reject_admission("e1", "preference", true).is_ok());
    assert_eq!(
        reject_admission("e1", "memory", true).unwrap_err().to_message(),
        "learning event e1 was already written to project memory; retry accept to reconcile its audit state"
    );
}

#[test]
fn accepted_preferences_need_a_key() {
    assert!(matches!(
        accept_materialization("preference", Some("code_style".to_string()), None),
        Ok(Materialization::Preference(k, v)) if k == "code_style" && v.is_empty()
    ));
    assert_eq!(
        accept_materialization("preference", None, Some("x".to_string())).unwrap_err().to_message(),
        "preference learning event missing pref_key"
    );
    assert!(matches!(accept_materialization("memory", None, None), Ok(Materialization::Memory)));
    assert_eq!(
        decision_raced_error("e1", "rejection").to_message(),
        "learning event e1 changed before rejection could be committed"
    );
}

#[test]
fn activation_refuses_a_changed_target() {
    assert!(target_freshness("fp-1", "fp-1").is_ok());
    assert_eq!(
        target_freshness("fp-1", "fp-2").unwrap_err().to_message(),
        "target changed after Eval; rerun Evals before activation"
    );
}
