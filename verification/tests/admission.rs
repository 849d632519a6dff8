use codefactory::admission::{
    aborted_setup_identity, aborted_setup_route, error_settlement, failure_signature,
    resume_admission, resume_binding_admission, resume_mode, settlement_failure_route, FailureRoute,
    ResumeStart, chat_root_admission, chat_run_admission, continuation_driver, continuation_link_admission,
    continuation_setup, resolve_continuation, root_turn_identity, segment_title,
    turn_binding_admission, ContinuationResolution,
};

use codefactory::objective::{
    AgentMode, ObjectiveKind, ObjectiveSnapshot, ObjectiveStatus, RecoveryDomain, TurnCapability,
};

fn objective(status: ObjectiveStatus, revision: i64) -> ObjectiveSnapshot {
    let mut o = ObjectiveSnapshot::new("obj-1", ObjectiveKind::LocalMutation, RecoveryDomain::Chat, "validated_change");
    o.status = status;
    o.revision = revision;
    o.session_id = Some("s1".into());
    o.root_turn_id = Some("root-1".into());
    o
}

fn message(r: Result<impl std::fmt::Debug, codefactory::errors::AppError>) -> String {
    r.unwrap_err().to_message()
}

#[test]
fn a_busy_or_restarting_session_is_refused() {
    assert!(chat_run_admission(false, false).is_ok());
    assert_eq!(message(chat_run_admission(true, false)), "CHAT_RUN_BUSY");
    assert_eq!(
        message(chat_run_admission(true, true)),
        "应用更新已进入安全重启阶段，请等待自动恢复工作区"
    );
}

#[test]
fn root_admission_accepts_exact_retries_only() {
    assert_eq!(message(chat_root_admission("  \n", 1, "s1", None)), "chat input cannot be empty");
    assert_eq!(message(chat_root_admission("hi", 0, "s1", None)), "chat session identity is missing");
    assert_eq!(chat_root_admission("hi", 1, "s1", None).unwrap(), true);
    let same = Some(("s1".to_string(), "user".to_string(), "hi".to_string()));
    assert_eq!(chat_root_admission("hi", 1, "s1", same).unwrap(), false);
    for other in [("s2", "user", "hi"), ("s1", "assistant", "hi"), ("s1", "user", "hello")] {
        let row = Some((other.0.to_string(), other.1.to_string(), other.2.to_string()));
        assert_eq!(
            message(chat_root_admission("hi", 1, "s1", row)),
            "chat root message identity/content mismatch"
        );
    }
}

#[test]
fn root_turn_identity_falls_back_on_blank_requests() {
    assert_eq!(root_turn_identity(Some("turn-1"), "fresh".to_string()), "turn-1");
    assert_eq!(root_turn_identity(Some("  "), "fresh".to_string()), "fresh");
    assert_eq!(root_turn_identity(None, "fresh".to_string()), "fresh");
}

#[test]
fn segment_titles_are_bounded_and_never_blank() {
    assert_eq!(segment_title("fix the build"), "fix the build");
    assert_eq!(segment_title("   "), "新任务");
    let long = "x".repeat(70);
    assert_eq!(segment_title(&long), "x".repeat(60));
}

#[test]
fn a_turn_bound_elsewhere_is_refused() {
    assert_eq!(turn_binding_admission(None, "s1").unwrap(), true);
    assert_eq!(turn_binding_admission(Some("s1"), "s1").unwrap(), false);
    assert_eq!(
        message(turn_binding_admission(Some("s2"), "s1")),
        "chat root turn is already bound to another session"
    );
}

#[test]
fn continuation_resolution_never_guesses() {
    let row = |id: &str, status: &str| {
        (id.to_string(), status.to_string(), format!("root-{id}"), format!("seg-{id}"))
    };
    assert!(matches!(
        resolve_continuation(Some(Some("obj".into())), vec![row("a", "active"), row("b", "active")], None),
        ContinuationResolution::AlreadyBound { objective_id } if objective_id == "obj"
    ));
    assert!(matches!(
        resolve_continuation(Some(Some(String::new())), vec![row("a", "x"), row("b", "y")], None),
        ContinuationResolution::Ambiguous
    ));
    assert!(matches!(resolve_continuation(None, vec![], None), ContinuationResolution::Unfound));
    match resolve_continuation(Some(None), vec![row("a", "waiting_system")], Some("waiting".into())) {
        ContinuationResolution::Unique { objective_id, continuation_root_turn_id, previous_segment_id, driver } => {
            assert_eq!(objective_id, "a");
            assert_eq!(continuation_root_turn_id, "root-a");
            assert_eq!(previous_segment_id, "seg-a");
            assert_eq!(driver, "recoverable_waiting_open");
        }
        other => panic!("unexpected {other:?}"),
    }
}

#[test]
fn continuation_drivers_follow_objective_and_delivery_status() {
    assert_eq!(
        continuation_driver("waiting_system", Some("awaiting_completion_arbitration")),
        "completion_arbitration_open"
    );
    assert_eq!(continuation_driver("waiting_system", None), "system_owned_remediation_open");
    assert_eq!(continuation_driver("waiting_core_input", Some("waiting")), "core_input_response");
    assert_eq!(continuation_driver("waiting_authorization", None), "authorization_response");
    assert_eq!(continuation_driver("waiting_business_decision", None), "business_decision_response");
    assert_eq!(continuation_driver("active", None), "authorized_objective_still_open");
}

#[test]
fn continuation_setup_refuses_ambiguity_and_uses_legacy_segments() {
    assert_eq!(
        message(continuation_setup(ContinuationResolution::Ambiguous, None)),
        "CHAT_OBJECTIVE_IDENTITY_AMBIGUOUS: system reconciliation required"
    );
    let s = continuation_setup(
        ContinuationResolution::Unfound,
        Some(("seg-0".to_string(), "root-0".to_string())),
    )
    .unwrap();
    assert_eq!(s.continuation_root_turn_id.as_deref(), Some("root-0"));
    assert_eq!(s.previous_segment_id.as_deref(), Some("seg-0"));
    assert!(s.expected_objective_id.is_none());
    let b = continuation_setup(ContinuationResolution::AlreadyBound { objective_id: "o".into() }, None)
        .unwrap();
    assert_eq!(b.expected_objective_id.as_deref(), Some("o"));
    assert!(b.continuation_root_turn_id.is_none());
}

#[test]
fn continuation_links_must_match_the_admitted_objective() {
    assert!(continuation_link_admission(Some("o"), "o", Some("seg-0"), "seg-1").is_ok());
    assert_eq!(
        message(continuation_link_admission(Some("o"), "p", None, "seg-1")),
        "opaque Objective identity changed during admission"
    );
    assert_eq!(
        message(continuation_link_admission(None, "p", Some("seg-1"), "seg-1")),
        "chat continuation refused a self-referential segment"
    );
}

#[test]
fn run_errors_settle_by_revision_and_cause() {
    let done = objective(ObjectiveStatus::Completed, 3);
    assert!(matches!(error_settlement(&done, 1, false, "boom").unwrap(), FailureRoute::ProjectAsIs));
    let active = objective(ObjectiveStatus::Active, 3);
    assert_eq!(
        message(error_settlement(&active, 2, false, "boom")),
        "stale chat runner revision: expected 2, actual 3"
    );
    match error_settlement(&active, 3, true, "boom").unwrap() {
        FailureRoute::AuthorizationRequired { request_key, action_signature } => {
            assert_eq!(request_key, "chatgpt-auth:obj-1");
            assert_eq!(action_signature, "oauth:chatgpt:resume:obj-1");
        }
        other => panic!("unexpected {other:?}"),
    }
    match error_settlement(&active, 3, false, "boom").unwrap() {
        FailureRoute::TechnicalFailure { failure_code, failure_signature: sig } => {
            assert_eq!(failure_code, "agent_loop_error");
            assert_eq!(sig, failure_signature("boom"));
            assert_eq!(sig.len(), "sha256:".len() + 64);
            assert!(sig.starts_with("sha256:"));
        }
        other => panic!("unexpected {other:?}"),
    }
}

#[test]
fn settlement_failures_only_move_the_exact_active_revision() {
    let active = objective(ObjectiveStatus::Active, 4);
    assert!(matches!(
        settlement_failure_route(&active, 4, "db down"),
        FailureRoute::TechnicalFailure { ref failure_code, .. } if failure_code == "chat_settlement_failed"
    ));
    assert!(matches!(settlement_failure_route(&active, 3, "db down"), FailureRoute::ProjectAsIs));
    let waiting = objective(ObjectiveStatus::WaitingSystem, 4);
    assert!(matches!(settlement_failure_route(&waiting, 4, "db down"), FailureRoute::ProjectAsIs));
}

#[test]
fn aborted_setups_recover_only_their_own_admitted_objective() {
    assert!(aborted_setup_identity(None, None, None).unwrap().is_none());
    assert!(aborted_setup_identity(Some("r".into()), None, None).unwrap().is_none());
    assert_eq!(
        aborted_setup_identity(Some("r".into()), Some("o".into()), Some(2)).unwrap(),
        Some(("r".to_string(), "o".to_string(), 2))
    );
    assert_eq!(
        message(aborted_setup_identity(None, Some("o".into()), None)),
        "aborted chat setup has an incomplete Objective/root/revision identity"
    );
    let active = objective(ObjectiveStatus::Active, 2);
    match aborted_setup_route(&active, "s1", "root-1", 2, "run-9").unwrap() {
        FailureRoute::TechnicalFailure { failure_code, failure_signature: sig } => {
            assert_eq!(failure_code, "chat_setup_aborted");
            assert_eq!(sig, failure_signature("chat_setup_aborted:run-9"));
        }
        other => panic!("unexpected {other:?}"),
    }
    assert!(matches!(aborted_setup_route(&active, "s1", "root-1", 1, "run-9").unwrap(), FailureRoute::ProjectAsIs));
    assert_eq!(
        message(aborted_setup_route(&active, "s2", "root-1", 2, "run-9")),
        "aborted chat setup durable identity mismatch"
    );
}

#[test]
fn resume_checks_identity_and_maps_kind_to_mode() {
    let active = objective(ObjectiveStatus::Active, 1);
    assert!(matches!(resume_admission(&active, "obj-1").unwrap(), ResumeStart::NotWaiting));
    let mut waiting = objective(ObjectiveStatus::WaitingSystem, 1);
    assert_eq!(message(resume_admission(&waiting, "other")), "chat recovery mutation permit objective mismatch");
    waiting.resume_cursor = Some("root-2".into());
    match resume_admission(&waiting, "obj-1").unwrap() {
        ResumeStart::Resume { session_id, root_turn_id } => {
            assert_eq!(session_id, "s1");
            assert_eq!(root_turn_id, "root-2");
        }
        other => panic!("unexpected {other:?}"),
    }
    waiting.resume_cursor = None;
    waiting.root_turn_id = None;
    assert_eq!(message(resume_admission(&waiting, "obj-1")), "chat objective has no active resume cursor");
    waiting.session_id = None;
    assert_eq!(message(resume_admission(&waiting, "obj-1")), "chat objective has no session identity");
    assert!(resume_binding_admission(Some("obj-1"), "obj-1").is_ok());
    assert_eq!(
        message(resume_binding_admission(None, "obj-1")),
        "chat objective resume cursor is not bound to the claimed Objective"
    );
    assert_eq!(resume_mode(ObjectiveKind::Informational).unwrap(), (AgentMode::Interactive, TurnCapability::ReviewOnly));
    assert_eq!(resume_mode(ObjectiveKind::LocalMutation).unwrap(), (AgentMode::Execute, TurnCapability::Implement));
    assert_eq!(resume_mode(ObjectiveKind::Live).unwrap(), (AgentMode::Execute, TurnCapability::Deliver));
    assert_eq!(
        message(resume_mode(ObjectiveKind::LegacyOrphan)),
        "legacy objective requires identity reconciliation before resume"
    );
}
