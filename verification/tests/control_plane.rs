use codefactory::control_plane::{
    authority_for_project, capability_summaries, command_outcome, delivery_for_project,
    git_probe_from_results, hooks_path_is_configured, record_git_failure, repository_check,
    risks_for, status_for_path, AuthorityPresence, ControlPlaneStatus, DeliveryPresence,
    DeliverySummary, GitCommandFailureKind, GitCommandRun, GitProbeData, GitProbeResults,
    GitProbeStatus, GitProbeSummary, MemoryProposalSummary, GIT_PROBE_TIMEOUT_MS,
};

fn no_memory() -> MemoryProposalSummary {
    MemoryProposalSummary {
        pending: 0,
        accepted: 0,
        rejected: 0,
        preference_pending: 0,
        latest_pending: Vec::new(),
    }
}

#[test]
fn authority_reports_present_and_missing_surfaces() {
    let presence = AuthorityPresence {
        agents_md: true,
        repo_specs: true,
        project_specs: false,
        sync_gate: false,
        release_cadence: false,
    };

    let items = authority_for_project(Some("/tmp/cf-control-plane"), presence);

    assert_eq!(
        items.iter().find(|i| i.id == "agents-md").unwrap().status,
        ControlPlaneStatus::Healthy
    );
    assert_eq!(
        items.iter().find(|i| i.id == "sync-gate").unwrap().status,
        ControlPlaneStatus::Missing
    );
    assert_eq!(
        items.iter().find(|i| i.id == "sync-gate").unwrap().path.as_deref(),
        Some("/tmp/cf-control-plane/.githooks/pre-commit")
    );
    assert_eq!(items.len(), 5);
}

#[test]
fn no_project_gives_one_warning_item() {
    let presence = AuthorityPresence {
        agents_md: true,
        repo_specs: true,
        project_specs: true,
        sync_gate: true,
        release_cadence: true,
    };
    let items = authority_for_project(None, presence);
    assert_eq!(items.len(), 1);
    assert_eq!(items[0].id, "project-context");
    assert_eq!(items[0].status, ControlPlaneStatus::Warning);
    assert!(items[0].path.is_none());
}

#[test]
fn partial_git_risk_keeps_unknown_fields_unknown() {
    let delivery = DeliverySummary {
        git_branch: None,
        is_dirty: None,
        dirty_count: None,
        sync_gate_present: true,
        sync_gate_configured: None,
        release_workflow_present: true,
        auto_release_present: true,
        latest_release_tag: None,
        git_probe: GitProbeSummary {
            status: GitProbeStatus::Partial,
            timeout_ms: GIT_PROBE_TIMEOUT_MS,
            timed_out: vec!["status".into()],
            failed: vec!["tag".into()],
        },
    };

    let risks = risks_for(true, &no_memory(), &delivery);

    let risk = risks
        .iter()
        .find(|risk| risk.id == "git-probe-partial")
        .unwrap();
    assert!(risk.message.contains("timed out: status"));
    assert!(risk.message.contains("failed: tag"));
    assert_eq!(
        risk.message,
        "Git observation is partial after 2000ms; timed out: status; failed: tag."
    );
    assert_eq!(delivery.is_dirty, None);
    assert_eq!(delivery.sync_gate_configured, None);
}

#[test]
fn non_git_project_is_reported_and_gates_checked() {
    let git = GitProbeData::with_status(GitProbeStatus::NotRepository);
    let delivery = delivery_for_project(
        Some(git),
        DeliveryPresence { sync_gate: false, release_workflow: false, auto_release: false },
    );
    assert_eq!(delivery.git_branch, None);
    assert_eq!(delivery.git_probe.status, GitProbeStatus::NotRepository);
    assert_eq!(delivery.is_dirty, None);
    assert!(!delivery.sync_gate_present);
    let mut memory = no_memory();
    memory.pending = 2;
    let risks = risks_for(true, &memory, &delivery);
    let ids: Vec<&str> = risks.iter().map(|r| r.id.as_str()).collect();
    assert_eq!(
        ids,
        vec!["missing-sync-gate", "not-git-repository", "no-release-workflow", "memory-review-pending"]
    );
    assert_eq!(risks[3].message, "2 memory proposal(s) are waiting for review.");
}

#[test]
fn no_project_has_only_the_context_risk() {
    let delivery = delivery_for_project(
        None,
        DeliveryPresence { sync_gate: true, release_workflow: true, auto_release: true },
    );
    assert_eq!(delivery.git_probe.status, GitProbeStatus::NotChecked);
    let risks = risks_for(false, &no_memory(), &delivery);
    assert_eq!(risks.len(), 1);
    assert_eq!(risks[0].id, "no-project-context");
}

#[test]
fn git_probe_reads_branch_dirt_hooks_and_tags() {
    let data = git_probe_from_results(GitProbeResults {
        branch: Ok(Some("main".into())),
        status: Ok(Some(" M a.rs\0?? b.rs\0".into())),
        hooks_path: Ok(Some("\".githooks/\"".into())),
        hooks_canonical: None,
        tags: Ok(Some("v2.0.0\nv1.0.0".into())),
    });
    assert_eq!(data.branch.as_deref(), Some("main"));
    assert_eq!(data.dirty_count, Some(2));
    assert_eq!(data.sync_gate_configured, Some(true));
    assert_eq!(data.latest_release_tag.as_deref(), Some("v2.0.0"));
    assert_eq!(data.summary.status, GitProbeStatus::Complete);

    let partial = git_probe_from_results(GitProbeResults {
        branch: Err(GitCommandFailureKind::Timeout),
        status: Ok(None),
        hooks_path: Ok(None),
        hooks_canonical: None,
        tags: Err(GitCommandFailureKind::Failed),
    });
    assert_eq!(partial.summary.status, GitProbeStatus::Partial);
    assert_eq!(partial.summary.timed_out, vec!["branch".to_string()]);
    assert_eq!(partial.summary.failed, vec!["tag".to_string()]);
    assert_eq!(partial.dirty_count, Some(0));
    assert_eq!(partial.sync_gate_configured, Some(false));
}

#[test]
fn repository_check_decides_whether_to_probe_on() {
    assert!(repository_check(Ok(Some("true".into()))).is_none());
    let stopped = repository_check(Err(GitCommandFailureKind::Unavailable)).unwrap();
    assert_eq!(stopped.summary.status, GitProbeStatus::Unavailable);
    let timed = repository_check(Err(GitCommandFailureKind::Timeout)).unwrap();
    assert_eq!(timed.summary.status, GitProbeStatus::Partial);
    assert_eq!(timed.summary.timed_out, vec!["repository".to_string()]);
    let mut summary = GitProbeSummary {
        status: GitProbeStatus::Complete,
        timeout_ms: 1,
        timed_out: vec![],
        failed: vec![],
    };
    record_git_failure(&mut summary, "x", GitCommandFailureKind::NotRepository);
    assert_eq!(summary.failed, vec!["x".to_string()]);
}

#[test]
fn hooks_path_forms() {
    assert!(!hooks_path_is_configured("   ", None));
    assert!(hooks_path_is_configured(".githooks", None));
    assert!(hooks_path_is_configured("  \".githooks\\\\\"  ", None));
    assert!(!hooks_path_is_configured("hooks", Some(("/a".into(), "/a".into()))));
    assert!(hooks_path_is_configured("/repo/.githooks", Some(("/r".into(), "/r".into()))));
    assert!(!hooks_path_is_configured("/repo/.githooks", Some(("/r".into(), "/s".into()))));
    assert!(!hooks_path_is_configured("/repo/.githooks", None));
}

#[test]
fn git_command_outcomes() {
    let ok = GitCommandRun { success: true, exit_code: Some(0), stdout: " true \n".into(), stderr: String::new() };
    assert_eq!(command_outcome(&ok, false), Ok(Some("true".to_string())));
    let not_repo = GitCommandRun {
        success: false,
        exit_code: Some(128),
        stdout: String::new(),
        stderr: "fatal: Not a git repository (or any parent)".into(),
    };
    assert_eq!(command_outcome(&not_repo, false), Err(GitCommandFailureKind::NotRepository));
    let missing = GitCommandRun { success: false, exit_code: Some(1), stdout: String::new(), stderr: " ".into() };
    assert_eq!(command_outcome(&missing, true), Ok(None));
    assert_eq!(command_outcome(&missing, false), Err(GitCommandFailureKind::Failed));
}

#[test]
fn surfaces_are_named_by_their_file() {
    let item = status_for_path("/p/docs/specs/", false, "here", "gone");
    assert_eq!(item.id, "specs");
    assert_eq!(item.status, ControlPlaneStatus::Missing);
    assert_eq!(item.detail, "gone");
    assert_eq!(status_for_path("/", true, "here", "gone").id, "surface");
    let caps = capability_summaries((3, 2), (1, 1), (0, 0), (4, 1), 2);
    assert_eq!(caps.len(), 5);
    assert_eq!(caps[4].id, "git-remotes");
    assert_eq!(caps[4].enabled, 2);
}
