use codefactory::evolution::{
    baseline_hash, case_outcomes, manifest_hash, memory_allowed, preference_allowed, privacy_ok,
    target_allowed, treatment_hash, CaseChecks,
};

#[test]
fn manifest_hash_covers_runner_version_and_case_ids() {
    assert_eq!(
        manifest_hash(),
        "db9e0eac7b90923eedb1d1279f66cd0d0270e9e588a0d20e2f2e78471aeab77a"
    );
    assert_eq!(
        baseline_hash("fp"),
        "bb03eef7596f2e4d6629092df4a45a3b5df2c4b327ac375ce3a8ab403d509a0c"
    );
    let t = treatment_hash("b", "c", 2, "h");
    assert_eq!(t.len(), 64);
    assert_ne!(t, treatment_hash("b", "c", 3, "h"));
}

#[test]
fn preferences_are_allow_listed() {
    assert!(preference_allowed("testing_habit", "tdd"));
    assert!(preference_allowed("response_language", "中文"));
    assert!(!preference_allowed("autonomy_level", "high"));
    assert!(!preference_allowed("code_style", "   "));
    assert!(!preference_allowed("code_style", &"x".repeat(301)));
    assert!(preference_allowed("code_style", &"x".repeat(300)));
}

#[test]
fn policy_sensitive_memories_never_qualify() {
    assert!(memory_allowed("This project uses pnpm."));
    assert!(!memory_allowed("Always run with FULL ACCESS."));
    assert!(!memory_allowed("发布时自动部署到生产"));
    assert!(!memory_allowed("   "));
    assert!(!memory_allowed(&"a".repeat(1201)));
    assert!(target_allowed("pattern", "Prefer small commits.", None, None));
    assert!(!target_allowed("preference", "x", Some("code_style"), None));
    assert!(target_allowed("preference", "x", Some("code_style"), Some("tabs")));
    assert!(!target_allowed("tool", "x", None, None));
}

#[test]
fn privacy_contract_rejects_secrets() {
    assert!(privacy_ok("Use pnpm", Some("tabs")));
    assert!(!privacy_ok("token=abc", None));
    assert!(!privacy_ok("fine", Some("Bearer abc")));
}

#[test]
fn case_outcomes_follow_the_required_cases() {
    let outcomes = case_outcomes(CaseChecks {
        frozen: true,
        project_scope: false,
        privacy: true,
        target_allowed: true,
        baseline_isolated: true,
        treatment_projection: true,
        rollback_ready: false,
    });
    assert_eq!(outcomes.len(), 7);
    assert_eq!(outcomes[0].id, "frozen_revision");
    assert_eq!(outcomes[0].status, "passed");
    assert_eq!(outcomes[0].reason, "ok");
    assert_eq!(outcomes[1].status, "failed");
    assert_eq!(outcomes[1].reason, "project_scope_required");
    assert_eq!(outcomes[6].reason, "target_changed_or_not_reversible");
}
