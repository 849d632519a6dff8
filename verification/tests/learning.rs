use std::collections::HashSet;

use codefactory::json::Json;
use codefactory::learning::{
    calibration_hint, default_evidence, default_kind, expand_postmortem_completion_budget,
    extract_postmortem_completion, job_event_from_row, job_from_row, learning_memory_path,
    norm_suggestion, plan_memory_append, postmortem_api_key, postmortem_result, postmortem_route, postmortem_runs, resolve_postmortem_model, sanitize_postmortem_entry,
    valid_preference_key, AiResponse, AiResponseChoice, AiResponseMessage, MemoryAppend,
    PostmortemEntry,
};
use codefactory::mining::{
    build_improvement_proposal, detect_learning_calibration, detect_retry_prone,
    detect_tool_reliability, pct, run_detectors, tool_gate_proposals, LearningDecisionRow,
    mining_terminal_status, plan_mined_candidates, seen_suggestions, MiningFailure, PatternInsight,
    TaskRow, ToolCallRow,
};
use codefactory::errors::AppError;
use codefactory::postmortem::build_postmortem_summary;
use codefactory::settings::{ApiStyle, Endpoint, Settings};

#[test]
fn postmortem_uses_the_active_model_for_the_selected_endpoint() {
    let mut settings = Settings::default();
    settings.default_endpoint = "deepseek".into();
    settings.default_model = "gpt-5.5".into();
    settings.endpoints.insert(
        "deepseek".into(),
        Endpoint {
            base_url: "https://api.deepseek.com".into(),
            key_ref: Some("codefactory.endpoint.deepseek".into()),
            api_style: ApiStyle::Openai,
            custom_models: vec![],
            active_model: Some("deepseek-v4-pro".into()),
        },
    );

    assert_eq!(
        resolve_postmortem_model(&settings).as_deref(),
        Some("deepseek-v4-pro")
    );
}

#[test]
fn postmortem_response_never_uses_reasoning_as_candidate_content() {
    let response = AiResponse {
        choices: vec![AiResponseChoice {
            message: AiResponseMessage {
                content: None,
                reasoning_content: Some("private chain of thought".into()),
            },
            finish_reason: Some("length".into()),
        }],
    };

    let completion = extract_postmortem_completion(response);

    assert!(completion.text.is_empty());
    assert!(completion.reasoning_present);
    assert_eq!(completion.finish_reason.as_deref(), Some("length"));
}

fn object(entries: Vec<(&str, Json)>) -> Json {
    Json::Object(entries.into_iter().map(|(k, v)| (k.to_string(), v)).collect())
}

fn entry_of<'a>(value: &'a Json, key: &str) -> Option<&'a Json> {
    value.get(key)
}

#[test]
fn postmortem_retry_expands_whichever_completion_budget_field_is_active() {
    let mut max_tokens = object(vec![("max_tokens", Json::Int(500))]);
    expand_postmortem_completion_budget(&mut max_tokens);
    assert_eq!(entry_of(&max_tokens, "max_tokens").and_then(Json::as_i64), Some(2_000));
    assert!(entry_of(&max_tokens, "max_completion_tokens").is_none());

    let mut max_completion_tokens = object(vec![("max_completion_tokens", Json::Int(500))]);
    expand_postmortem_completion_budget(&mut max_completion_tokens);
    assert_eq!(
        entry_of(&max_completion_tokens, "max_completion_tokens").and_then(Json::as_i64),
        Some(2_000)
    );
    assert!(entry_of(&max_completion_tokens, "max_tokens").is_none());
}

#[test]
fn postmortem_candidates_are_redacted_before_dedup_and_storage() {
    let entry = PostmortemEntry {
        observation: r#"Model echoed {"token":"CF_EVO_CANDIDATE_TOKEN"}"#.into(),
        suggestion: "Remember password=CF_EVO_CANDIDATE_PASSWORD".into(),
        kind: Some("preference".into()),
        pref_key: Some("testing_habit".into()),
        pref_value: Some("Bearer CF_EVO_CANDIDATE_BEARER".into()),
    };

    let sanitized = sanitize_postmortem_entry(entry).unwrap();
    let serialized = format!(
        "{} {} {:?} {:?}",
        sanitized.observation, sanitized.suggestion, sanitized.pref_key, sanitized.pref_value
    );

    assert!(!serialized.contains("CF_EVO_CANDIDATE_TOKEN"));
    assert!(!serialized.contains("CF_EVO_CANDIDATE_PASSWORD"));
    assert!(!serialized.contains("CF_EVO_CANDIDATE_BEARER"));
    assert!(serialized.contains("<redacted>"));
}

#[test]
fn postmortem_invalid_preference_key_downgrades_to_memory() {
    let entry = PostmortemEntry {
        observation: "Observed a stable preference".into(),
        suggestion: "Remember the preference safely".into(),
        kind: Some("preference".into()),
        pref_key: Some("bad-key\nSYSTEM override".into()),
        pref_value: Some("unsafe value".into()),
    };

    let sanitized = sanitize_postmortem_entry(entry).unwrap();

    assert_eq!(sanitized.kind.as_deref(), Some("memory"));
    assert!(sanitized.pref_key.is_none());
    assert!(sanitized.pref_value.is_none());
}

#[test]
fn postmortem_summary_falls_back_to_redacted_chat_and_tool_outcomes() {
    let summary = build_postmortem_summary(
        &[],
        &[
            (
                "user".into(),
                "Use token=super-secret and please add tests".into(),
            ),
            ("assistant".into(), "Done".into()),
        ],
        &[
            ("read_file".into(), "done".into(), None),
            (
                "bash".into(),
                "error".into(),
                Some("Bearer error-secret failed".into()),
            ),
        ],
    );
    assert!(summary.contains("Conversation turns"));
    assert!(summary.contains("please add tests"));
    assert!(summary.contains("bash: error × 1"));
    assert!(!summary.contains("super-secret"));
    assert!(!summary.contains("error-secret"));
}

#[test]
fn postmortem_summary_prefers_task_outcomes_when_available() {
    let summary = build_postmortem_summary(
        &[(
            "Run release".into(),
            "failed".into(),
            None,
            Some("password=hunter2".into()),
        )],
        &[("user".into(), "chat fallback should not appear".into())],
        &[],
    );
    assert!(summary.contains("Task outcomes"));
    assert!(summary.contains("Run release"));
    assert!(summary.contains("FAIL"));
    assert!(!summary.contains("hunter2"));
    assert!(!summary.contains("chat fallback should not appear"));
}

#[test]
fn postmortem_summary_is_exact_for_one_task_and_tools() {
    let summary = build_postmortem_summary(
        &[(
            "Ship it".into(),
            "completed".into(),
            Some("ok".into()),
            None,
        )],
        &[],
        &[
            ("read_file".into(), "done".into(), None),
            ("bash".into(), "error".into(), None),
            ("bash".into(), "done".into(), None),
            ("bash".into(), "error".into(), Some("boom".into())),
        ],
    );
    assert_eq!(
        summary,
        "Task outcomes:\n1. [completed] Ship it — ok\nTool outcomes:\n- bash: done × 1\n- bash: error × 2\n- read_file: done × 1"
    );
}

#[test]
fn improvement_proposal_is_read_only_and_lists_friction() {
    let empty = build_improvement_proposal(&[], &[]);
    assert!(
        empty.contains("不修改任何代码"),
        "must state it changes nothing"
    );
    assert!(empty.contains("暂未发现"));
    let tool = PatternInsight {
        observation: "o".into(),
        suggestion: "工具 `bash` 失败率偏高".into(),
        support_count: 10,
        evidence: Json::Object(vec![]),
    };
    let md = build_improvement_proposal(&[tool], &[]);
    assert!(md.contains("## 工具可靠性"));
    assert!(md.contains("工具 `bash` 失败率偏高"));
    assert!(md.contains("系统不会自己动手"));
}

fn tc(session_id: &str, name: &str, status: &str, err: Option<&str>) -> ToolCallRow {
    ToolCallRow {
        session_id: session_id.into(),
        tool_name: name.into(),
        status: status.into(),
        error: err.map(Into::into),
    }
}

#[test]
fn tool_gate_only_proposes_currently_allowed_flaky_tools() {
    let mut rows = Vec::new();
    for i in 0..6 {
        rows.push(tc(
            if i % 2 == 0 { "s1" } else { "s2" },
            "edit_file",
            "done",
            None,
        ));
    }
    for i in 0..4 {
        rows.push(tc(
            if i % 2 == 0 { "s1" } else { "s2" },
            "edit_file",
            "error",
            Some("boom"),
        ));
    }
    for i in 0..9 {
        rows.push(tc(
            if i % 2 == 0 { "s1" } else { "s2" },
            "flaky_gated",
            "error",
            Some("x"),
        ));
    }
    for i in 0..10 {
        rows.push(tc(
            if i % 2 == 0 { "s1" } else { "s2" },
            "bash",
            "error",
            Some("e"),
        ));
    }
    let insights = detect_tool_reliability(&rows);
    let allow = vec![
        "edit_file".to_string(),
        "bash".to_string(),
        "read_file".to_string(),
    ];

    let proposals = tool_gate_proposals(&insights, &allow);

    assert_eq!(
        proposals.len(),
        1,
        "only currently-allowed, non-special flaky tools"
    );
    let p = &proposals[0];
    assert_eq!(p.tool, "edit_file");
    assert_eq!(p.total, 10);
    assert_eq!(p.errors, 4);
    assert_eq!(p.rate, 40);
    assert!(proposals.iter().all(|q| q.tool != "flaky_gated"));
    assert!(proposals.iter().all(|q| q.tool != "bash"));
}

#[test]
fn norm_suggestion_folds_case_and_whitespace_for_dedup() {
    assert_eq!(
        norm_suggestion("  Use  pnpm  "),
        norm_suggestion("use pnpm")
    );
    assert_eq!(
        norm_suggestion("Use TDD by default."),
        "use tdd by default."
    );
    assert_ne!(norm_suggestion("use pnpm"), norm_suggestion("use npm"));
}

#[test]
fn dedup_set_drops_repeats_keeps_new() {
    let existing = ["Use pnpm not npm.", "Prefer TDD."];
    let mut seen: HashSet<String> = existing.iter().map(|s| norm_suggestion(s)).collect();
    assert!(!seen.insert(norm_suggestion("use   pnpm not npm.")));
    assert!(seen.insert(norm_suggestion("This project deploys via GitHub Actions.")));
    assert!(!seen.insert(norm_suggestion("this project deploys via github actions.")));
}

fn decs(pairs: &[(&str, &str)]) -> Vec<(String, String)> {
    pairs
        .iter()
        .map(|(k, s)| (k.to_string(), s.to_string()))
        .collect()
}

#[test]
fn calibration_hint_fires_only_at_extremes() {
    let d = decs(&[
        ("preference", "rejected"),
        ("preference", "rejected"),
        ("preference", "rejected"),
        ("preference", "rejected"),
        ("preference", "accepted"),
        ("memory", "accepted"),
        ("memory", "accepted"),
        ("memory", "accepted"),
        ("memory", "accepted"),
        ("memory", "accepted"),
        ("memory", "rejected"),
        ("pattern", "accepted"),
        ("pattern", "accepted"),
        ("pattern", "rejected"),
    ]);
    let hint = calibration_hint(&d);
    assert!(hint.contains("rejected most \"preference\""), "got: {hint}");
    assert!(hint.contains("accepts most \"memory\""), "got: {hint}");
    assert!(
        !hint.contains("pattern"),
        "below-threshold kind stays silent: {hint}"
    );
}

#[test]
fn calibration_hint_empty_when_no_extreme_or_too_few() {
    assert_eq!(
        calibration_hint(&decs(&[("memory", "accepted"), ("memory", "rejected")])),
        ""
    );
    assert_eq!(
        calibration_hint(&decs(&[
            ("memory", "accepted"),
            ("memory", "rejected"),
            ("memory", "accepted"),
            ("memory", "rejected"),
        ])),
        ""
    );
}

#[test]
fn calibration_hint_lists_kinds_in_order_with_exact_text() {
    let hint = calibration_hint(&decs(&[
        ("preference", "rejected"),
        ("memory", "accepted"),
        ("preference", "rejected"),
        ("memory", "accepted"),
        ("preference", "rejected"),
        ("memory", "accepted"),
        ("preference", "rejected"),
        ("memory", "accepted"),
    ]));
    assert_eq!(
        hint,
        "Calibration from this user's past decisions:\n- The user accepts most \"memory\" suggestions (4/4) — those are welcome.\n- The user has rejected most \"preference\" suggestions (0/4 accepted) — only propose a \"preference\" when highly confident.\n\n"
    );
}

#[test]
fn tool_reliability_flags_only_high_volume_high_error_tools() {
    let mut rows = Vec::new();
    for i in 0..10 {
        rows.push(tc(
            if i % 2 == 0 { "s1" } else { "s2" },
            "bash",
            if i < 4 { "error" } else { "done" },
            Some("pwsh not found"),
        ));
    }
    for i in 0..12 {
        rows.push(tc(
            if i % 2 == 0 { "s1" } else { "s2" },
            "read_file",
            if i < 1 { "error" } else { "done" },
            None,
        ));
    }
    for i in 0..5 {
        rows.push(tc(
            if i % 2 == 0 { "s1" } else { "s2" },
            "write_xlsx",
            if i < 3 { "error" } else { "done" },
            None,
        ));
    }

    let out = detect_tool_reliability(&rows);
    assert_eq!(out.len(), 1, "only the high-volume flaky tool is flagged");
    assert!(out[0].suggestion.contains("bash"));
    assert_eq!(out[0].support_count, 2);
    assert!(out[0].evidence.get("rate").and_then(|v| v.as_i64()) == Some(40));
}

#[test]
fn retry_prone_groups_by_error_and_needs_three() {
    let rows = vec![
        TaskRow {
            session_id: "s1".into(),
            status: "completed".into(),
            attempt_count: 3,
            error: Some("schannel: server closed abruptly".into()),
        },
        TaskRow {
            session_id: "s2".into(),
            status: "completed".into(),
            attempt_count: 2,
            error: Some("schannel: server closed abruptly".into()),
        },
        TaskRow {
            session_id: "s3".into(),
            status: "failed".into(),
            attempt_count: 4,
            error: Some("Schannel:  server  closed  abruptly".into()),
        },
        TaskRow {
            session_id: "s1".into(),
            status: "completed".into(),
            attempt_count: 1,
            error: Some("schannel: server closed abruptly".into()),
        },
        TaskRow {
            session_id: "s4".into(),
            status: "failed".into(),
            attempt_count: 2,
            error: Some("totally different".into()),
        },
    ];
    let out = detect_retry_prone(&rows);
    assert_eq!(
        out.len(),
        1,
        "only the 3x recurring retry error is surfaced"
    );
    assert_eq!(out[0].support_count, 3);
}

#[test]
fn learning_calibration_emits_at_extremes_only() {
    let mut rows = Vec::new();
    for i in 0..6 {
        rows.push(LearningDecisionRow {
            kind: "memory".into(),
            status: if i < 5 { "accepted" } else { "rejected" }.into(),
        });
    }
    for i in 0..6 {
        rows.push(LearningDecisionRow {
            kind: "preference".into(),
            status: if i < 1 { "accepted" } else { "rejected" }.into(),
        });
    }
    for _ in 0..4 {
        rows.push(LearningDecisionRow {
            kind: "pattern".into(),
            status: "accepted".into(),
        });
    }

    let out = detect_learning_calibration(&rows);
    assert_eq!(out.len(), 2);
    assert!(out
        .iter()
        .any(|p| p.suggestion.contains("memory") && p.suggestion.contains("可以多提")));
    assert!(out
        .iter()
        .any(|p| p.suggestion.contains("preference") && p.suggestion.contains("少提")));
}

#[test]
fn detectors_sort_by_support_keeping_ties_in_order() {
    let mut rows = Vec::new();
    for i in 0..8 {
        rows.push(tc(if i % 2 == 0 { "a" } else { "b" }, "one", "error", None));
    }
    for i in 0..9 {
        let s = ["a", "b", "c"][i % 3];
        rows.push(tc(s, "two", "error", None));
    }
    let out = run_detectors(&rows, &[], &[]);
    assert_eq!(out.len(), 2);
    assert!(out[0].suggestion.starts_with("`two`"));
    assert_eq!(out[0].support_count, 3);
    assert!(out[1].suggestion.starts_with("`one`"));
    assert_eq!(
        out[1].observation,
        "工具 `one` 跨 2 个 session 的最近 8 次调用失败 8 次（100%）。"
    );
}

#[test]
fn percentages_round_toward_zero() {
    assert_eq!(pct(1, 3), 33);
    assert_eq!(pct(2, 3), 66);
    assert_eq!(pct(-1, 3), -33);
    assert_eq!(pct(5, 0), 0);
}

#[test]
fn preference_keys_are_snake_case_and_bounded() {
    assert!(valid_preference_key("testing_habit"));
    assert!(valid_preference_key("a1_b2"));
    assert!(!valid_preference_key("Testing"));
    assert!(!valid_preference_key("_lead"));
    assert!(!valid_preference_key(""));
    assert!(!valid_preference_key("bad-key"));
    assert!(valid_preference_key(&format!("a{}", "b".repeat(63))));
    assert!(!valid_preference_key(&format!("a{}", "b".repeat(64))));
}

#[test]
fn empty_candidates_are_dropped() {
    let entry = PostmortemEntry {
        observation: "   ".into(),
        suggestion: "Something".into(),
        kind: None,
        pref_key: None,
        pref_value: None,
    };
    assert!(sanitize_postmortem_entry(entry).is_none());
}

#[test]
fn job_rows_map_column_by_column() {
    let job = job_from_row((
        "j".into(),
        "/p".into(),
        "cross_session".into(),
        None,
        "running".into(),
        3,
        4,
        5,
        "t0".into(),
        None,
        Some("e".into()),
    ));
    assert_eq!(job.id, "j");
    assert_eq!(job.trigger, "cross_session");
    assert_eq!(job.input_trace_count, 4);
    assert_eq!(job.error.as_deref(), Some("e"));
    let event = job_event_from_row((
        "e1".into(),
        "/p".into(),
        "j".into(),
        Some("c".into()),
        "job".into(),
        "started".into(),
        "title".into(),
        "{}".into(),
        "t1".into(),
    ));
    assert_eq!(event.job_id, "j");
    assert_eq!(event.candidate_id.as_deref(), Some("c"));
    assert_eq!(event.created_at, "t1");
}

#[test]
fn stored_learning_defaults() {
    assert_eq!(default_kind(), "memory");
    assert_eq!(default_evidence(), "{}");
    assert_eq!(learning_memory_path("/proj"), "/proj/.codefactory/memory.md");
    assert_eq!(learning_memory_path("/proj/"), "/proj/.codefactory/memory.md");
}

#[test]
fn memory_line_is_written_once() {
    let first = plan_memory_append("", "  Use pnpm ", "c1", "2024-01-02").unwrap();
    let content = match first {
        MemoryAppend::Write(c) => c,
        MemoryAppend::AlreadyPresent => panic!("first acceptance writes"),
    };
    assert!(content.starts_with("# Project memory\n\n"));
    assert!(content.ends_with("- (2024-01-02) Use pnpm\n<!-- codefactory-learning-event:c1 -->"));
    let again = plan_memory_append(&content, "Use pnpm", "c1", "2024-01-03").unwrap();
    assert!(matches!(again, MemoryAppend::AlreadyPresent));
    let err = plan_memory_append(&content, "   ", "c2", "2024-01-03").err().unwrap();
    assert_eq!(err.to_message(), "Cannot save empty fact to memory");
}

#[test]
fn mining_failure_keeps_stage_and_error() {
    let failure = MiningFailure::new("load", AppError::Other("db down".into()));
    assert_eq!(failure.stage, "load");
    assert_eq!(failure.error.to_message(), "db down");
}

fn insight(suggestion: &str) -> PatternInsight {
    PatternInsight {
        observation: format!("saw {suggestion}"),
        suggestion: suggestion.to_string(),
        support_count: 3,
        evidence: Json::Null,
    }
}

#[test]
fn mined_candidates_skip_known_and_repeated_suggestions() {
    let mut seen = seen_suggestions(&["  Run   Tests First ".to_string()]);
    assert_eq!(seen, vec!["run tests first".to_string()]);
    let kept = plan_mined_candidates(
        vec![insight("run tests first"), insight("Check git status"), insight("check  GIT status"), insight("Pin versions")],
        &mut seen,
    );
    let suggestions: Vec<&str> = kept.iter().map(|p| p.suggestion.as_str()).collect();
    assert_eq!(suggestions, vec!["Check git status", "Pin versions"]);
    assert_eq!(seen, vec!["run tests first", "check git status", "pin versions"]);
    assert_eq!(mining_terminal_status(kept.len()), "succeeded");
    assert_eq!(mining_terminal_status(0), "no_candidates");
}

#[test]
fn postmortem_route_names_the_missing_model_and_loads_keys() {
    let mut settings = Settings::default();
    settings.default_endpoint = "local".into();
    assert_eq!(
        postmortem_route(&settings).unwrap_err().to_message(),
        "No post-mortem model configured for endpoint 'local'"
    );
    settings.endpoints.insert(
        "local".into(),
        Endpoint {
            base_url: "http://localhost".into(),
            key_ref: Some("codefactory.endpoint.local".into()),
            api_style: ApiStyle::Openai,
            custom_models: vec![],
            active_model: Some("small".into()),
        },
    );
    let (model, key_ref) = postmortem_route(&settings).unwrap();
    assert_eq!(model, "small");
    assert_eq!(key_ref.as_deref(), Some("codefactory.endpoint.local"));
    assert_eq!(postmortem_api_key(None).unwrap(), "");
    assert_eq!(postmortem_api_key(Some(Ok(None))).unwrap(), "");
    assert_eq!(postmortem_api_key(Some(Ok(Some("sk".into())))).unwrap(), "sk");
    assert_eq!(
        postmortem_api_key(Some(Err("locked".into()))).unwrap_err().to_message(),
        "Failed to load API key: locked"
    );
}

#[test]
fn a_postmortem_pass_never_fails_its_caller() {
    assert!(postmortem_runs(true, true, "summary"));
    assert!(!postmortem_runs(false, true, "summary"));
    assert!(!postmortem_runs(true, false, "summary"));
    assert!(!postmortem_runs(true, true, ""));
    assert_eq!(postmortem_result(Ok(vec![1, 2])), vec![1, 2]);
    let failed: Result<Vec<i32>, AppError> = Err(AppError::Other("no model".into()));
    assert!(postmortem_result(failed).is_empty());
}

#[test]
fn a_second_mining_run_over_the_same_insights_keeps_nothing() {
    let mut seen = seen_suggestions(&[]);
    let first = plan_mined_candidates(vec![insight("Pin versions"), insight("pin   versions")], &mut seen);
    assert_eq!(first.len(), 1);
    let second = plan_mined_candidates(vec![insight("Pin versions"), insight("pin   versions")], &mut seen);
    assert!(second.is_empty());
    assert_eq!(mining_terminal_status(second.len()), "no_candidates");
}
