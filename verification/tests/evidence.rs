use codefactory::evidence::{
    annotate_verification, assumption_notes, build_summary_md, call_arguments, call_name,
    changed_paths, evidence_timestamp, first_occurrences, git_after_date, message_token_total,
    parse_git_log, review_notes, run_duration_seconds, task_outcome, verification_passed,
    evidence_tool_calls, message_tool_call, table_tool_call, CallArguments, CommitEvidence, SummaryFacts, TaskRunInfo,
    ToolCallEvidence,
};
use codefactory::json::Json;

fn task(id: &str, status: &str) -> TaskRunInfo {
    TaskRunInfo {
        id: id.to_string(),
        title: format!("Task {}", id),
        description: String::new(),
        status: status.to_string(),
        error: None,
        verification_results: None,
        started_at: None,
        completed_at: None,
    }
}

fn object(entries: Vec<(&str, Json)>) -> Json {
    Json::Object(entries.into_iter().map(|(k, v)| (k.to_string(), v)).collect())
}

#[test]
fn run_status_is_passed_only_when_every_task_completed() {
    let all = vec![task("a", "completed"), task("b", "completed")];
    assert_eq!(task_outcome(&all).status, "passed");
    let mixed = vec![task("a", "completed"), task("b", "failed")];
    let o = task_outcome(&mixed);
    assert_eq!((o.total_tasks, o.completed_tasks, o.failed_tasks), (2, 1, 1));
    assert_eq!(o.status, "partial");
    assert_eq!(task_outcome(&vec![task("a", "failed")]).status, "failed");
    assert_eq!(task_outcome(&Vec::new()).status, "failed");
}

#[test]
fn notes_name_assumptions_and_failures() {
    let mut a = task("a", "completed");
    a.description = "We assume the cache is warm".to_string();
    let mut b = task("b", "failed");
    b.error = Some("x".repeat(200));
    let c = task("c", "failed");
    let tasks = vec![a, b, c];
    assert_eq!(assumption_notes(&tasks), vec!["[Task a] We assume the cache is warm".to_string()]);
    let reviews = review_notes(&tasks);
    assert_eq!(reviews.len(), 2);
    assert_eq!(reviews[0], format!("[Task b] Failed: {}", "x".repeat(120)));
    assert_eq!(reviews[1], "[Task c] Failed: unknown error");
}

#[test]
fn changed_paths_come_from_file_writing_calls_once_each() {
    let calls = vec![
        ("write_file".to_string(), object(vec![("path", Json::Str("src/a.rs".to_string()))])),
        ("read_file".to_string(), object(vec![("path", Json::Str("src/b.rs".to_string()))])),
        ("EditFile".to_string(), object(vec![("file_path", Json::Str("src/c.rs".to_string()))])),
        ("edit_file".to_string(), object(vec![("path", Json::Str("src/a.rs".to_string()))])),
        ("edit_file".to_string(), object(vec![("path", Json::Int(3)), ("file_path", Json::Str("x".to_string()))])),
    ];
    assert_eq!(changed_paths(&calls), vec!["src/a.rs".to_string(), "src/c.rs".to_string()]);
}

#[test]
fn verification_needs_results_and_no_failure() {
    assert!(!verification_passed(&Vec::new()));
    let ok = vec![object(vec![("passed", Json::Bool(true))]), object(vec![("name", Json::Null)])];
    assert!(verification_passed(&ok));
    let bad = vec![object(vec![("passed", Json::Bool(true))]), object(vec![("passed", Json::Bool(false))])];
    assert!(!verification_passed(&bad));
}

#[test]
fn verification_items_carry_their_task() {
    let item = annotate_verification(object(vec![("passed", Json::Bool(true))]), "t1", "Build");
    match item {
        Json::Object(f) => {
            assert_eq!(f.len(), 3);
            assert!(matches!(&f[1], (k, Json::Str(v)) if k == "task_id" && v == "t1"));
            assert!(matches!(&f[2], (k, Json::Str(v)) if k == "task_title" && v == "Build"));
        }
        _ => panic!("not an object"),
    }
    assert!(matches!(annotate_verification(Json::Int(4), "t1", "Build"), Json::Int(4)));
}

#[test]
fn retrieval_events_are_kept_once_per_id() {
    let ids: Vec<String> = ["r1", "r2", "r1", "r3", "r2"].iter().map(|s| s.to_string()).collect();
    assert_eq!(first_occurrences(&ids), vec![0, 1, 3]);
}

#[test]
fn git_log_lines_become_commits() {
    let log = "0123456789abcdef|Fix bug|Ann|ann@example.com|2024-05-01 10:00:00 +0000\r\nmalformed line\nabc|Add|Bo|bo@example.com|2024|extra\n";
    let commits = parse_git_log(log);
    assert_eq!(commits.len(), 2);
    assert_eq!(commits[0].hash, "0123456789abcdef");
    assert_eq!(commits[0].short_hash, "0123456");
    assert_eq!(commits[0].message, "Fix bug");
    assert_eq!(commits[0].timestamp, "2024-05-01 10:00:00 +0000");
    assert_eq!(commits[1].short_hash, "abc");
    assert_eq!(commits[1].timestamp, "2024|extra");
}

#[test]
fn duration_runs_from_first_start_to_last_completion() {
    let mut a = task("a", "completed");
    a.started_at = Some("2024-05-01T10:00:00Z".to_string());
    a.completed_at = Some("2024-05-01T10:05:00Z".to_string());
    let mut b = task("b", "completed");
    b.started_at = Some("2024-05-01T10:02:00Z".to_string());
    b.completed_at = Some("2024-05-01T10:30:00Z".to_string());
    assert_eq!(run_duration_seconds(&vec![a, b]), 1_800);
    assert_eq!(run_duration_seconds(&vec![task("c", "pending")]), 0);
}

#[test]
fn tool_call_names_and_arguments_fall_back_to_function() {
    let tc = object(vec![(
        "function",
        object(vec![
            ("name", Json::Str("bash".to_string())),
            ("arguments", Json::Str("{\"command\":\"ls\"}".to_string())),
        ]),
    )]);
    assert_eq!(call_name(&tc), "bash");
    assert!(matches!(call_arguments(tc), CallArguments::Text(t) if t == "{\"command\":\"ls\"}"));
    let tc = object(vec![("name", Json::Int(1)), ("input", Json::Bool(true))]);
    assert_eq!(call_name(&tc), "unknown");
    assert!(matches!(call_arguments(tc), CallArguments::Value(Json::Bool(true))));
    assert!(matches!(call_arguments(object(vec![])), CallArguments::Missing));
}

#[test]
fn token_totals_treat_missing_counts_as_zero() {
    assert_eq!(message_token_total(&vec![(Some(10), Some(5)), (None, Some(2)), (None, None)]), 17);
}

#[test]
fn timestamps_are_written_in_utc() {
    assert_eq!(evidence_timestamp(0), "1970-01-01T00:00:00+00:00");
    assert_eq!(git_after_date(1_500), Some("1970-01-01 00:00:01".to_string()));
}

#[test]
fn summary_lists_tasks_commits_and_collaboration() {
    let facts = SummaryFacts {
        spec_req_id: "REQ-1".to_string(),
        spec_title: "Login".to_string(),
        session_id: "s1".to_string(),
        status: "passed".to_string(),
        total_tasks: 1,
        completed_tasks: 1,
        failed_tasks: 0,
        total_tool_calls: 4,
        files_changed: 2,
        verification_passed: true,
        total_tokens: 1234,
        duration_text: "2.5".to_string(),
        knowledge_refs_count: 0,
    };
    let mut t = task("abcdefghijk", "completed");
    t.verification_results = Some("[]".to_string());
    let commits = vec![CommitEvidence {
        hash: "0123456789".to_string(),
        short_hash: "0123456".to_string(),
        message: "Add login".to_string(),
        author: "Ann".to_string(),
        email: "ann@example.com".to_string(),
        timestamp: "2024".to_string(),
    }];
    let md = build_summary_md(&facts, &vec![t], &commits, "gpt", &Vec::new(), &vec!["[x] Failed: y".to_string()]);
    assert!(md.starts_with("# Evidence Pack \u{2014} REQ-1: Login\n"));
    assert!(md.contains("- Duration: 2.5 minutes\n"));
    assert!(md.contains("- **[abcdefgh]** Task abcdefghijk \u{2014} status: `completed` (verified)"));
    assert!(md.contains("- `0123456` Add login (Ann)"));
    assert!(md.contains("- Verification result: **PASSED**"));
    assert!(md.contains("- Verification passed: true\n"));
    assert!(md.contains("- assumptions:\n(none recorded)\n"));
    assert!(md.contains("- review points:\n- [x] Failed: y\n"));
    assert!(md.ends_with("- validation result: PASSED\n"));
}

#[test]
fn table_tool_calls_are_preferred_and_their_previews_redacted() {
    let row = table_tool_call(
        "bash".into(),
        Json::Null,
        Some("token=abc123 done".into()),
        "done".into(),
        Some(42),
        Some("Bearer xyz failed".into()),
        "m1".into(),
        0,
    );
    match &row {
        ToolCallEvidence::FromTable { result_preview, error, timestamp, duration_ms, status, .. } => {
            assert!(!result_preview.contains("abc123"));
            assert!(result_preview.ends_with("done"));
            assert!(!error.as_deref().unwrap().contains("xyz"));
            assert_eq!(timestamp, "1970-01-01T00:00:00+00:00");
            assert_eq!(*duration_ms, Some(42));
            assert_eq!(status, "done");
        }
        _ => panic!("expected a table record"),
    }
    let from_message = || ToolCallEvidence::FromMessage {
        tool_name: "read".into(),
        args: Json::Null,
        timestamp: String::new(),
        message_id: "m0".into(),
    };
    let chosen = evidence_tool_calls(vec![from_message()], vec![row]);
    assert_eq!(chosen.len(), 1);
    assert!(matches!(chosen[0], ToolCallEvidence::FromTable { .. }));
    let fallback = evidence_tool_calls(vec![from_message()], vec![]);
    assert!(matches!(fallback[0], ToolCallEvidence::FromMessage { .. }));
}

#[test]
fn normalized_tool_call_rows_redact_only_secret_values() {
    let args = Json::Object(vec![(
        "command".to_string(),
        Json::Str("printf token=CF_EVO_EVIDENCE_SECRET".to_string()),
    )]);
    let row = table_tool_call(
        "bash".into(),
        args,
        Some(r#"{"token":"CF_EVO_EVIDENCE_SECRET","safe":"visible"}"#.into()),
        "done".into(),
        Some(42),
        None,
        "message-1".into(),
        0,
    );
    match row {
        ToolCallEvidence::FromTable { args, result_preview, status, duration_ms, .. } => {
            assert_eq!(result_preview, r#"{"token":"<redacted>","safe":"visible"}"#);
            assert_eq!(status, "done");
            assert_eq!(duration_ms, Some(42));
            match args {
                Json::Object(f) => {
                    assert_eq!(f[0].0, "command");
                    assert!(matches!(&f[0].1, Json::Str(s) if s == "printf token=<redacted>"));
                }
                other => panic!("unexpected {other:?}"),
            }
        }
        _ => panic!("expected a table record"),
    }
}

#[test]
fn message_tool_calls_redact_secret_keyed_arguments() {
    let tc = Json::Object(vec![
        ("name".to_string(), Json::Str("fetch".to_string())),
        (
            "input".to_string(),
            Json::Object(vec![
                ("api_key".to_string(), Json::Str("sk-live".to_string())),
                ("url".to_string(), Json::Str("https://example.com".to_string())),
            ]),
        ),
    ]);
    match message_tool_call(tc, None, "t".into(), "m".into()) {
        ToolCallEvidence::FromMessage { tool_name, args: Json::Object(f), .. } => {
            assert_eq!(tool_name, "fetch");
            assert!(matches!(&f[0].1, Json::Str(s) if s == "<redacted>"));
            assert!(matches!(&f[1].1, Json::Str(s) if s == "https://example.com"));
        }
        other => panic!("unexpected {other:?}"),
    }
    let text_args = Json::Object(vec![(
        "function".to_string(),
        Json::Object(vec![
            ("name".to_string(), Json::Str("run".to_string())),
            ("arguments".to_string(), Json::Str("{}".to_string())),
        ]),
    )]);
    match message_tool_call(text_args, None, "t".into(), "m".into()) {
        ToolCallEvidence::FromMessage { tool_name, args, .. } => {
            assert_eq!(tool_name, "run");
            assert!(matches!(args, Json::Null));
        }
        other => panic!("unexpected {other:?}"),
    }
}
