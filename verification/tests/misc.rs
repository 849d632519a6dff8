use codefactory::browser::{check_browser_url, embedded_label, parse_https_url, ParsedUrl};
use codefactory::chat_progress::{
    external_job_duration, is_build_or_test_command, summarize, DurationSampleSummary,
};
use codefactory::git::{
    classify_index_status, classify_workdir_status, empty_status, git_error_message,
    place_status, require_nonblank, INDEX_MODIFIED, INDEX_NEW, WT_MODIFIED, WT_NEW,
};
use codefactory::hooks::{
    auto_commit_test_message, delete_hook, emit_event_test_message, update_hook, HookAction,
    HookConfig,
};
use codefactory::interjections::InterjectionQueue;
use codefactory::memory::{memory_path, missing_memory};
use codefactory::redact::redact_text;

#[test]
fn percentile_summary_is_deterministic_and_keeps_source_count() {
    assert_eq!(
        summarize(vec![9_000, 1_000, 5_000, 3_000]),
        Some(DurationSampleSummary {
            sample_count: 4,
            p25_ms: 1_000,
            p75_ms: 9_000,
        }),
    );
    assert_eq!(summarize(Vec::new()), None);
}

#[test]
fn invalid_external_job_timestamps_are_not_estimated() {
    assert_eq!(
        external_job_duration("invalid", "2024-01-01T00:00:00+00:00"),
        None,
    );
    assert_eq!(
        external_job_duration("2024-01-01T00:00:00Z", "2024-01-01T00:00:01.500Z"),
        Some(1_500)
    );
    assert_eq!(
        external_job_duration("2024-01-01T00:00:01Z", "2024-01-01T00:00:00Z"),
        None
    );
}

#[test]
fn build_and_test_commands_are_recognised() {
    assert!(is_build_or_test_command(r#"{"command":"pnpm build"}"#));
    assert!(is_build_or_test_command(r#"{"command":"cargo TEST --release"}"#));
    assert!(!is_build_or_test_command(r#"{"command":"echo latest"}"#));
    assert!(!is_build_or_test_command("not json"));
}

#[test]
fn redaction_hides_secrets_and_bounds_length() {
    assert_eq!(redact_text("Bearer abc rest", 100), "Bearer <redacted> rest");
    assert_eq!(redact_text("api_key: x", 100), "api_key: <redacted>");
    assert_eq!(redact_text(r#"{"password": "hunter2", "user": "amy"}"#, 200), r#"{"password": "<redacted>", "user": "amy"}"#);
    assert_eq!(redact_text("url?token=abc&x=1,next", 100), "url?token=<redacted>,next");
    assert_eq!(redact_text("API_KEY=x y", 100), "API_KEY=<redacted> y");
    assert_eq!(redact_text("abcdef", 3), "abc");
}

#[test]
fn embedded_labels_are_ascii_safe() {
    assert_eq!(embedded_label("ab-12_c d"), "embedded-browser-ab-12-c-d");
    assert_eq!(embedded_label("会话"), "embedded-browser---");
}

#[test]
fn browser_urls_must_be_http() {
    let ok = parse_https_url("https://example.com/a").ok().unwrap();
    assert_eq!(ok.scheme, "https");
    let err = parse_https_url("file:///etc/passwd").err().unwrap();
    assert_eq!(err.to_message(), "Embedded browser only supports HTTP(S) URLs, got file");
    assert!(parse_https_url("not a url")
        .err()
        .unwrap()
        .to_message()
        .starts_with("Invalid browser URL: "));
    let refused = check_browser_url(Ok(ParsedUrl { href: "ftp://x/".into(), scheme: "ftp".into() }));
    assert!(refused.is_err());
}

#[test]
fn git_status_flags_route_files() {
    assert_eq!(classify_index_status(INDEX_NEW | INDEX_MODIFIED), Some("added"));
    assert_eq!(classify_workdir_status(WT_MODIFIED), Some("modified"));
    assert_eq!(classify_workdir_status(0), None);
    let untracked = place_status(WT_NEW);
    assert!(untracked.untracked);
    assert!(untracked.staged.is_none() && untracked.unstaged.is_none());
    let both = place_status(INDEX_MODIFIED | WT_MODIFIED);
    assert!(!both.untracked);
    assert_eq!(both.staged, Some("modified"));
    assert_eq!(both.unstaged, Some("modified"));
    let s = empty_status();
    assert!(!s.is_repo);
    assert_eq!(s.branch, "");
    assert_eq!(git_error_message("  ", " out ", "1"), "out");
    assert_eq!(git_error_message("", "", "exit status: 2"), "git exited with status exit status: 2");
    assert_eq!(
        require_nonblank("  ", "Commit message cannot be empty"),
        Err("Commit message cannot be empty".to_string())
    );
}

fn hook(id: &str) -> HookConfig {
    HookConfig {
        id: id.into(),
        name: id.into(),
        event: "task_done".into(),
        action: HookAction::EmitEvent { event_name: "e".into() },
        enabled: true,
        filter: None,
    }
}

#[test]
fn hooks_are_updated_and_deleted_by_id() {
    let mut hooks = vec![hook("a"), hook("b"), hook("a")];
    let mut changed = hook("b");
    changed.enabled = false;
    assert_eq!(update_hook(&mut hooks, "b", changed), Ok(()));
    assert!(!hooks[1].enabled);
    assert_eq!(update_hook(&mut hooks, "z", hook("z")), Err("Hook 'z' not found".to_string()));
    assert_eq!(delete_hook(&mut hooks, "a"), Ok(()));
    assert_eq!(hooks.len(), 1);
    assert_eq!(delete_hook(&mut hooks, "a"), Err("Hook 'a' not found".to_string()));
    assert_eq!(emit_event_test_message("x"), "Would emit Tauri event 'x' with mock payload");
    assert_eq!(
        auto_commit_test_message("{task_title} for {req_id}"),
        "AutoGitCommit test: would run `git add -A && git commit -m \"test-task for TEST-0\"`"
    );
}

#[test]
fn drain_clears_queue() {
    let mut q = InterjectionQueue::new();
    q.queue_interjection("s1", "hi", 0).ok().unwrap();
    let drained = q.drain_for_session("s1");
    assert_eq!(drained.len(), 1);
    let drained_again = q.drain_for_session("s1");
    assert!(drained_again.is_empty());
}

#[test]
fn interjections_are_trimmed_and_kept_per_session() {
    let mut q = InterjectionQueue::new();
    assert!(q.queue_interjection("s1", "   ", 1).is_err());
    q.queue_interjection("s1", "  first ", 2).ok().unwrap();
    q.queue_interjection("s2", "other", 3).ok().unwrap();
    q.queue_interjection("s1", "second", 4).ok().unwrap();
    let listed = q.list_interjections("s1");
    assert_eq!(listed.len(), 2);
    assert_eq!(listed[0].message, "first");
    assert_eq!(listed[1].at, 4);
    assert_eq!(q.drain_for_session("s2").len(), 1);
    assert_eq!(q.list_interjections("s1").len(), 2);
}

#[test]
fn memory_lives_under_codefactory() {
    assert_eq!(memory_path("/w"), "/w/.codefactory/memory.md");
    let m = missing_memory("/w");
    assert!(!m.exists);
    assert_eq!(m.content, "");
}
