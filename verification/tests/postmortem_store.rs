use codefactory::learning::{plan_postmortem_candidates, postmortem_scope, PostmortemEntry};

fn proposal(suggestion: &str, kind: Option<&str>, key: Option<&str>, value: Option<&str>) -> PostmortemEntry {
    PostmortemEntry {
        observation: "seen in session".to_string(),
        suggestion: suggestion.to_string(),
        kind: kind.map(|s| s.to_string()),
        pref_key: key.map(|s| s.to_string()),
        pref_value: value.map(|s| s.to_string()),
    }
}

#[test]
fn duplicate_suggestions_are_stored_once() {
    let mut seen = vec!["already known".to_string()];
    let planned = plan_postmortem_candidates(
        vec![
            proposal("Run the tests first", None, None, None),
            proposal("  run   the TESTS first ", None, None, None),
            proposal("Already   KNOWN", None, None, None),
            proposal("", None, None, None),
        ],
        &mut seen,
    );
    assert_eq!(planned.len(), 1);
    assert_eq!(planned[0].suggestion, "Run the tests first");
    assert_eq!(planned[0].kind, "memory");
    assert_eq!(seen, vec!["already known".to_string(), "run the tests first".to_string()]);
}

#[test]
fn preferences_need_a_valid_key() {
    let mut seen = Vec::new();
    let planned = plan_postmortem_candidates(
        vec![
            proposal("Prefer short answers", Some("preference"), Some(" response_language "), Some(" zh ")),
            proposal("Use tabs", Some("preference"), Some("Bad Key"), Some("tabs")),
        ],
        &mut seen,
    );
    assert_eq!(planned.len(), 2);
    assert_eq!(planned[0].kind, "preference");
    assert_eq!(planned[0].pref_key.as_deref(), Some("response_language"));
    assert_eq!(planned[0].pref_value.as_deref(), Some("zh"));
    assert_eq!(planned[1].kind, "memory");
    assert_eq!(planned[1].pref_key, None);
}

#[test]
fn postmortem_scope_follows_the_session() {
    let session = Some(("/project-a".to_string(), "chat".to_string()));
    assert_eq!(postmortem_scope("s", session, "/project-a").unwrap().as_deref(), Some("/project-a"));
    let session = Some(("/project-a".to_string(), "chat".to_string()));
    assert_eq!(
        postmortem_scope("s", session, "/project-b").unwrap_err().to_message(),
        "post-mortem scope mismatch for session s"
    );
    let anon = Some(("/anonymous".to_string(), "anonymous".to_string()));
    assert_eq!(postmortem_scope("a", anon, "/anonymous").unwrap(), None);
    assert_eq!(
        postmortem_scope("x", None, "/p").unwrap_err().to_message(),
        "session x not found for post-mortem"
    );
}
