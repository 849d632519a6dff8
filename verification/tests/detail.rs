use codefactory::detail::{redacted_job_detail, safe_detail};
use codefactory::json::Json;

fn object(entries: Vec<(&str, Json)>) -> Json {
    Json::Object(entries.into_iter().map(|(k, v)| (k.to_string(), v)).collect())
}

fn entries(j: &Json) -> &Vec<(String, Json)> {
    match j {
        Json::Object(f) => f,
        _ => panic!("detail is not an object"),
    }
}

fn value<'a>(j: &'a Json, key: &str) -> Option<&'a Json> {
    entries(j).iter().find(|(k, _)| k == key).map(|(_, v)| v)
}

#[test]
fn job_detail_keeps_only_allowlisted_scalars() {
    let detail = object(vec![
        ("session_count", Json::Int(3)),
        ("prompt", Json::Str("secret prompt".to_string())),
        ("status", Json::Str("done".to_string())),
        ("decision", Json::Array(vec![Json::Int(1)])),
        ("aggregate_only", Json::Bool(true)),
    ]);
    let out = redacted_job_detail(&detail);
    assert!(matches!(value(&out, "session_count"), Some(Json::Int(3))));
    assert!(value(&out, "prompt").is_none());
    assert!(value(&out, "decision").is_none());
    assert!(matches!(value(&out, "aggregate_only"), Some(Json::Bool(true))));
    assert!(matches!(value(&out, "status"), Some(Json::Str(s)) if s == "done"));
    assert!(matches!(value(&out, "schema_version"), Some(Json::Int(1))));
    assert_eq!(entries(&out).len(), 4);
}

#[test]
fn job_detail_redacts_and_bounds_text() {
    let long = "x".repeat(400);
    let detail = object(vec![
        ("error", Json::Str("Authorization: Bearer abc123".to_string())),
        ("reason", Json::Str(long)),
    ]);
    let out = redacted_job_detail(&detail);
    match value(&out, "error") {
        Some(Json::Str(s)) => assert!(!s.contains("abc123")),
        _ => panic!("error entry missing"),
    }
    match value(&out, "reason") {
        Some(Json::Str(s)) => assert_eq!(s.chars().count(), 160),
        _ => panic!("reason entry missing"),
    }
}

#[test]
fn an_existing_schema_version_is_kept() {
    let detail = object(vec![("schema_version", Json::Int(2))]);
    let out = safe_detail(&detail);
    assert_eq!(entries(&out).len(), 1);
    assert!(matches!(value(&out, "schema_version"), Some(Json::Int(2))));
}

#[test]
fn a_non_object_detail_keeps_only_the_schema_version() {
    let out = safe_detail(&Json::Str("oops".to_string()));
    assert_eq!(entries(&out).len(), 1);
    assert!(matches!(value(&out, "schema_version"), Some(Json::Int(1))));
}

#[test]
fn evolution_detail_uses_its_own_allowlist() {
    let detail = object(vec![
        ("verdict", Json::Str("passed".to_string())),
        ("session_count", Json::Int(9)),
        ("manifest_hash", Json::Null),
    ]);
    let out = safe_detail(&detail);
    assert!(matches!(value(&out, "verdict"), Some(Json::Str(s)) if s == "passed"));
    assert!(value(&out, "session_count").is_none());
    assert!(matches!(value(&out, "manifest_hash"), Some(Json::Null)));
}

fn to_value(j: &Json) -> serde_json::Value {
    match j {
        Json::Null => serde_json::Value::Null,
        Json::Bool(b) => serde_json::Value::Bool(*b),
        Json::Int(n) => serde_json::Value::from(*n),
        Json::UInt(n) => serde_json::Value::from(*n),
        Json::Decimal(t) => serde_json::from_str(t).unwrap_or(serde_json::Value::Null),
        Json::Str(s) => serde_json::Value::String(s.clone()),
        Json::Array(a) => serde_json::Value::Array(a.iter().map(to_value).collect()),
        Json::Object(f) => {
            let mut m = serde_json::Map::new();
            for (k, v) in f {
                m.insert(k.clone(), to_value(v));
            }
            serde_json::Value::Object(m)
        }
    }
}

#[test]
fn job_detail_drops_unknown_fields_and_bounds_allowed_errors() {
    let input = object(vec![
        ("reason", Json::Str("process_restart".to_string())),
        ("error", Json::Str(format!("password=CF_EVO_DETAIL_SECRET {}", "x".repeat(500)))),
        ("unknown_private_field", Json::Str("must not persist".to_string())),
    ]);
    let detail = to_value(&redacted_job_detail(&input)).to_string();
    assert!(detail.contains("process_restart"));
    assert!(detail.contains("<redacted>"));
    assert!(!detail.contains("CF_EVO_DETAIL_SECRET"));
    assert!(!detail.contains("unknown_private_field"));
    let parsed: serde_json::Value = serde_json::from_str(&detail).unwrap();
    assert!(parsed["error"].as_str().unwrap().chars().count() <= 160);
}
