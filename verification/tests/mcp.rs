use codefactory::json::Json;
use codefactory::mcp::{remove_server, set_server_enabled, upsert_server, McpServerConfig};

fn server(id: &str, enabled: bool, command: &str) -> McpServerConfig {
    McpServerConfig {
        id: id.to_string(),
        enabled,
        launch: Json::Object(vec![("command".to_string(), Json::Str(command.to_string()))]),
    }
}

fn ids(list: &[McpServerConfig]) -> Vec<String> {
    list.iter().map(|s| s.id.clone()).collect()
}

#[test]
fn adding_a_server_replaces_its_old_entry() {
    let mut list = vec![server("a", true, "x"), server("b", false, "y")];
    upsert_server(&mut list, server("a", false, "z"));
    assert_eq!(ids(&list), vec!["b".to_string(), "a".to_string()]);
    assert!(!list[1].enabled);
    assert!(matches!(&list[1].launch, Json::Object(f) if matches!(&f[0].1, Json::Str(c) if c == "z")));
}

#[test]
fn removing_a_server_drops_every_entry_with_its_id() {
    let mut list = vec![server("a", true, "x"), server("b", false, "y"), server("a", true, "w")];
    remove_server(&mut list, "a");
    assert_eq!(ids(&list), vec!["b".to_string()]);
    remove_server(&mut list, "missing");
    assert_eq!(ids(&list), vec!["b".to_string()]);
}

#[test]
fn enabling_needs_a_known_server_and_disabling_does_not() {
    let mut list = vec![server("a", false, "x")];
    assert!(set_server_enabled(&mut list, "a", true, true).is_ok());
    assert!(list[0].enabled);
    assert_eq!(
        set_server_enabled(&mut list, "zz", true, true).unwrap_err(),
        "MCP server 'zz' not found"
    );
    assert!(set_server_enabled(&mut list, "zz", false, false).is_ok());
    assert!(set_server_enabled(&mut list, "a", false, false).is_ok());
    assert!(!list[0].enabled);
}
