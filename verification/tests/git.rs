use codefactory::git::{
    branch_label, branch_order, history_commit, log_limit, repo_status, tracks_upstream,
    GitBranch, INDEX_MODIFIED, INDEX_NEW, WT_MODIFIED, WT_NEW,
};

fn branch(name: &str, is_current: bool, is_remote: bool) -> GitBranch {
    GitBranch { name: name.to_string(), is_current, is_remote, upstream: None }
}

#[test]
fn status_entries_are_routed_to_their_lists() {
    let entries = vec![
        ("new.txt".to_string(), WT_NEW),
        ("both.rs".to_string(), INDEX_MODIFIED | WT_MODIFIED),
        ("added.rs".to_string(), INDEX_NEW | WT_NEW),
        ("".to_string(), WT_MODIFIED),
    ];
    let s = repo_status("main".to_string(), Some("origin/main".to_string()), 1, 2, &entries);
    assert!(s.is_repo);
    assert_eq!(s.untracked, vec!["new.txt".to_string()]);
    let staged: Vec<(String, String)> = s.staged.iter().map(|c| (c.path.clone(), c.status.clone())).collect();
    assert_eq!(
        staged,
        vec![("both.rs".to_string(), "modified".to_string()), ("added.rs".to_string(), "added".to_string())]
    );
    let unstaged: Vec<(String, String)> = s.unstaged.iter().map(|c| (c.path.clone(), c.status.clone())).collect();
    assert_eq!(
        unstaged,
        vec![("both.rs".to_string(), "modified".to_string()), ("added.rs".to_string(), "added".to_string())]
    );
}

#[test]
fn branch_labels_cover_detached_and_empty_repositories() {
    assert_eq!(branch_label(Some(Some("dev".to_string()))), "dev");
    assert_eq!(branch_label(Some(None)), "(detached)");
    assert_eq!(branch_label(None), "(no commits yet)");
    assert!(tracks_upstream("dev"));
    assert!(!tracks_upstream("(detached)"));
}

#[test]
fn history_shows_subject_and_short_hash() {
    assert_eq!(log_limit(0), 50);
    assert_eq!(log_limit(7), 7);
    let c = history_commit(
        "0123456789abcdef".to_string(),
        "Ann".to_string(),
        "ann@example.com".to_string(),
        1_700_000_000,
        "Fix login\n\nLonger body".to_string(),
    );
    assert_eq!(c.short_hash, "0123456");
    assert_eq!(c.message, "Fix login");
    assert_eq!(c.message_body, "Fix login\n\nLonger body");
    assert_eq!(history_commit("h".to_string(), String::new(), String::new(), 0, String::new()).message, "");
}

#[test]
fn branches_list_current_then_locals_then_remotes() {
    let branches = vec![
        branch("origin/main", false, true),
        branch("zeta", false, false),
        branch("Alpha", false, false),
        branch("main", true, false),
        branch("origin/Dev", false, true),
    ];
    let order: Vec<String> = branch_order(&branches).into_iter().map(|i| branches[i].name.clone()).collect();
    assert_eq!(order, vec!["main", "Alpha", "zeta", "origin/Dev", "origin/main"]);
}
