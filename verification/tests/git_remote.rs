use codefactory::git_remote::{default_remote_name, delivery_channel_status};
use codefactory::forge::{classify_forge, remote_host, remote_repo_path, ForgeFamily};
use codefactory::git_remote::{
    compare_proves_release_contains_merge, delivery_lookup, effective_delivery_ref,
    github_api_base, github_owner_repo, github_repo_from_remote_url, make_client,
    parse_github_delivery_pr, pr_request_path, prepare_git_remote, release_if_contains,
    remote_view, select_workspace_remote, AddGitRemoteRequest, DeliveryLookup, GitProvider,
    GitRemoteConfig,
};
use codefactory::json::Json;

fn object(entries: Vec<(&str, Json)>) -> Json {
    Json::Object(entries.into_iter().map(|(k, v)| (k.to_string(), v)).collect())
}

fn text(s: &str) -> Json {
    Json::Str(s.to_string())
}

#[test]
fn github_pr_snapshot_uses_head_sha_for_ci_and_real_merge_fields() {
    let value = object(vec![
        ("number", Json::Int(175)),
        ("title", text("Improve workspace")),
        ("state", text("closed")),
        ("draft", Json::Bool(false)),
        ("html_url", text("https://github.com/acme/repo/pull/175")),
        (
            "head",
            object(vec![("ref", text("feat/workspace-ui")), ("sha", text("head123"))]),
        ),
        ("base", object(vec![("ref", text("main"))])),
        ("merged_at", text("2026-07-23T10:00:00Z")),
        ("merge_commit_sha", text("merge456")),
    ]);
    let snapshot = parse_github_delivery_pr(&value);
    assert_eq!(snapshot.number, 175);
    assert_eq!(snapshot.state, "merged");
    assert_eq!(snapshot.head_sha, "head123");
    assert_eq!(snapshot.merge_commit_sha.as_deref(), Some("merge456"));
    assert_eq!(snapshot.head_branch, "feat/workspace-ui");
    assert_eq!(snapshot.base_branch, "main");
}

#[test]
fn open_pr_keeps_its_state_and_missing_fields_are_empty() {
    let value = object(vec![("state", text("open")), ("merged_at", Json::Null)]);
    let snapshot = parse_github_delivery_pr(&value);
    assert_eq!(snapshot.state, "open");
    assert_eq!(snapshot.number, 0);
    assert_eq!(snapshot.head_sha, "");
    assert!(!snapshot.draft);
    assert!(snapshot.merge_commit_sha.is_none());
}

#[test]
fn github_repo_from_remote_url_supports_enterprise_and_rejects_other_forges() {
    assert_eq!(
        github_repo_from_remote_url("git@github.corp.example:team/app.git").unwrap(),
        ("github.corp.example".into(), "team/app".into())
    );
    assert_eq!(
        github_repo_from_remote_url("https://github.com/acme/repo.git").unwrap(),
        ("github.com".into(), "acme/repo".into())
    );
    let err = github_repo_from_remote_url("git@gitlab.corp.example:platform/app.git")
        .expect_err("GitLab must not be handled as GitHub status");
    assert!(err.contains("GitLab"));
    assert!(err.contains("delivery_provider hook"));
    assert!(err.contains("不能按 GitHub 状态判断上线"));
}

#[test]
fn release_is_only_live_when_tag_contains_the_pr_merge_commit() {
    assert!(compare_proves_release_contains_merge("ahead"));
    assert!(compare_proves_release_contains_merge("identical"));
    assert!(!compare_proves_release_contains_merge("behind"));
    assert!(!compare_proves_release_contains_merge("diverged"));
}

#[test]
fn exact_pr_number_wins_over_current_branch_fallback() {
    assert_eq!(delivery_lookup(175, "main"), DeliveryLookup::Number(175));
    assert_eq!(
        delivery_lookup(0, "feat/workspace-ui"),
        DeliveryLookup::Branch("feat/workspace-ui")
    );
}

#[test]
fn remote_urls_are_read_in_both_spellings() {
    assert_eq!(remote_host("https://user@github.com:443/acme/repo").as_deref(), Some("github.com"));
    assert_eq!(remote_repo_path("https://github.com/acme/repo.git/").as_deref(), Some("acme/repo"));
    assert_eq!(remote_host("no-remote-here"), None);
    assert_eq!(classify_forge("git@GitLab.example:a/b"), ForgeFamily::Gitlab);
    assert_eq!(classify_forge("https://example.org/a/b"), ForgeFamily::Other);
    assert_eq!(
        github_repo_from_remote_url("https://github.com/acme").unwrap_err(),
        "无法从 remote 解析 GitHub owner/repo"
    );
    assert_eq!(
        github_owner_repo(Err("no remote".into())).unwrap_err(),
        "no remote"
    );
}

fn remote(id: &str, provider: GitProvider, base_url: &str, repo: Option<&str>) -> GitRemoteConfig {
    GitRemoteConfig {
        id: id.into(),
        name: id.into(),
        provider,
        base_url: base_url.into(),
        token_ref: None,
        token: "  ".into(),
        default_repo: repo.map(Into::into),
    }
}

#[test]
fn workspace_remote_prefers_repo_on_host_then_repo_then_host() {
    let remotes = vec![
        remote("host-only", GitProvider::Github, "https://ghe.example/api/v3", None),
        remote("repo-only", GitProvider::Github, "https://api.github.com", Some("team/app")),
        remote("lab", GitProvider::Gitlab, "https://ghe.example", Some("team/app")),
        remote("both", GitProvider::Github, "https://ghe.example/api/v3", Some("team/app")),
    ];
    assert_eq!(select_workspace_remote(&remotes, "ghe.example", "team/app"), Ok(3));
    assert_eq!(select_workspace_remote(&remotes, "other.example", "team/app"), Ok(1));
    assert_eq!(select_workspace_remote(&remotes, "ghe.example", "x/y"), Ok(0));
    let err = select_workspace_remote(&remotes, "nowhere.example", "x/y").unwrap_err();
    assert_eq!(
        err,
        "GitHub remote 状态不可用：请运行 `gh auth login --hostname nowhere.example`，或为 nowhere.example/x/y 配置远程仓库 token。"
    );
    let none: Vec<GitRemoteConfig> = Vec::new();
    assert_eq!(
        select_workspace_remote(&none, "github.com", "x/y").unwrap_err(),
        "GitHub remote 状态不可用：请运行 `gh auth login`，或为 github.com/x/y 配置远程仓库 token。"
    );
    assert_eq!(github_api_base("github.com"), "https://api.github.com");
    assert_eq!(github_api_base("ghe.example"), "https://ghe.example/api/v3");
}

#[test]
fn remote_view_hides_the_token() {
    let mut cfg = remote("r", GitProvider::Github, "https://api.github.com", None);
    assert!(!remote_view(&cfg).has_token);
    cfg.token = "secret".into();
    assert!(remote_view(&cfg).has_token);
    cfg.token = String::new();
    cfg.token_ref = Some("ref".into());
    let view = remote_view(&cfg);
    assert!(view.has_token);
    assert_eq!(view.token_ref.as_deref(), Some("ref"));
    let client = make_client(&cfg, Ok("tok".into())).unwrap();
    assert_eq!(client.token, "tok");
    assert_eq!(make_client(&cfg, Err("locked".into())).err().unwrap(), "locked");
}

#[test]
fn adding_a_remote_requires_a_token() {
    let request = AddGitRemoteRequest {
        name: "n".into(),
        provider: GitProvider::Gitlab,
        base_url: "https://gitlab.example".into(),
        token: "  t0k  ".into(),
        default_repo: None,
    };
    let (cfg, token) = prepare_git_remote(request, "id1".into(), "ref1".into()).unwrap();
    assert_eq!(token, "t0k");
    assert_eq!(cfg.token, "");
    assert_eq!(cfg.token_ref.as_deref(), Some("ref1"));
    let blank = AddGitRemoteRequest {
        name: "n".into(),
        provider: GitProvider::Github,
        base_url: "b".into(),
        token: "   ".into(),
        default_repo: None,
    };
    assert_eq!(
        prepare_git_remote(blank, "id2".into(), "ref2".into()).err().unwrap(),
        "Git remote token is required."
    );
}

#[test]
fn delivery_refs_and_request_paths() {
    assert_eq!(
        effective_delivery_ref(Some(("feat".into(), -3)), Some("other".into()), Some(9)),
        ("feat".to_string(), 0)
    );
    assert_eq!(
        effective_delivery_ref(None, Some("b".into()), Some(9)),
        ("b".to_string(), 9)
    );
    assert_eq!(
        pr_request_path("acme/repo", DeliveryLookup::Number(7)).as_deref(),
        Some("/repos/acme/repo/pulls/7")
    );
    assert_eq!(pr_request_path("acme/repo", DeliveryLookup::Branch("main")), None);
    assert_eq!(
        pr_request_path("acme/repo", DeliveryLookup::Branch("feat/x")).as_deref(),
        Some("/repos/acme/repo/pulls?state=all&head=acme:feat/x&sort=updated&direction=desc&per_page=1")
    );
}

#[test]
fn release_needs_a_containing_comparison() {
    let latest = object(vec![
        ("tag_name", text("v1.2.0")),
        ("html_url", text("https://github.com/acme/repo/releases/v1.2.0")),
        ("published_at", text("2026-07-24T00:00:00Z")),
    ]);
    let ahead = object(vec![("status", text("ahead"))]);
    let behind = object(vec![("status", text("behind"))]);
    let rel = release_if_contains(&latest, Some(&ahead)).unwrap();
    assert_eq!(rel.tag, "v1.2.0");
    assert!(release_if_contains(&latest, Some(&behind)).is_none());
    assert!(release_if_contains(&latest, None).is_none());
}

#[test]
fn default_remote_prefers_origin_then_the_first_listed() {
    assert_eq!(default_remote_name("upstream\norigin\n"), "origin");
    assert_eq!(default_remote_name("\n  \nupstream\nfork\n"), "upstream");
    assert_eq!(default_remote_name(""), "origin");
}

#[test]
fn delivery_channel_reports_cli_and_github_token() {
    let lab = vec![remote("lab", GitProvider::Gitlab, "https://gitlab.com", None)];
    let s = delivery_channel_status(true, &lab);
    assert!(s.gh_cli && !s.rest_token);
    let gh = vec![remote("gh", GitProvider::Github, "https://api.github.com", None)];
    assert!(delivery_channel_status(false, &gh).rest_token);
}
