//! Remote Git collaboration: configured remotes as the UI sees them, and
//! the decisions behind a workspace's delivery status (which pull request,
//! which repository, whether a release contains the merge).
use vstd::prelude::*;
use crate::forge::{
    before_first, classify_forge, classify_forge_spec, first_index, remote_host, remote_host_spec,
    remote_repo_path, remote_repo_path_spec, ForgeFamily,
};
use crate::evidence::text_lines;
use crate::json::{json_as_bool, json_as_str, json_as_u64, json_get, Json};
use crate::requests::DeliveryChannelStatus;
use crate::settings::{copy_opt, opt_view};
use crate::text::{
    chars_of, contains, contains_chars, owned, push_str, slice_chars, str_eq,
    string_of, trim, trim_bounds, u64_string,
};

verus! {

broadcast use vstd::string::group_string_axioms;

/// The service a remote is hosted on.
#[derive(Debug, Clone, Copy, PartialEq, Eq, Structural)]
pub enum GitProvider {
    Github,
    Gitlab,
}

/// A configured remote.
#[derive(Debug)]
pub struct GitRemoteConfig {
    pub id: String,
    pub name: String,
    pub provider: GitProvider,
    pub base_url: String,
    pub token_ref: Option<String>,
    pub token: String,
    pub default_repo: Option<String>,
}

/// Whether the GitHub CLI is installed and signed in.
#[derive(Debug, Clone, Copy, PartialEq, Eq, Structural)]
pub struct GithubCliCredentialStatus {
    pub installed: bool,
    pub authenticated: bool,
}

/// A remote as the UI lists it: no secret, only whether one is held.
#[derive(Debug)]
pub struct GitRemoteView {
    pub id: String,
    pub name: String,
    pub provider: GitProvider,
    pub base_url: String,
    pub token_ref: Option<String>,
    pub default_repo: Option<String>,
    pub has_token: bool,
}

/// A request to add a remote.
#[derive(Debug)]
pub struct AddGitRemoteRequest {
    pub name: String,
    pub provider: GitProvider,
    pub base_url: String,
    pub token: String,
    pub default_repo: Option<String>,
}

/// A remote holds a token when it names a stored secret or carries a
/// non-blank one.
pub open spec fn has_token_spec(cfg: GitRemoteConfig) -> bool {
    cfg.token_ref is Some || trim(cfg.token@).len() > 0
}

/// The listing of a remote.
pub fn remote_view(cfg: &GitRemoteConfig) -> (v: GitRemoteView)
    ensures
        v.id@ == cfg.id@,
        v.name@ == cfg.name@,
        v.provider == cfg.provider,
        v.base_url@ == cfg.base_url@,
        opt_view(v.token_ref) == opt_view(cfg.token_ref),
        opt_view(v.default_repo) == opt_view(cfg.default_repo),
        v.has_token == has_token_spec(*cfg),
{
    let tv = chars_of(cfg.token.as_str());
    let (a, b) = trim_bounds(tv.as_slice());
    GitRemoteView {
        id: cfg.id.clone(),
        name: cfg.name.clone(),
        provider: cfg.provider,
        base_url: cfg.base_url.clone(),
        token_ref: copy_opt(&cfg.token_ref),
        default_repo: copy_opt(&cfg.default_repo),
        has_token: cfg.token_ref.is_some() || a < b,
    }
}

/// What a remote API client is made of.
#[derive(Debug)]
pub struct RemoteGitClient {
    pub base_url: String,
    pub token: String,
    pub provider: GitProvider,
}

/// A client for a remote, given the outcome of resolving its token; a
/// failed resolution is the error.
pub fn make_client(cfg: &GitRemoteConfig, token: Result<String, String>) -> (r: Result<
    RemoteGitClient,
    String,
>)
    ensures
        match token {
            Ok(t) => r matches Ok(c) && c.base_url@ == cfg.base_url@ && c.token@ == t@ && c.provider
                == cfg.provider,
            Err(e) => r matches Err(m) && m@ == e@,
        },
{
    match token {
        Ok(t) => Ok(RemoteGitClient { base_url: cfg.base_url.clone(), token: t, provider: cfg.provider }),
        Err(e) => Err(e),
    }
}

/// The configuration stored for a new remote, with the token trimmed and
/// held under `token_ref`; a blank token is refused.
pub fn prepare_git_remote(request: AddGitRemoteRequest, id: String, token_ref: String) -> (r: Result<
    (GitRemoteConfig, String),
    String,
>)
    ensures
        trim(request.token@).len() == 0 <==> r is Err,
        r matches Err(m) ==> m@ == "Git remote token is required."@,
        r matches Ok(p) ==> {
            &&& p.1@ == trim(request.token@)
            &&& p.0.id@ == id@
            &&& p.0.name@ == request.name@
            &&& p.0.provider == request.provider
            &&& p.0.base_url@ == request.base_url@
            &&& opt_view(p.0.token_ref) == Some(token_ref@)
            &&& p.0.token@ == Seq::<char>::empty()
            &&& opt_view(p.0.default_repo) == opt_view(request.default_repo)
        },
{
    let tv = chars_of(request.token.as_str());
    let (a, b) = trim_bounds(tv.as_slice());
    if a == b {
        return Err(owned("Git remote token is required."));
    }
    let trimmed = slice_chars(&tv, a, b);
    let token = string_of(trimmed.as_slice());
    let config = GitRemoteConfig {
        id,
        name: request.name,
        provider: request.provider,
        base_url: request.base_url,
        token_ref: Some(token_ref),
        token: String::new(),
        default_repo: request.default_repo,
    };
    Ok((config, token))
}

// ── Workspace delivery status ────────────────────────────────────────────

/// The pull request a delivery belongs to.
#[derive(Debug)]
pub struct WorkspaceDeliveryPr {
    pub number: u64,
    pub title: String,
    pub state: String,
    pub draft: bool,
    pub head_branch: String,
    pub base_branch: String,
    pub head_sha: String,
    pub merge_commit_sha: Option<String>,
    pub url: String,
}

/// The release that ships a delivery.
#[derive(Debug)]
pub struct WorkspaceRelease {
    pub tag: String,
    pub url: String,
    pub published_at: String,
}

/// The delivery status of a workspace.
#[derive(Debug)]
pub struct WorkspaceDeliverySnapshot {
    pub remote_available: bool,
    pub pr: Option<WorkspaceDeliveryPr>,
    pub ci_status: String,
    pub release: Option<WorkspaceRelease>,
    pub error: Option<String>,
}

/// How the pull request of a delivery is found.
#[derive(Debug, Clone, Copy, PartialEq, Eq)]
pub enum DeliveryLookup<'a> {
    Number(u64),
    Branch(&'a str),
}

/// A known pull request number wins over the current branch.
pub fn delivery_lookup<'a>(pr_number: u64, branch: &'a str) -> (r: DeliveryLookup<'a>)
    ensures
        pr_number > 0 ==> r == DeliveryLookup::Number(pr_number),
        pr_number == 0 ==> r == DeliveryLookup::Branch(branch),
{
    if pr_number > 0 {
        DeliveryLookup::Number(pr_number)
    } else {
        DeliveryLookup::Branch(branch)
    }
}

/// The text of string entry `key`, empty when missing or not a string.
pub open spec fn str_field(v: Json, key: Seq<char>) -> Seq<char> {
    match json_get(v, key) {
        Some(x) => match json_as_str(x) {
            Some(s) => s,
            None => Seq::empty(),
        },
        None => Seq::empty(),
    }
}

/// The text of entry `k2` of object entry `k1`.
pub open spec fn nested_str(v: Json, k1: Seq<char>, k2: Seq<char>) -> Seq<char> {
    match json_get(v, k1) {
        Some(x) => str_field(x, k2),
        None => Seq::empty(),
    }
}

pub open spec fn opt_str_field(v: Json, key: Seq<char>) -> Option<Seq<char>> {
    match json_get(v, key) {
        Some(x) => json_as_str(x),
        None => None,
    }
}

fn str_field_exec(v: &Json, key: &str) -> (r: String)
    ensures
        r@ == str_field(*v, key@),
{
    match v.get(key) {
        Some(x) => match x.as_str() {
            Some(s) => owned(s),
            None => String::new(),
        },
        None => String::new(),
    }
}

fn nested_str_exec(v: &Json, k1: &str, k2: &str) -> (r: String)
    ensures
        r@ == nested_str(*v, k1@, k2@),
{
    match v.get(k1) {
        Some(x) => str_field_exec(x, k2),
        None => String::new(),
    }
}

/// A GitHub pull request object as the delivery status reports it: a PR
/// with a merge time is `merged`, whatever its state says.
pub fn parse_github_delivery_pr(value: &Json) -> (pr: WorkspaceDeliveryPr)
    ensures
        pr.number == match json_get(*value, "number"@) {
            Some(x) => match json_as_u64(x) {
                Some(n) => n,
                None => 0,
            },
            None => 0,
        },
        pr.title@ == str_field(*value, "title"@),
        pr.state@ == if opt_str_field(*value, "merged_at"@) is Some {
            "merged"@
        } else {
            str_field(*value, "state"@)
        },
        pr.draft == match json_get(*value, "draft"@) {
            Some(x) => match json_as_bool(x) {
                Some(b) => b,
                None => false,
            },
            None => false,
        },
        pr.head_branch@ == nested_str(*value, "head"@, "ref"@),
        pr.base_branch@ == nested_str(*value, "base"@, "ref"@),
        pr.head_sha@ == nested_str(*value, "head"@, "sha"@),
        opt_view(pr.merge_commit_sha) == opt_str_field(*value, "merge_commit_sha"@),
        pr.url@ == str_field(*value, "html_url"@),
{
    let merged = match value.get("merged_at") {
        Some(x) => x.as_str().is_some(),
        None => false,
    };
    let number = match value.get("number") {
        Some(x) => match x.as_u64() {
            Some(n) => n,
            None => 0,
        },
        None => 0,
    };
    let draft = match value.get("draft") {
        Some(x) => match x.as_bool() {
            Some(b) => b,
            None => false,
        },
        None => false,
    };
    let merge_commit_sha = match value.get("merge_commit_sha") {
        Some(x) => match x.as_str() {
            Some(s) => Some(owned(s)),
            None => None,
        },
        None => None,
    };
    WorkspaceDeliveryPr {
        number,
        title: str_field_exec(value, "title"),
        state: if merged {
            owned("merged")
        } else {
            str_field_exec(value, "state")
        },
        draft,
        head_branch: nested_str_exec(value, "head", "ref"),
        base_branch: nested_str_exec(value, "base", "ref"),
        head_sha: nested_str_exec(value, "head", "sha"),
        merge_commit_sha,
        url: str_field_exec(value, "html_url"),
    }
}

/// A comparison from the merge commit to the release tag proves the release
/// contains the merge only when the tag is ahead of it or identical.
pub fn compare_proves_release_contains_merge(status: &str) -> (b: bool)
    ensures
        b == (status@ == "ahead"@ || status@ == "identical"@),
{
    str_eq(status, "ahead") || str_eq(status, "identical")
}

/// `owner/repo` from a repository path: its first two `/`-separated parts.
pub open spec fn owner_repo(path: Seq<char>) -> Option<Seq<char>> {
    match first_index(path, '/') {
        Some(i) => Some(path.take(i) + "/"@ + before_first(path.skip(i + 1), '/')),
        None => None,
    }
}

pub open spec fn other_forge_message(family: ForgeFamily, host: Seq<char>) -> Seq<char> {
    "当前 remote 是 "@ + family.spec_label() + "("@ + host
        + ")，workspace_delivery_status 尚未内置该平台状态查询；请配置 delivery_provider hook，不能按 GitHub 状态判断上线。"@
}

/// `(host, owner/repo)` of a GitHub remote; a remote of another forge is
/// refused with a message that points to a delivery provider hook.
pub open spec fn github_repo_spec(origin: Seq<char>) -> Result<(Seq<char>, Seq<char>), Seq<char>> {
    match remote_host_spec(origin) {
        None => Err("无法从 Git remote 解析 host"@),
        Some(host) => if classify_forge_spec(origin) != ForgeFamily::Github {
            Err(other_forge_message(classify_forge_spec(origin), host))
        } else {
            match remote_repo_path_spec(origin) {
                Some(p) => match owner_repo(p) {
                    Some(r) => Ok((host, r)),
                    None => Err("无法从 remote 解析 GitHub owner/repo"@),
                },
                None => Err("无法从 remote 解析 GitHub owner/repo"@),
            }
        },
    }
}

pub open spec fn repo_result_view(r: Result<(String, String), String>) -> Result<
    (Seq<char>, Seq<char>),
    Seq<char>,
> {
    match r {
        Ok(p) => Ok((p.0@, p.1@)),
        Err(e) => Err(e@),
    }
}

fn first_index_str(s: &Vec<char>, c: char) -> (r: Option<usize>)
    ensures
        match r {
            Some(i) => first_index(s@, c) == Some(i as int) && i < s@.len(),
            None => first_index(s@, c) is None,
        },
{
    let mut i: usize = 0;
    proof {
        assert(s@.skip(0) =~= s@);
    }
    while i < s.len()
        invariant
            i <= s@.len(),
            first_index(s@, c) == match first_index(s@.skip(i as int), c) {
                Some(j) => Some(j + i),
                None => None,
            },
        decreases s@.len() - i,
    {
        proof {
            assert(s@.skip(i as int)[0] == s@[i as int]);
            assert(s@.skip(i as int).drop_first() =~= s@.skip(i + 1));
        }
        if s[i] == c {
            return Some(i);
        }
        i = i + 1;
    }
    proof {
        assert(s@.skip(i as int) =~= Seq::<char>::empty());
    }
    None
}

fn owner_repo_exec(path: &str) -> (r: Option<String>)
    ensures
        opt_view(r) == owner_repo(path@),
{
    let v = chars_of(path);
    let n = v.len();
    match first_index_str(&v, '/') {
        None => None,
        Some(i) => {
            let rest = slice_chars(&v, i + 1, n);
            assert(rest@ =~= v@.skip(i + 1));
            let second = match first_index_str(&rest, '/') {
                Some(j) => {
                    let s = slice_chars(&rest, 0, j);
                    assert(s@ =~= rest@.take(j as int));
                    s
                },
                None => {
                    let s = slice_chars(&rest, 0, rest.len());
                    assert(s@ =~= rest@);
                    s
                },
            };
            let first = slice_chars(&v, 0, i);
            assert(first@ =~= v@.take(i as int));
            let mut r = string_of(first.as_slice());
            push_str(&mut r, "/");
            let s = string_of(second.as_slice());
            push_str(&mut r, s.as_str());
            Some(r)
        },
    }
}

/// The host and `owner/repo` of a GitHub remote URL.
pub fn github_repo_from_remote_url(origin: &str) -> (r: Result<(String, String), String>)
    ensures
        repo_result_view(r) == github_repo_spec(origin@),
{
    let host = match remote_host(origin) {
        Some(h) => h,
        None => return Err(owned("无法从 Git remote 解析 host")),
    };
    let family = classify_forge(origin);
    if family != ForgeFamily::Github {
        let mut m = owned("当前 remote 是 ");
        push_str(&mut m, family.label());
        push_str(&mut m, "(");
        push_str(&mut m, host.as_str());
        push_str(
            &mut m,
            ")，workspace_delivery_status 尚未内置该平台状态查询；请配置 delivery_provider hook，不能按 GitHub 状态判断上线。",
        );
        return Err(m);
    }
    match remote_repo_path(origin) {
        Some(p) => match owner_repo_exec(p.as_str()) {
            Some(repo) => Ok((host, repo)),
            None => Err(owned("无法从 remote 解析 GitHub owner/repo")),
        },
        None => Err(owned("无法从 remote 解析 GitHub owner/repo")),
    }
}

/// The GitHub repository of a workspace, given the outcome of reading its
/// remote URL.
pub fn github_owner_repo(origin: Result<String, String>) -> (r: Result<(String, String), String>)
    ensures
        match origin {
            Ok(url) => repo_result_view(r) == github_repo_spec(url@),
            Err(e) => repo_result_view(r) == Err::<(Seq<char>, Seq<char>), Seq<char>>(e@),
        },
{
    match origin {
        Ok(url) => github_repo_from_remote_url(url.as_str()),
        Err(e) => Err(e),
    }
}

/// The branch and PR number a delivery is looked up by: those recorded for
/// the session (a negative number counting as none), otherwise the ones
/// given; an empty branch and 0 when there are neither.
pub fn effective_delivery_ref(
    stored: Option<(String, i64)>,
    branch: Option<String>,
    pr_number: Option<u64>,
) -> (r: (String, u64))
    ensures
        r.0@ == match stored {
            Some(row) => row.0@,
            None => match branch {
                Some(b) => b@,
                None => Seq::empty(),
            },
        },
        r.1 == match stored {
            Some(row) => if row.1 > 0 {
                row.1 as u64
            } else {
                0
            },
            None => match pr_number {
                Some(n) => n,
                None => 0,
            },
        },
{
    match stored {
        Some((b, n)) => {
            let num: u64 = if n > 0 {
                n as u64
            } else {
                0
            };
            (b, num)
        },
        None => {
            let b = match branch {
                Some(b) => b,
                None => String::new(),
            };
            let num = match pr_number {
                Some(n) => n,
                None => 0,
            };
            (b, num)
        },
    }
}

pub open spec fn api_base_spec(host: Seq<char>) -> Seq<char> {
    if host == "github.com"@ {
        "https://api.github.com"@
    } else {
        "https://"@ + host + "/api/v3"@
    }
}

/// The REST API base of a GitHub host (GitHub Enterprise serves it under
/// `/api/v3`).
pub fn github_api_base(host: &str) -> (r: String)
    ensures
        r@ == api_base_spec(host@),
{
    if str_eq(host, "github.com") {
        owned("https://api.github.com")
    } else {
        let mut r = owned("https://");
        push_str(&mut r, host);
        push_str(&mut r, "/api/v3");
        r
    }
}

pub open spec fn serves_repo(r: GitRemoteConfig, repo: Seq<char>) -> bool {
    r.provider == GitProvider::Github && opt_view(r.default_repo) == Some(repo)
}

pub open spec fn on_host(r: GitRemoteConfig, host: Seq<char>) -> bool {
    r.provider == GitProvider::Github && contains(r.base_url@, host)
}

/// Whether remote `r` is acceptable at preference `tier`: the repository
/// on the host, then the repository anywhere, then any GitHub remote on the
/// host.
pub open spec fn tier_ok(r: GitRemoteConfig, tier: int, host: Seq<char>, repo: Seq<char>) -> bool {
    if tier == 0 {
        serves_repo(r, repo) && contains(r.base_url@, host)
    } else if tier == 1 {
        serves_repo(r, repo)
    } else {
        on_host(r, host)
    }
}

/// Index of the first remote acceptable at `tier`.
pub open spec fn first_at_tier(
    rs: Seq<GitRemoteConfig>,
    tier: int,
    host: Seq<char>,
    repo: Seq<char>,
) -> Option<int> {
    if exists|i: int| 0 <= i < rs.len() && tier_ok(rs[i], tier, host, repo) {
        Some(
            choose|i: int|
                0 <= i < rs.len() && tier_ok(rs[i], tier, host, repo) && forall|k: int|
                    0 <= k < i ==> !tier_ok(rs[k], tier, host, repo),
        )
    } else {
        None
    }
}

pub open spec fn login_hint(host: Seq<char>) -> Seq<char> {
    if host == "github.com"@ {
        "gh auth login"@
    } else {
        "gh auth login --hostname "@ + host
    }
}

pub open spec fn no_remote_message(host: Seq<char>, repo: Seq<char>) -> Seq<char> {
    "GitHub remote 状态不可用：请运行 `"@ + login_hint(host) + "`，或为 "@ + host + "/"@ + repo
        + " 配置远程仓库 token。"@
}

/// Which configured remote answers for a workspace's GitHub repository
/// when the GitHub CLI holds no token for its host.
pub open spec fn select_remote_spec(rs: Seq<GitRemoteConfig>, host: Seq<char>, repo: Seq<char>) -> Result<
    int,
    Seq<char>,
> {
    match first_at_tier(rs, 0, host, repo) {
        Some(i) => Ok(i),
        None => match first_at_tier(rs, 1, host, repo) {
            Some(i) => Ok(i),
            None => match first_at_tier(rs, 2, host, repo) {
                Some(i) => Ok(i),
                None => Err(no_remote_message(host, repo)),
            },
        },
    }
}

fn tier_ok_exec(r: &GitRemoteConfig, tier: u8, host: &str, repo: &str) -> (b: bool)
    requires
        tier <= 2,
    ensures
        b == tier_ok(*r, tier as int, host@, repo@),
{
    if r.provider != GitProvider::Github {
        return false;
    }
    let serves = match &r.default_repo {
        Some(d) => str_eq(d.as_str(), repo),
        None => false,
    };
    let bv = chars_of(r.base_url.as_str());
    let hv = chars_of(host);
    let on = contains_chars(bv.as_slice(), hv.as_slice());
    if tier == 0 {
        serves && on
    } else if tier == 1 {
        serves
    } else {
        on
    }
}

fn first_at_tier_exec(rs: &[GitRemoteConfig], tier: u8, host: &str, repo: &str) -> (r: Option<usize>)
    requires
        tier <= 2,
    ensures
        match r {
            Some(i) => first_at_tier(rs@, tier as int, host@, repo@) == Some(i as int),
            None => first_at_tier(rs@, tier as int, host@, repo@) is None,
        },
{
    let mut i: usize = 0;
    while i < rs.len()
        invariant
            i <= rs@.len(),
            tier <= 2,
            forall|k: int| 0 <= k < i ==> !tier_ok(#[trigger] rs@[k], tier as int, host@, repo@),
        decreases rs@.len() - i,
    {
        if tier_ok_exec(&rs[i], tier, host, repo) {
            proof {
                let c = choose|c: int|
                    0 <= c < rs@.len() && tier_ok(rs@[c], tier as int, host@, repo@) && forall|
                        k: int,
                    | 0 <= k < c ==> !tier_ok(rs@[k], tier as int, host@, repo@);
                assert(0 <= c < rs@.len() && tier_ok(rs@[c], tier as int, host@, repo@));
                if c < i {
                    assert(!tier_ok(rs@[c], tier as int, host@, repo@));
                }
                if c > i {
                    assert(!tier_ok(rs@[i as int], tier as int, host@, repo@));
                }
            }
            return Some(i);
        }
        i = i + 1;
    }
    None
}

/// Index of the remote that answers for `host`/`repo`, or the message that
/// tells the user how to give access.
pub fn select_workspace_remote(rs: &[GitRemoteConfig], host: &str, repo: &str) -> (r: Result<
    usize,
    String,
>)
    ensures
        match r {
            Ok(i) => select_remote_spec(rs@, host@, repo@) == Ok::<int, Seq<char>>(i as int),
            Err(m) => select_remote_spec(rs@, host@, repo@) == Err::<int, Seq<char>>(m@),
        },
{
    if let Some(i) = first_at_tier_exec(rs, 0, host, repo) {
        return Ok(i);
    }
    if let Some(i) = first_at_tier_exec(rs, 1, host, repo) {
        return Ok(i);
    }
    if let Some(i) = first_at_tier_exec(rs, 2, host, repo) {
        return Ok(i);
    }
    let mut m = owned("GitHub remote 状态不可用：请运行 `");
    if str_eq(host, "github.com") {
        push_str(&mut m, "gh auth login");
    } else {
        push_str(&mut m, "gh auth login --hostname ");
        push_str(&mut m, host);
    }
    push_str(&mut m, "`，或为 ");
    push_str(&mut m, host);
    push_str(&mut m, "/");
    push_str(&mut m, repo);
    push_str(&mut m, " 配置远程仓库 token。");
    assert(m@ =~= no_remote_message(host@, repo@));
    Err(m)
}

/// The API path that finds the pull request of a delivery: by number, or
/// the most recently updated one from the branch; none for an empty branch
/// or the main line.
pub open spec fn pr_request_path_spec(repo: Seq<char>, lookup: DeliveryLookup) -> Option<Seq<char>> {
    match lookup {
        DeliveryLookup::Number(n) => Some("/repos/"@ + repo + "/pulls/"@ + crate::text::decimal(n as nat)),
        DeliveryLookup::Branch(b) => if b@.len() == 0 || b@ == "main"@ || b@ == "master"@ {
            None
        } else {
            Some(
                "/repos/"@ + repo + "/pulls?state=all&head="@ + before_first(repo, '/') + ":"@ + b@
                    + "&sort=updated&direction=desc&per_page=1"@,
            )
        },
    }
}

pub fn pr_request_path(repo: &str, lookup: DeliveryLookup) -> (r: Option<String>)
    ensures
        opt_view(r) == pr_request_path_spec(repo@, lookup),
{
    match lookup {
        DeliveryLookup::Number(n) => {
            let mut p = owned("/repos/");
            push_str(&mut p, repo);
            push_str(&mut p, "/pulls/");
            let num = u64_string(n);
            push_str(&mut p, num.as_str());
            Some(p)
        },
        DeliveryLookup::Branch(b) => {
            let bv = chars_of(b);
            if bv.len() == 0 || str_eq(b, "main") || str_eq(b, "master") {
                return None;
            }
            let rv = chars_of(repo);
            let owner = match first_index_str(&rv, '/') {
                Some(i) => {
                    let s = slice_chars(&rv, 0, i);
                    assert(s@ =~= rv@.take(i as int));
                    s
                },
                None => {
                    let s = slice_chars(&rv, 0, rv.len());
                    assert(s@ =~= rv@);
                    s
                },
            };
            let mut p = owned("/repos/");
            push_str(&mut p, repo);
            push_str(&mut p, "/pulls?state=all&head=");
            let o = string_of(owner.as_slice());
            push_str(&mut p, o.as_str());
            push_str(&mut p, ":");
            push_str(&mut p, b);
            push_str(&mut p, "&sort=updated&direction=desc&per_page=1");
            Some(p)
        },
    }
}

/// The release that ships a merged pull request: the latest release, when
/// the comparison from the merge commit to its tag was obtained and proves
/// the tag contains the merge.
pub fn release_if_contains(latest: &Json, compare: Option<&Json>) -> (r: Option<WorkspaceRelease>)
    ensures
        match compare {
            None => r is None,
            Some(c) => {
                let s = str_field(*c, "status"@);
                if s == "ahead"@ || s == "identical"@ {
                    r matches Some(rel) && rel.tag@ == str_field(*latest, "tag_name"@) && rel.url@
                        == str_field(*latest, "html_url"@) && rel.published_at@ == str_field(
                        *latest,
                        "published_at"@,
                    )
                } else {
                    r is None
                }
            },
        },
{
    match compare {
        None => None,
        Some(c) => {
            let status = str_field_exec(c, "status");
            if compare_proves_release_contains_merge(status.as_str()) {
                Some(
                    WorkspaceRelease {
                        tag: str_field_exec(latest, "tag_name"),
                        url: str_field_exec(latest, "html_url"),
                        published_at: str_field_exec(latest, "published_at"),
                    },
                )
            } else {
                None
            }
        },
    }
}


/// The first line that is not blank.
pub open spec fn first_nonblank(lines: Seq<Seq<char>>) -> Option<Seq<char>>
    decreases lines.len(),
{
    if lines.len() == 0 {
        None
    } else if trim(lines[0]).len() > 0 {
        Some(lines[0])
    } else {
        first_nonblank(lines.drop_first())
    }
}

/// The remote a workspace's Git commands use, from the `git remote`
/// listing: `origin` when listed, else the first remote listed, else
/// `origin`.
pub open spec fn remote_name_spec(listing: Seq<char>) -> Seq<char> {
    let lines = text_lines(listing);
    if lines.contains("origin"@) {
        "origin"@
    } else {
        match first_nonblank(lines) {
            Some(l) => l,
            None => "origin"@,
        }
    }
}

pub fn default_remote_name(listing: &str) -> (r: String)
    ensures
        r@ == remote_name_spec(listing@),
{
    let lines = crate::evidence::split_lines(listing);
    let ghost lv = text_lines(listing@);
    let mut first: Option<usize> = None;
    let mut i: usize = 0;
    proof {
        assert(lv.skip(0) =~= lv);
    }
    while i < lines.len()
        invariant
            crate::order::string_views(lines@) == lv,
            lv == text_lines(listing@),
            i <= lines@.len(),
            forall|k: int| 0 <= k < i ==> lv[k] != "origin"@,
            match first {
                Some(k) => k < i && first_nonblank(lv) == Some(lv[k as int]),
                None => first_nonblank(lv) == first_nonblank(lv.skip(i as int)),
            },
        decreases lines@.len() - i,
    {
        proof {
            assert(crate::order::string_views(lines@)[i as int] == lines@[i as int]@);
            assert(lv.skip(i as int)[0] == lv[i as int]);
            assert(lv.skip(i as int).drop_first() =~= lv.skip(i + 1));
        }
        let line = lines[i].as_str();
        if str_eq(line, "origin") {
            proof {
                assert(lv[i as int] == "origin"@);
                assert(lv.contains("origin"@));
            }
            return owned("origin");
        }
        if first.is_none() && !crate::text::is_blank(line) {
            first = Some(i);
        }
        i = i + 1;
    }
    proof {
        assert(!lv.contains("origin"@));
    }
    match first {
        Some(k) => {
            proof {
                assert(crate::order::string_views(lines@)[k as int] == lines@[k as int]@);
            }
            lines[k].clone()
        },
        None => {
            proof {
                assert(lv.skip(i as int) =~= Seq::<Seq<char>>::empty());
            }
            owned("origin")
        },
    }
}

/// Which delivery channels are ready: the GitHub CLI (as probed) and a
/// configured GitHub remote with a REST token.
pub fn delivery_channel_status(gh_cli: bool, remotes: &Vec<GitRemoteConfig>) -> (r: DeliveryChannelStatus)
    ensures
        r.gh_cli == gh_cli,
        r.rest_token == exists|i: int| 0 <= i < remotes@.len() && remotes@[i].provider == GitProvider::Github,
{
    let mut found = false;
    let mut i: usize = 0;
    while i < remotes.len()
        invariant
            i <= remotes@.len(),
            found == exists|k: int| 0 <= k < i && remotes@[k].provider == GitProvider::Github,
        decreases remotes@.len() - i,
    {
        if remotes[i].provider == GitProvider::Github {
            found = true;
        }
        i = i + 1;
    }
    DeliveryChannelStatus { gh_cli, rest_token: found }
}

} // verus!
