//! The read-only control-plane snapshot: authority surfaces of a project,
//! the Git delivery probe, capability inventory and the risks they imply.
//!
//! What is observed on disk or from the `git` executable is handed in;
//! this module decides what the observations mean.
use vstd::prelude::*;
use crate::forge::{after_last, before_first, first_index, trim_end_char, trim_start_char};
use crate::learning::join_path;
use crate::order::string_views;
use crate::text::{
    chars_of, contains, decimal, int_decimal, join, join_strings, owned, push_str, slice_chars,
    str_eq, string_of, to_lowercase, trim, trim_bounds, trim_str, u64_string, i64_string,
    unicode_lowercase, views, contains_chars,
};

verus! {

broadcast use vstd::string::group_string_axioms;

/// How long one Git probe command may run.
pub const GIT_PROBE_TIMEOUT_MS: u64 = 2000;

/// State of one authority surface or capability.
#[derive(Debug, Clone, Copy, PartialEq, Eq, Structural)]
pub enum ControlPlaneStatus {
    Healthy,
    Missing,
    Warning,
}

/// One authority surface of a project.
#[derive(Debug)]
pub struct ControlPlaneItem {
    pub id: String,
    pub label: String,
    pub status: ControlPlaneStatus,
    pub path: Option<String>,
    pub detail: String,
}

/// Learning candidates by review state.
#[derive(Debug)]
pub struct MemoryProposalSummary {
    pub pending: i64,
    pub accepted: i64,
    pub rejected: i64,
    pub preference_pending: i64,
    pub latest_pending: Vec<String>,
}

/// One capability family and how much of it is enabled.
#[derive(Debug)]
pub struct CapabilitySummary {
    pub id: String,
    pub label: String,
    pub total: usize,
    pub enabled: usize,
    pub status: ControlPlaneStatus,
    pub detail: String,
}

/// How far the Git probe got.
#[derive(Debug, Clone, Copy, PartialEq, Eq, Structural)]
pub enum GitProbeStatus {
    Complete,
    Partial,
    NotRepository,
    Unavailable,
    NotChecked,
}

impl Default for GitProbeStatus {
    fn default() -> (s: Self)
        ensures
            s == GitProbeStatus::NotChecked,
    {
        GitProbeStatus::NotChecked
    }
}

/// Outcome of the Git probe: its status and which probes timed out or
/// failed.
#[derive(Debug)]
pub struct GitProbeSummary {
    pub status: GitProbeStatus,
    pub timeout_ms: u64,
    pub timed_out: Vec<String>,
    pub failed: Vec<String>,
}

impl Default for GitProbeSummary {
    fn default() -> (s: Self)
        ensures
            s.status == GitProbeStatus::NotChecked,
            s.timeout_ms == GIT_PROBE_TIMEOUT_MS,
            s.timed_out@.len() == 0,
            s.failed@.len() == 0,
    {
        GitProbeSummary {
            status: GitProbeStatus::NotChecked,
            timeout_ms: GIT_PROBE_TIMEOUT_MS,
            timed_out: Vec::new(),
            failed: Vec::new(),
        }
    }
}

/// The delivery gates of a project.
#[derive(Debug)]
pub struct DeliverySummary {
    pub git_branch: Option<String>,
    pub is_dirty: Option<bool>,
    pub dirty_count: Option<usize>,
    pub sync_gate_present: bool,
    pub sync_gate_configured: Option<bool>,
    pub release_workflow_present: bool,
    pub auto_release_present: bool,
    pub latest_release_tag: Option<String>,
    pub git_probe: GitProbeSummary,
}

/// A risk the snapshot reports.
#[derive(Debug)]
pub struct ControlPlaneRisk {
    pub id: String,
    pub severity: String,
    pub message: String,
}

/// The whole control-plane view.
#[derive(Debug)]
pub struct ControlPlaneSnapshot {
    pub generated_at: String,
    pub cwd: Option<String>,
    pub authority: Vec<ControlPlaneItem>,
    pub memory: MemoryProposalSummary,
    pub capabilities: Vec<CapabilitySummary>,
    pub delivery: DeliverySummary,
    pub risks: Vec<ControlPlaneRisk>,
}

// ── Authority surfaces ───────────────────────────────────────────────────

/// The last component of a `/`-separated path; `None` for a path that ends
/// in the root or in `..`.
pub open spec fn file_name(path: Seq<char>) -> Option<Seq<char>> {
    let name = after_last(trim_end_char(path, '/'), '/');
    if name.len() == 0 || name == ".."@ {
        None
    } else {
        Some(name)
    }
}

pub open spec fn name_or_surface(path: Seq<char>) -> Seq<char> {
    match file_name(path) {
        Some(n) => n,
        None => "surface"@,
    }
}

pub open spec fn status_of(found: bool) -> ControlPlaneStatus {
    if found {
        ControlPlaneStatus::Healthy
    } else {
        ControlPlaneStatus::Missing
    }
}

fn file_name_exec(path: &str) -> (r: String)
    ensures
        r@ == name_or_surface(path@),
{
    let v = chars_of(path);
    let mut b: usize = v.len();
    proof {
        assert(v@.take(b as int) =~= v@);
    }
    while b > 0 && v[b - 1] == '/'
        invariant
            b <= v@.len(),
            v@ == path@,
            trim_end_char(path@, '/') == trim_end_char(v@.take(b as int), '/'),
        decreases b,
    {
        proof {
            assert(v@.take(b as int).drop_last() =~= v@.take(b - 1));
        }
        b = b - 1;
    }
    let ghost t = v@.take(b as int);
    proof {
        assert(trim_end_char(t, '/') == t);
    }
    let mut a: usize = b;
    proof {
        assert(t.take(a as int) =~= t);
    }
    while a > 0 && v[a - 1] != '/'
        invariant
            a <= b <= v@.len(),
            t == v@.take(b as int),
            last_index_of_slash(t) == last_index_of_slash(t.take(a as int)),
        decreases a,
    {
        proof {
            assert(t.take(a as int).drop_last() =~= t.take(a - 1));
            assert(t.take(a as int).last() == v@[a - 1]);
        }
        a = a - 1;
    }
    let name = slice_chars(&v, a, b);
    proof {
        if a > 0 {
            assert(t.take(a as int).last() == '/');
            assert(last_index_of_slash(t) == Some(a - 1));
        } else {
            assert(last_index_of_slash(t) is None);
        }
        assert(name@ =~= after_last(t, '/'));
    }
    let dots = chars_of("..");
    if name.len() == 0 || crate::text::chars_eq(name.as_slice(), dots.as_slice()) {
        owned("surface")
    } else {
        string_of(name.as_slice())
    }
}

pub open spec fn last_index_of_slash(s: Seq<char>) -> Option<int> {
    crate::forge::last_index(s, '/')
}

/// The item for the surface at `path`, present or missing.
pub fn status_for_path(path: &str, found: bool, present_detail: &str, missing_detail: &str) -> (r:
    ControlPlaneItem)
    ensures
        r.id@ == name_or_surface(path@),
        r.label@ == name_or_surface(path@),
        r.status == status_of(found),
        r.path matches Some(p) && p@ == path@,
        r.detail@ == if found {
            present_detail@
        } else {
            missing_detail@
        },
{
    ControlPlaneItem {
        id: file_name_exec(path),
        label: file_name_exec(path),
        status: if found {
            ControlPlaneStatus::Healthy
        } else {
            ControlPlaneStatus::Missing
        },
        path: Some(owned(path)),
        detail: if found {
            owned(present_detail)
        } else {
            owned(missing_detail)
        },
    }
}

/// Which authority surfaces exist in a project.
#[derive(Debug, Clone, Copy)]
pub struct AuthorityPresence {
    pub agents_md: bool,
    pub repo_specs: bool,
    pub project_specs: bool,
    pub sync_gate: bool,
    pub release_cadence: bool,
}

/// An item by its contents.
pub type ItemView = (Seq<char>, Seq<char>, ControlPlaneStatus, Option<Seq<char>>, Seq<char>);

pub open spec fn item_view(i: ControlPlaneItem) -> ItemView {
    (i.id@, i.label@, i.status, crate::settings::opt_view(i.path), i.detail@)
}

pub open spec fn item_views(s: Seq<ControlPlaneItem>) -> Seq<ItemView> {
    s.map_values(|i: ControlPlaneItem| item_view(i))
}

pub open spec fn surface(
    id: Seq<char>,
    label: Seq<char>,
    path: Seq<char>,
    found: bool,
    present: Seq<char>,
    missing: Seq<char>,
) -> ItemView {
    (id, label, status_of(found), Some(path), if found {
        present
    } else {
        missing
    })
}

/// The five surfaces that govern a project, or a single warning when no
/// project is open.
pub open spec fn authority_spec(cwd: Option<Seq<char>>, p: AuthorityPresence) -> Seq<ItemView> {
    match cwd {
        None => seq![
            (
                "project-context"@,
                "Project context"@,
                ControlPlaneStatus::Warning,
                None,
                "No active project; open a workspace to scan project authority surfaces."@,
            ),
        ],
        Some(c) => seq![
            surface(
                "agents-md"@,
                "AGENTS.md"@,
                join_path(c, "AGENTS.md"@),
                p.agents_md,
                "Project agent rules are present."@,
                "Project agent rules are missing."@,
            ),
            surface(
                "repo-specs"@,
                "docs/specs"@,
                join_path(join_path(c, "docs"@), "specs"@),
                p.repo_specs,
                "Long-lived repo specs are present."@,
                "No docs/specs directory found."@,
            ),
            surface(
                "project-specs"@,
                ".codefactory/specs"@,
                join_path(join_path(c, ".codefactory"@), "specs"@),
                p.project_specs,
                "Project delivery contracts are present."@,
                "No project delivery contracts yet."@,
            ),
            surface(
                "sync-gate"@,
                ".githooks/pre-commit"@,
                join_path(join_path(c, ".githooks"@), "pre-commit"@),
                p.sync_gate,
                "Versioned sync-before-commit hook is present."@,
                "Sync-before-commit hook is missing."@,
            ),
            surface(
                "release-cadence"@,
                "release cadence"@,
                join_path(join_path(join_path(c, "docs"@), "principles"@), "release-cadence.md"@),
                p.release_cadence,
                "Release cadence principle is present."@,
                "Release cadence principle is missing."@,
            ),
        ],
    }
}

pub open spec fn opt_str(o: Option<&str>) -> Option<Seq<char>> {
    match o {
        Some(s) => Some(s@),
        None => None,
    }
}

fn surface_exec(
    id: &str,
    label: &str,
    path: String,
    found: bool,
    present: &str,
    missing: &str,
) -> (r: ControlPlaneItem)
    ensures
        item_view(r) == surface(id@, label@, path@, found, present@, missing@),
{
    let mut item = status_for_path(path.as_str(), found, present, missing);
    item.id = owned(id);
    item.label = owned(label);
    item
}

/// The authority surfaces of the open project.
pub fn authority_for_project(cwd: Option<&str>, presence: AuthorityPresence) -> (r: Vec<
    ControlPlaneItem,
>)
    ensures
        item_views(r@) == authority_spec(opt_str(cwd), presence),
{
    let mut items: Vec<ControlPlaneItem> = Vec::new();
    match cwd {
        None => {
            items.push(
                ControlPlaneItem {
                    id: owned("project-context"),
                    label: owned("Project context"),
                    status: ControlPlaneStatus::Warning,
                    path: None,
                    detail: owned(
                        "No active project; open a workspace to scan project authority surfaces.",
                    ),
                },
            );
        },
        Some(c) => {
            let p1 = crate::learning::join_path_str(c, "AGENTS.md");
            items.push(
                surface_exec(
                    "agents-md",
                    "AGENTS.md",
                    p1,
                    presence.agents_md,
                    "Project agent rules are present.",
                    "Project agent rules are missing.",
                ),
            );
            let d = crate::learning::join_path_str(c, "docs");
            let p2 = crate::learning::join_path_str(d.as_str(), "specs");
            items.push(
                surface_exec(
                    "repo-specs",
                    "docs/specs",
                    p2,
                    presence.repo_specs,
                    "Long-lived repo specs are present.",
                    "No docs/specs directory found.",
                ),
            );
            let cf = crate::learning::join_path_str(c, ".codefactory");
            let p3 = crate::learning::join_path_str(cf.as_str(), "specs");
            items.push(
                surface_exec(
                    "project-specs",
                    ".codefactory/specs",
                    p3,
                    presence.project_specs,
                    "Project delivery contracts are present.",
                    "No project delivery contracts yet.",
                ),
            );
            let gh = crate::learning::join_path_str(c, ".githooks");
            let p4 = crate::learning::join_path_str(gh.as_str(), "pre-commit");
            items.push(
                surface_exec(
                    "sync-gate",
                    ".githooks/pre-commit",
                    p4,
                    presence.sync_gate,
                    "Versioned sync-before-commit hook is present.",
                    "Sync-before-commit hook is missing.",
                ),
            );
            let pr = crate::learning::join_path_str(d.as_str(), "principles");
            let p5 = crate::learning::join_path_str(pr.as_str(), "release-cadence.md");
            items.push(
                surface_exec(
                    "release-cadence",
                    "release cadence",
                    p5,
                    presence.release_cadence,
                    "Release cadence principle is present.",
                    "Release cadence principle is missing.",
                ),
            );
        },
    }
    assert(item_views(items@) =~= authority_spec(opt_str(cwd), presence));
    items
}

// ── Git probe ────────────────────────────────────────────────────────────

/// Why a Git command gave no usable output.
#[derive(Debug, Clone, Copy, PartialEq, Eq, Structural)]
pub enum GitCommandFailureKind {
    Timeout,
    NotRepository,
    Unavailable,
    Failed,
}

/// What a finished Git command printed, before interpretation.
#[derive(Debug)]
pub struct GitCommandRun {
    pub success: bool,
    pub exit_code: Option<i32>,
    pub stdout: String,
    pub stderr: String,
}

pub open spec fn names_not_a_repository(stderr: Seq<char>) -> bool {
    let e = unicode_lowercase(trim(stderr));
    contains(e, "not a git repository"@) || contains(e, "not a git repo"@)
}

/// The meaning of a finished Git command: its trimmed output on success;
/// `NotRepository` when the error says so; no value for a tolerated exit
/// code 1 with a silent error stream; otherwise a failure.
pub open spec fn command_outcome_spec(run: GitCommandRun, allow_missing: bool) -> Result<
    Option<Seq<char>>,
    GitCommandFailureKind,
> {
    if run.success {
        Ok(Some(trim(run.stdout@)))
    } else if names_not_a_repository(run.stderr@) {
        Err(GitCommandFailureKind::NotRepository)
    } else if allow_missing && run.exit_code == Some(1i32) && unicode_lowercase(trim(run.stderr@)).len()
        == 0 {
        Ok(None)
    } else {
        Err(GitCommandFailureKind::Failed)
    }
}

pub open spec fn outcome_view(r: Result<Option<String>, GitCommandFailureKind>) -> Result<
    Option<Seq<char>>,
    GitCommandFailureKind,
> {
    match r {
        Ok(Some(s)) => Ok(Some(s@)),
        Ok(None) => Ok(None),
        Err(k) => Err(k),
    }
}

/// Interprets a finished Git command.
pub fn command_outcome(run: &GitCommandRun, allow_missing: bool) -> (r: Result<
    Option<String>,
    GitCommandFailureKind,
>)
    ensures
        outcome_view(r) == command_outcome_spec(*run, allow_missing),
{
    if run.success {
        return Ok(Some(trim_str(run.stdout.as_str())));
    }
    let t = trim_str(run.stderr.as_str());
    let lower = to_lowercase(t.as_str());
    let lv = chars_of(lower.as_str());
    let n1 = chars_of("not a git repository");
    let n2 = chars_of("not a git repo");
    if contains_chars(lv.as_slice(), n1.as_slice()) || contains_chars(lv.as_slice(), n2.as_slice()) {
        return Err(GitCommandFailureKind::NotRepository);
    }
    let code_is_one = match run.exit_code {
        Some(c) => c == 1,
        None => false,
    };
    if allow_missing && code_is_one && lv.len() == 0 {
        return Ok(None);
    }
    Err(GitCommandFailureKind::Failed)
}

/// What the Git probe learned.
#[derive(Debug)]
pub struct GitProbeData {
    pub branch: Option<String>,
    pub dirty_count: Option<usize>,
    pub sync_gate_configured: Option<bool>,
    pub latest_release_tag: Option<String>,
    pub summary: GitProbeSummary,
}

impl GitProbeData {
    /// Nothing learned, with the given status.
    pub fn with_status(status: GitProbeStatus) -> (r: Self)
        ensures
            r.branch is None,
            r.dirty_count is None,
            r.sync_gate_configured is None,
            r.latest_release_tag is None,
            r.summary.status == status,
            r.summary.timeout_ms == GIT_PROBE_TIMEOUT_MS,
            r.summary.timed_out@.len() == 0,
            r.summary.failed@.len() == 0,
    {
        let mut summary = GitProbeSummary::default();
        summary.status = status;
        GitProbeData {
            branch: None,
            dirty_count: None,
            sync_gate_configured: None,
            latest_release_tag: None,
            summary,
        }
    }
}

/// Records that `probe` failed: a timeout among the timed-out probes,
/// anything else among the failed ones.
pub fn record_git_failure(summary: &mut GitProbeSummary, probe: &str, failure: GitCommandFailureKind)
    ensures
        final(summary).status == old(summary).status,
        final(summary).timeout_ms == old(summary).timeout_ms,
        failure == GitCommandFailureKind::Timeout ==> string_views(final(summary).timed_out@)
            == string_views(old(summary).timed_out@).push(probe@) && final(summary).failed@
            == old(summary).failed@,
        failure != GitCommandFailureKind::Timeout ==> string_views(final(summary).failed@)
            == string_views(old(summary).failed@).push(probe@) && final(summary).timed_out@
            == old(summary).timed_out@,
{
    match failure {
        GitCommandFailureKind::Timeout => {
            let ghost before = string_views(summary.timed_out@);
            summary.timed_out.push(owned(probe));
            assert(string_views(summary.timed_out@) =~= before.push(probe@));
        },
        _ => {
            let ghost before = string_views(summary.failed@);
            summary.failed.push(owned(probe));
            assert(string_views(summary.failed@) =~= before.push(probe@));
        },
    }
}

/// The probe's verdict on `rev-parse --is-inside-work-tree`: `None` to go
/// on probing, or the data to stop with.
pub fn repository_check(inside: Result<Option<String>, GitCommandFailureKind>) -> (r: Option<
    GitProbeData,
>)
    ensures
        (inside matches Ok(Some(v)) && v@ == "true"@) ==> r is None,
        r matches Some(d) ==> d.branch is None && d.dirty_count is None
            && d.sync_gate_configured is None && d.latest_release_tag is None
            && d.summary.timeout_ms == GIT_PROBE_TIMEOUT_MS,
        match inside {
            Ok(Some(v)) => v@ != "true"@ ==> (r matches Some(d) && d.summary.status
                == GitProbeStatus::NotRepository && d.summary.timed_out@.len() == 0
                && d.summary.failed@.len() == 0),
            Ok(None) | Err(GitCommandFailureKind::NotRepository) => r matches Some(d)
                && d.summary.status == GitProbeStatus::NotRepository && d.summary.timed_out@.len()
                == 0 && d.summary.failed@.len() == 0,
            Err(GitCommandFailureKind::Unavailable) => r matches Some(d) && d.summary.status
                == GitProbeStatus::Unavailable && d.summary.timed_out@.len() == 0
                && d.summary.failed@.len() == 0,
            Err(GitCommandFailureKind::Timeout) => r matches Some(d) && d.summary.status
                == GitProbeStatus::Partial && string_views(d.summary.timed_out@) == seq![
                "repository"@] && d.summary.failed@.len() == 0,
            Err(GitCommandFailureKind::Failed) => r matches Some(d) && d.summary.status
                == GitProbeStatus::Partial && d.summary.timed_out@.len() == 0 && string_views(
                d.summary.failed@,
            ) == seq!["repository"@],
        },
{
    match inside {
        Ok(Some(v)) => {
            if str_eq(v.as_str(), "true") {
                None
            } else {
                Some(GitProbeData::with_status(GitProbeStatus::NotRepository))
            }
        },
        Ok(None) => Some(GitProbeData::with_status(GitProbeStatus::NotRepository)),
        Err(GitCommandFailureKind::NotRepository) => Some(
            GitProbeData::with_status(GitProbeStatus::NotRepository),
        ),
        Err(GitCommandFailureKind::Unavailable) => Some(
            GitProbeData::with_status(GitProbeStatus::Unavailable),
        ),
        Err(GitCommandFailureKind::Timeout) => {
            let mut data = GitProbeData::with_status(GitProbeStatus::Partial);
            data.summary.timed_out.push(owned("repository"));
            assert(string_views(data.summary.timed_out@) =~= seq!["repository"@]);
            Some(data)
        },
        Err(GitCommandFailureKind::Failed) => {
            let mut data = GitProbeData::with_status(GitProbeStatus::Partial);
            data.summary.failed.push(owned("repository"));
            assert(string_views(data.summary.failed@) =~= seq!["repository"@]);
            Some(data)
        },
    }
}

/// Number of non-empty pieces of `s` split at `c`.
pub open spec fn nonempty_pieces(s: Seq<char>, c: char) -> nat
    decreases s.len(),
{
    if s.len() == 0 {
        0
    } else {
        nonempty_pieces(s.drop_last(), c) + if s.last() != c && (s.len() == 1 || s[s.len() - 2]
            == c) {
            1nat
        } else {
            0nat
        }
    }
}

proof fn lemma_pieces_bounded(s: Seq<char>, c: char)
    ensures
        nonempty_pieces(s, c) <= s.len(),
    decreases s.len(),
{
    if s.len() > 0 {
        lemma_pieces_bounded(s.drop_last(), c);
    }
}

fn count_pieces(s: &str, c: char) -> (n: usize)
    ensures
        n == nonempty_pieces(s@, c),
{
    let v = chars_of(s);
    let mut n: usize = 0;
    let mut i: usize = 0;
    proof {
        assert(v@.take(0) =~= Seq::<char>::empty());
    }
    while i < v.len()
        invariant
            i <= v@.len(),
            v@ == s@,
            n == nonempty_pieces(v@.take(i as int), c),
        decreases v@.len() - i,
    {
        proof {
            let t = v@.take(i + 1);
            assert(t.drop_last() =~= v@.take(i as int));
            assert(t.last() == v@[i as int]);
            if i >= 1 {
                assert(t[t.len() - 2] == v@[i - 1]);
            }
            lemma_pieces_bounded(v@.take(i as int), c);
        }
        if v[i] != c && (i == 0 || v[i - 1] == c) {
            n = n + 1;
        }
        i = i + 1;
    }
    proof {
        assert(v@.take(v@.len() as int) =~= v@);
    }
    n
}

/// The first line of `s` (what `s.lines().next()` gives), `None` for an
/// empty `s`.
pub open spec fn first_line(s: Seq<char>) -> Option<Seq<char>> {
    if s.len() == 0 {
        None
    } else {
        match first_index(s, '\n') {
            Some(k) => {
                let l = s.take(k);
                if l.len() > 0 && l.last() == '\r' {
                    Some(l.drop_last())
                } else {
                    Some(l)
                }
            },
            None => Some(s),
        }
    }
}

fn first_line_exec(s: &str) -> (r: Option<String>)
    ensures
        crate::settings::opt_view(r) == first_line(s@),
{
    let v = chars_of(s);
    if v.len() == 0 {
        return None;
    }
    let mut i: usize = 0;
    proof {
        assert(v@.skip(0) =~= v@);
    }
    while i < v.len() && v[i] != '\n'
        invariant
            i <= v@.len(),
            v@ == s@,
            first_index(v@, '\n') == match first_index(v@.skip(i as int), '\n') {
                Some(j) => Some(j + i),
                None => None,
            },
        decreases v@.len() - i,
    {
        proof {
            assert(v@.skip(i as int)[0] == v@[i as int]);
            assert(v@.skip(i as int).drop_first() =~= v@.skip(i + 1));
        }
        i = i + 1;
    }
    if i == v.len() {
        proof {
            assert(v@.skip(i as int) =~= Seq::<char>::empty());
        }
        return Some(owned(s));
    }
    proof {
        assert(v@.skip(i as int)[0] == v@[i as int]);
    }
    if i > 0 && v[i - 1] == '\r' {
        let l = slice_chars(&v, 0, i - 1);
        assert(l@ =~= v@.take(i as int).drop_last());
        Some(string_of(l.as_slice()))
    } else {
        let l = slice_chars(&v, 0, i);
        assert(l@ =~= v@.take(i as int));
        Some(string_of(l.as_slice()))
    }
}

/// What a hooks path looks like once normalised: trimmed, without
/// surrounding quotes, with `/` separators and no trailing `/`.
pub open spec fn normalize_hooks_path(p: Seq<char>) -> Seq<char> {
    trim_end_char(
        trim_end_char(trim_start_char(trim(p), '"'), '"').map_values(
            |c: char| if c == '\\' { '/' } else { c },
        ),
        '/',
    )
}

/// Whether `core.hooksPath` points at the project's `.githooks`: written as
/// `.githooks`, or an absolute path whose canonical form is that of
/// `<cwd>/.githooks`. `canonical` holds the canonical forms of the
/// configured and the expected path, when both could be resolved.
pub open spec fn hooks_configured_spec(hooks_path: Seq<char>, canonical: Option<(Seq<char>, Seq<char>)>) -> bool {
    let t = trim(hooks_path);
    if t.len() == 0 {
        false
    } else if normalize_hooks_path(hooks_path) == ".githooks"@ {
        true
    } else if !(t[0] == '/') {
        false
    } else {
        match canonical {
            Some(p) => p.0 == p.1,
            None => false,
        }
    }
}

fn trim_char_both(v: &Vec<char>, c: char) -> (r: Vec<char>)
    ensures
        r@ == trim_end_char(trim_start_char(v@, c), c),
{
    let mut a: usize = 0;
    proof {
        assert(v@.skip(0) =~= v@);
    }
    while a < v.len() && v[a] == c
        invariant
            a <= v@.len(),
            trim_start_char(v@, c) == trim_start_char(v@.skip(a as int), c),
        decreases v@.len() - a,
    {
        proof {
            assert(v@.skip(a as int).drop_first() =~= v@.skip(a + 1));
        }
        a = a + 1;
    }
    let mut b: usize = v.len();
    let ghost t = v@.skip(a as int);
    proof {
        assert(v@.subrange(a as int, b as int) =~= t);
    }
    while b > a && v[b - 1] == c
        invariant
            a <= b <= v@.len(),
            t == v@.skip(a as int),
            trim_start_char(v@, c) == t,
            trim_end_char(t, c) == trim_end_char(v@.subrange(a as int, b as int), c),
        decreases b - a,
    {
        proof {
            assert(v@.subrange(a as int, b as int).drop_last() =~= v@.subrange(a as int, b - 1));
        }
        b = b - 1;
    }
    slice_chars(v, a, b)
}

fn trim_end_exec(v: &Vec<char>, c: char) -> (r: Vec<char>)
    ensures
        r@ == trim_end_char(v@, c),
{
    let mut b: usize = v.len();
    proof {
        assert(v@.take(b as int) =~= v@);
    }
    while b > 0 && v[b - 1] == c
        invariant
            b <= v@.len(),
            trim_end_char(v@, c) == trim_end_char(v@.take(b as int), c),
        decreases b,
    {
        proof {
            assert(v@.take(b as int).drop_last() =~= v@.take(b - 1));
        }
        b = b - 1;
    }
    let r = slice_chars(v, 0, b);
    assert(r@ =~= v@.take(b as int));
    r
}

/// Whether the configured hooks path is the project's versioned hooks.
pub fn hooks_path_is_configured(hooks_path: &str, canonical: Option<(String, String)>) -> (b: bool)
    ensures
        b == hooks_configured_spec(
            hooks_path@,
            match canonical {
                Some(p) => Some((p.0@, p.1@)),
                None => None,
            },
        ),
{
    let t = trim_str(hooks_path);
    let tv = chars_of(t.as_str());
    if tv.len() == 0 {
        return false;
    }
    let unquoted = trim_char_both(&tv, '"');
    let mut replaced: Vec<char> = Vec::new();
    let mut i: usize = 0;
    while i < unquoted.len()
        invariant
            i <= unquoted@.len(),
            replaced@ == unquoted@.take(i as int).map_values(
                |c: char| if c == '\\' { '/' } else { c },
            ),
        decreases unquoted@.len() - i,
    {
        let c = unquoted[i];
        replaced.push(if c == '\\' { '/' } else { c });
        i = i + 1;
        assert(replaced@ =~= unquoted@.take(i as int).map_values(
            |c: char| if c == '\\' { '/' } else { c },
        ));
    }
    assert(unquoted@.take(unquoted@.len() as int) =~= unquoted@);
    let normalized = trim_end_exec(&replaced, '/');
    let expected = chars_of(".githooks");
    if crate::text::chars_eq(normalized.as_slice(), expected.as_slice()) {
        return true;
    }
    if tv[0] != '/' {
        return false;
    }
    match canonical {
        Some((a, b)) => str_eq(a.as_str(), b.as_str()),
        None => false,
    }
}

/// The results of the four probes that follow a successful repository
/// check.
#[derive(Debug)]
pub struct GitProbeResults {
    pub branch: Result<Option<String>, GitCommandFailureKind>,
    pub status: Result<Option<String>, GitCommandFailureKind>,
    pub hooks_path: Result<Option<String>, GitCommandFailureKind>,
    pub hooks_canonical: Option<(String, String)>,
    pub tags: Result<Option<String>, GitCommandFailureKind>,
}

pub open spec fn failure_of(r: Result<Option<String>, GitCommandFailureKind>) -> Option<
    GitCommandFailureKind,
> {
    match r {
        Err(k) => Some(k),
        Ok(_) => None,
    }
}

/// The probes in order, with the failure each one had.
pub open spec fn probe_failures(p: GitProbeResults) -> Seq<(Seq<char>, Option<GitCommandFailureKind>)> {
    seq![
        ("branch"@, failure_of(p.branch)),
        ("status"@, failure_of(p.status)),
        ("hook_config"@, failure_of(p.hooks_path)),
        ("tag"@, failure_of(p.tags)),
    ]
}

pub open spec fn timed_out_probes(f: Seq<(Seq<char>, Option<GitCommandFailureKind>)>) -> Seq<Seq<char>>
    decreases f.len(),
{
    if f.len() == 0 {
        Seq::empty()
    } else if f.last().1 == Some(GitCommandFailureKind::Timeout) {
        timed_out_probes(f.drop_last()).push(f.last().0)
    } else {
        timed_out_probes(f.drop_last())
    }
}

pub open spec fn failed_probes(f: Seq<(Seq<char>, Option<GitCommandFailureKind>)>) -> Seq<Seq<char>>
    decreases f.len(),
{
    if f.len() == 0 {
        Seq::empty()
    } else if f.last().1 is Some && f.last().1 != Some(GitCommandFailureKind::Timeout) {
        failed_probes(f.drop_last()).push(f.last().0)
    } else {
        failed_probes(f.drop_last())
    }
}

/// What the Git probe learned from the four probe results.
#[verifier::rlimit(40)]
pub fn git_probe_from_results(p: GitProbeResults) -> (d: GitProbeData)
    ensures
        crate::settings::opt_view(d.branch) == match p.branch {
            Ok(Some(b)) => if b@.len() > 0 {
                Some(b@)
            } else {
                None
            },
            _ => None,
        },
        d.dirty_count == match p.status {
            Ok(Some(s)) => Some(nonempty_pieces(s@, '\0') as usize),
            Ok(None) => Some(0usize),
            Err(_) => None::<usize>,
        },
        d.sync_gate_configured == match p.hooks_path {
            Ok(Some(h)) => Some(
                hooks_configured_spec(
                    h@,
                    match p.hooks_canonical {
                        Some(c) => Some((c.0@, c.1@)),
                        None => None,
                    },
                ),
            ),
            Ok(None) => Some(false),
            Err(_) => None,
        },
        crate::settings::opt_view(d.latest_release_tag) == match p.tags {
            Ok(Some(t)) => match first_line(t@) {
                Some(l) => if l.len() > 0 {
                    Some(l)
                } else {
                    None
                },
                None => None,
            },
            _ => None,
        },
        d.summary.timeout_ms == GIT_PROBE_TIMEOUT_MS,
        string_views(d.summary.timed_out@) == timed_out_probes(probe_failures(p)),
        string_views(d.summary.failed@) == failed_probes(probe_failures(p)),
        d.summary.status == if timed_out_probes(probe_failures(p)).len() == 0 && failed_probes(
            probe_failures(p),
        ).len() == 0 {
            GitProbeStatus::Complete
        } else {
            GitProbeStatus::Partial
        },
{
    let ghost f = probe_failures(p);
    let mut summary = GitProbeSummary::default();
    summary.status = GitProbeStatus::Complete;
    proof {
        assert(f.take(0) =~= Seq::<(Seq<char>, Option<GitCommandFailureKind>)>::empty());
        assert(string_views(summary.timed_out@) =~= timed_out_probes(f.take(0)));
        assert(string_views(summary.failed@) =~= failed_probes(f.take(0)));
        assert(f.take(1).drop_last() =~= f.take(0));
        assert(f.take(2).drop_last() =~= f.take(1));
        assert(f.take(3).drop_last() =~= f.take(2));
        assert(f.take(4).drop_last() =~= f.take(3));
        assert(f.take(4) =~= f);
    }
    let branch = match p.branch {
        Ok(Some(b)) => {
            let bv = chars_of(b.as_str());
            if bv.len() > 0 {
                Some(b)
            } else {
                None
            }
        },
        Ok(None) => None,
        Err(k) => {
            record_git_failure(&mut summary, "branch", k);
            None
        },
    };
    proof {
        assert(f.take(1).last() == f[0]);
        assert(string_views(summary.timed_out@) =~= timed_out_probes(f.take(1)));
        assert(string_views(summary.failed@) =~= failed_probes(f.take(1)));
    }
    let dirty_count = match &p.status {
        Ok(Some(s)) => Some(count_pieces(s.as_str(), '\0')),
        Ok(None) => Some(0),
        Err(k) => {
            record_git_failure(&mut summary, "status", *k);
            None
        },
    };
    proof {
        assert(f.take(2).last() == f[1]);
        assert(string_views(summary.timed_out@) =~= timed_out_probes(f.take(2)));
        assert(string_views(summary.failed@) =~= failed_probes(f.take(2)));
    }
    let sync_gate_configured = match &p.hooks_path {
        Ok(Some(h)) => {
            let canonical = match &p.hooks_canonical {
                Some((a, b)) => Some((a.clone(), b.clone())),
                None => None,
            };
            Some(hooks_path_is_configured(h.as_str(), canonical))
        },
        Ok(None) => Some(false),
        Err(k) => {
            record_git_failure(&mut summary, "hook_config", *k);
            None
        },
    };
    proof {
        assert(f.take(3).last() == f[2]);
        assert(string_views(summary.timed_out@) =~= timed_out_probes(f.take(3)));
        assert(string_views(summary.failed@) =~= failed_probes(f.take(3)));
    }
    let latest_release_tag = match &p.tags {
        Ok(Some(t)) => match first_line_exec(t.as_str()) {
            Some(l) => {
                let lv = chars_of(l.as_str());
                if lv.len() > 0 {
                    Some(l)
                } else {
                    None
                }
            },
            None => None,
        },
        Ok(None) => None,
        Err(k) => {
            record_git_failure(&mut summary, "tag", *k);
            None
        },
    };
    proof {
        assert(f.take(4).last() == f[3]);
        assert(string_views(summary.timed_out@) =~= timed_out_probes(f.take(4)));
        assert(string_views(summary.failed@) =~= failed_probes(f.take(4)));
    }
    if summary.timed_out.len() > 0 || summary.failed.len() > 0 {
        summary.status = GitProbeStatus::Partial;
    }
    GitProbeData { branch, dirty_count, sync_gate_configured, latest_release_tag, summary }
}

// ── Delivery and risks ───────────────────────────────────────────────────

/// Which delivery files exist in a project.
#[derive(Debug, Clone, Copy)]
pub struct DeliveryPresence {
    pub sync_gate: bool,
    pub release_workflow: bool,
    pub auto_release: bool,
}

/// The delivery summary of a project from what the Git probe learned and
/// which delivery files exist; with no project open, nothing is checked.
pub fn delivery_for_project(git: Option<GitProbeData>, presence: DeliveryPresence) -> (d:
    DeliverySummary)
    ensures
        match git {
            None => d.git_branch is None && d.is_dirty is None && d.dirty_count is None
                && !d.sync_gate_present && d.sync_gate_configured is None
                && !d.release_workflow_present && !d.auto_release_present
                && d.latest_release_tag is None && d.git_probe.status == GitProbeStatus::NotChecked
                && d.git_probe.timeout_ms == GIT_PROBE_TIMEOUT_MS && d.git_probe.timed_out@.len() == 0
                && d.git_probe.failed@.len() == 0,
            Some(g) => d.git_branch == g.branch && d.dirty_count == g.dirty_count && d.is_dirty == match g.dirty_count {
                Some(n) => Some(n > 0),
                None => None,
            } && d.sync_gate_present == presence.sync_gate && d.sync_gate_configured
                == g.sync_gate_configured && d.release_workflow_present == presence.release_workflow
                && d.auto_release_present == presence.auto_release && d.latest_release_tag
                == g.latest_release_tag && d.git_probe == g.summary,
        },
{
    match git {
        None => DeliverySummary {
            git_branch: None,
            is_dirty: None,
            dirty_count: None,
            sync_gate_present: false,
            sync_gate_configured: None,
            release_workflow_present: false,
            auto_release_present: false,
            latest_release_tag: None,
            git_probe: GitProbeSummary::default(),
        },
        Some(g) => {
            let is_dirty = match g.dirty_count {
                Some(n) => Some(n > 0),
                None => None,
            };
            DeliverySummary {
                git_branch: g.branch,
                is_dirty,
                dirty_count: g.dirty_count,
                sync_gate_present: presence.sync_gate,
                sync_gate_configured: g.sync_gate_configured,
                release_workflow_present: presence.release_workflow,
                auto_release_present: presence.auto_release,
                latest_release_tag: g.latest_release_tag,
                git_probe: g.summary,
            }
        },
    }
}

/// A risk by its contents.
pub type RiskView = (Seq<char>, Seq<char>, Seq<char>);

pub open spec fn risk_view(r: ControlPlaneRisk) -> RiskView {
    (r.id@, r.severity@, r.message@)
}

pub open spec fn risk_views(s: Seq<ControlPlaneRisk>) -> Seq<RiskView> {
    s.map_values(|r: ControlPlaneRisk| risk_view(r))
}

pub open spec fn when(c: bool, r: RiskView) -> Seq<RiskView> {
    if c {
        seq![r]
    } else {
        Seq::empty()
    }
}

/// `Git observation is partial after {ms}ms; {reasons}.`
pub open spec fn partial_message(g: GitProbeSummary) -> Seq<char> {
    let reasons = (if g.timed_out@.len() > 0 {
        seq!["timed out: "@ + join(string_views(g.timed_out@), ", "@)]
    } else {
        Seq::empty()
    }) + (if g.failed@.len() > 0 {
        seq!["failed: "@ + join(string_views(g.failed@), ", "@)]
    } else {
        Seq::empty()
    });
    "Git observation is partial after "@ + decimal(g.timeout_ms as nat) + "ms; "@ + join(
        reasons,
        "; "@,
    ) + "."@
}

pub open spec fn probe_risks(g: GitProbeSummary) -> Seq<RiskView> {
    match g.status {
        GitProbeStatus::Partial => seq![("git-probe-partial"@, "warning"@, partial_message(g))],
        GitProbeStatus::NotRepository => seq![
            (
                "not-git-repository"@,
                "info"@,
                "The active project is not a Git repository; Git delivery fields are not applicable."@,
            ),
        ],
        GitProbeStatus::Unavailable => seq![
            (
                "git-unavailable"@,
                "warning"@,
                "Git executable is unavailable; Git delivery fields could not be observed."@,
            ),
        ],
        _ => Seq::empty(),
    }
}

/// The risks of a snapshot, in a fixed order: no project, gate missing or
/// unused, dirty tree, Git probe state, missing release workflow, pending
/// memory review.
pub open spec fn risks_spec(has_cwd: bool, m: MemoryProposalSummary, d: DeliverySummary) -> Seq<
    RiskView,
> {
    gate_risks(has_cwd, d) + dirty_risks(d) + probe_risks(d.git_probe) + tail_risks(has_cwd, m, d)
}

/// Whether a list of risks holds one with the given id.
pub open spec fn has_risk(rs: Seq<RiskView>, id: Seq<char>) -> bool {
    exists|i: int| 0 <= i < rs.len() && (#[trigger] rs[i]).0 == id
}

proof fn lemma_ids_other_than_dirty(has_cwd: bool, m: MemoryProposalSummary, d: DeliverySummary)
    ensures
        !has_risk(gate_risks(has_cwd, d), "dirty-worktree"@),
        !has_risk(probe_risks(d.git_probe), "dirty-worktree"@),
        !has_risk(tail_risks(has_cwd, m, d), "dirty-worktree"@),
{
    reveal_strlit("dirty-worktree");
    reveal_strlit("no-project-context");
    reveal_strlit("missing-sync-gate");
    reveal_strlit("sync-gate-not-configured");
    reveal_strlit("git-probe-partial");
    reveal_strlit("not-git-repository");
    reveal_strlit("git-unavailable");
    reveal_strlit("no-release-workflow");
    reveal_strlit("memory-review-pending");
    let g = gate_risks(has_cwd, d);
    assert forall|i: int| 0 <= i < g.len() implies (#[trigger] g[i]).0 != "dirty-worktree"@ by {
        assert(g[i].0.len() != 14);
    }
    let p = probe_risks(d.git_probe);
    assert forall|i: int| 0 <= i < p.len() implies (#[trigger] p[i]).0 != "dirty-worktree"@ by {
        assert(p[i].0.len() != 14);
    }
    let t = tail_risks(has_cwd, m, d);
    assert forall|i: int| 0 <= i < t.len() implies (#[trigger] t[i]).0 != "dirty-worktree"@ by {
        assert(t[i].0.len() != 14);
    }
}

/// A snapshot warns about the working tree exactly when the tree is known
/// to be dirty: a clean or unobserved tree gives no `dirty-worktree` risk,
/// and a dirty one gives it once, as a warning that counts the changed
/// items.
pub proof fn lemma_dirty_risk_iff_dirty(has_cwd: bool, m: MemoryProposalSummary, d: DeliverySummary)
    ensures
        has_risk(risks_spec(has_cwd, m, d), "dirty-worktree"@) <==> d.is_dirty == Some(true),
        forall|i: int|
            0 <= i < risks_spec(has_cwd, m, d).len() && (#[trigger] risks_spec(has_cwd, m, d)[i]).0
                == "dirty-worktree"@ ==> risks_spec(has_cwd, m, d)[i].1 == "warning"@ && (d.dirty_count matches Some(
                n,
            ) ==> contains(risks_spec(has_cwd, m, d)[i].2, decimal(n as nat))),
        forall|i: int, j: int|
            0 <= i < j < risks_spec(has_cwd, m, d).len() && (#[trigger] risks_spec(has_cwd, m, d)[i]).0
                == "dirty-worktree"@ ==> (#[trigger] risks_spec(has_cwd, m, d)[j]).0 != "dirty-worktree"@,
{
    lemma_ids_other_than_dirty(has_cwd, m, d);
    let g = gate_risks(has_cwd, d);
    let dr = dirty_risks(d);
    let p = probe_risks(d.git_probe);
    let t = tail_risks(has_cwd, m, d);
    let r = risks_spec(has_cwd, m, d);
    assert(r == g + dr + p + t);
    assert forall|i: int| 0 <= i < r.len() && (#[trigger] r[i]).0 == "dirty-worktree"@ implies i
        == g.len() && d.is_dirty == Some(true) && r[i] == dr[0] by {
        if i < g.len() {
            assert(r[i] == g[i]);
        } else if i < g.len() + dr.len() {
            assert(r[i] == dr[i - g.len()]);
        } else if i < g.len() + dr.len() + p.len() {
            assert(r[i] == p[i - g.len() - dr.len()]);
        } else {
            assert(r[i] == t[i - g.len() - dr.len() - p.len()]);
        }
    }
    if d.is_dirty == Some(true) {
        assert(r[g.len() as int] == dr[0]);
        assert(r[g.len() as int].0 == "dirty-worktree"@);
        let n = match d.dirty_count {
            Some(n) => n as nat,
            None => 0,
        };
        let msg = "Working tree has "@ + decimal(n) + " changed/untracked item(s)."@;
        let pre = "Working tree has "@;
        assert(msg.subrange(pre.len() as int, (pre.len() + decimal(n).len()) as int) =~= decimal(n));
        assert(crate::text::occurs_at(msg, decimal(n), pre.len() as int));
    }
}

fn risk(id: &str, severity: &str, message: String) -> (r: ControlPlaneRisk)
    ensures
        risk_view(r) == (id@, severity@, message@),
{
    ControlPlaneRisk { id: owned(id), severity: owned(severity), message }
}

fn push_risk(out: &mut Vec<ControlPlaneRisk>, r: ControlPlaneRisk)
    ensures
        risk_views(final(out)@) == risk_views(old(out)@).push(risk_view(r)),
{
    out.push(r);
    assert(risk_views(out@) =~= risk_views(old(out)@).push(risk_view(r)));
}

fn partial_message_exec(g: &GitProbeSummary) -> (m: String)
    ensures
        m@ == partial_message(*g),
{
    let mut reasons: Vec<String> = Vec::new();
    let ghost r0 = views(reasons@);
    if g.timed_out.len() > 0 {
        let mut s = owned("timed out: ");
        let j = join_strings(&g.timed_out, ", ");
        push_str(&mut s, j.as_str());
        reasons.push(s);
    }
    let ghost r1 = views(reasons@);
    if g.failed.len() > 0 {
        let mut s = owned("failed: ");
        let j = join_strings(&g.failed, ", ");
        push_str(&mut s, j.as_str());
        reasons.push(s);
    }
    proof {
        assert(views(g.timed_out@) =~= string_views(g.timed_out@));
        assert(views(g.failed@) =~= string_views(g.failed@));
        let expected = (if g.timed_out@.len() > 0 {
            seq!["timed out: "@ + join(string_views(g.timed_out@), ", "@)]
        } else {
            Seq::empty()
        }) + (if g.failed@.len() > 0 {
            seq!["failed: "@ + join(string_views(g.failed@), ", "@)]
        } else {
            Seq::empty()
        });
        assert(views(reasons@) =~= expected);
    }
    let mut m = owned("Git observation is partial after ");
    let ms = u64_string(g.timeout_ms);
    push_str(&mut m, ms.as_str());
    push_str(&mut m, "ms; ");
    let j = join_strings(&reasons, "; ");
    push_str(&mut m, j.as_str());
    push_str(&mut m, ".");
    m
}

pub open spec fn gate_risks(has_cwd: bool, d: DeliverySummary) -> Seq<RiskView> {
    when(
        !has_cwd,
        (
            "no-project-context"@,
            "warning"@,
            "No active project; authority and delivery gates are partial."@,
        ),
    ) + when(
        has_cwd && !d.sync_gate_present,
        (
            "missing-sync-gate"@,
            "warning"@,
            "Sync-before-commit gate is not installed in this project."@,
        ),
    ) + when(
        has_cwd && d.sync_gate_present && d.sync_gate_configured == Some(false),
        (
            "sync-gate-not-configured"@,
            "warning"@,
            "Versioned pre-commit hook exists but this checkout is not using it."@,
        ),
    )
}

pub open spec fn dirty_risks(d: DeliverySummary) -> Seq<RiskView> {
    when(
        d.is_dirty == Some(true),
        (
            "dirty-worktree"@,
            "warning"@,
            "Working tree has "@ + decimal(
                match d.dirty_count {
                    Some(n) => n as nat,
                    None => 0,
                },
            ) + " changed/untracked item(s)."@,
        ),
    )
}

pub open spec fn tail_risks(has_cwd: bool, m: MemoryProposalSummary, d: DeliverySummary) -> Seq<
    RiskView,
> {
    when(
        has_cwd && !d.release_workflow_present,
        (
            "no-release-workflow"@,
            "warning"@,
            "Release workflow is missing; publishing cannot be proven from GitHub Actions."@,
        ),
    ) + when(
        m.pending > 0,
        (
            "memory-review-pending"@,
            "info"@,
            int_decimal(m.pending as int) + " memory proposal(s) are waiting for review."@,
        ),
    )
}

fn append_risks(out: &mut Vec<ControlPlaneRisk>, more: Vec<ControlPlaneRisk>)
    ensures
        risk_views(final(out)@) == risk_views(old(out)@) + risk_views(more@),
{
    let mut more = more;
    let ghost a = old(out)@;
    let ghost b = more@;
    out.append(&mut more);
    assert(risk_views(out@) =~= risk_views(a) + risk_views(b));
}

fn gate_risks_exec(has_cwd: bool, delivery: &DeliverySummary) -> (r: Vec<ControlPlaneRisk>)
    ensures
        risk_views(r@) == gate_risks(has_cwd, *delivery),
{
    let mut risks: Vec<ControlPlaneRisk> = Vec::new();
    if !has_cwd {
        push_risk(
            &mut risks,
            risk(
                "no-project-context",
                "warning",
                owned("No active project; authority and delivery gates are partial."),
            ),
        );
    }
    let ghost s1 = risk_views(risks@);
    if has_cwd && !delivery.sync_gate_present {
        push_risk(
            &mut risks,
            risk(
                "missing-sync-gate",
                "warning",
                owned("Sync-before-commit gate is not installed in this project."),
            ),
        );
    }
    let ghost s2 = risk_views(risks@);
    let not_configured = match delivery.sync_gate_configured {
        Some(b) => !b,
        None => false,
    };
    if has_cwd && delivery.sync_gate_present && not_configured {
        push_risk(
            &mut risks,
            risk(
                "sync-gate-not-configured",
                "warning",
                owned("Versioned pre-commit hook exists but this checkout is not using it."),
            ),
        );
    }
    assert(risk_views(risks@) =~= gate_risks(has_cwd, *delivery));
    risks
}

fn dirty_risks_exec(delivery: &DeliverySummary) -> (r: Vec<ControlPlaneRisk>)
    ensures
        risk_views(r@) == dirty_risks(*delivery),
{
    let mut risks: Vec<ControlPlaneRisk> = Vec::new();
    let dirty = match delivery.is_dirty {
        Some(b) => b,
        None => false,
    };
    if dirty {
        let n: usize = match delivery.dirty_count {
            Some(n) => n,
            None => 0,
        };
        let mut m = owned("Working tree has ");
        let t = u64_string(n as u64);
        push_str(&mut m, t.as_str());
        push_str(&mut m, " changed/untracked item(s).");
        push_risk(&mut risks, risk("dirty-worktree", "warning", m));
    }
    assert(risk_views(risks@) =~= dirty_risks(*delivery));
    risks
}

fn probe_risks_exec(g: &GitProbeSummary) -> (r: Vec<ControlPlaneRisk>)
    ensures
        risk_views(r@) == probe_risks(*g),
{
    let mut risks: Vec<ControlPlaneRisk> = Vec::new();
    match g.status {
        GitProbeStatus::Partial => {
            let m = partial_message_exec(g);
            push_risk(&mut risks, risk("git-probe-partial", "warning", m));
        },
        GitProbeStatus::NotRepository => {
            push_risk(
                &mut risks,
                risk(
                    "not-git-repository",
                    "info",
                    owned(
                        "The active project is not a Git repository; Git delivery fields are not applicable.",
                    ),
                ),
            );
        },
        GitProbeStatus::Unavailable => {
            push_risk(
                &mut risks,
                risk(
                    "git-unavailable",
                    "warning",
                    owned("Git executable is unavailable; Git delivery fields could not be observed."),
                ),
            );
        },
        _ => {},
    }
    assert(risk_views(risks@) =~= probe_risks(*g));
    risks
}

fn tail_risks_exec(has_cwd: bool, memory: &MemoryProposalSummary, delivery: &DeliverySummary) -> (r:
    Vec<ControlPlaneRisk>)
    ensures
        risk_views(r@) == tail_risks(has_cwd, *memory, *delivery),
{
    let mut risks: Vec<ControlPlaneRisk> = Vec::new();
    if has_cwd && !delivery.release_workflow_present {
        push_risk(
            &mut risks,
            risk(
                "no-release-workflow",
                "warning",
                owned("Release workflow is missing; publishing cannot be proven from GitHub Actions."),
            ),
        );
    }
    let ghost s1 = risk_views(risks@);
    if memory.pending > 0 {
        let mut m = i64_string(memory.pending);
        push_str(&mut m, " memory proposal(s) are waiting for review.");
        push_risk(&mut risks, risk("memory-review-pending", "info", m));
    }
    assert(risk_views(risks@) =~= tail_risks(has_cwd, *memory, *delivery));
    risks
}

/// The risks the snapshot reports.
pub fn risks_for(has_cwd: bool, memory: &MemoryProposalSummary, delivery: &DeliverySummary) -> (r:
    Vec<ControlPlaneRisk>)
    ensures
        risk_views(r@) == risks_spec(has_cwd, *memory, *delivery),
{
    let mut risks = gate_risks_exec(has_cwd, delivery);
    append_risks(&mut risks, dirty_risks_exec(delivery));
    append_risks(&mut risks, probe_risks_exec(&delivery.git_probe));
    append_risks(&mut risks, tail_risks_exec(has_cwd, memory, delivery));
    assert(risk_views(risks@) =~= risks_spec(has_cwd, *memory, *delivery));
    risks
}

/// A capability family by its contents.
pub type CapabilityView = (Seq<char>, Seq<char>, nat, nat, ControlPlaneStatus, Seq<char>);

pub open spec fn capability_view(c: CapabilitySummary) -> CapabilityView {
    (c.id@, c.label@, c.total as nat, c.enabled as nat, c.status, c.detail@)
}

pub open spec fn capability_views(s: Seq<CapabilitySummary>) -> Seq<CapabilityView> {
    s.map_values(|c: CapabilitySummary| capability_view(c))
}

/// The capability inventory: skills, MCP servers, knowledge libraries,
/// hooks and Git remotes (every remote counting as enabled).
pub open spec fn capabilities_spec(counts: Seq<(nat, nat)>, remotes: nat) -> Seq<CapabilityView> {
    seq![
        (
            "skills"@,
            "Skills"@,
            counts[0].0,
            counts[0].1,
            ControlPlaneStatus::Healthy,
            "Prompt and slash-command capability packs."@,
        ),
        (
            "mcp"@,
            "MCP servers"@,
            counts[1].0,
            counts[1].1,
            ControlPlaneStatus::Healthy,
            "External tool servers available to the agent runtime."@,
        ),
        (
            "knowledge"@,
            "Knowledge libraries"@,
            counts[2].0,
            counts[2].1,
            ControlPlaneStatus::Healthy,
            "Local document libraries exposed through knowledge tools."@,
        ),
        (
            "hooks"@,
            "Hooks"@,
            counts[3].0,
            counts[3].1,
            ControlPlaneStatus::Healthy,
            "Event hooks for task/tool lifecycle automation."@,
        ),
        (
            "git-remotes"@,
            "Git remotes"@,
            remotes,
            remotes,
            ControlPlaneStatus::Healthy,
            "Token-redacted GitHub/GitLab remote integrations."@,
        ),
    ]
}

fn capability(id: &str, label: &str, total: usize, enabled: usize, detail: &str) -> (c:
    CapabilitySummary)
    ensures
        capability_view(c) == (id@, label@, total as nat, enabled as nat, ControlPlaneStatus::Healthy, detail@),
{
    CapabilitySummary {
        id: owned(id),
        label: owned(label),
        total,
        enabled,
        status: ControlPlaneStatus::Healthy,
        detail: owned(detail),
    }
}

/// The capability inventory from `(total, enabled)` counts of skills, MCP
/// servers, knowledge libraries and hooks, and the number of Git remotes.
pub fn capability_summaries(
    skills: (usize, usize),
    mcp: (usize, usize),
    knowledge: (usize, usize),
    hooks: (usize, usize),
    git_remotes: usize,
) -> (r: Vec<CapabilitySummary>)
    ensures
        capability_views(r@) == capabilities_spec(
            seq![
                (skills.0 as nat, skills.1 as nat),
                (mcp.0 as nat, mcp.1 as nat),
                (knowledge.0 as nat, knowledge.1 as nat),
                (hooks.0 as nat, hooks.1 as nat),
            ],
            git_remotes as nat,
        ),
{
    let mut r: Vec<CapabilitySummary> = Vec::new();
    r.push(
        capability("skills", "Skills", skills.0, skills.1, "Prompt and slash-command capability packs."),
    );
    r.push(
        capability(
            "mcp",
            "MCP servers",
            mcp.0,
            mcp.1,
            "External tool servers available to the agent runtime.",
        ),
    );
    r.push(
        capability(
            "knowledge",
            "Knowledge libraries",
            knowledge.0,
            knowledge.1,
            "Local document libraries exposed through knowledge tools.",
        ),
    );
    r.push(
        capability("hooks", "Hooks", hooks.0, hooks.1, "Event hooks for task/tool lifecycle automation."),
    );
    r.push(
        capability(
            "git-remotes",
            "Git remotes",
            git_remotes,
            git_remotes,
            "Token-redacted GitHub/GitLab remote integrations.",
        ),
    );
    assert(capability_views(r@) =~= capabilities_spec(
        seq![
            (skills.0 as nat, skills.1 as nat),
            (mcp.0 as nat, mcp.1 as nat),
            (knowledge.0 as nat, knowledge.1 as nat),
            (hooks.0 as nat, hooks.1 as nat),
        ],
        git_remotes as nat,
    ));
    r
}

} // verus!
