//! Evolution candidates: the eval manifest, the activation-safety checks
//! and the allow-lists that decide which learned items may go live.
use vstd::prelude::*;
use crate::redact::{redact_spec, redact_text};
use crate::text::{
    chars_of, contains, contains_chars, i64_string, int_decimal, owned, push_str, str_eq, to_lowercase,
    trim, trim_bounds, trim_str, unicode_lowercase,
};

verus! {

broadcast use vstd::string::group_string_axioms;

/// A candidate with its revision, eval and activation state.
#[derive(Debug)]
pub struct EvolutionCandidateState {
    pub candidate_id: String,
    pub source_learning_event_id: Option<String>,
    pub cwd: String,
    pub kind: String,
    pub revision: i64,
    pub state: String,
    pub state_version: i64,
    pub suggestion: String,
    pub pref_key: Option<String>,
    pub pref_value: Option<String>,
    pub payload_hash: String,
    pub auto_activate: bool,
    pub eval_run_id: Option<String>,
    pub eval_status: Option<String>,
    pub eval_manifest_hash: Option<String>,
    pub eval_required_count: i64,
    pub eval_passed_count: i64,
    pub eval_failed_count: i64,
    pub activation_id: Option<String>,
    pub activation_status: Option<String>,
    pub activated_at: Option<String>,
    pub rolled_back_at: Option<String>,
    pub updated_at: String,
}

/// One eval case of one run.
#[derive(Debug)]
pub struct EvolutionEvalCaseResult {
    pub id: String,
    pub run_id: String,
    pub case_id: String,
    pub title: String,
    pub status: String,
    pub hard_gate: bool,
    pub detail_json: String,
    pub created_at: String,
}

pub open spec fn is_lower_hex(c: char) -> bool {
    ('0' <= c <= '9') || ('a' <= c <= 'f')
}

/// The lower-case hex SHA-256 digest of `bytes` (a function of the bytes
/// alone).
pub uninterp spec fn sha256_hex(bytes: Seq<u8>) -> Seq<char>;

/// `format!("{:x}", Sha256::digest(bytes))` from the `sha2` crate: the
/// result is named; that it is 64 lower-case hex digits is what the
/// digest's 32 bytes and their `LowerHex` formatting give.
#[verifier::external_body]
fn sha256(bytes: &[u8]) -> (r: String)
    ensures
        r@ == sha256_hex(bytes@),
        r@.len() == 64,
        forall|i: int| 0 <= i < r@.len() ==> is_lower_hex(#[trigger] r@[i]),
{
    format!("{:x}", <sha2::Sha256 as sha2::Digest>::digest(bytes))
}

/// The hex SHA-256 of a text's UTF-8.
pub open spec fn sha256_text(s: Seq<char>) -> Seq<char> {
    sha256_hex(vstd::utf8::encode_utf8(s))
}

pub(crate) fn sha256_str(s: &str) -> (r: String)
    ensures
        r@ == sha256_text(s@),
{
    sha256(s.as_bytes())
}

/// The version of the eval runner.
pub open spec fn eval_runner_version() -> Seq<char> {
    "context-integrity-v1"@
}

/// The required eval cases: id and title.
pub open spec fn required_cases() -> Seq<(Seq<char>, Seq<char>)> {
    seq![
        ("frozen_revision"@, "冻结版本完整性"@),
        ("project_scope"@, "项目范围隔离"@),
        ("privacy_contract"@, "隐私与长度合同"@),
        ("target_allowlist"@, "低风险目标白名单"@),
        ("baseline_isolation"@, "Baseline 未提前生效"@),
        ("treatment_projection"@, "Treatment 精确注入一次"@),
        ("rollback_readiness"@, "回滚准备度"@),
    ]
}

/// What the manifest hash covers: the runner version and the required
/// case ids, `version:id1,id2,...`.
pub open spec fn manifest_text() -> Seq<char> {
    eval_runner_version() + ":"@ + "frozen_revision"@ + ","@ + "project_scope"@ + ","@
        + "privacy_contract"@ + ","@ + "target_allowlist"@ + ","@ + "baseline_isolation"@ + ","@
        + "treatment_projection"@ + ","@ + "rollback_readiness"@
}

/// The hash that identifies the eval manifest a run used.
pub fn manifest_hash() -> (r: String)
    ensures
        r@ == sha256_text(manifest_text()),
{
    let mut text = owned("context-integrity-v1");
    push_str(&mut text, ":");
    push_str(&mut text, "frozen_revision");
    push_str(&mut text, ",");
    push_str(&mut text, "project_scope");
    push_str(&mut text, ",");
    push_str(&mut text, "privacy_contract");
    push_str(&mut text, ",");
    push_str(&mut text, "target_allowlist");
    push_str(&mut text, ",");
    push_str(&mut text, "baseline_isolation");
    push_str(&mut text, ",");
    push_str(&mut text, "treatment_projection");
    push_str(&mut text, ",");
    push_str(&mut text, "rollback_readiness");
    sha256_str(text.as_str())
}

/// Preferences that may be activated: a non-blank value of at most 300
/// characters, under one of four keys.
pub open spec fn preference_allowed_spec(key: Seq<char>, value: Seq<char>) -> bool {
    trim(value).len() > 0 && value.len() <= 300 && (key == "communication_style"@ || key
        == "testing_habit"@ || key == "code_style"@ || key == "response_language"@)
}

/// Whether a preference may be activated.
pub fn preference_allowed(key: &str, value: &str) -> (b: bool)
    ensures
        b == preference_allowed_spec(key@, value@),
{
    let v = chars_of(value);
    let (a, e) = trim_bounds(v.as_slice());
    if a == e || v.len() > 300 {
        return false;
    }
    str_eq(key, "communication_style") || str_eq(key, "testing_habit") || str_eq(key, "code_style")
        || str_eq(key, "response_language")
}

/// Phrases that make a memory policy-sensitive (it would loosen approval,
/// permission or release gates).
pub open spec fn policy_sensitive() -> Seq<Seq<char>> {
    seq![
        "rm -rf"@,
        "git reset --hard"@,
        "--no-verify"@,
        "bypass approval"@,
        "skip approval"@,
        "without approval"@,
        "auto-approve"@,
        "auto approve"@,
        "auto-merge"@,
        "auto merge"@,
        "automatically deploy"@,
        "automatically release"@,
        "automatically publish"@,
        "full access"@,
        "autonomous execution"@,
        "绕过审批"@,
        "跳过审批"@,
        "无需审批"@,
        "不需审批"@,
        "自动批准"@,
        "自动合并"@,
        "自动部署"@,
        "自动发布"@,
        "自动上线"@,
        "完全权限"@,
        "绕过权限"@,
        "自动执行"@,
    ]
}

/// Memories that may be activated: non-blank, at most 1200 characters once
/// trimmed, and naming no policy-sensitive phrase (case-insensitively).
pub open spec fn memory_allowed_spec(value: Seq<char>) -> bool {
    let t = trim(value);
    t.len() > 0 && t.len() <= 1200 && !(exists|i: int|
        0 <= i < policy_sensitive().len() && contains(unicode_lowercase(t), policy_sensitive()[i]))
}

fn policy_phrases() -> (v: Vec<&'static str>)
    ensures
        v@.len() == policy_sensitive().len(),
        forall|i: int| 0 <= i < v@.len() ==> v@[i]@ == policy_sensitive()[i],
{
    let v = vec![
        "rm -rf",
        "git reset --hard",
        "--no-verify",
        "bypass approval",
        "skip approval",
        "without approval",
        "auto-approve",
        "auto approve",
        "auto-merge",
        "auto merge",
        "automatically deploy",
        "automatically release",
        "automatically publish",
        "full access",
        "autonomous execution",
        "绕过审批",
        "跳过审批",
        "无需审批",
        "不需审批",
        "自动批准",
        "自动合并",
        "自动部署",
        "自动发布",
        "自动上线",
        "完全权限",
        "绕过权限",
        "自动执行",
    ];
    v
}

/// Whether a memory may be activated.
pub fn memory_allowed(value: &str) -> (b: bool)
    ensures
        b == memory_allowed_spec(value@),
{
    let t = trim_str(value);
    let tv = chars_of(t.as_str());
    if tv.len() == 0 || tv.len() > 1200 {
        return false;
    }
    let lower = to_lowercase(t.as_str());
    let lv = chars_of(lower.as_str());
    let phrases = policy_phrases();
    let mut i: usize = 0;
    while i < phrases.len()
        invariant
            i <= phrases@.len(),
            phrases@.len() == policy_sensitive().len(),
            forall|k: int| 0 <= k < phrases@.len() ==> phrases@[k]@ == policy_sensitive()[k],
            lv@ == unicode_lowercase(trim(value@)),
            forall|k: int| 0 <= k < i ==> !contains(lv@, #[trigger] policy_sensitive()[k]),
        decreases phrases@.len() - i,
    {
        let pv = chars_of(phrases[i]);
        if contains_chars(lv.as_slice(), pv.as_slice()) {
            return false;
        }
        i = i + 1;
    }
    true
}

/// The decision an activation-safety eval makes from its seven checks, in
/// the order of the required cases.
#[derive(Debug, Clone, Copy)]
pub struct CaseChecks {
    pub frozen: bool,
    pub project_scope: bool,
    pub privacy: bool,
    pub target_allowed: bool,
    pub baseline_isolated: bool,
    pub treatment_projection: bool,
    pub rollback_ready: bool,
}

/// One case's verdict.
#[derive(Debug)]
pub struct CaseOutcome {
    pub id: &'static str,
    pub title: &'static str,
    pub status: &'static str,
    pub reason: &'static str,
}

pub open spec fn failure_reasons() -> Seq<Seq<char>> {
    seq![
        "payload_hash_mismatch"@,
        "project_scope_required"@,
        "secret_or_length_contract"@,
        "unsupported_target"@,
        "candidate_already_active"@,
        "treatment_projection_failed"@,
        "target_changed_or_not_reversible"@,
    ]
}

pub open spec fn check_values(c: CaseChecks) -> Seq<bool> {
    seq![
        c.frozen,
        c.project_scope,
        c.privacy,
        c.target_allowed,
        c.baseline_isolated,
        c.treatment_projection,
        c.rollback_ready,
    ]
}

/// Each case passes with reason `ok`, or fails with its own reason.
pub open spec fn outcome_spec(i: int, passed: bool) -> (Seq<char>, Seq<char>, Seq<char>, Seq<char>) {
    (
        required_cases()[i].0,
        required_cases()[i].1,
        if passed {
            "passed"@
        } else {
            "failed"@
        },
        if passed {
            "ok"@
        } else {
            failure_reasons()[i]
        },
    )
}

pub open spec fn outcome_view(o: CaseOutcome) -> (Seq<char>, Seq<char>, Seq<char>, Seq<char>) {
    (o.id@, o.title@, o.status@, o.reason@)
}

fn outcome(id: &'static str, title: &'static str, passed: bool, reason: &'static str) -> (o:
    CaseOutcome)
    ensures
        o.id@ == id@,
        o.title@ == title@,
        o.status@ == if passed {
            "passed"@
        } else {
            "failed"@
        },
        o.reason@ == if passed {
            "ok"@
        } else {
            reason@
        },
{
    CaseOutcome {
        id,
        title,
        status: if passed {
            "passed"
        } else {
            "failed"
        },
        reason: if passed {
            "ok"
        } else {
            reason
        },
    }
}

/// The verdicts of the seven required cases.
pub fn case_outcomes(c: CaseChecks) -> (r: Vec<CaseOutcome>)
    ensures
        r@.len() == 7,
        forall|i: int| 0 <= i < 7 ==> outcome_view(#[trigger] r@[i]) == outcome_spec(
            i,
            check_values(c)[i],
        ),
{
    let mut r: Vec<CaseOutcome> = Vec::new();
    r.push(outcome("frozen_revision", "冻结版本完整性", c.frozen, "payload_hash_mismatch"));
    r.push(outcome("project_scope", "项目范围隔离", c.project_scope, "project_scope_required"));
    r.push(outcome("privacy_contract", "隐私与长度合同", c.privacy, "secret_or_length_contract"));
    r.push(outcome("target_allowlist", "低风险目标白名单", c.target_allowed, "unsupported_target"));
    r.push(
        outcome(
            "baseline_isolation",
            "Baseline 未提前生效",
            c.baseline_isolated,
            "candidate_already_active",
        ),
    );
    r.push(
        outcome(
            "treatment_projection",
            "Treatment 精确注入一次",
            c.treatment_projection,
            "treatment_projection_failed",
        ),
    );
    r.push(
        outcome(
            "rollback_readiness",
            "回滚准备度",
            c.rollback_ready,
            "target_changed_or_not_reversible",
        ),
    );
    r
}

/// Whether a candidate's target is on the low-risk allow-list: a memory or
/// pattern that `memory_allowed` accepts, or a preference with key and
/// value that `preference_allowed` accepts.
pub open spec fn target_allowed_spec(
    kind: Seq<char>,
    suggestion: Seq<char>,
    key: Option<Seq<char>>,
    value: Option<Seq<char>>,
) -> bool {
    if kind == "memory"@ || kind == "pattern"@ {
        memory_allowed_spec(suggestion)
    } else if kind == "preference"@ {
        match (key, value) {
            (Some(k), Some(v)) => preference_allowed_spec(k, v),
            _ => false,
        }
    } else {
        false
    }
}

pub fn target_allowed(
    kind: &str,
    suggestion: &str,
    key: Option<&str>,
    value: Option<&str>,
) -> (b: bool)
    ensures
        b == target_allowed_spec(
            kind@,
            suggestion@,
            crate::control_plane::opt_str(key),
            crate::control_plane::opt_str(value),
        ),
{
    if str_eq(kind, "memory") || str_eq(kind, "pattern") {
        memory_allowed(suggestion)
    } else if str_eq(kind, "preference") {
        match (key, value) {
            (Some(k), Some(v)) => preference_allowed(k, v),
            _ => false,
        }
    } else {
        false
    }
}

/// The privacy contract: the suggestion holds nothing redaction would
/// change and is at most 1200 characters; a preference value holds nothing
/// redaction would change.
pub open spec fn privacy_spec(suggestion: Seq<char>, value: Option<Seq<char>>) -> bool {
    redact_spec(suggestion, usize::MAX as nat) == suggestion && suggestion.len() <= 1200 && match value {
        Some(v) => redact_spec(v, usize::MAX as nat) == v,
        None => true,
    }
}

pub fn privacy_ok(suggestion: &str, value: Option<&str>) -> (b: bool)
    ensures
        b == privacy_spec(suggestion@, crate::control_plane::opt_str(value)),
{
    let r = redact_text(suggestion, usize::MAX);
    if !str_eq(r.as_str(), suggestion) {
        return false;
    }
    let sv = chars_of(suggestion);
    if sv.len() > 1200 {
        return false;
    }
    match value {
        Some(v) => {
            let rv = redact_text(v, usize::MAX);
            str_eq(rv.as_str(), v)
        },
        None => true,
    }
}

/// The hash of the baseline an eval compares against.
pub open spec fn baseline_hash_spec(fingerprint: Seq<char>) -> Seq<char> {
    sha256_text(fingerprint + ":"@ + eval_runner_version())
}

pub fn baseline_hash(fingerprint: &str) -> (r: String)
    ensures
        r@ == baseline_hash_spec(fingerprint@),
{
    let mut t = owned(fingerprint);
    push_str(&mut t, ":");
    push_str(&mut t, "context-integrity-v1");
    sha256_str(t.as_str())
}

/// The hash of the treatment: the baseline with this candidate revision
/// applied.
pub open spec fn treatment_hash_spec(
    baseline: Seq<char>,
    candidate_id: Seq<char>,
    revision: i64,
    payload_hash: Seq<char>,
) -> Seq<char> {
    sha256_text(
        baseline + ":"@ + candidate_id + ":"@ + int_decimal(revision as int) + ":"@ + payload_hash,
    )
}

pub fn treatment_hash(baseline: &str, candidate_id: &str, revision: i64, payload_hash: &str) -> (r:
    String)
    ensures
        r@ == treatment_hash_spec(baseline@, candidate_id@, revision, payload_hash@),
{
    let mut t = owned(baseline);
    push_str(&mut t, ":");
    push_str(&mut t, candidate_id);
    push_str(&mut t, ":");
    let rv = i64_string(revision);
    push_str(&mut t, rv.as_str());
    push_str(&mut t, ":");
    push_str(&mut t, payload_hash);
    sha256_str(t.as_str())
}

} // verus!
