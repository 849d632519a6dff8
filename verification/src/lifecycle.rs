//! The lifecycle of an improvement candidate: an approved learning event
//! becomes a candidate, an activation-safety eval decides whether it may
//! go live, activation applies it exactly once, and rollback undoes it
//! unless the target was changed since.
//!
//! The stages are stored by name; `step` is the transition relation the
//! command layer follows, and the decision functions below are the checks
//! it makes before each transition.
use vstd::prelude::*;
use crate::errors::AppError;
use crate::evolution::{sha256_str, sha256_text, CaseOutcome};
use crate::text::{i64_string, int_decimal, owned, push_str, str_eq};

verus! {

broadcast use vstd::string::group_string_axioms;

/// Where a candidate stands.
#[derive(Debug, Clone, Copy, PartialEq, Eq, Structural)]
pub enum Stage {
    Approved,
    EvalFailed,
    EvalError,
    EvalStale,
    PendingActivation,
    Activating,
    Active,
    RolledBack,
    RollbackConflict,
}

/// What happens to a candidate.
#[derive(Debug, Clone, Copy, PartialEq, Eq, Structural)]
pub enum CandidateEvent {
    EvalPassed,
    EvalFailed,
    EvalErrored,
    /// The target changed between the eval and the activation.
    TargetChanged,
    Activated,
    RolledBack,
    /// The target changed after activation, so rollback left it alone.
    RollbackConflicted,
}

pub open spec fn stage_name_spec(s: Stage) -> Seq<char> {
    match s {
        Stage::Approved => "approved"@,
        Stage::EvalFailed => "eval_failed"@,
        Stage::EvalError => "eval_error"@,
        Stage::EvalStale => "eval_stale"@,
        Stage::PendingActivation => "pending_activation"@,
        Stage::Activating => "activating"@,
        Stage::Active => "active"@,
        Stage::RolledBack => "rolled_back"@,
        Stage::RollbackConflict => "rollback_conflict"@,
    }
}

impl Stage {
    /// The stage's stored name.
    pub fn name(&self) -> (r: &'static str)
        ensures
            r@ == stage_name_spec(*self),
    {
        match self {
            Stage::Approved => "approved",
            Stage::EvalFailed => "eval_failed",
            Stage::EvalError => "eval_error",
            Stage::EvalStale => "eval_stale",
            Stage::PendingActivation => "pending_activation",
            Stage::Activating => "activating",
            Stage::Active => "active",
            Stage::RolledBack => "rolled_back",
            Stage::RollbackConflict => "rollback_conflict",
        }
    }
}

/// The stage stored under a name.
pub open spec fn stage_of_name(name: Seq<char>) -> Option<Stage> {
    if name == "approved"@ {
        Some(Stage::Approved)
    } else if name == "eval_failed"@ {
        Some(Stage::EvalFailed)
    } else if name == "eval_error"@ {
        Some(Stage::EvalError)
    } else if name == "eval_stale"@ {
        Some(Stage::EvalStale)
    } else if name == "pending_activation"@ {
        Some(Stage::PendingActivation)
    } else if name == "activating"@ {
        Some(Stage::Activating)
    } else if name == "active"@ {
        Some(Stage::Active)
    } else if name == "rolled_back"@ {
        Some(Stage::RolledBack)
    } else if name == "rollback_conflict"@ {
        Some(Stage::RollbackConflict)
    } else {
        None
    }
}

pub fn parse_stage(name: &str) -> (r: Option<Stage>)
    ensures
        r == stage_of_name(name@),
{
    if str_eq(name, "approved") {
        Some(Stage::Approved)
    } else if str_eq(name, "eval_failed") {
        Some(Stage::EvalFailed)
    } else if str_eq(name, "eval_error") {
        Some(Stage::EvalError)
    } else if str_eq(name, "eval_stale") {
        Some(Stage::EvalStale)
    } else if str_eq(name, "pending_activation") {
        Some(Stage::PendingActivation)
    } else if str_eq(name, "activating") {
        Some(Stage::Activating)
    } else if str_eq(name, "active") {
        Some(Stage::Active)
    } else if str_eq(name, "rolled_back") {
        Some(Stage::RolledBack)
    } else if str_eq(name, "rollback_conflict") {
        Some(Stage::RollbackConflict)
    } else {
        None
    }
}

/// A stage from which an eval may run.
pub open spec fn eval_ready(s: Stage) -> bool {
    s == Stage::Approved || s == Stage::EvalFailed || s == Stage::EvalError || s == Stage::EvalStale
}

/// The stage an event leads to; `None` where the event cannot happen.
pub open spec fn step(s: Stage, e: CandidateEvent) -> Option<Stage> {
    match e {
        CandidateEvent::EvalPassed => if eval_ready(s) {
            Some(Stage::PendingActivation)
        } else {
            None
        },
        CandidateEvent::EvalFailed => if eval_ready(s) {
            Some(Stage::EvalFailed)
        } else {
            None
        },
        CandidateEvent::EvalErrored => if eval_ready(s) {
            Some(Stage::EvalError)
        } else {
            None
        },
        CandidateEvent::TargetChanged => if s == Stage::PendingActivation {
            Some(Stage::EvalStale)
        } else {
            None
        },
        CandidateEvent::Activated => if s == Stage::PendingActivation {
            Some(Stage::Active)
        } else {
            None
        },
        CandidateEvent::RolledBack => if s == Stage::Active {
            Some(Stage::RolledBack)
        } else {
            None
        },
        CandidateEvent::RollbackConflicted => if s == Stage::Active {
            Some(Stage::RollbackConflict)
        } else {
            None
        },
    }
}

pub fn next_stage(s: Stage, e: CandidateEvent) -> (r: Option<Stage>)
    ensures
        r == step(s, e),
{
    let ready = match s {
        Stage::Approved | Stage::EvalFailed | Stage::EvalError | Stage::EvalStale => true,
        _ => false,
    };
    match e {
        CandidateEvent::EvalPassed => if ready {
            Some(Stage::PendingActivation)
        } else {
            None
        },
        CandidateEvent::EvalFailed => if ready {
            Some(Stage::EvalFailed)
        } else {
            None
        },
        CandidateEvent::EvalErrored => if ready {
            Some(Stage::EvalError)
        } else {
            None
        },
        CandidateEvent::TargetChanged => match s {
            Stage::PendingActivation => Some(Stage::EvalStale),
            _ => None,
        },
        CandidateEvent::Activated => match s {
            Stage::PendingActivation => Some(Stage::Active),
            _ => None,
        },
        CandidateEvent::RolledBack => match s {
            Stage::Active => Some(Stage::RolledBack),
            _ => None,
        },
        CandidateEvent::RollbackConflicted => match s {
            Stage::Active => Some(Stage::RollbackConflict),
            _ => None,
        },
    }
}

/// The stage after a sequence of events; `None` once one cannot happen.
pub open spec fn run(s: Stage, events: Seq<CandidateEvent>) -> Option<Stage>
    decreases events.len(),
{
    if events.len() == 0 {
        Some(s)
    } else {
        match run(s, events.drop_last()) {
            Some(t) => step(t, events.last()),
            None => None,
        }
    }
}

/// Stages only a passed eval leads into.
pub open spec fn past_eval(s: Stage) -> bool {
    s == Stage::PendingActivation || s == Stage::Activating || s == Stage::Active || s
        == Stage::RolledBack || s == Stage::RollbackConflict
}

pub open spec fn has_passed_eval(events: Seq<CandidateEvent>) -> bool {
    exists|i: int| 0 <= i < events.len() && events[i] == CandidateEvent::EvalPassed
}

/// A candidate goes live only after an eval passed: from any stage that
/// no passed eval led to, a sequence of events that ends in `Active`
/// contains a passed eval.
pub proof fn lemma_active_needs_passed_eval(s: Stage, events: Seq<CandidateEvent>)
    requires
        !past_eval(s),
        run(s, events) == Some(Stage::Active),
    ensures
        has_passed_eval(events),
{
    lemma_past_eval_needs_pass(s, events);
}

proof fn lemma_past_eval_needs_pass(s: Stage, events: Seq<CandidateEvent>)
    requires
        !past_eval(s),
    ensures
        run(s, events) matches Some(t) && past_eval(t) ==> has_passed_eval(events),
    decreases events.len(),
{
    if events.len() > 0 {
        let d = events.drop_last();
        lemma_past_eval_needs_pass(s, d);
        if has_passed_eval(d) {
            let i = choose|i: int| 0 <= i < d.len() && d[i] == CandidateEvent::EvalPassed;
            assert(events[i] == d[i]);
        }
        if events.last() == CandidateEvent::EvalPassed {
            assert(events[events.len() - 1] == CandidateEvent::EvalPassed);
        }
    }
}

/// A target change after the eval demands a fresh one: from `EvalStale`,
/// no sequence of events without a passed eval makes the candidate live.
pub proof fn lemma_stale_needs_fresh_eval(events: Seq<CandidateEvent>)
    requires
        !has_passed_eval(events),
    ensures
        run(Stage::EvalStale, events) != Some(Stage::Active),
{
    lemma_past_eval_needs_pass(Stage::EvalStale, events);
}

/// Rollback and activation settle: a rolled-back or conflicted candidate
/// accepts no further event, and an active one accepts only a rollback.
pub proof fn lemma_settled_stages(e: CandidateEvent)
    ensures
        step(Stage::RolledBack, e) is None,
        step(Stage::RollbackConflict, e) is None,
        step(Stage::Active, e) is Some ==> (e == CandidateEvent::RolledBack || e
            == CandidateEvent::RollbackConflicted),
{
}

// ── Checks before each transition ────────────────────────────────────────

/// An eval may run only from a stage that is ready for one.
pub fn eval_admission(candidate_id: &str, state: &str) -> (r: Result<(), AppError>)
    ensures
        r is Ok <==> (stage_of_name(state@) matches Some(s) && eval_ready(s)),
        r matches Err(e) ==> e.message() == "candidate "@ + candidate_id@ + " cannot run Eval from "@
            + state@,
{
    match parse_stage(state) {
        Some(Stage::Approved) | Some(Stage::EvalFailed) | Some(Stage::EvalError) | Some(
            Stage::EvalStale,
        ) => Ok(()),
        _ => {
            let mut m = owned("candidate ");
            push_str(&mut m, candidate_id);
            push_str(&mut m, " cannot run Eval from ");
            push_str(&mut m, state);
            Err(AppError::Other(m))
        },
    }
}

/// How many outcomes passed.
pub open spec fn passed_count_spec(outcomes: Seq<CaseOutcome>) -> nat
    decreases outcomes.len(),
{
    if outcomes.len() == 0 {
        0
    } else {
        passed_count_spec(outcomes.drop_last()) + if outcomes.last().status@ == "passed"@ {
            1nat
        } else {
            0nat
        }
    }
}

/// The verdict of an eval run and what it records.
#[derive(Debug)]
pub struct EvalVerdict {
    pub passed_count: i64,
    pub failed_count: i64,
    /// `passed` or `failed`.
    pub verdict: &'static str,
    /// The stage the candidate moves to.
    pub stage: Stage,
    /// Status of the job event: `completed` or `failed`.
    pub event_status: &'static str,
    pub event_title: &'static str,
}

/// An eval passes when every case passed; then the candidate awaits
/// activation, otherwise it is marked as having failed its eval.
pub fn eval_verdict(outcomes: &Vec<CaseOutcome>) -> (r: EvalVerdict)
    requires
        outcomes@.len() <= i64::MAX,
    ensures
        r.passed_count == passed_count_spec(outcomes@),
        r.failed_count == outcomes@.len() - passed_count_spec(outcomes@),
        (r.failed_count == 0) ==> (r.verdict@ == "passed"@ && r.stage == Stage::PendingActivation
            && r.event_status@ == "completed"@ && r.event_title@ == "激活安全 Evals 全部通过"@),
        (r.failed_count != 0) ==> (r.verdict@ == "failed"@ && r.stage == Stage::EvalFailed
            && r.event_status@ == "failed"@ && r.event_title@ == "激活安全 Evals 未通过，未激活"@),
{
    let mut passed: i64 = 0;
    let mut i: usize = 0;
    proof {
        assert(outcomes@.take(0) =~= Seq::<CaseOutcome>::empty());
    }
    while i < outcomes.len()
        invariant
            outcomes@.len() <= i64::MAX,
            i <= outcomes@.len(),
            passed == passed_count_spec(outcomes@.take(i as int)),
            passed <= i,
        decreases outcomes@.len() - i,
    {
        proof {
            assert(outcomes@.take(i + 1).drop_last() =~= outcomes@.take(i as int));
            assert(outcomes@.take(i + 1).last() == outcomes@[i as int]);
        }
        if str_eq(outcomes[i].status, "passed") {
            passed = passed + 1;
        }
        i = i + 1;
    }
    proof {
        assert(outcomes@.take(outcomes@.len() as int) =~= outcomes@);
    }
    let failed = outcomes.len() as i64 - passed;
    if failed == 0 {
        EvalVerdict {
            passed_count: passed,
            failed_count: failed,
            verdict: "passed",
            stage: Stage::PendingActivation,
            event_status: "completed",
            event_title: "激活安全 Evals 全部通过",
        }
    } else {
        EvalVerdict {
            passed_count: passed,
            failed_count: failed,
            verdict: "failed",
            stage: Stage::EvalFailed,
            event_status: "failed",
            event_title: "激活安全 Evals 未通过，未激活",
        }
    }
}

/// What an activation request does before any write.
#[derive(Debug)]
pub enum ActivationStart {
    /// The candidate is already live; nothing changes.
    AlreadyActive,
    /// Activate on the strength of this passed eval run.
    Proceed(String),
}

/// Activation needs the exact passed eval: an active candidate is left as
/// it is, and anything but a candidate awaiting activation with a passed
/// eval run is refused.
pub fn activation_admission(
    candidate_id: &str,
    state: &str,
    eval_status: Option<&str>,
    eval_run_id: Option<&str>,
) -> (r: Result<ActivationStart, AppError>)
    ensures
        state@ == "active"@ ==> r matches Ok(ActivationStart::AlreadyActive),
        state@ != "active"@ && (state@ != "pending_activation"@ || !(eval_status matches Some(
            s,
        ) && s@ == "passed"@)) ==> (r matches Err(e) && e.message() == "candidate "@
            + candidate_id@ + " requires exact passed Eval before activation"@),
        state@ == "pending_activation"@ && (eval_status matches Some(s) && s@ == "passed"@) ==> (
        match eval_run_id {
            Some(id) => (r matches Ok(ActivationStart::Proceed(x)) && x@ == id@),
            None => (r matches Err(e) && e.message() == "passed Eval run missing"@),
        }),
{
    proof {
        reveal_strlit("active");
        reveal_strlit("pending_activation");
        assert("active"@.len() != "pending_activation"@.len());
    }
    if str_eq(state, "active") {
        return Ok(ActivationStart::AlreadyActive);
    }
    let passed = match eval_status {
        Some(s) => str_eq(s, "passed"),
        None => false,
    };
    if !str_eq(state, "pending_activation") || !passed {
        let mut m = owned("candidate ");
        push_str(&mut m, candidate_id);
        push_str(&mut m, " requires exact passed Eval before activation");
        return Err(AppError::Other(m));
    }
    match eval_run_id {
        Some(id) => Ok(ActivationStart::Proceed(owned(id))),
        None => Err(AppError::Other(owned("passed Eval run missing"))),
    }
}

/// The refusal when the target changed between eval and activation.
pub fn stale_target_error() -> (r: AppError)
    ensures
        r.message() == "target changed after Eval; rerun Evals before activation"@,
{
    AppError::Other(owned("target changed after Eval; rerun Evals before activation"))
}

/// Activation's check that the target is still what the eval saw: refused
/// with `stale_target_error` exactly when the fingerprint recorded by the
/// eval differs from the current one.
pub fn target_freshness(recorded_fingerprint: &str, current_fingerprint: &str) -> (r: Result<
    (),
    AppError,
>)
    ensures
        recorded_fingerprint@ == current_fingerprint@ ==> r is Ok,
        recorded_fingerprint@ != current_fingerprint@ ==> (r matches Err(e) && e.message()
            == "target changed after Eval; rerun Evals before activation"@),
{
    if str_eq(recorded_fingerprint, current_fingerprint) {
        Ok(())
    } else {
        Err(stale_target_error())
    }
}

/// The hash of what activation puts live: the preference value (empty
/// when missing) for a preference, the suggestion otherwise.
pub open spec fn after_hash_spec(kind: Seq<char>, pref_value: Option<Seq<char>>, suggestion: Seq<char>) -> Seq<char> {
    if kind == "preference"@ {
        sha256_text(
            match pref_value {
                Some(v) => v,
                None => Seq::empty(),
            },
        )
    } else {
        sha256_text(suggestion)
    }
}

pub fn activation_after_hash(kind: &str, pref_value: Option<&str>, suggestion: &str) -> (r: String)
    ensures
        r@ == after_hash_spec(kind@, match pref_value {
            Some(v) => Some(v@),
            None => None,
        }, suggestion@),
{
    if str_eq(kind, "preference") {
        match pref_value {
            Some(v) => sha256_str(v),
            None => {
                let empty = String::new();
                sha256_str(empty.as_str())
            },
        }
    } else {
        sha256_str(suggestion)
    }
}

/// The key that makes an activation happen once:
/// `activate:{candidate}:{revision}:{eval run}:{payload hash}`.
pub fn activation_idempotency_key(
    candidate_id: &str,
    revision: i64,
    eval_run_id: &str,
    payload_hash: &str,
) -> (r: String)
    ensures
        r@ == "activate:"@ + candidate_id@ + ":"@ + int_decimal(revision as int) + ":"@
            + eval_run_id@ + ":"@ + payload_hash@,
{
    let mut k = owned("activate:");
    push_str(&mut k, candidate_id);
    push_str(&mut k, ":");
    let rev = i64_string(revision);
    push_str(&mut k, rev.as_str());
    push_str(&mut k, ":");
    push_str(&mut k, eval_run_id);
    push_str(&mut k, ":");
    push_str(&mut k, payload_hash);
    k
}

/// What a rollback request does before any write.
#[derive(Debug, Clone, Copy, PartialEq, Eq, Structural)]
pub enum RollbackStart {
    /// Already rolled back; nothing changes.
    AlreadyRolledBack,
    Proceed,
}

/// Only a live activation is rolled back; rolling back twice changes
/// nothing.
pub fn rollback_admission(activation_id: &str, status: &str) -> (r: Result<RollbackStart, AppError>)
    ensures
        status@ == "rolled_back"@ ==> r matches Ok(RollbackStart::AlreadyRolledBack),
        status@ == "active"@ ==> r matches Ok(RollbackStart::Proceed),
        status@ != "rolled_back"@ && status@ != "active"@ ==> (r matches Err(e) && e.message()
            == "activation "@ + activation_id@ + " is "@ + status@),
{
    proof {
        reveal_strlit("active");
        reveal_strlit("rolled_back");
        assert("active"@.len() != "rolled_back"@.len());
    }
    if str_eq(status, "rolled_back") {
        return Ok(RollbackStart::AlreadyRolledBack);
    }
    if !str_eq(status, "active") {
        let mut m = owned("activation ");
        push_str(&mut m, activation_id);
        push_str(&mut m, " is ");
        push_str(&mut m, status);
        return Err(AppError::Other(m));
    }
    Ok(RollbackStart::Proceed)
}

/// A preference rollback conflicts unless the preference still holds the
/// value this activation wrote, under this activation.
pub open spec fn preference_conflict_spec(
    current: Option<(Seq<char>, Option<Seq<char>>)>,
    activation_id: Seq<char>,
    after_hash: Seq<char>,
) -> bool {
    !(current matches Some((value, Some(owner))) && owner == activation_id && sha256_text(value)
        == after_hash)
}

pub fn preference_rollback_conflict(
    current: &Option<(String, Option<String>)>,
    activation_id: &str,
    after_hash: &str,
) -> (r: bool)
    ensures
        r == preference_conflict_spec(
            match current {
                Some((v, o)) => Some(
                    (
                        v@,
                        match o {
                            Some(x) => Some(x@),
                            None => None,
                        },
                    ),
                ),
                None => None,
            },
            activation_id@,
            after_hash@,
        ),
{
    match current {
        Some((value, Some(owner))) => {
            if !str_eq(owner.as_str(), activation_id) {
                return true;
            }
            let h = sha256_str(value.as_str());
            !str_eq(h.as_str(), after_hash)
        },
        _ => true,
    }
}

/// What a rollback records, by whether the target changed after
/// activation.
#[derive(Debug)]
pub struct RollbackResult {
    pub stage: Stage,
    pub event_status: &'static str,
    pub event_title: &'static str,
    pub reason: &'static str,
    pub job_status: &'static str,
    pub error: Option<&'static str>,
}

pub fn rollback_result(conflict: bool) -> (r: RollbackResult)
    ensures
        conflict ==> (r.stage == Stage::RollbackConflict && r.event_status@ == "failed"@
            && r.event_title@ == "目标已被后续修改，回滚未覆盖新值"@ && r.reason@ == "target_changed"@
            && r.job_status@ == "partial"@ && (r.error matches Some(m) && m@
            == "target changed after activation"@)),
        !conflict ==> (r.stage == Stage::RolledBack && r.event_status@ == "completed"@
            && r.event_title@ == "已按 activation receipt 精确回滚"@ && r.reason@ == "user_requested"@
            && r.job_status@ == "succeeded"@ && r.error is None),
{
    if conflict {
        RollbackResult {
            stage: Stage::RollbackConflict,
            event_status: "failed",
            event_title: "目标已被后续修改，回滚未覆盖新值",
            reason: "target_changed",
            job_status: "partial",
            error: Some("target changed after activation"),
        }
    } else {
        RollbackResult {
            stage: Stage::RolledBack,
            event_status: "completed",
            event_title: "已按 activation receipt 精确回滚",
            reason: "user_requested",
            job_status: "succeeded",
            error: None,
        }
    }
}

/// Only a pending learning event can be approved, accepted or rejected.
pub fn pending_event_admission(event_id: &str, status: &str) -> (r: Result<(), AppError>)
    ensures
        r is Ok <==> status@ == "pending"@,
        r matches Err(e) ==> e.message() == "learning event "@ + event_id@ + " already "@ + status@,
{
    if str_eq(status, "pending") {
        Ok(())
    } else {
        let mut m = owned("learning event ");
        push_str(&mut m, event_id);
        push_str(&mut m, " already ");
        push_str(&mut m, status);
        Err(AppError::Other(m))
    }
}

/// What follows an approval's eval.
#[derive(Debug, Clone, Copy)]
pub enum AfterApproval {
    /// Activate at once (the eval passed and auto-activation was asked).
    Activate,
    /// Close the job with this status.
    Finish(&'static str),
}

pub fn after_approval_eval(state: &str, auto_activate: bool) -> (r: AfterApproval)
    ensures
        state@ == "pending_activation"@ && auto_activate ==> r is Activate,
        state@ == "pending_activation"@ && !auto_activate ==> (r matches AfterApproval::Finish(s)
            && s@ == "succeeded"@),
        state@ != "pending_activation"@ ==> (r matches AfterApproval::Finish(s) && s@ == "partial"@),
{
    let pending = str_eq(state, "pending_activation");
    if pending && auto_activate {
        AfterApproval::Activate
    } else if pending {
        AfterApproval::Finish("succeeded")
    } else {
        AfterApproval::Finish("partial")
    }
}


// ── Review decisions on learning events ──────────────────────────────────

/// The key that makes one decision job per trigger, project and event:
/// `{trigger}:{cwd}:{candidate}`.
pub fn decision_job_key(trigger: &str, cwd: &str, candidate_id: &str) -> (r: String)
    ensures
        r@ == trigger@ + ":"@ + cwd@ + ":"@ + candidate_id@,
{
    let mut k = owned(trigger);
    push_str(&mut k, ":");
    push_str(&mut k, cwd);
    push_str(&mut k, ":");
    push_str(&mut k, candidate_id);
    k
}

/// Whether a decision job may start, given the status of the job already
/// recorded under its key: `Ok(false)` to create one, `Ok(true)` to
/// restart the recorded one after it failed; a job that succeeded or is
/// still running is not entered again.
pub fn decision_job_admission(candidate_id: &str, existing_status: Option<&str>) -> (r: Result<
    bool,
    AppError,
>)
    ensures
        existing_status is None ==> r matches Ok(false),
        existing_status matches Some(s) && s@ == "succeeded"@ ==> (r matches Err(e) && e.message()
            == "decision job for learning event "@ + candidate_id@ + " already succeeded"@),
        existing_status matches Some(s) && (s@ == "running"@ || s@ == "queued"@) ==> (r matches Err(
            e,
        ) && e.message() == "decision job for learning event "@ + candidate_id@
            + " is already running"@),
        existing_status matches Some(s) && s@ != "succeeded"@ && s@ != "running"@ && s@
            != "queued"@ ==> r matches Ok(true),
{
    proof {
        reveal_strlit("succeeded");
        reveal_strlit("running");
        reveal_strlit("queued");
        assert("succeeded"@.len() != "running"@.len() && "succeeded"@.len() != "queued"@.len());
    }
    match existing_status {
        None => Ok(false),
        Some(s) => {
            if str_eq(s, "succeeded") {
                let mut m = owned("decision job for learning event ");
                push_str(&mut m, candidate_id);
                push_str(&mut m, " already succeeded");
                Err(AppError::Other(m))
            } else if str_eq(s, "running") || str_eq(s, "queued") {
                let mut m = owned("decision job for learning event ");
                push_str(&mut m, candidate_id);
                push_str(&mut m, " is already running");
                Err(AppError::Other(m))
            } else {
                Ok(true)
            }
        },
    }
}

/// A memory candidate whose marker is already in the project memory was
/// written there; rejecting it would lie about the memory, so it is
/// refused.
pub fn reject_admission(event_id: &str, kind: &str, marker_present: bool) -> (r: Result<(), AppError>)
    ensures
        r is Err <==> (kind@ != "preference"@ && marker_present),
        r matches Err(e) ==> e.message() == "learning event "@ + event_id@
            + " was already written to project memory; retry accept to reconcile its audit state"@,
{
    if !str_eq(kind, "preference") && marker_present {
        let mut m = owned("learning event ");
        push_str(&mut m, event_id);
        push_str(
            &mut m,
            " was already written to project memory; retry accept to reconcile its audit state",
        );
        Err(AppError::Other(m))
    } else {
        Ok(())
    }
}

/// Where an accepted learning event is applied.
#[derive(Debug)]
pub enum Materialization {
    /// A preference `key = value`.
    Preference(String, String),
    /// A line in the project memory.
    Memory,
}

/// A preference event needs its key (a missing value is written empty);
/// every other kind goes to the project memory.
pub fn accept_materialization(
    kind: &str,
    pref_key: Option<String>,
    pref_value: Option<String>,
) -> (r: Result<Materialization, AppError>)
    ensures
        kind@ == "preference"@ ==> match pref_key {
            Some(k) => (r matches Ok(Materialization::Preference(a, b)) && a@ == k@ && b@ == (
            match pref_value {
                Some(v) => v@,
                None => ""@,
            })),
            None => (r matches Err(e) && e.message() == "preference learning event missing pref_key"@),
        },
        kind@ != "preference"@ ==> r matches Ok(Materialization::Memory),
{
    if str_eq(kind, "preference") {
        match pref_key {
            Some(k) => {
                let v = match pref_value {
                    Some(v) => v,
                    None => owned(""),
                };
                Ok(Materialization::Preference(k, v))
            },
            None => Err(AppError::Other(owned("preference learning event missing pref_key"))),
        }
    } else {
        Ok(Materialization::Memory)
    }
}

/// The refusal when the event left `pending` before the decision was
/// committed; `action` names what was being committed.
pub fn decision_raced_error(event_id: &str, action: &str) -> (r: AppError)
    ensures
        r.message() == "learning event "@ + event_id@ + " changed before "@ + action@
            + " could be committed"@,
{
    let mut m = owned("learning event ");
    push_str(&mut m, event_id);
    push_str(&mut m, " changed before ");
    push_str(&mut m, action);
    push_str(&mut m, " could be committed");
    AppError::Other(m)
}

} // verus!
