//! Admission of a chat turn: the decisions taken on the rows a send reads
//! before any route, credential or provider work. A retry may present the
//! same identity again; admission never guesses the latest unfinished
//! message and never reopens a turn bound elsewhere.
use vstd::prelude::*;
use crate::errors::AppError;
use crate::evolution::{sha256_str, sha256_text};
use crate::objective::{AgentMode, ObjectiveKind, ObjectiveSnapshot, ObjectiveStatus, TurnCapability};
use crate::text::{
    chars_of, i64_string, int_decimal, is_blank, owned, prefix_chars, push_str, str_eq, take_chars, trim,
};

verus! {

broadcast use vstd::string::group_string_axioms;

/// Whether a session may start a run: refused while an update restart is
/// reserved, then while the session already runs one.
pub fn chat_run_admission(session_busy: bool, restart_reserved: bool) -> (r: Result<(), AppError>)
    ensures
        restart_reserved ==> (r matches Err(e) && e.message()
            == "应用更新已进入安全重启阶段，请等待自动恢复工作区"@),
        !restart_reserved && session_busy ==> (r matches Err(e) && e.message() == "CHAT_RUN_BUSY"@),
        !restart_reserved && !session_busy ==> r is Ok,
{
    if restart_reserved {
        return Err(AppError::Other(owned("应用更新已进入安全重启阶段，请等待自动恢复工作区")));
    }
    if session_busy {
        return Err(AppError::Other(owned("CHAT_RUN_BUSY")));
    }
    Ok(())
}

/// The root turn's identity: the one requested when it is not blank, else
/// the freshly made one.
pub fn root_turn_identity(requested: Option<&str>, fresh: String) -> (r: String)
    ensures
        r@ == match requested {
            Some(q) => if trim(q@).len() > 0 {
                q@
            } else {
                fresh@
            },
            None => fresh@,
        },
{
    match requested {
        Some(q) => if !is_blank(q) {
            owned(q)
        } else {
            fresh
        },
        None => fresh,
    }
}

/// Admission of the root user message. `session_count` is the number of
/// sessions with the given id; `existing_root` is the message already
/// stored under the root turn's id (its session, role and content). On
/// success, whether the root message is still to be written.
pub fn chat_root_admission(
    content: &str,
    session_count: i64,
    session_id: &str,
    existing_root: Option<(String, String, String)>,
) -> (r: Result<bool, AppError>)
    ensures
        trim(content@).len() == 0 ==> (r matches Err(e) && e.message()
            == "chat input cannot be empty"@),
        trim(content@).len() > 0 && session_count != 1 ==> (r matches Err(e) && e.message()
            == "chat session identity is missing"@),
        trim(content@).len() > 0 && session_count == 1 ==> match existing_root {
            None => r matches Ok(true),
            Some((s, role, c)) => if s@ == session_id@ && role@ == "user"@ && c@ == content@ {
                r matches Ok(false)
            } else {
                (r matches Err(e) && e.message() == "chat root message identity/content mismatch"@)
            },
        },
{
    if is_blank(content) {
        return Err(AppError::Other(owned("chat input cannot be empty")));
    }
    if session_count != 1 {
        return Err(AppError::Other(owned("chat session identity is missing")));
    }
    match existing_root {
        None => Ok(true),
        Some((s, role, c)) => {
            if str_eq(s.as_str(), session_id) && str_eq(role.as_str(), "user") && str_eq(
                c.as_str(),
                content,
            ) {
                Ok(false)
            } else {
                Err(AppError::Other(owned("chat root message identity/content mismatch")))
            }
        },
    }
}

/// The title of a new task segment: the first 60 characters of the input,
/// or `新任务` when they are blank.
pub fn segment_title(content: &str) -> (r: String)
    ensures
        r@ == if trim(prefix_chars(content@, 60)).len() == 0 {
            "新任务"@
        } else {
            prefix_chars(content@, 60)
        },
{
    let t = take_chars(content, 60);
    if is_blank(t.as_str()) {
        owned("新任务")
    } else {
        t
    }
}

/// Admission of the root turn's state row, given the session it is already
/// bound to, if any. On success, whether the row is still to be written.
pub fn turn_binding_admission(bound_session: Option<&str>, session_id: &str) -> (r: Result<
    bool,
    AppError,
>)
    ensures
        match bound_session {
            None => r matches Ok(true),
            Some(b) => if b@ == session_id@ {
                r matches Ok(false)
            } else {
                (r matches Err(e) && e.message() == "chat root turn is already bound to another session"@)
            },
        },
{
    match bound_session {
        None => Ok(true),
        Some(b) => if str_eq(b, session_id) {
            Ok(false)
        } else {
            Err(AppError::Other(owned("chat root turn is already bound to another session")))
        },
    }
}

/// How a new turn relates to the session's open objectives.
#[derive(Debug)]
pub enum ContinuationResolution {
    /// The turn is already bound to this objective.
    AlreadyBound { objective_id: String },
    /// No open objective to continue.
    Unfound,
    /// Exactly one open objective, continued from its latest turn.
    Unique {
        objective_id: String,
        continuation_root_turn_id: String,
        previous_segment_id: String,
        driver: String,
    },
    /// More than one open objective: nothing is guessed.
    Ambiguous,
}

/// What drives a continued objective, from its status and the status of its
/// latest unfinished delivery run.
pub open spec fn driver_spec(objective_status: Seq<char>, delivery_status: Option<Seq<char>>) -> Seq<
    char,
> {
    if objective_status == "waiting_system"@ {
        match delivery_status {
            Some(d) => if d == "waiting"@ {
                "recoverable_waiting_open"@
            } else if d == "awaiting_completion_arbitration"@ {
                "completion_arbitration_open"@
            } else {
                "system_owned_remediation_open"@
            },
            None => "system_owned_remediation_open"@,
        }
    } else if objective_status == "waiting_core_input"@ {
        "core_input_response"@
    } else if objective_status == "waiting_authorization"@ {
        "authorization_response"@
    } else if objective_status == "waiting_business_decision"@ {
        "business_decision_response"@
    } else {
        "authorized_objective_still_open"@
    }
}

pub fn continuation_driver(objective_status: &str, delivery_status: Option<&str>) -> (r: String)
    ensures
        r@ == driver_spec(
            objective_status@,
            match delivery_status {
                Some(d) => Some(d@),
                None => None,
            },
        ),
{
    if str_eq(objective_status, "waiting_system") {
        match delivery_status {
            Some(d) => if str_eq(d, "waiting") {
                owned("recoverable_waiting_open")
            } else if str_eq(d, "awaiting_completion_arbitration") {
                owned("completion_arbitration_open")
            } else {
                owned("system_owned_remediation_open")
            },
            None => owned("system_owned_remediation_open"),
        }
    } else if str_eq(objective_status, "waiting_core_input") {
        owned("core_input_response")
    } else if str_eq(objective_status, "waiting_authorization") {
        owned("authorization_response")
    } else if str_eq(objective_status, "waiting_business_decision") {
        owned("business_decision_response")
    } else {
        owned("authorized_objective_still_open")
    }
}

/// Resolves the continuation of a new turn from the rows read for it:
/// `current_binding` is the objective recorded on the turn's own state row
/// (`None` without a row), `candidates` the open objectives of earlier
/// segments as (objective, status, latest root turn, segment), at most two,
/// and `delivery_status` the status of the latest unfinished delivery run of
/// the single candidate, when there is one.
pub fn resolve_continuation(
    current_binding: Option<Option<String>>,
    candidates: Vec<(String, String, String, String)>,
    delivery_status: Option<String>,
) -> (r: ContinuationResolution)
    ensures
        match current_binding {
            Some(Some(b)) if b@.len() > 0 => (r matches ContinuationResolution::AlreadyBound {
                objective_id,
            } && objective_id@ == b@),
            _ => if candidates@.len() > 1 {
                r is Ambiguous
            } else if candidates@.len() == 0 {
                r is Unfound
            } else {
                r matches ContinuationResolution::Unique {
                    objective_id,
                    continuation_root_turn_id,
                    previous_segment_id,
                    driver,
                } && objective_id@ == candidates@[0].0@ && continuation_root_turn_id@
                    == candidates@[0].2@ && previous_segment_id@ == candidates@[0].3@ && driver@
                    == driver_spec(
                    candidates@[0].1@,
                    match delivery_status {
                        Some(d) => Some(d@),
                        None => None,
                    },
                )
            },
        },
{
    match current_binding {
        Some(Some(b)) => {
            if chars_of(b.as_str()).len() > 0 {
                return ContinuationResolution::AlreadyBound { objective_id: b };
            }
        },
        _ => {},
    }
    if candidates.len() > 1 {
        return ContinuationResolution::Ambiguous;
    }
    if candidates.len() == 0 {
        return ContinuationResolution::Unfound;
    }
    let mut candidates = candidates;
    let (objective_id, status, continuation_root_turn_id, previous_segment_id) = candidates.remove(
        0,
    );
    let driver = match &delivery_status {
        Some(d) => continuation_driver(status.as_str(), Some(d.as_str())),
        None => continuation_driver(status.as_str(), None),
    };
    ContinuationResolution::Unique { objective_id, continuation_root_turn_id, previous_segment_id, driver }
}

/// What admission carries forward from the continuation.
#[derive(Debug)]
pub struct ContinuationSetup {
    pub continuation_root_turn_id: Option<String>,
    pub previous_segment_id: Option<String>,
    pub expected_objective_id: Option<String>,
    pub driver: Option<String>,
}

/// Whether an optional string holds exactly `v`.
pub open spec fn holds(o: Option<String>, v: Seq<char>) -> bool {
    match o {
        Some(x) => x@ == v,
        None => false,
    }
}

/// The setup a resolution gives. An ambiguous one is refused; without an
/// open objective, `legacy` (the latest earlier segment without an
/// objective, as segment and root turn, read only for a contextual
/// approval) is continued.
pub fn continuation_setup(
    resolution: ContinuationResolution,
    legacy: Option<(String, String)>,
) -> (r: Result<ContinuationSetup, AppError>)
    ensures
        match resolution {
            ContinuationResolution::Ambiguous => (r matches Err(e) && e.message()
                == "CHAT_OBJECTIVE_IDENTITY_AMBIGUOUS: system reconciliation required"@),
            ContinuationResolution::AlreadyBound { objective_id } => (r matches Ok(s)
                && s.continuation_root_turn_id is None && s.previous_segment_id is None
                && s.driver is None && holds(s.expected_objective_id, objective_id@)),
            ContinuationResolution::Unique {
                objective_id,
                continuation_root_turn_id,
                previous_segment_id,
                driver,
            } => (r matches Ok(s) && holds(s.continuation_root_turn_id, continuation_root_turn_id@)
                && holds(s.previous_segment_id, previous_segment_id@) && holds(
                s.expected_objective_id,
                objective_id@,
            ) && holds(s.driver, driver@)),
            ContinuationResolution::Unfound => (r matches Ok(s) && s.expected_objective_id is None
                && s.driver is None && match legacy {
                Some((seg, root)) => holds(s.continuation_root_turn_id, root@) && holds(
                    s.previous_segment_id,
                    seg@,
                ),
                None => s.continuation_root_turn_id is None && s.previous_segment_id is None,
            }),
        },
{
    match resolution {
        ContinuationResolution::Ambiguous => Err(
            AppError::Other(owned("CHAT_OBJECTIVE_IDENTITY_AMBIGUOUS: system reconciliation required")),
        ),
        ContinuationResolution::AlreadyBound { objective_id } => Ok(
            ContinuationSetup {
                continuation_root_turn_id: None,
                previous_segment_id: None,
                expected_objective_id: Some(objective_id),
                driver: None,
            },
        ),
        ContinuationResolution::Unique {
            objective_id,
            continuation_root_turn_id,
            previous_segment_id,
            driver,
        } => Ok(
            ContinuationSetup {
                continuation_root_turn_id: Some(continuation_root_turn_id),
                previous_segment_id: Some(previous_segment_id),
                expected_objective_id: Some(objective_id),
                driver: Some(driver),
            },
        ),
        ContinuationResolution::Unfound => match legacy {
            Some((seg, root)) => Ok(
                ContinuationSetup {
                    continuation_root_turn_id: Some(root),
                    previous_segment_id: Some(seg),
                    expected_objective_id: None,
                    driver: None,
                },
            ),
            None => Ok(
                ContinuationSetup {
                    continuation_root_turn_id: None,
                    previous_segment_id: None,
                    expected_objective_id: None,
                    driver: None,
                },
            ),
        },
    }
}

/// The checks on the objective admission ensured: it must be the objective
/// the continuation expected, and a continued segment must not be the new
/// segment itself.
pub fn continuation_link_admission(
    expected_objective_id: Option<&str>,
    objective_id: &str,
    previous_segment_id: Option<&str>,
    segment_id: &str,
) -> (r: Result<(), AppError>)
    ensures
        (expected_objective_id matches Some(x) && x@ != objective_id@) ==> (r matches Err(e)
            && e.message() == "opaque Objective identity changed during admission"@),
        !(expected_objective_id matches Some(x) && x@ != objective_id@) && (previous_segment_id matches Some(
            p,
        ) && p@ == segment_id@) ==> (r matches Err(e) && e.message()
            == "chat continuation refused a self-referential segment"@),
        !(expected_objective_id matches Some(x) && x@ != objective_id@) && !(previous_segment_id matches Some(
            p,
        ) && p@ == segment_id@) ==> r is Ok,
{
    match expected_objective_id {
        Some(x) => if !str_eq(x, objective_id) {
            return Err(AppError::Other(owned("opaque Objective identity changed during admission")));
        },
        None => {},
    }
    match previous_segment_id {
        Some(p) => if str_eq(p, segment_id) {
            return Err(AppError::Other(owned("chat continuation refused a self-referential segment")));
        },
        None => {},
    }
    Ok(())
}

// ── Settling a turn whose run failed ─────────────────────────────────────

/// The signature recorded for a technical failure: `sha256:` and the hex
/// digest of its evidence.
pub open spec fn failure_signature_spec(evidence: Seq<char>) -> Seq<char> {
    "sha256:"@ + sha256_text(evidence)
}

pub fn failure_signature(evidence: &str) -> (r: String)
    ensures
        r@ == failure_signature_spec(evidence@),
{
    let mut r = owned("sha256:");
    let h = sha256_str(evidence);
    push_str(&mut r, h.as_str());
    r
}

/// What becomes of an objective whose run failed.
#[derive(Debug)]
pub enum FailureRoute {
    /// Nothing is applied; the durable objective is shown as it stands.
    ProjectAsIs,
    /// The objective waits for the user to authorize again.
    AuthorizationRequired { request_key: String, action_signature: String },
    /// The failure goes to system-owned recovery.
    TechnicalFailure { failure_code: String, failure_signature: String },
}

/// How a run's error settles its objective: a terminal objective is shown
/// as it stands; a runner holding an older revision is refused; an expired
/// ChatGPT login asks for authorization again; any other error goes to
/// recovery as `agent_loop_error`, signed by the error text.
pub fn error_settlement(
    objective: &ObjectiveSnapshot,
    expected_revision: i64,
    auth_expired: bool,
    error_text: &str,
) -> (r: Result<FailureRoute, AppError>)
    ensures
        objective.status.spec_is_terminal() ==> r matches Ok(FailureRoute::ProjectAsIs),
        !objective.status.spec_is_terminal() && objective.revision != expected_revision ==> (r matches Err(
            e,
        ) && e.message() == "stale chat runner revision: expected "@ + int_decimal(
            expected_revision as int,
        ) + ", actual "@ + int_decimal(objective.revision as int)),
        !objective.status.spec_is_terminal() && objective.revision == expected_revision
            && auth_expired ==> (r matches Ok(FailureRoute::AuthorizationRequired { request_key, action_signature })
            && request_key@ == "chatgpt-auth:"@ + objective.id@ && action_signature@
            == "oauth:chatgpt:resume:"@ + objective.id@),
        !objective.status.spec_is_terminal() && objective.revision == expected_revision
            && !auth_expired ==> (r matches Ok(FailureRoute::TechnicalFailure { failure_code, failure_signature })
            && failure_code@ == "agent_loop_error"@ && failure_signature@ == failure_signature_spec(
            error_text@,
        )),
{
    if objective.status.is_terminal() {
        return Ok(FailureRoute::ProjectAsIs);
    }
    if objective.revision != expected_revision {
        let mut m = owned("stale chat runner revision: expected ");
        let a = i64_string(expected_revision);
        push_str(&mut m, a.as_str());
        push_str(&mut m, ", actual ");
        let b = i64_string(objective.revision);
        push_str(&mut m, b.as_str());
        return Err(AppError::Other(m));
    }
    if auth_expired {
        let mut request_key = owned("chatgpt-auth:");
        push_str(&mut request_key, objective.id.as_str());
        let mut action_signature = owned("oauth:chatgpt:resume:");
        push_str(&mut action_signature, objective.id.as_str());
        Ok(FailureRoute::AuthorizationRequired { request_key, action_signature })
    } else {
        Ok(
            FailureRoute::TechnicalFailure {
                failure_code: owned("agent_loop_error"),
                failure_signature: failure_signature(error_text),
            },
        )
    }
}

/// A runner that could not record its settlement: only the exact active
/// revision it ran is handed to recovery (`chat_settlement_failed`, signed by
/// the failure text); anything else is shown as it stands.
pub fn settlement_failure_route(objective: &ObjectiveSnapshot, expected_revision: i64, failure: &str) -> (r:
    FailureRoute)
    ensures
        objective.revision == expected_revision && objective.status == ObjectiveStatus::Active ==> (r matches FailureRoute::TechnicalFailure {
            failure_code,
            failure_signature,
        } && failure_code@ == "chat_settlement_failed"@ && failure_signature@
            == failure_signature_spec(failure@)),
        !(objective.revision == expected_revision && objective.status == ObjectiveStatus::Active)
            ==> r is ProjectAsIs,
{
    if objective.revision != expected_revision || objective.status != ObjectiveStatus::Active {
        return FailureRoute::ProjectAsIs;
    }
    FailureRoute::TechnicalFailure {
        failure_code: owned("chat_settlement_failed"),
        failure_signature: failure_signature(failure),
    }
}

/// The durable identity of a run whose setup was abandoned after admission:
/// its root turn, objective and admitted revision. Without an objective (no
/// admission, or only a root) there is nothing to recover; a partial
/// identity is refused.
pub fn aborted_setup_identity(
    root_turn_id: Option<String>,
    objective_id: Option<String>,
    objective_revision: Option<i64>,
) -> (r: Result<Option<(String, String, i64)>, AppError>)
    ensures
        match (root_turn_id, objective_id, objective_revision) {
            (Some(t), Some(o), Some(v)) => (r matches Ok(Some((a, b, c))) && a@ == t@ && b@ == o@
                && c == v),
            (_, None, None) => r matches Ok(None),
            _ => (r matches Err(e) && e.message()
                == "aborted chat setup has an incomplete Objective/root/revision identity"@),
        },
{
    match (root_turn_id, objective_id, objective_revision) {
        (Some(t), Some(o), Some(v)) => Ok(Some((t, o, v))),
        (_, None, None) => Ok(None),
        _ => Err(
            AppError::Other(owned("aborted chat setup has an incomplete Objective/root/revision identity")),
        ),
    }
}

/// How an abandoned setup settles the objective it admitted: refused when
/// the objective belongs to another session or neither starts nor resumes
/// at the run's root turn; the exact admitted revision, still active, goes to
/// recovery as `chat_setup_aborted` (signed by the run's identity); a newer
/// or settled objective is shown as it stands.
pub fn aborted_setup_route(
    objective: &ObjectiveSnapshot,
    session_id: &str,
    root_turn_id: &str,
    admitted_revision: i64,
    run_instance_id: &str,
) -> (r: Result<FailureRoute, AppError>)
    ensures
        !(holds(objective.session_id, session_id@) && (holds(objective.root_turn_id, root_turn_id@)
            || holds(objective.resume_cursor, root_turn_id@))) ==> (r matches Err(e) && e.message()
            == "aborted chat setup durable identity mismatch"@),
        holds(objective.session_id, session_id@) && (holds(objective.root_turn_id, root_turn_id@)
            || holds(objective.resume_cursor, root_turn_id@)) ==> if objective.status
            == ObjectiveStatus::Active && objective.revision == admitted_revision {
            r matches Ok(FailureRoute::TechnicalFailure { failure_code, failure_signature })
                && failure_code@ == "chat_setup_aborted"@ && failure_signature@
                == failure_signature_spec("chat_setup_aborted:"@ + run_instance_id@)
        } else {
            r matches Ok(FailureRoute::ProjectAsIs)
        },
{
    let session_ok = match &objective.session_id {
        Some(s) => str_eq(s.as_str(), session_id),
        None => false,
    };
    let root_ok = match &objective.root_turn_id {
        Some(t) => str_eq(t.as_str(), root_turn_id),
        None => false,
    };
    let cursor_ok = match &objective.resume_cursor {
        Some(t) => str_eq(t.as_str(), root_turn_id),
        None => false,
    };
    if !session_ok || !(root_ok || cursor_ok) {
        return Err(AppError::Other(owned("aborted chat setup durable identity mismatch")));
    }
    if objective.status == ObjectiveStatus::Active && objective.revision == admitted_revision {
        let mut evidence = owned("chat_setup_aborted:");
        push_str(&mut evidence, run_instance_id);
        Ok(
            FailureRoute::TechnicalFailure {
                failure_code: owned("chat_setup_aborted"),
                failure_signature: failure_signature(evidence.as_str()),
            },
        )
    } else {
        Ok(FailureRoute::ProjectAsIs)
    }
}

// ── Resuming an objective from system recovery ───────────────────────────

/// Whether a claimed objective is resumed, and how.
#[derive(Debug)]
pub enum ResumeStart {
    /// The objective no longer waits on the system: nothing to do.
    NotWaiting,
    /// Resume in this session from this root turn.
    Resume { session_id: String, root_turn_id: String },
}

/// The checks before resuming a claimed objective: it must wait on the
/// system, the mutation permit must be for it, and it must name its session
/// and a turn to resume from (its resume cursor, else its root turn).
pub fn resume_admission(objective: &ObjectiveSnapshot, permit_objective_id: &str) -> (r: Result<
    ResumeStart,
    AppError,
>)
    ensures
        objective.status != ObjectiveStatus::WaitingSystem ==> r matches Ok(ResumeStart::NotWaiting),
        objective.status == ObjectiveStatus::WaitingSystem && permit_objective_id@ != objective.id@
            ==> (r matches Err(e) && e.message() == "chat recovery mutation permit objective mismatch"@),
        objective.status == ObjectiveStatus::WaitingSystem && permit_objective_id@ == objective.id@
            ==> match objective.session_id {
            None => (r matches Err(e) && e.message() == "chat objective has no session identity"@),
            Some(s) => match (match objective.resume_cursor {
                Some(c) => Some(c),
                None => objective.root_turn_id,
            }) {
                None => (r matches Err(e) && e.message() == "chat objective has no active resume cursor"@),
                Some(t) => (r matches Ok(ResumeStart::Resume { session_id, root_turn_id })
                    && session_id@ == s@ && root_turn_id@ == t@),
            },
        },
{
    if objective.status != ObjectiveStatus::WaitingSystem {
        return Ok(ResumeStart::NotWaiting);
    }
    if !str_eq(permit_objective_id, objective.id.as_str()) {
        return Err(AppError::Other(owned("chat recovery mutation permit objective mismatch")));
    }
    let session_id = match &objective.session_id {
        Some(s) => owned(s.as_str()),
        None => return Err(AppError::Other(owned("chat objective has no session identity"))),
    };
    let root_turn_id = match &objective.resume_cursor {
        Some(c) => owned(c.as_str()),
        None => match &objective.root_turn_id {
            Some(t) => owned(t.as_str()),
            None => return Err(AppError::Other(owned("chat objective has no active resume cursor"))),
        },
    };
    Ok(ResumeStart::Resume { session_id, root_turn_id })
}

/// The resumed turn must still be bound to the claimed objective.
pub fn resume_binding_admission(current_binding: Option<&str>, objective_id: &str) -> (r: Result<
    (),
    AppError,
>)
    ensures
        (current_binding matches Some(b) && b@ == objective_id@) ==> r is Ok,
        !(current_binding matches Some(b) && b@ == objective_id@) ==> (r matches Err(e) && e.message()
            == "chat objective resume cursor is not bound to the claimed Objective"@),
{
    match current_binding {
        Some(b) => if str_eq(b, objective_id) {
            return Ok(());
        },
        None => {},
    }
    Err(AppError::Other(owned("chat objective resume cursor is not bound to the claimed Objective")))
}

/// The agent mode and capability a resumed objective runs with, by its
/// kind; a legacy objective is refused until its identity is reconciled.
pub fn resume_mode(kind: ObjectiveKind) -> (r: Result<(AgentMode, TurnCapability), AppError>)
    ensures
        kind == ObjectiveKind::Informational ==> r matches Ok(
            (AgentMode::Interactive, TurnCapability::ReviewOnly),
        ),
        kind == ObjectiveKind::LocalMutation ==> r matches Ok(
            (AgentMode::Execute, TurnCapability::Implement),
        ),
        kind == ObjectiveKind::Delivery || kind == ObjectiveKind::Live ==> r matches Ok(
            (AgentMode::Execute, TurnCapability::Deliver),
        ),
        kind == ObjectiveKind::LegacyOrphan ==> (r matches Err(e) && e.message()
            == "legacy objective requires identity reconciliation before resume"@),
{
    match kind {
        ObjectiveKind::Informational => Ok((AgentMode::Interactive, TurnCapability::ReviewOnly)),
        ObjectiveKind::LocalMutation => Ok((AgentMode::Execute, TurnCapability::Implement)),
        ObjectiveKind::Delivery | ObjectiveKind::Live => Ok((AgentMode::Execute, TurnCapability::Deliver)),
        ObjectiveKind::LegacyOrphan => Err(
            AppError::Other(owned("legacy objective requires identity reconciliation before resume")),
        ),
    }
}

} // verus!
