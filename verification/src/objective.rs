//! Durable chat objectives: their statuses, how a turn presents them, and
//! the decisions a chat turn takes before it starts (objective kind,
//! acceptance, agent mode, run admission).
use vstd::prelude::*;
use crate::text::{
    ascii_lower, ascii_lower_chars, chars_of, contains, contains_chars, str_eq, trim,
    trim_bounds, slice_chars,
};
use crate::errors::AppError;

verus! {

broadcast use vstd::string::group_string_axioms;

/// Failure code of a system-owned recovery that ran out of budget.
pub const TECHNICAL_RECOVERY_EXHAUSTED: &'static str = "technical_recovery_exhausted";

#[derive(Debug, Clone, Copy, PartialEq, Eq, Structural)]
pub enum ObjectiveStatus {
    Active,
    WaitingSystem,
    WaitingCoreInput,
    WaitingAuthorization,
    WaitingBusinessDecision,
    Completed,
    Cancelled,
    LegacyOrphan,
}

impl ObjectiveStatus {
    /// Completed and cancelled objectives never move again.
    pub open spec fn spec_is_terminal(&self) -> bool {
        *self == ObjectiveStatus::Completed || *self == ObjectiveStatus::Cancelled
    }

    #[verifier::when_used_as_spec(spec_is_terminal)]
    pub fn is_terminal(&self) -> (r: bool)
        ensures
            r == self.spec_is_terminal(),
    {
        match self {
            ObjectiveStatus::Completed | ObjectiveStatus::Cancelled => true,
            _ => false,
        }
    }

    pub open spec fn spec_as_str(self) -> Seq<char> {
        match self {
            ObjectiveStatus::Active => "active"@,
            ObjectiveStatus::WaitingSystem => "waiting_system"@,
            ObjectiveStatus::WaitingCoreInput => "waiting_core_input"@,
            ObjectiveStatus::WaitingAuthorization => "waiting_authorization"@,
            ObjectiveStatus::WaitingBusinessDecision => "waiting_business_decision"@,
            ObjectiveStatus::Completed => "completed"@,
            ObjectiveStatus::Cancelled => "cancelled"@,
            ObjectiveStatus::LegacyOrphan => "legacy_orphan"@,
        }
    }

    /// The status name stored in the `objectives` table.
    pub fn as_str(&self) -> (r: &'static str)
        ensures
            r@ == self.spec_as_str(),
    {
        match self {
            ObjectiveStatus::Active => "active",
            ObjectiveStatus::WaitingSystem => "waiting_system",
            ObjectiveStatus::WaitingCoreInput => "waiting_core_input",
            ObjectiveStatus::WaitingAuthorization => "waiting_authorization",
            ObjectiveStatus::WaitingBusinessDecision => "waiting_business_decision",
            ObjectiveStatus::Completed => "completed",
            ObjectiveStatus::Cancelled => "cancelled",
            ObjectiveStatus::LegacyOrphan => "legacy_orphan",
        }
    }
}

/// Why an objective stopped or is waiting.
#[derive(Debug, Clone, Copy, PartialEq, Eq, Structural)]
pub enum DecisionType {
    Waiting,
    CoreInputRequired,
    AuthorizationRequired,
    BusinessDecisionRequired,
    Completed,
    UserCancelled,
    FailedInternal,
}

impl DecisionType {
    pub open spec fn spec_as_str(self) -> Seq<char> {
        match self {
            DecisionType::Waiting => "waiting"@,
            DecisionType::CoreInputRequired => "core_input_required"@,
            DecisionType::AuthorizationRequired => "authorization_required"@,
            DecisionType::BusinessDecisionRequired => "business_decision_required"@,
            DecisionType::Completed => "completed"@,
            DecisionType::UserCancelled => "user_cancelled"@,
            DecisionType::FailedInternal => "failed_internal"@,
        }
    }

    pub fn as_str(&self) -> (r: &'static str)
        ensures
            r@ == self.spec_as_str(),
    {
        match self {
            DecisionType::Waiting => "waiting",
            DecisionType::CoreInputRequired => "core_input_required",
            DecisionType::AuthorizationRequired => "authorization_required",
            DecisionType::BusinessDecisionRequired => "business_decision_required",
            DecisionType::Completed => "completed",
            DecisionType::UserCancelled => "user_cancelled",
            DecisionType::FailedInternal => "failed_internal",
        }
    }
}

#[derive(Debug, Clone, Copy, PartialEq, Eq, Structural)]
pub enum ObjectiveKind {
    Informational,
    LocalMutation,
    Delivery,
    Live,
    LegacyOrphan,
}

#[derive(Debug, Clone, Copy, PartialEq, Eq, Structural)]
pub enum RecoveryDomain {
    Chat,
    Task,
}

/// What a turn is allowed to do.
#[derive(Debug, Clone, Copy, PartialEq, Eq, Structural)]
pub enum TurnCapability {
    ReviewOnly,
    Implement,
    Deliver,
}

#[derive(Debug, Clone, Copy, PartialEq, Eq, Structural)]
pub enum AgentMode {
    Interactive,
    Execute,
}

/// The fields of a durable objective that chat settlement reads.
#[derive(Debug)]
pub struct ObjectiveSnapshot {
    pub id: String,
    pub kind: ObjectiveKind,
    pub recovery_domain: RecoveryDomain,
    pub requested_acceptance: String,
    pub status: ObjectiveStatus,
    pub decision_type: DecisionType,
    pub failure_code: Option<String>,
    pub revision: i64,
    pub session_id: Option<String>,
    pub root_turn_id: Option<String>,
    pub resume_cursor: Option<String>,
}

impl ObjectiveSnapshot {
    /// A fresh, active objective at revision 1.
    pub fn new(id: &str, kind: ObjectiveKind, domain: RecoveryDomain, acceptance: &str) -> (r: Self)
        ensures
            r.id@ == id@,
            r.kind == kind,
            r.recovery_domain == domain,
            r.requested_acceptance@ == acceptance@,
            r.status == ObjectiveStatus::Active,
            r.decision_type == DecisionType::Waiting,
            r.failure_code is None,
            r.revision == 1,
            r.session_id is None,
            r.root_turn_id is None,
            r.resume_cursor is None,
    {
        ObjectiveSnapshot {
            id: id.to_owned(),
            kind,
            recovery_domain: domain,
            requested_acceptance: acceptance.to_owned(),
            status: ObjectiveStatus::Active,
            decision_type: DecisionType::Waiting,
            failure_code: None,
            revision: 1,
            session_id: None,
            root_turn_id: None,
            resume_cursor: None,
        }
    }
}

/// The objective waits on the system after its recovery budget ran out.
pub open spec fn recovery_exhausted(o: ObjectiveSnapshot) -> bool {
    o.status == ObjectiveStatus::WaitingSystem && o.failure_code is Some
        && o.failure_code->0@ == TECHNICAL_RECOVERY_EXHAUSTED@
}

fn is_recovery_exhausted(o: &ObjectiveSnapshot) -> (r: bool)
    ensures
        r == recovery_exhausted(*o),
{
    match &o.failure_code {
        Some(code) => o.status == ObjectiveStatus::WaitingSystem && str_eq(
            code.as_str(),
            TECHNICAL_RECOVERY_EXHAUSTED,
        ),
        None => false,
    }
}

pub open spec fn settlement_status_spec(o: ObjectiveSnapshot) -> Seq<char> {
    if recovery_exhausted(o) {
        "system_incident"@
    } else {
        match o.status {
            ObjectiveStatus::Completed => "completed"@,
            ObjectiveStatus::Cancelled => "cancelled"@,
            ObjectiveStatus::WaitingCoreInput | ObjectiveStatus::WaitingAuthorization
            | ObjectiveStatus::WaitingBusinessDecision => "waiting_user"@,
            _ => "waiting_system"@,
        }
    }
}

/// The settlement status a finished chat turn reports for its objective.
pub fn chat_settlement_status(objective: &ObjectiveSnapshot) -> (r: &'static str)
    ensures
        r@ == settlement_status_spec(*objective),
{
    if is_recovery_exhausted(objective) {
        return "system_incident";
    }
    match objective.status {
        ObjectiveStatus::Completed => "completed",
        ObjectiveStatus::Cancelled => "cancelled",
        ObjectiveStatus::WaitingCoreInput | ObjectiveStatus::WaitingAuthorization
        | ObjectiveStatus::WaitingBusinessDecision => "waiting_user",
        ObjectiveStatus::Active | ObjectiveStatus::WaitingSystem | ObjectiveStatus::LegacyOrphan =>
            "waiting_system",
    }
}

/// How one durable objective presents itself on the transport turn.
#[derive(Debug, Clone, Copy, PartialEq, Eq)]
pub struct ChatTurnProjection {
    pub phase: &'static str,
    pub activity_kind: &'static str,
    pub activity_label: &'static str,
    /// `Some` once the turn has stopped moving on its own.
    pub terminal_reason: Option<&'static str>,
}

/// `(phase, activity kind, activity label)` for an objective.
pub open spec fn projection_parts(o: ObjectiveSnapshot) -> (Seq<char>, Seq<char>, Seq<char>) {
    match o.status {
        ObjectiveStatus::Completed => ("finalizing"@, "objective_completed"@, "目标证据已满足"@),
        ObjectiveStatus::Cancelled => ("finalizing"@, "objective_cancelled"@, "已按用户要求停止"@),
        ObjectiveStatus::WaitingSystem => if recovery_exhausted(o) {
            ("waiting"@, TECHNICAL_RECOVERY_EXHAUSTED@, "自动恢复已达到安全上限；系统已登记故障，无需补充输入"@)
        } else {
            ("recovering"@, "system_recovery"@, "系统正在恢复并续接"@)
        },
        ObjectiveStatus::WaitingCoreInput => ("waiting"@, "core_input_required"@, "需要补充核心输入"@),
        ObjectiveStatus::WaitingAuthorization => ("waiting"@, "authorization_required"@, "等待必要授权"@),
        ObjectiveStatus::WaitingBusinessDecision => (
            "waiting"@,
            "business_decision_required"@,
            "等待业务决策"@,
        ),
        ObjectiveStatus::Active => ("working"@, "objective_active"@, "系统正在继续处理"@),
        ObjectiveStatus::LegacyOrphan => ("recovering"@, "legacy_reconciliation"@, "系统正在核对历史工作"@),
    }
}

/// Why the turn has settled, if it has.
pub open spec fn terminal_reason_spec(o: ObjectiveSnapshot) -> Option<Seq<char>> {
    if recovery_exhausted(o) {
        Some(TECHNICAL_RECOVERY_EXHAUSTED@)
    } else if o.status.spec_is_terminal() {
        Some(o.decision_type.spec_as_str())
    } else {
        None
    }
}

/// Presentation of an objective on its transport turn. Recovery that ran
/// out of budget is a settled turn even though the objective stays open.
pub fn chat_turn_projection(objective: &ObjectiveSnapshot) -> (p: ChatTurnProjection)
    ensures
        (p.phase@, p.activity_kind@, p.activity_label@) == projection_parts(*objective),
        p.terminal_reason is Some == terminal_reason_spec(*objective) is Some,
        p.terminal_reason is Some ==> p.terminal_reason->0@ == terminal_reason_spec(
            *objective,
        )->0,
{
    let recovery_exhausted = is_recovery_exhausted(objective);
    let (phase, activity_kind, activity_label) = match objective.status {
        ObjectiveStatus::Completed => ("finalizing", "objective_completed", "目标证据已满足"),
        ObjectiveStatus::Cancelled => ("finalizing", "objective_cancelled", "已按用户要求停止"),
        ObjectiveStatus::WaitingSystem => if recovery_exhausted {
            ("waiting", TECHNICAL_RECOVERY_EXHAUSTED, "自动恢复已达到安全上限；系统已登记故障，无需补充输入")
        } else {
            ("recovering", "system_recovery", "系统正在恢复并续接")
        },
        ObjectiveStatus::WaitingCoreInput => ("waiting", "core_input_required", "需要补充核心输入"),
        ObjectiveStatus::WaitingAuthorization => ("waiting", "authorization_required", "等待必要授权"),
        ObjectiveStatus::WaitingBusinessDecision => (
            "waiting",
            "business_decision_required",
            "等待业务决策",
        ),
        ObjectiveStatus::Active => ("working", "objective_active", "系统正在继续处理"),
        ObjectiveStatus::LegacyOrphan => ("recovering", "legacy_reconciliation", "系统正在核对历史工作"),
    };
    let terminal_reason = if recovery_exhausted {
        Some(TECHNICAL_RECOVERY_EXHAUSTED)
    } else if objective.status.is_terminal() {
        Some(objective.decision_type.as_str())
    } else {
        None
    };
    ChatTurnProjection { phase, activity_kind, activity_label, terminal_reason }
}

/// Cues in a delivery request that ask for a live (production) change.
pub open spec fn live_cues() -> Seq<Seq<char>> {
    seq!["上线"@, "生产"@, "部署"@, "live"@, "production"@, "deploy"@]
}

pub open spec fn has_live_cue(content: Seq<char>) -> bool {
    exists|i: int| 0 <= i < live_cues().len() && contains(ascii_lower(content), live_cues()[i])
}

pub open spec fn objective_kind_spec(capability: TurnCapability, content: Seq<char>) -> ObjectiveKind {
    match capability {
        TurnCapability::ReviewOnly => ObjectiveKind::Informational,
        TurnCapability::Implement => ObjectiveKind::LocalMutation,
        TurnCapability::Deliver => if has_live_cue(content) {
            ObjectiveKind::Live
        } else {
            ObjectiveKind::Delivery
        },
    }
}

/// Whether any of the `needles` occurs in `hay`.
pub fn contains_any(hay: &[char], needles: &Vec<&str>) -> (r: bool)
    ensures
        r == exists|i: int| 0 <= i < needles@.len() && contains(hay@, needles@[i]@),
{
    let mut i: usize = 0;
    while i < needles.len()
        invariant
            i <= needles@.len(),
            forall|j: int| 0 <= j < i ==> !contains(hay@, #[trigger] needles@[j]@),
        decreases needles@.len() - i,
    {
        let n = chars_of(needles[i]);
        if contains_chars(hay, n.as_slice()) {
            return true;
        }
        i = i + 1;
    }
    false
}

/// The objective kind a chat turn opens for its capability and request.
pub fn chat_objective_kind(capability: TurnCapability, content: &str) -> (k: ObjectiveKind)
    ensures
        k == objective_kind_spec(capability, content@),
{
    match capability {
        TurnCapability::ReviewOnly => ObjectiveKind::Informational,
        TurnCapability::Implement => ObjectiveKind::LocalMutation,
        TurnCapability::Deliver => {
            let normalized = ascii_lower_chars(chars_of(content).as_slice());
            let cues: Vec<&str> = vec!["上线", "生产", "部署", "live", "production", "deploy"];
            let found = contains_any(normalized.as_slice(), &cues);
            proof {
                assert(cues@.len() == live_cues().len());
                assert forall|i: int| 0 <= i < cues@.len() implies cues@[i]@ == live_cues()[i] by {}
            }
            if found {
                ObjectiveKind::Live
            } else {
                ObjectiveKind::Delivery
            }
        },
    }
}

pub open spec fn requested_acceptance_spec(kind: ObjectiveKind) -> Seq<char> {
    match kind {
        ObjectiveKind::Informational => "informational_answer"@,
        ObjectiveKind::LocalMutation => "validated_change"@,
        ObjectiveKind::Delivery => "delivery_receipt"@,
        ObjectiveKind::Live => "live_verification"@,
        ObjectiveKind::LegacyOrphan => "legacy_reconciliation"@,
    }
}

/// The acceptance evidence an objective of this kind must produce.
pub fn requested_acceptance(kind: ObjectiveKind) -> (r: &'static str)
    ensures
        r@ == requested_acceptance_spec(kind),
{
    match kind {
        ObjectiveKind::Informational => "informational_answer",
        ObjectiveKind::LocalMutation => "validated_change",
        ObjectiveKind::Delivery => "delivery_receipt",
        ObjectiveKind::Live => "live_verification",
        ObjectiveKind::LegacyOrphan => "legacy_reconciliation",
    }
}

/// Phrases with which an assistant turn offers to start implementing.
pub open spec fn implementation_offers() -> Seq<Seq<char>> {
    seq!["是否开始实施"@, "要开始实施吗"@, "shall i proceed"@, "shall i start"@]
}

/// Short replies that approve an offered implementation.
pub open spec fn approvals() -> Seq<Seq<char>> {
    seq![
        "做吧"@,
        "开始吧"@,
        "开始"@,
        "实施吧"@,
        "可以"@,
        "好"@,
        "好的"@,
        "行"@,
        "继续"@,
        "ok"@,
        "yes"@,
        "go"@,
        "go ahead"@,
        "proceed"@,
    ]
}

pub open spec fn is_approval(content: Seq<char>) -> bool {
    exists|i: int| 0 <= i < approvals().len() && ascii_lower(trim(content)) == approvals()[i]
}

pub open spec fn offers_implementation(prev: Seq<char>) -> bool {
    exists|i: int|
        0 <= i < implementation_offers().len() && contains(
            ascii_lower(prev),
            implementation_offers()[i],
        )
}

pub open spec fn chat_mode_spec(prev_assistant: Option<Seq<char>>, content: Seq<char>) -> AgentMode {
    match prev_assistant {
        Some(prev) => if offers_implementation(prev) && is_approval(content) {
            AgentMode::Execute
        } else {
            AgentMode::Interactive
        },
        None => AgentMode::Interactive,
    }
}

/// Whether `v` equals one of the `options`.
fn equals_any(v: &Vec<char>, options: &Vec<&str>) -> (r: bool)
    ensures
        r == exists|i: int| 0 <= i < options@.len() && v@ == options@[i]@,
{
    let mut i: usize = 0;
    while i < options.len()
        invariant
            i <= options@.len(),
            forall|j: int| 0 <= j < i ==> v@ != #[trigger] options@[j]@,
        decreases options@.len() - i,
    {
        let o = chars_of(options[i]);
        if crate::text::chars_eq(v.as_slice(), o.as_slice()) {
            return true;
        }
        i = i + 1;
    }
    false
}

/// The agent mode of a chat turn: a turn executes only when the previous
/// assistant message offered to implement and this message approves it.
pub fn decide_chat_mode(prev_assistant: Option<&str>, content: &str) -> (m: AgentMode)
    ensures
        m == chat_mode_spec(
            match prev_assistant {
                Some(p) => Some(p@),
                None => None,
            },
            content@,
        ),
{
    match prev_assistant {
        None => AgentMode::Interactive,
        Some(prev) => {
            let offers: Vec<&str> = vec!["是否开始实施", "要开始实施吗", "shall i proceed", "shall i start"];
            let approvals_list: Vec<&str> = vec![
                "做吧",
                "开始吧",
                "开始",
                "实施吧",
                "可以",
                "好",
                "好的",
                "行",
                "继续",
                "ok",
                "yes",
                "go",
                "go ahead",
                "proceed",
            ];
            proof {
                assert forall|i: int| 0 <= i < offers@.len() implies offers@[i]@
                    == implementation_offers()[i] by {}
                assert forall|i: int| 0 <= i < approvals_list@.len() implies approvals_list@[i]@
                    == approvals()[i] by {}
            }
            let prev_lower = ascii_lower_chars(chars_of(prev).as_slice());
            let offered = contains_any(prev_lower.as_slice(), &offers);
            let c = chars_of(content);
            let (a, b) = trim_bounds(c.as_slice());
            let trimmed = slice_chars(&c, a, b);
            let lowered = ascii_lower_chars(trimmed.as_slice());
            let approved = equals_any(&lowered, &approvals_list);
            proof {
                assert(lowered@ == ascii_lower(trim(content@)));
                assert(prev_lower@ == ascii_lower(prev@));
                if offered {
                    let i = choose|i: int|
                        0 <= i < offers@.len() && contains(prev_lower@, offers@[i]@);
                    assert(offers@[i]@ == implementation_offers()[i]);
                    assert(offers_implementation(prev@));
                } else {
                    assert forall|i: int| 0 <= i < implementation_offers().len() implies !contains(
                        ascii_lower(prev@),
                        #[trigger] implementation_offers()[i],
                    ) by {
                        assert(offers@[i]@ == implementation_offers()[i]);
                    }
                }
                if approved {
                    let i = choose|i: int|
                        0 <= i < approvals_list@.len() && lowered@ == approvals_list@[i]@;
                    assert(approvals_list@[i]@ == approvals()[i]);
                    assert(is_approval(content@));
                } else {
                    assert forall|i: int| 0 <= i < approvals().len() implies ascii_lower(
                        trim(content@),
                    ) != #[trigger] approvals()[i] by {
                        assert(approvals_list@[i]@ == approvals()[i]);
                    }
                }
            }
            if offered && approved {
                AgentMode::Execute
            } else {
                AgentMode::Interactive
            }
        },
    }
}

/// Full access is a permission setting only: the chat mode is decided by
/// the conversation alone.
pub fn select_chat_mode(full_access: bool, prev_assistant: Option<&str>, content: &str) -> (m: AgentMode)
    ensures
        m == chat_mode_spec(
            match prev_assistant {
                Some(p) => Some(p@),
                None => None,
            },
            content@,
        ),
{
    decide_chat_mode(prev_assistant, content)
}

} // verus!
