use codefactory::objective::{
    chat_objective_kind, chat_settlement_status, chat_turn_projection, requested_acceptance,
    select_chat_mode, AgentMode, DecisionType, ObjectiveKind, ObjectiveSnapshot, ObjectiveStatus,
    RecoveryDomain, TurnCapability, TECHNICAL_RECOVERY_EXHAUSTED,
};
use codefactory::route::{
    endpoint_requires_api_key, is_chatgpt_auth_expired, resolve_route_candidates,
    resolve_route_plan,
};
use codefactory::settings::{ApiStyle, Endpoint, Settings};

fn projection_objective(
    status: ObjectiveStatus,
    decision_type: DecisionType,
    failure_code: Option<&str>,
) -> ObjectiveSnapshot {
    let mut objective = ObjectiveSnapshot::new(
        "objective-projection",
        ObjectiveKind::Informational,
        RecoveryDomain::Chat,
        "informational_answer",
    );
    objective.status = status;
    objective.decision_type = decision_type;
    objective.failure_code = failure_code.map(str::to_string);
    objective
}

fn endpoint(base_url: &str, key_ref: Option<&str>, api_style: ApiStyle, active: &str) -> Endpoint {
    Endpoint {
        base_url: base_url.into(),
        key_ref: key_ref.map(Into::into),
        api_style,
        custom_models: vec![],
        active_model: Some(active.into()),
    }
}

const CHATGPT_BASE_URL: &str = "https://chatgpt.com/backend-api/codex";

#[test]
fn exhausted_recovery_settles_the_turn_instead_of_spinning() {
    let projection = chat_turn_projection(&projection_objective(
        ObjectiveStatus::WaitingSystem,
        DecisionType::FailedInternal,
        Some(TECHNICAL_RECOVERY_EXHAUSTED),
    ));
    assert_eq!(projection.phase, "waiting");
    assert_eq!(projection.activity_kind, TECHNICAL_RECOVERY_EXHAUSTED);
    assert_eq!(
        projection.terminal_reason,
        Some(TECHNICAL_RECOVERY_EXHAUSTED),
        "the settled turn must name why the system stopped"
    );
    assert!(
        projection.activity_label.contains("无需补充输入"),
        "the user must be told the incident remains system-owned"
    );
}

#[test]
fn recovery_with_budget_left_stays_system_owned() {
    let projection = chat_turn_projection(&projection_objective(
        ObjectiveStatus::WaitingSystem,
        DecisionType::Waiting,
        Some("completion_evidence_incomplete"),
    ));
    assert_eq!(projection.phase, "recovering");
    assert_eq!(projection.terminal_reason, None);
}

#[test]
fn ordinary_core_input_is_not_reported_as_exhausted_recovery() {
    let projection = chat_turn_projection(&projection_objective(
        ObjectiveStatus::WaitingCoreInput,
        DecisionType::CoreInputRequired,
        Some("browser_pairing_required"),
    ));
    assert_eq!(projection.activity_kind, "core_input_required");
    assert_eq!(projection.terminal_reason, None);
}

#[test]
fn chatgpt_endpoint_never_looks_up_an_endpoint_api_key() {
    assert!(!endpoint_requires_api_key(&ApiStyle::Chatgpt));
    assert!(endpoint_requires_api_key(&ApiStyle::Openai));
    assert!(endpoint_requires_api_key(&ApiStyle::Anthropic));
}

#[test]
fn route_candidates_keep_primary_and_defer_credentials_to_transport() {
    let mut settings = Settings::default();
    settings.default_endpoint = "chatgpt".into();
    settings.default_model = "gpt-5.5".into();
    settings.endpoints.clear();
    settings.endpoints.insert(
        "chatgpt".into(),
        endpoint(CHATGPT_BASE_URL, None, ApiStyle::Chatgpt, "gpt-5.5"),
    );
    settings.endpoints.insert(
        "deepseek".into(),
        endpoint(
            "https://api.deepseek.example/v1",
            Some("deepseek-secret"),
            ApiStyle::Openai,
            "deepseek-v4-pro",
        ),
    );
    settings.endpoints.insert(
        "openrouter".into(),
        endpoint(
            "https://openrouter.example/v1",
            Some("openrouter-secret"),
            ApiStyle::Openai,
            "anthropic/opus-4-7",
        ),
    );

    let resolution = resolve_route_candidates(&settings, "gpt-5.5");

    assert_eq!(
        resolution
            .candidates
            .iter()
            .map(|route| (route.endpoint_name.as_str(), route.model_id.as_str()))
            .collect::<Vec<_>>(),
        vec![
            ("chatgpt", "gpt-5.5"),
            ("deepseek", "deepseek-v4-pro"),
            ("openrouter", "anthropic/opus-4-7")
        ]
    );
    assert_eq!(
        resolution.candidates[1].credential_ref.as_deref(),
        Some("deepseek-secret")
    );
    assert_eq!(
        resolution.candidates[2].credential_ref.as_deref(),
        Some("openrouter-secret")
    );
    assert!(resolution.excluded.is_empty());
}

#[test]
fn route_planning_does_not_read_any_endpoint_credential() {
    let mut settings = Settings::default();
    settings.default_endpoint = "chatgpt".into();
    settings.default_model = "gpt-5.5".into();
    settings.endpoints.insert(
        "deepseek".into(),
        endpoint(
            "https://api.deepseek.example/v1",
            Some("must-not-read"),
            ApiStyle::Openai,
            "deepseek-v4-pro",
        ),
    );

    let resolution = resolve_route_candidates(&settings, "gpt-5.5");

    assert!(!resolution.candidates.is_empty());
}

#[test]
fn automatic_image_route_excludes_text_only_candidates_before_transport() {
    let mut settings = Settings::default();
    settings.default_endpoint = "deepseek".into();
    settings.default_model = "deepseek-v4-pro".into();
    settings.endpoints.clear();
    settings.endpoints.insert(
        "deepseek".into(),
        endpoint(
            "https://api.deepseek.example/v1",
            Some("deepseek-secret"),
            ApiStyle::Openai,
            "deepseek-v4-pro",
        ),
    );
    settings.endpoints.insert(
        "chatgpt".into(),
        endpoint(CHATGPT_BASE_URL, None, ApiStyle::Chatgpt, "gpt-5.5"),
    );

    let (plan, _) = resolve_route_plan(&settings, "deepseek-v4-pro", "auto", true)
        .ok()
        .expect("vision route exists");

    assert_eq!(plan.candidates().len(), 1);
    assert_eq!(plan.candidates()[0].endpoint_name, "chatgpt");
    assert_eq!(plan.candidates()[0].model_id, "gpt-5.5");
}

#[test]
fn structured_auth_expired_is_detected_even_when_chatgpt_was_a_fallback() {
    assert!(is_chatgpt_auth_expired(
        "deepseek",
        "AUTH_EXPIRED: ChatGPT 授权已过期"
    ));
}

#[test]
fn full_access_is_permission_only_and_does_not_override_chat_mode() {
    assert_eq!(
        select_chat_mode(true, None, "这是怎么了？"),
        AgentMode::Interactive
    );
    assert_eq!(
        select_chat_mode(false, None, "这是怎么了？"),
        AgentMode::Interactive
    );
    assert_eq!(
        select_chat_mode(true, Some("方案已经准备好。是否开始实施？"), "做吧"),
        AgentMode::Execute
    );
}

#[test]
fn completed_objective_settles_as_completed_text() {
    let objective = projection_objective(
        ObjectiveStatus::Completed,
        DecisionType::Completed,
        None,
    );
    assert_eq!(chat_settlement_status(&objective), "completed");
}

#[test]
fn review_only_turns_stay_informational() {
    assert_eq!(
        chat_objective_kind(TurnCapability::ReviewOnly, "please deploy it"),
        ObjectiveKind::Informational
    );
    assert_eq!(requested_acceptance(ObjectiveKind::Informational), "informational_answer");
}
