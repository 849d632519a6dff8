use codefactory::usage::{
    budget_periods, clamp_range_days, dashboard_window, summary_cost_source, tracking_start_day, usage_data_status, usage_day_window,
    usage_event_admission, usage_heatmap, usage_range_window, usage_record_timestamp, usage_today,
    validate_usage_event, CostField, DayTotals, UsageEventInput,
};

fn event() -> UsageEventInput {
    UsageEventInput {
        request_id: "req-1".to_string(),
        session_id: "session-1".to_string(),
        task_id: None,
        surface: "interactive".to_string(),
        provider: "openai".to_string(),
        endpoint: "default".to_string(),
        model: "gpt".to_string(),
        input_tokens: 10,
        output_tokens: 5,
        reasoning_tokens: 0,
        cached_tokens: 0,
        actual_cost_usd: CostField::Absent,
        estimated_cost_usd: CostField::Absent,
        cost_source: "unknown".to_string(),
        created_at: None,
    }
}

fn error_of(e: &UsageEventInput) -> String {
    validate_usage_event(e).unwrap_err().to_message()
}

#[test]
fn a_complete_usage_event_is_accepted() {
    assert!(validate_usage_event(&event()).is_ok());
    assert_eq!(usage_event_admission(&event()).unwrap(), true);
}

#[test]
fn blank_identity_is_refused() {
    let mut e = event();
    e.model = "   ".to_string();
    assert_eq!(error_of(&e), "usage event identity fields cannot be empty");
}

#[test]
fn negative_counters_or_invalid_costs_are_refused() {
    let mut e = event();
    e.cached_tokens = -1;
    assert_eq!(error_of(&e), "usage event contains invalid counters or cost");
    let mut e = event();
    e.cost_source = "provider_actual".to_string();
    e.actual_cost_usd = CostField::Invalid;
    assert_eq!(error_of(&e), "usage event contains invalid counters or cost");
}

#[test]
fn unknown_surfaces_are_named_in_the_error() {
    let mut e = event();
    e.surface = "batch".to_string();
    assert_eq!(error_of(&e), "unsupported usage surface: batch");
}

#[test]
fn cost_sources_constrain_dollar_fields() {
    let mut e = event();
    e.cost_source = "provider_actual".to_string();
    assert_eq!(error_of(&e), "provider_actual requires actual cost and forbids estimate");
    e.actual_cost_usd = CostField::Valid;
    assert!(validate_usage_event(&e).is_ok());
    e.estimated_cost_usd = CostField::Valid;
    assert_eq!(error_of(&e), "provider_actual requires actual cost and forbids estimate");

    let mut e = event();
    e.cost_source = "model_price_estimate".to_string();
    e.actual_cost_usd = CostField::Valid;
    assert_eq!(error_of(&e), "model_price_estimate requires estimate and forbids actual cost");

    let mut e = event();
    e.cost_source = "subscription".to_string();
    e.estimated_cost_usd = CostField::Valid;
    assert_eq!(error_of(&e), "subscription usage cannot carry per-token dollars");

    let mut e = event();
    e.actual_cost_usd = CostField::Valid;
    assert_eq!(error_of(&e), "unknown cost source cannot carry dollars");

    let mut e = event();
    e.cost_source = "barter".to_string();
    assert_eq!(error_of(&e), "unsupported usage cost source: barter");
}

#[test]
fn created_at_must_be_rfc3339() {
    let mut e = event();
    e.created_at = Some("yesterday".to_string());
    assert_eq!(error_of(&e), "usage created_at must be RFC3339");
    e.created_at = Some("2024-05-01T10:00:00+02:00".to_string());
    assert!(validate_usage_event(&e).is_ok());
}

#[test]
fn events_without_input_or_output_tokens_are_not_recorded() {
    let mut e = event();
    e.input_tokens = 0;
    e.output_tokens = 0;
    e.reasoning_tokens = 7;
    assert_eq!(usage_event_admission(&e).unwrap(), false);
}

#[test]
fn record_timestamps_are_normalised_to_utc_milliseconds() {
    assert_eq!(
        usage_record_timestamp(&Some("2024-05-01T10:00:00+02:00".to_string())).unwrap(),
        Some("2024-05-01T08:00:00.000Z".to_string())
    );
    assert_eq!(usage_record_timestamp(&None).unwrap(), None);
    assert_eq!(
        usage_record_timestamp(&Some("bad".to_string())).unwrap_err().to_message(),
        "usage created_at must be RFC3339"
    );
}

#[test]
fn cost_source_summary_distinguishes_unknown_single_and_mixed() {
    assert_eq!(summary_cost_source(""), "unknown");
    assert_eq!(summary_cost_source("local"), "local");
    assert_eq!(summary_cost_source("local,provider_actual"), "mixed");
}

#[test]
fn data_status_is_partial_with_missing_or_historical_usage() {
    let provider = vec!["provider_usage".to_string()];
    assert_eq!(usage_data_status(0, &provider), "complete");
    assert_eq!(usage_data_status(2, &provider), "partial");
    let mixed = vec!["provider_usage".to_string(), "legacy_message".to_string()];
    assert_eq!(usage_data_status(0, &mixed), "partial");
    assert_eq!(usage_data_status(0, &Vec::new()), "complete");
}

#[test]
fn range_days_are_clamped() {
    assert_eq!(clamp_range_days(0), 1);
    assert_eq!(clamp_range_days(30), 30);
    assert_eq!(clamp_range_days(10_000), 366);
}

#[test]
fn local_days_follow_the_time_zone_offset() {
    let utc_day = usage_today("2024-05-01T23:30:00Z", 0).unwrap();
    let east_day = usage_today("2024-05-01T23:30:00Z", 60).unwrap();
    assert_eq!(east_day, utc_day + 1);
    assert_eq!(usage_today("soon", 0).unwrap_err().to_message(), "now_utc must be RFC3339");
    assert_eq!(
        tracking_start_day("nope", 0).unwrap_err().to_message(),
        "invalid usage tracking metadata"
    );
}

#[test]
fn day_windows_start_at_local_midnight() {
    assert_eq!(
        usage_day_window("2024-05-01", 120).unwrap(),
        ("2024-04-30T22:00:00.000Z".to_string(), "2024-05-01T22:00:00.000Z".to_string())
    );
    assert_eq!(
        usage_day_window("05/01/2024", 0).unwrap_err().to_message(),
        "local_date must be YYYY-MM-DD"
    );
    let day = tracking_start_day("2024-05-01T00:00:00Z", 0).unwrap();
    assert_eq!(
        usage_range_window(day - 1, day, 0).unwrap(),
        ("2024-04-30T00:00:00.000Z".to_string(), "2024-05-02T00:00:00.000Z".to_string())
    );
}

#[test]
fn heatmap_marks_recorded_missing_and_partial_days() {
    let first = tracking_start_day("2024-05-01T12:00:00Z", 0).unwrap();
    let grouped = vec![(
        "2024-05-02".to_string(),
        DayTotals {
            input_tokens: 100,
            output_tokens: 50,
            reasoning_tokens: 5,
            cached_tokens: 10,
            requests: 3,
            historical: 0,
        },
    )];
    let missing = vec!["2024-05-04".to_string()];
    let cells = usage_heatmap(first, 4, first + 2, &grouped, &missing);
    assert_eq!(cells.len(), 4);
    assert_eq!(cells[0].local_date, "2024-05-01");
    assert_eq!(cells[0].status, "missing");
    assert_eq!(cells[0].total_tokens, None);
    assert_eq!(cells[0].requests, None);
    assert_eq!(cells[1].local_date, "2024-05-02");
    assert_eq!(cells[1].status, "recorded");
    assert_eq!(cells[1].total_tokens, Some(150));
    assert_eq!(cells[1].requests, Some(3));
    assert_eq!(cells[2].status, "recorded");
    assert_eq!(cells[2].total_tokens, Some(0));
    assert_eq!(cells[3].local_date, "2024-05-04");
    assert_eq!(cells[3].status, "partial");
    assert_eq!(cells[3].total_tokens, None);
}

#[test]
fn budget_periods_cover_the_local_day_and_month() {
    let p = budget_periods("2024-12-31T23:30:00Z", 60).unwrap().unwrap();
    assert_eq!(p.day_key, "2025-01-01");
    assert_eq!(p.day_start_utc, "2024-12-31T23:00:00.000Z");
    assert_eq!(p.day_end_utc, "2025-01-01T23:00:00.000Z");
    assert_eq!(p.month_key, "2025-01");
    assert_eq!(p.month_start_utc, "2024-12-31T23:00:00.000Z");
    assert_eq!(p.month_end_utc, "2025-01-31T23:00:00.000Z");
    let q = budget_periods("2024-12-15T12:00:00Z", 0).unwrap().unwrap();
    assert_eq!(q.month_key, "2024-12");
    assert_eq!(q.month_end_utc, "2025-01-01T00:00:00.000Z");
    assert_eq!(
        budget_periods("later", 0).unwrap_err().to_message(),
        "now_utc must be RFC3339"
    );
}

#[test]
fn dashboard_window_spans_the_clamped_range_up_to_today() {
    let w = dashboard_window("2024-03-10T12:00:00Z", 0, 7, "2024-01-01T08:00:00Z").unwrap().unwrap();
    assert_eq!(w.range_days, 7);
    assert_eq!(w.first_day, w.today - 6);
    assert_eq!(w.tracking_start_day, tracking_start_day("2024-01-01T00:00:00Z", 0).unwrap());
    assert_eq!(w.start_utc, "2024-03-04T00:00:00.000Z");
    assert_eq!(w.end_utc, "2024-03-11T00:00:00.000Z");
    let one = dashboard_window("2024-03-10T12:00:00Z", 0, 0, "2024-01-01T08:00:00Z").unwrap().unwrap();
    assert_eq!(one.range_days, 1);
    assert_eq!(one.start_utc, "2024-03-10T00:00:00.000Z");
    assert_eq!(
        dashboard_window("noon", 0, 7, "2024-01-01T08:00:00Z").unwrap_err().to_message(),
        "now_utc must be RFC3339"
    );
    assert_eq!(
        dashboard_window("2024-03-10T12:00:00Z", 0, 7, "?").unwrap_err().to_message(),
        "invalid usage tracking metadata"
    );
}

#[test]
fn local_days_round_down_across_the_epoch() {
    assert_eq!(usage_today("1970-01-01T00:00:00Z", 0).unwrap(), 719_163);
    assert_eq!(usage_today("1969-12-31T23:59:59Z", 0).unwrap(), 719_162);
    assert_eq!(usage_today("1970-01-01T00:30:00Z", -60).unwrap(), 719_162);
    assert_eq!(usage_today("2024-05-01T00:00:00+02:00", 0).unwrap(), usage_today("2024-04-30T22:00:00Z", 0).unwrap());
    assert_eq!(
        usage_range_window(719_162, 719_162, 0).unwrap(),
        ("1969-12-31T00:00:00.000Z".to_string(), "1970-01-01T00:00:00.000Z".to_string())
    );
    assert_eq!(
        usage_range_window(719_163, 719_163, -330).unwrap(),
        ("1970-01-01T05:30:00.000Z".to_string(), "1970-01-02T05:30:00.000Z".to_string())
    );
}
