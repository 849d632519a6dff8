//! Token usage accounting: which provider usage events are accepted, and how
//! recorded usage is summarised per local day.
//!
//! Dollar amounts are floating point and never enter this module: an event
//! carries, for each of its two optional amounts, only whether it was given
//! and whether it is a finite, non-negative number.
use vstd::prelude::*;
use crate::chat_progress::{parse_rfc3339_millis, rfc3339_millis};
use crate::errors::AppError;
use crate::requests::UsageHeatmapDay;
use crate::text::{concat, is_blank, owned, str_eq, trim};

verus! {

broadcast use vstd::string::group_string_axioms;

/// What an optional dollar amount of a usage event holds.
#[derive(Debug, Clone, Copy, PartialEq, Eq, Structural)]
pub enum CostField {
    /// No amount was given.
    Absent,
    /// A finite, non-negative amount.
    Valid,
    /// A negative, infinite or NaN amount.
    Invalid,
}

/// One provider request's usage, as reported by the transport.
#[derive(Debug)]
pub struct UsageEventInput {
    pub request_id: String,
    pub session_id: String,
    pub task_id: Option<String>,
    pub surface: String,
    pub provider: String,
    pub endpoint: String,
    pub model: String,
    pub input_tokens: i64,
    pub output_tokens: i64,
    pub reasoning_tokens: i64,
    pub cached_tokens: i64,
    pub actual_cost_usd: CostField,
    pub estimated_cost_usd: CostField,
    pub cost_source: String,
    /// RFC 3339 timestamp; `None` records the event at the current time.
    pub created_at: Option<String>,
}

pub open spec fn blank(s: Seq<char>) -> bool {
    trim(s).len() == 0
}

pub open spec fn known_surface(s: Seq<char>) -> bool {
    s == "interactive"@ || s == "autonomous"@ || s == "subagent"@ || s == "eval"@
}

/// The message of the cost-source rule the event breaks, if any.
pub open spec fn cost_source_error(e: UsageEventInput) -> Option<Seq<char>> {
    let cs = e.cost_source@;
    let actual = e.actual_cost_usd != CostField::Absent;
    let estimate = e.estimated_cost_usd != CostField::Absent;
    if cs == "provider_actual"@ {
        if !actual || estimate {
            Some("provider_actual requires actual cost and forbids estimate"@)
        } else {
            None
        }
    } else if cs == "model_price_estimate"@ {
        if !estimate || actual {
            Some("model_price_estimate requires estimate and forbids actual cost"@)
        } else {
            None
        }
    } else if cs == "subscription"@ || cs == "local"@ {
        if actual || estimate {
            Some(cs + " usage cannot carry per-token dollars"@)
        } else {
            None
        }
    } else if cs == "unknown"@ {
        if actual || estimate {
            Some("unknown cost source cannot carry dollars"@)
        } else {
            None
        }
    } else {
        Some("unsupported usage cost source: "@ + cs)
    }
}

/// The message the event is refused with, checked in this order:
/// identity, counters and amounts, surface, cost source, timestamp.
pub open spec fn usage_event_error(e: UsageEventInput) -> Option<Seq<char>> {
    if blank(e.request_id@) || blank(e.session_id@) || blank(e.provider@) || blank(e.endpoint@)
        || blank(e.model@) {
        Some("usage event identity fields cannot be empty"@)
    } else if e.input_tokens < 0 || e.output_tokens < 0 || e.reasoning_tokens < 0
        || e.cached_tokens < 0 || e.actual_cost_usd == CostField::Invalid
        || e.estimated_cost_usd == CostField::Invalid {
        Some("usage event contains invalid counters or cost"@)
    } else if !known_surface(e.surface@) {
        Some("unsupported usage surface: "@ + e.surface@)
    } else if cost_source_error(e) is Some {
        cost_source_error(e)
    } else {
        match e.created_at {
            Some(t) => if rfc3339_millis(t@) is None {
                Some("usage created_at must be RFC3339"@)
            } else {
                None
            },
            None => None,
        }
    }
}

fn refuse(message: &str) -> (r: Result<(), AppError>)
    ensures
        r matches Err(e) && e.message() == message@,
{
    Err(AppError::Other(owned(message)))
}

fn refuse_with(prefix: &str, detail: &str) -> (r: Result<(), AppError>)
    ensures
        r matches Err(e) && e.message() == prefix@ + detail@,
{
    Err(AppError::Other(concat(prefix, detail)))
}

/// Checks a usage event before it is recorded.
pub fn validate_usage_event(event: &UsageEventInput) -> (r: Result<(), AppError>)
    ensures
        r is Ok <==> usage_event_error(*event) is None,
        r matches Err(e) ==> usage_event_error(*event) == Some(e.message()),
{
    if is_blank(event.request_id.as_str()) || is_blank(event.session_id.as_str()) || is_blank(
        event.provider.as_str(),
    ) || is_blank(event.endpoint.as_str()) || is_blank(event.model.as_str()) {
        return refuse("usage event identity fields cannot be empty");
    }
    if event.input_tokens < 0 || event.output_tokens < 0 || event.reasoning_tokens < 0
        || event.cached_tokens < 0 || event.actual_cost_usd == CostField::Invalid
        || event.estimated_cost_usd == CostField::Invalid {
        return refuse("usage event contains invalid counters or cost");
    }
    let surface = event.surface.as_str();
    if !(str_eq(surface, "interactive") || str_eq(surface, "autonomous") || str_eq(
        surface,
        "subagent",
    ) || str_eq(surface, "eval")) {
        return refuse_with("unsupported usage surface: ", surface);
    }
    let cs = event.cost_source.as_str();
    let actual = event.actual_cost_usd != CostField::Absent;
    let estimate = event.estimated_cost_usd != CostField::Absent;
    if str_eq(cs, "provider_actual") {
        if !actual || estimate {
            return refuse("provider_actual requires actual cost and forbids estimate");
        }
    } else if str_eq(cs, "model_price_estimate") {
        if !estimate || actual {
            return refuse("model_price_estimate requires estimate and forbids actual cost");
        }
    } else if str_eq(cs, "subscription") || str_eq(cs, "local") {
        if actual || estimate {
            return refuse_with(cs, " usage cannot carry per-token dollars");
        }
    } else if str_eq(cs, "unknown") {
        if actual || estimate {
            return refuse("unknown cost source cannot carry dollars");
        }
    } else {
        return refuse_with("unsupported usage cost source: ", cs);
    }
    match &event.created_at {
        Some(t) => {
            if parse_rfc3339_millis(t.as_str()).is_none() {
                return refuse("usage created_at must be RFC3339");
            }
        },
        None => {},
    }
    Ok(())
}

/// Whether a usage event is stored: refused as `validate_usage_event`
/// refuses it, otherwise stored unless it used no input and no output
/// tokens.
pub fn usage_event_admission(event: &UsageEventInput) -> (r: Result<bool, AppError>)
    ensures
        r is Err <==> usage_event_error(*event) is Some,
        r matches Err(e) ==> usage_event_error(*event) == Some(e.message()),
        r matches Ok(b) ==> b == !(event.input_tokens == 0 && event.output_tokens == 0),
{
    match validate_usage_event(event) {
        Err(e) => Err(e),
        Ok(()) => Ok(!(event.input_tokens == 0 && event.output_tokens == 0)),
    }
}


// ── Timestamps and calendar days ─────────────────────────────────────────
//
// A calendar day is its number counted from 0001-01-01 (day 1), as chrono's
// `Datelike::num_days_from_ce` numbers it; consecutive days have consecutive
// numbers.

/// The instant an RFC 3339 timestamp denotes, written as RFC 3339 in UTC
/// with milliseconds and a `Z` suffix.
pub uninterp spec fn canonical_instant(text: Seq<char>) -> Option<Seq<char>>;

/// Parses an RFC 3339 timestamp with chrono and writes it back in UTC with
/// millisecond precision (`to_rfc3339_opts(SecondsFormat::Millis, true)`).
#[verifier::external_body]
fn utc_millis_text(text: &str) -> (r: Option<String>)
    ensures
        match r {
            Some(t) => canonical_instant(text@) == Some(t@),
            None => canonical_instant(text@) is None,
        },
{
    chrono::DateTime::parse_from_rfc3339(text).ok().map(
        |t| t.with_timezone(&chrono::Utc).to_rfc3339_opts(chrono::SecondsFormat::Millis, true),
    )
}

/// Milliseconds in a day, and the day number of 1970-01-01.
pub open spec fn day_ms() -> int {
    86_400_000
}

pub open spec fn unix_epoch_day() -> int {
    719_163
}

/// The number of the local calendar day on which an RFC 3339 instant falls
/// in a time zone `offset_minutes` east of UTC: the instant shifted by the
/// offset, counted in whole days (rounding down) from 1970-01-01. `None`
/// when the text does not parse, or the day number leaves `i32`.
pub open spec fn local_day_number(instant: Seq<char>, offset_minutes: int) -> Option<int> {
    match rfc3339_millis(instant) {
        Some(ms) => {
            let d = (ms + offset_minutes * 60_000) / day_ms() + unix_epoch_day();
            if i32::MIN <= d <= i32::MAX {
                Some(d)
            } else {
                None
            }
        },
        None => None,
    }
}

/// The local day on which an RFC 3339 instant falls.
fn local_day(text: &str, offset_minutes: i32) -> (r: Option<i32>)
    ensures
        match r {
            Some(d) => local_day_number(text@, offset_minutes as int) == Some(d as int),
            None => local_day_number(text@, offset_minutes as int) is None,
        },
{
    let ms = match parse_rfc3339_millis(text) {
        Some(m) => m,
        None => return None,
    };
    let shifted: i128 = ms as i128 + (offset_minutes as i128) * 60_000;
    // Shifting by a whole number of days keeps the division on non-negative
    // numbers.
    let pos: i128 = shifted + 86_400_000_000_000_000_000;
    let q: u128 = (pos as u128) / 86_400_000;
    proof {
        vstd::arithmetic::div_mod::lemma_hoist_over_denominator(
            shifted as int,
            1_000_000_000_000,
            86_400_000nat,
        );
        assert(q == pos / 86_400_000);
    }
    let day: i128 = q as i128 - 1_000_000_000_000 + 719_163;
    if day < -2147483648 || day > 2147483647 {
        None
    } else {
        Some(day as i32)
    }
}

/// The `YYYY-MM-DD` text of a day number.
pub uninterp spec fn ymd_key(day: int) -> Seq<char>;

/// Formats a day number as `%Y-%m-%d` with chrono. Day numbers of this
/// size name dates inside chrono's range (years -262143 to 262142).
#[verifier::external_body]
fn date_key(day: i32) -> (r: String)
    requires
        -95_000_000 <= day <= 95_000_000,
    ensures
        r@ == ymd_key(day as int),
{
    chrono::NaiveDate::from_num_days_from_ce_opt(day).map(
        |d| d.format("%Y-%m-%d").to_string(),
    ).unwrap_or_default()
}

/// The day number of a `YYYY-MM-DD` text.
pub uninterp spec fn day_of_key(text: Seq<char>) -> Option<int>;

/// Parses `%Y-%m-%d` with chrono and gives the day number.
#[verifier::external_body]
fn parse_day_key(text: &str) -> (r: Option<i32>)
    ensures
        match r {
            Some(d) => day_of_key(text@) == Some(d as int),
            None => day_of_key(text@) is None,
        },
{
    chrono::NaiveDate::parse_from_str(text, "%Y-%m-%d").ok().map(
        |d| chrono::Datelike::num_days_from_ce(&d),
    )
}

/// A Unix instant in milliseconds, written as RFC 3339 in UTC with
/// milliseconds and a `Z` suffix; `None` outside chrono's range.
pub uninterp spec fn millis_utc_text(ms: int) -> Option<Seq<char>>;

/// Writes Unix milliseconds with chrono's
/// `to_rfc3339_opts(SecondsFormat::Millis, true)`.
#[verifier::external_body]
fn utc_text_of_millis(ms: i64) -> (r: Option<String>)
    ensures
        match r {
            Some(t) => millis_utc_text(ms as int) == Some(t@),
            None => millis_utc_text(ms as int) is None,
        },
{
    match chrono::DateTime::<chrono::Utc>::from_timestamp_millis(ms) {
        Some(t) => Some(t.to_rfc3339_opts(chrono::SecondsFormat::Millis, true)),
        None => None,
    }
}

/// Where a local day begins in UTC, in Unix milliseconds: its midnight,
/// less the zone's offset.
pub open spec fn day_start_ms(day: int, offset_minutes: int) -> int {
    (day - unix_epoch_day()) * day_ms() - offset_minutes * 60_000
}

/// The UTC instants, as RFC 3339 with milliseconds, at which a local day
/// begins and the next one begins, in a zone `offset_minutes` east of UTC.
pub open spec fn utc_day_bounds(day: int, offset_minutes: int) -> Option<(Seq<char>, Seq<char>)> {
    let start = day_start_ms(day, offset_minutes);
    match (millis_utc_text(start), millis_utc_text(start + day_ms())) {
        (Some(a), Some(b)) => Some((a, b)),
        _ => None,
    }
}

/// Local midnight of the day, shifted to UTC, and one day later.
fn utc_bounds_for_local_date(day: i32, offset_minutes: i32) -> (r: Option<(String, String)>)
    ensures
        match r {
            Some((a, b)) => utc_day_bounds(day as int, offset_minutes as int) == Some((a@, b@)),
            None => utc_day_bounds(day as int, offset_minutes as int) is None,
        },
{
    let start: i64 = (day as i64 - 719_163) * 86_400_000 - (offset_minutes as i64) * 60_000;
    let end: i64 = start + 86_400_000;
    match (utc_text_of_millis(start), utc_text_of_millis(end)) {
        (Some(a), Some(b)) => Some((a, b)),
        _ => None,
    }
}

/// The timestamp a usage event is stored with: its own, normalised to UTC
/// milliseconds, or `None` when it has none and the current time is used.
pub fn usage_record_timestamp(created_at: &Option<String>) -> (r: Result<Option<String>, AppError>)
    ensures
        match created_at {
            None => r matches Ok(None),
            Some(t) => match canonical_instant(t@) {
                Some(c) => r matches Ok(Some(s)) && s@ == c,
                None => r matches Err(e) && e.message() == "usage created_at must be RFC3339"@,
            },
        },
{
    match created_at {
        None => Ok(None),
        Some(t) => match utc_millis_text(t.as_str()) {
            Some(c) => Ok(Some(c)),
            None => Err(AppError::Other(owned("usage created_at must be RFC3339"))),
        },
    }
}

/// Today's day number for the dashboard, from the current instant.
pub fn usage_today(now_utc: &str, timezone_offset_minutes: i32) -> (r: Result<i32, AppError>)
    ensures
        match local_day_number(now_utc@, timezone_offset_minutes as int) {
            Some(d) => r matches Ok(x) && x == d,
            None => r matches Err(e) && e.message() == "now_utc must be RFC3339"@,
        },
{
    match local_day(now_utc, timezone_offset_minutes) {
        Some(d) => Ok(d),
        None => Err(AppError::Other(owned("now_utc must be RFC3339"))),
    }
}

/// The local day on which usage tracking started.
pub fn tracking_start_day(started_at: &str, timezone_offset_minutes: i32) -> (r: Result<i32, AppError>)
    ensures
        match local_day_number(started_at@, timezone_offset_minutes as int) {
            Some(d) => r matches Ok(x) && x == d,
            None => r matches Err(e) && e.message() == "invalid usage tracking metadata"@,
        },
{
    match local_day(started_at, timezone_offset_minutes) {
        Some(d) => Ok(d),
        None => Err(AppError::Other(owned("invalid usage tracking metadata"))),
    }
}

/// The UTC window of one local day named `YYYY-MM-DD`.
pub fn usage_day_window(local_date: &str, timezone_offset_minutes: i32) -> (r: Result<
    (String, String),
    AppError,
>)
    ensures
        match day_of_key(local_date@) {
            Some(d) => match utc_day_bounds(d, timezone_offset_minutes as int) {
                Some((a, b)) => r matches Ok((x, y)) && x@ == a && y@ == b,
                None => r matches Err(e) && e.message() == "local_date must be YYYY-MM-DD"@,
            },
            None => r matches Err(e) && e.message() == "local_date must be YYYY-MM-DD"@,
        },
{
    match parse_day_key(local_date) {
        Some(d) => match utc_bounds_for_local_date(d, timezone_offset_minutes) {
            Some(b) => Ok(b),
            None => Err(AppError::Other(owned("local_date must be YYYY-MM-DD"))),
        },
        None => Err(AppError::Other(owned("local_date must be YYYY-MM-DD"))),
    }
}

/// The UTC window from the start of `first_day` to the end of `last_day`.
pub fn usage_range_window(first_day: i32, last_day: i32, timezone_offset_minutes: i32) -> (r: Option<
    (String, String),
>)
    ensures
        match (
            utc_day_bounds(first_day as int, timezone_offset_minutes as int),
            utc_day_bounds(last_day as int, timezone_offset_minutes as int),
        ) {
            (Some((a, _)), Some((_, b))) => r matches Some((x, y)) && x@ == a && y@ == b,
            _ => r is None,
        },
{
    let first = utc_bounds_for_local_date(first_day, timezone_offset_minutes);
    let last = utc_bounds_for_local_date(last_day, timezone_offset_minutes);
    match (first, last) {
        (Some((a, _)), Some((_, b))) => Some((a, b)),
        _ => None,
    }
}

/// A dashboard range limited to one to 366 days.
pub open spec fn clamped_days(range_days: int) -> int {
    if range_days < 1 {
        1
    } else if range_days > 366 {
        366
    } else {
        range_days
    }
}

/// The dashboard's range in days, limited to one to 366.
pub fn clamp_range_days(range_days: i64) -> (r: i64)
    ensures
        r == clamped_days(range_days as int),
{
    if range_days < 1 {
        1
    } else if range_days > 366 {
        366
    } else {
        range_days
    }
}

// ── Summaries ────────────────────────────────────────────────────────────

/// The cost source of a set of events from their comma-joined distinct
/// sources: `unknown` for none, `mixed` for several.
pub open spec fn cost_source_of(distinct: Seq<char>) -> Seq<char> {
    if distinct.len() == 0 {
        "unknown"@
    } else if distinct.contains(',') {
        "mixed"@
    } else {
        distinct
    }
}

pub fn summary_cost_source(distinct: &str) -> (r: String)
    ensures
        r@ == cost_source_of(distinct@),
{
    let v = crate::text::chars_of(distinct);
    if v.len() == 0 {
        return owned("unknown");
    }
    let mut i: usize = 0;
    while i < v.len()
        invariant
            v@ == distinct@,
            i <= v@.len(),
            forall|j: int| 0 <= j < i ==> v@[j] != ',',
        decreases v@.len() - i,
    {
        if v[i] == ',' {
            proof {
                assert(distinct@.contains(','));
            }
            return owned("mixed");
        }
        i = i + 1;
    }
    owned(distinct)
}

/// `partial` when usage is missing for some assistant message or some
/// event came from another source than provider usage, else `complete`.
pub open spec fn data_status_of(missing_usage_count: i64, sources: Seq<Seq<char>>) -> Seq<char> {
    if missing_usage_count > 0 || exists|i: int| 0 <= i < sources.len() && sources[i]
        != "provider_usage"@ {
        "partial"@
    } else {
        "complete"@
    }
}

pub fn usage_data_status(missing_usage_count: i64, sources: &Vec<String>) -> (r: String)
    ensures
        r@ == data_status_of(missing_usage_count, sources@.map_values(|s: String| s@)),
{
    let ghost sv = sources@.map_values(|s: String| s@);
    if missing_usage_count > 0 {
        return owned("partial");
    }
    let mut i: usize = 0;
    while i < sources.len()
        invariant
            sv == sources@.map_values(|s: String| s@),
            i <= sources@.len(),
            forall|j: int| 0 <= j < i ==> sv[j] == "provider_usage"@,
        decreases sources@.len() - i,
    {
        if !str_eq(sources[i].as_str(), "provider_usage") {
            proof {
                assert(sv[i as int] != "provider_usage"@);
            }
            return owned("partial");
        }
        i = i + 1;
    }
    owned("complete")
}

// ── Heatmap ──────────────────────────────────────────────────────────────

/// Recorded usage of one local day.
#[derive(Debug, Clone, Copy, PartialEq, Eq, Structural)]
pub struct DayTotals {
    pub input_tokens: i64,
    pub output_tokens: i64,
    pub reasoning_tokens: i64,
    pub cached_tokens: i64,
    pub requests: i64,
    /// Events of the day that did not come from provider usage.
    pub historical: i64,
}

pub open spec fn sat_add(a: i64, b: i64) -> i64 {
    if a + b > i64::MAX {
        i64::MAX
    } else if a + b < i64::MIN {
        i64::MIN
    } else {
        (a + b) as i64
    }
}

fn saturating_add(a: i64, b: i64) -> (r: i64)
    ensures
        r == sat_add(a, b),
{
    let s = a as i128 + b as i128;
    if s > i64::MAX as i128 {
        i64::MAX
    } else if s < i64::MIN as i128 {
        i64::MIN
    } else {
        s as i64
    }
}

/// The heatmap cell of a day: recorded totals when the day has events;
/// otherwise zero, or unknown for a day before tracking started; `partial`
/// whenever some usage of the day is missing or historical.
pub open spec fn heatmap_day_spec(
    key: Seq<char>,
    totals: Option<DayTotals>,
    missing_usage: bool,
    before_tracking: bool,
) -> (Seq<char>, Seq<char>, Option<i64>, i64, i64, i64, i64, Option<i64>) {
    match totals {
        Some(t) => (
            key,
            if t.historical > 0 || missing_usage {
                "partial"@
            } else {
                "recorded"@
            },
            Some(sat_add(t.input_tokens, t.output_tokens)),
            t.input_tokens,
            t.output_tokens,
            t.reasoning_tokens,
            t.cached_tokens,
            Some(t.requests),
        ),
        None => {
            let missing = before_tracking || missing_usage;
            (
                key,
                if missing_usage {
                    "partial"@
                } else if missing {
                    "missing"@
                } else {
                    "recorded"@
                },
                if missing {
                    None
                } else {
                    Some(0i64)
                },
                0,
                0,
                0,
                0,
                if missing {
                    None
                } else {
                    Some(0i64)
                },
            )
        },
    }
}

/// A day some of whose usage is known to be missing is never shown as
/// fully recorded: its cell is `partial` whether or not the day has recorded
/// totals, and only a day with nothing missing or historical is
/// `recorded`. A day's totals never change the token count the cell
/// reports for it.
pub proof fn lemma_missing_usage_is_partial(
    key: Seq<char>,
    totals: Option<DayTotals>,
    missing_usage: bool,
    before_tracking: bool,
)
    ensures
        missing_usage ==> heatmap_day_spec(key, totals, missing_usage, before_tracking).1 == "partial"@,
        heatmap_day_spec(key, totals, missing_usage, before_tracking).1 == "recorded"@ ==> !missing_usage
            && (totals matches Some(t) ==> t.historical <= 0),
        heatmap_day_spec(key, totals, true, before_tracking).2 == heatmap_day_spec(
            key,
            totals,
            false,
            false,
        ).2 || totals is None,
        heatmap_day_spec(key, totals, missing_usage, before_tracking).0 == key,
{
    reveal_strlit("partial");
    reveal_strlit("recorded");
    reveal_strlit("missing");
    assert("partial"@.len() == 7 && "recorded"@.len() == 8);
    assert("missing"@[0] != "recorded"@[0]);
}

pub open spec fn heatmap_cell_view(d: UsageHeatmapDay) -> (
    Seq<char>,
    Seq<char>,
    Option<i64>,
    i64,
    i64,
    i64,
    i64,
    Option<i64>,
) {
    (
        d.local_date@,
        d.status@,
        d.total_tokens,
        d.input_tokens,
        d.output_tokens,
        d.reasoning_tokens,
        d.cached_tokens,
        d.requests,
    )
}

/// The totals recorded under a day's key, the first entry winning.
pub open spec fn totals_for(grouped: Seq<(String, DayTotals)>, key: Seq<char>) -> Option<DayTotals>
    decreases grouped.len(),
{
    if grouped.len() == 0 {
        None
    } else if grouped[0].0@ == key {
        Some(grouped[0].1)
    } else {
        totals_for(grouped.drop_first(), key)
    }
}

pub open spec fn has_key(keys: Seq<String>, key: Seq<char>) -> bool {
    exists|i: int| 0 <= i < keys.len() && keys[i]@ == key
}

fn lookup_totals(grouped: &Vec<(String, DayTotals)>, key: &str) -> (r: Option<DayTotals>)
    ensures
        r == totals_for(grouped@, key@),
{
    let n = grouped.len();
    let mut i: usize = 0;
    proof {
        assert(grouped@.skip(0) =~= grouped@);
    }
    while i < n
        invariant
            n == grouped@.len(),
            i <= n,
            totals_for(grouped@, key@) == totals_for(grouped@.skip(i as int), key@),
        decreases n - i,
    {
        proof {
            assert(grouped@.skip(i as int).drop_first() =~= grouped@.skip(i + 1));
            assert(grouped@.skip(i as int)[0] == grouped@[i as int]);
        }
        if str_eq(grouped[i].0.as_str(), key) {
            return Some(grouped[i].1);
        }
        i = i + 1;
    }
    None
}

fn contains_key(keys: &Vec<String>, key: &str) -> (r: bool)
    ensures
        r == has_key(keys@, key@),
{
    let n = keys.len();
    let mut i: usize = 0;
    while i < n
        invariant
            n == keys@.len(),
            i <= n,
            forall|j: int| 0 <= j < i ==> keys@[j]@ != key@,
        decreases n - i,
    {
        if str_eq(keys[i].as_str(), key) {
            return true;
        }
        i = i + 1;
    }
    false
}

fn heatmap_day(key: String, totals: Option<DayTotals>, missing_usage: bool, before_tracking: bool) -> (r:
    UsageHeatmapDay)
    ensures
        heatmap_cell_view(r) == heatmap_day_spec(key@, totals, missing_usage, before_tracking),
{
    match totals {
        Some(t) => UsageHeatmapDay {
            local_date: key,
            status: if t.historical > 0 || missing_usage {
                owned("partial")
            } else {
                owned("recorded")
            },
            total_tokens: Some(saturating_add(t.input_tokens, t.output_tokens)),
            input_tokens: t.input_tokens,
            output_tokens: t.output_tokens,
            reasoning_tokens: t.reasoning_tokens,
            cached_tokens: t.cached_tokens,
            requests: Some(t.requests),
        },
        None => {
            let missing = before_tracking || missing_usage;
            UsageHeatmapDay {
                local_date: key,
                status: if missing_usage {
                    owned("partial")
                } else if missing {
                    owned("missing")
                } else {
                    owned("recorded")
                },
                total_tokens: if missing {
                    None
                } else {
                    Some(0)
                },
                input_tokens: 0,
                output_tokens: 0,
                reasoning_tokens: 0,
                cached_tokens: 0,
                requests: if missing {
                    None
                } else {
                    Some(0)
                },
            }
        },
    }
}

/// One heatmap cell per local day from `first_day` on, `range_days` of
/// them, each from the totals recorded under its `YYYY-MM-DD` key and
/// whether usage of that day is known to be missing.
pub fn usage_heatmap(
    first_day: i32,
    range_days: i64,
    tracking_start_day: i32,
    grouped: &Vec<(String, DayTotals)>,
    missing_by_day: &Vec<String>,
) -> (r: Vec<UsageHeatmapDay>)
    requires
        1 <= range_days <= 366,
        -95_000_000 <= first_day,
        first_day + range_days <= 95_000_000,
    ensures
        r@.len() == range_days,
        forall|i: int|
            0 <= i < range_days ==> heatmap_cell_view(#[trigger] r@[i]) == heatmap_day_spec(
                ymd_key(first_day + i),
                totals_for(grouped@, ymd_key(first_day + i)),
                has_key(missing_by_day@, ymd_key(first_day + i)),
                first_day + i < tracking_start_day,
            ),
{
    let mut out: Vec<UsageHeatmapDay> = Vec::new();
    let mut offset: i64 = 0;
    while offset < range_days
        invariant
            1 <= range_days <= 366,
            -95_000_000 <= first_day,
            first_day + range_days <= 95_000_000,
            0 <= offset <= range_days,
            out@.len() == offset,
            forall|i: int|
                0 <= i < offset ==> heatmap_cell_view(#[trigger] out@[i]) == heatmap_day_spec(
                    ymd_key(first_day + i),
                    totals_for(grouped@, ymd_key(first_day + i)),
                    has_key(missing_by_day@, ymd_key(first_day + i)),
                    first_day + i < tracking_start_day,
                ),
        decreases range_days - offset,
    {
        let day: i32 = first_day + offset as i32;
        let key = date_key(day);
        let totals = lookup_totals(grouped, key.as_str());
        let missing_usage = contains_key(missing_by_day, key.as_str());
        let cell = heatmap_day(key, totals, missing_usage, day < tracking_start_day);
        out.push(cell);
        offset = offset + 1;
    }
    out
}


// ── Budget periods ───────────────────────────────────────────────────────

/// The year and month (1 to 12) of a day number.
pub uninterp spec fn year_month(day: int) -> Option<(int, int)>;

/// chrono's `Datelike::year` and `month` of the day's date; `None` outside
/// chrono's range, whose years run from -262143 to 262142.
#[verifier::external_body]
fn year_month_of(day: i32) -> (r: Option<(i32, u32)>)
    ensures
        match r {
            Some((y, m)) => year_month(day as int) == Some((y as int, m as int)) && 1 <= m <= 12
                && -262144 <= y <= 262143,
            None => year_month(day as int) is None,
        },
{
    chrono::NaiveDate::from_num_days_from_ce_opt(day).map(
        |d| (chrono::Datelike::year(&d), chrono::Datelike::month(&d)),
    )
}

/// The day number of a calendar date.
pub uninterp spec fn day_number_of(year: int, month: int, day: int) -> Option<int>;

/// chrono's `NaiveDate::from_ymd_opt` and the day number of its result.
#[verifier::external_body]
fn day_of_ymd(year: i32, month: u32, day: u32) -> (r: Option<i32>)
    ensures
        match r {
            Some(d) => day_number_of(year as int, month as int, day as int) == Some(d as int),
            None => day_number_of(year as int, month as int, day as int) is None,
        },
{
    chrono::NaiveDate::from_ymd_opt(year, month, day).map(|d| chrono::Datelike::num_days_from_ce(&d))
}

/// The `YYYY-MM` text of a day number's month.
pub uninterp spec fn ym_text(day: int) -> Option<Seq<char>>;

/// Formats the day's date as `%Y-%m` with chrono.
#[verifier::external_body]
fn month_key_of(day: i32) -> (r: Option<String>)
    ensures
        match r {
            Some(k) => ym_text(day as int) == Some(k@),
            None => ym_text(day as int) is None,
        },
{
    chrono::NaiveDate::from_num_days_from_ce_opt(day).map(|d| d.format("%Y-%m").to_string())
}

/// The first day of the month of `today` and of the month after it.
pub open spec fn month_span(today: int) -> Option<(int, int)> {
    match year_month(today) {
        Some((y, m)) => match (
            day_number_of(y, m, 1),
            if m == 12 {
                day_number_of(y + 1, 1, 1)
            } else {
                day_number_of(y, m + 1, 1)
            },
        ) {
            (Some(first), Some(next)) => Some((first, next)),
            _ => None,
        },
        None => None,
    }
}

pub type PeriodsView = (Seq<char>, Seq<char>, Seq<char>, Seq<char>, Seq<char>, Seq<char>);

/// The local day and month containing `now`: their keys and where each
/// begins and ends in UTC; `Ok(None)` where the dates leave chrono's range.
pub open spec fn budget_periods_spec(now: Seq<char>, offset: int) -> Result<Option<PeriodsView>, Seq<char>> {
    match local_day_number(now, offset) {
        None => Err("now_utc must be RFC3339"@),
        Some(today) => match (month_span(today), ym_text(today), utc_day_bounds(today, offset)) {
            (Some((first, next)), Some(month_key), Some((day_start, day_end))) => match (
                utc_day_bounds(first, offset),
                utc_day_bounds(next, offset),
            ) {
                (Some((month_start, _)), Some((month_end, _))) => if -95_000_000 <= today
                    <= 95_000_000 {
                    Ok(Some((ymd_key(today), day_start, day_end, month_key, month_start, month_end)))
                } else {
                    Ok(None)
                },
                _ => Ok(None),
            },
            _ => Ok(None),
        },
    }
}

/// The calendar periods a budget check covers, and their UTC windows.
#[derive(Debug)]
pub struct BudgetPeriods {
    /// `YYYY-MM-DD` of the local day.
    pub day_key: String,
    pub day_start_utc: String,
    pub day_end_utc: String,
    /// `YYYY-MM` of the local month.
    pub month_key: String,
    pub month_start_utc: String,
    pub month_end_utc: String,
}

pub open spec fn periods_view(p: BudgetPeriods) -> PeriodsView {
    (p.day_key@, p.day_start_utc@, p.day_end_utc@, p.month_key@, p.month_start_utc@, p.month_end_utc@)
}

pub fn budget_periods(now_utc: &str, timezone_offset_minutes: i32) -> (r: Result<
    Option<BudgetPeriods>,
    AppError,
>)
    ensures
        match budget_periods_spec(now_utc@, timezone_offset_minutes as int) {
            Err(m) => (r matches Err(e) && e.message() == m),
            Ok(None) => r matches Ok(None),
            Ok(Some(v)) => (r matches Ok(Some(p)) && periods_view(p) == v),
        },
{
    let today = match local_day(now_utc, timezone_offset_minutes) {
        Some(d) => d,
        None => return Err(AppError::Other(owned("now_utc must be RFC3339"))),
    };
    let (y, m) = match year_month_of(today) {
        Some(ym) => ym,
        None => return Ok(None),
    };
    let first = match day_of_ymd(y, m, 1) {
        Some(d) => d,
        None => return Ok(None),
    };
    let next = if m == 12 {
        day_of_ymd(y + 1, 1, 1)
    } else {
        day_of_ymd(y, m + 1, 1)
    };
    let next = match next {
        Some(d) => d,
        None => return Ok(None),
    };
    let month_key = match month_key_of(today) {
        Some(k) => k,
        None => return Ok(None),
    };
    let (day_start_utc, day_end_utc) = match utc_bounds_for_local_date(today, timezone_offset_minutes) {
        Some(b) => b,
        None => return Ok(None),
    };
    let (month_start_utc, _) = match utc_bounds_for_local_date(first, timezone_offset_minutes) {
        Some(b) => b,
        None => return Ok(None),
    };
    let (month_end_utc, _) = match utc_bounds_for_local_date(next, timezone_offset_minutes) {
        Some(b) => b,
        None => return Ok(None),
    };
    if today < -95_000_000 || today > 95_000_000 {
        return Ok(None);
    }
    let day_key = date_key(today);
    Ok(
        Some(
            BudgetPeriods {
                day_key,
                day_start_utc,
                day_end_utc,
                month_key,
                month_start_utc,
                month_end_utc,
            },
        ),
    )
}


// ── Dashboard window ─────────────────────────────────────────────────────

/// The days a usage dashboard covers.
#[derive(Debug)]
pub struct DashboardWindow {
    /// The range, limited to one to 366 days.
    pub range_days: i64,
    /// The first and last local day shown.
    pub first_day: i32,
    pub today: i32,
    /// The local day usage tracking started.
    pub tracking_start_day: i32,
    /// Where the range begins and ends in UTC.
    pub start_utc: String,
    pub end_utc: String,
}

/// The range ending today that a dashboard of `range_days` days covers.
/// `Err` when `now_utc` or the tracking start is not RFC 3339 (checked in
/// that order); `Ok(None)` where the days leave chrono's range.
pub fn dashboard_window(
    now_utc: &str,
    timezone_offset_minutes: i32,
    range_days: i64,
    tracking_started: &str,
) -> (r: Result<Option<DashboardWindow>, AppError>)
    ensures
        match local_day_number(now_utc@, timezone_offset_minutes as int) {
            None => (r matches Err(e) && e.message() == "now_utc must be RFC3339"@),
            Some(today) => match local_day_number(tracking_started@, timezone_offset_minutes as int) {
                None => (r matches Err(e) && e.message() == "invalid usage tracking metadata"@),
                Some(started) => match r {
                    Ok(Some(w)) => w.today == today && w.tracking_start_day == started && w.range_days
                        == clamped_days(range_days as int) && w.first_day == today - (w.range_days
                        - 1) && (utc_day_bounds(w.first_day as int, timezone_offset_minutes as int)
                        matches Some((a, _)) && a == w.start_utc@) && (utc_day_bounds(
                        today,
                        timezone_offset_minutes as int,
                    ) matches Some((_, b)) && b == w.end_utc@),
                    Ok(None) => {
                        let first = today - (clamped_days(range_days as int) - 1);
                        first < i32::MIN || utc_day_bounds(first, timezone_offset_minutes as int)
                            is None || utc_day_bounds(today, timezone_offset_minutes as int) is None
                    },
                    Err(_) => false,
                },
            },
        },
{
    let today = match usage_today(now_utc, timezone_offset_minutes) {
        Ok(d) => d,
        Err(e) => return Err(e),
    };
    let days = clamp_range_days(range_days);
    let started = match tracking_start_day(tracking_started, timezone_offset_minutes) {
        Ok(d) => d,
        Err(e) => return Err(e),
    };
    if (today as i64) - (days - 1) < i32::MIN as i64 {
        return Ok(None);
    }
    let first_day: i32 = today - (days as i32 - 1);
    match usage_range_window(first_day, today, timezone_offset_minutes) {
        Some((start_utc, end_utc)) => Ok(
            Some(
                DashboardWindow {
                    range_days: days,
                    first_day,
                    today,
                    tracking_start_day: started,
                    start_utc,
                    end_utc,
                },
            ),
        ),
        None => Ok(None),
    }
}

} // verus!
