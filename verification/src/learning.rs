//! Learning candidates: their stored records, the pure parts of the
//! after-session post-mortem pass, and the calibration hint built from the
//! user's past accept/reject decisions.
use vstd::prelude::*;
use crate::errors::AppError;
use crate::json::{entries_of, json_get, set_result, Json};
use crate::order::{sorted_distinct, sorted_distinct_strings, string_views};
use crate::redact::{redact_spec, redact_text};
use crate::settings::{lookup, model_for, opt_view, Settings};
use crate::text::{
    chars_of, collapse_whitespace, collapse_ws, contains, contains_chars, decimal, join,
    join_strings, occurs_at, owned, push_str,
    str_eq, to_lowercase, trim, trim_bounds, trim_str, u64_string, unicode_lowercase, views,
};

verus! {

broadcast use vstd::string::group_string_axioms;

/// A stored learning candidate.
#[derive(Debug)]
pub struct LearningEvent {
    pub id: String,
    pub session_id: String,
    pub cwd: String,
    pub observation: String,
    pub suggestion: String,
    /// pending | accepted | rejected
    pub status: String,
    pub created_at: String,
    pub decided_at: Option<String>,
    /// `memory` appends to the project memory file on accept; `preference`
    /// upserts `pref_key` → `pref_value`.
    pub kind: String,
    pub pref_key: Option<String>,
    pub pref_value: Option<String>,
    /// Support behind a mined insight (0 for per-session post-mortem rows).
    pub support_count: i64,
    /// Raw metrics behind a mined insight, as JSON text.
    pub evidence_json: String,
    pub job_id: Option<String>,
}

/// The kind a learning event has when none is recorded.
pub fn default_kind() -> (r: String)
    ensures
        r@ == "memory"@,
{
    owned("memory")
}

/// The evidence a learning event has when none is recorded.
pub fn default_evidence() -> (r: String)
    ensures
        r@ == "{}"@,
{
    owned("{}")
}

/// An analysis or decision job of the evolution ledger.
#[derive(Debug, PartialEq, Eq)]
pub struct EvolutionJob {
    pub id: String,
    pub cwd: String,
    pub trigger: String,
    pub candidate_id: Option<String>,
    pub status: String,
    pub input_session_count: i64,
    pub input_trace_count: i64,
    pub candidate_count: i64,
    pub started_at: String,
    pub completed_at: Option<String>,
    pub error: Option<String>,
}

/// One append-only event of an evolution job.
#[derive(Debug, PartialEq, Eq)]
pub struct EvolutionJobEvent {
    pub id: String,
    pub cwd: String,
    pub job_id: String,
    pub candidate_id: Option<String>,
    pub stage: String,
    pub status: String,
    pub title: String,
    pub detail_json: String,
    pub created_at: String,
}

/// A job from its row, columns in declaration order.
pub fn job_from_row(
    row: (
        String,
        String,
        String,
        Option<String>,
        String,
        i64,
        i64,
        i64,
        String,
        Option<String>,
        Option<String>,
    ),
) -> (j: EvolutionJob)
    ensures
        j.id == row.0,
        j.cwd == row.1,
        j.trigger == row.2,
        j.candidate_id == row.3,
        j.status == row.4,
        j.input_session_count == row.5,
        j.input_trace_count == row.6,
        j.candidate_count == row.7,
        j.started_at == row.8,
        j.completed_at == row.9,
        j.error == row.10,
{
    let (
        id,
        cwd,
        trigger,
        candidate_id,
        status,
        input_session_count,
        input_trace_count,
        candidate_count,
        started_at,
        completed_at,
        error,
    ) = row;
    EvolutionJob {
        id,
        cwd,
        trigger,
        candidate_id,
        status,
        input_session_count,
        input_trace_count,
        candidate_count,
        started_at,
        completed_at,
        error,
    }
}

/// A job event from its row, columns in declaration order.
pub fn job_event_from_row(
    row: (String, String, String, Option<String>, String, String, String, String, String),
) -> (e: EvolutionJobEvent)
    ensures
        e.id == row.0,
        e.cwd == row.1,
        e.job_id == row.2,
        e.candidate_id == row.3,
        e.stage == row.4,
        e.status == row.5,
        e.title == row.6,
        e.detail_json == row.7,
        e.created_at == row.8,
{
    let (id, cwd, job_id, candidate_id, stage, status, title, detail_json, created_at) = row;
    EvolutionJobEvent { id, cwd, job_id, candidate_id, stage, status, title, detail_json, created_at }
}

/// `base` joined with the relative path `part` by a `/`.
pub open spec fn join_path(base: Seq<char>, part: Seq<char>) -> Seq<char> {
    if base.len() == 0 {
        part
    } else if base.last() == '/' {
        base + part
    } else {
        base + "/"@ + part
    }
}

pub fn join_path_str(base: &str, part: &str) -> (r: String)
    ensures
        r@ == join_path(base@, part@),
{
    let b = chars_of(base);
    if b.len() == 0 {
        owned(part)
    } else if b[b.len() - 1] == '/' {
        let mut r = owned(base);
        push_str(&mut r, part);
        r
    } else {
        let mut r = owned(base);
        push_str(&mut r, "/");
        push_str(&mut r, part);
        r
    }
}

/// The project memory file that accepted memory candidates extend.
pub open spec fn learning_memory_path_spec(cwd: Seq<char>) -> Seq<char> {
    join_path(join_path(cwd, ".codefactory"@), "memory.md"@)
}

/// `<cwd>/.codefactory/memory.md`.
pub fn learning_memory_path(cwd: &str) -> (r: String)
    ensures
        r@ == learning_memory_path_spec(cwd@),
{
    let dir = join_path_str(cwd, ".codefactory");
    join_path_str(dir.as_str(), "memory.md")
}

/// The message of one completion choice.
#[derive(Debug)]
pub struct AiResponseMessage {
    pub content: Option<String>,
    pub reasoning_content: Option<String>,
}

/// One completion choice.
#[derive(Debug)]
pub struct AiResponseChoice {
    pub message: AiResponseMessage,
    pub finish_reason: Option<String>,
}

/// A chat-completions response.
#[derive(Debug)]
pub struct AiResponse {
    pub choices: Vec<AiResponseChoice>,
}

/// What the post-mortem pass takes from a response.
#[derive(Debug)]
pub struct PostmortemCompletion {
    pub text: String,
    pub reasoning_present: bool,
    pub finish_reason: Option<String>,
}

pub open spec fn text_or_empty(o: Option<String>) -> Seq<char> {
    match o {
        Some(s) => s@,
        None => Seq::empty(),
    }
}

pub open spec fn has_reasoning(o: Option<String>) -> bool {
    match o {
        Some(s) => trim(s@).len() > 0,
        None => false,
    }
}

/// The final content of the first choice; reasoning is only reported as
/// present, never used as content.
pub fn extract_postmortem_completion(response: AiResponse) -> (c: PostmortemCompletion)
    ensures
        response.choices@.len() == 0 ==> c.text@ == Seq::<char>::empty() && !c.reasoning_present
            && c.finish_reason is None,
        response.choices@.len() > 0 ==> {
            let ch = response.choices@[0];
            &&& c.text@ == text_or_empty(ch.message.content)
            &&& c.reasoning_present == has_reasoning(ch.message.reasoning_content)
            &&& c.finish_reason == ch.finish_reason
        },
{
    let mut choices = response.choices;
    if choices.len() == 0 {
        return PostmortemCompletion {
            text: String::new(),
            reasoning_present: false,
            finish_reason: None,
        };
    }
    let choice = choices.remove(0);
    let text = match choice.message.content {
        Some(t) => t,
        None => String::new(),
    };
    let reasoning_present = match &choice.message.reasoning_content {
        Some(r) => {
            let v = chars_of(r.as_str());
            let (a, b) = trim_bounds(v.as_slice());
            a < b
        },
        None => false,
    };
    PostmortemCompletion { text, reasoning_present, finish_reason: choice.finish_reason }
}

/// The model the post-mortem pass uses: what the default endpoint serves
/// for the default model.
pub fn resolve_postmortem_model(settings: &Settings) -> (r: Option<String>)
    ensures
        opt_view(r) == match lookup(settings.endpoints@, settings.default_endpoint@) {
            Some(ep) => model_for(ep, settings.default_model@),
            None => None,
        },
{
    settings.resolve_model_for_endpoint(
        settings.default_endpoint.as_str(),
        settings.default_model.as_str(),
    )
}

/// Whether a post-mortem pass asks a model at all: only when remote
/// post-mortems are enabled, the session has a project to store into, and
/// its summary is not empty. Otherwise the pass proposes nothing.
pub fn postmortem_runs(enabled: bool, has_scope: bool, summary: &str) -> (r: bool)
    ensures
        r == (enabled && has_scope && summary@.len() > 0),
{
    enabled && has_scope && chars_of(summary).len() > 0
}

/// What a post-mortem pass gives its caller: the learnings it stored, or
/// none when any step failed. A post-mortem is best-effort and never turns
/// a finished run into a failure.
pub fn postmortem_result<T>(outcome: Result<Vec<T>, AppError>) -> (r: Vec<T>)
    ensures
        match outcome {
            Ok(v) => r@ == v@,
            Err(_) => r@.len() == 0,
        },
{
    match outcome {
        Ok(v) => v,
        Err(_) => Vec::new(),
    }
}

/// How the post-mortem pass reaches its model: the model the default
/// endpoint serves and that endpoint's key reference. Refused when no model
/// is configured for the default endpoint, then when the endpoint itself is
/// missing.
pub fn postmortem_route(settings: &Settings) -> (r: Result<(String, Option<String>), AppError>)
    ensures
        match lookup(settings.endpoints@, settings.default_endpoint@) {
            Some(ep) => match model_for(ep, settings.default_model@) {
                Some(m) => (r matches Ok((x, k)) && x@ == m && opt_view(k) == ep.key_ref),
                None => (r matches Err(e) && e.message() == "No post-mortem model configured for endpoint '"@
                    + settings.default_endpoint@ + "'"@),
            },
            None => (r matches Err(e) && e.message() == "No post-mortem model configured for endpoint '"@
                + settings.default_endpoint@ + "'"@),
        },
{
    let ep_name = settings.default_endpoint.as_str();
    let model = match resolve_postmortem_model(settings) {
        Some(m) => m,
        None => {
            let mut msg = owned("No post-mortem model configured for endpoint '");
            push_str(&mut msg, ep_name);
            push_str(&mut msg, "'");
            return Err(AppError::Other(msg));
        },
    };
    match settings.endpoints.get(ep_name) {
        None => {
            let mut msg = owned("Endpoint '");
            push_str(&mut msg, ep_name);
            push_str(&mut msg, "' not configured");
            Err(AppError::Other(msg))
        },
        Some(ep) => {
            let key = match &ep.key_ref {
                Some(k) => Some(owned(k.as_str())),
                None => None,
            };
            Ok((model, key))
        },
    }
}

/// The API key the post-mortem pass sends: empty without a key reference
/// or when the reference holds nothing; a failed lookup is refused.
/// `loaded` is the outcome of looking the reference up (`None` when the
/// endpoint has no key reference).
pub fn postmortem_api_key(loaded: Option<Result<Option<String>, String>>) -> (r: Result<
    String,
    AppError,
>)
    ensures
        match loaded {
            None => (r matches Ok(k) && k@.len() == 0),
            Some(Ok(None)) => (r matches Ok(k) && k@.len() == 0),
            Some(Ok(Some(key))) => (r matches Ok(k) && k@ == key@),
            Some(Err(e)) => (r matches Err(x) && x.message() == "Failed to load API key: "@ + e@),
        },
{
    match loaded {
        None => Ok(String::new()),
        Some(Ok(None)) => Ok(String::new()),
        Some(Ok(Some(key))) => Ok(key),
        Some(Err(e)) => {
            let mut msg = owned("Failed to load API key: ");
            push_str(&mut msg, e.as_str());
            Err(AppError::Other(msg))
        },
    }
}

/// One candidate as the model proposes it.
#[derive(Debug)]
pub struct PostmortemEntry {
    pub observation: String,
    pub suggestion: String,
    pub kind: Option<String>,
    pub pref_key: Option<String>,
    pub pref_value: Option<String>,
}

pub open spec fn is_ascii_lower(c: char) -> bool {
    'a' <= c <= 'z'
}

pub open spec fn is_key_char(c: char) -> bool {
    is_ascii_lower(c) || ('0' <= c <= '9') || c == '_'
}

/// A snake_case key: a lower-case ASCII letter, then fewer than 64 lower-case
/// letters, digits or underscores.
pub open spec fn valid_key(k: Seq<char>) -> bool {
    &&& k.len() > 0
    &&& is_ascii_lower(k[0])
    &&& k.len() - 1 < 64
    &&& forall|i: int| 1 <= i < k.len() ==> is_key_char(#[trigger] k[i])
}

/// Whether `key` may name a stored preference.
pub fn valid_preference_key(key: &str) -> (b: bool)
    ensures
        b == valid_key(key@),
{
    let v = chars_of(key);
    if v.len() == 0 {
        return false;
    }
    let first = v[0];
    if !('a' <= first && first <= 'z') {
        return false;
    }
    if v.len() - 1 >= 64 {
        return false;
    }
    let mut i: usize = 1;
    while i < v.len()
        invariant
            1 <= i <= v@.len(),
            v@ == key@,
            forall|k: int| 1 <= k < i ==> is_key_char(#[trigger] v@[k]),
        decreases v@.len() - i,
    {
        let c = v[i];
        if !(('a' <= c && c <= 'z') || ('0' <= c && c <= '9') || c == '_') {
            proof {
                assert(!is_key_char(v@[i as int]));
            }
            return false;
        }
        i = i + 1;
    }
    true
}

/// The five fields of an entry by their views.
pub type EntryView = (Seq<char>, Seq<char>, Option<Seq<char>>, Option<Seq<char>>, Option<
    Seq<char>,
>);

pub open spec fn entry_view(e: PostmortemEntry) -> EntryView {
    (e.observation@, e.suggestion@, opt_view(e.kind), opt_view(e.pref_key), opt_view(e.pref_value))
}

pub open spec fn opt_entry_view(e: Option<PostmortemEntry>) -> Option<EntryView> {
    match e {
        Some(x) => Some(entry_view(x)),
        None => None,
    }
}

/// Trimmed and redacted to at most `max` characters.
pub open spec fn clean(s: Seq<char>, max: nat) -> Seq<char> {
    redact_spec(trim(s), max)
}

pub open spec fn clean_opt(o: Option<Seq<char>>, max: nat) -> Option<Seq<char>> {
    match o {
        Some(s) => Some(clean(s, max)),
        None => None,
    }
}

/// What is kept of a proposed candidate: every field trimmed and redacted; a
/// preference without a valid key becomes a memory candidate with no key or
/// value; a candidate with an empty observation or suggestion is dropped.
pub open spec fn sanitize_spec(e: EntryView) -> Option<EntryView> {
    let obs = clean(e.0, 2000);
    let sug = clean(e.1, 1000);
    let key = clean_opt(e.3, 120);
    let value = clean_opt(e.4, 500);
    let downgrade = e.2 == Some("preference"@) && !(match key {
        Some(k) => valid_key(k),
        None => false,
    });
    if obs.len() == 0 || sug.len() == 0 {
        None
    } else if downgrade {
        Some((obs, sug, Some("memory"@), None, None))
    } else {
        Some((obs, sug, e.2, key, value))
    }
}

fn clean_text(s: &str, max: usize) -> (r: String)
    ensures
        r@ == clean(s@, max as nat),
{
    let t = trim_str(s);
    redact_text(t.as_str(), max)
}

fn clean_option(o: Option<String>, max: usize) -> (r: Option<String>)
    ensures
        opt_view(r) == clean_opt(opt_view(o), max as nat),
{
    match o {
        Some(s) => Some(clean_text(s.as_str(), max)),
        None => None,
    }
}

/// Redacts a proposed candidate and decides whether it is kept.
pub fn sanitize_postmortem_entry(entry: PostmortemEntry) -> (r: Option<PostmortemEntry>)
    ensures
        opt_entry_view(r) == sanitize_spec(entry_view(entry)),
{
    let observation = clean_text(entry.observation.as_str(), 2000);
    let suggestion = clean_text(entry.suggestion.as_str(), 1000);
    let pref_key = clean_option(entry.pref_key, 120);
    let pref_value = clean_option(entry.pref_value, 500);
    let is_preference = match &entry.kind {
        Some(k) => str_eq(k.as_str(), "preference"),
        None => false,
    };
    let key_ok = match &pref_key {
        Some(k) => valid_preference_key(k.as_str()),
        None => false,
    };
    let obs_chars = chars_of(observation.as_str());
    let sug_chars = chars_of(suggestion.as_str());
    if obs_chars.len() == 0 || sug_chars.len() == 0 {
        return None;
    }
    if is_preference && !key_ok {
        Some(
            PostmortemEntry {
                observation,
                suggestion,
                kind: Some(owned("memory")),
                pref_key: None,
                pref_value: None,
            },
        )
    } else {
        Some(PostmortemEntry { observation, suggestion, kind: entry.kind, pref_key, pref_value })
    }
}

/// The duplicate-detection key of a suggestion: trimmed, lower-cased, runs of
/// whitespace folded to one space.
pub open spec fn norm_spec(s: Seq<char>) -> Seq<char> {
    collapse_ws(unicode_lowercase(trim(s)))
}

/// Normalises a suggestion for duplicate detection.
pub fn norm_suggestion(s: &str) -> (r: String)
    ensures
        r@ == norm_spec(s@),
{
    let t = trim_str(s);
    let lower = to_lowercase(t.as_str());
    collapse_whitespace(lower.as_str())
}

/// The kinds of a decision history, in order.
pub open spec fn decision_kinds(d: Seq<(String, String)>) -> Seq<Seq<char>> {
    d.map_values(|p: (String, String)| p.0@)
}

/// How many decisions were made on candidates of kind `k`.
pub open spec fn kind_total(d: Seq<(String, String)>, k: Seq<char>) -> nat
    decreases d.len(),
{
    if d.len() == 0 {
        0
    } else {
        kind_total(d.drop_last(), k) + if d.last().0@ == k {
            1nat
        } else {
            0nat
        }
    }
}

/// How many candidates of kind `k` were accepted.
pub open spec fn kind_accepted(d: Seq<(String, String)>, k: Seq<char>) -> nat
    decreases d.len(),
{
    if d.len() == 0 {
        0
    } else {
        kind_accepted(d.drop_last(), k) + if d.last().0@ == k && d.last().1@ == "accepted"@ {
            1nat
        } else {
            0nat
        }
    }
}

pub open spec fn reject_line(k: Seq<char>, acc: nat, tot: nat) -> Seq<char> {
    "- The user has rejected most \""@ + k + "\" suggestions ("@ + decimal(acc) + "/"@ + decimal(tot)
        + " accepted) — only propose a \""@ + k + "\" when highly confident."@
}

pub open spec fn welcome_line(k: Seq<char>, acc: nat, tot: nat) -> Seq<char> {
    "- The user accepts most \""@ + k + "\" suggestions ("@ + decimal(acc) + "/"@ + decimal(tot)
        + ") — those are welcome."@
}

/// The hint line for one kind: only with at least four decisions, and only
/// at an accept rate of at most 25% or at least 80%.
pub open spec fn hint_line(k: Seq<char>, acc: nat, tot: nat) -> Option<Seq<char>> {
    if tot < 4 {
        None
    } else if acc * 100 / tot <= 25 {
        Some(reject_line(k, acc, tot))
    } else if acc * 100 / tot >= 80 {
        Some(welcome_line(k, acc, tot))
    } else {
        None
    }
}

pub open spec fn hint_lines(ks: Seq<Seq<char>>, d: Seq<(String, String)>) -> Seq<Seq<char>>
    decreases ks.len(),
{
    if ks.len() == 0 {
        Seq::empty()
    } else {
        let rest = hint_lines(ks.drop_last(), d);
        match hint_line(ks.last(), kind_accepted(d, ks.last()), kind_total(d, ks.last())) {
            Some(l) => rest.push(l),
            None => rest,
        }
    }
}

/// The calibration hint: one line per kind (kinds ascending) that hits an
/// extreme, under a header; empty when no kind does.
pub open spec fn calibration_spec(d: Seq<(String, String)>) -> Seq<char> {
    let lines = hint_lines(sorted_distinct(decision_kinds(d)), d);
    if lines.len() == 0 {
        Seq::empty()
    } else {
        "Calibration from this user's past decisions:\n"@ + join(lines, "\n"@) + "\n\n"@
    }
}

/// `(accepted, total)` decisions on kind `k`.
fn count_kind(d: &[(String, String)], k: &str) -> (r: (u64, u64))
    ensures
        r.0 == kind_accepted(d@, k@),
        r.1 == kind_total(d@, k@),
{
    let mut acc: u64 = 0;
    let mut tot: u64 = 0;
    let mut i: usize = 0;
    proof {
        assert(d@.take(0) =~= Seq::<(String, String)>::empty());
    }
    while i < d.len()
        invariant
            i <= d@.len(),
            acc == kind_accepted(d@.take(i as int), k@),
            tot == kind_total(d@.take(i as int), k@),
            acc <= tot <= i,
        decreases d@.len() - i,
    {
        proof {
            assert(d@.take(i + 1).drop_last() =~= d@.take(i as int));
            assert(d@.take(i + 1).last() == d@[i as int]);
        }
        if str_eq(d[i].0.as_str(), k) {
            tot = tot + 1;
            if str_eq(d[i].1.as_str(), "accepted") {
                acc = acc + 1;
            }
        }
        i = i + 1;
    }
    proof {
        assert(d@.take(d@.len() as int) =~= d@);
    }
    (acc, tot)
}

fn reject_line_exec(k: &str, acc: u64, tot: u64) -> (r: String)
    ensures
        r@ == reject_line(k@, acc as nat, tot as nat),
{
    let mut s = owned("- The user has rejected most \"");
    push_str(&mut s, k);
    push_str(&mut s, "\" suggestions (");
    let a = u64_string(acc);
    push_str(&mut s, a.as_str());
    push_str(&mut s, "/");
    let t = u64_string(tot);
    push_str(&mut s, t.as_str());
    push_str(&mut s, " accepted) — only propose a \"");
    push_str(&mut s, k);
    push_str(&mut s, "\" when highly confident.");
    s
}

fn welcome_line_exec(k: &str, acc: u64, tot: u64) -> (r: String)
    ensures
        r@ == welcome_line(k@, acc as nat, tot as nat),
{
    let mut s = owned("- The user accepts most \"");
    push_str(&mut s, k);
    push_str(&mut s, "\" suggestions (");
    let a = u64_string(acc);
    push_str(&mut s, a.as_str());
    push_str(&mut s, "/");
    let t = u64_string(tot);
    push_str(&mut s, t.as_str());
    push_str(&mut s, ") — those are welcome.");
    s
}

/// Advisory text for the post-mortem prompt built from the accept/reject
/// history `(kind, status)`.
pub fn calibration_hint(decisions: &[(String, String)]) -> (r: String)
    ensures
        r@ == calibration_spec(decisions@),
{
    let mut kinds: Vec<String> = Vec::new();
    let mut i: usize = 0;
    while i < decisions.len()
        invariant
            i <= decisions@.len(),
            string_views(kinds@) == decision_kinds(decisions@).take(i as int),
        decreases decisions@.len() - i,
    {
        let ghost before = string_views(kinds@);
        kinds.push(decisions[i].0.clone());
        proof {
            assert(string_views(kinds@) =~= before.push(decisions@[i as int].0@));
            assert(decision_kinds(decisions@)[i as int] == decisions@[i as int].0@);
            assert(decision_kinds(decisions@).take(i + 1) =~= decision_kinds(decisions@).take(
                i as int,
            ).push(decisions@[i as int].0@));
        }
        i = i + 1;
        assert(string_views(kinds@) =~= decision_kinds(decisions@).take(i as int));
    }
    assert(decision_kinds(decisions@).take(decisions@.len() as int) =~= decision_kinds(
        decisions@,
    ));
    let sorted = sorted_distinct_strings(&kinds);
    let ghost ks = string_views(sorted@);
    let mut lines: Vec<String> = Vec::new();
    let mut j: usize = 0;
    proof {
        assert(ks.take(0) =~= Seq::<Seq<char>>::empty());
        assert(views(lines@) =~= Seq::<Seq<char>>::empty());
    }
    while j < sorted.len()
        invariant
            j <= sorted@.len(),
            ks == string_views(sorted@),
            views(lines@) == hint_lines(ks.take(j as int), decisions@),
        decreases sorted@.len() - j,
    {
        let k = sorted[j].as_str();
        let (acc, tot) = count_kind(decisions, k);
        let ghost before = views(lines@);
        proof {
            assert(ks.take(j + 1).drop_last() =~= ks.take(j as int));
            assert(ks.take(j + 1).last() == k@);
        }
        if tot >= 4 {
            let rate = ((acc as u128) * 100) / (tot as u128);
            if rate <= 25 {
                lines.push(reject_line_exec(k, acc, tot));
                assert(views(lines@) =~= before.push(reject_line(k@, acc as nat, tot as nat)));
            } else if rate >= 80 {
                lines.push(welcome_line_exec(k, acc, tot));
                assert(views(lines@) =~= before.push(welcome_line(k@, acc as nat, tot as nat)));
            }
        }
        j = j + 1;
    }
    proof {
        assert(ks.take(sorted@.len() as int) =~= ks);
        assert(string_views(kinds@) == decision_kinds(decisions@));
    }
    if lines.len() == 0 {
        String::new()
    } else {
        let mut r = owned("Calibration from this user's past decisions:\n");
        let body = join_strings(&lines, "\n");
        push_str(&mut r, body.as_str());
        push_str(&mut r, "\n\n");
        r
    }
}


/// The completion budget a retry widens: `max_completion_tokens` when the
/// body has it, otherwise `max_tokens`.
pub open spec fn budget_field(body: Json) -> Seq<char> {
    if json_get(body, "max_completion_tokens"@) is Some {
        "max_completion_tokens"@
    } else {
        "max_tokens"@
    }
}

/// Raises the active completion budget of a request body to 2000 tokens.
pub fn expand_postmortem_completion_budget(body: &mut Json)
    requires
        *old(body) is Object || *old(body) is Null,
    ensures
        match *final(body) {
            Json::Object(g) => set_result(
                entries_of(*old(body)),
                budget_field(*old(body)),
                Json::Int(2000),
                g@,
            ),
            _ => false,
        },
{
    let field = if body.get("max_completion_tokens").is_some() {
        "max_completion_tokens"
    } else {
        "max_tokens"
    };
    body.set(field, Json::Int(2000));
}


/// The marker that records which candidate a memory line came from.
pub open spec fn learning_marker(candidate_id: Seq<char>) -> Seq<char> {
    "<!-- codefactory-learning-event:"@ + candidate_id + " -->"@
}

/// The header a new memory file starts with.
pub open spec fn memory_header() -> Seq<char> {
    "# Project memory\n\nAuto-injected into every chat session in this repo.\nUse the Remember button in the chat UI to add new entries.\n\n"@
}

/// The memory file after appending a candidate's line, dated `date` and
/// followed by the candidate's marker.
pub open spec fn appended_memory(
    existing: Seq<char>,
    suggestion: Seq<char>,
    candidate_id: Seq<char>,
    date: Seq<char>,
) -> Seq<char> {
    (if existing.len() == 0 {
        memory_header()
    } else {
        existing + "\n\n"@
    }) + "- ("@ + date + ") "@ + trim(suggestion) + "\n"@ + learning_marker(candidate_id)
}

/// What accepting a memory candidate does to the memory file.
#[derive(Debug)]
pub enum MemoryAppend {
    /// The file already holds the candidate's marker; it stays as it is.
    AlreadyPresent,
    /// The new content of the file.
    Write(String),
}

/// The outcome of accepting a memory candidate over a file holding
/// `existing`: a blank suggestion is refused, a candidate whose marker is
/// present is not written again, otherwise its line is appended.
pub open spec fn memory_append_spec(
    existing: Seq<char>,
    suggestion: Seq<char>,
    candidate_id: Seq<char>,
    date: Seq<char>,
) -> Result<Option<Seq<char>>, Seq<char>> {
    if trim(suggestion).len() == 0 {
        Err("Cannot save empty fact to memory"@)
    } else if contains(existing, learning_marker(candidate_id)) {
        Ok(None)
    } else {
        Ok(Some(appended_memory(existing, suggestion, candidate_id, date)))
    }
}

pub open spec fn memory_append_view(r: Result<MemoryAppend, AppError>) -> Result<
    Option<Seq<char>>,
    Seq<char>,
> {
    match r {
        Ok(MemoryAppend::AlreadyPresent) => Ok(None),
        Ok(MemoryAppend::Write(s)) => Ok(Some(s@)),
        Err(e) => Err(e.message()),
    }
}

/// Decides how accepting a memory candidate changes the memory file.
pub fn plan_memory_append(existing: &str, suggestion: &str, candidate_id: &str, date: &str) -> (r:
    Result<MemoryAppend, AppError>)
    ensures
        memory_append_view(r) == memory_append_spec(existing@, suggestion@, candidate_id@, date@),
{
    let fact = trim_str(suggestion);
    let fv = chars_of(fact.as_str());
    if fv.len() == 0 {
        return Err(AppError::Other(owned("Cannot save empty fact to memory")));
    }
    let mut marker = owned("<!-- codefactory-learning-event:");
    push_str(&mut marker, candidate_id);
    push_str(&mut marker, " -->");
    let ev = chars_of(existing);
    let mv = chars_of(marker.as_str());
    if contains_chars(ev.as_slice(), mv.as_slice()) {
        return Ok(MemoryAppend::AlreadyPresent);
    }
    let mut combined = owned(existing);
    if ev.len() == 0 {
        push_str(
            &mut combined,
            "# Project memory\n\nAuto-injected into every chat session in this repo.\nUse the Remember button in the chat UI to add new entries.\n\n",
        );
        assert(combined@ =~= memory_header());
    } else {
        push_str(&mut combined, "\n\n");
    }
    push_str(&mut combined, "- (");
    push_str(&mut combined, date);
    push_str(&mut combined, ") ");
    push_str(&mut combined, fact.as_str());
    push_str(&mut combined, "\n");
    push_str(&mut combined, marker.as_str());
    assert(combined@ =~= appended_memory(existing@, suggestion@, candidate_id@, date@));
    Ok(MemoryAppend::Write(combined))
}

/// Accepting the same memory candidate again, on the file its first
/// acceptance wrote, writes nothing: the candidate's line is materialised
/// once.
pub proof fn lemma_memory_append_once(
    existing: Seq<char>,
    suggestion: Seq<char>,
    candidate_id: Seq<char>,
    date: Seq<char>,
    later_date: Seq<char>,
)
    requires
        memory_append_spec(existing, suggestion, candidate_id, date) is Ok,
    ensures
        ({
            let after = match memory_append_spec(existing, suggestion, candidate_id, date) {
                Ok(Some(c)) => c,
                _ => existing,
            };
            memory_append_spec(after, suggestion, candidate_id, later_date) == Ok::<
                Option<Seq<char>>,
                Seq<char>,
            >(None)
        }),
{
    let m = learning_marker(candidate_id);
    if !contains(existing, m) {
        let after = appended_memory(existing, suggestion, candidate_id, date);
        let i = after.len() - m.len();
        assert(after.subrange(i, i + m.len()) =~= m);
        assert(occurs_at(after, m, i));
    }
}


// ── Storing post-mortem candidates ───────────────────────────────────────

/// A candidate as it is stored: kind, and a preference's key and value.
#[derive(Debug)]
pub struct CandidatePlan {
    pub observation: String,
    pub suggestion: String,
    pub kind: String,
    pub pref_key: Option<String>,
    pub pref_value: Option<String>,
}

pub type PlanView = (Seq<char>, Seq<char>, Seq<char>, Option<Seq<char>>, Option<Seq<char>>);

pub open spec fn plan_view(p: CandidatePlan) -> PlanView {
    (p.observation@, p.suggestion@, p.kind@, opt_view(p.pref_key), opt_view(p.pref_value))
}

pub open spec fn plan_views(v: Seq<CandidatePlan>) -> Seq<PlanView> {
    v.map_values(|p: CandidatePlan| plan_view(p))
}

/// How a kept candidate is stored: a preference only with a non-blank key
/// (key and value trimmed, a missing value empty); anything else as a
/// memory.
pub open spec fn stored_plan(e: EntryView) -> PlanView {
    let is_pref = match e.2 {
        Some(k) => k == "preference"@,
        None => false,
    };
    match e.3 {
        Some(k) => if is_pref && trim(k).len() > 0 {
            (
                e.0,
                e.1,
                "preference"@,
                Some(trim(k)),
                Some(
                    trim(
                        match e.4 {
                            Some(v) => v,
                            None => Seq::empty(),
                        },
                    ),
                ),
            )
        } else {
            (e.0, e.1, "memory"@, None, None)
        },
        None => (e.0, e.1, "memory"@, None, None),
    }
}

/// The candidates stored from proposed entries, each sanitised; a
/// suggestion whose normalised form was already seen (earlier in this run
/// or before it) is dropped. Also gives the normalised forms seen after.
pub open spec fn plan_spec(entries: Seq<EntryView>, seen: Seq<Seq<char>>) -> (Seq<PlanView>, Seq<
    Seq<char>,
>)
    decreases entries.len(),
{
    if entries.len() == 0 {
        (Seq::empty(), seen)
    } else {
        match sanitize_spec(entries[0]) {
            None => plan_spec(entries.drop_first(), seen),
            Some(e) => {
                let n = norm_spec(e.1);
                if seen.contains(n) {
                    plan_spec(entries.drop_first(), seen)
                } else {
                    let r = plan_spec(entries.drop_first(), seen.push(n));
                    (seq![stored_plan(e)] + r.0, r.1)
                }
            },
        }
    }
}

pub open spec fn entry_views(v: Seq<PostmortemEntry>) -> Seq<EntryView> {
    v.map_values(|e: PostmortemEntry| entry_view(e))
}

fn plan_of(e: PostmortemEntry) -> (r: CandidatePlan)
    ensures
        plan_view(r) == stored_plan(entry_view(e)),
{
    let is_pref = match &e.kind {
        Some(k) => str_eq(k.as_str(), "preference"),
        None => false,
    };
    match e.pref_key {
        Some(k) => {
            let key = trim_str(k.as_str());
            if is_pref && chars_of(key.as_str()).len() > 0 {
                let value = match e.pref_value {
                    Some(v) => trim_str(v.as_str()),
                    None => {
                        let empty = String::new();
                        trim_str(empty.as_str())
                    },
                };
                CandidatePlan {
                    observation: e.observation,
                    suggestion: e.suggestion,
                    kind: owned("preference"),
                    pref_key: Some(key),
                    pref_value: Some(value),
                }
            } else {
                CandidatePlan {
                    observation: e.observation,
                    suggestion: e.suggestion,
                    kind: owned("memory"),
                    pref_key: None,
                    pref_value: None,
                }
            }
        },
        None => CandidatePlan {
            observation: e.observation,
            suggestion: e.suggestion,
            kind: owned("memory"),
            pref_key: None,
            pref_value: None,
        },
    }
}

/// The candidates a post-mortem stores, given the normalised suggestions
/// already known (extended with the ones stored).
pub fn plan_postmortem_candidates(entries: Vec<PostmortemEntry>, seen: &mut Vec<String>) -> (r: Vec<
    CandidatePlan,
>)
    ensures
        plan_views(r@) == plan_spec(entry_views(entries@), string_views(old(seen)@)).0,
        string_views(final(seen)@) == plan_spec(entry_views(entries@), string_views(old(seen)@)).1,
{
    let ghost all = entry_views(entries@);
    let ghost seen0 = string_views(seen@);
    let mut rest = entries;
    let mut out: Vec<CandidatePlan> = Vec::new();
    proof {
        assert(plan_views(out@) + plan_spec(entry_views(rest@), string_views(seen@)).0 =~= plan_spec(
            all,
            seen0,
        ).0);
    }
    while rest.len() > 0
        invariant
            plan_views(out@) + plan_spec(entry_views(rest@), string_views(seen@)).0 == plan_spec(
                all,
                seen0,
            ).0,
            plan_spec(entry_views(rest@), string_views(seen@)).1 == plan_spec(all, seen0).1,
        decreases rest@.len(),
    {
        let ghost r0 = rest@;
        let ghost s0 = string_views(seen@);
        let ghost o0 = plan_views(out@);
        let e = rest.remove(0);
        proof {
            assert(entry_views(r0).drop_first() =~= entry_views(rest@));
            assert(entry_views(r0)[0] == entry_view(e));
        }
        match sanitize_postmortem_entry(e) {
            None => {},
            Some(clean) => {
                let n = norm_suggestion(clean.suggestion.as_str());
                let known = crate::order::contains_string(seen, n.as_str());
                if !known {
                    let ghost cv = entry_view(clean);
                    seen.push(n);
                    let p = plan_of(clean);
                    out.push(p);
                    proof {
                        assert(string_views(seen@) =~= s0.push(norm_spec(cv.1)));
                        assert(plan_views(out@) =~= o0.push(stored_plan(cv)));
                        assert(plan_views(out@) + plan_spec(entry_views(rest@), string_views(seen@)).0
                            =~= o0 + plan_spec(entry_views(r0), s0).0);
                    }
                }
            },
        }
    }
    proof {
        assert(plan_views(out@) + Seq::<PlanView>::empty() =~= plan_views(out@));
    }
    out
}

/// Where a post-mortem of a session may store candidates: the session's
/// own project; nowhere for an anonymous session.
pub fn postmortem_scope(
    session_id: &str,
    session: Option<(String, String)>,
    requested_cwd: &str,
) -> (r: Result<Option<String>, AppError>)
    ensures
        match session {
            None => (r matches Err(e) && e.message() == "session "@ + session_id@
                + " not found for post-mortem"@),
            Some((cwd, kind)) => if kind@ == "anonymous"@ {
                r matches Ok(None)
            } else if cwd@ != requested_cwd@ {
                (r matches Err(e) && e.message() == "post-mortem scope mismatch for session "@
                    + session_id@)
            } else {
                (r matches Ok(Some(c)) && c@ == cwd@)
            },
        },
{
    match session {
        None => {
            let mut m = owned("session ");
            push_str(&mut m, session_id);
            push_str(&mut m, " not found for post-mortem");
            Err(AppError::Other(m))
        },
        Some((cwd, kind)) => {
            if str_eq(kind.as_str(), "anonymous") {
                Ok(None)
            } else if !str_eq(cwd.as_str(), requested_cwd) {
                let mut m = owned("post-mortem scope mismatch for session ");
                push_str(&mut m, session_id);
                Err(AppError::Other(m))
            } else {
                Ok(Some(cwd))
            }
        },
    }
}


/// A post-mortem never stores the same suggestion twice: the normalised
/// suggestions of the stored candidates differ from each other and from
/// every one seen before.
pub proof fn lemma_plan_distinct(entries: Seq<EntryView>, seen: Seq<Seq<char>>)
    ensures
        forall|a: int, b: int|
            0 <= a < b < plan_spec(entries, seen).0.len() ==> norm_spec(
                plan_spec(entries, seen).0[a].1,
            ) != norm_spec(plan_spec(entries, seen).0[b].1),
        forall|a: int|
            0 <= a < plan_spec(entries, seen).0.len() ==> !seen.contains(
                norm_spec(#[trigger] plan_spec(entries, seen).0[a].1),
            ),
    decreases entries.len(),
{
    if entries.len() > 0 {
        match sanitize_spec(entries[0]) {
            None => {
                lemma_plan_distinct(entries.drop_first(), seen);
                assert(plan_spec(entries, seen) == plan_spec(entries.drop_first(), seen));
            },
            Some(e) => {
                let n = norm_spec(e.1);
                if seen.contains(n) {
                    lemma_plan_distinct(entries.drop_first(), seen);
                    assert(plan_spec(entries, seen) == plan_spec(entries.drop_first(), seen));
                } else {
                    let s2 = seen.push(n);
                    lemma_plan_distinct(entries.drop_first(), s2);
                    let r = plan_spec(entries.drop_first(), s2).0;
                    let all = plan_spec(entries, seen).0;
                    assert(all == seq![stored_plan(e)] + r);
                    assert(stored_plan(e).1 == e.1);
                    assert forall|a: int| 0 <= a < r.len() implies norm_spec(r[a].1) != n
                        && !seen.contains(norm_spec(r[a].1)) by {
                        assert(!s2.contains(norm_spec(r[a].1)));
                        if norm_spec(r[a].1) == n {
                            assert(s2[s2.len() - 1] == n);
                        }
                        if seen.contains(norm_spec(r[a].1)) {
                            let k = choose|k: int| 0 <= k < seen.len() && seen[k] == norm_spec(r[a].1);
                            assert(s2[k] == seen[k]);
                        }
                    }
                    assert forall|a: int, b: int| 0 <= a < b < all.len() implies norm_spec(all[a].1)
                        != norm_spec(all[b].1) by {
                        if a == 0 {
                            assert(all[b] == r[b - 1]);
                        } else {
                            assert(all[a] == r[a - 1] && all[b] == r[b - 1]);
                        }
                    }
                    assert forall|a: int| 0 <= a < all.len() implies !seen.contains(
                        norm_spec(#[trigger] all[a].1),
                    ) by {
                        if a > 0 {
                            assert(all[a] == r[a - 1]);
                        }
                    }
                }
            },
        }
    }
}

} // verus!
