//! Per-turn model routing: which endpoints a chat turn may use, in which
//! order, and which credential each one needs.
use vstd::prelude::*;
use crate::errors::AppError;
use crate::order::{lemma_sorted_unique, lex_sorted, sort_strings, string_views};
use crate::settings::{
    endpoint_model_for, endpoint_offers, endpoint_supports_vision, lookup, model_for, names_of,
    offers, opt_view, vision_for, ApiStyle, EndpointView, Settings,
};
use crate::text::{
    ascii_lower, ascii_lower_chars, chars_of, concat, contains, contains_chars, join, str_eq,
    string_of, views,
};

verus! {

broadcast use vstd::string::group_string_axioms;

/// The endpoint name under which the ChatGPT login is configured.
pub const CHATGPT_ENDPOINT_KEY: &'static str = "chatgpt";

pub open spec fn auth_expired_spec(endpoint_name: Seq<char>, message: Seq<char>) -> bool {
    let lower = ascii_lower(message);
    contains(lower, "auth_expired"@) || (endpoint_name == CHATGPT_ENDPOINT_KEY@ && (contains(
        lower,
        "http 401"@,
    ) || contains(lower, "401 unauthorized"@) || contains(lower, "invalid_grant"@) || contains(
        lower,
        "refresh_token"@,
    )))
}

/// A ChatGPT login expiry is read from the ChatGPT route only, unless the
/// failure carries the structured `auth_expired` code: on any other
/// endpoint the answer is exactly whether that code occurs (ignoring ASCII
/// case); the code is recognised on every route; whatever is recognised on
/// another route is recognised on the ChatGPT route too; and there an HTTP
/// 401 counts as an expiry.
pub proof fn lemma_auth_expiry_is_chatgpt_only(endpoint_name: Seq<char>, message: Seq<char>)
    ensures
        endpoint_name != "chatgpt"@ ==> (auth_expired_spec(endpoint_name, message) == contains(
            ascii_lower(message),
            "auth_expired"@,
        )),
        contains(ascii_lower(message), "auth_expired"@) ==> auth_expired_spec(endpoint_name, message),
        auth_expired_spec(endpoint_name, message) ==> auth_expired_spec("chatgpt"@, message),
        contains(ascii_lower(message), "http 401"@) ==> auth_expired_spec("chatgpt"@, message),
{
    assert(CHATGPT_ENDPOINT_KEY@ == "chatgpt"@);
}

fn contains_lit(hay: &Vec<char>, needle: &str) -> (r: bool)
    ensures
        r == contains(hay@, needle@),
{
    let n = chars_of(needle);
    contains_chars(hay.as_slice(), n.as_slice())
}

/// A failure means the ChatGPT login expired: a structured `AUTH_EXPIRED`
/// code from any route, or an authorization failure from the ChatGPT route.
pub fn is_chatgpt_auth_expired(endpoint_name: &str, message: &str) -> (r: bool)
    ensures
        r == auth_expired_spec(endpoint_name@, message@),
{
    let lower = ascii_lower_chars(chars_of(message).as_slice());
    contains_lit(&lower, "auth_expired") || (str_eq(endpoint_name, CHATGPT_ENDPOINT_KEY) && (
    contains_lit(&lower, "http 401") || contains_lit(&lower, "401 unauthorized") || contains_lit(
        &lower,
        "invalid_grant",
    ) || contains_lit(&lower, "refresh_token")))
}

/// Every style but the ChatGPT login authenticates with an API key.
pub fn endpoint_requires_api_key(api_style: &ApiStyle) -> (r: bool)
    ensures
        r == (*api_style != ApiStyle::Chatgpt),
{
    !matches!(api_style, ApiStyle::Chatgpt)
}

/// The policy pins the turn to one endpoint.
pub open spec fn fixed_policy(policy: Seq<char>) -> bool {
    policy == "fixed"@ || policy.len() == 0
}

/// Names of the endpoints that offer `model`, in storage order.
pub open spec fn matching(entries: Seq<(Seq<char>, EndpointView)>, model: Seq<char>) -> Seq<
    Seq<char>,
>
    decreases entries.len(),
{
    if entries.len() == 0 {
        Seq::empty()
    } else {
        let rest = matching(entries.drop_last(), model);
        if offers(entries.last().1, model) {
            rest.push(entries.last().0)
        } else {
            rest
        }
    }
}

/// The endpoint a session turn runs on: the session's endpoint when it is
/// still configured, else the only endpoint offering the model, else the
/// default endpoint when it is among several offering it.
pub open spec fn session_endpoint(
    entries: Seq<(Seq<char>, EndpointView)>,
    default_endpoint: Seq<char>,
    endpoint_id: Option<Seq<char>>,
    model: Seq<char>,
) -> Option<Seq<char>> {
    if endpoint_id is Some && lookup(entries, endpoint_id->0) is Some {
        endpoint_id
    } else {
        let m = matching(entries, model);
        if m.len() == 1 {
            Some(m[0])
        } else if m.contains(default_endpoint) {
            Some(default_endpoint)
        } else {
            None
        }
    }
}

pub open spec fn unresolved_route_message(model: Seq<char>) -> Seq<char> {
    "MODEL_ROUTE_UNRESOLVED: 无法确定模型 '"@ + model + "' 属于哪个端点，请在本会话模型菜单中重新选择"@
}

proof fn lemma_matching_in(entries: Seq<(Seq<char>, EndpointView)>, model: Seq<char>, x: Seq<char>)
    requires
        matching(entries, model).contains(x),
    ensures
        exists|i: int| 0 <= i < entries.len() && entries[i].0 == x,
    decreases entries.len(),
{
    let rest = matching(entries.drop_last(), model);
    if rest.contains(x) {
        lemma_matching_in(entries.drop_last(), model, x);
        let i = choose|i: int| 0 <= i < entries.drop_last().len() && entries.drop_last()[i].0 == x;
        assert(entries[i].0 == x);
    } else {
        assert(entries[entries.len() - 1].0 == x);
    }
}

/// The settings one session turn runs with.
pub fn settings_for_session_route(
    settings: &Settings,
    endpoint_id: Option<&str>,
    model_id: &str,
    policy: &str,
) -> (r: Result<Settings, AppError>)
    ensures
        ({
            let chosen = session_endpoint(
                settings.endpoints@,
                settings.default_endpoint@,
                match endpoint_id {
                    Some(e) => Some(e@),
                    None => None,
                },
                model_id@,
            );
            match r {
                Ok(turn) => chosen is Some && turn.default_endpoint@ == chosen->0
                    && turn.default_model@ == settings.default_model@ && lookup(
                    settings.endpoints@,
                    chosen->0,
                ) is Some && (if fixed_policy(policy@) {
                    turn.endpoints@ == seq![(chosen->0, lookup(settings.endpoints@, chosen->0)->0)]
                } else {
                    turn.endpoints@ == settings.endpoints@
                }),
                Err(e) => chosen is None && e.message() == unresolved_route_message(model_id@),
            }
        }),
{
    let ghost entries = settings.endpoints@;
    let mut turn = settings.copy();
    let by_id = match endpoint_id {
        Some(id) => settings.endpoints.contains_key(id),
        None => false,
    };
    let endpoint: String = if by_id {
        endpoint_id.unwrap().to_owned()
    } else {
        let mut found: Vec<String> = Vec::new();
        let mut i: usize = 0;
        while i < settings.endpoints.len()
            invariant
                entries == settings.endpoints@,
                i <= entries.len(),
                views(found@) == matching(entries.take(i as int), model_id@),
            decreases entries.len() - i,
        {
            let (name, ep) = settings.endpoints.entry(i);
            let ghost prev = found@;
            if endpoint_offers(ep, model_id) {
                found.push(name.clone());
            }
            proof {
                assert(entries.take(i + 1).drop_last() =~= entries.take(i as int));
                assert(entries.take(i + 1).last() == entries[i as int]);
                assert(views(found@) =~= matching(entries.take(i + 1), model_id@));
            }
            i = i + 1;
        }
        proof {
            assert(entries.take(entries.len() as int) =~= entries);
        }
        if found.len() == 1 {
            found[0].clone()
        } else {
            let mut has_default = false;
            let mut j: usize = 0;
            while j < found.len()
                invariant
                    j <= found@.len(),
                    has_default == exists|k: int|
                        0 <= k < j && found@[k]@ == settings.default_endpoint@,
                decreases found@.len() - j,
            {
                if str_eq(found[j].as_str(), settings.default_endpoint.as_str()) {
                    has_default = true;
                }
                j = j + 1;
            }
            proof {
                let m = matching(entries, model_id@);
                if has_default {
                    let k = choose|k: int|
                        0 <= k < found@.len() && found@[k]@ == settings.default_endpoint@;
                    assert(m[k] == found@[k]@);
                } else {
                    if m.contains(settings.default_endpoint@) {
                        let k = choose|k: int|
                            0 <= k < m.len() && m[k] == settings.default_endpoint@;
                        assert(found@[k]@ == m[k]);
                    }
                }
            }
            if has_default {
                settings.default_endpoint.clone()
            } else {
                let msg = concat(
                    concat("MODEL_ROUTE_UNRESOLVED: 无法确定模型 '", model_id).as_str(),
                    "' 属于哪个端点，请在本会话模型菜单中重新选择",
                );
                return Err(AppError::Other(msg));
            }
        }
    };
    proof {
        if !by_id {
            let m = matching(entries, model_id@);
            assert(m.contains(endpoint@)) by {
                if m.len() == 1 {
                    assert(m[0] == endpoint@);
                }
            }
            lemma_matching_in(entries, model_id@, endpoint@);
        }
    }
    turn.default_endpoint = endpoint;
    if str_eq(policy, "fixed") || policy.is_empty() {
        turn.endpoints.retain_only(turn.default_endpoint.as_str());
    }
    Ok(turn)
}

/// One endpoint a turn may be routed to.
#[derive(Debug)]
pub struct RouteCandidate {
    pub endpoint_name: String,
    pub model_id: String,
    pub base_url: String,
    pub credential_ref: Option<String>,
    pub legacy_inline_api_key: Option<String>,
    pub api_style: ApiStyle,
    pub supports_vision: bool,
}

/// The mathematical content of a route.
pub struct RouteView {
    pub endpoint_name: Seq<char>,
    pub model_id: Seq<char>,
    pub base_url: Seq<char>,
    pub credential_ref: Option<Seq<char>>,
    pub legacy_inline_api_key: Option<Seq<char>>,
    pub api_style: ApiStyle,
    pub supports_vision: bool,
}

impl View for RouteCandidate {
    type V = RouteView;

    open spec fn view(&self) -> RouteView {
        RouteView {
            endpoint_name: self.endpoint_name@,
            model_id: self.model_id@,
            base_url: self.base_url@,
            credential_ref: opt_view(self.credential_ref),
            legacy_inline_api_key: opt_view(self.legacy_inline_api_key),
            api_style: self.api_style,
            supports_vision: self.supports_vision,
        }
    }
}

pub open spec fn route_views(s: Seq<RouteCandidate>) -> Seq<RouteView> {
    s.map_values(|c: RouteCandidate| c@)
}

/// The credential an endpoint's route names: its key reference, or the
/// default keychain entry for the endpoint. ChatGPT routes need none.
pub open spec fn credential_for(name: Seq<char>, ep: EndpointView) -> Option<Seq<char>> {
    if ep.api_style != ApiStyle::Chatgpt {
        match ep.key_ref {
            Some(k) => Some(k),
            None => Some("codefactory.endpoint."@ + name),
        }
    } else {
        None
    }
}

/// The route through endpoint `name` for `requested`, if it serves a model.
pub open spec fn route_for(name: Seq<char>, ep: EndpointView, requested: Seq<char>) -> Option<
    RouteView,
> {
    match model_for(ep, requested) {
        Some(m) => Some(
            RouteView {
                endpoint_name: name,
                model_id: m,
                base_url: ep.base_url,
                credential_ref: credential_for(name, ep),
                legacy_inline_api_key: None,
                api_style: ep.api_style,
                supports_vision: vision_for(ep, m),
            },
        ),
        None => None,
    }
}

/// Routes through the named endpoints, in order.
pub open spec fn routes_over(
    entries: Seq<(Seq<char>, EndpointView)>,
    names: Seq<Seq<char>>,
    requested: Seq<char>,
) -> Seq<RouteView>
    decreases names.len(),
{
    if names.len() == 0 {
        Seq::empty()
    } else {
        let rest = routes_over(entries, names.drop_last(), requested);
        match lookup(entries, names.last()) {
            Some(ep) => match route_for(names.last(), ep, requested) {
                Some(r) => rest.push(r),
                None => rest,
            },
            None => rest,
        }
    }
}

/// Diagnostics for the named endpoints that serve no model, in order.
pub open spec fn excluded_over(
    entries: Seq<(Seq<char>, EndpointView)>,
    names: Seq<Seq<char>>,
    requested: Seq<char>,
) -> Seq<Seq<char>>
    decreases names.len(),
{
    if names.len() == 0 {
        Seq::empty()
    } else {
        let rest = excluded_over(entries, names.drop_last(), requested);
        match lookup(entries, names.last()) {
            Some(ep) => match route_for(names.last(), ep, requested) {
                Some(r) => rest,
                None => rest.push(names.last() + "：没有可用模型"@),
            },
            None => rest,
        }
    }
}

/// The endpoint names in ascending order.
pub open spec fn sorted_names(entries: Seq<(Seq<char>, EndpointView)>) -> Seq<Seq<char>> {
    choose|ns: Seq<Seq<char>>|
        lex_sorted(ns) && ns.to_multiset() == names_of(entries).to_multiset()
}

/// The order in which a turn tries endpoints: the preferred endpoint
/// first, the others by name.
pub open spec fn route_order(entries: Seq<(Seq<char>, EndpointView)>, preferred: Seq<char>) -> Seq<
    Seq<char>,
> {
    let s = sorted_names(entries);
    if s.contains(preferred) {
        seq![preferred] + s.remove(s.index_of(preferred))
    } else {
        s
    }
}

/// The routes a turn may use and why other endpoints were left out.
#[derive(Debug)]
pub struct RouteCandidateResolution {
    pub candidates: Vec<RouteCandidate>,
    pub excluded: Vec<String>,
}

/// Endpoint names in routing order.
fn ordered_endpoint_names(settings: &Settings) -> (r: Vec<String>)
    ensures
        views(r@) == route_order(settings.endpoints@, settings.default_endpoint@),
{
    broadcast use vstd::seq_lib::group_to_multiset_ensures;

    proof {
        use_type_invariant(&settings.endpoints);
    }
    let ghost entries = settings.endpoints@;
    let keys = settings.endpoints.keys();
    let sorted = sort_strings(keys);
    let ghost s = string_views(sorted@);
    proof {
        assert(string_views(keys@) == names_of(entries)) by {
            assert(string_views(keys@) =~= keys@.map_values(|x: String| x@));
        }
        let c = sorted_names(entries);
        assert(lex_sorted(c) && c.to_multiset() == names_of(entries).to_multiset());
        lemma_sorted_unique(s, c);
        names_of(entries).lemma_multiset_has_no_duplicates();
        s.lemma_multiset_has_no_duplicates_conv();
    }
    let mut pos: Option<usize> = None;
    let mut i: usize = 0;
    while i < sorted.len()
        invariant
            i <= sorted@.len(),
            s == string_views(sorted@),
            pos is Some ==> pos->0 < i && s[pos->0 as int] == settings.default_endpoint@,
            pos is None ==> forall|k: int| 0 <= k < i ==> s[k] != settings.default_endpoint@,
        decreases sorted@.len() - i,
    {
        if pos.is_none() && str_eq(sorted[i].as_str(), settings.default_endpoint.as_str()) {
            pos = Some(i);
        }
        i = i + 1;
    }
    match pos {
        None => {
            proof {
                assert(!s.contains(settings.default_endpoint@));
                assert(views(sorted@) =~= s);
            }
            sorted
        },
        Some(p) => {
            let mut out: Vec<String> = Vec::new();
            out.push(sorted[p].clone());
            let mut j: usize = 0;
            while j < sorted.len()
                invariant
                    j <= sorted@.len(),
                    p < sorted@.len(),
                    s == string_views(sorted@),
                    views(out@) == seq![s[p as int]] + (if j <= p {
                        s.take(j as int)
                    } else {
                        s.take(p as int) + s.subrange(p + 1, j as int)
                    }),
                decreases sorted@.len() - j,
            {
                let ghost prev = views(out@);
                if j != p {
                    out.push(sorted[j].clone());
                }
                proof {
                    let after = views(out@);
                    let jj = j + 1;
                    let want = seq![s[p as int]] + (if jj <= p {
                        s.take(jj as int)
                    } else {
                        s.take(p as int) + s.subrange(p + 1, jj as int)
                    });
                    if j != p {
                        assert(after == prev.push(s[j as int]));
                    } else {
                        assert(after == prev);
                    }
                    assert(after =~= want);
                }
                j = j + 1;
            }
            proof {
                assert(s.take(p as int) + s.subrange(p + 1, s.len() as int) =~= s.remove(p as int));
                assert(s.contains(settings.default_endpoint@));
                let q = s.index_of(settings.default_endpoint@);
                assert(s[q] == s[p as int]);
                assert(views(out@) =~= route_order(settings.endpoints@, settings.default_endpoint@));
            }
            out
        },
    }
}

/// Resolve the routes of one turn without touching any credential: the
/// preferred endpoint first, then the others by name; endpoints that serve
/// no model are listed as excluded.
pub fn resolve_route_candidates(settings: &Settings, requested_model: &str) -> (r:
    RouteCandidateResolution)
    ensures
        route_views(r.candidates@) == routes_over(
            settings.endpoints@,
            route_order(settings.endpoints@, settings.default_endpoint@),
            requested_model@,
        ),
        views(r.excluded@) == excluded_over(
            settings.endpoints@,
            route_order(settings.endpoints@, settings.default_endpoint@),
            requested_model@,
        ),
{
    let names = ordered_endpoint_names(settings);
    let ghost ns = views(names@);
    let ghost entries = settings.endpoints@;
    let mut candidates: Vec<RouteCandidate> = Vec::new();
    let mut excluded: Vec<String> = Vec::new();
    let mut i: usize = 0;
    while i < names.len()
        invariant
            i <= names@.len(),
            ns == views(names@),
            entries == settings.endpoints@,
            route_views(candidates@) == routes_over(entries, ns.take(i as int), requested_model@),
            views(excluded@) == excluded_over(entries, ns.take(i as int), requested_model@),
        decreases names@.len() - i,
    {
        let name = &names[i];
        let ghost before_c = route_views(candidates@);
        let ghost before_e = views(excluded@);
        proof {
            assert(ns.take(i + 1).drop_last() =~= ns.take(i as int));
            assert(ns.take(i + 1).last() == name@);
        }
        match settings.endpoints.get(name.as_str()) {
            None => {},
            Some(endpoint) => {
                match endpoint_model_for(endpoint, requested_model) {
                    None => {
                        excluded.push(concat(name.as_str(), "：没有可用模型"));
                        proof {
                            assert(views(excluded@) =~= before_e.push(name@ + "：没有可用模型"@));
                        }
                    },
                    Some(model_id) => {
                        let credential_ref = if endpoint_requires_api_key(&endpoint.api_style) {
                            match &endpoint.key_ref {
                                Some(k) => Some(k.clone()),
                                None => Some(concat("codefactory.endpoint.", name.as_str())),
                            }
                        } else {
                            None
                        };
                        let supports_vision = endpoint_supports_vision(endpoint, model_id.as_str());
                        let candidate = RouteCandidate {
                            endpoint_name: name.clone(),
                            model_id,
                            base_url: endpoint.base_url.clone(),
                            credential_ref,
                            legacy_inline_api_key: None,
                            api_style: endpoint.api_style,
                            supports_vision,
                        };
                        let ghost cv = candidate@;
                        candidates.push(candidate);
                        proof {
                            assert(route_for(name@, endpoint@, requested_model@) == Some(cv));
                            assert(route_views(candidates@) =~= before_c.push(cv));
                        }
                    },
                }
            },
        }
        i = i + 1;
    }
    proof {
        assert(ns.take(ns.len() as int) =~= ns);
    }
    RouteCandidateResolution { candidates, excluded }
}

/// The ordered routes a turn will try; an automatic plan may skip routes
/// that were recently unavailable.
#[derive(Debug)]
pub struct RouteCandidatePlan {
    candidates: Vec<RouteCandidate>,
    automatic: bool,
}

impl RouteCandidatePlan {
    pub closed spec fn routes(&self) -> Seq<RouteView> {
        route_views(self.candidates@)
    }

    pub closed spec fn is_automatic(&self) -> bool {
        self.automatic
    }

    /// A plan that retries the selected primary.
    pub fn new(primary: RouteCandidate) -> (p: RouteCandidatePlan)
        ensures
            p.routes() == seq![primary@],
            !p.is_automatic(),
    {
        let ghost v = primary@;
        let mut candidates = Vec::new();
        candidates.push(primary);
        let p = RouteCandidatePlan { candidates, automatic: false };
        assert(p.routes() =~= seq![v]);
        p
    }

    /// A plan that may fail over on recent health.
    pub fn new_automatic(primary: RouteCandidate) -> (p: RouteCandidatePlan)
        ensures
            p.routes() == seq![primary@],
            p.is_automatic(),
    {
        let ghost v = primary@;
        let mut candidates = Vec::new();
        candidates.push(primary);
        let p = RouteCandidatePlan { candidates, automatic: true };
        assert(p.routes() =~= seq![v]);
        p
    }

    pub fn push_fallback(&mut self, fallback: RouteCandidate)
        ensures
            final(self).routes() == old(self).routes().push(fallback@),
            final(self).is_automatic() == old(self).is_automatic(),
    {
        let ghost before = self.routes();
        let ghost v = fallback@;
        self.candidates.push(fallback);
        assert(self.routes() =~= before.push(v));
    }

    pub fn candidates(&self) -> (r: &Vec<RouteCandidate>)
        ensures
            route_views(r@) == self.routes(),
    {
        &self.candidates
    }

    pub fn automatic(&self) -> (b: bool)
        ensures
            b == self.is_automatic(),
    {
        self.automatic
    }
}

/// The routes that accept image input, in order.
pub open spec fn vision_only(routes: Seq<RouteView>) -> Seq<RouteView>
    decreases routes.len(),
{
    if routes.len() == 0 {
        Seq::empty()
    } else {
        let rest = vision_only(routes.drop_last());
        if routes.last().supports_vision {
            rest.push(routes.last())
        } else {
            rest
        }
    }
}

/// The routes a plan is built from.
pub open spec fn planned_routes(
    settings_entries: Seq<(Seq<char>, EndpointView)>,
    preferred: Seq<char>,
    requested: Seq<char>,
    policy: Seq<char>,
    requires_vision: bool,
) -> Seq<RouteView> {
    let all = routes_over(settings_entries, route_order(settings_entries, preferred), requested);
    if requires_vision && policy != "fixed"@ {
        vision_only(all)
    } else {
        all
    }
}

pub open spec fn image_unsupported_message() -> Seq<char> {
    "IMAGE_INPUT_UNSUPPORTED: 当前没有可用的图片模型；图片已保留。请选择支持图片的模型，系统将自动续接当前目标"@
}

pub open spec fn no_route_message(excluded: Seq<Seq<char>>) -> Seq<char> {
    let detail = if excluded.len() == 0 {
        "没有配置任何模型端点"@
    } else {
        join(excluded, "；"@)
    };
    "所有可用模型端点均不可用："@ + detail + "。请在模型设置中完成登录或凭据配置；能力恢复后系统将自动续接当前目标。"@
}

/// Plan a turn's routes without reading any credential. Image turns keep
/// only vision-capable routes unless the route is fixed; an `auto` policy
/// yields an automatic plan.
pub fn resolve_route_plan(
    settings: &Settings,
    requested_model: &str,
    policy: &str,
    requires_vision: bool,
) -> (r: Result<(RouteCandidatePlan, Vec<String>), AppError>)
    ensures
        ({
            let entries = settings.endpoints@;
            let order = route_order(entries, settings.default_endpoint@);
            let excluded = excluded_over(entries, order, requested_model@);
            let all = routes_over(entries, order, requested_model@);
            let planned = planned_routes(
                entries,
                settings.default_endpoint@,
                requested_model@,
                policy@,
                requires_vision,
            );
            match r {
                Ok((plan, ex)) => planned.len() > 0 && plan.routes() == planned
                    && plan.is_automatic() == (policy@ == "auto"@) && views(ex@) == excluded,
                Err(e) => planned.len() == 0 && (if requires_vision && policy@ != "fixed"@ {
                    e.message() == image_unsupported_message()
                } else {
                    e.message() == no_route_message(excluded)
                }),
            }
        }),
{
    let resolution = resolve_route_candidates(settings, requested_model);
    let RouteCandidateResolution { candidates, excluded } = resolution;
    let ghost all = route_views(candidates@);
    let filter = requires_vision && !str_eq(policy, "fixed");
    let mut routes: Vec<RouteCandidate> = Vec::new();
    if filter {
        let mut rest = candidates;
        let mut kept: Vec<RouteCandidate> = Vec::new();
        while rest.len() > 0
            invariant
                route_views(kept@) + vision_only(route_views(rest@)) == vision_only(all),
            decreases rest@.len(),
        {
            let ghost before = route_views(rest@);
            let ghost before_kept = route_views(kept@);
            let c = rest.remove(0);
            proof {
                assert(before[0] == c@);
                assert(route_views(rest@) =~= before.drop_first());
                lemma_vision_only_cons(before);
            }
            if c.supports_vision {
                kept.push(c);
                proof {
                    assert(route_views(kept@) =~= before_kept.push(before[0]));
                    assert(before_kept + (seq![before[0]] + vision_only(before.drop_first()))
                        =~= before_kept.push(before[0]) + vision_only(before.drop_first()));
                }
            }
        }
        proof {
            assert(vision_only(route_views(rest@)) =~= Seq::<RouteView>::empty());
            assert(route_views(kept@) =~= vision_only(all));
        }
        if kept.len() == 0 {
            return Err(
                AppError::Other(
                    "IMAGE_INPUT_UNSUPPORTED: 当前没有可用的图片模型；图片已保留。请选择支持图片的模型，系统将自动续接当前目标".to_owned(),
                ),
            );
        }
        routes = kept;
    } else {
        routes = candidates;
    }
    let ghost planned = route_views(routes@);
    if routes.len() == 0 {
        let detail = if excluded.len() == 0 {
            "没有配置任何模型端点".to_owned()
        } else {
            crate::text::join_strings(&excluded, "；")
        };
        let msg = concat(
            concat("所有可用模型端点均不可用：", detail.as_str()).as_str(),
            "。请在模型设置中完成登录或凭据配置；能力恢复后系统将自动续接当前目标。",
        );
        return Err(AppError::Other(msg));
    }
    let ghost full = route_views(routes@);
    let primary = routes.remove(0);
    proof {
        assert(full[0] == primary@);
        assert(route_views(routes@) =~= full.drop_first());
    }
    let mut plan = if str_eq(policy, "auto") {
        RouteCandidatePlan::new_automatic(primary)
    } else {
        RouteCandidatePlan::new(primary)
    };
    while routes.len() > 0
        invariant
            plan.routes() + route_views(routes@) == full,
            plan.is_automatic() == (policy@ == "auto"@),
        decreases routes@.len(),
    {
        let ghost before = route_views(routes@);
        let ghost before_plan = plan.routes();
        let c = routes.remove(0);
        proof {
            assert(before[0] == c@);
            assert(route_views(routes@) =~= before.drop_first());
        }
        plan.push_fallback(c);
        proof {
            assert(plan.routes() + route_views(routes@) =~= before_plan + before);
        }
    }
    proof {
        assert(plan.routes() + route_views(routes@) =~= plan.routes());
    }
    Ok((plan, excluded))
}

proof fn lemma_vision_only_cons(s: Seq<RouteView>)
    requires
        s.len() > 0,
    ensures
        vision_only(s) == if s[0].supports_vision {
            seq![s[0]] + vision_only(s.drop_first())
        } else {
            vision_only(s.drop_first())
        },
    decreases s.len(),
{
    if s.len() == 1 {
        assert(s.drop_first() =~= Seq::<RouteView>::empty());
        assert(s.drop_last() =~= Seq::<RouteView>::empty());
        assert(seq![s[0]] + Seq::<RouteView>::empty() =~= seq![s[0]]);
    } else {
        lemma_vision_only_cons(s.drop_last());
        assert(s.drop_last().drop_first() =~= s.drop_first().drop_last());
        assert(s.drop_first().last() == s.last());
        if s[0].supports_vision {
            assert((seq![s[0]] + vision_only(s.drop_first().drop_last())).push(s.last()) =~= seq![
                s[0],
            ] + vision_only(s.drop_first().drop_last()).push(s.last()));
        }
    }
}

} // verus!
