//! Model endpoint settings: the endpoints a user configured, which models
//! each offers, and the default route.
use vstd::prelude::*;
use crate::text::str_eq;

verus! {

broadcast use vstd::string::group_string_axioms;

/// The wire protocol an endpoint speaks.
#[derive(Debug, Clone, Copy, PartialEq, Eq, Structural)]
pub enum ApiStyle {
    Openai,
    Anthropic,
    Chatgpt,
}

/// A model the user added to an endpoint by hand.
#[derive(Debug)]
pub struct CustomModel {
    pub id: String,
    pub supports_vision: bool,
}

/// One configured model endpoint.
#[derive(Debug)]
pub struct Endpoint {
    pub base_url: String,
    pub key_ref: Option<String>,
    pub api_style: ApiStyle,
    pub custom_models: Vec<CustomModel>,
    pub active_model: Option<String>,
}

pub open spec fn opt_view(o: Option<String>) -> Option<Seq<char>> {
    match o {
        Some(s) => Some(s@),
        None => None,
    }
}

pub open spec fn models_view(s: Seq<CustomModel>) -> Seq<(Seq<char>, bool)> {
    s.map_values(|m: CustomModel| (m.id@, m.supports_vision))
}

/// The mathematical content of an endpoint.
pub struct EndpointView {
    pub base_url: Seq<char>,
    pub key_ref: Option<Seq<char>>,
    pub api_style: ApiStyle,
    pub custom_models: Seq<(Seq<char>, bool)>,
    pub active_model: Option<Seq<char>>,
}

impl View for Endpoint {
    type V = EndpointView;

    open spec fn view(&self) -> EndpointView {
        EndpointView {
            base_url: self.base_url@,
            key_ref: opt_view(self.key_ref),
            api_style: self.api_style,
            custom_models: models_view(self.custom_models@),
            active_model: opt_view(self.active_model),
        }
    }
}

/// A copy of an optional string.
pub fn copy_opt(o: &Option<String>) -> (r: Option<String>)
    ensures
        opt_view(r) == opt_view(*o),
{
    match o {
        Some(s) => Some(s.clone()),
        None => None,
    }
}

impl Endpoint {
    /// A copy with the same content.
    pub fn copy(&self) -> (r: Endpoint)
        ensures
            r@ == self@,
    {
        let mut models: Vec<CustomModel> = Vec::new();
        let mut i: usize = 0;
        while i < self.custom_models.len()
            invariant
                i <= self.custom_models@.len(),
                models@.len() == i,
                models_view(models@) == models_view(self.custom_models@.take(i as int)),
            decreases self.custom_models@.len() - i,
        {
            let m = &self.custom_models[i];
            let ghost prev = models@;
            models.push(CustomModel { id: m.id.clone(), supports_vision: m.supports_vision });
            proof {
                assert(models@[i as int].id@ == self.custom_models@[i as int].id@);
                let a = models_view(models@);
                let b = models_view(self.custom_models@.take(i + 1));
                assert forall|j: int| 0 <= j < i + 1 implies a[j] == b[j] by {
                    if j < i {
                        assert(models@[j] == prev[j]);
                        assert(models_view(prev)[j] == models_view(
                            self.custom_models@.take(i as int),
                        )[j]);
                    }
                }
                assert(a =~= b);
            }
            i = i + 1;
        }
        assert(self.custom_models@.take(self.custom_models@.len() as int)
            =~= self.custom_models@);
        Endpoint {
            base_url: self.base_url.clone(),
            key_ref: copy_opt(&self.key_ref),
            api_style: self.api_style,
            custom_models: models,
            active_model: copy_opt(&self.active_model),
        }
    }
}

/// The endpoint offers `model`, as its active model or a custom model.
pub open spec fn offers(ep: EndpointView, model: Seq<char>) -> bool {
    (ep.active_model == Some(model)) || exists|i: int|
        0 <= i < ep.custom_models.len() && ep.custom_models[i].0 == model
}

/// The model an endpoint serves for a requested model: the request itself
/// when the endpoint offers it, else the endpoint's active model, else its
/// first custom model.
pub open spec fn model_for(ep: EndpointView, requested: Seq<char>) -> Option<Seq<char>> {
    if offers(ep, requested) {
        Some(requested)
    } else if ep.active_model is Some {
        ep.active_model
    } else if ep.custom_models.len() > 0 {
        Some(ep.custom_models[0].0)
    } else {
        None
    }
}

/// Image input is supported by ChatGPT- and Anthropic-style endpoints, and
/// by custom models the user marked as vision-capable.
pub open spec fn vision_for(ep: EndpointView, model: Seq<char>) -> bool {
    ep.api_style != ApiStyle::Openai || exists|i: int|
        0 <= i < ep.custom_models.len() && ep.custom_models[i].0 == model
            && ep.custom_models[i].1
}

/// Endpoints keyed by name; a name occurs at most once.
#[derive(Debug)]
pub struct EndpointMap {
    entries: Vec<(String, Endpoint)>,
}

pub open spec fn names_of(entries: Seq<(Seq<char>, EndpointView)>) -> Seq<Seq<char>> {
    entries.map_values(|e: (Seq<char>, EndpointView)| e.0)
}

/// The endpoint stored under `name`, if any.
pub open spec fn lookup(entries: Seq<(Seq<char>, EndpointView)>, name: Seq<char>) -> Option<
    EndpointView,
> {
    if exists|i: int| 0 <= i < entries.len() && entries[i].0 == name {
        Some(entries[choose|i: int| 0 <= i < entries.len() && entries[i].0 == name].1)
    } else {
        None
    }
}

impl View for EndpointMap {
    type V = Seq<(Seq<char>, EndpointView)>;

    closed spec fn view(&self) -> Seq<(Seq<char>, EndpointView)> {
        self.entries@.map_values(|e: (String, Endpoint)| (e.0@, e.1@))
    }
}

impl EndpointMap {
    /// Names never repeat.
    #[verifier::type_invariant]
    pub open spec fn unique(&self) -> bool {
        names_of(self@).no_duplicates()
    }

    pub fn new() -> (m: EndpointMap)
        ensures
            m@ == Seq::<(Seq<char>, EndpointView)>::empty(),
    {
        let m = EndpointMap { entries: Vec::new() };
        assert(m@ =~= Seq::<(Seq<char>, EndpointView)>::empty());
        m
    }

    pub fn len(&self) -> (n: usize)
        ensures
            n == self@.len(),
    {
        self.entries.len()
    }

    /// The `i`-th stored entry.
    pub fn entry(&self, i: usize) -> (r: (&String, &Endpoint))
        requires
            i < self@.len(),
        ensures
            (r.0@, r.1@) == self@[i as int],
    {
        let e = &self.entries[i];
        (&e.0, &e.1)
    }

    /// Position of `name`, if present.
    fn position(&self, name: &str) -> (r: Option<usize>)
        ensures
            r is Some ==> r->0 < self@.len() && self@[r->0 as int].0 == name@,
            r is None ==> forall|i: int| 0 <= i < self@.len() ==> self@[i].0 != name@,
    {
        let mut i: usize = 0;
        while i < self.entries.len()
            invariant
                i <= self@.len(),
                self@.len() == self.entries@.len(),
                forall|j: int| 0 <= j < i ==> self@[j].0 != name@,
            decreases self@.len() - i,
        {
            if str_eq(self.entries[i].0.as_str(), name) {
                return Some(i);
            }
            i = i + 1;
        }
        None
    }

    pub fn contains_key(&self, name: &str) -> (b: bool)
        ensures
            b == (lookup(self@, name@) is Some),
    {
        match self.position(name) {
            Some(_) => true,
            None => false,
        }
    }

    /// The endpoint under `name`.
    pub fn get(&self, name: &str) -> (r: Option<&Endpoint>)
        ensures
            r is Some == (lookup(self@, name@) is Some),
            r is Some ==> r->0@ == lookup(self@, name@)->0,
    {
        proof {
            use_type_invariant(self);
        }
        match self.position(name) {
            Some(i) => {
                proof {
                    let k = choose|k: int| 0 <= k < self@.len() && self@[k].0 == name@;
                    assert(names_of(self@)[k] == names_of(self@)[i as int]);
                }
                Some(&self.entries[i].1)
            },
            None => None,
        }
    }

    /// Stores `endpoint` under `name`, replacing an earlier one.
    pub fn insert(&mut self, name: String, endpoint: Endpoint)
        ensures
            lookup(final(self)@, name@) == Some(endpoint@),
            forall|n: Seq<char>| n != name@ ==> lookup(final(self)@, n) == lookup(old(self)@, n),
            names_of(final(self)@).to_set() == names_of(old(self)@).to_set().insert(name@),
    {
        proof {
            use_type_invariant(&*self);
        }
        let pos = self.position(name.as_str());
        let ghost before = self@;
        match pos {
            Some(i) => {
                let mut entries: Vec<(String, Endpoint)> = Vec::new();
                std::mem::swap(&mut entries, &mut self.entries);
                entries.set(i, (name, endpoint));
                proof {
                    let after = entries@.map_values(|e: (String, Endpoint)| (e.0@, e.1@));
                    assert(after =~= before.update(i as int, (before[i as int].0, endpoint@)));
                    assert(names_of(after) =~= names_of(before));
                }
                self.entries = entries;
            },
            None => {
                let mut entries: Vec<(String, Endpoint)> = Vec::new();
                std::mem::swap(&mut entries, &mut self.entries);
                entries.push((name, endpoint));
                proof {
                    let after = entries@.map_values(|e: (String, Endpoint)| (e.0@, e.1@));
                    assert(after =~= before.push((name@, endpoint@)));
                    assert(names_of(after) =~= names_of(before).push(name@));
                }
                self.entries = entries;
            },
        }
        proof {
            let after = self@;
            assert forall|n: Seq<char>| n != name@ implies lookup(after, n) == lookup(before, n) by {
                if exists|k: int| 0 <= k < before.len() && before[k].0 == n {
                    let k = choose|k: int| 0 <= k < before.len() && before[k].0 == n;
                    assert(after[k].0 == n);
                    let k2 = choose|k2: int| 0 <= k2 < after.len() && after[k2].0 == n;
                    assert(names_of(after)[k2] == names_of(after)[k]);
                }
                if exists|k: int| 0 <= k < after.len() && after[k].0 == n {
                    let k = choose|k: int| 0 <= k < after.len() && after[k].0 == n;
                    assert(k < before.len());
                    assert(before[k].0 == n);
                    let k2 = choose|k2: int| 0 <= k2 < before.len() && before[k2].0 == n;
                    assert(names_of(before)[k2] == names_of(before)[k]);
                }
            }
            let k = choose|k: int| 0 <= k < after.len() && after[k].0 == name@;
            match pos {
                Some(i) => {
                    assert(after[i as int].0 == name@);
                    assert(names_of(after)[k] == names_of(after)[i as int]);
                },
                None => {
                    assert(after[before.len() as int].0 == name@);
                    assert(names_of(after)[k] == names_of(after)[before.len() as int]);
                },
            }
            assert forall|x: Seq<char>|
                names_of(after).to_set().contains(x) == names_of(before).to_set().insert(
                    name@,
                ).contains(x) by {
                if names_of(after).contains(x) {
                    let j = choose|j: int| 0 <= j < names_of(after).len() && names_of(after)[j] == x;
                    if x != name@ {
                        assert(j < before.len());
                        assert(names_of(before)[j] == x);
                    }
                }
                if x != name@ && names_of(before).contains(x) {
                    let j = choose|j: int|
                        0 <= j < names_of(before).len() && names_of(before)[j] == x;
                    assert(names_of(after)[j] == x);
                }
                if x == name@ {
                    match pos {
                        Some(i) => {
                            assert(names_of(after)[i as int] == x);
                        },
                        None => {
                            assert(names_of(after)[before.len() as int] == x);
                        },
                    }
                }
            }
            assert(names_of(after).to_set() =~= names_of(before).to_set().insert(name@));
        }
    }

    /// Removes every endpoint.
    pub fn clear(&mut self)
        ensures
            final(self)@ == Seq::<(Seq<char>, EndpointView)>::empty(),
    {
        let mut entries: Vec<(String, Endpoint)> = Vec::new();
                std::mem::swap(&mut entries, &mut self.entries);
        entries.clear();
        self.entries = entries;
        assert(self@ =~= Seq::<(Seq<char>, EndpointView)>::empty());
    }

    /// The endpoint names, in storage order.
    pub fn keys(&self) -> (r: Vec<String>)
        ensures
            r@.map_values(|s: String| s@) == names_of(self@),
    {
        let mut r: Vec<String> = Vec::new();
        let mut i: usize = 0;
        while i < self.entries.len()
            invariant
                i <= self.entries@.len(),
                self@.len() == self.entries@.len(),
                r@.len() == i,
                r@.map_values(|s: String| s@) == names_of(self@).take(i as int),
            decreases self.entries@.len() - i,
        {
            let ghost prev = r@;
            r.push(self.entries[i].0.clone());
            proof {
                assert(r@[i as int]@ == self.entries@[i as int].0@);
                assert(r@.take(i as int) =~= prev);
                assert(self@[i as int].0 == self.entries@[i as int].0@);
            }
            i = i + 1;
            assert(r@.map_values(|s: String| s@) =~= names_of(self@).take(i as int));
        }
        assert(names_of(self@).take(self@.len() as int) =~= names_of(self@));
        r
    }

    /// Keeps only the endpoint under `name` (if any).
    pub fn retain_only(&mut self, name: &str)
        ensures
            lookup(old(self)@, name@) is Some ==> final(self)@ == seq![
                (name@, lookup(old(self)@, name@)->0),
            ],
            lookup(old(self)@, name@) is None ==> final(self)@ == Seq::<
                (Seq<char>, EndpointView),
            >::empty(),
    {
        proof {
            use_type_invariant(&*self);
        }
        let ghost before = self@;
        match self.position(name) {
            Some(i) => {
                let mut entries: Vec<(String, Endpoint)> = Vec::new();
                std::mem::swap(&mut entries, &mut self.entries);
                let kept = entries.swap_remove(i);
                proof {
                    let k = choose|k: int| 0 <= k < before.len() && before[k].0 == name@;
                    assert(names_of(before)[k] == names_of(before)[i as int]);
                }
                let mut single: Vec<(String, Endpoint)> = Vec::new();
                single.push(kept);
                self.entries = single;
                assert(self@ =~= seq![(name@, lookup(before, name@)->0)]);
            },
            None => {
                let mut entries: Vec<(String, Endpoint)> = Vec::new();
                std::mem::swap(&mut entries, &mut self.entries);
                entries.clear();
                self.entries = entries;
                assert(self@ =~= Seq::<(Seq<char>, EndpointView)>::empty());
            },
        }
    }

    /// A copy with the same content.
    pub fn copy(&self) -> (r: EndpointMap)
        ensures
            r@ == self@,
    {
        proof {
            use_type_invariant(self);
        }
        let mut entries: Vec<(String, Endpoint)> = Vec::new();
        let mut i: usize = 0;
        while i < self.entries.len()
            invariant
                i <= self.entries@.len(),
                self@.len() == self.entries@.len(),
                entries@.len() == i,
                entries@.map_values(|e: (String, Endpoint)| (e.0@, e.1@)) == self@.take(i as int),
            decreases self.entries@.len() - i,
        {
            let e = &self.entries[i];
            let ghost prev = entries@;
            entries.push((e.0.clone(), e.1.copy()));
            proof {
                assert(entries@[i as int].0@ == self.entries@[i as int].0@);
                assert(entries@[i as int].1@ == self.entries@[i as int].1@);
                assert(entries@.take(i as int) =~= prev);
                assert(self@[i as int] == (self.entries@[i as int].0@, self.entries@[i as int].1@));
            }
            i = i + 1;
            assert(entries@.map_values(|e: (String, Endpoint)| (e.0@, e.1@)) =~= self@.take(
                i as int,
            ));
        }
        assert(self@.take(self@.len() as int) =~= self@);
        EndpointMap { entries }
    }
}

/// Model routing settings.
#[derive(Debug)]
pub struct Settings {
    pub default_endpoint: String,
    pub default_model: String,
    pub endpoints: EndpointMap,
}

impl Settings {
    /// Settings with no endpoints and no default route.
    pub fn new() -> (s: Settings)
        ensures
            s.default_endpoint@ == Seq::<char>::empty(),
            s.default_model@ == Seq::<char>::empty(),
            s.endpoints@ == Seq::<(Seq<char>, EndpointView)>::empty(),
    {
        Settings {
            default_endpoint: String::new(),
            default_model: String::new(),
            endpoints: EndpointMap::new(),
        }
    }

    /// A copy with the same content.
    pub fn copy(&self) -> (r: Settings)
        ensures
            r.default_endpoint@ == self.default_endpoint@,
            r.default_model@ == self.default_model@,
            r.endpoints@ == self.endpoints@,
    {
        Settings {
            default_endpoint: self.default_endpoint.clone(),
            default_model: self.default_model.clone(),
            endpoints: self.endpoints.copy(),
        }
    }

    /// The model `endpoint_name` serves for `requested_model`
    /// (`None` when the endpoint is unknown or offers no model).
    pub fn resolve_model_for_endpoint(&self, endpoint_name: &str, requested_model: &str) -> (r:
        Option<String>)
        ensures
            opt_view(r) == match lookup(self.endpoints@, endpoint_name@) {
                Some(ep) => model_for(ep, requested_model@),
                None => None,
            },
    {
        match self.endpoints.get(endpoint_name) {
            None => None,
            Some(ep) => endpoint_model_for(ep, requested_model),
        }
    }
}

impl Default for Settings {
    fn default() -> (s: Settings)
        ensures
            s.default_endpoint@ == Seq::<char>::empty(),
            s.default_model@ == Seq::<char>::empty(),
            s.endpoints@ == Seq::<(Seq<char>, EndpointView)>::empty(),
    {
        Settings::new()
    }
}

/// Whether the endpoint offers `model`.
pub fn endpoint_offers(ep: &Endpoint, model: &str) -> (b: bool)
    ensures
        b == offers(ep@, model@),
{
    if let Some(active) = &ep.active_model {
        if str_eq(active.as_str(), model) {
            return true;
        }
    }
    let mut i: usize = 0;
    while i < ep.custom_models.len()
        invariant
            i <= ep.custom_models@.len(),
            ep@.custom_models.len() == ep.custom_models@.len(),
            ep.active_model is Some ==> ep.active_model->0@ != model@,
            forall|j: int| 0 <= j < i ==> ep@.custom_models[j].0 != model@,
        decreases ep.custom_models@.len() - i,
    {
        if str_eq(ep.custom_models[i].id.as_str(), model) {
            assert(ep@.custom_models[i as int].0 == model@);
            return true;
        }
        i = i + 1;
    }
    false
}

/// The model the endpoint serves for `requested`.
pub fn endpoint_model_for(ep: &Endpoint, requested: &str) -> (r: Option<String>)
    ensures
        opt_view(r) == model_for(ep@, requested@),
{
    if endpoint_offers(ep, requested) {
        Some(requested.to_owned())
    } else if let Some(active) = &ep.active_model {
        Some(active.clone())
    } else if ep.custom_models.len() > 0 {
        Some(ep.custom_models[0].id.clone())
    } else {
        None
    }
}

/// Whether `model` on this endpoint accepts image input.
pub fn endpoint_supports_vision(ep: &Endpoint, model: &str) -> (b: bool)
    ensures
        b == vision_for(ep@, model@),
{
    if ep.api_style != ApiStyle::Openai {
        return true;
    }
    let mut i: usize = 0;
    while i < ep.custom_models.len()
        invariant
            i <= ep.custom_models@.len(),
            ep@.custom_models.len() == ep.custom_models@.len(),
            ep.api_style == ApiStyle::Openai,
            forall|j: int|
                0 <= j < i ==> !(ep@.custom_models[j].0 == model@ && ep@.custom_models[j].1),
        decreases ep.custom_models@.len() - i,
    {
        if ep.custom_models[i].supports_vision && str_eq(ep.custom_models[i].id.as_str(), model) {
            assert(ep@.custom_models[i as int].0 == model@);
            return true;
        }
        i = i + 1;
    }
    false
}

/// Whether `model_id` on endpoint `endpoint_name` accepts image input.
pub fn model_supports_vision(settings: &Settings, endpoint_name: &str, model_id: &str) -> (b: bool)
    ensures
        b == match lookup(settings.endpoints@, endpoint_name@) {
            Some(ep) => vision_for(ep, model_id@),
            None => false,
        },
{
    match settings.endpoints.get(endpoint_name) {
        Some(ep) => endpoint_supports_vision(ep, model_id),
        None => false,
    }
}

} // verus!
