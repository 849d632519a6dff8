//! JSON values as the library reads and builds them: request bodies,
//! command output and the evidence behind mined insights.
//!
//! An object is its entries in order; keys are looked up by their first
//! occurrence. Numbers that are not integers are kept as their text.
use vstd::prelude::*;
use crate::text::{owned, str_eq};

verus! {

broadcast use vstd::string::group_string_axioms;

/// A JSON value.
#[derive(Debug)]
pub enum Json {
    Null,
    Bool(bool),
    /// An integer in the range of `i64`.
    Int(i64),
    /// A non-negative integer above `i64::MAX`.
    UInt(u64),
    /// Any other number, by its decimal text.
    Decimal(String),
    Str(String),
    Array(Vec<Json>),
    Object(Vec<(String, Json)>),
}

/// What a flat object's entry holds, as the contracts speak of it.
pub enum Scalar {
    Text(Seq<char>),
    Number(int),
    Other,
}

pub open spec fn scalar_of(j: Json) -> Scalar {
    match j {
        Json::Str(s) => Scalar::Text(s@),
        Json::Int(n) => Scalar::Number(n as int),
        Json::UInt(n) => Scalar::Number(n as int),
        _ => Scalar::Other,
    }
}

/// The entries of an object with their scalar contents (empty for a value
/// that is not an object).
pub open spec fn flat_view(j: Json) -> Seq<(Seq<char>, Scalar)> {
    match j {
        Json::Object(f) => f@.map_values(|e: (String, Json)| (e.0@, scalar_of(e.1))),
        _ => Seq::empty(),
    }
}

/// The value of the first entry named `key`.
pub open spec fn field(f: Seq<(String, Json)>, key: Seq<char>) -> Option<Json>
    decreases f.len(),
{
    if f.len() == 0 {
        None
    } else if f[0].0@ == key {
        Some(f[0].1)
    } else {
        field(f.drop_first(), key)
    }
}

/// `value.get(key)`: the entry of an object, `None` for anything else.
pub open spec fn json_get(j: Json, key: Seq<char>) -> Option<Json> {
    match j {
        Json::Object(f) => field(f@, key),
        _ => None,
    }
}

/// `value.as_i64()`.
pub open spec fn json_as_i64(j: Json) -> Option<i64> {
    match j {
        Json::Int(n) => Some(n),
        Json::UInt(n) => if n <= i64::MAX {
            Some(n as i64)
        } else {
            None
        },
        _ => None,
    }
}

/// `value.as_u64()`.
pub open spec fn json_as_u64(j: Json) -> Option<u64> {
    match j {
        Json::Int(n) => if n >= 0 {
            Some(n as u64)
        } else {
            None
        },
        Json::UInt(n) => Some(n),
        _ => None,
    }
}

/// `value.as_bool()`.
pub open spec fn json_as_bool(j: Json) -> Option<bool> {
    match j {
        Json::Bool(b) => Some(b),
        _ => None,
    }
}

/// `value.as_str()`.
pub open spec fn json_as_str(j: Json) -> Option<Seq<char>> {
    match j {
        Json::Str(s) => Some(s@),
        _ => None,
    }
}

/// Index of the first entry named `key`, if any.
fn position(f: &Vec<(String, Json)>, key: &str) -> (r: Option<usize>)
    ensures
        match r {
            Some(k) => k < f@.len() && f@[k as int].0@ == key@ && forall|i: int|
                0 <= i < k ==> f@[i].0@ != key@,
            None => forall|i: int| 0 <= i < f@.len() ==> f@[i].0@ != key@,
        },
{
    let mut i: usize = 0;
    while i < f.len()
        invariant
            i <= f@.len(),
            forall|k: int| 0 <= k < i ==> f@[k].0@ != key@,
        decreases f@.len() - i,
    {
        if str_eq(f[i].0.as_str(), key) {
            return Some(i);
        }
        i = i + 1;
    }
    None
}

proof fn lemma_field_at(f: Seq<(String, Json)>, key: Seq<char>, k: int)
    requires
        0 <= k <= f.len(),
        forall|i: int| 0 <= i < k ==> f[i].0@ != key,
    ensures
        field(f, key) == field(f.skip(k), key),
    decreases k,
{
    if k > 0 {
        assert(f.skip(1) =~= f.drop_first());
        lemma_field_at(f.drop_first(), key, k - 1);
        assert(f.drop_first().skip(k - 1) =~= f.skip(k));
    } else {
        assert(f.skip(0) =~= f);
    }
}

proof fn lemma_field_none(f: Seq<(String, Json)>, key: Seq<char>)
    requires
        forall|i: int| 0 <= i < f.len() ==> f[i].0@ != key,
    ensures
        field(f, key) is None,
{
    lemma_field_at(f, key, f.len() as int);
    assert(f.skip(f.len() as int) =~= Seq::<(String, Json)>::empty());
}

impl Json {
    /// The entry named `key` of an object.
    pub fn get(&self, key: &str) -> (r: Option<&Json>)
        ensures
            match r {
                Some(v) => json_get(*self, key@) == Some(*v),
                None => json_get(*self, key@) is None,
            },
    {
        match self {
            Json::Object(f) => match position(f, key) {
                Some(k) => {
                    proof {
                        lemma_field_at(f@, key@, k as int);
                        assert(f@.skip(k as int)[0] == f@[k as int]);
                    }
                    Some(&f[k].1)
                },
                None => {
                    proof {
                        lemma_field_none(f@, key@);
                    }
                    None
                },
            },
            _ => None,
        }
    }

    /// The value of the entry named `key`, taken out of an object.
    pub fn into_entry(self, key: &str) -> (r: Option<Json>)
        ensures
            r == json_get(self, key@),
    {
        match self {
            Json::Object(f) => {
                let mut f = f;
                match position(&f, key) {
                    Some(k) => {
                        proof {
                            lemma_field_at(f@, key@, k as int);
                            assert(f@.skip(k as int)[0] == f@[k as int]);
                        }
                        let (_name, v) = f.remove(k);
                        Some(v)
                    },
                    None => {
                        proof {
                            lemma_field_none(f@, key@);
                        }
                        None
                    },
                }
            },
            _ => None,
        }
    }

    /// The text of a string value.
    pub fn as_str(&self) -> (r: Option<&str>)
        ensures
            match r {
                Some(s) => json_as_str(*self) == Some(s@),
                None => json_as_str(*self) is None,
            },
    {
        match self {
            Json::Str(s) => Some(s.as_str()),
            _ => None,
        }
    }

    /// An integer value that fits `i64`.
    pub fn as_i64(&self) -> (r: Option<i64>)
        ensures
            r == json_as_i64(*self),
    {
        match self {
            Json::Int(n) => Some(*n),
            Json::UInt(n) => if *n <= 9223372036854775807u64 {
                Some(*n as i64)
            } else {
                None
            },
            _ => None,
        }
    }

    /// A non-negative integer value.
    pub fn as_u64(&self) -> (r: Option<u64>)
        ensures
            r == json_as_u64(*self),
    {
        match self {
            Json::Int(n) => if *n >= 0 {
                Some(*n as u64)
            } else {
                None
            },
            Json::UInt(n) => Some(*n),
            _ => None,
        }
    }

    /// A boolean value.
    pub fn as_bool(&self) -> (r: Option<bool>)
        ensures
            r == json_as_bool(*self),
    {
        match self {
            Json::Bool(b) => Some(*b),
            _ => None,
        }
    }

    /// `value[key] = v`: the first entry named `key` gets `v`, or a new
    /// entry is appended; `null` becomes an object holding only that entry.
    pub fn set(&mut self, key: &str, v: Json)
        requires
            *old(self) is Object || *old(self) is Null,
        ensures
            match *final(self) {
                Json::Object(g) => set_result(entries_of(*old(self)), key@, v, g@),
                _ => false,
            },
    {
        let mut cur = Json::Null;
        std::mem::swap(&mut cur, self);
        let mut f: Vec<(String, Json)> = match cur {
            Json::Object(f) => f,
            _ => Vec::new(),
        };
        let ghost f0 = f@;
        match position(&f, key) {
            Some(k) => {
                let name = f[k].0.clone();
                f.set(k, (name, v));
                proof {
                    lemma_position_spec(f0, key@, k as int);
                }
            },
            None => {
                f.push((owned(key), v));
                proof {
                    lemma_position_spec_none(f0, key@);
                    assert(f@.drop_last() =~= f0);
                }
            },
        }
        *self = Json::Object(f);
    }
}

/// The entries of an object (none for any other value).
pub open spec fn entries_of(j: Json) -> Seq<(String, Json)> {
    match j {
        Json::Object(f) => f@,
        _ => Seq::empty(),
    }
}

/// `g` is `f` with the first entry named `key` given the value `v`, or with
/// an entry `key: v` appended when there is none.
pub open spec fn set_result(
    f: Seq<(String, Json)>,
    key: Seq<char>,
    v: Json,
    g: Seq<(String, Json)>,
) -> bool {
    match position_spec(f, key) {
        Some(k) => g == f.update(k, (f[k].0, v)),
        None => g.len() == f.len() + 1 && g.drop_last() == f && g.last().0@ == key && g.last().1
            == v,
    }
}

/// Index of the first entry named `key`.
pub open spec fn position_spec(f: Seq<(String, Json)>, key: Seq<char>) -> Option<int> {
    if exists|k: int| 0 <= k < f.len() && f[k].0@ == key {
        Some(
            choose|k: int|
                0 <= k < f.len() && f[k].0@ == key && forall|i: int| 0 <= i < k ==> f[i].0@ != key,
        )
    } else {
        None
    }
}

proof fn lemma_position_spec(f: Seq<(String, Json)>, key: Seq<char>, k: int)
    requires
        0 <= k < f.len(),
        f[k].0@ == key,
        forall|i: int| 0 <= i < k ==> f[i].0@ != key,
    ensures
        position_spec(f, key) == Some(k),
{
    let c = choose|c: int|
        0 <= c < f.len() && f[c].0@ == key && forall|i: int| 0 <= i < c ==> f[i].0@ != key;
    assert(0 <= c < f.len() && f[c].0@ == key && forall|i: int| 0 <= i < c ==> f[i].0@ != key);
    if c < k {
        assert(f[c].0@ != key);
    }
    if k < c {
        assert(f[k].0@ != key);
    }
}

proof fn lemma_position_spec_none(f: Seq<(String, Json)>, key: Seq<char>)
    requires
        forall|i: int| 0 <= i < f.len() ==> f[i].0@ != key,
    ensures
        position_spec(f, key) is None,
{
}

/// A string value.
pub fn text(s: &str) -> (j: Json)
    ensures
        json_as_str(j) == Some(s@),
{
    Json::Str(owned(s))
}

} // verus!
