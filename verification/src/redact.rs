//! Secret redaction for text that is persisted or sent to a model.
//!
//! Text is read as whitespace-separated words. The word after `Bearer` holds
//! a credential. Inside a word, each `key=value` or `key:value` pair whose
//! key names a secret keeps its key and loses its value: a quoted value up to
//! its closing quote, any other value up to the next `"`, `,` or `}`; a
//! secret key that ends its word has its value in the next word. So in
//! `{"token":"x","safe":"y"}` only `x` is replaced. Everything else,
//! whitespace included, is kept; the result is then bounded to a number of
//! characters.
use vstd::prelude::*;
use crate::json::Json;
use crate::text::{
    ascii_lower, ascii_lower_chars, chars_of, contains, is_ws, is_ws_char, lemma_word_len_at,
    lemma_word_len_bounds, slice_chars, word_len,
};

verus! {

broadcast use vstd::string::group_string_axioms;

/// What replaces a credential.
pub open spec fn redacted_marker() -> Seq<char> {
    "<redacted>"@
}

/// Key names whose values are secrets.
pub open spec fn secret_markers() -> Seq<Seq<char>> {
    seq!["token"@, "password"@, "secret"@, "api_key"@, "apikey"@, "authorization"@]
}

pub open spec fn is_sep(c: char) -> bool {
    c == '=' || c == ':'
}

/// Index of the first `=` or `:` of a word (its length when there is none).
pub open spec fn first_sep(w: Seq<char>) -> int
    decreases w.len(),
{
    if w.len() == 0 {
        0
    } else if is_sep(w[0]) {
        0
    } else {
        1 + first_sep(w.drop_first())
    }
}

/// Whether a key (the text before a separator) names a secret.
pub open spec fn names_secret_key(key: Seq<char>) -> bool {
    exists|m: int| 0 <= m < secret_markers().len() && contains(ascii_lower(key), secret_markers()[m])
}

pub open spec fn is_value_end(c: char) -> bool {
    c == '"' || c == ',' || c == '}'
}

/// Index of the first `"` (the length when there is none).
pub open spec fn first_quote(w: Seq<char>) -> int
    decreases w.len(),
{
    if w.len() == 0 {
        0
    } else if w[0] == '"' {
        0
    } else {
        1 + first_quote(w.drop_first())
    }
}

/// Index of the first `"`, `,` or `}` (the length when there is none).
pub open spec fn first_value_end(w: Seq<char>) -> int
    decreases w.len(),
{
    if w.len() == 0 {
        0
    } else if is_value_end(w[0]) {
        0
    } else {
        1 + first_value_end(w.drop_first())
    }
}

pub proof fn lemma_first_sep_bounds(w: Seq<char>)
    ensures
        0 <= first_sep(w) <= w.len(),
    decreases w.len(),
{
    if w.len() > 0 {
        lemma_first_sep_bounds(w.drop_first());
    }
}

pub proof fn lemma_first_quote_bounds(w: Seq<char>)
    ensures
        0 <= first_quote(w) <= w.len(),
    decreases w.len(),
{
    if w.len() > 0 {
        lemma_first_quote_bounds(w.drop_first());
    }
}

pub proof fn lemma_first_value_end_bounds(w: Seq<char>)
    ensures
        0 <= first_value_end(w) <= w.len(),
    decreases w.len(),
{
    if w.len() > 0 {
        lemma_first_value_end_bounds(w.drop_first());
    }
}

/// A word with the value of each secret-naming pair replaced. A secret
/// key that ends the word leaves its value to the next word.
pub open spec fn redact_pairs(w: Seq<char>) -> Seq<char>
    decreases w.len(),
{
    let p = first_sep(w);
    proof {
        lemma_first_sep_bounds(w);
    }
    if p >= w.len() {
        w
    } else if names_secret_key(w.take(p)) {
        let v = w.skip(p + 1);
        if v.len() == 0 {
            w
        } else if v[0] == '"' {
            let body = v.drop_first();
            let q = first_quote(body);
            proof {
                lemma_first_quote_bounds(body);
            }
            w.take(p + 1) + seq!['"'] + redacted_marker() + redact_pairs(body.skip(q))
        } else {
            let e = first_value_end(v);
            proof {
                lemma_first_value_end_bounds(v);
            }
            w.take(p + 1) + redacted_marker() + redact_pairs(v.skip(e))
        }
    } else {
        w.take(p + 1) + redact_pairs(w.skip(p + 1))
    }
}

/// Whether a word ends with a secret key whose value is still to come.
pub open spec fn pending_after(w: Seq<char>) -> bool
    decreases w.len(),
{
    let p = first_sep(w);
    proof {
        lemma_first_sep_bounds(w);
    }
    if p >= w.len() {
        false
    } else if names_secret_key(w.take(p)) {
        let v = w.skip(p + 1);
        if v.len() == 0 {
            true
        } else if v[0] == '"' {
            let body = v.drop_first();
            let q = first_quote(body);
            proof {
                lemma_first_quote_bounds(body);
            }
            pending_after(body.skip(q))
        } else {
            let e = first_value_end(v);
            proof {
                lemma_first_value_end_bounds(v);
            }
            pending_after(v.skip(e))
        }
    } else {
        pending_after(w.skip(p + 1))
    }
}

/// A word that starts with a secret value: the value is replaced (a quoted
/// one up to its closing quote, any other up to the next `"`, `,` or `}`),
/// and the rest is read as pairs.
pub open spec fn redact_value(v: Seq<char>) -> Seq<char> {
    if v.len() > 0 && v[0] == '"' {
        let body = v.drop_first();
        let q = first_quote(body);
        seq!['"'] + redacted_marker() + redact_pairs(body.skip(q))
    } else {
        redacted_marker() + redact_pairs(v.skip(first_value_end(v)))
    }
}

pub open spec fn value_pending(v: Seq<char>) -> bool {
    if v.len() > 0 && v[0] == '"' {
        let body = v.drop_first();
        pending_after(body.skip(first_quote(body)))
    } else {
        pending_after(v.skip(first_value_end(v)))
    }
}

pub open spec fn is_bearer(w: Seq<char>) -> bool {
    ascii_lower(w) == "bearer"@
}

/// The redacted form of one word; `pending` when the word holds the value
/// of a secret named just before it (after `Bearer`, or after a secret key
/// that ended the previous word).
pub open spec fn redact_word(w: Seq<char>, pending: bool) -> Seq<char> {
    if pending {
        redact_value(w)
    } else {
        redact_pairs(w)
    }
}

/// Whether the word after `w` holds a secret value.
pub open spec fn word_pending(w: Seq<char>, pending: bool) -> bool {
    is_bearer(w) || if pending {
        value_pending(w)
    } else {
        pending_after(w)
    }
}

/// Redaction of the text `s`, whose first word holds a secret value when
/// `after_bearer` holds.
pub open spec fn redact_rest(s: Seq<char>, after_bearer: bool) -> Seq<char>
    decreases s.len(),
{
    if s.len() == 0 {
        Seq::empty()
    } else if is_ws(s[0]) {
        seq![s[0]] + redact_rest(s.drop_first(), after_bearer)
    } else {
        let n = word_len(s);
        proof {
            lemma_word_len_bounds(s);
        }
        redact_word(s.take(n), after_bearer) + redact_rest(s.skip(n), word_pending(s.take(n), after_bearer))
    }
}

/// At most `max` leading characters.
pub open spec fn truncate(s: Seq<char>, max: nat) -> Seq<char> {
    if s.len() <= max {
        s
    } else {
        s.take(max as int)
    }
}

/// The redacted, bounded form of `s`.
pub open spec fn redact_spec(s: Seq<char>, max: nat) -> Seq<char> {
    truncate(redact_rest(s, false), max)
}

proof fn lemma_first_sep_at(w: Seq<char>, p: int)
    requires
        0 <= p <= w.len(),
        forall|k: int| 0 <= k < p ==> !is_sep(#[trigger] w[k]),
        p == w.len() || is_sep(w[p]),
    ensures
        first_sep(w) == p,
    decreases w.len(),
{
    if p > 0 {
        assert forall|k: int| 0 <= k < p - 1 implies !is_sep(#[trigger] w.drop_first()[k]) by {
            assert(w.drop_first()[k] == w[k + 1]);
        }
        lemma_first_sep_at(w.drop_first(), p - 1);
    }
}

/// Whether a word (already lower-cased) names a secret key.
fn names_secret(key_lower: &Vec<char>) -> (b: bool)
    ensures
        b == exists|m: int|
            0 <= m < secret_markers().len() && contains(key_lower@, secret_markers()[m]),
{
    let markers: Vec<&str> = vec!["token", "password", "secret", "api_key", "apikey", "authorization"];
    proof {
        assert forall|m: int| 0 <= m < markers@.len() implies markers@[m]@ == secret_markers()[m] by {}
    }
    let found = crate::objective::contains_any(key_lower.as_slice(), &markers);
    proof {
        if found {
            let m = choose|m: int| 0 <= m < markers@.len() && contains(key_lower@, markers@[m]@);
            assert(markers@[m]@ == secret_markers()[m]);
        } else {
            assert forall|m: int| 0 <= m < secret_markers().len() implies !contains(
                key_lower@,
                #[trigger] secret_markers()[m],
            ) by {
                assert(markers@[m]@ == secret_markers()[m]);
            }
        }
    }
    found
}

proof fn lemma_first_quote_at(w: Seq<char>, p: int)
    requires
        0 <= p <= w.len(),
        forall|k: int| 0 <= k < p ==> #[trigger] w[k] != '"',
        p == w.len() || w[p] == '"',
    ensures
        first_quote(w) == p,
    decreases w.len(),
{
    if p > 0 {
        assert forall|k: int| 0 <= k < p - 1 implies #[trigger] w.drop_first()[k] != '"' by {
            assert(w.drop_first()[k] == w[k + 1]);
        }
        lemma_first_quote_at(w.drop_first(), p - 1);
    }
}

proof fn lemma_first_value_end_at(w: Seq<char>, p: int)
    requires
        0 <= p <= w.len(),
        forall|k: int| 0 <= k < p ==> !is_value_end(#[trigger] w[k]),
        p == w.len() || is_value_end(w[p]),
    ensures
        first_value_end(w) == p,
    decreases w.len(),
{
    if p > 0 {
        assert forall|k: int| 0 <= k < p - 1 implies !is_value_end(#[trigger] w.drop_first()[k]) by {
            assert(w.drop_first()[k] == w[k + 1]);
        }
        lemma_first_value_end_at(w.drop_first(), p - 1);
    }
}

fn push_all(out: &mut Vec<char>, s: &Vec<char>)
    ensures
        final(out)@ == old(out)@ + s@,
{
    let mut i: usize = 0;
    while i < s.len()
        invariant
            i <= s@.len(),
            out@ == old(out)@ + s@.take(i as int),
        decreases s@.len() - i,
    {
        out.push(s[i]);
        i = i + 1;
        assert(out@ =~= old(out)@ + s@.take(i as int));
    }
    assert(s@.take(s@.len() as int) =~= s@);
}

fn marker_chars() -> (v: Vec<char>)
    ensures
        v@ == redacted_marker(),
{
    chars_of("<redacted>")
}

/// Index of the first `"` at or after `from`.
fn quote_from(w: &Vec<char>, from: usize) -> (q: usize)
    requires
        from <= w@.len(),
    ensures
        from <= q <= w@.len(),
        first_quote(w@.skip(from as int)) == q - from,
{
    let mut q = from;
    while q < w.len() && w[q] != '"'
        invariant
            from <= q <= w@.len(),
            forall|k: int| from <= k < q ==> #[trigger] w@[k] != '"',
        decreases w@.len() - q,
    {
        q = q + 1;
    }
    proof {
        let t = w@.skip(from as int);
        assert forall|k: int| 0 <= k < q - from implies #[trigger] t[k] != '"' by {
            assert(t[k] == w@[from + k]);
        }
        if q < w@.len() {
            assert(t[q - from] == w@[q as int]);
        }
        lemma_first_quote_at(t, (q - from) as int);
    }
    q
}

/// Index of the first `"`, `,` or `}` at or after `from`.
fn value_end_from(w: &Vec<char>, from: usize) -> (e: usize)
    requires
        from <= w@.len(),
    ensures
        from <= e <= w@.len(),
        first_value_end(w@.skip(from as int)) == e - from,
{
    let mut e = from;
    while e < w.len() && !(w[e] == '"' || w[e] == ',' || w[e] == '}')
        invariant
            from <= e <= w@.len(),
            forall|k: int| from <= k < e ==> !is_value_end(#[trigger] w@[k]),
        decreases w@.len() - e,
    {
        e = e + 1;
    }
    proof {
        let t = w@.skip(from as int);
        assert forall|k: int| 0 <= k < e - from implies !is_value_end(#[trigger] t[k]) by {
            assert(t[k] == w@[from + k]);
        }
        if e < w@.len() {
            assert(t[e - from] == w@[e as int]);
        }
        lemma_first_value_end_at(t, (e - from) as int);
    }
    e
}

/// Index of the first `=` or `:` at or after `from`.
fn sep_from(w: &Vec<char>, from: usize) -> (p: usize)
    requires
        from <= w@.len(),
    ensures
        from <= p <= w@.len(),
        first_sep(w@.skip(from as int)) == p - from,
{
    let mut p = from;
    while p < w.len() && !(w[p] == '=' || w[p] == ':')
        invariant
            from <= p <= w@.len(),
            forall|k: int| from <= k < p ==> !is_sep(#[trigger] w@[k]),
        decreases w@.len() - p,
    {
        p = p + 1;
    }
    proof {
        let t = w@.skip(from as int);
        assert forall|k: int| 0 <= k < p - from implies !is_sep(#[trigger] t[k]) by {
            assert(t[k] == w@[from + k]);
        }
        if p < w@.len() {
            assert(t[p - from] == w@[p as int]);
        }
        lemma_first_sep_at(t, (p - from) as int);
    }
    p
}

/// The redacted form of one word, and whether the next word holds a secret
/// value.
fn redact_word_exec(w: &Vec<char>, pending: bool) -> (r: (Vec<char>, bool))
    ensures
        r.0@ == redact_word(w@, pending),
        r.1 == word_pending(w@, pending),
{
    let n = w.len();
    let ghost target = redact_word(w@, pending);
    let ghost target_pending = if pending {
        value_pending(w@)
    } else {
        pending_after(w@)
    };
    let mut out: Vec<char> = Vec::new();
    let mut i: usize = 0;
    let mut value_mode = pending;
    let mut pend = false;
    proof {
        assert(w@.skip(0) =~= w@);
    }
    while i < n || value_mode
        invariant
            n == w@.len(),
            i <= n,
            pend ==> i == n && !value_mode,
            value_mode ==> out@ + redact_value(w@.skip(i as int)) == target && value_pending(
                w@.skip(i as int),
            ) == target_pending,
            !value_mode ==> out@ + redact_pairs(w@.skip(i as int)) == target,
            !value_mode && !pend ==> pending_after(w@.skip(i as int)) == target_pending,
            pend ==> target_pending,
        decreases 2 * (n - i) + if value_mode {
            1int
        } else {
            0int
        },
    {
        let ghost rest = w@.skip(i as int);
        let ghost before = out@;
        if value_mode {
            if i < n && w[i] == '"' {
                out.push('"');
                let m = marker_chars();
                push_all(&mut out, &m);
                let q = quote_from(w, i + 1);
                proof {
                    assert(rest[0] == w@[i as int]);
                    assert(rest.drop_first() =~= w@.skip(i + 1));
                    assert(w@.skip(i + 1).skip((q - i - 1) as int) =~= w@.skip(q as int));
                    assert(out@ + redact_pairs(w@.skip(q as int)) =~= before + redact_value(rest));
                }
                i = q;
            } else {
                let m = marker_chars();
                push_all(&mut out, &m);
                let e = value_end_from(w, i);
                proof {
                    if i < n {
                        assert(rest[0] == w@[i as int]);
                    }
                    assert(rest.skip((e - i) as int) =~= w@.skip(e as int));
                    assert(out@ + redact_pairs(w@.skip(e as int)) =~= before + redact_value(rest));
                }
                i = e;
            }
            value_mode = false;
        } else {
            let p = sep_from(w, i);
            if p == n {
                let tail = slice_chars(w, i, n);
                push_all(&mut out, &tail);
                proof {
                    assert(tail@ =~= rest);
                    assert(w@.skip(n as int) =~= Seq::<char>::empty());
                    assert(redact_pairs(Seq::<char>::empty()) =~= Seq::<char>::empty());
                    assert(out@ + redact_pairs(w@.skip(n as int)) =~= before + redact_pairs(rest));
                }
                i = n;
            } else {
                let key = slice_chars(w, i, p);
                let key_lower = ascii_lower_chars(key.as_slice());
                let head = slice_chars(w, i, p + 1);
                proof {
                    assert(key@ =~= rest.take((p - i) as int));
                    assert(head@ =~= rest.take((p - i + 1) as int));
                    assert(rest.skip((p - i + 1) as int) =~= w@.skip(p + 1));
                }
                push_all(&mut out, &head);
                if names_secret(&key_lower) {
                    if p + 1 == n {
                        proof {
                            assert(w@.skip(p + 1).len() == 0);
                            assert(head@ =~= rest);
                            assert(w@.skip(n as int) =~= Seq::<char>::empty());
                            assert(redact_pairs(Seq::<char>::empty()) =~= Seq::<char>::empty());
                            assert(out@ + redact_pairs(w@.skip(n as int)) =~= before + redact_pairs(
                                rest,
                            ));
                        }
                        pend = true;
                        i = n;
                    } else {
                        proof {
                            assert(out@ + redact_value(w@.skip(p + 1)) =~= before + redact_pairs(
                                rest,
                            ));
                        }
                        value_mode = true;
                        i = p + 1;
                    }
                } else {
                    proof {
                        assert(out@ + redact_pairs(w@.skip(p + 1)) =~= before + redact_pairs(rest));
                    }
                    i = p + 1;
                }
            }
        }
    }
    proof {
        assert(w@.skip(n as int) =~= Seq::<char>::empty());
        assert(redact_pairs(Seq::<char>::empty()) =~= Seq::<char>::empty());
        assert(out@ =~= target);
        if !pend {
            assert(!pending_after(Seq::<char>::empty()));
        }
    }
    let b = is_bearer_exec(w);
    (out, b || pend)
}

fn is_bearer_exec(w: &Vec<char>) -> (b: bool)
    ensures
        b == is_bearer(w@),
{
    let lower = ascii_lower_chars(w.as_slice());
    let bearer = chars_of("bearer");
    crate::text::chars_eq(lower.as_slice(), bearer.as_slice())
}

/// Redacts secrets in `text` and keeps at most `max_chars` characters.
pub fn redact_text(text: &str, max_chars: usize) -> (r: String)
    ensures
        r@ == redact_spec(text@, max_chars as nat),
        max_chars == usize::MAX ==> r@ == redact_rest(text@, false),
{
    let s = chars_of(text);
    let n = s.len();
    let mut out: Vec<char> = Vec::new();
    let mut after_bearer = false;
    let mut i: usize = 0;
    proof {
        assert(s@.skip(0) =~= s@);
    }
    while i < n
        invariant
            n == s@.len(),
            i <= n,
            out@ + redact_rest(s@.skip(i as int), after_bearer) == redact_rest(s@, false),
        decreases n - i,
    {
        let ghost rest = s@.skip(i as int);
        if is_ws_char(s[i]) {
            out.push(s[i]);
            proof {
                assert(rest[0] == s@[i as int]);
                assert(rest.drop_first() =~= s@.skip(i + 1));
                assert(out@ + redact_rest(s@.skip(i + 1), after_bearer) =~= redact_rest(
                    s@,
                    false,
                ));
            }
            i = i + 1;
        } else {
            let mut j = i;
            while j < n && !is_ws_char(s[j])
                invariant
                    n == s@.len(),
                    i <= j <= n,
                    forall|k: int| i <= k < j ==> !is_ws(#[trigger] s@[k]),
                decreases n - j,
            {
                j = j + 1;
            }
            let word = slice_chars(&s, i, j);
            proof {
                assert forall|k: int| 0 <= k < j - i implies !is_ws(#[trigger] rest[k]) by {
                    assert(rest[k] == s@[i + k]);
                }
                if j < n {
                    assert(rest[j - i] == s@[j as int]);
                }
                lemma_word_len_at(rest, (j - i) as int);
                assert(rest[0] == s@[i as int]);
                assert(rest.take((j - i) as int) =~= word@);
                assert(rest.skip((j - i) as int) =~= s@.skip(j as int));
            }
            let (red, next_pending) = redact_word_exec(&word, after_bearer);
            let ghost before = out@;
            push_all(&mut out, &red);
            after_bearer = next_pending;
            proof {
                assert(out@ + redact_rest(s@.skip(j as int), after_bearer) =~= before + (red@
                    + redact_rest(s@.skip(j as int), after_bearer)));
            }
            i = j;
        }
    }
    proof {
        assert(s@.skip(n as int) =~= Seq::<char>::empty());
        assert(out@ =~= redact_rest(s@, false));
    }
    if out.len() <= max_chars {
        crate::text::string_of(out.as_slice())
    } else {
        let cut = slice_chars(&out, 0, max_chars);
        crate::text::string_of(cut.as_slice())
    }
}

/// `b` is the redacted form of the JSON value `a`: text is redacted (not
/// bounded), a secret-naming entry of an object has its value replaced by
/// `<redacted>`, and arrays and objects keep their shape and keys.
pub open spec fn json_redacted(a: Json, b: Json) -> bool
    decreases a,
{
    match a {
        Json::Str(s) => match b {
            Json::Str(t) => t@ == redact_rest(s@, false),
            _ => false,
        },
        Json::Array(v) => match b {
            Json::Array(w) => w@.len() == v@.len() && forall|i: int|
                0 <= i < v@.len() ==> json_redacted(#[trigger] v@[i], w@[i]),
            _ => false,
        },
        Json::Object(f) => match b {
            Json::Object(g) => g@.len() == f@.len() && forall|i: int|
                0 <= i < f@.len() ==> (#[trigger] g@[i]).0@ == f@[i].0@ && if names_secret_key(
                    f@[i].0@,
                ) {
                    match g@[i].1 {
                        Json::Str(m) => m@ == redacted_marker(),
                        _ => false,
                    }
                } else {
                    json_redacted(f@[i].1, g@[i].1)
                },
            _ => false,
        },
        _ => b == a,
    }
}

/// Redacts the secrets of a JSON value.
pub fn redact_json(j: &Json) -> (r: Json)
    ensures
        json_redacted(*j, r),
    decreases j,
{
    match j {
        Json::Str(s) => Json::Str(redact_text(s.as_str(), usize::MAX)),
        Json::Array(v) => {
            let mut out: Vec<Json> = Vec::new();
            let mut i: usize = 0;
            while i < v.len()
                invariant
                    *j == Json::Array(*v),
                    i <= v@.len(),
                    out@.len() == i,
                    forall|k: int| 0 <= k < i ==> json_redacted(#[trigger] v@[k], out@[k]),
                decreases v@.len() - i,
            {
                proof {
                    assert(decreases_to!(*j => (*j)->Array_0));
                    assert((*j)->Array_0 == *v);
                    assert(decreases_to!(*v => v@));
                    assert(decreases_to!(v@ => v@[i as int]));
                    assert(decreases_to!(*j => v@[i as int]));
                }
                let x = redact_json(&v[i]);
                out.push(x);
                i = i + 1;
            }
            Json::Array(out)
        },
        Json::Object(f) => {
            let mut out: Vec<(String, Json)> = Vec::new();
            let mut i: usize = 0;
            while i < f.len()
                invariant
                    *j == Json::Object(*f),
                    i <= f@.len(),
                    out@.len() == i,
                    forall|k: int|
                        0 <= k < i ==> (#[trigger] out@[k]).0@ == f@[k].0@ && if names_secret_key(
                            f@[k].0@,
                        ) {
                            match out@[k].1 {
                                Json::Str(m) => m@ == redacted_marker(),
                                _ => false,
                            }
                        } else {
                            json_redacted(f@[k].1, out@[k].1)
                        },
                decreases f@.len() - i,
            {
                let key = &f[i].0;
                let kc = chars_of(key.as_str());
                let lower = ascii_lower_chars(kc.as_slice());
                let value = if names_secret(&lower) {
                    Json::Str(crate::text::string_of(marker_chars().as_slice()))
                } else {
                    proof {
                        assert(decreases_to!(*j => (*j)->Object_0));
                        assert((*j)->Object_0 == *f);
                        assert(decreases_to!(*f => f@));
                        assert(decreases_to!(f@ => f@[i as int]));
                        assert(decreases_to!(f@[i as int] => f@[i as int].1));
                        assert(decreases_to!(*j => f@[i as int].1));
                    }
                    redact_json(&f[i].1)
                };
                out.push((key.clone(), value));
                i = i + 1;
            }
            Json::Object(out)
        },
        Json::Null => Json::Null,
        Json::Bool(b) => Json::Bool(*b),
        Json::Int(n) => Json::Int(*n),
        Json::UInt(n) => Json::UInt(*n),
        Json::Decimal(d) => Json::Decimal(d.clone()),
    }
}

} // verus!
