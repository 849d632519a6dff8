//! Orderings used to make outputs deterministic: the order of `String`
//! (lexicographic by character code) and ascending integer sorting.
use vstd::prelude::*;
use crate::text::{chars_of, str_eq};

verus! {

/// `a <= b` in the order `String`'s `Ord` implements (lexicographic by code
/// point, a proper prefix sorting first).
pub open spec fn lex_le(a: Seq<char>, b: Seq<char>) -> bool
    decreases a.len(),
{
    if a.len() == 0 {
        true
    } else if b.len() == 0 {
        false
    } else if a[0] < b[0] {
        true
    } else if a[0] == b[0] {
        lex_le(a.drop_first(), b.drop_first())
    } else {
        false
    }
}

pub proof fn lemma_lex_refl(a: Seq<char>)
    ensures
        lex_le(a, a),
    decreases a.len(),
{
    if a.len() > 0 {
        lemma_lex_refl(a.drop_first());
    }
}

pub proof fn lemma_lex_total(a: Seq<char>, b: Seq<char>)
    ensures
        lex_le(a, b) || lex_le(b, a),
    decreases a.len(),
{
    if a.len() > 0 && b.len() > 0 && a[0] == b[0] {
        lemma_lex_total(a.drop_first(), b.drop_first());
    }
    if a.len() > 0 && b.len() > 0 && a[0] != b[0] {
    }
}

pub proof fn lemma_lex_trans(a: Seq<char>, b: Seq<char>, c: Seq<char>)
    requires
        lex_le(a, b),
        lex_le(b, c),
    ensures
        lex_le(a, c),
    decreases a.len(),
{
    if a.len() > 0 && b.len() > 0 && c.len() > 0 && a[0] == b[0] && b[0] == c[0] {
        lemma_lex_trans(a.drop_first(), b.drop_first(), c.drop_first());
    }
}

pub proof fn lemma_lex_antisym(a: Seq<char>, b: Seq<char>)
    requires
        lex_le(a, b),
        lex_le(b, a),
    ensures
        a == b,
    decreases a.len(),
{
    if a.len() > 0 && b.len() > 0 {
        lemma_lex_antisym(a.drop_first(), b.drop_first());
        assert(a =~= seq![a[0]] + a.drop_first());
        assert(b =~= seq![b[0]] + b.drop_first());
    }
}

fn lex_le_chars(a: &Vec<char>, b: &Vec<char>) -> (r: bool)
    ensures
        r == lex_le(a@, b@),
{
    let mut i: usize = 0;
    assert(a@.skip(0) =~= a@);
    assert(b@.skip(0) =~= b@);
    loop
        invariant
            i <= a@.len(),
            i <= b@.len(),
            lex_le(a@, b@) == lex_le(a@.skip(i as int), b@.skip(i as int)),
        decreases a@.len() - i,
    {
        if i == a.len() {
            return true;
        }
        if i == b.len() {
            return false;
        }
        let x = a[i];
        let y = b[i];
        proof {
            assert(a@.skip(i as int)[0] == x);
            assert(b@.skip(i as int)[0] == y);
        }
        if x < y {
            return true;
        }
        if x != y {
            return false;
        }
        proof {
            assert(a@.skip(i as int).drop_first() =~= a@.skip(i + 1));
            assert(b@.skip(i as int).drop_first() =~= b@.skip(i + 1));
        }
        i = i + 1;
    }
}

/// `a <= b` by `String`'s order.
pub fn str_le(a: &str, b: &str) -> (r: bool)
    ensures
        r == lex_le(a@, b@),
{
    let va = chars_of(a);
    let vb = chars_of(b);
    proof {
        assert(va@.skip(0) =~= va@);
        assert(vb@.skip(0) =~= vb@);
    }
    lex_le_chars(&va, &vb)
}

/// Every element is `lex_le` to every later one.
pub open spec fn lex_sorted(s: Seq<Seq<char>>) -> bool {
    forall|i: int, j: int| 0 <= i < j < s.len() ==> lex_le(s[i], s[j])
}

/// The views of a sequence of strings.
pub open spec fn string_views(v: Seq<String>) -> Seq<Seq<char>> {
    v.map_values(|s: String| s@)
}

/// Index of a least element of `v[..]` under `lex_le`.
fn index_of_least(v: &Vec<String>) -> (k: usize)
    requires
        v@.len() > 0,
    ensures
        k < v@.len(),
        forall|j: int| 0 <= j < v@.len() ==> lex_le(v@[k as int]@, #[trigger] v@[j]@),
{
    let mut k: usize = 0;
    let mut i: usize = 1;
    proof {
        lemma_lex_refl(v@[0]@);
    }
    while i < v.len()
        invariant
            1 <= i <= v@.len(),
            k < i,
            forall|j: int| 0 <= j < i ==> lex_le(v@[k as int]@, #[trigger] v@[j]@),
        decreases v@.len() - i,
    {
        if !str_le(v[k].as_str(), v[i].as_str()) {
            proof {
                lemma_lex_total(v@[k as int]@, v@[i as int]@);
                assert forall|j: int| 0 <= j < i + 1 implies lex_le(
                    v@[i as int]@,
                    #[trigger] v@[j]@,
                ) by {
                    if j < i {
                        lemma_lex_trans(v@[i as int]@, v@[k as int]@, v@[j]@);
                    } else {
                        lemma_lex_refl(v@[i as int]@);
                    }
                }
            }
            k = i;
        }
        i = i + 1;
    }
    k
}

/// Sorts strings ascending by `String`'s order; the result holds the same
/// strings (as a multiset of their contents).
pub fn sort_strings(v: Vec<String>) -> (r: Vec<String>)
    ensures
        lex_sorted(string_views(r@)),
        string_views(r@).to_multiset() == string_views(v@).to_multiset(),
{
    broadcast use vstd::seq_lib::group_to_multiset_ensures;

    let mut rest = v;
    let mut out: Vec<String> = Vec::new();
    let ghost orig = string_views(rest@);
    proof {
        assert(string_views(out@) =~= Seq::<Seq<char>>::empty());
    }
    while rest.len() > 0
        invariant
            lex_sorted(string_views(out@)),
            forall|i: int, j: int|
                0 <= i < out@.len() && 0 <= j < rest@.len() ==> lex_le(
                    #[trigger] out@[i]@,
                    #[trigger] rest@[j]@,
                ),
            string_views(out@).to_multiset().add(string_views(rest@).to_multiset())
                == orig.to_multiset(),
        decreases rest@.len(),
    {
        let k = index_of_least(&rest);
        let ghost before_rest = rest@;
        let ghost before_out = out@;
        let x = rest.remove(k);
        proof {
            assert(string_views(rest@) =~= string_views(before_rest).remove(k as int));
            assert(string_views(before_rest)[k as int] == x@);
            string_views(before_rest).to_multiset_ensures();
            string_views(before_out).to_multiset_ensures();
            assert(string_views(rest@).to_multiset() =~= string_views(
                before_rest,
            ).to_multiset().remove(x@));
            assert(string_views(before_rest).contains(x@));
        }
        out.push(x);
        proof {
            assert(string_views(out@) =~= string_views(before_out).push(x@));
            assert(string_views(out@).to_multiset() =~= string_views(
                before_out,
            ).to_multiset().insert(x@));
            assert(string_views(out@).to_multiset().add(string_views(rest@).to_multiset())
                =~= orig.to_multiset());
            assert forall|i: int, j: int|
                0 <= i < out@.len() && 0 <= j < rest@.len() implies lex_le(
                #[trigger] out@[i]@,
                #[trigger] rest@[j]@,
            ) by {
                if j < k {
                    assert(rest@[j] == before_rest[j]);
                } else {
                    assert(rest@[j] == before_rest[j + 1]);
                }
            }
            assert forall|i: int, j: int|
                0 <= i < j < string_views(out@).len() implies lex_le(
                string_views(out@)[i],
                string_views(out@)[j],
            ) by {
                assert(string_views(out@)[i] == out@[i]@);
                assert(string_views(out@)[j] == out@[j]@);
                if j == out@.len() - 1 {
                    assert(before_rest[k as int] == x);
                    assert(out@[i] == before_out[i]);
                    assert(lex_le(before_out[i]@, before_rest[k as int]@));
                } else {
                    assert(string_views(before_out)[i] == before_out[i]@);
                    assert(string_views(before_out)[j] == before_out[j]@);
                }
            }
        }
    }
    proof {
        assert(string_views(rest@).to_multiset() =~= vstd::multiset::Multiset::empty());
        assert(string_views(out@).to_multiset().add(vstd::multiset::Multiset::empty())
            =~= string_views(out@).to_multiset());
    }
    out
}

/// Two sorted sequences holding the same elements are equal.
pub proof fn lemma_sorted_unique(a: Seq<Seq<char>>, b: Seq<Seq<char>>)
    requires
        lex_sorted(a),
        lex_sorted(b),
        a.to_multiset() == b.to_multiset(),
    ensures
        a == b,
    decreases a.len(),
{
    broadcast use vstd::seq_lib::group_to_multiset_ensures;

    if a.len() == 0 {
        a.to_multiset_ensures();
        b.to_multiset_ensures();
        assert(b.to_multiset().len() == 0);
        assert(b =~= a);
    } else {
        a.to_multiset_ensures();
        b.to_multiset_ensures();
        a.drop_first().to_multiset_ensures();
        b.drop_first().to_multiset_ensures();
        assert(b.len() == a.len());
        assert(a.to_multiset().count(a[0]) > 0) by {
            assert(a.contains(a[0]));
        }
        assert(b.contains(a[0]));
        let j = choose|j: int| 0 <= j < b.len() && b[j] == a[0];
        if j > 0 {
            assert(lex_le(b[0], b[j]));
        } else {
            lemma_lex_refl(b[0]);
        }
        assert(a.to_multiset().count(b[0]) > 0) by {
            assert(b.contains(b[0]));
        }
        assert(a.contains(b[0]));
        let i = choose|i: int| 0 <= i < a.len() && a[i] == b[0];
        if i > 0 {
            assert(lex_le(a[0], a[i]));
        } else {
            lemma_lex_refl(a[0]);
        }
        lemma_lex_antisym(a[0], b[0]);
        assert(a.remove(0) =~= a.drop_first());
        assert(b.remove(0) =~= b.drop_first());
        assert(a.drop_first().to_multiset() =~= a.to_multiset().remove(a[0]));
        assert(b.drop_first().to_multiset() =~= b.to_multiset().remove(b[0]));
        lemma_sorted_unique(a.drop_first(), b.drop_first());
        assert(a =~= b) by {
            assert forall|k: int| 0 <= k < a.len() implies a[k] == b[k] by {
                if k > 0 {
                    assert(a[k] == a.drop_first()[k - 1]);
                    assert(b[k] == b.drop_first()[k - 1]);
                }
            }
        }
    }
}

/// Every element is at most every later one.
pub open spec fn int_sorted(s: Seq<i64>) -> bool {
    forall|i: int, j: int| 0 <= i < j < s.len() ==> s[i] <= s[j]
}

/// Sorts integers ascending; the result is a permutation of the input.
pub fn sort_i64(v: Vec<i64>) -> (r: Vec<i64>)
    ensures
        int_sorted(r@),
        r@.to_multiset() == v@.to_multiset(),
{
    broadcast use vstd::seq_lib::group_to_multiset_ensures;

    let mut rest = v;
    let mut out: Vec<i64> = Vec::new();
    let ghost orig = rest@;
    while rest.len() > 0
        invariant
            int_sorted(out@),
            forall|i: int, j: int|
                0 <= i < out@.len() && 0 <= j < rest@.len() ==> #[trigger] out@[i]
                    <= #[trigger] rest@[j],
            out@.to_multiset().add(rest@.to_multiset()) == orig.to_multiset(),
        decreases rest@.len(),
    {
        let mut k: usize = 0;
        let mut i: usize = 1;
        while i < rest.len()
            invariant
                1 <= i <= rest@.len(),
                k < i,
                forall|j: int| 0 <= j < i ==> rest@[k as int] <= #[trigger] rest@[j],
            decreases rest@.len() - i,
        {
            if rest[i] < rest[k] {
                k = i;
            }
            i = i + 1;
        }
        let ghost before_rest = rest@;
        let ghost before_out = out@;
        let x = rest.remove(k);
        proof {
            before_rest.to_multiset_ensures();
            before_out.to_multiset_ensures();
            assert(rest@.to_multiset() =~= before_rest.to_multiset().remove(x));
            assert(before_out.push(x).to_multiset() =~= before_out.to_multiset().insert(x));
            assert(before_rest[k as int] == x);
            assert(before_rest.contains(x));
        }
        out.push(x);
        proof {
            assert(out@.to_multiset().add(rest@.to_multiset()) =~= orig.to_multiset());
            assert forall|i: int, j: int|
                0 <= i < out@.len() && 0 <= j < rest@.len() implies #[trigger] out@[i]
                <= #[trigger] rest@[j] by {
                if j < k {
                    assert(rest@[j] == before_rest[j]);
                } else {
                    assert(rest@[j] == before_rest[j + 1]);
                }
            }
        }
    }
    proof {
        assert(rest@.to_multiset() =~= vstd::multiset::Multiset::empty());
        assert(out@.to_multiset().add(vstd::multiset::Multiset::empty()) =~= out@.to_multiset());
    }
    out
}


/// The distinct elements of `s`, in order of first appearance.
pub open spec fn dedup(s: Seq<Seq<char>>) -> Seq<Seq<char>>
    decreases s.len(),
{
    if s.len() == 0 {
        Seq::empty()
    } else {
        let d = dedup(s.drop_last());
        if d.contains(s.last()) {
            d
        } else {
            d.push(s.last())
        }
    }
}

/// The distinct elements of `s`, ascending by `String`'s order.
pub open spec fn sorted_distinct(s: Seq<Seq<char>>) -> Seq<Seq<char>> {
    choose|r: Seq<Seq<char>>| lex_sorted(r) && r.to_multiset() == dedup(s).to_multiset()
}

/// Whether a string with the contents of `x` occurs in `v`.
pub fn contains_string(v: &Vec<String>, x: &str) -> (b: bool)
    ensures
        b == string_views(v@).contains(x@),
{
    let mut i: usize = 0;
    while i < v.len()
        invariant
            i <= v@.len(),
            forall|k: int| 0 <= k < i ==> v@[k]@ != x@,
        decreases v@.len() - i,
    {
        if str_eq(v[i].as_str(), x) {
            proof {
                assert(string_views(v@)[i as int] == x@);
            }
            return true;
        }
        i = i + 1;
    }
    proof {
        if string_views(v@).contains(x@) {
            let k = choose|k: int| 0 <= k < string_views(v@).len() && string_views(v@)[k] == x@;
            assert(v@[k]@ == x@);
        }
    }
    false
}

/// The distinct strings of `v`, in order of first appearance.
pub fn dedup_strings(v: &Vec<String>) -> (r: Vec<String>)
    ensures
        string_views(r@) == dedup(string_views(v@)),
{
    let mut out: Vec<String> = Vec::new();
    let mut i: usize = 0;
    proof {
        assert(string_views(v@).take(0) =~= Seq::<Seq<char>>::empty());
        assert(string_views(out@) =~= Seq::<Seq<char>>::empty());
    }
    while i < v.len()
        invariant
            i <= v@.len(),
            string_views(out@) == dedup(string_views(v@).take(i as int)),
        decreases v@.len() - i,
    {
        let ghost t = string_views(v@).take(i as int + 1);
        proof {
            assert(t.drop_last() =~= string_views(v@).take(i as int));
            assert(t.last() == v@[i as int]@);
        }
        if !contains_string(&out, v[i].as_str()) {
            let ghost before = string_views(out@);
            out.push(v[i].clone());
            proof {
                assert(string_views(out@) =~= before.push(v@[i as int]@));
            }
        }
        i = i + 1;
    }
    proof {
        assert(string_views(v@).take(v@.len() as int) =~= string_views(v@));
    }
    out
}

/// The distinct strings of `v`, ascending by `String`'s order.
pub fn sorted_distinct_strings(v: &Vec<String>) -> (r: Vec<String>)
    ensures
        string_views(r@) == sorted_distinct(string_views(v@)),
{
    let d = dedup_strings(v);
    let r = sort_strings(d);
    proof {
        let c = sorted_distinct(string_views(v@));
        assert(lex_sorted(c) && c.to_multiset() == dedup(string_views(v@)).to_multiset());
        lemma_sorted_unique(string_views(r@), c);
    }
    r
}

} // verus!
