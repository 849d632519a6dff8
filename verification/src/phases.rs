//! Plan phase durations: how long each kind of plan step took, measured
//! from the plan event that put a step in progress to the one that
//! completed it.
//!
//! Events are replayed in time order. A step in progress is remembered by
//! its turn and id; an event of the same turn that no longer lists it, or
//! lists it neither in progress nor completed, forgets it; completing it
//! records the elapsed time under the step's kind when that time is
//! positive.
use vstd::prelude::*;
use crate::chat_progress::{summarize, summary_spec, DurationSampleSummary};
use crate::text::{owned, str_eq};

verus! {

broadcast use vstd::string::group_string_axioms;

/// One step of a recorded plan.
#[derive(Debug)]
pub struct PlanStep {
    pub id: String,
    pub kind: String,
    pub status: String,
}

/// A recorded plan event: its turn, its steps (`None` when the recorded
/// plan could not be read) and when it was recorded.
#[derive(Debug)]
pub struct PlanObservation {
    pub root_turn_id: String,
    pub steps: Option<Vec<PlanStep>>,
    pub created_at: i64,
}

pub type StepV = (Seq<char>, Seq<char>, Seq<char>);

pub type RowV = (Seq<char>, Option<Seq<StepV>>, int);

pub type ActiveKey = (Seq<char>, Seq<char>);

pub type ActiveVal = (Seq<char>, int);

pub open spec fn step_view(s: PlanStep) -> StepV {
    (s.id@, s.kind@, s.status@)
}

pub open spec fn steps_view(v: Seq<PlanStep>) -> Seq<StepV> {
    v.map_values(|s: PlanStep| step_view(s))
}

pub open spec fn row_view(r: PlanObservation) -> RowV {
    (
        r.root_turn_id@,
        match r.steps {
            Some(v) => Some(steps_view(v@)),
            None => None,
        },
        r.created_at as int,
    )
}

pub open spec fn row_views(v: Seq<PlanObservation>) -> Seq<RowV> {
    v.map_values(|r: PlanObservation| row_view(r))
}

// ── Association lists as maps ────────────────────────────────────────────

/// The map an association list describes, later entries winning.
pub open spec fn pairs_map<K, V>(s: Seq<(K, V)>) -> Map<K, V>
    decreases s.len(),
{
    if s.len() == 0 {
        Map::empty()
    } else {
        pairs_map(s.drop_last()).insert(s.last().0, s.last().1)
    }
}

pub open spec fn unique_keys<K, V>(s: Seq<(K, V)>) -> bool {
    forall|a: int, b: int| 0 <= a < b < s.len() ==> s[a].0 != s[b].0
}

proof fn lemma_pairs_absent<K, V>(s: Seq<(K, V)>, k: K)
    requires
        forall|i: int| 0 <= i < s.len() ==> s[i].0 != k,
    ensures
        !pairs_map(s).contains_key(k),
    decreases s.len(),
{
    if s.len() > 0 {
        assert(s.last() == s[s.len() - 1]);
        assert forall|i: int| 0 <= i < s.drop_last().len() implies s.drop_last()[i].0 != k by {
            assert(s.drop_last()[i] == s[i]);
        }
        lemma_pairs_absent(s.drop_last(), k);
    }
}

proof fn lemma_pairs_get<K, V>(s: Seq<(K, V)>, i: int)
    requires
        unique_keys(s),
        0 <= i < s.len(),
    ensures
        pairs_map(s).contains_key(s[i].0),
        pairs_map(s)[s[i].0] == s[i].1,
    decreases s.len(),
{
    if i < s.len() - 1 {
        let d = s.drop_last();
        assert(d[i] == s[i]);
        assert(s.last() == s[s.len() - 1]);
        assert(s[i].0 != s[s.len() - 1].0);
        assert(unique_keys(d)) by {
            assert forall|a: int, b: int| 0 <= a < b < d.len() implies d[a].0 != d[b].0 by {
                assert(d[a] == s[a] && d[b] == s[b]);
            }
        }
        lemma_pairs_get(d, i);
    }
}

proof fn lemma_unique_drop_last<K, V>(s: Seq<(K, V)>)
    requires
        unique_keys(s),
        s.len() > 0,
    ensures
        unique_keys(s.drop_last()),
        forall|i: int| 0 <= i < s.drop_last().len() ==> s.drop_last()[i].0 != s.last().0,
{
    let d = s.drop_last();
    assert forall|a: int, b: int| 0 <= a < b < d.len() implies d[a].0 != d[b].0 by {
        assert(d[a] == s[a] && d[b] == s[b]);
    }
    assert forall|i: int| 0 <= i < d.len() implies d[i].0 != s.last().0 by {
        assert(d[i] == s[i]);
        assert(s.last() == s[s.len() - 1]);
    }
}

proof fn lemma_pairs_remove<K, V>(s: Seq<(K, V)>, i: int)
    requires
        unique_keys(s),
        0 <= i < s.len(),
    ensures
        unique_keys(s.remove(i)),
        pairs_map(s.remove(i)) == pairs_map(s).remove(s[i].0),
    decreases s.len(),
{
    let r = s.remove(i);
    assert(unique_keys(r)) by {
        assert forall|a: int, b: int| 0 <= a < b < r.len() implies r[a].0 != r[b].0 by {
            let a2 = if a < i { a } else { a + 1 };
            let b2 = if b < i { b } else { b + 1 };
            assert(r[a] == s[a2] && r[b] == s[b2]);
        }
    }
    let d = s.drop_last();
    lemma_unique_drop_last(s);
    if i == s.len() - 1 {
        assert(r =~= d);
        lemma_pairs_absent(d, s.last().0);
        assert(pairs_map(s).remove(s[i].0) =~= pairs_map(d));
    } else {
        lemma_pairs_remove(d, i);
        assert(r =~= d.remove(i).push(s.last()));
        assert(r.drop_last() =~= d.remove(i));
        assert(d[i] == s[i]);
        assert(s[i].0 != s.last().0) by {
            assert(s.last() == s[s.len() - 1]);
        }
        assert(pairs_map(r) =~= pairs_map(s).remove(s[i].0));
    }
}

proof fn lemma_pairs_update<K, V>(s: Seq<(K, V)>, i: int, v: V)
    requires
        unique_keys(s),
        0 <= i < s.len(),
    ensures
        unique_keys(s.update(i, (s[i].0, v))),
        pairs_map(s.update(i, (s[i].0, v))) == pairs_map(s).insert(s[i].0, v),
    decreases s.len(),
{
    let u = s.update(i, (s[i].0, v));
    assert(unique_keys(u)) by {
        assert forall|a: int, b: int| 0 <= a < b < u.len() implies u[a].0 != u[b].0 by {
            assert(u[a].0 == s[a].0 && u[b].0 == s[b].0);
        }
    }
    let d = s.drop_last();
    lemma_unique_drop_last(s);
    if i == s.len() - 1 {
        assert(u.drop_last() =~= d);
        assert(pairs_map(u) =~= pairs_map(s).insert(s[i].0, v));
    } else {
        lemma_pairs_update(d, i, v);
        assert(d[i] == s[i]);
        assert(u.drop_last() =~= d.update(i, (s[i].0, v)));
        assert(u.last() == s.last());
        assert(s[i].0 != s.last().0) by {
            assert(s.last() == s[s.len() - 1]);
        }
        assert(pairs_map(u) =~= pairs_map(s).insert(s[i].0, v));
    }
}

proof fn lemma_pairs_push<K, V>(s: Seq<(K, V)>, k: K, v: V)
    requires
        unique_keys(s),
        forall|i: int| 0 <= i < s.len() ==> s[i].0 != k,
    ensures
        unique_keys(s.push((k, v))),
        pairs_map(s.push((k, v))) == pairs_map(s).insert(k, v),
{
    let p = s.push((k, v));
    assert(p.drop_last() =~= s);
    assert forall|a: int, b: int| 0 <= a < b < p.len() implies p[a].0 != p[b].0 by {
        assert(p[a] == s[a]);
        if b < s.len() {
            assert(p[b] == s[b]);
        }
    }
}

// ── Replaying plan events ────────────────────────────────────────────────

/// `a - b`, saturated to the range of `i64`.
pub open spec fn sat_diff(a: int, b: int) -> int {
    if a - b > i64::MAX {
        i64::MAX as int
    } else if a - b < i64::MIN {
        i64::MIN as int
    } else {
        a - b
    }
}

/// One step of one event.
pub open spec fn apply_step(
    a: Map<ActiveKey, ActiveVal>,
    c: Map<Seq<char>, Seq<i64>>,
    root: Seq<char>,
    at: int,
    st: StepV,
) -> (Map<ActiveKey, ActiveVal>, Map<Seq<char>, Seq<i64>>) {
    let key = (root, st.0);
    if st.2 == "in_progress"@ {
        if a.contains_key(key) {
            (a, c)
        } else {
            (a.insert(key, (st.1, at)), c)
        }
    } else if st.2 == "completed"@ {
        if a.contains_key(key) {
            let kind = a[key].0;
            let elapsed = sat_diff(at, a[key].1);
            if elapsed > 0 {
                (
                    a.remove(key),
                    c.insert(
                        kind,
                        (if c.contains_key(kind) {
                            c[kind]
                        } else {
                            Seq::empty()
                        }).push(elapsed as i64),
                    ),
                )
            } else {
                (a.remove(key), c)
            }
        } else {
            (a, c)
        }
    } else {
        (a.remove(key), c)
    }
}

pub open spec fn apply_steps(
    a: Map<ActiveKey, ActiveVal>,
    c: Map<Seq<char>, Seq<i64>>,
    root: Seq<char>,
    at: int,
    steps: Seq<StepV>,
) -> (Map<ActiveKey, ActiveVal>, Map<Seq<char>, Seq<i64>>)
    decreases steps.len(),
{
    if steps.len() == 0 {
        (a, c)
    } else {
        let p = apply_steps(a, c, root, at, steps.drop_last());
        apply_step(p.0, p.1, root, at, steps.last())
    }
}

pub open spec fn lists_step(steps: Seq<StepV>, id: Seq<char>) -> bool {
    exists|i: int| 0 <= i < steps.len() && steps[i].0 == id
}

/// Forgets the steps of turn `root` that `steps` no longer lists.
pub open spec fn prune(a: Map<ActiveKey, ActiveVal>, root: Seq<char>, steps: Seq<StepV>) -> Map<
    ActiveKey,
    ActiveVal,
> {
    Map::new(
        |k: ActiveKey| a.contains_key(k) && (k.0 != root || lists_step(steps, k.1)),
        |k: ActiveKey| a[k],
    )
}

pub open spec fn apply_row(
    a: Map<ActiveKey, ActiveVal>,
    c: Map<Seq<char>, Seq<i64>>,
    r: RowV,
) -> (Map<ActiveKey, ActiveVal>, Map<Seq<char>, Seq<i64>>) {
    match r.1 {
        None => (a, c),
        Some(steps) => apply_steps(prune(a, r.0, steps), c, r.0, r.2, steps),
    }
}

pub open spec fn apply_rows(rows: Seq<RowV>) -> (Map<ActiveKey, ActiveVal>, Map<Seq<char>, Seq<i64>>)
    decreases rows.len(),
{
    if rows.len() == 0 {
        (Map::empty(), Map::empty())
    } else {
        let p = apply_rows(rows.drop_last());
        apply_row(p.0, p.1, rows.last())
    }
}

/// `x` placed after every leading row recorded no later than it.
pub open spec fn insert_by_time(s: Seq<RowV>, x: RowV) -> Seq<RowV>
    decreases s.len(),
{
    if s.len() == 0 {
        seq![x]
    } else if s[0].2 <= x.2 {
        seq![s[0]] + insert_by_time(s.drop_first(), x)
    } else {
        seq![x] + s
    }
}

/// Stable sort by recording time.
pub open spec fn sort_by_time(s: Seq<RowV>) -> Seq<RowV>
    decreases s.len(),
{
    if s.len() == 0 {
        Seq::empty()
    } else {
        insert_by_time(sort_by_time(s.drop_last()), s.last())
    }
}

/// Durations per step kind, in the order they were completed.
pub open spec fn phase_samples_spec(rows: Seq<RowV>) -> Map<Seq<char>, Seq<i64>> {
    apply_rows(sort_by_time(rows)).1
}

proof fn lemma_insert_by_time_at(s: Seq<RowV>, x: RowV, j: int)
    requires
        0 <= j <= s.len(),
        forall|k: int| 0 <= k < j ==> s[k].2 <= x.2,
        j == s.len() || s[j].2 > x.2,
    ensures
        insert_by_time(s, x) == s.insert(j, x),
    decreases s.len(),
{
    if j > 0 {
        assert forall|k: int| 0 <= k < j - 1 implies s.drop_first()[k].2 <= x.2 by {
            assert(s.drop_first()[k] == s[k + 1]);
        }
        if j < s.len() {
            assert(s.drop_first()[j - 1] == s[j]);
        }
        lemma_insert_by_time_at(s.drop_first(), x, j - 1);
        assert(seq![s[0]] + s.drop_first().insert(j - 1, x) =~= s.insert(j, x));
    } else {
        assert(seq![x] + s =~= s.insert(0, x));
    }
}

/// Sorts plan events by recording time, keeping the order of ties.
fn sort_observations(v: Vec<PlanObservation>) -> (r: Vec<PlanObservation>)
    ensures
        row_views(r@) == sort_by_time(row_views(v@)),
{
    let ghost orig = row_views(v@);
    let ghost n = v@.len();
    let mut rest = v;
    let mut out: Vec<PlanObservation> = Vec::new();
    proof {
        assert(orig.skip(0) =~= orig);
        assert(orig.take(0) =~= Seq::<RowV>::empty());
        assert(row_views(out@) =~= Seq::<RowV>::empty());
    }
    while rest.len() > 0
        invariant
            rest@.len() <= n,
            orig.len() == n,
            row_views(rest@) == orig.skip(n - rest@.len()),
            row_views(out@) == sort_by_time(orig.take(n - rest@.len())),
        decreases rest@.len(),
    {
        let ghost i = n - rest@.len();
        let ghost before = row_views(out@);
        let ghost rest0 = rest@;
        proof {
            assert(row_views(rest@)[0] == orig[i]);
        }
        let x = rest.remove(0);
        proof {
            assert forall|k: int| 0 <= k < rest@.len() implies #[trigger] row_views(rest@)[k]
                == orig.skip(i + 1)[k] by {
                assert(rest@[k] == rest0[k + 1]);
                assert(row_views(rest0)[k + 1] == orig.skip(i)[k + 1]);
            }
        }
        let mut j: usize = 0;
        while j < out.len() && out[j].created_at <= x.created_at
            invariant
                j <= out@.len(),
                forall|k: int| 0 <= k < j ==> out@[k].created_at <= x.created_at,
            decreases out@.len() - j,
        {
            j = j + 1;
        }
        proof {
            assert forall|k: int| 0 <= k < j implies before[k].2 <= row_view(x).2 by {
                assert(before[k] == row_view(out@[k]));
            }
            if j < out@.len() {
                assert(before[j as int] == row_view(out@[j as int]));
            }
            lemma_insert_by_time_at(before, row_view(x), j as int);
        }
        out.insert(j, x);
        proof {
            assert(row_views(out@) =~= before.insert(j as int, row_view(x)));
            assert(orig.take(i + 1).drop_last() =~= orig.take(i));
            assert(orig.take(i + 1).last() == orig[i]);
            assert(row_views(rest@) =~= orig.skip(i + 1));
        }
    }
    proof {
        assert(orig.take(n as int) =~= orig);
    }
    out
}

/// Steps in progress, by turn and step id: the step's kind and when it
/// started.
pub type ActiveEntry = ((String, String), (String, i64));

pub open spec fn active_entry_view(e: ActiveEntry) -> (ActiveKey, ActiveVal) {
    ((e.0.0@, e.0.1@), (e.1.0@, e.1.1 as int))
}

pub open spec fn active_view(v: Seq<ActiveEntry>) -> Seq<(ActiveKey, ActiveVal)> {
    v.map_values(|e: ActiveEntry| active_entry_view(e))
}

pub open spec fn done_entry_view(e: (String, Vec<i64>)) -> (Seq<char>, Seq<i64>) {
    (e.0@, e.1@)
}

pub open spec fn done_view(v: Seq<(String, Vec<i64>)>) -> Seq<(Seq<char>, Seq<i64>)> {
    v.map_values(|e: (String, Vec<i64>)| done_entry_view(e))
}

fn find_active(a: &Vec<ActiveEntry>, root: &str, id: &str) -> (r: Option<usize>)
    ensures
        match r {
            Some(k) => k < a@.len() && active_view(a@)[k as int].0 == (root@, id@),
            None => forall|i: int| 0 <= i < a@.len() ==> active_view(a@)[i].0 != (root@, id@),
        },
{
    let mut i: usize = 0;
    while i < a.len()
        invariant
            i <= a@.len(),
            forall|k: int| 0 <= k < i ==> active_view(a@)[k].0 != (root@, id@),
        decreases a@.len() - i,
    {
        if str_eq(a[i].0.0.as_str(), root) && str_eq(a[i].0.1.as_str(), id) {
            return Some(i);
        }
        i = i + 1;
    }
    None
}

fn find_done(c: &Vec<(String, Vec<i64>)>, kind: &str) -> (r: Option<usize>)
    ensures
        match r {
            Some(k) => k < c@.len() && done_view(c@)[k as int].0 == kind@,
            None => forall|i: int| 0 <= i < c@.len() ==> done_view(c@)[i].0 != kind@,
        },
{
    let mut i: usize = 0;
    while i < c.len()
        invariant
            i <= c@.len(),
            forall|k: int| 0 <= k < i ==> done_view(c@)[k].0 != kind@,
        decreases c@.len() - i,
    {
        if str_eq(c[i].0.as_str(), kind) {
            return Some(i);
        }
        i = i + 1;
    }
    None
}

fn lists_step_exec(steps: &Vec<PlanStep>, id: &str) -> (b: bool)
    ensures
        b == lists_step(steps_view(steps@), id@),
{
    let mut i: usize = 0;
    while i < steps.len()
        invariant
            i <= steps@.len(),
            forall|k: int| 0 <= k < i ==> steps_view(steps@)[k].0 != id@,
        decreases steps@.len() - i,
    {
        if str_eq(steps[i].id.as_str(), id) {
            proof {
                assert(steps_view(steps@)[i as int].0 == id@);
            }
            return true;
        }
        i = i + 1;
    }
    false
}

/// The kept entries of `s`: other turns, and steps `steps` still lists.
pub open spec fn kept(s: Seq<(ActiveKey, ActiveVal)>, root: Seq<char>, steps: Seq<StepV>) -> Seq<
    (ActiveKey, ActiveVal),
>
    decreases s.len(),
{
    if s.len() == 0 {
        Seq::empty()
    } else {
        let p = kept(s.drop_last(), root, steps);
        if s.last().0.0 != root || lists_step(steps, s.last().0.1) {
            p.push(s.last())
        } else {
            p
        }
    }
}

proof fn lemma_kept(s: Seq<(ActiveKey, ActiveVal)>, root: Seq<char>, steps: Seq<StepV>)
    requires
        unique_keys(s),
    ensures
        unique_keys(kept(s, root, steps)),
        forall|i: int|
            0 <= i < kept(s, root, steps).len() ==> exists|j: int|
                0 <= j < s.len() && s[j] == #[trigger] kept(s, root, steps)[i],
        pairs_map(kept(s, root, steps)) == prune(pairs_map(s), root, steps),
    decreases s.len(),
{
    if s.len() == 0 {
        assert(pairs_map(kept(s, root, steps)) =~= prune(pairs_map(s), root, steps));
    } else {
        let d = s.drop_last();
        lemma_unique_drop_last(s);
        lemma_kept(d, root, steps);
        let kd = kept(d, root, steps);
        let l = s.last();
        assert forall|i: int| 0 <= i < kd.len() implies kd[i].0 != l.0 by {
            let j = choose|j: int| 0 <= j < d.len() && d[j] == kd[i];
            assert(d[j].0 != l.0);
        }
        if l.0.0 != root || lists_step(steps, l.0.1) {
            lemma_pairs_push(kd, l.0, l.1);
            assert(kd.push(l).drop_last() =~= kd);
            assert forall|i: int|
                0 <= i < kd.push(l).len() implies exists|j: int|
                    0 <= j < s.len() && s[j] == #[trigger] kd.push(l)[i] by {
                if i < kd.len() {
                    let j = choose|j: int| 0 <= j < d.len() && d[j] == kd[i];
                    assert(s[j] == d[j]);
                } else {
                    assert(s[s.len() - 1] == l);
                }
            }
            assert(pairs_map(kd.push(l)) =~= prune(pairs_map(s), root, steps));
        } else {
            assert forall|i: int|
                0 <= i < kd.len() implies exists|j: int| 0 <= j < s.len() && s[j] == #[trigger] kd[i] by {
                let j = choose|j: int| 0 <= j < d.len() && d[j] == kd[i];
                assert(s[j] == d[j]);
            }
            assert(pairs_map(kd) =~= prune(pairs_map(s), root, steps));
        }
    }
}

fn prune_active(a: Vec<ActiveEntry>, root: &str, steps: &Vec<PlanStep>) -> (r: Vec<ActiveEntry>)
    requires
        unique_keys(active_view(a@)),
    ensures
        unique_keys(active_view(r@)),
        pairs_map(active_view(r@)) == prune(pairs_map(active_view(a@)), root@, steps_view(steps@)),
{
    let ghost s = active_view(a@);
    let n = a.len();
    let mut rest = a;
    let mut out: Vec<ActiveEntry> = Vec::new();
    proof {
        assert(s.take(0) =~= Seq::<(ActiveKey, ActiveVal)>::empty());
        assert(active_view(out@) =~= kept(s.take(0), root@, steps_view(steps@)));
        assert(active_view(rest@) =~= s.skip(0));
    }
    while rest.len() > 0
        invariant
            rest@.len() <= n,
            s.len() == n,
            active_view(rest@) == s.skip(n - rest@.len()),
            active_view(out@) == kept(s.take(n - rest@.len()), root@, steps_view(steps@)),
        decreases rest@.len(),
    {
        let ghost i = n - rest@.len();
        let ghost rest0 = rest@;
        proof {
            assert(active_view(rest@)[0] == s[i]);
        }
        let e = rest.remove(0);
        proof {
            assert forall|k: int| 0 <= k < rest@.len() implies #[trigger] active_view(rest@)[k]
                == s.skip(i + 1)[k] by {
                assert(rest@[k] == rest0[k + 1]);
                assert(active_view(rest0)[k + 1] == s.skip(i)[k + 1]);
            }
            assert(active_view(rest@) =~= s.skip(i + 1));
            assert(s.take(i + 1).drop_last() =~= s.take(i));
            assert(s.take(i + 1).last() == s[i]);
        }
        let keep = !str_eq(e.0.0.as_str(), root) || lists_step_exec(steps, e.0.1.as_str());
        if keep {
            let ghost before = active_view(out@);
            out.push(e);
            assert(active_view(out@) =~= before.push(s[i]));
        }
    }
    proof {
        assert(s.take(n as int) =~= s);
        lemma_kept(s, root@, steps_view(steps@));
    }
    out
}

fn sat_sub(a: i64, b: i64) -> (r: i64)
    ensures
        r == sat_diff(a as int, b as int),
{
    let d: i128 = (a as i128) - (b as i128);
    if d > 9223372036854775807i128 {
        9223372036854775807i64
    } else if d < -9223372036854775808i128 {
        -9223372036854775808i64
    } else {
        d as i64
    }
}

/// Applies one step of an event to the replay state.
fn apply_step_exec(
    a: &mut Vec<ActiveEntry>,
    c: &mut Vec<(String, Vec<i64>)>,
    root: &str,
    at: i64,
    st: &PlanStep,
)
    requires
        unique_keys(active_view(old(a)@)),
        unique_keys(done_view(old(c)@)),
    ensures
        unique_keys(active_view(final(a)@)),
        unique_keys(done_view(final(c)@)),
        (pairs_map(active_view(final(a)@)), pairs_map(done_view(final(c)@))) == apply_step(
            pairs_map(active_view(old(a)@)),
            pairs_map(done_view(old(c)@)),
            root@,
            at as int,
            step_view(*st),
        ),
{
    let ghost a0 = active_view(a@);
    let ghost c0 = done_view(c@);
    let ghost key = (root@, st.id@);
    let found = find_active(a, root, st.id.as_str());
    proof {
        match found {
            Some(k) => {
                lemma_pairs_get(a0, k as int);
            },
            None => {
                lemma_pairs_absent(a0, key);
            },
        }
    }
    if str_eq(st.status.as_str(), "in_progress") {
        if found.is_none() {
            let ghost before = a@;
            a.push(((owned(root), st.id.clone()), (st.kind.clone(), at)));
            proof {
                assert(active_view(a@) =~= a0.push((key, (st.kind@, at as int))));
                lemma_pairs_push(a0, key, (st.kind@, at as int));
            }
        }
    } else if str_eq(st.status.as_str(), "completed") {
        match found {
            Some(k) => {
                let ghost ak = a0[k as int];
                let (_key, (kind, started)) = a.remove(k);
                proof {
                    lemma_pairs_remove(a0, k as int);
                    assert(active_view(a@) =~= a0.remove(k as int));
                }
                let elapsed = sat_sub(at, started);
                if elapsed > 0 {
                    match find_done(c, kind.as_str()) {
                        Some(j) => {
                            let ghost cj = c0[j as int];
                            proof {
                                lemma_pairs_get(c0, j as int);
                            }
                            let (name, mut samples) = c.remove(j);
                            samples.push(elapsed);
                            let ghost sv = samples@;
                            c.insert(j, (name, samples));
                            proof {
                                assert(done_view(c@) =~= c0.update(j as int, (c0[j as int].0, sv)));
                                lemma_pairs_update(c0, j as int, sv);
                            }
                        },
                        None => {
                            proof {
                                lemma_pairs_absent(c0, kind@);
                            }
                            let mut samples: Vec<i64> = Vec::new();
                            samples.push(elapsed);
                            let ghost sv = samples@;
                            c.push((kind, samples));
                            proof {
                                assert(sv =~= Seq::<i64>::empty().push(elapsed));
                                assert(done_view(c@) =~= c0.push((ak.1.0, sv)));
                                lemma_pairs_push(c0, ak.1.0, sv);
                            }
                        },
                    }
                }
            },
            None => {},
        }
    } else {
        match found {
            Some(k) => {
                let _removed = a.remove(k);
                proof {
                    lemma_pairs_remove(a0, k as int);
                    assert(active_view(a@) =~= a0.remove(k as int));
                }
            },
            None => {
                proof {
                    assert(pairs_map(a0).remove(key) =~= pairs_map(a0));
                }
            },
        }
    }
}

/// Durations of completed plan steps by step kind. The result lists each
/// kind once.
pub fn phase_samples(rows: Vec<PlanObservation>) -> (r: Vec<(String, Vec<i64>)>)
    ensures
        unique_keys(done_view(r@)),
        pairs_map(done_view(r@)) == phase_samples_spec(row_views(rows@)),
{
    let sorted = sort_observations(rows);
    let ghost rs = row_views(sorted@);
    let n = sorted.len();
    let mut rest = sorted;
    let mut active: Vec<ActiveEntry> = Vec::new();
    let mut done: Vec<(String, Vec<i64>)> = Vec::new();
    proof {
        assert(rs.take(0) =~= Seq::<RowV>::empty());
        assert(rs.skip(0) =~= rs);
        assert(pairs_map(active_view(active@)) =~= Map::<ActiveKey, ActiveVal>::empty());
        assert(pairs_map(done_view(done@)) =~= Map::<Seq<char>, Seq<i64>>::empty());
    }
    while rest.len() > 0
        invariant
            rest@.len() <= n,
            rs.len() == n,
            row_views(rest@) == rs.skip(n - rest@.len()),
            unique_keys(active_view(active@)),
            unique_keys(done_view(done@)),
            (pairs_map(active_view(active@)), pairs_map(done_view(done@))) == apply_rows(
                rs.take(n - rest@.len()),
            ),
        decreases rest@.len(),
    {
        let ghost i = n - rest@.len();
        let ghost rest0 = rest@;
        let row = rest.remove(0);
        proof {
            assert(row_views(rest0)[0] == row_view(rest0[0]));
            assert(rs.skip(i)[0] == rs[i]);
            assert(row_view(row) == rs[i]);
            assert forall|k: int| 0 <= k < rest@.len() implies #[trigger] row_views(rest@)[k]
                == rs.skip(i + 1)[k] by {
                assert(rest@[k] == rest0[k + 1]);
                assert(row_views(rest0)[k + 1] == rs.skip(i)[k + 1]);
            }
            assert(row_views(rest@) =~= rs.skip(i + 1));
            assert(rs.take(i + 1).drop_last() =~= rs.take(i));
            assert(rs.take(i + 1).last() == rs[i]);
        }
        let root = row.root_turn_id;
        let at = row.created_at;
        match row.steps {
            None => {},
            Some(steps) => {
                let mut cur: Vec<ActiveEntry> = Vec::new();
                std::mem::swap(&mut cur, &mut active);
                active = prune_active(cur, root.as_str(), &steps);
                let ghost sv = steps_view(steps@);
                let ghost a_start = pairs_map(active_view(active@));
                let ghost c_start = pairs_map(done_view(done@));
                let mut k: usize = 0;
                proof {
                    assert(sv.take(0) =~= Seq::<StepV>::empty());
                }
                while k < steps.len()
                    invariant
                        k <= steps@.len(),
                        sv == steps_view(steps@),
                        unique_keys(active_view(active@)),
                        unique_keys(done_view(done@)),
                        (pairs_map(active_view(active@)), pairs_map(done_view(done@)))
                            == apply_steps(a_start, c_start, root@, at as int, sv.take(k as int)),
                    decreases steps@.len() - k,
                {
                    apply_step_exec(&mut active, &mut done, root.as_str(), at, &steps[k]);
                    proof {
                        assert(sv.take(k + 1).drop_last() =~= sv.take(k as int));
                        assert(sv.take(k + 1).last() == step_view(steps@[k as int]));
                    }
                    k = k + 1;
                }
                proof {
                    assert(sv.take(steps@.len() as int) =~= sv);
                }
            },
        }
    }
    proof {
        assert(rs.take(n as int) =~= rs);
    }
    done
}


/// The summary of each kind's samples, for the kinds whose samples have one.
pub open spec fn summaries_map(m: Map<Seq<char>, Seq<i64>>) -> Map<Seq<char>, DurationSampleSummary> {
    Map::new(
        |k: Seq<char>| m.contains_key(k) && summary_spec(m[k]) is Some,
        |k: Seq<char>|
            match summary_spec(m[k]) {
                Some(x) => x,
                None => arbitrary(),
            },
    )
}

pub open spec fn summary_entry_view(e: (String, DurationSampleSummary)) -> (Seq<char>, DurationSampleSummary) {
    (e.0@, e.1)
}

pub open spec fn summaries_view(v: Seq<(String, DurationSampleSummary)>) -> Seq<(Seq<char>, DurationSampleSummary)> {
    v.map_values(|e: (String, DurationSampleSummary)| summary_entry_view(e))
}

/// Interquartile summary of each plan step kind's durations, each kind
/// listed once.
pub fn phase_summaries(rows: Vec<PlanObservation>) -> (r: Vec<(String, DurationSampleSummary)>)
    ensures
        unique_keys(summaries_view(r@)),
        pairs_map(summaries_view(r@)) == summaries_map(phase_samples_spec(row_views(rows@))),
{
    let done = phase_samples(rows);
    let ghost dv = done_view(done@);
    let n = done.len();
    let mut out: Vec<(String, DurationSampleSummary)> = Vec::new();
    let mut i: usize = 0;
    proof {
        assert(dv.take(0) =~= Seq::<(Seq<char>, Seq<i64>)>::empty());
        assert(summaries_map(pairs_map(dv.take(0))) =~= Map::<Seq<char>, DurationSampleSummary>::empty());
    }
    while i < n
        invariant
            n == done@.len(),
            i <= n,
            dv == done_view(done@),
            unique_keys(dv),
            unique_keys(summaries_view(out@)),
            pairs_map(summaries_view(out@)) == summaries_map(pairs_map(dv.take(i as int))),
        decreases n - i,
    {
        let ghost m0 = pairs_map(dv.take(i as int));
        let ghost ov = summaries_view(out@);
        let ghost key = dv[i as int].0;
        let ghost vals = dv[i as int].1;
        proof {
            assert(dv.take(i + 1).drop_last() =~= dv.take(i as int));
            assert(dv.take(i + 1).last() == dv[i as int]);
            assert forall|j: int| 0 <= j < dv.take(i as int).len() implies dv.take(i as int)[j].0
                != key by {
                assert(dv.take(i as int)[j] == dv[j]);
            }
            lemma_pairs_absent(dv.take(i as int), key);
            assert(pairs_map(dv.take(i + 1)) == m0.insert(key, vals));
        }
        let (name, samples) = &done[i];
        let samples_copy = samples.clone();
        proof {
            assert(samples_copy@ == vals);
            assert(name@ == key);
        }
        match summarize(samples_copy) {
            Some(summary) => {
                proof {
                    assert forall|j: int| 0 <= j < ov.len() implies ov[j].0 != key by {
                        lemma_pairs_get(ov, j);
                    }
                }
                out.push((name.clone(), summary));
                proof {
                    assert(summaries_view(out@) =~= ov.push((key, summary)));
                    lemma_pairs_push(ov, key, summary);
                    assert(summaries_map(m0.insert(key, vals)) =~= summaries_map(m0).insert(key, summary));
                }
            },
            None => {
                proof {
                    assert(summaries_map(m0.insert(key, vals)) =~= summaries_map(m0));
                }
            },
        }
        i = i + 1;
    }
    proof {
        assert(dv.take(n as int) =~= dv);
    }
    out
}


// ── Arrival order does not matter ────────────────────────────────────────

pub open spec fn time_sorted(s: Seq<RowV>) -> bool {
    forall|i: int, j: int| 0 <= i < j < s.len() ==> s[i].2 <= s[j].2
}

/// No two rows were recorded at the same time.
pub open spec fn distinct_times(s: Seq<RowV>) -> bool {
    forall|i: int, j: int| 0 <= i < j < s.len() ==> s[i].2 != s[j].2
}

proof fn lemma_cons_multiset(a: RowV, t: Seq<RowV>)
    ensures
        (seq![a] + t).to_multiset() == t.to_multiset().insert(a),
{
    broadcast use vstd::seq_lib::group_to_multiset_ensures;

    assert(seq![a] + t =~= t.insert(0, a));
}

proof fn lemma_insert_by_time(s: Seq<RowV>, x: RowV)
    ensures
        insert_by_time(s, x).to_multiset() == s.to_multiset().insert(x),
        time_sorted(s) ==> time_sorted(insert_by_time(s, x)),
        insert_by_time(s, x).len() == s.len() + 1,
    decreases s.len(),
{
    broadcast use vstd::seq_lib::group_to_multiset_ensures;

    if s.len() == 0 {
        lemma_cons_multiset(x, s);
        assert(seq![x] + s =~= seq![x]);
    } else if s[0].2 <= x.2 {
        let rest = s.drop_first();
        lemma_insert_by_time(rest, x);
        let r = insert_by_time(rest, x);
        lemma_cons_multiset(s[0], r);
        lemma_cons_multiset(s[0], rest);
        assert(seq![s[0]] + rest =~= s);
        if time_sorted(s) {
            assert(time_sorted(rest)) by {
                assert forall|i: int, j: int| 0 <= i < j < rest.len() implies rest[i].2 <= rest[j].2 by {
                    assert(rest[i] == s[i + 1] && rest[j] == s[j + 1]);
                }
            }
            let all = seq![s[0]] + r;
            assert forall|i: int, j: int| 0 <= i < j < all.len() implies all[i].2 <= all[j].2 by {
                if i == 0 {
                    assert(all[j] == r[j - 1]);
                    assert(r.to_multiset().count(r[j - 1]) > 0);
                    assert(rest.to_multiset().insert(x).count(r[j - 1]) > 0);
                    if r[j - 1] != x {
                        assert(rest.to_multiset().count(r[j - 1]) > 0);
                        assert(rest.contains(r[j - 1]));
                        let k = choose|k: int| 0 <= k < rest.len() && rest[k] == r[j - 1];
                        assert(s[k + 1] == rest[k]);
                    }
                } else {
                    assert(all[i] == r[i - 1] && all[j] == r[j - 1]);
                }
            }
        }
    } else {
        lemma_cons_multiset(x, s);
        if time_sorted(s) {
            let all = seq![x] + s;
            assert forall|i: int, j: int| 0 <= i < j < all.len() implies all[i].2 <= all[j].2 by {
                if i == 0 {
                    assert(all[j] == s[j - 1]);
                    assert(s[0].2 <= s[j - 1].2);
                } else {
                    assert(all[i] == s[i - 1] && all[j] == s[j - 1]);
                }
            }
        }
    }
}

proof fn lemma_sort_by_time(s: Seq<RowV>)
    ensures
        sort_by_time(s).to_multiset() == s.to_multiset(),
        time_sorted(sort_by_time(s)),
        sort_by_time(s).len() == s.len(),
    decreases s.len(),
{
    broadcast use vstd::seq_lib::group_to_multiset_ensures;

    if s.len() == 0 {
        assert(s =~= Seq::<RowV>::empty());
    } else {
        lemma_sort_by_time(s.drop_last());
        lemma_insert_by_time(sort_by_time(s.drop_last()), s.last());
        assert(s.drop_last().push(s.last()) =~= s);
    }
}

proof fn lemma_sorted_unique(s: Seq<RowV>, t: Seq<RowV>)
    requires
        time_sorted(s),
        time_sorted(t),
        distinct_times(s),
        s.to_multiset() == t.to_multiset(),
    ensures
        s == t,
    decreases s.len(),
{
    broadcast use vstd::seq_lib::group_to_multiset_ensures;

    assert(s.len() == s.to_multiset().len());
    assert(t.len() == t.to_multiset().len());
    if s.len() == 0 {
        assert(s =~= t);
    } else {
        assert(s.to_multiset().count(s[0]) > 0);
        assert(t.contains(s[0]));
        let k = choose|k: int| 0 <= k < t.len() && t[k] == s[0];
        assert(t.to_multiset().count(t[0]) > 0);
        assert(s.contains(t[0]));
        let k2 = choose|k2: int| 0 <= k2 < s.len() && s[k2] == t[0];
        assert(t[0].2 <= t[k].2);
        assert(s[0].2 <= s[k2].2);
        if k2 != 0 {
            assert(s[0].2 != s[k2].2);
        }
        assert(t[0] == s[0]);
        assert(s.remove(0) =~= s.drop_first());
        assert(t.remove(0) =~= t.drop_first());
        let s1 = s.drop_first();
        let t1 = t.drop_first();
        assert(time_sorted(s1)) by {
            assert forall|i: int, j: int| 0 <= i < j < s1.len() implies s1[i].2 <= s1[j].2 by {
                assert(s1[i] == s[i + 1] && s1[j] == s[j + 1]);
            }
        }
        assert(time_sorted(t1)) by {
            assert forall|i: int, j: int| 0 <= i < j < t1.len() implies t1[i].2 <= t1[j].2 by {
                assert(t1[i] == t[i + 1] && t1[j] == t[j + 1]);
            }
        }
        assert(distinct_times(s1)) by {
            assert forall|i: int, j: int| 0 <= i < j < s1.len() implies s1[i].2 != s1[j].2 by {
                assert(s1[i] == s[i + 1] && s1[j] == s[j + 1]);
            }
        }
        lemma_sorted_unique(s1, t1);
        assert(s =~= seq![s[0]] + s1);
        assert(t =~= seq![t[0]] + t1);
    }
}

proof fn lemma_distinct_times_kept(a: Seq<RowV>, s: Seq<RowV>)
    requires
        distinct_times(a),
        s.to_multiset() == a.to_multiset(),
    ensures
        distinct_times(s),
{
    broadcast use vstd::seq_lib::group_to_multiset_ensures;

    assert(a.no_duplicates()) by {
        assert forall|i: int, j: int| 0 <= i < a.len() && 0 <= j < a.len() && i != j implies a[i]
            != a[j] by {
            if i < j {
                assert(a[i].2 != a[j].2);
            } else {
                assert(a[j].2 != a[i].2);
            }
        }
    }
    a.lemma_multiset_has_no_duplicates();
    s.lemma_multiset_has_no_duplicates_conv();
    assert forall|i: int, j: int| 0 <= i < j < s.len() implies s[i].2 != s[j].2 by {
        assert(s.to_multiset().count(s[i]) > 0);
        assert(s.to_multiset().count(s[j]) > 0);
        assert(a.contains(s[i]));
        assert(a.contains(s[j]));
        let p = choose|p: int| 0 <= p < a.len() && a[p] == s[i];
        let q = choose|q: int| 0 <= q < a.len() && a[q] == s[j];
        assert(s[i] != s[j]);
        if s[i].2 == s[j].2 {
            assert(p != q);
            if p < q {
                assert(a[p].2 != a[q].2);
            } else {
                assert(a[q].2 != a[p].2);
            }
        }
    }
}

/// Rows recorded at distinct times give the same phase durations whatever
/// order they arrive in.
pub proof fn lemma_phase_samples_order_free(a: Seq<RowV>, b: Seq<RowV>)
    requires
        distinct_times(a),
        a.to_multiset() == b.to_multiset(),
    ensures
        phase_samples_spec(a) == phase_samples_spec(b),
{
    lemma_sort_by_time(a);
    lemma_sort_by_time(b);
    lemma_distinct_times_kept(a, sort_by_time(a));
    lemma_sorted_unique(sort_by_time(a), sort_by_time(b));
}

} // verus!
