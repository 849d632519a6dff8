//! Interjections: messages a user sends to a running task, queued per
//! session until the scheduler drains them at its next dispatch.
use vstd::prelude::*;
use crate::errors::AppError;
use crate::text::{chars_of, owned, str_eq, trim_str};

verus! {

broadcast use vstd::string::group_string_axioms;

/// A message queued for a running session.
#[derive(Debug)]
pub struct Interjection {
    pub session_id: String,
    pub message: String,
    /// Unix time in milliseconds.
    pub at: i64,
}

/// An interjection by its contents.
pub type InterjectionView = (Seq<char>, Seq<char>, i64);

pub open spec fn interjection_view(i: Interjection) -> InterjectionView {
    (i.session_id@, i.message@, i.at)
}

pub open spec fn interjection_views(s: Seq<Interjection>) -> Seq<InterjectionView> {
    s.map_values(|i: Interjection| interjection_view(i))
}

/// The pending interjections of each session that has any.
#[derive(Debug)]
pub struct InterjectionQueue {
    entries: Vec<(String, Vec<Interjection>)>,
}

/// Sessions with their pending interjections.
pub type QueueView = Seq<(Seq<char>, Seq<InterjectionView>)>;

/// What is pending for `session`.
pub open spec fn pending(q: QueueView, session: Seq<char>) -> Seq<InterjectionView>
    decreases q.len(),
{
    if q.len() == 0 {
        Seq::empty()
    } else if q.last().0 == session {
        q.last().1
    } else {
        pending(q.drop_last(), session)
    }
}

/// Each session appears at most once.
pub open spec fn sessions_unique(q: QueueView) -> bool {
    forall|i: int, j: int| 0 <= i < j < q.len() ==> q[i].0 != q[j].0
}

/// The queue once `session`'s interjections are taken.
pub open spec fn drained(q: QueueView, session: Seq<char>) -> QueueView
    decreases q.len(),
{
    if q.len() == 0 {
        Seq::empty()
    } else if q.last().0 == session {
        drained(q.drop_last(), session)
    } else {
        drained(q.drop_last(), session).push(q.last())
    }
}

/// The queue with `x` added to the end of `session`'s interjections.
pub open spec fn enqueued(q: QueueView, session: Seq<char>, x: InterjectionView) -> QueueView {
    if exists|i: int| 0 <= i < q.len() && q[i].0 == session {
        let i = choose|i: int| 0 <= i < q.len() && q[i].0 == session;
        q.update(i, (session, q[i].1.push(x)))
    } else {
        q.push((session, seq![x]))
    }
}

pub open spec fn entry_view(e: (String, Vec<Interjection>)) -> (Seq<char>, Seq<InterjectionView>) {
    (e.0@, interjection_views(e.1@))
}

pub open spec fn entries_view(s: Seq<(String, Vec<Interjection>)>) -> QueueView {
    s.map_values(|e: (String, Vec<Interjection>)| entry_view(e))
}

impl InterjectionQueue {
    pub closed spec fn view(&self) -> QueueView {
        entries_view(self.entries@)
    }

    #[verifier::type_invariant]
    pub closed spec fn well_formed(&self) -> bool {
        sessions_unique(self.view())
    }

    /// An empty queue.
    pub fn new() -> (q: Self)
        ensures
            q.view() == Seq::<(Seq<char>, Seq<InterjectionView>)>::empty(),
    {
        let q = InterjectionQueue { entries: Vec::new() };
        assert(q.view() =~= Seq::<(Seq<char>, Seq<InterjectionView>)>::empty());
        q
    }

    fn position(&self, session: &str) -> (r: Option<usize>)
        ensures
            match r {
                Some(k) => k < self.view().len() && self.view()[k as int].0 == session@,
                None => forall|i: int| 0 <= i < self.view().len() ==> self.view()[i].0 != session@,
            },
    {
        let mut i: usize = 0;
        while i < self.entries.len()
            invariant
                i <= self.entries@.len(),
                forall|k: int| 0 <= k < i ==> self.view()[k].0 != session@,
            decreases self.entries@.len() - i,
        {
            if str_eq(self.entries[i].0.as_str(), session) {
                return Some(i);
            }
            i = i + 1;
        }
        None
    }

    /// Queues a message for a session, trimmed; a blank message is refused
    /// and changes nothing.
    pub fn queue_interjection(&mut self, session_id: &str, message: &str, at: i64) -> (r: Result<
        (),
        AppError,
    >)
        ensures
            r is Err <==> crate::text::trim(message@).len() == 0,
            r matches Err(e) ==> e.message() == "interjection cannot be empty"@ && final(self).view()
                == old(self).view(),
            r is Ok ==> final(self).view() == enqueued(
                old(self).view(),
                session_id@,
                (session_id@, crate::text::trim(message@), at),
            ),
    {
        let trimmed = trim_str(message);
        let tv = chars_of(trimmed.as_str());
        if tv.len() == 0 {
            return Err(AppError::Other(owned("interjection cannot be empty")));
        }
        proof {
            use_type_invariant(&*self);
        }
        let entry = Interjection { session_id: owned(session_id), message: trimmed, at };
        let ghost x = interjection_view(entry);
        let ghost q0 = self.view();
        match self.position(session_id) {
            Some(k) => {
                let mut entries: Vec<(String, Vec<Interjection>)> = Vec::new();
                std::mem::swap(&mut entries, &mut self.entries);
                let ghost e0 = entries@;
                let (name, mut list) = entries.remove(k);
                list.push(entry);
                let ghost l2 = list@;
                entries.insert(k, (name, list));
                proof {
                    assert(interjection_views(l2) =~= q0[k as int].1.push(x));
                    assert(entries@ =~= e0.update(k as int, entries@[k as int]));
                    let nv = entries_view(entries@);
                    assert(nv =~= q0.update(k as int, (session_id@, q0[k as int].1.push(x))));
                    assert forall|a: int, b: int| 0 <= a < b < nv.len() implies nv[a].0 != nv[b].0 by {
                        assert(nv[a].0 == q0[a].0);
                        assert(nv[b].0 == q0[b].0);
                    }
                }
                self.entries = entries;
                proof {
                    assert(self.view() =~= q0.update(k as int, (session_id@, q0[k as int].1.push(x))));
                    let c = choose|i: int| 0 <= i < q0.len() && q0[i].0 == session_id@;
                    assert(c == k) by {
                        if c != k {
                            if c < k {
                                assert(q0[c].0 != q0[k as int].0);
                            } else {
                                assert(q0[k as int].0 != q0[c].0);
                            }
                        }
                    }
                }
            },
            None => {
                let mut list = Vec::new();
                list.push(entry);
                let mut entries: Vec<(String, Vec<Interjection>)> = Vec::new();
                std::mem::swap(&mut entries, &mut self.entries);
                let ghost e0 = entries@;
                let ghost ls = list@;
                entries.push((owned(session_id), list));
                proof {
                    assert(entries_view(e0) == q0);
                    assert(interjection_views(ls) =~= seq![x]);
                    assert(entries@ =~= e0.push(entries@.last()));
                    let nv = entries_view(entries@);
                    assert(nv =~= q0.push((session_id@, seq![x])));
                    assert forall|a: int, b: int| 0 <= a < b < nv.len() implies nv[a].0 != nv[b].0 by {
                        assert(nv[a] == q0[a]);
                        if b < q0.len() {
                            assert(nv[b] == q0[b]);
                        }
                    }
                }
                self.entries = entries;
                proof {
                    assert(self.view() =~= q0.push((session_id@, seq![x])));
                }
            },
        }
        Ok(())
    }

    /// Takes and returns a session's pending interjections.
    pub fn drain_for_session(&mut self, session_id: &str) -> (r: Vec<Interjection>)
        ensures
            interjection_views(r@) == pending(old(self).view(), session_id@),
            final(self).view() == drained(old(self).view(), session_id@),
    {
        proof {
            use_type_invariant(&*self);
        }
        let ghost q0 = self.view();
        let mut rest: Vec<(String, Vec<Interjection>)> = Vec::new();
        std::mem::swap(&mut rest, &mut self.entries);
        let mut kept: Vec<(String, Vec<Interjection>)> = Vec::new();
        let mut taken: Vec<Interjection> = Vec::new();
        let n = rest.len();
        let mut i: usize = 0;
        proof {
            assert(q0.take(0) =~= Seq::<(Seq<char>, Seq<InterjectionView>)>::empty());
        }
        while rest.len() > 0
            invariant
                rest@.len() <= n,
                q0.len() == n,
                i == n - rest@.len(),
                sessions_unique(q0),
                entries_view(rest@)
                    == q0.skip(i as int),
                entries_view(kept@)
                    == drained(q0.take(i as int), session_id@),
                interjection_views(taken@) == pending(q0.take(i as int), session_id@),
            decreases rest@.len(),
        {
            let ghost r0 = rest@;
            let e = rest.remove(0);
            proof {
                assert forall|j: int| 0 <= j < rest@.len() implies #[trigger] entries_view(rest@)[j] == q0.skip(i + 1)[j] by {
                    assert(rest@[j] == r0[j + 1]);
                    assert(entries_view(r0)[j + 1] == q0.skip(i as int)[j + 1]);
                }
                assert(entries_view(r0)[0] == q0.skip(i as int)[0]);
                assert(entries_view(rest@) =~= q0.skip(i + 1));
                assert(q0.take(i + 1).drop_last() =~= q0.take(i as int));
                assert(q0.take(i + 1).last() == q0[i as int]);
            }
            let (name, list) = e;
            if str_eq(name.as_str(), session_id) {
                proof {
                    assert forall|k: int| 0 <= k < i implies q0[k].0 != session_id@ by {
                        assert(q0[k].0 != q0[i as int].0);
                    }
                    lemma_pending_absent(q0.take(i as int), session_id@);
                }
                taken = list;
            } else {
                let ghost before = kept@;
                kept.push((name, list));
                assert(entries_view(kept@) =~= entries_view(before).push(q0[i as int]));
            }
            i = i + 1;
        }
        proof {
            assert(q0.take(n as int) =~= q0);
            lemma_drained_unique(q0, session_id@);
        }
        self.entries = kept;
        taken
    }

    /// A copy of a session's pending interjections.
    pub fn list_interjections(&self, session_id: &str) -> (r: Vec<Interjection>)
        ensures
            interjection_views(r@) == pending(self.view(), session_id@),
    {
        proof {
            use_type_invariant(self);
        }
        match self.position(session_id) {
            None => {
                proof {
                    lemma_pending_absent(self.view(), session_id@);
                }
                let r: Vec<Interjection> = Vec::new();
                assert(interjection_views(r@) =~= Seq::<InterjectionView>::empty());
                r
            },
            Some(k) => {
                let list = &self.entries[k].1;
                let mut out: Vec<Interjection> = Vec::new();
                let mut j: usize = 0;
                while j < list.len()
                    invariant
                        j <= list@.len(),
                        interjection_views(out@) == interjection_views(list@).take(j as int),
                    decreases list@.len() - j,
                {
                    let x = &list[j];
                    let ghost before = out@;
                    assert(interjection_views(before).len() == j);
                    out.push(
                        Interjection {
                            session_id: x.session_id.clone(),
                            message: x.message.clone(),
                            at: x.at,
                        },
                    );
                    proof {
                        assert(interjection_view(out@[j as int]) == interjection_view(list@[j as int]));
                        assert(interjection_views(out@) =~= interjection_views(before).push(
                            interjection_view(list@[j as int]),
                        ));
                    }
                    assert(interjection_views(out@) =~= interjection_views(list@).take(j + 1));
                    j = j + 1;
                }
                proof {
                    assert(interjection_views(list@).take(list@.len() as int) =~= interjection_views(
                        list@,
                    ));
                    lemma_pending_at(self.view(), session_id@, k as int);
                }
                out
            },
        }
    }
}

proof fn lemma_pending_absent(q: QueueView, session: Seq<char>)
    requires
        forall|i: int| 0 <= i < q.len() ==> q[i].0 != session,
    ensures
        pending(q, session) == Seq::<InterjectionView>::empty(),
        drained(q, session) == q,
    decreases q.len(),
{
    if q.len() > 0 {
        assert(q[q.len() - 1] == q.last());
        assert forall|i: int| 0 <= i < q.drop_last().len() implies q.drop_last()[i].0 != session by {
            assert(q.drop_last()[i] == q[i]);
        }
        lemma_pending_absent(q.drop_last(), session);
        assert(q.drop_last().push(q.last()) =~= q);
    }
}

proof fn lemma_pending_at(q: QueueView, session: Seq<char>, k: int)
    requires
        sessions_unique(q),
        0 <= k < q.len(),
        q[k].0 == session,
    ensures
        pending(q, session) == q[k].1,
    decreases q.len(),
{
    if k < q.len() - 1 {
        assert(q.last() == q[q.len() - 1]);
        assert(q[k].0 != q[q.len() - 1].0);
        assert(sessions_unique(q.drop_last()));
        assert(q.drop_last()[k] == q[k]);
        lemma_pending_at(q.drop_last(), session, k);
    }
}

proof fn lemma_drained_unique(q: QueueView, session: Seq<char>)
    requires
        sessions_unique(q),
    ensures
        sessions_unique(drained(q, session)),
        forall|i: int| 0 <= i < drained(q, session).len() ==> #[trigger] drained(q, session)[i].0
            != session,
        forall|i: int|
            0 <= i < drained(q, session).len() ==> exists|j: int|
                0 <= j < q.len() && q[j] == #[trigger] drained(q, session)[i],
    decreases q.len(),
{
    if q.len() > 0 {
        let d = q.drop_last();
        assert(sessions_unique(d));
        lemma_drained_unique(d, session);
        if q.last().0 != session {
            let dd = drained(d, session);
            assert forall|i: int| 0 <= i < dd.len() implies dd[i].0 != q.last().0 by {
                let j = choose|j: int| 0 <= j < d.len() && d[j] == dd[i];
                assert(q[j] == d[j]);
                assert(q[j].0 != q[q.len() - 1].0);
            }
            assert forall|i: int|
                0 <= i < dd.push(q.last()).len() implies exists|j: int|
                    0 <= j < q.len() && q[j] == #[trigger] dd.push(q.last())[i] by {
                if i < dd.len() {
                    let j = choose|j: int| 0 <= j < d.len() && d[j] == dd[i];
                    assert(q[j] == d[j]);
                } else {
                    assert(q[q.len() - 1] == q.last());
                }
            }
        } else {
            assert forall|i: int|
                0 <= i < drained(d, session).len() implies exists|j: int|
                    0 <= j < q.len() && q[j] == #[trigger] drained(d, session)[i] by {
                let j = choose|j: int| 0 <= j < d.len() && d[j] == drained(d, session)[i];
                assert(q[j] == d[j]);
            }
        }
    }
}

/// Once a session is drained it has nothing pending, and queueing adds to
/// the end of what is pending for that session only.
pub proof fn lemma_queue_laws(q: QueueView, session: Seq<char>, other: Seq<char>, x: InterjectionView)
    requires
        sessions_unique(q),
        other != session,
    ensures
        pending(drained(q, session), session) == Seq::<InterjectionView>::empty(),
        pending(drained(q, session), other) == pending(q, other),
        pending(enqueued(q, session, x), session) == pending(q, session).push(x),
        pending(enqueued(q, session, x), other) == pending(q, other),
{
    lemma_drained_unique(q, session);
    lemma_pending_absent(drained(q, session), session);
    lemma_pending_other(q, session, other);
    lemma_enqueued(q, session, other, x);
}

proof fn lemma_pending_other(q: QueueView, session: Seq<char>, other: Seq<char>)
    requires
        other != session,
    ensures
        pending(drained(q, session), other) == pending(q, other),
    decreases q.len(),
{
    if q.len() > 0 {
        lemma_pending_other(q.drop_last(), session, other);
        if q.last().0 != session {
            assert(drained(q.drop_last(), session).push(q.last()).drop_last() =~= drained(
                q.drop_last(),
                session,
            ));
        }
    }
}

proof fn lemma_enqueued(q: QueueView, session: Seq<char>, other: Seq<char>, x: InterjectionView)
    requires
        sessions_unique(q),
        other != session,
    ensures
        pending(enqueued(q, session, x), session) == pending(q, session).push(x),
        pending(enqueued(q, session, x), other) == pending(q, other),
{
    if exists|i: int| 0 <= i < q.len() && q[i].0 == session {
        let i = choose|i: int| 0 <= i < q.len() && q[i].0 == session;
        let u = q.update(i, (session, q[i].1.push(x)));
        assert(sessions_unique(u)) by {
            assert forall|a: int, b: int| 0 <= a < b < u.len() implies u[a].0 != u[b].0 by {
                assert(u[a].0 == q[a].0);
                assert(u[b].0 == q[b].0);
            }
        }
        lemma_pending_at(q, session, i);
        lemma_pending_at(u, session, i);
        if exists|j: int| 0 <= j < q.len() && q[j].0 == other {
            let j = choose|j: int| 0 <= j < q.len() && q[j].0 == other;
            lemma_pending_at(q, other, j);
            assert(u[j] == q[j]);
            lemma_pending_at(u, other, j);
        } else {
            lemma_pending_absent(q, other);
            assert forall|j: int| 0 <= j < u.len() implies u[j].0 != other by {
                if j != i {
                    assert(u[j] == q[j]);
                }
            }
            lemma_pending_absent(u, other);
        }
    } else {
        lemma_pending_absent(q, session);
        let u = q.push((session, seq![x]));
        assert(u.drop_last() =~= q);
        assert(seq![x] =~= Seq::<InterjectionView>::empty().push(x));
    }
}

} // verus!
