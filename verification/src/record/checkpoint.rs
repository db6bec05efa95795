//! Calls on a record that can be taken back together.

use super::{edited, redid, undid, Model, Record};
use crate::entry::Entry;
use crate::socket::Slot;
use crate::{present, Action};
use std::collections::VecDeque;
use vstd::prelude::*;

verus! {

/// A call made through a checkpoint, with what is needed to take it back.
#[derive(Clone, Debug)]
pub enum CheckpointEntry<E> {
    /// An edit: the saved index before it, if the edit discarded it, and the
    /// entries that the edit discarded.
    Edit {
        /// The saved index that the edit discarded.
        saved: Option<usize>,
        /// The entries that the edit discarded.
        tail: VecDeque<Entry<E>>,
    },
    /// An undo.
    Undo,
    /// A redo.
    Redo,
}

/// What taking back one call does to the record `r` and the target `t`: it
/// turns them into `q` and `u`, and `out` is what was returned.
///
/// An edit is taken back by an undo; when that undo did something, the last
/// entry is dropped, the discarded entries come back, and the discarded saved
/// index comes back when the record has none. An undo is taken back by a
/// redo and a redo by an undo.
pub open spec fn cancel_step<E: Action, S>(
    r: Record<E, S>,
    t: E::Target,
    entry: CheckpointEntry<E>,
    q: Record<E, S>,
    u: E::Target,
    out: Option<E::Output>,
) -> bool {
    match entry {
        CheckpointEntry::Edit { saved, tail } => exists|mid: Record<E, S>|
            #[trigger] undid(r, t, mid, u, out) && if out is None {
                q == mid
            } else {
                &&& q.model() == (Model {
                    entries: mid.model().entries.drop_last() + tail@,
                    saved: match mid.model().saved {
                        Some(s) => Some(s),
                        None => saved,
                    },
                    ..mid.model()
                })
                &&& q.spec_socket() == mid.spec_socket()
            },
        CheckpointEntry::Undo => redid(r, t, q, u, out),
        CheckpointEntry::Redo => undid(r, t, q, u, out),
    }
}

/// The records `rs` and the targets `ts` follow each other by taking back the
/// calls `entries`, the last one first, which returns `outs`.
pub open spec fn cancel_trace<E: Action, S>(
    entries: Seq<CheckpointEntry<E>>,
    rs: Seq<Record<E, S>>,
    ts: Seq<E::Target>,
    outs: Seq<Option<E::Output>>,
) -> bool {
    let n = entries.len();
    &&& rs.len() == n + 1
    &&& ts.len() == n + 1
    &&& outs.len() == n
    &&& forall|k: int|
        0 <= k < n ==> #[trigger] cancel_step(rs[k], ts[k], entries[n - 1 - k], rs[k + 1], ts[k + 1], outs[k])
}

/// The record `q` and the target `u` are reached from `r` and `t` by taking
/// back the calls `entries`, the last one first, and `outs` are the outputs
/// that were returned.
pub open spec fn cancelled<E: Action, S>(
    r: Record<E, S>,
    t: E::Target,
    entries: Seq<CheckpointEntry<E>>,
    q: Record<E, S>,
    u: E::Target,
    outs: Seq<E::Output>,
) -> bool {
    exists|rs: Seq<Record<E, S>>, ts: Seq<E::Target>, os: Seq<Option<E::Output>>|
        #[trigger] cancel_trace(entries, rs, ts, os) && rs[0] == r && ts[0] == t && rs.last() == q
            && ts.last() == u && present(os) == outs
}

/// Bounds on the length of the record, and on the number of entries above its
/// index, after a call and before the next one: `prev` before the call, `cur`
/// after it. They keep the record within its limit when the calls are taken
/// back.
pub open spec fn bounded<E>(prev: (int, int), cur: (int, int), entry: CheckpointEntry<E>) -> bool {
    &&& cur.0 >= 0
    &&& cur.1 >= 0
    &&& match entry {
        CheckpointEntry::Edit { saved, tail } => {
            &&& cur.0 - 1 + tail@.len() <= prev.0
            &&& tail@.len() <= prev.1
            &&& cur.1 == 0
        },
        CheckpointEntry::Undo => cur.0 == prev.0 && cur.1 == prev.1 + 1,
        CheckpointEntry::Redo => cur.0 == prev.0 && cur.1 + 1 == prev.1,
    }
}

/// The bounds before call `k`: `start` before the first call, else those
/// after call `k - 1`.
pub open spec fn bound_at(start: (int, int), bounds: Seq<(int, int)>, k: int) -> (int, int) {
    if k == 0 {
        start
    } else {
        bounds[k - 1]
    }
}

/// Wraps a record and gives it checkpoint functionality: the calls made
/// through it can be taken back together.
pub struct Checkpoint<'a, E, S> {
    record: &'a mut Record<E, S>,
    entries: Vec<CheckpointEntry<E>>,
    bounds: Ghost<Seq<(int, int)>>,
    start: Ghost<(int, int)>,
}

impl<'a, E, S> Checkpoint<'a, E, S> {
    /// The record, as it is while the checkpoint holds it.
    pub closed spec fn spec_record(&self) -> Record<E, S> {
        *self.record
    }

    /// The borrow of the record.
    pub closed spec fn record_ref(&self) -> &'a mut Record<E, S> {
        self.record
    }

    /// The calls made through the checkpoint, oldest first.
    pub closed spec fn calls(&self) -> Seq<CheckpointEntry<E>> {
        self.entries@
    }

    /// The bounds before call `k`.
    closed spec fn bound_before(&self, k: int) -> (int, int) {
        bound_at(self.start@, self.bounds@, k)
    }

    /// The checkpoint is well formed: its record is, and the record stays
    /// within its limit when the calls are taken back.
    pub closed spec fn wf(&self) -> bool {
        let m = self.record.model();
        let n = self.entries@.len();
        &&& self.record.wf()
        &&& self.bounds@.len() == n
        &&& 0 <= self.start@.0 <= m.limit
        &&& 0 <= self.start@.1
        &&& forall|k: int| 0 <= k < n ==> self.bounds@[k].0 <= m.limit
        &&& forall|k: int| 0 <= k < n ==> #[trigger] bounded(self.bound_before(k), self.bounds@[k], self.entries@[k])
        &&& m.entries.len() <= self.bound_before(n as int).0
        &&& m.entries.len() - m.index <= self.bound_before(n as int).1
    }

    /// An empty checkpoint on `record`.
    pub(crate) fn new(record: &'a mut Record<E, S>) -> (c: Checkpoint<'a, E, S>)
        requires
            old(record).wf(),
        ensures
            c.wf(),
            c.spec_record() == *old(record),
            c.calls().len() == 0,
            *final(c.record_ref()) == *final(record),
    {
        let ghost m = record.model();
        Checkpoint {
            record,
            entries: Vec::new(),
            bounds: Ghost(Seq::empty()),
            start: Ghost((m.entries.len() as int, m.entries.len() - m.index)),
        }
    }

    /// Reserves capacity for at least `additional` more calls.
    pub fn reserve(&mut self, additional: usize)
        ensures
            old(self).wf() ==> final(self).wf(),
            final(self).spec_record() == old(self).spec_record(),
            final(self).calls() == old(self).calls(),
            *final(final(self).record_ref()) == *final(old(self).record_ref()),
    {
        self.entries.reserve(additional);
        proof {
            if old(self).wf() {
                assert forall|k: int| 0 <= k < self.entries@.len() implies #[trigger] bounded(
                    self.bound_before(k),
                    self.bounds@[k],
                    self.entries@[k],
                ) by {
                    assert(self.bound_before(k) == old(self).bound_before(k));
                    assert(bounded(old(self).bound_before(k), old(self).bounds@[k], old(self).entries@[k]));
                }
                assert(self.bound_before(self.entries@.len() as int) == old(self).bound_before(old(self).entries@.len() as int));
            }
        }
    }

    /// Keeps the changes: the record stays as it is.
    pub fn commit(self)
        ensures
            *final(self.record_ref()) == self.spec_record(),
    {
    }
}

impl<'a, E: Action, S: Slot> Checkpoint<'a, E, S> {
    /// Calls [`Record::edit`] and keeps what is needed to take it back.
    pub fn edit(&mut self, target: &mut E::Target, edit: E) -> (out: E::Output)
        requires
            old(self).wf(),
        ensures
            final(self).wf(),
            edited(old(self).spec_record(), *old(target), edit, final(self).spec_record(), *final(target), out),
            final(self).calls().len() == old(self).calls().len() + 1,
            final(self).calls().drop_last() == old(self).calls(),
            final(self).calls().last() matches CheckpointEntry::Edit { saved, tail } && tail@
                == old(self).spec_record().model().entries.skip(old(self).spec_record().model().index as int)
                && saved == (match old(self).spec_record().model().saved {
                Some(s) => if s > old(self).spec_record().model().index { Some(s) } else { None },
                None => None,
            }),
            *final(final(self).record_ref()) == *final(old(self).record_ref()),
    {
        let ghost m = self.record.model();
        let ghost prev = self.bound_before(self.entries@.len() as int);
        let (out, _, tail, saved) = self.record.edit_and_push(target, Entry::new(edit));
        let ghost n = self.record.model();
        let ghost cur = (n.entries.len() as int, 0int);
        self.entries.push(CheckpointEntry::Edit { saved, tail });
        proof {
            self.bounds@ = self.bounds@.push(cur);
            let k = self.entries@.len() - 1;
            assert(self.bound_before(k) == prev);
            assert(n.entries.len() <= m.index + 1);
            assert(n.entries.len() == n.index);
            assert(bounded(prev, cur, self.entries@[k]));
            assert forall|j: int| 0 <= j < self.entries@.len() implies #[trigger] bounded(
                self.bound_before(j),
                self.bounds@[j],
                self.entries@[j],
            ) by {
                if j < k {
                    assert(self.bound_before(j) == old(self).bound_before(j));
                    assert(bounded(old(self).bound_before(j), old(self).bounds@[j], old(self).entries@[j]));
                }
            }
            assert(self.entries@.drop_last() =~= old(self).entries@);
        }
        out
    }

    /// Calls [`Record::undo`], and keeps the call when it did something.
    pub fn undo(&mut self, target: &mut E::Target) -> (res: Option<E::Output>)
        requires
            old(self).wf(),
        ensures
            final(self).wf(),
            undid(old(self).spec_record(), *old(target), final(self).spec_record(), *final(target), res),
            res is Some ==> final(self).calls() == old(self).calls().push(CheckpointEntry::Undo),
            res is None ==> final(self).calls() == old(self).calls(),
            *final(final(self).record_ref()) == *final(old(self).record_ref()),
    {
        let ghost prev = self.bound_before(self.entries@.len() as int);
        let res = self.record.undo(target);
        assert(res is None ==> self.spec_record() == old(self).spec_record());
        assert(self.record.model().limit == old(self).record.model().limit);
        assert(self.record.model().entries.len() == old(self).record.model().entries.len());
        assert(prev.0 <= self.record.model().limit);
        if res.is_some() {
            self.entries.push(CheckpointEntry::Undo);
            proof {
                self.bounds@ = self.bounds@.push((prev.0, prev.1 + 1));
                let k = self.entries@.len() - 1;
                assert(self.bound_before(k) == prev);
                assert(self.bound_before(k + 1) == (prev.0, prev.1 + 1));
                assert forall|j: int| 0 <= j < self.entries@.len() implies #[trigger] bounded(
                    self.bound_before(j),
                    self.bounds@[j],
                    self.entries@[j],
                ) by {
                    if j < k {
                        assert(self.bound_before(j) == old(self).bound_before(j));
                        assert(bounded(old(self).bound_before(j), old(self).bounds@[j], old(self).entries@[j]));
                    }
                }
            }
        }
        proof {
            let m = self.record.model();
            let n = self.entries@.len();
            assert(self.bounds@.len() == n);
            assert(0 <= self.start@.0 <= m.limit);
            assert(forall|k: int| 0 <= k < n ==> self.bounds@[k].0 <= m.limit);
            assert(m.entries.len() <= self.bound_before(n as int).0);
            assert(m.entries.len() - m.index <= self.bound_before(n as int).1);
            assert forall|j: int| 0 <= j < n implies #[trigger] bounded(
                self.bound_before(j),
                self.bounds@[j],
                self.entries@[j],
            ) by {
                if j < old(self).entries@.len() {
                    assert(self.bound_before(j) == old(self).bound_before(j));
                    assert(bounded(old(self).bound_before(j), old(self).bounds@[j], old(self).entries@[j]));
                }
            }
        }
        res
    }

    /// Calls [`Record::redo`], and keeps the call when it did something.
    pub fn redo(&mut self, target: &mut E::Target) -> (res: Option<E::Output>)
        requires
            old(self).wf(),
        ensures
            final(self).wf(),
            redid(old(self).spec_record(), *old(target), final(self).spec_record(), *final(target), res),
            res is Some ==> final(self).calls() == old(self).calls().push(CheckpointEntry::Redo),
            res is None ==> final(self).calls() == old(self).calls(),
            *final(final(self).record_ref()) == *final(old(self).record_ref()),
    {
        let ghost prev = self.bound_before(self.entries@.len() as int);
        let res = self.record.redo(target);
        assert(res is None ==> self.spec_record() == old(self).spec_record());
        assert(self.record.model().limit == old(self).record.model().limit);
        assert(self.record.model().entries.len() == old(self).record.model().entries.len());
        assert(prev.0 <= self.record.model().limit);
        if res.is_some() {
            self.entries.push(CheckpointEntry::Redo);
            proof {
                self.bounds@ = self.bounds@.push((prev.0, prev.1 - 1));
                let k = self.entries@.len() - 1;
                assert(self.bound_before(k) == prev);
                assert(self.bound_before(k + 1) == (prev.0, prev.1 - 1));
                assert forall|j: int| 0 <= j < self.entries@.len() implies #[trigger] bounded(
                    self.bound_before(j),
                    self.bounds@[j],
                    self.entries@[j],
                ) by {
                    if j < k {
                        assert(self.bound_before(j) == old(self).bound_before(j));
                        assert(bounded(old(self).bound_before(j), old(self).bounds@[j], old(self).entries@[j]));
                    }
                }
            }
        }
        proof {
            let m = self.record.model();
            let n = self.entries@.len();
            assert(self.bounds@.len() == n);
            assert(0 <= self.start@.0 <= m.limit);
            assert(forall|k: int| 0 <= k < n ==> self.bounds@[k].0 <= m.limit);
            assert(m.entries.len() <= self.bound_before(n as int).0);
            assert(m.entries.len() - m.index <= self.bound_before(n as int).1);
            assert forall|j: int| 0 <= j < n implies #[trigger] bounded(
                self.bound_before(j),
                self.bounds@[j],
                self.entries@[j],
            ) by {
                if j < old(self).entries@.len() {
                    assert(self.bound_before(j) == old(self).bound_before(j));
                    assert(bounded(old(self).bound_before(j), old(self).bounds@[j], old(self).entries@[j]));
                }
            }
        }
        res
    }

    /// Takes back the calls made through the checkpoint, the last one first,
    /// and returns the outputs of the calls that returned one.
    pub fn cancel(self, target: &mut E::Target) -> (res: Vec<E::Output>)
        requires
            self.wf(),
        ensures
            final(self.record_ref()).wf(),
            cancelled(self.spec_record(), *old(target), self.calls(), *final(self.record_ref()), *final(target), res@),
    {
        let ghost all = self.entries@;
        let ghost n = all.len();
        let ghost r0 = *self.record;
        let ghost t0 = *target;
        let ghost bounds0 = self.bounds@;
        let ghost start = self.start@;
        let Checkpoint { record, mut entries, bounds, start: _ } = self;
        let ghost mut bs = bounds@;
        let mut outputs: Vec<E::Output> = Vec::new();
        let ghost mut rs: Seq<Record<E, S>> = seq![r0];
        let ghost mut ts: Seq<E::Target> = seq![t0];
        let ghost mut os: Seq<Option<E::Output>> = Seq::empty();
        assert forall|k: int| 0 <= k < n implies #[trigger] bounded(bound_at(start, bounds0, k), bounds0[k], all[k]) by {
            assert(bounded(self.bound_before(k), self.bounds@[k], self.entries@[k]));
        }
        assert(bound_at(start, bounds0, n as int) == self.bound_before(n as int));
        assert(bs =~= bounds0.take(entries@.len() as int));
        assert(entries@ =~= all.take(entries@.len() as int));
        while entries.len() > 0
            invariant
                record.wf(),
                entries@ == all.take(entries@.len() as int),
                entries@.len() <= n,
                n == all.len(),
                bs == bounds0.take(entries@.len() as int),
                bounds0.len() == n,
                0 <= start.0 <= record.model().limit,
                0 <= start.1,
                forall|k: int| 0 <= k < n ==> bounds0[k].0 <= record.model().limit,
                forall|k: int|
                    0 <= k < n ==> #[trigger] bounded(bound_at(start, bounds0, k), bounds0[k], all[k]),
                record.model().entries.len() <= bound_at(start, bounds0, entries@.len() as int).0,
                record.model().entries.len() - record.model().index <= bound_at(start, bounds0, entries@.len() as int).1,
                cancel_trace(all.skip(entries@.len() as int), rs, ts, os),
                rs[0] == r0,
                ts[0] == t0,
                rs.last() == *record,
                ts.last() == *target,
                present(os) == outputs@,
            decreases entries@.len(),
        {
            let ghost r1 = *record;
            let ghost t1 = *target;
            let ghost k = entries@.len() - 1;
            let ghost prev = bound_at(start, bounds0, k);
            let ghost cur = bounds0[k];
            assert(bound_at(start, bounds0, k + 1) == cur);
            proof {
                if k > 0 {
                    assert(bounded(bound_at(start, bounds0, k - 1), bounds0[k - 1], all[k - 1]));
                }
            }
            assert(prev.0 >= 0 && prev.1 >= 0);
            let entry = entries.pop().unwrap();
            let ghost e = entry;
            assert(e == all[k]);
            assert(bounded(prev, cur, e));
            let out = match entry {
                CheckpointEntry::Edit { saved, tail } => {
                    let o = record.undo(target);
                    let ghost mid = *record;
                    if o.is_some() {
                        assert(tail@.len() + cur.0 - 1 <= prev.0);
                        record.restore(tail, saved);
                        assert(record.model().entries.len() <= prev.0);
                        assert(record.model().entries.len() - record.model().index <= prev.1);
                    } else {
                        assert(mid.model().entries.len() == 0);
                        assert(record.model().entries.len() <= prev.0);
                        assert(record.model().entries.len() - record.model().index <= prev.1);
                    }
                    assert(undid(r1, t1, mid, *target, o));
                    o
                },
                CheckpointEntry::Undo => {
                    let o = record.redo(target);
                    assert(record.model().entries.len() == r1.model().entries.len());
                    assert(o is None ==> r1.model().index == r1.model().entries.len());
                    assert(cur.0 == prev.0 && cur.1 == prev.1 + 1);
                    assert(record.model().entries.len() <= prev.0);
                    assert(record.model().entries.len() - record.model().index <= prev.1);
                    o
                },
                CheckpointEntry::Redo => {
                    let o = record.undo(target);
                    assert(record.model().entries.len() == r1.model().entries.len());
                    assert(o is None ==> r1.model().index == 0);
                    assert(cur.0 == prev.0 && cur.1 + 1 == prev.1);
                    assert(o is Some ==> record.model().index == r1.model().index - 1);
                    assert(record.model().entries.len() <= prev.0);
                    assert(record.model().entries.len() - record.model().index <= prev.1);
                    o
                },
            };
            proof {
                assert(entries@.len() == k);
                assert(record.model().entries.len() <= prev.0);
                assert(record.model().entries.len() - record.model().index <= prev.1);
                assert(cancel_step(r1, t1, e, *record, *target, out));
                let os0 = os;
                let rs0 = rs;
                let ts0 = ts;
                let done = all.skip(k + 1);
                rs = rs.push(*record);
                ts = ts.push(*target);
                os = os.push(out);
                bs = bs.drop_last();
                assert(bs =~= bounds0.take(k));
                assert(os.drop_last() =~= os0);
                let now = all.skip(k);
                assert(now.len() == done.len() + 1);
                assert forall|j: int| 0 <= j < now.len() implies #[trigger] cancel_step(
                    rs[j],
                    ts[j],
                    now[now.len() - 1 - j],
                    rs[j + 1],
                    ts[j + 1],
                    os[j],
                ) by {
                    if j < done.len() {
                        assert(now[now.len() - 1 - j] == done[done.len() - 1 - j]);
                        assert(cancel_step(rs0[j], ts0[j], done[done.len() - 1 - j], rs0[j + 1], ts0[j + 1], os0[j]));
                    } else {
                        assert(now[now.len() - 1 - j] == e);
                    }
                }
                assert(entries@ =~= all.take(k));
            }
            match out {
                Some(o) => outputs.push(o),
                None => {},
            }
        }
        assert(all.skip(0) =~= all);
        outputs
    }
}

impl<E, S> Record<E, S> {
    /// Returns a checkpoint on this record.
    pub fn checkpoint(&mut self) -> (c: Checkpoint<'_, E, S>)
        requires
            old(self).wf(),
        ensures
            c.wf(),
            c.spec_record() == *old(self),
            c.calls().len() == 0,
            *final(c.record_ref()) == *final(self),
    {
        Checkpoint::new(self)
    }
}

} // verus!
