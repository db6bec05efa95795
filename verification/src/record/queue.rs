//! Calls on a record that are queued and carried out together.

use super::{edited, redid, undid, Record};
use crate::socket::Slot;
use crate::{present, Action};
use vstd::prelude::*;

verus! {

/// A queued call on a record.
#[derive(Clone, Debug)]
pub enum QueueEntry<E> {
    /// A queued [`Record::edit`] with this action.
    Edit(E),
    /// A queued [`Record::undo`].
    Undo,
    /// A queued [`Record::redo`].
    Redo,
}

/// What one queued call does to the record `r` and the target `t`: it turns
/// them into `q` and `u`, and `out` is what the call returned.
pub open spec fn queue_step<E: Action, S>(
    r: Record<E, S>,
    t: E::Target,
    entry: QueueEntry<E>,
    q: Record<E, S>,
    u: E::Target,
    out: Option<E::Output>,
) -> bool {
    match entry {
        QueueEntry::Edit(action) => out is Some && edited(r, t, action, q, u, out.unwrap()),
        QueueEntry::Undo => undid(r, t, q, u, out),
        QueueEntry::Redo => redid(r, t, q, u, out),
    }
}

/// The records `rs` and the targets `ts` follow each other by the calls
/// `entries`, which return `outs`.
pub open spec fn queue_trace<E: Action, S>(
    entries: Seq<QueueEntry<E>>,
    rs: Seq<Record<E, S>>,
    ts: Seq<E::Target>,
    outs: Seq<Option<E::Output>>,
) -> bool {
    &&& rs.len() == entries.len() + 1
    &&& ts.len() == entries.len() + 1
    &&& outs.len() == entries.len()
    &&& forall|k: int|
        0 <= k < entries.len() ==> #[trigger] queue_step(rs[k], ts[k], entries[k], rs[k + 1], ts[k + 1], outs[k])
}

/// The record `q` and the target `u` are reached from `r` and `t` by the
/// calls `entries` in order, and `outs` are the outputs those calls returned.
pub open spec fn committed<E: Action, S>(
    r: Record<E, S>,
    t: E::Target,
    entries: Seq<QueueEntry<E>>,
    q: Record<E, S>,
    u: E::Target,
    outs: Seq<E::Output>,
) -> bool {
    exists|rs: Seq<Record<E, S>>, ts: Seq<E::Target>, os: Seq<Option<E::Output>>|
        #[trigger] queue_trace(entries, rs, ts, os) && rs[0] == r && ts[0] == t && rs.last() == q
            && ts.last() == u && present(os) == outs
}

/// Wraps a record and gives it batch queue functionality: calls are queued
/// and only carried out, in order, on `commit`.
pub struct Queue<'a, E, S> {
    record: &'a mut Record<E, S>,
    entries: Vec<QueueEntry<E>>,
}

impl<'a, E, S> Queue<'a, E, S> {
    /// The record, as it is while the queue holds it.
    pub closed spec fn spec_record(&self) -> Record<E, S> {
        *self.record
    }

    /// The borrow of the record.
    pub closed spec fn record_ref(&self) -> &'a mut Record<E, S> {
        self.record
    }

    /// The queued calls, oldest first.
    pub closed spec fn queued(&self) -> Seq<QueueEntry<E>> {
        self.entries@
    }

    /// An empty queue on `record`.
    pub(crate) fn new(record: &'a mut Record<E, S>) -> (q: Queue<'a, E, S>)
        ensures
            q.spec_record() == *old(record),
            q.queued().len() == 0,
            *final(q.record_ref()) == *final(record),
    {
        Queue { record, entries: Vec::new() }
    }

    /// Reserves capacity for at least `additional` more queued calls.
    pub fn reserve(&mut self, additional: usize)
        ensures
            final(self).spec_record() == old(self).spec_record(),
            final(self).queued() == old(self).queued(),
            *final(final(self).record_ref()) == *final(old(self).record_ref()),
    {
        self.entries.reserve(additional);
    }

    /// Queues a [`Record::edit`] call.
    pub fn edit(&mut self, edit: E)
        ensures
            final(self).spec_record() == old(self).spec_record(),
            final(self).queued() == old(self).queued().push(QueueEntry::Edit(edit)),
            *final(final(self).record_ref()) == *final(old(self).record_ref()),
    {
        self.entries.push(QueueEntry::Edit(edit));
    }

    /// Queues a [`Record::undo`] call.
    pub fn undo(&mut self)
        ensures
            final(self).spec_record() == old(self).spec_record(),
            final(self).queued() == old(self).queued().push(QueueEntry::Undo),
            *final(final(self).record_ref()) == *final(old(self).record_ref()),
    {
        self.entries.push(QueueEntry::Undo);
    }

    /// Queues a [`Record::redo`] call.
    pub fn redo(&mut self)
        ensures
            final(self).spec_record() == old(self).spec_record(),
            final(self).queued() == old(self).queued().push(QueueEntry::Redo),
            *final(final(self).record_ref()) == *final(old(self).record_ref()),
    {
        self.entries.push(QueueEntry::Redo);
    }

    /// Drops the queued calls; the record stays as it is.
    pub fn cancel(self)
        ensures
            *final(self.record_ref()) == self.spec_record(),
    {
    }
}

impl<'a, E: Action, S: Slot> Queue<'a, E, S> {
    /// Carries out the queued calls in order and returns the outputs of the
    /// calls that returned one.
    pub fn commit(self, target: &mut E::Target) -> (res: Vec<E::Output>)
        requires
            self.spec_record().wf(),
        ensures
            final(self.record_ref()).wf(),
            committed(self.spec_record(), *old(target), self.queued(), *final(self.record_ref()), *final(target), res@),
    {
        let Queue { record, entries } = self;
        let ghost r0 = *record;
        let ghost t0 = *target;
        let ghost all = entries@;
        let mut outputs: Vec<E::Output> = Vec::new();
        let ghost mut rs: Seq<Record<E, S>> = seq![r0];
        let ghost mut ts: Seq<E::Target> = seq![t0];
        let ghost mut os: Seq<Option<E::Output>> = Seq::empty();
        for entry in it: entries.into_iter()
            invariant
                record.wf(),
                all == it.seq(),
                queue_trace(all.take(it.index() as int), rs, ts, os),
                rs[0] == r0,
                ts[0] == t0,
                rs.last() == *record,
                ts.last() == *target,
                present(os) == outputs@,
        {
            let ghost r1 = *record;
            let ghost t1 = *target;
            let ghost done = all.take(it.index() as int);
            let ghost e = entry;
            let out = match entry {
                QueueEntry::Edit(action) => Some(record.edit(target, action)),
                QueueEntry::Undo => record.undo(target),
                QueueEntry::Redo => record.redo(target),
            };
            proof {
                assert(queue_step(r1, t1, e, *record, *target, out));
                let os0 = os;
                let rs0 = rs;
                let ts0 = ts;
                rs = rs.push(*record);
                ts = ts.push(*target);
                os = os.push(out);
                assert(os.drop_last() =~= os0);
                assert(all.take(it.index() + 1) =~= done.push(e));
                assert forall|k: int| 0 <= k < done.len() + 1 implies #[trigger] queue_step(
                    rs[k],
                    ts[k],
                    done.push(e)[k],
                    rs[k + 1],
                    ts[k + 1],
                    os[k],
                ) by {
                    if k < done.len() {
                        assert(queue_step(rs0[k], ts0[k], done[k], rs0[k + 1], ts0[k + 1], os0[k]));
                    }
                }
            }
            match out {
                Some(o) => outputs.push(o),
                None => {},
            }
        }
        assert(all.take(all.len() as int) =~= all);
        outputs
    }
}

impl<E, S> Record<E, S> {
    /// Returns a queue on this record.
    pub fn queue(&mut self) -> (q: Queue<'_, E, S>)
        ensures
            q.spec_record() == *old(self),
            q.queued().len() == 0,
            *final(q.record_ref()) == *final(self),
    {
        Queue::new(self)
    }
}

} // verus!
