//! Calls on a history that can be taken back together.

use super::{discarded_to, edited, redid, undid, History};
use crate::record::Model;
use crate::socket::Slot;
use crate::{present, Action};
use vstd::prelude::*;

verus! {

/// A call made through a checkpoint.
#[derive(Clone, Debug)]
pub enum CheckpointEntry {
    /// An edit, made while the branch with this id was the current one.
    Edit(usize),
    /// An undo.
    Undo,
    /// A redo.
    Redo,
}

/// What taking back one call does to the history `h` and the target `t`: it
/// turns them into `q` and `u`, and `out` is what was returned.
///
/// An edit is taken back by an undo; when that undo did something, the entry
/// above the index is dropped if the current branch is still the one the edit
/// was made in, else that branch becomes the current one again (see
/// `discarded_to`). An undo is taken back by a redo and a redo by an undo.
pub open spec fn cancel_step<E: Action, S>(
    h: History<E, S>,
    t: E::Target,
    entry: CheckpointEntry,
    q: History<E, S>,
    u: E::Target,
    out: Option<E::Output>,
) -> bool {
    match entry {
        CheckpointEntry::Edit(b) => exists|mid: History<E, S>|
            #[trigger] undid(h, t, mid, u, out) && if out is None {
                q == mid
            } else if mid.spec_root() == b {
                &&& q.spec_record().model() == (Model {
                    entries: mid.spec_record().model().entries.drop_last(),
                    ..mid.spec_record().model()
                })
                &&& q.spec_record().spec_socket() == mid.spec_record().spec_socket()
                &&& q.spec_root() == mid.spec_root()
                &&& q.spec_ids() == mid.spec_ids()
                &&& q.spec_branches() == mid.spec_branches()
                &&& q.spec_saved() == mid.spec_saved()
            } else {
                discarded_to(mid, b, q)
            },
        CheckpointEntry::Undo => redid(h, t, q, u, out),
        CheckpointEntry::Redo => undid(h, t, q, u, out),
    }
}

/// The histories `hs` and the targets `ts` follow each other by taking back
/// the calls `entries`, the last one first, which returns `outs`.
pub open spec fn cancel_trace<E: Action, S>(
    entries: Seq<CheckpointEntry>,
    hs: Seq<History<E, S>>,
    ts: Seq<E::Target>,
    outs: Seq<Option<E::Output>>,
) -> bool {
    let n = entries.len();
    &&& hs.len() == n + 1
    &&& ts.len() == n + 1
    &&& outs.len() == n
    &&& forall|k: int|
        0 <= k < n ==> #[trigger] cancel_step(hs[k], ts[k], entries[n - 1 - k], hs[k + 1], ts[k + 1], outs[k])
}

/// The history `q` and the target `u` are reached from `h` and `t` by taking
/// back the calls `entries`, the last one first, and `outs` are the outputs
/// that were returned.
pub open spec fn cancelled<E: Action, S>(
    h: History<E, S>,
    t: E::Target,
    entries: Seq<CheckpointEntry>,
    q: History<E, S>,
    u: E::Target,
    outs: Seq<E::Output>,
) -> bool {
    exists|hs: Seq<History<E, S>>, ts: Seq<E::Target>, os: Seq<Option<E::Output>>|
        #[trigger] cancel_trace(entries, hs, ts, os) && hs[0] == h && ts[0] == t && hs.last() == q
            && ts.last() == u && present(os) == outs
}

/// Wraps a history and gives it checkpoint functionality: the calls made
/// through it can be taken back together.
pub struct Checkpoint<'a, E, S> {
    history: &'a mut History<E, S>,
    entries: Vec<CheckpointEntry>,
}

impl<'a, E, S> Checkpoint<'a, E, S> {
    /// The history, as it is while the checkpoint holds it.
    pub closed spec fn spec_history(&self) -> History<E, S> {
        *self.history
    }

    /// The borrow of the history.
    pub closed spec fn history_ref(&self) -> &'a mut History<E, S> {
        self.history
    }

    /// The calls made through the checkpoint, oldest first.
    pub closed spec fn calls(&self) -> Seq<CheckpointEntry> {
        self.entries@
    }

    /// An empty checkpoint on `history`.
    pub(crate) fn new(history: &'a mut History<E, S>) -> (c: Checkpoint<'a, E, S>)
        ensures
            c.spec_history() == *old(history),
            c.calls().len() == 0,
            *final(c.history_ref()) == *final(history),
    {
        Checkpoint { history, entries: Vec::new() }
    }

    /// Reserves capacity for at least `additional` more calls.
    pub fn reserve(&mut self, additional: usize)
        ensures
            final(self).spec_history() == old(self).spec_history(),
            final(self).calls() == old(self).calls(),
            *final(final(self).history_ref()) == *final(old(self).history_ref()),
    {
        self.entries.reserve(additional);
    }

    /// Keeps the changes: the history stays as it is.
    pub fn commit(self)
        ensures
            *final(self.history_ref()) == self.spec_history(),
    {
    }
}

impl<'a, E: Action, S: Slot> Checkpoint<'a, E, S> {
    /// Calls [`History::edit`] and keeps the call.
    pub fn edit(&mut self, target: &mut E::Target, edit: E) -> (out: E::Output)
        requires
            old(self).spec_history().wf(),
        ensures
            final(self).spec_history().wf(),
            edited(old(self).spec_history(), *old(target), edit, final(self).spec_history(), *final(target), out),
            final(self).calls() == old(self).calls().push(CheckpointEntry::Edit(old(self).spec_history().spec_root())),
            *final(final(self).history_ref()) == *final(old(self).history_ref()),
    {
        let root = self.history.root;
        self.entries.push(CheckpointEntry::Edit(root));
        self.history.edit(target, edit)
    }

    /// Calls [`History::undo`] and keeps the call.
    pub fn undo(&mut self, target: &mut E::Target) -> (res: Option<E::Output>)
        requires
            old(self).spec_history().wf(),
        ensures
            final(self).spec_history().wf(),
            undid(old(self).spec_history(), *old(target), final(self).spec_history(), *final(target), res),
            final(self).calls() == old(self).calls().push(CheckpointEntry::Undo),
            *final(final(self).history_ref()) == *final(old(self).history_ref()),
    {
        self.entries.push(CheckpointEntry::Undo);
        self.history.undo(target)
    }

    /// Calls [`History::redo`] and keeps the call.
    pub fn redo(&mut self, target: &mut E::Target) -> (res: Option<E::Output>)
        requires
            old(self).spec_history().wf(),
        ensures
            final(self).spec_history().wf(),
            redid(old(self).spec_history(), *old(target), final(self).spec_history(), *final(target), res),
            final(self).calls() == old(self).calls().push(CheckpointEntry::Redo),
            *final(final(self).history_ref()) == *final(old(self).history_ref()),
    {
        self.entries.push(CheckpointEntry::Redo);
        self.history.redo(target)
    }

    /// Takes back the calls made through the checkpoint, the last one first,
    /// and returns the outputs of the calls that returned one.
    pub fn cancel(self, target: &mut E::Target) -> (res: Vec<E::Output>)
        requires
            self.spec_history().wf(),
        ensures
            final(self.history_ref()).wf(),
            cancelled(self.spec_history(), *old(target), self.calls(), *final(self.history_ref()), *final(target), res@),
    {
        let ghost all = self.entries@;
        let ghost n = all.len();
        let ghost h0 = *self.history;
        let ghost t0 = *target;
        let Checkpoint { history, mut entries } = self;
        let mut outputs: Vec<E::Output> = Vec::new();
        let ghost mut hs: Seq<History<E, S>> = seq![h0];
        let ghost mut ts: Seq<E::Target> = seq![t0];
        let ghost mut os: Seq<Option<E::Output>> = Seq::empty();
        assert(entries@ =~= all.take(entries@.len() as int));
        while entries.len() > 0
            invariant
                history.wf(),
                entries@ == all.take(entries@.len() as int),
                entries@.len() <= n,
                n == all.len(),
                cancel_trace(all.skip(entries@.len() as int), hs, ts, os),
                hs[0] == h0,
                ts[0] == t0,
                hs.last() == *history,
                ts.last() == *target,
                present(os) == outputs@,
            decreases entries@.len(),
        {
            let ghost h1 = *history;
            let ghost t1 = *target;
            let ghost k = entries@.len() - 1;
            let entry = entries.pop().unwrap();
            let ghost e = entry;
            assert(e == all[k]);
            let out = match entry {
                CheckpointEntry::Edit(b) => {
                    let o = history.undo(target);
                    let ghost mid = *history;
                    if o.is_some() {
                        if history.root == b {
                            history.record.pop_entry();
                        } else {
                            history.discard_to(b);
                        }
                    }
                    assert(undid(h1, t1, mid, *target, o));
                    o
                },
                CheckpointEntry::Undo => history.redo(target),
                CheckpointEntry::Redo => history.undo(target),
            };
            proof {
                assert(cancel_step(h1, t1, e, *history, *target, out));
                let os0 = os;
                let hs0 = hs;
                let ts0 = ts;
                let done = all.skip(k + 1);
                hs = hs.push(*history);
                ts = ts.push(*target);
                os = os.push(out);
                assert(os.drop_last() =~= os0);
                let now = all.skip(k);
                assert(now.len() == done.len() + 1);
                assert forall|j: int| 0 <= j < now.len() implies #[trigger] cancel_step(
                    hs[j],
                    ts[j],
                    now[now.len() - 1 - j],
                    hs[j + 1],
                    ts[j + 1],
                    os[j],
                ) by {
                    if j < done.len() {
                        assert(now[now.len() - 1 - j] == done[done.len() - 1 - j]);
                        assert(cancel_step(hs0[j], ts0[j], done[done.len() - 1 - j], hs0[j + 1], ts0[j + 1], os0[j]));
                    } else {
                        assert(now[now.len() - 1 - j] == e);
                    }
                }
                assert(entries@ =~= all.take(k));
            }
            match out {
                Some(o) => outputs.push(o),
                None => {},
            }
        }
        assert(all.skip(0) =~= all);
        outputs
    }
}

impl<E, S> History<E, S> {
    /// Returns a checkpoint on this history.
    pub fn checkpoint(&mut self) -> (c: Checkpoint<'_, E, S>)
        ensures
            c.spec_history() == *old(self),
            c.calls().len() == 0,
            *final(c.history_ref()) == *final(self),
    {
        Checkpoint::new(self)
    }
}

} // verus!
