//! A linear record of actions.

mod checkpoint;
mod display;
mod queue;

pub use checkpoint::{bound_at, bounded, cancel_step, cancel_trace, cancelled, Checkpoint, CheckpointEntry};
pub use display::{list_text, record_text, saved_at, Display};
pub use queue::{committed, queue_step, queue_trace, Queue, QueueEntry};

use crate::entry::{Entry, Time};
use crate::socket::{Event, Slot, Socket};
use crate::{Action, Merged};
use std::collections::VecDeque;
use vstd::prelude::*;

verus! {

/// The state of a record that its contracts speak of.
pub ghost struct Model<E> {
    /// The stored entries, oldest first.
    pub entries: Seq<Entry<E>>,
    /// The number of entries that are applied to the target.
    pub index: usize,
    /// The index at which the target was saved, if it is in this record.
    pub saved: Option<usize>,
    /// The largest number of entries the record keeps.
    pub limit: usize,
}

/// The saved index once the entries from `index` on are cut off: it is
/// dropped when it lay in the cut part.
pub open spec fn cut_saved(saved: Option<usize>, index: usize) -> Option<usize> {
    match saved {
        Some(s) => if s <= index { Some(s) } else { None },
        None => None,
    }
}

/// The saved index once the first entry is dropped.
pub open spec fn shift_saved(saved: Option<usize>) -> Option<usize> {
    match saved {
        Some(s) => if s >= 1 { Some((s - 1) as usize) } else { None },
        None => None,
    }
}

/// Appends `entry` to a record whose entries end at its index: when the
/// limit is reached the oldest entry is dropped instead of the index moving.
pub open spec fn push_plain<E>(m: Model<E>, entry: Entry<E>) -> Model<E> {
    if m.limit == m.index {
        Model { entries: m.entries.drop_first().push(entry), saved: shift_saved(m.saved), ..m }
    } else {
        Model { entries: m.entries.push(entry), index: (m.index + 1) as usize, ..m }
    }
}

/// The record after `entry` is pushed on top of it, and whether the entry was
/// merged into the last entry or annulled with it.
///
/// The entries after the index are discarded first. Unless the target is in
/// the saved state, the entry is then merged into the last entry.
pub open spec fn push_model<E: Action>(m: Model<E>, entry: Entry<E>) -> (Model<E>, bool) {
    let was_saved = m.saved == Some(m.index);
    let cut = Model { entries: m.entries.take(m.index as int), saved: cut_saved(m.saved, m.index), ..m };
    if m.index > 0 && !was_saved {
        let (last, res) = cut.entries.last().merge_result(entry);
        let rest = cut.entries.drop_last();
        match res {
            Merged::Yes => (Model { entries: rest.push(last), ..cut }, true),
            Merged::Annul => (Model { entries: rest, index: (m.index - 1) as usize, ..cut }, true),
            Merged::No(e) => (push_plain(Model { entries: rest.push(last), ..cut }, e), false),
        }
    } else {
        (push_plain(cut, entry), false)
    }
}

/// The events emitted when the record goes from `m` to `n` by a push.
pub open spec fn push_events<E>(m: Model<E>, n: Model<E>) -> Seq<Event> {
    (if m.index < m.entries.len() { seq![Event::Redo(false)] } else { Seq::empty() })
    + (if m.index == 0 { seq![Event::Undo(true)] } else { Seq::empty() })
    + (if m.saved == Some(m.index) { seq![Event::Saved(false)] } else { Seq::empty() })
    + (if m.index != n.index { seq![Event::Index(n.index)] } else { Seq::empty() })
}

/// The events emitted by an undo from `m`.
pub open spec fn undo_events<E>(m: Model<E>) -> Seq<Event> {
    let was_saved = m.saved == Some(m.index);
    let is_saved = m.saved == Some((m.index - 1) as usize);
    (if m.index == 1 { seq![Event::Undo(false)] } else { Seq::empty() })
    + (if m.index == m.entries.len() { seq![Event::Redo(true)] } else { Seq::empty() })
    + (if was_saved != is_saved { seq![Event::Saved(is_saved)] } else { Seq::empty() })
    + seq![Event::Index((m.index - 1) as usize)]
}

/// The events emitted by a redo from `m`.
pub open spec fn redo_events<E>(m: Model<E>) -> Seq<Event> {
    let was_saved = m.saved == Some(m.index);
    let is_saved = m.saved == Some((m.index + 1) as usize);
    (if m.index == 0 { seq![Event::Undo(true)] } else { Seq::empty() })
    + (if m.index == m.entries.len() - 1 { seq![Event::Redo(false)] } else { Seq::empty() })
    + (if was_saved != is_saved { seq![Event::Saved(is_saved)] } else { Seq::empty() })
    + seq![Event::Index((m.index + 1) as usize)]
}

/// The record after the entry below the index is replaced by `e` (the
/// undone entry) and the index moves down by one.
pub open spec fn undo_model<E>(m: Model<E>, e: Entry<E>) -> Model<E> {
    Model { entries: m.entries.update(m.index - 1, e), index: (m.index - 1) as usize, ..m }
}

/// The record after the entry at the index is replaced by `e` (the redone
/// entry) and the index moves up by one.
pub open spec fn redo_model<E>(m: Model<E>, e: Entry<E>) -> Model<E> {
    Model { entries: m.entries.update(m.index as int, e), index: (m.index + 1) as usize, ..m }
}

/// One undo takes the record `p` and target `pu` to `n` and `u` with
/// output `o`; the undone entry keeps its apply and redo times.
pub open spec fn undo_step<E: Action>(p: Model<E>, pu: E::Target, n: Model<E>, u: E::Target, o: E::Output) -> bool {
    let i = p.index - 1;
    &&& p.index > 0
    &&& n == undo_model(p, n.entries[i])
    &&& E::undone(p.entries[i].spec_edit(), pu, n.entries[i].spec_edit(), u, o)
    &&& n.entries[i].spec_st_edit() == p.entries[i].spec_st_edit()
    &&& n.entries[i].spec_st_redo() == p.entries[i].spec_st_redo()
}

/// One redo takes the record `p` and target `pu` to `n` and `u` with
/// output `o`; the redone entry keeps its apply and undo times.
pub open spec fn redo_step<E: Action>(p: Model<E>, pu: E::Target, n: Model<E>, u: E::Target, o: E::Output) -> bool {
    let i = p.index as int;
    &&& p.index < p.entries.len()
    &&& n == redo_model(p, n.entries[i])
    &&& E::redone(p.entries[i].spec_edit(), pu, n.entries[i].spec_edit(), u, o)
    &&& n.entries[i].spec_st_edit() == p.entries[i].spec_st_edit()
    &&& n.entries[i].spec_st_undo() == p.entries[i].spec_st_undo()
}

/// The records `ms` and targets `ts` follow each other by undoing, with the
/// outputs `outs` in order.
pub open spec fn undo_trace<E: Action>(ms: Seq<Model<E>>, ts: Seq<E::Target>, outs: Seq<E::Output>) -> bool {
    &&& ms.len() == outs.len() + 1
    &&& ts.len() == outs.len() + 1
    &&& forall|k: int| 0 <= k < outs.len() ==> #[trigger] undo_step(ms[k], ts[k], ms[k + 1], ts[k + 1], outs[k])
}

/// The records `ms` and targets `ts` follow each other by redoing, with the
/// outputs `outs` in order.
pub open spec fn redo_trace<E: Action>(ms: Seq<Model<E>>, ts: Seq<E::Target>, outs: Seq<E::Output>) -> bool {
    &&& ms.len() == outs.len() + 1
    &&& ts.len() == outs.len() + 1
    &&& forall|k: int| 0 <= k < outs.len() ==> #[trigger] redo_step(ms[k], ts[k], ms[k + 1], ts[k + 1], outs[k])
}

/// `n` and `u` are reached from the record `m` and target `t` by undoing
/// one action after the other, with the outputs `outs` in order.
pub open spec fn undone_steps<E: Action>(m: Model<E>, t: E::Target, n: Model<E>, u: E::Target, outs: Seq<E::Output>) -> bool {
    exists|ms: Seq<Model<E>>, ts: Seq<E::Target>|
        #[trigger] undo_trace(ms, ts, outs) && ms[0] == m && ts[0] == t && ms.last() == n && ts.last() == u
}

/// `n` and `u` are reached from the record `m` and target `t` by redoing
/// one action after the other, with the outputs `outs` in order.
pub open spec fn redone_steps<E: Action>(m: Model<E>, t: E::Target, n: Model<E>, u: E::Target, outs: Seq<E::Output>) -> bool {
    exists|ms: Seq<Model<E>>, ts: Seq<E::Target>|
        #[trigger] redo_trace(ms, ts, outs) && ms[0] == m && ts[0] == t && ms.last() == n && ts.last() == u
}

/// The events emitted when a jump takes the record from `m` to `n`.
pub open spec fn jump_events<E>(m: Model<E>, n: Model<E>) -> Seq<Event> {
    let could_undo = m.index > 0;
    let can_undo = n.index > 0;
    let could_redo = m.index < m.entries.len();
    let can_redo = n.index < n.entries.len();
    let was_saved = m.saved == Some(m.index);
    let is_saved = n.saved == Some(n.index);
    (if could_undo != can_undo { seq![Event::Undo(can_undo)] } else { Seq::empty() })
    + (if could_redo != can_redo { seq![Event::Redo(can_redo)] } else { Seq::empty() })
    + (if was_saved != is_saved { seq![Event::Saved(is_saved)] } else { Seq::empty() })
    + (if m.index != n.index { seq![Event::Index(n.index)] } else { Seq::empty() })
}

/// What an edit does: `action` is applied to the target and the applied
/// action is pushed on top of the record (see `push_model`), with the push's
/// events; the pushed entry has never been undone or redone, so its undo and
/// redo times are the start of UNIX time.
pub open spec fn edited<E: Action, S>(r: Record<E, S>, t: E::Target, action: E, q: Record<E, S>, u: E::Target, out: E::Output) -> bool {
    &&& exists|e: Entry<E>|
        E::applied(action, t, #[trigger] e.spec_edit(), u, out) && q.model() == push_model(r.model(), e).0
        && e.spec_st_undo() == Time::spec_epoch() && e.spec_st_redo() == Time::spec_epoch()
    &&& q.spec_socket().is_connected() == r.spec_socket().is_connected()
    &&& q.spec_socket().log() == r.spec_socket().log_after(push_events(r.model(), q.model()))
}

/// What an undo does: with nothing to undo nothing changes and `None` is
/// returned; otherwise the action below the index is undone, the index moves
/// down by one, and the undo's events are emitted; the entry keeps its apply
/// and redo times.
pub open spec fn undid<E: Action, S>(r: Record<E, S>, t: E::Target, q: Record<E, S>, u: E::Target, res: Option<E::Output>) -> bool {
    let m = r.model();
    if m.index == 0 {
        res is None && q == r && u == t
    } else {
        let i = m.index - 1;
        &&& res is Some
        &&& E::undone(r.actions()[i], t, q.actions()[i], u, res.unwrap())
        &&& q.model() == undo_model(m, q.model().entries[i])
        &&& q.model().entries[i].spec_st_edit() == m.entries[i].spec_st_edit()
        &&& q.model().entries[i].spec_st_redo() == m.entries[i].spec_st_redo()
        &&& q.spec_socket().is_connected() == r.spec_socket().is_connected()
        &&& q.spec_socket().log() == r.spec_socket().log_after(undo_events(m))
    }
}

/// What a redo does: with nothing to redo nothing changes and `None` is
/// returned; otherwise the action at the index is redone, the index moves up
/// by one, and the redo's events are emitted; the entry keeps its apply and
/// undo times.
pub open spec fn redid<E: Action, S>(r: Record<E, S>, t: E::Target, q: Record<E, S>, u: E::Target, res: Option<E::Output>) -> bool {
    let m = r.model();
    if m.index >= m.entries.len() {
        res is None && q == r && u == t
    } else {
        let i = m.index as int;
        &&& res is Some
        &&& E::redone(r.actions()[i], t, q.actions()[i], u, res.unwrap())
        &&& q.model() == redo_model(m, q.model().entries[i])
        &&& q.model().entries[i].spec_st_edit() == m.entries[i].spec_st_edit()
        &&& q.model().entries[i].spec_st_undo() == m.entries[i].spec_st_undo()
        &&& q.spec_socket().is_connected() == r.spec_socket().is_connected()
        &&& q.spec_socket().log() == r.spec_socket().log_after(redo_events(m))
    }
}

/// What a jump to `index` does: beyond the entries nothing changes and
/// nothing is returned; otherwise the index becomes `index` by undoing or
/// redoing one action after the other, and the jump's events are emitted.
pub open spec fn went_to<E: Action, S>(
    r: Record<E, S>,
    t: E::Target,
    index: usize,
    q: Record<E, S>,
    u: E::Target,
    outs: Seq<E::Output>,
) -> bool {
    let m = r.model();
    let n = q.model();
    if index > m.entries.len() {
        outs.len() == 0 && q == r && u == t
    } else {
        &&& n.index == index
        &&& index <= m.index ==> undone_steps(m, t, n, u, outs)
        &&& index > m.index ==> redone_steps(m, t, n, u, outs)
        &&& q.spec_socket().is_connected() == r.spec_socket().is_connected()
        &&& q.spec_socket().log() == r.spec_socket().log_after(jump_events(m, n))
    }
}

/// A linear record of actions.
///
/// The record can roll the target's state backwards and forwards by using
/// the undo and redo methods. When a new action is added, the actions that
/// were undone are discarded.
#[derive(Clone)]
pub struct Record<E, S = ()> {
    limit: usize,
    index: usize,
    saved: Option<usize>,
    socket: Socket<S>,
    entries: VecDeque<Entry<E>>,
}

impl<E, S> Record<E, S> {
    /// The state of the record.
    pub closed spec fn model(&self) -> Model<E> {
        Model { entries: self.entries@, index: self.index, saved: self.saved, limit: self.limit }
    }

    /// The socket of the record.
    pub closed spec fn spec_socket(&self) -> Socket<S> {
        self.socket
    }

    /// The actions of the record, oldest first.
    pub open spec fn actions(&self) -> Seq<E> {
        self.model().entries.map_values(|e: Entry<E>| e.spec_edit())
    }

    /// The record is well formed: the limit is positive and the index lies
    /// in the entries, which do not exceed the limit.
    pub open spec fn wf(&self) -> bool {
        let m = self.model();
        &&& m.limit > 0
        &&& m.index <= m.entries.len() <= m.limit
    }
}

/// The capacity of `v` (`VecDeque::capacity`): it depends on the allocator,
/// so only that it is at least the length is claimed.
#[verifier::external_body]
fn deque_capacity<T>(v: &VecDeque<T>) -> (c: usize)
    ensures
        c >= v@.len(),
{
    v.capacity()
}

/// Shrinks the capacity of `v` (`VecDeque::shrink_to_fit`); the contents
/// stay.
#[verifier::external_body]
fn deque_shrink_to_fit<T>(v: &mut VecDeque<T>)
    ensures
        final(v)@ == old(v)@,
{
    v.shrink_to_fit()
}

/// The element at `i` of `v`, to be changed in place (`IndexMut` of
/// `VecDeque`): the rest of `v` stays, and the element ends as the
/// reference is left.
#[verifier::external_body]
pub(crate) fn deque_at_mut<T>(v: &mut VecDeque<T>, i: usize) -> (r: &mut T)
    requires
        i < old(v)@.len(),
    ensures
        *r == old(v)@[i as int],
        final(v)@ == old(v)@.update(i as int, *final(r)),
{
    &mut v[i]
}

impl<E> Record<E> {
    /// Returns a new record: empty, in the saved state, with no slot and no limit.
    pub fn new() -> (r: Record<E>)
        ensures
            r.wf(),
            r.model().entries.len() == 0,
            r.model().index == 0,
            r.model().saved == Some(0usize),
            r.model().limit == usize::MAX,
            !r.spec_socket().is_connected(),
            r.spec_socket().log().len() == 0,
    {
        Record::builder().build()
    }
}

impl<E> Default for Record<E> {
    fn default() -> (r: Record<E>)
        ensures
            r.wf(),
            r.model().entries.len() == 0,
            r.model().index == 0,
            r.model().saved == Some(0usize),
            r.model().limit == usize::MAX,
            !r.spec_socket().is_connected(),
            r.spec_socket().log().len() == 0,
    {
        Record::new()
    }
}

impl<E, S> Record<E, S> {
    /// Returns a record from its parts: no entries, the index at 0, saved at
    /// 0 when `saved`.
    pub(crate) fn from_parts(limit: usize, saved: bool, socket: Socket<S>, capacity: usize) -> (r: Record<E, S>)
        requires
            limit > 0,
        ensures
            r.wf(),
            r.model().entries.len() == 0,
            r.model().index == 0,
            r.model().saved == (if saved { Some(0usize) } else { None }),
            r.model().limit == limit,
            r.spec_socket() == socket,
    {
        Record {
            limit,
            index: 0,
            saved: if saved { Some(0) } else { None },
            socket,
            entries: VecDeque::with_capacity(capacity),
        }
    }

    /// Returns a record with no slot from its entries, index, limit and saved
    /// index; `None` when they do not make a record: a limit of 0, more
    /// entries than the limit, or an index beyond the entries.
    pub fn from_entries(entries: Vec<Entry<E>>, index: usize, limit: usize, saved: Option<usize>) -> (r: Option<Record<E, S>>)
        ensures
            r is Some <==> (limit > 0 && index <= entries@.len() <= limit),
            r matches Some(r) ==> {
                &&& r.wf()
                &&& r.model() == (Model { entries: entries@, index, saved, limit })
                &&& r.spec_socket().slot() is None
                &&& r.spec_socket().log() == Seq::<Event>::empty()
            },
    {
        if limit == 0 || index > entries.len() || entries.len() > limit {
            return None;
        }
        let mut deque: VecDeque<Entry<E>> = VecDeque::new();
        let mut rest = entries;
        let ghost all = rest@;
        while rest.len() > 0
            invariant
                rest@ + deque@ == all,
            decreases rest@.len(),
        {
            let e = rest.pop().unwrap();
            deque.push_front(e);
            assert(rest@ + deque@ =~= all);
        }
        assert(deque@ =~= all);
        Some(Record { limit, index, saved, socket: Socket::empty(), entries: deque })
    }

    /// Takes the record apart: its entries, oldest first, its index, its
    /// limit and its saved index (the slot is dropped).
    pub fn into_parts(self) -> (parts: (Vec<Entry<E>>, usize, usize, Option<usize>))
        ensures
            parts.0@ == self.model().entries,
            parts.1 == self.model().index,
            parts.2 == self.model().limit,
            parts.3 == self.model().saved,
    {
        let index = self.index;
        let limit = self.limit;
        let saved = self.saved;
        let mut entries = self.entries;
        let ghost all = entries@;
        let mut v: Vec<Entry<E>> = Vec::new();
        while entries.len() > 0
            invariant
                v@ + entries@ == all,
            decreases entries@.len(),
        {
            let e = entries.pop_front().unwrap();
            v.push(e);
            assert(v@ + entries@ =~= all);
        }
        assert(v@ =~= all);
        (v, index, limit, saved)
    }

    /// Sets the saved index without emitting an event.
    pub(crate) fn set_saved_index(&mut self, saved: Option<usize>)
        ensures
            final(self).model() == (Model { saved, ..old(self).model() }),
            final(self).spec_socket() == old(self).spec_socket(),
    {
        self.saved = saved;
    }

    /// Returns the saved index.
    pub(crate) fn saved_index(&self) -> (s: Option<usize>)
        ensures
            s == self.model().saved,
    {
        self.saved
    }

    /// Returns a new record builder.
    pub fn builder() -> (b: Builder<E, S>)
        ensures
            b.spec_capacity() == 0,
            b.spec_limit() == usize::MAX,
            b.spec_saved(),
            b.spec_socket().slot() is None,
            b.spec_socket().log().len() == 0,
    {
        Builder::new()
    }

    /// Reserves capacity for at least `additional` more actions.
    pub fn reserve(&mut self, additional: usize)
        ensures
            final(self).model() == old(self).model(),
            final(self).spec_socket() == old(self).spec_socket(),
    {
        self.entries.reserve(additional);
    }

    /// Returns the capacity of the record.
    pub fn capacity(&self) -> (c: usize)
        ensures
            c >= self.model().entries.len(),
    {
        deque_capacity(&self.entries)
    }

    /// Shrinks the capacity of the record as much as possible.
    pub fn shrink_to_fit(&mut self)
        ensures
            final(self).model() == old(self).model(),
            final(self).spec_socket() == old(self).spec_socket(),
    {
        deque_shrink_to_fit(&mut self.entries);
    }

    /// Returns the number of actions in the record.
    pub fn len(&self) -> (n: usize)
        ensures
            n == self.model().entries.len(),
    {
        self.entries.len()
    }

    /// Returns `true` if the record is empty.
    pub fn is_empty(&self) -> (b: bool)
        ensures
            b == (self.model().entries.len() == 0),
    {
        self.entries.len() == 0
    }

    /// Returns the limit of the record.
    pub fn limit(&self) -> (n: usize)
        ensures
            n == self.model().limit,
    {
        self.limit
    }

    /// Sets the slot that handles the events; returns the previous one.
    pub fn connect(&mut self, slot: S) -> (prev: Option<S>)
        ensures
            prev == old(self).spec_socket().slot(),
            final(self).spec_socket().slot() == Some(slot),
            final(self).spec_socket().log() == old(self).spec_socket().log(),
            final(self).model() == old(self).model(),
    {
        self.socket.connect(Some(slot))
    }

    /// Removes and returns the slot if it exists.
    pub fn disconnect(&mut self) -> (prev: Option<S>)
        ensures
            prev == old(self).spec_socket().slot(),
            final(self).spec_socket().slot() is None,
            final(self).spec_socket().log() == old(self).spec_socket().log(),
            final(self).model() == old(self).model(),
    {
        self.socket.disconnect()
    }

    /// Returns `true` if the record can undo.
    pub fn can_undo(&self) -> (b: bool)
        ensures
            b == (self.model().index > 0),
    {
        self.index > 0
    }

    /// Returns `true` if the record can redo.
    pub fn can_redo(&self) -> (b: bool)
        ensures
            b == (self.model().index < self.model().entries.len()),
    {
        self.index < self.entries.len()
    }

    /// Returns `true` if the target is in the saved state.
    pub fn is_saved(&self) -> (b: bool)
        ensures
            b == (self.model().saved == Some(self.model().index)),
    {
        match self.saved {
            Some(s) => s == self.index,
            None => false,
        }
    }

    /// Returns the index of the next action.
    pub fn index(&self) -> (i: usize)
        ensures
            i == self.model().index,
    {
        self.index
    }

    /// Returns the actions, oldest first.
    pub fn edits(&self) -> (v: Vec<&E>)
        ensures
            v@.len() == self.model().entries.len(),
            forall|i: int| 0 <= i < v@.len() ==> *v@[i] == self.actions()[i],
    {
        let mut v: Vec<&E> = Vec::new();
        let mut i: usize = 0;
        while i < self.entries.len()
            invariant
                i <= self.model().entries.len(),
                v@.len() == i,
                forall|k: int| 0 <= k < i ==> *v@[k] == self.actions()[k],
            decreases self.model().entries.len() - i,
        {
            v.push(self.entries[i].get());
            i = i + 1;
        }
        v
    }

    /// Returns the entries, oldest first.
    pub fn entries(&self) -> (v: Vec<&Entry<E>>)
        ensures
            v@.len() == self.model().entries.len(),
            forall|i: int| 0 <= i < v@.len() ==> *v@[i] == self.model().entries[i],
    {
        let mut v: Vec<&Entry<E>> = Vec::new();
        let mut i: usize = 0;
        while i < self.entries.len()
            invariant
                i <= self.model().entries.len(),
                v@.len() == i,
                forall|k: int| 0 <= k < i ==> *v@[k] == self.model().entries[k],
            decreases self.model().entries.len() - i,
        {
            v.push(&self.entries[i]);
            i = i + 1;
        }
        v
    }

    /// Returns the entry at `index`, if there is one.
    pub fn get_entry(&self, index: usize) -> (e: Option<&Entry<E>>)
        ensures
            index < self.model().entries.len() ==> e == Some(&self.model().entries[index as int]),
            index >= self.model().entries.len() ==> e is None,
    {
        if index < self.entries.len() {
            Some(&self.entries[index])
        } else {
            None
        }
    }
}

impl<E: std::fmt::Display, S> Record<E, S> {
    /// Returns the text of the action that the next undo would undo.
    pub fn undo_string(&self) -> (res: Option<String>)
        requires
            self.wf(),
        ensures
            res is Some <==> self.model().index > 0,
            res matches Some(s) ==> vstd::string::to_string_from_display_ensures(&self.actions()[self.model().index - 1], s),
    {
        if self.index > 0 {
            self.string_at(self.index - 1)
        } else {
            None
        }
    }

    /// Returns the text of the action that the next redo would redo.
    pub fn redo_string(&self) -> (res: Option<String>)
        requires
            self.wf(),
        ensures
            res is Some <==> self.model().index < self.model().entries.len(),
            res matches Some(s) ==> vstd::string::to_string_from_display_ensures(&self.actions()[self.model().index as int], s),
    {
        self.string_at(self.index)
    }

    fn string_at(&self, i: usize) -> (res: Option<String>)
        ensures
            res is Some <==> i < self.model().entries.len(),
            res matches Some(s) ==> vstd::string::to_string_from_display_ensures(&self.actions()[i as int], s),
    {
        if i < self.entries.len() {
            Some(self.entries[i].get().to_string())
        } else {
            None
        }
    }
}

impl<E, S: Slot> Record<E, S> {
    /// Hands `event` to the slot when `cond` holds.
    pub(crate) fn emit_if(&mut self, cond: bool, event: Event)
        ensures
            final(self).model() == old(self).model(),
            final(self).spec_socket().is_connected() == old(self).spec_socket().is_connected(),
            final(self).spec_socket().log() == old(self).spec_socket().log_after(
                if cond { seq![event] } else { Seq::empty() },
            ),
    {
        self.socket.emit_if(cond, event);
    }

    /// Marks the target as being in the saved state, or as not being in it.
    pub fn set_saved(&mut self, saved: bool)
        requires
            old(self).wf(),
        ensures
            final(self).wf(),
            final(self).model() == (Model {
                saved: if saved { Some(old(self).model().index) } else { None },
                ..old(self).model()
            }),
            final(self).spec_socket().is_connected() == old(self).spec_socket().is_connected(),
            final(self).spec_socket().log() == old(self).spec_socket().log_after(
                if saved && old(self).model().saved != Some(old(self).model().index) {
                    seq![Event::Saved(true)]
                } else if !saved && old(self).model().saved == Some(old(self).model().index) {
                    seq![Event::Saved(false)]
                } else {
                    Seq::empty()
                },
            ),
    {
        let was_saved = self.is_saved();
        if saved {
            self.saved = Some(self.index);
            self.socket.emit_if(!was_saved, Event::Saved(true));
        } else {
            self.saved = None;
            self.socket.emit_if(was_saved, Event::Saved(false));
        }
    }

    /// Removes all actions from the record without undoing them. The target
    /// stays saved if it was.
    pub fn clear(&mut self)
        requires
            old(self).wf(),
        ensures
            final(self).wf(),
            final(self).model() == (Model::<E> {
                entries: Seq::empty(),
                index: 0,
                saved: if old(self).model().saved == Some(old(self).model().index) { Some(0usize) } else { None },
                limit: old(self).model().limit,
            }),
            final(self).spec_socket().is_connected() == old(self).spec_socket().is_connected(),
            final(self).spec_socket().log() == old(self).spec_socket().log_after(
                (if old(self).model().index > 0 { seq![Event::Undo(false)] } else { Seq::empty() })
                + (if old(self).model().index < old(self).model().entries.len() { seq![Event::Redo(false)] } else { Seq::empty() })
                + (if old(self).model().index != 0 { seq![Event::Index(0)] } else { Seq::empty() }),
            ),
    {
        let old_index = self.index;
        let could_undo = self.can_undo();
        let could_redo = self.can_redo();
        let was_saved = self.is_saved();
        self.entries.clear();
        self.saved = if was_saved { Some(0) } else { None };
        self.index = 0;
        self.socket.emit_if(could_undo, Event::Undo(false));
        self.socket.emit_if(could_redo, Event::Redo(false));
        self.socket.emit_if(old_index != 0, Event::Index(0));
        assert(self.spec_socket().log() =~= old(self).spec_socket().log_after(
            (if old(self).model().index > 0 { seq![Event::Undo(false)] } else { Seq::empty() })
            + (if old(self).model().index < old(self).model().entries.len() { seq![Event::Redo(false)] } else { Seq::empty() })
            + (if old(self).model().index != 0 { seq![Event::Index(0)] } else { Seq::empty() })));
    }
}

impl<E: Action, S: Slot> Record<E, S> {
    /// Reverts the changes done to the target since the saved state: a jump
    /// to the saved index. Without a saved index nothing changes.
    pub fn revert(&mut self, target: &mut E::Target) -> (res: Vec<E::Output>)
        requires
            old(self).wf(),
        ensures
            final(self).wf(),
            match old(self).model().saved {
                Some(s) => went_to(*old(self), *old(target), s, *final(self), *final(target), res@),
                None => res@.len() == 0 && *final(self) == *old(self) && *final(target) == *old(target),
            },
    {
        match self.saved {
            Some(s) => self.go_to(target, s),
            None => Vec::new(),
        }
    }

    /// Applies `action` on the target and pushes it on top of the record.
    ///
    /// The actions that were undone are discarded. Unless the target is in
    /// the saved state, the action is merged into the last one where it can be.
    /// When the limit is reached the oldest action is dropped.
    pub fn edit(&mut self, target: &mut E::Target, action: E) -> (out: E::Output)
        requires
            old(self).wf(),
        ensures
            final(self).wf(),
            edited(*old(self), *old(target), action, *final(self), *final(target), out),
    {
        let (out, _, _, _) = self.edit_and_push(target, Entry::new(action));
        out
    }

    /// Applies the entry and pushes it; returns the output, whether it was
    /// merged or annulled, the discarded entries and the saved index if it
    /// lay among them.
    pub(crate) fn edit_and_push(&mut self, target: &mut E::Target, entry: Entry<E>) -> (res: (E::Output, bool, VecDeque<Entry<E>>, Option<usize>))
        requires
            old(self).wf(),
        ensures
            final(self).wf(),
            exists|e: Entry<E>|
                E::applied(entry.spec_edit(), *old(target), #[trigger] e.spec_edit(), *final(target), res.0)
                && (final(self).model(), res.1) == push_model(old(self).model(), e)
                && e.spec_st_undo() == entry.spec_st_undo() && e.spec_st_redo() == entry.spec_st_redo(),
            final(self).spec_socket().is_connected() == old(self).spec_socket().is_connected(),
            final(self).spec_socket().log() == old(self).spec_socket().log_after(
                push_events(old(self).model(), final(self).model()),
            ),
            res.2@ == old(self).model().entries.skip(old(self).model().index as int),
            res.3 == (match old(self).model().saved {
                Some(s) => if s > old(self).model().index { Some(s) } else { None },
                None => None,
            }),
    {
        let mut e = entry;
        let out = e.apply(target);
        let ghost done = e;
        let (merged, tail, rm_saved) = self.push(e);
        assert(E::applied(entry.spec_edit(), *old(target), done.spec_edit(), *target, out));
        (out, merged, tail, rm_saved)
    }

    /// Redoes the entry and pushes it; returns the same as `edit_and_push`.
    pub(crate) fn redo_and_push(&mut self, target: &mut E::Target, entry: Entry<E>) -> (res: (E::Output, bool, VecDeque<Entry<E>>, Option<usize>))
        requires
            old(self).wf(),
        ensures
            final(self).wf(),
            exists|e: Entry<E>|
                E::redone(entry.spec_edit(), *old(target), #[trigger] e.spec_edit(), *final(target), res.0)
                && (final(self).model(), res.1) == push_model(old(self).model(), e)
                && e.spec_st_edit() == entry.spec_st_edit() && e.spec_st_undo() == entry.spec_st_undo(),
            final(self).spec_socket().is_connected() == old(self).spec_socket().is_connected(),
            final(self).spec_socket().log() == old(self).spec_socket().log_after(
                push_events(old(self).model(), final(self).model()),
            ),
            res.2@ == old(self).model().entries.skip(old(self).model().index as int),
            res.3 == (match old(self).model().saved {
                Some(s) => if s > old(self).model().index { Some(s) } else { None },
                None => None,
            }),
    {
        let mut e = entry;
        let out = e.redo(target);
        let ghost done = e;
        let (merged, tail, rm_saved) = self.push(e);
        assert(E::redone(entry.spec_edit(), *old(target), done.spec_edit(), *target, out));
        (out, merged, tail, rm_saved)
    }

    /// Undoes the action below the index and moves the index down by one.
    /// Returns `None`, changing nothing, when there is nothing to undo.
    pub fn undo(&mut self, target: &mut E::Target) -> (res: Option<E::Output>)
        requires
            old(self).wf(),
        ensures
            final(self).wf(),
            undid(*old(self), *old(target), *final(self), *final(target), res),
    {
        if self.index > 0 {
            let old_index = self.index;
            let was_saved = match self.saved {
                Some(s) => s == self.index,
                None => false,
            };
            let i = self.index - 1;
            let out = deque_at_mut(&mut self.entries, i).undo(target);
            self.index = i;
            let is_saved = match self.saved {
                Some(s) => s == self.index,
                None => false,
            };
            let len = self.entries.len();
            self.socket.emit_if(old_index == 1, Event::Undo(false));
            self.socket.emit_if(old_index == len, Event::Redo(true));
            self.socket.emit_if(was_saved != is_saved, Event::Saved(is_saved));
            self.socket.emit(Event::Index(i));
            assert(self.model().entries =~= old(self).model().entries.update(i as int, self.model().entries[i as int]));
            assert(self.spec_socket().log() =~= old(self).spec_socket().log_after(undo_events(old(self).model())));
            Some(out)
        } else {
            None
        }
    }

    /// Repeatedly undoes or redoes until the index is `index`, and returns the
    /// outputs in order. Nothing changes, and nothing is returned, when
    /// `index` is beyond the entries.
    pub fn go_to(&mut self, target: &mut E::Target, index: usize) -> (res: Vec<E::Output>)
        requires
            old(self).wf(),
        ensures
            final(self).wf(),
            went_to(*old(self), *old(target), index, *final(self), *final(target), res@),
    {
        if index > self.entries.len() {
            return Vec::new();
        }
        let ghost m0 = self.model();
        let ghost t0 = *target;
        let ghost log0 = self.socket.log();
        let old_index = self.index;
        let could_undo = self.index > 0;
        let could_redo = self.index < self.entries.len();
        let was_saved = match self.saved {
            Some(s) => s == self.index,
            None => false,
        };
        let slot = self.socket.disconnect();
        let mut outputs: Vec<E::Output> = Vec::new();
        let ghost mut ms: Seq<Model<E>> = seq![m0];
        let ghost mut ts: Seq<E::Target> = seq![t0];
        if index > self.index {
            while self.index != index
                invariant
                    self.wf(),
                    self.model().index <= index <= self.model().entries.len(),
                    self.model().entries.len() == m0.entries.len(),
                    self.spec_socket().slot() is None,
                    self.spec_socket().log() == log0,
                    redo_trace(ms, ts, outputs@),
                    ms[0] == m0,
                    ts[0] == t0,
                    ms.last() == self.model(),
                    ts.last() == *target,
                decreases index - self.model().index,
            {
                let ghost p = self.model();
                let ghost pu = *target;
                let ghost outs = outputs@;
                let o = self.redo(target).unwrap();
                let ghost ov = o;
                outputs.push(o);
                let ghost j = p.index as int;
                assert(p.entries.map_values(|e: Entry<E>| e.spec_edit())[j] == p.entries[j].spec_edit());
                assert(self.model().entries.map_values(|e: Entry<E>| e.spec_edit())[j] == self.model().entries[j].spec_edit());
                assert(redo_step(p, pu, self.model(), *target, ov));
                proof {
                    ms = ms.push(self.model());
                    ts = ts.push(*target);
                    assert forall|k: int| 0 <= k < outputs@.len() implies #[trigger] redo_step(ms[k], ts[k], ms[k + 1], ts[k + 1], outputs@[k]) by {
                        if k < outs.len() {
                            assert(redo_step(ms.drop_last()[k], ts.drop_last()[k], ms.drop_last()[k + 1], ts.drop_last()[k + 1], outs[k]));
                        }
                    }
                }
            }
        } else {
            while self.index != index
                invariant
                    self.wf(),
                    index <= self.model().index <= self.model().entries.len(),
                    self.model().entries.len() == m0.entries.len(),
                    self.spec_socket().slot() is None,
                    self.spec_socket().log() == log0,
                    undo_trace(ms, ts, outputs@),
                    ms[0] == m0,
                    ts[0] == t0,
                    ms.last() == self.model(),
                    ts.last() == *target,
                decreases self.model().index - index,
            {
                let ghost p = self.model();
                let ghost pu = *target;
                let ghost outs = outputs@;
                let o = self.undo(target).unwrap();
                let ghost ov = o;
                outputs.push(o);
                let ghost j = p.index - 1;
                assert(p.entries.map_values(|e: Entry<E>| e.spec_edit())[j] == p.entries[j].spec_edit());
                assert(self.model().entries.map_values(|e: Entry<E>| e.spec_edit())[j] == self.model().entries[j].spec_edit());
                assert(undo_step(p, pu, self.model(), *target, ov));
                proof {
                    ms = ms.push(self.model());
                    ts = ts.push(*target);
                    assert forall|k: int| 0 <= k < outputs@.len() implies #[trigger] undo_step(ms[k], ts[k], ms[k + 1], ts[k + 1], outputs@[k]) by {
                        if k < outs.len() {
                            assert(undo_step(ms.drop_last()[k], ts.drop_last()[k], ms.drop_last()[k + 1], ts.drop_last()[k + 1], outs[k]));
                        }
                    }
                }
            }
        }
        assert(undo_trace(ms, ts, outputs@) ==> undone_steps(m0, t0, self.model(), *target, outputs@));
        assert(redo_trace(ms, ts, outputs@) ==> redone_steps(m0, t0, self.model(), *target, outputs@));
        let can_undo = self.index > 0;
        let can_redo = self.index < self.entries.len();
        let is_saved = match self.saved {
            Some(s) => s == self.index,
            None => false,
        };
        self.socket.connect(slot);
        self.socket.emit_if(could_undo != can_undo, Event::Undo(can_undo));
        self.socket.emit_if(could_redo != can_redo, Event::Redo(can_redo));
        self.socket.emit_if(was_saved != is_saved, Event::Saved(is_saved));
        let new_index = self.index;
        self.socket.emit_if(old_index != new_index, Event::Index(new_index));
        assert(self.spec_socket().log() =~= old(self).spec_socket().log_after(
            jump_events(m0, self.model())));
        outputs
    }

    /// Redoes the action at the index and moves the index up by one.
    /// Returns `None`, changing nothing, when there is nothing to redo.
    pub fn redo(&mut self, target: &mut E::Target) -> (res: Option<E::Output>)
        requires
            old(self).wf(),
        ensures
            final(self).wf(),
            redid(*old(self), *old(target), *final(self), *final(target), res),
    {
        if self.index < self.entries.len() {
            let old_index = self.index;
            let was_saved = match self.saved {
                Some(s) => s == self.index,
                None => false,
            };
            let i = self.index;
            let out = deque_at_mut(&mut self.entries, i).redo(target);
            self.index = i + 1;
            let is_saved = match self.saved {
                Some(s) => s == self.index,
                None => false,
            };
            let len = self.entries.len();
            self.socket.emit_if(old_index == 0, Event::Undo(true));
            self.socket.emit_if(old_index == len - 1, Event::Redo(false));
            self.socket.emit_if(was_saved != is_saved, Event::Saved(is_saved));
            self.socket.emit(Event::Index(i + 1));
            assert(self.model().entries =~= old(self).model().entries.update(i as int, self.model().entries[i as int]));
            assert(self.spec_socket().log() =~= old(self).spec_socket().log_after(redo_events(old(self).model())));
            Some(out)
        } else {
            None
        }
    }

    /// Drops the last entry, which lies above the index.
    pub(crate) fn pop_entry(&mut self)
        requires
            old(self).wf(),
            old(self).model().index < old(self).model().entries.len(),
        ensures
            final(self).wf(),
            final(self).model() == (Model { entries: old(self).model().entries.drop_last(), ..old(self).model() }),
            final(self).spec_socket() == old(self).spec_socket(),
    {
        self.entries.pop_back();
    }

    /// Appends `tail` to the entries, which end at the index.
    pub(crate) fn append_entries(&mut self, tail: VecDeque<Entry<E>>)
        requires
            old(self).wf(),
            old(self).model().index == old(self).model().entries.len(),
            old(self).model().entries.len() + tail@.len() <= old(self).model().limit,
        ensures
            final(self).wf(),
            final(self).model() == (Model { entries: old(self).model().entries + tail@, ..old(self).model() }),
            final(self).spec_socket() == old(self).spec_socket(),
    {
        let mut tail = tail;
        self.entries.append(&mut tail);
    }

    /// Drops the last entry and appends `tail` in its place; the saved index
    /// becomes `saved` when there is none.
    pub(crate) fn restore(&mut self, tail: VecDeque<Entry<E>>, saved: Option<usize>)
        requires
            old(self).wf(),
            old(self).model().index < old(self).model().entries.len(),
            old(self).model().entries.len() - 1 + tail@.len() <= old(self).model().limit,
        ensures
            final(self).wf(),
            final(self).model() == (Model {
                entries: old(self).model().entries.drop_last() + tail@,
                saved: match old(self).model().saved {
                    Some(s) => Some(s),
                    None => saved,
                },
                ..old(self).model()
            }),
            final(self).spec_socket() == old(self).spec_socket(),
    {
        self.entries.pop_back();
        let mut tail = tail;
        self.entries.append(&mut tail);
        if self.saved.is_none() {
            self.saved = saved;
        }
    }

    /// Discards the entries from the index on and returns them, with the
    /// saved index if it lay among them.
    pub(crate) fn rm_tail(&mut self) -> (res: (VecDeque<Entry<E>>, Option<usize>))
        requires
            old(self).wf(),
        ensures
            final(self).model() == (Model {
                entries: old(self).model().entries.take(old(self).model().index as int),
                saved: cut_saved(old(self).model().saved, old(self).model().index),
                ..old(self).model()
            }),
            final(self).spec_socket() == old(self).spec_socket(),
            res.0@ == old(self).model().entries.skip(old(self).model().index as int),
            res.1 == (match old(self).model().saved {
                Some(s) => if s > old(self).model().index { Some(s) } else { None },
                None => None,
            }),
    {
        let rm_saved = match self.saved {
            Some(s) => if s > self.index { Some(s) } else { None },
            None => None,
        };
        if rm_saved.is_some() {
            self.saved = None;
        }
        let tail = self.entries.split_off(self.index);
        (tail, rm_saved)
    }

    /// Pushes `entry` on top of the record, merging it into the last entry
    /// where possible. Returns whether it was merged or annulled, the
    /// discarded entries, and the saved index if it lay among them.
    fn push(&mut self, entry: Entry<E>) -> (res: (bool, VecDeque<Entry<E>>, Option<usize>))
        requires
            old(self).wf(),
        ensures
            final(self).wf(),
            (final(self).model(), res.0) == push_model(old(self).model(), entry),
            final(self).spec_socket().is_connected() == old(self).spec_socket().is_connected(),
            final(self).spec_socket().log() == old(self).spec_socket().log_after(
                push_events(old(self).model(), final(self).model()),
            ),
            res.1@ == old(self).model().entries.skip(old(self).model().index as int),
            res.2 == (match old(self).model().saved {
                Some(s) => if s > old(self).model().index { Some(s) } else { None },
                None => None,
            }),
    {
        let ghost m = self.model();
        let old_index = self.index;
        let could_undo = self.index > 0;
        let could_redo = self.index < self.entries.len();
        let was_saved = match self.saved {
            Some(s) => s == self.index,
            None => false,
        };
        let (tail, rm_saved) = self.rm_tail();
        let ghost cut = self.model();
        let merged = if self.index > 0 && !was_saved {
            let last = self.entries.len() - 1;
            let res = deque_at_mut(&mut self.entries, last).merge(entry);
            assert(self.model().entries =~= cut.entries.drop_last().push(self.model().entries.last()));
            res
        } else {
            Merged::No(entry)
        };
        let ghost merged_entries = self.model().entries;
        let merged_or_annulled = match merged {
            Merged::Yes => true,
            Merged::Annul => {
                self.entries.pop_back();
                self.index = self.index - 1;
                assert(self.model().entries =~= cut.entries.drop_last());
                true
            },
            Merged::No(entry) => {
                if self.limit == self.index {
                    self.entries.pop_front();
                    self.saved = match self.saved {
                        Some(s) => if s >= 1 { Some(s - 1) } else { None },
                        None => None,
                    };
                    self.entries.push_back(entry);
                    assert(self.model().entries =~= merged_entries.drop_first().push(entry));
                } else {
                    self.index = self.index + 1;
                    self.entries.push_back(entry);
                }
                false
            },
        };
        let ghost n = self.model();
        assert(n == push_model(m, entry).0);
        self.socket.emit_if(could_redo, Event::Redo(false));
        self.socket.emit_if(!could_undo, Event::Undo(true));
        self.socket.emit_if(was_saved, Event::Saved(false));
        let new_index = self.index;
        self.socket.emit_if(old_index != new_index, Event::Index(new_index));
        (merged_or_annulled, tail, rm_saved)
    }
}

} // verus!

verus! {

/// Builder for a record.
pub struct Builder<E, S = ()> {
    capacity: usize,
    limit: usize,
    saved: bool,
    socket: Socket<S>,
    pd: std::marker::PhantomData<E>,
}

impl<E, S> Builder<E, S> {
    /// The capacity the record will be built with.
    pub closed spec fn spec_capacity(&self) -> usize {
        self.capacity
    }

    /// The limit the record will be built with.
    pub closed spec fn spec_limit(&self) -> usize {
        self.limit
    }

    /// Whether the record will start in the saved state.
    pub closed spec fn spec_saved(&self) -> bool {
        self.saved
    }

    /// The socket the record will be built with.
    pub closed spec fn spec_socket(&self) -> Socket<S> {
        self.socket
    }

    /// Returns a builder: no capacity, no limit, saved, no slot.
    pub fn new() -> (b: Builder<E, S>)
        ensures
            b.spec_capacity() == 0,
            b.spec_limit() == usize::MAX,
            b.spec_saved(),
            b.spec_socket().slot() is None,
            b.spec_socket().log().len() == 0,
    {
        Builder {
            capacity: 0,
            limit: usize::MAX,
            saved: true,
            socket: Socket::empty(),
            pd: std::marker::PhantomData,
        }
    }

    /// Sets the capacity for the record.
    pub fn capacity(self, capacity: usize) -> (b: Builder<E, S>)
        ensures
            b.spec_capacity() == capacity,
            b.spec_limit() == self.spec_limit(),
            b.spec_saved() == self.spec_saved(),
            b.spec_socket() == self.spec_socket(),
    {
        Builder { capacity, ..self }
    }

    /// Sets the limit of the record: the most actions it keeps. The limit
    /// must not be 0.
    pub fn limit(self, limit: usize) -> (b: Builder<E, S>)
        requires
            limit > 0,
        ensures
            b.spec_capacity() == self.spec_capacity(),
            b.spec_limit() == limit,
            b.spec_saved() == self.spec_saved(),
            b.spec_socket() == self.spec_socket(),
    {
        Builder { limit, ..self }
    }

    /// Sets if the target is initially in the saved state.
    pub fn saved(self, saved: bool) -> (b: Builder<E, S>)
        ensures
            b.spec_capacity() == self.spec_capacity(),
            b.spec_limit() == self.spec_limit(),
            b.spec_saved() == saved,
            b.spec_socket() == self.spec_socket(),
    {
        Builder { saved, ..self }
    }

    /// Connects the slot.
    pub fn connect(self, slot: S) -> (b: Builder<E, S>)
        ensures
            b.spec_capacity() == self.spec_capacity(),
            b.spec_limit() == self.spec_limit(),
            b.spec_saved() == self.spec_saved(),
            b.spec_socket().slot() == Some(slot),
            b.spec_socket().log().len() == 0,
    {
        Builder { socket: Socket::new(slot), ..self }
    }

    /// Builds the record: empty, with the index at 0.
    pub fn build(self) -> (r: Record<E, S>)
        requires
            self.spec_limit() > 0,
        ensures
            r.wf(),
            r.model().entries.len() == 0,
            r.model().index == 0,
            r.model().saved == (if self.spec_saved() { Some(0usize) } else { None }),
            r.model().limit == self.spec_limit(),
            r.spec_socket() == self.spec_socket(),
    {
        Record::from_parts(self.limit, self.saved, self.socket, self.capacity)
    }
}

impl<E> Default for Builder<E> {
    fn default() -> (b: Builder<E>)
        ensures
            b.spec_capacity() == 0,
            b.spec_limit() == usize::MAX,
            b.spec_saved(),
            b.spec_socket().slot() is None,
            b.spec_socket().log().len() == 0,
    {
        Builder::new()
    }
}

} // verus!
