//! A history tree of actions.

mod checkpoint;
mod display;
mod queue;

pub use checkpoint::{cancel_step, cancel_trace, cancelled, Checkpoint, CheckpointEntry};
pub use display::{
    branch_rows, child_rows, entry_index, graph_rows, history_rows, increasing, node_start, node_text, row_text, row_view,
    rows_text, rows_view, sorted_keys, top_rows, Display, Row, SpecRow,
};
pub use queue::{committed, queue_step, queue_trace, Queue, QueueEntry};

use crate::entry::{Entry, Time};
use crate::record::{self, Record};
use crate::socket::{Event, Slot, Socket};
use crate::{Action, At};
use slab::Slab;
use std::collections::HashMap;
use std::collections::VecDeque;
use vstd::prelude::*;

verus! {

broadcast use vstd::std_specs::hash::group_hash_axioms;

/// A slab of the crate `slab`: here it hands out the ids of the branches.
#[verifier::external_type_specification]
#[verifier::external_body]
#[verifier::reject_recursive_types(T)]
pub struct ExSlab<T>(Slab<T>);

/// `Clone` of a slab (copies its entries and its next key). It is called by
/// the derived `Clone` of a history; nothing is claimed of the copy, as the
/// statement would have to hold of every item type.
pub assume_specification<T: Clone>[ <Slab<T> as Clone>::clone ](s: &Slab<T>) -> (r: Slab<T>);

/// The keys that the slab holds.
pub uninterp spec fn slab_keys(s: Slab<()>) -> Set<usize>;

/// The key that the slab hands out on the next insert.
pub uninterp spec fn slab_next(s: Slab<()>) -> usize;

/// `Slab::new`: an empty slab, whose next key is 0.
#[verifier::external_body]
fn slab_new() -> (s: Slab<()>)
    ensures
        slab_keys(s) == Set::<usize>::empty(),
        slab_next(s) == 0,
{
    Slab::new()
}

/// `Slab::insert`: stores a value under the next key and returns that key,
/// which was not in use.
#[verifier::external_body]
fn slab_insert(s: &mut Slab<()>) -> (k: usize)
    ensures
        k == slab_next(*old(s)),
        !slab_keys(*old(s)).contains(k),
        slab_keys(*final(s)) == slab_keys(*old(s)).insert(k),
{
    s.insert(())
}

/// `Slab::remove`: removes the key. It panics on a key that is not held.
#[verifier::external_body]
fn slab_remove(s: &mut Slab<()>, k: usize)
    requires
        slab_keys(*old(s)).contains(k),
    ensures
        slab_keys(*final(s)) == slab_keys(*old(s)).remove(k),
{
    s.remove(k)
}

/// `Slab::clear`: removes every key; the next key is 0 again.
#[verifier::external_body]
fn slab_clear(s: &mut Slab<()>)
    ensures
        slab_keys(*final(s)) == Set::<usize>::empty(),
        slab_next(*final(s)) == 0,
{
    s.clear()
}

/// `Slab::iter`, keys only: the keys in increasing order.
#[verifier::external_body]
fn slab_keys_in_order(s: &Slab<()>) -> (v: Vec<usize>)
    ensures
        forall|i: int, j: int| 0 <= i < j < v@.len() ==> v@[i] < v@[j],
        forall|k: usize| slab_keys(*s).contains(k) <==> v@.contains(k),
        v@.len() <= isize::MAX,
{
    s.iter().map(|(k, _)| k).collect()
}

/// A branch in the history: the entries that continue the branch `parent.root`
/// after its first `parent.index` entries.
#[derive(Clone, Debug)]
pub struct Branch<E> {
    parent: At,
    entries: VecDeque<Entry<E>>,
}

impl<E> Branch<E> {
    /// The position the branch starts from.
    pub closed spec fn spec_parent(&self) -> At {
        self.parent
    }

    /// The entries of the branch, oldest first.
    pub closed spec fn spec_entries(&self) -> Seq<Entry<E>> {
        self.entries@
    }

    /// This branch with its parent replaced by `parent`.
    pub closed spec fn with_parent(self, parent: At) -> Branch<E> {
        Branch { parent, ..self }
    }

    /// The empty branch that stands in for the root and for branches that
    /// are being moved.
    pub open spec fn is_nil(&self) -> bool {
        self.spec_parent() == At::spec_nil() && self.spec_entries().len() == 0
    }

    /// Returns the empty branch.
    pub fn nil() -> (b: Branch<E>)
        ensures
            b.is_nil(),
    {
        Branch { parent: At::nil(), entries: VecDeque::new() }
    }

    /// Returns a branch from its parent and entries.
    pub fn from_parts(parent: At, entries: VecDeque<Entry<E>>) -> (b: Branch<E>)
        ensures
            b.spec_parent() == parent,
            b.spec_entries() == entries@,
    {
        Branch { parent, entries }
    }

    /// Returns the parent position of the branch.
    pub fn parent(&self) -> (at: At)
        ensures
            at == self.spec_parent(),
    {
        self.parent
    }

    /// Returns the number of entries in the branch.
    pub fn len(&self) -> (n: usize)
        ensures
            n == self.spec_entries().len(),
    {
        self.entries.len()
    }

    /// Returns `true` if the branch is empty.
    pub fn is_empty(&self) -> (b: bool)
        ensures
            b == (self.spec_entries().len() == 0),
    {
        self.entries.len() == 0
    }

    /// Returns the entry at `index`, if there is one.
    pub fn get_entry(&self, index: usize) -> (e: Option<&Entry<E>>)
        ensures
            index < self.spec_entries().len() ==> e == Some(&self.spec_entries()[index as int]),
            index >= self.spec_entries().len() ==> e is None,
    {
        if index < self.entries.len() {
            Some(&self.entries[index])
        } else {
            None
        }
    }

    /// Returns the entries of the branch, oldest first.
    pub fn entries(&self) -> (v: Vec<&Entry<E>>)
        ensures
            v@.len() == self.spec_entries().len(),
            forall|i: int| 0 <= i < v@.len() ==> *v@[i] == self.spec_entries()[i],
    {
        let mut v: Vec<&Entry<E>> = Vec::new();
        let mut i: usize = 0;
        while i < self.entries.len()
            invariant
                i <= self.spec_entries().len(),
                v@.len() == i,
                forall|k: int| 0 <= k < i ==> *v@[k] == self.spec_entries()[k],
            decreases self.spec_entries().len() - i,
        {
            v.push(&self.entries[i]);
            i = i + 1;
        }
        v
    }

    /// Takes the entries out of the branch.
    pub(crate) fn into_entries(self) -> (v: VecDeque<Entry<E>>)
        ensures
            v@ == self.spec_entries(),
    {
        self.entries
    }
}

} // verus!

verus! {


/// The branches after a new root `new` takes over: the branches that hung
/// from the old root at or below the split point now hang from the new root.
pub open spec fn reparented<E>(b: Map<usize, Branch<E>>, old_root: usize, new: At) -> Map<usize, Branch<E>> {
    Map::new(
        |k: usize| b.dom().contains(k),
        |k: usize|
            if b[k].spec_parent().root == old_root && b[k].spec_parent().index <= new.index {
                b[k].with_parent(At { root: new.root, index: b[k].spec_parent().index })
            } else {
                b[k]
            },
    )
}

/// What `discard_to(b)` does to `h`, giving `q`. When `b` is a branch other
/// than the current one and its entries fit within the limit above the
/// index, the entries above the index are dropped, the entries of `b` take
/// their place and `b` becomes the current branch (see `reparented` and the
/// saved position as `set_root` moves it); the branch that was current is
/// removed. Otherwise nothing changes.
pub open spec fn discarded_to<E, S>(h: History<E, S>, b: usize, q: History<E, S>) -> bool {
    let m = h.spec_record().model();
    let x = h.spec_root();
    let i = m.index;
    let new = At { root: b, index: i };
    let rm_saved = match m.saved {
        Some(s) => if s > i { Some(s) } else { None },
        None => None,
    };
    if b == x || !h.spec_ids().contains(b) || i + h.spec_branches()[b].spec_entries().len() > m.limit {
        q == h
    } else {
        &&& q.spec_root() == b
        &&& q.spec_ids() == h.spec_ids().remove(x)
        &&& q.spec_branches().dom() == h.spec_branches().dom().remove(x)
        &&& q.spec_branches()[b].spec_entries().len() == 0
        &&& forall|k: usize| #![trigger q.spec_branches()[k]] q.spec_branches().dom().contains(k) && k != b
            ==> q.spec_branches()[k] == reparented(h.spec_branches(), x, new)[k]
        &&& q.spec_saved() == saved_after_set_root(h.spec_saved(), rm_saved, x, new)
        &&& q.spec_record().model() == (record::Model {
            entries: m.entries.take(i as int) + h.spec_branches()[b].spec_entries(),
            saved: record_saved_after_set_root(record::cut_saved(m.saved, i), h.spec_saved(), rm_saved, new),
            ..m
        })
        &&& q.spec_record().spec_socket().is_connected() == h.spec_record().spec_socket().is_connected()
        &&& q.spec_record().spec_socket().log() == h.spec_record().spec_socket().log_after(seq![Event::Root(b)])
    }
}

/// A history tree of actions.
///
/// Unlike [`Record`], which keeps a linear list, a history keeps every action
/// made to the target: a new action after an undo starts a new branch instead
/// of discarding the undone actions. The current branch (the root) is held by
/// a record; the other branches hang from positions in other branches.
#[derive(Clone)]
pub struct History<E, S = ()> {
    root: usize,
    saved: Option<At>,
    record: Record<E, S>,
    ids: Slab<()>,
    branches: HashMap<usize, Branch<E>>,
}

impl<E, S> History<E, S> {
    /// The id of the current branch.
    pub closed spec fn spec_root(&self) -> usize {
        self.root
    }

    /// The saved position when it lies outside the current branch.
    pub closed spec fn spec_saved(&self) -> Option<At> {
        self.saved
    }

    /// The record that holds the current branch.
    pub closed spec fn spec_record(&self) -> Record<E, S> {
        self.record
    }

    /// The ids of the branches, the current one included.
    pub closed spec fn spec_ids(&self) -> Set<usize> {
        slab_keys(self.ids)
    }

    /// The branches by id; the current branch has an empty entry here.
    pub closed spec fn spec_branches(&self) -> Map<usize, Branch<E>> {
        self.branches@
    }

    /// The history is well formed: its record is, the branch ids are the
    /// keys of the branches, and the current branch has an empty entry.
    pub open spec fn wf(&self) -> bool {
        &&& self.spec_record().wf()
        &&& self.spec_ids() == self.spec_branches().dom()
        &&& self.spec_ids().contains(self.spec_root())
        &&& self.spec_branches()[self.spec_root()].spec_entries().len() == 0
    }

    /// Returns a history that starts from `record`: the current branch gets
    /// the id 0.
    pub fn from_record(record: Record<E, S>) -> (h: History<E, S>)
        requires
            record.wf(),
        ensures
            h.wf(),
            h.spec_root() == 0,
            h.spec_saved() is None,
            h.spec_record() == record,
            h.spec_ids() == Set::<usize>::empty().insert(0),
            h.spec_branches()[0].is_nil(),
    {
        let mut ids = slab_new();
        let root = slab_insert(&mut ids);
        let mut branches: HashMap<usize, Branch<E>> = HashMap::new();
        branches.insert(root, Branch::nil());
        assert(slab_keys(ids) =~= branches@.dom());
        History { root, saved: None, record, ids, branches }
    }

    /// Returns the record that holds the current branch.
    pub fn into_record(self) -> (r: Record<E, S>)
        ensures
            r == self.spec_record(),
    {
        self.record
    }

    /// Returns a new history builder.
    pub fn builder() -> (b: Builder<E, S>)
        ensures
            b.spec_record_builder().spec_capacity() == 0,
            b.spec_record_builder().spec_limit() == usize::MAX,
            b.spec_record_builder().spec_saved(),
            b.spec_record_builder().spec_socket().slot() is None,
            b.spec_record_builder().spec_socket().log().len() == 0,
    {
        Builder::new()
    }

    /// Reserves capacity for at least `additional` more actions.
    pub fn reserve(&mut self, additional: usize)
        ensures
            final(self).spec_record().model() == old(self).spec_record().model(),
            final(self).spec_record().spec_socket() == old(self).spec_record().spec_socket(),
            final(self).spec_root() == old(self).spec_root(),
            final(self).spec_saved() == old(self).spec_saved(),
            final(self).spec_ids() == old(self).spec_ids(),
            final(self).spec_branches() == old(self).spec_branches(),
    {
        self.record.reserve(additional);
    }

    /// Returns the capacity of the current branch.
    pub fn capacity(&self) -> (c: usize)
        ensures
            c >= self.spec_record().model().entries.len(),
    {
        self.record.capacity()
    }

    /// Shrinks the capacity of the current branch as much as possible.
    pub fn shrink_to_fit(&mut self)
        ensures
            final(self).spec_record().model() == old(self).spec_record().model(),
            final(self).spec_record().spec_socket() == old(self).spec_record().spec_socket(),
            final(self).spec_root() == old(self).spec_root(),
            final(self).spec_saved() == old(self).spec_saved(),
            final(self).spec_ids() == old(self).spec_ids(),
            final(self).spec_branches() == old(self).spec_branches(),
    {
        self.record.shrink_to_fit();
    }

    /// Returns the number of actions in the current branch.
    pub fn len(&self) -> (n: usize)
        ensures
            n == self.spec_record().model().entries.len(),
    {
        self.record.len()
    }

    /// Returns `true` if the current branch is empty.
    pub fn is_empty(&self) -> (b: bool)
        ensures
            b == (self.spec_record().model().entries.len() == 0),
    {
        self.record.is_empty()
    }

    /// Returns the limit of the history.
    pub fn limit(&self) -> (n: usize)
        ensures
            n == self.spec_record().model().limit,
    {
        self.record.limit()
    }

    /// Sets the slot that handles the events; returns the previous one.
    pub fn connect(&mut self, slot: S) -> (prev: Option<S>)
        ensures
            prev == old(self).spec_record().spec_socket().slot(),
            final(self).spec_record().spec_socket().slot() == Some(slot),
            final(self).spec_record().spec_socket().log() == old(self).spec_record().spec_socket().log(),
            final(self).spec_record().model() == old(self).spec_record().model(),
            final(self).spec_root() == old(self).spec_root(),
            final(self).spec_saved() == old(self).spec_saved(),
            final(self).spec_ids() == old(self).spec_ids(),
            final(self).spec_branches() == old(self).spec_branches(),
    {
        self.record.connect(slot)
    }

    /// Removes and returns the slot if it exists.
    pub fn disconnect(&mut self) -> (prev: Option<S>)
        ensures
            prev == old(self).spec_record().spec_socket().slot(),
            final(self).spec_record().spec_socket().slot() is None,
            final(self).spec_record().spec_socket().log() == old(self).spec_record().spec_socket().log(),
            final(self).spec_record().model() == old(self).spec_record().model(),
            final(self).spec_root() == old(self).spec_root(),
            final(self).spec_saved() == old(self).spec_saved(),
            final(self).spec_ids() == old(self).spec_ids(),
            final(self).spec_branches() == old(self).spec_branches(),
    {
        self.record.disconnect()
    }

    /// Returns `true` if the target is in the saved state.
    pub fn is_saved(&self) -> (b: bool)
        ensures
            b == (self.spec_record().model().saved == Some(self.spec_record().model().index)),
    {
        self.record.is_saved()
    }

    /// Returns the saved position: in the current branch if it lies there,
    /// otherwise the one kept for another branch.
    pub fn saved(&self) -> (at: Option<At>)
        ensures
            at == match self.spec_record().model().saved {
                Some(i) => Some(At { root: self.spec_root(), index: i }),
                None => self.spec_saved(),
            },
    {
        match self.record.saved_index() {
            Some(i) => Some(At::new(self.root, i)),
            None => self.saved,
        }
    }

    /// Returns `true` if the history can undo.
    pub fn can_undo(&self) -> (b: bool)
        ensures
            b == (self.spec_record().model().index > 0),
    {
        self.record.can_undo()
    }

    /// Returns `true` if the history can redo.
    pub fn can_redo(&self) -> (b: bool)
        ensures
            b == (self.spec_record().model().index < self.spec_record().model().entries.len()),
    {
        self.record.can_redo()
    }

    /// Returns the current position in the history.
    pub fn head(&self) -> (at: At)
        ensures
            at == (At { root: self.spec_root(), index: self.spec_record().model().index }),
    {
        At::new(self.root, self.record.index())
    }

    /// Returns the entry at `index` in the current branch.
    pub fn get_entry(&self, index: usize) -> (e: Option<&Entry<E>>)
        ensures
            index < self.spec_record().model().entries.len() ==> e == Some(&self.spec_record().model().entries[index as int]),
            index >= self.spec_record().model().entries.len() ==> e is None,
    {
        self.record.get_entry(index)
    }

    /// Returns the entries of the current branch, oldest first.
    pub fn entries(&self) -> (v: Vec<&Entry<E>>)
        ensures
            v@.len() == self.spec_record().model().entries.len(),
            forall|i: int| 0 <= i < v@.len() ==> *v@[i] == self.spec_record().model().entries[i],
    {
        self.record.entries()
    }

    /// Returns the branch with the given id.
    pub fn get_branch(&self, id: usize) -> (b: Option<&Branch<E>>)
        ensures
            self.spec_branches().contains_key(id) ==> b == Some(&self.spec_branches()[id]),
            !self.spec_branches().contains_key(id) ==> b is None,
    {
        self.branches.get(&id)
    }

    /// Returns the branches with their ids, in increasing order of id.
    pub fn branches(&self) -> (v: Vec<(usize, &Branch<E>)>)
        requires
            self.wf(),
        ensures
            forall|i: int, j: int| 0 <= i < j < v@.len() ==> v@[i].0 < v@[j].0,
            forall|k: usize| self.spec_ids().contains(k) <==> exists|i: int| 0 <= i < v@.len() && v@[i].0 == k,
            forall|i: int| 0 <= i < v@.len() ==> *v@[i].1 == self.spec_branches()[v@[i].0],
    {
        let keys = slab_keys_in_order(&self.ids);
        let mut v: Vec<(usize, &Branch<E>)> = Vec::new();
        let mut i: usize = 0;
        while i < keys.len()
            invariant
                self.wf(),
                i <= keys@.len(),
                v@.len() == i,
                forall|a: int, b: int| 0 <= a < b < keys@.len() ==> keys@[a] < keys@[b],
                forall|k: usize| slab_keys(self.ids).contains(k) <==> keys@.contains(k),
                forall|a: int| 0 <= a < i ==> v@[a].0 == keys@[a] && *v@[a].1 == self.spec_branches()[keys@[a]],
            decreases keys@.len() - i,
        {
            let k = keys[i];
            assert(keys@.contains(k));
            let b = self.branches.get(&k).unwrap();
            v.push((k, b));
            i = i + 1;
        }
        assert forall|k: usize| self.spec_ids().contains(k) implies exists|a: int| 0 <= a < v@.len() && v@[a].0 == k by {
            let a = choose|a: int| 0 <= a < keys@.len() && keys@[a] == k;
            assert(v@[a].0 == k);
        }
        assert forall|k: usize| (exists|a: int| 0 <= a < v@.len() && v@[a].0 == k) implies self.spec_ids().contains(k) by {
            let a = choose|a: int| 0 <= a < v@.len() && v@[a].0 == k;
            assert(keys@[a] == k);
            assert(keys@.contains(k));
        }
        assert forall|a: int| 0 <= a < v@.len() implies *v@[a].1 == self.spec_branches()[v@[a].0] by {
            assert(v@[a].0 == keys@[a]);
        }
        assert forall|a: int, b: int| 0 <= a < b < v@.len() implies v@[a].0 < v@[b].0 by {
            assert(v@[a].0 == keys@[a] && v@[b].0 == keys@[b]);
        }
        v
    }
}

} // verus!

verus! {

/// Builder for a history.
pub struct Builder<E, S = ()>(record::Builder<E, S>);

impl<E, S> Builder<E, S> {
    /// The builder of the record that will hold the current branch.
    pub closed spec fn spec_record_builder(&self) -> record::Builder<E, S> {
        self.0
    }

    /// Returns a builder: no capacity, no limit, saved, no slot.
    pub fn new() -> (b: Builder<E, S>)
        ensures
            b.spec_record_builder().spec_capacity() == 0,
            b.spec_record_builder().spec_limit() == usize::MAX,
            b.spec_record_builder().spec_saved(),
            b.spec_record_builder().spec_socket().slot() is None,
            b.spec_record_builder().spec_socket().log().len() == 0,
    {
        Builder(record::Builder::new())
    }

    /// Sets the capacity for the history.
    pub fn capacity(self, capacity: usize) -> (b: Builder<E, S>)
        ensures
            b.spec_record_builder().spec_capacity() == capacity,
            b.spec_record_builder().spec_limit() == self.spec_record_builder().spec_limit(),
            b.spec_record_builder().spec_saved() == self.spec_record_builder().spec_saved(),
            b.spec_record_builder().spec_socket() == self.spec_record_builder().spec_socket(),
    {
        Builder(self.0.capacity(capacity))
    }

    /// Sets the limit for the history; it must not be 0.
    pub fn limit(self, limit: usize) -> (b: Builder<E, S>)
        requires
            limit > 0,
        ensures
            b.spec_record_builder().spec_capacity() == self.spec_record_builder().spec_capacity(),
            b.spec_record_builder().spec_limit() == limit,
            b.spec_record_builder().spec_saved() == self.spec_record_builder().spec_saved(),
            b.spec_record_builder().spec_socket() == self.spec_record_builder().spec_socket(),
    {
        Builder(self.0.limit(limit))
    }

    /// Sets if the target is initially in the saved state.
    pub fn saved(self, saved: bool) -> (b: Builder<E, S>)
        ensures
            b.spec_record_builder().spec_capacity() == self.spec_record_builder().spec_capacity(),
            b.spec_record_builder().spec_limit() == self.spec_record_builder().spec_limit(),
            b.spec_record_builder().spec_saved() == saved,
            b.spec_record_builder().spec_socket() == self.spec_record_builder().spec_socket(),
    {
        Builder(self.0.saved(saved))
    }

    /// Connects the slot.
    pub fn connect(self, slot: S) -> (b: Builder<E, S>)
        ensures
            b.spec_record_builder().spec_capacity() == self.spec_record_builder().spec_capacity(),
            b.spec_record_builder().spec_limit() == self.spec_record_builder().spec_limit(),
            b.spec_record_builder().spec_saved() == self.spec_record_builder().spec_saved(),
            b.spec_record_builder().spec_socket().slot() == Some(slot),
            b.spec_record_builder().spec_socket().log().len() == 0,
    {
        Builder(self.0.connect(slot))
    }

    /// Builds the history: a record built by the record builder, as the
    /// branch with id 0.
    pub fn build(self) -> (h: History<E, S>)
        requires
            self.spec_record_builder().spec_limit() > 0,
        ensures
            h.wf(),
            h.spec_root() == 0,
            h.spec_saved() is None,
            h.spec_ids() == Set::<usize>::empty().insert(0),
            h.spec_record().model().entries.len() == 0,
            h.spec_record().model().index == 0,
            h.spec_record().model().saved == (if self.spec_record_builder().spec_saved() { Some(0usize) } else { None }),
            h.spec_record().model().limit == self.spec_record_builder().spec_limit(),
            h.spec_record().spec_socket() == self.spec_record_builder().spec_socket(),
    {
        History::from_record(self.0.build())
    }
}

impl<E> Default for Builder<E> {
    fn default() -> (b: Builder<E>)
        ensures
            b.spec_record_builder().spec_capacity() == 0,
            b.spec_record_builder().spec_limit() == usize::MAX,
            b.spec_record_builder().spec_saved(),
            b.spec_record_builder().spec_socket().slot() is None,
            b.spec_record_builder().spec_socket().log().len() == 0,
    {
        Builder::new()
    }
}

impl<E> History<E> {
    /// Returns a new history: one empty branch with id 0, saved, no slot and
    /// no limit.
    pub fn new() -> (h: History<E>)
        ensures
            h.wf(),
            h.spec_root() == 0,
            h.spec_saved() is None,
            h.spec_ids() == Set::<usize>::empty().insert(0),
            h.spec_record().model().entries.len() == 0,
            h.spec_record().model().index == 0,
            h.spec_record().model().saved == Some(0usize),
            h.spec_record().model().limit == usize::MAX,
            !h.spec_record().spec_socket().is_connected(),
            h.spec_record().spec_socket().log().len() == 0,
    {
        History::builder().build()
    }
}

impl<E> Default for History<E> {
    fn default() -> (h: History<E>)
        ensures
            h.wf(),
            h.spec_root() == 0,
            h.spec_saved() is None,
            h.spec_ids() == Set::<usize>::empty().insert(0),
            h.spec_record().model().entries.len() == 0,
            h.spec_record().model().index == 0,
            h.spec_record().model().saved == Some(0usize),
            h.spec_record().model().limit == usize::MAX,
    {
        History::new()
    }
}

} // verus!

verus! {

/// What an edit does: `action` is applied to the target and pushed on top of
/// the current branch as on a record (see `record::push_model`). When
/// actions above the index are discarded by the push, they are kept instead:
/// the current branch keeps them and hangs from the position of the index in
/// a new current branch, which continues with the new action; the branches
/// hanging from the old current branch at or below the index move to the new
/// one (see `reparented`). When the oldest action of the current branch is
/// dropped for the limit, the branches hanging from it go, with the branches
/// hanging from those, and the other branches of the current branch move one
/// position down (see `shifted_down`).
pub open spec fn edited<E: Action, S>(h: History<E, S>, t: E::Target, action: E, q: History<E, S>, u: E::Target, out: E::Output) -> bool {
    exists|e: Entry<E>| E::applied(action, t, #[trigger] e.spec_edit(), u, out)
        && e.spec_st_undo() == Time::spec_epoch() && e.spec_st_redo() == Time::spec_epoch() && {
        let (m, merged) = record::push_model(h.spec_record().model(), e);
        let i = h.spec_record().model().index;
        let x = h.spec_root();
        let events = record::push_events(h.spec_record().model(), m);
        &&& q.spec_record().spec_socket().is_connected() == h.spec_record().spec_socket().is_connected()
        &&& if i < h.spec_record().model().entries.len() {
            let next = q.spec_root();
            let new = At { root: next, index: i };
            let rm_saved = match h.spec_record().model().saved {
                Some(s) => if s > i { Some(s) } else { None },
                None => None,
            };
            &&& !h.spec_ids().contains(next)
            &&& q.spec_ids() == h.spec_ids().insert(next)
            &&& q.spec_branches().dom() == h.spec_branches().dom().insert(next)
            &&& q.spec_branches()[next].spec_entries().len() == 0
            &&& q.spec_branches()[x].spec_parent() == new
            &&& q.spec_branches()[x].spec_entries() == h.spec_record().model().entries.skip(i as int)
            &&& forall|k: usize| #![trigger q.spec_branches()[k]] h.spec_branches().dom().contains(k) && k != x
                ==> q.spec_branches()[k] == reparented(h.spec_branches(), x, new)[k]
            &&& q.spec_saved() == saved_after_set_root(h.spec_saved(), rm_saved, x, new)
            &&& q.spec_record().model() == (record::Model {
                saved: record_saved_after_set_root(m.saved, h.spec_saved(), rm_saved, new),
                ..m
            })
            &&& q.spec_record().spec_socket().log() == h.spec_record().spec_socket().log_after(events + seq![Event::Root(next)])
        } else if !merged && m.index == i {
            let removed = h.spec_ids().difference(q.spec_ids());
            &&& q.spec_root() == x
            &&& q.spec_ids().subset_of(h.spec_ids())
            &&& removed_from(h.spec_branches(), At { root: x, index: 0 }, removed, q.spec_ids(), x)
            &&& q.spec_branches() == shifted_down(h.spec_branches().restrict(q.spec_ids()), x, x)
            &&& q.spec_saved() == (match h.spec_saved() {
                Some(s) => if removed.contains(s.root) { None } else { h.spec_saved() },
                None => None,
            })
            &&& q.spec_record().model() == m
            &&& q.spec_record().spec_socket().log() == h.spec_record().spec_socket().log_after(events)
        } else {
            &&& q.spec_root() == x
            &&& q.spec_ids() == h.spec_ids()
            &&& q.spec_branches() == h.spec_branches()
            &&& q.spec_saved() == h.spec_saved()
            &&& q.spec_record().model() == m
            &&& q.spec_record().spec_socket().log() == h.spec_record().spec_socket().log_after(events)
        }
    }
}

/// `p` is the way from branch `to` to the current branch `root`: `p[0]` is
/// `to`, each branch of `p` hangs from the next one and the last hangs from
/// `root`; the branches are distinct, other than `root`, and in `ids`.
pub open spec fn valid_path<E>(br: Map<usize, Branch<E>>, ids: Set<usize>, root: usize, to: usize, p: Seq<usize>) -> bool {
    &&& p.len() > 0
    &&& p[0] == to
    &&& br[p.last()].spec_parent().root == root
    &&& forall|k: int| 0 <= k < p.len() - 1 ==> #[trigger] br[p[k]].spec_parent().root == p[k + 1]
    &&& forall|k: int, l: int| 0 <= k < l < p.len() ==> p[k] != p[l]
    &&& forall|k: int| 0 <= k < p.len() ==> ids.contains(#[trigger] p[k]) && p[k] != root
}

/// A way to the current branch is shorter than the number of branches: its
/// branches are distinct, and none of them is the current one.
pub(crate) proof fn lemma_path_shorter<E>(br: Map<usize, Branch<E>>, ids: Set<usize>, root: usize, to: usize, p: Seq<usize>)
    requires
        valid_path(br, ids, root, to, p),
        ids.finite(),
        ids.contains(root),
    ensures
        p.len() < ids.len(),
{
    assert(p.no_duplicates());
    p.unique_seq_to_set();
    assert(p.to_set().subset_of(ids.remove(root))) by {
        assert forall|x: usize| p.to_set().contains(x) implies ids.remove(root).contains(x) by {
            let k = choose|k: int| 0 <= k < p.len() && p[k] == x;
        }
    }
    vstd::set_lib::lemma_len_subset(p.to_set(), ids.remove(root));
}

/// `q` is `h` with the branches of `p` taken out: they are left empty.
pub open spec fn taken_out<E, S>(h: History<E, S>, p: Seq<usize>, q: History<E, S>) -> bool {
    &&& q.spec_root() == h.spec_root()
    &&& q.spec_record() == h.spec_record()
    &&& q.spec_saved() == h.spec_saved()
    &&& q.spec_ids() == h.spec_ids()
    &&& q.spec_branches().dom() == h.spec_branches().dom()
    &&& forall|k: usize| #![trigger q.spec_branches()[k]] h.spec_branches().dom().contains(k) ==> if p.contains(k) {
        q.spec_branches()[k].is_nil()
    } else {
        q.spec_branches()[k] == h.spec_branches()[k]
    }
}

/// `q` has the tree of `h`: its current branch, saved position and branches.
pub open spec fn same_tree<E, S>(h: History<E, S>, q: History<E, S>) -> bool {
    &&& q.spec_root() == h.spec_root()
    &&& q.spec_saved() == h.spec_saved()
    &&& q.spec_ids() == h.spec_ids()
    &&& q.spec_branches() == h.spec_branches()
}

/// What pushing back one entry of branch `id` does during a jump: the entry
/// is redone and pushed on top of the current branch as on a record (see
/// `record::push_model`). When actions above the index are discarded by the
/// push, `id` becomes the current branch and the old current branch takes
/// its place with the discarded actions, hanging from the position of the
/// index in `id` (see `reparented`).
pub open spec fn pushed_back<E: Action, S>(h: History<E, S>, t: E::Target, id: usize, entry: Entry<E>, q: History<E, S>, u: E::Target) -> bool {
    exists|e: Entry<E>, o: E::Output| #[trigger] E::redone(entry.spec_edit(), t, e.spec_edit(), u, o) && {
        let (m, merged) = record::push_model(h.spec_record().model(), e);
        let i = h.spec_record().model().index;
        let x = h.spec_root();
        let events = record::push_events(h.spec_record().model(), m);
        &&& q.spec_record().spec_socket().is_connected() == h.spec_record().spec_socket().is_connected()
        &&& if i < h.spec_record().model().entries.len() {
            let new = At { root: id, index: i };
            let rm_saved = match h.spec_record().model().saved {
                Some(s) => if s > i { Some(s) } else { None },
                None => None,
            };
            &&& q.spec_root() == id
            &&& q.spec_ids() == h.spec_ids()
            &&& q.spec_branches().dom() == h.spec_branches().dom()
            &&& q.spec_branches()[x].spec_parent() == new
            &&& q.spec_branches()[x].spec_entries() == h.spec_record().model().entries.skip(i as int)
            &&& forall|k: usize| #![trigger q.spec_branches()[k]] h.spec_branches().dom().contains(k) && k != x
                ==> q.spec_branches()[k] == reparented(h.spec_branches(), x, new)[k]
            &&& q.spec_saved() == saved_after_set_root(h.spec_saved(), rm_saved, x, new)
            &&& q.spec_record().model() == (record::Model {
                saved: record_saved_after_set_root(m.saved, h.spec_saved(), rm_saved, new),
                ..m
            })
            &&& q.spec_record().spec_socket().log() == h.spec_record().spec_socket().log_after(events + seq![Event::Root(id)])
        } else {
            &&& same_tree(h, q)
            &&& q.spec_record().model() == m
            &&& q.spec_record().spec_socket().log() == h.spec_record().spec_socket().log_after(events)
        }
    }
}

/// The histories `hs` and the targets `ts` follow each other by pushing back
/// the entries `entries` of branch `id` in order.
pub open spec fn pushed_trace<E: Action, S>(id: usize, entries: Seq<Entry<E>>, hs: Seq<History<E, S>>, ts: Seq<E::Target>) -> bool {
    &&& hs.len() == entries.len() + 1
    &&& ts.len() == entries.len() + 1
    &&& forall|k: int| 0 <= k < entries.len() ==> #[trigger] pushed_back(hs[k], ts[k], id, entries[k], hs[k + 1], ts[k + 1])
}

/// One branch of the way of a jump: the current branch jumps to the position
/// the branch `id` hangs from, returning `outs`, and the entries of the branch
/// are pushed back.
pub open spec fn path_step<E: Action, S>(
    h: History<E, S>,
    t: E::Target,
    id: usize,
    b: Branch<E>,
    q: History<E, S>,
    u: E::Target,
    outs: Seq<E::Output>,
) -> bool {
    exists|hs: Seq<History<E, S>>, ts: Seq<E::Target>|
        #[trigger] pushed_trace(id, b.spec_entries(), hs, ts) && {
            &&& record::went_to(h.spec_record(), t, b.spec_parent().index, hs[0].spec_record(), ts[0], outs)
            &&& same_tree(h, hs[0])
            &&& hs.last() == q
            &&& ts.last() == u
        }
}

/// The histories `hs` and the targets `ts` follow each other by the steps of
/// the way `p`, the branch nearest to the current one first; `br` holds the
/// branches of `p` and `os` the outputs of each step.
pub open spec fn path_trace<E: Action, S>(
    p: Seq<usize>,
    br: Map<usize, Branch<E>>,
    hs: Seq<History<E, S>>,
    ts: Seq<E::Target>,
    os: Seq<Seq<E::Output>>,
) -> bool {
    let n = p.len();
    &&& hs.len() == n + 1
    &&& ts.len() == n + 1
    &&& os.len() == n
    &&& forall|j: int| 0 <= j < n ==> #[trigger] path_step(hs[j], ts[j], p[n - 1 - j], br[p[n - 1 - j]], hs[j + 1], ts[j + 1], os[j])
}

/// What a jump to `at` in another branch does when `p` is the way from
/// `at.root` to the current branch: the branches of `p` are taken out, the
/// steps of `p` are made from the branch nearest to the current one, and the
/// current branch then jumps to `at.index`. The outputs are those of every
/// jump, in order.
pub open spec fn jumped_via<E: Action, S>(
    h: History<E, S>,
    t: E::Target,
    p: Seq<usize>,
    at: At,
    q: History<E, S>,
    u: E::Target,
    outs: Seq<E::Output>,
) -> bool {
    exists|hs: Seq<History<E, S>>, ts: Seq<E::Target>, os: Seq<Seq<E::Output>>, last: Seq<E::Output>|
        #![trigger path_trace(p, h.spec_branches(), hs, ts, os), record::went_to(hs.last().spec_record(), ts.last(), at.index, q.spec_record(), u, last)]
        path_trace(p, h.spec_branches(), hs, ts, os) && {
            &&& taken_out(h, p, hs[0])
            &&& ts[0] == t
            &&& record::went_to(hs.last().spec_record(), ts.last(), at.index, q.spec_record(), u, last)
            &&& same_tree(hs.last(), q)
            &&& outs == os.flatten() + last
        }
}

/// What an undo does: the current branch is undone as a record is, and the
/// tree is left as it is.
pub open spec fn undid<E: Action, S>(h: History<E, S>, t: E::Target, q: History<E, S>, u: E::Target, res: Option<E::Output>) -> bool {
    &&& record::undid(h.spec_record(), t, q.spec_record(), u, res)
    &&& q.spec_root() == h.spec_root()
    &&& q.spec_ids() == h.spec_ids()
    &&& q.spec_branches() == h.spec_branches()
    &&& q.spec_saved() == h.spec_saved()
}

/// What a redo does: the current branch is redone as a record is, and the
/// tree is left as it is.
pub open spec fn redid<E: Action, S>(h: History<E, S>, t: E::Target, q: History<E, S>, u: E::Target, res: Option<E::Output>) -> bool {
    &&& record::redid(h.spec_record(), t, q.spec_record(), u, res)
    &&& q.spec_root() == h.spec_root()
    &&& q.spec_ids() == h.spec_ids()
    &&& q.spec_branches() == h.spec_branches()
    &&& q.spec_saved() == h.spec_saved()
}

/// `removed` is the set of branches removed with their descendants from
/// below `at`: every removed branch hangs from `at` or from a removed branch,
/// and no kept branch other than the root does.
pub open spec fn removed_from<E>(b: Map<usize, Branch<E>>, at: At, removed: Set<usize>, kept: Set<usize>, root: usize) -> bool {
    &&& forall|r: usize| #[trigger] removed.contains(r) ==> (b[r].spec_parent() == at || removed.contains(b[r].spec_parent().root))
    &&& forall|k: usize| #[trigger] kept.contains(k) && k != root ==> !(b[k].spec_parent() == at || removed.contains(b[k].spec_parent().root))
}

/// The branches after the first entry of `root` is dropped: those hanging
/// from `root` (other than the current branch `current`) move one position
/// down.
pub open spec fn shifted_down<E>(b: Map<usize, Branch<E>>, root: usize, current: usize) -> Map<usize, Branch<E>> {
    Map::new(
        |k: usize| b.dom().contains(k),
        |k: usize|
            if k != current && b[k].spec_parent().root == root && b[k].spec_parent().index > 0 {
                b[k].with_parent(At { root, index: (b[k].spec_parent().index - 1) as usize })
            } else {
                b[k]
            },
    )
}

/// The first position of a branch: one past the position it hangs from.
pub open spec fn branch_head_index<E>(b: Branch<E>) -> usize {
    if b.spec_parent().index < usize::MAX { (b.spec_parent().index + 1) as usize } else { b.spec_parent().index }
}

/// The saved position kept for another branch once the root becomes
/// `new.root`: it moves into the record when it lies in the new root, and a
/// saved index cut from the old root is kept as a position in the old root.
pub open spec fn saved_after_set_root(saved: Option<At>, rm_saved: Option<usize>, old_root: usize, new: At) -> Option<At> {
    match (saved, rm_saved) {
        (Some(s), None) => if s.root == new.root { None } else { saved },
        (None, Some(r)) => Some(At { root: old_root, index: r }),
        _ => saved,
    }
}

/// The saved index of the record once the root becomes `new.root`.
pub open spec fn record_saved_after_set_root(rec_saved: Option<usize>, saved: Option<At>, rm_saved: Option<usize>, new: At) -> Option<usize> {
    match (saved, rm_saved) {
        (Some(s), None) => if s.root == new.root { Some(s.index) } else { rec_saved },
        _ => rec_saved,
    }
}

impl<E, S: Slot> History<E, S> {
    /// The ids of the branches other than the root whose parent lies in
    /// branch `root_of`, at index `at_index` when one is given.
    fn children(&self, root_of: usize, at_index: Option<usize>) -> (v: Vec<usize>)
        requires
            self.spec_ids() == self.spec_branches().dom(),
        ensures
            forall|k: usize| v@.contains(k) <==> (
                self.spec_ids().contains(k) && k != self.spec_root()
                && self.spec_branches()[k].spec_parent().root == root_of
                && (at_index matches Some(i) ==> self.spec_branches()[k].spec_parent().index == i)),
    {
        let keys = slab_keys_in_order(&self.ids);
        let mut v: Vec<usize> = Vec::new();
        let mut i: usize = 0;
        while i < keys.len()
            invariant
                self.spec_ids() == self.spec_branches().dom(),
                i <= keys@.len(),
                forall|k: usize| slab_keys(self.ids).contains(k) <==> keys@.contains(k),
                forall|k: usize| v@.contains(k) <==> (exists|a: int| 0 <= a < i && keys@[a] == k
                    && k != self.spec_root()
                    && self.spec_branches()[k].spec_parent().root == root_of
                    && (at_index matches Some(j) ==> self.spec_branches()[k].spec_parent().index == j)),
            decreases keys@.len() - i,
        {
            let k = keys[i];
            assert(keys@.contains(k));
            let b = self.branches.get(&k).unwrap();
            let hit = k != self.root && b.parent.root == root_of && match at_index {
                Some(j) => b.parent.index == j,
                None => true,
            };
            let ghost old_v = v@;
            if hit {
                v.push(k);
            }
            assert forall|k2: usize| v@.contains(k2) <==> (exists|a: int| 0 <= a < i + 1 && keys@[a] == k2
                && k2 != self.spec_root()
                && self.spec_branches()[k2].spec_parent().root == root_of
                && (at_index matches Some(j) ==> self.spec_branches()[k2].spec_parent().index == j)) by {
                if v@.contains(k2) {
                    if old_v.contains(k2) {
                    } else {
                        assert(k2 == k);
                        assert(keys@[i as int] == k2);
                    }
                }
                if exists|a: int| 0 <= a < i + 1 && keys@[a] == k2
                    && k2 != self.spec_root()
                    && self.spec_branches()[k2].spec_parent().root == root_of
                    && (at_index matches Some(j) ==> self.spec_branches()[k2].spec_parent().index == j) {
                    let a = choose|a: int| 0 <= a < i + 1 && keys@[a] == k2
                        && k2 != self.spec_root()
                        && self.spec_branches()[k2].spec_parent().root == root_of
                        && (at_index matches Some(j) ==> self.spec_branches()[k2].spec_parent().index == j);
                    if a == i {
                        assert(v@.last() == k2);
                        assert(v@.contains(k2));
                    } else {
                        assert(old_v.contains(k2));
                        let idx = choose|idx: int| 0 <= idx < old_v.len() && old_v[idx] == k2;
                        assert(v@[idx] == k2);
                        assert(v@.contains(k2));
                    }
                }
            }
            i = i + 1;
        }
        assert forall|k: usize| v@.contains(k) <==> (
                self.spec_ids().contains(k) && k != self.spec_root()
                && self.spec_branches()[k].spec_parent().root == root_of
                && (at_index matches Some(j) ==> self.spec_branches()[k].spec_parent().index == j)) by {
            if self.spec_ids().contains(k) && k != self.spec_root()
                && self.spec_branches()[k].spec_parent().root == root_of
                && (at_index matches Some(j) ==> self.spec_branches()[k].spec_parent().index == j) {
                assert(keys@.contains(k));
                let a = choose|a: int| 0 <= a < keys@.len() && keys@[a] == k;
                assert(keys@[a] == k);
            }
            if v@.contains(k) {
                let a = choose|a: int| 0 <= a < keys@.len() && keys@[a] == k
                    && k != self.spec_root()
                    && self.spec_branches()[k].spec_parent().root == root_of
                    && (at_index matches Some(j) ==> self.spec_branches()[k].spec_parent().index == j);
                assert(keys@.contains(k));
            }
        }
        v
    }

    /// Makes `new.root` the current branch. The branches that hung from the
    /// old root at or below `new.index` now hang from the new root, the saved
    /// position is moved between the history and the record, and a `Root`
    /// event is emitted.
    fn set_root(&mut self, new: At, rm_saved: Option<usize>)
        requires
            old(self).spec_record().wf(),
            old(self).spec_ids() == old(self).spec_branches().dom(),
            old(self).spec_ids().contains(new.root),
            old(self).spec_branches()[new.root].spec_entries().len() == 0,
        ensures
            final(self).wf(),
            final(self).spec_root() == new.root,
            final(self).spec_ids() == old(self).spec_ids(),
            final(self).spec_branches() == reparented(old(self).spec_branches(), old(self).spec_root(), new),
            final(self).spec_saved() == saved_after_set_root(old(self).spec_saved(), rm_saved, old(self).spec_root(), new),
            final(self).spec_record().model() == (record::Model {
                saved: record_saved_after_set_root(old(self).spec_record().model().saved, old(self).spec_saved(), rm_saved, new),
                ..old(self).spec_record().model()
            }),
            final(self).spec_record().spec_socket().is_connected() == old(self).spec_record().spec_socket().is_connected(),
            final(self).spec_record().spec_socket().log() == old(self).spec_record().spec_socket().log_after(seq![Event::Root(new.root)]),
    {
        let ghost old_b = self.branches@;
        let old_root = self.root;
        let keys = slab_keys_in_order(&self.ids);
        let mut i: usize = 0;
        while i < keys.len()
            invariant
                i <= keys@.len(),
                forall|a: int, b: int| 0 <= a < b < keys@.len() ==> keys@[a] < keys@[b],
                forall|k: usize| slab_keys(self.ids).contains(k) <==> keys@.contains(k),
                self.spec_ids() == old(self).spec_ids(),
                self.branches@.dom() == old_b.dom(),
                self.root == old_root,
                self.record == old(self).record,
                self.saved == old(self).saved,
                old_b.dom() == old(self).spec_ids(),
                forall|k: usize| #![trigger self.branches@[k]] old_b.dom().contains(k) ==> self.branches@[k] == (
                    if (exists|a: int| 0 <= a < i && keys@[a] == k) { reparented(old_b, old_root, new)[k] } else { old_b[k] }),
            decreases keys@.len() - i,
        {
            let k = keys[i];
            assert(keys@.contains(k));
            assert forall|a: int| 0 <= a < i implies keys@[a] != k by {}
            let b = self.branches.remove(&k).unwrap();
            let b2 = if b.parent.root == old_root && b.parent.index <= new.index {
                Branch { parent: At::new(new.root, b.parent.index), entries: b.entries }
            } else {
                b
            };
            assert(b2 == reparented(old_b, old_root, new)[k]);
            self.branches.insert(k, b2);
            i = i + 1;
            assert forall|k2: usize| #![trigger self.branches@[k2]] old_b.dom().contains(k2) implies self.branches@[k2] == (
                if (exists|a: int| 0 <= a < i && keys@[a] == k2) { reparented(old_b, old_root, new)[k2] } else { old_b[k2] }) by {
                if k2 == k {
                    assert(keys@[i - 1] == k2);
                } else {
                    if exists|a: int| 0 <= a < i && keys@[a] == k2 {
                        let a = choose|a: int| 0 <= a < i && keys@[a] == k2;
                        assert(a < i - 1);
                    }
                }
            }
        }
        assert forall|k: usize| old_b.dom().contains(k) implies (exists|a: int| 0 <= a < i && keys@[a] == k) by {
            assert(keys@.contains(k));
        }
        assert(self.branches@ =~= reparented(old_b, old_root, new));
        match (self.saved, rm_saved) {
            (Some(saved), None) => {
                if saved.root == new.root {
                    self.saved = None;
                    self.record.set_saved_index(Some(saved.index));
                }
            },
            (None, Some(saved)) => {
                self.saved = Some(At::new(old_root, saved));
            },
            _ => {},
        }
        self.root = new.root;
        self.record.emit_if(true, Event::Root(new.root));
    }

    /// Removes the branches that hang from `at`, with every branch that hangs
    /// from a removed one; a saved position in a removed branch is dropped.
    /// The current branch is never removed.
    fn rm_child_of(&mut self, at: At)
        requires
            old(self).wf(),
        ensures
            final(self).wf(),
            final(self).spec_root() == old(self).spec_root(),
            final(self).spec_record() == old(self).spec_record(),
            final(self).spec_ids().subset_of(old(self).spec_ids()),
            final(self).spec_branches() == old(self).spec_branches().restrict(final(self).spec_ids()),
            removed_from(old(self).spec_branches(), at, old(self).spec_ids().difference(final(self).spec_ids()), final(self).spec_ids(), old(self).spec_root()),
            final(self).spec_saved() == (match old(self).spec_saved() {
                Some(s) => if old(self).spec_ids().difference(final(self).spec_ids()).contains(s.root) { None } else { old(self).spec_saved() },
                None => None,
            }),
    {
        let ghost old_b = self.branches@;
        let ghost old_ids = self.spec_ids();
        let mut dead = self.children(at.root, Some(at.index));
        while dead.len() > 0
            invariant
                self.wf(),
                self.root == old(self).root,
                self.record == old(self).record,
                old_ids == old(self).spec_ids(),
                old_b == old(self).spec_branches(),
                old_ids == old_b.dom(),
                self.spec_ids().subset_of(old_ids),
                self.spec_branches() == old_b.restrict(self.spec_ids()),
                forall|d: usize| #[trigger] dead@.contains(d) ==> d != self.root && old_ids.contains(d)
                    && (old_b[d].spec_parent() == at || old_ids.difference(self.spec_ids()).contains(old_b[d].spec_parent().root)),
                forall|r: usize| #[trigger] old_ids.difference(self.spec_ids()).contains(r) ==>
                    (old_b[r].spec_parent() == at || old_ids.difference(self.spec_ids()).contains(old_b[r].spec_parent().root)),
                forall|k: usize| #[trigger] self.spec_ids().contains(k) && k != self.root
                    && (old_b[k].spec_parent() == at || old_ids.difference(self.spec_ids()).contains(old_b[k].spec_parent().root))
                    ==> dead@.contains(k),
                self.saved == (match old(self).saved {
                    Some(s) => if old_ids.difference(self.spec_ids()).contains(s.root) { None } else { old(self).saved },
                    None => None,
                }),
            decreases self.spec_ids().len(), dead@.len(),
        {
            let ghost old_dead = dead@;
            let ghost ids0 = self.spec_ids();
            let id = dead.pop().unwrap();
            assert(old_dead.contains(id)) by {
                assert(old_dead.last() == id);
            }
            if self.branches.contains_key(&id) {
                slab_remove(&mut self.ids, id);
                self.branches.remove(&id);
                assert(self.spec_branches() =~= old_b.restrict(self.spec_ids()));
                match self.saved {
                    Some(s) => {
                        if s.root == id {
                            self.saved = None;
                        }
                    },
                    None => {},
                }
                assert(old_ids.difference(self.spec_ids()) =~= old_ids.difference(ids0).insert(id));
                let mut more = self.children(id, None);
                let ghost d1 = dead@;
                let ghost m1 = more@;
                dead.append(&mut more);
                assert forall|d: usize| #[trigger] dead@.contains(d) implies d != self.root && old_ids.contains(d)
                    && (old_b[d].spec_parent() == at || old_ids.difference(self.spec_ids()).contains(old_b[d].spec_parent().root)) by {
                    let j = choose|j: int| 0 <= j < dead@.len() && dead@[j] == d;
                    if j < d1.len() {
                        assert(d1[j] == d);
                        assert(old_dead[j] == d);
                        assert(old_dead.contains(d));
                    } else {
                        assert(m1[j - d1.len()] == d);
                        assert(m1.contains(d));
                    }
                }
                assert forall|k: usize| #[trigger] self.spec_ids().contains(k) && k != self.root
                    && (old_b[k].spec_parent() == at || old_ids.difference(self.spec_ids()).contains(old_b[k].spec_parent().root))
                    implies dead@.contains(k) by {
                    if old_b[k].spec_parent().root == id {
                        assert(m1.contains(k));
                        let j = choose|j: int| 0 <= j < m1.len() && m1[j] == k;
                        assert(dead@[d1.len() + j] == k);
                    } else {
                        assert(ids0.contains(k));
                        assert(old_dead.contains(k));
                        let j = choose|j: int| 0 <= j < old_dead.len() && old_dead[j] == k;
                        assert(j < old_dead.len() - 1);
                        assert(dead@[j] == k);
                    }
                }
            } else {
                assert forall|k: usize| #[trigger] self.spec_ids().contains(k) && k != self.root
                    && (old_b[k].spec_parent() == at || old_ids.difference(self.spec_ids()).contains(old_b[k].spec_parent().root))
                    implies dead@.contains(k) by {
                    assert(old_dead.contains(k));
                    let j = choose|j: int| 0 <= j < old_dead.len() && old_dead[j] == k;
                    assert(j < old_dead.len() - 1);
                    assert(dead@[j] == k);
                }
                assert forall|d: usize| #[trigger] dead@.contains(d) implies d != self.root && old_ids.contains(d)
                    && (old_b[d].spec_parent() == at || old_ids.difference(self.spec_ids()).contains(old_b[d].spec_parent().root)) by {
                    let j = choose|j: int| 0 <= j < dead@.len() && dead@[j] == d;
                    assert(old_dead[j] == d);
                    assert(old_dead.contains(d));
                }
            }
        }
    }

    /// Moves the branches that hang from `root` (other than `root` itself)
    /// one position down, as after the first entry of `root` was dropped.
    fn shift_down(&mut self, root: usize)
        requires
            old(self).wf(),
        ensures
            final(self).wf(),
            final(self).spec_root() == old(self).spec_root(),
            final(self).spec_record() == old(self).spec_record(),
            final(self).spec_saved() == old(self).spec_saved(),
            final(self).spec_ids() == old(self).spec_ids(),
            final(self).spec_branches() == shifted_down(old(self).spec_branches(), root, old(self).spec_root()),
    {
        let ghost old_b = self.branches@;
        let keys = slab_keys_in_order(&self.ids);
        let mut i: usize = 0;
        while i < keys.len()
            invariant
                i <= keys@.len(),
                forall|a: int, b: int| 0 <= a < b < keys@.len() ==> keys@[a] < keys@[b],
                forall|k: usize| slab_keys(self.ids).contains(k) <==> keys@.contains(k),
                self.spec_ids() == old(self).spec_ids(),
                self.branches@.dom() == old_b.dom(),
                self.root == old(self).root,
                self.record == old(self).record,
                self.saved == old(self).saved,
                old_b == old(self).spec_branches(),
                old_b.dom() == old(self).spec_ids(),
                forall|k: usize| #![trigger self.branches@[k]] old_b.dom().contains(k) ==> self.branches@[k] == (
                    if (exists|a: int| 0 <= a < i && keys@[a] == k) { shifted_down(old_b, root, self.root)[k] } else { old_b[k] }),
            decreases keys@.len() - i,
        {
            let k = keys[i];
            assert(keys@.contains(k));
            assert forall|a: int| 0 <= a < i implies keys@[a] != k by {}
            let b = self.branches.remove(&k).unwrap();
            let b2 = if k != self.root && b.parent.root == root && b.parent.index > 0 {
                Branch { parent: At::new(root, b.parent.index - 1), entries: b.entries }
            } else {
                b
            };
            assert(b2 == shifted_down(old_b, root, self.root)[k]);
            self.branches.insert(k, b2);
            i = i + 1;
            assert forall|k2: usize| #![trigger self.branches@[k2]] old_b.dom().contains(k2) implies self.branches@[k2] == (
                if (exists|a: int| 0 <= a < i && keys@[a] == k2) { shifted_down(old_b, root, self.root)[k2] } else { old_b[k2] }) by {
                if k2 == k {
                    assert(keys@[i - 1] == k2);
                } else {
                    if exists|a: int| 0 <= a < i && keys@[a] == k2 {
                        let a = choose|a: int| 0 <= a < i && keys@[a] == k2;
                        assert(a < i - 1);
                    }
                }
            }
        }
        assert forall|k: usize| old_b.dom().contains(k) implies (exists|a: int| 0 <= a < i && keys@[a] == k) by {
            assert(keys@.contains(k));
        }
        assert(self.branches@ =~= shifted_down(old_b, root, self.root));
    }
}

impl<E: Action, S: Slot> History<E, S> {
    /// Makes the branch `b` the current branch in place of the entries above
    /// the index, which are discarded together with the branch that held
    /// them; see `discarded_to`.
    pub(crate) fn discard_to(&mut self, b: usize)
        requires
            old(self).wf(),
        ensures
            final(self).wf(),
            discarded_to(*old(self), b, *final(self)),
    {
        let x = self.root;
        if b == x {
            return;
        }
        let i = self.record.index();
        let fits = match self.branches.get(&b) {
            Some(branch) => branch.entries.len() <= self.record.limit() - i,
            None => false,
        };
        if !fits {
            return;
        }
        let ghost old_b = self.branches@;
        let ghost m = self.record.model();
        let branch = self.branches.remove(&b).unwrap();
        assert(branch == old_b[b]);
        self.branches.insert(b, Branch::nil());
        let ghost b1 = self.branches@;
        let (_, rm_saved) = self.record.rm_tail();
        self.record.append_entries(branch.entries);
        assert(self.spec_ids() =~= self.spec_branches().dom());
        let new = At::new(b, i);
        self.set_root(new, rm_saved);
        let ghost b2 = self.branches@;
        self.branches.remove(&x);
        slab_remove(&mut self.ids, x);
        assert(self.spec_ids() =~= self.spec_branches().dom());
        proof {
            assert(b2 == reparented(b1, x, new));
            assert(self.spec_branches()[b] == b2[b]);
            assert forall|k: usize| #![trigger self.spec_branches()[k]] self.spec_branches().dom().contains(k) && k != b
                implies self.spec_branches()[k] == reparented(old_b, x, new)[k] by {
                assert(b1[k] == old_b[k]);
            }
            assert(self.spec_branches().dom() =~= old_b.dom().remove(x));
        }
    }

    /// Applies `action` on the target and pushes it on top of the current
    /// branch, as [`Record::edit`] does. When the undone actions would be
    /// discarded they are kept instead: the current branch keeps them and
    /// hangs from a new current branch, which continues with the new action.
    pub fn edit(&mut self, target: &mut E::Target, action: E) -> (out: E::Output)
        requires
            old(self).wf(),
        ensures
            final(self).wf(),
            edited(*old(self), *old(target), action, *final(self), *final(target), out),
    {
        let head = self.head();
        let ghost h0 = *self;
        let (output, merged, tail, rm_saved) = self.record.edit_and_push(target, Entry::new(action));
        let ghost rec1 = self.record;
        let ghost log1 = self.record.spec_socket().log();
        if !merged && head.index == self.record.index() {
            let root = self.root;
            self.rm_child_of(At::new(root, 0));
            self.shift_down(root);
        }
        let ghost ids1 = self.spec_ids();
        let ghost br1 = self.spec_branches();
        if tail.len() > 0 {
            let next = slab_insert(&mut self.ids);
            self.branches.insert(next, Branch::nil());
            let new = At::new(next, head.index);
            self.branches.insert(head.root, Branch { parent: new, entries: tail });
            let ghost br2 = self.spec_branches();
            assert(self.spec_ids() =~= self.spec_branches().dom());
            self.set_root(new, rm_saved);
            proof {
                assert(self.spec_branches() == reparented(br2, head.root, new));
                assert(self.spec_branches()[head.root].spec_parent() == new);
                assert forall|k: usize| #![trigger self.spec_branches()[k]] h0.spec_branches().dom().contains(k) && k != head.root
                    implies self.spec_branches()[k] == reparented(h0.spec_branches(), head.root, new)[k] by {
                    assert(br2[k] == h0.spec_branches()[k]);
                }
                assert(self.spec_branches().dom() =~= h0.spec_branches().dom().insert(next));
            }
        }
        proof {
            let e = choose|e: Entry<E>| E::applied(action, *old(target), #[trigger] e.spec_edit(), *target, output)
                && (rec1.model(), merged) == record::push_model(old(self).spec_record().model(), e);
            let m = rec1.model();
            assert(log1 == old(self).spec_record().spec_socket().log_after(record::push_events(old(self).spec_record().model(), m)));
            if tail@.len() > 0 {
                assert(self.spec_record().spec_socket().log() =~= old(self).spec_record().spec_socket().log_after(
                    record::push_events(old(self).spec_record().model(), m) + seq![Event::Root(self.spec_root())]));
            }
            assert(E::applied(action, *old(target), e.spec_edit(), *target, output));
        }
        output
    }

    /// Takes out the branches on the way from the current branch to branch
    /// `to`, leaving empty branches in their place. The first element is
    /// `to`; each following one is the branch the previous one hangs from,
    /// and the last hangs from the current branch. Returns `None`, changing
    /// nothing, when `to` is not a branch or the way does not lead to the
    /// current branch.
    fn mk_path(&mut self, to: usize) -> (res: Option<Vec<(usize, Branch<E>)>>)
        requires
            old(self).wf(),
            to != old(self).spec_root(),
        ensures
            final(self).wf(),
            final(self).spec_root() == old(self).spec_root(),
            final(self).spec_record() == old(self).spec_record(),
            final(self).spec_saved() == old(self).spec_saved(),
            final(self).spec_ids() == old(self).spec_ids(),
            !old(self).spec_ids().contains(to) ==> res is None,
            res is None ==> *final(self) == *old(self),
            res is None ==> forall|q: Seq<usize>|
                !#[trigger] valid_path(old(self).spec_branches(), old(self).spec_ids(), old(self).spec_root(), to, q),
            res matches Some(p) ==> {
                &&& p@.len() > 0
                &&& p@[0].0 == to
                &&& p@.last().1.spec_parent().root == old(self).spec_root()
                &&& forall|k: int| 0 <= k < p@.len() - 1 ==> #[trigger] p@[k].1.spec_parent().root == p@[k + 1].0
                &&& forall|k: int, l: int| 0 <= k < l < p@.len() ==> p@[k].0 != p@[l].0
                &&& forall|k: int| 0 <= k < p@.len() ==> {
                    &&& old(self).spec_ids().contains(#[trigger] p@[k].0)
                    &&& p@[k].0 != old(self).spec_root()
                    &&& p@[k].1 == old(self).spec_branches()[p@[k].0]
                    &&& final(self).spec_branches()[p@[k].0].is_nil()
                }
                &&& forall|k: usize| final(self).spec_ids().contains(k) && !(exists|l: int| 0 <= l < p@.len() && p@[l].0 == k)
                    ==> final(self).spec_branches()[k] == old(self).spec_branches()[k]
            },
    {
        let mut ids: Vec<usize> = Vec::new();
        let mut cur = to;
        let bound = self.branches.len();
        let mut steps: usize = 0;
        proof {
            assert forall|q: Seq<usize>| #[trigger] valid_path(self.spec_branches(), self.spec_ids(), self.root, to, q)
                implies q.len() < bound by {
                lemma_path_shorter(self.spec_branches(), self.spec_ids(), self.root, to, q);
            }
        }
        loop
            invariant_except_break
                ids@.len() > 0 ==> self.spec_branches()[ids@.last()].spec_parent().root == cur,
                forall|q: Seq<usize>| #[trigger] valid_path(self.spec_branches(), self.spec_ids(), self.root, to, q)
                    ==> ids@.len() < q.len() && ids@ == q.take(ids@.len() as int) && cur == q[ids@.len() as int],
            invariant
                forall|q: Seq<usize>| #[trigger] valid_path(self.spec_branches(), self.spec_ids(), self.root, to, q)
                    ==> q.len() < bound,
                self.wf(),
                *self == *old(self),
                to != self.root,
                steps <= bound,
                bound == self.spec_branches().len(),
                ids@.len() == steps,
                cur != self.root,
                ids@.len() == 0 ==> cur == to,
                forall|k: int| 0 <= k < ids@.len() - 1 ==> #[trigger] self.spec_branches()[ids@[k]].spec_parent().root == ids@[k + 1],
                forall|k: int, l: int| 0 <= k < l < ids@.len() ==> ids@[k] != ids@[l],
                forall|k: int| 0 <= k < ids@.len() ==> self.spec_ids().contains(#[trigger] ids@[k]) && ids@[k] != self.root,
                ids@.len() > 0 ==> ids@[0] == to,
            ensures
                forall|q: Seq<usize>| #[trigger] valid_path(self.spec_branches(), self.spec_ids(), self.root, to, q)
                    ==> ids@ == q,
                self.wf(),
                *self == *old(self),
                ids@.len() > 0,
                ids@[0] == to,
                self.spec_branches()[ids@.last()].spec_parent().root == self.root,
                forall|k: int| 0 <= k < ids@.len() - 1 ==> #[trigger] self.spec_branches()[ids@[k]].spec_parent().root == ids@[k + 1],
                forall|k: int, l: int| 0 <= k < l < ids@.len() ==> ids@[k] != ids@[l],
                forall|k: int| 0 <= k < ids@.len() ==> self.spec_ids().contains(#[trigger] ids@[k]) && ids@[k] != self.root,
            decreases bound - steps,
        {
            if !self.branches.contains_key(&cur) || steps >= bound {
                proof {
                    assert forall|q: Seq<usize>| !#[trigger] valid_path(self.spec_branches(), self.spec_ids(), self.root, to, q) by {
                        if valid_path(self.spec_branches(), self.spec_ids(), self.root, to, q) {
                            assert(q.contains(q[ids@.len() as int]));
                        }
                    }
                }
                return None;
            }
            let mut seen = false;
            let mut j: usize = 0;
            while j < ids.len()
                invariant
                    j <= ids@.len(),
                    seen == (exists|a: int| 0 <= a < j && ids@[a] == cur),
                decreases ids@.len() - j,
            {
                if ids[j] == cur {
                    seen = true;
                }
                j = j + 1;
            }
            if seen {
                proof {
                    assert forall|q: Seq<usize>| !#[trigger] valid_path(self.spec_branches(), self.spec_ids(), self.root, to, q) by {
                        if valid_path(self.spec_branches(), self.spec_ids(), self.root, to, q) {
                            let a = choose|a: int| 0 <= a < ids@.len() && ids@[a] == cur;
                            assert(q[a] == ids@[a]);
                        }
                    }
                }
                return None;
            }
            let ghost before = ids@;
            ids.push(cur);
            steps = steps + 1;
            let p = self.branches.get(&cur).unwrap().parent.root;
            proof {
                assert forall|q: Seq<usize>| #[trigger] valid_path(self.spec_branches(), self.spec_ids(), self.root, to, q)
                    implies ids@ == q.take(ids@.len() as int) && (p != self.root ==> ids@.len() < q.len() && p == q[ids@.len() as int])
                        && (p == self.root ==> ids@ == q) by {
                    assert(ids@ =~= q.take(ids@.len() as int));
                    if ids@.len() < q.len() {
                        let k = ids@.len() - 1;
                        assert(self.spec_branches()[q[k]].spec_parent().root == q[k + 1]);
                        assert(q.contains(q[k + 1]));
                    } else {
                        assert(ids@ =~= q);
                    }
                }
            }
            if p == self.root {
                break;
            }
            cur = p;
        }
        let mut path: Vec<(usize, Branch<E>)> = Vec::new();
        let mut i: usize = 0;
        let ghost old_b = self.branches@;
        while i < ids.len()
            invariant
                self.root == old(self).root,
                self.record == old(self).record,
                self.saved == old(self).saved,
                self.ids == old(self).ids,
                old_b == old(self).spec_branches(),
                i <= ids@.len(),
                path@.len() == i,
                self.branches@.dom() == old_b.dom(),
                old_b.dom() == old(self).spec_ids(),
                old_b[self.root].spec_entries().len() == 0,
                forall|k: int, l: int| 0 <= k < l < ids@.len() ==> ids@[k] != ids@[l],
                forall|k: int| 0 <= k < ids@.len() ==> old(self).spec_ids().contains(#[trigger] ids@[k]) && ids@[k] != self.root,
                forall|k: int| 0 <= k < i ==> path@[k].0 == ids@[k] && path@[k].1 == old_b[ids@[k]],
                forall|k: usize| #![trigger self.branches@[k]] old_b.dom().contains(k) ==> (
                    if (exists|a: int| 0 <= a < i && ids@[a] == k) { self.branches@[k].is_nil() } else { self.branches@[k] == old_b[k] }),
            decreases ids@.len() - i,
        {
            let id = ids[i];
            assert forall|a: int| 0 <= a < i implies ids@[a] != id by {}
            let b = self.branches.remove(&id).unwrap();
            self.branches.insert(id, Branch::nil());
            path.push((id, b));
            i = i + 1;
            assert forall|k2: usize| #![trigger self.branches@[k2]] old_b.dom().contains(k2) implies (
                if (exists|a: int| 0 <= a < i && ids@[a] == k2) { self.branches@[k2].is_nil() } else { self.branches@[k2] == old_b[k2] }) by {
                if k2 == id {
                    assert(ids@[i - 1] == k2);
                } else {
                    if exists|a: int| 0 <= a < i && ids@[a] == k2 {
                        let a = choose|a: int| 0 <= a < i && ids@[a] == k2;
                        assert(a < i - 1);
                    }
                }
            }
        }
        assert forall|k: int| 0 <= k < path@.len() implies #[trigger] self.spec_branches()[path@[k].0].is_nil() by {
            assert(path@[k].0 == ids@[k]);
            assert(exists|a: int| 0 <= a < i && ids@[a] == ids@[k]);
        }
        assert forall|k: int| 0 <= k < path@.len() - 1 implies #[trigger] path@[k].1.spec_parent().root == path@[k + 1].0 by {
            assert(path@[k].0 == ids@[k]);
            assert(path@[k + 1].0 == ids@[k + 1]);
            assert(old_b[ids@[k]].spec_parent().root == ids@[k + 1]);
        }
        assert forall|k: usize| self.spec_ids().contains(k) && !(exists|l: int| 0 <= l < path@.len() && path@[l].0 == k)
            implies self.spec_branches()[k] == old_b[k] by {
            if exists|a: int| 0 <= a < i && ids@[a] == k {
                let a = choose|a: int| 0 <= a < i && ids@[a] == k;
                assert(path@[a].0 == k);
            }
        }
        assert(path@.last().0 == ids@.last());
        assert(self.spec_ids() == self.spec_branches().dom());
        assert forall|l: int| 0 <= l < path@.len() implies path@[l].0 != self.root by {
            assert(path@[l].0 == ids@[l]);
        }
        assert(self.spec_branches()[self.root] == old_b[self.root]);
        assert(path@.last().1 == old_b[ids@.last()]);
        assert forall|k: int, l: int| 0 <= k < l < path@.len() implies path@[k].0 != path@[l].0 by {
            assert(path@[k].0 == ids@[k]);
            assert(path@[l].0 == ids@[l]);
        }
        assert forall|k: int| 0 <= k < path@.len() implies {
            &&& old(self).spec_ids().contains(#[trigger] path@[k].0)
            &&& path@[k].0 != old(self).spec_root()
            &&& path@[k].1 == old(self).spec_branches()[path@[k].0]
            &&& self.spec_branches()[path@[k].0].is_nil()
        } by {
            assert(path@[k].0 == ids@[k]);
        }
        Some(path)
    }

    /// Moves to the position `at`: within the current branch as
    /// [`Record::go_to`] does; otherwise the branches on the way to `at.root`
    /// are redone on top of their parents one after the other, each taking
    /// over as the current branch, and then the index is moved to `at.index`.
    /// Returns the outputs of the undos and redos made by the moves.
    pub fn go_to(&mut self, target: &mut E::Target, at: At) -> (res: Vec<E::Output>)
        requires
            old(self).wf(),
        ensures
            final(self).wf(),
            final(self).spec_ids() == old(self).spec_ids(),
            at.root == old(self).spec_root() ==> {
                &&& record::went_to(old(self).spec_record(), *old(target), at.index, final(self).spec_record(), *final(target), res@)
                &&& same_tree(*old(self), *final(self))
            },
            at.root != old(self).spec_root() && (forall|p: Seq<usize>|
                !#[trigger] valid_path(old(self).spec_branches(), old(self).spec_ids(), old(self).spec_root(), at.root, p)) ==>
                res@.len() == 0 && *final(self) == *old(self) && *final(target) == *old(target),
            at.root != old(self).spec_root() && (exists|p: Seq<usize>|
                #[trigger] valid_path(old(self).spec_branches(), old(self).spec_ids(), old(self).spec_root(), at.root, p)) ==>
                exists|p: Seq<usize>|
                    #[trigger] valid_path(old(self).spec_branches(), old(self).spec_ids(), old(self).spec_root(), at.root, p)
                    && jumped_via(*old(self), *old(target), p, at, *final(self), *final(target), res@),
    {
        if self.root == at.root {
            return self.record.go_to(target, at.index);
        }
        let ghost h0 = *self;
        let ghost t0 = *target;
        let mut path = match self.mk_path(at.root) {
            Some(p) => p,
            None => {
                return Vec::new();
            },
        };
        let ghost path0 = path@;
        let ghost n = path0.len();
        let ghost pids = path0.map_values(|x: (usize, Branch<E>)| x.0);
        proof {
            assert forall|k: int| 0 <= k < n - 1 implies #[trigger] h0.spec_branches()[pids[k]].spec_parent().root == pids[k + 1] by {
                assert(path0[k].1.spec_parent().root == path0[k + 1].0);
            }
            assert forall|k: int| 0 <= k < n implies h0.spec_ids().contains(#[trigger] pids[k]) && pids[k] != h0.spec_root() by {
                assert(h0.spec_ids().contains(path0[k].0));
            }
            assert(valid_path(h0.spec_branches(), h0.spec_ids(), h0.spec_root(), at.root, pids));
            assert forall|k: usize| #![trigger self.spec_branches()[k]] h0.spec_branches().dom().contains(k) implies
                if pids.contains(k) { self.spec_branches()[k].is_nil() } else { self.spec_branches()[k] == h0.spec_branches()[k] } by {
                if pids.contains(k) {
                    let l = choose|l: int| 0 <= l < n && pids[l] == k;
                    assert(path0[l].0 == k);
                } else {
                    assert forall|l: int| 0 <= l < n implies path0[l].0 != k by {
                        assert(pids[l] == path0[l].0);
                    }
                }
            }
            assert(taken_out(h0, pids, *self));
        }
        let ghost ids0 = self.spec_ids();
        let mut outputs: Vec<E::Output> = Vec::new();
        let ghost mut hs: Seq<History<E, S>> = seq![*self];
        let ghost mut ts: Seq<E::Target> = seq![*target];
        let ghost mut os: Seq<Seq<E::Output>> = Seq::empty();
        assert(path@ =~= path0.take(n as int));
        assert(pids.skip(n as int) =~= Seq::<usize>::empty());
        while path.len() > 0
            invariant
                self.wf(),
                self.spec_ids() == ids0,
                n == path0.len(),
                path@.len() <= n,
                path@ == path0.take(path@.len() as int),
                pids == path0.map_values(|x: (usize, Branch<E>)| x.0),
                forall|k: int| 0 <= k < n ==> (#[trigger] path0[k]).1 == h0.spec_branches()[path0[k].0],
                forall|k: int, l: int| 0 <= k < l < path@.len() ==> path@[k].0 != path@[l].0,
                forall|k: int| 0 <= k < path@.len() ==> {
                    &&& self.spec_ids().contains(#[trigger] path@[k].0)
                    &&& path@[k].0 != self.spec_root()
                    &&& self.spec_branches()[path@[k].0].spec_entries().len() == 0
                },
                path_trace(pids.skip(path@.len() as int), h0.spec_branches(), hs, ts, os),
                taken_out(h0, pids, hs[0]),
                ts[0] == t0,
                hs.last() == *self,
                ts.last() == *target,
                outputs@ == os.flatten(),
            decreases path@.len(),
        {
            let ghost p0 = path@;
            let ghost r = p0.len();
            let ghost hA = *self;
            let ghost tA = *target;
            let (id, branch) = path.pop().unwrap();
            let ghost b = branch;
            assert(path0[r - 1] == p0[r - 1]);
            assert(b == h0.spec_branches()[pids[r - 1]]);
            assert forall|k: int| 0 <= k < path@.len() implies path@[k].0 != id by {
                assert(p0[k] == path@[k]);
                assert(p0[p0.len() - 1].0 == id);
            }
            let parent = branch.parent();
            let mut entries = branch.into_entries();
            let ghost ents = entries@;
            let mut outs = self.record.go_to(target, parent.index);
            let ghost hB = *self;
            let ghost tB = *target;
            let ghost outsB = outs@;
            outputs.append(&mut outs);
            let ghost mut phs: Seq<History<E, S>> = seq![hB];
            let ghost mut pts: Seq<E::Target> = seq![tB];
            let mut first = true;
            assert(ents.take(0) =~= Seq::<Entry<E>>::empty());
            while entries.len() > 0
                invariant
                    self.wf(),
                    self.spec_ids() == ids0,
                    self.spec_ids().contains(id),
                    id != self.spec_root() ==> self.spec_branches()[id].spec_entries().len() == 0,
                    !first ==> self.spec_record().model().index == self.spec_record().model().entries.len(),
                    first ==> id != self.spec_root(),
                    forall|k: int| 0 <= k < path@.len() ==> path@[k].0 != id,
                    forall|k: int, l: int| 0 <= k < l < path@.len() ==> path@[k].0 != path@[l].0,
                    forall|k: int| 0 <= k < path@.len() ==> {
                        &&& self.spec_ids().contains(#[trigger] path@[k].0)
                        &&& path@[k].0 != self.spec_root()
                        &&& self.spec_branches()[path@[k].0].spec_entries().len() == 0
                    },
                    entries@.len() <= ents.len(),
                    entries@ == ents.skip(ents.len() - entries@.len()),
                    pushed_trace(id, ents.take(ents.len() - entries@.len()), phs, pts),
                    phs[0] == hB,
                    pts[0] == tB,
                    phs.last() == *self,
                    pts.last() == *target,
                decreases entries@.len(),
            {
                let ghost k = ents.len() - entries@.len();
                let ghost hC = *self;
                let ghost tC = *target;
                let entry = entries.pop_front().unwrap();
                assert(entry == ents[k]);
                let index = self.record.index();
                let (o, merged, tail, rm_saved) = self.record.redo_and_push(target, entry);
                let ghost hD = *self;
                assert(self.spec_record().model().index == self.spec_record().model().entries.len());
                if tail.len() > 0 {
                    assert(first);
                    let new = At::new(id, index);
                    let root = self.root;
                    self.branches.insert(root, Branch { parent: new, entries: tail });
                    let ghost br2 = self.spec_branches();
                    assert(self.spec_ids() =~= self.spec_branches().dom());
                    self.set_root(new, rm_saved);
                    proof {
                        assert(self.spec_branches() == reparented(br2, root, new));
                        assert forall|k2: usize| #![trigger self.spec_branches()[k2]] hC.spec_branches().dom().contains(k2) && k2 != root
                            implies self.spec_branches()[k2] == reparented(hC.spec_branches(), root, new)[k2] by {
                            assert(br2[k2] == hC.spec_branches()[k2]);
                        }
                        assert(self.spec_branches().dom() =~= hC.spec_branches().dom());
                        let events = record::push_events(hC.spec_record().model(), hD.spec_record().model());
                        assert(self.spec_record().spec_socket().log() =~= hC.spec_record().spec_socket().log_after(
                            events + seq![Event::Root(id)]));
                    }
                }
                first = false;
                proof {
                    let e = choose|e: Entry<E>|
                        E::redone(entry.spec_edit(), tC, #[trigger] e.spec_edit(), *target, o)
                            && (hD.spec_record().model(), merged) == record::push_model(hC.spec_record().model(), e);
                    assert(E::redone(entry.spec_edit(), tC, e.spec_edit(), *target, o));
                    assert(pushed_back(hC, tC, id, entry, *self, *target));
                    let phs0 = phs;
                    let pts0 = pts;
                    phs = phs.push(*self);
                    pts = pts.push(*target);
                    let done = ents.take(k);
                    assert(ents.take(k + 1) =~= done.push(entry));
                    assert forall|j: int| 0 <= j < k + 1 implies #[trigger] pushed_back(
                        phs[j],
                        pts[j],
                        id,
                        ents.take(k + 1)[j],
                        phs[j + 1],
                        pts[j + 1],
                    ) by {
                        if j < k {
                            assert(pushed_back(phs0[j], pts0[j], id, done[j], phs0[j + 1], pts0[j + 1]));
                        }
                    }
                    assert(entries@ =~= ents.skip(k + 1));
                }
            }
            proof {
                assert(ents.take(ents.len() as int) =~= ents);
                assert(b.spec_entries() == ents);
                assert(same_tree(hA, hB));
                assert(pushed_trace(id, b.spec_entries(), phs, pts));
                assert(path_step(hA, tA, id, b, *self, *target, outsB));
                let hs0 = hs;
                let ts0 = ts;
                let os0 = os;
                hs = hs.push(*self);
                ts = ts.push(*target);
                os = os.push(outsB);
                os0.lemma_flatten_push(outsB);
                let q0 = pids.skip(r as int);
                let q = pids.skip(r - 1);
                let m = q.len();
                assert(q0.len() == m - 1);
                assert(pids[r - 1] == id);
                assert forall|j: int| 0 <= j < m implies #[trigger] path_step(
                    hs[j],
                    ts[j],
                    q[m - 1 - j],
                    h0.spec_branches()[q[m - 1 - j]],
                    hs[j + 1],
                    ts[j + 1],
                    os[j],
                ) by {
                    if j < m - 1 {
                        assert(q[m - 1 - j] == q0[q0.len() - 1 - j]);
                        assert(path_step(hs0[j], ts0[j], q0[q0.len() - 1 - j], h0.spec_branches()[q0[q0.len() - 1 - j]], hs0[j + 1], ts0[j + 1], os0[j]));
                    } else {
                        assert(q[m - 1 - j] == id);
                    }
                }
                assert(path@ =~= path0.take(r - 1));
            }
        }
        let ghost hE = *self;
        let ghost tE = *target;
        let mut outs = self.record.go_to(target, at.index);
        let ghost last = outs@;
        let ghost os_final = os;
        outputs.append(&mut outs);
        proof {
            assert(pids.skip(0) =~= pids);
            assert(same_tree(hE, *self));
            assert(path_trace(pids, h0.spec_branches(), hs, ts, os));
            assert(record::went_to(hs.last().spec_record(), ts.last(), at.index, self.spec_record(), *target, last));
            assert(outputs@ =~= os.flatten() + last);
            assert(jumped_via(h0, t0, pids, at, *self, *target, outputs@));
        }
        outputs
    }

    /// Undoes the action below the index of the current branch, as
    /// [`Record::undo`] does.
    pub fn undo(&mut self, target: &mut E::Target) -> (res: Option<E::Output>)
        requires
            old(self).wf(),
        ensures
            final(self).wf(),
            undid(*old(self), *old(target), *final(self), *final(target), res),
    {
        self.record.undo(target)
    }

    /// Redoes the action at the index of the current branch, as
    /// [`Record::redo`] does.
    pub fn redo(&mut self, target: &mut E::Target) -> (res: Option<E::Output>)
        requires
            old(self).wf(),
        ensures
            final(self).wf(),
            redid(*old(self), *old(target), *final(self), *final(target), res),
    {
        self.record.redo(target)
    }

    /// Reverts the changes done to the target since the saved state: a move
    /// to the saved position. Without one nothing changes.
    pub fn revert(&mut self, target: &mut E::Target) -> (res: Vec<E::Output>)
        requires
            old(self).wf(),
        ensures
            final(self).wf(),
            final(self).spec_ids() == old(self).spec_ids(),
            old(self).spec_record().model().saved is None && old(self).spec_saved() is None ==>
                res@.len() == 0 && *final(self) == *old(self) && *final(target) == *old(target),
            old(self).spec_record().model().saved matches Some(i) ==> {
                &&& record::went_to(old(self).spec_record(), *old(target), i, final(self).spec_record(), *final(target), res@)
                &&& final(self).spec_root() == old(self).spec_root()
                &&& final(self).spec_branches() == old(self).spec_branches()
                &&& final(self).spec_saved() == old(self).spec_saved()
            },
            old(self).spec_record().model().saved is None ==> (old(self).spec_saved() matches Some(at) ==> {
                &&& at.root == old(self).spec_root() ==> {
                    &&& record::went_to(old(self).spec_record(), *old(target), at.index, final(self).spec_record(), *final(target), res@)
                    &&& same_tree(*old(self), *final(self))
                }
                &&& at.root != old(self).spec_root() && (forall|p: Seq<usize>|
                    !#[trigger] valid_path(old(self).spec_branches(), old(self).spec_ids(), old(self).spec_root(), at.root, p)) ==>
                    res@.len() == 0 && *final(self) == *old(self) && *final(target) == *old(target)
                &&& at.root != old(self).spec_root() && (exists|p: Seq<usize>|
                    #[trigger] valid_path(old(self).spec_branches(), old(self).spec_ids(), old(self).spec_root(), at.root, p)) ==>
                    exists|p: Seq<usize>|
                        #[trigger] valid_path(old(self).spec_branches(), old(self).spec_ids(), old(self).spec_root(), at.root, p)
                        && jumped_via(*old(self), *old(target), p, at, *final(self), *final(target), res@)
            }),
    {
        match self.saved() {
            Some(saved) => self.go_to(target, saved),
            None => Vec::new(),
        }
    }
}

impl<E, S: Slot> History<E, S> {
    /// Marks the target as being in the saved state.
    pub fn set_saved(&mut self)
        requires
            old(self).wf(),
        ensures
            final(self).wf(),
            final(self).spec_saved() is None,
            final(self).spec_record().model() == (record::Model {
                saved: Some(old(self).spec_record().model().index),
                ..old(self).spec_record().model()
            }),
            final(self).spec_root() == old(self).spec_root(),
            final(self).spec_ids() == old(self).spec_ids(),
            final(self).spec_branches() == old(self).spec_branches(),
            final(self).spec_record().spec_socket().is_connected() == old(self).spec_record().spec_socket().is_connected(),
            final(self).spec_record().spec_socket().log() == old(self).spec_record().spec_socket().log_after(
                if old(self).spec_record().model().saved != Some(old(self).spec_record().model().index) {
                    seq![Event::Saved(true)]
                } else {
                    Seq::empty()
                },
            ),
    {
        self.saved = None;
        self.record.set_saved(true);
    }

    /// Clears the saved state of the target.
    pub fn clear_saved(&mut self)
        requires
            old(self).wf(),
        ensures
            final(self).wf(),
            final(self).spec_saved() is None,
            final(self).spec_record().model() == (record::Model { saved: None, ..old(self).spec_record().model() }),
            final(self).spec_root() == old(self).spec_root(),
            final(self).spec_ids() == old(self).spec_ids(),
            final(self).spec_branches() == old(self).spec_branches(),
            final(self).spec_record().spec_socket().is_connected() == old(self).spec_record().spec_socket().is_connected(),
            final(self).spec_record().spec_socket().log() == old(self).spec_record().spec_socket().log_after(
                if old(self).spec_record().model().saved == Some(old(self).spec_record().model().index) {
                    seq![Event::Saved(false)]
                } else {
                    Seq::empty()
                },
            ),
    {
        self.saved = None;
        self.record.set_saved(false);
    }

    /// Removes all actions and branches from the history without undoing
    /// them. The only branch left is the current one, with id 0.
    pub fn clear(&mut self)
        requires
            old(self).wf(),
        ensures
            final(self).wf(),
            final(self).spec_root() == 0,
            final(self).spec_saved() is None,
            final(self).spec_ids() == Set::<usize>::empty().insert(0),
            final(self).spec_branches()[0].is_nil(),
            final(self).spec_record().model().entries.len() == 0,
            final(self).spec_record().model().index == 0,
            final(self).spec_record().model().limit == old(self).spec_record().model().limit,
            final(self).spec_record().model().saved == (if old(self).spec_record().model().saved == Some(old(self).spec_record().model().index) { Some(0usize) } else { None }),
            final(self).spec_record().spec_socket().is_connected() == old(self).spec_record().spec_socket().is_connected(),
            final(self).spec_record().spec_socket().log() == old(self).spec_record().spec_socket().log_after(
                (if old(self).spec_record().model().index > 0 { seq![Event::Undo(false)] } else { Seq::empty() })
                + (if old(self).spec_record().model().index < old(self).spec_record().model().entries.len() { seq![Event::Redo(false)] } else { Seq::empty() })
                + (if old(self).spec_record().model().index != 0 { seq![Event::Index(0)] } else { Seq::empty() })
                + (if old(self).spec_root() != 0 { seq![Event::Root(0)] } else { Seq::empty() }),
            ),
    {
        let old_root = self.root;
        self.saved = None;
        self.record.clear();
        let ghost log1 = self.record.spec_socket().log();
        slab_clear(&mut self.ids);
        self.branches = HashMap::new();
        let root = slab_insert(&mut self.ids);
        self.root = root;
        self.branches.insert(root, Branch::nil());
        assert(self.spec_ids() =~= self.spec_branches().dom());
        self.record.emit_if(old_root != root, Event::Root(root));
        assert(self.spec_record().spec_socket().log() =~= old(self).spec_record().spec_socket().log_after(
            (if old(self).spec_record().model().index > 0 { seq![Event::Undo(false)] } else { Seq::empty() })
            + (if old(self).spec_record().model().index < old(self).spec_record().model().entries.len() { seq![Event::Redo(false)] } else { Seq::empty() })
            + (if old(self).spec_record().model().index != 0 { seq![Event::Index(0)] } else { Seq::empty() })
            + (if old(self).spec_root() != 0 { seq![Event::Root(0)] } else { Seq::empty() })));
    }

    /// Returns the first position of the branch with the smallest id above
    /// the current one, if there is such a branch.
    pub fn next_branch_head(&self) -> (at: Option<At>)
        requires
            self.wf(),
        ensures
            match at {
                Some(a) => {
                    &&& self.spec_ids().contains(a.root)
                    &&& a.root > self.spec_root()
                    &&& forall|k: usize| #[trigger] self.spec_ids().contains(k) && k > self.spec_root() ==> a.root <= k
                    &&& a.index == branch_head_index(self.spec_branches()[a.root])
                },
                None => forall|k: usize| #[trigger] self.spec_ids().contains(k) ==> k <= self.spec_root(),
            },
    {
        let keys = slab_keys_in_order(&self.ids);
        let mut i: usize = 0;
        while i < keys.len()
            invariant
                self.wf(),
                i <= keys@.len(),
                forall|a: int, b: int| 0 <= a < b < keys@.len() ==> keys@[a] < keys@[b],
                forall|k: usize| slab_keys(self.ids).contains(k) <==> keys@.contains(k),
                forall|a: int| 0 <= a < i ==> keys@[a] <= self.root,
            decreases keys@.len() - i,
        {
            let k = keys[i];
            if k > self.root {
                assert(keys@.contains(k));
                let b = self.branches.get(&k).unwrap();
                let p = b.parent.index;
                let index = if p < usize::MAX { p + 1 } else { p };
                assert forall|k2: usize| #[trigger] self.spec_ids().contains(k2) && k2 > self.spec_root() implies k <= k2 by {
                    assert(keys@.contains(k2));
                    let a = choose|a: int| 0 <= a < keys@.len() && keys@[a] == k2;
                    if a < i {
                    } else if a > i {
                    }
                }
                return Some(At::new(k, index));
            }
            i = i + 1;
        }
        assert forall|k: usize| #[trigger] self.spec_ids().contains(k) implies k <= self.spec_root() by {
            assert(keys@.contains(k));
        }
        None
    }

    /// Returns the first position of the branch with the largest id below
    /// the current one, if there is such a branch.
    pub fn prev_branch_head(&self) -> (at: Option<At>)
        requires
            self.wf(),
        ensures
            match at {
                Some(a) => {
                    &&& self.spec_ids().contains(a.root)
                    &&& a.root < self.spec_root()
                    &&& forall|k: usize| #[trigger] self.spec_ids().contains(k) && k < self.spec_root() ==> k <= a.root
                    &&& a.index == branch_head_index(self.spec_branches()[a.root])
                },
                None => forall|k: usize| #[trigger] self.spec_ids().contains(k) ==> k >= self.spec_root(),
            },
    {
        let keys = slab_keys_in_order(&self.ids);
        let mut i: usize = keys.len();
        while i > 0
            invariant
                self.wf(),
                i <= keys@.len(),
                forall|a: int, b: int| 0 <= a < b < keys@.len() ==> keys@[a] < keys@[b],
                forall|k: usize| slab_keys(self.ids).contains(k) <==> keys@.contains(k),
                forall|a: int| i <= a < keys@.len() ==> keys@[a] >= self.root,
            decreases i,
        {
            let k = keys[i - 1];
            if k < self.root {
                assert(keys@.contains(k));
                let b = self.branches.get(&k).unwrap();
                let p = b.parent.index;
                let index = if p < usize::MAX { p + 1 } else { p };
                assert forall|k2: usize| #[trigger] self.spec_ids().contains(k2) && k2 < self.spec_root() implies k2 <= k by {
                    assert(keys@.contains(k2));
                    let a = choose|a: int| 0 <= a < keys@.len() && keys@[a] == k2;
                    if a < i - 1 {
                    } else if a > i - 1 {
                    }
                }
                return Some(At::new(k, index));
            }
            i = i - 1;
        }
        assert forall|k: usize| #[trigger] self.spec_ids().contains(k) implies k >= self.spec_root() by {
            assert(keys@.contains(k));
        }
        None
    }
}

impl<E: std::fmt::Display, S> History<E, S> {
    /// Returns the text of the action that the next undo would undo.
    pub fn undo_string(&self) -> (res: Option<String>)
        requires
            self.wf(),
        ensures
            res is Some <==> self.spec_record().model().index > 0,
            res matches Some(s) ==> vstd::string::to_string_from_display_ensures(&self.spec_record().actions()[self.spec_record().model().index - 1], s),
    {
        self.record.undo_string()
    }

    /// Returns the text of the action that the next redo would redo.
    pub fn redo_string(&self) -> (res: Option<String>)
        requires
            self.wf(),
        ensures
            res is Some <==> self.spec_record().model().index < self.spec_record().model().entries.len(),
            res matches Some(s) ==> vstd::string::to_string_from_display_ensures(&self.spec_record().actions()[self.spec_record().model().index as int], s),
    {
        self.record.redo_string()
    }
}


/// Every branch other than the current one hangs, by its parent links, from
/// the current one: there is a way from it to the current branch.
pub open spec fn is_tree<E, S>(h: History<E, S>) -> bool {
    forall|k: usize| #[trigger] h.spec_ids().contains(k) && k != h.spec_root() ==> exists|p: Seq<usize>|
        #[trigger] valid_path(h.spec_branches(), h.spec_ids(), h.spec_root(), k, p)
}

/// A history with no branch but the current one is a tree.
pub proof fn lemma_single_branch_is_tree<E, S>(h: History<E, S>)
    requires
        h.spec_ids() == Set::<usize>::empty().insert(h.spec_root()),
    ensures
        is_tree(h),
{
}

/// The parent of a branch of `reparented(b, x, new)`.
proof fn lemma_reparented_parent<E>(b: Map<usize, Branch<E>>, x: usize, new: At, k: usize)
    requires
        b.dom().contains(k),
    ensures
        reparented(b, x, new)[k].spec_parent() == if b[k].spec_parent().root == x && b[k].spec_parent().index <= new.index {
            At { root: new.root, index: b[k].spec_parent().index }
        } else {
            b[k].spec_parent()
        },
{
}

/// The parent of a branch of `shifted_down(b, root, current)` hangs from the
/// same branch.
proof fn lemma_shifted_parent_root<E>(b: Map<usize, Branch<E>>, root: usize, current: usize, k: usize)
    requires
        b.dom().contains(k),
    ensures
        shifted_down(b, root, current)[k].spec_parent().root == b[k].spec_parent().root,
{
}

/// The branches of a way to the current branch after the first `j` are kept
/// when the way starts at a kept branch and every kept branch other than the
/// current one hangs from a kept one.
proof fn lemma_path_kept<E>(br: Map<usize, Branch<E>>, ids: Set<usize>, root: usize, to: usize, p: Seq<usize>, kept: Set<usize>, j: int)
    requires
        valid_path(br, ids, root, to, p),
        kept.contains(to),
        forall|k: usize| #[trigger] kept.contains(k) && k != root && ids.contains(br[k].spec_parent().root) ==> kept.contains(br[k].spec_parent().root),
        0 <= j < p.len(),
    ensures
        kept.contains(p[j]),
    decreases j,
{
    if j > 0 {
        lemma_path_kept(br, ids, root, to, p, kept, j - 1);
        assert(br[p[j - 1]].spec_parent().root == p[j]);
        assert(ids.contains(p[j]));
    }
}

/// An undo keeps the tree: every branch still hangs from the current one.
pub proof fn lemma_undo_keeps_tree<E: Action, S>(h: History<E, S>, t: E::Target, q: History<E, S>, u: E::Target, res: Option<E::Output>)
    requires
        is_tree(h),
        undid(h, t, q, u, res),
    ensures
        is_tree(q),
{
}

/// A redo keeps the tree: every branch still hangs from the current one.
pub proof fn lemma_redo_keeps_tree<E: Action, S>(h: History<E, S>, t: E::Target, q: History<E, S>, u: E::Target, res: Option<E::Output>)
    requires
        is_tree(h),
        redid(h, t, q, u, res),
    ensures
        is_tree(q),
{
}

/// An edit keeps the tree: every branch still hangs from the current one.
/// In the middle of the current branch the old current branch hangs from the
/// new one, and so does every branch that hung from it; at the limit the
/// removed branches take every branch that hung from them along.
#[verifier::rlimit(40)]
pub proof fn lemma_edit_keeps_tree<E: Action, S>(h: History<E, S>, t: E::Target, action: E, q: History<E, S>, u: E::Target, out: E::Output)
    requires
        h.wf(),
        is_tree(h),
        edited(h, t, action, q, u, out),
    ensures
        is_tree(q),
{
    let e = choose|e: Entry<E>| E::applied(action, t, #[trigger] e.spec_edit(), u, out)
        && e.spec_st_undo() == Time::spec_epoch() && e.spec_st_redo() == Time::spec_epoch() && {
        let (m, merged) = record::push_model(h.spec_record().model(), e);
        let i = h.spec_record().model().index;
        let x = h.spec_root();
        let events = record::push_events(h.spec_record().model(), m);
        &&& q.spec_record().spec_socket().is_connected() == h.spec_record().spec_socket().is_connected()
        &&& if i < h.spec_record().model().entries.len() {
            let next = q.spec_root();
            let new = At { root: next, index: i };
            let rm_saved = match h.spec_record().model().saved {
                Some(s) => if s > i { Some(s) } else { None },
                None => None,
            };
            &&& !h.spec_ids().contains(next)
            &&& q.spec_ids() == h.spec_ids().insert(next)
            &&& q.spec_branches().dom() == h.spec_branches().dom().insert(next)
            &&& q.spec_branches()[next].spec_entries().len() == 0
            &&& q.spec_branches()[x].spec_parent() == new
            &&& q.spec_branches()[x].spec_entries() == h.spec_record().model().entries.skip(i as int)
            &&& forall|k: usize| #![trigger q.spec_branches()[k]] h.spec_branches().dom().contains(k) && k != x
                ==> q.spec_branches()[k] == reparented(h.spec_branches(), x, new)[k]
            &&& q.spec_saved() == saved_after_set_root(h.spec_saved(), rm_saved, x, new)
            &&& q.spec_record().model() == (record::Model {
                saved: record_saved_after_set_root(m.saved, h.spec_saved(), rm_saved, new),
                ..m
            })
            &&& q.spec_record().spec_socket().log() == h.spec_record().spec_socket().log_after(events + seq![Event::Root(next)])
        } else if !merged && m.index == i {
            let removed = h.spec_ids().difference(q.spec_ids());
            &&& q.spec_root() == x
            &&& q.spec_ids().subset_of(h.spec_ids())
            &&& removed_from(h.spec_branches(), At { root: x, index: 0 }, removed, q.spec_ids(), x)
            &&& q.spec_branches() == shifted_down(h.spec_branches().restrict(q.spec_ids()), x, x)
            &&& q.spec_saved() == (match h.spec_saved() {
                Some(s) => if removed.contains(s.root) { None } else { h.spec_saved() },
                None => None,
            })
            &&& q.spec_record().model() == m
            &&& q.spec_record().spec_socket().log() == h.spec_record().spec_socket().log_after(events)
        } else {
            &&& q.spec_root() == x
            &&& q.spec_ids() == h.spec_ids()
            &&& q.spec_branches() == h.spec_branches()
            &&& q.spec_saved() == h.spec_saved()
            &&& q.spec_record().model() == m
            &&& q.spec_record().spec_socket().log() == h.spec_record().spec_socket().log_after(events)
        }
    };
    let (m, merged) = record::push_model(h.spec_record().model(), e);
    let i = h.spec_record().model().index;
    let x = h.spec_root();
    let hb = h.spec_branches();
    let qb = q.spec_branches();
    if i < h.spec_record().model().entries.len() {
        let next = q.spec_root();
        let new = At { root: next, index: i };
        assert forall|k: usize| #[trigger] q.spec_ids().contains(k) && k != q.spec_root() implies exists|p: Seq<usize>|
            #[trigger] valid_path(qb, q.spec_ids(), next, k, p) by {
            if k == x {
                let p = seq![x];
                assert(valid_path(qb, q.spec_ids(), next, k, p));
            } else {
                assert(h.spec_ids().contains(k));
                let p0 = choose|p: Seq<usize>| #[trigger] valid_path(hb, h.spec_ids(), x, k, p);
                let l = p0.last();
                assert(h.spec_ids().contains(l));
                assert(l != x);
                lemma_reparented_parent(hb, x, new, l);
                assert forall|j: int| 0 <= j < p0.len() - 1 implies #[trigger] qb[p0[j]].spec_parent().root == p0[j + 1] by {
                    assert(hb[p0[j]].spec_parent().root == p0[j + 1]);
                    assert(h.spec_ids().contains(p0[j]) && p0[j] != x);
                    assert(h.spec_ids().contains(p0[j + 1]) && p0[j + 1] != x);
                    lemma_reparented_parent(hb, x, new, p0[j]);
                }
                if hb[l].spec_parent().index <= i {
                    assert(qb[l] == reparented(hb, x, new)[l]);
                    assert(valid_path(qb, q.spec_ids(), next, k, p0));
                } else {
                    let p = p0.push(x);
                    assert(qb[l] == reparented(hb, x, new)[l]);
                    assert forall|j: int| 0 <= j < p.len() - 1 implies #[trigger] qb[p[j]].spec_parent().root == p[j + 1] by {
                        if j < p0.len() - 1 {
                            assert(p[j] == p0[j] && p[j + 1] == p0[j + 1]);
                        } else {
                            assert(p[j] == l && p[j + 1] == x);
                        }
                    }
                    assert forall|a: int, b: int| 0 <= a < b < p.len() implies p[a] != p[b] by {
                        if b == p0.len() {
                            assert(p[a] == p0[a]);
                            assert(h.spec_ids().contains(p0[a]) && p0[a] != x);
                        } else {
                            assert(p[a] == p0[a] && p[b] == p0[b]);
                        }
                    }
                    assert forall|j: int| 0 <= j < p.len() implies q.spec_ids().contains(#[trigger] p[j]) && p[j] != next by {
                        if j < p0.len() {
                            assert(p[j] == p0[j]);
                            assert(h.spec_ids().contains(p0[j]));
                        }
                    }
                    assert(valid_path(qb, q.spec_ids(), next, k, p));
                }
            }
        }
    } else if !merged && m.index == i {
        let kept = q.spec_ids();
        let removed = h.spec_ids().difference(kept);
        assert forall|k: usize| #[trigger] kept.contains(k) && k != x && h.spec_ids().contains(hb[k].spec_parent().root)
            implies kept.contains(hb[k].spec_parent().root) by {
            assert(!removed.contains(hb[k].spec_parent().root));
        }
        assert forall|k: usize| #[trigger] q.spec_ids().contains(k) && k != q.spec_root() implies exists|p: Seq<usize>|
            #[trigger] valid_path(qb, q.spec_ids(), x, k, p) by {
            assert(h.spec_ids().contains(k));
            let p0 = choose|p: Seq<usize>| #[trigger] valid_path(hb, h.spec_ids(), x, k, p);
            assert forall|j: int| 0 <= j < p0.len() implies kept.contains(#[trigger] p0[j]) && p0[j] != x by {
                lemma_path_kept(hb, h.spec_ids(), x, k, p0, kept, j);
            }
            assert forall|j: int| 0 <= j < p0.len() implies #[trigger] qb[p0[j]].spec_parent().root == hb[p0[j]].spec_parent().root by {
                assert(kept.contains(p0[j]));
                lemma_shifted_parent_root(hb.restrict(kept), x, x, p0[j]);
            }
            assert(qb[p0.last()].spec_parent().root == x);
            assert forall|j: int| 0 <= j < p0.len() - 1 implies #[trigger] qb[p0[j]].spec_parent().root == p0[j + 1] by {
                assert(qb[p0[j]].spec_parent().root == hb[p0[j]].spec_parent().root);
            }
            assert(valid_path(qb, q.spec_ids(), x, k, p0));
        }
    } else {
    }
}

/// An edit on a full current branch that stands at its newest entry, with
/// actions that never merge, drops the oldest entry of the current branch;
/// the branches follow it: a branch that hung from the state before the
/// dropped entry goes, and every other branch that hung from the current
/// branch hangs one position lower, at the same state as before, with its
/// entries. The other branches are left as they were.
pub proof fn edit_at_limit_shifts_branches<E: Action, S>(
    h: History<E, S>,
    t: E::Target,
    action: E,
    q: History<E, S>,
    u: E::Target,
    out: E::Output,
)
    requires
        h.wf(),
        edited(h, t, action, q, u, out),
        h.spec_record().model().index == h.spec_record().model().limit,
        crate::laws::never_merge::<E>(),
    ensures
        q.spec_root() == h.spec_root(),
        q.spec_ids().subset_of(h.spec_ids()),
        forall|k: usize| #![trigger q.spec_branches()[k]]
            q.spec_ids().contains(k) && k != h.spec_root() && h.spec_branches()[k].spec_parent().root == h.spec_root() ==> {
                &&& h.spec_branches()[k].spec_parent().index > 0
                &&& q.spec_branches()[k].spec_parent() == (At {
                    root: h.spec_root(),
                    index: (h.spec_branches()[k].spec_parent().index - 1) as usize,
                })
                &&& q.spec_branches()[k].spec_entries() == h.spec_branches()[k].spec_entries()
            },
        forall|k: usize| #![trigger h.spec_branches()[k]]
            h.spec_ids().contains(k) && k != h.spec_root() && h.spec_branches()[k].spec_parent() == (At { root: h.spec_root(), index: 0 })
                ==> !q.spec_ids().contains(k),
        forall|k: usize| #![trigger q.spec_branches()[k]]
            q.spec_ids().contains(k) && k != h.spec_root() && h.spec_branches()[k].spec_parent().root != h.spec_root()
                ==> q.spec_branches()[k] == h.spec_branches()[k],
{
    let m = h.spec_record().model();
    let x = h.spec_root();
    let e = choose|e: Entry<E>| E::applied(action, t, #[trigger] e.spec_edit(), u, out)
        && e.spec_st_undo() == Time::spec_epoch() && e.spec_st_redo() == Time::spec_epoch() && {
        let (m, merged) = record::push_model(h.spec_record().model(), e);
        let i = h.spec_record().model().index;
        let x = h.spec_root();
        let events = record::push_events(h.spec_record().model(), m);
        &&& q.spec_record().spec_socket().is_connected() == h.spec_record().spec_socket().is_connected()
        &&& if i < h.spec_record().model().entries.len() {
            let next = q.spec_root();
            let new = At { root: next, index: i };
            let rm_saved = match h.spec_record().model().saved {
                Some(s) => if s > i { Some(s) } else { None },
                None => None,
            };
            &&& !h.spec_ids().contains(next)
            &&& q.spec_ids() == h.spec_ids().insert(next)
            &&& q.spec_branches().dom() == h.spec_branches().dom().insert(next)
            &&& q.spec_branches()[next].spec_entries().len() == 0
            &&& q.spec_branches()[x].spec_parent() == new
            &&& q.spec_branches()[x].spec_entries() == h.spec_record().model().entries.skip(i as int)
            &&& forall|k: usize| #![trigger q.spec_branches()[k]] h.spec_branches().dom().contains(k) && k != x
                ==> q.spec_branches()[k] == reparented(h.spec_branches(), x, new)[k]
            &&& q.spec_saved() == saved_after_set_root(h.spec_saved(), rm_saved, x, new)
            &&& q.spec_record().model() == (record::Model {
                saved: record_saved_after_set_root(m.saved, h.spec_saved(), rm_saved, new),
                ..m
            })
            &&& q.spec_record().spec_socket().log() == h.spec_record().spec_socket().log_after(events + seq![Event::Root(next)])
        } else if !merged && m.index == i {
            let removed = h.spec_ids().difference(q.spec_ids());
            &&& q.spec_root() == x
            &&& q.spec_ids().subset_of(h.spec_ids())
            &&& removed_from(h.spec_branches(), At { root: x, index: 0 }, removed, q.spec_ids(), x)
            &&& q.spec_branches() == shifted_down(h.spec_branches().restrict(q.spec_ids()), x, x)
            &&& q.spec_saved() == (match h.spec_saved() {
                Some(s) => if removed.contains(s.root) { None } else { h.spec_saved() },
                None => None,
            })
            &&& q.spec_record().model() == m
            &&& q.spec_record().spec_socket().log() == h.spec_record().spec_socket().log_after(events)
        } else {
            &&& q.spec_root() == x
            &&& q.spec_ids() == h.spec_ids()
            &&& q.spec_branches() == h.spec_branches()
            &&& q.spec_saved() == h.spec_saved()
            &&& q.spec_record().model() == m
            &&& q.spec_record().spec_socket().log() == h.spec_record().spec_socket().log_after(events)
        }
    };
    assert(m.entries.take(m.index as int) =~= m.entries);
    let was_saved = m.saved == Some(m.index);
    if m.index > 0 && !was_saved {
        let last = m.entries.last();
        assert(E::merge_spec(last.spec_edit(), e.spec_edit()) == (last.spec_edit(), crate::Merged::<E>::No(e.spec_edit())));
        last.with_own_edit();
        e.with_own_edit();
    }
    let (n, merged) = record::push_model(m, e);
    assert(!merged && n.index == m.index);
    let kept = q.spec_ids();
    let hb = h.spec_branches();
    assert forall|k: usize| #![trigger q.spec_branches()[k]]
        q.spec_ids().contains(k) && k != x && hb[k].spec_parent().root == x implies {
            &&& hb[k].spec_parent().index > 0
            &&& q.spec_branches()[k].spec_parent() == (At { root: x, index: (hb[k].spec_parent().index - 1) as usize })
            &&& q.spec_branches()[k].spec_entries() == hb[k].spec_entries()
        } by {
        assert(kept.contains(k) && k != x);
        assert(hb.restrict(kept)[k] == hb[k]);
    }
    assert forall|k: usize| #![trigger hb[k]]
        h.spec_ids().contains(k) && k != x && hb[k].spec_parent() == (At { root: x, index: 0 }) implies !q.spec_ids().contains(k) by {
        if q.spec_ids().contains(k) {
            assert(kept.contains(k) && k != x);
        }
    }
    assert forall|k: usize| #![trigger q.spec_branches()[k]]
        q.spec_ids().contains(k) && k != x && hb[k].spec_parent().root != x implies q.spec_branches()[k] == hb[k] by {
        assert(hb.restrict(kept)[k] == hb[k]);
    }
}

impl<E, S> History<E, S> {
    /// A well-formed history has finitely many branches.
    pub proof fn lemma_ids_finite(&self)
        requires
            self.wf(),
        ensures
            self.spec_ids().finite(),
    {
        assert(self.branches@.dom().finite());
    }
}
} // verus!
