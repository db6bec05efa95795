//! An undo-redo library.
//!
//! Every modification of a target is made by an action object that knows how
//! to apply itself and how to take itself back. The structures of this crate
//! store those actions and move the target backwards and forwards through
//! them: [`Record`] keeps a linear list, [`History`] keeps a tree of branches.
//!
//! The behaviour of an action is described to the verifier through the spec
//! functions of the [`Action`] trait; every contract of the structures is stated
//! in terms of them.

pub mod add;
pub mod any;
pub mod entry;
pub mod format;
pub mod from_fn;
pub mod history;
pub mod join;
pub mod laws;
pub mod record;
pub mod socket;

pub use add::{Add, Push};
pub use any::Any;
pub use entry::Entry;
pub use from_fn::{FromFn, TryFromFn};
pub use history::{Branch, History};
pub use join::Join;
pub use record::Record;
pub use socket::{Event, Nop, Slot};

use vstd::prelude::*;

verus! {

/// Says if the action has been merged with another action.
#[derive(Copy, Clone, Debug, Hash, Eq, PartialEq)]
pub enum Merged<A> {
    /// The actions have been merged: the other action is not kept.
    Yes,
    /// The actions have not been merged: the other action is handed back.
    No(A),
    /// The two actions cancel each other out: both are dropped.
    Annul,
}

/// Base functionality for all actions.
///
/// Each of `apply`, `undo` and `redo` is described by a relation between the
/// action and the target before the call, the action and the target after it,
/// and the output. `merge` is described by a function. The structures of this
/// crate are verified against these descriptions only.
///
/// An implementation that does not describe `apply` or `undo` claims nothing
/// of them; `redo` is described as `apply` and `merge` as keeping both
/// actions, as the usual implementations do, unless the implementation says
/// otherwise.
pub trait Action: Sized {
    /// The target type.
    type Target;
    /// The output type.
    type Output;

    /// Holds when [`Action::apply`] may turn `self` and `target` into `next` and
    /// `next_target` with output `out`.
    open spec fn applied(self, target: Self::Target, next: Self, next_target: Self::Target, out: Self::Output) -> bool {
        true
    }

    /// Holds when [`Action::undo`] may turn `self` and `target` into `next` and
    /// `next_target` with output `out`.
    open spec fn undone(self, target: Self::Target, next: Self, next_target: Self::Target, out: Self::Output) -> bool {
        true
    }

    /// Holds when [`Action::redo`] may turn `self` and `target` into `next` and
    /// `next_target` with output `out`.
    open spec fn redone(self, target: Self::Target, next: Self, next_target: Self::Target, out: Self::Output) -> bool {
        Self::applied(self, target, next, next_target, out)
    }

    /// What [`Action::merge`] does: the action after the call and the result.
    open spec fn merge_spec(self, other: Self) -> (Self, Merged<Self>) {
        (self, Merged::No(other))
    }

    /// Applies the action on the target.
    fn apply(&mut self, target: &mut Self::Target) -> (out: Self::Output)
        ensures
            Self::applied(*old(self), *old(target), *final(self), *final(target), out),
    ;

    /// Restores the state of the target as it was before the action was applied.
    fn undo(&mut self, target: &mut Self::Target) -> (out: Self::Output)
        ensures
            Self::undone(*old(self), *old(target), *final(self), *final(target), out),
    ;

    /// Reapplies the action on the target.
    fn redo(&mut self, target: &mut Self::Target) -> (out: Self::Output)
        ensures
            Self::redone(*old(self), *old(target), *final(self), *final(target), out),
    ;

    /// Tries to merge `other` into this action.
    fn merge(&mut self, other: Self) -> (res: Merged<Self>)
        ensures
            (*final(self), res) == Self::merge_spec(*old(self), other),
    ;
}

/// The values that are present in `outs`, in order.
pub open spec fn present<O>(outs: Seq<Option<O>>) -> Seq<O>
    decreases outs.len(),
{
    if outs.len() == 0 {
        Seq::empty()
    } else {
        present(outs.drop_last()) + match outs.last() {
            Some(o) => seq![o],
            None => Seq::empty(),
        }
    }
}

/// A position in a history tree: the id of a branch and an index in it.
#[derive(Copy, Clone, Debug, Default, Hash, Eq, PartialEq)]
pub struct At {
    /// The branch.
    pub root: usize,
    /// The index in the branch.
    pub index: usize,
}

impl At {
    /// Returns the position `index` in branch `root`.
    pub fn new(root: usize, index: usize) -> (at: At)
        ensures
            at.root == root,
            at.index == index,
    {
        At { root, index }
    }

    /// The position that stands for no position.
    pub open spec fn spec_nil() -> At {
        At { root: usize::MAX, index: 0 }
    }

    /// Returns the position that stands for no position.
    pub fn nil() -> (at: At)
        ensures
            at == At::spec_nil(),
    {
        At { root: usize::MAX, index: 0 }
    }

    /// Returns the position `index` in branch 0.
    pub fn root(index: usize) -> (at: At)
        ensures
            at.root == 0,
            at.index == index,
    {
        At::new(0, index)
    }
}

} // verus!
