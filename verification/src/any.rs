//! An action of any type with a given target and output.

use crate::{Action, Merged};
use vstd::prelude::*;

verus! {

/// The calls of an action, for any action type with this target and output,
/// with their descriptions. A description relates the action and the target
/// before the call to the target after it and the output; the action after
/// the call is the object itself.
pub trait DynAction<T, O> {
    /// Holds when `dyn_apply` on this action may turn `target` into
    /// `next_target` with output `out`.
    spec fn dyn_applied(&self, target: T, next_target: T, out: O) -> bool;

    /// Holds when `dyn_undo` on this action may turn `target` into
    /// `next_target` with output `out`.
    spec fn dyn_undone(&self, target: T, next_target: T, out: O) -> bool;

    /// Holds when `dyn_redo` on this action may turn `target` into
    /// `next_target` with output `out`.
    spec fn dyn_redone(&self, target: T, next_target: T, out: O) -> bool;

    /// Applies the action.
    fn dyn_apply(&mut self, target: &mut T) -> (out: O)
        ensures
            old(self).dyn_applied(*old(target), *final(target), out),
    ;

    /// Undoes the action.
    fn dyn_undo(&mut self, target: &mut T) -> (out: O)
        ensures
            old(self).dyn_undone(*old(target), *final(target), out),
    ;

    /// Redoes the action.
    fn dyn_redo(&mut self, target: &mut T) -> (out: O)
        ensures
            old(self).dyn_redone(*old(target), *final(target), out),
    ;
}

/// Every action gives its calls: the descriptions are those of the action,
/// for some action after the call.
impl<A: Action> DynAction<A::Target, A::Output> for A {
    open spec fn dyn_applied(&self, target: A::Target, next_target: A::Target, out: A::Output) -> bool {
        exists|next: A| #[trigger] A::applied(*self, target, next, next_target, out)
    }

    open spec fn dyn_undone(&self, target: A::Target, next_target: A::Target, out: A::Output) -> bool {
        exists|next: A| #[trigger] A::undone(*self, target, next, next_target, out)
    }

    open spec fn dyn_redone(&self, target: A::Target, next_target: A::Target, out: A::Output) -> bool {
        exists|next: A| #[trigger] A::redone(*self, target, next, next_target, out)
    }

    fn dyn_apply(&mut self, target: &mut A::Target) -> (out: A::Output) {
        self.apply(target)
    }

    fn dyn_undo(&mut self, target: &mut A::Target) -> (out: A::Output) {
        self.undo(target)
    }

    fn dyn_redo(&mut self, target: &mut A::Target) -> (out: A::Output) {
        self.redo(target)
    }
}

/// Any action: several types of actions can be used at the same time as
/// long as they share the target and output types. The calls go to the
/// wrapped action.
#[verifier::reject_recursive_types(T)]
#[verifier::reject_recursive_types(O)]
pub struct Any<T, O> {
    action: Box<dyn DynAction<T, O>>,
    string: String,
}

impl<T, O> Any<T, O> {
    /// Holds when applying the wrapped action may turn `target` into
    /// `next_target` with output `out`.
    pub closed spec fn action_applied(&self, target: T, next_target: T, out: O) -> bool {
        (*self.action).dyn_applied(target, next_target, out)
    }

    /// Holds when undoing the wrapped action may turn `target` into
    /// `next_target` with output `out`.
    pub closed spec fn action_undone(&self, target: T, next_target: T, out: O) -> bool {
        (*self.action).dyn_undone(target, next_target, out)
    }

    /// Holds when redoing the wrapped action may turn `target` into
    /// `next_target` with output `out`.
    pub closed spec fn action_redone(&self, target: T, next_target: T, out: O) -> bool {
        (*self.action).dyn_redone(target, next_target, out)
    }

    /// The display message.
    pub closed spec fn spec_string(&self) -> Seq<char> {
        self.string@
    }

    /// Creates an `Any` from the provided action, with an empty message.
    pub fn new<A: Action<Target = T, Output = O> + 'static>(action: A) -> (a: Any<T, O>)
        ensures
            a.spec_string() == Seq::<char>::empty(),
            forall|t: T, nt: T, o: O| #[trigger] a.action_applied(t, nt, o) == action.dyn_applied(t, nt, o),
            forall|t: T, nt: T, o: O| #[trigger] a.action_undone(t, nt, o) == action.dyn_undone(t, nt, o),
            forall|t: T, nt: T, o: O| #[trigger] a.action_redone(t, nt, o) == action.dyn_redone(t, nt, o),
    {
        Any { action: Box::new(action), string: String::new() }
    }

    /// Sets the display message of this action; the action stays.
    pub fn set_string(&mut self, s: String)
        ensures
            final(self).spec_string() == s@,
            forall|t: T, nt: T, o: O| #[trigger] final(self).action_applied(t, nt, o) == old(self).action_applied(t, nt, o),
            forall|t: T, nt: T, o: O| #[trigger] final(self).action_undone(t, nt, o) == old(self).action_undone(t, nt, o),
            forall|t: T, nt: T, o: O| #[trigger] final(self).action_redone(t, nt, o) == old(self).action_redone(t, nt, o),
    {
        self.string = s;
    }

    /// Returns the display message.
    pub fn to_string(&self) -> (s: String)
        ensures
            s@ == self.spec_string(),
    {
        self.string.clone()
    }
}

impl<T, O> Action for Any<T, O> {
    type Target = T;
    type Output = O;

    open spec fn applied(self, target: T, next: Self, next_target: T, out: O) -> bool {
        &&& self.action_applied(target, next_target, out)
        &&& next.spec_string() == self.spec_string()
    }

    open spec fn undone(self, target: T, next: Self, next_target: T, out: O) -> bool {
        &&& self.action_undone(target, next_target, out)
        &&& next.spec_string() == self.spec_string()
    }

    open spec fn redone(self, target: T, next: Self, next_target: T, out: O) -> bool {
        &&& self.action_redone(target, next_target, out)
        &&& next.spec_string() == self.spec_string()
    }

    fn apply(&mut self, target: &mut T) -> (out: O) {
        self.action.dyn_apply(target)
    }

    fn undo(&mut self, target: &mut T) -> (out: O) {
        self.action.dyn_undo(target)
    }

    fn redo(&mut self, target: &mut T) -> (out: O) {
        self.action.dyn_redo(target)
    }

    fn merge(&mut self, other: Self) -> (res: Merged<Self>) {
        Merged::No(other)
    }
}

} // verus!
