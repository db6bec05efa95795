//! Actions made from functions.

use crate::{Action, Merged};
use vstd::prelude::*;

verus! {

/// Calls `f` on `target` (`FnMut::call_mut`): the call is made on a
/// reference that holds the target and leaves in it what the target ends as;
/// where `f`'s own precondition holds of it, the call is one that `f`'s own
/// contract allows. Nothing more is claimed, as the function is the user's.
#[verifier::external_body]
fn call_on<F: FnMut(&mut T), T>(f: &mut F, target: &mut T)
    ensures
        exists|m: &mut T| #![trigger call_requires(*old(f), (m,))]
            *m == *old(target) && *final(m) == *final(target)
            && (call_requires(*old(f), (m,)) ==> call_ensures(*old(f), (m,), ())),
{
    f(target)
}

/// Calls `f` on `target` (`FnMut::call_mut`) and returns its result: the
/// call is made on a reference that holds the target and leaves in it what
/// the target ends as; where `f`'s own precondition holds of it, the call and
/// the result are ones that `f`'s own contract allows. Nothing more is
/// claimed, as the function is the user's.
#[verifier::external_body]
fn try_call_on<F: FnMut(&mut T) -> Result<(), E>, T, E>(f: &mut F, target: &mut T) -> (r: Result<(), E>)
    ensures
        exists|m: &mut T| #![trigger call_requires(*old(f), (m,))]
            *m == *old(target) && *final(m) == *final(target)
            && (call_requires(*old(f), (m,)) ==> call_ensures(*old(f), (m,), r)),
{
    f(target)
}

/// `f` was called on a target that held `target` and returned `out`: as its
/// own contract allows, where its precondition held of that target.
pub open spec fn called_on<F: FnMut(&mut T) -> O, T, O>(f: F, target: T, out: O) -> bool {
    exists|m: &mut T| #![trigger call_requires(f, (m,))] #![trigger call_ensures(f, (m,), out)]
        *m == target && (call_requires(f, (m,)) ==> call_ensures(f, (m,), out))
}

/// Action made from a function.
///
/// Applying keeps a clone of the target and then calls the function on the
/// target; undoing and redoing swap the target with the kept one.
pub struct FromFn<F, T> {
    f: F,
    target: Option<T>,
}

impl<F, T> FromFn<F, T> {
    /// The function.
    pub closed spec fn spec_f(&self) -> F {
        self.f
    }

    /// The target that is swapped in on the next undo or redo, if any.
    pub closed spec fn spec_target(&self) -> Option<T> {
        self.target
    }

    /// Creates a new `FromFn` from `f`.
    pub fn new(f: F) -> (a: FromFn<F, T>)
        ensures
            a.spec_f() == f,
            a.spec_target() is None,
    {
        FromFn { f, target: None }
    }
}

/// What undoing or redoing a `FromFn`, or a `TryFromFn`, does: the target and
/// the kept one are swapped when one is kept; otherwise nothing changes.
pub open spec fn swapped<T>(kept: Option<T>, target: T, next_kept: Option<T>, next_target: T) -> bool {
    match kept {
        Some(k) => next_kept == Some(target) && next_target == k,
        None => next_kept is None && next_target == target,
    }
}

impl<F: FnMut(&mut T), T: Clone> Action for FromFn<F, T> {
    type Target = T;
    type Output = ();

    open spec fn applied(self, target: T, next: Self, next_target: T, out: ()) -> bool {
        &&& next.spec_target() matches Some(k) && vstd::pervasive::cloned(target, k)
        &&& called_on(self.spec_f(), target, out)
    }

    open spec fn undone(self, target: T, next: Self, next_target: T, out: ()) -> bool {
        next.spec_f() == self.spec_f() && swapped(self.spec_target(), target, next.spec_target(), next_target)
    }

    open spec fn redone(self, target: T, next: Self, next_target: T, out: ()) -> bool {
        next.spec_f() == self.spec_f() && swapped(self.spec_target(), target, next.spec_target(), next_target)
    }

    open spec fn merge_spec(self, other: Self) -> (Self, Merged<Self>) {
        (self, Merged::No(other))
    }

    fn apply(&mut self, target: &mut T)
        ensures
            exists|m: &mut T| #![trigger call_requires(old(self).spec_f(), (m,))]
                *m == *old(target) && *final(m) == *final(target)
                && (call_requires(old(self).spec_f(), (m,)) ==> call_ensures(old(self).spec_f(), (m,), ())),
    {
        self.target = Some(target.clone());
        call_on(&mut self.f, target);
    }

    fn undo(&mut self, target: &mut T) {
        match self.target.take() {
            Some(mut kept) => {
                core::mem::swap(&mut kept, target);
                self.target = Some(kept);
            },
            None => {},
        }
    }

    fn redo(&mut self, target: &mut T) {
        match self.target.take() {
            Some(mut kept) => {
                core::mem::swap(&mut kept, target);
                self.target = Some(kept);
            },
            None => {},
        }
    }

    fn merge(&mut self, other: Self) -> (res: Merged<Self>) {
        Merged::No(other)
    }
}

/// Action made from a fallible function.
///
/// Same as [`FromFn`] but for functions that return a `Result`: applying
/// returns what the function returned, an error included; undoing and redoing
/// return `Ok(())`.
pub struct TryFromFn<F, T> {
    f: F,
    target: Option<T>,
}

impl<F, T> TryFromFn<F, T> {
    /// The function.
    pub closed spec fn spec_f(&self) -> F {
        self.f
    }

    /// The target that is swapped in on the next undo or redo, if any.
    pub closed spec fn spec_target(&self) -> Option<T> {
        self.target
    }

    /// Creates a new `TryFromFn` from `f`.
    pub fn new(f: F) -> (a: TryFromFn<F, T>)
        ensures
            a.spec_f() == f,
            a.spec_target() is None,
    {
        TryFromFn { f, target: None }
    }
}

impl<F: FnMut(&mut T) -> Result<(), E>, T: Clone, E> Action for TryFromFn<F, T> {
    type Target = T;
    type Output = Result<(), E>;

    open spec fn applied(self, target: T, next: Self, next_target: T, out: Result<(), E>) -> bool {
        &&& next.spec_target() matches Some(k) && vstd::pervasive::cloned(target, k)
        &&& called_on(self.spec_f(), target, out)
    }

    open spec fn undone(self, target: T, next: Self, next_target: T, out: Result<(), E>) -> bool {
        &&& next.spec_f() == self.spec_f()
        &&& swapped(self.spec_target(), target, next.spec_target(), next_target)
        &&& out is Ok
    }

    open spec fn redone(self, target: T, next: Self, next_target: T, out: Result<(), E>) -> bool {
        &&& next.spec_f() == self.spec_f()
        &&& swapped(self.spec_target(), target, next.spec_target(), next_target)
        &&& out is Ok
    }

    open spec fn merge_spec(self, other: Self) -> (Self, Merged<Self>) {
        (self, Merged::No(other))
    }

    fn apply(&mut self, target: &mut T) -> (out: Result<(), E>)
        ensures
            exists|m: &mut T| #![trigger call_requires(old(self).spec_f(), (m,))]
                *m == *old(target) && *final(m) == *final(target)
                && (call_requires(old(self).spec_f(), (m,)) ==> call_ensures(old(self).spec_f(), (m,), out)),
    {
        self.target = Some(target.clone());
        try_call_on(&mut self.f, target)
    }

    fn undo(&mut self, target: &mut T) -> (out: Result<(), E>) {
        match self.target.take() {
            Some(mut kept) => {
                core::mem::swap(&mut kept, target);
                self.target = Some(kept);
            },
            None => {},
        }
        Ok(())
    }

    fn redo(&mut self, target: &mut T) -> (out: Result<(), E>) {
        match self.target.take() {
            Some(mut kept) => {
                core::mem::swap(&mut kept, target);
                self.target = Some(kept);
            },
            None => {},
        }
        Ok(())
    }

    fn merge(&mut self, other: Self) -> (res: Merged<Self>) {
        Merged::No(other)
    }
}

} // verus!
