//! Two actions joined into one.

use crate::add::push_char;
use crate::{Action, Merged};
use vstd::prelude::*;

verus! {

/// Two actions joined together: applying applies `a` then `b`, undoing
/// undoes `b` then `a`, redoing redoes `a` then `b`. The output is that of
/// the second step; the output of the first is discarded.
pub struct Join<A, B> {
    a: A,
    b: B,
}

impl<A, B> Join<A, B> {
    /// The first action.
    pub closed spec fn first(&self) -> A {
        self.a
    }

    /// The second action.
    pub closed spec fn second(&self) -> B {
        self.b
    }

    /// Creates a join of `a` and `b`.
    pub fn new(a: A, b: B) -> (j: Join<A, B>)
        ensures
            j.first() == a,
            j.second() == b,
    {
        Join { a, b }
    }

    /// Joins `self` with `c`.
    pub fn join<C>(self, c: C) -> (j: Join<Join<A, B>, C>)
        ensures
            j.first() == self,
            j.second() == c,
    {
        Join::new(self, c)
    }
}

impl<A: std::fmt::Display, B: std::fmt::Display> Join<A, B> {
    /// The display text: that of the first action, `" & "`, then that of the
    /// second.
    pub fn to_string(&self) -> (s: String)
        ensures
            exists|ta: String, tb: String|
                #![trigger vstd::string::to_string_from_display_ensures(&self.first(), ta), vstd::string::to_string_from_display_ensures(&self.second(), tb)]
                vstd::string::to_string_from_display_ensures(&self.first(), ta)
                && vstd::string::to_string_from_display_ensures(&self.second(), tb)
                && s@ == ta@ + seq![' ', '&', ' '] + tb@,
    {
        let ta = self.a.to_string();
        let tb = self.b.to_string();
        let mut s = String::new();
        s.append(ta.as_str());
        push_char(&mut s, ' ');
        push_char(&mut s, '&');
        push_char(&mut s, ' ');
        s.append(tb.as_str());
        assert(s@ =~= ta@ + seq![' ', '&', ' '] + tb@);
        assert(vstd::string::to_string_from_display_ensures(&self.first(), ta));
        assert(vstd::string::to_string_from_display_ensures(&self.second(), tb));
        s
    }
}

impl<A: Action, B: Action<Target = A::Target, Output = A::Output>> Action for Join<A, B> {
    type Target = A::Target;
    type Output = A::Output;

    open spec fn applied(self, target: A::Target, next: Self, next_target: A::Target, out: A::Output) -> bool {
        exists|mid: A::Target, o: A::Output|
            A::applied(self.first(), target, next.first(), mid, o)
            && B::applied(self.second(), mid, next.second(), next_target, out)
    }

    open spec fn undone(self, target: A::Target, next: Self, next_target: A::Target, out: A::Output) -> bool {
        exists|mid: A::Target, o: A::Output|
            B::undone(self.second(), target, next.second(), mid, o)
            && A::undone(self.first(), mid, next.first(), next_target, out)
    }

    open spec fn redone(self, target: A::Target, next: Self, next_target: A::Target, out: A::Output) -> bool {
        exists|mid: A::Target, o: A::Output|
            A::redone(self.first(), target, next.first(), mid, o)
            && B::redone(self.second(), mid, next.second(), next_target, out)
    }

    open spec fn merge_spec(self, other: Self) -> (Self, Merged<Self>) {
        (self, Merged::No(other))
    }

    fn apply(&mut self, target: &mut A::Target) -> (out: A::Output) {
        let o = self.a.apply(target);
        let ghost mid = *target;
        let out = self.b.apply(target);
        assert(A::applied(old(self).first(), *old(target), self.first(), mid, o));
        out
    }

    fn undo(&mut self, target: &mut A::Target) -> (out: A::Output) {
        let o = self.b.undo(target);
        let ghost mid = *target;
        let out = self.a.undo(target);
        assert(B::undone(old(self).second(), *old(target), self.second(), mid, o));
        out
    }

    fn redo(&mut self, target: &mut A::Target) -> (out: A::Output) {
        let o = self.a.redo(target);
        let ghost mid = *target;
        let out = self.b.redo(target);
        assert(A::redone(old(self).first(), *old(target), self.first(), mid, o));
        out
    }

    fn merge(&mut self, other: Self) -> (res: Merged<Self>) {
        Merged::No(other)
    }
}

} // verus!
