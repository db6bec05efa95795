//! The action used in the examples: pushing a character onto a string.

use crate::{Action, Merged};
use vstd::prelude::*;

verus! {

/// Pushes `c` onto `s` (`String::push`).
#[verifier::external_body]
pub(crate) fn push_char(s: &mut String, c: char)
    ensures
        final(s)@ == old(s)@.push(c),
{
    s.push(c)
}

/// Removes the last character of `s` and returns it (`String::pop`).
#[verifier::external_body]
fn pop_char(s: &mut String) -> (c: Option<char>)
    ensures
        old(s)@.len() == 0 ==> c is None && final(s)@ == old(s)@,
        old(s)@.len() > 0 ==> c == Some(old(s)@.last()) && final(s)@ == old(s)@.drop_last(),
{
    s.pop()
}

/// Pushes its character onto the target string.
///
/// Undoing pops the last character of the target back into the action; on an
/// empty target undoing changes nothing.
#[derive(Copy, Clone, Debug, PartialEq, Eq)]
pub struct Add(pub char);

impl Add {
    /// The text of the action: `Add '<c>'`.
    pub fn text(&self) -> (s: String)
        ensures
            s@ == seq!['A', 'd', 'd', ' ', '\''] + seq![self.0] + seq!['\''],
    {
        let mut s = String::new();
        push_char(&mut s, 'A');
        push_char(&mut s, 'd');
        push_char(&mut s, 'd');
        push_char(&mut s, ' ');
        push_char(&mut s, '\'');
        push_char(&mut s, self.0);
        push_char(&mut s, '\'');
        assert(s@ =~= seq!['A', 'd', 'd', ' ', '\''] + seq![self.0] + seq!['\'']);
        s
    }
}

impl Action for Add {
    type Target = String;
    type Output = ();

    open spec fn applied(self, target: String, next: Add, next_target: String, out: ()) -> bool {
        next == self && next_target@ == target@.push(self.0)
    }

    open spec fn undone(self, target: String, next: Add, next_target: String, out: ()) -> bool {
        if target@.len() > 0 {
            next == Add(target@.last()) && next_target@ == target@.drop_last()
        } else {
            next == self && next_target@ == target@
        }
    }

    open spec fn redone(self, target: String, next: Add, next_target: String, out: ()) -> bool {
        Self::applied(self, target, next, next_target, out)
    }

    open spec fn merge_spec(self, other: Add) -> (Add, Merged<Add>) {
        (self, Merged::No(other))
    }

    fn apply(&mut self, target: &mut String) {
        push_char(target, self.0);
    }

    fn undo(&mut self, target: &mut String) {
        match pop_char(target) {
            Some(c) => {
                self.0 = c;
            },
            None => {},
        }
    }

    fn redo(&mut self, target: &mut String) {
        self.apply(target)
    }

    fn merge(&mut self, other: Add) -> (res: Merged<Add>) {
        Merged::No(other)
    }
}

} // verus!

verus! {

/// Pushes its character onto the target string; the action of the examples.
///
/// Undoing pops the last character of the target back into the action; on an
/// empty target undoing changes nothing.
#[derive(Copy, Clone, Debug, PartialEq, Eq)]
pub struct Push(pub char);

impl Action for Push {
    type Target = String;
    type Output = ();

    open spec fn applied(self, target: String, next: Push, next_target: String, out: ()) -> bool {
        next == self && next_target@ == target@.push(self.0)
    }

    open spec fn undone(self, target: String, next: Push, next_target: String, out: ()) -> bool {
        if target@.len() > 0 {
            next == Push(target@.last()) && next_target@ == target@.drop_last()
        } else {
            next == self && next_target@ == target@
        }
    }

    open spec fn redone(self, target: String, next: Push, next_target: String, out: ()) -> bool {
        Self::applied(self, target, next, next_target, out)
    }

    open spec fn merge_spec(self, other: Push) -> (Push, Merged<Push>) {
        (self, Merged::No(other))
    }

    fn apply(&mut self, target: &mut String) {
        push_char(target, self.0);
    }

    fn undo(&mut self, target: &mut String) {
        match pop_char(target) {
            Some(c) => {
                self.0 = c;
            },
            None => {},
        }
    }

    fn redo(&mut self, target: &mut String) {
        self.apply(target)
    }

    fn merge(&mut self, other: Push) -> (res: Merged<Push>) {
        Merged::No(other)
    }
}

} // verus!
