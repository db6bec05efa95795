//! An action together with the times at which it was applied, undone and redone.

use crate::{Action, Merged};
use std::time::{Duration, SystemTime, SystemTimeError};
use vstd::prelude::*;

verus! {

/// A point in time of the system clock.
#[verifier::external_type_specification]
#[verifier::external_body]
pub struct ExSystemTime(SystemTime);

/// Reads the system clock (`SystemTime::now`). Nothing is claimed of the
/// value: it depends on the machine's clock.
#[verifier::external_body]
fn system_now() -> SystemTime {
    SystemTime::now()
}

/// The error of a time that lies before another.
#[verifier::external_type_specification]
#[verifier::external_body]
pub struct ExSystemTimeError(std::time::SystemTimeError);

/// The duration from the start of UNIX time to `t`
/// (`SystemTime::duration_since` with `UNIX_EPOCH`): an error when `t` lies
/// before it. Nothing is claimed of the value: `SystemTime` is opaque here.
#[verifier::external_body]
fn since_epoch(t: SystemTime) -> Result<Duration, SystemTimeError> {
    t.duration_since(SystemTime::UNIX_EPOCH)
}

/// How far the time of the error lies before the other
/// (`SystemTimeError::duration`). Both types are opaque here, so nothing is
/// claimed of the value.
#[verifier::external_body]
fn error_duration(e: &SystemTimeError) -> Duration {
    e.duration()
}

/// The whole seconds of `d` (`Duration::as_secs`). `Duration` is opaque
/// here, so nothing is claimed of the value.
#[verifier::external_body]
fn duration_secs(d: &Duration) -> u64 {
    d.as_secs()
}

/// The nanoseconds of `d` beyond its whole seconds
/// (`Duration::subsec_nanos`): less than one billion, as its documentation
/// says.
#[verifier::external_body]
fn duration_subsec_nanos(d: &Duration) -> (n: u32)
    ensures
        n < 1_000_000_000,
{
    d.subsec_nanos()
}

/// A point in time, held as its distance from the start of UNIX time
/// (1970-01-01 00:00:00 UTC): whole seconds and nanoseconds, before or after
/// that start.
#[derive(Copy, Clone, Debug, PartialEq, Eq, Structural, Hash)]
pub struct Time {
    before: bool,
    secs: u64,
    nanos: u32,
}

impl Time {
    /// The signed number of nanoseconds from the start of UNIX time.
    pub closed spec fn spec_nanos(self) -> int {
        let d = self.secs as int * 1_000_000_000 + self.nanos as int;
        if self.before {
            -d
        } else {
            d
        }
    }

    /// The start of UNIX time.
    pub closed spec fn spec_epoch() -> Time {
        Time { before: false, secs: 0, nanos: 0 }
    }

    /// The start of UNIX time is 0 nanoseconds from it.
    pub proof fn lemma_epoch()
        ensures
            Time::spec_epoch().spec_nanos() == 0,
    {
    }

    /// Returns the start of UNIX time (`SystemTime::UNIX_EPOCH`).
    pub fn epoch() -> (t: Time)
        ensures
            t == Time::spec_epoch(),
            t.spec_nanos() == 0,
    {
        Time { before: false, secs: 0, nanos: 0 }
    }

    /// Returns the current time of the system clock (`SystemTime::now`),
    /// as its distance from the start of UNIX time.
    pub fn now() -> (t: Time)
        ensures
            t.spec_subsec_nanos() < 1_000_000_000,
    {
        match since_epoch(system_now()) {
            Ok(d) => Time { before: false, secs: duration_secs(&d), nanos: duration_subsec_nanos(&d) },
            Err(e) => {
                let d = error_duration(&e);
                Time { before: true, secs: duration_secs(&d), nanos: duration_subsec_nanos(&d) }
            },
        }
    }

    /// Returns the time `secs` seconds and `nanos` nanoseconds before the
    /// start of UNIX time when `before`, after it otherwise.
    pub fn new(before: bool, secs: u64, nanos: u32) -> (t: Time)
        ensures
            t.is_before_epoch() == before,
            t.secs() == secs,
            t.subsec_nanos() == nanos,
            t.spec_nanos() == if before { -(secs * 1_000_000_000 + nanos) } else { secs * 1_000_000_000 + nanos },
    {
        Time { before, secs, nanos }
    }

    /// Returns whether the time lies before the start of UNIX time.
    #[verifier::when_used_as_spec(spec_is_before_epoch)]
    pub fn is_before_epoch(self) -> (b: bool)
        ensures
            b == self.spec_is_before_epoch(),
    {
        self.before
    }

    /// Whether the time lies before the start of UNIX time.
    pub closed spec fn spec_is_before_epoch(self) -> bool {
        self.before
    }

    /// Returns the whole seconds of the distance from the start of UNIX time.
    #[verifier::when_used_as_spec(spec_secs)]
    pub fn secs(self) -> (n: u64)
        ensures
            n == self.spec_secs(),
    {
        self.secs
    }

    /// The whole seconds of the distance from the start of UNIX time.
    pub closed spec fn spec_secs(self) -> u64 {
        self.secs
    }

    /// Returns the nanoseconds of the distance beyond its whole seconds.
    #[verifier::when_used_as_spec(spec_subsec_nanos)]
    pub fn subsec_nanos(self) -> (n: u32)
        ensures
            n == self.spec_subsec_nanos(),
    {
        self.nanos
    }

    /// The nanoseconds of the distance beyond its whole seconds.
    pub closed spec fn spec_subsec_nanos(self) -> u32 {
        self.nanos
    }

    /// Returns the signed number of nanoseconds from the start of UNIX time.
    pub fn nanos_since_epoch(self) -> (n: i128)
        ensures
            n == self.spec_nanos(),
    {
        let s = self.secs as i128;
        assert(s * 1_000_000_000 <= 18_446_744_073_709_551_615 * 1_000_000_000) by (nonlinear_arith)
            requires
                0 <= s <= 18_446_744_073_709_551_615,
        ;
        assert(0 <= s * 1_000_000_000) by (nonlinear_arith)
            requires
                0 <= s,
        ;
        let d = s * 1_000_000_000 + self.nanos as i128;
        if self.before {
            -d
        } else {
            d
        }
    }

    /// The bounds of the number of nanoseconds.
    pub proof fn lemma_nanos_bounds(self)
        ensures
            -18_446_744_078_004_518_911_000_000_000 <= self.spec_nanos() <= 18_446_744_078_004_518_911_000_000_000,
    {
        let s = self.secs as int;
        assert(s * 1_000_000_000 <= 18_446_744_073_709_551_615 * 1_000_000_000) by (nonlinear_arith)
            requires
                0 <= s <= 18_446_744_073_709_551_615,
        ;
        assert(0 <= s * 1_000_000_000) by (nonlinear_arith)
            requires
                0 <= s,
        ;
    }
}

/// The largest of three numbers.
pub open spec fn max3(a: int, b: int, c: int) -> int {
    let m = if a < b { b } else { a };
    if m < c {
        c
    } else {
        m
    }
}

/// Wrapper around an action that records when it was applied, undone and redone.
#[derive(Clone, Debug)]
pub struct Entry<E> {
    edit: E,
    st_edit: Time,
    st_undo: Time,
    st_redo: Time,
}

impl<E> Entry<E> {
    /// The wrapped action.
    pub closed spec fn spec_edit(&self) -> E {
        self.edit
    }

    /// The time of the last apply.
    pub closed spec fn spec_st_edit(&self) -> Time {
        self.st_edit
    }

    /// The time of the last undo.
    pub closed spec fn spec_st_undo(&self) -> Time {
        self.st_undo
    }

    /// The time of the last redo.
    pub closed spec fn spec_st_redo(&self) -> Time {
        self.st_redo
    }

    /// The latest of the apply, undo and redo times, in nanoseconds from the
    /// start of UNIX time.
    pub open spec fn spec_latest_nanos(&self) -> int {
        max3(self.spec_st_edit().spec_nanos(), self.spec_st_undo().spec_nanos(), self.spec_st_redo().spec_nanos())
    }

    /// This entry with its action replaced by `edit`.
    pub closed spec fn with_edit(self, edit: E) -> Entry<E> {
        Entry { edit, ..self }
    }

    /// This entry with its apply time replaced by `t`.
    pub closed spec fn with_st_edit(self, t: Time) -> Entry<E> {
        Entry { st_edit: t, ..self }
    }

    /// Wraps `edit`; the three times start out at the start of UNIX time.
    pub fn new(edit: E) -> (entry: Entry<E>)
        ensures
            entry.spec_edit() == edit,
            entry.spec_st_edit() == Time::spec_epoch(),
            entry.spec_st_undo() == Time::spec_epoch(),
            entry.spec_st_redo() == Time::spec_epoch(),
    {
        let epoch = Time::epoch();
        Entry { edit, st_edit: epoch, st_undo: epoch, st_redo: epoch }
    }

    /// Returns an entry from its parts: the action and the times it was last
    /// applied, undone and redone.
    pub fn from_parts(edit: E, st_edit: Time, st_undo: Time, st_redo: Time) -> (entry: Entry<E>)
        ensures
            entry.spec_edit() == edit,
            entry.spec_st_edit() == st_edit,
            entry.spec_st_undo() == st_undo,
            entry.spec_st_redo() == st_redo,
    {
        Entry { edit, st_edit, st_undo, st_redo }
    }

    /// Takes the action out of the entry.
    pub fn into_edit(self) -> (edit: E)
        ensures
            edit == self.spec_edit(),
    {
        self.edit
    }

    /// Returns the action.
    pub fn get(&self) -> (edit: &E)
        ensures
            *edit == self.spec_edit(),
    {
        &self.edit
    }

    /// Returns the time the apply method was last called.
    pub fn st_of_edit(&self) -> (t: Time)
        ensures
            t == self.spec_st_edit(),
    {
        self.st_edit
    }

    /// Returns the last time the undo method was called.
    ///
    /// Returns `UNIX_EPOCH` if it has never been called.
    pub fn st_of_undo(&self) -> (t: Time)
        ensures
            t == self.spec_st_undo(),
    {
        self.st_undo
    }

    /// Returns the last time the redo method was called.
    ///
    /// Returns `UNIX_EPOCH` if it has never been called.
    pub fn st_of_redo(&self) -> (t: Time)
        ensures
            t == self.spec_st_redo(),
    {
        self.st_redo
    }

    /// Returns the largest of the apply, undo and redo times.
    pub fn st_of_latest(&self) -> (t: Time)
        ensures
            t == self.spec_st_edit() || t == self.spec_st_undo() || t == self.spec_st_redo(),
            t.spec_nanos() == max3(
                self.spec_st_edit().spec_nanos(),
                self.spec_st_undo().spec_nanos(),
                self.spec_st_redo().spec_nanos(),
            ),
    {
        let mut t = self.st_edit;
        if t.nanos_since_epoch() < self.st_undo.nanos_since_epoch() {
            t = self.st_undo;
        }
        if t.nanos_since_epoch() < self.st_redo.nanos_since_epoch() {
            t = self.st_redo;
        }
        t
    }
}

impl<E> Entry<E> {
    /// An entry with its own action put back is the same entry.
    pub proof fn with_own_edit(self)
        ensures
            self.with_edit(self.spec_edit()) == self,
    {
    }
}

impl<E: Action> Entry<E> {
    /// The entry and the result after merging `other` into `self`: the action
    /// is merged by [`Action::merge`]; on `Yes` the apply time of `other` is
    /// taken over, on `No` the returned action keeps the times of `other`.
    pub open spec fn merge_result(self, other: Self) -> (Entry<E>, Merged<Entry<E>>) {
        let (e, m) = E::merge_spec(self.spec_edit(), other.spec_edit());
        match m {
            Merged::Yes => (self.with_edit(e).with_st_edit(other.spec_st_edit()), Merged::Yes),
            Merged::No(o) => (self.with_edit(e), Merged::No(other.with_edit(o))),
            Merged::Annul => (self.with_edit(e), Merged::Annul),
        }
    }

    /// Applies the action and records the time.
    pub fn apply(&mut self, target: &mut E::Target) -> (out: E::Output)
        ensures
            E::applied(old(self).spec_edit(), *old(target), final(self).spec_edit(), *final(target), out),
            final(self).spec_st_undo() == old(self).spec_st_undo(),
            final(self).spec_st_redo() == old(self).spec_st_redo(),
    {
        self.st_edit = Time::now();
        self.edit.apply(target)
    }

    /// Undoes the action and records the time.
    pub fn undo(&mut self, target: &mut E::Target) -> (out: E::Output)
        ensures
            E::undone(old(self).spec_edit(), *old(target), final(self).spec_edit(), *final(target), out),
            final(self).spec_st_edit() == old(self).spec_st_edit(),
            final(self).spec_st_redo() == old(self).spec_st_redo(),
    {
        self.st_undo = Time::now();
        self.edit.undo(target)
    }

    /// Redoes the action and records the time.
    pub fn redo(&mut self, target: &mut E::Target) -> (out: E::Output)
        ensures
            E::redone(old(self).spec_edit(), *old(target), final(self).spec_edit(), *final(target), out),
            final(self).spec_st_edit() == old(self).spec_st_edit(),
            final(self).spec_st_undo() == old(self).spec_st_undo(),
    {
        self.st_redo = Time::now();
        self.edit.redo(target)
    }

    /// Merges `other` into this entry. When the actions merge, this entry
    /// takes the apply time of `other`; when they do not, `other` is handed
    /// back with the action that the merge returned.
    pub fn merge(&mut self, other: Self) -> (res: Merged<Self>)
        ensures
            (*final(self), res) == old(self).merge_result(other),
    {
        let Entry { edit, st_edit, st_undo, st_redo } = other;
        match self.edit.merge(edit) {
            Merged::Yes => {
                self.st_edit = st_edit;
                Merged::Yes
            },
            Merged::No(edit) => Merged::No(Entry { edit, st_edit, st_undo, st_redo }),
            Merged::Annul => Merged::Annul,
        }
    }
}

} // verus!
