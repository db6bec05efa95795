//! Notifications of the changes made to the structures.

use vstd::prelude::*;

verus! {

/// Describes an event on the structures.
#[derive(Copy, Clone, Debug, PartialEq, Eq)]
pub enum Event {
    /// Emitted when the structure's ability to undo has changed.
    Undo(bool),
    /// Emitted when the structure's ability to redo has changed.
    Redo(bool),
    /// Emitted when the saved state has changed.
    Saved(bool),
    /// Emitted when the index has changed.
    Index(usize),
    /// Emitted when the root branch of a history has changed.
    Root(usize),
}

/// Handles events.
pub trait Slot {
    /// Receives an event that describes the state change done to the structures.
    fn on_emit(&mut self, event: Event);
}

impl Slot for () {
    fn on_emit(&mut self, event: Event) {
    }
}

/// Calls `f` with `event` (`FnMut::call_mut`). The function is the user's,
/// so nothing is claimed of what it does.
#[verifier::external_body]
fn call_with_event<F: FnMut(Event)>(f: &mut F, event: Event) {
    f(event)
}

/// Sends `event` on the channel (`Sender::send`); the error that comes when
/// the receiver is gone is dropped. Nothing is claimed.
#[verifier::external_body]
fn send_event(sender: &std::sync::mpsc::Sender<Event>, event: Event) {
    sender.send(event).ok();
}

/// Sends `event` on the channel (`SyncSender::send`), waiting while it is
/// full; the error that comes when the receiver is gone is dropped. Nothing
/// is claimed.
#[verifier::external_body]
fn sync_send_event(sender: &std::sync::mpsc::SyncSender<Event>, event: Event) {
    sender.send(event).ok();
}

/// A function is a slot: it is called with each event.
impl<F: FnMut(Event)> Slot for F {
    fn on_emit(&mut self, event: Event) {
        call_with_event(self, event)
    }
}

/// The sending half of a channel of the standard library.
#[verifier::external_type_specification]
#[verifier::external_body]
#[verifier::reject_recursive_types(T)]
pub struct ExSender<T>(std::sync::mpsc::Sender<T>);

/// The sending half of a synchronous channel of the standard library.
#[verifier::external_type_specification]
#[verifier::external_body]
#[verifier::reject_recursive_types(T)]
pub struct ExSyncSender<T>(std::sync::mpsc::SyncSender<T>);

/// A channel is a slot: each event is sent on it.
impl Slot for std::sync::mpsc::Sender<Event> {
    fn on_emit(&mut self, event: Event) {
        send_event(self, event)
    }
}

/// A synchronous channel is a slot: each event is sent on it.
impl Slot for std::sync::mpsc::SyncSender<Event> {
    fn on_emit(&mut self, event: Event) {
        sync_send_event(self, event)
    }
}

/// A slot that ignores every event.
#[derive(Copy, Clone, Debug, Default, PartialEq, Eq)]
pub struct Nop;

impl Slot for Nop {
    fn on_emit(&mut self, event: Event) {
    }
}

/// Holds the slot of a structure and keeps the sequence of events that have
/// been handed to it.
#[derive(Clone)]
pub struct Socket<S> {
    slot: Option<S>,
    log: Ghost<Seq<Event>>,
}

impl<S> Socket<S> {
    /// The slot, if one is connected.
    pub closed spec fn slot(&self) -> Option<S> {
        self.slot
    }

    /// Every event handed to a slot of this socket, oldest first.
    pub closed spec fn log(&self) -> Seq<Event> {
        self.log@
    }

    /// `true` if a slot is connected.
    pub open spec fn is_connected(&self) -> bool {
        self.slot() is Some
    }

    /// The log after `events` are emitted: they reach the log only when a slot
    /// is connected.
    pub open spec fn log_after(&self, events: Seq<Event>) -> Seq<Event> {
        if self.is_connected() {
            self.log() + events
        } else {
            self.log()
        }
    }

    /// Returns a socket with `slot` connected.
    pub fn new(slot: S) -> (socket: Socket<S>)
        ensures
            socket.slot() == Some(slot),
            socket.log() == Seq::<Event>::empty(),
    {
        Socket { slot: Some(slot), log: Ghost(Seq::empty()) }
    }

    /// Returns a socket with no slot.
    pub fn empty() -> (socket: Socket<S>)
        ensures
            socket.slot() is None,
            socket.log() == Seq::<Event>::empty(),
    {
        Socket { slot: None, log: Ghost(Seq::empty()) }
    }

    /// Replaces the slot and returns the previous one.
    pub fn connect(&mut self, slot: Option<S>) -> (prev: Option<S>)
        ensures
            prev == old(self).slot(),
            final(self).slot() == slot,
            final(self).log() == old(self).log(),
    {
        let mut prev = slot;
        std::mem::swap(&mut self.slot, &mut prev);
        prev
    }

    /// Removes and returns the slot.
    pub fn disconnect(&mut self) -> (prev: Option<S>)
        ensures
            prev == old(self).slot(),
            final(self).slot() is None,
            final(self).log() == old(self).log(),
    {
        self.slot.take()
    }
}

impl<S: Slot> Socket<S> {
    /// Hands `event` to the slot, if one is connected.
    pub fn emit(&mut self, event: Event)
        ensures
            final(self).is_connected() == old(self).is_connected(),
            final(self).log() == old(self).log_after(seq![event]),
    {
        match &mut self.slot {
            Some(slot) => {
                slot.on_emit(event);
                proof {
                    self.log@ = self.log@.push(event);
                }
            },
            None => {},
        }
    }

    /// Hands `event` to the slot when `cond` holds.
    pub fn emit_if(&mut self, cond: bool, event: Event)
        ensures
            final(self).is_connected() == old(self).is_connected(),
            final(self).log() == old(self).log_after(if cond { seq![event] } else { Seq::empty() }),
    {
        if cond {
            self.emit(event);
        } else {
            assert(old(self).log_after(Seq::empty()) =~= old(self).log());
        }
    }
}

impl<S> Default for Socket<S> {
    fn default() -> (socket: Socket<S>)
        ensures
            socket.slot() is None,
            socket.log() == Seq::<Event>::empty(),
    {
        Socket::empty()
    }
}

} // verus!
