use std::cell::RefCell;
use std::fmt;
use std::rc::Rc;
use std::sync::mpsc;
use undo::record::Builder;
use undo::{Action, Add, Event, Merged, Record};

struct Txt(char);

impl Action for Txt {
    type Target = String;
    type Output = ();

    fn apply(&mut self, s: &mut String) {
        s.push(self.0);
    }

    fn undo(&mut self, s: &mut String) {
        s.pop();
    }

    fn redo(&mut self, s: &mut String) {
        s.push(self.0);
    }

    fn merge(&mut self, other: Self) -> Merged<Self> {
        Merged::No(other)
    }
}

impl fmt::Display for Txt {
    fn fmt(&self, f: &mut fmt::Formatter) -> fmt::Result {
        f.write_str(&format!("push {}", self.0))
    }
}

#[test]
fn record_apply_undo_redo() {
    let mut target = String::new();
    let mut record = Record::new();
    record.edit(&mut target, Add('a'));
    record.edit(&mut target, Add('b'));
    record.edit(&mut target, Add('c'));
    assert_eq!(target, "abc");
    record.undo(&mut target);
    record.undo(&mut target);
    record.undo(&mut target);
    assert_eq!(target, "");
    assert!(record.undo(&mut target).is_none());
    record.redo(&mut target);
    record.redo(&mut target);
    record.redo(&mut target);
    assert_eq!(target, "abc");
    assert!(record.redo(&mut target).is_none());
}

#[test]
fn record_edit_then_undo_restores_target() {
    let mut target = String::from("xy");
    let mut record = Record::new();
    record.edit(&mut target, Add('z'));
    let index = record.index();
    record.undo(&mut target).unwrap();
    assert_eq!(target, "xy");
    assert_eq!(record.index(), index - 1);
}

#[test]
fn record_edit_discards_redo() {
    let mut target = String::new();
    let mut record = Record::new();
    record.edit(&mut target, Add('a'));
    record.edit(&mut target, Add('b'));
    record.undo(&mut target).unwrap();
    assert!(record.can_redo());
    record.edit(&mut target, Add('c'));
    assert!(!record.can_redo());
    assert_eq!(record.index(), record.len());
    assert_eq!(record.len(), 2);
    assert_eq!(target, "ac");
}

#[test]
fn record_limit_keeps_newest() {
    let mut target = String::new();
    let mut record: Record<Add> = Builder::new().limit(2).build();
    record.edit(&mut target, Add('a'));
    record.edit(&mut target, Add('b'));
    record.edit(&mut target, Add('c'));
    assert_eq!(target, "abc");
    assert_eq!(record.len(), 2);
    assert_eq!(record.limit(), 2);
    let edits = record.edits();
    assert_eq!(&edits[..], &[&Add('b'), &Add('c')][..]);
    record.undo(&mut target).unwrap();
    record.undo(&mut target).unwrap();
    assert!(record.undo(&mut target).is_none());
    assert_eq!(target, "a");
}

#[test]
fn record_events_on_channel() {
    let (sender, receiver) = mpsc::channel();
    let mut iter = receiver.try_iter();
    let mut target = String::new();
    let mut record = Record::builder().connect(sender).build();
    record.edit(&mut target, Add('a'));
    assert_eq!(iter.next(), Some(Event::Undo(true)));
    assert_eq!(iter.next(), Some(Event::Saved(false)));
    assert_eq!(iter.next(), Some(Event::Index(1)));
    assert_eq!(iter.next(), None);
    record.undo(&mut target);
    assert_eq!(iter.next(), Some(Event::Undo(false)));
    assert_eq!(iter.next(), Some(Event::Redo(true)));
    assert_eq!(iter.next(), Some(Event::Saved(true)));
    assert_eq!(iter.next(), Some(Event::Index(0)));
    assert_eq!(iter.next(), None);
}

#[test]
fn record_events_on_closure() {
    let seen = Rc::new(RefCell::new(Vec::new()));
    let sink = seen.clone();
    let mut target = String::new();
    let mut record = Record::builder()
        .connect(move |e: Event| sink.borrow_mut().push(e))
        .build();
    record.edit(&mut target, Add('a'));
    record.set_saved(true);
    assert_eq!(
        *seen.borrow(),
        vec![Event::Undo(true), Event::Saved(false), Event::Index(1), Event::Saved(true)]
    );
}

#[test]
fn record_go_to_returns_one_output_per_step() {
    let mut target = String::new();
    let mut record = Record::new();
    for c in ['a', 'b', 'c', 'd'] {
        record.edit(&mut target, Add(c));
    }
    assert_eq!(record.go_to(&mut target, 1).len(), 3);
    assert_eq!(target, "a");
    assert_eq!(record.go_to(&mut target, 3).len(), 2);
    assert_eq!(target, "abc");
    assert_eq!(record.go_to(&mut target, 3).len(), 0);
    assert_eq!(target, "abc");
    assert_eq!(record.go_to(&mut target, 9).len(), 0);
    assert_eq!(record.index(), 3);
}

#[test]
fn record_saved_and_revert() {
    let mut target = String::new();
    let mut record = Record::new();
    assert!(record.is_saved());
    record.edit(&mut target, Add('a'));
    assert!(!record.is_saved());
    record.set_saved(true);
    assert!(record.is_saved());
    record.edit(&mut target, Add('b'));
    record.edit(&mut target, Add('c'));
    assert_eq!(record.revert(&mut target).len(), 2);
    assert_eq!(target, "a");
    assert!(record.is_saved());
    record.set_saved(false);
    assert!(!record.is_saved());
    assert!(record.revert(&mut target).is_empty());
    assert_eq!(target, "a");
}

#[test]
fn record_clear_keeps_saved_state() {
    let mut target = String::new();
    let mut record = Record::new();
    record.edit(&mut target, Add('a'));
    record.set_saved(true);
    record.clear();
    assert!(record.is_empty());
    assert_eq!(record.index(), 0);
    assert!(record.is_saved());
    assert_eq!(target, "a");
}

#[test]
fn record_queue_commit_in_order() {
    let mut target = String::new();
    let mut record = Record::new();
    let mut queue = record.queue();
    queue.edit(Add('a'));
    queue.edit(Add('b'));
    queue.undo();
    queue.edit(Add('c'));
    queue.redo();
    assert_eq!(target, "");
    let outs = queue.commit(&mut target);
    assert_eq!(outs.len(), 4);
    assert_eq!(target, "ac");
    assert_eq!(record.len(), 2);
}

#[test]
fn record_queue_cancel_changes_nothing() {
    let mut target = String::new();
    let mut record: Record<Add> = Record::new();
    let mut queue = record.queue();
    queue.edit(Add('a'));
    queue.cancel();
    assert!(record.is_empty());
    assert_eq!(target, "");
}

#[test]
fn record_checkpoint_cancel_restores_record() {
    let mut target = String::new();
    let mut record = Record::new();
    record.edit(&mut target, Add('a'));
    record.edit(&mut target, Add('b'));
    record.undo(&mut target).unwrap();
    let mut cp = record.checkpoint();
    cp.edit(&mut target, Add('x'));
    assert_eq!(target, "ax");
    let outs = cp.cancel(&mut target);
    assert_eq!(outs.len(), 1);
    assert_eq!(target, "a");
    assert_eq!(record.len(), 2);
    assert_eq!(record.index(), 1);
    record.redo(&mut target).unwrap();
    assert_eq!(target, "ab");
}

#[test]
fn record_checkpoint_cancel_undo_redo() {
    let mut target = String::new();
    let mut record = Record::new();
    record.edit(&mut target, Add('a'));
    record.edit(&mut target, Add('b'));
    let mut cp = record.checkpoint();
    cp.undo(&mut target).unwrap();
    cp.undo(&mut target).unwrap();
    assert!(cp.undo(&mut target).is_none());
    cp.redo(&mut target).unwrap();
    assert_eq!(target, "a");
    cp.cancel(&mut target);
    assert_eq!(target, "ab");
    assert_eq!(record.index(), 2);
}

#[test]
fn record_checkpoint_commit_keeps_changes() {
    let mut target = String::new();
    let mut record = Record::new();
    let mut cp = record.checkpoint();
    cp.edit(&mut target, Add('a'));
    cp.edit(&mut target, Add('b'));
    cp.commit();
    assert_eq!(target, "ab");
    assert_eq!(record.len(), 2);
}

#[test]
fn record_strings() {
    let mut target = String::new();
    let mut record = Record::new();
    assert_eq!(record.undo_string(), None);
    record.edit(&mut target, Txt('a'));
    record.edit(&mut target, Txt('b'));
    assert_eq!(record.undo_string(), Some(String::from("push b")));
    assert_eq!(record.redo_string(), None);
    record.undo(&mut target);
    assert_eq!(record.redo_string(), Some(String::from("push b")));
    assert_eq!(record.undo_string(), Some(String::from("push a")));
}

#[test]
fn record_display_plain() {
    let mut target = String::new();
    let mut record = Record::new();
    record.edit(&mut target, Txt('a'));
    record.edit(&mut target, Txt('b'));
    record.undo(&mut target);
    let mut display = record.display();
    let text = display.colored(false).detailed(false).to_string();
    assert_eq!(text, "2 push b\n1 [HEAD] push a\n0 [SAVED]");
    let text = display.head(false).saved(false).to_string();
    assert_eq!(text, "2 push b\n1 push a\n0");
}

#[test]
fn record_display_detailed_render() {
    let mut target = String::new();
    let mut record = Record::new();
    record.edit(&mut target, Txt('a'));
    let mut display = record.display();
    display.colored(false);
    let texts = vec![String::from("first line\n  second line  ")];
    let elapsed = vec![String::from("1.0s")];
    let text = display.render(&texts, &elapsed);
    assert_eq!(text, "1 1.0s [HEAD]\nfirst line\nsecond line\n0 [SAVED]");
    display.detailed(false);
    let text = display.render(&texts, &elapsed);
    assert_eq!(text, "1 [HEAD] first line\n0 [SAVED]");
}

struct Typing(String);

impl Action for Typing {
    type Target = String;
    type Output = ();

    fn apply(&mut self, s: &mut String) {
        s.push_str(&self.0);
    }

    fn undo(&mut self, s: &mut String) {
        let n = s.len() - self.0.len();
        s.truncate(n);
    }

    fn redo(&mut self, s: &mut String) {
        s.push_str(&self.0);
    }

    fn merge(&mut self, other: Self) -> Merged<Self> {
        self.0.push_str(&other.0);
        Merged::Yes
    }
}

#[test]
fn record_merged_edits_undo_together() {
    let mut target = String::new();
    let mut record = Record::new();
    record.edit(&mut target, Typing(String::from("ab")));
    record.edit(&mut target, Typing(String::from("cd")));
    assert_eq!(target, "abcd");
    assert_eq!(record.len(), 1);
    record.undo(&mut target).unwrap();
    assert_eq!(target, "");
    record.redo(&mut target).unwrap();
    assert_eq!(target, "abcd");
}

#[test]
fn record_saved_state_blocks_merge() {
    let mut target = String::new();
    let mut record = Record::new();
    record.edit(&mut target, Typing(String::from("ab")));
    record.set_saved(true);
    record.edit(&mut target, Typing(String::from("cd")));
    assert_eq!(record.len(), 2);
    record.undo(&mut target).unwrap();
    assert_eq!(target, "ab");
    assert!(record.is_saved());
}
