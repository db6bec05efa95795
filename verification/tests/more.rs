use undo::history::Builder as HistoryBuilder;
use undo::entry::Time;
use undo::format::default_st_fmt;
use undo::{Add, At, Entry, Event, History, Nop, Record};

#[test]
fn record_capacity_and_shrink_keep_entries() {
    let mut target = String::new();
    let mut record: Record<Add> = Record::builder().capacity(8).build();
    assert!(record.capacity() >= 8);
    record.edit(&mut target, Add('a'));
    record.reserve(16);
    assert!(record.capacity() >= 17);
    record.shrink_to_fit();
    assert_eq!(record.len(), 1);
    assert_eq!(record.edits(), vec![&Add('a')]);
}

#[test]
fn record_entries_and_get_entry() {
    let mut target = String::new();
    let mut record = Record::new();
    record.edit(&mut target, Add('x'));
    record.edit(&mut target, Add('y'));
    let entries = record.entries();
    assert_eq!(entries.len(), 2);
    assert_eq!(entries[1].get(), &Add('y'));
    assert_eq!(record.get_entry(0).map(|e| *e.get()), Some(Add('x')));
    assert!(record.get_entry(2).is_none());
    assert!(record.can_undo());
    assert!(!record.can_redo());
}

#[test]
fn record_connect_and_disconnect() {
    let mut record: Record<Add, Nop> = Record::builder().build();
    assert_eq!(record.connect(Nop), None);
    assert_eq!(record.connect(Nop), Some(Nop));
    assert_eq!(record.disconnect(), Some(Nop));
    assert_eq!(record.disconnect(), None);
}

#[test]
fn record_builder_not_saved() {
    let record: Record<Add> = Record::builder().saved(false).limit(3).build();
    assert!(!record.is_saved());
    assert_eq!(record.limit(), 3);
    assert!(record.is_empty());
}

#[test]
fn entry_times() {
    let entry = Entry::new(Add('t'));
    assert_eq!(entry.st_of_edit(), entry.st_of_undo());
    assert_eq!(entry.st_of_undo(), entry.st_of_redo());
    assert_eq!(entry.st_of_latest(), entry.st_of_edit());
    assert_eq!(entry.st_of_latest(), Time::epoch());
    assert_eq!(entry.st_of_latest().nanos_since_epoch(), 0);
}

#[test]
fn entry_latest_is_the_largest_time() {
    let mut target = String::new();
    let mut entry = Entry::new(Add('t'));
    entry.apply(&mut target);
    entry.undo(&mut target);
    let latest = entry.st_of_latest().nanos_since_epoch();
    let largest = entry
        .st_of_edit()
        .nanos_since_epoch()
        .max(entry.st_of_undo().nanos_since_epoch())
        .max(entry.st_of_redo().nanos_since_epoch());
    assert_eq!(latest, largest);
    assert!(latest > 0);
}

#[test]
fn time_order_and_elapsed_text() {
    let before = Time::new(true, 2, 0);
    let after = Time::new(false, 1, 500_000_000);
    assert_eq!(before.nanos_since_epoch(), -2_000_000_000);
    assert_eq!(after.nanos_since_epoch(), 1_500_000_000);
    assert_eq!(default_st_fmt(after, Time::epoch()), "1.5s");
    assert_eq!(default_st_fmt(Time::epoch(), after), "1.5s");
    assert_eq!(default_st_fmt(after, before), "3.5s");
    assert_eq!(default_st_fmt(Time::new(false, 5, 0), Time::new(false, 5, 0)), "0.0ns");
}

#[test]
fn record_empty_queue_and_checkpoint_change_nothing() {
    let mut target = String::from("k");
    let mut record: Record<Add> = Record::new();
    let queue = record.queue();
    assert!(queue.commit(&mut target).is_empty());
    let checkpoint = record.checkpoint();
    assert!(checkpoint.cancel(&mut target).is_empty());
    assert!(record.is_empty());
    assert_eq!(target, "k");
}

#[test]
fn history_builder_and_accessors() {
    let mut target = String::new();
    let mut history: History<Add> = HistoryBuilder::new().limit(5).capacity(4).build();
    assert_eq!(history.limit(), 5);
    assert!(history.capacity() >= 4);
    assert!(history.is_empty());
    history.edit(&mut target, Add('a'));
    history.edit(&mut target, Add('b'));
    assert_eq!(history.len(), 2);
    assert!(history.can_undo());
    assert!(!history.can_redo());
    assert_eq!(history.get_entry(1).map(|e| *e.get()), Some(Add('b')));
    assert_eq!(history.entries().len(), 2);
    history.reserve(10);
    history.shrink_to_fit();
    assert_eq!(history.len(), 2);
}

#[test]
fn history_branch_heads() {
    let mut target = String::new();
    let mut history = History::new();
    history.edit(&mut target, Add('a'));
    history.edit(&mut target, Add('b'));
    history.undo(&mut target).unwrap();
    history.edit(&mut target, Add('c'));
    let root = history.head().root;
    let other = history.get_branch(1 - root).unwrap();
    assert_eq!(other.parent(), At::new(root, 1));
    assert!(!other.is_empty());
    assert_eq!(other.get_entry(0).map(|e| *e.get()), Some(Add('b')));
    assert_eq!(other.entries().len(), 1);
    if root == 1 {
        assert_eq!(history.prev_branch_head(), Some(At::new(0, 2)));
        assert_eq!(history.next_branch_head(), None);
    } else {
        assert_eq!(history.next_branch_head(), Some(At::new(1, 2)));
        assert_eq!(history.prev_branch_head(), None);
    }
}

#[test]
fn history_clear_and_strings() {
    let mut target = String::new();
    let mut history = History::new();
    history.edit(&mut target, Add('a'));
    history.undo(&mut target).unwrap();
    history.edit(&mut target, Add('b'));
    assert_eq!(history.branches().len(), 2);
    history.clear();
    assert!(history.is_empty());
    assert_eq!(history.branches().len(), 1);
    assert_eq!(history.head(), At::new(0, 0));
    assert_eq!(target, "b");
}

#[test]
fn history_revert_to_saved_in_other_branch() {
    let mut target = String::new();
    let mut history = History::new();
    history.edit(&mut target, Add('a'));
    history.edit(&mut target, Add('b'));
    history.set_saved();
    let saved = history.head();
    history.undo(&mut target).unwrap();
    history.edit(&mut target, Add('c'));
    assert_eq!(target, "ac");
    assert_eq!(history.saved(), Some(saved));
    history.revert(&mut target);
    assert_eq!(target, "ab");
    assert!(history.is_saved());
}

#[test]
fn history_record_round_trip() {
    let mut target = String::new();
    let mut record = Record::new();
    record.edit(&mut target, Add('a'));
    let history = History::from_record(record);
    assert_eq!(history.head(), At::new(0, 1));
    let record = history.into_record();
    assert_eq!(record.len(), 1);
}

#[test]
fn history_events() {
    let (sender, receiver) = std::sync::mpsc::channel();
    let mut target = String::new();
    let mut history = History::builder().connect(sender).build();
    history.edit(&mut target, Add('a'));
    history.edit(&mut target, Add('b'));
    history.undo(&mut target).unwrap();
    let _: Vec<Event> = receiver.try_iter().collect();
    history.edit(&mut target, Add('c'));
    let events: Vec<Event> = receiver.try_iter().collect();
    assert_eq!(events.last(), Some(&Event::Root(history.head().root)));
}

#[test]
fn entry_from_parts_keeps_the_times() {
    let t1 = Time::new(false, 1, 0);
    let t2 = Time::new(false, 2, 0);
    let t3 = Time::new(true, 3, 0);
    let entry = Entry::from_parts(Add('x'), t1, t2, t3);
    assert_eq!(entry.st_of_edit(), t1);
    assert_eq!(entry.st_of_undo(), t2);
    assert_eq!(entry.st_of_redo(), t3);
    assert_eq!(entry.st_of_latest(), t2);
    assert_eq!(entry.into_edit(), Add('x'));
}

#[test]
fn record_parts_round_trip() {
    let mut target = String::new();
    let mut record: Record<Add> = Record::new();
    record.edit(&mut target, Add('a'));
    record.edit(&mut target, Add('b'));
    record.undo(&mut target);
    let (entries, index, limit, saved) = record.into_parts();
    assert_eq!(entries.len(), 2);
    assert_eq!((index, limit, saved), (1, usize::MAX, Some(0)));
    let back: Record<Add> = Record::from_entries(entries, index, limit, saved).unwrap();
    assert_eq!(back.len(), 2);
    assert_eq!(back.index(), 1);
    let none: Option<Record<Add>> = Record::from_entries(Vec::new(), 1, 3, None);
    assert!(none.is_none());
    let none: Option<Record<Add>> = Record::from_entries(Vec::new(), 0, 0, None);
    assert!(none.is_none());
}
