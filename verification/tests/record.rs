use undo::{Action, Add, Merged, Record};

enum Op {
    Add(Add),
    Del(Del),
}

impl Action for Op {
    type Target = String;
    type Output = ();

    fn apply(&mut self, s: &mut String) {
        match self {
            Op::Add(add) => add.apply(s),
            Op::Del(del) => del.apply(s),
        }
    }

    fn undo(&mut self, s: &mut String) {
        match self {
            Op::Add(add) => add.undo(s),
            Op::Del(del) => del.undo(s),
        }
    }

    fn redo(&mut self, s: &mut String) {
        self.apply(s)
    }

    fn merge(&mut self, edit: Self) -> Merged<Self> {
        match (self, edit) {
            (Op::Add(_), Op::Del(_)) => Merged::Annul,
            (Op::Del(Del(Some(a))), Op::Add(Add(b))) if *a == b => Merged::Annul,
            (_, edit) => Merged::No(edit),
        }
    }
}

#[derive(Default)]
struct Del(Option<char>);

impl Action for Del {
    type Target = String;
    type Output = ();

    fn apply(&mut self, s: &mut String) {
        self.0 = s.pop();
    }

    fn undo(&mut self, s: &mut String) {
        let ch = self.0.unwrap();
        s.push(ch);
    }

    fn redo(&mut self, s: &mut String) {
        self.apply(s)
    }

    fn merge(&mut self, edit: Self) -> Merged<Self> {
        Merged::No(edit)
    }
}

#[test]
fn record_go_to() {
    let mut target = String::new();
    let mut record = Record::new();
    record.edit(&mut target, Add('a'));
    record.edit(&mut target, Add('b'));
    record.edit(&mut target, Add('c'));
    record.edit(&mut target, Add('d'));
    record.edit(&mut target, Add('e'));

    record.go_to(&mut target, 0);
    assert_eq!(record.index(), 0);
    assert_eq!(target, "");
    record.go_to(&mut target, 5);
    assert_eq!(record.index(), 5);
    assert_eq!(target, "abcde");
    record.go_to(&mut target, 1);
    assert_eq!(record.index(), 1);
    assert_eq!(target, "a");
    record.go_to(&mut target, 4);
    assert_eq!(record.index(), 4);
    assert_eq!(target, "abcd");
    record.go_to(&mut target, 2);
    assert_eq!(record.index(), 2);
    assert_eq!(target, "ab");
    record.go_to(&mut target, 3);
    assert_eq!(record.index(), 3);
    assert_eq!(target, "abc");
    assert!(record.go_to(&mut target, 6).is_empty());
    assert_eq!(record.index(), 3);
}

#[test]
fn record_annul() {
    let mut target = String::new();
    let mut record = Record::new();
    record.edit(&mut target, Op::Add(Add('a')));
    record.edit(&mut target, Op::Del(Del::default()));
    record.edit(&mut target, Op::Add(Add('b')));
    assert_eq!(record.len(), 1);
}

#[test]
fn record_edits() {
    let mut target = String::new();
    let mut record = Record::new();
    record.edit(&mut target, Add('a'));
    record.edit(&mut target, Add('b'));
    let collected = record.edits();
    assert_eq!(&collected[..], &[&Add('a'), &Add('b')][..]);
}

#[test]
fn record_checkpoint_saved() {
    let mut target = String::new();
    let mut record = Record::new();
    record.edit(&mut target, Add('a'));
    record.edit(&mut target, Add('b'));
    record.edit(&mut target, Add('c'));
    record.set_saved(true);
    record.undo(&mut target).unwrap();
    record.undo(&mut target).unwrap();
    record.undo(&mut target).unwrap();
    let mut cp = record.checkpoint();
    cp.edit(&mut target, Add('d'));
    cp.edit(&mut target, Add('e'));
    cp.edit(&mut target, Add('f'));
    assert_eq!(target, "def");
    cp.cancel(&mut target);
    assert_eq!(target, "");
    record.redo(&mut target).unwrap();
    record.redo(&mut target).unwrap();
    record.redo(&mut target).unwrap();
    assert!(record.is_saved());
    assert_eq!(target, "abc");
}
