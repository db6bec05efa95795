use std::fmt;
use undo::{Action, Add, At, History, Merged};

const A: Add = Add('a');
const B: Add = Add('b');
const C: Add = Add('c');
const D: Add = Add('d');
const E: Add = Add('e');
const F: Add = Add('f');
const G: Add = Add('g');
const H: Add = Add('h');
const I: Add = Add('i');
const J: Add = Add('j');
const K: Add = Add('k');
const L: Add = Add('l');
const M: Add = Add('m');
const N: Add = Add('n');
const O: Add = Add('o');
const P: Add = Add('p');
const Q: Add = Add('q');

#[test]
fn history_go_to() {
    //          m
    //          |
    //    j  k  l
    //     \ | /
    //       i
    //       |
    // e  g  h
    // |  | /
    // d  f  p - q *
    // | /  /
    // c  n - o
    // | /
    // b
    // |
    // a
    let mut target = String::new();
    let mut history = History::new();
    history.edit(&mut target, A);
    history.edit(&mut target, B);
    history.edit(&mut target, C);
    history.edit(&mut target, D);
    history.edit(&mut target, E);
    assert_eq!(target, "abcde");
    history.undo(&mut target).unwrap();
    history.undo(&mut target).unwrap();
    assert_eq!(target, "abc");
    let abc = history.head();

    history.edit(&mut target, F);
    history.edit(&mut target, G);
    assert_eq!(target, "abcfg");
    let abcfg = history.head();

    history.undo(&mut target).unwrap();
    history.edit(&mut target, H);
    history.edit(&mut target, I);
    history.edit(&mut target, J);
    assert_eq!(target, "abcfhij");
    let abcfhij = history.head();

    history.undo(&mut target).unwrap();
    history.edit(&mut target, K);
    assert_eq!(target, "abcfhik");
    let abcfhik = history.head();

    history.undo(&mut target).unwrap();
    history.edit(&mut target, L);
    assert_eq!(target, "abcfhil");
    history.edit(&mut target, M);
    assert_eq!(target, "abcfhilm");
    let abcfhilm = history.head();
    history.go_to(&mut target, At::new(abc.root, 2));
    history.edit(&mut target, N);
    history.edit(&mut target, O);
    assert_eq!(target, "abno");
    let abno = history.head();

    history.undo(&mut target).unwrap();
    history.edit(&mut target, P);
    history.edit(&mut target, Q);
    assert_eq!(target, "abnpq");

    let abnpq = history.head();
    history.go_to(&mut target, abc);
    assert_eq!(target, "abc");
    history.go_to(&mut target, abcfg);
    assert_eq!(target, "abcfg");
    history.go_to(&mut target, abcfhij);
    assert_eq!(target, "abcfhij");
    history.go_to(&mut target, abcfhik);
    assert_eq!(target, "abcfhik");
    history.go_to(&mut target, abcfhilm);
    assert_eq!(target, "abcfhilm");
    history.go_to(&mut target, abno);
    assert_eq!(target, "abno");
    history.go_to(&mut target, abnpq);
    assert_eq!(target, "abnpq");
}

struct Txt(char);

impl Action for Txt {
    type Target = String;
    type Output = ();

    fn apply(&mut self, s: &mut String) {
        s.push(self.0);
    }

    fn undo(&mut self, s: &mut String) {
        s.pop();
    }

    fn redo(&mut self, s: &mut String) {
        s.push(self.0);
    }

    fn merge(&mut self, other: Self) -> Merged<Self> {
        Merged::No(other)
    }
}

impl fmt::Display for Txt {
    fn fmt(&self, f: &mut fmt::Formatter) -> fmt::Result {
        f.write_str(&format!("push {}", self.0))
    }
}

#[test]
fn history_edit_in_middle_keeps_branch() {
    let mut target = String::new();
    let mut history = History::new();
    history.edit(&mut target, A);
    history.edit(&mut target, B);
    let old_root = history.head().root;
    history.undo(&mut target).unwrap();
    history.edit(&mut target, C);
    assert_eq!(target, "ac");
    assert_ne!(history.head().root, old_root);
    assert_eq!(history.branches().len(), 2);
    let kept = history.get_branch(old_root).unwrap();
    assert_eq!(kept.len(), 1);
    assert_eq!(kept.parent(), At::new(history.head().root, 1));
    history.go_to(&mut target, At::new(old_root, 2));
    assert_eq!(target, "ab");
    assert_eq!(history.head(), At::new(old_root, 2));
}

#[test]
fn history_undo_redo_keep_tree() {
    let mut target = String::new();
    let mut history = History::new();
    history.edit(&mut target, A);
    history.edit(&mut target, B);
    let root = history.head().root;
    history.undo(&mut target).unwrap();
    history.undo(&mut target).unwrap();
    assert!(history.undo(&mut target).is_none());
    assert_eq!(target, "");
    history.redo(&mut target).unwrap();
    assert_eq!(target, "a");
    assert_eq!(history.head(), At::new(root, 1));
    assert_eq!(history.branches().len(), 1);
}

#[test]
fn history_saved() {
    let mut target = String::new();
    let mut history = History::new();
    assert!(history.is_saved());
    history.edit(&mut target, A);
    assert!(!history.is_saved());
    history.set_saved();
    assert!(history.is_saved());
    assert_eq!(history.saved(), Some(history.head()));
    history.clear_saved();
    assert!(!history.is_saved());
    assert_eq!(history.saved(), None);
}

#[test]
fn history_queue_commit() {
    let mut target = String::new();
    let mut history = History::new();
    let mut queue = history.queue();
    queue.edit(A);
    queue.edit(B);
    queue.undo();
    queue.edit(C);
    assert_eq!(target, "");
    let outs = queue.commit(&mut target);
    assert_eq!(outs.len(), 4);
    assert_eq!(target, "ac");
    assert_eq!(history.branches().len(), 2);
}

#[test]
fn history_display_plain() {
    let mut target = String::new();
    let mut history = History::new();
    history.edit(&mut target, Txt('a'));
    history.edit(&mut target, Txt('b'));
    history.undo(&mut target).unwrap();
    history.edit(&mut target, Txt('c'));
    let root = history.head().root;
    let old = 1 - root;
    let mut display = history.display();
    let text = display.colored(false).detailed(false).to_string();
    let expected = format!(
        "* {root}:2 [HEAD] push c\n| * {old}:2 push b\n|/\n* {root}:1 push a\n* {root}:0 [SAVED]"
    );
    assert_eq!(text, expected);
}

#[test]
fn checkpoint() {
    let mut target = String::new();
    let mut history = History::new();
    let mut checkpoint = history.checkpoint();

    checkpoint.edit(&mut target, A);
    checkpoint.edit(&mut target, B);
    checkpoint.edit(&mut target, C);
    assert_eq!(target, "abc");

    checkpoint.undo(&mut target);
    checkpoint.undo(&mut target);
    assert_eq!(target, "a");

    checkpoint.edit(&mut target, D);
    checkpoint.edit(&mut target, E);
    assert_eq!(target, "ade");

    checkpoint.cancel(&mut target);
    assert_eq!(target, "");
}

#[test]
fn history_checkpoint_cancel_restores_branch() {
    let mut target = String::new();
    let mut history = History::new();
    history.edit(&mut target, A);
    history.edit(&mut target, B);
    history.undo(&mut target).unwrap();
    let root = history.head().root;
    let mut checkpoint = history.checkpoint();
    checkpoint.edit(&mut target, C);
    assert_eq!(target, "ac");
    checkpoint.cancel(&mut target);
    assert_eq!(target, "a");
    assert_eq!(history.head(), At::new(root, 1));
    assert_eq!(history.len(), 2);
    assert_eq!(history.branches().len(), 1);
    history.redo(&mut target).unwrap();
    assert_eq!(target, "ab");
}

#[test]
fn history_display_without_positions() {
    let mut target = String::new();
    let mut history = History::new();
    history.edit(&mut target, Txt('a'));
    let mut display = history.display();
    let text = display
        .colored(false)
        .detailed(false)
        .position(false)
        .current(false)
        .to_string();
    assert_eq!(text, "*  push a\n*  [SAVED]");
}

/// Follows the parents of `id` up to the current branch; the number of steps
/// is bounded by the number of branches.
fn reaches_root<E, S>(history: &History<E, S>, id: usize) -> bool {
    let root = history.head().root;
    let mut cur = id;
    for _ in 0..history.branches().len() {
        if cur == root {
            return true;
        }
        match history.get_branch(cur) {
            Some(b) => cur = b.parent().root,
            None => return false,
        }
    }
    cur == root
}

#[test]
fn history_edits_keep_every_branch_hanging_from_the_current_one() {
    let mut target = String::new();
    let mut history = History::new();
    history.edit(&mut target, A);
    history.edit(&mut target, B);
    history.edit(&mut target, C);
    history.undo(&mut target).unwrap();
    history.edit(&mut target, D);
    history.undo(&mut target).unwrap();
    history.undo(&mut target).unwrap();
    history.edit(&mut target, E);
    history.edit(&mut target, F);
    history.undo(&mut target).unwrap();
    history.redo(&mut target).unwrap();
    assert_eq!(target, "aef");
    assert_eq!(history.branches().len(), 3);
    for (id, _) in history.branches() {
        assert!(reaches_root(&history, id));
    }
}
