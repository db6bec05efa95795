use undo::format::{color_of_level, Color, Format};
use undo::{Action, Add, Any, At, Entry, FromFn, Join, Push, Record, TryFromFn};

#[test]
fn join_apply_undo_redo() {
    let mut target = String::new();
    let mut record = Record::new();
    let abc = Join::new(Add('a'), Add('b')).join(Add('c'));
    record.edit(&mut target, abc);
    assert_eq!(target, "abc");
    record.undo(&mut target);
    assert_eq!(target, "");
    record.redo(&mut target);
    assert_eq!(target, "abc");
}

#[test]
fn from_fn_apply_undo_redo() {
    let mut target = String::new();
    let mut record = Record::new();
    let a: fn(&mut String) = |s| s.push('a');
    let b: fn(&mut String) = |s| s.push('b');
    record.edit(&mut target, FromFn::new(a));
    record.edit(&mut target, FromFn::new(b));
    assert_eq!(target, "ab");
    record.undo(&mut target);
    record.undo(&mut target);
    assert_eq!(target, "");
    record.redo(&mut target);
    record.redo(&mut target);
    assert_eq!(target, "ab");
}

#[test]
fn from_fn_with_state() {
    let mut target = 1u32;
    let mut record = Record::new();
    let mut calls = 0;
    record.edit(&mut target, FromFn::new(move |t: &mut u32| {
        calls += 1;
        *t = *t * 10 + calls;
    }));
    assert_eq!(target, 11);
    record.undo(&mut target);
    assert_eq!(target, 1);
    record.redo(&mut target);
    assert_eq!(target, 11);
}

#[test]
fn try_from_fn_outputs() {
    let mut target = String::new();
    let mut record = Record::new();
    let ok: fn(&mut String) -> Result<(), &'static str> = |s| {
        s.push('x');
        Ok(())
    };
    let fail: fn(&mut String) -> Result<(), &'static str> = |_| Err("refused");
    assert_eq!(record.edit(&mut target, TryFromFn::new(ok)), Ok(()));
    assert_eq!(record.edit(&mut target, TryFromFn::new(fail)), Err("refused"));
    assert_eq!(target, "x");
    assert_eq!(record.undo(&mut target), Some(Ok(())));
    assert_eq!(record.undo(&mut target), Some(Ok(())));
    assert_eq!(target, "");
}

#[test]
fn push_apply_undo() {
    let mut target = String::new();
    let mut record = Record::new();
    record.edit(&mut target, Push('a'));
    record.edit(&mut target, Push('b'));
    assert_eq!(target, "ab");
    record.undo(&mut target);
    assert_eq!(target, "a");
}

#[test]
fn add_text_and_entry() {
    assert_eq!(Add('q').text(), "Add 'q'");
    let entry = Entry::new(Add('z'));
    assert_eq!(entry.get(), &Add('z'));
}

#[test]
fn format_message() {
    let f = Format { colored: false, detailed: true, head: true, saved: true };
    let mut s = String::new();
    f.message(&mut s, "a\n  b  ", Some(1));
    assert_eq!(s, "| | a\n| | b\n");
    let mut s = String::new();
    f.message(&mut s, "one\ntwo", None);
    assert_eq!(s, "one\ntwo\n");
    let g = Format { detailed: false, ..f };
    let mut s = String::new();
    g.message(&mut s, "  \n  x y \n z", None);
    assert_eq!(s, "x y");
    let mut s = String::new();
    g.message(&mut s, "   ", None);
    assert_eq!(s, "");
}

#[test]
fn format_parts() {
    let f = Format { colored: false, detailed: true, head: true, saved: true };
    let mut s = String::new();
    f.mark(&mut s, 3);
    f.position(&mut s, At::new(3, 12), true);
    s.push(' ');
    f.position(&mut s, At::new(3, 12), false);
    f.edge(&mut s, 0);
    f.split(&mut s, 0);
    f.indent(&mut s, 2);
    f.elapsed(&mut s, "1.5s");
    f.text(&mut s, "!", 4);
    assert_eq!(s, "* 3:12 12||/| |  1.5s!");
}

#[test]
fn format_labels() {
    let f = Format { colored: false, detailed: true, head: true, saved: true };
    let here = At::new(0, 1);
    let there = At::new(0, 2);
    let mut s = String::new();
    f.labels(&mut s, here, here, Some(here));
    assert_eq!(s, " [HEAD, SAVED]");
    let mut s = String::new();
    f.labels(&mut s, here, here, Some(there));
    assert_eq!(s, " [HEAD]");
    let mut s = String::new();
    f.labels(&mut s, here, there, Some(here));
    assert_eq!(s, " [SAVED]");
    let mut s = String::new();
    f.labels(&mut s, here, there, None);
    assert_eq!(s, "");
    let g = Format { head: false, saved: false, ..f };
    let mut s = String::new();
    g.labels(&mut s, here, here, Some(here));
    assert_eq!(s, "");
}

#[test]
fn format_colors() {
    assert_eq!(color_of_level(0), Color::Cyan);
    assert_eq!(color_of_level(1), Color::Red);
    assert_eq!(color_of_level(5), Color::Blue);
    assert_eq!(color_of_level(7), Color::Red);
    let f = Format::new();
    assert!(f.colored && f.detailed && f.head && f.saved);
}

/// Removes the terminal escape codes from `s`.
fn strip_escapes(s: &str) -> String {
    let mut out = String::new();
    let mut chars = s.chars();
    while let Some(c) = chars.next() {
        if c == '\x1B' {
            for d in chars.by_ref() {
                if d == 'm' {
                    break;
                }
            }
        } else {
            out.push(c);
        }
    }
    out
}

#[test]
fn format_colored_labels_pieces() {
    let f = Format::new();
    let mut out = String::new();
    f.labels(&mut out, At::new(0, 1), At::new(0, 1), None);
    assert!(out == " [HEAD]" || out.contains("\x1B[1;36mHEAD\x1B[0m"));
    assert_eq!(strip_escapes(&out), " [HEAD]");
    let mut out = String::new();
    f.labels(&mut out, At::new(0, 1), At::new(0, 2), Some(At::new(0, 1)));
    assert_eq!(strip_escapes(&out), " [SAVED]");
    let mut out = String::new();
    f.split(&mut out, 5);
    assert!(out == "|/" || out == "\x1B[34m|\x1B[0m\x1B[36m/\x1B[0m");
    let mut out = String::new();
    f.mark(&mut out, 1);
    assert!(out == "* " || out == "\x1B[31m*\x1B[0m ");
    let mut out = String::new();
    f.edge(&mut out, 2);
    assert!(out == "|" || out == "\x1B[35m|\x1B[0m");
}

#[test]
fn colored_record_display_is_plain_text_in_color() {
    let mut target = String::new();
    let mut record = Record::new();
    record.edit(&mut target, Add('a'));
    let mut display = record.display();
    display.detailed(false);
    let colored = display.render(&vec![String::from("add a")], &vec![String::from("1.0s")]);
    display.colored(false);
    let plain = display.render(&vec![String::from("add a")], &vec![String::from("1.0s")]);
    assert_eq!(strip_escapes(&colored), plain);
}

#[test]
fn try_from_fn_passes_the_error_on() {
    let mut target = 1u32;
    let mut a = TryFromFn::new(|t: &mut u32| -> Result<(), &'static str> {
        *t += 1;
        Err("no")
    });
    assert_eq!(a.apply(&mut target), Err("no"));
    assert_eq!(target, 2);
    assert_eq!(a.undo(&mut target), Ok(()));
    assert_eq!(target, 1);
    assert_eq!(a.redo(&mut target), Ok(()));
    assert_eq!(target, 2);
}

#[test]
fn join_text() {
    let j = Join::new("a", "b");
    assert_eq!(j.to_string(), "a & b");
}

#[test]
fn format_message_splits_crlf_lines() {
    let f = Format { colored: false, detailed: true, head: true, saved: true };
    let mut out = String::new();
    f.message(&mut out, "a\r\n b \n\nc", None);
    assert_eq!(out, "a\nb\n\nc\n");
    let mut out = String::new();
    f.message(&mut out, "", None);
    assert_eq!(out, "");
}

#[test]
fn any_actions_share_a_record() {
    let mut target = String::new();
    let mut record = Record::new();
    record.edit(&mut target, Any::new(Add('a')));
    record.edit(&mut target, Any::new(FromFn::new(|s: &mut String| s.push('b'))));
    let mut c = Any::new(FromFn::new(|s: &mut String| s.push('c')));
    c.set_string(String::from("push c"));
    assert_eq!(c.to_string(), "push c");
    record.edit(&mut target, c);
    assert_eq!(target, "abc");
    record.undo(&mut target);
    record.undo(&mut target);
    assert_eq!(target, "a");
    record.redo(&mut target);
    assert_eq!(target, "ab");
}
