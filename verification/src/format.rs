//! Text layout of the records and histories when they are displayed.

use crate::add::push_char;
use crate::At;
use colored::Colorize;
use crate::entry::Time;
use vstd::prelude::*;

verus! {

/// The colors that the display uses.
#[derive(Copy, Clone, Debug, PartialEq, Eq)]
pub enum Color {
    /// Cyan.
    Cyan,
    /// Red.
    Red,
    /// Magenta.
    Magenta,
    /// Yellow.
    Yellow,
    /// Green.
    Green,
    /// Blue.
    Blue,
}

/// `text` in color `c` (`Colorize::color` of the crate `colored`, then
/// `to_string`). Whether escape codes are added depends on the environment:
/// for a text without an escape character the result is the text itself, or
/// the text between the escape code of the color and the reset code (the two
/// outcomes of `ColoredString`'s `Display`). A text with an escape character
/// may have codes inserted inside it, so nothing is claimed of it. This takes
/// the global coloring switch of `colored` to stay unchanged while the text
/// is written.
#[verifier::external_body]
fn paint(text: &str, c: Color) -> (r: String)
    ensures
        no_escape(text@) ==> (r@ == text@ || r@ == styled(text@, c, false)),
{
    let c = match c {
        Color::Cyan => colored::Color::Cyan,
        Color::Red => colored::Color::Red,
        Color::Magenta => colored::Color::Magenta,
        Color::Yellow => colored::Color::Yellow,
        Color::Green => colored::Color::Green,
        Color::Blue => colored::Color::Blue,
    };
    text.color(c).to_string()
}

/// `text` in color `c` and bold (`Colorize::color` and `Colorize::bold` of the
/// crate `colored`, then `to_string`). As for [`paint`], the result is the text
/// itself or the text between the escape code of bold and the color and the
/// reset code, for a text without an escape character; nothing is claimed of
/// another text.
#[verifier::external_body]
fn paint_bold(text: &str, c: Color) -> (r: String)
    ensures
        no_escape(text@) ==> (r@ == text@ || r@ == styled(text@, c, true)),
{
    let c = match c {
        Color::Cyan => colored::Color::Cyan,
        Color::Red => colored::Color::Red,
        Color::Magenta => colored::Color::Magenta,
        Color::Yellow => colored::Color::Yellow,
        Color::Green => colored::Color::Green,
        Color::Blue => colored::Color::Blue,
    };
    text.color(c).bold().to_string()
}

/// The index of the first `'\n'` of `s` at or after `i`, or the length of
/// `s` when there is none.
pub open spec fn line_end(s: Seq<char>, i: int) -> int
    decreases s.len() - i,
{
    if i >= s.len() {
        s.len() as int
    } else if s[i] == '\n' {
        i
    } else {
        line_end(s, i + 1)
    }
}

/// The end of the line that starts at `i` lies at or after `i`.
pub proof fn lemma_line_end(s: Seq<char>, i: int)
    ensures
        i <= s.len() ==> i <= line_end(s, i) <= s.len(),
    decreases s.len() - i,
{
    if i < s.len() && s[i] != '\n' {
        lemma_line_end(s, i + 1);
    }
}

/// `l` without a final `'\r'`.
pub open spec fn strip_cr(l: Seq<char>) -> Seq<char> {
    if l.len() > 0 && l.last() == '\r' {
        l.drop_last()
    } else {
        l
    }
}

/// The lines of `s` from index `i` on: split at each `'\n'`, a line ended by
/// `"\r\n"` without its `'\r'`; a last line without a `'\n'` is kept as it
/// is, and none follows a final `'\n'`.
pub open spec fn lines_from(s: Seq<char>, i: int) -> Seq<Seq<char>>
    decreases s.len() - i,
{
    if 0 <= i < s.len() {
        let j = line_end(s, i);
        proof {
            lemma_line_end(s, i);
        }
        if j < s.len() {
            seq![strip_cr(s.subrange(i, j))] + lines_from(s, j + 1)
        } else {
            seq![s.subrange(i, j)]
        }
    } else {
        Seq::empty()
    }
}

/// The lines of a text, as `str::lines` splits them.
pub open spec fn lines_of(s: Seq<char>) -> Seq<Seq<char>> {
    lines_from(s, 0)
}

/// The character has the Unicode property `White_Space`.
pub open spec fn is_white_space(c: char) -> bool {
    let n = c as int;
    ||| 0x9 <= n <= 0xD
    ||| n == 0x20
    ||| n == 0x85
    ||| n == 0xA0
    ||| n == 0x1680
    ||| 0x2000 <= n <= 0x200A
    ||| n == 0x2028
    ||| n == 0x2029
    ||| n == 0x202F
    ||| n == 0x205F
    ||| n == 0x3000
}

/// `s` without its leading whitespace.
pub open spec fn trim_start(s: Seq<char>) -> Seq<char>
    decreases s.len(),
{
    if s.len() > 0 && is_white_space(s[0]) {
        trim_start(s.drop_first())
    } else {
        s
    }
}

/// `s` without its trailing whitespace.
pub open spec fn trim_end(s: Seq<char>) -> Seq<char>
    decreases s.len(),
{
    if s.len() > 0 && is_white_space(s.last()) {
        trim_end(s.drop_last())
    } else {
        s
    }
}

/// A text without its leading and trailing whitespace, as `str::trim` cuts it.
pub open spec fn trimmed(s: Seq<char>) -> Seq<char> {
    trim_end(trim_start(s))
}

/// `str::lines`: the lines of `s`, split at `"\n"` and `"\r\n"`, without a
/// final empty line.
#[verifier::external_body]
fn str_lines(s: &str) -> (v: Vec<&str>)
    ensures
        v@.len() == lines_of(s@).len(),
        forall|i: int| 0 <= i < v@.len() ==> v@[i]@ == lines_of(s@)[i],
{
    s.lines().collect()
}

/// `str::trim`: `s` without leading and trailing whitespace, whitespace being
/// the characters of the Unicode property `White_Space`.
#[verifier::external_body]
fn str_trim(s: &str) -> (t: &str)
    ensures
        t@ == trimmed(s@),
{
    s.trim()
}

/// The number of the color in a terminal escape code.
pub open spec fn color_code(c: Color) -> Seq<char> {
    match c {
        Color::Cyan => seq!['3', '6'],
        Color::Red => seq!['3', '1'],
        Color::Magenta => seq!['3', '5'],
        Color::Yellow => seq!['3', '3'],
        Color::Green => seq!['3', '2'],
        Color::Blue => seq!['3', '4'],
    }
}

/// `text` between the escape code of color `c` (and of bold, when `bold`) and
/// the reset code.
pub open spec fn styled(text: Seq<char>, c: Color, bold: bool) -> Seq<char> {
    seq!['\x1B', '['] + (if bold { seq!['1', ';'] } else { Seq::empty() }) + color_code(c) + seq!['m'] + text
        + seq!['\x1B', '[', '0', 'm']
}

/// The text holds no escape character.
pub open spec fn no_escape(t: Seq<char>) -> bool {
    forall|i: int| 0 <= i < t.len() ==> t[i] != '\x1B'
}

/// No text of `v` holds an escape character.
pub open spec fn all_no_escape(v: Seq<Seq<char>>) -> bool {
    forall|i: int| 0 <= i < v.len() ==> no_escape(#[trigger] v[i])
}

/// A piece of colored output: a plain text, or a text painted in a color,
/// bold or not.
pub enum Piece {
    /// Written as it is.
    Plain(Seq<char>),
    /// Written as it is, or styled in the color (and bold, when the flag holds).
    Painted(Seq<char>, Color, bool),
}

/// The text of piece `p`, styled when `st` holds.
pub open spec fn piece_text(p: Piece, st: bool) -> Seq<char> {
    match p {
        Piece::Plain(t) => t,
        Piece::Painted(t, c, b) => if st {
            styled(t, c, b)
        } else {
            t
        },
    }
}

/// The text of the pieces `ps` one after the other, the `i`-th styled when
/// `st[i]` holds.
pub open spec fn render(ps: Seq<Piece>, st: Seq<bool>) -> Seq<char>
    decreases ps.len(),
{
    if ps.len() == 0 {
        Seq::empty()
    } else {
        render(ps.drop_last(), st.drop_last()) + piece_text(ps.last(), st.last())
    }
}

/// `s` is the text of the pieces `ps`, each painted piece styled or not.
pub open spec fn shows(s: Seq<char>, ps: Seq<Piece>) -> bool {
    exists|st: Seq<bool>| st.len() == ps.len() && #[trigger] render(ps, st) == s
}

/// `after` is `before` followed by the text of the pieces `ps`.
pub open spec fn appended(before: Seq<char>, after: Seq<char>, ps: Seq<Piece>) -> bool {
    before.is_prefix_of(after) && shows(after.skip(before.len() as int), ps)
}

/// The text of pieces one after the other is the text of the first ones
/// followed by that of the others.
pub proof fn lemma_render_concat(p1: Seq<Piece>, p2: Seq<Piece>, s1: Seq<bool>, s2: Seq<bool>)
    requires
        s1.len() == p1.len(),
        s2.len() == p2.len(),
    ensures
        render(p1 + p2, s1 + s2) == render(p1, s1) + render(p2, s2),
    decreases p2.len(),
{
    if p2.len() == 0 {
        assert(p1 + p2 =~= p1);
        assert(s1 + s2 =~= s1);
        assert(render(p2, s2) =~= Seq::<char>::empty());
        assert(render(p1, s1) + render(p2, s2) =~= render(p1, s1));
    } else {
        lemma_render_concat(p1, p2.drop_last(), s1, s2.drop_last());
        assert((p1 + p2).drop_last() =~= p1 + p2.drop_last());
        assert((s1 + s2).drop_last() =~= s1 + s2.drop_last());
        assert((p1 + p2).last() == p2.last());
        assert((s1 + s2).last() == s2.last());
        assert(render(p1 + p2, s1 + s2) =~= render(p1, s1) + render(p2, s2));
    }
}

/// Appending pieces and then more pieces appends both.
pub proof fn lemma_appended_trans(a: Seq<char>, b: Seq<char>, c: Seq<char>, p1: Seq<Piece>, p2: Seq<Piece>)
    requires
        appended(a, b, p1),
        appended(b, c, p2),
    ensures
        appended(a, c, p1 + p2),
{
    let s1 = choose|st: Seq<bool>| st.len() == p1.len() && #[trigger] render(p1, st) == b.skip(a.len() as int);
    let s2 = choose|st: Seq<bool>| st.len() == p2.len() && #[trigger] render(p2, st) == c.skip(b.len() as int);
    lemma_render_concat(p1, p2, s1, s2);
    assert(c.take(a.len() as int) =~= a) by {
        assert(c.take(b.len() as int) == b);
        assert(b.take(a.len() as int) == a);
    }
    assert(c.skip(a.len() as int) =~= b.skip(a.len() as int) + c.skip(b.len() as int)) by {
        assert(c.take(b.len() as int) == b);
    }
    assert(render(p1 + p2, s1 + s2) == c.skip(a.len() as int));
}

/// Appending a plain text appends a plain piece.
pub proof fn lemma_appended_plain(a: Seq<char>, t: Seq<char>)
    ensures
        appended(a, a + t, seq![Piece::Plain(t)]),
{
    let st = seq![false];
    assert(seq![Piece::Plain(t)].drop_last() =~= Seq::<Piece>::empty());
    assert(st.drop_last() =~= Seq::<bool>::empty());
    assert(render(Seq::<Piece>::empty(), Seq::<bool>::empty()) =~= Seq::<char>::empty());
    assert(render(seq![Piece::Plain(t)], st) =~= t);
    assert((a + t).skip(a.len() as int) =~= t);
    assert((a + t).take(a.len() as int) =~= a);
}

/// Appending nothing appends no piece.
pub proof fn lemma_appended_none(a: Seq<char>)
    ensures
        appended(a, a, Seq::empty()),
{
    let st = Seq::<bool>::empty();
    assert(render(Seq::<Piece>::empty(), st) =~= Seq::<char>::empty());
    assert(a.skip(a.len() as int) =~= Seq::<char>::empty());
    assert(a.take(a.len() as int) =~= a);
}

/// Appending a painted text, styled or not, appends a painted piece.
pub proof fn lemma_appended_painted(a: Seq<char>, r: Seq<char>, t: Seq<char>, c: Color, b: bool)
    requires
        r == t || r == styled(t, c, b),
    ensures
        appended(a, a + r, seq![Piece::Painted(t, c, b)]),
{
    let st = seq![r != t];
    assert(seq![Piece::Painted(t, c, b)].drop_last() =~= Seq::<Piece>::empty());
    assert(st.drop_last() =~= Seq::<bool>::empty());
    assert(render(Seq::<Piece>::empty(), Seq::<bool>::empty()) =~= Seq::<char>::empty());
    assert(render(seq![Piece::Painted(t, c, b)], st) =~= r);
    assert((a + r).skip(a.len() as int) =~= r);
    assert((a + r).take(a.len() as int) =~= a);
}

/// The decimal text of a number holds no escape character.
pub proof fn lemma_decimal_no_escape(n: nat)
    ensures
        no_escape(decimal(n)),
    decreases n,
{
    if n >= 10 {
        lemma_decimal_no_escape(n / 10);
    }
    let d = n % 10;
    assert(digit_char(d) != '\x1B') by {
        assert((d + 48) as u8 == d + 48);
    }
    assert forall|i: int| 0 <= i < decimal(n).len() implies decimal(n)[i] != '\x1B' by {
        if n >= 10 {
            if i < decimal(n / 10).len() {
                assert(decimal(n)[i] == decimal(n / 10)[i]);
            }
        }
    }
}

/// The color of a nesting level: six colors in turn.
pub open spec fn spec_color_of_level(level: usize) -> Color {
    let r = level % 6;
    if r == 0 {
        Color::Cyan
    } else if r == 1 {
        Color::Red
    } else if r == 2 {
        Color::Magenta
    } else if r == 3 {
        Color::Yellow
    } else if r == 4 {
        Color::Green
    } else {
        Color::Blue
    }
}

/// Returns the color of a nesting level.
pub fn color_of_level(level: usize) -> (c: Color)
    ensures
        c == spec_color_of_level(level),
{
    let r = level % 6;
    if r == 0 {
        Color::Cyan
    } else if r == 1 {
        Color::Red
    } else if r == 2 {
        Color::Magenta
    } else if r == 3 {
        Color::Yellow
    } else if r == 4 {
        Color::Green
    } else {
        Color::Blue
    }
}

/// The character of a decimal digit.
pub open spec fn digit_char(d: nat) -> char {
    ((d + 48) as u8) as char
}

/// The decimal text of `n`.
pub open spec fn decimal(n: nat) -> Seq<char>
    decreases n,
{
    if n < 10 {
        seq![digit_char(n)]
    } else {
        decimal(n / 10) + seq![digit_char(n % 10)]
    }
}

/// Appends the decimal text of `n`.
pub fn push_decimal(out: &mut String, n: usize)
    ensures
        final(out)@ == old(out)@ + decimal(n as nat),
    decreases n,
{
    if n >= 10 {
        push_decimal(out, n / 10);
    }
    let d = (n % 10) as u8;
    push_char(out, (48u8 + d) as char);
    assert(final(out)@ =~= old(out)@ + decimal(n as nat));
}

/// The text of the edges for the levels below `n`: `"| "` for each.
pub open spec fn edges_before(n: nat) -> Seq<char> {
    Seq::new(2 * n, |i: int| if i % 2 == 0 { '|' } else { ' ' })
}

/// The text of the edges for the levels `0` to `level`: `"| "` for each.
pub open spec fn edges(level: nat) -> Seq<char> {
    edges_before(level + 1)
}

/// The detailed message of `lines` without colors: each line trimmed on a
/// line of its own, after the edges of `level` when one is given.
pub open spec fn detailed_message(lines: Seq<Seq<char>>, level: Option<usize>) -> Seq<char>
    decreases lines.len(),
{
    if lines.len() == 0 {
        Seq::empty()
    } else {
        detailed_message(lines.drop_last(), level)
            + (match level { Some(l) => edges(l as nat), None => Seq::empty() })
            + trimmed(lines.last()) + seq!['\n']
    }
}

/// The first line of `lines` that is not empty once trimmed, trimmed.
pub open spec fn first_line(lines: Seq<Seq<char>>) -> Option<Seq<char>>
    decreases lines.len(),
{
    if lines.len() == 0 {
        None
    } else if trimmed(lines[0]).len() > 0 {
        Some(trimmed(lines[0]))
    } else {
        first_line(lines.drop_first())
    }
}

/// The message text of `text` without colors: in detailed output each line
/// trimmed on a line of its own, after the edges of `level` when one is
/// given; otherwise the first line that is not empty once trimmed.
pub open spec fn message_text(detailed: bool, text: Seq<char>, level: Option<usize>) -> Seq<char> {
    if detailed {
        detailed_message(lines_of(text), level)
    } else {
        match first_line(lines_of(text)) {
            Some(l) => l,
            None => Seq::empty(),
        }
    }
}

/// The text of a duration of `secs` seconds and `nanos` nanoseconds as
/// `Duration` writes it with `{:.1?}`.
pub uninterp spec fn duration_text(secs: u64, nanos: u32) -> Seq<char>;

/// Writes the duration of `secs` seconds and `nanos` nanoseconds with
/// `{:.1?}` (`Duration::new`, then its `Debug` text).
#[verifier::external_body]
fn fmt_duration(secs: u64, nanos: u32) -> (s: String)
    requires
        nanos < 1_000_000_000,
    ensures
        s@ == duration_text(secs, nanos),
{
    format!("{:.1?}", std::time::Duration::new(secs, nanos))
}

/// The number of nanoseconds between two numbers of nanoseconds.
pub open spec fn nanos_between(a: int, b: int) -> int {
    if a < b {
        b - a
    } else {
        a - b
    }
}

/// The number of nanoseconds between two times.
pub open spec fn distance(a: Time, b: Time) -> int {
    nanos_between(a.spec_nanos(), b.spec_nanos())
}

/// The default elapsed-time text for a time `d` nanoseconds away.
pub open spec fn elapsed_text(d: int) -> Seq<char> {
    duration_text(whole_secs(d), sub_nanos(d))
}

/// The whole seconds of `d` nanoseconds; a distance beyond the largest
/// duration is cut to it.
pub open spec fn whole_secs(d: int) -> u64 {
    if d / 1_000_000_000 > u64::MAX {
        u64::MAX
    } else {
        (d / 1_000_000_000) as u64
    }
}

/// The nanoseconds of `d` nanoseconds beyond its whole seconds; a distance
/// beyond the largest duration is cut to it.
pub open spec fn sub_nanos(d: int) -> u32 {
    if d / 1_000_000_000 > u64::MAX {
        999_999_999
    } else {
        (d % 1_000_000_000) as u32
    }
}

/// The default text of the time elapsed from `at` to `now`: the distance
/// between them, written with `{:.1?}`.
pub fn default_st_fmt(now: Time, at: Time) -> (s: String)
    ensures
        s@ == duration_text(whole_secs(distance(now, at)), sub_nanos(distance(now, at))),
{
    proof {
        now.lemma_nanos_bounds();
        at.lemma_nanos_bounds();
    }
    let a = now.nanos_since_epoch();
    let b = at.nanos_since_epoch();
    let d: i128 = if a < b { b - a } else { a - b };
    let q: i128 = d / 1_000_000_000;
    let r: i128 = d % 1_000_000_000;
    if q > 18_446_744_073_709_551_615 {
        fmt_duration(u64::MAX, 999_999_999)
    } else {
        fmt_duration(q as u64, r as u32)
    }
}

/// The elapsed-time part of a line: shown in detailed output for an entry.
pub open spec fn elapsed_part(f: Format, entry: Option<(Seq<char>, Seq<char>)>) -> Seq<char> {
    match entry {
        Some(e) => if f.detailed { seq![' '] + e.1 } else { Seq::empty() },
        None => Seq::empty(),
    }
}

/// The message part of a line: for an entry, its message on the next lines
/// in detailed output, else its first line after a space.
pub open spec fn message_part(f: Format, entry: Option<(Seq<char>, Seq<char>)>, level: Option<usize>) -> Seq<char> {
    match entry {
        Some(e) => if f.detailed {
            seq!['\n'] + message_text(true, e.0, level)
        } else {
            seq![' '] + message_text(false, e.0, level) + seq!['\n']
        },
        None => Seq::empty(),
    }
}

/// The level after `level`, as the display counts it.
pub open spec fn next_level(level: usize) -> usize {
    if level < usize::MAX {
        (level + 1) as usize
    } else {
        0
    }
}

/// The colored pieces of the edge of `level`: `'|'` in its color.
pub open spec fn edge_pieces(level: usize) -> Seq<Piece> {
    seq![Piece::Painted(seq!['|'], spec_color_of_level(level), false)]
}

/// The colored pieces of the mark of a node at `level`: `'*'` in its color,
/// then a plain space.
pub open spec fn mark_pieces(level: usize) -> Seq<Piece> {
    seq![Piece::Painted(seq!['*'], spec_color_of_level(level), false), Piece::Plain(seq![' '])]
}

/// The colored pieces of the split of `level`: `'|'` in its color, then `'/'`
/// in the color of the next level.
pub open spec fn split_pieces(level: usize) -> Seq<Piece> {
    seq![
        Piece::Painted(seq!['|'], spec_color_of_level(level), false),
        Piece::Painted(seq!['/'], spec_color_of_level(next_level(level)), false),
    ]
}

/// The colored pieces of the edges of the levels below `n`: for each, `'|'`
/// in its color and a plain space.
pub open spec fn indent_pieces(n: nat) -> Seq<Piece>
    decreases n,
{
    if n == 0 {
        Seq::empty()
    } else {
        indent_pieces((n - 1) as nat) + seq![
            Piece::Painted(seq!['|'], spec_color_of_level((n - 1) as usize), false),
            Piece::Plain(seq![' ']),
        ]
    }
}

/// The colored pieces of the edges of the levels `0` to `level`.
pub open spec fn edges_pieces(level: usize) -> Seq<Piece> {
    indent_pieces(level as nat + 1)
}

/// The text of position `at`: `"<root>:<index>"` when `use_branch`,
/// otherwise `"<index>"`.
pub open spec fn position_text(at: At, use_branch: bool) -> Seq<char> {
    if use_branch {
        decimal(at.root as nat) + seq![':'] + decimal(at.index as nat)
    } else {
        decimal(at.index as nat)
    }
}

/// The colored pieces of position `at`: its text in bold yellow.
pub open spec fn position_pieces(at: At, use_branch: bool) -> Seq<Piece> {
    seq![Piece::Painted(position_text(at, use_branch), Color::Yellow, true)]
}

/// The colored pieces of the labels of position `at`: the brackets and the
/// comma in yellow, `HEAD` in bold cyan, `SAVED` in bold green.
pub open spec fn labels_pieces(f: Format, at: At, current: At, saved: Option<At>) -> Seq<Piece> {
    let is_head = f.head && at == current;
    let is_saved = f.saved && saved == Some(at);
    if is_head && is_saved {
        seq![
            Piece::Plain(seq![' ']),
            Piece::Painted(seq!['['], Color::Yellow, false),
            Piece::Painted(seq!['H', 'E', 'A', 'D'], Color::Cyan, true),
            Piece::Painted(seq![','], Color::Yellow, false),
            Piece::Plain(seq![' ']),
            Piece::Painted(seq!['S', 'A', 'V', 'E', 'D'], Color::Green, true),
            Piece::Painted(seq![']'], Color::Yellow, false),
        ]
    } else if is_head {
        seq![
            Piece::Plain(seq![' ']),
            Piece::Painted(seq!['['], Color::Yellow, false),
            Piece::Painted(seq!['H', 'E', 'A', 'D'], Color::Cyan, true),
            Piece::Painted(seq![']'], Color::Yellow, false),
        ]
    } else if is_saved {
        seq![
            Piece::Plain(seq![' ']),
            Piece::Painted(seq!['['], Color::Yellow, false),
            Piece::Painted(seq!['S', 'A', 'V', 'E', 'D'], Color::Green, true),
            Piece::Painted(seq![']'], Color::Yellow, false),
        ]
    } else {
        Seq::empty()
    }
}

/// The colored pieces of an elapsed-time text: a plain space, then the text
/// in yellow.
pub open spec fn elapsed_pieces(text: Seq<char>) -> Seq<Piece> {
    seq![Piece::Plain(seq![' ']), Piece::Painted(text, Color::Yellow, false)]
}

/// The colored pieces of the detailed message of `lines`: for each line, the
/// edges of `level` when one is given, then the trimmed line and a newline.
pub open spec fn detailed_pieces(lines: Seq<Seq<char>>, level: Option<usize>) -> Seq<Piece>
    decreases lines.len(),
{
    if lines.len() == 0 {
        Seq::empty()
    } else {
        detailed_pieces(lines.drop_last(), level) + (match level {
            Some(l) => edges_pieces(l),
            None => Seq::empty(),
        }) + seq![Piece::Plain(trimmed(lines.last())), Piece::Plain(seq!['\n'])]
    }
}

/// The colored pieces of the message `text`: in detailed output the lines
/// with their edges in color; otherwise the plain first line.
pub open spec fn message_pieces(detailed: bool, text: Seq<char>, level: Option<usize>) -> Seq<Piece> {
    if detailed {
        detailed_pieces(lines_of(text), level)
    } else {
        seq![Piece::Plain(message_text(false, text, level))]
    }
}

/// The colored elapsed-time part of a line: shown in detailed output for an
/// entry.
pub open spec fn elapsed_part_pieces(f: Format, entry: Option<(Seq<char>, Seq<char>)>) -> Seq<Piece> {
    match entry {
        Some(e) => if f.detailed { elapsed_pieces(e.1) } else { Seq::empty() },
        None => Seq::empty(),
    }
}

/// The colored message part of a line: for an entry, its message on the next
/// lines in detailed output, else its first line after a space.
pub open spec fn message_part_pieces(f: Format, entry: Option<(Seq<char>, Seq<char>)>, level: Option<usize>) -> Seq<Piece> {
    match entry {
        Some(e) => if f.detailed {
            seq![Piece::Plain(seq!['\n'])] + message_pieces(true, e.0, level)
        } else {
            seq![Piece::Plain(seq![' '])] + message_pieces(false, e.0, level) + seq![Piece::Plain(seq!['\n'])]
        },
        None => Seq::empty(),
    }
}

/// The views of some strings.
pub open spec fn views(v: Seq<String>) -> Seq<Seq<char>> {
    v.map_values(|s: String| s@)
}

/// Which parts of the display are shown.
#[derive(Copy, Clone, Debug)]
pub struct Format {
    /// Show colored output.
    pub colored: bool,
    /// Show detailed output.
    pub detailed: bool,
    /// Show the current position.
    pub head: bool,
    /// Show the saved position.
    pub saved: bool,
}

/// The label text of position `at` without colors.
pub open spec fn labels_text(f: Format, at: At, current: At, saved: Option<At>) -> Seq<char> {
    let is_head = f.head && at == current;
    let is_saved = f.saved && saved == Some(at);
    if is_head && is_saved {
        " [HEAD, SAVED]"@
    } else if is_head {
        " [HEAD]"@
    } else if is_saved {
        " [SAVED]"@
    } else {
        Seq::empty()
    }
}

/// Appends `text` painted in color `c` (bold when `bold`).
pub(crate) fn put_painted(out: &mut String, text: &str, c: Color, bold: bool)
    ensures
        old(out)@.is_prefix_of(final(out)@),
        no_escape(text@) ==> appended(old(out)@, final(out)@, seq![Piece::Painted(text@, c, bold)]),
{
    let s = if bold {
        paint_bold(text, c)
    } else {
        paint(text, c)
    };
    let ghost s0 = out@;
    out.append(s.as_str());
    proof {
        if no_escape(text@) {
            lemma_appended_painted(s0, s@, text@, c, bold);
        }
        assert(out@.take(s0.len() as int) =~= s0);
    }
}

/// Appends the plain text `text`.
pub(crate) fn put_plain(out: &mut String, text: &str)
    ensures
        final(out)@ == old(out)@ + text@,
        appended(old(out)@, final(out)@, seq![Piece::Plain(text@)]),
{
    let ghost s0 = out@;
    out.append(text);
    proof {
        lemma_appended_plain(s0, text@);
    }
}

/// Appends the plain character `c`.
pub(crate) fn put_char(out: &mut String, c: char)
    ensures
        final(out)@ == old(out)@.push(c),
        appended(old(out)@, final(out)@, seq![Piece::Plain(seq![c])]),
{
    let ghost s0 = out@;
    push_char(out, c);
    proof {
        assert(out@ =~= s0 + seq![c]);
        lemma_appended_plain(s0, seq![c]);
    }
}

impl Format {
    /// Everything shown, in color.
    pub open spec fn spec_default() -> Format {
        Format { colored: true, detailed: true, head: true, saved: true }
    }

    /// Everything shown, in color.
    pub fn new() -> (f: Format)
        ensures
            f == Format::spec_default(),
    {
        Format { colored: true, detailed: true, head: true, saved: true }
    }

    /// Appends the message `msg`: in detailed output each line trimmed on a
    /// line of its own, after the edges of `level` when one is given;
    /// otherwise only the first line that is not empty once trimmed.
    pub fn message(self, out: &mut String, msg: &str, level: Option<usize>)
        ensures
            old(out)@.is_prefix_of(final(out)@),
            !self.colored ==> final(out)@ == old(out)@ + message_text(self.detailed, msg@, level),
            !self.detailed ==> final(out)@ == old(out)@ + message_text(false, msg@, level),
            self.colored ==> appended(old(out)@, final(out)@, message_pieces(self.detailed, msg@, level)),
    {
        let lines = str_lines(msg);
        let ghost ls = lines_of(msg@);
        if self.detailed {
            let mut i: usize = 0;
            proof {
                lemma_appended_none(out@);
                assert(detailed_pieces(ls.take(0), level) =~= Seq::<Piece>::empty());
            }
            while i < lines.len()
                invariant
                    i <= lines@.len(),
                    lines@.len() == ls.len(),
                    forall|k: int| 0 <= k < lines@.len() ==> lines@[k]@ == ls[k],
                    old(out)@.is_prefix_of(out@),
                    self.detailed,
                    !self.colored ==> out@ == old(out)@ + detailed_message(ls.take(i as int), level),
                    self.colored ==> appended(old(out)@, out@, detailed_pieces(ls.take(i as int), level)),
                decreases lines@.len() - i,
            {
                let ghost before = out@;
                match level {
                    Some(l) => self.edges(out, l),
                    None => {},
                }
                let ghost mid = out@;
                let line = str_trim(lines[i]);
                put_plain(out, line);
                let ghost mid2 = out@;
                put_char(out, '\n');
                proof {
                    assert(old(out)@.is_prefix_of(out@)) by {
                        assert(out@.take(old(out)@.len() as int) =~= old(out)@);
                    }
                    assert(ls.take(i + 1).drop_last() =~= ls.take(i as int));
                    assert(ls.take(i + 1).last() == ls[i as int]);
                    if !self.colored {
                        let e = match level { Some(l) => edges(l as nat), None => Seq::empty() };
                        assert(out@ =~= before + e + trimmed(ls[i as int]) + seq!['\n']);
                    } else {
                        let ep = match level { Some(l) => edges_pieces(l), None => Seq::<Piece>::empty() };
                        if level is None {
                            lemma_appended_none(before);
                        }
                        let p0 = detailed_pieces(ls.take(i as int), level);
                        let p1 = seq![Piece::Plain(trimmed(ls[i as int]))];
                        let p2 = seq![Piece::Plain(seq!['\n'])];
                        lemma_appended_trans(old(out)@, before, mid, p0, ep);
                        lemma_appended_trans(old(out)@, mid, mid2, p0 + ep, p1);
                        lemma_appended_trans(old(out)@, mid2, out@, p0 + ep + p1, p2);
                        assert(p0 + ep + p1 + p2 =~= detailed_pieces(ls.take(i + 1), level));
                    }
                }
                i = i + 1;
            }
            assert(ls.take(lines@.len() as int) =~= ls);
        } else {
            let mut i: usize = 0;
            assert(ls.skip(0) =~= ls);
            while i < lines.len()
                invariant
                    i <= lines@.len(),
                    lines@.len() == ls.len(),
                    forall|k: int| 0 <= k < lines@.len() ==> lines@[k]@ == ls[k],
                    ls == lines_of(msg@),
                    first_line(ls) == first_line(ls.skip(i as int)),
                    out@ == old(out)@,
                    !self.detailed,
                decreases lines@.len() - i,
            {
                let line = str_trim(lines[i]);
                assert(ls.skip(i as int)[0] == ls[i as int]);
                if !line.is_empty() {
                    out.append(line);
                    assert(line@.len() > 0);
                    assert(first_line(ls.skip(i as int)) == Some(trimmed(ls[i as int])));
                    assert(out@ =~= old(out)@ + trimmed(ls[i as int]));
                    assert(first_line(lines_of(msg@)) == Some(trimmed(ls[i as int])));
                    proof {
                        lemma_appended_plain(old(out)@, message_text(false, msg@, level));
                    }
                    return;
                }
                assert(line@.len() == 0);
                assert(ls.skip(i as int).drop_first() =~= ls.skip(i + 1));
                i = i + 1;
            }
            assert(ls.skip(i as int).len() == 0);
            proof {
                assert(old(out)@ + message_text(false, msg@, level) =~= old(out)@);
                lemma_appended_plain(old(out)@, message_text(false, msg@, level));
            }
        }
    }

    /// Appends the edges of the levels below `level`, each followed by `' '`.
    pub fn indent(self, out: &mut String, level: usize)
        ensures
            old(out)@.is_prefix_of(final(out)@),
            !self.colored ==> final(out)@ == old(out)@ + edges_before(level as nat),
            self.colored ==> appended(old(out)@, final(out)@, indent_pieces(level as nat)),
    {
        let mut j: usize = 0;
        proof {
            lemma_appended_none(out@);
        }
        while j < level
            invariant
                j <= level,
                old(out)@.is_prefix_of(out@),
                !self.colored ==> out@ == old(out)@ + edges_before(j as nat),
                self.colored ==> appended(old(out)@, out@, indent_pieces(j as nat)),
            decreases level - j,
        {
            let ghost s0 = out@;
            self.edge(out, j);
            let ghost s1 = out@;
            put_char(out, ' ');
            proof {
                assert(old(out)@.is_prefix_of(out@)) by {
                    assert(out@.take(old(out)@.len() as int) =~= old(out)@);
                }
                if !self.colored {
                    assert(out@ =~= old(out)@ + edges_before((j + 1) as nat));
                } else {
                    lemma_appended_trans(old(out)@, s0, s1, indent_pieces(j as nat), edge_pieces(j));
                    lemma_appended_trans(old(out)@, s1, out@, indent_pieces(j as nat) + edge_pieces(j), seq![Piece::Plain(seq![' '])]);
                    assert(indent_pieces(j as nat) + edge_pieces(j) + seq![Piece::Plain(seq![' '])] =~= indent_pieces((j + 1) as nat));
                }
            }
            j = j + 1;
        }
    }

    /// Appends the edges of the levels `0` to `level`, each followed by `' '`.
    pub fn edges(self, out: &mut String, level: usize)
        ensures
            old(out)@.is_prefix_of(final(out)@),
            !self.colored ==> final(out)@ == old(out)@ + edges(level as nat),
            self.colored ==> appended(old(out)@, final(out)@, edges_pieces(level)),
    {
        self.indent(out, level);
        let ghost mid = out@;
        self.edge(out, level);
        let ghost mid2 = out@;
        put_char(out, ' ');
        proof {
            assert(old(out)@.is_prefix_of(out@)) by {
                assert(out@.take(old(out)@.len() as int) =~= old(out)@);
            }
            if !self.colored {
                assert(out@ =~= old(out)@ + edges(level as nat));
            } else {
                lemma_appended_trans(old(out)@, mid, mid2, indent_pieces(level as nat), edge_pieces(level));
                lemma_appended_trans(old(out)@, mid2, out@, indent_pieces(level as nat) + edge_pieces(level), seq![Piece::Plain(seq![' '])]);
                assert(indent_pieces(level as nat) + edge_pieces(level) + seq![Piece::Plain(seq![' '])] =~= edges_pieces(level));
            }
        }
    }

    /// Appends the mark of a node at `level`: `"* "`.
    pub fn mark(self, out: &mut String, level: usize)
        ensures
            old(out)@.is_prefix_of(final(out)@),
            !self.colored ==> final(out)@ == old(out)@ + "* "@,
            self.colored ==> appended(old(out)@, final(out)@, mark_pieces(level)),
    {
        if self.colored {
            put_painted(out, "*", color_of_level(level), false);
            let ghost mid = out@;
            put_char(out, ' ');
            proof {
                reveal_strlit("*");
                assert("*"@ =~= seq!['*']);
                lemma_appended_trans(old(out)@, mid, out@, seq![Piece::Painted(seq!['*'], spec_color_of_level(level), false)], seq![Piece::Plain(seq![' '])]);
                assert(seq![Piece::Painted(seq!['*'], spec_color_of_level(level), false)] + seq![Piece::Plain(seq![' '])] =~= mark_pieces(level));
            }
        } else {
            out.append("* ");
        }
        assert(old(out)@.is_prefix_of(out@)) by {
            assert(out@.take(old(out)@.len() as int) =~= old(out)@);
        }
    }

    /// Appends the edge of `level`: `"|"`.
    pub fn edge(self, out: &mut String, level: usize)
        ensures
            old(out)@.is_prefix_of(final(out)@),
            !self.colored ==> final(out)@ == old(out)@.push('|'),
            self.colored ==> appended(old(out)@, final(out)@, edge_pieces(level)),
    {
        if self.colored {
            put_painted(out, "|", color_of_level(level), false);
            proof {
                reveal_strlit("|");
                assert("|"@ =~= seq!['|']);
            }
        } else {
            push_char(out, '|');
        }
        assert(old(out)@.is_prefix_of(out@)) by {
            assert(out@.take(old(out)@.len() as int) =~= old(out)@);
        }
    }

    /// Appends the split of `level` into `level + 1`: `"|/"`.
    pub fn split(self, out: &mut String, level: usize)
        ensures
            old(out)@.is_prefix_of(final(out)@),
            !self.colored ==> final(out)@ == old(out)@ + "|/"@,
            self.colored ==> appended(old(out)@, final(out)@, split_pieces(level)),
    {
        if self.colored {
            let next = if level < usize::MAX { level + 1 } else { 0 };
            put_painted(out, "|", color_of_level(level), false);
            let ghost mid = out@;
            put_painted(out, "/", color_of_level(next), false);
            proof {
                reveal_strlit("|");
                reveal_strlit("/");
                assert("|"@ =~= seq!['|']);
                assert("/"@ =~= seq!['/']);
                let p1 = seq![Piece::Painted(seq!['|'], spec_color_of_level(level), false)];
                let p2 = seq![Piece::Painted(seq!['/'], spec_color_of_level(next_level(level)), false)];
                lemma_appended_trans(old(out)@, mid, out@, p1, p2);
                assert(p1 + p2 =~= split_pieces(level));
            }
        } else {
            out.append("|/");
        }
        assert(old(out)@.is_prefix_of(out@)) by {
            assert(out@.take(old(out)@.len() as int) =~= old(out)@);
        }
    }

    /// Appends the position `at`: `"<root>:<index>"` when `use_branch`,
    /// otherwise `"<index>"`.
    pub fn position(self, out: &mut String, at: At, use_branch: bool)
        ensures
            old(out)@.is_prefix_of(final(out)@),
            !self.colored ==> final(out)@ == old(out)@ + position_text(at, use_branch),
            self.colored ==> appended(old(out)@, final(out)@, position_pieces(at, use_branch)),
    {
        let mut text = String::new();
        if use_branch {
            push_decimal(&mut text, at.root);
            push_char(&mut text, ':');
        }
        push_decimal(&mut text, at.index);
        proof {
            if use_branch {
                assert(text@ =~= decimal(at.root as nat) + seq![':'] + decimal(at.index as nat));
            } else {
                assert(text@ =~= decimal(at.index as nat));
            }
        }
        if self.colored {
            put_painted(out, text.as_str(), Color::Yellow, true);
            proof {
                lemma_decimal_no_escape(at.root as nat);
                lemma_decimal_no_escape(at.index as nat);
                assert(no_escape(text@)) by {
                    if use_branch {
                        assert forall|i: int| 0 <= i < text@.len() implies text@[i] != '\x1B' by {
                            let r = decimal(at.root as nat);
                            if i < r.len() {
                                assert(text@[i] == r[i]);
                            } else if i > r.len() {
                                assert(text@[i] == decimal(at.index as nat)[i - r.len() - 1]);
                            }
                        }
                    }
                }
            }
        } else {
            out.append(text.as_str());
        }
        assert(old(out)@.is_prefix_of(out@)) by {
            assert(out@.take(old(out)@.len() as int) =~= old(out)@);
        }
    }

    /// Appends the labels of position `at`: `" [HEAD, SAVED]"`, `" [HEAD]"`
    /// or `" [SAVED]"` as `at` is the current and the saved position, where
    /// those are shown.
    #[verifier::rlimit(40)]
    pub fn labels(self, out: &mut String, at: At, current: At, saved: Option<At>)
        ensures
            old(out)@.is_prefix_of(final(out)@),
            !self.colored ==> final(out)@ == old(out)@ + labels_text(self, at, current, saved),
            self.colored ==> appended(old(out)@, final(out)@, labels_pieces(self, at, current, saved)),
    {
        let is_head = self.head && at.root == current.root && at.index == current.index;
        let is_saved = self.saved && match saved {
            Some(s) => s.root == at.root && s.index == at.index,
            None => false,
        };
        proof {
            reveal_strlit("[");
            reveal_strlit("]");
            reveal_strlit(",");
            reveal_strlit("HEAD");
            reveal_strlit("SAVED");
            assert("["@ =~= seq!['[']);
            assert("]"@ =~= seq![']']);
            assert(","@ =~= seq![',']);
            assert("HEAD"@ =~= seq!['H', 'E', 'A', 'D']);
            assert("SAVED"@ =~= seq!['S', 'A', 'V', 'E', 'D']);
        }
        let ghost s0 = out@;
        if is_head && is_saved {
            if self.colored {
                put_char(out, ' ');
                let ghost s1 = out@;
                put_painted(out, "[", Color::Yellow, false);
                let ghost s2 = out@;
                put_painted(out, "HEAD", Color::Cyan, true);
                let ghost s3 = out@;
                put_painted(out, ",", Color::Yellow, false);
                let ghost s4 = out@;
                put_char(out, ' ');
                let ghost s5 = out@;
                put_painted(out, "SAVED", Color::Green, true);
                let ghost s6 = out@;
                put_painted(out, "]", Color::Yellow, false);
                proof {
                    let sp = seq![Piece::Plain(seq![' '])];
                    let lb = seq![Piece::Painted(seq!['['], Color::Yellow, false)];
                    let hd = seq![Piece::Painted(seq!['H', 'E', 'A', 'D'], Color::Cyan, true)];
                    let cm = seq![Piece::Painted(seq![','], Color::Yellow, false)];
                    let sv = seq![Piece::Painted(seq!['S', 'A', 'V', 'E', 'D'], Color::Green, true)];
                    let rb = seq![Piece::Painted(seq![']'], Color::Yellow, false)];
                    lemma_appended_trans(s0, s1, s2, sp, lb);
                    lemma_appended_trans(s0, s2, s3, sp + lb, hd);
                    lemma_appended_trans(s0, s3, s4, sp + lb + hd, cm);
                    lemma_appended_trans(s0, s4, s5, sp + lb + hd + cm, sp);
                    lemma_appended_trans(s0, s5, s6, sp + lb + hd + cm + sp, sv);
                    lemma_appended_trans(s0, s6, out@, sp + lb + hd + cm + sp + sv, rb);
                    assert(sp + lb + hd + cm + sp + sv + rb =~= labels_pieces(self, at, current, saved));
                }
            } else {
                out.append(" [HEAD, SAVED]");
            }
        } else if is_head {
            if self.colored {
                put_char(out, ' ');
                let ghost s1 = out@;
                put_painted(out, "[", Color::Yellow, false);
                let ghost s2 = out@;
                put_painted(out, "HEAD", Color::Cyan, true);
                let ghost s3 = out@;
                put_painted(out, "]", Color::Yellow, false);
                proof {
                    let sp = seq![Piece::Plain(seq![' '])];
                    let lb = seq![Piece::Painted(seq!['['], Color::Yellow, false)];
                    let md = seq![Piece::Painted(seq!['H', 'E', 'A', 'D'], Color::Cyan, true)];
                    let rb = seq![Piece::Painted(seq![']'], Color::Yellow, false)];
                    lemma_appended_trans(s0, s1, s2, sp, lb);
                    lemma_appended_trans(s0, s2, s3, sp + lb, md);
                    lemma_appended_trans(s0, s3, out@, sp + lb + md, rb);
                    assert(sp + lb + md + rb =~= labels_pieces(self, at, current, saved));
                }
            } else {
                out.append(" [HEAD]");
            }
        } else if is_saved {
            if self.colored {
                put_char(out, ' ');
                let ghost s1 = out@;
                put_painted(out, "[", Color::Yellow, false);
                let ghost s2 = out@;
                put_painted(out, "SAVED", Color::Green, true);
                let ghost s3 = out@;
                put_painted(out, "]", Color::Yellow, false);
                proof {
                    let sp = seq![Piece::Plain(seq![' '])];
                    let lb = seq![Piece::Painted(seq!['['], Color::Yellow, false)];
                    let md = seq![Piece::Painted(seq!['S', 'A', 'V', 'E', 'D'], Color::Green, true)];
                    let rb = seq![Piece::Painted(seq![']'], Color::Yellow, false)];
                    lemma_appended_trans(s0, s1, s2, sp, lb);
                    lemma_appended_trans(s0, s2, s3, sp + lb, md);
                    lemma_appended_trans(s0, s3, out@, sp + lb + md, rb);
                    assert(sp + lb + md + rb =~= labels_pieces(self, at, current, saved));
                }
            } else {
                out.append(" [SAVED]");
            }
        } else {
            proof {
                lemma_appended_none(s0);
            }
        }
        assert(old(out)@.is_prefix_of(out@)) by {
            assert(out@.take(old(out)@.len() as int) =~= old(out)@);
        }
        assert(!self.colored && !is_head && !is_saved ==> out@ =~= old(out)@ + Seq::<char>::empty());
    }

    /// Appends `" "` and the elapsed-time text `text`.
    pub fn elapsed(self, out: &mut String, text: &str)
        ensures
            old(out)@.is_prefix_of(final(out)@),
            !self.colored ==> final(out)@ == old(out)@ + " "@ + text@,
            self.colored && no_escape(text@) ==> appended(old(out)@, final(out)@, elapsed_pieces(text@)),
    {
        put_char(out, ' ');
        let ghost mid = out@;
        if self.colored {
            put_painted(out, text, Color::Yellow, false);
            proof {
                if no_escape(text@) {
                    lemma_appended_trans(old(out)@, mid, out@, seq![Piece::Plain(seq![' '])], seq![Piece::Painted(text@, Color::Yellow, false)]);
                    assert(seq![Piece::Plain(seq![' '])] + seq![Piece::Painted(text@, Color::Yellow, false)] =~= elapsed_pieces(text@));
                }
            }
        } else {
            out.append(text);
            proof {
                reveal_strlit(" ");
                assert(out@ =~= old(out)@ + " "@ + text@);
            }
        }
        assert(old(out)@.is_prefix_of(out@)) by {
            assert(out@.take(old(out)@.len() as int) =~= old(out)@);
        }
    }

    /// Appends `text` in the color of `level`.
    pub fn text(self, out: &mut String, text: &str, level: usize)
        ensures
            old(out)@.is_prefix_of(final(out)@),
            !self.colored ==> final(out)@ == old(out)@ + text@,
            self.colored && no_escape(text@) ==> appended(
                old(out)@,
                final(out)@,
                seq![Piece::Painted(text@, spec_color_of_level(level), false)],
            ),
    {
        if self.colored {
            put_painted(out, text, color_of_level(level), false);
        } else {
            out.append(text);
        }
        assert(old(out)@.is_prefix_of(out@)) by {
            assert(out@.take(old(out)@.len() as int) =~= old(out)@);
        }
    }
}

impl Default for Format {
    fn default() -> (f: Format)
        ensures
            f == Format::spec_default(),
    {
        Format::new()
    }
}

} // verus!
