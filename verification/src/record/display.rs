//! Text display of a record.

use super::Record;
use crate::add::push_char;
use crate::format::{message_pieces, put_char};
use crate::entry::Time;
use crate::format::{
    elapsed_text, nanos_between, all_no_escape, appended, decimal, default_st_fmt, elapsed_part, elapsed_part_pieces, labels_pieces, labels_text, lemma_appended_none,
    lemma_appended_trans, message_part, message_part_pieces, no_escape, position_pieces, shows, views, Format, Piece,
};
use crate::At;
use vstd::prelude::*;

verus! {

/// The saved position of a record whose saved index is `saved`.
pub open spec fn saved_at(saved: Option<usize>) -> Option<At> {
    match saved {
        Some(s) => Some(At { root: 0, index: s }),
        None => None,
    }
}

/// The line of position `index` without colors. `entry` holds the message
/// text and the elapsed-time text of the entry at that position, if there is
/// one; `current` and `saved` are the record's index and saved index.
pub open spec fn list_text(
    f: Format,
    index: usize,
    entry: Option<(Seq<char>, Seq<char>)>,
    current: usize,
    saved: Option<usize>,
) -> Seq<char> {
    decimal(index as nat) + elapsed_part(f, entry)
        + labels_text(f, At { root: 0, index }, At { root: 0, index: current }, saved_at(saved))
        + message_part(f, entry, None)
}

/// The lines of the positions `k` down to 0 without colors, with the message
/// texts `texts` and the elapsed-time texts `elapsed` of the entries.
pub open spec fn record_text(
    f: Format,
    texts: Seq<Seq<char>>,
    elapsed: Seq<Seq<char>>,
    k: nat,
    current: usize,
    saved: Option<usize>,
) -> Seq<char>
    decreases k,
{
    if k == 0 {
        list_text(f, 0, None, current, saved)
    } else {
        list_text(f, k as usize, Some((texts[k - 1], elapsed[k - 1])), current, saved)
            + record_text(f, texts, elapsed, (k - 1) as nat, current, saved)
    }
}

/// The colored pieces of the line of position `index` (see `list_text`).
pub open spec fn list_pieces(
    f: Format,
    index: usize,
    entry: Option<(Seq<char>, Seq<char>)>,
    current: usize,
    saved: Option<usize>,
) -> Seq<Piece> {
    position_pieces(At { root: 0, index }, false) + elapsed_part_pieces(f, entry)
        + labels_pieces(f, At { root: 0, index }, At { root: 0, index: current }, saved_at(saved))
        + message_part_pieces(f, entry, None)
}

/// The colored pieces of the lines of the positions `k` down to 0 (see
/// `record_text`).
pub open spec fn record_pieces(
    f: Format,
    texts: Seq<Seq<char>>,
    elapsed: Seq<Seq<char>>,
    k: nat,
    current: usize,
    saved: Option<usize>,
) -> Seq<Piece>
    decreases k,
{
    if k == 0 {
        list_pieces(f, 0, None, current, saved)
    } else {
        list_pieces(f, k as usize, Some((texts[k - 1], elapsed[k - 1])), current, saved)
            + record_pieces(f, texts, elapsed, (k - 1) as nat, current, saved)
    }
}

/// Configurable display formatting for a record.
pub struct Display<'a, E, S> {
    record: &'a Record<E, S>,
    format: Format,
}

impl<'a, E, S> Display<'a, E, S> {
    /// The displayed record.
    pub closed spec fn spec_record(&self) -> Record<E, S> {
        *self.record
    }

    /// The parts of the display that are shown.
    pub closed spec fn spec_format(&self) -> Format {
        self.format
    }

    /// A display of `record` that shows everything, in color.
    pub fn new(record: &'a Record<E, S>) -> (d: Display<'a, E, S>)
        ensures
            d.spec_record() == *record,
            d.spec_format() == Format::spec_default(),
    {
        Display { record, format: Format::new() }
    }

    /// Shows colored output, or not (on by default).
    pub fn colored(&mut self, on: bool) -> (d: &mut Self)
        ensures
            d.spec_record() == old(self).spec_record(),
            d.spec_format() == (Format { colored: on, ..old(self).spec_format() }),
            *final(self) == *final(d),
    {
        self.format.colored = on;
        self
    }

    /// Shows detailed output, or not (on by default).
    pub fn detailed(&mut self, on: bool) -> (d: &mut Self)
        ensures
            d.spec_record() == old(self).spec_record(),
            d.spec_format() == (Format { detailed: on, ..old(self).spec_format() }),
            *final(self) == *final(d),
    {
        self.format.detailed = on;
        self
    }

    /// Shows the current position, or not (on by default).
    pub fn head(&mut self, on: bool) -> (d: &mut Self)
        ensures
            d.spec_record() == old(self).spec_record(),
            d.spec_format() == (Format { head: on, ..old(self).spec_format() }),
            *final(self) == *final(d),
    {
        self.format.head = on;
        self
    }

    /// Shows the saved position, or not (on by default).
    pub fn saved(&mut self, on: bool) -> (d: &mut Self)
        ensures
            d.spec_record() == old(self).spec_record(),
            d.spec_format() == (Format { saved: on, ..old(self).spec_format() }),
            *final(self) == *final(d),
    {
        self.format.saved = on;
        self
    }

    /// Appends the line of position `index`; `entry` holds the message text
    /// and the elapsed-time text of the entry there, if there is one.
    #[verifier::rlimit(40)]
    fn fmt_list(&self, out: &mut String, index: usize, entry: Option<(&str, &str)>)
        ensures
            !self.format.colored ==> final(out)@ == old(out)@ + list_text(
                self.format,
                index,
                match entry {
                    Some(e) => Some((e.0@, e.1@)),
                    None => None,
                },
                self.record.model().index,
                self.record.model().saved,
            ),
            self.format.colored && (entry matches Some(e) ==> no_escape(e.1@)) ==> appended(
                old(out)@,
                final(out)@,
                list_pieces(
                    self.format,
                    index,
                    match entry {
                        Some(e) => Some((e.0@, e.1@)),
                        None => None,
                    },
                    self.record.model().index,
                    self.record.model().saved,
                ),
            ),
    {
        let f = self.format;
        let ghost ev = match entry {
            Some(e) => Some((e.0@, e.1@)),
            None => None,
        };
        let ghost s0 = out@;
        f.position(out, At::root(index), false);
        let ghost s1 = out@;
        match entry {
            Some(e) => {
                if f.detailed {
                    f.elapsed(out, e.1);
                }
            },
            None => {},
        }
        proof {
            reveal_strlit(" ");
            if !f.colored {
                assert(out@ =~= s1 + elapsed_part(f, ev));
            }
            if !(entry is Some && f.detailed) {
                lemma_appended_none(s1);
            }
        }
        let ghost s2 = out@;
        let saved = match self.record.saved_index() {
            Some(s) => Some(At::root(s)),
            None => None,
        };
        f.labels(out, At::root(index), At::root(self.record.index()), saved);
        let ghost s3 = out@;
        match entry {
            Some(e) => {
                if f.detailed {
                    put_char(out, '\n');
                    let ghost s4 = out@;
                    f.message(out, e.0, None);
                    proof {
                        if f.colored {
                            lemma_appended_trans(s3, s4, out@, seq![Piece::Plain(seq!['\n'])], message_pieces(true, e.0@, None));
                        }
                    }
                } else {
                    put_char(out, ' ');
                    let ghost s4 = out@;
                    f.message(out, e.0, None);
                    let ghost s5 = out@;
                    put_char(out, '\n');
                    proof {
                        if f.colored {
                            let p1 = seq![Piece::Plain(seq![' '])];
                            let p2 = message_pieces(false, e.0@, None);
                            lemma_appended_trans(s3, s4, s5, p1, p2);
                            lemma_appended_trans(s3, s5, out@, p1 + p2, seq![Piece::Plain(seq!['\n'])]);
                        }
                    }
                }
            },
            None => {
                proof {
                    lemma_appended_none(s3);
                }
            },
        }
        proof {
            if f.colored && (entry matches Some(e) ==> no_escape(e.1@)) {
                let cur = self.record.model().index;
                let sv = self.record.model().saved;
                let p1 = position_pieces(At { root: 0, index }, false);
                let p2 = elapsed_part_pieces(f, ev);
                let p3 = labels_pieces(f, At { root: 0, index }, At { root: 0, index: cur }, saved_at(sv));
                let p4 = message_part_pieces(f, ev, None);
                lemma_appended_trans(s0, s1, s2, p1, p2);
                lemma_appended_trans(s0, s2, s3, p1 + p2, p3);
                lemma_appended_trans(s0, s3, out@, p1 + p2 + p3, p4);
            }
            if !f.colored {
                assert(out@ =~= s3 + message_part(f, ev, None));
                let lab = labels_text(f, At { root: 0, index }, At { root: 0, index: self.record.model().index }, saved_at(self.record.model().saved));
                assert(s3 == s2 + lab);
                assert(s1 == s0 + decimal(index as nat));
                assert(out@ =~= s0 + list_text(f, index, ev, self.record.model().index, self.record.model().saved));
            }
        }
    }

    /// The display text with the message texts `texts` and the elapsed-time
    /// texts `elapsed` of the entries, oldest first: the positions from the
    /// newest down to 0, one after the other.
    pub fn render(&self, texts: &Vec<String>, elapsed: &Vec<String>) -> (s: String)
        requires
            self.spec_record().wf(),
            texts@.len() == self.spec_record().model().entries.len(),
            elapsed@.len() == self.spec_record().model().entries.len(),
        ensures
            !self.spec_format().colored ==> s@ == record_text(
                self.spec_format(),
                views(texts@),
                views(elapsed@),
                self.spec_record().model().entries.len(),
                self.spec_record().model().index,
                self.spec_record().model().saved,
            ),
            self.spec_format().colored && all_no_escape(views(elapsed@)) ==> shows(s@, record_pieces(
                self.spec_format(),
                views(texts@),
                views(elapsed@),
                self.spec_record().model().entries.len(),
                self.spec_record().model().index,
                self.spec_record().model().saved,
            )),
    {
        let ghost f = self.format;
        let ghost m = self.record.model();
        let ghost ts = views(texts@);
        let ghost es = views(elapsed@);
        let ghost n = m.entries.len();
        let mut out = String::new();
        let mut i = self.record.len();
        let ghost mut acc: Seq<Piece> = Seq::empty();
        proof {
            lemma_appended_none(out@);
            assert(acc + record_pieces(f, ts, es, n, m.index, m.saved) =~= record_pieces(f, ts, es, n, m.index, m.saved));
        }
        while i > 0
            invariant
                i <= n,
                n == m.entries.len(),
                m == self.record.model(),
                f == self.format,
                ts == views(texts@),
                es == views(elapsed@),
                texts@.len() == n,
                elapsed@.len() == n,
                !f.colored ==> out@ + record_text(f, ts, es, i as nat, m.index, m.saved) == record_text(f, ts, es, n, m.index, m.saved),
                f.colored && all_no_escape(es) ==> appended(Seq::empty(), out@, acc),
                acc + record_pieces(f, ts, es, i as nat, m.index, m.saved) == record_pieces(f, ts, es, n, m.index, m.saved),
            decreases i,
        {
            let ghost before = out@;
            proof {
                if f.colored && all_no_escape(es) {
                    assert(no_escape(es[i - 1]));
                    assert(es[i - 1] == elapsed@[i - 1]@);
                }
            }
            self.fmt_list(&mut out, i, Some((texts[i - 1].as_str(), elapsed[i - 1].as_str())));
            proof {
                let lp = list_pieces(f, i as usize, Some((ts[i - 1], es[i - 1])), m.index, m.saved);
                assert(ts[i - 1] == texts@[i - 1]@);
                assert(es[i - 1] == elapsed@[i - 1]@);
                if f.colored && all_no_escape(es) {
                    lemma_appended_trans(Seq::empty(), before, out@, acc, lp);
                }
                assert(acc + record_pieces(f, ts, es, i as nat, m.index, m.saved)
                    =~= (acc + lp) + record_pieces(f, ts, es, (i - 1) as nat, m.index, m.saved));
                acc = acc + lp;
                if !f.colored {
                    assert(ts[i - 1] == texts@[i - 1]@);
                    assert(es[i - 1] == elapsed@[i - 1]@);
                    assert(before + record_text(f, ts, es, i as nat, m.index, m.saved) =~= out@ + record_text(f, ts, es, (i - 1) as nat, m.index, m.saved));
                }
            }
            i = i - 1;
        }
        let ghost before = out@;
        self.fmt_list(&mut out, 0, None);
        proof {
            if !f.colored {
                assert(out@ =~= record_text(f, ts, es, n, m.index, m.saved));
            }
            if f.colored && all_no_escape(es) {
                let lp = list_pieces(f, 0, None, m.index, m.saved);
                lemma_appended_trans(Seq::empty(), before, out@, acc, lp);
                assert(acc + lp =~= record_pieces(f, ts, es, n, m.index, m.saved));
                assert(out@.skip(0) =~= out@);
            }
        }
        out
    }
}

impl<'a, E: std::fmt::Display, S> Display<'a, E, S> {
    /// The display text: the positions from the newest down to 0, each with
    /// its labels and, for an entry, the time elapsed since it last changed
    /// and its message.
    pub fn to_string(&self) -> (s: String)
        requires
            self.spec_record().wf(),
        ensures
            exists|texts: Seq<String>, elapsed: Seq<String>, now: Time|
                #![trigger views(texts), views(elapsed), now.spec_nanos()]
                texts.len() == self.spec_record().model().entries.len()
                && elapsed.len() == self.spec_record().model().entries.len()
                && (forall|i: int| 0 <= i < elapsed.len() ==> #[trigger] elapsed[i]@ == elapsed_text(nanos_between(
                    now.spec_nanos(),
                    self.spec_record().model().entries[i].spec_latest_nanos(),
                )))
                && (forall|i: int| 0 <= i < texts.len() ==>
                    vstd::string::to_string_from_display_ensures(&#[trigger] self.spec_record().actions()[i], texts[i]))
                && (!self.spec_format().colored ==> s@ == record_text(
                    self.spec_format(),
                    views(texts),
                    views(elapsed),
                    self.spec_record().model().entries.len(),
                    self.spec_record().model().index,
                    self.spec_record().model().saved,
                ))
                && (self.spec_format().colored && all_no_escape(views(elapsed)) ==> shows(s@, record_pieces(
                    self.spec_format(),
                    views(texts),
                    views(elapsed),
                    self.spec_record().model().entries.len(),
                    self.spec_record().model().index,
                    self.spec_record().model().saved,
                ))),
    {
        let now = Time::now();
        let n = self.record.len();
        let mut texts: Vec<String> = Vec::new();
        let mut elapsed: Vec<String> = Vec::new();
        let mut i: usize = 0;
        while i < n
            invariant
                i <= n,
                n == self.record.model().entries.len(),
                texts@.len() == i,
                elapsed@.len() == i,
                forall|k: int| 0 <= k < i ==>
                    vstd::string::to_string_from_display_ensures(&#[trigger] self.record.actions()[k], texts@[k]),
                forall|k: int| 0 <= k < i ==> #[trigger] elapsed@[k]@ == elapsed_text(nanos_between(
                    now.spec_nanos(),
                    self.record.model().entries[k].spec_latest_nanos(),
                )),
            decreases n - i,
        {
            let e = self.record.get_entry(i).unwrap();
            texts.push(e.get().to_string());
            let t = e.st_of_latest();
            elapsed.push(default_st_fmt(now, t));
            proof {
                assert(*e == self.record.model().entries[i as int]);
                assert(self.record.actions()[i as int] == self.record.model().entries[i as int].spec_edit());
            }
            i = i + 1;
        }
        let s = self.render(&texts, &elapsed);
        assert(views(texts@) == views(texts@));
        assert(now.spec_nanos() == now.spec_nanos());
        s
    }
}

impl<E, S> Record<E, S> {
    /// Returns a structure for configurable formatting of the record.
    pub fn display(&self) -> (d: Display<'_, E, S>)
        ensures
            d.spec_record() == *self,
            d.spec_format() == Format::spec_default(),
    {
        Display::new(self)
    }
}

} // verus!
