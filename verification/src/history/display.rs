//! Text display of a history: its tree of branches as a graph.

use super::{slab_keys, slab_keys_in_order, Branch, History};
use crate::add::push_char;
use crate::entry::{Entry, Time};
use crate::format::{
    elapsed_text, nanos_between, all_no_escape, appended, decimal, default_st_fmt, edges_before, elapsed_part, elapsed_part_pieces, indent_pieces,
    labels_pieces, labels_text, lemma_appended_none, lemma_appended_trans, mark_pieces, message_part, message_part_pieces,
    message_pieces, no_escape, position_pieces, put_char, shows, split_pieces, views, Format, Piece,
};
use crate::At;
use vstd::prelude::*;

verus! {

/// The numbers of `v` grow strictly.
pub open spec fn increasing(v: Seq<usize>) -> bool {
    forall|i: int, j: int| 0 <= i < j < v.len() ==> v[i] < v[j]
}

/// The numbers of `s` in increasing order.
pub open spec fn sorted_keys(s: Set<usize>) -> Seq<usize> {
    choose|v: Seq<usize>| increasing(v) && forall|k: usize| s.contains(k) <==> v.contains(k)
}

/// Two sequences that grow strictly and hold the same numbers are equal.
proof fn lemma_increasing_unique(a: Seq<usize>, b: Seq<usize>)
    requires
        increasing(a),
        increasing(b),
        forall|k: usize| a.contains(k) <==> b.contains(k),
    ensures
        a == b,
    decreases a.len(),
{
    if a.len() == 0 {
        if b.len() > 0 {
            assert(b.contains(b[0]));
        }
    } else {
        assert(a.contains(a[0]));
        assert(b.len() > 0);
        assert(b.contains(b[0]));
        let i = choose|i: int| 0 <= i < b.len() && b[i] == a[0];
        let j = choose|j: int| 0 <= j < a.len() && a[j] == b[0];
        assert(a[0] == b[0]);
        let a1 = a.drop_first();
        let b1 = b.drop_first();
        assert forall|k: usize| a1.contains(k) <==> b1.contains(k) by {
            if a1.contains(k) {
                let m = choose|m: int| 0 <= m < a1.len() && a1[m] == k;
                assert(a[m + 1] == k);
                assert(b.contains(k));
                let n = choose|n: int| 0 <= n < b.len() && b[n] == k;
                assert(n != 0);
                assert(b1[n - 1] == k);
            }
            if b1.contains(k) {
                let m = choose|m: int| 0 <= m < b1.len() && b1[m] == k;
                assert(b[m + 1] == k);
                assert(a.contains(k));
                let n = choose|n: int| 0 <= n < a.len() && a[n] == k;
                assert(n != 0);
                assert(a1[n - 1] == k);
            }
        }
        lemma_increasing_unique(a1, b1);
        assert(a =~= seq![a[0]] + a1);
        assert(b =~= seq![b[0]] + b1);
    }
}

/// A row of the graph.
pub enum Row<'a, E> {
    /// The node of position `at` at nesting level `level`, with the entry
    /// there, if there is one.
    Node { at: At, level: usize, entry: Option<&'a Entry<E>> },
    /// The line where a branch splits off at nesting level `level`.
    Split { level: usize },
}

/// A row of the graph as a value.
pub enum SpecRow<E> {
    /// A node: its position, its level and its entry.
    Node(At, nat, Option<Entry<E>>),
    /// A split at a level.
    Split(nat),
}

/// The value of a row.
pub open spec fn row_view<'a, E>(r: Row<'a, E>) -> SpecRow<E> {
    match r {
        Row::Node { at, level, entry } => SpecRow::Node(at, level as nat, match entry {
            Some(e) => Some(*e),
            None => None,
        }),
        Row::Split { level } => SpecRow::Split(level as nat),
    }
}

/// The values of some rows.
pub open spec fn rows_view<'a, E>(v: Seq<Row<'a, E>>) -> Seq<SpecRow<E>> {
    v.map_values(|r: Row<'a, E>| row_view(r))
}

/// The index of the `j`-th entry (from 0) of a branch that starts after
/// `start` entries; it wraps around as `usize` addition does.
pub open spec fn entry_index(start: usize, j: nat) -> usize {
    if start + j + 1 > usize::MAX {
        (start + j + 1 - usize::MAX - 1) as usize
    } else {
        (start + j + 1) as usize
    }
}

/// The rows of position `at` with entry `entry` at level `level`: first, for
/// each branch that starts at `at` in increasing order of id, the rows of its
/// entries from the newest down, one level deeper, and a split; then the node
/// itself. `ids` are the ids of the branches in increasing order; at most
/// `fuel` levels below `at` are shown.
pub open spec fn graph_rows<E>(
    ids: Seq<usize>,
    br: Map<usize, Branch<E>>,
    at: At,
    entry: Option<Entry<E>>,
    level: nat,
    fuel: nat,
) -> Seq<SpecRow<E>>
    decreases fuel, ids.len() + 1, 0nat,
{
    (if fuel == 0 {
        Seq::empty()
    } else {
        child_rows(ids, br, at, level, fuel, 0)
    }) + seq![SpecRow::Node(at, level, entry)]
}

/// The rows of the branches `ids[p..]` that start at `at`.
pub open spec fn child_rows<E>(
    ids: Seq<usize>,
    br: Map<usize, Branch<E>>,
    at: At,
    level: nat,
    fuel: nat,
    p: nat,
) -> Seq<SpecRow<E>>
    decreases fuel, ids.len() - p, br[ids[p as int]].spec_entries().len() + 1,
{
    if p >= ids.len() || fuel == 0 {
        Seq::empty()
    } else if br[ids[p as int]].spec_parent() == at {
        branch_rows(ids, br, at, level, fuel, p, br[ids[p as int]].spec_entries().len()) + seq![
            SpecRow::Split(level),
        ] + child_rows(ids, br, at, level, fuel, p + 1)
    } else {
        child_rows(ids, br, at, level, fuel, p + 1)
    }
}

/// The rows of the entries `j - 1` down to 0 of the branch `ids[p]`.
pub open spec fn branch_rows<E>(
    ids: Seq<usize>,
    br: Map<usize, Branch<E>>,
    at: At,
    level: nat,
    fuel: nat,
    p: nat,
    j: nat,
) -> Seq<SpecRow<E>>
    decreases fuel, ids.len() - p, j,
{
    if j == 0 || fuel == 0 || p >= ids.len() {
        Seq::empty()
    } else {
        let c = ids[p as int];
        let b = br[c];
        graph_rows(
            ids,
            br,
            At { root: c, index: entry_index(b.spec_parent().index, (j - 1) as nat) },
            Some(b.spec_entries()[j - 1]),
            level + 1,
            (fuel - 1) as nat,
        ) + branch_rows(ids, br, at, level, fuel, p, (j - 1) as nat)
    }
}

/// The rows of the positions `k` down to 0 of the current branch `root`,
/// whose entries are `entries`.
pub open spec fn top_rows<E>(
    ids: Seq<usize>,
    br: Map<usize, Branch<E>>,
    root: usize,
    entries: Seq<Entry<E>>,
    fuel: nat,
    k: nat,
) -> Seq<SpecRow<E>>
    decreases k,
{
    if k == 0 {
        graph_rows(ids, br, At { root, index: 0 }, None, 0, fuel)
    } else {
        graph_rows(ids, br, At { root, index: k as usize }, Some(entries[k - 1]), 0, fuel)
            + top_rows(ids, br, root, entries, fuel, (k - 1) as nat)
    }
}

/// The rows of the graph of `h`: the positions of the current branch from the
/// newest down to 0, each after the branches that start there. At most as
/// many levels as there are branches are shown.
pub open spec fn history_rows<E, S>(h: History<E, S>) -> Seq<SpecRow<E>> {
    let ids = sorted_keys(h.spec_ids());
    top_rows(
        ids,
        h.spec_branches(),
        h.spec_root(),
        h.spec_record().model().entries,
        ids.len(),
        h.spec_record().model().entries.len(),
    )
}

/// The text of a row without colors. `texts` holds the message text and the
/// elapsed-time text of the row's entry; `head` and `saved` are the current
/// and the saved position; positions are shown when `show` holds.
pub open spec fn row_text<E>(
    f: Format,
    show: bool,
    row: SpecRow<E>,
    texts: (Seq<char>, Seq<char>),
    head: At,
    saved: Option<At>,
) -> Seq<char> {
    match row {
        SpecRow::Node(at, level, entry) => node_text(f, show, at, level, match entry {
            Some(_) => Some(texts),
            None => None,
        }, head, saved),
        SpecRow::Split(level) => edges_before(level) + seq!['|', '/', '\n'],
    }
}

/// The start of the text of the node of position `at` at level `level`; the
/// position is shown when `show` holds.
pub open spec fn node_start(at: At, level: nat, show: bool) -> Seq<char> {
    edges_before(level) + seq!['*', ' '] + if show {
        decimal(at.root as nat) + seq![':'] + decimal(at.index as nat)
    } else {
        Seq::empty()
    }
}

/// The text of the node of position `at` at level `level` without colors;
/// `e` holds the message text and the elapsed-time text of its entry, if it
/// has one.
pub open spec fn node_text(
    f: Format,
    show: bool,
    at: At,
    level: nat,
    e: Option<(Seq<char>, Seq<char>)>,
    head: At,
    saved: Option<At>,
) -> Seq<char> {
    node_start(at, level, show) + elapsed_part(f, e) + labels_text(f, at, head, saved) + message_part(f, e, Some(level as usize))
}

/// The text of the first `k` rows without colors.
pub open spec fn rows_text<E>(
    f: Format,
    show: bool,
    rows: Seq<SpecRow<E>>,
    texts: Seq<Seq<char>>,
    elapsed: Seq<Seq<char>>,
    head: At,
    saved: Option<At>,
    k: nat,
) -> Seq<char>
    decreases k,
{
    if k == 0 {
        Seq::empty()
    } else {
        rows_text(f, show, rows, texts, elapsed, head, saved, (k - 1) as nat) + row_text(
            f,
            show,
            rows[k - 1],
            (texts[k - 1], elapsed[k - 1]),
            head,
            saved,
        )
    }
}

/// The colored pieces of the start of the node of position `at` at level
/// `level` (see `node_start`).
pub open spec fn node_start_pieces(at: At, level: nat, show: bool) -> Seq<Piece> {
    indent_pieces(level) + mark_pieces(level as usize) + if show {
        position_pieces(at, true)
    } else {
        Seq::empty()
    }
}

/// The colored pieces of the node of position `at` at level `level` (see
/// `node_text`).
pub open spec fn node_pieces(
    f: Format,
    show: bool,
    at: At,
    level: nat,
    e: Option<(Seq<char>, Seq<char>)>,
    head: At,
    saved: Option<At>,
) -> Seq<Piece> {
    node_start_pieces(at, level, show) + elapsed_part_pieces(f, e) + labels_pieces(f, at, head, saved)
        + message_part_pieces(f, e, Some(level as usize))
}

/// The colored pieces of a row (see `row_text`).
pub open spec fn row_pieces<E>(
    f: Format,
    show: bool,
    row: SpecRow<E>,
    texts: (Seq<char>, Seq<char>),
    head: At,
    saved: Option<At>,
) -> Seq<Piece> {
    match row {
        SpecRow::Node(at, level, entry) => node_pieces(f, show, at, level, match entry {
            Some(_) => Some(texts),
            None => None,
        }, head, saved),
        SpecRow::Split(level) => indent_pieces(level) + split_pieces(level as usize) + seq![Piece::Plain(seq!['\n'])],
    }
}

/// The colored pieces of the first `k` rows (see `rows_text`).
pub open spec fn rows_pieces<E>(
    f: Format,
    show: bool,
    rows: Seq<SpecRow<E>>,
    texts: Seq<Seq<char>>,
    elapsed: Seq<Seq<char>>,
    head: At,
    saved: Option<At>,
    k: nat,
) -> Seq<Piece>
    decreases k,
{
    if k == 0 {
        Seq::empty()
    } else {
        rows_pieces(f, show, rows, texts, elapsed, head, saved, (k - 1) as nat) + row_pieces(
            f,
            show,
            rows[k - 1],
            (texts[k - 1], elapsed[k - 1]),
            head,
            saved,
        )
    }
}

/// The message text `texts[i]` and the elapsed-time text `elapsed[i]` belong
/// to the `i`-th of `rows` where that row is a node with an entry: the text
/// of its action and the time elapsed from its apply time to `now`.
pub open spec fn node_texts<E: std::fmt::Display>(rows: Seq<SpecRow<E>>, texts: Seq<String>, elapsed: Seq<String>, now: Time) -> bool {
    &&& texts.len() >= rows.len()
    &&& elapsed.len() >= rows.len()
    &&& forall|i: int| 0 <= i < rows.len() ==> (#[trigger] rows[i] matches SpecRow::Node(_, _, Some(e))
        ==> vstd::string::to_string_from_display_ensures(&e.spec_edit(), texts[i])
            && elapsed[i]@ == elapsed_text(nanos_between(now.spec_nanos(), e.spec_st_edit().spec_nanos())))
}

/// Configurable display formatting for a history.
pub struct Display<'a, E, S> {
    history: &'a History<E, S>,
    format: Format,
    position: bool,
}

impl<'a, E, S> Display<'a, E, S> {
    /// The displayed history.
    pub closed spec fn spec_history(&self) -> History<E, S> {
        *self.history
    }

    /// The parts of the display that are shown.
    pub closed spec fn spec_format(&self) -> Format {
        self.format
    }

    /// Whether the positions of the nodes are shown.
    pub closed spec fn spec_position(&self) -> bool {
        self.position
    }

    /// The current position of the displayed history.
    pub open spec fn spec_head(&self) -> At {
        At { root: self.spec_history().spec_root(), index: self.spec_history().spec_record().model().index }
    }

    /// The saved position of the displayed history.
    pub open spec fn spec_saved(&self) -> Option<At> {
        match self.spec_history().spec_record().model().saved {
            Some(i) => Some(At { root: self.spec_history().spec_root(), index: i }),
            None => self.spec_history().spec_saved(),
        }
    }

    /// A display of `history` that shows everything, in color.
    pub fn new(history: &'a History<E, S>) -> (d: Display<'a, E, S>)
        ensures
            d.spec_history() == *history,
            d.spec_format() == Format::spec_default(),
            d.spec_position(),
    {
        Display { history, format: Format::new(), position: true }
    }

    /// Shows colored output, or not (on by default).
    pub fn colored(&mut self, on: bool) -> (d: &mut Self)
        ensures
            d.spec_history() == old(self).spec_history(),
            d.spec_format() == (Format { colored: on, ..old(self).spec_format() }),
            d.spec_position() == old(self).spec_position(),
            *final(self) == *final(d),
    {
        self.format.colored = on;
        self
    }

    /// Shows detailed output, or not (on by default).
    pub fn detailed(&mut self, on: bool) -> (d: &mut Self)
        ensures
            d.spec_history() == old(self).spec_history(),
            d.spec_format() == (Format { detailed: on, ..old(self).spec_format() }),
            d.spec_position() == old(self).spec_position(),
            *final(self) == *final(d),
    {
        self.format.detailed = on;
        self
    }

    /// Shows the current position, or not (on by default).
    pub fn current(&mut self, on: bool) -> (d: &mut Self)
        ensures
            d.spec_history() == old(self).spec_history(),
            d.spec_format() == (Format { head: on, ..old(self).spec_format() }),
            d.spec_position() == old(self).spec_position(),
            *final(self) == *final(d),
    {
        self.format.head = on;
        self
    }

    /// Shows the saved position, or not (on by default).
    pub fn saved(&mut self, on: bool) -> (d: &mut Self)
        ensures
            d.spec_history() == old(self).spec_history(),
            d.spec_format() == (Format { saved: on, ..old(self).spec_format() }),
            d.spec_position() == old(self).spec_position(),
            *final(self) == *final(d),
    {
        self.format.saved = on;
        self
    }

    /// Shows the positions of the nodes, or not (on by default).
    pub fn position(&mut self, on: bool) -> (d: &mut Self)
        ensures
            d.spec_history() == old(self).spec_history(),
            d.spec_format() == old(self).spec_format(),
            d.spec_position() == on,
            *final(self) == *final(d),
    {
        self.position = on;
        self
    }

    /// Appends the rows of position `at` (see `graph_rows`).
    fn graph(
        &self,
        ids: &Vec<usize>,
        rows: &mut Vec<Row<'a, E>>,
        at: At,
        entry: Option<&'a Entry<E>>,
        level: usize,
        fuel: usize,
    )
        requires
            self.history.wf(),
            forall|i: int| 0 <= i < ids@.len() ==> self.history.spec_ids().contains(#[trigger] ids@[i]),
            level + fuel < usize::MAX,
        ensures
            rows_view(final(rows)@) == rows_view(old(rows)@) + graph_rows(
                ids@,
                self.history.spec_branches(),
                at,
                match entry {
                    Some(e) => Some(*e),
                    None => None,
                },
                level as nat,
                fuel as nat,
            ),
        decreases fuel, ids@.len() + 1, 0nat,
    {
        let ghost before = old(rows)@;
        if fuel > 0 {
            self.children(ids, rows, at, level, fuel, 0);
        }
        rows.push(Row::Node { at, level, entry });
        proof {
            let e = match entry {
                Some(e) => Some(*e),
                None => None,
            };
            let kids = if fuel == 0 {
                Seq::empty()
            } else {
                child_rows(ids@, self.history.spec_branches(), at, level as nat, fuel as nat, 0)
            };
            assert(rows_view(rows@) =~= rows_view(before) + kids + seq![SpecRow::Node(at, level as nat, e)]);
        }
    }

    /// Appends the rows of the branches `ids[p..]` that start at `at`.
    fn children(&self, ids: &Vec<usize>, rows: &mut Vec<Row<'a, E>>, at: At, level: usize, fuel: usize, p: usize)
        requires
            self.history.wf(),
            forall|i: int| 0 <= i < ids@.len() ==> self.history.spec_ids().contains(#[trigger] ids@[i]),
            level + fuel < usize::MAX,
            fuel > 0,
            p <= ids@.len(),
        ensures
            rows_view(final(rows)@) == rows_view(old(rows)@) + child_rows(
                ids@,
                self.history.spec_branches(),
                at,
                level as nat,
                fuel as nat,
                p as nat,
            ),
        decreases fuel, ids@.len() - p, self.history.spec_branches()[ids@[p as int]].spec_entries().len() + 1,
    {
        if p >= ids.len() {
            assert(rows_view(rows@) =~= rows_view(old(rows)@) + Seq::<SpecRow<E>>::empty());
            return;
        }
        let id = ids[p];
        let history: &'a History<E, S> = self.history;
        let b = history.branches.get(&id).unwrap();
        if b.parent.root == at.root && b.parent.index == at.index {
            let n = b.entries.len();
            self.branch(ids, rows, at, level, fuel, p, n);
            rows.push(Row::Split { level });
            let ghost mid = rows@;
            self.children(ids, rows, at, level, fuel, p + 1);
            proof {
                let br = self.history.spec_branches();
                assert(rows_view(mid) =~= rows_view(old(rows)@) + branch_rows(ids@, br, at, level as nat, fuel as nat, p as nat, n as nat) + seq![SpecRow::Split(level as nat)]);
                assert(rows_view(rows@) =~= rows_view(old(rows)@) + child_rows(ids@, br, at, level as nat, fuel as nat, p as nat));
            }
        } else {
            self.children(ids, rows, at, level, fuel, p + 1);
        }
    }

    /// Appends the rows of the entries `j - 1` down to 0 of the branch `ids[p]`.
    fn branch(&self, ids: &Vec<usize>, rows: &mut Vec<Row<'a, E>>, at: At, level: usize, fuel: usize, p: usize, j: usize)
        requires
            self.history.wf(),
            forall|i: int| 0 <= i < ids@.len() ==> self.history.spec_ids().contains(#[trigger] ids@[i]),
            level + fuel < usize::MAX,
            fuel > 0,
            p < ids@.len(),
            j <= self.history.spec_branches()[ids@[p as int]].spec_entries().len(),
        ensures
            rows_view(final(rows)@) == rows_view(old(rows)@) + branch_rows(
                ids@,
                self.history.spec_branches(),
                at,
                level as nat,
                fuel as nat,
                p as nat,
                j as nat,
            ),
        decreases fuel, ids@.len() - p, j,
    {
        if j == 0 {
            assert(rows_view(rows@) =~= rows_view(old(rows)@) + Seq::<SpecRow<E>>::empty());
            return;
        }
        let id = ids[p];
        let history: &'a History<E, S> = self.history;
        let b = history.branches.get(&id).unwrap();
        let index = b.parent.index.wrapping_add(j);
        let e: &'a Entry<E> = &b.entries[j - 1];
        self.graph(ids, rows, At::new(id, index), Some(e), level + 1, fuel - 1);
        let ghost mid = rows@;
        self.branch(ids, rows, at, level, fuel, p, j - 1);
        proof {
            let br = self.history.spec_branches();
            assert(index == entry_index(br[id].spec_parent().index, (j - 1) as nat));
            assert(rows_view(rows@) =~= rows_view(old(rows)@) + branch_rows(ids@, br, at, level as nat, fuel as nat, p as nat, j as nat));
        }
    }

    /// The rows of the graph (see `history_rows`).
    pub fn rows(&self) -> (v: Vec<Row<'a, E>>)
        requires
            self.spec_history().wf(),
        ensures
            rows_view(v@) == history_rows(self.spec_history()),
    {
        let history: &'a History<E, S> = self.history;
        let ids = slab_keys_in_order(&history.ids);
        proof {
            let keys = slab_keys(history.ids);
            assert(increasing(ids@));
            let w = sorted_keys(keys);
            assert(increasing(w) && forall|k: usize| keys.contains(k) <==> w.contains(k));
            lemma_increasing_unique(ids@, w);
            assert forall|i: int| 0 <= i < ids@.len() implies self.history.spec_ids().contains(#[trigger] ids@[i]) by {
                assert(ids@.contains(ids@[i]));
            }
        }
        let fuel = ids.len();
        let root = history.root;
        let mut rows: Vec<Row<'a, E>> = Vec::new();
        let mut k = history.record.len();
        let ghost entries = history.record.model().entries;
        while k > 0
            invariant
                self.history == history,
                history.wf(),
                forall|i: int| 0 <= i < ids@.len() ==> history.spec_ids().contains(#[trigger] ids@[i]),
                ids@ == sorted_keys(history.spec_ids()),
                fuel == ids@.len(),
                fuel < usize::MAX,
                root == history.spec_root(),
                entries == history.spec_record().model().entries,
                k <= entries.len(),
                rows_view(rows@) + top_rows(ids@, history.spec_branches(), root, entries, fuel as nat, k as nat)
                    == history_rows(*history),
            decreases k,
        {
            let ghost before = rows@;
            let e: &'a Entry<E> = history.record.get_entry(k - 1).unwrap();
            self.graph(&ids, &mut rows, At::new(root, k), Some(e), 0, fuel);
            proof {
                let br = history.spec_branches();
                assert(rows_view(before) + top_rows(ids@, br, root, entries, fuel as nat, k as nat)
                    =~= rows_view(rows@) + top_rows(ids@, br, root, entries, (fuel as nat), (k - 1) as nat));
            }
            k = k - 1;
        }
        self.graph(&ids, &mut rows, At::new(root, 0), None, 0, fuel);
        proof {
            assert(rows_view(rows@) =~= history_rows(*history));
        }
        rows
    }
}


impl<'a, E, S> Display<'a, E, S> {
    /// Appends the start of the text of the node of position `at` at level
    /// `level`.
    fn fmt_node_start(&self, out: &mut String, at: At, level: usize)
        ensures
            !self.format.colored ==> final(out)@ == old(out)@ + node_start(at, level as nat, self.position),
            self.format.colored ==> appended(old(out)@, final(out)@, node_start_pieces(at, level as nat, self.position)),
    {
        let f = self.format;
        let ghost s0 = out@;
        f.indent(out, level);
        let ghost s1 = out@;
        f.mark(out, level);
        let ghost s2 = out@;
        if self.position {
            f.position(out, at, true);
        } else {
            proof {
                lemma_appended_none(s2);
            }
        }
        proof {
            if f.colored {
                let p3 = if self.position { position_pieces(at, true) } else { Seq::<Piece>::empty() };
                lemma_appended_trans(s0, s1, s2, indent_pieces(level as nat), mark_pieces(level));
                lemma_appended_trans(s0, s2, out@, indent_pieces(level as nat) + mark_pieces(level), p3);
            }
            reveal_strlit("* ");
            if !f.colored {
                assert(out@ =~= s0 + node_start(at, level as nat, self.position));
            }
        }
    }

    /// Appends the text of the node of position `at` at level `level`;
    /// `texts` holds the message text and the elapsed-time text of its entry
    /// when `has_entry`.
    #[verifier::rlimit(40)]
    fn fmt_node(&self, out: &mut String, at: At, level: usize, has_entry: bool, texts: (&str, &str))
        ensures
            !self.format.colored ==> final(out)@ == old(out)@ + node_text(
                self.format,
                self.position,
                at,
                level as nat,
                if has_entry { Some((texts.0@, texts.1@)) } else { None },
                self.spec_head(),
                self.spec_saved(),
            ),
            self.format.colored && (has_entry ==> no_escape(texts.1@)) ==> appended(
                old(out)@,
                final(out)@,
                node_pieces(
                    self.format,
                    self.position,
                    at,
                    level as nat,
                    if has_entry { Some((texts.0@, texts.1@)) } else { None },
                    self.spec_head(),
                    self.spec_saved(),
                ),
            ),
    {
        let f = self.format;
        let ghost e = if has_entry { Some((texts.0@, texts.1@)) } else { None };
        let ghost s0 = out@;
        self.fmt_node_start(out, at, level);
        let ghost s1 = out@;
        if has_entry && f.detailed {
            f.elapsed(out, texts.1);
        }
        proof {
            reveal_strlit(" ");
            if !f.colored {
                assert(out@ =~= s1 + elapsed_part(f, e));
            }
            if !(has_entry && f.detailed) {
                lemma_appended_none(s1);
            }
        }
        let ghost s2 = out@;
        let head = self.history.head();
        let saved = self.history.saved();
        f.labels(out, at, head, saved);
        let ghost s3 = out@;
        if has_entry {
            if f.detailed {
                put_char(out, '\n');
                let ghost s4 = out@;
                f.message(out, texts.0, Some(level));
                proof {
                    if f.colored {
                        lemma_appended_trans(s3, s4, out@, seq![Piece::Plain(seq!['\n'])], message_pieces(true, texts.0@, Some(level)));
                    }
                }
            } else {
                put_char(out, ' ');
                let ghost s4 = out@;
                f.message(out, texts.0, Some(level));
                let ghost s5 = out@;
                put_char(out, '\n');
                proof {
                    if f.colored {
                        let p1 = seq![Piece::Plain(seq![' '])];
                        let p2 = message_pieces(false, texts.0@, Some(level));
                        lemma_appended_trans(s3, s4, s5, p1, p2);
                        lemma_appended_trans(s3, s5, out@, p1 + p2, seq![Piece::Plain(seq!['\n'])]);
                    }
                }
            }
        } else {
            proof {
                lemma_appended_none(s3);
            }
        }
        proof {
            if f.colored && (has_entry ==> no_escape(texts.1@)) {
                let p1 = node_start_pieces(at, level as nat, self.position);
                let p2 = elapsed_part_pieces(f, e);
                let p3 = labels_pieces(f, at, self.spec_head(), self.spec_saved());
                let p4 = message_part_pieces(f, e, Some(level));
                lemma_appended_trans(s0, s1, s2, p1, p2);
                lemma_appended_trans(s0, s2, s3, p1 + p2, p3);
                lemma_appended_trans(s0, s3, out@, p1 + p2 + p3, p4);
            }
            if !f.colored {
                assert(out@ =~= s3 + message_part(f, e, Some(level)));
                assert(s3 =~= s2 + labels_text(f, at, self.spec_head(), self.spec_saved()));
                assert(s2 =~= s1 + elapsed_part(f, e));
                assert(out@ =~= s0 + node_text(f, self.position, at, level as nat, e, self.spec_head(), self.spec_saved()));
            }
        }
    }

    /// Appends the text of `row`; `texts` holds the message text and the
    /// elapsed-time text of its entry.
    fn fmt_row(&self, out: &mut String, row: &Row<'a, E>, texts: (&str, &str))
        ensures
            !self.format.colored ==> final(out)@ == old(out)@ + row_text(
                self.format,
                self.position,
                row_view(*row),
                (texts.0@, texts.1@),
                self.spec_head(),
                self.spec_saved(),
            ),
            self.format.colored && (row is Node ==> no_escape(texts.1@)) ==> appended(
                old(out)@,
                final(out)@,
                row_pieces(
                    self.format,
                    self.position,
                    row_view(*row),
                    (texts.0@, texts.1@),
                    self.spec_head(),
                    self.spec_saved(),
                ),
            ),
    {
        let f = self.format;
        let ghost s0 = out@;
        match row {
            Row::Node { at, level, entry } => {
                self.fmt_node(out, *at, *level, entry.is_some(), texts);
            },
            Row::Split { level } => {
                f.indent(out, *level);
                let ghost s1 = out@;
                f.split(out, *level);
                let ghost s2 = out@;
                put_char(out, '\n');
                proof {
                    if f.colored {
                        let p1 = indent_pieces(*level as nat);
                        let p2 = split_pieces(*level);
                        lemma_appended_trans(s0, s1, s2, p1, p2);
                        lemma_appended_trans(s0, s2, out@, p1 + p2, seq![Piece::Plain(seq!['\n'])]);
                    }
                    reveal_strlit("|/");
                    if !f.colored {
                        assert(out@ =~= s0 + row_text(f, self.position, row_view(*row), (texts.0@, texts.1@), self.spec_head(), self.spec_saved()));
                    }
                }
            },
        }
    }

    /// The display text of `rows` with the message texts `texts` and the
    /// elapsed-time texts `elapsed` of their entries: the rows one after the
    /// other.
    pub fn render(&self, rows: &Vec<Row<'a, E>>, texts: &Vec<String>, elapsed: &Vec<String>) -> (s: String)
        requires
            texts@.len() == rows@.len(),
            elapsed@.len() == rows@.len(),
        ensures
            !self.spec_format().colored ==> s@ == rows_text(
                self.spec_format(),
                self.spec_position(),
                rows_view(rows@),
                views(texts@),
                views(elapsed@),
                self.spec_head(),
                self.spec_saved(),
                rows@.len(),
            ),
            self.spec_format().colored && all_no_escape(views(elapsed@)) ==> shows(s@, rows_pieces(
                self.spec_format(),
                self.spec_position(),
                rows_view(rows@),
                views(texts@),
                views(elapsed@),
                self.spec_head(),
                self.spec_saved(),
                rows@.len(),
            )),
    {
        let ghost f = self.format;
        let ghost rv = rows_view(rows@);
        let ghost ts = views(texts@);
        let ghost es = views(elapsed@);
        let mut out = String::new();
        let mut i: usize = 0;
        proof {
            lemma_appended_none(out@);
        }
        while i < rows.len()
            invariant
                i <= rows@.len(),
                f == self.format,
                f.colored && all_no_escape(es) ==> appended(
                    Seq::empty(),
                    out@,
                    rows_pieces(f, self.position, rv, ts, es, self.spec_head(), self.spec_saved(), i as nat),
                ),
                rv == rows_view(rows@),
                ts == views(texts@),
                es == views(elapsed@),
                texts@.len() == rows@.len(),
                elapsed@.len() == rows@.len(),
                !f.colored ==> out@ == rows_text(f, self.position, rv, ts, es, self.spec_head(), self.spec_saved(), i as nat),
            decreases rows@.len() - i,
        {
            let ghost before = out@;
            proof {
                assert(es[i as int] == elapsed@[i as int]@);
                if f.colored && all_no_escape(es) {
                    assert(no_escape(es[i as int]));
                }
            }
            self.fmt_row(&mut out, &rows[i], (texts[i].as_str(), elapsed[i].as_str()));
            proof {
                assert(rv[i as int] == row_view(rows@[i as int]));
                assert(ts[i as int] == texts@[i as int]@);
                if f.colored && all_no_escape(es) {
                    lemma_appended_trans(
                        Seq::empty(),
                        before,
                        out@,
                        rows_pieces(f, self.position, rv, ts, es, self.spec_head(), self.spec_saved(), i as nat),
                        row_pieces(f, self.position, rv[i as int], (ts[i as int], es[i as int]), self.spec_head(), self.spec_saved()),
                    );
                }
            }
            i = i + 1;
        }
        proof {
            assert(out@.skip(0) =~= out@);
        }
        out
    }
}

impl<'a, E: std::fmt::Display, S> Display<'a, E, S> {
    /// The display text: the rows of the graph (see `history_rows`) one after
    /// the other, each node with its labels and, for an entry, the time
    /// elapsed since it was applied and its message.
    pub fn to_string(&self) -> (s: String)
        requires
            self.spec_history().wf(),
        ensures
            exists|texts: Seq<String>, elapsed: Seq<String>, now: Time|
                #![trigger node_texts(history_rows(self.spec_history()), texts, elapsed, now)]
                texts.len() == history_rows(self.spec_history()).len()
                && elapsed.len() == history_rows(self.spec_history()).len()
                && node_texts(history_rows(self.spec_history()), texts, elapsed, now)
                && (!self.spec_format().colored ==> s@ == rows_text(
                    self.spec_format(),
                    self.spec_position(),
                    history_rows(self.spec_history()),
                    views(texts),
                    views(elapsed),
                    self.spec_head(),
                    self.spec_saved(),
                    history_rows(self.spec_history()).len(),
                ))
                && (self.spec_format().colored && all_no_escape(views(elapsed)) ==> shows(s@, rows_pieces(
                    self.spec_format(),
                    self.spec_position(),
                    history_rows(self.spec_history()),
                    views(texts),
                    views(elapsed),
                    self.spec_head(),
                    self.spec_saved(),
                    history_rows(self.spec_history()).len(),
                ))),
    {
        let now = Time::now();
        let rows = self.rows();
        let ghost rv = rows_view(rows@);
        let mut texts: Vec<String> = Vec::new();
        let mut elapsed: Vec<String> = Vec::new();
        let mut i: usize = 0;
        while i < rows.len()
            invariant
                i <= rows@.len(),
                rv == rows_view(rows@),
                texts@.len() == i,
                elapsed@.len() == i,
                node_texts(rv.take(i as int), texts@, elapsed@, now),
            decreases rows@.len() - i,
        {
            assert(rv[i as int] == row_view(rows@[i as int]));
            let ghost t0 = texts@;
            let ghost e0 = elapsed@;
            match &rows[i] {
                Row::Node { entry: Some(e), .. } => {
                    texts.push(e.get().to_string());
                    elapsed.push(default_st_fmt(now, e.st_of_edit()));
                },
                _ => {
                    texts.push(String::new());
                    elapsed.push(String::new());
                },
            }
            proof {
                let r = rv.take(i + 1);
                assert forall|k: int| 0 <= k < r.len() implies (#[trigger] r[k] matches SpecRow::Node(_, _, Some(e))
                    ==> vstd::string::to_string_from_display_ensures(&e.spec_edit(), texts@[k])
                        && elapsed@[k]@ == elapsed_text(nanos_between(now.spec_nanos(), e.spec_st_edit().spec_nanos()))) by {
                    if k < i {
                        assert(r[k] == rv.take(i as int)[k]);
                        assert(texts@[k] == t0[k]);
                        assert(elapsed@[k] == e0[k]);
                    }
                }
            }
            i = i + 1;
        }
        let s = self.render(&rows, &texts, &elapsed);
        assert(rv.take(rows@.len() as int) =~= rv);
        assert(node_texts(history_rows(self.spec_history()), texts@, elapsed@, now));
        s
    }
}

impl<E, S> History<E, S> {
    /// Returns a structure for configurable formatting of the history.
    pub fn display(&self) -> (d: Display<'_, E, S>)
        ensures
            d.spec_history() == *self,
            d.spec_format() == Format::spec_default(),
    {
        Display::new(self)
    }
}


/// A finite set of numbers has an increasing sequence of its elements, and
/// `sorted_keys` is one.
pub proof fn lemma_sorted_keys(s: Set<usize>)
    requires
        s.finite(),
    ensures
        increasing(sorted_keys(s)),
        forall|k: usize| s.contains(k) <==> sorted_keys(s).contains(k),
    decreases s.len(),
{
    if s.len() == 0 {
        let v = Seq::<usize>::empty();
        assert forall|k: usize| s.contains(k) <==> v.contains(k) by {
            if s.contains(k) {
                vstd::set::axiom_set_contains_len(s, k);
            }
        }
        assert(increasing(v));
    } else {
        let leq = |a: usize, b: usize| a <= b;
        assert(vstd::relations::total_ordering(leq));
        s.find_unique_maximal_ensures(leq);
        let m = s.find_unique_maximal(leq);
        s.lemma_maximal_equivalent_greatest(leq, m);
        let r = s.remove(m);
        lemma_sorted_keys(r);
        let w = sorted_keys(r);
        let v = w.push(m);
        assert forall|k: usize| s.contains(k) <==> v.contains(k) by {
            if s.contains(k) && k != m {
                assert(r.contains(k));
                assert(w.contains(k));
                let i = choose|i: int| 0 <= i < w.len() && w[i] == k;
                assert(v[i] == k);
            }
            if k == m {
                assert(v[w.len() as int] == m);
            }
            if v.contains(k) && k != m {
                let i = choose|i: int| 0 <= i < v.len() && v[i] == k;
                assert(w[i] == k);
                assert(w.contains(k));
            }
        }
        assert forall|i: int, j: int| 0 <= i < j < v.len() implies v[i] < v[j] by {
            if j == w.len() {
                assert(w.contains(w[i]));
                assert(r.contains(w[i]));
                assert(s.contains(w[i]));
                assert(leq(w[i], m));
                assert(w[i] != m);
            }
        }
        assert(increasing(v));
    }
}

/// The sorted ids of a well-formed history have one entry per branch.
proof fn lemma_sorted_ids_len<E, S>(h: History<E, S>)
    requires
        h.wf(),
    ensures
        increasing(sorted_keys(h.spec_ids())),
        forall|k: usize| h.spec_ids().contains(k) <==> sorted_keys(h.spec_ids()).contains(k),
        sorted_keys(h.spec_ids()).len() == h.spec_ids().len(),
{
    h.lemma_ids_finite();
    lemma_sorted_keys(h.spec_ids());
    let v = sorted_keys(h.spec_ids());
    assert(v.no_duplicates());
    v.unique_seq_to_set();
    assert(v.to_set() =~= h.spec_ids());
}

/// The node of a position is among its rows.
proof fn lemma_graph_has_node<E>(ids: Seq<usize>, br: Map<usize, Branch<E>>, at: At, entry: Option<Entry<E>>, level: nat, fuel: nat)
    ensures
        graph_rows(ids, br, at, entry, level, fuel).contains(SpecRow::Node(at, level, entry)),
{
    let g = graph_rows(ids, br, at, entry, level, fuel);
    assert(g[g.len() - 1] == SpecRow::Node(at, level, entry));
}

/// The rows of the entries `jj` of a branch `ids[q]` are among the rows of
/// the branch's entries below `j`.
proof fn lemma_branch_contains<E>(
    ids: Seq<usize>,
    br: Map<usize, Branch<E>>,
    at: At,
    level: nat,
    fuel: nat,
    q: nat,
    j: nat,
    jj: nat,
    x: SpecRow<E>,
)
    requires
        fuel > 0,
        q < ids.len(),
        jj < j,
        graph_rows(
            ids,
            br,
            At { root: ids[q as int], index: entry_index(br[ids[q as int]].spec_parent().index, jj) },
            Some(br[ids[q as int]].spec_entries()[jj as int]),
            level + 1,
            (fuel - 1) as nat,
        ).contains(x),
    ensures
        branch_rows(ids, br, at, level, fuel, q, j).contains(x),
    decreases j,
{
    let c = ids[q as int];
    let b = br[c];
    let g = graph_rows(
        ids,
        br,
        At { root: c, index: entry_index(b.spec_parent().index, (j - 1) as nat) },
        Some(b.spec_entries()[j - 1]),
        level + 1,
        (fuel - 1) as nat,
    );
    let rest = branch_rows(ids, br, at, level, fuel, q, (j - 1) as nat);
    assert(branch_rows(ids, br, at, level, fuel, q, j) == g + rest);
    if jj == j - 1 {
        let i = choose|i: int| 0 <= i < g.len() && g[i] == x;
        assert((g + rest)[i] == x);
    } else {
        lemma_branch_contains(ids, br, at, level, fuel, q, (j - 1) as nat, jj, x);
        let i = choose|i: int| 0 <= i < rest.len() && rest[i] == x;
        assert((g + rest)[g.len() + i] == x);
    }
}

/// The rows of a branch `ids[q]` that hangs from `at` are among the rows of
/// the branches `ids[p..]` that hang from `at`.
proof fn lemma_children_contain<E>(
    ids: Seq<usize>,
    br: Map<usize, Branch<E>>,
    at: At,
    level: nat,
    fuel: nat,
    p: nat,
    q: nat,
    x: SpecRow<E>,
)
    requires
        fuel > 0,
        p <= q < ids.len(),
        br[ids[q as int]].spec_parent() == at,
        branch_rows(ids, br, at, level, fuel, q, br[ids[q as int]].spec_entries().len()).contains(x),
    ensures
        child_rows(ids, br, at, level, fuel, p).contains(x),
    decreases q - p,
{
    let cp = br[ids[p as int]];
    if p == q {
        let a = branch_rows(ids, br, at, level, fuel, p, cp.spec_entries().len());
        let rest = seq![SpecRow::<E>::Split(level)] + child_rows(ids, br, at, level, fuel, p + 1);
        assert(child_rows(ids, br, at, level, fuel, p) == a + seq![SpecRow::<E>::Split(level)] + child_rows(ids, br, at, level, fuel, p + 1));
        let i = choose|i: int| 0 <= i < a.len() && a[i] == x;
        assert((a + seq![SpecRow::<E>::Split(level)] + child_rows(ids, br, at, level, fuel, p + 1))[i] == x);
    } else {
        lemma_children_contain(ids, br, at, level, fuel, p + 1, q, x);
        let rest = child_rows(ids, br, at, level, fuel, p + 1);
        let i = choose|i: int| 0 <= i < rest.len() && rest[i] == x;
        if cp.spec_parent() == at {
            let a = branch_rows(ids, br, at, level, fuel, p, cp.spec_entries().len()) + seq![SpecRow::<E>::Split(level)];
            assert(child_rows(ids, br, at, level, fuel, p) == a + rest);
            assert((a + rest)[a.len() + i] == x);
        } else {
            assert(child_rows(ids, br, at, level, fuel, p) == rest);
        }
    }
}

/// The rows of an entry of a branch that hangs from `at` are among the rows
/// of `at`, when levels are left to draw.
proof fn lemma_graph_contains_child<E>(
    ids: Seq<usize>,
    br: Map<usize, Branch<E>>,
    at: At,
    entry: Option<Entry<E>>,
    level: nat,
    fuel: nat,
    q: nat,
    jj: nat,
    x: SpecRow<E>,
)
    requires
        fuel > 0,
        q < ids.len(),
        br[ids[q as int]].spec_parent() == at,
        jj < br[ids[q as int]].spec_entries().len(),
        graph_rows(
            ids,
            br,
            At { root: ids[q as int], index: entry_index(br[ids[q as int]].spec_parent().index, jj) },
            Some(br[ids[q as int]].spec_entries()[jj as int]),
            level + 1,
            (fuel - 1) as nat,
        ).contains(x),
    ensures
        graph_rows(ids, br, at, entry, level, fuel).contains(x),
{
    lemma_branch_contains(ids, br, at, level, fuel, q, br[ids[q as int]].spec_entries().len(), jj, x);
    lemma_children_contain(ids, br, at, level, fuel, 0, q, x);
    let c = child_rows(ids, br, at, level, fuel, 0);
    let i = choose|i: int| 0 <= i < c.len() && c[i] == x;
    assert(graph_rows(ids, br, at, entry, level, fuel) == c + seq![SpecRow::Node(at, level, entry)]);
    assert((c + seq![SpecRow::Node(at, level, entry)])[i] == x);
}

/// The rows of a position of the current branch are among the rows of the
/// positions `k` down to 0.
proof fn lemma_top_contains<E>(
    ids: Seq<usize>,
    br: Map<usize, Branch<E>>,
    root: usize,
    entries: Seq<Entry<E>>,
    fuel: nat,
    k: nat,
    i: nat,
    x: SpecRow<E>,
)
    requires
        i <= k,
        graph_rows(ids, br, At { root, index: i as usize }, if i == 0 { None } else { Some(entries[i - 1]) }, 0, fuel).contains(x),
    ensures
        top_rows(ids, br, root, entries, fuel, k).contains(x),
    decreases k,
{
    if k > 0 {
        let g = graph_rows(ids, br, At { root, index: k as usize }, Some(entries[k - 1]), 0, fuel);
        let rest = top_rows(ids, br, root, entries, fuel, (k - 1) as nat);
        assert(top_rows(ids, br, root, entries, fuel, k) == g + rest);
        if i == k {
            let j = choose|j: int| 0 <= j < g.len() && g[j] == x;
            assert((g + rest)[j] == x);
        } else {
            lemma_top_contains(ids, br, root, entries, fuel, (k - 1) as nat, i, x);
            let j = choose|j: int| 0 <= j < rest.len() && rest[j] == x;
            assert((g + rest)[g.len() + j] == x);
        }
    }
}

/// Every branch of the way `p` hangs from a position that the graph draws:
/// the last from a position of the current branch, with `len` entries, and
/// every other from one of the entries of the next branch of the way; the
/// positions of the branches fit in `usize`.
pub open spec fn drawn_way<E>(br: Map<usize, Branch<E>>, len: nat, p: Seq<usize>) -> bool {
    &&& br[p.last()].spec_parent().index <= len
    &&& forall|j: int| 0 <= j < p.len() ==> br[#[trigger] p[j]].spec_parent().index + br[p[j]].spec_entries().len() < usize::MAX
    &&& forall|j: int| 0 <= j < p.len() - 1 ==> {
        &&& br[#[trigger] p[j + 1]].spec_parent().index < br[p[j]].spec_parent().index
        &&& br[p[j]].spec_parent().index <= br[p[j + 1]].spec_parent().index + br[p[j + 1]].spec_entries().len()
    }
}

/// The rows of each entry of branch `p[j]` of a drawn way are among the rows
/// of the history, at the depth of the branch in the way.
proof fn lemma_way_drawn<E, S>(h: History<E, S>, p: Seq<usize>, j: int, jj: nat, x: SpecRow<E>)
    requires
        h.wf(),
        super::valid_path(h.spec_branches(), h.spec_ids(), h.spec_root(), p[0], p),
        drawn_way(h.spec_branches(), h.spec_record().model().entries.len(), p),
        0 <= j < p.len(),
        jj < h.spec_branches()[p[j]].spec_entries().len(),
        graph_rows(
            sorted_keys(h.spec_ids()),
            h.spec_branches(),
            At { root: p[j], index: entry_index(h.spec_branches()[p[j]].spec_parent().index, jj) },
            Some(h.spec_branches()[p[j]].spec_entries()[jj as int]),
            (p.len() - j) as nat,
            (sorted_keys(h.spec_ids()).len() - (p.len() - j)) as nat,
        ).contains(x),
    ensures
        history_rows(h).contains(x),
    decreases p.len() - j,
{
    let ids = sorted_keys(h.spec_ids());
    let br = h.spec_branches();
    let n = p.len();
    lemma_sorted_ids_len(h);
    h.lemma_ids_finite();
    super::lemma_path_shorter(br, h.spec_ids(), h.spec_root(), p[0], p);
    assert(h.spec_ids().contains(p[j]));
    assert(ids.contains(p[j]));
    let q = choose|q: int| 0 <= q < ids.len() && ids[q] == p[j];
    let fuel = (ids.len() - (n - j - 1)) as nat;
    if j == n - 1 {
        let par = br[p[j]].spec_parent();
        assert(par.root == h.spec_root());
        let i = par.index as nat;
        let entries = h.spec_record().model().entries;
        let e_i = if i == 0 { None } else { Some(entries[i - 1]) };
        lemma_graph_contains_child(ids, br, At { root: h.spec_root(), index: i as usize }, e_i, 0, fuel, q as nat, jj, x);
        lemma_top_contains(ids, br, h.spec_root(), entries, (ids.len()) as nat, entries.len(), i, x);
    } else {
        let par = br[p[j]].spec_parent();
        let up = br[p[j + 1]].spec_parent();
        assert(par.root == p[j + 1]);
        let jj2 = (par.index - up.index - 1) as nat;
        assert(entry_index(up.index, jj2) == par.index);
        lemma_graph_contains_child(
            ids,
            br,
            At { root: p[j + 1], index: par.index },
            Some(br[p[j + 1]].spec_entries()[jj2 as int]),
            (n - j - 1) as nat,
            fuel,
            q as nat,
            jj,
            x,
        );
        lemma_way_drawn(h, p, j + 1, jj2, x);
    }
}

/// The graph draws every entry of every branch that hangs, by a way of drawn
/// positions, from the current branch: entry `jj` of branch `k` is the node
/// at position `jj + 1` past the position the branch hangs from, nested as
/// deep as the way is long. Branches that hang from branches are drawn too,
/// at any depth.
pub proof fn history_rows_draw_every_entry<E, S>(h: History<E, S>, k: usize, p: Seq<usize>, jj: nat)
    requires
        h.wf(),
        super::valid_path(h.spec_branches(), h.spec_ids(), h.spec_root(), k, p),
        drawn_way(h.spec_branches(), h.spec_record().model().entries.len(), p),
        jj < h.spec_branches()[k].spec_entries().len(),
    ensures
        history_rows(h).contains(SpecRow::Node(
            At { root: k, index: (h.spec_branches()[k].spec_parent().index + jj + 1) as usize },
            p.len(),
            Some(h.spec_branches()[k].spec_entries()[jj as int]),
        )),
{
    let br = h.spec_branches();
    let ids = sorted_keys(h.spec_ids());
    let at = At { root: k, index: entry_index(br[k].spec_parent().index, jj) };
    let x = SpecRow::Node(at, p.len(), Some(br[k].spec_entries()[jj as int]));
    lemma_graph_has_node(ids, br, at, Some(br[k].spec_entries()[jj as int]), p.len(), (ids.len() - p.len()) as nat);
    lemma_way_drawn(h, p, 0, jj, x);
}
} // verus!
