//! Properties that hold across the operations of the library.

use crate::add::Add;
use crate::entry::Entry;
use crate::from_fn::FromFn;
use crate::history::{self, valid_path, Branch, History};
use crate::join::Join;
use crate::record::{
    cancel_step, cancel_trace, cancelled, committed, edited, jump_events, push_model, queue_trace, redid, redo_events,
    redo_step, redo_trace, undid, undo_events, undo_step, undo_trace, went_to, CheckpointEntry, Model, QueueEntry,
    Record,
};
use crate::socket::Event;
use crate::{present, Action, At, Merged};
use std::collections::VecDeque;
use vstd::prelude::*;

verus! {

/// A pushed entry leaves the record within its limit, with its index in its
/// entries: only the most recent actions, as many as the limit, are kept.
pub proof fn push_keeps_limit<E: Action>(m: Model<E>, e: Entry<E>)
    requires
        m.limit > 0,
        m.index <= m.entries.len() <= m.limit,
    ensures
        push_model(m, e).0.index <= push_model(m, e).0.entries.len() <= m.limit,
        push_model(m, e).0.limit == m.limit,
{
}

/// After an edit nothing can be redone: the index is at the end of the entries.
pub proof fn push_leaves_nothing_to_redo<E: Action>(m: Model<E>, e: Entry<E>)
    requires
        m.limit > 0,
        m.index <= m.entries.len() <= m.limit,
    ensures
        push_model(m, e).0.index == push_model(m, e).0.entries.len(),
{
}

/// After an edit that was not annulled the target is not in the saved state.
pub proof fn push_leaves_unsaved<E: Action>(m: Model<E>, e: Entry<E>)
    requires
        m.limit > 0,
        m.index <= m.entries.len() <= m.limit,
        push_model(m, e).0.index >= m.index,
    ensures
        push_model(m, e).0.saved != Some(push_model(m, e).0.index),
{
}

/// For actions that never merge: when an edit pushes its action as a new
/// entry (no old entry was dropped for the limit), the next undo undoes that
/// very action: the undo relation holds from the state the edit left, and the
/// index is back where it was.
pub proof fn undo_after_edit<E: Action, S>(
    r: Record<E, S>,
    t: E::Target,
    action: E,
    q: Record<E, S>,
    u: E::Target,
    out: E::Output,
    q2: Record<E, S>,
    u2: E::Target,
    res: Option<E::Output>,
)
    requires
        r.wf(),
        forall|x: E, y: E| #[trigger] E::merge_spec(x, y) == (x, Merged::No(y)),
        edited(r, t, action, q, u, out),
        q.model().index == r.model().index + 1,
        undid(q, u, q2, u2, res),
    ensures
        res is Some,
        q2.model().index == r.model().index,
        exists|e: E| #[trigger] E::applied(action, t, e, u, out) && E::undone(e, u, q2.actions()[r.model().index as int], u2, res.unwrap()),
{
    let e = choose|e: Entry<E>| E::applied(action, t, #[trigger] e.spec_edit(), u, out) && q.model() == push_model(r.model(), e).0;
    let m = r.model();
    let i = m.index as int;
    e.with_own_edit();
    if m.index > 0 {
        m.entries[i - 1].with_own_edit();
    }
    assert(q.model().entries[i] == e);
    assert(q.actions()[i] == e.spec_edit());
    assert(E::applied(action, t, e.spec_edit(), u, out));
}

/// On a record of `Add` actions below its limit, an edit followed by an undo
/// gives back the target and the index.
pub proof fn add_record_undo_restores<S>(
    r: Record<Add, S>,
    t: String,
    a: Add,
    q: Record<Add, S>,
    u: String,
    q2: Record<Add, S>,
    u2: String,
    res: Option<()>,
)
    requires
        r.wf(),
        r.model().index < r.model().limit,
        edited(r, t, a, q, u, ()),
        undid(q, u, q2, u2, res),
    ensures
        u2@ == t@,
        q2.model().index == r.model().index,
{
    let e = choose|e: Entry<Add>| Add::applied(a, t, #[trigger] e.spec_edit(), u, ()) && q.model() == push_model(r.model(), e).0;
    let m = r.model();
    e.with_own_edit();
    if m.index > 0 {
        m.entries[m.index - 1].with_own_edit();
    }
    assert(q.model().index == m.index + 1);
    undo_after_edit(r, t, a, q, u, (), q2, u2, res);
    let x = choose|x: Add| #[trigger] Add::applied(a, t, x, u, ()) && Add::undone(x, u, q2.actions()[m.index as int], u2, res.unwrap());
    add_undo_restores(a, t, x, u, q2.actions()[m.index as int], u2);
}

/// An undo followed by a redo brings the index back, and the redo redoes the
/// action that the undo undid.
pub proof fn redo_after_undo<E: Action, S>(
    r: Record<E, S>,
    t: E::Target,
    q: Record<E, S>,
    u: E::Target,
    o: E::Output,
    q2: Record<E, S>,
    u2: E::Target,
    res: Option<E::Output>,
)
    requires
        r.wf(),
        undid(r, t, q, u, Some(o)),
        redid(q, u, q2, u2, res),
    ensures
        res is Some,
        q2.model().index == r.model().index,
        q2.model().entries.len() == r.model().entries.len(),
        E::undone(r.actions()[r.model().index - 1], t, q.actions()[r.model().index - 1], u, o),
        E::redone(q.actions()[r.model().index - 1], u, q2.actions()[r.model().index - 1], u2, res.unwrap()),
{
}

/// Undoing and redoing keep the saved index, so an undo followed by a redo
/// leaves the target in the saved state exactly when it was before.
pub proof fn undo_redo_keep_saved<E: Action, S>(
    r: Record<E, S>,
    t: E::Target,
    q: Record<E, S>,
    u: E::Target,
    o: E::Output,
    q2: Record<E, S>,
    u2: E::Target,
    res: Option<E::Output>,
)
    requires
        r.wf(),
        undid(r, t, q, u, Some(o)),
        redid(q, u, q2, u2, res),
    ensures
        q.model().saved == r.model().saved,
        q2.model().saved == r.model().saved,
        (q2.model().saved == Some(q2.model().index)) == (r.model().saved == Some(r.model().index)),
{
}

/// Undoing an `Add` takes back what applying it did: the target is as it was,
/// and so is the action.
pub proof fn add_undo_restores(a: Add, t: String, n: Add, u: String, n2: Add, u2: String)
    requires
        Add::applied(a, t, n, u, ()),
        Add::undone(n, u, n2, u2, ()),
    ensures
        u2@ == t@,
        n2 == a,
{
    assert(u@.drop_last() =~= t@);
}

/// Redoing an `Add` takes back what undoing it did, when the target was not
/// empty.
pub proof fn add_redo_restores(a: Add, t: String, n: Add, u: String, n2: Add, u2: String)
    requires
        t@.len() > 0,
        Add::undone(a, t, n, u, ()),
        Add::redone(n, u, n2, u2, ()),
    ensures
        u2@ == t@,
{
    assert(u@.push(t@.last()) =~= t@);
}

/// Undoing a `FromFn` after applying it gives back a clone of the target,
/// and keeps the target that the function left for the next redo.
pub proof fn from_fn_undo_restores<F: FnMut(&mut T), T: Clone>(
    a: FromFn<F, T>,
    t: T,
    n: FromFn<F, T>,
    u: T,
    n2: FromFn<F, T>,
    u2: T,
)
    requires
        FromFn::<F, T>::applied(a, t, n, u, ()),
        FromFn::<F, T>::undone(n, u, n2, u2, ()),
    ensures
        vstd::pervasive::cloned(t, u2),
        n2.spec_target() == Some(u),
{
}

/// Applying a `Join` and undoing it gives back the target when both of its
/// actions are undone by their undo: the second is undone first, then the
/// first, each from the state its apply left.
pub proof fn join_undo_restores<A: Action, B: Action<Target = A::Target, Output = A::Output>>(
    j: Join<A, B>,
    t: A::Target,
    n: Join<A, B>,
    u: A::Target,
    o: A::Output,
    n2: Join<A, B>,
    u2: A::Target,
    o2: A::Output,
)
    requires
        forall|t1: A::Target, x: A, m: A::Target, o1: A::Output, x2: A, m2: A::Target, p: A::Output|
            #![trigger A::applied(j.first(), t1, x, m, o1), A::undone(x, m, x2, m2, p)]
            A::applied(j.first(), t1, x, m, o1) && A::undone(x, m, x2, m2, p) ==> m2 == t1,
        forall|t1: A::Target, y: B, m: A::Target, o1: A::Output, y2: B, m2: A::Target, p: A::Output|
            #![trigger B::applied(j.second(), t1, y, m, o1), B::undone(y, m, y2, m2, p)]
            B::applied(j.second(), t1, y, m, o1) && B::undone(y, m, y2, m2, p) ==> m2 == t1,
        Join::<A, B>::applied(j, t, n, u, o),
        Join::<A, B>::undone(n, u, n2, u2, o2),
    ensures
        u2 == t,
{
    let (mid, oa) = choose|mid: A::Target, oa: A::Output|
        A::applied(j.first(), t, n.first(), mid, oa) && B::applied(j.second(), mid, n.second(), u, o);
    let (mid2, ob) = choose|mid2: A::Target, ob: A::Output|
        B::undone(n.second(), u, n2.second(), mid2, ob) && A::undone(n.first(), mid2, n2.first(), u2, o2);
    assert(mid2 == mid);
}

/// Undoing step by step lowers the index by one per step and keeps the
/// entries' number.
proof fn undo_trace_moves<E: Action>(ms: Seq<Model<E>>, ts: Seq<E::Target>, outs: Seq<E::Output>)
    requires
        undo_trace(ms, ts, outs),
        ms[0].index <= ms[0].entries.len(),
    ensures
        ms.last().index == ms[0].index - outs.len(),
        ms.last().entries.len() == ms[0].entries.len(),
    decreases outs.len(),
{
    if outs.len() > 0 {
        let k = outs.len() - 1;
        assert forall|j: int| 0 <= j < outs.drop_last().len() implies #[trigger] undo_step(
            ms.drop_last()[j],
            ts.drop_last()[j],
            ms.drop_last()[j + 1],
            ts.drop_last()[j + 1],
            outs.drop_last()[j],
        ) by {
            assert(undo_step(ms[j], ts[j], ms[j + 1], ts[j + 1], outs[j]));
        }
        assert(ms.drop_last()[0] == ms[0]);
        undo_trace_moves(ms.drop_last(), ts.drop_last(), outs.drop_last());
        assert(ms.drop_last().last() == ms[k]);
        assert(undo_step(ms[k], ts[k], ms[k + 1], ts[k + 1], outs[k]));
    }
}

/// Redoing step by step raises the index by one per step and keeps the
/// entries' number.
proof fn redo_trace_moves<E: Action>(ms: Seq<Model<E>>, ts: Seq<E::Target>, outs: Seq<E::Output>)
    requires
        redo_trace(ms, ts, outs),
        ms[0].entries.len() <= usize::MAX,
    ensures
        ms.last().index == ms[0].index + outs.len(),
        ms.last().entries.len() == ms[0].entries.len(),
    decreases outs.len(),
{
    if outs.len() > 0 {
        let k = outs.len() - 1;
        assert forall|j: int| 0 <= j < outs.drop_last().len() implies #[trigger] redo_step(
            ms.drop_last()[j],
            ts.drop_last()[j],
            ms.drop_last()[j + 1],
            ts.drop_last()[j + 1],
            outs.drop_last()[j],
        ) by {
            assert(redo_step(ms[j], ts[j], ms[j + 1], ts[j + 1], outs[j]));
        }
        assert(ms.drop_last()[0] == ms[0]);
        redo_trace_moves(ms.drop_last(), ts.drop_last(), outs.drop_last());
        assert(ms.drop_last().last() == ms[k]);
        assert(redo_step(ms[k], ts[k], ms[k + 1], ts[k + 1], outs[k]));
    }
}

/// A jump to a position in the record makes one undo or redo per position
/// between the index and that position, returns one output per step, and
/// keeps the number of entries. A jump to the index changes nothing.
pub proof fn go_to_steps<E: Action, S>(
    r: Record<E, S>,
    t: E::Target,
    index: usize,
    q: Record<E, S>,
    u: E::Target,
    outs: Seq<E::Output>,
)
    requires
        r.wf(),
        index <= r.model().entries.len(),
        went_to(r, t, index, q, u, outs),
    ensures
        index <= r.model().index ==> outs.len() == r.model().index - index,
        index > r.model().index ==> outs.len() == index - r.model().index,
        q.model().entries.len() == r.model().entries.len(),
        index == r.model().index ==> q.model() == r.model() && u == t,
{
    let m = r.model();
    let n = q.model();
    if index <= m.index {
        let (ms, ts) = choose|ms: Seq<Model<E>>, ts: Seq<E::Target>|
            #[trigger] undo_trace(ms, ts, outs) && ms[0] == m && ts[0] == t && ms.last() == n && ts.last() == u;
        undo_trace_moves(ms, ts, outs);
    } else {
        let (ms, ts) = choose|ms: Seq<Model<E>>, ts: Seq<E::Target>|
            #[trigger] redo_trace(ms, ts, outs) && ms[0] == m && ts[0] == t && ms.last() == n && ts.last() == u;
        redo_trace_moves(ms, ts, outs);
    }
}

/// The ways from a branch to the current branch agree up to position `k`.
proof fn paths_agree<E>(br: Map<usize, Branch<E>>, ids: Set<usize>, root: usize, to: usize, p: Seq<usize>, q: Seq<usize>, k: int)
    requires
        valid_path(br, ids, root, to, p),
        valid_path(br, ids, root, to, q),
        0 <= k < p.len(),
        k < q.len(),
    ensures
        p[k] == q[k],
    decreases k,
{
    if k > 0 {
        paths_agree(br, ids, root, to, p, q, k - 1);
        assert(br[p[k - 1]].spec_parent().root == p[k]);
        assert(br[q[k - 1]].spec_parent().root == q[k]);
    }
}

/// There is at most one way from a branch to the current branch, so a jump
/// to another branch has one way to take.
pub proof fn path_is_unique<E>(br: Map<usize, Branch<E>>, ids: Set<usize>, root: usize, to: usize, p: Seq<usize>, q: Seq<usize>)
    requires
        valid_path(br, ids, root, to, p),
        valid_path(br, ids, root, to, q),
    ensures
        p == q,
{
    if p.len() < q.len() {
        let l = p.len() - 1;
        paths_agree(br, ids, root, to, p, q, l);
        assert(br[q[l]].spec_parent().root == q[l + 1]);
        assert(ids.contains(q[l + 1]) && q[l + 1] != root);
    } else if q.len() < p.len() {
        let l = q.len() - 1;
        paths_agree(br, ids, root, to, p, q, l);
        assert(br[p[l]].spec_parent().root == p[l + 1]);
        assert(ids.contains(p[l + 1]) && p[l + 1] != root);
    } else {
        assert forall|k: int| 0 <= k < p.len() implies p[k] == q[k] by {
            paths_agree(br, ids, root, to, p, q, k);
        }
        assert(p =~= q);
    }
}

/// An edit in the middle of the current branch of a history loses nothing:
/// the discarded actions stay in the branch that was current, which hangs
/// from the position of the edit in the new current branch, so that a jump
/// can reach them.
pub proof fn history_edit_keeps_discarded<E: Action, S>(
    h: History<E, S>,
    t: E::Target,
    action: E,
    q: History<E, S>,
    u: E::Target,
    out: E::Output,
)
    requires
        h.wf(),
        history::edited(h, t, action, q, u, out),
        h.spec_record().model().index < h.spec_record().model().entries.len(),
    ensures
        q.spec_root() != h.spec_root(),
        q.spec_branches()[h.spec_root()].spec_entries() == h.spec_record().model().entries.skip(
            h.spec_record().model().index as int,
        ),
        q.spec_branches()[h.spec_root()].spec_parent() == (At { root: q.spec_root(), index: h.spec_record().model().index }),
        valid_path(q.spec_branches(), q.spec_ids(), q.spec_root(), h.spec_root(), seq![h.spec_root()]),
{
    let p = seq![h.spec_root()];
    assert(p.last() == h.spec_root());
}

/// Committing an empty queue changes nothing and returns nothing.
pub proof fn commit_nothing<E: Action, S>(r: Record<E, S>, t: E::Target, q: Record<E, S>, u: E::Target, outs: Seq<E::Output>)
    requires
        committed(r, t, Seq::empty(), q, u, outs),
    ensures
        q == r,
        u == t,
        outs.len() == 0,
{
    let (rs, ts, os) = choose|rs: Seq<Record<E, S>>, ts: Seq<E::Target>, os: Seq<Option<E::Output>>|
        #[trigger] queue_trace(Seq::<QueueEntry<E>>::empty(), rs, ts, os) && rs[0] == r && ts[0] == t && rs.last() == q
            && ts.last() == u && present(os) == outs;
    assert(os.len() == 0);
}

/// Cancelling a checkpoint through which no call was made changes nothing and
/// returns nothing.
pub proof fn cancel_nothing<E: Action, S>(r: Record<E, S>, t: E::Target, q: Record<E, S>, u: E::Target, outs: Seq<E::Output>)
    requires
        cancelled(r, t, Seq::empty(), q, u, outs),
    ensures
        q == r,
        u == t,
        outs.len() == 0,
{
    let (rs, ts, os) = choose|rs: Seq<Record<E, S>>, ts: Seq<E::Target>, os: Seq<Option<E::Output>>|
        #[trigger] cancel_trace(Seq::<CheckpointEntry<E>>::empty(), rs, ts, os) && rs[0] == r && ts[0] == t && rs.last() == q
            && ts.last() == u && present(os) == outs;
    assert(os.len() == 0);
}

/// For actions that never merge: cancelling a checkpoint through which one
/// edit was made, when that edit pushed its action as a new entry, gives back
/// the record's entries, index, saved index and limit, and undoes the action
/// the edit applied.
pub proof fn cancel_after_edit<E: Action, S>(
    r: Record<E, S>,
    t: E::Target,
    action: E,
    q: Record<E, S>,
    u: E::Target,
    out: E::Output,
    saved: Option<usize>,
    tail: VecDeque<Entry<E>>,
    q2: Record<E, S>,
    u2: E::Target,
    res: Option<E::Output>,
)
    requires
        r.wf(),
        forall|x: E, y: E| #[trigger] E::merge_spec(x, y) == (x, Merged::No(y)),
        edited(r, t, action, q, u, out),
        q.model().index == r.model().index + 1,
        tail@ == r.model().entries.skip(r.model().index as int),
        saved == (match r.model().saved {
            Some(s) => if s > r.model().index { Some(s) } else { None },
            None => None,
        }),
        cancel_step(q, u, CheckpointEntry::Edit { saved, tail }, q2, u2, res),
    ensures
        res is Some,
        q2.model() == r.model(),
        exists|e: E, e2: E| #[trigger] E::applied(action, t, e, u, out) && #[trigger] E::undone(e, u, e2, u2, res.unwrap()),
{
    let e = choose|e: Entry<E>| E::applied(action, t, #[trigger] e.spec_edit(), u, out) && q.model() == push_model(r.model(), e).0;
    let mid = choose|mid: Record<E, S>| #[trigger] undid(q, u, mid, u2, res) && if res is None {
        q2 == mid
    } else {
        &&& q2.model() == (Model {
            entries: mid.model().entries.drop_last() + tail@,
            saved: match mid.model().saved {
                Some(s) => Some(s),
                None => saved,
            },
            ..mid.model()
        })
        &&& q2.spec_socket() == mid.spec_socket()
    };
    let m = r.model();
    let i = m.index as int;
    e.with_own_edit();
    if m.index > 0 {
        m.entries[i - 1].with_own_edit();
    }
    assert(q.model().entries[i] == e);
    assert(res is Some);
    assert(mid.model().entries.drop_last() =~= m.entries.take(i));
    assert(m.entries.take(i) + m.entries.skip(i) =~= m.entries);
    assert(q2.model().entries =~= m.entries);
    assert(q.actions()[i] == e.spec_edit());
    assert(E::applied(action, t, e.spec_edit(), u, out));
    assert(E::undone(e.spec_edit(), u, mid.actions()[i], u2, res.unwrap()));
}


/// The record is saved at index `j`.
pub open spec fn saved_at(saved: Option<usize>, j: usize) -> bool {
    saved == Some(j)
}

/// Actions whose merge never joins two actions: the other action is always
/// handed back.
pub open spec fn never_merge<E: Action>() -> bool {
    forall|x: E, y: E| #[trigger] E::merge_spec(x, y) == (x, Merged::No(y))
}

/// An edit on a full record that stands at its newest entry, with actions that
/// never merge, drops the oldest entry: the index stays, every kept entry
/// moves one place down, the new entry is the applied action, and the record
/// is saved at a position exactly when the same state was saved before, one
/// place up. A save at the state before the dropped entry is lost.
pub proof fn edit_at_limit_drops_oldest<E: Action, S>(
    r: Record<E, S>,
    t: E::Target,
    action: E,
    q: Record<E, S>,
    u: E::Target,
    out: E::Output,
)
    requires
        r.wf(),
        edited(r, t, action, q, u, out),
        r.model().index == r.model().limit,
        never_merge::<E>(),
    ensures
        q.model().index == r.model().index,
        q.model().entries.len() == r.model().limit,
        forall|j: int| 0 <= j < r.model().limit - 1 ==> #[trigger] q.model().entries[j] == r.model().entries[j + 1],
        E::applied(action, t, q.model().entries.last().spec_edit(), u, out),
        forall|j: usize| #[trigger] saved_at(q.model().saved, j) <==> (j < r.model().limit && saved_at(r.model().saved, (j + 1) as usize)),
        r.model().saved == Some(0usize) ==> q.model().saved is None,
{
    let m = r.model();
    let e = choose|e: Entry<E>|
        E::applied(action, t, #[trigger] e.spec_edit(), u, out) && q.model() == push_model(m, e).0
        && e.spec_st_undo() == crate::entry::Time::spec_epoch() && e.spec_st_redo() == crate::entry::Time::spec_epoch();
    assert(m.entries.take(m.index as int) =~= m.entries);
    let was_saved = m.saved == Some(m.index);
    if m.index > 0 && !was_saved {
        let last = m.entries.last();
        assert(E::merge_spec(last.spec_edit(), e.spec_edit()) == (last.spec_edit(), Merged::<E>::No(e.spec_edit())));
        last.with_own_edit();
        e.with_own_edit();
        assert(m.entries.drop_last().push(last) =~= m.entries);
    }
    let n = q.model();
    assert(n.entries =~= m.entries.drop_first().push(e));
    assert forall|j: usize| #[trigger] saved_at(n.saved, j) <==> (j < m.limit && saved_at(m.saved, (j + 1) as usize)) by {
        match m.saved {
            Some(s) => {},
            None => {},
        }
    }
}

/// The records of an undo trace all have as many entries as the first.
proof fn undo_trace_keeps_len<E: Action>(ms: Seq<Model<E>>, ts: Seq<E::Target>, outs: Seq<E::Output>, k: int)
    requires
        undo_trace(ms, ts, outs),
        ms[0].index <= ms[0].entries.len(),
        0 <= k <= outs.len(),
    ensures
        ms[k].entries.len() == ms[0].entries.len(),
        ms[k].index <= ms[k].entries.len(),
    decreases k,
{
    if k > 0 {
        undo_trace_keeps_len(ms, ts, outs, k - 1);
        let j = k - 1;
        assert(undo_step(ms[j], ts[j], ms[j + 1], ts[j + 1], outs[j]));
    }
}

/// The records of a redo trace all have as many entries as the first.
proof fn redo_trace_keeps_len<E: Action>(ms: Seq<Model<E>>, ts: Seq<E::Target>, outs: Seq<E::Output>, k: int)
    requires
        redo_trace(ms, ts, outs),
        ms[0].index <= ms[0].entries.len(),
        0 <= k <= outs.len(),
    ensures
        ms[k].entries.len() == ms[0].entries.len(),
        ms[k].index <= ms[k].entries.len(),
    decreases k,
{
    if k > 0 {
        redo_trace_keeps_len(ms, ts, outs, k - 1);
        let j = k - 1;
        assert(redo_step(ms[j], ts[j], ms[j + 1], ts[j + 1], outs[j]));
    }
}

/// Undoing one action after the other keeps the number of entries.
proof fn undone_steps_keep_len<E: Action>(m: Model<E>, t: E::Target, n: Model<E>, u: E::Target, outs: Seq<E::Output>)
    requires
        crate::record::undone_steps(m, t, n, u, outs),
        m.index <= m.entries.len(),
    ensures
        n.entries.len() == m.entries.len(),
{
    let (ms, ts) = choose|ms: Seq<Model<E>>, ts: Seq<E::Target>|
        #[trigger] undo_trace(ms, ts, outs) && ms[0] == m && ts[0] == t && ms.last() == n && ts.last() == u;
    undo_trace_keeps_len(ms, ts, outs, outs.len() as int);
}

/// Redoing one action after the other keeps the number of entries.
proof fn redone_steps_keep_len<E: Action>(m: Model<E>, t: E::Target, n: Model<E>, u: E::Target, outs: Seq<E::Output>)
    requires
        crate::record::redone_steps(m, t, n, u, outs),
        m.index <= m.entries.len(),
    ensures
        n.entries.len() == m.entries.len(),
{
    let (ms, ts) = choose|ms: Seq<Model<E>>, ts: Seq<E::Target>|
        #[trigger] redo_trace(ms, ts, outs) && ms[0] == m && ts[0] == t && ms.last() == n && ts.last() == u;
    redo_trace_keeps_len(ms, ts, outs, outs.len() as int);
}

/// What a slot that reads `events` in order believes about redo, having
/// believed `init` before.
pub open spec fn redo_view(events: Seq<Event>, init: bool) -> bool
    decreases events.len(),
{
    if events.len() == 0 {
        init
    } else {
        match events.last() {
            Event::Redo(b) => b,
            _ => redo_view(events.drop_last(), init),
        }
    }
}

/// Reading two runs of events one after the other is reading the second run
/// after what the first left.
pub proof fn redo_view_concat(a: Seq<Event>, b: Seq<Event>, init: bool)
    ensures
        redo_view(a + b, init) == redo_view(b, redo_view(a, init)),
    decreases b.len(),
{
    if b.len() == 0 {
        assert(a + b =~= a);
    } else {
        redo_view_concat(a, b.drop_last(), init);
        assert((a + b).drop_last() =~= a + b.drop_last());
        assert((a + b).last() == b.last());
    }
}

/// Reading four runs of events one after the other.
proof fn redo_view_four(a: Seq<Event>, b: Seq<Event>, c: Seq<Event>, d: Seq<Event>, init: bool)
    ensures
        redo_view(a + b + c + d, init) == redo_view(d, redo_view(c, redo_view(b, redo_view(a, init)))),
{
    redo_view_concat(a + b + c, d, init);
    redo_view_concat(a + b, c, init);
    redo_view_concat(a, b, init);
}

/// Reading no event, or one.
proof fn redo_view_short(x: Event, init: bool)
    ensures
        redo_view(Seq::empty(), init) == init,
        redo_view(seq![x], init) == match x {
            Event::Redo(b) => b,
            _ => init,
        },
{
    assert(seq![x].drop_last() =~= Seq::<Event>::empty());
}

/// The slot's belief about redo after the events of a call, read from the
/// log before and after.
pub open spec fn redo_view_after<S>(before: crate::socket::Socket<S>, after: crate::socket::Socket<S>, init: bool) -> bool {
    redo_view(after.log().skip(before.log().len() as int), init)
}

/// The log after `evs` are added to `log` has `log` as its start and `evs`
/// after it.
proof fn log_grows(log: Seq<Event>, evs: Seq<Event>)
    ensures
        log.is_prefix_of(log + evs),
        (log + evs).skip(log.len() as int) == evs,
{
    assert((log + evs).skip(log.len() as int) =~= evs);
    assert((log + evs).take(log.len() as int) =~= log);
}

/// The events of an edit keep a connected slot's belief about redo right:
/// after the edit the last `Redo` event received (or, without one, what held
/// before) is whether the record can redo. An edit made while redo was
/// possible thus reports that it no longer is.
pub proof fn edit_keeps_redo_view<E: Action, S>(r: Record<E, S>, t: E::Target, action: E, q: Record<E, S>, u: E::Target, out: E::Output)
    requires
        r.wf(),
        r.spec_socket().is_connected(),
        edited(r, t, action, q, u, out),
    ensures
        r.spec_socket().log().is_prefix_of(q.spec_socket().log()),
        redo_view_after(r.spec_socket(), q.spec_socket(), r.model().index < r.model().entries.len())
            == (q.model().index < q.model().entries.len()),
{
    let m = r.model();
    let could = m.index < m.entries.len();
    let e = choose|e: Entry<E>|
        E::applied(action, t, #[trigger] e.spec_edit(), u, out) && q.model() == push_model(m, e).0
        && e.spec_st_undo() == crate::entry::Time::spec_epoch() && e.spec_st_redo() == crate::entry::Time::spec_epoch();
    let n = q.model();
    assert(n.index == n.entries.len());
    let evs = crate::record::push_events(m, n);
    log_grows(r.spec_socket().log(), evs);
    let a = if m.index < m.entries.len() { seq![Event::Redo(false)] } else { Seq::<Event>::empty() };
    let b = if m.index == 0 { seq![Event::Undo(true)] } else { Seq::<Event>::empty() };
    let c = if m.saved == Some(m.index) { seq![Event::Saved(false)] } else { Seq::<Event>::empty() };
    let d = if m.index != n.index { seq![Event::Index(n.index)] } else { Seq::<Event>::empty() };
    assert(evs =~= a + b + c + d);
    redo_view_four(a, b, c, d, could);
    redo_view_short(Event::Redo(false), could);
    redo_view_short(Event::Undo(true), redo_view(a, could));
    redo_view_short(Event::Saved(false), redo_view(b, redo_view(a, could)));
    redo_view_short(Event::Index(n.index), redo_view(c, redo_view(b, redo_view(a, could))));
}

/// The events of an undo keep a connected slot's belief about redo right.
pub proof fn undo_keeps_redo_view<E: Action, S>(r: Record<E, S>, t: E::Target, q: Record<E, S>, u: E::Target, res: Option<E::Output>)
    requires
        r.wf(),
        r.spec_socket().is_connected(),
        undid(r, t, q, u, res),
    ensures
        r.spec_socket().log().is_prefix_of(q.spec_socket().log()),
        redo_view_after(r.spec_socket(), q.spec_socket(), r.model().index < r.model().entries.len())
            == (q.model().index < q.model().entries.len()),
{
    let m = r.model();
    let could = m.index < m.entries.len();
    if m.index == 0 {
        log_grows(r.spec_socket().log(), Seq::empty());
        assert(r.spec_socket().log() + Seq::<Event>::empty() =~= r.spec_socket().log());
        redo_view_short(Event::Redo(false), could);
    } else {
        let evs = undo_events(m);
        log_grows(r.spec_socket().log(), evs);
        let was_saved = m.saved == Some(m.index);
        let is_saved = m.saved == Some((m.index - 1) as usize);
        let a = if m.index == 1 { seq![Event::Undo(false)] } else { Seq::<Event>::empty() };
        let b = if m.index == m.entries.len() { seq![Event::Redo(true)] } else { Seq::<Event>::empty() };
        let c = if was_saved != is_saved { seq![Event::Saved(is_saved)] } else { Seq::<Event>::empty() };
        let d = seq![Event::Index((m.index - 1) as usize)];
        assert(evs =~= a + b + c + d);
        redo_view_four(a, b, c, d, could);
        redo_view_short(Event::Undo(false), could);
        redo_view_short(Event::Redo(true), redo_view(a, could));
        redo_view_short(Event::Saved(is_saved), redo_view(b, redo_view(a, could)));
        redo_view_short(Event::Index((m.index - 1) as usize), redo_view(c, redo_view(b, redo_view(a, could))));
    }
}

/// The events of a redo keep a connected slot's belief about redo right.
pub proof fn redo_keeps_redo_view<E: Action, S>(r: Record<E, S>, t: E::Target, q: Record<E, S>, u: E::Target, res: Option<E::Output>)
    requires
        r.wf(),
        r.spec_socket().is_connected(),
        redid(r, t, q, u, res),
    ensures
        r.spec_socket().log().is_prefix_of(q.spec_socket().log()),
        redo_view_after(r.spec_socket(), q.spec_socket(), r.model().index < r.model().entries.len())
            == (q.model().index < q.model().entries.len()),
{
    let m = r.model();
    let could = m.index < m.entries.len();
    if m.index >= m.entries.len() {
        log_grows(r.spec_socket().log(), Seq::empty());
        assert(r.spec_socket().log() + Seq::<Event>::empty() =~= r.spec_socket().log());
        redo_view_short(Event::Redo(false), could);
    } else {
        let evs = redo_events(m);
        log_grows(r.spec_socket().log(), evs);
        let was_saved = m.saved == Some(m.index);
        let is_saved = m.saved == Some((m.index + 1) as usize);
        let a = if m.index == 0 { seq![Event::Undo(true)] } else { Seq::<Event>::empty() };
        let b = if m.index == m.entries.len() - 1 { seq![Event::Redo(false)] } else { Seq::<Event>::empty() };
        let c = if was_saved != is_saved { seq![Event::Saved(is_saved)] } else { Seq::<Event>::empty() };
        let d = seq![Event::Index((m.index + 1) as usize)];
        assert(evs =~= a + b + c + d);
        redo_view_four(a, b, c, d, could);
        redo_view_short(Event::Undo(true), could);
        redo_view_short(Event::Redo(false), redo_view(a, could));
        redo_view_short(Event::Saved(is_saved), redo_view(b, redo_view(a, could)));
        redo_view_short(Event::Index((m.index + 1) as usize), redo_view(c, redo_view(b, redo_view(a, could))));
    }
}

/// The events of a jump keep a connected slot's belief about redo right.
pub proof fn go_to_keeps_redo_view<E: Action, S>(r: Record<E, S>, t: E::Target, index: usize, q: Record<E, S>, u: E::Target, outs: Seq<E::Output>)
    requires
        r.wf(),
        r.spec_socket().is_connected(),
        went_to(r, t, index, q, u, outs),
    ensures
        r.spec_socket().log().is_prefix_of(q.spec_socket().log()),
        redo_view_after(r.spec_socket(), q.spec_socket(), r.model().index < r.model().entries.len())
            == (q.model().index < q.model().entries.len()),
{
    let m = r.model();
    let could = m.index < m.entries.len();
    if index > m.entries.len() {
        log_grows(r.spec_socket().log(), Seq::empty());
        assert(r.spec_socket().log() + Seq::<Event>::empty() =~= r.spec_socket().log());
        redo_view_short(Event::Redo(false), could);
    } else {
        let n = q.model();
        if index <= m.index {
            undone_steps_keep_len(m, t, n, u, outs);
        } else {
            redone_steps_keep_len(m, t, n, u, outs);
        }
        let evs = jump_events(m, n);
        log_grows(r.spec_socket().log(), evs);
        let can_undo = n.index > 0;
        let can = n.index < n.entries.len();
        let is_saved = n.saved == Some(n.index);
        let a = if (m.index > 0) != can_undo { seq![Event::Undo(can_undo)] } else { Seq::<Event>::empty() };
        let b = if could != can { seq![Event::Redo(can)] } else { Seq::<Event>::empty() };
        let c = if (m.saved == Some(m.index)) != is_saved { seq![Event::Saved(is_saved)] } else { Seq::<Event>::empty() };
        let d = if m.index != n.index { seq![Event::Index(n.index)] } else { Seq::<Event>::empty() };
        assert(evs =~= a + b + c + d);
        redo_view_four(a, b, c, d, could);
        redo_view_short(Event::Undo(can_undo), could);
        redo_view_short(Event::Redo(can), redo_view(a, could));
        redo_view_short(Event::Saved(is_saved), redo_view(b, redo_view(a, could)));
        redo_view_short(Event::Index(n.index), redo_view(c, redo_view(b, redo_view(a, could))));
    }
}

} // verus!
