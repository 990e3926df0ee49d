//! Properties that relate several operations of the drawing manager.

use super::drawing::{DrawingView, lemma_drawing_roundtrip};
use super::tool::DrawingId;
use super::manager::{
    ManagerView, MAX_UNDO_STACK, OpView, find_id, is_first_with_id, replace_first, trim_history,
    without_id,
};
use vstd::prelude::*;

verus! {

/// Filtering a sequence whose elements all pass leaves it unchanged.
proof fn lemma_filter_keeps_all(s: Seq<DrawingView>, pred: spec_fn(DrawingView) -> bool)
    requires
        forall|i: int| 0 <= i < s.len() ==> pred(#[trigger] s[i]),
    ensures
        s.filter(pred) == s,
    decreases s.len(),
{
    reveal(Seq::filter);
    if s.len() > 0 {
        lemma_filter_keeps_all(s.drop_last(), pred);
        assert(s.drop_last().push(s.last()) =~= s);
    }
}

/// Filtering after appending one element.
proof fn lemma_filter_push(s: Seq<DrawingView>, x: DrawingView, pred: spec_fn(DrawingView) -> bool)
    ensures
        (s.push(x)).filter(pred) == if pred(x) {
            s.filter(pred).push(x)
        } else {
            s.filter(pred)
        },
{
    reveal_with_fuel(Seq::filter, 1);
    assert(s.push(x).drop_last() =~= s);
}

/// Nothing that a filter keeps fails its predicate.
proof fn lemma_filter_all_pass(s: Seq<DrawingView>, pred: spec_fn(DrawingView) -> bool)
    ensures
        forall|i: int| 0 <= i < s.filter(pred).len() ==> pred(#[trigger] s.filter(pred)[i]),
    decreases s.len(),
{
    broadcast use vstd::seq_lib::group_filter_ensures;
}

/// Undoing and then redoing leaves the undo and redo histories as they were.
pub proof fn lemma_undo_then_redo_histories(m: ManagerView)
    requires
        m.undo.len() > 0,
    ensures
        m.undo().redo().undo == m.undo,
        m.undo().redo().redo == m.redo,
{
    let u = m.undo();
    assert(u.redo.last() == m.undo.last());
    assert(u.redo.drop_last() =~= m.redo);
    assert(u.undo.push(m.undo.last()) =~= m.undo);
}

/// Redoing and then undoing leaves the undo and redo histories as they were.
pub proof fn lemma_redo_then_undo_histories(m: ManagerView)
    requires
        m.redo.len() > 0,
    ensures
        m.redo().undo().undo == m.undo,
        m.redo().undo().redo == m.redo,
{
    let r = m.redo();
    assert(r.undo.last() == m.redo.last());
    assert(r.undo.drop_last() =~= m.undo);
    assert(r.redo.push(m.redo.last()) =~= m.redo);
}

/// Every recorded operation empties the redo history and keeps the history
/// bounded: the undo history becomes the most recent `MAX_UNDO_STACK`
/// operations, the oldest dropped first.
pub proof fn lemma_record_clears_redo(m: ManagerView, op: OpView)
    ensures
        m.record(op).redo.len() == 0,
        m.record(op).undo.len() == if m.undo.len() + 1 > MAX_UNDO_STACK {
            MAX_UNDO_STACK as int
        } else {
            m.undo.len() + 1int
        },
        m.record(op).undo == m.undo.push(op).subrange(
            m.undo.len() + 1 - m.record(op).undo.len(),
            m.undo.len() + 1int,
        ),
        m.record(op).undo.last() == op,
        m.record(op).drawings == m.drawings,
{
    let full = m.undo.push(op);
    if full.len() <= MAX_UNDO_STACK {
        assert(full.subrange(0, full.len() as int) =~= full);
    }
}

/// Undoing the addition of a drawing whose id was not in use removes it
/// again: the drawings are those before the addition.
pub proof fn lemma_undo_add(m: ManagerView, d: DrawingView)
    requires
        find_id(m.drawings, d.id) is None,
    ensures
        m.add(d).undo().drawings == m.drawings,
        m.add(d).undo().selected == m.selected.remove(d.id.value),
        m.undo.len() < MAX_UNDO_STACK ==> m.add(d).undo().undo == m.undo,
{
    let a = m.add(d);
    assert(a.undo.last() == OpView::Add(d.to_ser()));
    let pred = |x: DrawingView| x.id != d.id;
    assert forall|i: int| 0 <= i < m.drawings.len() implies pred(#[trigger] m.drawings[i]) by {
        if m.drawings[i].id == d.id {
            let k = choose|k: int| 0 <= k < m.drawings.len() && m.drawings[k].id == d.id && forall|j: int| 0 <= j < k ==> m.drawings[j].id != d.id;
            assert(is_first_with_id(m.drawings, d.id, k)) by {
                // the smallest index with this id exists
                lemma_first_index_exists(m.drawings, d.id, i);
            }
        }
    }
    lemma_filter_push(m.drawings, d, pred);
    lemma_filter_keeps_all(m.drawings, pred);
    if m.undo.len() < MAX_UNDO_STACK {
        assert(a.undo =~= m.undo.push(OpView::Add(d.to_ser())));
        assert(a.undo.drop_last() =~= m.undo);
    }
}

/// If some drawing has identifier `id`, a first such drawing exists.
proof fn lemma_first_index_exists(ds: Seq<DrawingView>, id: super::tool::DrawingId, i: int)
    requires
        0 <= i < ds.len(),
        ds[i].id == id,
    ensures
        exists|k: int| is_first_with_id(ds, id, k),
    decreases i,
{
    if exists|j: int| 0 <= j < i && ds[j].id == id {
        let j = choose|j: int| 0 <= j < i && ds[j].id == id;
        lemma_first_index_exists(ds, id, j);
    } else {
        assert(is_first_with_id(ds, id, i));
    }
}

/// Adding a completed drawing with a new id, undoing and redoing the
/// addition gives back the same drawings.
pub proof fn lemma_redo_add(m: ManagerView, d: DrawingView)
    requires
        find_id(m.drawings, d.id) is None,
        d.confirmed_count == d.points.len(),
    ensures
        m.add(d).undo().redo().drawings == m.add(d).drawings,
{
    lemma_undo_add(m, d);
    lemma_drawing_roundtrip(d);
    let u = m.add(d).undo();
    assert(u.redo.last() == OpView::Add(d.to_ser()));
}

/// Deleting the only drawing with a given id and undoing the deletion
/// brings the drawing back (at the end of the list).
pub proof fn lemma_undo_delete(m: ManagerView, i: int)
    requires
        0 <= i < m.drawings.len(),
        forall|j: int| 0 <= j < m.drawings.len() && j != i ==> m.drawings[j].id != m.drawings[i].id,
        m.drawings[i].confirmed_count == m.drawings[i].points.len(),
    ensures
        m.delete(m.drawings[i].id).undo().drawings == without_id(m.drawings, m.drawings[i].id).push(
            m.drawings[i],
        ),
{
    let id = m.drawings[i].id;
    assert(is_first_with_id(m.drawings, id, i));
    assert(find_id(m.drawings, id) == Some(i)) by {
        let k = choose|k: int| is_first_with_id(m.drawings, id, k);
        assert(k == i);
    }
    lemma_drawing_roundtrip(m.drawings[i]);
    let del = m.delete(id);
    assert(del.undo.last() == OpView::Remove(m.drawings[i].to_ser()));
}

/// After deleting the selection, no remaining drawing is selected and the selection is empty.
pub proof fn lemma_delete_selected_leaves_none_selected(m: ManagerView)
    ensures
        forall|k: int|
            0 <= k < m.delete_selected().drawings.len() ==> !m.selected.contains(
                (#[trigger] m.delete_selected().drawings[k]).id.value,
            ),
        m.delete_selected().selected.is_empty(),
        m.delete_selected().redo.len() == 0,
{
    lemma_filter_all_pass(m.drawings, |d: DrawingView| !m.is_sel(d));
}

/// The top undo operation matches the drawings as they stand: an added
/// drawing is the last one and the only one with its id, a removed
/// drawing's id is not in use, and a modified drawing (whose stored states
/// carry its id) is in its recorded after-state.
pub open spec fn top_op_current(m: ManagerView) -> bool {
    &&& m.undo.len() > 0
    &&& match m.undo.last() {
        OpView::Add(d) => {
            &&& m.drawings.len() > 0
            &&& m.drawings.last() == d.to_drawing()
            &&& forall|j: int| 0 <= j < m.drawings.len() - 1 ==> (#[trigger] m.drawings[j]).id != d.id
        },
        OpView::Remove(d) => forall|j: int| 0 <= j < m.drawings.len() ==> (#[trigger] m.drawings[j]).id != d.id,
        OpView::Modify(id, before, after) => {
            &&& before.id == id
            &&& find_id(m.drawings, id) matches Some(i) && m.drawings[i] == after.to_drawing()
        },
    }
}

/// The first position with an id is unique.
proof fn lemma_first_with_id_unique(ds: Seq<DrawingView>, id: DrawingId, i: int, k: int)
    requires
        is_first_with_id(ds, id, i),
        is_first_with_id(ds, id, k),
    ensures
        i == k,
{
    if i < k {
        assert(ds[i].id != id);
    }
    if k < i {
        assert(ds[k].id != id);
    }
}

/// Redoing right after an undo restores the drawings, where the undone
/// operation matched the drawings as they stood.
pub proof fn lemma_undo_then_redo_drawings(m: ManagerView)
    requires
        top_op_current(m),
    ensures
        m.undo().redo().drawings == m.drawings,
{
    let ds = m.drawings;
    let u = m.undo();
    assert(u.redo.last() == m.undo.last());
    match m.undo.last() {
        OpView::Add(d) => {
            let pred = |x: DrawingView| x.id != d.id;
            let front = ds.drop_last();
            assert(ds =~= front.push(ds.last()));
            lemma_filter_push(front, ds.last(), pred);
            lemma_filter_keeps_all(front, pred);
            assert(u.drawings == front);
            assert(u.redo().drawings =~= ds);
        },
        OpView::Remove(d) => {
            let pred = |x: DrawingView| x.id != d.id;
            lemma_filter_push(ds, d.to_drawing(), pred);
            lemma_filter_keeps_all(ds, pred);
        },
        OpView::Modify(id, before, after) => {
            let i = find_id(ds, id)->0;
            assert(is_first_with_id(ds, id, i)) by {
                assert(exists|k: int| is_first_with_id(ds, id, k));
            }
            let mid = ds.update(i, before.to_drawing());
            assert(u.drawings == mid);
            assert(is_first_with_id(mid, id, i));
            let k = choose|k: int| is_first_with_id(mid, id, k);
            lemma_first_with_id_unique(mid, id, i, k);
            assert(find_id(mid, id) == Some(i));
            assert(replace_first(mid, id, after.to_drawing()) =~= ds);
        },
    }
}

/// Right after an addition of a complete drawing with a new id, or a
/// deletion of a drawing that was there, the recorded operation matches the drawings, so
/// undoing and redoing it gives the drawings back.
pub proof fn lemma_recorded_ops_are_current(m: ManagerView, d: DrawingView, id: DrawingId)
    ensures
        find_id(m.drawings, d.id) is None && d.confirmed_count == d.points.len() ==> top_op_current(
            m.add(d),
        ),
        find_id(m.drawings, id) is Some ==> top_op_current(m.delete(id)),
        find_id(m.drawings, id) is Some ==> m.delete(id).undo().redo().drawings == m.delete(id).drawings,
{
    if find_id(m.drawings, d.id) is None {
        let a = m.add(d);
        assert(a.undo.last() == OpView::Add(d.to_ser()));
        assert forall|j: int| 0 <= j < a.drawings.len() - 1 implies (#[trigger] a.drawings[j]).id != d.id by {
            if a.drawings[j].id == d.id {
                lemma_first_index_exists(m.drawings, d.id, j);
            }
        }
        if d.confirmed_count == d.points.len() {
            lemma_drawing_roundtrip(d);
        }
    }
    if find_id(m.drawings, id) is Some {
        let del = m.delete(id);
        let i = find_id(m.drawings, id)->0;
        assert(del.undo.last() == OpView::Remove(m.drawings[i].to_ser()));
        assert(is_first_with_id(m.drawings, id, i)) by {
            assert(exists|k: int| is_first_with_id(m.drawings, id, k));
        }
        lemma_filter_all_pass(m.drawings, |x: DrawingView| x.id != id);
        assert forall|j: int| 0 <= j < del.drawings.len() implies (#[trigger] del.drawings[j]).id != m.drawings[i].to_ser().id by {
            assert((|x: DrawingView| x.id != id)(del.drawings[j]));
        }
        lemma_undo_then_redo_drawings(del);
    }
}

/// Splitting a sequence by a predicate keeps every element: the two parts
/// together hold the same multiset.
proof fn lemma_filter_split_multiset(s: Seq<DrawingView>, pred: spec_fn(DrawingView) -> bool)
    ensures
        s.filter(pred).to_multiset().add(s.filter(|d: DrawingView| !pred(d)).to_multiset())
            == s.to_multiset(),
    decreases s.len(),
{
    broadcast use vstd::seq_lib::group_to_multiset_ensures;
    broadcast use vstd::multiset::group_multiset_axioms;

    let npred = |d: DrawingView| !pred(d);
    if s.len() == 0 {
        assert(s.filter(pred) =~= Seq::<DrawingView>::empty()) by {
            reveal(Seq::filter);
        }
        assert(s.filter(npred) =~= Seq::<DrawingView>::empty()) by {
            reveal(Seq::filter);
        }
        assert(s.filter(pred).to_multiset().add(s.filter(npred).to_multiset()) =~= s.to_multiset());
    } else {
        let front = s.drop_last();
        let x = s.last();
        assert(s =~= front.push(x));
        lemma_filter_split_multiset(front, pred);
        lemma_filter_push(front, x, pred);
        lemma_filter_push(front, x, npred);
        assert(s.filter(pred).to_multiset().add(s.filter(npred).to_multiset()) =~= s.to_multiset());
    }
}

/// The state after `n` successive undos.
pub open spec fn undo_times(m: ManagerView, n: nat) -> ManagerView
    decreases n,
{
    if n == 0 {
        m
    } else {
        undo_times(m, (n - 1) as nat).undo()
    }
}

/// The undo records of removing `removed`, in order.
pub open spec fn removals(removed: Seq<DrawingView>) -> Seq<OpView> {
    removed.map_values(|d: DrawingView| OpView::Remove(d.to_ser()))
}

/// Undoing `j` removals recorded on top of the history puts the last `j`
/// removed drawings back, most recent first.
proof fn lemma_undo_removals(s: ManagerView, removed: Seq<DrawingView>, j: nat)
    requires
        j <= removed.len(),
        removed.len() <= s.undo.len(),
        s.undo.subrange(s.undo.len() - removed.len(), s.undo.len() as int) == removals(removed),
        forall|i: int| 0 <= i < removed.len() ==> (#[trigger] removed[i]).confirmed_count == removed[i].points.len(),
    ensures
        undo_times(s, j).drawings == s.drawings + removed.subrange(removed.len() - j, removed.len() as int).reverse(),
        undo_times(s, j).undo == s.undo.subrange(0, s.undo.len() - j),
    decreases j,
{
    let k = removed.len() as int;
    let len = s.undo.len() as int;
    if j == 0 {
        assert(removed.subrange(k, k).reverse() =~= Seq::<DrawingView>::empty());
        assert(s.drawings + Seq::<DrawingView>::empty() =~= s.drawings);
        assert(s.undo.subrange(0, len) =~= s.undo);
    } else {
        lemma_undo_removals(s, removed, (j - 1) as nat);
        let t = undo_times(s, (j - 1) as nat);
        let i = k - j;
        assert(t.undo.last() == s.undo[len - j]);
        assert(s.undo[len - j] == s.undo.subrange(len - k, len)[i]);
        assert(t.undo.last() == OpView::Remove(removed[i].to_ser()));
        lemma_drawing_roundtrip(removed[i]);
        assert(t.undo.drop_last() =~= s.undo.subrange(0, len - j));
        let before = removed.subrange(i + 1, k);
        let after = removed.subrange(i, k);
        assert(after.reverse() =~= before.reverse().push(removed[i]));
        assert(s.drawings + after.reverse() =~= (s.drawings + before.reverse()).push(removed[i]));
    }
}

/// Undoing a deletion of the selection once per deleted drawing brings
/// every deleted drawing back: the drawings are those that were kept,
/// followed by the deleted ones, the last deleted first. Holds where no
/// more drawings are deleted than the undo history keeps, and the deleted
/// drawings are complete (as every stored drawing is).
pub proof fn lemma_undo_delete_selected(m: ManagerView)
    requires
        m.drawings.filter(|d: DrawingView| m.is_sel(d)).len() <= MAX_UNDO_STACK,
        forall|i: int|
            0 <= i < m.drawings.len() ==> (#[trigger] m.drawings[i]).confirmed_count
                == m.drawings[i].points.len(),
    ensures
        ({
            let removed = m.drawings.filter(|d: DrawingView| m.is_sel(d));
            let restored = undo_times(m.delete_selected(), removed.len()).drawings;
            &&& restored == m.drawings.filter(|d: DrawingView| !m.is_sel(d)) + removed.reverse()
            &&& restored.to_multiset() == m.drawings.to_multiset()
        }),
{
    let sel = |d: DrawingView| m.is_sel(d);
    let removed = m.drawings.filter(sel);
    let k = removed.len() as int;
    let del = m.delete_selected();
    let full = m.undo + removals(removed);
    assert(del.undo == trim_history(full));
    assert(del.undo.subrange(del.undo.len() - k, del.undo.len() as int) =~= removals(removed));
    assert forall|i: int| 0 <= i < removed.len() implies (#[trigger] removed[i]).confirmed_count
        == removed[i].points.len() by {
        assert(removed.contains(removed[i]));
        m.drawings.lemma_filter_contains_rev(sel, removed[i]);
    }
    lemma_undo_removals(del, removed, k as nat);
    assert(removed.subrange(0, k) =~= removed);
    let kept = m.drawings.filter(|d: DrawingView| !m.is_sel(d));
    lemma_filter_split_multiset(m.drawings, sel);
    assert(m.drawings.filter(|d: DrawingView| !sel(d)) == kept) by {
        assert((|d: DrawingView| !sel(d)) =~= (|d: DrawingView| !m.is_sel(d)));
    }
    removed.lemma_reverse_to_multiset();
    vstd::seq_lib::lemma_multiset_commutative(kept, removed.reverse());
    assert((kept + removed.reverse()).to_multiset() =~= m.drawings.to_multiset()) by {
        broadcast use vstd::multiset::group_multiset_axioms;
    }
}

/// The manager after adding each of `ds`, in order.
pub open spec fn add_all(m: ManagerView, ds: Seq<DrawingView>) -> ManagerView
    decreases ds.len(),
{
    if ds.len() == 0 {
        m
    } else {
        add_all(m, ds.drop_last()).add(ds.last())
    }
}

/// The undo records of adding `ds`, in order.
pub open spec fn additions(ds: Seq<DrawingView>) -> Seq<OpView> {
    ds.map_values(|d: DrawingView| OpView::Add(d.to_ser()))
}

/// No two of `ds` share an identifier.
pub open spec fn distinct_ids(ds: Seq<DrawingView>) -> bool {
    forall|i: int, j: int| 0 <= i < ds.len() && 0 <= j < ds.len() && i != j ==> (#[trigger] ds[i]).id != (#[trigger] ds[j]).id
}

/// The number of most recent operations the undo history keeps of `n`.
pub open spec fn kept_ops(n: int) -> int {
    if n > MAX_UNDO_STACK {
        MAX_UNDO_STACK as int
    } else {
        n
    }
}

/// After adding `ds` to a manager with no drawings and no history, the
/// drawings are `ds` and the undo history holds the additions of the
/// most recent of them, at most `MAX_UNDO_STACK`.
proof fn lemma_add_all(ds: Seq<DrawingView>)
    ensures
        add_all(ManagerView::initial(Seq::empty()), ds).drawings == ds,
        add_all(ManagerView::initial(Seq::empty()), ds).undo == additions(ds).subrange(
            ds.len() - kept_ops(ds.len() as int),
            ds.len() as int,
        ),
    decreases ds.len(),
{
    let init = ManagerView::initial(Seq::empty());
    let n = ds.len() as int;
    if n == 0 {
        assert(additions(ds).subrange(0, 0) =~= Seq::<OpView>::empty());
    } else {
        let front = ds.drop_last();
        lemma_add_all(front);
        let m0 = add_all(init, front);
        lemma_record_clears_redo(m0, OpView::Add(ds.last().to_ser()));
        assert(m0.drawings.push(ds.last()) =~= ds);
        let a = additions(ds);
        let k0 = kept_ops(n - 1);
        let k = kept_ops(n);
        assert(additions(front) =~= a.subrange(0, n - 1));
        assert(m0.undo =~= a.subrange(n - 1 - k0, n - 1));
        assert(m0.undo.push(OpView::Add(ds.last().to_ser())) =~= a.subrange(n - 1 - k0, n));
        assert(add_all(init, ds).undo =~= a.subrange(n - k, n));
    }
}

/// Undoing `j` of the additions on top of the history removes the last
/// `j` drawings.
proof fn lemma_undo_additions(m: ManagerView, ds: Seq<DrawingView>, k: int, j: nat)
    requires
        distinct_ids(ds),
        0 <= k <= ds.len(),
        j <= k,
        m.drawings == ds,
        m.undo == additions(ds).subrange(ds.len() - k, ds.len() as int),
    ensures
        undo_times(m, j).drawings == ds.take(ds.len() - j),
        undo_times(m, j).undo == additions(ds).subrange(ds.len() - k, ds.len() - j),
    decreases j,
{
    let n = ds.len() as int;
    if j == 0 {
        assert(ds.take(n) =~= ds);
    } else {
        lemma_undo_additions(m, ds, k, (j - 1) as nat);
        let t = undo_times(m, (j - 1) as nat);
        let d = ds[n - j];
        assert(t.undo.last() == OpView::Add(d.to_ser()));
        let pred = |x: DrawingView| x.id != d.id;
        let short = ds.take(n - j);
        assert(ds.take(n - j + 1) =~= short.push(d));
        lemma_filter_push(short, d, pred);
        assert forall|i: int| 0 <= i < short.len() implies pred(#[trigger] short[i]) by {
            assert(short[i] == ds[i]);
        }
        lemma_filter_keeps_all(short, pred);
        assert(t.undo.drop_last() =~= additions(ds).subrange(n - k, n - j));
    }
}

/// The undo history keeps only the most recent `MAX_UNDO_STACK`
/// operations: after drawings with distinct identifiers are added to a new
/// manager, as many undos as the history keeps remove the most recent of
/// them, oldest kept drawings stay, and one more undo does nothing.
pub proof fn lemma_undo_limit(ds: Seq<DrawingView>)
    requires
        distinct_ids(ds),
    ensures
        ({
            let m = add_all(ManagerView::initial(Seq::empty()), ds);
            let k = kept_ops(ds.len() as int);
            &&& m.undo.len() == k
            &&& undo_times(m, k as nat).drawings == ds.take(ds.len() - k)
            &&& undo_times(m, k as nat).undo.len() == 0
            &&& undo_times(m, (k + 1) as nat) == undo_times(m, k as nat)
        }),
{
    let m = add_all(ManagerView::initial(Seq::empty()), ds);
    let k = kept_ops(ds.len() as int);
    lemma_add_all(ds);
    lemma_undo_additions(m, ds, k, k as nat);
}

} // verus!
