//! Drawing manager: the drawings of one chart, the drawing being placed,
//! the selection, drag and clone-placement state, and bounded undo/redo.

use super::drawing::{
    Drawing, DrawingView, SerializableDrawing, SerializableDrawingView, fresh_drawing,
};
use super::point::{DrawingPoint, shift_ok, shift_point, shifted};
use super::style::{DrawingStyle, StyleView};
use super::tool::{DrawingId, DrawingTool, is_v4_value};
use crate::market::Price;
use std::collections::{HashSet, VecDeque};
use vstd::prelude::*;

verus! {

broadcast use vstd::std_specs::hash::group_hash_axioms;

/// Maximum number of undo operations to keep.
pub const MAX_UNDO_STACK: usize = 50;

/// An undoable drawing operation.
#[derive(Debug)]
enum DrawingOp {
    Add(SerializableDrawing),
    Remove(SerializableDrawing),
    Modify { id: DrawingId, before: SerializableDrawing, after: SerializableDrawing },
}

/// Mathematical value of an undoable operation.
pub enum OpView {
    Add(SerializableDrawingView),
    Remove(SerializableDrawingView),
    Modify(DrawingId, SerializableDrawingView, SerializableDrawingView),
}

impl View for DrawingOp {
    type V = OpView;

    closed spec fn view(&self) -> OpView {
        match self {
            DrawingOp::Add(d) => OpView::Add(d@),
            DrawingOp::Remove(d) => OpView::Remove(d@),
            DrawingOp::Modify { id, before, after } => OpView::Modify(*id, before@, after@),
        }
    }
}

/// State of a clone being placed by the user.
#[derive(Debug)]
struct ClonePlacement {
    /// The cloned drawing being placed.
    drawing: Drawing,
    /// Original points (before any movement).
    original_points: Vec<DrawingPoint>,
    /// Center of the original points (used as cursor anchor).
    center_time: i64,
    center_price: i64,
}

/// Mathematical value of a clone placement.
pub struct CloneView {
    pub drawing: DrawingView,
    pub original_points: Seq<DrawingPoint>,
    pub center_time: i64,
    pub center_price: i64,
}

/// Mathematical value of a [`DrawingManager`].
pub struct ManagerView {
    pub drawings: Seq<DrawingView>,
    pub selected: Set<u128>,
    pub pending: Option<DrawingView>,
    pub active_tool: DrawingTool,
    pub snap_enabled: bool,
    pub default_style: StyleView,
    pub undo: Seq<OpView>,
    pub redo: Seq<OpView>,
    pub move_edit_before: Option<(DrawingId, SerializableDrawingView)>,
    pub last_drag_point: Option<DrawingPoint>,
    pub clone: Option<CloneView>,
}

/// Manages all drawings on a chart.
#[derive(Debug)]
pub struct DrawingManager {
    /// All completed drawings.
    drawings: Vec<Drawing>,
    /// Currently selected drawing ids (their 128-bit values).
    selected: HashSet<u128>,
    /// Drawing currently being created.
    pending: Option<Drawing>,
    /// Currently active drawing tool.
    active_tool: DrawingTool,
    /// Whether to snap points to candles.
    snap_enabled: bool,
    /// Default style for new drawings.
    default_style: DrawingStyle,
    /// Undo stack.
    undo_stack: VecDeque<DrawingOp>,
    /// Redo stack.
    redo_stack: VecDeque<DrawingOp>,
    /// Saved state for an in-progress move/edit operation.
    move_edit_before: Option<(DrawingId, SerializableDrawing)>,
    /// Last cursor position during a drag (for relative movement).
    last_drag_point: Option<DrawingPoint>,
    /// Clone placement in progress.
    clone_placement: Option<ClonePlacement>,
}

pub open spec fn opt_drawing_view(d: Option<Drawing>) -> Option<DrawingView> {
    match d {
        Some(d) => Some(d@),
        None => None,
    }
}

// ---------------------------------------------------------------------------
// Model of the drawing list
// ---------------------------------------------------------------------------

/// Replacing a drawing replaces its view.
proof fn lemma_update_views(ds: Seq<Drawing>, i: int, d: Drawing)
    requires
        0 <= i < ds.len(),
    ensures
        ds.update(i, d).map_values(|x: Drawing| x@) == ds.map_values(|x: Drawing| x@).update(i, d@),
{
    assert(ds.update(i, d).map_values(|x: Drawing| x@) =~= ds.map_values(|x: Drawing| x@).update(i, d@));
}

/// `i` is the position of the first drawing with identifier `id`.
pub open spec fn is_first_with_id(ds: Seq<DrawingView>, id: DrawingId, i: int) -> bool {
    &&& 0 <= i < ds.len()
    &&& ds[i].id == id
    &&& forall|j: int| 0 <= j < i ==> ds[j].id != id
}

/// Position of the first drawing with identifier `id`, if any.
pub open spec fn find_id(ds: Seq<DrawingView>, id: DrawingId) -> Option<int> {
    if exists|i: int| is_first_with_id(ds, id, i) {
        Some(choose|i: int| is_first_with_id(ds, id, i))
    } else {
        None
    }
}

/// The drawings with every drawing of identifier `id` removed.
pub open spec fn without_id(ds: Seq<DrawingView>, id: DrawingId) -> Seq<DrawingView> {
    ds.filter(|d: DrawingView| d.id != id)
}

/// The drawings with the first drawing of identifier `id` replaced by `d`.
pub open spec fn replace_first(ds: Seq<DrawingView>, id: DrawingId, d: DrawingView) -> Seq<
    DrawingView,
> {
    match find_id(ds, id) {
        Some(i) => ds.update(i, d),
        None => ds,
    }
}

/// The most recent `MAX_UNDO_STACK` operations.
pub open spec fn trim_history(s: Seq<OpView>) -> Seq<OpView> {
    if s.len() > MAX_UNDO_STACK {
        s.subrange(s.len() - MAX_UNDO_STACK, s.len() as int)
    } else {
        s
    }
}

pub open spec fn op_id(op: OpView) -> DrawingId {
    match op {
        OpView::Add(d) => d.id,
        OpView::Remove(d) => d.id,
        OpView::Modify(id, _, _) => id,
    }
}

/// Sum of the (signed) times of the first `k` points.
pub open spec fn sum_time(ps: Seq<DrawingPoint>, k: int) -> int
    decreases k,
{
    if k <= 0 {
        0
    } else {
        sum_time(ps, k - 1) + (ps[k - 1].time as i64)
    }
}

/// Sum of the prices of the first `k` points.
pub open spec fn sum_price(ps: Seq<DrawingPoint>, k: int) -> int
    decreases k,
{
    if k <= 0 {
        0
    } else {
        sum_price(ps, k - 1) + ps[k - 1].price.units
    }
}

/// Every partial sum of the points' times and prices fits in `i64`.
pub open spec fn sums_fit(ps: Seq<DrawingPoint>) -> bool {
    forall|k: int|
        0 <= k <= ps.len() ==> i64::MIN <= #[trigger] sum_time(ps, k) <= i64::MAX && i64::MIN
            <= sum_price(ps, k) <= i64::MAX
}

/// Integer division rounding toward zero.
pub open spec fn trunc_div(a: int, n: int) -> int {
    if a >= 0 {
        a / n
    } else {
        -((-a) / n)
    }
}

impl ManagerView {
    /// A manager with no drawings and nothing in progress.
    pub open spec fn initial(drawings: Seq<DrawingView>) -> ManagerView {
        ManagerView {
            drawings,
            selected: Set::empty(),
            pending: None,
            active_tool: DrawingTool::NoTool,
            snap_enabled: true,
            default_style: DrawingStyle::spec_default(),
            undo: Seq::empty(),
            redo: Seq::empty(),
            move_edit_before: None,
            last_drag_point: None,
            clone: None,
        }
    }

    /// The history is bounded and a clone placement moves all its points.
    pub open spec fn wf(self) -> bool {
        &&& self.undo.len() + self.redo.len() <= MAX_UNDO_STACK
        &&& (self.clone matches Some(c) ==> c.drawing.points.len() == c.original_points.len())
    }

    /// Record `op`: it goes on top of the undo history, which is trimmed to
    /// its most recent entries, and the redo history is emptied.
    pub open spec fn record(self, op: OpView) -> ManagerView {
        ManagerView { undo: trim_history(self.undo.push(op)), redo: Seq::empty(), ..self }
    }

    /// Add a completed drawing and record it.
    pub open spec fn add(self, d: DrawingView) -> ManagerView {
        ManagerView { drawings: self.drawings.push(d), ..self.record(OpView::Add(d.to_ser())) }
    }

    /// Delete the drawing `id`, recording the first drawing with that id.
    pub open spec fn delete(self, id: DrawingId) -> ManagerView {
        let recorded = match find_id(self.drawings, id) {
            Some(i) => self.record(OpView::Remove(self.drawings[i].to_ser())),
            None => self,
        };
        ManagerView {
            drawings: without_id(self.drawings, id),
            selected: self.selected.remove(id.value),
            ..recorded
        }
    }

    /// Start a drawing at `point` with the new identifier `id`.
    pub open spec fn start(self, point: DrawingPoint, id: DrawingId) -> ManagerView {
        if self.active_tool == DrawingTool::NoTool {
            self
        } else {
            let d = fresh_drawing(id, self.active_tool, self.default_style).after_add_point(point);
            if d.complete() {
                ManagerView {
                    drawings: self.drawings.push(d),
                    pending: None,
                    ..self.record(OpView::Add(d.to_ser()))
                }
            } else {
                ManagerView { pending: Some(d), ..self }
            }
        }
    }

    /// The identifier `start` reports: that of a drawing completed by its first point.
    pub open spec fn started_id(self, point: DrawingPoint, id: DrawingId) -> Option<DrawingId> {
        if self.active_tool != DrawingTool::NoTool && fresh_drawing(
            id,
            self.active_tool,
            self.default_style,
        ).after_add_point(point).complete() {
            Some(id)
        } else {
            None
        }
    }

    /// Confirm `point` on the pending drawing, adding it once complete.
    pub open spec fn complete_pending(self, point: DrawingPoint) -> ManagerView {
        match self.pending {
            None => self,
            Some(d) => {
                let d1 = d.after_add_point(point);
                if d1.complete() {
                    ManagerView {
                        drawings: self.drawings.push(d1),
                        pending: None,
                        ..self.record(OpView::Add(d1.to_ser()))
                    }
                } else {
                    ManagerView { pending: Some(d1), ..self }
                }
            },
        }
    }

    /// The identifier `complete_drawing` reports.
    pub open spec fn completed_id(self, point: DrawingPoint) -> Option<DrawingId> {
        match self.pending {
            Some(d) => if d.after_add_point(point).complete() {
                Some(d.id)
            } else {
                None
            },
            None => None,
        }
    }

    /// Whether a drawing is in the selection.
    pub open spec fn is_sel(self, d: DrawingView) -> bool {
        self.selected.contains(d.id.value)
    }

    /// Delete every selected drawing, recording one removal per drawing in order.
    pub open spec fn delete_selected(self) -> ManagerView {
        let removed = self.drawings.filter(|d: DrawingView| self.is_sel(d));
        ManagerView {
            drawings: self.drawings.filter(|d: DrawingView| !self.is_sel(d)),
            selected: Set::empty(),
            undo: trim_history(
                self.undo + removed.map_values(|d: DrawingView| OpView::Remove(d.to_ser())),
            ),
            redo: Seq::empty(),
            ..self
        }
    }

    /// Replace anchor point `index` of drawing `id`, unless it is locked.
    pub open spec fn move_point(self, id: DrawingId, index: nat, p: DrawingPoint) -> ManagerView {
        match find_id(self.drawings, id) {
            Some(i) => if index < self.drawings[i].points.len() && !self.drawings[i].locked {
                ManagerView {
                    drawings: self.drawings.update(
                        i,
                        DrawingView {
                            points: self.drawings[i].points.update(index as int, p),
                            ..self.drawings[i]
                        },
                    ),
                    ..self
                }
            } else {
                self
            },
            None => self,
        }
    }

    /// Moving drawing `id` by (`dt`, `dp`) stays within `i64`.
    pub open spec fn move_ok(self, id: DrawingId, dt: i64, dp: i64) -> bool {
        match find_id(self.drawings, id) {
            Some(i) => !self.drawings[i].locked ==> forall|k: int|
                0 <= k < self.drawings[i].points.len() ==> shift_ok(
                    #[trigger] self.drawings[i].points[k],
                    dt,
                    dp,
                ),
            None => true,
        }
    }

    /// Move every point of drawing `id`, unless it is locked.
    pub open spec fn move_drawing(self, id: DrawingId, dt: i64, dp: i64) -> ManagerView {
        match find_id(self.drawings, id) {
            Some(i) => if !self.drawings[i].locked {
                ManagerView {
                    drawings: self.drawings.update(
                        i,
                        DrawingView {
                            points: self.drawings[i].points.map_values(
                                |p: DrawingPoint| shift_point(p, dt, dp),
                            ),
                            ..self.drawings[i]
                        },
                    ),
                    ..self
                }
            } else {
                self
            },
            None => self,
        }
    }

    /// Remember drawing `id` as it is before an edit (once per edit).
    pub open spec fn start_move_edit(self, id: DrawingId) -> ManagerView {
        if self.move_edit_before is Some {
            self
        } else {
            match find_id(self.drawings, id) {
                Some(i) => ManagerView {
                    move_edit_before: Some((id, self.drawings[i].to_ser())),
                    ..self
                },
                None => self,
            }
        }
    }

    /// Record the edit begun by `start_move_edit`.
    pub open spec fn finish_move_edit(self) -> ManagerView {
        match self.move_edit_before {
            None => self,
            Some((id, before)) => {
                let cleared = ManagerView { move_edit_before: None, ..self };
                match find_id(self.drawings, id) {
                    Some(i) => cleared.record(OpView::Modify(id, before, self.drawings[i].to_ser())),
                    None => cleared,
                }
            },
        }
    }

    /// Record a change of drawing `id` from `before` to its present state.
    pub open spec fn record_change(self, id: DrawingId, before: SerializableDrawingView) -> ManagerView {
        match find_id(self.drawings, id) {
            Some(i) => self.record(OpView::Modify(id, before, self.drawings[i].to_ser())),
            None => self,
        }
    }

    /// Time and price offsets from the last drag point to `p`.
    pub open spec fn drag_delta(self, p: DrawingPoint) -> (int, int) {
        match self.last_drag_point {
            Some(l) => (((p.time as i64) - (l.time as i64)), p.price.units - l.price.units),
            None => (0, 0),
        }
    }

    /// A whole-drawing drag to `p` stays within `i64`.
    pub open spec fn drag_ok(self, id: DrawingId, p: DrawingPoint) -> bool {
        let (dt, dp) = self.drag_delta(p);
        self.last_drag_point is Some ==> {
            &&& i64::MIN <= dt <= i64::MAX
            &&& i64::MIN <= dp <= i64::MAX
            &&& self.move_ok(id, dt as i64, dp as i64)
        }
    }

    /// Drag drawing `id` so that it follows the cursor to `p`.
    pub open spec fn update_drag(self, id: DrawingId, p: DrawingPoint) -> ManagerView {
        let (dt, dp) = self.drag_delta(p);
        if self.last_drag_point is Some {
            ManagerView {
                last_drag_point: Some(p),
                ..self.move_drawing(id, dt as i64, dp as i64)
            }
        } else {
            self
        }
    }

    /// Moving each of `ps` by (`dt`, `dp`) stays within `i64`.
    pub open spec fn all_shift_ok(ps: Seq<DrawingPoint>, dt: i64, dp: i64) -> bool {
        forall|k: int| 0 <= k < ps.len() ==> shift_ok(#[trigger] ps[k], dt, dp)
    }

    /// Start placing a clone of `d` anchored at the centre of its points.
    pub open spec fn start_clone(self, d: DrawingView) -> ManagerView {
        let n = if d.points.len() == 0 { 1int } else { d.points.len() as int };
        ManagerView {
            clone: Some(
                CloneView {
                    drawing: d,
                    original_points: d.points,
                    center_time: trunc_div(sum_time(d.points, d.points.len() as int), n) as i64,
                    center_price: trunc_div(sum_price(d.points, d.points.len() as int), n) as i64,
                },
            ),
            ..self
        }
    }

    /// Offsets from the clone's anchor to `cursor`.
    pub open spec fn clone_delta(self, cursor: DrawingPoint) -> (int, int) {
        match self.clone {
            Some(c) => ((cursor.time as i64) - c.center_time, cursor.price.units - c.center_price),
            None => (0, 0),
        }
    }

    /// Moving the clone to `cursor` stays within `i64`.
    pub open spec fn clone_move_ok(self, cursor: DrawingPoint) -> bool {
        let (dt, dp) = self.clone_delta(cursor);
        self.clone matches Some(c) ==> {
            &&& i64::MIN <= dt <= i64::MAX
            &&& i64::MIN <= dp <= i64::MAX
            &&& Self::all_shift_ok(c.original_points, dt as i64, dp as i64)
        }
    }

    /// Move the clone so that its anchor follows `cursor`.
    pub open spec fn update_clone(self, cursor: DrawingPoint) -> ManagerView {
        let (dt, dp) = self.clone_delta(cursor);
        match self.clone {
            Some(c) => ManagerView {
                clone: Some(
                    CloneView {
                        drawing: DrawingView {
                            points: c.original_points.map_values(
                                |p: DrawingPoint| shift_point(p, dt as i64, dp as i64),
                            ),
                            ..c.drawing
                        },
                        ..c
                    },
                ),
                ..self
            },
            None => self,
        }
    }

    /// Add the clone being placed to the drawings and record it.
    pub open spec fn confirm_clone(self) -> ManagerView {
        match self.clone {
            Some(c) => ManagerView {
                drawings: self.drawings.push(c.drawing),
                clone: None,
                ..self.record(OpView::Add(c.drawing.to_ser()))
            },
            None => self,
        }
    }

    /// Undo the most recent operation.
    pub open spec fn undo(self) -> ManagerView {
        if self.undo.len() == 0 {
            self
        } else {
            let op = self.undo.last();
            let rest = ManagerView {
                undo: self.undo.drop_last(),
                redo: self.redo.push(op),
                ..self
            };
            match op {
                OpView::Add(d) => ManagerView {
                    drawings: without_id(self.drawings, d.id),
                    selected: self.selected.remove(d.id.value),
                    ..rest
                },
                OpView::Remove(d) => ManagerView {
                    drawings: self.drawings.push(d.to_drawing()),
                    ..rest
                },
                OpView::Modify(id, before, _) => ManagerView {
                    drawings: replace_first(self.drawings, id, before.to_drawing()),
                    ..rest
                },
            }
        }
    }

    /// Redo the most recently undone operation.
    pub open spec fn redo(self) -> ManagerView {
        if self.redo.len() == 0 {
            self
        } else {
            let op = self.redo.last();
            let rest = ManagerView {
                redo: self.redo.drop_last(),
                undo: self.undo.push(op),
                ..self
            };
            match op {
                OpView::Add(d) => ManagerView {
                    drawings: self.drawings.push(d.to_drawing()),
                    ..rest
                },
                OpView::Remove(d) => ManagerView {
                    drawings: without_id(self.drawings, d.id),
                    selected: self.selected.remove(d.id.value),
                    ..rest
                },
                OpView::Modify(id, _, after) => ManagerView {
                    drawings: replace_first(self.drawings, id, after.to_drawing()),
                    ..rest
                },
            }
        }
    }
}

impl View for DrawingManager {
    type V = ManagerView;

    closed spec fn view(&self) -> ManagerView {
        ManagerView {
            drawings: self.drawings@.map_values(|d: Drawing| d@),
            selected: self.selected@,
            pending: opt_drawing_view(self.pending),
            active_tool: self.active_tool,
            snap_enabled: self.snap_enabled,
            default_style: self.default_style@,
            undo: self.undo_stack@.map_values(|op: DrawingOp| op@),
            redo: self.redo_stack@.map_values(|op: DrawingOp| op@),
            move_edit_before: match self.move_edit_before {
                Some((id, d)) => Some((id, d@)),
                None => None,
            },
            last_drag_point: self.last_drag_point,
            clone: match self.clone_placement {
                Some(c) => Some(
                    CloneView {
                        drawing: c.drawing@,
                        original_points: c.original_points@,
                        center_time: c.center_time,
                        center_price: c.center_price,
                    },
                ),
                None => None,
            },
        }
    }
}

impl DrawingManager {
    /// Create a new drawing manager.
    pub fn new() -> (r: DrawingManager)
        ensures
            r@ == ManagerView::initial(Seq::empty()),
            r@.wf(),
    {
        let r = DrawingManager {
            drawings: Vec::new(),
            selected: HashSet::new(),
            pending: None,
            active_tool: DrawingTool::NoTool,
            snap_enabled: true,
            default_style: DrawingStyle::default(),
            undo_stack: VecDeque::new(),
            redo_stack: VecDeque::new(),
            move_edit_before: None,
            last_drag_point: None,
            clone_placement: None,
        };
        proof {
            assert(r@.drawings =~= Seq::<DrawingView>::empty());
            assert(r@.undo =~= Seq::<OpView>::empty());
            assert(r@.redo =~= Seq::<OpView>::empty());
        }
        r
    }

    /// Position of the first drawing with the given id.
    fn position(&self, id: DrawingId) -> (r: Option<usize>)
        ensures
            match r {
                Some(i) => find_id(self@.drawings, id) == Some(i as int),
                None => find_id(self@.drawings, id) is None,
            },
    {
        let ghost ds = self@.drawings;
        let mut i: usize = 0;
        while i < self.drawings.len()
            invariant
                i <= self.drawings.len(),
                ds == self@.drawings,
                ds.len() == self.drawings.len(),
                forall|j: int| 0 <= j < i ==> ds[j].id != id,
            decreases self.drawings.len() - i,
        {
            if self.drawings[i].id() == id {
                proof {
                    assert(is_first_with_id(ds, id, i as int));
                    let k = choose|k: int| is_first_with_id(ds, id, k);
                    if k < i {
                        assert(ds[k].id != id);
                    }
                    if k > i {
                        assert(ds[i as int].id != id);
                    }
                }
                return Some(i);
            }
            i += 1;
        }
        proof {
            assert(!exists|k: int| is_first_with_id(ds, id, k));
        }
        None
    }

    /// Push an operation onto the undo stack, clearing the redo stack.
    fn push_undo(&mut self, op: DrawingOp)
        requires
            old(self)@.wf(),
        ensures
            final(self)@ == old(self)@.record(op@),
            final(self)@.wf(),
    {
        let ghost before = self@;
        let ghost opv = op@;
        self.undo_stack.push_back(op);
        self.redo_stack.clear();
        proof {
            assert(self@.undo =~= before.undo.push(opv));
            assert(self@.redo =~= Seq::<OpView>::empty());
            assert(self@ == (ManagerView { undo: before.undo.push(opv), redo: Seq::empty(), ..before }));
        }
        self.trim_undo_stack();
    }

    /// Trim the undo stack to its most recent `MAX_UNDO_STACK` operations.
    fn trim_undo_stack(&mut self)
        ensures
            final(self)@ == (ManagerView { undo: trim_history(old(self)@.undo), ..old(self)@ }),
    {
        let ghost s = old(self)@.undo;
        proof {
            assert(s.subrange(0, s.len() as int) =~= s);
        }
        while self.undo_stack.len() > MAX_UNDO_STACK
            invariant
                self@ == (ManagerView { undo: self@.undo, ..old(self)@ }),
                self@.undo.len() <= s.len(),
                self@.undo == s.subrange(s.len() - self@.undo.len(), s.len() as int),
                s.len() > MAX_UNDO_STACK ==> self@.undo.len() >= MAX_UNDO_STACK,
                s.len() <= MAX_UNDO_STACK ==> self@.undo.len() == s.len(),
            decreases self.undo_stack.len(),
        {
            let ghost u = self@.undo;
            self.undo_stack.pop_front();
            proof {
                assert(self@.undo =~= u.drop_first());
                assert(self@.undo =~= s.subrange(s.len() - self@.undo.len(), s.len() as int));
            }
        }
    }

    /// Remove every drawing with identifier `id`, keeping the others in order.
    fn remove_all_with_id(&mut self, id: DrawingId)
        ensures
            final(self)@ == (ManagerView { drawings: without_id(old(self)@.drawings, id), ..old(self)@ }),
    {
        let mut taken: Vec<Drawing> = Vec::new();
        std::mem::swap(&mut taken, &mut self.drawings);
        let ghost orig = taken@;
        let ghost origv = orig.map_values(|d: Drawing| d@);
        let ghost pred = |d: DrawingView| d.id != id;
        for d in iter: taken
            invariant
                iter.seq() == orig,
                origv == orig.map_values(|d: Drawing| d@),
                pred == (|d: DrawingView| d.id != id),
                self@ == (ManagerView { drawings: self@.drawings, ..old(self)@ }),
                self@.drawings == origv.take(iter.index() as int).filter(pred),
        {
            proof {
                let k = iter.index() as int;
                assert(origv.take(k + 1).drop_last() =~= origv.take(k));
                reveal_with_fuel(Seq::filter, 1);
            }
            let ghost before = self@.drawings;
            if d.id() != id {
                self.drawings.push(d);
                proof {
                    assert(self@.drawings =~= before.push(orig[iter.index() as int]@));
                }
            }
        }
        proof {
            assert(origv.take(origv.len() as int) =~= origv);
        }
    }

    /// Add a completed drawing directly (e.g. for cloning).
    pub fn add_drawing(&mut self, drawing: Drawing)
        requires
            old(self)@.wf(),
        ensures
            final(self)@ == old(self)@.add(drawing@),
            final(self)@.wf(),
    {
        let ghost dv = drawing@;
        self.push_undo(DrawingOp::Add(drawing.to_serializable()));
        let ghost mid = self@.drawings;
        self.drawings.push(drawing);
        proof {
            assert(self@.drawings =~= mid.push(dv));
        }
    }

    /// Delete a specific drawing.
    pub fn delete(&mut self, id: DrawingId)
        requires
            old(self)@.wf(),
        ensures
            final(self)@ == old(self)@.delete(id),
            final(self)@.wf(),
    {
        if let Some(pos) = self.position(id) {
            let op = DrawingOp::Remove(self.drawings[pos].to_serializable());
            self.push_undo(op);
        }
        self.remove_all_with_id(id);
        self.selected.remove(&id.value);
    }

    /// Undo the last drawing operation. Returns true if an operation was undone.
    pub fn undo(&mut self) -> (r: bool)
        requires
            old(self)@.wf(),
        ensures
            r == (old(self)@.undo.len() > 0),
            final(self)@ == old(self)@.undo(),
            final(self)@.wf(),
    {
        let ghost before = self@;
        match self.undo_stack.pop_back() {
            Some(op) => {
                let ghost opv = op@;
                proof {
                    assert(opv == before.undo.last());
                    assert(self@.undo =~= before.undo.drop_last());
                }
                match &op {
                    DrawingOp::Add(drawing) => {
                        self.remove_all_with_id(drawing.id);
                        self.selected.remove(&drawing.id.value);
                    },
                    DrawingOp::Remove(drawing) => {
                        let ghost mid = self@.drawings;
                        self.drawings.push(Drawing::from_serializable(drawing));
                        proof {
                            assert(self@.drawings =~= mid.push(drawing@.to_drawing()));
                        }
                    },
                    DrawingOp::Modify { id, before: saved, .. } => {
                        if let Some(pos) = self.position(*id) {
                            let ghost mid = self@.drawings;
                            self.drawings.set(pos, Drawing::from_serializable(saved));
                            proof {
                                assert(self@.drawings =~= mid.update(pos as int, saved@.to_drawing()));
                            }
                        }
                    },
                }
                let ghost mid = self@.redo;
                self.redo_stack.push_back(op);
                proof {
                    assert(self@.redo =~= mid.push(opv));
                }
                true
            },
            None => false,
        }
    }

    /// Redo the last undone operation. Returns true if an operation was redone.
    pub fn redo(&mut self) -> (r: bool)
        requires
            old(self)@.wf(),
        ensures
            r == (old(self)@.redo.len() > 0),
            final(self)@ == old(self)@.redo(),
            final(self)@.wf(),
    {
        let ghost before = self@;
        match self.redo_stack.pop_back() {
            Some(op) => {
                let ghost opv = op@;
                proof {
                    assert(opv == before.redo.last());
                    assert(self@.redo =~= before.redo.drop_last());
                }
                match &op {
                    DrawingOp::Add(drawing) => {
                        let ghost mid = self@.drawings;
                        self.drawings.push(Drawing::from_serializable(drawing));
                        proof {
                            assert(self@.drawings =~= mid.push(drawing@.to_drawing()));
                        }
                    },
                    DrawingOp::Remove(drawing) => {
                        self.remove_all_with_id(drawing.id);
                        self.selected.remove(&drawing.id.value);
                    },
                    DrawingOp::Modify { id, after, .. } => {
                        if let Some(pos) = self.position(*id) {
                            let ghost mid = self@.drawings;
                            self.drawings.set(pos, Drawing::from_serializable(after));
                            proof {
                                assert(self@.drawings =~= mid.update(pos as int, after@.to_drawing()));
                            }
                        }
                    },
                }
                let ghost mid = self@.undo;
                self.undo_stack.push_back(op);
                proof {
                    assert(self@.undo =~= mid.push(opv));
                }
                true
            },
            None => false,
        }
    }

    /// Check if undo is available.
    pub fn can_undo(&self) -> (r: bool)
        ensures
            r == (self@.undo.len() > 0),
    {
        self.undo_stack.len() > 0
    }

    /// Check if redo is available.
    pub fn can_redo(&self) -> (r: bool)
        ensures
            r == (self@.redo.len() > 0),
    {
        self.redo_stack.len() > 0
    }

    /// Drawings loaded from their storage form.
    fn load_all(drawings: &Vec<SerializableDrawing>) -> (r: Vec<Drawing>)
        ensures
            r@.map_values(|d: Drawing| d@) == drawings@.map_values(|s: SerializableDrawing| s@.to_drawing()),
    {
        let mut out: Vec<Drawing> = Vec::new();
        let mut i: usize = 0;
        while i < drawings.len()
            invariant
                i <= drawings.len(),
                out@.map_values(|d: Drawing| d@) == drawings@.take(i as int).map_values(
                    |s: SerializableDrawing| s@.to_drawing(),
                ),
            decreases drawings.len() - i,
        {
            let ghost before = out@;
            let d = Drawing::from_serializable(&drawings[i]);
            let ghost dv = d@;
            out.push(d);
            proof {
                assert(drawings@.take(i + 1).map_values(|s: SerializableDrawing| s@.to_drawing())
                    =~= drawings@.take(i as int).map_values(|s: SerializableDrawing| s@.to_drawing()).push(dv));
                assert(out@.map_values(|d: Drawing| d@) =~= before.map_values(|d: Drawing| d@).push(dv));
            }
            i += 1;
        }
        proof {
            assert(drawings@.take(drawings.len() as int) =~= drawings@);
        }
        out
    }

    /// Create from stored drawings.
    pub fn from_serializable(drawings: Vec<SerializableDrawing>) -> (r: DrawingManager)
        ensures
            r@ == ManagerView::initial(drawings@.map_values(|s: SerializableDrawing| s@.to_drawing())),
            r@.wf(),
    {
        let mut r = DrawingManager::new();
        r.drawings = Self::load_all(&drawings);
        proof {
            assert(r@.drawings =~= drawings@.map_values(|s: SerializableDrawing| s@.to_drawing()));
        }
        r
    }

    /// Get the currently active drawing tool.
    pub fn active_tool(&self) -> (r: DrawingTool)
        ensures
            r == self@.active_tool,
    {
        self.active_tool
    }

    /// Set the active drawing tool; a pending drawing is cancelled.
    pub fn set_tool(&mut self, tool: DrawingTool)
        ensures
            final(self)@ == (ManagerView { pending: None, active_tool: tool, ..old(self)@ }),
    {
        self.pending = None;
        self.active_tool = tool;
    }

    /// Check if snap is enabled.
    pub fn snap_enabled(&self) -> (r: bool)
        ensures
            r == self@.snap_enabled,
    {
        self.snap_enabled
    }

    /// Toggle snap mode.
    pub fn toggle_snap(&mut self)
        ensures
            final(self)@ == (ManagerView { snap_enabled: !old(self)@.snap_enabled, ..old(self)@ }),
    {
        self.snap_enabled = !self.snap_enabled;
    }

    /// Set snap mode.
    pub fn set_snap(&mut self, enabled: bool)
        ensures
            final(self)@ == (ManagerView { snap_enabled: enabled, ..old(self)@ }),
    {
        self.snap_enabled = enabled;
    }

    /// Get the default style.
    pub fn default_style(&self) -> (r: &DrawingStyle)
        ensures
            r@ == self@.default_style,
    {
        &self.default_style
    }

    /// Set the default style.
    pub fn set_default_style(&mut self, style: DrawingStyle)
        ensures
            final(self)@ == (ManagerView { default_style: style@, ..old(self)@ }),
    {
        self.default_style = style;
    }

    /// Cancel the pending drawing.
    pub fn cancel_pending(&mut self)
        ensures
            final(self)@ == (ManagerView { pending: None, ..old(self)@ }),
    {
        self.pending = None;
    }

    /// The pending drawing, if any.
    pub fn pending(&self) -> (r: Option<&Drawing>)
        ensures
            match r {
                Some(d) => self@.pending == Some(d@),
                None => self@.pending is None,
            },
    {
        self.pending.as_ref()
    }

    /// Check if there's a pending drawing.
    pub fn has_pending(&self) -> (r: bool)
        ensures
            r == self@.pending is Some,
    {
        self.pending.is_some()
    }

    /// All completed drawings.
    pub fn drawings(&self) -> (r: &[Drawing])
        ensures
            r@.map_values(|d: Drawing| d@) == self@.drawings,
    {
        self.drawings.as_slice()
    }

    /// The first drawing with the given id.
    pub fn get(&self, id: DrawingId) -> (r: Option<&Drawing>)
        ensures
            match r {
                Some(d) => find_id(self@.drawings, id) matches Some(i) && d@ == self@.drawings[i],
                None => find_id(self@.drawings, id) is None,
            },
    {
        match self.position(id) {
            Some(i) => Some(&self.drawings[i]),
            None => None,
        }
    }

    /// The first drawing with the given id, to edit in place.
    pub fn get_mut(&mut self, id: DrawingId) -> (r: Option<&mut Drawing>)
        ensures
            match find_id(old(self)@.drawings, id) {
                Some(i) => r matches Some(d) && (*d)@ == old(self)@.drawings[i] && final(self)@ == (ManagerView {
                    drawings: old(self)@.drawings.update(i, (*final(d))@),
                    ..old(self)@
                }),
                None => r is None && final(self)@ == old(self)@,
            },
    {
        match self.position(id) {
            Some(i) => {
                let ghost before = self.drawings@;
                let d = &mut self.drawings[i];
                proof {
                    lemma_update_views(before, i as int, *final(d));
                }
                Some(d)
            },
            None => None,
        }
    }

    /// Select a drawing (and nothing else).
    pub fn select(&mut self, id: DrawingId)
        ensures
            final(self)@ == (ManagerView { selected: set![id.value], ..old(self)@ }),
    {
        self.selected.clear();
        self.selected.insert(id.value);
        proof {
            assert(self@.selected =~= set![id.value]);
        }
    }

    /// Add a drawing to the selection.
    pub fn add_to_selection(&mut self, id: DrawingId)
        ensures
            final(self)@ == (ManagerView { selected: old(self)@.selected.insert(id.value), ..old(self)@ }),
    {
        self.selected.insert(id.value);
    }

    /// Clear the selection.
    pub fn clear_selection(&mut self)
        ensures
            final(self)@ == (ManagerView { selected: Set::empty(), ..old(self)@ }),
    {
        self.selected.clear();
    }

    /// Check if a drawing is selected.
    pub fn is_selected(&self, id: DrawingId) -> (r: bool)
        ensures
            r == self@.selected.contains(id.value),
    {
        self.selected.contains(&id.value)
    }

    /// The selected drawing ids (their 128-bit values).
    pub fn selected_ids(&self) -> (r: &HashSet<u128>)
        ensures
            r@ == self@.selected,
    {
        &self.selected
    }

    /// Storage form of all drawings.
    pub fn to_serializable(&self) -> (r: Vec<SerializableDrawing>)
        ensures
            r@.map_values(|s: SerializableDrawing| s@) == self@.drawings.map_values(
                |d: DrawingView| d.to_ser(),
            ),
    {
        let mut out: Vec<SerializableDrawing> = Vec::new();
        let mut i: usize = 0;
        while i < self.drawings.len()
            invariant
                i <= self.drawings.len(),
                out@.map_values(|s: SerializableDrawing| s@) == self@.drawings.take(
                    i as int,
                ).map_values(|d: DrawingView| d.to_ser()),
            decreases self.drawings.len() - i,
        {
            let ghost before = out@;
            let sd = self.drawings[i].to_serializable();
            let ghost sv = sd@;
            out.push(sd);
            proof {
                assert(self@.drawings.take(i + 1).map_values(|d: DrawingView| d.to_ser())
                    =~= self@.drawings.take(i as int).map_values(|d: DrawingView| d.to_ser()).push(sv));
                assert(out@.map_values(|s: SerializableDrawing| s@) =~= before.map_values(|s: SerializableDrawing| s@).push(sv));
            }
            i += 1;
        }
        proof {
            assert(self@.drawings.take(self.drawings.len() as int) =~= self@.drawings);
        }
        out
    }

    /// Replace all drawings by stored ones; the selection is cleared.
    pub fn load_drawings(&mut self, drawings: Vec<SerializableDrawing>)
        ensures
            final(self)@ == (ManagerView {
                drawings: drawings@.map_values(|s: SerializableDrawing| s@.to_drawing()),
                selected: Set::empty(),
                ..old(self)@
            }),
    {
        self.drawings = Self::load_all(&drawings);
        self.selected.clear();
        proof {
            assert(self@.drawings =~= drawings@.map_values(|s: SerializableDrawing| s@.to_drawing()));
        }
    }

    /// No drawings and nothing being drawn.
    pub fn is_empty(&self) -> (r: bool)
        ensures
            r == (self@.drawings.len() == 0 && self@.pending is None),
    {
        self.drawings.len() == 0 && self.pending.is_none()
    }

    /// Number of drawings.
    pub fn len(&self) -> (r: usize)
        ensures
            r == self@.drawings.len(),
    {
        self.drawings.len()
    }

    /// Whether a drag is in progress.
    pub fn is_dragging(&self) -> (r: bool)
        ensures
            r == self@.last_drag_point is Some,
    {
        self.last_drag_point.is_some()
    }

    /// Whether a clone is being placed.
    pub fn has_clone_pending(&self) -> (r: bool)
        ensures
            r == self@.clone is Some,
    {
        self.clone_placement.is_some()
    }

    /// The clone being placed, for rendering.
    pub fn clone_preview(&self) -> (r: Option<&Drawing>)
        ensures
            match r {
                Some(d) => self@.clone matches Some(c) && d@ == c.drawing,
                None => self@.clone is None,
            },
    {
        match &self.clone_placement {
            Some(p) => Some(&p.drawing),
            None => None,
        }
    }

    /// Cancel clone placement without adding the drawing.
    pub fn cancel_clone_placement(&mut self)
        ensures
            final(self)@ == (ManagerView { clone: None, ..old(self)@ }),
    {
        self.clone_placement = None;
    }

    /// Start a new drawing at the given point with the active tool.
    /// Returns `Some(id)` if the drawing completed immediately (single-point tools).
    pub fn start_drawing(&mut self, point: DrawingPoint) -> (r: Option<DrawingId>)
        requires
            old(self)@.wf(),
        ensures
            final(self)@.wf(),
            exists|id: DrawingId|
                is_v4_value(id.value) && id.value != 0 && final(self)@ == #[trigger] old(self)@.start(point, id) && r
                    == old(self)@.started_id(point, id),
    {
        if self.active_tool == DrawingTool::NoTool {
            proof {
                let id = DrawingId { value: 0x4000_8000_0000_0000_0000u128 };
                assert(0x4000_8000_0000_0000_0000u128 & 0xF000_C000_0000_0000_0000u128
                    == 0x4000_8000_0000_0000_0000u128) by (bit_vector);
                assert(self@ == old(self)@.start(point, id));
            }
            return None;
        }
        let mut drawing = Drawing::with_style(self.active_tool, self.default_style.copy());
        let ghost id = drawing@.id;
        drawing.add_point(point);
        if drawing.is_complete() {
            let id = drawing.id();
            self.push_undo(DrawingOp::Add(drawing.to_serializable()));
            let ghost mid = self@.drawings;
            let ghost dv = drawing@;
            self.drawings.push(drawing);
            self.pending = None;
            proof {
                assert(self@.drawings =~= mid.push(dv));
                assert(self@ == old(self)@.start(point, id));
            }
            Some(id)
        } else {
            self.pending = Some(drawing);
            proof {
                assert(self@ == old(self)@.start(point, id));
            }
            None
        }
    }

    /// Update the preview point of the pending drawing.
    pub fn update_preview(&mut self, point: DrawingPoint)
        ensures
            final(self)@ == (ManagerView {
                pending: match old(self)@.pending {
                    Some(d) => Some(d.after_preview(point)),
                    None => None,
                },
                ..old(self)@
            }),
    {
        match self.pending.take() {
            Some(mut drawing) => {
                drawing.update_preview_point(point);
                self.pending = Some(drawing);
            },
            None => {},
        }
    }

    /// Confirm the final point of the pending drawing; once complete it is
    /// added to the drawings and its id returned.
    pub fn complete_drawing(&mut self, point: DrawingPoint) -> (r: Option<DrawingId>)
        requires
            old(self)@.wf(),
        ensures
            final(self)@ == old(self)@.complete_pending(point),
            r == old(self)@.completed_id(point),
            final(self)@.wf(),
    {
        if let Some(mut drawing) = self.pending.take() {
            drawing.add_point(point);
            if drawing.is_complete() {
                let id = drawing.id();
                self.push_undo(DrawingOp::Add(drawing.to_serializable()));
                let ghost mid = self@.drawings;
                let ghost dv = drawing@;
                self.drawings.push(drawing);
                proof {
                    assert(self@.drawings =~= mid.push(dv));
                }
                return Some(id);
            } else {
                // Not complete yet, put it back
                self.pending = Some(drawing);
            }
        }
        None
    }

    /// Remove every selected drawing, keeping the others in order.
    fn remove_selected_drawings(&mut self)
        ensures
            final(self)@ == (ManagerView {
                drawings: old(self)@.drawings.filter(|d: DrawingView| !old(self)@.is_sel(d)),
                ..old(self)@
            }),
    {
        let ghost v0 = self@;
        let mut taken: Vec<Drawing> = Vec::new();
        std::mem::swap(&mut taken, &mut self.drawings);
        let ghost orig = taken@;
        let ghost origv = orig.map_values(|d: Drawing| d@);
        let ghost pred = |d: DrawingView| !v0.is_sel(d);
        for d in iter: taken
            invariant
                iter.seq() == orig,
                origv == orig.map_values(|d: Drawing| d@),
                v0 == old(self)@,
                pred == (|d: DrawingView| !v0.is_sel(d)),
                self@ == (ManagerView { drawings: self@.drawings, ..v0 }),
                self@.drawings == origv.take(iter.index() as int).filter(pred),
        {
            proof {
                let k = iter.index() as int;
                assert(origv.take(k + 1).drop_last() =~= origv.take(k));
                reveal_with_fuel(Seq::filter, 1);
            }
            let ghost before = self@.drawings;
            if !self.selected.contains(&d.id().value) {
                self.drawings.push(d);
                proof {
                    assert(self@.drawings =~= before.push(orig[iter.index() as int]@));
                }
            }
        }
        proof {
            assert(origv.take(origv.len() as int) =~= origv);
        }
    }

    /// Delete the selected drawings, recording a removal for each.
    pub fn delete_selected(&mut self)
        requires
            old(self)@.wf(),
        ensures
            final(self)@ == old(self)@.delete_selected(),
            final(self)@.wf(),
    {
        let ghost v0 = self@;
        let ghost sel = |d: DrawingView| v0.is_sel(d);
        let ghost f = |d: DrawingView| OpView::Remove(d.to_ser());
        let mut i: usize = 0;
        while i < self.drawings.len()
            invariant
                i <= self.drawings.len(),
                v0 == old(self)@,
                sel == (|d: DrawingView| v0.is_sel(d)),
                f == (|d: DrawingView| OpView::Remove(d.to_ser())),
                self@ == (ManagerView {
                    undo: v0.undo + v0.drawings.take(i as int).filter(sel).map_values(f),
                    ..v0
                }),
            decreases self.drawings.len() - i,
        {
            let ghost u = self@.undo;
            proof {
                assert(v0.drawings.take(i + 1).drop_last() =~= v0.drawings.take(i as int));
                reveal_with_fuel(Seq::filter, 1);
            }
            if self.selected.contains(&self.drawings[i].id().value) {
                let op = DrawingOp::Remove(self.drawings[i].to_serializable());
                let ghost opv = op@;
                self.undo_stack.push_back(op);
                proof {
                    assert(self@.undo =~= u.push(opv));
                    assert(v0.drawings.take(i + 1).filter(sel) == v0.drawings.take(i as int).filter(sel).push(v0.drawings[i as int]));
                    assert(v0.drawings.take(i + 1).filter(sel).map_values(f) =~= v0.drawings.take(i as int).filter(sel).map_values(f).push(opv));
                    assert(self@.undo =~= v0.undo + v0.drawings.take(i + 1).filter(sel).map_values(f));
                }
            } else {
                proof {
                    assert(v0.drawings.take(i + 1).filter(sel) == v0.drawings.take(i as int).filter(sel));
                }
            }
            i += 1;
        }
        proof {
            assert(v0.drawings.take(v0.drawings.len() as int) =~= v0.drawings);
        }
        self.redo_stack.clear();
        self.trim_undo_stack();
        let ghost mid = self@;
        self.remove_selected_drawings();
        let ghost kept = self@.drawings;
        self.selected.clear();
        proof {
            assert((|d: DrawingView| !mid.is_sel(d)) =~= (|d: DrawingView| !v0.is_sel(d)));
            assert(kept == v0.drawings.filter(|d: DrawingView| !v0.is_sel(d)));
            assert(self@.redo =~= Seq::<OpView>::empty());
            let target = v0.delete_selected();
            assert(self@.drawings == target.drawings);
            assert(self@.undo == target.undo);
            assert(self@.selected == target.selected);
        }
    }

    /// Take the drawing at `pos` out of the list.
    fn take_drawing(&mut self, pos: usize) -> (r: Drawing)
        requires
            pos < old(self)@.drawings.len(),
        ensures
            r@ == old(self)@.drawings[pos as int],
            final(self)@ == (ManagerView { drawings: old(self)@.drawings.remove(pos as int), ..old(self)@ }),
    {
        let r = self.drawings.remove(pos);
        proof {
            assert(self@.drawings =~= old(self)@.drawings.remove(pos as int));
        }
        r
    }

    /// Put a drawing back at `pos`.
    fn put_drawing(&mut self, pos: usize, d: Drawing)
        requires
            pos <= old(self)@.drawings.len(),
        ensures
            final(self)@ == (ManagerView { drawings: old(self)@.drawings.insert(pos as int, d@), ..old(self)@ }),
    {
        self.drawings.insert(pos, d);
        proof {
            assert(self@.drawings =~= old(self)@.drawings.insert(pos as int, d@));
        }
    }

    /// Move one point of a drawing (for handle dragging).
    pub fn move_point(&mut self, id: DrawingId, point_index: usize, new_point: DrawingPoint)
        ensures
            final(self)@ == old(self)@.move_point(id, point_index as nat, new_point),
    {
        if let Some(pos) = self.position(id) {
            if point_index < self.drawings[pos].point_count() && !self.drawings[pos].is_locked() {
                let ghost ds = self@.drawings;
                let mut d = self.take_drawing(pos);
                d.set_point(point_index, new_point);
                self.put_drawing(pos, d);
                proof {
                    assert(self@.drawings =~= old(self)@.move_point(id, point_index as nat, new_point).drawings);
                }
            }
        }
    }

    /// Move an entire drawing by an offset, unless it is locked.
    pub fn move_drawing(&mut self, id: DrawingId, delta_time: i64, delta_price: i64)
        requires
            old(self)@.move_ok(id, delta_time, delta_price),
        ensures
            final(self)@ == old(self)@.move_drawing(id, delta_time, delta_price),
    {
        if let Some(pos) = self.position(id) {
            if self.drawings[pos].is_locked() {
                return;
            }
            let mut d = self.take_drawing(pos);
            d.shift(delta_time, delta_price);
            self.put_drawing(pos, d);
            proof {
                assert(self@.drawings =~= old(self)@.move_drawing(id, delta_time, delta_price).drawings);
            }
        }
    }

    /// Start tracking a move/edit operation for undo support (once per edit).
    pub fn start_move_edit(&mut self, id: DrawingId)
        ensures
            final(self)@ == old(self)@.start_move_edit(id),
    {
        if self.move_edit_before.is_some() {
            return;
        }
        if let Some(pos) = self.position(id) {
            self.move_edit_before = Some((id, self.drawings[pos].to_serializable()));
        }
    }

    /// Finish tracking a move/edit operation: record it for undo.
    pub fn finish_move_edit(&mut self)
        requires
            old(self)@.wf(),
        ensures
            final(self)@ == old(self)@.finish_move_edit(),
            final(self)@.wf(),
    {
        if let Some((id, before)) = self.move_edit_before.take() {
            if let Some(pos) = self.position(id) {
                let after = self.drawings[pos].to_serializable();
                self.push_undo(DrawingOp::Modify { id, before, after });
            }
        }
    }

    /// Record a property change for undo, bypassing the move/edit guard.
    pub fn record_property_change(&mut self, id: DrawingId, before: SerializableDrawing)
        requires
            old(self)@.wf(),
        ensures
            final(self)@ == old(self)@.record_change(id, before@),
            final(self)@.wf(),
    {
        if let Some(pos) = self.position(id) {
            let after = self.drawings[pos].to_serializable();
            self.push_undo(DrawingOp::Modify { id, before, after });
        }
    }

    /// Start a drag of drawing `id` from `point`.
    pub fn start_drag(&mut self, point: DrawingPoint, id: DrawingId)
        ensures
            final(self)@ == (ManagerView { last_drag_point: Some(point), ..old(self)@.start_move_edit(id) }),
    {
        self.start_move_edit(id);
        self.last_drag_point = Some(point);
    }

    /// Update a whole-drawing drag with relative movement.
    pub fn update_drag(&mut self, id: DrawingId, new_point: DrawingPoint)
        requires
            old(self)@.drag_ok(id, new_point),
        ensures
            final(self)@ == old(self)@.update_drag(id, new_point),
    {
        if let Some(last) = self.last_drag_point {
            let dt = new_point.time as i64 - last.time as i64;
            let dp = new_point.price.units - last.price.units;
            self.move_drawing(id, dt, dp);
            self.last_drag_point = Some(new_point);
        }
    }

    /// Update a single-handle drag.
    pub fn update_handle_drag(&mut self, id: DrawingId, handle_index: usize, new_point: DrawingPoint)
        ensures
            final(self)@ == (ManagerView {
                last_drag_point: Some(new_point),
                ..old(self)@.move_point(id, handle_index as nat, new_point)
            }),
    {
        self.move_point(id, handle_index, new_point);
        self.last_drag_point = Some(new_point);
    }

    /// End a drag operation and record the edit.
    pub fn end_drag(&mut self)
        requires
            old(self)@.wf(),
        ensures
            final(self)@ == (ManagerView { last_drag_point: None, ..old(self)@ }).finish_move_edit(),
            final(self)@.wf(),
    {
        self.last_drag_point = None;
        self.finish_move_edit();
    }

    /// Start clone placement: the drawing follows the cursor until confirmed.
    pub fn start_clone_placement(&mut self, drawing: Drawing)
        requires
            old(self)@.wf(),
            sums_fit(drawing@.points),
            drawing@.points.len() <= i64::MAX,
        ensures
            final(self)@ == old(self)@.start_clone(drawing@),
            final(self)@.wf(),
    {
        let original_points = drawing.copy_points();
        let ghost ps = original_points@;
        let len = original_points.len();
        let n: i64 = if len == 0 { 1 } else { len as i64 };
        let mut total_time: i64 = 0;
        let mut total_price: i64 = 0;
        let mut i: usize = 0;
        while i < len
            invariant
                i <= len,
                len == ps.len(),
                ps == original_points@,
                sums_fit(ps),
                total_time == sum_time(ps, i as int),
                total_price == sum_price(ps, i as int),
            decreases len - i,
        {
            proof {
                assert(i64::MIN <= sum_time(ps, i + 1) <= i64::MAX);
                assert(i64::MIN <= sum_price(ps, i + 1) <= i64::MAX);
            }
            total_time = total_time + original_points[i].time as i64;
            total_price = total_price + original_points[i].price.units;
            i += 1;
        }
        let center_time = total_time / n;
        let center_price = total_price / n;
        self.clone_placement = Some(ClonePlacement {
            drawing,
            original_points,
            center_time,
            center_price,
        });
    }

    /// Move the clone so that it follows the cursor.
    pub fn update_clone_position(&mut self, cursor: DrawingPoint)
        requires
            old(self)@.wf(),
            old(self)@.clone_move_ok(cursor),
        ensures
            final(self)@ == old(self)@.update_clone(cursor),
            final(self)@.wf(),
    {
        match self.clone_placement.take() {
            Some(mut placement) => {
                let dt = cursor.time as i64 - placement.center_time;
                let dp = cursor.price.units - placement.center_price;
                let ghost orig = placement.original_points@;
                let ghost d0 = placement.drawing@;
                let n = placement.drawing.point_count();
                let mut i: usize = 0;
                while i < n
                    invariant
                        i <= n,
                        n == orig.len(),
                        orig == placement.original_points@,
                        ManagerView::all_shift_ok(orig, dt, dp),
                        placement.drawing@ == (DrawingView { points: placement.drawing@.points, ..d0 }),
                        placement.drawing@.points.len() == n,
                        forall|k: int| 0 <= k < i ==> placement.drawing@.points[k] == shift_point(orig[k], dt, dp),
                        placement.center_time == old(self)@.clone->0.center_time,
                        placement.center_price == old(self)@.clone->0.center_price,
                    decreases n - i,
                {
                    proof {
                        assert(shift_ok(orig[i as int], dt, dp));
                    }
                    let p = shifted(placement.original_points[i], dt, dp);
                    placement.drawing.set_point(i, p);
                    i += 1;
                }
                proof {
                    assert(placement.drawing@.points =~= orig.map_values(|p: DrawingPoint| shift_point(p, dt, dp)));
                }
                self.clone_placement = Some(placement);
            },
            None => {},
        }
    }

    /// Confirm clone placement: the clone is added and recorded. Returns its id.
    pub fn confirm_clone_placement(&mut self) -> (r: Option<DrawingId>)
        requires
            old(self)@.wf(),
        ensures
            final(self)@ == old(self)@.confirm_clone(),
            r == (match old(self)@.clone {
                Some(c) => Some(c.drawing.id),
                None => None,
            }),
            final(self)@.wf(),
    {
        if let Some(placement) = self.clone_placement.take() {
            let id = placement.drawing.id();
            self.push_undo(DrawingOp::Add(placement.drawing.to_serializable()));
            let ghost mid = self@.drawings;
            let ghost dv = placement.drawing@;
            self.drawings.push(placement.drawing);
            proof {
                assert(self@.drawings =~= mid.push(dv));
            }
            Some(id)
        } else {
            None
        }
    }
}

impl Default for DrawingManager {
    fn default() -> (r: DrawingManager)
        ensures
            r@ == ManagerView::initial(Seq::empty()),
            r@.wf(),
    {
        DrawingManager::new()
    }
}

} // verus!
