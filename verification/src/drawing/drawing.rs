//! A single drawing on the chart: its anchor points, style and metadata.

use super::point::{
    DrawingPoint, SerializablePoint, point_from_ser, point_to_ser, shift_ok, shift_point, shifted,
};
use super::style::{DrawingStyle, Rgba8, StyleView};
use super::tool::{DrawingId, DrawingTool, is_v4_value};
use vstd::prelude::*;

verus! {

/// A drawing on the chart.
#[derive(Debug)]
pub struct Drawing {
    /// Unique identifier.
    pub id: DrawingId,
    /// Type of drawing.
    pub tool: DrawingTool,
    /// Anchor points; past the confirmed ones there may be one preview point.
    pub points: Vec<DrawingPoint>,
    /// Number of user-confirmed points (excludes the preview point).
    confirmed_count: usize,
    /// Visual style.
    pub style: DrawingStyle,
    /// Whether the drawing is visible.
    pub visible: bool,
    /// Whether the drawing is locked (cannot be edited).
    pub locked: bool,
    /// Optional user label.
    pub label: Option<String>,
}

/// Storage form of a [`Drawing`].
#[derive(Debug)]
pub struct SerializableDrawing {
    pub id: DrawingId,
    pub tool: DrawingTool,
    pub points: Vec<SerializablePoint>,
    pub style: DrawingStyle,
    pub visible: bool,
    pub locked: bool,
    pub label: Option<String>,
}

/// Mathematical value of a [`Drawing`].
pub struct DrawingView {
    pub id: DrawingId,
    pub tool: DrawingTool,
    pub points: Seq<DrawingPoint>,
    pub confirmed_count: nat,
    pub style: StyleView,
    pub visible: bool,
    pub locked: bool,
    pub label: Option<Seq<char>>,
}

/// Mathematical value of a [`SerializableDrawing`].
pub struct SerializableDrawingView {
    pub id: DrawingId,
    pub tool: DrawingTool,
    pub points: Seq<SerializablePoint>,
    pub style: StyleView,
    pub visible: bool,
    pub locked: bool,
    pub label: Option<Seq<char>>,
}

pub open spec fn label_view(label: Option<String>) -> Option<Seq<char>> {
    match label {
        Some(s) => Some(s@),
        None => None,
    }
}

impl View for Drawing {
    type V = DrawingView;

    closed spec fn view(&self) -> DrawingView {
        DrawingView {
            id: self.id,
            tool: self.tool,
            points: self.points@,
            confirmed_count: self.confirmed_count as nat,
            style: self.style@,
            visible: self.visible,
            locked: self.locked,
            label: label_view(self.label),
        }
    }
}

impl View for SerializableDrawing {
    type V = SerializableDrawingView;

    open spec fn view(&self) -> SerializableDrawingView {
        SerializableDrawingView {
            id: self.id,
            tool: self.tool,
            points: self.points@,
            style: self.style@,
            visible: self.visible,
            locked: self.locked,
            label: label_view(self.label),
        }
    }
}

impl DrawingView {
    /// All required points have been confirmed.
    pub open spec fn complete(self) -> bool {
        self.confirmed_count >= self.tool.required()
    }

    /// Storage form of this drawing (all points, preview included).
    pub open spec fn to_ser(self) -> SerializableDrawingView {
        SerializableDrawingView {
            id: self.id,
            tool: self.tool,
            points: self.points.map_values(|p: DrawingPoint| point_to_ser(p)),
            style: self.style,
            visible: self.visible,
            locked: self.locked,
            label: self.label,
        }
    }

    /// Points after confirming `point`: any preview point is dropped and
    /// `point` is added if the tool still needs points.
    pub open spec fn after_add_point(self, point: DrawingPoint) -> DrawingView {
        let kept = self.points.take(min_nat(self.confirmed_count, self.points.len()) as int);
        if self.confirmed_count < self.tool.required() {
            DrawingView {
                points: kept.push(point),
                confirmed_count: self.confirmed_count + 1,
                ..self
            }
        } else {
            DrawingView { points: kept, ..self }
        }
    }

    /// Points after moving the preview point to `point`.
    pub open spec fn after_preview(self, point: DrawingPoint) -> DrawingView {
        let kept = self.points.take(min_nat(self.confirmed_count, self.points.len()) as int);
        if 1 <= self.confirmed_count && self.confirmed_count < self.tool.required() {
            DrawingView { points: kept.push(point), ..self }
        } else {
            DrawingView { points: kept, ..self }
        }
    }
}

impl SerializableDrawingView {
    /// The drawing a stored drawing loads as: every stored point is confirmed.
    pub open spec fn to_drawing(self) -> DrawingView {
        DrawingView {
            id: self.id,
            tool: self.tool,
            points: self.points.map_values(|p: SerializablePoint| point_from_ser(p)),
            confirmed_count: self.points.len(),
            style: self.style,
            visible: self.visible,
            locked: self.locked,
            label: self.label,
        }
    }
}

pub open spec fn min_nat(a: nat, b: nat) -> nat {
    if a <= b { a } else { b }
}

/// A new, empty drawing of the given tool and style.
pub open spec fn fresh_drawing(id: DrawingId, tool: DrawingTool, style: StyleView) -> DrawingView {
    DrawingView {
        id,
        tool,
        points: Seq::empty(),
        confirmed_count: 0,
        style,
        visible: true,
        locked: false,
        label: None,
    }
}

/// Copy of an optional label.
pub fn copy_label(label: &Option<String>) -> (r: Option<String>)
    ensures
        label_view(r) == label_view(*label),
{
    match label {
        Some(s) => Some(s.clone()),
        None => None,
    }
}

fn points_to_ser(points: &Vec<DrawingPoint>) -> (r: Vec<SerializablePoint>)
    ensures
        r@ == points@.map_values(|p: DrawingPoint| point_to_ser(p)),
{
    let mut out: Vec<SerializablePoint> = Vec::new();
    let mut i: usize = 0;
    while i < points.len()
        invariant
            i <= points.len(),
            out@ == points@.take(i as int).map_values(|p: DrawingPoint| point_to_ser(p)),
        decreases points.len() - i,
    {
        out.push(points[i].to_serializable());
        i += 1;
        proof {
            assert(out@ =~= points@.take(i as int).map_values(|p: DrawingPoint| point_to_ser(p)));
        }
    }
    proof {
        assert(points@.take(points.len() as int) =~= points@);
    }
    out
}

fn points_from_ser(points: &Vec<SerializablePoint>) -> (r: Vec<DrawingPoint>)
    ensures
        r@ == points@.map_values(|p: SerializablePoint| point_from_ser(p)),
{
    let mut out: Vec<DrawingPoint> = Vec::new();
    let mut i: usize = 0;
    while i < points.len()
        invariant
            i <= points.len(),
            out@ == points@.take(i as int).map_values(|p: SerializablePoint| point_from_ser(p)),
        decreases points.len() - i,
    {
        out.push(DrawingPoint::from_serializable(&points[i]));
        i += 1;
        proof {
            assert(out@ =~= points@.take(i as int).map_values(
                |p: SerializablePoint| point_from_ser(p),
            ));
        }
    }
    proof {
        assert(points@.take(points.len() as int) =~= points@);
    }
    out
}

impl Drawing {
    /// Create a new drawing with the given tool and the default style.
    pub fn new(tool: DrawingTool) -> (r: Drawing)
        ensures
            r@ == fresh_drawing(r@.id, tool, DrawingStyle::spec_default()),
            is_v4_value(r@.id.value),
            r@.id.value != 0,
    {
        Drawing {
            id: DrawingId::new(),
            tool,
            points: Vec::new(),
            confirmed_count: 0,
            style: DrawingStyle::default(),
            visible: true,
            locked: false,
            label: None,
        }
    }

    /// Create a new drawing with a specific style.
    pub fn with_style(tool: DrawingTool, style: DrawingStyle) -> (r: Drawing)
        ensures
            r@ == fresh_drawing(r@.id, tool, style@),
            is_v4_value(r@.id.value),
            r@.id.value != 0,
    {
        Drawing {
            id: DrawingId::new(),
            tool,
            points: Vec::new(),
            confirmed_count: 0,
            style,
            visible: true,
            locked: false,
            label: None,
        }
    }

    /// The identifier.
    pub fn id(&self) -> (r: DrawingId)
        ensures
            r == self@.id,
    {
        self.id
    }

    /// Whether the drawing is locked against edits.
    pub fn is_locked(&self) -> (r: bool)
        ensures
            r == self@.locked,
    {
        self.locked
    }

    /// Number of anchor points (preview included).
    pub fn point_count(&self) -> (r: usize)
        ensures
            r == self@.points.len(),
    {
        self.points.len()
    }

    /// Replace the anchor point at `index`.
    pub fn set_point(&mut self, index: usize, point: DrawingPoint)
        requires
            index < old(self)@.points.len(),
        ensures
            final(self)@ == (DrawingView { points: old(self)@.points.update(index as int, point), ..old(self)@ }),
    {
        self.points.set(index, point);
    }

    /// Copy of the anchor points.
    pub fn copy_points(&self) -> (r: Vec<DrawingPoint>)
        ensures
            r@ == self@.points,
    {
        let mut out: Vec<DrawingPoint> = Vec::new();
        let mut i: usize = 0;
        while i < self.points.len()
            invariant
                i <= self.points.len(),
                out@ == self.points@.take(i as int),
            decreases self.points.len() - i,
        {
            out.push(self.points[i]);
            i += 1;
            proof {
                assert(out@ =~= self.points@.take(i as int));
            }
        }
        proof {
            assert(self.points@.take(self.points.len() as int) =~= self.points@);
        }
        out
    }

    /// Move every anchor point by `dt` in time and `dp` in price.
    pub fn shift(&mut self, dt: i64, dp: i64)
        requires
            forall|i: int| 0 <= i < old(self)@.points.len() ==> shift_ok(#[trigger] old(self)@.points[i], dt, dp),
        ensures
            final(self)@ == (DrawingView {
                points: old(self)@.points.map_values(|p: DrawingPoint| shift_point(p, dt, dp)),
                ..old(self)@
            }),
    {
        let ghost orig = self.points@;
        let mut i: usize = 0;
        while i < self.points.len()
            invariant
                i <= self.points.len(),
                self.points@.len() == orig.len(),
                forall|j: int| 0 <= j < orig.len() ==> shift_ok(#[trigger] orig[j], dt, dp),
                forall|j: int| 0 <= j < i ==> self.points@[j] == shift_point(orig[j], dt, dp),
                forall|j: int| i <= j < orig.len() ==> self.points@[j] == orig[j],
                self.id == old(self).id,
                self.tool == old(self).tool,
                self.confirmed_count == old(self).confirmed_count,
                self.style@ == old(self).style@,
                self.visible == old(self).visible,
                self.locked == old(self).locked,
                label_view(self.label) == label_view(old(self).label),
            decreases self.points.len() - i,
        {
            proof {
                assert(self.points@[i as int] == orig[i as int]);
                assert(shift_ok(orig[i as int], dt, dp));
            }
            let p = shifted(self.points[i], dt, dp);
            self.points.set(i, p);
            i += 1;
        }
        proof {
            assert(self.points@ =~= orig.map_values(|p: DrawingPoint| shift_point(p, dt, dp)));
        }
    }

    /// Number of confirmed points.
    pub fn confirmed_count(&self) -> (r: usize)
        ensures
            r == self@.confirmed_count,
    {
        self.confirmed_count
    }

    /// Check if the drawing has all required confirmed points.
    pub fn is_complete(&self) -> (r: bool)
        ensures
            r == self@.complete(),
    {
        self.confirmed_count >= self.tool.required_points()
    }

    /// Add a confirmed point to the drawing.
    pub fn add_point(&mut self, point: DrawingPoint)
        ensures
            final(self)@ == old(self)@.after_add_point(point),
    {
        let required = self.tool.required_points();
        // Remove any preview points first
        self.points.truncate(self.confirmed_count);
        if self.confirmed_count < required {
            self.points.push(point);
            self.confirmed_count += 1;
        }
        proof {
            let o = old(self)@;
            assert(self.points@ =~= o.after_add_point(point).points);
        }
    }

    /// Update the preview point (temporary point following the cursor).
    pub fn update_preview_point(&mut self, point: DrawingPoint)
        ensures
            final(self)@ == old(self)@.after_preview(point),
    {
        let required = self.tool.required_points();
        // Strip any existing preview point
        self.points.truncate(self.confirmed_count);
        // Add preview if we have at least one confirmed point and need more
        if self.confirmed_count >= 1 && self.confirmed_count < required {
            self.points.push(point);
        }
        proof {
            let o = old(self)@;
            assert(self.points@ =~= o.after_preview(point).points);
        }
    }

    /// The stroke colour.
    pub fn stroke_color(&self) -> (r: Rgba8)
        ensures
            r == self@.style.stroke_color,
    {
        self.style.stroke_color
    }

    /// The fill colour, if any.
    pub fn fill_color(&self) -> (r: Option<Rgba8>)
        ensures
            r == self@.style.fill_color,
    {
        self.style.fill_color
    }

    /// Convert to the storage form.
    pub fn to_serializable(&self) -> (r: SerializableDrawing)
        ensures
            r@ == self@.to_ser(),
    {
        SerializableDrawing {
            id: self.id,
            tool: self.tool,
            points: points_to_ser(&self.points),
            style: self.style.copy(),
            visible: self.visible,
            locked: self.locked,
            label: copy_label(&self.label),
        }
    }

    /// Create from the storage form; every stored point counts as confirmed.
    pub fn from_serializable(drawing: &SerializableDrawing) -> (r: Drawing)
        ensures
            r@ == drawing@.to_drawing(),
    {
        let points = points_from_ser(&drawing.points);
        let confirmed_count = points.len();
        Drawing {
            id: drawing.id,
            tool: drawing.tool,
            points,
            confirmed_count,
            style: drawing.style.copy(),
            visible: drawing.visible,
            locked: drawing.locked,
            label: copy_label(&drawing.label),
        }
    }
}

impl SerializableDrawing {
    /// An independent copy of this stored drawing.
    pub fn copy(&self) -> (r: SerializableDrawing)
        ensures
            r@ == self@,
    {
        let mut points: Vec<SerializablePoint> = Vec::new();
        let mut i: usize = 0;
        while i < self.points.len()
            invariant
                i <= self.points.len(),
                points@ == self.points@.take(i as int),
            decreases self.points.len() - i,
        {
            points.push(self.points[i]);
            i += 1;
            proof {
                assert(points@ =~= self.points@.take(i as int));
            }
        }
        proof {
            assert(self.points@.take(self.points.len() as int) =~= self.points@);
        }
        SerializableDrawing {
            id: self.id,
            tool: self.tool,
            points,
            style: self.style.copy(),
            visible: self.visible,
            locked: self.locked,
            label: copy_label(&self.label),
        }
    }
}

/// A completed drawing (no preview point) survives a save and load unchanged.
pub proof fn lemma_drawing_roundtrip(d: DrawingView)
    requires
        d.confirmed_count == d.points.len(),
    ensures
        d.to_ser().to_drawing() == d,
{
    let back = d.to_ser().to_drawing();
    assert(back.points =~= d.points);
}

/// A stored drawing survives a load and save unchanged.
pub proof fn lemma_serializable_drawing_roundtrip(s: SerializableDrawingView)
    ensures
        s.to_drawing().to_ser() == s,
{
    assert(s.to_drawing().to_ser().points =~= s.points);
}

/// Confirming points never leaves more confirmed points than the tool needs,
/// nor points beyond one preview point.
pub proof fn lemma_add_point_bounded(d: DrawingView, p: DrawingPoint)
    requires
        d.confirmed_count <= d.tool.required(),
    ensures
        d.after_add_point(p).confirmed_count <= d.tool.required(),
        d.after_add_point(p).points.len() <= d.tool.required(),
        d.after_add_point(p).points.len() <= d.after_add_point(p).confirmed_count,
{
}

} // verus!
