//! Mouse and keyboard interaction with a chart canvas: a state machine from
//! the current interaction and an input event to the next interaction and
//! what the chart must do. Screen points are of any type `P` (the front end
//! uses floating-point pairs for positions and translations); the front end
//! works out whether the cursor is inside the canvas and does the zoom
//! arithmetic.

use crate::drawing::tool::DrawingTool;
use vstd::prelude::*;

verus! {

/// State of an in-progress drawing operation.
#[derive(Debug, Clone, Copy, PartialEq, Eq, Structural)]
pub enum DrawingState<P> {
    /// Waiting for the first click to place the initial point.
    Placing,
    /// First point placed, showing a preview to the cursor.
    Previewing { start: P },
}

/// Mode of editing an existing drawing.
#[derive(Debug, Clone, Copy, PartialEq, Eq, Structural)]
pub enum DrawingEditMode<P> {
    /// Moving the entire drawing.
    Moving { offset: P },
    /// Dragging one handle.
    DraggingHandle { handle_index: usize },
}

/// Current interaction mode of a chart.
#[derive(Debug, Clone, Copy, PartialEq, Eq, Structural)]
pub enum Interaction<P> {
    /// No active interaction.
    Idle,
    /// Zooming by drag.
    Zoomin { last_position: P },
    /// Panning the view: translation and cursor at the start of the pan.
    Panning { translation: P, start: P },
    /// Ruler measurement (its anchor point once placed).
    Ruler { anchor: Option<P> },
    /// Placing or previewing a drawing.
    Drawing { tool: DrawingTool, state: DrawingState<P> },
    /// Editing an existing drawing.
    EditingDrawing { edit_mode: DrawingEditMode<P> },
}

/// Keys the chart reacts to.
#[derive(Debug, Clone, Copy, PartialEq, Eq, Structural)]
pub enum Key {
    Shift,
    Escape,
    Delete,
    Backspace,
    Other,
}

/// What happened on the canvas.
#[derive(Debug, Clone, Copy, PartialEq, Eq, Structural)]
pub enum Input<P> {
    /// The canvas bounds differ from those the chart knows.
    BoundsChanged,
    /// The left button was pressed; `translation` is the view's current one.
    LeftPressed { translation: P },
    /// Another mouse button was pressed.
    OtherButtonPressed,
    /// A mouse button was released.
    ButtonReleased,
    /// The cursor moved.
    CursorMoved,
    /// The wheel was scrolled.
    WheelScrolled,
    /// Any other mouse event.
    OtherMouse,
    /// A key was pressed.
    KeyPressed { key: Key },
    /// Any other keyboard event.
    OtherKeyboard,
    /// Any other event.
    Other,
}

/// An input event with the cursor position inside the canvas's inner area,
/// if the cursor is there.
#[derive(Debug, Clone, Copy, PartialEq, Eq, Structural)]
pub struct CanvasEvent<P> {
    pub input: Input<P>,
    pub cursor: Option<P>,
}

/// What the chart must do after an event.
#[derive(Debug, Clone, Copy, PartialEq, Eq, Structural)]
pub enum CanvasAction<P> {
    /// Nothing; the event is not captured.
    Ignore,
    /// Capture the event.
    Capture,
    /// Redraw and capture the event.
    RedrawCapture,
    /// Report the new canvas bounds.
    BoundsChanged,
    /// A drawing click at the point (captured).
    DrawingClick(P),
    /// A drawing preview move to the point.
    DrawingMove(P),
    /// The crosshair moved.
    CrosshairMoved,
    /// Translate the view: from `translation`, by the cursor's move from
    /// `start` to `cursor`, scaled (captured).
    Pan { translation: P, start: P, cursor: P },
    /// Zoom around the cursor (the front end computes the new scaling).
    Zoom,
    /// Cancel the pending drawing (captured).
    DrawingCancel,
    /// Delete the selected drawings (captured).
    DrawingDelete,
}

impl<P> Interaction<P> {
    pub open spec fn drawing_spec(self) -> bool {
        self is Drawing
    }

    /// Whether a drawing is being placed or previewed.
    pub fn is_drawing(&self) -> (r: bool)
        ensures
            r == self.drawing_spec(),
    {
        match self {
            Interaction::Drawing { .. } => true,
            _ => false,
        }
    }

    /// Whether a drawing is being edited.
    pub fn is_editing_drawing(&self) -> (r: bool)
        ensures
            r == (self is EditingDrawing),
    {
        match self {
            Interaction::EditingDrawing { .. } => true,
            _ => false,
        }
    }

    /// The tool in use while drawing.
    pub fn drawing_tool(&self) -> (r: Option<DrawingTool>)
        ensures
            r == match *self {
                Interaction::Drawing { tool, .. } => Some(tool),
                _ => None,
            },
    {
        match self {
            Interaction::Drawing { tool, .. } => Some(*tool),
            _ => None,
        }
    }

    /// Drawing mode with `tool`, or no interaction where there is no tool.
    pub fn enter_drawing_mode(tool: DrawingTool) -> (r: Self)
        ensures
            r == if tool == DrawingTool::NoTool {
                Interaction::<P>::Idle
            } else {
                Interaction::Drawing { tool, state: DrawingState::Placing }
            },
    {
        if tool == DrawingTool::NoTool {
            Interaction::Idle
        } else {
            Interaction::Drawing { tool, state: DrawingState::Placing }
        }
    }
}

/// The interaction before the event is handled: a release ends a pan, a
/// zoom or an edit, and the ruler is dropped when the cursor leaves.
pub open spec fn settled<P>(state: Interaction<P>, event: CanvasEvent<P>) -> Interaction<P> {
    let s1 = if event.input is ButtonReleased && (state is Panning || state is Zoomin || state is EditingDrawing) {
        Interaction::Idle
    } else {
        state
    };
    if s1 is Ruler && event.cursor is None {
        Interaction::Idle
    } else {
        s1
    }
}

/// A left click at `c` in interaction `s` with `active_tool` selected.
pub open spec fn left_click<P>(s: Interaction<P>, c: P, translation: P, active_tool: DrawingTool) -> (
    Interaction<P>,
    CanvasAction<P>,
) {
    match s {
        Interaction::Drawing { tool, state: DrawingState::Placing } => (
            Interaction::Drawing { tool, state: DrawingState::Previewing { start: c } },
            CanvasAction::DrawingClick(c),
        ),
        Interaction::Drawing { tool, state: DrawingState::Previewing { .. } } => (
            Interaction::Drawing { tool, state: DrawingState::Placing },
            CanvasAction::DrawingClick(c),
        ),
        Interaction::Idle | Interaction::Panning { .. } | Interaction::Zoomin { .. } => if active_tool
            != DrawingTool::NoTool {
            (
                Interaction::Drawing { tool: active_tool, state: DrawingState::Previewing { start: c } },
                CanvasAction::DrawingClick(c),
            )
        } else {
            (Interaction::Panning { translation, start: c }, CanvasAction::RedrawCapture)
        },
        Interaction::Ruler { anchor: None } => (Interaction::Ruler { anchor: Some(c) }, CanvasAction::RedrawCapture),
        Interaction::Ruler { anchor: Some(_) } => (Interaction::Idle, CanvasAction::RedrawCapture),
        Interaction::EditingDrawing { .. } => (s, CanvasAction::RedrawCapture),
    }
}

/// The next interaction and the chart's action after `event`.
pub open spec fn interaction_step_spec<P>(state: Interaction<P>, event: CanvasEvent<P>, active_tool: DrawingTool) -> (
    Interaction<P>,
    CanvasAction<P>,
) {
    if event.input is BoundsChanged {
        (state, CanvasAction::BoundsChanged)
    } else {
        let s = settled(state, event);
        match event.input {
            Input::LeftPressed { translation } => match event.cursor {
                None => (s, CanvasAction::Ignore),
                Some(c) => left_click(s, c, translation, active_tool),
            },
            Input::OtherButtonPressed => match event.cursor {
                None => (s, CanvasAction::Ignore),
                Some(_) => (s, CanvasAction::RedrawCapture),
            },
            Input::CursorMoved => match s {
                Interaction::Panning { translation, start } => match event.cursor {
                    None => (s, CanvasAction::Ignore),
                    Some(c) => (s, CanvasAction::Pan { translation, start, cursor: c }),
                },
                Interaction::Drawing { .. } => match event.cursor {
                    Some(c) => (s, CanvasAction::DrawingMove(c)),
                    None => (s, CanvasAction::CrosshairMoved),
                },
                Interaction::Zoomin { .. } => (s, CanvasAction::Ignore),
                _ => (s, CanvasAction::CrosshairMoved),
            },
            Input::WheelScrolled => if event.cursor is None {
                (s, CanvasAction::Ignore)
            } else if s is Panning {
                (s, CanvasAction::Capture)
            } else {
                (s, CanvasAction::Zoom)
            },
            Input::KeyPressed { key } => if event.cursor is None {
                (s, CanvasAction::Ignore)
            } else {
                match key {
                    Key::Shift => if s is Drawing {
                        (s, CanvasAction::RedrawCapture)
                    } else {
                        (Interaction::Ruler { anchor: None }, CanvasAction::RedrawCapture)
                    },
                    Key::Escape => if s is Drawing {
                        (s, CanvasAction::DrawingCancel)
                    } else {
                        (Interaction::Idle, CanvasAction::RedrawCapture)
                    },
                    Key::Delete | Key::Backspace => (s, CanvasAction::DrawingDelete),
                    Key::Other => (s, CanvasAction::Ignore),
                }
            },
            _ => (s, CanvasAction::Ignore),
        }
    }
}

/// React to a canvas event: the next interaction and what the chart must
/// do. Placing a drawing alternates between placing and previewing with a
/// click each; the ruler starts with Shift and is placed and dropped by
/// clicks; Escape cancels a drawing or clears the interaction; Delete and
/// Backspace delete the selection; a release ends a pan, zoom or edit.
pub fn interaction_step<P: Copy>(state: Interaction<P>, event: CanvasEvent<P>, active_tool: DrawingTool) -> (r: (
    Interaction<P>,
    CanvasAction<P>,
))
    ensures
        r == interaction_step_spec(state, event, active_tool),
{
    if let Input::BoundsChanged = event.input {
        return (state, CanvasAction::BoundsChanged);
    }
    let released = match event.input {
        Input::ButtonReleased => true,
        _ => false,
    };
    let s1 = match state {
        Interaction::Panning { .. } | Interaction::Zoomin { .. } | Interaction::EditingDrawing { .. } => if released {
            Interaction::Idle
        } else {
            state
        },
        _ => state,
    };
    let s = match s1 {
        Interaction::Ruler { .. } => if event.cursor.is_none() {
            Interaction::Idle
        } else {
            s1
        },
        _ => s1,
    };
    match event.input {
        Input::LeftPressed { translation } => match event.cursor {
            None => (s, CanvasAction::Ignore),
            Some(c) => match s {
                Interaction::Drawing { tool, state: DrawingState::Placing } => (
                    Interaction::Drawing { tool, state: DrawingState::Previewing { start: c } },
                    CanvasAction::DrawingClick(c),
                ),
                Interaction::Drawing { tool, state: DrawingState::Previewing { .. } } => (
                    Interaction::Drawing { tool, state: DrawingState::Placing },
                    CanvasAction::DrawingClick(c),
                ),
                Interaction::Idle | Interaction::Panning { .. } | Interaction::Zoomin { .. } => {
                    if active_tool != DrawingTool::NoTool {
                        (
                            Interaction::Drawing {
                                tool: active_tool,
                                state: DrawingState::Previewing { start: c },
                            },
                            CanvasAction::DrawingClick(c),
                        )
                    } else {
                        (Interaction::Panning { translation, start: c }, CanvasAction::RedrawCapture)
                    }
                },
                Interaction::Ruler { anchor: None } => (
                    Interaction::Ruler { anchor: Some(c) },
                    CanvasAction::RedrawCapture,
                ),
                Interaction::Ruler { anchor: Some(_) } => (Interaction::Idle, CanvasAction::RedrawCapture),
                Interaction::EditingDrawing { .. } => (s, CanvasAction::RedrawCapture),
            },
        },
        Input::OtherButtonPressed => match event.cursor {
            None => (s, CanvasAction::Ignore),
            Some(_) => (s, CanvasAction::RedrawCapture),
        },
        Input::CursorMoved => match s {
            Interaction::Panning { translation, start } => match event.cursor {
                None => (s, CanvasAction::Ignore),
                Some(c) => (s, CanvasAction::Pan { translation, start, cursor: c }),
            },
            Interaction::Drawing { .. } => match event.cursor {
                Some(c) => (s, CanvasAction::DrawingMove(c)),
                None => (s, CanvasAction::CrosshairMoved),
            },
            Interaction::Zoomin { .. } => (s, CanvasAction::Ignore),
            _ => (s, CanvasAction::CrosshairMoved),
        },
        Input::WheelScrolled => match event.cursor {
            None => (s, CanvasAction::Ignore),
            Some(_) => match s {
                Interaction::Panning { .. } => (s, CanvasAction::Capture),
                _ => (s, CanvasAction::Zoom),
            },
        },
        Input::KeyPressed { key } => match event.cursor {
            None => (s, CanvasAction::Ignore),
            Some(_) => match key {
                Key::Shift => if s.is_drawing() {
                    (s, CanvasAction::RedrawCapture)
                } else {
                    (Interaction::Ruler { anchor: None }, CanvasAction::RedrawCapture)
                },
                Key::Escape => if s.is_drawing() {
                    (s, CanvasAction::DrawingCancel)
                } else {
                    (Interaction::Idle, CanvasAction::RedrawCapture)
                },
                Key::Delete | Key::Backspace => (s, CanvasAction::DrawingDelete),
                Key::Other => (s, CanvasAction::Ignore),
            },
        },
        _ => (s, CanvasAction::Ignore),
    }
}

/// Placing a two-click drawing: a first click previews from its point, a
/// second click completes it and waits for the next drawing, with the tool
/// kept throughout.
pub proof fn lemma_two_clicks_place_a_drawing<P>(tool: DrawingTool, a: P, b: P, t: P, active_tool: DrawingTool)
    ensures
        ({
            let s0 = Interaction::Drawing { tool, state: DrawingState::<P>::Placing };
            let (s1, act1) = interaction_step_spec(s0, CanvasEvent { input: Input::LeftPressed { translation: t }, cursor: Some(a) }, active_tool);
            let (s2, act2) = interaction_step_spec(s1, CanvasEvent { input: Input::LeftPressed { translation: t }, cursor: Some(b) }, active_tool);
            &&& s1 == Interaction::Drawing { tool, state: DrawingState::Previewing { start: a } }
            &&& act1 == CanvasAction::DrawingClick(a)
            &&& s2 == s0
            &&& act2 == CanvasAction::DrawingClick(b)
        }),
{
}

/// Escape while drawing asks to cancel the drawing; otherwise, with the
/// cursor on the canvas, it clears the interaction.
pub proof fn lemma_escape<P>(state: Interaction<P>, c: P, active_tool: DrawingTool)
    ensures
        ({
            let (s, act) = interaction_step_spec(state, CanvasEvent { input: Input::KeyPressed { key: Key::Escape }, cursor: Some(c) }, active_tool);
            if state is Drawing {
                s == state && act == CanvasAction::<P>::DrawingCancel
            } else {
                s == Interaction::<P>::Idle && act == CanvasAction::<P>::RedrawCapture
            }
        }),
{
}

/// A release always ends a pan, a zoom or an edit.
pub proof fn lemma_release_ends_drags<P>(state: Interaction<P>, cursor: Option<P>, active_tool: DrawingTool)
    requires
        state is Panning || state is Zoomin || state is EditingDrawing,
    ensures
        interaction_step_spec(state, CanvasEvent { input: Input::ButtonReleased, cursor }, active_tool).0
            == Interaction::<P>::Idle,
{
}

} // verus!
