use kairos_chart::drawing::tool::DrawingTool;
use kairos_chart::interaction::{
    interaction_step, CanvasAction, CanvasEvent, DrawingEditMode, DrawingState, Input,
    Interaction, Key,
};

type Pt = (i32, i32);

fn at(input: Input<Pt>, c: Pt) -> CanvasEvent<Pt> {
    CanvasEvent { input, cursor: Some(c) }
}

fn outside(input: Input<Pt>) -> CanvasEvent<Pt> {
    CanvasEvent { input, cursor: None }
}

fn left(c: Pt) -> CanvasEvent<Pt> {
    at(Input::LeftPressed { translation: (7, 8) }, c)
}

fn key(k: Key, c: Pt) -> CanvasEvent<Pt> {
    at(Input::KeyPressed { key: k }, c)
}

#[test]
fn enter_drawing_mode_with_and_without_tool() {
    let none: Interaction<Pt> = Interaction::enter_drawing_mode(DrawingTool::NoTool);
    assert_eq!(none, Interaction::Idle);
    let line: Interaction<Pt> = Interaction::enter_drawing_mode(DrawingTool::Line);
    assert_eq!(
        line,
        Interaction::Drawing { tool: DrawingTool::Line, state: DrawingState::Placing }
    );
    assert!(line.is_drawing());
    assert!(!line.is_editing_drawing());
    assert_eq!(line.drawing_tool(), Some(DrawingTool::Line));
    assert_eq!(none.drawing_tool(), None);
}

#[test]
fn two_clicks_place_a_line_then_wait_for_the_next() {
    let s0: Interaction<Pt> = Interaction::enter_drawing_mode(DrawingTool::Line);
    let (s1, a1) = interaction_step(s0, left((10, 20)), DrawingTool::Line);
    assert_eq!(
        s1,
        Interaction::Drawing {
            tool: DrawingTool::Line,
            state: DrawingState::Previewing { start: (10, 20) }
        }
    );
    assert_eq!(a1, CanvasAction::DrawingClick((10, 20)));
    let (s2, a2) = interaction_step(s1, at(Input::CursorMoved, (15, 25)), DrawingTool::Line);
    assert_eq!(s2, s1);
    assert_eq!(a2, CanvasAction::DrawingMove((15, 25)));
    let (s3, a3) = interaction_step(s2, left((30, 40)), DrawingTool::Line);
    assert_eq!(s3, s0);
    assert_eq!(a3, CanvasAction::DrawingClick((30, 40)));
}

#[test]
fn click_with_active_tool_starts_previewing() {
    let (s, a) = interaction_step(Interaction::Idle, left((3, 4)), DrawingTool::Rectangle);
    assert_eq!(
        s,
        Interaction::Drawing {
            tool: DrawingTool::Rectangle,
            state: DrawingState::Previewing { start: (3, 4) }
        }
    );
    assert_eq!(a, CanvasAction::DrawingClick((3, 4)));
}

#[test]
fn click_without_tool_pans_and_release_ends_it() {
    let (s, a) = interaction_step(Interaction::Idle, left((3, 4)), DrawingTool::NoTool);
    assert_eq!(s, Interaction::Panning { translation: (7, 8), start: (3, 4) });
    assert_eq!(a, CanvasAction::RedrawCapture);
    let (s2, a2) = interaction_step(s, at(Input::CursorMoved, (9, 9)), DrawingTool::NoTool);
    assert_eq!(s2, s);
    assert_eq!(a2, CanvasAction::Pan { translation: (7, 8), start: (3, 4), cursor: (9, 9) });
    let (s3, a3) = interaction_step(s2, at(Input::WheelScrolled, (9, 9)), DrawingTool::NoTool);
    assert_eq!(s3, s2);
    assert_eq!(a3, CanvasAction::Capture);
    let (s4, a4) = interaction_step(s3, at(Input::ButtonReleased, (9, 9)), DrawingTool::NoTool);
    assert_eq!(s4, Interaction::Idle);
    assert_eq!(a4, CanvasAction::Ignore);
}

#[test]
fn pan_move_outside_the_canvas_is_ignored() {
    let s: Interaction<Pt> = Interaction::Panning { translation: (0, 0), start: (1, 1) };
    let (s2, a) = interaction_step(s, outside(Input::CursorMoved), DrawingTool::NoTool);
    assert_eq!(s2, s);
    assert_eq!(a, CanvasAction::Ignore);
}

#[test]
fn release_ends_an_edit() {
    let s: Interaction<Pt> =
        Interaction::EditingDrawing { edit_mode: DrawingEditMode::DraggingHandle { handle_index: 1 } };
    let (s2, a) = interaction_step(s, outside(Input::ButtonReleased), DrawingTool::NoTool);
    assert_eq!(s2, Interaction::Idle);
    assert_eq!(a, CanvasAction::Ignore);
}

#[test]
fn ruler_starts_with_shift_and_is_placed_then_dropped_by_clicks() {
    let (s1, a1) = interaction_step(Interaction::Idle, key(Key::Shift, (1, 1)), DrawingTool::NoTool);
    assert_eq!(s1, Interaction::Ruler { anchor: None });
    assert_eq!(a1, CanvasAction::RedrawCapture);
    let (s2, a2) = interaction_step(s1, left((5, 6)), DrawingTool::NoTool);
    assert_eq!(s2, Interaction::Ruler { anchor: Some((5, 6)) });
    assert_eq!(a2, CanvasAction::RedrawCapture);
    let (s3, a3) = interaction_step(s2, left((8, 9)), DrawingTool::NoTool);
    assert_eq!(s3, Interaction::Idle);
    assert_eq!(a3, CanvasAction::RedrawCapture);
}

#[test]
fn ruler_is_dropped_when_the_cursor_leaves() {
    let s: Interaction<Pt> = Interaction::Ruler { anchor: Some((2, 2)) };
    let (s2, a) = interaction_step(s, outside(Input::CursorMoved), DrawingTool::NoTool);
    assert_eq!(s2, Interaction::Idle);
    assert_eq!(a, CanvasAction::CrosshairMoved);
}

#[test]
fn shift_while_drawing_keeps_the_drawing() {
    let s: Interaction<Pt> = Interaction::enter_drawing_mode(DrawingTool::Ray);
    let (s2, a) = interaction_step(s, key(Key::Shift, (0, 0)), DrawingTool::Ray);
    assert_eq!(s2, s);
    assert_eq!(a, CanvasAction::RedrawCapture);
}

#[test]
fn escape_cancels_a_drawing_or_clears_the_interaction() {
    let d: Interaction<Pt> = Interaction::Drawing {
        tool: DrawingTool::Line,
        state: DrawingState::Previewing { start: (1, 2) },
    };
    let (s1, a1) = interaction_step(d, key(Key::Escape, (0, 0)), DrawingTool::Line);
    assert_eq!(s1, d);
    assert_eq!(a1, CanvasAction::DrawingCancel);
    let r: Interaction<Pt> = Interaction::Ruler { anchor: Some((1, 1)) };
    let (s2, a2) = interaction_step(r, key(Key::Escape, (0, 0)), DrawingTool::NoTool);
    assert_eq!(s2, Interaction::Idle);
    assert_eq!(a2, CanvasAction::RedrawCapture);
}

#[test]
fn delete_and_backspace_delete_the_selection() {
    let (s1, a1) = interaction_step(Interaction::Idle, key(Key::Delete, (0, 0)), DrawingTool::NoTool);
    assert_eq!(s1, Interaction::Idle);
    assert_eq!(a1, CanvasAction::DrawingDelete);
    let (_, a2) = interaction_step(Interaction::Idle, key(Key::Backspace, (0, 0)), DrawingTool::NoTool);
    assert_eq!(a2, CanvasAction::DrawingDelete);
    let (_, a3) = interaction_step(Interaction::Idle, key(Key::Other, (0, 0)), DrawingTool::NoTool);
    assert_eq!(a3, CanvasAction::Ignore);
}

#[test]
fn keys_and_clicks_outside_the_canvas_are_ignored() {
    let (s1, a1) =
        interaction_step(Interaction::Idle, outside(Input::KeyPressed { key: Key::Shift }), DrawingTool::NoTool);
    assert_eq!(s1, Interaction::Idle);
    assert_eq!(a1, CanvasAction::Ignore);
    let (s2, a2) = interaction_step(
        Interaction::Idle,
        outside(Input::LeftPressed { translation: (0, 0) }),
        DrawingTool::Line,
    );
    assert_eq!(s2, Interaction::Idle);
    assert_eq!(a2, CanvasAction::Ignore);
}

#[test]
fn bounds_change_comes_first_and_keeps_the_state() {
    let s: Interaction<Pt> = Interaction::Panning { translation: (0, 0), start: (1, 1) };
    let (s2, a) = interaction_step(s, outside(Input::BoundsChanged), DrawingTool::NoTool);
    assert_eq!(s2, s);
    assert_eq!(a, CanvasAction::BoundsChanged);
}

#[test]
fn wheel_zooms_unless_panning() {
    let (s, a) = interaction_step(Interaction::Idle, at(Input::WheelScrolled, (1, 1)), DrawingTool::NoTool);
    assert_eq!(s, Interaction::Idle);
    assert_eq!(a, CanvasAction::Zoom);
    let (_, a2) = interaction_step(Interaction::Idle, outside(Input::WheelScrolled), DrawingTool::NoTool);
    assert_eq!(a2, CanvasAction::Ignore);
}

#[test]
fn other_button_press_on_the_canvas_redraws() {
    let (s, a) =
        interaction_step(Interaction::Idle, at(Input::OtherButtonPressed, (1, 1)), DrawingTool::Line);
    assert_eq!(s, Interaction::Idle);
    assert_eq!(a, CanvasAction::RedrawCapture);
}
