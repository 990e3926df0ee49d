use kairos_chart::drawing::drawing::Drawing;
use kairos_chart::drawing::manager::{DrawingManager, MAX_UNDO_STACK};
use kairos_chart::drawing::point::{DrawingPoint, SerializablePoint};
use kairos_chart::drawing::style::{DrawingStyle, LineStyle, Rgba8};
use kairos_chart::drawing::tool::{DrawingId, DrawingTool};
use kairos_chart::market::Price;

fn pt(price: i64, time: u64) -> DrawingPoint {
    DrawingPoint::new(Price::from_units(price), time)
}

fn times(d: &Drawing) -> Vec<u64> {
    d.points.iter().map(|p| p.time).collect()
}

fn prices(d: &Drawing) -> Vec<i64> {
    d.points.iter().map(|p| p.price.units).collect()
}

#[test]
fn required_points_per_tool() {
    assert_eq!(DrawingTool::NoTool.required_points(), 0);
    assert_eq!(DrawingTool::HorizontalLine.required_points(), 1);
    assert_eq!(DrawingTool::PriceLabel.required_points(), 1);
    assert_eq!(DrawingTool::Line.required_points(), 2);
    assert_eq!(DrawingTool::Rectangle.required_points(), 2);
    assert_eq!(DrawingTool::ParallelChannel.required_points(), 3);
    assert_eq!(DrawingTool::FibExtension.required_points(), 3);
}

#[test]
fn default_style_and_ids() {
    let style = DrawingStyle::default();
    assert_eq!(style.stroke_color, Rgba8 { r: 41, g: 98, b: 255, a: 255 });
    assert_eq!(style.stroke_width_centi, 150);
    assert_eq!(style.line_style, LineStyle::Solid);
    assert_eq!(style.fill_color, None);
    assert!(style.show_labels);
    let a = DrawingId::new();
    let b = DrawingId::new();
    assert_ne!(a.value, 0);
    assert_ne!(a, b);
}

#[test]
fn no_tool_draws_nothing() {
    let mut m = DrawingManager::new();
    assert_eq!(m.active_tool(), DrawingTool::NoTool);
    assert_eq!(m.start_drawing(pt(100, 1)), None);
    assert!(!m.has_pending());
    assert!(m.is_empty());
    assert!(m.snap_enabled());
    m.toggle_snap();
    assert!(!m.snap_enabled());
}

#[test]
fn single_point_tool_completes_at_once() {
    let mut m = DrawingManager::new();
    m.set_tool(DrawingTool::HorizontalLine);
    let id = m.start_drawing(pt(100, 1)).expect("completed");
    assert_eq!(m.len(), 1);
    assert!(m.get(id).is_some());
    assert!(!m.has_pending());
    assert!(m.can_undo());
    assert!(!m.can_redo());
}

#[test]
fn two_point_tool_with_preview() {
    let mut m = DrawingManager::new();
    m.set_tool(DrawingTool::Line);
    assert_eq!(m.start_drawing(pt(100, 1)), None);
    assert!(m.has_pending());
    assert!(!m.is_empty());
    m.update_preview(pt(150, 5));
    assert_eq!(times(m.pending().unwrap()), vec![1, 5]);
    m.update_preview(pt(160, 6));
    assert_eq!(times(m.pending().unwrap()), vec![1, 6]);
    let id = m.complete_drawing(pt(200, 10)).expect("completed");
    let d = m.get(id).unwrap();
    assert_eq!(times(d), vec![1, 10]);
    assert_eq!(prices(d), vec![100, 200]);
    assert!(d.is_complete());
    assert!(!m.has_pending());
    // Switching tools cancels a pending drawing.
    m.start_drawing(pt(1, 1));
    m.set_tool(DrawingTool::Rectangle);
    assert!(!m.has_pending());
    assert_eq!(m.complete_drawing(pt(1, 1)), None);
}

#[test]
fn undo_and_redo_of_an_add() {
    let mut m = DrawingManager::new();
    m.set_tool(DrawingTool::VerticalLine);
    let id = m.start_drawing(pt(100, 7)).unwrap();
    m.select(id);
    assert!(m.undo());
    assert_eq!(m.len(), 0);
    assert!(!m.is_selected(id));
    assert!(m.can_redo());
    assert!(m.redo());
    assert_eq!(m.len(), 1);
    assert_eq!(m.drawings()[0].id, id);
    assert!(!m.redo());
    // A new operation clears the redo history.
    assert!(m.undo());
    m.start_drawing(pt(5, 5));
    assert!(!m.can_redo());
}

#[test]
fn delete_selected_and_undo() {
    let mut m = DrawingManager::new();
    m.set_tool(DrawingTool::HorizontalLine);
    let a = m.start_drawing(pt(100, 1)).unwrap();
    let b = m.start_drawing(pt(200, 2)).unwrap();
    let c = m.start_drawing(pt(300, 3)).unwrap();
    m.select(a);
    m.add_to_selection(c);
    assert_eq!(m.selected_ids().len(), 2);
    m.delete_selected();
    assert_eq!(m.len(), 1);
    assert_eq!(m.drawings()[0].id, b);
    assert!(m.selected_ids().is_empty());
    assert!(m.undo());
    assert_eq!(m.len(), 2);
    m.clear_selection();
    m.delete(b);
    assert!(m.get(b).is_none());
    assert!(m.undo());
    assert!(m.get(b).is_some());
}

#[test]
fn undoing_each_deletion_restores_the_selection() {
    let mut m = DrawingManager::new();
    m.set_tool(DrawingTool::HorizontalLine);
    let a = m.start_drawing(pt(100, 1)).unwrap();
    let b = m.start_drawing(pt(200, 2)).unwrap();
    let c = m.start_drawing(pt(300, 3)).unwrap();
    let d = m.start_drawing(pt(400, 4)).unwrap();
    m.select(a);
    m.add_to_selection(c);
    m.add_to_selection(d);
    m.delete_selected();
    assert_eq!(m.drawings().iter().map(|x| x.id).collect::<Vec<_>>(), vec![b]);
    assert!(m.undo());
    assert!(m.undo());
    assert!(m.undo());
    // Kept drawings first, then the deleted ones, the last deleted first.
    assert_eq!(m.drawings().iter().map(|x| x.id).collect::<Vec<_>>(), vec![b, d, c, a]);
    assert_eq!(prices(&m.drawings()[3]), vec![100]);
    // The additions are undone next.
    assert!(m.undo());
    assert_eq!(m.len(), 3);
    assert!(m.get(d).is_none());
}

#[test]
fn redo_right_after_undo_of_a_delete() {
    let mut m = DrawingManager::new();
    m.set_tool(DrawingTool::HorizontalLine);
    let a = m.start_drawing(pt(100, 1)).unwrap();
    let b = m.start_drawing(pt(200, 2)).unwrap();
    m.delete(a);
    let before: Vec<_> = m.drawings().iter().map(|x| x.id).collect();
    assert!(m.undo());
    assert!(m.redo());
    assert_eq!(m.drawings().iter().map(|x| x.id).collect::<Vec<_>>(), before);
    assert_eq!(before, vec![b]);
}

#[test]
fn moving_points_and_drawings() {
    let mut m = DrawingManager::new();
    m.set_tool(DrawingTool::Line);
    m.start_drawing(pt(100, 10));
    let id = m.complete_drawing(pt(200, 20)).unwrap();
    m.move_drawing(id, -15, 50);
    assert_eq!(times(m.get(id).unwrap()), vec![0, 5]);
    assert_eq!(prices(m.get(id).unwrap()), vec![150, 250]);
    m.move_point(id, 1, pt(999, 99));
    assert_eq!(times(m.get(id).unwrap()), vec![0, 99]);
    // Out of range index: nothing happens.
    m.move_point(id, 5, pt(1, 1));
    assert_eq!(m.get(id).unwrap().points.len(), 2);
}

#[test]
fn locked_drawings_do_not_move() {
    let mut m = DrawingManager::new();
    let mut d = Drawing::new(DrawingTool::Line);
    d.add_point(pt(100, 10));
    d.add_point(pt(200, 20));
    d.locked = true;
    let id = d.id;
    m.add_drawing(d);
    m.move_drawing(id, 5, 5);
    m.move_point(id, 0, pt(0, 0));
    assert_eq!(times(m.get(id).unwrap()), vec![10, 20]);
    assert!(m.get(id).unwrap().is_locked());
}

#[test]
fn drag_is_one_undoable_edit() {
    let mut m = DrawingManager::new();
    m.set_tool(DrawingTool::Line);
    m.start_drawing(pt(100, 10));
    let id = m.complete_drawing(pt(200, 20)).unwrap();

    m.start_drag(pt(150, 15), id);
    assert!(m.is_dragging());
    m.update_drag(id, pt(160, 17));
    m.update_drag(id, pt(170, 19));
    m.end_drag();
    assert!(!m.is_dragging());
    assert_eq!(times(m.get(id).unwrap()), vec![14, 24]);
    assert_eq!(prices(m.get(id).unwrap()), vec![120, 220]);

    assert!(m.undo());
    assert_eq!(times(m.get(id).unwrap()), vec![10, 20]);
    assert!(m.redo());
    assert_eq!(times(m.get(id).unwrap()), vec![14, 24]);

    m.start_drag(pt(0, 0), id);
    m.update_handle_drag(id, 0, pt(1, 2));
    m.end_drag();
    assert_eq!(times(m.get(id).unwrap()), vec![2, 24]);
    assert!(m.undo());
    assert_eq!(times(m.get(id).unwrap()), vec![14, 24]);
}

#[test]
fn property_change_is_undoable() {
    let mut m = DrawingManager::new();
    m.set_tool(DrawingTool::Rectangle);
    m.start_drawing(pt(1, 1));
    let id = m.complete_drawing(pt(2, 2)).unwrap();
    let before = m.get(id).unwrap().to_serializable();
    m.move_drawing(id, 10, 0);
    m.record_property_change(id, before);
    assert!(m.undo());
    assert_eq!(times(m.get(id).unwrap()), vec![1, 2]);
}

#[test]
fn clone_placement_follows_cursor() {
    let mut m = DrawingManager::new();
    let mut d = Drawing::new(DrawingTool::Line);
    d.add_point(pt(100, 10));
    d.add_point(pt(300, 30));
    let id = d.id;
    m.start_clone_placement(d);
    assert!(m.has_clone_pending());
    // Center is (200, 20): moving it to (250, 40) shifts by (+50, +20).
    m.update_clone_position(pt(250, 40));
    let preview = m.clone_preview().unwrap();
    assert_eq!(times(preview), vec![30, 50]);
    assert_eq!(prices(preview), vec![150, 350]);
    // Each move is relative to the original points.
    m.update_clone_position(pt(200, 0));
    assert_eq!(times(m.clone_preview().unwrap()), vec![0, 10]);
    assert_eq!(m.confirm_clone_placement(), Some(id));
    assert!(!m.has_clone_pending());
    assert_eq!(m.len(), 1);
    assert_eq!(m.confirm_clone_placement(), None);
    m.start_clone_placement(Drawing::new(DrawingTool::Line));
    m.cancel_clone_placement();
    assert!(!m.has_clone_pending());
}

#[test]
fn undo_history_is_capped() {
    let mut m = DrawingManager::new();
    m.set_tool(DrawingTool::HorizontalLine);
    for i in 0..60 {
        m.start_drawing(pt(i, i as u64));
    }
    let mut undone = 0;
    while m.undo() {
        undone += 1;
    }
    assert_eq!(undone, MAX_UNDO_STACK);
    assert_eq!(m.len(), 10);
}

#[test]
fn serialization_roundtrip() {
    let mut m = DrawingManager::new();
    m.set_tool(DrawingTool::Line);
    m.start_drawing(pt(100, 10));
    let id = m.complete_drawing(pt(200, 20)).unwrap();
    let saved = m.to_serializable();
    assert_eq!(saved.len(), 1);
    assert_eq!(saved[0].id, id);
    assert_eq!(
        saved[0].points,
        vec![
            SerializablePoint { price_units: 100, time: 10, snapped: false },
            SerializablePoint { price_units: 200, time: 20, snapped: false },
        ]
    );
    let restored = DrawingManager::from_serializable(saved);
    assert_eq!(restored.len(), 1);
    let d = restored.get(id).unwrap();
    assert_eq!(times(d), vec![10, 20]);
    assert!(d.is_complete());
    assert!(!restored.can_undo());

    let mut other = DrawingManager::new();
    other.set_tool(DrawingTool::HorizontalLine);
    let x = other.start_drawing(pt(5, 5)).unwrap();
    other.select(x);
    other.load_drawings(m.to_serializable());
    assert!(other.get(x).is_none());
    assert!(other.get(id).is_some());
    assert!(other.selected_ids().is_empty());
}

#[test]
fn edit_a_drawing_in_place() {
    let mut m = DrawingManager::new();
    m.set_tool(DrawingTool::Line);
    m.start_drawing(pt(100, 10));
    let id = m.complete_drawing(pt(200, 20)).unwrap();
    m.get_mut(id).unwrap().locked = true;
    m.move_drawing(id, 5, 5);
    assert_eq!(times(m.get(id).unwrap()), vec![10, 20]);
    assert!(m.get_mut(DrawingId { value: 7 }).is_none());
}

#[test]
fn undo_history_keeps_the_last_fifty_additions() {
    let mut m = DrawingManager::new();
    let mut ids = Vec::new();
    for i in 0..=50u64 {
        let mut d = Drawing::new(DrawingTool::HorizontalLine);
        d.add_point(pt(100 + i as i64, i));
        ids.push(d.id());
        m.add_drawing(d);
    }
    for _ in 0..50 {
        assert!(m.undo());
    }
    assert!(!m.undo());
    assert_eq!(m.len(), 1);
    assert_eq!(m.drawings()[0].id, ids[0]);
}
