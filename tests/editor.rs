use pathfind_demo::commands::DrawCommand;
use pathfind_demo::grid::Grid;
use pathfind_demo::input::EventTracker;
use pathfind_demo::scene::{Event, MouseButton, PathtfindScene, PointerMode};

fn scene() -> PathtfindScene {
    PathtfindScene::new(Grid::new(4, 4), (0, 0), (3, 3))
}

fn down(x: i64, y: i64) -> Event {
    Event::MouseDown { button: MouseButton::Left, x, y }
}

fn up(x: i64, y: i64) -> Event {
    Event::MouseUp { button: MouseButton::Left, x, y }
}

#[test]
fn paint_then_erase_leaves_cell_free() {
    let mut s = scene();
    s.handle_event(down(1, 1));
    assert_eq!(s.pointer_mode(), PointerMode::PaintWall);
    assert!(s.grid().get(1, 1));
    s.handle_event(Event::MouseMoved { x: 2, y: 1 });
    assert!(s.grid().get(2, 1));
    s.handle_event(up(2, 1));
    assert_eq!(s.pointer_mode(), PointerMode::Idle);
    s.handle_event(down(1, 1));
    assert_eq!(s.pointer_mode(), PointerMode::EraseWall);
    assert!(!s.grid().get(1, 1));
    assert!(s.grid().get(2, 1));
}

#[test]
fn painting_skips_start_and_finish() {
    let mut s = scene();
    s.handle_event(down(1, 0));
    s.handle_event(Event::MouseMoved { x: 0, y: 0 });
    assert!(!s.grid().get(0, 0));
    assert_eq!(s.active_cell(), Some((0, 0)));
    s.handle_event(Event::MouseMoved { x: 3, y: 3 });
    assert!(!s.grid().get(3, 3));
}

#[test]
fn drag_start_moves_it() {
    let mut s = scene();
    s.handle_event(down(0, 0));
    assert_eq!(s.pointer_mode(), PointerMode::DragStart);
    s.handle_event(Event::MouseMoved { x: 1, y: 0 });
    assert_eq!(s.start(), (1, 0));
    s.handle_event(up(1, 0));
    assert_eq!(s.start(), (1, 0));
}

#[test]
fn drag_refuses_walls_and_the_other_end() {
    let mut s = scene();
    s.handle_event(down(2, 2));
    s.handle_event(up(2, 2));
    assert!(s.grid().get(2, 2));
    s.handle_event(down(3, 3));
    assert_eq!(s.pointer_mode(), PointerMode::DragFinish);
    s.handle_event(Event::MouseMoved { x: 2, y: 2 });
    assert_eq!(s.finish(), (3, 3));
    s.handle_event(Event::MouseMoved { x: 0, y: 0 });
    assert_eq!(s.finish(), (3, 3));
    s.handle_event(Event::MouseMoved { x: 3, y: 2 });
    assert_eq!(s.finish(), (3, 2));
}

#[test]
fn press_outside_is_idle() {
    let mut s = scene();
    s.handle_event(down(-1, 2));
    assert_eq!(s.pointer_mode(), PointerMode::Idle);
    s.handle_event(down(4, 0));
    assert_eq!(s.pointer_mode(), PointerMode::Idle);
    s.handle_event(Event::MouseMoved { x: 9, y: 9 });
    assert_eq!(s.active_cell(), None);
}

#[test]
fn other_buttons_are_ignored() {
    let mut s = scene();
    s.handle_event(Event::MouseDown { button: MouseButton::Right, x: 1, y: 1 });
    assert_eq!(s.pointer_mode(), PointerMode::Idle);
    assert!(!s.grid().get(1, 1));
}

#[test]
fn edits_keep_the_log() {
    let mut s = scene();
    s.set_draw_commands(vec![DrawCommand::Clear]);
    s.update(0);
    s.handle_event(down(1, 1));
    assert_eq!(s.draw_commands().len(), 1);
    assert!(s.grid().get(1, 1));
}

#[test]
fn highlight_follows_hover_and_drag() {
    let mut s = scene();
    assert_eq!(s.highlighted_cell(), None);
    s.handle_event(Event::MouseMoved { x: 2, y: 1 });
    assert_eq!(s.highlighted_cell(), Some((2, 1)));
    s.handle_event(Event::MouseMoved { x: 3, y: 3 });
    assert_eq!(s.highlighted_cell(), Some((3, 3)));
    s.handle_event(down(0, 0));
    s.handle_event(Event::MouseMoved { x: 1, y: 2 });
    assert_eq!(s.highlighted_cell(), Some((1, 2)));
    assert_eq!(s.start(), (1, 2));
}

#[test]
fn mode_for_press_cases() {
    let mut s = scene();
    s.handle_event(down(2, 0));
    s.handle_event(up(2, 0));
    assert_eq!(s.mode_for_press(0, 0), PointerMode::DragStart);
    assert_eq!(s.mode_for_press(3, 3), PointerMode::DragFinish);
    assert_eq!(s.mode_for_press(2, 0), PointerMode::EraseWall);
    assert_eq!(s.mode_for_press(1, 0), PointerMode::PaintWall);
    assert_eq!(s.mode_for_press(0, 4), PointerMode::Idle);
}

#[test]
fn tracker_reports_changes() {
    let mut t = EventTracker::new();
    let e = t.generate_events((1, 2), true, false, false);
    assert_eq!(
        e,
        vec![down(1, 2), Event::MouseMoved { x: 1, y: 2 }]
    );
    assert!(t.generate_events((1, 2), true, false, false).is_empty());
    let e = t.generate_events((1, 2), false, true, false);
    assert_eq!(
        e,
        vec![up(1, 2), Event::MouseDown { button: MouseButton::Right, x: 1, y: 2 }]
    );
}
