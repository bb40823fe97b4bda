use pathfind_demo::commands::{segments, visible_range, Color, DrawCommand, Shape, LINE_WIDTH};
use pathfind_demo::grid::Grid;
use pathfind_demo::scene::{PathtfindScene, UNITS_PER_STEP};

fn edge(x: usize) -> DrawCommand {
    DrawCommand::AddShape(Shape::Line {
        from: (x, 0),
        to: (x + 1, 0),
        width: LINE_WIDTH,
        color: Color::DarkGreen,
    })
}

fn sample_log() -> Vec<DrawCommand> {
    vec![edge(0), edge(1), DrawCommand::Clear, edge(2), edge(3)]
}

#[test]
fn window_grows_with_progress() {
    let log = sample_log();
    assert_eq!(visible_range(&log, 0), (0, 0));
    assert_eq!(visible_range(&log, 1), (0, 1));
    assert_eq!(visible_range(&log, 2), (0, 2));
}

#[test]
fn clear_hides_everything_before_it() {
    let log = sample_log();
    assert_eq!(visible_range(&log, 3), (3, 3));
    assert_eq!(visible_range(&log, 4), (3, 4));
    assert_eq!(visible_range(&log, 5), (3, 5));
    assert_eq!(visible_range(&log, 100), (3, 5));
}

#[test]
fn rendering_twice_gives_the_same_window() {
    let log = sample_log();
    assert_eq!(visible_range(&log, 4), visible_range(&log, 4));
}

#[test]
fn empty_log_shows_nothing() {
    let log: Vec<DrawCommand> = Vec::new();
    assert_eq!(visible_range(&log, 7), (0, 0));
}

#[test]
fn segments_pair_consecutive_points() {
    assert_eq!(
        segments(&vec![(0, 0), (1, 0), (1, 1)]),
        vec![((0, 0), (1, 0)), ((1, 0), (1, 1))]
    );
    assert!(segments(&vec![(2, 2)]).is_empty());
    assert!(segments(&Vec::new()).is_empty());
}

#[test]
fn progress_starts_on_first_tick() {
    let mut scene = PathtfindScene::new(Grid::new(2, 2), (0, 0), (1, 1));
    scene.set_draw_commands(sample_log());
    assert_eq!(scene.visible_commands(), (0, 0));
    scene.update(1_000_000);
    assert_eq!(scene.visible_commands(), (0, 0));
    // 100 commands per second: 20 ms is two commands.
    scene.update(20_000);
    assert_eq!(scene.visible_commands(), (0, 2));
    scene.update(10_000);
    assert_eq!(scene.visible_commands(), (3, 3));
    scene.update(1_000_000);
    assert_eq!(scene.visible_commands(), (3, 5));
}

#[test]
fn progress_stops_past_the_end() {
    let mut scene = PathtfindScene::new(Grid::new(2, 2), (0, 0), (1, 1));
    scene.set_draw_commands(vec![edge(0)]);
    scene.update(0);
    scene.update(30_000);
    scene.update(u64::MAX);
    assert_eq!(scene.visible_commands(), (0, 1));
    assert!(UNITS_PER_STEP > 0);
}
