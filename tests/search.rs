use pathfind_demo::commands::{Color, DrawCommand, Shape, LINE_WIDTH};
use pathfind_demo::grid::Grid;
use pathfind_demo::pathfind::{find_and_render_builtin, find_and_render_path, render_path};
use pathfind_demo::script::ScriptError;
use pathfind_demo::search::builtin_search;

fn is_neighbor(a: (usize, usize), b: (usize, usize)) -> bool {
    let dx = (a.0 as i64 - b.0 as i64).abs();
    let dy = (a.1 as i64 - b.1 as i64).abs();
    dx + dy == 1
}

#[test]
fn straight_corridor_path() {
    let g = Grid::new(3, 1);
    let (path, log) = builtin_search(&g, (0, 0), (2, 0));
    assert_eq!(path, Some(vec![(0, 0), (1, 0), (2, 0)]));
    assert_eq!(log.len(), 2);
    assert!(matches!(
        log[0],
        DrawCommand::AddShape(Shape::Line { from: (0, 0), to: (1, 0), width: LINE_WIDTH, color: Color::DarkGreen })
    ));
}

#[test]
fn blocked_corridor_has_no_path() {
    let mut g = Grid::new(3, 1);
    g.set(1, 0, true);
    let (path, _log) = builtin_search(&g, (0, 0), (2, 0));
    assert_eq!(path, None);
}

#[test]
fn same_start_and_finish() {
    let g = Grid::new(2, 2);
    let (path, log) = builtin_search(&g, (1, 1), (1, 1));
    assert_eq!(path, Some(vec![(1, 1)]));
    assert!(log.is_empty());
}

#[test]
fn path_around_a_wall() {
    let mut g = Grid::new(3, 3);
    g.set(1, 0, true);
    g.set(1, 1, true);
    let (path, log) = builtin_search(&g, (0, 0), (2, 0));
    let path = path.expect("a path exists");
    assert_eq!(path[0], (0, 0));
    assert_eq!(*path.last().unwrap(), (2, 0));
    for w in path.windows(2) {
        assert!(is_neighbor(w[0], w[1]));
        assert!(!g.get(w[1].0, w[1].1));
    }
    assert!(log.iter().all(|c| matches!(c, DrawCommand::AddShape(Shape::Line { .. }))));
}

#[test]
fn walled_in_finish_is_unreachable() {
    let mut g = Grid::new(3, 3);
    g.set(1, 2, true);
    g.set(2, 1, true);
    let (path, log) = builtin_search(&g, (0, 0), (2, 2));
    assert_eq!(path, None);
    assert!(!log.is_empty());
}

#[test]
fn render_appends_clear_and_path() {
    let g = Grid::new(3, 1);
    let log = find_and_render_builtin(&g, (0, 0), (2, 0));
    assert_eq!(log.len(), 4);
    assert!(matches!(log[2], DrawCommand::Clear));
    match &log[3] {
        DrawCommand::AddShape(Shape::SegmentedLine { points, width, color }) => {
            assert_eq!(points, &vec![(0, 0), (1, 0), (2, 0)]);
            assert_eq!(*width, LINE_WIDTH);
            assert_eq!(*color, Color::Lime);
        }
        other => panic!("unexpected command {:?}", other),
    }
    let clears = log.iter().filter(|c| matches!(c, DrawCommand::Clear)).count();
    assert_eq!(clears, 1);
}

#[test]
fn render_without_path_adds_nothing() {
    let mut g = Grid::new(3, 1);
    g.set(1, 0, true);
    let log = find_and_render_builtin(&g, (0, 0), (2, 0));
    assert!(log.iter().all(|c| !matches!(c, DrawCommand::Clear)));
    assert!(log
        .iter()
        .all(|c| !matches!(c, DrawCommand::AddShape(Shape::SegmentedLine { .. }))));
    let edges = vec![DrawCommand::AddShape(Shape::Line {
        from: (0, 0),
        to: (0, 1),
        width: LINE_WIDTH,
        color: Color::DarkGreen,
    })];
    assert_eq!(render_path(edges, None).len(), 1);
}

#[test]
fn find_and_render_passes_errors_through() {
    let r = find_and_render_path(Err(ScriptError::Runtime("boom".to_owned())));
    match r {
        Err(ScriptError::Runtime(m)) => assert_eq!(m, "boom"),
        other => panic!("unexpected {:?}", other),
    }
    let ok = find_and_render_path(Ok((Some(vec![(0, 0)]), Vec::new()))).unwrap();
    assert_eq!(ok.len(), 2);
    assert!(matches!(ok[0], DrawCommand::Clear));
}

#[test]
fn walled_start_has_no_path() {
    let mut g = Grid::new(2, 1);
    g.set(0, 0, true);
    let (path, log) = builtin_search(&g, (0, 0), (1, 0));
    assert_eq!(path, None);
    assert!(log.is_empty());
    let rendered = find_and_render_builtin(&g, (0, 0), (1, 0));
    assert!(rendered.is_empty());
}

#[test]
fn path_visits_no_cell_twice() {
    let g = Grid::new(4, 4);
    let (path, _log) = builtin_search(&g, (0, 0), (3, 3));
    let path = path.expect("a path exists");
    for i in 0..path.len() {
        for j in i + 1..path.len() {
            assert_ne!(path[i], path[j]);
        }
    }
}

#[test]
fn exploration_log_discovers_each_cell_once() {
    let g = Grid::new(3, 3);
    let (_path, log) = builtin_search(&g, (0, 0), (2, 2));
    let mut reached = vec![(0usize, 0usize)];
    for command in &log {
        match command {
            DrawCommand::AddShape(Shape::Line { from, to, .. }) => {
                assert!(is_neighbor(*from, *to));
                assert!(reached.contains(from));
                assert!(!reached.contains(to));
                reached.push(*to);
            }
            other => panic!("unexpected command {:?}", other),
        }
    }
}
