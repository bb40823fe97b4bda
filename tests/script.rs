use pathfind_demo::commands::{Color, DrawCommand, Shape, LINE_WIDTH};
use pathfind_demo::grid::Grid;
use pathfind_demo::script::{
    cell, check_entry_point, extract_path, grid_columns, record_draw_line, script_outcome,
    EntryPoint, ScriptError, ScriptValue,
};

fn pair(x: i128, y: i128) -> ScriptValue {
    ScriptValue::Tuple(vec![ScriptValue::Int(x), ScriptValue::Int(y)])
}

#[test]
fn bare_integer_is_a_schema_error() {
    assert!(matches!(extract_path(&ScriptValue::Int(3)), Err(ScriptError::Schema(_))));
    assert!(matches!(extract_path(&ScriptValue::Other), Err(ScriptError::Schema(_))));
}

#[test]
fn none_means_no_path() {
    assert!(matches!(extract_path(&ScriptValue::Nothing), Ok(None)));
}

#[test]
fn list_of_pairs_is_a_path() {
    let v = ScriptValue::Sequence(vec![pair(0, 0), pair(1, 0)]);
    assert_eq!(extract_path(&v).unwrap(), Some(vec![(0, 0), (1, 0)]));
    let t = ScriptValue::Tuple(vec![pair(2, 3)]);
    assert_eq!(extract_path(&t).unwrap(), Some(vec![(2, 3)]));
}

#[test]
fn malformed_paths_are_schema_errors() {
    let empty = ScriptValue::Sequence(Vec::new());
    assert!(matches!(extract_path(&empty), Err(ScriptError::Schema(_))));
    let negative = ScriptValue::Sequence(vec![pair(0, -1)]);
    assert!(matches!(extract_path(&negative), Err(ScriptError::Schema(_))));
    let triple = ScriptValue::Sequence(vec![ScriptValue::Tuple(vec![
        ScriptValue::Int(0),
        ScriptValue::Int(0),
        ScriptValue::Int(0),
    ])]);
    assert!(matches!(extract_path(&triple), Err(ScriptError::Schema(_))));
    let list_item = ScriptValue::Sequence(vec![ScriptValue::Sequence(vec![
        ScriptValue::Int(0),
        ScriptValue::Int(0),
    ])]);
    assert!(matches!(extract_path(&list_item), Err(ScriptError::Schema(_))));
}

#[test]
fn cell_reads_pairs() {
    assert_eq!(cell(&pair(4, 5)), Some((4, 5)));
    assert_eq!(cell(&pair(-4, 5)), None);
    assert_eq!(cell(&ScriptValue::Int(1)), None);
}

#[test]
fn draw_line_records_an_edge() {
    let mut log = Vec::new();
    assert!(record_draw_line(&mut log, &pair(0, 0), &pair(0, 1)));
    assert!(!record_draw_line(&mut log, &pair(0, 0), &ScriptValue::Nothing));
    assert_eq!(log.len(), 1);
    assert!(matches!(
        log[0],
        DrawCommand::AddShape(Shape::Line { from: (0, 0), to: (0, 1), width: LINE_WIDTH, color: Color::DarkGreen })
    ));
}

#[test]
fn grid_is_column_major() {
    let mut g = Grid::new(3, 2);
    g.set(2, 0, true);
    let cols = grid_columns(&g);
    assert_eq!(cols, vec![vec![false, false], vec![false, false], vec![true, false]]);
}

#[test]
fn outcome_keeps_log_and_errors() {
    let log = vec![DrawCommand::Clear];
    let (path, log) = script_outcome(Ok(ScriptValue::Sequence(vec![pair(1, 1)])), log).unwrap();
    assert_eq!(path, Some(vec![(1, 1)]));
    assert_eq!(log.len(), 1);
    let err = script_outcome(Err(ScriptError::Compile("bad".to_owned())), Vec::new());
    match err {
        Err(e) => {
            assert!(matches!(e, ScriptError::Compile(_)));
            assert_eq!(e.message(), "bad");
        }
        Ok(_) => panic!("expected an error"),
    }
    assert!(matches!(
        script_outcome(Ok(ScriptValue::Int(1)), Vec::new()),
        Err(ScriptError::Schema(_))
    ));
}

#[test]
fn entry_point_must_be_a_function() {
    assert!(check_entry_point(EntryPoint::Function).is_ok());
    assert!(matches!(check_entry_point(EntryPoint::Missing), Err(ScriptError::Schema(_))));
    assert!(matches!(check_entry_point(EntryPoint::NotAFunction), Err(ScriptError::Schema(_))));
}

#[test]
fn schema_errors_carry_a_message() {
    match check_entry_point(EntryPoint::Missing) {
        Err(e) => assert!(!e.message().is_empty()),
        Ok(()) => panic!("expected an error"),
    }
    match extract_path(&ScriptValue::Int(7)) {
        Err(e) => assert!(!e.message().is_empty()),
        Ok(_) => panic!("expected an error"),
    }
}
