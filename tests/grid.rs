use pathfind_demo::grid::Grid;

#[test]
fn new_grid_is_empty() {
    let g = Grid::new(3, 2);
    assert_eq!(g.width(), 3);
    assert_eq!(g.height(), 2);
    for x in 0..3 {
        for y in 0..2 {
            assert!(!g.get(x, y));
        }
    }
}

#[test]
fn set_changes_one_cell() {
    let mut g = Grid::new(3, 3);
    g.set(1, 2, true);
    assert!(g.get(1, 2));
    assert!(!g.get(2, 1));
    assert!(!g.get(1, 1));
    g.set(1, 2, false);
    assert!(!g.get(1, 2));
}

#[test]
fn try_get_rejects_out_of_range() {
    let mut g = Grid::new(2, 2);
    g.set(1, 0, true);
    assert_eq!(g.try_get(1, 0), Some(true));
    assert_eq!(g.try_get(0, 1), Some(false));
    assert_eq!(g.try_get(-1, 0), None);
    assert_eq!(g.try_get(0, -1), None);
    assert_eq!(g.try_get(2, 0), None);
    assert_eq!(g.try_get(0, 2), None);
}

#[test]
fn coordinates_validity() {
    let g = Grid::new(4, 1);
    assert!(g.are_coordinates_valid(3, 0));
    assert!(!g.are_coordinates_valid(4, 0));
    assert!(!g.are_coordinates_valid(0, 1));
    assert!(!g.are_coordinates_valid(-1, -1));
}

#[test]
fn keys_are_column_by_column() {
    let g = Grid::new(2, 3);
    assert_eq!(g.keys(), vec![(0, 0), (0, 1), (0, 2), (1, 0), (1, 1), (1, 2)]);
}

#[test]
fn iter_carries_occupancy() {
    let mut g = Grid::new(2, 2);
    g.set(1, 0, true);
    assert_eq!(
        g.iter(),
        vec![(0, 0, false), (0, 1, false), (1, 0, true), (1, 1, false)]
    );
}

#[test]
fn neighbors_in_fixed_order() {
    let mut g = Grid::new(3, 3);
    g.set(1, 0, true);
    assert_eq!(
        g.neighbors(1, 1),
        vec![(2, 1, false), (1, 2, false), (0, 1, false), (1, 0, true)]
    );
}

#[test]
fn neighbors_stay_in_bounds() {
    let g = Grid::new(3, 2);
    assert_eq!(g.neighbors(0, 0), vec![(1, 0, false), (0, 1, false)]);
    assert_eq!(g.neighbors(2, 1), vec![(1, 1, false), (2, 0, false)]);
    let single = Grid::new(1, 1);
    assert!(single.neighbors(0, 0).is_empty());
}

#[test]
fn empty_grid_has_no_cells() {
    let g = Grid::new(0, 0);
    assert!(g.keys().is_empty());
    assert!(g.iter().is_empty());
    assert_eq!(g.try_get(0, 0), None);
}
