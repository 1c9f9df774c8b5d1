use game_of_life::cell::Cell;
use game_of_life::cell_set::CellSet;
use game_of_life::life::make_cell_alive;

fn set_of(cells: &[(i64, i64)]) -> CellSet {
    let mut s = CellSet::new();
    for &(x, y) in cells {
        s.insert(Cell::new(x, y));
    }
    s
}

#[test]
fn new_set_is_empty() {
    let s = CellSet::new();
    assert!(s.is_empty());
    assert_eq!(s.len(), 0);
    assert!(!s.contains(Cell::new(0, 0)));
    assert_eq!(s.to_vec(), Vec::<Cell>::new());
}

#[test]
fn insert_makes_a_cell_live() {
    let mut s = CellSet::new();
    s.insert(Cell::new(3, -4));
    assert!(s.contains(Cell::new(3, -4)));
    assert!(!s.contains(Cell::new(-4, 3)));
    assert!(!s.is_empty());
    assert_eq!(s.len(), 1);
}

#[test]
fn insert_of_a_live_cell_changes_nothing() {
    let mut s = set_of(&[(1, 1), (2, 2)]);
    let before = s.clone();
    s.insert(Cell::new(1, 1));
    assert_eq!(s, before);
    assert_eq!(s.len(), 2);
}

#[test]
fn equality_ignores_insertion_order() {
    let a = set_of(&[(0, 0), (5, -1), (-3, 7), (5, 2)]);
    let b = set_of(&[(5, 2), (-3, 7), (0, 0), (5, -1)]);
    assert_eq!(a, b);
    assert_eq!(a.len(), 4);
}

#[test]
fn sets_with_different_cells_differ() {
    let a = set_of(&[(0, 0), (1, 0)]);
    let b = set_of(&[(0, 0), (0, 1)]);
    let c = set_of(&[(0, 0)]);
    assert_ne!(a, b);
    assert_ne!(a, c);
    assert_ne!(c, CellSet::new());
}

#[test]
fn enumeration_lists_each_cell_once_by_column_then_row() {
    let s = set_of(&[(2, 0), (-1, 5), (2, -3), (-1, 5), (0, 0)]);
    assert_eq!(
        s.to_vec(),
        vec![Cell::new(-1, 5), Cell::new(0, 0), Cell::new(2, -3), Cell::new(2, 0)]
    );
}

#[test]
fn from_cells_collapses_duplicates() {
    let listed = vec![Cell::new(1, 0), Cell::new(0, 0), Cell::new(1, 0), Cell::new(1, 0)];
    let s = CellSet::from_cells(&listed);
    assert_eq!(s, set_of(&[(0, 0), (1, 0)]));
    assert_eq!(s.len(), 2);
}

#[test]
fn make_cell_alive_leaves_its_input_alone() {
    let base = set_of(&[(0, 0)]);
    let grown = make_cell_alive(&base, Cell::new(0, 1));
    assert_eq!(base, set_of(&[(0, 0)]));
    assert_eq!(grown, set_of(&[(0, 0), (0, 1)]));
    let again = make_cell_alive(&grown, Cell::new(0, 1));
    assert_eq!(again, grown);
}

#[test]
fn live_neighbors_counts_the_eight_surrounding_cells() {
    let s = set_of(&[(0, 0), (1, 0), (2, 0), (0, 1), (2, 1), (0, 2), (1, 2), (2, 2), (1, 1)]);
    assert_eq!(s.live_neighbors(Cell::new(1, 1)), 8);
    assert_eq!(s.live_neighbors(Cell::new(0, 0)), 3);
    assert_eq!(s.live_neighbors(Cell::new(1, 0)), 5);
    assert_eq!(s.live_neighbors(Cell::new(3, 1)), 3);
    assert_eq!(s.live_neighbors(Cell::new(4, 1)), 0);
    assert_eq!(CellSet::new().live_neighbors(Cell::new(0, 0)), 0);
}

#[test]
fn live_neighbors_at_the_corner_of_the_coordinate_range() {
    let s = set_of(&[(i64::MAX, i64::MAX), (i64::MAX - 1, i64::MAX), (i64::MIN, i64::MIN)]);
    assert_eq!(s.live_neighbors(Cell::new(i64::MAX, i64::MAX)), 1);
    assert_eq!(s.live_neighbors(Cell::new(i64::MAX - 1, i64::MAX - 1)), 2);
    assert_eq!(s.live_neighbors(Cell::new(i64::MIN, i64::MIN)), 0);
    assert_eq!(s.live_neighbors(Cell::new(i64::MIN + 1, i64::MIN)), 1);
}

#[test]
fn translate_moves_every_cell() {
    let s = set_of(&[(0, 0), (1, 2), (-4, 3)]);
    let moved = s.translate(10, -20).unwrap();
    assert_eq!(moved, set_of(&[(10, -20), (11, -18), (6, -17)]));
    assert_eq!(s.translate(0, 0).unwrap(), s);
    assert_eq!(moved.translate(-10, 20).unwrap(), s);
}

#[test]
fn translate_out_of_the_coordinate_range_is_refused() {
    let s = set_of(&[(0, 0), (i64::MAX - 1, 0)]);
    assert!(s.translate(1, 0).is_some());
    assert!(s.translate(2, 0).is_none());
    assert!(set_of(&[(0, i64::MIN)]).translate(0, -1).is_none());
    assert_eq!(CellSet::new().translate(i64::MAX, i64::MIN).unwrap(), CellSet::new());
}

#[test]
fn cell_order_is_by_column_then_row() {
    assert!(Cell::new(0, 5).precedes(&Cell::new(1, -5)));
    assert!(Cell::new(1, -5).precedes(&Cell::new(1, 0)));
    assert!(!Cell::new(1, 0).precedes(&Cell::new(1, 0)));
    assert!(!Cell::new(2, 0).precedes(&Cell::new(1, 9)));
}

#[test]
fn shifted_cell_stays_in_range_or_is_refused() {
    assert_eq!(Cell::new(1, 2).shifted(-1, 1), Some(Cell::new(0, 3)));
    assert_eq!(Cell::new(i64::MAX, 0).shifted(1, 0), None);
    assert_eq!(Cell::new(0, i64::MIN).shifted(0, -1), None);
    assert_eq!(Cell::new(i64::MAX, i64::MIN).shifted(-1, 1), Some(Cell::new(i64::MAX - 1, i64::MIN + 1)));
}
