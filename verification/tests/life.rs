use game_of_life::cell::Cell;
use game_of_life::cell_set::CellSet;
use game_of_life::life::{next_fits, tick};

fn cells_of(cells: &[(i64, i64)]) -> CellSet {
    let listed: Vec<Cell> = cells.iter().map(|&(x, y)| Cell::new(x, y)).collect();
    CellSet::from_cells(&listed)
}

fn glider() -> CellSet {
    cells_of(&[(1, 0), (2, 1), (0, 2), (1, 2), (2, 2)])
}

#[test]
fn empty_grid_stays_empty() {
    let empty = CellSet::new();
    assert_eq!(tick(&empty), CellSet::new());
    assert!(empty.is_empty());
}

#[test]
fn block_is_a_still_life() {
    let block = cells_of(&[(0, 0), (1, 0), (0, 1), (1, 1)]);
    assert_eq!(tick(&block), block);
}

#[test]
fn blinker_oscillates_with_period_two() {
    let blinker = cells_of(&[(0, 0), (0, 1), (0, 2)]);
    let flipped = tick(&blinker);
    assert_eq!(flipped, cells_of(&[(-1, 1), (0, 1), (1, 1)]));
    assert_eq!(tick(&flipped), blinker);
}

#[test]
fn tick_does_not_touch_its_input() {
    let blinker = cells_of(&[(0, 0), (0, 1), (0, 2)]);
    let _ = tick(&blinker);
    assert_eq!(blinker, cells_of(&[(0, 0), (0, 1), (0, 2)]));
}

#[test]
fn lone_cell_and_pair_die() {
    assert_eq!(tick(&cells_of(&[(7, 7)])), CellSet::new());
    assert_eq!(tick(&cells_of(&[(7, 7), (8, 7)])), CellSet::new());
}

#[test]
fn dead_cell_with_three_neighbours_is_born() {
    let corner = cells_of(&[(0, 0), (1, 0), (0, 1)]);
    assert_eq!(tick(&corner), cells_of(&[(0, 0), (1, 0), (0, 1), (1, 1)]));
}

#[test]
fn live_cell_with_four_neighbours_dies() {
    let plus = cells_of(&[(0, 0), (-1, 0), (1, 0), (0, -1), (0, 1)]);
    let next = tick(&plus);
    assert!(!next.contains(Cell::new(0, 0)));
    assert_eq!(
        next,
        cells_of(&[(-1, -1), (0, -1), (1, -1), (-1, 0), (1, 0), (-1, 1), (0, 1), (1, 1)])
    );
}

#[test]
fn tick_is_the_same_for_the_same_cells() {
    let a = cells_of(&[(1, 0), (2, 1), (0, 2), (1, 2), (2, 2)]);
    let b = cells_of(&[(2, 2), (1, 2), (0, 2), (2, 1), (1, 0)]);
    assert_eq!(tick(&a), tick(&b));
    assert_eq!(tick(&a), tick(&a));
}

#[test]
fn glider_after_one_tick() {
    assert_eq!(tick(&glider()), cells_of(&[(0, 1), (2, 1), (1, 2), (2, 2), (1, 3)]));
}

#[test]
fn glider_moves_one_step_diagonally_every_four_ticks() {
    let mut g = glider();
    for _ in 0..4 {
        g = tick(&g);
    }
    assert_eq!(g, glider().translate(1, 1).unwrap());
}

#[test]
fn tick_commutes_with_translation() {
    let offsets = [(0, 0), (5, -3), (-1000, 1000), (1 << 40, -(1 << 50))];
    let shapes = [
        glider(),
        cells_of(&[(0, 0), (0, 1), (0, 2)]),
        cells_of(&[(0, 0), (1, 0), (0, 1), (1, 1), (3, 3), (4, 3), (3, 4)]),
        CellSet::new(),
    ];
    for shape in shapes.iter() {
        for &(dx, dy) in offsets.iter() {
            let moved_then_ticked = tick(&shape.translate(dx, dy).unwrap());
            let ticked_then_moved = tick(shape).translate(dx, dy).unwrap();
            assert_eq!(moved_then_ticked, ticked_then_moved);
        }
    }
}

#[test]
fn grid_has_no_edge_away_from_the_origin() {
    let far = 1i64 << 62;
    let blinker = cells_of(&[(far, -far), (far, -far + 1), (far, -far + 2)]);
    assert_eq!(
        tick(&blinker),
        cells_of(&[(far - 1, -far + 1), (far, -far + 1), (far + 1, -far + 1)])
    );
}

#[test]
fn cells_on_the_rim_of_the_coordinate_range_evolve() {
    let lone = cells_of(&[(i64::MAX, i64::MIN)]);
    assert_eq!(tick(&lone), CellSet::new());
    let block = cells_of(&[
        (i64::MAX - 1, i64::MAX - 1),
        (i64::MAX, i64::MAX - 1),
        (i64::MAX - 1, i64::MAX),
        (i64::MAX, i64::MAX),
    ]);
    assert_eq!(tick(&block), block);
}

#[test]
fn next_generation_fits_unless_a_cell_is_born_beyond_the_rim() {
    assert!(next_fits(&CellSet::new()));
    assert!(next_fits(&glider()));
    assert!(next_fits(&cells_of(&[(i64::MAX, 0)])));
    assert!(next_fits(&cells_of(&[(i64::MAX, 0), (i64::MAX, 1)])));
    assert!(next_fits(&cells_of(&[(i64::MAX - 1, 0), (i64::MAX - 1, 1), (i64::MAX - 1, 2)])));
    assert!(!next_fits(&cells_of(&[(i64::MAX, 0), (i64::MAX, 1), (i64::MAX, 2)])));
    assert!(!next_fits(&cells_of(&[(i64::MIN, 5), (i64::MIN, 6), (i64::MIN, 7)])));
    assert!(!next_fits(&cells_of(&[(-1, i64::MAX), (0, i64::MAX), (1, i64::MAX)])));
    assert!(!next_fits(&cells_of(&[(-1, i64::MIN), (0, i64::MIN), (1, i64::MIN)])));
    assert!(next_fits(&cells_of(&[
        (i64::MIN, i64::MIN),
        (i64::MIN + 1, i64::MIN),
        (i64::MIN, i64::MIN + 1),
    ])));
}

#[test]
fn column_against_the_rim_keeps_only_what_fits_when_it_can() {
    let column = cells_of(&[(i64::MAX - 1, 0), (i64::MAX - 1, 1), (i64::MAX - 1, 2)]);
    assert_eq!(
        tick(&column),
        cells_of(&[(i64::MAX - 2, 1), (i64::MAX - 1, 1), (i64::MAX, 1)])
    );
}
