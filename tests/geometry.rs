use hexgame_ui::geometry::{cell_center, nearest_cell, Coordinate, Position};

const ORIGIN: Position = Position { x: 4000, y: 4000 };

fn coord(x: u8, y: u8) -> Coordinate {
    Coordinate { x, y }
}

#[test]
fn center_follows_the_affine_formula() {
    let c = cell_center(coord(3, 2), 40, ORIGIN);
    assert_eq!(c, Position { x: 4000 + 12000 + 4000, y: 4000 + 6960 });
    assert_eq!(cell_center(coord(0, 0), 40, ORIGIN), ORIGIN);
}

#[test]
fn every_center_selects_its_own_cell() {
    for size in 1..=17u8 {
        for x in 0..size {
            for y in 0..size {
                let p = cell_center(coord(x, y), 40, ORIGIN);
                assert_eq!(nearest_cell(p, size, 40, ORIGIN), Some(coord(x, y)));
            }
        }
    }
}

#[test]
fn far_pointer_selects_nothing() {
    let far = Position { x: -1_000_000, y: -1_000_000 };
    assert_eq!(nearest_cell(far, 5, 40, ORIGIN), None);
    let below = Position { x: 4000, y: 4000 + 87 * 40 * 4 + 4001 };
    assert_eq!(nearest_cell(below, 5, 40, ORIGIN), None);
}

#[test]
fn empty_board_selects_nothing() {
    assert_eq!(nearest_cell(ORIGIN, 0, 40, ORIGIN), None);
}

#[test]
fn pointer_near_a_center_selects_that_cell() {
    let p = Position { x: 4000 + 4000 + 300, y: 4000 - 500 };
    assert_eq!(nearest_cell(p, 5, 40, ORIGIN), Some(coord(1, 0)));
}

#[test]
fn selection_radius_is_strict() {
    // Exactly one cell size away from the only cell: not selected.
    let p = Position { x: 4000, y: 0 };
    assert_eq!(nearest_cell(p, 1, 40, ORIGIN), None);
    let q = Position { x: 4000, y: 1 };
    assert_eq!(nearest_cell(q, 1, 40, ORIGIN), Some(coord(0, 0)));
}

#[test]
fn equal_distances_go_to_the_first_cell_in_row_major_order() {
    // Halfway between the centers of (0, 0) and (1, 0).
    let p = Position { x: 4000 + 2000, y: 4000 };
    assert_eq!(nearest_cell(p, 5, 40, ORIGIN), Some(coord(0, 0)));
}
