//! Hex-grid geometry in fixed-point units.
//!
//! Positions are measured in hundredths of a pixel. A cell `(x, y)` of a board
//! whose cells are `cell_size` pixels wide has its center at
//! `origin + (cell_size * x + cell_size * y / 2, 0.87 * cell_size * y)` pixels,
//! which in hundredths is the exact integer formula of `center_x` / `center_y`.
use vstd::prelude::*;

verus! {

/// Largest absolute value of a position component accepted by the geometry.
pub const POSITION_LIMIT: i64 = 1_099_511_627_776;

/// A cell of the board: `x` and `y` are its two grid indices.
#[derive(Clone, Copy, Debug, PartialEq, Eq, Structural)]
pub struct Coordinate {
    pub x: u8,
    pub y: u8,
}

/// A point of the plane, in hundredths of a pixel.
#[derive(Clone, Copy, Debug, PartialEq, Eq, Structural)]
pub struct Position {
    pub x: i64,
    pub y: i64,
}

pub open spec fn position_ok(p: Position) -> bool {
    -POSITION_LIMIT <= p.x <= POSITION_LIMIT && -POSITION_LIMIT <= p.y <= POSITION_LIMIT
}

pub open spec fn on_board(c: Coordinate, size: int) -> bool {
    c.x < size && c.y < size
}

/// Row-major scan order: `a` is visited before `b`.
pub open spec fn precedes(a: Coordinate, b: Coordinate) -> bool {
    a.x < b.x || (a.x == b.x && a.y < b.y)
}

pub open spec fn center_x(c: Coordinate, cell_size: int, origin: Position) -> int {
    origin.x + 100 * cell_size * c.x + 50 * cell_size * c.y
}

pub open spec fn center_y(c: Coordinate, cell_size: int, origin: Position) -> int {
    origin.y + 87 * cell_size * c.y
}

/// Squared distance from the point `(px, py)` to the center of cell `c`.
pub open spec fn dist_sq(px: int, py: int, c: Coordinate, cell_size: int, origin: Position) -> int {
    (px - center_x(c, cell_size, origin)) * (px - center_x(c, cell_size, origin))
        + (py - center_y(c, cell_size, origin)) * (py - center_y(c, cell_size, origin))
}

/// Square of the selection radius, which is one cell size.
pub open spec fn radius_sq(cell_size: int) -> int {
    (100 * cell_size) * (100 * cell_size)
}

/// `r` is the cell under `pointer`: the closest cell center, the first one in
/// row-major order among equally close ones, provided it lies strictly within
/// the selection radius; nothing when no center does.
pub open spec fn is_nearest_result(
    pointer: Position,
    size: int,
    cell_size: int,
    origin: Position,
    r: Option<Coordinate>,
) -> bool {
    match r {
        None => forall|c: Coordinate|
            on_board(c, size) ==> #[trigger] dist_sq(pointer.x as int, pointer.y as int, c, cell_size, origin)
                >= radius_sq(cell_size),
        Some(b) => {
            &&& on_board(b, size)
            &&& dist_sq(pointer.x as int, pointer.y as int, b, cell_size, origin) < radius_sq(cell_size)
            &&& forall|c: Coordinate|
                on_board(c, size) ==> {
                    let db = dist_sq(pointer.x as int, pointer.y as int, b, cell_size, origin);
                    let dc = #[trigger] dist_sq(pointer.x as int, pointer.y as int, c, cell_size, origin);
                    db <= dc && (precedes(c, b) ==> db < dc)
                }
        },
    }
}

/// Center of cell `c`.
pub fn cell_center(c: Coordinate, cell_size: u16, origin: Position) -> (r: Position)
    requires
        position_ok(origin),
    ensures
        r.x == center_x(c, cell_size as int, origin),
        r.y == center_y(c, cell_size as int, origin),
        -POSITION_LIMIT <= r.x <= POSITION_LIMIT + 5_000_000_000,
        -POSITION_LIMIT <= r.y <= POSITION_LIMIT + 5_000_000_000,
{
    let cs = cell_size as i64;
    let cx = c.x as i64;
    let cy = c.y as i64;
    proof {
        assert(0 <= 100 * cs * cx <= 100 * 65535 * 255) by (nonlinear_arith)
            requires 0 <= cs <= 65535, 0 <= cx <= 255;
        assert(0 <= 50 * cs * cy <= 50 * 65535 * 255) by (nonlinear_arith)
            requires 0 <= cs <= 65535, 0 <= cy <= 255;
        assert(0 <= 87 * cs * cy <= 87 * 65535 * 255) by (nonlinear_arith)
            requires 0 <= cs <= 65535, 0 <= cy <= 255;
    }
    Position { x: origin.x + 100 * cs * cx + 50 * cs * cy, y: origin.y + 87 * cs * cy }
}

fn square(d: i128) -> (r: i128)
    requires
        -0x1_0000_0000_0000 <= d <= 0x1_0000_0000_0000,
    ensures
        r == d * d,
        0 <= r <= 0x1_0000_0000_0000_0000_0000_0000,
{
    proof {
        assert(0 <= d * d <= 0x1_0000_0000_0000 * 0x1_0000_0000_0000) by (nonlinear_arith)
            requires -0x1_0000_0000_0000 <= d <= 0x1_0000_0000_0000;
    }
    d * d
}

fn distance_sq(pointer: Position, c: Coordinate, cell_size: u16, origin: Position) -> (r: i128)
    requires
        position_ok(pointer),
        position_ok(origin),
    ensures
        r == dist_sq(pointer.x as int, pointer.y as int, c, cell_size as int, origin),
{
    let center = cell_center(c, cell_size, origin);
    let dx = pointer.x as i128 - center.x as i128;
    let dy = pointer.y as i128 - center.y as i128;
    square(dx) + square(dy)
}

/// The cell under `pointer`, if any (see `is_nearest_result`).
pub fn nearest_cell(pointer: Position, size: u8, cell_size: u16, origin: Position) -> (r: Option<
    Coordinate,
>)
    requires
        position_ok(pointer),
        position_ok(origin),
    ensures
        is_nearest_result(pointer, size as int, cell_size as int, origin, r),
{
    let ghost px = pointer.x as int;
    let ghost py = pointer.y as int;
    let ghost cs = cell_size as int;
    proof {
        assert(0 <= (100 * cs) * (100 * cs) <= 6_553_500 * 6_553_500) by (nonlinear_arith)
            requires 0 <= cs <= 65535;
    }
    let limit: i128 = (100 * cell_size as i128) * (100 * cell_size as i128);
    let mut best: Option<Coordinate> = None;
    let mut best_d: i128 = 0;
    let mut x: u8 = 0;
    while x < size
        invariant
            x <= size,
            limit == radius_sq(cs),
            px == pointer.x && py == pointer.y && cs == cell_size,
            position_ok(pointer),
            position_ok(origin),
            best matches None ==> forall|c: Coordinate|
                on_board(c, size as int) && c.x < x ==> #[trigger] dist_sq(px, py, c, cs, origin)
                    >= radius_sq(cs),
            best matches Some(b) ==> {
                &&& on_board(b, size as int) && b.x < x
                &&& best_d == dist_sq(px, py, b, cs, origin) && best_d < radius_sq(cs)
                &&& forall|c: Coordinate|
                    on_board(c, size as int) && c.x < x ==> {
                        let dc = #[trigger] dist_sq(px, py, c, cs, origin);
                        best_d <= dc && (precedes(c, b) ==> best_d < dc)
                    }
            },
        decreases size - x,
    {
        let mut y: u8 = 0;
        while y < size
            invariant
                x < size,
                y <= size,
                limit == radius_sq(cs),
                px == pointer.x && py == pointer.y && cs == cell_size,
            px == pointer.x && py == pointer.y && cs == cell_size,
                position_ok(pointer),
                position_ok(origin),
                best matches None ==> forall|c: Coordinate|
                    on_board(c, size as int) && (c.x < x || (c.x == x && c.y < y))
                        ==> #[trigger] dist_sq(px, py, c, cs, origin) >= radius_sq(cs),
                best matches Some(b) ==> {
                    &&& on_board(b, size as int) && (b.x < x || (b.x == x && b.y < y))
                    &&& best_d == dist_sq(px, py, b, cs, origin) && best_d < radius_sq(cs)
                    &&& forall|c: Coordinate|
                        on_board(c, size as int) && (c.x < x || (c.x == x && c.y < y)) ==> {
                            let dc = #[trigger] dist_sq(px, py, c, cs, origin);
                            best_d <= dc && (precedes(c, b) ==> best_d < dc)
                        }
                },
            decreases size - y,
        {
            let here = Coordinate { x, y };
            let d = distance_sq(pointer, here, cell_size, origin);
            let closer = match best {
                None => d < limit,
                Some(_) => d < best_d,
            };
            let ghost old_best = best;
            let ghost old_d = best_d;
            if closer {
                best = Some(here);
                best_d = d;
            }
            proof {
                assert forall|c: Coordinate|
                    on_board(c, size as int) && (c.x < x || (c.x == x && c.y < y + 1)) implies (
                    best matches None ==> dist_sq(px, py, c, cs, origin) >= radius_sq(cs)) && (
                    best matches Some(b) ==> best_d <= #[trigger] dist_sq(px, py, c, cs, origin)
                        && (precedes(c, b) ==> best_d < dist_sq(px, py, c, cs, origin))) by {
                    let dc = dist_sq(px, py, c, cs, origin);
                    if c.x == x && c.y == y {
                        assert(c == here);
                        if let Some(b) = old_best {
                            assert(!precedes(here, b));
                        }
                    } else {
                        assert(c.x < x || (c.x == x && c.y < y));
                        if let Some(b) = old_best {
                            assert(old_d <= dc);
                        } else {
                            assert(dc >= radius_sq(cs));
                        }
                    }
                }
            }
            y = y + 1;
        }
        x = x + 1;
    }
    best
}

/// A pointer placed exactly on the center of a cell selects that cell, on any
/// board and for any positive cell size.
pub proof fn lemma_center_selects_its_cell(
    size: int,
    cell_size: int,
    origin: Position,
    c: Coordinate,
    pointer: Position,
    r: Option<Coordinate>,
)
    requires
        cell_size > 0,
        on_board(c, size),
        pointer.x == center_x(c, cell_size, origin),
        pointer.y == center_y(c, cell_size, origin),
        is_nearest_result(pointer, size, cell_size, origin, r),
    ensures
        r == Some(c),
{
    let px = pointer.x as int;
    let py = pointer.y as int;
    assert(dist_sq(px, py, c, cell_size, origin) == 0);
    assert(radius_sq(cell_size) > 0) by (nonlinear_arith)
        requires cell_size > 0;
    match r {
        None => {
            assert(dist_sq(px, py, c, cell_size, origin) >= radius_sq(cell_size));
        },
        Some(b) => {
            let dx = px - center_x(b, cell_size, origin);
            let dy = py - center_y(b, cell_size, origin);
            assert(dist_sq(px, py, b, cell_size, origin) <= 0);
            assert(dx * dx >= 0 && dy * dy >= 0) by (nonlinear_arith);
            assert(dx == 0 && dy == 0) by (nonlinear_arith)
                requires dx * dx + dy * dy <= 0, dx * dx >= 0, dy * dy >= 0;
            assert(b.y == c.y) by (nonlinear_arith)
                requires 87 * cell_size * b.y == 87 * cell_size * c.y, cell_size > 0;
            assert(b.x == c.x) by (nonlinear_arith)
                requires
                    100 * cell_size * b.x + 50 * cell_size * b.y == 100 * cell_size * c.x + 50
                        * cell_size * c.y,
                    b.y == c.y,
                    cell_size > 0,
            ;
        },
    }
}

/// A pointer farther than one cell size from every cell center selects nothing.
pub proof fn lemma_far_pointer_selects_nothing(
    size: int,
    cell_size: int,
    origin: Position,
    pointer: Position,
    r: Option<Coordinate>,
)
    requires
        forall|c: Coordinate|
            on_board(c, size) ==> #[trigger] dist_sq(pointer.x as int, pointer.y as int, c, cell_size, origin)
                > radius_sq(cell_size),
        is_nearest_result(pointer, size, cell_size, origin, r),
    ensures
        r is None,
{
    if let Some(b) = r {
        assert(dist_sq(pointer.x as int, pointer.y as int, b, cell_size, origin) > radius_sq(cell_size));
    }
}

} // verus!
