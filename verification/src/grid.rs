//! Grid model: the toroidal coordinate space, wraparound arithmetic and
//! the mapping from grid cells to screen coordinates.

use vstd::arithmetic::div_mod::{
    lemma_mod_add_multiples_vanish, lemma_mod_bound, lemma_mod_sub_multiples_vanish,
    lemma_small_mod,
};
use vstd::prelude::*;

verus! {

/// Width of the play field, in cells.
pub const WORLD_GRID_WIDTH: i32 = 16;

/// Height of the play field, in cells.
pub const WORLD_GRID_HEIGHT: i32 = 16;

/// A direction of travel on the grid.
#[derive(Copy, Clone, Eq, PartialEq, Structural, Debug)]
pub enum Direction {
    Left,
    Right,
    Up,
    Down,
}

impl Direction {
    /// The direction pointing the opposite way.
    pub open spec fn opposite(self) -> Direction {
        match self {
            Direction::Left => Direction::Right,
            Direction::Right => Direction::Left,
            Direction::Up => Direction::Down,
            Direction::Down => Direction::Up,
        }
    }

    /// Whether `other` points the opposite way from `self`.
    pub fn is_opposite(&self, other: Direction) -> (r: bool)
        ensures
            r == (other == self.opposite()),
    {
        match self {
            Direction::Left => other == Direction::Right,
            Direction::Right => other == Direction::Left,
            Direction::Up => other == Direction::Down,
            Direction::Down => other == Direction::Up,
        }
    }
}

/// A cell of the grid. Engine-made positions always lie in bounds;
/// `wrap` forces arbitrary coordinates back onto the grid.
#[derive(Copy, Clone, Eq, PartialEq, Structural, Debug)]
pub struct Position {
    pub x: i32,
    pub y: i32,
}

/// Whether `p` lies on the grid.
pub open spec fn in_bounds(p: Position) -> bool {
    &&& 0 <= p.x < WORLD_GRID_WIDTH
    &&& 0 <= p.y < WORLD_GRID_HEIGHT
}

/// One coordinate wrapped into `[0, dim)`: the Euclidean remainder.
pub open spec fn wrap_coord(c: int, dim: int) -> int {
    c % dim
}

/// Horizontal displacement of one step in direction `d`.
pub open spec fn dx(d: Direction) -> int {
    match d {
        Direction::Left => -1,
        Direction::Right => 1,
        _ => 0,
    }
}

/// Vertical displacement of one step in direction `d`.
pub open spec fn dy(d: Direction) -> int {
    match d {
        Direction::Up => 1,
        Direction::Down => -1,
        _ => 0,
    }
}

/// The wrapped position one step from `p` in direction `d`.
pub open spec fn spec_advance(p: Position, d: Direction) -> Position {
    Position {
        x: wrap_coord(p.x + dx(d), WORLD_GRID_WIDTH as int) as i32,
        y: wrap_coord(p.y + dy(d), WORLD_GRID_HEIGHT as int) as i32,
    }
}

/// Wraparound law: one step from anywhere, in any direction, lands on the grid.
pub proof fn lemma_advance_in_bounds(p: Position, d: Direction)
    ensures
        in_bounds(spec_advance(p, d)),
{
    lemma_mod_bound(p.x + dx(d), WORLD_GRID_WIDTH as int);
    lemma_mod_bound(p.y + dy(d), WORLD_GRID_HEIGHT as int);
}

/// One axis value wrapped into `[0, dim)` by repeatedly shifting by `dim`.
fn wrap_axis(c: i32, dim: i32) -> (r: i32)
    requires
        0 < dim,
    ensures
        r == wrap_coord(c as int, dim as int),
        0 <= r < dim,
{
    let mut v: i32 = c;
    while v < 0
        invariant
            0 < dim,
            v <= i32::MAX,
            v as int % dim as int == c as int % dim as int,
        decreases (if v < 0 { 0 - v } else { 0int }),
    {
        proof {
            lemma_mod_add_multiples_vanish(v as int, dim as int);
        }
        v = v + dim;
    }
    while v >= dim
        invariant
            0 < dim,
            0 <= v,
            v as int % dim as int == c as int % dim as int,
        decreases v,
    {
        proof {
            lemma_mod_sub_multiples_vanish(v as int, dim as int);
        }
        v = v - dim;
    }
    proof {
        lemma_small_mod(v as nat, dim as nat);
    }
    v
}

/// The coordinate `p` with both axes wrapped back onto the grid.
pub fn wrap(p: Position) -> (r: Position)
    ensures
        r.x == wrap_coord(p.x as int, WORLD_GRID_WIDTH as int),
        r.y == wrap_coord(p.y as int, WORLD_GRID_HEIGHT as int),
        in_bounds(r),
{
    Position { x: wrap_axis(p.x, WORLD_GRID_WIDTH), y: wrap_axis(p.y, WORLD_GRID_HEIGHT) }
}

/// The screen coordinate, along one axis, of the center of grid cell
/// `cell`, for a window of `window_dim` pixels split into `grid_dim`
/// cells: the cell's offset from the window's centered origin plus half
/// a cell.
pub fn screen_coord(cell: i32, window_dim: i32, grid_dim: i32) -> (r: i32)
    requires
        0 < grid_dim,
        0 <= cell < grid_dim,
        0 <= window_dim,
    ensures
        r == cell * (window_dim as int / grid_dim as int) - window_dim as int / 2 + (window_dim
            as int / grid_dim as int) / 2,
{
    let cell_size = window_dim / grid_dim;
    proof {
        let w = window_dim as int;
        let g = grid_dim as int;
        let cs = w / g;
        vstd::arithmetic::div_mod::lemma_div_pos_is_pos(w, g);
        vstd::arithmetic::div_mod::lemma_fundamental_div_mod(w, g);
        lemma_mod_bound(w, g);
        vstd::arithmetic::mul::lemma_mul_inequality(cell as int, g - 1, cs);
        vstd::arithmetic::mul::lemma_mul_nonnegative(cell as int, cs);
        vstd::arithmetic::div_mod::lemma_div_nonincreasing(w, g);
        vstd::arithmetic::div_mod::lemma_div_is_ordered(cs, w, 2);
        assert((g - 1) * cs == g * cs - cs) by (nonlinear_arith);
        assert(cell * cs <= w - cs);
    }
    let scaled = cell * cell_size;
    scaled - window_dim / 2 + cell_size / 2
}

/// The neighbor of `p` in direction `dir`, wrapped onto the grid.
pub fn advance(p: Position, dir: Direction) -> (r: Position)
    requires
        in_bounds(p),
    ensures
        r == spec_advance(p, dir),
        in_bounds(r),
{
    let stepped = match dir {
        Direction::Left => Position { x: p.x - 1, y: p.y },
        Direction::Right => Position { x: p.x + 1, y: p.y },
        Direction::Up => Position { x: p.x, y: p.y + 1 },
        Direction::Down => Position { x: p.x, y: p.y - 1 },
    };
    wrap(stepped)
}

} // verus!
