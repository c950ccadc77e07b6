//! Food manager: the single active food item and its random, off-snake
//! placement with a bounded rejection loop and an exhaustive-scan
//! fallback.

use crate::grid::{in_bounds, Position, WORLD_GRID_HEIGHT, WORLD_GRID_WIDTH};
use vstd::prelude::*;

verus! {

/// The active food item: an opaque render handle plus its cell.
#[derive(Copy, Clone, Eq, PartialEq, Structural, Debug)]
pub struct Food {
    pub entity: u64,
    pub pos: Position,
}

/// How many random draws are tried before the placement falls back to an
/// exhaustive scan of the grid.
pub const RESPAWN_RETRIES: u32 = 32;

/// Relies on rand::random_range: a uniform draw from `[0, n)` out of the
/// thread-local generator; it panics only on an empty range.
#[verifier::external_body]
fn random_below(n: i32) -> (r: i32)
    requires
        0 < n,
    ensures
        0 <= r < n,
{
    rand::random_range(0..n)
}

/// Whether `p` is one of the cells in `cells`.
pub fn contains_pos(cells: &Vec<Position>, p: Position) -> (r: bool)
    ensures
        r == cells@.contains(p),
{
    let mut i: usize = 0;
    while i < cells.len()
        invariant
            0 <= i <= cells@.len(),
            forall|j: int| 0 <= j < i ==> cells@[j] != p,
        decreases cells@.len() - i,
    {
        if cells[i] == p {
            return true;
        }
        i = i + 1;
    }
    false
}

/// A cell for a new food item, never on the snake: a bounded number of
/// uniform draws over the grid, each rejected if `occupied` holds it; if
/// every draw collides, the first free cell of an exhaustive scan.
/// `None` exactly when every cell of the grid is occupied.
pub fn respawn_position(occupied: &Vec<Position>) -> (r: Option<Position>)
    ensures
        match r {
            Some(p) => in_bounds(p) && !occupied@.contains(p),
            None => forall|p: Position| in_bounds(p) ==> occupied@.contains(p),
        },
{
    let mut tries: u32 = 0;
    while tries < RESPAWN_RETRIES
        decreases RESPAWN_RETRIES - tries,
    {
        let pos = Position {
            x: random_below(WORLD_GRID_WIDTH),
            y: random_below(WORLD_GRID_HEIGHT),
        };
        if !contains_pos(occupied, pos) {
            return Some(pos);
        }
        tries = tries + 1;
    }
    // Every draw was rejected: scan the whole grid for a free cell.
    let mut x: i32 = 0;
    while x < WORLD_GRID_WIDTH
        invariant
            0 <= x <= WORLD_GRID_WIDTH,
            forall|p: Position|
                (0 <= p.x < x && 0 <= p.y < WORLD_GRID_HEIGHT) ==> occupied@.contains(p),
        decreases WORLD_GRID_WIDTH - x,
    {
        let mut y: i32 = 0;
        while y < WORLD_GRID_HEIGHT
            invariant
                0 <= x < WORLD_GRID_WIDTH,
                0 <= y <= WORLD_GRID_HEIGHT,
                forall|p: Position|
                    (0 <= p.x < x && 0 <= p.y < WORLD_GRID_HEIGHT) ==> occupied@.contains(p),
                forall|p: Position| (p.x == x && 0 <= p.y < y) ==> occupied@.contains(p),
            decreases WORLD_GRID_HEIGHT - y,
        {
            let pos = Position { x, y };
            if !contains_pos(occupied, pos) {
                return Some(pos);
            }
            y = y + 1;
        }
        x = x + 1;
    }
    None
}

} // verus!
