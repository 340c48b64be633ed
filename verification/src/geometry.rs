//! The eight directions in which a piece slides, and how far each of them
//! runs from a square before it leaves the board.
//!
//! Directions are numbered 0 to 7: south, north, east, west, south-east,
//! north-west, south-west, north-east. South is towards the first rank, that is
//! towards higher indices.

use vstd::prelude::*;
use crate::board::{on_board, file_of, rank_of};

verus! {

/// The smaller of two integers.
pub open spec fn min_of(a: int, b: int) -> int {
    if a <= b {
        a
    } else {
        b
    }
}

/// What one step in direction `d` adds to a square's index.
pub open spec fn direction_step(d: int) -> int {
    if d == 0 {
        8
    } else if d == 1 {
        -8
    } else if d == 2 {
        1
    } else if d == 3 {
        -1
    } else if d == 4 {
        9
    } else if d == 5 {
        -9
    } else if d == 6 {
        7
    } else {
        -7
    }
}

/// The number of squares between `sq` and the edge of the board in direction `d`.
pub open spec fn edge_distance(sq: int, d: int) -> int {
    let south = 7 - rank_of(sq);
    let north = rank_of(sq);
    let east = 7 - file_of(sq);
    let west = file_of(sq);
    if d == 0 {
        south
    } else if d == 1 {
        north
    } else if d == 2 {
        east
    } else if d == 3 {
        west
    } else if d == 4 {
        min_of(south, east)
    } else if d == 5 {
        min_of(north, west)
    } else if d == 6 {
        min_of(south, west)
    } else {
        min_of(north, east)
    }
}

/// A step in a direction that has not reached the edge stays on the board and
/// comes one square closer to that edge.
pub proof fn lemma_step_stays_on_board(sq: int, d: int)
    requires
        on_board(sq),
        0 <= d < 8,
        edge_distance(sq, d) > 0,
    ensures
        on_board(sq + direction_step(d)),
        edge_distance(sq + direction_step(d), d) == edge_distance(sq, d) - 1,
{
}

/// From a square of the board no direction has a negative distance, and none
/// is longer than seven squares.
pub proof fn lemma_edge_distance_bounds(sq: int, d: int)
    requires
        on_board(sq),
        0 <= d < 8,
    ensures
        0 <= edge_distance(sq, d) <= 7,
{
}

fn smaller(a: i32, b: i32) -> (r: i32)
    ensures
        r == min_of(a as int, b as int),
{
    if a <= b {
        a
    } else {
        b
    }
}

/// The distance from `index` to the edge of the board in each of the eight
/// directions.
pub fn dist_to_edge(index: i32) -> (r: [i32; 8])
    requires
        on_board(index as int),
    ensures
        forall|d: int| 0 <= d < 8 ==> #[trigger] r[d] == edge_distance(index as int, d),
{
    let file: i32 = index % 8;
    let rank: i32 = index / 8;
    let south: i32 = 7 - rank;
    let north: i32 = rank;
    let east: i32 = 7 - file;
    let west: i32 = file;
    let south_east: i32 = smaller(south, east);
    let north_west: i32 = smaller(north, west);
    let south_west: i32 = smaller(south, west);
    let north_east: i32 = smaller(north, east);
    [south, north, east, west, south_east, north_west, south_west, north_east]
}

} // verus!
