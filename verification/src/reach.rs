//! Which squares the sliding and the leaping pieces reach, said without
//! regard to the order in which their moves are listed.

use vstd::prelude::*;
use crate::board::{Piece, PieceColour, Move, MoveFlag};
use crate::board::{on_board, file_of, rank_of, move_to};
use crate::geometry::{direction_step, edge_distance};
use crate::movegen::{ray_moves, sliding_moves, leap_moves, leap_allowed, leap_target};

verus! {

/// The square `k` steps from `from` in direction `d`.
pub open spec fn ray_square(from: int, d: int, k: int) -> int {
    from + k * direction_step(d)
}

/// What one step in direction `d` adds to the file and to the rank of a
/// square.
pub open spec fn direction_delta(d: int) -> (int, int) {
    if d == 0 {
        (0, 1)
    } else if d == 1 {
        (0, -1)
    } else if d == 2 {
        (1, 0)
    } else if d == 3 {
        (-1, 0)
    } else if d == 4 {
        (1, 1)
    } else if d == 5 {
        (-1, -1)
    } else if d == 6 {
        (-1, 1)
    } else {
        (1, -1)
    }
}

/// Whether the squares less than `k` steps from `from` in direction `d` are
/// all empty.
pub open spec fn ray_open(board: Seq<Piece>, from: int, d: int, k: int) -> bool {
    forall|j: int|
        1 <= j < k ==> board[#[trigger] ray_square(from, d, j)].piece_colour == PieceColour::Empty
}

/// Whether the piece on `from` slides `k` steps in direction `d`: the square
/// lies on the board, the squares before it are empty, and it holds no piece
/// of the slider's colour.
pub open spec fn slides_to(board: Seq<Piece>, from: int, d: int, k: int) -> bool {
    &&& 1 <= k <= edge_distance(from, d)
    &&& ray_open(board, from, d, k)
    &&& board[ray_square(from, d, k)].piece_colour != board[from].piece_colour
}

/// The squares up to the edge of the board in a direction lie on the board,
/// on the line that the direction draws through files and ranks.
pub proof fn lemma_ray_square_on_line(from: int, d: int, k: int)
    requires
        on_board(from),
        0 <= d < 8,
        0 <= k <= edge_distance(from, d),
    ensures
        on_board(ray_square(from, d, k)),
        file_of(ray_square(from, d, k)) == file_of(from) + k * direction_delta(d).0,
        rank_of(ray_square(from, d, k)) == rank_of(from) + k * direction_delta(d).1,
        edge_distance(ray_square(from, d, k), d) == edge_distance(from, d) - k,
{
    if d == 0 {
    } else if d == 1 {
    } else if d == 2 {
    } else if d == 3 {
    } else if d == 4 {
    } else if d == 5 {
    } else if d == 6 {
    } else {
    }
}

proof fn lemma_next_ray_square(from: int, d: int, k: int)
    ensures
        ray_square(from, d, k + 1) == ray_square(from, d, k) + direction_step(d),
{
    assert((k + 1) * direction_step(d) == k * direction_step(d) + direction_step(d))
        by (nonlinear_arith);
}

proof fn lemma_ray_moves_from(board: Seq<Piece>, from: int, d: int, c: int)
    requires
        board.len() == 64,
        on_board(from),
        0 <= d < 8,
        0 <= c <= edge_distance(from, d),
        board[from].piece_colour != PieceColour::Empty,
        ray_open(board, from, d, c + 1),
    ensures
        ({
            let ray = ray_moves(
                board,
                from,
                ray_square(from, d, c),
                direction_step(d),
                (edge_distance(from, d) - c) as nat,
            );
            &&& forall|i: int|
                0 <= i < ray.len() ==> #[trigger] ray[i] == move_to(
                    from,
                    ray_square(from, d, c + i + 1),
                    MoveFlag::Normal,
                ) && slides_to(board, from, d, c + i + 1)
            &&& forall|k: int| k > c && #[trigger] slides_to(board, from, d, k) ==> k - c <= ray.len()
        }),
    decreases edge_distance(from, d) - c,
{
    let reach = edge_distance(from, d);
    let ray = ray_moves(
        board,
        from,
        ray_square(from, d, c),
        direction_step(d),
        (reach - c) as nat,
    );
    if c < reach {
        let to = ray_square(from, d, c + 1);
        lemma_next_ray_square(from, d, c);
        lemma_ray_square_on_line(from, d, c + 1);
        if board[to].piece_colour == PieceColour::Empty {
            assert forall|j: int| 1 <= j < c + 2 implies board[#[trigger] ray_square(
                from,
                d,
                j,
            )].piece_colour == PieceColour::Empty by {
                if j == c + 1 {
                } else {
                    assert(board[ray_square(from, d, j)].piece_colour == PieceColour::Empty);
                }
            }
            lemma_ray_moves_from(board, from, d, c + 1);
            let tail = ray_moves(board, from, to, direction_step(d), (reach - c - 1) as nat);
            assert(ray == seq![move_to(from, to, MoveFlag::Normal)] + tail);
            assert forall|i: int| 0 <= i < ray.len() implies #[trigger] ray[i] == move_to(
                from,
                ray_square(from, d, c + i + 1),
                MoveFlag::Normal,
            ) && slides_to(board, from, d, c + i + 1) by {
                if i > 0 {
                    assert(ray[i] == tail[i - 1]);
                }
            }
            assert forall|k: int| k > c && #[trigger] slides_to(board, from, d, k) implies k - c
                <= ray.len() by {
                if k > c + 1 {
                    assert(k - (c + 1) <= tail.len());
                }
            }
        } else {
            assert forall|k: int| k > c && #[trigger] slides_to(board, from, d, k) implies k - c
                <= ray.len() by {
                if k > c + 1 {
                    assert(board[ray_square(from, d, c + 1)].piece_colour == PieceColour::Empty);
                }
            }
        }
    } else {
        assert(ray.len() == 0);
    }
}

/// The moves of a sliding piece along one line are the moves to the squares
/// that it slides to, from the nearest to the farthest.
pub proof fn lemma_ray_moves_are_slides(board: Seq<Piece>, from: int, d: int)
    requires
        board.len() == 64,
        on_board(from),
        0 <= d < 8,
        board[from].piece_colour != PieceColour::Empty,
    ensures
        ({
            let ray = ray_moves(
                board,
                from,
                from,
                direction_step(d),
                edge_distance(from, d) as nat,
            );
            &&& forall|i: int|
                0 <= i < ray.len() ==> #[trigger] ray[i] == move_to(
                    from,
                    ray_square(from, d, i + 1),
                    MoveFlag::Normal,
                ) && slides_to(board, from, d, i + 1)
            &&& forall|k: int| #[trigger] slides_to(board, from, d, k) ==> 1 <= k <= ray.len()
        }),
{
    crate::geometry::lemma_edge_distance_bounds(from, d);
    assert(ray_square(from, d, 0) == from);
    lemma_ray_moves_from(board, from, d, 0);
}

/// A move is among the moves of a sliding piece in the directions from `d` up
/// to `d_end` exactly if it is a plain move to a square that the piece slides
/// to in one of these directions.
pub proof fn lemma_sliding_moves_are_slides(
    board: Seq<Piece>,
    from: int,
    d: int,
    d_end: int,
    m: Move,
)
    requires
        board.len() == 64,
        on_board(from),
        0 <= d,
        d_end <= 8,
        board[from].piece_colour != PieceColour::Empty,
    ensures
        sliding_moves(board, from, d, d_end).contains(m) <==> exists|e: int, k: int|
            d <= e < d_end && #[trigger] slides_to(board, from, e, k) && m == move_to(
                from,
                ray_square(from, e, k),
                MoveFlag::Normal,
            ),
    decreases d_end - d,
{
    let all = sliding_moves(board, from, d, d_end);
    if d < d_end {
        let ray = ray_moves(board, from, from, direction_step(d), edge_distance(from, d) as nat);
        let rest = sliding_moves(board, from, d + 1, d_end);
        lemma_ray_moves_are_slides(board, from, d);
        lemma_sliding_moves_are_slides(board, from, d + 1, d_end, m);
        assert(all == ray + rest);
        if all.contains(m) {
            let i = choose|i: int| 0 <= i < all.len() && all[i] == m;
            if i < ray.len() {
                assert(ray[i] == m);
                assert(slides_to(board, from, d, i + 1));
            } else {
                assert(rest[i - ray.len()] == m);
                assert(rest.contains(m));
                let (e, k) = choose|e: int, k: int|
                    d + 1 <= e < d_end && #[trigger] slides_to(board, from, e, k) && m == move_to(
                        from,
                        ray_square(from, e, k),
                        MoveFlag::Normal,
                    );
                assert(d <= e < d_end && slides_to(board, from, e, k));
            }
        }
        if exists|e: int, k: int|
            d <= e < d_end && #[trigger] slides_to(board, from, e, k) && m == move_to(
                from,
                ray_square(from, e, k),
                MoveFlag::Normal,
            ) {
            let (e, k) = choose|e: int, k: int|
                d <= e < d_end && #[trigger] slides_to(board, from, e, k) && m == move_to(
                    from,
                    ray_square(from, e, k),
                    MoveFlag::Normal,
                );
            if e == d {
                assert(ray[k - 1] == m);
                assert(all[k - 1] == m);
            } else {
                assert(d + 1 <= e < d_end && slides_to(board, from, e, k));
                assert(rest.contains(m));
                let j = choose|j: int| 0 <= j < rest.len() && rest[j] == m;
                assert(all[ray.len() + j] == m);
            }
        }
    }
}

/// A move is among the leaps of a knight or a king exactly if it is a plain
/// move by one of the eight leaps to a square of the board that holds no
/// piece of the leaper's colour.
pub proof fn lemma_leap_moves_are_leaps(board: Seq<Piece>, from: int, king: bool, i: int, m: Move)
    requires
        0 <= i <= 8,
    ensures
        leap_moves(board, from, king, i).contains(m) <==> exists|j: int|
            i <= j < 8 && #[trigger] leap_allowed(board, from, king, j) && m == move_to(
                from,
                leap_target(from, king, j),
                MoveFlag::Normal,
            ),
    decreases 8 - i,
{
    let all = leap_moves(board, from, king, i);
    if i < 8 {
        let rest = leap_moves(board, from, king, i + 1);
        let here = move_to(from, leap_target(from, king, i), MoveFlag::Normal);
        lemma_leap_moves_are_leaps(board, from, king, i + 1, m);
        if all.contains(m) {
            let a = choose|a: int| 0 <= a < all.len() && all[a] == m;
            if leap_allowed(board, from, king, i) && a == 0 {
                assert(m == here);
            } else {
                let b = if leap_allowed(board, from, king, i) {
                    a - 1
                } else {
                    a
                };
                assert(rest[b] == m);
                assert(rest.contains(m));
                let j = choose|j: int|
                    i + 1 <= j < 8 && #[trigger] leap_allowed(board, from, king, j) && m == move_to(
                        from,
                        leap_target(from, king, j),
                        MoveFlag::Normal,
                    );
                assert(i <= j < 8 && leap_allowed(board, from, king, j));
            }
        }
        if exists|j: int|
            i <= j < 8 && #[trigger] leap_allowed(board, from, king, j) && m == move_to(
                from,
                leap_target(from, king, j),
                MoveFlag::Normal,
            ) {
            let j = choose|j: int|
                i <= j < 8 && #[trigger] leap_allowed(board, from, king, j) && m == move_to(
                    from,
                    leap_target(from, king, j),
                    MoveFlag::Normal,
                );
            if j == i {
                assert(all[0] == m);
            } else {
                assert(i + 1 <= j < 8 && leap_allowed(board, from, king, j));
                assert(rest.contains(m));
                let b = choose|b: int| 0 <= b < rest.len() && rest[b] == m;
                if leap_allowed(board, from, king, i) {
                    assert(all[b + 1] == m);
                } else {
                    assert(all[b] == m);
                }
            }
        }
    }
}

} // verus!
