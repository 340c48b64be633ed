//! What the moves of a side depend on: the pieces of that side, and for every
//! other square only the colour of what stands on it.

use vstd::prelude::*;
use crate::board::{Piece, PieceColour, Move, MoveFlag};
use crate::board::{on_board, opponent_of};
use crate::geometry::{direction_step, edge_distance, lemma_step_stays_on_board, lemma_edge_distance_bounds};
use crate::apply::{board_after_move, promotion_piece};
use crate::movegen::{ray_moves, sliding_moves, leap_moves, pawn_pushes, pawn_captures, piece_moves};
use crate::movegen::{side_moves_from, side_moves, attacked_by};
use crate::legal::keeps_king_safe;

verus! {

/// Whether two boards look the same to the side `colour`: every square holds
/// a piece of the same colour on both, and the pieces of `colour` are the
/// same on both.
pub open spec fn same_for_side(first: Seq<Piece>, second: Seq<Piece>, colour: PieceColour) -> bool {
    &&& first.len() == 64
    &&& second.len() == 64
    &&& forall|sq: int|
        0 <= sq < 64 ==> (#[trigger] first[sq]).piece_colour == second[sq].piece_colour
    &&& forall|sq: int|
        0 <= sq < 64 && (#[trigger] first[sq]).piece_colour == colour ==> first[sq] == second[sq]
}

proof fn lemma_ray_moves_same(
    first: Seq<Piece>,
    second: Seq<Piece>,
    colour: PieceColour,
    from: int,
    cur: int,
    d: int,
    remaining: nat,
)
    requires
        same_for_side(first, second, colour),
        on_board(from),
        on_board(cur),
        0 <= d < 8,
        remaining <= edge_distance(cur, d),
    ensures
        ray_moves(first, from, cur, direction_step(d), remaining) == ray_moves(
            second,
            from,
            cur,
            direction_step(d),
            remaining,
        ),
    decreases remaining,
{
    if remaining > 0 {
        let to = cur + direction_step(d);
        lemma_step_stays_on_board(cur, d);
        assert(first[to].piece_colour == second[to].piece_colour);
        assert(first[from].piece_colour == second[from].piece_colour);
        lemma_ray_moves_same(first, second, colour, from, to, d, (remaining - 1) as nat);
    }
}

proof fn lemma_sliding_moves_same(
    first: Seq<Piece>,
    second: Seq<Piece>,
    colour: PieceColour,
    from: int,
    d: int,
    d_end: int,
)
    requires
        same_for_side(first, second, colour),
        on_board(from),
        0 <= d,
        d_end <= 8,
    ensures
        sliding_moves(first, from, d, d_end) == sliding_moves(second, from, d, d_end),
    decreases d_end - d,
{
    if d < d_end {
        lemma_edge_distance_bounds(from, d);
        lemma_ray_moves_same(first, second, colour, from, from, d, edge_distance(from, d) as nat);
        lemma_sliding_moves_same(first, second, colour, from, d + 1, d_end);
    }
}

proof fn lemma_leap_moves_same(
    first: Seq<Piece>,
    second: Seq<Piece>,
    colour: PieceColour,
    from: int,
    king: bool,
    i: int,
)
    requires
        same_for_side(first, second, colour),
        on_board(from),
        0 <= i,
    ensures
        leap_moves(first, from, king, i) == leap_moves(second, from, king, i),
    decreases 8 - i,
{
    if i < 8 {
        assert(first[from].piece_colour == second[from].piece_colour);
        lemma_leap_moves_same(first, second, colour, from, king, i + 1);
    }
}

/// The piece of `colour` on `from` has the same moves on two boards that look
/// the same to its side.
pub proof fn lemma_piece_moves_same(
    first: Seq<Piece>,
    second: Seq<Piece>,
    colour: PieceColour,
    from: int,
    en_passant: int,
)
    requires
        same_for_side(first, second, colour),
        on_board(from),
        first[from].piece_colour == colour,
    ensures
        piece_moves(first, from, en_passant) == piece_moves(second, from, en_passant),
{
    let kind = first[from].piece_type;
    assert(first[from] == second[from]);
    lemma_sliding_moves_same(
        first,
        second,
        colour,
        from,
        crate::movegen::first_direction(kind),
        crate::movegen::last_direction(kind),
    );
    lemma_leap_moves_same(first, second, colour, from, false, 0);
    lemma_leap_moves_same(first, second, colour, from, true, 0);
    assert(pawn_pushes(first, from) == pawn_pushes(second, from));
    assert(pawn_captures(first, from, en_passant, -1) == pawn_captures(
        second,
        from,
        en_passant,
        -1,
    ));
    assert(pawn_captures(first, from, en_passant, 1) == pawn_captures(
        second,
        from,
        en_passant,
        1,
    ));
}

proof fn lemma_side_moves_from_same(
    first: Seq<Piece>,
    second: Seq<Piece>,
    colour: PieceColour,
    en_passant: int,
    sq: int,
)
    requires
        same_for_side(first, second, colour),
        0 <= sq,
    ensures
        side_moves_from(first, en_passant, colour, sq) == side_moves_from(
            second,
            en_passant,
            colour,
            sq,
        ),
    decreases 64 - sq,
{
    if sq < 64 {
        assert(first[sq].piece_colour == second[sq].piece_colour);
        if first[sq].piece_colour == colour {
            lemma_piece_moves_same(first, second, colour, sq, en_passant);
        }
        lemma_side_moves_from_same(first, second, colour, en_passant, sq + 1);
    }
}

/// A side has the same moves, and so reaches the same squares, on two boards
/// that look the same to it.
pub proof fn lemma_side_moves_same(
    first: Seq<Piece>,
    second: Seq<Piece>,
    colour: PieceColour,
    en_passant: int,
)
    requires
        same_for_side(first, second, colour),
    ensures
        side_moves(first, en_passant, colour) == side_moves(second, en_passant, colour),
        forall|sq: int|
            attacked_by(first, en_passant, colour, sq) == attacked_by(
                second,
                en_passant,
                colour,
                sq,
            ),
{
    lemma_side_moves_from_same(first, second, colour, en_passant, 0);
}

/// A promotion that keeps the mover's king safe keeps it safe whichever piece
/// is chosen: if the move `m`, with the flag that leaves the choice open, is
/// safe, then so is `m` with the flag `flag` of a promotion piece.
pub proof fn lemma_promotion_choice_keeps_king_safe(
    board: Seq<Piece>,
    kings: (i32, i32),
    m: Move,
    flag: MoveFlag,
)
    requires
        board.len() == 64,
        on_board(m.start as int),
        on_board(m.end as int),
        m.start != m.end,
        m.flag == MoveFlag::Promotion,
        promotion_piece(flag) is Some,
        board[m.start as int].piece_colour != PieceColour::Empty,
        keeps_king_safe(board, kings, m),
    ensures
        keeps_king_safe(board, kings, Move { start: m.start, end: m.end, flag }),
{
    let chosen = Move { start: m.start, end: m.end, flag };
    let mover = board[m.start as int].piece_colour;
    let open = board_after_move(board, m);
    let closed = board_after_move(board, chosen);
    assert(same_for_side(open, closed, opponent_of(mover))) by {
        assert forall|sq: int| 0 <= sq < 64 implies (#[trigger] open[sq]).piece_colour
            == closed[sq].piece_colour by {}
        assert forall|sq: int|
            0 <= sq < 64 && (#[trigger] open[sq]).piece_colour == opponent_of(
                mover,
            ) implies open[sq] == closed[sq] by {}
    }
    lemma_side_moves_same(
        open,
        closed,
        opponent_of(mover),
        crate::apply::en_passant_after_move(board, m),
    );
}

} // verus!
