//! What stays true of a position from one move to the next.
//!
//! A position is sound if its board is valid, its en-passant target is a
//! square or no square, the king squares are those of the two kings, and a
//! castling right is held only while king and rook stand where they began.

use vstd::prelude::*;
use crate::board::{Piece, PieceType, PieceColour, Move, MoveFlag, NO_SQUARE};
use crate::board::{on_board, rank_of, valid_board};
use crate::apply::{can_apply, board_after_move, en_passant_after_move, kings_after_move, rights_after_move};
use crate::apply::{castling_right, home_corner, en_passant_victim, promotion_piece};
use crate::apply::{pawn_direction, castling_rook_target};
use crate::apply::{lemma_right_held_after_move, lemma_move_keeps_board_valid};
use crate::movegen::{pseudo_legal_moves, generated_move, en_passant_rank};
use crate::movegen::{lemma_pseudo_legal_moves_generated, lemma_castling_generated_only_when_allowed};
use crate::turn::{last_king_square, lemma_last_king_square};

verus! {

/// The square on which the king of `colour` begins the game: e1 for white and
/// e8 for black.
pub open spec fn king_home(colour: PieceColour) -> int {
    if colour == PieceColour::Black {
        4
    } else {
        60
    }
}

/// The king of `colour`.
pub open spec fn king_of_colour(colour: PieceColour) -> Piece {
    Piece { piece_type: PieceType::King, piece_colour: colour }
}

/// The rook of `colour`.
pub open spec fn rook_of_colour(colour: PieceColour) -> Piece {
    Piece { piece_type: PieceType::Rook, piece_colour: colour }
}

/// Whether `kings` holds the squares of the kings: the white king stands on
/// the first square of the pair and nowhere else, the black king on the
/// second and nowhere else. A king that is not on the board has no square.
pub open spec fn kings_tracked(board: Seq<Piece>, kings: (i32, i32)) -> bool {
    forall|sq: int|
        0 <= sq < 64 ==> {
            &&& (#[trigger] board[sq] == king_of_colour(PieceColour::White) <==> sq == kings.0)
            &&& (board[sq] == king_of_colour(PieceColour::Black) <==> sq == kings.1)
        }
}

/// Whether every castling right that is held is held with reason: the king
/// of that side is at home, and so is the rook in that corner.
pub open spec fn rights_sound(board: Seq<Piece>, rights: (bool, bool, bool, bool)) -> bool {
    forall|colour: PieceColour, king_side: bool|
        colour != PieceColour::Empty && #[trigger] castling_right(rights, colour, king_side) ==> {
            &&& board[king_home(colour)] == king_of_colour(colour)
            &&& board[home_corner(colour, king_side)] == rook_of_colour(colour)
        }
}

/// Whether a position is sound.
pub open spec fn sound_position(
    board: Seq<Piece>,
    en_passant: int,
    kings: (i32, i32),
    rights: (bool, bool, bool, bool),
) -> bool {
    &&& valid_board(board)
    &&& en_passant == NO_SQUARE || on_board(en_passant)
    &&& kings_tracked(board, kings)
    &&& rights_sound(board, rights)
}

/// Whether `m` removes a king from the board.
pub open spec fn takes_king(board: Seq<Piece>, m: Move) -> bool {
    ||| board[m.end as int].piece_type == PieceType::King
    ||| m.flag == MoveFlag::EnPassant && board[en_passant_victim(board, m)].piece_type
        == PieceType::King
}

/// Whether `m` is a way of playing the generated move `g`: `g` itself, or a
/// move that leaves the promotion open with the flag of a promotion piece in
/// place of its own.
pub open spec fn plays(g: Move, m: Move) -> bool {
    ||| m == g
    ||| g.flag == MoveFlag::Promotion && promotion_piece(m.flag) is Some && m.start == g.start
        && m.end == g.end
}

/// On a board on which no side has two kings the kings are tracked by the
/// squares that `find_kings` gives.
pub proof fn lemma_found_kings_are_tracked(board: Seq<Piece>)
    requires
        board.len() == 64,
        forall|a: int, b: int|
            0 <= a < 64 && 0 <= b < 64 && board[a].piece_type == PieceType::King && board[b]
                == board[a] ==> a == b,
    ensures
        kings_tracked(
            board,
            (
                last_king_square(board, PieceColour::White, 64) as i32,
                last_king_square(board, PieceColour::Black, 64) as i32,
            ),
        ),
{
    lemma_last_king_square(board, PieceColour::White, 64);
    lemma_last_king_square(board, PieceColour::Black, 64);
}

/// Whether `m` goes the way a move in a sound position goes: it takes a piece
/// to another square of the board; only a pawn is promoted, captures en
/// passant, and then from the rank for it to the en-passant target; only a
/// king castles, from its home, with the right to it and over empty squares.
pub open spec fn regular_move(
    board: Seq<Piece>,
    en_passant: int,
    rights: (bool, bool, bool, bool),
    m: Move,
) -> bool {
    let mover = board[m.start as int];
    &&& on_board(m.start as int)
    &&& on_board(m.end as int)
    &&& m.start != m.end
    &&& mover.piece_colour != PieceColour::Empty
    &&& mover.piece_type != PieceType::Empty
    &&& match m.flag {
        MoveFlag::Normal => true,
        MoveFlag::EnPassant => {
            &&& mover.piece_type == PieceType::Pawn
            &&& en_passant == m.end
            &&& rank_of(m.start as int) == en_passant_rank(mover.piece_colour)
            &&& rank_of(m.end as int) == rank_of(m.start as int) + pawn_direction(
                mover.piece_colour,
            )
        },
        MoveFlag::Castling => {
            &&& mover.piece_type == PieceType::King
            &&& m.start == king_home(mover.piece_colour)
            &&& (m.end == m.start + 2 || m.end == m.start - 2)
            &&& castling_right(rights, mover.piece_colour, m.end > m.start)
            &&& board[castling_rook_target(m)].piece_type == PieceType::Empty
        },
        _ => mover.piece_type == PieceType::Pawn,
    }
}

proof fn lemma_played_move_is_regular(
    board: Seq<Piece>,
    index: int,
    en_passant: int,
    kings: (i32, i32),
    rights: (bool, bool, bool, bool),
    g: Move,
    m: Move,
)
    requires
        sound_position(board, en_passant, kings, rights),
        pseudo_legal_moves(board, index, en_passant, rights, true).contains(g),
        plays(g, m),
    ensures
        regular_move(board, en_passant, rights, m),
        can_apply(board, m, en_passant),
{
    let pseudo = pseudo_legal_moves(board, index, en_passant, rights, true);
    let i = choose|i: int| 0 <= i < pseudo.len() && pseudo[i] == g;
    lemma_pseudo_legal_moves_generated(board, index, en_passant, rights, true);
    assert(generated_move(board, index, en_passant, pseudo[i]));
    lemma_castling_generated_only_when_allowed(board, index, en_passant, rights, true);
    let mover = board[index];
    assert(mover.wf());
    if m.flag == MoveFlag::Castling {
        assert(castling_right(rights, mover.piece_colour, m.end > m.start));
        assert(board[king_home(mover.piece_colour)] == king_of_colour(mover.piece_colour));
        assert(board[index] == king_of_colour(mover.piece_colour));
        assert(board[index] == king_of_colour(PieceColour::White) <==> index == kings.0);
        assert(board[king_home(mover.piece_colour)] == king_of_colour(PieceColour::White)
            <==> king_home(mover.piece_colour) == kings.0);
        assert(board[index] == king_of_colour(PieceColour::Black) <==> index == kings.1);
        assert(board[king_home(mover.piece_colour)] == king_of_colour(PieceColour::Black)
            <==> king_home(mover.piece_colour) == kings.1);
    }
}

proof fn lemma_regular_move_keeps_kings_tracked(
    board: Seq<Piece>,
    en_passant: int,
    kings: (i32, i32),
    rights: (bool, bool, bool, bool),
    m: Move,
)
    requires
        board.len() == 64,
        kings_tracked(board, kings),
        rights_sound(board, rights),
        regular_move(board, en_passant, rights, m),
        !takes_king(board, m),
    ensures
        kings_tracked(board_after_move(board, m), kings_after_move(board, m, kings)),
{
    let after = board_after_move(board, m);
    let kings_after = kings_after_move(board, m, kings);
    let mover = board[m.start as int];
    assert(board[m.start as int] == king_of_colour(PieceColour::White) <==> m.start == kings.0);
    assert(board[m.start as int] == king_of_colour(PieceColour::Black) <==> m.start == kings.1);
    if m.flag == MoveFlag::Castling {
        assert(board[home_corner(mover.piece_colour, m.end > m.start)] == rook_of_colour(
            mover.piece_colour,
        ));
    }
    assert forall|sq: int| 0 <= sq < 64 implies {
        &&& (#[trigger] after[sq] == king_of_colour(PieceColour::White) <==> sq == kings_after.0)
        &&& (after[sq] == king_of_colour(PieceColour::Black) <==> sq == kings_after.1)
    } by {
        assert(board[sq] == king_of_colour(PieceColour::White) <==> sq == kings.0);
        assert(board[sq] == king_of_colour(PieceColour::Black) <==> sq == kings.1);
    }
}

proof fn lemma_regular_move_keeps_rights_sound(
    board: Seq<Piece>,
    en_passant: int,
    rights: (bool, bool, bool, bool),
    m: Move,
)
    requires
        board.len() == 64,
        rights_sound(board, rights),
        regular_move(board, en_passant, rights, m),
        !takes_king(board, m),
    ensures
        rights_sound(board_after_move(board, m), rights_after_move(board, m, rights)),
{
    let after = board_after_move(board, m);
    let rights_after = rights_after_move(board, m, rights);
    let mover = board[m.start as int];
    if m.flag == MoveFlag::Castling {
        assert(board[home_corner(mover.piece_colour, m.end > m.start)] == rook_of_colour(
            mover.piece_colour,
        ));
    }
    assert forall|colour: PieceColour, king_side: bool|
        colour != PieceColour::Empty && #[trigger] castling_right(
            rights_after,
            colour,
            king_side,
        ) implies after[king_home(colour)] == king_of_colour(colour) && after[home_corner(
        colour,
        king_side,
    )] == rook_of_colour(colour) by {
        lemma_right_held_after_move(board, m, rights, colour, king_side);
        assert(castling_right(rights, colour, king_side));
    }
}

/// A sound position stays sound when a generated move is played on it that
/// takes no king. The move is one that `make_move` accepts.
pub proof fn lemma_move_keeps_position_sound(
    board: Seq<Piece>,
    index: int,
    en_passant: int,
    kings: (i32, i32),
    rights: (bool, bool, bool, bool),
    g: Move,
    m: Move,
)
    requires
        sound_position(board, en_passant, kings, rights),
        pseudo_legal_moves(board, index, en_passant, rights, true).contains(g),
        plays(g, m),
        !takes_king(board, m),
    ensures
        can_apply(board, m, en_passant),
        sound_position(
            board_after_move(board, m),
            en_passant_after_move(board, m),
            kings_after_move(board, m, kings),
            rights_after_move(board, m, rights),
        ),
{
    lemma_played_move_is_regular(board, index, en_passant, kings, rights, g, m);
    lemma_move_keeps_board_valid(board, m, en_passant);
    lemma_regular_move_keeps_kings_tracked(board, en_passant, kings, rights, m);
    lemma_regular_move_keeps_rights_sound(board, en_passant, rights, m);
}

} // verus!
