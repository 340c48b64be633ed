//! One turn of a game: the choice of a piece, the choice of one of its moves,
//! and the position after it.

use vstd::prelude::*;
use crate::board::{Piece, PieceType, PieceColour, Move, MoveFlag, NO_SQUARE};
use crate::board::{on_board, opponent_of, opponent};
use crate::apply::{make_move, can_apply, board_after_move, en_passant_after_move, kings_after_move, rights_after_move};
use crate::legal::{legal_move_gen, legal_moves_of};

verus! {

/// What the choice of a square as the piece to move comes to.
pub enum PieceChoice {
    /// The piece belongs to the side to move; these are its legal moves, and
    /// there is at least one.
    Moves(Vec<Move>),
    /// The piece belongs to the side to move and has no legal move.
    NoMoves,
    /// The square holds no piece of the side to move.
    NotYours,
}

/// What the choice of a square as the destination comes to.
#[derive(Debug, Copy, Clone, PartialEq, Eq, Structural)]
pub enum MoveChoice {
    /// The player goes back to the choice of a piece.
    Back,
    /// No move of the piece ends on the square.
    NotAMove,
    /// This move is to be played.
    Play(Move),
    /// This move is to be played once the promotion piece is chosen.
    Promote(Move),
}

/// The highest square below `n` that holds the king of `colour`, and no
/// square if there is none.
pub open spec fn last_king_square(board: Seq<Piece>, colour: PieceColour, n: int) -> int
    decreases n,
{
    if n <= 0 {
        NO_SQUARE as int
    } else if board[n - 1].piece_type == PieceType::King && board[n - 1].piece_colour == colour {
        n - 1
    } else {
        last_king_square(board, colour, n - 1)
    }
}

/// The first of the moves from the `from`-th on that ends on `index`.
pub open spec fn first_move_to(moves: Seq<Move>, index: int, from: int) -> Option<Move>
    decreases moves.len() - from,
{
    if from < 0 || from >= moves.len() {
        None
    } else if moves[from].end == index {
        Some(moves[from])
    } else {
        first_move_to(moves, index, from + 1)
    }
}

/// What the choice of `index` as the destination comes to, for a piece with
/// the moves `moves`.
pub open spec fn move_choice(moves: Seq<Move>, index: int) -> MoveChoice {
    if index == NO_SQUARE {
        MoveChoice::Back
    } else {
        match first_move_to(moves, index, 0) {
            Some(m) => if m.flag == MoveFlag::Promotion {
                MoveChoice::Promote(m)
            } else {
                MoveChoice::Play(m)
            },
            None => MoveChoice::NotAMove,
        }
    }
}

/// The squares of the white and of the black king; -1 for a king that is not
/// on the board. Of several kings of one colour the one on the highest square
/// counts.
pub fn find_kings(board: &Vec<Piece>) -> (king_indexs: (i32, i32))
    requires
        board@.len() == 64,
    ensures
        king_indexs.0 == last_king_square(board@, PieceColour::White, 64),
        king_indexs.1 == last_king_square(board@, PieceColour::Black, 64),
{
    let mut king_indexs: (i32, i32) = (NO_SQUARE, NO_SQUARE);
    let mut index: i32 = 0;
    while index < 64
        invariant
            board@.len() == 64,
            0 <= index <= 64,
            king_indexs.0 == last_king_square(board@, PieceColour::White, index as int),
            king_indexs.1 == last_king_square(board@, PieceColour::Black, index as int),
        decreases 64 - index,
    {
        let piece = board[index as usize];
        if piece.piece_type == PieceType::King {
            match piece.piece_colour {
                PieceColour::White => {
                    king_indexs = (index, king_indexs.1);
                },
                PieceColour::Black => {
                    king_indexs = (king_indexs.0, index);
                },
                PieceColour::Empty => {},
            }
        }
        index = index + 1;
    }
    king_indexs
}

/// The king that `find_kings` reports stands where it is reported, and a king
/// that it does not report is not on the board.
pub proof fn lemma_last_king_square(board: Seq<Piece>, colour: PieceColour, n: int)
    requires
        0 <= n <= board.len(),
    ensures
        ({
            let found = last_king_square(board, colour, n);
            if found == NO_SQUARE {
                forall|sq: int|
                    0 <= sq < n ==> !((#[trigger] board[sq]).piece_type == PieceType::King
                        && board[sq].piece_colour == colour)
            } else {
                &&& 0 <= found < n
                &&& board[found].piece_type == PieceType::King
                &&& board[found].piece_colour == colour
                &&& forall|sq: int|
                    found < sq < n ==> !((#[trigger] board[sq]).piece_type == PieceType::King
                        && board[sq].piece_colour == colour)
            }
        }),
    decreases n,
{
    if n > 0 {
        lemma_last_king_square(board, colour, n - 1);
    }
}

/// Takes `index` as the piece that the side `colours_turn` wants to move. The
/// board is left as it was.
pub fn select_piece(
    board: &mut Vec<Piece>,
    index: i32,
    colours_turn: PieceColour,
    en_passant_move: i32,
    king_indexs: (i32, i32),
    castling_rights: (bool, bool, bool, bool),
) -> (r: PieceChoice)
    requires
        old(board)@.len() == 64,
    ensures
        final(board)@ == old(board)@,
        match r {
            PieceChoice::Moves(piece_moves) => {
                &&& on_board(index as int)
                &&& old(board)@[index as int].piece_colour == colours_turn
                &&& piece_moves@.len() > 0
                &&& piece_moves@ == legal_moves_of(
                    old(board)@,
                    index as int,
                    en_passant_move as int,
                    king_indexs,
                    castling_rights,
                )
            },
            PieceChoice::NoMoves => {
                &&& on_board(index as int)
                &&& old(board)@[index as int].piece_colour == colours_turn
                &&& legal_moves_of(
                    old(board)@,
                    index as int,
                    en_passant_move as int,
                    king_indexs,
                    castling_rights,
                ).len() == 0
            },
            PieceChoice::NotYours => !(on_board(index as int) && old(board)@[index as int].piece_colour
                == colours_turn),
        },
{
    if index < 0 || index > 63 {
        return PieceChoice::NotYours;
    }
    if board[index as usize].piece_colour == colours_turn {
        let piece_moves = legal_move_gen(
            board,
            index,
            en_passant_move,
            king_indexs,
            castling_rights,
        );
        if piece_moves.len() > 0 {
            PieceChoice::Moves(piece_moves)
        } else {
            PieceChoice::NoMoves
        }
    } else {
        PieceChoice::NotYours
    }
}

/// Takes `index` as the square that the chosen piece is to move to, where
/// `piece_moves` are the moves of that piece and -1 stands for going back.
pub fn select_move(piece_moves: &Vec<Move>, index: i32) -> (r: MoveChoice)
    ensures
        r == move_choice(piece_moves@, index as int),
{
    if index == NO_SQUARE {
        return MoveChoice::Back;
    }
    let mut i: usize = 0;
    while i < piece_moves.len()
        invariant
            index != NO_SQUARE,
            0 <= i <= piece_moves@.len(),
            first_move_to(piece_moves@, index as int, 0) == first_move_to(
                piece_moves@,
                index as int,
                i as int,
            ),
        decreases piece_moves@.len() - i,
    {
        let piece_move = piece_moves[i];
        if piece_move.end == index {
            if piece_move.flag == MoveFlag::Promotion {
                return MoveChoice::Promote(piece_move);
            }
            return MoveChoice::Play(piece_move);
        }
        i = i + 1;
    }
    MoveChoice::NotAMove
}

/// The move `piece_move` with the flag of the promotion piece that the player
/// has chosen; nothing if the player has chosen none, which `promo_flag` says
/// by being plain.
pub fn with_promotion(piece_move: Move, promo_flag: MoveFlag) -> (r: Option<Move>)
    ensures
        r == if promo_flag == MoveFlag::Normal {
            None
        } else {
            Some(Move { start: piece_move.start, end: piece_move.end, flag: promo_flag })
        },
{
    if promo_flag == MoveFlag::Normal {
        None
    } else {
        Some(Move { start: piece_move.start, end: piece_move.end, flag: promo_flag })
    }
}

/// Ends the turn of `colours_turn` with `selected_move`: the board, the
/// en-passant target, the side that moves next, the king squares and the
/// castling rights after the move.
pub fn selection_iteration(
    board: Vec<Piece>,
    colours_turn: PieceColour,
    en_passant_move: i32,
    king_indexs: (i32, i32),
    castling_rights: (bool, bool, bool, bool),
    selected_move: Move,
) -> (r: (Vec<Piece>, i32, PieceColour, (i32, i32), (bool, bool, bool, bool)))
    requires
        can_apply(board@, selected_move, en_passant_move as int),
    ensures
        r.0@ == board_after_move(board@, selected_move),
        r.1 == en_passant_after_move(board@, selected_move),
        r.2 == opponent_of(colours_turn),
        r.3 == kings_after_move(board@, selected_move, king_indexs),
        r.4 == rights_after_move(board@, selected_move, castling_rights),
        r.0@.len() == 64,
        r.1 == NO_SQUARE || on_board(r.1 as int),
{
    let mut board = board;
    let next_turn = opponent(colours_turn);
    let (new_board, new_en_passant, new_kings, new_rights) = make_move(
        &mut board,
        selected_move,
        en_passant_move,
        king_indexs,
        castling_rights,
    );
    (new_board, new_en_passant, next_turn, new_kings, new_rights)
}

} // verus!
