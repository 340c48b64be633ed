//! Pieces, moves and the 64-square board.
//!
//! A square is an index from 0 to 63, counted row by row from the top rank:
//! index 0 is a8, index 7 is h8, index 56 is a1 and index 63 is h1. The value
//! -1 stands for "no square".

use vstd::prelude::*;

verus! {

/// The kind of piece on a square; `Empty` for a square without a piece.
#[derive(Debug, Copy, Clone, PartialEq, Eq, Structural)]
pub enum PieceType {
    Pawn,
    Rook,
    Knight,
    Bishop,
    Queen,
    King,
    Empty,
}

/// The side a piece belongs to; `Empty` for a square without a piece.
#[derive(Debug, Copy, Clone, PartialEq, Eq, Structural)]
pub enum PieceColour {
    White,
    Black,
    Empty,
}

/// The content of one square.
#[derive(Debug, Copy, Clone, PartialEq, Eq, Structural)]
pub struct Piece {
    pub piece_type: PieceType,
    pub piece_colour: PieceColour,
}

/// What makes a move special.
///
/// The generator marks a pawn that reaches its last rank with `Promotion`;
/// the flag that names the new piece replaces it once the choice is known.
#[derive(Debug, Copy, Clone, PartialEq, Eq, Structural)]
pub enum MoveFlag {
    EnPassant,
    Castling,
    Promotion,
    RookPromo,
    KnightPromo,
    BishopPromo,
    QueenPromo,
    Normal,
}

/// A move from one square to another.
#[derive(Debug, Copy, Clone, PartialEq, Eq, Structural)]
pub struct Move {
    pub start: i32,
    pub end: i32,
    pub flag: MoveFlag,
}

/// The value that stands for "no square".
pub const NO_SQUARE: i32 = -1;

impl Piece {
    /// A piece has a colour exactly when it has a kind.
    pub open spec fn wf(self) -> bool {
        (self.piece_type == PieceType::Empty) <==> (self.piece_colour == PieceColour::Empty)
    }
}

/// The content of a square without a piece.
pub open spec fn empty_square() -> Piece {
    Piece { piece_type: PieceType::Empty, piece_colour: PieceColour::Empty }
}

/// The move from `from` to `to` with the given flag.
pub open spec fn move_to(from: int, to: int, flag: MoveFlag) -> Move {
    Move { start: from as i32, end: to as i32, flag }
}

/// The side that plays against `colour`.
pub open spec fn opponent_of(colour: PieceColour) -> PieceColour {
    match colour {
        PieceColour::White => PieceColour::Black,
        PieceColour::Black => PieceColour::White,
        PieceColour::Empty => PieceColour::Empty,
    }
}

/// Whether `sq` is the index of a square.
pub open spec fn on_board(sq: int) -> bool {
    0 <= sq < 64
}

/// The column of a square: 0 for the a-file, 7 for the h-file.
pub open spec fn file_of(sq: int) -> int {
    sq % 8
}

/// The row of a square: 0 for the eighth rank, 7 for the first.
pub open spec fn rank_of(sq: int) -> int {
    sq / 8
}

/// A board has 64 squares, and each of them holds a consistent piece.
pub open spec fn valid_board(board: Seq<Piece>) -> bool {
    &&& board.len() == 64
    &&& forall|sq: int| 0 <= sq < 64 ==> (#[trigger] board[sq]).wf()
}

/// The side that plays against `colour`.
pub fn opponent(colour: PieceColour) -> (r: PieceColour)
    ensures
        r == opponent_of(colour),
{
    match colour {
        PieceColour::White => PieceColour::Black,
        PieceColour::Black => PieceColour::White,
        PieceColour::Empty => PieceColour::Empty,
    }
}

} // verus!
