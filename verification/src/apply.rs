//! Applying a move to a position.
//!
//! A position is a board together with the square a pawn has just skipped
//! (the en-passant target), the squares of the two kings, and the four castling
//! rights in the order white king side, white queen side, black king side,
//! black queen side. The king squares are a pair, the white king's first.

use vstd::prelude::*;
use crate::board::{Piece, PieceType, PieceColour, Move, MoveFlag, NO_SQUARE};
use crate::board::{on_board, rank_of, empty_square, valid_board};

verus! {

/// What a pawn's single step adds to its rank: white pawns move towards the
/// eighth rank, black pawns towards the first.
pub open spec fn pawn_direction(colour: PieceColour) -> int {
    if colour == PieceColour::Black {
        1
    } else {
        -1
    }
}

/// The rank on which the pawns of a side begin the game.
pub open spec fn pawn_start_rank(colour: PieceColour) -> int {
    if colour == PieceColour::Black {
        1
    } else {
        6
    }
}

/// The kind of piece that a promotion flag names.
pub open spec fn promotion_piece(flag: MoveFlag) -> Option<PieceType> {
    match flag {
        MoveFlag::RookPromo => Some(PieceType::Rook),
        MoveFlag::KnightPromo => Some(PieceType::Knight),
        MoveFlag::BishopPromo => Some(PieceType::Bishop),
        MoveFlag::QueenPromo => Some(PieceType::Queen),
        _ => None,
    }
}

/// The corner from which the rook comes when the king castles with `m`: the
/// a-file corner of the king's rank when the king moves towards lower
/// indices, the h-file corner otherwise.
pub open spec fn castling_rook_home(m: Move) -> int {
    if m.start > m.end {
        (m.start / 8) * 8
    } else {
        (m.start / 8) * 8 + 7
    }
}

/// The square next to the king's destination that the rook lands on, on the
/// side the king came from.
pub open spec fn castling_rook_target(m: Move) -> int {
    if m.start > m.end {
        m.end + 1
    } else {
        m.end - 1
    }
}

/// Whether `m` moves a pawn two squares forward from its starting rank.
pub open spec fn is_double_push(board: Seq<Piece>, m: Move) -> bool {
    let mover = board[m.start as int];
    &&& mover.piece_type == PieceType::Pawn
    &&& rank_of(m.start as int) == pawn_start_rank(mover.piece_colour)
    &&& m.start + 16 * pawn_direction(mover.piece_colour) == m.end
}

/// The square of the pawn that an en-passant capture removes: one rank behind
/// the destination, seen from the capturing side.
pub open spec fn en_passant_victim(board: Seq<Piece>, m: Move) -> int {
    m.end - 8 * pawn_direction(board[m.start as int].piece_colour)
}

/// The moves that `make_move` accepts: both squares lie on the board, an
/// en-passant capture lands on the en-passant target and removes a pawn from a
/// square of the board, and a castling move has a square for the rook.
pub open spec fn can_apply(board: Seq<Piece>, m: Move, en_passant: int) -> bool {
    &&& board.len() == 64
    &&& on_board(m.start as int)
    &&& on_board(m.end as int)
    &&& m.flag == MoveFlag::EnPassant ==> en_passant == m.end && on_board(
        en_passant_victim(board, m),
    )
    &&& m.flag == MoveFlag::Castling ==> on_board(castling_rook_target(m))
}

/// The board after `m`: the moving piece stands on the destination and has
/// left its square; an en-passant capture has removed the passed pawn; a
/// promotion has put the chosen piece in place of the pawn; castling has
/// brought the rook from its corner to the king's other side.
pub open spec fn board_after_move(board: Seq<Piece>, m: Move) -> Seq<Piece> {
    let mover = board[m.start as int];
    let moved = board.update(m.end as int, mover).update(m.start as int, empty_square());
    let captured = if m.flag == MoveFlag::EnPassant {
        moved.update(en_passant_victim(board, m), empty_square())
    } else {
        moved
    };
    let promoted = match promotion_piece(m.flag) {
        Some(kind) => captured.update(
            m.end as int,
            Piece { piece_type: kind, piece_colour: mover.piece_colour },
        ),
        None => captured,
    };
    if m.flag == MoveFlag::Castling {
        promoted.update(castling_rook_target(m), promoted[castling_rook_home(m)]).update(
            castling_rook_home(m),
            empty_square(),
        )
    } else {
        promoted
    }
}

/// The en-passant target after `m`: the square that a pawn's double push has
/// skipped, and no square after any other move.
pub open spec fn en_passant_after_move(board: Seq<Piece>, m: Move) -> int {
    if is_double_push(board, m) {
        m.end - 8 * pawn_direction(board[m.start as int].piece_colour)
    } else {
        NO_SQUARE as int
    }
}

/// The king squares after `m`: a king that moves is found on the destination.
pub open spec fn kings_after_move(board: Seq<Piece>, m: Move, kings: (i32, i32)) -> (i32, i32) {
    let mover = board[m.start as int];
    if mover.piece_type == PieceType::King {
        match mover.piece_colour {
            PieceColour::White => (m.end, kings.1),
            PieceColour::Black => (kings.0, m.end),
            PieceColour::Empty => kings,
        }
    } else {
        kings
    }
}

/// The rights that are left when a side loses both of its own.
pub open spec fn without_side(rights: (bool, bool, bool, bool), colour: PieceColour) -> (
    bool,
    bool,
    bool,
    bool,
) {
    match colour {
        PieceColour::White => (false, false, rights.2, rights.3),
        PieceColour::Black => (rights.0, rights.1, false, false),
        PieceColour::Empty => rights,
    }
}

/// The rights that are left when the rook of `colour` is no longer at home on
/// `sq`: h1 and a1 carry white's king-side and queen-side right, h8 and a8
/// black's. Any other square carries none.
pub open spec fn without_corner(rights: (bool, bool, bool, bool), colour: PieceColour, sq: int) -> (
    bool,
    bool,
    bool,
    bool,
) {
    if colour == PieceColour::White && sq == 63 {
        (false, rights.1, rights.2, rights.3)
    } else if colour == PieceColour::White && sq == 56 {
        (rights.0, false, rights.2, rights.3)
    } else if colour == PieceColour::Black && sq == 7 {
        (rights.0, rights.1, false, rights.3)
    } else if colour == PieceColour::Black && sq == 0 {
        (rights.0, rights.1, rights.2, false)
    } else {
        rights
    }
}

/// The castling rights after `m`: a king that moves takes both rights of its
/// side with it, a rook that leaves its corner takes that corner's right, and
/// so does a rook that is captured in its corner.
pub open spec fn rights_after_move(board: Seq<Piece>, m: Move, rights: (bool, bool, bool, bool)) -> (
    bool,
    bool,
    bool,
    bool,
) {
    let mover = board[m.start as int];
    let taken = board[m.end as int];
    let after_leaving = match mover.piece_type {
        PieceType::King => without_side(rights, mover.piece_colour),
        PieceType::Rook => without_corner(rights, mover.piece_colour, m.start as int),
        _ => rights,
    };
    if taken.piece_type == PieceType::Rook {
        without_corner(after_leaving, taken.piece_colour, m.end as int)
    } else {
        after_leaving
    }
}

/// The castling right of `colour` towards the king side or the queen side.
pub open spec fn castling_right(rights: (bool, bool, bool, bool), colour: PieceColour, king_side: bool) -> bool {
    match colour {
        PieceColour::White => if king_side {
            rights.0
        } else {
            rights.1
        },
        PieceColour::Black => if king_side {
            rights.2
        } else {
            rights.3
        },
        PieceColour::Empty => false,
    }
}

/// The corner on which the rook of `colour` begins the game, on the king side
/// or on the queen side: h1 and a1 for white, h8 and a8 for black.
pub open spec fn home_corner(colour: PieceColour, king_side: bool) -> int {
    if colour == PieceColour::Black {
        if king_side {
            7
        } else {
            0
        }
    } else {
        if king_side {
            63
        } else {
            56
        }
    }
}

/// The en-passant target lasts for one move: whatever was played before, a
/// move that is not a pawn's double push from its starting rank leaves no
/// target, and a double push leaves the square between its two ends, which
/// lies on the board.
pub proof fn lemma_en_passant_target_lasts_one_move(board: Seq<Piece>, previous: Move, m: Move)
    requires
        board.len() == 64,
        on_board(m.start as int),
        on_board(m.end as int),
    ensures
        !is_double_push(board_after_move(board, previous), m) ==> en_passant_after_move(
            board_after_move(board, previous),
            m,
        ) == NO_SQUARE,
        !is_double_push(board, m) ==> en_passant_after_move(board, m) == NO_SQUARE,
        is_double_push(board, m) ==> {
            &&& 2 * en_passant_after_move(board, m) == m.start + m.end
            &&& on_board(en_passant_after_move(board, m))
            &&& en_passant_after_move(board, m) != NO_SQUARE
        },
{
}

/// A move without a special flag, or with the promotion left open, takes the
/// piece to the destination, leaves the square it came from empty, and
/// leaves every other square as it was.
pub proof fn lemma_plain_move_relocates_piece(board: Seq<Piece>, m: Move)
    requires
        board.len() == 64,
        on_board(m.start as int),
        on_board(m.end as int),
        m.start != m.end,
        m.flag == MoveFlag::Normal || m.flag == MoveFlag::Promotion,
    ensures
        board_after_move(board, m).len() == 64,
        board_after_move(board, m)[m.end as int] == board[m.start as int],
        board_after_move(board, m)[m.start as int] == empty_square(),
        forall|sq: int|
            0 <= sq < 64 && sq != m.start && sq != m.end ==> #[trigger] board_after_move(
                board,
                m,
            )[sq] == board[sq],
{
}

/// A capture en passant takes the pawn to the destination and removes the
/// piece one rank behind the destination, on the rank the pawn came from. The
/// square the pawn came from is left empty, and every other square is left
/// as it was.
pub proof fn lemma_en_passant_removes_passed_pawn(board: Seq<Piece>, m: Move, en_passant: int)
    requires
        can_apply(board, m, en_passant),
        m.flag == MoveFlag::EnPassant,
        rank_of(m.end as int) == rank_of(m.start as int) + pawn_direction(
            board[m.start as int].piece_colour,
        ),
    ensures
        board_after_move(board, m).len() == 64,
        rank_of(en_passant_victim(board, m)) == rank_of(m.start as int),
        en_passant_victim(board, m) % 8 == m.end % 8,
        board_after_move(board, m)[m.end as int] == board[m.start as int],
        board_after_move(board, m)[m.start as int] == empty_square(),
        board_after_move(board, m)[en_passant_victim(board, m)] == empty_square(),
        forall|sq: int|
            0 <= sq < 64 && sq != m.start && sq != m.end && sq != en_passant_victim(board, m)
                ==> #[trigger] board_after_move(board, m)[sq] == board[sq],
{
}

/// Castling takes a king from the e-file two squares towards a corner of its
/// rank and brings the piece in that corner to the square that the king has
/// passed. The squares that king and rook came from are left empty, and every
/// other square is left as it was.
pub proof fn lemma_castling_relocates_king_and_rook(board: Seq<Piece>, m: Move)
    requires
        board.len() == 64,
        on_board(m.start as int),
        m.start % 8 == 4,
        m.end == m.start + 2 || m.end == m.start - 2,
        m.flag == MoveFlag::Castling,
    ensures
        board_after_move(board, m).len() == 64,
        castling_rook_home(m) == (if m.end > m.start {
            m.start + 3
        } else {
            m.start - 4
        }),
        2 * castling_rook_target(m) == m.start + m.end,
        board_after_move(board, m)[m.end as int] == board[m.start as int],
        board_after_move(board, m)[castling_rook_target(m)] == board[castling_rook_home(m)],
        board_after_move(board, m)[m.start as int] == empty_square(),
        board_after_move(board, m)[castling_rook_home(m)] == empty_square(),
        forall|sq: int|
            0 <= sq < 64 && sq != m.start && sq != m.end && sq != castling_rook_home(m) && sq
                != castling_rook_target(m) ==> #[trigger] board_after_move(board, m)[sq]
                == board[sq],
{
}

/// A move that carries the flag of a promotion piece leaves a piece of that
/// kind and of the mover's colour on the destination, leaves the square it
/// came from empty, and leaves every other square as it was.
pub proof fn lemma_promotion_places_chosen_piece(board: Seq<Piece>, m: Move)
    requires
        board.len() == 64,
        on_board(m.start as int),
        on_board(m.end as int),
        m.start != m.end,
        promotion_piece(m.flag) is Some,
    ensures
        board_after_move(board, m).len() == 64,
        board_after_move(board, m)[m.end as int] == (Piece {
            piece_type: promotion_piece(m.flag)->0,
            piece_colour: board[m.start as int].piece_colour,
        }),
        board_after_move(board, m)[m.start as int] == empty_square(),
        forall|sq: int|
            0 <= sq < 64 && sq != m.start && sq != m.end ==> #[trigger] board_after_move(
                board,
                m,
            )[sq] == board[sq],
        promotion_piece(m.flag)->0 == PieceType::Rook || promotion_piece(m.flag)->0
            == PieceType::Knight || promotion_piece(m.flag)->0 == PieceType::Bishop
            || promotion_piece(m.flag)->0 == PieceType::Queen,
{
}

/// A move of a piece leaves a valid board valid.
pub proof fn lemma_move_keeps_board_valid(board: Seq<Piece>, m: Move, en_passant: int)
    requires
        valid_board(board),
        can_apply(board, m, en_passant),
        board[m.start as int].piece_colour != PieceColour::Empty,
    ensures
        valid_board(board_after_move(board, m)),
{
    let after = board_after_move(board, m);
    assert forall|sq: int| 0 <= sq < 64 implies (#[trigger] after[sq]).wf() by {
        assert(board[sq].wf());
        assert(board[m.start as int].wf());
        assert(board[castling_rook_home(m)].wf());
    }
}

/// Every square that a move does not name is left as it was: a move changes
/// at most the two squares it names, the square of the pawn that is captured
/// en passant, and the two squares of the rook that castles.
pub proof fn lemma_move_leaves_other_squares(board: Seq<Piece>, m: Move, en_passant: int, sq: int)
    requires
        can_apply(board, m, en_passant),
        0 <= sq < 64,
        sq != m.start,
        sq != m.end,
        m.flag == MoveFlag::EnPassant ==> sq != en_passant_victim(board, m),
        m.flag == MoveFlag::Castling ==> sq != castling_rook_home(m) && sq != castling_rook_target(
            m,
        ),
    ensures
        board_after_move(board, m).len() == 64,
        board_after_move(board, m)[sq] == board[sq],
{
}

/// A castling right is held after a move exactly if it was held before, and
/// the move neither moves the king of that side, nor moves the rook of that
/// side away from that corner, nor captures the rook of that side on that
/// corner.
pub proof fn lemma_right_held_after_move(
    board: Seq<Piece>,
    m: Move,
    rights: (bool, bool, bool, bool),
    colour: PieceColour,
    king_side: bool,
)
    requires
        colour != PieceColour::Empty,
    ensures
        castling_right(rights_after_move(board, m, rights), colour, king_side) <==> {
            &&& castling_right(rights, colour, king_side)
            &&& board[m.start as int] != (Piece {
                piece_type: PieceType::King,
                piece_colour: colour,
            })
            &&& !(board[m.start as int] == (Piece {
                piece_type: PieceType::Rook,
                piece_colour: colour,
            }) && m.start == home_corner(colour, king_side))
            &&& !(board[m.end as int] == (Piece {
                piece_type: PieceType::Rook,
                piece_colour: colour,
            }) && m.end == home_corner(colour, king_side))
        },
{
}

/// A rook that moves away from its home corner takes that corner's right with
/// it. Each of the other three rights stays as it was, but for the right of a
/// corner on which the move captures the rook that is at home there.
pub proof fn lemma_rook_leaving_corner_loses_right(
    board: Seq<Piece>,
    m: Move,
    rights: (bool, bool, bool, bool),
    colour: PieceColour,
    king_side: bool,
)
    requires
        colour != PieceColour::Empty,
        board[m.start as int] == (Piece { piece_type: PieceType::Rook, piece_colour: colour }),
        m.start == home_corner(colour, king_side),
    ensures
        !castling_right(rights_after_move(board, m, rights), colour, king_side),
        forall|other: PieceColour, other_side: bool|
            #![trigger castling_right(rights_after_move(board, m, rights), other, other_side)]
            other != PieceColour::Empty && (other != colour || other_side != king_side) && !(
            board[m.end as int] == (Piece { piece_type: PieceType::Rook, piece_colour: other })
                && m.end == home_corner(other, other_side)) ==> castling_right(
                rights_after_move(board, m, rights),
                other,
                other_side,
            ) == castling_right(rights, other, other_side),
{
}

/// A move that captures a rook on that rook's home corner takes that corner's
/// right away, whether or not the rook has moved before.
pub proof fn lemma_rook_captured_at_home_loses_right(
    board: Seq<Piece>,
    m: Move,
    rights: (bool, bool, bool, bool),
    colour: PieceColour,
    king_side: bool,
)
    requires
        colour != PieceColour::Empty,
        board[m.end as int] == (Piece { piece_type: PieceType::Rook, piece_colour: colour }),
        m.end == home_corner(colour, king_side),
    ensures
        !castling_right(rights_after_move(board, m, rights), colour, king_side),
{
}

fn drop_corner(rights: (bool, bool, bool, bool), colour: PieceColour, sq: i32) -> (r: (
    bool,
    bool,
    bool,
    bool,
))
    ensures
        r == without_corner(rights, colour, sq as int),
{
    match colour {
        PieceColour::White => {
            if sq == 63 {
                (false, rights.1, rights.2, rights.3)
            } else if sq == 56 {
                (rights.0, false, rights.2, rights.3)
            } else {
                rights
            }
        },
        PieceColour::Black => {
            if sq == 7 {
                (rights.0, rights.1, false, rights.3)
            } else if sq == 0 {
                (rights.0, rights.1, rights.2, false)
            } else {
                rights
            }
        },
        PieceColour::Empty => rights,
    }
}

/// Whether `make_move` accepts `piece_move` on `board` with the en-passant
/// target `en_passant_move`.
pub fn can_make_move(board: &Vec<Piece>, piece_move: Move, en_passant_move: i32) -> (r: bool)
    ensures
        r == can_apply(board@, piece_move, en_passant_move as int),
{
    if board.len() != 64 || piece_move.start < 0 || piece_move.start > 63 || piece_move.end < 0
        || piece_move.end > 63 {
        return false;
    }
    match piece_move.flag {
        MoveFlag::EnPassant => {
            let behind: i32 = if board[piece_move.start as usize].piece_colour
                == PieceColour::Black {
                piece_move.end - 8
            } else {
                piece_move.end + 8
            };
            en_passant_move == piece_move.end && 0 <= behind && behind <= 63
        },
        MoveFlag::Castling => piece_move.start > piece_move.end || piece_move.end >= 1,
        _ => true,
    }
}

/// Plays `piece_move` on `board` and returns the new position: a copy of the
/// board, the en-passant target, the king squares and the castling rights.
pub fn make_move(
    board: &mut Vec<Piece>,
    piece_move: Move,
    en_passant_move: i32,
    king_indexs: (i32, i32),
    castling_rights: (bool, bool, bool, bool),
) -> (r: (Vec<Piece>, i32, (i32, i32), (bool, bool, bool, bool)))
    requires
        can_apply(old(board)@, piece_move, en_passant_move as int),
    ensures
        final(board)@ == board_after_move(old(board)@, piece_move),
        r.0@ == final(board)@,
        r.1 == en_passant_after_move(old(board)@, piece_move),
        r.2 == kings_after_move(old(board)@, piece_move, king_indexs),
        r.3 == rights_after_move(old(board)@, piece_move, castling_rights),
        final(board)@.len() == 64,
        r.1 == NO_SQUARE || on_board(r.1 as int),
{
    let empty = Piece { piece_type: PieceType::Empty, piece_colour: PieceColour::Empty };
    let start_piece = board[piece_move.start as usize];
    let capture_piece = board[piece_move.end as usize];
    let mut new_en_passant: i32 = NO_SQUARE;
    let mut new_kings = king_indexs;
    let mut new_rights = castling_rights;

    board[piece_move.end as usize] = start_piece;
    board[piece_move.start as usize] = empty;

    let mut pawn_dir: i32 = -1;
    let mut pawn_start: i32 = 6;
    if start_piece.piece_colour == PieceColour::Black {
        pawn_dir = 1;
        pawn_start = 1;
    }

    if piece_move.flag == MoveFlag::EnPassant {
        board[(piece_move.end - 8 * pawn_dir) as usize] = empty;
    }

    if start_piece.piece_type == PieceType::Pawn && piece_move.start / 8 == pawn_start
        && piece_move.start + 16 * pawn_dir == piece_move.end {
        new_en_passant = piece_move.end - 8 * pawn_dir;
    }

    match piece_move.flag {
        MoveFlag::RookPromo => {
            board[piece_move.end as usize] =
            Piece { piece_type: PieceType::Rook, piece_colour: start_piece.piece_colour };
        },
        MoveFlag::KnightPromo => {
            board[piece_move.end as usize] =
            Piece { piece_type: PieceType::Knight, piece_colour: start_piece.piece_colour };
        },
        MoveFlag::BishopPromo => {
            board[piece_move.end as usize] =
            Piece { piece_type: PieceType::Bishop, piece_colour: start_piece.piece_colour };
        },
        MoveFlag::QueenPromo => {
            board[piece_move.end as usize] =
            Piece { piece_type: PieceType::Queen, piece_colour: start_piece.piece_colour };
        },
        _ => {},
    }

    match start_piece.piece_type {
        PieceType::King => {
            match start_piece.piece_colour {
                PieceColour::White => {
                    new_kings = (piece_move.end, king_indexs.1);
                    new_rights = (false, false, castling_rights.2, castling_rights.3);
                },
                PieceColour::Black => {
                    new_kings = (king_indexs.0, piece_move.end);
                    new_rights = (castling_rights.0, castling_rights.1, false, false);
                },
                PieceColour::Empty => {},
            }
        },
        PieceType::Rook => {
            new_rights = drop_corner(new_rights, start_piece.piece_colour, piece_move.start);
        },
        _ => {},
    }

    if capture_piece.piece_type == PieceType::Rook {
        new_rights = drop_corner(new_rights, capture_piece.piece_colour, piece_move.end);
    }

    if piece_move.flag == MoveFlag::Castling {
        if piece_move.start > piece_move.end {
            let rook_index: i32 = (piece_move.start / 8) * 8;
            let rook = board[rook_index as usize];
            board[(piece_move.end + 1) as usize] = rook;
            board[rook_index as usize] = empty;
        } else {
            let rook_index: i32 = (piece_move.start / 8) * 8 + 7;
            let rook = board[rook_index as usize];
            board[(piece_move.end - 1) as usize] = rook;
            board[rook_index as usize] = empty;
        }
    }

    let copy = board.clone();
    assert(copy@ =~= board@);
    (copy, new_en_passant, new_kings, new_rights)
}

} // verus!
