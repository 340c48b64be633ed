//! Legal moves and the end of the game.
//!
//! A move is legal if, once it is made, no piece of the other side can move
//! to the square of the mover's king.

use vstd::prelude::*;
use crate::board::{Piece, PieceType, PieceColour, Move, NO_SQUARE};
use crate::board::{on_board, opponent_of, opponent};
use crate::apply::{make_move, can_apply, board_after_move, en_passant_after_move, kings_after_move};
use crate::movegen::{sudo_legal_move_gen, side_move_gen};
use crate::movegen::{pseudo_legal_moves, attacked_by, reaches, generated_move};
use crate::movegen::lemma_pseudo_legal_moves_generated;

verus! {

/// The king square of `colour` in the pair `kings`.
pub open spec fn king_of(kings: (i32, i32), colour: PieceColour) -> int {
    match colour {
        PieceColour::White => kings.0 as int,
        PieceColour::Black => kings.1 as int,
        PieceColour::Empty => NO_SQUARE as int,
    }
}

/// The square of the mover's king once `m` is made: the destination if the
/// king itself moves, and else the square that `kings` holds for the mover.
pub open spec fn king_square_after(board: Seq<Piece>, kings: (i32, i32), m: Move) -> int {
    if board[m.start as int].piece_type == PieceType::King {
        m.end as int
    } else {
        king_of(kings, board[m.start as int].piece_colour)
    }
}

/// Whether the mover's king is out of the other side's reach once `m` is made.
pub open spec fn keeps_king_safe(board: Seq<Piece>, kings: (i32, i32), m: Move) -> bool {
    !attacked_by(
        board_after_move(board, m),
        en_passant_after_move(board, m),
        opponent_of(board[m.start as int].piece_colour),
        king_square_after(board, kings, m),
    )
}

/// `keeps_king_safe` as a test on moves.
pub open spec fn safe_moves(board: Seq<Piece>, kings: (i32, i32)) -> spec_fn(Move) -> bool {
    |m: Move| keeps_king_safe(board, kings, m)
}

/// The legal moves of the piece on `index`: its generated moves, castling
/// included, that keep its king safe, in the order of the generator. A square
/// outside the board, or without a piece, has none.
pub open spec fn legal_moves_of(
    board: Seq<Piece>,
    index: int,
    en_passant: int,
    kings: (i32, i32),
    rights: (bool, bool, bool, bool),
) -> Seq<Move> {
    if !on_board(index) || board[index].piece_colour == PieceColour::Empty {
        Seq::empty()
    } else {
        pseudo_legal_moves(board, index, en_passant, rights, true).filter(safe_moves(board, kings))
    }
}

/// Whether no piece of `colour` has a legal move.
pub open spec fn has_no_legal_move(
    board: Seq<Piece>,
    en_passant: int,
    kings: (i32, i32),
    colour: PieceColour,
    rights: (bool, bool, bool, bool),
) -> bool {
    forall|sq: int|
        0 <= sq < 64 && board[sq].piece_colour == colour ==> (#[trigger] legal_moves_of(
            board,
            sq,
            en_passant,
            kings,
            rights,
        )).len() == 0
}

/// What passes a test on moves is found among the moves that were tested.
proof fn lemma_filtered_moves_come_from(moves: Seq<Move>, keep: spec_fn(Move) -> bool, i: int)
    requires
        0 <= i < moves.filter(keep).len(),
    ensures
        moves.contains(moves.filter(keep)[i]),
    decreases moves.len(),
{
    reveal(Seq::filter);
    if moves.len() > 0 {
        let front = moves.drop_last();
        if keep(moves.last()) && i == front.filter(keep).len() {
            assert(moves[moves.len() - 1] == moves.filter(keep)[i]);
        } else {
            lemma_filtered_moves_come_from(front, keep, i);
            let j = choose|j: int| 0 <= j < front.len() && front[j] == front.filter(keep)[i];
            assert(moves[j] == moves.filter(keep)[i]);
        }
    }
}

/// A move is legal for the piece on `index` exactly if the generator gives it
/// for that piece, castling included, and it keeps the mover's king safe.
pub proof fn lemma_legal_iff_generated_and_safe(
    board: Seq<Piece>,
    index: int,
    en_passant: int,
    kings: (i32, i32),
    rights: (bool, bool, bool, bool),
    m: Move,
)
    requires
        on_board(index),
        board[index].piece_colour != PieceColour::Empty,
    ensures
        legal_moves_of(board, index, en_passant, kings, rights).contains(m) <==> pseudo_legal_moves(
            board,
            index,
            en_passant,
            rights,
            true,
        ).contains(m) && keeps_king_safe(board, kings, m),
{
    let pseudo = pseudo_legal_moves(board, index, en_passant, rights, true);
    let keep = safe_moves(board, kings);
    let legal = pseudo.filter(keep);
    if legal.contains(m) {
        let i = choose|i: int| 0 <= i < legal.len() && legal[i] == m;
        lemma_filtered_moves_come_from(pseudo, keep, i);
        pseudo.lemma_filter_pred(keep, i);
    }
    if pseudo.contains(m) && keeps_king_safe(board, kings, m) {
        let i = choose|i: int| 0 <= i < pseudo.len() && pseudo[i] == m;
        pseudo.lemma_filter_contains(keep, i);
    }
}

/// No legal move leaves the mover's king within the other side's reach: once
/// the `i`-th legal move of the piece on `index` is made, no move that the
/// generator gives for a piece of the other side ends on the square of the
/// mover's king. The move is one that `make_move` accepts.
pub proof fn lemma_legal_move_keeps_king_safe(
    board: Seq<Piece>,
    index: int,
    en_passant: int,
    kings: (i32, i32),
    rights: (bool, bool, bool, bool),
    i: int,
)
    requires
        board.len() == 64,
        0 <= i < legal_moves_of(board, index, en_passant, kings, rights).len(),
    ensures
        ({
            let m = legal_moves_of(board, index, en_passant, kings, rights)[i];
            let mover = board[index].piece_colour;
            &&& m.start == index
            &&& can_apply(board, m, en_passant)
            &&& !attacked_by(
                board_after_move(board, m),
                en_passant_after_move(board, m),
                opponent_of(mover),
                king_of(kings_after_move(board, m, kings), mover),
            )
        }),
{
    let pseudo = pseudo_legal_moves(board, index, en_passant, rights, true);
    let keep = safe_moves(board, kings);
    let m = pseudo.filter(keep)[i];
    lemma_filtered_moves_come_from(pseudo, keep, i);
    pseudo.lemma_filter_pred(keep, i);
    lemma_pseudo_legal_moves_generated(board, index, en_passant, rights, true);
    let j = choose|j: int| 0 <= j < pseudo.len() && pseudo[j] == m;
    assert(generated_move(board, index, en_passant, pseudo[j]));
}

/// The legal moves of the piece on `index`. The board is left as it was.
pub fn legal_move_gen(
    board: &mut Vec<Piece>,
    index: i32,
    en_passant_move: i32,
    king_indexs: (i32, i32),
    castling_rights: (bool, bool, bool, bool),
) -> (legal_moves: Vec<Move>)
    requires
        old(board)@.len() == 64,
    ensures
        final(board)@ == old(board)@,
        legal_moves@ == legal_moves_of(
            old(board)@,
            index as int,
            en_passant_move as int,
            king_indexs,
            castling_rights,
        ),
        forall|i: int|
            0 <= i < legal_moves@.len() ==> can_apply(
                old(board)@,
                #[trigger] legal_moves@[i],
                en_passant_move as int,
            ),
{
    let mut legal_moves: Vec<Move> = Vec::new();
    if index < 0 || index > 63 {
        return legal_moves;
    }
    let piece = board[index as usize];
    let opponent_colour = opponent(piece.piece_colour);
    let own_king: i32 = match piece.piece_colour {
        PieceColour::White => king_indexs.0,
        PieceColour::Black => king_indexs.1,
        PieceColour::Empty => {
            return legal_moves;
        },
    };
    let sudo_legal_moves = sudo_legal_move_gen(board, index, en_passant_move, castling_rights, true);
    let ghost pseudo = sudo_legal_moves@;
    let ghost safe = safe_moves(board@, king_indexs);
    proof {
        reveal(Seq::filter);
        assert(pseudo.take(0) =~= Seq::<Move>::empty());
    }
    let mut i: usize = 0;
    while i < sudo_legal_moves.len()
        invariant
            board@ == old(board)@,
            board@.len() == 64,
            on_board(index as int),
            piece == board@[index as int],
            opponent_colour == opponent_of(piece.piece_colour),
            own_king == king_of(king_indexs, piece.piece_colour),
            pseudo == sudo_legal_moves@,
            safe == safe_moves(board@, king_indexs),
            forall|j: int|
                0 <= j < pseudo.len() ==> generated_move(
                    board@,
                    index as int,
                    en_passant_move as int,
                    #[trigger] pseudo[j],
                ),
            0 <= i <= sudo_legal_moves.len(),
            legal_moves@ == pseudo.take(i as int).filter(safe),
            forall|j: int|
                0 <= j < legal_moves@.len() ==> can_apply(
                    board@,
                    #[trigger] legal_moves@[j],
                    en_passant_move as int,
                ),
        decreases sudo_legal_moves.len() - i,
    {
        let sudo_move = sudo_legal_moves[i];
        assert(generated_move(board@, index as int, en_passant_move as int, pseudo[i as int]));
        let mut scratch = board.clone();
        assert(scratch@ =~= board@);
        let (board_after_move, new_en_passant_move, _, _) = make_move(
            &mut scratch,
            sudo_move,
            en_passant_move,
            king_indexs,
            castling_rights,
        );
        let king_index: i32 = if piece.piece_type == PieceType::King {
            sudo_move.end
        } else {
            own_king
        };
        let opponent_responses = side_move_gen(
            &board_after_move,
            new_en_passant_move,
            opponent_colour,
            castling_rights,
        );
        let mut illegal_flag = false;
        let mut k: usize = 0;
        while k < opponent_responses.len()
            invariant
                0 <= k <= opponent_responses.len(),
                illegal_flag == reaches(opponent_responses@.take(k as int), king_index as int),
            decreases opponent_responses.len() - k,
        {
            let ghost seen = opponent_responses@.take(k as int);
            let ghost next = opponent_responses@.take(k + 1);
            if opponent_responses[k].end == king_index {
                illegal_flag = true;
                assert(next[k as int].end == king_index);
            } else {
                assert forall|j: int| 0 <= j < next.len() && (#[trigger] next[j]).end
                    == king_index implies reaches(seen, king_index as int) by {
                    assert(seen[j].end == king_index);
                }
            }
            assert(reaches(seen, king_index as int) ==> reaches(next, king_index as int)) by {
                if reaches(seen, king_index as int) {
                    let j = choose|j: int| 0 <= j < seen.len() && (#[trigger] seen[j]).end == king_index;
                    assert(next[j].end == king_index);
                }
            }
            k = k + 1;
        }
        assert(opponent_responses@.take(opponent_responses.len() as int) =~= opponent_responses@);
        assert(illegal_flag == !keeps_king_safe(board@, king_indexs, sudo_move));
        proof {
            reveal(Seq::filter);
            assert(pseudo.take(i + 1).drop_last() =~= pseudo.take(i as int));
            assert(pseudo.take(i + 1).last() == sudo_move);
            assert(safe(sudo_move) == keeps_king_safe(board@, king_indexs, sudo_move));
        }
        if !illegal_flag {
            legal_moves.push(sudo_move);
        }
        i = i + 1;
    }
    assert(pseudo.take(pseudo.len() as int) =~= pseudo);
    legal_moves
}

/// Whether the side `colours_turn` is left without a legal move. Whether its
/// king is attacked is not looked at, so a side that is stalemated counts as
/// checkmated too. The board is left as it was.
pub fn check_for_checkmate(
    board: &mut Vec<Piece>,
    en_passant_move: i32,
    king_indexs: (i32, i32),
    colours_turn: PieceColour,
    castling_rights: (bool, bool, bool, bool),
) -> (r: bool)
    requires
        old(board)@.len() == 64,
    ensures
        final(board)@ == old(board)@,
        r == has_no_legal_move(
            old(board)@,
            en_passant_move as int,
            king_indexs,
            colours_turn,
            castling_rights,
        ),
{
    let mut legal_moves: Vec<Move> = Vec::new();
    let mut index: i32 = 0;
    while index < 64
        invariant
            board@ == old(board)@,
            board@.len() == 64,
            0 <= index <= 64,
            legal_moves@.len() == 0 <==> forall|sq: int|
                0 <= sq < index && board@[sq].piece_colour == colours_turn ==> (
                #[trigger] legal_moves_of(
                    board@,
                    sq,
                    en_passant_move as int,
                    king_indexs,
                    castling_rights,
                )).len() == 0,
        decreases 64 - index,
    {
        if board[index as usize].piece_colour == colours_turn {
            let mut found = legal_move_gen(
                board,
                index,
                en_passant_move,
                king_indexs,
                castling_rights,
            );
            legal_moves.append(&mut found);
        }
        index = index + 1;
    }
    legal_moves.len() == 0
}

} // verus!
