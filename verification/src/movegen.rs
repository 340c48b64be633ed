//! The moves that the pieces can make by their own way of moving, whether or
//! not they leave the mover's king attacked.

use vstd::prelude::*;
use crate::board::{Piece, PieceType, PieceColour, Move, MoveFlag};
use crate::board::{on_board, file_of, rank_of, move_to, opponent_of, opponent};
use crate::geometry::{direction_step, edge_distance, dist_to_edge, lemma_step_stays_on_board};
use crate::apply::{pawn_direction, pawn_start_rank, castling_right, can_apply};

verus! {

/// The moves of a sliding piece from `from` along one line, continued from
/// `cur` for at most `remaining` steps of `step`: the line ends before a piece
/// of the slider's colour, and on a piece of the other colour.
pub open spec fn ray_moves(board: Seq<Piece>, from: int, cur: int, step: int, remaining: nat) -> Seq<
    Move,
>
    decreases remaining,
{
    if remaining == 0 {
        Seq::empty()
    } else {
        let to = cur + step;
        if board[to].piece_colour == board[from].piece_colour {
            Seq::empty()
        } else if board[to].piece_colour != PieceColour::Empty {
            seq![move_to(from, to, MoveFlag::Normal)]
        } else {
            seq![move_to(from, to, MoveFlag::Normal)] + ray_moves(
                board,
                from,
                to,
                step,
                (remaining - 1) as nat,
            )
        }
    }
}

/// The first direction in which a sliding piece of kind `kind` moves.
pub open spec fn first_direction(kind: PieceType) -> int {
    if kind == PieceType::Bishop {
        4
    } else {
        0
    }
}

/// The direction after the last in which a sliding piece of kind `kind` moves.
pub open spec fn last_direction(kind: PieceType) -> int {
    if kind == PieceType::Rook {
        4
    } else {
        8
    }
}

/// The moves of the sliding piece on `from` in the directions from `d` up to,
/// but not including, `d_end`, one direction after the other.
pub open spec fn sliding_moves(board: Seq<Piece>, from: int, d: int, d_end: int) -> Seq<Move>
    decreases d_end - d,
{
    if d >= d_end {
        Seq::empty()
    } else {
        ray_moves(board, from, from, direction_step(d), edge_distance(from, d) as nat)
            + sliding_moves(board, from, d + 1, d_end)
    }
}

/// The `i`-th of the eight jumps of a knight, or of the eight steps of a king,
/// as a change of file and a change of rank.
pub open spec fn leap_offset(king: bool, i: int) -> (int, int) {
    if king {
        if i == 0 {
            (-1, -1)
        } else if i == 1 {
            (-1, 0)
        } else if i == 2 {
            (-1, 1)
        } else if i == 3 {
            (0, -1)
        } else if i == 4 {
            (0, 1)
        } else if i == 5 {
            (1, -1)
        } else if i == 6 {
            (1, 0)
        } else {
            (1, 1)
        }
    } else {
        if i == 0 {
            (-2, -1)
        } else if i == 1 {
            (-1, -2)
        } else if i == 2 {
            (1, -2)
        } else if i == 3 {
            (2, -1)
        } else if i == 4 {
            (2, 1)
        } else if i == 5 {
            (1, 2)
        } else if i == 6 {
            (-1, 2)
        } else {
            (-2, 1)
        }
    }
}

/// Whether the `i`-th leap from `from` lands on the board, on a square that
/// holds no piece of the leaper's colour.
pub open spec fn leap_allowed(board: Seq<Piece>, from: int, king: bool, i: int) -> bool {
    let file = file_of(from) + leap_offset(king, i).0;
    let rank = rank_of(from) + leap_offset(king, i).1;
    &&& 0 <= file <= 7
    &&& 0 <= rank <= 7
    &&& board[file + rank * 8].piece_colour != board[from].piece_colour
}

/// The square on which the `i`-th leap from `from` lands.
pub open spec fn leap_target(from: int, king: bool, i: int) -> int {
    file_of(from) + leap_offset(king, i).0 + (rank_of(from) + leap_offset(king, i).1) * 8
}

/// The moves of a knight or a king on `from` by its leaps from the `i`-th on.
pub open spec fn leap_moves(board: Seq<Piece>, from: int, king: bool, i: int) -> Seq<Move>
    decreases 8 - i,
{
    if i < 0 || i >= 8 {
        Seq::empty()
    } else if leap_allowed(board, from, king, i) {
        seq![move_to(from, leap_target(from, king, i), MoveFlag::Normal)] + leap_moves(
            board,
            from,
            king,
            i + 1,
        )
    } else {
        leap_moves(board, from, king, i + 1)
    }
}

/// The rank on which the pawns of a side are promoted.
pub open spec fn promotion_rank(colour: PieceColour) -> int {
    if colour == PieceColour::Black {
        7
    } else {
        0
    }
}

/// The rank from which the pawns of a side capture en passant.
pub open spec fn en_passant_rank(colour: PieceColour) -> int {
    if colour == PieceColour::Black {
        4
    } else {
        3
    }
}

/// The flag of a pawn move that arrives on `to`.
pub open spec fn arrival_flag(colour: PieceColour, to: int) -> MoveFlag {
    if rank_of(to) == promotion_rank(colour) {
        MoveFlag::Promotion
    } else {
        MoveFlag::Normal
    }
}

/// Whether `piece` belongs to the side that plays against `colour`.
pub open spec fn is_enemy_of(piece: Piece, colour: PieceColour) -> bool {
    piece.piece_colour != colour && piece.piece_colour != PieceColour::Empty
}

/// The forward moves of the pawn on `from`: one step onto an empty square, and
/// after it two steps from the starting rank onto another empty square.
pub open spec fn pawn_pushes(board: Seq<Piece>, from: int) -> Seq<Move> {
    let colour = board[from].piece_colour;
    let one = from + 8 * pawn_direction(colour);
    let two = from + 16 * pawn_direction(colour);
    if on_board(one) && board[one].piece_colour == PieceColour::Empty {
        let single = seq![move_to(from, one, arrival_flag(colour, one))];
        if on_board(two) && board[two].piece_colour == PieceColour::Empty && rank_of(from)
            == pawn_start_rank(colour) {
            single.push(move_to(from, two, MoveFlag::Normal))
        } else {
            single
        }
    } else {
        Seq::empty()
    }
}

/// The captures of the pawn on `from` towards the file on its `side` (-1 or
/// 1): the capture of an enemy piece that stands diagonally ahead, and the
/// capture en passant onto the target `en_passant` beside an enemy piece.
pub open spec fn pawn_captures(board: Seq<Piece>, from: int, en_passant: int, side: int) -> Seq<
    Move,
> {
    let colour = board[from].piece_colour;
    let to = from + side + 8 * pawn_direction(colour);
    if 0 <= file_of(from) + side <= 7 && on_board(to) {
        let taking = if is_enemy_of(board[to], colour) {
            seq![move_to(from, to, arrival_flag(colour, to))]
        } else {
            Seq::empty()
        };
        if en_passant == to && is_enemy_of(board[from + side], colour) && rank_of(from)
            == en_passant_rank(colour) {
            taking.push(move_to(from, to, MoveFlag::EnPassant))
        } else {
            taking
        }
    } else {
        Seq::empty()
    }
}

/// The moves of the pawn on `from`: forward, then the captures to the west,
/// then those to the east.
pub open spec fn pawn_moves(board: Seq<Piece>, from: int, en_passant: int) -> Seq<Move> {
    pawn_pushes(board, from) + pawn_captures(board, from, en_passant, -1) + pawn_captures(
        board,
        from,
        en_passant,
        1,
    )
}

/// The moves of the piece on `from` other than castling.
pub open spec fn piece_moves(board: Seq<Piece>, from: int, en_passant: int) -> Seq<Move> {
    if !on_board(from) {
        Seq::empty()
    } else {
        match board[from].piece_type {
            PieceType::Rook | PieceType::Bishop | PieceType::Queen => sliding_moves(
                board,
                from,
                first_direction(board[from].piece_type),
                last_direction(board[from].piece_type),
            ),
            PieceType::Knight => leap_moves(board, from, false, 0),
            PieceType::Pawn => pawn_moves(board, from, en_passant),
            PieceType::King => leap_moves(board, from, true, 0),
            PieceType::Empty => Seq::empty(),
        }
    }
}

/// The moves other than castling of the pieces of `colour` that stand on the
/// squares from `sq` on, square after square.
pub open spec fn side_moves_from(board: Seq<Piece>, en_passant: int, colour: PieceColour, sq: int) -> Seq<
    Move,
>
    decreases 64 - sq,
{
    if sq < 0 || sq >= 64 {
        Seq::empty()
    } else if board[sq].piece_colour == colour {
        piece_moves(board, sq, en_passant) + side_moves_from(board, en_passant, colour, sq + 1)
    } else {
        side_moves_from(board, en_passant, colour, sq + 1)
    }
}

/// All moves other than castling of the pieces of `colour`.
pub open spec fn side_moves(board: Seq<Piece>, en_passant: int, colour: PieceColour) -> Seq<Move> {
    side_moves_from(board, en_passant, colour, 0)
}

/// Whether one of `moves` ends on `sq`.
pub open spec fn reaches(moves: Seq<Move>, sq: int) -> bool {
    exists|i: int| 0 <= i < moves.len() && (#[trigger] moves[i]).end == sq
}

/// Whether a piece of `colour` can move to `sq`, castling apart.
pub open spec fn attacked_by(board: Seq<Piece>, en_passant: int, colour: PieceColour, sq: int) -> bool {
    reaches(side_moves(board, en_passant, colour), sq)
}

/// Whether the king on `from` may pass over `sq` when it castles: the square
/// lies on the board, is empty, and no enemy piece can move to it.
pub open spec fn castling_square_free(board: Seq<Piece>, from: int, en_passant: int, sq: int) -> bool {
    &&& on_board(sq)
    &&& board[sq].piece_type == PieceType::Empty
    &&& !attacked_by(board, en_passant, opponent_of(board[from].piece_colour), sq)
}

/// Whether the king on `from` may castle to the given side: it has the right,
/// and the squares between it and the rook are free, two on the king side and
/// three on the queen side.
pub open spec fn can_castle(
    board: Seq<Piece>,
    from: int,
    en_passant: int,
    rights: (bool, bool, bool, bool),
    king_side: bool,
) -> bool {
    &&& castling_right(rights, board[from].piece_colour, king_side)
    &&& if king_side {
        &&& castling_square_free(board, from, en_passant, from + 1)
        &&& castling_square_free(board, from, en_passant, from + 2)
    } else {
        &&& castling_square_free(board, from, en_passant, from - 1)
        &&& castling_square_free(board, from, en_passant, from - 2)
        &&& castling_square_free(board, from, en_passant, from - 3)
    }
}

/// The castling moves of the king on `from`: to the queen side, then to the
/// king side, each a move of the king by two squares.
pub open spec fn castling_moves(
    board: Seq<Piece>,
    from: int,
    en_passant: int,
    rights: (bool, bool, bool, bool),
) -> Seq<Move> {
    let queen_side = if can_castle(board, from, en_passant, rights, false) {
        seq![move_to(from, from - 2, MoveFlag::Castling)]
    } else {
        Seq::empty()
    };
    if can_castle(board, from, en_passant, rights, true) {
        queen_side.push(move_to(from, from + 2, MoveFlag::Castling))
    } else {
        queen_side
    }
}

/// The moves of the piece on `index`, with castling if `check_castling` is set.
/// A square outside the board, or without a piece, has none.
pub open spec fn pseudo_legal_moves(
    board: Seq<Piece>,
    index: int,
    en_passant: int,
    rights: (bool, bool, bool, bool),
    check_castling: bool,
) -> Seq<Move> {
    if on_board(index) && board[index].piece_type == PieceType::King && check_castling {
        piece_moves(board, index, en_passant) + castling_moves(board, index, en_passant, rights)
    } else {
        piece_moves(board, index, en_passant)
    }
}

/// What holds of every move that the generator gives for the piece on `from`:
/// it takes a piece from `from` to another square of the board; it carries no
/// flag that names a promotion piece, and only a pawn's move leaves the
/// promotion open; a capture en passant is a pawn's, made from the rank for
/// it to the en-passant target one rank ahead; castling is a king's move by
/// two squares.
pub open spec fn generated_move(board: Seq<Piece>, from: int, en_passant: int, m: Move) -> bool {
    &&& on_board(from)
    &&& board[from].piece_type != PieceType::Empty
    &&& m.start == from
    &&& on_board(m.end as int)
    &&& m.end != from
    &&& match m.flag {
        MoveFlag::Normal => true,
        MoveFlag::Promotion => board[from].piece_type == PieceType::Pawn,
        MoveFlag::EnPassant => {
            &&& board[from].piece_type == PieceType::Pawn
            &&& en_passant == m.end
            &&& rank_of(from) == en_passant_rank(board[from].piece_colour)
            &&& rank_of(m.end as int) == rank_of(from) + pawn_direction(board[from].piece_colour)
        },
        MoveFlag::Castling => board[from].piece_type == PieceType::King && (m.end == from - 2
            || m.end == from + 2),
        _ => false,
    }
}

proof fn lemma_ray_moves_generated(board: Seq<Piece>, from: int, cur: int, d: int, remaining: nat)
    requires
        on_board(from),
        on_board(cur),
        0 <= d < 8,
        remaining <= edge_distance(cur, d),
    ensures
        forall|i: int|
            0 <= i < ray_moves(board, from, cur, direction_step(d), remaining).len() ==> {
                let m = #[trigger] ray_moves(board, from, cur, direction_step(d), remaining)[i];
                &&& m.start == from
                &&& on_board(m.end as int)
                &&& edge_distance(m.end as int, d) < edge_distance(cur, d)
                &&& m.flag == MoveFlag::Normal
            },
    decreases remaining,
{
    if remaining > 0 {
        lemma_step_stays_on_board(cur, d);
        lemma_ray_moves_generated(board, from, cur + direction_step(d), d, (remaining - 1) as nat);
    }
}

proof fn lemma_sliding_moves_generated(
    board: Seq<Piece>,
    from: int,
    d: int,
    d_end: int,
    en_passant: int,
)
    requires
        on_board(from),
        board[from].piece_type != PieceType::Empty,
        0 <= d,
        d_end <= 8,
    ensures
        forall|i: int|
            0 <= i < sliding_moves(board, from, d, d_end).len() ==> {
                let m = #[trigger] sliding_moves(board, from, d, d_end)[i];
                generated_move(board, from, en_passant, m) && m.flag == MoveFlag::Normal
            },
    decreases d_end - d,
{
    if d < d_end {
        crate::geometry::lemma_edge_distance_bounds(from, d);
        lemma_ray_moves_generated(board, from, from, d, edge_distance(from, d) as nat);
        lemma_sliding_moves_generated(board, from, d + 1, d_end, en_passant);
    }
}

proof fn lemma_leap_moves_generated(
    board: Seq<Piece>,
    from: int,
    king: bool,
    i: int,
    en_passant: int,
)
    requires
        on_board(from),
        board[from].piece_type != PieceType::Empty,
        0 <= i,
    ensures
        forall|j: int|
            0 <= j < leap_moves(board, from, king, i).len() ==> {
                let m = #[trigger] leap_moves(board, from, king, i)[j];
                generated_move(board, from, en_passant, m) && m.flag == MoveFlag::Normal
            },
    decreases 8 - i,
{
    if i < 8 {
        lemma_leap_moves_generated(board, from, king, i + 1, en_passant);
    }
}

proof fn lemma_piece_moves_generated(board: Seq<Piece>, from: int, en_passant: int)
    ensures
        forall|i: int|
            0 <= i < piece_moves(board, from, en_passant).len() ==> {
                let m = #[trigger] piece_moves(board, from, en_passant)[i];
                generated_move(board, from, en_passant, m) && m.flag != MoveFlag::Castling
            },
{
    if on_board(from) && board[from].piece_type != PieceType::Empty {
        let kind = board[from].piece_type;
        lemma_sliding_moves_generated(
            board,
            from,
            first_direction(kind),
            last_direction(kind),
            en_passant,
        );
        lemma_leap_moves_generated(board, from, false, 0, en_passant);
        lemma_leap_moves_generated(board, from, true, 0, en_passant);
    }
}

/// Every move that the generator gives for the piece on `index` is a generated
/// move, and one that `make_move` accepts.
pub proof fn lemma_pseudo_legal_moves_generated(
    board: Seq<Piece>,
    index: int,
    en_passant: int,
    rights: (bool, bool, bool, bool),
    check_castling: bool,
)
    requires
        board.len() == 64,
    ensures
        forall|i: int|
            0 <= i < pseudo_legal_moves(board, index, en_passant, rights, check_castling).len()
                ==> {
                let m = #[trigger] pseudo_legal_moves(
                    board,
                    index,
                    en_passant,
                    rights,
                    check_castling,
                )[i];
                generated_move(board, index, en_passant, m) && can_apply(board, m, en_passant)
            },
{
    lemma_piece_moves_generated(board, index, en_passant);
}

/// Castling is among the generated moves of the piece on `index` exactly if
/// castling was asked for, the piece is a king, and the king may castle to
/// that side: it holds the right, and every square between it and the rook,
/// its destination among them, is empty and out of the enemy's reach. No
/// other generated move carries the castling flag.
pub proof fn lemma_castling_generated_only_when_allowed(
    board: Seq<Piece>,
    index: int,
    en_passant: int,
    rights: (bool, bool, bool, bool),
    check_castling: bool,
)
    requires
        on_board(index),
    ensures
        pseudo_legal_moves(board, index, en_passant, rights, check_castling).contains(
            move_to(index, index + 2, MoveFlag::Castling),
        ) <==> check_castling && board[index].piece_type == PieceType::King && can_castle(
            board,
            index,
            en_passant,
            rights,
            true,
        ),
        pseudo_legal_moves(board, index, en_passant, rights, check_castling).contains(
            move_to(index, index - 2, MoveFlag::Castling),
        ) <==> check_castling && board[index].piece_type == PieceType::King && can_castle(
            board,
            index,
            en_passant,
            rights,
            false,
        ),
        forall|i: int|
            0 <= i < pseudo_legal_moves(board, index, en_passant, rights, check_castling).len() && (
            #[trigger] pseudo_legal_moves(board, index, en_passant, rights, check_castling)[i]).flag
                == MoveFlag::Castling ==> {
                let m = pseudo_legal_moves(board, index, en_passant, rights, check_castling)[i];
                m == move_to(index, index + 2, MoveFlag::Castling) || m == move_to(
                    index,
                    index - 2,
                    MoveFlag::Castling,
                )
            },
{
    let plain = piece_moves(board, index, en_passant);
    let castling = castling_moves(board, index, en_passant, rights);
    let all = pseudo_legal_moves(board, index, en_passant, rights, check_castling);
    let king_side = move_to(index, index + 2, MoveFlag::Castling);
    let queen_side = move_to(index, index - 2, MoveFlag::Castling);
    lemma_piece_moves_generated(board, index, en_passant);
    if check_castling && board[index].piece_type == PieceType::King {
        assert forall|i: int| 0 <= i < all.len() && (#[trigger] all[i]).flag
            == MoveFlag::Castling implies all[i] == king_side || all[i] == queen_side by {
            if i < plain.len() {
                assert(all[i] == plain[i]);
            } else {
                assert(all[i] == castling[i - plain.len()]);
            }
        }
        if can_castle(board, index, en_passant, rights, true) {
            assert(all[all.len() - 1] == king_side);
        }
        if can_castle(board, index, en_passant, rights, false) {
            assert(all[plain.len() as int] == queen_side);
        }
        if all.contains(king_side) {
            let i = choose|i: int| 0 <= i < all.len() && all[i] == king_side;
            if i < plain.len() {
                assert(all[i] == plain[i]);
            } else {
                assert(all[i] == castling[i - plain.len()]);
            }
        }
        if all.contains(queen_side) {
            let i = choose|i: int| 0 <= i < all.len() && all[i] == queen_side;
            if i < plain.len() {
                assert(all[i] == plain[i]);
            } else {
                assert(all[i] == castling[i - plain.len()]);
            }
        }
    } else {
        if all.contains(king_side) {
            let i = choose|i: int| 0 <= i < all.len() && all[i] == king_side;
            assert(plain[i].flag != MoveFlag::Castling);
        }
        if all.contains(queen_side) {
            let i = choose|i: int| 0 <= i < all.len() && all[i] == queen_side;
            assert(plain[i].flag != MoveFlag::Castling);
        }
    }
}

/// Where no enemy piece can move to the king's own square, a castling move
/// that is generated takes the king only over squares that are out of the
/// enemy's reach: the square it stands on, the square it passes and the square
/// it arrives on. The king holds the right, and the squares between it and the
/// rook are empty.
pub proof fn lemma_castling_path_out_of_reach(
    board: Seq<Piece>,
    index: int,
    en_passant: int,
    rights: (bool, bool, bool, bool),
    check_castling: bool,
    king_side: bool,
)
    requires
        on_board(index),
        !attacked_by(board, en_passant, opponent_of(board[index].piece_colour), index),
        pseudo_legal_moves(board, index, en_passant, rights, check_castling).contains(
            move_to(
                index,
                if king_side {
                    index + 2
                } else {
                    index - 2
                },
                MoveFlag::Castling,
            ),
        ),
    ensures
        castling_right(rights, board[index].piece_colour, king_side),
        forall|sq: int|
            (if king_side {
                index <= sq <= index + 2
            } else {
                index - 2 <= sq <= index
            }) ==> !attacked_by(board, en_passant, opponent_of(board[index].piece_colour), sq),
        forall|sq: int|
            (if king_side {
                index < sq <= index + 2
            } else {
                index - 3 <= sq < index
            }) ==> board[sq].piece_type == PieceType::Empty,
{
    lemma_castling_generated_only_when_allowed(board, index, en_passant, rights, check_castling);
}

fn slide_moves(board: &Vec<Piece>, index: i32) -> (moves: Vec<Move>)
    requires
        board@.len() == 64,
        on_board(index as int),
    ensures
        moves@ == sliding_moves(
            board@,
            index as int,
            first_direction(board@[index as int].piece_type),
            last_direction(board@[index as int].piece_type),
        ),
{
    let piece = board[index as usize];
    let directions: [i32; 8] = [8, -8, 1, -1, 9, -9, 7, -7];
    let edge_dist = dist_to_edge(index);
    let start_dir: usize = if piece.piece_type == PieceType::Bishop {
        4
    } else {
        0
    };
    let end_dir: usize = if piece.piece_type == PieceType::Rook {
        4
    } else {
        8
    };
    let ghost all = sliding_moves(board@, index as int, start_dir as int, end_dir as int);
    let mut moves: Vec<Move> = Vec::new();
    let mut dir_index: usize = start_dir;
    while dir_index < end_dir
        invariant
            board@.len() == 64,
            on_board(index as int),
            piece == board@[index as int],
            start_dir <= dir_index <= end_dir <= 8,
            forall|d: int| 0 <= d < 8 ==> directions[d] == direction_step(d),
            forall|d: int| 0 <= d < 8 ==> edge_dist[d] == edge_distance(index as int, d),
            all == moves@ + sliding_moves(board@, index as int, dir_index as int, end_dir as int),
        decreases end_dir - dir_index,
    {
        let dir: i32 = directions[dir_index];
        let reach: i32 = edge_dist[dir_index];
        let ghost rest = sliding_moves(board@, index as int, dir_index + 1, end_dir as int);
        let mut new_index: i32 = index;
        let mut dir_offset: i32 = 0;
        proof {
            crate::geometry::lemma_edge_distance_bounds(index as int, dir_index as int);
        }
        while dir_offset < reach
            invariant_except_break
                0 <= dir_offset <= reach <= 7,
                on_board(new_index as int),
                edge_distance(new_index as int, dir_index as int) == reach - dir_offset,
                all == moves@ + ray_moves(
                    board@,
                    index as int,
                    new_index as int,
                    dir as int,
                    (reach - dir_offset) as nat,
                ) + rest,
            invariant
                board@.len() == 64,
                on_board(index as int),
                piece == board@[index as int],
                0 <= dir_index < 8,
                dir == direction_step(dir_index as int),
            ensures
                all == moves@ + rest,
            decreases reach - dir_offset,
        {
            proof {
                lemma_step_stays_on_board(new_index as int, dir_index as int);
            }
            let ghost before = moves@;
            let ghost tail = ray_moves(
                board@,
                index as int,
                new_index + dir,
                dir as int,
                (reach - dir_offset - 1) as nat,
            );
            dir_offset = dir_offset + 1;
            new_index = new_index + dir;
            let target = board[new_index as usize];
            if target.piece_colour == piece.piece_colour {
                assert(all == before + rest) by {
                    assert(before + Seq::<Move>::empty() =~= before);
                }
                break ;
            }
            moves.push(Move { start: index, end: new_index, flag: MoveFlag::Normal });
            if target.piece_colour != PieceColour::Empty {
                assert(all == moves@ + rest) by {
                    assert(before + seq![move_to(index as int, new_index as int, MoveFlag::Normal)]
                        =~= moves@);
                }
                break ;
            }
            assert(all == moves@ + tail + rest) by {
                assert(before + (seq![move_to(index as int, new_index as int, MoveFlag::Normal)]
                    + tail) =~= moves@ + tail);
            }
        }
        assert(all == moves@ + rest) by {
            assert(moves@ + Seq::<Move>::empty() =~= moves@);
        }
        dir_index = dir_index + 1;
    }
    assert(moves@ + Seq::<Move>::empty() =~= moves@);
    moves
}

fn leap_offsets(king: bool) -> (r: [(i32, i32); 8])
    ensures
        forall|i: int| 0 <= i < 8 ==> (r[i].0 as int, r[i].1 as int) == leap_offset(king, i),
{
    if king {
        [(-1, -1), (-1, 0), (-1, 1), (0, -1), (0, 1), (1, -1), (1, 0), (1, 1)]
    } else {
        [(-2, -1), (-1, -2), (1, -2), (2, -1), (2, 1), (1, 2), (-1, 2), (-2, 1)]
    }
}

fn jump_moves(board: &Vec<Piece>, index: i32, king: bool) -> (moves: Vec<Move>)
    requires
        board@.len() == 64,
        on_board(index as int),
    ensures
        moves@ == leap_moves(board@, index as int, king, 0),
{
    let piece = board[index as usize];
    let offsets = leap_offsets(king);
    let ghost all = leap_moves(board@, index as int, king, 0);
    let mut moves: Vec<Move> = Vec::new();
    let mut i: usize = 0;
    while i < 8
        invariant
            board@.len() == 64,
            on_board(index as int),
            piece == board@[index as int],
            0 <= i <= 8,
            forall|j: int| 0 <= j < 8 ==> (offsets[j].0 as int, offsets[j].1 as int) == leap_offset(
                king,
                j,
            ),
            all == moves@ + leap_moves(board@, index as int, king, i as int),
        decreases 8 - i,
    {
        let ghost before = moves@;
        let ghost tail = leap_moves(board@, index as int, king, i + 1);
        let new_file: i32 = index % 8 + offsets[i].0;
        let new_rank: i32 = index / 8 + offsets[i].1;
        if 0 <= new_file && new_file <= 7 && 0 <= new_rank && new_rank <= 7 {
            let new_index: i32 = new_file + new_rank * 8;
            if board[new_index as usize].piece_colour != piece.piece_colour {
                moves.push(Move { start: index, end: new_index, flag: MoveFlag::Normal });
                assert(before + (seq![move_to(index as int, new_index as int, MoveFlag::Normal)]
                    + tail) =~= moves@ + tail);
            }
        }
        i = i + 1;
    }
    assert(moves@ + Seq::<Move>::empty() =~= moves@);
    moves
}

fn pawn_move_gen(board: &Vec<Piece>, index: i32, en_passant_move: i32) -> (moves: Vec<Move>)
    requires
        board@.len() == 64,
        on_board(index as int),
    ensures
        moves@ == pawn_moves(board@, index as int, en_passant_move as int),
{
    let piece = board[index as usize];
    let mut dir: i32 = -1;
    let mut start_rank: i32 = 6;
    let mut promotion_rank: i32 = 0;
    let mut en_passant_rank: i32 = 3;
    if piece.piece_colour == PieceColour::Black {
        dir = 1;
        start_rank = 1;
        promotion_rank = 7;
        en_passant_rank = 4;
    }
    let mut moves: Vec<Move> = Vec::new();
    let one: i32 = index + 8 * dir;
    let two: i32 = index + 16 * dir;
    if 0 <= one && one <= 63 && board[one as usize].piece_colour == PieceColour::Empty {
        if one / 8 != promotion_rank {
            moves.push(Move { start: index, end: one, flag: MoveFlag::Normal });
        } else {
            moves.push(Move { start: index, end: one, flag: MoveFlag::Promotion });
        }
        if 0 <= two && two <= 63 {
            if board[two as usize].piece_colour == PieceColour::Empty && index / 8 == start_rank {
                moves.push(Move { start: index, end: two, flag: MoveFlag::Normal });
            }
        }
    }
    assert(moves@ =~= pawn_pushes(board@, index as int));

    let sides: [i32; 2] = [-1, 1];
    let mut s: usize = 0;
    while s < 2
        invariant
            board@.len() == 64,
            on_board(index as int),
            piece == board@[index as int],
            dir == pawn_direction(piece.piece_colour),
            promotion_rank == crate::movegen::promotion_rank(piece.piece_colour),
            en_passant_rank == crate::movegen::en_passant_rank(piece.piece_colour),
            0 <= s <= 2,
            sides[0] == -1,
            sides[1] == 1,
            s == 0 ==> moves@ == pawn_pushes(board@, index as int),
            s == 1 ==> moves@ == pawn_pushes(board@, index as int) + pawn_captures(
                board@,
                index as int,
                en_passant_move as int,
                -1,
            ),
            s == 2 ==> moves@ == pawn_moves(board@, index as int, en_passant_move as int),
        decreases 2 - s,
    {
        let side: i32 = sides[s];
        let ghost before = moves@;
        let ghost here = pawn_captures(board@, index as int, en_passant_move as int, side as int);
        let to: i32 = index + side + 8 * dir;
        if 0 <= index % 8 + side && index % 8 + side <= 7 && 0 <= to && to <= 63 {
            let target = board[to as usize];
            if target.piece_colour != piece.piece_colour && target.piece_colour
                != PieceColour::Empty {
                if to / 8 != promotion_rank {
                    moves.push(Move { start: index, end: to, flag: MoveFlag::Normal });
                } else {
                    moves.push(Move { start: index, end: to, flag: MoveFlag::Promotion });
                }
            }
            let beside = board[(index + side) as usize];
            if en_passant_move == to && beside.piece_colour != piece.piece_colour
                && beside.piece_colour != PieceColour::Empty && index / 8 == en_passant_rank {
                moves.push(Move { start: index, end: to, flag: MoveFlag::EnPassant });
            }
        }
        assert(moves@ =~= before + here);
        s = s + 1;
    }
    moves
}

/// The moves of the piece on `index` other than castling.
fn piece_move_gen(board: &Vec<Piece>, index: i32, en_passant_move: i32) -> (moves: Vec<Move>)
    requires
        board@.len() == 64,
    ensures
        moves@ == piece_moves(board@, index as int, en_passant_move as int),
{
    if index < 0 || index > 63 {
        return Vec::new();
    }
    match board[index as usize].piece_type {
        PieceType::Rook | PieceType::Bishop | PieceType::Queen => slide_moves(board, index),
        PieceType::Knight => jump_moves(board, index, false),
        PieceType::Pawn => pawn_move_gen(board, index, en_passant_move),
        PieceType::King => jump_moves(board, index, true),
        PieceType::Empty => Vec::new(),
    }
}

/// Whether one of `moves` ends on `sq`.
pub(crate) fn any_move_reaches(moves: &Vec<Move>, sq: i32) -> (r: bool)
    ensures
        r == reaches(moves@, sq as int),
{
    let mut i: usize = 0;
    while i < moves.len()
        invariant
            0 <= i <= moves.len(),
            forall|j: int| 0 <= j < i ==> (#[trigger] moves@[j]).end != sq,
        decreases moves.len() - i,
    {
        if moves[i].end == sq {
            return true;
        }
        i = i + 1;
    }
    false
}

fn castling_square_is_free(board: &Vec<Piece>, index: i32, opponent_moves: &Vec<Move>, sq: i32) -> (r:
    bool)
    requires
        board@.len() == 64,
        on_board(index as int),
        -3 <= sq - index <= 3,
    ensures
        r == (on_board(sq as int) && board@[sq as int].piece_type == PieceType::Empty && !reaches(
            opponent_moves@,
            sq as int,
        )),
{
    if sq < 0 || sq > 63 {
        return false;
    }
    if board[sq as usize].piece_type != PieceType::Empty {
        return false;
    }
    !any_move_reaches(opponent_moves, sq)
}

fn castling_move_gen(
    board: &Vec<Piece>,
    index: i32,
    en_passant_move: i32,
    castling_rights: (bool, bool, bool, bool),
) -> (moves: Vec<Move>)
    requires
        board@.len() == 64,
        on_board(index as int),
    ensures
        moves@ == castling_moves(board@, index as int, en_passant_move as int, castling_rights),
{
    let piece = board[index as usize];
    let mut moves: Vec<Move> = Vec::new();
    let (king_side, queen_side) = match piece.piece_colour {
        PieceColour::White => (castling_rights.0, castling_rights.1),
        PieceColour::Black => (castling_rights.2, castling_rights.3),
        PieceColour::Empty => (false, false),
    };
    if !king_side && !queen_side {
        return moves;
    }
    let opponent_moves = side_move_gen(
        board,
        en_passant_move,
        opponent(piece.piece_colour),
        castling_rights,
    );
    if queen_side && castling_square_is_free(board, index, &opponent_moves, index - 1)
        && castling_square_is_free(board, index, &opponent_moves, index - 2)
        && castling_square_is_free(board, index, &opponent_moves, index - 3) {
        moves.push(Move { start: index, end: index - 2, flag: MoveFlag::Castling });
    }
    if king_side && castling_square_is_free(board, index, &opponent_moves, index + 1)
        && castling_square_is_free(board, index, &opponent_moves, index + 2) {
        moves.push(Move { start: index, end: index + 2, flag: MoveFlag::Castling });
    }
    assert(moves@ =~= castling_moves(
        board@,
        index as int,
        en_passant_move as int,
        castling_rights,
    ));
    moves
}

/// The moves that the piece on `index` can make by its way of moving, whether
/// or not they leave its own king attacked. Castling is among them only if
/// `check_castling` is set.
pub fn sudo_legal_move_gen(
    board: &Vec<Piece>,
    index: i32,
    en_passant_move: i32,
    castling_rights: (bool, bool, bool, bool),
    check_castling: bool,
) -> (piece_moves: Vec<Move>)
    requires
        board@.len() == 64,
    ensures
        piece_moves@ == pseudo_legal_moves(
            board@,
            index as int,
            en_passant_move as int,
            castling_rights,
            check_castling,
        ),
        forall|i: int|
            0 <= i < piece_moves@.len() ==> generated_move(
                board@,
                index as int,
                en_passant_move as int,
                #[trigger] piece_moves@[i],
            ),
{
    let mut piece_moves = piece_move_gen(board, index, en_passant_move);
    if 0 <= index && index <= 63 && check_castling {
        if board[index as usize].piece_type == PieceType::King {
            let mut castling = castling_move_gen(board, index, en_passant_move, castling_rights);
            piece_moves.append(&mut castling);
        }
    }
    proof {
        lemma_pseudo_legal_moves_generated(
            board@,
            index as int,
            en_passant_move as int,
            castling_rights,
            check_castling,
        );
        assert(piece_moves@ =~= pseudo_legal_moves(
            board@,
            index as int,
            en_passant_move as int,
            castling_rights,
            check_castling,
        ));
    }
    piece_moves
}

/// All moves of the pieces of `side_to_check`, castling apart, square after
/// square. The castling rights play no part in them.
pub fn side_move_gen(
    board: &Vec<Piece>,
    en_passant_move: i32,
    side_to_check: PieceColour,
    castling_rights: (bool, bool, bool, bool),
) -> (moves: Vec<Move>)
    requires
        board@.len() == 64,
    ensures
        moves@ == side_moves(board@, en_passant_move as int, side_to_check),
{
    let ghost all = side_moves(board@, en_passant_move as int, side_to_check);
    let mut moves: Vec<Move> = Vec::new();
    let mut piece_index: i32 = 0;
    while piece_index < 64
        invariant
            board@.len() == 64,
            0 <= piece_index <= 64,
            all == moves@ + side_moves_from(
                board@,
                en_passant_move as int,
                side_to_check,
                piece_index as int,
            ),
        decreases 64 - piece_index,
    {
        let ghost before = moves@;
        let ghost tail = side_moves_from(
            board@,
            en_passant_move as int,
            side_to_check,
            piece_index + 1,
        );
        if board[piece_index as usize].piece_colour == side_to_check {
            let mut found = piece_move_gen(board, piece_index, en_passant_move);
            let ghost here = found@;
            moves.append(&mut found);
            assert(before + (here + tail) =~= moves@ + tail);
        }
        piece_index = piece_index + 1;
    }
    assert(moves@ + Seq::<Move>::empty() =~= moves@);
    moves
}

} // verus!
