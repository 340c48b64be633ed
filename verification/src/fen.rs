//! The text form of a position.
//!
//! A position is written as four fields with a space between them: the
//! placement of the pieces, the side to move (`w` or `b`), the castling rights
//! (letters out of `KQkq`, or `-`) and the en-passant target (a square name, or
//! `-`). The placement lists the squares from a8 to h1: a letter for a piece,
//! upper case for white and lower case for black, a digit for a run of empty
//! squares, and `/` between ranks. Whatever follows the fourth field is not
//! read.

use vstd::prelude::*;
use crate::board::{Piece, PieceType, PieceColour, NO_SQUARE};
use crate::board::{on_board, empty_square, valid_board};
use crate::notation::{square_of_name, name_of_square, digit_char, parse_square, push_square_name, push_digit};
use crate::notation::{lemma_square_name_round_trip, lemma_named_square_on_board, chars_of};

verus! {

/// The piece that a placement letter stands for.
pub open spec fn piece_of_letter(c: char) -> Option<Piece> {
    if c == 'P' {
        Some(Piece { piece_type: PieceType::Pawn, piece_colour: PieceColour::White })
    } else if c == 'R' {
        Some(Piece { piece_type: PieceType::Rook, piece_colour: PieceColour::White })
    } else if c == 'N' {
        Some(Piece { piece_type: PieceType::Knight, piece_colour: PieceColour::White })
    } else if c == 'B' {
        Some(Piece { piece_type: PieceType::Bishop, piece_colour: PieceColour::White })
    } else if c == 'Q' {
        Some(Piece { piece_type: PieceType::Queen, piece_colour: PieceColour::White })
    } else if c == 'K' {
        Some(Piece { piece_type: PieceType::King, piece_colour: PieceColour::White })
    } else if c == 'p' {
        Some(Piece { piece_type: PieceType::Pawn, piece_colour: PieceColour::Black })
    } else if c == 'r' {
        Some(Piece { piece_type: PieceType::Rook, piece_colour: PieceColour::Black })
    } else if c == 'n' {
        Some(Piece { piece_type: PieceType::Knight, piece_colour: PieceColour::Black })
    } else if c == 'b' {
        Some(Piece { piece_type: PieceType::Bishop, piece_colour: PieceColour::Black })
    } else if c == 'q' {
        Some(Piece { piece_type: PieceType::Queen, piece_colour: PieceColour::Black })
    } else if c == 'k' {
        Some(Piece { piece_type: PieceType::King, piece_colour: PieceColour::Black })
    } else {
        None
    }
}

/// The letter of a kind of piece, in lower case.
pub open spec fn letter_of_kind(kind: PieceType) -> Option<char> {
    match kind {
        PieceType::Pawn => Some('p'),
        PieceType::Rook => Some('r'),
        PieceType::Knight => Some('n'),
        PieceType::Bishop => Some('b'),
        PieceType::Queen => Some('q'),
        PieceType::King => Some('k'),
        PieceType::Empty => None,
    }
}

/// The upper-case form of a piece letter.
pub open spec fn upper_case(c: char) -> char {
    if c == 'p' {
        'P'
    } else if c == 'r' {
        'R'
    } else if c == 'n' {
        'N'
    } else if c == 'b' {
        'B'
    } else if c == 'q' {
        'Q'
    } else {
        'K'
    }
}

/// What the placement holds for a piece: its letter, and nothing for a piece
/// without a kind or without a colour.
pub open spec fn piece_text(piece: Piece) -> Seq<char> {
    match (letter_of_kind(piece.piece_type), piece.piece_colour) {
        (Some(c), PieceColour::White) => seq![upper_case(c)],
        (Some(c), PieceColour::Black) => seq![c],
        _ => Seq::empty(),
    }
}

/// The number that a digit stands for.
pub open spec fn digit_value(c: char) -> Option<int> {
    if '0' <= c && c <= '9' {
        Some(c as int - '0' as int)
    } else {
        None
    }
}

/// A run of `n` empty squares.
pub open spec fn empty_squares(n: int) -> Seq<Piece> {
    Seq::new(n as nat, |i: int| empty_square())
}

/// The squares read so far, `acc`, after one more placement character: `/`
/// adds nothing, a digit adds a run of empty squares, a piece letter adds a
/// piece. Any other character cannot be read.
pub open spec fn placement_step(acc: Seq<Piece>, c: char) -> Option<Seq<Piece>> {
    if c == '/' {
        Some(acc)
    } else {
        match (digit_value(c), piece_of_letter(c)) {
            (Some(n), _) => Some(acc + empty_squares(n)),
            (None, Some(piece)) => Some(acc.push(piece)),
            (None, None) => None,
        }
    }
}

/// The squares read so far, `acc`, followed by those that `text` describes.
pub open spec fn placement_from(acc: Seq<Piece>, text: Seq<char>) -> Option<Seq<Piece>>
    decreases text.len(),
{
    if text.len() == 0 {
        Some(acc)
    } else {
        match placement_step(acc, text[0]) {
            Some(next) => placement_from(next, text.drop_first()),
            None => None,
        }
    }
}

/// The squares that a placement field describes.
pub open spec fn placement_squares(text: Seq<char>) -> Option<Seq<Piece>> {
    placement_from(Seq::empty(), text)
}

/// The side that a side-to-move field names.
pub open spec fn side_of(text: Seq<char>) -> Option<PieceColour> {
    if text.len() == 1 && text[0] == 'w' {
        Some(PieceColour::White)
    } else if text.len() == 1 && text[0] == 'b' {
        Some(PieceColour::Black)
    } else {
        None
    }
}

/// The rights read so far after one more character of the castling field:
/// each of `K`, `Q`, `k`, `q` grants its right, and `-` takes all of them
/// away. Any other character cannot be read.
pub open spec fn rights_step(rights: (bool, bool, bool, bool), c: char) -> Option<
    (bool, bool, bool, bool),
> {
    if c == 'K' {
        Some((true, rights.1, rights.2, rights.3))
    } else if c == 'Q' {
        Some((rights.0, true, rights.2, rights.3))
    } else if c == 'k' {
        Some((rights.0, rights.1, true, rights.3))
    } else if c == 'q' {
        Some((rights.0, rights.1, rights.2, true))
    } else if c == '-' {
        Some((false, false, false, false))
    } else {
        None
    }
}

/// The rights read so far, `acc`, after the characters of `text`.
pub open spec fn rights_from(acc: (bool, bool, bool, bool), text: Seq<char>) -> Option<
    (bool, bool, bool, bool),
>
    decreases text.len(),
{
    if text.len() == 0 {
        Some(acc)
    } else {
        match rights_step(acc, text[0]) {
            Some(next) => rights_from(next, text.drop_first()),
            None => None,
        }
    }
}

/// The castling rights that a castling field grants.
pub open spec fn rights_of(text: Seq<char>) -> Option<(bool, bool, bool, bool)> {
    rights_from((false, false, false, false), text)
}

/// The en-passant target that a field names: no square for `-`, and else the
/// square of that name.
pub open spec fn target_of(text: Seq<char>) -> Option<int> {
    if text.len() == 1 && text[0] == '-' {
        Some(NO_SQUARE as int)
    } else {
        square_of_name(text)
    }
}

/// The index of the first space in `text` at or after `from`, and the length
/// of `text` if there is none.
pub open spec fn next_space(text: Seq<char>, from: int) -> int
    decreases text.len() - from,
{
    if from >= text.len() {
        text.len() as int
    } else if text[from] == ' ' {
        from
    } else {
        next_space(text, from + 1)
    }
}

/// The first four fields of `text`, where single spaces part the fields. A
/// text with fewer than four fields has none.
pub open spec fn fen_fields(text: Seq<char>) -> Option<
    (Seq<char>, Seq<char>, Seq<char>, Seq<char>),
> {
    let end0 = next_space(text, 0);
    let end1 = next_space(text, end0 + 1);
    let end2 = next_space(text, end1 + 1);
    let end3 = next_space(text, end2 + 1);
    if end0 < text.len() && end1 < text.len() && end2 < text.len() {
        Some(
            (
                text.subrange(0, end0),
                text.subrange(end0 + 1, end1),
                text.subrange(end1 + 1, end2),
                text.subrange(end2 + 1, end3),
            ),
        )
    } else {
        None
    }
}

/// The position that `text` describes: the board, the side to move, the
/// castling rights and the en-passant target. There is none if `text` has
/// fewer than four fields, if a field holds a character that cannot be read,
/// if the placement does not describe exactly 64 squares, if the side is not
/// `w` or `b`, or if the target is neither `-` nor the name of a square.
pub open spec fn decoded(text: Seq<char>) -> Option<
    (Seq<Piece>, PieceColour, (bool, bool, bool, bool), int),
> {
    match fen_fields(text) {
        Some(fields) => match (
            placement_squares(fields.0),
            side_of(fields.1),
            rights_of(fields.2),
            target_of(fields.3),
        ) {
            (Some(board), Some(side), Some(rights), Some(target)) => if board.len() == 64 {
                Some((board, side, rights, target))
            } else {
                None
            },
            _ => None,
        },
        None => None,
    }
}

/// What the placement holds for a run of `run` empty squares: its length as a
/// digit, and nothing for no run.
pub open spec fn run_text(run: int) -> Seq<char> {
    if run > 0 {
        seq![digit_char(run)]
    } else {
        Seq::empty()
    }
}

/// The placement of one rank from `file` on, after a run of `run` empty
/// squares to the left of it.
pub open spec fn rank_text(board: Seq<Piece>, rank: int, file: int, run: int) -> Seq<char>
    decreases 8 - file,
{
    if file < 0 || file >= 8 {
        run_text(run)
    } else if board[rank * 8 + file].piece_type == PieceType::Empty {
        rank_text(board, rank, file + 1, run + 1)
    } else {
        run_text(run) + piece_text(board[rank * 8 + file]) + rank_text(board, rank, file + 1, 0)
    }
}

/// The placement of the ranks from `rank` on, with `/` between them.
pub open spec fn ranks_text(board: Seq<Piece>, rank: int) -> Seq<char>
    decreases 8 - rank,
{
    if rank < 0 || rank >= 8 {
        Seq::empty()
    } else if rank == 7 {
        rank_text(board, rank, 0, 0)
    } else {
        rank_text(board, rank, 0, 0) + seq!['/'] + ranks_text(board, rank + 1)
    }
}

/// The side-to-move field with the space after it; a position without a side
/// to move has neither.
pub open spec fn side_text(side: PieceColour) -> Seq<char> {
    match side {
        PieceColour::White => seq!['w', ' '],
        PieceColour::Black => seq!['b', ' '],
        PieceColour::Empty => Seq::empty(),
    }
}

/// The letters of the rights that are held, in the order `KQkq`.
pub open spec fn rights_letters(rights: (bool, bool, bool, bool)) -> Seq<char> {
    (if rights.0 {
        seq!['K']
    } else {
        Seq::empty()
    }) + (if rights.1 {
        seq!['Q']
    } else {
        Seq::empty()
    }) + (if rights.2 {
        seq!['k']
    } else {
        Seq::empty()
    }) + (if rights.3 {
        seq!['q']
    } else {
        Seq::empty()
    })
}

/// The castling field: the letters of the rights, or `-` if there is none.
pub open spec fn rights_text(rights: (bool, bool, bool, bool)) -> Seq<char> {
    if rights_letters(rights).len() == 0 {
        seq!['-']
    } else {
        rights_letters(rights)
    }
}

/// The en-passant field: `-` for no square, and else the name of the square.
pub open spec fn target_text(en_passant: int) -> Seq<char> {
    if en_passant == NO_SQUARE {
        seq!['-']
    } else {
        name_of_square(en_passant)
    }
}

/// The text of a position: its four fields with a space between them.
pub open spec fn fen_text(
    board: Seq<Piece>,
    side: PieceColour,
    rights: (bool, bool, bool, bool),
    en_passant: int,
) -> Seq<char> {
    ranks_text(board, 0) + seq![' '] + side_text(side) + rights_text(rights) + seq![' ']
        + target_text(en_passant)
}

/// Whether `text` holds no space.
pub open spec fn has_no_space(text: Seq<char>) -> bool {
    forall|k: int| 0 <= k < text.len() ==> text[k] != ' '
}

proof fn lemma_next_space_found(text: Seq<char>, from: int, end: int)
    requires
        0 <= from <= end <= text.len(),
        forall|k: int| from <= k < end ==> text[k] != ' ',
        end == text.len() || text[end] == ' ',
    ensures
        next_space(text, from) == end,
    decreases end - from,
{
    if from < end {
        lemma_next_space_found(text, from + 1, end);
    }
}

proof fn lemma_rank_text_has_no_space(board: Seq<Piece>, rank: int, file: int, run: int)
    requires
        0 <= file <= 8,
    ensures
        has_no_space(rank_text(board, rank, file, run)),
    decreases 8 - file,
{
    if file < 8 {
        lemma_rank_text_has_no_space(board, rank, file + 1, run + 1);
        lemma_rank_text_has_no_space(board, rank, file + 1, 0);
    }
}

proof fn lemma_ranks_text_has_no_space(board: Seq<Piece>, rank: int)
    requires
        0 <= rank <= 8,
    ensures
        has_no_space(ranks_text(board, rank)),
    decreases 8 - rank,
{
    if rank < 8 {
        lemma_rank_text_has_no_space(board, rank, 0, 0);
        if rank < 7 {
            lemma_ranks_text_has_no_space(board, rank + 1);
        }
    }
}

proof fn lemma_placement_from_first(acc: Seq<Piece>, c: char, rest: Seq<char>)
    ensures
        placement_from(acc, seq![c] + rest) == match placement_step(acc, c) {
            Some(next) => placement_from(next, rest),
            None => None,
        },
{
    let text = seq![c] + rest;
    assert(text[0] == c);
    assert(text.drop_first() =~= rest);
}

proof fn lemma_placement_from_run(acc: Seq<Piece>, run: int, rest: Seq<char>)
    requires
        0 <= run <= 8,
    ensures
        placement_from(acc, run_text(run) + rest) == placement_from(
            acc + empty_squares(run),
            rest,
        ),
{
    if run > 0 {
        lemma_placement_from_first(acc, digit_char(run), rest);
    } else {
        assert(run_text(run) + rest =~= rest);
        assert(acc + empty_squares(run) =~= acc);
    }
}

proof fn lemma_placement_from_piece(acc: Seq<Piece>, piece: Piece, rest: Seq<char>)
    requires
        piece.wf(),
        piece.piece_type != PieceType::Empty,
    ensures
        placement_from(acc, piece_text(piece) + rest) == placement_from(acc.push(piece), rest),
{
    let c = piece_text(piece)[0];
    assert(piece_text(piece) =~= seq![c]);
    lemma_placement_from_first(acc, c, rest);
}

proof fn lemma_placement_from_rank(
    board: Seq<Piece>,
    acc: Seq<Piece>,
    rank: int,
    file: int,
    run: int,
    rest: Seq<char>,
)
    requires
        valid_board(board),
        0 <= rank < 8,
        0 <= run <= file <= 8,
    ensures
        placement_from(acc, rank_text(board, rank, file, run) + rest) == placement_from(
            acc + empty_squares(run) + board.subrange(rank * 8 + file, rank * 8 + 8),
            rest,
        ),
    decreases 8 - file,
{
    let here = rank * 8 + file;
    if file == 8 {
        lemma_placement_from_run(acc, run, rest);
        assert(acc + empty_squares(run) + board.subrange(here, rank * 8 + 8) =~= acc
            + empty_squares(run));
    } else {
        let piece = board[here];
        assert(piece.wf());
        if piece.piece_type == PieceType::Empty {
            lemma_placement_from_rank(board, acc, rank, file + 1, run + 1, rest);
            assert(acc + empty_squares(run) + board.subrange(here, rank * 8 + 8) =~= acc
                + empty_squares(run + 1) + board.subrange(here + 1, rank * 8 + 8));
        } else {
            let tail = rank_text(board, rank, file + 1, 0);
            let filled = (acc + empty_squares(run)).push(piece);
            assert(rank_text(board, rank, file, run) + rest =~= run_text(run) + (piece_text(piece)
                + (tail + rest)));
            lemma_placement_from_run(acc, run, piece_text(piece) + (tail + rest));
            lemma_placement_from_piece(acc + empty_squares(run), piece, tail + rest);
            lemma_placement_from_rank(board, filled, rank, file + 1, 0, rest);
            assert(acc + empty_squares(run) + board.subrange(here, rank * 8 + 8) =~= filled
                + empty_squares(0) + board.subrange(here + 1, rank * 8 + 8));
        }
    }
}

proof fn lemma_placement_from_ranks(board: Seq<Piece>, acc: Seq<Piece>, rank: int, rest: Seq<char>)
    requires
        valid_board(board),
        0 <= rank < 8,
    ensures
        placement_from(acc, ranks_text(board, rank) + rest) == placement_from(
            acc + board.subrange(rank * 8, 64),
            rest,
        ),
    decreases 8 - rank,
{
    let row = board.subrange(rank * 8, rank * 8 + 8);
    if rank == 7 {
        lemma_placement_from_rank(board, acc, rank, 0, 0, rest);
        assert(acc + empty_squares(0) + row =~= acc + board.subrange(rank * 8, 64));
    } else {
        let tail = ranks_text(board, rank + 1);
        assert(ranks_text(board, rank) + rest =~= rank_text(board, rank, 0, 0) + (seq!['/'] + (
        tail + rest)));
        lemma_placement_from_rank(board, acc, rank, 0, 0, seq!['/'] + (tail + rest));
        assert(acc + empty_squares(0) + row =~= acc + row);
        lemma_placement_from_first(acc + row, '/', tail + rest);
        lemma_placement_from_ranks(board, acc + row, rank + 1, rest);
        assert(acc + row + board.subrange((rank + 1) * 8, 64) =~= acc + board.subrange(
            rank * 8,
            64,
        ));
    }
}

/// The placement of a board describes the squares of that board.
pub proof fn lemma_placement_round_trip(board: Seq<Piece>)
    requires
        valid_board(board),
    ensures
        placement_squares(ranks_text(board, 0)) == Some(board),
{
    let text = ranks_text(board, 0);
    assert(text + Seq::<char>::empty() =~= text);
    lemma_placement_from_ranks(board, Seq::empty(), 0, Seq::empty());
    assert(Seq::<Piece>::empty() + board.subrange(0, 64) =~= board);
}

proof fn lemma_rights_from_letter(
    acc: (bool, bool, bool, bool),
    held: bool,
    c: char,
    rest: Seq<char>,
)
    ensures
        rights_from(
            acc,
            (if held {
                seq![c]
            } else {
                Seq::empty()
            }) + rest,
        ) == if held {
            match rights_step(acc, c) {
                Some(next) => rights_from(next, rest),
                None => None,
            }
        } else {
            rights_from(acc, rest)
        },
{
    if held {
        let text = seq![c] + rest;
        assert(text[0] == c);
        assert(text.drop_first() =~= rest);
    } else {
        assert(Seq::<char>::empty() + rest =~= rest);
    }
}

/// The castling field of some rights grants those rights.
pub proof fn lemma_rights_round_trip(rights: (bool, bool, bool, bool))
    ensures
        rights_of(rights_text(rights)) == Some(rights),
        has_no_space(rights_text(rights)),
        rights_text(rights).len() >= 1,
{
    let none = Seq::<char>::empty();
    let q = (if rights.3 {
        seq!['q']
    } else {
        none
    });
    let k = (if rights.2 {
        seq!['k']
    } else {
        none
    });
    let big_q = (if rights.1 {
        seq!['Q']
    } else {
        none
    });
    let big_k = (if rights.0 {
        seq!['K']
    } else {
        none
    });
    if rights_letters(rights).len() == 0 {
        lemma_rights_from_letter((false, false, false, false), true, '-', none);
        assert(seq!['-'] + none =~= seq!['-']);
    } else {
        assert(rights_letters(rights) =~= big_k + (big_q + (k + (q + none))));
        lemma_rights_from_letter((false, false, false, false), rights.0, 'K', big_q + (k + (q + none)));
        lemma_rights_from_letter((rights.0, false, false, false), rights.1, 'Q', k + (q + none));
        lemma_rights_from_letter((rights.0, rights.1, false, false), rights.2, 'k', q + none);
        lemma_rights_from_letter((rights.0, rights.1, rights.2, false), rights.3, 'q', none);
    }
}

/// Reading the text of a position gives that position back: the board, the
/// side to move, the castling rights and the en-passant target.
pub proof fn lemma_decode_inverts_encode(
    board: Seq<Piece>,
    side: PieceColour,
    rights: (bool, bool, bool, bool),
    en_passant: int,
)
    requires
        valid_board(board),
        side != PieceColour::Empty,
        en_passant == NO_SQUARE || on_board(en_passant),
    ensures
        decoded(fen_text(board, side, rights, en_passant)) == Some(
            (board, side, rights, en_passant),
        ),
{
    let placement = ranks_text(board, 0);
    let side_field = side_text(side);
    let rights_field = rights_text(rights);
    let target_field = target_text(en_passant);
    let text = fen_text(board, side, rights, en_passant);
    let end0 = placement.len() as int;
    let end1 = end0 + 2;
    let end2 = end1 + 1 + rights_field.len();
    let end3 = text.len() as int;
    lemma_ranks_text_has_no_space(board, 0);
    lemma_placement_round_trip(board);
    lemma_rights_round_trip(rights);
    if en_passant != NO_SQUARE {
        lemma_square_name_round_trip(en_passant);
    }
    assert(has_no_space(target_field));
    assert(text.len() == end2 + 1 + target_field.len());
    assert forall|k: int| 0 <= k < end0 implies text[k] != ' ' by {
        assert(text[k] == placement[k]);
    }
    assert(text[end0] == ' ');
    assert(text[end0 + 1] == side_field[0]);
    assert(text[end1] == ' ');
    assert forall|k: int| end1 + 1 <= k < end2 implies text[k] != ' ' by {
        assert(text[k] == rights_field[k - end1 - 1]);
    }
    assert(text[end2] == ' ');
    assert forall|k: int| end2 + 1 <= k < end3 implies text[k] != ' ' by {
        assert(text[k] == target_field[k - end2 - 1]);
    }
    lemma_next_space_found(text, 0, end0);
    lemma_next_space_found(text, end0 + 1, end1);
    lemma_next_space_found(text, end1 + 1, end2);
    lemma_next_space_found(text, end2 + 1, end3);
    assert(text.subrange(0, end0) =~= placement);
    assert(text.subrange(end0 + 1, end1) =~= seq![side_field[0]]);
    assert(text.subrange(end1 + 1, end2) =~= rights_field);
    assert(text.subrange(end2 + 1, end3) =~= target_field);
}

proof fn lemma_placement_from_valid(acc: Seq<Piece>, text: Seq<char>)
    requires
        forall|i: int| 0 <= i < acc.len() ==> (#[trigger] acc[i]).wf(),
        placement_from(acc, text) is Some,
    ensures
        forall|i: int|
            0 <= i < placement_from(acc, text)->0.len() ==> (#[trigger] placement_from(
                acc,
                text,
            )->0[i]).wf(),
    decreases text.len(),
{
    if text.len() > 0 {
        let next = placement_step(acc, text[0])->0;
        lemma_placement_from_valid(next, text.drop_first());
    }
}

/// A text that describes a position describes one that can be written: its
/// board is valid, a side is to move, and the en-passant target is a square
/// of the board or no square.
pub proof fn lemma_decoded_position_valid(text: Seq<char>)
    requires
        decoded(text) is Some,
    ensures
        ({
            let position = decoded(text)->0;
            &&& valid_board(position.0)
            &&& position.1 != PieceColour::Empty
            &&& position.3 == NO_SQUARE || on_board(position.3)
        }),
{
    let fields = fen_fields(text)->0;
    lemma_placement_from_valid(Seq::empty(), fields.0);
    if target_of(fields.3) != Some(NO_SQUARE as int) {
        lemma_named_square_on_board(fields.3);
    }
}

/// Writing a position that was read from a text, and reading it again, gives
/// the same position: the same board, side to move, castling rights and
/// en-passant target. The side-to-move field is written as it was read, and
/// what was written is written in the same way again.
pub proof fn lemma_encode_keeps_decoded_position(text: Seq<char>)
    requires
        decoded(text) is Some,
    ensures
        ({
            let position = decoded(text)->0;
            let written = fen_text(position.0, position.1, position.2, position.3);
            let fields_written = fen_fields(written)->0;
            let fields_read = fen_fields(text)->0;
            let again = decoded(written)->0;
            &&& decoded(written) == decoded(text)
            &&& fen_fields(written) is Some
            &&& fields_written.1 == fields_read.1
            &&& fen_text(again.0, again.1, again.2, again.3) == written
        }),
{
    let position = decoded(text)->0;
    let written = fen_text(position.0, position.1, position.2, position.3);
    lemma_decoded_position_valid(text);
    lemma_decode_inverts_encode(position.0, position.1, position.2, position.3);
    let fields_written = fen_fields(written)->0;
    let fields_read = fen_fields(text)->0;
    assert(fields_read.1 =~= fields_written.1);
}

fn find_space(chars: &Vec<char>, from: usize) -> (end: usize)
    requires
        from <= chars@.len(),
    ensures
        end == next_space(chars@, from as int),
        from <= end <= chars@.len(),
{
    let mut end: usize = from;
    while end < chars.len() && chars[end] != ' '
        invariant
            from <= end <= chars@.len(),
            next_space(chars@, from as int) == next_space(chars@, end as int),
        decreases chars@.len() - end,
    {
        end = end + 1;
    }
    end
}

fn piece_from_letter(c: char) -> (r: Option<Piece>)
    ensures
        r == piece_of_letter(c),
{
    let kind = match c {
        'P' | 'p' => PieceType::Pawn,
        'R' | 'r' => PieceType::Rook,
        'N' | 'n' => PieceType::Knight,
        'B' | 'b' => PieceType::Bishop,
        'Q' | 'q' => PieceType::Queen,
        'K' | 'k' => PieceType::King,
        _ => {
            return None;
        },
    };
    let colour = if 'A' <= c && c <= 'Z' {
        PieceColour::White
    } else {
        PieceColour::Black
    };
    Some(Piece { piece_type: kind, piece_colour: colour })
}

fn parse_placement(chars: &Vec<char>, lo: usize, hi: usize) -> (r: Option<Vec<Piece>>)
    requires
        lo <= hi <= chars@.len(),
    ensures
        match r {
            Some(board) => placement_squares(chars@.subrange(lo as int, hi as int)) == Some(
                board@,
            ),
            None => placement_squares(chars@.subrange(lo as int, hi as int)) is None,
        },
{
    let ghost field = chars@.subrange(lo as int, hi as int);
    let mut board: Vec<Piece> = Vec::new();
    let mut i: usize = lo;
    assert(field.subrange(0, field.len() as int) =~= field);
    while i < hi
        invariant
            lo <= i <= hi <= chars@.len(),
            field == chars@.subrange(lo as int, hi as int),
            placement_squares(field) == placement_from(
                board@,
                field.subrange(i - lo, field.len() as int),
            ),
        decreases hi - i,
    {
        let c = chars[i];
        let ghost rest = field.subrange(i - lo, field.len() as int);
        assert(rest[0] == c);
        assert(rest.drop_first() =~= field.subrange(i + 1 - lo, field.len() as int));
        if c == '/' {
        } else if '0' <= c && c <= '9' {
            let run: u32 = c as u32 - '0' as u32;
            let ghost before = board@;
            let mut k: u32 = 0;
            while k < run
                invariant
                    0 <= k <= run,
                    board@ == before + empty_squares(k as int),
                decreases run - k,
            {
                board.push(Piece { piece_type: PieceType::Empty, piece_colour: PieceColour::Empty });
                assert(board@ =~= before + empty_squares(k + 1));
                k = k + 1;
            }
        } else {
            match piece_from_letter(c) {
                Some(piece) => {
                    board.push(piece);
                },
                None => {
                    return None;
                },
            }
        }
        i = i + 1;
    }
    Some(board)
}

fn parse_side(chars: &Vec<char>, lo: usize, hi: usize) -> (r: Option<PieceColour>)
    requires
        lo <= hi <= chars@.len(),
    ensures
        r == side_of(chars@.subrange(lo as int, hi as int)),
{
    if hi - lo != 1 {
        return None;
    }
    assert(chars@.subrange(lo as int, hi as int)[0] == chars@[lo as int]);
    if chars[lo] == 'w' {
        Some(PieceColour::White)
    } else if chars[lo] == 'b' {
        Some(PieceColour::Black)
    } else {
        None
    }
}

fn parse_rights(chars: &Vec<char>, lo: usize, hi: usize) -> (r: Option<(bool, bool, bool, bool)>)
    requires
        lo <= hi <= chars@.len(),
    ensures
        r == rights_of(chars@.subrange(lo as int, hi as int)),
{
    let ghost field = chars@.subrange(lo as int, hi as int);
    let mut rights = (false, false, false, false);
    let mut i: usize = lo;
    assert(field.subrange(0, field.len() as int) =~= field);
    while i < hi
        invariant
            lo <= i <= hi <= chars@.len(),
            field == chars@.subrange(lo as int, hi as int),
            rights_of(field) == rights_from(rights, field.subrange(i - lo, field.len() as int)),
        decreases hi - i,
    {
        let c = chars[i];
        let ghost rest = field.subrange(i - lo, field.len() as int);
        assert(rest[0] == c);
        assert(rest.drop_first() =~= field.subrange(i + 1 - lo, field.len() as int));
        if c == 'K' {
            rights = (true, rights.1, rights.2, rights.3);
        } else if c == 'Q' {
            rights = (rights.0, true, rights.2, rights.3);
        } else if c == 'k' {
            rights = (rights.0, rights.1, true, rights.3);
        } else if c == 'q' {
            rights = (rights.0, rights.1, rights.2, true);
        } else if c == '-' {
            rights = (false, false, false, false);
        } else {
            return None;
        }
        i = i + 1;
    }
    Some(rights)
}

fn parse_target(chars: &Vec<char>, lo: usize, hi: usize) -> (r: Option<i32>)
    requires
        lo <= hi <= chars@.len(),
    ensures
        match r {
            Some(sq) => target_of(chars@.subrange(lo as int, hi as int)) == Some(sq as int),
            None => target_of(chars@.subrange(lo as int, hi as int)) is None,
        },
{
    if hi - lo == 1 {
        assert(chars@.subrange(lo as int, hi as int)[0] == chars@[lo as int]);
        if chars[lo] == '-' {
            return Some(NO_SQUARE);
        }
    }
    parse_square(chars, lo, hi)
}

/// Reads a position from its text: the board, the side to move, the castling
/// rights and the en-passant target. A text that describes no position gives
/// a board without squares, no side, no rights and no target.
pub fn decode_fen(fen_string: &str) -> (r: (Vec<Piece>, PieceColour, (bool, bool, bool, bool), i32))
    ensures
        match decoded(fen_string@) {
            Some(position) => {
                &&& r.0@ == position.0
                &&& r.1 == position.1
                &&& r.2 == position.2
                &&& r.3 == position.3
            },
            None => {
                &&& r.0@.len() == 0
                &&& r.1 == PieceColour::Empty
                &&& r.2 == (false, false, false, false)
                &&& r.3 == NO_SQUARE
            },
        },
        decoded(fen_string@) is Some <==> r.0@.len() == 64,
        r.0@.len() == 64 ==> valid_board(r.0@) && r.1 != PieceColour::Empty && (r.3 == NO_SQUARE
            || on_board(r.3 as int)),
{
    proof {
        if decoded(fen_string@) is Some {
            lemma_decoded_position_valid(fen_string@);
        }
    }
    let failure = (Vec::new(), PieceColour::Empty, (false, false, false, false), NO_SQUARE);
    let chars = chars_of(fen_string);
    let n = chars.len();
    let end0 = find_space(&chars, 0);
    if end0 >= n {
        return failure;
    }
    let end1 = find_space(&chars, end0 + 1);
    if end1 >= n {
        return failure;
    }
    let end2 = find_space(&chars, end1 + 1);
    if end2 >= n {
        return failure;
    }
    let end3 = find_space(&chars, end2 + 1);
    let board = match parse_placement(&chars, 0, end0) {
        Some(board) => board,
        None => {
            return failure;
        },
    };
    if board.len() != 64 {
        return failure;
    }
    let side = match parse_side(&chars, end0 + 1, end1) {
        Some(side) => side,
        None => {
            return failure;
        },
    };
    let rights = match parse_rights(&chars, end1 + 1, end2) {
        Some(rights) => rights,
        None => {
            return failure;
        },
    };
    let target = match parse_target(&chars, end2 + 1, end3) {
        Some(target) => target,
        None => {
            return failure;
        },
    };
    (board, side, rights, target)
}

fn push_piece(text: &mut String, piece: Piece)
    ensures
        final(text)@ == old(text)@ + piece_text(piece),
{
    let ghost before = text@;
    let letter: &str = match piece.piece_colour {
        PieceColour::White => match piece.piece_type {
            PieceType::Pawn => "P",
            PieceType::Rook => "R",
            PieceType::Knight => "N",
            PieceType::Bishop => "B",
            PieceType::Queen => "Q",
            PieceType::King => "K",
            PieceType::Empty => "",
        },
        PieceColour::Black => match piece.piece_type {
            PieceType::Pawn => "p",
            PieceType::Rook => "r",
            PieceType::Knight => "n",
            PieceType::Bishop => "b",
            PieceType::Queen => "q",
            PieceType::King => "k",
            PieceType::Empty => "",
        },
        PieceColour::Empty => "",
    };
    proof {
        reveal_strlit("P");
        reveal_strlit("R");
        reveal_strlit("N");
        reveal_strlit("B");
        reveal_strlit("Q");
        reveal_strlit("K");
        reveal_strlit("p");
        reveal_strlit("r");
        reveal_strlit("n");
        reveal_strlit("b");
        reveal_strlit("q");
        reveal_strlit("k");
        reveal_strlit("");
    }
    assert(letter@ =~= piece_text(piece));
    text.append(letter);
}

fn push_run(text: &mut String, run: i32)
    requires
        0 <= run <= 8,
    ensures
        final(text)@ == old(text)@ + run_text(run as int),
{
    let ghost before = text@;
    if run > 0 {
        push_digit(text, run);
        assert(text@ =~= before + run_text(run as int));
    } else {
        assert(text@ =~= before + run_text(run as int));
    }
}

fn push_placement(text: &mut String, board: &Vec<Piece>)
    requires
        board@.len() == 64,
    ensures
        final(text)@ == old(text)@ + ranks_text(board@, 0),
{
    let ghost all = text@ + ranks_text(board@, 0);
    let mut rank: usize = 0;
    while rank < 8
        invariant
            board@.len() == 64,
            0 <= rank <= 8,
            all == text@ + ranks_text(board@, rank as int),
        decreases 8 - rank,
    {
        let ghost later = if rank == 7 {
            Seq::<char>::empty()
        } else {
            seq!['/'] + ranks_text(board@, rank + 1)
        };
        assert(ranks_text(board@, rank as int) =~= rank_text(board@, rank as int, 0, 0) + later);
        let mut num_empty: i32 = 0;
        let mut file: usize = 0;
        while file < 8
            invariant
                board@.len() == 64,
                0 <= rank < 8,
                0 <= file <= 8,
                0 <= num_empty <= file,
                all == text@ + rank_text(board@, rank as int, file as int, num_empty as int)
                    + later,
            decreases 8 - file,
        {
            let piece = board[file + rank * 8];
            let ghost before = text@;
            let ghost tail = rank_text(board@, rank as int, file + 1, 0);
            if piece.piece_type == PieceType::Empty {
                num_empty = num_empty + 1;
            } else {
                push_run(text, num_empty);
                push_piece(text, piece);
                assert(before + (run_text(num_empty as int) + piece_text(piece) + tail) + later
                    =~= text@ + tail + later);
                num_empty = 0;
            }
            file = file + 1;
        }
        push_run(text, num_empty);
        if rank != 7 {
            let ghost before = text@;
            text.append("/");
            proof {
                reveal_strlit("/");
            }
            assert(before + (seq!['/'] + ranks_text(board@, rank + 1)) =~= text@ + ranks_text(
                board@,
                rank + 1,
            ));
        } else {
            assert(text@ + Seq::<char>::empty() =~= text@);
            assert(text@ + ranks_text(board@, 8) =~= text@);
        }
        rank = rank + 1;
    }
    assert(text@ + ranks_text(board@, 8) =~= text@);
}

fn push_rights(text: &mut String, castling_rights: (bool, bool, bool, bool))
    ensures
        final(text)@ == old(text)@ + rights_text(castling_rights),
{
    let ghost before = text@;
    proof {
        reveal_strlit("K");
        reveal_strlit("Q");
        reveal_strlit("k");
        reveal_strlit("q");
        reveal_strlit("-");
    }
    if castling_rights.0 {
        text.append("K");
    }
    if castling_rights.1 {
        text.append("Q");
    }
    if castling_rights.2 {
        text.append("k");
    }
    if castling_rights.3 {
        text.append("q");
    }
    assert(text@ =~= before + rights_letters(castling_rights));
    if !castling_rights.0 && !castling_rights.1 && !castling_rights.2 && !castling_rights.3 {
        text.append("-");
    }
    assert(text@ =~= before + rights_text(castling_rights));
}

/// Writes a position as text.
pub fn encode_into_fen(
    board: &Vec<Piece>,
    colours_turn: PieceColour,
    castling_rights: (bool, bool, bool, bool),
    en_passant_move: i32,
) -> (fen_string: String)
    requires
        board@.len() == 64,
        en_passant_move == NO_SQUARE || on_board(en_passant_move as int),
    ensures
        fen_string@ == fen_text(board@, colours_turn, castling_rights, en_passant_move as int),
{
    let mut fen_string = String::new();
    proof {
        reveal_strlit(" ");
        reveal_strlit("w ");
        reveal_strlit("b ");
        reveal_strlit("-");
    }
    push_placement(&mut fen_string, board);
    fen_string.append(" ");
    match colours_turn {
        PieceColour::White => {
            fen_string.append("w ");
        },
        PieceColour::Black => {
            fen_string.append("b ");
        },
        PieceColour::Empty => {},
    }
    assert(fen_string@ =~= ranks_text(board@, 0) + seq![' '] + side_text(colours_turn));
    push_rights(&mut fen_string, castling_rights);
    fen_string.append(" ");
    let ghost before = fen_string@;
    if en_passant_move == NO_SQUARE {
        fen_string.append("-");
    } else {
        push_square_name(&mut fen_string, en_passant_move);
    }
    assert(fen_string@ =~= before + target_text(en_passant_move as int));
    assert(fen_string@ =~= fen_text(
        board@,
        colours_turn,
        castling_rights,
        en_passant_move as int,
    ));
    fen_string
}

} // verus!
