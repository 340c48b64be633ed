//! The picture of a board as lines of text.
//!
//! The picture is put together from drawings of nine lines each, kept in a
//! table: drawing 0 is blank, 1 to 6 are the pawn, rook, knight, bishop, queen
//! and king, 7 to 14 the letters of the files and 15 to 22 the digits of the
//! ranks from 1 to 8. In a drawing `#` marks the ground of a square. The
//! ground of a dark square is blanked; where a move of the chosen piece ends,
//! ground and blanks are marked in colour, in green on a piece and in yellow
//! on an empty square.

use vstd::prelude::*;
use crate::board::{Piece, PieceType, PieceColour, Move};
use crate::movegen::{reaches, any_move_reaches};
use crate::notation::chars_of;

verus! {

/// `line` with `to` in place of every `from`.
pub open spec fn replace_char(line: Seq<char>, from: char, to: Seq<char>) -> Seq<char>
    decreases line.len(),
{
    if line.len() == 0 {
        Seq::empty()
    } else if line.last() == from {
        replace_char(line.drop_last(), from, to) + to
    } else {
        replace_char(line.drop_last(), from, to).push(line.last())
    }
}

/// The character `mark` in the terminal colour with the digit `code`.
pub open spec fn in_colour(code: char, mark: char) -> Seq<char> {
    seq!['\x1b', '[', '3', code, 'm', mark, '\x1b', '[', '0', 'm']
}

/// The block that the drawings of the pieces are made of.
pub open spec fn block() -> char {
    '\u{25A0}'
}

/// The place in the table of the drawing of a kind of piece.
pub open spec fn piece_drawing(kind: PieceType) -> int {
    match kind {
        PieceType::Empty => 0,
        PieceType::Pawn => 1,
        PieceType::Rook => 2,
        PieceType::Knight => 3,
        PieceType::Bishop => 4,
        PieceType::Queen => 5,
        PieceType::King => 6,
    }
}

/// The place in the table of the drawing that stands to the left of `row`:
/// the digit of the rank, and the blank drawing beside the row of file
/// letters.
pub open spec fn row_drawing(row: int) -> int {
    if 0 <= row < 8 {
        22 - row
    } else {
        0
    }
}

/// The place in the table of the letter of `file`.
pub open spec fn file_drawing(file: int) -> int {
    7 + file
}

/// Whether the square on `rank` and `file` is drawn without ground.
pub open spec fn is_dark(rank: int, file: int) -> bool {
    (rank + 1) % 2 != (file + 1) % 2
}

/// A line of a letter or a digit: the line of the drawing without its ground.
pub open spec fn label_cell(art: Seq<char>) -> Seq<char> {
    replace_char(art, '#', seq![' '])
}

/// A line of a square that holds `piece`, from the line `art` of the drawing
/// of that piece: without ground on a dark square, with the blocks of a black
/// piece in black, and with ground and blanks marked if the square is `lit`.
pub open spec fn square_cell(art: Seq<char>, piece: Piece, dark: bool, lit: bool) -> Seq<char> {
    let shaded = if dark {
        replace_char(art, '#', seq![' '])
    } else {
        art
    };
    let inked = if piece.piece_colour == PieceColour::Black {
        replace_char(shaded, block(), in_colour('0', block()))
    } else {
        shaded
    };
    let code = if piece.piece_type != PieceType::Empty {
        '2'
    } else {
        '3'
    };
    if lit {
        replace_char(replace_char(inked, '#', in_colour(code, '@')), ' ', in_colour(code, '*'))
    } else {
        inked
    }
}

/// Line `i` of the drawing at place `k` of the table.
pub open spec fn drawing_line(table: Seq<Vec<Vec<char>>>, k: int, i: int) -> Seq<char> {
    table[k]@[i]@
}

/// Line `i` of what is drawn in `row` for `file`: the square of that rank and
/// file in the rows 0 to 7, and the letter of the file in row 8.
pub open spec fn cell_line(
    board: Seq<Piece>,
    moves: Seq<Move>,
    table: Seq<Vec<Vec<char>>>,
    row: int,
    file: int,
    i: int,
) -> Seq<char> {
    if row == 8 {
        label_cell(drawing_line(table, file_drawing(file), i))
    } else {
        let piece = board[row * 8 + file];
        square_cell(
            drawing_line(table, piece_drawing(piece.piece_type), i),
            piece,
            is_dark(row, file),
            reaches(moves, row * 8 + file),
        )
    }
}

/// Line `i` of `row` from `file` on.
pub open spec fn cells_line(
    board: Seq<Piece>,
    moves: Seq<Move>,
    table: Seq<Vec<Vec<char>>>,
    row: int,
    file: int,
    i: int,
) -> Seq<char>
    decreases 8 - file,
{
    if file < 0 || file >= 8 {
        Seq::empty()
    } else {
        cell_line(board, moves, table, row, file, i) + cells_line(
            board,
            moves,
            table,
            row,
            file + 1,
            i,
        )
    }
}

/// Line `i` of `row`: the digit of the rank, then the eight squares.
pub open spec fn board_line(
    board: Seq<Piece>,
    moves: Seq<Move>,
    table: Seq<Vec<Vec<char>>>,
    row: int,
    i: int,
) -> Seq<char> {
    label_cell(drawing_line(table, row_drawing(row), i)) + cells_line(
        board,
        moves,
        table,
        row,
        0,
        i,
    )
}

/// A table from which a board can be drawn: it holds the 23 drawings, of nine
/// lines each.
pub open spec fn table_complete(table: Seq<Vec<Vec<char>>>) -> bool {
    &&& table.len() >= 23
    &&& forall|k: int| 0 <= k < 23 ==> (#[trigger] table[k])@.len() == 9
}

/// The index of the first line feed in `text` at or after `from`, and the
/// length of `text` if there is none.
pub open spec fn next_break(text: Seq<char>, from: int) -> int
    decreases text.len() - from,
{
    if from >= text.len() {
        text.len() as int
    } else if text[from] == '\n' {
        from
    } else {
        next_break(text, from + 1)
    }
}

/// The lines of `text` from `from` on, where a line feed ends a line. A text
/// that ends in a line feed has an empty last line.
pub open spec fn lines_from(text: Seq<char>, from: int) -> Seq<Seq<char>>
    decreases text.len() - from,
{
    let end = next_break(text, from);
    if from < 0 || end < from || end >= text.len() {
        seq![text.subrange(from, text.len() as int)]
    } else {
        seq![text.subrange(from, end)] + lines_from(text, end + 1)
    }
}

/// The drawings that `text` holds: its lines in groups of nine, one group
/// after the other. Lines that are left over after the last full group belong
/// to no drawing.
pub open spec fn drawings_of(text: Seq<char>) -> Seq<Seq<Seq<char>>> {
    let lines = lines_from(text, 0);
    Seq::new((lines.len() / 9) as nat, |k: int| lines.subrange(9 * k, 9 * k + 9))
}

fn replace_in_line(line: &Vec<char>, from: char, to: &Vec<char>) -> (replaced: Vec<char>)
    ensures
        replaced@ == replace_char(line@, from, to@),
{
    let mut replaced: Vec<char> = Vec::new();
    let mut i: usize = 0;
    assert(line@.take(0) =~= Seq::<char>::empty());
    while i < line.len()
        invariant
            0 <= i <= line@.len(),
            replaced@ == replace_char(line@.take(i as int), from, to@),
        decreases line@.len() - i,
    {
        assert(line@.take(i + 1).drop_last() =~= line@.take(i as int));
        assert(line@.take(i + 1).last() == line@[i as int]);
        if line[i] == from {
            let ghost before = replaced@;
            let mut k: usize = 0;
            while k < to.len()
                invariant
                    0 <= k <= to@.len(),
                    replaced@ == before + to@.take(k as int),
                decreases to@.len() - k,
            {
                replaced.push(to[k]);
                assert(replaced@ =~= before + to@.take(k + 1));
                k = k + 1;
            }
            assert(to@.take(to@.len() as int) =~= to@);
        } else {
            replaced.push(line[i]);
        }
        i = i + 1;
    }
    assert(line@.take(line@.len() as int) =~= line@);
    replaced
}

fn colour_mark(code: char, mark: char) -> (r: Vec<char>)
    ensures
        r@ == in_colour(code, mark),
{
    let r = vec!['\x1b', '[', '3', code, 'm', mark, '\x1b', '[', '0', 'm'];
    assert(r@ =~= in_colour(code, mark));
    r
}

fn blank_mark() -> (r: Vec<char>)
    ensures
        r@ == seq![' '],
{
    let r = vec![' '];
    assert(r@ =~= seq![' ']);
    r
}

fn drawing_of(kind: PieceType) -> (k: usize)
    ensures
        k == piece_drawing(kind),
{
    match kind {
        PieceType::Empty => 0,
        PieceType::Pawn => 1,
        PieceType::Rook => 2,
        PieceType::Knight => 3,
        PieceType::Bishop => 4,
        PieceType::Queen => 5,
        PieceType::King => 6,
    }
}

fn append_chars(line: &mut Vec<char>, cell: &Vec<char>)
    ensures
        final(line)@ == old(line)@ + cell@,
{
    let ghost before = line@;
    let mut k: usize = 0;
    assert(line@ =~= before + cell@.take(0));
    while k < cell.len()
        invariant
            0 <= k <= cell@.len(),
            line@ == before + cell@.take(k as int),
        decreases cell@.len() - k,
    {
        line.push(cell[k]);
        assert(line@ =~= before + cell@.take(k + 1));
        k = k + 1;
    }
    assert(cell@.take(cell@.len() as int) =~= cell@);
}

fn draw_square(art: &Vec<char>, piece: Piece, dark: bool, lit: bool) -> (cell: Vec<char>)
    ensures
        cell@ == square_cell(art@, piece, dark, lit),
{
    let mut cell = if dark {
        replace_in_line(art, '#', &blank_mark())
    } else {
        art.clone()
    };
    if piece.piece_colour == PieceColour::Black {
        cell = replace_in_line(&cell, '\u{25A0}', &colour_mark('0', '\u{25A0}'));
    }
    if lit {
        let code = if piece.piece_type != PieceType::Empty {
            '2'
        } else {
            '3'
        };
        cell = replace_in_line(&cell, '#', &colour_mark(code, '@'));
        cell = replace_in_line(&cell, ' ', &colour_mark(code, '*'));
    }
    cell
}

/// The picture of `board` as 81 lines, nine for each of the eight ranks from
/// the eighth down and nine for the letters of the files, with the squares
/// marked on which one of `piece_moves` ends. Line `j` of the picture is line
/// `j % 9` of row `j / 9`.
pub fn render_board(board: &Vec<Piece>, piece_moves: &Vec<Move>, piece_art: &Vec<Vec<Vec<char>>>) -> (lines:
    Vec<Vec<char>>)
    requires
        board@.len() == 64,
        table_complete(piece_art@),
    ensures
        lines@.len() == 81,
        forall|j: int|
            0 <= j < 81 ==> (#[trigger] lines@[j])@ == board_line(
                board@,
                piece_moves@,
                piece_art@,
                j / 9,
                j % 9,
            ),
{
    let mut lines: Vec<Vec<char>> = Vec::new();
    let mut rank: usize = 0;
    while rank < 9
        invariant
            board@.len() == 64,
            table_complete(piece_art@),
            0 <= rank <= 9,
            lines@.len() == rank * 9,
            forall|row: int, i: int|
                0 <= row < rank && 0 <= i < 9 ==> (#[trigger] lines@[row * 9 + i])@ == board_line(
                    board@,
                    piece_moves@,
                    piece_art@,
                    row,
                    i,
                ),
        decreases 9 - rank,
    {
        let label: usize = if rank < 8 {
            22 - rank
        } else {
            0
        };
        let mut i: usize = 0;
        while i < 9
            invariant
                board@.len() == 64,
                table_complete(piece_art@),
                0 <= rank < 9,
                label == row_drawing(rank as int),
                0 <= i <= 9,
                lines@.len() == rank * 9 + i,
                forall|row: int, j: int|
                    0 <= row < rank && 0 <= j < 9 ==> (#[trigger] lines@[row * 9 + j])@
                        == board_line(board@, piece_moves@, piece_art@, row, j),
                forall|j: int|
                    0 <= j < i ==> (#[trigger] lines@[rank * 9 + j])@ == board_line(
                        board@,
                        piece_moves@,
                        piece_art@,
                        rank as int,
                        j,
                    ),
            decreases 9 - i,
        {
            assert(piece_art@[label as int]@.len() == 9);
            let mut line = replace_in_line(&piece_art[label][i], '#', &blank_mark());
            let ghost whole = board_line(board@, piece_moves@, piece_art@, rank as int, i as int);
            let mut file: usize = 0;
            while file < 8
                invariant
                    board@.len() == 64,
                    table_complete(piece_art@),
                    0 <= rank < 9,
                    0 <= i < 9,
                    0 <= file <= 8,
                    whole == line@ + cells_line(
                        board@,
                        piece_moves@,
                        piece_art@,
                        rank as int,
                        file as int,
                        i as int,
                    ),
                decreases 8 - file,
            {
                let ghost before = line@;
                let ghost here = cell_line(
                    board@,
                    piece_moves@,
                    piece_art@,
                    rank as int,
                    file as int,
                    i as int,
                );
                let ghost tail = cells_line(
                    board@,
                    piece_moves@,
                    piece_art@,
                    rank as int,
                    file + 1,
                    i as int,
                );
                let cell = if rank == 8 {
                    assert(piece_art@[7 + file]@.len() == 9);
                    replace_in_line(&piece_art[7 + file][i], '#', &blank_mark())
                } else {
                    let index: usize = file + rank * 8;
                    let piece = board[index];
                    let drawing = drawing_of(piece.piece_type);
                    assert(piece_art@[drawing as int]@.len() == 9);
                    let dark = (rank + 1) % 2 != (file + 1) % 2;
                    let lit = any_move_reaches(piece_moves, index as i32);
                    draw_square(&piece_art[drawing][i], piece, dark, lit)
                };
                append_chars(&mut line, &cell);
                assert(before + (here + tail) =~= line@ + tail);
                file = file + 1;
            }
            assert(line@ + Seq::<char>::empty() =~= line@);
            let ghost earlier = lines@;
            lines.push(line);
            assert forall|row: int, j: int| 0 <= row < rank && 0 <= j < 9 implies (
            #[trigger] lines@[row * 9 + j])@ == board_line(
                board@,
                piece_moves@,
                piece_art@,
                row,
                j,
            ) by {
                assert(lines@[row * 9 + j] == earlier[row * 9 + j]);
            }
            assert forall|j: int| 0 <= j < i + 1 implies (#[trigger] lines@[rank * 9 + j])@
                == board_line(board@, piece_moves@, piece_art@, rank as int, j) by {
                if j < i {
                    assert(lines@[rank * 9 + j] == earlier[rank * 9 + j]);
                }
            }
            i = i + 1;
        }
        assert forall|row: int, j: int| 0 <= row < rank + 1 && 0 <= j < 9 implies (
        #[trigger] lines@[row * 9 + j])@ == board_line(
            board@,
            piece_moves@,
            piece_art@,
            row,
            j,
        ) by {
            if row == rank {
                assert(lines@[rank * 9 + j]@ == board_line(
                    board@,
                    piece_moves@,
                    piece_art@,
                    rank as int,
                    j,
                ));
            }
        }
        rank = rank + 1;
    }
    assert forall|j: int| 0 <= j < 81 implies (#[trigger] lines@[j])@ == board_line(
        board@,
        piece_moves@,
        piece_art@,
        j / 9,
        j % 9,
    ) by {
        assert(lines@[(j / 9) * 9 + j % 9]@ == board_line(
            board@,
            piece_moves@,
            piece_art@,
            j / 9,
            j % 9,
        ));
    }
    lines
}

fn find_break(chars: &Vec<char>, from: usize) -> (end: usize)
    requires
        from <= chars@.len(),
    ensures
        end == next_break(chars@, from as int),
        from <= end <= chars@.len(),
{
    let mut end: usize = from;
    while end < chars.len() && chars[end] != '\n'
        invariant
            from <= end <= chars@.len(),
            next_break(chars@, from as int) == next_break(chars@, end as int),
        decreases chars@.len() - end,
    {
        end = end + 1;
    }
    end
}

fn copy_range(chars: &Vec<char>, lo: usize, hi: usize) -> (line: Vec<char>)
    requires
        lo <= hi <= chars@.len(),
    ensures
        line@ == chars@.subrange(lo as int, hi as int),
{
    let mut line: Vec<char> = Vec::new();
    let mut i: usize = lo;
    while i < hi
        invariant
            lo <= i <= hi <= chars@.len(),
            line@ == chars@.subrange(lo as int, i as int),
        decreases hi - i,
    {
        line.push(chars[i]);
        assert(line@ =~= chars@.subrange(lo as int, i + 1));
        i = i + 1;
    }
    line
}

/// The table of drawings that the text of a drawing file holds.
pub fn parse_board_art(file_contents: &str) -> (piece_arts: Vec<Vec<Vec<char>>>)
    ensures
        piece_arts@.len() == drawings_of(file_contents@).len(),
        forall|k: int|
            0 <= k < piece_arts@.len() ==> (#[trigger] piece_arts@[k])@.len() == 9,
        forall|k: int, i: int|
            0 <= k < piece_arts@.len() && 0 <= i < 9 ==> (#[trigger] piece_arts@[k]@[i])@
                == drawings_of(file_contents@)[k][i],
{
    let chars = chars_of(file_contents);
    let n = chars.len();
    let ghost all = lines_from(chars@, 0);
    let ghost mut done: Seq<Seq<char>> = Seq::empty();
    let mut piece_arts: Vec<Vec<Vec<char>>> = Vec::new();
    let mut piece_art: Vec<Vec<char>> = Vec::new();
    let mut pos: usize = 0;
    let mut finished = false;
    assert(done + lines_from(chars@, 0) =~= all);
    while !finished
        invariant
            n == chars@.len(),
            pos <= n,
            !finished ==> all == done + lines_from(chars@, pos as int),
            finished ==> all == done,
            done.len() == 9 * piece_arts@.len() + piece_art@.len(),
            piece_art@.len() < 9,
            forall|k: int| 0 <= k < piece_arts@.len() ==> (#[trigger] piece_arts@[k])@.len() == 9,
            forall|k: int, i: int|
                0 <= k < piece_arts@.len() && 0 <= i < 9 ==> (#[trigger] piece_arts@[k]@[i])@
                    == done[9 * k + i],
            forall|i: int|
                0 <= i < piece_art@.len() ==> (#[trigger] piece_art@[i])@ == done[9
                    * piece_arts@.len() + i],
        decreases n - pos + (if finished { 0int } else { 1int }),
    {
        let end = find_break(&chars, pos);
        let line = copy_range(&chars, pos, end);
        let ghost rest = if end >= n {
            Seq::<Seq<char>>::empty()
        } else {
            lines_from(chars@, end + 1)
        };
        proof {
            if end >= n {
                assert(chars@.subrange(pos as int, end as int) =~= chars@.subrange(
                    pos as int,
                    n as int,
                ));
            }
            assert(lines_from(chars@, pos as int) =~= seq![line@] + rest);
            assert(done + (seq![line@] + rest) =~= done.push(line@) + rest);
            done = done.push(line@);
        }
        piece_art.push(line);
        if piece_art.len() == 9 {
            let ghost group = piece_art@;
            piece_arts.push(piece_art);
            piece_art = Vec::new();
            assert forall|k: int, i: int|
                0 <= k < piece_arts@.len() && 0 <= i < 9 implies (#[trigger] piece_arts@[k]@[i])@
                == done[9 * k + i] by {
                if k == piece_arts@.len() - 1 {
                    assert(piece_arts@[k]@ == group);
                }
            }
        }
        if end >= n {
            finished = true;
            assert(done + rest =~= done);
        } else {
            pos = end + 1;
        }
    }
    proof {
        let table = drawings_of(file_contents@);
        assert(piece_arts@.len() == all.len() / 9);
        assert forall|k: int, i: int|
            0 <= k < piece_arts@.len() && 0 <= i < 9 implies (#[trigger] piece_arts@[k]@[i])@
            == table[k][i] by {
            assert(table[k] == all.subrange(9 * k, 9 * k + 9));
        }
    }
    piece_arts
}

} // verus!
