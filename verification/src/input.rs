//! Reading what a player has typed: the name of a square, or the name of the
//! piece that a pawn is promoted to.
//!
//! A line is read as it was typed, with its line ending. Blanks are the
//! space, the tab, the line feed and the carriage return.

use vstd::prelude::*;
use crate::board::{MoveFlag, NO_SQUARE, on_board};
use crate::notation::{square_of_name, parse_square, chars_of, lemma_named_square_on_board};

verus! {

/// Whether `c` is a blank.
pub open spec fn is_blank(c: char) -> bool {
    c == ' ' || c == '\t' || c == '\n' || c == '\r'
}

/// The length of `text` without the blanks at its end.
pub open spec fn end_of_text(text: Seq<char>) -> int
    decreases text.len(),
{
    if text.len() == 0 {
        0
    } else if is_blank(text.last()) {
        end_of_text(text.drop_last())
    } else {
        text.len() as int
    }
}

/// The index of the first character of `text` at or after `from` that is not
/// a blank, and the length of `text` if there is none.
pub open spec fn start_of_text(text: Seq<char>, from: int) -> int
    decreases text.len() - from,
{
    if from >= text.len() {
        text.len() as int
    } else if is_blank(text[from]) {
        start_of_text(text, from + 1)
    } else {
        from
    }
}

/// `text` without the blanks at its end.
pub open spec fn without_trailing_blanks(text: Seq<char>) -> Seq<char> {
    text.subrange(0, end_of_text(text))
}

/// `text` without the blanks at its start and at its end.
pub open spec fn without_blanks_around(text: Seq<char>) -> Seq<char> {
    if start_of_text(text, 0) >= end_of_text(text) {
        Seq::empty()
    } else {
        text.subrange(start_of_text(text, 0), end_of_text(text))
    }
}

/// Whether `c` is the lower-case letter `letter` in either case.
pub open spec fn is_letter(c: char, letter: char) -> bool {
    c == letter || c as int + 32 == letter as int
}

/// Whether `text` spells `word`, a word in lower-case letters, in any mix of
/// cases.
pub open spec fn spells(text: Seq<char>, word: Seq<char>) -> bool {
    &&& text.len() == word.len()
    &&& forall|i: int| 0 <= i < text.len() ==> is_letter(text[i], word[i])
}

/// The line that takes the player back to the choice of a piece.
pub open spec fn quit_line() -> Seq<char> {
    seq!['q', 'u', 'i', 't', '\n']
}

/// What a line means where a square is asked for: no square if the line is
/// `quit` and quitting is allowed; the square, if the line is the name of a
/// square with nothing but blanks after it. Any other line means nothing.
pub open spec fn square_input(line: Seq<char>, can_quit: bool) -> Option<int> {
    if can_quit && line == quit_line() {
        Some(NO_SQUARE as int)
    } else {
        square_of_name(without_trailing_blanks(line))
    }
}

/// What a line means where a promotion piece is asked for: the plain flag if
/// the line is `quit` and quitting is allowed; the flag of the piece, if the
/// line spells `rook`, `knight`, `bishop` or `queen` with nothing but blanks
/// around it. Any other line means nothing.
pub open spec fn promotion_input(line: Seq<char>, can_quit: bool) -> Option<MoveFlag> {
    let word = without_blanks_around(line);
    if can_quit && line == quit_line() {
        Some(MoveFlag::Normal)
    } else if spells(word, seq!['r', 'o', 'o', 'k']) {
        Some(MoveFlag::RookPromo)
    } else if spells(word, seq!['k', 'n', 'i', 'g', 'h', 't']) {
        Some(MoveFlag::KnightPromo)
    } else if spells(word, seq!['b', 'i', 's', 'h', 'o', 'p']) {
        Some(MoveFlag::BishopPromo)
    } else if spells(word, seq!['q', 'u', 'e', 'e', 'n']) {
        Some(MoveFlag::QueenPromo)
    } else {
        None
    }
}

fn blank(c: char) -> (r: bool)
    ensures
        r == is_blank(c),
{
    c == ' ' || c == '\t' || c == '\n' || c == '\r'
}

fn find_end(chars: &Vec<char>) -> (end: usize)
    ensures
        end == end_of_text(chars@),
        end <= chars@.len(),
{
    let mut end: usize = chars.len();
    assert(chars@.take(end as int) =~= chars@);
    while end > 0 && blank(chars[end - 1])
        invariant
            end <= chars@.len(),
            end_of_text(chars@) == end_of_text(chars@.take(end as int)),
        decreases end,
    {
        assert(chars@.take(end as int).drop_last() =~= chars@.take(end - 1));
        end = end - 1;
    }
    end
}

fn find_start(chars: &Vec<char>) -> (start: usize)
    ensures
        start == start_of_text(chars@, 0),
        start <= chars@.len(),
{
    let mut start: usize = 0;
    while start < chars.len() && blank(chars[start])
        invariant
            start <= chars@.len(),
            start_of_text(chars@, 0) == start_of_text(chars@, start as int),
        decreases chars@.len() - start,
    {
        start = start + 1;
    }
    start
}

fn is_quit_line(chars: &Vec<char>) -> (r: bool)
    ensures
        r == (chars@ == quit_line()),
{
    let r = chars.len() == 5 && chars[0] == 'q' && chars[1] == 'u' && chars[2] == 'i' && chars[3]
        == 't' && chars[4] == '\n';
    assert(r == (chars@ =~= quit_line()));
    r
}

fn spells_word(chars: &Vec<char>, lo: usize, hi: usize, word: &Vec<char>) -> (r: bool)
    requires
        lo <= hi <= chars@.len(),
        forall|i: int| 0 <= i < word@.len() ==> 'a' <= word@[i] && word@[i] <= 'z',
    ensures
        r == spells(chars@.subrange(lo as int, hi as int), word@),
{
    if hi - lo != word.len() {
        return false;
    }
    let ghost text = chars@.subrange(lo as int, hi as int);
    let mut i: usize = 0;
    while i < word.len()
        invariant
            lo <= hi <= chars@.len(),
            hi - lo == word@.len(),
            text == chars@.subrange(lo as int, hi as int),
            0 <= i <= word@.len(),
            forall|j: int| 0 <= j < word@.len() ==> 'a' <= word@[j] && word@[j] <= 'z',
            forall|j: int| 0 <= j < i ==> is_letter(text[j], word@[j]),
        decreases word@.len() - i,
    {
        let c = chars[lo + i];
        let letter = word[i];
        assert(text[i as int] == c);
        let same = c == letter || ('A' <= c && c <= 'Z' && c as u32 + 32 == letter as u32);
        if !same {
            assert(!is_letter(text[i as int], word@[i as int]));
            return false;
        }
        i = i + 1;
    }
    true
}

/// Reads the line that a player has typed where a square is asked for: the
/// square, or -1 if the player goes back to the choice of a piece. A line that
/// is neither gives nothing, and the player is asked again.
pub fn algebraic_notation_input(input: &str, can_quit: bool) -> (r: Option<i32>)
    ensures
        match r {
            Some(index) => {
                &&& square_input(input@, can_quit) == Some(index as int)
                &&& on_board(index as int) || (can_quit && index == NO_SQUARE)
            },
            None => square_input(input@, can_quit) is None,
        },
{
    let chars = chars_of(input);
    if can_quit && is_quit_line(&chars) {
        return Some(NO_SQUARE);
    }
    let end = find_end(&chars);
    proof {
        if square_of_name(without_trailing_blanks(input@)) is Some {
            lemma_named_square_on_board(without_trailing_blanks(input@));
        }
    }
    parse_square(&chars, 0, end)
}

/// Reads the line that a player has typed where a promotion piece is asked
/// for: the flag of the piece, or the plain flag if the player goes back to
/// the choice of a piece. A line that is neither gives nothing, and the player
/// is asked again.
pub fn promotion_type_input(input: &str, can_quit: bool) -> (r: Option<MoveFlag>)
    ensures
        r == promotion_input(input@, can_quit),
{
    let chars = chars_of(input);
    if can_quit && is_quit_line(&chars) {
        return Some(MoveFlag::Normal);
    }
    let end = find_end(&chars);
    let start = find_start(&chars);
    let (lo, hi) = if start >= end {
        (0, 0)
    } else {
        (start, end)
    };
    assert(chars@.subrange(lo as int, hi as int) =~= without_blanks_around(input@));
    let rook = vec!['r', 'o', 'o', 'k'];
    let knight = vec!['k', 'n', 'i', 'g', 'h', 't'];
    let bishop = vec!['b', 'i', 's', 'h', 'o', 'p'];
    let queen = vec!['q', 'u', 'e', 'e', 'n'];
    assert(rook@ =~= seq!['r', 'o', 'o', 'k']);
    assert(knight@ =~= seq!['k', 'n', 'i', 'g', 'h', 't']);
    assert(bishop@ =~= seq!['b', 'i', 's', 'h', 'o', 'p']);
    assert(queen@ =~= seq!['q', 'u', 'e', 'e', 'n']);
    if spells_word(&chars, lo, hi, &rook) {
        Some(MoveFlag::RookPromo)
    } else if spells_word(&chars, lo, hi, &knight) {
        Some(MoveFlag::KnightPromo)
    } else if spells_word(&chars, lo, hi, &bishop) {
        Some(MoveFlag::BishopPromo)
    } else if spells_word(&chars, lo, hi, &queen) {
        Some(MoveFlag::QueenPromo)
    } else {
        None
    }
}

} // verus!
