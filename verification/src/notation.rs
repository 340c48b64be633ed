//! The names of squares, such as `e4`: a file letter from `a` to `h` followed
//! by a rank digit from `1` to `8`.

use vstd::prelude::*;
use crate::board::{on_board, file_of, rank_of};

verus! {

/// The file that a letter names: `a` to `h`, in either case, for 0 to 7.
pub open spec fn file_of_letter(c: char) -> Option<int> {
    if 'a' <= c && c <= 'h' {
        Some(c as int - 'a' as int)
    } else if 'A' <= c && c <= 'H' {
        Some(c as int - 'A' as int)
    } else {
        None
    }
}

/// The rank index that a digit names: `8` to `1` for 0 to 7.
pub open spec fn rank_of_digit(c: char) -> Option<int> {
    if '1' <= c && c <= '8' {
        Some(8 - (c as int - '0' as int))
    } else {
        None
    }
}

/// The square that a two-character name stands for.
pub open spec fn square_of_name(name: Seq<char>) -> Option<int> {
    if name.len() == 2 {
        match (file_of_letter(name[0]), rank_of_digit(name[1])) {
            (Some(file), Some(rank)) => Some(file + rank * 8),
            _ => None,
        }
    } else {
        None
    }
}

/// The lower-case letter of a file.
pub open spec fn letter_of_file(file: int) -> char {
    if file == 0 {
        'a'
    } else if file == 1 {
        'b'
    } else if file == 2 {
        'c'
    } else if file == 3 {
        'd'
    } else if file == 4 {
        'e'
    } else if file == 5 {
        'f'
    } else if file == 6 {
        'g'
    } else {
        'h'
    }
}

/// The digit for a number from 1 to 8.
pub open spec fn digit_char(n: int) -> char {
    if n == 1 {
        '1'
    } else if n == 2 {
        '2'
    } else if n == 3 {
        '3'
    } else if n == 4 {
        '4'
    } else if n == 5 {
        '5'
    } else if n == 6 {
        '6'
    } else if n == 7 {
        '7'
    } else {
        '8'
    }
}

/// The name of a square: its file letter and the digit of its rank.
pub open spec fn name_of_square(sq: int) -> Seq<char> {
    seq![letter_of_file(file_of(sq)), digit_char(8 - rank_of(sq))]
}

/// The name of a square stands for that square.
pub proof fn lemma_square_name_round_trip(sq: int)
    requires
        on_board(sq),
    ensures
        square_of_name(name_of_square(sq)) == Some(sq),
{
}

/// A name stands for a square of the board.
pub proof fn lemma_named_square_on_board(name: Seq<char>)
    requires
        square_of_name(name) is Some,
    ensures
        on_board(square_of_name(name)->0),
{
}

/// The characters of `text`, one after the other.
pub(crate) fn chars_of(text: &str) -> (chars: Vec<char>)
    ensures
        chars@ == text@,
{
    let mut chars: Vec<char> = Vec::new();
    for c in it: text.chars()
        invariant
            it.seq() == text@,
            chars@ == it.seq().take(it.index() as int),
    {
        chars.push(c);
    }
    chars
}

/// The square named by the characters of `chars` from `lo` up to `hi`.
pub fn parse_square(chars: &Vec<char>, lo: usize, hi: usize) -> (r: Option<i32>)
    requires
        lo <= hi <= chars@.len(),
    ensures
        match r {
            Some(sq) => square_of_name(chars@.subrange(lo as int, hi as int)) == Some(sq as int)
                && on_board(sq as int),
            None => square_of_name(chars@.subrange(lo as int, hi as int)) is None,
        },
{
    if hi - lo != 2 {
        return None;
    }
    let letter = chars[lo];
    let digit = chars[lo + 1];
    assert(chars@.subrange(lo as int, hi as int)[0] == letter);
    assert(chars@.subrange(lo as int, hi as int)[1] == digit);
    let file: i32 = if 'a' <= letter && letter <= 'h' {
        (letter as u32 - 'a' as u32) as i32
    } else if 'A' <= letter && letter <= 'H' {
        (letter as u32 - 'A' as u32) as i32
    } else {
        return None;
    };
    if '1' <= digit && digit <= '8' {
        let number: i32 = (digit as u32 - '0' as u32) as i32;
        Some(file + (8 - number) * 8)
    } else {
        None
    }
}

/// Appends the name of the square `sq` to `text`.
pub(crate) fn push_square_name(text: &mut String, sq: i32)
    requires
        on_board(sq as int),
    ensures
        final(text)@ == old(text)@ + name_of_square(sq as int),
{
    let ghost before = text@;
    let file: i32 = sq % 8;
    let number: i32 = 8 - sq / 8;
    let letter: &str = if file == 0 {
        "a"
    } else if file == 1 {
        "b"
    } else if file == 2 {
        "c"
    } else if file == 3 {
        "d"
    } else if file == 4 {
        "e"
    } else if file == 5 {
        "f"
    } else if file == 6 {
        "g"
    } else {
        "h"
    };
    proof {
        reveal_strlit("a");
        reveal_strlit("b");
        reveal_strlit("c");
        reveal_strlit("d");
        reveal_strlit("e");
        reveal_strlit("f");
        reveal_strlit("g");
        reveal_strlit("h");
    }
    assert(letter@ =~= seq![letter_of_file(file as int)]);
    text.append(letter);
    push_digit(text, number);
    assert(text@ =~= before + name_of_square(sq as int));
}

/// Appends the digit of `n` to `text`.
pub(crate) fn push_digit(text: &mut String, n: i32)
    requires
        1 <= n <= 8,
    ensures
        final(text)@ == old(text)@.push(digit_char(n as int)),
{
    let ghost before = text@;
    let digit: &str = if n == 1 {
        "1"
    } else if n == 2 {
        "2"
    } else if n == 3 {
        "3"
    } else if n == 4 {
        "4"
    } else if n == 5 {
        "5"
    } else if n == 6 {
        "6"
    } else if n == 7 {
        "7"
    } else {
        "8"
    };
    proof {
        reveal_strlit("1");
        reveal_strlit("2");
        reveal_strlit("3");
        reveal_strlit("4");
        reveal_strlit("5");
        reveal_strlit("6");
        reveal_strlit("7");
        reveal_strlit("8");
    }
    assert(digit@ =~= seq![digit_char(n as int)]);
    text.append(digit);
    assert(text@ =~= before.push(digit_char(n as int)));
}

} // verus!
