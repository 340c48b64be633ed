use chess_rules::board::MoveFlag;
use chess_rules::input::{algebraic_notation_input, promotion_type_input};
use chess_rules::notation::parse_square;

#[test]
fn square_names_give_their_index() {
    assert_eq!(algebraic_notation_input("a8\n", false), Some(0));
    assert_eq!(algebraic_notation_input("h8\n", false), Some(7));
    assert_eq!(algebraic_notation_input("a1\n", false), Some(56));
    assert_eq!(algebraic_notation_input("h1\n", false), Some(63));
    assert_eq!(algebraic_notation_input("e2\n", true), Some(52));
    assert_eq!(algebraic_notation_input("e4\n", true), Some(36));
    assert_eq!(algebraic_notation_input("E4\n", true), Some(36));
    assert_eq!(algebraic_notation_input("d6", true), Some(19));
    assert_eq!(algebraic_notation_input("d6 \t\r\n", true), Some(19));
}

#[test]
fn every_square_name_is_read() {
    let files = ["a", "b", "c", "d", "e", "f", "g", "h"];
    for index in 0..64 {
        let line = format!("{}{}\n", files[index % 8], 8 - index / 8);
        assert_eq!(algebraic_notation_input(&line, false), Some(index as i32));
    }
}

#[test]
fn quit_gives_no_square_only_where_allowed() {
    assert_eq!(algebraic_notation_input("quit\n", true), Some(-1));
    assert_eq!(algebraic_notation_input("quit\n", false), None);
    assert_eq!(algebraic_notation_input("quit", true), None);
    assert_eq!(algebraic_notation_input("quit \n", true), None);
    assert_eq!(algebraic_notation_input("Quit\n", true), None);
}

#[test]
fn other_lines_are_no_square() {
    for line in ["", "\n", "e", "e\n", "e9\n", "e0\n", "i4\n", "4e\n", "e44\n", " e4\n", "e 4\n", "ee\n", "é4\n", "e4x\n"] {
        assert_eq!(algebraic_notation_input(line, true), None);
    }
}

#[test]
fn parse_square_reads_a_range_of_characters() {
    let chars: Vec<char> = "xxe4yy".chars().collect();
    assert_eq!(parse_square(&chars, 2, 4), Some(36));
    assert_eq!(parse_square(&chars, 2, 5), None);
    assert_eq!(parse_square(&chars, 2, 3), None);
    assert_eq!(parse_square(&chars, 1, 3), None);
    assert_eq!(parse_square(&chars, 3, 3), None);
    let names: Vec<char> = "H8a1".chars().collect();
    assert_eq!(parse_square(&names, 0, 2), Some(7));
    assert_eq!(parse_square(&names, 2, 4), Some(56));
    assert_eq!(parse_square(&names, 1, 3), None);
}

#[test]
fn promotion_names_give_their_flag() {
    assert_eq!(promotion_type_input("rook\n", true), Some(MoveFlag::RookPromo));
    assert_eq!(promotion_type_input("knight\n", true), Some(MoveFlag::KnightPromo));
    assert_eq!(promotion_type_input("bishop\n", true), Some(MoveFlag::BishopPromo));
    assert_eq!(promotion_type_input("queen\n", true), Some(MoveFlag::QueenPromo));
    assert_eq!(promotion_type_input("  Queen \r\n", false), Some(MoveFlag::QueenPromo));
    assert_eq!(promotion_type_input("ROOK", false), Some(MoveFlag::RookPromo));
    assert_eq!(promotion_type_input("\tkNiGhT\n", false), Some(MoveFlag::KnightPromo));
}

#[test]
fn promotion_quit_gives_the_plain_flag_only_where_allowed() {
    assert_eq!(promotion_type_input("quit\n", true), Some(MoveFlag::Normal));
    assert_eq!(promotion_type_input("quit\n", false), None);
    assert_eq!(promotion_type_input("quit", true), None);
}

#[test]
fn other_lines_are_no_promotion() {
    for line in ["", "\n", "king\n", "pawn\n", "queens\n", "quee\n", "q\n", "roo k\n", "2//+\n", "bishop1\n"] {
        assert_eq!(promotion_type_input(line, true), None);
    }
}
