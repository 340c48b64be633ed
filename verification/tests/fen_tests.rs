use chess_rules::board::{Piece, PieceColour, PieceType};
use chess_rules::fen::{decode_fen, encode_into_fen};

const START: &str = "rnbqkbnr/pppppppp/8/8/8/8/PPPPPPPP/RNBQKBNR w KQkq -";

fn piece(piece_type: PieceType, piece_colour: PieceColour) -> Piece {
    Piece { piece_type, piece_colour }
}

fn empty() -> Piece {
    piece(PieceType::Empty, PieceColour::Empty)
}

fn rejected(text: &str) -> bool {
    let (board, side, rights, target) = decode_fen(text);
    board.is_empty()
        && side == PieceColour::Empty
        && rights == (false, false, false, false)
        && target == -1
}

#[test]
fn decode_start_position() {
    let (board, side, rights, target) = decode_fen(START);
    assert_eq!(board.len(), 64);
    assert_eq!(side, PieceColour::White);
    assert_eq!(rights, (true, true, true, true));
    assert_eq!(target, -1);
    let back = [
        PieceType::Rook,
        PieceType::Knight,
        PieceType::Bishop,
        PieceType::Queen,
        PieceType::King,
        PieceType::Bishop,
        PieceType::Knight,
        PieceType::Rook,
    ];
    for file in 0..8 {
        assert_eq!(board[file], piece(back[file], PieceColour::Black));
        assert_eq!(board[8 + file], piece(PieceType::Pawn, PieceColour::Black));
        assert_eq!(board[48 + file], piece(PieceType::Pawn, PieceColour::White));
        assert_eq!(board[56 + file], piece(back[file], PieceColour::White));
    }
    for sq in 16..48 {
        assert_eq!(board[sq], empty());
    }
}

#[test]
fn decode_reads_side_rights_and_target() {
    let (board, side, rights, target) =
        decode_fen("rnbqkbnr/pppppppp/8/8/4P3/8/PPPP1PPP/RNBQKBNR b Kq e3");
    assert_eq!(board.len(), 64);
    assert_eq!(side, PieceColour::Black);
    assert_eq!(rights, (true, false, false, true));
    assert_eq!(target, 44);
    assert_eq!(board[36], piece(PieceType::Pawn, PieceColour::White));
    assert_eq!(board[52], empty());
}

#[test]
fn decode_target_corners() {
    let a8 = decode_fen("8/8/8/8/8/8/8/8 w - a8");
    assert_eq!(a8.0.len(), 64);
    assert_eq!(a8.3, 0);
    let h1 = decode_fen("8/8/8/8/8/8/8/8 w - h1");
    assert_eq!(h1.3, 63);
    let a1 = decode_fen("8/8/8/8/8/8/8/8 w - a1");
    assert_eq!(a1.3, 56);
    let upper = decode_fen("8/8/8/8/8/8/8/8 w - D6");
    assert_eq!(upper.0.len(), 64);
    assert_eq!(upper.3, 19);
}

#[test]
fn decode_ignores_what_follows_the_fourth_field() {
    let with_counters = decode_fen("rnbqkbnr/pppppppp/8/8/8/8/PPPPPPPP/RNBQKBNR w KQkq - 0 1");
    let plain = decode_fen(START);
    assert_eq!(with_counters, plain);
    let trailing_space = decode_fen("rnbqkbnr/pppppppp/8/8/8/8/PPPPPPPP/RNBQKBNR w KQkq - ");
    assert_eq!(trailing_space, plain);
}

#[test]
fn decode_accepts_split_runs_and_zero() {
    let split = decode_fen("44/8/8/8/8/8/8/8 w - -");
    let whole = decode_fen("8/8/8/8/8/8/8/8 w - -");
    assert_eq!(split.0.len(), 64);
    assert_eq!(split, whole);
    let zero = decode_fen("08/8/8/8/8/8/8/8 w - -");
    assert_eq!(zero, whole);
    let nine = decode_fen("9/9/9/9/9/9/9/1 w - -");
    assert_eq!(nine, whole);
}

#[test]
fn decode_castling_dash_clears_earlier_letters() {
    assert_eq!(decode_fen("8/8/8/8/8/8/8/8 w K- -").2, (false, false, false, false));
    assert_eq!(decode_fen("8/8/8/8/8/8/8/8 w -K -").2, (true, false, false, false));
    assert_eq!(decode_fen("8/8/8/8/8/8/8/8 w qK -").2, (true, false, false, true));
    assert_eq!(decode_fen("8/8/8/8/8/8/8/8 w  -").2, (false, false, false, false));
    assert_eq!(decode_fen("8/8/8/8/8/8/8/8 w  -").0.len(), 64);
}

#[test]
fn decode_rejects_unknown_placement_character() {
    assert!(rejected("rnbqkbnr/pppppppp/8/8/8/8/PPPPPPPP/RNBQKBNX w KQkq -"));
    assert!(rejected("rnbqkbnr/pppppppp/8/8/8/8/PPPPPPPP/RNBQKBN? w KQkq -"));
}

#[test]
fn decode_rejects_wrong_board_length() {
    assert!(rejected("rnbqkbnr/pppppppp/8/8/8/8/PPPPPPPP/RNBQKBN w KQkq -"));
    assert!(rejected("rnbqkbnr/pppppppp/8/8/8/8/PPPPPPPP/RNBQKBNRR w KQkq -"));
    assert!(rejected("8/8/8/8/8/8/8/9 w - -"));
    assert!(rejected(" w - -"));
}

#[test]
fn decode_rejects_bad_side() {
    assert!(rejected("8/8/8/8/8/8/8/8 x - -"));
    assert!(rejected("8/8/8/8/8/8/8/8 W - -"));
    assert!(rejected("8/8/8/8/8/8/8/8 wb - -"));
    assert!(rejected("8/8/8/8/8/8/8/8  - -"));
}

#[test]
fn decode_rejects_bad_castling_character() {
    assert!(rejected("8/8/8/8/8/8/8/8 w KQx -"));
    assert!(rejected("8/8/8/8/8/8/8/8 w a -"));
}

#[test]
fn decode_rejects_bad_target() {
    assert!(rejected("8/8/8/8/8/8/8/8 w - e"));
    assert!(rejected("8/8/8/8/8/8/8/8 w - e9"));
    assert!(rejected("8/8/8/8/8/8/8/8 w - e0"));
    assert!(rejected("8/8/8/8/8/8/8/8 w - i3"));
    assert!(rejected("8/8/8/8/8/8/8/8 w - e3x"));
    assert!(rejected("8/8/8/8/8/8/8/8 w - 3e"));
    assert!(rejected("8/8/8/8/8/8/8/8 w - --"));
    assert!(rejected("8/8/8/8/8/8/8/8 w - "));
}

#[test]
fn decode_rejects_too_few_fields() {
    assert!(rejected(""));
    assert!(rejected("8/8/8/8/8/8/8/8"));
    assert!(rejected("8/8/8/8/8/8/8/8 w"));
    assert!(rejected("8/8/8/8/8/8/8/8 w -"));
}

#[test]
fn encode_start_position() {
    let (board, side, rights, target) = decode_fen(START);
    assert_eq!(encode_into_fen(&board, side, rights, target), START);
}

#[test]
fn encode_empty_board() {
    let board = vec![empty(); 64];
    assert_eq!(
        encode_into_fen(&board, PieceColour::Black, (false, false, false, false), -1),
        "8/8/8/8/8/8/8/8 b - -"
    );
}

#[test]
fn encode_runs_between_pieces() {
    let mut board = vec![empty(); 64];
    board[0] = piece(PieceType::King, PieceColour::Black);
    board[7] = piece(PieceType::Rook, PieceColour::Black);
    board[9] = piece(PieceType::Pawn, PieceColour::Black);
    board[27] = piece(PieceType::Queen, PieceColour::White);
    board[28] = piece(PieceType::Knight, PieceColour::White);
    board[55] = piece(PieceType::Bishop, PieceColour::White);
    board[60] = piece(PieceType::King, PieceColour::White);
    assert_eq!(
        encode_into_fen(&board, PieceColour::White, (false, true, true, false), 19),
        "k6r/1p6/8/3QN3/8/8/7B/4K3 w Qk d6"
    );
}

#[test]
fn encode_each_castling_right() {
    let board = vec![empty(); 64];
    let text = |rights| encode_into_fen(&board, PieceColour::White, rights, -1);
    assert_eq!(text((true, false, false, false)), "8/8/8/8/8/8/8/8 w K -");
    assert_eq!(text((false, true, false, false)), "8/8/8/8/8/8/8/8 w Q -");
    assert_eq!(text((false, false, true, false)), "8/8/8/8/8/8/8/8 w k -");
    assert_eq!(text((false, false, false, true)), "8/8/8/8/8/8/8/8 w q -");
    assert_eq!(text((true, true, true, true)), "8/8/8/8/8/8/8/8 w KQkq -");
}

#[test]
fn encode_every_target_square() {
    let board = vec![empty(); 64];
    let files = ["a", "b", "c", "d", "e", "f", "g", "h"];
    for sq in 0..64 {
        let name = format!("{}{}", files[sq % 8], 8 - sq / 8);
        let text = encode_into_fen(&board, PieceColour::White, (false, false, false, false), sq as i32);
        assert_eq!(text, format!("8/8/8/8/8/8/8/8 w - {}", name));
        assert_eq!(decode_fen(&text).3, sq as i32);
    }
}

#[test]
fn encode_without_side_leaves_the_field_out() {
    let board = vec![empty(); 64];
    assert_eq!(
        encode_into_fen(&board, PieceColour::Empty, (true, false, false, false), -1),
        "8/8/8/8/8/8/8/8 K -"
    );
}

#[test]
fn decode_then_encode_gives_the_text_back() {
    let texts = [
        START,
        "rnbqkbnr/pppppppp/8/8/4P3/8/PPPP1PPP/RNBQKBNR b KQkq e3",
        "r3k2r/8/8/8/8/8/8/R3K2R w KQkq -",
        "8/P7/8/8/8/8/7p/k6K b - -",
        "4k3/8/8/3pP3/8/8/8/4K3 w - d6",
        "rnbqkbnr/p2ppppp/1P6/8/8/3p4/1PP1PPPP/RNBQKBNR w Kq -",
    ];
    for text in texts {
        let (board, side, rights, target) = decode_fen(text);
        assert_eq!(board.len(), 64);
        assert_eq!(encode_into_fen(&board, side, rights, target), text);
    }
}

#[test]
fn encode_then_decode_gives_the_position_back() {
    let mut board = vec![empty(); 64];
    let kinds = [
        PieceType::Pawn,
        PieceType::Rook,
        PieceType::Knight,
        PieceType::Bishop,
        PieceType::Queen,
        PieceType::King,
    ];
    for (i, kind) in kinds.iter().enumerate() {
        board[i * 9] = piece(*kind, PieceColour::White);
        board[63 - i * 7] = piece(*kind, PieceColour::Black);
    }
    for side in [PieceColour::White, PieceColour::Black] {
        for target in [-1, 0, 20, 43, 63] {
            let rights = (target % 2 == 0, true, false, target > 10);
            let text = encode_into_fen(&board, side, rights, target);
            let back = decode_fen(&text);
            assert_eq!(back, (board.clone(), side, rights, target));
        }
    }
}

#[test]
fn decode_then_encode_puts_fields_in_order() {
    let (board, side, rights, target) = decode_fen("44/8/8/8/8/8/8/8 b qkQK E3 12 7");
    assert_eq!(board.len(), 64);
    assert_eq!(
        encode_into_fen(&board, side, rights, target),
        "8/8/8/8/8/8/8/8 b KQkq e3"
    );
}
