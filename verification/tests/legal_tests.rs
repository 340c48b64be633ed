use chess_rules::apply::make_move;
use chess_rules::board::{Move, MoveFlag, Piece, PieceColour, PieceType};
use chess_rules::fen::{decode_fen, encode_into_fen};
use chess_rules::legal::{check_for_checkmate, legal_move_gen};
use chess_rules::movegen::{side_move_gen, sudo_legal_move_gen};
use chess_rules::turn::find_kings;

const ALL: (bool, bool, bool, bool) = (true, true, true, true);
const NONE: (bool, bool, bool, bool) = (false, false, false, false);
const START: &str = "rnbqkbnr/pppppppp/8/8/8/8/PPPPPPPP/RNBQKBNR w KQkq -";

fn mv(start: i32, end: i32) -> Move {
    Move { start, end, flag: MoveFlag::Normal }
}

fn flagged(start: i32, end: i32, flag: MoveFlag) -> Move {
    Move { start, end, flag }
}

fn board_of(text: &str) -> Vec<Piece> {
    let (board, _, _, _) = decode_fen(text);
    assert_eq!(board.len(), 64);
    board
}

fn all_legal(
    board: &mut Vec<Piece>,
    side: PieceColour,
    target: i32,
    kings: (i32, i32),
    rights: (bool, bool, bool, bool),
) -> Vec<Move> {
    let mut moves = Vec::new();
    for index in 0..64 {
        if board[index as usize].piece_colour == side {
            moves.extend(legal_move_gen(board, index, target, kings, rights));
        }
    }
    moves
}

#[test]
fn start_position_has_twenty_legal_moves() {
    let mut board = board_of(START);
    let kings = find_kings(&board);
    assert_eq!(kings, (60, 4));
    let white = all_legal(&mut board, PieceColour::White, -1, kings, ALL);
    assert_eq!(white.len(), 20);
    let pawn_moves = white.iter().filter(|m| m.start >= 48 && m.start < 56).count();
    let single = white.iter().filter(|m| m.start - m.end == 8).count();
    let double = white.iter().filter(|m| m.start - m.end == 16).count();
    let knight_moves = white.iter().filter(|m| m.start == 57 || m.start == 62).count();
    assert_eq!(pawn_moves, 16);
    assert_eq!(single, 8);
    assert_eq!(double, 8);
    assert_eq!(knight_moves, 4);
    let black = all_legal(&mut board, PieceColour::Black, -1, kings, ALL);
    assert_eq!(black.len(), 20);
    assert!(!check_for_checkmate(&mut board, -1, kings, PieceColour::White, ALL));
    assert!(!check_for_checkmate(&mut board, -1, kings, PieceColour::Black, ALL));
}

#[test]
fn legal_move_gen_leaves_the_board_alone() {
    let mut board = board_of(START);
    let before = board.clone();
    let moves = legal_move_gen(&mut board, 52, -1, (60, 4), ALL);
    assert_eq!(moves, vec![mv(52, 44), mv(52, 36)]);
    assert_eq!(board, before);
    check_for_checkmate(&mut board, -1, (60, 4), PieceColour::White, ALL);
    assert_eq!(board, before);
}

#[test]
fn fools_mate_is_checkmate() {
    let (mut board, _, mut rights, mut target) = decode_fen(START);
    let mut kings = find_kings(&board);
    for m in [mv(53, 45), mv(12, 28), mv(54, 38), mv(3, 39)] {
        let legal = legal_move_gen(&mut board, m.start, target, kings, rights);
        assert!(legal.contains(&m));
        let (_, new_target, new_kings, new_rights) = make_move(&mut board, m, target, kings, rights);
        target = new_target;
        kings = new_kings;
        rights = new_rights;
    }
    assert_eq!(board[39], Piece { piece_type: PieceType::Queen, piece_colour: PieceColour::Black });
    assert!(check_for_checkmate(&mut board, target, kings, PieceColour::White, rights));
    for index in 0..64 {
        if board[index as usize].piece_colour == PieceColour::White {
            assert_eq!(legal_move_gen(&mut board, index, target, kings, rights), vec![]);
        }
    }
    assert!(!check_for_checkmate(&mut board, target, kings, PieceColour::Black, rights));
}

#[test]
fn one_move_before_the_mate_is_no_checkmate() {
    let (mut board, _, mut rights, mut target) = decode_fen(START);
    let mut kings = find_kings(&board);
    for m in [mv(53, 45), mv(12, 28), mv(54, 38)] {
        let (_, new_target, new_kings, new_rights) = make_move(&mut board, m, target, kings, rights);
        target = new_target;
        kings = new_kings;
        rights = new_rights;
    }
    assert_eq!(target, 46);
    assert!(!check_for_checkmate(&mut board, target, kings, PieceColour::Black, rights));
    assert!(!check_for_checkmate(&mut board, target, kings, PieceColour::White, rights));
}

#[test]
fn no_legal_move_without_check_counts_as_checkmate() {
    let mut board = board_of("7k/5Q2/6K1/8/8/8/8/8 b - -");
    let kings = find_kings(&board);
    assert_eq!(kings, (22, 7));
    assert!(check_for_checkmate(&mut board, -1, kings, PieceColour::Black, NONE));
    assert!(!check_for_checkmate(&mut board, -1, kings, PieceColour::White, NONE));
}

#[test]
fn side_without_pieces_has_no_legal_move() {
    let mut board = board_of("8/8/8/8/8/8/8/4K3 w - -");
    assert!(check_for_checkmate(&mut board, -1, (60, -1), PieceColour::Black, NONE));
    assert!(!check_for_checkmate(&mut board, -1, (60, -1), PieceColour::White, NONE));
}

#[test]
fn pinned_piece_may_only_move_along_the_pin() {
    let mut board = board_of("4r2k/8/8/8/8/8/4R3/4K3 w - -");
    let moves = legal_move_gen(&mut board, 52, -1, (60, 7), NONE);
    assert_eq!(moves, vec![mv(52, 44), mv(52, 36), mv(52, 28), mv(52, 20), mv(52, 12), mv(52, 4)]);
    let mut knight = board_of("4r2k/8/8/8/8/8/4N3/4K3 w - -");
    assert_eq!(legal_move_gen(&mut knight, 52, -1, (60, 7), NONE), vec![]);
    assert_eq!(sudo_legal_move_gen(&knight, 52, -1, NONE, true).len(), 6);
}

#[test]
fn king_may_not_step_onto_an_attacked_square() {
    let mut board = board_of("3r3k/8/8/8/8/8/8/4K3 w - -");
    let moves = legal_move_gen(&mut board, 60, -1, (60, 7), NONE);
    assert_eq!(moves, vec![mv(60, 52), mv(60, 53), mv(60, 61)]);
}

#[test]
fn king_may_not_stay_on_the_line_of_a_checking_rook() {
    let mut board = board_of("4r2k/8/8/8/8/8/8/4K3 w - -");
    let moves = legal_move_gen(&mut board, 60, -1, (60, 7), NONE);
    assert_eq!(moves, vec![mv(60, 51), mv(60, 59), mv(60, 53), mv(60, 61)]);
}

#[test]
fn check_must_be_answered() {
    let mut board = board_of("4r2k/8/8/8/8/8/3B4/3QK3 w - -");
    let kings = (60, 7);
    assert_eq!(legal_move_gen(&mut board, 51, -1, kings, NONE), vec![mv(51, 44)]);
    assert_eq!(legal_move_gen(&mut board, 59, -1, kings, NONE), vec![mv(59, 52)]);
    assert_eq!(legal_move_gen(&mut board, 60, -1, kings, NONE), vec![mv(60, 53), mv(60, 61)]);
}

#[test]
fn legal_moves_are_the_generated_moves_that_keep_the_king_safe() {
    let texts = [
        START,
        "r3k2r/pppq1ppp/2n2n2/1B1pp3/1b1PP3/2N2N2/PPPQ1PPP/R3K2R w KQkq -",
        "4r2k/8/8/8/8/8/3B4/3QK3 w - -",
        "4k3/8/8/3pP3/8/8/8/4K3 w - d6",
        "rnbqkbnr/pppp1ppp/8/4p3/6Pq/5P2/PPPPP2P/RNBQKBNR w KQkq -",
        "4k3/P7/8/8/8/8/7p/4K3 b - -",
    ];
    for text in texts {
        let (mut board, _, rights, target) = decode_fen(text);
        assert_eq!(board.len(), 64);
        let kings = find_kings(&board);
        for index in 0..64 {
            let colour = board[index as usize].piece_colour;
            let legal = legal_move_gen(&mut board, index, target, kings, rights);
            let other = match colour {
                PieceColour::White => PieceColour::Black,
                PieceColour::Black => PieceColour::White,
                PieceColour::Empty => {
                    assert_eq!(legal, vec![]);
                    continue;
                }
            };
            let mut expected = Vec::new();
            for m in sudo_legal_move_gen(&board, index, target, rights, true) {
                let mut scratch = board.clone();
                let (after, new_target, new_kings, _) = make_move(&mut scratch, m, target, kings, rights);
                let king = if colour == PieceColour::White { new_kings.0 } else { new_kings.1 };
                let replies = side_move_gen(&after, new_target, other, rights);
                if replies.iter().all(|reply| reply.end != king) {
                    expected.push(m);
                }
            }
            assert_eq!(legal, expected);
        }
    }
}

#[test]
fn legal_moves_of_squares_off_the_board_and_empty_squares() {
    let mut board = board_of(START);
    assert_eq!(legal_move_gen(&mut board, -1, -1, (60, 4), ALL), vec![]);
    assert_eq!(legal_move_gen(&mut board, 64, -1, (60, 4), ALL), vec![]);
    assert_eq!(legal_move_gen(&mut board, 1000, -1, (60, 4), ALL), vec![]);
    assert_eq!(legal_move_gen(&mut board, 35, -1, (60, 4), ALL), vec![]);
}

#[test]
fn castling_is_legal_when_the_king_arrives_safely() {
    let mut board = board_of("r3k2r/8/8/8/8/8/8/R3K2R w KQkq -");
    let moves = legal_move_gen(&mut board, 60, -1, (60, 4), ALL);
    assert!(moves.contains(&flagged(60, 62, MoveFlag::Castling)));
    assert!(moves.contains(&flagged(60, 58, MoveFlag::Castling)));
    let mut attacked = board_of("4kr2/8/8/8/8/8/8/R3K2R w KQ -");
    let moves = legal_move_gen(&mut attacked, 60, -1, (60, 4), ALL);
    assert!(!moves.contains(&flagged(60, 62, MoveFlag::Castling)));
    assert!(moves.contains(&flagged(60, 58, MoveFlag::Castling)));
    assert!(!moves.contains(&mv(60, 61)));
    assert!(!moves.contains(&mv(60, 53)));
}

#[test]
fn en_passant_is_illegal_when_it_opens_a_line_to_the_king() {
    let mut board = board_of("8/8/8/K2pP2r/8/8/8/7k w - d6");
    let kings = find_kings(&board);
    assert_eq!(kings, (24, 63));
    let pseudo = sudo_legal_move_gen(&board, 28, 19, NONE, true);
    assert!(pseudo.contains(&flagged(28, 19, MoveFlag::EnPassant)));
    let legal = legal_move_gen(&mut board, 28, 19, kings, NONE);
    assert_eq!(legal, vec![mv(28, 20)]);
}

#[test]
fn promotion_moves_are_legal_with_the_generic_flag() {
    let mut board = board_of("1r2k3/P7/8/8/8/8/8/4K3 w - -");
    let legal = legal_move_gen(&mut board, 8, -1, (60, 4), NONE);
    assert_eq!(
        legal,
        vec![flagged(8, 0, MoveFlag::Promotion), flagged(8, 1, MoveFlag::Promotion)]
    );
}

#[test]
fn position_stays_sound_through_an_opening() {
    let (mut board, mut side, mut rights, mut target) = decode_fen(START);
    let mut kings = find_kings(&board);
    let moves = [
        (mv(52, 36), "rnbqkbnr/pppppppp/8/8/4P3/8/PPPP1PPP/RNBQKBNR b KQkq e3"),
        (mv(12, 28), "rnbqkbnr/pppp1ppp/8/4p3/4P3/8/PPPP1PPP/RNBQKBNR w KQkq e6"),
        (mv(62, 45), "rnbqkbnr/pppp1ppp/8/4p3/4P3/5N2/PPPP1PPP/RNBQKB1R b KQkq -"),
        (mv(1, 18), "r1bqkbnr/pppp1ppp/2n5/4p3/4P3/5N2/PPPP1PPP/RNBQKB1R w KQkq -"),
        (mv(61, 34), "r1bqkbnr/pppp1ppp/2n5/4p3/2B1P3/5N2/PPPP1PPP/RNBQK2R b KQkq -"),
        (mv(5, 26), "r1bqk1nr/pppp1ppp/2n5/2b1p3/2B1P3/5N2/PPPP1PPP/RNBQK2R w KQkq -"),
        (
            flagged(60, 62, MoveFlag::Castling),
            "r1bqk1nr/pppp1ppp/2n5/2b1p3/2B1P3/5N2/PPPP1PPP/RNBQ1RK1 b kq -",
        ),
    ];
    for (m, text) in moves {
        assert!(legal_move_gen(&mut board, m.start, target, kings, rights).contains(&m));
        let (_, new_target, new_kings, new_rights) = make_move(&mut board, m, target, kings, rights);
        target = new_target;
        kings = new_kings;
        rights = new_rights;
        side = if side == PieceColour::White { PieceColour::Black } else { PieceColour::White };
        assert_eq!(encode_into_fen(&board, side, rights, target), text);
        assert_eq!(find_kings(&board), kings);
        let king = |colour| Piece { piece_type: PieceType::King, piece_colour: colour };
        let rook = |colour| Piece { piece_type: PieceType::Rook, piece_colour: colour };
        if rights.0 {
            assert!(board[60] == king(PieceColour::White) && board[63] == rook(PieceColour::White));
        }
        if rights.1 {
            assert!(board[60] == king(PieceColour::White) && board[56] == rook(PieceColour::White));
        }
        if rights.2 {
            assert!(board[4] == king(PieceColour::Black) && board[7] == rook(PieceColour::Black));
        }
        if rights.3 {
            assert!(board[4] == king(PieceColour::Black) && board[0] == rook(PieceColour::Black));
        }
    }
    assert_eq!(kings, (62, 4));
    assert_eq!(rights, (false, false, true, true));
}

#[test]
fn promotion_is_as_safe_with_each_piece_as_with_the_choice_open() {
    let texts = ["1r2k3/P7/8/8/8/8/8/4K3 w - -", "4k3/8/8/8/8/8/r3P2K/3n4 b - -", "8/8/8/8/8/8/kp5Q/8 b - -"];
    for text in texts {
        let (mut board, _, rights, target) = decode_fen(text);
        let kings = find_kings(&board);
        for index in 0..64 {
            let colour = board[index as usize].piece_colour;
            let other = if colour == PieceColour::White { PieceColour::Black } else { PieceColour::White };
            let legal = legal_move_gen(&mut board, index, target, kings, rights);
            for g in sudo_legal_move_gen(&board, index, target, rights, true) {
                if g.flag != MoveFlag::Promotion {
                    continue;
                }
                for flag in [MoveFlag::RookPromo, MoveFlag::KnightPromo, MoveFlag::BishopPromo, MoveFlag::QueenPromo] {
                    let mut scratch = board.clone();
                    let m = flagged(g.start, g.end, flag);
                    let (after, new_target, new_kings, _) = make_move(&mut scratch, m, target, kings, rights);
                    let king = if colour == PieceColour::White { new_kings.0 } else { new_kings.1 };
                    let safe = side_move_gen(&after, new_target, other, rights).iter().all(|r| r.end != king);
                    assert_eq!(safe, legal.contains(&g));
                }
            }
        }
    }
}
