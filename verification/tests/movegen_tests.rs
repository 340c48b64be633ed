use chess_rules::board::{opponent, Move, MoveFlag, Piece, PieceColour, PieceType};
use chess_rules::fen::decode_fen;
use chess_rules::geometry::dist_to_edge;
use chess_rules::movegen::{side_move_gen, sudo_legal_move_gen};

const NONE: (bool, bool, bool, bool) = (false, false, false, false);
const ALL: (bool, bool, bool, bool) = (true, true, true, true);
const START: &str = "rnbqkbnr/pppppppp/8/8/8/8/PPPPPPPP/RNBQKBNR w KQkq -";

fn mv(start: i32, end: i32) -> Move {
    Move { start, end, flag: MoveFlag::Normal }
}

fn flagged(start: i32, end: i32, flag: MoveFlag) -> Move {
    Move { start, end, flag }
}

fn board_of(text: &str) -> Vec<Piece> {
    let (board, _, _, _) = decode_fen(text);
    assert_eq!(board.len(), 64);
    board
}

fn ends(moves: &[Move]) -> Vec<i32> {
    moves.iter().map(|m| m.end).collect()
}

#[test]
fn opponent_of_each_colour() {
    assert_eq!(opponent(PieceColour::White), PieceColour::Black);
    assert_eq!(opponent(PieceColour::Black), PieceColour::White);
    assert_eq!(opponent(PieceColour::Empty), PieceColour::Empty);
}

#[test]
fn dist_to_edge_corners_and_centre() {
    assert_eq!(dist_to_edge(0), [7, 0, 7, 0, 7, 0, 0, 0]);
    assert_eq!(dist_to_edge(7), [7, 0, 0, 7, 0, 0, 7, 0]);
    assert_eq!(dist_to_edge(56), [0, 7, 7, 0, 0, 0, 0, 7]);
    assert_eq!(dist_to_edge(63), [0, 7, 0, 7, 0, 7, 0, 0]);
    assert_eq!(dist_to_edge(27), [4, 3, 4, 3, 4, 3, 3, 3]);
    assert_eq!(dist_to_edge(52), [1, 6, 3, 4, 1, 4, 1, 3]);
}

#[test]
fn dist_to_edge_is_the_number_of_steps_that_stay_on_the_board() {
    let steps: [(i32, i32); 8] =
        [(0, 1), (0, -1), (1, 0), (-1, 0), (1, 1), (-1, -1), (-1, 1), (1, -1)];
    for index in 0..64 {
        let dist = dist_to_edge(index);
        for d in 0..8 {
            let mut file = index % 8;
            let mut rank = index / 8;
            let mut count = 0;
            loop {
                file += steps[d].0;
                rank += steps[d].1;
                if file < 0 || file > 7 || rank < 0 || rank > 7 {
                    break;
                }
                count += 1;
            }
            assert_eq!(dist[d], count);
        }
    }
}

#[test]
fn knight_moves_from_the_start() {
    let board = board_of(START);
    assert_eq!(sudo_legal_move_gen(&board, 57, -1, ALL, true), vec![mv(57, 40), mv(57, 42)]);
    assert_eq!(sudo_legal_move_gen(&board, 62, -1, ALL, true), vec![mv(62, 45), mv(62, 47)]);
    assert_eq!(sudo_legal_move_gen(&board, 1, -1, ALL, true), vec![mv(1, 18), mv(1, 16)]);
}

#[test]
fn knight_moves_in_the_open() {
    let board = board_of("4k3/8/8/3N4/8/8/8/4K3 w - -");
    assert_eq!(
        ends(&sudo_legal_move_gen(&board, 27, -1, NONE, true)),
        vec![17, 10, 12, 21, 37, 44, 42, 33]
    );
}

#[test]
fn knight_captures_enemy_and_not_friend() {
    let board = board_of("4k3/8/8/8/8/1p6/2P5/N3K3 w - -");
    assert_eq!(sudo_legal_move_gen(&board, 56, -1, NONE, true), vec![mv(56, 41)]);
}

#[test]
fn blocked_pieces_have_no_moves_at_the_start() {
    let board = board_of(START);
    for index in [56, 58, 59, 60, 61, 63, 0, 2, 3, 4, 5, 7] {
        assert_eq!(sudo_legal_move_gen(&board, index, -1, ALL, true), vec![]);
    }
}

#[test]
fn empty_square_and_squares_off_the_board_have_no_moves() {
    let board = board_of(START);
    assert_eq!(sudo_legal_move_gen(&board, 30, -1, ALL, true), vec![]);
    assert_eq!(sudo_legal_move_gen(&board, -1, -1, ALL, true), vec![]);
    assert_eq!(sudo_legal_move_gen(&board, 64, -1, ALL, true), vec![]);
    assert_eq!(sudo_legal_move_gen(&board, i32::MAX, -1, ALL, true), vec![]);
    assert_eq!(sudo_legal_move_gen(&board, i32::MIN, -1, ALL, true), vec![]);
}

#[test]
fn rook_slides_until_blocked() {
    let board = board_of("4k3/8/8/1p1R2P1/8/8/8/4K3 w - -");
    assert_eq!(
        ends(&sudo_legal_move_gen(&board, 27, -1, NONE, true)),
        vec![35, 43, 51, 59, 19, 11, 3, 28, 29, 26, 25]
    );
}

#[test]
fn bishop_slides_on_diagonals() {
    let board = board_of("4k3/8/8/8/3B4/8/8/4K3 w - -");
    assert_eq!(
        ends(&sudo_legal_move_gen(&board, 35, -1, NONE, true)),
        vec![44, 53, 62, 26, 17, 8, 42, 49, 56, 28, 21, 14, 7]
    );
}

#[test]
fn queen_slides_in_all_eight_directions() {
    let board = board_of("7k/8/8/8/8/8/8/Q6K w - -");
    assert_eq!(
        ends(&sudo_legal_move_gen(&board, 56, -1, NONE, true)),
        vec![48, 40, 32, 24, 16, 8, 0, 57, 58, 59, 60, 61, 62, 49, 42, 35, 28, 21, 14, 7]
    );
}

#[test]
fn sliding_moves_are_all_plain() {
    let board = board_of("4k3/8/8/8/3Q4/8/8/4K3 w - -");
    let moves = sudo_legal_move_gen(&board, 35, -1, NONE, true);
    assert_eq!(moves.len(), 27);
    assert!(moves.iter().all(|m| m.start == 35 && m.flag == MoveFlag::Normal));
}

#[test]
fn pawn_pushes_from_the_start() {
    let board = board_of(START);
    assert_eq!(sudo_legal_move_gen(&board, 52, -1, ALL, true), vec![mv(52, 44), mv(52, 36)]);
    assert_eq!(sudo_legal_move_gen(&board, 12, -1, ALL, true), vec![mv(12, 20), mv(12, 28)]);
}

#[test]
fn pawn_push_is_blocked_by_any_piece() {
    let blocked = board_of("4k3/8/8/8/8/4p3/4P3/4K3 w - -");
    assert_eq!(sudo_legal_move_gen(&blocked, 52, -1, NONE, true), vec![]);
    let far = board_of("4k3/8/8/8/4p3/8/4P3/4K3 w - -");
    assert_eq!(sudo_legal_move_gen(&far, 52, -1, NONE, true), vec![mv(52, 44)]);
    let moved = board_of("4k3/8/8/8/8/4P3/8/4K3 w - -");
    assert_eq!(sudo_legal_move_gen(&moved, 44, -1, NONE, true), vec![mv(44, 36)]);
}

#[test]
fn pawn_captures_diagonally() {
    let board = board_of("4k3/8/8/8/8/3p1p2/4P3/4K3 w - -");
    assert_eq!(
        sudo_legal_move_gen(&board, 52, -1, NONE, true),
        vec![mv(52, 44), mv(52, 36), mv(52, 43), mv(52, 45)]
    );
    let own = board_of("4k3/8/8/8/8/3P1P2/4P3/4K3 w - -");
    assert_eq!(sudo_legal_move_gen(&own, 52, -1, NONE, true), vec![mv(52, 44), mv(52, 36)]);
}

#[test]
fn pawn_on_the_edge_does_not_capture_round_the_board() {
    let board = board_of("4k3/8/8/8/8/p6p/P6P/4K3 w - -");
    assert_eq!(sudo_legal_move_gen(&board, 48, -1, NONE, true), vec![]);
    assert_eq!(sudo_legal_move_gen(&board, 55, -1, NONE, true), vec![]);
    let black = board_of("4k3/p6p/1P4P1/8/8/8/8/4K3 b - -");
    assert_eq!(
        sudo_legal_move_gen(&black, 8, -1, NONE, true),
        vec![mv(8, 16), mv(8, 24), mv(8, 17)]
    );
    assert_eq!(
        sudo_legal_move_gen(&black, 15, -1, NONE, true),
        vec![mv(15, 23), mv(15, 31), mv(15, 22)]
    );
}

#[test]
fn pawn_reaching_the_last_rank_carries_the_promotion_flag() {
    let board = board_of("1r2k3/P7/8/8/8/8/7p/4K1R1 w - -");
    assert_eq!(
        sudo_legal_move_gen(&board, 8, -1, NONE, true),
        vec![flagged(8, 0, MoveFlag::Promotion), flagged(8, 1, MoveFlag::Promotion)]
    );
    assert_eq!(
        sudo_legal_move_gen(&board, 55, -1, NONE, true),
        vec![flagged(55, 63, MoveFlag::Promotion), flagged(55, 62, MoveFlag::Promotion)]
    );
}

#[test]
fn pawn_on_its_last_rank_has_no_moves() {
    let board = board_of("P3k3/8/8/8/8/8/8/4K2p w - -");
    assert_eq!(sudo_legal_move_gen(&board, 0, -1, NONE, true), vec![]);
    assert_eq!(sudo_legal_move_gen(&board, 63, -1, NONE, true), vec![]);
}

#[test]
fn en_passant_capture_is_generated_on_the_target() {
    let board = board_of("4k3/8/8/3pP3/8/8/8/4K3 w - d6");
    assert_eq!(
        sudo_legal_move_gen(&board, 28, 19, NONE, true),
        vec![mv(28, 20), flagged(28, 19, MoveFlag::EnPassant)]
    );
    assert_eq!(sudo_legal_move_gen(&board, 28, -1, NONE, true), vec![mv(28, 20)]);
    assert_eq!(sudo_legal_move_gen(&board, 28, 21, NONE, true), vec![mv(28, 20)]);
    let black = board_of("4k3/8/8/8/3pP3/8/8/4K3 b - e3");
    assert_eq!(
        sudo_legal_move_gen(&black, 35, 44, NONE, true),
        vec![mv(35, 43), flagged(35, 44, MoveFlag::EnPassant)]
    );
}

#[test]
fn en_passant_needs_the_rank_and_an_enemy_beside() {
    let wrong_rank = board_of("4k3/8/8/8/3pP3/8/8/4K3 w - -");
    assert_eq!(sudo_legal_move_gen(&wrong_rank, 36, 27, NONE, true), vec![mv(36, 28)]);
    let nobody = board_of("4k3/8/8/4P3/8/8/8/4K3 w - -");
    assert_eq!(sudo_legal_move_gen(&nobody, 28, 19, NONE, true), vec![mv(28, 20)]);
    let friend = board_of("4k3/8/8/3PP3/8/8/8/4K3 w - -");
    assert_eq!(sudo_legal_move_gen(&friend, 28, 19, NONE, true), vec![mv(28, 20)]);
}

#[test]
fn king_steps_to_adjacent_squares() {
    let board = board_of("4k3/8/8/8/3K4/8/8/8 w - -");
    assert_eq!(
        ends(&sudo_legal_move_gen(&board, 35, -1, NONE, true)),
        vec![26, 34, 42, 27, 43, 28, 36, 44]
    );
    let corner = board_of("4k3/8/8/8/8/8/8/K7 w - -");
    assert_eq!(ends(&sudo_legal_move_gen(&corner, 56, -1, NONE, true)), vec![48, 49, 57]);
}

#[test]
fn castling_is_generated_when_the_way_is_free() {
    let board = board_of("r3k2r/8/8/8/8/8/8/R3K2R w KQkq -");
    assert_eq!(
        sudo_legal_move_gen(&board, 60, -1, ALL, true),
        vec![
            mv(60, 51),
            mv(60, 59),
            mv(60, 52),
            mv(60, 53),
            mv(60, 61),
            flagged(60, 58, MoveFlag::Castling),
            flagged(60, 62, MoveFlag::Castling),
        ]
    );
    assert_eq!(
        sudo_legal_move_gen(&board, 4, -1, ALL, true),
        vec![
            mv(4, 3),
            mv(4, 11),
            mv(4, 12),
            mv(4, 5),
            mv(4, 13),
            flagged(4, 2, MoveFlag::Castling),
            flagged(4, 6, MoveFlag::Castling),
        ]
    );
}

#[test]
fn castling_is_left_out_when_not_asked_for() {
    let board = board_of("r3k2r/8/8/8/8/8/8/R3K2R w KQkq -");
    let moves = sudo_legal_move_gen(&board, 60, -1, ALL, false);
    assert_eq!(ends(&moves), vec![51, 59, 52, 53, 61]);
    assert!(moves.iter().all(|m| m.flag == MoveFlag::Normal));
}

#[test]
fn castling_needs_the_right() {
    let board = board_of("r3k2r/8/8/8/8/8/8/R3K2R w KQkq -");
    let flags = |rights| {
        sudo_legal_move_gen(&board, 60, -1, rights, true)
            .into_iter()
            .filter(|m| m.flag == MoveFlag::Castling)
            .collect::<Vec<Move>>()
    };
    assert_eq!(flags(NONE), vec![]);
    assert_eq!(flags((true, false, true, true)), vec![flagged(60, 62, MoveFlag::Castling)]);
    assert_eq!(flags((false, true, true, true)), vec![flagged(60, 58, MoveFlag::Castling)]);
    assert_eq!(flags((false, false, true, true)), vec![]);
    let black = |rights| {
        sudo_legal_move_gen(&board, 4, -1, rights, true)
            .into_iter()
            .filter(|m| m.flag == MoveFlag::Castling)
            .collect::<Vec<Move>>()
    };
    assert_eq!(black((true, true, false, false)), vec![]);
    assert_eq!(black((true, true, true, false)), vec![flagged(4, 6, MoveFlag::Castling)]);
    assert_eq!(black((true, true, false, true)), vec![flagged(4, 2, MoveFlag::Castling)]);
}

#[test]
fn castling_needs_empty_squares_between() {
    let castles = |text: &str| {
        sudo_legal_move_gen(&board_of(text), 60, -1, ALL, true)
            .into_iter()
            .filter(|m| m.flag == MoveFlag::Castling)
            .map(|m| m.end)
            .collect::<Vec<i32>>()
    };
    assert_eq!(castles("4k3/8/8/8/8/8/8/R3K2R w KQ -"), vec![58, 62]);
    assert_eq!(castles("4k3/8/8/8/8/8/8/RN2K2R w KQ -"), vec![62]);
    assert_eq!(castles("4k3/8/8/8/8/8/8/R1B1K2R w KQ -"), vec![62]);
    assert_eq!(castles("4k3/8/8/8/8/8/8/R2QK2R w KQ -"), vec![62]);
    assert_eq!(castles("4k3/8/8/8/8/8/8/R3KB1R w KQ -"), vec![58]);
    assert_eq!(castles("4k3/8/8/8/8/8/8/R3K1NR w KQ -"), vec![58]);
    assert_eq!(castles("4k3/8/8/8/8/8/8/R3K1nR w KQ -"), vec![58]);
}

#[test]
fn castling_is_excluded_through_an_attacked_square() {
    let castles = |text: &str| {
        sudo_legal_move_gen(&board_of(text), 60, -1, ALL, true)
            .into_iter()
            .filter(|m| m.flag == MoveFlag::Castling)
            .map(|m| m.end)
            .collect::<Vec<i32>>()
    };
    assert_eq!(castles("4kr2/8/8/8/8/8/8/R3K2R w KQ -"), vec![58]);
    assert_eq!(castles("4k1r1/8/8/8/8/8/8/R3K2R w KQ -"), vec![58]);
    assert_eq!(castles("3rk3/8/8/8/8/8/8/R3K2R w KQ -"), vec![62]);
    assert_eq!(castles("2r1k3/8/8/8/8/8/8/R3K2R w KQ -"), vec![62]);
    assert_eq!(castles("1r2k3/8/8/8/8/8/8/R3K2R w KQ -"), vec![62]);
    assert_eq!(castles("r3k2r/8/8/8/8/8/8/R3K2R w KQ -"), vec![58, 62]);
    assert_eq!(castles("4k3/8/8/8/8/8/8/Rr2K2R w KQ -"), vec![62]);
    assert_eq!(castles("4k3/8/8/8/8/8/8/R3K1rR w KQ -"), vec![58]);
}

#[test]
fn castling_does_not_look_at_the_kings_own_square() {
    let board = board_of("4r2k/8/8/8/8/8/8/4K2R w K -");
    let moves = sudo_legal_move_gen(&board, 60, -1, (true, false, false, false), true);
    assert!(moves.contains(&flagged(60, 62, MoveFlag::Castling)));
}

#[test]
fn castling_is_not_generated_off_the_board() {
    let h1 = board_of("4k3/8/8/8/8/8/8/7K w KQ -");
    let moves = sudo_legal_move_gen(&h1, 63, -1, ALL, true);
    assert!(moves.iter().all(|m| m.flag != MoveFlag::Castling || m.end == 61));
    assert!(moves.iter().all(|m| 0 <= m.end && m.end < 64));
    let a8 = board_of("k7/8/8/8/8/8/8/7K b kq -");
    let moves = sudo_legal_move_gen(&a8, 0, -1, ALL, true);
    assert!(moves.iter().all(|m| m.flag != MoveFlag::Castling || m.end == 2));
    assert!(moves.iter().all(|m| 0 <= m.end && m.end < 64));
}

#[test]
fn side_moves_at_the_start() {
    let board = board_of(START);
    let white = side_move_gen(&board, -1, PieceColour::White, ALL);
    assert_eq!(
        white,
        vec![
            mv(48, 40), mv(48, 32), mv(49, 41), mv(49, 33), mv(50, 42), mv(50, 34),
            mv(51, 43), mv(51, 35), mv(52, 44), mv(52, 36), mv(53, 45), mv(53, 37),
            mv(54, 46), mv(54, 38), mv(55, 47), mv(55, 39), mv(57, 40), mv(57, 42),
            mv(62, 45), mv(62, 47),
        ]
    );
    let black = side_move_gen(&board, -1, PieceColour::Black, ALL);
    assert_eq!(black.len(), 20);
    assert!(black.iter().all(|m| m.start < 16));
    assert_eq!(side_move_gen(&board, -1, PieceColour::Empty, ALL), vec![]);
}

#[test]
fn side_moves_never_castle() {
    let board = board_of("r3k2r/8/8/8/8/8/8/R3K2R w KQkq -");
    for side in [PieceColour::White, PieceColour::Black] {
        let moves = side_move_gen(&board, -1, side, ALL);
        assert!(moves.iter().all(|m| m.flag == MoveFlag::Normal));
        assert_eq!(moves, side_move_gen(&board, -1, side, NONE));
    }
}

#[test]
fn generated_moves_stay_on_the_board() {
    let texts = [
        START,
        "r3k2r/pppppppp/8/8/8/8/PPPPPPPP/R3K2R w KQkq -",
        "Q6q/8/8/3nN3/3Pp3/8/8/b6B b - d3",
        "P3k2p/8/8/8/8/8/8/p3K2P w - -",
    ];
    for text in texts {
        let (board, _, rights, target) = decode_fen(text);
        for index in 0..64 {
            for m in sudo_legal_move_gen(&board, index, target, rights, true) {
                assert_eq!(m.start, index);
                assert!(0 <= m.end && m.end < 64);
                assert_ne!(m.end, m.start);
            }
        }
    }
}
