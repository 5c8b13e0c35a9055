use chess_engine::game_data::{Game, Piece, Position, WinStatus, BOARD_SIZE};
use chess_engine::logic::{
    get_game_state, get_promotion_pawn, is_valid_move, move_piece, move_piece_no_map,
    move_piece_unsafe, promote_pawn,
};
use chess_engine::moves::{generate_valid_moves, get_all_valid_moves};
use chess_engine::parser::{
    get_board, get_board_fen, get_fen, init_game_board, parse_move, parse_position, STANDARD_BOARD,
};
use chess_engine::protocol::can_touch_piece;
use chess_engine::threats::{generate_all_threats, get_threats};

fn load_board(board: &str, moves: Vec<&str>) -> Option<(String, bool)> {
    let mut game_board = match init_game_board(board.to_string()) {
        Some(gm) => gm,
        None => return None,
    };

    let mut is_successful = true;
    for input in moves {
        let (move_start, move_end) = match parse_move(&input) {
            Some(t) => t,
            None => return None,
        };
        let has_moves = move_piece_no_map(&mut game_board, move_start, move_end, true);
        if !has_moves {
            is_successful = false;
            break;
        }
    }
    return Some((
        match get_fen(&game_board.game) {
            Some(str) => str,
            None => return None,
        },
        is_successful,
    ));
}

fn total_moves(game: Game, depth: u32) -> u32 {
    if depth == 0 {
        return 1;
    }
    let mut num_moves = 0u32;
    let threatmap = generate_all_threats(&game, !game.is_white_to_move);
    for x in 0..BOARD_SIZE {
        for y in 0..BOARD_SIZE {
            let pos = Position { x: x, y: y };
            let piece_data = game.board[x][y];
            if piece_data.piece != Piece::Empty && piece_data.is_white == game.is_white_to_move {
                let valid_moves = generate_valid_moves(&game, &threatmap, &pos);
                for move_end in valid_moves.to_vec() {
                    let mut clone_board = game.clone();
                    if move_piece_unsafe(&mut clone_board, pos, move_end) {
                        num_moves += total_moves(clone_board, depth - 1);
                    }
                }
            }
        }
    }
    num_moves
}

fn square(name: &str) -> Position {
    parse_position(name).unwrap()
}

fn legal_targets(fen: &str, from: &str) -> Vec<String> {
    let board = init_game_board(fen.to_string()).unwrap();
    let threats = get_threats(&board);
    let mut names: Vec<String> = get_all_valid_moves(&board, &threats, &square(from))
        .to_vec()
        .into_iter()
        .map(chess_engine::parser::get_position)
        .collect();
    names.sort();
    names
}

fn state_of(fen: &str, force: bool) -> WinStatus {
    let board = init_game_board(fen.to_string()).unwrap();
    let threats = get_threats(&board);
    get_game_state(&board, &threats, force)
}

#[test]
fn simple_move() {
    let str = STANDARD_BOARD;
    assert_eq!(
        "rnbqkbnr/ppppp1pp/8/5P2/8/8/PPPP1PPP/RNBQKBNR b KQkq - 0 2",
        load_board(str, vec!["e2e4", "f7f5", "e4f5"]).unwrap().0
    );
}

#[test]
fn simple_invalid() {
    let str = STANDARD_BOARD;
    let (board, has_moved) = load_board(str, vec!["e1e2"]).unwrap();
    assert_eq!(str, board);
    assert_eq!(false, has_moved);
}

#[test]
fn clock_test() {
    let str = "rnbqkbnr/pppppppp/8/8/8/8/PPPPPPPP/RNBQKBNR w KQkq - 0 1";
    assert_eq!(
        "rnbqkbnr/pppppppp/8/8/8/8/PPPPPPPP/RNBQKBNR w KQkq - 4 3",
        load_board(str, vec!["b1c3", "b8c6", "c3b1", "c6b8"]).unwrap().0
    );
}

#[test]
fn en_passant_test() {
    let str = "rn2kb1r/pp1q1ppp/3p3n/2pPp3/4P1b1/2N2N2/PPP1KPPP/R1BQ1B1R w kq c6 0 7";
    assert_eq!(
        "rn2kb1r/pp1q1ppp/2Pp3n/4p3/4P1b1/2N2N2/PPP1KPPP/R1BQ1B1R b kq - 0 7",
        load_board(str, vec!["d5c6"]).unwrap().0
    );
}

#[test]
fn perft_test_2() {
    let game = get_board(
        "r3k2r/p1ppqpb1/bn2pnp1/3PN3/1p2P3/2N2Q1p/PPPBBPPP/R3K2R w KQkq - 0 0".to_string(),
    )
    .unwrap();
    assert_eq!(total_moves(game, 1), 48);
    assert_eq!(total_moves(game, 2), 2039);
    assert_eq!(total_moves(game, 3), 97862);
}

#[test]
fn perft_test_6() {
    let game = get_board(
        "r4rk1/1pp1qppp/p1np1n2/2b1p1B1/2B1P1b1/P1NP1N2/1PP1QPPP/R4RK1 w - - 0 10".to_string(),
    )
    .unwrap();

    assert_eq!(total_moves(game, 1), 46);
    assert_eq!(total_moves(game, 2), 2079);
    assert_eq!(total_moves(game, 3), 89890);
}

#[test]
fn run_deep_test_1() {
    let game = get_board(STANDARD_BOARD.to_string()).unwrap();
    assert_eq!(total_moves(game, 1), 20);
    assert_eq!(total_moves(game, 2), 400);
    assert_eq!(total_moves(game, 3), 8902);
}

#[test]
fn run_deep_test_2() {
    let game = get_board(
        "rnbqkbnr/ppp1p2p/6p1/3p1p2/6P1/5P1N/PPPPP1BP/RNBQK2R b KQkq - 1 4".to_string(),
    )
    .unwrap();
    assert_eq!(total_moves(game, 0), 1);
    assert_eq!(total_moves(game, 1), 27);
    assert_eq!(total_moves(game, 2), 671);
    assert_eq!(total_moves(game, 3), 19218);
}

#[test]
fn run_deep_test_3() {
    let game = get_board(
        "r1bqkb1r/p1pppppp/8/1p4B1/2Pn2n1/N3Q3/PP2PPPP/R3KBNR b KQkq - 1 6".to_string(),
    )
    .unwrap();
    assert_eq!(total_moves(game, 0), 1);
    assert_eq!(total_moves(game, 1), 32);
    assert_eq!(total_moves(game, 2), 1173);
    assert_eq!(total_moves(game, 3), 36787);
}

#[test]
fn run_deep_test_4() {
    let game = get_board(
        "rn2kb1r/pppq1ppp/3p3n/3Pp3/4P1b1/2N2N2/PPP1KPPP/R1BQ1B1R b kq - 2 6".to_string(),
    )
    .unwrap();
    assert_eq!(total_moves(game, 0), 1);
    assert_eq!(total_moves(game, 1), 31);
    assert_eq!(total_moves(game, 2), 767);
    assert_eq!(total_moves(game, 3), 24016);
}

#[test]
fn run_deep_test_5() {
    let game = get_board(
        "rn1qkbnr/p1pb1pp1/1p1p3p/4p1B1/Q1PP4/2N3P1/PP2PP1P/R3KBNR b KQkq - 0 6".to_string(),
    )
    .unwrap();
    assert_eq!(total_moves(game, 0), 1);
    assert_eq!(total_moves(game, 1), 26);
    assert_eq!(total_moves(game, 2), 1194);
    assert_eq!(total_moves(game, 3), 33003);
}

#[test]
fn perft_from_the_start_depth_four() {
    let game = get_board(STANDARD_BOARD.to_string()).unwrap();
    assert_eq!(total_moves(game, 0), 1);
    assert_eq!(total_moves(game, 4), 197281);
}

#[test]
fn rejected_move_changes_nothing() {
    let mut board = init_game_board(STANDARD_BOARD.to_string()).unwrap();
    let threats = get_threats(&board);
    let key = get_board_fen(&board.game).unwrap();
    for text in ["e1e2", "e2e5", "e7e5", "a1a1", "e3e4", "b1d2", "a1a3"] {
        let (from, to) = parse_move(text).unwrap();
        assert!(!move_piece(&mut board, from, to, &threats, true));
        assert_eq!(get_fen(&board.game).unwrap(), STANDARD_BOARD);
        assert_eq!(board.same_board.count(&key), 1);
        assert_eq!(board.same_board.max_count(), 1);
    }
    assert!(!move_piece(
        &mut board,
        Position { x: 4, y: 6 },
        Position { x: 4, y: 8 },
        &threats,
        true
    ));
    assert!(!move_piece(
        &mut board,
        Position { x: 9, y: 6 },
        Position { x: 4, y: 4 },
        &threats,
        true
    ));
    assert_eq!(get_fen(&board.game).unwrap(), STANDARD_BOARD);
}

#[test]
fn is_valid_move_is_the_first_test_only() {
    let game = get_board(STANDARD_BOARD.to_string()).unwrap();
    assert!(is_valid_move(&game, &square("e2"), &square("e4")));
    assert!(is_valid_move(&game, &square("e2"), &square("a5")));
    assert!(!is_valid_move(&game, &square("e2"), &square("e2")));
    assert!(!is_valid_move(&game, &square("e1"), &square("e2")));
    assert!(!is_valid_move(&game, &square("e7"), &square("e5")));
    assert!(!is_valid_move(&game, &square("e4"), &square("e5")));
    assert!(!is_valid_move(&game, &Position { x: 8, y: 0 }, &square("e5")));
    assert!(!is_valid_move(&game, &square("e2"), &Position { x: 0, y: 8 }));
}

#[test]
fn accepted_move_is_counted() {
    let mut board = init_game_board(STANDARD_BOARD.to_string()).unwrap();
    assert!(move_piece_no_map(&mut board, square("g1"), square("f3"), true));
    let key = get_board_fen(&board.game).unwrap();
    assert_eq!(key, "rnbqkbnr/pppppppp/8/8/8/5N2/PPPPPPPP/RNBQKB1R b KQkq -");
    assert_eq!(board.same_board.count(&key), 1);
    assert_eq!(board.same_board.count(&"rnbqkbnr/pppppppp/8/8/8/8/PPPPPPPP/RNBQKBNR w KQkq -".to_string()), 1);
}

#[test]
fn double_advance_sets_en_passant_target() {
    assert_eq!(
        load_board(STANDARD_BOARD, vec!["e2e4"]).unwrap().0,
        "rnbqkbnr/pppppppp/8/8/4P3/8/PPPP1PPP/RNBQKBNR b KQkq e3 0 1"
    );
    assert_eq!(
        load_board(STANDARD_BOARD, vec!["e2e4", "c7c5"]).unwrap().0,
        "rnbqkbnr/pp1ppppp/8/2p5/4P3/8/PPPP1PPP/RNBQKBNR w KQkq c6 0 2"
    );
    assert_eq!(
        load_board(STANDARD_BOARD, vec!["e2e4", "c7c5", "g1f3"]).unwrap().0,
        "rnbqkbnr/pp1ppppp/8/2p5/4P3/5N2/PPPP1PPP/RNBQKB1R b KQkq - 1 2"
    );
}

#[test]
fn black_takes_in_passing() {
    assert_eq!(
        load_board("4k3/8/8/8/2p5/8/3P4/4K3 w - - 0 1", vec!["d2d4", "c4d3"]).unwrap(),
        ("4k3/8/8/8/8/3p4/8/4K3 w - - 0 2".to_string(), true)
    );
}

#[test]
fn castling_moves_the_rook() {
    assert_eq!(
        load_board("r3k2r/8/8/8/8/8/8/R3K2R w KQkq - 0 1", vec!["e1g1"]).unwrap(),
        ("r3k2r/8/8/8/8/8/8/R4RK1 b kq - 1 1".to_string(), true)
    );
    assert_eq!(
        load_board("r3k2r/8/8/8/8/8/8/R3K2R w KQkq - 0 1", vec!["e1c1"]).unwrap(),
        ("r3k2r/8/8/8/8/8/8/2KR3R b kq - 1 1".to_string(), true)
    );
    assert_eq!(
        load_board("r3k2r/8/8/8/8/8/8/R3K2R b KQkq - 0 1", vec!["e8g8"]).unwrap(),
        ("r4rk1/8/8/8/8/8/8/R3K2R w KQ - 1 2".to_string(), true)
    );
    assert_eq!(
        load_board("r3k2r/8/8/8/8/8/8/R3K2R b KQkq - 0 1", vec!["e8c8"]).unwrap(),
        ("2kr3r/8/8/8/8/8/8/R3K2R w KQ - 1 2".to_string(), true)
    );
}

#[test]
fn castling_squares_are_offered() {
    assert_eq!(
        legal_targets("r3k2r/8/8/8/8/8/8/R3K2R w KQkq - 0 1", "e1"),
        vec!["c1", "d1", "d2", "e2", "f1", "f2", "g1"]
    );
    assert_eq!(
        legal_targets("r3k2r/8/8/8/8/8/8/R3K2R w Kkq - 0 1", "e1"),
        vec!["d1", "d2", "e2", "f1", "f2", "g1"]
    );
    assert_eq!(
        legal_targets("r3k2r/8/8/8/8/8/8/R3K2R w - - 0 1", "e1"),
        vec!["d1", "d2", "e2", "f1", "f2"]
    );
}

#[test]
fn no_castling_through_an_attacked_square() {
    // The black rook on f8 attacks f1.
    assert_eq!(
        legal_targets("4kr2/8/8/8/8/8/8/R3K2R w KQ - 0 1", "e1"),
        vec!["c1", "d1", "d2", "e2"]
    );
    // The black rook on b8 attacks b1, which the king does not cross.
    assert_eq!(
        legal_targets("1r2k3/8/8/8/8/8/8/R3K2R w KQ - 0 1", "e1"),
        vec!["c1", "d1", "d2", "e2", "f1", "f2", "g1"]
    );
}

#[test]
fn no_castling_out_of_check_or_over_a_piece() {
    assert_eq!(
        legal_targets("4r1k1/8/8/8/8/8/8/R3K2R w KQ - 0 1", "e1"),
        vec!["d1", "d2", "f1", "f2"]
    );
    assert_eq!(
        legal_targets("4k3/8/8/8/8/8/8/RN2K1NR w KQ - 0 1", "e1"),
        vec!["d1", "d2", "e2", "f1", "f2"]
    );
}

#[test]
fn rook_move_ends_its_castling_right() {
    assert_eq!(
        load_board("r3k2r/8/8/8/8/8/8/R3K2R w KQkq - 0 1", vec!["h1h2"]).unwrap().0,
        "r3k2r/8/8/8/8/8/7R/R3K3 b Qkq - 1 1"
    );
    assert_eq!(
        load_board("r3k2r/8/8/8/8/8/8/R3K2R w KQkq - 0 1", vec!["a1b1"]).unwrap().0,
        "r3k2r/8/8/8/8/8/8/1R2K2R b Kkq - 1 1"
    );
    assert_eq!(
        load_board("r3k2r/8/8/8/8/8/8/R3K2R b KQkq - 0 1", vec!["a8a7"]).unwrap().0,
        "4k2r/r7/8/8/8/8/8/R3K2R w KQk - 1 2"
    );
}

#[test]
fn rook_capture_ends_the_right_of_its_side() {
    assert_eq!(
        load_board("r3k2r/8/8/8/8/8/8/R3K2R w KQkq - 0 1", vec!["h1h8"]).unwrap().0,
        "r3k2R/8/8/8/8/8/8/R3K3 b Qq - 0 1"
    );
    assert_eq!(
        load_board("r3k2r/8/8/8/8/8/8/R3K2R b KQkq - 0 1", vec!["a8a1"]).unwrap().0,
        "4k2r/8/8/8/8/8/8/r3K2R w Kk - 0 2"
    );
}

#[test]
fn king_move_ends_both_rights() {
    assert_eq!(
        load_board("r3k2r/8/8/8/8/8/8/R3K2R w KQkq - 0 1", vec!["e1e2"]).unwrap().0,
        "r3k2r/8/8/8/8/8/4K3/R6R b kq - 1 1"
    );
}

#[test]
fn capture_resets_half_move_clock() {
    assert_eq!(
        load_board("4k3/8/8/3p4/8/2N5/8/4K3 w - - 7 9", vec!["c3d5"]).unwrap().0,
        "4k3/8/8/3N4/8/8/8/4K3 b - - 0 9"
    );
    assert_eq!(
        load_board("4k3/8/8/3p4/8/2N5/8/4K3 w - - 7 9", vec!["c3e4"]).unwrap().0,
        "4k3/8/8/3p4/4N3/8/8/4K3 b - - 8 9"
    );
}

#[test]
fn pinned_piece_stays_on_its_line() {
    // The rook on e2 is pinned by the rook on e8.
    assert_eq!(
        legal_targets("4r1k1/8/8/8/8/8/4R3/4K3 w - - 0 1", "e2"),
        vec!["e3", "e4", "e5", "e6", "e7", "e8"]
    );
    // The knight on e2 is pinned and cannot move at all.
    assert_eq!(legal_targets("4r1k1/8/8/8/8/8/4N3/4K3 w - - 0 1", "e2"), Vec::<String>::new());
}

#[test]
fn check_must_be_answered() {
    // The rook on e8 checks the king on e1; the bishop can only block on e3.
    assert_eq!(legal_targets("4r1k1/8/8/8/8/8/8/2B1K3 w - - 0 1", "c1"), vec!["e3"]);
    // The king leaves the file; it cannot stay on it.
    assert_eq!(
        legal_targets("4r1k1/8/8/8/8/8/8/2B1K3 w - - 0 1", "e1"),
        vec!["d1", "d2", "f1", "f2"]
    );
}

#[test]
fn king_cannot_step_back_along_the_checking_line() {
    // The rook on e8 checks the king on e2: e1 lies behind the king on the same file.
    assert_eq!(
        legal_targets("4r1k1/8/8/8/8/8/4K3/8 w - - 0 1", "e2"),
        vec!["d1", "d2", "d3", "f1", "f2", "f3"]
    );
}

#[test]
fn king_takes_an_unguarded_checking_piece() {
    assert_eq!(
        legal_targets("6k1/8/8/8/8/8/4r3/4K3 w - - 0 1", "e1"),
        vec!["d1", "e2", "f1"]
    );
    // Guarded by the bishop on h5, the rook cannot be taken.
    assert_eq!(
        legal_targets("6k1/8/8/7b/8/8/4r3/4K3 w - - 0 1", "e1"),
        vec!["d1", "f1"]
    );
}

#[test]
fn pawn_moves() {
    assert_eq!(legal_targets(STANDARD_BOARD, "e2"), vec!["e3", "e4"]);
    assert_eq!(legal_targets("4k3/8/8/8/8/4p3/4P3/4K3 w - - 0 1", "e2"), Vec::<String>::new());
    assert_eq!(legal_targets("4k3/8/8/8/4p3/8/4P3/4K3 w - - 0 1", "e2"), vec!["e3"]);
    assert_eq!(
        legal_targets("4k3/8/8/8/8/3p1p2/4P3/4K3 w - - 0 1", "e2"),
        vec!["d3", "e3", "e4", "f3"]
    );
    assert_eq!(legal_targets("4k3/4p3/8/8/8/8/8/4K3 b - - 0 1", "e7"), vec!["e5", "e6"]);
}

#[test]
fn threat_map_of_the_start() {
    let game = get_board(STANDARD_BOARD.to_string()).unwrap();
    let map = generate_all_threats(&game, true);
    assert_eq!(map.all_moves.to_vec().len(), 16);
    // Rank 3 is attacked, and so are the pieces that guard each other; a1 and h1 are not.
    assert_eq!(map.all_threats.to_vec().len(), 22);
    assert!(map.all_threats.contains(&square("e3")));
    assert!(map.all_threats.contains(&square("d2")));
    assert!(!map.all_threats.contains(&square("a1")));
    assert!(!map.all_threats.contains(&square("e4")));
    assert!(map.all_moves.contains(&square("e4")));
    assert!(map.all_king_threats.is_empty());
    assert!(map.all_king_threats_full.is_empty());
    assert!(map.all_pinned.is_empty());
}

#[test]
fn threat_map_of_a_check_along_a_line() {
    let game = get_board("4r1k1/8/8/8/8/8/4K3/8 w - - 0 1".to_string()).unwrap();
    let map = generate_all_threats(&game, false);
    let mut line: Vec<String> = map
        .all_king_threats
        .to_vec()
        .into_iter()
        .map(chess_engine::parser::get_position)
        .collect();
    line.sort();
    assert_eq!(line, vec!["e2", "e3", "e4", "e5", "e6", "e7", "e8"]);
    let mut full: Vec<String> = map
        .all_king_threats_full
        .to_vec()
        .into_iter()
        .map(chess_engine::parser::get_position)
        .collect();
    full.sort();
    assert_eq!(full, vec!["e1", "e2", "e3", "e4", "e5", "e6", "e7", "e8"]);
    assert!(map.all_pinned.is_empty());
}

#[test]
fn threat_map_of_a_pin() {
    let game = get_board("4r1k1/8/8/8/8/8/4R3/4K3 w - - 0 1".to_string()).unwrap();
    let map = generate_all_threats(&game, false);
    assert!(map.all_king_threats.is_empty());
    assert_eq!(map.all_pinned.len(), 1);
    let mut line: Vec<String> = map.all_pinned[0]
        .to_vec()
        .into_iter()
        .map(chess_engine::parser::get_position)
        .collect();
    line.sort();
    assert_eq!(line, vec!["e1", "e2", "e3", "e4", "e5", "e6", "e7", "e8"]);
    // The line is attacked up to the pinned rook and not behind it.
    assert!(map.all_threats.contains(&square("e2")));
    assert!(!map.all_threats.contains(&square("e1")));
}

#[test]
fn threat_map_of_a_knight_check() {
    let game = get_board("6k1/8/8/8/8/3n4/8/4K3 w - - 0 1".to_string()).unwrap();
    let map = generate_all_threats(&game, false);
    let mut line: Vec<String> = map
        .all_king_threats
        .to_vec()
        .into_iter()
        .map(chess_engine::parser::get_position)
        .collect();
    line.sort();
    assert_eq!(line, vec!["d3", "e1"]);
    assert!(map.all_king_threats_full.is_empty());
}

#[test]
fn pawn_attacks_empty_squares_without_moving_there() {
    let game = get_board("4k3/8/8/8/8/8/4P3/4K3 w - - 0 1".to_string()).unwrap();
    let map = generate_all_threats(&game, true);
    assert!(map.all_threats.contains(&square("d3")));
    assert!(map.all_threats.contains(&square("f3")));
    assert!(!map.all_threats.contains(&square("e3")));
    assert!(!map.all_moves.contains(&square("d3")));
    assert!(map.all_moves.contains(&square("e3")));
    assert!(map.all_moves.contains(&square("e4")));
}

#[test]
fn pawn_on_its_last_rank_attacks_nothing() {
    let game = get_board("P3k3/8/8/8/8/8/8/4K3 b - - 0 1".to_string()).unwrap();
    let map = generate_all_threats(&game, true);
    assert_eq!(map.all_moves.to_vec().len(), 5);
    assert_eq!(map.all_threats.to_vec().len(), 5);
}

#[test]
fn promotion_turns_the_pawn_into_the_piece() {
    let mut game = get_board("4k3/8/8/8/8/8/8/p3K3 w - - 0 1".to_string()).unwrap();
    assert_eq!(get_promotion_pawn(&game), Some(Position { x: 0, y: 7 }));
    assert!(!promote_pawn(&mut game, Piece::King));
    assert!(!promote_pawn(&mut game, Piece::Pawn));
    assert!(!promote_pawn(&mut game, Piece::Empty));
    assert_eq!(get_fen(&game).unwrap(), "4k3/8/8/8/8/8/8/p3K3 w - - 0 1");
    assert!(promote_pawn(&mut game, Piece::Knight));
    assert_eq!(get_fen(&game).unwrap(), "4k3/8/8/8/8/8/8/n3K3 w - - 0 1");
    assert_eq!(get_promotion_pawn(&game), None);
    assert!(!promote_pawn(&mut game, Piece::Queen));
}

#[test]
fn promotion_takes_the_pawn_on_the_top_rank_first() {
    let mut game = get_board("2P1k2P/8/8/8/8/8/8/p3K3 w - - 0 1".to_string()).unwrap();
    assert_eq!(get_promotion_pawn(&game), Some(Position { x: 2, y: 0 }));
    assert!(promote_pawn(&mut game, Piece::Rook));
    assert_eq!(get_fen(&game).unwrap(), "2R1k2P/8/8/8/8/8/8/p3K3 w - - 0 1");
    assert_eq!(get_promotion_pawn(&game), Some(Position { x: 7, y: 0 }));
}

#[test]
fn auto_promotion_makes_a_queen() {
    assert_eq!(
        load_board("4k3/P7/8/8/8/8/8/4K3 w - - 0 1", vec!["a7a8"]).unwrap(),
        ("Q3k3/8/8/8/8/8/8/4K3 b - - 0 1".to_string(), true)
    );
}

#[test]
fn no_move_while_a_promotion_waits() {
    let mut board = init_game_board("4k3/P7/8/8/8/8/8/4K3 w - - 0 1".to_string()).unwrap();
    assert!(move_piece_no_map(&mut board, square("a7"), square("a8"), false));
    assert_eq!(get_fen(&board.game).unwrap(), "P3k3/8/8/8/8/8/8/4K3 b - - 0 1");
    assert!(!move_piece_no_map(&mut board, square("e8"), square("e7"), false));
    assert!(promote_pawn(&mut board.game, Piece::Bishop));
    assert!(move_piece_no_map(&mut board, square("e8"), square("e7"), false));
    assert_eq!(get_fen(&board.game).unwrap(), "B7/4k3/8/8/8/8/8/4K3 w - - 1 2");
}

#[test]
fn move_piece_unsafe_on_an_empty_square_does_nothing() {
    let mut game = get_board(STANDARD_BOARD.to_string()).unwrap();
    assert!(!move_piece_unsafe(&mut game, square("e4"), square("e5")));
    assert_eq!(get_fen(&game).unwrap(), STANDARD_BOARD);
    assert!(move_piece_unsafe(&mut game, square("e2"), square("e4")));
    assert_eq!(
        get_fen(&game).unwrap(),
        "rnbqkbnr/pppppppp/8/8/4P3/8/PPPP1PPP/RNBQKBNR b KQkq e3 0 1"
    );
}

#[test]
fn checkmate_and_stalemate() {
    // Fool's mate: white is mated.
    assert_eq!(
        state_of("rnb1kbnr/pppp1ppp/8/4p3/6Pq/5P2/PPPPP2P/RNBQKBNR w KQkq - 1 3", false),
        WinStatus::BlackWon
    );
    // Back-rank mate: black is mated.
    assert_eq!(state_of("R5k1/5ppp/8/8/8/8/8/4K3 b - - 0 1", false), WinStatus::WhiteWon);
    // Stalemate: black has no move and is not in check.
    assert_eq!(state_of("7k/5Q2/6K1/8/8/8/8/8 b - - 0 1", false), WinStatus::Tie);
    assert_eq!(state_of(STANDARD_BOARD, true), WinStatus::Nothing);
}

#[test]
fn fifty_moves_tie_the_game() {
    assert_eq!(state_of("4k3/8/8/8/8/8/8/R3K3 w - - 99 80", true), WinStatus::Nothing);
    assert_eq!(state_of("4k3/8/8/8/8/8/8/R3K3 w - - 100 80", false), WinStatus::Tie);
    // A mate counts before the clock.
    assert_eq!(state_of("R5k1/5ppp/8/8/8/8/8/4K3 b - - 100 80", false), WinStatus::WhiteWon);
}

#[test]
fn third_occurrence_ties_when_asked() {
    let mut board = init_game_board(STANDARD_BOARD.to_string()).unwrap();
    let round = ["b1c3", "b8c6", "c3b1", "c6b8"];
    for text in round {
        let (from, to) = parse_move(text).unwrap();
        assert!(move_piece_no_map(&mut board, from, to, true));
    }
    let start = get_board_fen(&board.game).unwrap();
    assert_eq!(board.same_board.count(&start), 2);
    let threats = get_threats(&board);
    assert_eq!(get_game_state(&board, &threats, true), WinStatus::Nothing);
    for text in round {
        let (from, to) = parse_move(text).unwrap();
        assert!(move_piece_no_map(&mut board, from, to, true));
    }
    assert_eq!(board.same_board.count(&start), 3);
    let threats = get_threats(&board);
    assert_eq!(get_game_state(&board, &threats, true), WinStatus::Tie);
    assert_eq!(get_game_state(&board, &threats, false), WinStatus::Nothing);
    assert!(!get_all_valid_moves(&board, &threats, &square("e2")).is_empty());
}

#[test]
fn fifth_occurrence_ties_always() {
    let mut board = init_game_board(STANDARD_BOARD.to_string()).unwrap();
    let round = ["g1f3", "g8f6", "f3g1", "f6g8"];
    for _ in 0..3 {
        for text in round {
            let (from, to) = parse_move(text).unwrap();
            assert!(move_piece_no_map(&mut board, from, to, true));
        }
    }
    let threats = get_threats(&board);
    assert_eq!(board.same_board.max_count(), 4);
    assert_eq!(get_game_state(&board, &threats, false), WinStatus::Nothing);
    for text in round {
        let (from, to) = parse_move(text).unwrap();
        assert!(move_piece_no_map(&mut board, from, to, true));
    }
    let threats = get_threats(&board);
    assert_eq!(board.same_board.max_count(), 5);
    assert_eq!(get_game_state(&board, &threats, false), WinStatus::Tie);
}

#[test]
fn undo_restores_the_position() {
    let cases = [
        (STANDARD_BOARD, "e2e4"),
        (STANDARD_BOARD, "g1f3"),
        ("r3k2r/8/8/8/8/8/8/R3K2R w KQkq - 3 9", "e1g1"),
        ("r3k2r/8/8/8/8/8/8/R3K2R w KQkq - 3 9", "e1c1"),
        ("r3k2r/8/8/8/8/8/8/R3K2R b KQkq - 3 9", "e8c8"),
        ("r3k2r/8/8/8/8/8/8/R3K2R w KQkq - 3 9", "h1h8"),
        ("rn2kb1r/pp1q1ppp/3p3n/2pPp3/4P1b1/2N2N2/PPP1KPPP/R1BQ1B1R w kq c6 0 7", "d5c6"),
        ("4k3/P7/8/8/8/8/8/4K3 w - - 5 40", "a7a8"),
        ("4k3/8/8/3p4/8/2N5/8/4K3 w - - 7 9", "c3d5"),
        (STANDARD_BOARD, "e4e5"),
    ];
    for (fen, text) in cases {
        let mut game = get_board(fen.to_string()).unwrap();
        let (from, to) = parse_move(text).unwrap();
        let log = chess_engine::undo::move_piece_undoable(&mut game, from, to);
        let mut expected = get_board(fen.to_string()).unwrap();
        move_piece_unsafe(&mut expected, from, to);
        assert_eq!(get_fen(&game).unwrap(), get_fen(&expected).unwrap());
        chess_engine::undo::undo_move(&mut game, &log);
        assert_eq!(get_fen(&game).unwrap(), fen);
    }
}

#[test]
fn undo_log_lists_the_changed_squares() {
    let mut game = get_board(STANDARD_BOARD.to_string()).unwrap();
    let log = chess_engine::undo::move_piece_undoable(&mut game, square("e2"), square("e4"));
    assert_eq!(log.squares.len(), 2);
    assert!(log.squares.iter().any(|(p, d)| *p == square("e2") && d.piece == Piece::Pawn));
    assert!(log.squares.iter().any(|(p, d)| *p == square("e4") && d.piece == Piece::Empty));
    let mut game = get_board("r3k2r/8/8/8/8/8/8/R3K2R w KQkq - 3 9".to_string()).unwrap();
    let log = chess_engine::undo::move_piece_undoable(&mut game, square("e1"), square("g1"));
    assert_eq!(log.squares.len(), 4);
    assert_eq!(log.half_move_clock, 3);
    assert_eq!(log.full_move_clock, 9);
    assert!(log.castle[0].can_castle_king_side);
}

fn total_moves_with_undo(game: &mut Game, depth: u32) -> u32 {
    if depth == 0 {
        return 1;
    }
    let mut num_moves = 0u32;
    let threatmap = generate_all_threats(game, !game.is_white_to_move);
    for x in 0..BOARD_SIZE {
        for y in 0..BOARD_SIZE {
            let pos = Position { x: x, y: y };
            let piece_data = game.board[x][y];
            if piece_data.piece != Piece::Empty && piece_data.is_white == game.is_white_to_move {
                let valid_moves = generate_valid_moves(game, &threatmap, &pos);
                for move_end in valid_moves.to_vec() {
                    let log = chess_engine::undo::move_piece_undoable(game, pos, move_end);
                    num_moves += total_moves_with_undo(game, depth - 1);
                    chess_engine::undo::undo_move(game, &log);
                }
            }
        }
    }
    num_moves
}

#[test]
fn move_counts_with_undo() {
    let mut game = get_board(
        "r3k2r/p1ppqpb1/bn2pnp1/3PN3/1p2P3/2N2Q1p/PPPBBPPP/R3K2R w KQkq - 0 0".to_string(),
    )
    .unwrap();
    assert_eq!(total_moves_with_undo(&mut game, 1), 48);
    assert_eq!(total_moves_with_undo(&mut game, 2), 2039);
    assert_eq!(total_moves_with_undo(&mut game, 3), 97862);
    assert_eq!(
        get_fen(&game).unwrap(),
        "r3k2r/p1ppqpb1/bn2pnp1/3PN3/1p2P3/2N2Q1p/PPPBBPPP/R3K2R w KQkq - 0 0"
    );
}

#[test]
fn team_moves_are_the_moves_of_its_pieces() {
    let game = get_board(STANDARD_BOARD.to_string()).unwrap();
    let threats = generate_all_threats(&game, false);
    let moves = chess_engine::moves::generate_valid_moves_for_team(&game, &threats, true);
    assert_eq!(moves.to_vec().len(), 16);
    assert!(moves.contains(&square("a3")));
    assert!(moves.contains(&square("h4")));
    assert!(!moves.contains(&square("e5")));
    let moves = chess_engine::moves::generate_valid_moves_for_team(&game, &threats, false);
    assert_eq!(moves.to_vec().len(), 16);
    assert!(moves.contains(&square("e5")));
}

#[test]
fn touching_a_piece() {
    let game = get_board(STANDARD_BOARD.to_string()).unwrap();
    assert!(can_touch_piece(&game, &square("e2"), false, false));
    assert!(can_touch_piece(&game, &square("e2"), true, false));
    assert!(!can_touch_piece(&game, &square("e2"), false, true));
    assert!(!can_touch_piece(&game, &square("e7"), false, false));
    assert!(!can_touch_piece(&game, &square("e4"), false, false));
    assert!(!can_touch_piece(&game, &Position { x: 8, y: 8 }, false, false));
    let game = get_board("rnbqkbnr/pppppppp/8/8/4P3/8/PPPP1PPP/RNBQKBNR b KQkq e3 0 1".to_string())
        .unwrap();
    assert!(can_touch_piece(&game, &square("e7"), false, true));
    assert!(!can_touch_piece(&game, &square("e7"), true, false));
    assert!(!can_touch_piece(&game, &square("e4"), false, true));
}
