use chess_engine::game_data::{Piece, Position, BOARD_SIZE};
use chess_engine::parser::{
    get_board, get_board_fen, get_fen, get_move, get_piece, get_position, init_game_board,
    parse_move, parse_piece, parse_position, parse_promotion, print_board, STANDARD_BOARD,
};

#[test]
fn parse_test_1() {
    let pos_unchecked = parse_position("a1");
    assert!(pos_unchecked.is_some());
    assert_eq!(pos_unchecked.unwrap(), Position { x: 0, y: BOARD_SIZE - 1 });
}

#[test]
fn parse_test_2() {
    let pos_unchecked = parse_position("h8");
    assert!(pos_unchecked.is_some());
    assert_eq!(pos_unchecked.unwrap(), Position { x: BOARD_SIZE - 1, y: 0 });
}

#[test]
fn parse_test_invalid() {
    assert!(parse_position("h9").is_none());
    assert!(parse_position("a0").is_none());
    assert!(parse_position("a").is_none());
    assert!(parse_position("0").is_none());
    assert!(parse_position("--").is_none());
    assert!(parse_position("").is_none());
    assert!(parse_position(" ").is_none());
    assert!(parse_position("\n").is_none());
}

#[test]
fn parse_test_valid() {
    assert!(parse_position("h7").is_some());
    assert!(parse_position("h2").is_some());
    assert!(parse_position("e2").is_some());
    assert!(parse_position("c1").is_some());
    assert!(parse_position("f4").is_some());

    assert!(parse_position("F4").is_some());
    assert!(parse_position("A1").is_some());
    assert!(parse_position("B2").is_some());
    assert!(parse_position("C8").is_some());
}

#[test]
fn fen_test_no_castle() {
    let str = "rnbqk2r/pppp2pp/3b1n2/4pp2/4PP2/3B1N2/PPPP2PP/RNBQK2R w KQkq - 2 5";
    let board = get_board(str.to_string());
    assert!(board.is_some());
    let board_string = get_fen(&board.unwrap());
    assert!(board_string.is_some());
    let valid_board_string = board_string.unwrap();
    assert_eq!(str, valid_board_string);
}

#[test]
fn fen_test_one_castle() {
    let str = "rnbqk2r/pppp2pp/3b1n2/4pp2/4PP2/3B1N2/PPPP2PP/RNBQ1RK1 b kq - 3 5";
    let board = get_board(str.to_string());
    assert!(board.is_some());
    let board_string = get_fen(&board.unwrap());
    assert!(board_string.is_some());
    let valid_board_string = board_string.unwrap();
    assert_eq!(str, valid_board_string);
}

#[test]
fn fen_test_both_castle() {
    let str = "rnbq1rk1/pppp2pp/3b1n2/4pp2/4PP2/3B1N2/PPPP2PP/RNBQ1RK1 w - - 4 6";
    let board = get_board(str.to_string());
    assert!(board.is_some());
    let board_string = get_fen(&board.unwrap());
    assert!(board_string.is_some());
    let valid_board_string = board_string.unwrap();
    assert_eq!(str, valid_board_string);
}

#[test]
fn parse_position_gives_file_and_rank() {
    assert_eq!(parse_position("e6"), Some(Position { x: 4, y: 2 }));
    assert_eq!(parse_position("E6"), Some(Position { x: 4, y: 2 }));
    assert_eq!(parse_position("h1"), Some(Position { x: 7, y: 7 }));
    assert_eq!(parse_position("a8"), Some(Position { x: 0, y: 0 }));
}

#[test]
fn parse_position_rejects_other_lengths_and_letters() {
    assert!(parse_position("e66").is_none());
    assert!(parse_position("i1").is_none());
    assert!(parse_position("I1").is_none());
    assert!(parse_position("1e").is_none());
    assert!(parse_position("é1").is_none());
    assert!(parse_position("e９").is_none());
}

#[test]
fn get_position_names_the_square() {
    assert_eq!(get_position(Position { x: 0, y: 7 }), "a1");
    assert_eq!(get_position(Position { x: 7, y: 0 }), "h8");
    assert_eq!(get_position(Position { x: 4, y: 2 }), "e6");
}

#[test]
fn square_names_round_trip() {
    for x in 0..8 {
        for y in 0..8 {
            let pos = Position { x, y };
            assert_eq!(parse_position(&get_position(pos)), Some(pos));
        }
    }
}

#[test]
fn get_move_joins_two_squares() {
    assert_eq!(get_move(Position { x: 4, y: 6 }, Position { x: 4, y: 4 }), "e2e4");
    assert_eq!(get_move(Position { x: 6, y: 0 }, Position { x: 5, y: 2 }), "g8f6");
}

#[test]
fn parse_move_reads_two_squares() {
    assert_eq!(parse_move("e2e4"), Some((Position { x: 4, y: 6 }, Position { x: 4, y: 4 })));
    assert_eq!(parse_move("A7h1"), Some((Position { x: 0, y: 1 }, Position { x: 7, y: 7 })));
}

#[test]
fn parse_move_rejects_bad_text() {
    assert!(parse_move("").is_none());
    assert!(parse_move("e2").is_none());
    assert!(parse_move("e2e").is_none());
    assert!(parse_move("e2e4q").is_none());
    assert!(parse_move("e2e9").is_none());
    assert!(parse_move("z2e4").is_none());
    assert!(parse_move("aéb").is_none());
    assert!(parse_move("e2 e4").is_none());
}

#[test]
fn parse_promotion_defaults_to_queen() {
    assert_eq!(parse_promotion(Some('q')), Piece::Queen);
    assert_eq!(parse_promotion(Some('r')), Piece::Rook);
    assert_eq!(parse_promotion(Some('b')), Piece::Bishop);
    assert_eq!(parse_promotion(Some('n')), Piece::Knight);
    assert_eq!(parse_promotion(None), Piece::Queen);
    assert_eq!(parse_promotion(Some('x')), Piece::Queen);
    assert_eq!(parse_promotion(Some('k')), Piece::Queen);
}

#[test]
fn piece_letters_round_trip() {
    let letters = ['p', 'n', 'b', 'r', 'q', 'k', 'P', 'N', 'B', 'R', 'Q', 'K'];
    for c in letters {
        let piece = parse_piece(c).unwrap();
        assert_eq!(piece.is_white, c.is_ascii_uppercase());
        assert_eq!(get_piece(piece), Some(c));
    }
    assert!(parse_piece('x').is_none());
    assert!(parse_piece('1').is_none());
    assert_eq!(parse_piece('N').unwrap().piece, Piece::Knight);
    assert_eq!(parse_piece('q').unwrap().piece, Piece::Queen);
}

#[test]
fn get_piece_has_no_letter_for_an_empty_square() {
    let game = get_board(STANDARD_BOARD.to_string()).unwrap();
    assert_eq!(get_piece(game.board[0][3]), None);
    assert_eq!(get_piece(game.board[0][0]), Some('r'));
    assert_eq!(get_piece(game.board[4][7]), Some('K'));
}

#[test]
fn decode_standard_board() {
    let game = get_board(STANDARD_BOARD.to_string()).unwrap();
    assert!(game.is_white_to_move);
    assert_eq!(game.half_move_clock, 0);
    assert_eq!(game.full_move_clock, 1);
    assert_eq!(game.en_passant_position, None);
    assert_eq!(game.board[4][7].piece, Piece::King);
    assert!(game.board[4][7].is_white);
    assert_eq!(game.board[4][0].piece, Piece::King);
    assert!(!game.board[4][0].is_white);
    assert_eq!(game.board[0][6].piece, Piece::Pawn);
    assert_eq!(game.board[3][3].piece, Piece::Empty);
    for side in 0..2 {
        assert!(game.castle[side].can_castle_king_side);
        assert!(game.castle[side].can_castle_queen_side);
    }
    assert_eq!(game.castle[0].queen_side_rook, Position { x: 0, y: 7 });
    assert_eq!(game.castle[0].king_side_rook, Position { x: 7, y: 7 });
    assert_eq!(game.castle[1].queen_side_rook, Position { x: 0, y: 0 });
    assert_eq!(game.castle[1].king_side_rook, Position { x: 7, y: 0 });
}

#[test]
fn decode_rejects_wrong_field_count() {
    assert!(get_board("".to_string()).is_none());
    assert!(get_board("rnbqkbnr/pppppppp/8/8/8/8/PPPPPPPP/RNBQKBNR w KQkq - 0".to_string()).is_none());
    assert!(get_board("rnbqkbnr/pppppppp/8/8/8/8/PPPPPPPP/RNBQKBNR w KQkq - 0 1 x".to_string()).is_none());
}

#[test]
fn decode_rejects_bad_clocks() {
    assert!(get_board("8/8/8/8/8/8/8/8 w - - x 1".to_string()).is_none());
    assert!(get_board("8/8/8/8/8/8/8/8 w - - 0 -1".to_string()).is_none());
    assert!(get_board("8/8/8/8/8/8/8/8 w - - 65536 1".to_string()).is_none());
    assert!(get_board("8/8/8/8/8/8/8/8 w - - 0 1.5".to_string()).is_none());
    assert!(get_board("8/8/8/8/8/8/8/8 w - - + 1".to_string()).is_none());
}

#[test]
fn decode_accepts_clock_limits_and_plus_sign() {
    let game = get_board("8/8/8/8/8/8/8/8 w - - 65535 +7".to_string()).unwrap();
    assert_eq!(game.half_move_clock, 65535);
    assert_eq!(game.full_move_clock, 7);
    let game = get_board("8/8/8/8/8/8/8/8 w - - 007 0".to_string()).unwrap();
    assert_eq!(game.half_move_clock, 7);
    assert_eq!(get_fen(&game).unwrap(), "8/8/8/8/8/8/8/8 w - - 7 0");
}

#[test]
fn decode_rejects_unknown_placement_character() {
    assert!(get_board("rnbqkbnr/pppppppp/8/8/8/8/PPPPPPPP/RNBQKBNX w KQkq - 0 1".to_string()).is_none());
    assert!(get_board("8/8/8/8/8/8/8/7? w - - 0 1".to_string()).is_none());
}

#[test]
fn decode_splits_at_any_white_space() {
    let game = get_board("  8/8/8/8/8/8/8/8\tb   -\n- 3 \u{a0} 9 ".to_string()).unwrap();
    assert!(!game.is_white_to_move);
    assert_eq!(get_fen(&game).unwrap(), "8/8/8/8/8/8/8/8 b - - 3 9");
}

#[test]
fn decode_side_to_move_is_white_only_for_w() {
    assert!(get_board("8/8/8/8/8/8/8/8 w - - 0 1".to_string()).unwrap().is_white_to_move);
    assert!(!get_board("8/8/8/8/8/8/8/8 b - - 0 1".to_string()).unwrap().is_white_to_move);
    assert!(!get_board("8/8/8/8/8/8/8/8 W - - 0 1".to_string()).unwrap().is_white_to_move);
    assert!(!get_board("8/8/8/8/8/8/8/8 ww - - 0 1".to_string()).unwrap().is_white_to_move);
}

#[test]
fn decode_reads_en_passant_target() {
    let game = get_board("8/8/8/8/8/8/8/8 w - c6 0 1".to_string()).unwrap();
    assert_eq!(game.en_passant_position, Some(Position { x: 2, y: 2 }));
    let game = get_board("8/8/8/8/8/8/8/8 w - zz 0 1".to_string()).unwrap();
    assert_eq!(game.en_passant_position, None);
}

#[test]
fn castling_field_names_each_side() {
    for field in ["KQkq", "KQ", "kq", "K", "Q", "k", "q", "Kq", "Qk", "-"] {
        let text = format!("r3k2r/8/8/8/8/8/8/R3K2R w {} - 0 1", field);
        let game = get_board(text.clone()).unwrap();
        assert_eq!(game.castle[0].can_castle_king_side, field.contains('K'));
        assert_eq!(game.castle[0].can_castle_queen_side, field.contains('Q'));
        assert_eq!(game.castle[1].can_castle_king_side, field.contains('k'));
        assert_eq!(game.castle[1].can_castle_queen_side, field.contains('q'));
        assert_eq!(get_fen(&game).unwrap(), text);
    }
    let game = get_board("r3k2r/8/8/8/8/8/8/R3K2R w qkQK - 0 1".to_string()).unwrap();
    assert_eq!(get_fen(&game).unwrap(), "r3k2r/8/8/8/8/8/8/R3K2R w KQkq - 0 1");
}

#[test]
fn board_fen_leaves_out_the_clocks() {
    let game = get_board("rn2kb1r/pp1q1ppp/3p3n/2pPp3/4P1b1/2N2N2/PPP1KPPP/R1BQ1B1R w kq c6 0 7".to_string())
        .unwrap();
    assert_eq!(
        get_board_fen(&game).unwrap(),
        "rn2kb1r/pp1q1ppp/3p3n/2pPp3/4P1b1/2N2N2/PPP1KPPP/R1BQ1B1R w kq c6"
    );
    assert_eq!(
        print_board(&game).unwrap(),
        "rn2kb1r/pp1q1ppp/3p3n/2pPp3/4P1b1/2N2N2/PPP1KPPP/R1BQ1B1R w kq c6 0 7"
    );
}

#[test]
fn encode_writes_large_clocks() {
    let game = get_board("8/8/8/8/8/8/8/8 b - - 100 65535".to_string()).unwrap();
    assert_eq!(get_fen(&game).unwrap(), "8/8/8/8/8/8/8/8 b - - 100 65535");
    let game = get_board("8/8/8/8/8/8/8/8 b - - 9 10".to_string()).unwrap();
    assert_eq!(get_fen(&game).unwrap(), "8/8/8/8/8/8/8/8 b - - 9 10");
}

#[test]
fn placement_skips_the_character_after_a_full_rank() {
    let game = get_board("rnbqkbnrXpppppppp/8/8/8/8/PPPPPPPP/RNBQKBNR w - - 0 1".to_string()).unwrap();
    assert_eq!(
        get_fen(&game).unwrap(),
        "rnbqkbnr/pppppppp/8/8/8/8/PPPPPPPP/RNBQKBNR w - - 0 1"
    );
}

#[test]
fn placement_stops_at_a_ninth_rank() {
    let game = get_board("8/8/8/8/8/8/8/8/pppp?? w - - 0 1".to_string()).unwrap();
    assert_eq!(get_fen(&game).unwrap(), "8/8/8/8/8/8/8/8 w - - 0 1");
}

#[test]
fn init_game_board_counts_the_first_position_once() {
    let board = init_game_board(STANDARD_BOARD.to_string()).unwrap();
    let key = get_board_fen(&board.game).unwrap();
    assert_eq!(board.same_board.count(&key), 1);
    assert_eq!(board.same_board.max_count(), 1);
    assert_eq!(board.same_board.count(&"other".to_string()), 0);
    assert!(init_game_board("nonsense".to_string()).is_none());
}
