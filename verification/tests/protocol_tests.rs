use chess_engine::game_data::{Piece, Position, WinStatus};
use chess_engine::parser::{get_fen, parse_position, STANDARD_BOARD};
use chess_engine::protocol::{
    get_loaded_game, get_move_msg, get_state_msg, get_status_msg, handle_message,
    handle_server_message, move_piece_with_state, spectator_count, split_message, ActiveGame,
    Audience,
};

fn start(fen: &str) -> ActiveGame {
    let (game, active_threats) = get_loaded_game(fen.to_string()).unwrap();
    ActiveGame { game, active_threats, win_status: WinStatus::Nothing }
}

fn square(name: &str) -> Position {
    parse_position(name).unwrap()
}

fn text(v: Vec<char>) -> String {
    v.into_iter().collect()
}

const AFTER_E4: &str = "rnbqkbnr/pppppppp/8/8/4P3/8/PPPP1PPP/RNBQKBNR b KQkq e3 0 1";

#[test]
fn loaded_game_has_its_threats() {
    let (game, threats) = get_loaded_game(STANDARD_BOARD.to_string()).unwrap();
    assert_eq!(get_fen(&game.game).unwrap(), STANDARD_BOARD);
    // White is to move, so the map is black's.
    assert!(threats.all_threats.contains(&square("e6")));
    assert!(!threats.all_threats.contains(&square("e3")));
    assert!(get_loaded_game("no position".to_string()).is_none());
}

#[test]
fn state_messages() {
    let active = start(STANDARD_BOARD);
    assert_eq!(
        get_state_msg(&active.game, WinStatus::Nothing).unwrap(),
        format!("board:{}", STANDARD_BOARD)
    );
    assert_eq!(
        get_state_msg(&active.game, WinStatus::WhiteWon).unwrap(),
        format!("end:w{}", STANDARD_BOARD)
    );
    assert_eq!(
        get_state_msg(&active.game, WinStatus::BlackWon).unwrap(),
        format!("end:b{}", STANDARD_BOARD)
    );
    assert_eq!(
        get_state_msg(&active.game, WinStatus::Tie).unwrap(),
        format!("end:-{}", STANDARD_BOARD)
    );
    assert_eq!(get_status_msg(&active).unwrap(), format!("board:{}", STANDARD_BOARD));
    let mated = start("R5k1/5ppp/8/8/8/8/8/4K3 b - - 0 1");
    assert_eq!(get_status_msg(&mated).unwrap(), "end:wR5k1/5ppp/8/8/8/8/8/4K3 b - - 0 1");
}

#[test]
fn messages_have_exactly_one_colon() {
    let (action, input) = split_message("move:e7e5q").unwrap();
    assert_eq!(text(action), "move");
    assert_eq!(text(input), "e7e5q");
    let (action, input) = split_message(":").unwrap();
    assert_eq!(text(action), "");
    assert_eq!(text(input), "");
    let (action, input) = split_message("init:").unwrap();
    assert_eq!(text(action), "init");
    assert_eq!(text(input), "");
    assert!(split_message("").is_none());
    assert!(split_message("board").is_none());
    assert!(split_message("a:b:c").is_none());
    assert!(split_message("::").is_none());
}

#[test]
fn move_with_state_reports_the_outcome() {
    let mut active = start("6k1/5ppp/8/8/8/8/8/R3K3 w - - 0 1");
    let status = move_piece_with_state(
        &mut active.game,
        &mut active.active_threats,
        square("a1"),
        square("a8"),
        Piece::Queen,
    );
    assert_eq!(status, WinStatus::WhiteWon);
    assert_eq!(get_fen(&active.game.game).unwrap(), "R5k1/5ppp/8/8/8/8/8/4K3 b - - 1 1");
    // The map is now white's.
    assert!(active.active_threats.all_king_threats.contains(&square("g8")));
}

#[test]
fn move_with_state_rejects_and_keeps() {
    let mut active = start(STANDARD_BOARD);
    let status = move_piece_with_state(
        &mut active.game,
        &mut active.active_threats,
        square("e2"),
        square("e5"),
        Piece::Queen,
    );
    assert_eq!(status, WinStatus::Nothing);
    assert_eq!(get_fen(&active.game.game).unwrap(), STANDARD_BOARD);
    assert!(active.active_threats.all_threats.contains(&square("e6")));
}

#[test]
fn move_with_state_promotes_to_the_chosen_piece() {
    let mut active = start("4k3/P7/8/8/8/8/8/4K3 w - - 0 1");
    let status = move_piece_with_state(
        &mut active.game,
        &mut active.active_threats,
        square("a7"),
        square("a8"),
        Piece::Knight,
    );
    assert_eq!(status, WinStatus::Nothing);
    assert_eq!(get_fen(&active.game.game).unwrap(), "N3k3/8/8/8/8/8/8/4K3 b - - 0 1");
    // The position was counted before the pawn was promoted.
    assert_eq!(active.game.same_board.count(&"P3k3/8/8/8/8/8/8/4K3 b - -".to_string()), 1);
}

#[test]
fn server_ignores_what_is_no_message() {
    let mut active = start(AFTER_E4);
    for msg in ["", "hello", "a:b:c", "dance:now", "get:nothing"] {
        let reply = handle_message(&mut active, msg, true, true, 0);
        assert_eq!(reply.audience, Audience::Nobody);
        assert!(!reply.sender_becomes_mover);
        assert!(!reply.sender_leaves);
    }
    assert_eq!(get_fen(&active.game.game).unwrap(), AFTER_E4);
}

#[test]
fn server_init_names_the_player() {
    let mut active = start(AFTER_E4);
    let reply = handle_message(&mut active, "init:", false, false, 1);
    assert_eq!(reply.text, format!("board:{};playertype:p;", AFTER_E4));
    assert_eq!(reply.audience, Audience::Sender);
    assert!(reply.sender_becomes_mover);
    let reply = handle_message(&mut active, "init:p", false, false, 1);
    assert!(reply.sender_becomes_mover);
    let reply = handle_message(&mut active, "init:p", false, true, 1);
    assert_eq!(reply.text, format!("board:{};playertype:s;", AFTER_E4));
    assert!(!reply.sender_becomes_mover);
    let reply = handle_message(&mut active, "init:s", false, false, 1);
    assert_eq!(reply.text, format!("board:{};playertype:s;", AFTER_E4));
    assert!(!reply.sender_becomes_mover);
    let reply = handle_message(&mut active, "init:x", false, false, 1);
    assert!(!reply.sender_becomes_mover);
}

#[test]
fn server_answers_get() {
    let mut active = start(AFTER_E4);
    let reply = handle_message(&mut active, "get:board", false, true, 3);
    assert_eq!(reply.text, format!("board:{};", AFTER_E4));
    assert_eq!(reply.audience, Audience::Sender);
    let reply = handle_message(&mut active, "get:spectatorcount", false, true, 3);
    assert_eq!(reply.text, "spectatorcount:3;");
    assert_eq!(reply.audience, Audience::Sender);
    let reply = handle_message(&mut active, "get:spectatorcount", false, true, 120);
    assert_eq!(reply.text, "spectatorcount:120;");
}

#[test]
fn server_disconnect_takes_the_sender_off() {
    let mut active = start(AFTER_E4);
    let reply = handle_message(&mut active, "disconnect:closed_connection", true, true, 0);
    assert!(reply.sender_leaves);
    assert_eq!(reply.audience, Audience::Sender);
    assert_eq!(reply.text, "disconnect:closed_connection;");
}

#[test]
fn server_refuses_moves_with_an_error() {
    let mut active = start(AFTER_E4);
    let reply = handle_message(&mut active, "move:e7e5q", false, true, 0);
    assert_eq!(reply.text, format!("board:{};err:invalid_client;", AFTER_E4));
    assert_eq!(reply.audience, Audience::Sender);
    let reply = handle_message(&mut active, "move:e7e5", true, true, 0);
    assert_eq!(reply.text, format!("board:{};err:invalid_length;", AFTER_E4));
    let reply = handle_message(&mut active, "move:e7e5qq", true, true, 0);
    assert_eq!(reply.text, format!("board:{};err:invalid_length;", AFTER_E4));
    // A white piece, and an empty square.
    let reply = handle_message(&mut active, "move:d2d4q", true, true, 0);
    assert_eq!(reply.text, format!("board:{};err:invalid_mov;", AFTER_E4));
    let reply = handle_message(&mut active, "move:e5e4q", true, true, 0);
    assert_eq!(reply.text, format!("board:{};err:invalid_mov;", AFTER_E4));
    let reply = handle_message(&mut active, "move:z9e4q", true, true, 0);
    assert_eq!(reply.audience, Audience::Nobody);
    assert_eq!(get_fen(&active.game.game).unwrap(), AFTER_E4);
}

#[test]
fn server_makes_the_move_of_the_player() {
    let mut active = start(AFTER_E4);
    let reply = handle_message(&mut active, "move:e7e5q", true, true, 0);
    assert_eq!(
        reply.text,
        "board:rnbqkbnr/pppp1ppp/8/4p3/4P3/8/PPPP1PPP/RNBQKBNR w KQkq e6 0 2;"
    );
    assert_eq!(reply.audience, Audience::Everyone);
    assert_eq!(active.win_status, WinStatus::Nothing);
    // A move that is not legal is answered with the unchanged board.
    let mut active = start(AFTER_E4);
    let reply = handle_message(&mut active, "move:e7e4q", true, true, 0);
    assert_eq!(reply.text, format!("board:{};", AFTER_E4));
    assert_eq!(reply.audience, Audience::Everyone);
}

#[test]
fn server_reports_the_end() {
    // Black mates with the queen on h4.
    let mut active = start("rnbqkbnr/pppp1ppp/8/4p3/6P1/5P2/PPPPP2P/RNBQKBNR b KQkq g3 0 2");
    let reply = handle_message(&mut active, "move:d8h4-", true, true, 0);
    assert_eq!(
        reply.text,
        "end:brnb1kbnr/pppp1ppp/8/4p3/6Pq/5P2/PPPPP2P/RNBQKBNR w KQkq - 1 3;"
    );
    assert_eq!(active.win_status, WinStatus::BlackWon);
}

#[test]
fn server_promotes_as_the_fifth_character_asks() {
    let mut active = start("4k3/8/8/8/8/8/p7/4K3 b - - 0 1");
    let reply = handle_message(&mut active, "move:a2a1r", true, true, 0);
    assert_eq!(reply.text, "board:4k3/8/8/8/8/8/8/r3K3 w - - 0 2;");
    let mut active = start("4k3/8/8/8/8/8/p7/4K3 b - - 0 1");
    let reply = handle_message(&mut active, "move:a2a1?", true, true, 0);
    assert_eq!(reply.text, "board:4k3/8/8/8/8/8/8/q3K3 w - - 0 2;");
}

#[test]
fn spectators_are_all_but_the_player() {
    assert_eq!(spectator_count(0, false), 0);
    assert_eq!(spectator_count(4, false), 4);
    assert_eq!(spectator_count(4, true), 3);
    assert_eq!(spectator_count(1, true), 0);
}

#[test]
fn client_move_message() {
    assert_eq!(get_move_msg(square("e7"), square("e5"), Piece::Queen), "move:e7e5q;");
    assert_eq!(get_move_msg(square("a2"), square("a1"), Piece::Rook), "move:a2a1r;");
    assert_eq!(get_move_msg(square("a2"), square("a1"), Piece::Bishop), "move:a2a1b;");
    assert_eq!(get_move_msg(square("a2"), square("a1"), Piece::Knight), "move:a2a1n;");
    assert_eq!(get_move_msg(square("a2"), square("a1"), Piece::King), "move:a2a1-;");
    assert_eq!(get_move_msg(square("a2"), square("a1"), Piece::Pawn), "move:a2a1-;");
    assert_eq!(get_move_msg(square("a2"), square("a1"), Piece::Empty), "move:a2a1-;");
}

#[test]
fn client_takes_in_the_board() {
    let mut active = start(STANDARD_BOARD);
    active.win_status = WinStatus::Tie;
    let mut is_player = true;
    assert!(handle_server_message(&mut active, &mut is_player, &format!("board:{}", AFTER_E4)));
    assert_eq!(get_fen(&active.game.game).unwrap(), AFTER_E4);
    assert_eq!(active.win_status, WinStatus::Nothing);
    assert!(is_player);
    // The map is white's now.
    assert!(active.active_threats.all_threats.contains(&square("d5")));
    // A text that is no position changes nothing.
    active.win_status = WinStatus::Tie;
    assert!(handle_server_message(&mut active, &mut is_player, "board:nonsense"));
    assert_eq!(get_fen(&active.game.game).unwrap(), AFTER_E4);
    assert_eq!(active.win_status, WinStatus::Tie);
}

#[test]
fn client_takes_in_the_end() {
    let mut active = start(STANDARD_BOARD);
    let mut is_player = true;
    assert!(handle_server_message(
        &mut active,
        &mut is_player,
        "end:wR5k1/5ppp/8/8/8/8/8/4K3 b - - 0 1"
    ));
    assert_eq!(active.win_status, WinStatus::WhiteWon);
    assert_eq!(get_fen(&active.game.game).unwrap(), "R5k1/5ppp/8/8/8/8/8/4K3 b - - 0 1");
    assert!(handle_server_message(&mut active, &mut is_player, &format!("end:b{}", AFTER_E4)));
    assert_eq!(active.win_status, WinStatus::BlackWon);
    assert!(handle_server_message(&mut active, &mut is_player, &format!("end:-{}", AFTER_E4)));
    assert_eq!(active.win_status, WinStatus::Tie);
    assert!(handle_server_message(&mut active, &mut is_player, "end:"));
    assert_eq!(active.win_status, WinStatus::Nothing);
    assert_eq!(get_fen(&active.game.game).unwrap(), AFTER_E4);
}

#[test]
fn client_learns_whether_it_plays() {
    let mut active = start(STANDARD_BOARD);
    let mut is_player = true;
    assert!(handle_server_message(&mut active, &mut is_player, "playertype:s"));
    assert!(!is_player);
    assert!(handle_server_message(&mut active, &mut is_player, "playertype:x"));
    assert!(!is_player);
    assert!(handle_server_message(&mut active, &mut is_player, "playertype:"));
    assert!(!is_player);
    assert!(handle_server_message(&mut active, &mut is_player, "playertype:p"));
    assert!(is_player);
    assert!(!handle_server_message(&mut active, &mut is_player, "playertype"));
    assert!(!handle_server_message(&mut active, &mut is_player, "a:b:c"));
    assert!(handle_server_message(&mut active, &mut is_player, "err:invalid_mov"));
    assert!(is_player);
    assert_eq!(get_fen(&active.game.game).unwrap(), STANDARD_BOARD);
}
