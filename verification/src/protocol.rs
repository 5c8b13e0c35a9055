use vstd::prelude::*;
use vstd::string::StringExecFns;
use crate::game_data::{
    on_board, Game, Gameboard, Piece, Position, ThreatMap, ThreatMapView, WinStatus,
};
use crate::logic::{
    game_state, get_game_state, is_accepted_move, is_promotion_piece, move_piece, position_after,
    promote_pawn, promoted,
};
use crate::parser::{
    board_fen_text, decode_fen, fen_text, get_fen, get_move, init_game_board, parse_move,
    parse_move_spec, parse_promotion, promotion_choice, square_text,
};
use crate::repetition::{next_count, occurrences};
use crate::text::{chars_of, decimal, push_decimal, string_of};
use crate::threats::{get_threats, team_threats};

verus! {

/// A game as it is played: the game with its history, what the side that is not to move
/// attacks, and how the game stands.
#[derive(Debug)]
pub struct ActiveGame {
    pub game: Gameboard,
    pub active_threats: ThreatMap,
    pub win_status: WinStatus,
}

/// Whether both clocks of `game` can still count one up.
pub open spec fn can_count(game: Game) -> bool {
    game.half_move_clock < u16::MAX && game.full_move_clock < u16::MAX
}

/// Starts a game from the text of a position and finds what the side that is not to move
/// attacks.
pub fn get_loaded_game(board: String) -> (r: Option<(Gameboard, ThreatMap)>)
    ensures
        match decode_fen(board@) {
            Some(game) => r is Some && r.unwrap().0.game == game && r.unwrap().0.wf()
                && r.unwrap().0.same_board@ == Map::<Seq<char>, u8>::empty().insert(
                board_fen_text(game),
                1u8,
            ) && r.unwrap().1@ == team_threats(game, !game.is_white_to_move),
            None => r is None,
        },
{
    match init_game_board(board) {
        Some(board) => {
            let threats = get_threats(&board);
            Some((board, threats))
        },
        None => None,
    }
}

/// The position after an accepted move on which the pawn that waits for its promotion, if
/// one does, has become a `promotion`; unchanged where a pawn cannot become that piece.
pub open spec fn with_promotion(game: Game, promotion: Piece) -> Game {
    if is_promotion_piece(promotion) {
        promoted(game, promotion)
    } else {
        game
    }
}

/// Makes the move from `move_from` to `move_to` if it is accepted, promotes a pawn that then
/// waits to `promotion`, finds anew what the side that is not to move attacks, and tells
/// how the game stands where three occurrences of a position tie it. Nothing changes, and
/// nothing is decided, where the move is not accepted.
pub fn move_piece_with_state(
    game_board: &mut Gameboard,
    active_threats: &mut ThreatMap,
    move_from: Position,
    move_to: Position,
    promotion: Piece,
) -> (status: WinStatus)
    requires
        old(game_board).wf(),
        can_count(old(game_board).game),
    ensures
        final(game_board).wf(),
        !is_accepted_move(old(game_board).game, old(active_threats)@, move_from, move_to) ==> {
            &&& status == WinStatus::Nothing
            &&& final(game_board).game == old(game_board).game
            &&& final(game_board).same_board@ == old(game_board).same_board@
            &&& final(active_threats)@ == old(active_threats)@
        },
        is_accepted_move(old(game_board).game, old(active_threats)@, move_from, move_to) ==> {
            let moved = position_after(old(game_board).game, move_from, move_to, false);
            &&& final(game_board).game == with_promotion(moved, promotion)
            &&& final(game_board).same_board@ == old(game_board).same_board@.insert(
                board_fen_text(moved),
                next_count(occurrences(old(game_board).same_board@, board_fen_text(moved))),
            )
            &&& final(active_threats)@ == team_threats(
                final(game_board).game,
                !final(game_board).game.is_white_to_move,
            )
            &&& status == game_state(
                final(game_board).game,
                final(game_board).same_board@,
                final(active_threats)@,
                true,
            )
        },
{
    if move_piece(game_board, move_from, move_to, active_threats, false) {
        promote_pawn(&mut game_board.game, promotion);
        let threats = get_threats(game_board);
        let win_status = get_game_state(game_board, &threats, true);
        *active_threats = threats;
        win_status
    } else {
        WinStatus::Nothing
    }
}

/// The start of the message that tells how a game stands.
pub open spec fn status_prefix(win_status: WinStatus) -> Seq<char> {
    match win_status {
        WinStatus::WhiteWon => "end:w"@,
        WinStatus::BlackWon => "end:b"@,
        WinStatus::Tie => "end:-"@,
        WinStatus::Nothing => "board:"@,
    }
}

/// The message that tells how a game stands: its start names the outcome, and the text of
/// the position follows.
pub open spec fn state_message(game: Game, win_status: WinStatus) -> Seq<char> {
    status_prefix(win_status) + fen_text(game)
}

/// The message that tells how a game stands. The message always exists.
pub fn get_state_msg(gameboard: &Gameboard, win_status: WinStatus) -> (r: Option<String>)
    requires
        gameboard.game.wf(),
    ensures
        r is Some,
        r->0@ == state_message(gameboard.game, win_status),
{
    let fen = match get_fen(&gameboard.game) {
        Some(fen) => fen,
        None => {
            return None;
        },
    };
    let mut message = String::from_str(
        match win_status {
            WinStatus::WhiteWon => "end:w",
            WinStatus::BlackWon => "end:b",
            WinStatus::Tie => "end:-",
            WinStatus::Nothing => "board:",
        },
    );
    message.append(fen.as_str());
    Some(message)
}

/// The message that tells how the game `active` stands now.
pub open spec fn status_message(game: Gameboard, threats: ThreatMapView) -> Seq<char> {
    state_message(game.game, game_state(game.game, game.same_board@, threats, true))
}

/// The message that tells how the game stands now. The message always exists.
pub fn get_status_msg(active: &ActiveGame) -> (r: Option<String>)
    requires
        active.game.wf(),
    ensures
        r is Some,
        r->0@ == status_message(active.game, active.active_threats@),
{
    let win_status = get_game_state(&active.game, &active.active_threats, true);
    get_state_msg(&active.game, win_status)
}

/// Whether the character of `s` at `i` is a colon.
pub open spec fn colon_at(s: Seq<char>, i: int) -> bool {
    0 <= i < s.len() && s[i] == ':'
}

/// Whether the one colon of `s` stands at `i`.
pub open spec fn only_colon_at(s: Seq<char>, i: int) -> bool {
    colon_at(s, i) && forall|j: int| colon_at(s, j) ==> j == i
}

/// The action and the payload of a message: what stands before and behind its colon. A
/// text without a colon, or with more than one, is no message.
pub open spec fn message_parts(s: Seq<char>) -> Option<(Seq<char>, Seq<char>)> {
    if exists|i: int| only_colon_at(s, i) {
        let i = choose|i: int| only_colon_at(s, i);
        Some((s.take(i), s.skip(i + 1)))
    } else {
        None
    }
}

/// Parts a message into its action and its payload.
pub fn split_message(msg: &str) -> (r: Option<(Vec<char>, Vec<char>)>)
    ensures
        match message_parts(msg@) {
            Some((action, input)) => r is Some && r.unwrap().0@ == action && r.unwrap().1@ == input,
            None => r is None,
        },
{
    let chars = chars_of(msg);
    let mut action: Vec<char> = Vec::new();
    let mut i: usize = 0;
    while i < chars.len() && chars[i] != ':'
        invariant
            i <= chars.len(),
            action@ == chars@.take(i as int),
            forall|j: int| 0 <= j < i ==> !colon_at(chars@, j),
        decreases chars.len() - i,
    {
        action.push(chars[i]);
        assert(chars@.take(i + 1) =~= chars@.take(i as int).push(chars@[i as int]));
        i += 1;
    }
    if i >= chars.len() {
        assert(forall|j: int| !colon_at(chars@, j));
        return None;
    }
    let colon = i;
    assert(colon_at(chars@, colon as int));
    let mut input: Vec<char> = Vec::new();
    i += 1;
    assert(input@ =~= chars@.subrange(colon + 1, i as int));
    while i < chars.len()
        invariant
            colon < i <= chars.len(),
            chars@ == msg@,
            colon_at(chars@, colon as int),
            input@ == chars@.subrange(colon + 1, i as int),
            forall|j: int| 0 <= j < i && j != colon ==> !colon_at(chars@, j),
        decreases chars.len() - i,
    {
        if chars[i] == ':' {
            assert(colon_at(chars@, i as int));
            assert forall|k: int| !only_colon_at(chars@, k) by {
                if only_colon_at(chars@, k) {
                    assert(colon_at(chars@, colon as int) ==> colon == k);
                    assert(colon_at(chars@, i as int) ==> i == k);
                }
            }
            return None;
        }
        input.push(chars[i]);
        assert(chars@.subrange(colon + 1, i + 1) =~= chars@.subrange(colon + 1, i as int).push(
            chars@[i as int],
        ));
        i += 1;
    }
    proof {
        assert(only_colon_at(chars@, colon as int));
        let k = choose|k: int| only_colon_at(chars@, k);
        assert(colon_at(chars@, colon as int) ==> colon == k);
        assert(chars@.skip(colon + 1) =~= chars@.subrange(colon + 1, chars@.len() as int));
    }
    Some((action, input))
}

/// The words of the messages differ from each other.
proof fn lemma_words_differ()
    ensures
        "disconnect"@.len() == 10,
        "init"@.len() == 4,
        "get"@.len() == 3,
        "move"@.len() == 4,
        "init"@[0] == 'i',
        "move"@[0] == 'm',
        "board"@.len() == 5,
        "board"@[0] == 'b',
        "spectatorcount"@.len() == 14,
        "playertype"@.len() == 10,
        "playertype"@[0] == 'p',
        "disconnect"@[0] == 'd',
        "end"@.len() == 3,
        "end"@[0] == 'e',
        "get"@[0] == 'g',
        ""@.len() == 0,
{
    reveal_strlit("disconnect");
    reveal_strlit("init");
    reveal_strlit("get");
    reveal_strlit("move");
    reveal_strlit("board");
    reveal_strlit("spectatorcount");
    reveal_strlit("playertype");
    reveal_strlit("end");
    reveal_strlit("");
}

/// Whether `v` holds the text `word`.
fn text_is(v: &Vec<char>, word: &str) -> (r: bool)
    ensures
        r == (v@ == word@),
{
    let w = chars_of(word);
    if v.len() != w.len() {
        return false;
    }
    let mut i: usize = 0;
    while i < v.len()
        invariant
            i <= v.len(),
            v.len() == w.len(),
            w@ == word@,
            forall|j: int| 0 <= j < i ==> v@[j] == w@[j],
        decreases v.len() - i,
    {
        if v[i] != w[i] {
            return false;
        }
        i += 1;
    }
    assert(v@ =~= w@);
    true
}

/// The first character of `v`, if it has one.
fn first_char(v: &Vec<char>) -> (r: Option<char>)
    ensures
        r == if v@.len() > 0 {
            Some(v@[0])
        } else {
            None
        },
{
    if v.len() > 0 {
        Some(v[0])
    } else {
        None
    }
}

/// To whom a reply goes.
#[derive(Copy, Clone, PartialEq, Eq, Structural, Debug)]
pub enum Audience {
    Everyone,
    Sender,
    Nobody,
}

/// What the server does about a message of a client.
#[derive(Debug)]
pub struct ServerReply {
    /// The text to send, with the sign that ends it.
    pub text: String,
    /// To whom the text goes.
    pub audience: Audience,
    /// The sender is from now on the client that moves.
    pub sender_becomes_mover: bool,
    /// The sender has left and is taken off the list before the text is sent.
    pub sender_leaves: bool,
}

/// The mathematical content of a `ServerReply`.
pub struct ServerReplyView {
    pub text: Seq<char>,
    pub audience: Audience,
    pub sender_becomes_mover: bool,
    pub sender_leaves: bool,
}

impl View for ServerReply {
    type V = ServerReplyView;

    open spec fn view(&self) -> ServerReplyView {
        ServerReplyView {
            text: self.text@,
            audience: self.audience,
            sender_becomes_mover: self.sender_becomes_mover,
            sender_leaves: self.sender_leaves,
        }
    }
}

/// The reply that says nothing to nobody.
pub open spec fn no_reply() -> ServerReplyView {
    ServerReplyView {
        text: Seq::empty(),
        audience: Audience::Nobody,
        sender_becomes_mover: false,
        sender_leaves: false,
    }
}

/// The reply with the text `text`, closed by its end sign, to the sender alone.
pub open spec fn reply_to_sender(text: Seq<char>) -> ServerReplyView {
    ServerReplyView {
        text: text.push(';'),
        audience: Audience::Sender,
        sender_becomes_mover: false,
        sender_leaves: false,
    }
}

/// Whether the payload of `init` asks to play: it does with `p` first and when it is empty.
pub open spec fn asks_to_play(input: Seq<char>) -> bool {
    input.len() == 0 || input[0] == 'p'
}

/// Whether the payload of `move` asks for a move of a black piece: it has five characters
/// of which the first four name a move, and a black piece stands on the square where the
/// move starts.
pub open spec fn is_black_move(game: Game, input: Seq<char>) -> bool {
    &&& input.len() == 5
    &&& parse_move_spec(input.take(4)) is Some
    &&& game.is_color_at(parse_move_spec(input.take(4)).unwrap().0, false)
}

/// The reply of the server to the message `msg`, before any move is made.
///
/// `disconnect` takes the sender off. `init` tells the sender how the game stands and
/// whether it plays: it does if it asks for it and nobody plays yet. `get` answers `board`
/// with how the game stands and `spectatorcount` with the number of spectators. `move`
/// from a client that does not play, or with a payload that does not have five characters,
/// or that starts on a square without a black piece, is answered with how the game stands
/// and an error; one whose first four characters name no move is not answered. Any other
/// text is not answered.
pub open spec fn server_reply(
    game: Gameboard,
    threats: ThreatMapView,
    msg: Seq<char>,
    sender_is_mover: bool,
    has_mover: bool,
    spectators: usize,
) -> ServerReplyView {
    let status = status_message(game, threats);
    match message_parts(msg) {
        None => no_reply(),
        Some((action, input)) => {
            if action == "disconnect"@ {
                ServerReplyView { sender_leaves: true, ..reply_to_sender(msg) }
            } else if action == "init"@ {
                if asks_to_play(input) && !has_mover {
                    ServerReplyView {
                        sender_becomes_mover: true,
                        ..reply_to_sender(status + ";playertype:p"@)
                    }
                } else {
                    reply_to_sender(status + ";playertype:s"@)
                }
            } else if action == "get"@ {
                if input == "board"@ {
                    reply_to_sender(status)
                } else if input == "spectatorcount"@ {
                    reply_to_sender("spectatorcount:"@ + decimal(spectators as nat))
                } else {
                    no_reply()
                }
            } else if action == "move"@ {
                if !sender_is_mover {
                    reply_to_sender(status + ";err:invalid_client"@)
                } else if input.len() != 5 {
                    reply_to_sender(status + ";err:invalid_length"@)
                } else if parse_move_spec(input.take(4)) is None {
                    no_reply()
                } else {
                    reply_to_sender(status + ";err:invalid_mov"@)
                }
            } else {
                no_reply()
            }
        },
    }
}

/// Whether the message `msg` makes the server try a move: it is a `move` of the client that
/// moves, and its payload asks for a move of a black piece.
pub open spec fn is_move_request(game: Game, msg: Seq<char>, sender_is_mover: bool) -> bool {
    match message_parts(msg) {
        Some((action, input)) => action == "move"@ && sender_is_mover && is_black_move(game, input),
        None => false,
    }
}

/// The reply with the text `text` to `audience`.
fn make_reply(text: String, audience: Audience) -> (r: ServerReply)
    ensures
        r@ == (ServerReplyView {
            text: text@,
            audience,
            sender_becomes_mover: false,
            sender_leaves: false,
        }),
{
    ServerReply { text, audience, sender_becomes_mover: false, sender_leaves: false }
}

/// The reply with the text `text`, closed by its end sign, to the sender alone.
fn answer_sender(text: String) -> (r: ServerReply)
    ensures
        r@ == reply_to_sender(text@),
{
    let mut text = text;
    text.push(';');
    make_reply(text, Audience::Sender)
}

/// The reply that says nothing to nobody.
fn silent() -> (r: ServerReply)
    ensures
        r@ == no_reply(),
{
    make_reply(String::new(), Audience::Nobody)
}

/// How the game stands now, with `ending` behind it.
fn status_with(active: &ActiveGame, ending: &str) -> (r: String)
    requires
        active.game.wf(),
    ensures
        r@ == status_message(active.game, active.active_threats@) + ending@,
{
    let mut text = match get_status_msg(active) {
        Some(state) => state,
        None => String::from_str("err:invalid_state"),
    };
    text.append(ending);
    text
}

/// Answers the message `msg` of a client and, where it asks for a move that can be tried,
/// tries it.
///
/// A move is tried where `is_move_request` holds: then the game goes on as
/// `move_piece_with_state` says with the piece that the fifth character chooses, and
/// everyone is told how the game stands. Otherwise the game stays as it is and the reply
/// is that of `server_reply`.
pub fn handle_message(
    active: &mut ActiveGame,
    msg: &str,
    sender_is_mover: bool,
    has_mover: bool,
    spectators: usize,
) -> (reply: ServerReply)
    requires
        old(active).game.wf(),
        can_count(old(active).game.game),
    ensures
        final(active).game.wf(),
        !is_move_request(old(active).game.game, msg@, sender_is_mover) ==> {
            &&& reply@ == server_reply(
                old(active).game,
                old(active).active_threats@,
                msg@,
                sender_is_mover,
                has_mover,
                spectators,
            )
            &&& final(active).game.game == old(active).game.game
            &&& final(active).game.same_board@ == old(active).game.same_board@
            &&& final(active).active_threats@ == old(active).active_threats@
            &&& final(active).win_status == old(active).win_status
        },
        is_move_request(old(active).game.game, msg@, sender_is_mover) ==> {
            let input = message_parts(msg@).unwrap().1;
            let squares = parse_move_spec(input.take(4)).unwrap();
            let accepted = is_accepted_move(
                old(active).game.game,
                old(active).active_threats@,
                squares.0,
                squares.1,
            );
            let moved = position_after(old(active).game.game, squares.0, squares.1, false);
            &&& reply@ == (ServerReplyView {
                text: state_message(final(active).game.game, final(active).win_status).push(';'),
                audience: Audience::Everyone,
                sender_becomes_mover: false,
                sender_leaves: false,
            })
            &&& !accepted ==> {
                &&& final(active).game.game == old(active).game.game
                &&& final(active).game.same_board@ == old(active).game.same_board@
                &&& final(active).active_threats@ == old(active).active_threats@
                &&& final(active).win_status == WinStatus::Nothing
            }
            &&& accepted ==> {
                &&& final(active).game.game == with_promotion(
                    moved,
                    promotion_choice(Some(input[4])),
                )
                &&& final(active).game.same_board@ == old(active).game.same_board@.insert(
                    board_fen_text(moved),
                    next_count(occurrences(old(active).game.same_board@, board_fen_text(moved))),
                )
                &&& final(active).active_threats@ == team_threats(
                    final(active).game.game,
                    !final(active).game.game.is_white_to_move,
                )
                &&& final(active).win_status == game_state(
                    final(active).game.game,
                    final(active).game.same_board@,
                    final(active).active_threats@,
                    true,
                )
            }
        },
{
    proof {
        lemma_words_differ();
    }
    let (action, input) = match split_message(msg) {
        Some(parts) => parts,
        None => {
            return silent();
        },
    };
    if text_is(&action, "disconnect") {
        let mut reply = answer_sender(String::from_str(msg));
        reply.sender_leaves = true;
        reply
    } else if text_is(&action, "init") {
        let request_player = match first_char(&input) {
            Some(c) => c == 'p',
            None => true,
        };
        if request_player && !has_mover {
            let mut reply = answer_sender(status_with(active, ";playertype:p"));
            reply.sender_becomes_mover = true;
            reply
        } else {
            answer_sender(status_with(active, ";playertype:s"))
        }
    } else if text_is(&action, "get") {
        if text_is(&input, "board") {
            let text = status_with(active, "");
            assert(text@ =~= status_message(active.game, active.active_threats@));
            answer_sender(text)
        } else if text_is(&input, "spectatorcount") {
            let mut result = String::from_str("spectatorcount:");
            push_decimal(&mut result, spectators as u64);
            answer_sender(result)
        } else {
            silent()
        }
    } else if text_is(&action, "move") {
        if !sender_is_mover {
            answer_sender(status_with(active, ";err:invalid_client"))
        } else if input.len() != 5 {
            answer_sender(status_with(active, ";err:invalid_length"))
        } else {
            let first_four = vec![input[0], input[1], input[2], input[3]];
            assert(first_four@ =~= input@.take(4));
            let squares = string_of(&first_four);
            let (move_from, move_to) = match parse_move(squares.as_str()) {
                Some(t) => t,
                None => {
                    return silent();
                },
            };
            let promotion = parse_promotion(Some(input[4]));
            let piece_data = active.game.game.board[move_from.x][move_from.y];
            if !piece_data.is_white && piece_data.piece != Piece::Empty {
                let win_status = move_piece_with_state(
                    &mut active.game,
                    &mut active.active_threats,
                    move_from,
                    move_to,
                    promotion,
                );
                active.win_status = win_status;
                let mut text = match get_state_msg(&active.game, win_status) {
                    Some(state) => state,
                    None => String::from_str("err:invalid_state"),
                };
                text.push(';');
                make_reply(text, Audience::Everyone)
            } else {
                answer_sender(status_with(active, ";err:invalid_mov"))
            }
        }
    } else {
        silent()
    }
}

/// The number of clients that watch: all clients but the one that moves.
pub fn spectator_count(clients: usize, has_mover: bool) -> (n: usize)
    requires
        has_mover ==> clients >= 1,
    ensures
        n == clients - (if has_mover {
            1int
        } else {
            0int
        }),
{
    if has_mover {
        clients - 1
    } else {
        clients
    }
}

/// The letter by which a client asks for a promotion; `-` for a piece that a pawn cannot
/// become.
pub open spec fn promotion_letter(promotion: Piece) -> char {
    match promotion {
        Piece::Bishop => 'b',
        Piece::Rook => 'r',
        Piece::Queen => 'q',
        Piece::Knight => 'n',
        _ => '-',
    }
}

/// The message by which a client asks for the move from `move_from` to `move_to` with the
/// promotion `promotion`.
pub open spec fn move_message(move_from: Position, move_to: Position, promotion: Piece) -> Seq<
    char,
> {
    ("move:"@ + square_text(move_from) + square_text(move_to)).push(
        promotion_letter(promotion),
    ).push(';')
}

/// The message by which a client asks for a move.
pub fn get_move_msg(move_from: Position, move_to: Position, promotion: Piece) -> (msg: String)
    requires
        on_board(move_from),
        on_board(move_to),
    ensures
        msg@ == move_message(move_from, move_to, promotion),
{
    let mut msg = String::from_str("move:");
    let squares = get_move(move_from, move_to);
    msg.append(squares.as_str());
    msg.push(
        match promotion {
            Piece::Bishop => 'b',
            Piece::Rook => 'r',
            Piece::Queen => 'q',
            Piece::Knight => 'n',
            _ => '-',
        },
    );
    msg.push(';');
    assert(msg@ =~= move_message(move_from, move_to, promotion));
    msg
}

/// The outcome that the first character of the payload of `end` names.
pub open spec fn end_status(c: Option<char>) -> WinStatus {
    match c {
        Some('w') => WinStatus::WhiteWon,
        Some('b') => WinStatus::BlackWon,
        Some('-') => WinStatus::Tie,
        _ => WinStatus::Nothing,
    }
}

/// Whether the client plays after the message `msg`, when `was` tells whether it played
/// before: `playertype` with `p` makes it play and with `s` makes it watch.
pub open spec fn plays_after(msg: Seq<char>, was: bool) -> bool {
    match message_parts(msg) {
        Some((action, input)) => if action == "playertype"@ && input.len() > 0 && input[0] == 'p' {
            true
        } else if action == "playertype"@ && input.len() > 0 && input[0] == 's' {
            false
        } else {
            was
        },
        None => was,
    }
}

/// The text of the position that the message `msg` of the server brings: the payload of
/// `board`, and the payload of `end` behind its first character.
pub open spec fn sent_position(msg: Seq<char>) -> Option<Seq<char>> {
    match message_parts(msg) {
        Some((action, input)) => if action == "board"@ {
            Some(input)
        } else if action == "end"@ {
            Some(if input.len() > 0 {
                input.skip(1)
            } else {
                input
            })
        } else {
            None
        },
        None => None,
    }
}

/// How the game stands for the client after the message `msg`, when it stood `was` before:
/// `end` sets the outcome it names, and `board` with a valid position says that nothing is
/// decided.
pub open spec fn status_after(msg: Seq<char>, was: WinStatus) -> WinStatus {
    match message_parts(msg) {
        Some((action, input)) => if action == "end"@ {
            end_status(if input.len() > 0 {
                Some(input[0])
            } else {
                None
            })
        } else if action == "board"@ && decode_fen(input) is Some {
            WinStatus::Nothing
        } else {
            was
        },
        None => was,
    }
}

/// Takes in the message `msg` of the server. The result tells whether the text was a
/// message at all.
///
/// `playertype` says whether the client plays. `board` and `end` bring a position: where
/// its text is valid, the game starts anew from it. `end` also says how the game has ended.
pub fn handle_server_message(active: &mut ActiveGame, is_player: &mut bool, msg: &str) -> (known:
    bool)
    ensures
        known == message_parts(msg@) is Some,
        *final(is_player) == plays_after(msg@, *old(is_player)),
        final(active).win_status == status_after(msg@, old(active).win_status),
        match sent_position(msg@) {
            Some(text) => match decode_fen(text) {
                Some(game) => {
                    &&& final(active).game.game == game
                    &&& final(active).game.wf()
                    &&& final(active).game.same_board@ == Map::<Seq<char>, u8>::empty().insert(
                        board_fen_text(game),
                        1u8,
                    )
                    &&& final(active).active_threats@ == team_threats(game, !game.is_white_to_move)
                },
                None => final(active).game == old(active).game && final(active).active_threats
                    == old(active).active_threats,
            },
            None => final(active).game == old(active).game && final(active).active_threats == old(
                active,
            ).active_threats,
        },
{
    proof {
        lemma_words_differ();
    }
    let (action, input) = match split_message(msg) {
        Some(parts) => parts,
        None => {
            return false;
        },
    };
    if text_is(&action, "playertype") {
        match first_char(&input) {
            Some('p') => {
                *is_player = true;
            },
            Some('s') => {
                *is_player = false;
            },
            _ => {},
        }
    } else if text_is(&action, "board") {
        match get_loaded_game(string_of(&input)) {
            Some((game, threats)) => {
                active.win_status = WinStatus::Nothing;
                active.game = game;
                active.active_threats = threats;
            },
            None => {},
        }
    } else if text_is(&action, "end") {
        active.win_status =
        match first_char(&input) {
            Some('w') => WinStatus::WhiteWon,
            Some('b') => WinStatus::BlackWon,
            Some('-') => WinStatus::Tie,
            _ => WinStatus::Nothing,
        };
        let mut rest: Vec<char> = Vec::new();
        if input.len() > 0 {
            let mut i: usize = 1;
            assert(rest@ =~= input@.subrange(1, 1));
            while i < input.len()
                invariant
                    1 <= i <= input.len(),
                    rest@ == input@.subrange(1, i as int),
                decreases input.len() - i,
            {
                rest.push(input[i]);
                assert(input@.subrange(1, i + 1) =~= input@.subrange(1, i as int).push(
                    input@[i as int],
                ));
                i += 1;
            }
            assert(rest@ =~= input@.skip(1));
        } else {
            assert(rest@ =~= input@);
        }
        match get_loaded_game(string_of(&rest)) {
            Some((game, threats)) => {
                active.game = game;
                active.active_threats = threats;
            },
            None => {},
        }
    }
    true
}

/// Whether the piece on `square` may be picked up: it belongs to the side to move, and
/// that side is white where this program is the server and black where it is a client.
pub open spec fn may_touch(game: Game, square: Position, is_server: bool, is_client: bool) -> bool {
    &&& on_board(square)
    &&& game.is_color_at(square, game.is_white_to_move)
    &&& !is_server || game.is_white_to_move
    &&& !is_client || !game.is_white_to_move
}

/// Whether the piece on `square` may be picked up.
pub fn can_touch_piece(game: &Game, square: &Position, is_server: bool, is_client: bool) -> (r:
    bool)
    ensures
        r == may_touch(*game, *square, is_server, is_client),
{
    if square.x >= 8 || square.y >= 8 {
        return false;
    }
    let piece_data = game.board[square.x][square.y];
    piece_data.is_white == game.is_white_to_move && piece_data.piece != Piece::Empty && (!is_server
        || game.is_white_to_move) && (!is_client || !game.is_white_to_move)
}

} // verus!
