use vstd::prelude::*;
use crate::fen_laws::{
    is_loss_free, is_plain_char, is_word, lemma_castle_text, lemma_fen_round_trip,
    lemma_fen_text_is_six_words, lemma_parse_decimal, lemma_parse_square_text,
    lemma_placement_text_is_word, side_text, six_words,
};
use crate::game_data::{Game, Position, WinStatus};
use crate::parser::{
    castle_text, decode_fen, en_passant_text, fen_text, parse_move_spec, parse_square,
    placement_text, square_text,
};
use crate::protocol::{
    colon_at, message_parts, only_colon_at, sent_position, state_message, status_after,
};
use crate::text::decimal;

verus! {

/// Whether every character of `s` is plain or a blank.
pub open spec fn is_plain_text(s: Seq<char>) -> bool {
    forall|i: int| 0 <= i < s.len() ==> is_plain_char(#[trigger] s[i]) || s[i] == ' '
}

/// A word, a blank and a plain text make a plain text.
proof fn lemma_word_then_plain_text(w: Seq<char>, rest: Seq<char>)
    requires
        is_word(w),
        is_plain_text(rest),
    ensures
        is_plain_text(w + seq![' '] + rest),
{
    let s = w + seq![' '] + rest;
    assert forall|i: int| 0 <= i < s.len() implies is_plain_char(#[trigger] s[i]) || s[i]
        == ' ' by {
        if i < w.len() {
            assert(s[i] == w[i]);
        } else if i > w.len() {
            assert(s[i] == rest[i - w.len() - 1]);
        }
    }
}

/// The text of a position holds no colon and no semicolon.
pub proof fn lemma_fen_text_is_plain(game: Game)
    requires
        game.wf(),
    ensures
        is_plain_text(fen_text(game)),
{
    let a = placement_text(game, 0);
    let b = side_text(game);
    let c = castle_text(game);
    let d = en_passant_text(game);
    let e = decimal(game.half_move_clock as nat);
    let f = decimal(game.full_move_clock as nat);
    lemma_placement_text_is_word(game, 0);
    assert(is_word(b));
    lemma_castle_text(game);
    match game.en_passant_position {
        Some(p) => {
            lemma_parse_square_text(p);
        },
        None => {
            lemma_parse_square_text(Position { x: 0, y: 0 });
        },
    }
    lemma_parse_decimal(game.half_move_clock);
    lemma_parse_decimal(game.full_move_clock);
    lemma_fen_text_is_six_words(game);
    let r4 = e + seq![' '] + f;
    let r3 = d + seq![' '] + r4;
    let r2 = c + seq![' '] + r3;
    let r1 = b + seq![' '] + r2;
    assert(is_plain_text(f));
    lemma_word_then_plain_text(e, f);
    lemma_word_then_plain_text(d, r4);
    lemma_word_then_plain_text(c, r3);
    lemma_word_then_plain_text(b, r2);
    lemma_word_then_plain_text(a, r1);
    assert(six_words(a, b, c, d, e, f) == a + seq![' '] + r1);
}

/// A text without a colon, a colon and another text without a colon are a message with
/// the first text as its action and the second as its payload.
pub proof fn lemma_message_parts(action: Seq<char>, input: Seq<char>)
    requires
        forall|i: int| 0 <= i < action.len() ==> action[i] != ':',
        forall|i: int| 0 <= i < input.len() ==> input[i] != ':',
    ensures
        message_parts(action + seq![':'] + input) == Some((action, input)),
{
    let s = action + seq![':'] + input;
    let n = action.len() as int;
    assert(s[n] == ':');
    assert forall|j: int| colon_at(s, j) implies j == n by {
        if j < n {
            assert(s[j] == action[j]);
        } else if j > n {
            assert(s[j] == input[j - n - 1]);
        }
    }
    assert(only_colon_at(s, n));
    let i = choose|i: int| only_colon_at(s, i);
    assert(colon_at(s, n) ==> n == i);
    assert(s.take(n) =~= action);
    assert(s.skip(n + 1) =~= input);
}

/// What the server tells about a game, a client reads back: the message holds no sign
/// that ends a message, and the client takes from it the same position and the same
/// outcome.
pub proof fn lemma_client_reads_state_message(game: Game, status: WinStatus, was: WinStatus)
    requires
        is_loss_free(game),
    ensures
        forall|i: int|
            0 <= i < state_message(game, status).len() ==> #[trigger] state_message(
                game,
                status,
            )[i] != ';',
        message_parts(state_message(game, status)) is Some,
        sent_position(state_message(game, status)) == Some(fen_text(game)),
        decode_fen(fen_text(game)) == Some(game),
        status_after(state_message(game, status), was) == status,
{
    reveal_strlit("board:");
    reveal_strlit("end:w");
    reveal_strlit("end:b");
    reveal_strlit("end:-");
    reveal_strlit("board");
    reveal_strlit("end");
    lemma_fen_round_trip(game);
    lemma_fen_text_is_plain(game);
    let fen = fen_text(game);
    let msg = state_message(game, status);
    assert forall|i: int| 0 <= i < fen.len() implies fen[i] != ':' && fen[i] != ';' by {
        assert(is_plain_char(fen[i]) || fen[i] == ' ');
    }
    match status {
        WinStatus::Nothing => {
            assert(msg =~= "board"@ + seq![':'] + fen);
            lemma_message_parts("board"@, fen);
        },
        WinStatus::WhiteWon => {
            let input = seq!['w'] + fen;
            assert(msg =~= "end"@ + seq![':'] + input);
            lemma_message_parts("end"@, input);
            assert(input.skip(1) =~= fen);
        },
        WinStatus::BlackWon => {
            let input = seq!['b'] + fen;
            assert(msg =~= "end"@ + seq![':'] + input);
            lemma_message_parts("end"@, input);
            assert(input.skip(1) =~= fen);
        },
        WinStatus::Tie => {
            let input = seq!['-'] + fen;
            assert(msg =~= "end"@ + seq![':'] + input);
            lemma_message_parts("end"@, input);
            assert(input.skip(1) =~= fen);
        },
    }
    assert forall|i: int| 0 <= i < msg.len() implies #[trigger] msg[i] != ';' by {
        let head = crate::protocol::status_prefix(status);
        if i >= head.len() {
            assert(msg[i] == fen[i - head.len()]);
        }
    }
}

/// Reading the name of a move gives the move back.
pub proof fn lemma_parse_move_text(from: Position, to: Position)
    requires
        crate::game_data::on_board(from),
        crate::game_data::on_board(to),
    ensures
        parse_move_spec(square_text(from) + square_text(to)) == Some((from, to)),
{
    let s = square_text(from) + square_text(to);
    assert(s.subrange(0, 2) =~= square_text(from));
    assert(s.subrange(2, 4) =~= square_text(to));
    lemma_parse_square_text(from);
    lemma_parse_square_text(to);
    assert(parse_square(square_text(from)) == Some(from));
}

} // verus!
