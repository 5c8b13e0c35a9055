use vstd::prelude::*;
use crate::game_data::{on_board, Game, Piece, PieceData, Position};
use crate::logic::{
    apply_move, castling_rook, en_passant_victim, is_promotion_piece, lemma_apply_move_wf,
    lemma_first_pawn_on_rank, moved_pieces, promoted, promotion_square,
};
use crate::parser::{
    blank_game, castle_text, decode_fen, en_passant_text, fen_text, home_rooks,
    letter_piece, parse_square, piece_letter, placement_text, rank_text, read_placement,
    rights_text, run_text, square_text,
};
use crate::text::{
    all_digits, decimal, digit_char, digit_value, digits_value, fields_from, is_digit,
    is_whitespace, lemma_word_end_bounds, parse_u16_spec, split_whitespace, word_end,
};

verus! {

/// A character that neither parts fields nor parts or ends messages: no white space, no
/// colon and no semicolon.
pub open spec fn is_plain_char(c: char) -> bool {
    !is_whitespace(c) && c != ':' && c != ';'
}

/// A word: at least one character, and all of them plain.
pub open spec fn is_word(w: Seq<char>) -> bool {
    w.len() > 0 && forall|i: int| 0 <= i < w.len() ==> is_plain_char(#[trigger] w[i])
}

/// The decimal notation of a number is made of digits and writes that number.
pub proof fn lemma_decimal_is_number(n: nat)
    ensures
        decimal(n).len() > 0,
        all_digits(decimal(n)),
        digits_value(decimal(n)) == n,
    decreases n,
{
    if n >= 10 {
        lemma_decimal_is_number(n / 10);
        let head = decimal(n / 10);
        let last = digit_char((n % 10) as int);
        assert(decimal(n) == head.push(last));
        assert(head.push(last).drop_last() =~= head);
        assert(head.push(last).last() == last);
        assert(digit_value(last) == n % 10);
        assert(digits_value(decimal(n)) == digits_value(head) * 10 + n % 10);
        assert forall|i: int| 0 <= i < decimal(n).len() implies is_digit(
            #[trigger] decimal(n)[i],
        ) by {
            if i < head.len() {
                assert(decimal(n)[i] == head[i]);
            }
        }
    } else {
        let only = digit_char(n as int);
        assert(decimal(n) == seq![only]);
        assert(decimal(n).drop_last() =~= Seq::<char>::empty());
        assert(decimal(n).last() == only);
        assert(digit_value(only) == n);
        assert(digits_value(Seq::<char>::empty()) == 0);
        assert(digits_value(decimal(n)) == digits_value(decimal(n).drop_last()) * 10 + n);
    }
}

/// Reading the decimal notation of a number of 16 bits gives the number back.
pub proof fn lemma_parse_decimal(n: u16)
    ensures
        parse_u16_spec(decimal(n as nat)) == Some(n),
        is_word(decimal(n as nat)),
{
    lemma_decimal_is_number(n as nat);
    let s = decimal(n as nat);
    assert(is_digit(s[0]));
    assert forall|i: int| 0 <= i < s.len() implies is_plain_char(#[trigger] s[i]) by {
        assert(is_digit(s[i]));
    }
}

/// Reading the name of a square gives the square back, and `-` names no square.
pub proof fn lemma_parse_square_text(p: Position)
    requires
        on_board(p),
    ensures
        parse_square(square_text(p)) == Some(p),
        is_word(square_text(p)),
        parse_square(seq!['-']) is None,
        is_word(seq!['-']),
{
}

/// The letter of a piece names that piece, and is no digit, no `/` and no white space.
pub proof fn lemma_letter_names_piece(d: PieceData)
    requires
        d.piece != Piece::Empty,
    ensures
        piece_letter(d) is Some,
        letter_piece(piece_letter(d)->0) == Some(d),
        !is_digit(piece_letter(d)->0),
        piece_letter(d)->0 != '/',
        is_plain_char(piece_letter(d)->0),
{
}

/// The run of characters other than white space that starts inside a word which ends the
/// text, or which white space follows, ends where the word ends.
proof fn lemma_word_end_in_word(s: Seq<char>, start: int, end: int, j: int)
    requires
        0 <= start <= j <= end <= s.len(),
        forall|i: int| start <= i < end ==> !is_whitespace(#[trigger] s[i]),
        end == s.len() || is_whitespace(s[end]),
    ensures
        word_end(s, j) == end,
    decreases end - j,
{
    if j < end {
        lemma_word_end_in_word(s, start, end, j + 1);
    }
}

/// The fields of a text from an index on are the fields of what stands from there on.
proof fn lemma_word_end_suffix(s: Seq<char>, i: int, k: int)
    requires
        0 <= i,
        0 <= k,
        i + k <= s.len(),
    ensures
        word_end(s, i + k) == word_end(s.skip(i), k) + i,
    decreases s.len() - i - k,
{
    if i + k < s.len() && !is_whitespace(s[i + k]) {
        lemma_word_end_suffix(s, i, k + 1);
    }
}

/// The fields of a text from an index on are the fields of what stands from there on.
proof fn lemma_fields_suffix(s: Seq<char>, i: int, k: int)
    requires
        0 <= i,
        0 <= k,
        i + k <= s.len(),
    ensures
        fields_from(s, i + k) == fields_from(s.skip(i), k),
    decreases s.len() - i - k,
{
    let t = s.skip(i);
    if i + k < s.len() {
        if is_whitespace(s[i + k]) {
            lemma_fields_suffix(s, i, k + 1);
        } else {
            lemma_word_end_suffix(s, i, k);
            lemma_word_end_bounds(t, k);
            let e = word_end(t, k);
            lemma_fields_suffix(s, i, e);
            assert(s.subrange(i + k, e + i) =~= t.subrange(k, e));
        }
    }
}

/// The fields of a word, a blank and more text are the word and the fields of that text.
pub proof fn lemma_split_word_then_rest(w: Seq<char>, rest: Seq<char>)
    requires
        is_word(w),
    ensures
        split_whitespace(w + seq![' '] + rest) == seq![w] + split_whitespace(rest),
{
    let s = w + seq![' '] + rest;
    let n = w.len() as int;
    assert(s[n] == ' ');
    assert forall|i: int| 0 <= i < n implies !is_whitespace(#[trigger] s[i]) by {
        assert(s[i] == w[i]);
    }
    lemma_word_end_in_word(s, 0, n, 0);
    assert(s.subrange(0, n) =~= w);
    assert(fields_from(s, 0) == seq![w] + fields_from(s, n));
    assert(fields_from(s, n) == fields_from(s, n + 1));
    lemma_fields_suffix(s, n + 1, 0);
    assert(s.skip(n + 1) =~= rest);
}

/// The only field of a word is the word.
pub proof fn lemma_split_word(w: Seq<char>)
    requires
        is_word(w),
    ensures
        split_whitespace(w) == seq![w],
{
    let n = w.len() as int;
    lemma_word_end_in_word(w, 0, n, 0);
    assert(w.subrange(0, n) =~= w);
    assert(fields_from(w, n) =~= Seq::<Seq<char>>::empty());
    assert(seq![w] + Seq::<Seq<char>>::empty() =~= seq![w]);
}

/// What follows the text of the rank `y` in a placement: nothing behind the last rank, and
/// else a `/` and the ranks below.
pub open spec fn rest_text(game: Game, y: int) -> Seq<char> {
    if y >= 7 {
        Seq::empty()
    } else {
        seq!['/'] + placement_text(game, y + 1)
    }
}

/// Every empty square of the position is written as the empty square is.
pub open spec fn has_plain_empties(game: Game) -> bool {
    forall|p: Position|
        on_board(p) && (#[trigger] game.at(p)).piece == Piece::Empty ==> game.at(p)
            == PieceData::empty()
}

/// The two positions have the same pieces on the same squares.
pub open spec fn same_pieces(a: Game, b: Game) -> bool {
    forall|p: Position| on_board(p) ==> #[trigger] a.at(p) == b.at(p)
}

/// The position `cur` holds what `game` holds on the squares that come before the file `x`
/// of the rank `y`, rank by rank, and is empty from there on.
spec fn read_so_far(game: Game, cur: Game, y: int, x: int) -> bool {
    forall|p: Position|
        on_board(p) ==> #[trigger] cur.at(p) == if p.y < y || (p.y == y && p.x < x) {
            game.at(p)
        } else {
            PieceData::empty()
        }
}

/// Reading a placement from an index on is reading what stands from there on.
proof fn lemma_read_suffix(s: Seq<char>, i: int, x: int, y: int, cur: Game)
    requires
        0 <= i <= s.len(),
    ensures
        read_placement(s, i, x, y, cur) == read_placement(s.skip(i), 0, x, y, cur),
    decreases s.len() - i,
{
    let t = s.skip(i);
    if i < s.len() {
        assert(t[0] == s[i]);
        assert(t.skip(1) =~= s.skip(i + 1));
        if s[i] == '/' || x >= 8 {
            lemma_read_suffix(s, i + 1, 0, y + 1, cur);
            lemma_read_suffix(t, 1, 0, y + 1, cur);
        } else if y >= 8 {
        } else {
            match letter_piece(s[i]) {
                Some(d) => {
                    let next = cur.with_piece(Position { x: x as usize, y: y as usize }, d);
                    lemma_read_suffix(s, i + 1, x + 1, y, next);
                    lemma_read_suffix(t, 1, x + 1, y, next);
                },
                None => {
                    if is_digit(s[i]) {
                        let nx = x + digit_value(s[i]);
                        lemma_read_suffix(s, i + 1, nx, y, cur);
                        lemma_read_suffix(t, 1, nx, y, cur);
                    }
                },
            }
        }
    }
}

/// Reading a count of empty squares passes over as many files.
proof fn lemma_read_run(run: int, rest: Seq<char>, x: int, y: int, cur: Game)
    requires
        0 <= run <= 8,
        0 <= x,
        x + run <= 8,
        0 <= y < 8,
    ensures
        read_placement(run_text(run) + rest, 0, x, y, cur) == read_placement(
            rest,
            0,
            x + run,
            y,
            cur,
        ),
{
    if run > 0 {
        let s = run_text(run) + rest;
        let c = digit_char(run);
        assert(s[0] == c);
        assert(is_digit(c));
        assert(digit_value(c) == run);
        assert(letter_piece(c) is None);
        lemma_read_suffix(s, 1, x + run, y, cur);
        assert(s.skip(1) =~= rest);
    } else {
        assert(run_text(run) + rest =~= rest);
    }
}

/// Reading what follows a full rank leads to the position that was written.
proof fn lemma_read_rest(game: Game, cur: Game, y: int)
    requires
        0 <= y < 8,
        has_plain_empties(game),
        read_so_far(game, cur, y, 8),
    ensures
        read_placement(rest_text(game, y), 0, 8, y, cur) is Some,
        same_pieces(read_placement(rest_text(game, y), 0, 8, y, cur)->0, game),
    decreases 8 - y, 0int,
{
    if y == 7 {
        assert forall|p: Position| on_board(p) implies #[trigger] cur.at(p) == game.at(p) by {}
    } else {
        let s = rest_text(game, y);
        assert(s[0] == '/');
        lemma_read_suffix(s, 1, 0, y + 1, cur);
        assert(s.skip(1) =~= placement_text(game, y + 1));
        assert(placement_text(game, y + 1) =~= rank_text(game, y + 1, 0, 0) + rest_text(
            game,
            y + 1,
        ));
        assert forall|p: Position| on_board(p) implies #[trigger] cur.at(p) == if p.y < y + 1 || (
        p.y == y + 1 && p.x < 0) {
            game.at(p)
        } else {
            PieceData::empty()
        } by {}
        lemma_read_rank(game, cur, y + 1, 0, 0);
    }
}

/// Reading the text of a rank from a file on, and what follows it, leads to the position
/// that was written.
proof fn lemma_read_rank(game: Game, cur: Game, y: int, x: int, run: int)
    requires
        0 <= y < 8,
        0 <= run <= x <= 8,
        has_plain_empties(game),
        read_so_far(game, cur, y, x - run),
        forall|k: int| x - run <= k < x ==> (#[trigger] game.board[k])[y].piece == Piece::Empty,
    ensures
        read_placement(rank_text(game, y, x, run) + rest_text(game, y), 0, x - run, y, cur)
            is Some,
        same_pieces(
            read_placement(rank_text(game, y, x, run) + rest_text(game, y), 0, x - run, y, cur)->0,
            game,
        ),
    decreases 8 - y, 9 - x,
{
    let rest = rest_text(game, y);
    // Once the count is read, the squares it stands for are seen to be empty.
    assert(read_so_far(game, cur, y, x)) by {
        assert forall|p: Position| on_board(p) implies #[trigger] cur.at(p) == if p.y < y || (p.y
            == y && p.x < x) {
            game.at(p)
        } else {
            PieceData::empty()
        } by {
            if p.y == y && x - run <= p.x < x {
                assert(game.board[p.x as int][y].piece == Piece::Empty);
                assert(game.at(p).piece == Piece::Empty);
            }
        }
    }
    if x >= 8 {
        lemma_read_run(run, rest, x - run, y, cur);
        lemma_read_rest(game, cur, y);
    } else {
        let here = game.board[x][y];
        let square = Position { x: x as usize, y: y as usize };
        assert(game.at(square) == here);
        match piece_letter(here) {
            None => {
                assert forall|k: int| x + 1 - (run + 1) <= k < x + 1 implies (
                #[trigger] game.board[k])[y].piece == Piece::Empty by {}
                lemma_read_rank(game, cur, y, x + 1, run + 1);
            },
            Some(c) => {
                lemma_letter_names_piece(here);
                let after = rank_text(game, y, x + 1, 0) + rest;
                let s = seq![c] + after;
                assert(rank_text(game, y, x, run) + rest =~= run_text(run) + s);
                lemma_read_run(run, s, x - run, y, cur);
                assert(s[0] == c);
                let next = cur.with_piece(square, here);
                lemma_read_suffix(s, 1, x + 1, y, next);
                assert(s.skip(1) =~= after);
                cur.lemma_with_piece(square, here);
                assert(read_so_far(game, next, y, x + 1)) by {
                    assert forall|p: Position| on_board(p) implies #[trigger] next.at(p) == if p.y
                        < y || (p.y == y && p.x < x + 1) {
                        game.at(p)
                    } else {
                        PieceData::empty()
                    } by {
                        if p != square {
                            assert(next.at(p) == cur.at(p));
                        }
                    }
                }
                lemma_read_rank(game, next, y, x + 1, 0);
            },
        }
    }
}

/// The characters of the text of a rank are plain, and the text is not empty where a
/// square or a count is still to be written.
proof fn lemma_rank_text_is_word(game: Game, y: int, x: int, run: int)
    requires
        0 <= run <= x <= 8,
    ensures
        forall|i: int|
            0 <= i < rank_text(game, y, x, run).len() ==> is_plain_char(
                #[trigger] rank_text(game, y, x, run)[i],
            ),
        x < 8 || run > 0 ==> rank_text(game, y, x, run).len() > 0,
    decreases 8 - x,
{
    let s = rank_text(game, y, x, run);
    if x < 8 {
        match piece_letter(game.board[x][y]) {
            None => {
                lemma_rank_text_is_word(game, y, x + 1, run + 1);
            },
            Some(c) => {
                lemma_rank_text_is_word(game, y, x + 1, 0);
                let d = game.board[x][y];
                lemma_letter_names_piece(d);
                let head = run_text(run);
                let tail = rank_text(game, y, x + 1, 0);
                assert(s == head + seq![c] + tail);
                assert forall|i: int| 0 <= i < s.len() implies is_plain_char(#[trigger] s[i]) by {
                    if i < head.len() {
                        assert(s[i] == head[i]);
                        assert(head[i] == digit_char(run));
                    } else if i == head.len() {
                        assert(s[i] == c);
                    } else {
                        assert(s[i] == tail[i - head.len() - 1]);
                    }
                }
            },
        }
    } else {
        assert forall|i: int| 0 <= i < s.len() implies is_plain_char(#[trigger] s[i]) by {
            assert(s[i] == digit_char(run));
        }
    }
}

/// The text of the ranks from `y` on is a word.
pub proof fn lemma_placement_text_is_word(game: Game, y: int)
    requires
        0 <= y < 8,
    ensures
        is_word(placement_text(game, y)),
    decreases 8 - y,
{
    lemma_rank_text_is_word(game, y, 0, 0);
    if y < 7 {
        lemma_placement_text_is_word(game, y + 1);
        let a = rank_text(game, y, 0, 0);
        let b = placement_text(game, y + 1);
        let s = placement_text(game, y);
        assert(s == a + seq!['/'] + b);
        assert forall|i: int| 0 <= i < s.len() implies is_plain_char(#[trigger] s[i]) by {
            if i < a.len() {
                assert(s[i] == a[i]);
            } else if i == a.len() {
                assert(s[i] == '/');
            } else {
                assert(s[i] == b[i - a.len() - 1]);
            }
        }
    }
}

/// The castling field is a word that holds the letter of each right that a side has, and
/// of no other.
pub proof fn lemma_castle_text(game: Game)
    ensures
        is_word(castle_text(game)),
        castle_text(game).contains('K') == game.castle[0].can_castle_king_side,
        castle_text(game).contains('Q') == game.castle[0].can_castle_queen_side,
        castle_text(game).contains('k') == game.castle[1].can_castle_king_side,
        castle_text(game).contains('q') == game.castle[1].can_castle_queen_side,
{
    let w = rights_text(game.castle[0], 'K', 'Q');
    let b = rights_text(game.castle[1], 'k', 'q');
    let s = castle_text(game);
    assert forall|i: int| 0 <= i < s.len() implies (#[trigger] s[i] == 'K' || s[i] == 'Q' || s[i]
        == 'k' || s[i] == 'q' || s[i] == '-') by {
        if (w + b).len() > 0 {
            if i < w.len() {
                assert(s[i] == w[i]);
            } else {
                assert(s[i] == b[i - w.len()]);
            }
        }
    }
    assert forall|i: int| 0 <= i < s.len() && #[trigger] s[i] == 'K'
        implies game.castle[0].can_castle_king_side by {
        if i < w.len() {
            assert(s[i] == w[i]);
        } else if (w + b).len() > 0 {
            assert(s[i] == b[i - w.len()]);
        }
    }
    assert forall|i: int| 0 <= i < s.len() && #[trigger] s[i] == 'Q'
        implies game.castle[0].can_castle_queen_side by {
        if i < w.len() {
            assert(s[i] == w[i]);
        } else if (w + b).len() > 0 {
            assert(s[i] == b[i - w.len()]);
        }
    }
    assert forall|i: int| 0 <= i < s.len() && #[trigger] s[i] == 'k'
        implies game.castle[1].can_castle_king_side by {
        if i < w.len() {
            assert(s[i] == w[i]);
        } else if (w + b).len() > 0 {
            assert(s[i] == b[i - w.len()]);
        }
    }
    assert forall|i: int| 0 <= i < s.len() && #[trigger] s[i] == 'q'
        implies game.castle[1].can_castle_queen_side by {
        if i < w.len() {
            assert(s[i] == w[i]);
        } else if (w + b).len() > 0 {
            assert(s[i] == b[i - w.len()]);
        }
    }
    if game.castle[0].can_castle_king_side {
        assert(s[0] == 'K');
    }
    if game.castle[0].can_castle_queen_side {
        assert(s[w.len() - 1] == 'Q');
    }
    if game.castle[1].can_castle_king_side {
        assert(s[w.len() as int] == 'k');
    }
    if game.castle[1].can_castle_queen_side {
        assert(s[s.len() - 1] == 'q');
    }
}

/// A position that its text describes without loss: the squares it names lie on the board,
/// its empty squares are written as the empty square is, and the rooks of both sides start
/// in the corners.
pub open spec fn is_loss_free(game: Game) -> bool {
    &&& game.wf()
    &&& has_plain_empties(game)
    &&& game.castle[0] == home_rooks(
        true,
        game.castle[0].can_castle_king_side,
        game.castle[0].can_castle_queen_side,
    )
    &&& game.castle[1] == home_rooks(
        false,
        game.castle[1].can_castle_king_side,
        game.castle[1].can_castle_queen_side,
    )
}

/// Six words with a blank between each two.
pub open spec fn six_words(
    a: Seq<char>,
    b: Seq<char>,
    c: Seq<char>,
    d: Seq<char>,
    e: Seq<char>,
    f: Seq<char>,
) -> Seq<char> {
    a + seq![' '] + (b + seq![' '] + (c + seq![' '] + (d + seq![' '] + (e + seq![' '] + f))))
}

/// The fields of six words with a blank between each two are the six words.
pub proof fn lemma_split_six_words(
    a: Seq<char>,
    b: Seq<char>,
    c: Seq<char>,
    d: Seq<char>,
    e: Seq<char>,
    f: Seq<char>,
)
    requires
        is_word(a),
        is_word(b),
        is_word(c),
        is_word(d),
        is_word(e),
        is_word(f),
    ensures
        split_whitespace(six_words(a, b, c, d, e, f)) == seq![a, b, c, d, e, f],
{
    let r5 = f;
    let r4 = e + seq![' '] + r5;
    let r3 = d + seq![' '] + r4;
    let r2 = c + seq![' '] + r3;
    let r1 = b + seq![' '] + r2;
    lemma_split_word(f);
    lemma_split_word_then_rest(e, r5);
    lemma_split_word_then_rest(d, r4);
    lemma_split_word_then_rest(c, r3);
    lemma_split_word_then_rest(b, r2);
    lemma_split_word_then_rest(a, r1);
    assert(seq![e] + seq![f] =~= seq![e, f]);
    assert(seq![d] + seq![e, f] =~= seq![d, e, f]);
    assert(seq![c] + seq![d, e, f] =~= seq![c, d, e, f]);
    assert(seq![b] + seq![c, d, e, f] =~= seq![b, c, d, e, f]);
    assert(seq![a] + seq![b, c, d, e, f] =~= seq![a, b, c, d, e, f]);
}

/// The side to move as it is written.
pub open spec fn side_text(game: Game) -> Seq<char> {
    seq![if game.is_white_to_move {
        'w'
    } else {
        'b'
    }]
}

/// The text of a position is made of six words with a blank between each two.
pub proof fn lemma_fen_text_is_six_words(game: Game)
    ensures
        fen_text(game) == six_words(
            placement_text(game, 0),
            side_text(game),
            castle_text(game),
            en_passant_text(game),
            decimal(game.half_move_clock as nat),
            decimal(game.full_move_clock as nat),
        ),
{
    assert(fen_text(game) =~= six_words(
        placement_text(game, 0),
        side_text(game),
        castle_text(game),
        en_passant_text(game),
        decimal(game.half_move_clock as nat),
        decimal(game.full_move_clock as nat),
    ));
}

/// The fields of the text of a position are its six parts.
pub proof fn lemma_fen_fields(game: Game)
    requires
        game.wf(),
    ensures
        split_whitespace(fen_text(game)) == seq![
            placement_text(game, 0),
            side_text(game),
            castle_text(game),
            en_passant_text(game),
            decimal(game.half_move_clock as nat),
            decimal(game.full_move_clock as nat),
        ],
{
    lemma_placement_text_is_word(game, 0);
    assert(is_word(side_text(game)));
    lemma_castle_text(game);
    match game.en_passant_position {
        Some(p) => {
            lemma_parse_square_text(p);
        },
        None => {
            lemma_parse_square_text(Position { x: 0, y: 0 });
        },
    }
    lemma_parse_decimal(game.half_move_clock);
    lemma_parse_decimal(game.full_move_clock);
    lemma_fen_text_is_six_words(game);
    lemma_split_six_words(
        placement_text(game, 0),
        side_text(game),
        castle_text(game),
        en_passant_text(game),
        decimal(game.half_move_clock as nat),
        decimal(game.full_move_clock as nat),
    );
}

/// Writing a position and reading the text gives the position back.
pub proof fn lemma_fen_round_trip(game: Game)
    requires
        is_loss_free(game),
    ensures
        decode_fen(fen_text(game)) == Some(game),
{
    let fields = split_whitespace(fen_text(game));
    lemma_fen_fields(game);
    assert(fields.len() == 6);
    assert(fields[0] == placement_text(game, 0));
    assert(fields[1] == side_text(game));
    assert(fields[2] == castle_text(game));
    assert(fields[3] == en_passant_text(game));
    assert(fields[4] == decimal(game.half_move_clock as nat));
    assert(fields[5] == decimal(game.full_move_clock as nat));

    // The placement.
    let blank = blank_game();
    assert(read_so_far(game, blank, 0, 0)) by {
        assert forall|p: Position| on_board(p) implies #[trigger] blank.at(p)
            == PieceData::empty() by {
            assert(blank.board[p.x as int][p.y as int] == PieceData::empty());
        }
    }
    lemma_read_rank(game, blank, 0, 0, 0);
    assert(placement_text(game, 0) =~= rank_text(game, 0, 0, 0) + rest_text(game, 0));
    let placed = read_placement(fields[0], 0, 0, 0, blank)->0;
    assert(placed.board =~= game.board) by {
        assert forall|i: int| 0 <= i < 8 implies placed.board[i] == game.board[i] by {
            assert forall|j: int| 0 <= j < 8 implies placed.board[i][j] == game.board[i][j] by {
                let p = Position { x: i as usize, y: j as usize };
                assert(placed.at(p) == game.at(p));
            }
            assert(placed.board[i] =~= game.board[i]);
        }
    }

    // The side to move.
    assert((fields[1] == seq!['w']) == game.is_white_to_move) by {
        assert(fields[1][0] == (if game.is_white_to_move {
            'w'
        } else {
            'b'
        }));
        assert(seq!['w'][0] == 'w');
        if game.is_white_to_move {
            assert(fields[1] =~= seq!['w']);
        }
    }

    // The castling rights.
    lemma_castle_text(game);
    let castle = [
        home_rooks(true, fields[2].contains('K'), fields[2].contains('Q')),
        home_rooks(false, fields[2].contains('k'), fields[2].contains('q')),
    ];
    assert(castle =~= game.castle);

    // The en-passant target.
    match game.en_passant_position {
        Some(p) => {
            lemma_parse_square_text(p);
        },
        None => {
            lemma_parse_square_text(Position { x: 0, y: 0 });
        },
    }

    // The clocks.
    lemma_parse_decimal(game.half_move_clock);
    lemma_parse_decimal(game.full_move_clock);
}

/// Reading a placement into a position with plain empty squares leaves them plain.
proof fn lemma_read_keeps_plain(s: Seq<char>, i: int, x: int, y: int, cur: Game)
    requires
        has_plain_empties(cur),
        0 <= x,
        0 <= y,
    ensures
        read_placement(s, i, x, y, cur) is Some ==> has_plain_empties(
            read_placement(s, i, x, y, cur)->0,
        ),
    decreases s.len() - i,
{
    if 0 <= i < s.len() {
        if s[i] == '/' || x >= 8 {
            lemma_read_keeps_plain(s, i + 1, 0, y + 1, cur);
        } else if y >= 8 {
        } else {
            match letter_piece(s[i]) {
                Some(d) => {
                    let square = Position { x: x as usize, y: y as usize };
                    let next = cur.with_piece(square, d);
                    cur.lemma_with_piece(square, d);
                    assert(has_plain_empties(next)) by {
                        assert forall|p: Position|
                            on_board(p) && (#[trigger] next.at(p)).piece
                                == Piece::Empty implies next.at(p) == PieceData::empty() by {
                            if p != square {
                                assert(next.at(p) == cur.at(p));
                            }
                        }
                    }
                    lemma_read_keeps_plain(s, i + 1, x + 1, y, next);
                },
                None => {
                    if is_digit(s[i]) {
                        lemma_read_keeps_plain(s, i + 1, x + digit_value(s[i]), y, cur);
                    }
                },
            }
        }
    }
}

/// A position that was read from a text is described by its text without loss.
pub proof fn lemma_decoded_is_loss_free(s: Seq<char>)
    requires
        decode_fen(s) is Some,
    ensures
        is_loss_free(decode_fen(s)->0),
{
    let fields = split_whitespace(s);
    let blank = blank_game();
    assert(has_plain_empties(blank)) by {
        assert forall|p: Position| on_board(p) implies #[trigger] blank.at(p)
            == PieceData::empty() by {
            assert(blank.board[p.x as int][p.y as int] == PieceData::empty());
        }
    }
    lemma_read_keeps_plain(fields[0], 0, 0, 0, blank);
    let placed = read_placement(fields[0], 0, 0, 0, blank)->0;
    let game = decode_fen(s)->0;
    assert forall|p: Position| on_board(p) implies #[trigger] game.at(p) == placed.at(p) by {}
}

/// A move leaves a position one that its text describes without loss.
pub proof fn lemma_apply_move_is_loss_free(game: Game, start: Position, end: Position)
    requires
        is_loss_free(game),
        on_board(start),
        on_board(end),
    ensures
        is_loss_free(apply_move(game, start, end)),
{
    let after = apply_move(game, start, end);
    lemma_apply_move_wf(game, start, end);
    lemma_moved_pieces_plain(game, start, end);
    assert(has_plain_empties(after)) by {
        let moved = moved_pieces(game, start, end);
        assert forall|p: Position|
            on_board(p) && (#[trigger] after.at(p)).piece == Piece::Empty implies after.at(p)
            == PieceData::empty() by {
            assert(after.at(p) == moved.at(p));
        }
    }
    assert(game.castle[0].queen_side_rook == Position { x: 0, y: 7 });
    assert(game.castle[1].queen_side_rook == Position { x: 0, y: 0 });
}

/// The position with a plain piece or the plain empty square put on a square has plain
/// empty squares if it had them before.
proof fn lemma_put_keeps_plain(game: Game, p: Position, d: PieceData)
    requires
        has_plain_empties(game),
        on_board(p),
        d.piece == Piece::Empty ==> d == PieceData::empty(),
    ensures
        has_plain_empties(game.with_piece(p, d)),
{
    let next = game.with_piece(p, d);
    game.lemma_with_piece(p, d);
    assert forall|q: Position|
        on_board(q) && (#[trigger] next.at(q)).piece == Piece::Empty implies next.at(q)
        == PieceData::empty() by {
        if q != p {
            assert(next.at(q) == game.at(q));
        }
    }
}

/// The placement after a move has plain empty squares if the one before had them.
proof fn lemma_moved_pieces_plain(game: Game, start: Position, end: Position)
    requires
        is_loss_free(game),
        on_board(start),
        on_board(end),
    ensures
        has_plain_empties(moved_pieces(game, start, end)),
{
    let mover = game.at(start);
    let empty = PieceData::empty();
    let files = end.x - start.x;
    if mover.piece == Piece::Pawn {
        let cleared = match en_passant_victim(game, start, end) {
            Some(victim) => game.with_piece(victim, empty),
            None => game,
        };
        match en_passant_victim(game, start, end) {
            Some(victim) => {
                lemma_put_keeps_plain(game, victim, empty);
            },
            None => {},
        }
        lemma_put_keeps_plain(cleared, end, mover);
        lemma_put_keeps_plain(cleared.with_piece(end, mover), start, empty);
    } else if mover.piece == Piece::King && (files > 2 || files < -2) {
    } else if mover.piece == Piece::King && (files == 2 || files == -2) {
        let rook_from = castling_rook(game, start, end);
        let rook_to = Position { x: ((start.x + end.x) / 2) as usize, y: end.y };
        assert(on_board(game.castle[0].queen_side_rook));
        assert(on_board(game.castle[1].queen_side_rook));
        assert(on_board(rook_from));
        let a = game.with_piece(rook_to, game.at(rook_from));
        lemma_put_keeps_plain(game, rook_to, game.at(rook_from));
        let b = a.with_piece(end, mover);
        lemma_put_keeps_plain(a, end, mover);
        let c = b.with_piece(rook_from, empty);
        lemma_put_keeps_plain(b, rook_from, empty);
        lemma_put_keeps_plain(c, start, empty);
    } else {
        lemma_put_keeps_plain(game, end, mover);
        lemma_put_keeps_plain(game.with_piece(end, mover), start, empty);
    }
}

/// A promotion leaves a position one that its text describes without loss.
pub proof fn lemma_promoted_is_loss_free(game: Game, promotion: Piece)
    requires
        is_loss_free(game),
        is_promotion_piece(promotion),
    ensures
        is_loss_free(promoted(game, promotion)),
{
    lemma_first_pawn_on_rank(game, 0, 0);
    lemma_first_pawn_on_rank(game, 7, 0);
    match promotion_square(game) {
        Some(p) => {
            let becomes = PieceData { piece: promotion, is_white: game.at(p).is_white };
            lemma_put_keeps_plain(game, p, becomes);
        },
        None => {},
    }
}

} // verus!
