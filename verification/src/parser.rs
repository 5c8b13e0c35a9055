use vstd::prelude::*;
use vstd::array::spec_array_fill_for_copy_type;
use crate::game_data::{on_board, Castle, Game, Gameboard, Piece, PieceData, Position};
use crate::repetition::RepetitionTable;
use crate::text::{
    chars_of, decimal, digit_char, digit_to_char, digit_value, is_digit, parse_u16, parse_u16_spec,
    push_decimal, split_fields, split_whitespace, views_of,
};

verus! {

/// The standard starting position.
pub const STANDARD_BOARD: &'static str = "rnbqkbnr/pppppppp/8/8/8/8/PPPPPPPP/RNBQKBNR w KQkq - 0 1";

/// The letter of the file with index `x`: `a` for 0 up to `h` for 7.
pub open spec fn file_letter(x: int) -> char
    recommends
        0 <= x < 8,
{
    (x + 97) as char
}

/// The digit of the rank with index `y`: `8` for 0 down to `1` for 7.
pub open spec fn rank_digit(y: int) -> char
    recommends
        0 <= y < 8,
{
    (56 - y) as char
}

/// The name of the square `p`: the letter of its file, then the digit of its rank.
pub open spec fn square_text(p: Position) -> Seq<char> {
    seq![file_letter(p.x as int), rank_digit(p.y as int)]
}

/// The file that the letter `c` names, in either case.
pub open spec fn file_of(c: char) -> Option<int> {
    if 'a' <= c <= 'h' {
        Some(c as int - 97)
    } else if 'A' <= c <= 'H' {
        Some(c as int - 65)
    } else {
        None
    }
}

/// The rank that the digit `c` names.
pub open spec fn rank_of(c: char) -> Option<int> {
    if '1' <= c <= '8' {
        Some(56 - c as int)
    } else {
        None
    }
}

/// The square that `s` names: exactly two characters, a file letter `a` to `h` in either
/// case and a rank digit `1` to `8`.
pub open spec fn parse_square(s: Seq<char>) -> Option<Position> {
    if s.len() == 2 && file_of(s[0]) is Some && rank_of(s[1]) is Some {
        Some(Position { x: file_of(s[0])->0 as usize, y: rank_of(s[1])->0 as usize })
    } else {
        None
    }
}

/// The move that `s` names: exactly four characters, the names of two squares.
pub open spec fn parse_move_spec(s: Seq<char>) -> Option<(Position, Position)> {
    if s.len() == 4 && parse_square(s.subrange(0, 2)) is Some && parse_square(s.subrange(2, 4))
        is Some {
        Some((parse_square(s.subrange(0, 2))->0, parse_square(s.subrange(2, 4))->0))
    } else {
        None
    }
}

/// The piece that a fifth character behind a move asks a pawn to become: `r`, `b` and `n`
/// ask for a rook, a bishop and a knight; every other character, and none, for a queen.
pub open spec fn promotion_choice(c: Option<char>) -> Piece {
    match c {
        Some('r') => Piece::Rook,
        Some('b') => Piece::Bishop,
        Some('n') => Piece::Knight,
        _ => Piece::Queen,
    }
}

/// The letter of a kind of piece, in lower case.
pub open spec fn kind_letter(piece: Piece) -> Option<char> {
    match piece {
        Piece::Empty => None,
        Piece::Pawn => Some('p'),
        Piece::Knight => Some('n'),
        Piece::Bishop => Some('b'),
        Piece::Rook => Some('r'),
        Piece::Queen => Some('q'),
        Piece::King => Some('k'),
    }
}

/// The letter of a piece: in upper case for white, in lower case for black; none for an
/// empty square.
pub open spec fn piece_letter(d: PieceData) -> Option<char> {
    match kind_letter(d.piece) {
        Some(c) => if d.is_white {
            Some((c as int - 32) as char)
        } else {
            Some(c)
        },
        None => None,
    }
}

/// The piece that the letter `c` names, if it names one.
pub open spec fn letter_piece(c: char) -> Option<PieceData> {
    match c {
        'p' => Some(PieceData { piece: Piece::Pawn, is_white: false }),
        'n' => Some(PieceData { piece: Piece::Knight, is_white: false }),
        'b' => Some(PieceData { piece: Piece::Bishop, is_white: false }),
        'r' => Some(PieceData { piece: Piece::Rook, is_white: false }),
        'q' => Some(PieceData { piece: Piece::Queen, is_white: false }),
        'k' => Some(PieceData { piece: Piece::King, is_white: false }),
        'P' => Some(PieceData { piece: Piece::Pawn, is_white: true }),
        'N' => Some(PieceData { piece: Piece::Knight, is_white: true }),
        'B' => Some(PieceData { piece: Piece::Bishop, is_white: true }),
        'R' => Some(PieceData { piece: Piece::Rook, is_white: true }),
        'Q' => Some(PieceData { piece: Piece::Queen, is_white: true }),
        'K' => Some(PieceData { piece: Piece::King, is_white: true }),
        _ => None,
    }
}

/// A count of empty squares as it is written: nothing for none, else its digit.
pub open spec fn run_text(run: int) -> Seq<char> {
    if run > 0 {
        seq![digit_char(run)]
    } else {
        Seq::empty()
    }
}

/// The text of the rank `y` from the file `x` on, when `run` empty squares come before it
/// that are not yet written: pieces by their letters, empty squares by their count.
pub open spec fn rank_text(game: Game, y: int, x: int, run: int) -> Seq<char>
    decreases 8 - x,
{
    if x < 0 || x >= 8 {
        run_text(run)
    } else {
        match piece_letter(game.board[x][y]) {
            None => rank_text(game, y, x + 1, run + 1),
            Some(c) => run_text(run) + seq![c] + rank_text(game, y, x + 1, 0),
        }
    }
}

/// The text of the ranks from `y` on, from the top of the board down, with `/` between them.
pub open spec fn placement_text(game: Game, y: int) -> Seq<char>
    decreases 8 - y,
{
    if y < 0 || y >= 8 {
        Seq::empty()
    } else if y == 7 {
        rank_text(game, y, 0, 0)
    } else {
        rank_text(game, y, 0, 0) + seq!['/'] + placement_text(game, y + 1)
    }
}

/// The letters of the castling rights of one side, king side first.
pub open spec fn rights_text(rights: Castle, king: char, queen: char) -> Seq<char> {
    (if rights.can_castle_king_side {
        seq![king]
    } else {
        Seq::empty()
    }) + (if rights.can_castle_queen_side {
        seq![queen]
    } else {
        Seq::empty()
    })
}

/// The castling field: `K` and `Q` for white's rights, `k` and `q` for black's, and `-`
/// where neither side has any.
pub open spec fn castle_text(game: Game) -> Seq<char> {
    let letters = rights_text(game.castle[0], 'K', 'Q') + rights_text(game.castle[1], 'k', 'q');
    if letters.len() == 0 {
        seq!['-']
    } else {
        letters
    }
}

/// The en-passant field: the name of the target square, or `-`.
pub open spec fn en_passant_text(game: Game) -> Seq<char> {
    match game.en_passant_position {
        Some(p) => square_text(p),
        None => seq!['-'],
    }
}

/// The text of a position without its clocks: placement, side to move, castling rights and
/// en-passant target, with one space between them.
pub open spec fn board_fen_text(game: Game) -> Seq<char> {
    placement_text(game, 0) + seq![' ', if game.is_white_to_move {
        'w'
    } else {
        'b'
    }, ' '] + castle_text(game) + seq![' '] + en_passant_text(game)
}

/// The text of a position: that of `board_fen_text`, then the half-move clock and the
/// full-move clock in decimal notation, with one space before each.
pub open spec fn fen_text(game: Game) -> Seq<char> {
    board_fen_text(game) + seq![' '] + decimal(game.half_move_clock as nat) + seq![' '] + decimal(
        game.full_move_clock as nat,
    )
}

/// The board without any piece.
pub open spec fn blank_board() -> [[PieceData; 8]; 8] {
    spec_array_fill_for_copy_type::<[PieceData; 8], 8>(
        spec_array_fill_for_copy_type::<PieceData, 8>(PieceData::empty()),
    )
}

/// The squares on which the rooks of a side start: the two ends of its home rank.
pub open spec fn home_rooks(is_white: bool, king_side: bool, queen_side: bool) -> Castle {
    let y: usize = if is_white {
        7
    } else {
        0
    };
    Castle {
        can_castle_king_side: king_side,
        can_castle_queen_side: queen_side,
        queen_side_rook: Position { x: 0, y },
        king_side_rook: Position { x: 7, y },
    }
}

/// The position with an empty board to which the rest of a text is read.
pub open spec fn blank_game() -> Game {
    Game {
        board: blank_board(),
        castle: [home_rooks(true, false, false), home_rooks(false, false, false)],
        is_white_to_move: false,
        en_passant_position: None,
        half_move_clock: 0,
        full_move_clock: 0,
    }
}

/// Reads the placement `s` from its character `i` on into `game`, where `x` and `y` are the
/// file and rank that come next.
///
/// A `/`, and likewise whatever character follows a full rank, starts the next rank. A
/// letter puts its piece on the square and a digit passes over as many files. Reading ends
/// with the text, or with the first character for a ninth rank that is no `/`. A character
/// that is none of these makes the text invalid.
pub open spec fn read_placement(s: Seq<char>, i: int, x: int, y: int, game: Game) -> Option<Game>
    decreases s.len() - i,
{
    if i < 0 || i >= s.len() {
        Some(game)
    } else if s[i] == '/' || x >= 8 {
        read_placement(s, i + 1, 0, y + 1, game)
    } else if y >= 8 {
        Some(game)
    } else {
        match letter_piece(s[i]) {
            Some(d) => read_placement(
                s,
                i + 1,
                x + 1,
                y,
                game.with_piece(Position { x: x as usize, y: y as usize }, d),
            ),
            None => if is_digit(s[i]) {
                read_placement(s, i + 1, x + digit_value(s[i]), y, game)
            } else {
                None
            },
        }
    }
}

/// The position that the text `s` describes, if it describes one.
///
/// The text has six fields, parted by white space: placement, side to move, castling
/// rights, en-passant target and the two clocks. White is to move exactly when the second
/// field is `w`. A side has a castling right when the third field holds its letter, and its
/// rooks start in the corners. A fourth field that names no square gives no en-passant
/// target. The text describes no position when it does not have six fields, when the
/// placement is invalid, or when a clock is no number of 16 bits.
pub open spec fn decode_fen(s: Seq<char>) -> Option<Game> {
    let f = split_whitespace(s);
    if f.len() != 6 {
        None
    } else {
        match (
            read_placement(f[0], 0, 0, 0, blank_game()),
            parse_u16_spec(f[4]),
            parse_u16_spec(f[5]),
        ) {
            (Some(placed), Some(half), Some(full)) => Some(
                Game {
                    board: placed.board,
                    castle: [
                        home_rooks(true, f[2].contains('K'), f[2].contains('Q')),
                        home_rooks(false, f[2].contains('k'), f[2].contains('q')),
                    ],
                    is_white_to_move: f[1] == seq!['w'],
                    en_passant_position: parse_square(f[3]),
                    half_move_clock: half,
                    full_move_clock: full,
                },
            ),
            _ => None,
        }
    }
}

/// The square that the characters `chars` name.
fn parse_square_chars(chars: &Vec<char>) -> (r: Option<Position>)
    ensures
        r == parse_square(chars@),
        r is Some ==> on_board(r->0),
{
    if chars.len() != 2 {
        return None;
    }
    let file: char = chars[0];
    let rank: char = chars[1];
    let x: u32 = if 'a' <= file && file <= 'h' {
        file as u32 - 97
    } else if 'A' <= file && file <= 'H' {
        file as u32 - 65
    } else {
        return None;
    };
    if !('1' <= rank && rank <= '8') {
        return None;
    }
    let d: u32 = rank as u32;
    Some(Position { x: x as usize, y: (56 - d) as usize })
}

/// Reads the name of a square, such as `e6`.
pub fn parse_position(input: &str) -> (r: Option<Position>)
    ensures
        r == parse_square(input@),
        r is Some ==> on_board(r->0),
{
    let chars = chars_of(input);
    parse_square_chars(&chars)
}

/// The name of the square `pos`.
pub fn get_position(pos: Position) -> (name: String)
    requires
        on_board(pos),
    ensures
        name@ == square_text(pos),
{
    let mut name = String::new();
    name.push((pos.x as u8 + 97) as char);
    name.push((56 - pos.y as u8) as char);
    assert(name@ =~= square_text(pos));
    name
}

/// The name of the move from `move_from` to `move_to`: the names of the two squares.
pub fn get_move(move_from: Position, move_to: Position) -> (name: String)
    requires
        on_board(move_from),
        on_board(move_to),
    ensures
        name@ == square_text(move_from) + square_text(move_to),
{
    let mut name = String::new();
    name.push((move_from.x as u8 + 97) as char);
    name.push((56 - move_from.y as u8) as char);
    name.push((move_to.x as u8 + 97) as char);
    name.push((56 - move_to.y as u8) as char);
    assert(name@ =~= square_text(move_from) + square_text(move_to));
    name
}

/// Reads the name of a move, such as `e2e4`: the square it starts on, then the square it
/// ends on.
pub fn parse_move(input: &str) -> (r: Option<(Position, Position)>)
    ensures
        r == parse_move_spec(input@),
        r is Some ==> on_board(r.unwrap().0) && on_board(r.unwrap().1),
{
    let chars = chars_of(input);
    if chars.len() != 4 {
        return None;
    }
    let first = vec![chars[0], chars[1]];
    let second = vec![chars[2], chars[3]];
    assert(first@ =~= input@.subrange(0, 2));
    assert(second@ =~= input@.subrange(2, 4));
    let move_start = parse_square_chars(&first);
    let move_end = parse_square_chars(&second);
    match (move_start, move_end) {
        (Some(a), Some(b)) => Some((a, b)),
        _ => None,
    }
}

/// The piece that a fifth character behind a move asks a pawn to become.
pub fn parse_promotion(c: Option<char>) -> (piece: Piece)
    ensures
        piece == promotion_choice(c),
{
    match c {
        Some('r') => Piece::Rook,
        Some('b') => Piece::Bishop,
        Some('n') => Piece::Knight,
        _ => Piece::Queen,
    }
}

/// The letter of a piece; none for an empty square.
pub fn get_piece(piece_data: PieceData) -> (r: Option<char>)
    ensures
        r == piece_letter(piece_data),
{
    let low: char = match piece_data.piece {
        Piece::Empty => {
            return None;
        },
        Piece::Pawn => 'p',
        Piece::Knight => 'n',
        Piece::Bishop => 'b',
        Piece::Rook => 'r',
        Piece::Queen => 'q',
        Piece::King => 'k',
    };
    if piece_data.is_white {
        Some(((low as u8) - 32) as char)
    } else {
        Some(low)
    }
}

/// The piece that the letter `input` names, if it names one.
pub fn parse_piece(input: char) -> (r: Option<PieceData>)
    ensures
        r == letter_piece(input),
{
    match input {
        'p' => Some(PieceData { piece: Piece::Pawn, is_white: false }),
        'n' => Some(PieceData { piece: Piece::Knight, is_white: false }),
        'b' => Some(PieceData { piece: Piece::Bishop, is_white: false }),
        'r' => Some(PieceData { piece: Piece::Rook, is_white: false }),
        'q' => Some(PieceData { piece: Piece::Queen, is_white: false }),
        'k' => Some(PieceData { piece: Piece::King, is_white: false }),
        'P' => Some(PieceData { piece: Piece::Pawn, is_white: true }),
        'N' => Some(PieceData { piece: Piece::Knight, is_white: true }),
        'B' => Some(PieceData { piece: Piece::Bishop, is_white: true }),
        'R' => Some(PieceData { piece: Piece::Rook, is_white: true }),
        'Q' => Some(PieceData { piece: Piece::Queen, is_white: true }),
        'K' => Some(PieceData { piece: Piece::King, is_white: true }),
        _ => None,
    }
}

/// Appends the text of the rank `y` to `output`.
fn push_rank(output: &mut String, game: &Game, y: usize)
    requires
        y < 8,
    ensures
        final(output)@ == old(output)@ + rank_text(*game, y as int, 0, 0),
{
    let mut last_piece: u8 = 0;
    let mut x: usize = 0;
    assert(output@ =~= old(output)@ + Seq::<char>::empty());
    let ghost mut done: Seq<char> = Seq::empty();
    while x < 8
        invariant
            x <= 8,
            y < 8,
            last_piece <= x,
            output@ == old(output)@ + done,
            done + rank_text(*game, y as int, x as int, last_piece as int) == rank_text(
                *game,
                y as int,
                0,
                0,
            ),
        decreases 8 - x,
    {
        let piece_data = game.board[x][y];
        match get_piece(piece_data) {
            None => {
                last_piece += 1;
            },
            Some(s_char) => {
                let ghost before = done;
                if last_piece != 0 {
                    output.push(digit_to_char(last_piece));
                    proof {
                        done = done.push(digit_char(last_piece as int));
                    }
                }
                output.push(s_char);
                proof {
                    done = done.push(s_char);
                    assert(done =~= before + run_text(last_piece as int) + seq![s_char]);
                    assert(before + (run_text(last_piece as int) + seq![s_char] + rank_text(
                        *game,
                        y as int,
                        x + 1,
                        0,
                    )) =~= done + rank_text(*game, y as int, x + 1, 0));
                    assert(output@ =~= old(output)@ + done);
                }
                last_piece = 0;
            },
        }
        x += 1;
    }
    if last_piece != 0 {
        output.push(digit_to_char(last_piece));
        proof {
            assert(output@ =~= old(output)@ + (done + run_text(last_piece as int)));
        }
    } else {
        assert(output@ =~= old(output)@ + (done + run_text(last_piece as int)));
    }
}

/// Appends the letters of the castling rights of one side to `output`.
fn push_rights(output: &mut String, rights: &Castle, king: char, queen: char)
    ensures
        final(output)@ == old(output)@ + rights_text(*rights, king, queen),
{
    if rights.can_castle_king_side {
        output.push(king);
    }
    if rights.can_castle_queen_side {
        output.push(queen);
    }
    assert(output@ =~= old(output)@ + rights_text(*rights, king, queen));
}

/// Appends the placement of `game` to `output`.
fn push_placement(output: &mut String, game: &Game)
    ensures
        final(output)@ == old(output)@ + placement_text(*game, 0),
{
    let mut y: usize = 0;
    let ghost mut done: Seq<char> = Seq::empty();
    assert(output@ =~= old(output)@ + done);
    while y < 8
        invariant
            y <= 8,
            output@ == old(output)@ + done,
            done + placement_text(*game, y as int) == placement_text(*game, 0),
        decreases 8 - y,
    {
        let ghost before = done;
        push_rank(output, game, y);
        if y != 7 {
            output.push('/');
            proof {
                done = before + rank_text(*game, y as int, 0, 0) + seq!['/'];
            }
        } else {
            proof {
                done = before + rank_text(*game, y as int, 0, 0);
            }
        }
        proof {
            assert(output@ =~= old(output)@ + done);
            assert(done + placement_text(*game, y + 1) =~= before + placement_text(
                *game,
                y as int,
            ));
        }
        y += 1;
    }
    assert(done + placement_text(*game, 8) =~= done);
}

/// Appends the castling field of `game` to `output`.
fn push_castle(output: &mut String, game: &Game)
    ensures
        final(output)@ == old(output)@ + castle_text(*game),
{
    let white = game.castle[0];
    let black = game.castle[1];
    if !white.can_castle_king_side && !white.can_castle_queen_side && !black.can_castle_king_side
        && !black.can_castle_queen_side {
        output.push('-');
        assert(rights_text(white, 'K', 'Q') + rights_text(black, 'k', 'q') =~= Seq::<
            char,
        >::empty());
        assert(output@ =~= old(output)@ + castle_text(*game));
    } else {
        push_rights(output, &white, 'K', 'Q');
        push_rights(output, &black, 'k', 'q');
        assert((rights_text(white, 'K', 'Q') + rights_text(black, 'k', 'q')).len() > 0);
        assert(output@ =~= old(output)@ + castle_text(*game));
    }
}

/// Appends the en-passant field of `game` to `output`.
fn push_en_passant(output: &mut String, game: &Game)
    requires
        game.wf(),
    ensures
        final(output)@ == old(output)@ + en_passant_text(*game),
{
    match game.en_passant_position {
        Some(en_passant_position) => {
            output.push((en_passant_position.x as u8 + 97) as char);
            output.push((56 - en_passant_position.y as u8) as char);
        },
        None => {
            output.push('-');
        },
    }
    assert(output@ =~= old(output)@ + en_passant_text(*game));
}

/// The text of the position `game` without its clocks. The text always exists.
pub fn get_board_fen(game: &Game) -> (r: Option<String>)
    requires
        game.wf(),
    ensures
        r is Some,
        r->0@ == board_fen_text(*game),
{
    let mut output = String::new();
    push_placement(&mut output, game);
    output.push(' ');
    output.push(
        if game.is_white_to_move {
            'w'
        } else {
            'b'
        },
    );
    output.push(' ');
    push_castle(&mut output, game);
    output.push(' ');
    push_en_passant(&mut output, game);
    assert(output@ =~= board_fen_text(*game));
    Some(output)
}

/// The text of the position `game`. The text always exists.
pub fn get_fen(game: &Game) -> (r: Option<String>)
    requires
        game.wf(),
    ensures
        r is Some,
        r->0@ == fen_text(*game),
{
    let mut output = match get_board_fen(game) {
        Some(fen) => fen,
        None => {
            return None;
        },
    };
    output.push(' ');
    push_decimal(&mut output, game.half_move_clock as u64);
    output.push(' ');
    push_decimal(&mut output, game.full_move_clock as u64);
    assert(output@ =~= fen_text(*game));
    Some(output)
}

/// The text of the position `game`, as `get_fen` gives it.
pub fn print_board(game: &Game) -> (r: Option<String>)
    requires
        game.wf(),
    ensures
        r is Some,
        r->0@ == fen_text(*game),
{
    get_fen(game)
}

/// Whether `c` occurs in `v`.
fn has_char(v: &Vec<char>, c: char) -> (r: bool)
    ensures
        r == v@.contains(c),
{
    let mut i: usize = 0;
    while i < v.len()
        invariant
            i <= v.len(),
            forall|j: int| 0 <= j < i ==> v@[j] != c,
        decreases v.len() - i,
    {
        if v[i] == c {
            return true;
        }
        i += 1;
    }
    false
}

/// The castling rights of a side whose rooks start in the corners.
fn new_castle(is_white: bool, king_side: bool, queen_side: bool) -> (c: Castle)
    ensures
        c == home_rooks(is_white, king_side, queen_side),
{
    let y: usize = if is_white {
        7
    } else {
        0
    };
    Castle {
        can_castle_king_side: king_side,
        can_castle_queen_side: queen_side,
        queen_side_rook: Position { x: 0, y },
        king_side_rook: Position { x: 7, y },
    }
}

/// Reads the placement `s` onto an empty board.
fn read_board(s: &Vec<char>) -> (r: Option<Game>)
    ensures
        r == read_placement(s@, 0, 0, 0, blank_game()),
{
    let mut game = Game {
        board: [[PieceData::new_empty(); 8]; 8],
        castle: [new_castle(true, false, false), new_castle(false, false, false)],
        is_white_to_move: false,
        en_passant_position: None,
        half_move_clock: 0,
        full_move_clock: 0,
    };
    assert(game.board =~= blank_game().board) by {
        assert forall|i: int| 0 <= i < 8 implies game.board[i] == blank_game().board[i] by {
            assert(game.board[i] =~= blank_game().board[i]);
        }
    }
    assert(game.castle =~= blank_game().castle);
    let mut board_x: usize = 0;
    let mut board_y: usize = 0;
    let mut i: usize = 0;
    while i < s.len()
        invariant
            i <= s.len(),
            board_x <= 16,
            board_y <= i,
            read_placement(s@, 0, 0, 0, blank_game()) == read_placement(
                s@,
                i as int,
                board_x as int,
                board_y as int,
                game,
            ),
        decreases s.len() - i,
    {
        let c = s[i];
        if c == '/' || board_x >= 8 {
            board_y += 1;
            board_x = 0;
            i += 1;
            continue ;
        }
        if board_y >= 8 {
            return Some(game);
        }
        match parse_piece(c) {
            None => {
                if !('0' <= c && c <= '9') {
                    return None;
                }
                board_x += (c as u32 - 48) as usize;
            },
            Some(piece) => {
                game.put(&Position { x: board_x, y: board_y }, piece);
                board_x += 1;
            },
        }
        i += 1;
    }
    Some(game)
}

/// Reads a position from its text.
pub fn get_board(fen_string: String) -> (r: Option<Game>)
    ensures
        r == decode_fen(fen_string@),
        r is Some ==> r->0.wf(),
{
    let chars = chars_of(fen_string.as_str());
    let split = split_fields(&chars);
    if split.len() != 6 {
        return None;
    }
    let ghost f = split_whitespace(fen_string@);
    assert(forall|k: int| 0 <= k < 6 ==> #[trigger] split@[k]@ == f[k]) by {
        assert(forall|k: int| 0 <= k < 6 ==> views_of(split@)[k] == #[trigger] split@[k]@);
    }
    let placed = match read_board(&split[0]) {
        Some(g) => g,
        None => {
            return None;
        },
    };
    let is_white_to_move = split[1].len() == 1 && split[1][0] == 'w';
    assert(is_white_to_move == (f[1] == seq!['w'])) by {
        if is_white_to_move {
            assert(f[1] =~= seq!['w']);
        } else if f[1] == seq!['w'] {
            assert(seq!['w'].len() == 1);
            assert(seq!['w'][0] == 'w');
        }
    }
    let white_castle = new_castle(true, has_char(&split[2], 'K'), has_char(&split[2], 'Q'));
    let black_castle = new_castle(false, has_char(&split[2], 'k'), has_char(&split[2], 'q'));
    let en_passant_position = parse_square_chars(&split[3]);
    let half_move_clock = match parse_u16(&split[4]) {
        Some(n) => n,
        None => {
            return None;
        },
    };
    let full_move_clock = match parse_u16(&split[5]) {
        Some(n) => n,
        None => {
            return None;
        },
    };
    let game = Game {
        board: placed.board,
        castle: [white_castle, black_castle],
        is_white_to_move,
        en_passant_position,
        half_move_clock,
        full_move_clock,
    };
    assert(game.castle =~= decode_fen(fen_string@)->0.castle);
    Some(game)
}

/// Starts a game from the text of a position; the position has then occurred once.
pub fn init_game_board(fen: String) -> (r: Option<Gameboard>)
    ensures
        match decode_fen(fen@) {
            Some(game) => r is Some && r->0.game == game && r->0.wf() && r->0.same_board@
                == Map::<Seq<char>, u8>::empty().insert(board_fen_text(game), 1u8),
            None => r is None,
        },
{
    let game = match get_board(fen) {
        Some(g) => g,
        None => {
            return None;
        },
    };
    let mut map = RepetitionTable::new();
    match get_board_fen(&game) {
        Some(g) => {
            map.record(g);
        },
        None => {
            return None;
        },
    }
    Some(Gameboard { game, same_board: map })
}

} // verus!
