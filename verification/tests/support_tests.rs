use chess_engine::game_data::{get_moveset, Piece, Position, Vector2};
use chess_engine::position_set::PositionSet;
use chess_engine::render::{get_char, trim_newline};
use chess_engine::repetition::RepetitionTable;
use chess_engine::text::{
    char_is_whitespace, chars_of, digit_to_char, parse_u16, push_decimal, split_fields, string_of,
};

fn chars(s: &str) -> Vec<char> {
    s.chars().collect()
}

#[test]
fn position_set_insert_and_contains() {
    let mut set = PositionSet::new();
    assert!(set.is_empty());
    assert!(!set.contains(&Position { x: 3, y: 4 }));
    set.insert(Position { x: 3, y: 4 });
    set.insert(Position { x: 3, y: 4 });
    set.insert(Position { x: 0, y: 7 });
    assert!(!set.is_empty());
    assert!(set.contains(&Position { x: 3, y: 4 }));
    assert!(set.contains(&Position { x: 0, y: 7 }));
    assert!(!set.contains(&Position { x: 4, y: 3 }));
    assert!(!set.contains(&Position { x: 8, y: 0 }));
    assert!(!set.contains(&Position { x: 0, y: 99 }));
    let listed = set.to_vec();
    assert_eq!(listed.len(), 2);
    assert!(listed.contains(&Position { x: 3, y: 4 }));
    assert!(listed.contains(&Position { x: 0, y: 7 }));
}

#[test]
fn position_set_extend_is_union() {
    let mut a = PositionSet::new();
    a.insert(Position { x: 1, y: 1 });
    a.insert(Position { x: 2, y: 2 });
    let mut b = PositionSet::new();
    b.insert(Position { x: 2, y: 2 });
    b.insert(Position { x: 7, y: 7 });
    a.extend(&b);
    assert_eq!(a.to_vec().len(), 3);
    assert!(a.contains(&Position { x: 1, y: 1 }));
    assert!(a.contains(&Position { x: 2, y: 2 }));
    assert!(a.contains(&Position { x: 7, y: 7 }));
    assert_eq!(b.to_vec().len(), 2);
}

#[test]
fn position_set_holds_the_whole_board() {
    let mut set = PositionSet::new();
    for x in 0..8 {
        for y in 0..8 {
            set.insert(Position { x, y });
        }
    }
    assert_eq!(set.to_vec().len(), 64);
}

#[test]
fn repetition_table_counts() {
    let mut table = RepetitionTable::new();
    assert_eq!(table.max_count(), 0);
    assert_eq!(table.count(&"a".to_string()), 0);
    table.record("a".to_string());
    table.record("b".to_string());
    table.record("a".to_string());
    assert_eq!(table.count(&"a".to_string()), 2);
    assert_eq!(table.count(&"b".to_string()), 1);
    assert_eq!(table.count(&"c".to_string()), 0);
    assert_eq!(table.max_count(), 2);
}

#[test]
fn repetition_table_stops_at_the_largest_count() {
    let mut table = RepetitionTable::new();
    for _ in 0..300 {
        table.record("again".to_string());
    }
    assert_eq!(table.count(&"again".to_string()), 255);
    assert_eq!(table.max_count(), 255);
}

#[test]
fn moveset_of_each_piece() {
    assert_eq!(get_moveset(Piece::Empty).regular_moves.len(), 0);
    assert_eq!(get_moveset(Piece::Empty).inf_moves.len(), 0);
    assert_eq!(get_moveset(Piece::Pawn).regular_moves.len(), 0);
    assert_eq!(get_moveset(Piece::Pawn).inf_moves.len(), 0);
    assert_eq!(get_moveset(Piece::Knight).regular_moves.len(), 8);
    assert_eq!(get_moveset(Piece::Knight).inf_moves.len(), 0);
    assert_eq!(get_moveset(Piece::King).regular_moves.len(), 8);
    assert_eq!(get_moveset(Piece::King).inf_moves.len(), 0);
    assert_eq!(get_moveset(Piece::Queen).inf_moves.len(), 8);
    assert_eq!(get_moveset(Piece::Rook).inf_moves.len(), 4);
    assert_eq!(get_moveset(Piece::Bishop).inf_moves.len(), 4);
    assert!(get_moveset(Piece::Knight).regular_moves[0] == Vector2 { x: 2, y: 1 });
    assert!(get_moveset(Piece::Rook).inf_moves[0] == Vector2 { x: 0, y: 1 });
    assert!(get_moveset(Piece::Rook).inf_moves[3] == Vector2 { x: 1, y: 0 });
    assert!(get_moveset(Piece::Bishop).inf_moves[1] == Vector2 { x: -1, y: -1 });
    assert!(get_moveset(Piece::Queen).inf_moves[4] == Vector2 { x: 1, y: 1 });
}

#[test]
fn chars_and_strings_convert() {
    assert_eq!(chars_of("aé♔ z"), chars("aé♔ z"));
    assert_eq!(chars_of(""), Vec::<char>::new());
    assert_eq!(string_of(&chars("e2e4")), "e2e4");
    assert_eq!(string_of(&chars("aé♔")), "aé♔");
    assert_eq!(string_of(&Vec::new()), "");
}

#[test]
fn white_space_characters() {
    for c in [' ', '\t', '\n', '\r', '\u{b}', '\u{c}', '\u{85}', '\u{a0}', '\u{1680}', '\u{2000}',
        '\u{200a}', '\u{2028}', '\u{2029}', '\u{202f}', '\u{205f}', '\u{3000}'] {
        assert!(char_is_whitespace(c));
    }
    for c in ['a', '0', '/', '-', '\u{8}', '\u{e}', '\u{200b}', '\u{feff}', '\u{180e}'] {
        assert!(!char_is_whitespace(c));
    }
    for n in 0..0x3100u32 {
        if let Some(c) = char::from_u32(n) {
            assert_eq!(char_is_whitespace(c), c.is_whitespace());
        }
    }
}

#[test]
fn fields_are_the_runs_between_white_space() {
    assert_eq!(split_fields(&chars("")), Vec::<Vec<char>>::new());
    assert_eq!(split_fields(&chars("  \t ")), Vec::<Vec<char>>::new());
    assert_eq!(split_fields(&chars("one")), vec![chars("one")]);
    assert_eq!(
        split_fields(&chars(" a  bc\td\n")),
        vec![chars("a"), chars("bc"), chars("d")]
    );
    for text in ["a b c d e f", "  x\u{a0}y ", "rnbq w - - 0 1", "\n\n", "z"] {
        let expected: Vec<Vec<char>> = text.split_whitespace().map(chars).collect();
        assert_eq!(split_fields(&chars(text)), expected);
    }
}

#[test]
fn decimal_notation() {
    for (n, text) in [(0u64, "0"), (7, "7"), (10, "10"), (99, "99"), (100, "100"), (65535, "65535"),
        (18446744073709551615, "18446744073709551615")] {
        let mut out = "x".to_string();
        push_decimal(&mut out, n);
        assert_eq!(out, format!("x{}", text));
    }
    assert_eq!(digit_to_char(0), '0');
    assert_eq!(digit_to_char(9), '9');
}

#[test]
fn numbers_of_sixteen_bits() {
    assert_eq!(parse_u16(&chars("0")), Some(0));
    assert_eq!(parse_u16(&chars("42")), Some(42));
    assert_eq!(parse_u16(&chars("+42")), Some(42));
    assert_eq!(parse_u16(&chars("00042")), Some(42));
    assert_eq!(parse_u16(&chars("65535")), Some(65535));
    assert_eq!(parse_u16(&chars("65536")), None);
    assert_eq!(parse_u16(&chars("99999999999999999999999")), None);
    assert_eq!(parse_u16(&chars("")), None);
    assert_eq!(parse_u16(&chars("+")), None);
    assert_eq!(parse_u16(&chars("-1")), None);
    assert_eq!(parse_u16(&chars("-0")), None);
    assert_eq!(parse_u16(&chars("++1")), None);
    assert_eq!(parse_u16(&chars("1+")), None);
    assert_eq!(parse_u16(&chars("1 ")), None);
    assert_eq!(parse_u16(&chars("1_0")), None);
    assert_eq!(parse_u16(&chars("٣")), None);
    for text in ["0", "+0", "12", "0012", "65535", "65536", "70000", "", "+", "-", "-5", "1a", "a1"] {
        assert_eq!(parse_u16(&chars(text)), text.parse::<u16>().ok());
    }
}

#[test]
fn glyphs_of_the_pieces() {
    assert_eq!(get_char(Piece::Empty, true), " ");
    assert_eq!(get_char(Piece::Empty, false), " ");
    assert_eq!(get_char(Piece::Pawn, true), "♙");
    assert_eq!(get_char(Piece::Knight, true), "♘");
    assert_eq!(get_char(Piece::Bishop, true), "♗");
    assert_eq!(get_char(Piece::Rook, true), "♖");
    assert_eq!(get_char(Piece::Queen, true), "♕");
    assert_eq!(get_char(Piece::King, true), "♔");
    assert_eq!(get_char(Piece::Pawn, false), "♟");
    assert_eq!(get_char(Piece::Knight, false), "♞");
    assert_eq!(get_char(Piece::Bishop, false), "♝");
    assert_eq!(get_char(Piece::Rook, false), "♜");
    assert_eq!(get_char(Piece::Queen, false), "♛");
    assert_eq!(get_char(Piece::King, false), "♚");
}

#[test]
fn trim_newline_takes_the_line_end_off() {
    for (before, after) in [("e2e4\n", "e2e4"), ("e2e4\r\n", "e2e4"), ("e2e4", "e2e4"), ("", ""),
        ("\n", ""), ("\r\n", ""), ("a\n\n", "a\n"), ("a\r", "a\r"), ("a\r\r\n", "a\r"),
        ("a\n\r", "a\n\r")] {
        let mut s = before.to_string();
        trim_newline(&mut s);
        assert_eq!(s, after);
    }
}
