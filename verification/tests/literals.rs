use cfuq::lex_error::BadLiteralError;
use cfuq::lexer::Lexer;
use cfuq::position::Position;
use cfuq::tokens::{LiteralKind, Token, TokenKind};

fn start() -> Position {
    Position::new(2)
}

/// The kind, its size, the bytes consumed, and the columns reached, in bytes and in clusters.
fn read(text: &str) -> (LiteralKind, usize, usize, usize, usize) {
    let mut pos = start();
    let (outcome, consumed) = Lexer::parse_literal(text, &mut pos);
    match outcome {
        Ok(Some(Token { kind: TokenKind::Literal(kind), prov })) => {
            assert_eq!((prov.file_id(), prov.line(), prov.column()), (2, 1, 1));
            (kind, prov.size(), consumed, pos.column_bytes, pos.column_graphemes)
        }
        other => panic!("{:?}", other),
    }
}

fn refused(text: &str) -> (String, usize, usize, usize, usize) {
    let mut pos = start();
    let (outcome, consumed) = Lexer::parse_literal(text, &mut pos);
    match outcome {
        Err(BadLiteralError { bad, prov }) => {
            assert_eq!((prov.file_id(), prov.line(), prov.column()), (2, 1, 1));
            (bad, prov.size(), consumed, pos.column_bytes, pos.column_graphemes)
        }
        other => panic!("{:?}", other),
    }
}

#[test]
fn byte_literals_of_two_digits() {
    assert_eq!(read("h'ff"), (LiteralKind::Byte(255), 4, 4, 5, 5));
    assert_eq!(read("h'0A rest"), (LiteralKind::Byte(10), 4, 4, 5, 5));
    assert_eq!(read("h'+7"), (LiteralKind::Byte(7), 4, 4, 5, 5));
    assert_eq!(refused("h'g0"), ("h'g0".to_string(), 4, 4, 5, 5));
    assert_eq!(refused("h'0"), ("h'0".to_string(), 3, 3, 4, 4));
    assert_eq!(refused("h'"), ("h'".to_string(), 2, 2, 3, 3));
}

#[test]
fn byte_literals_with_other_characters() {
    // What is reported repeats the prefix, and as many bytes are consumed.
    assert_eq!(refused("h'é"), ("h'h'".to_string(), 4, 4, 5, 5));
    assert_eq!(refused("h'é12"), ("h'h'".to_string(), 4, 4, 5, 5));
    // No character is cut apart, and no more is consumed than there is.
    assert_eq!(refused("h'0é1"), ("h'h'".to_string(), 4, 5, 6, 5));
    assert_eq!(refused("h'\u{1f600}"), ("h'h'".to_string(), 4, 6, 7, 5));
    assert_eq!(refused("h'\u{1f600}ab"), ("h'h'".to_string(), 4, 6, 7, 5));
    assert_eq!(refused("h'\u{301}"), ("h'h'\u{301}".to_string(), 4, 4, 5, 5));
    assert_eq!(refused("h'\u{301}abc"), ("h'h'\u{301}".to_string(), 4, 6, 7, 5));
}

#[test]
fn byte_literals_of_a_character() {
    assert_eq!(read("b'x"), (LiteralKind::Byte(120), 3, 3, 4, 4));
    assert_eq!(read("b'\\n"), (LiteralKind::Byte(92), 3, 3, 4, 4));
    assert_eq!(refused("b'"), ("b'".to_string(), 2, 2, 3, 3));
    assert_eq!(refused("b'é!"), ("b'é".to_string(), 3, 4, 5, 4));
    assert_eq!(read("b'e\u{301}"), (LiteralKind::Byte(101), 3, 3, 4, 4));
    assert_eq!(refused("b'\u{301}\u{301}x"), ("b'\u{301}\u{301}".to_string(), 3, 6, 7, 4));
}

#[test]
fn character_literals() {
    assert_eq!(read("'x"), (LiteralKind::Char(120), 2, 2, 3, 3));
    assert_eq!(read("''"), (LiteralKind::Char(39), 2, 2, 3, 3));
    assert_eq!(refused("'"), ("'".to_string(), 1, 1, 2, 2));
    assert_eq!(refused("'é"), ("'é".to_string(), 2, 3, 4, 3));
    assert_eq!(refused("'é'"), ("'é".to_string(), 2, 3, 4, 3));
    assert_eq!(refused("'\u{301}\u{301}x"), ("'\u{301}\u{301}".to_string(), 2, 5, 6, 3));
}

#[test]
fn string_literals() {
    assert_eq!(read("\"ab\" rest"), (LiteralKind::String("ab".to_string()), 4, 4, 5, 5));
    assert_eq!(read("\"\""), (LiteralKind::String(String::new()), 2, 2, 3, 3));
    assert_eq!(read("\"é\""), (LiteralKind::String("é".to_string()), 3, 4, 5, 4));
    assert_eq!(read("\"a\\\"b\"c"), (LiteralKind::String("a\\\"b".to_string()), 6, 6, 7, 7));
    assert_eq!(read("\"a\\\\\"b\""), (LiteralKind::String("a\\\\".to_string()), 5, 5, 6, 6));
    assert_eq!(refused("\""), ("\"".to_string(), 1, 1, 2, 2));
    assert_eq!(refused("\"éa"), ("\"éa".to_string(), 4, 4, 5, 4));
    assert_eq!(refused("\"a\\\""), ("\"a\\\"".to_string(), 4, 4, 5, 5));
}

#[test]
fn numbers() {
    assert_eq!(read("42"), (LiteralKind::Int(42), 2, 2, 3, 3));
    assert_eq!(read("42+1"), (LiteralKind::Int(42), 2, 2, 3, 3));
    assert_eq!(read("42\u{c}"), (LiteralKind::Int(42), 2, 2, 3, 3));
    assert_eq!(read("1.5e3 "), (LiteralKind::Float("1.5e3".to_string()), 5, 5, 6, 6));
    assert_eq!(read("3."), (LiteralKind::Float("3.".to_string()), 2, 2, 3, 3));
    assert_eq!(
        read("9223372036854775807"),
        (LiteralKind::Int(i64::MAX), 19, 19, 20, 20)
    );
    assert_eq!(
        refused("9223372036854775808"),
        ("9223372036854775808".to_string(), 19, 19, 20, 20)
    );
    assert_eq!(refused("1x"), ("1x".to_string(), 2, 2, 3, 3));
    assert_eq!(refused("1é,"), ("1é".to_string(), 3, 3, 4, 3));
    assert_eq!(refused("1é"), ("1é".to_string(), 2, 3, 4, 3));
    assert_eq!(refused("1.2.3"), ("1.2.3".to_string(), 5, 5, 6, 6));
    assert_eq!(refused("1.5e-3"), ("1.5e".to_string(), 4, 4, 5, 5));
}

#[test]
fn what_starts_no_literal() {
    for text in ["", "x", "h", "b", "hx", "+1", " 1", "é", "$a", "-5"] {
        let mut pos = start();
        let (outcome, consumed) = Lexer::parse_literal(text, &mut pos);
        assert!(matches!(outcome, Ok(None)), "{}", text);
        assert_eq!((consumed, pos.column_bytes, pos.column_graphemes), (0, 1, 1));
    }
}

#[test]
fn each_reader_leaves_the_others_literals_alone() {
    let mut pos = start();
    assert!(matches!(Lexer::parse_byte("b'x", &mut pos), (Ok(None), 0)));
    assert!(matches!(Lexer::parse_chars("h'ff", &mut pos), (Ok(None), 0)));
    assert!(matches!(Lexer::parse_string("'x", &mut pos), (Ok(None), 0)));
    assert!(matches!(Lexer::parse_number("\"1\"", &mut pos), (Ok(None), 0)));
    assert_eq!(pos.column_bytes, 1);
}

#[test]
fn digits_are_read_back() {
    for n in [0i64, 1, 10, 123456789, i64::MAX] {
        assert_eq!(read(&n.to_string()).0, LiteralKind::Int(n));
    }
}

#[test]
fn operator_and_delimiter_characters() {
    let all = "=-+*/%<>&|^,!~{}()[]:#";
    for b in 0..=255u8 {
        assert_eq!(Lexer::is_opdelim(b), b < 128 && all.contains(b as char), "{}", b);
    }
}

#[test]
fn the_bytes_to_consume_can_be_cut_off() {
    let ends = ["", "a", "ab", "é", "aé", "\u{1f600}", "\u{301}b", "\\\"", "\"", "1.5é+", "\r\n"];
    for mark in ["h'", "b'", "'", "\"", "1", "x"] {
        for end in ends {
            let text = format!("{}{}", mark, end);
            let (_, consumed) = Lexer::parse_literal(&text, &mut start());
            assert!(consumed <= text.len() && text.is_char_boundary(consumed), "{}", text);
        }
    }
}
