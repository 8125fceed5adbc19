use cfuq::common::ModuleScopedId;
use cfuq::lex_error::LexError;
use cfuq::lexer::Lexer;
use cfuq::position::Position;
use cfuq::tokens::{
    DelimKind, DirectiveKind, KeywordKind, LiteralKind, OperatorKind, Token, TokenKind, delim_table,
    directive_table, keyword_table, op_table,
};

fn name(s: &str) -> ModuleScopedId {
    ModuleScopedId::Unresolved(s.to_string())
}

/// The kind and size of the first token, what is left, and the columns reached.
fn peel(text: &str) -> (TokenKind, usize, Option<&str>, usize, usize) {
    let mut pos = Position::new(0);
    let (outcome, tail) = Lexer::peel_token(text, &mut pos).unwrap();
    let Token { kind, prov } = outcome.unwrap();
    (kind, prov.size(), tail, pos.column_bytes, pos.column_graphemes)
}

fn peel_error(text: &str) -> (LexError, Option<&str>, usize, usize) {
    let mut pos = Position::new(0);
    let (outcome, tail) = Lexer::peel_token(text, &mut pos).unwrap();
    (outcome.unwrap_err(), tail, pos.column_bytes, pos.column_graphemes)
}

#[test]
fn every_operator_is_read() {
    for (spelling, kind) in op_table() {
        let n = spelling.len();
        assert_eq!(peel(spelling), (TokenKind::Operator(kind), n, None, n + 1, n + 1));
        let text = format!("{} x", spelling);
        assert_eq!(peel(&text), (TokenKind::Operator(kind), n, Some(" x"), n + 1, n + 1));
    }
}

#[test]
fn longer_operators_come_first() {
    assert_eq!(peel("==="), (TokenKind::Operator(OperatorKind::Equal), 2, Some("="), 3, 3));
    assert_eq!(peel("=>x"), (TokenKind::Operator(OperatorKind::Return), 2, Some("x"), 3, 3));
    assert_eq!(peel("-x"), (TokenKind::Operator(OperatorKind::Negate), 1, Some("x"), 2, 2));
    assert_eq!(peel("<="), (TokenKind::Operator(OperatorKind::LessEqual), 2, None, 3, 3));
}

#[test]
fn every_delimiter_is_read() {
    for (spelling, kind) in delim_table() {
        let n = spelling.len();
        assert_eq!(peel(spelling), (TokenKind::Delim(kind), n, None, n + 1, n + 1));
        let text = format!("{}x", spelling);
        assert_eq!(peel(&text), (TokenKind::Delim(kind), n, Some("x"), n + 1, n + 1));
    }
}

#[test]
fn two_colons_are_one_delimiter() {
    assert_eq!(peel("::a"), (TokenKind::Delim(DelimKind::SubPart), 2, Some("a"), 3, 3));
    assert_eq!(peel(":a"), (TokenKind::Delim(DelimKind::TypeMarker), 1, Some("a"), 2, 2));
    assert_eq!(peel(":::"), (TokenKind::Delim(DelimKind::SubPart), 2, Some(":"), 3, 3));
    assert_eq!(peel("((").2, Some("("));
}

#[test]
fn unknown_operators_are_refused() {
    let (err, tail, bytes, graphemes) = peel_error("#x");
    match err {
        LexError::BadOperator(err) => {
            assert_eq!((err.bad.as_str(), err.prov.size()), ("#", 1));
        }
        other => panic!("{:?}", other),
    }
    assert_eq!((tail, bytes, graphemes), (Some("x"), 2, 2));
}

#[test]
fn every_keyword_is_read() {
    for (spelling, kind) in keyword_table() {
        let n = spelling.len();
        let text = format!("{} x", spelling);
        assert_eq!(peel(&text), (TokenKind::Keyword(kind), n, Some(" x"), n + 1, n + 1));
        let alone = peel(spelling);
        assert_eq!((alone.0, alone.1, alone.2), (TokenKind::Keyword(kind), n, None));
    }
    assert_eq!(peel("isx ").0, TokenKind::Identifier(name("isx")));
}

#[test]
fn a_word_at_the_end_moves_the_position_twice() {
    assert_eq!(peel("ab"), (TokenKind::Identifier(name("ab")), 2, None, 5, 5));
    assert_eq!(peel("é"), (TokenKind::Identifier(name("é")), 1, None, 5, 3));
}

#[test]
fn words_end_at_blanks_and_symbols() {
    assert_eq!(peel("ab+c"), (TokenKind::Identifier(name("ab")), 2, Some("+c"), 3, 3));
    assert_eq!(peel("ab\tc"), (TokenKind::Identifier(name("ab")), 2, Some("\tc"), 3, 3));
    assert_eq!(peel("  a_1 c"), (TokenKind::Identifier(name("a_1")), 3, Some(" c"), 6, 6));
    assert_eq!(peel("漢字,"), (TokenKind::Identifier(name("漢字")), 2, Some(","), 7, 3));
}

#[test]
fn an_empty_text_is_an_empty_name() {
    assert_eq!(peel(""), (TokenKind::Identifier(name("")), 0, None, 1, 1));
    assert_eq!(peel("\n"), (TokenKind::Identifier(name("")), 0, None, 2, 2));
}

#[test]
fn bad_names_are_refused() {
    let (err, tail, bytes, graphemes) = peel_error("a.b c");
    match err {
        LexError::BadIdentifier(err) => {
            assert_eq!((err.bad.as_str(), err.prov.size()), ("a.b", 3));
        }
        other => panic!("{:?}", other),
    }
    assert_eq!((tail, bytes, graphemes), (Some(" c"), 4, 4));
}

#[test]
fn letters_are_those_of_any_script() {
    for c in ('\0'..=char::MAX).step_by(7) {
        let text = c.to_string();
        let mut pos = Position::new(0);
        let expected = c.is_alphanumeric() || c == '_';
        if c == '$' {
            continue;
        }
        let (outcome, _) = Lexer::tokenize(&text, &mut pos);
        assert_eq!(outcome.is_ok(), expected, "{:?}", c);
    }
}

#[test]
fn uses_of_macros() {
    let read = peel("$ab c");
    assert_eq!(read, (TokenKind::MacroInv(name("ab")), 2, Some(" c"), 3, 3));
    // The text goes on after as many bytes as the name is long.
    assert_eq!(peel("$ab+c"), (TokenKind::MacroInv(name("ab")), 2, Some("b+c"), 3, 3));
    assert_eq!(peel("$+"), (TokenKind::MacroInv(name("")), 0, Some("$+"), 1, 1));
    assert!(Lexer::peel_token("$é+", &mut Position::new(0)).is_none());
}

#[test]
fn literals_come_before_words() {
    assert_eq!(
        peel("12,x"),
        (TokenKind::Literal(LiteralKind::Int(12)), 2, Some(",x"), 3, 3)
    );
    assert!(matches!(peel_error("bc'").0, LexError::BadIdentifier(_)));
    let (err, tail, bytes, _) = peel_error("b'é!");
    assert!(matches!(err, LexError::BadLiteral(_)));
    assert_eq!((tail, bytes), (Some("!"), 5));
}

#[test]
fn directives() {
    for (spelling, kind) in directive_table() {
        let text = format!("#!{}x", spelling);
        let mut pos = Position::new(0);
        let (outcome, size) = Lexer::tokenize(&text, &mut pos);
        let token = outcome.unwrap();
        assert_eq!(token.kind, TokenKind::Directive(kind));
        assert_eq!((size, token.prov.size()), (text.len() - 2, text.len() - 2));
        assert_eq!((pos.column_bytes, pos.column_graphemes), (text.len() - 1, text.len() - 1));
    }
    assert_eq!(directive_table()[0].1, DirectiveKind::If);
    assert_eq!(keyword_table()[0].1, KeywordKind::TypeCheck);
}

#[test]
fn unknown_directives_are_refused() {
    let mut pos = Position::new(0);
    let (outcome, size) = Lexer::tokenize("#!  nope x", &mut pos);
    match outcome {
        Err(LexError::BadDirective(err)) => {
            assert_eq!((err.bad.as_str(), err.prov.size()), ("  nope x", 4));
        }
        other => panic!("{:?}", other),
    }
    assert_eq!((size, pos.column_bytes, pos.column_graphemes), (8, 9, 5));
}

#[test]
fn stripped_white_space_is_measured() {
    let mut text = "\u{3000} \tab";
    assert_eq!(Lexer::strip_start(&mut text), (5, 3));
    assert_eq!(text, "ab");
    let mut text = "\r\nx";
    assert_eq!(Lexer::strip_start(&mut text), (2, 1));
    let mut text = "x ";
    assert_eq!(Lexer::strip_start(&mut text), (0, 0));
}

#[test]
fn a_position_starts_at_the_first_column() {
    let p = Position::new(3);
    let prov = p.as_provenance(4);
    assert_eq!((prov.file_id(), prov.line(), prov.column(), prov.size()), (3, 1, 1, 4));
}

#[test]
fn a_position_moves() {
    let mut p = Position::new(3);
    p.advance(5, 2);
    assert_eq!((p.line, p.column_bytes, p.column_graphemes), (1, 6, 3));
    p.advance_line();
    assert_eq!((p.file_id, p.line, p.column_bytes, p.column_graphemes), (3, 2, 1, 1));
}

#[test]
fn what_is_left_is_the_end_of_the_text() {
    for text in ["a b", " 12+x", "\"s\"t", "h'zz9", "é é", "$a b", "b'é!", "==>", "( x"] {
        let mut pos = Position::new(0);
        let (_, tail) = Lexer::peel_token(text, &mut pos).unwrap();
        let tail = tail.unwrap();
        assert!(text.ends_with(tail) && tail.len() < text.len(), "{}", text);
    }
}

#[test]
fn ascii_tokens_lie_side_by_side() {
    let texts = [
        "a b", "  12+x", "\"s\\\"\"t", "h'zz9", " h'0", "a.b c", "==>", "( x", "::a", "\tb'x,", "1x ",
        "'", "9",
    ];
    for text in texts {
        let mut pos = Position::new(0);
        let (outcome, tail) = Lexer::peel_token(text, &mut pos).unwrap();
        let prov = match &outcome {
            Ok(token) => token.prov,
            Err(error) => *error.provenance().unwrap(),
        };
        let blank = text.len() - text.trim_start().len();
        assert_eq!(prov.column(), 1 + blank, "{}", text);
        let end = blank + prov.size();
        assert_eq!(&text[end..], tail.unwrap_or(""), "{}", text);
        assert_eq!((pos.column_bytes, pos.column_graphemes), (1 + end, 1 + end), "{}", text);
    }
}
