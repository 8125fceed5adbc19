use cfuq::common::{ConstMacro, ModuleScopedId};
use cfuq::lex_error::LexError;
use cfuq::lexer::{FileLex, LexResult, Lexer};
use cfuq::macros::BodyEnd;
use cfuq::position::Position;
use cfuq::reader::LineReader;
use cfuq::tokens::{
    DelimKind, DirectiveKind, KeywordKind, LiteralKind, OperatorKind, Token, TokenKind,
};
use std::io;

fn reader(text: &str, failure: Option<io::Error>) -> LineReader {
    LineReader::new(text.split_inclusive('\n').map(str::to_string).collect(), failure)
}

fn lex(text: &str) -> FileLex {
    Lexer::lex_file(7, reader(text, None))
}

fn result(text: &str) -> LexResult {
    lex(text).result.unwrap().unwrap()
}

fn name(s: &str) -> TokenKind {
    TokenKind::Identifier(ModuleScopedId::Unresolved(s.to_string()))
}

fn number(n: i64) -> TokenKind {
    TokenKind::Literal(LiteralKind::Int(n))
}

fn end() -> TokenKind {
    TokenKind::Delim(DelimKind::EndL)
}

fn kinds(tokens: Vec<Token>) -> Vec<TokenKind> {
    tokens.into_iter().map(|t| t.kind).collect()
}

/// Line, column and size of each token.
fn places(tokens: &[Token]) -> Vec<(usize, usize, usize)> {
    tokens.iter().map(|t| (t.prov.line(), t.prov.column(), t.prov.size())).collect()
}

#[test]
fn an_empty_file_has_no_tokens() {
    let r = result("");
    assert_eq!(r.file_id, 7);
    assert!(r.tokens.is_empty() && r.errors.is_empty() && r.const_macros.is_empty());
    assert!(r.macro_funcs.is_empty() && r.modules.is_empty());
}

#[test]
fn code_is_lexed_line_by_line() {
    let r = result("fu f(x) =>\n  x + 1\n");
    assert!(r.errors.is_empty());
    assert!(r.tokens.iter().all(|t| t.prov.file_id() == 7));
    assert_eq!(
        places(&r.tokens),
        [
            (1, 1, 2), (1, 4, 1), (1, 5, 1), (1, 6, 1), (1, 7, 1), (1, 9, 2), (1, 11, 1),
            (2, 3, 1), (2, 5, 1), (2, 7, 1), (2, 8, 1)
        ]
    );
    assert_eq!(
        kinds(r.tokens),
        [
            TokenKind::Keyword(KeywordKind::Function),
            name("f"),
            TokenKind::Delim(DelimKind::InvokeO),
            name("x"),
            TokenKind::Delim(DelimKind::InvokeC),
            TokenKind::Operator(OperatorKind::Return),
            end(),
            name("x"),
            TokenKind::Operator(OperatorKind::Add),
            number(1),
            end(),
        ]
    );
}

#[test]
fn the_end_of_a_line_stands_behind_a_last_word_twice_as_far() {
    let r = result("x = ab\n");
    assert_eq!(places(&r.tokens), [(1, 1, 1), (1, 3, 1), (1, 5, 2), (1, 9, 1)]);
}

#[test]
fn comments_and_blank_lines_are_left_out() {
    let r = result("\n   \t\n# a comment (\n  #indented\n#\n5\n");
    assert!(r.errors.is_empty());
    assert_eq!(places(&r.tokens), [(6, 1, 1), (6, 2, 1)]);
    assert_eq!(kinds(r.tokens), [number(5), end()]);
}

#[test]
fn errors_do_not_end_a_line() {
    let r = result("a.b 5\n'\n");
    assert_eq!(kinds(r.tokens), [number(5), end(), end()]);
    assert_eq!(r.errors.len(), 2);
    assert!(matches!(&r.errors[0], LexError::BadIdentifier(e) if e.bad == "a.b"));
    assert_eq!(r.errors[0].provenance().unwrap().line(), 1);
    assert!(matches!(&r.errors[1], LexError::BadLiteral(e) if e.bad == "'"));
    assert_eq!(r.errors[1].provenance().unwrap().line(), 2);
}

#[test]
fn directives_are_tokens_of_their_own() {
    let r = result("#!if x\n #!nope\n");
    assert_eq!(places(&r.tokens), [(1, 1, 4)]);
    assert_eq!(kinds(r.tokens), [TokenKind::Directive(DirectiveKind::If)]);
    assert!(matches!(&r.errors[0], LexError::BadDirective(e)
        if e.bad == "nope" && e.prov.line() == 2 && e.prov.column() == 2 && e.prov.size() == 4));
}

#[test]
fn modules_are_asked_for() {
    let f = lex("#!also  base::io \n  #!also net\n#!also\n");
    let asked: Vec<(usize, &str, usize, usize)> = f
        .requests
        .iter()
        .map(|r| (r.parent_id, r.name.as_str(), r.pos.line, r.pos.column_graphemes))
        .collect();
    assert_eq!(asked, [(7, "base::io", 1, 1), (7, "net", 2, 3)]);
    let r = f.result.unwrap().unwrap();
    // Without a name it is no more than an unknown directive.
    assert!(matches!(&r.errors[0], LexError::BadDirective(e) if e.bad == "also"));
}

#[test]
fn macros_without_parameters() {
    let mut r = result("#!def TWO 1 + 1\n");
    assert!(r.tokens.is_empty() && r.errors.is_empty());
    assert_eq!(r.const_macros.len(), 1);
    let ConstMacro::Tokens(macro_name, tokens) = r.const_macros.remove(0);
    assert_eq!(macro_name, "TWO");
    // The line break is left over as an empty name.
    assert_eq!(
        kinds(tokens),
        [number(1), TokenKind::Operator(OperatorKind::Add), number(1), name("")]
    );
}

#[test]
fn a_macro_may_stand_for_nothing() {
    let mut r = result("#!def EMPTY \n");
    let ConstMacro::Tokens(macro_name, tokens) = r.const_macros.remove(0);
    assert_eq!((macro_name.as_str(), kinds(tokens)), ("EMPTY", vec![name("")]));
}

#[test]
fn a_macro_needs_a_definition() {
    let r = result("#!def ALONE");
    assert!(r.const_macros.is_empty());
    assert!(matches!(&r.errors[0], LexError::NoMacroDef(e)
        if e.bad == "ALONE" && e.prov.size() == 5 && e.prov.line() == 1));
}

#[test]
fn the_name_of_an_indented_macro_is_cut_from_the_raw_line() {
    let mut r = result("  #!def A 1\n");
    let ConstMacro::Tokens(macro_name, tokens) = r.const_macros.remove(0);
    assert_eq!((macro_name.as_str(), kinds(tokens)), ("f", vec![name("A"), number(1), name("")]));
}

#[test]
fn macros_with_parameters_lack_a_definition() {
    for text in ["#!def aaaaaa f(x) = { x }\n", "#!def aaaaaa f(x)\n", "#!def aaaaaa f(x) = x\n"] {
        let r = result(text);
        assert!(r.macro_funcs.is_empty(), "{}", text);
        assert!(matches!(r.errors.last(), Some(LexError::NoMacroDef(_))), "{}", text);
    }
    let r = result("#!def aaaaaa f(x) = { x }\n");
    assert!(matches!(&r.errors[0], LexError::NoMacroDef(e) if e.bad == " = { x }"));
    let r = result("#!def aaaaaa f(x) \n5\n");
    assert!(matches!(&r.errors[0], LexError::NoMacroDef(e) if e.bad == ")"));
    assert_eq!(kinds(r.tokens), [number(5), end()]);
}

#[test]
fn a_line_that_cannot_be_lexed_ends_the_file() {
    for text in ["$+\n", "$é+\n", "#!def f(x)\n"] {
        let f = lex(&format!("#!also m\n{}5\n", text));
        assert!(f.result.is_none(), "{}", text);
        assert_eq!(f.requests.len(), 1);
    }
}

#[test]
fn an_error_of_the_reader_is_the_result() {
    let failure = io::Error::new(io::ErrorKind::InvalidData, "no text");
    let f = Lexer::lex_file(7, reader("#!also m\n5\n", Some(failure)));
    assert_eq!(f.requests.len(), 1);
    match f.result {
        Some(Err(LexError::Io(err))) => assert_eq!(err.to_string(), "no text"),
        other => panic!("{:?}", other),
    }
}

#[test]
fn requests_that_cannot_be_sent_fail_the_file() {
    let text = "#!also a\n#!also b\n";
    let (n, r) = lex(text).sent(3, 2).unwrap();
    assert_eq!(n, 2);
    assert_eq!(r.unwrap().file_id, 7);
    let (n, r) = lex(text).sent(3, 1).unwrap();
    assert_eq!(n, 1);
    match r {
        Err(LexError::FailedRequest(err)) => {
            assert_eq!((err.worker_id, err.msg_type), (3, "ModID Request"));
        }
        other => panic!("{:?}", other),
    }
    assert!(lex("$+").sent(3, 0).is_none());
}

#[test]
fn lines_are_read_in_turn() {
    let failure = io::Error::new(io::ErrorKind::Other, "lost");
    let mut rd = reader("a\nb", Some(failure));
    assert_eq!(rd.read_line().unwrap().unwrap(), "a\n");
    assert_eq!(rd.read_line().unwrap().unwrap(), "b");
    assert_eq!(rd.read_line().unwrap_err().to_string(), "lost");
    assert!(rd.read_line().unwrap().is_none());
}

#[test]
fn the_body_of_a_macro_reaches_to_its_brace() {
    let mut rd = reader("x { y \n} }\nrest\n", None);
    let mut tokens = Vec::new();
    let mut errors = Vec::new();
    let mut pos = Position::new(0);
    let done = Lexer::read_macro_body("1 ", &mut rd, &mut tokens, &mut errors, &mut pos);
    assert!(matches!(done, Some(BodyEnd::Closed)));
    assert!(errors.is_empty());
    // The first brace that closes the body ends it; the line is not read further.
    assert_eq!(rd.next, 2);
    assert_eq!(tokens.last().unwrap().kind, TokenKind::Delim(DelimKind::BlockC));
    assert_eq!(tokens[0].kind, number(1));
    assert_eq!(pos.line, 3);
}

#[test]
fn a_line_break_does_not_end_a_word_of_a_body() {
    let mut rd = reader("}", None);
    let (mut tokens, mut errors, mut pos) = (Vec::new(), Vec::new(), Position::new(0));
    let done = Lexer::read_macro_body("y\n", &mut rd, &mut tokens, &mut errors, &mut pos);
    assert!(matches!(done, Some(BodyEnd::Closed)));
    assert!(matches!(&errors[0], LexError::BadIdentifier(e) if e.bad == "y\n"));
}

#[test]
fn the_body_of_a_macro_may_be_unclosed() {
    let mut rd = reader("x\n", None);
    let (mut tokens, mut errors, mut pos) = (Vec::new(), Vec::new(), Position::new(0));
    let done = Lexer::read_macro_body("", &mut rd, &mut tokens, &mut errors, &mut pos);
    assert!(matches!(done, Some(BodyEnd::Unclosed)));
    let failure = io::Error::new(io::ErrorKind::Other, "lost");
    let mut rd = reader("", Some(failure));
    let done = Lexer::read_macro_body("", &mut rd, &mut tokens, &mut errors, &mut pos);
    assert!(matches!(done, Some(BodyEnd::Failed(err)) if err.to_string() == "lost"));
}

#[test]
fn tokens_come_in_the_order_of_their_lines() {
    let r = result("a = 1\n# c\nb.c d\n#!if x\n\n(x)\n");
    let lines: Vec<usize> = r.tokens.iter().map(|t| t.prov.line()).collect();
    assert_eq!(lines, [1, 1, 1, 1, 3, 3, 4, 6, 6, 6, 6]);
    assert_eq!(r.errors[0].provenance().unwrap().line(), 3);
}

#[test]
fn characters_that_are_not_ascii_are_malformed() {
    let r = result("'é' + h'\u{1f600}\n5\n");
    let bad: Vec<String> = r
        .errors
        .iter()
        .map(|e| match e {
            LexError::BadLiteral(e) => e.bad.clone(),
            other => panic!("{:?}", other),
        })
        .collect();
    // The mark behind the character starts a literal of its own, the blank behind it.
    assert_eq!(bad, ["'é", "h'h'"]);
    assert_eq!(
        kinds(r.tokens),
        [
            TokenKind::Literal(LiteralKind::Char(b' ')),
            TokenKind::Operator(OperatorKind::Add),
            end(),
            number(5),
            end(),
        ]
    );
}
