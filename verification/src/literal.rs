//! Literals: bytes, characters, strings and numbers.
use crate::graphemes::{count_graphemes, grapheme_at, grapheme_count, leading_graphemes};
use crate::lex_error::{BadLiteralError, SpannedView};
use crate::lexer::Lexer;
use crate::numbers::{float_literal, hex_pair, int_literal, is_float, parse_hex_pair, parse_int};
use crate::position::{Position, PositionView};
use crate::text::{
    ascii_code, ascii_white_space, byte_len, bytes_of_whole_characters, chars_of, contains_char,
    digit, drop_bytes, is_ascii_char, is_ascii_white_space, is_digit, lemma_byte_len_add,
    lemma_byte_len_bounds, lemma_byte_len_first, lemma_byte_len_split, lemma_drop_bytes_at,
    lemma_prefix_while_is, lemma_whole_characters, len_bytes, prefix_while, whole_characters,
};
use crate::tokens::{LiteralKind, LiteralKindView, Token, TokenKind, TokenKindView, TokenView};
use vstd::prelude::*;
use vstd::string::*;

verus! {

/// What became of the attempt to read a literal: the literal, or nothing where there is none, or
/// the text at fault; the number of bytes to consume; and the position behind them.
pub struct LiteralView {
    pub outcome: Result<Option<TokenView>, SpannedView>,
    pub consumed: int,
    pub pos: PositionView,
}

/// No literal starts here.
pub open spec fn no_literal(p: PositionView) -> LiteralView {
    LiteralView { outcome: Ok(None), consumed: 0, pos: p }
}

/// A literal of the given size, `bytes` and `graphemes` long.
pub open spec fn found(
    p: PositionView,
    kind: LiteralKindView,
    size: int,
    bytes: int,
    graphemes: int,
) -> LiteralView {
    LiteralView {
        outcome: Ok(
            Some(TokenView { kind: TokenKindView::Literal(kind), prov: p.provenance(size) }),
        ),
        consumed: bytes,
        pos: p.advanced(bytes, graphemes),
    }
}

/// A malformed literal of the given size, `bytes` and `graphemes` long.
pub open spec fn malformed(
    p: PositionView,
    bad: Seq<char>,
    size: int,
    bytes: int,
    graphemes: int,
) -> LiteralView {
    LiteralView {
        outcome: Err(SpannedView { bad, prov: p.provenance(size) }),
        consumed: bytes,
        pos: p.advanced(bytes, graphemes),
    }
}

/// `s` starts with `a` and then `b`.
pub open spec fn starts_with_two(s: Seq<char>, a: char, b: char) -> bool {
    s.len() >= 2 && s[0] == a && s[1] == b
}

/// What is reported of a byte literal whose digits are not ASCII: the prefix, and behind it the
/// first two grapheme clusters of the whole text, which start with the prefix again.
pub open spec fn byte_offense(s: Seq<char>) -> Seq<char> {
    s.take(2) + grapheme_at(s, 0) + grapheme_at(s, 1)
}

/// A byte as two hexadecimal digits: `h'` and the digits. Where the digits are not ASCII, as many
/// bytes are consumed as are reported, and the rest of a character that would be cut apart.
pub open spec fn byte_literal(s: Seq<char>, p: PositionView) -> LiteralView {
    let n = byte_len(s) as int;
    if !starts_with_two(s, 'h', '\'') {
        no_literal(p)
    } else if n < 4 {
        malformed(p, s, n, n, grapheme_count(s) as int)
    } else if !is_ascii_char(s[2]) || !is_ascii_char(s[3]) {
        let bad = byte_offense(s);
        let graphemes = grapheme_count(bad) as int;
        malformed(p, bad, graphemes, whole_characters(s, byte_len(bad) as int), graphemes)
    } else {
        match hex_pair(s[2], s[3]) {
            Some(value) => found(p, LiteralKindView::Byte(value), 4, 4, 4),
            None => malformed(p, s.take(4), 4, 4, 4),
        }
    }
}

/// A byte as an ASCII character, `b'` and the character, or a character, `'` and the character. A
/// character that is not ASCII is malformed, with the rest of its grapheme cluster.
pub open spec fn char_literal(s: Seq<char>, p: PositionView) -> LiteralView {
    let n = byte_len(s) as int;
    if starts_with_two(s, 'b', '\'') {
        if n < 3 {
            malformed(p, s, n, n, n)
        } else if is_ascii_char(s[2]) {
            found(p, LiteralKindView::Byte(s[2] as int), 3, 3, 3)
        } else {
            let ch = grapheme_at(s.skip(2), 0);
            malformed(p, s.take(2) + ch, 3, (2 + byte_len(ch)) as int, 3)
        }
    } else if s.len() > 0 && s[0] == '\'' {
        if n < 2 {
            malformed(p, s, n, n, n)
        } else if is_ascii_char(s[1]) {
            found(p, LiteralKindView::Char(s[1] as int), 2, 2, 2)
        } else {
            let ch = grapheme_at(s.skip(1), 0);
            malformed(p, s.take(1) + ch, 2, (1 + byte_len(ch)) as int, 2)
        }
    } else {
        no_literal(p)
    }
}

/// Where the first quotation mark at or behind `i` stands that no backslash escapes.
pub open spec fn closing_quote(s: Seq<char>, i: int, escaped: bool) -> Option<int>
    decreases s.len() - i,
{
    if i < 0 || i >= s.len() {
        None
    } else if s[i] == '\\' {
        closing_quote(s, i + 1, !escaped)
    } else if s[i] == '"' && !escaped {
        Some(i)
    } else {
        closing_quote(s, i + 1, false)
    }
}

/// A string between quotation marks. Its escapes are kept as they are.
pub open spec fn string_literal(s: Seq<char>, p: PositionView) -> LiteralView {
    let n = byte_len(s) as int;
    if s.len() == 0 || s[0] != '"' {
        no_literal(p)
    } else if n < 2 {
        malformed(p, s, n, n, n)
    } else {
        match closing_quote(s.skip(1), 0, false) {
            Some(end) => {
                let body = s.skip(1).take(end);
                let graphemes = (2 + grapheme_count(body)) as int;
                found(
                    p,
                    LiteralKindView::String(body),
                    graphemes,
                    (2 + byte_len(body)) as int,
                    graphemes,
                )
            },
            None => malformed(p, s, n, n, (1 + grapheme_count(s.skip(1))) as int),
        }
    }
}

/// A character that operators and delimiters are made of.
pub open spec fn is_opdelim(c: char) -> bool {
    ||| c == '='
    ||| c == '-'
    ||| c == '+'
    ||| c == '*'
    ||| c == '/'
    ||| c == '%'
    ||| c == '<'
    ||| c == '>'
    ||| c == '&'
    ||| c == '|'
    ||| c == '^'
    ||| c == ','
    ||| c == '!'
    ||| c == '~'
    ||| c == '{'
    ||| c == '}'
    ||| c == '('
    ||| c == ')'
    ||| c == '['
    ||| c == ']'
    ||| c == ':'
    ||| c == '#'
}

/// The characters that do not end a number.
pub open spec fn number_class() -> spec_fn(char) -> bool {
    |c: char| !is_ascii_white_space(c) && !is_opdelim(c)
}

/// An integer, or a floating-point number where there is a point in it. It starts with a digit
/// and reaches to the next white space, operator or delimiter. Its size is counted in bytes
/// there, and in grapheme clusters where it reaches to the end of the text.
pub open spec fn number_literal(s: Seq<char>, p: PositionView) -> LiteralView {
    if s.len() == 0 || !is_digit(s[0]) {
        no_literal(p)
    } else {
        let end = prefix_while(s, number_class()) as int;
        let number = s.take(end);
        let bytes = byte_len(number) as int;
        let graphemes = grapheme_count(number) as int;
        let size = if end < s.len() {
            bytes
        } else {
            graphemes
        };
        if number.contains('.') {
            if float_literal(number) {
                found(p, LiteralKindView::Float(number), size, bytes, graphemes)
            } else {
                malformed(p, number, size, bytes, graphemes)
            }
        } else {
            match int_literal(number) {
                Some(value) => found(p, LiteralKindView::Int(value), size, bytes, graphemes),
                None => malformed(p, number, size, bytes, graphemes),
            }
        }
    }
}

/// There is no literal.
pub open spec fn is_no_literal(view: LiteralView) -> bool {
    view.outcome matches Ok(None)
}

/// A literal of any kind.
pub open spec fn any_literal(s: Seq<char>, p: PositionView) -> LiteralView {
    if !is_no_literal(byte_literal(s, p)) {
        byte_literal(s, p)
    } else if !is_no_literal(char_literal(s, p)) {
        char_literal(s, p)
    } else if !is_no_literal(string_literal(s, p)) {
        string_literal(s, p)
    } else {
        number_literal(s, p)
    }
}

/// Neither column has moved further than `n` bytes were consumed of `s`. Where these are all of
/// it, they may have moved twice as far.
pub open spec fn consumes(s: Seq<char>, n: int, from: PositionView, to: PositionView) -> bool {
    if n < byte_len(s) {
        to.within(from, n)
    } else {
        to.within(from, 2 * byte_len(s) as int)
    }
}

/// The first `n` bytes of `s` can be cut off.
pub open spec fn cuts(s: Seq<char>, n: int) -> bool {
    n <= byte_len(s) && drop_bytes(s, n) is Some
}

proof fn lemma_cuts(s: Seq<char>, k: int)
    requires
        0 <= k <= s.len(),
    ensures
        cuts(s, byte_len(s.take(k)) as int),
{
    lemma_drop_bytes_at(s, k);
    lemma_byte_len_split(s, k);
}

/// All of a text can be cut off, and nothing of it.
proof fn lemma_cuts_ends(s: Seq<char>)
    ensures
        cuts(s, 0),
        cuts(s, byte_len(s) as int),
{
    lemma_cuts(s, s.len() as int);
    assert(s.take(s.len() as int) =~= s);
}

/// ASCII characters at the start of a text can be cut off.
proof fn lemma_cuts_ascii(s: Seq<char>, k: int)
    requires
        0 <= k <= s.len(),
        forall|i: int| 0 <= i < k ==> is_ascii_char(#[trigger] s[i]),
    ensures
        byte_len(s.take(k)) == k,
        cuts(s, k),
    decreases k,
{
    if k == 0 {
        assert(s.take(0) =~= Seq::empty());
    } else {
        lemma_cuts_ascii(s, k - 1);
        lemma_byte_len_add(s.take(k - 1), seq![s[k - 1]]);
        assert(s.take(k) =~= s.take(k - 1) + seq![s[k - 1]]);
        lemma_byte_len_first(seq![s[k - 1]]);
        assert(seq![s[k - 1]].skip(1) =~= Seq::<char>::empty());
        assert(is_ascii_char(s[k - 1]));
    }
    lemma_cuts(s, k);
}

/// What the result of an attempt to read a literal stands for.
pub open spec fn outcome_view(r: Result<Option<Token>, BadLiteralError>) -> Result<
    Option<TokenView>,
    SpannedView,
> {
    match r {
        Ok(Some(token)) => Ok(Some(token@)),
        Ok(None) => Ok(None),
        Err(err) => Err(err@),
    }
}

fn bad_literal(bad: &str, pos: &Position, size: usize) -> (r: Result<
    Option<Token>,
    BadLiteralError,
>)
    ensures
        outcome_view(r) == Err::<Option<TokenView>, SpannedView>(
            SpannedView { bad: bad@, prov: pos@.provenance(size as int) },
        ),
{
    Err(BadLiteralError { bad: bad.to_owned(), prov: pos.as_provenance(size) })
}

fn good_literal(kind: LiteralKind, pos: &Position, size: usize) -> (r: Result<
    Option<Token>,
    BadLiteralError,
>)
    ensures
        outcome_view(r) == Ok::<Option<TokenView>, SpannedView>(
            Some(
                TokenView {
                    kind: TokenKindView::Literal(kind@),
                    prov: pos@.provenance(size as int),
                },
            ),
        ),
{
    Ok(Some(Token::new(TokenKind::Literal(kind), pos.as_provenance(size))))
}

/// Tells whether operators and delimiters are made of `c`.
pub fn opdelim(c: char) -> (r: bool)
    ensures
        r == is_opdelim(c),
{
    (c as u32) < 0x80 && Lexer::is_opdelim(c as u8)
}

impl Lexer {
    /// Tells whether operators and delimiters are made of the ASCII character `char`.
    pub fn is_opdelim(char: u8) -> (r: bool)
        ensures
            r == is_opdelim(char as char),
    {
        let c = char as char;
        matches!(
            c,
            '=' | '-' | '+' | '*' | '/' | '%' | '<' | '>' | '&' | '|' | '^' | ',' | '!' | '~' | '{'
                | '}' | '(' | ')' | '[' | ']' | ':' | '#'
        )
    }

    /// Reads a byte literal, `h'` and two hexadecimal digits.
    pub fn parse_byte(string: &str, pos: &mut Position) -> (r: (
        Result<Option<Token>, BadLiteralError>,
        usize,
    ))
        requires
            old(pos)@.has_room(2 * byte_len(string@)),
        ensures
            outcome_view(r.0) == byte_literal(string@, old(pos)@).outcome,
            r.1 == byte_literal(string@, old(pos)@).consumed,
            final(pos)@ == byte_literal(string@, old(pos)@).pos,
            consumes(string@, r.1 as int, old(pos)@, final(pos)@),
            cuts(string@, r.1 as int),
    {
        let cs = chars_of(string);
        proof {
            lemma_cuts_ends(string@);
        }
        if cs.len() < 2 || cs[0] != 'h' || cs[1] != '\'' {
            return (Ok(None), 0);
        }
        let len = len_bytes(string);
        if len < 4 {
            let graphemes = count_graphemes(string);
            let err = bad_literal(string, pos, len);
            pos.advance(len, graphemes);
            return (err, len);
        }
        proof {
            lemma_byte_len_first(string@);
            lemma_byte_len_first(string@.skip(1));
            assert(string@.skip(1).skip(1) =~= string@.skip(2));
            if string@.len() > 2 {
                lemma_byte_len_first(string@.skip(2));
                assert(string@.skip(2).skip(1) =~= string@.skip(3));
                assert(string@.skip(2)[0] == string@[2]);
            }
        }
        if (cs[2] as u32) >= 0x80 || (cs[3] as u32) >= 0x80 {
            return Lexer::refuse_digits(string, pos);
        }
        proof {
            lemma_cuts_ascii(string@, 4);
        }
        let r = match parse_hex_pair(cs[2], cs[3]) {
            Some(value) => good_literal(LiteralKind::Byte(value), pos, 4),
            None => {
                assert(string@.subrange(0, 4) =~= string@.take(4));
                bad_literal(string.substring_char(0, 4), pos, 4)
            },
        };
        pos.advance(4, 4);
        (r, 4)
    }

    /// Refuses a byte literal whose digits are not ASCII.
    fn refuse_digits(string: &str, pos: &mut Position) -> (r: (
        Result<Option<Token>, BadLiteralError>,
        usize,
    ))
        requires
            string@.len() >= 2,
            byte_len(string@) >= 4,
            old(pos)@.has_room(2 * byte_len(string@)),
        ensures
            ({
                let bad = byte_offense(string@);
                let graphemes = grapheme_count(bad) as int;
                let view = malformed(
                    old(pos)@,
                    bad,
                    graphemes,
                    whole_characters(string@, byte_len(bad) as int),
                    graphemes,
                );
                &&& outcome_view(r.0) == view.outcome
                &&& r.1 == view.consumed
                &&& final(pos)@ == view.pos
            }),
            consumes(string@, r.1 as int, old(pos)@, final(pos)@),
            cuts(string@, r.1 as int),
    {
        let (first, second) = leading_graphemes(string);
        let offense = string.substring_char(0, 2).to_owned().concat(first).concat(second);
        let graphemes = count_graphemes(offense.as_str());
        let bytes = bytes_of_whole_characters(string, len_bytes(offense.as_str()));
        proof {
            let lead = first@ + second@;
            assert(string@.subrange(0, 2) =~= string@.take(2));
            assert(offense@ =~= byte_offense(string@));
            assert(offense@ =~= string@.take(2) + lead);
            lemma_byte_len_add(string@.take(2), lead);
            lemma_byte_len_split(string@, 2);
            lemma_byte_len_split(string@, lead.len() as int);
            assert(string@.take(lead.len() as int) =~= lead);
            let k = lemma_whole_characters(string@, byte_len(offense@) as int);
            lemma_cuts(string@, k);
        }
        let err = bad_literal(offense.as_str(), pos, graphemes);
        pos.advance(bytes, graphemes);
        (err, bytes)
    }

    /// Reads a byte literal, `b'` and an ASCII character, or a character literal, `'` and an ASCII
    /// character.
    pub fn parse_chars(string: &str, pos: &mut Position) -> (r: (
        Result<Option<Token>, BadLiteralError>,
        usize,
    ))
        requires
            old(pos)@.has_room(byte_len(string@)),
        ensures
            outcome_view(r.0) == char_literal(string@, old(pos)@).outcome,
            r.1 == char_literal(string@, old(pos)@).consumed,
            final(pos)@ == char_literal(string@, old(pos)@).pos,
            final(pos)@.within(old(pos)@, r.1 as int),
            cuts(string@, r.1 as int),
    {
        let cs = chars_of(string);
        let len = len_bytes(string);
        proof {
            lemma_cuts_ends(string@);
            lemma_byte_len_bounds(string@);
        }
        if cs.len() >= 2 && cs[0] == 'b' && cs[1] == '\'' {
            proof {
                lemma_cuts_ascii(string@, 2);
                lemma_byte_len_split(string@, 2);
            }
            if len < 3 {
                let err = bad_literal(string, pos, len);
                pos.advance(len, len);
                return (err, len);
            }
            if let Some(code) = ascii_code(cs[2]) {
                proof {
                    lemma_cuts_ascii(string@, 3);
                }
                let r = good_literal(LiteralKind::Byte(code), pos, 3);
                pos.advance(3, 3);
                return (r, 3);
            }
            return Lexer::refuse_char(string, 2, pos);
        }
        if cs.len() > 0 && cs[0] == '\'' {
            proof {
                lemma_cuts_ascii(string@, 1);
                lemma_byte_len_split(string@, 1);
            }
            if len < 2 {
                let err = bad_literal(string, pos, len);
                pos.advance(len, len);
                return (err, len);
            }
            if let Some(code) = ascii_code(cs[1]) {
                proof {
                    lemma_cuts_ascii(string@, 2);
                }
                let r = good_literal(LiteralKind::Char(code), pos, 2);
                pos.advance(2, 2);
                return (r, 2);
            }
            return Lexer::refuse_char(string, 1, pos);
        }
        (Ok(None), 0)
    }

    /// Refuses a character that is not ASCII behind the `prefix` characters of the mark before it.
    fn refuse_char(string: &str, prefix: usize, pos: &mut Position) -> (r: (
        Result<Option<Token>, BadLiteralError>,
        usize,
    ))
        requires
            0 < prefix < string@.len(),
            prefix < usize::MAX,
            forall|i: int| 0 <= i < prefix ==> is_ascii_char(#[trigger] string@[i]),
            !is_ascii_char(string@[prefix as int]),
            old(pos)@.has_room(byte_len(string@)),
        ensures
            ({
                let ch = grapheme_at(string@.skip(prefix as int), 0);
                let view = malformed(
                    old(pos)@,
                    string@.take(prefix as int) + ch,
                    prefix + 1,
                    prefix + byte_len(ch),
                    prefix + 1,
                );
                &&& outcome_view(r.0) == view.outcome
                &&& r.1 == view.consumed
                &&& final(pos)@ == view.pos
            }),
            final(pos)@.within(old(pos)@, r.1 as int),
            cuts(string@, r.1 as int),
    {
        let len: usize = string.unicode_len();
        let rest = string.substring_char(prefix, len);
        let (ch, next) = leading_graphemes(rest);
        let ch_len = len_bytes(ch);
        let bad = string.substring_char(0, prefix).to_owned().concat(ch);
        proof {
            let k = prefix as int;
            let n = ch@.len() as int;
            assert(rest@ =~= string@.skip(k));
            assert(string@.subrange(0, k) =~= string@.take(k));
            assert((ch@ + next@).take(n) =~= ch@);
            assert(rest@.take(n) =~= ch@) by {
                let two = ch@ + next@;
                assert(rest@.take(two.len() as int) =~= two);
                assert(rest@.take(n) =~= two.take(n));
            }
            assert(string@.take(k + n) =~= string@.take(k) + ch@);
            lemma_cuts_ascii(string@, k);
            lemma_byte_len_add(string@.take(k), ch@);
            lemma_cuts(string@, k + n);
            lemma_byte_len_bounds(ch@);
        }
        let err = bad_literal(bad.as_str(), pos, prefix + 1);
        pos.advance(prefix + ch_len, prefix + 1);
        (err, prefix + ch_len)
    }

    /// Reads a string literal.
    pub fn parse_string(string: &str, pos: &mut Position) -> (r: (
        Result<Option<Token>, BadLiteralError>,
        usize,
    ))
        requires
            old(pos)@.has_room(byte_len(string@)),
        ensures
            outcome_view(r.0) == string_literal(string@, old(pos)@).outcome,
            r.1 == string_literal(string@, old(pos)@).consumed,
            final(pos)@ == string_literal(string@, old(pos)@).pos,
            final(pos)@.within(old(pos)@, r.1 as int),
            cuts(string@, r.1 as int),
    {
        let cs = chars_of(string);
        proof {
            lemma_cuts_ends(string@);
        }
        if cs.len() == 0 || cs[0] != '"' {
            return (Ok(None), 0);
        }
        let len = len_bytes(string);
        if len < 2 {
            let err = bad_literal(string, pos, len);
            pos.advance(len, len);
            return (err, len);
        }
        let inner = string.substring_char(1, cs.len());
        let ghost q = string@.skip(1);
        assert(inner@ =~= q);
        proof {
            lemma_byte_len_first(string@);
        }
        let mut escaped = false;
        let mut i: usize = 1;
        while i < cs.len()
            invariant
                1 <= i <= cs.len(),
                cs@ == string@,
                q == string@.skip(1),
                inner@ == q,
                old(pos)@.has_room(byte_len(string@)),
                pos@ == old(pos)@,
                byte_len(string@) == 1 + byte_len(q),
                byte_len(string@) >= 2,
                string@[0] == '"',
                cuts(string@, byte_len(string@) as int),
                closing_quote(q, 0, false) == closing_quote(q, i - 1, escaped),
            decreases cs.len() - i,
        {
            assert(q[i - 1] == cs@[i as int]);
            if cs[i] == '\\' {
                escaped = !escaped;
            } else if cs[i] == '"' && !escaped {
                let body = string.substring_char(1, i);
                let graphemes = count_graphemes(body);
                let bytes = len_bytes(body);
                proof {
                    assert(body@ =~= q.take(i - 1));
                    lemma_byte_len_split(q, i - 1);
                    lemma_byte_len_bounds(q.skip(i - 1));
                    let quoted = string@.take(i + 1);
                    assert(quoted =~= seq!['"'] + body@ + seq!['"']);
                    lemma_byte_len_add(seq!['"'] + body@, seq!['"']);
                    lemma_byte_len_add(seq!['"'], body@);
                    lemma_cuts_ascii(seq!['"'], 1);
                    assert(seq!['"'].take(1) =~= seq!['"']);
                    lemma_cuts(string@, i + 1);
                }
                let r = good_literal(LiteralKind::String(body.to_owned()), pos, 2 + graphemes);
                pos.advance(2 + bytes, 2 + graphemes);
                return (r, 2 + bytes);
            } else {
                escaped = false;
            }
            i += 1;
        }
        let graphemes = count_graphemes(inner);
        let err = bad_literal(string, pos, len);
        pos.advance(len, 1 + graphemes);
        (err, len)
    }

    /// Reads an integer or a floating-point literal.
    pub fn parse_number(string: &str, pos: &mut Position) -> (r: (
        Result<Option<Token>, BadLiteralError>,
        usize,
    ))
        requires
            old(pos)@.has_room(byte_len(string@)),
        ensures
            outcome_view(r.0) == number_literal(string@, old(pos)@).outcome,
            r.1 == number_literal(string@, old(pos)@).consumed,
            final(pos)@ == number_literal(string@, old(pos)@).pos,
            final(pos)@.within(old(pos)@, r.1 as int),
            cuts(string@, r.1 as int),
    {
        let cs = chars_of(string);
        proof {
            lemma_cuts_ends(string@);
        }
        if cs.len() == 0 || !digit(cs[0]) {
            return (Ok(None), 0);
        }
        let mut end: usize = 0;
        while end < cs.len() && !ascii_white_space(cs[end]) && !opdelim(cs[end])
            invariant
                end <= cs.len(),
                forall|j: int| 0 <= j < end ==> number_class()(#[trigger] cs@[j]),
            decreases cs.len() - end,
        {
            end += 1;
        }
        let number = string.substring_char(0, end);
        let bytes = len_bytes(number);
        let graphemes = count_graphemes(number);
        proof {
            lemma_prefix_while_is(string@, number_class(), end as int);
            assert(number@ =~= string@.take(end as int));
            lemma_byte_len_split(string@, end as int);
            lemma_cuts(string@, end as int);
        }
        let size = if end < cs.len() {
            bytes
        } else {
            graphemes
        };
        let r = if contains_char(number, '.') {
            if is_float(number) {
                good_literal(LiteralKind::Float(number.to_owned()), pos, size)
            } else {
                bad_literal(number, pos, size)
            }
        } else {
            match parse_int(number) {
                Some(value) => good_literal(LiteralKind::Int(value), pos, size),
                None => bad_literal(number, pos, size),
            }
        };
        pos.advance(bytes, graphemes);
        (r, bytes)
    }

    /// Reads a literal of any kind: the literal, or `Ok(None)` where there is none, and the number
    /// of bytes to consume.
    pub fn parse_literal(string: &str, pos: &mut Position) -> (r: (
        Result<Option<Token>, BadLiteralError>,
        usize,
    ))
        requires
            old(pos)@.has_room(2 * byte_len(string@)),
        ensures
            outcome_view(r.0) == any_literal(string@, old(pos)@).outcome,
            r.1 == any_literal(string@, old(pos)@).consumed,
            final(pos)@ == any_literal(string@, old(pos)@).pos,
            consumes(string@, r.1 as int, old(pos)@, final(pos)@),
            r.1 <= byte_len(string@),
            drop_bytes(string@, r.1 as int) is Some,
    {
        let (res, num) = Lexer::parse_byte(string, pos);
        match res {
            Ok(None) => (),
            value => return (value, num),
        }
        let (res, num) = Lexer::parse_chars(string, pos);
        match res {
            Ok(None) => (),
            value => return (value, num),
        }
        let (res, num) = Lexer::parse_string(string, pos);
        match res {
            Ok(None) => (),
            value => return (value, num),
        }
        Lexer::parse_number(string, pos)
    }
}

} // verus!
