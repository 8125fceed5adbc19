//! Words, operators and delimiters, and the tokens of a line one after the other.
use crate::common::{ModuleScopedId, ModuleScopedIdView};
use crate::graphemes::{count_graphemes, grapheme_count, white_space_before};
use crate::lex_error::{
    BadDirectiveError, BadIdentifierError, BadOperatorError, LexError, LexErrorView, SpannedView,
};
use crate::lexer::Lexer;
use crate::literal::{LiteralView, any_literal, is_no_literal, is_opdelim, opdelim};
use crate::position::{Position, PositionView};
use crate::text::{
    ascii_white_space, byte_len, chars_of, drop_bytes, dropped_bytes,
    is_ascii_white_space, is_letter_or_digit, is_white_space, leading_white_space,
    lemma_byte_len_bounds,
    lemma_byte_len_first, lemma_byte_len_split, lemma_drop_bytes_at, lemma_drop_bytes_suffix,
    lemma_prefix_while,
    lemma_prefix_while_is, len_bytes, prefix_while, same_text, starts_with, trim_start,
    trimmed_start, white_space_class,
};
use crate::tokens::{
    Token, TokenKind, TokenKindView, TokenView, delim_table, delims, directive_table, directives,
    keyword_table, keywords, lists, op_table, ops,
};
use vstd::prelude::*;
use vstd::string::*;

verus! {

/// The first row at or behind `i` whose spelling `s` starts with.
pub open spec fn row_prefixing<K>(rows: Seq<(Seq<char>, K)>, s: Seq<char>, i: int) -> Option<
    (Seq<char>, K),
>
    decreases rows.len() - i,
{
    if i < 0 || i >= rows.len() {
        None
    } else if rows[i].0.is_prefix_of(s) {
        Some(rows[i])
    } else {
        row_prefixing(rows, s, i + 1)
    }
}

/// The first row at or behind `i` whose spelling is `s`.
pub open spec fn row_spelled<K>(rows: Seq<(Seq<char>, K)>, s: Seq<char>, i: int) -> Option<K>
    decreases rows.len() - i,
{
    if i < 0 || i >= rows.len() {
        None
    } else if rows[i].0 == s {
        Some(rows[i].1)
    } else {
        row_spelled(rows, s, i + 1)
    }
}

pub open spec fn ascii_white_space_class() -> spec_fn(char) -> bool {
    |c: char| is_ascii_white_space(c)
}

pub open spec fn ascii_word_class() -> spec_fn(char) -> bool {
    |c: char| !is_ascii_white_space(c)
}

/// The first word of `s`, where ASCII white space separates words.
pub open spec fn first_word(s: Seq<char>) -> Seq<char> {
    let t = s.skip(prefix_while(s, ascii_white_space_class()) as int);
    t.take(prefix_while(t, ascii_word_class()) as int)
}

/// `s` holds letters, digits and underscores only.
pub open spec fn is_name(s: Seq<char>) -> bool {
    forall|i: int| 0 <= i < s.len() ==> is_letter_or_digit(#[trigger] s[i]) || s[i] == '_'
}

/// What a word stands for: a token or an error, a size in bytes, and the position behind it.
pub struct TokenizedView {
    pub outcome: Result<TokenView, LexErrorView>,
    pub size: int,
    pub pos: PositionView,
}

/// A token of the given kind and size, `bytes` long.
pub open spec fn token_of(
    p: PositionView,
    kind: TokenKindView,
    graphemes: int,
    bytes: int,
) -> TokenizedView {
    TokenizedView {
        outcome: Ok(TokenView { kind, prov: p.provenance(graphemes) }),
        size: bytes,
        pos: p.advanced(bytes, graphemes),
    }
}

/// An error over the given size, `bytes` long.
pub open spec fn error_of(
    p: PositionView,
    error: LexErrorView,
    graphemes: int,
    bytes: int,
) -> TokenizedView {
    TokenizedView { outcome: Err(error), size: bytes, pos: p.advanced(bytes, graphemes) }
}

/// The token that a word stands for. `$` before a name makes it the use of a macro; neither it
/// nor the `#!` of a directive counts to the size.
pub open spec fn tokenized(s: Seq<char>, p: PositionView) -> TokenizedView {
    let graphemes = grapheme_count(s) as int;
    let bytes = byte_len(s) as int;
    if s.len() > 0 && s[0] == '$' {
        let name = s.skip(1);
        token_of(
            p,
            TokenKindView::MacroInv(ModuleScopedIdView::Unresolved(name)),
            grapheme_count(name) as int,
            byte_len(name) as int,
        )
    } else if s.len() >= 2 && s[0] == '#' && s[1] == '!' {
        let directive = s.skip(2);
        match row_prefixing(directives(), directive, 0) {
            Some(row) => token_of(
                p,
                TokenKindView::Directive(row.1),
                grapheme_count(directive) as int,
                byte_len(directive) as int,
            ),
            None => {
                let size = grapheme_count(first_word(directive)) as int;
                error_of(
                    p,
                    LexErrorView::BadDirective(
                        SpannedView { bad: directive, prov: p.provenance(size) },
                    ),
                    size,
                    byte_len(directive) as int,
                )
            },
        }
    } else if row_spelled(keywords(), s, 0) is Some {
        token_of(p, TokenKindView::Keyword(row_spelled(keywords(), s, 0)->0), bytes, bytes)
    } else if is_name(s) {
        token_of(
            p,
            TokenKindView::Identifier(ModuleScopedIdView::Unresolved(s)),
            graphemes,
            bytes,
        )
    } else {
        error_of(
            p,
            LexErrorView::BadIdentifier(SpannedView { bad: s, prov: p.provenance(graphemes) }),
            graphemes,
            bytes,
        )
    }
}

/// What a token or an error stands for.
pub open spec fn token_view(r: Result<Token, LexError>) -> Result<TokenView, LexErrorView> {
    match r {
        Ok(token) => Ok(token@),
        Err(err) => Err(err@),
    }
}

/// A token or an error at the start of a text, what is left of the text, and the position there.
pub struct PeeledView {
    pub outcome: Result<TokenView, LexErrorView>,
    pub tail: Option<Seq<char>>,
    pub pos: PositionView,
}

/// `s`, or nothing where it is empty.
pub open spec fn non_empty(s: Seq<char>) -> Option<Seq<char>> {
    if s.len() == 0 {
        None
    } else {
        Some(s)
    }
}

/// A delimiter or an operator of `size` characters.
pub open spec fn symbol_of(
    s: Seq<char>,
    p: PositionView,
    outcome: Result<TokenView, LexErrorView>,
    size: int,
) -> PeeledView {
    PeeledView { outcome, tail: non_empty(s.skip(size)), pos: p.advanced(size, size) }
}

/// The delimiter or operator that `s` starts with: the first one in its table whose spelling fits.
pub open spec fn symbol(s: Seq<char>, p: PositionView) -> PeeledView {
    match row_prefixing(delims(), s, 0) {
        Some((spelling, kind)) => {
            let size = spelling.len() as int;
            symbol_of(
                s,
                p,
                Ok(TokenView { kind: TokenKindView::Delim(kind), prov: p.provenance(size) }),
                size,
            )
        },
        None => match row_prefixing(ops(), s, 0) {
            Some((spelling, kind)) => {
                let size = spelling.len() as int;
                symbol_of(
                    s,
                    p,
                    Ok(TokenView { kind: TokenKindView::Operator(kind), prov: p.provenance(size) }),
                    size,
                )
            },
            None => symbol_of(
                s,
                p,
                Err(
                    LexErrorView::BadOperator(
                        SpannedView { bad: s.take(1), prov: p.provenance(1) },
                    ),
                ),
                1,
            ),
        },
    }
}

/// The characters that do not end a word.
pub open spec fn word_class() -> spec_fn(char) -> bool {
    |c: char| c != ' ' && c != '\t' && !is_opdelim(c)
}

/// The word or symbol that `s` starts with.
///
/// A word that reaches to the end of the text moves the position by its length twice. Behind a
/// word that ends at a symbol the text goes on after as many bytes as the size of the word says;
/// where no character starts there, the text is not lexed at all.
pub open spec fn word(s: Seq<char>, p: PositionView) -> Option<PeeledView> {
    let end = prefix_while(s, word_class()) as int;
    if end == s.len() {
        let t = tokenized(s, p);
        Some(
            PeeledView {
                outcome: t.outcome,
                tail: None,
                pos: t.pos.advanced(t.size, grapheme_count(s) as int),
            },
        )
    } else if !is_opdelim(s[end]) {
        let t = tokenized(s.take(end), p);
        Some(PeeledView { outcome: t.outcome, tail: Some(s.skip(end)), pos: t.pos })
    } else if end == 0 {
        Some(symbol(s, p))
    } else {
        let t = tokenized(s.take(end), p);
        match drop_bytes(s, t.size) {
            Some(rest) => Some(
                PeeledView { outcome: t.outcome, tail: non_empty(rest), pos: t.pos },
            ),
            None => None,
        }
    }
}

/// The position behind the white space that `s` starts with.
pub open spec fn past_white_space(s: Seq<char>, p: PositionView) -> PositionView {
    let t = trim_start(s);
    p.advanced(byte_len(s) - byte_len(t), grapheme_count(s) - grapheme_count(t))
}

/// A literal, or the error in its place, with what is left of the text behind it.
pub open spec fn literal_peeled(s: Seq<char>, literal: LiteralView) -> Option<PeeledView> {
    match drop_bytes(s, literal.consumed) {
        Some(rest) => Some(
            PeeledView {
                outcome: match literal.outcome {
                    Ok(token) => Ok(token->0),
                    Err(bad) => Err(LexErrorView::BadLiteral(bad)),
                },
                tail: non_empty(rest),
                pos: literal.pos,
            },
        ),
        None => None,
    }
}

/// The literal, word or symbol that `s` starts with.
pub open spec fn peeled_here(s: Seq<char>, p: PositionView) -> Option<PeeledView> {
    if is_no_literal(any_literal(s, p)) {
        word(s, p)
    } else {
        literal_peeled(s, any_literal(s, p))
    }
}

/// The first token of `s`, a literal or else a word or symbol, behind the white space that `s`
/// starts with. There is none where the text would have to go on inside a character.
pub open spec fn peeled(s: Seq<char>, p: PositionView) -> Option<PeeledView> {
    peeled_here(trim_start(s), past_white_space(s, p))
}

/// The position of the first row whose spelling `s` starts with.
fn find_prefixing<K>(table: &Vec<(&'static str, K)>, s: &str, Ghost(rows): Ghost<
    Seq<(Seq<char>, K)>,
>) -> (r: Option<usize>)
    requires
        lists(table@, rows),
    ensures
        r is Some <==> row_prefixing(rows, s@, 0) is Some,
        r matches Some(i) ==> {
            &&& i < rows.len()
            &&& row_prefixing(rows, s@, 0) == Some(rows[i as int])
            &&& rows[i as int].0.is_prefix_of(s@)
        },
{
    let mut i: usize = 0;
    while i < table.len()
        invariant
            i <= table.len(),
            lists(table@, rows),
            row_prefixing(rows, s@, 0) == row_prefixing(rows, s@, i as int),
        decreases table.len() - i,
    {
        if starts_with(s, table[i].0) {
            return Some(i);
        }
        i += 1;
    }
    None
}

/// The position of the first row whose spelling is `s`.
fn find_spelled<K>(table: &Vec<(&'static str, K)>, s: &str, Ghost(rows): Ghost<
    Seq<(Seq<char>, K)>,
>) -> (r: Option<usize>)
    requires
        lists(table@, rows),
    ensures
        r is Some <==> row_spelled(rows, s@, 0) is Some,
        r matches Some(i) ==> i < rows.len() && row_spelled(rows, s@, 0) == Some(rows[i as int].1),
{
    let mut i: usize = 0;
    while i < table.len()
        invariant
            i <= table.len(),
            lists(table@, rows),
            row_spelled(rows, s@, 0) == row_spelled(rows, s@, i as int),
        decreases table.len() - i,
    {
        if same_text(s, table[i].0) {
            return Some(i);
        }
        i += 1;
    }
    None
}

/// The first word of `s`, where ASCII white space separates words.
fn word_of<'a>(s: &'a str) -> (r: &'a str)
    ensures
        r@ == first_word(s@),
        byte_len(r@) <= byte_len(s@),
{
    let cs = chars_of(s);
    let mut from: usize = 0;
    while from < cs.len() && ascii_white_space(cs[from])
        invariant
            from <= cs.len(),
            forall|j: int| 0 <= j < from ==> is_ascii_white_space(#[trigger] cs@[j]),
        decreases cs.len() - from,
    {
        from += 1;
    }
    let mut to: usize = from;
    while to < cs.len() && !ascii_white_space(cs[to])
        invariant
            from <= to <= cs.len(),
            forall|j: int| from <= j < to ==> !is_ascii_white_space(#[trigger] cs@[j]),
        decreases cs.len() - to,
    {
        to += 1;
    }
    let r = s.substring_char(from, to);
    proof {
        lemma_prefix_while_is(s@, ascii_white_space_class(), from as int);
        let t = s@.skip(from as int);
        assert forall|j: int| 0 <= j < to - from implies ascii_word_class()(#[trigger] t[j]) by {
            assert(t[j] == cs@[from + j]);
        }
        lemma_prefix_while_is(t, ascii_word_class(), to - from);
        assert(r@ =~= t.take(to - from));
        lemma_byte_len_split(s@, from as int);
        lemma_byte_len_split(t, to - from);
    }
    r
}

/// Tells whether `s` holds letters, digits and underscores only.
fn name_only(s: &str) -> (r: bool)
    ensures
        r == is_name(s@),
{
    let cs = chars_of(s);
    let mut i: usize = 0;
    while i < cs.len()
        invariant
            i <= cs.len(),
            cs@ == s@,
            forall|j: int| 0 <= j < i ==> is_letter_or_digit(#[trigger] cs@[j]) || cs@[j] == '_',
        decreases cs.len() - i,
    {
        let c: char = cs[i];
        if !c.is_alphanumeric() && c != '_' {
            assert(!is_letter_or_digit(s@[i as int]));
            return false;
        }
        i += 1;
    }
    true
}

impl Lexer {
    /// Strips the white space that `line` starts with, and returns its size in bytes and in
    /// grapheme clusters.
    pub fn strip_start(line: &mut &str) -> (r: (usize, usize))
        ensures
            final(line)@ == trim_start(old(line)@),
            r.0 == byte_len(old(line)@) - byte_len(trim_start(old(line)@)),
            r.1 == grapheme_count(old(line)@) - grapheme_count(trim_start(old(line)@)),
            r.1 <= r.0,
    {
        let text: &str = *line;
        let tmp = trimmed_start(text);
        let bytes = len_bytes(text);
        let rest_bytes = len_bytes(tmp);
        let graphemes = count_graphemes(text);
        let rest_graphemes = count_graphemes(tmp);
        proof {
            let k = leading_white_space(text@) as int;
            lemma_prefix_while(text@, white_space_class());
            assert forall|i: int| 0 <= i < k implies is_white_space(
                #[trigger] text@[i],
            ) by {
                assert(white_space_class()(text@[i]));
            }
            assert(white_space_before(text@, k));
            lemma_byte_len_split(text@, k);
            lemma_byte_len_bounds(text@.take(k));
        }
        *line = tmp;
        (bytes - rest_bytes, graphemes - rest_graphemes)
    }

    /// The token that a word stands for, and its size in bytes.
    pub fn tokenize(string: &str, pos: &mut Position) -> (r: (Result<Token, LexError>, usize))
        requires
            old(pos)@.has_room(byte_len(string@)),
        ensures
            token_view(r.0) == tokenized(string@, old(pos)@).outcome,
            r.1 == tokenized(string@, old(pos)@).size,
            final(pos)@ == tokenized(string@, old(pos)@).pos,
            final(pos)@.within(old(pos)@, r.1 as int),
            r.1 <= byte_len(string@),
    {
        let cs = chars_of(string);
        let bytes = len_bytes(string);
        if cs.len() > 0 && cs[0] == '$' {
            let name = string.substring_char(1, cs.len());
            let graphemes = count_graphemes(name);
            let size = len_bytes(name);
            proof {
                assert(name@ =~= string@.skip(1));
                lemma_byte_len_first(string@);
            }
            let token = Token::new(
                TokenKind::MacroInv(ModuleScopedId::Unresolved(name.to_owned())),
                pos.as_provenance(graphemes),
            );
            pos.advance(size, graphemes);
            return (Ok(token), size);
        }
        if cs.len() >= 2 && cs[0] == '#' && cs[1] == '!' {
            let directive = string.substring_char(2, cs.len());
            let size = len_bytes(directive);
            proof {
                assert(directive@ =~= string@.skip(2));
                lemma_byte_len_split(string@, 2);
            }
            let table = directive_table();
            if let Some(i) = find_prefixing(&table, directive, Ghost(directives())) {
                let graphemes = count_graphemes(directive);
                let token = Token::new(
                    TokenKind::Directive(table[i].1),
                    pos.as_provenance(graphemes),
                );
                pos.advance(size, graphemes);
                return (Ok(token), size);
            }
            let graphemes = count_graphemes(word_of(directive));
            let err = LexError::BadDirective(
                BadDirectiveError {
                    bad: directive.to_owned(),
                    prov: pos.as_provenance(graphemes),
                },
            );
            pos.advance(size, graphemes);
            return (Err(err), size);
        }
        let table = keyword_table();
        if let Some(i) = find_spelled(&table, string, Ghost(keywords())) {
            let token = Token::new(TokenKind::Keyword(table[i].1), pos.as_provenance(bytes));
            pos.advance(bytes, bytes);
            return (Ok(token), bytes);
        }
        let graphemes = count_graphemes(string);
        if name_only(string) {
            let token = Token::new(
                TokenKind::Identifier(ModuleScopedId::Unresolved(string.to_owned())),
                pos.as_provenance(graphemes),
            );
            pos.advance(bytes, graphemes);
            return (Ok(token), bytes);
        }
        let err = LexError::BadIdentifier(
            BadIdentifierError { bad: string.to_owned(), prov: pos.as_provenance(graphemes) },
        );
        pos.advance(bytes, graphemes);
        (Err(err), bytes)
    }

    /// Takes the delimiter or operator off that `string` starts with.
    fn peel_symbol<'a>(string: &'a str, pos: &mut Position) -> (r: (
        Result<Token, LexError>,
        Option<&'a str>,
    ))
        requires
            string@.len() > 0,
            old(pos)@.has_room(byte_len(string@)),
        ensures
            token_view(r.0) == symbol(string@, old(pos)@).outcome,
            same_tail(r.1, symbol(string@, old(pos)@).tail),
            final(pos)@ == symbol(string@, old(pos)@).pos,
            behind(string@, r.1, old(pos)@, final(pos)@),
    {
        let cs = chars_of(string);
        let delim_rows = delim_table();
        let op_rows = op_table();
        let ghost p = pos@;
        let mut size: usize = 1;
        let outcome = if let Some(i) = find_prefixing(&delim_rows, string, Ghost(delims())) {
            size = chars_of(delim_rows[i].0).len();
            Ok(Token::new(TokenKind::Delim(delim_rows[i].1), pos.as_provenance(size)))
        } else if let Some(i) = find_prefixing(&op_rows, string, Ghost(ops())) {
            size = chars_of(op_rows[i].0).len();
            Ok(Token::new(TokenKind::Operator(op_rows[i].1), pos.as_provenance(size)))
        } else {
            assert(string@.subrange(0, 1) =~= string@.take(1));
            Err(
                LexError::BadOperator(
                    BadOperatorError {
                        bad: string.substring_char(0, 1).to_owned(),
                        prov: pos.as_provenance(1),
                    },
                ),
            )
        };
        proof {
            lemma_byte_len_split(string@, size as int);
            lemma_byte_len_bounds(string@.take(size as int));
            assert(string@.subrange(size as int, string@.len() as int) =~= string@.skip(
                size as int,
            ));
        }
        pos.advance(size, size);
        (outcome, nonempty_tail(string.substring_char(size, cs.len())))
    }

    /// Takes the literal off that `string` starts with, if there is one.
    fn peel_literal<'a>(string: &'a str, pos: &mut Position) -> (r: Option<
        (Result<Token, LexError>, Option<&'a str>),
    >)
        requires
            old(pos)@.has_room(2 * byte_len(string@)),
        ensures
            r is None <==> is_no_literal(any_literal(string@, old(pos)@)),
            r is None ==> final(pos)@ == old(pos)@,
            r matches Some((outcome, tail)) ==> {
                let view = literal_peeled(string@, any_literal(string@, old(pos)@));
                &&& view is Some
                &&& token_view(outcome) == view->0.outcome
                &&& same_tail(tail, view->0.tail)
                &&& final(pos)@ == view->0.pos
                &&& behind(string@, tail, old(pos)@, final(pos)@)
            },
    {
        let (literal, consumed) = Lexer::parse_literal(string, pos);
        let outcome = match literal {
            Ok(None) => return None,
            Ok(Some(token)) => Ok(token),
            Err(err) => Err(LexError::BadLiteral(err)),
        };
        match dropped_bytes(string, consumed) {
            None => None,
            Some(tail) => {
                proof {
                    let _ = lemma_drop_bytes_suffix(string@, consumed as int);
                    lemma_byte_len_bounds(tail@);
                }
                Some((outcome, nonempty_tail(tail)))
            },
        }
    }

    /// The number of characters before the end of the word that `string` starts with.
    fn word_len(string: &str) -> (end: usize)
        ensures
            end == prefix_while(string@, word_class()),
            end <= string@.len(),
            forall|j: int| 0 <= j < end ==> word_class()(#[trigger] string@[j]),
    {
        let cs = chars_of(string);
        let mut end: usize = 0;
        while end < cs.len() && cs[end] != ' ' && cs[end] != '\t' && !opdelim(cs[end])
            invariant
                end <= cs.len(),
                forall|j: int| 0 <= j < end ==> word_class()(#[trigger] cs@[j]),
            decreases cs.len() - end,
        {
            end += 1;
        }
        proof {
            lemma_prefix_while_is(string@, word_class(), end as int);
        }
        end
    }

    /// Takes the word or symbol off that `string` starts with. There is no result where the text
    /// would have to go on inside a character, as it can behind a `$`.
    fn peel_word<'a>(string: &'a str, pos: &mut Position) -> (r: Option<
        (Result<Token, LexError>, Option<&'a str>),
    >)
        requires
            old(pos)@.has_room(2 * byte_len(string@)),
        ensures
            r is Some <==> word(string@, old(pos)@) is Some,
            r is None ==> string@.len() > 0 && string@[0] == '$',
            r matches Some((outcome, tail)) ==> {
                &&& token_view(outcome) == word(string@, old(pos)@)->0.outcome
                &&& same_tail(tail, word(string@, old(pos)@)->0.tail)
                &&& final(pos)@ == word(string@, old(pos)@)->0.pos
                &&& behind(string@, tail, old(pos)@, final(pos)@)
            },
    {
        let len: usize = string.unicode_len();
        let end = Lexer::word_len(string);
        if end == len {
            let (token, size) = Lexer::tokenize(string, pos);
            let graphemes = count_graphemes(string);
            pos.advance(size, graphemes);
            return Some((token, None));
        }
        let stop = string.get_char(end);
        if end == 0 && opdelim(stop) {
            return Some(Lexer::peel_symbol(string, pos));
        }
        let head = string.substring_char(0, end);
        proof {
            assert(head@ =~= string@.take(end as int));
            lemma_byte_len_split(string@, end as int);
        }
        let (token, size) = Lexer::tokenize(head, pos);
        if !opdelim(stop) {
            assert(string@.subrange(end as int, len as int) =~= string@.skip(end as int));
            return Some((token, Some(string.substring_char(end, len))));
        }
        match dropped_bytes(string, size) {
            None => {
                proof {
                    lemma_drop_bytes_at(string@, end as int);
                    assert(head@[0] == string@[0]);
                    assert(word_class()(string@[0]));
                }
                None
            },
            Some(tail) => {
                proof {
                    let _ = lemma_drop_bytes_suffix(string@, size as int);
                }
                Some((token, nonempty_tail(tail)))
            },
        }
    }

    /// Takes the first token off `string`, or reports an error there, and returns what is left.
    /// There is no result where the text would have to go on inside a character, as it can behind
    /// a `$`.
    pub fn peel_token<'a>(string: &'a str, pos: &mut Position) -> (r: Option<
        (Result<Token, LexError>, Option<&'a str>),
    >)
        requires
            old(pos)@.has_room(2 * byte_len(string@)),
        ensures
            r is Some <==> peeled(string@, old(pos)@) is Some,
            r is None ==> string@.contains('$'),
            r matches Some((outcome, tail)) ==> {
                &&& token_view(outcome) == peeled(string@, old(pos)@)->0.outcome
                &&& same_tail(tail, peeled(string@, old(pos)@)->0.tail)
                &&& final(pos)@ == peeled(string@, old(pos)@)->0.pos
                &&& behind(string@, tail, old(pos)@, final(pos)@)
            },
    {
        let mut rest: &str = string;
        let (bytes, graphemes) = Lexer::strip_start(&mut rest);
        proof {
            let k = leading_white_space(string@) as int;
            lemma_prefix_while(string@, white_space_class());
            lemma_byte_len_split(string@, k);
            assert(rest@.len() > 0 ==> rest@[0] == string@[k]);
        }
        pos.advance(bytes, graphemes);
        match Lexer::peel_literal(rest, pos) {
            Some(literal) => Some(literal),
            None => Lexer::peel_word(rest, pos),
        }
    }
}

/// `tail` holds what `view` says.
pub open spec fn same_tail(tail: Option<&str>, view: Option<Seq<char>>) -> bool {
    match (tail, view) {
        (None, None) => true,
        (Some(text), Some(chars)) => text@ == chars,
        _ => false,
    }
}

/// Neither column has moved further than the text has shrunk. Where nothing is left of the text,
/// they may have moved twice as far.
pub open spec fn behind(
    s: Seq<char>,
    tail: Option<&str>,
    from: PositionView,
    to: PositionView,
) -> bool {
    match tail {
        Some(rest) => to.within(from, byte_len(s) - byte_len(rest@)),
        None => to.within(from, 2 * byte_len(s) as int),
    }
}

/// `s`, or nothing where it is empty.
fn nonempty_tail<'a>(s: &'a str) -> (r: Option<&'a str>)
    ensures
        same_tail(r, non_empty(s@)),
{
    if s.is_empty() {
        None
    } else {
        Some(s)
    }
}

} // verus!
