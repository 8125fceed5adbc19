//! What each spelling of the language is read as, whatever stands around it.
use crate::common::{ModuleScopedIdView, ProvenanceView};
use crate::graphemes::{ascii_text, grapheme_count, lemma_ascii_count};
use crate::lex_error::{LexErrorView, SpannedView};
use crate::literal::{any_literal, is_opdelim, no_literal};
use crate::position::PositionView;
use crate::reading::{
    delimiters_are_read, lemma_no_delim, lemma_no_white_space, lemma_symbol, operators_are_read,
};
use crate::text::{
    alphanumeric, byte_len, drop_bytes, is_letter_or_digit, is_white_space, lemma_drop_bytes_at,
    lemma_drop_bytes_suffix, lemma_prefix_while, lemma_prefix_while_is, prefix_while, trim_start,
    white_space_class,
};
use crate::macros::lemma_row_prefixing;
use crate::tokens::{
    DelimKind, DirectiveKind, KeywordKind, OperatorKind, TokenKindView, TokenView, delims,
    directives, keywords, ops, reveal_spellings,
};
use crate::word::{
    ascii_white_space_class, ascii_word_class, first_word, is_name, past_white_space, peeled,
    row_prefixing, row_spelled, tokenized, word_class,
};
use vstd::prelude::*;

verus! {

/// A stretch of `size` clusters from `p` on.
pub open spec fn stretch(p: PositionView, size: int) -> ProvenanceView {
    ProvenanceView { file_id: p.file_id, line: p.line, column: p.column_graphemes, size }
}

/// `p`, so many bytes and clusters further right.
pub open spec fn moved(p: PositionView, bytes: int, graphemes: int) -> PositionView {
    PositionView {
        file_id: p.file_id,
        line: p.line,
        column_bytes: p.column_bytes + bytes,
        column_graphemes: p.column_graphemes + graphemes,
    }
}

/// `s` starts with `outcome`; behind it `rest` is left, and the position is `pos`.
pub open spec fn reads(
    s: Seq<char>,
    p: PositionView,
    outcome: Result<TokenView, LexErrorView>,
    rest: Seq<char>,
    pos: PositionView,
) -> bool {
    &&& peeled(s, p) matches Some(read)
    &&& read.outcome == outcome
    &&& rest.len() == 0 ==> read.tail is None
    &&& rest.len() > 0 ==> read.tail == Some(rest)
    &&& read.pos == pos
}

/// `s` starts with a token of the kind `kind` and `size` characters, all of them ASCII.
pub open spec fn reads_symbol(
    s: Seq<char>,
    p: PositionView,
    kind: TokenKindView,
    size: int,
    rest: Seq<char>,
) -> bool {
    reads(
        s,
        p,
        Ok(TokenView { kind, prov: stretch(p, size) }),
        rest,
        moved(p, size, size),
    )
}

/// How an operator is spelled.
pub open spec fn operator_spelling(kind: OperatorKind) -> Seq<char> {
    match kind {
        OperatorKind::Assign => seq!['='],
        OperatorKind::Add => seq!['+'],
        OperatorKind::Negate => seq!['-'],
        OperatorKind::Mult => seq!['*'],
        OperatorKind::Div => seq!['/'],
        OperatorKind::Mod => seq!['%'],
        OperatorKind::DivUp => seq!['/', '/'],
        OperatorKind::Project => seq!['-', '>'],
        OperatorKind::LogNot => seq!['!'],
        OperatorKind::LogAnd => seq!['&', '&'],
        OperatorKind::LogOr => seq!['|', '|'],
        OperatorKind::BitNot => seq!['~'],
        OperatorKind::BitAnd => seq!['&'],
        OperatorKind::BitOr => seq!['|'],
        OperatorKind::BitXor => seq!['^'],
        OperatorKind::Equal => seq!['=', '='],
        OperatorKind::NEqual => seq!['!', '='],
        OperatorKind::Less => seq!['<'],
        OperatorKind::More => seq!['>'],
        OperatorKind::LessEqual => seq!['<', '='],
        OperatorKind::MoreEqual => seq!['>', '='],
        OperatorKind::Return => seq!['=', '>'],
    }
}

/// How a delimiter is spelled. The end of a line has no spelling.
pub open spec fn delimiter_spelling(kind: DelimKind) -> Seq<char> {
    match kind {
        DelimKind::ComposeO => seq!['['],
        DelimKind::ComposeC => seq![']'],
        DelimKind::InvokeO => seq!['('],
        DelimKind::InvokeC => seq![')'],
        DelimKind::BlockO => seq!['{'],
        DelimKind::BlockC => seq!['}'],
        DelimKind::Sep => seq![','],
        DelimKind::TypeMarker => seq![':'],
        DelimKind::SubPart => seq![':', ':'],
        DelimKind::EndL => Seq::empty(),
    }
}

/// Operators and delimiters are made of the characters that end a word, and of no others; besides
/// these only `#` ends one.
pub proof fn symbols_end_words(c: char)
    ensures
        is_opdelim(c) <==> {
            ||| c == '#'
            ||| exists|kind: OperatorKind| (#[trigger] operator_spelling(kind)).contains(c)
            ||| exists|kind: DelimKind| (#[trigger] delimiter_spelling(kind)).contains(c)
        },
{
    if is_opdelim(c) && c != '#' {
        let op = if c == '=' {
            OperatorKind::Assign
        } else if c == '-' {
            OperatorKind::Negate
        } else if c == '+' {
            OperatorKind::Add
        } else if c == '*' {
            OperatorKind::Mult
        } else if c == '/' {
            OperatorKind::Div
        } else if c == '%' {
            OperatorKind::Mod
        } else if c == '<' {
            OperatorKind::Less
        } else if c == '>' {
            OperatorKind::More
        } else if c == '&' {
            OperatorKind::BitAnd
        } else if c == '|' {
            OperatorKind::BitOr
        } else if c == '^' {
            OperatorKind::BitXor
        } else if c == '!' {
            OperatorKind::LogNot
        } else {
            OperatorKind::BitNot
        };
        let delim = if c == ',' {
            DelimKind::Sep
        } else if c == '{' {
            DelimKind::BlockO
        } else if c == '}' {
            DelimKind::BlockC
        } else if c == '(' {
            DelimKind::InvokeO
        } else if c == ')' {
            DelimKind::InvokeC
        } else if c == '[' {
            DelimKind::ComposeO
        } else if c == ']' {
            DelimKind::ComposeC
        } else {
            DelimKind::TypeMarker
        };
        assert(operator_spelling(op)[0] == c || delimiter_spelling(delim)[0] == c);
    }
}

/// The row of an operator in the table.
proof fn operator_row(kind: OperatorKind) -> (k: int)
    ensures
        0 <= k < ops().len(),
        ops()[k] == (operator_spelling(kind), kind),
{
    reveal_spellings();
    match kind {
        OperatorKind::Project => 0,
        OperatorKind::Return => 1,
        OperatorKind::DivUp => 2,
        OperatorKind::LogAnd => 3,
        OperatorKind::LogOr => 4,
        OperatorKind::Equal => 5,
        OperatorKind::NEqual => 6,
        OperatorKind::MoreEqual => 7,
        OperatorKind::LessEqual => 8,
        OperatorKind::Assign => 9,
        OperatorKind::Add => 10,
        OperatorKind::Negate => 11,
        OperatorKind::Mult => 12,
        OperatorKind::Div => 13,
        OperatorKind::Mod => 14,
        OperatorKind::BitOr => 15,
        OperatorKind::BitNot => 16,
        OperatorKind::BitAnd => 17,
        OperatorKind::BitXor => 18,
        OperatorKind::LogNot => 19,
        OperatorKind::Less => 20,
        OperatorKind::More => 21,
    }
}

/// Every row of the table spells its operator as it is spelled.
proof fn row_operator(k: int)
    requires
        0 <= k < ops().len(),
    ensures
        operator_spelling(ops()[k].1) == ops()[k].0,
{
    reveal_spellings();
}

/// Every operator, behind which any text follows that does not make it a longer operator, is read
/// as what it is, and that text is left.
pub proof fn operators_by_kind(kind: OperatorKind, rest: Seq<char>, p: PositionView)
    requires
        forall|longer: OperatorKind|
            (#[trigger] operator_spelling(longer)).len() > operator_spelling(kind).len()
                ==> !operator_spelling(longer).is_prefix_of(operator_spelling(kind) + rest),
    ensures
        reads_symbol(
            operator_spelling(kind) + rest,
            p,
            TokenKindView::Operator(kind),
            operator_spelling(kind).len() as int,
            rest,
        ),
{
    let k = operator_row(kind);
    assert forall|j: int|
        0 <= j < ops().len() && (#[trigger] ops()[j]).0.len()
            > ops()[k].0.len() implies !ops()[j].0.is_prefix_of(ops()[k].0 + rest) by {
        row_operator(j);
        assert(operator_spelling(ops()[j].1).len() > operator_spelling(kind).len());
    }
    operators_are_read(k, rest, p);
}

/// Every delimiter, whatever follows it, is read as what it is, but that a colon before another
/// one is the first half of `::`.
pub proof fn delimiters_by_kind(kind: DelimKind, rest: Seq<char>, p: PositionView)
    requires
        !(kind is EndL),
        kind is TypeMarker && rest.len() > 0 ==> rest[0] != ':',
    ensures
        reads_symbol(
            delimiter_spelling(kind) + rest,
            p,
            TokenKindView::Delim(kind),
            delimiter_spelling(kind).len() as int,
            rest,
        ),
{
    reveal_spellings();
    let k: int = match kind {
        DelimKind::SubPart => 0,
        DelimKind::BlockO => 1,
        DelimKind::BlockC => 2,
        DelimKind::InvokeO => 3,
        DelimKind::InvokeC => 4,
        DelimKind::ComposeO => 5,
        DelimKind::ComposeC => 6,
        DelimKind::Sep => 7,
        _ => 8,
    };
    assert(delims()[k] == (delimiter_spelling(kind), kind));
    delimiters_are_read(k, rest, p);
}

/// A `#` where a token should start is no operator, whatever follows it.
pub proof fn number_sign_is_refused(rest: Seq<char>, p: PositionView)
    ensures
        reads(
            seq!['#'] + rest,
            p,
            Err(
                LexErrorView::BadOperator(SpannedView { bad: seq!['#'], prov: stretch(p, 1) }),
            ),
            rest,
            moved(p, 1, 1),
        ),
{
    let s = seq!['#'] + rest;
    lemma_symbol(s, p);
    lemma_no_delim(s);
    if row_prefixing(ops(), s, 0) is Some {
        let j = lemma_row_prefixing(ops(), s, 0);
        reveal_spellings();
        assert(s.take(ops()[j].0.len() as int)[0] == s[0]);
    }
    assert(s.take(1) =~= seq!['#']);
    assert(s.skip(1) =~= rest);
}

/// White space before a text is passed over: the text is read as it would be without it, from
/// where the white space ends.
pub proof fn white_space_is_passed_over(w: Seq<char>, s: Seq<char>, p: PositionView)
    requires
        forall|i: int| 0 <= i < w.len() ==> is_white_space(#[trigger] w[i]),
    ensures
        ({
            let t = trim_start(s);
            let start = moved(
                p,
                byte_len(w + s) - byte_len(t),
                grapheme_count(w + s) - grapheme_count(t),
            );
            &&& trim_start(w + s) == t
            &&& peeled(w + s, p) == peeled(t, start)
        }),
        s.len() > 0 && !is_white_space(s[0]) ==> trim_start(s) == s,
        s.len() == 0 ==> trim_start(s) == s,
{
    let n = prefix_while(s, white_space_class()) as int;
    lemma_prefix_while(s, white_space_class());
    let all = w + s;
    assert forall|i: int| 0 <= i < w.len() + n implies white_space_class()(#[trigger] all[i]) by {
        if i < w.len() {
            assert(all[i] == w[i]);
        } else {
            assert(all[i] == s[i - w.len()]);
        }
    }
    if n < s.len() {
        assert(all[w.len() + n] == s[n]);
    }
    lemma_prefix_while_is(all, white_space_class(), w.len() + n);
    let t = trim_start(s);
    assert(trim_start(all) =~= t);
    assert(t.len() > 0 ==> t[0] == s[n]);
    let start = past_white_space(all, p);
    lemma_no_white_space(t, start);
    assert(n == 0 ==> t =~= s);
}

/// What a word of the language is made of: letters and digits of any script, and underscores.
pub open spec fn names_only(w: Seq<char>) -> bool {
    forall|i: int|
        0 <= i < w.len() ==> {
            let c = #[trigger] w[i];
            ||| 'a' <= c <= 'z'
            ||| 'A' <= c <= 'Z'
            ||| '0' <= c <= '9'
            ||| c == '_'
            ||| c as u32 >= 0x80 && alphanumeric(c)
        }
}

/// `w` reaches up to `rest`: there is no blank, operator or delimiter in it, and one of them, or
/// nothing, follows it.
pub open spec fn is_word_before(w: Seq<char>, rest: Seq<char>) -> bool {
    &&& forall|i: int|
        0 <= i < w.len() ==> (#[trigger] w[i]) != ' ' && w[i] != '\t' && !is_opdelim(w[i])
    &&& rest.len() > 0 ==> rest[0] == ' ' || rest[0] == '\t' || is_opdelim(rest[0])
}

/// `w` starts neither with white space nor like a literal or the use of a macro.
pub open spec fn starts_plainly(w: Seq<char>) -> bool {
    &&& w.len() > 0
    &&& !is_white_space(w[0])
    &&& !('0' <= w[0] <= '9')
    &&& w[0] != '\'' && w[0] != '"' && w[0] != '$'
    &&& w.len() > 1 && (w[0] == 'h' || w[0] == 'b') ==> w[1] != '\''
}

/// The keyword that `w` is.
pub open spec fn keyword_of(w: Seq<char>) -> Option<KeywordKind> {
    if w == seq!['i', 's'] {
        Some(KeywordKind::TypeCheck)
    } else if w == seq!['f', 'u'] {
        Some(KeywordKind::Function)
    } else if w == seq!['t', 'h', 'i', 'n', 'g'] {
        Some(KeywordKind::Thing)
    } else {
        None
    }
}

proof fn lemma_keyword_of(w: Seq<char>)
    ensures
        row_spelled(keywords(), w, 0) == keyword_of(w),
        keyword_of(w) is Some ==> ascii_text(w) && w.len() > 0,
{
    reveal_strlit("is");
    reveal_strlit("fu");
    reveal_strlit("thing");
    reveal_with_fuel(row_spelled, 4);
    assert("is"@ =~= seq!['i', 's']);
    assert("fu"@ =~= seq!['f', 'u']);
    assert("thing"@ =~= seq!['t', 'h', 'i', 'n', 'g']);
}

/// A word that does not start like anything else is a keyword where it is spelled like one, a name
/// where it is made of letters, digits and underscores, and malformed otherwise. What follows it
/// is left. Behind a word that ends the text the position has moved twice.
pub proof fn words_are_read(w: Seq<char>, rest: Seq<char>, p: PositionView)
    requires
        starts_plainly(w),
        is_word_before(w, rest),
    ensures
        ({
            let bytes = byte_len(w) as int;
            let size = grapheme_count(w) as int;
            let times: int = if rest.len() == 0 {
                2
            } else {
                1
            };
            reads(
                w + rest,
                p,
                match keyword_of(w) {
                    Some(kind) => Ok(
                        TokenView {
                            kind: TokenKindView::Keyword(kind),
                            prov: stretch(p, w.len() as int),
                        },
                    ),
                    None => if names_only(w) {
                        Ok(
                            TokenView {
                                kind: TokenKindView::Identifier(ModuleScopedIdView::Unresolved(w)),
                                prov: stretch(p, size),
                            },
                        )
                    } else {
                        Err(
                            LexErrorView::BadIdentifier(
                                SpannedView { bad: w, prov: stretch(p, size) },
                            ),
                        )
                    },
                },
                rest,
                moved(p, times * bytes, times * size),
            )
        }),
{
    let s = w + rest;
    let n = w.len() as int;
    assert(s[0] == w[0]);
    lemma_no_white_space(s, p);
    if n > 1 {
        assert(s[1] == w[1]);
    } else if rest.len() > 0 {
        assert(s[1] == rest[0]);
    }
    assert(any_literal(s, p) == no_literal(p));
    lemma_word_end(w, rest);
    lemma_keyword_of(w);
    if keyword_of(w) is Some {
        lemma_ascii_count(w);
    }
    assert(names_only(w) <==> is_name(w)) by {
        if names_only(w) {
            assert forall|i: int| 0 <= i < n implies is_letter_or_digit(
                #[trigger] w[i],
            ) || w[i] == '_' by {}
        }
        if is_name(w) {
            assert forall|i: int| 0 <= i < n implies {
                let c = #[trigger] w[i];
                ||| 'a' <= c <= 'z'
                ||| 'A' <= c <= 'Z'
                ||| '0' <= c <= '9'
                ||| c == '_'
                ||| c as u32 >= 0x80 && alphanumeric(c)
            } by {
                assert(is_letter_or_digit(w[i]) || w[i] == '_');
            }
        }
    }
    assert(w[0] != '#');
    lemma_drop_bytes_at(s, n);
    assert(rest.len() == 0 ==> s =~= w);
}

/// A word ends where the text that follows it starts.
proof fn lemma_word_end(w: Seq<char>, rest: Seq<char>)
    requires
        is_word_before(w, rest),
    ensures
        prefix_while(w + rest, word_class()) == w.len(),
        (w + rest).take(w.len() as int) == w,
        (w + rest).skip(w.len() as int) == rest,
{
    let s = w + rest;
    let n = w.len() as int;
    assert forall|i: int| 0 <= i < n implies word_class()(#[trigger] s[i]) by {
        assert(s[i] == w[i]);
    }
    if rest.len() > 0 {
        assert(s[n] == rest[0]);
        assert(!word_class()(s[n]));
    }
    lemma_prefix_while_is(s, word_class(), n);
    assert(s.take(n) =~= w);
    assert(s.skip(n) =~= rest);
}

/// Nothing is read as an empty name.
pub proof fn nothing_is_an_empty_name(p: PositionView)
    ensures
        reads(
            Seq::empty(),
            p,
            Ok(
                TokenView {
                    kind: TokenKindView::Identifier(ModuleScopedIdView::Unresolved(Seq::empty())),
                    prov: stretch(p, 0),
                },
            ),
            Seq::empty(),
            p,
        ),
{
    let s = Seq::<char>::empty();
    lemma_no_white_space(s, p);
    lemma_prefix_while(s, word_class());
    lemma_keyword_of(s);
    lemma_ascii_count(s);
    assert(any_literal(s, p) == no_literal(p));
    assert(is_name(s));
}

/// `$` and a word is the use of a macro of that name. The `$` counts neither to the size nor to the
/// move of the position; behind a word at the end of the text that has moved once more. Before an
/// operator or delimiter the text goes on after as many bytes as the name has, and there is no
/// result where that is inside a character.
pub proof fn uses_of_macros_are_read(name: Seq<char>, rest: Seq<char>, p: PositionView)
    requires
        is_word_before(name, rest),
    ensures
        ({
            let s = seq!['$'] + name + rest;
            let bytes = byte_len(name) as int;
            let size = grapheme_count(name) as int;
            let token = Ok::<TokenView, LexErrorView>(
                TokenView {
                    kind: TokenKindView::MacroInv(ModuleScopedIdView::Unresolved(name)),
                    prov: stretch(p, size),
                },
            );
            if rest.len() == 0 {
                reads(
                    s,
                    p,
                    token,
                    rest,
                    moved(p, 2 * bytes, size + grapheme_count(seq!['$'] + name)),
                )
            } else if !is_opdelim(rest[0]) {
                reads(s, p, token, rest, moved(p, bytes, size))
            } else {
                &&& forall|k: int|
                    0 <= k <= s.len() && byte_len(#[trigger] s.take(k)) == bytes ==> reads(
                        s,
                        p,
                        token,
                        s.skip(k),
                        moved(p, bytes, size),
                    )
                &&& (forall|k: int| 0 <= k <= s.len() ==> byte_len(#[trigger] s.take(k)) != bytes)
                    ==> peeled(s, p) is None
            }
        }),
{
    let w = seq!['$'] + name;
    let s = w + rest;
    assert(s =~= seq!['$'] + name + rest);
    assert forall|i: int| 0 <= i < w.len() implies (#[trigger] w[i]) != ' ' && w[i] != '\t'
        && !is_opdelim(w[i]) by {
        if i > 0 {
            assert(w[i] == name[i - 1]);
        }
    }
    lemma_word_end(w, rest);
    assert(s[0] == '$');
    lemma_no_white_space(s, p);
    assert(any_literal(s, p) == no_literal(p));
    assert(w.skip(1) =~= name);
    let bytes = byte_len(name) as int;
    if rest.len() == 0 {
        assert(s =~= w);
    } else if is_opdelim(rest[0]) {
        assert(s[w.len() as int] == rest[0]);
        assert forall|k: int|
            0 <= k <= s.len() && byte_len(#[trigger] s.take(k)) == bytes implies drop_bytes(
            s,
            bytes,
        ) == Some(s.skip(k)) by {
            lemma_drop_bytes_at(s, k);
        }
        if drop_bytes(s, bytes) is Some {
            let k = lemma_drop_bytes_suffix(s, bytes);
            assert(byte_len(s.take(k)) == bytes);
        }
    } else {
        assert(s[w.len() as int] == rest[0]);
    }
}

/// The directive that `d`, what stands behind `#!`, starts with.
pub open spec fn directive_of(d: Seq<char>) -> Option<DirectiveKind> {
    if d.len() >= 3 && d[0] == 'i' && d[1] == 'f' && d[2] == ' ' {
        Some(DirectiveKind::If)
    } else if d.len() >= 4 && d[0] == 'e' && d[1] == 'r' && d[2] == 'r' && d[3] == ' ' {
        Some(DirectiveKind::Error)
    } else if d.len() >= 4 && d[0] == 'l' && d[1] == 'o' && d[2] == 'g' && d[3] == ' ' {
        Some(DirectiveKind::Log)
    } else {
        None
    }
}

/// `c` is an ASCII white-space character.
pub open spec fn is_ascii_blank(c: char) -> bool {
    c == ' ' || c == '\t' || c == '\n' || c == '\u{c}' || c == '\r'
}

proof fn lemma_directive_of(d: Seq<char>)
    ensures
        match row_prefixing(directives(), d, 0) {
            Some((_, kind)) => directive_of(d) == Some(kind),
            None => directive_of(d) is None,
        },
{
    reveal_strlit("if ");
    reveal_strlit("err ");
    reveal_strlit("log ");
    reveal_with_fuel(row_prefixing, 4);
    if d.len() >= 3 {
        assert(d.take(3)[0] == d[0] && d.take(3)[1] == d[1] && d.take(3)[2] == d[2]);
        if directive_of(d) matches Some(DirectiveKind::If) {
            assert(d.take(3) =~= "if "@);
        }
    }
    if d.len() >= 4 {
        let t = d.take(4);
        assert(t[0] == d[0] && t[1] == d[1] && t[2] == d[2] && t[3] == d[3]);
        if directive_of(d) matches Some(DirectiveKind::Error) {
            assert(t =~= "err "@);
        }
        if directive_of(d) matches Some(DirectiveKind::Log) {
            assert(t =~= "log "@);
        }
    }
}

/// `#!` and `d` is the directive that `d` starts with, and an unknown one where it starts with
/// none. All of it is taken up, but only the first word of an unknown one counts to its size.
pub proof fn directives_are_read(
    blank: Seq<char>,
    w: Seq<char>,
    rest: Seq<char>,
    p: PositionView,
)
    requires
        forall|i: int| 0 <= i < blank.len() ==> is_ascii_blank(#[trigger] blank[i]),
        forall|i: int| 0 <= i < w.len() ==> !is_ascii_blank(#[trigger] w[i]),
        w.len() == 0 ==> rest.len() == 0,
        rest.len() > 0 ==> is_ascii_blank(rest[0]),
    ensures
        ({
            let d = blank + w + rest;
            let bytes = byte_len(d) as int;
            let read = tokenized(seq!['#', '!'] + d, p);
            &&& read.size == bytes
            &&& match directive_of(d) {
                Some(kind) => {
                    let size = grapheme_count(d) as int;
                    &&& read.outcome == Ok::<TokenView, LexErrorView>(
                        TokenView {
                            kind: TokenKindView::Directive(kind),
                            prov: stretch(p, size),
                        },
                    )
                    &&& read.pos == moved(p, bytes, size)
                },
                None => {
                    let size = grapheme_count(w) as int;
                    &&& read.outcome == Err::<TokenView, LexErrorView>(
                        LexErrorView::BadDirective(
                            SpannedView { bad: d, prov: stretch(p, size) },
                        ),
                    )
                    &&& read.pos == moved(p, bytes, size)
                },
            }
        }),
{
    let d = blank + w + rest;
    let s = seq!['#', '!'] + d;
    assert(s.skip(2) =~= d);
    lemma_directive_of(d);
    let b = blank.len() as int;
    assert forall|i: int| 0 <= i < b implies ascii_white_space_class()(#[trigger] d[i]) by {
        assert(d[i] == blank[i]);
    }
    if w.len() > 0 {
        assert(d[b] == w[0]);
    }
    lemma_prefix_while_is(d, ascii_white_space_class(), b);
    let t = d.skip(b);
    assert(t =~= w + rest);
    assert forall|i: int| 0 <= i < w.len() implies ascii_word_class()(#[trigger] t[i]) by {
        assert(t[i] == w[i]);
    }
    if rest.len() > 0 {
        assert(t[w.len() as int] == rest[0]);
    }
    lemma_prefix_while_is(t, ascii_word_class(), w.len() as int);
    assert(t.take(w.len() as int) =~= w);
    assert(first_word(d) == w);
}

} // verus!
