//! How the spellings of the language are read.
use crate::common::{ModuleScopedIdView, ProvenanceView};
use crate::graphemes::{ascii_text, grapheme_count, lemma_ascii_count};
use crate::lex_error::LexErrorView;
use crate::literal::{
    LiteralView, any_literal, byte_literal, byte_offense, char_literal, closing_quote,
    is_no_literal, is_opdelim, no_literal, number_class, number_literal, starts_with_two,
    string_literal,
};
use crate::macros::lemma_row_prefixing;
use crate::numbers::{all_digits, decimal, decimal_value, digit_value};
use crate::position::PositionView;
use crate::text::{
    byte_len, drop_bytes, is_ascii_alphanumeric, is_ascii_char, is_digit, is_letter_or_digit,
    is_white_space, leading_white_space, lemma_byte_len_add, lemma_byte_len_bounds,
    lemma_byte_len_first, lemma_drop_bytes_at, lemma_drop_bytes_suffix, lemma_prefix_while,
    lemma_prefix_while_is, lemma_whole_characters, prefix_while, trim_start, white_space_class,
};
use crate::tokens::{
    LiteralKindView, MULTI_OPS, TokenKindView, TokenView, delims, keywords, ops,
    reveal_spellings,
};
use crate::word::{
    PeeledView, is_name, non_empty, past_white_space, peeled, row_prefixing, row_spelled, symbol,
    tokenized, word, word_class,
};
use vstd::prelude::*;

verus! {

/// A literal takes up some of the text.
proof fn lemma_literal_consumes(s: Seq<char>, p: PositionView)
    requires
        !is_no_literal(any_literal(s, p)),
    ensures
        any_literal(s, p).consumed > 0,
{
    lemma_byte_len_bounds(s);
    if starts_with_two(s, 'h', '\'') {
        lemma_byte_len_bounds(byte_offense(s));
        let _ = lemma_whole_characters(s, byte_len(byte_offense(s)) as int);
    }
    lemma_prefix_while(s, number_class());
    let end = prefix_while(s, number_class()) as int;
    lemma_byte_len_bounds(s.take(end));
    if s.len() > 0 && is_digit(s[0]) {
        assert(end > 0) by {
            if end == 0 {
                assert(!number_class()(s[0]));
            }
        }
    }
}

/// A word or symbol takes up some of the text, unless it is a `$` before an operator or delimiter.
proof fn lemma_word_shortens(t: Seq<char>, p: PositionView) -> (k: int)
    requires
        t.len() > 0 ==> !is_white_space(t[0]),
        word(t, p) is Some,
        word(t, p)->0.tail is Some,
    ensures
        0 <= k <= t.len(),
        word(t, p)->0.tail == Some(t.skip(k)),
        k > 0 || t.len() > 1 && t[0] == '$' && is_opdelim(t[1]),
{
    let end = prefix_while(t, word_class()) as int;
    lemma_prefix_while(t, word_class());
    if !is_opdelim(t[end]) {
        end
    } else if end == 0 {
        lemma_symbol_shortens(t, p)
    } else {
        let w = t.take(end);
        let size = tokenized(w, p).size;
        let k = lemma_drop_bytes_suffix(t, size);
        lemma_byte_len_bounds(w);
        lemma_byte_len_bounds(w.skip(1));
        assert(t.take(0) =~= Seq::empty());
        if k == 0 {
            assert(size == 0);
            assert(w[0] == t[0]);
            assert(word_class()(t[0]));
            assert(t[0] == '$');
            assert(w.skip(1).len() == 0);
        }
        k
    }
}

proof fn lemma_symbol_shortens(t: Seq<char>, p: PositionView) -> (k: int)
    requires
        t.len() > 0,
    ensures
        0 < k <= t.len(),
        symbol(t, p).tail == non_empty(t.skip(k)),
{
    reveal_spellings();
    if row_prefixing(delims(), t, 0) is Some {
        let j = lemma_row_prefixing(delims(), t, 0);
        delims()[j].0.len() as int
    } else if row_prefixing(ops(), t, 0) is Some {
        let j = lemma_row_prefixing(ops(), t, 0);
        ops()[j].0.len() as int
    } else {
        1
    }
}

/// What is left of a text behind a token is its end, and it is shorter than the text, unless the
/// text starts with `$` before an operator or delimiter: the `$` is not taken off then.
pub proof fn peeling_shortens(s: Seq<char>, p: PositionView) -> (k: int)
    requires
        peeled(s, p) is Some,
        peeled(s, p)->0.tail is Some,
    ensures
        0 <= k <= s.len(),
        peeled(s, p)->0.tail == Some(s.skip(k)),
        k > 0 || s.len() > 1 && s[0] == '$' && is_opdelim(s[1]),
{
    let t = trim_start(s);
    let start = past_white_space(s, p);
    let blank = leading_white_space(s) as int;
    lemma_prefix_while(s, white_space_class());
    let literal = any_literal(t, start);
    let k = if !is_no_literal(literal) {
        lemma_literal_consumes(t, start);
        assert(t.take(0) =~= Seq::empty());
        lemma_drop_bytes_suffix(t, literal.consumed)
    } else {
        assert(t.len() > 0 ==> t[0] == s[blank] && !white_space_class()(s[blank]));
        lemma_word_shortens(t, start)
    };
    assert(t.skip(k) =~= s.skip(blank + k));
    if blank + k == 0 {
        assert(t =~= s);
    }
    blank + k
}

/// Nothing is stripped off a text that does not start with white space.
pub proof fn lemma_no_white_space(s: Seq<char>, p: PositionView)
    requires
        s.len() > 0 ==> !is_white_space(s[0]),
    ensures
        trim_start(s) == s,
        past_white_space(s, p) == p,
{
    lemma_prefix_while_is(s, white_space_class(), 0);
    assert(s.skip(0) =~= s);
}

proof fn lemma_closing_quote(s: Seq<char>, i: int, end: int)
    requires
        0 <= i <= end < s.len(),
        forall|j: int| i <= j < end ==> #[trigger] s[j] != '"' && s[j] != '\\',
        s[end] == '"',
    ensures
        closing_quote(s, i, false) == Some(end),
    decreases end - i,
{
    if i < end {
        lemma_closing_quote(s, i + 1, end);
    }
}

/// A text without quotation marks and backslashes between quotation marks is read as the string
/// that it is, whatever follows it.
pub proof fn strings_are_read(body: Seq<char>, rest: Seq<char>, p: PositionView)
    requires
        !body.contains('"'),
        !body.contains('\\'),
    ensures
        peeled(seq!['"'] + body + seq!['"'] + rest, p) == Some(
            PeeledView {
                outcome: Ok(
                    TokenView {
                        kind: TokenKindView::Literal(LiteralKindView::String(body)),
                        prov: p.provenance(2 + grapheme_count(body) as int),
                    },
                ),
                tail: non_empty(rest),
                pos: p.advanced(2 + byte_len(body) as int, 2 + grapheme_count(body) as int),
            },
        ),
{
    let s = seq!['"'] + body + seq!['"'] + rest;
    let inner = s.skip(1);
    let n = body.len() as int;
    lemma_no_white_space(s, p);
    assert(s[0] == '"');
    assert forall|j: int| 0 <= j < n implies #[trigger] inner[j] != '"' && inner[j] != '\\' by {
        assert(inner[j] == body[j]);
        assert(body.contains(body[j]));
    }
    assert(inner[n] == '"');
    lemma_closing_quote(inner, 0, n);
    assert(inner.take(n) =~= body);
    lemma_byte_len_bounds(s);
    assert(any_literal(s, p) == string_literal(s, p));
    let quoted = s.take(n + 2);
    assert(quoted =~= seq!['"'] + body + seq!['"']);
    lemma_byte_len_add(seq!['"'] + body, seq!['"']);
    lemma_byte_len_add(seq!['"'], body);
    lemma_byte_len_first(seq!['"']);
    assert(byte_len(seq!['"']) == 1) by {
        assert(seq!['"'].skip(1) =~= Seq::<char>::empty());
    }
    lemma_drop_bytes_at(s, n + 2);
    assert(s.skip(n + 2) =~= rest);
}

pub proof fn lemma_decimal(n: nat)
    ensures
        all_digits(decimal(n)),
        decimal_value(decimal(n)) == n,
    decreases n,
{
    let last = ('0' as u32 + n % 10) as char;
    assert(is_digit(last) && digit_value(last) == n % 10);
    if n >= 10 {
        lemma_decimal(n / 10);
        assert(decimal(n).drop_last() =~= decimal(n / 10));
    } else {
        assert(decimal(n).drop_last() =~= Seq::empty());
        assert(decimal_value(decimal(n).drop_last()) == 0);
        assert(decimal(n)[0] == last);
    }
}

/// The digits of an integer are read as that integer.
pub proof fn integers_are_read(n: nat, p: PositionView)
    requires
        n <= i64::MAX,
    ensures
        ({
            let digits = decimal(n);
            let size = grapheme_count(digits) as int;
            peeled(digits, p) == Some(
                PeeledView {
                    outcome: Ok(
                        TokenView {
                            kind: TokenKindView::Literal(LiteralKindView::Int(n as int)),
                            prov: p.provenance(size),
                        },
                    ),
                    tail: None,
                    pos: p.advanced(byte_len(digits) as int, size),
                },
            )
        }),
{
    let s = decimal(n);
    lemma_decimal(n);
    assert(is_digit(s[0]));
    lemma_no_white_space(s, p);
    assert forall|i: int| 0 <= i < s.len() implies number_class()(#[trigger] s[i]) by {
        assert(is_digit(s[i]));
    }
    lemma_prefix_while_is(s, number_class(), s.len() as int);
    assert(s.take(s.len() as int) =~= s);
    assert(!s.contains('.')) by {
        assert forall|i: int| 0 <= i < s.len() implies s[i] != '.' by {
            assert(is_digit(s[i]));
        }
    }
    assert(any_literal(s, p) == number_literal(s, p));
    lemma_drop_bytes_at(s, s.len() as int);
    assert(s.skip(s.len() as int) =~= Seq::empty());
}

/// What operators are spelled with.
pub proof fn lemma_op_spelling(k: int)
    requires
        0 <= k < ops().len(),
    ensures
        ({
            let spelling = ops()[k].0;
            &&& 1 <= spelling.len() <= 2
            &&& spelling.len() == 2 <==> k < MULTI_OPS
            &&& forall|i: int| 0 <= i < spelling.len() ==> is_opdelim(#[trigger] spelling[i])
            &&& !is_delim_initial(spelling[0])
        }),
{
    reveal_spellings();
}

/// A delimiter starts with `c`.
pub open spec fn is_delim_initial(c: char) -> bool {
    c == ':' || c == '{' || c == '}' || c == '(' || c == ')' || c == '[' || c == ']' || c == ','
}

/// Where no delimiter starts, none is found.
pub proof fn lemma_no_delim(s: Seq<char>)
    requires
        s.len() > 0,
        !is_delim_initial(s[0]),
    ensures
        row_prefixing(delims(), s, 0) is None,
{
    if row_prefixing(delims(), s, 0) is Some {
        let j = lemma_row_prefixing(delims(), s, 0);
        reveal_spellings();
        assert(is_delim_initial(delims()[j].0[0]));
        assert(s.take(delims()[j].0.len() as int)[0] == s[0]);
    }
}

/// No two operators are spelled the same.
pub proof fn lemma_op_spellings_differ(j: int, k: int)
    requires
        0 <= j < k < ops().len(),
    ensures
        ops()[j].0 != ops()[k].0,
{
    reveal_spellings();
    let a = ops()[j].0;
    let b = ops()[k].0;
    if a == b {
        assert(a[0] == b[0] && a.len() == b.len() && a[a.len() - 1] == b[b.len() - 1]);
    }
}

/// A text that starts with a symbol starts with no literal and no word.
pub proof fn lemma_symbol(s: Seq<char>, p: PositionView)
    requires
        s.len() > 0,
        is_opdelim(s[0]),
    ensures
        peeled(s, p) == Some(symbol(s, p)),
{
    lemma_no_white_space(s, p);
    assert(any_literal(s, p) == no_literal(p));
    assert(!word_class()(s[0]));
    lemma_prefix_while_is(s, word_class(), 0);
}

pub proof fn lemma_first_row<K>(rows: Seq<(Seq<char>, K)>, s: Seq<char>, i: int, k: int)
    requires
        0 <= i <= k < rows.len(),
        rows[k].0.is_prefix_of(s),
        forall|j: int| i <= j < k ==> !(#[trigger] rows[j]).0.is_prefix_of(s),
    ensures
        row_prefixing(rows, s, i) == Some(rows[k]),
    decreases k - i,
{
    if i < k {
        lemma_first_row(rows, s, i + 1, k);
    }
}

/// Each operator is read as what it is, whatever follows it, if that does not make it a longer
/// operator.
pub proof fn operators_are_read(k: int, rest: Seq<char>, p: PositionView)
    requires
        0 <= k < ops().len(),
        forall|j: int|
            0 <= j < ops().len() && (#[trigger] ops()[j]).0.len() > ops()[k].0.len()
                ==> !ops()[j].0.is_prefix_of(ops()[k].0 + rest),
    ensures
        ({
            let (spelling, kind) = ops()[k];
            let size = spelling.len() as int;
            peeled(spelling + rest, p) == Some(
                PeeledView {
                    outcome: Ok(
                        TokenView {
                            kind: TokenKindView::Operator(kind),
                            prov: p.provenance(size),
                        },
                    ),
                    tail: non_empty(rest),
                    pos: p.advanced(size, size),
                },
            )
        }),
{
    let (spelling, kind) = ops()[k];
    let s = spelling + rest;
    lemma_op_spelling(k);
    assert(s[0] == spelling[0]);
    lemma_symbol(s, p);
    lemma_no_delim(s);
    assert(s.take(spelling.len() as int) =~= spelling);
    assert forall|j: int| 0 <= j < k implies !(#[trigger] ops()[j]).0.is_prefix_of(s) by {
        lemma_op_spelling(j);
        lemma_op_spellings_differ(j, k);
        let other = ops()[j].0;
        if other.is_prefix_of(s) {
            assert(other =~= s.take(other.len() as int));
            if other.len() == spelling.len() {
                assert(other =~= spelling);
            } else {
                assert(other.len() == 2 && spelling.len() == 1);
            }
        }
    }
    lemma_first_row(ops(), s, 0, k);
    assert(s.skip(spelling.len() as int) =~= rest);
}

/// Each delimiter is read as what it is, whatever follows it, but that a colon before another one
/// is the first half of `::`.
pub proof fn delimiters_are_read(k: int, rest: Seq<char>, p: PositionView)
    requires
        0 <= k < delims().len(),
        delims()[k].1 is TypeMarker && rest.len() > 0 ==> rest[0] != ':',
    ensures
        ({
            let (spelling, kind) = delims()[k];
            let size = spelling.len() as int;
            peeled(spelling + rest, p) == Some(
                PeeledView {
                    outcome: Ok(
                        TokenView { kind: TokenKindView::Delim(kind), prov: p.provenance(size) },
                    ),
                    tail: non_empty(rest),
                    pos: p.advanced(size, size),
                },
            )
        }),
{
    let (spelling, kind) = delims()[k];
    let s = spelling + rest;
    reveal_spellings();
    assert(s[0] == spelling[0]);
    assert(is_opdelim(s[0]));
    lemma_symbol(s, p);
    assert(s.take(spelling.len() as int) =~= spelling);
    assert forall|j: int| 0 <= j < k implies !(#[trigger] delims()[j]).0.is_prefix_of(s) by {
        let other = delims()[j].0;
        if other.is_prefix_of(s) {
            assert(other =~= s.take(other.len() as int));
            assert(other[0] == s[0]);
            assert(j == 0 && kind is TypeMarker);
            assert(other[1] == s[1]);
        }
    }
    lemma_first_row(delims(), s, 0, k);
    assert(s.skip(spelling.len() as int) =~= rest);
}

/// Each keyword is read as what it is, at the end of a text and before a blank.
pub proof fn keywords_are_read(k: int, rest: Seq<char>, p: PositionView)
    requires
        0 <= k < keywords().len(),
        rest.len() > 0 ==> rest[0] == ' ' || rest[0] == '\t',
    ensures
        ({
            let (spelling, kind) = keywords()[k];
            let size = byte_len(spelling) as int;
            let read = peeled(spelling + rest, p);
            &&& read is Some
            &&& read->0.outcome == Ok::<TokenView, LexErrorView>(
                TokenView { kind: TokenKindView::Keyword(kind), prov: p.provenance(size) },
            )
            &&& read->0.tail == non_empty(rest)
        }),
{
    let (spelling, kind) = keywords()[k];
    let s = spelling + rest;
    reveal_strlit("is");
    reveal_strlit("fu");
    reveal_strlit("thing");
    reveal_with_fuel(row_spelled, 4);
    assert(spelling.len() >= 2);
    assert forall|i: int| 0 <= i < spelling.len() implies 'a' <= #[trigger] spelling[i] <= 'z' by {}
    assert(s[0] == spelling[0] && s[1] == spelling[1]);
    lemma_no_white_space(s, p);
    assert(any_literal(s, p) == no_literal(p));
    assert forall|i: int| 0 <= i < spelling.len() implies word_class()(#[trigger] s[i]) by {
        assert(s[i] == spelling[i]);
    }
    if rest.len() > 0 {
        assert(s[spelling.len() as int] == rest[0]);
        assert(!word_class()(s[spelling.len() as int]));
    } else {
        assert(s =~= spelling);
    }
    lemma_prefix_while_is(s, word_class(), spelling.len() as int);
    assert(s.take(spelling.len() as int) =~= spelling);
    assert(s.skip(spelling.len() as int) =~= rest);
    assert("is"@[0] == 'i' && "fu"@[0] == 'f' && "thing"@[0] == 't');
    assert(row_spelled(keywords(), spelling, 0) == Some(kind));
}

/// The number of backslashes right before `i`.
pub open spec fn backslashes_before(s: Seq<char>, i: int) -> nat
    decreases i,
{
    if 0 < i <= s.len() && s[i - 1] == '\\' {
        1 + backslashes_before(s, i - 1)
    } else {
        0
    }
}

/// An even number of backslashes before a quotation mark escape each other, and not the mark.
pub open spec fn closes(s: Seq<char>, i: int) -> bool {
    0 <= i < s.len() && s[i] == '"' && backslashes_before(s, i) % 2 == 0
}

pub proof fn lemma_closing_quote_from(s: Seq<char>, i: int, escaped: bool)
    requires
        0 <= i <= s.len(),
        escaped <==> backslashes_before(s, i) % 2 == 1,
    ensures
        match closing_quote(s, i, escaped) {
            Some(end) => {
                &&& i <= end
                &&& closes(s, end)
                &&& forall|j: int| i <= j < end ==> !closes(s, j)
            },
            None => forall|j: int| i <= j ==> !closes(s, j),
        },
    decreases s.len() - i,
{
    if i < s.len() {
        if s[i] == '\\' {
            assert(backslashes_before(s, i + 1) == 1 + backslashes_before(s, i));
            lemma_closing_quote_from(s, i + 1, !escaped);
        } else if !(s[i] == '"' && !escaped) {
            assert(backslashes_before(s, i + 1) == 0);
            lemma_closing_quote_from(s, i + 1, false);
        }
    }
}

/// A string ends at the first quotation mark with an even number of backslashes right before it,
/// and has no end where there is none.
pub proof fn strings_end_at_the_first_closing_mark(s: Seq<char>)
    ensures
        match closing_quote(s, 0, false) {
            Some(end) => closes(s, end) && forall|j: int| 0 <= j < end ==> !closes(s, j),
            None => forall|j: int| !closes(s, j),
        },
{
    lemma_closing_quote_from(s, 0, false);
}

/// A word of letters, digits and underscores that does not start with a digit and is no keyword is
/// read as a name, before a blank, before an operator or delimiter, and at the end of a text.
pub proof fn names_are_read(name: Seq<char>, rest: Seq<char>, p: PositionView)
    requires
        name.len() > 0,
        is_name(name),
        !is_digit(name[0]),
        !is_white_space(name[0]),
        row_spelled(keywords(), name, 0) is None,
        rest.len() > 0 ==> rest[0] == ' ' || rest[0] == '\t' || is_opdelim(rest[0]),
    ensures
        ({
            let read = peeled(name + rest, p);
            &&& read is Some
            &&& read->0.outcome == Ok::<TokenView, LexErrorView>(
                TokenView {
                    kind: TokenKindView::Identifier(ModuleScopedIdView::Unresolved(name)),
                    prov: p.provenance(grapheme_count(name) as int),
                },
            )
            &&& read->0.tail == non_empty(rest)
        }),
{
    let s = name + rest;
    let n = name.len() as int;
    assert(s[0] == name[0]);
    assert(is_letter_or_digit(name[0]) || name[0] == '_');
    lemma_no_white_space(s, p);
    assert(!starts_with_two(s, 'h', '\'') && !starts_with_two(s, 'b', '\'')) by {
        if n > 1 {
            assert(s[1] == name[1]);
        } else if rest.len() > 0 {
            assert(s[1] == rest[0]);
        }
    }
    assert(any_literal(s, p) == no_literal(p));
    assert forall|i: int| 0 <= i < n implies word_class()(#[trigger] s[i]) by {
        assert(s[i] == name[i]);
    }
    if rest.len() > 0 {
        assert(s[n] == rest[0]);
        assert(!word_class()(s[n]));
    } else {
        assert(s =~= name);
    }
    lemma_prefix_while_is(s, word_class(), n);
    assert(s.take(n) =~= name);
    assert(s.skip(n) =~= rest);
    lemma_drop_bytes_at(s, n);
}

/// Of the ASCII characters, names are made of the letters, the digits and the underscore.
pub proof fn ascii_names(s: Seq<char>)
    requires
        forall|i: int| 0 <= i < s.len() ==> is_ascii_char(#[trigger] s[i]),
    ensures
        is_name(s) <==> forall|i: int|
            0 <= i < s.len() ==> is_ascii_alphanumeric(#[trigger] s[i]) || s[i] == '_',
{
}

/// The start and the end of plain ASCII text are plain ASCII text, of as many bytes as characters.
pub proof fn lemma_ascii_parts(s: Seq<char>, k: int)
    requires
        ascii_text(s),
        0 <= k <= s.len(),
    ensures
        ascii_text(s.take(k)),
        ascii_text(s.skip(k)),
        byte_len(s) == s.len(),
        byte_len(s.take(k)) == k,
        grapheme_count(s) == s.len(),
        grapheme_count(s.take(k)) == k,
        grapheme_count(s.skip(k)) == s.len() - k,
        drop_bytes(s, k) == Some(s.skip(k)),
{
    assert forall|i: int| 0 <= i < s.skip(k).len() implies (#[trigger] s.skip(k)[i] as u32) < 0x7f
        && s.skip(k)[i] != '\r' by {
        assert(s.skip(k)[i] == s[k + i]);
    }
    assert forall|i: int| 0 <= i < s.take(k).len() implies (#[trigger] s.take(k)[i] as u32) < 0x7f
        && s.take(k)[i] != '\r' by {
        assert(s.take(k)[i] == s[i]);
    }
    lemma_ascii_count(s);
    lemma_ascii_count(s.take(k));
    lemma_ascii_count(s.skip(k));
    lemma_drop_bytes_at(s, k);
}

/// A literal, or the error in its place, takes up its size of the text, and the position moves by
/// as much.
spec fn to_scale(literal: LiteralView, p: PositionView) -> bool {
    &&& literal.pos == p.advanced(literal.consumed, literal.consumed)
    &&& match literal.outcome {
        Ok(Some(token)) => token.prov == p.provenance(literal.consumed),
        Ok(None) => true,
        Err(bad) => bad.prov == p.provenance(literal.consumed),
    }
}

proof fn lemma_ascii_literal(s: Seq<char>, p: PositionView)
    requires
        ascii_text(s),
        !is_no_literal(any_literal(s, p)),
    ensures
        0 <= any_literal(s, p).consumed <= s.len(),
        to_scale(any_literal(s, p), p),
{
    lemma_ascii_parts(s, 0);
    assert forall|i: int| 0 <= i < s.len() implies is_ascii_char(#[trigger] s[i]) by {
        assert((s[i] as u32) < 0x7f);
    }
    if !is_no_literal(byte_literal(s, p)) {
    } else if !is_no_literal(char_literal(s, p)) {
    } else if !is_no_literal(string_literal(s, p)) {
        let inner = s.skip(1);
        lemma_ascii_parts(s, 1);
        lemma_closing_quote_from(inner, 0, false);
        if let Some(end) = closing_quote(inner, 0, false) {
            lemma_ascii_parts(inner, end);
        }
    } else {
        let end = prefix_while(s, number_class()) as int;
        lemma_prefix_while(s, number_class());
        lemma_ascii_parts(s, end);
    }
}

/// The text that a token, or the error in its place, was read from.
pub open spec fn outcome_span(outcome: Result<TokenView, LexErrorView>) -> Option<ProvenanceView> {
    match outcome {
        Ok(token) => Some(token.prov),
        Err(error) => error.provenance(),
    }
}

/// A text without literal that reaches to its end as one word.
pub open spec fn is_last_word(s: Seq<char>, p: PositionView) -> bool {
    is_no_literal(any_literal(s, p)) && prefix_while(s, word_class()) == s.len()
}

/// The white space before a token, the token, and what is left of the text lie side by side: the
/// token starts where the white space ends, what is left starts where the token ends, and so does
/// the position. Only behind a word that ends the text the position is as far again.
pub open spec fn is_tiled(s: Seq<char>, p: PositionView, read: PeeledView) -> bool {
    let t = trim_start(s);
    let blank = s.len() - t.len();
    let start = p.advanced(blank, blank);
    &&& outcome_span(read.outcome) matches Some(prov) && {
        let size = prov.size;
        &&& 0 <= size <= t.len()
        &&& prov == start.provenance(size)
        &&& read.tail == non_empty(t.skip(size))
        &&& read.pos == if is_last_word(t, start) {
            start.advanced(2 * size, 2 * size)
        } else {
            start.advanced(size, size)
        }
    }
}

/// In plain ASCII text every token lies side by side with the white space before it and with what
/// is left of the text, unless it is the use of a macro, whose `$` does not count.
pub proof fn ascii_text_is_tiled(s: Seq<char>, p: PositionView)
    requires
        ascii_text(s),
        trim_start(s).len() > 0 ==> trim_start(s)[0] != '$',
    ensures
        peeled(s, p) is Some,
        is_tiled(s, p, peeled(s, p)->0),
{
    let t = trim_start(s);
    let blank = leading_white_space(s) as int;
    lemma_prefix_while(s, white_space_class());
    lemma_ascii_parts(s, blank);
    let start = p.advanced(blank, blank);
    assert(byte_len(t) == t.len()) by {
        lemma_ascii_count(t);
    }
    assert(past_white_space(s, p) == start);
    let literal = any_literal(t, start);
    if !is_no_literal(literal) {
        lemma_ascii_literal(t, start);
        lemma_ascii_parts(t, literal.consumed);
    } else {
        lemma_ascii_word(t, start);
    }
}

proof fn lemma_ascii_word(t: Seq<char>, p: PositionView)
    requires
        ascii_text(t),
        is_no_literal(any_literal(t, p)),
        t.len() > 0 ==> t[0] != '$' && !is_white_space(t[0]),
    ensures
        word(t, p) is Some,
        ({
            let read = word(t, p)->0;
            &&& outcome_span(read.outcome) matches Some(prov) && {
                let size = prov.size;
                &&& 0 <= size <= t.len()
                &&& prov == p.provenance(size)
                &&& read.tail == non_empty(t.skip(size))
                &&& read.pos == if is_last_word(t, p) {
                    p.advanced(2 * size, 2 * size)
                } else {
                    p.advanced(size, size)
                }
            }
        }),
{
    let end = prefix_while(t, word_class()) as int;
    lemma_prefix_while(t, word_class());
    lemma_ascii_parts(t, end);
    let head = t.take(end);
    assert(end == t.len() ==> head =~= t);
    if end < t.len() && is_opdelim(t[end]) && end == 0 {
        reveal_spellings();
        if row_prefixing(delims(), t, 0) is Some {
            let j = lemma_row_prefixing(delims(), t, 0);
        } else if row_prefixing(ops(), t, 0) is Some {
            let j = lemma_row_prefixing(ops(), t, 0);
        }
    } else {
        if end > 0 {
            assert(head[0] == t[0]);
            assert(word_class()(t[0]));
        }
        assert(end < t.len() ==> non_empty(t.skip(end)) == Some(t.skip(end)));
        assert(tokenized(head, p).size == end);
        assert(outcome_span(tokenized(head, p).outcome) == Some(p.provenance(end)));
    }
}

} // verus!
