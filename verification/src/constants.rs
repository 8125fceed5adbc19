//! What each literal is read as, whatever follows it.
use crate::graphemes::{clusters, grapheme_count};
use crate::lex_error::{LexErrorView, SpannedView};
use crate::literal::{
    any_literal, byte_literal, byte_offense, char_literal, closing_quote, is_opdelim, number_class,
    number_literal, string_literal,
};
use crate::numbers::{
    all_digits, decimal, decimal_value, exponent_text, float_literal, hex_digit, hex_pair,
    int_literal, skip_digits,
};
use crate::position::PositionView;
use crate::reading::{
    backslashes_before, closes, lemma_closing_quote_from, lemma_decimal, lemma_no_white_space,
};
use crate::spelling::{is_ascii_blank, moved, reads, stretch};
use crate::text::{
    byte_len, char_width, digit_class, drop_bytes, is_digit, lemma_byte_len_add,
    lemma_byte_len_bounds, lemma_byte_len_first, lemma_byte_len_split, lemma_drop_bytes_at,
    lemma_prefix_while, lemma_prefix_while_is, lemma_whole_characters, prefix_while,
    whole_characters,
};
use crate::tokens::{LiteralKindView, TokenKindView, TokenView};
use vstd::prelude::*;

verus! {

/// `s` starts with a literal of the kind `kind`, of `bytes` bytes and `size` clusters.
pub open spec fn reads_literal(
    s: Seq<char>,
    p: PositionView,
    kind: LiteralKindView,
    bytes: int,
    size: int,
    rest: Seq<char>,
) -> bool {
    reads(
        s,
        p,
        Ok(TokenView { kind: TokenKindView::Literal(kind), prov: stretch(p, size) }),
        rest,
        moved(p, bytes, size),
    )
}

/// `s` starts with the malformed literal `bad`, said to be of `size` clusters. The position moves
/// by `bytes` and `graphemes`.
pub open spec fn refuses_literal(
    s: Seq<char>,
    p: PositionView,
    bad: Seq<char>,
    size: int,
    bytes: int,
    graphemes: int,
    rest: Seq<char>,
) -> bool {
    reads(
        s,
        p,
        Err(LexErrorView::BadLiteral(SpannedView { bad, prov: stretch(p, size) })),
        rest,
        moved(p, bytes, graphemes),
    )
}

/// `c` is the hexadecimal digit of the value `v`, in either case.
pub open spec fn is_nibble(c: char, v: int) -> bool {
    ||| 0 <= v < 10 && c as int == '0' as int + v
    ||| 10 <= v < 16 && c as int == 'a' as int + v - 10
    ||| 10 <= v < 16 && c as int == 'A' as int + v - 10
}

proof fn lemma_hex_digit(c: char)
    ensures
        match hex_digit(c) {
            Some(v) => is_nibble(c, v),
            None => forall|v: int| !is_nibble(c, v),
        },
        forall|v: int| is_nibble(c, v) ==> hex_digit(c) == Some(v),
{
}

/// ASCII characters, and the text behind them, at the start of a text.
proof fn lemma_ascii_start(a: Seq<char>, rest: Seq<char>)
    requires
        ascii_bytes(a),
    ensures
        byte_len(a) == a.len(),
        byte_len(a + rest) == a.len() + byte_len(rest),
        (a + rest).take(a.len() as int) == a,
        (a + rest).skip(a.len() as int) == rest,
        drop_bytes(a + rest, a.len() as int) == Some(rest),
    decreases a.len(),
{
    let s = a + rest;
    let n = a.len() as int;
    lemma_ascii_bytes(a);
    lemma_byte_len_add(a, rest);
    assert(s.take(n) =~= a);
    assert(s.skip(n) =~= rest);
    lemma_drop_bytes_at(s, n);
}

/// `a` is made of ASCII characters.
spec fn ascii_bytes(a: Seq<char>) -> bool {
    forall|i: int| 0 <= i < a.len() ==> (#[trigger] a[i] as u32) < 0x80
}

proof fn lemma_ascii_bytes(a: Seq<char>)
    requires
        ascii_bytes(a),
    ensures
        byte_len(a) == a.len(),
    decreases a.len(),
{
    if a.len() > 0 {
        lemma_byte_len_first(a);
        assert((a[0] as u32) < 0x80);
        assert forall|i: int| 0 <= i < a.skip(1).len() implies (#[trigger] a.skip(1)[i] as u32)
            < 0x80 by {
            assert(a.skip(1)[i] == a[i + 1]);
        }
        lemma_ascii_bytes(a.skip(1));
    }
}

/// `h'` and two hexadecimal digits is the byte of that value. A plus sign may stand in place of
/// the first digit.
pub proof fn hexadecimal_bytes_are_read(
    a: char,
    b: char,
    x: int,
    y: int,
    rest: Seq<char>,
    p: PositionView,
)
    requires
        is_nibble(a, x) || a == '+' && x == 0,
        is_nibble(b, y),
    ensures
        reads_literal(
            seq!['h', '\'', a, b] + rest,
            p,
            LiteralKindView::Byte(16 * x + y),
            4,
            4,
            rest,
        ),
{
    let head = seq!['h', '\'', a, b];
    let s = head + rest;
    lemma_hex_digit(a);
    lemma_hex_digit(b);
    lemma_ascii_start(head, rest);
    lemma_no_white_space(s, p);
    assert(any_literal(s, p) == byte_literal(s, p));
}

/// `c` is a hexadecimal digit.
pub open spec fn is_hexadecimal(c: char) -> bool {
    '0' <= c <= '9' || 'a' <= c <= 'f' || 'A' <= c <= 'F'
}

/// `h'` and two other ASCII characters is malformed.
pub proof fn other_bytes_are_refused(a: char, b: char, rest: Seq<char>, p: PositionView)
    requires
        (a as u32) < 0x80 && (b as u32) < 0x80,
        !is_hexadecimal(b) || !is_hexadecimal(a) && a != '+',
    ensures
        refuses_literal(
            seq!['h', '\'', a, b] + rest,
            p,
            seq!['h', '\'', a, b],
            4,
            4,
            4,
            rest,
        ),
{
    let head = seq!['h', '\'', a, b];
    let s = head + rest;
    lemma_ascii_start(head, rest);
    lemma_no_white_space(s, p);
    assert(hex_pair(a, b) is None);
    assert(s.take(4) =~= head);
    assert(any_literal(s, p) == byte_literal(s, p));
}

/// `h'` at the end of a text, and before its last byte, is malformed.
pub proof fn short_bytes_are_refused(t: Seq<char>, p: PositionView)
    requires
        t.len() == 0 || t.len() == 1 && (t[0] as u32) < 0x80,
    ensures
        ({
            let s = seq!['h', '\''] + t;
            let n = s.len() as int;
            refuses_literal(s, p, s, n, n, grapheme_count(s) as int, Seq::empty())
        }),
{
    let s = seq!['h', '\''] + t;
    assert(s + Seq::<char>::empty() =~= s);
    lemma_ascii_start(s, Seq::empty());
    lemma_no_white_space(s, p);
    assert(any_literal(s, p) == byte_literal(s, p));
}

/// The cluster of `s` at `i`, if there are so many.
pub open spec fn cluster_at(s: Seq<char>, i: int) -> Seq<char> {
    if i < clusters(s).len() {
        clusters(s)[i]
    } else {
        Seq::empty()
    }
}

/// `k` characters of `s` are the fewest that have at least `n` bytes, or all there are.
pub open spec fn is_first_cut(s: Seq<char>, n: int, k: int) -> bool {
    &&& 0 <= k <= s.len()
    &&& byte_len(s.take(k)) >= n || k == s.len()
    &&& k > 0 ==> byte_len(s.take(k - 1)) < n
}

proof fn lemma_first_cut(s: Seq<char>, n: int, k: int)
    requires
        0 <= n,
        is_first_cut(s, n, k),
    ensures
        whole_characters(s, n) == byte_len(s.take(k)),
{
    let j = lemma_whole_characters(s, n);
    lemma_byte_len_split(s, k);
    lemma_byte_len_split(s, j);
    assert(s.take(s.len() as int) =~= s);
    if j < k {
        lemma_byte_len_split(s.take(k - 1), j);
        assert(s.take(k - 1).take(j) =~= s.take(j));
        lemma_byte_len_split(s, k - 1);
    } else if k < j {
        lemma_longer_take(s, n, k);
    }
}

/// No more whole characters than are needed are taken.
proof fn lemma_longer_take(s: Seq<char>, n: int, k: int)
    requires
        0 <= k <= s.len(),
        0 <= n <= byte_len(s.take(k)),
        k > 0 ==> byte_len(s.take(k - 1)) < n,
    ensures
        whole_characters(s, n) == byte_len(s.take(k)),
    decreases k,
{
    if k > 0 {
        lemma_byte_len_first(s.take(k));
        assert(s.take(k)[0] == s[0]);
        assert(s.take(k).skip(1) =~= s.skip(1).take(k - 1));
        let w = char_width(s[0]) as int;
        if k > 1 {
            lemma_byte_len_first(s.take(k - 1));
            assert(s.take(k - 1)[0] == s[0]);
            assert(s.take(k - 1).skip(1) =~= s.skip(1).take(k - 2));
            lemma_longer_take(s.skip(1), n - w, k - 1);
        } else {
            assert(s.skip(1).take(0) =~= Seq::empty());
            assert(byte_len(s.take(0)) == 0) by {
                assert(s.take(0) =~= Seq::empty());
            }
            assert(whole_characters(s.skip(1), n - w) == 0);
        }
    } else {
        assert(s.take(0) =~= Seq::empty());
    }
}

/// `h'` before two bytes that are not both ASCII is malformed. What is reported is `h'` and the
/// first two clusters of the whole text, and as many bytes are taken up, with the rest of a
/// character that would be cut apart.
pub proof fn bytes_beyond_ascii_are_refused(t: Seq<char>, k: int, p: PositionView)
    requires
        t.len() > 0,
        t[0] as u32 >= 0x80 || t.len() > 1 && t[1] as u32 >= 0x80,
        ({
            let s = seq!['h', '\''] + t;
            let bad = seq!['h', '\''] + cluster_at(s, 0) + cluster_at(s, 1);
            is_first_cut(s, byte_len(bad) as int, k)
        }),
    ensures
        ({
            let s = seq!['h', '\''] + t;
            let bad = seq!['h', '\''] + cluster_at(s, 0) + cluster_at(s, 1);
            let size = grapheme_count(bad) as int;
            refuses_literal(s, p, bad, size, byte_len(s.take(k)) as int, size, s.skip(k))
        }),
{
    let s = seq!['h', '\''] + t;
    let bad = seq!['h', '\''] + cluster_at(s, 0) + cluster_at(s, 1);
    lemma_no_white_space(s, p);
    lemma_ascii_start(seq!['h', '\''], t);
    lemma_byte_len_first(t);
    lemma_byte_len_bounds(t);
    if t.len() > 1 {
        lemma_byte_len_first(t.skip(1));
        assert(t.skip(1)[0] == t[1]);
        assert(s[3] == t[1]);
    }
    assert(s[2] == t[0]);
    assert(s.take(2) =~= seq!['h', '\'']);
    assert(byte_offense(s) =~= bad);
    assert(any_literal(s, p) == byte_literal(s, p));
    lemma_first_cut(s, byte_len(bad) as int, k);
    lemma_drop_bytes_at(s, k);
}

/// `b'` and an ASCII character is the byte of that character, and `'` and an ASCII character is
/// that character.
pub proof fn ascii_characters_are_read(c: char, rest: Seq<char>, p: PositionView)
    requires
        (c as u32) < 0x80,
    ensures
        reads_literal(
            seq!['b', '\'', c] + rest,
            p,
            LiteralKindView::Byte(c as int),
            3,
            3,
            rest,
        ),
        reads_literal(seq!['\'', c] + rest, p, LiteralKindView::Char(c as int), 2, 2, rest),
{
    let b = seq!['b', '\'', c];
    let q = seq!['\'', c];
    lemma_ascii_start(b, rest);
    lemma_ascii_start(q, rest);
    lemma_no_white_space(b + rest, p);
    lemma_no_white_space(q + rest, p);
    assert(any_literal(b + rest, p) == char_literal(b + rest, p));
    assert(any_literal(q + rest, p) == char_literal(q + rest, p));
}

/// `b'` and `'` at the end of a text are malformed.
pub proof fn marks_alone_are_refused(p: PositionView)
    ensures
        refuses_literal(seq!['b', '\''], p, seq!['b', '\''], 2, 2, 2, Seq::empty()),
        refuses_literal(seq!['\''], p, seq!['\''], 1, 1, 1, Seq::empty()),
        refuses_literal(seq!['"'], p, seq!['"'], 1, 1, 1, Seq::empty()),
{
    let none = Seq::<char>::empty();
    let b = seq!['b', '\''];
    let q = seq!['\''];
    let d = seq!['"'];
    lemma_ascii_start(b, none);
    lemma_ascii_start(q, none);
    lemma_ascii_start(d, none);
    assert(b + none =~= b && q + none =~= q && d + none =~= d);
    lemma_no_white_space(b, p);
    lemma_no_white_space(q, p);
    lemma_no_white_space(d, p);
    assert(any_literal(b, p) == char_literal(b, p));
    assert(any_literal(q, p) == char_literal(q, p));
    assert(any_literal(d, p) == string_literal(d, p));
}

/// `b'` and `'` before a character that is not ASCII are malformed, with the cluster that it
/// starts.
pub proof fn characters_beyond_ascii_are_refused(k: int, t: Seq<char>, p: PositionView)
    requires
        t.len() > 0,
        t[0] as u32 >= 0x80,
        0 <= k <= t.len(),
        cluster_at(t, 0) == t.take(k),
    ensures
        refuses_literal(
            seq!['b', '\''] + t,
            p,
            seq!['b', '\''] + t.take(k),
            3,
            2 + byte_len(t.take(k)) as int,
            3,
            t.skip(k),
        ),
        refuses_literal(
            seq!['\''] + t,
            p,
            seq!['\''] + t.take(k),
            2,
            1 + byte_len(t.take(k)) as int,
            2,
            t.skip(k),
        ),
{
    let b = seq!['b', '\''];
    let q = seq!['\''];
    lemma_ascii_start(b, t);
    lemma_ascii_start(q, t);
    lemma_byte_len_bounds(t);
    lemma_byte_len_first(t);
    lemma_no_white_space(b + t, p);
    lemma_no_white_space(q + t, p);
    assert((b + t)[2] == t[0]);
    assert((q + t)[1] == t[0]);
    assert((b + t).take(2) =~= b);
    assert((q + t).take(1) =~= q);
    assert(any_literal(b + t, p) == char_literal(b + t, p));
    assert(any_literal(q + t, p) == char_literal(q + t, p));
    assert((b + t).take(2 + k) =~= b + t.take(k));
    assert((q + t).take(1 + k) =~= q + t.take(k));
    lemma_byte_len_add(b, t.take(k));
    lemma_byte_len_add(q, t.take(k));
    lemma_drop_bytes_at(b + t, 2 + k);
    lemma_drop_bytes_at(q + t, 1 + k);
    assert((b + t).skip(2 + k) =~= t.skip(k));
    assert((q + t).skip(1 + k) =~= t.skip(k));
}

/// A text between quotation marks, the second of which is the first that no backslash escapes, is
/// read as the string that it is, with its escapes as they stand, whatever follows it.
pub proof fn quoted_texts_are_read(body: Seq<char>, rest: Seq<char>, p: PositionView)
    requires
        closes(body + seq!['"'], body.len() as int),
        forall|i: int| 0 <= i < body.len() ==> !closes(body, i),
    ensures
        reads_literal(
            seq!['"'] + body + seq!['"'] + rest,
            p,
            LiteralKindView::String(body),
            2 + byte_len(body) as int,
            2 + grapheme_count(body) as int,
            rest,
        ),
{
    let s = seq!['"'] + body + seq!['"'] + rest;
    let inner = s.skip(1);
    let n = body.len() as int;
    lemma_no_white_space(s, p);
    lemma_closing_quote_from(inner, 0, false);
    assert forall|i: int| 0 <= i <= n implies backslashes_before(inner, i) == backslashes_before(
        body,
        i,
    ) && backslashes_before(inner, i) == backslashes_before(body + seq!['"'], i) by {
        lemma_backslashes(body, seq!['"'] + rest, inner, i);
        lemma_backslashes(body, seq!['"'], body + seq!['"'], i);
    }
    assert(inner[n] == '"');
    assert(closes(inner, n));
    assert forall|i: int| 0 <= i < n implies !closes(inner, i) by {
        assert(inner[i] == body[i]);
        assert(!closes(body, i));
    }
    assert(closing_quote(inner, 0, false) == Some(n));
    assert(inner.take(n) =~= body);
    lemma_byte_len_bounds(s);
    assert(any_literal(s, p) == string_literal(s, p));
    assert(s.take(n + 2) =~= seq!['"'] + body + seq!['"']);
    lemma_byte_len_add(seq!['"'] + body, seq!['"']);
    lemma_byte_len_add(seq!['"'], body);
    lemma_ascii_bytes(seq!['"']);
    lemma_drop_bytes_at(s, n + 2);
    assert(s.skip(n + 2) =~= rest);
}

proof fn lemma_backslashes(body: Seq<char>, more: Seq<char>, all: Seq<char>, i: int)
    requires
        all.len() >= body.len(),
        forall|j: int| 0 <= j < body.len() ==> #[trigger] all[j] == body[j],
        0 <= i <= body.len(),
    ensures
        backslashes_before(all, i) == backslashes_before(body, i),
    decreases i,
{
    if i > 0 {
        lemma_backslashes(body, more, all, i - 1);
        assert(all[i - 1] == body[i - 1]);
    }
}

/// A quotation mark that none closes makes all of the text a malformed literal.
pub proof fn unclosed_texts_are_refused(body: Seq<char>, p: PositionView)
    requires
        body.len() > 0,
        forall|i: int| 0 <= i < body.len() ==> !closes(body, i),
    ensures
        refuses_literal(
            seq!['"'] + body,
            p,
            seq!['"'] + body,
            1 + byte_len(body) as int,
            1 + byte_len(body) as int,
            1 + grapheme_count(body) as int,
            Seq::empty(),
        ),
{
    let s = seq!['"'] + body;
    assert(s.skip(1) =~= body);
    lemma_no_white_space(s, p);
    lemma_closing_quote_from(body, 0, false);
    lemma_ascii_start(seq!['"'], body);
    lemma_byte_len_bounds(body);
    assert(any_literal(s, p) == string_literal(s, p));
    lemma_drop_bytes_at(s, s.len() as int);
    assert(s.take(s.len() as int) =~= s);
    assert(s.skip(s.len() as int) =~= Seq::empty());
}

/// `d` is a number before `rest`: it starts with a digit, there is no white space, operator or
/// delimiter in it, and one of them, or nothing, follows it.
pub open spec fn is_number_before(d: Seq<char>, rest: Seq<char>) -> bool {
    &&& d.len() > 0 && '0' <= d[0] <= '9'
    &&& forall|i: int|
        0 <= i < d.len() ==> !is_ascii_blank(#[trigger] d[i]) && !is_opdelim(d[i])
    &&& rest.len() > 0 ==> is_ascii_blank(rest[0]) || is_opdelim(rest[0])
}

/// `d[from..to]` is made of decimal digits.
pub open spec fn digits_between(d: Seq<char>, from: int, to: int) -> bool {
    forall|i: int| from <= i < to ==> '0' <= #[trigger] d[i] <= '9'
}

/// The size of a number: in bytes where something follows it, and in clusters at the end of a text.
pub open spec fn number_size(d: Seq<char>, rest: Seq<char>) -> int {
    if rest.len() > 0 {
        byte_len(d) as int
    } else {
        grapheme_count(d) as int
    }
}

/// A number before `rest` is read as the literal `kind`.
pub open spec fn reads_number(
    d: Seq<char>,
    rest: Seq<char>,
    p: PositionView,
    kind: LiteralKindView,
) -> bool {
    reads(
        d + rest,
        p,
        Ok(
            TokenView {
                kind: TokenKindView::Literal(kind),
                prov: stretch(p, number_size(d, rest)),
            },
        ),
        rest,
        moved(p, byte_len(d) as int, grapheme_count(d) as int),
    )
}

/// A number before `rest` is malformed.
pub open spec fn refuses_number(d: Seq<char>, rest: Seq<char>, p: PositionView) -> bool {
    refuses_literal(
        d + rest,
        p,
        d,
        number_size(d, rest),
        byte_len(d) as int,
        grapheme_count(d) as int,
        rest,
    )
}

/// What is read of a number is told by the number alone.
proof fn lemma_number(d: Seq<char>, rest: Seq<char>, p: PositionView)
    requires
        is_number_before(d, rest),
    ensures
        d.contains('.') && float_literal(d) ==> reads_number(
            d,
            rest,
            p,
            LiteralKindView::Float(d),
        ),
        d.contains('.') && !float_literal(d) ==> refuses_number(d, rest, p),
        !d.contains('.') ==> match int_literal(d) {
            Some(value) => reads_number(d, rest, p, LiteralKindView::Int(value)),
            None => refuses_number(d, rest, p),
        },
{
    let s = d + rest;
    let n = d.len() as int;
    assert(s[0] == d[0]);
    lemma_no_white_space(s, p);
    assert forall|i: int| 0 <= i < n implies number_class()(#[trigger] s[i]) by {
        assert(s[i] == d[i]);
    }
    if rest.len() > 0 {
        assert(s[n] == rest[0]);
    }
    lemma_prefix_while_is(s, number_class(), n);
    assert(s.take(n) =~= d);
    assert(s.skip(n) =~= rest);
    lemma_drop_bytes_at(s, n);
    assert(any_literal(s, p) == number_literal(s, p));
}

/// Decimal digits, with any number of zeros before them, are the integer that they stand for,
/// where it fits, and malformed otherwise.
pub proof fn integers_are_read_in_full(zeros: nat, n: nat, rest: Seq<char>, p: PositionView)
    requires
        rest.len() > 0 ==> is_ascii_blank(rest[0]) || is_opdelim(rest[0]),
    ensures
        ({
            let d = Seq::new(zeros, |i: int| '0') + decimal(n);
            if n <= i64::MAX {
                reads_number(d, rest, p, LiteralKindView::Int(n as int))
            } else {
                refuses_number(d, rest, p)
            }
        }),
{
    let d = Seq::new(zeros, |i: int| '0') + decimal(n);
    lemma_decimal(n);
    lemma_leading_zeros(zeros, decimal(n));
    assert forall|i: int| 0 <= i < d.len() implies is_digit(#[trigger] d[i]) by {
        if i >= zeros {
            assert(d[i] == decimal(n)[i - zeros]);
        }
    }
    assert(all_digits(d));
    assert(!d.contains('.')) by {
        assert forall|i: int| 0 <= i < d.len() implies d[i] != '.' by {
            assert(is_digit(d[i]));
        }
    }
    assert(is_digit(d[0]));
    assert(is_number_before(d, rest)) by {
        assert forall|i: int| 0 <= i < d.len() implies !is_ascii_blank(#[trigger] d[i])
            && !is_opdelim(d[i]) by {
            assert(is_digit(d[i]));
        }
    }
    lemma_number(d, rest, p);
}

proof fn lemma_leading_zeros(zeros: nat, s: Seq<char>)
    ensures
        decimal_value(Seq::new(zeros, |i: int| '0') + s) == decimal_value(s),
    decreases s.len(), zeros,
{
    let z = Seq::new(zeros, |i: int| '0');
    if s.len() > 0 {
        lemma_leading_zeros(zeros, s.drop_last());
        assert((z + s).drop_last() =~= z + s.drop_last());
        assert((z + s).last() == s.last());
    } else if zeros > 0 {
        let fewer = Seq::new((zeros - 1) as nat, |i: int| '0');
        lemma_leading_zeros((zeros - 1) as nat, s);
        assert((z + s).drop_last() =~= fewer + s);
        assert((z + s).last() == '0');
    } else {
        assert(z + s =~= s);
    }
}

/// A number without a point that is not made of digits only is malformed.
pub proof fn other_integers_are_refused(d: Seq<char>, rest: Seq<char>, p: PositionView)
    requires
        is_number_before(d, rest),
        !d.contains('.'),
        !digits_between(d, 0, d.len() as int),
    ensures
        refuses_number(d, rest, p),
{
    lemma_number(d, rest, p);
    if all_digits(d) {
        assert forall|i: int| 0 <= i < d.len() implies '0' <= #[trigger] d[i] <= '9' by {
            assert(is_digit(d[i]));
        }
    }
}

/// `d` has a point at `i`, digits before it, digits up to `j` behind it, and nothing, or an `e` and
/// digits, from there on.
pub open spec fn is_float_at(d: Seq<char>, i: int, j: int) -> bool {
    &&& 0 < i < j <= d.len()
    &&& digits_between(d, 0, i)
    &&& d[i] == '.'
    &&& digits_between(d, i + 1, j)
    &&& j < d.len() ==> {
        &&& d[j] == 'e' || d[j] == 'E'
        &&& j + 1 < d.len()
        &&& digits_between(d, j + 1, d.len() as int)
    }
}

proof fn lemma_digits(d: Seq<char>, from: int, to: int)
    requires
        0 <= from <= to <= d.len(),
        digits_between(d, from, to),
        to < d.len() ==> !('0' <= d[to] <= '9'),
    ensures
        prefix_while(d.skip(from), digit_class()) == to - from,
        skip_digits(d.skip(from)) == d.skip(to),
{
    let t = d.skip(from);
    assert forall|i: int| 0 <= i < to - from implies digit_class()(#[trigger] t[i]) by {
        assert(t[i] == d[from + i]);
    }
    if to < d.len() {
        assert(t[to - from] == d[to]);
    }
    lemma_prefix_while_is(t, digit_class(), to - from);
    assert(t.skip(to - from) =~= d.skip(to));
}

/// A number with a point is the floating-point literal with exactly its text, where digits stand
/// before the point, and behind it digits, if anything, and an exponent without a sign, if
/// anything.
pub proof fn floats_are_read(d: Seq<char>, i: int, j: int, rest: Seq<char>, p: PositionView)
    requires
        is_number_before(d, rest),
        is_float_at(d, i, j),
    ensures
        reads_number(d, rest, p, LiteralKindView::Float(d)),
{
    lemma_number(d, rest, p);
    assert(d.contains('.')) by {
        assert(d[i] == '.');
    }
    assert(d.skip(0) =~= d);
    lemma_digits(d, 0, i);
    let frac = d.skip(i);
    assert(frac[0] == d[i]);
    assert(frac.skip(1) =~= d.skip(i + 1));
    lemma_digits(d, i + 1, j);
    let exp = d.skip(j);
    if j < d.len() {
        assert(exp[0] == d[j]);
        assert(exp[1] == d[j + 1]);
        assert('0' <= d[j + 1] <= '9');
        assert(exp.skip(1) =~= d.skip(j + 1));
        assert forall|k: int| 0 <= k < exp.skip(1).len() implies is_digit(
            #[trigger] exp.skip(1)[k],
        ) by {
            assert(exp.skip(1)[k] == d[j + 1 + k]);
        }
        assert(all_digits(exp.skip(1)));
    }
    assert(exponent_text(exp));
    assert(float_literal(d));
}

/// A number with a point of any other form is malformed.
pub proof fn other_floats_are_refused(d: Seq<char>, rest: Seq<char>, p: PositionView)
    requires
        is_number_before(d, rest),
        d.contains('.'),
        forall|i: int, j: int| !is_float_at(d, i, j),
    ensures
        refuses_number(d, rest, p),
{
    lemma_number(d, rest, p);
    if float_literal(d) {
        assert(d.skip(0) =~= d);
        let i = prefix_while(d, digit_class()) as int;
        lemma_prefix_while(d, digit_class());
        let frac = d.skip(i);
        assert(skip_digits(d) == frac);
        let at = choose|k: int| 0 <= k < d.len() && d[k] == '.';
        assert(d[at] == '.');
        assert(at >= i) by {
            if at < i {
                assert(digit_class()(d[at]));
            }
        }
        assert(i > 0) by {
            if i == 0 {
                assert(!digit_class()(d[0]));
            }
        }
        if frac.len() > 0 && frac[0] == '.' {
            let tail = frac.skip(1);
            assert(tail =~= d.skip(i + 1));
            let m = prefix_while(tail, digit_class()) as int;
            lemma_prefix_while(tail, digit_class());
            let j = i + 1 + m;
            let exp = tail.skip(m);
            assert(exp =~= d.skip(j));
            assert forall|k: int| 0 <= k < i implies '0' <= #[trigger] d[k] <= '9' by {
                assert(digit_class()(d[k]));
            }
            assert forall|k: int| i + 1 <= k < j implies '0' <= #[trigger] d[k] <= '9' by {
                assert(digit_class()(tail[k - i - 1]));
            }
            if j < d.len() {
                assert(exp[0] == d[j]);
                if exp.len() > 1 {
                    assert(exp[1] == d[j + 1]);
                    assert(!is_opdelim(d[j + 1]));
                }
                assert(all_digits(exp.skip(1)));
                assert forall|k: int| j + 1 <= k < d.len() implies '0' <= #[trigger] d[k]
                    <= '9' by {
                    assert(is_digit(exp.skip(1)[k - j - 1]));
                }
            }
            assert(is_float_at(d, i, j));
        } else {
            assert(exponent_text(frac));
            assert(frac.len() > 0);
            assert(frac[at - i] == '.');
            if frac.len() > 1 {
                assert(frac[1] == d[i + 1]);
                assert(!is_opdelim(d[i + 1]));
            }
            assert(all_digits(frac.skip(1)));
            assert(is_digit(frac.skip(1)[at - i - 1]));
        }
    }
}

/// The decimal digits of a number say how it is made up of tens: the digits of `10 * n + d` are
/// those of `n` and `d`, and there is no zero at the start of more than one digit.
pub proof fn decimal_digits(n: nat, d: nat)
    requires
        n > 0,
        d < 10,
    ensures
        decimal(10 * n + d) == decimal(n) + decimal(d),
        decimal(d).len() == 1,
        decimal(d)[0] as int == '0' as int + d,
        decimal(n)[0] != '0',
    decreases n,
{
    assert((10 * n + d) / 10 == n && (10 * n + d) % 10 == d);
    assert(decimal(10 * n + d) =~= decimal(n) + decimal(d));
    if n >= 10 {
        decimal_digits(n / 10, n % 10);
        lemma_decimal(n / 10);
        assert(decimal(n)[0] == decimal(n / 10)[0]);
    }
}

} // verus!
