//! Numbers in text: decimal and hexadecimal digits, integers, floating-point literals.
use crate::text::{
    chars_of, digit, digit_class, is_digit, lemma_prefix_while, lemma_prefix_while_is, prefix_while,
};
use vstd::prelude::*;
use vstd::string::*;

verus! {

/// The value of a decimal digit.
pub open spec fn digit_value(c: char) -> int {
    c as int - '0' as int
}

/// `s` is made of one or more decimal digits.
pub open spec fn all_digits(s: Seq<char>) -> bool {
    s.len() > 0 && forall|i: int| 0 <= i < s.len() ==> is_digit(#[trigger] s[i])
}

/// The number that the decimal digits of `s` stand for, the most significant one first.
pub open spec fn decimal_value(s: Seq<char>) -> int
    decreases s.len(),
{
    if s.len() == 0 {
        0
    } else {
        10 * decimal_value(s.drop_last()) + digit_value(s.last())
    }
}

/// The value of an unsigned decimal integer that fits `i64`.
pub open spec fn int_literal(s: Seq<char>) -> Option<int> {
    if all_digits(s) && decimal_value(s) <= i64::MAX {
        Some(decimal_value(s))
    } else {
        None
    }
}

/// The value of a hexadecimal digit of either case.
pub open spec fn hex_digit(c: char) -> Option<int> {
    if '0' <= c <= '9' {
        Some(c as int - '0' as int)
    } else if 'a' <= c <= 'f' {
        Some(c as int - 'a' as int + 10)
    } else if 'A' <= c <= 'F' {
        Some(c as int - 'A' as int + 10)
    } else {
        None
    }
}

/// The value of two characters read as a hexadecimal number. The first one may be a plus sign.
pub open spec fn hex_pair(a: char, b: char) -> Option<int> {
    match (hex_digit(a), hex_digit(b)) {
        (Some(x), Some(y)) => Some(16 * x + y),
        (None, Some(y)) => if a == '+' {
            Some(y)
        } else {
            None
        },
        _ => None,
    }
}

/// `s` without the digits that it starts with.
pub open spec fn skip_digits(s: Seq<char>) -> Seq<char> {
    s.skip(prefix_while(s, digit_class()) as int)
}

/// Nothing, or the letter `e` in either case, an optional sign and one or more digits.
pub open spec fn exponent_text(s: Seq<char>) -> bool {
    s.len() == 0 || {
        &&& s[0] == 'e' || s[0] == 'E'
        &&& if s.len() > 1 && (s[1] == '+' || s[1] == '-') {
            all_digits(s.skip(2))
        } else {
            all_digits(s.skip(1))
        }
    }
}

/// What may follow the integral digits of a floating-point literal: an optional point with
/// optional digits behind it, and an optional exponent.
pub open spec fn fraction_text(s: Seq<char>) -> bool {
    if s.len() > 0 && s[0] == '.' {
        exponent_text(skip_digits(s.skip(1)))
    } else {
        exponent_text(s)
    }
}

/// A decimal floating-point literal that starts with a digit.
pub open spec fn float_literal(s: Seq<char>) -> bool {
    s.len() > 0 && is_digit(s[0]) && fraction_text(skip_digits(s))
}

/// The decimal digits of `n`, without leading zeros.
pub open spec fn decimal(n: nat) -> Seq<char>
    decreases n,
{
    if n < 10 {
        seq![('0' as u32 + n) as char]
    } else {
        decimal(n / 10).push(('0' as u32 + n % 10) as char)
    }
}

proof fn lemma_decimal_value_bounds(s: Seq<char>, k: int)
    requires
        0 <= k <= s.len(),
        forall|i: int| 0 <= i < s.len() ==> is_digit(#[trigger] s[i]),
    ensures
        0 <= decimal_value(s.take(k)) <= decimal_value(s),
    decreases s.len(),
{
    if k == s.len() {
        assert(s.take(k) =~= s);
        if k > 0 {
            lemma_decimal_value_bounds(s.drop_last(), k - 1);
            assert(s.drop_last().take(k - 1) =~= s.drop_last());
            assert(is_digit(s[k - 1]));
        }
    } else {
        lemma_decimal_value_bounds(s.drop_last(), k);
        assert(s.drop_last().take(k) =~= s.take(k));
        assert(is_digit(s[s.len() - 1]));
    }
}

/// Reads a decimal integer, as `str::parse::<i64>` reads a text that starts with a digit.
pub fn parse_int(s: &str) -> (r: Option<i64>)
    ensures
        r is Some <==> int_literal(s@) is Some,
        r matches Some(v) ==> int_literal(s@) == Some(v as int),
{
    let cs = chars_of(s);
    if cs.len() == 0 {
        return None;
    }
    let mut k: usize = 0;
    while k < cs.len()
        invariant
            k <= cs.len(),
            cs@ == s@,
            forall|j: int| 0 <= j < k ==> is_digit(#[trigger] cs@[j]),
        decreases cs.len() - k,
    {
        if !digit(cs[k]) {
            assert(!is_digit(s@[k as int]));
            return None;
        }
        k += 1;
    }
    let mut v: i64 = 0;
    let mut i: usize = 0;
    while i < cs.len()
        invariant
            i <= cs.len(),
            cs@ == s@,
            cs.len() > 0,
            forall|j: int| 0 <= j < cs.len() ==> is_digit(#[trigger] cs@[j]),
            v == decimal_value(cs@.take(i as int)),
            0 <= v,
        decreases cs.len() - i,
    {
        let d: i64 = (cs[i] as u32 - '0' as u32) as i64;
        proof {
            assert(cs@.take(i + 1).drop_last() =~= cs@.take(i as int));
            lemma_decimal_value_bounds(cs@, i + 1);
            assert(is_digit(cs@[i as int]));
        }
        if v > 922337203685477580 || (v == 922337203685477580 && d > 7) {
            assert(decimal_value(s@) > i64::MAX);
            return None;
        }
        v = v * 10 + d;
        i += 1;
    }
    assert(cs@.take(i as int) =~= s@);
    Some(v)
}

/// The value of a hexadecimal digit.
pub fn parse_hex_digit(c: char) -> (r: Option<u8>)
    ensures
        r is Some <==> hex_digit(c) is Some,
        r matches Some(v) ==> hex_digit(c) == Some(v as int) && v < 16,
{
    if '0' <= c && c <= '9' {
        Some((c as u32 - '0' as u32) as u8)
    } else if 'a' <= c && c <= 'f' {
        Some((c as u32 - 'a' as u32 + 10) as u8)
    } else if 'A' <= c && c <= 'F' {
        Some((c as u32 - 'A' as u32 + 10) as u8)
    } else {
        None
    }
}

/// Reads two characters as `u8::from_str_radix` does with base 16.
pub fn parse_hex_pair(a: char, b: char) -> (r: Option<u8>)
    ensures
        r is Some <==> hex_pair(a, b) is Some,
        r matches Some(v) ==> hex_pair(a, b) == Some(v as int),
{
    match parse_hex_digit(b) {
        None => None,
        Some(y) => match parse_hex_digit(a) {
            Some(x) => Some(16 * x + y),
            None => if a == '+' {
                Some(y)
            } else {
                None
            },
        },
    }
}

/// The first index from `from` on that holds no digit.
fn digits_end(cs: &Vec<char>, from: usize) -> (r: usize)
    requires
        from <= cs.len(),
    ensures
        from <= r <= cs.len(),
        r - from == prefix_while(cs@.skip(from as int), digit_class()),
        skip_digits(cs@.skip(from as int)) == cs@.skip(r as int),
{
    let mut k: usize = from;
    while k < cs.len() && digit(cs[k])
        invariant
            from <= k <= cs.len(),
            forall|j: int| from <= j < k ==> is_digit(#[trigger] cs@[j]),
        decreases cs.len() - k,
    {
        k += 1;
    }
    proof {
        let t = cs@.skip(from as int);
        assert forall|j: int| 0 <= j < k - from implies digit_class()(#[trigger] t[j]) by {
            assert(t[j] == cs@[from + j]);
        }
        lemma_prefix_while_is(t, digit_class(), k - from);
        assert(t.skip(k - from) =~= cs@.skip(k as int));
    }
    k
}

/// Tells whether the characters from `from` on are one or more digits.
fn digits_to_end(cs: &Vec<char>, from: usize) -> (r: bool)
    requires
        from <= cs.len(),
    ensures
        r == all_digits(cs@.skip(from as int)),
{
    let end = digits_end(cs, from);
    proof {
        let t = cs@.skip(from as int);
        lemma_prefix_while(t, digit_class());
        if end < cs.len() {
            assert(!digit_class()(t[end - from]));
        } else {
            assert forall|j: int| 0 <= j < t.len() implies is_digit(#[trigger] t[j]) by {
                assert(digit_class()(t[j]));
            }
        }
    }
    from < cs.len() && end == cs.len()
}

/// Tells whether `s`, a text that starts with a digit, is one that `str::parse::<f64>` accepts.
pub fn is_float(s: &str) -> (r: bool)
    ensures
        r == float_literal(s@),
{
    let cs = chars_of(s);
    if cs.len() == 0 || !digit(cs[0]) {
        return false;
    }
    assert(cs@.skip(0) =~= cs@);
    let a = digits_end(&cs, 0);
    let b = if a < cs.len() && cs[a] == '.' {
        assert(cs@.skip(a as int)[0] == cs@[a as int]);
        assert(cs@.skip(a as int).skip(1) =~= cs@.skip(a + 1));
        digits_end(&cs, a + 1)
    } else {
        assert(a < cs.len() ==> cs@.skip(a as int)[0] == cs@[a as int]);
        a
    };
    if b == cs.len() {
        return true;
    }
    assert(cs@.skip(b as int)[0] == cs@[b as int]);
    if cs[b] != 'e' && cs[b] != 'E' {
        return false;
    }
    assert(cs@.skip(b as int).skip(1) =~= cs@.skip(b + 1));
    if b + 1 < cs.len() && (cs[b + 1] == '+' || cs[b + 1] == '-') {
        assert(cs@.skip(b as int).skip(2) =~= cs@.skip(b + 2));
        assert(cs@.skip(b as int)[1] == cs@[b + 1]);
        digits_to_end(&cs, b + 2)
    } else {
        assert(b + 1 < cs.len() ==> cs@.skip(b as int)[1] == cs@[b + 1]);
        digits_to_end(&cs, b + 1)
    }
}

fn digit_text(d: usize) -> (r: &'static str)
    requires
        d < 10,
    ensures
        r@ == seq![('0' as u32 + d) as char],
{
    proof {
        reveal_strlit("0");
        reveal_strlit("1");
        reveal_strlit("2");
        reveal_strlit("3");
        reveal_strlit("4");
        reveal_strlit("5");
        reveal_strlit("6");
        reveal_strlit("7");
        reveal_strlit("8");
        reveal_strlit("9");
    }
    let r = if d == 0 {
        "0"
    } else if d == 1 {
        "1"
    } else if d == 2 {
        "2"
    } else if d == 3 {
        "3"
    } else if d == 4 {
        "4"
    } else if d == 5 {
        "5"
    } else if d == 6 {
        "6"
    } else if d == 7 {
        "7"
    } else if d == 8 {
        "8"
    } else {
        "9"
    };
    assert(r@ =~= seq![('0' as u32 + d) as char]);
    r
}

/// The decimal digits of `n`.
pub fn decimal_text(n: usize) -> (r: String)
    ensures
        r@ == decimal(n as nat),
    decreases n,
{
    if n < 10 {
        digit_text(n).to_owned()
    } else {
        let mut r = decimal_text(n / 10);
        let ghost head = r@;
        r.append(digit_text(n % 10));
        assert(r@ =~= head.push(('0' as u32 + n % 10) as char));
        r
    }
}

} // verus!
