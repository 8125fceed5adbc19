//! Text as sequences of characters: byte lengths, white space, slicing by bytes.
use vstd::prelude::*;
use vstd::string::*;
use vstd::utf8::{encode_scalar, encode_utf8};

verus! {

/// The length of `s` in bytes, encoded as UTF-8.
pub open spec fn byte_len(s: Seq<char>) -> nat {
    encode_utf8(s).len()
}

/// The length of one character in bytes, encoded as UTF-8.
pub open spec fn char_width(c: char) -> nat {
    if (c as u32) < 0x80 {
        1
    } else if (c as u32) < 0x800 {
        2
    } else if (c as u32) < 0x10000 {
        3
    } else {
        4
    }
}

/// A character that takes one byte.
pub open spec fn is_ascii_char(c: char) -> bool {
    (c as u32) < 0x80
}

pub proof fn lemma_char_width(c: char)
    ensures
        encode_scalar(c as u32).len() == char_width(c),
{
    vstd::utf8::char_is_scalar(c);
}

pub proof fn lemma_byte_len_first(s: Seq<char>)
    requires
        s.len() > 0,
    ensures
        byte_len(s) == char_width(s[0]) + byte_len(s.skip(1)),
{
    lemma_char_width(s[0]);
    assert(s.drop_first() =~= s.skip(1));
}

pub proof fn lemma_byte_len_add(a: Seq<char>, b: Seq<char>)
    ensures
        byte_len(a + b) == byte_len(a) + byte_len(b),
    decreases a.len(),
{
    if a.len() == 0 {
        assert(a + b =~= b);
    } else {
        lemma_byte_len_first(a);
        lemma_byte_len_first(a + b);
        assert((a + b).skip(1) =~= a.skip(1) + b);
        lemma_byte_len_add(a.skip(1), b);
    }
}

pub proof fn lemma_byte_len_split(s: Seq<char>, i: int)
    requires
        0 <= i <= s.len(),
    ensures
        byte_len(s) == byte_len(s.take(i)) + byte_len(s.skip(i)),
{
    lemma_byte_len_add(s.take(i), s.skip(i));
    assert(s.take(i) + s.skip(i) =~= s);
}

pub proof fn lemma_byte_len_bounds(s: Seq<char>)
    ensures
        s.len() <= byte_len(s) <= 4 * s.len(),
    decreases s.len(),
{
    if s.len() > 0 {
        lemma_byte_len_first(s);
        lemma_byte_len_bounds(s.skip(1));
    }
}

/// The characters of `s`.
pub fn chars_of(s: &str) -> (r: Vec<char>)
    ensures
        r@ == s@,
{
    let mut r: Vec<char> = Vec::new();
    for c in it: s.chars()
        invariant
            r@ == it.seq().take(it.index()),
            it.seq() == s@,
    {
        r.push(c);
    }
    assert(r@ =~= s@);
    r
}

/// The length of `s` in bytes.
pub fn len_bytes(s: &str) -> (n: usize)
    ensures
        n == byte_len(s@),
{
    s.as_bytes().len()
}

/// The number of elements at the start of `s` that satisfy `p` without a gap.
pub open spec fn prefix_while<T>(s: Seq<T>, p: spec_fn(T) -> bool) -> nat
    decreases s.len(),
{
    if s.len() > 0 && p(s[0]) {
        1 + prefix_while(s.skip(1), p)
    } else {
        0
    }
}

pub proof fn lemma_prefix_while<T>(s: Seq<T>, p: spec_fn(T) -> bool)
    ensures
        prefix_while(s, p) <= s.len(),
        forall|j: int| 0 <= j < prefix_while(s, p) ==> p(#[trigger] s[j]),
        prefix_while(s, p) < s.len() ==> !p(s[prefix_while(s, p) as int]),
    decreases s.len(),
{
    if s.len() > 0 && p(s[0]) {
        lemma_prefix_while(s.skip(1), p);
        let n = prefix_while(s.skip(1), p);
        assert forall|j: int| 0 <= j < n + 1 implies p(#[trigger] s[j]) by {
            if j > 0 {
                assert(s[j] == s.skip(1)[j - 1]);
            }
        }
    }
}

pub proof fn lemma_prefix_while_is<T>(s: Seq<T>, p: spec_fn(T) -> bool, k: int)
    requires
        0 <= k <= s.len(),
        forall|j: int| 0 <= j < k ==> p(#[trigger] s[j]),
        k < s.len() ==> !p(s[k]),
    ensures
        prefix_while(s, p) == k,
{
    lemma_prefix_while(s, p);
    let n = prefix_while(s, p) as int;
    if n < k {
        assert(p(s[n]));
    }
    if k < n {
        assert(p(s[k]));
    }
}

/// A character with Unicode's `White_Space` property.
pub open spec fn is_white_space(c: char) -> bool {
    let u = c as u32;
    ||| 0x9 <= u <= 0xd
    ||| u == 0x20
    ||| u == 0x85
    ||| u == 0xa0
    ||| u == 0x1680
    ||| 0x2000 <= u <= 0x200a
    ||| u == 0x2028
    ||| u == 0x2029
    ||| u == 0x202f
    ||| u == 0x205f
    ||| u == 0x3000
}

/// A letter or a digit of any script, as `char::is_alphanumeric` tells.
pub uninterp spec fn alphanumeric(c: char) -> bool;

/// A letter or a digit among the ASCII characters.
pub open spec fn is_ascii_alphanumeric(c: char) -> bool {
    'a' <= c <= 'z' || 'A' <= c <= 'Z' || '0' <= c <= '9'
}

/// A letter or a digit of any script.
pub open spec fn is_letter_or_digit(c: char) -> bool {
    if is_ascii_char(c) {
        is_ascii_alphanumeric(c)
    } else {
        alphanumeric(c)
    }
}

/// `char::is_alphanumeric`: whether a character has Unicode's `Alphabetic` property or belongs to
/// one of its number categories. Believed of it: the answer depends on the character alone, and of
/// the ASCII characters it is so of the letters and the digits.
pub assume_specification[ char::is_alphanumeric ](c: char) -> (r: bool)
    ensures
        r == alphanumeric(c),
        is_ascii_char(c) ==> r == is_ascii_alphanumeric(c),
;

/// An ASCII white-space character: a space, a tab, a line feed, a form feed or a carriage return.
pub open spec fn is_ascii_white_space(c: char) -> bool {
    c == ' ' || c == '\t' || c == '\n' || c == '\u{c}' || c == '\r'
}

pub open spec fn is_digit(c: char) -> bool {
    '0' <= c <= '9'
}

pub open spec fn white_space_class() -> spec_fn(char) -> bool {
    |c: char| is_white_space(c)
}

pub open spec fn digit_class() -> spec_fn(char) -> bool {
    |c: char| is_digit(c)
}

/// The number of white-space characters that `s` starts with.
pub open spec fn leading_white_space(s: Seq<char>) -> nat {
    prefix_while(s, white_space_class())
}

/// The number of white-space characters that `s` ends with.
pub open spec fn trailing_white_space(s: Seq<char>) -> nat {
    leading_white_space(s.reverse())
}

/// `s` without the white space that it starts with.
pub open spec fn trim_start(s: Seq<char>) -> Seq<char> {
    s.skip(leading_white_space(s) as int)
}

/// `s` without the white space that it ends with.
pub open spec fn trim_end(s: Seq<char>) -> Seq<char> {
    s.take(s.len() - trailing_white_space(s))
}

/// What follows the first `n` bytes of `s`. There is none where `s` is shorter than that, or
/// where the cut would fall inside a character.
pub open spec fn drop_bytes(s: Seq<char>, n: int) -> Option<Seq<char>>
    decreases s.len(),
{
    if n == 0 {
        Some(s)
    } else if n < 0 || s.len() == 0 {
        None
    } else {
        drop_bytes(s.skip(1), n - char_width(s[0]))
    }
}

/// The bytes of the characters of `s` that start within its first `n` bytes: `n`, or as much more
/// as the last of these characters reaches beyond, but no more than there are.
pub open spec fn whole_characters(s: Seq<char>, n: int) -> int
    decreases s.len(),
{
    if n <= 0 || s.len() == 0 {
        0
    } else {
        char_width(s[0]) + whole_characters(s.skip(1), n - char_width(s[0]))
    }
}

/// Where a text can be cut, whole characters end. Elsewhere they reach to the next cut, or to the
/// end of the text.
pub proof fn lemma_whole_characters(s: Seq<char>, n: int) -> (k: int)
    requires
        0 <= n,
    ensures
        0 <= k <= s.len(),
        whole_characters(s, n) == byte_len(s.take(k)),
        drop_bytes(s, n) is Some ==> whole_characters(s, n) == n,
        n <= byte_len(s) ==> n <= whole_characters(s, n),
        n > byte_len(s) ==> whole_characters(s, n) == byte_len(s),
        n > 0 && s.len() > 0 ==> whole_characters(s, n) > 0,
    decreases s.len(),
{
    if n <= 0 || s.len() == 0 {
        assert(s.take(0) =~= Seq::empty());
        lemma_byte_len_bounds(s);
        0
    } else {
        let left = n - char_width(s[0]);
        lemma_byte_len_first(s);
        lemma_char_width(s[0]);
        let k = if left >= 0 {
            lemma_whole_characters(s.skip(1), left)
        } else {
            assert(s.skip(1).take(0) =~= Seq::empty());
            assert(whole_characters(s.skip(1), left) == 0);
            assert(drop_bytes(s.skip(1), left) is None);
            0
        };
        lemma_byte_len_first(s.take(k + 1));
        assert(s.take(k + 1).skip(1) =~= s.skip(1).take(k));
        assert(s.take(k + 1)[0] == s[0]);
        k + 1
    }
}

/// A cut at a whole number of characters is always possible.
pub proof fn lemma_drop_bytes_at(s: Seq<char>, k: int)
    requires
        0 <= k <= s.len(),
    ensures
        drop_bytes(s, byte_len(s.take(k)) as int) == Some(s.skip(k)),
    decreases k,
{
    if k == 0 {
        assert(s.take(0) =~= Seq::empty());
        assert(s.skip(0) =~= s);
    } else {
        lemma_byte_len_first(s.take(k));
        assert(s.take(k).skip(1) =~= s.skip(1).take(k - 1));
        lemma_drop_bytes_at(s.skip(1), k - 1);
        assert(s.skip(1).skip(k - 1) =~= s.skip(k));
        assert(s.take(k)[0] == s[0]);
    }
}

/// Where a cut is possible it falls between two characters.
pub proof fn lemma_drop_bytes_suffix(s: Seq<char>, n: int) -> (k: int)
    requires
        drop_bytes(s, n) is Some,
    ensures
        0 <= k <= s.len(),
        drop_bytes(s, n) == Some(s.skip(k)),
        byte_len(s.take(k)) == n,
        byte_len(s) == n + byte_len(drop_bytes(s, n)->0),
    decreases s.len(),
{
    if n == 0 {
        assert(s.skip(0) =~= s);
        assert(s.take(0) =~= Seq::empty());
        0
    } else {
        let k = lemma_drop_bytes_suffix(s.skip(1), n - char_width(s[0]));
        assert(s.skip(1).skip(k) =~= s.skip(k + 1));
        lemma_byte_len_first(s.take(k + 1));
        assert(s.take(k + 1).skip(1) =~= s.skip(1).take(k));
        lemma_byte_len_split(s, k + 1);
        k + 1
    }
}

/// Tells whether `c` has Unicode's `White_Space` property.
pub fn white_space(c: char) -> (r: bool)
    ensures
        r == is_white_space(c),
{
    let u: u32 = c as u32;
    (0x9 <= u && u <= 0xd) || u == 0x20 || u == 0x85 || u == 0xa0 || u == 0x1680 || (0x2000 <= u
        && u <= 0x200a) || u == 0x2028 || u == 0x2029 || u == 0x202f || u == 0x205f || u == 0x3000
}

/// Tells whether `c` is ASCII white space.
pub fn ascii_white_space(c: char) -> (r: bool)
    ensures
        r == is_ascii_white_space(c),
{
    c == ' ' || c == '\t' || c == '\n' || c == '\u{c}' || c == '\r'
}

/// The code of `c` where `c` is an ASCII character.
pub fn ascii_code(c: char) -> (r: Option<u8>)
    ensures
        r is Some <==> is_ascii_char(c),
        r matches Some(code) ==> code == c as int,
{
    let u: u32 = c as u32;
    if u < 0x80 {
        Some(u as u8)
    } else {
        None
    }
}

/// Tells whether `c` is an ASCII digit.
pub fn digit(c: char) -> (r: bool)
    ensures
        r == is_digit(c),
{
    '0' <= c && c <= '9'
}

/// The length of `c` in bytes.
pub fn width_of(c: char) -> (r: usize)
    ensures
        r == char_width(c),
{
    let u: u32 = c as u32;
    if u < 0x80 {
        1
    } else if u < 0x800 {
        2
    } else if u < 0x10000 {
        3
    } else {
        4
    }
}

/// `s` without the white space that it starts with.
pub fn trimmed_start<'a>(s: &'a str) -> (r: &'a str)
    ensures
        r@ == trim_start(s@),
{
    let cs = chars_of(s);
    let mut k: usize = 0;
    while k < cs.len() && white_space(cs[k])
        invariant
            k <= cs.len(),
            forall|j: int| 0 <= j < k ==> is_white_space(#[trigger] cs@[j]),
        decreases cs.len() - k,
    {
        k += 1;
    }
    proof {
        lemma_prefix_while_is(s@, white_space_class(), k as int);
    }
    s.substring_char(k, cs.len())
}

/// `s` without the white space that it ends with.
pub fn trimmed_end<'a>(s: &'a str) -> (r: &'a str)
    ensures
        r@ == trim_end(s@),
{
    let cs = chars_of(s);
    let mut k: usize = cs.len();
    while k > 0 && white_space(cs[k - 1])
        invariant
            k <= cs.len(),
            forall|j: int| k <= j < cs.len() ==> is_white_space(#[trigger] cs@[j]),
        decreases k,
    {
        k -= 1;
    }
    proof {
        let r = s@.reverse();
        let n = cs.len() - k;
        assert forall|j: int| 0 <= j < n implies white_space_class()(#[trigger] r[j]) by {
            assert(r[j] == cs@[cs.len() - 1 - j]);
        }
        lemma_prefix_while_is(r, white_space_class(), n);
    }
    s.substring_char(0, k)
}

/// What follows the first `n` bytes of `s`, where a cut is possible there.
pub fn dropped_bytes<'a>(s: &'a str, n: usize) -> (r: Option<&'a str>)
    ensures
        r is Some <==> drop_bytes(s@, n as int) is Some,
        r matches Some(t) ==> Some(t@) == drop_bytes(s@, n as int),
{
    let cs = chars_of(s);
    let mut k: usize = 0;
    let mut left: usize = n;
    assert(s@.skip(0) =~= s@);
    while left > 0
        invariant
            k <= cs.len(),
            cs@ == s@,
            drop_bytes(s@, n as int) == drop_bytes(s@.skip(k as int), left as int),
        decreases left,
    {
        if k == cs.len() {
            return None;
        }
        let w = width_of(cs[k]);
        assert(s@.skip(k as int).skip(1) =~= s@.skip(k + 1));
        assert(s@.skip(k as int)[0] == cs@[k as int]);
        if left < w {
            assert(drop_bytes(s@.skip(k + 1), left - w) is None);
            return None;
        }
        left -= w;
        k += 1;
    }
    Some(s.substring_char(k, cs.len()))
}

/// The bytes of the characters of `s` that start within its first `n` bytes.
pub fn bytes_of_whole_characters(s: &str, n: usize) -> (r: usize)
    ensures
        r == whole_characters(s@, n as int),
{
    let cs = chars_of(s);
    let len = len_bytes(s);
    let mut k: usize = 0;
    let mut bytes: usize = 0;
    assert(s@.skip(0) =~= s@);
    assert(s@.take(0) =~= Seq::empty());
    while k < cs.len() && bytes < n
        invariant
            k <= cs.len(),
            cs@ == s@,
            len == byte_len(s@),
            bytes == byte_len(s@.take(k as int)),
            whole_characters(s@, n as int) == bytes + whole_characters(
                s@.skip(k as int),
                n - bytes,
            ),
        decreases cs.len() - k,
    {
        let ghost left = s@.skip(k as int);
        proof {
            assert(left.skip(1) =~= s@.skip(k + 1));
            assert(left[0] == cs@[k as int]);
            lemma_byte_len_split(s@, k + 1);
            lemma_byte_len_add(s@.take(k as int), seq![left[0]]);
            assert(s@.take(k + 1) =~= s@.take(k as int) + seq![left[0]]);
            lemma_byte_len_first(seq![left[0]]);
            assert(seq![left[0]].skip(1) =~= Seq::<char>::empty());
        }
        bytes += width_of(cs[k]);
        k += 1;
    }
    bytes
}

/// Tells whether `s` starts with `prefix`.
pub fn starts_with(s: &str, prefix: &str) -> (r: bool)
    ensures
        r == prefix@.is_prefix_of(s@),
{
    let cs = chars_of(s);
    let ps = chars_of(prefix);
    if ps.len() > cs.len() {
        return false;
    }
    let mut k: usize = 0;
    while k < ps.len()
        invariant
            k <= ps.len() <= cs.len(),
            cs@ == s@,
            ps@ == prefix@,
            ps@.take(k as int) =~= cs@.take(k as int),
        decreases ps.len() - k,
    {
        if ps[k] != cs[k] {
            assert(prefix@[k as int] != s@.take(ps.len() as int)[k as int]);
            return false;
        }
        k += 1;
    }
    assert(ps@.take(k as int) =~= prefix@);
    true
}

/// Tells whether `s` and `t` hold the same characters.
pub fn same_text(s: &str, t: &str) -> (r: bool)
    ensures
        r == (s@ == t@),
{
    let cs = chars_of(s);
    let ts = chars_of(t);
    if cs.len() != ts.len() {
        return false;
    }
    if starts_with(s, t) {
        assert(s@.take(t@.len() as int) =~= s@);
        true
    } else {
        assert(s@.take(s@.len() as int) =~= s@);
        false
    }
}

/// Tells whether `c` occurs in `s`.
pub fn contains_char(s: &str, c: char) -> (r: bool)
    ensures
        r == s@.contains(c),
{
    let cs = chars_of(s);
    let mut k: usize = 0;
    while k < cs.len()
        invariant
            k <= cs.len(),
            cs@ == s@,
            forall|j: int| 0 <= j < k ==> cs@[j] != c,
        decreases cs.len() - k,
    {
        if cs[k] == c {
            assert(s@[k as int] == c);
            return true;
        }
        k += 1;
    }
    false
}

} // verus!
