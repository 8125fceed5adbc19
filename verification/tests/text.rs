use cfuq::graphemes::{count_graphemes, leading_graphemes};
use cfuq::numbers::{decimal_text, is_float, parse_hex_pair, parse_int};
use cfuq::text::{
    ascii_code, ascii_white_space, bytes_of_whole_characters, contains_char, digit, dropped_bytes,
    len_bytes, same_text, starts_with, trimmed_end, trimmed_start, white_space, width_of,
};

#[test]
fn white_space_is_that_of_unicode() {
    for c in '\0'..=char::MAX {
        assert_eq!(white_space(c), c.is_whitespace(), "{:?}", c);
        assert_eq!(ascii_white_space(c), c.is_ascii_whitespace(), "{:?}", c);
        assert_eq!(digit(c), c.is_ascii_digit(), "{:?}", c);
        assert_eq!(width_of(c), c.len_utf8(), "{:?}", c);
    }
}

#[test]
fn ascii_codes() {
    assert_eq!(ascii_code('A'), Some(65));
    assert_eq!(ascii_code('\u{7f}'), Some(127));
    assert_eq!(ascii_code('\u{80}'), None);
}

#[test]
fn white_space_is_trimmed() {
    for s in ["", " ", "\u{3000}a\u{85} ", "  a b\t\n", "x", "\u{200b} x \u{200b}"] {
        assert_eq!(trimmed_start(s), s.trim_start());
        assert_eq!(trimmed_end(s), s.trim_end());
        assert_eq!(len_bytes(s), s.len());
    }
}

#[test]
fn bytes_are_dropped_at_characters_only() {
    let s = "aé漢🦀z";
    for n in 0..=s.len() + 2 {
        assert_eq!(dropped_bytes(s, n), s.get(n..), "{}", n);
    }
}

#[test]
fn whole_characters_reach_to_the_next_cut() {
    let s = "aé漢🦀z";
    for n in 0..=s.len() + 2 {
        let cut = (n..=s.len()).find(|i| s.is_char_boundary(*i)).unwrap_or(s.len());
        assert_eq!(bytes_of_whole_characters(s, n), cut, "{}", n);
    }
}

#[test]
fn texts_are_compared() {
    assert!(starts_with("#!def X", "#!def "));
    assert!(!starts_with("#!de", "#!def "));
    assert!(starts_with("x", ""));
    assert!(same_text("é", "é"));
    assert!(!same_text("é", "e\u{301}"));
    assert!(!same_text("ab", "a"));
    assert!(contains_char("f(x)", '('));
    assert!(!contains_char("fx", '('));
}

#[test]
fn integers_are_parsed_as_std_parses_them() {
    for s in [
        "0", "7", "007", "9223372036854775807", "9223372036854775808",
        "00000000000000000000000000000000001", "99999999999999999999999", "1_000", "1a", "1é", "12",
    ] {
        assert_eq!(parse_int(s), s.parse::<i64>().ok(), "{}", s);
    }
    assert_eq!(parse_int(""), None);
}

#[test]
fn floats_are_told_as_std_tells_them() {
    for s in [
        "0.", "0.5", "1.5e3", "1.e3", "1e3", "1.5E-3", "1.5e", "1.5e-", "1..5", "1.5.5", "1.5f",
        "1.5é", "00.00", "1.5E+007", "1.e", "1.5e3.0", "1.5 ",
    ] {
        assert_eq!(is_float(s), s.parse::<f64>().is_ok(), "{}", s);
    }
}

#[test]
fn hexadecimal_pairs_are_parsed_as_std_parses_them() {
    for a in '\0'..='\u{7f}' {
        for b in '\0'..='\u{7f}' {
            let s: String = [a, b].iter().collect();
            assert_eq!(parse_hex_pair(a, b), u8::from_str_radix(&s, 16).ok(), "{:?}", s);
        }
    }
}

#[test]
fn decimal_digits() {
    for n in [0, 9, 10, 99, 100, 1234567890, usize::MAX] {
        assert_eq!(decimal_text(n), n.to_string());
    }
}

#[test]
fn clusters_are_counted() {
    assert_eq!(count_graphemes(""), 0);
    assert_eq!(count_graphemes("abc"), 3);
    assert_eq!(count_graphemes("e\u{301}"), 1);
    assert_eq!(count_graphemes("\r\n"), 1);
    assert_eq!(count_graphemes("🇩🇪🇫🇷"), 2);
    assert_eq!(count_graphemes("👨‍👩‍👧"), 1);
    assert_eq!(leading_graphemes("e\u{301}xy"), ("e\u{301}", "x"));
    assert_eq!(leading_graphemes("e\u{301}"), ("e\u{301}", ""));
    assert_eq!(leading_graphemes(""), ("", ""));
}

#[test]
fn white_space_in_front_adds_a_cluster_at_most() {
    let tails = [
        "", "a", "\u{301}a", "\u{200d}👩", "🇩🇪🇫🇷", "\nb", "\u{94d}\u{937}", "\u{600}x",
        "\u{e0020}", "👩\u{200d}👩",
    ];
    for c in ('\0'..=char::MAX).filter(|c| c.is_whitespace()) {
        for tail in tails {
            let n = count_graphemes(tail);
            let with = count_graphemes(&format!("{}{}", c, tail));
            assert!(n <= with && with <= n + 1, "{:?} {:?}", c, tail);
        }
    }
}
