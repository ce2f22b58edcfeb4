use http_server::text::{
    chars_of, decimal_text, find_byte, find_char, is_whitespace, parse_decimal, push_decimal,
    same_text, split_pair, split_text, text_of, trim_text,
};

fn chars(s: &str) -> Vec<char> {
    s.chars().collect()
}

fn text(c: &[char]) -> String {
    c.iter().collect()
}

#[test]
fn chars_and_back() {
    assert_eq!(chars_of("a\u{e9}\u{20ac}z"), vec!['a', '\u{e9}', '\u{20ac}', 'z']);
    assert_eq!(chars_of(""), Vec::<char>::new());
    let c = chars("hello");
    assert_eq!(text_of(&c[1..4]), "ell");
    assert_eq!(text_of(&c), "hello");
    assert_eq!(text_of(&c[2..2]), "");
    assert_eq!(text_of(&chars("\u{20ac}\u{e9}")), "\u{20ac}\u{e9}");
}

#[test]
fn same_text_compares_content() {
    assert!(same_text("abc", "abc"));
    assert!(same_text("", ""));
    assert!(!same_text("abc", "abd"));
    assert!(!same_text("abc", "ab"));
    assert!(!same_text("", "a"));
    assert!(same_text("\u{20ac}", "\u{20ac}"));
    assert!(!same_text("\u{20ac}", "\u{20ad}"));
}

#[test]
fn find_first() {
    assert_eq!(find_char(&chars("a b c"), ' '), 1);
    assert_eq!(find_char(&chars("abc"), ' '), 3);
    assert_eq!(find_char(&chars(""), ' '), 0);
    assert_eq!(find_byte(b"ab\ncd\n", b'\n'), 2);
    assert_eq!(find_byte(b"abcd", b'\n'), 4);
}

#[test]
fn split_at_every_separator() {
    let parts = |s: &str| split_text(&chars(s), ' ');
    assert_eq!(parts("a b c"), vec!["a", "b", "c"]);
    assert_eq!(parts(""), vec![""]);
    assert_eq!(parts("abc"), vec!["abc"]);
    assert_eq!(parts(" "), vec!["", ""]);
    assert_eq!(parts("a  b"), vec!["a", "", "b"]);
    assert_eq!(parts(" a "), vec!["", "a", ""]);
}

#[test]
fn white_space_is_unicode_white_space() {
    let spaces = [
        '\u{9}', '\u{a}', '\u{b}', '\u{c}', '\u{d}', ' ', '\u{85}', '\u{a0}', '\u{1680}',
        '\u{2000}', '\u{2005}', '\u{200a}', '\u{2028}', '\u{2029}', '\u{202f}', '\u{205f}',
        '\u{3000}',
    ];
    for c in spaces {
        assert!(is_whitespace(c));
    }
    for c in ['a', '0', '\u{8}', '\u{e}', '\u{1f}', '\u{200b}', '\u{feff}', '\u{180e}', '\u{2060}'] {
        assert!(!is_whitespace(c));
    }
}

#[test]
fn white_space_agrees_with_char() {
    let mut u: u32 = 0;
    while u <= 0x3100 {
        if let Some(c) = char::from_u32(u) {
            assert_eq!(is_whitespace(c), c.is_whitespace());
        }
        u += 1;
    }
}

#[test]
fn trim_both_ends() {
    let t = |s: &str| text(trim_text(&chars(s)));
    assert_eq!(t("  a b \r\n"), "a b");
    assert_eq!(t("a"), "a");
    assert_eq!(t(""), "");
    assert_eq!(t(" \t\r\n"), "");
    assert_eq!(t("\u{a0}x\u{3000}"), "x");
    assert_eq!(t("x\u{200b}"), "x\u{200b}");
}

#[test]
fn trim_agrees_with_str() {
    for s in ["", " ", "  a  ", "\ta\n", "a b", "\u{2003}a\u{2003}b\u{2003}", "\r\n"] {
        assert_eq!(text(trim_text(&chars(s))), s.trim());
    }
}

#[test]
fn split_pair_at_first_colon_space() {
    let p = |s: &str| split_pair(&chars(s));
    assert_eq!(p("a: b"), Some(("a".to_string(), "b".to_string())));
    assert_eq!(p("a: b: c"), Some(("a".to_string(), "b: c".to_string())));
    assert_eq!(p(": "), Some((String::new(), String::new())));
    assert_eq!(p("a:b: c"), Some(("a:b".to_string(), "c".to_string())));
    assert_eq!(p("a:: b"), Some(("a:".to_string(), "b".to_string())));
    assert_eq!(p("a:b"), None);
    assert_eq!(p("a :b"), None);
    assert_eq!(p("a:"), None);
    assert_eq!(p(":"), None);
    assert_eq!(p(""), None);
}

#[test]
fn split_pair_agrees_with_str() {
    for s in ["a: b", "a", "", ": ", "x: y: z", "k:v", "k : v", "::  "] {
        let expected = s.split_once(": ").map(|(k, v)| (k.to_string(), v.to_string()));
        assert_eq!(split_pair(&chars(s)), expected);
    }
}

#[test]
fn decimal_numbers_are_read() {
    let p = |s: &str| parse_decimal(&chars(s));
    assert_eq!(p("0"), Some(0));
    assert_eq!(p("5"), Some(5));
    assert_eq!(p("1234567890"), Some(1234567890));
    assert_eq!(p("+7"), Some(7));
    assert_eq!(p("007"), Some(7));
    assert_eq!(p(&usize::MAX.to_string()), Some(usize::MAX));
    assert_eq!(p(""), None);
    assert_eq!(p("+"), None);
    assert_eq!(p("-1"), None);
    assert_eq!(p("++1"), None);
    assert_eq!(p("1+"), None);
    assert_eq!(p(" 1"), None);
    assert_eq!(p("1 "), None);
    assert_eq!(p("1a"), None);
    assert_eq!(p("0x10"), None);
    assert_eq!(p("\u{661}"), None);
    assert_eq!(p("18446744073709551616"), None);
    assert_eq!(p("99999999999999999999999999999"), None);
}

#[test]
fn decimal_reading_agrees_with_str() {
    for s in ["", "0", "+0", "-0", "12", "+12", "1_000", "18446744073709551615", "18446744073709551616", "٣"] {
        assert_eq!(parse_decimal(&chars(s)), s.parse::<usize>().ok());
    }
}

#[test]
fn decimal_numbers_are_written() {
    assert_eq!(decimal_text(0), "0");
    assert_eq!(decimal_text(9), "9");
    assert_eq!(decimal_text(10), "10");
    assert_eq!(decimal_text(11), "11");
    assert_eq!(decimal_text(1005), "1005");
    assert_eq!(decimal_text(usize::MAX), usize::MAX.to_string());
    let mut s = "n=".to_string();
    push_decimal(&mut s, 42);
    assert_eq!(s, "n=42");
}

#[test]
fn decimal_round_trip() {
    for n in [0usize, 1, 9, 10, 99, 100, 12345, usize::MAX] {
        assert_eq!(parse_decimal(&chars(&decimal_text(n))), Some(n));
    }
}
