use svar::text::{
    chars_eq_ignore_ascii_case, chars_of, contains_chars, decimal_string, find_char, is_whitespace,
    lines_of, parse_decimal, rfind_char, string_of, trim_chars, trim_end_chars,
};

fn c(s: &str) -> Vec<char> {
    s.chars().collect()
}

#[test]
fn whitespace_matches_std() {
    for ch in ['\t', '\n', '\u{b}', '\u{c}', '\r', ' ', '\u{85}', '\u{a0}', '\u{1680}', '\u{2000}', '\u{200a}', '\u{2028}', '\u{2029}', '\u{202f}', '\u{205f}', '\u{3000}', 'a', '\u{200b}', '\u{feff}', '_'] {
        assert_eq!(is_whitespace(ch), ch.is_whitespace(), "{:?}", ch);
    }
}

#[test]
fn trimming() {
    assert_eq!(trim_chars(&c("\u{3000} a b \t")), c("a b"));
    assert_eq!(trim_end_chars(&c(" a ")), c(" a"));
    assert_eq!(trim_chars(&c("   ")), c(""));
}

#[test]
fn lines_match_std() {
    for s in ["", "a", "a\n", "a\r\nb", "\n\nx\n", "a\r", "a\r\r\n", "\r\n"] {
        let got: Vec<String> = lines_of(&c(s)).iter().map(|v| v.iter().collect()).collect();
        let want: Vec<String> = s.lines().map(|l| l.to_string()).collect();
        assert_eq!(got, want, "{:?}", s);
    }
}

#[test]
fn searching() {
    assert_eq!(find_char(&c("a.b.c"), '.', 0), Some(1));
    assert_eq!(find_char(&c("a.b.c"), '.', 2), Some(3));
    assert_eq!(find_char(&c("abc"), '.', 0), None);
    assert_eq!(rfind_char(&c("a.b.c"), '.'), Some(3));
    assert_eq!(rfind_char(&c("abc"), '.'), None);
    assert!(contains_chars(&c("remastered"), &c("master")));
    assert!(!contains_chars(&c("mast"), &c("master")));
    assert!(contains_chars(&c("x"), &c("")));
}

#[test]
fn ascii_case() {
    assert!(chars_eq_ignore_ascii_case(&c("PlayerCtlD"), &c("playerctld")));
    assert!(!chars_eq_ignore_ascii_case(&c("Ä"), &c("ä")));
    assert!(!chars_eq_ignore_ascii_case(&c("ab"), &c("abc")));
}

#[test]
fn decimals() {
    assert_eq!(parse_decimal(&c("0042")), Some(42));
    assert_eq!(parse_decimal(&c("18446744073709551615")), Some(u64::MAX));
    assert_eq!(parse_decimal(&c("18446744073709551616")), None);
    assert_eq!(parse_decimal(&c("")), None);
    assert_eq!(parse_decimal(&c("1a")), None);
    assert_eq!(decimal_string(0), "0");
    assert_eq!(decimal_string(1234567890), "1234567890");
    assert_eq!(decimal_string(u64::MAX), "18446744073709551615");
}

#[test]
fn conversions() {
    assert_eq!(chars_of("häj"), c("häj"));
    assert_eq!(string_of(&c("häj")), "häj");
}
