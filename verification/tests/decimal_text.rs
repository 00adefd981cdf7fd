use data_heap::decimal::{fmt_i64, fmt_u64, parse_i64};
use data_heap::text::{contains, is_blank, trim};

fn chars(s: &str) -> Vec<char> {
    s.chars().collect()
}

#[test]
fn integers_print_like_display() {
    for x in [0i64, 7, 10, -1, 1234567890, i64::MAX, i64::MIN] {
        assert_eq!(fmt_i64(x), x.to_string());
    }
    assert_eq!(fmt_u64(u64::MAX), u64::MAX.to_string());
}

#[test]
fn integers_parse_like_std() {
    for s in ["0", "-0", "+12", "9223372036854775807", "-9223372036854775808", "9223372036854775808", "", "-", "+", "1 ", "１", "12a", "007"] {
        assert_eq!(parse_i64(&chars(s)), s.parse::<i64>().ok(), "input {s:?}");
    }
}

#[test]
fn trimming_matches_std() {
    for s in ["", "  ", " a b ", "\u{85}x\u{a0}", "\u{200b}x", "x"] {
        assert_eq!(trim(s), s.trim());
        assert_eq!(is_blank(s), s.trim().is_empty());
    }
    assert!(contains("abcabd", "abd"));
    assert!(!contains("ab", "abc"));
    assert!(contains("x", ""));
}
