//! Tests for the shared text utilities.

use tideflow_core::strutil::{parse_u64, str_contains, str_starts_with, str_trim, u64_to_string};

#[test]
fn decimal_rendering_matches_std() {
    assert_eq!(u64_to_string(0), "0");
    assert_eq!(u64_to_string(7), "7");
    assert_eq!(u64_to_string(120), "120");
    assert_eq!(u64_to_string(u64::MAX), u64::MAX.to_string());
}

#[test]
fn parse_u64_accepts_exactly_what_std_does() {
    assert_eq!(parse_u64("123"), Some(123));
    assert_eq!(parse_u64("+7"), Some(7));
    assert_eq!(parse_u64("0"), Some(0));
    assert_eq!(parse_u64("18446744073709551615"), Some(u64::MAX));
    assert_eq!(parse_u64("18446744073709551616"), None);
    assert_eq!(parse_u64(""), None);
    assert_eq!(parse_u64("+"), None);
    assert_eq!(parse_u64("12a"), None);
    assert_eq!(parse_u64(" 5"), None);
    assert_eq!(parse_u64("-5"), None);
}

#[test]
fn trimming_strips_whitespace_at_both_ends() {
    assert_eq!(str_trim("  a b \t"), "a b");
    assert_eq!(str_trim("\u{a0}x\u{2028}"), "x");
    assert_eq!(str_trim("   "), "");
    assert_eq!(str_trim(""), "");
}

#[test]
fn substring_search_is_exact() {
    assert!(str_contains("needle in haystack", "in hay"));
    assert!(!str_contains("needle", "needles"));
    assert!(str_contains("abc", ""));
    assert!(str_starts_with("abc", "ab"));
    assert!(!str_starts_with("abc", "bc"));
    assert!(str_starts_with("abc", ""));
}
