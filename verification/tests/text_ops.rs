use ctx_audit_core::text::{clip, decimal_string, join_strings, str_contains, trim_str};

#[test]
fn trim_removes_surrounding_white_space() {
    assert_eq!(trim_str("  a b\t\n"), "a b");
    assert_eq!(trim_str(""), "");
    assert_eq!(trim_str(" \u{3000} "), "");
}

#[test]
fn contains_finds_inner_run() {
    assert!(str_contains("hello world", "lo wo"));
    assert!(str_contains("abc", ""));
    assert!(!str_contains("abc", "abcd"));
    assert!(!str_contains("abc", "ac"));
}

#[test]
fn decimal_of_numbers() {
    assert_eq!(decimal_string(0), "0");
    assert_eq!(decimal_string(7), "7");
    assert_eq!(decimal_string(1234567890), "1234567890");
    assert_eq!(decimal_string(u64::MAX), "18446744073709551615");
}

#[test]
fn join_puts_separator_between() {
    let parts = vec!["A".to_string(), "B".to_string(), "C".to_string()];
    assert_eq!(join_strings(&parts, ", "), "A, B, C");
    assert_eq!(join_strings(&Vec::new(), ", "), "");
    assert_eq!(join_strings(&vec!["A".to_string()], ", "), "A");
}

#[test]
fn clip_shortens_long_text() {
    assert_eq!(clip("abcdef", 3), "abc...");
    assert_eq!(clip("abc", 3), "abc");
    assert_eq!(clip("", 0), "");
}
