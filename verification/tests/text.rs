//! Behavior of the character-level helpers: searching, splitting, joining,
//! and decimal parsing and printing.

use motu::text::{
    find_first, i64_to_string, join_from, parse_i64, parse_u32, split_str, str_contains, str_eq,
    u32_to_string, u64_to_string,
};

#[test]
fn equality_and_search() {
    assert!(str_eq("abc", "abc"));
    assert!(!str_eq("abc", "abd"));
    assert!(!str_eq("abc", "ab"));
    assert!(str_eq("", ""));
    assert!(str_contains("ext/ibank/0", "bank"));
    assert!(!str_contains("ext/ibank/0", "obank"));
    assert_eq!(find_first("aXbXc", "X"), Some(1));
    assert_eq!(find_first("aXbXc", "Y"), None);
    assert_eq!(find_first("abc", ""), Some(0));
}

#[test]
fn splitting_and_joining() {
    let parts = split_str("a:b:c", ':');
    assert_eq!(parts, vec!["a", "b", "c"]);
    assert_eq!(split_str("", ':'), vec![""]);
    assert_eq!(split_str(":", ':'), vec!["", ""]);
    assert_eq!(split_str("a::b", ':'), vec!["a", "", "b"]);
    assert_eq!(split_str("plain", ':'), vec!["plain"]);
    let parts = split_str("x=y=z", '=');
    assert_eq!(join_from(&parts, 1, "="), "y=z");
    assert_eq!(join_from(&parts, 0, "="), "x=y=z");
    assert_eq!(join_from(&parts, 3, "="), "");
}

#[test]
fn parsing_signed_integers() {
    assert_eq!(parse_i64("0"), Some(0));
    assert_eq!(parse_i64("42"), Some(42));
    assert_eq!(parse_i64("+42"), Some(42));
    assert_eq!(parse_i64("-42"), Some(-42));
    assert_eq!(parse_i64("9223372036854775807"), Some(i64::MAX));
    assert_eq!(parse_i64("-9223372036854775808"), Some(i64::MIN));
    assert_eq!(parse_i64("9223372036854775808"), None);
    assert_eq!(parse_i64("-9223372036854775809"), None);
    assert_eq!(parse_i64("99999999999999999999999999"), None);
    assert_eq!(parse_i64(""), None);
    assert_eq!(parse_i64("-"), None);
    assert_eq!(parse_i64("1x"), None);
    assert_eq!(parse_i64(" 1"), None);
}

#[test]
fn parsing_unsigned_indices() {
    assert_eq!(parse_u32("0"), Some(0));
    assert_eq!(parse_u32("+7"), Some(7));
    assert_eq!(parse_u32("4294967295"), Some(u32::MAX));
    assert_eq!(parse_u32("4294967296"), None);
    assert_eq!(parse_u32("-1"), None);
    assert_eq!(parse_u32(""), None);
}

#[test]
fn printing_integers() {
    assert_eq!(u64_to_string(0), "0");
    assert_eq!(u64_to_string(90210), "90210");
    assert_eq!(u64_to_string(u64::MAX), "18446744073709551615");
    assert_eq!(u32_to_string(7), "7");
    assert_eq!(i64_to_string(0), "0");
    assert_eq!(i64_to_string(-1), "-1");
    assert_eq!(i64_to_string(i64::MAX), "9223372036854775807");
    assert_eq!(i64_to_string(i64::MIN), "-9223372036854775808");
}

#[test]
fn printing_then_parsing_round_trips() {
    for n in [0i64, 1, -1, 999, -1000, i64::MAX, i64::MIN] {
        assert_eq!(parse_i64(&i64_to_string(n)), Some(n));
    }
}
