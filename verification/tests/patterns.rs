use rust_debug::patterns::parse_debug_patterns;
use rust_debug::pattern_matches;
use rust_debug::text::{decimal_string, eq_ignore_ascii_case, is_whitespace, starts_with, str_eq};

#[test]
fn whitespace_agrees_with_std_for_every_char() {
    for code in 0u32..=0x10FFFF {
        if let Some(c) = char::from_u32(code) {
            assert_eq!(is_whitespace(c), c.is_whitespace(), "U+{:04X}", code);
        }
    }
}

#[test]
fn star_matches_everything_including_empty() {
    assert!(pattern_matches("*", ""));
    assert!(pattern_matches("*", "a:b:c"));
}

#[test]
fn prefix_star_and_exact_patterns() {
    assert!(pattern_matches("a*", "a"));
    assert!(pattern_matches("a*", "abc"));
    assert!(!pattern_matches("a*", "ba"));
    assert!(pattern_matches("**", "*x"));
    assert!(!pattern_matches("**", "x"));
    assert!(pattern_matches("", ""));
    assert!(!pattern_matches("", "x"));
    assert!(!pattern_matches("vnc", "vnc:conn"));
}

#[test]
fn parse_skips_empty_entries_and_keeps_order() {
    let (inc, exc) = parse_debug_patterns(" ,a,,\tb\n-c ,-d,");
    assert_eq!(inc, vec!["a", "b"]);
    assert_eq!(exc, vec!["c", "d"]);
}

#[test]
fn parse_lone_dash_is_an_empty_exclusion() {
    let (inc, exc) = parse_debug_patterns("-,x");
    assert_eq!(inc, vec!["x"]);
    assert_eq!(exc, vec![""]);
}

#[test]
fn parse_empty_and_unicode_whitespace() {
    let (inc, exc) = parse_debug_patterns("");
    assert!(inc.is_empty() && exc.is_empty());
    let (inc, exc) = parse_debug_patterns("é\u{3000}ü\u{a0}-ñ");
    assert_eq!(inc, vec!["é", "ü"]);
    assert_eq!(exc, vec!["ñ"]);
}

#[test]
fn string_helpers() {
    assert!(str_eq("abc", "abc"));
    assert!(!str_eq("abc", "abd"));
    assert!(!str_eq("abc", "ab"));
    assert!(starts_with("vnc:conn", "vnc:"));
    assert!(!starts_with("vn", "vnc"));
    assert!(eq_ignore_ascii_case("TrUe", "true"));
    assert!(!eq_ignore_ascii_case("truе", "true"));
    assert_eq!(decimal_string(0), "0");
    assert_eq!(decimal_string(1234567890123456789), "1234567890123456789");
    assert_eq!(decimal_string(u128::MAX), u128::MAX.to_string());
}
