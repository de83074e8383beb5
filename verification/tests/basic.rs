use rust_debug::{days_to_ymd, parse_debug_patterns, pattern_matches, Level};

#[test]
fn test_pattern_matches() {
    assert!(pattern_matches("*", "anything"));
    assert!(pattern_matches("vnc", "vnc"));
    assert!(!pattern_matches("vnc", "clipboard"));
    assert!(pattern_matches("vnc:*", "vnc:conn"));
    assert!(pattern_matches("vnc:*", "vnc:"));
    assert!(!pattern_matches("vnc:*", "clipboard"));
}

#[test]
fn test_parse_debug_patterns() {
    let (inc, exc) = parse_debug_patterns("vnc:*,clipboard,-key");
    assert_eq!(inc, vec!["vnc:*", "clipboard"]);
    assert_eq!(exc, vec!["key"]);
}

#[test]
fn test_parse_debug_patterns_spaces() {
    let (inc, exc) = parse_debug_patterns("vnc clipboard -key");
    assert_eq!(inc, vec!["vnc", "clipboard"]);
    assert_eq!(exc, vec!["key"]);
}

#[test]
fn test_days_to_ymd() {
    assert_eq!(days_to_ymd(0), (1970, 1, 1));
    assert_eq!(days_to_ymd(10957), (2000, 1, 1));
    assert_eq!(days_to_ymd(20527), (2026, 3, 15));
}

#[test]
fn tests_test_level_ordering() {
    assert!(Level::Error < Level::Warn);
    assert!(Level::Warn < Level::Info);
    assert!(Level::Info < Level::Debug);
}

#[test]
fn basic_test_level_ordering() {
    assert!(Level::Error < Level::Warn);
    assert!(Level::Warn < Level::Info);
    assert!(Level::Info < Level::Debug);
}

#[test]
fn test_level_display() {
    assert_eq!(Level::Error.to_string(), "ERROR");
    assert_eq!(Level::Warn.to_string(), "WARN");
    assert_eq!(Level::Info.to_string(), "INFO");
    assert_eq!(Level::Debug.to_string(), "DEBUG");
}

#[test]
fn level_rank_follows_severity() {
    assert_eq!(Level::Error.rank(), 0);
    assert_eq!(Level::Debug.rank(), 3);
    assert!(Level::Debug.is_less_severe_than(&Level::Info));
    assert!(!Level::Error.is_less_severe_than(&Level::Error));
    assert_eq!(Level::Warn.tag(), " WARN");
    assert_eq!(Level::Info.tag(), "");
}
