use rust_debug::files::{
    log_dir_components, log_file_choice, log_file_name, panic_report, session_marker, LogFileChoice, LogFileTarget,
};
use rust_debug::span::{entry_message, exit_message};
use rust_debug::tracing_init::{fallback_env_filter, tracing_file_prefix, tracing_filter_directive};
use rust_debug::{color_at, enabled, enabled_for, DebugState, EnvSettings, Level, SpanGuard, COLORS};

fn settings(debug: &str, level: Option<&str>) -> EnvSettings {
    EnvSettings {
        debug: Some(debug.to_string()),
        debug_level: level.map(|s| s.to_string()),
        debug_colors: None,
        debug_show_time: None,
        debug_hide_diff: None,
        stderr_is_tty: false,
    }
}

#[test]
fn enabled_ignores_debug_level_but_respects_namespace_patterns() {
    let mut state = DebugState::from_env(&settings("app", Some("info")));
    assert!(enabled(&mut state, "app"));
    assert!(enabled_for(&mut state, "app", Level::Info));
    assert!(!enabled_for(&mut state, "app", Level::Debug));
    assert!(!enabled(&mut state, "other"));
}

#[test]
fn exclusions_take_priority_over_inclusions() {
    let mut state = DebugState::from_env(&settings("*,-key,-vnc:*", None));
    assert!(enabled(&mut state, "clipboard"));
    assert!(!enabled(&mut state, "key"));
    assert!(!enabled(&mut state, "vnc:conn"));
    assert!(enabled(&mut state, "vnc"));
    state.enable_all();
    assert!(!enabled(&mut state, "key"));
}

#[test]
fn enable_all_turns_on_unexcluded_namespaces() {
    let mut state = DebugState::from_env(&settings("-noisy:*", None));
    assert!(!enabled(&mut state, "app"));
    state.enable_all();
    assert!(enabled(&mut state, "app"));
    assert!(enabled(&mut state, "fresh"));
    assert!(!enabled(&mut state, "noisy:x"));
}

#[test]
fn repeated_queries_agree() {
    let mut state = DebugState::from_env(&settings("a", None));
    let first = enabled(&mut state, "a");
    assert_eq!(enabled(&mut state, "a"), first);
    let first = enabled(&mut state, "b");
    assert_eq!(enabled(&mut state, "b"), first);
}

#[test]
fn debug_level_settings() {
    for (value, level) in [("error", Level::Error), ("WARN", Level::Warn), ("Info", Level::Info), ("debug", Level::Debug), ("verbose", Level::Debug), ("", Level::Debug)] {
        let state = DebugState::from_env(&settings("", Some(value)));
        assert_eq!(state.min_level(), level, "{}", value);
    }
    let state = DebugState::from_env(&settings("", None));
    assert_eq!(state.min_level(), Level::Debug);
}

#[test]
fn switches_and_colors() {
    let mut s = settings("", None);
    s.debug_colors = Some("0".to_string());
    s.debug_show_time = Some("TRUE".to_string());
    s.debug_hide_diff = Some("1".to_string());
    s.stderr_is_tty = true;
    let state = DebugState::from_env(&s);
    assert!(!state.colored_output());
    assert!(state.show_time());
    assert!(!state.show_diff());
    s.debug_colors = Some("yes".to_string());
    s.debug_show_time = Some("yes".to_string());
    s.debug_hide_diff = None;
    let state = DebugState::from_env(&s);
    assert!(state.colored_output());
    assert!(!state.show_time());
    assert!(state.show_diff());
}

#[test]
fn colors_cycle_in_order_of_first_sight() {
    let mut state = DebugState::from_env(&settings("*", None));
    let names = ["a", "b", "c", "d", "e", "f", "g", "h"];
    for n in names {
        enabled(&mut state, n);
    }
    for (i, n) in names.iter().enumerate() {
        let (color, _) = state.record_call(n, 0).unwrap();
        assert_eq!(color, COLORS[i % 6]);
        assert_eq!(color_at(i), COLORS[i % 6]);
    }
    assert_eq!(COLORS, [6, 2, 3, 4, 5, 1]);
}

#[test]
fn record_call_reports_time_since_previous_call() {
    let mut state = DebugState::from_env(&settings("app", None));
    assert_eq!(state.record_call("app", 10), None);
    assert!(enabled(&mut state, "app"));
    assert_eq!(state.record_call("app", 100), Some((6, 0)));
    assert_eq!(state.record_call("app", 1_600), Some((6, 1_500)));
    assert_eq!(state.record_call("app", 1_000), Some((6, 0)));
}

#[test]
fn log_lines_carry_color_and_time_differential() {
    let mut s = settings("app", None);
    s.stderr_is_tty = true;
    let mut state = DebugState::from_env(&s);
    assert!(state.log_lines("app", Level::Info, "hi", 0, "TS").is_none());
    assert!(enabled(&mut state, "app"));
    let lines = state.log_lines("app", Level::Info, "hi", 100, "TS").unwrap();
    assert_eq!(lines.stderr_line, "  \x1b[96mapp\x1b[0m \x1b[90mhi\x1b[0m \x1b[96m+0us\x1b[0m\n");
    assert_eq!(lines.file_line, "TS app hi +0us\n");
    let lines = state.log_lines("app", Level::Warn, "hi", 1_600, "TS").unwrap();
    assert_eq!(lines.stderr_line, "  \x1b[93mapp WARN\x1b[0m \x1b[90mhi\x1b[0m \x1b[93m+1.5ms\x1b[0m\n");
    assert_eq!(lines.file_line, "TS app WARN hi +1.5ms\n");
    let mut s = settings("app", None);
    s.debug_hide_diff = Some("true".to_string());
    let mut plain = DebugState::from_env(&s);
    assert!(enabled(&mut plain, "app"));
    let lines = plain.log_lines("app", Level::Error, "boom", 7, "TS").unwrap();
    assert_eq!(lines.stderr_line, "TS app ERROR boom\n");
    assert_eq!(lines.file_line, "TS app ERROR boom\n");
}

#[test]
fn session_marker_is_claimed_once() {
    let mut state = DebugState::from_env(&settings("x", None));
    assert!(state.has_includes());
    assert!(state.claim_session_marker());
    assert!(!state.claim_session_marker());
    assert_eq!(session_marker("TS", 42), "=== session started: TS pid=42 ===\n");
}

#[test]
fn span_guard_logs_only_when_enabled_at_debug() {
    let mut state = DebugState::from_env(&settings("vnc:*", Some("info")));
    let g = SpanGuard::new(&mut state, "vnc:render", "frame 42", 5);
    assert!(!g.is_enabled());
    let mut state = DebugState::from_env(&settings("vnc:*", None));
    let g = SpanGuard::new(&mut state, "vnc:render", "frame 42", 5);
    assert!(g.is_enabled());
    assert_eq!(g.namespace(), "vnc:render");
    assert_eq!(g.entry_message(), "-> frame 42");
    assert_eq!(g.exit_message(3_205), "<- frame 42 (3.2ms)");
    assert_eq!(g.elapsed(3_205), 3_200);
    assert_eq!(g.elapsed(1), 0);
    assert_eq!(entry_message("m"), "-> m");
    assert_eq!(exit_message("m", "?"), "<- m (?)");
}

#[test]
fn log_files_and_directories() {
    assert_eq!(log_file_name("debug", "2026-03-15"), "debug.2026-03-15.log");
    let mut target = LogFileTarget::rolling("/tmp/logs", "app", "2026-03-15");
    assert_eq!(target.directory(), Some("/tmp/logs"));
    assert_eq!(target.rotation("2026-03-15"), None);
    assert_eq!(target.rotation("2026-03-16"), Some("app.2026-03-16.log".to_string()));
    assert_eq!(target.rotation("2026-03-16"), Some("app.2026-03-16.log".to_string()));
    target.moved_to("2026-03-16");
    assert_eq!(target.rotation("2026-03-16"), None);
    let mut single = LogFileTarget::Single;
    assert_eq!(single.rotation("2026-03-16"), None);
    single.moved_to("2026-03-16");
    assert_eq!(single.directory(), None);
    assert_eq!(log_dir_components(false, Some("/state".into()), Some("/home/u".into()), "app"), vec!["/state", "app"]);
    assert_eq!(log_dir_components(false, None, Some("/home/u".into()), "app"), vec!["/home/u", ".local", "state", "app"]);
    assert_eq!(log_dir_components(false, None, None, "app"), vec![".", "app"]);
    assert_eq!(log_dir_components(true, Some("/state".into()), Some("/Users/u".into()), "app"), vec!["/Users/u", "Library/Logs", "app"]);
    assert_eq!(log_dir_components(true, Some("/state".into()), None, "app"), vec![".", "app"]);
}

#[test]
fn panic_reports() {
    assert_eq!(panic_report("TS", "oops", None), "TS PANIC oops\n");
    assert_eq!(panic_report("TS", "oops", Some("trace")), "TS PANIC oops\n  span trace:\ntrace\n");
}

#[test]
fn tracing_setup_texts() {
    assert_eq!(tracing_filter_directive("ERROR"), "error");
    assert_eq!(tracing_filter_directive("warn"), "warn");
    assert_eq!(tracing_filter_directive("Info"), "info");
    assert_eq!(tracing_filter_directive("trace"), "debug");
    assert_eq!(tracing_file_prefix("my-app", false), "my-app.tracing");
    assert_eq!(tracing_file_prefix("my-app", true), "my-app.tracing.json");
}

#[test]
fn queries_and_log_calls_keep_the_configuration() {
    let mut s = settings("a,-b", Some("warn"));
    s.debug_show_time = Some("1".to_string());
    let mut state = DebugState::from_env(&s);
    enabled(&mut state, "a");
    enabled_for(&mut state, "b", Level::Error);
    let _ = state.log_lines("a", Level::Error, "m", 5, "TS");
    assert_eq!(state.min_level(), Level::Warn);
    assert!(state.show_time());
    assert!(state.show_diff());
    assert!(!state.colored_output());
    assert!(state.has_includes());
}

#[test]
fn fallback_filter_follows_debug_level() {
    assert_eq!(fallback_env_filter("WARN").to_string(), "warn");
    assert_eq!(fallback_env_filter("error").to_string(), "error");
    assert_eq!(fallback_env_filter("verbose").to_string(), "debug");
}

#[test]
fn debug_file_wins_over_log_dir() {
    assert_eq!(
        log_file_choice(Some("app.log".to_string()), Some("logs".to_string())),
        Some(LogFileChoice::Single("app.log".to_string()))
    );
    assert_eq!(log_file_choice(None, Some("logs".to_string())), Some(LogFileChoice::Rolling("logs".to_string())));
    assert_eq!(log_file_choice(Some("app.log".to_string()), None), Some(LogFileChoice::Single("app.log".to_string())));
    assert_eq!(log_file_choice(None, None), None);
}
