use rust_debug::{
    normalize_debug_value, resolve_span_descriptor, EnvSettings, FieldCollector, Level, SpanDescriptor,
    SpanFieldCollector, SpanFieldValues, SpanTiming, TracingLayer,
};

fn settings(debug: Option<&str>, tty: bool) -> EnvSettings {
    EnvSettings {
        debug: debug.map(|s| s.to_string()),
        debug_level: None,
        debug_colors: None,
        debug_show_time: None,
        debug_hide_diff: None,
        stderr_is_tty: tty,
    }
}

#[test]
fn resolve_span_descriptor_skips_rust_debug_managed_spans() {
    let result = resolve_span_descriptor(
        "app",
        "load",
        SpanFieldValues {
            rust_debug_managed: true,
            ..SpanFieldValues::default()
        },
    );

    assert_eq!(result, None);
}

#[test]
fn resolve_span_descriptor_prefers_field_values() {
    let result = resolve_span_descriptor(
        "fallback",
        "default",
        SpanFieldValues {
            namespace: Some("app:init".to_string()),
            message: Some("loading config".to_string()),
            rust_debug_managed: false,
        },
    );

    assert_eq!(
        result,
        Some(SpanDescriptor {
            namespace: "app:init".to_string(),
            name: "loading config".to_string(),
        })
    );
}

#[test]
fn resolve_span_descriptor_falls_back_to_target_and_name() {
    let result = resolve_span_descriptor("target", "span_name", SpanFieldValues::default());
    assert_eq!(result, Some(SpanDescriptor { namespace: "target".to_string(), name: "span_name".to_string() }));
}

#[test]
fn normalize_strips_only_surrounding_quotes() {
    assert_eq!(normalize_debug_value("\"app\""), "app");
    assert_eq!(normalize_debug_value("\""), "\"");
    assert_eq!(normalize_debug_value("\"\""), "");
    assert_eq!(normalize_debug_value("\"a"), "\"a");
    assert_eq!(normalize_debug_value("42"), "42");
}

#[test]
fn span_field_collector_routes_fields() {
    let mut c = SpanFieldCollector::new();
    c.record_debug("ns", "\"app:init\"");
    c.record_str("msg", "loading");
    c.record_str("other", "ignored");
    c.record_bool("rust_debug_managed", true);
    c.record_bool("other", false);
    let v = c.into_values();
    assert_eq!(v.namespace.as_deref(), Some("app:init"));
    assert_eq!(v.message.as_deref(), Some("loading"));
    assert!(v.rust_debug_managed);
}

#[test]
fn field_collector_builds_event_message() {
    let mut c = FieldCollector::new();
    assert_eq!(c.event_message(), "");
    c.record_text("message", "connected".to_string());
    c.record_value("port", "5900".to_string());
    c.record_text("host", "\"h\"".to_string());
    c.record_text("namespace", "vnc".to_string());
    assert_eq!(c.event_message(), "connected port=5900 host=\"h\"");
    assert_eq!(c.namespace_or("target"), "vnc");
    let mut d = FieldCollector::new();
    d.record_value("ok", "true".to_string());
    assert_eq!(d.event_message(), "ok=true");
    assert_eq!(d.namespace_or("target"), "target");
}

#[test]
fn layer_event_lines() {
    let mut layer = TracingLayer::from_env(&settings(Some("vnc:*"), false));
    let mut c = FieldCollector::new();
    c.record_text("message", "hello".to_string());
    c.record_value("n", "1".to_string());
    assert_eq!(layer.event_line(&c, "vnc:conn", Level::Info, 100, "TS"), Some("TS vnc:conn hello n=1 +0us\n".to_string()));
    assert_eq!(layer.event_line(&c, "vnc:conn", Level::Warn, 2_100, "TS"), Some("TS vnc:conn WARN hello n=1 +2.0ms\n".to_string()));
    assert_eq!(layer.event_line(&c, "other", Level::Info, 100, "TS"), None);
    c.record_text("ns", "vnc:x".to_string());
    assert_eq!(layer.event_line(&c, "other", Level::Info, 100, "TS"), Some("TS vnc:x hello n=1 +0us\n".to_string()));
}

#[test]
fn layer_filters_and_tracks_namespaces() {
    let layer = TracingLayer::from_env(&settings(Some("vnc:*,-vnc:key"), false));
    assert!(layer.is_enabled("vnc:conn"));
    assert!(!layer.is_enabled("vnc:key"));
    assert!(!layer.is_enabled("other"));
    let mut all = TracingLayer::all(&settings(None, false));
    assert!(all.is_enabled("anything"));
    assert_eq!(all.get_color_and_diff("a", 100), (6, 0));
    assert_eq!(all.get_color_and_diff("b", 150), (2, 0));
    assert_eq!(all.get_color_and_diff("a", 400), (6, 300));
}

#[test]
fn layer_builders_and_lines() {
    let layer = TracingLayer::all(&settings(None, true)).with_colors(false).with_diff(false).with_time(true);
    assert!(!layer.show_diff());
    assert_eq!(layer.render_line("app", Level::Info, 6, "m", "", false, "TS"), "TS app m\n");
    let colored = TracingLayer::all(&settings(None, true));
    assert_eq!(
        colored.render_line("app", Level::Info, 6, "m", "", false, "TS"),
        "  \x1b[96mapp\x1b[0m \x1b[90mm\x1b[0m\n"
    );
    let not_tty = TracingLayer::all(&settings(None, false));
    assert_eq!(not_tty.render_line("app", Level::Error, 6, "m", "2s", true, "TS"), "TS app ERROR m +2s\n");
    let forced = TracingLayer::all(&settings(None, false)).with_colors(true);
    assert_eq!(
        forced.render_line("app", Level::Error, 6, "m", "2s", true, "TS"),
        "  \x1b[91mapp ERROR\x1b[0m \x1b[90mm\x1b[0m \x1b[91m+2s\x1b[0m\n"
    );
}

#[test]
fn all_layer_ignores_debug_exclusions() {
    let layer = TracingLayer::all(&settings(Some("-key"), false));
    assert!(layer.is_enabled("key"));
    assert!(layer.is_enabled("anything"));
    let from_env = TracingLayer::from_env(&settings(Some("-key"), false));
    assert!(!from_env.is_enabled("key"));
}

#[test]
fn layer_span_enter_and_exit_lines() {
    let mut layer = TracingLayer::all(&settings(None, false));
    let managed = SpanFieldValues { rust_debug_managed: true, ..SpanFieldValues::default() };
    assert!(layer.track_span("app", "load", managed).is_none());
    let mut timing: SpanTiming = layer.track_span("app", "load", SpanFieldValues::default()).unwrap();
    assert_eq!(timing.elapsed(10), None);
    assert_eq!(layer.enter_span(&mut timing, 1_000, "TS"), Some("TS app -> load\n".to_string()));
    assert_eq!(timing.entered, Some(1_000));
    assert_eq!(timing.elapsed(4_000), Some(3_000));
    assert_eq!(layer.exit_span(&timing, 4_000, "TS"), Some("TS app <- load (3.0ms)\n".to_string()));
    let never_entered = SpanTiming { entered: None, namespace: "app".to_string(), name: "load".to_string() };
    assert_eq!(layer.exit_span(&never_entered, 4_000, "TS"), Some("TS app <- load (?)\n".to_string()));
    let mut filtered = TracingLayer::from_env(&settings(Some("other"), false));
    assert!(filtered.track_span("app", "load", SpanFieldValues::default()).is_none());
    let mut t = SpanTiming { entered: None, namespace: "app".to_string(), name: "x".to_string() };
    assert_eq!(filtered.enter_span(&mut t, 5, "TS"), None);
    assert_eq!(t.entered, Some(5));
}
