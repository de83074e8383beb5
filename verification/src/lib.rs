//! Namespace-based debug logging: which namespaces a `DEBUG` pattern list
//! enables, how log lines are rendered (colored on a terminal, plain in
//! files), UTC timestamps, span entry/exit lines, and the rendering rules
//! of a tracing layer that follows the same conventions.
//!
//! Patterns are comma- or whitespace-separated: `*` matches every
//! namespace, `prefix*` every namespace that starts with `prefix`, anything
//! else only itself; a leading `-` turns a pattern into an exclusion, and
//! exclusions take priority over inclusions.
use vstd::prelude::*;

pub mod calendar;
pub mod duration;
pub mod files;
pub mod formatting;
pub mod layer;
pub mod level;
pub mod patterns;
pub mod registry;
pub mod span;
pub mod text;
pub mod tracing_init;

pub use calendar::days_to_ymd;
pub use duration::humanize;
pub use formatting::{
    duration_unit, epoch_offset_or_zero, format_colored, format_plain, utc_date_string, utc_date_string_at, utc_timestamp,
    utc_timestamp_at, DurationUnit,
};
pub use layer::{
    normalize_debug_value, resolve_span_descriptor, FieldCollector, SpanDescriptor, SpanFieldCollector,
    SpanFieldValues, SpanTiming, TracingLayer,
};
pub use level::Level;
pub use patterns::{parse_debug_patterns, pattern_matches};
pub use registry::{color_at, enabled, enabled_for, DebugState, EnvSettings, LogLines};
pub use span::SpanGuard;

verus! {

/// ANSI color indices handed to namespaces in turn: cyan, green, yellow,
/// blue, magenta, red.
pub const COLORS: [u8; 6] = [6, 2, 3, 4, 5, 1];

} // verus!
