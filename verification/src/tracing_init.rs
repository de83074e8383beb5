//! The pure parts of setting up the tracing stack: the fallback level
//! filter and the names of the tracing log files.
use vstd::prelude::*;
use tracing_subscriber::EnvFilter;
use crate::level::Level;
use crate::registry::{level_setting, parse_min_level};

verus! {

#[verifier::external_type_specification]
#[verifier::external_body]
pub struct ExEnvFilter(EnvFilter);

/// The tracing filter directive for a `DEBUG_LEVEL` value: the level's name
/// in lower case, `debug` for anything unrecognised.
pub open spec fn filter_directive_text(debug_level: Seq<char>) -> Seq<char> {
    match level_setting(debug_level) {
        Level::Error => seq!['e', 'r', 'r', 'o', 'r'],
        Level::Warn => seq!['w', 'a', 'r', 'n'],
        Level::Info => seq!['i', 'n', 'f', 'o'],
        Level::Debug => seq!['d', 'e', 'b', 'u', 'g'],
    }
}

/// The tracing filter directive that matches a `DEBUG_LEVEL` value.
pub fn tracing_filter_directive(debug_level: &str) -> (r: &'static str)
    ensures
        r@ == filter_directive_text(debug_level@),
{
    match parse_min_level(debug_level) {
        Level::Error => {
            proof { reveal_strlit("error"); }
            "error"
        },
        Level::Warn => {
            proof { reveal_strlit("warn"); }
            "warn"
        },
        Level::Info => {
            proof { reveal_strlit("info"); }
            "info"
        },
        Level::Debug => {
            proof { reveal_strlit("debug"); }
            "debug"
        },
    }
}

/// `EnvFilter::new` of tracing-subscriber: a filter parsed from
/// `directives`, invalid directives ignored (it does not fail). Nothing is
/// stated of the filter it returns: it holds per-instance state (hash maps
/// with their own seeds), so not even two calls on one string are claimed
/// to agree.
#[verifier::external_body]
fn env_filter_new(directives: &str) -> EnvFilter {
    EnvFilter::new(directives)
}

/// The level filter used when `RUST_LOG` gives none: the filter that
/// tracing-subscriber builds from the directive [`tracing_filter_directive`]
/// gives for `DEBUG_LEVEL`.
pub fn fallback_env_filter(debug_level: &str) -> EnvFilter {
    let directive = tracing_filter_directive(debug_level);
    env_filter_new(directive)
}

/// The file name prefix of the tracing log files of `app_name`:
/// `{app}.tracing`, or `{app}.tracing.json` for JSON output.
pub open spec fn tracing_file_prefix_text(app_name: Seq<char>, json: bool) -> Seq<char> {
    let base = app_name + seq!['.', 't', 'r', 'a', 'c', 'i', 'n', 'g'];
    if json { base + seq!['.', 'j', 's', 'o', 'n'] } else { base }
}

/// The file name prefix of the tracing log files of `app_name`.
pub fn tracing_file_prefix(app_name: &str, json: bool) -> (r: String)
    ensures
        r@ == tracing_file_prefix_text(app_name@, json),
{
    let mut out = String::from_str(app_name);
    proof {
        reveal_strlit(".tracing");
        reveal_strlit(".json");
    }
    out.append(".tracing");
    if json {
        out.append(".json");
    }
    assert(out@ =~= tracing_file_prefix_text(app_name@, json));
    out
}

} // verus!
