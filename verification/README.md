# rust-debug

Namespace-based debug logging driven by the `DEBUG` environment variable
(`DEBUG=*`, `DEBUG=vnc:*,clipboard`, `DEBUG=*,-key`), verified with Verus.

## Layout

- `src/` — the verified library, written in Verus:
  - `patterns.rs`: splitting a `DEBUG` value into inclusion and exclusion
    patterns, and matching namespaces (`*`, `prefix*`, exact names);
  - `registry.rs`: the namespace registry behind `enabled`/`enabled_for`
    (settings, per-namespace colors and time of last call, the lines of a
    log call), with its invariant and laws;
  - `formatting.rs`: colored and plain log lines (a colored line without
    its escape codes is the plain one), UTC timestamps, duration units; `duration.rs`: `humanize`, with the `f64` division and `{:.1}`
    rounding it performs modelled exactly in integers;
  - `calendar.rs`: days since 1970-01-01 to civil dates, proved against a
    direct definition of the Gregorian calendar;
  - `span.rs`, `layer.rs`: span guards and the tracing layer's filtering,
    field collection and rendering; `tracing_init.rs`, `files.rs`: filter
    directives, the choice between `DEBUG_FILE` and `DEBUG_LOG_DIR`, log
    file names and rotation, log directories, fixed texts;
  - `text.rs`: decimal rendering, padding and string comparison helpers.
- `app/` — the process-wide parts: environment variables, global state,
  stderr and file output, panic hook, the logging macros and the
  `tracing-subscriber` layer and setup, all delegating their decisions and
  rendering to the library.
- `tests/` — tests of the library, including comparisons of `humanize` with
  real `f64` formatting and of `days_to_ymd` with a day-by-day calendar walk.
