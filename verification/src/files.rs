//! Log file naming and rotation, log directory choice, and the fixed texts
//! written around log lines.
use vstd::prelude::*;
use crate::text::{decimal, push_char, push_decimal, push_string, str_eq};

verus! {

/// `{prefix}.{date}.log`
pub open spec fn log_file_name_text(prefix: Seq<char>, date: Seq<char>) -> Seq<char> {
    prefix + seq!['.'] + date + seq!['.', 'l', 'o', 'g']
}

/// The name of the log file for `date`: `{prefix}.{date}.log`.
pub fn log_file_name(prefix: &str, date: &str) -> (r: String)
    ensures
        r@ == log_file_name_text(prefix@, date@),
{
    let mut out = String::from_str(prefix);
    push_char(&mut out, '.');
    out.append(date);
    push_char(&mut out, '.');
    push_char(&mut out, 'l');
    push_char(&mut out, 'o');
    push_char(&mut out, 'g');
    assert(out@ =~= log_file_name_text(prefix@, date@));
    out
}

/// The log file that the settings ask for: `DEBUG_FILE` names one file,
/// `DEBUG_LOG_DIR` a directory of daily files.
#[derive(Debug, PartialEq, Eq)]
pub enum LogFileChoice {
    Single(String),
    Rolling(String),
}

/// Which log file to open, from the `DEBUG_FILE` and `DEBUG_LOG_DIR`
/// settings: `DEBUG_FILE` wins when both are set, and without either no
/// file is written.
pub fn log_file_choice(debug_file: Option<String>, debug_log_dir: Option<String>) -> (r: Option<LogFileChoice>)
    ensures
        debug_file is Some ==> (r matches Some(LogFileChoice::Single(path)) && path@ == debug_file->0@),
        debug_file is None && debug_log_dir is Some
            ==> (r matches Some(LogFileChoice::Rolling(dir)) && dir@ == debug_log_dir->0@),
        debug_file is None && debug_log_dir is None ==> r is None,
{
    match debug_file {
        Some(path) => Some(LogFileChoice::Single(path)),
        None => match debug_log_dir {
            Some(dir) => Some(LogFileChoice::Rolling(dir)),
            None => None,
        },
    }
}

/// Where log lines are written: one file, or a file per UTC day in `dir`
/// named after `prefix` and the day's date.
pub enum LogFileTarget {
    Single,
    Rolling { dir: String, prefix: String, current_date: String },
}

/// The abstract form of a [`LogFileTarget`].
pub enum LogFileTargetView {
    Single,
    Rolling { dir: Seq<char>, prefix: Seq<char>, current_date: Seq<char> },
}

impl View for LogFileTarget {
    type V = LogFileTargetView;

    open spec fn view(&self) -> LogFileTargetView {
        match self {
            LogFileTarget::Single => LogFileTargetView::Single,
            LogFileTarget::Rolling { dir, prefix, current_date } => LogFileTargetView::Rolling {
                dir: dir@,
                prefix: prefix@,
                current_date: current_date@,
            },
        }
    }
}

impl LogFileTarget {
    /// A daily-rotating target whose current file is that of `date`.
    pub fn rolling(dir: &str, prefix: &str, date: &str) -> (r: LogFileTarget)
        ensures
            r@ == (LogFileTargetView::Rolling { dir: dir@, prefix: prefix@, current_date: date@ }),
    {
        LogFileTarget::Rolling {
            dir: String::from_str(dir),
            prefix: String::from_str(prefix),
            current_date: String::from_str(date),
        }
    }

    /// Before a write on day `today`: the name of the file a rolling
    /// target must switch to (in its directory) when its current date
    /// differs, `None` when it stays on its file.
    pub fn rotation(&self, today: &str) -> (r: Option<String>)
        ensures
            match self@ {
                LogFileTargetView::Rolling { dir, prefix, current_date } => if current_date != today@ {
                    r matches Some(name) && name@ == log_file_name_text(prefix, today@)
                } else {
                    r is None
                },
                LogFileTargetView::Single => r is None,
            },
    {
        match self {
            LogFileTarget::Single => None,
            LogFileTarget::Rolling { dir: _, prefix, current_date } => {
                if str_eq(current_date.as_str(), today) {
                    None
                } else {
                    Some(log_file_name(prefix.as_str(), today))
                }
            },
        }
    }

    /// Records that a rolling target now writes to the file of `date`.
    pub fn moved_to(&mut self, date: &str)
        ensures
            match old(self)@ {
                LogFileTargetView::Rolling { dir, prefix, current_date } => final(self)@ == (LogFileTargetView::Rolling { dir, prefix, current_date: date@ }),
                LogFileTargetView::Single => final(self)@ == old(self)@,
            },
    {
        if let LogFileTarget::Rolling { dir: _, prefix: _, current_date } = self {
            *current_date = String::from_str(date);
        }
    }

    /// The directory of a rolling target.
    pub fn directory(&self) -> (r: Option<&str>)
        ensures
            match self@ {
                LogFileTargetView::Rolling { dir, .. } => r matches Some(d) && d@ == dir,
                LogFileTargetView::Single => r is None,
            },
    {
        match self {
            LogFileTarget::Single => None,
            LogFileTarget::Rolling { dir, prefix: _, current_date: _ } => Some(dir.as_str()),
        }
    }
}

/// The components of the default log directory of `app_name`, to be joined
/// as a path: on macOS `$HOME/Library/Logs/{app}`; elsewhere
/// `$XDG_STATE_HOME/{app}` or `$HOME/.local/state/{app}`; `./{app}` when the
/// variables are unset.
pub open spec fn log_dir_parts(macos: bool, xdg_state_home: Option<Seq<char>>, home: Option<Seq<char>>, app: Seq<char>) -> Seq<Seq<char>> {
    if macos {
        match home {
            Some(h) => seq![h, seq!['L', 'i', 'b', 'r', 'a', 'r', 'y', '/', 'L', 'o', 'g', 's'], app],
            None => seq![seq!['.'], app],
        }
    } else {
        match (xdg_state_home, home) {
            (Some(x), _) => seq![x, app],
            (None, Some(h)) => seq![h, seq!['.', 'l', 'o', 'c', 'a', 'l'], seq!['s', 't', 'a', 't', 'e'], app],
            (None, None) => seq![seq!['.'], app],
        }
    }
}

/// The default log directory of `app_name` as path components (see
/// [`log_dir_parts`]); `xdg_state_home` and `home` are the values of
/// `XDG_STATE_HOME` and `HOME`.
pub fn log_dir_components(macos: bool, xdg_state_home: Option<String>, home: Option<String>, app_name: &str) -> (r: Vec<String>)
    ensures
        r.deep_view() == log_dir_parts(macos, xdg_state_home.deep_view(), home.deep_view(), app_name@),
{
    let app = String::from_str(app_name);
    let mut parts: Vec<String> = Vec::new();
    proof {
        reveal_strlit("Library/Logs");
        reveal_strlit(".");
        reveal_strlit(".local");
        reveal_strlit("state");
        assert("Library/Logs"@ =~= seq!['L', 'i', 'b', 'r', 'a', 'r', 'y', '/', 'L', 'o', 'g', 's']);
        assert("."@ =~= seq!['.']);
        assert(".local"@ =~= seq!['.', 'l', 'o', 'c', 'a', 'l']);
        assert("state"@ =~= seq!['s', 't', 'a', 't', 'e']);
    }
    if macos {
        match home {
            Some(h) => {
                push_string(&mut parts, h);
                push_string(&mut parts, String::from_str("Library/Logs"));
            },
            None => {
                push_string(&mut parts, String::from_str("."));
            },
        }
    } else {
        match (xdg_state_home, home) {
            (Some(x), _) => {
                push_string(&mut parts, x);
            },
            (None, Some(h)) => {
                push_string(&mut parts, h);
                push_string(&mut parts, String::from_str(".local"));
                push_string(&mut parts, String::from_str("state"));
            },
            (None, None) => {
                push_string(&mut parts, String::from_str("."));
            },
        }
    }
    push_string(&mut parts, app);
    assert(parts.deep_view() =~= log_dir_parts(macos, xdg_state_home.deep_view(), home.deep_view(), app_name@));
    parts
}

/// `=== session started: {ts} pid={pid} ===\n`
pub open spec fn session_marker_text(ts: Seq<char>, pid: u32) -> Seq<char> {
    seq!['=', '=', '=', ' ', 's', 'e', 's', 's', 'i', 'o', 'n', ' ', 's', 't', 'a', 'r', 't', 'e', 'd', ':', ' ']
        + ts + seq![' ', 'p', 'i', 'd', '='] + decimal(pid as nat) + seq![' ', '=', '=', '=', '\n']
}

/// The line that marks the start of a logging session.
pub fn session_marker(ts: &str, pid: u32) -> (r: String)
    ensures
        r@ == session_marker_text(ts@, pid),
{
    let mut out = String::new();
    proof {
        reveal_strlit("=== session started: ");
        reveal_strlit(" pid=");
        reveal_strlit(" ===\n");
    }
    out.append("=== session started: ");
    out.append(ts);
    out.append(" pid=");
    push_decimal(&mut out, pid as u128);
    out.append(" ===\n");
    assert(out@ =~= session_marker_text(ts@, pid));
    out
}

/// `{ts} PANIC {info}\n`, followed by `  span trace:\n{trace}\n` when a span
/// trace was captured.
pub open spec fn panic_report_text(ts: Seq<char>, info: Seq<char>, span_trace: Option<Seq<char>>) -> Seq<char> {
    let head = ts + seq![' ', 'P', 'A', 'N', 'I', 'C', ' '] + info + seq!['\n'];
    match span_trace {
        Some(t) => head + seq![' ', ' ', 's', 'p', 'a', 'n', ' ', 't', 'r', 'a', 'c', 'e', ':', '\n'] + t + seq!['\n'],
        None => head,
    }
}

/// The report written when the program panics; `info` is the rendered panic
/// information.
pub fn panic_report(ts: &str, info: &str, span_trace: Option<&str>) -> (r: String)
    ensures
        r@ == panic_report_text(ts@, info@, match span_trace { Some(t) => Some(t@), None => None }),
{
    let mut out = String::new();
    proof {
        reveal_strlit(" PANIC ");
        reveal_strlit("\n");
        reveal_strlit("  span trace:\n");
    }
    out.append(ts);
    out.append(" PANIC ");
    out.append(info);
    out.append("\n");
    if let Some(t) = span_trace {
        out.append("  span trace:\n");
        out.append(t);
        out.append("\n");
    }
    assert(out@ =~= panic_report_text(ts@, info@, match span_trace { Some(t) => Some(t@), None => None }));
    out
}

} // verus!
