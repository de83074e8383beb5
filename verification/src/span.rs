//! Span guards: entry and exit lines around a region of code.
use vstd::prelude::*;
use crate::duration::{humanize, humanize_text};
use crate::level::Level;
use crate::registry::{enabled_for, enabled_for_step, DebugState};

verus! {

/// The abstract state of a [`SpanGuard`].
pub struct SpanGuardView {
    pub namespace: Seq<char>,
    pub message: Seq<char>,
    pub start: u128,
    pub enabled: bool,
}

/// A span opened in a namespace: knows whether its namespace was enabled at
/// debug level when it was opened, and when (microseconds on a monotonic
/// clock) it was opened.
pub struct SpanGuard {
    namespace: String,
    message: String,
    start: u128,
    enabled: bool,
}

impl View for SpanGuard {
    type V = SpanGuardView;

    closed spec fn view(&self) -> SpanGuardView {
        SpanGuardView { namespace: self.namespace@, message: self.message@, start: self.start, enabled: self.enabled }
    }
}

/// `-> {message}`
pub open spec fn entry_text(message: Seq<char>) -> Seq<char> {
    seq!['-', '>', ' '] + message
}

/// `<- {message} ({elapsed})`
pub open spec fn exit_text(message: Seq<char>, elapsed: Seq<char>) -> Seq<char> {
    seq!['<', '-', ' '] + message + seq![' ', '('] + elapsed + seq![')']
}

/// The message of a span's entry line.
pub fn entry_message(message: &str) -> (r: String)
    ensures
        r@ == entry_text(message@),
{
    let mut out = String::new();
    proof {
        reveal_strlit("-> ");
    }
    out.append("-> ");
    out.append(message);
    out
}

/// The message of a span's exit line; `elapsed` is the rendered duration.
pub fn exit_message(message: &str, elapsed: &str) -> (r: String)
    ensures
        r@ == exit_text(message@, elapsed@),
{
    let mut out = String::new();
    proof {
        reveal_strlit("<- ");
        reveal_strlit(" (");
        reveal_strlit(")");
    }
    out.append("<- ");
    out.append(message);
    out.append(" (");
    out.append(elapsed);
    out.append(")");
    assert(out@ =~= exit_text(message@, elapsed@));
    out
}

impl SpanGuard {
    /// Opens a span in `namespace` at time `start`; the span logs only if
    /// the namespace is enabled at debug level (which registers it).
    pub fn new(state: &mut DebugState, namespace: &str, message: &str, start: u128) -> (r: SpanGuard)
        requires
            old(state).wf(),
        ensures
            final(state).wf(),
            (r@.enabled, final(state)@) == enabled_for_step(old(state)@, namespace@, Level::Debug),
            r@.namespace == namespace@,
            r@.message == message@,
            r@.start == start,
    {
        let enabled = enabled_for(state, namespace, Level::Debug);
        SpanGuard {
            namespace: String::from_str(namespace),
            message: String::from_str(message),
            start,
            enabled,
        }
    }

    /// Whether the span logs its entry and exit.
    pub fn is_enabled(&self) -> (r: bool)
        ensures
            r == self@.enabled,
    {
        self.enabled
    }

    /// The span's namespace.
    pub fn namespace(&self) -> (r: &str)
        ensures
            r@ == self@.namespace,
    {
        self.namespace.as_str()
    }

    /// The message of the entry line: `-> {message}`.
    pub fn entry_message(&self) -> (r: String)
        ensures
            r@ == entry_text(self@.message),
    {
        entry_message(self.message.as_str())
    }

    /// The message of the exit line when the span closes at `now`:
    /// `<- {message} ({elapsed})`, the elapsed time humanized.
    pub fn exit_message(&self, now: u128) -> (r: String)
        ensures
            r@ == exit_text(self@.message, humanize_text(
                (if now >= self@.start { (now - self@.start) as u128 } else { 0 }) as nat,
            )),
    {
        let elapsed = humanize(self.elapsed(now));
        exit_message(self.message.as_str(), elapsed.as_str())
    }

    /// Microseconds from the opening of the span to `now`, zero if `now` is
    /// not later.
    pub fn elapsed(&self, now: u128) -> (r: u128)
        ensures
            r == (if now >= self@.start { (now - self@.start) as u128 } else { 0 }),
    {
        if now >= self.start { now - self.start } else { 0 }
    }
}

} // verus!
