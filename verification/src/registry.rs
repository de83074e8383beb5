//! The namespace registry behind `enabled`, `enabled_for` and `write_log`:
//! configuration read from the `DEBUG*` settings, and per-namespace state.
use vstd::prelude::*;
use crate::duration::{humanize, humanize_text};
use crate::formatting::{colored_line, format_colored, format_plain, plain_line};
use crate::level::{at_least_as_severe, lemma_rank_follows_severity, Level};
use crate::patterns::{any_match, exclusions, fields, inclusions, matches_any, parse_debug_patterns, pattern_match};
use crate::text::{ascii_lower, eq_ignore_ascii_case, eq_ignoring_ascii_case, str_eq};

verus! {

/// The raw values of the settings the registry is configured from, as read
/// from the environment (`None` for an unset variable), and whether stderr
/// is a terminal.
pub struct EnvSettings {
    pub debug: Option<String>,
    pub debug_level: Option<String>,
    pub debug_colors: Option<String>,
    pub debug_show_time: Option<String>,
    pub debug_hide_diff: Option<String>,
    pub stderr_is_tty: bool,
}

/// The value of a setting, the empty string when it is unset.
pub open spec fn setting_text(v: Option<String>) -> Seq<char> {
    match v {
        Some(s) => s@,
        None => Seq::empty(),
    }
}

/// The minimum level named by a `DEBUG_LEVEL` value (case-insensitive);
/// anything else means `Debug`.
pub open spec fn level_setting(v: Seq<char>) -> Level {
    if eq_ignoring_ascii_case(v, seq!['e', 'r', 'r', 'o', 'r']) {
        Level::Error
    } else if eq_ignoring_ascii_case(v, seq!['w', 'a', 'r', 'n']) {
        Level::Warn
    } else if eq_ignoring_ascii_case(v, seq!['i', 'n', 'f', 'o']) {
        Level::Info
    } else {
        Level::Debug
    }
}

/// `DEBUG_COLORS`: colors stay on unless the value is `0`.
pub open spec fn colors_setting(v: Option<String>) -> bool {
    match v {
        Some(s) => s@ != seq!['0'],
        None => true,
    }
}

/// A boolean switch such as `DEBUG_SHOW_TIME`: on for `1` or for `true` in
/// any ASCII case, off otherwise and when unset.
pub open spec fn switch_setting(v: Option<String>) -> bool {
    match v {
        Some(s) => s@ == seq!['1'] || eq_ignoring_ascii_case(s@, seq!['t', 'r', 'u', 'e']),
        None => false,
    }
}

/// Reads a `DEBUG_LEVEL` value. Matching is ASCII case-insensitive, which
/// agrees with comparing the Unicode lowercase form against these words.
pub fn parse_min_level(v: &str) -> (r: Level)
    ensures
        r == level_setting(v@),
{
    proof {
        reveal_strlit("error");
        reveal_strlit("warn");
        reveal_strlit("info");
    }
    if eq_ignore_ascii_case(v, "error") {
        Level::Error
    } else if eq_ignore_ascii_case(v, "warn") {
        Level::Warn
    } else if eq_ignore_ascii_case(v, "info") {
        Level::Info
    } else {
        Level::Debug
    }
}

/// Reads `DEBUG_COLORS`.
pub fn parse_colors(v: &Option<String>) -> (r: bool)
    ensures
        r == colors_setting(*v),
{
    match v {
        Some(s) => {
            proof {
                reveal_strlit("0");
                assert("0"@ =~= seq!['0']);
            }
            !str_eq(s.as_str(), "0")
        },
        None => true,
    }
}

/// Reads a boolean switch such as `DEBUG_SHOW_TIME` or `DEBUG_HIDE_DIFF`.
pub fn parse_switch(v: &Option<String>) -> (r: bool)
    ensures
        r == switch_setting(*v),
{
    match v {
        Some(s) => {
            proof {
                reveal_strlit("1");
                reveal_strlit("true");
                assert("1"@ =~= seq!['1']);
                assert("true"@ =~= seq!['t', 'r', 'u', 'e']);
            }
            str_eq(s.as_str(), "1") || eq_ignore_ascii_case(s.as_str(), "true")
        },
        None => false,
    }
}

/// The value of a setting as a string, empty when unset.
fn setting_or_empty(v: &Option<String>) -> (r: String)
    ensures
        r@ == setting_text(*v),
{
    match v {
        Some(s) => s.clone(),
        None => String::new(),
    }
}

/// The color of the `i`-th namespace to be registered: the colors of
/// [`crate::COLORS`] in turn.
pub open spec fn spec_color_at(i: int) -> u8 {
    crate::COLORS@[i % 6]
}

/// The color of the `i`-th namespace to be registered (counting from 0).
pub fn color_at(i: usize) -> (r: u8)
    ensures
        r == spec_color_at(i as int),
{
    crate::COLORS[i % 6]
}

/// Microseconds from `last` to `now`; zero without an earlier call, and zero
/// if `now` is not later (elapsed time saturates at zero).
pub open spec fn elapsed_since(last: Option<u128>, now: u128) -> u128 {
    match last {
        Some(t) => if now >= t { (now - t) as u128 } else { 0 },
        None => 0,
    }
}

/// The character `c` in either ASCII case: `lower` or `upper`.
pub open spec fn is_letter_of(c: char, lower: char, upper: char) -> bool {
    c == lower || c == upper
}

proof fn lemma_ascii_lower_is(c: char, lower: char, upper: char)
    requires
        'a' <= lower <= 'z',
        upper as int == lower as int - 32,
    ensures
        (ascii_lower(c) == lower) == is_letter_of(c, lower, upper),
{
    if 'A' <= c && c <= 'Z' {
        assert((((c as u8) + 32u8) as u8) as int == c as int + 32);
    }
}

/// A switch is on exactly for `1`, and for `true` with each letter in
/// either case; `0`, `false`, the empty value and an unset switch are off.
pub proof fn lemma_switch_is_one_or_true(v: Option<String>)
    ensures
        switch_setting(v) == (v matches Some(s) && (s@ =~= seq!['1'] || (s@.len() == 4
            && is_letter_of(s@[0], 't', 'T') && is_letter_of(s@[1], 'r', 'R')
            && is_letter_of(s@[2], 'u', 'U') && is_letter_of(s@[3], 'e', 'E')))),
{
    if let Some(s) = v {
        let t = s@;
        if t.len() == 4 {
            lemma_ascii_lower_is(t[0], 't', 'T');
            lemma_ascii_lower_is(t[1], 'r', 'R');
            lemma_ascii_lower_is(t[2], 'u', 'U');
            lemma_ascii_lower_is(t[3], 'e', 'E');
            let w = seq!['t', 'r', 'u', 'e'];
            assert(ascii_lower(w[0]) == 't' && ascii_lower(w[1]) == 'r' && ascii_lower(w[2]) == 'u' && ascii_lower(w[3]) == 'e');
            if eq_ignoring_ascii_case(t, w) {
                assert(ascii_lower(t[0]) == ascii_lower(w[0]));
                assert(ascii_lower(t[1]) == ascii_lower(w[1]));
                assert(ascii_lower(t[2]) == ascii_lower(w[2]));
                assert(ascii_lower(t[3]) == ascii_lower(w[3]));
            }
        }
    }
}

/// `v` spells the word `lower` (lower case letters), each letter either
/// as in `lower` or as in `upper`.
pub open spec fn is_word_in_any_case(v: Seq<char>, lower: Seq<char>, upper: Seq<char>) -> bool {
    v.len() == lower.len() && forall|i: int| 0 <= i < v.len() ==> is_letter_of(#[trigger] v[i], lower[i], upper[i])
}

proof fn lemma_ignoring_case_is_any_case(v: Seq<char>, lower: Seq<char>, upper: Seq<char>)
    requires
        lower.len() == upper.len(),
        forall|i: int| 0 <= i < lower.len() ==> 'a' <= #[trigger] lower[i] <= 'z' && upper[i] as int == lower[i] as int - 32,
    ensures
        eq_ignoring_ascii_case(v, lower) == is_word_in_any_case(v, lower, upper),
{
    if v.len() == lower.len() {
        assert forall|i: int| 0 <= i < v.len() implies (ascii_lower(#[trigger] v[i]) == ascii_lower(lower[i])) == is_letter_of(v[i], lower[i], upper[i]) by {
            lemma_ascii_lower_is(v[i], lower[i], upper[i]);
        }
    }
}

/// `DEBUG_LEVEL` names the minimum level by its name in any case (`error`,
/// `warn`, `info`); every other value, and an unset one, means debug.
pub proof fn lemma_level_setting_by_name(v: Seq<char>)
    ensures
        (level_setting(v) == Level::Error) == is_word_in_any_case(v, seq!['e', 'r', 'r', 'o', 'r'], seq!['E', 'R', 'R', 'O', 'R']),
        (level_setting(v) == Level::Warn) == is_word_in_any_case(v, seq!['w', 'a', 'r', 'n'], seq!['W', 'A', 'R', 'N']),
        (level_setting(v) == Level::Info) == is_word_in_any_case(v, seq!['i', 'n', 'f', 'o'], seq!['I', 'N', 'F', 'O']),
{
    let (e, eu) = (seq!['e', 'r', 'r', 'o', 'r'], seq!['E', 'R', 'R', 'O', 'R']);
    let (w, wu) = (seq!['w', 'a', 'r', 'n'], seq!['W', 'A', 'R', 'N']);
    let (f, fu) = (seq!['i', 'n', 'f', 'o'], seq!['I', 'N', 'F', 'O']);
    lemma_ignoring_case_is_any_case(v, e, eu);
    lemma_ignoring_case_is_any_case(v, w, wu);
    lemma_ignoring_case_is_any_case(v, f, fu);
    if is_word_in_any_case(v, e, eu) {
        assert(!is_word_in_any_case(v, w, wu) && !is_word_in_any_case(v, f, fu));
    }
    if is_word_in_any_case(v, w, wu) {
        assert(is_letter_of(v[0], 'w', 'W'));
        assert(!is_word_in_any_case(v, f, fu));
    }
}

/// `DEBUG_COLORS` turns colors off only with the value `0`; unset, or any
/// other value, leaves them on.
pub proof fn lemma_colors_off_only_for_zero(v: Option<String>)
    ensures
        colors_setting(v) == !(v matches Some(s) && s@ =~= seq!['0']),
{
}

/// A namespace seen for the first time is enabled exactly when no exclusion
/// pattern matches it, and some inclusion pattern matches it or all
/// namespaces were enabled: with no inclusions, nothing is enabled until
/// all are.
pub proof fn lemma_allowed_by_patterns(v: DebugStateView, ns: Seq<char>)
    ensures
        is_allowed(v, ns) == ((forall|j: int| 0 <= j < v.excludes.len() ==> !pattern_match(#[trigger] v.excludes[j], ns))
            && (v.all_enabled || exists|i: int| 0 <= i < v.includes.len() && pattern_match(#[trigger] v.includes[i], ns))),
        v.includes.len() == 0 && !v.all_enabled ==> !is_allowed(v, ns),
{
}

/// What the registry knows of one namespace.
pub struct NamespaceView {
    pub name: Seq<char>,
    pub enabled: bool,
    pub color: u8,
    pub last_call: Option<u128>,
}

/// The abstract state of a [`DebugState`].
pub struct DebugStateView {
    pub includes: Seq<Seq<char>>,
    pub excludes: Seq<Seq<char>>,
    pub min_level: Level,
    pub use_colors: bool,
    pub show_time: bool,
    pub show_diff: bool,
    pub stderr_is_tty: bool,
    pub all_enabled: bool,
    pub session_marker_emitted: bool,
    pub namespaces: Seq<NamespaceView>,
}

/// The state a registry starts in for the given settings.
pub open spec fn initial_view(settings: EnvSettings) -> DebugStateView {
    let patterns = fields(setting_text(settings.debug));
    DebugStateView {
        includes: inclusions(patterns),
        excludes: exclusions(patterns),
        min_level: level_setting(setting_text(settings.debug_level)),
        use_colors: colors_setting(settings.debug_colors),
        show_time: switch_setting(settings.debug_show_time),
        show_diff: !switch_setting(settings.debug_hide_diff),
        stderr_is_tty: settings.stderr_is_tty,
        all_enabled: false,
        session_marker_emitted: false,
        namespaces: Seq::empty(),
    }
}

/// Some exclusion pattern matches `ns`.
pub open spec fn is_excluded(v: DebugStateView, ns: Seq<char>) -> bool {
    any_match(v.excludes, ns)
}

/// Some inclusion pattern matches `ns`.
pub open spec fn is_included(v: DebugStateView, ns: Seq<char>) -> bool {
    any_match(v.includes, ns)
}

/// Whether a namespace seen for the first time is enabled: it is not
/// excluded, and it is included or all namespaces are enabled.
pub open spec fn is_allowed(v: DebugStateView, ns: Seq<char>) -> bool {
    !is_excluded(v, ns) && (v.all_enabled || is_included(v, ns))
}

/// Position of `ns` among the registered namespaces.
pub open spec fn index_of(entries: Seq<NamespaceView>, ns: Seq<char>) -> Option<int> {
    if exists|i: int| 0 <= i < entries.len() && (#[trigger] entries[i]).name == ns {
        Some(choose|i: int| 0 <= i < entries.len() && (#[trigger] entries[i]).name == ns)
    } else {
        None
    }
}

/// The invariant of a registry: namespaces are registered once each, the
/// `i`-th gets the `i`-th color, every enabled one is matched by no
/// exclusion and is included or enabled by enabling all, and every one that
/// an inclusion and no exclusion matches is enabled.
pub open spec fn view_wf(v: DebugStateView) -> bool {
    &&& forall|i: int, j: int|
        0 <= i < v.namespaces.len() && 0 <= j < v.namespaces.len() && i != j
            ==> (#[trigger] v.namespaces[i]).name != (#[trigger] v.namespaces[j]).name
    &&& forall|i: int| 0 <= i < v.namespaces.len() ==> (#[trigger] v.namespaces[i]).color == spec_color_at(i)
    &&& forall|i: int|
        0 <= i < v.namespaces.len() && (#[trigger] v.namespaces[i]).enabled ==> !is_excluded(v, v.namespaces[i].name)
    &&& forall|i: int|
        0 <= i < v.namespaces.len() && (#[trigger] v.namespaces[i]).enabled
            ==> v.all_enabled || is_included(v, v.namespaces[i].name)
    &&& forall|i: int|
        0 <= i < v.namespaces.len() && is_included(v, (#[trigger] v.namespaces[i]).name)
            && !is_excluded(v, v.namespaces[i].name) ==> v.namespaces[i].enabled
}

/// The answer of [`enabled`] and the state after it.
pub open spec fn enabled_step(v: DebugStateView, ns: Seq<char>) -> (bool, DebugStateView) {
    match index_of(v.namespaces, ns) {
        Some(i) => (v.namespaces[i].enabled || (v.all_enabled && !is_excluded(v, ns)), v),
        None => {
            let r = is_allowed(v, ns);
            let entry = NamespaceView { name: ns, enabled: r, color: spec_color_at(v.namespaces.len() as int), last_call: None };
            (r, DebugStateView { namespaces: v.namespaces.push(entry), ..v })
        },
    }
}

/// The answer of [`enabled_for`] and the state after it: levels less severe
/// than the minimum are refused without registering the namespace.
pub open spec fn enabled_for_step(v: DebugStateView, ns: Seq<char>, level: Level) -> (bool, DebugStateView) {
    if level.spec_rank() > v.min_level.spec_rank() {
        (false, v)
    } else {
        enabled_step(v, ns)
    }
}

/// The color and time differential [`DebugState::record_call`] reports, and
/// the state after it.
pub open spec fn record_call_step(v: DebugStateView, ns: Seq<char>, now: u128) -> (Option<(u8, u128)>, DebugStateView) {
    match index_of(v.namespaces, ns) {
        Some(i) => {
            let e = v.namespaces[i];
            (
                Some((e.color, elapsed_since(e.last_call, now))),
                DebugStateView { namespaces: v.namespaces.update(i, NamespaceView { last_call: Some(now), ..e }), ..v },
            )
        },
        None => (None, v),
    }
}

/// The registered namespace named `ns`, when there is one, is found at its
/// position.
proof fn lemma_index_of_found(v: DebugStateView, ns: Seq<char>, i: int)
    requires
        view_wf(v),
        0 <= i < v.namespaces.len(),
        v.namespaces[i].name == ns,
    ensures
        index_of(v.namespaces, ns) == Some(i),
{
    let c = choose|j: int| 0 <= j < v.namespaces.len() && (#[trigger] v.namespaces[j]).name == ns;
    assert(v.namespaces[c].name == ns);
}

/// Every query keeps the registry well formed.
pub proof fn lemma_enabled_step_wf(v: DebugStateView, ns: Seq<char>)
    requires
        view_wf(v),
    ensures
        view_wf(enabled_step(v, ns).1),
{
    if index_of(v.namespaces, ns) is None {
        let v2 = enabled_step(v, ns).1;
        assert forall|i: int| 0 <= i < v.namespaces.len() implies (#[trigger] v.namespaces[i]).name != ns by {
            if v.namespaces[i].name == ns {
                assert(exists|j: int| 0 <= j < v.namespaces.len() && (#[trigger] v.namespaces[j]).name == ns);
            }
        }
        assert(v2.namespaces.last().name == ns);
    }
}

/// Asking again gives the same answer: once a namespace has been answered,
/// repeating the query for it (with nothing in between) changes nothing.
pub proof fn lemma_enabled_is_stable(v: DebugStateView, ns: Seq<char>)
    requires
        view_wf(v),
    ensures
        enabled_step(enabled_step(v, ns).1, ns).0 == enabled_step(v, ns).0,
        enabled_step(enabled_step(v, ns).1, ns).1 == enabled_step(v, ns).1,
{
    lemma_enabled_step_wf(v, ns);
    let v1 = enabled_step(v, ns).1;
    if index_of(v.namespaces, ns) is None {
        lemma_index_of_found(v1, ns, v.namespaces.len() as int);
    }
}

/// Whatever was asked before, the answer for a namespace is always the same
/// rule: no exclusion matches it, and all namespaces were enabled or some
/// inclusion matches it. The per-namespace record never changes an answer.
pub proof fn lemma_enabled_answer_is_allowed(v: DebugStateView, ns: Seq<char>)
    requires
        view_wf(v),
    ensures
        enabled_step(v, ns).0 == is_allowed(v, ns),
{
    if let Some(i) = index_of(v.namespaces, ns) {
        assert(v.namespaces[i].name == ns);
    }
}

/// `enabled_for` answers yes exactly when the level is at least as severe
/// as the minimum level and the namespace rule allows the namespace.
pub proof fn lemma_enabled_for_answer_is_allowed(v: DebugStateView, ns: Seq<char>, level: Level)
    requires
        view_wf(v),
    ensures
        enabled_for_step(v, ns, level).0 == (level.spec_rank() <= v.min_level.spec_rank() && is_allowed(v, ns)),
{
    lemma_enabled_answer_is_allowed(v, ns);
}

/// A log call passes the level filter exactly when its level is at least as
/// severe as the minimum level (with minimum info, warnings and errors pass
/// and debug calls do not), and then the namespace rule decides.
pub proof fn lemma_level_filter_follows_severity(v: DebugStateView, ns: Seq<char>, level: Level)
    requires
        view_wf(v),
    ensures
        enabled_for_step(v, ns, level).0 == (at_least_as_severe(level, v.min_level) && is_allowed(v, ns)),
{
    lemma_enabled_for_answer_is_allowed(v, ns, level);
    lemma_rank_follows_severity(level, v.min_level);
}

/// Once all namespaces are enabled, a namespace is enabled exactly when no
/// exclusion matches it.
pub proof fn lemma_enable_all_enables_unexcluded(v: DebugStateView, ns: Seq<char>)
    requires
        view_wf(v),
    ensures
        enabled_step(DebugStateView { all_enabled: true, ..v }, ns).0 == !is_excluded(v, ns),
{
    let v2 = DebugStateView { all_enabled: true, ..v };
    if let Some(i) = index_of(v.namespaces, ns) {
        assert(v.namespaces[i].name == ns);
    }
}

/// The time differential of a log call is the time elapsed since the
/// previous log call for the same namespace.
pub proof fn lemma_diff_is_time_between_calls(v: DebugStateView, ns: Seq<char>, t1: u128, t2: u128)
    requires
        view_wf(v),
        index_of(v.namespaces, ns) is Some,
        t1 <= t2,
    ensures
        ({
            let after_first = record_call_step(v, ns, t1).1;
            let second = record_call_step(after_first, ns, t2).0;
            second == Some((v.namespaces[index_of(v.namespaces, ns)->0].color, (t2 - t1) as u128))
        }),
{
    let i = index_of(v.namespaces, ns)->0;
    assert(v.namespaces[i].name == ns);
    let v1 = record_call_step(v, ns, t1).1;
    assert(view_wf(v1));
    lemma_index_of_found(v1, ns, i);
}

/// `enabled_for` answers yes exactly when the level is at least as severe
/// as the minimum level and `enabled` would answer yes; the minimum level
/// plays no part in `enabled`.
pub proof fn lemma_enabled_for_is_level_and_namespace(v: DebugStateView, ns: Seq<char>, level: Level)
    ensures
        enabled_for_step(v, ns, level).0 == (level.spec_rank() <= v.min_level.spec_rank() && enabled_step(v, ns).0),
        enabled_step(DebugStateView { min_level: level, ..v }, ns).0 == enabled_step(v, ns).0,
{
}

/// The configuration read from the settings never changes: queries and log
/// calls only touch the per-namespace state.
pub open spec fn same_configuration(a: DebugStateView, b: DebugStateView) -> bool {
    &&& a.includes == b.includes
    &&& a.excludes == b.excludes
    &&& a.min_level == b.min_level
    &&& a.use_colors == b.use_colors
    &&& a.show_time == b.show_time
    &&& a.show_diff == b.show_diff
    &&& a.stderr_is_tty == b.stderr_is_tty
    &&& a.all_enabled == b.all_enabled
}

/// Queries and log calls keep the configuration, and the namespaces already
/// registered keep their names, colors and answers.
pub proof fn lemma_configuration_is_fixed(v: DebugStateView, ns: Seq<char>, level: Level, now: u128)
    requires
        view_wf(v),
    ensures
        same_configuration(v, enabled_for_step(v, ns, level).1),
        same_configuration(v, record_call_step(v, ns, now).1),
        enabled_for_step(v, ns, level).1.namespaces.len() >= v.namespaces.len(),
        forall|i: int| 0 <= i < v.namespaces.len() ==> {
            let e = #[trigger] enabled_for_step(v, ns, level).1.namespaces[i];
            e.name == v.namespaces[i].name && e.color == v.namespaces[i].color && e.enabled == v.namespaces[i].enabled
        },
        record_call_step(v, ns, now).1.namespaces.len() == v.namespaces.len(),
        forall|i: int| 0 <= i < v.namespaces.len() ==> {
            let e = #[trigger] record_call_step(v, ns, now).1.namespaces[i];
            e.name == v.namespaces[i].name && e.color == v.namespaces[i].color && e.enabled == v.namespaces[i].enabled
        },
{
}

/// Namespaces take the colors of the cycle in the order they are first
/// seen: the `k`-th registered namespace gets color `k mod 6` of the cycle.
pub proof fn lemma_colors_follow_first_sight(v: DebugStateView, k: int)
    requires
        view_wf(v),
        0 <= k < v.namespaces.len(),
    ensures
        v.namespaces[k].color == spec_color_at(k),
{
}

struct NamespaceEntry {
    name: String,
    enabled: bool,
    color: u8,
    last_call: Option<u128>,
}

impl NamespaceEntry {
    spec fn view(&self) -> NamespaceView {
        NamespaceView { name: self.name@, enabled: self.enabled, color: self.color, last_call: self.last_call }
    }
}

/// The lines [`DebugState::render_log`] produces for one log call.
pub struct LogLines {
    /// The line for stderr, colored on a terminal with colors on.
    pub stderr_line: String,
    /// The line for the log file, always plain.
    pub file_line: String,
}

/// Logging configuration and the state of every namespace seen so far.
pub struct DebugState {
    includes: Vec<String>,
    excludes: Vec<String>,
    min_level: Level,
    use_colors: bool,
    show_time: bool,
    show_diff: bool,
    stderr_is_tty: bool,
    all_enabled: bool,
    session_marker_emitted: bool,
    namespaces: Vec<NamespaceEntry>,
}

impl View for DebugState {
    type V = DebugStateView;

    closed spec fn view(&self) -> DebugStateView {
        DebugStateView {
            includes: self.includes.deep_view(),
            excludes: self.excludes.deep_view(),
            min_level: self.min_level,
            use_colors: self.use_colors,
            show_time: self.show_time,
            show_diff: self.show_diff,
            stderr_is_tty: self.stderr_is_tty,
            all_enabled: self.all_enabled,
            session_marker_emitted: self.session_marker_emitted,
            namespaces: Seq::new(self.namespaces.len() as nat, |i: int| self.namespaces[i].view()),
        }
    }
}

impl DebugState {
    /// A registry is well formed when its view keeps [`view_wf`].
    pub open spec fn wf(&self) -> bool {
        view_wf(self@)
    }

    /// A registry configured from the `DEBUG*` settings, with no namespace
    /// seen yet.
    pub fn from_env(settings: &EnvSettings) -> (r: DebugState)
        ensures
            r.wf(),
            r@ == initial_view(*settings),
    {
        let debug = setting_or_empty(&settings.debug);
        let level = setting_or_empty(&settings.debug_level);
        let (includes, excludes) = parse_debug_patterns(debug.as_str());
        let r = DebugState {
            includes,
            excludes,
            min_level: parse_min_level(level.as_str()),
            use_colors: parse_colors(&settings.debug_colors),
            show_time: parse_switch(&settings.debug_show_time),
            show_diff: !parse_switch(&settings.debug_hide_diff),
            stderr_is_tty: settings.stderr_is_tty,
            all_enabled: false,
            session_marker_emitted: false,
            namespaces: Vec::new(),
        };
        assert(r@.namespaces =~= Seq::<NamespaceView>::empty());
        r
    }

    /// Whether any inclusion pattern was given.
    pub fn has_includes(&self) -> (r: bool)
        ensures
            r == (self@.includes.len() > 0),
    {
        self.includes.len() > 0
    }

    /// Whether stderr lines are colored.
    pub fn colored_output(&self) -> (r: bool)
        ensures
            r == (self@.stderr_is_tty && self@.use_colors),
    {
        self.stderr_is_tty && self.use_colors
    }

    /// Whether time differentials are shown.
    pub fn show_diff(&self) -> (r: bool)
        ensures
            r == self@.show_diff,
    {
        self.show_diff
    }

    /// Whether timestamps are shown on colored output.
    pub fn show_time(&self) -> (r: bool)
        ensures
            r == self@.show_time,
    {
        self.show_time
    }

    /// The least severe level that is logged.
    pub fn min_level(&self) -> (r: Level)
        ensures
            r == self@.min_level,
    {
        self.min_level
    }

    /// Enables every namespace that no exclusion matches.
    pub fn enable_all(&mut self)
        requires
            old(self).wf(),
        ensures
            final(self).wf(),
            final(self)@ == (DebugStateView { all_enabled: true, ..old(self)@ }),
    {
        self.all_enabled = true;
        assert(self@.namespaces =~= old(self)@.namespaces);
    }

    /// Claims the right to emit the session marker: true the first time only.
    pub fn claim_session_marker(&mut self) -> (r: bool)
        requires
            old(self).wf(),
        ensures
            final(self).wf(),
            r == !old(self)@.session_marker_emitted,
            final(self)@ == (DebugStateView { session_marker_emitted: true, ..old(self)@ }),
    {
        let r = !self.session_marker_emitted;
        self.session_marker_emitted = true;
        assert(self@.namespaces =~= old(self)@.namespaces);
        r
    }

    /// Position of `ns` among the registered namespaces.
    fn find(&self, ns: &str) -> (r: Option<usize>)
        requires
            self.wf(),
        ensures
            r matches Some(i) ==> index_of(self@.namespaces, ns@) == Some(i as int),
            r is None ==> index_of(self@.namespaces, ns@) is None,
    {
        let mut i: usize = 0;
        while i < self.namespaces.len()
            invariant
                self.wf(),
                i <= self.namespaces.len(),
                forall|k: int| 0 <= k < i ==> (#[trigger] self@.namespaces[k]).name != ns@,
            decreases self.namespaces.len() - i,
        {
            if str_eq(self.namespaces[i].name.as_str(), ns) {
                let ghost v = self@.namespaces;
                assert(v[i as int].name == ns@);
                assert(exists|j: int| 0 <= j < v.len() && (#[trigger] v[j]).name == ns@);
                let ghost c = choose|j: int| 0 <= j < v.len() && (#[trigger] v[j]).name == ns@;
                assert(c == i);
                return Some(i);
            }
            i = i + 1;
        }
        None
    }

    /// Notes a log call for `ns` at time `now` (microseconds on a monotonic
    /// clock): the namespace's color and the time since its previous call,
    /// or `None` for a namespace never registered.
    pub fn record_call(&mut self, ns: &str, now: u128) -> (r: Option<(u8, u128)>)
        requires
            old(self).wf(),
        ensures
            final(self).wf(),
            (r, final(self)@) == record_call_step(old(self)@, ns@, now),
    {
        match self.find(ns) {
            None => None,
            Some(i) => {
                let ghost v = old(self)@;
                let color = self.namespaces[i].color;
                let diff: u128 = match self.namespaces[i].last_call {
                    Some(t) => if now >= t { now - t } else { 0 },
                    None => 0,
                };
                self.namespaces[i].last_call = Some(now);
                assert(self@.namespaces =~= v.namespaces.update(i as int, NamespaceView { last_call: Some(now), ..v.namespaces[i as int] }));
                Some((color, diff))
            },
        }
    }

    /// The stderr and file lines for a log call whose namespace has `color`;
    /// `diff` is the rendered time differential.
    fn render_log(&self, ns: &str, level: Level, color: u8, message: &str, diff: &str, ts: &str) -> (r: LogLines)
        ensures
            r.stderr_line@ == stderr_text(self@, ns@, level, color, message@, diff@, ts@),
            r.file_line@ == plain_line(ns@, level, message@, diff@, self@.show_diff, ts@),
    {
        let stderr_line = if self.stderr_is_tty && self.use_colors {
            format_colored(ns, level, color, message, diff, self.show_time, self.show_diff, ts)
        } else {
            format_plain(ns, level, message, diff, self.show_diff, ts)
        };
        let file_line = format_plain(ns, level, message, diff, self.show_diff, ts);
        LogLines { stderr_line, file_line }
    }

    /// The lines of a log call for namespace `ns` at time `now`
    /// (microseconds on a monotonic clock) with timestamp `ts`: `None` for a
    /// namespace never registered; otherwise the call is noted and the lines
    /// carry the namespace's color and, when shown, the time since its
    /// previous call.
    pub fn log_lines(&mut self, ns: &str, level: Level, message: &str, now: u128, ts: &str) -> (r: Option<LogLines>)
        requires
            old(self).wf(),
        ensures
            final(self).wf(),
            final(self)@ == record_call_step(old(self)@, ns@, now).1,
            match record_call_step(old(self)@, ns@, now).0 {
                None => r is None,
                Some((color, diff)) => {
                    let diff_text = diff_text(old(self)@, diff);
                    &&& r matches Some(lines)
                    &&& lines.stderr_line@ == stderr_text(old(self)@, ns@, level, color, message@, diff_text, ts@)
                    &&& lines.file_line@ == plain_line(ns@, level, message@, diff_text, old(self)@.show_diff, ts@)
                },
            },
    {
        match self.record_call(ns, now) {
            None => None,
            Some((color, diff)) => {
                let diff_str = if self.show_diff { humanize(diff) } else { String::new() };
                Some(self.render_log(ns, level, color, message, diff_str.as_str(), ts))
            },
        }
    }
}

/// The rendered time differential: the humanized duration when differentials
/// are shown, nothing otherwise.
pub open spec fn diff_text(v: DebugStateView, diff: u128) -> Seq<char> {
    if v.show_diff { humanize_text(diff as nat) } else { Seq::empty() }
}

/// The stderr line of a log call: colored on a terminal with colors on,
/// plain otherwise.
pub open spec fn stderr_text(v: DebugStateView, ns: Seq<char>, level: Level, color: u8, message: Seq<char>, diff: Seq<char>, ts: Seq<char>) -> Seq<char> {
    if v.stderr_is_tty && v.use_colors {
        colored_line(ns, level, color, message, diff, v.show_time, v.show_diff, ts)
    } else {
        plain_line(ns, level, message, diff, v.show_diff, ts)
    }
}

/// Whether namespace `ns` is enabled, at any level. A namespace seen for the
/// first time is registered with the next color; its answer is then kept,
/// except that enabling all namespaces also enables it unless excluded.
pub fn enabled(state: &mut DebugState, ns: &str) -> (r: bool)
    requires
        old(state).wf(),
    ensures
        final(state).wf(),
        (r, final(state)@) == enabled_step(old(state)@, ns@),
        r == is_allowed(old(state)@, ns@),
{
    proof {
        lemma_enabled_answer_is_allowed(old(state)@, ns@);
    }
    let force = state.all_enabled;
    match state.find(ns) {
        Some(i) => {
            let e = state.namespaces[i].enabled;
            proof {
                let v = state@.namespaces;
                assert(v[i as int].name == ns@);
            }
            e || (force && !matches_any(&state.excludes, ns))
        },
        None => {
            let excluded = matches_any(&state.excludes, ns);
            let r = !excluded && (force || matches_any(&state.includes, ns));
            let color = color_at(state.namespaces.len());
            let ghost v = old(state)@;
            let entry = NamespaceEntry { name: String::from_str(ns), enabled: r, color, last_call: None };
            state.namespaces.push(entry);
            let ghost e = NamespaceView { name: ns@, enabled: r, color: spec_color_at(v.namespaces.len() as int), last_call: None };
            assert(state@.namespaces =~= v.namespaces.push(e));
            r
        },
    }
}

/// Whether namespace `ns` is enabled at `level`: the level must be at least
/// as severe as the minimum level, and the namespace enabled.
pub fn enabled_for(state: &mut DebugState, ns: &str, level: Level) -> (r: bool)
    requires
        old(state).wf(),
    ensures
        final(state).wf(),
        (r, final(state)@) == enabled_for_step(old(state)@, ns@, level),
        r == (level.spec_rank() <= old(state)@.min_level.spec_rank() && is_allowed(old(state)@, ns@)),
        r == (at_least_as_severe(level, old(state)@.min_level) && is_allowed(old(state)@, ns@)),
{
    proof {
        lemma_enabled_for_answer_is_allowed(old(state)@, ns@, level);
        lemma_level_filter_follows_severity(old(state)@, ns@, level);
    }
    if level.is_less_severe_than(&state.min_level) {
        return false;
    }
    enabled(state, ns)
}

} // verus!
