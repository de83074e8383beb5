//! Log line rendering and UTC timestamps.
use vstd::prelude::*;
use crate::calendar::{civil_date, days_to_ymd, lemma_civil_date_is_date};
use vstd::arithmetic::div_mod::lemma_mod_mod;
use crate::level::Level;
use std::time::{Duration, SystemTime, SystemTimeError};
use crate::text::{decimal, digit_char, digit_value, is_digit, lemma_decimal_is_digits, lemma_digit_char, lemma_signed_four_places_len, lemma_three_places, lemma_two_places, number_at, push_char, push_decimal, push_signed_zero_padded, push_zero_padded, signed_zero_padded, zero_padded};

verus! {

/// ANSI escape that selects bright foreground color `color`.
pub open spec fn ansi_bright(color: u8) -> Seq<char> {
    seq!['\u{1b}', '[', '9'] + decimal(color as nat) + seq!['m']
}

/// ANSI escape that resets all attributes.
pub open spec fn ansi_reset() -> Seq<char> {
    seq!['\u{1b}', '[', '0', 'm']
}

/// ANSI escape for the dimmed (bright black) message text.
pub open spec fn ansi_dim() -> Seq<char> {
    seq!['\u{1b}', '[', '9', '0', 'm']
}

/// The color a log line is drawn in: red for errors, yellow for warnings,
/// the namespace's own color otherwise.
pub open spec fn line_color(level: Level, color: u8) -> u8 {
    match level {
        Level::Error => 1,
        Level::Warn => 3,
        _ => color,
    }
}

/// The colored time differential that ends a colored line, if shown.
pub open spec fn colored_diff_suffix(c: u8, diff: Seq<char>, show_diff: bool) -> Seq<char> {
    if show_diff {
        seq![' '] + ansi_bright(c) + seq!['+'] + diff + ansi_reset()
    } else {
        Seq::empty()
    }
}

/// The time differential that ends a plain line, if shown.
pub open spec fn plain_diff_suffix(diff: Seq<char>, show_diff: bool) -> Seq<char> {
    if show_diff { seq![' ', '+'] + diff } else { Seq::empty() }
}

/// A colored log line after its indentation and timestamp: the namespace
/// and level tag in the line's color, the message dimmed, then the time
/// differential if `show_diff`.
pub open spec fn colored_line_body(namespace: Seq<char>, level: Level, color: u8, message: Seq<char>, diff: Seq<char>, show_diff: bool) -> Seq<char> {
    let c = line_color(level, color);
    ansi_bright(c) + namespace + level.spec_tag() + ansi_reset() + seq![' '] + ansi_dim() + message + ansi_reset()
        + colored_diff_suffix(c, diff, show_diff) + seq!['\n']
}

/// A plain log line after its timestamp.
pub open spec fn plain_line_body(namespace: Seq<char>, level: Level, message: Seq<char>, diff: Seq<char>, show_diff: bool) -> Seq<char> {
    namespace + level.spec_tag() + seq![' '] + message + plain_diff_suffix(diff, show_diff) + seq!['\n']
}

/// A colored log line for a terminal: indented by two spaces, the timestamp
/// first if `show_time`.
pub open spec fn colored_line(
    namespace: Seq<char>,
    level: Level,
    color: u8,
    message: Seq<char>,
    diff: Seq<char>,
    show_time: bool,
    show_diff: bool,
    ts: Seq<char>,
) -> Seq<char> {
    let time_prefix = if show_time { ts + seq![' '] } else { Seq::empty() };
    seq![' ', ' '] + time_prefix + colored_line_body(namespace, level, color, message, diff, show_diff)
}

/// A plain log line, as written to files and to non-terminals.
pub open spec fn plain_line(
    namespace: Seq<char>,
    level: Level,
    message: Seq<char>,
    diff: Seq<char>,
    show_diff: bool,
    ts: Seq<char>,
) -> Seq<char> {
    ts + seq![' '] + plain_line_body(namespace, level, message, diff, show_diff)
}

/// `s` with its ANSI escape sequences taken out, scanning from the start:
/// `inside` says whether an escape sequence is open. An escape sequence runs
/// from `ESC [` up to and including the first `m`.
#[verifier::opaque]
pub open spec fn strip_escapes(s: Seq<char>, inside: bool) -> Seq<char>
    decreases s.len(),
{
    if s.len() == 0 {
        Seq::empty()
    } else if inside {
        strip_escapes(s.skip(1), s[0] != 'm')
    } else if s.len() >= 2 && s[0] == '\u{1b}' && s[1] == '[' {
        strip_escapes(s.skip(2), true)
    } else {
        seq![s[0]] + strip_escapes(s.skip(1), false)
    }
}

/// `s` without its ANSI escape sequences (`ESC [` ... `m`).
pub open spec fn strip_ansi(s: Seq<char>) -> Seq<char> {
    strip_escapes(s, false)
}

/// `s` holds no escape character.
pub open spec fn no_escape(s: Seq<char>) -> bool {
    forall|i: int| 0 <= i < s.len() ==> s[i] != '\u{1b}'
}

proof fn lemma_strip_empty()
    ensures
        strip_ansi(Seq::<char>::empty()) == Seq::<char>::empty(),
{
    reveal(strip_escapes);
}

/// Text without an escape character passes through unchanged.
proof fn lemma_strip_text(a: Seq<char>, b: Seq<char>)
    requires
        no_escape(a),
    ensures
        strip_ansi(a + b) == a + strip_ansi(b),
    decreases a.len(),
{
    reveal(strip_escapes);
    if a.len() == 0 {
        assert(a + b =~= b);
    } else {
        let rest = a.skip(1);
        assert(no_escape(rest)) by {
            assert forall|i: int| 0 <= i < rest.len() implies rest[i] != '\u{1b}' by {
                assert(rest[i] == a[i + 1]);
            }
        }
        lemma_strip_text(rest, b);
        assert((a + b).skip(1) =~= rest + b);
        assert((a + b)[0] == a[0]);
        assert(seq![a[0]] + (rest + strip_ansi(b)) =~= a + strip_ansi(b));
    }
}

/// Inside an open escape sequence everything up to the first `m` goes.
proof fn lemma_strip_inside(t: Seq<char>, b: Seq<char>)
    requires
        forall|i: int| 0 <= i < t.len() ==> t[i] != 'm',
    ensures
        strip_escapes(t + seq!['m'] + b, true) == strip_ansi(b),
    decreases t.len(),
{
    reveal(strip_escapes);
    let x = t + seq!['m'] + b;
    if t.len() == 0 {
        assert(x.skip(1) =~= b);
        assert(x[0] == 'm');
    } else {
        let rest = t.skip(1);
        assert forall|i: int| 0 <= i < rest.len() implies rest[i] != 'm' by {
            assert(rest[i] == t[i + 1]);
        }
        lemma_strip_inside(rest, b);
        assert(x.skip(1) =~= rest + seq!['m'] + b);
        assert(x[0] == t[0]);
    }
}

/// An escape sequence `ESC [ t m` is taken out whole.
proof fn lemma_strip_escape(t: Seq<char>, b: Seq<char>)
    requires
        forall|i: int| 0 <= i < t.len() ==> t[i] != 'm',
    ensures
        strip_ansi(seq!['\u{1b}', '['] + t + seq!['m'] + b) == strip_ansi(b),
{
    reveal(strip_escapes);
    let x = seq!['\u{1b}', '['] + t + seq!['m'] + b;
    lemma_strip_inside(t, b);
    assert(x.skip(2) =~= t + seq!['m'] + b);
    assert(x[0] == '\u{1b}' && x[1] == '[');
}

/// The bright-color escape is taken out whole.
proof fn lemma_strip_bright(color: u8, b: Seq<char>)
    ensures
        strip_ansi(ansi_bright(color) + b) == strip_ansi(b),
{
    let d = decimal(color as nat);
    let t = seq!['9'] + d;
    lemma_decimal_is_digits(color as nat);
    assert forall|i: int| 0 <= i < t.len() implies t[i] != 'm' by {
        if i > 0 {
            assert(t[i] == d[i - 1]);
        }
    }
    lemma_strip_escape(t, b);
    assert(ansi_bright(color) + b =~= seq!['\u{1b}', '['] + t + seq!['m'] + b);
}

/// The reset escape is taken out whole.
proof fn lemma_strip_reset(b: Seq<char>)
    ensures
        strip_ansi(ansi_reset() + b) == strip_ansi(b),
{
    lemma_strip_escape(seq!['0'], b);
    assert(ansi_reset() + b =~= seq!['\u{1b}', '['] + seq!['0'] + seq!['m'] + b);
}

/// The dim escape is taken out whole.
proof fn lemma_strip_dim(b: Seq<char>)
    ensures
        strip_ansi(ansi_dim() + b) == strip_ansi(b),
{
    lemma_strip_escape(seq!['9', '0'], b);
    assert(ansi_dim() + b =~= seq!['\u{1b}', '['] + seq!['9', '0'] + seq!['m'] + b);
}

proof fn lemma_no_escape_concat(a: Seq<char>, b: Seq<char>)
    requires
        no_escape(a),
        no_escape(b),
    ensures
        no_escape(a + b),
{
    assert forall|i: int| 0 <= i < (a + b).len() implies (a + b)[i] != '\u{1b}' by {
        if i < a.len() {
            assert((a + b)[i] == a[i]);
        } else {
            assert((a + b)[i] == b[i - a.len()]);
        }
    }
}

/// The colored time differential and the newline lose their escapes.
proof fn lemma_strip_diff_tail(c: u8, diff: Seq<char>)
    requires
        no_escape(diff),
    ensures
        strip_ansi(seq![' '] + ansi_bright(c) + seq!['+'] + diff + ansi_reset() + seq!['\n'])
            == seq![' ', '+'] + diff + seq!['\n'],
{
    let nl = seq!['\n'];
    lemma_strip_text(nl, Seq::empty());
    assert(nl + Seq::<char>::empty() =~= nl);
    lemma_strip_empty();
    lemma_strip_reset(nl);
    let pd = seq!['+'] + diff;
    assert(no_escape(seq!['+']));
    lemma_no_escape_concat(seq!['+'], diff);
    lemma_strip_text(pd, ansi_reset() + nl);
    lemma_strip_bright(c, pd + (ansi_reset() + nl));
    lemma_strip_text(seq![' '], ansi_bright(c) + (pd + (ansi_reset() + nl)));
    assert(seq![' '] + ansi_bright(c) + seq!['+'] + diff + ansi_reset() + nl
        =~= seq![' '] + (ansi_bright(c) + (pd + (ansi_reset() + nl))));
    assert(seq![' '] + (pd + nl) =~= seq![' ', '+'] + diff + nl);
}

/// The dimmed message loses its escapes.
proof fn lemma_strip_message(message: Seq<char>, tail: Seq<char>)
    requires
        no_escape(message),
    ensures
        strip_ansi(ansi_dim() + message + ansi_reset() + tail) == message + strip_ansi(tail),
{
    lemma_strip_reset(tail);
    lemma_strip_text(message, ansi_reset() + tail);
    lemma_strip_dim(message + (ansi_reset() + tail));
    assert(ansi_dim() + message + ansi_reset() + tail =~= ansi_dim() + (message + (ansi_reset() + tail)));
}

/// The colored namespace and level tag lose their escapes.
proof fn lemma_strip_namespace(c: u8, nt: Seq<char>, m: Seq<char>)
    requires
        no_escape(nt),
    ensures
        strip_ansi(ansi_bright(c) + nt + ansi_reset() + seq![' '] + m) == nt + seq![' '] + strip_ansi(m),
{
    lemma_strip_text(seq![' '], m);
    lemma_strip_reset(seq![' '] + m);
    lemma_strip_text(nt, ansi_reset() + (seq![' '] + m));
    lemma_strip_bright(c, nt + (ansi_reset() + (seq![' '] + m)));
    assert(ansi_bright(c) + nt + ansi_reset() + seq![' '] + m
        =~= ansi_bright(c) + (nt + (ansi_reset() + (seq![' '] + m))));
    assert(nt + (seq![' '] + strip_ansi(m)) =~= nt + seq![' '] + strip_ansi(m));
}

/// The end of a colored line loses its escapes.
proof fn lemma_strip_line_end(c: u8, diff: Seq<char>, show_diff: bool)
    requires
        no_escape(diff),
    ensures
        strip_ansi(colored_diff_suffix(c, diff, show_diff) + seq!['\n']) == plain_diff_suffix(diff, show_diff) + seq!['\n'],
{
    let nl = seq!['\n'];
    if show_diff {
        lemma_strip_diff_tail(c, diff);
        assert(colored_diff_suffix(c, diff, show_diff) + nl
            =~= seq![' '] + ansi_bright(c) + seq!['+'] + diff + ansi_reset() + nl);
        assert(plain_diff_suffix(diff, show_diff) + nl =~= seq![' ', '+'] + diff + nl);
    } else {
        lemma_strip_text(nl, Seq::empty());
        assert(nl + Seq::<char>::empty() =~= nl);
        lemma_strip_empty();
        assert(colored_diff_suffix(c, diff, show_diff) + nl =~= nl);
        assert(plain_diff_suffix(diff, show_diff) + nl =~= nl);
    }
}

proof fn lemma_strip_body(namespace: Seq<char>, level: Level, color: u8, message: Seq<char>, diff: Seq<char>, show_diff: bool)
    requires
        no_escape(namespace),
        no_escape(message),
        no_escape(diff),
    ensures
        strip_ansi(colored_line_body(namespace, level, color, message, diff, show_diff))
            == plain_line_body(namespace, level, message, diff, show_diff),
{
    let c = line_color(level, color);
    let tag = level.spec_tag();
    let tail = colored_diff_suffix(c, diff, show_diff) + seq!['\n'];
    let plain_tail = plain_diff_suffix(diff, show_diff) + seq!['\n'];
    lemma_strip_line_end(c, diff, show_diff);
    let m = ansi_dim() + message + ansi_reset() + tail;
    lemma_strip_message(message, tail);
    assert(no_escape(tag));
    lemma_no_escape_concat(namespace, tag);
    let nt = namespace + tag;
    lemma_strip_namespace(c, nt, m);
    assert(colored_line_body(namespace, level, color, message, diff, show_diff)
        =~= ansi_bright(c) + nt + ansi_reset() + seq![' '] + m);
    assert(plain_line_body(namespace, level, message, diff, show_diff) =~= nt + seq![' '] + (message + plain_tail));
}

/// A colored line without its escape sequences is the plain line indented
/// by two spaces, without the timestamp unless timestamps are shown: the
/// colors are all that tells the two formats apart.
pub proof fn lemma_colored_line_is_plain_line_in_color(
    namespace: Seq<char>,
    level: Level,
    color: u8,
    message: Seq<char>,
    diff: Seq<char>,
    show_time: bool,
    show_diff: bool,
    ts: Seq<char>,
)
    requires
        no_escape(namespace),
        no_escape(message),
        no_escape(diff),
        no_escape(ts),
    ensures
        strip_ansi(colored_line(namespace, level, color, message, diff, show_time, show_diff, ts)) == seq![' ', ' ']
            + if show_time {
                plain_line(namespace, level, message, diff, show_diff, ts)
            } else {
                plain_line(namespace, level, message, diff, show_diff, ts).skip(ts.len() + 1int)
            },
{
    let body = colored_line_body(namespace, level, color, message, diff, show_diff);
    let pb = plain_line_body(namespace, level, message, diff, show_diff);
    lemma_strip_body(namespace, level, color, message, diff, show_diff);
    let tp = if show_time { ts + seq![' '] } else { Seq::<char>::empty() };
    let lead = seq![' ', ' '] + tp;
    assert(no_escape(lead)) by {
        assert(no_escape(seq![' ', ' ']));
        assert(no_escape(seq![' ']));
        assert(no_escape(Seq::<char>::empty()));
        if show_time {
            lemma_no_escape_concat(ts, seq![' ']);
        }
        lemma_no_escape_concat(seq![' ', ' '], tp);
    }
    lemma_strip_text(lead, body);
    let plain = ts + seq![' '] + pb;
    if show_time {
        assert(lead + pb =~= seq![' ', ' '] + plain);
    } else {
        assert(plain.skip(ts.len() + 1int) =~= pb);
        assert(lead + pb =~= seq![' ', ' '] + pb);
    }
}

fn push_bright(out: &mut String, color: u8)
    ensures
        final(out)@ == old(out)@ + ansi_bright(color),
{
    push_char(out, '\u{1b}');
    push_char(out, '[');
    push_char(out, '9');
    push_decimal(out, color as u128);
    push_char(out, 'm');
    assert(final(out)@ =~= old(out)@ + ansi_bright(color));
}

fn push_reset(out: &mut String)
    ensures
        final(out)@ == old(out)@ + ansi_reset(),
{
    push_char(out, '\u{1b}');
    push_char(out, '[');
    push_char(out, '0');
    push_char(out, 'm');
    assert(final(out)@ =~= old(out)@ + ansi_reset());
}

fn push_dim(out: &mut String)
    ensures
        final(out)@ == old(out)@ + ansi_dim(),
{
    push_char(out, '\u{1b}');
    push_char(out, '[');
    push_char(out, '9');
    push_char(out, '0');
    push_char(out, 'm');
    assert(final(out)@ =~= old(out)@ + ansi_dim());
}

fn push_colored_body(out: &mut String, namespace: &str, level: Level, color: u8, message: &str, diff: &str, show_diff: bool)
    ensures
        final(out)@ == old(out)@ + colored_line_body(namespace@, level, color, message@, diff@, show_diff),
{
    let c: u8 = match level {
        Level::Error => 1,
        Level::Warn => 3,
        _ => color,
    };
    push_bright(out, c);
    out.append(namespace);
    out.append(level.tag());
    push_reset(out);
    push_char(out, ' ');
    push_dim(out);
    out.append(message);
    push_reset(out);
    let ghost main = out@;
    assert(main =~= old(out)@ + (ansi_bright(c) + namespace@ + level.spec_tag() + ansi_reset() + seq![' '] + ansi_dim()
        + message@ + ansi_reset()));
    if show_diff {
        push_char(out, ' ');
        push_bright(out, c);
        push_char(out, '+');
        out.append(diff);
        push_reset(out);
        assert(out@ =~= main + colored_diff_suffix(c, diff@, show_diff));
    } else {
        assert(out@ =~= main + colored_diff_suffix(c, diff@, show_diff));
    }
    push_char(out, '\n');
    assert(final(out)@ =~= old(out)@ + colored_line_body(namespace@, level, color, message@, diff@, show_diff));
}

/// Renders a log line with ANSI colors: the namespace (and the level tag of
/// errors and warnings) in the line's color, the message dimmed, then the
/// time differential if `show_diff`, the timestamp first if `show_time`.
pub fn format_colored(
    namespace: &str,
    level: Level,
    color: u8,
    message: &str,
    diff: &str,
    show_time: bool,
    show_diff: bool,
    ts: &str,
) -> (r: String)
    ensures
        r@ == colored_line(namespace@, level, color, message@, diff@, show_time, show_diff, ts@),
{
    let mut out = String::new();
    push_char(&mut out, ' ');
    push_char(&mut out, ' ');
    if show_time {
        out.append(ts);
        push_char(&mut out, ' ');
    }
    push_colored_body(&mut out, namespace, level, color, message, diff, show_diff);
    assert(out@ =~= colored_line(namespace@, level, color, message@, diff@, show_time, show_diff, ts@));
    out
}

/// Renders an uncolored log line: timestamp, namespace (with the level tag of
/// errors and warnings), message, and ` +diff` if `show_diff`.
pub fn format_plain(
    namespace: &str,
    level: Level,
    message: &str,
    diff: &str,
    show_diff: bool,
    ts: &str,
) -> (r: String)
    ensures
        r@ == plain_line(namespace@, level, message@, diff@, show_diff, ts@),
{
    let mut out = String::new();
    out.append(ts);
    push_char(&mut out, ' ');
    out.append(namespace);
    out.append(level.tag());
    push_char(&mut out, ' ');
    out.append(message);
    if show_diff {
        push_char(&mut out, ' ');
        push_char(&mut out, '+');
        out.append(diff);
    }
    push_char(&mut out, '\n');
    assert(out@ =~= plain_line(namespace@, level, message@, diff@, show_diff, ts@));
    out
}

/// `YYYY-MM-DD`, the year sign-aware zero-padded to four characters.
pub open spec fn date_text(y: int, m: int, d: int) -> Seq<char> {
    signed_zero_padded(y, 4) + seq!['-'] + zero_padded(m as nat, 2) + seq!['-'] + zero_padded(d as nat, 2)
}

/// `YYYY-MM-DDThh:mm:ss.mmmZ` for the date `y-m-d`, `secs_of_day` seconds
/// into the day and `millis` milliseconds.
pub open spec fn timestamp_text(y: int, m: int, d: int, secs_of_day: nat, millis: nat) -> Seq<char> {
    date_text(y, m, d) + seq!['T'] + zero_padded(secs_of_day / 3600, 2) + seq![':']
        + zero_padded((secs_of_day % 3600) / 60, 2) + seq![':'] + zero_padded(secs_of_day % 60, 2)
        + seq!['.'] + zero_padded(millis, 3) + seq!['Z']
}

/// What [`utc_timestamp_at`] renders for the instant `secs` seconds and
/// `millis` milliseconds after the Unix epoch (the year taken as an `i32`).
pub open spec fn utc_timestamp_text(secs: u64, millis: u32) -> Seq<char> {
    let date = civil_date((secs / 86400) as int);
    timestamp_text((date.0 as i32) as int, date.1, date.2, (secs % 86400) as nat, millis as nat)
}

/// What [`utc_date_string_at`] renders for the instant `secs` seconds after
/// the Unix epoch (the year taken as an `i32`).
pub open spec fn utc_date_text(secs: u64) -> Seq<char> {
    let date = civil_date((secs / 86400) as int);
    date_text((date.0 as i32) as int, date.1, date.2)
}

/// The last twenty characters of a timestamp, `-MM-DDThh:mm:ss.mmmZ`.
spec fn timestamp_end(m: int, d: int, h: int, mi: int, se: int, ms: int) -> Seq<char> {
    seq![
        '-', digit_char(m / 10), digit_char(m % 10), '-', digit_char(d / 10), digit_char(d % 10), 'T',
        digit_char(h / 10), digit_char(h % 10), ':', digit_char(mi / 10), digit_char(mi % 10), ':',
        digit_char(se / 10), digit_char(se % 10), '.', digit_char(ms / 100), digit_char((ms / 10) % 10),
        digit_char(ms % 10), 'Z'
    ]
}

proof fn lemma_number_at_two(s: Seq<char>, i: int)
    ensures
        number_at(s, i, 2) == digit_value(s[i]) * 10 + digit_value(s[i + 1]),
{
    reveal_with_fuel(number_at, 3);
}

proof fn lemma_number_at_three(s: Seq<char>, i: int)
    ensures
        number_at(s, i, 3) == digit_value(s[i]) * 100 + digit_value(s[i + 1]) * 10 + digit_value(s[i + 2]),
{
    reveal_with_fuel(number_at, 4);
}

/// Two digit characters read back as the number they were made from.
proof fn lemma_reads_two(s: Seq<char>, i: int, v: int)
    requires
        0 <= v < 100,
        0 <= i,
        i + 1 < s.len(),
        s[i] == digit_char(v / 10),
        s[i + 1] == digit_char(v % 10),
    ensures
        number_at(s, i, 2) == v,
        is_digit(s[i]) && is_digit(s[i + 1]),
{
    lemma_number_at_two(s, i);
    lemma_digit_char(v / 10);
    lemma_digit_char(v % 10);
}

/// A timestamp's end, after any year text, reads back as its fields.
proof fn lemma_timestamp_end_reads(year: Seq<char>, m: int, d: int, h: int, mi: int, se: int, ms: int)
    requires
        0 <= m < 100,
        0 <= d < 100,
        0 <= h < 100,
        0 <= mi < 100,
        0 <= se < 100,
        0 <= ms < 1000,
    ensures
        ({
            let t = year + timestamp_end(m, d, h, mi, se, ms);
            let n = t.len() as int;
            &&& n == year.len() + 20
            &&& t[n - 1] == 'Z' && t[n - 5] == '.' && t[n - 8] == ':' && t[n - 11] == ':'
            &&& t[n - 14] == 'T' && t[n - 17] == '-' && t[n - 20] == '-'
            &&& forall|k: int| n - 19 <= k < n - 1 && k != n - 17 && k != n - 14 && k != n - 11 && k != n - 8
                && k != n - 5 ==> is_digit(#[trigger] t[k])
            &&& number_at(t, n - 4, 3) == ms
            &&& number_at(t, n - 7, 2) == se
            &&& number_at(t, n - 10, 2) == mi
            &&& number_at(t, n - 13, 2) == h
            &&& number_at(t, n - 16, 2) == d
            &&& number_at(t, n - 19, 2) == m
            &&& t.subrange(0, n - 20) == year
        }),
{
    let e = timestamp_end(m, d, h, mi, se, ms);
    let t = year + e;
    let n = t.len() as int;
    let y = year.len() as int;
    assert forall|k: int| 0 <= k < 20 implies t[y + k] == #[trigger] e[k] by {}
    lemma_reads_two(t, n - 19, m);
    lemma_reads_two(t, n - 16, d);
    lemma_reads_two(t, n - 13, h);
    lemma_reads_two(t, n - 10, mi);
    lemma_reads_two(t, n - 7, se);
    lemma_number_at_three(t, n - 4);
    lemma_digit_char(ms / 100);
    lemma_digit_char((ms / 10) % 10);
    lemma_digit_char(ms % 10);
    assert(t.subrange(0, n - 20) =~= year);
}

proof fn lemma_time_of_day(secs: u64)
    ensures
        ((secs % 86400) as nat % 3600) / 60 == (secs % 3600) / 60,
        (secs % 86400) as nat % 60 == secs % 60,
        (secs % 86400) / 3600 < 24,
{
    lemma_mod_mod(secs as int, 3600, 24);
    lemma_mod_mod(secs as int, 60, 1440);
}

/// The date text of a valid date is its year text and then `-MM-DD`.
proof fn lemma_date_text_parts(y: int, m: int, d: int, e: Seq<char>)
    requires
        1 <= m <= 12,
        1 <= d <= 31,
        e.len() == 20,
        e.subrange(0, 6) == seq!['-', digit_char(m / 10), digit_char(m % 10), '-', digit_char(d / 10), digit_char(d % 10)],
    ensures
        date_text(y, m, d) == signed_zero_padded(y, 4) + e.subrange(0, 6),
{
    lemma_two_places(m as nat);
    lemma_two_places(d as nat);
    assert(date_text(y, m, d) =~= signed_zero_padded(y, 4) + e.subrange(0, 6));
}

/// The time of a timestamp is `Thh:mm:ss.mmmZ`.
proof fn lemma_time_text_parts(y: int, m: int, d: int, sod: nat, ms: nat, e: Seq<char>)
    requires
        sod < 86400,
        ms < 1000,
        e.len() == 20,
        e.subrange(6, 20) == seq!['T', digit_char(sod as int / 3600 / 10), digit_char(sod as int / 3600 % 10), ':',
            digit_char((sod as int % 3600) / 60 / 10), digit_char((sod as int % 3600) / 60 % 10), ':',
            digit_char(sod as int % 60 / 10), digit_char(sod as int % 60 % 10), '.', digit_char(ms as int / 100),
            digit_char((ms as int / 10) % 10), digit_char(ms as int % 10), 'Z'],
    ensures
        timestamp_text(y, m, d, sod, ms) == date_text(y, m, d) + e.subrange(6, 20),
{
    lemma_two_places(sod / 3600);
    lemma_two_places((sod % 3600) / 60);
    lemma_two_places(sod % 60);
    lemma_three_places(ms);
    assert(timestamp_text(y, m, d, sod, ms) =~= date_text(y, m, d) + e.subrange(6, 20));
}

/// A timestamp is its date text followed by its twenty-character end.
proof fn lemma_timestamp_parts(secs: u64, millis: u32)
    requires
        millis < 1000,
    ensures
        ({
            let date = civil_date((secs / 86400) as int);
            let year = signed_zero_padded((date.0 as i32) as int, 4);
            let e = timestamp_end(
                date.1,
                date.2,
                ((secs % 86400) / 3600) as int,
                ((secs % 3600) / 60) as int,
                (secs % 60) as int,
                millis as int,
            );
            &&& 1 <= date.1 <= 12 && 1 <= date.2 <= 31
            &&& year.len() >= 4
            &&& utc_timestamp_text(secs, millis) == year + e
            &&& utc_date_text(secs) == year + e.subrange(0, 6)
        }),
{
    let date = civil_date((secs / 86400) as int);
    lemma_civil_date_is_date((secs / 86400) as int);
    let y = (date.0 as i32) as int;
    let (m, d) = (date.1, date.2);
    let sod = (secs % 86400) as nat;
    let ms = millis as nat;
    lemma_time_of_day(secs);
    lemma_signed_four_places_len(y);
    let e = timestamp_end(m, d, ((secs % 86400) / 3600) as int, ((secs % 3600) / 60) as int, (secs % 60) as int, millis as int);
    assert(e.subrange(0, 6) =~= seq!['-', digit_char(m / 10), digit_char(m % 10), '-', digit_char(d / 10), digit_char(d % 10)]);
    lemma_date_text_parts(y, m, d, e);
    assert(e.subrange(6, 20) =~= seq!['T', digit_char(sod as int / 3600 / 10), digit_char(sod as int / 3600 % 10), ':',
        digit_char((sod as int % 3600) / 60 / 10), digit_char((sod as int % 3600) / 60 % 10), ':',
        digit_char(sod as int % 60 / 10), digit_char(sod as int % 60 % 10), '.', digit_char(ms as int / 100),
        digit_char((ms as int / 10) % 10), digit_char(ms as int % 10), 'Z']);
    lemma_time_text_parts(y, m, d, sod, ms, e);
    let year = signed_zero_padded(y, 4);
    assert(utc_timestamp_text(secs, millis) == timestamp_text(y, m, d, sod, ms));
    assert(year + e.subrange(0, 6) + e.subrange(6, 20) =~= year + e);
}

/// The fields of a timestamp, read from its end (the year may take more
/// than four characters): `YYYY-MM-DDThh:mm:ss.mmmZ` with the month and day
/// of the civil date of the instant's day, the hour `(secs mod 86400) div
/// 3600`, the minute `(secs mod 3600) div 60`, the second `secs mod 60` and
/// the milliseconds, each in fixed-width decimal; everything before the `T`
/// is the instant's date as [`utc_date_string_at`] renders it.
pub proof fn lemma_timestamp_fields(secs: u64, millis: u32)
    requires
        millis < 1000,
    ensures
        ({
            let t = utc_timestamp_text(secs, millis);
            let n = t.len() as int;
            let date = civil_date((secs / 86400) as int);
            &&& n >= 24
            &&& t[n - 1] == 'Z' && t[n - 5] == '.' && t[n - 8] == ':' && t[n - 11] == ':'
            &&& t[n - 14] == 'T' && t[n - 17] == '-' && t[n - 20] == '-'
            &&& forall|k: int| n - 19 <= k < n - 1 && k != n - 17 && k != n - 14 && k != n - 11 && k != n - 8
                && k != n - 5 ==> is_digit(#[trigger] t[k])
            &&& number_at(t, n - 4, 3) == millis
            &&& number_at(t, n - 7, 2) == secs % 60
            &&& number_at(t, n - 10, 2) == (secs % 3600) / 60
            &&& number_at(t, n - 13, 2) == (secs % 86400) / 3600
            &&& number_at(t, n - 16, 2) == date.2
            &&& number_at(t, n - 19, 2) == date.1
            &&& t.subrange(0, n - 14) == utc_date_text(secs)
        }),
{
    let date = civil_date((secs / 86400) as int);
    lemma_timestamp_parts(secs, millis);
    let year = signed_zero_padded((date.0 as i32) as int, 4);
    let e = timestamp_end(date.1, date.2, ((secs % 86400) / 3600) as int, ((secs % 3600) / 60) as int, (secs % 60) as int, millis as int);
    lemma_timestamp_end_reads(year, date.1, date.2, ((secs % 86400) / 3600) as int, ((secs % 3600) / 60) as int, (secs % 60) as int, millis as int);
    let t = year + e;
    let n = t.len() as int;
    assert(t.subrange(0, n - 14) =~= year + e.subrange(0, 6));
}

fn push_date(out: &mut String, y: i32, m: u32, d: u32)
    ensures
        final(out)@ == old(out)@ + date_text(y as int, m as int, d as int),
{
    push_signed_zero_padded(out, y as i64, 4);
    push_char(out, '-');
    push_zero_padded(out, m as u128, 2);
    push_char(out, '-');
    push_zero_padded(out, d as u128, 2);
    assert(final(out)@ =~= old(out)@ + date_text(y as int, m as int, d as int));
}

/// The UTC timestamp `YYYY-MM-DDThh:mm:ss.mmmZ` of the instant `secs`
/// seconds and `millis` milliseconds after the Unix epoch.
pub fn utc_timestamp_at(secs: u64, millis: u32) -> (r: String)
    ensures
        r@ == utc_timestamp_text(secs, millis),
{
    let (y, m, d) = days_to_ymd((secs / 86400) as i64);
    let time_of_day = secs % 86400;
    let mut out = String::new();
    push_date(&mut out, y, m, d);
    push_char(&mut out, 'T');
    push_zero_padded(&mut out, (time_of_day / 3600) as u128, 2);
    push_char(&mut out, ':');
    push_zero_padded(&mut out, ((time_of_day % 3600) / 60) as u128, 2);
    push_char(&mut out, ':');
    push_zero_padded(&mut out, (time_of_day % 60) as u128, 2);
    push_char(&mut out, '.');
    push_zero_padded(&mut out, millis as u128, 3);
    push_char(&mut out, 'Z');
    assert(out@ =~= utc_timestamp_text(secs, millis));
    out
}

/// The UTC date `YYYY-MM-DD` of the instant `secs` seconds after the Unix
/// epoch.
pub fn utc_date_string_at(secs: u64) -> (r: String)
    ensures
        r@ == utc_date_text(secs),
{
    let (y, m, d) = days_to_ymd((secs / 86400) as i64);
    let mut out = String::new();
    push_date(&mut out, y, m, d);
    out
}

#[verifier::external_type_specification]
#[verifier::external_body]
pub struct ExSystemTime(std::time::SystemTime);

#[verifier::external_type_specification]
#[verifier::external_body]
pub struct ExSystemTimeError(std::time::SystemTimeError);

/// `SystemTime::now`: a reading of the system clock. Nothing is stated of
/// it; it differs from call to call.
#[verifier::external_body]
fn system_time_now() -> SystemTime {
    SystemTime::now()
}

/// `SystemTime::duration_since(UNIX_EPOCH)`: the time elapsed since the Unix
/// epoch, an error for a clock set before it. Nothing is stated of the
/// duration.
#[verifier::external_body]
fn since_unix_epoch(t: &SystemTime) -> Result<Duration, SystemTimeError> {
    t.duration_since(std::time::UNIX_EPOCH)
}

/// `Duration::as_secs`: the whole seconds of a duration. Nothing is stated
/// of the value.
#[verifier::external_body]
fn duration_whole_seconds(d: &Duration) -> u64 {
    d.as_secs()
}

/// `Duration::subsec_millis`: the fractional part of a duration in whole
/// milliseconds, which its documentation says is below one thousand.
#[verifier::external_body]
fn duration_subsec_millis(d: &Duration) -> (r: u32)
    ensures
        r < 1000,
{
    d.subsec_millis()
}

/// Whole seconds and milliseconds since the Unix epoch from a clock
/// reading: the reading itself, or zero when the clock was set before the
/// epoch (`None`).
pub fn epoch_offset_or_zero(reading: Option<(u64, u32)>) -> (r: (u64, u32))
    ensures
        r == (match reading {
            Some(p) => p,
            None => (0u64, 0u32),
        }),
{
    match reading {
        Some(p) => p,
        None => (0, 0),
    }
}

/// Whole seconds and milliseconds since the Unix epoch by the system clock,
/// zero for a clock set before the epoch.
fn system_time_since_epoch() -> (r: (u64, u32))
    ensures
        r.1 < 1000,
{
    let now = system_time_now();
    let reading = match since_unix_epoch(&now) {
        Ok(elapsed) => Some((duration_whole_seconds(&elapsed), duration_subsec_millis(&elapsed))),
        Err(_) => None,
    };
    epoch_offset_or_zero(reading)
}

/// The current UTC time as `YYYY-MM-DDThh:mm:ss.mmmZ`.
pub fn utc_timestamp() -> (r: String)
    ensures
        exists|secs: u64, millis: u32| millis < 1000 && r@ == #[trigger] utc_timestamp_text(secs, millis),
{
    let (secs, millis) = system_time_since_epoch();
    utc_timestamp_at(secs, millis)
}

/// The current UTC date as `YYYY-MM-DD`.
pub fn utc_date_string() -> (r: String)
    ensures
        exists|secs: u64| r@ == #[trigger] utc_date_text(secs),
{
    let (secs, _millis) = system_time_since_epoch();
    utc_date_string_at(secs)
}

/// The unit a duration is shown in.
#[derive(Debug, Clone, Copy, PartialEq, Eq, Structural)]
pub enum DurationUnit {
    Micros,
    Millis,
    Seconds,
    Minutes,
    Hours,
}

impl DurationUnit {
    /// Microseconds in one unit.
    pub open spec fn spec_micros(self) -> nat {
        match self {
            DurationUnit::Micros => 1,
            DurationUnit::Millis => 1_000,
            DurationUnit::Seconds => 1_000_000,
            DurationUnit::Minutes => 60_000_000,
            DurationUnit::Hours => 3_600_000_000,
        }
    }

    /// The unit's suffix.
    pub open spec fn spec_suffix(self) -> Seq<char> {
        match self {
            DurationUnit::Micros => seq!['u', 's'],
            DurationUnit::Millis => seq!['m', 's'],
            DurationUnit::Seconds => seq!['s'],
            DurationUnit::Minutes => seq!['m'],
            DurationUnit::Hours => seq!['h'],
        }
    }

    /// Microseconds in one unit.
    pub fn micros(&self) -> (r: u128)
        ensures
            r == self.spec_micros(),
    {
        match self {
            DurationUnit::Micros => 1,
            DurationUnit::Millis => 1_000,
            DurationUnit::Seconds => 1_000_000,
            DurationUnit::Minutes => 60_000_000,
            DurationUnit::Hours => 3_600_000_000,
        }
    }

    /// The unit's suffix: `us`, `ms`, `s`, `m` or `h`.
    pub fn suffix(&self) -> (r: &'static str)
        ensures
            r@ == self.spec_suffix(),
    {
        match self {
            DurationUnit::Micros => {
                proof { reveal_strlit("us"); }
                "us"
            },
            DurationUnit::Millis => {
                proof { reveal_strlit("ms"); }
                "ms"
            },
            DurationUnit::Seconds => {
                proof { reveal_strlit("s"); }
                "s"
            },
            DurationUnit::Minutes => {
                proof { reveal_strlit("m"); }
                "m"
            },
            DurationUnit::Hours => {
                proof { reveal_strlit("h"); }
                "h"
            },
        }
    }
}

/// The largest unit of which a duration of `us` microseconds holds at least
/// one, microseconds for durations under a millisecond.
pub open spec fn spec_duration_unit(us: nat) -> DurationUnit {
    if us >= 3_600_000_000 {
        DurationUnit::Hours
    } else if us >= 60_000_000 {
        DurationUnit::Minutes
    } else if us >= 1_000_000 {
        DurationUnit::Seconds
    } else if us >= 1_000 {
        DurationUnit::Millis
    } else {
        DurationUnit::Micros
    }
}

/// The unit a duration of `us` microseconds is shown in (see
/// [`spec_duration_unit`]).
pub fn duration_unit(us: u128) -> (r: DurationUnit)
    ensures
        r == spec_duration_unit(us as nat),
        r.spec_micros() <= us || us < 1_000,
{
    if us >= 3_600_000_000 {
        DurationUnit::Hours
    } else if us >= 60_000_000 {
        DurationUnit::Minutes
    } else if us >= 1_000_000 {
        DurationUnit::Seconds
    } else if us >= 1_000 {
        DurationUnit::Millis
    } else {
        DurationUnit::Micros
    }
}

} // verus!
