use rust_debug::{
    days_to_ymd, duration_unit, epoch_offset_or_zero, format_colored, format_plain, utc_date_string, utc_date_string_at, utc_timestamp,
    utc_timestamp_at, DurationUnit, Level,
};

#[test]
fn plain_line_layout() {
    assert_eq!(format_plain("vnc", Level::Info, "hello", "1.5ms", true, "TS"), "TS vnc hello +1.5ms\n");
    assert_eq!(format_plain("vnc", Level::Error, "boom", "9us", false, "TS"), "TS vnc ERROR boom\n");
    assert_eq!(format_plain("k", Level::Warn, "", "", true, ""), " k WARN  +\n");
}

#[test]
fn colored_line_layout() {
    assert_eq!(
        format_colored("vnc", Level::Debug, 6, "hello", "1.5ms", false, true, "TS"),
        "  \x1b[96mvnc\x1b[0m \x1b[90mhello\x1b[0m \x1b[96m+1.5ms\x1b[0m\n"
    );
    assert_eq!(
        format_colored("vnc", Level::Error, 6, "boom", "", true, false, "TS"),
        "  TS \x1b[91mvnc ERROR\x1b[0m \x1b[90mboom\x1b[0m\n"
    );
    assert_eq!(
        format_colored("g", Level::Warn, 2, "w", "3s", false, true, "TS"),
        "  \x1b[93mg WARN\x1b[0m \x1b[90mw\x1b[0m \x1b[93m+3s\x1b[0m\n"
    );
    assert_eq!(
        format_colored("n", Level::Info, 200, "m", "", false, false, ""),
        "  \x1b[9200mn\x1b[0m \x1b[90mm\x1b[0m\n"
    );
}

#[test]
fn timestamps_at_fixed_instants() {
    assert_eq!(utc_timestamp_at(0, 0), "1970-01-01T00:00:00.000Z");
    assert_eq!(utc_timestamp_at(20527 * 86400 + 3661, 7), "2026-03-15T01:01:01.007Z");
    assert_eq!(utc_timestamp_at(951_782_400 + 86399, 999), "2000-02-29T23:59:59.999Z");
    assert_eq!(utc_date_string_at(253_402_300_800), "10000-01-01");
    assert_eq!(utc_date_string_at(0), "1970-01-01");
}

#[test]
fn timestamp_year_is_taken_as_i32() {
    let days = (u64::MAX / 86400) as i64;
    let (y, m, d) = days_to_ymd(days);
    let expected = format!("{:04}-{:02}-{:02}", y, m, d);
    assert_eq!(utc_date_string_at(u64::MAX), expected);
}

#[test]
fn current_timestamp_has_the_layout() {
    let ts = utc_timestamp();
    let b = ts.as_bytes();
    assert_eq!(b.len(), 24);
    assert_eq!(b[4], b'-');
    assert_eq!(b[10], b'T');
    assert_eq!(b[23], b'Z');
    assert_eq!(&ts[..10], utc_date_string().as_str());
}

fn days_in_month(y: i64, m: u32) -> u32 {
    let leap = (y % 4 == 0 && y % 100 != 0) || y % 400 == 0;
    match m {
        2 => if leap { 29 } else { 28 },
        4 | 6 | 9 | 11 => 30,
        _ => 31,
    }
}

#[test]
fn days_to_ymd_walks_the_calendar() {
    let (mut y, mut m, mut d) = (1970i64, 1u32, 1u32);
    for days in 0i64..800_000 {
        assert_eq!(days_to_ymd(days), (y as i32, m, d), "day {}", days);
        d += 1;
        if d > days_in_month(y, m) {
            d = 1;
            m += 1;
            if m > 12 {
                m = 1;
                y += 1;
            }
        }
    }
    let (mut y, mut m, mut d) = (1970i64, 1u32, 1u32);
    for days in (-800_000i64..=0).rev() {
        assert_eq!(days_to_ymd(days), (y as i32, m, d), "day {}", days);
        if d > 1 {
            d -= 1;
        } else {
            if m > 1 {
                m -= 1;
            } else {
                m = 12;
                y -= 1;
            }
            d = days_in_month(y, m);
        }
    }
}

#[test]
fn days_to_ymd_leap_days() {
    assert_eq!(days_to_ymd(11016), (2000, 2, 29));
    assert_eq!(days_to_ymd(-1), (1969, 12, 31));
    assert_eq!(days_to_ymd(-719468), (0, 3, 1));
    assert_eq!(days_to_ymd(47482), (2100, 1, 1));
}

#[test]
fn duration_units_by_threshold() {
    assert_eq!(duration_unit(0), DurationUnit::Micros);
    assert_eq!(duration_unit(999), DurationUnit::Micros);
    assert_eq!(duration_unit(1_000), DurationUnit::Millis);
    assert_eq!(duration_unit(1_500_000), DurationUnit::Seconds);
    assert_eq!(duration_unit(90_000_000), DurationUnit::Minutes);
    assert_eq!(duration_unit(5_400_000_000), DurationUnit::Hours);
    assert_eq!(DurationUnit::Hours.micros(), 3_600_000_000);
    assert_eq!(DurationUnit::Millis.suffix(), "ms");
}

fn strip_ansi(s: &str) -> String {
    let mut out = String::new();
    let mut chars = s.chars().peekable();
    while let Some(c) = chars.next() {
        if c == '\u{1b}' && chars.peek() == Some(&'[') {
            for d in chars.by_ref() {
                if d == 'm' {
                    break;
                }
            }
        } else {
            out.push(c);
        }
    }
    out
}

#[test]
fn colored_line_without_escapes_is_plain_line() {
    for (level, show_diff) in [(Level::Debug, true), (Level::Error, false), (Level::Warn, true), (Level::Info, false)] {
        let colored = format_colored("vnc:conn", level, 4, "hello world", "12ms", false, show_diff, "2024-01-02T03:04:05.006Z");
        let plain = format_plain("vnc:conn", level, "hello world", "12ms", show_diff, "2024-01-02T03:04:05.006Z");
        let ts_len = "2024-01-02T03:04:05.006Z".len();
        assert_eq!(strip_ansi(&colored), format!("  {}", &plain[ts_len + 1..]));
        let timed = format_colored("vnc:conn", level, 4, "hello world", "12ms", true, show_diff, "TS");
        let plain_timed = format_plain("vnc:conn", level, "hello world", "12ms", show_diff, "TS");
        assert_eq!(strip_ansi(&timed), format!("  {}", plain_timed));
    }
}

#[test]
fn clock_before_epoch_reads_as_zero() {
    assert_eq!(epoch_offset_or_zero(Some((1_700_000_000, 250))), (1_700_000_000, 250));
    assert_eq!(epoch_offset_or_zero(None), (0, 0));
}
