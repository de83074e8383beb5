//! Proleptic Gregorian calendar arithmetic on days counted from 1970-01-01.
use vstd::prelude::*;

verus! {

/// Gregorian leap-year rule.
pub open spec fn is_leap_year(y: int) -> bool {
    (y % 4 == 0 && y % 100 != 0) || y % 400 == 0
}

/// Number of days in month `m` (1-based) of year `y`.
pub open spec fn days_in_month(y: int, m: int) -> int {
    if m == 2 {
        if is_leap_year(y) { 29 } else { 28 }
    } else if m == 4 || m == 6 || m == 9 || m == 11 {
        30
    } else {
        31
    }
}

/// Days of year `y` that lie before the first day of month `m`.
pub open spec fn days_before_month(y: int, m: int) -> int {
    let leap_day: int = if m > 2 && is_leap_year(y) { 1 } else { 0 };
    let base: int = if m <= 1 { 0 }
        else if m == 2 { 31 }
        else if m == 3 { 59 }
        else if m == 4 { 90 }
        else if m == 5 { 120 }
        else if m == 6 { 151 }
        else if m == 7 { 181 }
        else if m == 8 { 212 }
        else if m == 9 { 243 }
        else if m == 10 { 273 }
        else if m == 11 { 304 }
        else { 334 };
    base + leap_day
}

/// Number of leap years in `[1, y)`, extended to all integers so that the
/// difference `leap_years_before(b) - leap_years_before(a)` counts the leap
/// years in `[a, b)`.
pub open spec fn leap_years_before(y: int) -> int {
    (y - 1) / 4 - (y - 1) / 100 + (y - 1) / 400
}

/// A (year, month, day) triple names a day of the Gregorian calendar.
pub open spec fn is_valid_date(y: int, m: int, d: int) -> bool {
    1 <= m <= 12 && 1 <= d <= days_in_month(y, m)
}

/// Signed number of days from 1970-01-01 to the date `y-m-d`.
pub open spec fn days_from_civil(y: int, m: int, d: int) -> int {
    365 * (y - 1970) + (leap_years_before(y) - leap_years_before(1970)) + days_before_month(y, m)
        + (d - 1)
}

/// Days from the start of a 400-year era (counted from March 1st) to the
/// start of its `t`-th March-based year.
spec fn era_year_start(t: int) -> int {
    365 * t + t / 4 - t / 100 + t / 400
}

/// Days before the first of the `mp`-th month of a March-based year.
spec fn march_month_start(mp: int) -> int {
    (153 * mp + 2) / 5
}

proof fn lemma_year_of_era(doe: int)
    requires
        0 <= doe <= 146096,
    ensures
        ({
            let yoe = (doe - doe / 1460 + doe / 36524 - doe / 146096) / 365;
            &&& 0 <= yoe <= 399
            &&& era_year_start(yoe) <= doe
            &&& doe < era_year_start(yoe) + 365 + (if is_leap_year(yoe + 1) { 1int } else { 0 })
        }),
{
}

proof fn lemma_month_of_year(doy: int, long_year: bool)
    requires
        0 <= doy < 365 + (if long_year { 1int } else { 0 }),
    ensures
        ({
            let mp = (5 * doy + 2) / 153;
            let d = doy - march_month_start(mp) + 1;
            &&& 0 <= mp <= 11
            &&& 1 <= d
            &&& mp <= 9 ==> d <= days_in_month(2001, if mp < 10 { mp + 3 } else { mp - 9 })
            &&& mp == 10 ==> d <= 31
            &&& mp == 11 ==> d <= (if long_year { 29int } else { 28 })
        }),
{
}

/// The first of March of the March-based year `400 * era + yoe`.
proof fn lemma_march_first(era: int, yoe: int)
    requires
        0 <= yoe <= 399,
    ensures
        days_from_civil(400 * era + yoe, 3, 1) == 146097 * era + era_year_start(yoe) - 719468,
        is_leap_year(400 * era + yoe + 1) == is_leap_year(yoe + 1),
{
    let y = 400 * era + yoe;
    assert((y - 1) / 4 + (if y % 4 == 0 { 1int } else { 0 }) == y / 4);
    assert((y - 1) / 100 + (if y % 100 == 0 { 1int } else { 0 }) == y / 100);
    assert((y - 1) / 400 + (if y % 400 == 0 { 1int } else { 0 }) == y / 400);
    assert(y / 4 == 100 * era + yoe / 4);
    assert(y / 100 == 4 * era + yoe / 100);
    assert(y / 400 == era);
    assert(y % 4 == yoe % 4);
    assert(y % 100 == yoe % 100);
    assert(y % 400 == yoe);
    assert((y + 1) % 4 == (yoe + 1) % 4);
    assert((y + 1) % 100 == (yoe + 1) % 100);
    assert((y + 1) % 400 == (yoe + 1) % 400);
    assert(leap_years_before(1970) == 477);
}

/// Each year adds its own leap day, if any, to the running count.
proof fn lemma_leap_step(y: int)
    ensures
        leap_years_before(y + 1) == leap_years_before(y) + (if is_leap_year(y) { 1int } else { 0 }),
{
    assert((y - 1) / 4 + (if y % 4 == 0 { 1int } else { 0 }) == y / 4);
    assert((y - 1) / 100 + (if y % 100 == 0 { 1int } else { 0 }) == y / 100);
    assert((y - 1) / 400 + (if y % 400 == 0 { 1int } else { 0 }) == y / 400);
}

/// The date reached `doy` days into the March-based year `400 * era + yoe`.
proof fn lemma_assemble(era: int, yoe: int, doy: int)
    requires
        0 <= yoe <= 399,
        0 <= doy < 365 + (if is_leap_year(yoe + 1) { 1int } else { 0 }),
    ensures
        ({
            let mp = (5 * doy + 2) / 153;
            let d = doy - march_month_start(mp) + 1;
            let m = if mp < 10 { mp + 3 } else { mp - 9 };
            let y = 400 * era + yoe + (if m <= 2 { 1int } else { 0 });
            &&& is_valid_date(y, m, d)
            &&& days_from_civil(y, m, d) == 146097 * era + era_year_start(yoe) + doy - 719468
        }),
{
    let ym = 400 * era + yoe;
    lemma_month_of_year(doy, is_leap_year(yoe + 1));
    lemma_march_first(era, yoe);
    lemma_leap_step(ym);
    let mp = (5 * doy + 2) / 153;
    let d = doy - march_month_start(mp) + 1;
    if mp < 10 {
        assert(days_before_month(ym, mp + 3) == days_before_month(ym, 3) + march_month_start(mp));
    } else {
        assert(days_before_month(ym + 1, mp - 9) + 306 == march_month_start(mp));
    }
}

proof fn lemma_leap_count_monotone(a: int, b: int)
    requires
        a <= b,
    ensures
        leap_years_before(a) <= leap_years_before(b),
    decreases b - a,
{
    if a < b {
        lemma_leap_count_monotone(a, b - 1);
        lemma_leap_step(b - 1);
    }
}

/// Offset of a valid date within its year, and the year's length.
proof fn lemma_day_of_year(y: int, m: int, d: int)
    requires
        is_valid_date(y, m, d),
    ensures
        0 <= days_before_month(y, m) + d - 1 < 365 + (if is_leap_year(y) { 1int } else { 0 }),
        days_from_civil(y, m, d) == days_from_civil(y, 1, 1) + days_before_month(y, m) + d - 1,
        days_from_civil(y + 1, 1, 1) == days_from_civil(y, 1, 1) + 365 + (if is_leap_year(y) { 1int } else { 0 }),
{
    lemma_leap_step(y);
}

/// Two valid dates with the same day count are the same date: the day count
/// from 1970-01-01 names each calendar day exactly once.
pub proof fn lemma_civil_date_unique(y1: int, m1: int, d1: int, y2: int, m2: int, d2: int)
    requires
        is_valid_date(y1, m1, d1),
        is_valid_date(y2, m2, d2),
        days_from_civil(y1, m1, d1) == days_from_civil(y2, m2, d2),
    ensures
        y1 == y2 && m1 == m2 && d1 == d2,
{
    lemma_day_of_year(y1, m1, d1);
    lemma_day_of_year(y2, m2, d2);
    if y1 < y2 {
        lemma_leap_count_monotone(y1 + 1, y2);
        assert(days_from_civil(y1 + 1, 1, 1) <= days_from_civil(y2, 1, 1));
    } else if y2 < y1 {
        lemma_leap_count_monotone(y2 + 1, y1);
        assert(days_from_civil(y2 + 1, 1, 1) <= days_from_civil(y1, 1, 1));
    } else {
        if m1 < m2 {
            assert(days_before_month(y1, m1) + days_in_month(y1, m1) <= days_before_month(y1, m2));
        } else if m2 < m1 {
            assert(days_before_month(y1, m2) + days_in_month(y1, m2) <= days_before_month(y1, m1));
        }
    }
}

/// The date `days` days after 1970-01-01 (before it, for negative `days`).
pub open spec fn civil_date(days: int) -> (int, int, int) {
    choose|ymd: (int, int, int)|
        is_valid_date(ymd.0, ymd.1, ymd.2) && #[trigger] days_from_civil(ymd.0, ymd.1, ymd.2) == days
}

proof fn civil_witness(days: int) -> (r: (int, int, int))
    ensures
        is_valid_date(r.0, r.1, r.2),
        days_from_civil(r.0, r.1, r.2) == days,
{
    let z = days + 719468;
    let era = z / 146097;
    let doe = z - era * 146097;
    lemma_year_of_era(doe);
    let yoe = (doe - doe / 1460 + doe / 36524 - doe / 146096) / 365;
    let doy = doe - era_year_start(yoe);
    lemma_assemble(era, yoe, doy);
    let mp = (5 * doy + 2) / 153;
    let d = doy - march_month_start(mp) + 1;
    let m = if mp < 10 { mp + 3 } else { mp - 9 };
    let y = 400 * era + yoe + (if m <= 2 { 1int } else { 0 });
    (y, m, d)
}

/// Every day count names a date: `civil_date(days)` is a valid date whose
/// day count is `days`.
pub proof fn lemma_civil_date_is_date(days: int)
    ensures
        is_valid_date(civil_date(days).0, civil_date(days).1, civil_date(days).2),
        days_from_civil(civil_date(days).0, civil_date(days).1, civil_date(days).2) == days,
{
    let w = civil_witness(days);
    assert(is_valid_date(w.0, w.1, w.2) && days_from_civil(w.0, w.1, w.2) == days);
}

/// A valid date is the civil date of its own day count.
pub proof fn lemma_civil_date_of_date(y: int, m: int, d: int)
    requires
        is_valid_date(y, m, d),
    ensures
        civil_date(days_from_civil(y, m, d)) == (y, m, d),
{
    let days = days_from_civil(y, m, d);
    lemma_civil_date_is_date(days);
    let c = civil_date(days);
    lemma_civil_date_unique(c.0, c.1, c.2, y, m, d);
}

/// Converts a day count from 1970-01-01 into the (year, month, day) of the
/// proleptic Gregorian calendar (Howard Hinnant's `civil_from_days`); the
/// year is returned as an `i32`.
pub fn days_to_ymd(days: i64) -> (r: (i32, u32, u32))
    requires
        days <= i64::MAX - 719468,
    ensures
        r.0 == civil_date(days as int).0 as i32,
        r.1 == civil_date(days as int).1,
        r.2 == civil_date(days as int).2,
{
    let z: i64 = days + 719468;
    let era: i64 = (if z >= 0 { z } else { z - 146096 }) / 146097;
    assert(0 <= z - era * 146097 < 146097);
    let doe: u32 = (z - era * 146097) as u32;
    proof {
        lemma_year_of_era(doe as int);
    }
    let yoe: u32 = (doe - doe / 1460 + doe / 36524 - doe / 146096) / 365;
    let y: i64 = yoe as i64 + era * 400;
    let doy: u32 = doe - (365 * yoe + yoe / 4 - yoe / 100);
    proof {
        lemma_assemble(era as int, yoe as int, doy as int);
    }
    let mp: u32 = (5 * doy + 2) / 153;
    let d: u32 = doy - (153 * mp + 2) / 5 + 1;
    let m: u32 = if mp < 10 { mp + 3 } else { mp - 9 };
    let y: i64 = if m <= 2 { y + 1 } else { y };
    proof {
        lemma_civil_date_of_date(y as int, m as int, d as int);
    }
    let year: i32 = y as i32;
    assert(year == (y as int) as i32);
    (year, m, d)
}

} // verus!
