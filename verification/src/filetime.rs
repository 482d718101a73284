//! Converts a Windows `FILETIME` (100ns ticks since 1601-01-01 UTC, the
//! on-disk representation of `Image Info`'s capture-date property) into an
//! EXIF-formatted `"YYYY:MM:DD HH:MM:SS"` string.
//!
//! The calendar math is Howard Hinnant's `civil_from_days`, a compact way
//! to turn a day count into a proleptic-Gregorian year/month/day.

use vstd::prelude::*;

use crate::text::{push_zero_padded, zero_padded};

verus! {

/// 100ns ticks per second.
pub const TICKS_PER_SECOND: u64 = 10_000_000;

/// Seconds from 1601-01-01 to 1970-01-01.
pub const SECONDS_1601_TO_1970: i64 = 11_644_473_600;

/// Gregorian leap year.
pub open spec fn is_leap_year(y: int) -> bool {
    y % 4 == 0 && (y % 100 != 0 || y % 400 == 0)
}

/// Days in year `y`.
pub open spec fn days_in_year(y: int) -> int {
    if is_leap_year(y) {
        366
    } else {
        365
    }
}

/// Days in month `m` (1 = January) of year `y`.
pub open spec fn days_in_month(y: int, m: int) -> int {
    if m == 2 {
        if is_leap_year(y) {
            29
        } else {
            28
        }
    } else if m == 4 || m == 6 || m == 9 || m == 11 {
        30
    } else {
        31
    }
}

/// Days of year `y` before the first of month `m`.
pub open spec fn days_before_month(y: int, m: int) -> int
    decreases m,
{
    if m <= 1 {
        0
    } else {
        days_before_month(y, m - 1) + days_in_month(y, m - 1)
    }
}

/// Days from 1970-01-01 to the first of January of year `y` (negative for
/// the years before 1970).
pub open spec fn days_before_year(y: int) -> int
    decreases (if y >= 1970 { y - 1970 } else { 1970 - y }),
{
    if y == 1970 {
        0
    } else if y > 1970 {
        days_before_year(y - 1) + days_in_year(y - 1)
    } else {
        days_before_year(y + 1) - days_in_year(y)
    }
}

/// A calendar date: month 1..=12, day within the month.
pub open spec fn valid_date(y: int, m: int, d: int) -> bool {
    1 <= m <= 12 && 1 <= d <= days_in_month(y, m)
}

/// Days from 1970-01-01 to the date (negative before 1970).
pub open spec fn days_since_epoch(y: int, m: int, d: int) -> int {
    days_before_year(y) + days_before_month(y, m) + d - 1
}

/// Seconds from 1970-01-01 00:00:00 UTC to the FILETIME `ft` (negative
/// before 1970), counting the whole seconds elapsed since 1601.
pub open spec fn unix_seconds(ft: u64) -> int {
    ft as int / TICKS_PER_SECOND as int - SECONDS_1601_TO_1970 as int
}

/// `YYYY:MM:DD HH:MM:SS`, each field zero-padded to its width.
pub open spec fn exif_datetime_text(
    y: int,
    mo: int,
    d: int,
    h: int,
    mi: int,
    s: int,
) -> Seq<char> {
    zero_padded(y as nat, 4) + seq![':'] + zero_padded(mo as nat, 2) + seq![':'] + zero_padded(
        d as nat,
        2,
    ) + seq![' '] + zero_padded(h as nat, 2) + seq![':'] + zero_padded(mi as nat, 2) + seq![':']
        + zero_padded(s as nat, 2)
}

/// The text `format_exif_datetime` gives for a FILETIME of `secs` seconds
/// after the epoch: the date `secs / 86400` days (rounded down) after
/// 1970-01-01, and the time of day from the remaining seconds.
pub open spec fn datetime_text_of(secs: int, s: Seq<char>) -> bool {
    exists|y: int, m: int, d: int|
        {
            &&& y >= 1
            &&& valid_date(y, m, d)
            &&& #[trigger] days_since_epoch(y, m, d) == secs / 86400
            &&& s == exif_datetime_text(
                y,
                m,
                d,
                secs % 86400 / 3600,
                secs % 3600 / 60,
                secs % 60,
            )
        }
}


/// Days from 0001-01-01 to the first of January of year `y` (`y >= 1`).
pub open spec fn days_from_year_one(y: int) -> int {
    365 * (y - 1) + (y - 1) / 4 - (y - 1) / 100 + (y - 1) / 400
}

/// Each year starts a whole year after the one before.
proof fn lemma_year_step(y: int)
    ensures
        days_before_year(y + 1) == days_before_year(y) + days_in_year(y),
{
    let a = days_before_year(y);
    let b = days_before_year(y + 1);
    if y >= 1970 {
        assert(b == days_before_year(y + 1 - 1) + days_in_year(y + 1 - 1));
    } else {
        assert(a == days_before_year(y + 1) - days_in_year(y));
    }
}

/// The day count to a year's first of January, in closed form.
proof fn lemma_days_before_year(y: int)
    ensures
        days_before_year(y) == days_from_year_one(y) - 719162,
    decreases (if y >= 1970 { y - 1970 } else { 1970 - y }),
{
    if y > 1970 {
        lemma_days_before_year(y - 1);
        lemma_year_step(y - 1);
    } else if y < 1970 {
        lemma_days_before_year(y + 1);
        lemma_year_step(y);
    }
}

/// The day count to a month's first, in closed form: March-based months
/// follow Hinnant's `(153 * mp + 2) / 5`.
proof fn lemma_days_before_month(y: int, m: int)
    requires
        1 <= m <= 12,
    ensures
        days_before_month(y, m) == if m == 1 {
            0
        } else if m == 2 {
            31
        } else {
            59 + (if is_leap_year(y) {
                1int
            } else {
                0
            }) + (153 * (m - 3) + 2) / 5
        },
{
    reveal_with_fuel(days_before_month, 13);
}

/// Hinnant's month formula: `mp = (5 * doy + 2) / 153` is the month (0 =
/// March) whose span in a March-based year holds day `doy`.
proof fn lemma_month_of_year(doy: int)
    requires
        0 <= doy <= 365,
    ensures
        ({
            let mp = (5 * doy + 2) / 153;
            &&& 0 <= mp <= 11
            &&& (153 * mp + 2) / 5 <= doy
            &&& mp < 11 ==> doy < (153 * (mp + 1) + 2) / 5
        }),
{
}

/// Converts days since the Unix epoch (1970-01-01) into a
/// (year, month, day) civil date.
/// <http://howardhinnant.github.io/date_algorithms.html>
fn civil_from_days(z: i64) -> (r: (i64, u32, u32))
    requires
        z <= i64::MAX - 719_468,
    ensures
        valid_date(r.0 as int, r.1 as int, r.2 as int),
        days_since_epoch(r.0 as int, r.1 as int, r.2 as int) == z,
{
    let z = z + 719_468;
    // The era is the floor of `z / 146097`, taken on non-negative operands.
    let era = if z >= 0 {
        z / 146_097
    } else {
        -((146_096 - z) / 146_097)
    };
    proof {
        lemma_floor_era(z as int, era as int);
    }
    let doe = (z - era * 146_097) as u64;  // [0, 146096]
    let yoe = (doe - doe / 1460 + doe / 36524 - doe / 146096) / 365;  // [0, 399]
    proof {
        lemma_year_of_era(doe as int);
    }
    let y = yoe as i64 + era * 400;
    let doy = doe - (365 * yoe + yoe / 4 - yoe / 100);  // [0, 365]
    proof {
        lemma_month_of_year(doy as int);
    }
    let mp = (5 * doy + 2) / 153;  // [0, 11]
    let d = (doy - (153 * mp + 2) / 5 + 1) as u32;  // [1, 31]
    let m = if mp < 10 {
        mp + 3
    } else {
        mp - 9
    } as u32;  // [1, 12]
    let y = if m <= 2 {
        y + 1
    } else {
        y
    };
    proof {
        lemma_days_before_year(y as int);
        lemma_days_before_month(y as int, m as int);
        lemma_civil_parts(z as int, era as int, doe as int, yoe as int, doy as int, mp as int);
    }
    (y, m, d)
}

/// The era computed on non-negative operands is the floor of `zp / 146097`,
/// and the day of the era left over lies in `[0, 146096]`.
proof fn lemma_floor_era(zp: int, era: int)
    requires
        era == if zp >= 0 {
            zp / 146_097
        } else {
            -((146_096 - zp) / 146_097)
        },
    ensures
        era == zp / 146_097,
        0 <= zp - era * 146_097 <= 146_096,
{
    vstd::arithmetic::div_mod::lemma_fundamental_div_mod(zp, 146_097);
    if zp < 0 {
        let n = 146_096 - zp;
        vstd::arithmetic::div_mod::lemma_fundamental_div_mod(n, 146_097);
        let q = n / 146_097;
        let r = n % 146_097;
        // zp == 146097 * (-q) + (146096 - r), with 0 <= 146096 - r < 146097.
        vstd::arithmetic::div_mod::lemma_fundamental_div_mod_converse(
            zp,
            146_097,
            -q,
            146_096 - r,
        );
    }
}

/// Adding `t` multiples of `d` shifts the quotient by `t` and keeps the
/// remainder.
proof fn lemma_shift_multiple(x: int, d: int, t: int)
    requires
        d > 0,
    ensures
        (x + d * t) / d == x / d + t,
        (x + d * t) % d == x % d,
{
    vstd::arithmetic::div_mod::lemma_fundamental_div_mod(x, d);
    vstd::arithmetic::div_mod::lemma_mod_bound(x, d);
    assert(x + d * t == (x / d + t) * d + x % d) by (nonlinear_arith)
        requires
            x == d * (x / d) + x % d,
    ;
    vstd::arithmetic::div_mod::lemma_fundamental_div_mod_converse(x + d * t, d, x / d + t, x % d);
}

/// Year `yoe + 400 * era` has the leap-year status and the day count of
/// year `yoe`, shifted by `era` whole eras of 146097 days.
proof fn lemma_era_shift(yoe: int, era: int)
    ensures
        is_leap_year(yoe + era * 400) == is_leap_year(yoe),
        days_from_year_one(yoe + era * 400) == 146097 * era + days_from_year_one(yoe),
{
    let y = yoe + era * 400;
    lemma_shift_multiple(yoe, 4, 100 * era);
    lemma_shift_multiple(yoe, 100, 4 * era);
    lemma_shift_multiple(yoe, 400, era);
    lemma_shift_multiple(yoe - 1, 4, 100 * era);
    lemma_shift_multiple(yoe - 1, 100, 4 * era);
    lemma_shift_multiple(yoe - 1, 400, era);
}

/// The day count of the first `yoe` years of an era, against the day
/// count from year one, for a year of the era.
proof fn lemma_year_in_era(yoe: int)
    requires
        0 <= yoe <= 399,
    ensures
        days_from_year_one(yoe) + 365 + (if is_leap_year(yoe) {
            1int
        } else {
            0
        }) == era_days(yoe),
        era_days(yoe + 1) - era_days(yoe) == 365 + (if is_leap_year(yoe + 1) {
            1int
        } else {
            0
        }),
        era_days(yoe) == 365 * yoe + yoe / 4 - yoe / 100,
{
}

/// The pieces Hinnant's algorithm computes add up to the day count.
proof fn lemma_civil_parts(zp: int, era: int, doe: int, yoe: int, doy: int, mp: int)
    requires
        era == zp / 146_097,
        doe == zp - era * 146_097,
        0 <= doe <= 146096,
        yoe == (doe - doe / 1460 + doe / 36524 - doe / 146096) / 365,
        0 <= yoe <= 399,
        era_days(yoe) <= doe < era_days(yoe + 1),
        doy == doe - (365 * yoe + yoe / 4 - yoe / 100),
        mp == (5 * doy + 2) / 153,
        0 <= mp <= 11,
        (153 * mp + 2) / 5 <= doy,
        mp < 11 ==> doy < (153 * (mp + 1) + 2) / 5,
    ensures
        ({
            let big_y = yoe + era * 400;
            let m = if mp < 10 {
                mp + 3
            } else {
                mp - 9
            };
            let y = if m <= 2 {
                big_y + 1
            } else {
                big_y
            };
            let d = doy - (153 * mp + 2) / 5 + 1;
            &&& valid_date(y, m, d)
            &&& days_from_year_one(y) - 719162 + (if m == 1 {
                0
            } else if m == 2 {
                31
            } else {
                59 + (if is_leap_year(y) {
                    1int
                } else {
                    0
                }) + (153 * (m - 3) + 2) / 5
            }) + d - 1 == zp - 719_468
        }),
{
    let big_y = yoe + era * 400;
    lemma_era_shift(yoe, era);
    lemma_era_shift(yoe + 1, era);
    lemma_year_in_era(yoe);
    assert(zp == era * 146_097 + doe);
    assert(doy == doe - era_days(yoe));
    assert(days_from_year_one(big_y + 1) == days_from_year_one(big_y) + 365 + (if is_leap_year(
        big_y,
    ) {
        1int
    } else {
        0
    }));
}

/// `secs % 86400 / 3600` and friends read the same from the time of day.
proof fn lemma_time_of_day(secs: int)
    requires
        secs >= 0,
    ensures
        secs % 86400 % 3600 == secs % 3600,
        secs % 86400 % 60 == secs % 60,
{
    vstd::arithmetic::div_mod::lemma_fundamental_div_mod(secs, 86400);
    vstd::arithmetic::div_mod::lemma_mod_bound(secs, 86400);
    lemma_shift_multiple(secs % 86400, 3600, 24 * (secs / 86400));
    lemma_shift_multiple(secs % 86400, 60, 1440 * (secs / 86400));
}

/// The text `YYYY:MM:DD HH:MM:SS` of the given fields.
fn datetime_text(y: u64, mo: u64, d: u64, h: u64, mi: u64, s: u64) -> (text: String)
    ensures
        text@ == exif_datetime_text(y as int, mo as int, d as int, h as int, mi as int, s as int),
{
    let mut text = String::new();
    push_zero_padded(&mut text, y, 4);
    text.append(":");
    push_zero_padded(&mut text, mo, 2);
    text.append(":");
    push_zero_padded(&mut text, d, 2);
    text.append(" ");
    push_zero_padded(&mut text, h, 2);
    text.append(":");
    push_zero_padded(&mut text, mi, 2);
    text.append(":");
    push_zero_padded(&mut text, s, 2);
    proof {
        reveal_strlit(":");
        reveal_strlit(" ");
    }
    assert(text@ =~= exif_datetime_text(y as int, mo as int, d as int, h as int, mi as int, s as int));
    text
}

/// A later year starts at least a whole year later.
proof fn lemma_year_starts_apart(y1: int, y2: int)
    requires
        y1 < y2,
    ensures
        days_before_year(y1) + days_in_year(y1) <= days_before_year(y2),
    decreases y2 - y1,
{
    lemma_year_step(y2 - 1);
    if y2 > y1 + 1 {
        lemma_year_starts_apart(y1, y2 - 1);
    }
}

/// A later month of a year starts at least a whole month later; the
/// months fill the year.
proof fn lemma_month_starts_apart(y: int, m1: int, m2: int)
    requires
        1 <= m1 < m2 <= 13,
    ensures
        days_before_month(y, m1) + days_in_month(y, m1) <= days_before_month(y, m2),
        days_before_month(y, 13) == days_in_year(y),
    decreases m2 - m1,
{
    reveal_with_fuel(days_before_month, 13);
    if m2 > m1 + 1 {
        lemma_month_starts_apart(y, m1, m2 - 1);
    }
}

/// A date's day of the year lies within its year.
proof fn lemma_day_within_year(y: int, m: int, d: int)
    requires
        valid_date(y, m, d),
    ensures
        0 <= days_before_month(y, m) + d - 1 < days_in_year(y),
{
    lemma_month_starts_apart(y, m, 13);
    assert(days_before_month(y, m) >= 0) by {
        reveal_with_fuel(days_before_month, 13);
    }
}

/// Distinct dates are distinct days: the day count since the
/// epoch determines the date, so the text `format_exif_datetime` gives for
/// a time is the only one `datetime_text_of` allows.
pub proof fn lemma_datetime_text_unique(secs: int, s1: Seq<char>, s2: Seq<char>)
    requires
        datetime_text_of(secs, s1),
        datetime_text_of(secs, s2),
    ensures
        s1 == s2,
{
    let (y1, m1, d1) = choose|y: int, m: int, d: int|
        {
            &&& y >= 1
            &&& valid_date(y, m, d)
            &&& #[trigger] days_since_epoch(y, m, d) == secs / 86400
            &&& s1 == exif_datetime_text(y, m, d, secs % 86400 / 3600, secs % 3600 / 60, secs % 60)
        };
    let (y2, m2, d2) = choose|y: int, m: int, d: int|
        {
            &&& y >= 1
            &&& valid_date(y, m, d)
            &&& #[trigger] days_since_epoch(y, m, d) == secs / 86400
            &&& s2 == exif_datetime_text(y, m, d, secs % 86400 / 3600, secs % 3600 / 60, secs % 60)
        };
    lemma_day_within_year(y1, m1, d1);
    lemma_day_within_year(y2, m2, d2);
    if y1 < y2 {
        lemma_year_starts_apart(y1, y2);
    } else if y2 < y1 {
        lemma_year_starts_apart(y2, y1);
    }
    assert(y1 == y2);
    if m1 < m2 {
        lemma_month_starts_apart(y1, m1, m2);
    } else if m2 < m1 {
        lemma_month_starts_apart(y1, m2, m1);
    }
    assert(m1 == m2);
}

/// Formats a FILETIME value as `"YYYY:MM:DD HH:MM:SS"`. Returns `None` if
/// the value doesn't correspond to a representable calendar date (0, which
/// some tools use as an "unset" sentinel).
pub fn format_exif_datetime(filetime: u64) -> (r: Option<String>)
    ensures
        filetime == 0 <==> r is None,
        r matches Some(s) ==> datetime_text_of(unix_seconds(filetime), s@),
{
    if filetime == 0 {
        return None;
    }
    // Whole seconds since 1601-01-01; the epoch falls on a day boundary,
    // 134774 days later.
    let seconds_since_1601 = filetime / TICKS_PER_SECOND;
    let days = (seconds_since_1601 / 86_400) as i64 - 134_774;
    let seconds_of_day = seconds_since_1601 % 86_400;
    let (year, month, day) = civil_from_days(days);
    let hour = seconds_of_day / 3600;
    let minute = (seconds_of_day % 3600) / 60;
    let second = seconds_of_day % 60;
    let text = datetime_text(year as u64, month as u64, day as u64, hour, minute, second);
    proof {
        let s1601 = seconds_since_1601 as int;
        let secs = unix_seconds(filetime);
        assert(secs == s1601 + 86400 * (-134774));
        lemma_shift_multiple(s1601, 86400, -134774);
        lemma_shift_multiple(s1601, 3600, -134774 * 24);
        lemma_shift_multiple(s1601, 60, -134774 * 1440);
        lemma_time_of_day(s1601);
        assert(days_since_epoch(year as int, month as int, day as int) == secs / 86400);
        if year < 1601 {
            lemma_day_within_year(year as int, month as int, day as int);
            lemma_year_starts_apart(year as int, 1601);
            lemma_days_before_year(1601);
            assert(false);
        }
    }
    Some(text)
}

} // verus!

verus! {

/// Days in the first `k` years of a 400-year era that starts on a first of March.
pub open spec fn era_days(k: int) -> int {
    365 * k + k / 4 - k / 100 + k / 400
}

/// Hinnant's year-of-era formula picks the year whose span holds `doe`.
proof fn lemma_year_of_era(doe: int)
    requires
        0 <= doe <= 146096,
    ensures
        ({
            let yoe = (doe - doe / 1460 + doe / 36524 - doe / 146096) / 365;
            &&& 0 <= yoe <= 399
            &&& era_days(yoe) <= doe < era_days(yoe + 1)
        }),
{
}


} // verus!
