//! Calendar arithmetic: Windows FILETIME to Unix seconds, and days since
//! 1970-01-01 to a proleptic Gregorian (year, month, day).
use vstd::prelude::*;
use crate::text::{decimal_padded, push_decimal, string_of};

verus! {

/// Seconds between 1601-01-01 (the FILETIME epoch) and 1970-01-01.
pub const FILETIME_EPOCH_OFFSET: u64 = 11_644_473_600;

/// FILETIME ticks (100 ns) per second.
pub const TICKS_PER_SECOND: u64 = 10_000_000;

/// The Unix second of a FILETIME, 0 for times before 1970.
pub open spec fn spec_filetime_to_unix(ft: u64) -> u64 {
    let secs = ft / TICKS_PER_SECOND;
    if secs >= FILETIME_EPOCH_OFFSET {
        (secs - FILETIME_EPOCH_OFFSET) as u64
    } else {
        0
    }
}

/// Converts a FILETIME (100 ns ticks since 1601) to Unix seconds, saturating at 0.
pub fn filetime_to_unix(ft: u64) -> (r: u64)
    ensures
        r == spec_filetime_to_unix(ft),
{
    let secs = ft / TICKS_PER_SECOND;
    secs.saturating_sub(FILETIME_EPOCH_OFFSET)
}

/// Law: a FILETIME made from a Unix second converts back to that second.
pub proof fn lemma_filetime_roundtrip(unix: u64)
    requires
        (unix + FILETIME_EPOCH_OFFSET) * TICKS_PER_SECOND <= u64::MAX,
    ensures
        spec_filetime_to_unix(((unix + FILETIME_EPOCH_OFFSET) * TICKS_PER_SECOND) as u64) == unix,
{
    let s = unix + FILETIME_EPOCH_OFFSET;
    assert((s * 10_000_000) / 10_000_000 == s) by (nonlinear_arith);
}

/// Days from 1970-01-01 to the (year, month, day) of the proleptic Gregorian calendar,
/// by eras of 400 years (146097 days) counted from 0000-03-01.
pub open spec fn civil(days: int) -> (int, int, int) {
    let z = days + 719468;
    let era = z / 146097;
    let doe = z - era * 146097;
    let yoe = (doe - doe / 1460 + doe / 36524 - doe / 146096) / 365;
    let y = yoe + era * 400;
    let doy = doe - (365 * yoe + yoe / 4 - yoe / 100);
    let mp = (5 * doy + 2) / 153;
    let d = doy - (153 * mp + 2) / 5 + 1;
    let m = if mp < 10 { mp + 3 } else { mp - 9 };
    (if m <= 2 { y + 1 } else { y }, m, d)
}

/// Inside one era the day of the era, year of the era, day of the year and month
/// index stay in their ranges.
pub(crate) proof fn lemma_era_ranges(doe: int)
    requires
        0 <= doe <= 146096,
    ensures
        ({
            let yoe = (doe - doe / 1460 + doe / 36524 - doe / 146096) / 365;
            let doy = doe - (365 * yoe + yoe / 4 - yoe / 100);
            let mp = (5 * doy + 2) / 153;
            let d = doy - (153 * mp + 2) / 5 + 1;
            &&& 0 <= yoe <= 399
            &&& 0 <= doy <= 365
            &&& 0 <= mp <= 11
            &&& 1 <= d <= 31
        }),
{
    let a = doe / 1460;
    let b = doe / 36524;
    let c = doe / 146096;
    assert(0 <= a && 1460 * a <= doe < 1460 * a + 1460) by (nonlinear_arith)
        requires
            a == doe / 1460,
            0 <= doe,
    ;
    assert(0 <= b && 36524 * b <= doe < 36524 * b + 36524) by (nonlinear_arith)
        requires
            b == doe / 36524,
            0 <= doe,
    ;
    assert(0 <= c <= 1 && 146096 * c <= doe) by (nonlinear_arith)
        requires
            c == doe / 146096,
            0 <= doe <= 146096,
    ;
    let n = doe - a + b - c;
    let yoe = n / 365;
    assert(b <= 4);
    assert(c == 1 ==> doe == 146096);
    if doe >= 146000 {
        assert(a == 100);
    } else {
        assert(a <= 99);
    }
    assert(0 <= n <= 145999);
    assert(0 <= yoe && 365 * yoe <= n < 365 * yoe + 365) by (nonlinear_arith)
        requires
            yoe == n / 365,
            0 <= n,
    ;
    assert(yoe <= 399) by (nonlinear_arith)
        requires
            365 * yoe <= n,
            n <= 145999,
    ;
    let y4 = yoe / 4;
    let y100 = yoe / 100;
    assert(0 <= y4 && 4 * y4 <= yoe < 4 * y4 + 4) by (nonlinear_arith)
        requires
            y4 == yoe / 4,
            0 <= yoe,
    ;
    assert(0 <= y100 && 100 * y100 <= yoe < 100 * y100 + 100) by (nonlinear_arith)
        requires
            y100 == yoe / 100,
            0 <= yoe,
    ;
    let doy = doe - (365 * yoe + y4 - y100);
    assert(0 <= doy <= 365) by (nonlinear_arith)
        requires
            doy == doe - (365 * yoe + y4 - y100),
            365 * yoe <= n < 365 * yoe + 365,
            n == doe - a + b - c,
            1460 * a <= doe < 1460 * a + 1460,
            36524 * b <= doe < 36524 * b + 36524,
            0 <= c <= 1,
            146096 * c <= doe,
            0 <= doe <= 146096,
            0 <= a,
            0 <= b,
            0 <= n <= 145999,
            4 * y4 <= yoe < 4 * y4 + 4,
            100 * y100 <= yoe < 100 * y100 + 100,
            0 <= y4,
            0 <= y100,
            0 <= yoe <= 399,
    ;
    let mp = (5 * doy + 2) / 153;
    assert(0 <= mp && 153 * mp <= 5 * doy + 2 < 153 * mp + 153) by (nonlinear_arith)
        requires
            mp == (5 * doy + 2) / 153,
            0 <= doy,
    ;
    assert(mp <= 11) by (nonlinear_arith)
        requires
            153 * mp <= 5 * doy + 2,
            doy <= 365,
    ;
    let q = (153 * mp + 2) / 5;
    assert(5 * q <= 153 * mp + 2 < 5 * q + 5) by (nonlinear_arith)
        requires
            q == (153 * mp + 2) / 5,
            0 <= mp,
    ;
    assert(1 <= doy - q + 1 <= 31) by (nonlinear_arith)
        requires
            5 * q <= 153 * mp + 2 < 5 * q + 5,
            153 * mp <= 5 * doy + 2 < 153 * mp + 153,
    ;
}

/// Law: every day count gives a valid month and day of month.
pub proof fn lemma_civil_valid(days: int)
    ensures
        1 <= civil(days).1 <= 12,
        1 <= civil(days).2 <= 31,
{
    let z = days + 719468;
    let era = z / 146097;
    let doe = z - era * 146097;
    assert(0 <= doe < 146097) by (nonlinear_arith)
        requires
            era == z / 146097,
            doe == z - era * 146097,
    ;
    lemma_era_ranges(doe);
}

/// The number of days from 1970-01-01 to the day `d` of month `m` of year `y` in
/// the proleptic Gregorian calendar: whole 400-year eras of 146097 days, then
/// the years of the era (365 days, a leap day every fourth year but not every
/// hundredth) counted from March, then the days of the months from March on
/// (the month lengths 31, 30, 31, 30, 31, 31, 30, 31, 30, 31, 31, 28/29 give
/// `(153 * months + 2) / 5` days before a month).
pub open spec fn days_from_civil(y: int, m: int, d: int) -> int {
    let y2 = if m <= 2 { y - 1 } else { y };
    let era = y2 / 400;
    let yoe = y2 - era * 400;
    let mp = if m > 2 { m - 3 } else { m + 9 };
    let doy = (153 * mp + 2) / 5 + d - 1;
    let doe = yoe * 365 + yoe / 4 - yoe / 100 + doy;
    era * 146097 + doe - 719468
}

/// Law: [`civil`] is the inverse of the day count: counting the days up to the
/// date it gives returns the day it was given, for every day.
pub proof fn lemma_civil_inverts_day_count(days: int)
    ensures
        days_from_civil(civil(days).0, civil(days).1, civil(days).2) == days,
{
    let z = days + 719468;
    let era = z / 146097;
    let doe = z - era * 146097;
    assert(0 <= doe < 146097) by (nonlinear_arith)
        requires
            era == z / 146097,
            doe == z - era * 146097,
    ;
    lemma_era_ranges(doe);
    let yoe = (doe - doe / 1460 + doe / 36524 - doe / 146096) / 365;
    let y = yoe + era * 400;
    assert(y / 400 == era && y - (y / 400) * 400 == yoe) by (nonlinear_arith)
        requires
            y == yoe + era * 400,
            0 <= yoe <= 399,
    ;
}

/// Days since 1970-01-01 to (year, month, day), for every day count whose
/// shift by the era origin fits an `i64`.
pub fn civil_from_days(z: i64) -> (r: (i64, u32, u32))
    requires
        i64::MIN + 146096 <= z + 719468 <= i64::MAX,
    ensures
        r.0 == civil(z as int).0,
        r.1 == civil(z as int).1,
        r.2 == civil(z as int).2,
{
    proof {
        lemma_civil_valid(z as int);
    }
    let z1: i64 = z + 719468;
    let era: i64 = if z1 >= 0 {
        z1 / 146097
    } else {
        let w: u64 = ((0 - (z1 + 1)) as u64) / 146097;
        -1 - (w as i64)
    };
    assert(era == (z1 as int) / 146097) by (nonlinear_arith)
        requires
            z1 >= 0 ==> era == (z1 as int) / 146097,
            z1 < 0 ==> era == -1 - (((-(z1 + 1)) as int) / 146097),
    ;
    let doe: i64 = z1 - era * 146097;
    assert(0 <= doe < 146097) by (nonlinear_arith)
        requires
            era == (z1 as int) / 146097,
            doe == z1 - era * 146097,
    ;
    proof {
        lemma_era_ranges(doe as int);
    }
    let yoe: i64 = (doe - doe / 1460 + doe / 36524 - doe / 146096) / 365;
    let y: i64 = yoe + era * 400;
    let doy: i64 = doe - (365 * yoe + yoe / 4 - yoe / 100);
    let mp: i64 = (5 * doy + 2) / 153;
    let d: i64 = doy - (153 * mp + 2) / 5 + 1;
    let m: i64 = if mp < 10 { mp + 3 } else { mp - 9 };
    let year: i64 = if m <= 2 { y + 1 } else { y };
    (year, m as u32, d as u32)
}

/// `YYYY-MM-DD HH:MM:SS` (UTC) for a positive Unix second; nothing for 0.
pub open spec fn spec_timestamp_text(ts: u64) -> Option<Seq<char>> {
    if ts == 0 {
        None
    } else {
        let (y, m, d) = civil((ts / 86400) as int);
        let s = ts % 86400;
        Some(
            decimal_padded(y as nat, 4) + seq!['-'] + decimal_padded(m as nat, 2) + seq!['-']
                + decimal_padded(d as nat, 2) + seq![' '] + decimal_padded((s / 3600) as nat, 2)
                + seq![':'] + decimal_padded(((s % 3600) / 60) as nat, 2) + seq![':']
                + decimal_padded((s % 60) as nat, 2),
        )
    }
}

/// Formats a Unix second as `YYYY-MM-DD HH:MM:SS` (UTC); 0 means "no time" and gives `None`.
pub fn unix_to_string(ts: u64) -> (r: Option<String>)
    ensures
        r is None <==> ts == 0,
        r matches Some(s) ==> spec_timestamp_text(ts) == Some(s@),
{
    if ts == 0 {
        return None;
    }
    let days: i64 = (ts / 86400) as i64;
    let secs = ts % 86400;
    let (y, m, d) = civil_from_days(days);
    assert(y >= 0) by (nonlinear_arith)
        requires
            y == civil(days as int).0,
            days >= 0,
    {
        let z = days + 719468;
        let era = z / 146097;
        assert(era >= 0);
        let doe = z - era * 146097;
        assert(0 <= doe < 146097);
        lemma_era_ranges(doe);
    }
    let mut v: Vec<char> = Vec::new();
    push_decimal(&mut v, y as u64, 4);
    v.push('-');
    push_decimal(&mut v, m as u64, 2);
    v.push('-');
    push_decimal(&mut v, d as u64, 2);
    v.push(' ');
    push_decimal(&mut v, secs / 3600, 2);
    v.push(':');
    push_decimal(&mut v, (secs % 3600) / 60, 2);
    v.push(':');
    push_decimal(&mut v, secs % 60, 2);
    let s = string_of(&v);
    assert(s@ =~= spec_timestamp_text(ts).unwrap());
    Some(s)
}

} // verus!
