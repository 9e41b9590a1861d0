//! The proleptic Gregorian calendar in UTC: day numbers of civil dates, and
//! the conversions between dates and millisecond timestamps.

use vstd::prelude::*;
use chrono::{Datelike, TimeZone};

verus! {

/// Milliseconds in one day.
pub const DAY_MS: i64 = 86_400_000;

/// The earliest and the latest year that a timestamp can fall in.
pub const MIN_YEAR: i32 = -262_143;

pub const MAX_YEAR: i32 = 262_142;

/// A calendar date.
#[derive(Debug, Clone, Copy, PartialEq, Eq, Structural)]
pub struct CivilDate {
    pub year: i32,
    pub month: u32,
    pub day: u32,
}

pub open spec fn is_leap_year(y: int) -> bool {
    y % 4 == 0 && (y % 100 != 0 || y % 400 == 0)
}

pub open spec fn days_in_month(y: int, m: int) -> int {
    if m == 2 {
        if is_leap_year(y) {
            29
        } else {
            28
        }
    } else if m == 4 || m == 6 || m == 9 || m == 11 {
        30
    } else {
        31
    }
}

/// Number of leap years among the years up to and including `y`, counted
/// from a fixed origin.
pub open spec fn leap_years_through(y: int) -> int {
    y / 4 - y / 100 + y / 400
}

/// Days from 1 January 1970 to 1 January of year `y`.
pub open spec fn days_before_year(y: int) -> int {
    365 * (y - 1970) + leap_years_through(y - 1) - leap_years_through(1969)
}

/// Days from 1 January of year `y` to the first day of month `m`.
pub open spec fn days_before_month(y: int, m: int) -> int
    decreases m,
{
    if m <= 1 {
        0
    } else {
        days_before_month(y, m - 1) + days_in_month(y, m - 1)
    }
}

/// Days from 1 January 1970 to the given date.
pub open spec fn day_number(y: int, m: int, d: int) -> int {
    days_before_year(y) + days_before_month(y, m) + d - 1
}

/// Millisecond timestamp of midnight UTC at the start of the given date.
pub open spec fn day_start_ms(y: int, m: int, d: int) -> int {
    day_number(y, m, d) * 86_400_000
}

pub open spec fn date_valid(y: int, m: int, d: int) -> bool {
    &&& MIN_YEAR <= y <= MAX_YEAR
    &&& 1 <= m <= 12
    &&& 1 <= d <= days_in_month(y, m)
}

/// Whether a millisecond timestamp falls on a date that exists.
pub open spec fn utc_in_range(ts: int) -> bool {
    day_start_ms(MIN_YEAR as int, 1, 1) <= ts < day_start_ms(MAX_YEAR as int, 12, 31) + 86_400_000
}

/// Whether a millisecond timestamp falls on a date: the date exists, and
/// the timestamp lies within the day that begins at the date's midnight.
pub open spec fn falls_on(ts: int, d: CivilDate) -> bool {
    &&& date_valid(d.year as int, d.month as int, d.day as int)
    &&& day_start_ms(d.year as int, d.month as int, d.day as int) <= ts
    &&& ts < day_start_ms(d.year as int, d.month as int, d.day as int) + 86_400_000
}

/// The UTC date on which a millisecond timestamp falls.
pub open spec fn utc_date(ts: int) -> CivilDate {
    choose|d: CivilDate| falls_on(ts, d)
}

/// The UTC date of a millisecond timestamp, if the timestamp is in range.
///
/// Stands for `chrono::Utc.timestamp_millis_opt(ts).single()` followed by the
/// date's year, month and day: a date exists exactly for timestamps from the
/// first instant of the earliest year to the last instant of the latest year,
/// and the timestamp lies within the day that begins at that date's midnight.
#[verifier::external_body]
pub(crate) fn utc_date_of_millis(ts: i64) -> (r: Option<CivilDate>)
    ensures
        r is Some <==> utc_in_range(ts as int),
        r is Some ==> falls_on(ts as int, r->Some_0),
{
    chrono::Utc.timestamp_millis_opt(ts).single().map(
        |dt| CivilDate { year: dt.year(), month: dt.month(), day: dt.day() },
    )
}

/// Millisecond timestamp of midnight UTC at the start of a date.
///
/// Stands for `chrono::Utc.with_ymd_and_hms(year, month, day, 0, 0, 0)`
/// followed by `timestamp_millis`: the day number of the date in the
/// proleptic Gregorian calendar, counted from 1 January 1970, times the
/// milliseconds of a day.
#[verifier::external_body]
pub(crate) fn utc_day_start_ms(year: i32, month: u32, day: u32) -> (ms: i64)
    requires
        date_valid(year as int, month as int, day as int),
    ensures
        ms == day_start_ms(year as int, month as int, day as int),
{
    chrono::Utc.with_ymd_and_hms(year, month, day, 0, 0, 0).single().unwrap().timestamp_millis()
}

pub fn is_leap(year: i32) -> (r: bool)
    ensures
        r == is_leap_year(year as int),
{
    year % 4 == 0 && (year % 100 != 0 || year % 400 == 0)
}

pub fn month_length(year: i32, month: u32) -> (n: u32)
    ensures
        n == days_in_month(year as int, month as int),
        28 <= n <= 31,
{
    if month == 2 {
        if is_leap(year) {
            29
        } else {
            28
        }
    } else if month == 4 || month == 6 || month == 9 || month == 11 {
        30
    } else {
        31
    }
}

/// Days from the start of a year to the start of each month stay within
/// the year.
pub proof fn lemma_days_before_month_bounds(y: int, m: int)
    requires
        1 <= m <= 13,
    ensures
        0 <= days_before_month(y, m) <= 31 * (m - 1),
        m == 13 ==> days_before_month(y, m) == if is_leap_year(y) {
            366int
        } else {
            365int
        },
        28 * (m - 1) <= days_before_month(y, m),
{
    reveal_with_fuel(days_before_month, 14);
}

/// The count of leap years grows by one exactly at a leap year.
proof fn lemma_leap_count_step(y: int)
    ensures
        leap_years_through(y) == leap_years_through(y - 1) + if is_leap_year(y) {
            1int
        } else {
            0int
        },
{
    assert(y / 4 == (y - 1) / 4 + if y % 4 == 0 {
        1int
    } else {
        0int
    });
    assert(y / 100 == (y - 1) / 100 + if y % 100 == 0 {
        1int
    } else {
        0int
    });
    assert(y / 400 == (y - 1) / 400 + if y % 400 == 0 {
        1int
    } else {
        0int
    });
    assert(y % 400 == 0 ==> y % 100 == 0) by {
        if y % 400 == 0 {
            assert(y == 100 * (4 * (y / 400)));
        }
    }
    assert(y % 100 == 0 ==> y % 4 == 0) by {
        if y % 100 == 0 {
            assert(y == 4 * (25 * (y / 100)));
        }
    }
}

/// The year after begins when the twelve months of a year are over.
pub proof fn lemma_year_rollover(y: int)
    ensures
        days_before_year(y + 1) == days_before_year(y) + days_before_month(y, 13),
{
    lemma_days_before_month_bounds(y, 13);
    lemma_leap_count_step(y);
}

/// Day numbers of dates that exist are far inside the machine integers.
pub proof fn lemma_day_number_bounds(y: int, m: int, d: int)
    requires
        date_valid(y, m, d),
    ensures
        -96_500_000 <= day_number(y, m, d) <= 96_500_000,
        -8_400_000_000_000_000 <= day_start_ms(y, m, d) <= 8_400_000_000_000_000,
{
    lemma_days_before_month_bounds(y, m);
}

proof fn lemma_leap_years_monotone(a: int, b: int)
    requires
        a <= b,
    ensures
        leap_years_through(a) <= leap_years_through(b),
    decreases b - a,
{
    if a < b {
        lemma_leap_years_monotone(a, b - 1);
        lemma_leap_count_step(b);
    }
}

/// A later year begins at least 365 days per year later.
pub proof fn lemma_days_before_year_monotone(y1: int, y2: int)
    requires
        y1 <= y2,
    ensures
        days_before_year(y2) >= days_before_year(y1) + 365 * (y2 - y1),
{
    lemma_leap_years_monotone(y1 - 1, y2 - 1);
}

/// Within a year, a day of a month comes before the first day of every
/// later month.
proof fn lemma_month_order(y: int, m1: int, d1: int, m2: int)
    requires
        1 <= m1 < m2 <= 13,
        1 <= d1 <= days_in_month(y, m1),
    ensures
        days_before_month(y, m1) + d1 - 1 < days_before_month(y, m2),
{
    reveal_with_fuel(days_before_month, 14);
}

pub open spec fn date_before(y1: int, m1: int, d1: int, y2: int, m2: int, d2: int) -> bool {
    y1 < y2 || (y1 == y2 && (m1 < m2 || (m1 == m2 && d1 < d2)))
}

/// Day numbers follow the order of dates.
pub proof fn lemma_day_number_monotone(y1: int, m1: int, d1: int, y2: int, m2: int, d2: int)
    requires
        1 <= m1 <= 12,
        1 <= d1 <= days_in_month(y1, m1),
        1 <= m2 <= 12,
        1 <= d2 <= days_in_month(y2, m2),
        date_before(y1, m1, d1, y2, m2, d2),
    ensures
        day_number(y1, m1, d1) < day_number(y2, m2, d2),
{
    if y1 < y2 {
        lemma_month_order(y1, m1, d1, 13);
        lemma_year_rollover(y1);
        lemma_days_before_year_monotone(y1 + 1, y2);
        lemma_days_before_month_bounds(y2, m2);
    } else if m1 < m2 {
        lemma_month_order(y1, m1, d1, m2);
    }
}

/// A timestamp falls on at most one date.
pub proof fn lemma_falls_on_one_date(ts: int, a: CivilDate, b: CivilDate)
    requires
        falls_on(ts, a),
        falls_on(ts, b),
    ensures
        a == b,
{
    let (y1, m1, d1) = (a.year as int, a.month as int, a.day as int);
    let (y2, m2, d2) = (b.year as int, b.month as int, b.day as int);
    if date_before(y1, m1, d1, y2, m2, d2) {
        lemma_day_number_monotone(y1, m1, d1, y2, m2, d2);
    } else if date_before(y2, m2, d2, y1, m1, d1) {
        lemma_day_number_monotone(y2, m2, d2, y1, m1, d1);
    }
}

/// The date that a timestamp falls on is its UTC date.
pub proof fn lemma_utc_date_is(ts: int, d: CivilDate)
    requires
        falls_on(ts, d),
    ensures
        utc_date(ts) == d,
{
    lemma_falls_on_one_date(ts, utc_date(ts), d);
}

/// Timestamps on dates that exist are in range.
pub proof fn lemma_falls_on_in_range(ts: int, d: CivilDate)
    requires
        falls_on(ts, d),
    ensures
        utc_in_range(ts),
{
    let (y, m, day) = (d.year as int, d.month as int, d.day as int);
    if date_before(MIN_YEAR as int, 1, 1, y, m, day) {
        lemma_day_number_monotone(MIN_YEAR as int, 1, 1, y, m, day);
    }
    if date_before(y, m, day, MAX_YEAR as int, 12, 31) {
        lemma_day_number_monotone(y, m, day, MAX_YEAR as int, 12, 31);
    }
}

} // verus!

verus! {

/// The day after a date.
pub open spec fn next_day(y: int, m: int, d: int) -> (int, int, int) {
    if d < days_in_month(y, m) {
        (y, m, d + 1)
    } else if m < 12 {
        (y, m + 1, 1)
    } else {
        (y + 1, 1, 1)
    }
}

/// The first day of a month begins when the month before it is over.
pub proof fn lemma_month_rollover(y: int, m: int)
    requires
        1 <= m <= 12,
    ensures
        ({
            let next = next_day(y, m, days_in_month(y, m));
            day_number(next.0, next.1, next.2) == day_number(y, m, 1) + days_in_month(y, m)
        }),
{
    if m == 12 {
        lemma_year_rollover(y);
    }
    reveal_with_fuel(days_before_month, 14);
}

/// The day after a date has the next day number.
pub proof fn lemma_next_day_number(y: int, m: int, d: int)
    requires
        1 <= m <= 12,
        1 <= d <= days_in_month(y, m),
    ensures
        ({
            let next = next_day(y, m, d);
            &&& day_number(next.0, next.1, next.2) == day_number(y, m, d) + 1
            &&& 1 <= next.1 <= 12
            &&& 1 <= next.2 <= days_in_month(next.0, next.1)
            &&& y <= next.0 <= y + 1
        }),
{
    if d == days_in_month(y, m) {
        lemma_month_rollover(y, m);
    }
}

/// Every day from the first of the earliest year to the last of the latest
/// year is a date.
pub proof fn lemma_every_day_is_a_date(n: int) -> (date: CivilDate)
    requires
        day_number(MIN_YEAR as int, 1, 1) <= n <= day_number(MAX_YEAR as int, 12, 31),
    ensures
        date_valid(date.year as int, date.month as int, date.day as int),
        day_number(date.year as int, date.month as int, date.day as int) == n,
    decreases n - day_number(MIN_YEAR as int, 1, 1),
{
    if n == day_number(MIN_YEAR as int, 1, 1) {
        CivilDate { year: MIN_YEAR, month: 1, day: 1 }
    } else {
        let before = lemma_every_day_is_a_date(n - 1);
        let (y, m, d) = (before.year as int, before.month as int, before.day as int);
        lemma_next_day_number(y, m, d);
        let next = next_day(y, m, d);
        if next.0 > MAX_YEAR {
            // the day before was the last day of the latest year
            assert(y == MAX_YEAR && m == 12 && d == 31);
        }
        CivilDate { year: next.0 as i32, month: next.1 as u32, day: next.2 as u32 }
    }
}

/// Every timestamp in range falls on its UTC date.
pub proof fn lemma_in_range_falls_on_date(ts: int)
    requires
        utc_in_range(ts),
    ensures
        falls_on(ts, utc_date(ts)),
{
    let n = ts / 86_400_000;
    let date = lemma_every_day_is_a_date(n);
    assert(falls_on(ts, date));
}

} // verus!
