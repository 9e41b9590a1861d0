//! Market slugs: the deterministic names of up/down markets by coin,
//! duration and start time.

use vstd::prelude::*;
use vstd::string::*;
use chrono::{Datelike, TimeZone, Timelike};
use crate::calendar::{
    date_valid, days_in_month, lemma_day_number_bounds, month_length, utc_date_of_millis,
    utc_in_range, MAX_YEAR, MIN_YEAR,
};
use crate::text::{decimal_digits, decimal_text, push_i64, push_u64, str_eq};

verus! {

#[derive(Debug, Clone, Copy, PartialEq, Eq, Hash, Structural)]
pub enum Coin {
    Btc,
    Eth,
    Sol,
    Xrp,
}

#[derive(Debug, Clone, Copy, PartialEq, Eq, Hash, Structural)]
pub enum Duration {
    M5,
    M15,
    H1,
    H4,
    D1,
}

#[derive(Debug, Clone, Copy, PartialEq, Eq, Structural)]
pub struct SlugConfig {
    pub discovery_offset_4h_min: i32,
}

impl Default for SlugConfig {
    fn default() -> (cfg: Self)
        ensures
            cfg.discovery_offset_4h_min == 0,
    {
        SlugConfig { discovery_offset_4h_min: 0 }
    }
}

#[derive(Debug, Clone, PartialEq, Eq)]
pub enum SlugError {
    UnsupportedCoin(String),
    InvalidDuration(String),
    InvalidTimestamp(i64),
}

/// Mathematical content of a [`SlugError`].
pub enum SlugErrorView {
    UnsupportedCoin(Seq<char>),
    InvalidDuration(Seq<char>),
    InvalidTimestamp(i64),
}

impl View for SlugError {
    type V = SlugErrorView;

    open spec fn view(&self) -> SlugErrorView {
        match *self {
            SlugError::UnsupportedCoin(s) => SlugErrorView::UnsupportedCoin(s@),
            SlugError::InvalidDuration(s) => SlugErrorView::InvalidDuration(s@),
            SlugError::InvalidTimestamp(ts) => SlugErrorView::InvalidTimestamp(ts),
        }
    }
}

pub open spec fn parse_coin_spec(input: Seq<char>) -> Result<Coin, SlugErrorView> {
    if input == "BTC"@ {
        Ok(Coin::Btc)
    } else if input == "ETH"@ {
        Ok(Coin::Eth)
    } else if input == "SOL"@ {
        Ok(Coin::Sol)
    } else if input == "XRP"@ {
        Ok(Coin::Xrp)
    } else {
        Err(SlugErrorView::UnsupportedCoin(input))
    }
}

pub fn parse_coin(input: &str) -> (r: Result<Coin, SlugError>)
    ensures
        match parse_coin_spec(input@) {
            Ok(coin) => r == Ok::<Coin, SlugError>(coin),
            Err(e) => r is Err && r->Err_0@ == e,
        },
{
    if str_eq(input, "BTC") {
        Ok(Coin::Btc)
    } else if str_eq(input, "ETH") {
        Ok(Coin::Eth)
    } else if str_eq(input, "SOL") {
        Ok(Coin::Sol)
    } else if str_eq(input, "XRP") {
        Ok(Coin::Xrp)
    } else {
        Err(SlugError::UnsupportedCoin(input.to_string()))
    }
}

pub open spec fn parse_duration_spec(input: Seq<char>) -> Result<Duration, SlugErrorView> {
    if input == "5m"@ {
        Ok(Duration::M5)
    } else if input == "15m"@ {
        Ok(Duration::M15)
    } else if input == "1h"@ {
        Ok(Duration::H1)
    } else if input == "4h"@ {
        Ok(Duration::H4)
    } else if input == "1d"@ {
        Ok(Duration::D1)
    } else {
        Err(SlugErrorView::InvalidDuration(input))
    }
}

pub fn parse_duration(input: &str) -> (r: Result<Duration, SlugError>)
    ensures
        match parse_duration_spec(input@) {
            Ok(duration) => r == Ok::<Duration, SlugError>(duration),
            Err(e) => r is Err && r->Err_0@ == e,
        },
{
    if str_eq(input, "5m") {
        Ok(Duration::M5)
    } else if str_eq(input, "15m") {
        Ok(Duration::M15)
    } else if str_eq(input, "1h") {
        Ok(Duration::H1)
    } else if str_eq(input, "4h") {
        Ok(Duration::H4)
    } else if str_eq(input, "1d") {
        Ok(Duration::D1)
    } else {
        Err(SlugError::InvalidDuration(input.to_string()))
    }
}

pub open spec fn coin_short_spec(coin: Coin) -> Seq<char> {
    match coin {
        Coin::Btc => "btc"@,
        Coin::Eth => "eth"@,
        Coin::Sol => "sol"@,
        Coin::Xrp => "xrp"@,
    }
}

pub fn coin_short(coin: Coin) -> (s: &'static str)
    ensures
        s@ == coin_short_spec(coin),
{
    match coin {
        Coin::Btc => "btc",
        Coin::Eth => "eth",
        Coin::Sol => "sol",
        Coin::Xrp => "xrp",
    }
}

pub open spec fn coin_full_spec(coin: Coin) -> Seq<char> {
    match coin {
        Coin::Btc => "bitcoin"@,
        Coin::Eth => "ethereum"@,
        Coin::Sol => "solana"@,
        Coin::Xrp => "xrp"@,
    }
}

pub fn coin_full(coin: Coin) -> (s: &'static str)
    ensures
        s@ == coin_full_spec(coin),
{
    match coin {
        Coin::Btc => "bitcoin",
        Coin::Eth => "ethereum",
        Coin::Sol => "solana",
        Coin::Xrp => "xrp",
    }
}

/// The next multiple of four hours at or after a time, on a grid shifted by
/// an offset in minutes.
pub open spec fn align_4h_end_spec(end_ts_utc: int, offset_min: int) -> int {
    let offset = offset_min * 60;
    ((end_ts_utc - offset + 14_400 - 1) / 14_400) * 14_400 + offset
}

/// Rounds a time up to the four-hour grid shifted by an offset in minutes.
pub fn align_4h_end_ts(end_ts_utc: i64, offset_min: i32) -> (aligned: i64)
    requires
        -4_000_000_000_000_000_000 <= end_ts_utc <= 4_000_000_000_000_000_000,
    ensures
        aligned == align_4h_end_spec(end_ts_utc as int, offset_min as int),
        aligned >= end_ts_utc,
        aligned < end_ts_utc + 14_400,
        (aligned - offset_min * 60) % 14_400 == 0,
{
    let period: i128 = 14_400;
    let offset: i128 = (offset_min as i128) * 60;
    let shifted: i128 = end_ts_utc as i128 - offset + period - 1;
    let steps: i128 = if shifted >= 0 {
        shifted / period
    } else {
        -((-shifted + period - 1) / period)
    };
    assert(steps == (end_ts_utc - offset_min * 60 + 14_400 - 1) / 14_400) by {
        let s = end_ts_utc - offset_min * 60 + 14_400 - 1;
        if s < 0 {
            let q = (-s + 14_400 - 1) / 14_400;
            assert(-q * 14_400 <= s < (-q + 1) * 14_400);
        }
    }
    let aligned = steps * period + offset;
    aligned as i64
}

/// The wall clock of New York at an instant.
#[derive(Debug, Clone, Copy, PartialEq, Eq, Structural)]
pub struct NyLocal {
    pub year: i32,
    pub month: u32,
    pub day: u32,
    pub hour: u32,
}

/// The wall clock of New York at the instant `ts` seconds after the epoch.
pub uninterp spec fn ny_local(ts: int) -> NyLocal;

/// The instant, in seconds after the epoch, at which the wall clock of New
/// York shows the given date and full hour; `None` where the clock never
/// shows it or shows it twice.
pub uninterp spec fn ny_wall_clock_utc(year: int, month: int, day: int, hour: int) -> Option<int>;

/// Whether an instant in seconds falls on a date that exists.
pub open spec fn utc_seconds_valid(ts: int) -> bool {
    utc_in_range(ts * 1000)
}

/// Instants more than some four hundred days inside the range of dates that
/// exist: their local dates exist too, in every time zone.
pub open spec fn ny_safe(ts: int) -> bool {
    utc_in_range((ts - 40_000_000) * 1000) && utc_in_range((ts + 40_000_000) * 1000)
}

/// The wall clock of New York at an instant.
///
/// Stands for `with_timezone(&chrono_tz::America::New_York)` on the UTC
/// time of the instant, followed by the local year, month, day and hour: a
/// date that exists, strictly inside the range of years, and an hour of the
/// day.
#[verifier::external_body]
pub(crate) fn ny_local_of(ts: i64) -> (r: NyLocal)
    requires
        ny_safe(ts as int),
    ensures
        r == ny_local(ts as int),
        date_valid(r.year as int, r.month as int, r.day as int),
        MIN_YEAR < r.year < MAX_YEAR,
        r.hour <= 23,
{
    let dt = chrono::Utc.timestamp_opt(ts, 0).single().unwrap().with_timezone(
        &chrono_tz::America::New_York,
    );
    NyLocal { year: dt.year(), month: dt.month(), day: dt.day(), hour: dt.hour() }
}

/// The instant at which the wall clock of New York shows a date and hour.
///
/// Stands for `chrono_tz::America::New_York.with_ymd_and_hms(..).single()`
/// followed by the UTC timestamp in seconds: `None` where the local time
/// does not exist or is ambiguous.
#[verifier::external_body]
pub(crate) fn ny_local_to_utc(year: i32, month: u32, day: u32, hour: u32) -> (r: Option<i64>)
    requires
        date_valid(year as int, month as int, day as int),
        year > MIN_YEAR || month > 1,
        year < MAX_YEAR || month < 12,
        hour <= 23,
    ensures
        match ny_wall_clock_utc(year as int, month as int, day as int, hour as int) {
            Some(ts) => r == Some(ts as i64) && ts == r->Some_0,
            None => r is None,
        },
{
    chrono_tz::America::New_York.with_ymd_and_hms(year, month, day, hour, 0, 0).single().map(
        |dt| dt.with_timezone(&chrono::Utc).timestamp(),
    )
}

} // verus!

verus! {

/// English name of a month, in lower case.
pub open spec fn month_name_spec(month: int) -> Seq<char> {
    if month == 1 {
        "january"@
    } else if month == 2 {
        "february"@
    } else if month == 3 {
        "march"@
    } else if month == 4 {
        "april"@
    } else if month == 5 {
        "may"@
    } else if month == 6 {
        "june"@
    } else if month == 7 {
        "july"@
    } else if month == 8 {
        "august"@
    } else if month == 9 {
        "september"@
    } else if month == 10 {
        "october"@
    } else if month == 11 {
        "november"@
    } else {
        "december"@
    }
}

pub fn month_name(month: u32) -> (s: &'static str)
    ensures
        s@ == month_name_spec(month as int),
{
    if month == 1 {
        "january"
    } else if month == 2 {
        "february"
    } else if month == 3 {
        "march"
    } else if month == 4 {
        "april"
    } else if month == 5 {
        "may"
    } else if month == 6 {
        "june"
    } else if month == 7 {
        "july"
    } else if month == 8 {
        "august"
    } else if month == 9 {
        "september"
    } else if month == 10 {
        "october"
    } else if month == 11 {
        "november"
    } else {
        "december"
    }
}

/// The hour of the twelve-hour clock.
pub open spec fn hour12(hour: int) -> int {
    if hour % 12 == 0 {
        12
    } else {
        hour % 12
    }
}

pub open spec fn am_pm(hour: int) -> Seq<char> {
    if hour < 12 {
        "am"@
    } else {
        "pm"@
    }
}

/// The day after a date.
pub open spec fn next_date(y: int, m: int, d: int) -> (int, int, int) {
    crate::calendar::next_day(y, m, d)
}

/// The day before a date.
pub open spec fn prev_date(y: int, m: int, d: int) -> (int, int, int) {
    if d > 1 {
        (y, m, d - 1)
    } else if m > 1 {
        (y, m - 1, days_in_month(y, m - 1))
    } else {
        (y - 1, 12, 31)
    }
}

pub fn date_after(year: i32, month: u32, day: u32) -> (r: (i32, u32, u32))
    requires
        date_valid(year as int, month as int, day as int),
        year < MAX_YEAR || month < 12 || day < 31,
    ensures
        (r.0 as int, r.1 as int, r.2 as int) == next_date(year as int, month as int, day as int),
        date_valid(r.0 as int, r.1 as int, r.2 as int),
{
    if day < month_length(year, month) {
        (year, month, day + 1)
    } else if month < 12 {
        (year, month + 1, 1)
    } else {
        (year + 1, 1, 1)
    }
}

pub fn date_before(year: i32, month: u32, day: u32) -> (r: (i32, u32, u32))
    requires
        date_valid(year as int, month as int, day as int),
        year > MIN_YEAR || month > 1 || day > 1,
    ensures
        (r.0 as int, r.1 as int, r.2 as int) == prev_date(year as int, month as int, day as int),
        date_valid(r.0 as int, r.1 as int, r.2 as int),
{
    if day > 1 {
        (year, month, day - 1)
    } else if month > 1 {
        (year, month - 1, month_length(year, month - 1))
    } else {
        (year - 1, 12, 31)
    }
}

/// Whether an instant in seconds falls on a date that exists.
pub fn seconds_valid(ts: i64) -> (r: bool)
    ensures
        r == utc_seconds_valid(ts as int),
{
    proof {
        lemma_day_number_bounds(MIN_YEAR as int, 1, 1);
        lemma_day_number_bounds(MAX_YEAR as int, 12, 31);
    }
    if ts < -9_000_000_000_000 || ts > 9_000_000_000_000 {
        return false;
    }
    utc_date_of_millis(ts * 1000).is_some()
}

/// Whether an instant is far enough inside the range of dates for its
/// local wall clock to be used.
pub fn seconds_ny_safe(ts: i64) -> (r: bool)
    ensures
        r == ny_safe(ts as int),
{
    proof {
        lemma_day_number_bounds(MIN_YEAR as int, 1, 1);
        lemma_day_number_bounds(MAX_YEAR as int, 12, 31);
    }
    if ts < -9_000_000_000_000 || ts > 9_000_000_000_000 {
        return false;
    }
    utc_date_of_millis((ts - 40_000_000) * 1000).is_some() && utc_date_of_millis(
        (ts + 40_000_000) * 1000,
    ).is_some()
}

/// The start of the four-hour block of New York's wall clock that holds an
/// instant, if the clock shows that start exactly once.
pub open spec fn align_4h_start_spec(ts: int) -> Option<int> {
    let l = ny_local(ts);
    ny_wall_clock_utc(l.year as int, l.month as int, l.day as int, (l.hour / 4) * 4)
}

/// The slug of a market, or why there is none. Five- and fifteen-minute
/// markets are named by coin and start time; four-hour markets by coin and
/// the start of the start time's four-hour block in New York; hourly markets
/// by coin, month, day and hour in New York; daily markets by coin and the
/// month and day, in New York, of the day after the start.
pub open spec fn slug_spec(coin: Coin, duration: Duration, ts: i64) -> Result<
    Seq<char>,
    SlugErrorView,
> {
    if !utc_seconds_valid(ts as int) {
        Err(SlugErrorView::InvalidTimestamp(ts))
    } else {
        match duration {
            Duration::M5 => Ok(coin_short_spec(coin) + "-updown-5m-"@ + decimal_text(ts as int)),
            Duration::M15 => Ok(
                coin_short_spec(coin) + "-updown-15m-"@ + decimal_text(ts as int),
            ),
            Duration::H4 => if !ny_safe(ts as int) {
                Err(SlugErrorView::InvalidTimestamp(ts))
            } else {
                match align_4h_start_spec(ts as int) {
                    Some(aligned) => Ok(
                        coin_short_spec(coin) + "-updown-4h-"@ + decimal_text(aligned),
                    ),
                    None => Err(SlugErrorView::InvalidTimestamp(ts)),
                }
            },
            Duration::H1 => if !ny_safe(ts as int) {
                Err(SlugErrorView::InvalidTimestamp(ts))
            } else {
                let l = ny_local(ts as int);
                Ok(
                    coin_full_spec(coin) + "-up-or-down-"@ + month_name_spec(l.month as int)
                        + "-"@ + decimal_digits(l.day as nat) + "-"@ + decimal_digits(
                        hour12(l.hour as int) as nat,
                    ) + am_pm(l.hour as int) + "-et"@,
                )
            },
            Duration::D1 => if !ny_safe(ts as int) {
                Err(SlugErrorView::InvalidTimestamp(ts))
            } else {
                let l = ny_local(ts as int);
                let next = next_date(l.year as int, l.month as int, l.day as int);
                match ny_wall_clock_utc(next.0, next.1, next.2, 12) {
                    Some(_) => Ok(
                        coin_full_spec(coin) + "-up-or-down-on-"@ + month_name_spec(next.1)
                            + "-"@ + decimal_digits(next.2 as nat),
                    ),
                    None => Err(SlugErrorView::InvalidTimestamp(ts)),
                }
            },
        }
    }
}

/// The start of the four-hour block of New York's wall clock that holds an
/// instant.
pub fn align_4h_start_ts_et(start_ts_utc: i64) -> (r: Option<i64>)
    requires
        ny_safe(start_ts_utc as int),
    ensures
        match align_4h_start_spec(start_ts_utc as int) {
            Some(aligned) => r == Some(aligned as i64) && aligned == r->Some_0,
            None => r is None,
        },
{
    let l = ny_local_of(start_ts_utc);
    let block_hour = (l.hour / 4) * 4;
    ny_local_to_utc(l.year, l.month, l.day, block_hour)
}

/// Builds the slug of a market.
pub fn build_slug(coin: Coin, duration: Duration, end_ts_utc: i64, cfg: SlugConfig) -> (r: Result<
    String,
    SlugError,
>)
    ensures
        match slug_spec(coin, duration, end_ts_utc) {
            Ok(slug) => r is Ok && r->Ok_0@ == slug,
            Err(e) => r is Err && r->Err_0@ == e,
        },
{
    if !seconds_valid(end_ts_utc) {
        return Err(SlugError::InvalidTimestamp(end_ts_utc));
    }
    let mut out = String::new();
    match duration {
        Duration::M5 => {
            out.append(coin_short(coin));
            out.append("-updown-5m-");
            push_i64(&mut out, end_ts_utc);
            assert(out@ =~= coin_short_spec(coin) + "-updown-5m-"@ + decimal_text(
                end_ts_utc as int,
            ));
            Ok(out)
        },
        Duration::M15 => {
            out.append(coin_short(coin));
            out.append("-updown-15m-");
            push_i64(&mut out, end_ts_utc);
            assert(out@ =~= coin_short_spec(coin) + "-updown-15m-"@ + decimal_text(
                end_ts_utc as int,
            ));
            Ok(out)
        },
        Duration::H4 => {
            if !seconds_ny_safe(end_ts_utc) {
                return Err(SlugError::InvalidTimestamp(end_ts_utc));
            }
            match align_4h_start_ts_et(end_ts_utc) {
                Some(aligned) => {
                    out.append(coin_short(coin));
                    out.append("-updown-4h-");
                    push_i64(&mut out, aligned);
                    assert(out@ =~= coin_short_spec(coin) + "-updown-4h-"@ + decimal_text(
                        aligned as int,
                    ));
                    Ok(out)
                },
                None => Err(SlugError::InvalidTimestamp(end_ts_utc)),
            }
        },
        Duration::H1 => {
            if !seconds_ny_safe(end_ts_utc) {
                return Err(SlugError::InvalidTimestamp(end_ts_utc));
            }
            let l = ny_local_of(end_ts_utc);
            let hour = if l.hour % 12 == 0 {
                12
            } else {
                l.hour % 12
            };
            out.append(coin_full(coin));
            out.append("-up-or-down-");
            out.append(month_name(l.month));
            out.append("-");
            push_u64(&mut out, l.day as u64);
            out.append("-");
            push_u64(&mut out, hour as u64);
            out.append(
                if l.hour < 12 {
                    "am"
                } else {
                    "pm"
                },
            );
            out.append("-et");
            assert(out@ =~= coin_full_spec(coin) + "-up-or-down-"@ + month_name_spec(
                l.month as int,
            ) + "-"@ + decimal_digits(l.day as nat) + "-"@ + decimal_digits(
                hour12(l.hour as int) as nat,
            ) + am_pm(l.hour as int) + "-et"@);
            Ok(out)
        },
        Duration::D1 => {
            if !seconds_ny_safe(end_ts_utc) {
                return Err(SlugError::InvalidTimestamp(end_ts_utc));
            }
            let l = ny_local_of(end_ts_utc);
            let next = date_after(l.year, l.month, l.day);
            match ny_local_to_utc(next.0, next.1, next.2, 12) {
                Some(_) => {
                    out.append(coin_full(coin));
                    out.append("-up-or-down-on-");
                    out.append(month_name(next.1));
                    out.append("-");
                    push_u64(&mut out, next.2 as u64);
                    assert(out@ =~= coin_full_spec(coin) + "-up-or-down-on-"@ + month_name_spec(
                        next.1 as int,
                    ) + "-"@ + decimal_digits(next.2 as nat));
                    Ok(out)
                },
                None => Err(SlugError::InvalidTimestamp(end_ts_utc)),
            }
        },
    }
}

} // verus!
