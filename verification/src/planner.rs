//! The archive planner: the ordered archives that cover a load request,
//! whole months where the request contains them, single days elsewhere.

use vstd::prelude::*;
use vstd::string::*;
use crate::calendar::{
    date_valid, day_start_ms, days_in_month, falls_on, lemma_day_number_bounds,
    lemma_utc_date_is, month_length, utc_date, utc_date_of_millis, utc_day_start_ms,
    utc_in_range, CivilDate, DAY_MS, MAX_YEAR, MIN_YEAR,
};
use crate::klines::{
    kind_segment, symbol_text, ArchiveKind, ArchiveRef, ArchiveRefView, BinanceSymbol,
    KlineLoadError, KlineLoadErrorView, KlineLoadRequest,
};
use crate::text::{push_i64_padded, push_u64_padded, zero_padded, zero_padded_text};

verus! {

/// Root of the remote archive tree.
pub open spec fn base_url() -> Seq<char> {
    "https://data.binance.vision/data/spot"@
}

/// The period part of a monthly archive's file name: `YYYY-MM`.
pub open spec fn month_label(y: int, m: int) -> Seq<char> {
    zero_padded_text(y, 4) + "-"@ + zero_padded(m as nat, 2)
}

/// The period part of a daily archive's file name: `YYYY-MM-DD`.
pub open spec fn day_label(y: int, m: int, d: int) -> Seq<char> {
    month_label(y, m) + "-"@ + zero_padded(d as nat, 2)
}

/// File name of an archive: `{SYMBOL}-1s-{period}.zip`.
pub open spec fn archive_filename(symbol: BinanceSymbol, label: Seq<char>) -> Seq<char> {
    symbol_text(symbol) + "-1s-"@ + label + ".zip"@
}

/// Remote address: `{base}/{kind}/klines/{SYMBOL}/1s/{file}`.
pub open spec fn archive_url(kind: ArchiveKind, symbol: BinanceSymbol, label: Seq<char>) -> Seq<
    char,
> {
    base_url() + "/"@ + kind_segment(kind) + "/klines/"@ + symbol_text(symbol) + "/1s/"@
        + archive_filename(symbol, label)
}

/// Place below the data root: `{SYMBOL}/1s/{kind}/{file}`.
pub open spec fn archive_relative_path(
    kind: ArchiveKind,
    symbol: BinanceSymbol,
    label: Seq<char>,
) -> Seq<char> {
    symbol_text(symbol) + "/1s/"@ + kind_segment(kind) + "/"@ + archive_filename(symbol, label)
}

/// The archive of a whole month.
pub open spec fn month_archive(symbol: BinanceSymbol, y: int, m: int) -> ArchiveRefView {
    ArchiveRefView {
        kind: ArchiveKind::Monthly,
        symbol,
        period_start_ts_ms_utc: day_start_ms(y, m, 1) as i64,
        period_end_ts_ms_utc_exclusive: (day_start_ms(y, m, 1) + days_in_month(y, m)
            * 86_400_000) as i64,
        url: archive_url(ArchiveKind::Monthly, symbol, month_label(y, m)),
        relative_path: archive_relative_path(ArchiveKind::Monthly, symbol, month_label(y, m)),
    }
}

/// The archive of a single day.
pub open spec fn day_archive(symbol: BinanceSymbol, y: int, m: int, d: int) -> ArchiveRefView {
    ArchiveRefView {
        kind: ArchiveKind::Daily,
        symbol,
        period_start_ts_ms_utc: day_start_ms(y, m, d) as i64,
        period_end_ts_ms_utc_exclusive: (day_start_ms(y, m, d) + 86_400_000) as i64,
        url: archive_url(ArchiveKind::Daily, symbol, day_label(y, m, d)),
        relative_path: archive_relative_path(ArchiveKind::Daily, symbol, day_label(y, m, d)),
    }
}

/// Whether the request's range and the day share an instant.
pub open spec fn day_intersects(req: KlineLoadRequest, y: int, m: int, d: int) -> bool {
    req.start_ts_ms_utc < day_start_ms(y, m, d) + 86_400_000 && day_start_ms(y, m, d)
        < req.end_ts_ms_utc_exclusive
}

/// Whether the request's range contains the whole month.
pub open spec fn month_contained(req: KlineLoadRequest, y: int, m: int) -> bool {
    req.start_ts_ms_utc <= day_start_ms(y, m, 1) && req.end_ts_ms_utc_exclusive >= day_start_ms(
        y,
        m,
        1,
    ) + days_in_month(y, m) * 86_400_000
}

/// Daily archives for those of the first `n` days of a month that the
/// request touches, in day order.
pub open spec fn days_plan(req: KlineLoadRequest, y: int, m: int, n: nat) -> Seq<ArchiveRefView>
    decreases n,
{
    if n == 0 {
        Seq::empty()
    } else {
        let rest = days_plan(req, y, m, (n - 1) as nat);
        if day_intersects(req, y, m, n as int) {
            rest.push(day_archive(req.symbol, y, m, n as int))
        } else {
            rest
        }
    }
}

/// The archives of one month: the monthly archive if the request contains
/// the month, else the daily archives of the days it touches.
pub open spec fn month_plan(req: KlineLoadRequest, y: int, m: int) -> Seq<ArchiveRefView> {
    if month_contained(req, y, m) {
        seq![month_archive(req.symbol, y, m)]
    } else {
        days_plan(req, y, m, days_in_month(y, m) as nat)
    }
}

/// Months counted from year zero, so that consecutive months are
/// consecutive numbers.
pub open spec fn month_key(y: int, m: int) -> int {
    y * 12 + (m - 1)
}

/// The archives of `count` consecutive months starting at month `first`.
pub open spec fn months_plan(req: KlineLoadRequest, first: int, count: nat) -> Seq<ArchiveRefView>
    decreases count,
{
    if count == 0 {
        Seq::empty()
    } else {
        let key = first + count - 1;
        months_plan(req, first, (count - 1) as nat) + month_plan(req, key / 12, key % 12 + 1)
    }
}

/// The plan of a request whose ends fall on dates: the archives of every
/// month from the month of the first millisecond to the month of the
/// millisecond before the end.
pub open spec fn plan_spec(req: KlineLoadRequest) -> Seq<ArchiveRefView> {
    if !utc_in_range(req.start_ts_ms_utc as int) || !utc_in_range(
        req.end_ts_ms_utc_exclusive as int,
    ) || !utc_in_range(req.end_ts_ms_utc_exclusive - 1) {
        Seq::empty()
    } else {
        let first = utc_date(req.start_ts_ms_utc as int);
        let last = utc_date(req.end_ts_ms_utc_exclusive - 1);
        let first_key = month_key(first.year as int, first.month as int);
        let last_key = month_key(last.year as int, last.month as int);
        if last_key < first_key {
            Seq::empty()
        } else {
            months_plan(req, first_key, (last_key - first_key + 1) as nat)
        }
    }
}

/// What planning yields: a request with an end that falls on no date is
/// refused, naming its start; every other request has its plan.
pub open spec fn plan_outcome(req: KlineLoadRequest) -> Result<
    Seq<ArchiveRefView>,
    KlineLoadErrorView,
> {
    if !utc_in_range(req.start_ts_ms_utc as int) || !utc_in_range(
        req.end_ts_ms_utc_exclusive as int,
    ) {
        Err(KlineLoadErrorView::InvalidTimestamp(req.start_ts_ms_utc))
    } else {
        Ok(plan_spec(req))
    }
}

pub open spec fn archive_views(archives: Seq<ArchiveRef>) -> Seq<ArchiveRefView> {
    Seq::new(archives.len(), |i: int| archives[i]@)
}

fn push_month_label(out: &mut String, year: i32, month: u32)
    ensures
        final(out)@ == old(out)@ + month_label(year as int, month as int),
{
    push_i64_padded(out, year as i64, 4);
    out.append("-");
    push_u64_padded(out, month as u64, 2);
    assert(final(out)@ =~= old(out)@ + month_label(year as int, month as int));
}

fn build_archive(
    kind: ArchiveKind,
    symbol: BinanceSymbol,
    label: &str,
    start_ms: i64,
    end_ms: i64,
) -> (a: ArchiveRef)
    ensures
        a@ == (ArchiveRefView {
            kind,
            symbol,
            period_start_ts_ms_utc: start_ms,
            period_end_ts_ms_utc_exclusive: end_ms,
            url: archive_url(kind, symbol, label@),
            relative_path: archive_relative_path(kind, symbol, label@),
        }),
{
    let symbol_str = symbol.as_str();
    let mut filename = String::new();
    filename.append(symbol_str);
    filename.append("-1s-");
    filename.append(label);
    filename.append(".zip");
    assert(filename@ =~= archive_filename(symbol, label@));
    let mut url = String::new();
    url.append("https://data.binance.vision/data/spot");
    url.append("/");
    url.append(kind.as_path_segment());
    url.append("/klines/");
    url.append(symbol_str);
    url.append("/1s/");
    url.append(filename.as_str());
    assert(url@ =~= archive_url(kind, symbol, label@));
    let mut relative_path = String::new();
    relative_path.append(symbol_str);
    relative_path.append("/1s/");
    relative_path.append(kind.as_path_segment());
    relative_path.append("/");
    relative_path.append(filename.as_str());
    assert(relative_path@ =~= archive_relative_path(kind, symbol, label@));
    ArchiveRef {
        kind,
        symbol,
        period_start_ts_ms_utc: start_ms,
        period_end_ts_ms_utc_exclusive: end_ms,
        url,
        relative_path,
    }
}

/// The descriptor of the monthly archive of a month.
pub fn monthly_archive(symbol: BinanceSymbol, year: i32, month: u32, start_ms: i64, end_ms: i64) -> (a:
    ArchiveRef)
    requires
        start_ms == day_start_ms(year as int, month as int, 1),
        end_ms == start_ms + days_in_month(year as int, month as int) * 86_400_000,
    ensures
        a@ == month_archive(symbol, year as int, month as int),
{
    let mut label = String::new();
    push_month_label(&mut label, year, month);
    assert(label@ =~= month_label(year as int, month as int));
    build_archive(ArchiveKind::Monthly, symbol, label.as_str(), start_ms, end_ms)
}

/// The descriptor of the daily archive of a day.
pub fn daily_archive(
    symbol: BinanceSymbol,
    year: i32,
    month: u32,
    day: u32,
    start_ms: i64,
    end_ms: i64,
) -> (a: ArchiveRef)
    requires
        start_ms == day_start_ms(year as int, month as int, day as int),
        end_ms == start_ms + 86_400_000,
    ensures
        a@ == day_archive(symbol, year as int, month as int, day as int),
{
    let mut label = String::new();
    push_month_label(&mut label, year, month);
    label.append("-");
    push_u64_padded(&mut label, day as u64, 2);
    assert(label@ =~= day_label(year as int, month as int, day as int));
    build_archive(ArchiveKind::Daily, symbol, label.as_str(), start_ms, end_ms)
}

fn push_archive(out: &mut Vec<ArchiveRef>, a: ArchiveRef)
    ensures
        archive_views(final(out)@) == archive_views(old(out)@).push(a@),
{
    out.push(a);
    assert(archive_views(out@) =~= archive_views(old(out)@).push(a@));
}

/// Appends the archives of one month to the plan.
fn plan_month(out: &mut Vec<ArchiveRef>, req: &KlineLoadRequest, year: i32, month: u32)
    requires
        date_valid(year as int, month as int, 1),
    ensures
        archive_views(final(out)@) == archive_views(old(out)@) + month_plan(
            *req,
            year as int,
            month as int,
        ),
{
    let month_start = utc_day_start_ms(year, month, 1);
    let days = month_length(year, month);
    proof {
        lemma_day_number_bounds(year as int, month as int, 1);
    }
    let month_end = month_start + (days as i64) * DAY_MS;
    if req.start_ts_ms_utc <= month_start && req.end_ts_ms_utc_exclusive >= month_end {
        let a = monthly_archive(req.symbol, year, month, month_start, month_end);
        push_archive(out, a);
        assert(archive_views(out@) =~= archive_views(old(out)@) + month_plan(
            *req,
            year as int,
            month as int,
        ));
    } else {
        let ghost start = archive_views(out@);
        let mut day: u32 = 1;
        assert(archive_views(out@) =~= start + days_plan(*req, year as int, month as int, 0));
        while day <= days
            invariant
                1 <= day <= days + 1,
                days == days_in_month(year as int, month as int),
                date_valid(year as int, month as int, 1),
                month_start == day_start_ms(year as int, month as int, 1),
                -8_400_000_000_000_000 <= month_start <= 8_400_000_000_000_000,
                archive_views(out@) == start + days_plan(
                    *req,
                    year as int,
                    month as int,
                    (day - 1) as nat,
                ),
            decreases days + 1 - day,
        {
            let day_start = month_start + ((day - 1) as i64) * DAY_MS;
            let day_end = day_start + DAY_MS;
            assert(day_start == day_start_ms(year as int, month as int, day as int));
            let intersects = req.start_ts_ms_utc < day_end && day_start
                < req.end_ts_ms_utc_exclusive;
            if intersects {
                let a = daily_archive(req.symbol, year, month, day, day_start, day_end);
                push_archive(out, a);
            }
            assert(archive_views(out@) =~= start + days_plan(
                *req,
                year as int,
                month as int,
                day as nat,
            ));
            day = day + 1;
        }
    }
}

/// Plans the archives that cover a request, earliest first: month by month,
/// and within a month that the request covers only in part, day by day. A
/// request with an end that falls on no date is refused.
pub fn plan_required_archives(req: &KlineLoadRequest) -> (r: Result<Vec<ArchiveRef>, KlineLoadError>)
    ensures
        match plan_outcome(*req) {
            Ok(plan) => r is Ok && archive_views(r->Ok_0@) == plan,
            Err(e) => r is Err && r->Err_0@ == e,
        },
{
    let mut out: Vec<ArchiveRef> = Vec::new();
    assert(archive_views(out@) =~= Seq::<ArchiveRefView>::empty());
    let first = match utc_date_of_millis(req.start_ts_ms_utc) {
        Some(d) => d,
        None => {
            return Err(KlineLoadError::InvalidTimestamp(req.start_ts_ms_utc));
        },
    };
    if utc_date_of_millis(req.end_ts_ms_utc_exclusive).is_none() {
        return Err(KlineLoadError::InvalidTimestamp(req.start_ts_ms_utc));
    }
    proof {
        lemma_day_number_bounds(MIN_YEAR as int, 1, 1);
    }
    let last = match utc_date_of_millis(req.end_ts_ms_utc_exclusive - 1) {
        Some(d) => d,
        None => {
            return Ok(out);
        },
    };
    proof {
        lemma_utc_date_is(req.start_ts_ms_utc as int, first);
        lemma_utc_date_is(req.end_ts_ms_utc_exclusive - 1, last);
    }
    let ghost first_key = month_key(first.year as int, first.month as int);
    let ghost last_key = month_key(last.year as int, last.month as int);
    let mut year = first.year;
    let mut month = first.month;
    while year < last.year || (year == last.year && month <= last.month)
        invariant
            1 <= month <= 12,
            1 <= last.month <= 12,
            MIN_YEAR <= year,
            MIN_YEAR <= last.year <= MAX_YEAR,
            first_key == month_key(first.year as int, first.month as int),
            last_key == month_key(last.year as int, last.month as int),
            first_key <= month_key(year as int, month as int),
            month_key(year as int, month as int) <= last_key + 1 || last_key < first_key,
            last_key < first_key ==> month_key(year as int, month as int) == first_key,
            year <= MAX_YEAR + 1,
            utc_in_range(req.start_ts_ms_utc as int),
            utc_in_range(req.end_ts_ms_utc_exclusive as int),
            utc_in_range(req.end_ts_ms_utc_exclusive - 1),
            first == utc_date(req.start_ts_ms_utc as int),
            last == utc_date(req.end_ts_ms_utc_exclusive - 1),
            archive_views(out@) == months_plan(
                *req,
                first_key,
                (month_key(year as int, month as int) - first_key) as nat,
            ),
        decreases last_key + 1 - month_key(year as int, month as int),
    {
        let ghost key = month_key(year as int, month as int);
        assert(key / 12 == year as int && key % 12 + 1 == month as int);
        plan_month(&mut out, req, year, month);
        if month == 12 {
            year = year + 1;
            month = 1;
        } else {
            month = month + 1;
        }
        assert(month_key(year as int, month as int) == key + 1);
    }
    Ok(out)
}

} // verus!

verus! {

pub open spec fn month_start_ms(y: int, m: int) -> int {
    day_start_ms(y, m, 1)
}

pub open spec fn month_end_ms(y: int, m: int) -> int {
    day_start_ms(y, m, 1) + days_in_month(y, m) * 86_400_000
}

proof fn lemma_month_dates(y: int, m: int, ts: int, d: int)
    requires
        date_valid(y, m, 1),
        1 <= d <= days_in_month(y, m),
        day_start_ms(y, m, d) <= ts < day_start_ms(y, m, d) + 86_400_000,
    ensures
        utc_in_range(ts),
        utc_date(ts) == (CivilDate { year: y as i32, month: m as u32, day: d as u32 }),
{
    let date = CivilDate { year: y as i32, month: m as u32, day: d as u32 };
    assert(falls_on(ts, date));
    lemma_utc_date_is(ts, date);
    crate::calendar::lemma_falls_on_in_range(ts, date);
}

/// A request that spans exactly one calendar month is covered by exactly
/// one archive, the monthly archive of that month.
pub proof fn lemma_whole_month_is_one_monthly_archive(req: KlineLoadRequest, y: int, m: int)
    requires
        date_valid(y, m, 1),
        req.start_ts_ms_utc == month_start_ms(y, m),
        req.end_ts_ms_utc_exclusive == month_end_ms(y, m),
        utc_in_range(req.end_ts_ms_utc_exclusive as int),
    ensures
        plan_spec(req) == seq![month_archive(req.symbol, y, m)],
{
    let last_day = days_in_month(y, m);
    lemma_month_dates(y, m, req.start_ts_ms_utc as int, 1);
    lemma_month_dates(y, m, req.end_ts_ms_utc_exclusive - 1, last_day);
    let key = month_key(y, m);
    assert(key / 12 == y && key % 12 + 1 == m);
    reveal_with_fuel(months_plan, 2);
    assert(months_plan(req, key, 1) =~= month_plan(req, y, m));
}

/// A request that lies within one calendar month without spanning it is
/// covered by daily archives of that month alone.
pub proof fn lemma_part_of_month_is_daily_archives(req: KlineLoadRequest, y: int, m: int)
    requires
        date_valid(y, m, 1),
        month_start_ms(y, m) <= req.start_ts_ms_utc < req.end_ts_ms_utc_exclusive <= month_end_ms(
            y,
            m,
        ),
        req.start_ts_ms_utc != month_start_ms(y, m) || req.end_ts_ms_utc_exclusive != month_end_ms(
            y,
            m,
        ),
        utc_in_range(req.end_ts_ms_utc_exclusive as int),
    ensures
        plan_spec(req) == days_plan(req, y, m, days_in_month(y, m) as nat),
{
    let start = req.start_ts_ms_utc as int;
    let last = req.end_ts_ms_utc_exclusive - 1;
    let month_start = month_start_ms(y, m);
    let d1 = (start - month_start) / 86_400_000 + 1;
    let d2 = (last - month_start) / 86_400_000 + 1;
    lemma_month_dates(y, m, start, d1);
    lemma_month_dates(y, m, last, d2);
    let key = month_key(y, m);
    assert(key / 12 == y && key % 12 + 1 == m);
    reveal_with_fuel(months_plan, 2);
    assert(months_plan(req, key, 1) =~= month_plan(req, y, m));
}

/// The daily archives of a month are those of the days that the request
/// touches, one per day, in ascending order of day.
pub proof fn lemma_daily_archives_are_the_touched_days(
    req: KlineLoadRequest,
    y: int,
    m: int,
    n: nat,
)
    requires
        date_valid(y, m, 1),
        n <= days_in_month(y, m),
    ensures
        forall|d: int|
            1 <= d <= n ==> (day_intersects(req, y, m, d) <==> days_plan(req, y, m, n).contains(
                #[trigger] day_archive(req.symbol, y, m, d),
            )),
        forall|k: int|
            0 <= k < days_plan(req, y, m, n).len() ==> exists|d: int|
                1 <= d <= n && day_intersects(req, y, m, d) && #[trigger] days_plan(
                    req,
                    y,
                    m,
                    n,
                )[k] == day_archive(req.symbol, y, m, d),
        forall|i: int, j: int|
            0 <= i < j < days_plan(req, y, m, n).len() ==> days_plan(
                req,
                y,
                m,
                n,
            )[i].period_start_ts_ms_utc < days_plan(req, y, m, n)[j].period_start_ts_ms_utc,
        forall|k: int|
            0 <= k < days_plan(req, y, m, n).len() ==> (#[trigger] days_plan(
                req,
                y,
                m,
                n,
            )[k]).period_start_ts_ms_utc < day_start_ms(y, m, n as int) + 86_400_000,
    decreases n,
{
    if n > 0 {
        lemma_daily_archives_are_the_touched_days(req, y, m, (n - 1) as nat);
        let before = days_plan(req, y, m, (n - 1) as nat);
        let plan = days_plan(req, y, m, n);
        let added = day_archive(req.symbol, y, m, n as int);
        lemma_day_number_bounds(y, m, n as int);
        assert forall|d: int| 1 <= d <= n implies day_start_in_bounds(y, m, d) by {
            lemma_day_number_bounds(y, m, d);
        }
        assert forall|d: int| 1 <= d < n implies day_archive(req.symbol, y, m, d) != added by {
            assert(day_start_in_bounds(y, m, d));
        }
        assert forall|d: int|
            1 <= d <= n implies (day_intersects(req, y, m, d) <==> plan.contains(
            #[trigger] day_archive(req.symbol, y, m, d),
        )) by {
            let a = day_archive(req.symbol, y, m, d);
            if day_intersects(req, y, m, n as int) {
                assert(plan == before.push(added));
                if d == n {
                    assert(plan[plan.len() - 1] == a);
                } else {
                    if before.contains(a) {
                        let k = choose|k: int| 0 <= k < before.len() && before[k] == a;
                        assert(plan[k] == a);
                    }
                    if plan.contains(a) {
                        let k = choose|k: int| 0 <= k < plan.len() && plan[k] == a;
                        assert(k < before.len());
                        assert(before[k] == a);
                    }
                }
            } else {
                assert(plan == before);
                if d == n && before.contains(a) {
                    let k = choose|k: int| 0 <= k < before.len() && before[k] == a;
                    let d0 = choose|d0: int|
                        1 <= d0 <= n - 1 && day_intersects(req, y, m, d0) && before[k]
                            == day_archive(req.symbol, y, m, d0);
                    assert(day_start_in_bounds(y, m, d0));
                }
            }
        }
        assert forall|k: int| 0 <= k < plan.len() implies exists|d: int|
            1 <= d <= n && day_intersects(req, y, m, d) && #[trigger] plan[k] == day_archive(
                req.symbol,
                y,
                m,
                d,
            ) by {
            if k < before.len() {
                let d0 = choose|d0: int|
                    1 <= d0 <= n - 1 && day_intersects(req, y, m, d0) && before[k]
                        == day_archive(req.symbol, y, m, d0);
                assert(plan[k] == day_archive(req.symbol, y, m, d0));
            } else {
                assert(plan[k] == added);
            }
        }
    }
}

/// Whether the start of a day is far inside the machine integers.
pub open spec fn day_start_in_bounds(y: int, m: int, d: int) -> bool {
    -8_400_000_000_000_000 <= day_start_ms(y, m, d) <= 8_400_000_000_000_000
}

} // verus!

verus! {

/// Whether an archive's period holds an instant.
pub open spec fn covers(a: ArchiveRefView, t: int) -> bool {
    a.period_start_ts_ms_utc <= t < a.period_end_ts_ms_utc_exclusive
}

/// Whether some archive of a plan holds an instant.
pub open spec fn covered(plan: Seq<ArchiveRefView>, t: int) -> bool {
    exists|k: int| 0 <= k < plan.len() && covers(#[trigger] plan[k], t)
}

/// A plan that does its part between two instants: every archive lies
/// between them and shares an instant with the request, the archives follow
/// one another without overlap, and every instant of the request between
/// the two is held by an archive.
pub open spec fn plan_ok(
    req: KlineLoadRequest,
    plan: Seq<ArchiveRefView>,
    lo: int,
    hi: int,
) -> bool {
    &&& forall|k: int|
        0 <= k < plan.len() ==> {
            let a = #[trigger] plan[k];
            &&& lo <= a.period_start_ts_ms_utc < a.period_end_ts_ms_utc_exclusive <= hi
            &&& a.period_start_ts_ms_utc < req.end_ts_ms_utc_exclusive
            &&& req.start_ts_ms_utc < a.period_end_ts_ms_utc_exclusive
            &&& a.symbol == req.symbol
        }
    &&& forall|i: int, j: int|
        0 <= i < j < plan.len() ==> (#[trigger] plan[i]).period_end_ts_ms_utc_exclusive <= (
        #[trigger] plan[j]).period_start_ts_ms_utc
    &&& forall|t: int|
        lo <= t < hi && req.start_ts_ms_utc <= t < req.end_ts_ms_utc_exclusive ==> #[trigger] covered(
            plan,
            t,
        )
}

proof fn lemma_plan_ok_concat(
    req: KlineLoadRequest,
    a: Seq<ArchiveRefView>,
    b: Seq<ArchiveRefView>,
    lo: int,
    mid: int,
    hi: int,
)
    requires
        plan_ok(req, a, lo, mid),
        plan_ok(req, b, mid, hi),
        lo <= mid <= hi,
    ensures
        plan_ok(req, a + b, lo, hi),
{
    let all = a + b;
    assert forall|k: int| 0 <= k < all.len() implies {
        let x = #[trigger] all[k];
        &&& lo <= x.period_start_ts_ms_utc < x.period_end_ts_ms_utc_exclusive <= hi
        &&& x.period_start_ts_ms_utc < req.end_ts_ms_utc_exclusive
        &&& req.start_ts_ms_utc < x.period_end_ts_ms_utc_exclusive
        &&& x.symbol == req.symbol
    } by {
        if k < a.len() {
            assert(all[k] == a[k]);
        } else {
            assert(all[k] == b[k - a.len()]);
        }
    }
    assert forall|i: int, j: int| 0 <= i < j < all.len() implies (
    #[trigger] all[i]).period_end_ts_ms_utc_exclusive <= (
    #[trigger] all[j]).period_start_ts_ms_utc by {
        if j < a.len() {
            assert(all[i] == a[i] && all[j] == a[j]);
        } else if i < a.len() {
            assert(all[i] == a[i] && all[j] == b[j - a.len()]);
        } else {
            assert(all[i] == b[i - a.len()] && all[j] == b[j - a.len()]);
        }
    }
    assert forall|t: int|
        lo <= t < hi && req.start_ts_ms_utc <= t < req.end_ts_ms_utc_exclusive implies #[trigger] covered(
        all,
        t,
    ) by {
        if t < mid {
            assert(covered(a, t));
            let k = choose|k: int| 0 <= k < a.len() && covers(#[trigger] a[k], t);
            assert(all[k] == a[k]);
        } else {
            assert(covered(b, t));
            let k = choose|k: int| 0 <= k < b.len() && covers(#[trigger] b[k], t);
            assert(all[k + a.len()] == b[k]);
        }
    }
}

/// The daily archives of the first `n` days of a month do their part from
/// the start of the month to the end of day `n`.
proof fn lemma_days_plan_ok(req: KlineLoadRequest, y: int, m: int, n: nat)
    requires
        date_valid(y, m, 1),
        n <= days_in_month(y, m),
    ensures
        plan_ok(
            req,
            days_plan(req, y, m, n),
            month_start_ms(y, m),
            month_start_ms(y, m) + n * 86_400_000,
        ),
    decreases n,
{
    let lo = month_start_ms(y, m);
    if n == 0 {
        assert(days_plan(req, y, m, 0).len() == 0);
    } else {
        lemma_days_plan_ok(req, y, m, (n - 1) as nat);
        lemma_day_number_bounds(y, m, n as int);
        let before = days_plan(req, y, m, (n - 1) as nat);
        let mid = lo + (n - 1) * 86_400_000;
        let hi = lo + n * 86_400_000;
        assert(day_start_ms(y, m, n as int) == mid);
        if day_intersects(req, y, m, n as int) {
            let added = seq![day_archive(req.symbol, y, m, n as int)];
            assert(plan_ok(req, added, mid, hi)) by {
                assert forall|t: int|
                    mid <= t < hi && req.start_ts_ms_utc <= t
                        < req.end_ts_ms_utc_exclusive implies #[trigger] covered(added, t) by {
                    assert(covers(added[0], t));
                }
            }
            lemma_plan_ok_concat(req, before, added, lo, mid, hi);
            assert(before + added =~= days_plan(req, y, m, n));
        } else {
            let none = Seq::<ArchiveRefView>::empty();
            assert(plan_ok(req, none, mid, hi));
            lemma_plan_ok_concat(req, before, none, lo, mid, hi);
            assert(before + none =~= days_plan(req, y, m, n));
        }
    }
}

/// The archives of a month do their part from the start of the month to
/// its end.
proof fn lemma_month_plan_ok(req: KlineLoadRequest, y: int, m: int)
    requires
        date_valid(y, m, 1),
        req.start_ts_ms_utc < req.end_ts_ms_utc_exclusive,
    ensures
        plan_ok(req, month_plan(req, y, m), month_start_ms(y, m), month_end_ms(y, m)),
{
    let days = days_in_month(y, m);
    lemma_day_number_bounds(y, m, 1);
    if month_contained(req, y, m) {
        let plan = month_plan(req, y, m);
        assert forall|t: int|
            month_start_ms(y, m) <= t < month_end_ms(y, m) && req.start_ts_ms_utc <= t
                < req.end_ts_ms_utc_exclusive implies #[trigger] covered(plan, t) by {
            assert(covers(plan[0], t));
        }
    } else {
        lemma_days_plan_ok(req, y, m, days as nat);
    }
}

/// The start of the month numbered `key`.
pub open spec fn month_start_of(key: int) -> int {
    month_start_ms(key / 12, key % 12 + 1)
}

proof fn lemma_next_month_start(key: int)
    ensures
        month_start_of(key + 1) == month_end_ms(key / 12, key % 12 + 1),
{
    crate::calendar::lemma_month_rollover(key / 12, key % 12 + 1);
}

/// The archives of consecutive months do their part from the start of the
/// first month to the end of the last.
proof fn lemma_months_plan_ok(req: KlineLoadRequest, first: int, count: nat)
    requires
        req.start_ts_ms_utc < req.end_ts_ms_utc_exclusive,
        forall|key: int| first <= key < first + count ==> MIN_YEAR <= #[trigger] (key / 12) <= MAX_YEAR,
    ensures
        plan_ok(req, months_plan(req, first, count), month_start_of(first), month_start_of(first + count)),
        month_start_of(first) <= month_start_of(first + count),
    decreases count,
{
    if count == 0 {
        assert(months_plan(req, first, 0).len() == 0);
    } else {
        let key = first + count - 1;
        assert(MIN_YEAR <= key / 12 <= MAX_YEAR);
        lemma_months_plan_ok(req, first, (count - 1) as nat);
        lemma_month_plan_ok(req, key / 12, key % 12 + 1);
        lemma_next_month_start(key);
        lemma_plan_ok_concat(
            req,
            months_plan(req, first, (count - 1) as nat),
            month_plan(req, key / 12, key % 12 + 1),
            month_start_of(first),
            month_start_of(key),
            month_start_of(key + 1),
        );
    }
}

/// A valid request has a plan.
pub proof fn lemma_valid_request_has_a_plan(req: KlineLoadRequest)
    requires
        crate::klines::request_valid(req),
    ensures
        plan_outcome(req) == Ok::<Seq<ArchiveRefView>, KlineLoadErrorView>(plan_spec(req)),
        plan_spec(req).len() > 0,
{
    lemma_plan_covers_request_in_order(req);
    assert(covered(plan_spec(req), req.start_ts_ms_utc as int));
}

/// On a request that is ordered and on the step grid, the planner refuses
/// exactly what validation refuses, with the same complaint.
pub proof fn lemma_planner_refuses_as_validation_does(req: KlineLoadRequest)
    requires
        req.start_ts_ms_utc < req.end_ts_ms_utc_exclusive,
        req.start_ts_ms_utc % 1000 == 0,
        req.end_ts_ms_utc_exclusive % 1000 == 0,
    ensures
        plan_outcome(req) is Err <==> crate::klines::request_error(req) is Some,
        plan_outcome(req) is Err ==> crate::klines::request_error(req) == Some(
            plan_outcome(req)->Err_0,
        ),
{
}

/// The plan of a valid request is what is needed to cover it, in order:
/// every instant of the request lies in the period of an archive of the
/// plan; every archive of the plan is for the request's symbol and shares
/// an instant with the request; and the archives follow one another, each
/// period ending before the next begins.
pub proof fn lemma_plan_covers_request_in_order(req: KlineLoadRequest)
    requires
        crate::klines::request_valid(req),
    ensures
        forall|t: int|
            req.start_ts_ms_utc <= t < req.end_ts_ms_utc_exclusive ==> #[trigger] covered(
                plan_spec(req),
                t,
            ),
        forall|k: int|
            0 <= k < plan_spec(req).len() ==> {
                let a = #[trigger] plan_spec(req)[k];
                &&& a.period_start_ts_ms_utc < a.period_end_ts_ms_utc_exclusive
                &&& a.period_start_ts_ms_utc < req.end_ts_ms_utc_exclusive
                &&& req.start_ts_ms_utc < a.period_end_ts_ms_utc_exclusive
                &&& a.symbol == req.symbol
            },
        forall|i: int, j: int|
            0 <= i < j < plan_spec(req).len() ==> (#[trigger] plan_spec(
                req,
            )[i]).period_end_ts_ms_utc_exclusive <= (#[trigger] plan_spec(
                req,
            )[j]).period_start_ts_ms_utc,
{
    let start = req.start_ts_ms_utc as int;
    let last_ms = req.end_ts_ms_utc_exclusive - 1;
    assert(utc_in_range(last_ms));
    crate::calendar::lemma_in_range_falls_on_date(start);
    crate::calendar::lemma_in_range_falls_on_date(last_ms);
    let first = utc_date(start);
    let last = utc_date(last_ms);
    let first_key = month_key(first.year as int, first.month as int);
    let last_key = month_key(last.year as int, last.month as int);
    assert(first_key / 12 == first.year && first_key % 12 + 1 == first.month);
    assert(last_key / 12 == last.year && last_key % 12 + 1 == last.month);
    // the request begins in its first month and ends in its last
    lemma_days_before_month_bounds_of(first.year as int, first.month as int, first.day as int);
    lemma_days_before_month_bounds_of(last.year as int, last.month as int, last.day as int);
    lemma_next_month_start(last_key);
    assert(month_start_of(first_key) <= start);
    assert(last_ms < month_start_of(last_key + 1));
    if last_key < first_key {
        // the last month would end before the first begins
        lemma_months_in_order(last_key + 1, first_key);
    }
    let count = (last_key - first_key + 1) as nat;
    assert forall|key: int| first_key <= key < first_key + count implies MIN_YEAR <= #[trigger] (
    key / 12) <= MAX_YEAR by {}
    lemma_months_plan_ok(req, first_key, count);
    assert(plan_spec(req) == months_plan(req, first_key, count));
}

/// A day of a month lies between the start of the month and its end.
proof fn lemma_days_before_month_bounds_of(y: int, m: int, d: int)
    requires
        1 <= m <= 12,
        1 <= d <= days_in_month(y, m),
    ensures
        month_start_ms(y, m) <= day_start_ms(y, m, d),
        day_start_ms(y, m, d) + 86_400_000 <= month_end_ms(y, m),
{
}

/// Later months start later.
proof fn lemma_months_in_order(a: int, b: int)
    requires
        a <= b,
    ensures
        month_start_of(a) <= month_start_of(b),
    decreases b - a,
{
    if a < b {
        lemma_months_in_order(a, b - 1);
        lemma_next_month_start(b - 1);
    }
}

} // verus!
