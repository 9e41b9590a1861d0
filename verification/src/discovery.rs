//! Market discovery: the keys of the markets around an instant, and the
//! resolution of keys against what a catalog returns for their slugs.

use vstd::prelude::*;
use vstd::string::*;
use crate::slug::{
    build_slug, date_after, date_before, next_date, ny_local, ny_local_of, ny_local_to_utc,
    ny_safe, ny_wall_clock_utc, prev_date, seconds_ny_safe, slug_spec, Coin, Duration,
    SlugConfig, SlugError, SlugErrorView,
};
use crate::text::str_eq;

verus! {

/// One market to look up: what it is about, when it starts, and its slug.
#[derive(Debug, Clone, PartialEq, Eq, Hash)]
pub struct DiscoveryKey {
    pub coin: Coin,
    pub duration: Duration,
    pub start_ts_utc: i64,
    pub slug: String,
}

/// Mathematical content of a [`DiscoveryKey`].
pub struct DiscoveryKeyView {
    pub coin: Coin,
    pub duration: Duration,
    pub start_ts_utc: i64,
    pub slug: Seq<char>,
}

impl View for DiscoveryKey {
    type V = DiscoveryKeyView;

    open spec fn view(&self) -> DiscoveryKeyView {
        DiscoveryKeyView {
            coin: self.coin,
            duration: self.duration,
            start_ts_utc: self.start_ts_utc,
            slug: self.slug@,
        }
    }
}

impl DiscoveryKey {
    /// The key of a market, with the slug that its coin, duration and start
    /// determine.
    pub fn new(coin: Coin, duration: Duration, start_ts_utc: i64, slug_cfg: SlugConfig) -> (r:
        Result<DiscoveryKey, SlugError>)
        ensures
            match slug_spec(coin, duration, start_ts_utc) {
                Ok(slug) => r is Ok && r->Ok_0@ == (DiscoveryKeyView {
                    coin,
                    duration,
                    start_ts_utc,
                    slug,
                }),
                Err(e) => r is Err && r->Err_0@ == e,
            },
    {
        match build_slug(coin, duration, start_ts_utc, slug_cfg) {
            Ok(slug) => Ok(DiscoveryKey { coin, duration, start_ts_utc, slug }),
            Err(e) => Err(e),
        }
    }

    /// The key of a market whose slug is known.
    pub fn from_slug(coin: Coin, duration: Duration, start_ts_utc: i64, slug: String) -> (key:
        DiscoveryKey)
        ensures
            key@ == (DiscoveryKeyView { coin, duration, start_ts_utc, slug: slug@ }),
    {
        DiscoveryKey { coin, duration, start_ts_utc, slug }
    }

    pub fn duplicate(&self) -> (key: DiscoveryKey)
        ensures
            key@ == self@,
    {
        DiscoveryKey {
            coin: self.coin,
            duration: self.duration,
            start_ts_utc: self.start_ts_utc,
            slug: self.slug.clone(),
        }
    }
}

#[derive(Debug, Clone, PartialEq, Eq)]
pub enum UnresolvedReason {
    NotFound,
    TransportError(String),
}

#[derive(Debug, Clone, PartialEq, Eq)]
pub enum DiscoveryStatus<M> {
    Resolved { market: M },
    Unresolved { reason: UnresolvedReason },
}

#[derive(Debug, Clone, PartialEq, Eq)]
pub struct DiscoveryRow<M> {
    pub key: DiscoveryKey,
    pub status: DiscoveryStatus<M>,
}

#[derive(Debug, Clone, Copy, PartialEq, Eq, Structural)]
pub struct DiscoveryConfig {
    pub timeout_ms: u64,
    pub batch_size: usize,
    pub max_retries: u32,
    pub retry_backoff_ms: u64,
    pub include_tag: bool,
}

impl Default for DiscoveryConfig {
    fn default() -> (cfg: Self)
        ensures
            cfg == (DiscoveryConfig {
                timeout_ms: 3_000,
                batch_size: 64,
                max_retries: 2,
                retry_backoff_ms: 200,
                include_tag: false,
            }),
    {
        DiscoveryConfig {
            timeout_ms: 3_000,
            batch_size: 64,
            max_retries: 2,
            retry_backoff_ms: 200,
            include_tag: false,
        }
    }
}

/// What a catalog says of one slug.
#[derive(Debug, Clone, PartialEq, Eq)]
pub enum SlugFetchOutcome<M> {
    Found(M),
    Missing,
    TransportError(String),
}

#[derive(Debug, Clone, PartialEq, Eq)]
pub enum DiscoveryError {
    InvalidBatchSize,
    Transport(String),
}

pub const ALL_COINS: [Coin; 4] = [Coin::Btc, Coin::Eth, Coin::Sol, Coin::Xrp];

pub const ALL_DURATIONS: [Duration; 5] = [
    Duration::M5,
    Duration::M15,
    Duration::H1,
    Duration::H4,
    Duration::D1,
];

#[derive(Debug, Clone, Copy, PartialEq, Eq, Hash, Structural)]
pub enum DiscoveryWindow {
    Previous,
    Active,
    Next,
}

#[derive(Debug, Clone, PartialEq, Eq)]
pub struct ScheduledDiscoveryKey {
    pub window: DiscoveryWindow,
    pub key: DiscoveryKey,
}

/// The starts of the interval before the active one, of the active one, and
/// of the one after it.
#[derive(Debug, Clone, Copy, PartialEq, Eq, Structural)]
pub struct IntervalStarts {
    pub previous_start_ts_utc: i64,
    pub active_start_ts_utc: i64,
    pub next_start_ts_utc: i64,
}

pub open spec fn duration_step_spec(duration: Duration) -> int {
    match duration {
        Duration::M5 => 300,
        Duration::M15 => 900,
        Duration::H1 => 3_600,
        Duration::H4 => 14_400,
        Duration::D1 => 86_400,
    }
}

pub fn duration_step_seconds(duration: Duration) -> (step: i64)
    ensures
        step == duration_step_spec(duration),
{
    match duration {
        Duration::M5 => 5 * 60,
        Duration::M15 => 15 * 60,
        Duration::H1 => 60 * 60,
        Duration::H4 => 4 * 60 * 60,
        Duration::D1 => 24 * 60 * 60,
    }
}

/// Intervals of every duration start on the unshifted grid.
pub fn interval_offset_seconds(duration: Duration, slug_cfg: SlugConfig) -> (offset: i64)
    ensures
        offset == 0,
{
    0
}

/// The nearest value that a signed 64-bit integer can hold.
pub open spec fn clamp_i64(x: int) -> i64 {
    if x < i64::MIN {
        i64::MIN
    } else if x > i64::MAX {
        i64::MAX
    } else {
        x as i64
    }
}

fn clamp(x: i128) -> (r: i64)
    ensures
        r == clamp_i64(x as int),
{
    if x < i64::MIN as i128 {
        i64::MIN
    } else if x > i64::MAX as i128 {
        i64::MAX
    } else {
        x as i64
    }
}

/// Interval starts on a fixed grid of `step` seconds: the active interval
/// starts at the last grid point at or before the instant; every value is
/// kept within the machine integers.
pub open spec fn grid_starts(now: i64, step: int) -> IntervalStarts {
    let active = clamp_i64((now as int / step) * step);
    IntervalStarts {
        previous_start_ts_utc: clamp_i64(active - step),
        active_start_ts_utc: active,
        next_start_ts_utc: clamp_i64(active + step),
    }
}

/// The last multiple of `step` at or before `now`.
fn floor_to_grid(now: i64, step: i64) -> (r: i128)
    requires
        step == 300 || step == 900 || step == 3_600,
    ensures
        r == (now as int / step as int) * step,
{
    let wide: i128 = now as i128;
    if step == 300 {
        if wide >= 0 {
            (wide / 300) * 300
        } else {
            -((-wide + 299) / 300) * 300
        }
    } else if step == 900 {
        if wide >= 0 {
            (wide / 900) * 900
        } else {
            -((-wide + 899) / 900) * 900
        }
    } else {
        if wide >= 0 {
            (wide / 3_600) * 3_600
        } else {
            -((-wide + 3_599) / 3_600) * 3_600
        }
    }
}

fn grid_interval_starts(now_ts_utc: i64, step: i64) -> (r: IntervalStarts)
    requires
        step == 300 || step == 900 || step == 3_600,
    ensures
        r == grid_starts(now_ts_utc, step as int),
{
    let active = clamp(floor_to_grid(now_ts_utc, step));
    IntervalStarts {
        previous_start_ts_utc: clamp(active as i128 - step as i128),
        active_start_ts_utc: active,
        next_start_ts_utc: clamp(active as i128 + step as i128),
    }
}

} // verus!

verus! {

pub open spec fn wall(date: (int, int, int), hour: int) -> Option<int> {
    ny_wall_clock_utc(date.0, date.1, date.2, hour)
}

pub open spec fn starts_of(previous: Option<int>, active: Option<int>, next: Option<int>) -> Option<
    IntervalStarts,
> {
    if previous is Some && active is Some && next is Some {
        Some(
            IntervalStarts {
                previous_start_ts_utc: previous->Some_0 as i64,
                active_start_ts_utc: active->Some_0 as i64,
                next_start_ts_utc: next->Some_0 as i64,
            },
        )
    } else {
        None
    }
}

/// Four-hour intervals follow New York's wall clock: they start at 0, 4, 8,
/// 12, 16 and 20 o'clock. `None` where the clock does not show one of the
/// three starts exactly once.
pub open spec fn ny_4h_starts(now: int) -> Option<IntervalStarts> {
    let l = ny_local(now);
    let date = (l.year as int, l.month as int, l.day as int);
    let block = (l.hour as int / 4) * 4;
    let previous = if block == 0 {
        wall(prev_date(date.0, date.1, date.2), 20)
    } else {
        wall(date, block - 4)
    };
    let next = if block == 20 {
        wall(next_date(date.0, date.1, date.2), 0)
    } else {
        wall(date, block + 4)
    };
    starts_of(previous, wall(date, block), next)
}

/// Daily intervals run from noon to noon on New York's wall clock. `None`
/// where the clock does not show one of the noons involved exactly once.
pub open spec fn ny_1d_starts(now: int) -> Option<IntervalStarts> {
    let l = ny_local(now);
    let date = (l.year as int, l.month as int, l.day as int);
    match wall(date, 12) {
        None => None,
        Some(noon) => {
            let active_date = if now < noon {
                prev_date(date.0, date.1, date.2)
            } else {
                date
            };
            starts_of(
                wall(prev_date(active_date.0, active_date.1, active_date.2), 12),
                wall(active_date, 12),
                wall(next_date(active_date.0, active_date.1, active_date.2), 12),
            )
        },
    }
}

/// The interval starts around an instant, where they are defined.
pub open spec fn interval_starts_spec(duration: Duration, now: i64) -> Option<IntervalStarts> {
    match duration {
        Duration::M5 => Some(grid_starts(now, 300)),
        Duration::M15 => Some(grid_starts(now, 900)),
        Duration::H1 => Some(grid_starts(now, 3_600)),
        Duration::H4 => if ny_safe(now as int) {
            ny_4h_starts(now as int)
        } else {
            None
        },
        Duration::D1 => if ny_safe(now as int) {
            ny_1d_starts(now as int)
        } else {
            None
        },
    }
}

fn starts_from(previous: Option<i64>, active: Option<i64>, next: Option<i64>) -> (r: Option<
    IntervalStarts,
>)
    ensures
        r == if previous is Some && active is Some && next is Some {
            Some(
                IntervalStarts {
                    previous_start_ts_utc: previous->Some_0,
                    active_start_ts_utc: active->Some_0,
                    next_start_ts_utc: next->Some_0,
                },
            )
        } else {
            None
        },
{
    match (previous, active, next) {
        (Some(p), Some(a), Some(n)) => Some(
            IntervalStarts {
                previous_start_ts_utc: p,
                active_start_ts_utc: a,
                next_start_ts_utc: n,
            },
        ),
        _ => None,
    }
}

fn interval_starts_for_4h_ny(now_ts_utc: i64) -> (r: Option<IntervalStarts>)
    requires
        ny_safe(now_ts_utc as int),
    ensures
        r == ny_4h_starts(now_ts_utc as int),
{
    let l = ny_local_of(now_ts_utc);
    let block_hour = (l.hour / 4) * 4;
    let active = ny_local_to_utc(l.year, l.month, l.day, block_hour);
    let previous = if block_hour == 0 {
        let p = date_before(l.year, l.month, l.day);
        ny_local_to_utc(p.0, p.1, p.2, 20)
    } else {
        ny_local_to_utc(l.year, l.month, l.day, block_hour - 4)
    };
    let next = if block_hour == 20 {
        let n = date_after(l.year, l.month, l.day);
        ny_local_to_utc(n.0, n.1, n.2, 0)
    } else {
        ny_local_to_utc(l.year, l.month, l.day, block_hour + 4)
    };
    starts_from(previous, active, next)
}

fn interval_starts_for_1d_ny_noon(now_ts_utc: i64) -> (r: Option<IntervalStarts>)
    requires
        ny_safe(now_ts_utc as int),
    ensures
        r == ny_1d_starts(now_ts_utc as int),
{
    let l = ny_local_of(now_ts_utc);
    let today_noon = match ny_local_to_utc(l.year, l.month, l.day, 12) {
        None => {
            return None;
        },
        Some(noon) => noon,
    };
    let active_date = if now_ts_utc < today_noon {
        date_before(l.year, l.month, l.day)
    } else {
        (l.year, l.month, l.day)
    };
    let active = ny_local_to_utc(active_date.0, active_date.1, active_date.2, 12);
    let p = date_before(active_date.0, active_date.1, active_date.2);
    let n = date_after(active_date.0, active_date.1, active_date.2);
    let previous = ny_local_to_utc(p.0, p.1, p.2, 12);
    let next = ny_local_to_utc(n.0, n.1, n.2, 12);
    starts_from(previous, active, next)
}

/// The interval starts around an instant. For four-hour and daily
/// intervals the instant must be one around which New York's wall clock
/// shows every start exactly once.
pub fn interval_starts_for_now(duration: Duration, now_ts_utc: i64, slug_cfg: SlugConfig) -> (r:
    IntervalStarts)
    requires
        interval_starts_spec(duration, now_ts_utc) is Some,
    ensures
        Some(r) == interval_starts_spec(duration, now_ts_utc),
{
    match duration {
        Duration::H4 => interval_starts_for_4h_ny(now_ts_utc).unwrap(),
        Duration::D1 => interval_starts_for_1d_ny_noon(now_ts_utc).unwrap(),
        Duration::M5 | Duration::M15 | Duration::H1 => {
            let step = duration_step_seconds(duration);
            grid_interval_starts(now_ts_utc, step)
        },
    }
}

/// The interval starts around an instant, or `None` where they are not
/// defined.
pub fn try_interval_starts_for_now(duration: Duration, now_ts_utc: i64, slug_cfg: SlugConfig) -> (r:
    Option<IntervalStarts>)
    ensures
        r == interval_starts_spec(duration, now_ts_utc),
{
    let defined = match duration {
        Duration::H4 => seconds_ny_safe(now_ts_utc) && interval_starts_for_4h_ny(
            now_ts_utc,
        ).is_some(),
        Duration::D1 => seconds_ny_safe(now_ts_utc) && interval_starts_for_1d_ny_noon(
            now_ts_utc,
        ).is_some(),
        Duration::M5 | Duration::M15 | Duration::H1 => true,
    };
    if defined {
        Some(interval_starts_for_now(duration, now_ts_utc, slug_cfg))
    } else {
        None
    }
}

} // verus!

verus! {

/// Mathematical content of a [`ScheduledDiscoveryKey`].
pub struct ScheduledView {
    pub window: DiscoveryWindow,
    pub key: DiscoveryKeyView,
}

impl View for ScheduledDiscoveryKey {
    type V = ScheduledView;

    open spec fn view(&self) -> ScheduledView {
        ScheduledView { window: self.window, key: self.key@ }
    }
}

pub open spec fn scheduled_views(keys: Seq<ScheduledDiscoveryKey>) -> Seq<ScheduledView> {
    Seq::new(keys.len(), |i: int| keys[i]@)
}

pub open spec fn key_views(keys: Seq<DiscoveryKey>) -> Seq<DiscoveryKeyView> {
    Seq::new(keys.len(), |i: int| keys[i]@)
}

/// The key of a market, or why it has none.
pub open spec fn key_of(coin: Coin, duration: Duration, start: i64) -> Result<
    DiscoveryKeyView,
    SlugErrorView,
> {
    match slug_spec(coin, duration, start) {
        Ok(slug) => Ok(DiscoveryKeyView { coin, duration, start_ts_utc: start, slug }),
        Err(e) => Err(e),
    }
}

/// The keys of the previous, active and next market of a coin, in that
/// order, or the first complaint.
pub open spec fn scheduled_triple(coin: Coin, duration: Duration, starts: IntervalStarts) -> Result<
    Seq<ScheduledView>,
    SlugErrorView,
> {
    match key_of(coin, duration, starts.previous_start_ts_utc) {
        Err(e) => Err(e),
        Ok(previous) => match key_of(coin, duration, starts.active_start_ts_utc) {
            Err(e) => Err(e),
            Ok(active) => match key_of(coin, duration, starts.next_start_ts_utc) {
                Err(e) => Err(e),
                Ok(next) => Ok(
                    seq![
                        ScheduledView { window: DiscoveryWindow::Previous, key: previous },
                        ScheduledView { window: DiscoveryWindow::Active, key: active },
                        ScheduledView { window: DiscoveryWindow::Next, key: next },
                    ],
                ),
            },
        },
    }
}

/// The scheduled keys of the first `n` coins for one duration.
pub open spec fn coins_scheduled(
    coins: Seq<Coin>,
    duration: Duration,
    starts: IntervalStarts,
    n: nat,
) -> Result<Seq<ScheduledView>, SlugErrorView>
    decreases n,
{
    if n == 0 {
        Ok(Seq::empty())
    } else {
        match coins_scheduled(coins, duration, starts, (n - 1) as nat) {
            Err(e) => Err(e),
            Ok(acc) => match scheduled_triple(coins[n - 1], duration, starts) {
                Err(e) => Err(e),
                Ok(more) => Ok(acc + more),
            },
        }
    }
}

/// The scheduled keys of the first `n` durations, duration by duration and
/// within a duration coin by coin, or the first complaint. An instant
/// around which a duration's intervals are not defined is refused.
pub open spec fn durations_scheduled(
    coins: Seq<Coin>,
    durations: Seq<Duration>,
    now: i64,
    n: nat,
) -> Result<Seq<ScheduledView>, SlugErrorView>
    decreases n,
{
    if n == 0 {
        Ok(Seq::empty())
    } else {
        match durations_scheduled(coins, durations, now, (n - 1) as nat) {
            Err(e) => Err(e),
            Ok(acc) => match interval_starts_spec(durations[n - 1], now) {
                None => Err(SlugErrorView::InvalidTimestamp(now)),
                Some(starts) => match coins_scheduled(
                    coins,
                    durations[n - 1],
                    starts,
                    coins.len(),
                ) {
                    Err(e) => Err(e),
                    Ok(more) => Ok(acc + more),
                },
            },
        }
    }
}

proof fn lemma_coins_error_stable(
    coins: Seq<Coin>,
    duration: Duration,
    starts: IntervalStarts,
    n: nat,
    m: nat,
)
    requires
        n <= m,
        coins_scheduled(coins, duration, starts, n) is Err,
    ensures
        coins_scheduled(coins, duration, starts, m) == coins_scheduled(coins, duration, starts, n),
    decreases m,
{
    if n < m {
        lemma_coins_error_stable(coins, duration, starts, n, (m - 1) as nat);
    }
}

proof fn lemma_durations_error_stable(
    coins: Seq<Coin>,
    durations: Seq<Duration>,
    now: i64,
    n: nat,
    m: nat,
)
    requires
        n <= m,
        durations_scheduled(coins, durations, now, n) is Err,
    ensures
        durations_scheduled(coins, durations, now, m) == durations_scheduled(
            coins,
            durations,
            now,
            n,
        ),
    decreases m,
{
    if n < m {
        lemma_durations_error_stable(coins, durations, now, n, (m - 1) as nat);
    }
}

fn push_scheduled(out: &mut Vec<ScheduledDiscoveryKey>, window: DiscoveryWindow, key: DiscoveryKey)
    ensures
        scheduled_views(final(out)@) == scheduled_views(old(out)@).push(
            ScheduledView { window, key: key@ },
        ),
{
    out.push(ScheduledDiscoveryKey { window, key });
    assert(scheduled_views(out@) =~= scheduled_views(old(out)@).push(
        ScheduledView { window, key: key@ },
    ));
}

/// Appends the keys of the previous, active and next market of one coin;
/// on a complaint nothing is appended.
fn push_triple(
    out: &mut Vec<ScheduledDiscoveryKey>,
    coin: Coin,
    duration: Duration,
    starts: IntervalStarts,
    slug_cfg: SlugConfig,
) -> (r: Result<(), SlugError>)
    ensures
        match scheduled_triple(coin, duration, starts) {
            Ok(triple) => r is Ok && scheduled_views(final(out)@) == scheduled_views(old(out)@)
                + triple,
            Err(e) => r is Err && r->Err_0@ == e && *final(out) == *old(out),
        },
{
    let previous = DiscoveryKey::new(coin, duration, starts.previous_start_ts_utc, slug_cfg);
    let active = DiscoveryKey::new(coin, duration, starts.active_start_ts_utc, slug_cfg);
    let next = DiscoveryKey::new(coin, duration, starts.next_start_ts_utc, slug_cfg);
    match (previous, active, next) {
        (Ok(p), Ok(a), Ok(n)) => {
            let ghost triple = scheduled_triple(coin, duration, starts)->Ok_0;
            push_scheduled(out, DiscoveryWindow::Previous, p);
            push_scheduled(out, DiscoveryWindow::Active, a);
            push_scheduled(out, DiscoveryWindow::Next, n);
            assert(scheduled_views(out@) =~= scheduled_views(old(out)@) + triple);
            Ok(())
        },
        (Err(e), _, _) => Err(e),
        (Ok(_), Err(e), _) => Err(e),
        (Ok(_), Ok(_), Err(e)) => Err(e),
    }
}

/// Appends the keys of every coin for one duration, coin by coin.
fn push_coins(
    out: &mut Vec<ScheduledDiscoveryKey>,
    coins: &[Coin],
    duration: Duration,
    starts: IntervalStarts,
    slug_cfg: SlugConfig,
) -> (r: Result<(), SlugError>)
    ensures
        match coins_scheduled(coins@, duration, starts, coins@.len()) {
            Ok(more) => r is Ok && scheduled_views(final(out)@) == scheduled_views(old(out)@)
                + more,
            Err(e) => r is Err && r->Err_0@ == e,
        },
{
    let ghost acc = scheduled_views(out@);
    let mut c: usize = 0;
    assert(scheduled_views(out@) =~= acc + Seq::<ScheduledView>::empty());
    while c < coins.len()
        invariant
            c <= coins@.len(),
            coins_scheduled(coins@, duration, starts, c as nat) is Ok,
            scheduled_views(out@) == acc + coins_scheduled(
                coins@,
                duration,
                starts,
                c as nat,
            )->Ok_0,
        decreases coins@.len() - c,
    {
        let ghost so_far = coins_scheduled(coins@, duration, starts, c as nat)->Ok_0;
        match push_triple(out, coins[c], duration, starts, slug_cfg) {
            Ok(()) => {
                let ghost triple = scheduled_triple(coins@[c as int], duration, starts)->Ok_0;
                assert(acc + so_far + triple =~= acc + (so_far + triple));
            },
            Err(e) => {
                proof {
                    lemma_coins_error_stable(
                        coins@,
                        duration,
                        starts,
                        (c + 1) as nat,
                        coins@.len(),
                    );
                }
                return Err(e);
            },
        }
        c = c + 1;
    }
    Ok(())
}

/// The keys of the previous, active and next market of every given coin
/// and duration around an instant: duration by duration, coin by coin, and
/// for each pair in the order previous, active, next.
pub fn build_previous_active_and_next_discovery_keys(
    now_ts_utc: i64,
    coins: &[Coin],
    durations: &[Duration],
    slug_cfg: SlugConfig,
) -> (r: Result<Vec<ScheduledDiscoveryKey>, SlugError>)
    ensures
        match durations_scheduled(coins@, durations@, now_ts_utc, durations@.len()) {
            Ok(keys) => r is Ok && scheduled_views(r->Ok_0@) == keys,
            Err(e) => r is Err && r->Err_0@ == e,
        },
{
    let mut keys: Vec<ScheduledDiscoveryKey> = Vec::new();
    let mut d: usize = 0;
    assert(scheduled_views(keys@) =~= Seq::<ScheduledView>::empty());
    while d < durations.len()
        invariant
            d <= durations@.len(),
            durations_scheduled(coins@, durations@, now_ts_utc, d as nat) == Ok::<
                Seq<ScheduledView>,
                SlugErrorView,
            >(scheduled_views(keys@)),
        decreases durations@.len() - d,
    {
        let duration = durations[d];
        let fitted = match try_interval_starts_for_now(duration, now_ts_utc, slug_cfg) {
            Some(starts) => push_coins(&mut keys, coins, duration, starts, slug_cfg),
            None => Err(SlugError::InvalidTimestamp(now_ts_utc)),
        };
        if let Err(e) = fitted {
            proof {
                lemma_durations_error_stable(
                    coins@,
                    durations@,
                    now_ts_utc,
                    (d + 1) as nat,
                    durations@.len(),
                );
            }
            return Err(e);
        }
        d = d + 1;
    }
    Ok(keys)
}

/// The scheduled keys without those of previous markets.
pub open spec fn without_previous(keys: Seq<ScheduledView>) -> Seq<ScheduledView>
    decreases keys.len(),
{
    if keys.len() == 0 {
        Seq::empty()
    } else {
        let rest = without_previous(keys.drop_last());
        if keys.last().window == DiscoveryWindow::Previous {
            rest
        } else {
            rest.push(keys.last())
        }
    }
}

/// The keys of the active and next market of every given coin and duration
/// around an instant, in the order of
/// [`build_previous_active_and_next_discovery_keys`].
pub fn build_active_and_next_discovery_keys(
    now_ts_utc: i64,
    coins: &[Coin],
    durations: &[Duration],
    slug_cfg: SlugConfig,
) -> (r: Result<Vec<ScheduledDiscoveryKey>, SlugError>)
    ensures
        match durations_scheduled(coins@, durations@, now_ts_utc, durations@.len()) {
            Ok(keys) => r is Ok && scheduled_views(r->Ok_0@) == without_previous(keys),
            Err(e) => r is Err && r->Err_0@ == e,
        },
{
    let all = match build_previous_active_and_next_discovery_keys(
        now_ts_utc,
        coins,
        durations,
        slug_cfg,
    ) {
        Ok(all) => all,
        Err(e) => {
            return Err(e);
        },
    };
    let ghost views = scheduled_views(all@);
    let mut keys: Vec<ScheduledDiscoveryKey> = Vec::new();
    assert(scheduled_views(keys@) =~= without_previous(views.take(0)));
    for scheduled in it: all
        invariant
            views == scheduled_views(it.seq()),
            scheduled_views(keys@) == without_previous(views.take(it.index())),
    {
        let ghost i = it.index();
        let ghost before = scheduled_views(keys@);
        assert(views.take(i + 1).drop_last() =~= views.take(i));
        assert(views.take(i + 1).last() == scheduled@);
        match scheduled.window {
            DiscoveryWindow::Previous => {},
            DiscoveryWindow::Active | DiscoveryWindow::Next => {
                keys.push(scheduled);
                assert(scheduled_views(keys@) =~= before.push(scheduled@));
            },
        }
    }
    assert(views.take(views.len() as int) =~= views);
    Ok(keys)
}

/// The keys of the active markets of the first `n` coins for one duration.
pub open spec fn coins_active(coins: Seq<Coin>, duration: Duration, start: i64, n: nat) -> Result<
    Seq<DiscoveryKeyView>,
    SlugErrorView,
>
    decreases n,
{
    if n == 0 {
        Ok(Seq::empty())
    } else {
        match coins_active(coins, duration, start, (n - 1) as nat) {
            Err(e) => Err(e),
            Ok(acc) => match key_of(coins[n - 1], duration, start) {
                Err(e) => Err(e),
                Ok(key) => Ok(acc.push(key)),
            },
        }
    }
}

/// The keys of the active markets of the first `n` durations.
pub open spec fn durations_active(
    coins: Seq<Coin>,
    durations: Seq<Duration>,
    now: i64,
    n: nat,
) -> Result<Seq<DiscoveryKeyView>, SlugErrorView>
    decreases n,
{
    if n == 0 {
        Ok(Seq::empty())
    } else {
        match durations_active(coins, durations, now, (n - 1) as nat) {
            Err(e) => Err(e),
            Ok(acc) => match interval_starts_spec(durations[n - 1], now) {
                None => Err(SlugErrorView::InvalidTimestamp(now)),
                Some(starts) => match coins_active(
                    coins,
                    durations[n - 1],
                    starts.active_start_ts_utc,
                    coins.len(),
                ) {
                    Err(e) => Err(e),
                    Ok(more) => Ok(acc + more),
                },
            },
        }
    }
}

proof fn lemma_coins_active_error_stable(
    coins: Seq<Coin>,
    duration: Duration,
    start: i64,
    n: nat,
    m: nat,
)
    requires
        n <= m,
        coins_active(coins, duration, start, n) is Err,
    ensures
        coins_active(coins, duration, start, m) == coins_active(coins, duration, start, n),
    decreases m,
{
    if n < m {
        lemma_coins_active_error_stable(coins, duration, start, n, (m - 1) as nat);
    }
}

proof fn lemma_durations_active_error_stable(
    coins: Seq<Coin>,
    durations: Seq<Duration>,
    now: i64,
    n: nat,
    m: nat,
)
    requires
        n <= m,
        durations_active(coins, durations, now, n) is Err,
    ensures
        durations_active(coins, durations, now, m) == durations_active(coins, durations, now, n),
    decreases m,
{
    if n < m {
        lemma_durations_active_error_stable(coins, durations, now, n, (m - 1) as nat);
    }
}

/// The keys of the active market of every given coin and duration around
/// an instant: duration by duration, coin by coin.
pub fn build_active_discovery_keys(
    now_ts_utc: i64,
    coins: &[Coin],
    durations: &[Duration],
    slug_cfg: SlugConfig,
) -> (r: Result<Vec<DiscoveryKey>, SlugError>)
    ensures
        match durations_active(coins@, durations@, now_ts_utc, durations@.len()) {
            Ok(keys) => r is Ok && key_views(r->Ok_0@) == keys,
            Err(e) => r is Err && r->Err_0@ == e,
        },
{
    let mut keys: Vec<DiscoveryKey> = Vec::new();
    let mut d: usize = 0;
    assert(key_views(keys@) =~= Seq::<DiscoveryKeyView>::empty());
    while d < durations.len()
        invariant
            d <= durations@.len(),
            durations_active(coins@, durations@, now_ts_utc, d as nat) == Ok::<
                Seq<DiscoveryKeyView>,
                SlugErrorView,
            >(key_views(keys@)),
        decreases durations@.len() - d,
    {
        let duration = durations[d];
        let ghost acc = key_views(keys@);
        let starts = match try_interval_starts_for_now(duration, now_ts_utc, slug_cfg) {
            Some(starts) => starts,
            None => {
                proof {
                    lemma_durations_active_error_stable(
                        coins@,
                        durations@,
                        now_ts_utc,
                        (d + 1) as nat,
                        durations@.len(),
                    );
                }
                return Err(SlugError::InvalidTimestamp(now_ts_utc));
            },
        };
        let mut c: usize = 0;
        assert(key_views(keys@) =~= acc + Seq::<DiscoveryKeyView>::empty());
        while c < coins.len()
            invariant
                c <= coins@.len(),
                d < durations@.len(),
                duration == durations@[d as int],
                interval_starts_spec(duration, now_ts_utc) == Some(starts),
                durations_active(coins@, durations@, now_ts_utc, d as nat) == Ok::<
                    Seq<DiscoveryKeyView>,
                    SlugErrorView,
                >(acc),
                coins_active(coins@, duration, starts.active_start_ts_utc, c as nat) is Ok,
                key_views(keys@) == acc + coins_active(
                    coins@,
                    duration,
                    starts.active_start_ts_utc,
                    c as nat,
                )->Ok_0,
            decreases coins@.len() - c,
        {
            let ghost so_far = coins_active(
                coins@,
                duration,
                starts.active_start_ts_utc,
                c as nat,
            )->Ok_0;
            match DiscoveryKey::new(coins[c], duration, starts.active_start_ts_utc, slug_cfg) {
                Ok(key) => {
                    let ghost before = key_views(keys@);
                    let ghost added = key@;
                    keys.push(key);
                    assert(key_views(keys@) =~= before.push(added));
                    assert(before.push(added) =~= acc + so_far.push(added));
                },
                Err(e) => {
                    proof {
                        lemma_coins_active_error_stable(
                            coins@,
                            duration,
                            starts.active_start_ts_utc,
                            (c + 1) as nat,
                            coins@.len(),
                        );
                        lemma_durations_active_error_stable(
                            coins@,
                            durations@,
                            now_ts_utc,
                            (d + 1) as nat,
                            durations@.len(),
                        );
                    }
                    return Err(e);
                },
            }
            c = c + 1;
        }
        d = d + 1;
    }
    Ok(keys)
}

} // verus!

verus! {

/// The slugs of the keys, each once, in the order of first occurrence.
pub open spec fn unique_slugs_spec(keys: Seq<DiscoveryKey>) -> Seq<Seq<char>>
    decreases keys.len(),
{
    if keys.len() == 0 {
        Seq::empty()
    } else {
        let before = unique_slugs_spec(keys.drop_last());
        if before.contains(keys.last().slug@) {
            before
        } else {
            before.push(keys.last().slug@)
        }
    }
}

fn contains_slug(slugs: &Vec<String>, slug: &str) -> (r: bool)
    ensures
        r == slugs.deep_view().contains(slug@),
{
    let mut i: usize = 0;
    while i < slugs.len()
        invariant
            i <= slugs@.len(),
            forall|k: int| 0 <= k < i ==> slugs.deep_view()[k] != slug@,
        decreases slugs@.len() - i,
    {
        if str_eq(slugs[i].as_str(), slug) {
            assert(slugs.deep_view()[i as int] == slug@);
            return true;
        }
        i = i + 1;
    }
    false
}

/// The slugs of the keys, each once, in the order of first occurrence.
pub fn ordered_unique_slugs(keys: &[DiscoveryKey]) -> (unique: Vec<String>)
    ensures
        unique.deep_view() == unique_slugs_spec(keys@),
{
    let mut unique: Vec<String> = Vec::new();
    let mut i: usize = 0;
    assert(unique.deep_view() =~= unique_slugs_spec(keys@.take(0)));
    while i < keys.len()
        invariant
            i <= keys@.len(),
            unique.deep_view() == unique_slugs_spec(keys@.take(i as int)),
        decreases keys@.len() - i,
    {
        assert(keys@.take(i + 1).drop_last() =~= keys@.take(i as int));
        assert(keys@.take(i + 1).last() == keys@[i as int]);
        if !contains_slug(&unique, keys[i].slug.as_str()) {
            let ghost before = unique.deep_view();
            unique.push(keys[i].slug.clone());
            assert(unique.deep_view() =~= before.push(keys@[i as int].slug@));
        }
        i = i + 1;
    }
    assert(keys@.take(keys@.len() as int) =~= keys@);
    unique
}

/// Position of the last entry for a slug among the first `n` entries.
pub open spec fn outcome_index<M>(
    outcomes: Seq<(String, SlugFetchOutcome<M>)>,
    slug: Seq<char>,
    n: nat,
) -> Option<int>
    decreases n,
{
    if n == 0 {
        None
    } else if outcomes[n - 1].0@ == slug {
        Some(n - 1)
    } else {
        outcome_index(outcomes, slug, (n - 1) as nat)
    }
}

/// Whether a status is what an outcome resolves to: a market found resolves
/// to a copy of it, a transport error is passed on, and a slug that is
/// missing or was never answered is not found.
pub open spec fn status_of<M: Clone>(
    status: DiscoveryStatus<M>,
    outcome: Option<SlugFetchOutcome<M>>,
) -> bool {
    match outcome {
        Some(SlugFetchOutcome::Found(market)) => status is Resolved && cloned(
            market,
            status->market,
        ),
        Some(SlugFetchOutcome::TransportError(message)) => status is Unresolved
            && status->reason is TransportError && status->reason->TransportError_0@ == message@,
        Some(SlugFetchOutcome::Missing) | None => status is Unresolved
            && status->reason is NotFound,
    }
}

pub open spec fn outcome_for<M>(
    outcomes: Seq<(String, SlugFetchOutcome<M>)>,
    slug: Seq<char>,
) -> Option<SlugFetchOutcome<M>> {
    match outcome_index(outcomes, slug, outcomes.len()) {
        Some(i) => Some(outcomes[i].1),
        None => None,
    }
}

fn find_outcome<M>(outcomes: &Vec<(String, SlugFetchOutcome<M>)>, slug: &str) -> (r: Option<usize>)
    ensures
        r is Some <==> outcome_index(outcomes@, slug@, outcomes@.len()) is Some,
        r is Some ==> r->Some_0 < outcomes@.len() && outcome_index(
            outcomes@,
            slug@,
            outcomes@.len(),
        ) == Some(r->Some_0 as int),
{
    let mut n: usize = outcomes.len();
    while n > 0
        invariant
            n <= outcomes@.len(),
            outcome_index(outcomes@, slug@, outcomes@.len()) == outcome_index(
                outcomes@,
                slug@,
                n as nat,
            ),
        decreases n,
    {
        if str_eq(outcomes[n - 1].0.as_str(), slug) {
            return Some(n - 1);
        }
        n = n - 1;
    }
    None
}

/// One row per key, in the order of the keys, each with the status that
/// the outcome recorded for its slug resolves to.
pub fn materialize_rows<M: Clone>(
    keys: &[DiscoveryKey],
    slug_outcomes: &Vec<(String, SlugFetchOutcome<M>)>,
) -> (rows: Vec<DiscoveryRow<M>>)
    ensures
        rows@.len() == keys@.len(),
        forall|i: int|
            0 <= i < keys@.len() ==> (#[trigger] rows@[i]).key@ == keys@[i]@ && status_of(
                rows@[i].status,
                outcome_for(slug_outcomes@, keys@[i].slug@),
            ),
{
    let mut rows: Vec<DiscoveryRow<M>> = Vec::new();
    let mut i: usize = 0;
    while i < keys.len()
        invariant
            i <= keys@.len(),
            rows@.len() == i,
            forall|k: int|
                0 <= k < i ==> (#[trigger] rows@[k]).key@ == keys@[k]@ && status_of(
                    rows@[k].status,
                    outcome_for(slug_outcomes@, keys@[k].slug@),
                ),
        decreases keys@.len() - i,
    {
        let key = &keys[i];
        let ghost wanted = outcome_for(slug_outcomes@, keys@[i as int].slug@);
        let found = find_outcome(slug_outcomes, key.slug.as_str());
        let status = match found {
            Some(index) => {
                let entry = &slug_outcomes[index].1;
                assert(wanted == Some(*entry));
                match entry {
                    SlugFetchOutcome::Found(market) => {
                        let copy = market.clone();
                        assert(cloned(*market, copy));
                        DiscoveryStatus::Resolved { market: copy }
                    },
                    SlugFetchOutcome::TransportError(message) => DiscoveryStatus::Unresolved {
                        reason: UnresolvedReason::TransportError(message.clone()),
                    },
                    SlugFetchOutcome::Missing => DiscoveryStatus::Unresolved {
                        reason: UnresolvedReason::NotFound,
                    },
                }
            },
            None => DiscoveryStatus::Unresolved { reason: UnresolvedReason::NotFound },
        };
        assert(status_of(status, outcome_for(slug_outcomes@, keys@[i as int].slug@)));
        let row = DiscoveryRow { key: key.duplicate(), status };
        assert(row.key@ == keys@[i as int]@);
        rows.push(row);
        i = i + 1;
    }
    rows
}

} // verus!

verus! {

/// Mathematical content of a [`DiscoveryError`].
pub enum DiscoveryErrorView {
    InvalidBatchSize,
    Transport(Seq<char>),
}

impl View for DiscoveryError {
    type V = DiscoveryErrorView;

    open spec fn view(&self) -> DiscoveryErrorView {
        match *self {
            DiscoveryError::InvalidBatchSize => DiscoveryErrorView::InvalidBatchSize,
            DiscoveryError::Transport(m) => DiscoveryErrorView::Transport(m@),
        }
    }
}

fn copy_slugs(slugs: &Vec<String>, from: usize, to: usize) -> (chunk: Vec<String>)
    requires
        from <= to <= slugs@.len(),
    ensures
        chunk.deep_view() == slugs.deep_view().subrange(from as int, to as int),
{
    let mut chunk: Vec<String> = Vec::new();
    let mut i = from;
    assert(chunk.deep_view() =~= slugs.deep_view().subrange(from as int, from as int));
    while i < to
        invariant
            from <= i <= to <= slugs@.len(),
            chunk.deep_view() == slugs.deep_view().subrange(from as int, i as int),
        decreases to - i,
    {
        let ghost before = chunk.deep_view();
        chunk.push(slugs[i].clone());
        assert(chunk.deep_view() =~= before.push(slugs@[i as int]@));
        assert(chunk.deep_view() =~= slugs.deep_view().subrange(from as int, i + 1));
        i = i + 1;
    }
    chunk
}

/// Whether an outcome is a copy of what a batch's answer says of a slug: a
/// slug that the answer does not mention counts as missing.
pub open spec fn outcome_copied<M: Clone>(
    outcome: SlugFetchOutcome<M>,
    answer: Option<SlugFetchOutcome<M>>,
) -> bool {
    match answer {
        Some(SlugFetchOutcome::Found(market)) => outcome is Found && cloned(
            market,
            outcome->Found_0,
        ),
        Some(SlugFetchOutcome::TransportError(message)) => outcome is TransportError
            && outcome->TransportError_0@ == message@,
        Some(SlugFetchOutcome::Missing) | None => outcome is Missing,
    }
}

/// Records what a batch's answer says of every slug of the batch, in the
/// order of the batch, after what was recorded before.
pub fn record_outcomes<M: Clone>(
    slug_outcomes: &mut Vec<(String, SlugFetchOutcome<M>)>,
    chunk: &Vec<String>,
    fetched: &Vec<(String, SlugFetchOutcome<M>)>,
)
    ensures
        final(slug_outcomes)@.len() == old(slug_outcomes)@.len() + chunk@.len(),
        forall|k: int|
            0 <= k < old(slug_outcomes)@.len() ==> final(slug_outcomes)@[k] == old(
                slug_outcomes,
            )@[k],
        forall|k: int|
            0 <= k < chunk@.len() ==> (#[trigger] final(slug_outcomes)@[old(
                slug_outcomes,
            )@.len() + k]).0@ == chunk@[k]@ && outcome_copied(
                final(slug_outcomes)@[old(slug_outcomes)@.len() + k].1,
                outcome_for(fetched@, chunk@[k]@),
            ),
{
    let ghost before = slug_outcomes@;
    let mut i: usize = 0;
    while i < chunk.len()
        invariant
            i <= chunk@.len(),
            before == old(slug_outcomes)@,
            slug_outcomes@.len() == before.len() + i,
            forall|k: int| 0 <= k < before.len() ==> slug_outcomes@[k] == before[k],
            forall|k: int|
                0 <= k < i ==> (#[trigger] slug_outcomes@[before.len() + k]).0@ == chunk@[k]@
                    && outcome_copied(
                    slug_outcomes@[before.len() + k].1,
                    outcome_for(fetched@, chunk@[k]@),
                ),
        decreases chunk@.len() - i,
    {
        let outcome = match find_outcome(fetched, chunk[i].as_str()) {
            Some(index) => match &fetched[index].1 {
                SlugFetchOutcome::Found(market) => SlugFetchOutcome::Found(market.clone()),
                SlugFetchOutcome::TransportError(message) => SlugFetchOutcome::TransportError(
                    message.clone(),
                ),
                SlugFetchOutcome::Missing => SlugFetchOutcome::Missing,
            },
            None => SlugFetchOutcome::Missing,
        };
        assert(outcome_copied(outcome, outcome_for(fetched@, chunk@[i as int]@)));
        slug_outcomes.push((chunk[i].clone(), outcome));
        i = i + 1;
    }
}

/// The batch with the given number, counted from zero, of a list of slugs
/// that is cut into batches of `size`: the last batch may be shorter.
pub open spec fn batch_spec(slugs: Seq<Seq<char>>, size: int, number: int) -> Seq<Seq<char>> {
    let from = number * size;
    let to = if from + size < slugs.len() {
        from + size
    } else {
        slugs.len() as int
    };
    slugs.subrange(from, to)
}

/// Whether a list of slugs is one of the batches that the distinct slugs of
/// the keys are cut into.
pub open spec fn is_batch(keys: Seq<DiscoveryKey>, size: int, chunk: Seq<Seq<char>>) -> bool {
    exists|number: int|
        0 <= number && number * size < unique_slugs_spec(keys).len() && chunk
            == #[trigger] batch_spec(unique_slugs_spec(keys), size, number)
}

/// Whether an outcome was recorded from an answer of the fetcher: the
/// fetcher, handed the batch that holds the slug, gave an answer, and the
/// outcome is a copy of what that answer says of the slug.
pub open spec fn answered<M: Clone, F>(
    fetcher: F,
    keys: Seq<DiscoveryKey>,
    size: int,
    slug: Seq<char>,
    outcome: SlugFetchOutcome<M>,
) -> bool where
    F: FnMut(&Vec<String>) -> Result<Vec<(String, SlugFetchOutcome<M>)>, DiscoveryError>,
 {
    exists|chunk: &Vec<String>, fetched: Vec<(String, SlugFetchOutcome<M>)>|
        #[trigger] call_ensures(
            fetcher,
            (chunk,),
            Ok::<Vec<(String, SlugFetchOutcome<M>)>, DiscoveryError>(fetched),
        ) && is_batch(keys, size, chunk.deep_view()) && chunk.deep_view().contains(slug)
            && outcome_copied(outcome, outcome_for(fetched@, slug))
}

/// Whether the fetcher fails on none of the batches.
pub open spec fn never_fails<M, F>(fetcher: F, keys: Seq<DiscoveryKey>, size: int) -> bool where
    F: FnMut(&Vec<String>) -> Result<Vec<(String, SlugFetchOutcome<M>)>, DiscoveryError>,
 {
    forall|chunk: &Vec<String>, answer: Result<Vec<(String, SlugFetchOutcome<M>)>, DiscoveryError>|
        #[trigger] call_ensures(fetcher, (chunk,), answer) && is_batch(
            keys,
            size,
            chunk.deep_view(),
        ) ==> answer is Ok
}

/// Whether the fetcher gave an error on one of the batches.
pub open spec fn failed_with<M, F>(
    fetcher: F,
    keys: Seq<DiscoveryKey>,
    size: int,
    error: DiscoveryError,
) -> bool where
    F: FnMut(&Vec<String>) -> Result<Vec<(String, SlugFetchOutcome<M>)>, DiscoveryError>,
 {
    exists|chunk: &Vec<String>|
        #[trigger] call_ensures(
            fetcher,
            (chunk,),
            Err::<Vec<(String, SlugFetchOutcome<M>)>, DiscoveryError>(error),
        ) && is_batch(keys, size, chunk.deep_view())
}

/// The slug of every key is among the distinct slugs.
proof fn lemma_unique_slugs_hold_every_slug(keys: Seq<DiscoveryKey>, i: int)
    requires
        0 <= i < keys.len(),
    ensures
        unique_slugs_spec(keys).contains(keys[i].slug@),
    decreases keys.len(),
{
    let before = unique_slugs_spec(keys.drop_last());
    let all = unique_slugs_spec(keys);
    if i < keys.len() - 1 {
        lemma_unique_slugs_hold_every_slug(keys.drop_last(), i);
        assert(keys.drop_last()[i] == keys[i]);
        let k = choose|k: int| 0 <= k < before.len() && before[k] == keys[i].slug@;
        assert(all[k] == keys[i].slug@);
    } else {
        if before.contains(keys.last().slug@) {
        } else {
            assert(all[all.len() - 1] == keys[i].slug@);
        }
    }
}

/// No slug occurs twice among the distinct slugs.
pub proof fn lemma_unique_slugs_are_distinct(keys: Seq<DiscoveryKey>)
    ensures
        forall|i: int, j: int|
            0 <= i < j < unique_slugs_spec(keys).len() ==> unique_slugs_spec(keys)[i]
                != unique_slugs_spec(keys)[j],
    decreases keys.len(),
{
    if keys.len() > 0 {
        lemma_unique_slugs_are_distinct(keys.drop_last());
        let before = unique_slugs_spec(keys.drop_last());
        let all = unique_slugs_spec(keys);
        assert forall|i: int, j: int| 0 <= i < j < all.len() implies all[i] != all[j] by {
            if j < before.len() {
                assert(all[i] == before[i] && all[j] == before[j]);
            } else {
                assert(all[i] == before[i]);
                assert(!before.contains(all[j]));
            }
        }
    }
}

/// Every key's slug is handed to the fetcher in one batch and in no other:
/// the batches cut the distinct slugs, in the order of first occurrence,
/// into runs of the batch size.
pub proof fn lemma_slug_is_in_one_batch(keys: Seq<DiscoveryKey>, size: int, i: int)
    requires
        size > 0,
        0 <= i < keys.len(),
    ensures
        exists|number: int|
            0 <= number && number * size < unique_slugs_spec(keys).len() && (#[trigger] batch_spec(
                unique_slugs_spec(keys),
                size,
                number,
            )).contains(keys[i].slug@),
        forall|a: int, b: int|
            0 <= a && a * size < unique_slugs_spec(keys).len() && 0 <= b && b * size
                < unique_slugs_spec(keys).len() && (#[trigger] batch_spec(
                unique_slugs_spec(keys),
                size,
                a,
            )).contains(keys[i].slug@) && (#[trigger] batch_spec(
                unique_slugs_spec(keys),
                size,
                b,
            )).contains(keys[i].slug@) ==> a == b,
{
    let all = unique_slugs_spec(keys);
    let slug = keys[i].slug@;
    lemma_unique_slugs_hold_every_slug(keys, i);
    lemma_unique_slugs_are_distinct(keys);
    let u = choose|u: int| 0 <= u < all.len() && all[u] == slug;
    let number = u / size;
    vstd::arithmetic::div_mod::lemma_fundamental_div_mod(u, size);
    vstd::arithmetic::div_mod::lemma_mod_bound(u, size);
    assert(number * size == size * number) by (nonlinear_arith);
    assert(0 <= number) by (nonlinear_arith)
        requires
            number == u / size,
            u >= 0,
            size > 0,
    ;
    assert(batch_spec(all, size, number)[u - number * size] == slug);
    assert forall|a: int, b: int|
        0 <= a && a * size < all.len() && 0 <= b && b * size < all.len() && (#[trigger] batch_spec(
            all,
            size,
            a,
        )).contains(slug) && (#[trigger] batch_spec(all, size, b)).contains(slug) implies a
        == b by {
        lemma_batch_of_slug(all, size, a, slug, u);
        lemma_batch_of_slug(all, size, b, slug, u);
    }
}

/// A batch that holds the slug at place `u` of a list without repetition is
/// the batch numbered `u / size`.
proof fn lemma_batch_of_slug(all: Seq<Seq<char>>, size: int, number: int, slug: Seq<char>, u: int)
    requires
        size > 0,
        0 <= number,
        number * size < all.len(),
        0 <= u < all.len(),
        all[u] == slug,
        forall|i: int, j: int| 0 <= i < j < all.len() ==> all[i] != all[j],
        batch_spec(all, size, number).contains(slug),
    ensures
        number == u / size,
{
    let batch = batch_spec(all, size, number);
    let q = choose|q: int| 0 <= q < batch.len() && batch[q] == slug;
    assert(0 <= number * size) by (nonlinear_arith)
        requires
            0 <= number,
            size > 0,
    ;
    let v = number * size + q;
    assert(all[v] == slug);
    assert(v == u) by {
        if v < u {
            assert(all[v] != all[u]);
        } else if u < v {
            assert(all[u] != all[v]);
        }
    }
    vstd::arithmetic::div_mod::lemma_fundamental_div_mod_converse(u, size, number, q);
}

/// A slug that was recorded has a last record.
proof fn lemma_recorded_slug_is_found<M>(
    outcomes: Seq<(String, SlugFetchOutcome<M>)>,
    slug: Seq<char>,
    n: nat,
    k: int,
)
    requires
        n <= outcomes.len(),
        0 <= k < n,
        outcomes[k].0@ == slug,
    ensures
        outcome_index(outcomes, slug, n) is Some,
        0 <= outcome_index(outcomes, slug, n)->Some_0 < n,
        outcomes[outcome_index(outcomes, slug, n)->Some_0].0@ == slug,
    decreases n,
{
    if outcomes[n - 1].0@ != slug {
        lemma_recorded_slug_is_found(outcomes, slug, (n - 1) as nat, k);
    }
}

/// Resolves keys against a catalog. The distinct slugs of the keys are
/// handed to `fetcher` in batches of `cfg.batch_size`, in the order of first
/// occurrence; a slug that a batch's answer does not mention counts as
/// missing. The rows come back one per key, in the order of the keys, each
/// with the status that the fetcher's answer for the batch of its slug
/// resolves to. A batch size of zero is refused before anything is fetched;
/// apart from that the resolution fails only with an error that the fetcher
/// gave on a batch, and succeeds if the fetcher fails on none.
pub fn resolve_discovery_batch_with_fetcher<M: Clone, F>(
    keys: &[DiscoveryKey],
    cfg: &DiscoveryConfig,
    fetcher: F,
) -> (r: Result<Vec<DiscoveryRow<M>>, DiscoveryError>) where
    F: FnMut(&Vec<String>) -> Result<Vec<(String, SlugFetchOutcome<M>)>, DiscoveryError>,

    requires
        forall|slugs: &Vec<String>| call_requires(fetcher, (slugs,)),
    ensures
        cfg.batch_size == 0 ==> r is Err && r->Err_0@ == DiscoveryErrorView::InvalidBatchSize,
        cfg.batch_size > 0 && r is Err ==> failed_with(
            fetcher,
            keys@,
            cfg.batch_size as int,
            r->Err_0,
        ),
        cfg.batch_size > 0 && (keys@.len() == 0 || never_fails(
            fetcher,
            keys@,
            cfg.batch_size as int,
        )) ==> r is Ok,
        r is Ok ==> r->Ok_0@.len() == keys@.len() && forall|i: int|
            0 <= i < keys@.len() ==> (#[trigger] r->Ok_0@[i]).key@ == keys@[i]@ && exists|
                recorded: SlugFetchOutcome<M>,
            |
                #[trigger] answered(
                    fetcher,
                    keys@,
                    cfg.batch_size as int,
                    keys@[i].slug@,
                    recorded,
                ) && status_of(r->Ok_0@[i].status, Some(recorded)),
{
    if cfg.batch_size == 0 {
        return Err(DiscoveryError::InvalidBatchSize);
    }
    let mut ask = fetcher;
    let unique_slugs = ordered_unique_slugs(keys);
    let ghost size = cfg.batch_size as int;
    let ghost mut number: int = 0;
    assert(unique_slugs.deep_view().len() == unique_slugs@.len());
    let mut slug_outcomes: Vec<(String, SlugFetchOutcome<M>)> = Vec::new();
    let mut from: usize = 0;
    while from < unique_slugs.len()
        invariant
            from <= unique_slugs@.len(),
            size == cfg.batch_size > 0,
            0 <= number,
            from < unique_slugs@.len() ==> from == number * size,
            ask == fetcher,
            forall|slugs: &Vec<String>| call_requires(fetcher, (slugs,)),
            unique_slugs.deep_view() == unique_slugs_spec(keys@),
            unique_slugs.deep_view().len() == unique_slugs@.len(),
            slug_outcomes@.len() == from,
            forall|k: int|
                0 <= k < from ==> (#[trigger] slug_outcomes@[k]).0@ == unique_slugs@[k]@
                    && answered(fetcher, keys@, size, slug_outcomes@[k].0@, slug_outcomes@[k].1),
        decreases unique_slugs@.len() - from,
    {
        let to = if unique_slugs.len() - from > cfg.batch_size {
            from + cfg.batch_size
        } else {
            unique_slugs.len()
        };
        let chunk = copy_slugs(&unique_slugs, from, to);
        assert(chunk.deep_view().len() == chunk@.len());
        assert(chunk@.len() == to - from);
        assert(is_batch(keys@, size, chunk.deep_view())) by {
            assert(chunk.deep_view() == batch_spec(unique_slugs_spec(keys@), size, number));
        }
        let answer = ask(&chunk);
        assert(call_ensures(fetcher, (&chunk,), answer));
        let fetched = match answer {
            Ok(fetched) => fetched,
            Err(e) => {
                assert(failed_with(fetcher, keys@, size, e));
                assert(keys@.len() > 0) by {
                    if keys@.len() == 0 {
                        assert(unique_slugs_spec(keys@).len() == 0);
                    }
                }
                return Err(e);
            },
        };
        let ghost before = slug_outcomes@;
        record_outcomes(&mut slug_outcomes, &chunk, &fetched);
        proof {
            assert forall|k: int| 0 <= k < to implies (#[trigger] slug_outcomes@[k]).0@
                == unique_slugs@[k]@ && answered(
                fetcher,
                keys@,
                size,
                slug_outcomes@[k].0@,
                slug_outcomes@[k].1,
            ) by {
                if k < from {
                    assert(slug_outcomes@[k] == before[k]);
                } else {
                    let j = k - from;
                    assert(slug_outcomes@[before.len() + j].0@ == chunk@[j]@);
                    assert(chunk.deep_view()[j] == chunk@[j]@);
                    assert(chunk.deep_view()[j] == unique_slugs.deep_view()[from + j]);
                    assert(chunk.deep_view().contains(chunk@[j]@));
                }
            }
            assert((number + 1) * size == number * size + size) by (nonlinear_arith);
            number = number + 1;
        }
        from = to;
    }
    let rows = materialize_rows(keys, &slug_outcomes);
    proof {
        assert forall|i: int| 0 <= i < keys@.len() implies (#[trigger] rows@[i]).key@ == keys@[i]@
            && exists|recorded: SlugFetchOutcome<M>|
            #[trigger] answered(fetcher, keys@, size, keys@[i].slug@, recorded) && status_of(
                rows@[i].status,
                Some(recorded),
            ) by {
            let slug = keys@[i].slug@;
            lemma_unique_slugs_hold_every_slug(keys@, i);
            let u = choose|u: int|
                0 <= u < unique_slugs.deep_view().len() && unique_slugs.deep_view()[u] == slug;
            assert(slug_outcomes@[u].0@ == unique_slugs@[u]@);
            lemma_recorded_slug_is_found(slug_outcomes@, slug, slug_outcomes@.len(), u);
            let found = outcome_index(slug_outcomes@, slug, slug_outcomes@.len())->Some_0;
            let recorded = slug_outcomes@[found].1;
            assert(answered(fetcher, keys@, size, slug_outcomes@[found].0@, recorded));
            assert(outcome_for(slug_outcomes@, slug) == Some(recorded));
            assert(rows@[i].key@ == keys@[i]@);
        }
    }
    Ok(rows)
}

} // verus!

verus! {

/// Whether every recorded outcome is a transport error.
pub open spec fn all_transport<M>(outcomes: Seq<(String, SlugFetchOutcome<M>)>) -> bool {
    forall|i: int| 0 <= i < outcomes.len() ==> (#[trigger] outcomes[i]).1 is TransportError
}

fn lookups_all_failed<M>(outcomes: &Vec<(String, SlugFetchOutcome<M>)>) -> (r: bool)
    ensures
        r == all_transport(outcomes@),
{
    let mut i: usize = 0;
    while i < outcomes.len()
        invariant
            i <= outcomes@.len(),
            forall|k: int| 0 <= k < i ==> (#[trigger] outcomes@[k]).1 is TransportError,
        decreases outcomes@.len() - i,
    {
        match &outcomes[i].1 {
            SlugFetchOutcome::TransportError(_) => {},
            _ => {
                return false;
            },
        }
        i = i + 1;
    }
    true
}

/// Ends a resolution: where there are keys and every lookup failed in
/// transport, the resolution as a whole fails; else every key gets its row.
pub fn finish_resolution<M: Clone>(
    keys: &[DiscoveryKey],
    slug_outcomes: &Vec<(String, SlugFetchOutcome<M>)>,
) -> (r: Result<Vec<DiscoveryRow<M>>, DiscoveryError>)
    ensures
        if keys@.len() > 0 && all_transport(slug_outcomes@) {
            r is Err && r->Err_0@ == DiscoveryErrorView::Transport(
                "all slug lookups failed with transport errors"@,
            )
        } else {
            &&& r is Ok
            &&& r->Ok_0@.len() == keys@.len()
            &&& forall|i: int|
                0 <= i < keys@.len() ==> (#[trigger] r->Ok_0@[i]).key@ == keys@[i]@ && status_of(
                    r->Ok_0@[i].status,
                    outcome_for(slug_outcomes@, keys@[i].slug@),
                )
        },
{
    if keys.len() > 0 && lookups_all_failed(slug_outcomes) {
        return Err(
            DiscoveryError::Transport("all slug lookups failed with transport errors".to_string()),
        );
    }
    Ok(materialize_rows(keys, slug_outcomes))
}

/// What follows a failed lookup with `attempt` retries made so far: the
/// failure is final once the configured retries were made; else one more
/// follows its delay.
pub open spec fn lookup_retry_spec(cfg: DiscoveryConfig, attempt: u32) -> crate::sync::RetryDecision {
    if attempt >= cfg.max_retries {
        crate::sync::RetryDecision::GiveUp
    } else {
        crate::sync::RetryDecision::Retry {
            attempt: (attempt + 1) as u32,
            sleep_ms: crate::sync::backoff_ms_spec(cfg.retry_backoff_ms, (attempt + 1) as u32),
        }
    }
}

pub fn lookup_retry(cfg: &DiscoveryConfig, attempt: u32) -> (d: crate::sync::RetryDecision)
    ensures
        d == lookup_retry_spec(*cfg, attempt),
{
    if attempt >= cfg.max_retries {
        crate::sync::RetryDecision::GiveUp
    } else {
        let next = attempt + 1;
        crate::sync::RetryDecision::Retry {
            attempt: next,
            sleep_ms: crate::sync::backoff_duration(cfg.retry_backoff_ms, next),
        }
    }
}

/// The complaint about a lookup that ran out of time.
pub fn timeout_message(timeout_ms: u64, slug: &str) -> (message: String)
    ensures
        message@ == "timeout after "@ + crate::text::decimal_digits(timeout_ms as nat)
            + "ms while resolving slug "@ + slug@,
{
    let mut message = String::new();
    message.append("timeout after ");
    crate::text::push_u64(&mut message, timeout_ms);
    message.append("ms while resolving slug ");
    message.append(slug);
    assert(message@ =~= "timeout after "@ + crate::text::decimal_digits(timeout_ms as nat)
        + "ms while resolving slug "@ + slug@);
    message
}

} // verus!
