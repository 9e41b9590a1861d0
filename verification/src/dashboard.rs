//! The dashboard's rows, filters and labels.

use vstd::prelude::*;
use vstd::string::*;
use crate::discovery::DiscoveryConfig;
use crate::slug::{Coin, Duration, SlugConfig};
use crate::text::{
    chars_of, is_word, normalize, normalized, same_chars, str_eq, string_from_chars, trim_chars,
    trimmed,
};

verus! {

/// Titles of the dashboard's columns, in display order.
pub const DASHBOARD_HEADERS: [&'static str; 21] = [
    "Link",
    "Coin",
    "Duration",
    "Bets Open",
    "In Interval",
    "End",
    "Ref Price",
    "Price",
    "Probability",
    "Best Bid YES",
    "Best Ask YES",
    "Position Net",
    "Pos YES",
    "Pos NO",
    "Offer YES",
    "Offer NO",
    "Net Profit",
    "Taker Fee %",
    "Maker Fee %",
    "Fee Exp",
    "Reward %",
];

/// Keys of the dashboard's columns, in display order.
pub const DASHBOARD_COLUMN_KEYS: [&'static str; 21] = [
    "link",
    "coin",
    "duration",
    "bets_open",
    "in_interval",
    "end",
    "ref_price",
    "price",
    "probability",
    "best_bid_yes",
    "best_ask_yes",
    "position_net",
    "pos_yes",
    "pos_no",
    "offer_yes",
    "offer_no",
    "net_profit",
    "taker_fee_pct",
    "maker_fee_pct",
    "fee_exponent",
    "reward_pct",
];

#[derive(Debug, Clone, PartialEq, Eq)]
pub struct DashboardSnapshot {
    pub rows: Vec<DashboardRow>,
}

/// One market as the dashboard knows it; a value that is not known is `None`.
#[derive(Debug, Clone, PartialEq, Eq)]
pub struct DashboardRow {
    pub slug: String,
    pub coin: String,
    pub duration: String,
    pub start_ts_utc: i64,
    pub end_ts_utc: i64,
    pub bets_open: Option<String>,
    pub in_interval: Option<String>,
    pub end_hhmm: Option<String>,
    pub ref_price: Option<String>,
    pub price: Option<String>,
    pub probability: Option<String>,
    pub best_bid_yes: Option<String>,
    pub best_ask_yes: Option<String>,
    pub position_net: Option<String>,
    pub pos_yes: Option<String>,
    pub pos_no: Option<String>,
    pub offer_yes: Option<String>,
    pub offer_no: Option<String>,
    pub net_profit: Option<String>,
    pub taker_fee_pct: Option<String>,
    pub maker_fee_pct: Option<String>,
    pub fee_exponent: Option<String>,
    pub reward_pct: Option<String>,
    pub mock_columns: Vec<String>,
}

pub open spec fn opt_text(s: Option<String>) -> Option<Seq<char>> {
    match s {
        Some(t) => Some(t@),
        None => None,
    }
}

/// Mathematical content of a [`DashboardRow`].
pub struct DashboardRowView {
    pub slug: Seq<char>,
    pub coin: Seq<char>,
    pub duration: Seq<char>,
    pub start_ts_utc: i64,
    pub end_ts_utc: i64,
    pub bets_open: Option<Seq<char>>,
    pub in_interval: Option<Seq<char>>,
    pub end_hhmm: Option<Seq<char>>,
    pub ref_price: Option<Seq<char>>,
    pub price: Option<Seq<char>>,
    pub probability: Option<Seq<char>>,
    pub best_bid_yes: Option<Seq<char>>,
    pub best_ask_yes: Option<Seq<char>>,
    pub position_net: Option<Seq<char>>,
    pub pos_yes: Option<Seq<char>>,
    pub pos_no: Option<Seq<char>>,
    pub offer_yes: Option<Seq<char>>,
    pub offer_no: Option<Seq<char>>,
    pub net_profit: Option<Seq<char>>,
    pub taker_fee_pct: Option<Seq<char>>,
    pub maker_fee_pct: Option<Seq<char>>,
    pub fee_exponent: Option<Seq<char>>,
    pub reward_pct: Option<Seq<char>>,
    pub mock_columns: Seq<Seq<char>>,
}

impl View for DashboardRow {
    type V = DashboardRowView;

    open spec fn view(&self) -> DashboardRowView {
        DashboardRowView {
            slug: self.slug@,
            coin: self.coin@,
            duration: self.duration@,
            start_ts_utc: self.start_ts_utc,
            end_ts_utc: self.end_ts_utc,
            bets_open: opt_text(self.bets_open),
            in_interval: opt_text(self.in_interval),
            end_hhmm: opt_text(self.end_hhmm),
            ref_price: opt_text(self.ref_price),
            price: opt_text(self.price),
            probability: opt_text(self.probability),
            best_bid_yes: opt_text(self.best_bid_yes),
            best_ask_yes: opt_text(self.best_ask_yes),
            position_net: opt_text(self.position_net),
            pos_yes: opt_text(self.pos_yes),
            pos_no: opt_text(self.pos_no),
            offer_yes: opt_text(self.offer_yes),
            offer_no: opt_text(self.offer_no),
            net_profit: opt_text(self.net_profit),
            taker_fee_pct: opt_text(self.taker_fee_pct),
            maker_fee_pct: opt_text(self.maker_fee_pct),
            fee_exponent: opt_text(self.fee_exponent),
            reward_pct: opt_text(self.reward_pct),
            mock_columns: self.mock_columns.deep_view(),
        }
    }
}

pub open spec fn row_views(rows: Seq<DashboardRow>) -> Seq<DashboardRowView> {
    Seq::new(rows.len(), |i: int| rows[i]@)
}

/// The columns that hold placeholder values until a live source fills them.
pub open spec fn default_mock_columns_spec() -> Seq<Seq<char>> {
    seq![
        "bets_open"@,
        "ref_price"@,
        "price"@,
        "probability"@,
        "best_bid_yes"@,
        "best_ask_yes"@,
        "position_net"@,
        "pos_yes"@,
        "pos_no"@,
        "offer_yes"@,
        "offer_no"@,
        "net_profit"@,
        "taker_fee_pct"@,
        "maker_fee_pct"@,
        "fee_exponent"@,
        "reward_pct"@,
    ]
}

pub fn default_mock_columns() -> (columns: Vec<String>)
    ensures
        columns.deep_view() == default_mock_columns_spec(),
{
    let mut columns: Vec<String> = Vec::new();
    columns.push("bets_open".to_string());
    columns.push("ref_price".to_string());
    columns.push("price".to_string());
    columns.push("probability".to_string());
    columns.push("best_bid_yes".to_string());
    columns.push("best_ask_yes".to_string());
    columns.push("position_net".to_string());
    columns.push("pos_yes".to_string());
    columns.push("pos_no".to_string());
    columns.push("offer_yes".to_string());
    columns.push("offer_no".to_string());
    columns.push("net_profit".to_string());
    columns.push("taker_fee_pct".to_string());
    columns.push("maker_fee_pct".to_string());
    columns.push("fee_exponent".to_string());
    columns.push("reward_pct".to_string());
    assert(columns.deep_view() =~= default_mock_columns_spec());
    columns
}

/// The row of a market of which nothing is known but its identity and times.
pub open spec fn unresolved_row(
    slug: Seq<char>,
    coin: Seq<char>,
    duration: Seq<char>,
    start_ts_utc: i64,
    end_ts_utc: i64,
) -> DashboardRowView {
    DashboardRowView {
        slug,
        coin,
        duration,
        start_ts_utc,
        end_ts_utc,
        bets_open: None,
        in_interval: None,
        end_hhmm: None,
        ref_price: None,
        price: None,
        probability: None,
        best_bid_yes: None,
        best_ask_yes: None,
        position_net: None,
        pos_yes: None,
        pos_no: None,
        offer_yes: None,
        offer_no: None,
        net_profit: None,
        taker_fee_pct: None,
        maker_fee_pct: None,
        fee_exponent: None,
        reward_pct: None,
        mock_columns: default_mock_columns_spec(),
    }
}

fn copy_option(s: &Option<String>) -> (r: Option<String>)
    ensures
        opt_text(r) == opt_text(*s),
{
    match s {
        Some(t) => Some(t.clone()),
        None => None,
    }
}

fn copy_strings(v: &Vec<String>) -> (r: Vec<String>)
    ensures
        r.deep_view() == v.deep_view(),
{
    let mut r: Vec<String> = Vec::new();
    let mut i: usize = 0;
    while i < v.len()
        invariant
            i <= v@.len(),
            r.deep_view() == v.deep_view().take(i as int),
        decreases v@.len() - i,
    {
        let ghost before = r.deep_view();
        r.push(v[i].clone());
        assert(r.deep_view() =~= before.push(v@[i as int]@));
        assert(r.deep_view() =~= v.deep_view().take(i + 1));
        i = i + 1;
    }
    assert(r.deep_view() =~= v.deep_view());
    r
}

pub fn contains_text(items: &Vec<String>, text: &str) -> (r: bool)
    ensures
        r == items.deep_view().contains(text@),
{
    let mut i: usize = 0;
    while i < items.len()
        invariant
            i <= items@.len(),
            forall|k: int| 0 <= k < i ==> items.deep_view()[k] != text@,
        decreases items@.len() - i,
    {
        if str_eq(items[i].as_str(), text) {
            assert(items.deep_view()[i as int] == text@);
            return true;
        }
        i = i + 1;
    }
    false
}

impl DashboardRow {
    pub fn unresolved(slug: &str, coin: &str, duration: &str) -> (row: DashboardRow)
        ensures
            row@ == unresolved_row(slug@, coin@, duration@, 0, 0),
    {
        DashboardRow::unresolved_with_times(slug, coin, duration, 0, 0)
    }

    pub fn unresolved_with_times(
        slug: &str,
        coin: &str,
        duration: &str,
        start_ts_utc: i64,
        end_ts_utc: i64,
    ) -> (row: DashboardRow)
        ensures
            row@ == unresolved_row(slug@, coin@, duration@, start_ts_utc, end_ts_utc),
    {
        DashboardRow {
            slug: slug.to_string(),
            coin: coin.to_string(),
            duration: duration.to_string(),
            start_ts_utc,
            end_ts_utc,
            bets_open: None,
            in_interval: None,
            end_hhmm: None,
            ref_price: None,
            price: None,
            probability: None,
            best_bid_yes: None,
            best_ask_yes: None,
            position_net: None,
            pos_yes: None,
            pos_no: None,
            offer_yes: None,
            offer_no: None,
            net_profit: None,
            taker_fee_pct: None,
            maker_fee_pct: None,
            fee_exponent: None,
            reward_pct: None,
            mock_columns: default_mock_columns(),
        }
    }

    /// Whether a column of this row holds a placeholder value.
    pub fn is_mock_column(&self, column_key: &str) -> (r: bool)
        ensures
            r == self@.mock_columns.contains(column_key@),
    {
        contains_text(&self.mock_columns, column_key)
    }

    pub fn duplicate(&self) -> (row: DashboardRow)
        ensures
            row@ == self@,
    {
        DashboardRow {
            slug: self.slug.clone(),
            coin: self.coin.clone(),
            duration: self.duration.clone(),
            start_ts_utc: self.start_ts_utc,
            end_ts_utc: self.end_ts_utc,
            bets_open: copy_option(&self.bets_open),
            in_interval: copy_option(&self.in_interval),
            end_hhmm: copy_option(&self.end_hhmm),
            ref_price: copy_option(&self.ref_price),
            price: copy_option(&self.price),
            probability: copy_option(&self.probability),
            best_bid_yes: copy_option(&self.best_bid_yes),
            best_ask_yes: copy_option(&self.best_ask_yes),
            position_net: copy_option(&self.position_net),
            pos_yes: copy_option(&self.pos_yes),
            pos_no: copy_option(&self.pos_no),
            offer_yes: copy_option(&self.offer_yes),
            offer_no: copy_option(&self.offer_no),
            net_profit: copy_option(&self.net_profit),
            taker_fee_pct: copy_option(&self.taker_fee_pct),
            maker_fee_pct: copy_option(&self.maker_fee_pct),
            fee_exponent: copy_option(&self.fee_exponent),
            reward_pct: copy_option(&self.reward_pct),
            mock_columns: copy_strings(&self.mock_columns),
        }
    }
}

#[derive(Debug, Clone, PartialEq, Eq)]
pub struct DashboardDisplaySnapshot {
    pub now_ts_utc: i64,
    pub rows: Vec<DashboardDisplayRow>,
}

/// One market as the dashboard shows it.
#[derive(Debug, Clone, PartialEq, Eq)]
pub struct DashboardDisplayRow {
    pub slug: String,
    pub link_url: String,
    pub coin: String,
    pub duration: String,
    pub start_ts_utc: i64,
    pub end_ts_utc: i64,
    pub bets_open: String,
    pub in_interval: String,
    pub end_hhmm: String,
    pub ref_price: String,
    pub price: String,
    pub probability: String,
    pub best_bid_yes: String,
    pub best_ask_yes: String,
    pub position_net: String,
    pub pos_yes: String,
    pub pos_no: String,
    pub offer_yes: String,
    pub offer_no: String,
    pub net_profit: String,
    pub taker_fee_pct: String,
    pub maker_fee_pct: String,
    pub fee_exponent: String,
    pub reward_pct: String,
    pub mock_columns: Vec<String>,
}

/// The values of the dashboard's filter parameters, as they were given.
#[derive(Debug, Clone, PartialEq, Eq)]
pub struct DashboardQuery {
    pub coin: Vec<String>,
    pub duration: Vec<String>,
    pub bets_open: Vec<String>,
    pub in_interval: Vec<String>,
}

impl Default for DashboardQuery {
    fn default() -> (q: Self)
        ensures
            q.coin@.len() == 0,
            q.duration@.len() == 0,
            q.bets_open@.len() == 0,
            q.in_interval@.len() == 0,
    {
        DashboardQuery {
            coin: Vec::new(),
            duration: Vec::new(),
            bets_open: Vec::new(),
            in_interval: Vec::new(),
        }
    }
}

#[derive(Debug, Clone, Copy, PartialEq, Eq, Hash, Structural)]
pub enum BetsOpenFilter {
    Open,
    Closed,
}

#[derive(Debug, Clone, Copy, PartialEq, Eq, Hash, Structural)]
pub enum InIntervalFilter {
    Yes,
    No,
}

/// What the dashboard shows: the selected coins and durations, and the
/// selected states of betting and of the interval. Each list holds a value
/// at most once.
#[derive(Debug, Clone, PartialEq, Eq)]
pub struct DashboardFilters {
    pub coins: Vec<String>,
    pub durations: Vec<String>,
    pub bets_open: Vec<BetsOpenFilter>,
    pub in_interval: Vec<InIntervalFilter>,
}

/// A source of dashboard snapshots.
pub trait DashboardSnapshotSource: Send + Sync + 'static {
    fn snapshot(&self) -> DashboardSnapshot;
}

/// How a live source refreshes its snapshot.
#[derive(Debug, Clone, Copy, PartialEq, Eq, Structural)]
pub struct LiveDiscoveryConfig {
    pub refresh_interval_ms: u64,
    pub slug_config: SlugConfig,
    pub discovery_config: DiscoveryConfig,
}

pub open spec fn market_link_spec(slug: Seq<char>) -> Seq<char> {
    "https://polymarket.com/event/"@ + slug
}

/// The address of a market's page.
pub fn market_link(slug: &str) -> (link: String)
    ensures
        link@ == market_link_spec(slug@),
{
    let mut link = String::new();
    link.append("https://polymarket.com/event/");
    link.append(slug);
    assert(link@ =~= market_link_spec(slug@));
    link
}

/// Whether an instant lies in an interval, the start included and the end
/// excluded.
pub fn compute_in_interval(now_ts_utc: i64, start_ts_utc: i64, end_ts_utc: i64) -> (r: bool)
    ensures
        r == (start_ts_utc <= now_ts_utc < end_ts_utc),
{
    start_ts_utc <= now_ts_utc && now_ts_utc < end_ts_utc
}

pub open spec fn coin_label_spec(coin: Coin) -> Seq<char> {
    match coin {
        Coin::Btc => "BTC"@,
        Coin::Eth => "ETH"@,
        Coin::Sol => "SOL"@,
        Coin::Xrp => "XRP"@,
    }
}

pub fn coin_label(coin: Coin) -> (s: &'static str)
    ensures
        s@ == coin_label_spec(coin),
{
    match coin {
        Coin::Btc => "BTC",
        Coin::Eth => "ETH",
        Coin::Sol => "SOL",
        Coin::Xrp => "XRP",
    }
}

pub open spec fn duration_label_spec(duration: Duration) -> Seq<char> {
    match duration {
        Duration::M5 => "5m"@,
        Duration::M15 => "15m"@,
        Duration::H1 => "1h"@,
        Duration::H4 => "4h"@,
        Duration::D1 => "1d"@,
    }
}

pub fn duration_label(duration: Duration) -> (s: &'static str)
    ensures
        s@ == duration_label_spec(duration),
{
    match duration {
        Duration::M5 => "5m",
        Duration::M15 => "15m",
        Duration::H1 => "1h",
        Duration::H4 => "4h",
        Duration::D1 => "1d",
    }
}

} // verus!

verus! {

pub open spec fn option_views(options: Seq<&'static str>) -> Seq<Seq<char>> {
    Seq::new(options.len(), |i: int| options[i]@)
}

/// The first of the first `n` allowed values whose normal form is `norm`.
pub open spec fn canonical_of(allowed: Seq<Seq<char>>, norm: Seq<char>, n: nat) -> Option<
    Seq<char>,
>
    decreases n,
{
    if n == 0 {
        None
    } else {
        match canonical_of(allowed, norm, (n - 1) as nat) {
            Some(t) => Some(t),
            None => if normalized(allowed[n - 1]) == norm {
                Some(allowed[n - 1])
            } else {
                None
            },
        }
    }
}

/// The allowed values that the first `n` entries name, each once, in the
/// order in which they are first named.
pub open spec fn selection(input: Seq<Seq<char>>, allowed: Seq<Seq<char>>, n: nat) -> Seq<
    Seq<char>,
>
    decreases n,
{
    if n == 0 {
        Seq::empty()
    } else {
        let acc = selection(input, allowed, (n - 1) as nat);
        match canonical_of(allowed, normalized(input[n - 1]), allowed.len()) {
            Some(t) => if acc.contains(t) {
                acc
            } else {
                acc.push(t)
            },
            None => acc,
        }
    }
}

/// The values selected by a filter parameter: every allowed value where
/// the parameter is absent; else the allowed values that its entries name,
/// compared without surrounding white space and without regard to case.
pub open spec fn parse_set_or_all_spec(input: Seq<Seq<char>>, allowed: Seq<Seq<char>>) -> Seq<
    Seq<char>,
> {
    if input.len() == 0 {
        allowed
    } else {
        selection(input, allowed, input.len())
    }
}

fn find_canonical(allowed: &[&'static str], norm: &Vec<char>) -> (r: Option<usize>)
    ensures
        match r {
            Some(i) => i < allowed@.len() && canonical_of(
                option_views(allowed@),
                norm@,
                allowed@.len(),
            ) == Some(allowed@[i as int]@),
            None => canonical_of(option_views(allowed@), norm@, allowed@.len()) is None,
        },
{
    let mut i: usize = 0;
    while i < allowed.len()
        invariant
            i <= allowed@.len(),
            canonical_of(option_views(allowed@), norm@, i as nat) is None,
        decreases allowed@.len() - i,
    {
        let candidate = normalize(allowed[i]);
        if same_chars(&candidate, norm) {
            proof {
                lemma_canonical_stable(option_views(allowed@), norm@, (i + 1) as nat, allowed@.len());
            }
            return Some(i);
        }
        i = i + 1;
    }
    None
}

proof fn lemma_canonical_stable(allowed: Seq<Seq<char>>, norm: Seq<char>, n: nat, m: nat)
    requires
        n <= m,
        canonical_of(allowed, norm, n) is Some,
    ensures
        canonical_of(allowed, norm, m) == canonical_of(allowed, norm, n),
    decreases m,
{
    if n < m {
        lemma_canonical_stable(allowed, norm, n, (m - 1) as nat);
    }
}

pub fn parse_set_or_all(input: &Vec<String>, allowed: &[&'static str]) -> (out: Vec<String>)
    ensures
        out.deep_view() == parse_set_or_all_spec(input.deep_view(), option_views(allowed@)),
{
    let mut out: Vec<String> = Vec::new();
    if input.len() == 0 {
        let mut k: usize = 0;
        while k < allowed.len()
            invariant
                k <= allowed@.len(),
                out.deep_view() == option_views(allowed@).take(k as int),
            decreases allowed@.len() - k,
        {
            let ghost before = out.deep_view();
            out.push(allowed[k].to_string());
            assert(out.deep_view() =~= before.push(allowed@[k as int]@));
            assert(out.deep_view() =~= option_views(allowed@).take(k + 1));
            k = k + 1;
        }
        assert(out.deep_view() =~= option_views(allowed@));
        return out;
    }
    let mut i: usize = 0;
    assert(out.deep_view() =~= selection(input.deep_view(), option_views(allowed@), 0));
    while i < input.len()
        invariant
            i <= input@.len(),
            out.deep_view() == selection(input.deep_view(), option_views(allowed@), i as nat),
        decreases input@.len() - i,
    {
        let norm = normalize(input[i].as_str());
        assert(input.deep_view()[i as int] == input@[i as int]@);
        match find_canonical(allowed, &norm) {
            Some(index) => {
                if !contains_text(&out, allowed[index]) {
                    let ghost before = out.deep_view();
                    out.push(allowed[index].to_string());
                    assert(out.deep_view() =~= before.push(allowed@[index as int]@));
                }
            },
            None => {},
        }
        i = i + 1;
    }
    out
}

pub open spec fn bets_open_value_spec(value: Option<Seq<char>>) -> Option<BetsOpenFilter> {
    match value {
        Some(v) => if normalized(v) == "open"@ {
            Some(BetsOpenFilter::Open)
        } else if normalized(v) == "closed"@ {
            Some(BetsOpenFilter::Closed)
        } else {
            None
        },
        None => None,
    }
}

pub fn parse_bets_open_value(value: Option<&str>) -> (r: Option<BetsOpenFilter>)
    ensures
        r == bets_open_value_spec(
            match value {
                Some(v) => Some(v@),
                None => None,
            },
        ),
{
    match value {
        Some(v) => {
            let norm = normalize(v);
            if is_word(&norm, "open") {
                Some(BetsOpenFilter::Open)
            } else if is_word(&norm, "closed") {
                Some(BetsOpenFilter::Closed)
            } else {
                None
            }
        },
        None => None,
    }
}

pub open spec fn in_interval_value_spec(value: Seq<char>) -> Option<InIntervalFilter> {
    if normalized(value) == "yes"@ {
        Some(InIntervalFilter::Yes)
    } else if normalized(value) == "no"@ {
        Some(InIntervalFilter::No)
    } else {
        None
    }
}

fn parse_in_interval_value(value: &str) -> (r: Option<InIntervalFilter>)
    ensures
        r == in_interval_value_spec(value@),
{
    let norm = normalize(value);
    if is_word(&norm, "yes") {
        Some(InIntervalFilter::Yes)
    } else if is_word(&norm, "no") {
        Some(InIntervalFilter::No)
    } else {
        None
    }
}

/// Whether some entry of a filter parameter names the given state of
/// betting.
pub open spec fn names_bets_open(input: Seq<Seq<char>>, value: BetsOpenFilter) -> bool {
    exists|i: int| 0 <= i < input.len() && bets_open_value_spec(Some(#[trigger] input[i])) == Some(value)
}

pub open spec fn names_in_interval(input: Seq<Seq<char>>, value: InIntervalFilter) -> bool {
    exists|i: int| 0 <= i < input.len() && in_interval_value_spec(#[trigger] input[i]) == Some(value)
}

/// The states of betting that a filter parameter selects: both where it is
/// absent, else those that its entries name.
pub fn parse_bets_open(input: &Vec<String>) -> (out: Vec<BetsOpenFilter>)
    ensures
        forall|v: BetsOpenFilter|
            out@.contains(v) <==> (input@.len() == 0 || names_bets_open(input.deep_view(), v)),
        out@.no_duplicates(),
{
    let mut out: Vec<BetsOpenFilter> = Vec::new();
    if input.len() == 0 {
        out.push(BetsOpenFilter::Open);
        out.push(BetsOpenFilter::Closed);
        assert forall|v: BetsOpenFilter| out@.contains(v) by {
            match v {
                BetsOpenFilter::Open => {
                    assert(out@[0] == v);
                },
                BetsOpenFilter::Closed => {
                    assert(out@[1] == v);
                },
            }
        }
        return out;
    }
    let mut has_open = false;
    let mut has_closed = false;
    let mut i: usize = 0;
    while i < input.len()
        invariant
            i <= input@.len(),
            has_open <==> names_bets_open(input.deep_view().take(i as int), BetsOpenFilter::Open),
            has_closed <==> names_bets_open(
                input.deep_view().take(i as int),
                BetsOpenFilter::Closed,
            ),
            out@.no_duplicates(),
            forall|v: BetsOpenFilter|
                out@.contains(v) <==> (match v {
                    BetsOpenFilter::Open => has_open,
                    BetsOpenFilter::Closed => has_closed,
                }),
        decreases input@.len() - i,
    {
        let ghost shorter = input.deep_view().take(i as int);
        let ghost longer = input.deep_view().take(i + 1);
        let parsed = parse_bets_open_value(Some(input[i].as_str()));
        proof {
            assert(longer[i as int] == input@[i as int]@);
            assert forall|v: BetsOpenFilter|
                names_bets_open(longer, v) <==> (names_bets_open(shorter, v) || parsed == Some(
                    v,
                )) by {
                if names_bets_open(longer, v) {
                    let k = choose|k: int|
                        0 <= k < longer.len() && bets_open_value_spec(Some(#[trigger] longer[k]))
                            == Some(v);
                    if k < i {
                        assert(shorter[k] == longer[k]);
                    }
                }
                if names_bets_open(shorter, v) {
                    let k = choose|k: int|
                        0 <= k < shorter.len() && bets_open_value_spec(
                            Some(#[trigger] shorter[k]),
                        ) == Some(v);
                    assert(longer[k] == shorter[k]);
                }
            }
        }
        let ghost before = out@;
        match parsed {
            Some(BetsOpenFilter::Open) => {
                if !has_open {
                    out.push(BetsOpenFilter::Open);
                    has_open = true;
                }
            },
            Some(BetsOpenFilter::Closed) => {
                if !has_closed {
                    out.push(BetsOpenFilter::Closed);
                    has_closed = true;
                }
            },
            None => {},
        }
        proof {
            if out@.len() > before.len() {
                assert(!before.contains(out@.last()));
                assert forall|x: int, y: int| 0 <= x < y < out@.len() implies out@[x]
                    != out@[y] by {
                    assert(before[x] == out@[x]);
                    if y < before.len() {
                        assert(before[y] == out@[y]);
                    } else {
                        assert(before.contains(out@[x]));
                    }
                }
            }
            assert forall|v: BetsOpenFilter|
                out@.contains(v) <==> (match v {
                    BetsOpenFilter::Open => has_open,
                    BetsOpenFilter::Closed => has_closed,
                }) by {
                if out@.len() > before.len() {
                    assert(out@ == before.push(out@.last()));
                    assert(out@[out@.len() - 1] == out@.last());
                    if before.contains(v) {
                        let k = choose|k: int| 0 <= k < before.len() && before[k] == v;
                        assert(out@[k] == v);
                    }
                }
            }
        }
        i = i + 1;
    }
    assert(input.deep_view().take(input@.len() as int) =~= input.deep_view());
    out
}

/// The states of the interval that a filter parameter selects: both where
/// it is absent, else those that its entries name.
pub fn parse_in_interval(input: &Vec<String>) -> (out: Vec<InIntervalFilter>)
    ensures
        forall|v: InIntervalFilter|
            out@.contains(v) <==> (input@.len() == 0 || names_in_interval(input.deep_view(), v)),
        out@.no_duplicates(),
{
    let mut out: Vec<InIntervalFilter> = Vec::new();
    if input.len() == 0 {
        out.push(InIntervalFilter::Yes);
        out.push(InIntervalFilter::No);
        assert forall|v: InIntervalFilter| out@.contains(v) by {
            match v {
                InIntervalFilter::Yes => {
                    assert(out@[0] == v);
                },
                InIntervalFilter::No => {
                    assert(out@[1] == v);
                },
            }
        }
        return out;
    }
    let mut has_yes = false;
    let mut has_no = false;
    let mut i: usize = 0;
    while i < input.len()
        invariant
            i <= input@.len(),
            has_yes <==> names_in_interval(input.deep_view().take(i as int), InIntervalFilter::Yes),
            has_no <==> names_in_interval(input.deep_view().take(i as int), InIntervalFilter::No),
            out@.no_duplicates(),
            forall|v: InIntervalFilter|
                out@.contains(v) <==> (match v {
                    InIntervalFilter::Yes => has_yes,
                    InIntervalFilter::No => has_no,
                }),
        decreases input@.len() - i,
    {
        let ghost shorter = input.deep_view().take(i as int);
        let ghost longer = input.deep_view().take(i + 1);
        let parsed = parse_in_interval_value(input[i].as_str());
        proof {
            assert(longer[i as int] == input@[i as int]@);
            assert forall|v: InIntervalFilter|
                names_in_interval(longer, v) <==> (names_in_interval(shorter, v) || parsed
                    == Some(v)) by {
                if names_in_interval(longer, v) {
                    let k = choose|k: int|
                        0 <= k < longer.len() && in_interval_value_spec(#[trigger] longer[k])
                            == Some(v);
                    if k < i {
                        assert(shorter[k] == longer[k]);
                    }
                }
                if names_in_interval(shorter, v) {
                    let k = choose|k: int|
                        0 <= k < shorter.len() && in_interval_value_spec(#[trigger] shorter[k])
                            == Some(v);
                    assert(longer[k] == shorter[k]);
                }
            }
        }
        let ghost before = out@;
        match parsed {
            Some(InIntervalFilter::Yes) => {
                if !has_yes {
                    out.push(InIntervalFilter::Yes);
                    has_yes = true;
                }
            },
            Some(InIntervalFilter::No) => {
                if !has_no {
                    out.push(InIntervalFilter::No);
                    has_no = true;
                }
            },
            None => {},
        }
        proof {
            if out@.len() > before.len() {
                assert(!before.contains(out@.last()));
                assert forall|x: int, y: int| 0 <= x < y < out@.len() implies out@[x]
                    != out@[y] by {
                    assert(before[x] == out@[x]);
                    if y < before.len() {
                        assert(before[y] == out@[y]);
                    } else {
                        assert(before.contains(out@[x]));
                    }
                }
            }
            assert forall|v: InIntervalFilter|
                out@.contains(v) <==> (match v {
                    InIntervalFilter::Yes => has_yes,
                    InIntervalFilter::No => has_no,
                }) by {
                if out@.len() > before.len() {
                    assert(out@ == before.push(out@.last()));
                    assert(out@[out@.len() - 1] == out@.last());
                    if before.contains(v) {
                        let k = choose|k: int| 0 <= k < before.len() && before[k] == v;
                        assert(out@[k] == v);
                    }
                }
            }
        }
        i = i + 1;
    }
    assert(input.deep_view().take(input@.len() as int) =~= input.deep_view());
    out
}

} // verus!

verus! {

pub open spec fn coin_options_spec() -> Seq<Seq<char>> {
    seq!["BTC"@, "ETH"@, "SOL"@, "XRP"@]
}

pub open spec fn duration_options_spec() -> Seq<Seq<char>> {
    seq!["5m"@, "15m"@, "1h"@, "4h"@, "1d"@]
}

pub fn coin_options() -> (options: Vec<&'static str>)
    ensures
        option_views(options@) == coin_options_spec(),
{
    let mut options: Vec<&'static str> = Vec::new();
    options.push("BTC");
    options.push("ETH");
    options.push("SOL");
    options.push("XRP");
    assert(option_views(options@) =~= coin_options_spec());
    options
}

pub fn duration_options() -> (options: Vec<&'static str>)
    ensures
        option_views(options@) == duration_options_spec(),
{
    let mut options: Vec<&'static str> = Vec::new();
    options.push("5m");
    options.push("15m");
    options.push("1h");
    options.push("4h");
    options.push("1d");
    assert(option_views(options@) =~= duration_options_spec());
    options
}

impl DashboardFilters {
    /// The filters that a query asks for.
    pub fn from_query(query: &DashboardQuery) -> (filters: DashboardFilters)
        ensures
            filters.coins.deep_view() == parse_set_or_all_spec(
                query.coin.deep_view(),
                coin_options_spec(),
            ),
            filters.durations.deep_view() == parse_set_or_all_spec(
                query.duration.deep_view(),
                duration_options_spec(),
            ),
            forall|v: BetsOpenFilter|
                filters.bets_open@.contains(v) <==> (query.bets_open@.len() == 0
                    || names_bets_open(query.bets_open.deep_view(), v)),
            forall|v: InIntervalFilter|
                filters.in_interval@.contains(v) <==> (query.in_interval@.len() == 0
                    || names_in_interval(query.in_interval.deep_view(), v)),
    {
        let coins = coin_options();
        let durations = duration_options();
        DashboardFilters {
            coins: parse_set_or_all(&query.coin, coins.as_slice()),
            durations: parse_set_or_all(&query.duration, durations.as_slice()),
            bets_open: parse_bets_open(&query.bets_open),
            in_interval: parse_in_interval(&query.in_interval),
        }
    }

    /// The filters that show everything.
    pub fn all_selected() -> (filters: DashboardFilters)
        ensures
            filters.coins.deep_view() == coin_options_spec(),
            filters.durations.deep_view() == duration_options_spec(),
            forall|v: BetsOpenFilter| filters.bets_open@.contains(v),
            forall|v: InIntervalFilter| filters.in_interval@.contains(v),
    {
        let query = DashboardQuery::default();
        assert(query.coin.deep_view().len() == 0);
        assert(query.duration.deep_view().len() == 0);
        DashboardFilters::from_query(&query)
    }

    pub fn coin_selected(&self, coin: &str) -> (r: bool)
        ensures
            r == self.coins.deep_view().contains(coin@),
    {
        contains_text(&self.coins, coin)
    }

    pub fn duration_selected(&self, duration: &str) -> (r: bool)
        ensures
            r == self.durations.deep_view().contains(duration@),
    {
        contains_text(&self.durations, duration)
    }

    pub fn bets_open_selected(&self, value: BetsOpenFilter) -> (r: bool)
        ensures
            r == self.bets_open@.contains(value),
    {
        let mut i: usize = 0;
        while i < self.bets_open.len()
            invariant
                i <= self.bets_open@.len(),
                forall|k: int| 0 <= k < i ==> self.bets_open@[k] != value,
            decreases self.bets_open@.len() - i,
        {
            if self.bets_open[i] == value {
                return true;
            }
            i = i + 1;
        }
        false
    }

    pub fn in_interval_selected(&self, value: InIntervalFilter) -> (r: bool)
        ensures
            r == self.in_interval@.contains(value),
    {
        let mut i: usize = 0;
        while i < self.in_interval.len()
            invariant
                i <= self.in_interval@.len(),
                forall|k: int| 0 <= k < i ==> self.in_interval@[k] != value,
            decreases self.in_interval@.len() - i,
        {
            if self.in_interval[i] == value {
                return true;
            }
            i = i + 1;
        }
        false
    }

    /// Whether rows whose state of betting is unknown are shown: only when
    /// both states are selected.
    pub fn allows_unknown_bets_open(&self) -> (r: bool)
        ensures
            r == (self.bets_open@.contains(BetsOpenFilter::Open) && self.bets_open@.contains(
                BetsOpenFilter::Closed,
            )),
    {
        self.bets_open_selected(BetsOpenFilter::Open) && self.bets_open_selected(
            BetsOpenFilter::Closed,
        )
    }
}

/// Whether the filters show a row at an instant: its coin and duration are
/// selected, its state of betting is selected (or unknown while both states
/// are), and so is whether the instant lies in its interval.
pub open spec fn row_shown(row: DashboardRowView, filters: &DashboardFilters, now: i64) -> bool {
    &&& filters.coins.deep_view().contains(row.coin)
    &&& filters.durations.deep_view().contains(row.duration)
    &&& match bets_open_value_spec(row.bets_open) {
        Some(v) => filters.bets_open@.contains(v),
        None => filters.bets_open@.contains(BetsOpenFilter::Open) && filters.bets_open@.contains(
            BetsOpenFilter::Closed,
        ),
    }
    &&& if row.start_ts_utc <= now < row.end_ts_utc {
        filters.in_interval@.contains(InIntervalFilter::Yes)
    } else {
        filters.in_interval@.contains(InIntervalFilter::No)
    }
}

/// The rows that the filters show, in their order.
pub open spec fn shown_rows(rows: Seq<DashboardRowView>, filters: &DashboardFilters, now: i64) -> Seq<
    DashboardRowView,
>
    decreases rows.len(),
{
    if rows.len() == 0 {
        Seq::empty()
    } else {
        let before = shown_rows(rows.drop_last(), filters, now);
        if row_shown(rows.last(), filters, now) {
            before.push(rows.last())
        } else {
            before
        }
    }
}

pub fn row_matches_bets_open(row: &DashboardRow, filters: &DashboardFilters) -> (r: bool)
    ensures
        r == match bets_open_value_spec(row@.bets_open) {
            Some(v) => filters.bets_open@.contains(v),
            None => filters.bets_open@.contains(BetsOpenFilter::Open)
                && filters.bets_open@.contains(BetsOpenFilter::Closed),
        },
{
    let value = match &row.bets_open {
        Some(text) => parse_bets_open_value(Some(text.as_str())),
        None => parse_bets_open_value(None),
    };
    match value {
        Some(v) => filters.bets_open_selected(v),
        None => filters.allows_unknown_bets_open(),
    }
}

pub fn row_matches_in_interval(row: &DashboardRow, filters: &DashboardFilters, now_ts_utc: i64) -> (r:
    bool)
    ensures
        r == if row.start_ts_utc <= now_ts_utc < row.end_ts_utc {
            filters.in_interval@.contains(InIntervalFilter::Yes)
        } else {
            filters.in_interval@.contains(InIntervalFilter::No)
        },
{
    if compute_in_interval(now_ts_utc, row.start_ts_utc, row.end_ts_utc) {
        filters.in_interval_selected(InIntervalFilter::Yes)
    } else {
        filters.in_interval_selected(InIntervalFilter::No)
    }
}

/// The rows that the filters show at an instant, in their order.
pub fn apply_filters(rows: &[DashboardRow], filters: &DashboardFilters, now_ts_utc: i64) -> (out:
    Vec<DashboardRow>)
    ensures
        row_views(out@) == shown_rows(row_views(rows@), filters, now_ts_utc),
{
    let ghost views = row_views(rows@);
    let mut out: Vec<DashboardRow> = Vec::new();
    let mut i: usize = 0;
    assert(row_views(out@) =~= shown_rows(views.take(0), filters, now_ts_utc));
    while i < rows.len()
        invariant
            i <= rows@.len(),
            views == row_views(rows@),
            row_views(out@) == shown_rows(views.take(i as int), filters, now_ts_utc),
        decreases rows@.len() - i,
    {
        let row = &rows[i];
        assert(views.take(i + 1).drop_last() =~= views.take(i as int));
        assert(views.take(i + 1).last() == row@);
        if filters.coin_selected(row.coin.as_str()) && filters.duration_selected(
            row.duration.as_str(),
        ) && row_matches_bets_open(row, filters) && row_matches_in_interval(
            row,
            filters,
            now_ts_utc,
        ) {
            let ghost before = row_views(out@);
            out.push(row.duplicate());
            assert(row_views(out@) =~= before.push(row@));
        }
        i = i + 1;
    }
    assert(views.take(views.len() as int) =~= views);
    out
}

/// The filter parameters among the pairs of a query string, each
/// parameter's values in the order given; other keys are ignored, and keys
/// are compared without surrounding white space and without regard to case.
pub fn dashboard_query_from_pairs(query_pairs: &[(String, String)]) -> (query: DashboardQuery)
    ensures
        query.coin.deep_view() == values_of(query_pairs@, "coin"@, query_pairs@.len()),
        query.duration.deep_view() == values_of(query_pairs@, "duration"@, query_pairs@.len()),
        query.bets_open.deep_view() == values_of(query_pairs@, "bets_open"@, query_pairs@.len()),
        query.in_interval.deep_view() == values_of(
            query_pairs@,
            "in_interval"@,
            query_pairs@.len(),
        ),
{
    let mut query = DashboardQuery::default();
    let mut i: usize = 0;
    assert(query.coin.deep_view() =~= values_of(query_pairs@, "coin"@, 0));
    assert(query.duration.deep_view() =~= values_of(query_pairs@, "duration"@, 0));
    assert(query.bets_open.deep_view() =~= values_of(query_pairs@, "bets_open"@, 0));
    assert(query.in_interval.deep_view() =~= values_of(query_pairs@, "in_interval"@, 0));
    proof {
        reveal_strlit("coin");
        reveal_strlit("duration");
        reveal_strlit("bets_open");
        reveal_strlit("in_interval");
    }
    while i < query_pairs.len()
        invariant
            i <= query_pairs@.len(),
            "coin"@.len() == 4,
            "duration"@.len() == 8,
            "bets_open"@.len() == 9,
            "in_interval"@.len() == 11,
            query.coin.deep_view() == values_of(query_pairs@, "coin"@, i as nat),
            query.duration.deep_view() == values_of(query_pairs@, "duration"@, i as nat),
            query.bets_open.deep_view() == values_of(query_pairs@, "bets_open"@, i as nat),
            query.in_interval.deep_view() == values_of(query_pairs@, "in_interval"@, i as nat),
        decreases query_pairs@.len() - i,
    {
        let key = normalize(query_pairs[i].0.as_str());
        let ghost value = query_pairs@[i as int].1@;
        if is_word(&key, "coin") {
            let ghost before = query.coin.deep_view();
            query.coin.push(query_pairs[i].1.clone());
            assert(query.coin.deep_view() =~= before.push(value));
        } else if is_word(&key, "duration") {
            let ghost before = query.duration.deep_view();
            query.duration.push(query_pairs[i].1.clone());
            assert(query.duration.deep_view() =~= before.push(value));
        } else if is_word(&key, "bets_open") {
            let ghost before = query.bets_open.deep_view();
            query.bets_open.push(query_pairs[i].1.clone());
            assert(query.bets_open.deep_view() =~= before.push(value));
        } else if is_word(&key, "in_interval") {
            let ghost before = query.in_interval.deep_view();
            query.in_interval.push(query_pairs[i].1.clone());
            assert(query.in_interval.deep_view() =~= before.push(value));
        }
        i = i + 1;
    }
    query
}

/// The values, among the first `n` pairs, of the pairs whose key names the
/// given parameter.
pub open spec fn values_of(pairs: Seq<(String, String)>, name: Seq<char>, n: nat) -> Seq<Seq<char>>
    decreases n,
{
    if n == 0 {
        Seq::empty()
    } else {
        let before = values_of(pairs, name, (n - 1) as nat);
        if normalized(pairs[n - 1].0@) == name {
            before.push(pairs[n - 1].1@)
        } else {
            before
        }
    }
}

/// The fee columns of a market.
#[derive(Debug, Clone, PartialEq, Eq)]
pub struct FeeParams {
    pub taker_fee_pct: String,
    pub maker_fee_pct: String,
    pub fee_exponent: String,
}

/// Whether a market is charged at the rates of fifteen-minute crypto
/// markets: fees are enabled, and either the market is of that type or its
/// type is unknown and it lasts five or fifteen minutes.
pub open spec fn charged(fee_type: Option<Seq<char>>, fees_enabled: Option<bool>, duration: Duration) -> bool {
    fees_enabled == Some(true) && match fee_type {
        Some(t) => t == "crypto_15_min"@,
        None => duration == Duration::M5 || duration == Duration::M15,
    }
}

/// The fee columns of a market of a type: a quarter percent for takers, a
/// rebate of a twentieth for makers and exponent two where the market is
/// charged; else no fees and no exponent.
pub fn fee_params_from_type(fee_type: Option<&str>, fees_enabled: Option<bool>, duration: Duration) -> (p:
    FeeParams)
    ensures
        ({
            let kind = match fee_type {
                Some(t) => Some(t@),
                None => None,
            };
            if charged(kind, fees_enabled, duration) {
                p.taker_fee_pct@ == "0.25"@ && p.maker_fee_pct@ == "-0.05"@ && p.fee_exponent@
                    == "2"@
            } else {
                p.taker_fee_pct@ == "0"@ && p.maker_fee_pct@ == "0"@ && p.fee_exponent@ == "-"@
            }
        }),
{
    let enabled = match fees_enabled {
        Some(b) => b,
        None => false,
    };
    let is_charged = enabled && match fee_type {
        Some(t) => str_eq(t, "crypto_15_min"),
        None => match duration {
            Duration::M5 | Duration::M15 => true,
            _ => false,
        },
    };
    if is_charged {
        FeeParams {
            taker_fee_pct: "0.25".to_string(),
            maker_fee_pct: "-0.05".to_string(),
            fee_exponent: "2".to_string(),
        }
    } else {
        FeeParams {
            taker_fee_pct: "0".to_string(),
            maker_fee_pct: "0".to_string(),
            fee_exponent: "-".to_string(),
        }
    }
}

} // verus!

verus! {

/// The text that stands for a character in HTML.
pub open spec fn escaped_char(c: char) -> Seq<char> {
    if c == '&' {
        "&amp;"@
    } else if c == '<' {
        "&lt;"@
    } else if c == '>' {
        "&gt;"@
    } else if c == '"' {
        "&quot;"@
    } else if c == '\'' {
        "&#39;"@
    } else {
        seq![c]
    }
}

/// The first `n` characters of a text, each replaced by what stands for it
/// in HTML.
pub open spec fn escaped(input: Seq<char>, n: nat) -> Seq<char>
    decreases n,
{
    if n == 0 {
        Seq::empty()
    } else {
        escaped(input, (n - 1) as nat) + escaped_char(input[n - 1])
    }
}

/// Escapes a text for HTML: `&`, `<`, `>` and both quotes are replaced.
pub fn escape_html(input: &str) -> (out: String)
    ensures
        out@ == escaped(input@, input@.len()),
{
    let chars = chars_of(input);
    let mut out = String::new();
    let mut i: usize = 0;
    while i < chars.len()
        invariant
            i <= chars@.len(),
            chars@ == input@,
            out@ == escaped(input@, i as nat),
        decreases chars@.len() - i,
    {
        let c = chars[i];
        if c == '&' {
            out.append("&amp;");
        } else if c == '<' {
            out.append("&lt;");
        } else if c == '>' {
            out.append("&gt;");
        } else if c == '"' {
            out.append("&quot;");
        } else if c == '\'' {
            out.append("&#39;");
        } else {
            crate::text::push_char(&mut out, c);
            assert(out@ =~= escaped(input@, i as nat) + seq![c]);
        }
        i = i + 1;
    }
    out
}

/// The label of the state of betting of a market: what it says of
/// accepting orders, else of being closed, else of being active.
pub open spec fn bets_open_label_spec(
    accepting_orders: Option<bool>,
    closed: Option<bool>,
    active: Option<bool>,
) -> Option<Seq<char>> {
    match accepting_orders {
        Some(accepting) => Some(
            if accepting {
                "open"@
            } else {
                "closed"@
            },
        ),
        None => match closed {
            Some(is_closed) => Some(
                if is_closed {
                    "closed"@
                } else {
                    "open"@
                },
            ),
            None => match active {
                Some(is_active) => Some(
                    if is_active {
                        "open"@
                    } else {
                        "closed"@
                    },
                ),
                None => None,
            },
        },
    }
}

pub fn market_bets_open_label(
    accepting_orders: Option<bool>,
    closed: Option<bool>,
    active: Option<bool>,
) -> (label: Option<String>)
    ensures
        opt_text(label) == bets_open_label_spec(accepting_orders, closed, active),
{
    let open = match accepting_orders {
        Some(accepting) => Some(accepting),
        None => match closed {
            Some(is_closed) => Some(!is_closed),
            None => active,
        },
    };
    match open {
        Some(true) => Some("open".to_string()),
        Some(false) => Some("closed".to_string()),
        None => None,
    }
}

/// The type of a market for fees: its format type, or else its market
/// type, each without surrounding white space and only if not empty.
pub open spec fn fee_type_spec(format_type: Option<Seq<char>>, market_type: Option<Seq<char>>) -> Option<
    Seq<char>,
> {
    if format_type is Some && trimmed(format_type->Some_0).len() > 0 {
        Some(trimmed(format_type->Some_0))
    } else if market_type is Some && trimmed(market_type->Some_0).len() > 0 {
        Some(trimmed(market_type->Some_0))
    } else {
        None
    }
}

pub fn market_fee_type(format_type: &Option<String>, market_type: &Option<String>) -> (r: Option<
    String,
>)
    ensures
        opt_text(r) == fee_type_spec(opt_text(*format_type), opt_text(*market_type)),
{
    match format_type {
        Some(text) => {
            let kept = trim_chars(&chars_of(text.as_str()));
            if kept.len() > 0 {
                return Some(string_from_chars(&kept));
            }
        },
        None => {},
    }
    match market_type {
        Some(text) => {
            let kept = trim_chars(&chars_of(text.as_str()));
            if kept.len() > 0 {
                return Some(string_from_chars(&kept));
            }
        },
        None => {},
    }
    None
}

} // verus!

verus! {

/// The second of the UTC day at an instant.
pub open spec fn second_of_day(ts: i64) -> int {
    (ts as int) % 86_400
}

/// The hour and minute of the UTC day of an instant as `HH:MM`, or `-` for
/// an instant on no date.
pub open spec fn utc_hhmm_spec(ts: i64) -> Seq<char> {
    if !crate::slug::utc_seconds_valid(ts as int) {
        "-"@
    } else {
        crate::text::zero_padded((second_of_day(ts) / 3_600) as nat, 2) + ":"@
            + crate::text::zero_padded(((second_of_day(ts) % 3_600) / 60) as nat, 2)
    }
}

fn second_of_utc_day(ts: i64) -> (s: i64)
    ensures
        s == second_of_day(ts),
        0 <= s < 86_400,
{
    let r = ts % 86_400;
    if r < 0 {
        r + 86_400
    } else {
        r
    }
}

pub fn utc_hhmm(ts: i64) -> (out: String)
    ensures
        out@ == utc_hhmm_spec(ts),
{
    if !crate::slug::seconds_valid(ts) {
        return "-".to_string();
    }
    let second = second_of_utc_day(ts);
    let hour = second / 3_600;
    let minute = (second % 3_600) / 60;
    let mut out = String::new();
    crate::text::push_u64_padded(&mut out, hour as u64, 2);
    out.append(":");
    crate::text::push_u64_padded(&mut out, minute as u64, 2);
    assert(out@ =~= crate::text::zero_padded(hour as nat, 2) + ":"@ + crate::text::zero_padded(
        minute as nat,
        2,
    ));
    out
}

/// The end of the interval of a duration that starts at an instant, where
/// it is defined: five, fifteen and sixty minutes later, kept within the
/// machine integers; for four hours, the next four-hour mark on New York's
/// wall clock; for a day, noon of the next day in New York.
pub open spec fn interval_end_spec(start: i64, duration: Duration) -> Option<i64> {
    match duration {
        Duration::M5 => Some(crate::discovery::clamp_i64(start + 300)),
        Duration::M15 => Some(crate::discovery::clamp_i64(start + 900)),
        Duration::H1 => Some(crate::discovery::clamp_i64(start + 3_600)),
        Duration::H4 => if !crate::slug::ny_safe(start as int) {
            None
        } else {
            let l = crate::slug::ny_local(start as int);
            let block = (l.hour as int / 4) * 4;
            let next = if block == 20 {
                crate::discovery::wall(
                    crate::slug::next_date(l.year as int, l.month as int, l.day as int),
                    0,
                )
            } else {
                crate::discovery::wall((l.year as int, l.month as int, l.day as int), block + 4)
            };
            match next {
                Some(ts) => Some(ts as i64),
                None => None,
            }
        },
        Duration::D1 => if !crate::slug::ny_safe(start as int) {
            None
        } else {
            let l = crate::slug::ny_local(start as int);
            match crate::discovery::wall(
                crate::slug::next_date(l.year as int, l.month as int, l.day as int),
                12,
            ) {
                Some(ts) => Some(ts as i64),
                None => None,
            }
        },
    }
}

pub fn interval_end_ts_utc(start_ts_utc: i64, duration: Duration) -> (r: Option<i64>)
    ensures
        r == interval_end_spec(start_ts_utc, duration),
{
    match duration {
        Duration::M5 => Some(saturating_later(start_ts_utc, 300)),
        Duration::M15 => Some(saturating_later(start_ts_utc, 900)),
        Duration::H1 => Some(saturating_later(start_ts_utc, 3_600)),
        Duration::H4 => {
            if !crate::slug::seconds_ny_safe(start_ts_utc) {
                return None;
            }
            let l = crate::slug::ny_local_of(start_ts_utc);
            let block_hour = (l.hour / 4) * 4;
            if block_hour == 20 {
                let next = crate::slug::date_after(l.year, l.month, l.day);
                crate::slug::ny_local_to_utc(next.0, next.1, next.2, 0)
            } else {
                crate::slug::ny_local_to_utc(l.year, l.month, l.day, block_hour + 4)
            }
        },
        Duration::D1 => {
            if !crate::slug::seconds_ny_safe(start_ts_utc) {
                return None;
            }
            let l = crate::slug::ny_local_of(start_ts_utc);
            let next = crate::slug::date_after(l.year, l.month, l.day);
            crate::slug::ny_local_to_utc(next.0, next.1, next.2, 12)
        },
    }
}

fn saturating_later(start: i64, seconds: i64) -> (r: i64)
    requires
        0 <= seconds <= 86_400,
    ensures
        r == crate::discovery::clamp_i64(start + seconds),
{
    if start > i64::MAX - seconds {
        i64::MAX
    } else {
        start + seconds
    }
}

pub open spec fn window_label(window: crate::discovery::DiscoveryWindow) -> Seq<char> {
    match window {
        crate::discovery::DiscoveryWindow::Active => "yes"@,
        _ => "no"@,
    }
}

/// The row of a scheduled market before anything is known of it: its
/// identity and times, whether it is the active one, and the hour and
/// minute of its end.
pub open spec fn scheduled_row(
    scheduled: crate::discovery::ScheduledView,
    end_ts_utc: i64,
) -> DashboardRowView {
    DashboardRowView {
        in_interval: Some(window_label(scheduled.window)),
        end_hhmm: Some(utc_hhmm_spec(end_ts_utc)),
        ..unresolved_row(
            scheduled.key.slug,
            coin_label_spec(scheduled.key.coin),
            duration_label_spec(scheduled.key.duration),
            scheduled.key.start_ts_utc,
            end_ts_utc,
        )
    }
}

/// The demo row of a scheduled market, or `None` where the end of its
/// interval is not defined.
pub fn scheduled_key_to_demo_row(scheduled: &crate::discovery::ScheduledDiscoveryKey) -> (r: Option<
    DashboardRow,
>)
    ensures
        match interval_end_spec(scheduled@.key.start_ts_utc, scheduled@.key.duration) {
            Some(end) => r is Some && r->Some_0@ == scheduled_row(scheduled@, end),
            None => r is None,
        },
{
    let start_ts_utc = scheduled.key.start_ts_utc;
    let end_ts_utc = match interval_end_ts_utc(start_ts_utc, scheduled.key.duration) {
        Some(end) => end,
        None => {
            return None;
        },
    };
    let mut row = DashboardRow::unresolved_with_times(
        scheduled.key.slug.as_str(),
        coin_label(scheduled.key.coin),
        duration_label(scheduled.key.duration),
        start_ts_utc,
        end_ts_utc,
    );
    let label = match scheduled.window {
        crate::discovery::DiscoveryWindow::Active => "yes",
        _ => "no",
    };
    row.in_interval = Some(label.to_string());
    row.end_hhmm = Some(utc_hhmm(end_ts_utc));
    Some(row)
}

/// The row of a scheduled market whose lookup failed: the demo row with
/// the failure in the profit column.
pub fn unresolved_dashboard_row_with_reason(
    scheduled: &crate::discovery::ScheduledDiscoveryKey,
    reason: &str,
) -> (r: Option<DashboardRow>)
    ensures
        match interval_end_spec(scheduled@.key.start_ts_utc, scheduled@.key.duration) {
            Some(end) => r is Some && r->Some_0@ == (DashboardRowView {
                net_profit: Some("transport:"@ + reason@),
                ..scheduled_row(scheduled@, end)
            }),
            None => r is None,
        },
{
    match scheduled_key_to_demo_row(scheduled) {
        Some(row) => {
            let mut row = row;
            let mut text = String::new();
            text.append("transport:");
            text.append(reason);
            assert(text@ =~= "transport:"@ + reason@);
            row.net_profit = Some(text);
            Some(row)
        },
        None => None,
    }
}

/// The placeholder columns of a row once a live source filled some: the
/// default ones without those of betting state, fees and reward that hold
/// a value.
pub open spec fn resolved_mock_spec(row: DashboardRowView, n: nat) -> Seq<Seq<char>>
    decreases n,
{
    if n == 0 {
        Seq::empty()
    } else {
        let before = resolved_mock_spec(row, (n - 1) as nat);
        let column = default_mock_columns_spec()[n - 1];
        if column_is_live(row, column) {
            before
        } else {
            before.push(column)
        }
    }
}

pub open spec fn column_is_live(row: DashboardRowView, column: Seq<char>) -> bool {
    (column == "bets_open"@ && row.bets_open is Some) || (column == "taker_fee_pct"@
        && row.taker_fee_pct is Some) || (column == "maker_fee_pct"@ && row.maker_fee_pct is Some)
        || (column == "fee_exponent"@ && row.fee_exponent is Some) || (column == "reward_pct"@
        && row.reward_pct is Some)
}

pub fn resolved_mock_columns(row: &DashboardRow) -> (mock: Vec<String>)
    ensures
        mock.deep_view() == resolved_mock_spec(row@, default_mock_columns_spec().len()),
{
    let all = default_mock_columns();
    let mut mock: Vec<String> = Vec::new();
    let mut i: usize = 0;
    assert(mock.deep_view() =~= resolved_mock_spec(row@, 0));
    while i < all.len()
        invariant
            i <= all@.len(),
            all.deep_view() == default_mock_columns_spec(),
            mock.deep_view() == resolved_mock_spec(row@, i as nat),
        decreases all@.len() - i,
    {
        let column = all[i].as_str();
        assert(all.deep_view()[i as int] == column@);
        let live = (str_eq(column, "bets_open") && row.bets_open.is_some()) || (str_eq(
            column,
            "taker_fee_pct",
        ) && row.taker_fee_pct.is_some()) || (str_eq(column, "maker_fee_pct")
            && row.maker_fee_pct.is_some()) || (str_eq(column, "fee_exponent")
            && row.fee_exponent.is_some()) || (str_eq(column, "reward_pct")
            && row.reward_pct.is_some());
        if !live {
            let ghost before = mock.deep_view();
            mock.push(all[i].clone());
            assert(mock.deep_view() =~= before.push(column@));
        }
        i = i + 1;
    }
    assert(all.deep_view().len() == all@.len());
    mock
}

} // verus!

verus! {

/// A text without the zeros at its end.
pub open spec fn without_trailing_zeros(s: Seq<char>) -> Seq<char>
    decreases s.len(),
{
    if s.len() > 0 && s.last() == '0' {
        without_trailing_zeros(s.drop_last())
    } else {
        s
    }
}

/// Position of the first point among the first `n` characters.
pub open spec fn first_point(s: Seq<char>, n: nat) -> Option<int>
    decreases n,
{
    if n == 0 {
        None
    } else {
        match first_point(s, (n - 1) as nat) {
            Some(i) => Some(i),
            None => if s[n - 1] == '.' {
                Some(n - 1)
            } else {
                None
            },
        }
    }
}

/// A decimal number in its shortest form: zeros after the last significant
/// decimal are dropped, and the point with them if no decimal is left; a
/// zero keeps no sign.
pub open spec fn trim_number_spec(raw: Seq<char>) -> Seq<char> {
    match first_point(raw, raw.len()) {
        Some(dot) => {
            let stripped = without_trailing_zeros(raw);
            let kept = if stripped.len() == dot + 1 {
                stripped.drop_last()
            } else {
                stripped
            };
            if kept == "-0"@ {
                "0"@
            } else {
                kept
            }
        },
        None => if raw == "-0"@ {
            "0"@
        } else {
            raw
        },
    }
}

fn find_point(chars: &Vec<char>) -> (r: Option<usize>)
    ensures
        match r {
            Some(i) => first_point(chars@, chars@.len()) == Some(i as int) && i < chars@.len(),
            None => first_point(chars@, chars@.len()) is None,
        },
{
    let mut i: usize = 0;
    while i < chars.len()
        invariant
            i <= chars@.len(),
            first_point(chars@, i as nat) is None,
        decreases chars@.len() - i,
    {
        if chars[i] == '.' {
            proof {
                lemma_first_point_stable(chars@, (i + 1) as nat, chars@.len());
            }
            return Some(i);
        }
        i = i + 1;
    }
    None
}

proof fn lemma_first_point_stable(s: Seq<char>, n: nat, m: nat)
    requires
        n <= m,
        first_point(s, n) is Some,
    ensures
        first_point(s, m) == first_point(s, n),
    decreases m,
{
    if n < m {
        lemma_first_point_stable(s, n, (m - 1) as nat);
    }
}

/// Puts a decimal number in its shortest form.
pub fn trim_number(raw: &str) -> (out: String)
    ensures
        out@ == trim_number_spec(raw@),
{
    let chars = chars_of(raw);
    let kept: Vec<char> = match find_point(&chars) {
        Some(dot) => {
            let mut end = chars.len();
            assert(chars@.take(chars@.len() as int) =~= chars@);
            while end > 0 && chars[end - 1] == '0'
                invariant
                    end <= chars@.len(),
                    without_trailing_zeros(chars@) == without_trailing_zeros(
                        chars@.take(end as int),
                    ),
                decreases end,
            {
                assert(chars@.take(end as int).drop_last() =~= chars@.take(end - 1));
                end = end - 1;
            }
            assert(without_trailing_zeros(chars@) == chars@.take(end as int));
            if end == dot + 1 {
                end = end - 1;
                assert(chars@.take(end + 1).drop_last() =~= chars@.take(end as int));
            }
            crate::text::copy_range(&chars, 0, end)
        },
        None => chars,
    };
    if is_word(&kept, "-0") {
        "0".to_string()
    } else {
        string_from_chars(&kept)
    }
}

} // verus!

verus! {

/// What the dashboard reads of a market of the catalog.
#[derive(Debug, Clone, PartialEq, Eq)]
pub struct MarketFacts {
    pub slug: Option<String>,
    pub accepting_orders: Option<bool>,
    pub closed: Option<bool>,
    pub active: Option<bool>,
    pub format_type: Option<String>,
    pub market_type: Option<String>,
    pub fees_enabled: Option<bool>,
    /// Daily rate of the market's first reward, as decimal text.
    pub first_reward_daily_rate: Option<String>,
    /// Amount of the market's first reward, as decimal text.
    pub first_reward_amount: Option<String>,
    /// Reward of the oracle, as decimal text.
    pub uma_reward: Option<String>,
}

/// The reward of a market: the daily rate of its first reward, else that
/// reward's amount, else the oracle's reward.
pub open spec fn reward_spec(market: MarketFacts) -> Option<Seq<char>> {
    if market.first_reward_daily_rate is Some {
        opt_text(market.first_reward_daily_rate)
    } else if market.first_reward_amount is Some {
        opt_text(market.first_reward_amount)
    } else {
        opt_text(market.uma_reward)
    }
}

pub fn market_reward_pct(market: &MarketFacts) -> (r: Option<String>)
    ensures
        opt_text(r) == reward_spec(*market),
{
    if market.first_reward_daily_rate.is_some() {
        copy_option(&market.first_reward_daily_rate)
    } else if market.first_reward_amount.is_some() {
        copy_option(&market.first_reward_amount)
    } else {
        copy_option(&market.uma_reward)
    }
}

/// Whether a market is charged, by its own type and switch.
pub open spec fn market_charged(market: MarketFacts, duration: Duration) -> bool {
    charged(
        fee_type_spec(opt_text(market.format_type), opt_text(market.market_type)),
        market.fees_enabled,
        duration,
    )
}

/// The fee columns of a market.
pub fn market_fee_params(market: &MarketFacts, duration: Duration) -> (p: FeeParams)
    ensures
        if market_charged(*market, duration) {
            p.taker_fee_pct@ == "0.25"@ && p.maker_fee_pct@ == "-0.05"@ && p.fee_exponent@ == "2"@
        } else {
            p.taker_fee_pct@ == "0"@ && p.maker_fee_pct@ == "0"@ && p.fee_exponent@ == "-"@
        },
{
    let fee_type = market_fee_type(&market.format_type, &market.market_type);
    match &fee_type {
        Some(text) => fee_params_from_type(Some(text.as_str()), market.fees_enabled, duration),
        None => fee_params_from_type(None, market.fees_enabled, duration),
    }
}

/// The row of a scheduled market that the catalog knows: the market's own
/// slug where it has one, its state of betting, its fees and its reward,
/// and placeholders elsewhere.
pub open spec fn resolved_row(
    scheduled: crate::discovery::ScheduledView,
    key: crate::discovery::DiscoveryKeyView,
    market: MarketFacts,
    end_ts_utc: i64,
) -> DashboardRowView {
    let base = keyed_row(scheduled, key, end_ts_utc);
    let filled = DashboardRowView {
        slug: match market.slug {
            Some(slug) => slug@,
            None => base.slug,
        },
        bets_open: bets_open_label_spec(market.accepting_orders, market.closed, market.active),
        taker_fee_pct: Some(
            if market_charged(market, key.duration) {
                "0.25"@
            } else {
                "0"@
            },
        ),
        maker_fee_pct: Some(
            if market_charged(market, key.duration) {
                "-0.05"@
            } else {
                "0"@
            },
        ),
        fee_exponent: Some(
            if market_charged(market, key.duration) {
                "2"@
            } else {
                "-"@
            },
        ),
        reward_pct: Some(
            match reward_spec(market) {
                Some(reward) => reward,
                None => "0"@,
            },
        ),
        ..base
    };
    DashboardRowView {
        mock_columns: resolved_mock_spec(filled, default_mock_columns_spec().len()),
        ..filled
    }
}

/// The row of a market by its key, before anything is known of it, marked
/// by the window of its schedule.
pub open spec fn keyed_row(
    scheduled: crate::discovery::ScheduledView,
    key: crate::discovery::DiscoveryKeyView,
    end_ts_utc: i64,
) -> DashboardRowView {
    DashboardRowView {
        in_interval: Some(window_label(scheduled.window)),
        end_hhmm: Some(utc_hhmm_spec(end_ts_utc)),
        ..unresolved_row(
            key.slug,
            coin_label_spec(key.coin),
            duration_label_spec(key.duration),
            key.start_ts_utc,
            end_ts_utc,
        )
    }
}

/// The row of a scheduled market after its lookup: filled from the catalog
/// where the market was found, with the failure in the profit column where
/// the lookup failed, and bare where the market is unknown. `None` where
/// the end of the market's interval is not defined.
pub fn discovery_row_to_dashboard_row(
    row: &crate::discovery::DiscoveryRow<MarketFacts>,
    scheduled: &crate::discovery::ScheduledDiscoveryKey,
) -> (r: Option<DashboardRow>)
    ensures
        match interval_end_spec(row.key.start_ts_utc, row.key.duration) {
            None => r is None,
            Some(end) => r is Some && r->Some_0@ == match row.status {
                crate::discovery::DiscoveryStatus::Resolved { market } => resolved_row(
                    scheduled@,
                    row.key@,
                    market,
                    end,
                ),
                crate::discovery::DiscoveryStatus::Unresolved {
                    reason: crate::discovery::UnresolvedReason::TransportError(message),
                } => DashboardRowView {
                    net_profit: Some("transport:"@ + message@),
                    ..keyed_row(scheduled@, row.key@, end)
                },
                crate::discovery::DiscoveryStatus::Unresolved {
                    reason: crate::discovery::UnresolvedReason::NotFound,
                } => keyed_row(scheduled@, row.key@, end),
            },
        },
{
    let start_ts_utc = row.key.start_ts_utc;
    let end_ts_utc = match interval_end_ts_utc(start_ts_utc, row.key.duration) {
        Some(end) => end,
        None => {
            return None;
        },
    };
    let mut dashboard_row = DashboardRow::unresolved_with_times(
        row.key.slug.as_str(),
        coin_label(row.key.coin),
        duration_label(row.key.duration),
        start_ts_utc,
        end_ts_utc,
    );
    let label = match scheduled.window {
        crate::discovery::DiscoveryWindow::Active => "yes",
        _ => "no",
    };
    dashboard_row.in_interval = Some(label.to_string());
    dashboard_row.end_hhmm = Some(utc_hhmm(end_ts_utc));
    match &row.status {
        crate::discovery::DiscoveryStatus::Resolved { market } => {
            match &market.slug {
                Some(slug) => {
                    dashboard_row.slug = slug.clone();
                },
                None => {},
            }
            dashboard_row.bets_open = market_bets_open_label(
                market.accepting_orders,
                market.closed,
                market.active,
            );
            let fee_params = market_fee_params(market, row.key.duration);
            dashboard_row.taker_fee_pct = Some(fee_params.taker_fee_pct);
            dashboard_row.maker_fee_pct = Some(fee_params.maker_fee_pct);
            dashboard_row.fee_exponent = Some(fee_params.fee_exponent);
            dashboard_row.reward_pct = Some(
                match market_reward_pct(market) {
                    Some(reward) => reward,
                    None => "0".to_string(),
                },
            );
            let mock = resolved_mock_columns(&dashboard_row);
            dashboard_row.mock_columns = mock;
        },
        crate::discovery::DiscoveryStatus::Unresolved { reason } => {
            match reason {
                crate::discovery::UnresolvedReason::TransportError(message) => {
                    let mut text = String::new();
                    text.append("transport:");
                    text.append(message.as_str());
                    assert(text@ =~= "transport:"@ + message@);
                    dashboard_row.net_profit = Some(text);
                },
                crate::discovery::UnresolvedReason::NotFound => {},
            }
        },
    }
    Some(dashboard_row)
}

} // verus!
