use pmm::{
    apply_filters, compute_in_interval, dashboard_query_from_pairs, fee_params_from_type,
    market_link, BetsOpenFilter, DashboardFilters, DashboardQuery, DashboardRow, Duration,
    InIntervalFilter, DASHBOARD_COLUMN_KEYS, DASHBOARD_HEADERS,
};

fn sample_row(
    coin: &str,
    duration: &str,
    start: i64,
    end: i64,
    bets_open: Option<&str>,
) -> DashboardRow {
    DashboardRow {
        slug: format!("{}-{}-{}", coin.to_lowercase(), duration, start),
        coin: coin.to_string(),
        duration: duration.to_string(),
        start_ts_utc: start,
        end_ts_utc: end,
        bets_open: bets_open.map(|v| v.to_string()),
        in_interval: None,
        end_hhmm: None,
        ref_price: Some("0.4987654".to_string()),
        price: Some("0.5123456".to_string()),
        probability: Some("0.5123".to_string()),
        best_bid_yes: Some("0.51".to_string()),
        best_ask_yes: Some("0.5139".to_string()),
        position_net: Some("12.34567@0.498765@YES".to_string()),
        pos_yes: Some("1.23456@0.5".to_string()),
        pos_no: None,
        offer_yes: Some("2.34567@0.52".to_string()),
        offer_no: Some("3.33333@0.48".to_string()),
        net_profit: Some("0.123456".to_string()),
        taker_fee_pct: Some("0.25".to_string()),
        maker_fee_pct: Some("-0.05".to_string()),
        fee_exponent: Some("2".to_string()),
        reward_pct: Some("0.004567".to_string()),
        mock_columns: vec!["price".to_string()],
    }
}

#[test]
fn header_order_and_column_count_are_exact() {
    assert_eq!(DASHBOARD_HEADERS.len(), 21);
    assert_eq!(DASHBOARD_COLUMN_KEYS.len(), 21);
    assert_eq!(DASHBOARD_HEADERS[0], "Link");
    assert_eq!(DASHBOARD_HEADERS[8], "Probability");
    assert_eq!(DASHBOARD_HEADERS[20], "Reward %");
}

#[test]
fn fee_params_match_crypto_15_min_profile() {
    let params = fee_params_from_type(Some("crypto_15_min"), Some(true), Duration::H1);
    assert_eq!(params.taker_fee_pct, "0.25");
    assert_eq!(params.maker_fee_pct, "-0.05");
    assert_eq!(params.fee_exponent, "2");
}

#[test]
fn fee_params_default_when_fee_type_missing_or_disabled() {
    let disabled = fee_params_from_type(Some("crypto_15_min"), Some(false), Duration::M15);
    assert_eq!(disabled.taker_fee_pct, "0");
    assert_eq!(disabled.maker_fee_pct, "0");
    assert_eq!(disabled.fee_exponent, "-");
}

#[test]
fn fee_params_fallback_for_5m_and_15m_when_type_missing() {
    let m5 = fee_params_from_type(None, Some(true), Duration::M5);
    assert_eq!(m5.taker_fee_pct, "0.25");
    assert_eq!(m5.maker_fee_pct, "-0.05");
    assert_eq!(m5.fee_exponent, "2");

    let m15 = fee_params_from_type(None, Some(true), Duration::M15);
    assert_eq!(m15.taker_fee_pct, "0.25");
    assert_eq!(m15.maker_fee_pct, "-0.05");
    assert_eq!(m15.fee_exponent, "2");

    let h1 = fee_params_from_type(None, Some(true), Duration::H1);
    assert_eq!(h1.taker_fee_pct, "0");
    assert_eq!(h1.maker_fee_pct, "0");
    assert_eq!(h1.fee_exponent, "-");

    let d1 = fee_params_from_type(None, Some(true), Duration::D1);
    assert_eq!(d1.taker_fee_pct, "0");
    assert_eq!(d1.maker_fee_pct, "0");
    assert_eq!(d1.fee_exponent, "-");
}

#[test]
fn fee_params_no_type_and_fees_disabled_is_zero() {
    let params = fee_params_from_type(None, Some(false), Duration::M5);
    assert_eq!(params.taker_fee_pct, "0");
    assert_eq!(params.maker_fee_pct, "0");
    assert_eq!(params.fee_exponent, "-");
}

#[test]
fn fee_params_of_another_type_or_unknown_switch_are_zero() {
    let other = fee_params_from_type(Some("sports"), Some(true), Duration::M5);
    assert_eq!(other.taker_fee_pct, "0");
    assert_eq!(other.fee_exponent, "-");
    let unknown = fee_params_from_type(Some("crypto_15_min"), None, Duration::M5);
    assert_eq!(unknown.taker_fee_pct, "0");
    assert_eq!(unknown.maker_fee_pct, "0");
}

#[test]
fn filter_defaults_select_all() {
    let filters = DashboardFilters::from_query(&DashboardQuery::default());
    assert_eq!(filters.coins.len(), 4);
    assert_eq!(filters.durations.len(), 5);
    assert!(filters.bets_open_selected(BetsOpenFilter::Open));
    assert!(filters.bets_open_selected(BetsOpenFilter::Closed));
    assert!(filters.in_interval_selected(InIntervalFilter::Yes));
    assert!(filters.in_interval_selected(InIntervalFilter::No));
}

#[test]
fn filter_logic_or_within_and_across() {
    let query = DashboardQuery {
        coin: vec!["BTC".to_string(), "ETH".to_string()],
        duration: vec!["1h".to_string()],
        bets_open: vec!["open".to_string()],
        in_interval: vec!["yes".to_string()],
    };
    let filters = DashboardFilters::from_query(&query);
    let now = 1_000;

    let rows = vec![
        sample_row("BTC", "1h", 900, 1100, Some("open")),
        sample_row("ETH", "1h", 900, 1100, Some("open")),
        sample_row("SOL", "1h", 900, 1100, Some("open")),
        sample_row("BTC", "5m", 900, 1100, Some("open")),
        sample_row("BTC", "1h", 900, 1100, Some("closed")),
    ];

    let filtered = apply_filters(&rows, &filters, now);
    assert_eq!(filtered.len(), 2);
    assert_eq!(filtered[0].coin, "BTC");
    assert_eq!(filtered[1].coin, "ETH");
}

#[test]
fn in_interval_boundary_is_start_inclusive_end_exclusive() {
    assert!(compute_in_interval(100, 100, 200));
    assert!(compute_in_interval(199, 100, 200));
    assert!(!compute_in_interval(200, 100, 200));
}

#[test]
fn link_generation_uses_slug_url() {
    let link = market_link("btc-updown-5m-123");
    assert_eq!(link, "https://polymarket.com/event/btc-updown-5m-123");
}

#[test]
fn filters_ignore_case_and_white_space_and_unknown_values() {
    let query = DashboardQuery {
        coin: vec![" btc ".to_string(), "doge".to_string(), "BTC".to_string()],
        duration: vec!["1H".to_string()],
        bets_open: vec![" Closed".to_string(), "maybe".to_string()],
        in_interval: vec!["NO ".to_string()],
    };
    let filters = DashboardFilters::from_query(&query);
    assert_eq!(filters.coins, vec!["BTC".to_string()]);
    assert_eq!(filters.durations, vec!["1h".to_string()]);
    assert_eq!(filters.bets_open, vec![BetsOpenFilter::Closed]);
    assert_eq!(filters.in_interval, vec![InIntervalFilter::No]);
    assert!(filters.coin_selected("BTC"));
    assert!(!filters.coin_selected("ETH"));
    assert!(filters.duration_selected("1h"));
    assert!(!filters.bets_open_selected(BetsOpenFilter::Open));
}

#[test]
fn rows_of_unknown_betting_state_need_both_states_selected() {
    let rows = vec![sample_row("BTC", "1h", 900, 1100, None)];
    let all = DashboardFilters::all_selected();
    assert_eq!(apply_filters(&rows, &all, 1_000).len(), 1);
    let only_open = DashboardFilters::from_query(&DashboardQuery {
        bets_open: vec!["open".to_string()],
        ..DashboardQuery::default()
    });
    assert_eq!(apply_filters(&rows, &only_open, 1_000).len(), 0);
    let outside = DashboardFilters::from_query(&DashboardQuery {
        in_interval: vec!["no".to_string()],
        ..DashboardQuery::default()
    });
    assert_eq!(apply_filters(&rows, &outside, 1_000).len(), 0);
    assert_eq!(apply_filters(&rows, &outside, 1_100), rows);
}

#[test]
fn query_pairs_are_grouped_by_parameter() {
    let pairs = vec![
        ("coin".to_string(), "BTC".to_string()),
        (" Coin ".to_string(), "ETH".to_string()),
        ("other".to_string(), "x".to_string()),
        ("in_interval".to_string(), "yes".to_string()),
        ("DURATION".to_string(), "5m".to_string()),
        ("bets_open".to_string(), "open".to_string()),
    ];
    let query = dashboard_query_from_pairs(&pairs);
    assert_eq!(query.coin, vec!["BTC".to_string(), "ETH".to_string()]);
    assert_eq!(query.duration, vec!["5m".to_string()]);
    assert_eq!(query.bets_open, vec!["open".to_string()]);
    assert_eq!(query.in_interval, vec!["yes".to_string()]);
}

#[test]
fn unresolved_rows_hold_placeholders_only() {
    let row = DashboardRow::unresolved_with_times("xrp-updown-15m-2", "XRP", "15m", 100, 200);
    assert_eq!(row.slug, "xrp-updown-15m-2");
    assert_eq!(row.coin, "XRP");
    assert_eq!(row.duration, "15m");
    assert_eq!(row.start_ts_utc, 100);
    assert_eq!(row.end_ts_utc, 200);
    assert_eq!(row.price, None);
    assert_eq!(row.mock_columns.len(), 16);
    assert_eq!(row.mock_columns[0], "bets_open");
    assert_eq!(row.mock_columns[15], "reward_pct");
    assert!(row.is_mock_column("price"));
    assert!(!row.is_mock_column("in_interval"));
    assert!(!row.is_mock_column("end"));
    assert!(!row.is_mock_column("coin"));
    let bare = DashboardRow::unresolved("s", "BTC", "5m");
    assert_eq!(bare.start_ts_utc, 0);
    assert_eq!(bare.end_ts_utc, 0);
}
