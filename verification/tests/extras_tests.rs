use chrono::TimeZone;
use pmm::dashboard::{
    escape_html, interval_end_ts_utc, market_bets_open_label, market_fee_type,
    resolved_mock_columns, scheduled_key_to_demo_row, trim_number,
    unresolved_dashboard_row_with_reason, utc_hhmm,
};
use pmm::slug::align_4h_end_ts;
use pmm::{
    floor_to_second_ms, load_1s_klines, parse_bool, parse_log_format, symbol_id, ArchiveBytes,
    ArchiveKind, BinanceSymbol, Coin, DashboardRow, DiscoveryKey, DiscoveryWindow, Duration,
    KlineLoadError, KlineLoadRequest, LogFormat, LoggingConfig, ScheduledDiscoveryKey,
};
use std::io::Write;

fn ny_timestamp(year: i32, month: u32, day: u32, hour: u32) -> i64 {
    chrono_tz::America::New_York
        .with_ymd_and_hms(year, month, day, hour, 0, 0)
        .single()
        .unwrap()
        .with_timezone(&chrono::Utc)
        .timestamp()
}

fn scheduled(window: DiscoveryWindow, duration: Duration, start: i64) -> ScheduledDiscoveryKey {
    ScheduledDiscoveryKey {
        window,
        key: DiscoveryKey::from_slug(Coin::Eth, duration, start, "eth-slug".to_string()),
    }
}

#[test]
fn html_escaping_replaces_the_five_characters() {
    assert_eq!(
        escape_html("a&b<c>d\"e'f"),
        "a&amp;b&lt;c&gt;d&quot;e&#39;f"
    );
    assert_eq!(escape_html("&amp;"), "&amp;amp;");
    assert_eq!(escape_html(""), "");
    assert_eq!(escape_html("plain é"), "plain é");
}

#[test]
fn hour_and_minute_of_the_utc_day() {
    assert_eq!(utc_hhmm(0), "00:00");
    assert_eq!(utc_hhmm(1_735_736_400), "13:00");
    assert_eq!(utc_hhmm(1_735_736_400 + 59 * 60 + 59), "13:59");
    assert_eq!(utc_hhmm(-1), "23:59");
    assert_eq!(utc_hhmm(-86_400), "00:00");
    assert_eq!(utc_hhmm(i64::MAX), "-");
    assert_eq!(utc_hhmm(i64::MIN), "-");
}

#[test]
fn interval_ends_follow_the_duration() {
    let start = 1_735_689_900;
    assert_eq!(interval_end_ts_utc(start, Duration::M5), Some(start + 300));
    assert_eq!(interval_end_ts_utc(start, Duration::M15), Some(start + 900));
    assert_eq!(interval_end_ts_utc(start, Duration::H1), Some(start + 3_600));
    assert_eq!(interval_end_ts_utc(i64::MAX, Duration::H1), Some(i64::MAX));
    // 2024-12-31 16:00 ET starts a block that ends at 20:00 ET
    assert_eq!(
        interval_end_ts_utc(ny_timestamp(2024, 12, 31, 16), Duration::H4),
        Some(ny_timestamp(2024, 12, 31, 20))
    );
    // the last block of a day ends at midnight of the next day
    assert_eq!(
        interval_end_ts_utc(ny_timestamp(2024, 12, 31, 20), Duration::H4),
        Some(ny_timestamp(2025, 1, 1, 0))
    );
    // across the start of daylight saving time a block is three hours long
    assert_eq!(
        interval_end_ts_utc(ny_timestamp(2025, 3, 9, 0), Duration::H4),
        Some(ny_timestamp(2025, 3, 9, 0) + 3 * 3_600)
    );
    assert_eq!(
        interval_end_ts_utc(ny_timestamp(2026, 2, 25, 12), Duration::D1),
        Some(ny_timestamp(2026, 2, 26, 12))
    );
    assert_eq!(interval_end_ts_utc(i64::MAX, Duration::H4), None);
    assert_eq!(interval_end_ts_utc(i64::MIN, Duration::D1), None);
}

#[test]
fn demo_rows_carry_identity_times_and_window() {
    let start = 1_735_689_900;
    let row = scheduled_key_to_demo_row(&scheduled(DiscoveryWindow::Active, Duration::M15, start))
        .unwrap();
    let mut expected =
        DashboardRow::unresolved_with_times("eth-slug", "ETH", "15m", start, start + 900);
    expected.in_interval = Some("yes".to_string());
    expected.end_hhmm = Some("00:20".to_string());
    assert_eq!(row, expected);
    let row =
        scheduled_key_to_demo_row(&scheduled(DiscoveryWindow::Next, Duration::H1, start)).unwrap();
    assert_eq!(row.in_interval, Some("no".to_string()));
    assert_eq!(row.duration, "1h");
    let row = scheduled_key_to_demo_row(&scheduled(DiscoveryWindow::Previous, Duration::M5, start))
        .unwrap();
    assert_eq!(row.in_interval, Some("no".to_string()));
    assert_eq!(
        scheduled_key_to_demo_row(&scheduled(DiscoveryWindow::Active, Duration::H4, i64::MAX)),
        None
    );
    let failed = unresolved_dashboard_row_with_reason(
        &scheduled(DiscoveryWindow::Active, Duration::M15, start),
        "timeout",
    )
    .unwrap();
    expected.net_profit = Some("transport:timeout".to_string());
    assert_eq!(failed, expected);
}

#[test]
fn live_columns_are_no_placeholders() {
    let mut row = DashboardRow::unresolved("s", "BTC", "5m");
    assert_eq!(resolved_mock_columns(&row), row.mock_columns);
    row.bets_open = Some("open".to_string());
    row.reward_pct = Some("0".to_string());
    row.price = Some("0.5".to_string());
    let mock = resolved_mock_columns(&row);
    assert_eq!(mock.len(), 14);
    assert!(!mock.contains(&"bets_open".to_string()));
    assert!(!mock.contains(&"reward_pct".to_string()));
    assert!(mock.contains(&"price".to_string()));
    assert_eq!(mock[0], "ref_price");
    row.taker_fee_pct = Some("0".to_string());
    row.maker_fee_pct = Some("0".to_string());
    row.fee_exponent = Some("-".to_string());
    assert_eq!(resolved_mock_columns(&row).len(), 11);
}

#[test]
fn betting_state_prefers_accepting_orders_then_closed_then_active() {
    let open = Some("open".to_string());
    let closed = Some("closed".to_string());
    assert_eq!(market_bets_open_label(Some(true), Some(true), Some(false)), open);
    assert_eq!(market_bets_open_label(Some(false), Some(false), Some(true)), closed);
    assert_eq!(market_bets_open_label(None, Some(true), Some(true)), closed);
    assert_eq!(market_bets_open_label(None, Some(false), Some(false)), open);
    assert_eq!(market_bets_open_label(None, None, Some(true)), open);
    assert_eq!(market_bets_open_label(None, None, Some(false)), closed);
    assert_eq!(market_bets_open_label(None, None, None), None);
}

#[test]
fn fee_type_prefers_the_format_type() {
    let text = |s: &str| Some(s.to_string());
    assert_eq!(
        market_fee_type(&text(" crypto_15_min "), &text("other")),
        text("crypto_15_min")
    );
    assert_eq!(market_fee_type(&text("  "), &text(" other\n")), text("other"));
    assert_eq!(market_fee_type(&None, &text("other")), text("other"));
    assert_eq!(market_fee_type(&text(""), &text("\t")), None);
    assert_eq!(market_fee_type(&None, &None), None);
}

#[test]
fn log_settings_are_read_without_regard_to_case() {
    assert_eq!(parse_log_format(" JSON "), Some(LogFormat::Json));
    assert_eq!(parse_log_format("pretty"), Some(LogFormat::Pretty));
    assert_eq!(parse_log_format("yaml"), None);
    assert_eq!(parse_log_format(""), None);
    for on in ["1", "true", "YES", " on "] {
        assert_eq!(parse_bool(on), Some(true));
    }
    for off in ["0", "False", "no", "OFF"] {
        assert_eq!(parse_bool(off), Some(false));
    }
    assert_eq!(parse_bool("maybe"), None);
    assert_eq!(parse_bool("0 1"), None);
    let cfg = LoggingConfig::default();
    assert_eq!(cfg.level, "info");
    assert_eq!(cfg.format, LogFormat::Pretty);
    assert!(cfg.include_target);
}

#[test]
fn symbols_have_names_and_store_ids() {
    assert_eq!(BinanceSymbol::BtcUsdt.as_str(), "BTCUSDT");
    assert_eq!(BinanceSymbol::EthUsdt.as_str(), "ETHUSDT");
    assert_eq!(BinanceSymbol::SolUsdt.as_str(), "SOLUSDT");
    assert_eq!(BinanceSymbol::XrpUsdt.as_str(), "XRPUSDT");
    assert_eq!(symbol_id(BinanceSymbol::BtcUsdt), 1);
    assert_eq!(symbol_id(BinanceSymbol::EthUsdt), 2);
    assert_eq!(symbol_id(BinanceSymbol::SolUsdt), 3);
    assert_eq!(symbol_id(BinanceSymbol::XrpUsdt), 4);
    assert_eq!(ArchiveKind::Monthly.as_path_segment(), "monthly");
    assert_eq!(ArchiveKind::Daily.as_path_segment(), "daily");
}

#[test]
fn flooring_to_the_second_rounds_down() {
    assert_eq!(floor_to_second_ms(1_999), 1_000);
    assert_eq!(floor_to_second_ms(2_000), 2_000);
    assert_eq!(floor_to_second_ms(0), 0);
    assert_eq!(floor_to_second_ms(-1), -1_000);
    assert_eq!(floor_to_second_ms(-1_000), -1_000);
    assert_eq!(floor_to_second_ms(-1_001), -2_000);
    assert_eq!(floor_to_second_ms(i64::MAX), 9_223_372_036_854_775_000);
}

#[test]
fn four_hour_grid_rounds_up_with_an_offset() {
    // 2025-01-01 03:10:00 UTC, offset 15m -> next boundary at 04:15 UTC
    assert_eq!(align_4h_end_ts(1_735_702_200, 15), 1_735_704_900);
    assert_eq!(align_4h_end_ts(1_735_704_900, 15), 1_735_704_900);
    assert_eq!(align_4h_end_ts(1_735_704_901, 15), 1_735_704_900 + 14_400);
    assert_eq!(align_4h_end_ts(0, 0), 0);
    assert_eq!(align_4h_end_ts(1, 0), 14_400);
    assert_eq!(align_4h_end_ts(-1, 0), 0);
    assert_eq!(align_4h_end_ts(-14_401, 0), -14_400);
    assert_eq!(align_4h_end_ts(0, -15), 13_500);
}

#[test]
fn a_damaged_archive_entry_is_refused() {
    let req = KlineLoadRequest {
        symbol: BinanceSymbol::BtcUsdt,
        start_ts_ms_utc: 1_704_067_200_000,
        end_ts_ms_utc_exclusive: 1_704_067_203_000,
    };
    let body = "1704067200000,100,101,99,100.5,10,1704067200999,1005,42,5,502.5,0\n".repeat(50);
    let mut zip = zip::ZipWriter::new(std::io::Cursor::new(Vec::new()));
    zip.start_file("data.csv", zip::write::SimpleFileOptions::default())
        .unwrap();
    zip.write_all(body.as_bytes()).unwrap();
    let mut bytes = zip.finish().unwrap().into_inner();
    // damage the compressed data that follows the local header
    for b in bytes[40..60].iter_mut() {
        *b ^= 0x5a;
    }
    let err = load_1s_klines(
        &req,
        vec![ArchiveBytes {
            path: "damaged.zip".to_string(),
            bytes,
        }],
    )
    .unwrap_err();
    assert!(matches!(err, KlineLoadError::Io(_)), "unexpected error: {err:?}");
}

#[test]
fn loading_twice_gives_the_same_result() {
    let req = KlineLoadRequest {
        symbol: BinanceSymbol::BtcUsdt,
        start_ts_ms_utc: 1_704_067_200_000,
        end_ts_ms_utc_exclusive: 1_704_067_205_000,
    };
    let csv = "1704067202000,1,1,1,1,1,1704067202999,1,1,1,1,0\n1704067200000,1,1,1,1,1,1704067200999,1,1,1,1,0\n1704067202000,2,2,2,2,2,1704067202999,2,2,2,2,0\n";
    let archive = || {
        let mut zip = zip::ZipWriter::new(std::io::Cursor::new(Vec::new()));
        zip.start_file("k.csv", zip::write::SimpleFileOptions::default())
            .unwrap();
        zip.write_all(csv.as_bytes()).unwrap();
        vec![ArchiveBytes {
            path: "k.zip".to_string(),
            bytes: zip.finish().unwrap().into_inner(),
        }]
    };
    let first = load_1s_klines(&req, archive()).unwrap();
    let second = load_1s_klines(&req, archive()).unwrap();
    assert_eq!(first, second);
    assert_eq!(first.rows.len(), 2);
    assert_eq!(first.rows[1].open, "1");
    assert_eq!(first.coverage.duplicate_points_removed, 1);
    assert_eq!(first.coverage.missing_points, 3);
    assert_eq!(
        first.coverage.gap_ranges,
        vec![
            (1_704_067_201_000, 1_704_067_201_000),
            (1_704_067_203_000, 1_704_067_204_000)
        ]
    );
}

#[test]
fn numbers_are_put_in_their_shortest_form() {
    assert_eq!(trim_number("0.4988"), "0.4988");
    assert_eq!(trim_number("12.3500"), "12.35");
    assert_eq!(trim_number("10.000"), "10");
    assert_eq!(trim_number("-0.000"), "0");
    assert_eq!(trim_number("-0"), "0");
    assert_eq!(trim_number("0.0"), "0");
    assert_eq!(trim_number("100"), "100");
    assert_eq!(trim_number("100."), "100");
    assert_eq!(trim_number(".50"), ".5");
    assert_eq!(trim_number(".0"), "");
    assert_eq!(trim_number(""), "");
    assert_eq!(trim_number("1.0.0"), "1.0.");
    assert_eq!(trim_number("-0.50"), "-0.5");
}

fn display_row(slug: &str, mock: &[&str]) -> pmm::DashboardDisplayRow {
    pmm::DashboardDisplayRow {
        slug: slug.to_string(),
        link_url: format!("https://polymarket.com/event/{slug}"),
        coin: "ETH".to_string(),
        duration: "15m".to_string(),
        start_ts_utc: 100,
        end_ts_utc: 200,
        bets_open: "-".to_string(),
        in_interval: "yes".to_string(),
        end_hhmm: "00:03".to_string(),
        ref_price: "-".to_string(),
        price: "<0.5>".to_string(),
        probability: "-".to_string(),
        best_bid_yes: "-".to_string(),
        best_ask_yes: "-".to_string(),
        position_net: "-".to_string(),
        pos_yes: "-".to_string(),
        pos_no: "-".to_string(),
        offer_yes: "-".to_string(),
        offer_no: "-".to_string(),
        net_profit: "-".to_string(),
        taker_fee_pct: "0".to_string(),
        maker_fee_pct: "0".to_string(),
        fee_exponent: "-".to_string(),
        reward_pct: "0".to_string(),
        mock_columns: mock.iter().map(|m| m.to_string()).collect(),
    }
}

#[test]
fn rendered_html_has_button_mock_and_polling_script() {
    let rows = vec![display_row("eth-updown-15m-9", &["price", "link"])];
    let html = pmm::render::render_dashboard_html_with_filters(
        &rows,
        &pmm::DashboardFilters::all_selected(),
        "2025-01-01 00:00:00 UTC",
    );
    assert!(html.contains("market-btn"));
    assert!(html.contains("Open Market"));
    assert!(html.contains("cell-mock"));
    assert!(html.contains("setInterval(refresh, 250)"));
    assert!(html.starts_with("<!DOCTYPE html><html><head><meta charset=\"utf-8\">\n"));
    assert!(html.ends_with("</script></main></body></html>\n"));
    assert!(html.contains("<span>Rows: <b id=\"row-count\">1</b></span>"));
    assert!(html.contains("<span>Server UTC: 2025-01-01 00:00:00 UTC</span>"));
    assert!(html.contains("<thead><tr><th>Link</th><th>Coin</th>"));
    assert!(html.contains("<th>Reward %</th></tr></thead><tbody id=\"dashboard-body\">\n<tr data-row=\"0\">"));
    assert_eq!(html.matches("type=\"checkbox\"").count(), 13);
    assert_eq!(html.matches(" checked>").count(), 13);
}

#[test]
fn a_row_is_rendered_cell_by_cell() {
    let row = display_row("a&b", &["price"]);
    let html = pmm::render::render_row_html(&row, 7);
    let plain = |v: &str| format!("<td class=\"\">{v}</td>");
    let mut expected = String::from("<tr data-row=\"7\">");
    expected.push_str("<td class=\"market-cell \">");
    expected.push_str("<a class=\"market-btn\" target=\"_blank\" rel=\"noopener noreferrer\" href=\"https://polymarket.com/event/a&amp;b\">Open Market</a>");
    expected.push_str("<span class=\"slug-id\" title=\"a&amp;b\">a&amp;b</span></td>");
    expected.push_str(&plain("ETH"));
    expected.push_str(&plain("15m"));
    expected.push_str(&plain("-"));
    expected.push_str(&plain("yes"));
    expected.push_str("<td data-end-ts=\"200\" class=\"\">00:03</td>");
    expected.push_str(&plain("-"));
    expected.push_str("<td class=\"cell-mock\">&lt;0.5&gt;</td>");
    for _ in 0..9 {
        expected.push_str(&plain("-"));
    }
    expected.push_str(&plain("0"));
    expected.push_str(&plain("0"));
    expected.push_str(&plain("-"));
    expected.push_str(&plain("0"));
    expected.push_str("</tr>\n");
    assert_eq!(html, expected);
    assert_eq!(
        pmm::render::render_rows_html(&vec![row.clone(), row.clone()]),
        format!(
            "{}{}",
            pmm::render::render_row_html(&row, 0),
            pmm::render::render_row_html(&row, 1)
        )
    );
}

#[test]
fn a_filter_is_rendered_option_by_option() {
    let html = pmm::render::render_checkbox_group(
        "Bets <Open>",
        "bets_open",
        &vec!["open", "closed"],
        &vec![true, false],
    );
    assert_eq!(
        html,
        "<section class=\"filter-block\"><p class=\"filter-title\">Bets &lt;Open&gt;</p>\
<label class=\"filter-item\"><input type=\"checkbox\" name=\"bets_open\" value=\"open\" checked> <span>open</span></label>\
<label class=\"filter-item\"><input type=\"checkbox\" name=\"bets_open\" value=\"closed\"> <span>closed</span></label>\
</section>"
    );
}

#[test]
fn live_rows_are_filled_from_the_catalog() {
    let start = 1_735_689_900;
    let schedule = scheduled(DiscoveryWindow::Active, Duration::M15, start);
    let market = pmm::dashboard::MarketFacts {
        slug: Some("eth-live".to_string()),
        accepting_orders: None,
        closed: Some(false),
        active: Some(false),
        format_type: None,
        market_type: Some(" crypto_15_min ".to_string()),
        fees_enabled: Some(true),
        first_reward_daily_rate: None,
        first_reward_amount: Some("12.5".to_string()),
        uma_reward: Some("3".to_string()),
    };
    let found = pmm::DiscoveryRow {
        key: schedule.key.clone(),
        status: pmm::DiscoveryStatus::Resolved {
            market: market.clone(),
        },
    };
    let row = pmm::dashboard::discovery_row_to_dashboard_row(&found, &schedule).unwrap();
    assert_eq!(row.slug, "eth-live");
    assert_eq!(row.coin, "ETH");
    assert_eq!(row.end_ts_utc, start + 900);
    assert_eq!(row.in_interval, Some("yes".to_string()));
    assert_eq!(row.bets_open, Some("open".to_string()));
    assert_eq!(row.taker_fee_pct, Some("0.25".to_string()));
    assert_eq!(row.maker_fee_pct, Some("-0.05".to_string()));
    assert_eq!(row.fee_exponent, Some("2".to_string()));
    assert_eq!(row.reward_pct, Some("12.5".to_string()));
    assert_eq!(row.mock_columns.len(), 11);
    assert!(!row.is_mock_column("bets_open"));
    assert!(row.is_mock_column("price"));
    assert_eq!(pmm::dashboard::market_reward_pct(&market), Some("12.5".to_string()));

    let bare = pmm::dashboard::MarketFacts {
        slug: None,
        accepting_orders: None,
        closed: None,
        active: None,
        format_type: None,
        market_type: None,
        fees_enabled: None,
        first_reward_daily_rate: None,
        first_reward_amount: None,
        uma_reward: None,
    };
    let found = pmm::DiscoveryRow {
        key: schedule.key.clone(),
        status: pmm::DiscoveryStatus::Resolved { market: bare },
    };
    let row = pmm::dashboard::discovery_row_to_dashboard_row(&found, &schedule).unwrap();
    assert_eq!(row.slug, "eth-slug");
    assert_eq!(row.bets_open, None);
    assert_eq!(row.taker_fee_pct, Some("0".to_string()));
    assert_eq!(row.fee_exponent, Some("-".to_string()));
    assert_eq!(row.reward_pct, Some("0".to_string()));
    assert_eq!(row.mock_columns.len(), 12);
    assert!(row.is_mock_column("bets_open"));

    let failed: pmm::DiscoveryRow<pmm::dashboard::MarketFacts> = pmm::DiscoveryRow {
        key: schedule.key.clone(),
        status: pmm::DiscoveryStatus::Unresolved {
            reason: pmm::UnresolvedReason::TransportError("timeout".to_string()),
        },
    };
    let row = pmm::dashboard::discovery_row_to_dashboard_row(&failed, &schedule).unwrap();
    assert_eq!(row.net_profit, Some("transport:timeout".to_string()));
    assert_eq!(row.mock_columns.len(), 16);
    let unknown: pmm::DiscoveryRow<pmm::dashboard::MarketFacts> = pmm::DiscoveryRow {
        key: schedule.key.clone(),
        status: pmm::DiscoveryStatus::Unresolved {
            reason: pmm::UnresolvedReason::NotFound,
        },
    };
    let row = pmm::dashboard::discovery_row_to_dashboard_row(&unknown, &schedule).unwrap();
    assert_eq!(row.net_profit, None);
}
