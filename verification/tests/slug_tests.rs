use pmm::{build_slug, parse_coin, parse_duration, Coin, Duration, SlugConfig, SlugError};
use chrono::{Datelike, TimeZone, Timelike};
use regex::Regex;

fn cfg(offset_min: i32) -> SlugConfig {
    SlugConfig {
        discovery_offset_4h_min: offset_min,
    }
}

#[test]
fn slug_formats_5m_for_all_coins() {
    let ts = 1_771_449_000;
    let cases = [
        (Coin::Btc, "btc-updown-5m-1771449000"),
        (Coin::Eth, "eth-updown-5m-1771449000"),
        (Coin::Sol, "sol-updown-5m-1771449000"),
        (Coin::Xrp, "xrp-updown-5m-1771449000"),
    ];

    for (coin, expected) in cases {
        let actual = build_slug(coin, Duration::M5, ts, SlugConfig::default()).unwrap();
        assert_eq!(actual, expected);
    }
}

#[test]
fn lib_formats_5m_for_all_coins() {
    let ts = 1_771_449_000;
    let cases = [
        (Coin::Btc, "btc-updown-5m-1771449000"),
        (Coin::Eth, "eth-updown-5m-1771449000"),
        (Coin::Sol, "sol-updown-5m-1771449000"),
        (Coin::Xrp, "xrp-updown-5m-1771449000"),
    ];

    for (coin, expected) in cases {
        let actual = build_slug(coin, Duration::M5, ts, SlugConfig::default()).unwrap();
        assert_eq!(actual, expected);
    }
}

#[test]
fn slug_formats_15m_for_all_coins() {
    let ts = 1_771_448_400;
    let cases = [
        (Coin::Btc, "btc-updown-15m-1771448400"),
        (Coin::Eth, "eth-updown-15m-1771448400"),
        (Coin::Sol, "sol-updown-15m-1771448400"),
        (Coin::Xrp, "xrp-updown-15m-1771448400"),
    ];

    for (coin, expected) in cases {
        let actual = build_slug(coin, Duration::M15, ts, SlugConfig::default()).unwrap();
        assert_eq!(actual, expected);
    }
}

#[test]
fn lib_formats_15m_for_all_coins() {
    let ts = 1_771_448_400;
    let cases = [
        (Coin::Btc, "btc-updown-15m-1771448400"),
        (Coin::Eth, "eth-updown-15m-1771448400"),
        (Coin::Sol, "sol-updown-15m-1771448400"),
        (Coin::Xrp, "xrp-updown-15m-1771448400"),
    ];

    for (coin, expected) in cases {
        let actual = build_slug(coin, Duration::M15, ts, SlugConfig::default()).unwrap();
        assert_eq!(actual, expected);
    }
}

#[test]
fn formats_4h_for_all_coins_aligned_to_et_boundaries() {
    // 2025-01-01 03:10:00 UTC = 2024-12-31 22:10 ET -> aligned to 20:00 ET.
    let ts = 1_735_702_200;
    let cases = [
        (Coin::Btc, "btc-updown-4h-1735693200"),
        (Coin::Eth, "eth-updown-4h-1735693200"),
        (Coin::Sol, "sol-updown-4h-1735693200"),
        (Coin::Xrp, "xrp-updown-4h-1735693200"),
    ];

    for (coin, expected) in cases {
        let actual = build_slug(coin, Duration::H4, ts, SlugConfig::default()).unwrap();
        assert_eq!(actual, expected);
    }
}

#[test]
fn slug_formats_1h_for_all_coins_normal_day() {
    // 2025-01-15 20:00:00 UTC -> 2025-01-15 3pm ET
    let ts = 1_736_971_200;
    let cases = [
        (Coin::Btc, "bitcoin-up-or-down-january-15-3pm-et"),
        (Coin::Eth, "ethereum-up-or-down-january-15-3pm-et"),
        (Coin::Sol, "solana-up-or-down-january-15-3pm-et"),
        (Coin::Xrp, "xrp-up-or-down-january-15-3pm-et"),
    ];

    for (coin, expected) in cases {
        let actual = build_slug(coin, Duration::H1, ts, SlugConfig::default()).unwrap();
        assert_eq!(actual, expected);
    }
}

#[test]
fn lib_formats_1h_for_all_coins_normal_day() {
    let ts = 1_736_971_200;
    let cases = [
        (Coin::Btc, "bitcoin-up-or-down-january-15-3pm-et"),
        (Coin::Eth, "ethereum-up-or-down-january-15-3pm-et"),
        (Coin::Sol, "solana-up-or-down-january-15-3pm-et"),
        (Coin::Xrp, "xrp-up-or-down-january-15-3pm-et"),
    ];

    for (coin, expected) in cases {
        let actual = build_slug(coin, Duration::H1, ts, SlugConfig::default()).unwrap();
        assert_eq!(actual, expected);
    }
}

#[test]
fn slug_formats_1h_for_est_and_edt_periods() {
    // EST: Jan 10, 2025 13:00 UTC => 8am ET
    let est = build_slug(
        Coin::Btc,
        Duration::H1,
        1_736_514_000,
        SlugConfig::default(),
    )
    .unwrap();
    assert_eq!(est, "bitcoin-up-or-down-january-10-8am-et");

    // EDT: Jul 10, 2025 13:00 UTC => 9am ET
    let edt = build_slug(
        Coin::Btc,
        Duration::H1,
        1_752_152_400,
        SlugConfig::default(),
    )
    .unwrap();
    assert_eq!(edt, "bitcoin-up-or-down-july-10-9am-et");
}

#[test]
fn lib_formats_1h_for_est_and_edt_periods() {
    let est = build_slug(Coin::Btc, Duration::H1, 1_736_514_000, SlugConfig::default()).unwrap();
    assert_eq!(est, "bitcoin-up-or-down-january-10-8am-et");

    let edt = build_slug(Coin::Btc, Duration::H1, 1_752_152_400, SlugConfig::default()).unwrap();
    assert_eq!(edt, "bitcoin-up-or-down-july-10-9am-et");
}

#[test]
fn formats_1d_for_all_coins_using_resolution_date() {
    // 2026-02-25 17:00 UTC = 2026-02-25 12:00 ET (daily market start)
    // Resolution is 2026-02-26 12:00 ET -> slug date is february-26.
    let ts = 1_772_040_400;
    let cases = [
        (Coin::Btc, "bitcoin-up-or-down-on-february-26"),
        (Coin::Eth, "ethereum-up-or-down-on-february-26"),
        (Coin::Sol, "solana-up-or-down-on-february-26"),
        (Coin::Xrp, "xrp-up-or-down-on-february-26"),
    ];

    for (coin, expected) in cases {
        let actual = build_slug(coin, Duration::D1, ts, SlugConfig::default()).unwrap();
        assert_eq!(actual, expected);
    }
}

#[test]
fn slug_invalid_duration_and_coin_errors_are_explicit() {
    assert_eq!(
        parse_duration("2h").unwrap_err(),
        SlugError::InvalidDuration("2h".to_string())
    );
    assert_eq!(
        parse_coin("DOGE").unwrap_err(),
        SlugError::UnsupportedCoin("DOGE".to_string())
    );
}

#[test]
fn lib_invalid_duration_and_coin_errors_are_explicit() {
    assert_eq!(
        parse_duration("2h").unwrap_err(),
        SlugError::InvalidDuration("2h".to_string())
    );
    assert_eq!(
        parse_coin("DOGE").unwrap_err(),
        SlugError::UnsupportedCoin("DOGE".to_string())
    );
}

#[test]
fn boundary_time_exactly_on_interval_start_is_stable() {
    // Exactly on 4h ET boundary (2025-01-01 01:00 UTC = 20:00 ET).
    let exact_boundary = 1_735_693_200;
    let slug = build_slug(
        Coin::Eth,
        Duration::H4,
        exact_boundary,
        SlugConfig::default(),
    )
    .unwrap();
    assert_eq!(slug, "eth-updown-4h-1735693200");
}

#[test]
fn slug_deterministic_sweep_and_pattern_checks() {
    let re_5m = Regex::new(r"^[a-z]+-updown-5m-\d+$").unwrap();
    let re_15m = Regex::new(r"^[a-z]+-updown-15m-\d+$").unwrap();
    let re_4h = Regex::new(r"^[a-z]+-updown-4h-\d+$").unwrap();
    let re_1h = Regex::new(r"^[a-z]+-up-or-down-[a-z]+-\d{1,2}-\d{1,2}(am|pm)-et$").unwrap();
    let re_1d = Regex::new(r"^[a-z]+-up-or-down-on-[a-z]+-\d{1,2}$").unwrap();

    for ts in (1_735_689_600..1_735_776_000).step_by(61) {
        let a = build_slug(Coin::Btc, Duration::M5, ts, cfg(15)).unwrap();
        let b = build_slug(Coin::Btc, Duration::M5, ts, cfg(15)).unwrap();
        assert_eq!(a, b);
        assert!(re_5m.is_match(&a));

        let a = build_slug(Coin::Eth, Duration::M15, ts, cfg(15)).unwrap();
        let b = build_slug(Coin::Eth, Duration::M15, ts, cfg(15)).unwrap();
        assert_eq!(a, b);
        assert!(re_15m.is_match(&a));

        let a = build_slug(Coin::Sol, Duration::H4, ts, cfg(15)).unwrap();
        let b = build_slug(Coin::Sol, Duration::H4, ts, cfg(15)).unwrap();
        assert_eq!(a, b);
        assert!(re_4h.is_match(&a));

        let a = build_slug(Coin::Xrp, Duration::H1, ts, cfg(15)).unwrap();
        let b = build_slug(Coin::Xrp, Duration::H1, ts, cfg(15)).unwrap();
        assert_eq!(a, b);
        assert!(re_1h.is_match(&a));

        let a = build_slug(Coin::Btc, Duration::D1, ts, cfg(15)).unwrap();
        let b = build_slug(Coin::Btc, Duration::D1, ts, cfg(15)).unwrap();
        assert_eq!(a, b);
        assert!(re_1d.is_match(&a));
    }
}

#[test]
fn lib_deterministic_sweep_and_pattern_checks() {
    let re_5m = Regex::new(r"^[a-z]+-updown-5m-\d+$").unwrap();
    let re_15m = Regex::new(r"^[a-z]+-updown-15m-\d+$").unwrap();
    let re_4h = Regex::new(r"^[a-z]+-updown-4h-\d+$").unwrap();
    let re_1h = Regex::new(r"^[a-z]+-up-or-down-[a-z]+-\d{1,2}-\d{1,2}(am|pm)-et$").unwrap();

    for ts in (1_735_689_600..1_735_776_000).step_by(61) {
        let a = build_slug(Coin::Btc, Duration::M5, ts, cfg(15)).unwrap();
        let b = build_slug(Coin::Btc, Duration::M5, ts, cfg(15)).unwrap();
        assert_eq!(a, b);
        assert!(re_5m.is_match(&a));

        let a = build_slug(Coin::Eth, Duration::M15, ts, cfg(15)).unwrap();
        let b = build_slug(Coin::Eth, Duration::M15, ts, cfg(15)).unwrap();
        assert_eq!(a, b);
        assert!(re_15m.is_match(&a));

        let a = build_slug(Coin::Sol, Duration::H4, ts, cfg(15)).unwrap();
        let b = build_slug(Coin::Sol, Duration::H4, ts, cfg(15)).unwrap();
        assert_eq!(a, b);
        assert!(re_4h.is_match(&a));

        let a = build_slug(Coin::Xrp, Duration::H1, ts, cfg(15)).unwrap();
        let b = build_slug(Coin::Xrp, Duration::H1, ts, cfg(15)).unwrap();
        assert_eq!(a, b);
        assert!(re_1h.is_match(&a));
    }
}

#[test]
fn slug_rejects_timestamps_on_no_date() {
    assert_eq!(
        build_slug(Coin::Btc, Duration::M5, i64::MAX, SlugConfig::default()).unwrap_err(),
        SlugError::InvalidTimestamp(i64::MAX)
    );
    assert_eq!(
        build_slug(Coin::Btc, Duration::H1, i64::MIN, SlugConfig::default()).unwrap_err(),
        SlugError::InvalidTimestamp(i64::MIN)
    );
}

#[test]
fn slug_of_negative_timestamp_keeps_the_sign() {
    let slug = build_slug(Coin::Sol, Duration::M5, -300, SlugConfig::default()).unwrap();
    assert_eq!(slug, "sol-updown-5m--300");
}

#[test]
fn parse_coin_and_duration_accept_every_known_value() {
    assert_eq!(parse_coin("BTC").unwrap(), Coin::Btc);
    assert_eq!(parse_coin("ETH").unwrap(), Coin::Eth);
    assert_eq!(parse_coin("SOL").unwrap(), Coin::Sol);
    assert_eq!(parse_coin("XRP").unwrap(), Coin::Xrp);
    assert_eq!(parse_duration("5m").unwrap(), Duration::M5);
    assert_eq!(parse_duration("15m").unwrap(), Duration::M15);
    assert_eq!(parse_duration("1h").unwrap(), Duration::H1);
    assert_eq!(parse_duration("4h").unwrap(), Duration::H4);
    assert_eq!(parse_duration("1d").unwrap(), Duration::D1);
    assert!(parse_coin("btc").is_err());
}

#[test]
fn hourly_names_use_the_twelve_hour_clock() {
    // 2025-01-15 05:00 UTC is midnight in New York, 17:00 UTC is noon
    let midnight = build_slug(Coin::Btc, Duration::H1, 1_736_917_200, SlugConfig::default());
    assert_eq!(midnight.unwrap(), "bitcoin-up-or-down-january-15-12am-et");
    let noon = build_slug(Coin::Btc, Duration::H1, 1_736_960_400, SlugConfig::default());
    assert_eq!(noon.unwrap(), "bitcoin-up-or-down-january-15-12pm-et");
    let eleven = build_slug(Coin::Btc, Duration::H1, 1_736_956_800, SlugConfig::default());
    assert_eq!(eleven.unwrap(), "bitcoin-up-or-down-january-15-11am-et");
}

#[test]
fn names_agree_with_the_wall_clock_of_new_york_through_a_year() {
    let mut ts = 1_704_067_200; // 2024-01-01 00:00:00 UTC
    while ts < 1_704_067_200 + 366 * 86_400 {
        let ny = chrono::Utc
            .timestamp_opt(ts, 0)
            .single()
            .unwrap()
            .with_timezone(&chrono_tz::America::New_York);
        let hourly = format!(
            "solana-up-or-down-{}-{}-{}{}-et",
            ny.format("%B").to_string().to_lowercase(),
            ny.format("%-d"),
            ny.format("%-I"),
            ny.format("%P")
        );
        assert_eq!(
            build_slug(Coin::Sol, Duration::H1, ts, SlugConfig::default()).unwrap(),
            hourly
        );
        let tomorrow = ny.date_naive().succ_opt().unwrap();
        let daily = format!(
            "ethereum-up-or-down-on-{}-{}",
            tomorrow.format("%B").to_string().to_lowercase(),
            tomorrow.day()
        );
        assert_eq!(
            build_slug(Coin::Eth, Duration::D1, ts, SlugConfig::default()).unwrap(),
            daily
        );
        let block = chrono_tz::America::New_York
            .with_ymd_and_hms(ny.year(), ny.month(), ny.day(), (ny.hour() / 4) * 4, 0, 0)
            .single()
            .unwrap()
            .timestamp();
        assert_eq!(
            build_slug(Coin::Xrp, Duration::H4, ts, SlugConfig::default()).unwrap(),
            format!("xrp-updown-4h-{block}")
        );
        ts += 3_599;
    }
}
