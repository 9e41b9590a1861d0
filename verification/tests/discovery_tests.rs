use chrono::TimeZone;
use pmm::{
    build_active_and_next_discovery_keys, build_active_discovery_keys,
    build_previous_active_and_next_discovery_keys, interval_starts_for_now,
    resolve_discovery_batch_with_fetcher, try_interval_starts_for_now, Coin, DiscoveryConfig,
    DiscoveryError, DiscoveryKey, DiscoveryStatus, DiscoveryWindow, Duration, SlugConfig,
    SlugFetchOutcome, UnresolvedReason, ALL_COINS, ALL_DURATIONS,
};
use std::collections::HashMap;

#[derive(Debug, Clone, PartialEq, Eq)]
struct FakeMarket {
    slug: String,
}

fn key(slug: &str) -> DiscoveryKey {
    DiscoveryKey::from_slug(Coin::Btc, Duration::M5, 1_735_689_600, slug.to_string())
}

fn ny_timestamp(year: i32, month: u32, day: u32, hour: u32) -> i64 {
    chrono_tz::America::New_York
        .with_ymd_and_hms(year, month, day, hour, 0, 0)
        .single()
        .unwrap()
        .with_timezone(&chrono::Utc)
        .timestamp()
}

#[test]
fn preserves_input_order_after_dedupe_and_reexpand() {
    let keys = vec![key("slug-b"), key("slug-a"), key("slug-b")];
    let cfg = DiscoveryConfig {
        batch_size: 16,
        ..DiscoveryConfig::default()
    };

    let rows = resolve_discovery_batch_with_fetcher(&keys, &cfg, |slugs| {
        let mut out = Vec::new();
        for slug in slugs {
            out.push((
                slug.clone(),
                SlugFetchOutcome::Found(FakeMarket { slug: slug.clone() }),
            ));
        }
        Ok(out)
    })
    .unwrap();

    assert_eq!(rows.len(), keys.len());
    assert_eq!(rows[0].key.slug, "slug-b");
    assert_eq!(rows[1].key.slug, "slug-a");
    assert_eq!(rows[2].key.slug, "slug-b");
}

#[test]
fn duplicate_slugs_are_fetched_once() {
    let keys = vec![key("same"), key("same"), key("other"), key("same")];
    let cfg = DiscoveryConfig {
        batch_size: 16,
        ..DiscoveryConfig::default()
    };

    let mut seen: HashMap<String, usize> = HashMap::new();

    let rows = resolve_discovery_batch_with_fetcher(&keys, &cfg, |slugs| {
        let mut out = Vec::new();
        for slug in slugs {
            *seen.entry(slug.clone()).or_insert(0) += 1;
            out.push((
                slug.clone(),
                SlugFetchOutcome::Found(FakeMarket { slug: slug.clone() }),
            ));
        }
        Ok(out)
    })
    .unwrap();

    assert_eq!(rows.len(), keys.len());
    assert_eq!(seen.get("same"), Some(&1));
    assert_eq!(seen.get("other"), Some(&1));
}

#[test]
fn missing_slug_becomes_unresolved_not_found() {
    let keys = vec![key("found"), key("missing")];
    let cfg = DiscoveryConfig::default();

    let rows = resolve_discovery_batch_with_fetcher(&keys, &cfg, |_slugs| {
        let mut out = Vec::new();
        out.push((
            "found".to_string(),
            SlugFetchOutcome::Found(FakeMarket {
                slug: "found".to_string(),
            }),
        ));
        Ok(out)
    })
    .unwrap();

    assert!(matches!(
        rows[0].status,
        DiscoveryStatus::Resolved {
            market: FakeMarket { .. }
        }
    ));
    assert_eq!(
        rows[1].status,
        DiscoveryStatus::Unresolved {
            reason: UnresolvedReason::NotFound
        }
    );
}

#[test]
fn transport_error_becomes_unresolved_transport() {
    let keys = vec![key("bad-slug")];
    let cfg = DiscoveryConfig::default();

    let rows = resolve_discovery_batch_with_fetcher(&keys, &cfg, |_slugs| {
        let mut out = Vec::new();
        out.push((
            "bad-slug".to_string(),
            SlugFetchOutcome::<FakeMarket>::TransportError("timeout".to_string()),
        ));
        Ok(out)
    })
    .unwrap();

    assert_eq!(
        rows[0].status,
        DiscoveryStatus::Unresolved {
            reason: UnresolvedReason::TransportError("timeout".to_string())
        }
    );
}

#[test]
fn no_rows_are_dropped_when_unresolved() {
    let keys = vec![key("a"), key("b"), key("c")];
    let cfg = DiscoveryConfig::default();

    let rows = resolve_discovery_batch_with_fetcher::<FakeMarket, _>(&keys, &cfg, |_slugs| {
        Ok(Vec::new())
    })
    .unwrap();
    assert_eq!(rows.len(), keys.len());
    assert!(rows
        .iter()
        .all(|row| matches!(row.status, DiscoveryStatus::Unresolved { .. })));
}

#[test]
fn batch_size_zero_is_rejected() {
    let keys = vec![key("a")];
    let cfg = DiscoveryConfig {
        batch_size: 0,
        ..DiscoveryConfig::default()
    };

    let err = resolve_discovery_batch_with_fetcher::<FakeMarket, _>(&keys, &cfg, |_slugs| {
        Ok(Vec::new())
    })
    .unwrap_err();

    assert!(matches!(err, DiscoveryError::InvalidBatchSize));
}

#[test]
fn slugs_are_fetched_in_batches_of_the_configured_size() {
    let keys = vec![key("a"), key("b"), key("c"), key("a"), key("d"), key("e")];
    let cfg = DiscoveryConfig {
        batch_size: 2,
        ..DiscoveryConfig::default()
    };
    let mut batches: Vec<Vec<String>> = Vec::new();
    let rows = resolve_discovery_batch_with_fetcher::<FakeMarket, _>(&keys, &cfg, |slugs| {
        batches.push(slugs.clone());
        Ok(Vec::new())
    })
    .unwrap();
    assert_eq!(rows.len(), 6);
    assert_eq!(
        batches,
        vec![
            vec!["a".to_string(), "b".to_string()],
            vec!["c".to_string(), "d".to_string()],
            vec!["e".to_string()],
        ]
    );
}

#[test]
fn fetcher_error_ends_the_resolution() {
    let keys = vec![key("a")];
    let cfg = DiscoveryConfig::default();
    let err = resolve_discovery_batch_with_fetcher::<FakeMarket, _>(&keys, &cfg, |_slugs| {
        Err(DiscoveryError::Transport("down".to_string()))
    })
    .unwrap_err();
    assert_eq!(err, DiscoveryError::Transport("down".to_string()));
}

#[test]
fn interval_5m_boundary_rolls_to_next_start() {
    // 2025-01-01 00:05:00 UTC
    let now = 1_735_689_900;
    let starts = interval_starts_for_now(Duration::M5, now, SlugConfig::default());
    assert_eq!(starts.previous_start_ts_utc, 1_735_689_600); // 00:00
    assert_eq!(starts.active_start_ts_utc, 1_735_689_900); // 00:05
    assert_eq!(starts.next_start_ts_utc, 1_735_690_200); // 00:10
}

#[test]
fn interval_15m_boundary_rolls_to_next_start() {
    // 2025-01-01 00:15:00 UTC
    let now = 1_735_690_500;
    let starts = interval_starts_for_now(Duration::M15, now, SlugConfig::default());
    assert_eq!(starts.previous_start_ts_utc, 1_735_689_600); // 00:00
    assert_eq!(starts.active_start_ts_utc, 1_735_690_500); // 00:15
    assert_eq!(starts.next_start_ts_utc, 1_735_691_400); // 00:30
}

#[test]
fn interval_1h_boundary_rolls_to_next_hour_start() {
    // 2025-01-01 13:00:00 UTC
    let now = 1_735_736_400;
    let starts = interval_starts_for_now(Duration::H1, now, SlugConfig::default());
    assert_eq!(starts.previous_start_ts_utc, 1_735_732_800); // 12:00
    assert_eq!(starts.active_start_ts_utc, 1_735_736_400); // 13:00
    assert_eq!(starts.next_start_ts_utc, 1_735_740_000); // 14:00
}

#[test]
fn interval_4h_uses_et_previous_active_and_next_start() {
    let cfg = SlugConfig::default();
    // 2025-01-01 00:30:00 UTC = 2024-12-31 19:30 ET
    // ET 4h boundaries are 00/04/08/12/16/20 ET.
    let now = 1_735_691_400;
    let starts = interval_starts_for_now(Duration::H4, now, cfg);
    let previous = ny_timestamp(2024, 12, 31, 12);
    let active = ny_timestamp(2024, 12, 31, 16);
    let next = ny_timestamp(2024, 12, 31, 20);

    assert_eq!(starts.previous_start_ts_utc, previous);
    assert_eq!(starts.active_start_ts_utc, active);
    assert_eq!(starts.next_start_ts_utc, next);
}

#[test]
fn interval_1d_aligns_to_et_noon_boundaries() {
    let cfg = SlugConfig::default();
    // 2026-02-26 16:20:00 UTC = 11:20 ET, so active window started previous day at 12:00 ET.
    let now = 1_772_122_800;
    let starts = interval_starts_for_now(Duration::D1, now, cfg);

    let previous = ny_timestamp(2026, 2, 24, 12);
    let active = ny_timestamp(2026, 2, 25, 12);
    let next = ny_timestamp(2026, 2, 26, 12);

    assert_eq!(starts.previous_start_ts_utc, previous);
    assert_eq!(starts.active_start_ts_utc, active);
    assert_eq!(starts.next_start_ts_utc, next);
}

#[test]
fn interval_starts_of_negative_instants_round_down() {
    let starts = interval_starts_for_now(Duration::M5, -1, SlugConfig::default());
    assert_eq!(starts.previous_start_ts_utc, -600);
    assert_eq!(starts.active_start_ts_utc, -300);
    assert_eq!(starts.next_start_ts_utc, 0);
}

#[test]
fn interval_starts_stay_within_the_machine_integers() {
    let starts = interval_starts_for_now(Duration::H1, i64::MAX, SlugConfig::default());
    assert_eq!(starts.active_start_ts_utc, 9_223_372_036_854_774_000);
    assert_eq!(starts.next_start_ts_utc, i64::MAX);
    let starts = interval_starts_for_now(Duration::H1, i64::MIN, SlugConfig::default());
    assert_eq!(starts.active_start_ts_utc, i64::MIN);
    assert_eq!(starts.previous_start_ts_utc, i64::MIN);
}

#[test]
fn interval_starts_around_no_date_are_undefined() {
    assert_eq!(
        try_interval_starts_for_now(Duration::H4, i64::MAX, SlugConfig::default()),
        None
    );
    assert_eq!(
        try_interval_starts_for_now(Duration::D1, i64::MIN, SlugConfig::default()),
        None
    );
    assert!(try_interval_starts_for_now(Duration::M5, i64::MAX, SlugConfig::default()).is_some());
}

#[test]
fn active_discovery_keys_use_current_active_interval_start() {
    let now = 1_735_689_900; // 2025-01-01 00:05:00 UTC
    let keys =
        build_active_discovery_keys(now, &ALL_COINS, &[Duration::M5], SlugConfig::default())
            .unwrap();
    assert_eq!(keys.len(), ALL_COINS.len());
    assert_eq!(keys[0].start_ts_utc, 1_735_689_900); // 00:05
    assert_eq!(keys[0].slug, "btc-updown-5m-1735689900");
}

#[test]
fn active_and_next_key_builder_covers_all_pairs() {
    let now = 1_735_689_901;
    let scheduled = build_active_and_next_discovery_keys(
        now,
        &ALL_COINS,
        &ALL_DURATIONS,
        SlugConfig::default(),
    )
    .unwrap();
    assert_eq!(scheduled.len(), ALL_COINS.len() * ALL_DURATIONS.len() * 2);
    assert!(matches!(scheduled[0].window, DiscoveryWindow::Active));
    assert!(matches!(scheduled[1].window, DiscoveryWindow::Next));
}

#[test]
fn previous_active_next_key_builder_covers_all_pairs() {
    let now = 1_735_689_901;
    let scheduled = build_previous_active_and_next_discovery_keys(
        now,
        &ALL_COINS,
        &ALL_DURATIONS,
        SlugConfig::default(),
    )
    .unwrap();
    assert_eq!(scheduled.len(), ALL_COINS.len() * ALL_DURATIONS.len() * 3);
    assert!(matches!(scheduled[0].window, DiscoveryWindow::Previous));
    assert!(matches!(scheduled[1].window, DiscoveryWindow::Active));
    assert!(matches!(scheduled[2].window, DiscoveryWindow::Next));
}

#[test]
fn a_resolution_fails_only_if_every_lookup_failed_in_transport() {
    let keys = vec![key("a"), key("b")];
    let failed = |slug: &str| {
        (
            slug.to_string(),
            SlugFetchOutcome::<FakeMarket>::TransportError("down".to_string()),
        )
    };
    let err = pmm::discovery::finish_resolution(&keys, &vec![failed("a"), failed("b")]).unwrap_err();
    assert_eq!(
        err,
        DiscoveryError::Transport("all slug lookups failed with transport errors".to_string())
    );
    let rows = pmm::discovery::finish_resolution(
        &keys,
        &vec![failed("a"), ("b".to_string(), SlugFetchOutcome::Missing)],
    )
    .unwrap();
    assert_eq!(
        rows[0].status,
        DiscoveryStatus::Unresolved {
            reason: UnresolvedReason::TransportError("down".to_string())
        }
    );
    assert_eq!(
        rows[1].status,
        DiscoveryStatus::Unresolved {
            reason: UnresolvedReason::NotFound
        }
    );
    let none: Vec<DiscoveryKey> = Vec::new();
    assert!(pmm::discovery::finish_resolution(&none, &vec![failed("a")])
        .unwrap()
        .is_empty());
    // the outcome recorded last for a slug counts
    let rows = pmm::discovery::finish_resolution(
        &keys,
        &vec![
            failed("a"),
            (
                "a".to_string(),
                SlugFetchOutcome::Found(FakeMarket {
                    slug: "a".to_string(),
                }),
            ),
        ],
    )
    .unwrap();
    assert!(matches!(rows[0].status, DiscoveryStatus::Resolved { .. }));
}

#[test]
fn lookups_are_retried_with_growing_delays() {
    let cfg = DiscoveryConfig::default();
    assert_eq!(
        pmm::discovery::lookup_retry(&cfg, 0),
        pmm::RetryDecision::Retry {
            attempt: 1,
            sleep_ms: 200
        }
    );
    assert_eq!(
        pmm::discovery::lookup_retry(&cfg, 1),
        pmm::RetryDecision::Retry {
            attempt: 2,
            sleep_ms: 400
        }
    );
    assert_eq!(pmm::discovery::lookup_retry(&cfg, 2), pmm::RetryDecision::GiveUp);
    assert_eq!(
        pmm::discovery::timeout_message(3_000, "btc-updown-5m-1"),
        "timeout after 3000ms while resolving slug btc-updown-5m-1"
    );
}

#[test]
fn durations_have_their_steps_and_no_offset() {
    let steps = [
        (Duration::M5, 300),
        (Duration::M15, 900),
        (Duration::H1, 3_600),
        (Duration::H4, 14_400),
        (Duration::D1, 86_400),
    ];
    for (duration, step) in steps {
        assert_eq!(pmm::discovery::duration_step_seconds(duration), step);
        assert_eq!(
            pmm::discovery::interval_offset_seconds(
                duration,
                SlugConfig {
                    discovery_offset_4h_min: 15
                }
            ),
            0
        );
    }
}
