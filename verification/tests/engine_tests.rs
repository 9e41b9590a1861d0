use pmm::features::{validate_request, MAX_REPORTED_GAP_RANGES};
use pmm::{
    build_feature_schema, expected_points, symbol_index, transform_store_range, validate_config,
    FeatureCell, FeatureError, FeatureTransformConfig, FeatureTransformRequest, GapPolicy,
    KlinePoint, StorePoint, TransformEngine, FEATURE_SCHEMA_VERSION,
};
use sha2::Digest;

const START: i64 = 1_735_689_600_000;

fn point(ts: i64, symbol_id: i64, tag: u64) -> StorePoint {
    StorePoint {
        ts_ms_utc: ts,
        symbol_id,
        point: KlinePoint {
            high: tag + 2,
            low: tag,
            close: tag + 1,
            quote_asset_volume: tag + 3,
        },
    }
}

fn frame(ts: i64, tag: u64) -> Vec<StorePoint> {
    (1..=4).map(|id| point(ts, id, tag * 10 + id as u64)).collect()
}

fn frames(indices: &[i64]) -> Vec<StorePoint> {
    indices
        .iter()
        .flat_map(|i| frame(START + i * 1_000, *i as u64))
        .collect()
}

fn config(windows: &[u32], gap_policy: GapPolicy) -> FeatureTransformConfig {
    FeatureTransformConfig {
        windows_seconds: windows.to_vec(),
        max_duration_seconds: 86_400,
        gap_policy,
        schema_version: FEATURE_SCHEMA_VERSION,
    }
}

fn request(points: i64) -> FeatureTransformRequest {
    FeatureTransformRequest {
        start_ts_ms_utc: START,
        end_ts_ms_utc_exclusive: START + points * 1_000,
    }
}

#[test]
fn default_config_is_strict_with_three_windows() {
    let cfg = FeatureTransformConfig::default();
    assert_eq!(cfg.windows_seconds, vec![5, 15, 60]);
    assert_eq!(cfg.max_duration_seconds, 86_400);
    assert_eq!(cfg.gap_policy, GapPolicy::Strict);
    assert_eq!(cfg.schema_version, 1);
    assert!(validate_config(&cfg).is_ok());
}

#[test]
fn config_complaints_name_the_first_fault() {
    let message = |cfg: &FeatureTransformConfig| match validate_config(cfg).unwrap_err() {
        FeatureError::InvalidConfig(message) => message,
        other => panic!("unexpected error: {other:?}"),
    };
    let mut cfg = config(&[2, 0, 2], GapPolicy::Strict);
    assert_eq!(message(&cfg), "windows_seconds entries must be > 0");
    cfg.windows_seconds = vec![2, 3, 2, 0];
    assert_eq!(message(&cfg), "windows_seconds entries must be unique");
    cfg.windows_seconds = vec![];
    assert_eq!(message(&cfg), "windows_seconds must not be empty");
    cfg.schema_version = 2;
    assert_eq!(
        message(&cfg),
        "schema_version must equal FEATURE_SCHEMA_VERSION (1)"
    );
    cfg.max_duration_seconds = 0;
    assert_eq!(message(&cfg), "max_duration_seconds must be > 0");
    assert!(validate_config(&config(&[u32::MAX, 1], GapPolicy::Strict)).is_ok());
}

#[test]
fn request_complaints_name_the_fault() {
    let message = |start: i64, end: i64| match validate_request(&FeatureTransformRequest {
        start_ts_ms_utc: start,
        end_ts_ms_utc_exclusive: end,
    })
    .unwrap_err()
    {
        FeatureError::InvalidRequest(message) => message,
        other => panic!("unexpected error: {other:?}"),
    };
    assert_eq!(
        message(1_000, 1_000),
        "end timestamp must be greater than start timestamp"
    );
    assert_eq!(
        message(2_000, 1_000),
        "end timestamp must be greater than start timestamp"
    );
    assert_eq!(
        message(1_000, 2_001),
        "request boundaries must be aligned to 1000ms"
    );
    assert_eq!(
        message(-999, 2_000),
        "request boundaries must be aligned to 1000ms"
    );
    assert!(validate_request(&FeatureTransformRequest {
        start_ts_ms_utc: -9_223_372_036_854_775_000,
        end_ts_ms_utc_exclusive: 9_223_372_036_854_775_000,
    })
    .is_ok());
}

#[test]
fn transform_validates_request_then_config() {
    let bad_req = FeatureTransformRequest {
        start_ts_ms_utc: 5,
        end_ts_ms_utc_exclusive: 1,
    };
    let bad_cfg = config(&[], GapPolicy::Strict);
    assert!(matches!(
        transform_store_range(&Vec::new(), &bad_req, &bad_cfg).unwrap_err(),
        FeatureError::InvalidRequest(_)
    ));
    assert!(matches!(
        transform_store_range(&Vec::new(), &request(3), &bad_cfg).unwrap_err(),
        FeatureError::InvalidConfig(_)
    ));
}

#[test]
fn expected_points_counts_whole_steps() {
    assert_eq!(expected_points(0, 3_000), 3);
    assert_eq!(expected_points(0, 3_999), 3);
    assert_eq!(expected_points(5, 5), 0);
    assert_eq!(expected_points(6, 5), 0);
    assert_eq!(expected_points(-2_000, 1_000), 3);
    assert_eq!(
        expected_points(i64::MIN, i64::MAX),
        18_446_744_073_709_551
    );
}

#[test]
fn symbol_ids_run_from_one_to_four() {
    assert_eq!(symbol_index(0), None);
    assert_eq!(symbol_index(1), Some(0));
    assert_eq!(symbol_index(2), Some(1));
    assert_eq!(symbol_index(3), Some(2));
    assert_eq!(symbol_index(4), Some(3));
    assert_eq!(symbol_index(5), None);
    assert_eq!(symbol_index(-1), None);
}

#[test]
fn corrupt_streams_are_fatal_under_every_policy() {
    for policy in [GapPolicy::Strict, GapPolicy::ReportAndSkip] {
        let cfg = config(&[1], policy);
        let unknown = vec![point(START, 1, 1), point(START, 5, 1)];
        match transform_store_range(&unknown, &request(3), &cfg).unwrap_err() {
            FeatureError::UnknownSymbolId {
                symbol_id,
                ts_ms_utc,
            } => {
                assert_eq!(symbol_id, 5);
                assert_eq!(ts_ms_utc, START);
            }
            other => panic!("unexpected error: {other:?}"),
        }
        let duplicate = vec![point(START, 2, 1), point(START, 2, 2)];
        match transform_store_range(&duplicate, &request(3), &cfg).unwrap_err() {
            FeatureError::DuplicateSymbolInFrame {
                symbol_id,
                ts_ms_utc,
            } => {
                assert_eq!(symbol_id, 2);
                assert_eq!(ts_ms_utc, START);
            }
            other => panic!("unexpected error: {other:?}"),
        }
        let off_grid = vec![point(START + 1, 1, 1)];
        match transform_store_range(&off_grid, &request(3), &cfg).unwrap_err() {
            FeatureError::InvalidTimestamp(ts) => assert_eq!(ts, START + 1),
            other => panic!("unexpected error: {other:?}"),
        }
    }
}

#[test]
fn strict_policy_names_leading_and_trailing_gaps() {
    let cfg = config(&[1], GapPolicy::Strict);
    match transform_store_range(&frames(&[2, 3]), &request(4), &cfg).unwrap_err() {
        FeatureError::ContinuityGap {
            expected_next_ts_ms_utc,
            actual_ts_ms_utc,
            missing_points,
        } => {
            assert_eq!(expected_next_ts_ms_utc, START);
            assert_eq!(actual_ts_ms_utc, START + 2_000);
            assert_eq!(missing_points, 2);
        }
        other => panic!("unexpected error: {other:?}"),
    }
    match transform_store_range(&frames(&[0, 1]), &request(5), &cfg).unwrap_err() {
        FeatureError::ContinuityGap {
            expected_next_ts_ms_utc,
            actual_ts_ms_utc,
            missing_points,
        } => {
            assert_eq!(expected_next_ts_ms_utc, START + 2_000);
            assert_eq!(actual_ts_ms_utc, START + 5_000);
            assert_eq!(missing_points, 3);
        }
        other => panic!("unexpected error: {other:?}"),
    }
    match transform_store_range(&Vec::new(), &request(5), &cfg).unwrap_err() {
        FeatureError::ContinuityGap {
            expected_next_ts_ms_utc,
            actual_ts_ms_utc,
            missing_points,
        } => {
            assert_eq!(expected_next_ts_ms_utc, START);
            assert_eq!(actual_ts_ms_utc, START + 5_000);
            assert_eq!(missing_points, 5);
        }
        other => panic!("unexpected error: {other:?}"),
    }
}

#[test]
fn strict_policy_names_every_missing_symbol_in_order() {
    let cfg = config(&[1], GapPolicy::Strict);
    let points = vec![point(START, 3, 1)];
    match transform_store_range(&points, &request(1), &cfg).unwrap_err() {
        FeatureError::IncompleteFrame {
            ts_ms_utc,
            missing_symbols,
        } => {
            assert_eq!(ts_ms_utc, START);
            assert_eq!(missing_symbols, vec!["BTC", "ETH", "XRP"]);
        }
        other => panic!("unexpected error: {other:?}"),
    }
}

#[test]
fn warm_up_takes_the_largest_window_and_windows_hold_the_latest_points() {
    let cfg = config(&[3, 1], GapPolicy::Strict);
    let (_, rows, report) =
        transform_store_range(&frames(&[0, 1, 2, 3, 4, 5]), &request(6), &cfg).unwrap();
    assert_eq!(report.input_points, 6);
    assert_eq!(report.output_points, 3);
    let times: Vec<i64> = rows.iter().map(|r| r.ts_ms_utc).collect();
    assert_eq!(times, vec![START + 3_000, START + 4_000, START + 5_000]);
    for (k, row) in rows.iter().enumerate() {
        assert_eq!(row.windows.len(), 4);
        for (s, history) in row.windows.iter().enumerate() {
            let closes: Vec<u64> = history.iter().map(|p| p.close).collect();
            let expected: Vec<u64> = (k as u64..k as u64 + 4)
                .map(|i| i * 10 + s as u64 + 1 + 1)
                .collect();
            assert_eq!(closes, expected);
        }
    }
}

#[test]
fn report_and_skip_restarts_warm_up_after_every_fault() {
    let cfg = config(&[2], GapPolicy::ReportAndSkip);
    // frames 0..=2 warm up and emit once; frame 3 lacks a symbol; frame 6 is
    // missing; the request ends two steps after the last frame
    let mut points = frames(&[0, 1, 2]);
    points.extend(frame(START + 3_000, 3).into_iter().filter(|p| p.symbol_id != 4));
    points.extend(frames(&[4, 5, 7, 8, 9, 10]));
    let (_, rows, report) = transform_store_range(&points, &request(13), &cfg).unwrap();
    let times: Vec<i64> = rows.iter().map(|r| r.ts_ms_utc).collect();
    assert_eq!(times, vec![START + 2_000, START + 9_000, START + 10_000]);
    assert_eq!(report.input_points, 13);
    assert_eq!(report.output_points, 3);
    assert_eq!(report.skipped_points, 1 + 1 + 2);
    assert_eq!(
        report.gap_ranges,
        vec![
            (START + 3_000, START + 4_000),
            (START + 6_000, START + 7_000),
            (START + 11_000, START + 13_000),
        ]
    );
    assert_eq!(
        report.first_error,
        Some(format!("incomplete frame at {}", START + 3_000))
    );
    // the windows of the first row after the reset hold nothing from before it
    let closes: Vec<u64> = rows[1].windows[0].iter().map(|p| p.close).collect();
    assert_eq!(closes, vec![72, 82, 92]);
}

#[test]
fn report_and_skip_words_a_continuity_gap() {
    let cfg = config(&[1], GapPolicy::ReportAndSkip);
    let (_, rows, report) = transform_store_range(&frames(&[1, 2]), &request(3), &cfg).unwrap();
    assert_eq!(rows.len(), 1);
    assert_eq!(
        report.first_error,
        Some(format!("continuity gap from {} to {}", START, START + 1_000))
    );
    assert_eq!(report.skipped_points, 1);
    let (_, rows, report) = transform_store_range(&Vec::new(), &request(3), &cfg).unwrap();
    assert!(rows.is_empty());
    assert_eq!(report.skipped_points, 3);
    assert_eq!(report.gap_ranges, vec![(START, START + 3_000)]);
}

#[test]
fn report_lists_at_most_256_gap_ranges() {
    let cfg = config(&[1], GapPolicy::ReportAndSkip);
    let indices: Vec<i64> = (0..300).map(|i| 2 * i + 1).collect();
    let (_, rows, report) =
        transform_store_range(&frames(&indices), &request(600), &cfg).unwrap();
    assert!(rows.is_empty());
    assert_eq!(report.skipped_points, 300);
    assert_eq!(report.gap_ranges.len(), MAX_REPORTED_GAP_RANGES);
    assert_eq!(report.gap_ranges[255], (START + 510_000, START + 511_000));
}

#[test]
fn frames_outside_the_request_are_ignored() {
    let cfg = config(&[1], GapPolicy::Strict);
    let mut points = frame(START - 1_000, 9);
    points.extend(frames(&[0, 1]));
    points.extend(frame(START + 2_000, 9));
    let (_, rows, report) = transform_store_range(&points, &request(2), &cfg).unwrap();
    assert_eq!(rows.len(), 1);
    assert_eq!(rows[0].ts_ms_utc, START + 1_000);
    assert_eq!(report.skipped_points, 0);
}

#[test]
fn engine_steps_agree_with_the_whole_transform() {
    let cfg = config(&[2], GapPolicy::ReportAndSkip);
    let req = request(8);
    let points = frames(&[0, 1, 2, 3, 5, 6, 7]);
    let (_, rows, report) = transform_store_range(&points, &req, &cfg).unwrap();

    let mut engine = TransformEngine::new(&req, &cfg).unwrap();
    let mut emitted = Vec::new();
    for p in &points {
        if let Some(frame) = engine.push_point(*p).unwrap() {
            emitted.push(frame);
        }
    }
    let (last, stepped_report) = engine.finish().unwrap();
    emitted.extend(last);
    assert_eq!(emitted, rows);
    assert_eq!(stepped_report, report);
    assert_eq!(rows.len(), 3);
}

#[test]
fn fingerprint_is_the_digest_of_the_configuration_text() {
    let cfg = FeatureTransformConfig {
        windows_seconds: vec![5, 15],
        max_duration_seconds: 86_400,
        gap_policy: GapPolicy::Strict,
        schema_version: FEATURE_SCHEMA_VERSION,
    };
    let schema = build_feature_schema(&cfg);
    let mut text = String::from("version:1;max_duration_seconds:86400;windows:5,15,;columns:");
    for column in &schema.columns {
        text.push_str(&column.name);
        text.push_str(":f64;");
    }
    assert_eq!(
        schema.fingerprint,
        hex::encode(sha2::Sha256::digest(text.as_bytes()))
    );
    assert_eq!(schema.fingerprint.len(), 64);
    let names: Vec<&str> = schema.columns.iter().map(|c| c.name.as_str()).collect();
    assert_eq!(
        &names[27..],
        &[
            "xrp_ret_1s",
            "xrp_ret_5s",
            "xrp_ret_15s",
            "xrp_range_5s",
            "xrp_range_15s",
            "xrp_vol_5s",
            "xrp_vol_15s",
            "xrp_quote_vol_5s",
            "xrp_quote_vol_15s",
            "tow_sin",
            "tow_cos"
        ]
    );
}

#[test]
fn fingerprint_changes_with_version_windows_and_duration() {
    let base = config(&[5, 15], GapPolicy::Strict);
    let fingerprint = build_feature_schema(&base).fingerprint;
    let mut other = base.clone();
    other.schema_version = 2;
    assert_ne!(build_feature_schema(&other).fingerprint, fingerprint);
    let mut other = base.clone();
    other.windows_seconds = vec![15, 5];
    assert_ne!(build_feature_schema(&other).fingerprint, fingerprint);
    let mut other = base.clone();
    other.windows_seconds = vec![51, 5];
    assert_ne!(build_feature_schema(&other).fingerprint, fingerprint);
    let mut other = base.clone();
    other.max_duration_seconds = 86_401;
    assert_ne!(build_feature_schema(&other).fingerprint, fingerprint);
    let mut other = base.clone();
    other.gap_policy = GapPolicy::ReportAndSkip;
    assert_eq!(build_feature_schema(&other).fingerprint, fingerprint);
}

#[test]
fn strict_policy_names_the_tail_gap_after_the_last_frame() {
    let cfg = config(&[2], GapPolicy::Strict);
    let req = FeatureTransformRequest {
        start_ts_ms_utc: START,
        end_ts_ms_utc_exclusive: START + 7_000,
    };
    match transform_store_range(&frames(&[0, 1, 2, 3, 4]), &req, &cfg).unwrap_err() {
        FeatureError::ContinuityGap {
            expected_next_ts_ms_utc,
            actual_ts_ms_utc,
            missing_points,
        } => {
            assert_eq!(expected_next_ts_ms_utc, 1_735_689_605_000);
            assert_eq!(actual_ts_ms_utc, 1_735_689_607_000);
            assert_eq!(missing_points, 2);
        }
        other => panic!("unexpected error: {other:?}"),
    }
}

#[test]
fn points_out_of_order_are_fatal_under_every_policy() {
    for policy in [GapPolicy::Strict, GapPolicy::ReportAndSkip] {
        let cfg = config(&[1], policy);
        // a frame that goes back in time
        let mut points = frames(&[0, 1, 2]);
        points.extend(frame(START + 1_000, 9));
        match transform_store_range(&points, &request(4), &cfg).unwrap_err() {
            FeatureError::InvalidTimestamp(ts) => assert_eq!(ts, START + 1_000),
            other => panic!("unexpected error: {other:?}"),
        }
        // a point of an earlier frame after a frame outside the request
        let mut points = frame(START + 9_000, 9);
        points.extend(frames(&[0]));
        match transform_store_range(&points, &request(4), &cfg).unwrap_err() {
            FeatureError::InvalidTimestamp(ts) => assert_eq!(ts, START),
            other => panic!("unexpected error: {other:?}"),
        }
        // a frame handed to the engine again
        let mut engine = TransformEngine::new(&request(4), &cfg).unwrap();
        for p in frames(&[0, 1]) {
            engine.push_point(p).unwrap();
        }
        let again = pmm::Frame {
            ts_ms_utc: START,
            points: [Some(point(START, 1, 1).point); 4],
        };
        assert!(matches!(
            engine.process_frame(&again).unwrap_err(),
            FeatureError::InvalidTimestamp(ts) if ts == START
        ));
    }
}

#[test]
fn seconds_of_the_week_count_from_monday() {
    // 2025-01-01 was a Wednesday
    assert_eq!(pmm::time_of_week_seconds(START).unwrap(), 2 * 86_400);
    assert_eq!(pmm::time_of_week_seconds(START + 999).unwrap(), 2 * 86_400);
    assert_eq!(pmm::time_of_week_seconds(START + 1_000).unwrap(), 2 * 86_400 + 1);
    // the epoch was a Thursday
    assert_eq!(pmm::time_of_week_seconds(0).unwrap(), 3 * 86_400);
    assert_eq!(pmm::time_of_week_seconds(-1).unwrap(), 3 * 86_400 - 1);
    assert_eq!(pmm::time_of_week_seconds(-1_000).unwrap(), 3 * 86_400 - 1);
    assert_eq!(pmm::time_of_week_seconds(4 * 86_400_000).unwrap(), 0);
    assert_eq!(pmm::time_of_week_seconds(4 * 86_400_000 - 1).unwrap(), 604_799);
    assert!(matches!(
        pmm::time_of_week_seconds(i64::MAX).unwrap_err(),
        FeatureError::InvalidTimestamp(i64::MAX)
    ));
    let mut ts: i64 = -62_000_000_000_000;
    while ts < 62_000_000_000_000 {
        let dt = chrono::TimeZone::timestamp_millis_opt(&chrono::Utc, ts)
            .single()
            .unwrap();
        let expected = chrono::Datelike::weekday(&dt).num_days_from_monday() * 86_400
            + chrono::Timelike::hour(&dt) * 3_600
            + chrono::Timelike::minute(&dt) * 60
            + chrono::Timelike::second(&dt);
        assert_eq!(pmm::time_of_week_seconds(ts).unwrap(), expected, "at {ts}");
        ts += 98_765_432_111;
    }
}

#[test]
fn rows_stand_where_a_full_run_of_complete_frames_ends() {
    let cfg = config(&[1, 3], GapPolicy::ReportAndSkip);
    // steps 5 and 12 are missing from the store and step 9 lacks a symbol
    let complete: Vec<i64> = vec![0, 1, 2, 3, 4, 6, 7, 8, 10, 11, 13, 14, 15, 16, 17, 18];
    let mut points = Vec::new();
    for step in 0..19 {
        if complete.contains(&step) {
            points.extend(frames(&[step]));
        } else if step == 9 {
            points.extend(frame(START + 9_000, 9).into_iter().filter(|p| p.symbol_id != 2));
        }
    }
    let (_, rows, report) = transform_store_range(&points, &request(19), &cfg).unwrap();
    let times: Vec<i64> = rows.iter().map(|r| (r.ts_ms_utc - START) / 1_000).collect();
    // a row is due where the step and the three before it are complete
    let due: Vec<i64> = (0..19)
        .filter(|step| (0..=3).all(|back| complete.contains(&(step - back))))
        .collect();
    assert_eq!(due, vec![3, 4, 16, 17, 18]);
    assert_eq!(times, due);
    assert_eq!(report.output_points, 5);
    assert_eq!(report.skipped_points, 3);
    assert!(rows.len() <= points.len());
}

#[test]
fn cells_name_the_numbers_of_every_column_in_schema_order() {
    let cfg = config(&[1, 2], GapPolicy::Strict);
    let (schema, rows, _) =
        transform_store_range(&frames(&[0, 1, 2]), &request(3), &cfg).unwrap();
    assert_eq!(rows.len(), 1);
    let cells = pmm::feature_cells(&rows[0], &cfg.windows_seconds).unwrap();
    assert_eq!(schema.columns.len(), 38);
    assert_eq!(cells.len(), 38);
    // the first symbol closes at 2, 12 and 22, with highs one above, lows one
    // below and quote volumes two above
    assert_eq!(cells[0], FeatureCell::LogReturn { close: 22, earlier_close: 12 });
    assert_eq!(cells[1], FeatureCell::LogReturn { close: 22, earlier_close: 12 });
    assert_eq!(cells[2], FeatureCell::LogReturn { close: 22, earlier_close: 2 });
    assert_eq!(cells[3], FeatureCell::LogRange { highs: vec![23], lows: vec![21] });
    assert_eq!(
        cells[4],
        FeatureCell::LogRange { highs: vec![13, 23], lows: vec![11, 21] }
    );
    assert_eq!(cells[5], FeatureCell::ReturnDeviation { closes: vec![12, 22] });
    assert_eq!(cells[6], FeatureCell::ReturnDeviation { closes: vec![2, 12, 22] });
    assert_eq!(cells[7], FeatureCell::LogQuoteVolume { quote_volumes: vec![24] });
    assert_eq!(cells[8], FeatureCell::LogQuoteVolume { quote_volumes: vec![14, 24] });
    // the second symbol follows the first
    assert_eq!(schema.columns[9].name, "eth_ret_1s");
    assert_eq!(cells[9], FeatureCell::LogReturn { close: 23, earlier_close: 13 });
    assert_eq!(schema.columns[35].name, "xrp_quote_vol_2s");
    assert_eq!(cells[35], FeatureCell::LogQuoteVolume { quote_volumes: vec![17, 27] });
    // the row stands two seconds into a Wednesday
    assert_eq!(cells[36], FeatureCell::TimeOfWeekSine { second_of_week: 172_802 });
    assert_eq!(cells[37], FeatureCell::TimeOfWeekCosine { second_of_week: 172_802 });
    // a history of three points reaches back over two steps and no further
    assert!(pmm::fits_windows(&rows[0], &vec![2]));
    assert!(!pmm::fits_windows(&rows[0], &vec![3]));
    assert!(!pmm::fits_windows(&rows[0], &vec![0]));
    let far = pmm::WarmFrame { ts_ms_utc: i64::MAX, windows: rows[0].windows.clone() };
    assert!(matches!(
        pmm::feature_cells(&far, &cfg.windows_seconds).unwrap_err(),
        FeatureError::InvalidTimestamp(i64::MAX)
    ));
}
