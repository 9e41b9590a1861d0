use pmm::{
    assert_schema_compatible, build_feature_schema, feature_cells, fits_windows,
    transform_store_range, transform_store_range_for_runtime_cold_start,
    transform_store_range_for_training, FeatureCell, FeatureError, FeatureSchema,
    FeatureTransformConfig, FeatureTransformRequest, GapPolicy, KlinePoint, StorePoint,
    WarmFrame, FEATURE_SCHEMA_VERSION,
};

const START_TS_MS: i64 = 1_735_689_600_000; // 2025-01-01T00:00:00Z
const STEP_MS: i64 = 1_000;

fn base_close(symbol_id: i64) -> f64 {
    1_000.0 + 100.0 * (symbol_id as f64 - 1.0)
}

fn btc_base_close() -> f64 {
    base_close(1)
}

fn btc_quote_vol(t_idx: f64) -> f64 {
    1_000.0 + 10.0 + t_idx
}

fn seed_points(
    start_ts_ms: i64,
    points: usize,
    missing_symbol: Option<(usize, i64)>,
    skipped_timestamps: &[usize],
) -> Vec<StorePoint> {
    let mut out = Vec::new();
    for t_idx in 0..points {
        if skipped_timestamps.contains(&t_idx) {
            continue;
        }
        let ts_ms = start_ts_ms + t_idx as i64 * STEP_MS;
        for symbol_id in 1_i64..=4_i64 {
            if missing_symbol == Some((t_idx, symbol_id)) {
                continue;
            }
            let close = base_close(symbol_id) + t_idx as f64;
            let high = close + 0.5;
            let low = close - 0.5;
            let quote_vol = 1_000.0 + symbol_id as f64 * 10.0 + t_idx as f64;
            out.push(StorePoint {
                ts_ms_utc: ts_ms,
                symbol_id,
                point: KlinePoint {
                    high: high.to_bits(),
                    low: low.to_bits(),
                    close: close.to_bits(),
                    quote_asset_volume: quote_vol.to_bits(),
                },
            });
        }
    }
    out
}

fn stddev(values: &[f64]) -> f64 {
    let mean = values.iter().sum::<f64>() / values.len() as f64;
    let variance = values
        .iter()
        .map(|v| {
            let d = *v - mean;
            d * d
        })
        .sum::<f64>()
        / values.len() as f64;
    variance.sqrt()
}

fn assert_close(actual: f64, expected: f64) {
    assert!(
        (actual - expected).abs() < 1e-12,
        "actual={actual} expected={expected}"
    );
}

fn column_index(schema: &FeatureSchema, name: &str) -> usize {
    schema
        .columns
        .iter()
        .position(|column| column.name == name)
        .expect("column must exist")
}

fn number(bits: &u64) -> f64 {
    f64::from_bits(*bits)
}

/// The value of one statistic over the numbers that the library names.
fn cell_value(cell: &FeatureCell) -> f64 {
    match cell {
        FeatureCell::LogReturn {
            close,
            earlier_close,
        } => (number(close) / number(earlier_close)).ln(),
        FeatureCell::LogRange { highs, lows } => {
            let max_high = highs.iter().map(number).fold(f64::MIN, f64::max);
            let min_low = lows.iter().map(number).fold(f64::MAX, f64::min);
            (max_high / min_low).ln()
        }
        FeatureCell::ReturnDeviation { closes } => {
            let returns: Vec<f64> = closes
                .windows(2)
                .map(|pair| (number(&pair[1]) / number(&pair[0])).ln())
                .collect();
            stddev(&returns)
        }
        FeatureCell::LogQuoteVolume { quote_volumes } => {
            (1.0 + quote_volumes.iter().map(number).sum::<f64>()).ln()
        }
        FeatureCell::TimeOfWeekSine { second_of_week } => {
            (2.0 * std::f64::consts::PI * (*second_of_week as f64 / 604_800.0)).sin()
        }
        FeatureCell::TimeOfWeekCosine { second_of_week } => {
            (2.0 * std::f64::consts::PI * (*second_of_week as f64 / 604_800.0)).cos()
        }
    }
}

/// The feature values of a warm frame, in column order.
fn feature_values(frame: &WarmFrame, windows: &[u32]) -> Vec<f64> {
    let windows = windows.to_vec();
    assert!(fits_windows(frame, &windows));
    feature_cells(frame, &windows)
        .unwrap()
        .iter()
        .map(cell_value)
        .collect()
}

#[test]
fn schema_order_and_fingerprint_are_deterministic() {
    let cfg = FeatureTransformConfig {
        windows_seconds: vec![5, 15],
        max_duration_seconds: 86_400,
        gap_policy: GapPolicy::Strict,
        schema_version: FEATURE_SCHEMA_VERSION,
    };

    let schema_a = build_feature_schema(&cfg);
    let schema_b = build_feature_schema(&cfg);

    assert_eq!(schema_a.version, FEATURE_SCHEMA_VERSION);
    assert_eq!(schema_a.columns.len(), 38);
    assert_eq!(schema_a.columns[0].name, "btc_ret_1s");
    assert_eq!(schema_a.columns[1].name, "btc_ret_5s");
    assert_eq!(schema_a.columns[2].name, "btc_ret_15s");
    assert_eq!(schema_a.columns[3].name, "btc_range_5s");
    assert_eq!(schema_a.columns[4].name, "btc_range_15s");
    assert_eq!(schema_a.columns[36].name, "tow_sin");
    assert_eq!(schema_a.columns[37].name, "tow_cos");
    assert_eq!(schema_a, schema_b);
    assert_eq!(schema_a.fingerprint.len(), 64);
    assert!(schema_a
        .fingerprint
        .chars()
        .all(|c| c.is_ascii_digit() || ('a'..='f').contains(&c)));
}

#[test]
fn transform_is_deterministic_and_emits_expected_math() {
    let points = seed_points(START_TS_MS, 10, None, &[]);
    let req = FeatureTransformRequest {
        start_ts_ms_utc: START_TS_MS,
        end_ts_ms_utc_exclusive: START_TS_MS + 10 * STEP_MS,
    };
    let cfg = FeatureTransformConfig {
        windows_seconds: vec![2, 3],
        max_duration_seconds: 86_400,
        gap_policy: GapPolicy::Strict,
        schema_version: FEATURE_SCHEMA_VERSION,
    };

    let out_a = transform_store_range(&points, &req, &cfg).expect("first transform succeeds");
    let out_b = transform_store_range(&points, &req, &cfg).expect("second transform succeeds");

    assert_eq!(out_a.0, out_b.0);
    assert_eq!(out_a.1, out_b.1);
    assert_eq!(out_a.2, out_b.2);

    let schema = out_a.0;
    let rows = out_a.1;
    let report = out_a.2;

    assert_eq!(rows.len(), 7);
    assert_eq!(report.input_points, 10);
    assert_eq!(report.output_points, 7);
    assert_eq!(report.skipped_points, 0);
    assert!(report.gap_ranges.is_empty());
    assert_eq!(rows[0].ts_ms_utc, START_TS_MS + 3 * STEP_MS);
    let values = feature_values(&rows[0], &[2, 3]);
    assert_eq!(values.len(), schema.columns.len());

    let b = btc_base_close();
    let t = 3.0_f64;
    let expected_ret_1s = ((b + t) / (b + t - 1.0)).ln();
    let expected_ret_2s = ((b + t) / (b + t - 2.0)).ln();
    let expected_ret_3s = ((b + t) / (b + t - 3.0)).ln();
    let expected_range_2s = ((b + t + 0.5) / (b + t - 1.0 - 0.5)).ln();
    let expected_range_3s = ((b + t + 0.5) / (b + t - 2.0 - 0.5)).ln();

    let r1 = ((b + 1.0) / b).ln();
    let r2 = ((b + 2.0) / (b + 1.0)).ln();
    let r3 = ((b + 3.0) / (b + 2.0)).ln();
    let expected_vol_2s = stddev(&[r2, r3]);
    let expected_vol_3s = stddev(&[r1, r2, r3]);

    let q1 = btc_quote_vol(1.0);
    let q2 = btc_quote_vol(2.0);
    let q3 = btc_quote_vol(3.0);
    let expected_qv_2s = (1.0 + q2 + q3).ln();
    let expected_qv_3s = (1.0 + q1 + q2 + q3).ln();

    assert_close(values[column_index(&schema, "btc_ret_1s")], expected_ret_1s);
    assert_close(values[column_index(&schema, "btc_ret_2s")], expected_ret_2s);
    assert_close(values[column_index(&schema, "btc_ret_3s")], expected_ret_3s);
    assert_close(values[column_index(&schema, "btc_range_2s")], expected_range_2s);
    assert_close(values[column_index(&schema, "btc_range_3s")], expected_range_3s);
    assert_close(values[column_index(&schema, "btc_vol_2s")], expected_vol_2s);
    assert_close(values[column_index(&schema, "btc_vol_3s")], expected_vol_3s);
    assert_close(values[column_index(&schema, "btc_quote_vol_2s")], expected_qv_2s);
    assert_close(values[column_index(&schema, "btc_quote_vol_3s")], expected_qv_3s);
}

#[test]
fn strict_policy_fails_on_incomplete_frame() {
    let points = seed_points(START_TS_MS, 6, Some((3, 2)), &[]);
    let req = FeatureTransformRequest {
        start_ts_ms_utc: START_TS_MS,
        end_ts_ms_utc_exclusive: START_TS_MS + 6 * STEP_MS,
    };
    let cfg = FeatureTransformConfig {
        windows_seconds: vec![2],
        max_duration_seconds: 86_400,
        gap_policy: GapPolicy::Strict,
        schema_version: FEATURE_SCHEMA_VERSION,
    };

    let err = transform_store_range(&points, &req, &cfg).expect_err("must fail");
    match err {
        FeatureError::IncompleteFrame {
            ts_ms_utc,
            missing_symbols,
        } => {
            assert_eq!(ts_ms_utc, START_TS_MS + 3 * STEP_MS);
            assert_eq!(missing_symbols, vec!["ETH"]);
        }
        other => panic!("unexpected error: {other:?}"),
    }
}

#[test]
fn report_and_skip_keeps_running_and_reports_gap() {
    let points = seed_points(START_TS_MS, 6, Some((3, 2)), &[]);
    let req = FeatureTransformRequest {
        start_ts_ms_utc: START_TS_MS,
        end_ts_ms_utc_exclusive: START_TS_MS + 6 * STEP_MS,
    };
    let cfg = FeatureTransformConfig {
        windows_seconds: vec![2],
        max_duration_seconds: 86_400,
        gap_policy: GapPolicy::ReportAndSkip,
        schema_version: FEATURE_SCHEMA_VERSION,
    };

    let (_schema, rows, report) =
        transform_store_range(&points, &req, &cfg).expect("transform succeeds");
    assert_eq!(rows.len(), 1);
    assert_eq!(rows[0].ts_ms_utc, START_TS_MS + 2 * STEP_MS);
    assert!(report.skipped_points >= 1);
    assert_eq!(
        report.gap_ranges[0],
        (START_TS_MS + 3 * STEP_MS, START_TS_MS + 4 * STEP_MS)
    );
    assert!(report.first_error.is_some());
}

#[test]
fn strict_policy_fails_on_missing_timestamp_continuity_gap() {
    let points = seed_points(START_TS_MS, 7, None, &[4]);
    let req = FeatureTransformRequest {
        start_ts_ms_utc: START_TS_MS,
        end_ts_ms_utc_exclusive: START_TS_MS + 7 * STEP_MS,
    };
    let cfg = FeatureTransformConfig {
        windows_seconds: vec![2],
        max_duration_seconds: 86_400,
        gap_policy: GapPolicy::Strict,
        schema_version: FEATURE_SCHEMA_VERSION,
    };

    let err = transform_store_range(&points, &req, &cfg).expect_err("must fail");
    match err {
        FeatureError::ContinuityGap {
            expected_next_ts_ms_utc,
            actual_ts_ms_utc,
            missing_points,
        } => {
            assert_eq!(expected_next_ts_ms_utc, START_TS_MS + 4 * STEP_MS);
            assert_eq!(actual_ts_ms_utc, START_TS_MS + 5 * STEP_MS);
            assert_eq!(missing_points, 1);
        }
        other => panic!("unexpected error: {other:?}"),
    }
}

#[test]
fn schema_compatibility_check_matches_version_and_fingerprint() {
    let cfg = FeatureTransformConfig {
        windows_seconds: vec![2],
        max_duration_seconds: 86_400,
        gap_policy: GapPolicy::Strict,
        schema_version: FEATURE_SCHEMA_VERSION,
    };
    let schema = build_feature_schema(&cfg);

    assert_schema_compatible(FEATURE_SCHEMA_VERSION, &schema.fingerprint, &schema)
        .expect("compatibility should pass");

    let err = assert_schema_compatible(FEATURE_SCHEMA_VERSION + 1, &schema.fingerprint, &schema)
        .expect_err("version mismatch expected");
    assert!(matches!(err, FeatureError::SchemaVersionMismatch { .. }));

    let err = assert_schema_compatible(FEATURE_SCHEMA_VERSION, "not-real", &schema)
        .expect_err("fingerprint mismatch expected");
    assert!(matches!(
        err,
        FeatureError::SchemaFingerprintMismatch { .. }
    ));
}

#[test]
fn training_and_runtime_wrappers_share_same_transform_output() {
    let points = seed_points(START_TS_MS, 10, None, &[]);
    let req = FeatureTransformRequest {
        start_ts_ms_utc: START_TS_MS,
        end_ts_ms_utc_exclusive: START_TS_MS + 10 * STEP_MS,
    };
    let cfg = FeatureTransformConfig {
        windows_seconds: vec![2],
        max_duration_seconds: 86_400,
        gap_policy: GapPolicy::Strict,
        schema_version: FEATURE_SCHEMA_VERSION,
    };

    let training = transform_store_range_for_training(&points, &req, &cfg).expect("training");
    let runtime =
        transform_store_range_for_runtime_cold_start(&points, &req, &cfg).expect("runtime");
    assert_eq!(training, runtime);
}
