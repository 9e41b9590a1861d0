use chrono::TimeZone;
use pmm::coverage::compute_coverage;
use pmm::digest::sha256_hex;
use pmm::numbers::is_float_text;
use pmm::sync::{checksum_mismatch, join_path};
use pmm::{
    backoff_duration, load_1s_klines, parse_checksum_payload, parse_kline_record,
    parse_zip_archive, plan_required_archives, retry, stitch_rows, sync_archives, ArchiveBytes,
    ArchiveKind, BinanceSymbol, HistoricalKlinesConfig, Kline1s, KlineLoadError,
    KlineLoadRequest, LocalArchiveSource, RetryDecision, SyncAction, SyncFacts, SyncTask,
};
use std::collections::HashMap;
use std::io::Write;

fn ts_ms(year: i32, month: u32, day: u32, hour: u32, minute: u32, second: u32) -> i64 {
    chrono::Utc
        .with_ymd_and_hms(year, month, day, hour, minute, second)
        .single()
        .expect("valid UTC timestamp expected")
        .timestamp_millis()
}

fn zip_with(entries: &[(&str, &str)]) -> Vec<u8> {
    let mut zip = zip::ZipWriter::new(std::io::Cursor::new(Vec::new()));
    for (name, body) in entries {
        if name.ends_with('/') {
            zip.add_directory(*name, zip::write::SimpleFileOptions::default())
                .expect("zip directory should be created");
        } else {
            zip.start_file(*name, zip::write::SimpleFileOptions::default())
                .expect("zip entry should be created");
            zip.write_all(body.as_bytes())
                .expect("zip data should be written");
        }
    }
    zip.finish().expect("zip should finalize").into_inner()
}

fn write_zip(csv_body: &str) -> Vec<u8> {
    zip_with(&[("data.csv", csv_body)])
}

fn sample_req() -> KlineLoadRequest {
    KlineLoadRequest {
        symbol: BinanceSymbol::BtcUsdt,
        start_ts_ms_utc: 1_704_067_200_000,
        end_ts_ms_utc_exclusive: 1_704_067_203_000,
    }
}

fn sample_csv() -> &'static str {
    "1704067200000,100,101,99,100.5,10,1704067200999,1005,42,5,502.5,0\n1704067201000,100.5,101.5,100,101,11,1704067201999,1111,43,6,606,0\n1704067202000,101,102,100.5,101.2,12,1704067202999,1214.4,44,7,707,0\n"
}

fn record(fields: &[&str]) -> Vec<String> {
    fields.iter().map(|f| f.to_string()).collect()
}

fn row_at(open_time_ms: i64) -> Kline1s {
    Kline1s {
        open_time_ms,
        open: "1.0".to_string(),
        high: "1.0".to_string(),
        low: "1.0".to_string(),
        close: "1.0".to_string(),
        volume: "1.0".to_string(),
        close_time_ms: open_time_ms + 999,
        quote_asset_volume: "1.0".to_string(),
        trade_count: 1,
        taker_buy_base_volume: "1.0".to_string(),
        taker_buy_quote_volume: "1.0".to_string(),
    }
}

/// Carries out the synchronizer's steps for one task against a disk and a
/// remote that are held in memory.
fn run_sync(
    task: &SyncTask,
    verify_checksum: bool,
    disk: &mut HashMap<String, Vec<u8>>,
    remote: &HashMap<String, Vec<u8>>,
    fetched: &mut Vec<String>,
) -> Result<LocalArchiveSource, KlineLoadError> {
    let mut facts = SyncFacts::new();
    loop {
        match facts.next_action(verify_checksum) {
            SyncAction::ProbeLocal => {
                facts.observe_local(disk.contains_key(&task.local_path));
            }
            SyncAction::FetchChecksum => {
                fetched.push(task.checksum_url.clone());
                let payload =
                    remote
                        .get(&task.checksum_url)
                        .ok_or_else(|| KlineLoadError::HttpRequest {
                            url: task.checksum_url.clone(),
                            message: "missing mock response".to_string(),
                        })?;
                facts.observe_checksum(parse_checksum_payload(&task.checksum_url, payload)?);
            }
            SyncAction::HashLocal => {
                facts.observe_digest(sha256_hex(&disk[&task.local_path]));
            }
            SyncAction::Download => {
                fetched.push(task.archive.url.clone());
                let bytes =
                    remote
                        .get(&task.archive.url)
                        .ok_or_else(|| KlineLoadError::HttpRequest {
                            url: task.archive.url.clone(),
                            message: "missing mock response".to_string(),
                        })?;
                disk.insert(task.local_path.clone(), bytes.clone());
                facts.observe_download();
            }
            SyncAction::Done(source) => return Ok(source),
            SyncAction::Fail { expected, actual } => {
                return Err(checksum_mismatch(&task.local_path, expected, actual));
            }
        }
    }
}

#[test]
fn plan_across_month_boundary_is_deterministic() {
    let req = KlineLoadRequest {
        symbol: BinanceSymbol::EthUsdt,
        start_ts_ms_utc: 1_706_745_600_000, // 2024-02-01
        end_ts_ms_utc_exclusive: 1_709_251_200_000, // 2024-03-01
    };

    let archives = plan_required_archives(&req).unwrap();
    assert_eq!(archives.len(), 1);
    assert_eq!(archives[0].kind, ArchiveKind::Monthly);
    assert!(archives[0]
        .url
        .ends_with("/monthly/klines/ETHUSDT/1s/ETHUSDT-1s-2024-02.zip"));
    assert_eq!(archives, plan_required_archives(&req).unwrap());
    assert_eq!(
        archives[0].url,
        "https://data.binance.vision/data/spot/monthly/klines/ETHUSDT/1s/ETHUSDT-1s-2024-02.zip"
    );
    assert_eq!(
        archives[0].relative_path,
        "ETHUSDT/1s/monthly/ETHUSDT-1s-2024-02.zip"
    );
    assert_eq!(archives[0].period_start_ts_ms_utc, 1_706_745_600_000);
    assert_eq!(archives[0].period_end_ts_ms_utc_exclusive, 1_709_251_200_000);
}

#[test]
fn plan_of_part_of_a_month_lists_each_touched_day_in_order() {
    let req = KlineLoadRequest {
        symbol: BinanceSymbol::SolUsdt,
        start_ts_ms_utc: ts_ms(2024, 2, 27, 23, 59, 59),
        end_ts_ms_utc_exclusive: ts_ms(2024, 3, 2, 0, 0, 1),
    };
    let archives = plan_required_archives(&req).unwrap();
    let names: Vec<&str> = archives.iter().map(|a| a.relative_path.as_str()).collect();
    assert_eq!(
        names,
        vec![
            "SOLUSDT/1s/daily/SOLUSDT-1s-2024-02-27.zip",
            "SOLUSDT/1s/daily/SOLUSDT-1s-2024-02-28.zip",
            "SOLUSDT/1s/daily/SOLUSDT-1s-2024-02-29.zip",
            "SOLUSDT/1s/daily/SOLUSDT-1s-2024-03-01.zip",
            "SOLUSDT/1s/daily/SOLUSDT-1s-2024-03-02.zip",
        ]
    );
    assert!(archives.iter().all(|a| a.kind == ArchiveKind::Daily));
    assert_eq!(archives[2].period_start_ts_ms_utc, ts_ms(2024, 2, 29, 0, 0, 0));
    assert_eq!(
        archives[2].period_end_ts_ms_utc_exclusive,
        ts_ms(2024, 3, 1, 0, 0, 0)
    );
    assert_eq!(
        archives[2].url,
        "https://data.binance.vision/data/spot/daily/klines/SOLUSDT/1s/SOLUSDT-1s-2024-02-29.zip"
    );
}

#[test]
fn plan_mixes_whole_months_and_days_across_a_year_end() {
    let req = KlineLoadRequest {
        symbol: BinanceSymbol::XrpUsdt,
        start_ts_ms_utc: ts_ms(2023, 11, 30, 0, 0, 0),
        end_ts_ms_utc_exclusive: ts_ms(2024, 2, 1, 0, 0, 0),
    };
    let archives = plan_required_archives(&req).unwrap();
    let names: Vec<&str> = archives.iter().map(|a| a.relative_path.as_str()).collect();
    assert_eq!(
        names,
        vec![
            "XRPUSDT/1s/daily/XRPUSDT-1s-2023-11-30.zip",
            "XRPUSDT/1s/monthly/XRPUSDT-1s-2023-12.zip",
            "XRPUSDT/1s/monthly/XRPUSDT-1s-2024-01.zip",
        ]
    );
}

#[test]
fn plan_of_a_request_on_no_date_is_refused() {
    let cases = [
        (0, i64::MAX),
        (i64::MIN, 0),
        (9_000_000_000_000_000_000, 9_000_000_000_000_001_000),
        (9_000_000_000_000_001_000, 0),
    ];
    for (start, end) in cases {
        let req = KlineLoadRequest {
            symbol: BinanceSymbol::BtcUsdt,
            start_ts_ms_utc: start,
            end_ts_ms_utc_exclusive: end,
        };
        match plan_required_archives(&req).unwrap_err() {
            KlineLoadError::InvalidTimestamp(ts) => assert_eq!(ts, start),
            other => panic!("unexpected error: {other:?}"),
        }
    }
}

#[test]
fn plan_before_the_epoch_and_year_zero_pads_with_zeros() {
    let req = KlineLoadRequest {
        symbol: BinanceSymbol::BtcUsdt,
        start_ts_ms_utc: ts_ms(1969, 12, 31, 23, 0, 0),
        end_ts_ms_utc_exclusive: ts_ms(1970, 1, 1, 1, 0, 0),
    };
    let names: Vec<String> = plan_required_archives(&req).unwrap()
        .into_iter()
        .map(|a| a.relative_path)
        .collect();
    assert_eq!(
        names,
        vec![
            "BTCUSDT/1s/daily/BTCUSDT-1s-1969-12-31.zip".to_string(),
            "BTCUSDT/1s/daily/BTCUSDT-1s-1970-01-01.zip".to_string(),
        ]
    );
    let req = KlineLoadRequest {
        symbol: BinanceSymbol::BtcUsdt,
        start_ts_ms_utc: ts_ms(-1, 12, 31, 0, 0, 0),
        end_ts_ms_utc_exclusive: ts_ms(0, 1, 1, 0, 0, 1),
    };
    let names: Vec<String> = plan_required_archives(&req).unwrap()
        .into_iter()
        .map(|a| a.relative_path)
        .collect();
    assert_eq!(
        names,
        vec![
            format!("BTCUSDT/1s/daily/BTCUSDT-1s-{:04}-{:02}-{:02}.zip", -1, 12, 31),
            "BTCUSDT/1s/daily/BTCUSDT-1s-0000-01-01.zip".to_string(),
        ]
    );
}

#[test]
fn parse_kline_record_enforces_schema_and_numbers() {
    let record_ok = record(&[
        "1704067200000",
        "100",
        "101",
        "99",
        "100.5",
        "10",
        "1704067200999",
        "1005",
        "42",
        "5",
        "502.5",
        "0",
    ]);

    let parsed = parse_kline_record(&record_ok).unwrap();
    assert_eq!(parsed.open_time_ms, 1_704_067_200_000);
    assert_eq!(parsed.trade_count, 42);

    let bad = record(&["oops"]);
    assert!(matches!(
        parse_kline_record(&bad).unwrap_err(),
        KlineLoadError::InvalidRecordColumns { .. }
    ));
}

#[test]
fn parse_kline_record_normalizes_microsecond_timestamps_to_millis() {
    let record_us = record(&[
        "1735689600000000",
        "100",
        "101",
        "99",
        "100.5",
        "10",
        "1735689600999999",
        "1005",
        "42",
        "5",
        "502.5",
        "0",
    ]);

    let parsed = parse_kline_record(&record_us).unwrap();
    assert_eq!(parsed.open_time_ms, 1_735_689_600_000);
    assert_eq!(parsed.close_time_ms, 1_735_689_600_999);
}

#[test]
fn parse_kline_record_keeps_every_field() {
    let parsed = parse_kline_record(&record(&[
        "-1735689600000000000",
        "1e2",
        ".5",
        "5.",
        "+inf",
        "NaN",
        "+7",
        "1.5E-3",
        "+42",
        "-0",
        "0.0",
    ]))
    .unwrap();
    assert_eq!(parsed.open_time_ms, -1_735_689_600_000);
    assert_eq!(parsed.open, "1e2");
    assert_eq!(parsed.high, ".5");
    assert_eq!(parsed.low, "5.");
    assert_eq!(parsed.close, "+inf");
    assert_eq!(parsed.volume, "NaN");
    assert_eq!(parsed.close_time_ms, 7);
    assert_eq!(parsed.quote_asset_volume, "1.5E-3");
    assert_eq!(parsed.trade_count, 42);
    assert_eq!(parsed.taker_buy_base_volume, "-0");
    assert_eq!(parsed.taker_buy_quote_volume, "0.0");
}

#[test]
fn parse_kline_record_names_the_first_field_that_fails() {
    let good = [
        "1704067200000",
        "100",
        "101",
        "99",
        "100.5",
        "10",
        "1704067200999",
        "1005",
        "42",
        "5",
        "502.5",
    ];
    let names = [
        "open_time_ms",
        "open",
        "high",
        "low",
        "close",
        "volume",
        "close_time_ms",
        "quote_asset_volume",
        "trade_count",
        "taker_buy_base_volume",
        "taker_buy_quote_volume",
    ];
    for index in 0..11 {
        let mut fields = good.to_vec();
        fields[index] = "x1";
        match parse_kline_record(&record(&fields)).unwrap_err() {
            KlineLoadError::ParseField { field, value } => {
                assert_eq!(field, names[index]);
                assert_eq!(value, "x1");
            }
            other => panic!("unexpected error: {other:?}"),
        }
    }
    // the two timestamps are read before the other fields
    let mut fields = good.to_vec();
    fields[1] = "bad-open";
    fields[6] = "bad-close-time";
    match parse_kline_record(&record(&fields)).unwrap_err() {
        KlineLoadError::ParseField { field, .. } => assert_eq!(field, "close_time_ms"),
        other => panic!("unexpected error: {other:?}"),
    }
    // the trade count takes no sign but a plus, and must fit
    let mut fields = good.to_vec();
    fields[8] = "-1";
    assert!(parse_kline_record(&record(&fields)).is_err());
    fields[8] = "18446744073709551616";
    assert!(parse_kline_record(&record(&fields)).is_err());
    fields[8] = "18446744073709551615";
    assert_eq!(
        parse_kline_record(&record(&fields)).unwrap().trade_count,
        u64::MAX
    );
    fields[0] = "9223372036854775808";
    assert!(parse_kline_record(&record(&fields)).is_err());
    fields[0] = "-9223372036854775808";
    assert_eq!(
        parse_kline_record(&record(&fields)).unwrap().open_time_ms,
        -9_223_372_036_854
    );
    match parse_kline_record(&record(&good[..10])).unwrap_err() {
        KlineLoadError::InvalidRecordColumns { found, expected } => {
            assert_eq!(found, 10);
            assert_eq!(expected, 11);
        }
        other => panic!("unexpected error: {other:?}"),
    }
}

#[test]
fn decimal_syntax_agrees_with_the_number_parser() {
    let cases = [
        "0", "1", "100.5", "-3.25", "+3.25", "1e5", "1E5", "1e+5", "1e-5", "1.e5", ".5e5", ".5",
        "5.", ".", "", "+", "-", "e5", "1e", "1e+", "1e5.0", "1.2.3", "inf", "-inf", "+inf",
        "Infinity", "-INFINITY", "nan", "NaN", "-nan", "infinit", "in", "nanx", " 1", "1 ", "1_0",
        "0x10", "١", "1,5", "--1", "+-1", "1e٣", "00012", "1e0000001", "9".repeat(400).as_str(),
        "0.0000000000000000000000000000000000001", "1ee5", "1e5e5", ".e5", "+.5", "-5.", "+.",
    ]
    .map(|s| s.to_string());
    for case in cases.iter() {
        assert_eq!(
            is_float_text(case),
            case.parse::<f64>().is_ok(),
            "case {case:?}"
        );
    }
}

#[test]
fn gap_detection_and_duplicates_are_reported() {
    let req = sample_req();
    let rows = vec![row_at(1_704_067_200_000), row_at(1_704_067_202_000)];

    let coverage = compute_coverage(&req, &rows, 2);
    assert_eq!(coverage.expected_points, 3);
    assert_eq!(coverage.actual_points, 2);
    assert_eq!(coverage.missing_points, 1);
    assert_eq!(coverage.duplicate_points_removed, 2);
    assert_eq!(
        coverage.gap_ranges,
        vec![(1_704_067_201_000, 1_704_067_201_000)]
    );
    assert_eq!(coverage.total_gap_ranges, 1);
}

#[test]
fn coverage_of_no_rows_is_one_gap_over_the_whole_request() {
    let req = sample_req();
    let coverage = compute_coverage(&req, &Vec::new(), 0);
    assert_eq!(coverage.expected_points, 3);
    assert_eq!(coverage.actual_points, 0);
    assert_eq!(coverage.missing_points, 3);
    assert_eq!(coverage.total_gap_ranges, 1);
    assert_eq!(
        coverage.gap_ranges,
        vec![(1_704_067_200_000, 1_704_067_202_000)]
    );
}

#[test]
fn coverage_lists_leading_inner_and_trailing_gaps() {
    let start = 1_704_067_200_000;
    let req = KlineLoadRequest {
        symbol: BinanceSymbol::BtcUsdt,
        start_ts_ms_utc: start,
        end_ts_ms_utc_exclusive: start + 10_000,
    };
    let rows = vec![row_at(start + 2_000), row_at(start + 3_000), row_at(start + 7_000)];
    let coverage = compute_coverage(&req, &rows, 0);
    assert_eq!(coverage.expected_points, 10);
    assert_eq!(coverage.actual_points, 3);
    assert_eq!(coverage.missing_points, 7);
    assert_eq!(coverage.total_gap_ranges, 3);
    assert_eq!(
        coverage.gap_ranges,
        vec![
            (start, start + 1_000),
            (start + 4_000, start + 6_000),
            (start + 8_000, start + 9_000),
        ]
    );
}

#[test]
fn coverage_reports_at_most_256_ranges_but_counts_all() {
    let start = 1_704_067_200_000;
    let req = KlineLoadRequest {
        symbol: BinanceSymbol::BtcUsdt,
        start_ts_ms_utc: start,
        end_ts_ms_utc_exclusive: start + 600 * 1_000,
    };
    let rows: Vec<Kline1s> = (0..300).map(|i| row_at(start + (2 * i + 1) * 1_000)).collect();
    let coverage = compute_coverage(&req, &rows, 0);
    assert_eq!(coverage.expected_points, 600);
    assert_eq!(coverage.actual_points, 300);
    assert_eq!(coverage.missing_points, 300);
    assert_eq!(coverage.total_gap_ranges, 300);
    assert_eq!(coverage.gap_ranges.len(), 256);
    assert_eq!(coverage.gap_ranges[0], (start, start));
    assert_eq!(
        coverage.gap_ranges[255],
        (start + 510 * 1_000, start + 510 * 1_000)
    );
}

#[test]
fn stitching_sorts_and_keeps_the_first_of_equal_times() {
    let start = 1_704_067_200_000;
    let req = KlineLoadRequest {
        symbol: BinanceSymbol::EthUsdt,
        start_ts_ms_utc: start,
        end_ts_ms_utc_exclusive: start + 4_000,
    };
    let mut first = row_at(start + 2_000);
    first.open = "first".to_string();
    let mut second = row_at(start + 2_000);
    second.open = "second".to_string();
    let rows = vec![row_at(start + 3_000), first, row_at(start), second];
    let result = stitch_rows(&req, rows);
    let times: Vec<i64> = result.rows.iter().map(|r| r.open_time_ms).collect();
    assert_eq!(times, vec![start, start + 2_000, start + 3_000]);
    assert_eq!(result.rows[1].open, "first");
    assert_eq!(result.coverage.duplicate_points_removed, 1);
    assert_eq!(result.coverage.actual_points, 3);
    assert_eq!(result.coverage.missing_points, 1);
    assert_eq!(result.coverage.gap_ranges, vec![(start + 1_000, start + 1_000)]);
    assert_eq!(result.symbol, BinanceSymbol::EthUsdt);
}

#[test]
fn checksum_mismatch_is_rejected_when_enabled() {
    let req = sample_req();
    let cfg = HistoricalKlinesConfig {
        data_root: "cache".to_string(),
        verify_checksum: true,
        ..HistoricalKlinesConfig::default()
    };
    let tasks = sync_archives(&req, &cfg).unwrap();
    let task = &tasks[0];
    let zip_bytes = write_zip(sample_csv());
    let mut disk = HashMap::new();
    disk.insert(task.local_path.clone(), zip_bytes.clone());
    let mut remote = HashMap::new();
    remote.insert(
        task.checksum_url.clone(),
        b"ffffffffffffffffffffffffffffffffffffffffffffffffffffffffffffffff  anything.zip\n"
            .to_vec(),
    );
    remote.insert(task.archive.url.clone(), zip_bytes.clone());

    let mut fetched = Vec::new();
    let err = run_sync(task, cfg.verify_checksum, &mut disk, &remote, &mut fetched).unwrap_err();
    match err {
        KlineLoadError::ChecksumMismatch {
            path,
            expected,
            actual,
        } => {
            assert_eq!(path, task.local_path);
            assert_eq!(expected, "f".repeat(64));
            assert_eq!(actual, sha256_hex(&zip_bytes));
        }
        other => panic!("unexpected error: {other:?}"),
    }
    // the checksum is fetched once, then the archive
    assert_eq!(
        fetched,
        vec![task.checksum_url.clone(), task.archive.url.clone()]
    );
}

#[test]
fn cache_hit_skips_download_when_checksum_verification_disabled() {
    let req = sample_req();
    let cfg = HistoricalKlinesConfig {
        data_root: "cache".to_string(),
        verify_checksum: false,
        ..HistoricalKlinesConfig::default()
    };
    let tasks = sync_archives(&req, &cfg).unwrap();
    let mut disk = HashMap::new();
    disk.insert(tasks[0].local_path.clone(), write_zip(sample_csv()));
    let remote = HashMap::new();
    let mut fetched = Vec::new();
    let mut local = Vec::new();
    for task in &tasks {
        local.push(run_sync(task, cfg.verify_checksum, &mut disk, &remote, &mut fetched).unwrap());
    }

    assert_eq!(local.len(), 1);
    assert_eq!(local[0], LocalArchiveSource::Cached);
    assert!(fetched.is_empty());
}

#[test]
fn sync_archives_uses_cached_files_when_checksum_verification_disabled() {
    let start = ts_ms(2024, 1, 1, 0, 0, 0);
    let req = KlineLoadRequest {
        symbol: BinanceSymbol::SolUsdt,
        start_ts_ms_utc: start,
        end_ts_ms_utc_exclusive: start + 3_000,
    };
    let cfg = HistoricalKlinesConfig {
        data_root: "cache/".to_string(),
        verify_checksum: false,
        ..HistoricalKlinesConfig::default()
    };

    let archives = plan_required_archives(&req).unwrap();
    assert_eq!(archives.len(), 1);
    let tasks = sync_archives(&req, &cfg).expect("sync should succeed");
    assert_eq!(tasks.len(), 1);
    assert_eq!(tasks[0].archive, archives[0]);
    assert_eq!(
        tasks[0].local_path,
        "cache/SOLUSDT/1s/daily/SOLUSDT-1s-2024-01-01.zip"
    );
    assert_eq!(
        tasks[0].checksum_url,
        format!("{}.CHECKSUM", archives[0].url)
    );
    let mut disk = HashMap::new();
    disk.insert(tasks[0].local_path.clone(), write_zip(sample_csv()));
    let mut fetched = Vec::new();
    let source = run_sync(&tasks[0], false, &mut disk, &HashMap::new(), &mut fetched).unwrap();
    assert_eq!(source, LocalArchiveSource::Cached);
    let synced = vec![tasks[0].local_archive(source)];
    assert_eq!(synced.len(), 1);
    assert_eq!(synced[0].source, LocalArchiveSource::Cached);
    assert_eq!(synced[0].archive, archives[0]);
    assert_eq!(synced[0].local_path, tasks[0].local_path);
}

#[test]
fn verified_cache_hit_and_verified_download() {
    let req = sample_req();
    let cfg = HistoricalKlinesConfig::default();
    let tasks = sync_archives(&req, &cfg).unwrap();
    let task = &tasks[0];
    assert_eq!(
        task.local_path,
        "data/binance/BTCUSDT/1s/daily/BTCUSDT-1s-2024-01-01.zip"
    );
    let zip_bytes = write_zip(sample_csv());
    let mut remote = HashMap::new();
    remote.insert(
        task.checksum_url.clone(),
        format!("{}  x.zip\n", sha256_hex(&zip_bytes).to_uppercase()).into_bytes(),
    );
    remote.insert(task.archive.url.clone(), zip_bytes.clone());

    // nothing on disk: download, then verify
    let mut disk = HashMap::new();
    let mut fetched = Vec::new();
    let source = run_sync(task, true, &mut disk, &remote, &mut fetched).unwrap();
    assert_eq!(source, LocalArchiveSource::Downloaded);
    assert_eq!(
        fetched,
        vec![task.archive.url.clone(), task.checksum_url.clone()]
    );
    assert_eq!(disk[&task.local_path], zip_bytes);

    // the verified file is a cache hit next time
    let mut fetched = Vec::new();
    let source = run_sync(task, true, &mut disk, &remote, &mut fetched).unwrap();
    assert_eq!(source, LocalArchiveSource::Cached);
    assert_eq!(fetched, vec![task.checksum_url.clone()]);

    // a stale file is replaced, and the checksum is not fetched again
    disk.insert(task.local_path.clone(), b"stale".to_vec());
    let mut fetched = Vec::new();
    let source = run_sync(task, true, &mut disk, &remote, &mut fetched).unwrap();
    assert_eq!(source, LocalArchiveSource::Downloaded);
    assert_eq!(
        fetched,
        vec![task.checksum_url.clone(), task.archive.url.clone()]
    );
    assert_eq!(disk[&task.local_path], zip_bytes);
}

#[test]
fn sync_of_an_invalid_request_is_refused() {
    let cfg = HistoricalKlinesConfig::default();
    let reversed = KlineLoadRequest {
        symbol: BinanceSymbol::BtcUsdt,
        start_ts_ms_utc: 2_000,
        end_ts_ms_utc_exclusive: 1_000,
    };
    match sync_archives(&reversed, &cfg).unwrap_err() {
        KlineLoadError::InvalidRequest(message) => assert_eq!(
            message,
            "end_ts_ms_utc_exclusive must be greater than start_ts_ms_utc"
        ),
        other => panic!("unexpected error: {other:?}"),
    }
    let unaligned = KlineLoadRequest {
        symbol: BinanceSymbol::BtcUsdt,
        start_ts_ms_utc: 1_000,
        end_ts_ms_utc_exclusive: 2_500,
    };
    match sync_archives(&unaligned, &cfg).unwrap_err() {
        KlineLoadError::InvalidRequest(message) => {
            assert_eq!(message, "start/end timestamps must be 1000ms aligned")
        }
        other => panic!("unexpected error: {other:?}"),
    }
    let off_calendar = KlineLoadRequest {
        symbol: BinanceSymbol::BtcUsdt,
        start_ts_ms_utc: 1_000,
        end_ts_ms_utc_exclusive: 9_223_372_036_854_775_000,
    };
    match sync_archives(&off_calendar, &cfg).unwrap_err() {
        KlineLoadError::InvalidTimestamp(ts) => assert_eq!(ts, 1_000),
        other => panic!("unexpected error: {other:?}"),
    }
}

#[test]
fn requests_are_valid_up_to_the_last_date() {
    let cfg = HistoricalKlinesConfig::default();
    let last_second = ts_ms(262_142, 12, 31, 23, 59, 59);
    let at_the_end = KlineLoadRequest {
        symbol: BinanceSymbol::BtcUsdt,
        start_ts_ms_utc: last_second - 1_000,
        end_ts_ms_utc_exclusive: last_second,
    };
    let tasks = sync_archives(&at_the_end, &cfg).unwrap();
    assert_eq!(tasks.len(), 1);
    assert_eq!(
        tasks[0].archive.relative_path,
        "BTCUSDT/1s/daily/BTCUSDT-1s-262142-12-31.zip"
    );
    let beyond = KlineLoadRequest {
        symbol: BinanceSymbol::BtcUsdt,
        start_ts_ms_utc: last_second,
        end_ts_ms_utc_exclusive: last_second + 1_000,
    };
    assert!(matches!(
        sync_archives(&beyond, &cfg).unwrap_err(),
        KlineLoadError::InvalidTimestamp(_)
    ));
    let first_second = ts_ms(-262_143, 1, 1, 0, 0, 0);
    let at_the_start = KlineLoadRequest {
        symbol: BinanceSymbol::BtcUsdt,
        start_ts_ms_utc: first_second,
        end_ts_ms_utc_exclusive: first_second + 1_000,
    };
    let tasks = sync_archives(&at_the_start, &cfg).unwrap();
    assert_eq!(
        tasks[0].archive.relative_path,
        "BTCUSDT/1s/daily/BTCUSDT-1s--262143-01-01.zip"
    );
    let before = KlineLoadRequest {
        symbol: BinanceSymbol::BtcUsdt,
        start_ts_ms_utc: first_second - 1_000,
        end_ts_ms_utc_exclusive: first_second,
    };
    assert!(matches!(
        sync_archives(&before, &cfg).unwrap_err(),
        KlineLoadError::InvalidTimestamp(_)
    ));
}

#[test]
fn paths_are_joined_with_one_separator() {
    assert_eq!(join_path("data/binance", "a/b.zip"), "data/binance/a/b.zip");
    assert_eq!(join_path("data/binance/", "a/b.zip"), "data/binance/a/b.zip");
    assert_eq!(join_path("", "a/b.zip"), "a/b.zip");
    assert_eq!(join_path("/", "a/b.zip"), "/a/b.zip");
}

#[test]
fn checksum_payload_is_the_first_token_in_lower_case() {
    let digest = "AbCdEf0123456789abcdef0123456789ABCDEF0123456789abcdef0123456789";
    let payload = format!("\n  {digest}\tBTCUSDT-1s-2024-01-01.zip\n");
    assert_eq!(
        parse_checksum_payload("u", payload.as_bytes()).unwrap(),
        digest.to_lowercase()
    );
    assert_eq!(
        parse_checksum_payload("u", digest.as_bytes()).unwrap(),
        digest.to_lowercase()
    );
}

#[test]
fn checksum_payload_that_is_no_checksum_is_quoted_trimmed() {
    let cases: Vec<(Vec<u8>, String)> = vec![
        (b"".to_vec(), "".to_string()),
        (b"  \n\t ".to_vec(), "".to_string()),
        (b"  abc def \n".to_vec(), "abc def".to_string()),
        (
            format!(" {}g  file\n", "a".repeat(63)).into_bytes(),
            format!("{}g  file", "a".repeat(63)),
        ),
        ("a".repeat(65).into_bytes(), "a".repeat(65)),
        ("a".repeat(63).into_bytes(), "a".repeat(63)),
        (
            format!("{}é", "a".repeat(62)).into_bytes(),
            format!("{}é", "a".repeat(62)),
        ),
        (vec![0xff, b' ', b'x'], "\u{fffd} x".to_string()),
    ];
    for (payload, quoted) in cases {
        match parse_checksum_payload("https://host/x.CHECKSUM", &payload).unwrap_err() {
            KlineLoadError::InvalidChecksumPayload { url, payload } => {
                assert_eq!(url, "https://host/x.CHECKSUM");
                assert_eq!(payload, quoted);
            }
            other => panic!("unexpected error: {other:?}"),
        }
    }
}

#[test]
fn sha256_hex_matches_known_digests() {
    assert_eq!(
        sha256_hex(b"abc"),
        "ba7816bf8f01cfea414140de5dae2223b00361a396177a9cb410ff61f20015ad"
    );
    assert_eq!(
        sha256_hex(b""),
        "e3b0c44298fc1c149afbf4c8996fb92427ae41e4649b934ca495991b7852b855"
    );
}

#[test]
fn backoff_doubles_up_to_ten_times_and_saturates() {
    assert_eq!(backoff_duration(200, 0), 200);
    assert_eq!(backoff_duration(200, 1), 200);
    assert_eq!(backoff_duration(200, 2), 400);
    assert_eq!(backoff_duration(200, 3), 800);
    assert_eq!(backoff_duration(200, 11), 204_800);
    assert_eq!(backoff_duration(200, 12), 204_800);
    assert_eq!(backoff_duration(200, u32::MAX), 204_800);
    assert_eq!(backoff_duration(u64::MAX, 2), u64::MAX);
    assert_eq!(backoff_duration(0, 5), 0);
}

#[test]
fn retries_stop_after_the_configured_number() {
    let cfg = HistoricalKlinesConfig::default();
    assert_eq!(
        retry(&cfg, 0),
        RetryDecision::Retry {
            attempt: 1,
            sleep_ms: 200
        }
    );
    assert_eq!(
        retry(&cfg, 1),
        RetryDecision::Retry {
            attempt: 2,
            sleep_ms: 400
        }
    );
    assert_eq!(retry(&cfg, 2), RetryDecision::GiveUp);
    assert_eq!(retry(&cfg, 3), RetryDecision::GiveUp);
    let none = HistoricalKlinesConfig {
        max_retries: 0,
        ..HistoricalKlinesConfig::default()
    };
    assert_eq!(retry(&none, 0), RetryDecision::GiveUp);
}

#[test]
fn fixture_load_test_per_coin_pair() {
    let start = ts_ms(2024, 1, 1, 0, 0, 0);
    let end = start + 3_000;

    for symbol in [
        BinanceSymbol::BtcUsdt,
        BinanceSymbol::EthUsdt,
        BinanceSymbol::SolUsdt,
        BinanceSymbol::XrpUsdt,
    ] {
        let req = KlineLoadRequest {
            symbol,
            start_ts_ms_utc: start,
            end_ts_ms_utc_exclusive: end,
        };

        let archives = plan_required_archives(&req).unwrap();
        assert_eq!(archives.len(), 1);
        assert_eq!(archives[0].kind, ArchiveKind::Daily);

        let local = vec![ArchiveBytes {
            path: archives[0].relative_path.clone(),
            bytes: write_zip(sample_csv()),
        }];

        let loaded = load_1s_klines(&req, local).expect("fixture load should succeed");
        assert_eq!(loaded.symbol, symbol);
        assert_eq!(loaded.rows.len(), 3);
        assert_eq!(loaded.coverage.expected_points, 3);
        assert_eq!(loaded.coverage.actual_points, 3);
        assert_eq!(loaded.coverage.missing_points, 0);
        assert_eq!(loaded.coverage.duplicate_points_removed, 0);
        assert_eq!(loaded.rows[2].close, "101.2");
        assert_eq!(loaded.rows[2].trade_count, 44);
    }
}

#[test]
fn stitch_monthly_and_daily_with_overlap_dedupes_and_sorts() {
    let req = KlineLoadRequest {
        symbol: BinanceSymbol::BtcUsdt,
        start_ts_ms_utc: ts_ms(2024, 2, 1, 0, 0, 0),
        end_ts_ms_utc_exclusive: ts_ms(2024, 3, 2, 0, 0, 0),
    };

    let feb_29_235958 = ts_ms(2024, 2, 29, 23, 59, 58);
    let feb_29_235959 = ts_ms(2024, 2, 29, 23, 59, 59);
    let mar_01_000000 = ts_ms(2024, 3, 1, 0, 0, 0);
    let mar_01_000001 = ts_ms(2024, 3, 1, 0, 0, 1);

    let archives = plan_required_archives(&req).unwrap();
    assert!(archives.iter().any(|a| a.kind == ArchiveKind::Monthly));
    assert!(archives.iter().any(|a| a.kind == ArchiveKind::Daily));

    let mut local = Vec::new();
    for archive in &archives {
        let csv = match archive.kind {
            ArchiveKind::Monthly => format!(
                "{feb_29_235958},100,100,100,100,1,{end1},100,1,1,1,0\n{feb_29_235959},101,101,101,101,1,{end2},101,1,1,1,0\n{mar_01_000000},102,102,102,102,1,{end3},102,1,1,1,0\n",
                end1 = feb_29_235958 + 999,
                end2 = feb_29_235959 + 999,
                end3 = mar_01_000000 + 999,
            ),
            ArchiveKind::Daily => format!(
                "{mar_01_000000},200,200,200,200,1,{end3},200,1,1,1,0\n{mar_01_000001},201,201,201,201,1,{end4},201,1,1,1,0\n",
                end3 = mar_01_000000 + 999,
                end4 = mar_01_000001 + 999,
            ),
        };

        local.push(ArchiveBytes {
            path: archive.relative_path.clone(),
            bytes: write_zip(&csv),
        });
    }

    let loaded = load_1s_klines(&req, local).expect("load should succeed");
    assert_eq!(loaded.coverage.actual_points, 4);
    assert_eq!(loaded.coverage.duplicate_points_removed, 1);

    let times: Vec<i64> = loaded.rows.iter().map(|row| row.open_time_ms).collect();
    assert_eq!(
        times,
        vec![feb_29_235958, feb_29_235959, mar_01_000000, mar_01_000001,]
    );
    // of the two rows at the first second of March, the monthly archive's came first
    assert_eq!(loaded.rows[2].open, "102");
}

#[test]
fn coverage_report_detects_missing_second_gap() {
    let start = ts_ms(2024, 1, 1, 0, 0, 0);
    let req = KlineLoadRequest {
        symbol: BinanceSymbol::EthUsdt,
        start_ts_ms_utc: start,
        end_ts_ms_utc_exclusive: start + 3_000,
    };

    let archives = plan_required_archives(&req).unwrap();
    assert_eq!(archives.len(), 1);
    let csv = format!(
        "{start},1,1,1,1,1,{end0},1,1,1,1,0\n{start2},2,2,2,2,1,{end2},2,1,1,1,0\n",
        end0 = start + 999,
        start2 = start + 2_000,
        end2 = start + 2_999,
    );
    let local = vec![ArchiveBytes {
        path: archives[0].relative_path.clone(),
        bytes: write_zip(&csv),
    }];

    let loaded = load_1s_klines(&req, local).expect("load should succeed");
    assert_eq!(loaded.coverage.expected_points, 3);
    assert_eq!(loaded.coverage.actual_points, 2);
    assert_eq!(loaded.coverage.missing_points, 1);
    assert_eq!(
        loaded.coverage.gap_ranges,
        vec![(start + 1_000, start + 1_000)]
    );
}

#[test]
fn archive_rows_outside_the_request_are_dropped() {
    let req = KlineLoadRequest {
        symbol: BinanceSymbol::BtcUsdt,
        start_ts_ms_utc: 1_704_067_201_000,
        end_ts_ms_utc_exclusive: 1_704_067_202_000,
    };
    let rows = parse_zip_archive(write_zip(sample_csv()), "p.zip", &req).unwrap();
    assert_eq!(rows.len(), 1);
    assert_eq!(rows[0].open_time_ms, 1_704_067_201_000);
    assert_eq!(rows[0].high, "101.5");
}

#[test]
fn archive_entry_is_the_first_file_named_as_csv() {
    let req = sample_req();
    let bytes = zip_with(&[
        ("data.csv/", ""),
        ("readme.txt", "not,csv\n"),
        ("Nested/DATA.CSV", sample_csv()),
        ("later.csv", "broken\n"),
    ]);
    let rows = parse_zip_archive(bytes, "p.zip", &req).unwrap();
    assert_eq!(rows.len(), 3);
}

#[test]
fn archives_without_entries_or_without_csv_are_refused() {
    let req = sample_req();
    match parse_zip_archive(zip_with(&[]), "dir/empty.zip", &req).unwrap_err() {
        KlineLoadError::EmptyZipArchive { path } => assert_eq!(path, "dir/empty.zip"),
        other => panic!("unexpected error: {other:?}"),
    }
    match parse_zip_archive(
        zip_with(&[("folder/", ""), ("notes.txt", "x")]),
        "dir/nocsv.zip",
        &req,
    )
    .unwrap_err()
    {
        KlineLoadError::MissingCsvEntry { path } => assert_eq!(path, "dir/nocsv.zip"),
        other => panic!("unexpected error: {other:?}"),
    }
    assert!(matches!(
        parse_zip_archive(b"this is no zip archive".to_vec(), "x", &req).unwrap_err(),
        KlineLoadError::Zip(_)
    ));
}

#[test]
fn archive_errors_come_in_file_order() {
    let req = sample_req();
    // a record that does not parse, before a record that the CSV layer refuses
    let csv = "1704067200000,100,101,99,100.5,10,1704067200999,1005,42,5,502.5,0\n1704067201000,oops,101,99,100.5,10,1704067201999,1005,42,5,502.5,0\n1,2\n";
    match parse_zip_archive(write_zip(csv), "p.zip", &req).unwrap_err() {
        KlineLoadError::ParseField { field, value } => {
            assert_eq!(field, "open");
            assert_eq!(value, "oops");
        }
        other => panic!("unexpected error: {other:?}"),
    }
    // a record of another length is refused by the CSV layer
    let csv = "1704067200000,100,101,99,100.5,10,1704067200999,1005,42,5,502.5,0\n1,2\n";
    assert!(matches!(
        parse_zip_archive(write_zip(csv), "p.zip", &req).unwrap_err(),
        KlineLoadError::Csv(_)
    ));
    // too few columns in every record
    assert!(matches!(
        parse_zip_archive(write_zip("1,2\n3,4\n"), "p.zip", &req).unwrap_err(),
        KlineLoadError::InvalidRecordColumns {
            found: 2,
            expected: 11
        }
    ));
    // an empty entry yields no rows
    assert!(parse_zip_archive(write_zip(""), "p.zip", &req)
        .unwrap()
        .is_empty());
}

#[test]
fn load_validates_the_request_before_reading_archives() {
    let reversed = KlineLoadRequest {
        symbol: BinanceSymbol::BtcUsdt,
        start_ts_ms_utc: 2_000,
        end_ts_ms_utc_exclusive: 1_000,
    };
    let local = vec![ArchiveBytes {
        path: "x".to_string(),
        bytes: b"no zip".to_vec(),
    }];
    assert!(matches!(
        load_1s_klines(&reversed, local).unwrap_err(),
        KlineLoadError::InvalidRequest(_)
    ));
    let loaded = load_1s_klines(&sample_req(), Vec::new()).unwrap();
    assert!(loaded.rows.is_empty());
    assert_eq!(loaded.coverage.missing_points, 3);
}

#[test]
fn daily_archives_agree_with_the_calendar_far_and_wide() {
    let mut state: u64 = 0x2545_f491_4f6c_dd1d;
    let mut checked = 0;
    for round in 0..3_000 {
        state ^= state << 13;
        state ^= state >> 7;
        state ^= state << 17;
        // seconds within some two hundred thousand years around the epoch;
        // every tenth round close to it
        let span: i64 = if round % 10 == 0 {
            4_000_000_000
        } else {
            6_000_000_000_000
        };
        let seconds = (state % (2 * span as u64)) as i64 - span;
        let start = seconds * 1_000;
        let req = KlineLoadRequest {
            symbol: BinanceSymbol::EthUsdt,
            start_ts_ms_utc: start,
            end_ts_ms_utc_exclusive: start + 1_000,
        };
        let archives = plan_required_archives(&req).unwrap();
        assert_eq!(archives.len(), 1, "at {start}");
        let date = chrono::Utc
            .timestamp_millis_opt(start)
            .single()
            .unwrap()
            .date_naive();
        let midnight = date.and_hms_opt(0, 0, 0).unwrap().and_utc().timestamp_millis();
        assert_eq!(archives[0].kind, ArchiveKind::Daily);
        assert_eq!(archives[0].period_start_ts_ms_utc, midnight, "at {start}");
        assert_eq!(
            archives[0].period_end_ts_ms_utc_exclusive,
            midnight + 86_400_000
        );
        assert_eq!(
            archives[0].relative_path,
            format!(
                "ETHUSDT/1s/daily/ETHUSDT-1s-{:04}-{:02}-{:02}.zip",
                chrono::Datelike::year(&date),
                chrono::Datelike::month(&date),
                chrono::Datelike::day(&date)
            ),
            "at {start}"
        );
        checked += 1;
    }
    assert_eq!(checked, 3_000);
}

#[test]
fn whole_months_are_found_in_leap_and_common_years() {
    for (year, month, days) in [
        (2024, 2, 29),
        (2023, 2, 28),
        (1900, 2, 28),
        (2000, 2, 29),
        (2100, 2, 28),
        (-4, 2, 29),
        (2024, 12, 31),
        (2024, 4, 30),
    ] {
        let start = ts_ms(year, month, 1, 0, 0, 0);
        let req = KlineLoadRequest {
            symbol: BinanceSymbol::BtcUsdt,
            start_ts_ms_utc: start,
            end_ts_ms_utc_exclusive: start + days * 86_400_000,
        };
        let archives = plan_required_archives(&req).unwrap();
        assert_eq!(archives.len(), 1, "{year}-{month}");
        assert_eq!(archives[0].kind, ArchiveKind::Monthly);
        assert_eq!(archives[0].period_start_ts_ms_utc, start);
        assert_eq!(
            archives[0].period_end_ts_ms_utc_exclusive,
            start + days * 86_400_000
        );
        // one second less, and the month is covered day by day
        let req = KlineLoadRequest {
            end_ts_ms_utc_exclusive: start + days * 86_400_000 - 1_000,
            ..req
        };
        let archives = plan_required_archives(&req).unwrap();
        assert_eq!(archives.len() as i64, days);
        assert!(archives.iter().all(|a| a.kind == ArchiveKind::Daily));
    }
}
