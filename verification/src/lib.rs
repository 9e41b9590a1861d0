//! Historical market-data ingestion and feature derivation for
//! second-resolution OHLCV series over a fixed set of symbols, with the
//! market naming, discovery and dashboard vocabulary around it.

pub mod calendar;
pub mod cells;
pub mod coverage;
pub mod dashboard;
pub mod digest;
pub mod discovery;
pub mod emission;
pub mod features;
pub mod gapless;
pub mod klines;
pub mod loader;
pub mod numbers;
pub mod observability;
pub mod parser;
pub mod planner;
pub mod render;
pub mod schema;
pub mod slug;
pub mod sync;
pub mod text;
pub mod transform;

pub use cells::{feature_cells, fits_windows, FeatureCell};
pub use coverage::{compute_coverage, gap_ranges};
pub use dashboard::{
    apply_filters, compute_in_interval, dashboard_query_from_pairs, fee_params_from_type,
    market_link, BetsOpenFilter, DashboardDisplayRow, DashboardDisplaySnapshot, DashboardFilters,
    DashboardQuery, DashboardRow, DashboardSnapshot, DashboardSnapshotSource, FeeParams,
    InIntervalFilter, LiveDiscoveryConfig, DASHBOARD_COLUMN_KEYS, DASHBOARD_HEADERS,
};
pub use discovery::{
    build_active_and_next_discovery_keys, build_active_discovery_keys,
    build_previous_active_and_next_discovery_keys, interval_starts_for_now, materialize_rows,
    ordered_unique_slugs, record_outcomes, resolve_discovery_batch_with_fetcher, try_interval_starts_for_now,
    DiscoveryConfig, DiscoveryError, DiscoveryKey, DiscoveryRow, DiscoveryStatus,
    DiscoveryWindow, IntervalStarts, ScheduledDiscoveryKey, SlugFetchOutcome, UnresolvedReason,
    ALL_COINS, ALL_DURATIONS,
};
pub use features::{
    expected_points, symbol_index, time_of_week_seconds, validate_config, FeatureColumn, FeatureDType, FeatureError,
    FeatureSchema, FeatureTransformConfig, FeatureTransformReport, FeatureTransformRequest,
    GapPolicy, FEATURE_SCHEMA_VERSION,
};
pub use klines::{
    floor_to_second_ms, symbol_id,
    ArchiveKind, ArchiveRef, BinanceSymbol, HistoricalKlinesConfig, Kline1s,
    KlineCoverageReport, KlineLoadError, KlineLoadRequest, KlineLoadResult, LocalArchive,
    LocalArchiveSource,
};
pub use loader::{load_1s_klines, stitch_rows, ArchiveBytes};
pub use observability::{parse_bool, parse_log_format, LogFormat, LoggingConfig, LoggingInitError};
pub use parser::{normalize_to_millis, parse_csv_rows, parse_kline_record, parse_zip_archive};
pub use planner::plan_required_archives;
pub use schema::{assert_schema_compatible, build_feature_schema, schema_fingerprint};
pub use slug::{build_slug, parse_coin, parse_duration, Coin, Duration, SlugConfig, SlugError};
pub use sync::{
    backoff_duration, parse_checksum_payload, retry, sync_archives, RetryDecision, SyncAction,
    SyncFacts, SyncTask,
};
pub use transform::{
    transform_store_range, transform_store_range_for_runtime_cold_start,
    transform_store_range_for_training, Frame, KlinePoint, StorePoint, SymbolRolling, TransformEngine,
    TransformState, WarmFrame,
};
