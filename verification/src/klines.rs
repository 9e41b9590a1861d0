//! Historical kline loading: requests, archive descriptors, rows, coverage
//! reports and errors, with request validation and archive naming.

use vstd::prelude::*;
use vstd::string::*;
use crate::calendar::{utc_date_of_millis, utc_in_range};

verus! {

/// The zip layer's error; carried through, never looked into.
#[verifier::external_type_specification]
#[verifier::external_body]
pub struct ExZipError(zip::result::ZipError);

/// The CSV layer's error; carried through, never looked into.
#[verifier::external_type_specification]
#[verifier::external_body]
pub struct ExCsvError(csv::Error);

/// The error of a read; carried through, never looked into.
#[verifier::external_type_specification]
#[verifier::external_body]
pub struct ExIoError(std::io::Error);

#[derive(Debug, Clone, Copy, PartialEq, Eq, Hash, Structural)]
pub enum BinanceSymbol {
    BtcUsdt,
    EthUsdt,
    SolUsdt,
    XrpUsdt,
}

pub open spec fn symbol_text(symbol: BinanceSymbol) -> Seq<char> {
    match symbol {
        BinanceSymbol::BtcUsdt => "BTCUSDT"@,
        BinanceSymbol::EthUsdt => "ETHUSDT"@,
        BinanceSymbol::SolUsdt => "SOLUSDT"@,
        BinanceSymbol::XrpUsdt => "XRPUSDT"@,
    }
}

impl BinanceSymbol {
    pub fn as_str(self) -> (s: &'static str)
        ensures
            s@ == symbol_text(self),
    {
        match self {
            BinanceSymbol::BtcUsdt => "BTCUSDT",
            BinanceSymbol::EthUsdt => "ETHUSDT",
            BinanceSymbol::SolUsdt => "SOLUSDT",
            BinanceSymbol::XrpUsdt => "XRPUSDT",
        }
    }
}

#[derive(Debug, Clone, Copy, PartialEq, Eq, Hash, Structural)]
pub enum ArchiveKind {
    Monthly,
    Daily,
}

pub open spec fn kind_segment(kind: ArchiveKind) -> Seq<char> {
    match kind {
        ArchiveKind::Monthly => "monthly"@,
        ArchiveKind::Daily => "daily"@,
    }
}

impl ArchiveKind {
    pub fn as_path_segment(self) -> (s: &'static str)
        ensures
            s@ == kind_segment(self),
    {
        match self {
            ArchiveKind::Monthly => "monthly",
            ArchiveKind::Daily => "daily",
        }
    }
}

/// One remote archive: what it covers, where it is fetched from, and where
/// it is kept below the data root.
#[derive(Debug, Clone, PartialEq, Eq)]
pub struct ArchiveRef {
    pub kind: ArchiveKind,
    pub symbol: BinanceSymbol,
    pub period_start_ts_ms_utc: i64,
    pub period_end_ts_ms_utc_exclusive: i64,
    pub url: String,
    pub relative_path: String,
}

/// Mathematical content of an [`ArchiveRef`].
pub struct ArchiveRefView {
    pub kind: ArchiveKind,
    pub symbol: BinanceSymbol,
    pub period_start_ts_ms_utc: i64,
    pub period_end_ts_ms_utc_exclusive: i64,
    pub url: Seq<char>,
    pub relative_path: Seq<char>,
}

impl View for ArchiveRef {
    type V = ArchiveRefView;

    open spec fn view(&self) -> ArchiveRefView {
        ArchiveRefView {
            kind: self.kind,
            symbol: self.symbol,
            period_start_ts_ms_utc: self.period_start_ts_ms_utc,
            period_end_ts_ms_utc_exclusive: self.period_end_ts_ms_utc_exclusive,
            url: self.url@,
            relative_path: self.relative_path@,
        }
    }
}

#[derive(Debug, Clone, Copy, PartialEq, Eq, Structural)]
pub enum LocalArchiveSource {
    Cached,
    Downloaded,
}

/// An archive that is present on disk and, where asked for, verified.
#[derive(Debug, Clone, PartialEq, Eq)]
pub struct LocalArchive {
    pub archive: ArchiveRef,
    pub local_path: String,
    pub source: LocalArchiveSource,
}

/// One second of trading. The prices and volumes are kept as the decimal
/// text of the archive, checked for syntax; the timestamps are milliseconds.
#[derive(Debug, Clone, PartialEq, Eq)]
pub struct Kline1s {
    pub open_time_ms: i64,
    pub open: String,
    pub high: String,
    pub low: String,
    pub close: String,
    pub volume: String,
    pub close_time_ms: i64,
    pub quote_asset_volume: String,
    pub trade_count: u64,
    pub taker_buy_base_volume: String,
    pub taker_buy_quote_volume: String,
}

#[derive(Debug, Clone, Copy, PartialEq, Eq, Structural)]
pub struct KlineLoadRequest {
    pub symbol: BinanceSymbol,
    pub start_ts_ms_utc: i64,
    pub end_ts_ms_utc_exclusive: i64,
}

#[derive(Debug, Clone, PartialEq, Eq)]
pub struct KlineCoverageReport {
    pub expected_points: u64,
    pub actual_points: u64,
    pub missing_points: u64,
    pub duplicate_points_removed: u64,
    pub total_gap_ranges: u64,
    pub gap_ranges: Vec<(i64, i64)>,
}

#[derive(Debug, Clone, PartialEq, Eq)]
pub struct KlineLoadResult {
    pub symbol: BinanceSymbol,
    pub rows: Vec<Kline1s>,
    pub coverage: KlineCoverageReport,
}

#[derive(Debug, Clone, PartialEq, Eq)]
pub struct HistoricalKlinesConfig {
    pub data_root: String,
    pub http_timeout_ms: u64,
    pub max_retries: u32,
    pub retry_backoff_ms: u64,
    pub verify_checksum: bool,
}

impl Default for HistoricalKlinesConfig {
    fn default() -> (cfg: Self)
        ensures
            cfg.data_root@ == "data/binance"@,
            cfg.http_timeout_ms == 15_000,
            cfg.max_retries == 2,
            cfg.retry_backoff_ms == 200,
            cfg.verify_checksum,
    {
        HistoricalKlinesConfig {
            data_root: "data/binance".to_string(),
            http_timeout_ms: 15_000,
            max_retries: 2,
            retry_backoff_ms: 200,
            verify_checksum: true,
        }
    }
}

#[allow(inconsistent_fields)]
#[derive(Debug)]
pub enum KlineLoadError {
    InvalidRequest(String),
    InvalidTimestamp(i64),
    Io(std::io::Error),
    HttpClientBuild(String),
    HttpRequest { url: String, message: String },
    EmptyZipArchive { path: String },
    MissingCsvEntry { path: String },
    Zip(zip::result::ZipError),
    Csv(csv::Error),
    InvalidRecordColumns { found: usize, expected: usize },
    ParseField { field: &'static str, value: String },
    InvalidChecksumPayload { url: String, payload: String },
    ChecksumMismatch { path: String, expected: String, actual: String },
}

/// Mathematical content of a [`KlineLoadError`]; of an error raised by the
/// zip, CSV or I/O layer only its kind is kept.
#[allow(inconsistent_fields)]
pub enum KlineLoadErrorView {
    InvalidRequest(Seq<char>),
    InvalidTimestamp(i64),
    Io,
    HttpClientBuild(Seq<char>),
    HttpRequest { url: Seq<char>, message: Seq<char> },
    EmptyZipArchive { path: Seq<char> },
    MissingCsvEntry { path: Seq<char> },
    Zip,
    Csv,
    InvalidRecordColumns { found: usize, expected: usize },
    ParseField { field: Seq<char>, value: Seq<char> },
    InvalidChecksumPayload { url: Seq<char>, payload: Seq<char> },
    ChecksumMismatch { path: Seq<char>, expected: Seq<char>, actual: Seq<char> },
}

impl View for KlineLoadError {
    type V = KlineLoadErrorView;

    open spec fn view(&self) -> KlineLoadErrorView {
        match *self {
            KlineLoadError::InvalidRequest(m) => KlineLoadErrorView::InvalidRequest(m@),
            KlineLoadError::InvalidTimestamp(ts) => KlineLoadErrorView::InvalidTimestamp(ts),
            KlineLoadError::Io(_) => KlineLoadErrorView::Io,
            KlineLoadError::HttpClientBuild(m) => KlineLoadErrorView::HttpClientBuild(m@),
            KlineLoadError::HttpRequest { url, message } => KlineLoadErrorView::HttpRequest {
                url: url@,
                message: message@,
            },
            KlineLoadError::EmptyZipArchive { path } => KlineLoadErrorView::EmptyZipArchive {
                path: path@,
            },
            KlineLoadError::MissingCsvEntry { path } => KlineLoadErrorView::MissingCsvEntry {
                path: path@,
            },
            KlineLoadError::Zip(_) => KlineLoadErrorView::Zip,
            KlineLoadError::Csv(_) => KlineLoadErrorView::Csv,
            KlineLoadError::InvalidRecordColumns {
                found,
                expected,
            } => KlineLoadErrorView::InvalidRecordColumns { found, expected },
            KlineLoadError::ParseField { field, value } => KlineLoadErrorView::ParseField {
                field: field@,
                value: value@,
            },
            KlineLoadError::InvalidChecksumPayload {
                url,
                payload,
            } => KlineLoadErrorView::InvalidChecksumPayload { url: url@, payload: payload@ },
            KlineLoadError::ChecksumMismatch {
                path,
                expected,
                actual,
            } => KlineLoadErrorView::ChecksumMismatch {
                path: path@,
                expected: expected@,
                actual: actual@,
            },
        }
    }
}

/// What a load request must satisfy: a non-empty range, both ends on a
/// whole second, both ends on dates that exist.
pub open spec fn request_valid(req: KlineLoadRequest) -> bool {
    &&& req.start_ts_ms_utc < req.end_ts_ms_utc_exclusive
    &&& req.start_ts_ms_utc % 1000 == 0
    &&& req.end_ts_ms_utc_exclusive % 1000 == 0
    &&& utc_in_range(req.start_ts_ms_utc as int)
    &&& utc_in_range(req.end_ts_ms_utc_exclusive as int)
}

pub open spec fn request_error(req: KlineLoadRequest) -> Option<KlineLoadErrorView> {
    if req.end_ts_ms_utc_exclusive <= req.start_ts_ms_utc {
        Some(
            KlineLoadErrorView::InvalidRequest(
                "end_ts_ms_utc_exclusive must be greater than start_ts_ms_utc"@,
            ),
        )
    } else if req.start_ts_ms_utc % 1000 != 0 || req.end_ts_ms_utc_exclusive % 1000 != 0 {
        Some(KlineLoadErrorView::InvalidRequest("start/end timestamps must be 1000ms aligned"@))
    } else if !utc_in_range(req.start_ts_ms_utc as int) || !utc_in_range(
        req.end_ts_ms_utc_exclusive as int,
    ) {
        Some(KlineLoadErrorView::InvalidTimestamp(req.start_ts_ms_utc))
    } else {
        None
    }
}

pub fn validate_request(req: &KlineLoadRequest) -> (r: Result<(), KlineLoadError>)
    ensures
        r is Ok <==> request_valid(*req),
        r is Ok <==> request_error(*req) is None,
        r is Err ==> Some(r->Err_0@) == request_error(*req),
{
    if req.end_ts_ms_utc_exclusive <= req.start_ts_ms_utc {
        return Err(
            KlineLoadError::InvalidRequest(
                "end_ts_ms_utc_exclusive must be greater than start_ts_ms_utc".to_string(),
            ),
        );
    }
    if req.start_ts_ms_utc % 1000 != 0 || req.end_ts_ms_utc_exclusive % 1000 != 0 {
        return Err(
            KlineLoadError::InvalidRequest(
                "start/end timestamps must be 1000ms aligned".to_string(),
            ),
        );
    }
    if utc_date_of_millis(req.start_ts_ms_utc).is_none() || utc_date_of_millis(
        req.end_ts_ms_utc_exclusive,
    ).is_none() {
        return Err(KlineLoadError::InvalidTimestamp(req.start_ts_ms_utc));
    }
    Ok(())
}

} // verus!

verus! {

/// The id under which the store keeps a symbol.
pub open spec fn symbol_id_spec(symbol: BinanceSymbol) -> i64 {
    match symbol {
        BinanceSymbol::BtcUsdt => 1,
        BinanceSymbol::EthUsdt => 2,
        BinanceSymbol::SolUsdt => 3,
        BinanceSymbol::XrpUsdt => 4,
    }
}

pub fn symbol_id(symbol: BinanceSymbol) -> (id: i64)
    ensures
        id == symbol_id_spec(symbol),
        crate::features::symbol_index_spec(id) is Some,
{
    match symbol {
        BinanceSymbol::BtcUsdt => 1,
        BinanceSymbol::EthUsdt => 2,
        BinanceSymbol::SolUsdt => 3,
        BinanceSymbol::XrpUsdt => 4,
    }
}

/// The last whole second at or before a millisecond timestamp.
pub fn floor_to_second_ms(ts_ms: i64) -> (floored: i64)
    requires
        ts_ms >= i64::MIN + 1000,
    ensures
        floored == (ts_ms as int / 1000) * 1000,
        floored <= ts_ms < floored + 1000,
        floored % 1000 == 0,
{
    let r = ts_ms % 1000;
    if r < 0 {
        ts_ms - r - 1000
    } else {
        ts_ms - r
    }
}

} // verus!
