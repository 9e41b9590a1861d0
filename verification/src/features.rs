//! Feature-transform vocabulary: configuration, schema, report and errors,
//! together with request and configuration validation.

use vstd::prelude::*;
use vstd::string::*;
use std::collections::HashSet;

verus! {

/// Spacing of consecutive points, in milliseconds.
pub const STEP_MS: i64 = 1_000;

/// Number of symbols in every complete frame.
pub const SYMBOL_COUNT: usize = 4;

/// Upper bound on the number of gap ranges kept in a report.
pub const MAX_REPORTED_GAP_RANGES: usize = 256;

pub const FEATURE_SCHEMA_VERSION: u32 = 1;

#[derive(Debug, Clone, Copy, PartialEq, Eq, Structural)]
pub enum GapPolicy {
    Strict,
    ReportAndSkip,
}

#[derive(Debug, Clone, Copy, PartialEq, Eq, Structural)]
pub enum FeatureDType {
    F64,
}

#[derive(Debug, Clone, PartialEq, Eq)]
pub struct FeatureColumn {
    pub name: String,
    pub dtype: FeatureDType,
}

#[derive(Debug, Clone, PartialEq, Eq)]
pub struct FeatureSchema {
    pub version: u32,
    pub fingerprint: String,
    pub columns: Vec<FeatureColumn>,
}

#[derive(Debug, Clone, Copy, PartialEq, Eq, Structural)]
pub struct FeatureTransformRequest {
    pub start_ts_ms_utc: i64,
    pub end_ts_ms_utc_exclusive: i64,
}

#[derive(Debug, Clone, PartialEq, Eq)]
pub struct FeatureTransformReport {
    pub input_points: u64,
    pub output_points: u64,
    pub skipped_points: u64,
    pub gap_ranges: Vec<(i64, i64)>,
    pub first_error: Option<String>,
}

#[derive(Debug, Clone, PartialEq, Eq)]
pub struct FeatureTransformConfig {
    pub windows_seconds: Vec<u32>,
    pub max_duration_seconds: u32,
    pub gap_policy: GapPolicy,
    pub schema_version: u32,
}

/// The store's error; carried through, never looked into.
#[verifier::external_type_specification]
#[verifier::external_body]
pub struct ExSqliteError(rusqlite::Error);

#[allow(inconsistent_fields)]
#[derive(Debug)]
pub enum FeatureError {
    InvalidRequest(String),
    InvalidConfig(String),
    Sqlite(rusqlite::Error),
    InvalidTimestamp(i64),
    UnknownSymbolId { symbol_id: i64, ts_ms_utc: i64 },
    DuplicateSymbolInFrame { symbol_id: i64, ts_ms_utc: i64 },
    IncompleteFrame { ts_ms_utc: i64, missing_symbols: Vec<String> },
    ContinuityGap { expected_next_ts_ms_utc: i64, actual_ts_ms_utc: i64, missing_points: u64 },
    SchemaVersionMismatch { expected: u32, actual: u32 },
    SchemaFingerprintMismatch { expected: String, actual: String },
}

/// Mathematical content of a [`FeatureError`]; of an error raised by the
/// store only its kind is kept.
#[allow(inconsistent_fields)]
pub enum FeatureErrorView {
    InvalidRequest(Seq<char>),
    InvalidConfig(Seq<char>),
    Sqlite,
    InvalidTimestamp(i64),
    UnknownSymbolId { symbol_id: i64, ts_ms_utc: i64 },
    DuplicateSymbolInFrame { symbol_id: i64, ts_ms_utc: i64 },
    IncompleteFrame { ts_ms_utc: i64, missing_symbols: Seq<Seq<char>> },
    ContinuityGap { expected_next_ts_ms_utc: i64, actual_ts_ms_utc: i64, missing_points: u64 },
    SchemaVersionMismatch { expected: u32, actual: u32 },
    SchemaFingerprintMismatch { expected: Seq<char>, actual: Seq<char> },
}

impl View for FeatureError {
    type V = FeatureErrorView;

    open spec fn view(&self) -> FeatureErrorView {
        match *self {
            FeatureError::InvalidRequest(m) => FeatureErrorView::InvalidRequest(m@),
            FeatureError::InvalidConfig(m) => FeatureErrorView::InvalidConfig(m@),
            FeatureError::Sqlite(_) => FeatureErrorView::Sqlite,
            FeatureError::InvalidTimestamp(ts) => FeatureErrorView::InvalidTimestamp(ts),
            FeatureError::UnknownSymbolId { symbol_id, ts_ms_utc } => FeatureErrorView::UnknownSymbolId {
                symbol_id,
                ts_ms_utc,
            },
            FeatureError::DuplicateSymbolInFrame {
                symbol_id,
                ts_ms_utc,
            } => FeatureErrorView::DuplicateSymbolInFrame { symbol_id, ts_ms_utc },
            FeatureError::IncompleteFrame {
                ts_ms_utc,
                missing_symbols,
            } => FeatureErrorView::IncompleteFrame {
                ts_ms_utc,
                missing_symbols: missing_symbols.deep_view(),
            },
            FeatureError::ContinuityGap {
                expected_next_ts_ms_utc,
                actual_ts_ms_utc,
                missing_points,
            } => FeatureErrorView::ContinuityGap {
                expected_next_ts_ms_utc,
                actual_ts_ms_utc,
                missing_points,
            },
            FeatureError::SchemaVersionMismatch {
                expected,
                actual,
            } => FeatureErrorView::SchemaVersionMismatch { expected, actual },
            FeatureError::SchemaFingerprintMismatch {
                expected,
                actual,
            } => FeatureErrorView::SchemaFingerprintMismatch { expected: expected@, actual: actual@ },
        }
    }
}

/// Mathematical content of a [`FeatureTransformReport`].
pub struct ReportView {
    pub input_points: u64,
    pub output_points: u64,
    pub skipped_points: u64,
    pub gap_ranges: Seq<(i64, i64)>,
    pub first_error: Option<Seq<char>>,
}

impl View for FeatureTransformReport {
    type V = ReportView;

    open spec fn view(&self) -> ReportView {
        ReportView {
            input_points: self.input_points,
            output_points: self.output_points,
            skipped_points: self.skipped_points,
            gap_ranges: self.gap_ranges@,
            first_error: match self.first_error {
                Some(m) => Some(m@),
                None => None,
            },
        }
    }
}

impl Default for FeatureTransformConfig {
    fn default() -> (cfg: Self)
        ensures
            cfg.windows_seconds@ == seq![5u32, 15u32, 60u32],
            cfg.max_duration_seconds == 86_400,
            cfg.gap_policy == GapPolicy::Strict,
            cfg.schema_version == FEATURE_SCHEMA_VERSION,
    {
        let mut windows: Vec<u32> = Vec::new();
        windows.push(5);
        windows.push(15);
        windows.push(60);
        assert(windows@ =~= seq![5u32, 15u32, 60u32]);
        FeatureTransformConfig {
            windows_seconds: windows,
            max_duration_seconds: 86_400,
            gap_policy: GapPolicy::Strict,
            schema_version: FEATURE_SCHEMA_VERSION,
        }
    }
}

/// Number of whole steps in the half-open range `[start, end)`; zero when
/// the range is empty or reversed.
pub open spec fn expected_points_spec(start: int, end: int) -> nat {
    if end <= start {
        0
    } else {
        ((end - start) / 1000) as nat
    }
}

pub fn expected_points(start_ts_ms_utc: i64, end_ts_ms_utc_exclusive: i64) -> (n: u64)
    ensures
        n == expected_points_spec(start_ts_ms_utc as int, end_ts_ms_utc_exclusive as int),
{
    if end_ts_ms_utc_exclusive <= start_ts_ms_utc {
        0
    } else {
        let span: i128 = end_ts_ms_utc_exclusive as i128 - start_ts_ms_utc as i128;
        (span / 1000) as u64
    }
}

/// Position of a store symbol id in the fixed symbol order.
pub open spec fn symbol_index_spec(symbol_id: i64) -> Option<usize> {
    if 1 <= symbol_id <= 4 {
        Some((symbol_id - 1) as usize)
    } else {
        None
    }
}

pub fn symbol_index(symbol_id: i64) -> (r: Option<usize>)
    ensures
        r == symbol_index_spec(symbol_id),
{
    match symbol_id {
        1 => Some(0),
        2 => Some(1),
        3 => Some(2),
        4 => Some(3),
        _ => None,
    }
}

/// What a request must satisfy: a non-empty range with both ends on a step.
pub open spec fn request_valid(req: FeatureTransformRequest) -> bool {
    &&& req.start_ts_ms_utc < req.end_ts_ms_utc_exclusive
    &&& req.start_ts_ms_utc % 1000 == 0
    &&& req.end_ts_ms_utc_exclusive % 1000 == 0
}

pub open spec fn request_error(req: FeatureTransformRequest) -> Option<FeatureErrorView> {
    if req.end_ts_ms_utc_exclusive <= req.start_ts_ms_utc {
        Some(
            FeatureErrorView::InvalidRequest(
                "end timestamp must be greater than start timestamp"@,
            ),
        )
    } else if req.start_ts_ms_utc % 1000 != 0 || req.end_ts_ms_utc_exclusive % 1000 != 0 {
        Some(FeatureErrorView::InvalidRequest("request boundaries must be aligned to 1000ms"@))
    } else {
        None
    }
}

pub fn validate_request(req: &FeatureTransformRequest) -> (r: Result<(), FeatureError>)
    ensures
        r is Ok <==> request_valid(*req),
        r is Ok <==> request_error(*req) is None,
        r is Err ==> Some(r->Err_0@) == request_error(*req),
{
    if req.end_ts_ms_utc_exclusive <= req.start_ts_ms_utc {
        return Err(
            FeatureError::InvalidRequest(
                "end timestamp must be greater than start timestamp".to_string(),
            ),
        );
    }
    if req.start_ts_ms_utc % STEP_MS != 0 || req.end_ts_ms_utc_exclusive % STEP_MS != 0 {
        return Err(
            FeatureError::InvalidRequest(
                "request boundaries must be aligned to 1000ms".to_string(),
            ),
        );
    }
    Ok(())
}

} // verus!

verus! {

/// What a configuration must satisfy: a positive maximum duration, the
/// current schema version, and a non-empty list of distinct positive windows.
pub open spec fn config_valid(cfg: &FeatureTransformConfig) -> bool {
    &&& cfg.max_duration_seconds > 0
    &&& cfg.schema_version == FEATURE_SCHEMA_VERSION
    &&& cfg.windows_seconds@.len() > 0
    &&& forall|i: int| 0 <= i < cfg.windows_seconds@.len() ==> cfg.windows_seconds@[i] > 0
    &&& forall|i: int, j: int|
        0 <= i < j < cfg.windows_seconds@.len() ==> cfg.windows_seconds@[i]
            != cfg.windows_seconds@[j]
}

/// The complaint about the first offending entry among the first `n` windows.
pub open spec fn windows_error(windows: Seq<u32>, n: nat) -> Option<FeatureErrorView>
    decreases n,
{
    if n == 0 {
        None
    } else {
        match windows_error(windows, (n - 1) as nat) {
            Some(e) => Some(e),
            None => if windows[n - 1] == 0 {
                Some(FeatureErrorView::InvalidConfig("windows_seconds entries must be > 0"@))
            } else if windows.take(n - 1).contains(windows[n - 1]) {
                Some(FeatureErrorView::InvalidConfig("windows_seconds entries must be unique"@))
            } else {
                None
            },
        }
    }
}

pub open spec fn config_error(cfg: &FeatureTransformConfig) -> Option<FeatureErrorView> {
    if cfg.max_duration_seconds == 0 {
        Some(FeatureErrorView::InvalidConfig("max_duration_seconds must be > 0"@))
    } else if cfg.schema_version != FEATURE_SCHEMA_VERSION {
        Some(
            FeatureErrorView::InvalidConfig(
                "schema_version must equal FEATURE_SCHEMA_VERSION (1)"@,
            ),
        )
    } else if cfg.windows_seconds@.len() == 0 {
        Some(FeatureErrorView::InvalidConfig("windows_seconds must not be empty"@))
    } else {
        windows_error(cfg.windows_seconds@, cfg.windows_seconds@.len())
    }
}

/// No complaint about the first `n` windows means they are positive and distinct.
pub proof fn lemma_windows_error_none(windows: Seq<u32>, n: nat)
    requires
        n <= windows.len(),
    ensures
        windows_error(windows, n) is None <==> {
            &&& forall|i: int| 0 <= i < n ==> windows[i] > 0
            &&& forall|i: int, j: int| 0 <= i < j < n ==> windows[i] != windows[j]
        },
    decreases n,
{
    if n > 0 {
        lemma_windows_error_none(windows, (n - 1) as nat);
        let last = windows[n - 1];
        let before = windows.take(n - 1);
        if before.contains(last) {
            let k = choose|k: int| 0 <= k < before.len() && before[k] == last;
            assert(windows[k] == windows[n - 1]);
        } else {
            assert forall|i: int| 0 <= i < n - 1 implies windows[i] != last by {
                assert(before[i] == windows[i]);
            }
        }
    }
}

/// A complaint found among the first `n` windows stays the complaint for any
/// longer prefix.
pub proof fn lemma_windows_error_stable(windows: Seq<u32>, n: nat, m: nat)
    requires
        n <= m,
        windows_error(windows, n) is Some,
    ensures
        windows_error(windows, m) == windows_error(windows, n),
    decreases m,
{
    if n < m {
        lemma_windows_error_stable(windows, n, (m - 1) as nat);
    }
}

pub fn validate_config(cfg: &FeatureTransformConfig) -> (r: Result<(), FeatureError>)
    ensures
        r is Ok <==> config_valid(cfg),
        r is Ok <==> config_error(cfg) is None,
        r is Err ==> Some(r->Err_0@) == config_error(cfg),
{
    broadcast use vstd::std_specs::hash::group_hash_axioms;

    if cfg.max_duration_seconds == 0 {
        return Err(FeatureError::InvalidConfig("max_duration_seconds must be > 0".to_string()));
    }
    if cfg.schema_version != FEATURE_SCHEMA_VERSION {
        return Err(
            FeatureError::InvalidConfig(
                "schema_version must equal FEATURE_SCHEMA_VERSION (1)".to_string(),
            ),
        );
    }
    if cfg.windows_seconds.len() == 0 {
        return Err(FeatureError::InvalidConfig("windows_seconds must not be empty".to_string()));
    }
    let mut seen: HashSet<u32> = HashSet::new();
    let mut i: usize = 0;
    while i < cfg.windows_seconds.len()
        invariant
            i <= cfg.windows_seconds@.len(),
            cfg.max_duration_seconds != 0,
            cfg.schema_version == FEATURE_SCHEMA_VERSION,
            cfg.windows_seconds@.len() > 0,
            windows_error(cfg.windows_seconds@, i as nat) is None,
            forall|v: u32|
                seen@.contains(v) <==> cfg.windows_seconds@.take(i as int).contains(v),
        decreases cfg.windows_seconds@.len() - i,
    {
        let window = cfg.windows_seconds[i];
        proof {
            if window == 0 || seen@.contains(window) {
                let n = (i + 1) as nat;
                assert(cfg.windows_seconds@[n - 1] == window);
                assert(cfg.windows_seconds@.take(n - 1) == cfg.windows_seconds@.take(i as int));
                assert(windows_error(cfg.windows_seconds@, (n - 1) as nat) is None);
                assert(windows_error(cfg.windows_seconds@, n) is Some);
                lemma_windows_error_stable(
                    cfg.windows_seconds@,
                    (i + 1) as nat,
                    cfg.windows_seconds@.len(),
                );
            }
        }
        if window == 0 {
            return Err(
                FeatureError::InvalidConfig("windows_seconds entries must be > 0".to_string()),
            );
        }
        if !seen.insert(window) {
            return Err(
                FeatureError::InvalidConfig("windows_seconds entries must be unique".to_string()),
            );
        }
        proof {
            let longer = cfg.windows_seconds@.take(i + 1);
            let shorter = cfg.windows_seconds@.take(i as int);
            assert(longer =~= shorter.push(window));
            assert forall|v: u32| seen@.contains(v) <==> longer.contains(v) by {
                if longer.contains(v) {
                    let k = choose|k: int| 0 <= k < longer.len() && longer[k] == v;
                    if k < i {
                        assert(shorter[k] == v);
                    }
                }
                if shorter.contains(v) {
                    let k = choose|k: int| 0 <= k < shorter.len() && shorter[k] == v;
                    assert(longer[k] == v);
                }
                assert(longer[i as int] == window);
            }
        }
        i = i + 1;
    }
    proof {
        lemma_windows_error_none(cfg.windows_seconds@, cfg.windows_seconds@.len());
    }
    Ok(())
}

} // verus!

verus! {

/// Seconds from Monday 00:00 UTC to the second that holds a millisecond
/// timestamp; the first day of 1970 was a Thursday.
pub open spec fn seconds_of_week_spec(ts_ms: int) -> int {
    (ts_ms / 1000 + 259_200) % 604_800
}

fn floor_seconds(ts_ms: i64) -> (s: i64)
    ensures
        s == ts_ms as int / 1000,
{
    let q = ts_ms / 1000;
    if ts_ms % 1000 < 0 {
        q - 1
    } else {
        q
    }
}

/// The second of the week, counted from Monday 00:00 UTC, that holds a
/// timestamp; a timestamp on no date is refused.
pub fn time_of_week_seconds(ts_ms_utc: i64) -> (r: Result<u32, FeatureError>)
    ensures
        match r {
            Ok(s) => crate::calendar::utc_in_range(ts_ms_utc as int) && s == seconds_of_week_spec(
                ts_ms_utc as int,
            ) && s < 604_800,
            Err(e) => !crate::calendar::utc_in_range(ts_ms_utc as int) && e@
                == FeatureErrorView::InvalidTimestamp(ts_ms_utc),
        },
{
    if crate::calendar::utc_date_of_millis(ts_ms_utc).is_none() {
        return Err(FeatureError::InvalidTimestamp(ts_ms_utc));
    }
    let shifted = floor_seconds(ts_ms_utc) + 259_200;
    let rest = shifted % 604_800;
    let second = if rest < 0 {
        rest + 604_800
    } else {
        rest
    };
    Ok(second as u32)
}

} // verus!
