//! The loader: parses the archives of a request, stitches their rows into
//! one time-ordered series without repeats, and reports its coverage.

use vstd::prelude::*;
use crate::calendar::{lemma_day_number_bounds, utc_in_range, MAX_YEAR, MIN_YEAR};
use crate::coverage::{
    compute_coverage, coverage_spec, dedup_consecutive, dedup_rows,
    kline_views, lemma_dedup, lemma_stable_sorted, open_times, sort_rows_by_open_time,
    stable_sorted, strictly_increasing, ts_safe, CoverageView, KlineView,
};
use crate::klines::{
    request_error, request_valid, validate_request, Kline1s, KlineLoadError,
    KlineLoadErrorView, KlineLoadRequest, KlineLoadResult,
};
use crate::parser::{archive_outcome, in_request, parse_zip_archive};

verus! {

/// A local archive read into memory; `path` names it in complaints.
#[derive(Debug, Clone, PartialEq, Eq)]
pub struct ArchiveBytes {
    pub path: String,
    pub bytes: Vec<u8>,
}

/// Rows in ascending order of open time, one per open time: of rows that
/// share an open time, the one that came first is kept.
pub open spec fn stitched(rows: Seq<KlineView>) -> Seq<KlineView> {
    dedup_consecutive(stable_sorted(rows))
}

pub open spec fn rows_in_request(req: KlineLoadRequest, rows: Seq<KlineView>) -> bool {
    forall|i: int| 0 <= i < rows.len() ==> in_request(req, (#[trigger] rows[i]).open_time_ms)
}

/// Mathematical content of a [`KlineLoadResult`].
pub struct LoadResultView {
    pub symbol: crate::klines::BinanceSymbol,
    pub rows: Seq<KlineView>,
    pub coverage: CoverageView,
}

impl View for KlineLoadResult {
    type V = LoadResultView;

    open spec fn view(&self) -> LoadResultView {
        LoadResultView {
            symbol: self.symbol,
            rows: kline_views(self.rows@),
            coverage: self.coverage@,
        }
    }
}

/// The result of a load over the given rows: the stitched rows and the
/// coverage of the request by them.
pub open spec fn load_result_spec(req: KlineLoadRequest, rows: Seq<KlineView>) -> LoadResultView {
    let kept = stitched(rows);
    LoadResultView {
        symbol: req.symbol,
        rows: kept,
        coverage: coverage_spec(req, open_times(kept), (rows.len() - kept.len()) as u64),
    }
}

/// Stitched rows of a request are fit for the coverage analysis.
pub proof fn lemma_stitched_ok(req: KlineLoadRequest, rows: Seq<KlineView>)
    requires
        rows_in_request(req, rows),
    ensures
        strictly_increasing(open_times(stitched(rows))),
        rows_in_request(req, stitched(rows)),
        stitched(rows).len() <= rows.len(),
{
    lemma_stable_sorted(rows);
    let sorted = stable_sorted(rows);
    lemma_dedup(sorted);
    let kept = stitched(rows);
    assert forall|i: int| 0 <= i < kept.len() implies in_request(
        req,
        (#[trigger] kept[i]).open_time_ms,
    ) by {
        assert(sorted.contains(kept[i]));
        let j = choose|j: int| 0 <= j < sorted.len() && sorted[j] == kept[i];
        assert(rows.contains(sorted[j]));
        let k = choose|k: int| 0 <= k < rows.len() && rows[k] == sorted[j];
        assert(in_request(req, rows[k].open_time_ms));
    }
}

/// Timestamps on dates that exist are far from the ends of the machine
/// integers.
pub proof fn lemma_in_range_is_safe(ts: int)
    requires
        utc_in_range(ts),
    ensures
        ts_safe(ts),
{
    lemma_day_number_bounds(MIN_YEAR as int, 1, 1);
    lemma_day_number_bounds(MAX_YEAR as int, 12, 31);
}

/// Orders the rows of a request, keeps one per open time, and measures the
/// request against them.
pub fn stitch_rows(req: &KlineLoadRequest, all_rows: Vec<Kline1s>) -> (result: KlineLoadResult)
    requires
        req.start_ts_ms_utc < req.end_ts_ms_utc_exclusive,
        ts_safe(req.start_ts_ms_utc as int),
        ts_safe(req.end_ts_ms_utc_exclusive as int),
        rows_in_request(*req, kline_views(all_rows@)),
    ensures
        result@ == load_result_spec(*req, kline_views(all_rows@)),
{
    let ghost input = kline_views(all_rows@);
    let mut rows = all_rows;
    sort_rows_by_open_time(&mut rows);
    let (deduped, duplicates_removed) = dedup_rows(rows);
    proof {
        lemma_stitched_ok(*req, input);
        lemma_stable_sorted(input);
        let kept = kline_views(deduped@);
        assert(kept == stitched(input));
        assert(open_times(kept).len() == kept.len());
        assert forall|i: int| 0 <= i < open_times(kept).len() implies req.start_ts_ms_utc
            <= #[trigger] open_times(kept)[i] < req.end_ts_ms_utc_exclusive by {
            assert(in_request(*req, kept[i].open_time_ms));
        }
    }
    let coverage = compute_coverage(req, &deduped, duplicates_removed);
    KlineLoadResult { symbol: req.symbol, rows: deduped, coverage }
}

pub open spec fn archive_data(archives: Seq<ArchiveBytes>) -> Seq<(Seq<char>, Seq<u8>)> {
    Seq::new(archives.len(), |i: int| (archives[i].path@, archives[i].bytes@))
}

/// The rows of the first `n` archives of a request, in archive order, or
/// the first complaint.
pub open spec fn gather_outcome(
    archives: Seq<(Seq<char>, Seq<u8>)>,
    req: KlineLoadRequest,
    n: nat,
) -> Result<Seq<KlineView>, KlineLoadErrorView>
    decreases n,
{
    if n == 0 {
        Ok(Seq::empty())
    } else {
        match gather_outcome(archives, req, (n - 1) as nat) {
            Err(e) => Err(e),
            Ok(rows) => match archive_outcome(archives[n - 1].1, archives[n - 1].0, req) {
                Err(e) => Err(e),
                Ok(more) => Ok(rows + more),
            },
        }
    }
}

/// What a load yields: the complaint about the request, the first complaint
/// about an archive, or the stitched rows with their coverage.
pub open spec fn load_outcome(archives: Seq<(Seq<char>, Seq<u8>)>, req: KlineLoadRequest) -> Result<
    LoadResultView,
    KlineLoadErrorView,
> {
    match request_error(req) {
        Some(e) => Err(e),
        None => match gather_outcome(archives, req, archives.len()) {
            Err(e) => Err(e),
            Ok(rows) => Ok(load_result_spec(req, rows)),
        },
    }
}

proof fn lemma_gather_error_stable(
    archives: Seq<(Seq<char>, Seq<u8>)>,
    req: KlineLoadRequest,
    n: nat,
    m: nat,
)
    requires
        n <= m,
        gather_outcome(archives, req, n) is Err,
    ensures
        gather_outcome(archives, req, m) == gather_outcome(archives, req, n),
    decreases m,
{
    if n < m {
        lemma_gather_error_stable(archives, req, n, (m - 1) as nat);
    }
}

/// What a load returns, as mathematical content.
pub open spec fn load_result_view(r: Result<KlineLoadResult, KlineLoadError>) -> Result<
    LoadResultView,
    KlineLoadErrorView,
> {
    match r {
        Ok(result) => Ok(result@),
        Err(e) => Err(e@),
    }
}

/// A load is a function of its inputs: two runs over the same request and
/// the same archives return the same rows and report, or an error of the
/// same content.
pub proof fn lemma_load_is_deterministic(
    req: KlineLoadRequest,
    archives: Seq<(Seq<char>, Seq<u8>)>,
    first: Result<KlineLoadResult, KlineLoadError>,
    second: Result<KlineLoadResult, KlineLoadError>,
)
    requires
        load_result_view(first) == load_outcome(archives, req),
        load_result_view(second) == load_outcome(archives, req),
    ensures
        load_result_view(first) == load_result_view(second),
{
}

/// Loads the klines of a request from its archives, given in planner order:
/// validates the request, parses every archive, stitches the rows, and
/// reports the coverage.
pub fn load_1s_klines(req: &KlineLoadRequest, archives: Vec<ArchiveBytes>) -> (r: Result<
    KlineLoadResult,
    KlineLoadError,
>)
    ensures
        load_result_view(r) == load_outcome(archive_data(archives@), *req),
{
    match validate_request(req) {
        Err(e) => {
            return Err(e);
        },
        Ok(()) => {},
    }
    let ghost data = archive_data(archives@);
    let mut all_rows: Vec<Kline1s> = Vec::new();
    assert(kline_views(all_rows@) =~= Seq::<KlineView>::empty());
    for archive in it: archives
        invariant
            data == archive_data(it.seq()),
            request_error(*req) is None,
            request_valid(*req),
            gather_outcome(data, *req, it.index() as nat) == Ok::<
                Seq<KlineView>,
                KlineLoadErrorView,
            >(kline_views(all_rows@)),
            rows_in_request(*req, kline_views(all_rows@)),
    {
        let ghost before = kline_views(all_rows@);
        let ghost i = it.index();
        assert(data[i] == (archive.path@, archive.bytes@));
        let ArchiveBytes { path, bytes } = archive;
        match parse_zip_archive(bytes, path.as_str(), req) {
            Err(e) => {
                proof {
                    lemma_gather_error_stable(data, *req, (i + 1) as nat, data.len());
                }
                return Err(e);
            },
            Ok(parsed) => {
                let mut parsed = parsed;
                let ghost more = kline_views(parsed@);
                all_rows.append(&mut parsed);
                assert(kline_views(all_rows@) =~= before + more);
            },
        }
    }
    proof {
        lemma_in_range_is_safe(req.start_ts_ms_utc as int);
        lemma_in_range_is_safe(req.end_ts_ms_utc_exclusive as int);
    }
    Ok(stitch_rows(req, all_rows))
}

} // verus!

verus! {

/// Stitching keeps exactly one row per open time: the stitched rows are in
/// strictly ascending order of open time, each is one of the rows given,
/// and every open time given is still there. What is dropped is what the
/// report counts as duplicates, and nothing is dropped where the rows given
/// have distinct open times.
pub proof fn lemma_one_row_per_open_time(req: KlineLoadRequest, rows: Seq<KlineView>)
    ensures
        strictly_increasing(open_times(stitched(rows))),
        forall|k: int| 0 <= k < stitched(rows).len() ==> rows.contains(#[trigger] stitched(rows)[k]),
        forall|k: int|
            0 <= k < rows.len() ==> open_times(stitched(rows)).contains(
                (#[trigger] rows[k]).open_time_ms,
            ),
        stitched(rows).len() <= rows.len() <= u64::MAX ==> load_result_spec(
            req,
            rows,
        ).coverage.duplicate_points_removed == rows.len() - stitched(rows).len(),
        crate::coverage::times_distinct(rows) ==> stitched(rows).len() == rows.len()
            && load_result_spec(req, rows).coverage.duplicate_points_removed == 0,
{
    lemma_stable_sorted(rows);
    let sorted = stable_sorted(rows);
    lemma_dedup(sorted);
    let kept = stitched(rows);
    assert forall|k: int| 0 <= k < kept.len() implies rows.contains(#[trigger] kept[k]) by {
        assert(sorted.contains(kept[k]));
        let j = choose|j: int| 0 <= j < sorted.len() && sorted[j] == kept[k];
        assert(rows.contains(sorted[j]));
    }
    assert forall|k: int| 0 <= k < rows.len() implies open_times(kept).contains(
        (#[trigger] rows[k]).open_time_ms,
    ) by {
        assert(sorted.contains(rows[k]));
        let j = choose|j: int| 0 <= j < sorted.len() && sorted[j] == rows[k];
        assert(open_times(kept).contains(sorted[j].open_time_ms));
    }
}

} // verus!
