//! The coverage analyzer: merges parsed rows, orders them by time, keeps one
//! row per timestamp, and measures the request's range against what is left.

use vstd::prelude::*;
use crate::klines::{Kline1s, KlineCoverageReport, KlineLoadRequest};

verus! {

/// Spacing of consecutive rows, in milliseconds.
pub const STEP_MS: i64 = 1_000;

/// Upper bound on the number of gap ranges kept in a report.
pub const MAX_REPORTED_GAP_RANGES: usize = 256;

/// Mathematical content of a [`Kline1s`].
pub struct KlineView {
    pub open_time_ms: i64,
    pub open: Seq<char>,
    pub high: Seq<char>,
    pub low: Seq<char>,
    pub close: Seq<char>,
    pub volume: Seq<char>,
    pub close_time_ms: i64,
    pub quote_asset_volume: Seq<char>,
    pub trade_count: u64,
    pub taker_buy_base_volume: Seq<char>,
    pub taker_buy_quote_volume: Seq<char>,
}

impl View for Kline1s {
    type V = KlineView;

    open spec fn view(&self) -> KlineView {
        KlineView {
            open_time_ms: self.open_time_ms,
            open: self.open@,
            high: self.high@,
            low: self.low@,
            close: self.close@,
            volume: self.volume@,
            close_time_ms: self.close_time_ms,
            quote_asset_volume: self.quote_asset_volume@,
            trade_count: self.trade_count,
            taker_buy_base_volume: self.taker_buy_base_volume@,
            taker_buy_quote_volume: self.taker_buy_quote_volume@,
        }
    }
}

pub open spec fn kline_views(rows: Seq<Kline1s>) -> Seq<KlineView> {
    Seq::new(rows.len(), |i: int| rows[i]@)
}

pub open spec fn open_times(rows: Seq<KlineView>) -> Seq<i64> {
    Seq::new(rows.len(), |i: int| rows[i].open_time_ms)
}

/// A time-ordered sequence with `x` put after every row that is not later.
pub open spec fn insert_sorted(sorted: Seq<KlineView>, x: KlineView) -> Seq<KlineView>
    decreases sorted.len(),
{
    if sorted.len() == 0 {
        seq![x]
    } else if sorted.last().open_time_ms <= x.open_time_ms {
        sorted.push(x)
    } else {
        insert_sorted(sorted.drop_last(), x).push(sorted.last())
    }
}

/// The rows in ascending order of open time, rows of equal time in the
/// order they came in.
pub open spec fn stable_sorted(rows: Seq<KlineView>) -> Seq<KlineView>
    decreases rows.len(),
{
    if rows.len() == 0 {
        Seq::empty()
    } else {
        insert_sorted(stable_sorted(rows.drop_last()), rows.last())
    }
}

/// The rows without those whose open time equals that of the row kept just
/// before them.
pub open spec fn dedup_consecutive(rows: Seq<KlineView>) -> Seq<KlineView>
    decreases rows.len(),
{
    if rows.len() == 0 {
        Seq::empty()
    } else {
        let kept = dedup_consecutive(rows.drop_last());
        if kept.len() > 0 && kept.last().open_time_ms == rows.last().open_time_ms {
            kept
        } else {
            kept.push(rows.last())
        }
    }
}

pub open spec fn nondecreasing(times: Seq<i64>) -> bool {
    forall|i: int, j: int| 0 <= i < j < times.len() ==> times[i] <= times[j]
}

pub open spec fn strictly_increasing(times: Seq<i64>) -> bool {
    forall|i: int, j: int| 0 <= i < j < times.len() ==> times[i] < times[j]
}

/// Orders the rows by open time, keeping rows of equal time in their order.
///
/// Stands for `sort_by_key` of slices with the open time as key, a stable
/// sort: afterwards the rows are in ascending order of open time, and rows
/// of equal time are in the order they had before.
#[verifier::external_body]
pub(crate) fn sort_rows_by_open_time(rows: &mut Vec<Kline1s>)
    ensures
        kline_views(final(rows)@) == stable_sorted(kline_views(old(rows)@)),
{
    rows.sort_by_key(|row| row.open_time_ms);
}

/// Keeps the first of every run of rows that share an open time.
pub fn dedup_rows(rows: Vec<Kline1s>) -> (r: (Vec<Kline1s>, u64))
    ensures
        kline_views(r.0@) == dedup_consecutive(kline_views(rows@)),
        r.1 == rows@.len() - r.0@.len(),
{
    let ghost all = kline_views(rows@);
    let ghost total = rows@.len();
    assert(total <= usize::MAX) by {
        assert(rows.len() == total);
    }
    let mut deduped: Vec<Kline1s> = Vec::new();
    let mut duplicates_removed: u64 = 0;
    assert(kline_views(deduped@) =~= dedup_consecutive(all.take(0)));
    for row in it: rows
        invariant
            all == kline_views(it.seq()),
            kline_views(deduped@) == dedup_consecutive(all.take(it.index())),
            duplicates_removed == it.index() - deduped@.len(),
            deduped@.len() <= it.index(),
            it.seq().len() == total,
            total <= usize::MAX,
    {
        let ghost i = it.index();
        let ghost before = kline_views(deduped@);
        assert(all.take(i + 1).drop_last() =~= all.take(i));
        assert(all.take(i + 1).last() == row@);
        let is_duplicate = deduped.len() > 0 && deduped[deduped.len() - 1].open_time_ms
            == row.open_time_ms;
        if is_duplicate {
            duplicates_removed = duplicates_removed + 1;
        } else {
            deduped.push(row);
            assert(kline_views(deduped@) =~= before.push(row@));
        }
    }
    assert(all.take(all.len() as int) =~= all);
    (deduped, duplicates_removed)
}

} // verus!

verus! {

/// Timestamps far enough from the ends of the machine integers that a step
/// can be added or taken away.
pub open spec fn ts_safe(t: int) -> bool {
    -4_000_000_000_000_000_000 <= t <= 4_000_000_000_000_000_000
}

/// What coverage is computed over: a non-empty range and rows inside it,
/// one per timestamp, in ascending order.
pub open spec fn coverage_input_ok(req: KlineLoadRequest, times: Seq<i64>) -> bool {
    &&& req.start_ts_ms_utc < req.end_ts_ms_utc_exclusive
    &&& ts_safe(req.start_ts_ms_utc as int)
    &&& ts_safe(req.end_ts_ms_utc_exclusive as int)
    &&& strictly_increasing(times)
    &&& forall|i: int|
        0 <= i < times.len() ==> req.start_ts_ms_utc <= #[trigger] times[i]
            < req.end_ts_ms_utc_exclusive
}

/// Where the next row is expected after the first `n` rows.
pub open spec fn cursor_after(req: KlineLoadRequest, times: Seq<i64>, n: nat) -> int {
    if n == 0 {
        req.start_ts_ms_utc as int
    } else {
        times[n - 1] + 1000
    }
}

/// The gaps met before each of the first `n` rows: from the expected
/// timestamp to one step before the row, both included.
pub open spec fn gaps_upto(req: KlineLoadRequest, times: Seq<i64>, n: nat) -> Seq<(i64, i64)>
    decreases n,
{
    if n == 0 {
        Seq::empty()
    } else {
        let before = gaps_upto(req, times, (n - 1) as nat);
        let cursor = cursor_after(req, times, (n - 1) as nat);
        if times[n - 1] > cursor {
            before.push((cursor as i64, (times[n - 1] - 1000) as i64))
        } else {
            before
        }
    }
}

/// All gaps of a request: those before rows, then the one between the last
/// row and the end of the range, if any.
pub open spec fn all_gaps(req: KlineLoadRequest, times: Seq<i64>) -> Seq<(i64, i64)> {
    let before = gaps_upto(req, times, times.len());
    let cursor = cursor_after(req, times, times.len());
    if cursor < req.end_ts_ms_utc_exclusive {
        before.push((cursor as i64, (req.end_ts_ms_utc_exclusive - 1000) as i64))
    } else {
        before
    }
}

/// Points in an inclusive gap range. A range that ends before it begins,
/// which only rows off the step grid produce, counts as one point.
pub open spec fn gap_points(gap: (i64, i64)) -> nat {
    if gap.1 >= gap.0 {
        ((gap.1 - gap.0) / 1000 + 1) as nat
    } else {
        1
    }
}

/// Points in the first `n` gaps.
pub open spec fn total_points(gaps: Seq<(i64, i64)>, n: nat) -> nat
    decreases n,
{
    if n == 0 {
        0
    } else {
        total_points(gaps, (n - 1) as nat) + gap_points(gaps[n - 1])
    }
}

/// The gaps that a report lists: the first 256.
pub open spec fn reported_gaps(gaps: Seq<(i64, i64)>) -> Seq<(i64, i64)> {
    if gaps.len() <= MAX_REPORTED_GAP_RANGES {
        gaps
    } else {
        gaps.take(MAX_REPORTED_GAP_RANGES as int)
    }
}

/// Mathematical content of a [`KlineCoverageReport`].
pub struct CoverageView {
    pub expected_points: u64,
    pub actual_points: u64,
    pub missing_points: u64,
    pub duplicate_points_removed: u64,
    pub total_gap_ranges: u64,
    pub gap_ranges: Seq<(i64, i64)>,
}

impl View for KlineCoverageReport {
    type V = CoverageView;

    open spec fn view(&self) -> CoverageView {
        CoverageView {
            expected_points: self.expected_points,
            actual_points: self.actual_points,
            missing_points: self.missing_points,
            duplicate_points_removed: self.duplicate_points_removed,
            total_gap_ranges: self.total_gap_ranges,
            gap_ranges: self.gap_ranges@,
        }
    }
}

/// The coverage of a request by rows with the given open times.
pub open spec fn coverage_spec(
    req: KlineLoadRequest,
    times: Seq<i64>,
    duplicate_points_removed: u64,
) -> CoverageView {
    let gaps = all_gaps(req, times);
    CoverageView {
        expected_points: ((req.end_ts_ms_utc_exclusive - req.start_ts_ms_utc) / 1000) as u64,
        actual_points: times.len() as u64,
        missing_points: total_points(gaps, gaps.len()) as u64,
        duplicate_points_removed,
        total_gap_ranges: gaps.len() as u64,
        gap_ranges: reported_gaps(gaps),
    }
}

proof fn lemma_total_points_push(gaps: Seq<(i64, i64)>, gap: (i64, i64))
    ensures
        total_points(gaps.push(gap), gaps.len() + 1) == total_points(gaps, gaps.len())
            + gap_points(gap),
{
    lemma_total_points_prefix(gaps.push(gap), gaps, gaps.len());
}

proof fn lemma_total_points_prefix(a: Seq<(i64, i64)>, b: Seq<(i64, i64)>, n: nat)
    requires
        n <= a.len(),
        n <= b.len(),
        forall|i: int| 0 <= i < n ==> a[i] == b[i],
    ensures
        total_points(a, n) == total_points(b, n),
    decreases n,
{
    if n > 0 {
        lemma_total_points_prefix(a, b, (n - 1) as nat);
    }
}

/// Rows in strictly ascending order lie at least their index beyond the
/// first one.
proof fn lemma_increasing_spread(times: Seq<i64>, i: int)
    requires
        strictly_increasing(times),
        0 <= i < times.len(),
    ensures
        times[i] >= times[0] + i,
    decreases i,
{
    if i > 0 {
        lemma_increasing_spread(times, i - 1);
    }
}

/// Walks the rows and lists the gaps: the ranges reported (at most 256), the
/// number of all ranges, and the number of missing points.
pub fn gap_ranges(req: &KlineLoadRequest, rows: &Vec<Kline1s>) -> (r: (Vec<(i64, i64)>, u64, u64))
    requires
        coverage_input_ok(*req, open_times(kline_views(rows@))),
    ensures
        ({
            let gaps = all_gaps(*req, open_times(kline_views(rows@)));
            &&& r.0@ == reported_gaps(gaps)
            &&& r.1 == gaps.len()
            &&& r.2 == total_points(gaps, gaps.len())
        }),
{
    let ghost times = open_times(kline_views(rows@));
    let mut reported: Vec<(i64, i64)> = Vec::new();
    let mut total: u64 = 0;
    let mut missing: u64 = 0;
    let mut cursor: i64 = req.start_ts_ms_utc;
    let mut i: usize = 0;
    while i < rows.len()
        invariant
            i <= rows@.len(),
            times == open_times(kline_views(rows@)),
            coverage_input_ok(*req, times),
            cursor == cursor_after(*req, times, i as nat),
            total == gaps_upto(*req, times, i as nat).len(),
            total <= i,
            reported@ == reported_gaps(gaps_upto(*req, times, i as nat)),
            missing == total_points(gaps_upto(*req, times, i as nat), total as nat),
            missing <= cursor - req.start_ts_ms_utc,
        decreases rows@.len() - i,
    {
        let t = rows[i].open_time_ms;
        assert(t == times[i as int]);
        let ghost before = gaps_upto(*req, times, i as nat);
        proof {
            if i > 0 {
                assert(times[i - 1] < times[i as int]);
            }
        }
        if t > cursor {
            let gap = (cursor, t - STEP_MS);
            let points: u64 = if gap.1 >= gap.0 {
                ((gap.1 - gap.0) / STEP_MS + 1) as u64
            } else {
                1
            };
            proof {
                lemma_total_points_push(before, gap);
            }
            if reported.len() < MAX_REPORTED_GAP_RANGES {
                reported.push(gap);
            }
            assert(reported@ =~= reported_gaps(before.push(gap)));
            total = total + 1;
            missing = missing + points;
        }
        cursor = t + STEP_MS;
        i = i + 1;
    }
    let ghost before = gaps_upto(*req, times, times.len());
    proof {
        if times.len() > 0 {
            lemma_increasing_spread(times, times.len() - 1);
        }
    }
    if cursor < req.end_ts_ms_utc_exclusive {
        let gap = (cursor, req.end_ts_ms_utc_exclusive - STEP_MS);
        let points: u64 = if gap.1 >= gap.0 {
            ((gap.1 - gap.0) / STEP_MS + 1) as u64
        } else {
            1
        };
        proof {
            lemma_total_points_push(before, gap);
        }
        if reported.len() < MAX_REPORTED_GAP_RANGES {
            reported.push(gap);
        }
        assert(reported@ =~= reported_gaps(before.push(gap)));
        total = total + 1;
        missing = missing + points;
    }
    (reported, total, missing)
}

/// Measures a request against its rows.
pub fn compute_coverage(
    req: &KlineLoadRequest,
    rows: &Vec<Kline1s>,
    duplicate_points_removed: u64,
) -> (report: KlineCoverageReport)
    requires
        coverage_input_ok(*req, open_times(kline_views(rows@))),
    ensures
        report@ == coverage_spec(*req, open_times(kline_views(rows@)), duplicate_points_removed),
{
    let expected_points = ((req.end_ts_ms_utc_exclusive - req.start_ts_ms_utc) / STEP_MS) as u64;
    let actual_points = rows.len() as u64;
    let (gap_ranges, total_gap_ranges, missing_points) = gap_ranges(req, rows);
    KlineCoverageReport {
        expected_points,
        actual_points,
        missing_points,
        duplicate_points_removed,
        total_gap_ranges,
        gap_ranges,
    }
}

} // verus!

verus! {

/// No two rows share an open time.
pub open spec fn times_distinct(rows: Seq<KlineView>) -> bool {
    forall|i: int, j: int|
        0 <= i < rows.len() && 0 <= j < rows.len() && i != j ==> rows[i].open_time_ms
            != rows[j].open_time_ms
}

/// Inserting into a time-ordered sequence puts the row at one position:
/// after the rows that are not later, before the rows that are.
pub proof fn lemma_insert_position(sorted: Seq<KlineView>, x: KlineView) -> (p: int)
    requires
        nondecreasing(open_times(sorted)),
    ensures
        0 <= p <= sorted.len(),
        insert_sorted(sorted, x) == sorted.insert(p, x),
        forall|j: int| 0 <= j < p ==> (#[trigger] sorted[j]).open_time_ms <= x.open_time_ms,
        forall|j: int|
            p <= j < sorted.len() ==> (#[trigger] sorted[j]).open_time_ms > x.open_time_ms,
    decreases sorted.len(),
{
    if sorted.len() == 0 {
        assert(insert_sorted(sorted, x) =~= sorted.insert(0, x));
        0
    } else if sorted.last().open_time_ms <= x.open_time_ms {
        let n = sorted.len() as int;
        assert(insert_sorted(sorted, x) =~= sorted.insert(n, x));
        assert forall|j: int| 0 <= j < n implies (#[trigger] sorted[j]).open_time_ms
            <= x.open_time_ms by {
            assert(open_times(sorted)[j] <= open_times(sorted)[n - 1]);
        }
        n
    } else {
        let shorter = sorted.drop_last();
        assert forall|i: int, j: int| 0 <= i < j < shorter.len() implies open_times(shorter)[i]
            <= open_times(shorter)[j] by {
            assert(open_times(sorted)[i] <= open_times(sorted)[j]);
        }
        let p = lemma_insert_position(shorter, x);
        assert(insert_sorted(sorted, x) =~= sorted.insert(p, x));
        assert forall|j: int| p <= j < sorted.len() implies (#[trigger] sorted[j]).open_time_ms
            > x.open_time_ms by {
            if j < shorter.len() {
                assert(shorter[j] == sorted[j]);
            }
        }
        assert forall|j: int| 0 <= j < p implies (#[trigger] sorted[j]).open_time_ms
            <= x.open_time_ms by {
            assert(shorter[j] == sorted[j]);
        }
        p
    }
}

/// Sorting keeps the rows and puts them in ascending order of open time.
pub proof fn lemma_stable_sorted(rows: Seq<KlineView>)
    ensures
        stable_sorted(rows).len() == rows.len(),
        nondecreasing(open_times(stable_sorted(rows))),
        forall|k: int|
            0 <= k < rows.len() ==> rows.contains(#[trigger] stable_sorted(rows)[k]),
        forall|k: int| 0 <= k < rows.len() ==> stable_sorted(rows).contains(#[trigger] rows[k]),
        times_distinct(rows) ==> times_distinct(stable_sorted(rows)),
    decreases rows.len(),
{
    if rows.len() > 0 {
        let shorter = rows.drop_last();
        let x = rows.last();
        lemma_stable_sorted(shorter);
        let s = stable_sorted(shorter);
        let p = lemma_insert_position(s, x);
        let out = stable_sorted(rows);
        assert(out == s.insert(p, x));
        assert forall|i: int, j: int| 0 <= i < j < out.len() implies open_times(out)[i]
            <= open_times(out)[j] by {
            if j < p {
                assert(open_times(s)[i] <= open_times(s)[j]);
            } else if j == p {
                assert(out[i] == s[i]);
            } else if i < p {
                assert(out[i] == s[i]);
                assert(out[j] == s[j - 1]);
            } else if i == p {
                assert(out[j] == s[j - 1]);
            } else {
                assert(open_times(s)[i - 1] <= open_times(s)[j - 1]);
            }
        }
        assert forall|k: int| 0 <= k < rows.len() implies rows.contains(#[trigger] out[k]) by {
            if k == p {
                assert(rows[rows.len() - 1] == x);
            } else {
                let q = if k < p {
                    k
                } else {
                    k - 1
                };
                assert(out[k] == s[q]);
                assert(shorter.contains(s[q]));
                let j = choose|j: int| 0 <= j < shorter.len() && shorter[j] == s[q];
                assert(rows[j] == s[q]);
            }
        }
        assert forall|k: int| 0 <= k < rows.len() implies out.contains(#[trigger] rows[k]) by {
            if k == rows.len() - 1 {
                assert(out[p] == x);
            } else {
                assert(shorter[k] == rows[k]);
                assert(s.contains(shorter[k]));
                let j = choose|j: int| 0 <= j < s.len() && s[j] == shorter[k];
                let q = if j < p {
                    j
                } else {
                    j + 1
                };
                assert(out[q] == rows[k]);
            }
        }
        if times_distinct(rows) {
            assert(times_distinct(shorter)) by {
                assert forall|i: int, j: int|
                    0 <= i < shorter.len() && 0 <= j < shorter.len() && i != j implies shorter[i].open_time_ms
                    != shorter[j].open_time_ms by {
                    assert(shorter[i] == rows[i] && shorter[j] == rows[j]);
                }
            }
            assert forall|i: int, j: int|
                0 <= i < out.len() && 0 <= j < out.len() && i != j implies out[i].open_time_ms
                != out[j].open_time_ms by {
                let qi = if i < p {
                    i
                } else {
                    i - 1
                };
                let qj = if j < p {
                    j
                } else {
                    j - 1
                };
                if i == p || j == p {
                    let q = if i == p {
                        qj
                    } else {
                        qi
                    };
                    assert(shorter.contains(s[q]));
                    let m = choose|m: int| 0 <= m < shorter.len() && shorter[m] == s[q];
                    assert(rows[m] == s[q]);
                    assert(rows[rows.len() - 1] == x);
                } else {
                    assert(out[i] == s[qi] && out[j] == s[qj]);
                }
            }
        }
    }
}

/// Dropping repeated open times from a time-ordered sequence leaves a
/// strictly ascending one that keeps every open time, and changes nothing
/// where no time repeats.
pub proof fn lemma_dedup(rows: Seq<KlineView>)
    requires
        nondecreasing(open_times(rows)),
    ensures
        strictly_increasing(open_times(dedup_consecutive(rows))),
        dedup_consecutive(rows).len() <= rows.len(),
        forall|k: int|
            0 <= k < dedup_consecutive(rows).len() ==> rows.contains(
                #[trigger] dedup_consecutive(rows)[k],
            ),
        forall|k: int|
            0 <= k < rows.len() ==> open_times(dedup_consecutive(rows)).contains(
                (#[trigger] rows[k]).open_time_ms,
            ),
        rows.len() > 0 ==> dedup_consecutive(rows).len() > 0 && dedup_consecutive(
            rows,
        ).last().open_time_ms == rows.last().open_time_ms,
        times_distinct(rows) ==> dedup_consecutive(rows) == rows,
    decreases rows.len(),
{
    if rows.len() > 0 {
        let shorter = rows.drop_last();
        let x = rows.last();
        assert forall|i: int, j: int| 0 <= i < j < shorter.len() implies open_times(shorter)[i]
            <= open_times(shorter)[j] by {
            assert(open_times(rows)[i] <= open_times(rows)[j]);
        }
        lemma_dedup(shorter);
        let kept = dedup_consecutive(shorter);
        let out = dedup_consecutive(rows);
        let n = rows.len() as int;
        assert forall|k: int| 0 <= k < out.len() implies rows.contains(#[trigger] out[k]) by {
            if k < kept.len() {
                assert(out[k] == kept[k]);
                assert(shorter.contains(kept[k]));
                let j = choose|j: int| 0 <= j < shorter.len() && shorter[j] == kept[k];
                assert(rows[j] == kept[k]);
            } else {
                assert(rows[n - 1] == x);
            }
        }
        assert forall|k: int| 0 <= k < rows.len() implies open_times(out).contains(
            (#[trigger] rows[k]).open_time_ms,
        ) by {
            if k < n - 1 {
                assert(shorter[k] == rows[k]);
                assert(open_times(kept).contains(shorter[k].open_time_ms));
                let j = choose|j: int|
                    0 <= j < open_times(kept).len() && open_times(kept)[j]
                        == shorter[k].open_time_ms;
                assert(open_times(out)[j] == rows[k].open_time_ms);
            } else {
                assert(open_times(out)[out.len() - 1] == rows[k].open_time_ms);
            }
        }
        assert forall|i: int, j: int| 0 <= i < j < out.len() implies open_times(out)[i]
            < open_times(out)[j] by {
            if j < kept.len() {
                assert(open_times(kept)[i] < open_times(kept)[j]);
            } else {
                // out[j] is x, appended because the last kept time differs from it
                assert(out[i] == kept[i]);
                assert(shorter.contains(kept[i]));
                let m = choose|m: int| 0 <= m < shorter.len() && shorter[m] == kept[i];
                assert(open_times(rows)[m] <= open_times(rows)[n - 1]);
                if i < kept.len() - 1 {
                    assert(open_times(kept)[i] < open_times(kept)[kept.len() - 1]);
                }
                assert(kept.last().open_time_ms == shorter.last().open_time_ms);
                assert(open_times(rows)[n - 2] <= open_times(rows)[n - 1]);
            }
        }
        if times_distinct(rows) {
            assert(times_distinct(shorter)) by {
                assert forall|i: int, j: int|
                    0 <= i < shorter.len() && 0 <= j < shorter.len() && i != j implies shorter[i].open_time_ms
                    != shorter[j].open_time_ms by {
                    assert(shorter[i] == rows[i] && shorter[j] == rows[j]);
                }
            }
            if n > 1 {
                assert(rows[n - 2].open_time_ms != rows[n - 1].open_time_ms);
                assert(shorter.last() == rows[n - 2]);
            }
            assert(out =~= rows);
        }
    }
}

} // verus!

verus! {

pub open spec fn on_grid(t: int) -> bool {
    t % 1000 == 0
}

/// A gap from a cursor on the grid up to the step before a later row on the
/// grid is a run of whole steps, and with the row it carries the count of
/// points from the cursor to the row's successor.
proof fn lemma_gap_step(start: int, cursor: int, t: int)
    requires
        ts_safe(start),
        start <= cursor < t,
        t <= 4_000_000_000_000_000_000,
        on_grid(start),
        on_grid(cursor),
        on_grid(t),
    ensures
        cursor <= t - 1000,
        on_grid(t - 1000),
        gap_points((cursor as i64, (t - 1000) as i64)) == (t - cursor) / 1000,
        (cursor - start) / 1000 + (t - cursor) / 1000 + 1 == (t + 1000 - start) / 1000,
{
    let a = start / 1000;
    let b = cursor / 1000;
    let c = t / 1000;
    assert(start == 1000 * a && cursor == 1000 * b && t == 1000 * c);
    assert(b < c);
    assert((cursor - start) / 1000 == b - a) by {
        assert(cursor - start == 1000 * (b - a));
    }
    assert((t - cursor) / 1000 == c - b) by {
        assert(t - cursor == 1000 * (c - b));
    }
    assert((t + 1000 - start) / 1000 == c + 1 - a) by {
        assert(t + 1000 - start == 1000 * (c + 1 - a));
    }
    assert((t - 1000 - cursor) / 1000 == c - 1 - b) by {
        assert(t - 1000 - cursor == 1000 * (c - 1 - b));
    }
    assert((t - 1000) % 1000 == 0) by {
        assert(t - 1000 == 1000 * (c - 1));
    }
}

/// The cursor after the first `n` rows is on the grid, at or after the start
/// of the request and at most one step past its end.
proof fn lemma_cursor_placed(req: KlineLoadRequest, times: Seq<i64>, n: nat)
    requires
        coverage_input_ok(req, times),
        on_grid(req.start_ts_ms_utc as int),
        forall|i: int| 0 <= i < times.len() ==> on_grid(#[trigger] times[i] as int),
        n <= times.len(),
    ensures
        on_grid(cursor_after(req, times, n)),
        req.start_ts_ms_utc <= cursor_after(req, times, n),
        cursor_after(req, times, n) <= req.end_ts_ms_utc_exclusive + 999,
        n > 0 ==> cursor_after(req, times, (n - 1) as nat) <= times[n - 1],
{
    if n > 0 {
        let t = times[n - 1];
        assert(on_grid(t as int));
        assert((t + 1000) % 1000 == 0) by {
            assert(t + 1000 == 1000 * (t / 1000 + 1));
        }
        if n > 1 {
            let p = times[n - 2];
            assert(p < t);
            assert(on_grid(p as int));
            assert(p + 1000 <= t) by {
                assert(p == 1000 * (p / 1000) && t == 1000 * (t / 1000));
            }
        }
    }
}

/// Every gap before the first `n` rows is a run of whole steps inside the
/// request, and there are no more gaps than rows.
proof fn lemma_gaps_placed(req: KlineLoadRequest, times: Seq<i64>, n: nat)
    requires
        coverage_input_ok(req, times),
        on_grid(req.start_ts_ms_utc as int),
        forall|i: int| 0 <= i < times.len() ==> on_grid(#[trigger] times[i] as int),
        n <= times.len(),
    ensures
        gaps_upto(req, times, n).len() <= n,
        forall|k: int|
            0 <= k < gaps_upto(req, times, n).len() ==> {
                let gap = #[trigger] gaps_upto(req, times, n)[k];
                gap.0 <= gap.1 && on_grid(gap.0 as int) && on_grid(gap.1 as int)
                    && req.start_ts_ms_utc <= gap.0 && gap.1 < req.end_ts_ms_utc_exclusive
            },
    decreases n,
{
    if n > 0 {
        lemma_gaps_placed(req, times, (n - 1) as nat);
        lemma_cursor_placed(req, times, (n - 1) as nat);
        let before = gaps_upto(req, times, (n - 1) as nat);
        let cursor = cursor_after(req, times, (n - 1) as nat);
        let t = times[n - 1];
        assert(on_grid(t as int));
        if t > cursor {
            lemma_gap_step(req.start_ts_ms_utc as int, cursor, t as int);
            let gap = (cursor as i64, (t - 1000) as i64);
            let now = gaps_upto(req, times, n);
            assert(now == before.push(gap));
            assert forall|k: int| 0 <= k < now.len() implies {
                let g = #[trigger] now[k];
                g.0 <= g.1 && on_grid(g.0 as int) && on_grid(g.1 as int) && req.start_ts_ms_utc
                    <= g.0 && g.1 < req.end_ts_ms_utc_exclusive
            } by {
                if k < before.len() {
                    assert(now[k] == before[k]);
                } else {
                    assert(now[k] == gap);
                }
            }
        }
    }
}

/// The points of the gaps before the first `n` rows, and those rows, add up
/// to the points from the start of the request to the cursor.
proof fn lemma_gap_sum(req: KlineLoadRequest, times: Seq<i64>, n: nat)
    requires
        coverage_input_ok(req, times),
        on_grid(req.start_ts_ms_utc as int),
        forall|i: int| 0 <= i < times.len() ==> on_grid(#[trigger] times[i] as int),
        n <= times.len(),
    ensures
        total_points(gaps_upto(req, times, n), gaps_upto(req, times, n).len()) + n == (
        cursor_after(req, times, n) - req.start_ts_ms_utc) / 1000,
    decreases n,
{
    let start = req.start_ts_ms_utc as int;
    if n > 0 {
        lemma_gap_sum(req, times, (n - 1) as nat);
        lemma_cursor_placed(req, times, (n - 1) as nat);
        lemma_cursor_placed(req, times, n);
        let before = gaps_upto(req, times, (n - 1) as nat);
        let cursor = cursor_after(req, times, (n - 1) as nat);
        let t = times[n - 1] as int;
        assert(on_grid(t));
        if t > cursor {
            let gap = (cursor as i64, (t - 1000) as i64);
            lemma_gap_step(start, cursor, t);
            lemma_total_points_push(before, gap);
            assert(gaps_upto(req, times, n) == before.push(gap));
        } else {
            assert(t == cursor);
            assert(gaps_upto(req, times, n) == before);
            assert((t + 1000 - start) / 1000 == (cursor - start) / 1000 + 1) by {
                assert(start == 1000 * (start / 1000) && t == 1000 * (t / 1000));
                assert(t + 1000 - start == 1000 * (t / 1000 + 1 - start / 1000));
                assert(cursor - start == 1000 * (t / 1000 - start / 1000));
            }
        }
    } else {
        assert((start - start) / 1000 == 0);
    }
}

/// Over rows on the step grid, the points of a request are either present
/// or missing: the missing points and the rows add up to the expected
/// points, and every gap is a run of whole steps inside the request.
pub proof fn lemma_missing_plus_actual_is_expected(
    req: KlineLoadRequest,
    times: Seq<i64>,
    duplicate_points_removed: u64,
)
    requires
        coverage_input_ok(req, times),
        on_grid(req.start_ts_ms_utc as int),
        on_grid(req.end_ts_ms_utc_exclusive as int),
        forall|i: int| 0 <= i < times.len() ==> on_grid(#[trigger] times[i] as int),
    ensures
        ({
            let c = coverage_spec(req, times, duplicate_points_removed);
            &&& c.missing_points + c.actual_points == c.expected_points
            &&& c.total_gap_ranges == all_gaps(req, times).len()
            &&& forall|k: int|
                0 <= k < all_gaps(req, times).len() ==> {
                    let gap = #[trigger] all_gaps(req, times)[k];
                    gap.0 <= gap.1 && on_grid(gap.0 as int) && on_grid(gap.1 as int)
                        && req.start_ts_ms_utc <= gap.0 && gap.1 < req.end_ts_ms_utc_exclusive
                }
        }),
{
    let n = times.len();
    lemma_gap_sum(req, times, n);
    lemma_gaps_placed(req, times, n);
    let before = gaps_upto(req, times, n);
    let cursor = cursor_after(req, times, n);
    if n > 0 {
        lemma_increasing_spread(times, n - 1);
        assert(on_grid(times[n - 1] as int));
    }
    if cursor < req.end_ts_ms_utc_exclusive {
        let gap = (cursor as i64, (req.end_ts_ms_utc_exclusive - 1000) as i64);
        lemma_total_points_push(before, gap);
        assert(all_gaps(req, times) == before.push(gap));
    }
}

} // verus!

verus! {

/// Whether a timestamp lies in one of the gap ranges.
pub open spec fn in_gap(gaps: Seq<(i64, i64)>, t: int) -> bool {
    exists|k: int| 0 <= k < gaps.len() && (#[trigger] gaps[k]).0 <= t <= gaps[k].1
}

/// Whether one of the first `n` rows is at a timestamp.
pub open spec fn present(times: Seq<i64>, n: nat, t: int) -> bool {
    exists|i: int| 0 <= i < n && #[trigger] times[i] == t
}

proof fn lemma_gaps_are_the_missing_points_upto(req: KlineLoadRequest, times: Seq<i64>, n: nat)
    requires
        coverage_input_ok(req, times),
        on_grid(req.start_ts_ms_utc as int),
        forall|i: int| 0 <= i < times.len() ==> on_grid(#[trigger] times[i] as int),
        n <= times.len(),
    ensures
        forall|t: int|
            req.start_ts_ms_utc <= t < cursor_after(req, times, n) && on_grid(t) ==> (#[trigger] in_gap(
                gaps_upto(req, times, n),
                t,
            ) <==> !present(times, n, t)),
        forall|k: int|
            0 <= k < gaps_upto(req, times, n).len() ==> (#[trigger] gaps_upto(req, times, n)[k]).1
                < cursor_after(req, times, n),
        req.start_ts_ms_utc <= cursor_after(req, times, n),
        forall|i: int| 0 <= i < n ==> #[trigger] times[i] < cursor_after(req, times, n),
    decreases n,
{
    if n > 0 {
        lemma_gaps_are_the_missing_points_upto(req, times, (n - 1) as nat);
        let before = gaps_upto(req, times, (n - 1) as nat);
        let now = gaps_upto(req, times, n);
        let cursor = cursor_after(req, times, (n - 1) as nat);
        let row = times[n - 1];
        assert(on_grid(row as int));
        if n > 1 {
            assert(times[n - 2] < times[n - 1]);
            assert(on_grid(times[n - 2] as int));
        }
        assert(row >= cursor);
        assert forall|i: int| 0 <= i < n implies #[trigger] times[i] < row + 1000 by {
            if i < n - 1 {
                assert(times[i] < times[n - 1]);
            }
        }
        assert forall|t: int|
            req.start_ts_ms_utc <= t < row + 1000 && on_grid(t) implies (#[trigger] in_gap(now, t)
            <==> !present(times, n, t)) by {
            if t < cursor {
                // settled before this row
                assert(in_gap(before, t) <==> !present(times, (n - 1) as nat, t));
                if in_gap(before, t) {
                    let k = choose|k: int|
                        0 <= k < before.len() && (#[trigger] before[k]).0 <= t <= before[k].1;
                    assert(now[k] == before[k]);
                }
                if in_gap(now, t) {
                    let k = choose|k: int| 0 <= k < now.len() && (#[trigger] now[k]).0 <= t <= now[k].1;
                    if k < before.len() {
                        assert(before[k] == now[k]);
                    }
                }
                if present(times, n, t) {
                    let i = choose|i: int| 0 <= i < n && #[trigger] times[i] == t;
                    assert(i < n - 1);
                }
                if present(times, (n - 1) as nat, t) {
                    let i = choose|i: int| 0 <= i < n - 1 && #[trigger] times[i] == t;
                    assert(times[i] == t);
                }
            } else if t < row {
                // in the gap before this row
                assert(row > cursor);
                assert(now == before.push((cursor as i64, (row - 1000) as i64)));
                assert(now[now.len() - 1].0 <= t <= now[now.len() - 1].1);
                if present(times, n, t) {
                    let i = choose|i: int| 0 <= i < n && #[trigger] times[i] == t;
                    if i < n - 1 {
                        assert(times[i] < cursor);
                    }
                }
            } else {
                // the row itself
                assert(t == row);
                assert(times[n - 1] == t);
                if in_gap(now, t) {
                    let k = choose|k: int| 0 <= k < now.len() && (#[trigger] now[k]).0 <= t <= now[k].1;
                    if k < before.len() {
                        assert(before[k] == now[k]);
                    }
                }
            }
        }
        assert forall|k: int| 0 <= k < now.len() implies (#[trigger] now[k]).1 < row + 1000 by {
            if k < before.len() {
                assert(now[k] == before[k]);
            }
        }
    }
}

/// Over rows on the step grid, the gaps are exactly the missing points: a
/// timestamp of the request on the grid lies in a gap if and only if no row
/// is at it.
pub proof fn lemma_gaps_are_the_missing_points(req: KlineLoadRequest, times: Seq<i64>)
    requires
        coverage_input_ok(req, times),
        on_grid(req.start_ts_ms_utc as int),
        on_grid(req.end_ts_ms_utc_exclusive as int),
        forall|i: int| 0 <= i < times.len() ==> on_grid(#[trigger] times[i] as int),
    ensures
        forall|t: int|
            req.start_ts_ms_utc <= t < req.end_ts_ms_utc_exclusive && on_grid(t) ==> (#[trigger] in_gap(
                all_gaps(req, times),
                t,
            ) <==> !times.contains(t as i64)),
{
    let n = times.len();
    lemma_gaps_are_the_missing_points_upto(req, times, n);
    let before = gaps_upto(req, times, n);
    let all = all_gaps(req, times);
    let cursor = cursor_after(req, times, n);
    if n > 0 {
        assert(on_grid(times[n - 1] as int));
    }
    assert forall|t: int|
        req.start_ts_ms_utc <= t < req.end_ts_ms_utc_exclusive && on_grid(t) implies (#[trigger] in_gap(
        all,
        t,
    ) <==> !times.contains(t as i64)) by {
        if times.contains(t as i64) {
            let i = choose|i: int| 0 <= i < times.len() && times[i] == t as i64;
            assert(times[i] == t);
            assert(present(times, n, t));
        }
        if present(times, n, t) {
            let i = choose|i: int| 0 <= i < n && #[trigger] times[i] == t;
            assert(times[i] == t as i64);
        }
        if t < cursor {
            assert(in_gap(before, t) <==> !present(times, n, t));
            if in_gap(before, t) {
                let k = choose|k: int|
                    0 <= k < before.len() && (#[trigger] before[k]).0 <= t <= before[k].1;
                assert(all[k] == before[k]);
            }
            if in_gap(all, t) {
                let k = choose|k: int| 0 <= k < all.len() && (#[trigger] all[k]).0 <= t <= all[k].1;
                if k < before.len() {
                    assert(before[k] == all[k]);
                }
            }
        } else {
            assert(all == before.push((cursor as i64, (req.end_ts_ms_utc_exclusive - 1000) as i64)));
            assert(all[all.len() - 1].0 <= t <= all[all.len() - 1].1);
            if present(times, n, t) {
                let i = choose|i: int| 0 <= i < n && #[trigger] times[i] == t;
                assert(times[i] < cursor);
            }
        }
    }
}

} // verus!
