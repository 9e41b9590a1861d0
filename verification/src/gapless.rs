//! What the transform yields over a stream without faults: every frame of
//! the request present and complete, in order.

use vstd::prelude::*;
use crate::features::{
    config_error, config_valid, expected_points_spec, lemma_windows_error_none, request_error,
    request_valid, FeatureErrorView, FeatureTransformConfig, FeatureTransformRequest, GapPolicy,
    ReportView,
};
use crate::transform::{
    accepted_outcome, continuity_outcome, empty_frame, empty_histories, finish_outcome,
    frame_complete, frame_outcome, frame_with_point, histories_warm, history_warm,
    initial_model, keep_last, lemma_max_window_bounds, max_window_of, point_outcome,
    push_frame, report_with_output, run_prefix, settled_outcome, tail_outcome,
    transform_outcome, widened, EngineCore, EngineModel, FrameView, KlinePoint, StorePoint,
    WarmFrameView,
};

verus! {

/// The timestamp of the frame numbered `k` of a request.
pub open spec fn ts_at(req: FeatureTransformRequest, k: int) -> i64 {
    (req.start_ts_ms_utc + k * 1000) as i64
}

/// The number of frames of a request.
pub open spec fn frame_count(req: FeatureTransformRequest) -> nat {
    expected_points_spec(req.start_ts_ms_utc as int, req.end_ts_ms_utc_exclusive as int)
}

/// The stream without faults of the first `n` frames of a request: frame by
/// frame in order, within a frame symbol by symbol in order; `data` gives
/// the values of a symbol in a frame.
pub open spec fn gapless_points(
    req: FeatureTransformRequest,
    n: nat,
    data: spec_fn(int, int) -> KlinePoint,
) -> Seq<StorePoint> {
    Seq::new(
        4 * n,
        |i: int|
            StorePoint {
                ts_ms_utc: ts_at(req, i / 4),
                symbol_id: (i % 4 + 1) as i64,
                point: data(i / 4, i % 4),
            },
    )
}

/// The values of a symbol in the `depth` frames before frame `upto`.
pub open spec fn window_before(
    data: spec_fn(int, int) -> KlinePoint,
    upto: int,
    depth: int,
    symbol: int,
) -> Seq<KlinePoint> {
    Seq::new(depth as nat, |t: int| data(upto - depth + t, symbol))
}

pub open spec fn depth_before(upto: int, max_window: u64) -> int {
    if upto <= max_window + 1 {
        upto
    } else {
        max_window + 1
    }
}

/// The histories once the frames before frame `upto` were accepted: of
/// every symbol, the values in the latest frames, as many as the largest
/// window and one more, or all if there are fewer.
pub open spec fn histories_before(
    data: spec_fn(int, int) -> KlinePoint,
    upto: int,
    max_window: u64,
) -> Seq<Seq<KlinePoint>> {
    Seq::new(4, |s: int| window_before(data, upto, depth_before(upto, max_window), s))
}

pub open spec fn emitted_before(upto: int, max_window: u64) -> int {
    if upto <= max_window {
        0
    } else {
        upto - max_window
    }
}

/// The frames emitted once the frames before frame `upto` were accepted:
/// one for every frame from the one numbered `max_window` on, each with the
/// histories that end with it.
pub open spec fn rows_before(
    req: FeatureTransformRequest,
    data: spec_fn(int, int) -> KlinePoint,
    upto: int,
    max_window: u64,
) -> Seq<WarmFrameView> {
    Seq::new(
        emitted_before(upto, max_window) as nat,
        |j: int|
            WarmFrameView {
                ts_ms_utc: ts_at(req, j + max_window),
                windows: histories_before(data, j + max_window + 1, max_window),
            },
    )
}

/// The report once the frames before frame `upto` were accepted: nothing
/// skipped, no gap, no complaint.
pub open spec fn report_before(req: FeatureTransformRequest, upto: int, max_window: u64) -> ReportView {
    ReportView {
        input_points: frame_count(req) as u64,
        output_points: emitted_before(upto, max_window) as u64,
        skipped_points: 0,
        gap_ranges: Seq::empty(),
        first_error: None,
    }
}

pub open spec fn carried_before(
    req: FeatureTransformRequest,
    data: spec_fn(int, int) -> KlinePoint,
    upto: int,
    max_window: u64,
) -> EngineCore {
    EngineCore {
        last_seen_ts: if upto == 0 {
            None
        } else {
            Some(ts_at(req, upto - 1))
        },
        histories: histories_before(data, upto, max_window),
        report: report_before(req, upto, max_window),
    }
}

/// Frame `k` with its first `j` symbols in place.
pub open spec fn partial_frame(
    req: FeatureTransformRequest,
    data: spec_fn(int, int) -> KlinePoint,
    k: int,
    j: int,
) -> FrameView {
    FrameView {
        ts_ms_utc: ts_at(req, k),
        points: Seq::new(
            4,
            |s: int|
                if s < j {
                    Some(data(k, s))
                } else {
                    None
                },
        ),
    }
}

/// What the windows must satisfy: each between one and the largest.
pub open spec fn windows_fit(windows: Seq<u64>, max_window: u64) -> bool {
    &&& 1 <= max_window <= u32::MAX
    &&& forall|k: int| 0 <= k < windows.len() ==> 1 <= #[trigger] windows[k] <= max_window
}

proof fn lemma_request_frames(req: FeatureTransformRequest, k: int)
    requires
        request_valid(req),
        0 <= k <= frame_count(req),
    ensures
        ts_at(req, k) == req.start_ts_ms_utc + k * 1000,
        ts_at(req, k) % 1000 == 0,
        req.start_ts_ms_utc <= ts_at(req, k) <= req.end_ts_ms_utc_exclusive,
        k < frame_count(req) ==> ts_at(req, k) < req.end_ts_ms_utc_exclusive,
        ts_at(req, frame_count(req) as int) == req.end_ts_ms_utc_exclusive,
        frame_count(req) >= 1,
        frame_count(req) <= 18_446_744_073_709_551,
{
}

proof fn lemma_push_window(
    data: spec_fn(int, int) -> KlinePoint,
    k: int,
    max_window: u64,
    s: int,
)
    requires
        0 <= k,
        1 <= max_window,
    ensures
        keep_last(
            window_before(data, k, depth_before(k, max_window), s).push(data(k, s)),
            (max_window + 1) as nat,
        ) == window_before(data, k + 1, depth_before(k + 1, max_window), s),
{
    let before = window_before(data, k, depth_before(k, max_window), s);
    let pushed = before.push(data(k, s));
    let after = window_before(data, k + 1, depth_before(k + 1, max_window), s);
    assert(keep_last(pushed, (max_window + 1) as nat) =~= after);
}

/// A complete frame that continues a stream without faults joins the
/// histories, and is emitted from the frame numbered `max_window` on.
proof fn lemma_frame_accepted(
    policy: GapPolicy,
    req: FeatureTransformRequest,
    data: spec_fn(int, int) -> KlinePoint,
    windows: Seq<u64>,
    max_window: u64,
    k: int,
)
    requires
        request_valid(req),
        windows_fit(windows, max_window),
        0 <= k < frame_count(req),
    ensures
        frame_outcome(
            policy,
            req,
            windows,
            max_window,
            partial_frame(req, data, k, 4),
            carried_before(req, data, k, max_window),
        ) == Ok::<(EngineCore, Option<WarmFrameView>), FeatureErrorView>(
            (
                carried_before(req, data, k + 1, max_window),
                if k >= max_window {
                    Some(
                        WarmFrameView {
                            ts_ms_utc: ts_at(req, k),
                            windows: histories_before(data, k + 1, max_window),
                        },
                    )
                } else {
                    None
                },
            ),
        ),
{
    let frame = partial_frame(req, data, k, 4);
    let carried = carried_before(req, data, k, max_window);
    lemma_request_frames(req, k);
    if k > 0 {
        lemma_request_frames(req, k - 1);
    }
    assert(continuity_outcome(policy, req, frame.ts_ms_utc, carried) == Ok::<
        EngineCore,
        FeatureErrorView,
    >(carried));
    let seen = EngineCore { last_seen_ts: Some(frame.ts_ms_utc), ..carried };
    assert(frame_complete(frame.points));
    let pushed = push_frame(seen.histories, frame.points, max_window);
    let after = histories_before(data, k + 1, max_window);
    assert(pushed =~= after) by {
        assert forall|s: int| 0 <= s < 4 implies pushed[s] == after[s] by {
            lemma_push_window(data, k, max_window, s);
            assert(frame.points[s] == Some(data(k, s)));
        }
    }
    assert(histories_warm(after, windows, max_window) <==> k >= max_window) by {
        if k >= max_window {
            assert forall|s: int| 0 <= s < 4 implies history_warm(
                #[trigger] after[s],
                windows,
                max_window,
            ) by {
                assert(after[s].len() == max_window + 1);
            }
        } else {
            assert(after[0].len() == k + 1);
            assert(!history_warm(after[0], windows, max_window));
        }
    }
    lemma_request_frames(req, k + 1);
    assert(report_before(req, k + 1, max_window) == if k >= max_window {
        report_with_output(report_before(req, k, max_window))
    } else {
        report_before(req, k, max_window)
    });
    assert(accepted_outcome(windows, max_window, frame, seen) == (
        carried_before(req, data, k + 1, max_window),
        if k >= max_window {
            Some(WarmFrameView { ts_ms_utc: ts_at(req, k), windows: after })
        } else {
            None
        },
    ));
    assert(settled_outcome(policy, windows, max_window, frame, seen) == Ok::<
        (EngineCore, Option<WarmFrameView>),
        FeatureErrorView,
    >(accepted_outcome(windows, max_window, frame, seen)));
}

/// A point of a stream without faults takes the next slot of its frame.
proof fn lemma_point_joins(
    req: FeatureTransformRequest,
    data: spec_fn(int, int) -> KlinePoint,
    k: int,
    j: int,
)
    requires
        0 <= j < 4,
    ensures
        frame_with_point(
            partial_frame(req, data, k, j),
            (j + 1) as i64,
            ts_at(req, k),
            data(k, j),
        ) == Ok::<FrameView, FeatureErrorView>(partial_frame(req, data, k, j + 1)),
        partial_frame(req, data, k, 0) == empty_frame(ts_at(req, k)),
{
    let before = partial_frame(req, data, k, j);
    let after = partial_frame(req, data, k, j + 1);
    assert(before.points.update(j, Some(data(k, j))) =~= after.points);
    assert(partial_frame(req, data, k, 0).points =~= empty_frame(ts_at(req, k)).points);
}

} // verus!

verus! {

/// The engine after the first `i` points of a stream without faults.
pub open spec fn model_after(
    req: FeatureTransformRequest,
    data: spec_fn(int, int) -> KlinePoint,
    i: int,
    max_window: u64,
) -> EngineModel {
    if i == 0 {
        initial_model(req)
    } else {
        EngineModel {
            current_frame: Some(partial_frame(req, data, (i - 1) / 4, (i - 1) % 4 + 1)),
            carried: carried_before(req, data, (i - 1) / 4, max_window),
        }
    }
}

pub open spec fn rows_after(
    req: FeatureTransformRequest,
    data: spec_fn(int, int) -> KlinePoint,
    i: int,
    max_window: u64,
) -> Seq<WarmFrameView> {
    if i == 0 {
        Seq::empty()
    } else {
        rows_before(req, data, (i - 1) / 4, max_window)
    }
}

proof fn lemma_initial_model(
    req: FeatureTransformRequest,
    data: spec_fn(int, int) -> KlinePoint,
    max_window: u64,
)
    requires
        request_valid(req),
    ensures
        initial_model(req).carried == carried_before(req, data, 0, max_window),
        rows_before(req, data, 0, max_window) == Seq::<WarmFrameView>::empty(),
{
    lemma_request_frames(req, 0);
    assert(histories_before(data, 0, max_window) =~~= empty_histories());
    assert(rows_before(req, data, 0, max_window) =~= Seq::<WarmFrameView>::empty());
}

proof fn lemma_rows_grow(
    req: FeatureTransformRequest,
    data: spec_fn(int, int) -> KlinePoint,
    k: int,
    max_window: u64,
)
    requires
        0 <= k,
    ensures
        rows_before(req, data, k + 1, max_window) == if k >= max_window {
            rows_before(req, data, k, max_window).push(
                WarmFrameView {
                    ts_ms_utc: ts_at(req, k),
                    windows: histories_before(data, k + 1, max_window),
                },
            )
        } else {
            rows_before(req, data, k, max_window)
        },
{
    if k >= max_window {
        assert(rows_before(req, data, k + 1, max_window) =~= rows_before(
            req,
            data,
            k,
            max_window,
        ).push(
            WarmFrameView {
                ts_ms_utc: ts_at(req, k),
                windows: histories_before(data, k + 1, max_window),
            },
        ));
    } else {
        assert(rows_before(req, data, k + 1, max_window) =~= rows_before(
            req,
            data,
            k,
            max_window,
        ));
    }
}

/// One more point of a stream without faults.
proof fn lemma_next_point(
    policy: GapPolicy,
    req: FeatureTransformRequest,
    data: spec_fn(int, int) -> KlinePoint,
    windows: Seq<u64>,
    max_window: u64,
    n: nat,
    i: int,
)
    requires
        request_valid(req),
        windows_fit(windows, max_window),
        n <= frame_count(req),
        0 <= i < 4 * n,
    ensures
        ({
            let step = point_outcome(
                policy,
                req,
                windows,
                max_window,
                gapless_points(req, n, data)[i],
                model_after(req, data, i, max_window),
            );
            &&& step is Ok
            &&& step->Ok_0.0 == model_after(req, data, i + 1, max_window)
            &&& rows_after(req, data, i + 1, max_window) == match step->Ok_0.1 {
                Some(w) => rows_after(req, data, i, max_window).push(w),
                None => rows_after(req, data, i, max_window),
            }
        }),
{
    let k = i / 4;
    let s = i % 4;
    let p = gapless_points(req, n, data)[i];
    let m = model_after(req, data, i, max_window);
    lemma_request_frames(req, k);
    lemma_point_joins(req, data, k, s);
    assert(p.ts_ms_utc == ts_at(req, k) && p.symbol_id == s + 1 && p.point == data(k, s));
    if i == 0 {
        lemma_initial_model(req, data, max_window);
    } else if s == 0 {
        lemma_request_frames(req, k - 1);
        assert((i - 1) / 4 == k - 1 && (i - 1) % 4 + 1 == 4);
        lemma_frame_accepted(policy, req, data, windows, max_window, k - 1);
        lemma_rows_grow(req, data, k - 1, max_window);
        assert(m.current_frame == Some(partial_frame(req, data, k - 1, 4)));
        assert(ts_at(req, k - 1) != ts_at(req, k));
    } else {
        assert((i - 1) / 4 == k && (i - 1) % 4 + 1 == s);
    }
}

/// After any number of points of a stream without faults, the engine holds
/// what came so far and has emitted one frame per frame that was warm.
proof fn lemma_prefix(
    policy: GapPolicy,
    req: FeatureTransformRequest,
    data: spec_fn(int, int) -> KlinePoint,
    windows: Seq<u64>,
    max_window: u64,
    n: nat,
    i: nat,
)
    requires
        request_valid(req),
        windows_fit(windows, max_window),
        n <= frame_count(req),
        i <= 4 * n,
    ensures
        run_prefix(policy, req, windows, max_window, gapless_points(req, n, data), i) == Ok::<
            (EngineModel, Seq<WarmFrameView>),
            FeatureErrorView,
        >((model_after(req, data, i as int, max_window), rows_after(req, data, i as int, max_window))),
    decreases i,
{
    if i > 0 {
        lemma_prefix(policy, req, data, windows, max_window, n, (i - 1) as nat);
        lemma_next_point(policy, req, data, windows, max_window, n, i - 1);
    }
}

/// The end of the stream without faults: the last frame is accepted, the
/// tail of the request holds no gap, and the rows and the report are those
/// of the whole request.
proof fn lemma_gapless_finish(
    policy: GapPolicy,
    req: FeatureTransformRequest,
    data: spec_fn(int, int) -> KlinePoint,
    windows: Seq<u64>,
    max_window: u64,
)
    requires
        request_valid(req),
        windows_fit(windows, max_window),
    ensures
        ({
            let n = frame_count(req) as int;
            let done = finish_outcome(
                policy,
                req,
                windows,
                max_window,
                model_after(req, data, 4 * n, max_window),
            );
            &&& done is Ok
            &&& done->Ok_0.0 == report_before(req, n, max_window)
            &&& (match done->Ok_0.1 {
                Some(w) => rows_after(req, data, 4 * n, max_window).push(w),
                None => rows_after(req, data, 4 * n, max_window),
            }) == rows_before(req, data, n, max_window)
        }),
{
    let n = frame_count(req) as int;
    lemma_request_frames(req, n);
    lemma_request_frames(req, n - 1);
    assert((4 * n - 1) / 4 == n - 1 && (4 * n - 1) % 4 + 1 == 4);
    let m = model_after(req, data, 4 * n, max_window);
    let last = partial_frame(req, data, n - 1, 4);
    let carried = carried_before(req, data, n - 1, max_window);
    assert(m.current_frame == Some(last));
    assert(m.carried == carried);
    assert(rows_after(req, data, 4 * n, max_window) == rows_before(req, data, n - 1, max_window));
    lemma_frame_accepted(policy, req, data, windows, max_window, n - 1);
    lemma_rows_grow(req, data, n - 1, max_window);
    let done = carried_before(req, data, n, max_window);
    assert(done.last_seen_ts == Some(ts_at(req, n - 1)));
    assert(ts_at(req, n - 1) == req.end_ts_ms_utc_exclusive - 1000);
    assert(tail_outcome(policy, req, done) == Ok::<EngineCore, FeatureErrorView>(done));
    assert(done.report == report_before(req, n, max_window));
}

/// A transform over the stream without faults of a request succeeds under
/// either policy. It emits one frame for every frame of the request from
/// the one numbered like the largest window on, in order, each with the
/// values of every symbol in that frame and in as many frames before it as
/// the largest window; and it reports every point as seen, nothing as
/// skipped, no gap and no complaint.
pub proof fn lemma_gapless_stream(
    req: FeatureTransformRequest,
    cfg: &FeatureTransformConfig,
    data: spec_fn(int, int) -> KlinePoint,
)
    requires
        request_valid(req),
        config_valid(cfg),
    ensures
        transform_outcome(req, cfg, gapless_points(req, frame_count(req), data)) == Ok::<
            (Seq<WarmFrameView>, ReportView),
            FeatureErrorView,
        >(
            (
                rows_before(
                    req,
                    data,
                    frame_count(req) as int,
                    max_window_of(cfg.windows_seconds@),
                ),
                report_before(req, frame_count(req) as int, max_window_of(cfg.windows_seconds@)),
            ),
        ),
{
    let n = frame_count(req);
    let windows = widened(cfg.windows_seconds@);
    let max_window = max_window_of(cfg.windows_seconds@);
    let points = gapless_points(req, n, data);
    lemma_windows_error_none(cfg.windows_seconds@, cfg.windows_seconds@.len());
    lemma_max_window_bounds(cfg.windows_seconds@, cfg.windows_seconds@.len());
    assert(windows_fit(windows, max_window)) by {
        assert forall|k: int| 0 <= k < windows.len() implies 1 <= #[trigger] windows[k]
            <= max_window by {
            assert(cfg.windows_seconds@[k] > 0);
        }
    }
    assert(request_error(req) is None);
    assert(config_error(cfg) is None);
    assert(points.len() == 4 * n);
    lemma_prefix(cfg.gap_policy, req, data, windows, max_window, n, 4 * n);
    lemma_gapless_finish(cfg.gap_policy, req, data, windows, max_window);
}

} // verus!
