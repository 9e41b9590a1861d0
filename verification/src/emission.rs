//! Which timestamps of a store give a row: a row stands at a timestamp
//! exactly when the store is complete there and at each of the steps before
//! it that the largest window reaches back over, all inside the request.

use vstd::prelude::*;
use crate::features::{
    lemma_windows_error_none, symbol_index_spec, FeatureTransformConfig,
    FeatureTransformRequest, GapPolicy,
};
use crate::transform::{
    accepted_outcome, continuity_outcome, empty_frame, empty_histories, finish_outcome,
    frame_complete, frame_outcome, frame_with_point, histories_level, initial_model,
    lemma_max_window_bounds, lemma_warm_after_max_window_frames, max_window_of, point_outcome,
    push_frame, run_prefix, settled_outcome, transform_outcome, widened,
    EngineCore, EngineModel, FrameView, StorePoint, WarmFrameView,
};

verus! {

/// Whether one of the first `n` points is that of a symbol slot at a
/// timestamp.
pub open spec fn point_at(points: Seq<StorePoint>, n: int, ts: int, slot: int) -> bool {
    exists|j: int|
        0 <= j < n && j < points.len() && (#[trigger] points[j]).ts_ms_utc == ts
            && symbol_index_spec(points[j].symbol_id) == Some(slot as usize)
}

/// Whether the points hold every symbol at a timestamp.
pub open spec fn complete_at(points: Seq<StorePoint>, ts: int) -> bool {
    forall|slot: int| 0 <= slot < 4 ==> #[trigger] point_at(points, points.len() as int, ts, slot)
}

/// Whether the points are complete at each of the `count` steps that end at
/// a timestamp, and all those steps lie at or after the start of the request.
pub open spec fn complete_run(
    req: FeatureTransformRequest,
    points: Seq<StorePoint>,
    ts: int,
    count: nat,
) -> bool
    decreases count,
{
    count == 0 || (req.start_ts_ms_utc <= ts && complete_at(points, ts) && complete_run(
        req,
        points,
        ts - 1000,
        (count - 1) as nat,
    ))
}

/// Whether a row is due at a timestamp: the timestamp lies in the request,
/// and the points are complete there and at each of the `max_window` steps
/// before it, none of them before the start of the request.
pub open spec fn row_due(
    req: FeatureTransformRequest,
    points: Seq<StorePoint>,
    max_window: u64,
    ts: int,
) -> bool {
    ts < req.end_ts_ms_utc_exclusive && complete_run(req, points, ts, (max_window + 1) as nat)
}

/// Whether one of the rows stands at a timestamp.
pub open spec fn has_row(rows: Seq<WarmFrameView>, ts: int) -> bool {
    exists|i: int| 0 <= i < rows.len() && (#[trigger] rows[i]).ts_ms_utc == ts
}

/// Whether the points come in ascending order of time.
pub open spec fn ascending(points: Seq<StorePoint>) -> bool {
    forall|i: int, j: int|
        0 <= i <= j < points.len() ==> (#[trigger] points[i]).ts_ms_utc <= (
        #[trigger] points[j]).ts_ms_utc
}

/// Whether each row stands later than the row before it.
pub open spec fn rows_ascending(rows: Seq<WarmFrameView>) -> bool {
    forall|i: int, j: int|
        0 <= i < j < rows.len() ==> (#[trigger] rows[i]).ts_ms_utc < (
        #[trigger] rows[j]).ts_ms_utc
}

/// The rows with what a step emitted, if it emitted anything.
pub open spec fn rows_with(rows: Seq<WarmFrameView>, emitted: Option<WarmFrameView>) -> Seq<
    WarmFrameView,
> {
    match emitted {
        Some(w) => rows.push(w),
        None => rows,
    }
}

/// Whether the engine's state and rows account for every point before a
/// horizon: the depth of the histories is the length of the complete run
/// that ends at the last accepted frame, as far as the histories reach; no
/// point of the request lies between that frame and the horizon; and the
/// rows are the due timestamps before the horizon.
pub open spec fn settled(
    req: FeatureTransformRequest,
    points: Seq<StorePoint>,
    max_window: u64,
    c: EngineCore,
    rows: Seq<WarmFrameView>,
    horizon: int,
) -> bool {
    let depth = c.histories[0].len();
    &&& histories_level(c.histories, depth, max_window)
    &&& match c.last_seen_ts {
        Some(l) => {
            &&& req.start_ts_ms_utc <= l < req.end_ts_ms_utc_exclusive
            &&& l < horizon
            &&& l % 1000 == 0
            &&& complete_run(req, points, l as int, depth)
            &&& depth <= max_window ==> !complete_run(req, points, l as int, depth + 1)
            &&& forall|j: int|
                0 <= j < points.len() && l < (#[trigger] points[j]).ts_ms_utc < horizon
                    ==> points[j].ts_ms_utc >= req.end_ts_ms_utc_exclusive
        },
        None => {
            &&& depth == 0
            &&& forall|j: int|
                0 <= j < points.len() && (#[trigger] points[j]).ts_ms_utc < horizon
                    ==> points[j].ts_ms_utc < req.start_ts_ms_utc || points[j].ts_ms_utc
                    >= req.end_ts_ms_utc_exclusive
        },
    }
    &&& forall|t: int| #[trigger] has_row(rows, t) <==> t < horizon && row_due(req, points, max_window, t)
    &&& rows_ascending(rows)
}

/// A complete run holds of every shorter count.
proof fn lemma_run_shorter(
    req: FeatureTransformRequest,
    points: Seq<StorePoint>,
    ts: int,
    count: nat,
    shorter: nat,
)
    requires
        shorter <= count,
        complete_run(req, points, ts, count),
    ensures
        complete_run(req, points, ts, shorter),
    decreases count,
{
    if shorter > 0 {
        lemma_run_shorter(req, points, ts - 1000, (count - 1) as nat, (shorter - 1) as nat);
    }
}

/// Where the points are complete, a point stands.
proof fn lemma_complete_has_point(points: Seq<StorePoint>, ts: int)
    requires
        complete_at(points, ts),
    ensures
        exists|j: int| 0 <= j < points.len() && (#[trigger] points[j]).ts_ms_utc == ts,
{
    assert(point_at(points, points.len() as int, ts, 0));
}

/// Where a row is due, a point of the request stands.
proof fn lemma_due_has_point(
    req: FeatureTransformRequest,
    points: Seq<StorePoint>,
    max_window: u64,
    ts: int,
)
    requires
        row_due(req, points, max_window, ts),
    ensures
        req.start_ts_ms_utc <= ts < req.end_ts_ms_utc_exclusive,
        complete_at(points, ts),
        exists|j: int| 0 <= j < points.len() && (#[trigger] points[j]).ts_ms_utc == ts,
{
    lemma_complete_has_point(points, ts);
}

/// The rows after one more row: the timestamps before, and the new one.
proof fn lemma_has_row_push(rows: Seq<WarmFrameView>, w: WarmFrameView, t: int)
    ensures
        has_row(rows.push(w), t) <==> has_row(rows, t) || w.ts_ms_utc == t,
{
    let more = rows.push(w);
    if has_row(rows, t) {
        let i = choose|i: int| 0 <= i < rows.len() && (#[trigger] rows[i]).ts_ms_utc == t;
        assert(more[i].ts_ms_utc == t);
    }
    if w.ts_ms_utc == t {
        assert(more[rows.len() as int].ts_ms_utc == t);
    }
    if has_row(more, t) {
        let i = choose|i: int| 0 <= i < more.len() && (#[trigger] more[i]).ts_ms_utc == t;
        if i < rows.len() {
            assert(rows[i].ts_ms_utc == t);
        }
    }
}

/// What the step of one closed frame starts from: the state and rows are
/// settled up to the frame, the frame holds what the points hold at its
/// timestamp, and no point stands between the frame and the next horizon.
spec fn step_ready(
    req: FeatureTransformRequest,
    windows: Seq<u64>,
    max_window: u64,
    points: Seq<StorePoint>,
    frame: FrameView,
    c: EngineCore,
    rows: Seq<WarmFrameView>,
    next: int,
) -> bool {
    &&& req.start_ts_ms_utc < req.end_ts_ms_utc_exclusive
    &&& max_window >= 1
    &&& forall|k: int| 0 <= k < windows.len() ==> 1 <= #[trigger] windows[k] <= max_window
    &&& frame.ts_ms_utc % 1000 == 0
    &&& frame.ts_ms_utc < next
    &&& settled(req, points, max_window, c, rows, frame.ts_ms_utc as int)
    &&& forall|j: int|
        0 <= j < points.len() && (#[trigger] points[j]).ts_ms_utc < next ==> points[j].ts_ms_utc
            <= frame.ts_ms_utc
    &&& frame_complete(frame.points) <==> complete_at(points, frame.ts_ms_utc as int)
}

/// Between a frame and the next horizon no row is due but at the frame.
proof fn lemma_nothing_due_after_frame(
    req: FeatureTransformRequest,
    windows: Seq<u64>,
    max_window: u64,
    points: Seq<StorePoint>,
    frame: FrameView,
    c: EngineCore,
    rows: Seq<WarmFrameView>,
    next: int,
    t: int,
)
    requires
        step_ready(req, windows, max_window, points, frame, c, rows, next),
        frame.ts_ms_utc < t < next,
    ensures
        !row_due(req, points, max_window, t),
        !has_row(rows, t),
{
    if row_due(req, points, max_window, t) {
        lemma_due_has_point(req, points, max_window, t);
        let j = choose|j: int| 0 <= j < points.len() && (#[trigger] points[j]).ts_ms_utc == t;
        assert(points[j].ts_ms_utc <= frame.ts_ms_utc);
    }
}

/// A frame outside the request changes nothing, and nothing is due at it.
proof fn lemma_step_outside(
    req: FeatureTransformRequest,
    windows: Seq<u64>,
    max_window: u64,
    points: Seq<StorePoint>,
    frame: FrameView,
    c: EngineCore,
    rows: Seq<WarmFrameView>,
    next: int,
)
    requires
        step_ready(req, windows, max_window, points, frame, c, rows, next),
        frame.ts_ms_utc < req.start_ts_ms_utc || frame.ts_ms_utc >= req.end_ts_ms_utc_exclusive,
    ensures
        settled(req, points, max_window, c, rows, next),
{
    let ts = frame.ts_ms_utc as int;
    assert forall|t: int| #[trigger] has_row(rows, t) <==> t < next && row_due(
        req,
        points,
        max_window,
        t,
    ) by {
        if ts < t < next {
            lemma_nothing_due_after_frame(req, windows, max_window, points, frame, c, rows, next, t);
        }
        if t == ts && row_due(req, points, max_window, t) {
            lemma_due_has_point(req, points, max_window, t);
        }
    }
}

/// The depth of the histories once a frame inside the request is placed in
/// the stream: that of before where the frame follows the last one, and none
/// after a gap.
spec fn placed_depth(req: FeatureTransformRequest, c: EngineCore, ts: int) -> nat {
    match c.last_seen_ts {
        Some(l) => if ts == l + 1000 {
            c.histories[0].len()
        } else {
            0
        },
        None => 0,
    }
}

/// Once a frame inside the request is placed in the stream, the histories
/// hold the complete run that ends one step before the frame, as far as
/// they reach.
proof fn lemma_step_placed(
    policy: GapPolicy,
    req: FeatureTransformRequest,
    windows: Seq<u64>,
    max_window: u64,
    points: Seq<StorePoint>,
    frame: FrameView,
    c: EngineCore,
    rows: Seq<WarmFrameView>,
    next: int,
)
    requires
        step_ready(req, windows, max_window, points, frame, c, rows, next),
        req.start_ts_ms_utc <= frame.ts_ms_utc < req.end_ts_ms_utc_exclusive,
        continuity_outcome(policy, req, frame.ts_ms_utc, c) is Ok,
    ensures
        ({
            let placed = continuity_outcome(policy, req, frame.ts_ms_utc, c)->Ok_0;
            let depth = placed_depth(req, c, frame.ts_ms_utc as int);
            &&& placed.last_seen_ts == c.last_seen_ts
            &&& histories_level(placed.histories, depth, max_window)
            &&& complete_run(req, points, frame.ts_ms_utc - 1000, depth)
            &&& depth <= max_window ==> !complete_run(
                req,
                points,
                frame.ts_ms_utc - 1000,
                depth + 1,
            )
        }),
{
    let ts = frame.ts_ms_utc as int;
    let placed = continuity_outcome(policy, req, frame.ts_ms_utc, c)->Ok_0;
    let depth = placed_depth(req, c, ts);
    let before = ts - 1000;
    match c.last_seen_ts {
        Some(l) => {
            if ts != l + 1000 {
                assert(l < before) by {
                    assert(l % 1000 == 0 && ts % 1000 == 0 && l < ts);
                }
                assert(placed.histories == empty_histories());
                assert(placed.histories[0].len() == 0);
                assert(histories_level(placed.histories, 0, max_window));
                if req.start_ts_ms_utc <= before && complete_at(points, before) {
                    lemma_complete_has_point(points, before);
                    let j = choose|j: int|
                        0 <= j < points.len() && (#[trigger] points[j]).ts_ms_utc == before;
                    assert(l < points[j].ts_ms_utc < ts);
                }
                assert(!complete_run(req, points, before, 1)) by {
                    assert(complete_run(req, points, before - 1000, 0));
                }
            } else {
                assert(placed == c);
            }
        },
        None => {
            if ts > req.start_ts_ms_utc {
                assert(placed.histories == empty_histories());
                assert(placed.histories[0].len() == 0);
                assert(histories_level(placed.histories, 0, max_window));
            } else {
                assert(placed == c);
            }
            if req.start_ts_ms_utc <= before && complete_at(points, before) {
                lemma_complete_has_point(points, before);
                let j = choose|j: int|
                    0 <= j < points.len() && (#[trigger] points[j]).ts_ms_utc == before;
                assert(points[j].ts_ms_utc < ts);
            }
            assert(!complete_run(req, points, before, 1)) by {
                assert(complete_run(req, points, before - 1000, 0));
            }
        },
    }
}

/// The step of one closed frame: where the state and rows are settled up
/// to the frame, they are settled up to the next horizon once the frame is
/// closed, and a row stands at the frame exactly when one is due there.
proof fn lemma_step_inside(
    policy: GapPolicy,
    req: FeatureTransformRequest,
    windows: Seq<u64>,
    max_window: u64,
    points: Seq<StorePoint>,
    frame: FrameView,
    c: EngineCore,
    rows: Seq<WarmFrameView>,
    next: int,
)
    requires
        step_ready(req, windows, max_window, points, frame, c, rows, next),
        req.start_ts_ms_utc <= frame.ts_ms_utc < req.end_ts_ms_utc_exclusive,
        frame_outcome(policy, req, windows, max_window, frame, c) is Ok,
    ensures
        settled(
            req,
            points,
            max_window,
            frame_outcome(policy, req, windows, max_window, frame, c)->Ok_0.0,
            rows_with(rows, frame_outcome(policy, req, windows, max_window, frame, c)->Ok_0.1),
            next,
        ),
        rows_with(rows, frame_outcome(policy, req, windows, max_window, frame, c)->Ok_0.1).len()
            <= rows.len() + 1,
{
    let ts = frame.ts_ms_utc as int;
    let before = ts - 1000;
    let placed = continuity_outcome(policy, req, frame.ts_ms_utc, c)->Ok_0;
    let depth = placed_depth(req, c, ts);
    lemma_step_placed(policy, req, windows, max_window, points, frame, c, rows, next);
    let seen = EngineCore { last_seen_ts: Some(frame.ts_ms_utc), ..placed };
    let outcome = settled_outcome(policy, windows, max_window, frame, seen);
    assert(frame_outcome(policy, req, windows, max_window, frame, c) == outcome);
    let after = outcome->Ok_0.0;
    let emitted = outcome->Ok_0.1;
    let rows2 = rows_with(rows, emitted);
    assert(after.last_seen_ts == Some(frame.ts_ms_utc));
    assert(complete_run(req, points, before, 0));
    if !frame_complete(frame.points) {
        assert(emitted is None);
        assert(after.histories == empty_histories());
        assert(after.histories[0].len() == 0);
        assert(histories_level(after.histories, 0, max_window));
        assert(!complete_run(req, points, ts, 1));
        assert(!row_due(req, points, max_window, ts));
    } else {
        assert(outcome == Ok::<(EngineCore, Option<WarmFrameView>), crate::features::FeatureErrorView>(
            accepted_outcome(windows, max_window, frame, seen),
        ));
        let pushed = push_frame(placed.histories, frame.points, max_window);
        lemma_warm_after_max_window_frames(
            placed.histories,
            depth,
            frame.points,
            windows,
            max_window,
        );
        assert(after.histories == pushed);
        let depth2 = pushed[0].len();
        if depth >= max_window {
            lemma_run_shorter(req, points, before, depth, max_window as nat);
            assert(depth2 == max_window + 1);
            assert(complete_run(req, points, ts, (max_window + 1) as nat));
            assert(emitted is Some && emitted->Some_0.ts_ms_utc == ts);
            assert(row_due(req, points, max_window, ts));
        } else {
            assert(depth2 == depth + 1);
            assert(complete_run(req, points, ts, depth2));
            assert(!complete_run(req, points, ts, depth2 + 1));
            assert(emitted is None);
            if complete_run(req, points, before, max_window as nat) {
                lemma_run_shorter(req, points, before, max_window as nat, depth + 1);
            }
            assert(!row_due(req, points, max_window, ts));
        }
    }
    assert forall|t: int| #[trigger] has_row(rows2, t) <==> t < next && row_due(
        req,
        points,
        max_window,
        t,
    ) by {
        if ts < t < next {
            lemma_nothing_due_after_frame(req, windows, max_window, points, frame, c, rows, next, t);
        }
        if emitted is Some {
            lemma_has_row_push(rows, emitted->Some_0, t);
        }
        assert(has_row(rows, t) <==> t < ts && row_due(req, points, max_window, t));
    }
    assert(rows_ascending(rows2)) by {
        assert forall|i: int, j: int| 0 <= i < j < rows2.len() implies (#[trigger] rows2[i]).ts_ms_utc
            < (#[trigger] rows2[j]).ts_ms_utc by {
            if j < rows.len() {
                assert(rows[i].ts_ms_utc < rows[j].ts_ms_utc);
            } else {
                assert(has_row(rows, rows[i].ts_ms_utc as int));
            }
        }
    }
}

/// The step of one closed frame, inside the request or outside it.
proof fn lemma_frame_step(
    policy: GapPolicy,
    req: FeatureTransformRequest,
    windows: Seq<u64>,
    max_window: u64,
    points: Seq<StorePoint>,
    frame: FrameView,
    c: EngineCore,
    rows: Seq<WarmFrameView>,
    next: int,
)
    requires
        step_ready(req, windows, max_window, points, frame, c, rows, next),
        frame_outcome(policy, req, windows, max_window, frame, c) is Ok,
    ensures
        settled(
            req,
            points,
            max_window,
            frame_outcome(policy, req, windows, max_window, frame, c)->Ok_0.0,
            rows_with(rows, frame_outcome(policy, req, windows, max_window, frame, c)->Ok_0.1),
            next,
        ),
        rows_with(rows, frame_outcome(policy, req, windows, max_window, frame, c)->Ok_0.1).len()
            <= rows.len() + 1,
{
    if frame.ts_ms_utc < req.start_ts_ms_utc || frame.ts_ms_utc >= req.end_ts_ms_utc_exclusive {
        lemma_step_outside(req, windows, max_window, points, frame, c, rows, next);
    } else {
        lemma_step_inside(policy, req, windows, max_window, points, frame, c, rows, next);
    }
}

/// What holds after the first `n` points, `n` at least one: the frame in
/// flight stands at the last point's timestamp and holds the points seen
/// there, the state and rows are settled up to it, and fewer rows were
/// emitted than points were taken.
spec fn in_flight(
    req: FeatureTransformRequest,
    max_window: u64,
    points: Seq<StorePoint>,
    n: nat,
    m: EngineModel,
    rows: Seq<WarmFrameView>,
) -> bool {
    &&& m.current_frame is Some
    &&& m.current_frame->Some_0.ts_ms_utc == points[n - 1].ts_ms_utc
    &&& m.current_frame->Some_0.ts_ms_utc % 1000 == 0
    &&& m.current_frame->Some_0.points.len() == 4
    &&& forall|slot: int|
        0 <= slot < 4 ==> (m.current_frame->Some_0.points[slot] is Some <==> #[trigger] point_at(
            points,
            n as int,
            m.current_frame->Some_0.ts_ms_utc as int,
            slot,
        ))
    &&& settled(req, points, max_window, m.carried, rows, m.current_frame->Some_0.ts_ms_utc as int)
    &&& rows.len() < n
}

/// A fresh frame with one point holds that point's slot and no other.
proof fn lemma_fresh_frame(points: Seq<StorePoint>, n: nat, frame: FrameView)
    requires
        0 < n <= points.len(),
        ascending(points),
        n > 1 ==> points[n - 2].ts_ms_utc < points[n - 1].ts_ms_utc,
        frame_with_point(
            empty_frame(points[n - 1].ts_ms_utc),
            points[n - 1].symbol_id,
            points[n - 1].ts_ms_utc,
            points[n - 1].point,
        ) == Ok::<FrameView, crate::features::FeatureErrorView>(frame),
    ensures
        frame.ts_ms_utc == points[n - 1].ts_ms_utc,
        frame.points.len() == 4,
        forall|slot: int|
            0 <= slot < 4 ==> (frame.points[slot] is Some <==> #[trigger] point_at(
                points,
                n as int,
                frame.ts_ms_utc as int,
                slot,
            )),
{
    let p = points[n - 1];
    let index = symbol_index_spec(p.symbol_id)->Some_0 as int;
    assert forall|slot: int| 0 <= slot < 4 implies (frame.points[slot] is Some <==> #[trigger] point_at(
        points,
        n as int,
        frame.ts_ms_utc as int,
        slot,
    )) by {
        if slot == index {
            assert(points[n - 1].ts_ms_utc == frame.ts_ms_utc);
        }
        if point_at(points, n as int, frame.ts_ms_utc as int, slot) {
            let j = choose|j: int|
                0 <= j < n && j < points.len() && (#[trigger] points[j]).ts_ms_utc
                    == frame.ts_ms_utc && symbol_index_spec(points[j].symbol_id) == Some(
                    slot as usize,
                );
            if j < n - 1 {
                assert(points[j].ts_ms_utc <= points[n - 2].ts_ms_utc);
            }
        }
    }
}

/// A frame that takes one more point at its timestamp holds one more slot.
proof fn lemma_joined_frame(points: Seq<StorePoint>, n: nat, old_frame: FrameView, frame: FrameView)
    requires
        1 < n <= points.len(),
        old_frame.ts_ms_utc == points[n - 1].ts_ms_utc,
        old_frame.points.len() == 4,
        forall|slot: int|
            0 <= slot < 4 ==> (old_frame.points[slot] is Some <==> #[trigger] point_at(
                points,
                n - 1,
                old_frame.ts_ms_utc as int,
                slot,
            )),
        frame_with_point(
            old_frame,
            points[n - 1].symbol_id,
            points[n - 1].ts_ms_utc,
            points[n - 1].point,
        ) == Ok::<FrameView, crate::features::FeatureErrorView>(frame),
    ensures
        frame.ts_ms_utc == points[n - 1].ts_ms_utc,
        frame.points.len() == 4,
        forall|slot: int|
            0 <= slot < 4 ==> (frame.points[slot] is Some <==> #[trigger] point_at(
                points,
                n as int,
                frame.ts_ms_utc as int,
                slot,
            )),
{
    let p = points[n - 1];
    let ts = frame.ts_ms_utc as int;
    let index = symbol_index_spec(p.symbol_id)->Some_0 as int;
    assert forall|slot: int| 0 <= slot < 4 implies (frame.points[slot] is Some <==> #[trigger] point_at(
        points,
        n as int,
        ts,
        slot,
    )) by {
        if slot == index {
            assert(points[n - 1].ts_ms_utc == ts);
        }
        if point_at(points, n - 1, ts, slot) {
            let j = choose|j: int|
                0 <= j < n - 1 && j < points.len() && (#[trigger] points[j]).ts_ms_utc == ts
                    && symbol_index_spec(points[j].symbol_id) == Some(slot as usize);
            assert(points[j].ts_ms_utc == ts);
        }
        if point_at(points, n as int, ts, slot) && slot != index {
            let j = choose|j: int|
                0 <= j < n && j < points.len() && (#[trigger] points[j]).ts_ms_utc == ts
                    && symbol_index_spec(points[j].symbol_id) == Some(slot as usize);
            assert(j < n - 1);
            assert(point_at(points, n - 1, ts, slot));
        }
    }
}

/// A frame that holds the points seen at its timestamp, with every later
/// point at a later timestamp, is complete exactly when the points are
/// complete there.
proof fn lemma_closed_frame(points: Seq<StorePoint>, n: nat, frame: FrameView)
    requires
        n <= points.len(),
        frame.points.len() == 4,
        forall|slot: int|
            0 <= slot < 4 ==> (frame.points[slot] is Some <==> #[trigger] point_at(
                points,
                n as int,
                frame.ts_ms_utc as int,
                slot,
            )),
        forall|j: int| n <= j < points.len() ==> (#[trigger] points[j]).ts_ms_utc > frame.ts_ms_utc,
    ensures
        frame_complete(frame.points) <==> complete_at(points, frame.ts_ms_utc as int),
{
    let ts = frame.ts_ms_utc as int;
    assert forall|slot: int| 0 <= slot < 4 implies (point_at(points, n as int, ts, slot)
        <==> #[trigger] point_at(points, points.len() as int, ts, slot)) by {
        if point_at(points, n as int, ts, slot) {
            let j = choose|j: int|
                0 <= j < n && j < points.len() && (#[trigger] points[j]).ts_ms_utc == ts
                    && symbol_index_spec(points[j].symbol_id) == Some(slot as usize);
            assert(points[j].ts_ms_utc == ts);
        }
        if point_at(points, points.len() as int, ts, slot) {
            let j = choose|j: int|
                0 <= j < points.len() && (#[trigger] points[j]).ts_ms_utc == ts
                    && symbol_index_spec(points[j].symbol_id) == Some(slot as usize);
            assert(j < n);
        }
    }
    if frame_complete(frame.points) {
        assert forall|slot: int| 0 <= slot < 4 implies #[trigger] point_at(
            points,
            points.len() as int,
            ts,
            slot,
        ) by {
            assert(frame.points[slot] is Some);
            assert(point_at(points, n as int, ts, slot));
        }
    }
    if complete_at(points, ts) {
        assert forall|slot: int| 0 <= slot < 4 implies frame.points[slot] is Some by {
            assert(point_at(points, points.len() as int, ts, slot));
            assert(point_at(points, n as int, ts, slot));
        }
    }
}

/// A point that is taken leaves the frame in flight at its timestamp, and
/// does not come before the frame that was in flight.
proof fn lemma_point_in_order(
    policy: GapPolicy,
    req: FeatureTransformRequest,
    windows: Seq<u64>,
    max_window: u64,
    p: StorePoint,
    m: EngineModel,
)
    requires
        point_outcome(policy, req, windows, max_window, p, m) is Ok,
    ensures
        point_outcome(policy, req, windows, max_window, p, m)->Ok_0.0.current_frame is Some,
        point_outcome(
            policy,
            req,
            windows,
            max_window,
            p,
            m,
        )->Ok_0.0.current_frame->Some_0.ts_ms_utc == p.ts_ms_utc,
        m.current_frame is Some ==> m.current_frame->Some_0.ts_ms_utc <= p.ts_ms_utc,
{
    match m.current_frame {
        Some(frame) => {
            if frame.ts_ms_utc == p.ts_ms_utc {
                assert(frame_with_point(frame, p.symbol_id, p.ts_ms_utc, p.point) is Ok);
            } else {
                assert(frame.ts_ms_utc < p.ts_ms_utc);
                assert(frame_with_point(
                    empty_frame(p.ts_ms_utc),
                    p.symbol_id,
                    p.ts_ms_utc,
                    p.point,
                ) is Ok);
            }
        },
        None => {
            assert(frame_with_point(
                empty_frame(p.ts_ms_utc),
                p.symbol_id,
                p.ts_ms_utc,
                p.point,
            ) is Ok);
        },
    }
}

/// A run that meets no fatal condition took its points in ascending order
/// of time, and its frame in flight stands at the last point's timestamp.
pub proof fn lemma_success_is_ascending(
    policy: GapPolicy,
    req: FeatureTransformRequest,
    windows: Seq<u64>,
    max_window: u64,
    points: Seq<StorePoint>,
    n: nat,
)
    requires
        n <= points.len(),
        run_prefix(policy, req, windows, max_window, points, n) is Ok,
    ensures
        ascending(points.take(n as int)),
        n > 0 ==> run_prefix(
            policy,
            req,
            windows,
            max_window,
            points,
            n,
        )->Ok_0.0.current_frame is Some && run_prefix(
            policy,
            req,
            windows,
            max_window,
            points,
            n,
        )->Ok_0.0.current_frame->Some_0.ts_ms_utc == points[n - 1].ts_ms_utc,
    decreases n,
{
    if n > 0 {
        lemma_success_is_ascending(policy, req, windows, max_window, points, (n - 1) as nat);
        let prev = run_prefix(policy, req, windows, max_window, points, (n - 1) as nat);
        lemma_point_in_order(policy, req, windows, max_window, points[n - 1], prev->Ok_0.0);
        let shorter = points.take(n - 1);
        let longer = points.take(n as int);
        if n > 1 {
            assert(points[n - 2].ts_ms_utc <= points[n - 1].ts_ms_utc);
        }
        assert forall|i: int, j: int| 0 <= i <= j < longer.len() implies (#[trigger] longer[i]).ts_ms_utc
            <= (#[trigger] longer[j]).ts_ms_utc by {
            assert(longer[i] == points[i] && longer[j] == points[j]);
            if j < n - 1 {
                assert(shorter[i].ts_ms_utc <= shorter[j].ts_ms_utc);
            } else if i < n - 1 {
                assert(shorter[i].ts_ms_utc <= shorter[n - 2].ts_ms_utc);
                assert(shorter[n - 2] == points[n - 2]);
            }
        }
    }
}

/// After each point of a run that meets no fatal condition, the frame in
/// flight holds the points seen at its timestamp, and the state and rows
/// are settled up to it.
proof fn lemma_prefix_settled(
    policy: GapPolicy,
    req: FeatureTransformRequest,
    windows: Seq<u64>,
    max_window: u64,
    points: Seq<StorePoint>,
    n: nat,
)
    requires
        req.start_ts_ms_utc < req.end_ts_ms_utc_exclusive,
        max_window >= 1,
        forall|k: int| 0 <= k < windows.len() ==> 1 <= #[trigger] windows[k] <= max_window,
        ascending(points),
        1 <= n <= points.len(),
        run_prefix(policy, req, windows, max_window, points, n) is Ok,
    ensures
        in_flight(
            req,
            max_window,
            points,
            n,
            run_prefix(policy, req, windows, max_window, points, n)->Ok_0.0,
            run_prefix(policy, req, windows, max_window, points, n)->Ok_0.1,
        ),
    decreases n,
{
    let prev = run_prefix(policy, req, windows, max_window, points, (n - 1) as nat);
    let m0 = prev->Ok_0.0;
    let rows0 = prev->Ok_0.1;
    let p = points[n - 1];
    let step = point_outcome(policy, req, windows, max_window, p, m0);
    let m1 = step->Ok_0.0;
    let rows1 = rows_with(rows0, step->Ok_0.1);
    assert(run_prefix(policy, req, windows, max_window, points, n)->Ok_0 == (m1, rows1));
    let f1 = m1.current_frame->Some_0;
    if n == 1 {
        assert(m0 == initial_model(req));
        lemma_fresh_frame(points, n, f1);
        assert(m1.carried.histories == empty_histories());
        assert(m1.carried.histories[0].len() == 0);
        assert(histories_level(m1.carried.histories, 0, max_window));
        assert forall|t: int| #[trigger] has_row(rows1, t) <==> t < p.ts_ms_utc && row_due(
            req,
            points,
            max_window,
            t,
        ) by {
            if row_due(req, points, max_window, t) {
                lemma_due_has_point(req, points, max_window, t);
                let j = choose|j: int|
                    0 <= j < points.len() && (#[trigger] points[j]).ts_ms_utc == t;
                assert(points[0].ts_ms_utc <= points[j].ts_ms_utc);
            }
        }
        assert forall|j: int|
            0 <= j < points.len() implies (#[trigger] points[j]).ts_ms_utc >= p.ts_ms_utc by {
            assert(points[0].ts_ms_utc <= points[j].ts_ms_utc);
        }
    } else {
        lemma_prefix_settled(policy, req, windows, max_window, points, (n - 1) as nat);
        let f0 = m0.current_frame->Some_0;
        assert(points[n - 2].ts_ms_utc <= points[n - 1].ts_ms_utc);
        if f0.ts_ms_utc == p.ts_ms_utc {
            lemma_joined_frame(points, n, f0, f1);
        } else {
            let next = p.ts_ms_utc as int;
            assert forall|j: int| n - 1 <= j < points.len() implies (#[trigger] points[j]).ts_ms_utc
                > f0.ts_ms_utc by {
                assert(points[n - 1].ts_ms_utc <= points[j].ts_ms_utc);
            }
            lemma_closed_frame(points, (n - 1) as nat, f0);
            assert forall|j: int|
                0 <= j < points.len() && (#[trigger] points[j]).ts_ms_utc < next implies points[j].ts_ms_utc
                <= f0.ts_ms_utc by {
                if j >= n - 1 {
                    assert(points[n - 1].ts_ms_utc <= points[j].ts_ms_utc);
                } else {
                    assert(points[j].ts_ms_utc <= points[n - 2].ts_ms_utc);
                }
            }
            assert(step_ready(req, windows, max_window, points, f0, m0.carried, rows0, next));
            lemma_frame_step(policy, req, windows, max_window, points, f0, m0.carried, rows0, next);
            lemma_fresh_frame(points, n, f1);
        }
    }
}

/// The rows of a transform stand exactly where rows are due: at the
/// timestamps of the request at which the store is complete, and was
/// complete at each of the steps before that the largest window reaches back
/// over, none of them before the start of the request. So after a gap or
/// an incomplete frame the next row comes only when as many complete
/// frames in a row as the largest window, and one more, have been seen.
/// The rows come in ascending order of time, there are no more rows than
/// points, and a transform that succeeds took its points in ascending order.
pub proof fn lemma_rows_stand_where_due(
    req: FeatureTransformRequest,
    cfg: &FeatureTransformConfig,
    points: Seq<StorePoint>,
)
    requires
        transform_outcome(req, cfg, points) is Ok,
    ensures
        forall|t: int| #[trigger]
            has_row(transform_outcome(req, cfg, points)->Ok_0.0, t) <==> row_due(
                req,
                points,
                max_window_of(cfg.windows_seconds@),
                t,
            ),
        rows_ascending(transform_outcome(req, cfg, points)->Ok_0.0),
        transform_outcome(req, cfg, points)->Ok_0.0.len() <= points.len(),
        ascending(points),
{
    let policy = cfg.gap_policy;
    let windows = widened(cfg.windows_seconds@);
    let max_window = max_window_of(cfg.windows_seconds@);
    let n = points.len();
    lemma_windows_error_none(cfg.windows_seconds@, cfg.windows_seconds@.len());
    lemma_max_window_bounds(cfg.windows_seconds@, cfg.windows_seconds@.len());
    assert forall|k: int| 0 <= k < windows.len() implies 1 <= #[trigger] windows[k]
        <= max_window by {
        assert(cfg.windows_seconds@[k] > 0);
    }
    let run = run_prefix(policy, req, windows, max_window, points, n);
    let m = run->Ok_0.0;
    let rows = run->Ok_0.1;
    let done = finish_outcome(policy, req, windows, max_window, m);
    let last = rows_with(rows, done->Ok_0.1);
    assert(transform_outcome(req, cfg, points)->Ok_0.0 == last);
    lemma_success_is_ascending(policy, req, windows, max_window, points, n);
    assert(points.take(n as int) =~= points);
    if n == 0 {
        assert(m == initial_model(req));
        assert(last =~= Seq::<WarmFrameView>::empty());
        assert forall|t: int| #[trigger] has_row(last, t) <==> row_due(req, points, max_window, t) by {
            if row_due(req, points, max_window, t) {
                lemma_due_has_point(req, points, max_window, t);
            }
        }
    } else {
        lemma_prefix_settled(policy, req, windows, max_window, points, n);
        let f = m.current_frame->Some_0;
        let next = i64::MAX + 1;
        lemma_closed_frame(points, n, f);
        assert forall|j: int|
            0 <= j < points.len() && (#[trigger] points[j]).ts_ms_utc < next implies points[j].ts_ms_utc
            <= f.ts_ms_utc by {
            assert(points[j].ts_ms_utc <= points[n - 1].ts_ms_utc);
        }
        assert(step_ready(req, windows, max_window, points, f, m.carried, rows, next));
        lemma_frame_step(policy, req, windows, max_window, points, f, m.carried, rows, next);
        assert forall|t: int| #[trigger] has_row(last, t) <==> row_due(req, points, max_window, t) by {
            if row_due(req, points, max_window, t) {
                lemma_due_has_point(req, points, max_window, t);
            }
        }
    }
}

} // verus!
