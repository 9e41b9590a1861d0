//! The streaming feature-transform engine: groups store points into
//! per-timestamp frames, enforces continuity and completeness under the
//! configured gap policy, and keeps bounded per-symbol history.

use vstd::prelude::*;
use vstd::string::*;
use std::collections::VecDeque;
use crate::features::{
    expected_points, expected_points_spec, symbol_index, symbol_index_spec, FeatureError,
    FeatureErrorView, FeatureSchema, FeatureTransformConfig, FeatureTransformReport,
    FeatureTransformRequest, GapPolicy, ReportView, MAX_REPORTED_GAP_RANGES, STEP_MS,
    SYMBOL_COUNT,
};
use crate::schema::{build_feature_schema, schema_spec, SchemaView};
use crate::text::{decimal_text, push_i64};

verus! {

/// One symbol's values at one timestamp. Each field carries the IEEE-754
/// bit pattern of the stored real number; the engine never interprets them.
#[derive(Debug, Clone, Copy, PartialEq, Eq, Structural)]
pub struct KlinePoint {
    pub high: u64,
    pub low: u64,
    pub close: u64,
    pub quote_asset_volume: u64,
}

/// One row of the store cursor.
#[derive(Debug, Clone, Copy, PartialEq, Eq, Structural)]
pub struct StorePoint {
    pub ts_ms_utc: i64,
    pub symbol_id: i64,
    pub point: KlinePoint,
}

/// The last `n` elements of `s`, or all of `s` if it is shorter.
pub open spec fn keep_last<T>(s: Seq<T>, n: nat) -> Seq<T> {
    if s.len() <= n {
        s
    } else {
        s.skip(s.len() - n)
    }
}

/// Bounded history of one symbol: the most recent `max_window + 1` points of
/// the current gap-free segment, oldest first.
#[derive(Debug)]
pub struct SymbolRolling {
    pub points: VecDeque<KlinePoint>,
    pub max_window: u64,
}

impl View for SymbolRolling {
    type V = Seq<KlinePoint>;

    open spec fn view(&self) -> Seq<KlinePoint> {
        self.points@
    }
}

impl SymbolRolling {
    pub open spec fn wf(&self) -> bool {
        &&& self.max_window >= 1
        &&& self.max_window <= u32::MAX
        &&& self.points@.len() <= self.max_window + 1
    }

    pub fn new(max_window: u64) -> (s: Self)
        requires
            1 <= max_window <= u32::MAX,
        ensures
            s.wf(),
            s@ == Seq::<KlinePoint>::empty(),
            s.max_window == max_window,
    {
        SymbolRolling { points: VecDeque::new(), max_window }
    }

    /// Forgets all history.
    pub fn reset(&mut self)
        requires
            old(self).wf(),
        ensures
            final(self).wf(),
            final(self)@ == Seq::<KlinePoint>::empty(),
            final(self).max_window == old(self).max_window,
    {
        self.points.clear();
    }

    /// Appends a point and drops the oldest ones beyond the capacity.
    pub fn push(&mut self, point: KlinePoint)
        requires
            old(self).wf(),
        ensures
            final(self).wf(),
            final(self).max_window == old(self).max_window,
            final(self)@ == keep_last(old(self)@.push(point), (old(self).max_window + 1) as nat),
    {
        let ghost pushed = self.points@.push(point);
        self.points.push_back(point);
        while self.points.len() as u64 > self.max_window + 1
            invariant
                self.max_window == old(self).max_window,
                1 <= self.max_window <= u32::MAX,
                pushed.len() <= self.max_window + 2,
                self.points@.len() <= pushed.len(),
                self.points@.len() == pushed.len() || self.points@.len() >= self.max_window + 1,
                self.points@ == pushed.skip(pushed.len() - self.points@.len()),
            decreases self.points@.len(),
        {
            self.points.pop_front();
            assert(self.points@ =~= pushed.skip(pushed.len() - self.points@.len()));
        }
        assert(self@ =~= keep_last(pushed, (self.max_window + 1) as nat));
    }

    /// Number of one-step changes that the history determines.
    pub open spec fn return_count_spec(&self) -> nat {
        if self@.len() == 0 {
            0
        } else {
            (self@.len() - 1) as nat
        }
    }

    pub fn return_count(&self) -> (n: u64)
        requires
            self.wf(),
        ensures
            n == self.return_count_spec(),
    {
        let len = self.points.len() as u64;
        if len == 0 {
            0
        } else {
            len - 1
        }
    }

    pub fn history_len(&self) -> (n: u64)
        requires
            self.wf(),
        ensures
            n == self@.len(),
    {
        self.points.len() as u64
    }
}

/// Rolling state of the whole engine: one history per symbol, all of the
/// same length, sharing one capacity.
#[derive(Debug)]
pub struct TransformState {
    pub symbol_states: Vec<SymbolRolling>,
    pub max_window: u64,
}

impl View for TransformState {
    type V = Seq<Seq<KlinePoint>>;

    open spec fn view(&self) -> Seq<Seq<KlinePoint>> {
        Seq::new(self.symbol_states@.len(), |i: int| self.symbol_states@[i]@)
    }
}

impl TransformState {
    pub open spec fn wf(&self) -> bool {
        &&& self.symbol_states@.len() == SYMBOL_COUNT
        &&& 1 <= self.max_window <= u32::MAX
        &&& forall|i: int|
            0 <= i < SYMBOL_COUNT ==> {
                &&& (#[trigger] self.symbol_states@[i]).wf()
                &&& self.symbol_states@[i].max_window == self.max_window
                &&& self.symbol_states@[i]@.len() == self.symbol_states@[0]@.len()
            }
    }

    /// Number of frames held for every symbol.
    pub open spec fn depth(&self) -> nat {
        self.symbol_states@[0]@.len()
    }

    pub fn new(max_window: u64) -> (s: Self)
        requires
            1 <= max_window <= u32::MAX,
        ensures
            s.wf(),
            s.max_window == max_window,
            s@ == empty_histories(),
    {
        let mut symbol_states: Vec<SymbolRolling> = Vec::new();
        symbol_states.push(SymbolRolling::new(max_window));
        symbol_states.push(SymbolRolling::new(max_window));
        symbol_states.push(SymbolRolling::new(max_window));
        symbol_states.push(SymbolRolling::new(max_window));
        let s = TransformState { symbol_states, max_window };
        assert(s@ =~~= empty_histories());
        s
    }

    /// Forgets the history of every symbol.
    pub fn reset_segment(&mut self)
        requires
            old(self).wf(),
        ensures
            final(self).wf(),
            final(self).max_window == old(self).max_window,
            final(self)@ == empty_histories(),
    {
        let mut i: usize = 0;
        while i < 4
            invariant
                i <= 4,
                self.symbol_states@.len() == 4,
                self.max_window == old(self).max_window,
                1 <= self.max_window <= u32::MAX,
                forall|k: int|
                    0 <= k < 4 ==> (#[trigger] self.symbol_states@[k]).wf()
                        && self.symbol_states@[k].max_window == self.max_window,
                forall|k: int| 0 <= k < i ==> (#[trigger] self.symbol_states@[k])@.len() == 0,
            decreases 4 - i,
        {
            self.symbol_states[i].reset();
            i = i + 1;
        }
        assert(self@ =~~= empty_histories());
    }
}

} // verus!

verus! {

/// All points that share one timestamp, one slot per symbol.
#[derive(Debug, Clone, Copy, PartialEq, Eq)]
pub struct Frame {
    pub ts_ms_utc: i64,
    pub points: [Option<KlinePoint>; 4],
}

/// Mathematical content of a [`Frame`].
pub struct FrameView {
    pub ts_ms_utc: i64,
    pub points: Seq<Option<KlinePoint>>,
}

impl View for Frame {
    type V = FrameView;

    open spec fn view(&self) -> FrameView {
        FrameView { ts_ms_utc: self.ts_ms_utc, points: self.points@ }
    }
}

/// A frame emitted once every symbol is warm: the timestamp and, per symbol,
/// the retained history ending at that timestamp, oldest first.
#[derive(Debug, Clone, PartialEq, Eq)]
pub struct WarmFrame {
    pub ts_ms_utc: i64,
    pub windows: Vec<Vec<KlinePoint>>,
}

/// Mathematical content of a [`WarmFrame`].
pub struct WarmFrameView {
    pub ts_ms_utc: i64,
    pub windows: Seq<Seq<KlinePoint>>,
}

impl View for WarmFrame {
    type V = WarmFrameView;

    open spec fn view(&self) -> WarmFrameView {
        WarmFrameView {
            ts_ms_utc: self.ts_ms_utc,
            windows: Seq::new(self.windows@.len(), |i: int| self.windows@[i]@),
        }
    }
}

pub open spec fn option_warm_view(w: Option<WarmFrame>) -> Option<WarmFrameView> {
    match w {
        Some(f) => Some(f@),
        None => None,
    }
}

/// Upper-case code of the symbol at position `i` of the fixed symbol order.
pub open spec fn symbol_code_upper(i: int) -> Seq<char> {
    if i == 0 {
        "BTC"@
    } else if i == 1 {
        "ETH"@
    } else if i == 2 {
        "SOL"@
    } else {
        "XRP"@
    }
}

/// Codes of the symbols absent among the first `n` slots, in symbol order.
pub open spec fn missing_codes_upto(points: Seq<Option<KlinePoint>>, n: nat) -> Seq<Seq<char>>
    decreases n,
{
    if n == 0 {
        Seq::empty()
    } else {
        let rest = missing_codes_upto(points, (n - 1) as nat);
        if points[n - 1] is None {
            rest.push(symbol_code_upper(n - 1))
        } else {
            rest
        }
    }
}

/// Codes of the symbols absent from a frame, in symbol order.
pub open spec fn missing_codes(points: Seq<Option<KlinePoint>>) -> Seq<Seq<char>> {
    missing_codes_upto(points, 4)
}

pub open spec fn frame_complete(points: Seq<Option<KlinePoint>>) -> bool {
    forall|i: int| 0 <= i < 4 ==> points[i] is Some
}

/// The four histories after a complete frame is appended to each.
pub open spec fn push_frame(
    histories: Seq<Seq<KlinePoint>>,
    points: Seq<Option<KlinePoint>>,
    max_window: u64,
) -> Seq<Seq<KlinePoint>> {
    Seq::new(
        4,
        |i: int| keep_last(histories[i].push(points[i]->Some_0), (max_window + 1) as nat),
    )
}

pub open spec fn empty_histories() -> Seq<Seq<KlinePoint>> {
    Seq::new(4, |i: int| Seq::<KlinePoint>::empty())
}

/// A history is warm when it is longer than the largest window and than every
/// configured window.
pub open spec fn history_warm(h: Seq<KlinePoint>, windows: Seq<u64>, max_window: u64) -> bool {
    &&& h.len() > max_window
    &&& h.len() > 1
    &&& forall|k: int| 0 <= k < windows.len() ==> h.len() > #[trigger] windows[k]
}

pub open spec fn histories_warm(
    histories: Seq<Seq<KlinePoint>>,
    windows: Seq<u64>,
    max_window: u64,
) -> bool {
    forall|i: int| 0 <= i < 4 ==> history_warm(#[trigger] histories[i], windows, max_window)
}

pub open spec fn incomplete_message(ts: i64) -> Seq<char> {
    "incomplete frame at "@ + decimal_text(ts as int)
}

pub open spec fn continuity_message(start: i64, end: i64) -> Seq<char> {
    "continuity gap from "@ + decimal_text(start as int) + " to "@ + decimal_text(end as int)
}

/// The report after a skipped range `[start, end)` is added: the skipped
/// points grow (saturating), and the range is listed while the list is short
/// of its cap.
pub open spec fn report_with_gap(r: ReportView, start: i64, end: i64) -> ReportView {
    if end <= start {
        r
    } else {
        let added = r.skipped_points + expected_points_spec(start as int, end as int);
        ReportView {
            skipped_points: if added > u64::MAX {
                u64::MAX
            } else {
                added as u64
            },
            gap_ranges: if r.gap_ranges.len() < MAX_REPORTED_GAP_RANGES {
                r.gap_ranges.push((start, end))
            } else {
                r.gap_ranges
            },
            ..r
        }
    }
}

pub open spec fn report_with_first_error(r: ReportView, message: Seq<char>) -> ReportView {
    if r.first_error is None {
        ReportView { first_error: Some(message), ..r }
    } else {
        r
    }
}

pub open spec fn report_with_output(r: ReportView) -> ReportView {
    ReportView {
        output_points: if r.output_points == u64::MAX {
            u64::MAX
        } else {
            (r.output_points + 1) as u64
        },
        ..r
    }
}

/// What survives from one frame to the next.
pub struct EngineCore {
    pub last_seen_ts: Option<i64>,
    pub histories: Seq<Seq<KlinePoint>>,
    pub report: ReportView,
}

/// Outcome of a continuity gap over `[start, end)`: nothing for an empty
/// range; fatal under `Strict`; otherwise reported, with all history dropped.
pub open spec fn after_gap(
    policy: GapPolicy,
    expected_next: i64,
    start: i64,
    end: i64,
    carried: EngineCore,
) -> Result<EngineCore, FeatureErrorView> {
    if end <= start {
        Ok(carried)
    } else {
        match policy {
            GapPolicy::Strict => Err(
                FeatureErrorView::ContinuityGap {
                    expected_next_ts_ms_utc: expected_next,
                    actual_ts_ms_utc: end,
                    missing_points: expected_points_spec(start as int, end as int) as u64,
                },
            ),
            GapPolicy::ReportAndSkip => Ok(
                EngineCore {
                    histories: empty_histories(),
                    report: report_with_first_error(
                        report_with_gap(carried.report, start, end),
                        continuity_message(start, end),
                    ),
                    ..carried
                },
            ),
        }
    }
}

/// Outcome of an incomplete frame at `ts`: fatal under `Strict`; otherwise the
/// frame's step is reported as skipped, with all history dropped.
pub open spec fn after_incomplete(
    policy: GapPolicy,
    ts: i64,
    missing: Seq<Seq<char>>,
    carried: EngineCore,
) -> Result<EngineCore, FeatureErrorView> {
    match policy {
        GapPolicy::Strict => Err(
            FeatureErrorView::IncompleteFrame { ts_ms_utc: ts, missing_symbols: missing },
        ),
        GapPolicy::ReportAndSkip => Ok(
            EngineCore {
                histories: empty_histories(),
                report: report_with_first_error(
                    report_with_gap(carried.report, ts, (ts + 1000) as i64),
                    incomplete_message(ts),
                ),
                ..carried
            },
        ),
    }
}

/// Whether a frame at `ts` comes later than the last accepted frame.
pub open spec fn later_than_last(carried: EngineCore, ts: i64) -> bool {
    match carried.last_seen_ts {
        Some(prev) => prev < ts,
        None => true,
    }
}

/// The continuity check that precedes a frame at `ts`: the frame is expected
/// one step after the last accepted frame, or at the start of the request.
/// A later frame leaves a gap; a frame that is not later than the last
/// accepted one shows a store out of order, and is fatal under every policy.
pub open spec fn continuity_outcome(
    policy: GapPolicy,
    req: FeatureTransformRequest,
    ts: i64,
    carried: EngineCore,
) -> Result<EngineCore, FeatureErrorView> {
    match carried.last_seen_ts {
        Some(prev) => if ts <= prev {
            Err(FeatureErrorView::InvalidTimestamp(ts))
        } else if ts != prev + 1000 {
            after_gap(policy, (prev + 1000) as i64, (prev + 1000) as i64, ts, carried)
        } else {
            Ok(carried)
        },
        None => if ts > req.start_ts_ms_utc {
            after_gap(policy, req.start_ts_ms_utc, req.start_ts_ms_utc, ts, carried)
        } else {
            Ok(carried)
        },
    }
}

/// Outcome of a complete frame that continues the stream: it joins the
/// histories, and is emitted if that makes every symbol warm.
pub open spec fn accepted_outcome(
    windows: Seq<u64>,
    max_window: u64,
    frame: FrameView,
    seen: EngineCore,
) -> (EngineCore, Option<WarmFrameView>) {
    let pushed = push_frame(seen.histories, frame.points, max_window);
    if histories_warm(pushed, windows, max_window) {
        (
            EngineCore { histories: pushed, report: report_with_output(seen.report), ..seen },
            Some(WarmFrameView { ts_ms_utc: frame.ts_ms_utc, windows: pushed }),
        )
    } else {
        (EngineCore { histories: pushed, ..seen }, None)
    }
}

/// Outcome of a frame once its place in the stream is settled: an
/// incomplete frame is handled by the policy, a complete one is accepted.
pub open spec fn settled_outcome(
    policy: GapPolicy,
    windows: Seq<u64>,
    max_window: u64,
    frame: FrameView,
    seen: EngineCore,
) -> Result<(EngineCore, Option<WarmFrameView>), FeatureErrorView> {
    if !frame_complete(frame.points) {
        match after_incomplete(policy, frame.ts_ms_utc, missing_codes(frame.points), seen) {
            Err(e) => Err(e),
            Ok(c) => Ok((c, None)),
        }
    } else {
        Ok(accepted_outcome(windows, max_window, frame, seen))
    }
}

/// Outcome of one closed frame: the state that follows and the frame emitted,
/// if any. A frame outside the request is ignored.
pub open spec fn frame_outcome(
    policy: GapPolicy,
    req: FeatureTransformRequest,
    windows: Seq<u64>,
    max_window: u64,
    frame: FrameView,
    carried: EngineCore,
) -> Result<(EngineCore, Option<WarmFrameView>), FeatureErrorView> {
    let ts = frame.ts_ms_utc;
    if ts < req.start_ts_ms_utc || ts >= req.end_ts_ms_utc_exclusive {
        Ok((carried, None))
    } else {
        match continuity_outcome(policy, req, ts, carried) {
            Err(e) => Err(e),
            Ok(c) => settled_outcome(
                policy,
                windows,
                max_window,
                frame,
                EngineCore { last_seen_ts: Some(ts), ..c },
            ),
        }
    }
}

/// A frame after a point is placed in its symbol's slot; an unknown symbol
/// id and a slot already taken are both fatal.
pub open spec fn frame_with_point(
    frame: FrameView,
    symbol_id: i64,
    ts: i64,
    point: KlinePoint,
) -> Result<FrameView, FeatureErrorView> {
    match symbol_index_spec(symbol_id) {
        None => Err(FeatureErrorView::UnknownSymbolId { symbol_id, ts_ms_utc: ts }),
        Some(index) => if frame.points[index as int] is Some {
            Err(FeatureErrorView::DuplicateSymbolInFrame { symbol_id, ts_ms_utc: ts })
        } else {
            Ok(FrameView { points: frame.points.update(index as int, Some(point)), ..frame })
        },
    }
}

pub open spec fn empty_frame(ts: i64) -> FrameView {
    FrameView { ts_ms_utc: ts, points: Seq::new(4, |i: int| None::<KlinePoint>) }
}

/// State of the engine between two points.
pub struct EngineModel {
    pub current_frame: Option<FrameView>,
    pub carried: EngineCore,
}

/// Outcome of one store point: it joins the frame in flight, or closes that
/// frame and opens the next. A timestamp off the step grid is fatal, and so
/// is a timestamp before that of the frame in flight: the points come in
/// ascending order of time.
pub open spec fn point_outcome(
    policy: GapPolicy,
    req: FeatureTransformRequest,
    windows: Seq<u64>,
    max_window: u64,
    p: StorePoint,
    m: EngineModel,
) -> Result<(EngineModel, Option<WarmFrameView>), FeatureErrorView> {
    if p.ts_ms_utc % 1000 != 0 {
        Err(FeatureErrorView::InvalidTimestamp(p.ts_ms_utc))
    } else {
        match m.current_frame {
            Some(frame) if frame.ts_ms_utc == p.ts_ms_utc => {
                match frame_with_point(frame, p.symbol_id, p.ts_ms_utc, p.point) {
                    Err(e) => Err(e),
                    Ok(f) => Ok((EngineModel { current_frame: Some(f), ..m }, None)),
                }
            },
            Some(frame) if p.ts_ms_utc < frame.ts_ms_utc => Err(
                FeatureErrorView::InvalidTimestamp(p.ts_ms_utc),
            ),
            Some(frame) => {
                match frame_outcome(policy, req, windows, max_window, frame, m.carried) {
                    Err(e) => Err(e),
                    Ok((carried, emitted)) => {
                        match frame_with_point(
                            empty_frame(p.ts_ms_utc),
                            p.symbol_id,
                            p.ts_ms_utc,
                            p.point,
                        ) {
                            Err(e) => Err(e),
                            Ok(f) => Ok((EngineModel { current_frame: Some(f), carried }, emitted)),
                        }
                    },
                }
            },
            None => {
                match frame_with_point(
                    empty_frame(p.ts_ms_utc),
                    p.symbol_id,
                    p.ts_ms_utc,
                    p.point,
                ) {
                    Err(e) => Err(e),
                    Ok(f) => Ok((EngineModel { current_frame: Some(f), ..m }, None)),
                }
            },
        }
    }
}

/// The check for points missing between the last accepted frame and the end
/// of the request: the next frame was expected one step after the last
/// accepted one, or at the start of the request if there was none, and the
/// end of the request came instead.
pub open spec fn tail_outcome(
    policy: GapPolicy,
    req: FeatureTransformRequest,
    carried: EngineCore,
) -> Result<EngineCore, FeatureErrorView> {
    match carried.last_seen_ts {
        Some(last) => if last < req.end_ts_ms_utc_exclusive - 1000 {
            after_gap(
                policy,
                (last + 1000) as i64,
                (last + 1000) as i64,
                req.end_ts_ms_utc_exclusive,
                carried,
            )
        } else {
            Ok(carried)
        },
        None => if carried.report.input_points > 0 {
            after_gap(
                policy,
                req.start_ts_ms_utc,
                req.start_ts_ms_utc,
                req.end_ts_ms_utc_exclusive,
                carried,
            )
        } else {
            Ok(carried)
        },
    }
}

/// Outcome of the end of the stream: the frame in flight is closed, then the
/// tail of the request is checked.
pub open spec fn finish_outcome(
    policy: GapPolicy,
    req: FeatureTransformRequest,
    windows: Seq<u64>,
    max_window: u64,
    m: EngineModel,
) -> Result<(ReportView, Option<WarmFrameView>), FeatureErrorView> {
    let closed = match m.current_frame {
        Some(frame) => frame_outcome(policy, req, windows, max_window, frame, m.carried),
        None => Ok((m.carried, None)),
    };
    match closed {
        Err(e) => Err(e),
        Ok((carried, emitted)) => match tail_outcome(policy, req, carried) {
            Err(e) => Err(e),
            Ok(done) => Ok((done.report, emitted)),
        },
    }
}

} // verus!

verus! {

impl Frame {
    pub fn new(ts_ms_utc: i64) -> (f: Frame)
        ensures
            f@ == empty_frame(ts_ms_utc),
    {
        let f = Frame { ts_ms_utc, points: [None, None, None, None] };
        assert(f@.points =~= empty_frame(ts_ms_utc).points);
        f
    }
}

/// Places a point in its symbol's slot of the frame.
pub fn insert_frame_point(
    frame: &mut Frame,
    symbol_id: i64,
    ts_ms_utc: i64,
    point: KlinePoint,
) -> (r: Result<(), FeatureError>)
    ensures
        match frame_with_point(old(frame)@, symbol_id, ts_ms_utc, point) {
            Ok(f) => r is Ok && final(frame)@ == f,
            Err(e) => r is Err && r->Err_0@ == e && final(frame)@ == old(frame)@,
        },
{
    let index = match symbol_index(symbol_id) {
        Some(index) => index,
        None => {
            return Err(FeatureError::UnknownSymbolId { symbol_id, ts_ms_utc });
        },
    };
    if frame.points[index].is_some() {
        return Err(FeatureError::DuplicateSymbolInFrame { symbol_id, ts_ms_utc });
    }
    frame.points[index] = Some(point);
    Ok(())
}

pub fn symbol_code_upper_str(i: usize) -> (s: &'static str)
    requires
        i < 4,
    ensures
        s@ == symbol_code_upper(i as int),
{
    if i == 0 {
        "BTC"
    } else if i == 1 {
        "ETH"
    } else if i == 2 {
        "SOL"
    } else {
        "XRP"
    }
}

pub proof fn lemma_missing_codes_empty(points: Seq<Option<KlinePoint>>, n: nat)
    requires
        n <= 4,
        points.len() == 4,
    ensures
        missing_codes_upto(points, n).len() == 0 <==> forall|i: int| 0 <= i < n ==> points[i] is Some,
        missing_codes_upto(points, n).len() <= n,
    decreases n,
{
    if n > 0 {
        lemma_missing_codes_empty(points, (n - 1) as nat);
    }
}

/// The codes of the symbols absent from the frame, or `None` if it is complete.
pub fn missing_symbols(frame: &Frame) -> (r: Option<Vec<String>>)
    ensures
        match r {
            Some(v) => !frame_complete(frame@.points) && v.deep_view() == missing_codes(
                frame@.points,
            ),
            None => frame_complete(frame@.points),
        },
{
    let mut missing: Vec<String> = Vec::new();
    let mut idx: usize = 0;
    assert(missing.deep_view() =~= missing_codes_upto(frame@.points, 0));
    while idx < 4
        invariant
            idx <= 4,
            missing.deep_view() == missing_codes_upto(frame@.points, idx as nat),
        decreases 4 - idx,
    {
        if frame.points[idx].is_none() {
            let ghost before = missing.deep_view();
            let code = symbol_code_upper_str(idx).to_string();
            missing.push(code);
            assert(missing.deep_view() =~= before.push(symbol_code_upper(idx as int)));
        }
        idx = idx + 1;
    }
    proof {
        lemma_missing_codes_empty(frame@.points, 4);
    }
    if missing.len() == 0 {
        None
    } else {
        Some(missing)
    }
}

/// Adds the skipped range `[start, end)` to the report.
pub fn update_report_with_gap(
    report: &mut FeatureTransformReport,
    start_ts_ms_utc: i64,
    end_ts_ms_utc_exclusive: i64,
)
    ensures
        final(report)@ == report_with_gap(old(report)@, start_ts_ms_utc, end_ts_ms_utc_exclusive),
{
    if end_ts_ms_utc_exclusive <= start_ts_ms_utc {
        return ;
    }
    report.skipped_points = report.skipped_points.saturating_add(
        expected_points(start_ts_ms_utc, end_ts_ms_utc_exclusive),
    );
    if report.gap_ranges.len() < MAX_REPORTED_GAP_RANGES {
        report.gap_ranges.push((start_ts_ms_utc, end_ts_ms_utc_exclusive));
    }
}

impl TransformState {
    /// Appends a complete frame to the four histories.
    pub fn push_frame_points(&mut self, frame: &Frame)
        requires
            old(self).wf(),
            frame_complete(frame@.points),
        ensures
            final(self).wf(),
            final(self).max_window == old(self).max_window,
            final(self)@ == push_frame(old(self)@, frame@.points, old(self).max_window),
    {
        let mut idx: usize = 0;
        while idx < 4
            invariant
                idx <= 4,
                frame_complete(frame@.points),
                old(self).wf(),
                self.symbol_states@.len() == 4,
                self.max_window == old(self).max_window,
                forall|k: int|
                    0 <= k < 4 ==> (#[trigger] self.symbol_states@[k]).wf()
                        && self.symbol_states@[k].max_window == self.max_window,
                forall|k: int|
                    0 <= k < idx ==> (#[trigger] self.symbol_states@[k])@ == keep_last(
                        old(self).symbol_states@[k]@.push(frame@.points[k]->Some_0),
                        (self.max_window + 1) as nat,
                    ),
                forall|k: int|
                    idx <= k < 4 ==> (#[trigger] self.symbol_states@[k])@ == old(
                        self,
                    ).symbol_states@[k]@,
            decreases 4 - idx,
        {
            let point = frame.points[idx].unwrap();
            self.symbol_states[idx].push(point);
            idx = idx + 1;
        }
        assert(self@ =~= push_frame(old(self)@, frame@.points, old(self).max_window));
    }

    /// Copies out the four histories, oldest point first.
    pub fn snapshot(&self) -> (out: Vec<Vec<KlinePoint>>)
        requires
            self.wf(),
        ensures
            Seq::new(out@.len(), |i: int| out@[i]@) == self@,
    {
        let mut out: Vec<Vec<KlinePoint>> = Vec::new();
        let mut idx: usize = 0;
        while idx < 4
            invariant
                idx <= 4,
                self.wf(),
                out@.len() == idx,
                forall|k: int| 0 <= k < idx ==> (#[trigger] out@[k])@ == self.symbol_states@[k]@,
            decreases 4 - idx,
        {
            let mut history: Vec<KlinePoint> = Vec::new();
            let len = self.symbol_states[idx].points.len();
            let mut j: usize = 0;
            while j < len
                invariant
                    j <= len,
                    idx < 4,
                    self.symbol_states@.len() == 4,
                    len == self.symbol_states@[idx as int].points@.len(),
                    history@ == self.symbol_states@[idx as int].points@.take(j as int),
                decreases len - j,
            {
                history.push(self.symbol_states[idx].points[j]);
                assert(history@ =~= self.symbol_states@[idx as int].points@.take(j + 1));
                j = j + 1;
            }
            assert(history@ =~= self.symbol_states@[idx as int]@);
            out.push(history);
            idx = idx + 1;
        }
        assert(Seq::new(out@.len(), |i: int| out@[i]@) =~= self@);
        out
    }

    /// Whether every symbol has enough history for every window.
    pub fn is_warm(&self, windows: &Vec<u64>) -> (r: bool)
        requires
            self.wf(),
        ensures
            r == histories_warm(self@, windows@, self.max_window),
    {
        let required: u64 = if self.max_window > 1 {
            self.max_window
        } else {
            1
        };
        let mut idx: usize = 0;
        while idx < 4
            invariant
                idx <= 4,
                self.wf(),
                required == self.max_window,
                forall|k: int|
                    0 <= k < idx ==> history_warm(
                        #[trigger] self@[k],
                        windows@,
                        self.max_window,
                    ),
            decreases 4 - idx,
        {
            let symbol_state = &self.symbol_states[idx];
            assert(self@[idx as int] == symbol_state@);
            let closes = symbol_state.history_len();
            let ret_len = symbol_state.return_count();
            if closes <= required {
                return false;
            }
            if ret_len < required {
                return false;
            }
            let mut k: usize = 0;
            while k < windows.len()
                invariant
                    k <= windows@.len(),
                    idx < 4,
                    self.wf(),
                    closes == self@[idx as int].len(),
                    closes > 0,
                    ret_len == closes - 1,
                    forall|q: int| 0 <= q < k ==> closes > #[trigger] windows@[q],
                decreases windows@.len() - k,
            {
                let w = windows[k];
                if closes <= w || closes < w || ret_len < w {
                    assert(!history_warm(self@[idx as int], windows@, self.max_window));
                    return false;
                }
                k = k + 1;
            }
            idx = idx + 1;
        }
        true
    }
}

} // verus!

verus! {

/// The engine between two store points: the request and policy it was made
/// for, the frame in flight, and what survives from frame to frame.
#[derive(Debug)]
pub struct TransformEngine {
    pub req: FeatureTransformRequest,
    pub gap_policy: GapPolicy,
    pub windows: Vec<u64>,
    pub state: TransformState,
    pub current_frame: Option<Frame>,
    pub last_seen_ts: Option<i64>,
    pub report: FeatureTransformReport,
}

pub open spec fn option_frame_view(f: Option<Frame>) -> Option<FrameView> {
    match f {
        Some(frame) => Some(frame@),
        None => None,
    }
}

impl View for TransformEngine {
    type V = EngineModel;

    open spec fn view(&self) -> EngineModel {
        EngineModel { current_frame: option_frame_view(self.current_frame), carried: self.carried() }
    }
}

/// The largest of the first `n` windows, and at least one.
pub open spec fn max_window_upto(windows: Seq<u32>, n: nat) -> u64
    decreases n,
{
    if n == 0 {
        1
    } else {
        let rest = max_window_upto(windows, (n - 1) as nat);
        if windows[n - 1] > rest {
            windows[n - 1] as u64
        } else {
            rest
        }
    }
}

/// The largest configured window, and at least one.
pub open spec fn max_window_of(windows: Seq<u32>) -> u64 {
    max_window_upto(windows, windows.len())
}

pub open spec fn widened(windows: Seq<u32>) -> Seq<u64> {
    Seq::new(windows.len(), |i: int| windows[i] as u64)
}

/// The state of a fresh engine for a request.
pub open spec fn initial_model(req: FeatureTransformRequest) -> EngineModel {
    EngineModel {
        current_frame: None,
        carried: EngineCore {
            last_seen_ts: None,
            histories: empty_histories(),
            report: ReportView {
                input_points: expected_points_spec(
                    req.start_ts_ms_utc as int,
                    req.end_ts_ms_utc_exclusive as int,
                ) as u64,
                output_points: 0,
                skipped_points: 0,
                gap_ranges: Seq::empty(),
                first_error: None,
            },
        },
    }
}

impl TransformEngine {
    pub open spec fn carried(&self) -> EngineCore {
        EngineCore {
            last_seen_ts: self.last_seen_ts,
            histories: self.state@,
            report: self.report@,
        }
    }

    pub open spec fn wf(&self) -> bool {
        &&& request_valid_for_engine(self.req)
        &&& self.state.wf()
        &&& match self.last_seen_ts {
            Some(t) => self.req.start_ts_ms_utc <= t < self.req.end_ts_ms_utc_exclusive && t % 1000
                == 0,
            None => true,
        }
        &&& match self.current_frame {
            Some(f) => f.ts_ms_utc % 1000 == 0,
            None => true,
        }
    }

    /// Everything that a step leaves untouched.
    pub open spec fn same_setup(&self, other: &TransformEngine) -> bool {
        &&& self.req == other.req
        &&& self.gap_policy == other.gap_policy
        &&& self.windows@ == other.windows@
        &&& self.state.max_window == other.state.max_window
    }

    /// A fresh engine for a valid request and configuration.
    pub fn new(req: &FeatureTransformRequest, cfg: &FeatureTransformConfig) -> (r: Result<
        TransformEngine,
        FeatureError,
    >)
        ensures
            match crate::features::request_error(*req) {
                Some(e) => r is Err && r->Err_0@ == e,
                None => match crate::features::config_error(cfg) {
                    Some(e) => r is Err && r->Err_0@ == e,
                    None => {
                        &&& r is Ok
                        &&& r->Ok_0.wf()
                        &&& r->Ok_0@ == initial_model(*req)
                        &&& r->Ok_0.req == *req
                        &&& r->Ok_0.gap_policy == cfg.gap_policy
                        &&& r->Ok_0.windows@ == widened(cfg.windows_seconds@)
                        &&& r->Ok_0.state.max_window == max_window_of(cfg.windows_seconds@)
                    },
                },
            },
    {
        match crate::features::validate_request(req) {
            Err(e) => {
                return Err(e);
            },
            Ok(()) => {},
        }
        match crate::features::validate_config(cfg) {
            Err(e) => {
                return Err(e);
            },
            Ok(()) => {},
        }
        let mut max_window: u64 = 1;
        let mut windows: Vec<u64> = Vec::new();
        let mut i: usize = 0;
        while i < cfg.windows_seconds.len()
            invariant
                i <= cfg.windows_seconds@.len(),
                max_window == max_window_upto(cfg.windows_seconds@, i as nat),
                1 <= max_window <= u32::MAX,
                windows@ == widened(cfg.windows_seconds@).take(i as int),
            decreases cfg.windows_seconds@.len() - i,
        {
            let w = cfg.windows_seconds[i] as u64;
            if w > max_window {
                max_window = w;
            }
            windows.push(w);
            assert(windows@ =~= widened(cfg.windows_seconds@).take(i + 1));
            i = i + 1;
        }
        assert(windows@ =~= widened(cfg.windows_seconds@));
        let state = TransformState::new(max_window);
        let report = FeatureTransformReport {
            input_points: expected_points(req.start_ts_ms_utc, req.end_ts_ms_utc_exclusive),
            output_points: 0,
            skipped_points: 0,
            gap_ranges: Vec::new(),
            first_error: None,
        };
        let engine = TransformEngine {
            req: *req,
            gap_policy: cfg.gap_policy,
            windows,
            state,
            current_frame: None,
            last_seen_ts: None,
            report,
        };
        assert(engine@.carried.report.gap_ranges =~= Seq::<(i64, i64)>::empty());
        assert(engine@.carried.report == initial_model(*req).carried.report);
        assert(engine@ == initial_model(*req));
        assert(engine.wf());
        Ok(engine)
    }

    /// Handles the missing range `[start, end)`.
    pub fn handle_gap(
        &mut self,
        expected_next_ts_ms_utc: i64,
        start_ts_ms_utc: i64,
        end_ts_ms_utc_exclusive: i64,
    ) -> (r: Result<(), FeatureError>)
        requires
            old(self).wf(),
        ensures
            match after_gap(
                old(self).gap_policy,
                expected_next_ts_ms_utc,
                start_ts_ms_utc,
                end_ts_ms_utc_exclusive,
                old(self).carried(),
            ) {
                Ok(c) => {
                    &&& r is Ok
                    &&& final(self).carried() == c
                    &&& final(self).wf()
                    &&& final(self).same_setup(old(self))
                    &&& final(self).current_frame == old(self).current_frame
                },
                Err(e) => r is Err && r->Err_0@ == e,
            },
    {
        if end_ts_ms_utc_exclusive <= start_ts_ms_utc {
            return Ok(());
        }
        let missing_points = expected_points(start_ts_ms_utc, end_ts_ms_utc_exclusive);
        match self.gap_policy {
            GapPolicy::Strict => Err(
                FeatureError::ContinuityGap {
                    expected_next_ts_ms_utc,
                    actual_ts_ms_utc: end_ts_ms_utc_exclusive,
                    missing_points,
                },
            ),
            GapPolicy::ReportAndSkip => {
                update_report_with_gap(
                    &mut self.report,
                    start_ts_ms_utc,
                    end_ts_ms_utc_exclusive,
                );
                self.state.reset_segment();
                if self.report.first_error.is_none() {
                    let mut message = String::new();
                    message.append("continuity gap from ");
                    push_i64(&mut message, start_ts_ms_utc);
                    message.append(" to ");
                    push_i64(&mut message, end_ts_ms_utc_exclusive);
                    assert(message@ =~= continuity_message(
                        start_ts_ms_utc,
                        end_ts_ms_utc_exclusive,
                    ));
                    self.report.first_error = Some(message);
                }
                Ok(())
            },
        }
    }

    /// Handles a frame in which some symbols are absent.
    pub fn handle_incomplete_frame(&mut self, ts_ms_utc: i64, missing_symbols: Vec<String>) -> (r:
        Result<(), FeatureError>)
        requires
            old(self).wf(),
            ts_ms_utc + 1000 <= i64::MAX,
        ensures
            match after_incomplete(
                old(self).gap_policy,
                ts_ms_utc,
                missing_symbols.deep_view(),
                old(self).carried(),
            ) {
                Ok(c) => {
                    &&& r is Ok
                    &&& final(self).carried() == c
                    &&& final(self).wf()
                    &&& final(self).same_setup(old(self))
                    &&& final(self).current_frame == old(self).current_frame
                },
                Err(e) => r is Err && r->Err_0@ == e,
            },
    {
        match self.gap_policy {
            GapPolicy::Strict => Err(FeatureError::IncompleteFrame { ts_ms_utc, missing_symbols }),
            GapPolicy::ReportAndSkip => {
                update_report_with_gap(&mut self.report, ts_ms_utc, ts_ms_utc + STEP_MS);
                self.state.reset_segment();
                if self.report.first_error.is_none() {
                    let mut message = String::new();
                    message.append("incomplete frame at ");
                    push_i64(&mut message, ts_ms_utc);
                    assert(message@ =~= incomplete_message(ts_ms_utc));
                    self.report.first_error = Some(message);
                }
                Ok(())
            },
        }
    }

    /// Checks that a frame at `ts` follows the last accepted frame, or opens
    /// the request, without a gap.
    pub fn check_continuity(&mut self, ts: i64) -> (r: Result<(), FeatureError>)
        requires
            old(self).wf(),
            ts % 1000 == 0,
            old(self).req.start_ts_ms_utc <= ts < old(self).req.end_ts_ms_utc_exclusive,
        ensures
            match continuity_outcome(old(self).gap_policy, old(self).req, ts, old(self).carried()) {
                Ok(c) => {
                    &&& r is Ok
                    &&& final(self).carried() == c
                    &&& final(self).wf()
                    &&& final(self).same_setup(old(self))
                    &&& final(self).current_frame == old(self).current_frame
                },
                Err(e) => r is Err && r->Err_0@ == e,
            },
    {
        match self.last_seen_ts {
            Some(prev_seen) => {
                if ts <= prev_seen {
                    return Err(FeatureError::InvalidTimestamp(ts));
                }
                let expected = prev_seen + STEP_MS;
                if ts != expected {
                    self.handle_gap(expected, expected, ts)
                } else {
                    Ok(())
                }
            },
            None => {
                if ts > self.req.start_ts_ms_utc {
                    let start = self.req.start_ts_ms_utc;
                    self.handle_gap(start, start, ts)
                } else {
                    Ok(())
                }
            },
        }
    }

    /// Closes a frame: checks continuity and completeness, extends the
    /// histories, and hands back the frame's windows once every symbol is warm.
    pub fn process_frame(&mut self, frame: &Frame) -> (r: Result<Option<WarmFrame>, FeatureError>)
        requires
            old(self).wf(),
            frame.ts_ms_utc % 1000 == 0,
        ensures
            match frame_outcome(
                old(self).gap_policy,
                old(self).req,
                old(self).windows@,
                old(self).state.max_window,
                frame@,
                old(self).carried(),
            ) {
                Ok((c, emitted)) => {
                    &&& r is Ok
                    &&& option_warm_view(r->Ok_0) == emitted
                    &&& final(self).carried() == c
                    &&& final(self).wf()
                    &&& final(self).same_setup(old(self))
                    &&& final(self).current_frame == old(self).current_frame
                },
                Err(e) => r is Err && r->Err_0@ == e,
            },
    {
        let ts = frame.ts_ms_utc;
        if ts < self.req.start_ts_ms_utc || ts >= self.req.end_ts_ms_utc_exclusive {
            return Ok(None);
        }
        proof {
            lemma_next_step_fits(ts as int, self.req.end_ts_ms_utc_exclusive as int);
        }
        let ghost placed = continuity_outcome(self.gap_policy, self.req, ts, self.carried());
        match self.check_continuity(ts) {
            Err(e) => {
                return Err(e);
            },
            Ok(()) => {},
        }
        assert(placed is Ok && self.carried() == placed->Ok_0);
        self.mark_seen(ts);
        assert(self.carried() == (EngineCore { last_seen_ts: Some(ts), ..placed->Ok_0 }));
        self.settle_frame(frame)
    }

    /// Notes the timestamp of the frame that was last placed in the stream.
    fn mark_seen(&mut self, ts: i64)
        requires
            old(self).wf(),
            ts % 1000 == 0,
            old(self).req.start_ts_ms_utc <= ts < old(self).req.end_ts_ms_utc_exclusive,
        ensures
            final(self).carried() == (EngineCore { last_seen_ts: Some(ts), ..old(self).carried() }),
            final(self).wf(),
            final(self).same_setup(old(self)),
            final(self).current_frame == old(self).current_frame,
    {
        self.last_seen_ts = Some(ts);
    }

    /// Accepts a complete frame: extends the histories and hands back the
    /// frame's windows once every symbol is warm.
    pub fn accept_frame(&mut self, frame: &Frame) -> (r: Option<WarmFrame>)
        requires
            old(self).wf(),
            frame_complete(frame@.points),
        ensures
            ({
                let outcome = accepted_outcome(
                    old(self).windows@,
                    old(self).state.max_window,
                    frame@,
                    old(self).carried(),
                );
                &&& option_warm_view(r) == outcome.1
                &&& final(self).carried() == outcome.0
                &&& final(self).wf()
                &&& final(self).same_setup(old(self))
                &&& final(self).current_frame == old(self).current_frame
            }),
    {
        self.state.push_frame_points(frame);
        if !self.state.is_warm(&self.windows) {
            return None;
        }
        let windows = self.state.snapshot();
        if self.report.output_points < u64::MAX {
            self.report.output_points = self.report.output_points + 1;
        }
        Some(WarmFrame { ts_ms_utc: frame.ts_ms_utc, windows })
    }

    /// Handles a frame whose place in the stream is settled.
    pub fn settle_frame(&mut self, frame: &Frame) -> (r: Result<Option<WarmFrame>, FeatureError>)
        requires
            old(self).wf(),
            frame.ts_ms_utc + 1000 <= i64::MAX,
        ensures
            match settled_outcome(
                old(self).gap_policy,
                old(self).windows@,
                old(self).state.max_window,
                frame@,
                old(self).carried(),
            ) {
                Ok((c, emitted)) => {
                    &&& r is Ok
                    &&& option_warm_view(r->Ok_0) == emitted
                    &&& final(self).carried() == c
                    &&& final(self).wf()
                    &&& final(self).same_setup(old(self))
                    &&& final(self).current_frame == old(self).current_frame
                },
                Err(e) => r is Err && r->Err_0@ == e,
            },
    {
        match missing_symbols(frame) {
            Some(missing) => {
                match self.handle_incomplete_frame(frame.ts_ms_utc, missing) {
                    Err(e) => Err(e),
                    Ok(()) => Ok(None),
                }
            },
            None => Ok(self.accept_frame(frame)),
        }
    }
}

/// A step on the grid that begins before a bound on the grid ends at or
/// before that bound.
pub proof fn lemma_next_step_fits(ts: int, bound: int)
    requires
        ts % 1000 == 0,
        bound % 1000 == 0,
        ts < bound,
    ensures
        ts + 1000 <= bound,
{
    assert(ts == 1000 * (ts / 1000));
    assert(bound == 1000 * (bound / 1000));
}

/// A request that the engine can run on.
pub open spec fn request_valid_for_engine(req: FeatureTransformRequest) -> bool {
    crate::features::request_valid(req)
}

} // verus!

verus! {

impl TransformEngine {
    /// Takes the next point of the store cursor.
    pub fn push_point(&mut self, p: StorePoint) -> (r: Result<Option<WarmFrame>, FeatureError>)
        requires
            old(self).wf(),
        ensures
            match point_outcome(
                old(self).gap_policy,
                old(self).req,
                old(self).windows@,
                old(self).state.max_window,
                p,
                old(self)@,
            ) {
                Ok((m, emitted)) => {
                    &&& r is Ok
                    &&& option_warm_view(r->Ok_0) == emitted
                    &&& final(self)@ == m
                    &&& final(self).wf()
                    &&& final(self).same_setup(old(self))
                },
                Err(e) => r is Err && r->Err_0@ == e,
            },
    {
        let ts = p.ts_ms_utc;
        if ts % STEP_MS != 0 {
            return Err(FeatureError::InvalidTimestamp(ts));
        }
        match self.current_frame {
            Some(frame) => {
                if frame.ts_ms_utc == ts {
                    let mut joined = frame;
                    match insert_frame_point(&mut joined, p.symbol_id, ts, p.point) {
                        Err(e) => {
                            return Err(e);
                        },
                        Ok(()) => {},
                    }
                    self.current_frame = Some(joined);
                    Ok(None)
                } else if ts < frame.ts_ms_utc {
                    Err(FeatureError::InvalidTimestamp(ts))
                } else {
                    let emitted = match self.process_frame(&frame) {
                        Err(e) => {
                            return Err(e);
                        },
                        Ok(emitted) => emitted,
                    };
                    let mut next = Frame::new(ts);
                    match insert_frame_point(&mut next, p.symbol_id, ts, p.point) {
                        Err(e) => {
                            return Err(e);
                        },
                        Ok(()) => {},
                    }
                    self.current_frame = Some(next);
                    Ok(emitted)
                }
            },
            None => {
                let mut next = Frame::new(ts);
                match insert_frame_point(&mut next, p.symbol_id, ts, p.point) {
                    Err(e) => {
                        return Err(e);
                    },
                    Ok(()) => {},
                }
                self.current_frame = Some(next);
                Ok(None)
            },
        }
    }

    /// Checks for points missing between the last accepted frame and the end
    /// of the request.
    pub fn check_tail(&mut self) -> (r: Result<(), FeatureError>)
        requires
            old(self).wf(),
        ensures
            match tail_outcome(old(self).gap_policy, old(self).req, old(self).carried()) {
                Ok(c) => {
                    &&& r is Ok
                    &&& final(self).carried() == c
                    &&& final(self).wf()
                    &&& final(self).same_setup(old(self))
                },
                Err(e) => r is Err && r->Err_0@ == e,
            },
    {
        let end = self.req.end_ts_ms_utc_exclusive;
        let start = self.req.start_ts_ms_utc;
        match self.last_seen_ts {
            Some(last_ts) => {
                let expected_last = end - STEP_MS;
                if last_ts < expected_last {
                    let expected = last_ts + STEP_MS;
                    self.handle_gap(expected, expected, end)
                } else {
                    Ok(())
                }
            },
            None => {
                if self.report.input_points > 0 {
                    self.handle_gap(start, start, end)
                } else {
                    Ok(())
                }
            },
        }
    }

    /// Ends the stream: closes the frame in flight and checks the tail of the
    /// request. Hands back the last frame emitted, if any, and the report.
    pub fn finish(self) -> (r: Result<(Option<WarmFrame>, FeatureTransformReport), FeatureError>)
        requires
            self.wf(),
        ensures
            match finish_outcome(
                self.gap_policy,
                self.req,
                self.windows@,
                self.state.max_window,
                self@,
            ) {
                Ok((report, emitted)) => {
                    &&& r is Ok
                    &&& option_warm_view(r->Ok_0.0) == emitted
                    &&& r->Ok_0.1@ == report
                },
                Err(e) => r is Err && r->Err_0@ == e,
            },
    {
        let mut engine = self;
        let emitted = match engine.current_frame {
            Some(frame) => {
                match engine.process_frame(&frame) {
                    Err(e) => {
                        return Err(e);
                    },
                    Ok(emitted) => emitted,
                }
            },
            None => None,
        };
        match engine.check_tail() {
            Err(e) => {
                return Err(e);
            },
            Ok(()) => {},
        }
        Ok((emitted, engine.report))
    }
}

/// The engine's state and the frames emitted after the first `n` points, or
/// the first fatal condition met on the way.
pub open spec fn run_prefix(
    policy: GapPolicy,
    req: FeatureTransformRequest,
    windows: Seq<u64>,
    max_window: u64,
    points: Seq<StorePoint>,
    n: nat,
) -> Result<(EngineModel, Seq<WarmFrameView>), FeatureErrorView>
    decreases n,
{
    if n == 0 {
        Ok((initial_model(req), Seq::empty()))
    } else {
        match run_prefix(policy, req, windows, max_window, points, (n - 1) as nat) {
            Err(e) => Err(e),
            Ok((m, rows)) => match point_outcome(policy, req, windows, max_window, points[n - 1], m) {
                Err(e) => Err(e),
                Ok((m2, emitted)) => Ok(
                    (
                        m2,
                        match emitted {
                            Some(w) => rows.push(w),
                            None => rows,
                        },
                    ),
                ),
            },
        }
    }
}

/// What a whole transform yields for a request, a configuration and the
/// ordered points of the store: the frames emitted and the report, or the
/// first fatal condition.
pub open spec fn transform_outcome(
    req: FeatureTransformRequest,
    cfg: &FeatureTransformConfig,
    points: Seq<StorePoint>,
) -> Result<(Seq<WarmFrameView>, ReportView), FeatureErrorView> {
    match crate::features::request_error(req) {
        Some(e) => Err(e),
        None => match crate::features::config_error(cfg) {
            Some(e) => Err(e),
            None => {
                let windows = widened(cfg.windows_seconds@);
                let max_window = max_window_of(cfg.windows_seconds@);
                match run_prefix(cfg.gap_policy, req, windows, max_window, points, points.len()) {
                    Err(e) => Err(e),
                    Ok((m, rows)) => match finish_outcome(
                        cfg.gap_policy,
                        req,
                        windows,
                        max_window,
                        m,
                    ) {
                        Err(e) => Err(e),
                        Ok((report, emitted)) => Ok(
                            (
                                match emitted {
                                    Some(w) => rows.push(w),
                                    None => rows,
                                },
                                report,
                            ),
                        ),
                    },
                }
            },
        },
    }
}

/// A fatal condition met within the first `n` points is the outcome for any
/// longer prefix.
pub proof fn lemma_run_prefix_error_stable(
    policy: GapPolicy,
    req: FeatureTransformRequest,
    windows: Seq<u64>,
    max_window: u64,
    points: Seq<StorePoint>,
    n: nat,
    m: nat,
)
    requires
        n <= m,
        run_prefix(policy, req, windows, max_window, points, n) is Err,
    ensures
        run_prefix(policy, req, windows, max_window, points, m) == run_prefix(
            policy,
            req,
            windows,
            max_window,
            points,
            n,
        ),
    decreases m,
{
    if n < m {
        lemma_run_prefix_error_stable(policy, req, windows, max_window, points, n, (m - 1) as nat);
    }
}

pub open spec fn warm_views(rows: Seq<WarmFrame>) -> Seq<WarmFrameView> {
    Seq::new(rows.len(), |i: int| rows[i]@)
}

/// What a transform returns, as mathematical content.
pub open spec fn transform_result_view(
    r: Result<(FeatureSchema, Vec<WarmFrame>, FeatureTransformReport), FeatureError>,
) -> Result<(SchemaView, Seq<WarmFrameView>, ReportView), FeatureErrorView> {
    match r {
        Ok((schema, rows, report)) => Ok((schema@, warm_views(rows@), report@)),
        Err(e) => Err(e@),
    }
}

/// What a transform yields for a request, a configuration and the ordered
/// points of the store: the schema of the configuration, the frames
/// emitted and the report, or the first fatal condition.
pub open spec fn transform_spec(
    req: FeatureTransformRequest,
    cfg: &FeatureTransformConfig,
    points: Seq<StorePoint>,
) -> Result<(SchemaView, Seq<WarmFrameView>, ReportView), FeatureErrorView> {
    match transform_outcome(req, cfg, points) {
        Ok((rows, report)) => Ok((schema_spec(cfg), rows, report)),
        Err(e) => Err(e),
    }
}

/// A transform is a function of its inputs: two runs over the same request,
/// configuration and points return the same schema, frames and report, or
/// the same error.
pub proof fn lemma_transform_is_deterministic(
    req: FeatureTransformRequest,
    cfg: &FeatureTransformConfig,
    points: Seq<StorePoint>,
    first: Result<(FeatureSchema, Vec<WarmFrame>, FeatureTransformReport), FeatureError>,
    second: Result<(FeatureSchema, Vec<WarmFrame>, FeatureTransformReport), FeatureError>,
)
    requires
        transform_result_view(first) == transform_spec(req, cfg, points),
        transform_result_view(second) == transform_spec(req, cfg, points),
    ensures
        transform_result_view(first) == transform_result_view(second),
{
}

/// Transforms the ordered points of the store for a request: validates the
/// request and the configuration, builds the schema, and runs the engine
/// over the points.
pub fn transform_store_range(
    points: &Vec<StorePoint>,
    req: &FeatureTransformRequest,
    cfg: &FeatureTransformConfig,
) -> (r: Result<(FeatureSchema, Vec<WarmFrame>, FeatureTransformReport), FeatureError>)
    ensures
        transform_result_view(r) == transform_spec(*req, cfg, points@),
{
    let mut engine = match TransformEngine::new(req, cfg) {
        Err(e) => {
            return Err(e);
        },
        Ok(engine) => engine,
    };
    let schema = build_feature_schema(cfg);
    let ghost windows = widened(cfg.windows_seconds@);
    let ghost max_window = max_window_of(cfg.windows_seconds@);
    let mut rows: Vec<WarmFrame> = Vec::new();
    let mut i: usize = 0;
    assert(warm_views(rows@) =~= Seq::<WarmFrameView>::empty());
    while i < points.len()
        invariant
            i <= points@.len(),
            crate::features::request_error(*req) is None,
            crate::features::config_error(cfg) is None,
            engine.wf(),
            engine.req == *req,
            engine.gap_policy == cfg.gap_policy,
            engine.windows@ == windows,
            engine.state.max_window == max_window,
            windows == widened(cfg.windows_seconds@),
            max_window == max_window_of(cfg.windows_seconds@),
            run_prefix(cfg.gap_policy, *req, windows, max_window, points@, i as nat) == Ok::<
                (EngineModel, Seq<WarmFrameView>),
                FeatureErrorView,
            >((engine@, warm_views(rows@))),
        decreases points@.len() - i,
    {
        let ghost before = warm_views(rows@);
        match engine.push_point(points[i]) {
            Err(e) => {
                proof {
                    lemma_run_prefix_error_stable(
                        cfg.gap_policy,
                        *req,
                        windows,
                        max_window,
                        points@,
                        (i + 1) as nat,
                        points@.len(),
                    );
                }
                return Err(e);
            },
            Ok(emitted) => {
                match emitted {
                    Some(w) => {
                        rows.push(w);
                        assert(warm_views(rows@) =~= before.push(w@));
                    },
                    None => {},
                }
            },
        }
        i = i + 1;
    }
    let ghost before = warm_views(rows@);
    match engine.finish() {
        Err(e) => Err(e),
        Ok((emitted, report)) => {
            match emitted {
                Some(w) => {
                    rows.push(w);
                    assert(warm_views(rows@) =~= before.push(w@));
                },
                None => {},
            }
            Ok((schema, rows, report))
        },
    }
}

/// The transform as training uses it: the same as [`transform_store_range`].
pub fn transform_store_range_for_training(
    points: &Vec<StorePoint>,
    req: &FeatureTransformRequest,
    cfg: &FeatureTransformConfig,
) -> (r: Result<(FeatureSchema, Vec<WarmFrame>, FeatureTransformReport), FeatureError>)
    ensures
        transform_result_view(r) == transform_spec(*req, cfg, points@),
{
    transform_store_range(points, req, cfg)
}

/// The transform as a cold start at run time uses it: the same as
/// [`transform_store_range`].
pub fn transform_store_range_for_runtime_cold_start(
    points: &Vec<StorePoint>,
    req: &FeatureTransformRequest,
    cfg: &FeatureTransformConfig,
) -> (r: Result<(FeatureSchema, Vec<WarmFrame>, FeatureTransformReport), FeatureError>)
    ensures
        transform_result_view(r) == transform_spec(*req, cfg, points@),
{
    transform_store_range(points, req, cfg)
}

} // verus!

verus! {

/// A frame in which exactly the symbol at position `k` is absent.
pub open spec fn only_missing(points: Seq<Option<KlinePoint>>, k: int) -> bool {
    &&& points.len() == 4
    &&& 0 <= k < 4
    &&& points[k] is None
    &&& forall|i: int| 0 <= i < 4 && i != k ==> points[i] is Some
}

/// Whether a frame at `ts` follows what came before without a gap: it is
/// one step after the last accepted frame, or opens the request.
pub open spec fn continues(req: FeatureTransformRequest, carried: EngineCore, ts: i64) -> bool {
    match carried.last_seen_ts {
        Some(prev) => ts == prev + 1000,
        None => ts == req.start_ts_ms_utc,
    }
}

/// Under the strict policy, a frame that continues the stream and lacks
/// exactly one symbol is refused as incomplete, naming that symbol alone.
pub proof fn lemma_strict_refuses_incomplete_frame(
    req: FeatureTransformRequest,
    windows: Seq<u64>,
    max_window: u64,
    frame: FrameView,
    carried: EngineCore,
    k: int,
)
    requires
        req.start_ts_ms_utc <= frame.ts_ms_utc < req.end_ts_ms_utc_exclusive,
        continues(req, carried, frame.ts_ms_utc),
        only_missing(frame.points, k),
    ensures
        frame_outcome(GapPolicy::Strict, req, windows, max_window, frame, carried) == Err::<
            (EngineCore, Option<WarmFrameView>),
            FeatureErrorView,
        >(
            FeatureErrorView::IncompleteFrame {
                ts_ms_utc: frame.ts_ms_utc,
                missing_symbols: seq![symbol_code_upper(k)],
            },
        ),
{
    reveal_with_fuel(missing_codes_upto, 5);
    assert(missing_codes(frame.points) =~= seq![symbol_code_upper(k)]);
    assert(!frame_complete(frame.points));
}

/// Under the strict policy, a frame that comes later than one step after the
/// last accepted frame is refused as a continuity gap, naming the timestamp
/// that was expected, the timestamp that came, and the number of steps
/// between them.
pub proof fn lemma_strict_refuses_timestamp_skip(
    req: FeatureTransformRequest,
    windows: Seq<u64>,
    max_window: u64,
    frame: FrameView,
    carried: EngineCore,
    prev: i64,
)
    requires
        req.start_ts_ms_utc <= frame.ts_ms_utc < req.end_ts_ms_utc_exclusive,
        carried.last_seen_ts == Some(prev),
        prev + 1000 < frame.ts_ms_utc,
    ensures
        frame_outcome(GapPolicy::Strict, req, windows, max_window, frame, carried) == Err::<
            (EngineCore, Option<WarmFrameView>),
            FeatureErrorView,
        >(
            FeatureErrorView::ContinuityGap {
                expected_next_ts_ms_utc: (prev + 1000) as i64,
                actual_ts_ms_utc: frame.ts_ms_utc,
                missing_points: ((frame.ts_ms_utc - (prev + 1000)) / 1000) as u64,
            },
        ),
{
}

/// Under the strict policy, the first frame of a stream that starts after
/// the request does is refused as a continuity gap from the request's start.
pub proof fn lemma_strict_refuses_late_start(
    req: FeatureTransformRequest,
    windows: Seq<u64>,
    max_window: u64,
    frame: FrameView,
    carried: EngineCore,
)
    requires
        req.start_ts_ms_utc < frame.ts_ms_utc < req.end_ts_ms_utc_exclusive,
        carried.last_seen_ts is None,
    ensures
        frame_outcome(GapPolicy::Strict, req, windows, max_window, frame, carried) == Err::<
            (EngineCore, Option<WarmFrameView>),
            FeatureErrorView,
        >(
            FeatureErrorView::ContinuityGap {
                expected_next_ts_ms_utc: req.start_ts_ms_utc,
                actual_ts_ms_utc: frame.ts_ms_utc,
                missing_points: ((frame.ts_ms_utc - req.start_ts_ms_utc) / 1000) as u64,
            },
        ),
{
}

/// Histories of equal length within the capacity.
pub open spec fn histories_level(histories: Seq<Seq<KlinePoint>>, depth: nat, max_window: u64) -> bool {
    &&& histories.len() == 4
    &&& depth <= max_window + 1
    &&& forall|i: int| 0 <= i < 4 ==> (#[trigger] histories[i]).len() == depth
}

/// Warm-up takes exactly the largest window: with every window between one
/// and the largest, a complete frame is emitted exactly when, before it,
/// the histories already held as many frames as the largest window; and
/// the histories never outgrow their capacity.
pub proof fn lemma_warm_after_max_window_frames(
    histories: Seq<Seq<KlinePoint>>,
    depth: nat,
    points: Seq<Option<KlinePoint>>,
    windows: Seq<u64>,
    max_window: u64,
)
    requires
        histories_level(histories, depth, max_window),
        max_window >= 1,
        forall|k: int| 0 <= k < windows.len() ==> 1 <= #[trigger] windows[k] <= max_window,
    ensures
        histories_warm(push_frame(histories, points, max_window), windows, max_window) <==> depth
            >= max_window,
        histories_level(
            push_frame(histories, points, max_window),
            if depth >= max_window {
                (max_window + 1) as nat
            } else {
                depth + 1
            },
            max_window,
        ),
{
    let pushed = push_frame(histories, points, max_window);
    assert forall|i: int| 0 <= i < 4 implies (#[trigger] pushed[i]).len() == if depth
        >= max_window {
        (max_window + 1) as nat
    } else {
        depth + 1
    } by {
        assert(histories[i].len() == depth);
    }
    if depth >= max_window {
        assert forall|i: int| 0 <= i < 4 implies history_warm(
            #[trigger] pushed[i],
            windows,
            max_window,
        ) by {}
    } else {
        assert(!history_warm(pushed[0], windows, max_window));
    }
}

/// The largest window is at least one and at least every window.
pub proof fn lemma_max_window_bounds(windows: Seq<u32>, n: nat)
    requires
        n <= windows.len(),
    ensures
        1 <= max_window_upto(windows, n) <= u32::MAX,
        forall|k: int| 0 <= k < n ==> #[trigger] windows[k] <= max_window_upto(windows, n),
    decreases n,
{
    if n > 0 {
        lemma_max_window_bounds(windows, (n - 1) as nat);
    }
}

/// Under the lenient policy no frame that comes in order is fatal: a gap or
/// an incomplete frame is reported and the stream goes on.
pub proof fn lemma_report_and_skip_never_fails(
    req: FeatureTransformRequest,
    windows: Seq<u64>,
    max_window: u64,
    frame: FrameView,
    carried: EngineCore,
)
    requires
        later_than_last(carried, frame.ts_ms_utc),
    ensures
        frame_outcome(GapPolicy::ReportAndSkip, req, windows, max_window, frame, carried) is Ok,
        tail_outcome(GapPolicy::ReportAndSkip, req, carried) is Ok,
{
}

/// Under the strict policy, a stream that ends before the request does is
/// refused as a continuity gap, naming the timestamp that was expected after
/// the last accepted frame, the end of the request, and the number of steps
/// between them.
pub proof fn lemma_strict_refuses_early_end(req: FeatureTransformRequest, carried: EngineCore, last: i64)
    requires
        carried.last_seen_ts == Some(last),
        last + 1000 < req.end_ts_ms_utc_exclusive,
    ensures
        tail_outcome(GapPolicy::Strict, req, carried) == Err::<EngineCore, FeatureErrorView>(
            FeatureErrorView::ContinuityGap {
                expected_next_ts_ms_utc: (last + 1000) as i64,
                actual_ts_ms_utc: req.end_ts_ms_utc_exclusive,
                missing_points: ((req.end_ts_ms_utc_exclusive - (last + 1000)) / 1000) as u64,
            },
        ),
{
}

/// Under the lenient policy, an incomplete frame that continues the stream
/// emits nothing, drops all history, so that warm-up starts anew, counts its
/// step as skipped, lists the step's range while the list is short of its
/// cap, and leaves a first complaint in the report.
pub proof fn lemma_report_and_skip_resets_on_incomplete_frame(
    req: FeatureTransformRequest,
    windows: Seq<u64>,
    max_window: u64,
    frame: FrameView,
    carried: EngineCore,
)
    requires
        req.start_ts_ms_utc <= frame.ts_ms_utc < req.end_ts_ms_utc_exclusive,
        frame.ts_ms_utc + 1000 <= i64::MAX,
        continues(req, carried, frame.ts_ms_utc),
        !frame_complete(frame.points),
    ensures
        ({
            let outcome = frame_outcome(
                GapPolicy::ReportAndSkip,
                req,
                windows,
                max_window,
                frame,
                carried,
            );
            &&& outcome is Ok
            &&& outcome->Ok_0.1 is None
            &&& outcome->Ok_0.0.histories == empty_histories()
            &&& outcome->Ok_0.0.last_seen_ts == Some(frame.ts_ms_utc)
            &&& outcome->Ok_0.0.report.first_error is Some
            &&& carried.report.first_error is None ==> outcome->Ok_0.0.report.first_error == Some(
                incomplete_message(frame.ts_ms_utc),
            )
            &&& carried.report.skipped_points < u64::MAX ==> outcome->Ok_0.0.report.skipped_points
                == carried.report.skipped_points + 1
            &&& carried.report.gap_ranges.len() < MAX_REPORTED_GAP_RANGES
                ==> outcome->Ok_0.0.report.gap_ranges == carried.report.gap_ranges.push(
                (frame.ts_ms_utc, (frame.ts_ms_utc + 1000) as i64),
            )
            &&& outcome->Ok_0.0.report.gap_ranges.len() <= MAX_REPORTED_GAP_RANGES
                || outcome->Ok_0.0.report.gap_ranges == carried.report.gap_ranges
        }),
{
}

} // verus!
