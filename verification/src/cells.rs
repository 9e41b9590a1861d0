//! What each value of a feature row is taken from. The statistics are
//! logarithms and deviations of real numbers; the library names, for every
//! column, the statistic and the stored numbers it is taken over, in the
//! order of the schema's columns. Numbers are carried as bit patterns.

use vstd::prelude::*;
use crate::calendar::utc_in_range;
use crate::features::{
    lemma_windows_error_none, seconds_of_week_spec, time_of_week_seconds, FeatureError,
    FeatureErrorView, FeatureTransformConfig, FeatureTransformRequest, GapPolicy,
};
use crate::schema::{
    family_names, schema_names, symbol_code, symbol_names, symbols_names_upto,
    window_column_name,
};
use crate::transform::{
    finish_outcome, frame_outcome, max_window_of, point_outcome, run_prefix, transform_outcome,
    widened, EngineCore, FrameView, KlinePoint, StorePoint, WarmFrame, WarmFrameView,
};

verus! {

/// One of the numbers of a point.
#[derive(Debug, Clone, Copy, PartialEq, Eq, Structural)]
pub enum PointField {
    High,
    Low,
    Close,
    QuoteVolume,
}

/// One of the families of statistics that are taken over a window.
#[derive(Debug, Clone, Copy, PartialEq, Eq, Structural)]
pub enum CellFamily {
    Return,
    Range,
    Deviation,
    QuoteVolume,
}

/// The statistic of one column and the numbers it is taken over, oldest
/// first.
#[derive(Debug, Clone, PartialEq, Eq)]
pub enum FeatureCell {
    /// The logarithm of a close over an earlier close.
    LogReturn { close: u64, earlier_close: u64 },
    /// The logarithm of the highest high over the lowest low.
    LogRange { highs: Vec<u64>, lows: Vec<u64> },
    /// The population standard deviation of the one-step logarithmic
    /// returns between consecutive closes.
    ReturnDeviation { closes: Vec<u64> },
    /// The logarithm of one plus the sum of the quote volumes.
    LogQuoteVolume { quote_volumes: Vec<u64> },
    /// The sine of the angle of the second of the week.
    TimeOfWeekSine { second_of_week: u32 },
    /// The cosine of the angle of the second of the week.
    TimeOfWeekCosine { second_of_week: u32 },
}

/// Mathematical content of a [`FeatureCell`].
pub enum FeatureCellView {
    LogReturn { close: u64, earlier_close: u64 },
    LogRange { highs: Seq<u64>, lows: Seq<u64> },
    ReturnDeviation { closes: Seq<u64> },
    LogQuoteVolume { quote_volumes: Seq<u64> },
    TimeOfWeekSine { second_of_week: u32 },
    TimeOfWeekCosine { second_of_week: u32 },
}

impl View for FeatureCell {
    type V = FeatureCellView;

    open spec fn view(&self) -> FeatureCellView {
        match *self {
            FeatureCell::LogReturn { close, earlier_close } => FeatureCellView::LogReturn {
                close,
                earlier_close,
            },
            FeatureCell::LogRange { highs, lows } => FeatureCellView::LogRange {
                highs: highs@,
                lows: lows@,
            },
            FeatureCell::ReturnDeviation { closes } => FeatureCellView::ReturnDeviation {
                closes: closes@,
            },
            FeatureCell::LogQuoteVolume { quote_volumes } => FeatureCellView::LogQuoteVolume {
                quote_volumes: quote_volumes@,
            },
            FeatureCell::TimeOfWeekSine { second_of_week } => FeatureCellView::TimeOfWeekSine {
                second_of_week,
            },
            FeatureCell::TimeOfWeekCosine { second_of_week } => FeatureCellView::TimeOfWeekCosine {
                second_of_week,
            },
        }
    }
}

pub open spec fn cell_views(cells: Seq<FeatureCell>) -> Seq<FeatureCellView> {
    Seq::new(cells.len(), |i: int| cells[i]@)
}

pub open spec fn field_of(p: KlinePoint, field: PointField) -> u64 {
    match field {
        PointField::High => p.high,
        PointField::Low => p.low,
        PointField::Close => p.close,
        PointField::QuoteVolume => p.quote_asset_volume,
    }
}

/// One number of each of the last `count` points of a history, oldest
/// first.
pub open spec fn last_values_spec(history: Seq<KlinePoint>, count: int, field: PointField) -> Seq<
    u64,
> {
    Seq::new(count as nat, |i: int| field_of(history[history.len() - count + i], field))
}

/// The statistic of one family over one window of a history that ends at
/// the row's timestamp: the return from the close a window ago to the last
/// close; the range of the window's highs and lows; the deviation of the
/// window's one-step returns, which lie between the window's closes and the
/// one before them; the volume of the window.
pub open spec fn family_cell(history: Seq<KlinePoint>, family: CellFamily, window: u32) -> FeatureCellView {
    match family {
        CellFamily::Return => FeatureCellView::LogReturn {
            close: history[history.len() - 1].close,
            earlier_close: history[history.len() - 1 - window].close,
        },
        CellFamily::Range => FeatureCellView::LogRange {
            highs: last_values_spec(history, window as int, PointField::High),
            lows: last_values_spec(history, window as int, PointField::Low),
        },
        CellFamily::Deviation => FeatureCellView::ReturnDeviation {
            closes: last_values_spec(history, window + 1, PointField::Close),
        },
        CellFamily::QuoteVolume => FeatureCellView::LogQuoteVolume {
            quote_volumes: last_values_spec(history, window as int, PointField::QuoteVolume),
        },
    }
}

/// The statistics of one family, one per window, in configuration order.
pub open spec fn family_cells(history: Seq<KlinePoint>, family: CellFamily, windows: Seq<u32>) -> Seq<
    FeatureCellView,
> {
    Seq::new(windows.len(), |k: int| family_cell(history, family, windows[k]))
}

/// The statistics of one symbol: the one-step return, then the returns,
/// ranges, deviations and volumes over the windows.
pub open spec fn symbol_cells(history: Seq<KlinePoint>, windows: Seq<u32>) -> Seq<FeatureCellView> {
    seq![family_cell(history, CellFamily::Return, 1)] + family_cells(
        history,
        CellFamily::Return,
        windows,
    ) + family_cells(history, CellFamily::Range, windows) + family_cells(
        history,
        CellFamily::Deviation,
        windows,
    ) + family_cells(history, CellFamily::QuoteVolume, windows)
}

/// The statistics of the first `n` symbols.
pub open spec fn symbols_cells_upto(
    histories: Seq<Seq<KlinePoint>>,
    windows: Seq<u32>,
    n: nat,
) -> Seq<FeatureCellView>
    decreases n,
{
    if n == 0 {
        Seq::empty()
    } else {
        symbols_cells_upto(histories, windows, (n - 1) as nat) + symbol_cells(
            histories[n - 1],
            windows,
        )
    }
}

/// The statistics of a frame: those of the four symbols in order, then the
/// sine and the cosine of the time of the week.
pub open spec fn frame_cells(frame: WarmFrameView, windows: Seq<u32>) -> Seq<FeatureCellView> {
    let second = seconds_of_week_spec(frame.ts_ms_utc as int) as u32;
    symbols_cells_upto(frame.windows, windows, 4) + seq![
        FeatureCellView::TimeOfWeekSine { second_of_week: second },
        FeatureCellView::TimeOfWeekCosine { second_of_week: second },
    ]
}

/// Whether a history reaches back over every window, and over one step.
pub open spec fn history_fits(history: Seq<KlinePoint>, windows: Seq<u32>) -> bool {
    &&& history.len() >= 2
    &&& forall|k: int| 0 <= k < windows.len() ==> 1 <= #[trigger] windows[k] < history.len()
}

/// Whether a frame holds four histories that reach back over every window.
pub open spec fn frame_fits(frame: WarmFrameView, windows: Seq<u32>) -> bool {
    &&& frame.windows.len() == 4
    &&& forall|i: int| 0 <= i < 4 ==> history_fits(#[trigger] frame.windows[i], windows)
}

fn point_field(p: &KlinePoint, field: PointField) -> (v: u64)
    ensures
        v == field_of(*p, field),
{
    match field {
        PointField::High => p.high,
        PointField::Low => p.low,
        PointField::Close => p.close,
        PointField::QuoteVolume => p.quote_asset_volume,
    }
}

fn last_values(history: &Vec<KlinePoint>, count: usize, field: PointField) -> (out: Vec<u64>)
    requires
        count <= history@.len(),
    ensures
        out@ == last_values_spec(history@, count as int, field),
{
    let n = history.len();
    let mut out: Vec<u64> = Vec::new();
    let mut i: usize = 0;
    while i < count
        invariant
            i <= count <= n,
            n == history@.len(),
            out@.len() == i,
            forall|j: int| 0 <= j < i ==> out@[j] == field_of(history@[n - count + j], field),
        decreases count - i,
    {
        out.push(point_field(&history[n - count + i], field));
        i = i + 1;
    }
    assert(out@ =~= last_values_spec(history@, count as int, field));
    out
}

fn make_cell(history: &Vec<KlinePoint>, family: CellFamily, window: u32) -> (cell: FeatureCell)
    requires
        1 <= window < history@.len(),
    ensures
        cell@ == family_cell(history@, family, window),
{
    let n = history.len();
    let w = window as usize;
    match family {
        CellFamily::Return => FeatureCell::LogReturn {
            close: history[n - 1].close,
            earlier_close: history[n - 1 - w].close,
        },
        CellFamily::Range => FeatureCell::LogRange {
            highs: last_values(history, w, PointField::High),
            lows: last_values(history, w, PointField::Low),
        },
        CellFamily::Deviation => FeatureCell::ReturnDeviation {
            closes: last_values(history, w + 1, PointField::Close),
        },
        CellFamily::QuoteVolume => FeatureCell::LogQuoteVolume {
            quote_volumes: last_values(history, w, PointField::QuoteVolume),
        },
    }
}

fn push_cell(cells: &mut Vec<FeatureCell>, cell: FeatureCell)
    ensures
        cell_views(final(cells)@) == cell_views(old(cells)@).push(cell@),
{
    cells.push(cell);
    assert(cell_views(cells@) =~= cell_views(old(cells)@).push(cell@));
}

fn push_family_cells(
    cells: &mut Vec<FeatureCell>,
    history: &Vec<KlinePoint>,
    family: CellFamily,
    windows: &Vec<u32>,
)
    requires
        history_fits(history@, windows@),
    ensures
        cell_views(final(cells)@) == cell_views(old(cells)@) + family_cells(
            history@,
            family,
            windows@,
        ),
{
    let ghost start = cell_views(cells@);
    let ghost all = family_cells(history@, family, windows@);
    let mut k: usize = 0;
    assert(cell_views(cells@) =~= start + all.take(0));
    while k < windows.len()
        invariant
            k <= windows@.len(),
            history_fits(history@, windows@),
            all == family_cells(history@, family, windows@),
            cell_views(cells@) == start + all.take(k as int),
        decreases windows@.len() - k,
    {
        let cell = make_cell(history, family, windows[k]);
        push_cell(cells, cell);
        assert(all.take(k + 1) =~= all.take(k as int).push(all[k as int]));
        assert(cell_views(cells@) =~= start + all.take(k + 1));
        k = k + 1;
    }
    assert(all.take(windows@.len() as int) =~= all);
}

fn push_symbol_cells(cells: &mut Vec<FeatureCell>, history: &Vec<KlinePoint>, windows: &Vec<u32>)
    requires
        history_fits(history@, windows@),
    ensures
        cell_views(final(cells)@) == cell_views(old(cells)@) + symbol_cells(history@, windows@),
{
    let ghost start = cell_views(cells@);
    let one_step = make_cell(history, CellFamily::Return, 1);
    push_cell(cells, one_step);
    push_family_cells(cells, history, CellFamily::Return, windows);
    push_family_cells(cells, history, CellFamily::Range, windows);
    push_family_cells(cells, history, CellFamily::Deviation, windows);
    push_family_cells(cells, history, CellFamily::QuoteVolume, windows);
    assert(cell_views(cells@) =~= start + symbol_cells(history@, windows@));
}

fn fits_history(history: &Vec<KlinePoint>, windows: &Vec<u32>) -> (r: bool)
    ensures
        r == history_fits(history@, windows@),
{
    if history.len() < 2 {
        return false;
    }
    let mut k: usize = 0;
    while k < windows.len()
        invariant
            k <= windows@.len(),
            forall|j: int| 0 <= j < k ==> 1 <= #[trigger] windows@[j] < history@.len(),
        decreases windows@.len() - k,
    {
        if windows[k] < 1 || windows[k] as usize >= history.len() {
            assert(!(1 <= windows@[k as int] < history@.len()));
            return false;
        }
        k = k + 1;
    }
    true
}

/// Whether a frame holds four histories that reach back over every window.
pub fn fits_windows(frame: &WarmFrame, windows: &Vec<u32>) -> (r: bool)
    ensures
        r == frame_fits(frame@, windows@),
{
    if frame.windows.len() != 4 {
        return false;
    }
    let mut i: usize = 0;
    while i < 4
        invariant
            i <= 4,
            frame.windows@.len() == 4,
            forall|j: int| 0 <= j < i ==> history_fits(#[trigger] frame@.windows[j], windows@),
        decreases 4 - i,
    {
        if !fits_history(&frame.windows[i], windows) {
            assert(!history_fits(frame@.windows[i as int], windows@));
            return false;
        }
        i = i + 1;
    }
    true
}

/// Names, for every column of the schema in order, the statistic of a warm
/// frame and the numbers it is taken over. A frame at a timestamp on no date
/// has no time of the week and is refused.
pub fn feature_cells(frame: &WarmFrame, windows: &Vec<u32>) -> (r: Result<
    Vec<FeatureCell>,
    FeatureError,
>)
    requires
        frame_fits(frame@, windows@),
    ensures
        match r {
            Ok(cells) => utc_in_range(frame.ts_ms_utc as int) && cell_views(cells@) == frame_cells(
                frame@,
                windows@,
            ),
            Err(e) => !utc_in_range(frame.ts_ms_utc as int) && e@
                == FeatureErrorView::InvalidTimestamp(frame.ts_ms_utc),
        },
{
    let second = match time_of_week_seconds(frame.ts_ms_utc) {
        Ok(second) => second,
        Err(e) => {
            return Err(e);
        },
    };
    let mut cells: Vec<FeatureCell> = Vec::new();
    let mut i: usize = 0;
    assert(cell_views(cells@) =~= symbols_cells_upto(frame@.windows, windows@, 0));
    while i < 4
        invariant
            i <= 4,
            frame_fits(frame@, windows@),
            cell_views(cells@) == symbols_cells_upto(frame@.windows, windows@, i as nat),
        decreases 4 - i,
    {
        assert(history_fits(frame@.windows[i as int], windows@));
        assert(frame@.windows[i as int] == frame.windows@[i as int]@);
        push_symbol_cells(&mut cells, &frame.windows[i], windows);
        i = i + 1;
    }
    push_cell(&mut cells, FeatureCell::TimeOfWeekSine { second_of_week: second });
    push_cell(&mut cells, FeatureCell::TimeOfWeekCosine { second_of_week: second });
    assert(cell_views(cells@) =~= frame_cells(frame@, windows@));
    Ok(cells)
}

/// Whether every row holds four histories that reach back over every
/// window.
pub open spec fn rows_fit(rows: Seq<WarmFrameView>, windows: Seq<u32>) -> bool {
    forall|i: int| 0 <= i < rows.len() ==> frame_fits(#[trigger] rows[i], windows)
}

/// A frame that is emitted holds four histories that reach back over every
/// window.
proof fn lemma_emitted_frame_fits(
    policy: GapPolicy,
    req: FeatureTransformRequest,
    windows: Seq<u32>,
    max_window: u64,
    frame: FrameView,
    c: EngineCore,
)
    requires
        forall|k: int| 0 <= k < windows.len() ==> #[trigger] windows[k] >= 1,
        frame_outcome(policy, req, widened(windows), max_window, frame, c) is Ok,
        frame_outcome(policy, req, widened(windows), max_window, frame, c)->Ok_0.1 is Some,
    ensures
        frame_fits(
            frame_outcome(policy, req, widened(windows), max_window, frame, c)->Ok_0.1->Some_0,
            windows,
        ),
{
    let wide = widened(windows);
    let w = frame_outcome(policy, req, wide, max_window, frame, c)->Ok_0.1->Some_0;
    assert forall|i: int| 0 <= i < 4 implies history_fits(#[trigger] w.windows[i], windows) by {
        assert(crate::transform::history_warm(w.windows[i], wide, max_window));
        assert forall|k: int| 0 <= k < windows.len() implies 1 <= #[trigger] windows[k]
            < w.windows[i].len() by {
            assert(w.windows[i].len() > wide[k]);
        }
    }
}

proof fn lemma_prefix_rows_fit(
    policy: GapPolicy,
    req: FeatureTransformRequest,
    windows: Seq<u32>,
    max_window: u64,
    points: Seq<StorePoint>,
    n: nat,
)
    requires
        forall|k: int| 0 <= k < windows.len() ==> #[trigger] windows[k] >= 1,
        run_prefix(policy, req, widened(windows), max_window, points, n) is Ok,
    ensures
        rows_fit(run_prefix(policy, req, widened(windows), max_window, points, n)->Ok_0.1, windows),
    decreases n,
{
    if n > 0 {
        let wide = widened(windows);
        lemma_prefix_rows_fit(policy, req, windows, max_window, points, (n - 1) as nat);
        let prev = run_prefix(policy, req, wide, max_window, points, (n - 1) as nat);
        let m = prev->Ok_0.0;
        let rows = prev->Ok_0.1;
        let step = point_outcome(policy, req, wide, max_window, points[n - 1], m);
        let after = run_prefix(policy, req, wide, max_window, points, n)->Ok_0.1;
        match step->Ok_0.1 {
            Some(w) => {
                let frame = m.current_frame->Some_0;
                assert(frame_outcome(policy, req, wide, max_window, frame, m.carried)->Ok_0.1
                    == Some(w));
                lemma_emitted_frame_fits(policy, req, windows, max_window, frame, m.carried);
                assert(after == rows.push(w));
                assert forall|i: int| 0 <= i < after.len() implies frame_fits(
                    #[trigger] after[i],
                    windows,
                ) by {
                    if i < rows.len() {
                        assert(after[i] == rows[i]);
                    }
                }
            },
            None => {
                assert(after == rows);
            },
        }
    }
}

/// Every row of a transform holds four histories that reach back over every
/// configured window, so that each of its statistics can be taken.
pub proof fn lemma_rows_fit_windows(
    req: FeatureTransformRequest,
    cfg: &FeatureTransformConfig,
    points: Seq<StorePoint>,
)
    requires
        transform_outcome(req, cfg, points) is Ok,
    ensures
        rows_fit(transform_outcome(req, cfg, points)->Ok_0.0, cfg.windows_seconds@),
{
    let windows = cfg.windows_seconds@;
    let wide = widened(windows);
    let max_window = max_window_of(windows);
    lemma_windows_error_none(windows, windows.len());
    lemma_prefix_rows_fit(cfg.gap_policy, req, windows, max_window, points, points.len());
    let run = run_prefix(cfg.gap_policy, req, wide, max_window, points, points.len());
    let m = run->Ok_0.0;
    let rows = run->Ok_0.1;
    let done = finish_outcome(cfg.gap_policy, req, wide, max_window, m);
    let last = transform_outcome(req, cfg, points)->Ok_0.0;
    match done->Ok_0.1 {
        Some(w) => {
            let frame = m.current_frame->Some_0;
            assert(frame_outcome(cfg.gap_policy, req, wide, max_window, frame, m.carried)->Ok_0.1
                == Some(w));
            lemma_emitted_frame_fits(cfg.gap_policy, req, windows, max_window, frame, m.carried);
            assert(last == rows.push(w));
            assert forall|i: int| 0 <= i < last.len() implies frame_fits(
                #[trigger] last[i],
                windows,
            ) by {
                if i < rows.len() {
                    assert(last[i] == rows[i]);
                }
            }
        },
        None => {
            assert(last == rows);
        },
    }
}

/// The word by which the columns of a family are named.
pub open spec fn family_word(family: CellFamily) -> Seq<char> {
    match family {
        CellFamily::Return => "ret"@,
        CellFamily::Range => "range"@,
        CellFamily::Deviation => "vol"@,
        CellFamily::QuoteVolume => "quote_vol"@,
    }
}

/// The place of a family among the families of a symbol.
pub open spec fn family_place(family: CellFamily) -> int {
    match family {
        CellFamily::Return => 0,
        CellFamily::Range => 1,
        CellFamily::Deviation => 2,
        CellFamily::QuoteVolume => 3,
    }
}

/// The number of columns of one symbol.
pub open spec fn block_len(windows: Seq<u32>) -> int {
    1 + 4 * (windows.len() as int)
}

/// The place, within the columns of a symbol, of a family's column over the
/// window numbered `k`.
pub open spec fn place_in_block(windows: Seq<u32>, family: CellFamily, k: int) -> int {
    1 + family_place(family) * windows.len() + k
}

/// Within a symbol, the statistics stand where the columns of their names
/// stand.
proof fn lemma_symbol_block(
    history: Seq<KlinePoint>,
    code: Seq<char>,
    windows: Seq<u32>,
    family: CellFamily,
    k: int,
)
    requires
        0 <= k < windows.len(),
    ensures
        symbol_cells(history, windows).len() == block_len(windows),
        symbol_names(code, windows).len() == block_len(windows),
        symbol_cells(history, windows)[0] == family_cell(history, CellFamily::Return, 1),
        symbol_names(code, windows)[0] == code + "_ret_1s"@,
        symbol_cells(history, windows)[place_in_block(windows, family, k)] == family_cell(
            history,
            family,
            windows[k],
        ),
        symbol_names(code, windows)[place_in_block(windows, family, k)] == window_column_name(
            code,
            family_word(family),
            windows[k],
        ),
{
    let n = windows.len() as int;
    let c0 = seq![family_cell(history, CellFamily::Return, 1)];
    let c1 = family_cells(history, CellFamily::Return, windows);
    let c2 = family_cells(history, CellFamily::Range, windows);
    let c3 = family_cells(history, CellFamily::Deviation, windows);
    let c4 = family_cells(history, CellFamily::QuoteVolume, windows);
    let n0 = seq![code + "_ret_1s"@];
    let n1 = family_names(code, "ret"@, windows);
    let n2 = family_names(code, "range"@, windows);
    let n3 = family_names(code, "vol"@, windows);
    let n4 = family_names(code, "quote_vol"@, windows);
    let cells = symbol_cells(history, windows);
    let names = symbol_names(code, windows);
    assert(cells == c0 + c1 + c2 + c3 + c4);
    assert(names == n0 + n1 + n2 + n3 + n4);
    assert(cells[0] == c0[0]);
    assert(names[0] == n0[0]);
    match family {
        CellFamily::Return => {
            assert(cells[1 + k] == c1[k]);
            assert(names[1 + k] == n1[k]);
        },
        CellFamily::Range => {
            assert(cells[1 + n + k] == c2[k]);
            assert(names[1 + n + k] == n2[k]);
        },
        CellFamily::Deviation => {
            assert(cells[1 + 2 * n + k] == c3[k]);
            assert(names[1 + 2 * n + k] == n3[k]);
        },
        CellFamily::QuoteVolume => {
            assert(cells[1 + 3 * n + k] == c4[k]);
            assert(names[1 + 3 * n + k] == n4[k]);
        },
    }
}

/// The columns of each symbol follow those of the symbols before it.
proof fn lemma_blocks(histories: Seq<Seq<KlinePoint>>, windows: Seq<u32>, n: nat, symbol: int, j: int)
    requires
        0 <= symbol < n,
        0 <= j < block_len(windows),
    ensures
        symbols_cells_upto(histories, windows, n).len() == n * block_len(windows),
        symbols_names_upto(windows, n).len() == n * block_len(windows),
        0 <= symbol * block_len(windows) + j < n * block_len(windows),
        symbols_cells_upto(histories, windows, n)[symbol * block_len(windows) + j] == symbol_cells(
            histories[symbol],
            windows,
        )[j],
        symbols_names_upto(windows, n)[symbol * block_len(windows) + j] == symbol_names(
            symbol_code(symbol),
            windows,
        )[j],
    decreases n,
{
    let b = block_len(windows);
    lemma_blocks_len(histories, windows, n);
    lemma_blocks_len(histories, windows, (n - 1) as nat);
    assert((n - 1) * b + b == n * b) by (nonlinear_arith);
    assert(0 <= symbol * b && symbol * b + b <= n * b) by (nonlinear_arith)
        requires
            0 <= symbol < n,
            b >= 0,
    ;
    if symbol < n - 1 {
        lemma_blocks(histories, windows, (n - 1) as nat, symbol, j);
    } else {
        assert(symbol * b == (n - 1) * b);
    }
}

proof fn lemma_blocks_len(histories: Seq<Seq<KlinePoint>>, windows: Seq<u32>, n: nat)
    ensures
        symbols_cells_upto(histories, windows, n).len() == n * block_len(windows),
        symbols_names_upto(windows, n).len() == n * block_len(windows),
    decreases n,
{
    let b = block_len(windows);
    if n > 0 {
        lemma_blocks_len(histories, windows, (n - 1) as nat);
        assert(symbol_cells(histories[n - 1], windows).len() == b);
        assert(symbol_names(symbol_code(n - 1), windows).len() == b);
        assert((n - 1) * b + b == n * b) by (nonlinear_arith);
    } else {
        assert(0 * b == 0);
    }
}

/// The statistics of a frame follow the columns of the schema: there is one
/// for every column; the one-step return of each symbol stands where its
/// column stands, and so does the statistic of each family over each window;
/// the sine and the cosine of the time of the week stand last, as their
/// columns do.
pub proof fn lemma_cells_follow_columns(
    frame: WarmFrameView,
    windows: Seq<u32>,
    symbol: int,
    family: CellFamily,
    k: int,
)
    requires
        0 <= symbol < 4,
        0 <= k < windows.len(),
    ensures
        frame_cells(frame, windows).len() == schema_names(windows).len(),
        frame_cells(frame, windows).len() == 4 * block_len(windows) + 2,
        frame_cells(frame, windows)[symbol * block_len(windows)] == family_cell(
            frame.windows[symbol],
            CellFamily::Return,
            1,
        ),
        schema_names(windows)[symbol * block_len(windows)] == symbol_code(symbol) + "_ret_1s"@,
        frame_cells(frame, windows)[symbol * block_len(windows) + place_in_block(
            windows,
            family,
            k,
        )] == family_cell(frame.windows[symbol], family, windows[k]),
        schema_names(windows)[symbol * block_len(windows) + place_in_block(windows, family, k)]
            == window_column_name(symbol_code(symbol), family_word(family), windows[k]),
        frame_cells(frame, windows)[4 * block_len(windows)] is TimeOfWeekSine,
        schema_names(windows)[4 * block_len(windows)] == "tow_sin"@,
        frame_cells(frame, windows)[4 * block_len(windows) + 1] is TimeOfWeekCosine,
        schema_names(windows)[4 * block_len(windows) + 1] == "tow_cos"@,
{
    let b = block_len(windows);
    let place = place_in_block(windows, family, k);
    let cells = symbols_cells_upto(frame.windows, windows, 4);
    let names = symbols_names_upto(windows, 4);
    assert(0 <= place < b) by {
        match family {
            CellFamily::Return => {},
            CellFamily::Range => {},
            CellFamily::Deviation => {},
            CellFamily::QuoteVolume => {},
        }
    }
    lemma_symbol_block(frame.windows[symbol], symbol_code(symbol), windows, family, k);
    lemma_blocks(frame.windows, windows, 4, symbol, 0);
    lemma_blocks(frame.windows, windows, 4, symbol, place);
    assert(cells.len() == 4 * b);
    assert(names.len() == 4 * b);
    assert(frame_cells(frame, windows)[symbol * b] == cells[symbol * b]);
    assert(frame_cells(frame, windows)[symbol * b + place] == cells[symbol * b + place]);
    assert(schema_names(windows)[symbol * b] == names[symbol * b]);
    assert(schema_names(windows)[symbol * b + place] == names[symbol * b + place]);
}

} // verus!
