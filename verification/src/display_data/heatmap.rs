//! Heatmap display data: order-book rectangles and trade markers of one
//! viewport, ready to render.

use super::DisplayData;
use crate::footprint::kept;
use crate::market::{ChartBasis, ChartData, DepthLevel, DepthSnapshot, LodLevel, Price, Timeframe, Trade, ViewportBounds};
use vstd::prelude::*;

verus! {

/// An order-book level drawn over one time bucket.
#[derive(Clone, Copy, Debug, PartialEq, Eq, Structural)]
pub struct DepthRect {
    pub price_units: i64,
    pub time_start: u64,
    pub time_end: u64,
    pub quantity: u64,
    pub is_bid: bool,
}

/// A trade drawn as a marker.
#[derive(Clone, Copy, Debug, PartialEq, Eq, Structural)]
pub struct TradeMarker {
    pub time: u64,
    pub price_units: i64,
    pub quantity: u64,
    pub is_sell: bool,
}

/// Pre-computed heatmap display data.
#[derive(Debug)]
pub struct HeatmapDisplayData {
    /// Order-book rectangles ready to render.
    pub depth_rects: Vec<DepthRect>,
    /// Trade markers ready to render.
    pub trade_markers: Vec<TradeMarker>,
    /// Largest rectangle quantity, at least 1 (for color scaling).
    pub max_depth_qty: u64,
    /// Largest marker quantity, at least 1 (for sizing).
    pub max_trade_qty: u64,
    /// LOD level used.
    pub lod_level: LodLevel,
}

/// Mathematical value of a [`HeatmapDisplayData`].
pub struct HeatmapDisplayView {
    pub depth_rects: Seq<DepthRect>,
    pub trade_markers: Seq<TradeMarker>,
    pub max_depth_qty: u64,
    pub max_trade_qty: u64,
    pub lod_level: LodLevel,
}

impl View for HeatmapDisplayData {
    type V = HeatmapDisplayView;

    open spec fn view(&self) -> HeatmapDisplayView {
        HeatmapDisplayView {
            depth_rects: self.depth_rects@,
            trade_markers: self.trade_markers@,
            max_depth_qty: self.max_depth_qty,
            max_trade_qty: self.max_trade_qty,
            lod_level: self.lod_level,
        }
    }
}

/// Extra parameters for building heatmap display data.
#[derive(Clone, Copy, Debug)]
pub struct HeatmapParams {
    pub basis: ChartBasis,
    pub tick_size: Price,
    /// Smallest order size drawn (orders below it are not).
    pub order_size_filter: u64,
    /// Smallest trade size drawn (trades below it are not).
    pub trade_size_filter: u64,
    /// Most trade markers drawn.
    pub max_trade_markers: usize,
}

/// Length of a heatmap time bucket: the timeframe on time charts, one
/// second on tick charts.
pub open spec fn bucket_duration(basis: ChartBasis) -> u64 {
    match basis {
        ChartBasis::Time(tf) => tf.millis(),
        ChartBasis::Tick(_) => 1000,
    }
}

/// Start of the heatmap time bucket that holds `time`.
pub open spec fn bucket_time(time: u64, basis: ChartBasis) -> u64 {
    let d = bucket_duration(basis);
    ((time / d) * d) as u64
}

/// Start of the heatmap time bucket that holds `time`.
pub fn calculate_bucket_time(time: u64, basis: ChartBasis) -> (r: u64)
    ensures
        r == bucket_time(time, basis),
        r <= time,
{
    let interval = calculate_bucket_duration(basis);
    proof {
        vstd::arithmetic::div_mod::lemma_fundamental_div_mod(time as int, interval as int);
        assert((time / interval) * interval <= time) by (nonlinear_arith)
            requires
                time == interval * (time / interval) + time % interval,
                time % interval >= 0,
        ;
    }
    (time / interval) * interval
}

/// Length of a heatmap time bucket.
pub fn calculate_bucket_duration(basis: ChartBasis) -> (r: u64)
    ensures
        r == bucket_duration(basis),
        r > 0,
{
    match basis {
        ChartBasis::Time(timeframe) => timeframe.to_millis(),
        ChartBasis::Tick(_) => 1000,
    }
}

/// Rectangles of the first `k` of `levels` over the bucket starting at
/// `start`: the levels of at least the size filter whose price is in the viewport.
pub open spec fn level_rects(
    levels: Seq<DepthLevel>,
    k: nat,
    start: u64,
    duration: u64,
    filter: u64,
    bounds: ViewportBounds,
    is_bid: bool,
) -> Seq<DepthRect>
    decreases k,
{
    if k == 0 {
        Seq::empty()
    } else {
        let prev = level_rects(levels, (k - 1) as nat, start, duration, filter, bounds, is_bid);
        let l = levels[k - 1];
        if l.quantity >= filter && bounds.price_low <= l.price.units <= bounds.price_high {
            prev.push(
                DepthRect {
                    price_units: l.price.units,
                    time_start: start,
                    time_end: (start + duration) as u64,
                    quantity: l.quantity,
                    is_bid,
                },
            )
        } else {
            prev
        }
    }
}

/// Rectangles of one snapshot: its bids, then its asks.
pub open spec fn snapshot_rects(s: DepthSnapshot, params: HeatmapParams, bounds: ViewportBounds) -> Seq<DepthRect> {
    let start = bucket_time(s.time, params.basis);
    let d = bucket_duration(params.basis);
    level_rects(s.bids@, s.bids@.len(), start, d, params.order_size_filter, bounds, true)
        + level_rects(s.asks@, s.asks@.len(), start, d, params.order_size_filter, bounds, false)
}

/// Snapshot `s` at position `k` is drawn: kept by the decimation and in the
/// viewport's time range.
pub open spec fn snapshot_drawn(s: DepthSnapshot, k: int, dec: int, bounds: ViewportBounds) -> bool {
    kept(k, dec) && bounds.time_start <= s.time <= bounds.time_end
}

/// Rectangles of the first `k` snapshots.
pub open spec fn depth_rects_of(
    snaps: Seq<DepthSnapshot>,
    k: nat,
    dec: int,
    params: HeatmapParams,
    bounds: ViewportBounds,
) -> Seq<DepthRect>
    decreases k,
{
    if k == 0 {
        Seq::empty()
    } else {
        let prev = depth_rects_of(snaps, (k - 1) as nat, dec, params, bounds);
        if snapshot_drawn(snaps[k - 1], k - 1, dec, bounds) {
            prev + snapshot_rects(snaps[k - 1], params, bounds)
        } else {
            prev
        }
    }
}

/// All order-book rectangles of the source.
pub open spec fn all_depth_rects(source: &ChartData, lod: LodLevel, params: HeatmapParams, bounds: ViewportBounds) -> Seq<
    DepthRect,
> {
    match source.depth_snapshots {
        Some(snaps) => depth_rects_of(snaps@, snaps@.len(), lod.decimation() as int, params, bounds),
        None => Seq::empty(),
    }
}

/// The end of every drawn snapshot's bucket fits in a `u64`.
pub open spec fn depth_ok(source: &ChartData, lod: LodLevel, params: HeatmapParams, bounds: ViewportBounds) -> bool {
    match source.depth_snapshots {
        Some(snaps) => forall|k: int|
            0 <= k < snaps@.len() && snapshot_drawn(#[trigger] snaps@[k], k, lod.decimation() as int, bounds)
                ==> bucket_time(snaps@[k].time, params.basis) + bucket_duration(params.basis) <= u64::MAX,
        None => true,
    }
}

/// Trade `t` at position `k` gets a marker: kept by the decimation, in the
/// viewport and of at least the size filter.
pub open spec fn trade_drawn(t: Trade, k: int, dec: int, filter: u64, bounds: ViewportBounds) -> bool {
    &&& kept(k, dec)
    &&& bounds.time_start <= t.time <= bounds.time_end
    &&& bounds.price_low <= t.price.units <= bounds.price_high
    &&& t.quantity >= filter
}

/// Marker of trade `t`.
pub open spec fn marker_of(t: Trade) -> TradeMarker {
    TradeMarker { time: t.time, price_units: t.price.units, quantity: t.quantity, is_sell: !t.side.buying() }
}

/// Markers of the drawn trades among the first `k`.
pub open spec fn marker_candidates(trades: Seq<Trade>, k: nat, dec: int, filter: u64, bounds: ViewportBounds) -> Seq<
    TradeMarker,
>
    decreases k,
{
    if k == 0 {
        Seq::empty()
    } else {
        let prev = marker_candidates(trades, (k - 1) as nat, dec, filter, bounds);
        if trade_drawn(trades[k - 1], k - 1, dec, filter, bounds) {
            prev.push(marker_of(trades[k - 1]))
        } else {
            prev
        }
    }
}

/// At most `m` first items of `s`.
pub open spec fn take_upto<A>(s: Seq<A>, m: int) -> Seq<A> {
    if s.len() <= m {
        s
    } else {
        s.take(m)
    }
}

/// Most markers drawn at a level of detail.
pub open spec fn marker_budget(params: HeatmapParams, lod: LodLevel) -> int {
    if params.max_trade_markers <= lod.render_count() {
        params.max_trade_markers as int
    } else {
        lod.render_count() as int
    }
}

/// The trade markers: the first drawn trades, up to the budget.
pub open spec fn all_markers(source: &ChartData, lod: LodLevel, params: HeatmapParams, bounds: ViewportBounds) -> Seq<
    TradeMarker,
> {
    take_upto(
        marker_candidates(
            source.trades@,
            source.trades@.len(),
            lod.decimation() as int,
            params.trade_size_filter,
            bounds,
        ),
        marker_budget(params, lod),
    )
}

/// The largest of `qs`, and at least 1.
pub open spec fn max_or_one(qs: Seq<u64>) -> u64
    decreases qs.len(),
{
    if qs.len() == 0 {
        1
    } else {
        let m = max_or_one(qs.drop_last());
        if qs.last() > m {
            qs.last()
        } else {
            m
        }
    }
}

/// Candidates among fewer trades are a prefix of the candidates among more.
proof fn lemma_candidates_prefix(trades: Seq<Trade>, i: nat, n: nat, dec: int, filter: u64, bounds: ViewportBounds)
    requires
        i <= n,
    ensures
        marker_candidates(trades, i, dec, filter, bounds).len() <= marker_candidates(trades, n, dec, filter, bounds).len(),
        marker_candidates(trades, n, dec, filter, bounds).take(
            marker_candidates(trades, i, dec, filter, bounds).len() as int,
        ) == marker_candidates(trades, i, dec, filter, bounds),
    decreases n,
{
    let ci = marker_candidates(trades, i, dec, filter, bounds);
    let cn = marker_candidates(trades, n, dec, filter, bounds);
    if i == n {
        assert(cn.take(ci.len() as int) =~= ci);
    } else {
        lemma_candidates_prefix(trades, i, (n - 1) as nat, dec, filter, bounds);
        let cp = marker_candidates(trades, (n - 1) as nat, dec, filter, bounds);
        assert(cn.take(ci.len() as int) =~= cp.take(ci.len() as int));
    }
}

/// Rectangles of the first `k` levels of one side of a snapshot.
fn push_level_rects(
    rects: &mut Vec<DepthRect>,
    max_qty: &mut u64,
    levels: &Vec<DepthLevel>,
    start: u64,
    duration: u64,
    filter: u64,
    bounds: &ViewportBounds,
    is_bid: bool,
)
    requires
        start + duration <= u64::MAX,
        *old(max_qty) == max_or_one(old(rects)@.map_values(|r: DepthRect| r.quantity)),
    ensures
        final(rects)@ == old(rects)@ + level_rects(levels@, levels@.len(), start, duration, filter, *bounds, is_bid),
        *final(max_qty) == max_or_one(final(rects)@.map_values(|r: DepthRect| r.quantity)),
{
    let ghost base = rects@;
    let mut i: usize = 0;
    while i < levels.len()
        invariant
            i <= levels@.len(),
            start + duration <= u64::MAX,
            rects@ == base + level_rects(levels@, i as nat, start, duration, filter, *bounds, is_bid),
            *max_qty == max_or_one(rects@.map_values(|r: DepthRect| r.quantity)),
        decreases levels@.len() - i,
    {
        let l = levels[i];
        if l.quantity >= filter && bounds.price_low <= l.price.units && l.price.units <= bounds.price_high {
            let ghost before = rects@;
            rects.push(
                DepthRect {
                    price_units: l.price.units,
                    time_start: start,
                    time_end: start + duration,
                    quantity: l.quantity,
                    is_bid,
                },
            );
            if l.quantity > *max_qty {
                *max_qty = l.quantity;
            }
            proof {
                let qs = rects@.map_values(|r: DepthRect| r.quantity);
                assert(qs.drop_last() =~= before.map_values(|r: DepthRect| r.quantity));
                assert(rects@ =~= base + level_rects(levels@, (i + 1) as nat, start, duration, filter, *bounds, is_bid));
            }
        } else {
            proof {
                assert(rects@ =~= base + level_rects(levels@, (i + 1) as nat, start, duration, filter, *bounds, is_bid));
            }
        }
        i += 1;
    }
}

/// Order-book rectangles of the drawn snapshots, and their largest quantity.
fn build_depth_rects(
    source: &ChartData,
    bounds: &ViewportBounds,
    lod_level: LodLevel,
    params: &HeatmapParams,
) -> (r: (Vec<DepthRect>, u64))
    requires
        depth_ok(source, lod_level, *params, *bounds),
    ensures
        r.0@ == all_depth_rects(source, lod_level, *params, *bounds),
        r.1 == max_or_one(r.0@.map_values(|r: DepthRect| r.quantity)),
{
    let mut rects: Vec<DepthRect> = Vec::new();
    let mut max_qty: u64 = 1;
    proof {
        assert(rects@.map_values(|r: DepthRect| r.quantity) =~= Seq::<u64>::empty());
    }
    match &source.depth_snapshots {
        Some(snaps) => {
            let dec = lod_level.decimation_factor();
            let mut k: usize = 0;
            while k < snaps.len()
                invariant
                    k <= snaps@.len(),
                    source.depth_snapshots == Some(*snaps),
                    dec == lod_level.decimation(),
                    depth_ok(source, lod_level, *params, *bounds),
                    rects@ == depth_rects_of(snaps@, k as nat, dec as int, *params, *bounds),
                    max_qty == max_or_one(rects@.map_values(|r: DepthRect| r.quantity)),
                decreases snaps@.len() - k,
            {
                let snapshot = &snaps[k];
                let time = snapshot.time;
                let keep = dec <= 1 || k % dec == 0;
                if keep && bounds.time_start <= time && time <= bounds.time_end {
                    let start = calculate_bucket_time(time, params.basis);
                    let duration = calculate_bucket_duration(params.basis);
                    proof {
                        // The snapshot is drawn, so its bucket fits (`depth_ok`).
                        let v = (source.depth_snapshots->0)@;
                        assert(snapshot_drawn(v[k as int], k as int, lod_level.decimation() as int, *bounds));
                    }
                    let ghost before = rects@;
                    push_level_rects(
                        &mut rects,
                        &mut max_qty,
                        &snapshot.bids,
                        start,
                        duration,
                        params.order_size_filter,
                        bounds,
                        true,
                    );
                    push_level_rects(
                        &mut rects,
                        &mut max_qty,
                        &snapshot.asks,
                        start,
                        duration,
                        params.order_size_filter,
                        bounds,
                        false,
                    );
                    proof {
                        assert(rects@ =~= before + snapshot_rects(snaps@[k as int], *params, *bounds));
                    }
                }
                k += 1;
            }
        },
        None => {},
    }
    (rects, max_qty)
}

/// Trade markers of the drawn trades, up to the budget, and their largest
/// quantity.
fn build_trade_markers(
    source: &ChartData,
    bounds: &ViewportBounds,
    lod_level: LodLevel,
    params: &HeatmapParams,
) -> (r: (Vec<TradeMarker>, u64))
    ensures
        r.0@ == all_markers(source, lod_level, *params, *bounds),
        r.1 == max_or_one(r.0@.map_values(|m: TradeMarker| m.quantity)),
{
    let decimation = lod_level.decimation_factor();
    let render_count = lod_level.max_render_count();
    let max_markers = if params.max_trade_markers <= render_count {
        params.max_trade_markers
    } else {
        render_count
    };
    let ghost dec = decimation as int;
    let ghost filter = params.trade_size_filter;
    let ghost n = source.trades@.len();
    let mut markers: Vec<TradeMarker> = Vec::new();
    let mut max_qty: u64 = 1;
    let mut trade_index: usize = 0;
    proof {
        assert(markers@.map_values(|m: TradeMarker| m.quantity) =~= Seq::<u64>::empty());
    }
    while trade_index < source.trades.len()
        invariant_except_break
            markers@ == marker_candidates(source.trades@, trade_index as nat, dec, filter, *bounds),
            markers@.len() < max_markers || (markers@.len() == max_markers && markers@.len() <= marker_candidates(source.trades@, trade_index as nat, dec, filter, *bounds).len()),
        invariant
            trade_index <= n == source.trades@.len(),
            dec == lod_level.decimation(),
            decimation == dec,
            filter == params.trade_size_filter,
            max_markers == marker_budget(*params, lod_level),
            max_qty == max_or_one(markers@.map_values(|m: TradeMarker| m.quantity)),
            markers@.len() <= max_markers,
        ensures
            markers@ == all_markers(source, lod_level, *params, *bounds),
        decreases n - trade_index,
    {
        let trade = source.trades[trade_index];
        let keep = decimation <= 1 || trade_index % decimation == 0;
        if keep {
            if markers.len() >= max_markers {
                proof {
                    lemma_candidates_prefix(source.trades@, trade_index as nat, n, dec, filter, *bounds);
                    let all = marker_candidates(source.trades@, n, dec, filter, *bounds);
                    assert(all.take(max_markers as int) =~= markers@);
                }
                break;
            }
            let time = trade.time;
            let price_units = trade.price.units;
            if bounds.time_start <= time && time <= bounds.time_end && bounds.price_low <= price_units
                && price_units <= bounds.price_high && trade.quantity >= params.trade_size_filter {
                let ghost before = markers@;
                markers.push(
                    TradeMarker { time, price_units, quantity: trade.quantity, is_sell: trade.is_sell() },
                );
                if trade.quantity > max_qty {
                    max_qty = trade.quantity;
                }
                proof {
                    let qs = markers@.map_values(|m: TradeMarker| m.quantity);
                    assert(qs.drop_last() =~= before.map_values(|m: TradeMarker| m.quantity));
                }
            }
        }
        trade_index += 1;
    }
    (markers, max_qty)
}

impl DisplayData for HeatmapDisplayData {
    type SourceData = ChartData;

    type ExtraParams = HeatmapParams;

    open spec fn build_spec(
        source: &ChartData,
        bounds: ViewportBounds,
        lod_level: LodLevel,
        params: &HeatmapParams,
    ) -> HeatmapDisplayView {
        let rects = all_depth_rects(source, lod_level, *params, bounds);
        let markers = all_markers(source, lod_level, *params, bounds);
        HeatmapDisplayView {
            depth_rects: rects,
            trade_markers: markers,
            max_depth_qty: max_or_one(rects.map_values(|r: DepthRect| r.quantity)),
            max_trade_qty: max_or_one(markers.map_values(|m: TradeMarker| m.quantity)),
            lod_level,
        }
    }

    open spec fn build_ok(
        source: &ChartData,
        bounds: ViewportBounds,
        lod_level: LodLevel,
        params: &HeatmapParams,
    ) -> bool {
        depth_ok(source, lod_level, *params, bounds)
    }

    open spec fn empty_spec(v: HeatmapDisplayView) -> bool {
        v.depth_rects.len() == 0 && v.trade_markers.len() == 0
    }

    open spec fn memory_spec(v: HeatmapDisplayView) -> int {
        (v.depth_rects.len() * vstd::layout::size_of::<DepthRect>() + v.trade_markers.len()
            * vstd::layout::size_of::<TradeMarker>()) as int
    }

    fn build(
        source: &ChartData,
        bounds: &ViewportBounds,
        lod_level: LodLevel,
        params: &HeatmapParams,
    ) -> (r: HeatmapDisplayData) {
        let (depth_rects, max_depth_qty) = build_depth_rects(source, bounds, lod_level, params);
        let (trade_markers, max_trade_qty) = build_trade_markers(source, bounds, lod_level, params);
        HeatmapDisplayData { depth_rects, trade_markers, max_depth_qty, max_trade_qty, lod_level }
    }

    fn memory_usage(&self) -> (r: usize) {
        let n = self.depth_rects.len() as u128;
        let m = self.trade_markers.len() as u128;
        let per_rect = std::mem::size_of::<DepthRect>() as u128;
        let per_marker = std::mem::size_of::<TradeMarker>() as u128;
        proof {
            super::footprint::lemma_product_fits(n, per_rect);
            super::footprint::lemma_product_fits(m, per_marker);
        }
        let total = (n * per_rect).saturating_add(m * per_marker);
        if total > usize::MAX as u128 {
            usize::MAX
        } else {
            total as usize
        }
    }

    fn is_empty(&self) -> (r: bool) {
        self.depth_rects.len() == 0 && self.trade_markers.len() == 0
    }
}

/// A position kept by a coarser decimation is kept by a finer one.
proof fn lemma_kept_coarser(fine: LodLevel, coarse: LodLevel, k: int)
    requires
        fine.decimation() <= coarse.decimation(),
        kept(k, coarse.decimation() as int),
    ensures
        kept(k, fine.decimation() as int),
{
    if fine.decimation() == 2 && coarse.decimation() == 4 {
        assert(k % 2 == 0) by (nonlinear_arith)
            requires
                k % 4 == 0,
        ;
    }
}

/// A coarser decimation draws no more candidate markers.
proof fn lemma_candidates_coarser(
    trades: Seq<Trade>,
    k: nat,
    fine: LodLevel,
    coarse: LodLevel,
    filter: u64,
    bounds: ViewportBounds,
)
    requires
        fine.decimation() <= coarse.decimation(),
    ensures
        marker_candidates(trades, k, coarse.decimation() as int, filter, bounds).len() <= marker_candidates(
            trades,
            k,
            fine.decimation() as int,
            filter,
            bounds,
        ).len(),
    decreases k,
{
    if k > 0 {
        lemma_candidates_coarser(trades, (k - 1) as nat, fine, coarse, filter, bounds);
        if trade_drawn(trades[k - 1], k - 1, coarse.decimation() as int, filter, bounds) {
            lemma_kept_coarser(fine, coarse, k - 1);
        }
    }
}

/// A coarser level of detail never draws more trade markers.
pub proof fn lemma_coarser_lod_fewer_markers(
    source: &ChartData,
    fine: LodLevel,
    coarse: LodLevel,
    params: HeatmapParams,
    bounds: ViewportBounds,
)
    requires
        fine.decimation() <= coarse.decimation(),
    ensures
        all_markers(source, coarse, params, bounds).len() <= all_markers(source, fine, params, bounds).len(),
{
    lemma_candidates_coarser(
        source.trades@,
        source.trades@.len(),
        fine,
        coarse,
        params.trade_size_filter,
        bounds,
    );
}

/// Trade markers never exceed the render budget: the smaller of the
/// requested most markers and the level of detail's render count.
pub proof fn lemma_markers_within_budget(source: &ChartData, lod: LodLevel, params: HeatmapParams, bounds: ViewportBounds)
    ensures
        all_markers(source, lod, params, bounds).len() <= params.max_trade_markers,
        all_markers(source, lod, params, bounds).len() <= lod.render_count(),
{
}

/// The scale of a list of quantities is at least 1, no smaller than any of
/// them, and either 1 or one of them.
pub proof fn lemma_max_or_one(qs: Seq<u64>)
    ensures
        max_or_one(qs) >= 1,
        forall|i: int| 0 <= i < qs.len() ==> qs[i] <= max_or_one(qs),
        max_or_one(qs) == 1 || exists|i: int| 0 <= i < qs.len() && qs[i] == max_or_one(qs),
    decreases qs.len(),
{
    if qs.len() > 0 {
        let p = qs.drop_last();
        lemma_max_or_one(p);
        assert forall|i: int| 0 <= i < qs.len() implies qs[i] <= max_or_one(qs) by {
            if i < p.len() {
                assert(qs[i] == p[i]);
            }
        }
        if max_or_one(qs) != 1 && max_or_one(qs) != qs.last() {
            let i = choose|i: int| 0 <= i < p.len() && p[i] == max_or_one(p);
            assert(qs[i] == p[i]);
        }
    }
}

} // verus!
