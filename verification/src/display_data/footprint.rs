//! Footprint display data: per-candle clusters of traded volume by price for
//! the candles of one viewport, with each candle's point of control.

use super::DisplayData;
use crate::footprint::{
    TradeCluster, build_footprint, footprint_of, kept, lemma_footprint_coarser_levels, lemma_footprint_finite,
    lemma_time_bound_exists, point_of_control, poc_of, prices_roundable, sorted_by_time, time_bound, time_lower_bound,
};
use crate::market::{
    Candle, ChartBasis, ChartData, ClusterKind, LodLevel, Price, PriceStep, Trade, ViewportBounds,
};
use std::collections::BTreeMap;
use vstd::std_specs::iter::IteratorSpec;
use vstd::prelude::*;

verus! {

broadcast use {vstd::std_specs::btree::group_btree_axioms, vstd::laws_cmp::group_laws_cmp};

/// Footprint data for a single candle.
#[derive(Debug)]
pub struct CandleFootprint {
    /// Candle index in the source data.
    pub candle_index: usize,
    /// Candle timestamp.
    pub time: u64,
    /// Trade clusters by price (in units).
    pub clusters: BTreeMap<i64, TradeCluster>,
    /// Point of control: price with the most volume, and that volume.
    pub poc: Option<(i64, u128)>,
}

/// Mathematical value of a [`CandleFootprint`].
pub struct CandleFootprintView {
    pub candle_index: usize,
    pub time: u64,
    pub clusters: Map<i64, TradeCluster>,
    pub poc: Option<(i64, u128)>,
}

impl View for CandleFootprint {
    type V = CandleFootprintView;

    open spec fn view(&self) -> CandleFootprintView {
        CandleFootprintView {
            candle_index: self.candle_index,
            time: self.time,
            clusters: self.clusters@,
            poc: self.poc,
        }
    }
}

/// Pre-computed footprints of the visible candles, ready to render.
#[derive(Debug)]
pub struct FootprintDisplayData {
    /// Footprint of each visible candle.
    pub candle_footprints: Vec<CandleFootprint>,
    /// Total number of trade clusters across all candles.
    pub total_clusters: usize,
    /// Price range covered.
    pub price_range: (Price, Price),
    /// LOD level used for this data.
    pub lod_level: LodLevel,
}

/// Mathematical value of a [`FootprintDisplayData`].
pub struct FootprintDisplayView {
    pub candle_footprints: Seq<CandleFootprintView>,
    pub total_clusters: nat,
    pub price_range: (Price, Price),
    pub lod_level: LodLevel,
}

impl View for FootprintDisplayData {
    type V = FootprintDisplayView;

    open spec fn view(&self) -> FootprintDisplayView {
        FootprintDisplayView {
            candle_footprints: self.candle_footprints@.map_values(|c: CandleFootprint| c@),
            total_clusters: self.total_clusters as nat,
            price_range: self.price_range,
            lod_level: self.lod_level,
        }
    }
}

/// Extra parameters for building footprint display data.
#[derive(Clone, Copy, Debug)]
pub struct FootprintParams {
    pub tick_size: PriceStep,
    pub interval_ms: u64,
    pub basis: ChartBasis,
}

/// Position of the `j`-th candle scanned: time charts scan the candles
/// oldest first, tick charts newest first.
pub open spec fn scan_position(n: int, basis: ChartBasis, j: int) -> int {
    match basis {
        ChartBasis::Time(_) => j,
        ChartBasis::Tick(_) => n - 1 - j,
    }
}

/// Candle `i` is in the viewport: on time charts by its time, on tick charts
/// by its position.
pub open spec fn candle_visible(candles: Seq<Candle>, bounds: ViewportBounds, basis: ChartBasis, i: int) -> bool {
    match basis {
        ChartBasis::Time(_) => bounds.time_start <= candles[i].time <= bounds.time_end,
        ChartBasis::Tick(_) => (bounds.time_start as usize) <= i <= (bounds.time_end as usize),
    }
}

/// Positions of the visible candles among the first `k` scanned, in scan order.
pub open spec fn visible_prefix(candles: Seq<Candle>, bounds: ViewportBounds, basis: ChartBasis, k: nat) -> Seq<int>
    decreases k,
{
    if k == 0 {
        Seq::empty()
    } else {
        let prev = visible_prefix(candles, bounds, basis, (k - 1) as nat);
        let i = scan_position(candles.len() as int, basis, k - 1);
        if candle_visible(candles, bounds, basis, i) {
            prev.push(i)
        } else {
            prev
        }
    }
}

/// Positions of the visible candles, in scan order.
pub open spec fn visible_candles(candles: Seq<Candle>, bounds: ViewportBounds, basis: ChartBasis) -> Seq<int> {
    visible_prefix(candles, bounds, basis, candles.len())
}

/// Position of the first trade of candle `i`.
pub open spec fn first_trade(source: &ChartData, i: int) -> int {
    time_bound(source.trades@, 0, source.candles@[i].time)
}

/// Position after the last trade of candle `i` (the trades before its time
/// plus the interval).
pub open spec fn end_trade(source: &ChartData, i: int, interval: u64) -> int {
    time_bound(
        source.trades@,
        first_trade(source, i),
        (source.candles@[i].time + interval) as u64,
    )
}

/// Trades of candle `i`.
pub open spec fn candle_trades(source: &ChartData, i: int, interval: u64) -> Seq<Trade> {
    source.trades@.subrange(first_trade(source, i), end_trade(source, i, interval))
}

/// The trades of a candle in the viewport are exactly those at or after
/// its time and before its time plus the interval.
pub proof fn lemma_candle_trades_window(source: &ChartData, i: int, interval: u64)
    requires
        sorted_by_time(source.trades@),
        0 <= i < source.candles@.len(),
        source.candles@[i].time + interval <= u64::MAX,
    ensures
        forall|k: int|
            0 <= k < source.trades@.len() ==> ((first_trade(source, i) <= k < end_trade(source, i, interval))
                <==> (source.candles@[i].time <= (#[trigger] source.trades@[k]).time
                && source.trades@[k].time < source.candles@[i].time + interval)),
{
    let ts = source.trades@;
    let start = source.candles@[i].time;
    let end = (start + interval) as u64;
    lemma_time_bound_exists(ts, 0, start);
    let first = first_trade(source, i);
    lemma_time_bound_exists(ts, first, end);
    let last = end_trade(source, i, interval);
    assert forall|k: int| 0 <= k < ts.len() implies ((first <= k < last) <==> (start <= (#[trigger] ts[k]).time
        && ts[k].time < end)) by {
        if first <= k < last {
            assert(ts[first].time >= start);
            assert(ts[first].time <= ts[k].time);
        }
        if start <= ts[k].time && ts[k].time < end {
            if k < first {
                assert(ts[k].time < start);
            }
            if k >= last {
                assert(ts[last].time >= end);
                assert(ts[last].time <= ts[k].time);
            }
        }
    }
}

/// Footprint of candle `i` in the viewport.
pub open spec fn candle_footprint_spec(
    source: &ChartData,
    bounds: ViewportBounds,
    lod: LodLevel,
    params: FootprintParams,
    i: int,
) -> CandleFootprintView {
    let clusters = footprint_of(
        candle_trades(source, i, params.interval_ms),
        params.tick_size.units,
        bounds.price_low,
        bounds.price_high,
        lod.decimation() as int,
    );
    CandleFootprintView {
        candle_index: i as usize,
        time: source.candles@[i].time,
        clusters,
        poc: poc_of(clusters),
    }
}

/// Building the footprint of candle `i` cannot overflow.
pub open spec fn candle_ok(source: &ChartData, params: FootprintParams, i: int) -> bool {
    &&& source.candles@[i].time + params.interval_ms <= u64::MAX
    &&& prices_roundable(candle_trades(source, i, params.interval_ms), params.tick_size.units)
}

/// Total number of clusters of the given footprints.
pub open spec fn cluster_count(fs: Seq<CandleFootprintView>) -> nat
    decreases fs.len(),
{
    if fs.len() == 0 {
        0
    } else {
        cluster_count(fs.drop_last()) + fs.last().clusters.len()
    }
}

/// A prefix has no more clusters than the whole.
proof fn lemma_cluster_count_take(fs: Seq<CandleFootprintView>, j: int)
    requires
        0 <= j <= fs.len(),
    ensures
        cluster_count(fs.take(j)) <= cluster_count(fs),
    decreases fs.len(),
{
    if j == fs.len() {
        assert(fs.take(j) =~= fs);
    } else {
        assert(fs.take(j) =~= fs.drop_last().take(j));
        lemma_cluster_count_take(fs.drop_last(), j);
    }
}

/// The product of two numbers below `2^64` fits in a `u128`.
pub proof fn lemma_product_fits(a: u128, b: u128)
    requires
        a <= u64::MAX,
        b <= u64::MAX,
    ensures
        a * b <= u64::MAX * u64::MAX,
{
    assert(a * b <= u64::MAX * u64::MAX) by (nonlinear_arith)
        requires
            a <= u64::MAX,
            b <= u64::MAX,
    ;
}

/// The footprints of the visible candles.
pub open spec fn footprints_spec(
    source: &ChartData,
    bounds: ViewportBounds,
    lod: LodLevel,
    params: FootprintParams,
) -> Seq<CandleFootprintView> {
    visible_candles(source.candles@, bounds, params.basis).map_values(
        |i: int| candle_footprint_spec(source, bounds, lod, params, i),
    )
}

/// Positions of the visible candles, in scan order.
fn visible_candle_indices(candles: &Vec<Candle>, bounds: &ViewportBounds, basis: ChartBasis) -> (r: Vec<usize>)
    ensures
        r@.map_values(|u: usize| u as int) == visible_candles(candles@, *bounds, basis),
        forall|j: int| 0 <= j < r@.len() ==> r@[j] < candles@.len(),
{
    let n = candles.len();
    let mut r: Vec<usize> = Vec::new();
    let mut k: usize = 0;
    while k < n
        invariant
            k <= n == candles@.len(),
            r@.map_values(|u: usize| u as int) == visible_prefix(candles@, *bounds, basis, k as nat),
            forall|j: int| 0 <= j < r@.len() ==> r@[j] < n,
        decreases n - k,
    {
        let idx = match basis {
            ChartBasis::Time(_) => k,
            ChartBasis::Tick(_) => n - 1 - k,
        };
        let visible = match basis {
            ChartBasis::Time(_) => bounds.time_start <= candles[idx].time && candles[idx].time
                <= bounds.time_end,
            ChartBasis::Tick(_) => (bounds.time_start as usize) <= idx && idx <= (bounds.time_end as usize),
        };
        proof {
            assert(idx == scan_position(n as int, basis, k as int));
            assert(visible == candle_visible(candles@, *bounds, basis, idx as int));
        }
        if visible {
            r.push(idx);
            proof {
                assert(r@.map_values(|u: usize| u as int) =~= visible_prefix(
                    candles@,
                    *bounds,
                    basis,
                    k as nat,
                ).push(idx as int));
            }
        }
        k += 1;
    }
    r
}

/// Footprint of candle `idx` in the viewport.
fn build_candle_footprint(
    source: &ChartData,
    bounds: &ViewportBounds,
    lod_level: LodLevel,
    params: &FootprintParams,
    idx: usize,
) -> (r: CandleFootprint)
    requires
        idx < source.candles@.len(),
        sorted_by_time(source.trades@),
        candle_ok(source, *params, idx as int),
    ensures
        r@ == candle_footprint_spec(source, *bounds, lod_level, *params, idx as int),
{
    let candle_start = source.candles[idx].time;
    let candle_end = candle_start + params.interval_ms;
    let trades = source.trades.as_slice();
    let lo = time_lower_bound(trades, 0, candle_start);
    let hi = time_lower_bound(trades, lo, candle_end);
    let clusters = build_footprint(
        trades,
        lo,
        hi,
        params.tick_size,
        bounds.price_low,
        bounds.price_high,
        lod_level.decimation_factor(),
    );
    let poc = point_of_control(&clusters);
    CandleFootprint { candle_index: idx, time: candle_start, clusters, poc }
}

impl DisplayData for FootprintDisplayData {
    type SourceData = ChartData;

    type ExtraParams = FootprintParams;

    open spec fn build_spec(
        source: &ChartData,
        bounds: ViewportBounds,
        lod_level: LodLevel,
        params: &FootprintParams,
    ) -> FootprintDisplayView {
        let fs = footprints_spec(source, bounds, lod_level, *params);
        FootprintDisplayView {
            candle_footprints: fs,
            total_clusters: cluster_count(fs),
            price_range: (Price { units: bounds.price_low }, Price { units: bounds.price_high }),
            lod_level,
        }
    }

    open spec fn build_ok(
        source: &ChartData,
        bounds: ViewportBounds,
        lod_level: LodLevel,
        params: &FootprintParams,
    ) -> bool {
        let vis = visible_candles(source.candles@, bounds, params.basis);
        &&& sorted_by_time(source.trades@)
        &&& forall|j: int| 0 <= j < vis.len() ==> candle_ok(source, *params, #[trigger] vis[j])
        &&& cluster_count(footprints_spec(source, bounds, lod_level, *params)) <= usize::MAX
    }

    open spec fn empty_spec(v: FootprintDisplayView) -> bool {
        v.candle_footprints.len() == 0
    }

    open spec fn memory_spec(v: FootprintDisplayView) -> int {
        (v.candle_footprints.len() * vstd::layout::size_of::<CandleFootprint>()
            + v.total_clusters * vstd::layout::size_of::<TradeCluster>()) as int
    }

    fn build(
        source: &ChartData,
        bounds: &ViewportBounds,
        lod_level: LodLevel,
        params: &FootprintParams,
    ) -> (r: FootprintDisplayData) {
        let highest = Price::from_units(bounds.price_high);
        let lowest = Price::from_units(bounds.price_low);
        let idxs = visible_candle_indices(&source.candles, bounds, params.basis);
        let ghost vis = visible_candles(source.candles@, *bounds, params.basis);
        let ghost f = |i: int| candle_footprint_spec(source, *bounds, lod_level, *params, i);
        let ghost all = footprints_spec(source, *bounds, lod_level, *params);
        let mut candle_footprints: Vec<CandleFootprint> = Vec::new();
        let mut total_clusters: usize = 0;
        let mut j: usize = 0;
        proof {
            assert(idxs@.len() == vis.len());
            assert(all == vis.map_values(f));
        }
        while j < idxs.len()
            invariant
                j <= idxs@.len() == vis.len(),
                forall|t: int| 0 <= t < idxs@.len() ==> idxs@[t] as int == vis[t],
                forall|t: int| 0 <= t < idxs@.len() ==> idxs@[t] < source.candles@.len(),
                f == (|i: int| candle_footprint_spec(source, *bounds, lod_level, *params, i)),
                all == vis.map_values(f),
                vis == visible_candles(source.candles@, *bounds, params.basis),
                Self::build_ok(source, *bounds, lod_level, params),
                all == footprints_spec(source, *bounds, lod_level, *params),
                candle_footprints@.map_values(|c: CandleFootprint| c@) == all.take(j as int),
                total_clusters == cluster_count(all.take(j as int)),
            decreases idxs@.len() - j,
        {
            let idx = idxs[j];
            proof {
                assert(idxs@[j as int] as int == vis[j as int]);
                assert(candle_ok(source, *params, vis[j as int]));
            }
            let fp = build_candle_footprint(source, bounds, lod_level, params, idx);
            let ghost before = candle_footprints@.map_values(|c: CandleFootprint| c@);
            let cnt = fp.clusters.len();
            proof {
                assert(fp@ == all[j as int]);
                assert(all.take(j + 1) =~= all.take(j as int).push(fp@));
                assert(all.take(j + 1).drop_last() =~= all.take(j as int));
                lemma_cluster_count_take(all, j + 1);
            }
            candle_footprints.push(fp);
            total_clusters = total_clusters + cnt;
            proof {
                assert(candle_footprints@.map_values(|c: CandleFootprint| c@) =~= all.take(j + 1));
            }
            j += 1;
        }
        proof {
            assert(all.take(j as int) =~= all);
        }
        FootprintDisplayData {
            candle_footprints,
            total_clusters,
            price_range: (lowest, highest),
            lod_level,
        }
    }

    fn memory_usage(&self) -> (r: usize) {
        let n = self.candle_footprints.len() as u128;
        let c = self.total_clusters as u128;
        let per_footprint = std::mem::size_of::<CandleFootprint>() as u128;
        let per_cluster = std::mem::size_of::<TradeCluster>() as u128;
        proof {
            lemma_product_fits(n, per_footprint);
            lemma_product_fits(c, per_cluster);
        }
        let total = (n * per_footprint).saturating_add(c * per_cluster);
        if total > usize::MAX as u128 {
            usize::MAX
        } else {
            total as usize
        }
    }

    fn is_empty(&self) -> (r: bool) {
        self.candle_footprints.len() == 0
    }
}

/// The quantity of cluster `c` that a footprint of kind `kind` shows.
pub open spec fn cluster_value(kind: ClusterKind, c: TradeCluster) -> int {
    match kind {
        ClusterKind::BidAsk => if c.buy_qty >= c.sell_qty {
            c.buy_qty as int
        } else {
            c.sell_qty as int
        },
        ClusterKind::Delta | ClusterKind::DeltaProfile => if c.buy_qty >= c.sell_qty {
            c.buy_qty - c.sell_qty
        } else {
            c.sell_qty - c.buy_qty
        },
        ClusterKind::Volume | ClusterKind::VolumeProfile | ClusterKind::Trades => c.total(),
    }
}

/// What each kind of footprint shows of a cluster: the larger side for
/// bid/ask, the absolute difference of bought and sold volume for the
/// delta kinds, and their sum for the volume kinds and trades.
pub proof fn lemma_cluster_value_meaning(kind: ClusterKind, c: TradeCluster)
    ensures
        kind is BidAsk ==> cluster_value(kind, c) >= c.buy_qty && cluster_value(kind, c) >= c.sell_qty
            && (cluster_value(kind, c) == c.buy_qty || cluster_value(kind, c) == c.sell_qty),
        kind is Delta || kind is DeltaProfile ==> cluster_value(kind, c) >= c.buy_qty - c.sell_qty
            && cluster_value(kind, c) >= c.sell_qty - c.buy_qty && (cluster_value(kind, c) == c.buy_qty
            - c.sell_qty || cluster_value(kind, c) == c.sell_qty - c.buy_qty),
        kind is Volume || kind is VolumeProfile || kind is Trades ==> cluster_value(kind, c) == c.buy_qty
            + c.sell_qty,
{
}

/// The quantity of `c` that a footprint of kind `kind` shows.
fn cluster_qty(c: &TradeCluster, kind: ClusterKind) -> (r: u128)
    ensures
        r == cluster_value(kind, *c),
{
    match kind {
        ClusterKind::BidAsk => if c.buy_qty >= c.sell_qty {
            c.buy_qty as u128
        } else {
            c.sell_qty as u128
        },
        ClusterKind::Delta | ClusterKind::DeltaProfile => if c.buy_qty >= c.sell_qty {
            (c.buy_qty - c.sell_qty) as u128
        } else {
            (c.sell_qty - c.buy_qty) as u128
        },
        ClusterKind::Volume | ClusterKind::VolumeProfile | ClusterKind::Trades => c.total_qty(),
    }
}

impl FootprintDisplayData {
    /// Largest cluster quantity of the given kind across all candles, and at
    /// least 1 (so that it can divide).
    pub fn max_cluster_qty(&self, cluster_kind: ClusterKind) -> (r: u128)
        ensures
            r >= 1,
            forall|i: int, p: i64|
                0 <= i < self@.candle_footprints.len()
                    && #[trigger] self@.candle_footprints[i].clusters.contains_key(p) ==> cluster_value(
                    cluster_kind,
                    self@.candle_footprints[i].clusters[p],
                ) <= r,
            r == 1 || exists|i: int, p: i64|
                0 <= i < self@.candle_footprints.len()
                    && #[trigger] self@.candle_footprints[i].clusters.contains_key(p) && cluster_value(
                    cluster_kind,
                    self@.candle_footprints[i].clusters[p],
                ) == r,
            cluster_kind is Delta || cluster_kind is DeltaProfile ==> forall|i: int, p: i64|
                0 <= i < self@.candle_footprints.len()
                    && #[trigger] self@.candle_footprints[i].clusters.contains_key(p) ==> {
                    let c = self@.candle_footprints[i].clusters[p];
                    c.buy_qty - c.sell_qty <= r && c.sell_qty - c.buy_qty <= r
                },
            cluster_kind is Delta || cluster_kind is DeltaProfile ==> r == 1 || exists|i: int, p: i64|
                0 <= i < self@.candle_footprints.len()
                    && #[trigger] self@.candle_footprints[i].clusters.contains_key(p) && {
                    let c = self@.candle_footprints[i].clusters[p];
                    c.buy_qty - c.sell_qty == r || c.sell_qty - c.buy_qty == r
                },
            cluster_kind is Volume || cluster_kind is VolumeProfile || cluster_kind is Trades ==> forall|
                i: int,
                p: i64,
            |
                0 <= i < self@.candle_footprints.len()
                    && #[trigger] self@.candle_footprints[i].clusters.contains_key(p) ==> {
                    let c = self@.candle_footprints[i].clusters[p];
                    c.buy_qty + c.sell_qty <= r
                },
            cluster_kind is Volume || cluster_kind is VolumeProfile || cluster_kind is Trades ==> r == 1
                || exists|i: int, p: i64|
                0 <= i < self@.candle_footprints.len()
                    && #[trigger] self@.candle_footprints[i].clusters.contains_key(p) && {
                    let c = self@.candle_footprints[i].clusters[p];
                    c.buy_qty + c.sell_qty == r
                },
            cluster_kind is BidAsk ==> forall|i: int, p: i64|
                0 <= i < self@.candle_footprints.len()
                    && #[trigger] self@.candle_footprints[i].clusters.contains_key(p) ==> {
                    let c = self@.candle_footprints[i].clusters[p];
                    c.buy_qty <= r && c.sell_qty <= r
                },
            cluster_kind is BidAsk ==> r == 1 || exists|i: int, p: i64|
                0 <= i < self@.candle_footprints.len()
                    && #[trigger] self@.candle_footprints[i].clusters.contains_key(p) && {
                    let c = self@.candle_footprints[i].clusters[p];
                    c.buy_qty == r || c.sell_qty == r
                },
    {
        let fps = &self.candle_footprints;
        let mut best: u128 = 1;
        let ghost mut wi: int = 0;
        let ghost mut wp: i64 = 0;
        let mut j: usize = 0;
        while j < fps.len()
            invariant
                j <= fps@.len(),
                fps == &self.candle_footprints,
                best >= 1,
                forall|i: int, p: i64|
                    0 <= i < j && #[trigger] fps@[i].clusters@.contains_key(p) ==> cluster_value(
                        cluster_kind,
                        fps@[i].clusters@[p],
                    ) <= best,
                best == 1 || (0 <= wi < j && fps@[wi].clusters@.contains_key(wp) && cluster_value(
                    cluster_kind,
                    fps@[wi].clusters@[wp],
                ) == best),
            decreases fps@.len() - j,
        {
            let m = &fps[j].clusters;
            let ghost mv = m@;
            let ghost items = IteratorSpec::remaining(&m.iter());
            for (k, v) in it: m.iter()
                invariant
                    j < fps@.len(),
                    mv == fps@[j as int].clusters@,
                    mv == m@,
                    it.seq() == items,
                    forall|t: int|
                        0 <= t < items.len() ==> mv.contains_key(*items[t].0) && mv[*items[t].0]
                            == *items[t].1,
                    best >= 1,
                    forall|i: int, p: i64|
                        0 <= i < j && #[trigger] fps@[i].clusters@.contains_key(p) ==> cluster_value(
                            cluster_kind,
                            fps@[i].clusters@[p],
                        ) <= best,
                    forall|t: int|
                        0 <= t < it.index() ==> cluster_value(cluster_kind, *(#[trigger] items[t]).1)
                            <= best,
                    best == 1 || (0 <= wi <= j && fps@[wi].clusters@.contains_key(wp) && cluster_value(
                        cluster_kind,
                        fps@[wi].clusters@[wp],
                    ) == best),
            {
                let q = cluster_qty(v, cluster_kind);
                if q > best {
                    best = q;
                    proof {
                        wi = j as int;
                        wp = *k;
                    }
                }
            }
            proof {
                assert forall|p: i64| #[trigger] mv.contains_key(p) implies cluster_value(
                    cluster_kind,
                    mv[p],
                ) <= best by {
                    assert(items.contains((&p, &mv[p])));
                    let t = choose|t: int| 0 <= t < items.len() && items[t] == (&p, &mv[p]);
                }
            }
            j += 1;
        }
        proof {
            let v = self@;
            if best != 1 {
                assert(v.candle_footprints[wi].clusters.contains_key(wp));
                lemma_cluster_value_meaning(cluster_kind, v.candle_footprints[wi].clusters[wp]);
            }
            assert forall|i: int, p: i64|
                0 <= i < v.candle_footprints.len()
                    && #[trigger] v.candle_footprints[i].clusters.contains_key(p) implies {
                    let c = v.candle_footprints[i].clusters[p];
                    &&& (cluster_kind is Delta || cluster_kind is DeltaProfile) ==> c.buy_qty - c.sell_qty
                        <= best && c.sell_qty - c.buy_qty <= best
                    &&& (cluster_kind is Volume || cluster_kind is VolumeProfile || cluster_kind is Trades)
                        ==> c.buy_qty + c.sell_qty <= best
                    &&& cluster_kind is BidAsk ==> c.buy_qty <= best && c.sell_qty <= best
                } by {
                lemma_cluster_value_meaning(cluster_kind, v.candle_footprints[i].clusters[p]);
            }
        }
        best
    }

    /// Footprint of the candle at position `candle_index` of the source
    /// data: the first such footprint, if any.
    pub fn get_candle_footprint(&self, candle_index: usize) -> (r: Option<&CandleFootprint>)
        ensures
            match r {
                Some(c) => exists|j: int|
                    0 <= j < self.candle_footprints@.len() && self.candle_footprints@[j] == *c
                        && c.candle_index == candle_index && forall|t: int|
                        0 <= t < j ==> (#[trigger] self.candle_footprints@[t]).candle_index
                            != candle_index,
                None => forall|j: int|
                    0 <= j < self.candle_footprints@.len()
                        ==> (#[trigger] self.candle_footprints@[j]).candle_index != candle_index,
            },
    {
        let mut j: usize = 0;
        while j < self.candle_footprints.len()
            invariant
                j <= self.candle_footprints@.len(),
                forall|t: int|
                    0 <= t < j ==> (#[trigger] self.candle_footprints@[t]).candle_index != candle_index,
            decreases self.candle_footprints@.len() - j,
        {
            if self.candle_footprints[j].candle_index == candle_index {
                return Some(&self.candle_footprints[j]);
            }
            j += 1;
        }
        None
    }

    /// All candle footprints, in scan order.
    pub fn iter(&self) -> (r: &[CandleFootprint])
        ensures
            r@ == self.candle_footprints@,
    {
        self.candle_footprints.as_slice()
    }
}

/// Among sequences of footprints of equal length, one whose every
/// footprint has no more clusters has no more clusters in all.
proof fn lemma_cluster_count_le(a: Seq<CandleFootprintView>, b: Seq<CandleFootprintView>)
    requires
        a.len() == b.len(),
        forall|j: int| 0 <= j < a.len() ==> (#[trigger] a[j]).clusters.len() <= b[j].clusters.len(),
    ensures
        cluster_count(a) <= cluster_count(b),
    decreases a.len(),
{
    if a.len() > 0 {
        lemma_cluster_count_le(a.drop_last(), b.drop_last());
        assert(a[a.len() - 1].clusters.len() <= b[b.len() - 1].clusters.len());
    }
}

/// A coarser level of detail gives each visible candle no price level that
/// a finer one lacks, and so no more clusters in all.
pub proof fn lemma_coarser_lod_fewer_clusters(
    source: &ChartData,
    bounds: ViewportBounds,
    params: FootprintParams,
    fine: LodLevel,
    coarse: LodLevel,
)
    requires
        fine.decimation() <= coarse.decimation(),
    ensures
        forall|j: int|
            0 <= j < footprints_spec(source, bounds, coarse, params).len() ==> (#[trigger] footprints_spec(
                source,
                bounds,
                coarse,
                params,
            )[j]).clusters.dom().subset_of(footprints_spec(source, bounds, fine, params)[j].clusters.dom()),
        FootprintDisplayData::build_spec(source, bounds, coarse, &params).total_clusters
            <= FootprintDisplayData::build_spec(source, bounds, fine, &params).total_clusters,
{
    let a = footprints_spec(source, bounds, coarse, params);
    let b = footprints_spec(source, bounds, fine, params);
    let f = fine.decimation() as int;
    let c = coarse.decimation() as int;
    assert forall|k: int| #[trigger] kept(k, c) implies kept(k, f) by {
        if f == 2 && c == 4 {
            assert(k % 2 == 0) by (nonlinear_arith)
                requires
                    k % 4 == 0,
            ;
        }
    }
    assert forall|j: int| 0 <= j < a.len() implies (#[trigger] a[j]).clusters.dom().subset_of(b[j].clusters.dom())
        && a[j].clusters.len() <= b[j].clusters.len() by {
        let i = visible_candles(source.candles@, bounds, params.basis)[j];
        let ts = candle_trades(source, i, params.interval_ms);
        lemma_footprint_coarser_levels(ts, params.tick_size.units, bounds.price_low, bounds.price_high, f, c);
        lemma_footprint_finite(ts, params.tick_size.units, bounds.price_low, bounds.price_high, f);
        vstd::set_lib::lemma_len_subset(a[j].clusters.dom(), b[j].clusters.dom());
    }
    lemma_cluster_count_le(a, b);
}

} // verus!
