//! Heatmap data: order-book snapshots organised as runs of resting
//! quantity per price, and trades aggregated per time bucket.

use crate::market::{
    sat_add, round_ok, round_units, Candle, ChartBasis, ChartData, DepthLevel, DepthSnapshot, Price,
    PriceStep, Trade, Timeframe,
};
use std::collections::BTreeMap;
use vstd::prelude::*;
use vstd::std_specs::iter::IteratorSpec;

verus! {

broadcast use {vstd::std_specs::btree::group_btree_axioms, vstd::laws_cmp::group_laws_cmp};

/// Resting quantity at one price level over one time bucket.
#[derive(Clone, Copy, Debug, PartialEq, Eq, Structural)]
pub struct DepthRun {
    /// Start of the bucket.
    pub start_time: u64,
    /// End of the bucket.
    pub until_time: u64,
    /// Resting quantity.
    pub qty: u64,
    /// A bid (true) or an ask (false).
    pub is_bid: bool,
}

impl DepthRun {
    pub fn qty(&self) -> (r: u64)
        ensures
            r == self.qty,
    {
        self.qty
    }
}

/// Trades at one price level of a time bucket, on one side.
#[derive(Clone, Copy, Debug, PartialEq, Eq, Structural)]
pub struct GroupedTrade {
    pub price: Price,
    pub qty: u64,
    pub is_sell: bool,
}

/// Trades of one time bucket.
#[derive(Debug)]
pub struct TradeDataPoint {
    /// Trades grouped by price and side, in order of first appearance.
    pub grouped_trades: Vec<GroupedTrade>,
    /// Bought volume in the bucket.
    pub buy_volume: u64,
    /// Sold volume in the bucket.
    pub sell_volume: u64,
}

/// Mathematical value of a [`TradeDataPoint`].
pub struct TradePointView {
    pub grouped_trades: Seq<GroupedTrade>,
    pub buy_volume: u64,
    pub sell_volume: u64,
}

impl View for TradeDataPoint {
    type V = TradePointView;

    open spec fn view(&self) -> TradePointView {
        TradePointView {
            grouped_trades: self.grouped_trades@,
            buy_volume: self.buy_volume,
            sell_volume: self.sell_volume,
        }
    }
}

/// A bucket without trades.
pub open spec fn empty_point() -> TradePointView {
    TradePointView { grouped_trades: Seq::empty(), buy_volume: 0, sell_volume: 0 }
}

impl Default for TradeDataPoint {
    fn default() -> (r: Self)
        ensures
            r@ == empty_point(),
    {
        TradeDataPoint { grouped_trades: Vec::new(), buy_volume: 0, sell_volume: 0 }
    }
}

/// Order-book runs by price and trades by time bucket.
#[derive(Debug)]
pub struct HeatmapData {
    /// Price (in units) to the runs at that price, in order of arrival.
    pub depth_by_price: BTreeMap<i64, Vec<DepthRun>>,
    /// Bucket start time to the trades of that bucket.
    pub trades_by_time: BTreeMap<u64, TradeDataPoint>,
    /// Time of the latest order-book snapshot.
    pub latest_depth_time: u64,
    /// On tick charts: candle start time to candle end time.
    candle_time_map: Option<BTreeMap<u64, u64>>,
}

/// Mathematical value of a [`HeatmapData`].
pub struct HeatmapDataView {
    pub depth_by_price: Map<i64, Seq<DepthRun>>,
    pub trades_by_time: Map<u64, TradePointView>,
    pub latest_depth_time: u64,
    pub candle_time_map: Option<Map<u64, u64>>,
}

impl View for HeatmapData {
    type V = HeatmapDataView;

    closed spec fn view(&self) -> HeatmapDataView {
        HeatmapDataView {
            depth_by_price: self.depth_by_price@.map_values(|v: Vec<DepthRun>| v@),
            trades_by_time: self.trades_by_time@.map_values(|p: TradeDataPoint| p@),
            latest_depth_time: self.latest_depth_time,
            candle_time_map: match self.candle_time_map {
                Some(m) => Some(m@),
                None => None,
            },
        }
    }
}

/// `t` rounded down to a whole second.
pub open spec fn second_floor(t: u64) -> u64 {
    ((t / 1000) * 1000) as u64
}

/// `k` is the greatest key of `m` at or before `t`.
pub open spec fn is_floor_key(m: Map<u64, u64>, t: u64, k: u64) -> bool {
    &&& m.contains_key(k)
    &&& k <= t
    &&& forall|j: u64| #[trigger] m.contains_key(j) && j <= t ==> j <= k
}

/// The entry of `m` with the greatest key at or before `t`, if any.
pub open spec fn floor_entry(m: Map<u64, u64>, t: u64) -> Option<(u64, u64)> {
    if exists|k: u64| is_floor_key(m, t, k) {
        let k = choose|k: u64| is_floor_key(m, t, k);
        Some((k, m[k]))
    } else {
        None
    }
}

/// Start of the bucket that holds `time`: the timeframe interval on time
/// charts; on tick charts the candle whose span holds `time`, or else the
/// second.
pub open spec fn bucket_time_in(candles: Option<Map<u64, u64>>, time: u64, basis: ChartBasis) -> u64 {
    match basis {
        ChartBasis::Time(tf) => ((time / tf.millis()) * tf.millis()) as u64,
        ChartBasis::Tick(_) => match candles {
            Some(m) => match floor_entry(m, time) {
                Some((start, end)) => if start <= time && time < end {
                    start
                } else {
                    second_floor(time)
                },
                None => second_floor(time),
            },
            None => second_floor(time),
        },
    }
}

/// Length of the bucket at `time`: the timeframe on time charts; on tick
/// charts the span of the latest candle at or before `time`, or a second.
pub open spec fn bucket_duration_in(candles: Option<Map<u64, u64>>, time: u64, basis: ChartBasis) -> int {
    match basis {
        ChartBasis::Time(tf) => tf.millis() as int,
        ChartBasis::Tick(_) => match candles {
            Some(m) => match floor_entry(m, time) {
                Some((start, end)) => end - start,
                None => 1000,
            },
            None => 1000,
        },
    }
}

/// End of the span of candle `i`: the next candle's time, or a second after
/// the last candle.
pub open spec fn candle_end(cs: Seq<Candle>, i: int) -> u64 {
    if i + 1 < cs.len() {
        cs[i + 1].time
    } else {
        (cs[i].time + 1000) as u64
    }
}

/// Candle spans of the first `k` candles, keyed by start time (a later
/// candle with the same time replaces an earlier one).
pub open spec fn candle_spans(cs: Seq<Candle>, k: nat) -> Map<u64, u64>
    decreases k,
{
    if k == 0 {
        Map::empty()
    } else {
        candle_spans(cs, (k - 1) as nat).insert(cs[k - 1].time, candle_end(cs, k - 1))
    }
}

/// On a time chart the bucket of `t` is the timeframe interval that holds
/// it: it starts at a multiple of the timeframe's length, at or before `t`,
/// and lasts that length, past `t`.
pub proof fn lemma_time_bucket(candles: Option<Map<u64, u64>>, t: u64, tf: Timeframe)
    ensures
        ({
            let b = bucket_time_in(candles, t, ChartBasis::Time(tf));
            let d = bucket_duration_in(candles, b, ChartBasis::Time(tf));
            &&& b % tf.millis() == 0
            &&& b <= t < b + d
            &&& d == tf.millis()
        }),
{
    let ms = tf.millis() as int;
    let q = (t as int) / ms;
    vstd::arithmetic::div_mod::lemma_fundamental_div_mod(t as int, ms);
    vstd::arithmetic::div_mod::lemma_mod_pos_bound(t as int, ms);
    assert(q * ms <= t < q * ms + ms) by (nonlinear_arith)
        requires
            t == ms * q + (t as int) % ms,
            0 <= (t as int) % ms < ms,
    ;
    assert(q >= 0) by (nonlinear_arith)
        requires
            t == ms * q + (t as int) % ms,
            0 <= (t as int) % ms < ms,
            t >= 0,
            ms > 0,
    ;
    vstd::arithmetic::div_mod::lemma_mod_multiples_basic(q, ms);
}

/// Candle times strictly increase.
pub open spec fn increasing_times(cs: Seq<Candle>) -> bool {
    forall|a: int, b: int| 0 <= a < b < cs.len() ==> (#[trigger] cs[a]).time < (#[trigger] cs[b]).time
}

/// The spans of increasing candles map each candle's time to its end, and
/// hold no other key.
proof fn lemma_spans_contents(cs: Seq<Candle>, k: nat)
    requires
        increasing_times(cs),
        k <= cs.len(),
    ensures
        forall|a: int| 0 <= a < k ==> candle_spans(cs, k).contains_key((#[trigger] cs[a]).time)
            && candle_spans(cs, k)[cs[a].time] == candle_end(cs, a),
        forall|key: u64| #[trigger] candle_spans(cs, k).contains_key(key) ==> exists|a: int|
            0 <= a < k && (#[trigger] cs[a]).time == key,
    decreases k,
{
    if k > 0 {
        lemma_spans_contents(cs, (k - 1) as nat);
        assert forall|a: int| 0 <= a < k implies candle_spans(cs, k).contains_key((#[trigger] cs[a]).time)
            && candle_spans(cs, k)[cs[a].time] == candle_end(cs, a) by {
            if a < k - 1 {
                assert(cs[a].time < cs[k - 1].time);
            }
        }
        assert forall|key: u64| #[trigger] candle_spans(cs, k).contains_key(key) implies exists|a: int|
            0 <= a < k && (#[trigger] cs[a]).time == key by {
            if key != cs[k - 1].time {
                assert(candle_spans(cs, (k - 1) as nat).contains_key(key));
            } else {
                assert(cs[k - 1].time == key);
            }
        }
    }
}

/// The latest candle at or before `t` is candle `i` where `t` lies in its span.
proof fn lemma_floor_entry_in_span(cs: Seq<Candle>, i: int, t: u64)
    requires
        increasing_times(cs),
        0 <= i < cs.len(),
        cs[i].time <= t,
        i + 1 < cs.len() ==> t < cs[i + 1].time,
    ensures
        floor_entry(candle_spans(cs, cs.len()), t) == Some((cs[i].time, candle_end(cs, i))),
{
    let m = candle_spans(cs, cs.len());
    lemma_spans_contents(cs, cs.len());
    let k0 = cs[i].time;
    assert forall|j: u64| #[trigger] m.contains_key(j) && j <= t implies j <= k0 by {
        let a = choose|a: int| 0 <= a < cs.len() && (#[trigger] cs[a]).time == j;
        if a > i {
            if a > i + 1 {
                assert(cs[i + 1].time < cs[a].time);
            }
        } else if a < i {
            assert(cs[a].time < cs[i].time);
        }
    }
    assert(is_floor_key(m, t, k0));
    let k = choose|k: u64| is_floor_key(m, t, k);
    assert(k <= k0 && k0 <= k);
}

/// On a tick chart whose candles have increasing times, a snapshot taken
/// within a candle's span, before the next candle, puts its runs over that
/// whole span: each run starts at the candle's time and lasts until the
/// next candle's time.
pub proof fn lemma_tick_snapshot_span(v: HeatmapDataView, cs: Seq<Candle>, i: int, s: DepthSnapshot, c: u32)
    requires
        increasing_times(cs),
        0 <= i,
        i + 1 < cs.len(),
        cs[i].time <= s.time < cs[i + 1].time,
        v.candle_time_map == Some(candle_spans(cs, cs.len())),
    ensures
        bucket_time_in(v.candle_time_map, s.time, ChartBasis::Tick(c)) == cs[i].time,
        bucket_time_in(v.candle_time_map, s.time, ChartBasis::Tick(c)) + bucket_duration_in(
            v.candle_time_map,
            cs[i].time,
            ChartBasis::Tick(c),
        ) == cs[i + 1].time,
        snapshot_added(v, s, ChartBasis::Tick(c)).depth_by_price == add_level_runs(
            add_level_runs(v.depth_by_price, s.bids@, s.bids@.len(), cs[i].time, cs[i + 1].time, true),
            s.asks@,
            s.asks@.len(),
            cs[i].time,
            cs[i + 1].time,
            false,
        ),
{
    lemma_floor_entry_in_span(cs, i, s.time);
    lemma_floor_entry_in_span(cs, i, cs[i].time);
}

/// The runs at price `p`.
pub open spec fn runs_at(m: Map<i64, Seq<DepthRun>>, p: i64) -> Seq<DepthRun> {
    if m.contains_key(p) {
        m[p]
    } else {
        Seq::empty()
    }
}

/// `m` with the runs of the first `k` of `levels` appended at their prices.
pub open spec fn add_level_runs(
    m: Map<i64, Seq<DepthRun>>,
    levels: Seq<DepthLevel>,
    k: nat,
    start: u64,
    until: u64,
    is_bid: bool,
) -> Map<i64, Seq<DepthRun>>
    decreases k,
{
    if k == 0 {
        m
    } else {
        let prev = add_level_runs(m, levels, (k - 1) as nat, start, until, is_bid);
        let l = levels[k - 1];
        prev.insert(
            l.price.units,
            runs_at(prev, l.price.units).push(
                DepthRun { start_time: start, until_time: until, qty: l.quantity, is_bid },
            ),
        )
    }
}

/// Adding a snapshot at `time` cannot overflow: its bucket's length is not
/// negative and its end fits in a `u64`.
pub open spec fn snapshot_ok(v: HeatmapDataView, time: u64, basis: ChartBasis) -> bool {
    let b = bucket_time_in(v.candle_time_map, time, basis);
    let d = bucket_duration_in(v.candle_time_map, b, basis);
    0 <= d && b + d <= u64::MAX
}

/// The trades of bucket `b`.
pub open spec fn point_at(m: Map<u64, TradePointView>, b: u64) -> TradePointView {
    if m.contains_key(b) {
        m[b]
    } else {
        empty_point()
    }
}

/// `j` is the first group of `g` at `price` on side `is_sell`.
pub open spec fn is_first_group(g: Seq<GroupedTrade>, price: i64, is_sell: bool, j: int) -> bool {
    &&& 0 <= j < g.len()
    &&& g[j].price.units == price
    &&& g[j].is_sell == is_sell
    &&& forall|i: int| 0 <= i < j ==> !((#[trigger] g[i]).price.units == price && g[i].is_sell == is_sell)
}

/// `g` with `qty` added to the first group at `price` on side `is_sell`,
/// or with a new group for it at the end.
pub open spec fn group_trade(g: Seq<GroupedTrade>, price: i64, qty: u64, is_sell: bool) -> Seq<GroupedTrade> {
    if exists|j: int| is_first_group(g, price, is_sell, j) {
        let j = choose|j: int| is_first_group(g, price, is_sell, j);
        g.update(j, GroupedTrade { qty: sat_add(g[j].qty, qty), ..g[j] })
    } else {
        g.push(GroupedTrade { price: Price { units: price }, qty, is_sell })
    }
}

/// Bucket `p` with trade `t` counted, at price `price` (volumes saturate at
/// `u64::MAX`).
pub open spec fn add_to_point(p: TradePointView, t: Trade, price: i64) -> TradePointView {
    let is_sell = !t.side.buying();
    TradePointView {
        grouped_trades: group_trade(p.grouped_trades, price, t.quantity, is_sell),
        buy_volume: if is_sell {
            p.buy_volume
        } else {
            sat_add(p.buy_volume, t.quantity)
        },
        sell_volume: if is_sell {
            sat_add(p.sell_volume, t.quantity)
        } else {
            p.sell_volume
        },
    }
}

/// The entry of `m` with the greatest key at or before `t`, if any.
fn floor_entry_of(m: &BTreeMap<u64, u64>, t: u64) -> (r: Option<(u64, u64)>)
    ensures
        r == floor_entry(m@, t),
{
    let mut best: Option<(u64, u64)> = None;
    let ghost mv = m@;
    let ghost items = IteratorSpec::remaining(&m.iter());
    for (k, v) in it: m.iter()
        invariant
            mv == m@,
            it.seq() == items,
            forall|j: int|
                0 <= j < items.len() ==> mv.contains_key(*items[j].0) && mv[*items[j].0] == *items[j].1,
            forall|q: u64| #[trigger] mv.contains_key(q) ==> items.contains((&q, &mv[q])),
            best is None ==> forall|j: int| 0 <= j < it.index() ==> *(#[trigger] items[j]).0 > t,
            best matches Some((p, e)) ==> {
                &&& mv.contains_key(p)
                &&& p <= t
                &&& e == mv[p]
                &&& forall|j: int| 0 <= j < it.index() && *(#[trigger] items[j]).0 <= t ==> *items[j].0 <= p
            },
    {
        if *k <= t {
            let better = match best {
                None => true,
                Some((p, _)) => *k > p,
            };
            if better {
                best = Some((*k, *v));
            }
        }
    }
    proof {
        match best {
            Some((p, e)) => {
                assert forall|j: u64| #[trigger] mv.contains_key(j) && j <= t implies j <= p by {
                    assert(items.contains((&j, &mv[j])));
                    let i = choose|i: int| 0 <= i < items.len() && items[i] == (&j, &mv[j]);
                }
                assert(is_floor_key(mv, t, p));
                let c = choose|c: u64| is_floor_key(mv, t, c);
                assert(c == p);
            },
            None => {
                assert forall|k: u64| !is_floor_key(mv, t, k) by {
                    if mv.contains_key(k) {
                        assert(items.contains((&k, &mv[k])));
                    }
                }
            },
        }
    }
    best
}

impl HeatmapData {
    /// Empty heatmap data.
    pub fn new() -> (r: Self)
        ensures
            r@.depth_by_price == Map::<i64, Seq<DepthRun>>::empty(),
            r@.trades_by_time == Map::<u64, TradePointView>::empty(),
            r@.latest_depth_time == 0,
            r@.candle_time_map is None,
    {
        let r = HeatmapData {
            depth_by_price: BTreeMap::new(),
            trades_by_time: BTreeMap::new(),
            latest_depth_time: 0,
            candle_time_map: None,
        };
        proof {
            assert(r@.depth_by_price =~= Map::<i64, Seq<DepthRun>>::empty());
            assert(r@.trades_by_time =~= Map::<u64, TradePointView>::empty());
        }
        r
    }

    /// Empty heatmap data that, on tick charts, buckets by the spans of
    /// `candles`.
    pub fn new_with_candles(candles: &[Candle], basis: ChartBasis) -> (r: Self)
        requires
            basis is Tick && candles@.len() > 0 ==> candles@.last().time + 1000 <= u64::MAX,
        ensures
            r@.depth_by_price == Map::<i64, Seq<DepthRun>>::empty(),
            r@.trades_by_time == Map::<u64, TradePointView>::empty(),
            r@.latest_depth_time == 0,
            r@.candle_time_map == match basis {
                ChartBasis::Tick(_) => Some(candle_spans(candles@, candles@.len())),
                ChartBasis::Time(_) => None,
            },
    {
        let candle_time_map = match basis {
            ChartBasis::Tick(_) => {
                let mut map: BTreeMap<u64, u64> = BTreeMap::new();
                let n = candles.len();
                let mut idx: usize = 0;
                while idx < n
                    invariant
                        idx <= n == candles@.len(),
                        n > 0 ==> candles@[n - 1].time + 1000 <= u64::MAX,
                        map@ == candle_spans(candles@, idx as nat),
                    decreases n - idx,
                {
                    let candle_start = candles[idx].time;
                    let candle_end = if idx + 1 < n {
                        candles[idx + 1].time
                    } else {
                        candle_start + 1000
                    };
                    map.insert(candle_start, candle_end);
                    idx += 1;
                }
                Some(map)
            },
            ChartBasis::Time(_) => None,
        };
        let r = HeatmapData {
            depth_by_price: BTreeMap::new(),
            trades_by_time: BTreeMap::new(),
            latest_depth_time: 0,
            candle_time_map,
        };
        proof {
            assert(r@.depth_by_price =~= Map::<i64, Seq<DepthRun>>::empty());
            assert(r@.trades_by_time =~= Map::<u64, TradePointView>::empty());
        }
        r
    }

    /// Start of the bucket that holds `time`.
    fn bucket_time(&self, time: u64, basis: ChartBasis) -> (r: u64)
        ensures
            r == bucket_time_in(self@.candle_time_map, time, basis),
    {
        match basis {
            ChartBasis::Time(timeframe) => {
                let interval = timeframe.to_millis();
                proof {
                    assert((time / interval) * interval <= time) by (nonlinear_arith)
                        requires
                            interval > 0,
                    ;
                }
                (time / interval) * interval
            },
            ChartBasis::Tick(_) => {
                proof {
                    assert((time / 1000) * 1000 <= time) by (nonlinear_arith);
                }
                match &self.candle_time_map {
                    Some(candle_map) => match floor_entry_of(candle_map, time) {
                        Some((start, end)) => if start <= time && time < end {
                            start
                        } else {
                            (time / 1000) * 1000
                        },
                        None => (time / 1000) * 1000,
                    },
                    None => (time / 1000) * 1000,
                }
            },
        }
    }

    /// Length of the bucket at `time`.
    fn bucket_duration(&self, time: u64, basis: ChartBasis) -> (r: u64)
        requires
            bucket_duration_in(self@.candle_time_map, time, basis) >= 0,
        ensures
            r == bucket_duration_in(self@.candle_time_map, time, basis),
    {
        match basis {
            ChartBasis::Time(timeframe) => timeframe.to_millis(),
            ChartBasis::Tick(_) => match &self.candle_time_map {
                Some(candle_map) => match floor_entry_of(candle_map, time) {
                    Some((start, end)) => end - start,
                    None => 1000,
                },
                None => 1000,
            },
        }
    }
}

/// Runs at each price after adding a snapshot: its bids, then its asks,
/// over the snapshot's bucket.
pub open spec fn depth_after_snapshot(v: HeatmapDataView, s: DepthSnapshot, basis: ChartBasis) -> Map<
    i64,
    Seq<DepthRun>,
> {
    let b = bucket_time_in(v.candle_time_map, s.time, basis);
    let until = (b + bucket_duration_in(v.candle_time_map, b, basis)) as u64;
    add_level_runs(
        add_level_runs(v.depth_by_price, s.bids@, s.bids@.len(), b, until, true),
        s.asks@,
        s.asks@.len(),
        b,
        until,
        false,
    )
}

/// Heatmap data after a snapshot is added.
pub open spec fn snapshot_added(v: HeatmapDataView, s: DepthSnapshot, basis: ChartBasis) -> HeatmapDataView {
    HeatmapDataView { depth_by_price: depth_after_snapshot(v, s, basis), latest_depth_time: s.time, ..v }
}

/// Heatmap data after trade `t` is added with prices rounded to `step`.
pub open spec fn trade_added(v: HeatmapDataView, t: Trade, basis: ChartBasis, step: PriceStep) -> HeatmapDataView {
    let b = bucket_time_in(v.candle_time_map, t.time, basis);
    HeatmapDataView {
        trades_by_time: v.trades_by_time.insert(
            b,
            add_to_point(
                point_at(v.trades_by_time, b),
                t,
                round_units(t.price.units as int, step.units as int) as i64,
            ),
        ),
        ..v
    }
}

/// Heatmap data after the first `k` of `snaps` are added in order.
pub open spec fn snapshots_added(v: HeatmapDataView, snaps: Seq<DepthSnapshot>, k: nat, basis: ChartBasis) -> HeatmapDataView
    decreases k,
{
    if k == 0 {
        v
    } else {
        snapshot_added(snapshots_added(v, snaps, (k - 1) as nat, basis), snaps[k - 1], basis)
    }
}

/// Heatmap data after the first `k` of `trades` are added in order.
pub open spec fn trades_added(
    v: HeatmapDataView,
    trades: Seq<Trade>,
    k: nat,
    basis: ChartBasis,
    step: PriceStep,
) -> HeatmapDataView
    decreases k,
{
    if k == 0 {
        v
    } else {
        trade_added(trades_added(v, trades, (k - 1) as nat, basis, step), trades[k - 1], basis, step)
    }
}

/// Candle spans that heatmap data built for `basis` buckets by.
pub open spec fn candle_map_for(candles: Seq<Candle>, basis: ChartBasis) -> Option<Map<u64, u64>> {
    match basis {
        ChartBasis::Tick(_) => Some(candle_spans(candles, candles.len())),
        ChartBasis::Time(_) => None,
    }
}

/// Empty heatmap data that buckets by `candle_map`.
pub open spec fn empty_heatmap(candle_map: Option<Map<u64, u64>>) -> HeatmapDataView {
    HeatmapDataView {
        depth_by_price: Map::empty(),
        trades_by_time: Map::empty(),
        latest_depth_time: 0,
        candle_time_map: candle_map,
    }
}

/// Heatmap data of a chart: its snapshots, then its trades, added in order.
pub open spec fn heatmap_of(data: &ChartData, basis: ChartBasis, step: PriceStep) -> HeatmapDataView {
    let v0 = empty_heatmap(candle_map_for(data.candles@, basis));
    let v1 = match data.depth_snapshots {
        Some(snaps) => snapshots_added(v0, snaps@, snaps@.len(), basis),
        None => v0,
    };
    trades_added(v1, data.trades@, data.trades@.len(), basis, step)
}

/// Building the heatmap data of a chart cannot overflow: the last
/// candle's span ends within `u64`, every snapshot's bucket can be
/// formed, and every trade price can be rounded.
pub open spec fn heatmap_ok(data: &ChartData, basis: ChartBasis, step: PriceStep) -> bool {
    &&& basis is Tick && data.candles@.len() > 0 ==> data.candles@.last().time + 1000 <= u64::MAX
    &&& data.depth_snapshots matches Some(snaps) ==> forall|k: int|
        0 <= k < snaps@.len() ==> snapshot_ok(
            empty_heatmap(candle_map_for(data.candles@, basis)),
            (#[trigger] snaps@[k]).time,
            basis,
        )
    &&& forall|k: int| 0 <= k < data.trades@.len() ==> round_ok((#[trigger] data.trades@[k]).price.units, step.units)
}

/// Append a run for each of `levels` at its price.
fn push_level_runs(
    map: &mut BTreeMap<i64, Vec<DepthRun>>,
    levels: &Vec<DepthLevel>,
    start: u64,
    until: u64,
    is_bid: bool,
)
    ensures
        final(map)@.map_values(|v: Vec<DepthRun>| v@) == add_level_runs(
            old(map)@.map_values(|v: Vec<DepthRun>| v@),
            levels@,
            levels@.len(),
            start,
            until,
            is_bid,
        ),
{
    let ghost base = old(map)@.map_values(|v: Vec<DepthRun>| v@);
    let mut i: usize = 0;
    while i < levels.len()
        invariant
            i <= levels@.len(),
            base == old(map)@.map_values(|v: Vec<DepthRun>| v@),
            map@.map_values(|v: Vec<DepthRun>| v@) == add_level_runs(base, levels@, i as nat, start, until, is_bid),
        decreases levels@.len() - i,
    {
        let l = levels[i];
        let p = l.price.units;
        let ghost prev = map@.map_values(|v: Vec<DepthRun>| v@);
        let mut runs = match map.remove(&p) {
            Some(v) => v,
            None => Vec::new(),
        };
        proof {
            assert(runs@ == runs_at(prev, p));
        }
        runs.push(DepthRun { start_time: start, until_time: until, qty: l.quantity, is_bid });
        map.insert(p, runs);
        proof {
            assert(map@.map_values(|v: Vec<DepthRun>| v@) =~= prev.insert(
                p,
                runs_at(prev, p).push(
                    DepthRun { start_time: start, until_time: until, qty: l.quantity, is_bid },
                ),
            ));
        }
        i += 1;
    }
}

/// Position of the first group of `g` at `price` on side `is_sell`.
fn first_group_index(g: &Vec<GroupedTrade>, price: i64, is_sell: bool) -> (r: Option<usize>)
    ensures
        match r {
            Some(j) => is_first_group(g@, price, is_sell, j as int),
            None => !exists|j: int| is_first_group(g@, price, is_sell, j),
        },
{
    let mut j: usize = 0;
    while j < g.len()
        invariant
            j <= g@.len(),
            forall|i: int| 0 <= i < j ==> !((#[trigger] g@[i]).price.units == price && g@[i].is_sell == is_sell),
        decreases g@.len() - j,
    {
        if g[j].price.units == price && g[j].is_sell == is_sell {
            return Some(j);
        }
        j += 1;
    }
    proof {
        assert forall|k: int| !is_first_group(g@, price, is_sell, k) by {
            if 0 <= k < g@.len() {
                assert(!(g@[k].price.units == price && g@[k].is_sell == is_sell));
            }
        }
    }
    None
}

impl HeatmapData {
    /// Add an order-book snapshot: each bid, then each ask, gets a run over
    /// the snapshot's bucket at its price.
    pub fn add_depth_snapshot(&mut self, snapshot: &DepthSnapshot, basis: ChartBasis, _tick_size: Price)
        requires
            snapshot_ok(old(self)@, snapshot.time, basis),
        ensures
            final(self)@ == snapshot_added(old(self)@, *snapshot, basis),
    {
        let time = snapshot.time;
        let bucket_time = self.bucket_time(time, basis);
        let bucket_duration = self.bucket_duration(bucket_time, basis);
        let until = bucket_time + bucket_duration;
        push_level_runs(&mut self.depth_by_price, &snapshot.bids, bucket_time, until, true);
        push_level_runs(&mut self.depth_by_price, &snapshot.asks, bucket_time, until, false);
        self.latest_depth_time = time;
    }

    /// Add a trade to its time bucket: its quantity goes to the bucket's
    /// volume on its side, and to the group at its price rounded to
    /// `tick_size` on its side.
    pub fn add_trade(&mut self, trade: &Trade, basis: ChartBasis, tick_size: PriceStep)
        requires
            round_ok(trade.price.units, tick_size.units),
        ensures
            final(self)@ == trade_added(old(self)@, *trade, basis, tick_size),
    {
        let bucket_time = self.bucket_time(trade.time, basis);
        let ghost prev = self.trades_by_time@.map_values(|p: TradeDataPoint| p@);
        let mut entry = match self.trades_by_time.remove(&bucket_time) {
            Some(p) => p,
            None => TradeDataPoint::default(),
        };
        proof {
            assert(entry@ == point_at(prev, bucket_time));
        }
        let qty = trade.quantity;
        let is_sell = trade.is_sell();
        if is_sell {
            entry.sell_volume = entry.sell_volume.saturating_add(qty);
        } else {
            entry.buy_volume = entry.buy_volume.saturating_add(qty);
        }
        let price = trade.price.round_to_step(tick_size).units;
        let ghost g0 = entry.grouped_trades@;
        match first_group_index(&entry.grouped_trades, price, is_sell) {
            Some(j) => {
                let g = entry.grouped_trades[j];
                entry.grouped_trades.set(j, GroupedTrade { qty: g.qty.saturating_add(qty), ..g });
                proof {
                    let c = choose|c: int| is_first_group(g0, price, is_sell, c);
                    if c < j {
                        assert(!(g0[c].price.units == price && g0[c].is_sell == is_sell));
                    }
                    if j < c {
                        assert(!(g0[j as int].price.units == price && g0[j as int].is_sell == is_sell));
                    }
                }
            },
            None => {
                entry.grouped_trades.push(GroupedTrade { price: Price { units: price }, qty, is_sell });
            },
        }
        proof {
            assert(entry@.grouped_trades == group_trade(g0, price, qty, is_sell));
        }
        self.trades_by_time.insert(bucket_time, entry);
        proof {
            assert(self.trades_by_time@.map_values(|p: TradeDataPoint| p@) =~= prev.insert(
                bucket_time,
                add_to_point(point_at(prev, bucket_time), *trade, price),
            ));
        }
    }
}

/// Run `r` overlaps the time range from `earliest` to `latest`.
pub open spec fn run_overlaps(r: DepthRun, earliest: u64, latest: u64) -> bool {
    r.until_time > earliest && r.start_time < latest
}

/// Some run of `runs` overlaps the time range.
pub open spec fn runs_overlap(runs: Seq<DepthRun>, earliest: u64, latest: u64) -> bool {
    exists|i: int| 0 <= i < runs.len() && run_overlaps(#[trigger] runs[i], earliest, latest)
}

/// Price `p` has runs, lies in `[lowest, highest]` and has a run that
/// overlaps the time range.
pub open spec fn price_shown(
    v: HeatmapDataView,
    p: i64,
    earliest: u64,
    latest: u64,
    lowest: i64,
    highest: i64,
) -> bool {
    &&& v.depth_by_price.contains_key(p)
    &&& lowest <= p <= highest
    &&& runs_overlap(v.depth_by_price[p], earliest, latest)
}

/// Run `r` is active at `t`.
pub open spec fn run_active(r: DepthRun, t: u64) -> bool {
    r.start_time <= t && r.until_time >= t
}

/// `j` is the active run of `runs` at `t` that started last (the last such
/// run among those that started at the same time).
pub open spec fn is_latest_run(runs: Seq<DepthRun>, t: u64, j: int) -> bool {
    &&& 0 <= j < runs.len()
    &&& run_active(runs[j], t)
    &&& forall|i: int|
        0 <= i < runs.len() && run_active(#[trigger] runs[i], t) ==> runs[i].start_time < runs[j].start_time
            || (runs[i].start_time == runs[j].start_time && i <= j)
}

/// Some run of `runs` is active at `t`.
pub open spec fn some_active(runs: Seq<DepthRun>, t: u64) -> bool {
    exists|i: int| 0 <= i < runs.len() && run_active(#[trigger] runs[i], t)
}

/// `i64` keys are totally ordered, so a map's entries come in key order.
proof fn lemma_i64_keys_ordered()
    ensures
        vstd::std_specs::btree::key_obeys_cmp_spec::<i64>(),
{
}

/// The entries of a map with `i64` keys come in increasing key order.
proof fn lemma_keys_increasing<V>(items: Seq<(&i64, &V)>)
    requires
        vstd::std_specs::btree::increasing_seq(items.map_values(|kv: (&i64, &V)| *kv.0)),
    ensures
        forall|a: int, b: int| 0 <= a < b < items.len() ==> *items[a].0 < *items[b].0,
{
    let ks = items.map_values(|kv: (&i64, &V)| *kv.0);
    assert forall|a: int, b: int| 0 <= a < b < items.len() implies *items[a].0 < *items[b].0 by {
        assert(ks[a] == *items[a].0 && ks[b] == *items[b].0);
        assert(vstd::std_specs::cmp::OrdSpec::cmp_spec(&ks[a], &ks[b]) is Less);
    }
}

/// Some run of `runs` overlaps the time range.
fn any_run_overlaps(runs: &Vec<DepthRun>, earliest: u64, latest: u64) -> (r: bool)
    ensures
        r == runs_overlap(runs@, earliest, latest),
{
    let mut i: usize = 0;
    while i < runs.len()
        invariant
            i <= runs@.len(),
            forall|k: int| 0 <= k < i ==> !run_overlaps(#[trigger] runs@[k], earliest, latest),
        decreases runs@.len() - i,
    {
        if runs[i].until_time > earliest && runs[i].start_time < latest {
            return true;
        }
        i += 1;
    }
    false
}

/// Position of the active run at `t` that started last, if any.
fn latest_active_run(runs: &Vec<DepthRun>, t: u64) -> (r: Option<usize>)
    ensures
        match r {
            Some(j) => is_latest_run(runs@, t, j as int),
            None => !some_active(runs@, t),
        },
{
    let mut best: Option<usize> = None;
    let mut i: usize = 0;
    while i < runs.len()
        invariant
            i <= runs@.len(),
            best is None ==> forall|k: int| 0 <= k < i ==> !run_active(#[trigger] runs@[k], t),
            best matches Some(j) ==> {
                &&& j < i
                &&& run_active(runs@[j as int], t)
                &&& forall|k: int|
                    0 <= k < i && run_active(#[trigger] runs@[k], t) ==> runs@[k].start_time
                        < runs@[j as int].start_time || (runs@[k].start_time == runs@[j as int].start_time
                        && k <= j)
            },
        decreases runs@.len() - i,
    {
        let r = runs[i];
        if r.start_time <= t && r.until_time >= t {
            let better = match best {
                None => true,
                Some(j) => r.start_time >= runs[j].start_time,
            };
            if better {
                best = Some(i);
            }
        }
        i += 1;
    }
    best
}

impl HeatmapData {
    /// Prices in `[lowest, highest]`, in increasing order, whose runs
    /// overlap the time range, each with its runs.
    pub fn iter_depth_filtered(&self, earliest: u64, latest: u64, highest: Price, lowest: Price) -> (r: Vec<
        (i64, &Vec<DepthRun>),
    >)
        ensures
            forall|j: int|
                0 <= j < r@.len() ==> price_shown(
                    self@,
                    (#[trigger] r@[j]).0,
                    earliest,
                    latest,
                    lowest.units,
                    highest.units,
                ) && r@[j].1@ == self@.depth_by_price[r@[j].0],
            forall|p: i64|
                #[trigger] price_shown(self@, p, earliest, latest, lowest.units, highest.units) ==> exists|
                    j: int,
                | 0 <= j < r@.len() && r@[j].0 == p,
            forall|i: int, j: int| 0 <= i < j < r@.len() ==> r@[i].0 < r@[j].0,
    {
        let lo = lowest.units;
        let hi = highest.units;
        let m = &self.depth_by_price;
        let ghost mv = m@;
        let iter0 = m.iter();
        let ghost items = iter0.remaining();
        proof {
            lemma_i64_keys_ordered();
            lemma_keys_increasing(items);
        }
        let mut out: Vec<(i64, &Vec<DepthRun>)> = Vec::new();
        for (k, v) in it: iter0
            invariant
                mv == m@,
                m == &self.depth_by_price,
                it.seq() == items,
                forall|t: int|
                    0 <= t < items.len() ==> mv.contains_key(*items[t].0) && mv[*items[t].0] == *items[t].1,
                forall|q: i64| #[trigger] mv.contains_key(q) ==> items.contains((&q, &mv[q])),
                forall|a: int, b: int| 0 <= a < b < items.len() ==> *items[a].0 < *items[b].0,
                forall|j: int|
                    0 <= j < out@.len() ==> price_shown(
                        self@,
                        (#[trigger] out@[j]).0,
                        earliest,
                        latest,
                        lo,
                        hi,
                    ) && out@[j].1@ == self@.depth_by_price[out@[j].0],
                forall|t: int|
                    0 <= t < it.index() && price_shown(self@, *(#[trigger] items[t]).0, earliest, latest, lo, hi)
                        ==> exists|j: int| 0 <= j < out@.len() && out@[j].0 == *items[t].0,
                forall|j: int, t: int|
                    0 <= j < out@.len() && it.index() <= t < items.len() ==> (#[trigger] out@[j]).0 < *(
                        #[trigger] items[t]).0,
                forall|i: int, j: int| 0 <= i < j < out@.len() ==> out@[i].0 < out@[j].0,
        {
            let ghost t0 = it.index();
            proof {
                assert(items[t0] == (k, v));
                assert(mv.contains_key(*k) && mv[*k] == *v);
                assert(self@.depth_by_price[*k] == v@);
            }
            let ghost before = out@;
            if lo <= *k && *k <= hi && any_run_overlaps(v, earliest, latest) {
                out.push((*k, v));
            }
            proof {
                assert forall|t: int|
                    0 <= t <= t0 && price_shown(self@, *(#[trigger] items[t]).0, earliest, latest, lo, hi)
                        implies exists|j: int| 0 <= j < out@.len() && out@[j].0 == *items[t].0 by {
                    if t < t0 {
                        let j = choose|j: int| 0 <= j < before.len() && before[j].0 == *items[t].0;
                        assert(out@[j] == before[j]);
                    } else {
                        assert(out@[out@.len() - 1].0 == *items[t].0);
                    }
                }
            }
        }
        proof {
            assert forall|p: i64| #[trigger] price_shown(self@, p, earliest, latest, lo, hi) implies exists|
                j: int,
            | 0 <= j < out@.len() && out@[j].0 == p by {
                assert(items.contains((&p, &mv[p])));
                let t = choose|t: int| 0 <= t < items.len() && items[t] == (&p, &mv[p]);
                assert(price_shown(self@, *items[t].0, earliest, latest, lo, hi));
            }
        }
        out
    }
}

/// `run` is the active run at `t` that started last among `runs`.
pub open spec fn latest_run_is(runs: Seq<DepthRun>, t: u64, run: DepthRun) -> bool {
    exists|i: int| is_latest_run(runs, t, i) && runs[i] == run
}

/// Price `p` has runs, lies in `[lowest, highest]` and has a run active at `t`.
pub open spec fn price_active(v: HeatmapDataView, p: i64, t: u64, lowest: i64, highest: i64) -> bool {
    &&& v.depth_by_price.contains_key(p)
    &&& lowest <= p <= highest
    &&& some_active(v.depth_by_price[p], t)
}

/// Run `r` counts toward the depth scale: it overlaps the time range and
/// holds at least `filter`.
pub open spec fn counted_run(r: DepthRun, earliest: u64, latest: u64, filter: u64) -> bool {
    run_overlaps(r, earliest, latest) && r.qty >= filter
}

/// `q` is the quantity of a run that overlaps the time range and holds at
/// least `filter`, at a price in `[lowest, highest]`.
pub open spec fn shown_depth_qty(
    v: HeatmapDataView,
    earliest: u64,
    latest: u64,
    lowest: i64,
    highest: i64,
    filter: u64,
    q: u64,
) -> bool {
    exists|p: i64, i: int|
        #![trigger v.depth_by_price[p][i]]
        price_shown(v, p, earliest, latest, lowest, highest) && 0 <= i < v.depth_by_price[p].len()
            && counted_run(v.depth_by_price[p][i], earliest, latest, filter) && v.depth_by_price[p][i].qty == q
}

/// `q` is the quantity of a trade group in a bucket that starts in
/// `[earliest, latest]`.
pub open spec fn group_qty_in_range(v: HeatmapDataView, earliest: u64, latest: u64, q: u64) -> bool {
    exists|b: u64, i: int|
        #![trigger v.trades_by_time[b].grouped_trades[i]]
        v.trades_by_time.contains_key(b) && earliest <= b <= latest && 0 <= i
            < v.trades_by_time[b].grouped_trades.len() && v.trades_by_time[b].grouped_trades[i].qty == q
}

/// Bought plus sold volume of bucket `b`.
pub open spec fn aggr_volume(v: HeatmapDataView, b: u64) -> int {
    v.trades_by_time[b].buy_volume + v.trades_by_time[b].sell_volume
}

impl HeatmapData {
    /// For each price in `[lowest, highest]` with a run active at
    /// `latest_time`, in increasing order: the price and the active run
    /// that started last.
    pub fn latest_order_runs(&self, highest: Price, lowest: Price, latest_time: u64) -> (r: Vec<(Price, &DepthRun)>)
        ensures
            forall|j: int|
                0 <= j < r@.len() ==> price_active(
                    self@,
                    (#[trigger] r@[j]).0.units,
                    latest_time,
                    lowest.units,
                    highest.units,
                ) && latest_run_is(self@.depth_by_price[r@[j].0.units], latest_time, *r@[j].1),
            forall|p: i64|
                #[trigger] price_active(self@, p, latest_time, lowest.units, highest.units) ==> exists|
                    j: int,
                | 0 <= j < r@.len() && r@[j].0.units == p,
            forall|i: int, j: int| 0 <= i < j < r@.len() ==> r@[i].0.units < r@[j].0.units,
    {
        let lo = lowest.units;
        let hi = highest.units;
        let m = &self.depth_by_price;
        let ghost mv = m@;
        let iter0 = m.iter();
        let ghost items = iter0.remaining();
        proof {
            lemma_i64_keys_ordered();
            lemma_keys_increasing(items);
        }
        let mut out: Vec<(Price, &DepthRun)> = Vec::new();
        for (k, v) in it: iter0
            invariant
                mv == m@,
                m == &self.depth_by_price,
                it.seq() == items,
                forall|t: int|
                    0 <= t < items.len() ==> mv.contains_key(*items[t].0) && mv[*items[t].0] == *items[t].1,
                forall|q: i64| #[trigger] mv.contains_key(q) ==> items.contains((&q, &mv[q])),
                forall|a: int, b: int| 0 <= a < b < items.len() ==> *items[a].0 < *items[b].0,
                forall|j: int|
                    0 <= j < out@.len() ==> price_active(self@, (#[trigger] out@[j]).0.units, latest_time, lo, hi)
                        && latest_run_is(self@.depth_by_price[out@[j].0.units], latest_time, *out@[j].1),
                forall|t: int|
                    0 <= t < it.index() && price_active(self@, *(#[trigger] items[t]).0, latest_time, lo, hi)
                        ==> exists|j: int| 0 <= j < out@.len() && out@[j].0.units == *items[t].0,
                forall|j: int, t: int|
                    0 <= j < out@.len() && it.index() <= t < items.len() ==> (#[trigger] out@[j]).0.units < *(
                    #[trigger] items[t]).0,
                forall|i: int, j: int| 0 <= i < j < out@.len() ==> out@[i].0.units < out@[j].0.units,
        {
            let ghost t0 = it.index();
            proof {
                assert(items[t0] == (k, v));
                assert(mv.contains_key(*k) && mv[*k] == *v);
                assert(self@.depth_by_price[*k] == v@);
            }
            let ghost before = out@;
            if lo <= *k && *k <= hi {
                match latest_active_run(v, latest_time) {
                    Some(j) => {
                        out.push((Price::from_units(*k), &v[j]));
                        proof {
                            assert(is_latest_run(v@, latest_time, j as int));
                        }
                    },
                    None => {},
                }
            }
            proof {
                assert forall|t: int|
                    0 <= t <= t0 && price_active(self@, *(#[trigger] items[t]).0, latest_time, lo, hi)
                        implies exists|j: int| 0 <= j < out@.len() && out@[j].0.units == *items[t].0 by {
                    if t < t0 {
                        let j = choose|j: int| 0 <= j < before.len() && before[j].0.units == *items[t].0;
                        assert(out@[j] == before[j]);
                    } else {
                        let w = choose|w: int| 0 <= w < v@.len() && run_active(#[trigger] v@[w], latest_time);
                        assert(out@[out@.len() - 1].0.units == *items[t].0);
                    }
                }
            }
        }
        proof {
            assert forall|p: i64| #[trigger] price_active(self@, p, latest_time, lo, hi) implies exists|
                j: int,
            | 0 <= j < out@.len() && out@[j].0.units == p by {
                assert(items.contains((&p, &mv[p])));
                let t = choose|t: int| 0 <= t < items.len() && items[t] == (&p, &mv[p]);
                assert(price_active(self@, *items[t].0, latest_time, lo, hi));
            }
        }
        out
    }

    /// Largest quantity of the runs that overlap the time range and hold at
    /// least `min_qty_filter`, at prices in `[lowest, highest]`, and at
    /// least 1.
    pub fn max_depth_qty_in_range(
        &self,
        earliest: u64,
        latest: u64,
        highest: Price,
        lowest: Price,
        min_qty_filter: u64,
    ) -> (r: u64)
        ensures
            r >= 1,
            forall|q: u64|
                #[trigger] shown_depth_qty(self@, earliest, latest, lowest.units, highest.units, min_qty_filter, q)
                    ==> q <= r,
            r == 1 || shown_depth_qty(self@, earliest, latest, lowest.units, highest.units, min_qty_filter, r),
    {
        let shown = self.iter_depth_filtered(earliest, latest, highest, lowest);
        let ghost v = self@;
        let ghost lo = lowest.units;
        let ghost hi = highest.units;
        let mut best: u64 = 1;
        let mut j: usize = 0;
        while j < shown.len()
            invariant
                v == self@,
                lo == lowest.units,
                hi == highest.units,
                j <= shown@.len(),
                forall|a: int|
                    0 <= a < shown@.len() ==> price_shown(v, (#[trigger] shown@[a]).0, earliest, latest, lo, hi)
                        && shown@[a].1@ == v.depth_by_price[shown@[a].0],
                forall|p: i64|
                    #[trigger] price_shown(v, p, earliest, latest, lo, hi) ==> exists|a: int|
                        0 <= a < shown@.len() && shown@[a].0 == p,
                best >= 1,
                forall|a: int, i: int|
                    0 <= a < j && 0 <= i < shown@[a].1@.len() && counted_run(
                        #[trigger] shown@[a].1@[i],
                        earliest,
                        latest,
                        min_qty_filter,
                    ) ==> shown@[a].1@[i].qty <= best,
                best == 1 || shown_depth_qty(v, earliest, latest, lo, hi, min_qty_filter, best),
            decreases shown@.len() - j,
        {
            let runs = shown[j].1;
            let ghost p = shown@[j as int].0;
            let mut i: usize = 0;
            while i < runs.len()
                invariant
                    v == self@,
                    j < shown@.len(),
                    runs == shown@[j as int].1,
                    p == shown@[j as int].0,
                    price_shown(v, p, earliest, latest, lo, hi),
                    runs@ == v.depth_by_price[p],
                    i <= runs@.len(),
                    best >= 1,
                    forall|a: int, k: int|
                        0 <= a < j && 0 <= k < shown@[a].1@.len() && counted_run(
                            #[trigger] shown@[a].1@[k],
                            earliest,
                            latest,
                            min_qty_filter,
                        ) ==> shown@[a].1@[k].qty <= best,
                    forall|k: int|
                        0 <= k < i && counted_run(#[trigger] runs@[k], earliest, latest, min_qty_filter) ==> runs@[k].qty
                            <= best,
                    best == 1 || shown_depth_qty(v, earliest, latest, lo, hi, min_qty_filter, best),
                decreases runs@.len() - i,
            {
                let run = runs[i];
                let q = run.qty;
                if run.until_time > earliest && run.start_time < latest && q >= min_qty_filter && q > best {
                    best = q;
                    proof {
                        assert(v.depth_by_price[p][i as int].qty == q);
                    }
                }
                i += 1;
            }
            j += 1;
        }
        proof {
            assert forall|q: u64| #[trigger] shown_depth_qty(v, earliest, latest, lo, hi, min_qty_filter, q) implies q
                <= best by {
                let (p, i) = choose|p: i64, i: int|
                    #![trigger v.depth_by_price[p][i]]
                    price_shown(v, p, earliest, latest, lo, hi) && 0 <= i < v.depth_by_price[p].len()
                        && counted_run(v.depth_by_price[p][i], earliest, latest, min_qty_filter)
                        && v.depth_by_price[p][i].qty == q;
                let a = choose|a: int| 0 <= a < shown@.len() && shown@[a].0 == p;
                assert(shown@[a].1@[i] == v.depth_by_price[p][i]);
            }
        }
        best
    }

    /// Largest trade-group quantity in the buckets that start in
    /// `[earliest, latest]`, and at least 1.
    pub fn max_trade_qty_in_range(&self, earliest: u64, latest: u64) -> (r: u64)
        ensures
            r >= 1,
            forall|q: u64| #[trigger] group_qty_in_range(self@, earliest, latest, q) ==> q <= r,
            r == 1 || group_qty_in_range(self@, earliest, latest, r),
    {
        let ghost v = self@;
        let m = &self.trades_by_time;
        let ghost mv = m@;
        let ghost items = IteratorSpec::remaining(&m.iter());
        let mut best: u64 = 1;
        for (b, dp) in it: m.iter()
            invariant
                v == self@,
                mv == m@,
                m == &self.trades_by_time,
                it.seq() == items,
                forall|t: int|
                    0 <= t < items.len() ==> mv.contains_key(*items[t].0) && mv[*items[t].0] == *items[t].1,
                forall|q: u64| #[trigger] mv.contains_key(q) ==> items.contains((&q, &mv[q])),
                best >= 1,
                forall|t: int, i: int|
                    0 <= t < it.index() && earliest <= *items[t].0 <= latest && 0 <= i
                        < items[t].1.grouped_trades@.len() ==> (#[trigger] items[t].1.grouped_trades@[i]).qty <= best,
                best == 1 || group_qty_in_range(v, earliest, latest, best),
        {
            let ghost t0 = it.index();
            proof {
                assert(items[t0] == (b, dp));
                assert(v.trades_by_time[*b] == dp@);
            }
            if earliest <= *b && *b <= latest {
                let mut i: usize = 0;
                while i < dp.grouped_trades.len()
                    invariant
                        v == self@,
                        earliest <= *b <= latest,
                        v.trades_by_time.contains_key(*b),
                        v.trades_by_time[*b] == dp@,
                        i <= dp.grouped_trades@.len(),
                        best >= 1,
                        forall|k: int| 0 <= k < i ==> (#[trigger] dp.grouped_trades@[k]).qty <= best,
                        forall|t: int, k: int|
                            0 <= t < t0 && earliest <= *items[t].0 <= latest && 0 <= k
                                < items[t].1.grouped_trades@.len() ==> (#[trigger] items[t].1.grouped_trades@[k]).qty
                                <= best,
                        best == 1 || group_qty_in_range(v, earliest, latest, best),
                    decreases dp.grouped_trades@.len() - i,
                {
                    let q = dp.grouped_trades[i].qty;
                    if q > best {
                        best = q;
                        proof {
                            assert(v.trades_by_time[*b].grouped_trades[i as int].qty == q);
                        }
                    }
                    i += 1;
                }
            }
        }
        proof {
            assert forall|q: u64| #[trigger] group_qty_in_range(v, earliest, latest, q) implies q <= best by {
                let (b, i) = choose|b: u64, i: int|
                    #![trigger v.trades_by_time[b].grouped_trades[i]]
                    v.trades_by_time.contains_key(b) && earliest <= b <= latest && 0 <= i
                        < v.trades_by_time[b].grouped_trades.len() && v.trades_by_time[b].grouped_trades[i].qty == q;
                assert(items.contains((&b, &mv[b])));
                let t = choose|t: int| 0 <= t < items.len() && items[t] == (&b, &mv[b]);
                assert(items[t].1.grouped_trades@[i] == v.trades_by_time[b].grouped_trades[i]);
            }
        }
        best
    }

    /// Largest bought-plus-sold volume of the buckets that start in
    /// `[earliest, latest]`, and at least 1.
    pub fn max_aggr_volume_in_range(&self, earliest: u64, latest: u64) -> (r: u128)
        ensures
            r >= 1,
            forall|b: u64|
                #[trigger] self@.trades_by_time.contains_key(b) && earliest <= b <= latest ==> aggr_volume(self@, b)
                    <= r,
            r == 1 || exists|b: u64|
                #[trigger] self@.trades_by_time.contains_key(b) && earliest <= b <= latest && aggr_volume(self@, b)
                    == r,
    {
        let ghost v = self@;
        let m = &self.trades_by_time;
        let ghost mv = m@;
        let ghost items = IteratorSpec::remaining(&m.iter());
        let mut best: u128 = 1;
        for (b, dp) in it: m.iter()
            invariant
                v == self@,
                mv == m@,
                m == &self.trades_by_time,
                it.seq() == items,
                forall|t: int|
                    0 <= t < items.len() ==> mv.contains_key(*items[t].0) && mv[*items[t].0] == *items[t].1,
                forall|q: u64| #[trigger] mv.contains_key(q) ==> items.contains((&q, &mv[q])),
                best >= 1,
                forall|t: int|
                    0 <= t < it.index() && earliest <= *(#[trigger] items[t]).0 <= latest ==> items[t].1.buy_volume
                        + items[t].1.sell_volume <= best,
                best == 1 || exists|c: u64|
                    #[trigger] v.trades_by_time.contains_key(c) && earliest <= c <= latest && aggr_volume(v, c) == best,
        {
            let ghost t0 = it.index();
            proof {
                assert(items[t0] == (b, dp));
                assert(v.trades_by_time[*b] == dp@);
            }
            if earliest <= *b && *b <= latest {
                let total = dp.buy_volume as u128 + dp.sell_volume as u128;
                if total > best {
                    best = total;
                    proof {
                        assert(v.trades_by_time.contains_key(*b) && aggr_volume(v, *b) == best);
                    }
                }
            }
        }
        proof {
            assert forall|c: u64| #[trigger] v.trades_by_time.contains_key(c) && earliest <= c <= latest implies aggr_volume(
                v,
                c,
            ) <= best by {
                assert(items.contains((&c, &mv[c])));
                let t = choose|t: int| 0 <= t < items.len() && items[t] == (&c, &mv[c]);
            }
        }
        best
    }
}

impl Default for HeatmapData {
    fn default() -> (r: Self)
        ensures
            r@.depth_by_price == Map::<i64, Seq<DepthRun>>::empty(),
            r@.trades_by_time == Map::<u64, TradePointView>::empty(),
            r@.latest_depth_time == 0,
            r@.candle_time_map is None,
    {
        Self::new()
    }
}

/// Quantity scales for rendering.
#[derive(Clone, Copy, Debug)]
pub struct QtyScale {
    pub max_trade_qty: u64,
    pub max_aggr_volume: u128,
    pub max_depth_qty: u64,
}

/// Adding snapshots or trades keeps the candle spans.
proof fn lemma_adds_keep_spans(v: HeatmapDataView, snaps: Seq<DepthSnapshot>, k: nat, basis: ChartBasis)
    ensures
        snapshots_added(v, snaps, k, basis).candle_time_map == v.candle_time_map,
    decreases k,
{
    if k > 0 {
        lemma_adds_keep_spans(v, snaps, (k - 1) as nat, basis);
    }
}

impl HeatmapData {
    /// Heatmap data of a chart: empty data for its candles, then each
    /// order-book snapshot, then each trade, added in order.
    pub fn from_chart_data(chart_data: &ChartData, basis: ChartBasis, tick_size: PriceStep) -> (r: Self)
        requires
            heatmap_ok(chart_data, basis, tick_size),
        ensures
            r@ == heatmap_of(chart_data, basis, tick_size),
    {
        let mut heatmap_data = HeatmapData::new_with_candles(chart_data.candles.as_slice(), basis);
        let ghost v0 = heatmap_data@;
        proof {
            assert(v0 == empty_heatmap(candle_map_for(chart_data.candles@, basis)));
        }
        let price = Price { units: tick_size.units };
        match &chart_data.depth_snapshots {
            Some(snaps) => {
                let mut k: usize = 0;
                while k < snaps.len()
                    invariant
                        k <= snaps@.len(),
                        chart_data.depth_snapshots == Some(*snaps),
                        heatmap_ok(chart_data, basis, tick_size),
                        v0 == empty_heatmap(candle_map_for(chart_data.candles@, basis)),
                        heatmap_data@ == snapshots_added(v0, snaps@, k as nat, basis),
                    decreases snaps@.len() - k,
                {
                    proof {
                        lemma_adds_keep_spans(v0, snaps@, k as nat, basis);
                        assert(snapshot_ok(v0, (chart_data.depth_snapshots->0)@[k as int].time, basis));
                    }
                    heatmap_data.add_depth_snapshot(&snaps[k], basis, price);
                    k += 1;
                }
            },
            None => {},
        }
        let ghost v1 = heatmap_data@;
        let mut j: usize = 0;
        while j < chart_data.trades.len()
            invariant
                j <= chart_data.trades@.len(),
                heatmap_ok(chart_data, basis, tick_size),
                heatmap_data@ == trades_added(v1, chart_data.trades@, j as nat, basis, tick_size),
            decreases chart_data.trades@.len() - j,
        {
            heatmap_data.add_trade(&chart_data.trades[j], basis, tick_size);
            j += 1;
        }
        heatmap_data
    }
}

/// No two groups of `g` share a price and a side.
pub open spec fn groups_unique(g: Seq<GroupedTrade>) -> bool {
    forall|i: int, j: int|
        0 <= i < j < g.len() ==> !((#[trigger] g[i]).price.units == (#[trigger] g[j]).price.units
            && g[i].is_sell == g[j].is_sell)
}

/// In every bucket, trades at the same price and side form one group.
pub open spec fn trades_grouped(v: HeatmapDataView) -> bool {
    forall|b: u64| #[trigger] v.trades_by_time.contains_key(b) ==> groups_unique(v.trades_by_time[b].grouped_trades)
}

/// Every run ends no earlier than it starts.
pub open spec fn runs_ordered(m: Map<i64, Seq<DepthRun>>) -> bool {
    forall|p: i64, i: int|
        #![trigger m[p][i]]
        m.contains_key(p) && 0 <= i < m[p].len() ==> m[p][i].start_time <= m[p][i].until_time
}

/// Where some group of `g` is at `price` on side `is_sell`, a first one is.
proof fn lemma_first_group_exists(g: Seq<GroupedTrade>, price: i64, is_sell: bool, i: int)
    requires
        0 <= i < g.len(),
        g[i].price.units == price,
        g[i].is_sell == is_sell,
    ensures
        exists|j: int| is_first_group(g, price, is_sell, j),
    decreases i,
{
    if exists|k: int| 0 <= k < i && g[k].price.units == price && g[k].is_sell == is_sell {
        let k = choose|k: int| 0 <= k < i && g[k].price.units == price && g[k].is_sell == is_sell;
        lemma_first_group_exists(g, price, is_sell, k);
    } else {
        assert(is_first_group(g, price, is_sell, i));
    }
}

/// Grouping a trade keeps the groups unique.
pub proof fn lemma_group_trade_keeps_unique(g: Seq<GroupedTrade>, price: i64, qty: u64, is_sell: bool)
    requires
        groups_unique(g),
    ensures
        groups_unique(group_trade(g, price, qty, is_sell)),
{
    if !exists|j: int| is_first_group(g, price, is_sell, j) {
        assert forall|i: int| 0 <= i < g.len() implies !((#[trigger] g[i]).price.units == price && g[i].is_sell
            == is_sell) by {
            if g[i].price.units == price && g[i].is_sell == is_sell {
                lemma_first_group_exists(g, price, is_sell, i);
            }
        }
        let r = group_trade(g, price, qty, is_sell);
        assert forall|i: int, j: int| 0 <= i < j < r.len() implies !((#[trigger] r[i]).price.units == (
        #[trigger] r[j]).price.units && r[i].is_sell == r[j].is_sell) by {
            if j < g.len() {
                assert(r[i] == g[i] && r[j] == g[j]);
            } else {
                assert(r[i] == g[i]);
            }
        }
    } else {
        let r = group_trade(g, price, qty, is_sell);
        assert forall|i: int, j: int| 0 <= i < j < r.len() implies !((#[trigger] r[i]).price.units == (
        #[trigger] r[j]).price.units && r[i].is_sell == r[j].is_sell) by {
            assert(g[i].price == r[i].price && g[i].is_sell == r[i].is_sell);
            assert(g[j].price == r[j].price && g[j].is_sell == r[j].is_sell);
        }
    }
}

/// Adding a trade keeps the trades of every bucket grouped by price and
/// side: a trade at a price and side already seen joins that group.
pub proof fn lemma_add_trade_keeps_groups(v: HeatmapDataView, t: Trade, basis: ChartBasis, step: PriceStep)
    requires
        trades_grouped(v),
    ensures
        trades_grouped(trade_added(v, t, basis, step)),
{
    let b = bucket_time_in(v.candle_time_map, t.time, basis);
    let price = round_units(t.price.units as int, step.units as int) as i64;
    let p = point_at(v.trades_by_time, b);
    assert(groups_unique(p.grouped_trades));
    lemma_group_trade_keeps_unique(p.grouped_trades, price, t.quantity, !t.side.buying());
}

/// Adding a trade adds its quantity to its bucket's volume on its side,
/// unless that volume would saturate.
pub proof fn lemma_add_trade_volume(v: HeatmapDataView, t: Trade, basis: ChartBasis, step: PriceStep)
    requires
        point_at(v.trades_by_time, bucket_time_in(v.candle_time_map, t.time, basis)).buy_volume + t.quantity
            <= u64::MAX,
        point_at(v.trades_by_time, bucket_time_in(v.candle_time_map, t.time, basis)).sell_volume + t.quantity
            <= u64::MAX,
    ensures
        ({
            let b = bucket_time_in(v.candle_time_map, t.time, basis);
            let before = point_at(v.trades_by_time, b);
            let after = point_at(trade_added(v, t, basis, step).trades_by_time, b);
            after.buy_volume + after.sell_volume == before.buy_volume + before.sell_volume + t.quantity
        }),
{
}

/// Runs added for levels over a bucket that ends no earlier than it
/// starts keep every run ordered.
proof fn lemma_level_runs_keep_order(
    m: Map<i64, Seq<DepthRun>>,
    levels: Seq<DepthLevel>,
    k: nat,
    start: u64,
    until: u64,
    is_bid: bool,
)
    requires
        runs_ordered(m),
        start <= until,
        k <= levels.len(),
    ensures
        runs_ordered(add_level_runs(m, levels, k, start, until, is_bid)),
    decreases k,
{
    if k > 0 {
        lemma_level_runs_keep_order(m, levels, (k - 1) as nat, start, until, is_bid);
        let prev = add_level_runs(m, levels, (k - 1) as nat, start, until, is_bid);
        let r = add_level_runs(m, levels, k, start, until, is_bid);
        let p0 = levels[k - 1].price.units;
        assert forall|p: i64, i: int| #![trigger r[p][i]] r.contains_key(p) && 0 <= i < r[p].len() implies r[p][i].start_time
            <= r[p][i].until_time by {
            if p == p0 {
                if i < runs_at(prev, p0).len() {
                    assert(r[p][i] == prev[p][i]);
                }
            } else {
                assert(r[p] == prev[p]);
            }
        }
    }
}

/// Adding a snapshot keeps every run ordered: a run spans its bucket.
pub proof fn lemma_add_snapshot_keeps_runs_ordered(v: HeatmapDataView, s: DepthSnapshot, basis: ChartBasis)
    requires
        runs_ordered(v.depth_by_price),
        snapshot_ok(v, s.time, basis),
    ensures
        runs_ordered(snapshot_added(v, s, basis).depth_by_price),
{
    let b = bucket_time_in(v.candle_time_map, s.time, basis);
    let until = (b + bucket_duration_in(v.candle_time_map, b, basis)) as u64;
    lemma_level_runs_keep_order(v.depth_by_price, s.bids@, s.bids@.len(), b, until, true);
    let m1 = add_level_runs(v.depth_by_price, s.bids@, s.bids@.len(), b, until, true);
    lemma_level_runs_keep_order(m1, s.asks@, s.asks@.len(), b, until, false);
}

impl HeatmapData {
    /// Quantity scales of a viewport: largest trade group, largest bucket
    /// volume and largest run above `order_size_filter` (each at least 1).
    pub fn calc_qty_scales(
        &self,
        earliest: u64,
        latest: u64,
        highest: Price,
        lowest: Price,
        order_size_filter: u64,
    ) -> (r: QtyScale)
        ensures
            r.max_trade_qty >= 1,
            forall|q: u64| #[trigger] group_qty_in_range(self@, earliest, latest, q) ==> q <= r.max_trade_qty,
            r.max_trade_qty == 1 || group_qty_in_range(self@, earliest, latest, r.max_trade_qty),
            r.max_aggr_volume >= 1,
            forall|b: u64|
                #[trigger] self@.trades_by_time.contains_key(b) && earliest <= b <= latest ==> aggr_volume(self@, b)
                    <= r.max_aggr_volume,
            r.max_aggr_volume == 1 || exists|b: u64|
                #[trigger] self@.trades_by_time.contains_key(b) && earliest <= b <= latest && aggr_volume(self@, b)
                    == r.max_aggr_volume,
            r.max_depth_qty >= 1,
            forall|q: u64|
                #[trigger] shown_depth_qty(self@, earliest, latest, lowest.units, highest.units, order_size_filter, q)
                    ==> q <= r.max_depth_qty,
            r.max_depth_qty == 1 || shown_depth_qty(
                self@,
                earliest,
                latest,
                lowest.units,
                highest.units,
                order_size_filter,
                r.max_depth_qty,
            ),
    {
        let max_trade_qty = self.max_trade_qty_in_range(earliest, latest);
        let max_aggr_volume = self.max_aggr_volume_in_range(earliest, latest);
        let max_depth_qty = self.max_depth_qty_in_range(earliest, latest, highest, lowest, order_size_filter);
        QtyScale { max_trade_qty, max_aggr_volume, max_depth_qty }
    }
}

} // verus!
