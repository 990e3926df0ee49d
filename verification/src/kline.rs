//! Candle aggregation of a candlestick chart: each new trade either joins
//! the last candle or opens a new one.

use crate::footprint::{
    build_footprint, footprint_of, prices_roundable, sorted_by_time, time_bound, time_lower_bound, TradeCluster,
};
use crate::market::{sat_add, Candle, ChartBasis, ChartData, ClusterKind, Price, PriceStep, Trade, Timeframe};
use std::collections::BTreeMap;
use vstd::std_specs::iter::IteratorSpec;
use vstd::prelude::*;

verus! {

broadcast use {vstd::std_specs::btree::group_btree_axioms, vstd::laws_cmp::group_laws_cmp};

/// Candle `c` with trade `t` merged in: high and low widened to its price,
/// closed at its price, its quantity added to its side's volume
/// (saturating at `u64::MAX`).
pub open spec fn merge_trade(c: Candle, t: Trade) -> Candle {
    Candle {
        high: if t.price.units > c.high.units {
            t.price
        } else {
            c.high
        },
        low: if t.price.units < c.low.units {
            t.price
        } else {
            c.low
        },
        close: t.price,
        buy_volume: if t.side.buying() {
            sat_add(c.buy_volume, t.quantity)
        } else {
            c.buy_volume
        },
        sell_volume: if t.side.buying() {
            c.sell_volume
        } else {
            sat_add(c.sell_volume, t.quantity)
        },
        ..c
    }
}

/// A candle at `time` opened by trade `t`.
pub open spec fn candle_from_trade(t: Trade, time: u64) -> Candle {
    Candle {
        time,
        open: t.price,
        high: t.price,
        low: t.price,
        close: t.price,
        buy_volume: if t.side.buying() {
            t.quantity
        } else {
            0
        },
        sell_volume: if t.side.buying() {
            0
        } else {
            t.quantity
        },
    }
}

/// Start of the time candle that holds `time`.
pub open spec fn interval_start(time: u64, tf: Timeframe) -> u64 {
    ((time / tf.millis()) * tf.millis()) as u64
}

/// Trades in the last candle of a tick chart with `n_candles` candles of
/// `count` trades and `n_trades` trades in all.
pub open spec fn trades_in_last(n_candles: int, n_trades: int, count: int) -> int {
    let completed = if n_candles > 0 {
        n_candles - 1
    } else {
        0
    };
    if n_trades - completed * count > 0 {
        n_trades - completed * count
    } else {
        0
    }
}

/// The trade joins the last candle: on time charts when that candle is
/// the trade's interval, on tick charts while that candle has room (the
/// trade already counted in `n_trades`).
pub open spec fn joins_last(candles: Seq<Candle>, n_trades: int, t: Trade, basis: ChartBasis) -> bool {
    &&& candles.len() > 0
    &&& match basis {
        ChartBasis::Time(tf) => candles.last().time == interval_start(t.time, tf),
        ChartBasis::Tick(count) => trades_in_last(candles.len() as int, n_trades, count as int) <= count,
    }
}

/// Candles after trade `t` arrives, `n_trades` trades in all: a tick
/// chart of zero trades per candle is left as it is; otherwise the trade
/// joins the last candle or opens one.
pub open spec fn candles_after(candles: Seq<Candle>, n_trades: int, t: Trade, basis: ChartBasis) -> Seq<Candle> {
    if basis == ChartBasis::Tick(0) {
        candles
    } else if joins_last(candles, n_trades, t, basis) {
        candles.update(candles.len() - 1, merge_trade(candles.last(), t))
    } else {
        candles.push(
            candle_from_trade(
                t,
                match basis {
                    ChartBasis::Time(tf) => interval_start(t.time, tf),
                    ChartBasis::Tick(_) => t.time,
                },
            ),
        )
    }
}

/// Length in milliseconds of each timeframe.
pub proof fn lemma_timeframe_lengths()
    ensures
        Timeframe::M1.millis() == 60_000,
        Timeframe::M3.millis() == 3 * 60_000,
        Timeframe::M5.millis() == 5 * 60_000,
        Timeframe::M15.millis() == 15 * 60_000,
        Timeframe::M30.millis() == 30 * 60_000,
        Timeframe::H1.millis() == 60 * 60_000,
        Timeframe::H4.millis() == 4 * 60 * 60_000,
        Timeframe::D1.millis() == 24 * 60 * 60_000,
{
}

/// On a time chart a trade joins, or opens, the candle that starts at its
/// time floored to a multiple of the timeframe's length: the candle holds
/// the trade's interval `[start, start + length)`.
pub proof fn lemma_time_candle_of_trade(candles: Seq<Candle>, n_trades: int, t: Trade, tf: Timeframe)
    ensures
        ({
            let after = candles_after(candles, n_trades, t, ChartBasis::Time(tf));
            let start = (t.time / tf.millis()) * tf.millis();
            &&& after.len() > 0
            &&& after.last().time == start
            &&& start <= t.time < start + tf.millis()
        }),
{
    let ms = tf.millis();
    assert(ms > 0);
    let q = t.time / ms;
    vstd::arithmetic::div_mod::lemma_fundamental_div_mod(t.time as int, ms as int);
    assert(q * ms <= t.time < q * ms + ms) by (nonlinear_arith)
        requires
            t.time == ms * q + (t.time as int) % (ms as int),
            0 <= (t.time as int) % (ms as int) < ms,
    ;
}

/// Counting the trades of a tick chart's completed candles fits in a `usize`.
pub open spec fn append_ok(data: &ChartData, basis: ChartBasis) -> bool {
    match basis {
        ChartBasis::Tick(count) => data.candles@.len() > 0 ==> (data.candles@.len() - 1) * count
            <= usize::MAX,
        ChartBasis::Time(_) => true,
    }
}

impl ChartData {
    /// Append a live trade and fold it into the candles. Gives the time of
    /// the last candle, the chart's new latest x, or `None` where a tick
    /// chart has zero trades per candle and nothing was folded.
    pub fn append_trade(&mut self, trade: &Trade, basis: ChartBasis) -> (r: Option<u64>)
        requires
            append_ok(old(self), basis),
        ensures
            final(self).trades@ == old(self).trades@.push(*trade),
            final(self).candles@ == candles_after(
                old(self).candles@,
                old(self).trades@.len() + 1 as int,
                *trade,
                basis,
            ),
            final(self).depth_snapshots == old(self).depth_snapshots,
            r == if basis == ChartBasis::Tick(0) {
                None
            } else {
                Some(final(self).candles@.last().time)
            },
            basis matches ChartBasis::Time(tf) ==> {
                let start = (trade.time / tf.millis()) * tf.millis();
                &&& r == Some(start as u64)
                &&& final(self).candles@.last().time == start
                &&& final(self).candles@.len() == if old(self).candles@.len() > 0
                    && old(self).candles@.last().time == start {
                    old(self).candles@.len()
                } else {
                    old(self).candles@.len() + 1
                }
            },
    {
        self.trades.push(*trade);
        let is_buy = trade.is_buy();
        let buy_vol: u64 = if is_buy {
            trade.quantity
        } else {
            0
        };
        let sell_vol: u64 = if is_buy {
            0
        } else {
            trade.quantity
        };
        let price = trade.price;
        let n = self.candles.len();
        let (joins, time) = match basis {
            ChartBasis::Time(tf) => {
                let interval = tf.to_millis();
                proof {
                    assert((trade.time / interval) * interval <= trade.time) by (nonlinear_arith)
                        requires
                            interval > 0,
                    ;
                }
                let bucket_time = (trade.time / interval) * interval;
                (n > 0 && self.candles[n - 1].time == bucket_time, bucket_time)
            },
            ChartBasis::Tick(count) => {
                if count == 0 {
                    return None;
                }
                let count = count as usize;
                let num_trades = self.trades.len();
                let completed = if n > 0 {
                    n - 1
                } else {
                    0
                };
                let trades_in_current = num_trades.saturating_sub(completed * count);
                (n > 0 && trades_in_current <= count, trade.time)
            },
        };
        if joins {
            let last = self.candles[n - 1];
            let merged = Candle {
                high: if price.units > last.high.units {
                    price
                } else {
                    last.high
                },
                low: if price.units < last.low.units {
                    price
                } else {
                    last.low
                },
                close: price,
                buy_volume: last.buy_volume.saturating_add(buy_vol),
                sell_volume: last.sell_volume.saturating_add(sell_vol),
                ..last
            };
            self.candles.set(n - 1, merged);
        } else {
            self.candles.push(
                Candle {
                    time,
                    open: price,
                    high: price,
                    low: price,
                    close: price,
                    buy_volume: buy_vol,
                    sell_volume: sell_vol,
                },
            );
        }
        Some(self.candles[self.candles.len() - 1].time)
    }
}

/// The candles a chart holds after `trades` arrive in order on an empty chart.
pub open spec fn candles_from(trades: Seq<Trade>, basis: ChartBasis) -> Seq<Candle>
    decreases trades.len(),
{
    if trades.len() == 0 {
        Seq::empty()
    } else {
        candles_after(candles_from(trades.drop_last(), basis), trades.len() as int, trades.last(), basis)
    }
}

/// Counting a tick chart's completed candles fits in a `usize` while `n`
/// trades are replayed.
pub open spec fn replay_ok(n: int, basis: ChartBasis) -> bool {
    match basis {
        ChartBasis::Tick(count) => n * count <= usize::MAX,
        ChartBasis::Time(_) => true,
    }
}

impl ChartData {
    /// Rebuild the trades and candles from scratch: clear both, then
    /// append `trades` one by one, so that the chart holds exactly what
    /// those trades make.
    pub fn rebuild_from_trades(&mut self, trades: &[Trade], basis: ChartBasis)
        requires
            replay_ok(trades@.len() as int, basis),
        ensures
            final(self).trades@ == trades@,
            final(self).candles@ == candles_from(trades@, basis),
            final(self).depth_snapshots == old(self).depth_snapshots,
    {
        self.trades = Vec::new();
        self.candles = Vec::new();
        let mut i: usize = 0;
        while i < trades.len()
            invariant
                i <= trades@.len(),
                replay_ok(trades@.len() as int, basis),
                self.trades@ == trades@.subrange(0, i as int),
                self.candles@ == candles_from(trades@.subrange(0, i as int), basis),
                self.candles@.len() <= i,
                self.depth_snapshots == old(self).depth_snapshots,
            decreases trades@.len() - i,
        {
            let ghost before = trades@.subrange(0, i as int);
            let ghost after = trades@.subrange(0, i + 1);
            proof {
                assert(after.drop_last() =~= before);
                assert(after.last() == trades@[i as int]);
                match basis {
                    ChartBasis::Tick(count) => {
                        assert((self.candles@.len() - 1) * count <= trades@.len() * count) by (nonlinear_arith)
                            requires
                                self.candles@.len() <= trades@.len(),
                        ;
                    },
                    ChartBasis::Time(_) => {},
                }
            }
            self.append_trade(&trades[i], basis);
            i = i + 1;
        }
        proof {
            assert(trades@.subrange(0, trades@.len() as int) =~= trades@);
        }
    }
}

/// A tick chart of `c` trades per candle holds one candle per `c` trades,
/// the last one possibly partial: `ceil(n / c)` candles for `n` trades.
pub proof fn lemma_tick_candle_count(trades: Seq<Trade>, c: u32)
    requires
        c > 0,
    ensures
        candles_from(trades, ChartBasis::Tick(c)).len() == (trades.len() + c - 1) / (c as int),
    decreases trades.len(),
{
    let n = trades.len() as int;
    let ci = c as int;
    if n == 0 {
        vstd::arithmetic::div_mod::lemma_fundamental_div_mod_converse(ci - 1, ci, 0, ci - 1);
    } else {
        let front = trades.drop_last();
        lemma_tick_candle_count(front, c);
        let m = n - 1;
        let l = (m + ci - 1) / ci;
        assert(ChartBasis::Tick(c) != ChartBasis::Tick(0));
        if m == 0 {
            vstd::arithmetic::div_mod::lemma_fundamental_div_mod_converse(ci - 1, ci, 0, ci - 1);
            vstd::arithmetic::div_mod::lemma_fundamental_div_mod_converse(n + ci - 1, ci, 1, 0);
        } else {
            let q = m / ci;
            let r = m % ci;
            vstd::arithmetic::div_mod::lemma_fundamental_div_mod(m, ci);
            vstd::arithmetic::div_mod::lemma_mod_pos_bound(m, ci);
            assert(q >= 0) by (nonlinear_arith)
                requires
                    m == ci * q + r,
                    0 <= r < ci,
                    m > 0,
            ;
            if r == 0 {
                assert(q >= 1) by (nonlinear_arith)
                    requires
                        m == ci * q,
                        m > 0,
                        ci > 0,
                ;
                assert(m + ci - 1 == ci * q + (ci - 1)) by (nonlinear_arith)
                    requires
                        m == ci * q + r,
                        r == 0,
                ;
                vstd::arithmetic::div_mod::lemma_fundamental_div_mod_converse(m + ci - 1, ci, q, ci - 1);
                assert(l == q);
                assert(n - (l - 1) * ci == ci + 1) by (nonlinear_arith)
                    requires
                        m == ci * q,
                        n == m + 1,
                        l == q,
                ;
                assert(n + ci - 1 == ci * (q + 1) + 0) by (nonlinear_arith)
                    requires
                        m == ci * q,
                        n == m + 1,
                ;
                vstd::arithmetic::div_mod::lemma_fundamental_div_mod_converse(n + ci - 1, ci, q + 1, 0);
            } else {
                assert(m + ci - 1 == ci * (q + 1) + (r - 1)) by (nonlinear_arith)
                    requires
                        m == ci * q + r,
                ;
                vstd::arithmetic::div_mod::lemma_fundamental_div_mod_converse(m + ci - 1, ci, q + 1, r - 1);
                assert(l == q + 1);
                assert(n - (l - 1) * ci == r + 1) by (nonlinear_arith)
                    requires
                        m == ci * q + r,
                        n == m + 1,
                        l == q + 1,
                ;
                assert(n + ci - 1 == (q + 1) * ci + r) by (nonlinear_arith)
                    requires
                        m == ci * q + r,
                        n == m + 1,
                ;
                vstd::arithmetic::div_mod::lemma_fundamental_div_mod_converse(n + ci - 1, ci, q + 1, r);
            }
        }
    }
}

/// Appending a trade to a chart rebuilt from `trades` gives the chart
/// rebuilt from `trades` followed by that trade: a replay can be resumed
/// trade by trade from any position.
pub proof fn lemma_append_extends_rebuild(trades: Seq<Trade>, t: Trade, basis: ChartBasis)
    ensures
        candles_after(candles_from(trades, basis), trades.len() + 1int, t, basis) == candles_from(
            trades.push(t),
            basis,
        ),
{
    assert(trades.push(t).drop_last() =~= trades);
}

/// Candle `c` is consistent: its open and close lie between its low and
/// its high.
pub open spec fn ohlc_consistent(c: Candle) -> bool {
    &&& c.low.units <= c.open.units <= c.high.units
    &&& c.low.units <= c.close.units <= c.high.units
}

/// Bought plus sold volume of the candles.
pub open spec fn total_volume(cs: Seq<Candle>) -> int
    decreases cs.len(),
{
    if cs.len() == 0 {
        0
    } else {
        total_volume(cs.drop_last()) + cs.last().buy_volume + cs.last().sell_volume
    }
}

/// Appending a trade keeps every candle consistent: a candle opened by a
/// trade is, and merging a trade widens high and low to its price.
pub proof fn lemma_append_keeps_ohlc(candles: Seq<Candle>, n_trades: int, t: Trade, basis: ChartBasis)
    requires
        forall|i: int| 0 <= i < candles.len() ==> ohlc_consistent(#[trigger] candles[i]),
    ensures
        forall|i: int|
            0 <= i < candles_after(candles, n_trades, t, basis).len() ==> ohlc_consistent(
                #[trigger] candles_after(candles, n_trades, t, basis)[i],
            ),
{
    if candles.len() > 0 {
        assert(ohlc_consistent(candles[candles.len() - 1]));
    }
}

/// Appending a trade adds its quantity to the candles' total volume,
/// unless the tick chart has zero trades per candle or the volume of the
/// last candle would saturate.
pub proof fn lemma_append_adds_volume(candles: Seq<Candle>, n_trades: int, t: Trade, basis: ChartBasis)
    requires
        basis != ChartBasis::Tick(0),
        candles.len() > 0 ==> candles.last().buy_volume + t.quantity <= u64::MAX,
        candles.len() > 0 ==> candles.last().sell_volume + t.quantity <= u64::MAX,
    ensures
        total_volume(candles_after(candles, n_trades, t, basis)) == total_volume(candles) + t.quantity,
{
    let r = candles_after(candles, n_trades, t, basis);
    if joins_last(candles, n_trades, t, basis) {
        assert(r.drop_last() =~= candles.drop_last());
    } else {
        assert(r.drop_last() =~= candles);
    }
}

/// Appending a trade adds at most one candle, and a tick chart of zero
/// trades per candle gets none.
pub proof fn lemma_append_candle_count(candles: Seq<Candle>, n_trades: int, t: Trade, basis: ChartBasis)
    ensures
        candles.len() <= candles_after(candles, n_trades, t, basis).len() <= candles.len() + 1,
        basis == ChartBasis::Tick(0) ==> candles_after(candles, n_trades, t, basis) == candles,
        basis != ChartBasis::Tick(0) ==> candles_after(candles, n_trades, t, basis).len() > 0,
{
}

/// The quantity of cluster `c` that scales a candlestick footprint of kind
/// `kind`: the larger side for bid/ask, the absolute delta for a delta
/// profile, and the total otherwise.
pub open spec fn kline_cluster_value(kind: ClusterKind, c: TradeCluster) -> int {
    match kind {
        ClusterKind::BidAsk => if c.buy_qty >= c.sell_qty {
            c.buy_qty as int
        } else {
            c.sell_qty as int
        },
        ClusterKind::DeltaProfile => if c.buy_qty >= c.sell_qty {
            c.buy_qty - c.sell_qty
        } else {
            c.sell_qty - c.buy_qty
        },
        ClusterKind::VolumeProfile | ClusterKind::Delta | ClusterKind::Volume | ClusterKind::Trades => c.total(),
    }
}

/// First trade of candle `c`.
pub open spec fn candle_first_trade(trades: Seq<Trade>, c: Candle) -> int {
    time_bound(trades, 0, c.time)
}

/// Trades of candle `c`: from its time to its time plus the interval.
pub open spec fn trades_of_candle(trades: Seq<Trade>, c: Candle, interval_ms: u64) -> Seq<Trade> {
    let lo = candle_first_trade(trades, c);
    trades.subrange(lo, time_bound(trades, lo, (c.time + interval_ms) as u64))
}

/// Footprint of candle `c` within `[lowest, highest]`, prices rounded to `step`.
pub open spec fn candle_clusters(
    trades: Seq<Trade>,
    c: Candle,
    interval_ms: u64,
    step: PriceStep,
    lowest: i64,
    highest: i64,
) -> Map<i64, TradeCluster> {
    footprint_of(trades_of_candle(trades, c, interval_ms), step.units, lowest, highest, 1)
}

/// Building the footprints of `candles` cannot overflow.
pub open spec fn candles_scan_ok(trades: Seq<Trade>, candles: Seq<Candle>, interval_ms: u64, step: PriceStep) -> bool {
    &&& sorted_by_time(trades)
    &&& forall|i: int|
        0 <= i < candles.len() ==> (#[trigger] candles[i]).time + interval_ms <= u64::MAX && prices_roundable(
            trades_of_candle(trades, candles[i], interval_ms),
            step.units,
        )
}

/// `q` is the scaling quantity of a cluster of one of `candles`.
pub open spec fn candle_cluster_qty(
    trades: Seq<Trade>,
    candles: Seq<Candle>,
    interval_ms: u64,
    step: PriceStep,
    lowest: i64,
    highest: i64,
    kind: ClusterKind,
    q: int,
) -> bool {
    exists|i: int, p: i64|
        #![trigger candle_clusters(trades, candles[i], interval_ms, step, lowest, highest)[p]]
        0 <= i < candles.len() && candle_clusters(trades, candles[i], interval_ms, step, lowest, highest).contains_key(p)
            && kline_cluster_value(kind, candle_clusters(trades, candles[i], interval_ms, step, lowest, highest)[p])
            == q
}

/// Scaling quantity of cluster `c` for kind `kind`.
fn kline_cluster_qty(c: &TradeCluster, kind: ClusterKind) -> (r: u128)
    ensures
        r == kline_cluster_value(kind, *c),
{
    match kind {
        ClusterKind::BidAsk => if c.buy_qty >= c.sell_qty {
            c.buy_qty as u128
        } else {
            c.sell_qty as u128
        },
        ClusterKind::DeltaProfile => if c.buy_qty >= c.sell_qty {
            (c.buy_qty - c.sell_qty) as u128
        } else {
            (c.sell_qty - c.buy_qty) as u128
        },
        ClusterKind::VolumeProfile | ClusterKind::Delta | ClusterKind::Volume | ClusterKind::Trades => c.total_qty(),
    }
}

/// Largest scaling quantity among the clusters of the given candles
/// (0 when there are none): each candle's trades are grouped by price
/// rounded to `step`, within `[lowest, highest]`.
pub fn max_qty_from_candles(
    trades: &[Trade],
    candles: &[Candle],
    highest: Price,
    lowest: Price,
    cluster_kind: ClusterKind,
    interval_ms: u64,
    step: PriceStep,
) -> (r: u128)
    requires
        candles_scan_ok(trades@, candles@, interval_ms, step),
    ensures
        forall|q: int|
            #[trigger] candle_cluster_qty(trades@, candles@, interval_ms, step, lowest.units, highest.units, cluster_kind, q)
                ==> q <= r,
        r == 0 || candle_cluster_qty(trades@, candles@, interval_ms, step, lowest.units, highest.units, cluster_kind, r as int),
{
    let ghost lo_u = lowest.units;
    let ghost hi_u = highest.units;
    let mut max_qty: u128 = 0;
    let mut i: usize = 0;
    while i < candles.len()
        invariant
            i <= candles@.len(),
            lo_u == lowest.units,
            hi_u == highest.units,
            candles_scan_ok(trades@, candles@, interval_ms, step),
            forall|a: int, p: i64|
                0 <= a < i && #[trigger] candle_clusters(trades@, candles@[a], interval_ms, step, lo_u, hi_u).contains_key(p)
                    ==> kline_cluster_value(
                    cluster_kind,
                    candle_clusters(trades@, candles@[a], interval_ms, step, lo_u, hi_u)[p],
                ) <= max_qty,
            max_qty == 0 || candle_cluster_qty(trades@, candles@, interval_ms, step, lo_u, hi_u, cluster_kind, max_qty as int),
        decreases candles@.len() - i,
    {
        let candle = candles[i];
        proof {
            assert(candle.time + interval_ms <= u64::MAX);
        }
        let start = time_lower_bound(trades, 0, candle.time);
        let end = time_lower_bound(trades, start, candle.time + interval_ms);
        proof {
            assert(prices_roundable(trades_of_candle(trades@, candles@[i as int], interval_ms), step.units));
        }
        let footprint = build_footprint(trades, start, end, step, lowest.units, highest.units, 1);
        let ghost fp = candle_clusters(trades@, candles@[i as int], interval_ms, step, lo_u, hi_u);
        proof {
            assert(footprint@ == fp);
        }
        let ghost items = IteratorSpec::remaining(&footprint.iter());
        for (k, v) in it: footprint.iter()
            invariant
                fp == footprint@,
                it.seq() == items,
                i < candles@.len(),
                fp == candle_clusters(trades@, candles@[i as int], interval_ms, step, lo_u, hi_u),
                forall|t: int|
                    0 <= t < items.len() ==> fp.contains_key(*items[t].0) && fp[*items[t].0] == *items[t].1,
                forall|q: i64| #[trigger] fp.contains_key(q) ==> items.contains((&q, &fp[q])),
                forall|a: int, p: i64|
                    0 <= a < i && #[trigger] candle_clusters(trades@, candles@[a], interval_ms, step, lo_u, hi_u).contains_key(p)
                        ==> kline_cluster_value(
                        cluster_kind,
                        candle_clusters(trades@, candles@[a], interval_ms, step, lo_u, hi_u)[p],
                    ) <= max_qty,
                forall|t: int|
                    0 <= t < it.index() ==> kline_cluster_value(cluster_kind, *(#[trigger] items[t]).1) <= max_qty,
                max_qty == 0 || candle_cluster_qty(trades@, candles@, interval_ms, step, lo_u, hi_u, cluster_kind, max_qty as int),
        {
            let q = kline_cluster_qty(v, cluster_kind);
            let ghost t0 = it.index();
            if q > max_qty {
                max_qty = q;
                proof {
                    assert(items[t0] == (k, v));
                    assert(fp.contains_key(*k) && fp[*k] == *v);
                    assert(candle_clusters(trades@, candles@[i as int], interval_ms, step, lo_u, hi_u)[*k] == *v);
                }
            }
        }
        proof {
            assert forall|p: i64| #[trigger] fp.contains_key(p) implies kline_cluster_value(cluster_kind, fp[p]) <= max_qty by {
                assert(items.contains((&p, &fp[p])));
                let t = choose|t: int| 0 <= t < items.len() && items[t] == (&p, &fp[p]);
            }
        }
        i += 1;
    }
    proof {
        assert forall|q: int|
            #[trigger] candle_cluster_qty(trades@, candles@, interval_ms, step, lo_u, hi_u, cluster_kind, q) implies q
                <= max_qty by {
            let (a, p) = choose|a: int, p: i64|
                #![trigger candle_clusters(trades@, candles@[a], interval_ms, step, lo_u, hi_u)[p]]
                0 <= a < candles@.len() && candle_clusters(trades@, candles@[a], interval_ms, step, lo_u, hi_u).contains_key(p)
                    && kline_cluster_value(cluster_kind, candle_clusters(trades@, candles@[a], interval_ms, step, lo_u, hi_u)[p])
                    == q;
        }
    }
    max_qty
}

} // verus!
