//! Footprint cache of a candlestick chart: one footprint per candle,
//! computed lazily and evicted oldest-first beyond a budget of price levels.

use crate::footprint::{
    TradeCluster, build_footprint, count_trade, footprint_of, prices_roundable, sorted_by_time,
    lemma_time_bound_exists, time_bound, time_lower_bound,
};
use crate::market::{Candle, ChartBasis, PriceStep, Trade, round_ok, round_units};
use std::collections::BTreeMap;
use vstd::prelude::*;

verus! {

broadcast use {vstd::std_specs::btree::group_btree_axioms, vstd::laws_cmp::group_laws_cmp};

/// Maximum total price levels stored across all cached footprints.
pub const MAX_TOTAL_PRICE_LEVELS: usize = 500_000;

pub type FootprintMap = Map<i64, TradeCluster>;

/// Volume bought and sold at one price level of a cached footprint.
pub type TradeGroup = TradeCluster;

/// Footprint cache storing pre-computed trade groups per candle.
#[derive(Debug)]
pub struct FootprintCache {
    entries: Vec<Option<BTreeMap<i64, TradeCluster>>>,
    total_levels: usize,
    revision: u64,
}

/// Mathematical value of a [`FootprintCache`].
pub struct CacheView {
    pub entries: Seq<Option<FootprintMap>>,
    pub total_levels: nat,
    pub revision: nat,
}

pub open spec fn entry_view(e: Option<BTreeMap<i64, TradeCluster>>) -> Option<FootprintMap> {
    match e {
        Some(m) => Some(m@),
        None => None,
    }
}

/// `k` is the first cached entry.
pub open spec fn is_first_some(es: Seq<Option<FootprintMap>>, k: int) -> bool {
    &&& 0 <= k < es.len()
    &&& es[k] is Some
    &&& forall|j: int| 0 <= j < k ==> es[j] is None
}

/// Position of the first cached entry, if any.
pub open spec fn first_some(es: Seq<Option<FootprintMap>>) -> Option<int> {
    if exists|k: int| is_first_some(es, k) {
        Some(choose|k: int| is_first_some(es, k))
    } else {
        None
    }
}

/// Number of cached entries.
pub open spec fn num_some(es: Seq<Option<FootprintMap>>) -> nat
    decreases es.len(),
{
    if es.len() == 0 {
        0
    } else {
        num_some(es.drop_last()) + if es.last() is Some {
            1nat
        } else {
            0nat
        }
    }
}

/// Clearing a cached entry leaves one fewer cached entry.
pub proof fn lemma_num_some_clear(es: Seq<Option<FootprintMap>>, k: int)
    requires
        0 <= k < es.len(),
        es[k] is Some,
    ensures
        num_some(es.update(k, None)) + 1 == num_some(es),
    decreases es.len(),
{
    if k < es.len() - 1 {
        lemma_num_some_clear(es.drop_last(), k);
        assert(es.update(k, None).drop_last() =~= es.drop_last().update(k, None));
    } else {
        assert(es.update(k, None).drop_last() =~= es.drop_last());
    }
}

/// Where some entry is cached, a first cached entry exists.
proof fn lemma_first_some_exists(es: Seq<Option<FootprintMap>>, k: int)
    requires
        0 <= k < es.len(),
        es[k] is Some,
    ensures
        first_some(es) is Some,
    decreases k,
{
    if exists|j: int| 0 <= j < k && es[j] is Some {
        let j = choose|j: int| 0 <= j < k && es[j] is Some;
        lemma_first_some_exists(es, j);
    } else {
        assert(is_first_some(es, k));
    }
}

/// `a - b`, or zero when `b > a`.
pub open spec fn sat_sub(a: nat, b: nat) -> nat {
    if a >= b {
        (a - b) as nat
    } else {
        0
    }
}

/// Entries and level count after evicting oldest-first until a footprint
/// of `l` levels fits in the budget, or nothing is left to evict.
pub open spec fn evict_until(es: Seq<Option<FootprintMap>>, total: nat, l: nat) -> (Seq<Option<FootprintMap>>, nat)
    decreases num_some(es),
{
    if total + l > MAX_TOTAL_PRICE_LEVELS && first_some(es) is Some {
        let k = first_some(es)->0;
        let m = es[k]->0;
        proof {
            lemma_num_some_clear(es, k);
        }
        evict_until(es.update(k, None), sat_sub(total, m.len()), l)
    } else {
        (es, total)
    }
}

impl CacheView {
    /// Entries grown with empty slots so that `idx` is a valid position.
    pub open spec fn grown(self, len: int) -> Seq<Option<FootprintMap>> {
        if self.entries.len() < len {
            self.entries + Seq::new((len - self.entries.len()) as nat, |i: int| None)
        } else {
            self.entries
        }
    }

    /// The cache after storing footprint `fp` for candle `idx`.
    pub open spec fn insert(self, idx: int, fp: FootprintMap) -> CacheView {
        let (es, t) = evict_until(self.grown(idx + 1), self.total_levels, fp.len());
        CacheView { entries: es.update(idx, Some(fp)), total_levels: t + fp.len(), ..self }
    }

    /// Inserting `fp` cannot overflow the level count.
    pub open spec fn insert_ok(self, idx: int, fp: FootprintMap) -> bool {
        &&& idx < usize::MAX
        &&& self.total_levels + fp.len() <= usize::MAX
    }
}

/// Time at which candle `idx` ends: the next candle's time, or `interval`
/// after its own time for the last candle.
pub open spec fn candle_end(candles: Seq<Candle>, idx: int, interval: u64) -> int {
    if idx + 1 < candles.len() {
        candles[idx + 1].time as int
    } else {
        candles[idx].time + interval
    }
}

/// Position of the first trade of candle `idx`.
pub open spec fn candle_first_trade(candles: Seq<Candle>, trades: Seq<Trade>, idx: int) -> int {
    time_bound(trades, 0, candles[idx].time)
}

/// Position after the last trade of candle `idx`.
pub open spec fn candle_last_trade(candles: Seq<Candle>, trades: Seq<Trade>, idx: int, interval: u64) -> int {
    time_bound(
        trades,
        candle_first_trade(candles, trades, idx),
        candle_end(candles, idx, interval) as u64,
    )
}

/// The trades of a candle are exactly those at or after its time and
/// before the next candle's time; for the last candle, before its time
/// plus the interval.
pub proof fn lemma_candle_trades(candles: Seq<Candle>, trades: Seq<Trade>, idx: int, interval: u64)
    requires
        sorted_by_time(trades),
        0 <= idx < candles.len(),
        idx + 1 == candles.len() ==> candles[idx].time + interval <= u64::MAX,
    ensures
        forall|k: int|
            0 <= k < trades.len() ==> ((candle_first_trade(candles, trades, idx) <= k < candle_last_trade(
                candles,
                trades,
                idx,
                interval,
            )) <==> (candles[idx].time <= (#[trigger] trades[k]).time && if idx + 1 < candles.len() {
                trades[k].time < candles[idx + 1].time
            } else {
                trades[k].time < candles[idx].time + interval
            })),
{
    let first = candle_first_trade(candles, trades, idx);
    lemma_time_bound_exists(trades, 0, candles[idx].time);
    let end = if idx + 1 < candles.len() {
        candles[idx + 1].time
    } else {
        (candles[idx].time + interval) as u64
    };
    assert(candle_end(candles, idx, interval) as u64 == end);
    lemma_time_bound_exists(trades, first, end);
    let last = candle_last_trade(candles, trades, idx, interval);
    assert forall|k: int| 0 <= k < trades.len() implies ((first <= k < last) <==> (candles[idx].time
        <= (#[trigger] trades[k]).time && trades[k].time < end)) by {
        if first <= k < last {
            assert(trades[first].time >= candles[idx].time);
            assert(trades[first].time <= trades[k].time);
        }
        if candles[idx].time <= trades[k].time && trades[k].time < end {
            if k < first {
                assert(trades[k].time < candles[idx].time);
            }
            if k >= last {
                assert(trades[last].time >= end);
                assert(trades[last].time <= trades[k].time);
            }
        }
    }
}

/// Footprint of all trades of candle `idx`, prices rounded to `step`.
pub open spec fn candle_footprint(candles: Seq<Candle>, trades: Seq<Trade>, idx: int, interval: u64, step: i64) -> FootprintMap {
    footprint_of(
        trades.subrange(
            candle_first_trade(candles, trades, idx),
            candle_last_trade(candles, trades, idx, interval),
        ),
        step,
        i64::MIN,
        i64::MAX,
        1,
    )
}

/// The cache after computing the missing footprints of candles `start..k`.
pub open spec fn ensure_upto(c: CacheView, start: int, k: int, candles: Seq<Candle>, trades: Seq<Trade>, interval: u64, step: i64) -> CacheView
    decreases k - start,
{
    if k <= start {
        c
    } else {
        let p = ensure_upto(c, start, k - 1, candles, trades, interval, step);
        if p.entries[k - 1] is Some {
            p
        } else {
            p.insert(k - 1, candle_footprint(candles, trades, k - 1, interval, step))
        }
    }
}

/// Computing the footprints of candles `start..k` cannot overflow.
pub open spec fn ensure_ok(c: CacheView, start: int, k: int, candles: Seq<Candle>, trades: Seq<Trade>, interval: u64, step: i64) -> bool
    decreases k - start,
{
    if k <= start {
        true
    } else {
        let p = ensure_upto(c, start, k - 1, candles, trades, interval, step);
        let idx = k - 1;
        &&& ensure_ok(c, start, k - 1, candles, trades, interval, step)
        &&& p.entries[idx] is None ==> {
            &&& candle_end(candles, idx, interval) <= u64::MAX
            &&& prices_roundable(
                trades.subrange(
                    candle_first_trade(candles, trades, idx),
                    candle_last_trade(candles, trades, idx, interval),
                ),
                step,
            )
            &&& p.insert_ok(idx, candle_footprint(candles, trades, idx, interval, step))
        }
    }
}

/// What can compute candles `start..k` can compute a shorter range.
proof fn lemma_ensure_ok_prefix(c: CacheView, start: int, j: int, k: int, candles: Seq<Candle>, trades: Seq<Trade>, interval: u64, step: i64)
    requires
        ensure_ok(c, start, k, candles, trades, interval, step),
        j <= k,
    ensures
        ensure_ok(c, start, j, candles, trades, interval, step),
    decreases k - j,
{
    if j < k && k > start {
        lemma_ensure_ok_prefix(c, start, j, k - 1, candles, trades, interval, step);
    }
}

/// Computing missing footprints keeps the number of entries.
proof fn lemma_ensure_len(c: CacheView, start: int, k: int, candles: Seq<Candle>, trades: Seq<Trade>, interval: u64, step: i64)
    requires
        0 <= start,
        k <= c.entries.len(),
    ensures
        ensure_upto(c, start, k, candles, trades, interval, step).entries.len() == c.entries.len(),
    decreases k - start,
{
    if k > start {
        lemma_ensure_len(c, start, k - 1, candles, trades, interval, step);
        let p = ensure_upto(c, start, k - 1, candles, trades, interval, step);
        if p.entries[k - 1] is None {
            assert(p.grown(k) == p.entries);
            lemma_evict_len(p.grown(k), p.total_levels, candle_footprint(candles, trades, k - 1, interval, step).len());
        }
    }
}

/// Evicting keeps the number of entries, never raises the level count, and
/// stops within budget or with nothing left cached.
proof fn lemma_evict_len(es: Seq<Option<FootprintMap>>, total: nat, l: nat)
    ensures
        evict_until(es, total, l).0.len() == es.len(),
        evict_until(es, total, l).1 <= total,
        evict_until(es, total, l).1 + l <= MAX_TOTAL_PRICE_LEVELS || first_some(evict_until(es, total, l).0) is None,
    decreases num_some(es),
{
    if total + l > MAX_TOTAL_PRICE_LEVELS && first_some(es) is Some {
        let k = first_some(es)->0;
        lemma_num_some_clear(es, k);
        lemma_evict_len(es.update(k, None), sat_sub(total, es[k]->0.len()), l);
    }
}

/// After a footprint is stored, the cache is within its level budget, or
/// every other footprint has been evicted.
pub proof fn lemma_insert_respects_budget(c: CacheView, idx: int, fp: FootprintMap)
    requires
        0 <= idx,
    ensures
        c.insert(idx, fp).total_levels <= MAX_TOTAL_PRICE_LEVELS || forall|k: int|
            0 <= k < c.insert(idx, fp).entries.len() && k != idx ==> (#[trigger] c.insert(
                idx,
                fp,
            ).entries[k]) is None,
        c.insert(idx, fp).entries[idx] == Some(fp),
{
    let g = c.grown(idx + 1);
    lemma_evict_len(g, c.total_levels, fp.len());
    let es = evict_until(g, c.total_levels, fp.len()).0;
    if first_some(es) is None {
        assert forall|k: int| 0 <= k < es.len() implies es[k] is None by {
            if es[k] is Some {
                lemma_first_some_exists(es, k);
            }
        }
    }
}

/// The interval assumed for the last candle.
pub open spec fn basis_interval(basis: ChartBasis) -> u64 {
    match basis {
        ChartBasis::Time(tf) => tf.millis(),
        ChartBasis::Tick(_) => 1000,
    }
}

impl View for FootprintCache {
    type V = CacheView;

    closed spec fn view(&self) -> CacheView {
        CacheView {
            entries: self.entries@.map_values(|e: Option<BTreeMap<i64, TradeCluster>>| entry_view(e)),
            total_levels: self.total_levels as nat,
            revision: self.revision as nat,
        }
    }
}

impl FootprintCache {
    /// An empty cache.
    pub fn new() -> (r: FootprintCache)
        ensures
            r@.entries.len() == 0,
            r@.total_levels == 0,
            r@.revision == 0,
    {
        FootprintCache { entries: Vec::new(), total_levels: 0, revision: 0 }
    }

    /// The cached footprint of candle `candle_index`, if any.
    pub fn get(&self, candle_index: usize) -> (r: Option<&BTreeMap<i64, TradeCluster>>)
        ensures
            match r {
                Some(m) => candle_index < self@.entries.len() && self@.entries[candle_index as int]
                    == Some(m@),
                None => candle_index >= self@.entries.len() || self@.entries[candle_index as int] is None,
            },
    {
        if candle_index < self.entries.len() {
            match &self.entries[candle_index] {
                Some(m) => Some(m),
                None => None,
            }
        } else {
            None
        }
    }

    /// Number of entries (cached or not).
    pub fn len(&self) -> (r: usize)
        ensures
            r == self@.entries.len(),
    {
        self.entries.len()
    }

    /// Counter bumped whenever cached footprints change.
    pub fn revision(&self) -> (r: u64)
        ensures
            r == self@.revision,
    {
        self.revision
    }

    /// Evict the oldest cached footprint. Returns false if nothing was cached.
    pub fn evict_oldest(&mut self) -> (r: bool)
        ensures
            r == first_some(old(self)@.entries) is Some,
            match first_some(old(self)@.entries) {
                Some(k) => final(self)@ == (CacheView {
                    entries: old(self)@.entries.update(k, None),
                    total_levels: sat_sub(old(self)@.total_levels, old(self)@.entries[k]->0.len()),
                    ..old(self)@
                }),
                None => final(self)@ == old(self)@,
            },
    {
        let ghost es = self@.entries;
        let mut i: usize = 0;
        while i < self.entries.len()
            invariant
                i <= self.entries.len(),
                self@ == old(self)@,
                es == self@.entries,
                forall|j: int| 0 <= j < i ==> es[j] is None,
            decreases self.entries.len() - i,
        {
            if self.entries[i].is_some() {
                proof {
                    assert(is_first_some(es, i as int));
                    let k = choose|k: int| is_first_some(es, k);
                    if k < i {
                        assert(es[k] is None);
                    }
                    if k > i {
                        assert(es[i as int] is None);
                    }
                }
                let mut taken: Option<BTreeMap<i64, TradeCluster>> = None;
                std::mem::swap(&mut taken, &mut self.entries[i]);
                let fp = taken.unwrap();
                self.total_levels = self.total_levels.saturating_sub(fp.len());
                proof {
                    assert(self@.entries =~= es.update(i as int, None));
                }
                return true;
            }
            i += 1;
        }
        proof {
            assert(!exists|k: int| is_first_some(es, k));
        }
        false
    }

    /// Store the footprint of candle `candle_index`, evicting oldest
    /// footprints first while the level budget would be exceeded.
    pub fn insert(&mut self, candle_index: usize, footprint: BTreeMap<i64, TradeCluster>)
        requires
            old(self)@.insert_ok(candle_index as int, footprint@),
        ensures
            final(self)@ == old(self)@.insert(candle_index as int, footprint@),
    {
        let ghost fpv = footprint@;
        let l = footprint.len();
        if candle_index >= self.entries.len() {
            let ghost e0 = self@.entries;
            while self.entries.len() < candle_index + 1
                invariant
                    candle_index < usize::MAX,
                    self.entries.len() <= candle_index + 1,
                    e0.len() <= self@.entries.len(),
                    self@.entries == e0 + Seq::new((self@.entries.len() - e0.len()) as nat, |i: int| None::<FootprintMap>),
                    self@.total_levels == old(self)@.total_levels,
                    self@.revision == old(self)@.revision,
                    e0 == old(self)@.entries,
                decreases candle_index + 1 - self.entries.len(),
            {
                let ghost before = self@.entries;
                self.entries.push(None);
                proof {
                    assert(self@.entries =~= before.push(None));
                    assert(self@.entries =~= e0 + Seq::new((self@.entries.len() - e0.len()) as nat, |i: int| None::<FootprintMap>));
                }
            }
        }
        let ghost g = self@;
        proof {
            assert(g.entries == old(self)@.grown(candle_index + 1));
        }
        while self.total_levels + l > MAX_TOTAL_PRICE_LEVELS
            invariant
                l == fpv.len(),
                self@.revision == old(self)@.revision,
                self@.total_levels <= g.total_levels,
                g.total_levels + l <= usize::MAX,
                self@.entries.len() == g.entries.len(),
                evict_until(self@.entries, self@.total_levels, l as nat) == evict_until(g.entries, g.total_levels, l as nat),
            ensures
                evict_until(self@.entries, self@.total_levels, l as nat) == (self@.entries, self@.total_levels),
                self@.revision == old(self)@.revision,
                self@.entries.len() == g.entries.len(),
                evict_until(self@.entries, self@.total_levels, l as nat) == evict_until(g.entries, g.total_levels, l as nat),
                self@.total_levels <= g.total_levels,
            decreases num_some(self@.entries),
        {
            let ghost before = self@;
            if !self.evict_oldest() {
                break;
            }
            proof {
                let k = first_some(before.entries)->0;
                lemma_num_some_clear(before.entries, k);
                assert(evict_until(before.entries, before.total_levels, l as nat) == evict_until(self@.entries, self@.total_levels, l as nat));
            }
        }
        self.total_levels = self.total_levels + l;
        self.entries.set(candle_index, Some(footprint));
        proof {
            assert(self@.entries =~= evict_until(g.entries, g.total_levels, l as nat).0.update(candle_index as int, Some(fpv)));
        }
    }

    /// Update the last candle's footprint incrementally with a new trade.
    pub fn update_last(&mut self, trade: &Trade, tick_size: PriceStep)
        requires
            old(self)@.entries.len() > 0 ==> round_ok(trade.price.units, tick_size.units)
                && old(self)@.revision < u64::MAX,
        ensures
            old(self)@.entries.len() == 0 ==> final(self)@ == old(self)@,
            old(self)@.entries.len() > 0 ==> {
                let last = old(self)@.entries.len() - 1;
                let m = match old(self)@.entries[last] {
                    Some(m) => m,
                    None => Map::empty(),
                };
                final(self)@ == (CacheView {
                    entries: old(self)@.entries.update(
                        last,
                        Some(count_trade(m, round_units(trade.price.units as int, tick_size.units as int) as i64, *trade)),
                    ),
                    revision: old(self)@.revision + 1,
                    ..old(self)@
                })
            },
    {
        if self.entries.len() == 0 {
            return;
        }
        let last_idx = self.entries.len() - 1;
        let mut taken: Option<BTreeMap<i64, TradeCluster>> = None;
        std::mem::swap(&mut taken, &mut self.entries[last_idx]);
        let mut entry = match taken {
            Some(m) => m,
            None => BTreeMap::new(),
        };
        let price_rounded = trade.price.round_to_step(tick_size).units;
        let g = match entry.get(&price_rounded) {
            Some(g) => *g,
            None => TradeCluster { buy_qty: 0, sell_qty: 0 },
        };
        let ng = if trade.is_buy() {
            TradeCluster { buy_qty: g.buy_qty.saturating_add(trade.quantity), ..g }
        } else {
            TradeCluster { sell_qty: g.sell_qty.saturating_add(trade.quantity), ..g }
        };
        entry.insert(price_rounded, ng);
        self.entries.set(last_idx, Some(entry));
        self.revision += 1;
        proof {
            assert(self@.entries =~= old(self)@.entries.update(
                last_idx as int,
                Some(count_trade(
                    match old(self)@.entries[last_idx as int] {
                        Some(m) => m,
                        None => Map::empty(),
                    },
                    price_rounded,
                    *trade,
                )),
            ));
        }
    }

    /// Extend the cache to accommodate a new candle.
    pub fn push_empty(&mut self)
        ensures
            final(self)@ == (CacheView { entries: old(self)@.entries.push(None), ..old(self)@ }),
    {
        self.entries.push(None);
        proof {
            assert(self@.entries =~= old(self)@.entries.push(None));
        }
    }

    /// Drop every footprint.
    pub fn clear(&mut self)
        requires
            old(self)@.revision < u64::MAX,
        ensures
            final(self)@ == (CacheView { entries: Seq::empty(), total_levels: 0, revision: old(self)@.revision + 1 }),
    {
        self.entries.clear();
        self.total_levels = 0;
        self.revision += 1;
        proof {
            assert(self@.entries =~= Seq::<Option<FootprintMap>>::empty());
        }
    }

    /// Ensure footprints are computed for candles `start..end`.
    pub fn ensure_range(
        &mut self,
        start: usize,
        end: usize,
        candles: &[Candle],
        trades: &[Trade],
        tick_size: PriceStep,
        basis: &ChartBasis,
    )
        requires
            sorted_by_time(trades@),
            candles@.len() > 0 ==> ensure_ok(
                CacheView { entries: old(self)@.grown(candles@.len() as int), ..old(self)@ },
                start as int,
                if end < candles@.len() { end as int } else { candles@.len() as int },
                candles@,
                trades@,
                basis_interval(*basis),
                tick_size.units,
            ),
        ensures
            candles@.len() == 0 ==> final(self)@ == old(self)@,
            candles@.len() > 0 ==> final(self)@ == ensure_upto(
                CacheView { entries: old(self)@.grown(candles@.len() as int), ..old(self)@ },
                start as int,
                if end < candles@.len() { end as int } else { candles@.len() as int },
                candles@,
                trades@,
                basis_interval(*basis),
                tick_size.units,
            ),
    {
        let candle_count = candles.len();
        if candle_count == 0 {
            return;
        }
        while self.entries.len() < candle_count
            invariant
                self@.entries.len() <= candle_count || self@.entries.len() == old(self)@.entries.len(),
                old(self)@.entries.len() <= self@.entries.len(),
                self@.entries == old(self)@.entries + Seq::new((self@.entries.len() - old(self)@.entries.len()) as nat, |i: int| None::<FootprintMap>),
                self@.total_levels == old(self)@.total_levels,
                self@.revision == old(self)@.revision,
            decreases candle_count - self.entries.len(),
        {
            let ghost before = self@.entries;
            self.entries.push(None);
            proof {
                assert(self@.entries =~= before.push(None));
                assert(self@.entries =~= old(self)@.entries + Seq::new((self@.entries.len() - old(self)@.entries.len()) as nat, |i: int| None::<FootprintMap>));
            }
        }
        let ghost g = self@;
        proof {
            assert(g == (CacheView { entries: old(self)@.grown(candle_count as int), ..old(self)@ }));
        }
        let end = if end < candle_count { end } else { candle_count };
        let interval_ms = match basis {
            ChartBasis::Time(tf) => tf.to_millis(),
            ChartBasis::Tick(_) => 1000,
        };
        let ghost cs = candles@;
        let ghost ts = trades@;
        let mut idx = start;
        while idx < end
            invariant
                start <= idx,
                idx <= end || start >= end,
                start >= end ==> idx == start,
                end <= candle_count,
                candle_count == cs.len(),
                cs == candles@,
                ts == trades@,
                sorted_by_time(ts),
                interval_ms == basis_interval(*basis),
                g.entries.len() >= candle_count,
                ensure_ok(g, start as int, end as int, cs, ts, interval_ms, tick_size.units),
                self@ == ensure_upto(g, start as int, idx as int, cs, ts, interval_ms, tick_size.units),
            decreases end - idx,
        {
            proof {
                lemma_ensure_len(g, start as int, idx as int, cs, ts, interval_ms, tick_size.units);
                lemma_ensure_ok_prefix(g, start as int, idx + 1, end as int, cs, ts, interval_ms, tick_size.units);
            }
            if self.entries[idx].is_some() {
                idx += 1;
                continue;
            }
            let candle = &candles[idx];
            let candle_start = candle.time;
            let candle_end = if idx + 1 < candle_count {
                candles[idx + 1].time
            } else {
                candle.time + interval_ms
            };
            let start_trade = time_lower_bound(trades, 0, candle_start);
            let end_trade = time_lower_bound(trades, start_trade, candle_end);
            let footprint = build_footprint(trades, start_trade, end_trade, tick_size, i64::MIN, i64::MAX, 1);
            self.insert(idx, footprint);
            idx += 1;
        }
        proof {
            if start >= end {
                assert(ensure_upto(g, start as int, end as int, cs, ts, interval_ms, tick_size.units) == g);
                assert(ensure_upto(g, start as int, idx as int, cs, ts, interval_ms, tick_size.units) == g);
            }
        }
    }
}

} // verus!
