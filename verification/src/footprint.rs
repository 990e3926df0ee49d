//! Footprints: per-price buy and sell volume of the trades in a candle.

use crate::market::{PriceStep, Trade, round_ok, round_units, sat_add};
use std::collections::{BTreeMap, BTreeSet};
use vstd::prelude::*;
use vstd::std_specs::iter::IteratorSpec;

verus! {

broadcast use {vstd::std_specs::btree::group_btree_axioms, vstd::laws_cmp::group_laws_cmp};

/// Volume bought and sold at one price level of a footprint.
#[derive(Clone, Copy, Debug, PartialEq, Eq, Structural)]
pub struct TradeCluster {
    pub buy_qty: u64,
    pub sell_qty: u64,
}

impl TradeCluster {
    pub open spec fn total(self) -> int {
        self.buy_qty + self.sell_qty
    }

    /// Bought plus sold volume.
    pub fn total_qty(&self) -> (r: u128)
        ensures
            r == self.total(),
    {
        self.buy_qty as u128 + self.sell_qty as u128
    }

    /// Bought minus sold volume.
    pub fn delta(&self) -> (r: i128)
        ensures
            r == self.buy_qty - self.sell_qty,
    {
        self.buy_qty as i128 - self.sell_qty as i128
    }
}

/// The group at `price`, or an empty group.
pub open spec fn group_at(m: Map<i64, TradeCluster>, price: i64) -> TradeCluster {
    if m.contains_key(price) {
        m[price]
    } else {
        TradeCluster { buy_qty: 0, sell_qty: 0 }
    }
}

/// `m` with trade `t` counted at `price` (saturating at `u64::MAX`).
pub open spec fn count_trade(m: Map<i64, TradeCluster>, price: i64, t: Trade) -> Map<i64, TradeCluster> {
    let g = group_at(m, price);
    m.insert(
        price,
        if t.side.buying() {
            TradeCluster { buy_qty: sat_add(g.buy_qty, t.quantity), ..g }
        } else {
            TradeCluster { sell_qty: sat_add(g.sell_qty, t.quantity), ..g }
        },
    )
}

/// Position `k` is kept by a decimation of `dec`: every position when
/// `dec` is at most 1, else every `dec`-th.
pub open spec fn kept(k: int, dec: int) -> bool {
    dec <= 1 || k % dec == 0
}

/// Footprint of `ts`: each trade whose position `k` is kept by the
/// decimation (`dec <= 1` or `k % dec == 0`) is counted at its price rounded
/// to `step`, if that price lies in `[low, high]`.
pub open spec fn footprint_of(ts: Seq<Trade>, step: i64, low: i64, high: i64, dec: int) -> Map<
    i64,
    TradeCluster,
>
    decreases ts.len(),
{
    if ts.len() == 0 {
        Map::empty()
    } else {
        let m = footprint_of(ts.drop_last(), step, low, high, dec);
        let t = ts.last();
        let k = ts.len() - 1;
        let p = round_units(t.price.units as int, step as int);
        if kept(k, dec) && low <= p <= high {
            count_trade(m, p as i64, t)
        } else {
            m
        }
    }
}

/// Trades are in time order.
pub open spec fn sorted_by_time(ts: Seq<Trade>) -> bool {
    forall|i: int, j: int| 0 <= i <= j < ts.len() ==> ts[i].time <= ts[j].time
}

/// Every trade price can be rounded to `step` without overflow.
pub open spec fn prices_roundable(ts: Seq<Trade>, step: i64) -> bool {
    forall|i: int| 0 <= i < ts.len() ==> round_ok(#[trigger] ts[i].price.units, step)
}

/// `k` is the first position at or after `from` whose trade is at or after `key`.
pub open spec fn is_time_bound(ts: Seq<Trade>, from: int, key: u64, k: int) -> bool {
    &&& from <= k <= ts.len()
    &&& forall|i: int| from <= i < k ==> ts[i].time < key
    &&& k == ts.len() || ts[k].time >= key
}

/// The first position at or after `from` whose trade is at or after `key`.
pub open spec fn time_bound(ts: Seq<Trade>, from: int, key: u64) -> int {
    choose|k: int| is_time_bound(ts, from, key, k)
}

/// In a sorted sequence the bound is unique.
proof fn lemma_time_bound_unique(ts: Seq<Trade>, from: int, key: u64, k: int)
    requires
        sorted_by_time(ts),
        0 <= from <= ts.len(),
        is_time_bound(ts, from, key, k),
    ensures
        time_bound(ts, from, key) == k,
        is_time_bound(ts, from, key, time_bound(ts, from, key)),
{
    let c = time_bound(ts, from, key);
    assert(is_time_bound(ts, from, key, c));
    if c < k {
        assert(ts[c].time < key);
    }
    if k < c {
        assert(ts[k].time < key);
    }
}

/// In a sorted sequence the first trade at or after `from` with time at
/// least `key` is well defined.
pub proof fn lemma_time_bound_exists(ts: Seq<Trade>, from: int, key: u64)
    requires
        sorted_by_time(ts),
        0 <= from <= ts.len(),
    ensures
        is_time_bound(ts, from, key, time_bound(ts, from, key)),
    decreases ts.len() - from,
{
    if from == ts.len() || ts[from].time >= key {
        lemma_time_bound_unique(ts, from, key, from);
    } else {
        lemma_time_bound_exists(ts, from + 1, key);
        let k = time_bound(ts, from + 1, key);
        assert(is_time_bound(ts, from, key, k));
        lemma_time_bound_unique(ts, from, key, k);
    }
}

/// Binary search for the first trade at or after `from` with time at least `key`.
pub fn time_lower_bound(trades: &[Trade], from: usize, key: u64) -> (r: usize)
    requires
        sorted_by_time(trades@),
        from <= trades@.len(),
    ensures
        r == time_bound(trades@, from as int, key),
        is_time_bound(trades@, from as int, key, r as int),
{
    let mut lo = from;
    let mut hi = trades.len();
    while lo < hi
        invariant
            from <= lo <= hi <= trades@.len(),
            sorted_by_time(trades@),
            forall|i: int| from <= i < lo ==> trades@[i].time < key,
            forall|i: int| hi <= i < trades@.len() ==> trades@[i].time >= key,
        decreases hi - lo,
    {
        let mid = lo + (hi - lo) / 2;
        if trades[mid].time < key {
            lo = mid + 1;
        } else {
            hi = mid;
        }
    }
    proof {
        lemma_time_bound_unique(trades@, from as int, key, lo as int);
    }
    lo
}

/// Footprint of the trades `trades[lo..hi]` (see [`footprint_of`]).
pub fn build_footprint(
    trades: &[Trade],
    lo: usize,
    hi: usize,
    step: PriceStep,
    low: i64,
    high: i64,
    dec: usize,
) -> (r: BTreeMap<i64, TradeCluster>)
    requires
        lo <= hi <= trades@.len(),
        prices_roundable(trades@.subrange(lo as int, hi as int), step.units),
    ensures
        r@ == footprint_of(trades@.subrange(lo as int, hi as int), step.units, low, high, dec as int),
{
    let ghost ts = trades@.subrange(lo as int, hi as int);
    let mut m: BTreeMap<i64, TradeCluster> = BTreeMap::new();
    let mut i: usize = lo;
    while i < hi
        invariant
            lo <= i <= hi <= trades@.len(),
            ts == trades@.subrange(lo as int, hi as int),
            prices_roundable(ts, step.units),
            m@ == footprint_of(ts.take(i - lo), step.units, low, high, dec as int),
        decreases hi - i,
    {
        let t = trades[i];
        let k = i - lo;
        proof {
            assert(ts.take(k + 1).drop_last() =~= ts.take(k as int));
            assert(ts[k as int] == t);
            assert(round_ok(ts[k as int].price.units, step.units));
        }
        let p = t.price.round_to_step(step).units;
        if (dec <= 1 || k % dec == 0) && low <= p && p <= high {
            let g = match m.get(&p) {
                Some(g) => *g,
                None => TradeCluster { buy_qty: 0, sell_qty: 0 },
            };
            let ng = if t.is_buy() {
                TradeCluster { buy_qty: g.buy_qty.saturating_add(t.quantity), ..g }
            } else {
                TradeCluster { sell_qty: g.sell_qty.saturating_add(t.quantity), ..g }
            };
            m.insert(p, ng);
        }
        i += 1;
    }
    proof {
        assert(ts.take(hi - lo) =~= ts);
    }
    m
}

/// `p` has the largest total volume in `m`, and the highest price among
/// the prices with that volume.
pub open spec fn is_poc(m: Map<i64, TradeCluster>, p: i64) -> bool {
    &&& m.contains_key(p)
    &&& forall|q: i64|
        #[trigger] m.contains_key(q) ==> m[q].total() < m[p].total() || (m[q].total() == m[p].total()
            && q <= p)
}

/// Point of control of a footprint: its price and total volume.
pub open spec fn poc_of(m: Map<i64, TradeCluster>) -> Option<(i64, u128)> {
    if exists|p: i64| is_poc(m, p) {
        let p = choose|p: i64| is_poc(m, p);
        Some((p, m[p].total() as u128))
    } else {
        None
    }
}

/// Point of control of a footprint map.
pub fn point_of_control(m: &BTreeMap<i64, TradeCluster>) -> (r: Option<(i64, u128)>)
    ensures
        r == poc_of(m@),
{
    let mut best: Option<(i64, u128)> = None;
    let ghost mv = m@;
    let ghost items = IteratorSpec::remaining(&m.iter());
    for (k, v) in it: m.iter()
        invariant
            mv == m@,
            it.seq() == items,
            items.len() == mv.dom().len(),
            forall|j: int|
                0 <= j < items.len() ==> mv.contains_key(*items[j].0) && mv[*items[j].0] == *items[j].1,
            forall|q: i64| #[trigger] mv.contains_key(q) ==> items.contains((&q, &mv[q])),
            best is None ==> it.index() == 0,
            best matches Some((p, t)) ==> {
                &&& mv.contains_key(p)
                &&& t == mv[p].total()
                &&& forall|j: int|
                    0 <= j < it.index() ==> (#[trigger] items[j]).1.total() < t || ((*items[j].1).total()
                        == t && *items[j].0 <= p)
            },
    {
        let total = v.total_qty();
        let better = match best {
            None => true,
            Some((p, t)) => total > t || (total == t && *k >= p),
        };
        if better {
            best = Some((*k, total));
        }
    }
    proof {
        match best {
            Some((p, t)) => {
                assert forall|q: i64| #[trigger] mv.contains_key(q) implies mv[q].total() < mv[p].total() || (
                mv[q].total() == mv[p].total() && q <= p) by {
                    assert(items.contains((&q, &mv[q])));
                    let j = choose|j: int| 0 <= j < items.len() && items[j] == (&q, &mv[q]);
                }
                assert(is_poc(mv, p));
                let c = choose|c: i64| is_poc(mv, c);
                assert(c == p);
            },
            None => {
                assert forall|p: i64| !is_poc(mv, p) by {
                    if mv.contains_key(p) {
                        assert(items.contains((&p, &mv[p])));
                    }
                }
            },
        }
    }
    best
}

/// Price of the point of control of a footprint: the level with the most
/// volume, the highest such level on a tie.
pub fn find_poc(footprint: &BTreeMap<i64, TradeCluster>) -> (r: Option<i64>)
    ensures
        r == match poc_of(footprint@) {
            Some((p, _)) => Some(p),
            None => None,
        },
{
    match point_of_control(footprint) {
        Some((p, _)) => Some(p),
        None => None,
    }
}

/// Most price levels of one footprint that get a text label.
pub const TEXT_BUDGET: usize = 40;

/// `s` holds `k` levels of `m` with the most volume: no level left out
/// has more volume than a level in `s`.
pub open spec fn top_levels(m: Map<i64, TradeCluster>, s: Set<i64>, k: nat) -> bool {
    &&& s.finite()
    &&& s.len() == k
    &&& s.subset_of(m.dom())
    &&& forall|p: i64, q: i64|
        #![trigger s.contains(p), m.contains_key(q)]
        s.contains(p) && m.contains_key(q) && !s.contains(q) ==> m[q].total() <= m[p].total()
}

/// Level of `m`, outside `chosen`, with the most volume.
fn best_unchosen(m: &BTreeMap<i64, TradeCluster>, chosen: &BTreeSet<i64>) -> (r: Option<i64>)
    ensures
        match r {
            Some(p) => m@.contains_key(p) && !chosen@.contains(p) && forall|q: i64|
                #[trigger] m@.contains_key(q) && !chosen@.contains(q) ==> m@[q].total() <= m@[p].total(),
            None => forall|q: i64| #[trigger] m@.contains_key(q) ==> chosen@.contains(q),
        },
{
    let mut best: Option<(i64, u128)> = None;
    let ghost mv = m@;
    let ghost items = IteratorSpec::remaining(&m.iter());
    for (k, v) in it: m.iter()
        invariant
            mv == m@,
            it.seq() == items,
            forall|j: int|
                0 <= j < items.len() ==> mv.contains_key(*items[j].0) && mv[*items[j].0] == *items[j].1,
            forall|q: i64| #[trigger] mv.contains_key(q) ==> items.contains((&q, &mv[q])),
            best is None ==> forall|j: int| 0 <= j < it.index() ==> chosen@.contains(*(#[trigger] items[j]).0),
            best matches Some((p, t)) ==> {
                &&& mv.contains_key(p)
                &&& !chosen@.contains(p)
                &&& t == mv[p].total()
                &&& forall|j: int|
                    0 <= j < it.index() && !chosen@.contains(*(#[trigger] items[j]).0) ==> items[j].1.total() <= t
            },
    {
        if !chosen.contains(k) {
            let total = v.total_qty();
            let better = match best {
                None => true,
                Some((_, t)) => total > t,
            };
            if better {
                best = Some((*k, total));
            }
        }
    }
    proof {
        assert forall|q: i64| #[trigger] mv.contains_key(q) implies exists|j: int|
            0 <= j < items.len() && *items[j].0 == q && *items[j].1 == mv[q] by {
            assert(items.contains((&q, &mv[q])));
        }
    }
    match best {
        Some((p, _)) => Some(p),
        None => None,
    }
}

/// Levels of a footprint that get a text label: with text shown and more
/// than [`TEXT_BUDGET`] levels, the [`TEXT_BUDGET`] levels with the most
/// volume (ties broken either way); otherwise all of them (`None`).
pub fn text_budget_set(footprint: &BTreeMap<i64, TradeCluster>, show_text: bool) -> (r: Option<BTreeSet<i64>>)
    ensures
        r is None <==> (!show_text || footprint@.len() <= TEXT_BUDGET),
        r matches Some(s) ==> top_levels(footprint@, s@, TEXT_BUDGET as nat),
{
    if !show_text || footprint.len() <= TEXT_BUDGET {
        return None;
    }
    let mut chosen: BTreeSet<i64> = BTreeSet::new();
    let mut k: usize = 0;
    while k < TEXT_BUDGET
        invariant
            k <= TEXT_BUDGET,
            footprint@.len() > TEXT_BUDGET,
            footprint@.dom().finite(),
            top_levels(footprint@, chosen@, k as nat),
        decreases TEXT_BUDGET - k,
    {
        match best_unchosen(footprint, &chosen) {
            Some(p) => {
                let ghost before = chosen@;
                chosen.insert(p);
                proof {
                    assert(chosen@ == before.insert(p));
                }
                k += 1;
            },
            None => {
                proof {
                    // Every level is chosen, yet fewer are chosen than there are levels.
                    assert(footprint@.dom().subset_of(chosen@));
                    vstd::set_lib::lemma_len_subset(footprint@.dom(), chosen@);
                    assert(false);
                }
                return None;
            },
        }
    }
    Some(chosen)
}

/// A footprint has finitely many price levels.
pub proof fn lemma_footprint_finite(ts: Seq<Trade>, step: i64, low: i64, high: i64, dec: int)
    ensures
        footprint_of(ts, step, low, high, dec).dom().finite(),
    decreases ts.len(),
{
    if ts.len() > 0 {
        lemma_footprint_finite(ts.drop_last(), step, low, high, dec);
    }
}

/// A coarser decimation (one that keeps no position that `fine` drops)
/// gives a footprint with no price level that the finer one lacks.
pub proof fn lemma_footprint_coarser_levels(ts: Seq<Trade>, step: i64, low: i64, high: i64, fine: int, coarse: int)
    requires
        forall|k: int| #[trigger] kept(k, coarse) ==> kept(k, fine),
    ensures
        footprint_of(ts, step, low, high, coarse).dom().subset_of(footprint_of(ts, step, low, high, fine).dom()),
    decreases ts.len(),
{
    if ts.len() > 0 {
        lemma_footprint_coarser_levels(ts.drop_last(), step, low, high, fine, coarse);
        let k = ts.len() - 1;
        assert(kept(k, coarse) ==> kept(k, fine));
    }
}

} // verus!
