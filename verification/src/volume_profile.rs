//! Volume profile of the depth heatmap: the volume bought and sold at each
//! price tick of the visible price range, over a window of time buckets.

use crate::heatmap_data::{GroupedTrade, TradeDataPoint, TradePointView};
use crate::market::{sat_add, side_round, ChartBasis, Price, PriceStep};
use std::collections::BTreeMap;
use vstd::prelude::*;
use vstd::std_specs::iter::IteratorSpec;

verus! {

broadcast use {vstd::std_specs::btree::group_btree_axioms, vstd::laws_cmp::group_laws_cmp};

/// Most ticks a profile covers; a wider price range has no profile.
pub const MAX_PROFILE_TICKS: u64 = 4096;

/// `es` lists the buckets of `m` with their trades, in increasing order of
/// bucket start time.
pub open spec fn lists_buckets(es: Seq<(u64, TradePointView)>, m: Map<u64, TradePointView>) -> bool {
    &&& forall|i: int, j: int| 0 <= i < j < es.len() ==> (#[trigger] es[i]).0 < (#[trigger] es[j]).0
    &&& forall|i: int| 0 <= i < es.len() ==> m.contains_key((#[trigger] es[i]).0) && m[es[i].0] == es[i].1
    &&& forall|k: u64| #[trigger] m.contains_key(k) ==> exists|i: int| 0 <= i < es.len() && (#[trigger] es[i]).0 == k
}

/// The buckets of `m` with their trades, in increasing order of bucket
/// start time.
pub open spec fn bucket_entries(m: Map<u64, TradePointView>) -> Seq<(u64, TradePointView)> {
    choose|es: Seq<(u64, TradePointView)>| lists_buckets(es, m)
}

/// The trades of a map of buckets, each bucket by its value.
pub open spec fn bucket_views(m: &BTreeMap<u64, TradeDataPoint>) -> Map<u64, TradePointView> {
    m@.map_values(|p: TradeDataPoint| p@)
}

/// Bucket start times are ordered keys.
proof fn lemma_u64_keys_comparable()
    ensures
        vstd::std_specs::btree::key_obeys_cmp_spec::<u64>(),
{
}

/// Keys that a map lists in increasing order strictly increase.
proof fn lemma_keys_increase(keys: Seq<u64>)
    requires
        vstd::std_specs::btree::increasing_seq(keys),
    ensures
        forall|i: int, j: int| 0 <= i < j < keys.len() ==> keys[i] < keys[j],
{
    assert(vstd::laws_cmp::obeys_cmp::<u64>());
    assert forall|i: int, j: int| 0 <= i < j < keys.len() implies keys[i] < keys[j] by {
        assert(vstd::std_specs::cmp::OrdSpec::cmp_spec(&keys[i], &keys[j]) is Less);
    }
}

/// There is one list of the buckets in order.
proof fn lemma_lists_buckets_unique(a: Seq<(u64, TradePointView)>, b: Seq<(u64, TradePointView)>, m: Map<u64, TradePointView>)
    requires
        lists_buckets(a, m),
        lists_buckets(b, m),
    ensures
        a == b,
    decreases a.len() + b.len(),
{
    if a.len() == 0 && b.len() > 0 {
        assert(m.contains_key(b[0].0));
    } else if b.len() == 0 && a.len() > 0 {
        assert(m.contains_key(a[0].0));
    } else if a.len() > 0 && b.len() > 0 {
        assert(m.contains_key(a[0].0));
        assert(m.contains_key(b[0].0));
        let ja = choose|i: int| 0 <= i < b.len() && b[i].0 == a[0].0;
        let jb = choose|i: int| 0 <= i < a.len() && a[i].0 == b[0].0;
        if ja > 0 {
            assert(b[0].0 < b[ja].0);
        }
        if jb > 0 {
            assert(a[0].0 < a[jb].0);
        }
        assert(a[0].0 == b[0].0);
        let k = a[0].0;
        let m1 = m.remove(k);
        let a1 = a.drop_first();
        let b1 = b.drop_first();
        assert forall|i: int| 0 <= i < a1.len() implies m1.contains_key((#[trigger] a1[i]).0) && m1[a1[i].0] == a1[i].1 by {
            assert(a1[i] == a[i + 1]);
            assert(a[0].0 < a[i + 1].0);
        }
        assert forall|x: u64| #[trigger] m1.contains_key(x) implies exists|i: int| 0 <= i < a1.len() && (#[trigger] a1[i]).0 == x by {
            assert(m.contains_key(x));
            let i = choose|i: int| 0 <= i < a.len() && a[i].0 == x;
            assert(i > 0);
            assert(a1[i - 1] == a[i]);
        }
        assert forall|i: int| 0 <= i < b1.len() implies m1.contains_key((#[trigger] b1[i]).0) && m1[b1[i].0] == b1[i].1 by {
            assert(b1[i] == b[i + 1]);
            assert(b[0].0 < b[i + 1].0);
        }
        assert forall|x: u64| #[trigger] m1.contains_key(x) implies exists|i: int| 0 <= i < b1.len() && (#[trigger] b1[i]).0 == x by {
            assert(m.contains_key(x));
            let i = choose|i: int| 0 <= i < b.len() && b[i].0 == x;
            assert(i > 0);
            assert(b1[i - 1] == b[i]);
        }
        assert forall|i: int, j: int| 0 <= i < j < a1.len() implies (#[trigger] a1[i]).0 < (#[trigger] a1[j]).0 by {
            assert(a1[i] == a[i + 1] && a1[j] == a[j + 1]);
        }
        assert forall|i: int, j: int| 0 <= i < j < b1.len() implies (#[trigger] b1[i]).0 < (#[trigger] b1[j]).0 by {
            assert(b1[i] == b[i + 1] && b1[j] == b[j + 1]);
        }
        lemma_lists_buckets_unique(a1, b1, m1);
        assert(a[0] == b[0]);
        assert(a =~= b) by {
            assert forall|i: int| 0 <= i < a.len() implies a[i] == b[i] by {
                if i > 0 {
                    assert(a[i] == a1[i - 1]);
                    assert(b[i] == b1[i - 1]);
                }
            }
        }
    }
}

/// Profile `p` over ticks from `first` (ticks `step` apart) with trade
/// group `g` counted: a group priced in `[lowest, highest]` goes to its
/// side's tick (sells the tick at or below, buys the tick at or above)
/// where that tick is in `[first, last]`, its quantity added (saturating)
/// to the tick's sold or bought volume.
pub open spec fn add_group(
    p: Seq<(u64, u64)>,
    g: GroupedTrade,
    lowest: int,
    highest: int,
    first: int,
    last: int,
    step: int,
) -> Seq<(u64, u64)> {
    let gp = side_round(g.price.units as int, g.is_sell, step);
    let i = (gp - first) / step;
    if lowest <= g.price.units <= highest && first <= gp <= last && 0 <= i < p.len() {
        let e = p[i];
        p.update(
            i,
            if g.is_sell {
                (e.0, sat_add(e.1, g.qty))
            } else {
                (sat_add(e.0, g.qty), e.1)
            },
        )
    } else {
        p
    }
}

/// The tick `first + j * step` is the one a group priced `price` goes to:
/// for sells the tick at or below the price, for buys the tick at or above,
/// within one step.
pub open spec fn tick_of_group(first: int, j: int, step: int, price: int, is_sell: bool) -> bool {
    let t = first + j * step;
    if is_sell {
        price - step < t <= price
    } else {
        price <= t < price + step
    }
}

/// Counting a group changes only its side's volume, only at the tick that
/// its price goes to (sells the tick at or below, buys the tick at or
/// above), and only when its price is in `[lowest, highest]` and that tick
/// is in `[first, last]`; there the group's quantity is added.
pub proof fn lemma_add_group_places(
    p: Seq<(u64, u64)>,
    g: GroupedTrade,
    lowest: int,
    highest: int,
    first: int,
    last: int,
    step: int,
)
    requires
        step > 1,
        first % step == 0,
    ensures
        ({
            let r = add_group(p, g, lowest, highest, first, last, step);
            &&& r.len() == p.len()
            &&& forall|j: int| 0 <= j < p.len() ==> {
                let counted = lowest <= g.price.units <= highest && first + j * step <= last && tick_of_group(
                    first,
                    j,
                    step,
                    g.price.units as int,
                    g.is_sell,
                );
                &&& (#[trigger] r[j]).0 == if counted && !g.is_sell {
                    sat_add(p[j].0, g.qty)
                } else {
                    p[j].0
                }
                &&& r[j].1 == if counted && g.is_sell {
                    sat_add(p[j].1, g.qty)
                } else {
                    p[j].1
                }
            }
        }),
{
    let x = g.price.units as int;
    let gp = side_round(x, g.is_sell, step);
    crate::market::lemma_side_round_meaning(x, g.is_sell, step);
    let i = (gp - first) / step;
    vstd::arithmetic::div_mod::lemma_fundamental_div_mod(gp - first, step);
    vstd::arithmetic::div_mod::lemma_fundamental_div_mod(gp, step);
    vstd::arithmetic::div_mod::lemma_fundamental_div_mod(first, step);
    assert((gp - first) % step == 0) by {
        let qa = gp / step;
        let qb = first / step;
        assert(gp - first == (qa - qb) * step) by (nonlinear_arith)
            requires
                gp == step * qa + gp % step,
                first == step * qb + first % step,
                gp % step == 0,
                first % step == 0,
        ;
        vstd::arithmetic::div_mod::lemma_mod_multiples_basic(qa - qb, step);
    }
    assert(gp == first + i * step) by (nonlinear_arith)
        requires
            gp - first == step * i + (gp - first) % step,
            (gp - first) % step == 0,
    ;
    let r = add_group(p, g, lowest, highest, first, last, step);
    assert forall|j: int| 0 <= j < p.len() implies tick_of_group(first, j, step, x, g.is_sell) <==> j == i by {
        let t = first + j * step;
        if tick_of_group(first, j, step, x, g.is_sell) {
            assert(t - gp == (j - i) * step) by (nonlinear_arith)
                requires
                    gp == first + i * step,
                    t == first + j * step,
            ;
            assert(-step < t - gp < step);
            assert(j == i) by (nonlinear_arith)
                requires
                    t - gp == (j - i) * step,
                    -step < t - gp < step,
                    step > 1,
            ;
        }
    }
}

/// Profile `p` with the first `k` groups of `gs` counted, in order.
pub open spec fn add_groups(
    p: Seq<(u64, u64)>,
    gs: Seq<GroupedTrade>,
    k: nat,
    lowest: int,
    highest: int,
    first: int,
    last: int,
    step: int,
) -> Seq<(u64, u64)>
    decreases k,
{
    if k == 0 {
        p
    } else {
        add_group(add_groups(p, gs, (k - 1) as nat, lowest, highest, first, last, step), gs[k - 1], lowest, highest, first, last, step)
    }
}

/// Profile `p` with the groups of the first `k` buckets of `es` that start
/// in `[earliest, latest]` counted, in order.
pub open spec fn add_buckets(
    p: Seq<(u64, u64)>,
    es: Seq<(u64, TradePointView)>,
    k: nat,
    earliest: u64,
    latest: u64,
    lowest: int,
    highest: int,
    first: int,
    last: int,
    step: int,
) -> Seq<(u64, u64)>
    decreases k,
{
    if k == 0 {
        p
    } else {
        let q = add_buckets(p, es, (k - 1) as nat, earliest, latest, lowest, highest, first, last, step);
        let e = es[k - 1];
        if earliest <= e.0 <= latest {
            add_groups(q, e.1.grouped_trades, e.1.grouped_trades.len(), lowest, highest, first, last, step)
        } else {
            q
        }
    }
}

/// Largest bought-plus-sold volume of a tick of `p` (0 when `p` is empty).
pub open spec fn max_total(p: Seq<(u64, u64)>) -> int
    decreases p.len(),
{
    if p.len() == 0 {
        0
    } else {
        let rest = max_total(p.drop_last());
        let t = p.last().0 + p.last().1;
        if t > rest {
            t
        } else {
            rest
        }
    }
}

/// The largest total of a profile is the largest bought-plus-sold volume
/// of any of its ticks: no tick's total exceeds it, and it is the total of
/// some tick, or 0 when the profile has no ticks.
pub proof fn lemma_max_total(p: Seq<(u64, u64)>)
    ensures
        forall|i: int| 0 <= i < p.len() ==> (#[trigger] p[i]).0 + p[i].1 <= max_total(p),
        max_total(p) == 0 || exists|i: int| 0 <= i < p.len() && (#[trigger] p[i]).0 + p[i].1 == max_total(p),
        p.len() == 0 ==> max_total(p) == 0,
    decreases p.len(),
{
    if p.len() > 0 {
        let q = p.drop_last();
        lemma_max_total(q);
        assert forall|i: int| 0 <= i < p.len() implies (#[trigger] p[i]).0 + p[i].1 <= max_total(p) by {
            if i < p.len() - 1 {
                assert(p[i] == q[i]);
            }
        }
        if max_total(p) != 0 {
            if max_total(p) == max_total(q) && max_total(q) != 0 {
                let i = choose|i: int| 0 <= i < q.len() && (#[trigger] q[i]).0 + q[i].1 == max_total(q);
                assert(p[i] == q[i]);
            } else {
                assert(p[p.len() - 1].0 + p[p.len() - 1].1 == max_total(p));
            }
        }
    }
}

/// The volume profile of the buckets of `es` that start in
/// `[earliest, latest]`, over the ticks (`step` apart) from the first tick
/// at or above `lowest` to the last tick at or below `highest`: the
/// (bought, sold) volume of each tick and the largest total of a tick.
/// There is none where no tick lies in the range or where it spans more
/// than `MAX_PROFILE_TICKS` ticks.
pub open spec fn volume_profile_spec(
    es: Seq<(u64, TradePointView)>,
    earliest: u64,
    latest: u64,
    lowest: int,
    highest: int,
    step: int,
) -> Option<(Seq<(u64, u64)>, int)> {
    let first = side_round(lowest, false, step);
    let last = side_round(highest, true, step);
    if last < first {
        None
    } else {
        let n = (last - first) / step + 1;
        if n > MAX_PROFILE_TICKS {
            None
        } else {
            let p = add_buckets(
                Seq::new(n as nat, |i: int| (0u64, 0u64)),
                es,
                es.len(),
                earliest,
                latest,
                lowest,
                highest,
                first,
                last,
                step,
            );
            Some((p, max_total(p)))
        }
    }
}

/// A profile covers at least one and at most `MAX_PROFILE_TICKS` ticks, from
/// the first multiple of the step at or above `lowest` to the last one at or
/// below `highest`, one step apart.
pub proof fn lemma_profile_ticks(
    es: Seq<(u64, TradePointView)>,
    earliest: u64,
    latest: u64,
    lowest: int,
    highest: int,
    step: int,
)
    requires
        step > 1,
    ensures
        volume_profile_spec(es, earliest, latest, lowest, highest, step) matches Some((p, _)) ==> {
            let first = side_round(lowest, false, step);
            &&& 1 <= p.len() <= MAX_PROFILE_TICKS
            &&& first % step == 0
            &&& lowest <= first < lowest + step
            &&& highest - step < first + (p.len() - 1) * step <= highest
        },
{
    let first = side_round(lowest, false, step);
    let last = side_round(highest, true, step);
    crate::market::lemma_side_round_meaning(lowest, false, step);
    crate::market::lemma_side_round_meaning(highest, true, step);
    if last >= first {
        let n = (last - first) / step + 1;
        vstd::arithmetic::div_mod::lemma_fundamental_div_mod(last - first, step);
        vstd::arithmetic::div_mod::lemma_fundamental_div_mod(last, step);
        vstd::arithmetic::div_mod::lemma_fundamental_div_mod(first, step);
        assert((last - first) % step == 0) by {
            let qa = last / step;
            let qb = first / step;
            assert(last - first == (qa - qb) * step) by (nonlinear_arith)
                requires
                    last == step * qa + last % step,
                    first == step * qb + first % step,
                    last % step == 0,
                    first % step == 0,
            ;
            vstd::arithmetic::div_mod::lemma_mod_multiples_basic(qa - qb, step);
        }
        assert(first + (n - 1) * step == last) by (nonlinear_arith)
            requires
                last - first == step * ((last - first) / step) + (last - first) % step,
                (last - first) % step == 0,
                n == (last - first) / step + 1,
        ;
        assert(n >= 1) by (nonlinear_arith)
            requires
                last - first == step * ((last - first) / step),
                last >= first,
                step > 1,
                n == (last - first) / step + 1,
        ;
        if n <= MAX_PROFILE_TICKS {
            let p = add_buckets(
                Seq::new(n as nat, |i: int| (0u64, 0u64)),
                es,
                es.len(),
                earliest,
                latest,
                lowest,
                highest,
                first,
                last,
                step,
            );
            lemma_add_buckets_len(Seq::new(n as nat, |i: int| (0u64, 0u64)), es, es.len(), earliest, latest, lowest, highest, first, last, step);
        }
    }
}

/// Counting groups keeps the number of ticks.
proof fn lemma_add_groups_len(p: Seq<(u64, u64)>, gs: Seq<GroupedTrade>, k: nat, lowest: int, highest: int, first: int, last: int, step: int)
    ensures
        add_groups(p, gs, k, lowest, highest, first, last, step).len() == p.len(),
    decreases k,
{
    if k > 0 {
        lemma_add_groups_len(p, gs, (k - 1) as nat, lowest, highest, first, last, step);
    }
}

/// Counting buckets keeps the number of ticks.
proof fn lemma_add_buckets_len(
    p: Seq<(u64, u64)>,
    es: Seq<(u64, TradePointView)>,
    k: nat,
    earliest: u64,
    latest: u64,
    lowest: int,
    highest: int,
    first: int,
    last: int,
    step: int,
)
    ensures
        add_buckets(p, es, k, earliest, latest, lowest, highest, first, last, step).len() == p.len(),
    decreases k,
{
    if k > 0 {
        lemma_add_buckets_len(p, es, (k - 1) as nat, earliest, latest, lowest, highest, first, last, step);
        let q = add_buckets(p, es, (k - 1) as nat, earliest, latest, lowest, highest, first, last, step);
        let e = es[k - 1];
        lemma_add_groups_len(q, e.1.grouped_trades, e.1.grouped_trades.len(), lowest, highest, first, last, step);
    }
}

/// The price range and step leave room for rounding to a tick.
pub open spec fn profile_ok(lowest: i64, highest: i64, step: i64) -> bool {
    &&& step > 0
    &&& i64::MIN + step <= lowest <= i64::MAX - step
    &&& i64::MIN + step <= highest <= i64::MAX - step
}

/// Rounding a price within `step` of the `i64` limits stays in range.
proof fn lemma_side_round_bounds(x: int, is_sell_or_bid: bool, step: int)
    requires
        step > 0,
    ensures
        x - step < side_round(x, is_sell_or_bid, step) < x + step,
        is_sell_or_bid ==> side_round(x, is_sell_or_bid, step) <= x,
        !is_sell_or_bid ==> side_round(x, is_sell_or_bid, step) >= x,
{
    if step > 1 {
        vstd::arithmetic::div_mod::lemma_fundamental_div_mod(x, step);
        vstd::arithmetic::div_mod::lemma_fundamental_div_mod(x + step - 1, step);
        let q = x / step;
        let c = (x + step - 1) / step;
        assert(x - step < q * step <= x) by (nonlinear_arith)
            requires
                x == step * q + x % step,
                0 <= x % step < step,
        ;
        assert(x <= c * step < x + step) by (nonlinear_arith)
            requires
                x + step - 1 == step * c + (x + step - 1) % step,
                0 <= (x + step - 1) % step < step,
        ;
    }
}

/// The volume profile of the buckets of `trades_by_time` that start in
/// `[earliest, latest]` over the price range `[lowest, highest]`, with
/// ticks `step` apart; `None` where no tick lies in the range or where the
/// range spans more than `MAX_PROFILE_TICKS` ticks.
pub fn volume_profile(
    trades_by_time: &BTreeMap<u64, TradeDataPoint>,
    earliest: u64,
    latest: u64,
    lowest: Price,
    highest: Price,
    step: PriceStep,
) -> (r: Option<(Vec<(u64, u64)>, u128)>)
    requires
        profile_ok(lowest.units, highest.units, step.units),
    ensures
        match r {
            Some((v, m)) => {
                &&& volume_profile_spec(
                    bucket_entries(bucket_views(trades_by_time)),
                    earliest,
                    latest,
                    lowest.units as int,
                    highest.units as int,
                    step.units as int,
                ) == Some((v@, m as int))
                &&& forall|i: int| 0 <= i < v@.len() ==> (#[trigger] v@[i]).0 + v@[i].1 <= m
                &&& (m == 0 || exists|i: int| 0 <= i < v@.len() && (#[trigger] v@[i]).0 + v@[i].1 == m)
            },
            None => volume_profile_spec(
                bucket_entries(bucket_views(trades_by_time)),
                earliest,
                latest,
                lowest.units as int,
                highest.units as int,
                step.units as int,
            ) is None,
        },
{
    let ghost lo: int = lowest.units as int;
    let ghost hi: int = highest.units as int;
    let ghost st: int = step.units as int;
    proof {
        lemma_side_round_bounds(lo, false, st);
        lemma_side_round_bounds(hi, true, st);
    }
    let first = lowest.round_to_side_step(false, step).units;
    let last = highest.round_to_side_step(true, step).units;
    if last < first {
        return None;
    }
    let span: u128 = (last as i128 - first as i128) as u128;
    let n: u128 = span / (step.units as u128) + 1;
    if n > MAX_PROFILE_TICKS as u128 {
        return None;
    }
    let ghost es = bucket_entries(bucket_views(trades_by_time));
    let ghost zeros = Seq::new(n as nat, |i: int| (0u64, 0u64));
    let mut profile: Vec<(u64, u64)> = Vec::new();
    let mut k: u128 = 0;
    while k < n
        invariant
            k <= n <= MAX_PROFILE_TICKS,
            profile@ == zeros.take(k as int),
            zeros == Seq::new(n as nat, |i: int| (0u64, 0u64)),
        decreases n - k,
    {
        profile.push((0, 0));
        k = k + 1;
        proof {
            assert(profile@ =~= zeros.take(k as int));
        }
    }
    proof {
        assert(profile@ =~= zeros);
    }
    let m = trades_by_time;
    let iter0 = m.iter();
    let ghost items = IteratorSpec::remaining(&iter0);
    proof {
        lemma_u64_keys_comparable();
        lemma_keys_increase(items.map_values(|kv: (&u64, &TradeDataPoint)| *kv.0));
        let es_it = items.map_values(|kv: (&u64, &TradeDataPoint)| (*kv.0, kv.1@));
        let mv = bucket_views(m);
        let keys = items.map_values(|kv: (&u64, &TradeDataPoint)| *kv.0);
        assert forall|i: int, j: int| 0 <= i < j < es_it.len() implies (#[trigger] es_it[i]).0 < (#[trigger] es_it[j]).0 by {
            assert(keys[i] == es_it[i].0 && keys[j] == es_it[j].0);
        }
        assert forall|i: int| 0 <= i < es_it.len() implies mv.contains_key((#[trigger] es_it[i]).0) && mv[es_it[i].0] == es_it[i].1 by {
            assert(m@.contains_key(*items[i].0));
        }
        assert forall|k: u64| #[trigger] mv.contains_key(k) implies exists|i: int| 0 <= i < es_it.len() && (#[trigger] es_it[i]).0 == k by {
            assert(m@.contains_key(k));
            assert(items.contains((&k, &m@[k])));
            let i = choose|i: int| 0 <= i < items.len() && items[i] == (&k, &m@[k]);
            assert(es_it[i].0 == k);
        }
        assert(lists_buckets(es_it, mv));
        lemma_lists_buckets_unique(es, es_it, mv);
    }
    for (b, dp) in it: iter0
        invariant
            profile_ok(lowest.units, highest.units, step.units),
            first == side_round(lo, false, st),
            last == side_round(hi, true, st),
            first <= last,
            lo == lowest.units,
            hi == highest.units,
            st == step.units,
            profile@.len() == n,
            n == (last - first) / st + 1,
            n <= MAX_PROFILE_TICKS,
            it.seq() == items,
            es == items.map_values(|kv: (&u64, &TradeDataPoint)| (*kv.0, kv.1@)),
            es.len() == items.len(),
            profile@ == add_buckets(zeros, es, it.index() as nat, earliest, latest, lo, hi, first as int, last as int, st),
    {
        let ghost t0 = it.index();
        let ghost before = profile@;
        proof {
            assert(items[t0] == (b, dp));
            assert(es[t0] == (*b, dp@));
        }
        if earliest <= *b && *b <= latest {
            let mut i: usize = 0;
            while i < dp.grouped_trades.len()
                invariant
                    profile_ok(lowest.units, highest.units, step.units),
                    first == side_round(lo, false, st),
                    last == side_round(hi, true, st),
                    first <= last,
                    lo == lowest.units,
                    hi == highest.units,
                    st == step.units,
                    profile@.len() == n,
                    n == (last - first) / st + 1,
                    n <= MAX_PROFILE_TICKS,
                    i <= dp.grouped_trades@.len(),
                    profile@ == add_groups(before, dp.grouped_trades@, i as nat, lo, hi, first as int, last as int, st),
                decreases dp.grouped_trades@.len() - i,
            {
                let g = dp.grouped_trades[i];
                let ghost pre = profile@;
                if lowest.units <= g.price.units && g.price.units <= highest.units {
                    proof {
                        lemma_side_round_bounds(g.price.units as int, g.is_sell, st);
                    }
                    let gp = g.price.round_to_side_step(g.is_sell, step).units;
                    if first <= gp && gp <= last {
                        let idx_wide: u128 = (gp as i128 - first as i128) as u128 / (step.units as u128);
                        proof {
                            assert(idx_wide == (gp - first) / st);
                            assert((gp - first) / st <= (last - first) / st) by (nonlinear_arith)
                                requires
                                    0 <= gp - first <= last - first,
                                    st > 0,
                            ;
                        }
                        proof {
                            assert(idx_wide < MAX_PROFILE_TICKS);
                        }
                        let idx = idx_wide as usize;
                        let e = profile[idx];
                        let updated = if g.is_sell {
                            (e.0, e.1.saturating_add(g.qty))
                        } else {
                            (e.0.saturating_add(g.qty), e.1)
                        };
                        profile.set(idx, updated);
                        proof {
                            assert(idx as int == (gp - first) / st);
                            assert(0 <= (gp - first) / st < pre.len());
                            assert(profile@ == add_group(pre, g, lo, hi, first as int, last as int, st));
                        }
                    }
                }
                proof {
                    assert(profile@ == add_group(pre, g, lo, hi, first as int, last as int, st));
                }
                i += 1;
                proof {
                    assert(dp.grouped_trades@[i - 1] == g);
                }
            }
        }
        proof {
            assert(es[t0].1.grouped_trades == dp.grouped_trades@);
        }
    }
    proof {
        assert(es.len() == items.len());
    }
    let mut best: u128 = 0;
    let mut j: usize = 0;
    while j < profile.len()
        invariant
            j <= profile@.len(),
            best == max_total(profile@.take(j as int)),
            best <= 2 * 0xffff_ffff_ffff_ffffu128,
        decreases profile@.len() - j,
    {
        let t: u128 = profile[j].0 as u128 + profile[j].1 as u128;
        proof {
            assert(profile@.take(j + 1).drop_last() =~= profile@.take(j as int));
        }
        if t > best {
            best = t;
        }
        j += 1;
    }
    proof {
        assert(profile@.take(j as int) =~= profile@);
        lemma_max_total(profile@);
    }
    Some((profile, best))
}

/// The time window of a fixed profile: the last `candles` intervals up to
/// the latest bucket, or the chart's right edge where that comes first;
/// tick charts have no fixed profile.
pub fn fixed_profile_window(candles: u64, latest_x: u64, right_edge_time: u64, basis: ChartBasis) -> (r: Option<(u64, u64)>)
    requires
        basis matches ChartBasis::Time(tf) ==> candles * tf.millis() <= u64::MAX,
    ensures
        r == match basis {
            ChartBasis::Time(tf) => {
                let l = if latest_x < right_edge_time { latest_x } else { right_edge_time };
                let span = candles * tf.millis();
                Some((if l >= span { (l - span) as u64 } else { 0u64 }, l))
            },
            ChartBasis::Tick(_) => None,
        },
{
    match basis {
        ChartBasis::Time(tf) => {
            let latest = if latest_x < right_edge_time { latest_x } else { right_edge_time };
            let earliest = latest.saturating_sub(candles * tf.to_millis());
            Some((earliest, latest))
        },
        ChartBasis::Tick(_) => None,
    }
}

} // verus!
