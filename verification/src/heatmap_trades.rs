//! Which trades of a heatmap are drawn, and how: individual circles for a
//! few trades, aggregated rectangles for many.

use crate::display_data::heatmap::take_upto;
use crate::footprint::kept;
use crate::heatmap_data::{GroupedTrade, TradeDataPoint, TradePointView};
use std::collections::BTreeMap;
use crate::market::LodLevel;
use vstd::prelude::*;
use vstd::std_specs::iter::IteratorSpec;

verus! {

broadcast use {vstd::std_specs::btree::group_btree_axioms, vstd::laws_cmp::group_laws_cmp};

/// Above this many visible trades, automatic mode draws rectangles.
pub const SPARSE_MODE_THRESHOLD: usize = 1_000;

/// Most trade circles drawn per frame.
pub const MAX_RENDER_BUDGET: usize = 10_000;

/// How heatmap trades are drawn.
#[derive(Debug, Clone, Copy, PartialEq, Eq, Structural)]
pub enum TradeRenderingMode {
    /// A circle per trade group (for few trades).
    Sparse,
    /// A rectangle per trade group (for many trades).
    Dense,
    /// Chosen from the number of visible trades.
    Auto,
}

impl Default for TradeRenderingMode {
    fn default() -> (r: Self)
        ensures
            r == TradeRenderingMode::Auto,
    {
        TradeRenderingMode::Auto
    }
}

/// Depth coalescing strategy.
#[derive(Debug, Clone, Copy, PartialEq, Eq, Structural)]
pub enum CoalesceKind {
    Aggressive,
    Conservative,
}

/// Visual configuration of a heatmap.
#[derive(Debug, Clone, Copy)]
pub struct VisualConfig {
    /// Smallest order size drawn, in contracts (orders below it are not).
    pub order_size_filter: u64,
    /// Smallest trade size drawn, in contracts: 5 draws only trades of at
    /// least 5 contracts.
    pub trade_size_filter: u64,
    /// Trade circle size scaling in percent (`None`: fixed size).
    pub trade_size_scale: Option<u16>,
    /// How trades are drawn.
    pub trade_rendering_mode: TradeRenderingMode,
    /// Most trade circles drawn.
    pub max_trade_markers: usize,
}

impl Default for VisualConfig {
    fn default() -> (r: Self)
        ensures
            r.order_size_filter == 0,
            r.trade_size_filter == 0,
            r.trade_size_scale == Some(100u16),
            r.trade_rendering_mode == TradeRenderingMode::Auto,
            r.max_trade_markers == 10_000,
    {
        VisualConfig {
            order_size_filter: 0,
            trade_size_filter: 0,
            trade_size_scale: Some(100),
            trade_rendering_mode: TradeRenderingMode::Auto,
            max_trade_markers: 10_000,
        }
    }
}

/// The mode trades are drawn in: dense when asked; sparse when asked,
/// unless the level of detail is low and trades are many; automatically
/// dense when trades are many or the level of detail is low.
pub open spec fn effective_mode_spec(mode: TradeRenderingMode, lod: LodLevel, visible: usize) -> TradeRenderingMode {
    match mode {
        TradeRenderingMode::Sparse => if lod == LodLevel::Low && visible > SPARSE_MODE_THRESHOLD {
            TradeRenderingMode::Dense
        } else {
            TradeRenderingMode::Sparse
        },
        TradeRenderingMode::Dense => TradeRenderingMode::Dense,
        TradeRenderingMode::Auto => if visible > SPARSE_MODE_THRESHOLD || lod == LodLevel::Low {
            TradeRenderingMode::Dense
        } else {
            TradeRenderingMode::Sparse
        },
    }
}

/// The mode trades are drawn in, given the visible trade count.
pub fn effective_rendering_mode(mode: TradeRenderingMode, lod_level: LodLevel, visible_trade_count: usize) -> (r:
    TradeRenderingMode)
    ensures
        r == effective_mode_spec(mode, lod_level, visible_trade_count),
        r != TradeRenderingMode::Auto,
{
    let low = match lod_level {
        LodLevel::Low => true,
        _ => false,
    };
    match mode {
        TradeRenderingMode::Sparse => if low && visible_trade_count > SPARSE_MODE_THRESHOLD {
            TradeRenderingMode::Dense
        } else {
            TradeRenderingMode::Sparse
        },
        TradeRenderingMode::Dense => TradeRenderingMode::Dense,
        TradeRenderingMode::Auto => if visible_trade_count > SPARSE_MODE_THRESHOLD || low {
            TradeRenderingMode::Dense
        } else {
            TradeRenderingMode::Sparse
        },
    }
}

/// Most circles drawn in sparse mode.
pub fn sparse_marker_budget(config: &VisualConfig) -> (r: usize)
    ensures
        r == if config.max_trade_markers <= MAX_RENDER_BUDGET {
            config.max_trade_markers
        } else {
            MAX_RENDER_BUDGET
        },
{
    if config.max_trade_markers <= MAX_RENDER_BUDGET {
        config.max_trade_markers
    } else {
        MAX_RENDER_BUDGET
    }
}

/// `s` lists the entries of `m` by increasing key, each once.
pub open spec fn is_sorted_entries(m: Map<u64, TradePointView>, s: Seq<(u64, TradePointView)>) -> bool {
    &&& forall|i: int, j: int| 0 <= i < j < s.len() ==> s[i].0 < s[j].0
    &&& forall|i: int| 0 <= i < s.len() ==> m.contains_key(#[trigger] s[i].0) && m[s[i].0] == s[i].1
    &&& forall|k: u64| #[trigger] m.contains_key(k) ==> exists|i: int| 0 <= i < s.len() && s[i].0 == k
}

/// The trade buckets of `m` by increasing bucket time.
pub open spec fn bucket_entries(m: &BTreeMap<u64, TradeDataPoint>) -> Seq<(u64, TradePointView)> {
    let mv = m@.map_values(|p: TradeDataPoint| p@);
    choose|s: Seq<(u64, TradePointView)>| is_sorted_entries(mv, s)
}

/// Two listings of the same entries by increasing key are equal.
proof fn lemma_sorted_entries_unique(m: Map<u64, TradePointView>, s: Seq<(u64, TradePointView)>, t: Seq<(u64, TradePointView)>)
    requires
        is_sorted_entries(m, s),
        is_sorted_entries(m, t),
    ensures
        s == t,
    decreases s.len(),
{
    if s.len() == 0 {
        if t.len() > 0 {
            assert(m.contains_key(t[0].0));
        }
        assert(s =~= t);
    } else {
        assert(m.contains_key(s[0].0));
        let k0 = s[0].0;
        let j = choose|j: int| 0 <= j < t.len() && t[j].0 == k0;
        if t[0].0 != k0 {
            assert(m.contains_key(t[0].0));
            let i = choose|i: int| 0 <= i < s.len() && s[i].0 == t[0].0;
            assert(i > 0 && j > 0);
            assert(k0 < t[0].0);
            assert(t[0].0 < k0);
        }
        let m2 = m.remove(k0);
        let s2 = s.drop_first();
        let t2 = t.drop_first();
        assert forall|k: u64| #[trigger] m2.contains_key(k) implies exists|i: int| 0 <= i < s2.len() && s2[i].0 == k by {
            let i = choose|i: int| 0 <= i < s.len() && s[i].0 == k;
            assert(i > 0);
            assert(s2[i - 1].0 == k);
        }
        assert forall|k: u64| #[trigger] m2.contains_key(k) implies exists|i: int| 0 <= i < t2.len() && t2[i].0 == k by {
            let i = choose|i: int| 0 <= i < t.len() && t[i].0 == k;
            assert(i > 0);
            assert(t2[i - 1].0 == k);
        }
        assert forall|i: int| 0 <= i < s2.len() implies m2.contains_key(#[trigger] s2[i].0) && m2[s2[i].0] == s2[i].1 by {
            assert(s[i + 1].0 > k0);
        }
        assert forall|i: int| 0 <= i < t2.len() implies m2.contains_key(#[trigger] t2[i].0) && m2[t2[i].0] == t2[i].1 by {
            assert(t[i + 1].0 > k0);
        }
        lemma_sorted_entries_unique(m2, s2, t2);
        assert(s =~= t) by {
            assert(s == seq![s[0]] + s2);
            assert(t == seq![t[0]] + t2);
        }
    }
}

/// The entries a map's iterator gives, by increasing key, are its buckets.
proof fn lemma_iter_entries(m: &BTreeMap<u64, TradeDataPoint>, items: Seq<(&u64, &TradeDataPoint)>)
    requires
        forall|a: int, b: int| 0 <= a < b < items.len() ==> *items[a].0 < *items[b].0,
        forall|t: int| 0 <= t < items.len() ==> m@.contains_key(*items[t].0) && m@[*items[t].0] == *items[t].1,
        forall|q: u64| #[trigger] m@.contains_key(q) ==> items.contains((&q, &m@[q])),
    ensures
        bucket_entries(m) == items.map_values(|kv: (&u64, &TradeDataPoint)| (*kv.0, kv.1@)),
{
    let mv = m@.map_values(|p: TradeDataPoint| p@);
    let s = items.map_values(|kv: (&u64, &TradeDataPoint)| (*kv.0, kv.1@));
    assert forall|k: u64| #[trigger] mv.contains_key(k) implies exists|i: int| 0 <= i < s.len() && s[i].0 == k by {
        assert(m@.contains_key(k));
        assert(items.contains((&k, &m@[k])));
        let i = choose|i: int| 0 <= i < items.len() && items[i] == (&k, &m@[k]);
        assert(s[i].0 == k);
    }
    assert forall|i: int| 0 <= i < s.len() implies mv.contains_key(#[trigger] s[i].0) && mv[s[i].0] == s[i].1 by {
        assert(m@.contains_key(*items[i].0));
    }
    assert(is_sorted_entries(mv, s));
    let c = choose|c: Seq<(u64, TradePointView)>| is_sorted_entries(mv, c);
    lemma_sorted_entries_unique(mv, c, s);
}

/// The buckets whose time lies in `[earliest, latest]`, in order.
pub open spec fn entries_in_range(es: Seq<(u64, TradePointView)>, earliest: u64, latest: u64) -> Seq<
    (u64, TradePointView),
>
    decreases es.len(),
{
    if es.len() == 0 {
        Seq::empty()
    } else {
        let prev = entries_in_range(es.drop_last(), earliest, latest);
        if earliest <= es.last().0 <= latest {
            prev.push(es.last())
        } else {
            prev
        }
    }
}

/// The trade groups of the buckets, each with its bucket time, in order.
pub open spec fn flatten_groups(es: Seq<(u64, TradePointView)>) -> Seq<(u64, GroupedTrade)>
    decreases es.len(),
{
    if es.len() == 0 {
        Seq::empty()
    } else {
        flatten_groups(es.drop_last()) + es.last().1.grouped_trades.map_values(
            |g: GroupedTrade| (es.last().0, g),
        )
    }
}

/// The visible trade groups of `m`: those of the buckets in
/// `[earliest, latest]`, by time, each bucket's in its own order.
pub open spec fn visible_groups(m: &BTreeMap<u64, TradeDataPoint>, earliest: u64, latest: u64) -> Seq<(u64, GroupedTrade)> {
    flatten_groups(entries_in_range(bucket_entries(m), earliest, latest))
}

/// Groups among the first `k` of `flat` kept by the decimation and of at
/// least the size filter.
pub open spec fn sparse_candidates(flat: Seq<(u64, GroupedTrade)>, k: nat, dec: int, filter: u64) -> Seq<
    (u64, GroupedTrade),
>
    decreases k,
{
    if k == 0 {
        Seq::empty()
    } else {
        let prev = sparse_candidates(flat, (k - 1) as nat, dec, filter);
        if kept(k - 1, dec) && flat[k - 1].1.qty >= filter {
            prev.push(flat[k - 1])
        } else {
            prev
        }
    }
}

/// Groups drawn as rectangles: of at least the size filter and in the price range.
pub open spec fn dense_groups(flat: Seq<(u64, GroupedTrade)>, k: nat, filter: u64, lowest: i64, highest: i64) -> Seq<
    (u64, GroupedTrade),
>
    decreases k,
{
    if k == 0 {
        Seq::empty()
    } else {
        let prev = dense_groups(flat, (k - 1) as nat, filter, lowest, highest);
        let g = flat[k - 1].1;
        if g.qty >= filter && lowest <= g.price.units <= highest {
            prev.push(flat[k - 1])
        } else {
            prev
        }
    }
}

/// `u64` keys are totally ordered, so a map's entries come in key order.
proof fn lemma_u64_keys_ordered()
    ensures
        vstd::std_specs::btree::key_obeys_cmp_spec::<u64>(),
{
}

/// The entries of a map with `u64` keys come in increasing key order.
proof fn lemma_u64_keys_increasing<V>(items: Seq<(&u64, &V)>)
    requires
        vstd::std_specs::btree::increasing_seq(items.map_values(|kv: (&u64, &V)| *kv.0)),
    ensures
        forall|a: int, b: int| 0 <= a < b < items.len() ==> *items[a].0 < *items[b].0,
{
    let ks = items.map_values(|kv: (&u64, &V)| *kv.0);
    assert forall|a: int, b: int| 0 <= a < b < items.len() implies *items[a].0 < *items[b].0 by {
        assert(ks[a] == *items[a].0 && ks[b] == *items[b].0);
        assert(vstd::std_specs::cmp::OrdSpec::cmp_spec(&ks[a], &ks[b]) is Less);
    }
}

/// Groups of the buckets in range among the first `i` buckets.
pub open spec fn groups_upto(es: Seq<(u64, TradePointView)>, i: int, earliest: u64, latest: u64) -> Seq<
    (u64, GroupedTrade),
> {
    flatten_groups(entries_in_range(es.take(i), earliest, latest))
}

/// The groups of bucket `e` with its time.
pub open spec fn bucket_groups(e: (u64, TradePointView)) -> Seq<(u64, GroupedTrade)> {
    e.1.grouped_trades.map_values(|g: GroupedTrade| (e.0, g))
}

/// One more bucket adds its groups where it is in range.
proof fn lemma_groups_step(es: Seq<(u64, TradePointView)>, i: int, earliest: u64, latest: u64)
    requires
        0 <= i < es.len(),
    ensures
        groups_upto(es, i + 1, earliest, latest) == if earliest <= es[i].0 <= latest {
            groups_upto(es, i, earliest, latest) + bucket_groups(es[i])
        } else {
            groups_upto(es, i, earliest, latest)
        },
{
    assert(es.take(i + 1).drop_last() =~= es.take(i));
    let r = entries_in_range(es.take(i), earliest, latest);
    if earliest <= es[i].0 <= latest {
        assert(entries_in_range(es.take(i + 1), earliest, latest) =~= r.push(es[i]));
        assert(r.push(es[i]).drop_last() =~= r);
    }
}

/// The groups of fewer buckets are a prefix of those of more.
proof fn lemma_groups_prefix(es: Seq<(u64, TradePointView)>, a: int, b: int, earliest: u64, latest: u64)
    requires
        0 <= a <= b <= es.len(),
    ensures
        groups_upto(es, a, earliest, latest).len() <= groups_upto(es, b, earliest, latest).len(),
        groups_upto(es, b, earliest, latest).take(groups_upto(es, a, earliest, latest).len() as int)
            == groups_upto(es, a, earliest, latest),
    decreases b - a,
{
    let ga = groups_upto(es, a, earliest, latest);
    if a == b {
        assert(groups_upto(es, b, earliest, latest).take(ga.len() as int) =~= ga);
    } else {
        lemma_groups_prefix(es, a, b - 1, earliest, latest);
        lemma_groups_step(es, b - 1, earliest, latest);
        let gp = groups_upto(es, b - 1, earliest, latest);
        assert(groups_upto(es, b, earliest, latest).take(ga.len() as int) =~= gp.take(ga.len() as int));
    }
}

/// The groups of bucket `i`, where it is in range, stand in the visible
/// groups right after those of the buckets before it.
proof fn lemma_bucket_positions(
    es: Seq<(u64, TradePointView)>,
    i: int,
    n: int,
    earliest: u64,
    latest: u64,
    all: Seq<(u64, GroupedTrade)>,
)
    requires
        0 <= i < n == es.len(),
        earliest <= es[i].0 <= latest,
        all == groups_upto(es, n, earliest, latest),
    ensures
        groups_upto(es, i, earliest, latest).len() + es[i].1.grouped_trades.len() <= all.len(),
        forall|k: int|
            0 <= k < es[i].1.grouped_trades.len() ==> all[groups_upto(es, i, earliest, latest).len() + k] == (
                es[i].0,
                es[i].1.grouped_trades[k],
            ),
{
    lemma_groups_step(es, i, earliest, latest);
    lemma_groups_prefix(es, i + 1, n, earliest, latest);
    let gi = groups_upto(es, i, earliest, latest);
    let gi1 = groups_upto(es, i + 1, earliest, latest);
    assert forall|k: int| 0 <= k < es[i].1.grouped_trades.len() implies all[gi.len() + k] == (
        es[i].0,
        es[i].1.grouped_trades[k],
    ) by {
        assert(gi1[gi.len() + k] == bucket_groups(es[i])[k]);
        assert(all.take(gi1.len() as int)[gi.len() + k] == all[gi.len() + k]);
    }
}

/// Candidates among fewer groups are a prefix of those among more.
proof fn lemma_sparse_prefix(flat: Seq<(u64, GroupedTrade)>, i: nat, n: nat, dec: int, filter: u64)
    requires
        i <= n,
    ensures
        sparse_candidates(flat, i, dec, filter).len() <= sparse_candidates(flat, n, dec, filter).len(),
        sparse_candidates(flat, n, dec, filter).take(sparse_candidates(flat, i, dec, filter).len() as int)
            == sparse_candidates(flat, i, dec, filter),
    decreases n,
{
    let ci = sparse_candidates(flat, i, dec, filter);
    if i == n {
        assert(sparse_candidates(flat, n, dec, filter).take(ci.len() as int) =~= ci);
    } else {
        lemma_sparse_prefix(flat, i, (n - 1) as nat, dec, filter);
        let cp = sparse_candidates(flat, (n - 1) as nat, dec, filter);
        assert(sparse_candidates(flat, n, dec, filter).take(ci.len() as int) =~= cp.take(ci.len() as int));
    }
}

/// Candidates depend only on the groups they look at.
proof fn lemma_sparse_same_prefix(a: Seq<(u64, GroupedTrade)>, b: Seq<(u64, GroupedTrade)>, k: nat, dec: int, filter: u64)
    requires
        k <= a.len(),
        k <= b.len(),
        forall|i: int| 0 <= i < k ==> a[i] == b[i],
    ensures
        sparse_candidates(a, k, dec, filter) == sparse_candidates(b, k, dec, filter),
    decreases k,
{
    if k > 0 {
        lemma_sparse_same_prefix(a, b, (k - 1) as nat, dec, filter);
    }
}

/// Rectangles depend only on the groups they look at.
proof fn lemma_dense_same_prefix(
    a: Seq<(u64, GroupedTrade)>,
    b: Seq<(u64, GroupedTrade)>,
    k: nat,
    filter: u64,
    lowest: i64,
    highest: i64,
)
    requires
        k <= a.len(),
        k <= b.len(),
        forall|i: int| 0 <= i < k ==> a[i] == b[i],
    ensures
        dense_groups(a, k, filter, lowest, highest) == dense_groups(b, k, filter, lowest, highest),
    decreases k,
{
    if k > 0 {
        lemma_dense_same_prefix(a, b, (k - 1) as nat, filter, lowest, highest);
    }
}

/// Number of trade groups in the buckets whose time lies in
/// `[earliest, latest]` (saturating at `usize::MAX`).
pub fn visible_trade_count(trades_by_time: &BTreeMap<u64, TradeDataPoint>, earliest: u64, latest: u64) -> (r: usize)
    ensures
        r == if visible_groups(trades_by_time, earliest, latest).len() <= usize::MAX {
            visible_groups(trades_by_time, earliest, latest).len()
        } else {
            usize::MAX as nat
        },
{
    let m = trades_by_time;
    let ghost es = bucket_entries(m);
    let mut count: usize = 0;
    let iter0 = m.iter();
    let ghost items = IteratorSpec::remaining(&iter0);
    proof {
        lemma_u64_keys_ordered();
        lemma_u64_keys_increasing(items);
        lemma_iter_entries(m, items);
    }
    for (t, dp) in it: iter0
        invariant
            es == bucket_entries(m),
            m == trades_by_time,
            it.seq() == items,
            es == items.map_values(|kv: (&u64, &TradeDataPoint)| (*kv.0, kv.1@)),
            count == if groups_upto(es, it.index() as int, earliest, latest).len() <= usize::MAX {
                groups_upto(es, it.index() as int, earliest, latest).len()
            } else {
                usize::MAX as nat
            },
    {
        let ghost i = it.index() as int;
        proof {
            lemma_groups_step(es, i, earliest, latest);
            assert(es[i] == (*t, dp@));
        }
        if earliest <= *t && *t <= latest {
            count = count.saturating_add(dp.grouped_trades.len());
        }
    }
    proof {
        assert(es.take(es.len() as int) =~= es);
    }
    count
}

/// Trade groups drawn as circles: among the visible groups (see
/// [`visible_groups`]), counted by position, those kept by the decimation
/// and of at least the size filter, up to `max_markers` of them.
pub fn sparse_trade_selection(
    trades_by_time: &BTreeMap<u64, TradeDataPoint>,
    earliest: u64,
    latest: u64,
    trade_size_filter: u64,
    max_markers: usize,
    decimation_factor: usize,
) -> (r: Vec<(u64, GroupedTrade)>)
    requires
        visible_groups(trades_by_time, earliest, latest).len() <= usize::MAX,
    ensures
        r@ == take_upto(
            sparse_candidates(
                visible_groups(trades_by_time, earliest, latest),
                visible_groups(trades_by_time, earliest, latest).len(),
                decimation_factor as int,
                trade_size_filter,
            ),
            max_markers as int,
        ),
{
    let m = trades_by_time;
    let ghost es = bucket_entries(m);
    let ghost all = visible_groups(trades_by_time, earliest, latest);
    let ghost n = es.len() as int;
    let ghost dec = decimation_factor as int;
    let mut out: Vec<(u64, GroupedTrade)> = Vec::new();
    let mut trade_index: usize = 0;
    proof {
        assert(es.take(n) =~= es);
    }
    let iter0 = m.iter();
    let ghost items = IteratorSpec::remaining(&iter0);
    proof {
        lemma_u64_keys_ordered();
        lemma_u64_keys_increasing(items);
        lemma_iter_entries(m, items);
    }
    for (t, dp) in it: iter0
        invariant_except_break
            trade_index == groups_upto(es, it.index() as int, earliest, latest).len(),
            out@ == take_upto(sparse_candidates(all, trade_index as nat, dec, trade_size_filter), max_markers as int),
        invariant
            es == bucket_entries(m),
            m == trades_by_time,
            it.seq() == items,
            es == items.map_values(|kv: (&u64, &TradeDataPoint)| (*kv.0, kv.1@)),
            n == es.len(),
            dec == decimation_factor,
            all == groups_upto(es, n, earliest, latest),
            out@.len() <= max_markers,
            all.len() <= usize::MAX,
        ensures
            out@ == take_upto(sparse_candidates(all, all.len(), dec, trade_size_filter), max_markers as int),
    {
        let ghost i = it.index() as int;
        proof {
            lemma_groups_step(es, i, earliest, latest);
            lemma_groups_prefix(es, i + 1, n, earliest, latest);
            lemma_groups_prefix(es, i, n, earliest, latest);
            assert(es[i] == (*t, dp@));
        }
        if out.len() >= max_markers {
            proof {
                lemma_sparse_prefix(all, trade_index as nat, all.len(), dec, trade_size_filter);
                let c = sparse_candidates(all, all.len(), dec, trade_size_filter);
                assert(c.take(max_markers as int) =~= out@);
            }
            break;
        }
        if earliest <= *t && *t <= latest {
            let ghost base = trade_index as int;
            let groups = &dp.grouped_trades;
            proof {
                lemma_bucket_positions(es, i, n, earliest, latest, all);
            }
            let mut j: usize = 0;
            while j < groups.len()
                invariant_except_break
                    trade_index == base + j,
                    out@ == take_upto(
                        sparse_candidates(all, trade_index as nat, dec, trade_size_filter),
                        max_markers as int,
                    ),
                invariant
                    0 <= base,
                    j <= groups@.len(),
                    dec == decimation_factor,
                    base + groups@.len() <= all.len(),
                    forall|k: int| 0 <= k < groups@.len() ==> all[base + k] == (*t, groups@[k]),
                    out@.len() <= max_markers,
                    all.len() <= usize::MAX,
                    out@.len() >= max_markers ==> out@ == take_upto(
                        sparse_candidates(all, all.len(), dec, trade_size_filter),
                        max_markers as int,
                    ),
                ensures
                    j < groups@.len() ==> out@.len() >= max_markers,
                    out@.len() >= max_markers ==> out@ == take_upto(
                        sparse_candidates(all, all.len(), dec, trade_size_filter),
                        max_markers as int,
                    ),
                    out@.len() < max_markers ==> trade_index == base + groups@.len() && out@ == take_upto(
                        sparse_candidates(all, trade_index as nat, dec, trade_size_filter),
                        max_markers as int,
                    ),
                decreases groups@.len() - j,
            {
                let g = groups[j];
                proof {
                    assert(all[trade_index as int] == (*t, g));
                }
                if decimation_factor > 1 && trade_index % decimation_factor != 0 {
                    trade_index += 1;
                    j += 1;
                    continue;
                }
                if out.len() >= max_markers {
                    proof {
                        lemma_sparse_prefix(all, trade_index as nat, all.len(), dec, trade_size_filter);
                        let c = sparse_candidates(all, all.len(), dec, trade_size_filter);
                        assert(c.take(max_markers as int) =~= out@);
                    }
                    break;
                }
                if g.qty >= trade_size_filter {
                    out.push((*t, g));
                }
                trade_index += 1;
                j += 1;
                proof {
                    lemma_sparse_prefix(all, trade_index as nat, all.len(), dec, trade_size_filter);
                    let c = sparse_candidates(all, all.len(), dec, trade_size_filter);
                    if out@.len() >= max_markers {
                        assert(c.take(max_markers as int) =~= out@);
                    }
                }
            }
            proof {
                let gb = bucket_groups(es[i]);
                assert forall|k: int| 0 <= k < gb.len() implies all[base + k] == gb[k] by {}
            }
            if out.len() >= max_markers {
                break;
            }
            proof {
                assert(groups_upto(es, i + 1, earliest, latest).len() == base + groups@.len());
            }
        }
    }
    out
}

/// Trade groups drawn as rectangles: among the visible groups (see
/// [`visible_groups`]), those of at least the size filter whose price lies in
/// `[lowest, highest]`.
pub fn dense_trade_selection(
    trades_by_time: &BTreeMap<u64, TradeDataPoint>,
    earliest: u64,
    latest: u64,
    lowest: i64,
    highest: i64,
    trade_size_filter: u64,
) -> (r: Vec<(u64, GroupedTrade)>)
    ensures
        r@ == dense_groups(
            visible_groups(trades_by_time, earliest, latest),
            visible_groups(trades_by_time, earliest, latest).len(),
            trade_size_filter,
            lowest,
            highest,
        ),
{
    let m = trades_by_time;
    let ghost es = bucket_entries(m);
    let ghost all = visible_groups(trades_by_time, earliest, latest);
    let ghost n = es.len() as int;
    let mut out: Vec<(u64, GroupedTrade)> = Vec::new();
    let ghost mut pos: int = 0;
    proof {
        assert(es.take(n) =~= es);
    }
    let iter0 = m.iter();
    let ghost items = IteratorSpec::remaining(&iter0);
    proof {
        lemma_u64_keys_ordered();
        lemma_u64_keys_increasing(items);
        lemma_iter_entries(m, items);
    }
    for (t, dp) in it: iter0
        invariant
            es == bucket_entries(m),
            m == trades_by_time,
            it.seq() == items,
            es == items.map_values(|kv: (&u64, &TradeDataPoint)| (*kv.0, kv.1@)),
            n == es.len(),
            all == groups_upto(es, n, earliest, latest),
            pos == groups_upto(es, it.index() as int, earliest, latest).len(),
            pos <= all.len(),
            out@ == dense_groups(all, pos as nat, trade_size_filter, lowest, highest),
    {
        let ghost i = it.index() as int;
        proof {
            lemma_groups_step(es, i, earliest, latest);
            lemma_groups_prefix(es, i + 1, n, earliest, latest);
            lemma_groups_prefix(es, i, n, earliest, latest);
            assert(es[i] == (*t, dp@));
        }
        if earliest <= *t && *t <= latest {
            let ghost base = pos;
            let groups = &dp.grouped_trades;
            proof {
                lemma_bucket_positions(es, i, n, earliest, latest, all);
            }
            let mut j: usize = 0;
            while j < groups.len()
                invariant
                    0 <= base,
                    j <= groups@.len(),
                    base + groups@.len() <= all.len(),
                    forall|k: int| 0 <= k < groups@.len() ==> all[base + k] == (*t, groups@[k]),
                    out@ == dense_groups(all, (base + j) as nat, trade_size_filter, lowest, highest),
                decreases groups@.len() - j,
            {
                let g = groups[j];
                proof {
                    assert(all[base + j] == (*t, g));
                }
                if g.qty >= trade_size_filter && lowest <= g.price.units && g.price.units <= highest {
                    out.push((*t, g));
                }
                j += 1;
            }
            proof {
                let gb = bucket_groups(es[i]);
                assert forall|k: int| 0 <= k < gb.len() implies all[base + k] == gb[k] by {}
                pos = base + groups@.len();
            }
        }
    }
    proof {
        assert(es.take(n) =~= es);
    }
    out
}

} // verus!
