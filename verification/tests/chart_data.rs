use kairos_chart::candlestick::{FootprintCache, MAX_TOTAL_PRICE_LEVELS};
use kairos_chart::footprint::{
    build_footprint, find_poc, point_of_control, text_budget_set, time_lower_bound, TradeCluster, TEXT_BUDGET,
};
use kairos_chart::heatmap_data::{DepthRun, HeatmapData};
use kairos_chart::kline::max_qty_from_candles;
use kairos_chart::market::{
    floor_div, Candle, ChartBasis, ClusterKind, ChartData, DepthLevel, DepthSnapshot, LodLevel, Price, PriceStep, Side,
    Timeframe, Trade, ViewportBounds,
};
use std::collections::BTreeMap;

fn price(units: i64) -> Price {
    Price::from_units(units)
}

fn trade(time: u64, units: i64, qty: u64, side: Side) -> Trade {
    Trade::new(time, price(units), qty, side)
}

fn candle(time: u64, units: i64) -> Candle {
    Candle::new(time, price(units), price(units), price(units), price(units), 0, 0)
}

#[test]
fn price_rounding_and_division() {
    let step = PriceStep { units: 25 };
    assert_eq!(price(10012).round_to_step(step).units, 10000);
    assert_eq!(price(10013).round_to_step(step).units, 10025);
    assert_eq!(price(-13).round_to_step(step).units, -25);
    assert_eq!(price(-12).round_to_step(step).units, 0);
    assert_eq!(price(777).round_to_step(PriceStep { units: 1 }).units, 777);
    assert_eq!(floor_div(7, 2), 3);
    assert_eq!(floor_div(-7, 2), -4);
    assert_eq!(floor_div(-8, 2), -4);
    assert_eq!(floor_div(i64::MIN, 1), i64::MIN);
}

#[test]
fn market_enums() {
    assert_eq!(Timeframe::M1.to_millis(), 60_000);
    assert_eq!(Timeframe::M15.to_millis(), 900_000);
    assert_eq!(Timeframe::D1.to_millis(), 86_400_000);
    assert_eq!(LodLevel::High.decimation_factor(), 1);
    assert_eq!(LodLevel::Medium.decimation_factor(), 2);
    assert_eq!(LodLevel::Low.decimation_factor(), 4);
    assert_eq!(LodLevel::Low.max_render_count(), 2000);
    assert!(trade(0, 0, 1, Side::Bid).is_buy());
    assert!(trade(0, 0, 1, Side::Ask).is_sell());
    let b = ViewportBounds::new((1, 2), (3, 4));
    assert_eq!((b.time_start, b.time_end, b.price_low, b.price_high), (1, 2, 3, 4));
}

#[test]
fn lower_bound_search() {
    let trades = vec![
        trade(10, 0, 1, Side::Buy),
        trade(20, 0, 1, Side::Buy),
        trade(20, 0, 1, Side::Buy),
        trade(30, 0, 1, Side::Buy),
    ];
    assert_eq!(time_lower_bound(&trades, 0, 5), 0);
    assert_eq!(time_lower_bound(&trades, 0, 20), 1);
    assert_eq!(time_lower_bound(&trades, 2, 20), 2);
    assert_eq!(time_lower_bound(&trades, 0, 25), 3);
    assert_eq!(time_lower_bound(&trades, 0, 31), 4);
}

#[test]
fn footprint_and_point_of_control() {
    let trades = vec![
        trade(1, 10000, 4, Side::Buy),
        trade(2, 10010, 3, Side::Sell),
        trade(3, 10050, 7, Side::Sell),
        trade(4, 10040, 2, Side::Buy),
    ];
    let fp = build_footprint(&trades, 0, 4, PriceStep { units: 25 }, 0, 20000, 1);
    assert_eq!(fp.len(), 2);
    assert_eq!(fp[&10000], TradeCluster { buy_qty: 4, sell_qty: 3 });
    assert_eq!(fp[&10050], TradeCluster { buy_qty: 2, sell_qty: 7 });
    assert_eq!(fp[&10050].total_qty(), 9);
    assert_eq!(fp[&10050].delta(), -5);
    assert_eq!(point_of_control(&fp), Some((10050, 9)));
    assert_eq!(find_poc(&fp), Some(10050));

    // Equal volume: the higher price wins.
    let mut tie = BTreeMap::new();
    tie.insert(100, TradeCluster { buy_qty: 5, sell_qty: 0 });
    tie.insert(200, TradeCluster { buy_qty: 0, sell_qty: 5 });
    assert_eq!(find_poc(&tie), Some(200));
    assert_eq!(find_poc(&BTreeMap::new()), None);

    // Only the range [1, 3) of trades, every second one.
    let part = build_footprint(&trades, 1, 3, PriceStep { units: 25 }, 0, 20000, 2);
    assert_eq!(part.len(), 1);
    assert_eq!(part[&10000], TradeCluster { buy_qty: 0, sell_qty: 3 });
}

#[test]
fn text_budget_keeps_the_busiest_levels() {
    let mut few = BTreeMap::new();
    for p in 0..10i64 {
        few.insert(p, TradeCluster { buy_qty: p as u64, sell_qty: 0 });
    }
    assert!(text_budget_set(&few, true).is_none());

    let mut many = BTreeMap::new();
    for p in 0..100i64 {
        many.insert(p, TradeCluster { buy_qty: (p as u64) * 3, sell_qty: 1 });
    }
    assert!(text_budget_set(&many, false).is_none());
    let set = text_budget_set(&many, true).expect("budgeted");
    assert_eq!(set.len(), TEXT_BUDGET);
    let expected: Vec<i64> = (60..100).collect();
    assert_eq!(set.into_iter().collect::<Vec<i64>>(), expected);
}

#[test]
fn footprint_cache_insert_get_evict() {
    let mut cache = FootprintCache::new();
    assert_eq!(cache.len(), 0);
    let mut fp = BTreeMap::new();
    fp.insert(10000, TradeCluster { buy_qty: 1, sell_qty: 2 });
    cache.insert(3, fp);
    assert_eq!(cache.len(), 4);
    assert!(cache.get(0).is_none());
    assert_eq!(cache.get(3).unwrap()[&10000].sell_qty, 2);
    assert!(cache.get(9).is_none());

    cache.push_empty();
    assert_eq!(cache.len(), 5);
    cache.update_last(&trade(1, 10012, 5, Side::Sell), PriceStep { units: 25 });
    assert_eq!(cache.get(4).unwrap()[&10000].sell_qty, 5);
    assert_eq!(cache.revision(), 1);

    assert!(cache.evict_oldest());
    assert!(cache.get(3).is_none());
    assert!(cache.evict_oldest());
    assert!(!cache.evict_oldest());

    cache.clear();
    assert_eq!(cache.len(), 0);
    assert_eq!(cache.revision(), 2);
    assert_eq!(MAX_TOTAL_PRICE_LEVELS, 500_000);
}

#[test]
fn footprint_cache_ensure_range() {
    let candles = vec![candle(0, 100), candle(60_000, 100), candle(120_000, 100)];
    let trades = vec![
        trade(10, 10000, 1, Side::Buy),
        trade(60_000, 10025, 2, Side::Sell),
        trade(61_000, 10025, 3, Side::Buy),
        trade(130_000, 10050, 4, Side::Buy),
    ];
    let mut cache = FootprintCache::new();
    let basis = ChartBasis::Time(Timeframe::M1);
    cache.ensure_range(1, 10, &candles, &trades, PriceStep { units: 25 }, &basis);
    assert_eq!(cache.len(), 3);
    assert!(cache.get(0).is_none());
    assert_eq!(cache.get(1).unwrap()[&10025], TradeCluster { buy_qty: 3, sell_qty: 2 });
    assert_eq!(cache.get(2).unwrap()[&10050].buy_qty, 4);
    cache.ensure_range(0, 1, &candles, &trades, PriceStep { units: 25 }, &basis);
    assert_eq!(cache.get(0).unwrap()[&10000].buy_qty, 1);
}

#[test]
fn live_trades_fold_into_time_candles() {
    let mut data = ChartData::from_trades(vec![], vec![]);
    let basis = ChartBasis::Time(Timeframe::M1);
    assert_eq!(data.append_trade(&trade(61_000, 10000, 2, Side::Buy), basis), Some(60_000));
    assert_eq!(data.append_trade(&trade(62_000, 10100, 3, Side::Sell), basis), Some(60_000));
    assert_eq!(data.append_trade(&trade(63_000, 9900, 1, Side::Buy), basis), Some(60_000));
    assert_eq!(data.candles.len(), 1);
    let c = data.candles[0];
    assert_eq!((c.open.units, c.high.units, c.low.units, c.close.units), (10000, 10100, 9900, 9900));
    assert_eq!((c.buy_volume, c.sell_volume), (3, 3));
    assert_eq!(data.append_trade(&trade(125_000, 10000, 1, Side::Buy), basis), Some(120_000));
    assert_eq!(data.candles.len(), 2);
    assert_eq!(data.trades.len(), 4);
}

#[test]
fn live_trades_fold_into_tick_candles() {
    let mut data = ChartData::from_trades(vec![], vec![]);
    let basis = ChartBasis::Tick(2);
    for (i, units) in [100, 101, 102, 103, 104].iter().enumerate() {
        data.append_trade(&trade(i as u64 * 10, *units, 1, Side::Buy), basis);
    }
    // Candles of at most two trades each.
    let closes: Vec<i64> = data.candles.iter().map(|c| c.close.units).collect();
    assert_eq!(closes, vec![101, 103, 104]);
    assert_eq!(data.candles[2].time, 40);

    let mut zero = ChartData::from_trades(vec![], vec![]);
    assert_eq!(zero.append_trade(&trade(0, 1, 1, Side::Buy), ChartBasis::Tick(0)), None);
    assert_eq!(zero.trades.len(), 1);
    assert!(zero.candles.is_empty());
}

#[test]
fn rebuild_replaces_trades_and_candles() {
    let basis = ChartBasis::Time(Timeframe::M1);
    let trades = vec![
        trade(61_000, 10000, 2, Side::Buy),
        trade(62_000, 10100, 3, Side::Sell),
        trade(125_000, 9900, 1, Side::Buy),
    ];
    let mut stepwise = ChartData::from_trades(vec![], vec![]);
    for t in &trades {
        stepwise.append_trade(t, basis);
    }
    let mut data = ChartData::from_trades(vec![trade(1, 5, 5, Side::Sell)], vec![candle(0, 5), candle(60_000, 6)]);
    data.rebuild_from_trades(&trades, basis);
    assert_eq!(data.trades, trades);
    assert_eq!(data.candles, stepwise.candles);
    assert_eq!(data.candles.len(), 2);
    assert_eq!(data.candles[0].time, 60_000);
    assert_eq!((data.candles[0].high.units, data.candles[0].low.units), (10100, 10000));
    assert_eq!((data.candles[0].buy_volume, data.candles[0].sell_volume), (2, 3));
    assert_eq!(data.candles[1].time, 120_000);

    data.rebuild_from_trades(&[], basis);
    assert!(data.trades.is_empty());
    assert!(data.candles.is_empty());
}

#[test]
fn rebuild_of_a_tick_chart() {
    let trades: Vec<Trade> = (0..5).map(|i| trade(i * 10, 100 + i as i64, 1, Side::Buy)).collect();
    let mut data = ChartData::from_trades(vec![], vec![]);
    data.rebuild_from_trades(&trades, ChartBasis::Tick(2));
    let closes: Vec<i64> = data.candles.iter().map(|c| c.close.units).collect();
    assert_eq!(closes, vec![101, 103, 104]);
}

fn snapshot(time: u64, bids: &[(i64, u64)], asks: &[(i64, u64)]) -> DepthSnapshot {
    DepthSnapshot {
        time,
        bids: bids.iter().map(|&(p, q)| DepthLevel { price: price(p), quantity: q }).collect(),
        asks: asks.iter().map(|&(p, q)| DepthLevel { price: price(p), quantity: q }).collect(),
    }
}

#[test]
fn heatmap_depth_runs_by_price() {
    let mut h = HeatmapData::new();
    let basis = ChartBasis::Time(Timeframe::M1);
    h.add_depth_snapshot(&snapshot(61_000, &[(100, 5), (99, 2)], &[(101, 7)]), basis, price(1));
    h.add_depth_snapshot(&snapshot(125_000, &[(100, 6)], &[]), basis, price(1));
    assert_eq!(h.latest_depth_time, 125_000);
    let runs = &h.depth_by_price[&100];
    assert_eq!(
        runs,
        &vec![
            DepthRun { start_time: 60_000, until_time: 120_000, qty: 5, is_bid: true },
            DepthRun { start_time: 120_000, until_time: 180_000, qty: 6, is_bid: true },
        ]
    );
    assert!(!h.depth_by_price[&101][0].is_bid);
    assert_eq!(h.depth_by_price[&101][0].qty(), 7);

    let shown = h.iter_depth_filtered(0, 100_000, price(101), price(100));
    let keys: Vec<i64> = shown.iter().map(|(k, _)| *k).collect();
    assert_eq!(keys, vec![100, 101]);
    let later = h.iter_depth_filtered(150_000, 200_000, price(200), price(0));
    let keys: Vec<i64> = later.iter().map(|(k, _)| *k).collect();
    assert_eq!(keys, vec![100]);

    let latest = h.latest_order_runs(price(200), price(0), 120_000);
    let got: Vec<(i64, u64)> = latest.iter().map(|(p, r)| (p.units, r.qty)).collect();
    assert_eq!(got, vec![(99, 2), (100, 6), (101, 7)]);

    assert_eq!(h.max_depth_qty_in_range(0, 100_000, price(200), price(0), 0), 7);
    assert_eq!(h.max_depth_qty_in_range(0, 100_000, price(200), price(0), 7), 7);
    assert_eq!(h.max_depth_qty_in_range(0, 100_000, price(200), price(0), 8), 1);
    // The run of 6 at 100.00 starts after the range and does not count.
    assert_eq!(h.max_depth_qty_in_range(0, 100_000, price(100), price(0), 0), 5);
    assert_eq!(h.max_depth_qty_in_range(130_000, 140_000, price(200), price(0), 0), 6);
    assert_eq!(h.max_depth_qty_in_range(0, 100_000, price(0), price(0), 0), 1);
}

#[test]
fn heatmap_trades_by_bucket() {
    let mut h = HeatmapData::default();
    let basis = ChartBasis::Time(Timeframe::M1);
    let step = PriceStep { units: 25 };
    h.add_trade(&trade(1_000, 10010, 4, Side::Buy), basis, step);
    h.add_trade(&trade(2_000, 10012, 6, Side::Buy), basis, step);
    h.add_trade(&trade(3_000, 10000, 5, Side::Sell), basis, step);
    h.add_trade(&trade(61_000, 10100, 9, Side::Sell), basis, step);

    let first = &h.trades_by_time[&0];
    assert_eq!(first.buy_volume, 10);
    assert_eq!(first.sell_volume, 5);
    let groups: Vec<(i64, u64, bool)> =
        first.grouped_trades.iter().map(|g| (g.price.units, g.qty, g.is_sell)).collect();
    assert_eq!(groups, vec![(10000, 10, false), (10000, 5, true)]);
    assert_eq!(h.trades_by_time[&60_000].sell_volume, 9);

    assert_eq!(h.max_trade_qty_in_range(0, 59_999), 10);
    assert_eq!(h.max_trade_qty_in_range(0, 60_000), 10);
    assert_eq!(h.max_trade_qty_in_range(60_000, 60_000), 9);
    assert_eq!(h.max_trade_qty_in_range(70_000, 90_000), 1);
    assert_eq!(h.max_aggr_volume_in_range(0, 100_000), 15);
    assert_eq!(h.max_aggr_volume_in_range(1, 100_000), 9);
}

#[test]
fn heatmap_tick_buckets_follow_candles() {
    let candles = vec![candle(1_000, 1), candle(5_000, 1)];
    let mut h = HeatmapData::new_with_candles(&candles, ChartBasis::Tick(10));
    let basis = ChartBasis::Tick(10);
    let step = PriceStep { units: 1 };
    h.add_trade(&trade(4_999, 1, 1, Side::Buy), basis, step);
    h.add_trade(&trade(5_500, 1, 1, Side::Buy), basis, step);
    h.add_trade(&trade(7_300, 1, 1, Side::Buy), basis, step);
    h.add_trade(&trade(500, 1, 1, Side::Buy), basis, step);
    let keys: Vec<u64> = h.trades_by_time.keys().copied().collect();
    // 4999 is in the first candle, 5500 in the last (5000 to 6000); 7300
    // and 500 fall back to whole seconds.
    assert_eq!(keys, vec![0, 1_000, 5_000, 7_000]);

    h.add_depth_snapshot(&snapshot(5_200, &[(1, 1)], &[]), basis, price(1));
    assert_eq!(h.depth_by_price[&1][0], DepthRun { start_time: 5_000, until_time: 6_000, qty: 1, is_bid: true });
}

#[test]
fn heatmap_from_chart_data() {
    let mut data = ChartData::from_trades(
        vec![trade(1_000, 100, 2, Side::Buy), trade(2_000, 100, 3, Side::Buy)],
        vec![candle(0, 100)],
    );
    data.depth_snapshots = Some(vec![snapshot(500, &[(99, 4)], &[(101, 6)])]);
    let h = HeatmapData::from_chart_data(&data, ChartBasis::Time(Timeframe::M1), PriceStep { units: 1 });
    assert_eq!(h.latest_depth_time, 500);
    assert_eq!(h.depth_by_price.len(), 2);
    assert_eq!(h.trades_by_time[&0].buy_volume, 5);
    assert_eq!(h.trades_by_time[&0].grouped_trades.len(), 1);
}

#[test]
fn candle_footprint_scale() {
    let trades = vec![
        trade(1_000, 10000, 4, Side::Buy),
        trade(2_000, 10000, 9, Side::Sell),
        trade(3_000, 10025, 6, Side::Buy),
        trade(61_000, 10050, 20, Side::Buy),
        trade(62_000, 10050, 25, Side::Sell),
    ];
    let candles = vec![candle(0, 10000), candle(60_000, 10050)];
    let step = PriceStep { units: 25 };
    let (hi, lo) = (price(20000), price(0));
    let first = &candles[..1];
    assert_eq!(max_qty_from_candles(&trades, first, hi, lo, ClusterKind::BidAsk, 60_000, step), 9);
    assert_eq!(max_qty_from_candles(&trades, first, hi, lo, ClusterKind::DeltaProfile, 60_000, step), 6);
    assert_eq!(max_qty_from_candles(&trades, first, hi, lo, ClusterKind::Volume, 60_000, step), 13);
    assert_eq!(max_qty_from_candles(&trades, first, hi, lo, ClusterKind::Delta, 60_000, step), 13);
    assert_eq!(max_qty_from_candles(&trades, &candles, hi, lo, ClusterKind::VolumeProfile, 60_000, step), 45);
    // Prices above the range are left out, and no candles give 0.
    assert_eq!(max_qty_from_candles(&trades, &candles, price(10025), lo, ClusterKind::Volume, 60_000, step), 13);
    assert_eq!(max_qty_from_candles(&trades, &[], hi, lo, ClusterKind::Volume, 60_000, step), 0);
}

#[test]
fn depth_scale_counts_only_runs_in_range() {
    let mut h = HeatmapData::new();
    h.depth_by_price.insert(
        100,
        vec![
            DepthRun { start_time: 0, until_time: 10, qty: 100, is_bid: true },
            DepthRun { start_time: 1000, until_time: 1010, qty: 5, is_bid: true },
        ],
    );
    assert_eq!(h.max_depth_qty_in_range(1000, 1010, price(200), price(0), 0), 5);
    assert_eq!(h.max_depth_qty_in_range(0, 5, price(200), price(0), 0), 100);
}
