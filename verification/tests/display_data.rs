use kairos_chart::display_data::footprint::{FootprintDisplayData, FootprintParams};
use kairos_chart::display_data::heatmap::{
    calculate_bucket_duration, calculate_bucket_time, HeatmapDisplayData, HeatmapParams,
};
use kairos_chart::display_data::{DisplayCacheKey, DisplayData, DisplayDataCache, CACHE_TOLERANCE_PERMILLE};
use kairos_chart::market::{
    Candle, ChartBasis, ChartData, ClusterKind, DepthLevel, DepthSnapshot, LodLevel, Price, PriceStep,
    Side, Timeframe, Trade, ViewportBounds,
};

fn price(units: i64) -> Price {
    Price::from_units(units)
}

fn create_test_chart_data() -> ChartData {
    let trades = vec![
        Trade::new(1000, price(10000), 10, Side::Buy),
        Trade::new(1500, price(10100), 5, Side::Sell),
        Trade::new(2000, price(10050), 8, Side::Buy),
    ];
    let candles = vec![Candle::new(0, price(10000), price(10100), price(9950), price(10050), 18, 5)];
    ChartData::from_trades(trades, candles)
}

fn footprint_params() -> FootprintParams {
    FootprintParams {
        tick_size: PriceStep { units: 25 },
        interval_ms: 60_000,
        basis: ChartBasis::Time(Timeframe::M1),
    }
}

#[test]
fn test_footprint_display_data_build() {
    let chart_data = create_test_chart_data();
    let bounds = ViewportBounds::new((0, 3000), (9900, 10200));
    let params = footprint_params();

    let display_data = FootprintDisplayData::build(&chart_data, &bounds, LodLevel::High, &params);

    assert!(!display_data.is_empty());
    assert_eq!(display_data.candle_footprints.len(), 1);
    assert!(display_data.total_clusters > 0);
}

#[test]
fn test_display_cache() {
    let chart_data = create_test_chart_data();
    let bounds = ViewportBounds::new((0, 3000), (9900, 10200));
    let params = footprint_params();

    let mut cache = DisplayDataCache::<FootprintDisplayData>::new();

    let key = DisplayCacheKey::from_viewport(params.basis, &bounds, LodLevel::High, 1000, (400, 400));

    let _data1 = cache.get_or_build(key, &chart_data, &bounds, LodLevel::High, &params);
    assert_eq!(cache.stats().misses, 1);
    assert_eq!(cache.stats().hits, 0);

    let _data2 = cache.get_or_build(key, &chart_data, &bounds, LodLevel::High, &params);
    assert_eq!(cache.stats().misses, 1);
    assert_eq!(cache.stats().hits, 1);
}

fn create_heatmap_test_data() -> ChartData {
    let trades = vec![
        Trade::new(1000, price(10000), 10, Side::Buy),
        Trade::new(2000, price(10100), 15, Side::Sell),
    ];
    let candles = vec![Candle::new(0, price(10000), price(10100), price(9950), price(10050), 10, 15)];
    ChartData::from_trades(trades, candles)
}

fn heatmap_params() -> HeatmapParams {
    HeatmapParams {
        basis: ChartBasis::Time(Timeframe::M1),
        tick_size: price(25),
        order_size_filter: 0,
        trade_size_filter: 0,
        max_trade_markers: 1000,
    }
}

#[test]
fn test_heatmap_display_data() {
    let chart_data = create_heatmap_test_data();
    let bounds = ViewportBounds::new((0, 3000), (9900, 10200));
    let params = heatmap_params();

    let display = HeatmapDisplayData::build(&chart_data, &bounds, LodLevel::High, &params);

    assert!(!display.is_empty());
    assert_eq!(display.trade_markers.len(), 2);
    assert!(display.max_trade_qty > 0);
}

#[test]
fn test_lod_decimation() {
    let chart_data = create_heatmap_test_data();
    let bounds = ViewportBounds::new((0, 3000), (9900, 10200));
    let params = heatmap_params();

    let high_lod = HeatmapDisplayData::build(&chart_data, &bounds, LodLevel::High, &params);
    let low_lod = HeatmapDisplayData::build(&chart_data, &bounds, LodLevel::Low, &params);

    assert!(low_lod.trade_markers.len() <= high_lod.trade_markers.len());
}

fn key(time_range: (u64, u64), lod_level: LodLevel) -> DisplayCacheKey {
    DisplayCacheKey {
        basis: ChartBasis::Time(Timeframe::M5),
        time_range,
        price_range: (100, 200),
        lod_level,
        scaling_key: 1000,
        cell_key: (400, 400),
    }
}

#[test]
fn test_cache_key_similarity() {
    let key1 = key((1000, 2000), LodLevel::High);
    let key2 = key((1100, 2100), LodLevel::High);
    assert!(key1.is_similar_to(&key2, 200));
}

#[test]
fn test_cache_key_not_similar() {
    let key1 = key((1000, 2000), LodLevel::High);
    let key2 = key((1000, 2000), LodLevel::Low);
    assert!(!key1.is_similar_to(&key2, 200));
}

#[test]
fn cache_key_similarity_threshold() {
    let key1 = key((1000, 2000), LodLevel::High);
    // 800 of 1000 ms overlap: exactly the 20% tolerance.
    assert!(key1.is_similar_to(&key((1200, 2200), LodLevel::High), 200));
    // 799 ms overlap: just beyond it.
    assert!(!key1.is_similar_to(&key((1201, 2201), LodLevel::High), 200));
    // No overlap at all.
    assert!(!key1.is_similar_to(&key((3000, 4000), LodLevel::High), 200));
    // A different basis is never similar.
    let mut other = key((1000, 2000), LodLevel::High);
    other.basis = ChartBasis::Tick(100);
    assert!(!key1.is_similar_to(&other, 200));
    // An empty time range is similar only at full tolerance.
    let empty = key((1000, 1000), LodLevel::High);
    assert!(!empty.is_similar_to(&key1, 200));
    assert!(empty.is_similar_to(&key1, 1000));
    assert_eq!(CACHE_TOLERANCE_PERMILLE, 200);
}

#[test]
fn footprint_clusters_and_point_of_control() {
    let chart_data = create_test_chart_data();
    let bounds = ViewportBounds::new((0, 3000), (9900, 10200));
    let data = FootprintDisplayData::build(&chart_data, &bounds, LodLevel::High, &footprint_params());

    assert_eq!(data.total_clusters, 3);
    assert_eq!(data.price_range, (price(9900), price(10200)));
    assert_eq!(data.lod_level, LodLevel::High);
    let fp = &data.candle_footprints[0];
    assert_eq!(fp.candle_index, 0);
    assert_eq!(fp.time, 0);
    let levels: Vec<i64> = fp.clusters.keys().copied().collect();
    assert_eq!(levels, vec![10000, 10050, 10100]);
    assert_eq!(fp.clusters[&10000].buy_qty, 10);
    assert_eq!(fp.clusters[&10100].sell_qty, 5);
    assert_eq!(fp.clusters[&10050].buy_qty, 8);
    assert_eq!(fp.poc, Some((10000, 10)));

    assert_eq!(data.max_cluster_qty(ClusterKind::Volume), 10);
    assert_eq!(data.max_cluster_qty(ClusterKind::BidAsk), 10);
    assert_eq!(data.max_cluster_qty(ClusterKind::Delta), 10);
    assert!(data.get_candle_footprint(0).is_some());
    assert!(data.get_candle_footprint(1).is_none());
    assert_eq!(data.iter().len(), 1);
    assert!(data.memory_usage() > 0);
}

#[test]
fn footprint_rounds_to_tick_and_filters_prices() {
    let trades = vec![
        Trade::new(10, price(10012), 1, Side::Buy),
        Trade::new(20, price(10013), 2, Side::Sell),
        Trade::new(30, price(20000), 4, Side::Buy),
    ];
    let candles = vec![Candle::new(0, price(10000), price(20000), price(10000), price(20000), 5, 2)];
    let chart_data = ChartData::from_trades(trades, candles);
    let bounds = ViewportBounds::new((0, 100), (9900, 10200));
    let data = FootprintDisplayData::build(&chart_data, &bounds, LodLevel::High, &footprint_params());

    let fp = &data.candle_footprints[0];
    // 100.12 rounds down to 100.00, 100.13 rounds up to 100.25; 200.00 is out of view.
    assert_eq!(fp.clusters.len(), 2);
    assert_eq!(fp.clusters[&10000].buy_qty, 1);
    assert_eq!(fp.clusters[&10025].sell_qty, 2);
    assert_eq!(fp.poc, Some((10025, 2)));
}

#[test]
fn footprint_decimation_and_tick_order() {
    let trades = vec![
        Trade::new(10, price(10000), 1, Side::Buy),
        Trade::new(20, price(10025), 1, Side::Buy),
        Trade::new(30, price(10050), 1, Side::Buy),
        Trade::new(40, price(10075), 1, Side::Buy),
        Trade::new(50, price(10100), 1, Side::Buy),
    ];
    let candles = vec![
        Candle::new(0, price(10000), price(10100), price(10000), price(10100), 5, 0),
        Candle::new(60_000, price(10000), price(10000), price(10000), price(10000), 0, 0),
    ];
    let chart_data = ChartData::from_trades(trades, candles);
    let bounds = ViewportBounds::new((0, 100), (9900, 10200));
    let params = footprint_params();

    let high = FootprintDisplayData::build(&chart_data, &bounds, LodLevel::High, &params);
    let medium = FootprintDisplayData::build(&chart_data, &bounds, LodLevel::Medium, &params);
    let low = FootprintDisplayData::build(&chart_data, &bounds, LodLevel::Low, &params);
    assert_eq!(high.total_clusters, 5);
    assert_eq!(medium.total_clusters, 3);
    assert_eq!(low.total_clusters, 2);

    // Tick charts scan candles newest first and select them by position.
    let tick = FootprintParams { basis: ChartBasis::Tick(5), ..params };
    let by_position = ViewportBounds::new((0, 1), (9900, 10200));
    let data = FootprintDisplayData::build(&chart_data, &by_position, LodLevel::High, &tick);
    let order: Vec<usize> = data.candle_footprints.iter().map(|c| c.candle_index).collect();
    assert_eq!(order, vec![1, 0]);
    assert_eq!(data.get_candle_footprint(1).map(|c| c.time), Some(60_000));
}

#[test]
fn heatmap_depth_rects_and_filters() {
    let mut chart_data = create_heatmap_test_data();
    chart_data.depth_snapshots = Some(vec![
        DepthSnapshot {
            time: 61_500,
            bids: vec![
                DepthLevel { price: price(10000), quantity: 3 },
                DepthLevel { price: price(9000), quantity: 50 },
            ],
            asks: vec![DepthLevel { price: price(10100), quantity: 7 }],
        },
        DepthSnapshot {
            time: 500_000,
            bids: vec![DepthLevel { price: price(10000), quantity: 9 }],
            asks: vec![],
        },
    ]);
    let bounds = ViewportBounds::new((0, 100_000), (9900, 10200));
    let params = HeatmapParams { order_size_filter: 3, ..heatmap_params() };

    let display = HeatmapDisplayData::build(&chart_data, &bounds, LodLevel::High, &params);
    // The bid of 3 is at the filter and drawn, the bid at 90.00 is out of
    // view, the second snapshot is out of the time range.
    assert_eq!(display.depth_rects.len(), 2);
    assert_eq!(display.depth_rects[0].price_units, 10000);
    assert_eq!(display.depth_rects[0].quantity, 3);
    assert!(display.depth_rects[0].is_bid);
    let rect = display.depth_rects[1];
    assert_eq!(rect.price_units, 10100);
    assert_eq!(rect.time_start, 60_000);
    assert_eq!(rect.time_end, 120_000);
    assert_eq!(rect.quantity, 7);
    assert!(!rect.is_bid);
    assert_eq!(display.max_depth_qty, 7);
    assert_eq!(display.max_trade_qty, 15);
    assert!(display.trade_markers[1].is_sell);
    assert!(!display.trade_markers[0].is_sell);
    assert!(display.memory_usage() > 0);
}

#[test]
fn heatmap_marker_budget_and_size_filter() {
    let trades: Vec<Trade> = (0..10u64).map(|i| Trade::new(i * 10, price(10000), i + 1, Side::Buy)).collect();
    let chart_data = ChartData::from_trades(trades, vec![]);
    let bounds = ViewportBounds::new((0, 1000), (9900, 10200));

    let budget = HeatmapParams { max_trade_markers: 3, ..heatmap_params() };
    let display = HeatmapDisplayData::build(&chart_data, &bounds, LodLevel::High, &budget);
    let qtys: Vec<u64> = display.trade_markers.iter().map(|m| m.quantity).collect();
    assert_eq!(qtys, vec![1, 2, 3]);
    assert_eq!(display.max_trade_qty, 3);

    // The filter is the smallest size drawn.
    let filtered = HeatmapParams { trade_size_filter: 8, ..heatmap_params() };
    let display = HeatmapDisplayData::build(&chart_data, &bounds, LodLevel::High, &filtered);
    let qtys: Vec<u64> = display.trade_markers.iter().map(|m| m.quantity).collect();
    assert_eq!(qtys, vec![8, 9, 10]);

    let medium = HeatmapDisplayData::build(&chart_data, &bounds, LodLevel::Medium, &heatmap_params());
    let qtys: Vec<u64> = medium.trade_markers.iter().map(|m| m.quantity).collect();
    assert_eq!(qtys, vec![1, 3, 5, 7, 9]);

    let empty = HeatmapDisplayData::build(&ChartData::from_trades(vec![], vec![]), &bounds, LodLevel::High, &heatmap_params());
    assert!(empty.is_empty());
    assert_eq!(empty.max_trade_qty, 1);
    assert_eq!(empty.max_depth_qty, 1);
}

#[test]
fn heatmap_buckets() {
    assert_eq!(calculate_bucket_time(61_500, ChartBasis::Time(Timeframe::M1)), 60_000);
    assert_eq!(calculate_bucket_time(61_500, ChartBasis::Tick(50)), 61_000);
    assert_eq!(calculate_bucket_duration(ChartBasis::Time(Timeframe::H1)), 3_600_000);
    assert_eq!(calculate_bucket_duration(ChartBasis::Tick(50)), 1000);
}

#[test]
fn cache_rebuilds_on_new_viewport_and_invalidates() {
    let chart_data = create_test_chart_data();
    let bounds = ViewportBounds::new((0, 3000), (9900, 10200));
    let params = footprint_params();
    let mut cache: DisplayDataCache<FootprintDisplayData> = DisplayDataCache::default();
    assert!(!cache.is_cached());
    assert_eq!(cache.stats().memory_bytes, 0);

    let k1 = DisplayCacheKey::from_viewport(params.basis, &bounds, LodLevel::High, 1000, (400, 400));
    cache.get_or_build(k1, &chart_data, &bounds, LodLevel::High, &params);
    assert!(cache.is_cached());
    assert!(cache.stats().memory_bytes > 0);

    // A far viewport is not similar: rebuilt.
    let far = ViewportBounds::new((50_000, 53_000), (9900, 10200));
    let k2 = DisplayCacheKey::from_viewport(params.basis, &far, LodLevel::High, 1000, (400, 400));
    let data = cache.get_or_build(k2, &chart_data, &far, LodLevel::High, &params);
    assert_eq!(data.candle_footprints.len(), 0);
    assert_eq!(cache.stats().misses, 2);

    cache.invalidate();
    assert!(!cache.is_cached());
    cache.get_or_build(k2, &chart_data, &far, LodLevel::High, &params);
    assert_eq!(cache.stats().misses, 3);
    assert_eq!(cache.stats().hits, 0);
    // Cached exactly when a request came after the last invalidation.
    assert!(cache.is_cached());
    cache.get_or_build(k2, &chart_data, &far, LodLevel::High, &params);
    assert_eq!(cache.stats().hits, 1);
    assert!(cache.is_cached());
    cache.invalidate();
    cache.invalidate();
    assert!(!cache.is_cached());
    assert_eq!((cache.stats().hits, cache.stats().misses), (1, 3));
}
