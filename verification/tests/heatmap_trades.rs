use kairos_chart::heatmap_data::HeatmapData;
use kairos_chart::heatmap_trades::{
    dense_trade_selection, effective_rendering_mode, sparse_marker_budget, sparse_trade_selection,
    visible_trade_count, CoalesceKind, TradeRenderingMode, VisualConfig, MAX_RENDER_BUDGET,
    SPARSE_MODE_THRESHOLD,
};
use kairos_chart::market::{ChartBasis, LodLevel, Price, PriceStep, Side, Timeframe, Trade};

fn heatmap() -> HeatmapData {
    // Buckets of one minute: three trades in the first, two in the second,
    // one in the third; every price is its own group.
    let mut h = HeatmapData::new();
    let basis = ChartBasis::Time(Timeframe::M1);
    let step = PriceStep { units: 1 };
    let trades = [
        (1_000, 100, 1, Side::Buy),
        (2_000, 101, 5, Side::Sell),
        (3_000, 102, 2, Side::Buy),
        (61_000, 103, 7, Side::Buy),
        (62_000, 104, 3, Side::Sell),
        (121_000, 105, 9, Side::Buy),
    ];
    for (t, p, q, side) in trades {
        h.add_trade(&Trade::new(t, Price::from_units(p), q, side), basis, step);
    }
    h
}

fn summary(sel: &[(u64, kairos_chart::heatmap_data::GroupedTrade)]) -> Vec<(u64, i64)> {
    sel.iter().map(|(t, g)| (*t, g.price.units)).collect()
}

#[test]
fn rendering_mode_decision() {
    assert_eq!(effective_rendering_mode(TradeRenderingMode::Dense, LodLevel::High, 0), TradeRenderingMode::Dense);
    assert_eq!(effective_rendering_mode(TradeRenderingMode::Sparse, LodLevel::High, 5_000), TradeRenderingMode::Sparse);
    assert_eq!(effective_rendering_mode(TradeRenderingMode::Sparse, LodLevel::Low, 5_000), TradeRenderingMode::Dense);
    assert_eq!(effective_rendering_mode(TradeRenderingMode::Sparse, LodLevel::Low, SPARSE_MODE_THRESHOLD), TradeRenderingMode::Sparse);
    assert_eq!(effective_rendering_mode(TradeRenderingMode::Auto, LodLevel::High, SPARSE_MODE_THRESHOLD), TradeRenderingMode::Sparse);
    assert_eq!(effective_rendering_mode(TradeRenderingMode::Auto, LodLevel::High, SPARSE_MODE_THRESHOLD + 1), TradeRenderingMode::Dense);
    assert_eq!(effective_rendering_mode(TradeRenderingMode::Auto, LodLevel::Low, 0), TradeRenderingMode::Dense);
    assert_eq!(TradeRenderingMode::default(), TradeRenderingMode::Auto);
    assert_ne!(CoalesceKind::Aggressive, CoalesceKind::Conservative);
}

#[test]
fn visual_config_defaults_and_budget() {
    let config = VisualConfig::default();
    assert_eq!(config.order_size_filter, 0);
    assert_eq!(config.trade_size_filter, 0);
    assert_eq!(config.trade_size_scale, Some(100));
    assert_eq!(config.trade_rendering_mode, TradeRenderingMode::Auto);
    assert_eq!(sparse_marker_budget(&config), 10_000);
    let big = VisualConfig { max_trade_markers: 50_000, ..config };
    assert_eq!(sparse_marker_budget(&big), MAX_RENDER_BUDGET);
    let small = VisualConfig { max_trade_markers: 7, ..config };
    assert_eq!(sparse_marker_budget(&small), 7);
}

#[test]
fn visible_trades_by_time_range() {
    let h = heatmap();
    assert_eq!(visible_trade_count(&h.trades_by_time, 0, 200_000), 6);
    assert_eq!(visible_trade_count(&h.trades_by_time, 60_000, 60_000), 2);
    assert_eq!(visible_trade_count(&h.trades_by_time, 1, 59_999), 0);
}

#[test]
fn sparse_selection_budget_and_decimation() {
    let h = heatmap();
    let all = sparse_trade_selection(&h.trades_by_time, 0, 200_000, 0, 100, 1);
    assert_eq!(
        summary(&all),
        vec![(0, 100), (0, 101), (0, 102), (60_000, 103), (60_000, 104), (120_000, 105)]
    );
    let budget = sparse_trade_selection(&h.trades_by_time, 0, 200_000, 0, 4, 1);
    assert_eq!(summary(&budget), vec![(0, 100), (0, 101), (0, 102), (60_000, 103)]);
    // A group of exactly the filter's size is drawn.
    let filtered = sparse_trade_selection(&h.trades_by_time, 0, 200_000, 3, 100, 1);
    assert_eq!(summary(&filtered), vec![(0, 101), (60_000, 103), (60_000, 104), (120_000, 105)]);
    let five = sparse_trade_selection(&h.trades_by_time, 0, 200_000, 5, 100, 1);
    assert_eq!(summary(&five), vec![(0, 101), (60_000, 103), (120_000, 105)]);
    // Every second visible group, counted across buckets.
    let decimated = sparse_trade_selection(&h.trades_by_time, 0, 200_000, 0, 100, 2);
    assert_eq!(summary(&decimated), vec![(0, 100), (0, 102), (60_000, 104)]);
    let later = sparse_trade_selection(&h.trades_by_time, 60_000, 200_000, 0, 100, 2);
    assert_eq!(summary(&later), vec![(60_000, 103), (120_000, 105)]);
    assert!(sparse_trade_selection(&h.trades_by_time, 0, 200_000, 0, 0, 1).is_empty());
}

#[test]
fn dense_selection_filters_size_and_price() {
    let h = heatmap();
    let sel = dense_trade_selection(&h.trades_by_time, 0, 200_000, 101, 104, 3);
    assert_eq!(summary(&sel), vec![(0, 101), (60_000, 103), (60_000, 104)]);
    let sel = dense_trade_selection(&h.trades_by_time, 0, 200_000, 101, 104, 2);
    assert_eq!(summary(&sel), vec![(0, 101), (0, 102), (60_000, 103), (60_000, 104)]);
    let sel = dense_trade_selection(&h.trades_by_time, 100_000, 200_000, 0, 1_000, 0);
    assert_eq!(summary(&sel), vec![(120_000, 105)]);
}

#[test]
fn qty_scales_of_a_viewport() {
    let h = heatmap();
    let scales = h.calc_qty_scales(0, 200_000, Price::from_units(1_000), Price::from_units(0), 0);
    assert_eq!(scales.max_trade_qty, 9);
    assert_eq!(scales.max_aggr_volume, 10);
    assert_eq!(scales.max_depth_qty, 1);
    let first = h.calc_qty_scales(0, 0, Price::from_units(1_000), Price::from_units(0), 0);
    assert_eq!(first.max_trade_qty, 5);
    assert_eq!(first.max_aggr_volume, 8);
}
