use kairos_chart::heatmap_data::{GroupedTrade, TradeDataPoint};
use kairos_chart::market::{ChartBasis, Price, PriceStep, Timeframe};
use kairos_chart::volume_profile::{fixed_profile_window, volume_profile};
use std::collections::BTreeMap;

fn group(units: i64, qty: u64, is_sell: bool) -> GroupedTrade {
    GroupedTrade { price: Price::from_units(units), qty, is_sell }
}

fn bucket(groups: Vec<GroupedTrade>) -> TradeDataPoint {
    TradeDataPoint { grouped_trades: groups, buy_volume: 0, sell_volume: 0 }
}

fn sample() -> BTreeMap<u64, TradeDataPoint> {
    let mut m = BTreeMap::new();
    m.insert(
        1000,
        bucket(vec![group(101, 2, false), group(101, 3, true), group(135, 7, false), group(96, 5, true)]),
    );
    m.insert(2000, bucket(vec![group(130, 4, false), group(119, 1, true)]));
    m.insert(5000, bucket(vec![group(100, 9, false)]));
    m
}

#[test]
fn profile_per_tick_by_side() {
    // Ticks 100, 110, 120, 130: sells go to the tick at or below, buys to
    // the tick at or above; the bucket at 5000 is outside the window.
    let (profile, max) = volume_profile(
        &sample(),
        0,
        3000,
        Price::from_units(95),
        Price::from_units(131),
        PriceStep { units: 10 },
    )
    .expect("profile");
    assert_eq!(profile, vec![(0, 3), (2, 1), (0, 0), (4, 0)]);
    assert_eq!(max, 4);
}

#[test]
fn profile_window_bounds_are_inclusive() {
    let (profile, max) = volume_profile(
        &sample(),
        2000,
        5000,
        Price::from_units(100),
        Price::from_units(130),
        PriceStep { units: 10 },
    )
    .expect("profile");
    assert_eq!(profile, vec![(9, 0), (0, 1), (0, 0), (4, 0)]);
    assert_eq!(max, 9);
}

#[test]
fn no_profile_without_ticks_or_past_the_limit() {
    let m = sample();
    assert!(volume_profile(&m, 0, 3000, Price::from_units(101), Price::from_units(109), PriceStep { units: 10 })
        .is_none());
    assert!(volume_profile(&m, 0, 3000, Price::from_units(0), Price::from_units(4096), PriceStep { units: 1 })
        .is_none());
    let (profile, max) =
        volume_profile(&m, 0, 3000, Price::from_units(0), Price::from_units(4095), PriceStep { units: 1 })
            .expect("profile");
    assert_eq!(profile.len(), 4096);
    assert_eq!(profile[101], (2, 3));
    assert_eq!(profile[135], (7, 0));
    assert_eq!(max, 7);
}

#[test]
fn empty_window_gives_zero_profile() {
    let (profile, max) = volume_profile(
        &BTreeMap::new(),
        0,
        10,
        Price::from_units(100),
        Price::from_units(120),
        PriceStep { units: 10 },
    )
    .expect("profile");
    assert_eq!(profile, vec![(0, 0); 3]);
    assert_eq!(max, 0);
}

#[test]
fn fixed_window_of_candles() {
    let basis = ChartBasis::Time(Timeframe::M1);
    assert_eq!(fixed_profile_window(5, 600_000, 1_000_000, basis), Some((300_000, 600_000)));
    assert_eq!(fixed_profile_window(5, 600_000, 200_000, basis), Some((0, 200_000)));
    assert_eq!(fixed_profile_window(5, 600_000, 1_000_000, ChartBasis::Tick(100)), None);
}
