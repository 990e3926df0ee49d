//! Market primitives shared by the chart modules: fixed-point prices,
//! trades, candles, order-book snapshots, the chart basis and the viewport.
//! Prices are in hundredths of the quoted price; quantities are whole
//! contracts.

use vstd::prelude::*;

verus! {

/// A price in fixed-point units.
#[derive(Clone, Copy, Debug, PartialEq, Eq, Structural)]
pub struct Price {
    pub units: i64,
}

/// A price increment (tick size) in fixed-point units.
#[derive(Clone, Copy, Debug, PartialEq, Eq, Structural)]
pub struct PriceStep {
    pub units: i64,
}

/// `x` rounded to the nearest multiple of `step` (halves round up); steps
/// of one unit or less leave it unchanged.
pub open spec fn round_units(x: int, step: int) -> int {
    if step <= 1 {
        x
    } else {
        ((x + step / 2) / step) * step
    }
}

/// Rounding to `step` cannot overflow.
pub open spec fn round_ok(x: i64, step: i64) -> bool {
    step <= 1 || (x + step / 2 <= i64::MAX && round_units(x as int, step as int) >= i64::MIN)
}

impl Price {
    pub fn from_units(units: i64) -> (r: Price)
        ensures
            r.units == units,
    {
        Price { units }
    }

    /// Round to the nearest multiple of `step`.
    pub fn round_to_step(self, step: PriceStep) -> (r: Price)
        requires
            round_ok(self.units, step.units),
        ensures
            r.units == round_units(self.units as int, step.units as int),
    {
        let unit = step.units;
        if unit <= 1 {
            return self;
        }
        let half = unit / 2;
        let x = self.units + half;
        let q = floor_div(x, unit);
        proof {
            vstd::arithmetic::div_mod::lemma_fundamental_div_mod(x as int, unit as int);
            assert(q * unit <= x) by (nonlinear_arith)
                requires
                    x == unit * q + (x as int) % (unit as int),
                    0 <= (x as int) % (unit as int),
            ;
        }
        Price { units: q * unit }
    }
}

/// `x` rounded to a multiple of `step` on a side: down for sells and bids
/// (`is_sell_or_bid`), up for buys and asks; steps of one unit or less
/// leave it unchanged.
pub open spec fn side_round(x: int, is_sell_or_bid: bool, step: int) -> int {
    if step <= 1 {
        x
    } else if is_sell_or_bid {
        (x / step) * step
    } else {
        ((x + step - 1) / step) * step
    }
}

/// Rounding to a side gives a multiple of the step, within one step of the
/// value: not above it for sells and bids, not below it for buys and asks.
pub proof fn lemma_side_round_meaning(x: int, is_sell_or_bid: bool, step: int)
    requires
        step > 1,
    ensures
        side_round(x, is_sell_or_bid, step) % step == 0,
        is_sell_or_bid ==> x - step < side_round(x, is_sell_or_bid, step) <= x,
        !is_sell_or_bid ==> x <= side_round(x, is_sell_or_bid, step) < x + step,
{
    vstd::arithmetic::div_mod::lemma_fundamental_div_mod(x, step);
    vstd::arithmetic::div_mod::lemma_fundamental_div_mod(x + step - 1, step);
    let q = x / step;
    let c = (x + step - 1) / step;
    assert(x - step < q * step <= x) by (nonlinear_arith)
        requires
            x == step * q + x % step,
            0 <= x % step < step,
    ;
    assert(x <= c * step < x + step) by (nonlinear_arith)
        requires
            x + step - 1 == step * c + (x + step - 1) % step,
            0 <= (x + step - 1) % step < step,
    ;
    vstd::arithmetic::div_mod::lemma_mod_multiples_basic(q, step);
    vstd::arithmetic::div_mod::lemma_mod_multiples_basic(c, step);
}

impl Price {
    /// Round to a multiple of `step`: down for sells and bids, up for buys
    /// and asks.
    pub fn round_to_side_step(self, is_sell_or_bid: bool, step: PriceStep) -> (r: Price)
        requires
            i64::MIN <= side_round(self.units as int, is_sell_or_bid, step.units as int) <= i64::MAX,
        ensures
            r.units == side_round(self.units as int, is_sell_or_bid, step.units as int),
    {
        let unit = step.units;
        if unit <= 1 {
            return self;
        }
        let x = self.units;
        let q = floor_div(x, unit);
        proof {
            assert(-0x8000_0000_0000_0000 <= q <= 0x7fff_ffff_ffff_ffff);
            assert(q * unit <= 0x7fff_ffff_ffff_ffff * 0x7fff_ffff_ffff_ffff) by (nonlinear_arith)
                requires
                    -0x8000_0000_0000_0000 <= q <= 0x7fff_ffff_ffff_ffff,
                    1 < unit <= 0x7fff_ffff_ffff_ffff,
            ;
            assert(q * unit >= -0x8000_0000_0000_0000 * 0x7fff_ffff_ffff_ffff) by (nonlinear_arith)
                requires
                    -0x8000_0000_0000_0000 <= q <= 0x7fff_ffff_ffff_ffff,
                    1 < unit <= 0x7fff_ffff_ffff_ffff,
            ;
        }
        let lo: i128 = q as i128 * unit as i128;
        proof {
            vstd::arithmetic::div_mod::lemma_fundamental_div_mod(x as int, unit as int);
            let r = (x as int) % (unit as int);
            assert(lo == x - r) by (nonlinear_arith)
                requires
                    x == unit * q + r,
                    lo == q * unit,
            ;
            if !is_sell_or_bid {
                if r == 0 {
                    assert(x + unit - 1 == unit * q + (unit - 1)) by (nonlinear_arith)
                        requires
                            x == unit * q + r,
                            r == 0,
                    ;
                    vstd::arithmetic::div_mod::lemma_fundamental_div_mod_converse(
                        x + unit - 1,
                        unit as int,
                        q as int,
                        unit - 1,
                    );
                } else {
                    assert(x + unit - 1 == unit * (q + 1) + (r - 1)) by (nonlinear_arith)
                        requires
                            x == unit * q + r,
                    ;
                    vstd::arithmetic::div_mod::lemma_fundamental_div_mod_converse(
                        x + unit - 1,
                        unit as int,
                        q + 1,
                        r - 1,
                    );
                    assert((q + 1) * unit == q * unit + unit) by (nonlinear_arith);
                }
            }
        }
        if is_sell_or_bid {
            return Price { units: lo as i64 };
        }
        if lo == x as i128 {
            Price { units: x }
        } else {
            Price { units: (lo + unit as i128) as i64 }
        }
    }
}

/// `x` divided by a positive `unit`, rounding toward negative infinity.
pub fn floor_div(x: i64, unit: i64) -> (q: i64)
    requires
        unit > 0,
    ensures
        q == (x as int) / (unit as int),
{
    if x >= 0 {
        x / unit
    } else {
        let y = -(x + 1);
        let q0 = y / unit;
        proof {
            vstd::arithmetic::div_mod::lemma_fundamental_div_mod(y as int, unit as int);
            let r = (y as int) % (unit as int);
            assert(x == unit * (-q0 - 1) + (unit - r - 1)) by (nonlinear_arith)
                requires
                    y == unit * q0 + r,
                    x == -y - 1,
            ;
            vstd::arithmetic::div_mod::lemma_fundamental_div_mod_converse(
                x as int,
                unit as int,
                -q0 - 1,
                unit - r - 1,
            );
        }
        -q0 - 1
    }
}

/// Side of a trade or order.
#[derive(Clone, Copy, Debug, PartialEq, Eq, Structural)]
pub enum Side {
    Buy,
    Sell,
    Bid,
    Ask,
}

impl Side {
    pub open spec fn buying(self) -> bool {
        self is Buy || self is Bid
    }
}

/// An executed trade.
#[derive(Clone, Copy, Debug, PartialEq, Eq, Structural)]
pub struct Trade {
    /// Time in milliseconds.
    pub time: u64,
    pub price: Price,
    /// Quantity in contracts.
    pub quantity: u64,
    pub side: Side,
}

impl Trade {
    pub fn new(time: u64, price: Price, quantity: u64, side: Side) -> (r: Trade)
        ensures
            r == (Trade { time, price, quantity, side }),
    {
        Trade { time, price, quantity, side }
    }

    pub fn is_buy(&self) -> (r: bool)
        ensures
            r == self.side.buying(),
    {
        match self.side {
            Side::Buy | Side::Bid => true,
            Side::Sell | Side::Ask => false,
        }
    }

    pub fn is_sell(&self) -> (r: bool)
        ensures
            r == !self.side.buying(),
    {
        !self.is_buy()
    }
}

/// An OHLC candle with the volume bought and sold in it.
#[derive(Clone, Copy, Debug, PartialEq, Eq, Structural)]
pub struct Candle {
    /// Open time in milliseconds.
    pub time: u64,
    pub open: Price,
    pub high: Price,
    pub low: Price,
    pub close: Price,
    pub buy_volume: u64,
    pub sell_volume: u64,
}

impl Candle {
    pub fn new(
        time: u64,
        open: Price,
        high: Price,
        low: Price,
        close: Price,
        buy_volume: u64,
        sell_volume: u64,
    ) -> (r: Candle)
        ensures
            r == (Candle { time, open, high, low, close, buy_volume, sell_volume }),
    {
        Candle { time, open, high, low, close, buy_volume, sell_volume }
    }
}

/// One order-book level: price and resting quantity.
#[derive(Clone, Copy, Debug, PartialEq, Eq, Structural)]
pub struct DepthLevel {
    pub price: Price,
    pub quantity: u64,
}

/// Order book at one instant.
#[derive(Debug)]
pub struct DepthSnapshot {
    /// Time in milliseconds.
    pub time: u64,
    pub bids: Vec<DepthLevel>,
    pub asks: Vec<DepthLevel>,
}

/// Candle interval of a time-based chart.
#[derive(Clone, Copy, Debug, PartialEq, Eq, Structural, Hash)]
pub enum Timeframe {
    M1,
    M3,
    M5,
    M15,
    M30,
    H1,
    H4,
    D1,
}

impl Timeframe {
    pub open spec fn millis(self) -> u64 {
        match self {
            Timeframe::M1 => 60_000,
            Timeframe::M3 => 180_000,
            Timeframe::M5 => 300_000,
            Timeframe::M15 => 900_000,
            Timeframe::M30 => 1_800_000,
            Timeframe::H1 => 3_600_000,
            Timeframe::H4 => 14_400_000,
            Timeframe::D1 => 86_400_000,
        }
    }

    /// Interval length in milliseconds.
    pub fn to_millis(&self) -> (r: u64)
        ensures
            r == self.millis(),
            r > 0,
    {
        match self {
            Timeframe::M1 => 60_000,
            Timeframe::M3 => 180_000,
            Timeframe::M5 => 300_000,
            Timeframe::M15 => 900_000,
            Timeframe::M30 => 1_800_000,
            Timeframe::H1 => 3_600_000,
            Timeframe::H4 => 14_400_000,
            Timeframe::D1 => 86_400_000,
        }
    }
}

/// What a candle spans: a fixed time interval or a fixed number of trades.
#[derive(Clone, Copy, Debug, PartialEq, Eq, Structural, Hash)]
pub enum ChartBasis {
    Time(Timeframe),
    Tick(u32),
}

/// Trades, candles and optional order-book history of one chart.
#[derive(Debug)]
pub struct ChartData {
    /// Trades in time order.
    pub trades: Vec<Trade>,
    /// Candles in time order.
    pub candles: Vec<Candle>,
    pub depth_snapshots: Option<Vec<DepthSnapshot>>,
}

impl ChartData {
    /// Chart data from trades and candles, without order-book history.
    pub fn from_trades(trades: Vec<Trade>, candles: Vec<Candle>) -> (r: ChartData)
        ensures
            r.trades@ == trades@,
            r.candles@ == candles@,
            r.depth_snapshots is None,
    {
        ChartData { trades, candles, depth_snapshots: None }
    }
}

/// Visible part of a chart: a time (or candle index) range and a price range.
#[derive(Clone, Copy, Debug, PartialEq, Eq, Structural)]
pub struct ViewportBounds {
    pub time_start: u64,
    pub time_end: u64,
    pub price_low: i64,
    pub price_high: i64,
}

impl ViewportBounds {
    pub fn new(time_range: (u64, u64), price_range: (i64, i64)) -> (r: ViewportBounds)
        ensures
            r == (ViewportBounds {
                time_start: time_range.0,
                time_end: time_range.1,
                price_low: price_range.0,
                price_high: price_range.1,
            }),
    {
        ViewportBounds {
            time_start: time_range.0,
            time_end: time_range.1,
            price_low: price_range.0,
            price_high: price_range.1,
        }
    }
}

/// Level of detail: how much of the data is drawn.
#[derive(Clone, Copy, Debug, PartialEq, Eq, Structural, Hash)]
pub enum LodLevel {
    High,
    Medium,
    Low,
}

impl LodLevel {
    pub open spec fn decimation(self) -> usize {
        match self {
            LodLevel::High => 1,
            LodLevel::Medium => 2,
            LodLevel::Low => 4,
        }
    }

    pub open spec fn render_count(self) -> usize {
        match self {
            LodLevel::High => 10_000,
            LodLevel::Medium => 5_000,
            LodLevel::Low => 2_000,
        }
    }

    /// Only every n-th item is drawn.
    pub fn decimation_factor(&self) -> (r: usize)
        ensures
            r == self.decimation(),
            r >= 1,
    {
        match self {
            LodLevel::High => 1,
            LodLevel::Medium => 2,
            LodLevel::Low => 4,
        }
    }

    /// Most items drawn per frame.
    pub fn max_render_count(&self) -> (r: usize)
        ensures
            r == self.render_count(),
    {
        match self {
            LodLevel::High => 10_000,
            LodLevel::Medium => 5_000,
            LodLevel::Low => 2_000,
        }
    }
}

/// Which quantity a footprint cluster shows.
#[derive(Clone, Copy, Debug, PartialEq, Eq, Structural)]
pub enum ClusterKind {
    BidAsk,
    Delta,
    DeltaProfile,
    Volume,
    VolumeProfile,
    Trades,
}

/// `a + b`, or `u64::MAX` when the sum does not fit.
pub open spec fn sat_add(a: u64, b: u64) -> u64 {
    if a + b > u64::MAX {
        u64::MAX
    } else {
        (a + b) as u64
    }
}

} // verus!
