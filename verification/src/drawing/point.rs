//! A point anchored to a price and a time on the chart.

use crate::market::Price;
use vstd::prelude::*;

verus! {

/// A point anchored to price and time coordinates.
#[derive(Clone, Copy, Debug, PartialEq, Eq, Structural)]
pub struct DrawingPoint {
    /// Price in fixed-point units.
    pub price: Price,
    /// Timestamp in milliseconds, or candle index on tick charts.
    pub time: u64,
    /// Whether this point was snapped to a candle.
    pub snapped: bool,
}

/// Storage form of a [`DrawingPoint`].
#[derive(Clone, Copy, Debug, PartialEq, Eq, Structural)]
pub struct SerializablePoint {
    pub price_units: i64,
    pub time: u64,
    pub snapped: bool,
}

pub open spec fn point_to_ser(p: DrawingPoint) -> SerializablePoint {
    SerializablePoint { price_units: p.price.units, time: p.time, snapped: p.snapped }
}

pub open spec fn point_from_ser(p: SerializablePoint) -> DrawingPoint {
    DrawingPoint { price: Price { units: p.price_units }, time: p.time, snapped: p.snapped }
}

/// Moving `p` by `dt` in time and `dp` in price stays within `i64`.
pub open spec fn shift_ok(p: DrawingPoint, dt: i64, dp: i64) -> bool {
    &&& i64::MIN <= (p.time as i64) + dt <= i64::MAX
    &&& i64::MIN <= p.price.units + dp <= i64::MAX
}

/// `p` moved by `dt` in time (clamped at zero) and `dp` in price.
pub open spec fn shift_point(p: DrawingPoint, dt: i64, dp: i64) -> DrawingPoint {
    let t = (p.time as i64) + dt;
    DrawingPoint {
        price: Price { units: (p.price.units + dp) as i64 },
        time: if t < 0 { 0 } else { t as u64 },
        snapped: p.snapped,
    }
}

/// Exec form of [`shift_point`].
pub fn shifted(p: DrawingPoint, dt: i64, dp: i64) -> (r: DrawingPoint)
    requires
        shift_ok(p, dt, dp),
    ensures
        r == shift_point(p, dt, dp),
{
    let t = p.time as i64 + dt;
    DrawingPoint {
        price: Price::from_units(p.price.units + dp),
        time: if t < 0 { 0 } else { t as u64 },
        snapped: p.snapped,
    }
}

impl DrawingPoint {
    pub fn new(price: Price, time: u64) -> (r: DrawingPoint)
        ensures
            r == (DrawingPoint { price, time, snapped: false }),
    {
        DrawingPoint { price, time, snapped: false }
    }

    pub fn to_serializable(&self) -> (r: SerializablePoint)
        ensures
            r == point_to_ser(*self),
    {
        SerializablePoint { price_units: self.price.units, time: self.time, snapped: self.snapped }
    }

    pub fn from_serializable(point: &SerializablePoint) -> (r: DrawingPoint)
        ensures
            r == point_from_ser(*point),
    {
        DrawingPoint {
            price: Price::from_units(point.price_units),
            time: point.time,
            snapped: point.snapped,
        }
    }
}

/// Converting a point to its storage form and back gives the same point.
pub proof fn lemma_point_roundtrip(p: DrawingPoint)
    ensures
        point_from_ser(point_to_ser(p)) == p,
{
}

/// Converting a stored point to a point and back gives the same stored point.
pub proof fn lemma_serializable_point_roundtrip(p: SerializablePoint)
    ensures
        point_to_ser(point_from_ser(p)) == p,
{
}

} // verus!
