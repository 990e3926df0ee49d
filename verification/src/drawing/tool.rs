//! Drawing tools and drawing identifiers.

use vstd::prelude::*;

verus! {

/// The kind of annotation a drawing is.
#[derive(Clone, Copy, Debug, PartialEq, Eq, Structural, Hash)]
pub enum DrawingTool {
    NoTool,
    HorizontalLine,
    VerticalLine,
    Line,
    Arrow,
    Ray,
    ExtendedLine,
    Rectangle,
    PriceRange,
    DateRange,
    Ellipse,
    FibRetracement,
    FibExtension,
    ParallelChannel,
    TextLabel,
    PriceLabel,
}

impl DrawingTool {
    /// Number of user-placed points a drawing of this kind needs.
    pub open spec fn required(self) -> nat {
        match self {
            DrawingTool::NoTool => 0,
            DrawingTool::HorizontalLine
            | DrawingTool::VerticalLine
            | DrawingTool::TextLabel
            | DrawingTool::PriceLabel => 1,
            DrawingTool::FibExtension | DrawingTool::ParallelChannel => 3,
            _ => 2,
        }
    }

    pub fn required_points(&self) -> (n: usize)
        ensures
            n == self.required(),
    {
        match self {
            DrawingTool::NoTool => 0,
            DrawingTool::HorizontalLine
            | DrawingTool::VerticalLine
            | DrawingTool::TextLabel
            | DrawingTool::PriceLabel => 1,
            DrawingTool::FibExtension | DrawingTool::ParallelChannel => 3,
            _ => 2,
        }
    }
}

/// Unique identifier of a drawing (the 128-bit value of a random UUID).
#[derive(Clone, Copy, Debug, PartialEq, Eq, Structural, Hash)]
pub struct DrawingId {
    pub value: u128,
}

/// The 128-bit value of a version-4 UUID: version nibble 4, variant bits `10`.
pub open spec fn is_v4_value(v: u128) -> bool {
    v & 0xF000_C000_0000_0000_0000u128 == 0x4000_8000_0000_0000_0000u128
}

/// Calls `uuid::Uuid::new_v4` and returns the UUID as a 128-bit integer
/// (`Uuid::as_u128`). The value is random; what every outcome satisfies is
/// that the version nibble is 4 and the variant bits are `10`, as `new_v4`
/// sets them, so the value is never zero. Left unsaid: `new_v4` panics where the operating
/// system's random source fails, which no precondition can rule out.
#[verifier::external_body]
fn random_uuid_value() -> (r: u128)
    ensures
        r & 0xF000_C000_0000_0000_0000u128 == 0x4000_8000_0000_0000_0000u128,
        r != 0,
{
    uuid::Uuid::new_v4().as_u128()
}

impl DrawingId {
    /// A fresh random identifier: the value of a random version-4 UUID.
    pub fn new() -> (r: DrawingId)
        ensures
            is_v4_value(r.value),
            r.value != 0,
    {
        DrawingId { value: random_uuid_value() }
    }
}

} // verus!
