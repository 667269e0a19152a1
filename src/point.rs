use vstd::prelude::*;

verus! {

/// Sub-pixel units per pixel.
pub const UNITS_PER_PX: u64 = 256;

/// Pressure of a full press, in thousandths.
pub const FULL_PRESSURE: u16 = 1000;

/// One recorded sample: position in sub-pixel units and pressure in thousandths.
#[derive(Clone, Copy, Debug, PartialEq, Eq)]
pub struct StrokePoint {
    pub x: i32,
    pub y: i32,
    pub pressure: u16,
}

/// A point of generated geometry, in sub-pixel units.
#[derive(Clone, Copy, Debug, PartialEq, Eq)]
pub struct Vec2 {
    pub x: i64,
    pub y: i64,
}

impl StrokePoint {
    /// The pressure to record: the device's reading, or a full press when it gives none.
    pub open spec fn pressure_or_full(pressure: Option<u16>) -> u16 {
        match pressure {
            Some(p) => p,
            None => FULL_PRESSURE,
        }
    }

    /// A sample at `(x, y)`; a missing pressure reading counts as a full press.
    pub fn new(x: i32, y: i32, pressure: Option<u16>) -> (r: StrokePoint)
        ensures
            r.x == x,
            r.y == y,
            r.pressure == Self::pressure_or_full(pressure),
    {
        let p = match pressure {
            Some(p) => p,
            None => FULL_PRESSURE,
        };
        StrokePoint { x, y, pressure: p }
    }
}

/// Horizontal offset from `a` to `b`.
pub open spec fn dx(a: StrokePoint, b: StrokePoint) -> int {
    b.x - a.x
}

/// Vertical offset from `a` to `b`.
pub open spec fn dy(a: StrokePoint, b: StrokePoint) -> int {
    b.y - a.y
}

/// Squared Euclidean distance between two samples, in square units.
pub open spec fn dist_sq(a: StrokePoint, b: StrokePoint) -> int {
    dx(a, b) * dx(a, b) + dy(a, b) * dy(a, b)
}

/// Squared distance between two samples, computed without overflow.
pub fn distance_sq(a: StrokePoint, b: StrokePoint) -> (r: u128)
    ensures
        r == dist_sq(a, b),
        r <= 0x2_0000_0000_0000_0000,
{
    let dx: i64 = b.x as i64 - a.x as i64;
    let dy: i64 = b.y as i64 - a.y as i64;
    let ax: u64 = if dx >= 0 { dx as u64 } else { (-dx) as u64 };
    let ay: u64 = if dy >= 0 { dy as u64 } else { (-dy) as u64 };
    proof {
        assert(ax * ax == dx * dx) by (nonlinear_arith)
            requires ax == dx || ax == -dx;
        assert(ay * ay == dy * dy) by (nonlinear_arith)
            requires ay == dy || ay == -dy;
        assert(ax * ax <= 0x1_0000_0000_0000_0000) by (nonlinear_arith)
            requires ax <= 0x1_0000_0000;
        assert(ay * ay <= 0x1_0000_0000_0000_0000) by (nonlinear_arith)
            requires ay <= 0x1_0000_0000;
    }
    (ax as u128) * (ax as u128) + (ay as u128) * (ay as u128)
}

} // verus!
