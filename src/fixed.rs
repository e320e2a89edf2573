//! Fixed-point plane coordinates.
//!
//! A plane coordinate is held as a signed integer counting units of
//! `2^-FRAC_BITS`: the value `v` stands for the real number `v / ONE`.
use vstd::prelude::*;

verus! {

/// Number of fractional bits of a plane coordinate.
pub const FRAC_BITS: u32 = 28;

/// The plane value 1.0 in fixed-point units (`2^FRAC_BITS`).
pub const ONE: i64 = 268435456;

/// A point of the complex plane, `x + y i`, both parts in fixed-point units.
#[derive(Clone, Copy, Debug, PartialEq, Eq, Structural)]
pub struct Point {
    pub x: i64,
    pub y: i64,
}

impl Point {
    /// The point `(x, y)` given in fixed-point units.
    pub fn new(x: i64, y: i64) -> (r: Point)
        ensures
            r.x == x,
            r.y == y,
    {
        Point { x, y }
    }

    /// The point with integer coordinates `(x, y)` in plane units.
    pub fn from_units(x: i32, y: i32) -> (r: Point)
        ensures
            r.x == x * ONE,
            r.y == y * ONE,
    {
        Point { x: x as i64 * ONE, y: y as i64 * ONE }
    }
}

} // verus!
