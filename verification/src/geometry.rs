//! Planar points and vectors over fixed-point scalars.

use vstd::prelude::*;

use crate::fixed::{abs_i, mul_fp, mulf, sqrt_fp, sqrtf};
use crate::trig::{atan2_units, cos_units, sin_units, spec_atan2, spec_cos, spec_sin};

verus! {

/// Largest coordinate magnitude the geometric queries accept: squared
/// lengths then stay within the fixed-point range.
pub const COORD_LIM: i64 = 500_000_000;

/// A displacement in the plane, in fixed-point scalars.
#[derive(Clone, Copy, Debug, PartialEq, Eq, Structural)]
pub struct Vector {
    /// Horizontal component.
    pub x: i64,
    /// Vertical component.
    pub y: i64,
}

/// A position in the plane, in fixed-point scalars.
#[derive(Clone, Copy, Debug, PartialEq, Eq, Structural)]
pub struct Point {
    /// Horizontal coordinate.
    pub x: i64,
    /// Vertical coordinate.
    pub y: i64,
}

/// The squared length of `(x, y)` as a fixed-point scalar.
pub open spec fn spec_norm2(x: int, y: int) -> int {
    mulf(x, x) + mulf(y, y)
}

/// The length of `(x, y)` as a fixed-point scalar.
pub open spec fn spec_length(x: int, y: int) -> int {
    sqrtf(spec_norm2(x, y))
}

/// `(x, y)` rotated counterclockwise by `angle` binary units.
pub open spec fn spec_rotated_x(x: int, y: int, angle: int) -> int {
    mulf(x, spec_cos(angle)) - mulf(y, spec_sin(angle))
}

/// See [`spec_rotated_x`].
pub open spec fn spec_rotated_y(x: int, y: int, angle: int) -> int {
    mulf(x, spec_sin(angle)) + mulf(y, spec_cos(angle))
}

/// Derive the fixed-point range facts for a squared length.
pub proof fn lemma_norm2_fits(x: int, y: int)
    requires
        abs_i(x) <= 4 * COORD_LIM,
        abs_i(y) <= 4 * COORD_LIM,
    ensures
        0 <= spec_norm2(x, y) <= 8_000_000_000_000_000_000,
        -crate::fixed::MUL_LIM <= x * x <= crate::fixed::MUL_LIM as int,
        -crate::fixed::MUL_LIM <= y * y <= crate::fixed::MUL_LIM as int,
        0 <= mulf(x, x) <= 4_000_000_000_000_000_000,
        0 <= mulf(y, y) <= 4_000_000_000_000_000_000,
{
    crate::fixed::lemma_mulf_fits(x, x, 2_000_000_000int, 2_000_000_000int);
    crate::fixed::lemma_mulf_fits(y, y, 2_000_000_000int, 2_000_000_000int);
    crate::fixed::lemma_mul_sign(x, x);
    crate::fixed::lemma_mul_sign(y, y);
    vstd::arithmetic::div_mod::lemma_div_pos_is_pos(x * x, 1000);
    vstd::arithmetic::div_mod::lemma_div_pos_is_pos(y * y, 1000);
}

impl Vector {
    /// Both components within the geometric range.
    pub open spec fn in_range(self, m: int) -> bool {
        abs_i(self.x as int) <= m && abs_i(self.y as int) <= m
    }

    /// Make a vector from its components.
    pub fn new(x: i64, y: i64) -> (v: Vector)
        ensures
            v.x == x,
            v.y == y,
    {
        Vector { x, y }
    }

    /// The unit vector along the x axis.
    pub fn x_axis() -> (v: Vector)
        ensures
            v.x == 1000 && v.y == 0,
    {
        Vector { x: 1000, y: 0 }
    }

    /// The unit vector along the y axis.
    pub fn y_axis() -> (v: Vector)
        ensures
            v.x == 0 && v.y == 1000,
    {
        Vector { x: 0, y: 1000 }
    }

    /// Horizontal component.
    pub fn x(&self) -> (r: i64)
        ensures
            r == self.x,
    {
        self.x
    }

    /// Vertical component.
    pub fn y(&self) -> (r: i64)
        ensures
            r == self.y,
    {
        self.y
    }

    /// Length of the vector.
    pub fn length(&self) -> (r: i64)
        requires
            self.in_range(4 * COORD_LIM as int),
        ensures
            r == spec_length(self.x as int, self.y as int),
            0 <= r <= 100_000_000_000,
    {
        proof {
            lemma_norm2_fits(self.x as int, self.y as int);
        }
        sqrt_fp(mul_fp(self.x, self.x) + mul_fp(self.y, self.y))
    }

    /// The direction of the vector, in binary angle units.
    pub fn heading(&self) -> (r: i64)
        requires
            self.in_range(4 * COORD_LIM as int),
        ensures
            r == spec_atan2(self.y as int, self.x as int),
            -crate::trig::HALF_TURN <= r <= crate::trig::HALF_TURN,
    {
        atan2_units(self.y, self.x)
    }

    /// Dot product with another vector.
    pub fn dot(self, other: &Vector) -> (r: i64)
        requires
            self.in_range(4 * COORD_LIM as int),
            other.in_range(4 * COORD_LIM as int),
        ensures
            r == mulf(self.x as int, other.x as int) + mulf(self.y as int, other.y as int),
            abs_i(r as int) <= 8_000_000_000_000_000_000,
    {
        proof {
            crate::fixed::lemma_mulf_fits(
                self.x as int,
                other.x as int,
                2_000_000_000int,
                2_000_000_000int,
            );
            crate::fixed::lemma_mulf_fits(
                self.y as int,
                other.y as int,
                2_000_000_000int,
                2_000_000_000int,
            );
        }
        mul_fp(self.x, other.x) + mul_fp(self.y, other.y)
    }

    /// The vector rotated counterclockwise by `angle` binary units.
    #[verifier::rlimit(50)]
    pub fn rotated(&self, angle: i64) -> (v: Vector)
        requires
            self.in_range(2 * COORD_LIM as int),
            -1_000_000_000_000 <= angle <= 1_000_000_000_000,
        ensures
            v.x == spec_rotated_x(self.x as int, self.y as int, angle as int),
            v.y == spec_rotated_y(self.x as int, self.y as int, angle as int),
            v.in_range(2_600_000_000int),
    {
        let c = cos_units(angle);
        let s = sin_units(angle);
        proof {
            crate::fixed::lemma_mulf_fits(self.x as int, c as int, 1_000_000_000int, 1300);
            crate::fixed::lemma_mulf_fits(self.y as int, s as int, 1_000_000_000int, 1300);
            crate::fixed::lemma_mulf_fits(self.x as int, s as int, 1_000_000_000int, 1300);
            crate::fixed::lemma_mulf_fits(self.y as int, c as int, 1_000_000_000int, 1300);
        }
        Vector { x: mul_fp(self.x, c) - mul_fp(self.y, s), y: mul_fp(self.x, s) + mul_fp(self.y, c) }
    }

    /// Componentwise sum.
    pub fn plus(&self, other: &Vector) -> (v: Vector)
        requires
            abs_i(self.x + other.x) <= i64::MAX,
            abs_i(self.y + other.y) <= i64::MAX,
        ensures
            v.x == self.x + other.x,
            v.y == self.y + other.y,
    {
        Vector { x: self.x + other.x, y: self.y + other.y }
    }

    /// Componentwise difference.
    pub fn minus(&self, other: &Vector) -> (v: Vector)
        requires
            abs_i(self.x - other.x) <= i64::MAX,
            abs_i(self.y - other.y) <= i64::MAX,
        ensures
            v.x == self.x - other.x,
            v.y == self.y - other.y,
    {
        Vector { x: self.x - other.x, y: self.y - other.y }
    }

    /// The vector scaled by a fixed-point factor.
    pub fn scaled(&self, k: i64) -> (v: Vector)
        requires
            -crate::fixed::MUL_LIM <= self.x as int * k as int <= crate::fixed::MUL_LIM as int,
            -crate::fixed::MUL_LIM <= self.y as int * k as int <= crate::fixed::MUL_LIM as int,
        ensures
            v.x == mulf(self.x as int, k as int),
            v.y == mulf(self.y as int, k as int),
    {
        Vector { x: mul_fp(self.x, k), y: mul_fp(self.y, k) }
    }
}

impl Point {
    /// Make a point from its coordinates.
    pub fn new(x: i64, y: i64) -> (p: Point)
        ensures
            p.x == x,
            p.y == y,
    {
        Point { x, y }
    }

    /// The origin.
    pub fn origin() -> (p: Point)
        ensures
            p.x == 0 && p.y == 0,
    {
        Point { x: 0, y: 0 }
    }

    /// Both coordinates within the geometric range.
    pub open spec fn in_range(self, m: int) -> bool {
        abs_i(self.x as int) <= m && abs_i(self.y as int) <= m
    }

    /// The displacement from this point to `other`.
    pub fn vector_to(&self, other: &Point) -> (v: Vector)
        requires
            self.in_range(COORD_LIM as int),
            other.in_range(COORD_LIM as int),
        ensures
            v.x == other.x - self.x,
            v.y == other.y - self.y,
            v.in_range(2 * COORD_LIM as int),
    {
        Vector { x: other.x - self.x, y: other.y - self.y }
    }

    /// The displacement from `other` to this point.
    pub fn vector_from(&self, other: &Point) -> (v: Vector)
        requires
            self.in_range(COORD_LIM as int),
            other.in_range(COORD_LIM as int),
        ensures
            v.x == self.x - other.x,
            v.y == self.y - other.y,
            v.in_range(2 * COORD_LIM as int),
    {
        Vector { x: self.x - other.x, y: self.y - other.y }
    }

    /// Distance to another point.
    pub fn distance_to(&self, other: &Point) -> (r: i64)
        requires
            self.in_range(COORD_LIM as int),
            other.in_range(COORD_LIM as int),
        ensures
            r == spec_length(other.x - self.x, other.y - self.y),
            0 <= r <= 100_000_000_000,
    {
        self.vector_to(other).length()
    }

    /// The direction from this point toward `other`, in binary units.
    pub fn bearing_to(&self, other: &Point) -> (r: i64)
        requires
            self.in_range(COORD_LIM as int),
            other.in_range(COORD_LIM as int),
        ensures
            r == spec_atan2(other.y - self.y, other.x - self.x),
            -crate::trig::HALF_TURN <= r <= crate::trig::HALF_TURN,
    {
        let v = self.vector_to(other);
        atan2_units(v.y, v.x)
    }

    /// The point displaced by a vector.
    pub fn translated_by(&self, v: &Vector) -> (p: Point)
        requires
            abs_i(self.x + v.x) <= i64::MAX,
            abs_i(self.y + v.y) <= i64::MAX,
        ensures
            p.x == self.x + v.x,
            p.y == self.y + v.y,
    {
        Point { x: self.x + v.x, y: self.y + v.y }
    }
}

} // verus!
