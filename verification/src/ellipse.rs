//! The elliptical uncertainty region: a centre, an orientation and two
//! axis lengths, with containment and distance queries.

use vstd::prelude::*;

use crate::fixed::{abs_fp, abs_i, div_fp, div_trunc, divf, lemma_mulf_fits, mul_fp, mulf, sqrt_fp,
    sqrtf, tdiv};
use crate::geometry::{spec_length, spec_rotated_x, spec_rotated_y, Point, Vector, COORD_LIM};
use crate::trig::{lemma_cos_periodic, lemma_sin_periodic, spec_atan2, FULL_TURN, QUARTER_TURN};

verus! {

/// Largest axis length the ellipse queries accept.
pub const DIM_LIM: i64 = 3_000_000_000;

/// Largest orientation magnitude the ellipse queries accept, in binary
/// angle units.
pub const ANGLE_LIM: i64 = 1_000_000_000_000;

/// An elliptical region.  The height always runs along the orientation
/// axis and `width <= height` after construction, which rotates the frame
/// a quarter turn when the caller's axes come swapped.
#[derive(Clone, Copy, Debug, PartialEq, Eq, Structural)]
pub struct Ellipse {
    /// Centre of the region.
    pub centre: Point,
    /// Direction of the long axis, in binary angle units.
    pub orientation: i64,
    /// Extent across the orientation axis (the minor axis).
    pub width: i64,
    /// Extent along the orientation axis (the major axis).
    pub height: i64,
}

/// The orientation `Ellipse::new` stores: rotated a quarter turn when the
/// given axes were swapped.
pub open spec fn spec_new_orientation(orientation: int, width: int, height: int) -> int {
    if width > height {
        orientation + QUARTER_TURN
    } else {
        orientation
    }
}

/// The minor axis `Ellipse::new` stores.
pub open spec fn spec_new_width(width: int, height: int) -> int {
    if width > height {
        height
    } else {
        width
    }
}

/// The major axis `Ellipse::new` stores.
pub open spec fn spec_new_height(width: int, height: int) -> int {
    if width > height {
        width
    } else {
        height
    }
}

/// Whether the point `(px, py)` lies in the ellipse centred at
/// `(cx, cy)` with the given orientation and axes: the normalized
/// quadratic form is at most one, boundary included.  A vanishing
/// fixed-point semi-axis degrades the region to a segment or a point:
/// only points with a zero component along that axis are inside.
#[verifier::opaque]
pub open spec fn spec_contains_at(
    cx: int,
    cy: int,
    o: int,
    w: int,
    h: int,
    px: int,
    py: int,
) -> bool {
    let vx = cx - px;
    let vy = cy - py;
    let rx = spec_rotated_x(vx, vy, -o);
    let ry = spec_rotated_y(vx, vy, -o);
    let a = tdiv(h, 2);
    let b = tdiv(w, 2);
    let aq = mulf(a, a);
    let bq = mulf(b, b);
    let xq = mulf(rx, rx);
    let yq = mulf(ry, ry);
    if aq == 0 && xq != 0 {
        false
    } else if bq == 0 && yq != 0 {
        false
    } else {
        let xpart = if aq == 0 {
            0
        } else {
            divf(xq, aq)
        };
        let ypart = if bq == 0 {
            0
        } else {
            divf(yq, bq)
        };
        xpart + ypart <= 1000
    }
}

/// The polar radius of the ellipse with the given orientation and axes,
/// in the direction `angle`; zero when the region is degenerate.
#[verifier::opaque]
pub open spec fn spec_radius_at(o: int, w: int, h: int, angle: int) -> int {
    let rel = angle - o;
    let a = tdiv(h, 2);
    let b = tdiv(w, 2);
    let s2 = mulf(crate::trig::spec_sin(rel), crate::trig::spec_sin(rel));
    let c2 = mulf(crate::trig::spec_cos(rel), crate::trig::spec_cos(rel));
    let inner = mulf(mulf(a, a), s2) + mulf(mulf(b, b), c2);
    if sqrtf(inner) == 0 {
        0
    } else {
        divf(mulf(a, b), sqrtf(inner))
    }
}

impl Ellipse {
    /// The greatest distance from `p` to the region's boundary, as the
    /// contracts see it.
    pub open spec fn spec_max_distance_to(self, p: Point) -> int {
        spec_length(self.centre.x - p.x, self.centre.y - p.y) + spec_radius_at(
            self.orientation as int,
            self.width as int,
            self.height as int,
            spec_atan2(self.centre.y - p.y, self.centre.x - p.x),
        )
    }

    /// The smallest distance from `p` to the region's boundary, as the
    /// contracts see it.
    pub open spec fn spec_min_distance_to(self, p: Point) -> int {
        abs_i(
            spec_length(self.centre.x - p.x, self.centre.y - p.y) - spec_radius_at(
                self.orientation as int,
                self.width as int,
                self.height as int,
                spec_atan2(self.centre.y - p.y, self.centre.x - p.x),
            ),
        )
    }

    /// The geometric range every query of this module relies on.
    pub open spec fn wf(self) -> bool {
        &&& self.centre.in_range(COORD_LIM as int)
        &&& 0 <= self.width <= DIM_LIM
        &&& 0 <= self.height <= DIM_LIM
        &&& -ANGLE_LIM <= self.orientation <= ANGLE_LIM
    }

    /// Whether `p` lies in this region.
    pub open spec fn spec_contains(self, p: Point) -> bool {
        spec_contains_at(
            self.centre.x as int,
            self.centre.y as int,
            self.orientation as int,
            self.width as int,
            self.height as int,
            p.x as int,
            p.y as int,
        )
    }

    /// Create a new ellipse.  The stored height runs along the
    /// orientation axis; if the caller's width exceeds their height the
    /// frame is rotated a quarter turn so that `width <= height` holds.
    pub fn new(centre: &Point, orientation: i64, width: i64, height: i64) -> (e: Ellipse)
        requires
            -ANGLE_LIM + QUARTER_TURN <= orientation <= ANGLE_LIM - QUARTER_TURN,
        ensures
            e.centre == *centre,
            e.orientation == spec_new_orientation(
                orientation as int,
                width as int,
                height as int,
            ),
            e.width == spec_new_width(width as int, height as int),
            e.height == spec_new_height(width as int, height as int),
    {
        if width > height {
            Ellipse { centre: *centre, orientation: orientation + QUARTER_TURN, width: height, height: width }
        } else {
            Ellipse { centre: *centre, orientation, width, height }
        }
    }

    /// Move the region by a displacement.
    pub fn translate(&mut self, vector: &Vector)
        requires
            abs_i(old(self).centre.x + vector.x) <= i64::MAX,
            abs_i(old(self).centre.y + vector.y) <= i64::MAX,
        ensures
            final(self).centre.x == old(self).centre.x + vector.x,
            final(self).centre.y == old(self).centre.y + vector.y,
            final(self).orientation == old(self).orientation,
            final(self).width == old(self).width,
            final(self).height == old(self).height,
    {
        self.centre = self.centre.translated_by(vector);
    }

    /// Grow both axes by twice the given amount.
    pub fn expand(&mut self, value: i64)
        requires
            abs_i(value as int) <= 1_000_000_000_000_000_000,
            abs_i(old(self).width + 2 * value) <= i64::MAX,
            abs_i(old(self).height + 2 * value) <= i64::MAX,
        ensures
            final(self).width == old(self).width + 2 * value,
            final(self).height == old(self).height + 2 * value,
            final(self).centre == old(self).centre,
            final(self).orientation == old(self).orientation,
    {
        self.width = self.width + 2 * value;
        self.height = self.height + 2 * value;
    }

    /// The polar radius in the direction `angle`.
    ///
    /// The result follows the exact fixed-point evaluation of the polar
    /// radius formula, and is periodic in whole turns of `angle` because
    /// every trigonometric value wraps first.  Because the fixed-point
    /// sine and cosine are approximations, the value can leave the true
    /// semi-minor-to-semi-major envelope by a few parts in a thousand;
    /// only the formula itself is pinned here.
    pub fn radius(&self, angle: i64) -> (r: i64)
        requires
            self.wf(),
            -ANGLE_LIM <= angle <= ANGLE_LIM,
        ensures
            r == spec_radius_at(
                self.orientation as int,
                self.width as int,
                self.height as int,
                angle as int,
            ),
            0 <= r <= 2_300_000_000_000_000_000,
    {
        proof {
            reveal(spec_radius_at);
        }
        let rel = angle - self.orientation;
        let s = crate::trig::sin_units(rel);
        let c = crate::trig::cos_units(rel);
        let a = div_trunc(self.height, 2);
        let b = div_trunc(self.width, 2);
        proof {
            crate::fixed::lemma_tdiv_bound(self.height as int, 2, DIM_LIM as int);
            crate::fixed::lemma_tdiv_bound(self.width as int, 2, DIM_LIM as int);
            lemma_mulf_fits(s as int, s as int, 1300, 1300);
            lemma_mulf_fits(c as int, c as int, 1300, 1300);
            lemma_mulf_fits(a as int, a as int, 1_500_000_000int, 1_500_000_000int);
            lemma_mulf_fits(b as int, b as int, 1_500_000_000int, 1_500_000_000int);
            lemma_mulf_fits(mulf(a as int, a as int), mulf(s as int, s as int),
                2_250_000_000_000_000int, 1690);
            lemma_mulf_fits(mulf(b as int, b as int), mulf(c as int, c as int),
                2_250_000_000_000_000int, 1690);
            crate::fixed::lemma_mul_sign(a as int * a as int, 1);
            crate::fixed::lemma_mul_sign(a as int, a as int);
            crate::fixed::lemma_mul_sign(b as int, b as int);
            crate::fixed::lemma_mul_sign(s as int, s as int);
            crate::fixed::lemma_mul_sign(c as int, c as int);
            vstd::arithmetic::div_mod::lemma_div_pos_is_pos(a as int * a as int, 1000);
            vstd::arithmetic::div_mod::lemma_div_pos_is_pos(b as int * b as int, 1000);
            vstd::arithmetic::div_mod::lemma_div_pos_is_pos(s as int * s as int, 1000);
            vstd::arithmetic::div_mod::lemma_div_pos_is_pos(c as int * c as int, 1000);
            crate::fixed::lemma_mul_sign(mulf(a as int, a as int), mulf(s as int, s as int));
            crate::fixed::lemma_mul_sign(mulf(b as int, b as int), mulf(c as int, c as int));
            vstd::arithmetic::div_mod::lemma_div_pos_is_pos(
                mulf(a as int, a as int) * mulf(s as int, s as int),
                1000,
            );
            vstd::arithmetic::div_mod::lemma_div_pos_is_pos(
                mulf(b as int, b as int) * mulf(c as int, c as int),
                1000,
            );
            lemma_mulf_fits(a as int, b as int, 1_500_000_000int, 1_500_000_000int);
        }
        let inner = mul_fp(mul_fp(a, a), mul_fp(s, s)) + mul_fp(mul_fp(b, b), mul_fp(c, c));
        let den = sqrt_fp(inner);
        if den == 0 {
            0
        } else {
            let num = mul_fp(a, b);
            proof {
                crate::fixed::lemma_mul_sign(a as int, b as int);
                vstd::arithmetic::div_mod::lemma_div_pos_is_pos(a as int * b as int, 1000);
                crate::fixed::lemma_tdiv_shrinks(num as int * 1000, den as int);
            }
            div_fp(num, den)
        }
    }

    /// Whether the region contains `point`, boundary included.
    pub fn contains(&self, point: &Point) -> (r: bool)
        requires
            self.wf(),
            point.in_range(COORD_LIM as int),
        ensures
            r == self.spec_contains(*point),
    {
        proof {
            reveal(spec_contains_at);
        }
        let v = point.vector_to(&self.centre);
        let vr = v.rotated(-self.orientation);
        let a = div_trunc(self.height, 2);
        let b = div_trunc(self.width, 2);
        proof {
            crate::fixed::lemma_tdiv_bound(self.height as int, 2, DIM_LIM as int);
            crate::fixed::lemma_tdiv_bound(self.width as int, 2, DIM_LIM as int);
            lemma_mulf_fits(a as int, a as int, 1_500_000_000int, 1_500_000_000int);
            lemma_mulf_fits(b as int, b as int, 1_500_000_000int, 1_500_000_000int);
            lemma_mulf_fits(vr.x as int, vr.x as int, 2_600_000_000int, 2_600_000_000int);
            lemma_mulf_fits(vr.y as int, vr.y as int, 2_600_000_000int, 2_600_000_000int);
            crate::fixed::lemma_mul_sign(vr.x as int, vr.x as int);
            crate::fixed::lemma_mul_sign(vr.y as int, vr.y as int);
            vstd::arithmetic::div_mod::lemma_div_pos_is_pos(vr.x as int * vr.x as int, 1000);
            vstd::arithmetic::div_mod::lemma_div_pos_is_pos(vr.y as int * vr.y as int, 1000);
        }
        let aq = mul_fp(a, a);
        let bq = mul_fp(b, b);
        let xq = mul_fp(vr.x, vr.x);
        let yq = mul_fp(vr.y, vr.y);
        if aq == 0 && xq != 0 {
            return false;
        }
        if bq == 0 && yq != 0 {
            return false;
        }
        let xpart = if aq == 0 {
            0
        } else {
            proof {
                crate::fixed::lemma_mul_sign(xq as int * 1000, 1);
                vstd::arithmetic::div_mod::lemma_div_pos_is_pos(xq as int * 1000, aq as int);
            }
            div_fp(xq, aq)
        };
        let ypart = if bq == 0 {
            0
        } else {
            proof {
                vstd::arithmetic::div_mod::lemma_div_pos_is_pos(yq as int * 1000, bq as int);
            }
            div_fp(yq, bq)
        };
        if xpart > 1000 {
            return false;
        }
        xpart + ypart <= 1000
    }

    /// The smallest distance from `point` to the region's boundary.
    pub fn min_distance_to(&self, point: &Point) -> (r: i64)
        requires
            self.wf(),
            point.in_range(COORD_LIM as int),
        ensures
            r == abs_i(
                spec_length(self.centre.x - point.x, self.centre.y - point.y) - spec_radius_at(
                    self.orientation as int,
                    self.width as int,
                    self.height as int,
                    spec_atan2(self.centre.y - point.y, self.centre.x - point.x),
                ),
            ),
    {
        let centre_distance = point.distance_to(&self.centre);
        let radius = self.radius(point.bearing_to(&self.centre));
        abs_fp(centre_distance - radius)
    }

    /// The greatest distance from `point` to the region's boundary.
    pub fn max_distance_to(&self, point: &Point) -> (r: i64)
        requires
            self.wf(),
            point.in_range(COORD_LIM as int),
        ensures
            r == spec_length(self.centre.x - point.x, self.centre.y - point.y) + spec_radius_at(
                self.orientation as int,
                self.width as int,
                self.height as int,
                spec_atan2(self.centre.y - point.y, self.centre.x - point.x),
            ),
    {
        let centre_distance = point.distance_to(&self.centre);
        let radius = self.radius(point.bearing_to(&self.centre));
        centre_distance + radius
    }

    /// Both distance bounds at once.
    pub fn minmax_distance_to(&self, point: &Point) -> (r: (i64, i64))
        requires
            self.wf(),
            point.in_range(COORD_LIM as int),
        ensures
            r.0 == abs_i(
                spec_length(self.centre.x - point.x, self.centre.y - point.y) - spec_radius_at(
                    self.orientation as int,
                    self.width as int,
                    self.height as int,
                    spec_atan2(self.centre.y - point.y, self.centre.x - point.x),
                ),
            ),
            r.1 == spec_length(self.centre.x - point.x, self.centre.y - point.y) + spec_radius_at(
                self.orientation as int,
                self.width as int,
                self.height as int,
                spec_atan2(self.centre.y - point.y, self.centre.x - point.x),
            ),
    {
        let centre_distance = point.distance_to(&self.centre);
        let radius = self.radius(point.bearing_to(&self.centre));
        (abs_fp(centre_distance - radius), centre_distance + radius)
    }

    /// Centre of the region.
    pub fn position(&self) -> (p: Point)
        ensures
            p == self.centre,
    {
        self.centre
    }
}

/// Containment does not change when the orientation turns by any whole
/// number of full turns: every trigonometric quantity wraps first.
pub proof fn lemma_contains_orientation_periodic(
    cx: int,
    cy: int,
    o: int,
    w: int,
    h: int,
    px: int,
    py: int,
    k: int,
)
    ensures
        spec_contains_at(cx, cy, o + k * (FULL_TURN as int), w, h, px, py) == spec_contains_at(
            cx,
            cy,
            o,
            w,
            h,
            px,
            py,
        ),
{
    reveal(spec_contains_at);
    lemma_cos_periodic(-o, -k);
    lemma_sin_periodic(-o, -k);
    assert(-(o + k * (FULL_TURN as int)) == -o + (-k) * (FULL_TURN as int));
}

/// The same invariance through `Ellipse::new`: shifting the construction
/// orientation by whole turns leaves containment unchanged.
pub proof fn lemma_new_contains_orientation_periodic(
    cx: int,
    cy: int,
    o: int,
    w: int,
    h: int,
    px: int,
    py: int,
    k: int,
)
    ensures
        spec_contains_at(
            cx,
            cy,
            spec_new_orientation(o + k * (FULL_TURN as int), w, h),
            spec_new_width(w, h),
            spec_new_height(w, h),
            px,
            py,
        ) == spec_contains_at(
            cx,
            cy,
            spec_new_orientation(o, w, h),
            spec_new_width(w, h),
            spec_new_height(w, h),
            px,
            py,
        ),
{
    if w > h {
        lemma_contains_orientation_periodic(
            cx,
            cy,
            o + QUARTER_TURN,
            spec_new_width(w, h),
            spec_new_height(w, h),
            px,
            py,
            k,
        );
    } else {
        lemma_contains_orientation_periodic(
            cx,
            cy,
            o,
            spec_new_width(w, h),
            spec_new_height(w, h),
            px,
            py,
            k,
        );
    }
}

} // verus!
