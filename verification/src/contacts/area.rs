//! The uncertainty region shared by both contact kinds: an initial
//! detection ellipse grown for elapsed time, measurement error and
//! worst-case unseen acceleration.

use vstd::prelude::*;

use crate::contacts::error::RadarContactError;
use crate::contacts::scan::SCAN_POS_LIM;
use crate::ellipse::{spec_new_height, spec_new_orientation, spec_new_width, Ellipse};
use crate::fixed::{div_trunc, mul_fp, mulf, tdiv};
use crate::geometry::{spec_length, Point, Vector};
use crate::ship_stats::{spec_accel_magnitude, spec_max_acceleration, Class, MaxAcceleration};
use crate::trig::{atan_fp, spec_atan2, spec_atan_r};

verus! {

/// Longest elapsed time the region projection accepts, in fixed-point
/// seconds.
pub const AREA_TIME_LIM: i64 = 60_000;

/// The bearing from the detected position back to the sensor, the
/// detection ellipse's orientation before normalization.
pub open spec fn spec_initial_bearing(px: int, py: int, ex: int, ey: int) -> int {
    spec_atan2(ey - py, ex - px)
}

/// Width of the detection ellipse before normalization: the bearing
/// error projected at the detection range, both ways.
pub open spec fn spec_raw_width(px: int, py: int, ex: int, ey: int, err_bearing: int) -> int {
    2 * mulf(spec_atan_r(err_bearing), spec_length(ex - px, ey - py))
}

/// Height of the detection ellipse before normalization: the range
/// error, both ways.
pub open spec fn spec_raw_height(err_distance: int) -> int {
    2 * err_distance
}

/// Stored orientation of the detection ellipse.
pub open spec fn spec_initial_orientation(
    px: int,
    py: int,
    ex: int,
    ey: int,
    err_b: int,
    err_d: int,
) -> int {
    spec_new_orientation(
        spec_initial_bearing(px, py, ex, ey),
        spec_raw_width(px, py, ex, ey, err_b),
        spec_raw_height(err_d),
    )
}

/// Stored minor axis of the detection ellipse.
pub open spec fn spec_initial_width(
    px: int,
    py: int,
    ex: int,
    ey: int,
    err_b: int,
    err_d: int,
) -> int {
    spec_new_width(spec_raw_width(px, py, ex, ey, err_b), spec_raw_height(err_d))
}

/// Stored major axis of the detection ellipse.
pub open spec fn spec_initial_height(
    px: int,
    py: int,
    ex: int,
    ey: int,
    err_b: int,
    err_d: int,
) -> int {
    spec_new_height(spec_raw_width(px, py, ex, ey, err_b), spec_raw_height(err_d))
}

/// How far the region's centre drifts with the contact's velocity.
pub open spec fn spec_area_centre_x(px: int, vx: int, t: int) -> int {
    px + mulf(vx, t)
}

/// See [`spec_area_centre_x`].
pub open spec fn spec_area_centre_y(py: int, vy: int, t: int) -> int {
    py + mulf(vy, t)
}

/// How much each axis grows: velocity error over the elapsed time plus
/// the worst unseen acceleration over half the time squared.
pub open spec fn spec_area_expand(err_v: int, class: Class, t: int) -> int {
    mulf(err_v, t) + tdiv(
        mulf(spec_accel_magnitude(spec_max_acceleration(class)), mulf(t, t)),
        2,
    )
}

/// The distance between two in-range points stays within the fixed-point
/// window the detection width needs.
proof fn lemma_scan_distance_bound(px: int, py: int, ex: int, ey: int)
    requires
        crate::fixed::abs_i(px) <= SCAN_POS_LIM,
        crate::fixed::abs_i(py) <= SCAN_POS_LIM,
        crate::fixed::abs_i(ex) <= SCAN_POS_LIM,
        crate::fixed::abs_i(ey) <= SCAN_POS_LIM,
    ensures
        0 <= spec_length(ex - px, ey - py) <= 300_000_000,
{
    crate::geometry::lemma_norm2_fits(ex - px, ey - py);
    crate::fixed::lemma_mulf_fits(ex - px, ex - px, 200_000_000int, 200_000_000int);
    crate::fixed::lemma_mulf_fits(ey - py, ey - py, 200_000_000int, 200_000_000int);
    crate::fixed::lemma_sqrtf_bound(
        mulf(ex - px, ex - px) + mulf(ey - py, ey - py),
        300_000_000int,
    );
}

/// The initial detection ellipse around a reported position, sized by
/// the scan's error bounds and oriented along the sensor bearing.
pub fn initial_area(position: &Point, emitter_position: &Point, error: &RadarContactError) -> (e:
    Ellipse)
    requires
        position.in_range(SCAN_POS_LIM as int),
        emitter_position.in_range(SCAN_POS_LIM as int),
        error.wf(),
    ensures
        e.centre == *position,
        e.orientation == spec_initial_orientation(
            position.x as int,
            position.y as int,
            emitter_position.x as int,
            emitter_position.y as int,
            error.bearing as int,
            error.distance as int,
        ),
        e.width == spec_initial_width(
            position.x as int,
            position.y as int,
            emitter_position.x as int,
            emitter_position.y as int,
            error.bearing as int,
            error.distance as int,
        ),
        e.height == spec_initial_height(
            position.x as int,
            position.y as int,
            emitter_position.x as int,
            emitter_position.y as int,
            error.bearing as int,
            error.distance as int,
        ),
        0 <= e.width <= 1_000_000_000,
        0 <= e.height <= 1_000_000_000,
        -crate::trig::HALF_TURN <= e.orientation <= crate::trig::HALF_TURN
            + crate::trig::QUARTER_TURN,
{
    let bearing = position.bearing_to(emitter_position);
    let distance = position.distance_to(emitter_position);
    let atan_err = atan_fp(error.bearing);
    proof {
        lemma_scan_distance_bound(
            position.x as int,
            position.y as int,
            emitter_position.x as int,
            emitter_position.y as int,
        );
        crate::fixed::lemma_mulf_fits(atan_err as int, distance as int, 1_570, 300_000_000int);
        crate::contacts::error::lemma_mulf_nonneg(atan_err as int, distance as int);
    }
    let width = 2 * mul_fp(atan_err, distance);
    let height = 2 * error.distance;
    Ellipse::new(position, bearing, width, height)
}

/// The uncertainty region a contact could occupy `time` after its
/// detection: the detection ellipse, drifted with the reported velocity
/// and expanded for measurement error and worst-case acceleration.
pub fn area_after(
    position: &Point,
    velocity: &Vector,
    error: &RadarContactError,
    class: Class,
    emitter_position: &Point,
    time: i64,
) -> (e: Ellipse)
    requires
        position.in_range(SCAN_POS_LIM as int),
        velocity.in_range(crate::contacts::scan::SCAN_VEL_LIM as int),
        emitter_position.in_range(SCAN_POS_LIM as int),
        error.wf(),
        crate::ship_stats::has_max_acceleration(class),
        0 <= time <= AREA_TIME_LIM,
    ensures
        e.centre.x == spec_area_centre_x(position.x as int, velocity.x as int, time as int),
        e.centre.y == spec_area_centre_y(position.y as int, velocity.y as int, time as int),
        e.orientation == spec_initial_orientation(
            position.x as int,
            position.y as int,
            emitter_position.x as int,
            emitter_position.y as int,
            error.bearing as int,
            error.distance as int,
        ),
        e.width == spec_initial_width(
            position.x as int,
            position.y as int,
            emitter_position.x as int,
            emitter_position.y as int,
            error.bearing as int,
            error.distance as int,
        ) + 2 * spec_area_expand(error.velocity as int, class, time as int),
        e.height == spec_initial_height(
            position.x as int,
            position.y as int,
            emitter_position.x as int,
            emitter_position.y as int,
            error.bearing as int,
            error.distance as int,
        ) + 2 * spec_area_expand(error.velocity as int, class, time as int),
        e.wf(),
{
    let mut area = initial_area(position, emitter_position, error);
    proof {
        crate::fixed::lemma_mulf_fits(
            velocity.x as int,
            time as int,
            crate::contacts::scan::SCAN_VEL_LIM as int,
            AREA_TIME_LIM as int,
        );
        crate::fixed::lemma_mulf_fits(
            velocity.y as int,
            time as int,
            crate::contacts::scan::SCAN_VEL_LIM as int,
            AREA_TIME_LIM as int,
        );
    }
    area.translate(&velocity.scaled(time));
    let max_accel = MaxAcceleration::from_class(class);
    let mag = max_accel.magnitude();
    proof {
        crate::ship_stats::lemma_accel_magnitude_bound(class);
        crate::fixed::lemma_mulf_fits(time as int, time as int, AREA_TIME_LIM as int, AREA_TIME_LIM as int);
        crate::contacts::error::lemma_mulf_nonneg(time as int, time as int);
        crate::fixed::lemma_mulf_fits(mag as int, mulf(time as int, time as int), 316_227int, 3_600_000int);
        crate::contacts::error::lemma_mulf_nonneg(mag as int, mulf(time as int, time as int));
        crate::fixed::lemma_mulf_fits(
            error.velocity as int,
            time as int,
            crate::contacts::error::ERR_VEL_LIM as int,
            AREA_TIME_LIM as int,
        );
        crate::contacts::error::lemma_mulf_nonneg(error.velocity as int, time as int);
        crate::fixed::lemma_tdiv_bound(
            mulf(mag as int, mulf(time as int, time as int)),
            2,
            1_140_000_000int,
        );
        vstd::arithmetic::div_mod::lemma_div_pos_is_pos(
            crate::fixed::abs_i(mulf(mag as int, mulf(time as int, time as int))),
            2,
        );
    }
    let t2 = mul_fp(time, time);
    let expand_amount = mul_fp(error.velocity, time) + div_trunc(mul_fp(mag, t2), 2);
    area.expand(expand_amount);
    area
}

} // verus!
