//! Capability traits for moving bodies — position, velocity,
//! acceleration, heading, angular velocity — and the derived quantities
//! built from their accessors.

use vstd::prelude::*;

use crate::circle::Circle;
use crate::fixed::{abs_i, div_trunc, mul_fp, mulf, tdiv};
use crate::geometry::{spec_length, Point, Vector, COORD_LIM};
use crate::trig::{spec_atan2, wrap_angle, wrap_signed, wrapped, HALF_TURN};

verus! {

/// Largest position coordinate the projection helpers accept.
pub const KIN_POS_LIM: i64 = 1_000_000_000_000;

/// Largest velocity component the projection helpers accept.
pub const KIN_VEL_LIM: i64 = 1_000_000_000;

/// Largest acceleration component the projection helpers accept.
pub const KIN_ACC_LIM: i64 = 10_000_000;

/// Largest time argument the projection helpers accept.
pub const KIN_TIME_LIM: i64 = 1_000_000_000;

/// Anything with a position.
pub trait Position {
    /// When the accessors of this body may be called: its structural
    /// invariant.
    spec fn valid(&self) -> bool;

    /// The position, as the contracts see it.
    spec fn spec_position(&self) -> Point;

    /// The position of the body.
    fn position(&self) -> (p: Point)
        requires
            self.valid(),
        ensures
            p == self.spec_position(),
    ;
}

/// Anything with a position and a velocity.
pub trait Velocity: Position {
    /// The velocity, as the contracts see it.
    spec fn spec_velocity(&self) -> Vector;

    /// The velocity of the body.
    fn velocity(&self) -> (v: Vector)
        requires
            self.valid(),
        ensures
            v == self.spec_velocity(),
    ;
}

/// Anything with position, velocity and acceleration.
pub trait Acceleration: Velocity {
    /// The acceleration, as the contracts see it.
    spec fn spec_acceleration(&self) -> Vector;

    /// The acceleration of the body.
    fn acceleration(&self) -> (a: Vector)
        requires
            self.valid(),
        ensures
            a == self.spec_acceleration(),
    ;
}

/// Anything with a position and a facing direction.
pub trait Heading: Position {
    /// The heading in binary angle units, as the contracts see it.
    spec fn spec_heading(&self) -> i64;

    /// The heading of the body, in binary angle units.
    fn heading(&self) -> (h: i64)
        requires
            self.valid(),
        ensures
            h == self.spec_heading(),
    ;
}

/// Anything that also turns.
pub trait AngularVelocity: Heading {
    /// The turn rate in binary angle units per second, as the contracts
    /// see it.
    spec fn spec_angular_velocity(&self) -> i64;

    /// The turn rate of the body, in binary angle units per second.
    fn angular_velocity(&self) -> (w: i64)
        requires
            self.valid(),
        ensures
            w == self.spec_angular_velocity(),
    ;
}

/// A plain record of position, velocity and acceleration.
#[derive(Clone, Copy, Debug, PartialEq, Eq, Structural)]
pub struct KinematicModel {
    /// Position of the body.
    pub position: Point,
    /// Velocity of the body.
    pub velocity: Vector,
    /// Acceleration of the body.
    pub acceleration: Vector,
}

impl KinematicModel {
    /// Capture the state of any accelerating body.
    pub fn capture<T: Acceleration>(value: &T) -> (m: KinematicModel)
        requires
            value.valid(),
        ensures
            m.position == value.spec_position(),
            m.velocity == value.spec_velocity(),
            m.acceleration == value.spec_acceleration(),
    {
        KinematicModel {
            position: value.position(),
            velocity: value.velocity(),
            acceleration: value.acceleration(),
        }
    }

    /// Make a model from its parts.
    pub fn new(position: Point, velocity: Vector, acceleration: Vector) -> (m: KinematicModel)
        ensures
            m.position == position,
            m.velocity == velocity,
            m.acceleration == acceleration,
    {
        KinematicModel { position, velocity, acceleration }
    }
}

impl Position for KinematicModel {
    open spec fn valid(&self) -> bool {
        true
    }

    open spec fn spec_position(&self) -> Point {
        self.position
    }

    fn position(&self) -> (p: Point) {
        self.position
    }
}

impl Velocity for KinematicModel {
    open spec fn spec_velocity(&self) -> Vector {
        self.velocity
    }

    fn velocity(&self) -> (v: Vector) {
        self.velocity
    }
}

impl Acceleration for KinematicModel {
    open spec fn spec_acceleration(&self) -> Vector {
        self.acceleration
    }

    fn acceleration(&self) -> (a: Vector) {
        self.acceleration
    }
}

/// A plain record of a vessel's full kinematic and attitude state.
#[derive(Clone, Copy, Debug, PartialEq, Eq, Structural)]
pub struct ShipModel {
    /// Position of the vessel.
    pub position: Point,
    /// Velocity of the vessel.
    pub velocity: Vector,
    /// Acceleration of the vessel.
    pub acceleration: Vector,
    /// Heading of the vessel, in binary angle units.
    pub heading: i64,
    /// Turn rate of the vessel, in binary angle units per second.
    pub angular_velocity: i64,
}

impl Position for ShipModel {
    open spec fn valid(&self) -> bool {
        true
    }

    open spec fn spec_position(&self) -> Point {
        self.position
    }

    fn position(&self) -> (p: Point) {
        self.position
    }
}

impl Velocity for ShipModel {
    open spec fn spec_velocity(&self) -> Vector {
        self.velocity
    }

    fn velocity(&self) -> (v: Vector) {
        self.velocity
    }
}

impl Acceleration for ShipModel {
    open spec fn spec_acceleration(&self) -> Vector {
        self.acceleration
    }

    fn acceleration(&self) -> (a: Vector) {
        self.acceleration
    }
}

impl Heading for ShipModel {
    open spec fn spec_heading(&self) -> i64 {
        self.heading
    }

    fn heading(&self) -> (h: i64) {
        self.heading
    }
}

impl AngularVelocity for ShipModel {
    open spec fn spec_angular_velocity(&self) -> i64 {
        self.angular_velocity
    }

    fn angular_velocity(&self) -> (w: i64) {
        self.angular_velocity
    }
}

impl Position for Point {
    open spec fn valid(&self) -> bool {
        true
    }

    open spec fn spec_position(&self) -> Point {
        *self
    }

    fn position(&self) -> (p: Point) {
        *self
    }
}

/// The displacement of `x` relative to `other`.
pub fn position_relative_to<T: Position, U: Position>(x: &T, other: &U) -> (v: Vector)
    requires
        x.valid(),
        other.valid(),
        x.spec_position().in_range(COORD_LIM as int),
        other.spec_position().in_range(COORD_LIM as int),
    ensures
        v.x == x.spec_position().x - other.spec_position().x,
        v.y == x.spec_position().y - other.spec_position().y,
        v.in_range(2 * COORD_LIM as int),
{
    x.position().vector_from(&other.position())
}

/// The distance between two bodies.
pub fn distance_to<T: Position, U: Position>(x: &T, other: &U) -> (r: i64)
    requires
        x.valid(),
        other.valid(),
        x.spec_position().in_range(COORD_LIM as int),
        other.spec_position().in_range(COORD_LIM as int),
    ensures
        r == spec_length(
            other.spec_position().x - x.spec_position().x,
            other.spec_position().y - x.spec_position().y,
        ),
        0 <= r <= 100_000_000_000,
{
    x.position().distance_to(&other.position())
}

/// The direction from `x` toward `other`, in binary angle units.
pub fn bearing_to<T: Position, U: Position>(x: &T, other: &U) -> (r: i64)
    requires
        x.valid(),
        other.valid(),
        x.spec_position().in_range(COORD_LIM as int),
        other.spec_position().in_range(COORD_LIM as int),
    ensures
        r == spec_atan2(
            other.spec_position().y - x.spec_position().y,
            other.spec_position().x - x.spec_position().x,
        ),
        -HALF_TURN <= r <= HALF_TURN,
{
    x.position().bearing_to(&other.position())
}

/// The velocity of `x` relative to `other`.
pub fn velocity_relative_to<T: Velocity, U: Velocity>(x: &T, other: &U) -> (v: Vector)
    requires
        x.valid(),
        other.valid(),
        x.spec_velocity().in_range(COORD_LIM as int),
        other.spec_velocity().in_range(COORD_LIM as int),
    ensures
        v.x == x.spec_velocity().x - other.spec_velocity().x,
        v.y == x.spec_velocity().y - other.spec_velocity().y,
        v.in_range(2 * COORD_LIM as int),
{
    x.velocity().minus(&other.velocity())
}

/// The speed of a body.
pub fn speed<T: Velocity>(x: &T) -> (r: i64)
    requires
        x.valid(),
        x.spec_velocity().in_range(COORD_LIM as int),
    ensures
        r == spec_length(x.spec_velocity().x as int, x.spec_velocity().y as int),
        0 <= r <= 100_000_000_000,
{
    x.velocity().length()
}

/// The speed of `x` relative to `other`.
pub fn speed_relative_to<T: Velocity, U: Velocity>(x: &T, other: &U) -> (r: i64)
    requires
        x.valid(),
        other.valid(),
        x.spec_velocity().in_range(COORD_LIM as int),
        other.spec_velocity().in_range(COORD_LIM as int),
    ensures
        r == spec_length(
            x.spec_velocity().x - other.spec_velocity().x,
            x.spec_velocity().y - other.spec_velocity().y,
        ),
        0 <= r <= 100_000_000_000,
{
    velocity_relative_to(x, other).length()
}

/// The magnitude of a body's acceleration.
pub fn acceleration_magnitude<T: Acceleration>(x: &T) -> (r: i64)
    requires
        x.valid(),
        x.spec_acceleration().in_range(COORD_LIM as int),
    ensures
        r == spec_length(x.spec_acceleration().x as int, x.spec_acceleration().y as int),
        0 <= r <= 100_000_000_000,
{
    x.acceleration().length()
}

/// The acceleration of `x` relative to `other`.
pub fn acceleration_relative_to<T: Acceleration, U: Acceleration>(x: &T, other: &U) -> (v: Vector)
    requires
        x.valid(),
        other.valid(),
        x.spec_acceleration().in_range(COORD_LIM as int),
        other.spec_acceleration().in_range(COORD_LIM as int),
    ensures
        v.x == x.spec_acceleration().x - other.spec_acceleration().x,
        v.y == x.spec_acceleration().y - other.spec_acceleration().y,
        v.in_range(2 * COORD_LIM as int),
{
    x.acceleration().minus(&other.acceleration())
}

/// Where a constant acceleration takes a body after `seconds`:
/// `p + v*t + a*t^2/2`, componentwise over fixed-point scalars.
pub open spec fn spec_projected_x(px: int, vx: int, ax: int, s: int) -> int {
    px + mulf(vx, s) + mulf(ax, tdiv(mulf(s, s), 2))
}

/// See [`spec_projected_x`].
pub open spec fn spec_projected_y(py: int, vy: int, ay: int, s: int) -> int {
    py + mulf(vy, s) + mulf(ay, tdiv(mulf(s, s), 2))
}

/// The position a body reaches after `seconds` of its current motion.
pub fn position_after<T: Acceleration>(x: &T, seconds: i64) -> (p: Point)
    requires
        x.valid(),
        x.spec_position().in_range(KIN_POS_LIM as int),
        x.spec_velocity().in_range(KIN_VEL_LIM as int),
        x.spec_acceleration().in_range(KIN_ACC_LIM as int),
        -KIN_TIME_LIM <= seconds <= KIN_TIME_LIM,
    ensures
        p.x == spec_projected_x(
            x.spec_position().x as int,
            x.spec_velocity().x as int,
            x.spec_acceleration().x as int,
            seconds as int,
        ),
        p.y == spec_projected_y(
            x.spec_position().y as int,
            x.spec_velocity().y as int,
            x.spec_acceleration().y as int,
            seconds as int,
        ),
{
    let p = x.position();
    let v = x.velocity();
    let a = x.acceleration();
    proof {
        crate::fixed::lemma_mulf_fits(
            v.x as int,
            seconds as int,
            KIN_VEL_LIM as int,
            KIN_TIME_LIM as int,
        );
        crate::fixed::lemma_mulf_fits(
            v.y as int,
            seconds as int,
            KIN_VEL_LIM as int,
            KIN_TIME_LIM as int,
        );
        crate::fixed::lemma_mulf_fits(
            seconds as int,
            seconds as int,
            KIN_TIME_LIM as int,
            KIN_TIME_LIM as int,
        );
        crate::fixed::lemma_tdiv_bound(
            mulf(seconds as int, seconds as int),
            2,
            1_000_000_000_000_000int,
        );
        crate::fixed::lemma_mulf_fits(
            a.x as int,
            tdiv(mulf(seconds as int, seconds as int), 2),
            KIN_ACC_LIM as int,
            500_000_000_000_000int,
        );
        crate::fixed::lemma_mulf_fits(
            a.y as int,
            tdiv(mulf(seconds as int, seconds as int), 2),
            KIN_ACC_LIM as int,
            500_000_000_000_000int,
        );
    }
    let half_s2 = div_trunc(mul_fp(seconds, seconds), 2);
    p.translated_by(&v.scaled(seconds)).translated_by(&a.scaled(half_s2))
}

/// The velocity a body reaches after `seconds` of its acceleration.
pub fn velocity_after<T: Acceleration>(x: &T, seconds: i64) -> (v: Vector)
    requires
        x.valid(),
        x.spec_velocity().in_range(KIN_VEL_LIM as int),
        x.spec_acceleration().in_range(KIN_ACC_LIM as int),
        -KIN_TIME_LIM <= seconds <= KIN_TIME_LIM,
    ensures
        v.x == x.spec_velocity().x + mulf(x.spec_acceleration().x as int, seconds as int),
        v.y == x.spec_velocity().y + mulf(x.spec_acceleration().y as int, seconds as int),
{
    let vel = x.velocity();
    let a = x.acceleration();
    proof {
        crate::fixed::lemma_mulf_fits(
            a.x as int,
            seconds as int,
            KIN_ACC_LIM as int,
            KIN_TIME_LIM as int,
        );
        crate::fixed::lemma_mulf_fits(
            a.y as int,
            seconds as int,
            KIN_ACC_LIM as int,
            KIN_TIME_LIM as int,
        );
    }
    vel.plus(&a.scaled(seconds))
}

/// Every position a body could reach in `seconds` under a bounded
/// acceleration: a circle around the unaccelerated projection.
pub fn possible_position_after<T: Velocity>(x: &T, max_acceleration: i64, seconds: i64) -> (c:
    Circle)
    requires
        x.valid(),
        x.spec_position().in_range(KIN_POS_LIM as int),
        x.spec_velocity().in_range(KIN_VEL_LIM as int),
        0 <= max_acceleration <= KIN_ACC_LIM,
        -KIN_TIME_LIM <= seconds <= KIN_TIME_LIM,
    ensures
        c.centre.x == x.spec_position().x + mulf(x.spec_velocity().x as int, seconds as int),
        c.centre.y == x.spec_position().y + mulf(x.spec_velocity().y as int, seconds as int),
        c.radius == mulf(
            max_acceleration as int,
            tdiv(mulf(seconds as int, seconds as int), 2),
        ),
{
    let p = x.position();
    let v = x.velocity();
    proof {
        crate::fixed::lemma_mulf_fits(
            v.x as int,
            seconds as int,
            KIN_VEL_LIM as int,
            KIN_TIME_LIM as int,
        );
        crate::fixed::lemma_mulf_fits(
            v.y as int,
            seconds as int,
            KIN_VEL_LIM as int,
            KIN_TIME_LIM as int,
        );
        crate::fixed::lemma_mulf_fits(
            seconds as int,
            seconds as int,
            KIN_TIME_LIM as int,
            KIN_TIME_LIM as int,
        );
        crate::fixed::lemma_tdiv_bound(
            mulf(seconds as int, seconds as int),
            2,
            1_000_000_000_000_000int,
        );
        crate::fixed::lemma_mulf_fits(
            max_acceleration as int,
            tdiv(mulf(seconds as int, seconds as int), 2),
            KIN_ACC_LIM as int,
            500_000_000_000_000int,
        );
    }
    let centre = p.translated_by(&v.scaled(seconds));
    let half_s2 = div_trunc(mul_fp(seconds, seconds), 2);
    Circle { centre, radius: mul_fp(max_acceleration, half_s2) }
}

/// The bearing of `target` relative to the heading of `x`, in binary
/// angle units wrapped to a signed half turn.
pub fn relative_bearing_to<T: Heading, U: Position>(x: &T, target: &U) -> (r: i64)
    requires
        x.valid(),
        target.valid(),
        x.spec_position().in_range(COORD_LIM as int),
        target.spec_position().in_range(COORD_LIM as int),
        -1_000_000_000_000 <= x.spec_heading() <= 1_000_000_000_000,
    ensures
        r == ({
            let b = spec_atan2(
                target.spec_position().y - x.spec_position().y,
                target.spec_position().x - x.spec_position().x,
            );
            if wrapped(b - x.spec_heading()) > HALF_TURN {
                wrapped(b - x.spec_heading()) - crate::trig::FULL_TURN
            } else {
                wrapped(b - x.spec_heading())
            }
        }),
        -HALF_TURN < r <= HALF_TURN,
{
    let b = bearing_to(x, target);
    wrap_signed(b - x.heading())
}

/// The heading a turning body reaches after `seconds`, wrapped to a
/// signed half turn measured from the positive x axis.
pub fn heading_after<T: AngularVelocity>(x: &T, seconds: i64) -> (r: i64)
    requires
        x.valid(),
        -1_000_000_000_000 <= x.spec_heading() <= 1_000_000_000_000,
        -1_000_000_000 <= x.spec_angular_velocity() <= 1_000_000_000,
        -KIN_TIME_LIM <= seconds <= KIN_TIME_LIM,
    ensures
        r == ({
            let h = x.spec_heading() + tdiv(
                x.spec_angular_velocity() * seconds,
                crate::fixed::SCALE as int,
            );
            wrapped(h + HALF_TURN) - HALF_TURN
        }),
        -HALF_TURN <= r < HALF_TURN,
{
    let w = x.angular_velocity();
    proof {
        assert(abs_i(w as int * seconds as int) <= 1_000_000_000_000_000_000int)
            by (nonlinear_arith)
            requires
                abs_i(w as int) <= 1_000_000_000,
                abs_i(seconds as int) <= 1_000_000_000,
        ;
        crate::fixed::lemma_abs_mul(w as int, seconds as int);
    }
    let delta = div_trunc_wide(w, seconds);
    let h = x.heading() + delta;
    let m = wrap_angle(h + HALF_TURN);
    m - HALF_TURN
}

/// `(a * b) / SCALE` through a wide intermediate: the turn a rate makes
/// over a fixed-point duration.
fn div_trunc_wide(a: i64, b: i64) -> (r: i64)
    requires
        abs_i(a as int * b as int) <= 1_000_000_000_000_000_000,
    ensures
        r == tdiv(a as int * b as int, crate::fixed::SCALE as int),
        abs_i(r as int) <= 1_000_000_000_000_000,
{
    proof {
        crate::fixed::lemma_tdiv_bound(
            a as int * b as int,
            crate::fixed::SCALE as int,
            1_000_000_000_000_000_000int,
        );
    }
    mul_fp(a, b)
}

} // verus!
