//! The intercept: where a guided interceptor of bounded acceleration
//! meets an accelerating target.

use vstd::prelude::*;

use crate::firing_solution::{normalize_for_quartic, spec_norm_rounds, spec_solver_roots,
    SOL_POS_LIM, SOL_SPEED_LIM, SOL_TIME_LIM, SOL_VEL_LIM};
use crate::fixed::{div_trunc, mul_fp, mulf, tdiv};
use crate::geometry::Point;
use crate::kinematics::{position_relative_to, velocity_relative_to, Acceleration, Position,
    KIN_ACC_LIM};
use crate::polynomial::find_roots_quartic;

verus! {

/// The quartic coefficients of the intercept condition, from the
/// target's relative position and velocity, its acceleration, and the
/// interceptor's net acceleration: "distance covered from rest equals
/// distance to the target's future position", squared and collected by
/// powers of the time.
pub open spec fn spec_intercept_coeffs(
    rpx: int,
    rpy: int,
    rvx: int,
    rvy: int,
    ax: int,
    ay: int,
    acceleration: int,
) -> Seq<int> {
    seq![
        tdiv(mulf(acceleration, acceleration) - (mulf(ax, ax) + mulf(ay, ay)), 4),
        -(mulf(rvx, ax) + mulf(rvy, ay)),
        -(mulf(ax, rpx) + mulf(ay, rpy)) - (mulf(rvx, rvx) + mulf(rvy, rvy)),
        -2 * (mulf(rpx, rvx) + mulf(rpy, rvy)),
        -(mulf(rpx, rpx) + mulf(rpy, rpy)),
    ]
}

/// One predicted meeting of interceptor and target.
#[derive(Clone, Copy, Debug, PartialEq, Eq, Structural)]
pub struct Intercept {
    /// Seconds until the meeting.
    pub time: i64,
    /// Predicted meeting point.
    pub point: Point,
}

impl Position for Intercept {
    open spec fn valid(&self) -> bool {
        true
    }

    open spec fn spec_position(&self) -> Point {
        self.point
    }

    fn position(&self) -> (p: Point) {
        self.point
    }
}

impl Intercept {
    /// Solve for an interceptor that can hold a net acceleration
    /// against an accelerating target: derive the quartic of candidate
    /// meeting times and pick the second root of four or of two.  No
    /// usable real root, or one outside the fixed-point window, yields
    /// no intercept.  The fixed root indices are inherited behaviour,
    /// kept as they stand rather than re-derived from a physical
    /// argument.
    pub fn new<T: Acceleration, U: Acceleration>(vessel: &T, acceleration: i64, target: &U) -> (r:
        Option<Intercept>)
        requires
            vessel.valid(),
            target.valid(),
            vessel.spec_position().in_range(SOL_POS_LIM as int),
            target.spec_position().in_range(SOL_POS_LIM as int),
            vessel.spec_velocity().in_range(SOL_VEL_LIM as int),
            target.spec_velocity().in_range(SOL_VEL_LIM as int),
            target.spec_acceleration().in_range(KIN_ACC_LIM as int),
            0 <= acceleration <= SOL_SPEED_LIM,
        ensures
            ({
                let cs = spec_intercept_coeffs(
                    target.spec_position().x - vessel.spec_position().x,
                    target.spec_position().y - vessel.spec_position().y,
                    target.spec_velocity().x - vessel.spec_velocity().x,
                    target.spec_velocity().y - vessel.spec_velocity().y,
                    target.spec_acceleration().x as int,
                    target.spec_acceleration().y as int,
                    acceleration as int,
                );
                let rv = spec_solver_roots(cs);
                &&& (r is Some <==> spec_norm_rounds(cs, 64) < 64 && (rv.len() == 4 || rv.len()
                    == 2) && -SOL_TIME_LIM <= rv[1] <= SOL_TIME_LIM)
                &&& match r {
                    Some(sol) => {
                        &&& sol.time == rv[1]
                        &&& sol.point.x == target.spec_position().x + mulf(
                            target.spec_velocity().x - vessel.spec_velocity().x,
                            sol.time as int,
                        ) + mulf(
                            target.spec_acceleration().x as int,
                            tdiv(mulf(sol.time as int, sol.time as int), 2),
                        )
                        &&& sol.point.y == target.spec_position().y + mulf(
                            target.spec_velocity().y - vessel.spec_velocity().y,
                            sol.time as int,
                        ) + mulf(
                            target.spec_acceleration().y as int,
                            tdiv(mulf(sol.time as int, sol.time as int), 2),
                        )
                    },
                    None => true,
                }
            }),
    {
        let relpos = position_relative_to(target, vessel);
        let relvel = velocity_relative_to(target, vessel);
        let taracc = target.acceleration();
        proof {
            crate::fixed::lemma_mulf_fits(
                acceleration as int,
                acceleration as int,
                SOL_SPEED_LIM as int,
                SOL_SPEED_LIM as int,
            );
            crate::fixed::lemma_mulf_fits(taracc.x as int, taracc.x as int, KIN_ACC_LIM as int, KIN_ACC_LIM as int);
            crate::fixed::lemma_mulf_fits(taracc.y as int, taracc.y as int, KIN_ACC_LIM as int, KIN_ACC_LIM as int);
            crate::fixed::lemma_mulf_fits(relvel.x as int, taracc.x as int, 2_000_000int, KIN_ACC_LIM as int);
            crate::fixed::lemma_mulf_fits(relvel.y as int, taracc.y as int, 2_000_000int, KIN_ACC_LIM as int);
            crate::fixed::lemma_mulf_fits(taracc.x as int, relpos.x as int, KIN_ACC_LIM as int, 200_000_000int);
            crate::fixed::lemma_mulf_fits(taracc.y as int, relpos.y as int, KIN_ACC_LIM as int, 200_000_000int);
            crate::fixed::lemma_mulf_fits(relvel.x as int, relvel.x as int, 2_000_000int, 2_000_000int);
            crate::fixed::lemma_mulf_fits(relvel.y as int, relvel.y as int, 2_000_000int, 2_000_000int);
            crate::fixed::lemma_mulf_fits(relpos.x as int, relvel.x as int, 200_000_000int, 2_000_000int);
            crate::fixed::lemma_mulf_fits(relpos.y as int, relvel.y as int, 200_000_000int, 2_000_000int);
            crate::fixed::lemma_mulf_fits(relpos.x as int, relpos.x as int, 200_000_000int, 200_000_000int);
            crate::fixed::lemma_mulf_fits(relpos.y as int, relpos.y as int, 200_000_000int, 200_000_000int);
        }
        // "Distance covered matches distance to the target's future
        // position", squared and collected by powers of the time.
        let acc_sq = mul_fp(taracc.x, taracc.x) + mul_fp(taracc.y, taracc.y);
        let a = div_trunc(mul_fp(acceleration, acceleration) - acc_sq, 4);
        let b = -(mul_fp(relvel.x, taracc.x) + mul_fp(relvel.y, taracc.y));
        let c = -(mul_fp(taracc.x, relpos.x) + mul_fp(taracc.y, relpos.y)) - (mul_fp(
            relvel.x,
            relvel.x,
        ) + mul_fp(relvel.y, relvel.y));
        let d = -2 * (mul_fp(relpos.x, relvel.x) + mul_fp(relpos.y, relvel.y));
        let e = -(mul_fp(relpos.x, relpos.x) + mul_fp(relpos.y, relpos.y));

        let mut coeffs: [i64; 5] = [a, b, c, d, e];
        let ghost cs = spec_intercept_coeffs(
            target.spec_position().x - vessel.spec_position().x,
            target.spec_position().y - vessel.spec_position().y,
            target.spec_velocity().x - vessel.spec_velocity().x,
            target.spec_velocity().y - vessel.spec_velocity().y,
            target.spec_acceleration().x as int,
            target.spec_acceleration().y as int,
            acceleration as int,
        );
        proof {
            assert(coeffs[0] as int == cs[0]);
            assert(coeffs[1] as int == cs[1]);
            assert(coeffs[2] as int == cs[2]);
            assert(coeffs[3] as int == cs[3]);
            assert(coeffs[4] as int == cs[4]);
        }
        let ok = normalize_for_quartic(&mut coeffs);
        if !ok {
            return None;
        }
        let roots = find_roots_quartic(coeffs[0], coeffs[1], coeffs[2], coeffs[3], coeffs[4]);
        proof {
            crate::polynomial::lemma_vals_are_canonical(roots);
            assert(roots.vals() == spec_solver_roots(cs));
        }
        let rv = roots.as_vec();
        let time: i64 = if rv.len() == 4 {
            rv[1]
        } else if rv.len() == 2 {
            rv[1]
        } else {
            return None;
        };
        if time < -SOL_TIME_LIM || time > SOL_TIME_LIM {
            return None;
        }
        proof {
            crate::fixed::lemma_mulf_fits(
                relvel.x as int,
                time as int,
                2_000_000int,
                SOL_TIME_LIM as int,
            );
            crate::fixed::lemma_mulf_fits(
                relvel.y as int,
                time as int,
                2_000_000int,
                SOL_TIME_LIM as int,
            );
            crate::fixed::lemma_mulf_fits(
                time as int,
                time as int,
                SOL_TIME_LIM as int,
                SOL_TIME_LIM as int,
            );
            crate::fixed::lemma_tdiv_bound(
                mulf(time as int, time as int),
                2,
                1_000_000_000_000_000int,
            );
            crate::fixed::lemma_mulf_fits(
                taracc.x as int,
                tdiv(mulf(time as int, time as int), 2),
                KIN_ACC_LIM as int,
                500_000_000_000_000int,
            );
            crate::fixed::lemma_mulf_fits(
                taracc.y as int,
                tdiv(mulf(time as int, time as int), 2),
                KIN_ACC_LIM as int,
                500_000_000_000_000int,
            );
        }
        let tpos = target.position();
        let half_t2 = div_trunc(mul_fp(time, time), 2);
        let point = Point {
            x: tpos.x + mul_fp(relvel.x, time) + mul_fp(taracc.x, half_t2),
            y: tpos.y + mul_fp(relvel.y, time) + mul_fp(taracc.y, half_t2),
        };
        Some(Intercept { time, point })
    }
}

} // verus!
