//! The firing solution: where a constant-speed projectile meets an
//! accelerating target.

use vstd::prelude::*;

use crate::fixed::{abs_i, div_trunc, mul_fp, mulf, tdiv};
use crate::geometry::{Point, Vector};
use crate::kinematics::{position_relative_to, velocity_relative_to, Acceleration, Position,
    Velocity, KIN_ACC_LIM};
use crate::polynomial::{find_roots_quartic, QUARTIC_LIM};

verus! {

/// Largest position coordinate the intercept solvers accept.
pub const SOL_POS_LIM: i64 = 100_000_000;

/// Largest velocity component the intercept solvers accept.
pub const SOL_VEL_LIM: i64 = 1_000_000;

/// Largest projectile speed the intercept solvers accept.
pub const SOL_SPEED_LIM: i64 = 1_000_000;

/// Largest impact time a solution may carry; a root beyond the window
/// gives no solution.
pub const SOL_TIME_LIM: i64 = 1_000_000_000;

/// `x` halved (truncating) `k` times.
pub open spec fn spec_halved(x: int, k: nat) -> int
    decreases k,
{
    if k == 0 {
        x
    } else {
        tdiv(spec_halved(x, (k - 1) as nat), 2)
    }
}

/// One future impact: when and where the projectile meets the target,
/// with the target's motion frozen at solve time.
#[derive(Clone, Copy, Debug, PartialEq, Eq, Structural)]
pub struct FiringSolution {
    /// Seconds until impact.
    pub impact_time: i64,
    /// Predicted impact point.
    pub impact_point: Point,
    /// Target velocity at solve time.
    pub target_velocity: Vector,
    /// Target acceleration at solve time.
    pub target_acceleration: Vector,
}

impl Position for FiringSolution {
    open spec fn valid(&self) -> bool {
        true
    }

    open spec fn spec_position(&self) -> Point {
        self.impact_point
    }

    fn position(&self) -> (p: Point) {
        self.impact_point
    }
}

impl Velocity for FiringSolution {
    open spec fn spec_velocity(&self) -> Vector {
        self.target_velocity
    }

    fn velocity(&self) -> (v: Vector) {
        self.target_velocity
    }
}

impl Acceleration for FiringSolution {
    open spec fn spec_acceleration(&self) -> Vector {
        self.target_acceleration
    }

    fn acceleration(&self) -> (a: Vector) {
        self.target_acceleration
    }
}

/// Whether five coefficients all sit inside the quartic solver's
/// window.
pub open spec fn spec_coeff_window(s: Seq<int>) -> bool {
    s.len() == 5 && forall|i: int| 0 <= i < 5 ==> -QUARTIC_LIM <= #[trigger] s[i] <= QUARTIC_LIM
}

/// All entries halved (truncating) `k` times.
pub open spec fn spec_halved_seq(s: Seq<int>, k: nat) -> Seq<int> {
    s.map_values(|x: int| spec_halved(x, k))
}

/// How many halvings bring the coefficients into the window: the least
/// such count, or `fuel + 1` when `fuel` rounds do not suffice.
pub open spec fn spec_norm_rounds(s: Seq<int>, fuel: nat) -> nat
    decreases fuel,
{
    if fuel == 0 {
        1
    } else if spec_coeff_window(s) {
        0
    } else {
        1 + spec_norm_rounds(spec_halved_seq(s, 1), (fuel - 1) as nat)
    }
}

/// Halving compositions peel from either end.
proof fn lemma_halved_step(x: int, k: nat)
    ensures
        spec_halved(x, k + 1) == spec_halved(tdiv(x, 2), k),
    decreases k,
{
    if k == 0 {
        assert(spec_halved(x, 1) == tdiv(spec_halved(x, 0), 2));
        assert(spec_halved(x, 0) == x);
        assert(spec_halved(tdiv(x, 2), 0) == tdiv(x, 2));
    } else {
        lemma_halved_step(x, (k - 1) as nat);
        assert(spec_halved(x, k + 1) == tdiv(spec_halved(x, k), 2));
        assert(spec_halved(tdiv(x, 2), k) == tdiv(spec_halved(tdiv(x, 2), (k - 1) as nat), 2));
    }
}

/// See [`lemma_halved_step`], lifted to coefficient lists.
proof fn lemma_halved_seq_step(s: Seq<int>, k: nat)
    ensures
        spec_halved_seq(s, k + 1) =~= spec_halved_seq(spec_halved_seq(s, 1), k),
{
    assert forall|i: int| 0 <= i < s.len() implies spec_halved_seq(s, k + 1)[i]
        == spec_halved_seq(spec_halved_seq(s, 1), k)[i] by {
        lemma_halved_step(s[i], k);
        assert(spec_halved_seq(s, 1)[i] == spec_halved(s[i], 1));
        assert(spec_halved(s[i], 1) == tdiv(spec_halved(s[i], 0), 2));
        assert(spec_halved(s[i], 0) == s[i]);
    }
}

/// The first round whose halved coefficients fit is the round count.
proof fn lemma_norm_rounds_found(s: Seq<int>, r: nat, fuel: nat)
    requires
        r < fuel,
        forall|j: nat| j < r ==> !spec_coeff_window(#[trigger] spec_halved_seq(s, j)),
        spec_coeff_window(spec_halved_seq(s, r)),
    ensures
        spec_norm_rounds(s, fuel) == r,
    decreases r,
{
    assert(spec_halved_seq(s, 0) =~= s);
    if r == 0 {
        assert(spec_coeff_window(s));
    } else {
        assert(!spec_coeff_window(spec_halved_seq(s, 0)));
        assert(!spec_coeff_window(s));
        let s1 = spec_halved_seq(s, 1);
        assert forall|j: nat| j < r - 1 implies !spec_coeff_window(
            #[trigger] spec_halved_seq(s1, j),
        ) by {
            lemma_halved_seq_step(s, j);
            assert(!spec_coeff_window(spec_halved_seq(s, (j + 1) as nat)));
        }
        lemma_halved_seq_step(s, (r - 1) as nat);
        lemma_norm_rounds_found(s1, (r - 1) as nat, (fuel - 1) as nat);
    }
}

/// When no round within the budget fits, the count runs past it.
proof fn lemma_norm_rounds_exhausted(s: Seq<int>, fuel: nat)
    requires
        forall|j: nat| j < fuel ==> !spec_coeff_window(#[trigger] spec_halved_seq(s, j)),
    ensures
        spec_norm_rounds(s, fuel) == fuel + 1,
    decreases fuel,
{
    assert(spec_halved_seq(s, 0) =~= s);
    if fuel > 0 {
        assert(!spec_coeff_window(spec_halved_seq(s, 0)));
        let s1 = spec_halved_seq(s, 1);
        assert forall|j: nat| j < fuel - 1 implies !spec_coeff_window(
            #[trigger] spec_halved_seq(s1, j),
        ) by {
            lemma_halved_seq_step(s, j);
            assert(!spec_coeff_window(spec_halved_seq(s, (j + 1) as nat)));
        }
        lemma_norm_rounds_exhausted(s1, (fuel - 1) as nat);
    }
}

/// Scale five coefficients down together until all sit inside the
/// quartic solver's window; the roots of the equation are unchanged up
/// to truncation.  Succeeds exactly when some count of halvings within
/// the budget fits, and then performs the least such count.
pub(crate) fn normalize_for_quartic(c: &mut [i64; 5]) -> (ok: bool)
    ensures
        ({
            let cs = seq![
                old(c)[0] as int,
                old(c)[1] as int,
                old(c)[2] as int,
                old(c)[3] as int,
                old(c)[4] as int,
            ];
            let k = spec_norm_rounds(cs, 64);
            &&& ok == (k < 64)
            &&& ok ==> forall|i: int|
                0 <= i < 5 ==> final(c)[i] == #[trigger] spec_halved(old(c)[i] as int, k)
            &&& ok ==> forall|i: int| 0 <= i < 5 ==> -QUARTIC_LIM <= #[trigger] final(c)[i]
                <= QUARTIC_LIM
        }),
{
    let ghost cs = seq![
        old(c)[0] as int,
        old(c)[1] as int,
        old(c)[2] as int,
        old(c)[3] as int,
        old(c)[4] as int,
    ];
    let mut rounds: u32 = 0;
    while rounds < 64
        invariant
            rounds <= 64,
            cs == seq![
                old(c)[0] as int,
                old(c)[1] as int,
                old(c)[2] as int,
                old(c)[3] as int,
                old(c)[4] as int,
            ],
            forall|i: int|
                0 <= i < 5 ==> c[i] == #[trigger] spec_halved(old(c)[i] as int, rounds as nat),
            forall|j: nat|
                j < rounds ==> !spec_coeff_window(#[trigger] spec_halved_seq(cs, j)),
        decreases 64 - rounds,
    {
        proof {
            assert(forall|i: int|
                0 <= i < 5 ==> #[trigger] spec_halved_seq(cs, rounds as nat)[i] == spec_halved(
                    cs[i],
                    rounds as nat,
                ));
        }
        if -QUARTIC_LIM <= c[0] && c[0] <= QUARTIC_LIM && -QUARTIC_LIM <= c[1] && c[1]
            <= QUARTIC_LIM && -QUARTIC_LIM <= c[2] && c[2] <= QUARTIC_LIM && -QUARTIC_LIM <= c[3]
            && c[3] <= QUARTIC_LIM && -QUARTIC_LIM <= c[4] && c[4] <= QUARTIC_LIM {
            proof {
                assert(spec_coeff_window(spec_halved_seq(cs, rounds as nat)));
                lemma_norm_rounds_found(cs, rounds as nat, 64);
            }
            return true;
        }
        proof {
            if spec_coeff_window(spec_halved_seq(cs, rounds as nat)) {
                assert(spec_halved_seq(cs, rounds as nat)[0] == c[0] as int);
                assert(spec_halved_seq(cs, rounds as nat)[1] == c[1] as int);
                assert(spec_halved_seq(cs, rounds as nat)[2] == c[2] as int);
                assert(spec_halved_seq(cs, rounds as nat)[3] == c[3] as int);
                assert(spec_halved_seq(cs, rounds as nat)[4] == c[4] as int);
                assert(false);
            }
        }
        let ghost kk = rounds as nat;
        let mut i: usize = 0;
        while i < 5
            invariant
                i <= 5,
                forall|j: int| i <= j < 5 ==> c[j] == #[trigger] spec_halved(old(c)[j] as int, kk),
                forall|j: int|
                    0 <= j < i ==> c[j] == tdiv(#[trigger] spec_halved(old(c)[j] as int, kk), 2),
            decreases 5 - i,
        {
            let v = c[i];
            if v == i64::MIN {
                c[i] = v / 2;
                proof {
                    assert(v / 2 == tdiv(v as int, 2)) by {
                        assert((-0x8000_0000_0000_0000int) / 2 == -0x4000_0000_0000_0000int);
                        assert(crate::fixed::abs_i(-0x8000_0000_0000_0000int) / 2
                            == 0x4000_0000_0000_0000int);
                    }
                }
            } else {
                c[i] = div_trunc(v, 2);
            }
            i = i + 1;
        }
        proof {
            assert forall|j: int| 0 <= j < 5 implies c[j] == #[trigger] spec_halved(
                old(c)[j] as int,
                kk + 1,
            ) by {
                assert(spec_halved(old(c)[j] as int, kk + 1) == tdiv(
                    spec_halved(old(c)[j] as int, kk),
                    2,
                ));
            }
        }
        rounds = rounds + 1;
    }
    proof {
        lemma_norm_rounds_exhausted(cs, 64);
    }
    false
}

/// The quartic coefficients of the firing condition, from the target's
/// relative position and velocity, its acceleration, and the projectile
/// speed: "distance travelled equals distance to the target's future
/// position", squared and collected by powers of the time.
pub open spec fn spec_firing_coeffs(
    rpx: int,
    rpy: int,
    rvx: int,
    rvy: int,
    ax: int,
    ay: int,
    speed: int,
) -> Seq<int> {
    seq![
        tdiv(mulf(ax, ax) + mulf(ay, ay), 4),
        mulf(ax, rvx) + mulf(ay, rvy),
        (mulf(rvx, rvx) + mulf(rvy, rvy)) + (mulf(ax, rpx) + mulf(ay, rpy)) - mulf(speed, speed),
        2 * (mulf(rvx, rpx) + mulf(rvy, rpy)),
        mulf(rpx, rpx) + mulf(rpy, rpy),
    ]
}

/// The roots the solver sees for a coefficient list: the canonical
/// listing of the quartic's root set after the halvings that fit it
/// into the solver's window.
pub open spec fn spec_solver_roots(cs: Seq<int>) -> Seq<int> {
    let k = spec_norm_rounds(cs, 64);
    crate::polynomial::spec_canonical(
        crate::polynomial::spec_quartic_roots(
            spec_halved(cs[0], k),
            spec_halved(cs[1], k),
            spec_halved(cs[2], k),
            spec_halved(cs[3], k),
            spec_halved(cs[4], k),
        ),
    )
}

impl FiringSolution {
    /// Solve for a projectile of fixed speed against an accelerating
    /// target: derive the quartic whose roots are candidate impact
    /// times, pick the third of four or the first of two real roots,
    /// and project the target there.  No usable real root, or one
    /// outside the fixed-point window, yields no solution.  The fixed
    /// root indices are inherited behaviour, kept as they stand rather
    /// than re-derived from a physical argument.
    pub fn new<T: Velocity, U: Acceleration>(shooter: &T, projectile_speed: i64, target: &U) -> (r:
        Option<FiringSolution>)
        requires
            shooter.valid(),
            target.valid(),
            shooter.spec_position().in_range(SOL_POS_LIM as int),
            target.spec_position().in_range(SOL_POS_LIM as int),
            shooter.spec_velocity().in_range(SOL_VEL_LIM as int),
            target.spec_velocity().in_range(SOL_VEL_LIM as int),
            target.spec_acceleration().in_range(KIN_ACC_LIM as int),
            0 <= projectile_speed <= SOL_SPEED_LIM,
        ensures
            ({
                let cs = spec_firing_coeffs(
                    target.spec_position().x - shooter.spec_position().x,
                    target.spec_position().y - shooter.spec_position().y,
                    target.spec_velocity().x - shooter.spec_velocity().x,
                    target.spec_velocity().y - shooter.spec_velocity().y,
                    target.spec_acceleration().x as int,
                    target.spec_acceleration().y as int,
                    projectile_speed as int,
                );
                let rv = spec_solver_roots(cs);
                let sel = if rv.len() == 4 {
                    rv[2]
                } else {
                    rv[0]
                };
                &&& (r is Some <==> spec_norm_rounds(cs, 64) < 64 && (rv.len() == 4 || rv.len()
                    == 2) && -SOL_TIME_LIM <= sel <= SOL_TIME_LIM)
                &&& match r {
                    Some(sol) => {
                        &&& sol.impact_time == sel
                        &&& sol.target_velocity == target.spec_velocity()
                        &&& sol.target_acceleration == target.spec_acceleration()
                        &&& sol.impact_point.x == target.spec_position().x + mulf(
                            target.spec_velocity().x - shooter.spec_velocity().x,
                            sol.impact_time as int,
                        ) + mulf(
                            target.spec_acceleration().x as int,
                            tdiv(mulf(sol.impact_time as int, sol.impact_time as int), 2),
                        )
                        &&& sol.impact_point.y == target.spec_position().y + mulf(
                            target.spec_velocity().y - shooter.spec_velocity().y,
                            sol.impact_time as int,
                        ) + mulf(
                            target.spec_acceleration().y as int,
                            tdiv(mulf(sol.impact_time as int, sol.impact_time as int), 2),
                        )
                    },
                    None => true,
                }
            }),
    {
        let tarpos = position_relative_to(target, shooter);
        let tarvel = velocity_relative_to(target, shooter);
        let taracc = target.acceleration();
        proof {
            crate::fixed::lemma_mulf_fits(
                projectile_speed as int,
                projectile_speed as int,
                SOL_SPEED_LIM as int,
                SOL_SPEED_LIM as int,
            );
            crate::fixed::lemma_mulf_fits(taracc.x as int, taracc.x as int, KIN_ACC_LIM as int, KIN_ACC_LIM as int);
            crate::fixed::lemma_mulf_fits(taracc.y as int, taracc.y as int, KIN_ACC_LIM as int, KIN_ACC_LIM as int);
            crate::fixed::lemma_mulf_fits(taracc.x as int, tarvel.x as int, KIN_ACC_LIM as int, 2_000_000int);
            crate::fixed::lemma_mulf_fits(taracc.y as int, tarvel.y as int, KIN_ACC_LIM as int, 2_000_000int);
            crate::fixed::lemma_mulf_fits(tarvel.x as int, tarvel.x as int, 2_000_000int, 2_000_000int);
            crate::fixed::lemma_mulf_fits(tarvel.y as int, tarvel.y as int, 2_000_000int, 2_000_000int);
            crate::fixed::lemma_mulf_fits(taracc.x as int, tarpos.x as int, KIN_ACC_LIM as int, 200_000_000int);
            crate::fixed::lemma_mulf_fits(taracc.y as int, tarpos.y as int, KIN_ACC_LIM as int, 200_000_000int);
            crate::fixed::lemma_mulf_fits(tarvel.x as int, tarpos.x as int, 2_000_000int, 200_000_000int);
            crate::fixed::lemma_mulf_fits(tarvel.y as int, tarpos.y as int, 2_000_000int, 200_000_000int);
            crate::fixed::lemma_mulf_fits(tarpos.x as int, tarpos.x as int, 200_000_000int, 200_000_000int);
            crate::fixed::lemma_mulf_fits(tarpos.y as int, tarpos.y as int, 200_000_000int, 200_000_000int);
        }
        let a = div_trunc(mul_fp(taracc.x, taracc.x) + mul_fp(taracc.y, taracc.y), 4);
        let b = mul_fp(taracc.x, tarvel.x) + mul_fp(taracc.y, tarvel.y);
        let c = (mul_fp(tarvel.x, tarvel.x) + mul_fp(tarvel.y, tarvel.y)) + (mul_fp(
            taracc.x,
            tarpos.x,
        ) + mul_fp(taracc.y, tarpos.y)) - mul_fp(projectile_speed, projectile_speed);
        let d = 2 * (mul_fp(tarvel.x, tarpos.x) + mul_fp(tarvel.y, tarpos.y));
        let e = mul_fp(tarpos.x, tarpos.x) + mul_fp(tarpos.y, tarpos.y);

        let mut coeffs: [i64; 5] = [a, b, c, d, e];
        let ghost cs = spec_firing_coeffs(
            target.spec_position().x - shooter.spec_position().x,
            target.spec_position().y - shooter.spec_position().y,
            target.spec_velocity().x - shooter.spec_velocity().x,
            target.spec_velocity().y - shooter.spec_velocity().y,
            target.spec_acceleration().x as int,
            target.spec_acceleration().y as int,
            projectile_speed as int,
        );
        proof {
            assert(coeffs[0] as int == cs[0]);
            assert(coeffs[1] as int == cs[1]);
            assert(coeffs[2] as int == cs[2]);
            assert(coeffs[3] as int == cs[3]);
            assert(coeffs[4] as int == cs[4]);
        }
        let ok = normalize_for_quartic(&mut coeffs);
        if !ok {
            return None;
        }
        let roots = find_roots_quartic(coeffs[0], coeffs[1], coeffs[2], coeffs[3], coeffs[4]);
        proof {
            crate::polynomial::lemma_vals_are_canonical(roots);
            assert(roots.vals() == spec_solver_roots(cs));
        }
        let rv = roots.as_vec();
        let impact_time: i64 = if rv.len() == 4 {
            rv[2]
        } else if rv.len() == 2 {
            rv[0]
        } else {
            return None;
        };
        if impact_time < -SOL_TIME_LIM || impact_time > SOL_TIME_LIM {
            // The root lies outside the fixed-point projection window.
            return None;
        }
        proof {
            crate::fixed::lemma_mulf_fits(
                tarvel.x as int,
                impact_time as int,
                2_000_000int,
                SOL_TIME_LIM as int,
            );
            crate::fixed::lemma_mulf_fits(
                tarvel.y as int,
                impact_time as int,
                2_000_000int,
                SOL_TIME_LIM as int,
            );
            crate::fixed::lemma_mulf_fits(
                impact_time as int,
                impact_time as int,
                SOL_TIME_LIM as int,
                SOL_TIME_LIM as int,
            );
            crate::fixed::lemma_tdiv_bound(
                mulf(impact_time as int, impact_time as int),
                2,
                1_000_000_000_000_000int,
            );
            crate::fixed::lemma_mulf_fits(
                taracc.x as int,
                tdiv(mulf(impact_time as int, impact_time as int), 2),
                KIN_ACC_LIM as int,
                500_000_000_000_000int,
            );
            crate::fixed::lemma_mulf_fits(
                taracc.y as int,
                tdiv(mulf(impact_time as int, impact_time as int), 2),
                KIN_ACC_LIM as int,
                500_000_000_000_000int,
            );
        }
        let tpos = target.position();
        let half_t2 = div_trunc(mul_fp(impact_time, impact_time), 2);
        let impact_point = Point {
            x: tpos.x + mul_fp(tarvel.x, impact_time) + mul_fp(taracc.x, half_t2),
            y: tpos.y + mul_fp(tarvel.y, impact_time) + mul_fp(taracc.y, half_t2),
        };
        Some(
            FiringSolution {
                impact_time,
                impact_point,
                target_velocity: target.velocity(),
                target_acceleration: taracc,
            },
        )
    }
}

} // verus!
