//! Angles and trigonometry on binary angle units.
//!
//! An angle is an `i64` counting units of 1/4096 of a full turn, so a
//! quarter turn is exactly 1024 units and wrapping is exact integer
//! arithmetic.  Trigonometric values are fixed-point scalars in
//! `[-SCALE, SCALE]`, computed by quarter-wave symmetry around a low-order
//! polynomial whose value is exact at whole multiples of a quarter turn.

use vstd::prelude::*;

use crate::fixed::{abs_i, div_fp, divf, mul_fp, mulf, sqrt_fp, sqrtf, tdiv};

verus! {

/// Angle units in a full turn.
pub const FULL_TURN: i64 = 4096;

/// Angle units in a half turn.
pub const HALF_TURN: i64 = 2048;

/// Angle units in a quarter turn.
pub const QUARTER_TURN: i64 = 1024;

/// Angle units in an eighth of a turn.
pub const EIGHTH_TURN: i64 = 512;

/// Angle units in a third of a turn (rounded down).
pub const THIRD_TURN: i64 = 1365;

/// A full turn in fixed-point radians.
pub const TAU_FP: i64 = 6283;

/// A half turn in fixed-point radians.
pub const PI_FP: i64 = 3141;

/// A quarter turn in fixed-point radians.
pub const HALF_PI_FP: i64 = 1570;

/// `a` reduced to `[0, FULL_TURN)`.
pub open spec fn wrapped(a: int) -> int {
    a % (FULL_TURN as int)
}

/// Quarter-wave cosine approximation on `[0, QUARTER_TURN]`, a truncated
/// Taylor series with a linear correction that makes the endpoints exact:
/// `spec_cos_q(0) == SCALE` and `spec_cos_q(QUARTER_TURN) == 0`.
pub open spec fn spec_cos_q(q: int) -> int {
    let x = (q * (TAU_FP as int)) / (FULL_TURN as int);
    let x2 = (x * x) / 1000;
    let x4 = (x2 * x2) / 1000;
    1000 - x2 / 2 + x4 / 24 - (20 * q) / (QUARTER_TURN as int)
}

/// Fixed-point cosine of an angle in binary units.
pub open spec fn spec_cos(a: int) -> int {
    let w = wrapped(a);
    if w <= QUARTER_TURN {
        spec_cos_q(w)
    } else if w <= HALF_TURN {
        -spec_cos_q((HALF_TURN as int) - w)
    } else if w <= HALF_TURN + QUARTER_TURN {
        -spec_cos_q(w - (HALF_TURN as int))
    } else {
        spec_cos_q((FULL_TURN as int) - w)
    }
}

/// Fixed-point sine of an angle in binary units.
pub open spec fn spec_sin(a: int) -> int {
    spec_cos(a - (QUARTER_TURN as int))
}

/// Octant-reduction arctangent of a fixed-point ratio `t` in `[0, SCALE]`,
/// in binary angle units in `[0, EIGHTH_TURN]`; exact at both endpoints.
pub open spec fn spec_atan_frac(t: int) -> int {
    ((EIGHTH_TURN as int) * t) / 1000 + (178 * t * (1000 - t)) / 1000000
}

/// Angle of the vector `(x, y)` in binary units in `[-HALF_TURN, HALF_TURN]`,
/// measured from the positive x axis, counterclockwise.
pub open spec fn spec_atan2(y: int, x: int) -> int {
    let ax = abs_i(x);
    let ay = abs_i(y);
    let base = if ax == 0 && ay == 0 {
        0
    } else if ay <= ax {
        spec_atan_frac(divf(ay, ax))
    } else {
        (QUARTER_TURN as int) - spec_atan_frac(divf(ax, ay))
    };
    let half = if x >= 0 {
        base
    } else {
        (HALF_TURN as int) - base
    };
    if y >= 0 {
        half
    } else {
        -half
    }
}

/// Reduce an angle to `[0, FULL_TURN)`.
pub fn wrap_angle(a: i64) -> (r: i64)
    ensures
        r == wrapped(a as int),
        0 <= r < FULL_TURN,
{
    let m = a % FULL_TURN;
    if m < 0 {
        m + FULL_TURN
    } else {
        m
    }
}

/// Reduce an angle to `(-HALF_TURN, HALF_TURN]`.
pub fn wrap_signed(a: i64) -> (r: i64)
    ensures
        r == if wrapped(a as int) > HALF_TURN {
            wrapped(a as int) - FULL_TURN
        } else {
            wrapped(a as int)
        },
        -HALF_TURN < r <= HALF_TURN,
{
    let m = wrap_angle(a);
    if m > HALF_TURN {
        m - FULL_TURN
    } else {
        m
    }
}

/// Wrapping ignores whole turns: the heart of orientation periodicity.
pub proof fn lemma_wrap_periodic(a: int, k: int)
    ensures
        wrapped(a + k * (FULL_TURN as int)) == wrapped(a),
{
    vstd::arithmetic::div_mod::lemma_mod_multiples_vanish(k, a, FULL_TURN as int);
}

/// Cosine is invariant under adding whole turns.
pub proof fn lemma_cos_periodic(a: int, k: int)
    ensures
        spec_cos(a + k * (FULL_TURN as int)) == spec_cos(a),
{
    lemma_wrap_periodic(a, k);
}

/// Sine is invariant under adding whole turns.
pub proof fn lemma_sin_periodic(a: int, k: int)
    ensures
        spec_sin(a + k * (FULL_TURN as int)) == spec_sin(a),
{
    lemma_cos_periodic(a - (QUARTER_TURN as int), k);
}

/// Quarter-wave cosine helper; all intermediates are nonnegative.
fn cos_q(q: i64) -> (r: i64)
    requires
        0 <= q <= QUARTER_TURN,
    ensures
        r == spec_cos_q(q as int),
        -1300 <= r <= 1300,
{
    let x: i64 = (q * TAU_FP) / FULL_TURN;
    proof {
        vstd::arithmetic::div_mod::lemma_div_is_ordered(
            q as int * TAU_FP as int,
            1024int * 6283,
            4096,
        );
        vstd::arithmetic::div_mod::lemma_div_pos_is_pos(q as int * TAU_FP as int, 4096);
    }
    proof {
        assert(x as int * x as int <= 1571 * 1571) by (nonlinear_arith)
            requires
                0 <= x as int <= 1571,
        ;
        vstd::arithmetic::div_mod::lemma_div_is_ordered(x as int * x as int, 1571int * 1571, 1000);
        vstd::arithmetic::div_mod::lemma_div_pos_is_pos(x as int * x as int, 1000);
    }
    let x2: i64 = (x * x) / 1000;
    proof {
        assert(x2 as int * x2 as int <= 2468 * 2468) by (nonlinear_arith)
            requires
                0 <= x2 as int <= 2468,
        ;
        vstd::arithmetic::div_mod::lemma_div_is_ordered(x2 as int * x2 as int, 2468int * 2468, 1000);
        vstd::arithmetic::div_mod::lemma_div_pos_is_pos(x2 as int * x2 as int, 1000);
    }
    let x4: i64 = (x2 * x2) / 1000;
    proof {
        vstd::arithmetic::div_mod::lemma_div_is_ordered(20 * q as int, 20int * 1024, 1024);
        vstd::arithmetic::div_mod::lemma_div_pos_is_pos(20 * q as int, 1024);
    }
    1000 - x2 / 2 + x4 / 24 - (20 * q) / QUARTER_TURN
}

/// Fixed-point cosine of an angle in binary units.
pub fn cos_units(a: i64) -> (r: i64)
    ensures
        r == spec_cos(a as int),
        -1300 <= r <= 1300,
{
    let w = wrap_angle(a);
    if w <= QUARTER_TURN {
        cos_q(w)
    } else if w <= HALF_TURN {
        -cos_q(HALF_TURN - w)
    } else if w <= HALF_TURN + QUARTER_TURN {
        -cos_q(w - HALF_TURN)
    } else {
        cos_q(FULL_TURN - w)
    }
}

/// Fixed-point sine of an angle in binary units.
pub fn sin_units(a: i64) -> (r: i64)
    requires
        i64::MIN + QUARTER_TURN < a,
    ensures
        r == spec_sin(a as int),
        -1300 <= r <= 1300,
{
    cos_units(a - QUARTER_TURN)
}

/// Octant arctangent helper for ratios in `[0, SCALE]`.
fn atan_frac(t: i64) -> (r: i64)
    requires
        0 <= t <= 1000,
    ensures
        r == spec_atan_frac(t as int),
        0 <= r <= 600,
{
    proof {
        assert(0 <= 178 * t as int * (1000 - t as int) <= 178 * 250000) by (nonlinear_arith)
            requires
                0 <= t as int <= 1000,
        ;
        vstd::arithmetic::div_mod::lemma_div_is_ordered(
            178 * t as int * (1000 - t as int),
            178int * 250000,
            1000000,
        );
        vstd::arithmetic::div_mod::lemma_div_pos_is_pos(
            178 * t as int * (1000 - t as int),
            1000000,
        );
        vstd::arithmetic::div_mod::lemma_div_is_ordered(
            (EIGHTH_TURN as int) * t as int,
            512int * 1000,
            1000,
        );
        vstd::arithmetic::div_mod::lemma_div_pos_is_pos((EIGHTH_TURN as int) * t as int, 1000);
    }
    (EIGHTH_TURN * t) / 1000 + (178 * t * (1000 - t)) / 1000000
}

/// Angle of the vector `(x, y)` in binary units, in `[-HALF_TURN, HALF_TURN]`.
pub fn atan2_units(y: i64, x: i64) -> (r: i64)
    requires
        -crate::fixed::DIV_LIM < x < crate::fixed::DIV_LIM,
        -crate::fixed::DIV_LIM < y < crate::fixed::DIV_LIM,
    ensures
        r == spec_atan2(y as int, x as int),
        -HALF_TURN <= r <= HALF_TURN,
        y >= 0 ==> r >= 0,
        y <= 0 ==> r <= 0 || r == HALF_TURN,
{
    let ax: i64 = if x < 0 {
        -x
    } else {
        x
    };
    let ay: i64 = if y < 0 {
        -y
    } else {
        y
    };
    let base: i64 = if ax == 0 && ay == 0 {
        0
    } else if ay <= ax {
        let t = div_fp(ay, ax);
        proof {
            crate::fixed::lemma_tdiv_bound(ay as int * 1000, ax as int, ax as int * 1000);
            assert(tdiv(ay as int * 1000, ax as int) <= 1000) by {
                vstd::arithmetic::div_mod::lemma_div_is_ordered(
                    ay as int * 1000,
                    ax as int * 1000,
                    ax as int,
                );
                vstd::arithmetic::div_mod::lemma_div_multiples_vanish(1000, ax as int);
            }
            vstd::arithmetic::div_mod::lemma_div_pos_is_pos(ay as int * 1000, ax as int);
        }
        atan_frac(t)
    } else {
        let t = div_fp(ax, ay);
        proof {
            assert(tdiv(ax as int * 1000, ay as int) <= 1000) by {
                vstd::arithmetic::div_mod::lemma_div_is_ordered(
                    ax as int * 1000,
                    ay as int * 1000,
                    ay as int,
                );
                vstd::arithmetic::div_mod::lemma_div_multiples_vanish(1000, ay as int);
            }
            vstd::arithmetic::div_mod::lemma_div_pos_is_pos(ax as int * 1000, ay as int);
        }
        QUARTER_TURN - atan_frac(t)
    };
    let half: i64 = if x >= 0 {
        base
    } else {
        HALF_TURN - base
    };
    if y >= 0 {
        half
    } else {
        -half
    }
}

/// Arctangent over fixed-point radians, for ratios in `[0, SCALE]`:
/// exact at both endpoints of the octant.
pub open spec fn spec_atan_r_frac(t: int) -> int {
    (785 * t) / 1000 + (273 * t * (1000 - t)) / 1000000
}

/// Arctangent of a fixed-point scalar, in fixed-point radians: octant
/// reduction through the reciprocal for magnitudes above one.
pub open spec fn spec_atan_r(z: int) -> int {
    let m = abs_i(z);
    let base = if m <= 1000 {
        spec_atan_r_frac(m)
    } else {
        (HALF_PI_FP as int) - spec_atan_r_frac(divf(1000, m))
    };
    if z >= 0 {
        base
    } else {
        -base
    }
}

/// Arctangent of a fixed-point scalar, in fixed-point radians.
pub fn atan_fp(z: i64) -> (r: i64)
    requires
        -crate::fixed::DIV_LIM < z < crate::fixed::DIV_LIM,
    ensures
        r == spec_atan_r(z as int),
        abs_i(r as int) <= HALF_PI_FP,
        z >= 0 ==> r >= 0,
{
    let m: i64 = if z < 0 {
        -z
    } else {
        z
    };
    let base: i64 = if m <= 1000 {
        atan_r_frac(m)
    } else {
        proof {
            assert(tdiv(1000int * 1000, m as int) <= 1000) by {
                vstd::arithmetic::div_mod::lemma_div_is_ordered(
                    1000int * 1000,
                    1000 * m as int,
                    m as int,
                );
                vstd::arithmetic::div_mod::lemma_div_multiples_vanish(1000, m as int);
            }
            vstd::arithmetic::div_mod::lemma_div_pos_is_pos(1000int * 1000, m as int);
        }
        HALF_PI_FP - atan_r_frac(div_fp(1000, m))
    };
    if z >= 0 {
        base
    } else {
        -base
    }
}

/// Octant helper for `atan_fp`.
fn atan_r_frac(t: i64) -> (r: i64)
    requires
        0 <= t <= 1000,
    ensures
        r == spec_atan_r_frac(t as int),
        0 <= r <= 855,
{
    proof {
        assert(0 <= 273 * t as int * (1000 - t as int) <= 273 * 250000) by (nonlinear_arith)
            requires
                0 <= t as int <= 1000,
        ;
        vstd::arithmetic::div_mod::lemma_div_is_ordered(
            273 * t as int * (1000 - t as int),
            273int * 250000,
            1000000,
        );
        vstd::arithmetic::div_mod::lemma_div_pos_is_pos(
            273 * t as int * (1000 - t as int),
            1000000,
        );
        vstd::arithmetic::div_mod::lemma_div_is_ordered(785 * t as int, 785int * 1000, 1000);
        vstd::arithmetic::div_mod::lemma_div_pos_is_pos(785 * t as int, 1000);
    }
    (785 * t) / 1000 + (273 * t * (1000 - t)) / 1000000
}

/// Fixed-point arccosine of a ratio in `[-SCALE, SCALE]`, in binary angle
/// units in `[0, HALF_TURN]`, through `atan2` of the complementary leg.
pub open spec fn spec_acos(t: int) -> int {
    spec_atan2(sqrtf(1000 - mulf(t, t)), t)
}

/// Fixed-point arccosine, in binary angle units.
pub fn acos_units(t: i64) -> (r: i64)
    requires
        -1000 <= t <= 1000,
    ensures
        r == spec_acos(t as int),
        0 <= r <= HALF_TURN,
{
    proof {
        crate::fixed::lemma_mulf_fits(t as int, t as int, 1000, 1000);
        assert(mulf(t as int, t as int) >= 0) by {
            crate::fixed::lemma_mul_sign(t as int, t as int);
            if t >= 0 {
                vstd::arithmetic::div_mod::lemma_div_pos_is_pos(t as int * t as int, 1000);
            } else {
                vstd::arithmetic::div_mod::lemma_div_pos_is_pos(t as int * t as int, 1000);
            }
        }
    }
    let c = 1000 - mul_fp(t, t);
    let s = sqrt_fp(c);
    atan2_units(s, t)
}

} // verus!
