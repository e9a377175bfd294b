//! Fixed-point scalar arithmetic.
//!
//! A scalar is an `i64` holding a quantity times [`SCALE`]: one unit of
//! length, time or speed is stored as 1000.  Products and quotients are
//! computed through `i128` intermediates and truncate toward zero, as
//! Rust's own integer division does.

use vstd::prelude::*;

verus! {

/// Number of fixed-point steps per whole unit.
pub const SCALE: i64 = 1000;

/// Largest product `a * b` (of mathematical integers) that `mul_fp` accepts:
/// the quotient by [`SCALE`] then still fits in an `i64`.
pub const MUL_LIM: i128 = 9_000_000_000_000_000_000_000;

/// Largest magnitude that `div_fp` and `sqrt_fp` accept for their first
/// argument: the product with [`SCALE`] then still fits in an `i64`.
pub const DIV_LIM: i64 = 9_000_000_000_000_000;

/// Magnitude of a mathematical integer.
pub open spec fn abs_i(a: int) -> int {
    if a >= 0 {
        a
    } else {
        -a
    }
}

/// Quotient of `a` and `b` truncated toward zero, as Rust's `/` computes it.
pub open spec fn tdiv(a: int, b: int) -> int {
    if (a >= 0) == (b >= 0) {
        abs_i(a) / abs_i(b)
    } else {
        -(abs_i(a) / abs_i(b))
    }
}

/// Fixed-point product: `a * b` rescaled back down by [`SCALE`].
pub open spec fn mulf(a: int, b: int) -> int {
    tdiv(a * b, SCALE as int)
}

/// Fixed-point quotient: `a / b` scaled up by [`SCALE`] before dividing.
pub open spec fn divf(a: int, b: int) -> int {
    tdiv(a * (SCALE as int), b)
}

/// Floor of the square root of a nonnegative integer.
pub open spec fn isqrt(n: int) -> int
    recommends
        n >= 0,
    decreases n,
{
    if n < 1 {
        0
    } else {
        let s = isqrt(n - 1);
        if (s + 1) * (s + 1) <= n {
            s + 1
        } else {
            s
        }
    }
}

/// Floor of the cube root of a nonnegative integer.
pub open spec fn icbrt(n: int) -> int
    recommends
        n >= 0,
    decreases n,
{
    if n < 1 {
        0
    } else {
        let s = icbrt(n - 1);
        if (s + 1) * (s + 1) * (s + 1) <= n {
            s + 1
        } else {
            s
        }
    }
}

/// Fixed-point square root of `a` (floor): `isqrt` of the value rescaled so
/// that the result is itself a fixed-point scalar.
pub open spec fn sqrtf(a: int) -> int {
    isqrt(a * (SCALE as int))
}

/// `isqrt(n)` is the floor of the square root.
pub proof fn lemma_isqrt_bounds(n: int)
    requires
        n >= 0,
    ensures
        0 <= isqrt(n),
        isqrt(n) * isqrt(n) <= n,
        n < (isqrt(n) + 1) * (isqrt(n) + 1),
    decreases n,
{
    if n < 1 {
    } else {
        lemma_isqrt_bounds(n - 1);
        let s = isqrt(n - 1);
        if (s + 1) * (s + 1) <= n {
            assert((s + 1) * (s + 1) < (s + 2) * (s + 2)) by (nonlinear_arith)
                requires
                    s >= 0,
            ;
        } else {
        }
    }
}

/// Any `r` with `r * r <= n < (r + 1) * (r + 1)` is `isqrt(n)`.
pub proof fn lemma_isqrt_unique(n: int, r: int)
    requires
        n >= 0,
        r >= 0,
        r * r <= n,
        n < (r + 1) * (r + 1),
    ensures
        r == isqrt(n),
{
    lemma_isqrt_bounds(n);
    let s = isqrt(n);
    assert(r == s) by (nonlinear_arith)
        requires
            r >= 0,
            s >= 0,
            r * r <= n,
            n < (r + 1) * (r + 1),
            s * s <= n,
            n < (s + 1) * (s + 1),
    ;
}

/// Bound a fixed-point square root from a bound on its argument.
pub proof fn lemma_sqrtf_bound(a: int, b: int)
    requires
        0 <= a,
        0 <= b,
        a * (SCALE as int) < (b + 1) * (b + 1),
    ensures
        0 <= sqrtf(a) <= b,
{
    lemma_isqrt_bounds(a * (SCALE as int));
    if sqrtf(a) > b {
        assert(sqrtf(a) * sqrtf(a) >= (b + 1) * (b + 1)) by (nonlinear_arith)
            requires
                sqrtf(a) >= b + 1,
                b + 1 >= 1,
        ;
    }
}

/// `icbrt(n)` is the floor of the cube root.
pub proof fn lemma_icbrt_bounds(n: int)
    requires
        n >= 0,
    ensures
        0 <= icbrt(n),
        icbrt(n) * icbrt(n) * icbrt(n) <= n,
        n < (icbrt(n) + 1) * (icbrt(n) + 1) * (icbrt(n) + 1),
    decreases n,
{
    if n < 1 {
    } else {
        lemma_icbrt_bounds(n - 1);
        let s = icbrt(n - 1);
        if (s + 1) * (s + 1) * (s + 1) <= n {
            assert((s + 1) * (s + 1) * (s + 1) < (s + 2) * (s + 2) * (s + 2)) by (nonlinear_arith)
                requires
                    s >= 0,
            ;
        } else {
        }
    }
}

/// Any `r` with `r^3 <= n < (r + 1)^3` is `icbrt(n)`.
pub proof fn lemma_icbrt_unique(n: int, r: int)
    requires
        n >= 0,
        r >= 0,
        r * r * r <= n,
        n < (r + 1) * (r + 1) * (r + 1),
    ensures
        r == icbrt(n),
{
    lemma_icbrt_bounds(n);
    let s = icbrt(n);
    assert(r == s) by (nonlinear_arith)
        requires
            r >= 0,
            s >= 0,
            r * r * r <= n,
            n < (r + 1) * (r + 1) * (r + 1),
            s * s * s <= n,
            n < (s + 1) * (s + 1) * (s + 1),
    ;
}

/// Truncated division shrinks magnitudes: `|tdiv(a, b)| <= |a|` for `b != 0`.
pub proof fn lemma_tdiv_shrinks(a: int, b: int)
    requires
        b != 0,
    ensures
        abs_i(tdiv(a, b)) <= abs_i(a),
{
    vstd::arithmetic::div_mod::lemma_div_nonincreasing(abs_i(a), abs_i(b));
    vstd::arithmetic::div_mod::lemma_div_pos_is_pos(abs_i(a), abs_i(b));
}

/// Magnitude bound carried through truncated division.
pub proof fn lemma_tdiv_bound(a: int, b: int, m: int)
    requires
        b > 0,
        abs_i(a) <= m,
    ensures
        abs_i(tdiv(a, b)) <= m / b,
{
    vstd::arithmetic::div_mod::lemma_div_is_ordered(abs_i(a), m, b);
    vstd::arithmetic::div_mod::lemma_div_pos_is_pos(abs_i(a), b);
}

/// Fixed-point cube root (floor of the magnitude, sign preserved).
pub open spec fn cbrtf(a: int) -> int {
    if a >= 0 {
        icbrt(a * (SCALE as int) * (SCALE as int))
    } else {
        -icbrt(-a * (SCALE as int) * (SCALE as int))
    }
}

/// Bound a fixed-point product from bounds on its factors: it stays in
/// range for `mul_fp` and its magnitude is at most `bx * by` rescaled.
pub proof fn lemma_mulf_fits(x: int, y: int, bx: int, by: int)
    requires
        abs_i(x) <= bx,
        abs_i(y) <= by,
        bx * by <= MUL_LIM,
    ensures
        -MUL_LIM <= x * y <= MUL_LIM as int,
        abs_i(mulf(x, y)) <= (bx * by) / (SCALE as int),
{
    lemma_abs_mul(x, y);
    assert(abs_i(x) * abs_i(y) <= bx * by) by (nonlinear_arith)
        requires
            0 <= abs_i(x) <= bx,
            0 <= abs_i(y) <= by,
    ;
    lemma_tdiv_bound(x * y, SCALE as int, bx * by);
}

/// The magnitude of a product is the product of the magnitudes.
pub proof fn lemma_abs_mul(x: int, y: int)
    ensures
        abs_i(x * y) == abs_i(x) * abs_i(y),
{
    if x >= 0 && y >= 0 {
        assert(x * y >= 0) by (nonlinear_arith)
            requires
                x >= 0,
                y >= 0,
        ;
    } else if x >= 0 && y < 0 {
        assert(x * y <= 0 && x * y == -(x * (-y))) by (nonlinear_arith)
            requires
                x >= 0,
                y < 0,
        ;
    } else if x < 0 && y >= 0 {
        assert(x * y <= 0 && x * y == -((-x) * y)) by (nonlinear_arith)
            requires
                x < 0,
                y >= 0,
        ;
    } else {
        assert(x * y >= 0 && x * y == (-x) * (-y)) by (nonlinear_arith)
            requires
                x < 0,
                y < 0,
        ;
    }
}

/// A product is nonnegative when the factors' signs agree, nonpositive when
/// they differ.
pub proof fn lemma_mul_sign(x: int, y: int)
    ensures
        x >= 0 && y >= 0 ==> x * y >= 0,
        x <= 0 && y <= 0 ==> x * y >= 0,
        x >= 0 && y <= 0 ==> x * y <= 0,
        x <= 0 && y >= 0 ==> x * y <= 0,
{
    assert((x >= 0 && y >= 0 ==> x * y >= 0) && (x <= 0 && y <= 0 ==> x * y >= 0) && (x >= 0 && y
        <= 0 ==> x * y <= 0) && (x <= 0 && y >= 0 ==> x * y <= 0)) by (nonlinear_arith);
}

/// Magnitude of an `i64` above `i64::MIN`.
pub fn abs_fp(a: i64) -> (r: i64)
    requires
        a > i64::MIN,
    ensures
        r == abs_i(a as int),
{
    if a < 0 {
        -a
    } else {
        a
    }
}

/// Magnitude of an `i64`, as a `u128`.
fn abs_u128(a: i64) -> (r: u128)
    ensures
        r == abs_i(a as int),
{
    if a == i64::MIN {
        0x8000_0000_0000_0000u128
    } else if a < 0 {
        (-a) as u128
    } else {
        a as u128
    }
}

/// Fixed-point multiplication, truncating toward zero.
pub fn mul_fp(a: i64, b: i64) -> (r: i64)
    requires
        -MUL_LIM <= a as int * b as int <= MUL_LIM as int,
    ensures
        r == mulf(a as int, b as int),
        abs_i(r as int) == abs_i(a as int * b as int) / (SCALE as int),
{
    let an: u128 = abs_u128(a);
    let bn: u128 = abs_u128(b);
    proof {
        lemma_abs_mul(a as int, b as int);
        assert(an as int * bn as int == abs_i(a as int * b as int));
    }
    let pn: u128 = an * bn;
    let qn: u128 = pn / (SCALE as u128);
    proof {
        vstd::arithmetic::div_mod::lemma_div_is_ordered(
            pn as int,
            MUL_LIM as int,
            SCALE as int,
        );
        vstd::arithmetic::div_mod::lemma_div_pos_is_pos(pn as int, SCALE as int);
        lemma_mul_sign(a as int, b as int);
    }
    if (a < 0) != (b < 0) {
        -(qn as i64)
    } else {
        qn as i64
    }
}

/// Fixed-point division, truncating toward zero.
pub fn div_fp(a: i64, b: i64) -> (r: i64)
    requires
        b != 0,
        -DIV_LIM <= a <= DIV_LIM,
    ensures
        r == divf(a as int, b as int),
        abs_i(r as int) <= abs_i(a as int) * (SCALE as int),
{
    let an: u128 = abs_u128(a) * (SCALE as u128);
    let bn: u128 = if b == i64::MIN {
        0x8000_0000_0000_0000u128
    } else {
        abs_u128(b)
    };
    proof {
        lemma_abs_mul(a as int * SCALE as int, 1);
        assert(abs_i(a as int * SCALE as int) == abs_i(a as int) * (SCALE as int)) by {
            lemma_abs_mul(a as int, SCALE as int);
        }
        vstd::arithmetic::div_mod::lemma_div_is_ordered(
            an as int,
            DIV_LIM as int * SCALE as int,
            bn as int,
        );
        vstd::arithmetic::div_mod::lemma_div_pos_is_pos(an as int, bn as int);
        vstd::arithmetic::div_mod::lemma_div_nonincreasing(an as int, bn as int);
    }
    let qn: u128 = an / bn;
    if (a < 0) != (b < 0) {
        -(qn as i64)
    } else {
        qn as i64
    }
}

/// Fixed-point square root (floor), for nonnegative scalars.
pub fn sqrt_fp(a: i64) -> (r: i64)
    requires
        0 <= a,
    ensures
        r == sqrtf(a as int),
        0 <= r <= 100_000_000_000,
{
    let n: u128 = (a as u128) * 1000u128;
    let r = isqrt_u128(n);
    proof {
        lemma_isqrt_unique(n as int, r as int);
        assert(r as int * r as int <= n as int);
        assert(100_000_000_001int * 100_000_000_001 > n as int);
        if r as int > 100_000_000_000 {
            assert(r as int * r as int >= 100_000_000_001int * 100_000_000_001)
                by (nonlinear_arith)
                requires
                    r as int >= 100_000_000_001,
            ;
        }
    }
    r as i64
}

/// Floor square root of a `u128` below `2^96`, by bisection.
fn isqrt_u128(n: u128) -> (r: u128)
    requires
        n < 0x1_0000_0000_0000_0000_0000_0000,
    ensures
        r * r <= n < (r + 1) * (r + 1),
        r < 0x1_0000_0000_0000,
{
    if n == 0 {
        return 0;
    }
    let mut lo: u128 = 0;
    let mut hi: u128 = 0x1_0000_0000_0000;
    proof {
        assert((0x1_0000_0000_0000 as int) * (0x1_0000_0000_0000 as int) > n as int);
    }
    while hi - lo > 1
        invariant
            0 <= lo < hi <= 0x1_0000_0000_0000,
            lo * lo <= n,
            n < hi * hi,
        decreases hi - lo,
    {
        let mid: u128 = lo + (hi - lo) / 2;
        proof {
            assert(mid < hi);
            assert((mid as int) * (mid as int) < (0x1_0000_0000_0000 as int) * (
            0x1_0000_0000_0000 as int)) by (nonlinear_arith)
                requires
                    0 <= (mid as int) < (0x1_0000_0000_0000 as int),
            ;
        }
        if mid * mid <= n {
            lo = mid;
        } else {
            hi = mid;
        }
    }
    lo
}

/// Truncated division by a positive divisor, as Rust's `/` rounds.
pub fn div_trunc(a: i64, b: i64) -> (r: i64)
    requires
        b > 0,
        a > i64::MIN,
    ensures
        r == tdiv(a as int, b as int),
        abs_i(r as int) <= abs_i(a as int),
{
    proof {
        lemma_tdiv_shrinks(a as int, b as int);
    }
    if a < 0 {
        -((-a) / b)
    } else {
        a / b
    }
}

/// Fixed-point cube root (floor of the magnitude, sign preserved).
pub fn cbrt_fp(a: i64) -> (r: i64)
    requires
        -9_000_000_000_000 <= a <= 9_000_000_000_000,
    ensures
        r == cbrtf(a as int),
        abs_i(r as int) <= 0x220000,
{
    if a >= 0 {
        let n: u64 = (a as u64) * 1_000_000u64;
        let r = icbrt_u64(n);
        proof {
            lemma_icbrt_unique(n as int, r as int);
        }
        r as i64
    } else {
        let n: u64 = ((-a) as u64) * 1_000_000u64;
        let r = icbrt_u64(n);
        proof {
            lemma_icbrt_unique(n as int, r as int);
        }
        -(r as i64)
    }
}

/// Floor cube root of a `u64` below `9 * 10^18`, by bisection.
fn icbrt_u64(n: u64) -> (r: u64)
    requires
        n < 9_100_000_000_000_000_000,
    ensures
        r * r * r <= n < (r + 1) * (r + 1) * (r + 1),
        r <= 0x220000,
{
    if n == 0 {
        return 0;
    }
    let mut lo: u64 = 0;
    let mut hi: u64 = 0x220000;
    proof {
        assert((0x220000 as int) * (0x220000 as int) * (0x220000 as int) > n as int);
    }
    while hi - lo > 1
        invariant
            0 <= lo < hi <= 0x220000,
            lo * lo * lo <= n,
            n < hi * hi * hi,
        decreases hi - lo,
    {
        let mid: u64 = lo + (hi - lo) / 2;
        proof {
            assert((mid as int) * (mid as int) < (0x220000 as int) * (0x220000 as int)
                && (mid as int) * (mid as int) * (mid as int) < (0x220000 as int) * (
            0x220000 as int) * (0x220000 as int)) by (nonlinear_arith)
                requires
                    0 <= (mid as int) < (0x220000 as int),
            ;
        }
        if mid * mid * mid <= n {
            lo = mid;
        } else {
            hi = mid;
        }
    }
    lo
}

} // verus!
