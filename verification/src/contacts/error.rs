//! The sensor error model: bounds on bearing, range and velocity error
//! derived from a scan's signal quality.

use vstd::prelude::*;

use crate::contacts::scan::ScanData;
use crate::fixed::{div_trunc, mul_fp, mulf, tdiv};

verus! {

/// Bearing noise at unit error factor, in fixed-point radians (ten
/// degrees).
pub const BEARING_NOISE_FACTOR: i64 = 174;

/// Range noise at unit error factor, in fixed-point length units.
pub const DISTANCE_NOISE_FACTOR: i64 = 10_000_000;

/// Velocity noise at unit error factor, in fixed-point speed units.
pub const VELOCITY_NOISE_FACTOR: i64 = 100_000;

/// Spread of the sensor's noise distribution, as a fixed-point factor.
pub const RNG_RANGE: i64 = 4_000;

/// Largest bearing error a derived error record can carry.
pub const ERR_BEARING_LIM: i64 = 7_000;

/// Largest range error a derived error record can carry.
pub const ERR_DIST_LIM: i64 = 400_000_000;

/// Largest velocity error a derived error record can carry.
pub const ERR_VEL_LIM: i64 = 4_000_000;

/// Powers of ten up to the fixed-point range.
pub open spec fn spec_pow10(k: int) -> int {
    if k <= 0 {
        1
    } else if k == 1 {
        10
    } else if k == 2 {
        100
    } else if k == 3 {
        1000
    } else if k == 4 {
        10000
    } else if k == 5 {
        100000
    } else if k == 6 {
        1000000
    } else {
        10000000
    }
}

/// The error factor `10^(-snr/10)` as a fixed-point scalar, by decades
/// with linear interpolation inside each decade.  Qualities below zero
/// are clamped to a factor of ten (a floor on usable quality), and seven
/// decades down the factor vanishes.
pub open spec fn spec_attenuation(snr: int) -> int {
    if snr < 0 {
        10_000
    } else {
        let e = tdiv(snr, 10);
        let k = tdiv(e, 1000);
        let frac = e - k * 1000;
        let num = 1000 - tdiv(9 * frac, 10);
        if k >= 7 {
            0
        } else {
            tdiv(num, spec_pow10(k))
        }
    }
}

/// The bounds on one scan's measurements, derived from its
/// signal-to-noise ratio; every bound grows as quality degrades.
#[derive(Clone, Copy, Debug, PartialEq, Eq, Structural)]
pub struct RadarContactError {
    /// Bearing error, in fixed-point radians.
    pub bearing: i64,
    /// Range error, in fixed-point length units.
    pub distance: i64,
    /// Velocity error, in fixed-point speed units.
    pub velocity: i64,
}

impl RadarContactError {
    /// The error record a given signal quality produces, as the
    /// contracts see it.
    pub open spec fn from_scan_spec(snr: int) -> RadarContactError {
        RadarContactError {
            bearing: mulf(
                mulf(BEARING_NOISE_FACTOR as int, spec_attenuation(snr)),
                RNG_RANGE as int,
            ) as i64,
            distance: mulf(
                mulf(DISTANCE_NOISE_FACTOR as int, spec_attenuation(snr)),
                RNG_RANGE as int,
            ) as i64,
            velocity: mulf(
                mulf(VELOCITY_NOISE_FACTOR as int, spec_attenuation(snr)),
                RNG_RANGE as int,
            ) as i64,
        }
    }

    /// The caps every consumer of an error record relies on.
    pub open spec fn wf(self) -> bool {
        &&& 0 <= self.bearing <= ERR_BEARING_LIM
        &&& 0 <= self.distance <= ERR_DIST_LIM
        &&& 0 <= self.velocity <= ERR_VEL_LIM
    }

    /// Derive the error bounds from a scan's signal quality.
    pub fn from_scan(scan: &ScanData) -> (e: RadarContactError)
        ensures
            e == Self::from_scan_spec(scan.snr as int),
            e.wf(),
    {
        let factor = attenuation(scan.snr);
        proof {
            crate::fixed::lemma_mulf_fits(
                BEARING_NOISE_FACTOR as int,
                factor as int,
                174,
                10_000,
            );
            crate::fixed::lemma_mulf_fits(
                DISTANCE_NOISE_FACTOR as int,
                factor as int,
                10_000_000,
                10_000,
            );
            crate::fixed::lemma_mulf_fits(
                VELOCITY_NOISE_FACTOR as int,
                factor as int,
                100_000,
                10_000,
            );
            crate::fixed::lemma_mulf_fits(
                mulf(BEARING_NOISE_FACTOR as int, factor as int),
                RNG_RANGE as int,
                1_740,
                4_000,
            );
            crate::fixed::lemma_mulf_fits(
                mulf(DISTANCE_NOISE_FACTOR as int, factor as int),
                RNG_RANGE as int,
                100_000_000,
                4_000,
            );
            crate::fixed::lemma_mulf_fits(
                mulf(VELOCITY_NOISE_FACTOR as int, factor as int),
                RNG_RANGE as int,
                1_000_000,
                4_000,
            );
            lemma_mulf_nonneg(BEARING_NOISE_FACTOR as int, factor as int);
            lemma_mulf_nonneg(DISTANCE_NOISE_FACTOR as int, factor as int);
            lemma_mulf_nonneg(VELOCITY_NOISE_FACTOR as int, factor as int);
            lemma_mulf_nonneg(mulf(BEARING_NOISE_FACTOR as int, factor as int), RNG_RANGE as int);
            lemma_mulf_nonneg(mulf(DISTANCE_NOISE_FACTOR as int, factor as int), RNG_RANGE as int);
            lemma_mulf_nonneg(mulf(VELOCITY_NOISE_FACTOR as int, factor as int), RNG_RANGE as int);
        }
        RadarContactError {
            bearing: mul_fp(mul_fp(BEARING_NOISE_FACTOR, factor), RNG_RANGE),
            distance: mul_fp(mul_fp(DISTANCE_NOISE_FACTOR, factor), RNG_RANGE),
            velocity: mul_fp(mul_fp(VELOCITY_NOISE_FACTOR, factor), RNG_RANGE),
        }
    }
}

/// A fixed-point product of nonnegative factors is nonnegative.
pub proof fn lemma_mulf_nonneg(x: int, y: int)
    requires
        x >= 0,
        y >= 0,
    ensures
        mulf(x, y) >= 0,
{
    crate::fixed::lemma_mul_sign(x, y);
    vstd::arithmetic::div_mod::lemma_div_pos_is_pos(x * y, 1000);
}

/// The error factor of a signal quality, monotone: worse quality never
/// shrinks it.
pub fn attenuation(snr: i64) -> (r: i64)
    ensures
        r == spec_attenuation(snr as int),
        0 <= r <= 10_000,
{
    if snr < 0 {
        return 10_000;
    }
    let e = div_trunc(snr, 10);
    let k = div_trunc(e, 1000);
    proof {
        vstd::arithmetic::div_mod::lemma_fundamental_div_mod(e as int, 1000);
        vstd::arithmetic::div_mod::lemma_div_pos_is_pos(e as int, 1000);
        assert(e as int - k as int * 1000 == e as int % 1000);
        vstd::arithmetic::div_mod::lemma_mod_bound(e as int, 1000);
    }
    let frac = e - k * 1000;
    proof {
        crate::fixed::lemma_tdiv_bound(9 * frac as int, 10, 9_000int);
        vstd::arithmetic::div_mod::lemma_div_pos_is_pos(9 * frac as int, 10);
    }
    let num = 1000 - div_trunc(9 * frac, 10);
    if k >= 7 {
        0
    } else {
        let p = pow10(k);
        proof {
            vstd::arithmetic::div_mod::lemma_div_pos_is_pos(num as int, p as int);
            vstd::arithmetic::div_mod::lemma_div_is_ordered(num as int, 10_000int, p as int);
            vstd::arithmetic::div_mod::lemma_div_is_ordered_by_denominator(10_000int, 1, p as int);
        }
        div_trunc(num, p)
    }
}

/// A small power of ten.
fn pow10(k: i64) -> (r: i64)
    requires
        0 <= k <= 6,
    ensures
        r == spec_pow10(k as int),
        1 <= r <= 1_000_000,
{
    if k == 0 {
        1
    } else if k == 1 {
        10
    } else if k == 2 {
        100
    } else if k == 3 {
        1000
    } else if k == 4 {
        10000
    } else if k == 5 {
        100000
    } else {
        1000000
    }
}

} // verus!
