//! Per-class vessel data: the class tag itself, acceleration envelopes
//! and hull dimensions.

use vstd::prelude::*;

use crate::fixed::{mul_fp, mulf, sqrt_fp, sqrtf};

verus! {

/// The recognised vessel classes.
#[derive(Clone, Copy, Debug, PartialEq, Eq, Structural)]
pub enum Class {
    /// A fighter.
    Fighter,
    /// A frigate.
    Frigate,
    /// A cruiser.
    Cruiser,
    /// An asteroid.
    Asteroid,
    /// A practice target.
    Target,
    /// A missile.
    Missile,
    /// A torpedo.
    Torpedo,
    /// Anything unrecognised.
    Unknown,
}

/// The acceleration envelope of a vessel, in fixed-point units per
/// second squared; the angular rate is in binary angle units per second.
#[derive(Clone, Copy, Debug, PartialEq, Eq, Structural)]
pub struct MaxAcceleration {
    /// Forward acceleration bound.
    pub forward: i64,
    /// Reverse acceleration bound.
    pub reverse: i64,
    /// Lateral acceleration bound.
    pub lateral: i64,
    /// Turn rate bound.
    pub angular: i64,
}

/// The classes whose acceleration envelope is on record.
pub open spec fn has_max_acceleration(class: Class) -> bool {
    class != Class::Target && class != Class::Unknown
}

/// The acceleration envelope of each recorded class.
pub open spec fn spec_max_acceleration(class: Class) -> MaxAcceleration {
    match class {
        Class::Fighter => MaxAcceleration {
            forward: 60_000,
            reverse: 30_000,
            lateral: 30_000,
            angular: 4096,
        },
        Class::Frigate => MaxAcceleration {
            forward: 10_000,
            reverse: 5_000,
            lateral: 5_000,
            angular: 512,
        },
        Class::Cruiser => MaxAcceleration {
            forward: 5_000,
            reverse: 2_500,
            lateral: 2_500,
            angular: 256,
        },
        Class::Asteroid => MaxAcceleration { forward: 0, reverse: 0, lateral: 0, angular: 0 },
        Class::Missile => MaxAcceleration {
            forward: 300_000,
            reverse: 0,
            lateral: 100_000,
            angular: 8192,
        },
        Class::Torpedo => MaxAcceleration {
            forward: 70_000,
            reverse: 0,
            lateral: 20_000,
            angular: 4096,
        },
        _ => MaxAcceleration { forward: 0, reverse: 0, lateral: 0, angular: 0 },
    }
}

/// The combined medial-lateral magnitude of an envelope.
pub open spec fn spec_accel_magnitude(m: MaxAcceleration) -> int {
    let medial = if m.forward >= m.reverse {
        m.forward as int
    } else {
        m.reverse as int
    };
    sqrtf(mulf(medial, medial) + mulf(m.lateral as int, m.lateral as int))
}

/// No recorded class accelerates harder than a missile.
pub proof fn lemma_accel_magnitude_bound(class: Class)
    ensures
        0 <= spec_accel_magnitude(spec_max_acceleration(class)) <= 316_227,
{
    let m = spec_max_acceleration(class);
    let medial = if m.forward >= m.reverse {
        m.forward as int
    } else {
        m.reverse as int
    };
    assert(0 <= medial <= 300_000);
    assert(0 <= m.lateral <= 100_000);
    crate::fixed::lemma_mulf_fits(medial, medial, 300_000int, 300_000int);
    crate::fixed::lemma_mulf_fits(m.lateral as int, m.lateral as int, 100_000int, 100_000int);
    crate::fixed::lemma_mul_sign(medial, medial);
    crate::fixed::lemma_mul_sign(m.lateral as int, m.lateral as int);
    vstd::arithmetic::div_mod::lemma_div_pos_is_pos(medial * medial, 1000);
    vstd::arithmetic::div_mod::lemma_div_pos_is_pos(m.lateral as int * m.lateral as int, 1000);
    crate::fixed::lemma_sqrtf_bound(
        mulf(medial, medial) + mulf(m.lateral as int, m.lateral as int),
        316_227,
    );
}

impl MaxAcceleration {
    /// The acceleration envelope of a class.  Target drones and
    /// unrecognised classes have none on record.
    pub fn from_class(class: Class) -> (m: MaxAcceleration)
        requires
            has_max_acceleration(class),
        ensures
            m == spec_max_acceleration(class),
    {
        match class {
            Class::Fighter => MaxAcceleration {
                forward: 60_000,
                reverse: 30_000,
                lateral: 30_000,
                angular: 4096,
            },
            Class::Frigate => MaxAcceleration {
                forward: 10_000,
                reverse: 5_000,
                lateral: 5_000,
                angular: 512,
            },
            Class::Cruiser => MaxAcceleration {
                forward: 5_000,
                reverse: 2_500,
                lateral: 2_500,
                angular: 256,
            },
            Class::Asteroid => MaxAcceleration { forward: 0, reverse: 0, lateral: 0, angular: 0 },
            Class::Missile => MaxAcceleration {
                forward: 300_000,
                reverse: 0,
                lateral: 100_000,
                angular: 8192,
            },
            Class::Torpedo => MaxAcceleration {
                forward: 70_000,
                reverse: 0,
                lateral: 20_000,
                angular: 4096,
            },
            Class::Target => MaxAcceleration { forward: 0, reverse: 0, lateral: 0, angular: 0 },
            Class::Unknown => MaxAcceleration { forward: 0, reverse: 0, lateral: 0, angular: 0 },
        }
    }

    /// The worst-case linear acceleration magnitude.
    pub fn magnitude(&self) -> (r: i64)
        requires
            0 <= self.forward <= 1_000_000_000,
            0 <= self.reverse <= 1_000_000_000,
            0 <= self.lateral <= 1_000_000_000,
        ensures
            r == spec_accel_magnitude(*self),
            0 <= r <= 100_000_000_000,
    {
        let medial = if self.forward >= self.reverse {
            self.forward
        } else {
            self.reverse
        };
        proof {
            crate::fixed::lemma_mulf_fits(medial as int, medial as int, 1_000_000_000int, 1_000_000_000int);
            crate::fixed::lemma_mulf_fits(
                self.lateral as int,
                self.lateral as int,
                1_000_000_000int,
                1_000_000_000int,
            );
            crate::fixed::lemma_mul_sign(medial as int, medial as int);
            crate::fixed::lemma_mul_sign(self.lateral as int, self.lateral as int);
            vstd::arithmetic::div_mod::lemma_div_pos_is_pos(medial as int * medial as int, 1000);
            vstd::arithmetic::div_mod::lemma_div_pos_is_pos(
                self.lateral as int * self.lateral as int,
                1000,
            );
        }
        sqrt_fp(mul_fp(medial, medial) + mul_fp(self.lateral, self.lateral))
    }
}

/// Hull dimensions of a vessel, each measured from the centre.
#[derive(Clone, Copy, Debug, PartialEq, Eq, Structural)]
pub struct Dimensions {
    /// Extent toward the bow.
    pub fore: i64,
    /// Extent toward the stern.
    pub aft: i64,
    /// Extent to port.
    pub left: i64,
    /// Extent to starboard.
    pub right: i64,
}

/// The classes whose hull dimensions are on record.
pub open spec fn has_dimensions(class: Class) -> bool {
    class == Class::Fighter || class == Class::Missile
}

/// The hull dimensions of each recorded class.
pub open spec fn spec_dimensions(class: Class) -> Dimensions {
    match class {
        Class::Fighter => Dimensions { fore: 12_000, aft: 6_000, left: 8_000, right: 8_000 },
        Class::Missile => Dimensions { fore: 5_000, aft: 1_000, left: 3_000, right: 3_000 },
        _ => Dimensions { fore: 0, aft: 0, left: 0, right: 0 },
    }
}

impl Dimensions {
    /// The hull dimensions of a class; only fighters and missiles have
    /// them on record.
    pub fn from_class(class: Class) -> (d: Dimensions)
        requires
            has_dimensions(class),
        ensures
            d == spec_dimensions(class),
    {
        match class {
            Class::Fighter => Dimensions { fore: 12_000, aft: 6_000, left: 8_000, right: 8_000 },
            Class::Missile => Dimensions { fore: 5_000, aft: 1_000, left: 3_000, right: 3_000 },
            _ => Dimensions { fore: 0, aft: 0, left: 0, right: 0 },
        }
    }

    /// Total length of the hull.
    pub fn length(&self) -> (r: i64)
        requires
            0 <= self.fore,
            0 <= self.aft,
            self.fore + self.aft <= i64::MAX,
        ensures
            r == self.fore + self.aft,
    {
        self.fore + self.aft
    }

    /// Total width of the hull.
    pub fn width(&self) -> (r: i64)
        requires
            0 <= self.left,
            0 <= self.right,
            self.left + self.right <= i64::MAX,
        ensures
            r == self.left + self.right,
    {
        self.left + self.right
    }

    /// The largest single extent from the centre.
    pub fn longest(&self) -> (r: i64)
        ensures
            r == self.fore || r == self.aft || r == self.left || r == self.right,
            r >= self.fore && r >= self.aft && r >= self.left && r >= self.right,
    {
        let mut m = self.fore;
        if self.aft > m {
            m = self.aft;
        }
        if self.left > m {
            m = self.left;
        }
        if self.right > m {
            m = self.right;
        }
        m
    }
}

} // verus!
