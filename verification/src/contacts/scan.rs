//! One raw sensor return.

use vstd::prelude::*;

use crate::geometry::{Point, Vector};
use crate::ship_stats::Class;

verus! {

/// Largest position coordinate a well-formed scan may carry.
pub const SCAN_POS_LIM: i64 = 100_000_000;

/// Largest velocity component a well-formed scan may carry.
pub const SCAN_VEL_LIM: i64 = 1_000_000;

/// A single sensor return: what one sweep reported about one object.
#[derive(Clone, Copy, Debug, PartialEq, Eq, Structural)]
pub struct ScanData {
    /// Reported class of the object.
    pub class: Class,
    /// Reported position.
    pub position: Point,
    /// Reported velocity.
    pub velocity: Vector,
    /// Received signal strength.
    pub rssi: i64,
    /// Signal-to-noise ratio, in fixed-point decibels.
    pub snr: i64,
}

impl ScanData {
    /// The ranges every consumer of a scan relies on.
    pub open spec fn wf(self) -> bool {
        &&& self.position.in_range(SCAN_POS_LIM as int)
        &&& self.velocity.in_range(SCAN_VEL_LIM as int)
        &&& crate::ship_stats::has_max_acceleration(self.class)
    }

    /// Make a scan record from its parts.
    pub fn new(class: Class, position: Point, velocity: Vector, rssi: i64, snr: i64) -> (s:
        ScanData)
        ensures
            s.class == class,
            s.position == position,
            s.velocity == velocity,
            s.rssi == rssi,
            s.snr == snr,
    {
        ScanData { class, position, velocity, rssi, snr }
    }
}

} // verus!
