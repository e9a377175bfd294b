//! A snapshot of the sensor's own state at the moment of a scan.

use vstd::prelude::*;

use crate::fixed::div_trunc;
use crate::geometry::Point;

verus! {

/// The sensor's position and beam settings when a scan was taken;
/// immutable once captured.  The heading and width are in binary angle
/// units, the distances in fixed-point length units.
#[derive(Clone, Copy, Debug, PartialEq, Eq, Structural)]
pub struct Emitter {
    /// Where the sensor sat.
    pub position: Point,
    /// Closest range the beam covered.
    pub min_distance: i64,
    /// Farthest range the beam covered.
    pub max_distance: i64,
    /// Centre direction of the beam.
    pub heading: i64,
    /// Angular width of the beam.
    pub width: i64,
}

impl Emitter {
    /// The ranges the contact geometry relies on.
    pub open spec fn wf(self) -> bool {
        &&& self.position.in_range(crate::contacts::scan::SCAN_POS_LIM as int)
        &&& 0 <= self.width <= crate::trig::FULL_TURN
        &&& -crate::trig::HALF_TURN <= self.heading <= crate::trig::HALF_TURN
    }

    /// Capture an emitter snapshot from its parts.
    pub fn new(position: Point, min_distance: i64, max_distance: i64, heading: i64, width: i64)
        -> (e: Emitter)
        ensures
            e.position == position,
            e.min_distance == min_distance,
            e.max_distance == max_distance,
            e.heading == heading,
            e.width == width,
    {
        Emitter { position, min_distance, max_distance, heading, width }
    }

    /// The lower edge of the beam.
    pub fn get_min_heading(&self) -> (r: i64)
        requires
            self.wf(),
        ensures
            r == self.heading - crate::fixed::tdiv(self.width as int, 2),
    {
        self.heading - div_trunc(self.width, 2)
    }

    /// The upper edge of the beam.
    pub fn get_max_heading(&self) -> (r: i64)
        requires
            self.wf(),
        ensures
            r == self.heading + crate::fixed::tdiv(self.width as int, 2),
    {
        self.heading + div_trunc(self.width, 2)
    }
}

} // verus!
