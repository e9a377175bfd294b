//! The beam settings one adjustment asks of the physical sensor.

use vstd::prelude::*;

verus! {

/// One tick's sensor command: where to point the beam, how wide to make
/// it and which range window to cover next tick.
#[derive(Clone, Copy, Debug, PartialEq, Eq, Structural)]
pub struct RadarConfig {
    /// Beam centre direction, in binary angle units.
    pub heading: i64,
    /// Beam width, in binary angle units.
    pub width: i64,
    /// Near edge of the range window.
    pub min_distance: i64,
    /// Far edge of the range window.
    pub max_distance: i64,
}

/// Duration of one simulation tick, in fixed-point seconds.
pub const TICK_LENGTH: i64 = 16;

/// The sensor's longest usable range.
pub const MAX_RADAR_RANGE: i64 = 25_000_000;

} // verus!
