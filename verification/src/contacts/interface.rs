//! The behaviour every contact offers, and the marker for contacts with
//! full kinematic history.

use vstd::prelude::*;

use crate::kinematics::{Acceleration, Position, Velocity};
use crate::ship_stats::Class;

verus! {

/// Largest timestamp the contact model accepts, in fixed-point seconds.
pub const CONTACT_TIME_LIM: i64 = 1_000_000_000;

/// What every radar contact reports about itself.
pub trait RadarContact: Position + Velocity {
    /// The capture time, as the contracts see it.
    spec fn spec_time(&self) -> i64;

    /// The class tag, as the contracts see it.
    spec fn spec_class(&self) -> Class;

    /// The time at which the contact was last updated.
    fn time(&self) -> (t: i64)
        requires
            self.valid(),
        ensures
            t == self.spec_time(),
    ;

    /// The class of the contact.
    fn class(&self) -> (c: Class)
        requires
            self.valid(),
        ensures
            c == self.spec_class(),
    ;

    /// Seconds elapsed between the last update and `now`.
    fn time_elapsed(&self, now: i64) -> (t: i64)
        requires
            self.valid(),
            -CONTACT_TIME_LIM <= self.spec_time() <= CONTACT_TIME_LIM,
            -CONTACT_TIME_LIM <= now <= CONTACT_TIME_LIM,
        ensures
            t == now - self.spec_time(),
    ;
}

/// A contact that also carries a derived acceleration.
pub trait TrackedRadarContact: RadarContact + Acceleration {

}

} // verus!
