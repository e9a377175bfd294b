//! The narrow sweep that follows one contact.

use vstd::prelude::*;

use crate::contacts::emitter::Emitter;
use crate::contacts::interface::CONTACT_TIME_LIM;
use crate::contacts::scan::ScanData;
use crate::contacts::track::{spec_updated, TrackedContact};
use crate::geometry::Point;
use crate::kinematics::{bearing_to, position_after, Acceleration, KIN_ACC_LIM};
use crate::radar::config::{RadarConfig, TICK_LENGTH};

verus! {

/// Beam width of a tracking sweep: one sixty-fourth of a turn.
pub const STANDARD_TRACK_WIDTH: i64 = 64;

/// The tracking job; it keeps no state of its own, the tracked contact
/// carries the history.
#[derive(Clone, Copy, Debug, PartialEq, Eq, Structural)]
pub struct TrackingRadar {
}

/// The sweep a tracking job asks for against `target` at `now`, seen
/// from a vessel with the given kinematics: aim at the target's
/// one-tick-ahead drifted fix, narrow beam, range window on the
/// predicted region, all from the vessel's own one-tick-ahead position.
pub open spec fn spec_track_config(
    target: TrackedContact,
    epos: Point,
    evel: crate::geometry::Vector,
    eacc: crate::geometry::Vector,
    now: int,
    r: RadarConfig,
) -> bool {
    let area = target.spec_area_after(target.spec_elapsed_tick(now));
    let ahead = (Point {
        x: crate::kinematics::spec_projected_x(
            epos.x as int,
            evel.x as int,
            eacc.x as int,
            TICK_LENGTH as int,
        ) as i64,
        y: crate::kinematics::spec_projected_y(
            epos.y as int,
            evel.y as int,
            eacc.y as int,
            TICK_LENGTH as int,
        ) as i64,
    });
    let predicted = (Point {
        x: (target.spec_last().position.x + crate::fixed::mulf(
            target.spec_last().velocity.x as int,
            TICK_LENGTH as int,
        )) as i64,
        y: (target.spec_last().position.y + crate::fixed::mulf(
            target.spec_last().velocity.y as int,
            TICK_LENGTH as int,
        )) as i64,
    });
    &&& r.width == STANDARD_TRACK_WIDTH
    &&& r.min_distance == area.spec_min_distance_to(ahead)
    &&& r.max_distance == area.spec_max_distance_to(ahead)
    &&& r.heading == crate::trig::spec_atan2(predicted.y - ahead.y, predicted.x - ahead.x)
}

impl TrackingRadar {
    /// A fresh tracking job.
    pub fn new() -> (r: TrackingRadar) {
        TrackingRadar {  }
    }

    /// Feed one sweep's outcome to the followed contact: a hit extends
    /// its history, a miss loses it.
    pub fn scan(&mut self, emitter: &Emitter, target: TrackedContact, scan: Option<ScanData>,
        now: i64) -> (r: Option<TrackedContact>)
        requires
            target.wf(),
            emitter.position.in_range(crate::contacts::scan::SCAN_POS_LIM as int),
            match scan {
                Some(s) => s.wf(),
                None => true,
            },
            target.spec_last().time < now <= CONTACT_TIME_LIM,
        ensures
            match scan {
                Some(s) => match r {
                    Some(t) => t.wf() && spec_updated(target, *emitter, s, now, t),
                    None => false,
                },
                None => r is None,
            },
    {
        match scan {
            Some(s) => {
                let mut updated = target;
                updated.update(emitter, &s, now);
                Some(updated)
            },
            None => None,
        }
    }

    /// Decide the next sweep: aim at the bearing to the contact's
    /// predicted one-tick-ahead position (its newest fix drifted by the
    /// reported velocity, as the region projection drifts), narrow the
    /// beam, and window the range to the predicted region's near and
    /// far edges.  Both the bearing and the window are measured from
    /// where this vessel will be next tick, when the settings take
    /// effect.
    pub fn adjust<T: Acceleration>(&self, emitter: &T, target: &TrackedContact, now: i64) -> (r:
        RadarConfig)
        requires
            target.wf(),
            emitter.valid(),
            emitter.spec_position().in_range(crate::contacts::scan::SCAN_POS_LIM as int),
            emitter.spec_velocity().in_range(crate::contacts::scan::SCAN_VEL_LIM as int),
            emitter.spec_acceleration().in_range(KIN_ACC_LIM as int),
            target.spec_last().time <= now <= CONTACT_TIME_LIM,
            0 <= target.spec_last().time,
        ensures
            spec_track_config(
                *target,
                emitter.spec_position(),
                emitter.spec_velocity(),
                emitter.spec_acceleration(),
                now as int,
                r,
            ),
    {
        let elapsed = target.elapsed_tick(now);
        let area = target.get_area_after(elapsed);
        let ahead = position_after(emitter, TICK_LENGTH);
        proof {
            assert(crate::fixed::mulf(TICK_LENGTH as int, TICK_LENGTH as int) == 0) by {
                assert(256int / 1000 == 0);
            }
            assert(crate::fixed::tdiv(
                crate::fixed::mulf(TICK_LENGTH as int, TICK_LENGTH as int),
                2,
            ) == 0) by {
                assert(0int / 2 == 0);
            }
            crate::fixed::lemma_mulf_fits(
                emitter.spec_velocity().x as int,
                TICK_LENGTH as int,
                crate::contacts::scan::SCAN_VEL_LIM as int,
                16,
            );
            crate::fixed::lemma_mulf_fits(
                emitter.spec_velocity().y as int,
                TICK_LENGTH as int,
                crate::contacts::scan::SCAN_VEL_LIM as int,
                16,
            );
            crate::fixed::lemma_mulf_fits(
                emitter.spec_acceleration().x as int,
                crate::fixed::tdiv(crate::fixed::mulf(TICK_LENGTH as int, TICK_LENGTH as int), 2),
                KIN_ACC_LIM as int,
                1,
            );
            crate::fixed::lemma_mulf_fits(
                emitter.spec_acceleration().y as int,
                crate::fixed::tdiv(crate::fixed::mulf(TICK_LENGTH as int, TICK_LENGTH as int), 2),
                KIN_ACC_LIM as int,
                1,
            );
            assert(ahead.in_range(crate::geometry::COORD_LIM as int));
        }
        let (min, max) = area.minmax_distance_to(&ahead);
        let last = target.samples.len() - 1;
        proof {
            crate::fixed::lemma_mulf_fits(
                target.spec_last().velocity.x as int,
                TICK_LENGTH as int,
                crate::contacts::scan::SCAN_VEL_LIM as int,
                16,
            );
            crate::fixed::lemma_mulf_fits(
                target.spec_last().velocity.y as int,
                TICK_LENGTH as int,
                crate::contacts::scan::SCAN_VEL_LIM as int,
                16,
            );
        }
        let predicted = target.samples[last].position.translated_by(
            &target.samples[last].velocity.scaled(TICK_LENGTH),
        );
        let heading = ahead.bearing_to(&predicted);
        RadarConfig { heading, width: STANDARD_TRACK_WIDTH, min_distance: min, max_distance: max }
    }
}

} // verus!
