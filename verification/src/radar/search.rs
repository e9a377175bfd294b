//! The wide raster sweep that discovers new contacts.

use vstd::prelude::*;

use crate::contacts::emitter::Emitter;
use crate::contacts::interface::CONTACT_TIME_LIM;
use crate::contacts::scan::ScanData;
use crate::contacts::search::SearchContact;
use crate::kinematics::{position_after, Acceleration, KIN_ACC_LIM};
use crate::geometry::Point;
use crate::radar::config::{RadarConfig, MAX_RADAR_RANGE, TICK_LENGTH};

verus! {

/// The search job's state: where the last sweep pointed and what, if
/// anything, it found.
#[derive(Clone, Debug, PartialEq)]
pub struct ScanningRadar {
    /// Beam heading of the previous sweep.
    pub last_heading: i64,
    /// The contact the previous sweep returned, if any.
    pub last_contact: Option<SearchContact>,
}

/// Beam width of a search sweep: one sixteenth of a turn.
pub const STANDARD_SEARCH_WIDTH: i64 = 256;

/// The sweep a search job in state `sr` asks for at `now`, seen from a
/// vessel with the given kinematics: the raster-or-look-behind rule of
/// the search policy.
pub open spec fn spec_search_config(
    sr: ScanningRadar,
    epos: Point,
    evel: crate::geometry::Vector,
    eacc: crate::geometry::Vector,
    now: int,
    r: RadarConfig,
) -> bool {
    &&& r.width == STANDARD_SEARCH_WIDTH
    &&& r.max_distance == MAX_RADAR_RANGE
    &&& match sr.last_contact {
        Some(c) => r.heading == sr.last_heading && r.min_distance == c.spec_area_after(
            c.spec_elapsed_tick(now),
        ).spec_max_distance_to(
            (Point {
                x: crate::kinematics::spec_projected_x(
                    epos.x as int,
                    evel.x as int,
                    eacc.x as int,
                    TICK_LENGTH as int,
                ) as i64,
                y: crate::kinematics::spec_projected_y(
                    epos.y as int,
                    evel.y as int,
                    eacc.y as int,
                    TICK_LENGTH as int,
                ) as i64,
            }),
        ),
        None => r.heading == sr.last_heading + STANDARD_SEARCH_WIDTH && r.min_distance == 0,
    }
}

impl ScanningRadar {
    /// The state invariant: a bounded heading and a well-formed
    /// remembered contact.
    pub open spec fn wf(self) -> bool {
        &&& -100_000_000_000 <= self.last_heading <= 100_000_000_000
        &&& match self.last_contact {
            Some(c) => c.wf(),
            None => true,
        }
    }

    /// A fresh search job, looking along the x axis.
    pub fn new() -> (r: ScanningRadar)
        ensures
            r.last_heading == 0,
            r.last_contact is None,
            r.wf(),
    {
        ScanningRadar { last_heading: 0, last_contact: None }
    }

    /// Take in one sweep's outcome: wrap any return into a search
    /// contact, and remember the beam heading and the find for the next
    /// adjustment.
    pub fn scan(&mut self, emitter: &Emitter, scan: Option<ScanData>, now: i64) -> (r: Option<
        SearchContact,
    >)
        requires
            old(self).wf(),
            emitter.wf(),
            match scan {
                Some(s) => s.wf(),
                None => true,
            },
            0 <= now <= CONTACT_TIME_LIM,
        ensures
            match scan {
                Some(s) => r == Some(SearchContact::new_spec(now, *emitter, s)) && final(self).last_contact == r,
                None => r is None && final(self).last_contact is None,
            },
            final(self).last_heading == emitter.heading,
            final(self).wf(),
            match r {
                Some(c) => c.wf(),
                None => true,
            },
    {
        let contact = match scan {
            Some(s) => Some(SearchContact::new(now, emitter, &s)),
            None => None,
        };
        self.last_heading = emitter.heading;
        self.last_contact = contact;
        contact
    }

    /// Decide the next sweep: if the last one found something, look
    /// behind it at the same heading; otherwise raster on by one beam
    /// width and reset the range window.
    pub fn adjust<T: Acceleration>(&self, emitter: &T, now: i64) -> (r: RadarConfig)
        requires
            self.wf(),
            emitter.valid(),
            emitter.spec_position().in_range(crate::contacts::scan::SCAN_POS_LIM as int),
            emitter.spec_velocity().in_range(crate::contacts::scan::SCAN_VEL_LIM as int),
            emitter.spec_acceleration().in_range(KIN_ACC_LIM as int),
            0 <= now <= CONTACT_TIME_LIM,
            match self.last_contact {
                Some(c) => c.time <= now,
                None => true,
            },
        ensures
            spec_search_config(
                *self,
                emitter.spec_position(),
                emitter.spec_velocity(),
                emitter.spec_acceleration(),
                now as int,
                r,
            ),
    {
        match &self.last_contact {
            Some(contact) => {
                let elapsed = contact.elapsed_tick(now);
                let area = contact.get_area_after(elapsed);
                let ahead = position_after(emitter, TICK_LENGTH);
                proof {
                    assert(crate::fixed::mulf(TICK_LENGTH as int, TICK_LENGTH as int) == 0)
                        by {
                        assert(256int / 1000 == 0);
                    }
                    assert(crate::fixed::tdiv(
                        crate::fixed::mulf(TICK_LENGTH as int, TICK_LENGTH as int),
                        2,
                    ) == 0) by {
                        assert(0int / 2 == 0);
                    }
                    crate::fixed::lemma_mulf_fits(
                        emitter.spec_velocity().x as int,
                        TICK_LENGTH as int,
                        crate::contacts::scan::SCAN_VEL_LIM as int,
                        16,
                    );
                    crate::fixed::lemma_mulf_fits(
                        emitter.spec_velocity().y as int,
                        TICK_LENGTH as int,
                        crate::contacts::scan::SCAN_VEL_LIM as int,
                        16,
                    );
                    crate::fixed::lemma_mulf_fits(
                        emitter.spec_acceleration().x as int,
                        crate::fixed::tdiv(
                            crate::fixed::mulf(TICK_LENGTH as int, TICK_LENGTH as int),
                            2,
                        ),
                        KIN_ACC_LIM as int,
                        1,
                    );
                    crate::fixed::lemma_mulf_fits(
                        emitter.spec_acceleration().y as int,
                        crate::fixed::tdiv(
                            crate::fixed::mulf(TICK_LENGTH as int, TICK_LENGTH as int),
                            2,
                        ),
                        KIN_ACC_LIM as int,
                        1,
                    );
                    assert(ahead.in_range(crate::geometry::COORD_LIM as int));
                }
                let furthest = area.max_distance_to(&ahead);
                RadarConfig {
                    heading: self.last_heading,
                    width: STANDARD_SEARCH_WIDTH,
                    min_distance: furthest,
                    max_distance: MAX_RADAR_RANGE,
                }
            },
            None => RadarConfig {
                heading: self.last_heading + STANDARD_SEARCH_WIDTH,
                width: STANDARD_SEARCH_WIDTH,
                min_distance: 0,
                max_distance: MAX_RADAR_RANGE,
            },
        }
    }
}

} // verus!
