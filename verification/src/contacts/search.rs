//! A single-sample, low-confidence contact.

use vstd::prelude::*;

use crate::contacts::area;
use crate::contacts::emitter::Emitter;
use crate::contacts::error::RadarContactError;
use crate::contacts::interface::{RadarContact, CONTACT_TIME_LIM};
use crate::contacts::scan::{ScanData, SCAN_POS_LIM, SCAN_VEL_LIM};
use crate::ellipse::Ellipse;
use crate::geometry::{Point, Vector};
use crate::kinematics::{Position, Velocity};
use crate::ship_stats::Class;

verus! {

/// One observation from a search sweep; immutable once captured.
#[derive(Clone, Copy, Debug, PartialEq, Eq, Structural)]
pub struct SearchContact {
    /// When the scan was taken.
    pub time: i64,
    /// The sensor state at that moment.
    pub emitter: Emitter,
    /// Reported class.
    pub class: Class,
    /// Reported position.
    pub position: Point,
    /// Reported velocity.
    pub velocity: Vector,
    /// Received signal strength.
    pub rssi: i64,
    /// Signal-to-noise ratio.
    pub snr: i64,
    /// Error bounds derived from the signal quality.
    pub error: RadarContactError,
}

impl SearchContact {
    /// The contact one scan produces, as the contracts see it.
    pub open spec fn new_spec(time: i64, emitter: Emitter, scan: ScanData) -> SearchContact {
        SearchContact {
            time,
            emitter,
            class: scan.class,
            position: scan.position,
            velocity: scan.velocity,
            rssi: scan.rssi,
            snr: scan.snr,
            error: RadarContactError::from_scan_spec(scan.snr as int),
        }
    }

    /// The ranges every query on a search contact relies on.
    pub open spec fn wf(self) -> bool {
        &&& self.position.in_range(SCAN_POS_LIM as int)
        &&& self.velocity.in_range(SCAN_VEL_LIM as int)
        &&& self.emitter.position.in_range(SCAN_POS_LIM as int)
        &&& self.error.wf()
        &&& crate::ship_stats::has_max_acceleration(self.class)
        &&& 0 <= self.time <= CONTACT_TIME_LIM
    }

    /// Capture a search contact from one scan.
    pub fn new(time: i64, emitter: &Emitter, scan: &ScanData) -> (c: SearchContact)
        ensures
            c.time == time,
            c.emitter == *emitter,
            c.class == scan.class,
            c.position == scan.position,
            c.velocity == scan.velocity,
            c.rssi == scan.rssi,
            c.snr == scan.snr,
            c.error == RadarContactError::from_scan_spec(scan.snr as int),
            c == Self::new_spec(time, *emitter, *scan),
            scan.wf() && emitter.position.in_range(SCAN_POS_LIM as int) && 0 <= time
                <= CONTACT_TIME_LIM ==> c.wf(),
    {
        SearchContact {
            time,
            emitter: *emitter,
            class: scan.class,
            position: scan.position,
            velocity: scan.velocity,
            rssi: scan.rssi,
            snr: scan.snr,
            error: RadarContactError::from_scan(scan),
        }
    }

    /// Demote a tracked contact: keep its newest observation as a plain
    /// search record and lose the history.
    pub fn from_tracked(contact: &crate::contacts::track::TrackedContact) -> (c: SearchContact)
        requires
            contact.wf(),
        ensures
            crate::contacts::track::spec_demotion(*contact, c),
            c.wf(),
    {
        let last = contact.samples.len() - 1;
        SearchContact {
            time: contact.samples[last].time,
            emitter: contact.samples[last].emitter,
            class: contact.class,
            position: contact.samples[last].position,
            velocity: contact.samples[last].velocity,
            rssi: contact.samples[last].rssi,
            snr: contact.samples[last].snr,
            error: contact.samples[last].error,
        }
    }

    /// The detection ellipse at capture time.
    pub fn get_initial_area(&self) -> (e: Ellipse)
        requires
            self.wf(),
        ensures
            e.centre == self.position,
            e.orientation == area::spec_initial_orientation(
                self.position.x as int,
                self.position.y as int,
                self.emitter.position.x as int,
                self.emitter.position.y as int,
                self.error.bearing as int,
                self.error.distance as int,
            ),
            e.width == area::spec_initial_width(
                self.position.x as int,
                self.position.y as int,
                self.emitter.position.x as int,
                self.emitter.position.y as int,
                self.error.bearing as int,
                self.error.distance as int,
            ),
            e.height == area::spec_initial_height(
                self.position.x as int,
                self.position.y as int,
                self.emitter.position.x as int,
                self.emitter.position.y as int,
                self.error.bearing as int,
                self.error.distance as int,
            ),
    {
        area::initial_area(&self.position, &self.emitter.position, &self.error)
    }

    /// The uncertainty region `time` seconds after capture.
    pub fn get_area_after(&self, time: i64) -> (e: Ellipse)
        requires
            self.wf(),
            0 <= time <= area::AREA_TIME_LIM,
        ensures
            e == self.spec_area_after(time as int),
            e.wf(),
    {
        proof {
            reveal(spec_contact_area);
        }
        area::area_after(
            &self.position,
            &self.velocity,
            &self.error,
            self.class,
            &self.emitter.position,
            time,
        )
    }

    /// The elapsed time one tick ahead of `now`, saturated at the
    /// projection window.
    pub open spec fn spec_elapsed_tick(self, now: int) -> int {
        if now - self.time + crate::radar::config::TICK_LENGTH > area::AREA_TIME_LIM {
            area::AREA_TIME_LIM as int
        } else {
            now - self.time + crate::radar::config::TICK_LENGTH
        }
    }

    /// Seconds from the capture to one tick past `now`, saturated at the
    /// projection window.
    pub fn elapsed_tick(&self, now: i64) -> (r: i64)
        requires
            self.wf(),
            self.time <= now <= CONTACT_TIME_LIM,
        ensures
            r == self.spec_elapsed_tick(now as int),
            0 <= r <= area::AREA_TIME_LIM,
    {
        let e = now - self.time + crate::radar::config::TICK_LENGTH;
        if e > area::AREA_TIME_LIM {
            area::AREA_TIME_LIM
        } else {
            e
        }
    }

    /// The uncertainty region `t` seconds after capture, as the
    /// contracts see it.
    pub open spec fn spec_area_after(self, t: int) -> Ellipse {
        spec_contact_area(
            self.position,
            self.velocity,
            self.error,
            self.class,
            self.emitter.position,
            t,
        )
    }
}

/// The uncertainty region of any contact sample, field by field.
#[verifier::opaque]
pub open spec fn spec_contact_area(
    position: Point,
    velocity: Vector,
    error: RadarContactError,
    class: Class,
    emitter_position: Point,
    t: int,
) -> Ellipse {
    Ellipse {
        centre: Point {
            x: area::spec_area_centre_x(position.x as int, velocity.x as int, t) as i64,
            y: area::spec_area_centre_y(position.y as int, velocity.y as int, t) as i64,
        },
        orientation: area::spec_initial_orientation(
            position.x as int,
            position.y as int,
            emitter_position.x as int,
            emitter_position.y as int,
            error.bearing as int,
            error.distance as int,
        ) as i64,
        width: (area::spec_initial_width(
            position.x as int,
            position.y as int,
            emitter_position.x as int,
            emitter_position.y as int,
            error.bearing as int,
            error.distance as int,
        ) + 2 * area::spec_area_expand(error.velocity as int, class, t)) as i64,
        height: (area::spec_initial_height(
            position.x as int,
            position.y as int,
            emitter_position.x as int,
            emitter_position.y as int,
            error.bearing as int,
            error.distance as int,
        ) + 2 * area::spec_area_expand(error.velocity as int, class, t)) as i64,
    }
}

impl Position for SearchContact {
    open spec fn valid(&self) -> bool {
        true
    }

    open spec fn spec_position(&self) -> Point {
        self.position
    }

    fn position(&self) -> (p: Point) {
        self.position
    }
}

impl Velocity for SearchContact {
    open spec fn spec_velocity(&self) -> Vector {
        self.velocity
    }

    fn velocity(&self) -> (v: Vector) {
        self.velocity
    }
}

impl RadarContact for SearchContact {
    open spec fn spec_time(&self) -> i64 {
        self.time
    }

    open spec fn spec_class(&self) -> Class {
        self.class
    }

    fn time(&self) -> (t: i64) {
        self.time
    }

    fn class(&self) -> (c: Class) {
        self.class
    }

    fn time_elapsed(&self, now: i64) -> (t: i64) {
        now - self.time
    }
}

} // verus!
