//! A multi-sample, high-confidence contact: a bounded sliding window of
//! observations with a derived acceleration.

use vstd::prelude::*;

use crate::contacts::area;
use crate::contacts::emitter::Emitter;
use crate::contacts::error::RadarContactError;
use crate::contacts::interface::{RadarContact, TrackedRadarContact, CONTACT_TIME_LIM};
use crate::contacts::scan::{ScanData, SCAN_POS_LIM, SCAN_VEL_LIM};
use crate::contacts::search::{spec_contact_area, SearchContact};
use crate::ellipse::Ellipse;
use crate::fixed::{abs_i, div_fp, div_trunc, divf, tdiv};
use crate::geometry::{Point, Vector};
use crate::kinematics::{Acceleration, Position, Velocity};
use crate::ship_stats::Class;

verus! {

/// Capacity of the sliding sample window.
pub const MAX_DATA_POINTS: usize = 9;

/// One observation in a tracked contact's history.
#[derive(Clone, Copy, Debug, PartialEq, Eq, Structural)]
pub struct TrackSample {
    /// The sensor state at the scan.
    pub emitter: Emitter,
    /// When the scan was taken.
    pub time: i64,
    /// Reported position.
    pub position: Point,
    /// Reported velocity.
    pub velocity: Vector,
    /// Received signal strength.
    pub rssi: i64,
    /// Signal-to-noise ratio.
    pub snr: i64,
    /// Error bounds derived from the signal quality.
    pub error: RadarContactError,
}

impl TrackSample {
    /// The ranges the tracked-contact queries rely on.
    pub open spec fn wf(self) -> bool {
        &&& self.position.in_range(SCAN_POS_LIM as int)
        &&& self.velocity.in_range(SCAN_VEL_LIM as int)
        &&& self.emitter.position.in_range(SCAN_POS_LIM as int)
        &&& self.error.wf()
        &&& 0 <= self.time <= CONTACT_TIME_LIM
    }
}

/// Sum over consecutive sample pairs of the velocity change divided by
/// the time change: the horizontal part.
pub open spec fn spec_accel_sum_x(s: Seq<TrackSample>) -> int
    decreases s.len(),
{
    if s.len() <= 1 {
        0
    } else {
        divf(s[0].velocity.x - s[1].velocity.x, s[0].time - s[1].time) + spec_accel_sum_x(
            s.drop_first(),
        )
    }
}

/// See [`spec_accel_sum_x`].
pub open spec fn spec_accel_sum_y(s: Seq<TrackSample>) -> int
    decreases s.len(),
{
    if s.len() <= 1 {
        0
    } else {
        divf(s[0].velocity.y - s[1].velocity.y, s[0].time - s[1].time) + spec_accel_sum_y(
            s.drop_first(),
        )
    }
}

/// What one update leaves of a tracked contact: the oldest sample
/// evicted once the window is full, the new observation appended, and
/// the acceleration refreshed as the mean finite-difference of velocity
/// over time.
pub open spec fn spec_updated(
    t0: TrackedContact,
    emitter: Emitter,
    s: ScanData,
    now: i64,
    t2: TrackedContact,
) -> bool {
    &&& t2.class == t0.class
    &&& t2.samples@ == (if t0.samples@.len() == MAX_DATA_POINTS {
        t0.samples@.drop_first()
    } else {
        t0.samples@
    }).push(
        (TrackSample {
            emitter,
            time: now,
            position: s.position,
            velocity: s.velocity,
            rssi: s.rssi,
            snr: s.snr,
            error: RadarContactError::from_scan_spec(s.snr as int),
        }),
    )
    &&& t2.acceleration.x == crate::fixed::tdiv(
        spec_accel_sum_x(t2.samples@),
        t2.samples@.len() - 1,
    )
    &&& t2.acceleration.y == crate::fixed::tdiv(
        spec_accel_sum_y(t2.samples@),
        t2.samples@.len() - 1,
    )
}

/// What promotion builds from a search contact: a one-sample history
/// carrying the observation unchanged, with no acceleration yet.
pub open spec fn spec_promotion(sc: SearchContact, t: TrackedContact) -> bool {
    &&& t.class == sc.class
    &&& t.samples@ == seq![
        (TrackSample {
            emitter: sc.emitter,
            time: sc.time,
            position: sc.position,
            velocity: sc.velocity,
            rssi: sc.rssi,
            snr: sc.snr,
            error: sc.error,
        }),
    ]
    &&& t.acceleration == (Vector { x: 0, y: 0 })
}

/// What demotion keeps of a tracked contact: its newest observation as
/// a plain search contact; the history is lost.
pub open spec fn spec_demotion(t: TrackedContact, sc: SearchContact) -> bool {
    &&& sc.class == t.class
    &&& sc.time == t.spec_last().time
    &&& sc.emitter == t.spec_last().emitter
    &&& sc.position == t.spec_last().position
    &&& sc.velocity == t.spec_last().velocity
    &&& sc.rssi == t.spec_last().rssi
    &&& sc.snr == t.spec_last().snr
    &&& sc.error == t.spec_last().error
}

/// A contact with history: at most [`MAX_DATA_POINTS`] samples, oldest
/// first, never empty, with the mean finite-difference acceleration.
#[derive(Clone, Debug, PartialEq)]
pub struct TrackedContact {
    /// Class of the contact, fixed at first detection.
    pub class: Class,
    /// The sliding window of samples, oldest first.
    pub samples: Vec<TrackSample>,
    /// Mean finite-difference acceleration over the window.
    pub acceleration: Vector,
}

impl TrackedContact {
    /// The structural invariant: a nonempty bounded window of in-range
    /// samples at strictly increasing times.
    pub open spec fn wf(self) -> bool {
        &&& 1 <= self.samples@.len() <= MAX_DATA_POINTS
        &&& forall|i: int| 0 <= i < self.samples@.len() ==> (#[trigger] self.samples@[i]).wf()
        &&& forall|i: int, j: int|
            0 <= i < j < self.samples@.len() ==> self.samples@[i].time < self.samples@[j].time
        &&& crate::ship_stats::has_max_acceleration(self.class)
        &&& self.acceleration.in_range(16_000_000_000int)
    }

    /// The newest sample.
    pub open spec fn spec_last(self) -> TrackSample {
        self.samples@[self.samples@.len() - 1]
    }

    /// Start tracking from one scan.
    pub fn new(scan: &ScanData, scan_emitter: &Emitter, time: i64) -> (c: TrackedContact)
        ensures
            c.class == scan.class,
            c.samples@.len() == 1,
            c.samples@[0].emitter == *scan_emitter,
            c.samples@[0].time == time,
            c.samples@[0].position == scan.position,
            c.samples@[0].velocity == scan.velocity,
            c.samples@[0].rssi == scan.rssi,
            c.samples@[0].snr == scan.snr,
            c.samples@[0].error == RadarContactError::from_scan_spec(scan.snr as int),
            c.acceleration == (Vector { x: 0, y: 0 }),
    {
        let sample = TrackSample {
            emitter: *scan_emitter,
            time,
            position: scan.position,
            velocity: scan.velocity,
            rssi: scan.rssi,
            snr: scan.snr,
            error: RadarContactError::from_scan(scan),
        };
        let mut samples: Vec<TrackSample> = Vec::new();
        samples.push(sample);
        TrackedContact { class: scan.class, samples, acceleration: Vector { x: 0, y: 0 } }
    }

    /// Promote a search contact: its single observation seeds the
    /// window, its history is yet to come.
    pub fn from_search(contact: &SearchContact) -> (c: TrackedContact)
        ensures
            c.class == contact.class,
            c.samples@.len() == 1,
            c.samples@[0].emitter == contact.emitter,
            c.samples@[0].time == contact.time,
            c.samples@[0].position == contact.position,
            c.samples@[0].velocity == contact.velocity,
            c.samples@[0].rssi == contact.rssi,
            c.samples@[0].snr == contact.snr,
            c.samples@[0].error == contact.error,
            c.acceleration == (Vector { x: 0, y: 0 }),
            spec_promotion(*contact, c),
            contact.wf() ==> c.wf(),
    {
        let sample = TrackSample {
            emitter: contact.emitter,
            time: contact.time,
            position: contact.position,
            velocity: contact.velocity,
            rssi: contact.rssi,
            snr: contact.snr,
            error: contact.error,
        };
        let mut samples: Vec<TrackSample> = Vec::new();
        samples.push(sample);
        TrackedContact { class: contact.class, samples, acceleration: Vector { x: 0, y: 0 } }
    }

    /// Record a fresh scan: evict the oldest sample once the window is
    /// full, append the new one, and refresh the derived acceleration as
    /// the mean finite-difference of velocity over time.  The window
    /// never exceeds its capacity.
    pub fn update(&mut self, emitter: &Emitter, scan: &ScanData, now: i64)
        requires
            old(self).wf(),
            scan.wf(),
            emitter.position.in_range(SCAN_POS_LIM as int),
            old(self).spec_last().time < now <= CONTACT_TIME_LIM,
        ensures
            final(self).class == old(self).class,
            final(self).samples@ == (if old(self).samples@.len() == MAX_DATA_POINTS {
                old(self).samples@.drop_first()
            } else {
                old(self).samples@
            }).push(
                (TrackSample {
                    emitter: *emitter,
                    time: now,
                    position: scan.position,
                    velocity: scan.velocity,
                    rssi: scan.rssi,
                    snr: scan.snr,
                    error: RadarContactError::from_scan_spec(scan.snr as int),
                }),
            ),
            final(self).samples@.len() <= MAX_DATA_POINTS,
            spec_updated(*old(self), *emitter, *scan, now, *final(self)),
            final(self).acceleration.x == tdiv(
                spec_accel_sum_x(final(self).samples@),
                final(self).samples@.len() - 1,
            ),
            final(self).acceleration.y == tdiv(
                spec_accel_sum_y(final(self).samples@),
                final(self).samples@.len() - 1,
            ),
            final(self).wf(),
    {
        if self.samples.len() == MAX_DATA_POINTS {
            self.samples.remove(0);
        }
        let sample = TrackSample {
            emitter: *emitter,
            time: now,
            position: scan.position,
            velocity: scan.velocity,
            rssi: scan.rssi,
            snr: scan.snr,
            error: RadarContactError::from_scan(scan),
        };
        self.samples.push(sample);
        let n = self.samples.len();
        let ghost s = self.samples@;
        let mut sum_x: i64 = 0;
        let mut sum_y: i64 = 0;
        let mut i: usize = n - 1;
        proof {
            assert(s.skip(n - 1).len() == 1);
        }
        while i > 0
            invariant
                1 <= n == s.len() <= MAX_DATA_POINTS,
                s == self.samples@,
                0 <= i < n,
                forall|k: int| 0 <= k < s.len() ==> (#[trigger] s[k]).wf(),
                forall|k: int, j: int| 0 <= k < j < s.len() ==> s[k].time < s[j].time,
                sum_x == spec_accel_sum_x(s.skip(i as int)),
                sum_y == spec_accel_sum_y(s.skip(i as int)),
                abs_i(sum_x as int) <= 2_000_000_000 * (n - 1 - i),
                abs_i(sum_y as int) <= 2_000_000_000 * (n - 1 - i),
            decreases i,
        {
            i = i - 1;
            let a = self.samples[i];
            let b = self.samples[i + 1];
            proof {
                assert(s[i as int].time < s[i as int + 1].time);
                crate::fixed::lemma_tdiv_shrinks(
                    (a.velocity.x - b.velocity.x) * 1000,
                    a.time - b.time,
                );
                crate::fixed::lemma_tdiv_shrinks(
                    (a.velocity.y - b.velocity.y) * 1000,
                    a.time - b.time,
                );
                crate::fixed::lemma_abs_mul(a.velocity.x - b.velocity.x, 1000);
                crate::fixed::lemma_abs_mul(a.velocity.y - b.velocity.y, 1000);
            }
            let dx = div_fp(a.velocity.x - b.velocity.x, a.time - b.time);
            let dy = div_fp(a.velocity.y - b.velocity.y, a.time - b.time);
            sum_x = sum_x + dx;
            sum_y = sum_y + dy;
            proof {
                assert(s.skip(i as int).drop_first() =~= s.skip(i as int + 1));
                assert(s.skip(i as int)[0] == s[i as int]);
                assert(s.skip(i as int)[1] == s[i as int + 1]);
            }
        }
        let count = n as i64 - 1;
        proof {
            assert(s.skip(0) =~= s);
            assert(count >= 1);
            crate::fixed::lemma_tdiv_shrinks(sum_x as int, count as int);
            crate::fixed::lemma_tdiv_shrinks(sum_y as int, count as int);
        }
        self.acceleration = Vector { x: div_trunc(sum_x, count), y: div_trunc(sum_y, count) };
    }

    /// The detection ellipse of the newest sample.
    pub fn get_initial_area(&self) -> (e: Ellipse)
        requires
            self.wf(),
        ensures
            e.centre == self.spec_last().position,
            e.orientation == area::spec_initial_orientation(
                self.spec_last().position.x as int,
                self.spec_last().position.y as int,
                self.spec_last().emitter.position.x as int,
                self.spec_last().emitter.position.y as int,
                self.spec_last().error.bearing as int,
                self.spec_last().error.distance as int,
            ),
            e.width == area::spec_initial_width(
                self.spec_last().position.x as int,
                self.spec_last().position.y as int,
                self.spec_last().emitter.position.x as int,
                self.spec_last().emitter.position.y as int,
                self.spec_last().error.bearing as int,
                self.spec_last().error.distance as int,
            ),
            e.height == area::spec_initial_height(
                self.spec_last().position.x as int,
                self.spec_last().position.y as int,
                self.spec_last().emitter.position.x as int,
                self.spec_last().emitter.position.y as int,
                self.spec_last().error.bearing as int,
                self.spec_last().error.distance as int,
            ),
    {
        let last = self.samples.len() - 1;
        area::initial_area(
            &self.samples[last].position,
            &self.samples[last].emitter.position,
            &self.samples[last].error,
        )
    }

    /// The uncertainty region `time` seconds after the newest sample.
    pub fn get_area_after(&self, time: i64) -> (e: Ellipse)
        requires
            self.wf(),
            0 <= time <= area::AREA_TIME_LIM,
        ensures
            e == self.spec_area_after(time as int),
            e.wf(),
    {
        proof {
            reveal(crate::contacts::search::spec_contact_area);
        }
        let last = self.samples.len() - 1;
        area::area_after(
            &self.samples[last].position,
            &self.samples[last].velocity,
            &self.samples[last].error,
            self.class,
            &self.samples[last].emitter.position,
            time,
        )
    }

    /// The elapsed time one tick ahead of `now`, saturated at the
    /// projection window.
    pub open spec fn spec_elapsed_tick(self, now: int) -> int {
        if now - self.spec_last().time + crate::radar::config::TICK_LENGTH
            > area::AREA_TIME_LIM {
            area::AREA_TIME_LIM as int
        } else {
            now - self.spec_last().time + crate::radar::config::TICK_LENGTH
        }
    }

    /// Seconds from the newest sample to one tick past `now`, saturated
    /// at the projection window.
    pub fn elapsed_tick(&self, now: i64) -> (r: i64)
        requires
            self.wf(),
            self.spec_last().time <= now <= CONTACT_TIME_LIM,
            0 <= self.spec_last().time,
        ensures
            r == self.spec_elapsed_tick(now as int),
            0 <= r <= area::AREA_TIME_LIM,
    {
        let e = now - self.samples[self.samples.len() - 1].time
            + crate::radar::config::TICK_LENGTH;
        if e > area::AREA_TIME_LIM {
            area::AREA_TIME_LIM
        } else {
            e
        }
    }

    /// The uncertainty region `t` seconds after the newest sample, as
    /// the contracts see it.
    pub open spec fn spec_area_after(self, t: int) -> Ellipse {
        spec_contact_area(
            self.spec_last().position,
            self.spec_last().velocity,
            self.spec_last().error,
            self.class,
            self.spec_last().emitter.position,
            t,
        )
    }
}

impl Position for TrackedContact {
    open spec fn valid(&self) -> bool {
        self.wf()
    }

    open spec fn spec_position(&self) -> Point {
        self.spec_last().position
    }

    fn position(&self) -> (p: Point) {
        self.samples[self.samples.len() - 1].position
    }
}

impl Velocity for TrackedContact {
    open spec fn spec_velocity(&self) -> Vector {
        self.spec_last().velocity
    }

    fn velocity(&self) -> (v: Vector) {
        self.samples[self.samples.len() - 1].velocity
    }
}

impl Acceleration for TrackedContact {
    open spec fn spec_acceleration(&self) -> Vector {
        self.acceleration
    }

    fn acceleration(&self) -> (a: Vector) {
        self.acceleration
    }
}

impl RadarContact for TrackedContact {
    open spec fn spec_time(&self) -> i64 {
        self.spec_last().time
    }

    open spec fn spec_class(&self) -> Class {
        self.class
    }

    fn time(&self) -> (t: i64) {
        self.samples[self.samples.len() - 1].time
    }

    fn class(&self) -> (c: Class) {
        self.class
    }

    fn time_elapsed(&self, now: i64) -> (t: i64) {
        now - self.samples[self.samples.len() - 1].time
    }
}

impl TrackedRadarContact for TrackedContact {

}

} // verus!
