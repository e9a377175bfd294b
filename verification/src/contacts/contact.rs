//! The sum type over search and tracked contacts.

use vstd::prelude::*;

use crate::contacts::area;
use crate::contacts::interface::{RadarContact, CONTACT_TIME_LIM};
use crate::contacts::search::SearchContact;
use crate::contacts::track::TrackedContact;
use crate::ellipse::Ellipse;
use crate::kinematics::Position;
use crate::geometry::Point;

use crate::ship_stats::Class;

verus! {

/// Any detected object: either a low-confidence single observation or a
/// high-confidence tracked history.
#[derive(Clone, Debug, PartialEq)]
pub enum Contact {
    /// A single-sample observation.
    Search(SearchContact),
    /// A multi-sample tracked contact.
    Track(TrackedContact),
}

impl Contact {
    /// The structural invariant of whichever variant this is.
    pub open spec fn wf(self) -> bool {
        match self {
            Contact::Search(c) => c.wf(),
            Contact::Track(c) => c.wf(),
        }
    }

    /// The class tag, as the contracts see it.
    pub open spec fn spec_class(self) -> Class {
        match self {
            Contact::Search(c) => c.class,
            Contact::Track(c) => c.class,
        }
    }

    /// The capture time of the newest observation, as the contracts see
    /// it.
    pub open spec fn spec_time(self) -> i64 {
        match self {
            Contact::Search(c) => c.time,
            Contact::Track(c) => c.spec_last().time,
        }
    }

    /// The newest reported position, as the contracts see it.
    pub open spec fn spec_pos(self) -> Point {
        match self {
            Contact::Search(c) => c.position,
            Contact::Track(c) => c.spec_last().position,
        }
    }

    /// The uncertainty region `t` seconds after the newest observation,
    /// as the contracts see it.
    pub open spec fn spec_area_after(self, t: int) -> Ellipse {
        match self {
            Contact::Search(c) => c.spec_area_after(t),
            Contact::Track(c) => c.spec_area_after(t),
        }
    }

    /// Whether this contact is the tracked variant.
    pub fn is_tracked(&self) -> (r: bool)
        ensures
            r == (self is Track),
    {
        match self {
            Contact::Search(..) => false,
            Contact::Track(..) => true,
        }
    }

    /// Whether this contact carries the given class tag.
    pub fn is_class(&self, class: Class) -> (r: bool)
        ensures
            r == (self.spec_class() == class),
    {
        match self {
            Contact::Search(c) => c.class == class,
            Contact::Track(c) => c.class == class,
        }
    }

    /// The class of the contact.
    pub fn class(&self) -> (c: Class)
        ensures
            c == self.spec_class(),
    {
        match self {
            Contact::Search(c) => c.class,
            Contact::Track(c) => c.class,
        }
    }

    /// The capture time of the newest observation.
    pub fn time(&self) -> (t: i64)
        requires
            self.wf(),
        ensures
            t == self.spec_time(),
    {
        match self {
            Contact::Search(c) => c.time,
            Contact::Track(c) => c.time(),
        }
    }

    /// The newest reported position.
    pub fn position(&self) -> (p: Point)
        requires
            self.wf(),
        ensures
            p == self.spec_pos(),
    {
        match self {
            Contact::Search(c) => c.position,
            Contact::Track(c) => c.position(),
        }
    }

    /// Seconds elapsed between the newest observation and `now`.
    pub fn time_elapsed(&self, now: i64) -> (t: i64)
        requires
            self.wf(),
            -CONTACT_TIME_LIM <= now <= CONTACT_TIME_LIM,
        ensures
            t == now - self.spec_time(),
    {
        match self {
            Contact::Search(c) => c.time_elapsed(now),
            Contact::Track(c) => c.time_elapsed(now),
        }
    }

    /// The uncertainty region `time` seconds after the newest
    /// observation.
    pub fn get_area_after(&self, time: i64) -> (e: Ellipse)
        requires
            self.wf(),
            0 <= time <= area::AREA_TIME_LIM,
        ensures
            e == self.spec_area_after(time as int),
            e.wf(),
    {
        match self {
            Contact::Search(c) => c.get_area_after(time),
            Contact::Track(c) => c.get_area_after(time),
        }
    }

    /// The elapsed time the region query uses: seconds since the newest
    /// observation, saturating at the projection window.
    pub open spec fn spec_elapsed_clamped(self, now: int) -> int {
        if now - self.spec_time() > area::AREA_TIME_LIM {
            area::AREA_TIME_LIM as int
        } else {
            now - self.spec_time()
        }
    }

    /// The uncertainty region as it stands at `now`, as the contracts
    /// see it.
    pub open spec fn spec_area_now(self, now: int) -> Ellipse {
        self.spec_area_after(self.spec_elapsed_clamped(now))
    }

    /// The uncertainty region as it stands at `now`.  Growth saturates
    /// once the projection window is exhausted.
    pub fn get_area_now(&self, now: i64) -> (e: Ellipse)
        requires
            self.wf(),
            0 <= self.spec_time() <= now <= CONTACT_TIME_LIM,
        ensures
            e == self.spec_area_now(now as int),
            e.wf(),
    {
        let elapsed = self.time_elapsed(now);
        let elapsed = if elapsed > area::AREA_TIME_LIM {
            area::AREA_TIME_LIM
        } else {
            elapsed
        };
        self.get_area_after(elapsed)
    }
}

} // verus!
