//! A circular region, used for the reachable-position bound of a moving
//! body.

use vstd::prelude::*;

use crate::geometry::{spec_length, Point, COORD_LIM};

verus! {

/// A circle: a centre and a radius.
#[derive(Clone, Copy, Debug, PartialEq, Eq, Structural)]
pub struct Circle {
    /// Centre of the region.
    pub centre: Point,
    /// Radius of the region.
    pub radius: i64,
}

impl Circle {
    /// Make a circle from its centre and radius.
    pub fn new(centre: &Point, radius: i64) -> (c: Circle)
        ensures
            c.centre == *centre,
            c.radius == radius,
    {
        Circle { centre: *centre, radius }
    }

    /// Whether `point` lies strictly inside the region.
    pub fn contains(&self, point: &Point) -> (r: bool)
        requires
            self.centre.in_range(COORD_LIM as int),
            point.in_range(COORD_LIM as int),
        ensures
            r == (spec_length(self.centre.x - point.x, self.centre.y - point.y)
                < self.radius),
    {
        point.distance_to(&self.centre) < self.radius
    }

    /// Centre of the region.
    pub fn position(&self) -> (p: Point)
        ensures
            p == self.centre,
    {
        self.centre
    }
}

} // verus!
