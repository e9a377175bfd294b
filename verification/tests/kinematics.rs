//! Derived kinematic quantities on exact fixed-point values.

use oort_ai::geometry::{Point, Vector};
use oort_ai::kinematics::heading_after;
use oort_ai::ShipModel;

#[test]
fn test_heading_after() {
    // A vessel turning an eighth of a half turn per second: 256 binary
    // angle units each second.
    let vessel = ShipModel {
        position: Point::new(0, 0),
        velocity: Vector::new(0, 0),
        acceleration: Vector::new(0, 0),
        heading: 0,
        angular_velocity: 256,
    };

    assert_eq!(heading_after(&vessel, 1_000), 256);
    assert_eq!(heading_after(&vessel, 8_000), -2048);
    assert_eq!(heading_after(&vessel, 16_000), 0);
}
