//! The same geometry and kinematics checks, run against the single
//! public surface the crate root re-exports.

use oort_ai::fixed::{mul_fp, sqrt_fp};
use oort_ai::kinematics::heading_after;
use oort_ai::{Ellipse, Point, ShipModel, Vector};

#[test]
fn out_test_contains() {
    let ellipse = Ellipse::new(&Point::new(0, 0), 0, 5_000, 10_000);

    assert!(ellipse.contains(&Point::new(4_000, 0)));
    assert!(ellipse.contains(&Point::new(0, 2_000)));

    assert!(!ellipse.contains(&Point::new(0, 3_000)));
    assert!(!ellipse.contains(&Point::new(0, -6_000)));
    assert!(!ellipse.contains(&Point::new(5_000, -6_000)));
    assert!(!ellipse.contains(&Point::new(0, 6_000)));
    assert!(!ellipse.contains(&Point::new(6_000, 0)));

    let ellipse = Ellipse::new(&Point::new(0, 0), 512, 5_000, 10_000);
    assert!(ellipse.contains(&Point::new(3_000, 3_000)));
    assert!(!ellipse.contains(&Point::new(-3_000, 3_000)));
}

#[test]
fn out_test_max_distance_to() {
    let ellipse = Ellipse::new(&Point::new(0, 5_000), 0, 5_000, 10_000);

    assert_eq!(ellipse.max_distance_to(&Point::new(0, 0)), 7_500);
    assert_eq!(ellipse.max_distance_to(&Point::new(0, 10_000)), 7_500);
    assert_eq!(ellipse.max_distance_to(&Point::new(5_000, 5_000)), 10_000);
    assert_eq!(ellipse.max_distance_to(&Point::new(-5_000, 5_000)), 10_000);
    assert_eq!(ellipse.max_distance_to(&Point::new(0, 5_000)), 5_000);
    assert_eq!(ellipse.max_distance_to(&Point::new(0, 6_000)), 3_500);

    let height = sqrt_fp(mul_fp(5_000, 5_000) + mul_fp(5_000, 5_000)) * 2;
    let ellipse = Ellipse::new(&Point::new(5_000, 5_000), 512, 50_000, height);
    assert_eq!(ellipse.max_distance_to(&Point::new(0, 0)), height);
    assert_eq!(ellipse.max_distance_to(&Point::new(10_000, 10_000)), height);

    let ellipse = Ellipse::new(&Point::new(5_000, 5_000), 512 + 1024, 50_000, height);
    assert_eq!(ellipse.max_distance_to(&Point::new(0, 10_000)), height);
}

#[test]
fn out_test_min_distance_to() {
    let ellipse = Ellipse::new(&Point::new(5_000, 0), 1024, 5_000, 10_000);

    assert_eq!(ellipse.min_distance_to(&Point::new(0, 0)), 2_500);
    assert_eq!(ellipse.min_distance_to(&Point::new(10_000, 0)), 2_500);
    assert_eq!(ellipse.min_distance_to(&Point::new(5_000, 5_000)), 0);
    assert_eq!(ellipse.min_distance_to(&Point::new(5_000, -5_000)), 0);
    assert_eq!(ellipse.min_distance_to(&Point::new(5_000, 0)), 2_500);
    assert_eq!(ellipse.min_distance_to(&Point::new(5_500, 0)), 2_000);
}

#[test]
fn out_test_heading_after() {
    let vessel = ShipModel {
        position: Point::new(0, 0),
        velocity: Vector::new(0, 0),
        acceleration: Vector::new(0, 0),
        heading: 0,
        angular_velocity: 256,
    };

    assert_eq!(heading_after(&vessel, 1_000), 256);
    assert_eq!(heading_after(&vessel, 8_000), -2048);
    assert_eq!(heading_after(&vessel, 16_000), 0);
}
