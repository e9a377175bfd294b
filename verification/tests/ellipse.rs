//! Uncertainty-region geometry, exercised on exact fixed-point values.
//! A length of one unit is 1000 fixed-point steps; a quarter turn is
//! 1024 binary angle units.

use oort_ai::fixed::{mul_fp, sqrt_fp};
use oort_ai::geometry::Point;
use oort_ai::Ellipse;

#[test]
fn test_radius() {
    let height = 10_000;
    let width = 5_000;
    let ellipse = Ellipse::new(&Point::new(0, 0), 0, width, height);

    assert_eq!(ellipse.radius(0), height / 2);
    assert_eq!(ellipse.radius(1024), width / 2);
    assert_eq!(ellipse.radius(2048), height / 2);
    assert_eq!(ellipse.radius(2048 + 1024), width / 2);

    let height = 5_000;
    let width = 10_000;
    let ellipse = Ellipse::new(&Point::new(0, 0), 512, width, height);

    assert_eq!(ellipse.radius(512), height / 2);
    assert_eq!(ellipse.radius(1024 + 512), width / 2);
    assert_eq!(ellipse.radius(2048 + 512), height / 2);
    assert_eq!(ellipse.radius(-512), width / 2);
}

#[test]
fn ellipse_test_contains() {
    let ellipse = Ellipse::new(&Point::new(0, 0), 0, 5_000, 10_000);

    assert!(ellipse.contains(&Point::new(4_000, 0)));
    assert!(ellipse.contains(&Point::new(0, 2_000)));

    assert!(!ellipse.contains(&Point::new(0, 3_000)));
    assert!(!ellipse.contains(&Point::new(0, -6_000)));
    assert!(!ellipse.contains(&Point::new(5_000, -6_000)));
    assert!(!ellipse.contains(&Point::new(0, 6_000)));
    assert!(!ellipse.contains(&Point::new(6_000, 0)));

    let ellipse = Ellipse::new(&Point::new(0, 0), 512, 5_000, 10_000);
    assert!(ellipse.contains(&Point::new(3_000, 3_000)));
    assert!(!ellipse.contains(&Point::new(-3_000, 3_000)));
}

#[test]
fn ellipse_test_max_distance_to() {
    let ellipse = Ellipse::new(&Point::new(0, 5_000), 0, 5_000, 10_000);

    assert_eq!(ellipse.max_distance_to(&Point::new(0, 0)), 7_500);
    assert_eq!(ellipse.max_distance_to(&Point::new(0, 10_000)), 7_500);
    assert_eq!(ellipse.max_distance_to(&Point::new(5_000, 5_000)), 10_000);
    assert_eq!(ellipse.max_distance_to(&Point::new(-5_000, 5_000)), 10_000);

    // Questionable behaviour when the point sits at the centre.
    assert_eq!(ellipse.max_distance_to(&Point::new(0, 5_000)), 5_000);
    assert_eq!(ellipse.max_distance_to(&Point::new(0, 6_000)), 3_500);

    // An eighth of a turn, with a tip touching the origin.
    let height = sqrt_fp(mul_fp(5_000, 5_000) + mul_fp(5_000, 5_000)) * 2;
    let ellipse = Ellipse::new(&Point::new(5_000, 5_000), 512, 50_000, height);

    assert_eq!(ellipse.max_distance_to(&Point::new(0, 0)), height);
    assert_eq!(ellipse.max_distance_to(&Point::new(10_000, 10_000)), height);

    // As above, mirrored.
    let angle = 512 + 1024;
    let ellipse = Ellipse::new(&Point::new(5_000, 5_000), angle, 50_000, height);
    assert_eq!(ellipse.max_distance_to(&Point::new(0, 10_000)), height);
}

#[test]
fn ellipse_test_min_distance_to() {
    let ellipse = Ellipse::new(&Point::new(5_000, 0), 1024, 5_000, 10_000);

    assert_eq!(ellipse.min_distance_to(&Point::new(0, 0)), 2_500);
    assert_eq!(ellipse.min_distance_to(&Point::new(10_000, 0)), 2_500);
    assert_eq!(ellipse.min_distance_to(&Point::new(5_000, 5_000)), 0);
    assert_eq!(ellipse.min_distance_to(&Point::new(5_000, -5_000)), 0);

    assert_eq!(ellipse.min_distance_to(&Point::new(5_000, 0)), 2_500);
    assert_eq!(ellipse.min_distance_to(&Point::new(5_500, 0)), 2_000);
}

#[test]
fn orientation_whole_turns_do_not_move_the_boundary() {
    // The same region built with orientations a full turn apart agrees
    // on every probe, inside and out.
    let probes = [
        Point::new(3_000, 3_000),
        Point::new(-3_000, 3_000),
        Point::new(0, 2_000),
        Point::new(4_000, 0),
        Point::new(0, 6_000),
    ];
    for k in [-2i64, -1, 1, 3, 10] {
        let base = Ellipse::new(&Point::new(0, 0), 512, 5_000, 10_000);
        let turned = Ellipse::new(&Point::new(0, 0), 512 + k * 4096, 5_000, 10_000);
        for p in &probes {
            assert_eq!(base.contains(p), turned.contains(p));
        }
    }
}

#[test]
fn radius_stays_near_the_axis_envelope() {
    // The polar radius runs between the semi-minor and semi-major axes
    // up to the fixed-point trigonometry's error of a few parts in a
    // thousand.
    let ellipse = Ellipse::new(&Point::new(0, 0), 300, 5_000, 10_000);
    let mut angle: i64 = -4096;
    while angle <= 8192 {
        let r = ellipse.radius(angle);
        assert!(r >= 2_500 - 60);
        assert!(r <= 5_000 + 60);
        angle += 64;
    }
}
