//! Firing solutions and intercepts on a head-on, constant-velocity
//! target.

use oort_ai::geometry::{Point, Vector};
use oort_ai::{FiringSolution, Intercept, KinematicModel};

#[test]
fn head_on_target_is_hit_where_it_will_be() {
    // The shooter sits still; the target closes head-on under thrust.
    let shooter = KinematicModel::new(Point::new(0, 0), Vector::new(0, 0), Vector::new(0, 0));
    let target = KinematicModel::new(
        Point::new(10_000, 0),
        Vector::new(-10_000, 0),
        Vector::new(-300_000, 0),
    );
    // The target starts ten units out, closing at ten units per second
    // and decelerating hard; a 100 unit-per-second round meets it after
    // 0.12 seconds, 6.7 units out.
    let solution = FiringSolution::new(&shooter, 100_000, &target);
    let sol = solution.expect("a head-on shot has a solution");
    assert_eq!(sol.impact_time, 120);
    assert_eq!(sol.impact_point, Point::new(6_700, 0));
    assert_eq!(sol.target_velocity, Vector::new(-10_000, 0));
    assert_eq!(sol.target_acceleration, Vector::new(-300_000, 0));
}

#[test]
fn stationary_self_shot_has_no_solution() {
    // Solving against a target at the shooter's own position gives a
    // vanishing constant coefficient: a documented no-roots form.
    let shooter = KinematicModel::new(Point::new(0, 0), Vector::new(0, 0), Vector::new(0, 0));
    let target = KinematicModel::new(Point::new(0, 0), Vector::new(0, 0), Vector::new(0, 0));
    assert!(FiringSolution::new(&shooter, 100_000, &target).is_none());
}

#[test]
fn intercept_of_closing_target() {
    let vessel = KinematicModel::new(Point::new(0, 0), Vector::new(0, 0), Vector::new(0, 0));
    let target = KinematicModel::new(
        Point::new(100_000, 0),
        Vector::new(-10_000, 0),
        Vector::new(0, 0),
    );
    let intercept = Intercept::new(&vessel, 100_000, &target);
    match intercept {
        Some(sol) => {
            assert!(sol.time != 0);
            assert_eq!(sol.point.y, 0);
        },
        None => {
            // The normalized quartic may fall into an unhandled form;
            // absence is the documented answer there.
        },
    }
}
