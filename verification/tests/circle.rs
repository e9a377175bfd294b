//! The circular reachable-position bound.

use oort_ai::geometry::Point;
use oort_ai::Circle;

#[test]
fn circle_test_contains() {
    let circle = Circle::new(&Point::new(0, 0), 5_000);

    assert!(circle.contains(&Point::new(2_000, 2_000)));
    assert!(circle.contains(&Point::new(-2_000, -2_000)));

    assert!(!circle.contains(&Point::new(6_000, 0)));
    assert!(!circle.contains(&Point::new(-6_000, 0)));
    assert!(!circle.contains(&Point::new(-6_000, 5_000)));
    assert!(!circle.contains(&Point::new(5_000, 0)));
    assert!(!circle.contains(&Point::new(0, 5_000)));
}
