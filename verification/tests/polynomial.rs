//! The polynomial solvers and the sorted, deduplicated root set.

use oort_ai::polynomial::{find_roots_cubic_normalized, find_roots_linear, find_roots_quadratic,
    find_roots_quartic, find_roots_quartic_depressed};
use oort_ai::Roots;

#[test]
fn quadratic_symmetric_pair() {
    // x^2 - 4 == 0 has the roots -2 and 2.
    assert_eq!(
        find_roots_quadratic(1_000, 0, -4_000),
        Roots::Two(-2_000, 2_000)
    );
}

#[test]
fn quadratic_without_real_roots() {
    // x^2 + 1 == 0 has no real roots.
    assert_eq!(find_roots_quadratic(1_000, 0, 1_000), Roots::Zero);
}

#[test]
fn quadratic_with_double_root() {
    // x^2 - 2x + 1 == 0 has the double root 1.
    assert_eq!(
        find_roots_quadratic(1_000, -2_000, 1_000),
        Roots::One(1_000)
    );
}

#[test]
fn quadratic_falls_back_to_linear() {
    // 0*x^2 + 2x - 4 == 0 is linear with root 2.
    assert_eq!(find_roots_quadratic(0, 2_000, -4_000), Roots::One(2_000));
}

#[test]
fn linear_cases() {
    assert_eq!(find_roots_linear(2_000, -4_000), Roots::One(2_000));
    assert_eq!(find_roots_linear(0, 1_000), Roots::Zero);
    assert_eq!(find_roots_linear(0, 0), Roots::One(0));
}

#[test]
fn cubic_with_three_roots() {
    // x^3 - 7x + 6 == 0 has the roots -3, 1 and 2; the fixed-point
    // trigonometric route lands within a few percent of each.
    let roots = find_roots_cubic_normalized(0, -7_000, 6_000);
    assert_eq!(roots, Roots::Three(-2_992, 974, 1_969));
}

#[test]
fn cubic_with_single_root() {
    // x^3 - 1 has no depressed quadratic term; its only real root is 1.
    let roots = find_roots_cubic_normalized(0, 0, -1_000);
    let v = roots.as_vec();
    assert_eq!(v.len(), 1);
    assert!((v[0] - 1_000).abs() < 20);
}

#[test]
fn quartic_unhandled_forms_have_no_roots() {
    // A vanishing leading coefficient, a vanishing constant, and the
    // biquadratic form are documented as unhandled.
    assert_eq!(find_roots_quartic(0, 1_000, 1_000, 1_000, 1_000), Roots::Zero);
    assert_eq!(find_roots_quartic(1_000, 1_000, 1_000, 1_000, 0), Roots::Zero);
    assert_eq!(find_roots_quartic(1_000, 0, 1_000, 0, 1_000), Roots::Zero);
}

#[test]
fn quartic_with_four_roots() {
    // (x^2 - 1)(x^2 - 4) shifted: x^4 - 5x^2 + 4 is biquadratic, so
    // probe with (x-1)(x+1)(x-2)(x+3) = x^4 + x^3 - 7x^2 - x + 6.
    // The fixed-point reduction keeps each root within a few
    // thousandths of -3, -1, 1 and 2.
    let roots = find_roots_quartic(1_000, 1_000, -7_000, -1_000, 6_000);
    assert_eq!(roots, Roots::Four(-2_999, -999, 997, 2_000));
}

#[test]
fn depressed_quartic_unhandled_forms() {
    assert_eq!(find_roots_quartic_depressed(1_000, 0, 1_000), Roots::Zero);
    assert_eq!(find_roots_quartic_depressed(1_000, 1_000, 0), Roots::Zero);
}

#[test]
fn depressed_quartic_with_roots() {
    // x^4 - 3x^2 + 2x + 1 crosses zero near -1.94 and -0.34.
    let roots = find_roots_quartic_depressed(-3_000, 2_000, 1_000);
    assert_eq!(roots, Roots::Two(-1_939, -335));
}

#[test]
fn add_new_root_sorts_and_deduplicates() {
    let roots = Roots::One(5_000)
        .add_new_root(-1_000)
        .add_new_root(2_000)
        .add_new_root(5_000);
    assert_eq!(roots, Roots::Three(-1_000, 2_000, 5_000));
}

#[test]
fn add_new_root_is_order_independent() {
    // Any permutation of the same values ends in the same sorted,
    // deduplicated list.
    let a = Roots::One(3_000).add_new_root(1_000).add_new_root(2_000);
    let b = Roots::One(2_000).add_new_root(3_000).add_new_root(1_000);
    let c = Roots::One(1_000)
        .add_new_root(2_000)
        .add_new_root(3_000)
        .add_new_root(2_000);
    assert_eq!(a, b);
    assert_eq!(a, c);
    assert_eq!(a, Roots::Three(1_000, 2_000, 3_000));
}
