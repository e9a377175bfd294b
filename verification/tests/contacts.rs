//! The contact model: sensor error derivation and the bounded tracking
//! window.

use oort_ai::contacts::{Emitter, RadarContactError, ScanData, TrackedContact};
use oort_ai::geometry::{Point, Vector};
use oort_ai::ship_stats::Class;
use oort_ai::SearchContact;

fn emitter_at(x: i64, y: i64) -> Emitter {
    Emitter::new(Point::new(x, y), 0, 1_000_000, 0, 512)
}

#[test]
fn sensor_error_grows_as_quality_degrades() {
    let scan_of = |snr: i64| ScanData::new(
        Class::Fighter,
        Point::new(0, 0),
        Vector::new(0, 0),
        50_000,
        snr,
    );
    let good = RadarContactError::from_scan(&scan_of(50_000));
    let fair = RadarContactError::from_scan(&scan_of(10_000));
    let poor = RadarContactError::from_scan(&scan_of(0));
    assert!(good.distance <= fair.distance);
    assert!(fair.distance < poor.distance);
    assert!(good.bearing <= fair.bearing);
    assert!(fair.velocity < poor.velocity);
}

#[test]
fn sensor_error_at_ten_decibels() {
    // Ten decibels give a tenth of the base factor: a range error of
    // 0.1 * 10000 * 4 units.
    let scan = ScanData::new(Class::Fighter, Point::new(0, 0), Vector::new(0, 0), 0, 10_000);
    let e = RadarContactError::from_scan(&scan);
    assert_eq!(e.distance, 4_000_000);
    assert_eq!(e.velocity, 40_000);
}

#[test]
fn tracking_window_never_exceeds_capacity() {
    let scan = ScanData::new(
        Class::Fighter,
        Point::new(10_000, 0),
        Vector::new(1_000, 0),
        50_000,
        50_000,
    );
    let mut contact = TrackedContact::new(&scan, &emitter_at(-100_000, 0), 0);
    assert_eq!(contact.samples.len(), 1);
    for step in 1..=20i64 {
        let s = ScanData::new(
            Class::Fighter,
            Point::new(10_000 + step * 1_000, 0),
            Vector::new(1_000, 0),
            50_000,
            50_000,
        );
        contact.update(&emitter_at(-100_000, 0), &s, step * 1_000);
        assert!(contact.samples.len() <= 9);
    }
    assert_eq!(contact.samples.len(), 9);
}

#[test]
fn steady_velocity_means_no_acceleration()  {
    let scan = ScanData::new(
        Class::Fighter,
        Point::new(0, 0),
        Vector::new(2_000, 0),
        50_000,
        50_000,
    );
    let mut contact = TrackedContact::new(&scan, &emitter_at(-100_000, 0), 0);
    for step in 1..=5i64 {
        let s = ScanData::new(
            Class::Fighter,
            Point::new(step * 2_000, 0),
            Vector::new(2_000, 0),
            50_000,
            50_000,
        );
        contact.update(&emitter_at(-100_000, 0), &s, step * 1_000);
    }
    assert_eq!(contact.acceleration, Vector::new(0, 0));
}

#[test]
fn constant_thrust_is_recovered() {
    // Velocity grows one unit per second: the mean finite difference is
    // one unit per second squared.
    let scan = ScanData::new(
        Class::Fighter,
        Point::new(0, 0),
        Vector::new(0, 0),
        50_000,
        50_000,
    );
    let mut contact = TrackedContact::new(&scan, &emitter_at(-100_000, 0), 0);
    for step in 1..=5i64 {
        let s = ScanData::new(
            Class::Fighter,
            Point::new(step * step * 500, 0),
            Vector::new(step * 1_000, 0),
            50_000,
            50_000,
        );
        contact.update(&emitter_at(-100_000, 0), &s, step * 1_000);
    }
    assert_eq!(contact.acceleration, Vector::new(1_000, 0));
}

#[test]
fn promotion_keeps_the_observation() {
    let scan = ScanData::new(
        Class::Missile,
        Point::new(5_000, 7_000),
        Vector::new(300, -200),
        40_000,
        30_000,
    );
    let search = SearchContact::new(12_000, &emitter_at(0, 0), &scan);
    let promoted = TrackedContact::from_search(&search);
    assert_eq!(promoted.class, Class::Missile);
    assert_eq!(promoted.samples.len(), 1);
    assert_eq!(promoted.samples[0].position, Point::new(5_000, 7_000));
    assert_eq!(promoted.samples[0].time, 12_000);
}

#[test]
fn demotion_keeps_only_the_newest_observation() {
    let scan = ScanData::new(
        Class::Fighter,
        Point::new(0, 0),
        Vector::new(1_000, 0),
        50_000,
        50_000,
    );
    let mut contact = TrackedContact::new(&scan, &emitter_at(-100_000, 0), 0);
    for step in 1..=4i64 {
        let s = ScanData::new(
            Class::Fighter,
            Point::new(step * 1_000, 0),
            Vector::new(1_000, 0),
            50_000,
            50_000,
        );
        contact.update(&emitter_at(-100_000, 0), &s, step * 1_000);
    }
    let demoted = SearchContact::from_tracked(&contact);
    assert_eq!(demoted.class, Class::Fighter);
    assert_eq!(demoted.time, 4_000);
    assert_eq!(demoted.position, Point::new(4_000, 0));
    assert_eq!(demoted.velocity, Vector::new(1_000, 0));
}
