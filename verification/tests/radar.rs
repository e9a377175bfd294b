//! The sensor scheduler: sweep decisions and the tracking rotation.

use oort_ai::contacts::{Emitter, ScanData};
use oort_ai::geometry::{Point, Vector};
use oort_ai::radar::manager::Error;
use oort_ai::ship_stats::Class;
use oort_ai::{ContactBoard, KinematicModel, RadarManager, ScanningRadar, TrackedContact,
    TrackingRadar};

fn own_ship() -> KinematicModel {
    KinematicModel::new(Point::new(0, 0), Vector::new(0, 0), Vector::new(0, 0))
}

fn idle_emitter() -> Emitter {
    Emitter::new(Point::new(0, 0), 0, 25_000_000, 0, 256)
}

#[test]
fn empty_sweep_rasters_on() {
    let mut radar = ScanningRadar::new();
    let found = radar.scan(&idle_emitter(), None, 1_000);
    assert!(found.is_none());
    let config = radar.adjust(&own_ship(), 1_000);
    // One beam width onward, full range window.
    assert_eq!(config.heading, 256);
    assert_eq!(config.width, 256);
    assert_eq!(config.min_distance, 0);
    assert_eq!(config.max_distance, 25_000_000);
}

#[test]
fn a_find_is_looked_behind() {
    let mut radar = ScanningRadar::new();
    let scan = ScanData::new(
        Class::Fighter,
        Point::new(10_000_000, 0),
        Vector::new(0, 0),
        50_000,
        50_000,
    );
    let found = radar.scan(&idle_emitter(), Some(scan), 1_000);
    assert!(found.is_some());
    let config = radar.adjust(&own_ship(), 1_000);
    // Same heading as the sweep that found it, and a pushed-out near
    // edge beyond the contact's far edge.
    assert_eq!(config.heading, 0);
    assert_eq!(config.width, 256);
    assert!(config.min_distance >= 10_000_000);
    assert_eq!(config.max_distance, 25_000_000);
}

#[test]
fn start_tracking_unknown_contact_fails() {
    let mut manager = RadarManager::new(ContactBoard::new());
    assert_eq!(manager.start_tracking(7), Err(Error::ContactNotFound));
    manager.stop_tracking(7);
}

#[test]
fn search_finds_feed_the_board() {
    let mut manager = RadarManager::new(ContactBoard::new());
    let scan = ScanData::new(
        Class::Fighter,
        Point::new(5_000_000, 0),
        Vector::new(0, 0),
        50_000,
        50_000,
    );
    manager.scan(&idle_emitter(), Some(scan), 1_000);
    assert_eq!(manager.contacts.count(), 1);
    assert_eq!(manager.start_tracking(0), Ok(()));
    let config = manager.adjust(&own_ship(), 2_000);
    assert!(config.is_some());
}

#[test]
fn track_duty_updates_the_contact() {
    let mut manager = RadarManager::new(ContactBoard::new());
    let scan = ScanData::new(
        Class::Fighter,
        Point::new(5_000_000, 0),
        Vector::new(0, 0),
        50_000,
        50_000,
    );
    manager.scan(&idle_emitter(), Some(scan), 1_000);
    assert_eq!(manager.start_tracking(0), Ok(()));

    // With the cursor on the tracking duty, the next sweep's return
    // extends that contact's history in place.
    let fresh = ScanData::new(
        Class::Fighter,
        Point::new(5_001_000, 0),
        Vector::new(1_000, 0),
        50_000,
        50_000,
    );
    manager.scan(&idle_emitter(), Some(fresh), 2_000);
    assert_eq!(manager.contacts.count(), 1);
    assert!(manager.contacts.get(0).unwrap().is_tracked());

    // A missed sweep on the tracking duty loses the contact and drops
    // the duty.
    manager.scan(&idle_emitter(), None, 3_000);
    assert_eq!(manager.contacts.count(), 0);
}

#[test]
fn stop_tracking_demotes_the_contact() {
    let mut manager = RadarManager::new(ContactBoard::new());
    let scan = ScanData::new(
        Class::Fighter,
        Point::new(5_000_000, 0),
        Vector::new(0, 0),
        50_000,
        50_000,
    );
    manager.scan(&idle_emitter(), Some(scan), 1_000);
    assert_eq!(manager.start_tracking(0), Ok(()));

    let fresh = ScanData::new(
        Class::Fighter,
        Point::new(5_000_000, 0),
        Vector::new(0, 0),
        50_000,
        50_000,
    );
    manager.scan(&idle_emitter(), Some(fresh), 2_000);
    assert!(manager.contacts.get(0).unwrap().is_tracked());

    // Dropping the duty demotes the contact in place: same identity,
    // history gone, the newest observation kept.
    manager.stop_tracking(0);
    let held = manager.contacts.get(0).unwrap();
    assert!(!held.is_tracked());
    assert_eq!(held.position(), Point::new(5_000_000, 0));
    assert_eq!(held.time(), 2_000);
    assert_eq!(manager.contacts.count(), 1);
}

#[test]
fn new_rotation_demotes_dropped_duties() {
    let mut manager = RadarManager::new(ContactBoard::new());
    let near = ScanData::new(
        Class::Fighter,
        Point::new(5_000_000, 0),
        Vector::new(0, 0),
        50_000,
        50_000,
    );
    let far = ScanData::new(
        Class::Fighter,
        Point::new(-5_000_000, 0),
        Vector::new(0, 0),
        50_000,
        50_000,
    );
    manager.scan(&idle_emitter(), Some(near), 1_000);
    manager.scan(&idle_emitter(), Some(far), 2_000);
    assert_eq!(manager.start_tracking(0), Ok(()));
    assert_eq!(manager.start_tracking(1), Ok(()));
    manager.scan(
        &idle_emitter(),
        Some(ScanData::new(
            Class::Fighter,
            Point::new(5_000_000, 0),
            Vector::new(0, 0),
            50_000,
            50_000,
        )),
        3_000,
    );
    assert!(manager.contacts.get(0).unwrap().is_tracked());
    assert_eq!(manager.get_job_rotation().len(), 2);

    // Keep only the second duty: the first contact loses its history.
    manager.set_job_rotation(vec![1]);
    assert_eq!(manager.get_job_rotation().len(), 1);
    assert!(!manager.contacts.get(0).unwrap().is_tracked());
    assert_eq!(manager.contacts.count(), 2);
}

#[test]
fn remove_matching_purges_covered_search_contacts() {
    let mut board = ContactBoard::new();
    let seen = ScanData::new(
        Class::Fighter,
        Point::new(2_000, 1_000),
        Vector::new(0, 0),
        50_000,
        50_000,
    );
    let emitter = Emitter::new(Point::new(-100_000, 0), 0, 25_000_000, 0, 256);
    board.add(
        oort_ai::Contact::Search(oort_ai::SearchContact::new(0, &emitter, &seen)),
        0,
    );
    assert_eq!(board.count(), 1);
    let probe = oort_ai::Contact::Search(oort_ai::SearchContact::new(0, &emitter, &seen));
    board.remove_matching(&probe, 0);
    assert_eq!(board.count(), 0);
}

#[test]
fn tracking_adjusts_toward_the_predicted_position() {
    // A target ten units out, moving crosswise at a thousand units per
    // second: one tick ahead it sits sixteen units up, a bearing of 663
    // binary units, not the zero bearing of the last observation.
    let scan = ScanData::new(
        Class::Fighter,
        Point::new(10_000, 0),
        Vector::new(0, 1_000_000),
        50_000,
        50_000,
    );
    let emitter = Emitter::new(Point::new(0, 0), 0, 25_000_000, 0, 64);
    let target = TrackedContact::new(&scan, &emitter, 1_000);
    let radar = TrackingRadar::new();
    let config = radar.adjust(&own_ship(), &target, 1_000);
    assert_eq!(config.heading, 663);
    assert_eq!(config.width, 64);
    assert_eq!(config.min_distance, config.max_distance);
    assert!(config.min_distance > 0);
}
