//! Contact fusion on the board: merging, replacement and rejection.

use oort_ai::contacts::{Contact, Emitter, ScanData, TrackedContact};
use oort_ai::geometry::{Point, Vector};
use oort_ai::ship_stats::Class;
use oort_ai::{ContactBoard, SearchContact};

fn emitter_near(position: Point) -> Emitter {
    Emitter::new(
        Point::new(position.x - 100_000, position.y),
        0,
        1_000_000,
        0,
        512,
    )
}

fn search_contact(class: Class, position: Point) -> Contact {
    let scan = ScanData::new(class, position, Vector::new(0, 0), 50_000, 50_000);
    Contact::Search(SearchContact::new(0, &emitter_near(position), &scan))
}

fn tracked_contact(class: Class, position: Point) -> Contact {
    let scan = ScanData::new(class, position, Vector::new(0, 0), 50_000, 50_000);
    Contact::Track(TrackedContact::new(&scan, &emitter_near(position), 0))
}

#[test]
fn test_add_success() {
    // Differing class: both stay.
    let mut board = ContactBoard::new();
    let first = search_contact(Class::Fighter, Point::new(0, 0));
    let second = search_contact(Class::Missile, Point::new(0, 0));
    board.add(first.clone(), 0);
    board.add(second.clone(), 0);
    assert_eq!(board.count(), 2);
    assert_eq!(board.get(0), Some(&first));
    assert_eq!(board.get(1), Some(&second));

    // Differing position: both stay.
    let mut board = ContactBoard::new();
    let first = search_contact(Class::Fighter, Point::new(0, 0));
    let second = search_contact(Class::Fighter, Point::new(100_000, 0));
    board.add(first.clone(), 0);
    board.add(second.clone(), 0);
    assert_eq!(board.count(), 2);
    assert_eq!(board.get(0), Some(&first));
    assert_eq!(board.get(1), Some(&second));
}

#[test]
fn test_add_overwrites() {
    // A search observation at the same spot merges into the earlier
    // one: the board still holds one contact, now the newer record.
    let mut board = ContactBoard::new();
    let first = search_contact(Class::Fighter, Point::new(0, 0));
    let second = search_contact(Class::Fighter, Point::new(0, 0));
    board.add(first.clone(), 0);
    board.add(second.clone(), 0);
    assert_eq!(board.count(), 1);
    assert_eq!(board.get(0), Some(&second));

    // A tracked observation covering a search contact replaces it under
    // the same identity.
    let mut board = ContactBoard::new();
    let first = search_contact(Class::Fighter, Point::new(0, 0));
    let second = tracked_contact(Class::Fighter, Point::new(0, 0));
    board.add(first.clone(), 0);
    board.add(second.clone(), 0);
    assert_eq!(board.count(), 1);
    assert_eq!(board.get(0), Some(&second));
}

#[test]
fn test_add_dropped() {
    // A fresh search observation already covered by a tracked contact
    // is dropped: the board keeps the tracked record.
    let mut board = ContactBoard::new();
    let first = tracked_contact(Class::Fighter, Point::new(0, 0));
    let second = search_contact(Class::Fighter, Point::new(0, 0));
    board.add(first.clone(), 0);
    board.add(second.clone(), 0);
    assert_eq!(board.count(), 1);
    assert_eq!(board.get(0), Some(&first));
}

#[test]
fn duplicate_search_observations_collapse() {
    // Two same-class observations of the same spot, added twice to an
    // empty board, leave a single entry.
    let mut board = ContactBoard::new();
    board.add(search_contact(Class::Fighter, Point::new(2_000, 3_000)), 0);
    board.add(search_contact(Class::Fighter, Point::new(2_000, 3_000)), 0);
    assert_eq!(board.count(), 1);
}

#[test]
fn tracked_update_takes_over_search_identity() {
    let mut board = ContactBoard::new();
    board.add(search_contact(Class::Fighter, Point::new(0, 0)), 0);
    board.add(tracked_contact(Class::Fighter, Point::new(0, 0)), 0);
    assert_eq!(board.count(), 1);
    let held = board.get(0).unwrap();
    assert!(held.is_tracked());
}

#[test]
fn take_remove_and_track() {
    let mut board = ContactBoard::new();
    board.add(search_contact(Class::Fighter, Point::new(0, 0)), 0);
    board.add(search_contact(Class::Fighter, Point::new(500_000, 0)), 0);
    assert_eq!(board.count(), 2);

    // Promote the first to tracked in place.
    board.track(0);
    assert!(board.get(0).unwrap().is_tracked());
    assert_eq!(board.count(), 2);

    let taken = board.take(1);
    assert!(taken.is_some());
    assert!(!taken.unwrap().is_tracked());
    assert_eq!(board.count(), 1);

    board.remove(0);
    assert_eq!(board.count(), 0);
    assert!(board.get(0).is_none());
}
