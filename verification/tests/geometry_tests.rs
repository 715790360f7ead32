//! The polygon set algebra over flat ring lists.

use territory_engine::border_trace::ring_area;
use territory_engine::geometry::{rings_are_closed, rings_difference, rings_round_trip, rings_union};

fn rect(x0: i64, y0: i64, x1: i64, y1: i64) -> Vec<(i64, i64)> {
    vec![(x0, y0), (x1, y0), (x1, y1), (x0, y1), (x0, y0)]
}

fn total_area(rings: &Vec<Vec<(i64, i64)>>) -> u128 {
    rings.iter().map(ring_area).sum()
}

#[test]
fn union_of_adjacent_rectangles_merges_their_area() {
    let a = vec![rect(0, 0, 4, 8)];
    let b = vec![rect(4, 0, 8, 8)];
    let u = rings_union(&a, &b);
    assert_eq!(total_area(&u), 16);
}

#[test]
fn union_with_empty_keeps_area() {
    let a = vec![rect(0, 0, 8, 8)];
    let empty: Vec<Vec<(i64, i64)>> = Vec::new();
    let u = rings_union(&a, &empty);
    assert_eq!(total_area(&u), 16);
}

#[test]
fn difference_cuts_the_overlap_away() {
    let a = vec![rect(0, 0, 8, 8)];
    let b = vec![rect(4, 0, 8, 8)];
    let d = rings_difference(&a, &b);
    assert_eq!(total_area(&d), 8);
}

#[test]
fn difference_of_disjoint_shapes_changes_nothing_of_the_area() {
    let a = vec![rect(0, 0, 4, 4)];
    let b = vec![rect(10, 10, 12, 12)];
    let d = rings_difference(&a, &b);
    assert_eq!(total_area(&d), 4);
}

#[test]
fn round_trip_preserves_rings_and_area() {
    let rings = vec![rect(0, 0, 4, 8), rect(10, 0, 14, 8)];
    let back = rings_round_trip(&rings);
    assert_eq!(back, rings);
    assert_eq!(total_area(&back), total_area(&rings));
}

#[test]
fn validation_accepts_closed_rings_and_refuses_open_ones() {
    assert!(rings_are_closed(&vec![rect(0, 0, 4, 4)]));
    assert!(rings_are_closed(&vec![]));
    assert!(rings_are_closed(&vec![Vec::new()]));
    let open = vec![vec![(0, 0), (4, 0), (4, 4)]];
    assert!(!rings_are_closed(&open));
    let lone = vec![vec![(0, 0)]];
    assert!(!rings_are_closed(&lone));
}

#[test]
fn round_trip_of_empty_list_is_empty() {
    let rings: Vec<Vec<(i64, i64)>> = Vec::new();
    let back = rings_round_trip(&rings);
    assert!(back.is_empty());
}
