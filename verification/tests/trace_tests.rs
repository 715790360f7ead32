//! The border tracer and collinearity filter on concrete traces.

use territory_engine::border_trace::{border_to_geojson_coords, remove_unnecessary_coords, ring_area};
use territory_engine::rotation::{Direction, Rotation};

#[test]
fn rotation_starts_facing_down() {
    let r = Rotation::new();
    assert_eq!(r.position, 2);
    assert!(matches!(r.position_name(), Direction::Down));
}

#[test]
fn rotation_cycles_forward_and_wraps() {
    let mut r = Rotation::new();
    r.cycle_forward();
    assert_eq!(r.position, 3);
    r.cycle_forward();
    assert_eq!(r.position, 0);
    assert!(matches!(r.position_name(), Direction::Up));
}

#[test]
fn rotation_cycles_backward_and_wraps() {
    let mut r = Rotation::new();
    r.cycle_backward();
    assert_eq!(r.position, 1);
    r.cycle_backward();
    assert_eq!(r.position, 0);
    r.cycle_backward();
    assert_eq!(r.position, 3);
}

#[test]
fn rotation_next_coord_steps_one() {
    let r = Rotation::new();
    assert_eq!(r.next_coord((3, 4)), (3, 3));
    let mut up = Rotation::new();
    up.cycle_forward();
    up.cycle_forward();
    assert_eq!(up.next_coord((3, 4)), (3, 5));
}

#[test]
fn simplify_drops_collinear_interior_points() {
    let trace = vec![
        (0, 0),
        (1, 0),
        (2, 0),
        (2, 1),
        (2, 2),
        (1, 2),
        (0, 2),
        (0, 1),
        (0, 0),
    ];
    let simplified = remove_unnecessary_coords(trace);
    assert_eq!(simplified, vec![(0, 0), (2, 0), (2, 2), (0, 2), (0, 0)]);
}

#[test]
fn simplify_is_idempotent_on_its_output() {
    let trace = vec![
        (0, 0),
        (1, 0),
        (2, 0),
        (3, 0),
        (3, 1),
        (3, 2),
        (2, 2),
        (1, 2),
        (0, 2),
        (0, 1),
        (0, 0),
    ];
    let once = remove_unnecessary_coords(trace);
    let twice = remove_unnecessary_coords(once.clone());
    assert_eq!(once, twice);
}

#[test]
fn simplify_keeps_two_point_trace() {
    let trace = vec![(0, 0), (1, 1)];
    assert_eq!(remove_unnecessary_coords(trace), vec![(0, 0), (1, 1)]);
}

#[test]
fn trace_square_yields_one_closed_simplified_ring() {
    // The boundary-edge coordinates of a 2x2 pixel square on the doubled
    // grid: corners, edge points and midpoints of its outline.
    let mut coords = Vec::new();
    for i in 0..=4 {
        coords.push((i, 0));
        coords.push((i, 4));
        coords.push((0, i));
        coords.push((4, i));
    }
    let rings = border_to_geojson_coords(coords);
    assert_eq!(rings.len(), 1);
    let ring = &rings[0];
    assert_eq!(ring.first(), ring.last());
    assert_eq!(ring.len(), 5);
    assert_eq!(ring_area(ring), 4);
    // The emitted ring is already simplified: a second filter pass keeps it.
    assert_eq!(remove_unnecessary_coords(ring.clone()), *ring);
}

#[test]
fn trace_discards_open_path() {
    // A straight segment cannot close a ring and is discarded.
    let coords = vec![(0, 0), (1, 0), (2, 0), (3, 0)];
    let rings = border_to_geojson_coords(coords);
    assert_eq!(rings.len(), 0);
}

#[test]
fn ring_area_of_rectangle() {
    // A closed rectangle ring 6 wide and 4 tall on the doubled grid:
    // 6 * 4 / 4 = 6 pixel units.
    let ring = vec![(0, 0), (6, 0), (6, 4), (0, 4), (0, 0)];
    assert_eq!(ring_area(&ring), 6);
}

#[test]
fn ring_area_of_empty_ring_is_zero() {
    let ring: Vec<(i64, i64)> = Vec::new();
    assert_eq!(ring_area(&ring), 0);
}
