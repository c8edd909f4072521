//! Input screening, the ring of vertices, and what is derived from the ring.

use roundness::error::DegenerateInputError;
use roundness::point::{Point, Segment};
use roundness::input::{lower_corner, screen_points};
use roundness::polygon::ConvexPolygon;
use roundness::scalar::Scalar;

fn scalar(x: f64) -> Scalar {
    Scalar::from_bits(x.to_bits())
}

fn double(s: Scalar) -> f64 {
    f64::from_bits(s.to_bits())
}

fn points(coordinates: &[(f64, f64)]) -> Vec<Point> {
    coordinates.iter().map(|&(x, y)| Point::new(scalar(x), scalar(y))).collect()
}

fn polygon(coordinates: &[(f64, f64)]) -> ConvexPolygon {
    let ring = points(coordinates);
    ConvexPolygon::from_hull(&ring, ring.clone()).unwrap()
}

const SQUARE: [(f64, f64); 4] = [(0.0, 0.0), (1.0, 0.0), (1.0, 1.0), (0.0, 1.0)];

#[test]
fn point_constructors() {
    let p = Point::new(scalar(1.5), scalar(-2.0));
    assert_eq!(double(p.x), 1.5);
    assert_eq!(double(p.y), -2.0);
    assert_eq!(Point::origin(), Point::new(scalar(0.0), scalar(0.0)));
    assert!(p.is_finite());
    assert!(!Point::new(scalar(f64::NAN), scalar(0.0)).is_finite());
    assert!(!Point::new(scalar(0.0), scalar(f64::NEG_INFINITY)).is_finite());
}

#[test]
fn the_two_zeros_are_one_place() {
    let a = Point::new(scalar(0.0), scalar(-0.0));
    let b = Point::new(scalar(-0.0), scalar(0.0));
    assert!(a.same_location(&b));
    assert_ne!(a, b);
    assert!(!a.same_location(&Point::new(scalar(0.0), scalar(5.0e-324))));
}

#[test]
fn three_places_are_admitted() {
    assert_eq!(screen_points(&points(&[(0.0, 0.0), (1.0, 0.0), (0.0, 1.0)])), Ok(()));
    assert_eq!(screen_points(&points(&[(1.0, 1.0), (1.0, 1.0), (2.0, 1.0), (1.0, 1.0), (2.0, 1.0), (2.0, 3.0)])), Ok(()));
    // Points in line are three places: only the hull shows that they span no area.
    assert_eq!(screen_points(&points(&[(0.0, 0.0), (1.0, 1.0), (2.0, 2.0)])), Ok(()));
}

#[test]
fn too_few_places_are_refused() {
    let refused = Err(DegenerateInputError);
    assert_eq!(screen_points(&points(&[])), refused);
    assert_eq!(screen_points(&points(&[(0.0, 0.0)])), refused);
    assert_eq!(screen_points(&points(&[(0.0, 0.0), (1.0, 0.0)])), refused);
    assert_eq!(screen_points(&points(&[(3.0, 4.0), (3.0, 4.0), (3.0, 4.0), (3.0, 4.0)])), refused);
    assert_eq!(screen_points(&points(&[(3.0, 4.0), (1.0, 4.0), (3.0, 4.0), (1.0, 4.0), (1.0, 4.0)])), refused);
    assert_eq!(screen_points(&points(&[(0.0, 0.0), (-0.0, 0.0), (0.0, -0.0), (1.0, 0.0)])), refused);
}

#[test]
fn points_that_are_not_finite_are_refused() {
    let refused = Err(DegenerateInputError);
    assert_eq!(screen_points(&points(&[(0.0, 0.0), (1.0, 0.0), (0.0, 1.0), (f64::NAN, 0.0)])), refused);
    assert_eq!(screen_points(&points(&[(0.0, f64::INFINITY), (1.0, 0.0), (0.0, 1.0)])), refused);
    assert_eq!(screen_points(&points(&[(0.0, 0.0), (1.0, f64::NEG_INFINITY), (0.0, 1.0)])), refused);
}

#[test]
fn screening_ignores_order_and_repeats() {
    let base = points(&[(0.0, 0.0), (1.0, 0.0), (0.0, 1.0)]);
    let mixed = points(&[(0.0, 1.0), (0.0, 0.0), (0.0, 1.0), (1.0, 0.0), (0.0, 0.0)]);
    assert_eq!(screen_points(&base), screen_points(&mixed));
    let flat = points(&[(0.0, 0.0), (1.0, 0.0)]);
    let flat_mixed = points(&[(1.0, 0.0), (0.0, 0.0), (1.0, 0.0), (1.0, 0.0)]);
    assert_eq!(screen_points(&flat), screen_points(&flat_mixed));
}

#[test]
fn lower_corner_takes_the_least_of_each_coordinate() {
    assert_eq!(lower_corner(&points(&[])), None);
    let corner = lower_corner(&points(&[(2.0, 5.0), (-1.0, 2.0), (0.0, 0.0), (4.0, 0.5), (5.0, 3.0)])).unwrap();
    assert_eq!(double(corner.x), -1.0);
    assert_eq!(double(corner.y), 0.0);
    let single = lower_corner(&points(&[(3.0, -7.0)])).unwrap();
    assert_eq!((double(single.x), double(single.y)), (3.0, -7.0));
}

#[test]
fn lower_corner_keeps_the_first_pattern_of_the_least_rank() {
    let corner = lower_corner(&points(&[(0.0, -0.0), (-0.0, 0.0), (1.0, 1.0)])).unwrap();
    assert_eq!(corner.x.to_bits(), 0.0f64.to_bits());
    assert_eq!(corner.y.to_bits(), (-0.0f64).to_bits());
}

#[test]
fn a_ring_of_three_vertices_is_a_polygon() {
    let cloud = points(&[(0.0, 0.0), (0.2, 0.2), (1.0, 0.0), (0.0, 1.0)]);
    let ring = points(&[(1.0, 0.0), (0.0, 1.0), (0.0, 0.0)]);
    let polygon = ConvexPolygon::from_hull(&cloud, ring.clone()).unwrap();
    assert_eq!(polygon.len(), 3);
    assert_eq!(polygon.vertices(), &ring);
}

#[test]
fn a_ring_of_two_vertices_is_degenerate() {
    let cloud = points(&[(0.0, 0.0), (1.0, 0.0), (2.0, 0.0)]);
    assert!(ConvexPolygon::from_hull(&cloud, points(&[(0.0, 0.0), (2.0, 0.0)])).is_err());
    assert!(ConvexPolygon::from_hull(&cloud, points(&[(0.0, 0.0)])).is_err());
    assert!(ConvexPolygon::from_hull(&cloud, points(&[])).is_err());
}

#[test]
fn a_ring_with_a_vertex_that_was_not_given_is_refused() {
    let cloud = points(&[(0.0, 0.0), (1.0, 0.0), (0.0, 1.0)]);
    assert!(ConvexPolygon::from_hull(&cloud, points(&[(0.0, 0.0), (1.0, 0.0), (0.0, 1.5)])).is_err());
    // The other zero is another pattern: the ring has to hold the points as they were given.
    assert!(ConvexPolygon::from_hull(&cloud, points(&[(-0.0, 0.0), (1.0, 0.0), (0.0, 1.0)])).is_err());
}

#[test]
fn a_ring_that_comes_back_to_a_place_is_refused() {
    let cloud = points(&[(0.0, 0.0), (1.0, 0.0), (0.0, 1.0), (-0.0, 0.0)]);
    assert!(ConvexPolygon::from_hull(&cloud, points(&[(0.0, 0.0), (1.0, 0.0), (0.0, 1.0), (0.0, 0.0)])).is_err());
    assert!(ConvexPolygon::from_hull(&cloud, points(&[(0.0, 0.0), (1.0, 0.0), (0.0, 1.0), (-0.0, 0.0)])).is_err());
}

#[test]
fn a_ring_with_a_vertex_that_is_not_finite_is_refused() {
    let cloud = points(&[(0.0, 0.0), (1.0, 0.0), (0.0, f64::INFINITY)]);
    assert!(ConvexPolygon::from_hull(&cloud, cloud.clone()).is_err());
    let cloud = points(&[(0.0, 0.0), (f64::NAN, 0.0), (0.0, 1.0)]);
    assert!(ConvexPolygon::from_hull(&cloud, cloud.clone()).is_err());
}

#[test]
fn edges_follow_the_ring_and_close_it() {
    let ring = points(&SQUARE);
    let edges = polygon(&SQUARE).edges();
    assert_eq!(
        edges,
        vec![
            Segment { start: ring[0], end: ring[1] },
            Segment { start: ring[1], end: ring[2] },
            Segment { start: ring[2], end: ring[3] },
            Segment { start: ring[3], end: ring[0] },
        ]
    );
}

#[test]
fn a_triangle_has_three_edges() {
    let ring = points(&[(0.0, 0.0), (4.0, 0.0), (2.0, 1.0)]);
    let edges = polygon(&[(0.0, 0.0), (4.0, 0.0), (2.0, 1.0)]).edges();
    assert_eq!(edges.len(), 3);
    assert_eq!(edges[2], Segment { start: ring[2], end: ring[0] });
}

#[test]
fn pairs_of_vertices() {
    assert_eq!(polygon(&[(0.0, 0.0), (4.0, 0.0), (2.0, 1.0)]).vertex_pairs(), vec![(0, 1), (0, 2), (1, 2)]);
    assert_eq!(polygon(&SQUARE).vertex_pairs(), vec![(0, 1), (0, 2), (0, 3), (1, 2), (1, 3), (2, 3)]);
}

#[test]
fn triples_of_vertices() {
    assert_eq!(polygon(&[(0.0, 0.0), (4.0, 0.0), (2.0, 1.0)]).vertex_triples(), vec![(0, 1, 2)]);
    assert_eq!(polygon(&SQUARE).vertex_triples(), vec![(0, 1, 2), (0, 1, 3), (0, 2, 3), (1, 2, 3)]);
    let pentagon = polygon(&[(0.0, 0.0), (4.0, 0.5), (5.0, 3.0), (2.0, 5.0), (-1.0, 2.0)]);
    assert_eq!(pentagon.vertex_pairs().len(), 10);
    assert_eq!(
        pentagon.vertex_triples(),
        vec![
            (0, 1, 2),
            (0, 1, 3),
            (0, 1, 4),
            (0, 2, 3),
            (0, 2, 4),
            (0, 3, 4),
            (1, 2, 3),
            (1, 2, 4),
            (1, 3, 4),
            (2, 3, 4)
        ]
    );
}

#[test]
fn the_working_square_is_a_power_of_two_above_the_polygon() {
    let side = |coordinates: &[(f64, f64)]| polygon(coordinates).working_box_side().map(double);
    assert_eq!(side(&SQUARE), Some(2.0));
    assert_eq!(side(&[(0.0, 0.0), (0.75, 0.0), (0.0, 0.5)]), Some(1.0));
    assert_eq!(side(&[(0.0, 0.0), (0.999, 0.0), (0.0, 0.5)]), Some(1.0));
    assert_eq!(side(&[(0.0, 0.0), (100.0, 0.0), (100.0, 1.0), (0.0, 1.0)]), Some(128.0));
    assert_eq!(side(&[(0.0, 0.0), (4.0, 0.0), (0.0, 3.0)]), Some(8.0));
    assert_eq!(side(&[(0.0, 0.0), (3.0, 0.0), (0.0, 3.999)]), Some(4.0));
    assert_eq!(side(&[(0.0, 0.0), (1.0e-300, 0.0), (0.0, 1.0e-300)]), Some(1.0));
    assert_eq!(side(&[(0.0, 0.0), (1.0e300, 0.0), (0.0, 1.0e300)]), Some(2.0f64.powi(997)));
}

#[test]
fn the_working_square_stops_at_the_largest_power_of_two() {
    let side = polygon(&[(0.0, 0.0), (f64::MAX, 0.0), (0.0, 1.0)]).working_box_side().map(double);
    assert_eq!(side, Some(2.0f64.powi(1023)));
    let side = polygon(&[(0.0, 0.0), (2.0f64.powi(1023), 0.0), (0.0, 1.0)]).working_box_side().map(double);
    assert_eq!(side, Some(2.0f64.powi(1023)));
    let side = polygon(&[(0.0, 0.0), (2.0f64.powi(1022), 0.0), (0.0, 1.0)]).working_box_side().map(double);
    assert_eq!(side, Some(2.0f64.powi(1023)));
}

#[test]
fn there_is_no_working_square_for_a_polygon_below_zero() {
    assert_eq!(polygon(&[(0.0, 0.0), (1.0, 0.0), (0.0, -1.0)]).working_box_side(), None);
    assert_eq!(polygon(&[(-5.0e-324, 0.0), (1.0, 0.0), (0.0, 1.0)]).working_box_side(), None);
    // The other zero is zero.
    assert!(polygon(&[(-0.0, 0.0), (1.0, 0.0), (0.0, 1.0)]).working_box_side().is_some());
}
