//! Roundness of a convex polygon: the squared ratio of the radius of its
//! incircle to the radius of its circumcircle.
//!
//! This crate is the exact part of that computation. A double-precision number
//! is carried by the 64 bits of its encoding, and everything here is decided on
//! those bits: which inputs are degenerate, which vertices form the ring, which
//! candidate circle wins, and which outcomes are errors. Arithmetic on doubles
//! (convex hull, Voronoi diagram, distances, the final quotient) is done by the
//! caller and handed in as measured values.
//!
//! A caller goes through these steps:
//!
//! 1. [`input::screen_points`] refuses points that cannot span a polygon, and
//!    [`input::lower_corner`] names the corner from which the caller moves the
//!    rest to the origin.
//! 2. The caller has the convex hull of the moved points computed, and
//!    [`polygon::ConvexPolygon::from_hull`] takes the ring of its vertices.
//! 3. For the circumcircle the caller works out a centre for each of the
//!    polygon's [`vertex_pairs`](polygon::ConvexPolygon::vertex_pairs) and
//!    [`vertex_triples`](polygon::ConvexPolygon::vertex_triples), measures the
//!    distance from each centre to every vertex, and
//!    [`circumcircle::circumcircle`] chooses.
//! 4. For the incircle the caller has the Voronoi diagram of the vertices
//!    computed in a square of side
//!    [`working_box_side`](polygon::ConvexPolygon::working_box_side), measures
//!    the distance from each vertex of the diagram that lies inside the polygon
//!    to every one of the polygon's
//!    [`edges`](polygon::ConvexPolygon::edges), and [`incircle::incircle`]
//!    chooses.
//! 5. The caller divides the radii and squares the quotient, and
//!    [`score::roundness`] makes the score of it, or an error.
//!
//! What a pattern of bits means as a number is laid down in [`value`], with the
//! proof that the order this crate goes by is the order of those numbers.

pub mod circle;
pub mod circumcircle;
pub mod error;
pub mod incircle;
pub mod input;
pub mod measure;
pub mod order;
pub mod point;
pub mod polygon;
pub mod scalar;
pub mod score;
pub mod value;
