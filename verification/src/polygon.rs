//! The ring of vertices of a convex polygon, and what is derived from it.

use crate::error::DegenerateInputError;
use crate::input::all_finite;
use crate::point::{Point, Segment};
use crate::scalar::{Scalar, BINADE, ONE_BITS, TOP_POWER_BITS};
use crate::value::{lemma_empty_fraction_is_power_of_two, units_of};
use itertools::Itertools;
use vstd::arithmetic::power2::pow2;
use vstd::prelude::*;

verus! {

/// No two points of the sequence lie at the same place.
pub open spec fn distinct_locations(points: Seq<Point>) -> bool {
    forall|i: int, j: int|
        0 <= i < j < points.len() ==> (#[trigger] points[i]).location() != (
        #[trigger] points[j]).location()
}

/// Every vertex of the ring is one of the points, pattern for pattern.
pub open spec fn drawn_from(ring: Seq<Point>, points: Seq<Point>) -> bool {
    forall|i: int| 0 <= i < ring.len() ==> points.contains(#[trigger] ring[i])
}

/// The ring can be the convex hull of the points, as far as that shows
/// without arithmetic: it has at least three vertices, all finite, no two at
/// one place, and each of them is one of the points.
pub open spec fn is_ring_over(ring: Seq<Point>, points: Seq<Point>) -> bool {
    &&& ring.len() >= 3
    &&& all_finite(ring)
    &&& distinct_locations(ring)
    &&& drawn_from(ring, points)
}

/// The index that follows `i` round a ring of `n` vertices.
pub open spec fn next_index(i: int, n: int) -> int {
    if i + 1 == n {
        0
    } else {
        i + 1
    }
}

/// The edges of a ring: from each vertex to the one that follows it, the last
/// edge leading back to the first vertex.
pub open spec fn ring_edges(ring: Seq<Point>) -> Seq<Segment> {
    Seq::new(
        ring.len(),
        |i: int| Segment { start: ring[i], end: ring[next_index(i, ring.len() as int)] },
    )
}

/// Pairs of indices in dictionary order.
pub open spec fn pair_precedes(a: (usize, usize), b: (usize, usize)) -> bool {
    a.0 < b.0 || (a.0 == b.0 && a.1 < b.1)
}

/// Triples of indices in dictionary order.
pub open spec fn triple_precedes(a: (usize, usize, usize), b: (usize, usize, usize)) -> bool {
    a.0 < b.0 || (a.0 == b.0 && (a.1 < b.1 || (a.1 == b.1 && a.2 < b.2)))
}

/// No point has a coordinate below zero.
pub open spec fn in_first_quadrant(points: Seq<Point>) -> bool {
    forall|i: int|
        0 <= i < points.len() ==> (#[trigger] points[i]).x.rank() >= 0 && points[i].y.rank() >= 0
}

/// `m` is the greatest rank that a coordinate of the points has.
pub open spec fn is_top_rank(points: Seq<Point>, m: int) -> bool {
    &&& forall|i: int|
        0 <= i < points.len() ==> (#[trigger] points[i]).x.rank() <= m && points[i].y.rank() <= m
    &&& exists|i: int|
        0 <= i < points.len() && ((#[trigger] points[i]).x.rank() == m || points[i].y.rank() == m)
}

/// The greatest rank that a coordinate of the points has.
pub open spec fn top_rank(points: Seq<Point>) -> int {
    choose|m: int| is_top_rank(points, m)
}

/// Pattern of the side of the working square for coordinates up to rank `top`:
/// the least power of two that is at least one and above `top`, as long as a
/// finite double can be that; the largest finite power of two otherwise.
pub open spec fn box_side_bits(top: int) -> int {
    if top < ONE_BITS {
        ONE_BITS as int
    } else if top >= TOP_POWER_BITS {
        TOP_POWER_BITS as int
    } else {
        (top / (BINADE as int) + 1) * BINADE
    }
}

/// The side of the working square is a power of two, and not less than one:
/// it is two to the power of `k` units for some `k` from 1074, the power of
/// the number one, upwards.
pub proof fn lemma_box_side_is_power_of_two(top: int)
    ensures
        exists|k: nat| 1074 <= k && units_of(box_side_bits(top)) == #[trigger] pow2(k),
{
    let exponent = box_side_bits(top) / (BINADE as int);
    assert(1023 <= exponent <= 2046);
    assert(box_side_bits(top) == exponent * BINADE);
    lemma_empty_fraction_is_power_of_two(exponent as nat);
    assert(units_of(box_side_bits(top)) == pow2((exponent + 51) as nat));
}

/// The pairs of neighbours in a list of points, in order, as
/// `Itertools::tuple_windows` makes them. Taken on trust of that function:
/// for tuples of two it yields, for each position but the last, the item
/// there with the item after it, and nothing where there are fewer than two
/// items.
#[verifier::external_body]
fn adjacent_pairs(points: &Vec<Point>) -> (pairs: Vec<(Point, Point)>)
    ensures
        pairs@.len() == if points@.len() == 0 {
            0
        } else {
            points@.len() - 1
        },
        forall|i: int|
            0 <= i < pairs@.len() ==> #[trigger] pairs@[i] == (points@[i], points@[i + 1]),
{
    points.iter().cloned().tuple_windows().collect()
}

/// The vertices of a convex polygon, in the order in which they follow one
/// another round it.
///
/// A value of this type always has at least three vertices, all finite, no two
/// of them at one place. That the ring is convex and wound one way is the hull
/// computation's part: it takes arithmetic on doubles to tell.
#[derive(Debug)]
pub struct ConvexPolygon {
    vertices: Vec<Point>,
}

impl View for ConvexPolygon {
    type V = Seq<Point>;

    closed spec fn view(&self) -> Seq<Point> {
        self.vertices@
    }
}

impl ConvexPolygon {
    #[verifier::type_invariant]
    spec fn valid(self) -> bool {
        &&& self.vertices@.len() >= 3
        &&& all_finite(self.vertices@)
        &&& distinct_locations(self.vertices@)
    }

    /// Takes the ring that a convex hull computation made of `points` and
    /// keeps it as it is, if it is a ring over the points; refuses it if not.
    pub fn from_hull(points: &Vec<Point>, hull: Vec<Point>) -> (r: Result<
        ConvexPolygon,
        DegenerateInputError,
    >)
        ensures
            r.is_ok() == is_ring_over(hull@, points@),
            r matches Ok(polygon) ==> polygon@ == hull@,
    {
        let n: usize = hull.len();
        if n < 3 {
            return Err(DegenerateInputError);
        }
        let m: usize = points.len();
        let mut i: usize = 0;
        while i < n
            invariant
                i <= n,
                n == hull@.len(),
                m == points@.len(),
                forall|t: int| 0 <= t < i ==> (#[trigger] hull@[t]).spec_is_finite(),
                forall|t: int| 0 <= t < i ==> points@.contains(#[trigger] hull@[t]),
                forall|s: int, t: int|
                    0 <= s < t < i ==> (#[trigger] hull@[s]).location() != (
                    #[trigger] hull@[t]).location(),
            decreases n - i,
        {
            if !hull[i].is_finite() {
                return Err(DegenerateInputError);
            }
            let mut found: bool = false;
            let mut j: usize = 0;
            while j < m && !found
                invariant
                    j <= m,
                    m == points@.len(),
                    i < n,
                    n == hull@.len(),
                    found ==> points@.contains(hull@[i as int]),
                    !found ==> forall|t: int| 0 <= t < j ==> points@[t] != hull@[i as int],
                decreases m - j,
            {
                if points[j] == hull[i] {
                    found = true;
                }
                j = j + 1;
            }
            if !found {
                return Err(DegenerateInputError);
            }
            let mut k: usize = 0;
            while k < i
                invariant
                    k <= i,
                    i < n,
                    n == hull@.len(),
                    forall|s: int|
                        0 <= s < k ==> (#[trigger] hull@[s]).location() != hull@[i as int].location(),
                decreases i - k,
            {
                if hull[k].same_location(&hull[i]) {
                    return Err(DegenerateInputError);
                }
                k = k + 1;
            }
            i = i + 1;
        }
        Ok(ConvexPolygon { vertices: hull })
    }

    /// The number of vertices.
    pub fn len(&self) -> (n: usize)
        ensures
            n == self@.len(),
            n >= 3,
    {
        proof {
            use_type_invariant(self);
        }
        self.vertices.len()
    }

    /// The vertices, in ring order.
    pub fn vertices(&self) -> (v: &Vec<Point>)
        ensures
            v@ == self@,
            v@.len() >= 3,
            all_finite(v@),
            distinct_locations(v@),
    {
        proof {
            use_type_invariant(self);
        }
        &self.vertices
    }

    /// The edges of the polygon, one for each vertex, in ring order.
    pub fn edges(&self) -> (edges: Vec<Segment>)
        ensures
            edges@ == ring_edges(self@),
    {
        proof {
            use_type_invariant(self);
        }
        let n: usize = self.vertices.len();
        let mut closed: Vec<Point> = Vec::new();
        let mut i: usize = 0;
        while i < n
            invariant
                i <= n,
                n == self.vertices@.len(),
                closed@.len() == i,
                forall|t: int| 0 <= t < i ==> closed@[t] == self.vertices@[t],
            decreases n - i,
        {
            closed.push(self.vertices[i]);
            i = i + 1;
        }
        closed.push(self.vertices[0]);
        let pairs = adjacent_pairs(&closed);
        let mut edges: Vec<Segment> = Vec::new();
        let mut k: usize = 0;
        while k < n
            invariant
                k <= n,
                n >= 3,
                n == self.vertices@.len(),
                pairs@.len() == n,
                closed@.len() == n + 1,
                forall|t: int| 0 <= t < n ==> closed@[t] == self.vertices@[t],
                closed@[n as int] == self.vertices@[0],
                forall|t: int|
                    0 <= t < n ==> #[trigger] pairs@[t] == (closed@[t], closed@[t + 1]),
                edges@.len() == k,
                forall|t: int| 0 <= t < k ==> edges@[t] == ring_edges(self.vertices@)[t],
            decreases n - k,
        {
            let pair = pairs[k];
            edges.push(Segment { start: pair.0, end: pair.1 });
            k = k + 1;
        }
        edges
    }

    /// Every pair of different vertices, by their indices, once, in dictionary
    /// order. Each is the support of one candidate for the circumcircle: the
    /// circle that has the two vertices at the ends of a diameter.
    pub fn vertex_pairs(&self) -> (pairs: Vec<(usize, usize)>)
        ensures
            forall|t: int|
                0 <= t < pairs@.len() ==> (#[trigger] pairs@[t]).0 < pairs@[t].1 < self@.len(),
            forall|i: usize, j: usize| i < j < self@.len() ==> pairs@.contains((i, j)),
            forall|s: int, t: int|
                0 <= s < t < pairs@.len() ==> pair_precedes(pairs@[s], pairs@[t]),
    {
        let n: usize = self.vertices.len();
        let mut pairs: Vec<(usize, usize)> = Vec::new();
        let mut i: usize = 0;
        while i < n
            invariant
                i <= n,
                n == self.vertices@.len(),
                forall|t: int|
                    0 <= t < pairs@.len() ==> (#[trigger] pairs@[t]).0 < pairs@[t].1 < n
                        && pairs@[t].0 < i,
                forall|a: usize, b: usize| a < b < n && a < i ==> pairs@.contains((a, b)),
                forall|s: int, t: int|
                    0 <= s < t < pairs@.len() ==> pair_precedes(pairs@[s], pairs@[t]),
            decreases n - i,
        {
            let mut j: usize = i + 1;
            while j < n
                invariant
                    i < n,
                    i < j <= n,
                    n == self.vertices@.len(),
                    forall|t: int|
                        0 <= t < pairs@.len() ==> (#[trigger] pairs@[t]).0 < pairs@[t].1 < n && (
                        pairs@[t].0 < i || (pairs@[t].0 == i && pairs@[t].1 < j)),
                    forall|a: usize, b: usize|
                        a < b < n && (a < i || (a == i && b < j)) ==> pairs@.contains((a, b)),
                    forall|s: int, t: int|
                        0 <= s < t < pairs@.len() ==> pair_precedes(pairs@[s], pairs@[t]),
                decreases n - j,
            {
                let ghost before = pairs@;
                pairs.push((i, j));
                assert forall|a: usize, b: usize|
                    a < b < n && (a < i || (a == i && b < j + 1)) implies pairs@.contains(
                    (a, b),
                ) by {
                    if a == i && b == j {
                        assert(pairs@[before.len() as int] == (a, b));
                    } else {
                        assert(before.contains((a, b)));
                        let w = choose|w: int| 0 <= w < before.len() && before[w] == (a, b);
                        assert(pairs@[w] == (a, b));
                    }
                }
                j = j + 1;
            }
            i = i + 1;
        }
        pairs
    }

    /// Every set of three different vertices, by their indices, once, in
    /// dictionary order. Each is the support of one candidate for the
    /// circumcircle: the circle through the three vertices.
    pub fn vertex_triples(&self) -> (triples: Vec<(usize, usize, usize)>)
        ensures
            forall|t: int|
                0 <= t < triples@.len() ==> (#[trigger] triples@[t]).0 < triples@[t].1
                    < triples@[t].2 < self@.len(),
            forall|i: usize, j: usize, k: usize|
                i < j < k < self@.len() ==> triples@.contains((i, j, k)),
            forall|s: int, t: int|
                0 <= s < t < triples@.len() ==> triple_precedes(triples@[s], triples@[t]),
    {
        let n: usize = self.vertices.len();
        let mut triples: Vec<(usize, usize, usize)> = Vec::new();
        let mut i: usize = 0;
        while i < n
            invariant
                i <= n,
                n == self.vertices@.len(),
                forall|t: int|
                    0 <= t < triples@.len() ==> (#[trigger] triples@[t]).0 < triples@[t].1
                        < triples@[t].2 < n && triples@[t].0 < i,
                forall|a: usize, b: usize, c: usize|
                    a < b < c < n && a < i ==> triples@.contains((a, b, c)),
                forall|s: int, t: int|
                    0 <= s < t < triples@.len() ==> triple_precedes(triples@[s], triples@[t]),
            decreases n - i,
        {
            let mut j: usize = i + 1;
            while j < n
                invariant
                    i < n,
                    i < j <= n,
                    n == self.vertices@.len(),
                    forall|t: int|
                        0 <= t < triples@.len() ==> (#[trigger] triples@[t]).0 < triples@[t].1
                            < triples@[t].2 < n && (triples@[t].0 < i || (triples@[t].0 == i
                            && triples@[t].1 < j)),
                    forall|a: usize, b: usize, c: usize|
                        a < b < c < n && (a < i || (a == i && b < j)) ==> triples@.contains(
                            (a, b, c),
                        ),
                    forall|s: int, t: int|
                        0 <= s < t < triples@.len() ==> triple_precedes(triples@[s], triples@[t]),
                decreases n - j,
            {
                let mut k: usize = j + 1;
                while k < n
                    invariant
                        i < j < n,
                        j < k <= n,
                        n == self.vertices@.len(),
                        forall|t: int|
                            0 <= t < triples@.len() ==> (#[trigger] triples@[t]).0 < triples@[t].1
                                < triples@[t].2 < n && (triples@[t].0 < i || (triples@[t].0 == i
                                && (triples@[t].1 < j || (triples@[t].1 == j && triples@[t].2
                                < k)))),
                        forall|a: usize, b: usize, c: usize|
                            a < b < c < n && (a < i || (a == i && (b < j || (b == j && c < k))))
                                ==> triples@.contains((a, b, c)),
                        forall|s: int, t: int|
                            0 <= s < t < triples@.len() ==> triple_precedes(
                                triples@[s],
                                triples@[t],
                            ),
                    decreases n - k,
                {
                    let ghost before = triples@;
                    triples.push((i, j, k));
                    assert forall|a: usize, b: usize, c: usize|
                        a < b < c < n && (a < i || (a == i && (b < j || (b == j && c < k + 1))))
                        implies triples@.contains((a, b, c)) by {
                        if a == i && b == j && c == k {
                            assert(triples@[before.len() as int] == (a, b, c));
                        } else {
                            assert(before.contains((a, b, c)));
                            let w = choose|w: int|
                                0 <= w < before.len() && before[w] == (a, b, c);
                            assert(triples@[w] == (a, b, c));
                        }
                    }
                    k = k + 1;
                }
                j = j + 1;
            }
            i = i + 1;
        }
        triples
    }

    /// The side of the square, with one corner at the origin, that a Voronoi
    /// diagram of the vertices is worked out in: a power of two, at least one,
    /// and above every coordinate wherever a finite power of two is.
    ///
    /// The polygon has to lie in the quadrant of the square: there is no side
    /// for a polygon with a coordinate below zero, which has to be moved first
    /// (see `lower_corner`). With the side above every coordinate, the far
    /// sides of the square do not touch the polygon, and the near sides touch
    /// it at most along its boundary.
    pub fn working_box_side(&self) -> (side: Option<Scalar>)
        ensures
            side is Some == in_first_quadrant(self@),
            side matches Some(s) ==> {
                &&& is_top_rank(self@, top_rank(self@))
                &&& s.bits == box_side_bits(top_rank(self@))
                &&& ONE_BITS <= s.bits <= TOP_POWER_BITS
                &&& s.bits % BINADE == 0
                &&& forall|i: int|
                    0 <= i < self@.len() && top_rank(self@) < TOP_POWER_BITS ==> (
                    #[trigger] self@[i]).x.rank() < s.rank() && self@[i].y.rank() < s.rank()
            },
    {
        proof {
            use_type_invariant(self);
        }
        let n: usize = self.vertices.len();
        let mut top: i64 = self.vertices[0].x.key();
        let mut i: usize = 0;
        while i < n
            invariant
                i <= n,
                n >= 3,
                n == self.vertices@.len(),
                forall|t: int|
                    0 <= t < i ==> 0 <= (#[trigger] self.vertices@[t]).x.rank() <= top && 0
                        <= self.vertices@[t].y.rank() <= top,
                exists|t: int|
                    0 <= t < n && ((#[trigger] self.vertices@[t]).x.rank() == top
                        || self.vertices@[t].y.rank() == top),
            decreases n - i,
        {
            let x: i64 = self.vertices[i].x.key();
            let y: i64 = self.vertices[i].y.key();
            if x < 0 || y < 0 {
                return None;
            }
            if x > top {
                top = x;
            }
            if y > top {
                top = y;
            }
            i = i + 1;
        }
        assert(is_top_rank(self@, top as int));
        assert(top_rank(self@) == top) by {
            let other = top_rank(self@);
            assert(is_top_rank(self@, other));
        }
        if top < ONE_BITS as i64 {
            Some(Scalar { bits: ONE_BITS })
        } else if top >= TOP_POWER_BITS as i64 {
            Some(Scalar { bits: TOP_POWER_BITS })
        } else {
            let binade: u64 = top as u64 / BINADE;
            let bits: u64 = (binade + 1) * BINADE;
            assert(bits % BINADE == 0) by (nonlinear_arith)
                requires
                    bits == (binade + 1) * BINADE,
                    BINADE == 0x0010_0000_0000_0000,
            ;
            Some(Scalar { bits })
        }
    }
}

} // verus!
