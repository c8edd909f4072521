//! The points as they are given: which of them are degenerate, and where
//! their lower left corner lies.

use crate::error::DegenerateInputError;
use crate::order::{is_first_least, least_index, lemma_first_least_unique};
use crate::point::Point;
use crate::scalar::Scalar;
use vstd::prelude::*;

verus! {

/// Every point has finite coordinates.
pub open spec fn all_finite(points: Seq<Point>) -> bool {
    forall|i: int| 0 <= i < points.len() ==> (#[trigger] points[i]).spec_is_finite()
}

/// The points at `i`, `j` and `k` lie at three different places.
pub open spec fn is_spanning_triple(points: Seq<Point>, i: int, j: int, k: int) -> bool {
    &&& 0 <= i < points.len()
    &&& 0 <= j < points.len()
    &&& 0 <= k < points.len()
    &&& points[i].location() != points[j].location()
    &&& points[i].location() != points[k].location()
    &&& points[j].location() != points[k].location()
}

/// The points name at least three different places.
pub open spec fn spans_three_locations(points: Seq<Point>) -> bool {
    exists|i: int, j: int, k: int| is_spanning_triple(points, i, j, k)
}

/// The points can be handed to a convex hull: all are finite, and they name at
/// least three different places.
pub open spec fn admissible(points: Seq<Point>) -> bool {
    all_finite(points) && spans_three_locations(points)
}

/// The first coordinates of the points, in the order of the points.
pub open spec fn abscissas(points: Seq<Point>) -> Seq<Scalar> {
    Seq::new(points.len(), |i: int| points[i].x)
}

/// The second coordinates of the points, in the order of the points.
pub open spec fn ordinates(points: Seq<Point>) -> Seq<Scalar> {
    Seq::new(points.len(), |i: int| points[i].y)
}

/// The lower left corner of the smallest upright rectangle that holds the
/// points: the least of their first coordinates and the least of their
/// second coordinates, each the first of its rank among the points.
pub open spec fn spec_lower_corner(points: Seq<Point>) -> Point {
    Point {
        x: abscissas(points)[least_index(abscissas(points))],
        y: ordinates(points)[least_index(ordinates(points))],
    }
}

/// Whether points are admissible does not depend on their order, nor on how
/// often each of them is given: two lists of the same points are both
/// admissible or both not.
pub proof fn lemma_admissible_ignores_order(a: Seq<Point>, b: Seq<Point>)
    requires
        forall|p: Point| a.contains(p) == b.contains(p),
    ensures
        admissible(a) == admissible(b),
{
    lemma_admissible_carries_over(a, b);
    lemma_admissible_carries_over(b, a);
}

/// Points stay admissible when they are given in another list that holds
/// each of them.
pub proof fn lemma_admissible_carries_over(a: Seq<Point>, b: Seq<Point>)
    requires
        forall|p: Point| a.contains(p) == b.contains(p),
    ensures
        admissible(a) ==> admissible(b),
{
    if admissible(a) {
        assert forall|t: int| 0 <= t < b.len() implies (#[trigger] b[t]).spec_is_finite() by {
            assert(b.contains(b[t]));
            assert(a.contains(b[t]));
        }
        let (i, j, k) = choose|i: int, j: int, k: int| is_spanning_triple(a, i, j, k);
        assert(a.contains(a[i]) && a.contains(a[j]) && a.contains(a[k]));
        assert(b.contains(a[i]) && b.contains(a[j]) && b.contains(a[k]));
        let bi = choose|t: int| 0 <= t < b.len() && b[t] == a[i];
        let bj = choose|t: int| 0 <= t < b.len() && b[t] == a[j];
        let bk = choose|t: int| 0 <= t < b.len() && b[t] == a[k];
        assert(is_spanning_triple(b, bi, bj, bk));
    }
}

/// Fewer than three points are never admissible.
pub proof fn lemma_few_points_are_degenerate(points: Seq<Point>)
    requires
        points.len() < 3,
    ensures
        !admissible(points),
{
    assert forall|i: int, j: int, k: int| !is_spanning_triple(points, i, j, k) by {
        if is_spanning_triple(points, i, j, k) {
            assert(i != j && i != k && j != k);
        }
    }
}

/// Points that all lie at one of two places are never admissible, however
/// many they are. With `p == q` these are points that all lie at one place.
pub proof fn lemma_two_places_are_degenerate(points: Seq<Point>, p: Point, q: Point)
    requires
        forall|i: int|
            0 <= i < points.len() ==> (#[trigger] points[i]).location() == p.location()
                || points[i].location() == q.location(),
    ensures
        !admissible(points),
{
    assert forall|i: int, j: int, k: int| !is_spanning_triple(points, i, j, k) by {
        if 0 <= i < points.len() && 0 <= j < points.len() && 0 <= k < points.len() {
            assert(points[i].location() == p.location() || points[i].location() == q.location());
            assert(points[j].location() == p.location() || points[j].location() == q.location());
            assert(points[k].location() == p.location() || points[k].location() == q.location());
        }
    }
}

/// A point whose coordinate is NaN or infinite makes the points inadmissible.
pub proof fn lemma_stray_point_is_degenerate(points: Seq<Point>, i: int)
    requires
        0 <= i < points.len(),
        !points[i].spec_is_finite(),
    ensures
        !admissible(points),
{
}

/// Decides whether the points are degenerate before any hull is computed:
/// they are unless all are finite and three of them lie at different places.
///
/// Points in one line pass. That they span no area shows in their hull, which
/// has two vertices, and is refused as a ring.
pub fn screen_points(points: &Vec<Point>) -> (r: Result<(), DegenerateInputError>)
    ensures
        r.is_ok() == admissible(points@),
{
    let n: usize = points.len();
    let mut i: usize = 0;
    while i < n
        invariant
            i <= n,
            n == points@.len(),
            forall|t: int| 0 <= t < i ==> (#[trigger] points@[t]).spec_is_finite(),
        decreases n - i,
    {
        if !points[i].is_finite() {
            return Err(DegenerateInputError);
        }
        i = i + 1;
    }
    if n == 0 {
        return Err(DegenerateInputError);
    }
    // The first point that lies away from points[0].
    let mut second: usize = n;
    let mut j: usize = 1;
    while j < n && second == n
        invariant
            1 <= j <= n,
            n == points@.len(),
            second == n || (second < j && points@[second as int].location()
                != points@[0].location()),
            second == n ==> forall|t: int|
                0 <= t < j ==> (#[trigger] points@[t]).location() == points@[0].location(),
        decreases n - j,
    {
        if !points[j].same_location(&points[0]) {
            second = j;
        }
        j = j + 1;
    }
    if second == n {
        assert forall|a: int, b: int, c: int| !is_spanning_triple(points@, a, b, c) by {
            if 0 <= a < n && 0 <= b < n {
                assert(points@[a].location() == points@[0].location());
                assert(points@[b].location() == points@[0].location());
            }
        }
        return Err(DegenerateInputError);
    }
    // The first point that lies away from both.
    let mut third: usize = n;
    let mut k: usize = 1;
    while k < n && third == n
        invariant
            1 <= k <= n,
            n == points@.len(),
            second < n,
            points@[second as int].location() != points@[0].location(),
            third == n || (third < k && points@[third as int].location() != points@[0].location()
                && points@[third as int].location() != points@[second as int].location()),
            third == n ==> forall|t: int|
                0 <= t < k ==> (#[trigger] points@[t]).location() == points@[0].location()
                    || points@[t].location() == points@[second as int].location(),
        decreases n - k,
    {
        if !points[k].same_location(&points[0]) && !points[k].same_location(&points[second]) {
            third = k;
        }
        k = k + 1;
    }
    if third == n {
        assert forall|a: int, b: int, c: int| !is_spanning_triple(points@, a, b, c) by {
            if 0 <= a < n && 0 <= b < n && 0 <= c < n {
                assert(points@[a].location() == points@[0].location() || points@[a].location()
                    == points@[second as int].location());
                assert(points@[b].location() == points@[0].location() || points@[b].location()
                    == points@[second as int].location());
                assert(points@[c].location() == points@[0].location() || points@[c].location()
                    == points@[second as int].location());
            }
        }
        return Err(DegenerateInputError);
    }
    assert(is_spanning_triple(points@, 0, second as int, third as int));
    Ok(())
}

/// The lower left corner of the points, for moving them to the origin: a
/// Voronoi diagram is worked out in a square that has one corner there. No
/// point lies left of the corner or below it. There is no corner of no points.
pub fn lower_corner(points: &Vec<Point>) -> (corner: Option<Point>)
    ensures
        corner == if points@.len() == 0 {
            None
        } else {
            Some(spec_lower_corner(points@))
        },
        corner matches Some(c) ==> forall|i: int|
            0 <= i < points@.len() ==> c.x.rank() <= (#[trigger] points@[i]).x.rank() && c.y.rank()
                <= points@[i].y.rank(),
{
    let n: usize = points.len();
    if n == 0 {
        return None;
    }
    let ghost xs = abscissas(points@);
    let ghost ys = ordinates(points@);
    let mut left: usize = 0;
    let mut low: usize = 0;
    let mut i: usize = 1;
    while i < n
        invariant
            1 <= i <= n,
            n == points@.len(),
            xs == abscissas(points@),
            ys == ordinates(points@),
            is_first_least(xs, i as int, left as int),
            is_first_least(ys, i as int, low as int),
        decreases n - i,
    {
        if points[i].x.key() < points[left].x.key() {
            left = i;
        }
        if points[i].y.key() < points[low].y.key() {
            low = i;
        }
        i = i + 1;
    }
    proof {
        lemma_first_least_unique(xs, left as int);
        lemma_first_least_unique(ys, low as int);
        assert forall|t: int| 0 <= t < points@.len() implies xs[left as int].rank() <= (
        #[trigger] points@[t]).x.rank() && ys[low as int].rank() <= points@[t].y.rank() by {
            assert(xs[t] == points@[t].x);
            assert(ys[t] == points@[t].y);
        }
    }
    Some(Point { x: points[left].x, y: points[low].y })
}

} // verus!
