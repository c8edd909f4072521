//! The circumcircle: of the candidate centres, the one from which the farthest
//! vertex of the polygon is nearest.
//!
//! The smallest circle round a set of points has two of them at the ends of a
//! diameter, or three of them on its rim. So the candidates are the centres
//! that the pairs and the triples of vertices give, and round each the
//! smallest circle that holds every vertex is the one whose radius is the
//! distance to the farthest vertex. The least of those circles is the
//! circumcircle.

use crate::circle::Circle;
use crate::error::ComputationError;
use crate::measure::{
    all_distances, farthest, is_image, keeps_order, lemma_reach_follows_distances, reach,
};
use crate::order::lemma_greatest_index;
use crate::point::Point;
use crate::polygon::ConvexPolygon;
use crate::scalar::Scalar;
use vstd::prelude::*;

verus! {

/// A candidate centre for the circumcircle, with its distance to each vertex
/// of the polygon.
#[derive(Debug)]
pub struct Enclosure {
    /// The centre that a pair or a triple of vertices gives. Three vertices
    /// in line give none: then a coordinate is not finite, and the candidate
    /// is passed over.
    pub centre: Point,
    /// For a finite centre, its distance to each vertex of the polygon, in
    /// ring order. Not read otherwise.
    pub vertex_distances: Vec<Scalar>,
}

/// A candidate with a finite centre brings one distance for each of the
/// `vertices`.
pub open spec fn is_sized(candidate: Enclosure, vertices: int) -> bool {
    candidate.centre.spec_is_finite() ==> candidate.vertex_distances@.len() == vertices
        && all_distances(candidate.vertex_distances@)
}

/// Every candidate with a finite centre brings one distance for each of the
/// `vertices`.
pub open spec fn all_sized(candidates: Seq<Enclosure>, vertices: int) -> bool {
    forall|i: int| 0 <= i < candidates.len() ==> is_sized(#[trigger] candidates[i], vertices)
}

/// One of the candidates has a finite centre.
pub open spec fn any_centred(candidates: Seq<Enclosure>) -> bool {
    exists|i: int| 0 <= i < candidates.len() && (#[trigger] candidates[i]).centre.spec_is_finite()
}

/// Among the first `n` candidates, the one at `i` has a finite centre, none
/// with a finite centre has a reach of lesser rank, and it is the first of
/// which that holds.
pub open spec fn is_tightest(candidates: Seq<Enclosure>, n: int, i: int) -> bool {
    &&& 0 <= i < n <= candidates.len()
    &&& candidates[i].centre.spec_is_finite()
    &&& forall|j: int|
        0 <= j < n && (#[trigger] candidates[j]).centre.spec_is_finite() ==> reach(
            candidates[i].vertex_distances@,
        ).rank() <= reach(candidates[j].vertex_distances@).rank()
    &&& forall|j: int|
        0 <= j < i && (#[trigger] candidates[j]).centre.spec_is_finite() ==> reach(
            candidates[i].vertex_distances@,
        ).rank() < reach(candidates[j].vertex_distances@).rank()
}

/// Where the candidate stands whose circle is the circumcircle.
pub open spec fn tightest_index(candidates: Seq<Enclosure>) -> int {
    choose|i: int| is_tightest(candidates, candidates.len() as int, i)
}

/// Only one index is the first of least reach.
pub proof fn lemma_tightest_unique(candidates: Seq<Enclosure>, i: int)
    requires
        is_tightest(candidates, candidates.len() as int, i),
    ensures
        any_centred(candidates),
        i == tightest_index(candidates),
{
    let k = tightest_index(candidates);
    assert(is_tightest(candidates, candidates.len() as int, k));
    if i < k {
        assert(candidates[i].centre.spec_is_finite());
    } else if k < i {
        assert(candidates[k].centre.spec_is_finite());
    }
}

/// The radius of the circumcircle that the candidates give: the least reach
/// that a candidate with a finite centre has.
pub open spec fn circumcircle_radius(candidates: Seq<Enclosure>) -> Scalar {
    reach(candidates[tightest_index(candidates)].vertex_distances@)
}

/// A candidate with a finite centre has a reach of rank `r`.
pub open spec fn has_reach(candidates: Seq<Enclosure>, r: int) -> bool {
    exists|i: int|
        0 <= i < candidates.len() && (#[trigger] candidates[i]).centre.spec_is_finite() && reach(
            candidates[i].vertex_distances@,
        ).rank() == r
}

/// Where a candidate among the first `n` has a finite centre, one of them is
/// the first of least reach.
pub proof fn lemma_tightest_exists(candidates: Seq<Enclosure>, n: int)
    requires
        0 <= n <= candidates.len(),
        exists|i: int| 0 <= i < n && (#[trigger] candidates[i]).centre.spec_is_finite(),
    ensures
        exists|i: int| is_tightest(candidates, n, i),
    decreases n,
{
    let m = n - 1;
    if exists|i: int| 0 <= i < m && (#[trigger] candidates[i]).centre.spec_is_finite() {
        lemma_tightest_exists(candidates, m);
        let before = choose|i: int| is_tightest(candidates, m, i);
        if candidates[m].centre.spec_is_finite() && reach(candidates[m].vertex_distances@).rank()
            < reach(candidates[before].vertex_distances@).rank() {
            assert(is_tightest(candidates, n, m));
        } else {
            assert(is_tightest(candidates, n, before));
        }
    } else {
        assert(candidates[m].centre.spec_is_finite());
        assert(is_tightest(candidates, n, m));
    }
}

/// The radius of the circumcircle does not depend on the order of the
/// candidates, nor on how often each stands among them: where the same
/// reaches occur among the candidates with a finite centre, and there is
/// such a candidate, the radii have one rank.
pub proof fn lemma_circumcircle_ignores_order(a: Seq<Enclosure>, b: Seq<Enclosure>)
    requires
        any_centred(a),
        forall|r: int| has_reach(a, r) == has_reach(b, r),
    ensures
        any_centred(b),
        circumcircle_radius(a).rank() == circumcircle_radius(b).rank(),
{
    let i = choose|i: int| 0 <= i < a.len() && (#[trigger] a[i]).centre.spec_is_finite();
    assert(has_reach(a, reach(a[i].vertex_distances@).rank()));
    assert(has_reach(b, reach(a[i].vertex_distances@).rank()));
    assert(any_centred(b));
    lemma_tightest_exists(a, a.len() as int);
    lemma_tightest_exists(b, b.len() as int);
    let ta = tightest_index(a);
    let tb = tightest_index(b);
    assert(has_reach(a, reach(a[ta].vertex_distances@).rank()));
    assert(has_reach(b, reach(a[ta].vertex_distances@).rank()));
    assert(has_reach(b, reach(b[tb].vertex_distances@).rank()));
    assert(has_reach(a, reach(b[tb].vertex_distances@).rank()));
}

/// `b` is `a` with every distance of a candidate with a finite centre changed
/// by `f`: as many candidates, the same of them with a finite centre, and each
/// of those with as many distances as before, at least one.
pub open spec fn is_rescaled(a: Seq<Enclosure>, b: Seq<Enclosure>, f: spec_fn(int) -> int) -> bool {
    &&& a.len() == b.len()
    &&& forall|i: int|
        0 <= i < a.len() ==> (#[trigger] a[i]).centre.spec_is_finite() == (
        #[trigger] b[i]).centre.spec_is_finite() && (a[i].centre.spec_is_finite()
            ==> a[i].vertex_distances@.len() > 0 && is_image(
            a[i].vertex_distances@,
            b[i].vertex_distances@,
            f,
        ))
}

/// The radius of the circumcircle goes with the distances: where every
/// distance changes in a way that keeps their order, as all do when the plane
/// is scaled, the radius changes in that way too.
pub proof fn lemma_circumcircle_follows_distances(
    a: Seq<Enclosure>,
    b: Seq<Enclosure>,
    f: spec_fn(int) -> int,
)
    requires
        keeps_order(f),
        is_rescaled(a, b, f),
        any_centred(a),
    ensures
        any_centred(b),
        circumcircle_radius(b).rank() == f(circumcircle_radius(a).rank()),
{
    let i = choose|i: int| 0 <= i < a.len() && (#[trigger] a[i]).centre.spec_is_finite();
    assert(b[i].centre.spec_is_finite());
    lemma_tightest_exists(a, a.len() as int);
    lemma_tightest_exists(b, b.len() as int);
    let ta = tightest_index(a);
    let tb = tightest_index(b);
    assert(a[tb].centre.spec_is_finite() == b[tb].centre.spec_is_finite());
    assert(a[ta].centre.spec_is_finite() == b[ta].centre.spec_is_finite());
    lemma_reach_follows_distances(a[ta].vertex_distances@, b[ta].vertex_distances@, f);
    lemma_reach_follows_distances(a[tb].vertex_distances@, b[tb].vertex_distances@, f);
    assert(reach(b[tb].vertex_distances@).rank() <= reach(b[ta].vertex_distances@).rank());
    assert(reach(a[ta].vertex_distances@).rank() <= reach(a[tb].vertex_distances@).rank());
    assert(f(reach(a[ta].vertex_distances@).rank()) <= f(reach(a[tb].vertex_distances@).rank()));
}

/// The circumcircle of a polygon, from the candidates measured against its
/// vertices: the centre of the tightest candidate, and its distance to the
/// farthest vertex as the radius.
///
/// Fails with `NotMeasurable` if a candidate with a finite centre does not
/// bring one distance for each vertex of the polygon, and with `NoCandidate`
/// if all is measured but no centre is finite.
pub fn circumcircle(polygon: &ConvexPolygon, candidates: &Vec<Enclosure>) -> (r: Result<
    Circle,
    ComputationError,
>)
    ensures
        match r {
            Ok(circle) => {
                &&& all_sized(candidates@, polygon@.len() as int)
                &&& any_centred(candidates@)
                &&& is_tightest(
                    candidates@,
                    candidates@.len() as int,
                    tightest_index(candidates@),
                )
                &&& circle.spec_centre() == candidates@[tightest_index(candidates@)].centre
                &&& circle.spec_radius() == circumcircle_radius(candidates@)
                &&& forall|v: int|
                    0 <= v < polygon@.len() ==> (
                    #[trigger] candidates@[tightest_index(candidates@)].vertex_distances@[v]).rank()
                        <= circle.spec_radius().rank()
            },
            Err(ComputationError::NotMeasurable) => !all_sized(
                candidates@,
                polygon@.len() as int,
            ),
            Err(ComputationError::NoCandidate) => all_sized(candidates@, polygon@.len() as int)
                && !any_centred(candidates@),
            Err(ComputationError::DivisionByZero) => false,
        },
{
    let vertices: usize = polygon.len();
    let n: usize = candidates.len();
    let mut found: bool = false;
    let mut best: usize = 0;
    let mut radius: Scalar = Scalar::zero();
    let mut i: usize = 0;
    while i < n
        invariant
            i <= n,
            n == candidates@.len(),
            vertices == polygon@.len(),
            forall|t: int| 0 <= t < i ==> is_sized(#[trigger] candidates@[t], vertices as int),
            !found ==> forall|t: int|
                0 <= t < i ==> !(#[trigger] candidates@[t]).centre.spec_is_finite(),
            found ==> is_tightest(candidates@, i as int, best as int) && radius == reach(
                candidates@[best as int].vertex_distances@,
            ),
            radius.spec_is_distance(),
        decreases n - i,
    {
        if candidates[i].centre.is_finite() {
            if candidates[i].vertex_distances.len() != vertices {
                return Err(ComputationError::NotMeasurable);
            }
            match farthest(&candidates[i].vertex_distances) {
                Ok(d) => {
                    if !found || d.key() < radius.key() {
                        found = true;
                        best = i;
                        radius = d;
                    }
                },
                Err(_) => {
                    return Err(ComputationError::NotMeasurable);
                },
            }
        }
        i = i + 1;
    }
    if !found {
        return Err(ComputationError::NoCandidate);
    }
    proof {
        lemma_tightest_unique(candidates@, best as int);
        lemma_greatest_index(candidates@[best as int].vertex_distances@);
    }
    let centre: Point = candidates[best].centre;
    match Circle::new(centre, radius) {
        Ok(circle) => Ok(circle),
        Err(e) => Err(e),
    }
}

} // verus!
