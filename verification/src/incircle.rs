//! The incircle estimate: of the candidate centres inside the polygon, the
//! one that keeps the greatest distance from the polygon's nearest edge.

use crate::circle::Circle;
use crate::error::ComputationError;
use crate::measure::{
    all_distances, clearance, is_image, keeps_order, lemma_clearance_follows_distances, nearest,
};
use crate::order::lemma_least_index;
use crate::point::Point;
use crate::polygon::ConvexPolygon;
use crate::scalar::Scalar;
use vstd::prelude::*;

verus! {

/// What was measured of one candidate centre for the incircle, a vertex of
/// the Voronoi diagram of the polygon's vertices.
#[derive(Debug)]
pub struct Candidate {
    /// The centre lies in the polygon or on its boundary.
    pub inside: bool,
    /// For a centre inside, its distance to each edge of the polygon, in the
    /// order of the edges. Not read for a centre outside.
    pub edge_distances: Vec<Scalar>,
}

/// A candidate inside brings one distance for each of the `edges`.
pub open spec fn is_measured(candidate: Candidate, edges: int) -> bool {
    candidate.inside ==> candidate.edge_distances@.len() == edges && all_distances(
        candidate.edge_distances@,
    )
}

/// Every candidate inside brings one distance for each of the `edges`.
pub open spec fn all_measured(candidates: Seq<Candidate>, edges: int) -> bool {
    forall|i: int| 0 <= i < candidates.len() ==> is_measured(#[trigger] candidates[i], edges)
}

/// One of the candidates lies inside.
pub open spec fn any_inside(candidates: Seq<Candidate>) -> bool {
    exists|i: int| 0 <= i < candidates.len() && (#[trigger] candidates[i]).inside
}

/// Among the first `n` candidates, the one at `i` lies inside, none inside has
/// a clearance of greater rank, and it is the last of which that holds.
pub open spec fn is_widest(candidates: Seq<Candidate>, n: int, i: int) -> bool {
    &&& 0 <= i < n <= candidates.len()
    &&& candidates[i].inside
    &&& forall|j: int|
        0 <= j < n && (#[trigger] candidates[j]).inside ==> clearance(
            candidates[j].edge_distances@,
        ).rank() <= clearance(candidates[i].edge_distances@).rank()
    &&& forall|j: int|
        i < j < n && (#[trigger] candidates[j]).inside ==> clearance(
            candidates[j].edge_distances@,
        ).rank() < clearance(candidates[i].edge_distances@).rank()
}

/// Where the candidate stands whose circle is the incircle estimate.
pub open spec fn widest_index(candidates: Seq<Candidate>) -> int {
    choose|i: int| is_widest(candidates, candidates.len() as int, i)
}

/// The radius of the incircle estimate: the greatest clearance that a
/// candidate inside has, each clearance being the least of the candidate's
/// distances to the edges; positive zero where no candidate lies inside.
pub open spec fn incircle_radius(candidates: Seq<Candidate>) -> Scalar {
    if any_inside(candidates) {
        clearance(candidates[widest_index(candidates)].edge_distances@)
    } else {
        Scalar { bits: 0 }
    }
}

/// Only one index is the last of greatest clearance.
pub proof fn lemma_widest_unique(candidates: Seq<Candidate>, i: int)
    requires
        is_widest(candidates, candidates.len() as int, i),
    ensures
        any_inside(candidates),
        i == widest_index(candidates),
        incircle_radius(candidates) == clearance(candidates[i].edge_distances@),
{
    let k = widest_index(candidates);
    assert(is_widest(candidates, candidates.len() as int, k));
    if i < k {
        assert(candidates[k].inside);
    } else if k < i {
        assert(candidates[i].inside);
    }
}

/// A candidate inside has a clearance of rank `r`.
pub open spec fn has_clearance(candidates: Seq<Candidate>, r: int) -> bool {
    exists|i: int|
        0 <= i < candidates.len() && (#[trigger] candidates[i]).inside && clearance(
            candidates[i].edge_distances@,
        ).rank() == r
}

/// The radius of the incircle estimate does not depend on the order of the
/// candidates, nor on how often each stands among them: where the same
/// clearances occur among the candidates inside, the radii have one rank.
pub proof fn lemma_incircle_ignores_order(a: Seq<Candidate>, b: Seq<Candidate>)
    requires
        forall|r: int| has_clearance(a, r) == has_clearance(b, r),
    ensures
        incircle_radius(a).rank() == incircle_radius(b).rank(),
{
    if any_inside(a) {
        let i = choose|i: int| 0 <= i < a.len() && (#[trigger] a[i]).inside;
        assert(has_clearance(a, clearance(a[i].edge_distances@).rank()));
        assert(has_clearance(b, clearance(a[i].edge_distances@).rank()));
        assert(any_inside(b));
        lemma_widest_exists(a, a.len() as int);
        lemma_widest_exists(b, b.len() as int);
        let wa = widest_index(a);
        let wb = widest_index(b);
        assert(has_clearance(a, clearance(a[wa].edge_distances@).rank()));
        assert(has_clearance(b, clearance(a[wa].edge_distances@).rank()));
        assert(has_clearance(b, clearance(b[wb].edge_distances@).rank()));
        assert(has_clearance(a, clearance(b[wb].edge_distances@).rank()));
    } else if any_inside(b) {
        let j = choose|j: int| 0 <= j < b.len() && (#[trigger] b[j]).inside;
        assert(has_clearance(b, clearance(b[j].edge_distances@).rank()));
        assert(has_clearance(a, clearance(b[j].edge_distances@).rank()));
    }
}

/// Where a candidate among the first `n` lies inside, one of them is the
/// last of greatest clearance.
pub proof fn lemma_widest_exists(candidates: Seq<Candidate>, n: int)
    requires
        0 <= n <= candidates.len(),
        exists|i: int| 0 <= i < n && (#[trigger] candidates[i]).inside,
    ensures
        exists|i: int| is_widest(candidates, n, i),
    decreases n,
{
    let m = n - 1;
    if exists|i: int| 0 <= i < m && (#[trigger] candidates[i]).inside {
        lemma_widest_exists(candidates, m);
        let before = choose|i: int| is_widest(candidates, m, i);
        if candidates[m].inside && clearance(candidates[m].edge_distances@).rank() >= clearance(
            candidates[before].edge_distances@,
        ).rank() {
            assert(is_widest(candidates, n, m));
        } else {
            assert(is_widest(candidates, n, before));
        }
    } else {
        assert(candidates[m].inside);
        assert(is_widest(candidates, n, m));
    }
}

/// `b` is `a` with every distance of a candidate inside changed by `f`: as
/// many candidates, the same of them inside, and each of those with as many
/// distances as before, at least one.
pub open spec fn is_rescaled(a: Seq<Candidate>, b: Seq<Candidate>, f: spec_fn(int) -> int) -> bool {
    &&& a.len() == b.len()
    &&& forall|i: int|
        0 <= i < a.len() ==> (#[trigger] a[i]).inside == (#[trigger] b[i]).inside && (a[i].inside
            ==> a[i].edge_distances@.len() > 0 && is_image(
            a[i].edge_distances@,
            b[i].edge_distances@,
            f,
        ))
}

/// The radius of the incircle estimate goes with the distances: where every
/// distance changes in a way that keeps their order, as all do when the plane
/// is scaled, the radius changes in that way too.
pub proof fn lemma_incircle_follows_distances(
    a: Seq<Candidate>,
    b: Seq<Candidate>,
    f: spec_fn(int) -> int,
)
    requires
        keeps_order(f),
        is_rescaled(a, b, f),
        any_inside(a),
    ensures
        any_inside(b),
        incircle_radius(b).rank() == f(incircle_radius(a).rank()),
{
    let i = choose|i: int| 0 <= i < a.len() && (#[trigger] a[i]).inside;
    assert(b[i].inside);
    lemma_widest_exists(a, a.len() as int);
    lemma_widest_exists(b, b.len() as int);
    let wa = widest_index(a);
    let wb = widest_index(b);
    assert(a[wb].inside == b[wb].inside);
    assert(a[wa].inside == b[wa].inside);
    lemma_clearance_follows_distances(a[wa].edge_distances@, b[wa].edge_distances@, f);
    lemma_clearance_follows_distances(a[wb].edge_distances@, b[wb].edge_distances@, f);
    assert(clearance(b[wa].edge_distances@).rank() <= clearance(b[wb].edge_distances@).rank());
    assert(clearance(a[wb].edge_distances@).rank() <= clearance(a[wa].edge_distances@).rank());
    assert(f(clearance(a[wb].edge_distances@).rank()) <= f(
        clearance(a[wa].edge_distances@).rank(),
    ));
}

/// The incircle estimate for a polygon, from the candidates measured against
/// its edges. The circle is reported round the origin: only its radius is
/// meant. Fails if a candidate inside does not bring one distance for each
/// edge of the polygon.
pub fn incircle(polygon: &ConvexPolygon, candidates: &Vec<Candidate>) -> (r: Result<
    Circle,
    ComputationError,
>)
    ensures
        match r {
            Ok(circle) => {
                &&& all_measured(candidates@, polygon@.len() as int)
                &&& circle.spec_centre() == (Point { x: Scalar { bits: 0 }, y: Scalar { bits: 0 } })
                &&& circle.spec_radius() == incircle_radius(candidates@)
                &&& any_inside(candidates@) ==> {
                    &&& is_widest(candidates@, candidates@.len() as int, widest_index(candidates@))
                    &&& forall|e: int|
                        0 <= e < polygon@.len() ==> circle.spec_radius().rank() <= (
                        #[trigger] candidates@[widest_index(candidates@)].edge_distances@[e]).rank()
                }
            },
            Err(e) => !all_measured(candidates@, polygon@.len() as int) && e
                == ComputationError::NotMeasurable,
        },
{
    let edges: usize = polygon.len();
    let n: usize = candidates.len();
    let mut found: bool = false;
    let mut best: usize = 0;
    let mut radius: Scalar = Scalar::zero();
    let mut i: usize = 0;
    while i < n
        invariant
            i <= n,
            n == candidates@.len(),
            edges == polygon@.len(),
            edges >= 3,
            forall|t: int| 0 <= t < i ==> is_measured(#[trigger] candidates@[t], edges as int),
            !found ==> radius.bits == 0 && forall|t: int|
                0 <= t < i ==> !(#[trigger] candidates@[t]).inside,
            found ==> is_widest(candidates@, i as int, best as int) && radius == clearance(
                candidates@[best as int].edge_distances@,
            ),
            radius.spec_is_distance(),
        decreases n - i,
    {
        if candidates[i].inside {
            if candidates[i].edge_distances.len() != edges {
                return Err(ComputationError::NotMeasurable);
            }
            match nearest(&candidates[i].edge_distances) {
                Ok(d) => {
                    if !found || d.key() >= radius.key() {
                        found = true;
                        best = i;
                        radius = d;
                    }
                },
                Err(_) => {
                        return Err(ComputationError::NotMeasurable);
                },
            }
        }
        i = i + 1;
    }
    proof {
        if found {
            lemma_widest_unique(candidates@, best as int);
            lemma_least_index(candidates@[best as int].edge_distances@);
        }
    }
    match Circle::new(Point::origin(), radius) {
        Ok(circle) => Ok(circle),
        Err(e) => Err(e),
    }
}

} // verus!
