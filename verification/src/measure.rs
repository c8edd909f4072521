//! Distances measured from one centre: the nearest and the farthest of them.

use crate::error::ComputationError;
use crate::order::{
    greatest_index, is_first_least, is_last_greatest, least_index, lemma_first_least_unique,
    lemma_greatest_index, lemma_last_greatest_unique, lemma_least_index,
};
use crate::scalar::{Scalar, MAX_BITS};
use vstd::prelude::*;

verus! {

/// Every scalar of the sequence is a finite number, not below zero.
pub open spec fn all_distances(s: Seq<Scalar>) -> bool {
    forall|i: int| 0 <= i < s.len() ==> (#[trigger] s[i]).spec_is_distance()
}

/// The least of the distances; the largest finite double where there is none.
/// Of several patterns of one rank, the first in the sequence is taken.
pub open spec fn clearance(distances: Seq<Scalar>) -> Scalar {
    if distances.len() == 0 {
        Scalar { bits: MAX_BITS }
    } else {
        distances[least_index(distances)]
    }
}

/// The greatest of the distances; positive zero where there is none.
/// Of several patterns of one rank, the last in the sequence is taken.
pub open spec fn reach(distances: Seq<Scalar>) -> Scalar {
    if distances.len() == 0 {
        Scalar { bits: 0 }
    } else {
        distances[greatest_index(distances)]
    }
}

/// The clearance of a non-empty sequence is one of its scalars, none of them
/// ranks below it, and none before it ranks as low.
pub proof fn lemma_clearance_is_first_least(s: Seq<Scalar>)
    requires
        s.len() > 0,
    ensures
        is_first_least(s, s.len() as int, least_index(s)),
        clearance(s) == s[least_index(s)],
{
    lemma_least_index(s);
}

/// The reach of a non-empty sequence is one of its scalars, none of them
/// ranks above it, and none after it ranks as high.
pub proof fn lemma_reach_is_last_greatest(s: Seq<Scalar>)
    requires
        s.len() > 0,
    ensures
        is_last_greatest(s, s.len() as int, greatest_index(s)),
        reach(s) == s[greatest_index(s)],
{
    lemma_greatest_index(s);
}

/// A scalar of rank `r` stands in the sequence.
pub open spec fn has_rank(s: Seq<Scalar>, r: int) -> bool {
    exists|i: int| 0 <= i < s.len() && (#[trigger] s[i]).rank() == r
}

/// The two sequences hold scalars of the same ranks, in whatever order and
/// however often.
pub open spec fn same_ranks(a: Seq<Scalar>, b: Seq<Scalar>) -> bool {
    forall|r: int| has_rank(a, r) == has_rank(b, r)
}

/// The clearance does not depend on the order of the distances, nor on how
/// often each of them stands in the sequence: two sequences of the same ranks
/// have clearances of one rank.
pub proof fn lemma_clearance_ignores_order(a: Seq<Scalar>, b: Seq<Scalar>)
    requires
        same_ranks(a, b),
    ensures
        clearance(a).rank() == clearance(b).rank(),
{
    if a.len() == 0 {
        if b.len() > 0 {
            assert(has_rank(b, b[0].rank()));
            assert(has_rank(a, b[0].rank()));
        }
    } else if b.len() == 0 {
        assert(has_rank(a, a[0].rank()));
        assert(has_rank(b, a[0].rank()));
    } else {
        lemma_clearance_is_first_least(a);
        lemma_clearance_is_first_least(b);
        assert(has_rank(a, clearance(a).rank()));
        assert(has_rank(b, clearance(a).rank()));
        assert(has_rank(b, clearance(b).rank()));
        assert(has_rank(a, clearance(b).rank()));
    }
}

/// The reach does not depend on the order of the distances, nor on how often
/// each of them stands in the sequence: two sequences of the same ranks have
/// reaches of one rank.
pub proof fn lemma_reach_ignores_order(a: Seq<Scalar>, b: Seq<Scalar>)
    requires
        same_ranks(a, b),
    ensures
        reach(a).rank() == reach(b).rank(),
{
    if a.len() == 0 {
        if b.len() > 0 {
            assert(has_rank(b, b[0].rank()));
            assert(has_rank(a, b[0].rank()));
        }
    } else if b.len() == 0 {
        assert(has_rank(a, a[0].rank()));
        assert(has_rank(b, a[0].rank()));
    } else {
        lemma_reach_is_last_greatest(a);
        lemma_reach_is_last_greatest(b);
        assert(has_rank(a, reach(a).rank()));
        assert(has_rank(b, reach(a).rank()));
        assert(has_rank(b, reach(b).rank()));
        assert(has_rank(a, reach(b).rank()));
    }
}

/// `f` keeps the order of ranks: of two ranks, it never makes the lesser one
/// the greater.
pub open spec fn keeps_order(f: spec_fn(int) -> int) -> bool {
    forall|x: int, y: int| x <= y ==> #[trigger] f(x) <= #[trigger] f(y)
}

/// `b` is `a` with the rank of each scalar changed by `f`.
pub open spec fn is_image(a: Seq<Scalar>, b: Seq<Scalar>, f: spec_fn(int) -> int) -> bool {
    &&& a.len() == b.len()
    &&& forall|i: int| 0 <= i < a.len() ==> (#[trigger] b[i]).rank() == f(a[i].rank())
}

/// The clearance goes with the distances: where every distance changes in a
/// way that keeps their order, as all do when the plane is scaled, the
/// clearance changes in that way too.
pub proof fn lemma_clearance_follows_distances(
    a: Seq<Scalar>,
    b: Seq<Scalar>,
    f: spec_fn(int) -> int,
)
    requires
        keeps_order(f),
        is_image(a, b, f),
        a.len() > 0,
    ensures
        clearance(b).rank() == f(clearance(a).rank()),
{
    lemma_least_index(a);
    lemma_least_index(b);
    let la = least_index(a);
    let lb = least_index(b);
    assert(b[lb].rank() <= b[la].rank());
    assert(a[la].rank() <= a[lb].rank());
    assert(f(a[la].rank()) <= f(a[lb].rank()));
}

/// The reach goes with the distances: where every distance changes in a way
/// that keeps their order, the reach changes in that way too.
pub proof fn lemma_reach_follows_distances(a: Seq<Scalar>, b: Seq<Scalar>, f: spec_fn(int) -> int)
    requires
        keeps_order(f),
        is_image(a, b, f),
        a.len() > 0,
    ensures
        reach(b).rank() == f(reach(a).rank()),
{
    lemma_greatest_index(a);
    lemma_greatest_index(b);
    let ga = greatest_index(a);
    let gb = greatest_index(b);
    assert(b[gb].rank() >= b[ga].rank());
    assert(a[ga].rank() >= a[gb].rank());
    assert(f(a[ga].rank()) >= f(a[gb].rank()));
}

/// The distance from a centre to the nearest of the things it was measured
/// against. Fails if one of the values is not a distance.
pub fn nearest(distances: &Vec<Scalar>) -> (r: Result<Scalar, ComputationError>)
    ensures
        match r {
            Ok(d) => all_distances(distances@) && d == clearance(distances@)
                && d.spec_is_distance(),
            Err(e) => !all_distances(distances@) && e == ComputationError::NotMeasurable,
        },
{
    let n: usize = distances.len();
    let mut best: usize = 0;
    let mut i: usize = 0;
    while i < n
        invariant
            i <= n,
            n == distances@.len(),
            forall|j: int| 0 <= j < i ==> (#[trigger] distances@[j]).spec_is_distance(),
            i == 0 ==> best == 0,
            i > 0 ==> is_first_least(distances@, i as int, best as int),
        decreases n - i,
    {
        if !distances[i].is_distance() {
            return Err(ComputationError::NotMeasurable);
        }
        if i > 0 && distances[i].key() < distances[best].key() {
            best = i;
        }
        i = i + 1;
    }
    if n == 0 {
        Ok(Scalar::max_finite())
    } else {
        proof {
            lemma_first_least_unique(distances@, best as int);
        }
        Ok(distances[best])
    }
}

/// The distance from a centre to the farthest of the things it was measured
/// against. Fails if one of the values is not a distance.
pub fn farthest(distances: &Vec<Scalar>) -> (r: Result<Scalar, ComputationError>)
    ensures
        match r {
            Ok(d) => all_distances(distances@) && d == reach(distances@) && d.spec_is_distance(),
            Err(e) => !all_distances(distances@) && e == ComputationError::NotMeasurable,
        },
{
    let n: usize = distances.len();
    let mut best: usize = 0;
    let mut i: usize = 0;
    while i < n
        invariant
            i <= n,
            n == distances@.len(),
            forall|j: int| 0 <= j < i ==> (#[trigger] distances@[j]).spec_is_distance(),
            i == 0 ==> best == 0,
            i > 0 ==> is_last_greatest(distances@, i as int, best as int),
        decreases n - i,
    {
        if !distances[i].is_distance() {
            return Err(ComputationError::NotMeasurable);
        }
        if i > 0 && distances[i].key() >= distances[best].key() {
            best = i;
        }
        i = i + 1;
    }
    if n == 0 {
        Ok(Scalar::zero())
    } else {
        proof {
            lemma_last_greatest_unique(distances@, best as int);
        }
        Ok(distances[best])
    }
}

} // verus!
