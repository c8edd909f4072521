//! The first of the least and the last of the greatest in a sequence of scalars.

use crate::scalar::Scalar;
use vstd::prelude::*;

verus! {

/// Among the first `n` scalars, `s[i]` has the least rank, and is the first
/// that has it.
pub open spec fn is_first_least(s: Seq<Scalar>, n: int, i: int) -> bool {
    &&& 0 <= i < n <= s.len()
    &&& forall|j: int| 0 <= j < n ==> s[i].rank() <= (#[trigger] s[j]).rank()
    &&& forall|j: int| 0 <= j < i ==> (#[trigger] s[j]).rank() > s[i].rank()
}

/// Among the first `n` scalars, `s[i]` has the greatest rank, and is the last
/// that has it.
pub open spec fn is_last_greatest(s: Seq<Scalar>, n: int, i: int) -> bool {
    &&& 0 <= i < n <= s.len()
    &&& forall|j: int| 0 <= j < n ==> (#[trigger] s[j]).rank() <= s[i].rank()
    &&& forall|j: int| i < j < n ==> (#[trigger] s[j]).rank() < s[i].rank()
}

/// Where the first scalar of least rank stands.
pub open spec fn least_index(s: Seq<Scalar>) -> int {
    choose|i: int| is_first_least(s, s.len() as int, i)
}

/// Where the last scalar of greatest rank stands.
pub open spec fn greatest_index(s: Seq<Scalar>) -> int {
    choose|i: int| is_last_greatest(s, s.len() as int, i)
}

/// Any non-empty prefix of a sequence has a first scalar of least rank.
pub proof fn lemma_first_least_exists(s: Seq<Scalar>, n: int)
    requires
        0 < n <= s.len(),
    ensures
        exists|i: int| is_first_least(s, n, i),
    decreases n,
{
    if n == 1 {
        assert(is_first_least(s, n, 0));
    } else {
        let m = n - 1;
        lemma_first_least_exists(s, m);
        let before = choose|i: int| is_first_least(s, m, i);
        if s[n - 1].rank() < s[before].rank() {
            assert(is_first_least(s, n, n - 1));
        } else {
            assert(is_first_least(s, n, before));
        }
    }
}

/// Any non-empty prefix of a sequence has a last scalar of greatest rank.
pub proof fn lemma_last_greatest_exists(s: Seq<Scalar>, n: int)
    requires
        0 < n <= s.len(),
    ensures
        exists|i: int| is_last_greatest(s, n, i),
    decreases n,
{
    if n == 1 {
        assert(is_last_greatest(s, n, 0));
    } else {
        let m = n - 1;
        lemma_last_greatest_exists(s, m);
        let before = choose|i: int| is_last_greatest(s, m, i);
        if s[n - 1].rank() >= s[before].rank() {
            assert(is_last_greatest(s, n, n - 1));
        } else {
            assert(is_last_greatest(s, n, before));
        }
    }
}

/// The index that `least_index` names is the first of least rank.
pub proof fn lemma_least_index(s: Seq<Scalar>)
    requires
        s.len() > 0,
    ensures
        is_first_least(s, s.len() as int, least_index(s)),
{
    lemma_first_least_exists(s, s.len() as int);
}

/// The index that `greatest_index` names is the last of greatest rank.
pub proof fn lemma_greatest_index(s: Seq<Scalar>)
    requires
        s.len() > 0,
    ensures
        is_last_greatest(s, s.len() as int, greatest_index(s)),
{
    lemma_last_greatest_exists(s, s.len() as int);
}

/// Only one index is the first of least rank.
pub proof fn lemma_first_least_unique(s: Seq<Scalar>, i: int)
    requires
        is_first_least(s, s.len() as int, i),
    ensures
        i == least_index(s),
{
    let k = least_index(s);
    assert(is_first_least(s, s.len() as int, k));
    if i < k {
        assert(s[i].rank() > s[k].rank());
    } else if k < i {
        assert(s[k].rank() > s[i].rank());
    }
}

/// Only one index is the last of greatest rank.
pub proof fn lemma_last_greatest_unique(s: Seq<Scalar>, i: int)
    requires
        is_last_greatest(s, s.len() as int, i),
    ensures
        i == greatest_index(s),
{
    let k = greatest_index(s);
    assert(is_last_greatest(s, s.len() as int, k));
    if i < k {
        assert(s[k].rank() < s[i].rank());
    } else if k < i {
        assert(s[i].rank() < s[k].rank());
    }
}

} // verus!
