//! Placing prisoner numbers into boxes: a uniformly shuffled permutation.

use crate::random::shuffle_in_place;
use vstd::prelude::*;
use vstd::set_lib::{lemma_int_range, lemma_map_size, lemma_subset_equality, set_int_range};

verus! {

/// `p` is a bijection on `[0, n)`: `n` entries, each below `n`, none repeated.
pub open spec fn is_permutation(p: Seq<usize>, n: nat) -> bool {
    &&& p.len() == n
    &&& forall|i: int| 0 <= i < p.len() ==> p[i] < n
    &&& p.no_duplicates()
}

/// Builds `[0, 1, ..., n - 1]`.
pub(crate) fn identity(n: usize) -> (r: Vec<usize>)
    ensures
        r@.len() == n,
        forall|i: int| 0 <= i < n ==> r@[i] == i,
{
    let mut r: Vec<usize> = Vec::new();
    let mut i: usize = 0;
    while i < n
        invariant
            i <= n,
            r@.len() == i,
            forall|j: int| 0 <= j < i ==> r@[j] == j,
        decreases n - i,
    {
        r.push(i);
        i = i + 1;
    }
    r
}

/// A reordering of `[0, n)` is again a bijection on `[0, n)`.
proof fn lemma_reordered_identity_is_permutation(id: Seq<usize>, p: Seq<usize>, n: nat)
    requires
        id.len() == n,
        forall|i: int| 0 <= i < n ==> id[i] == i,
        p.to_multiset() == id.to_multiset(),
    ensures
        is_permutation(p, n),
{
    broadcast use vstd::seq_lib::group_to_multiset_ensures;

    assert(id.no_duplicates());
    id.lemma_multiset_has_no_duplicates();
    p.lemma_multiset_has_no_duplicates_conv();
    assert(p.len() == p.to_multiset().len());
    assert(id.len() == id.to_multiset().len());
    assert forall|i: int| 0 <= i < p.len() implies p[i] < n by {
        assert(p.to_multiset().contains(p[i]));
        assert(id.contains(p[i]));
    }
}

/// `n` distinct values below `n` take every value below `n`.
pub proof fn lemma_distinct_below_n_covers_all(s: Seq<usize>, n: nat)
    requires
        is_permutation(s, n),
    ensures
        forall|k: usize| k < n ==> #[trigger] s.contains(k),
{
    let f = |b: usize| b as int;
    let values = s.to_set();
    let image = values.map(f);
    s.unique_seq_to_set();
    vstd::seq_lib::seq_to_set_is_finite(s);
    lemma_map_size(values, image, f);
    lemma_int_range(0, n as int);
    assert forall|v: int| image.contains(v) implies set_int_range(0, n as int).contains(v) by {
        let b = choose|b: usize| values.contains(b) && f(b) == v;
        let j = choose|j: int| 0 <= j < s.len() && s[j] == b;
    }
    lemma_subset_equality(image, set_int_range(0, n as int));
    assert forall|k: usize| k < n implies #[trigger] s.contains(k) by {
        assert(set_int_range(0, n as int).contains(k as int));
        assert(image.contains(k as int));
        let b = choose|b: usize| values.contains(b) && f(b) == k as int;
        assert(s.contains(b));
    }
}

/// Places the numbers `0..prisoner_count` into as many boxes in a uniformly
/// random order; entry `b` is the number inside box `b`.
pub fn place_cubes(prisoner_count: usize, rng: &mut rand::rngs::StdRng) -> (cubes: Vec<usize>)
    ensures
        is_permutation(cubes@, prisoner_count as nat),
{
    let mut cubes = identity(prisoner_count);
    let ghost id = cubes@;
    shuffle_in_place(&mut cubes, rng);
    proof {
        broadcast use vstd::seq_lib::group_to_multiset_ensures;
        lemma_reordered_identity_is_permutation(id, cubes@, prisoner_count as nat);
    }
    cubes
}

} // verus!
