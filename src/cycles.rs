//! Cycles of a permutation: the chain `i -> p[i] -> p[p[i]] -> ...` and the
//! number of steps it takes to come back to `i`.

use crate::permutation::is_permutation;
use vstd::prelude::*;
use vstd::set_lib::{lemma_int_range, lemma_len_subset, lemma_map_size, set_int_range};

verus! {

/// Where the chain from `start` stands after `k` steps.
pub open spec fn follow(p: Seq<usize>, start: int, k: nat) -> int
    decreases k,
{
    if k == 0 {
        start
    } else {
        p[follow(p, start, (k - 1) as nat)] as int
    }
}

/// `len` is the length of the cycle through `start`: the chain first comes
/// back to `start` after exactly `len` steps.
pub open spec fn is_cycle_length(p: Seq<usize>, start: int, len: nat) -> bool {
    &&& len >= 1
    &&& follow(p, start, len) == start
    &&& forall|k: nat| 1 <= k < len ==> follow(p, start, k) != start
}

/// The length of the cycle of `p` through `start`.
pub open spec fn cycle_len(p: Seq<usize>, start: int) -> nat {
    choose|len: nat| is_cycle_length(p, start, len)
}

/// The longest cycle through any of the first `k` entries of `p`.
pub open spec fn longest_cycle_upto(p: Seq<usize>, k: nat) -> nat
    decreases k,
{
    if k == 0 {
        0
    } else {
        let prev = longest_cycle_upto(p, (k - 1) as nat);
        let here = cycle_len(p, k - 1);
        if here > prev {
            here
        } else {
            prev
        }
    }
}

/// The length of the longest cycle of `p` (zero for the empty permutation).
pub open spec fn longest_cycle_len(p: Seq<usize>) -> nat {
    longest_cycle_upto(p, p.len())
}

/// The chain never leaves `[0, n)`.
pub proof fn lemma_follow_in_range(p: Seq<usize>, start: int, k: nat)
    requires
        is_permutation(p, p.len()),
        0 <= start < p.len(),
    ensures
        0 <= follow(p, start, k) < p.len(),
    decreases k,
{
    if k > 0 {
        lemma_follow_in_range(p, start, (k - 1) as nat);
    }
}

/// Equal positions after `a` and `b` steps give equal positions `a` steps
/// earlier, because a permutation is injective.
proof fn lemma_follow_cancel(p: Seq<usize>, start: int, a: nat, b: nat)
    requires
        is_permutation(p, p.len()),
        0 <= start < p.len(),
        a <= b,
        follow(p, start, a) == follow(p, start, b),
    ensures
        follow(p, start, (b - a) as nat) == start,
    decreases a,
{
    if a > 0 {
        lemma_follow_in_range(p, start, (a - 1) as nat);
        lemma_follow_in_range(p, start, (b - 1) as nat);
        let x = follow(p, start, (a - 1) as nat);
        let y = follow(p, start, (b - 1) as nat);
        assert(p[x] == p[y]);
        assert(x == y);
        lemma_follow_cancel(p, start, (a - 1) as nat, (b - 1) as nat);
    }
}

/// Within `n` steps the chain comes back to where it started.
proof fn lemma_returns_within_len(p: Seq<usize>, start: int) -> (w: nat)
    requires
        is_permutation(p, p.len()),
        0 <= start < p.len(),
    ensures
        1 <= w <= p.len(),
        follow(p, start, w) == start,
{
    let n: int = p.len() as int;
    let f = |k: int| follow(p, start, k as nat);
    if exists|a: nat, b: nat|
        a < b <= n && #[trigger] follow(p, start, a) == #[trigger] follow(p, start, b) {
        let (a, b) = choose|a: nat, b: nat|
            a < b <= n && #[trigger] follow(p, start, a) == #[trigger] follow(p, start, b);
        lemma_follow_cancel(p, start, a, b);
        (b - a) as nat
    } else {
        // The first n + 1 positions would be distinct values below n.
        let steps = set_int_range(0, n + 1);
        let seen = steps.map(f);
        lemma_int_range(0, n + 1);
        lemma_int_range(0, n);
        assert forall|a: int, b: int|
            steps.contains(a) && steps.contains(b) && f(a) == f(b) implies a == b by {
            if a < b {
                assert(follow(p, start, a as nat) == follow(p, start, b as nat));
            } else if b < a {
                assert(follow(p, start, b as nat) == follow(p, start, a as nat));
            }
        }
        lemma_map_size(steps, seen, f);
        assert forall|v: int| seen.contains(v) implies set_int_range(0, n).contains(v) by {
            let k = choose|k: int| steps.contains(k) && f(k) == v;
            lemma_follow_in_range(p, start, k as nat);
        }
        lemma_len_subset(seen, set_int_range(0, n));
        assert(false);
        1
    }
}

/// Some return `w` gives a first return no later than `w`.
proof fn lemma_first_return(p: Seq<usize>, start: int, w: nat)
    requires
        w >= 1,
        follow(p, start, w) == start,
    ensures
        exists|len: nat| len <= w && is_cycle_length(p, start, len),
    decreases w,
{
    if exists|k: nat| 1 <= k < w && follow(p, start, k) == start {
        let k = choose|k: nat| 1 <= k < w && follow(p, start, k) == start;
        lemma_first_return(p, start, k);
    } else {
        assert(is_cycle_length(p, start, w));
    }
}

/// Every entry of a permutation of `[0, n)` lies on a cycle of length at most `n`.
pub proof fn lemma_cycle_len(p: Seq<usize>, start: int)
    requires
        is_permutation(p, p.len()),
        0 <= start < p.len(),
    ensures
        is_cycle_length(p, start, cycle_len(p, start)),
        cycle_len(p, start) <= p.len(),
{
    let w = lemma_returns_within_len(p, start);
    lemma_first_return(p, start, w);
    let len = choose|len: nat| len <= w && is_cycle_length(p, start, len);
    assert(is_cycle_length(p, start, len));
    let c = cycle_len(p, start);
    assert(is_cycle_length(p, start, c));
    if c < len {
        assert(follow(p, start, c) != start);
    }
    if len < c {
        assert(follow(p, start, len) != start);
    }
}

/// The length of the cycle of `cubes` through box `start`.
pub fn cycle_length(cubes: &Vec<usize>, start: usize) -> (r: usize)
    requires
        is_permutation(cubes@, cubes@.len()),
        start < cubes@.len(),
    ensures
        r == cycle_len(cubes@, start as int),
        1 <= r <= cubes@.len(),
{
    let ghost p = cubes@;
    proof {
        lemma_cycle_len(p, start as int);
    }
    let ghost target = cycle_len(p, start as int);
    let n: usize = cubes.len();
    let mut current: usize = cubes[start];
    let mut len: usize = 1;
    assert(follow(p, start as int, 1) == current) by {
        reveal_with_fuel(follow, 2);
    }
    while current != start
        invariant
            p == cubes@,
            is_permutation(p, p.len()),
            start < p.len(),
            is_cycle_length(p, start as int, target),
            target <= p.len(),
            p.len() == n,
            1 <= len <= target,
            current == follow(p, start as int, len as nat),
            forall|k: nat| 1 <= k < len ==> follow(p, start as int, k) != start,
        decreases target - len,
    {
        proof {
            lemma_follow_in_range(p, start as int, len as nat);
        }
        assert(len < target);
        current = cubes[current];
        len = len + 1;
    }
    len
}

/// The length of the longest cycle of `cubes`.
pub fn longest_cycle(cubes: &Vec<usize>) -> (r: usize)
    requires
        is_permutation(cubes@, cubes@.len()),
    ensures
        r == longest_cycle_len(cubes@),
{
    let mut longest: usize = 0;
    let mut i: usize = 0;
    while i < cubes.len()
        invariant
            is_permutation(cubes@, cubes@.len()),
            i <= cubes@.len(),
            longest == longest_cycle_upto(cubes@, i as nat),
        decreases cubes@.len() - i,
    {
        let here = cycle_length(cubes, i);
        if here > longest {
            longest = here;
        }
        i = i + 1;
    }
    longest
}

/// The longest cycle among the first `k` entries is at most `bound` exactly
/// when each of their cycles is.
pub proof fn lemma_longest_upto_bound(p: Seq<usize>, k: nat, bound: nat)
    ensures
        longest_cycle_upto(p, k) <= bound <==> forall|j: int| 0 <= j < k ==> cycle_len(p, j) <= bound,
    decreases k,
{
    if k > 0 {
        lemma_longest_upto_bound(p, (k - 1) as nat, bound);
    }
}

} // verus!
