//! The random-sampling strategy: each prisoner opens boxes chosen uniformly
//! at random, never the same box twice.

use crate::permutation::{identity, is_permutation, lemma_distinct_below_n_covers_all, place_cubes};
use crate::random::gen_index;
use vstd::prelude::*;

verus! {

/// `opened` is a sequence of boxes one prisoner may open: distinct boxes of
/// the `n` there are, no more than `open_budget` of them.
pub open spec fn is_valid_opening(opened: Seq<usize>, n: nat, open_budget: nat) -> bool {
    &&& opened.no_duplicates()
    &&& forall|j: int| 0 <= j < opened.len() ==> opened[j] < n
    &&& opened.len() <= open_budget
    &&& opened.len() <= n
}

/// One of the `opened` boxes holds `prisoner`'s number.
pub open spec fn finds_among(p: Seq<usize>, prisoner: int, opened: Seq<usize>) -> bool {
    exists|j: int| 0 <= j < opened.len() && p[opened[j] as int] == prisoner
}

/// The smaller of `a` and `b`.
pub open spec fn min_nat(a: nat, b: nat) -> nat {
    if a < b {
        a
    } else {
        b
    }
}

/// A search that either stopped on the prisoner's number, at its last box,
/// or opened as many boxes as it could without finding it.
pub open spec fn is_finished_search(
    p: Seq<usize>,
    prisoner: int,
    opened: Seq<usize>,
    open_budget: nat,
) -> bool {
    &&& is_valid_opening(opened, p.len(), open_budget)
    &&& forall|j: int| 0 <= j < opened.len() - 1 ==> p[opened[j] as int] != prisoner
    &&& finds_among(p, prisoner, opened) <==> (opened.len() > 0 && p[opened.last() as int]
        == prisoner)
    &&& !finds_among(p, prisoner, opened) ==> opened.len() == min_nat(open_budget, p.len())
}

/// `openings[i]` is a finished search of prisoner `i`, for every prisoner.
pub open spec fn are_finished_searches(
    p: Seq<usize>,
    openings: Seq<Vec<usize>>,
    open_budget: nat,
) -> bool {
    &&& openings.len() == p.len()
    &&& forall|i: int|
        0 <= i < p.len() ==> is_finished_search(p, i, #[trigger] openings[i]@, open_budget)
}

/// Every prisoner `i` finds their number among the boxes `openings[i]`.
pub open spec fn all_find_among(p: Seq<usize>, openings: Seq<Vec<usize>>) -> bool {
    forall|i: int| 0 <= i < openings.len() ==> finds_among(p, i, #[trigger] openings[i]@)
}

/// Opens the box at position `idx` of the first `remaining` entries of
/// `pool`, the boxes not yet opened, and moves it behind them by swapping it
/// with the last of them. Each draw below `remaining` thus names exactly one
/// unopened box.
pub fn open_drawn_box(pool: &mut Vec<usize>, remaining: usize, idx: usize) -> (b: usize)
    requires
        idx < remaining <= old(pool)@.len(),
    ensures
        b == old(pool)@[idx as int],
        final(pool)@ == old(pool)@.update(idx as int, old(pool)@[remaining - 1]).update(
            remaining - 1,
            b,
        ),
{
    let b = pool[idx];
    let last = pool[remaining - 1];
    pool[idx] = last;
    pool[remaining - 1] = b;
    b
}

/// Opens up to `open_budget` distinct boxes for `prisoner`, each drawn
/// uniformly from the boxes not yet opened, and stops at the box holding the
/// prisoner's number. Returns the boxes in the order they were opened.
pub fn open_random_boxes(
    cubes: &Vec<usize>,
    prisoner: usize,
    open_budget: usize,
    rng: &mut rand::rngs::StdRng,
) -> (opened: Vec<usize>)
    ensures
        is_finished_search(cubes@, prisoner as int, opened@, open_budget as nat),
{
    let n: usize = cubes.len();
    let mut pool = identity(n);
    proof {
        assert(is_permutation(pool@, n as nat));
    }
    let mut opened: Vec<usize> = Vec::new();
    let mut j: usize = 0;
    while j < open_budget && j < n
        invariant
            n == cubes@.len(),
            is_permutation(pool@, n as nat),
            j <= n,
            j <= open_budget,
            opened@.len() == j,
            forall|t: int| 0 <= t < j ==> opened@[t] == pool@[n - 1 - t],
            forall|t: int| 0 <= t < j ==> cubes@[opened@[t] as int] != prisoner,
            is_valid_opening(opened@, n as nat, open_budget as nat),
        decreases n - j,
    {
        let idx = gen_index(rng, n - j);
        let ghost before = pool@;
        let b = open_drawn_box(&mut pool, n - j, idx);
        assert forall|t: int| 0 <= t < j implies opened@[t] != b by {
            assert(before[n - 1 - t] != before[idx as int]);
        }
        opened.push(b);
        assert(pool@.no_duplicates()) by {
            assert forall|s: int, t: int|
                0 <= s < pool@.len() && 0 <= t < pool@.len() && s != t implies pool@[s]
                != pool@[t] by {
                let s0 = if s == idx as int {
                    n - j - 1
                } else if s == n - j - 1 {
                    idx as int
                } else {
                    s
                };
                let t0 = if t == idx as int {
                    n - j - 1
                } else if t == n - j - 1 {
                    idx as int
                } else {
                    t
                };
                assert(pool@[s] == before[s0]);
                assert(pool@[t] == before[t0]);
            }
        }
        if cubes[b] == prisoner {
            assert(finds_among(cubes@, prisoner as int, opened@)) by {
                assert(cubes@[opened@[j as int] as int] == prisoner);
            }
            return opened;
        }
        j = j + 1;
    }
    proof {
        if finds_among(cubes@, prisoner as int, opened@) {
            let t = choose|t: int|
                0 <= t < opened@.len() && cubes@[opened@[t] as int] == prisoner;
            assert(false);
        }
    }
    opened
}

/// Runs a fresh random search for every prisoner on the same `cubes`;
/// `openings[i]` holds the boxes prisoner `i` opened, in order.
pub fn open_random_boxes_for_all(
    cubes: &Vec<usize>,
    open_budget: usize,
    rng: &mut rand::rngs::StdRng,
) -> (openings: Vec<Vec<usize>>)
    ensures
        are_finished_searches(cubes@, openings@, open_budget as nat),
{
    let mut openings: Vec<Vec<usize>> = Vec::new();
    let mut i: usize = 0;
    while i < cubes.len()
        invariant
            i <= cubes@.len(),
            openings@.len() == i,
            forall|k: int|
                0 <= k < i ==> is_finished_search(
                    cubes@,
                    k,
                    #[trigger] openings@[k]@,
                    open_budget as nat,
                ),
        decreases cubes@.len() - i,
    {
        let opened = open_random_boxes(cubes, i, open_budget, rng);
        openings.push(opened);
        i = i + 1;
    }
    openings
}

/// Decides whether one of the `opened` boxes holds `prisoner`'s number.
pub fn finds_number(cubes: &Vec<usize>, prisoner: usize, opened: &Vec<usize>) -> (r: bool)
    requires
        forall|j: int| 0 <= j < opened@.len() ==> opened@[j] < cubes@.len(),
    ensures
        r == finds_among(cubes@, prisoner as int, opened@),
{
    let mut j: usize = 0;
    while j < opened.len()
        invariant
            j <= opened@.len(),
            forall|k: int| 0 <= k < opened@.len() ==> opened@[k] < cubes@.len(),
            forall|t: int| 0 <= t < j ==> cubes@[opened@[t] as int] != prisoner,
        decreases opened@.len() - j,
    {
        if cubes[opened[j]] == prisoner {
            return true;
        }
        j = j + 1;
    }
    false
}

/// Decides whether every prisoner `i` found their number among the boxes
/// `openings[i]`.
pub fn all_prisoners_found(cubes: &Vec<usize>, openings: &Vec<Vec<usize>>) -> (r: bool)
    requires
        forall|i: int, j: int|
            0 <= i < openings@.len() && 0 <= j < openings@[i]@.len() ==> #[trigger] openings@[i]@[j]
                < cubes@.len(),
    ensures
        r == all_find_among(cubes@, openings@),
{
    let mut success_count: usize = 0;
    let mut i: usize = 0;
    while i < openings.len()
        invariant
            i <= openings@.len(),
            forall|i: int, j: int|
                0 <= i < openings@.len() && 0 <= j < openings@[i]@.len() ==> #[trigger] openings@[i]@[j]
                    < cubes@.len(),
            success_count <= i,
            (success_count == i) == (forall|k: int|
                0 <= k < i ==> finds_among(cubes@, k, #[trigger] openings@[k]@)),
        decreases openings@.len() - i,
    {
        let found = finds_number(cubes, i, &openings[i]);
        if found {
            success_count = success_count + 1;
        }
        i = i + 1;
    }
    success_count == openings.len()
}

/// With no box to open, a prisoner never finds their number.
pub proof fn lemma_zero_budget_search_fails(p: Seq<usize>, prisoner: int, opened: Seq<usize>)
    requires
        is_finished_search(p, prisoner, opened, 0),
    ensures
        !finds_among(p, prisoner, opened),
{
}

/// A search that may open as many boxes as there are has no box excluded:
/// if it ends without the prisoner's number it has opened every box, so on a
/// permutation it always finds the number.
pub proof fn lemma_full_budget_search_finds(
    p: Seq<usize>,
    prisoner: int,
    opened: Seq<usize>,
    open_budget: nat,
)
    requires
        is_permutation(p, p.len()),
        p.len() <= usize::MAX,
        0 <= prisoner < p.len(),
        open_budget >= p.len(),
        is_finished_search(p, prisoner, opened, open_budget),
    ensures
        finds_among(p, prisoner, opened),
{
    if !finds_among(p, prisoner, opened) {
        lemma_distinct_below_n_covers_all(p, p.len());
        assert(p.contains(prisoner as usize));
        let b = choose|b: int| 0 <= b < p.len() && p[b] == prisoner as usize;
        assert(is_permutation(opened, p.len()));
        lemma_distinct_below_n_covers_all(opened, p.len());
        assert(opened.contains(b as usize));
        let j = choose|j: int| 0 <= j < opened.len() && opened[j] == b as usize;
        assert(opened[j] as int == b);
        assert(p[opened[j] as int] == prisoner);
    }
}

/// Runs one trial of the random-sampling strategy on a freshly shuffled
/// permutation of `prisoner_count` numbers.
pub fn attempt_random_strategy(
    prisoner_count: usize,
    open_budget: usize,
    rng: &mut rand::rngs::StdRng,
) -> (r: bool)
    ensures
        exists|p: Seq<usize>, openings: Seq<Vec<usize>>|
            #![trigger are_finished_searches(p, openings, open_budget as nat)]
            is_permutation(p, prisoner_count as nat) && are_finished_searches(
                p,
                openings,
                open_budget as nat,
            ) && r == all_find_among(p, openings),
        open_budget == 0 && prisoner_count > 0 ==> !r,
        open_budget >= prisoner_count ==> r,
{
    let cubes = place_cubes(prisoner_count, rng);
    let openings = open_random_boxes_for_all(&cubes, open_budget, rng);
    proof {
        assert forall|i: int, j: int|
            0 <= i < openings@.len() && 0 <= j < openings@[i]@.len() implies #[trigger] openings@[i]@[j]
                < cubes@.len() by {
            assert(is_finished_search(cubes@, i, openings@[i]@, open_budget as nat));
        }
    }
    let r = all_prisoners_found(&cubes, &openings);
    proof {
        assert(are_finished_searches(cubes@, openings@, open_budget as nat));
        if open_budget == 0 && prisoner_count > 0 {
            assert(is_finished_search(cubes@, 0, openings@[0]@, 0));
            lemma_zero_budget_search_fails(cubes@, 0, openings@[0]@);
        }
        if open_budget >= prisoner_count {
            assert forall|i: int| 0 <= i < openings@.len() implies finds_among(
                cubes@,
                i,
                #[trigger] openings@[i]@,
            ) by {
                assert(is_finished_search(cubes@, i, openings@[i]@, open_budget as nat));
                lemma_full_budget_search_finds(cubes@, i, openings@[i]@, open_budget as nat);
            }
        }
    }
    r
}

} // verus!
