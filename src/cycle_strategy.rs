//! The cycle-following strategy: prisoner `i` opens box `i`, then the box
//! named by the slip inside, and so on.

use crate::cycles::{
    cycle_len, follow, lemma_cycle_len, lemma_follow_in_range,
    lemma_longest_upto_bound, longest_cycle_len,
};
use crate::permutation::{is_permutation, place_cubes};
use vstd::prelude::*;

verus! {

/// Prisoner `prisoner`, following the chain from their own box, sees their
/// number in one of the first `open_budget` boxes opened.
pub open spec fn finds_by_loop(p: Seq<usize>, prisoner: int, open_budget: nat) -> bool {
    exists|t: nat| t < open_budget && p[#[trigger] follow(p, prisoner, t)] == prisoner
}

/// Every prisoner finds their number by following the chain.
pub open spec fn all_find_by_loop(p: Seq<usize>, open_budget: nat) -> bool {
    forall|i: int| 0 <= i < p.len() ==> finds_by_loop(p, i, open_budget)
}

/// Decides whether `prisoner` finds their number within `open_budget` boxes
/// by following the chain that starts at their own box.
pub fn prisoner_follows_loop(cubes: &Vec<usize>, prisoner: usize, open_budget: usize) -> (r: bool)
    requires
        is_permutation(cubes@, cubes@.len()),
        prisoner < cubes@.len(),
    ensures
        r == finds_by_loop(cubes@, prisoner as int, open_budget as nat),
{
    let ghost p = cubes@;
    let mut decision: usize = prisoner;
    let mut opened: usize = 0;
    while opened < open_budget
        invariant
            p == cubes@,
            is_permutation(p, p.len()),
            prisoner < p.len(),
            opened <= open_budget,
            decision == follow(p, prisoner as int, opened as nat),
            forall|t: nat| t < opened ==> p[#[trigger] follow(p, prisoner as int, t)] != prisoner,
        decreases open_budget - opened,
    {
        proof {
            lemma_follow_in_range(p, prisoner as int, opened as nat);
        }
        if cubes[decision] == prisoner {
            return true;
        }
        decision = cubes[decision];
        opened = opened + 1;
    }
    false
}

/// Decides whether all prisoners find their numbers by following chains.
pub fn loop_strategy_succeeds(cubes: &Vec<usize>, open_budget: usize) -> (r: bool)
    requires
        is_permutation(cubes@, cubes@.len()),
    ensures
        r == all_find_by_loop(cubes@, open_budget as nat),
{
    let mut success_count: usize = 0;
    let mut i: usize = 0;
    while i < cubes.len()
        invariant
            is_permutation(cubes@, cubes@.len()),
            i <= cubes@.len(),
            success_count <= i,
            (success_count == i) == (forall|j: int|
                0 <= j < i ==> finds_by_loop(cubes@, j, open_budget as nat)),
        decreases cubes@.len() - i,
    {
        if prisoner_follows_loop(cubes, i, open_budget) {
            success_count = success_count + 1;
        }
        i = i + 1;
    }
    success_count == cubes.len()
}

/// A prisoner following the chain succeeds exactly when the cycle through
/// their box is no longer than the number of boxes they may open.
pub proof fn lemma_finds_iff_cycle_fits(p: Seq<usize>, prisoner: int, open_budget: nat)
    requires
        is_permutation(p, p.len()),
        0 <= prisoner < p.len(),
    ensures
        finds_by_loop(p, prisoner, open_budget) <==> cycle_len(p, prisoner) <= open_budget,
{
    lemma_cycle_len(p, prisoner);
    let len = cycle_len(p, prisoner);
    if finds_by_loop(p, prisoner, open_budget) {
        let t = choose|t: nat|
            t < open_budget && p[#[trigger] follow(p, prisoner, t)] == prisoner;
        assert(follow(p, prisoner, t + 1) == prisoner);
        if len > t + 1 {
            assert(follow(p, prisoner, (t + 1) as nat) != prisoner);
        }
    }
    if len <= open_budget {
        assert(follow(p, prisoner, len) == p[follow(p, prisoner, (len - 1) as nat)]);
        assert(p[follow(p, prisoner, (len - 1) as nat)] == prisoner);
    }
}

/// With the cycle-following strategy, every prisoner succeeds exactly when
/// the permutation's longest cycle is no longer than the open budget.
pub proof fn lemma_loop_success_iff_longest_cycle_fits(p: Seq<usize>, open_budget: nat)
    requires
        is_permutation(p, p.len()),
    ensures
        all_find_by_loop(p, open_budget) <==> longest_cycle_len(p) <= open_budget,
{
    lemma_longest_upto_bound(p, p.len(), open_budget);
    assert forall|i: int| 0 <= i < p.len() implies
        finds_by_loop(p, i, open_budget) == (cycle_len(p, i) <= open_budget) by {
        lemma_finds_iff_cycle_fits(p, i, open_budget);
    }
    if longest_cycle_len(p) <= open_budget {
        assert forall|i: int| 0 <= i < p.len() implies finds_by_loop(p, i, open_budget) by {
            assert(cycle_len(p, i) <= open_budget);
        }
    }
    if all_find_by_loop(p, open_budget) {
        assert forall|j: int| 0 <= j < p.len() implies cycle_len(p, j) <= open_budget by {
            assert(finds_by_loop(p, j, open_budget));
        }
    }
}

/// With as many boxes to open as there are prisoners, the cycle-following
/// strategy always succeeds.
pub proof fn lemma_full_budget_always_succeeds(p: Seq<usize>, open_budget: nat)
    requires
        is_permutation(p, p.len()),
        open_budget >= p.len(),
    ensures
        all_find_by_loop(p, open_budget),
{
    assert forall|i: int| 0 <= i < p.len() implies finds_by_loop(p, i, open_budget) by {
        lemma_cycle_len(p, i);
        lemma_finds_iff_cycle_fits(p, i, open_budget);
    }
}

/// With no box to open, no prisoner succeeds.
pub proof fn lemma_zero_budget_loop_fails(p: Seq<usize>)
    requires
        p.len() > 0,
    ensures
        !all_find_by_loop(p, 0),
{
    assert(!finds_by_loop(p, 0, 0));
}

/// Runs one trial of the cycle-following strategy on a freshly shuffled
/// permutation of `prisoner_count` numbers.
pub fn attempt_loop_strategy(
    prisoner_count: usize,
    open_budget: usize,
    rng: &mut rand::rngs::StdRng,
) -> (r: bool)
    ensures
        exists|p: Seq<usize>|
            is_permutation(p, prisoner_count as nat) && r == all_find_by_loop(p, open_budget as nat)
                && r == (longest_cycle_len(p) <= open_budget),
        open_budget >= prisoner_count ==> r,
        open_budget == 0 && prisoner_count > 0 ==> !r,
{
    let cubes = place_cubes(prisoner_count, rng);
    let r = loop_strategy_succeeds(&cubes, open_budget);
    proof {
        lemma_loop_success_iff_longest_cycle_fits(cubes@, open_budget as nat);
        if open_budget >= prisoner_count {
            lemma_full_budget_always_succeeds(cubes@, open_budget as nat);
        }
        if open_budget == 0 && prisoner_count > 0 {
            lemma_zero_budget_loop_fails(cubes@);
        }
    }
    r
}

} // verus!
