//! Running repeated trials of one strategy and counting the successes.

use crate::cycle_strategy::attempt_loop_strategy;
use crate::cycles::longest_cycle_len;
use crate::permutation::is_permutation;
use crate::random_strategy::{all_find_among, are_finished_searches, attempt_random_strategy};
use vstd::prelude::*;

verus! {

/// How the prisoners choose which boxes to open.
#[derive(Clone, Copy, Debug, PartialEq, Eq, Structural)]
pub enum Strategy {
    /// Open your own box, then the box named by each slip found.
    CycleFollowing,
    /// Open distinct boxes chosen uniformly at random.
    RandomSampling,
}

/// Why a configuration was rejected.
#[derive(Clone, Copy, Debug, PartialEq, Eq, Structural)]
pub enum ConfigError {
    /// There must be at least one prisoner.
    NoPrisoners,
    /// A prisoner cannot open more boxes than there are.
    BudgetExceedsPrisoners,
    /// At least one trial must be run.
    NoTrials,
}

/// A validated simulation configuration.
#[derive(Clone, Copy, Debug)]
pub struct SimulationConfig {
    /// The number of prisoners, and of boxes.
    pub prisoner_count: usize,
    /// How many boxes each prisoner may open.
    pub open_budget: usize,
    /// How many trials a batch runs.
    pub trial_count: u64,
}

/// The conditions a configuration must meet.
pub open spec fn is_valid_config(prisoner_count: nat, open_budget: nat, trial_count: nat) -> bool {
    &&& prisoner_count > 0
    &&& open_budget <= prisoner_count
    &&& trial_count > 0
}

impl SimulationConfig {
    /// The configuration satisfies `is_valid_config`.
    pub open spec fn wf(&self) -> bool {
        is_valid_config(self.prisoner_count as nat, self.open_budget as nat, self.trial_count as nat)
    }

    /// Validates a configuration. A budget of zero boxes is accepted: every
    /// trial then fails.
    pub fn new(prisoner_count: usize, open_budget: usize, trial_count: u64) -> (r: Result<
        SimulationConfig,
        ConfigError,
    >)
        ensures
            r is Ok <==> is_valid_config(prisoner_count as nat, open_budget as nat, trial_count as nat),
            r matches Ok(c) ==> c.wf() && c.prisoner_count == prisoner_count && c.open_budget
                == open_budget && c.trial_count == trial_count,
            r == Err::<SimulationConfig, ConfigError>(ConfigError::NoPrisoners) <==> prisoner_count == 0,
            r == Err::<SimulationConfig, ConfigError>(ConfigError::BudgetExceedsPrisoners) <==> (
            prisoner_count > 0 && open_budget > prisoner_count),
            r == Err::<SimulationConfig, ConfigError>(ConfigError::NoTrials) <==> (prisoner_count > 0
                && open_budget <= prisoner_count && trial_count == 0),
    {
        if prisoner_count == 0 {
            Err(ConfigError::NoPrisoners)
        } else if open_budget > prisoner_count {
            Err(ConfigError::BudgetExceedsPrisoners)
        } else if trial_count == 0 {
            Err(ConfigError::NoTrials)
        } else {
            Ok(SimulationConfig { prisoner_count, open_budget, trial_count })
        }
    }
}

/// Runs one trial of `strategy`: a fresh permutation, then every prisoner.
pub fn attempt_trial(
    strategy: Strategy,
    prisoner_count: usize,
    open_budget: usize,
    rng: &mut rand::rngs::StdRng,
) -> (r: bool)
    ensures
        strategy == Strategy::CycleFollowing ==> exists|p: Seq<usize>|
            #![trigger is_permutation(p, prisoner_count as nat)]
            is_permutation(p, prisoner_count as nat) && r == (longest_cycle_len(p) <= open_budget),
        strategy == Strategy::RandomSampling ==> exists|p: Seq<usize>, openings: Seq<Vec<usize>>|
            #![trigger are_finished_searches(p, openings, open_budget as nat)]
            is_permutation(p, prisoner_count as nat) && are_finished_searches(
                p,
                openings,
                open_budget as nat,
            ) && r == all_find_among(p, openings),
        open_budget == 0 && prisoner_count > 0 ==> !r,
        open_budget >= prisoner_count ==> r,
{
    match strategy {
        Strategy::CycleFollowing => attempt_loop_strategy(prisoner_count, open_budget, rng),
        Strategy::RandomSampling => attempt_random_strategy(prisoner_count, open_budget, rng),
    }
}

/// Runs the configured number of trials of `strategy` and returns how many
/// succeeded.
pub fn run_trials(config: &SimulationConfig, strategy: Strategy, rng: &mut rand::rngs::StdRng) -> (successes: u64)
    requires
        config.wf(),
    ensures
        successes <= config.trial_count,
        config.open_budget == 0 ==> successes == 0,
        config.open_budget == config.prisoner_count ==> successes == config.trial_count,
{
    let mut successes: u64 = 0;
    let mut t: u64 = 0;
    while t < config.trial_count
        invariant
            config.wf(),
            t <= config.trial_count,
            successes <= t,
            config.open_budget == 0 ==> successes == 0,
            config.open_budget == config.prisoner_count ==> successes == t,
        decreases config.trial_count - t,
    {
        if attempt_trial(strategy, config.prisoner_count, config.open_budget, rng) {
            successes = successes + 1;
        }
        t = t + 1;
    }
    successes
}

} // verus!
