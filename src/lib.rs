//! Monte Carlo simulation of the prisoners-and-boxes puzzle: a random
//! permutation of prisoner numbers is placed in boxes, each prisoner may open
//! a limited number of boxes, and the group wins only if everyone finds their
//! own number. Two strategies are compared: following the permutation's
//! cycles, and sampling boxes at random without replacement.

pub mod random;
pub mod permutation;
pub mod cycles;
pub mod cycle_strategy;
pub mod random_strategy;
pub mod trials;
