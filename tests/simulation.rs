use prisoners::cycle_strategy::{
    attempt_loop_strategy, loop_strategy_succeeds, prisoner_follows_loop,
};
use prisoners::cycles::{cycle_length, longest_cycle};
use prisoners::permutation::place_cubes;
use prisoners::random_strategy::{
    all_prisoners_found, attempt_random_strategy, finds_number, open_drawn_box, open_random_boxes,
    open_random_boxes_for_all,
};
use prisoners::trials::{attempt_trial, run_trials, ConfigError, SimulationConfig, Strategy};
use rand::rngs::StdRng;
use rand::SeedableRng;

fn is_bijection(p: &[usize], n: usize) -> bool {
    if p.len() != n {
        return false;
    }
    let mut seen = vec![false; n];
    for &v in p {
        if v >= n || seen[v] {
            return false;
        }
        seen[v] = true;
    }
    true
}

fn naive_longest_cycle(p: &[usize]) -> usize {
    let mut longest = 0;
    for start in 0..p.len() {
        let mut len = 1;
        let mut cur = p[start];
        while cur != start {
            cur = p[cur];
            len += 1;
        }
        longest = longest.max(len);
    }
    longest
}

#[test]
fn placed_cubes_are_a_bijection() {
    let mut rng = StdRng::seed_from_u64(1);
    for n in [0usize, 1, 2, 7, 100] {
        for _ in 0..20 {
            let cubes = place_cubes(n, &mut rng);
            assert!(is_bijection(&cubes, n));
        }
    }
}

#[test]
fn placed_cubes_are_shuffled() {
    let mut rng = StdRng::seed_from_u64(2);
    let identity: Vec<usize> = (0..100).collect();
    let cubes = place_cubes(100, &mut rng);
    assert_ne!(cubes, identity);
}

#[test]
fn cycle_lengths_of_a_known_permutation() {
    // cycles: (0 1 2), (3), (4 5)
    let cubes = vec![1, 2, 0, 3, 5, 4];
    assert_eq!(cycle_length(&cubes, 0), 3);
    assert_eq!(cycle_length(&cubes, 1), 3);
    assert_eq!(cycle_length(&cubes, 2), 3);
    assert_eq!(cycle_length(&cubes, 3), 1);
    assert_eq!(cycle_length(&cubes, 4), 2);
    assert_eq!(cycle_length(&cubes, 5), 2);
    assert_eq!(longest_cycle(&cubes), 3);
    assert_eq!(longest_cycle(&Vec::new()), 0);
}

#[test]
fn prisoner_follows_a_known_loop() {
    let cubes = vec![1, 2, 0, 3, 5, 4];
    assert!(prisoner_follows_loop(&cubes, 0, 3));
    assert!(!prisoner_follows_loop(&cubes, 0, 2));
    assert!(prisoner_follows_loop(&cubes, 3, 1));
    assert!(!prisoner_follows_loop(&cubes, 3, 0));
    assert!(prisoner_follows_loop(&cubes, 4, 2));
    assert!(loop_strategy_succeeds(&cubes, 3));
    assert!(!loop_strategy_succeeds(&cubes, 2));
}

#[test]
fn loop_success_matches_longest_cycle() {
    let mut rng = StdRng::seed_from_u64(3);
    for _ in 0..2000 {
        let cubes = place_cubes(20, &mut rng);
        let longest = longest_cycle(&cubes);
        assert_eq!(longest, naive_longest_cycle(&cubes));
        for budget in [0usize, 5, 10, 15, 20] {
            assert_eq!(loop_strategy_succeeds(&cubes, budget), longest <= budget);
        }
    }
}

#[test]
fn random_search_opens_distinct_boxes() {
    let mut rng = StdRng::seed_from_u64(4);
    for _ in 0..500 {
        let cubes = place_cubes(30, &mut rng);
        for prisoner in 0..30 {
            let opened = open_random_boxes(&cubes, prisoner, 15, &mut rng);
            assert!(!opened.is_empty() && opened.len() <= 15);
            let mut seen = vec![false; 30];
            for &b in &opened {
                assert!(b < 30 && !seen[b]);
                seen[b] = true;
            }
            let found = opened.iter().position(|&b| cubes[b] == prisoner);
            match found {
                Some(k) => assert_eq!(k, opened.len() - 1),
                None => assert_eq!(opened.len(), 15),
            }
        }
    }
}

#[test]
fn random_search_with_full_budget_finds_every_number() {
    let mut rng = StdRng::seed_from_u64(5);
    let cubes = place_cubes(40, &mut rng);
    for prisoner in 0..40 {
        let opened = open_random_boxes(&cubes, prisoner, 40, &mut rng);
        assert_eq!(cubes[*opened.last().unwrap()], prisoner);
    }
    let openings = open_random_boxes_for_all(&cubes, 40, &mut rng);
    assert!(all_prisoners_found(&cubes, &openings));
}

#[test]
fn random_search_order_depends_on_draws() {
    let cubes: Vec<usize> = (0..50).collect();
    let mut rng = StdRng::seed_from_u64(6);
    let first = open_random_boxes(&cubes, 50, 50, &mut rng);
    let second = open_random_boxes(&cubes, 50, 50, &mut rng);
    assert_eq!(first.len(), 50);
    assert_ne!(first, second);
}

#[test]
fn loop_strategy_rate_is_near_analytic_bound() {
    let config = SimulationConfig::new(100, 50, 100_000).unwrap();
    let mut rng = StdRng::seed_from_u64(7);
    let successes = run_trials(&config, Strategy::CycleFollowing, &mut rng);
    let rate = successes as f64 / 100_000.0 * 100.0;
    assert!((rate - 31.18).abs() < 2.0, "rate {rate}");
}

#[test]
fn random_strategy_almost_never_succeeds() {
    let config = SimulationConfig::new(100, 50, 2_000).unwrap();
    let mut rng = StdRng::seed_from_u64(8);
    assert_eq!(run_trials(&config, Strategy::RandomSampling, &mut rng), 0);
}

#[test]
fn seeded_runs_are_reproducible() {
    let mut a = StdRng::seed_from_u64(9);
    let mut b = StdRng::seed_from_u64(9);
    for _ in 0..50 {
        assert_eq!(place_cubes(100, &mut a), place_cubes(100, &mut b));
    }
    for _ in 0..50 {
        assert_eq!(attempt_loop_strategy(100, 50, &mut a), attempt_loop_strategy(100, 50, &mut b));
        assert_eq!(attempt_random_strategy(100, 50, &mut a), attempt_random_strategy(100, 50, &mut b));
    }
    let config = SimulationConfig::new(30, 15, 200).unwrap();
    assert_eq!(
        run_trials(&config, Strategy::CycleFollowing, &mut a),
        run_trials(&config, Strategy::CycleFollowing, &mut b)
    );
}

#[test]
fn full_budget_always_succeeds_with_loops() {
    let config = SimulationConfig::new(100, 100, 500).unwrap();
    let mut rng = StdRng::seed_from_u64(10);
    assert_eq!(run_trials(&config, Strategy::CycleFollowing, &mut rng), 500);
    assert!(attempt_trial(Strategy::CycleFollowing, 10, 10, &mut rng));
}

#[test]
fn full_budget_always_succeeds_with_random_sampling() {
    let config = SimulationConfig::new(50, 50, 200).unwrap();
    let mut rng = StdRng::seed_from_u64(13);
    assert_eq!(run_trials(&config, Strategy::RandomSampling, &mut rng), 200);
    assert!(attempt_random_strategy(7, 7, &mut rng));
}

#[test]
fn zero_budget_always_fails() {
    let config = SimulationConfig::new(100, 0, 200).unwrap();
    let mut rng = StdRng::seed_from_u64(11);
    assert_eq!(run_trials(&config, Strategy::CycleFollowing, &mut rng), 0);
    assert_eq!(run_trials(&config, Strategy::RandomSampling, &mut rng), 0);
    assert!(!attempt_trial(Strategy::RandomSampling, 1, 0, &mut rng));
    assert!(!attempt_loop_strategy(1, 0, &mut rng));
}

#[test]
fn single_prisoner_with_one_box_succeeds() {
    let mut rng = StdRng::seed_from_u64(12);
    assert!(attempt_loop_strategy(1, 1, &mut rng));
    assert!(attempt_random_strategy(1, 1, &mut rng));
}

#[test]
fn config_is_validated() {
    assert_eq!(SimulationConfig::new(0, 0, 10).unwrap_err(), ConfigError::NoPrisoners);
    assert_eq!(SimulationConfig::new(10, 11, 10).unwrap_err(), ConfigError::BudgetExceedsPrisoners);
    assert_eq!(SimulationConfig::new(10, 5, 0).unwrap_err(), ConfigError::NoTrials);
    let c = SimulationConfig::new(100, 50, 1000).unwrap();
    assert_eq!((c.prisoner_count, c.open_budget, c.trial_count), (100, 50, 1000));
}

#[test]
fn drawn_box_moves_behind_the_unopened_ones() {
    let mut pool = vec![10, 11, 12, 13, 14];
    assert_eq!(open_drawn_box(&mut pool, 5, 1), 11);
    assert_eq!(pool, vec![10, 14, 12, 13, 11]);
    assert_eq!(open_drawn_box(&mut pool, 4, 3), 13);
    assert_eq!(pool, vec![10, 14, 12, 13, 11]);
    assert_eq!(open_drawn_box(&mut pool, 3, 0), 10);
    assert_eq!(pool, vec![12, 14, 10, 13, 11]);
}

#[test]
fn finds_number_checks_every_opened_box() {
    let cubes = vec![1, 2, 0, 3, 5, 4];
    assert!(finds_number(&cubes, 0, &vec![4, 2]));
    assert!(!finds_number(&cubes, 0, &vec![4, 1, 0]));
    assert!(!finds_number(&cubes, 3, &Vec::new()));
}

#[test]
fn all_prisoners_found_needs_every_prisoner() {
    let cubes = vec![1, 2, 0];
    let good = vec![vec![2], vec![0], vec![1, 2]];
    let bad = vec![vec![2], vec![0], vec![0, 2]];
    assert!(all_prisoners_found(&cubes, &good));
    assert!(!all_prisoners_found(&cubes, &bad));
}

#[test]
fn every_prisoner_gets_an_own_search() {
    let mut rng = StdRng::seed_from_u64(14);
    let cubes = place_cubes(60, &mut rng);
    let openings = open_random_boxes_for_all(&cubes, 30, &mut rng);
    assert_eq!(openings.len(), 60);
    let mut found_all = true;
    for (i, opened) in openings.iter().enumerate() {
        assert!(!opened.is_empty() && opened.len() <= 30);
        let mut seen = vec![false; 60];
        for &b in opened {
            assert!(b < 60 && !seen[b]);
            seen[b] = true;
        }
        let hit = opened.iter().any(|&b| cubes[b] == i);
        assert_eq!(finds_number(&cubes, i, opened), hit);
        found_all &= hit;
    }
    assert_eq!(all_prisoners_found(&cubes, &openings), found_all);
}
