//! Selection strategies: the tie-collapsing rank rule, the no-crash
//! guarantee on unsorted ties, weighted-draw histograms, and sorting.

use std::collections::BTreeMap;

use evosim::individual::{Individual, TestIndividual};
use evosim::rng::SimRng;
use evosim::selection::{rank_weights, sort_by_fitness, RankSelection, RouletteWheelSelection};

#[test]
fn rank_weights_collapse_ties_to_one_rank() {
    // Two individuals share the fitness 1.0: both get the rank of the
    // first of them, and nobody gets rank 2.
    let population = vec![
        TestIndividual::new(1_000_000),
        TestIndividual::new(1_000_000),
        TestIndividual::new(4_000_000),
    ];
    assert_eq!(rank_weights(&population), vec![1, 1, 3]);
}

#[test]
fn rank_weights_locate_fitness_values_on_unsorted_populations() {
    let population = vec![
        TestIndividual::new(4_000_000),
        TestIndividual::new(1_000_000),
        TestIndividual::new(1_000_000),
        TestIndividual::new(3_000_000),
    ];
    assert_eq!(rank_weights(&population), vec![1, 2, 2, 4]);
}

#[test]
fn rank_select_before_sort_does_not_crash_on_ties() {
    // An unsorted population with equal fitness values: selecting without
    // any sort call must still yield a member.
    let population = vec![
        TestIndividual::new(2_000_000),
        TestIndividual::new(2_000_000),
        TestIndividual::new(1_000_000),
    ];
    let method = RankSelection::new();
    let mut rng = SimRng::from_seed(3);
    for _ in 0..100 {
        let picked = method.select(&mut rng, &population).unwrap();
        assert!(population.iter().any(|p| p == picked));
    }
}

#[test]
fn roulette_selection_histogram() {
    let method = RouletteWheelSelection::new();
    let mut rng = SimRng::from_seed(0);

    let population = vec![
        TestIndividual::new(2_000_000),
        TestIndividual::new(1_000_000),
        TestIndividual::new(4_000_000),
        TestIndividual::new(3_000_000),
    ];

    let mut histogram: BTreeMap<i64, u32> = BTreeMap::new();
    for _ in 0..1000 {
        let picked = method.select(&mut rng, &population).unwrap();
        *histogram.entry(picked.fitness() / 1_000_000).or_insert(0) += 1;
    }

    let counts: Vec<u32> = (1..=4).map(|f| histogram.get(&f).copied().unwrap_or(0)).collect();
    assert_eq!(counts.iter().sum::<u32>(), 1000);
    // Selection pressure follows raw fitness: 1 < 2 < 3 < 4.
    assert!(counts[0] < counts[1] && counts[1] < counts[2] && counts[2] < counts[3]);
    // The fittest carries 40% of the weight.
    assert!(300 <= counts[3] && counts[3] <= 500);
}

#[test]
fn rank_selection_histogram() {
    let mut method = RankSelection::new();
    let mut rng = SimRng::from_seed(0);

    let mut population = vec![
        TestIndividual::new(2_000_000),
        TestIndividual::new(1_000_000),
        TestIndividual::new(4_000_000),
        TestIndividual::new(3_000_000),
    ];

    let mut histogram: BTreeMap<i64, u32> = BTreeMap::new();
    for _ in 0..1000 {
        method.sort(&mut population);
        let picked = method.select(&mut rng, &population).unwrap();
        *histogram.entry(picked.fitness() / 1_000_000).or_insert(0) += 1;
    }

    let counts: Vec<u32> = (1..=4).map(|f| histogram.get(&f).copied().unwrap_or(0)).collect();
    assert_eq!(counts.iter().sum::<u32>(), 1000);
    // Rank weights 1..4 of 10: pressure gentler than raw fitness, still
    // ordered.
    assert!(counts[0] < counts[1] && counts[1] < counts[2] && counts[2] < counts[3]);
    assert!(300 <= counts[3] && counts[3] <= 500);
}

#[test]
fn sort_by_fitness_orders_ascending() {
    let mut population = vec![
        TestIndividual::new(3_000_000),
        TestIndividual::new(1_000_000),
        TestIndividual::new(4_000_000),
        TestIndividual::new(1_000_000),
    ];
    sort_by_fitness(&mut population);

    let fitnesses: Vec<i64> = population.iter().map(|p| p.fitness()).collect();
    assert_eq!(fitnesses, vec![1_000_000, 1_000_000, 3_000_000, 4_000_000]);
}

#[test]
fn rank_sort_runs_once_per_generation() {
    let mut method = RankSelection::new();
    let mut population = vec![
        TestIndividual::new(3_000_000),
        TestIndividual::new(1_000_000),
    ];
    method.sort(&mut population);
    assert_eq!(population[0].fitness(), 1_000_000);

    // A second sort in the same generation leaves the slice alone, even
    // when it was shuffled meanwhile.
    population.swap(0, 1);
    method.sort(&mut population);
    assert_eq!(population[0].fitness(), 3_000_000);

    // A new generation sorts again.
    method.set_not_sorted_population();
    method.sort(&mut population);
    assert_eq!(population[0].fitness(), 1_000_000);
}
