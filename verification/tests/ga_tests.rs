//! The genetic algorithm engine: statistics, crossover, mutation, and the
//! full evolve cycle, on concrete fixed-point values.

use evosim::chromosome::Chromosome;
use evosim::crossover::UniformCrossover;
use evosim::ga::{GaError, GeneticAlgorithm, Statistics};
use evosim::individual::{Individual, TestIndividual};
use evosim::mutation::GaussianMutation;
use evosim::rng::SimRng;
use evosim::selection::{RankSelection, RouletteWheelSelection, SelectionMethod};

fn individual(genes: &[i64]) -> TestIndividual {
    let chromosome = Chromosome::new(genes.to_vec());
    TestIndividual::create(chromosome)
}

fn test_population() -> Vec<TestIndividual> {
    vec![
        individual(&[0, 0, 0]),
        individual(&[1_000_000, 1_000_000, 1_000_000]),
        individual(&[1_000_000, 2_000_000, 1_000_000]),
        individual(&[1_000_000, 2_000_000, 4_000_000]),
    ]
}

fn roulette_ga() -> GeneticAlgorithm {
    GeneticAlgorithm::new(
        SelectionMethod::RouletteWheel(RouletteWheelSelection::new()),
        UniformCrossover::new(),
        GaussianMutation::new(500_000, 500_000),
    )
}

fn rank_ga() -> GeneticAlgorithm {
    GeneticAlgorithm::new(
        SelectionMethod::Rank(RankSelection::new()),
        UniformCrossover::new(),
        GaussianMutation::new(500_000, 500_000),
    )
}

#[test]
fn statistics_of_four_fitnesses() {
    // Fitnesses [0, 1, 1, 4]: min 0, max 4, avg 1.5, median 1 (the mean of
    // the two middle sorted values).
    let population = vec![
        TestIndividual::new(0),
        TestIndividual::new(1_000_000),
        TestIndividual::new(1_000_000),
        TestIndividual::new(4_000_000),
    ];
    let stats = Statistics::new(&population);

    assert_eq!(stats.min_fitness(), 0);
    assert_eq!(stats.max_fitness(), 4_000_000);
    assert_eq!(stats.avg_fitness(), 1_500_000);
    assert_eq!(stats.median_fitness(), 1_000_000);
}

#[test]
fn statistics_odd_population_takes_middle() {
    let population = vec![
        TestIndividual::new(3_000_000),
        TestIndividual::new(1_000_000),
        TestIndividual::new(2_000_000),
    ];
    let stats = Statistics::new(&population);

    assert_eq!(stats.min_fitness(), 1_000_000);
    assert_eq!(stats.max_fitness(), 3_000_000);
    assert_eq!(stats.avg_fitness(), 2_000_000);
    assert_eq!(stats.median_fitness(), 2_000_000);
}

#[test]
fn crossover_keeps_length_and_picks_parent_genes() {
    let mut rng = SimRng::from_seed(11);
    let a = Chromosome::new(vec![100_000, 200_000, 300_000, 400_000]);
    let b = Chromosome::new(vec![-100_000, -200_000, -300_000, -400_000]);

    for _ in 0..50 {
        let child = UniformCrossover::new().crossover(&mut rng, &a, &b).unwrap();
        assert_eq!(child.len(), 4);
        for i in 0..4 {
            let g = child.gene(i);
            assert!(g == a.gene(i) || g == b.gene(i));
        }
    }
}

#[test]
fn crossover_rejects_mismatched_parents() {
    let mut rng = SimRng::from_seed(11);
    let a = Chromosome::new(vec![100_000, 200_000]);
    let b = Chromosome::new(vec![100_000, 200_000, 300_000]);

    assert_eq!(
        UniformCrossover::new().crossover(&mut rng, &a, &b),
        Err(GaError::MismatchedChromosomes)
    );
}

#[test]
fn mutation_moves_genes_by_exactly_the_coefficient() {
    let mut rng = SimRng::from_seed(5);
    let mutation = GaussianMutation::new(1_000_000, 300_000);
    let mut child = Chromosome::new(vec![0, 100_000, -100_000]);
    mutation.mutate(&mut rng, &mut child);

    assert_eq!(child.len(), 3);
    let originals = [0i64, 100_000, -100_000];
    for i in 0..3 {
        let g = child.gene(i);
        let base = originals[i];
        // Chance is certainty, so every gene moved one step.
        assert!(g == base + 300_000 || g == base - 300_000);
    }
}

#[test]
fn mutation_with_zero_chance_changes_nothing() {
    let mut rng = SimRng::from_seed(5);
    let mutation = GaussianMutation::new(0, 300_000);
    let mut child = Chromosome::new(vec![0, 100_000, -100_000]);
    mutation.mutate(&mut rng, &mut child);

    assert_eq!(child, Chromosome::new(vec![0, 100_000, -100_000]));
}

#[test]
fn test_with_roulette_wheel_selection() {
    let mut rng = SimRng::from_seed(2024);
    let mut ga = roulette_ga();
    let mut population = test_population();

    for _ in 0..10 {
        let (next, _stats) = ga.evolve(&mut rng, &mut population).unwrap();
        population = next;
    }

    assert_eq!(population.len(), 4);
    for ind in &population {
        let c = ind.chromosome();
        assert_eq!(c.len(), 3);
        for i in 0..3 {
            let g = c.gene(i);
            assert!(-1_000_000_000_000 <= g && g <= 1_000_000_000_000);
        }
    }

    // The run is a function of the seed alone.
    let mut rng2 = SimRng::from_seed(2024);
    let mut ga2 = roulette_ga();
    let mut population2 = test_population();
    for _ in 0..10 {
        let (next, _stats) = ga2.evolve(&mut rng2, &mut population2).unwrap();
        population2 = next;
    }
    assert_eq!(population, population2);
}

#[test]
fn test_with_rank_selection() {
    let mut rng = SimRng::from_seed(2024);
    let mut ga = rank_ga();
    let mut population = test_population();

    for _ in 0..10 {
        let (next, _stats) = ga.evolve(&mut rng, &mut population).unwrap();
        population = next;
    }

    assert_eq!(population.len(), 4);
    for ind in &population {
        assert_eq!(ind.chromosome().len(), 3);
    }

    let mut rng2 = SimRng::from_seed(2024);
    let mut ga2 = rank_ga();
    let mut population2 = test_population();
    for _ in 0..10 {
        let (next, _stats) = ga2.evolve(&mut rng2, &mut population2).unwrap();
        population2 = next;
    }
    assert_eq!(population, population2);
}

#[test]
fn evolve_rejects_an_empty_population() {
    let mut rng = SimRng::from_seed(1);
    let mut ga = roulette_ga();
    let mut population: Vec<TestIndividual> = Vec::new();

    assert_eq!(
        ga.evolve(&mut rng, &mut population).unwrap_err(),
        GaError::EmptyPopulation
    );
}

#[test]
fn roulette_evolve_rejects_an_all_zero_population() {
    let mut rng = SimRng::from_seed(1);
    let mut ga = roulette_ga();
    let mut population = vec![
        TestIndividual::new(0),
        TestIndividual::new(0),
        TestIndividual::new(0),
    ];

    assert_eq!(
        ga.evolve(&mut rng, &mut population).unwrap_err(),
        GaError::EmptySelection
    );
}

#[test]
fn rank_evolve_accepts_an_all_zero_population() {
    // Ranks are at least one, so an all-zero generation still breeds.
    let mut rng = SimRng::from_seed(1);
    let mut ga = rank_ga();
    let mut population = vec![individual(&[0, 0, 0]), individual(&[0, 0, 0])];

    let (next, stats) = ga.evolve(&mut rng, &mut population).unwrap();
    assert_eq!(next.len(), 2);
    assert_eq!(stats.min_fitness(), 0);
    assert_eq!(stats.max_fitness(), 0);
}
