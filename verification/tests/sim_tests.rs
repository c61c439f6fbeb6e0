//! Vision and the simulation stepper, on concrete worlds.

use evosim::brain::Brain;
use evosim::chromosome::Chromosome;
use evosim::config::Config;
use evosim::crossover::UniformCrossover;
use evosim::eye::Eye;
use evosim::ga::GeneticAlgorithm;
use evosim::mutation::GaussianMutation;
use evosim::rng::SimRng;
use evosim::selection::{RankSelection, RouletteWheelSelection, SelectionMethod};
use evosim::sim::Simulation;
use evosim::world::{Animal, Food, World};

fn reference_eye() -> Eye {
    Eye::new(250_000, 625_000, 9)
}

/// A brain whose genes are all zero: every output is zero.
fn inert_brain(eye: &Eye) -> Brain {
    // cells inputs into 2*cells neurons, then into 2: per the topology,
    // 2c*(c+1) + 2*(2c+1) genes.
    let c = eye.cells() as usize;
    let count = 2 * c * (c + 1) + 2 * (2 * c + 1);
    Brain::from_chromosome(&Chromosome::new(vec![0; count]), eye).unwrap()
}

fn small_config() -> Config {
    Config {
        eye: reference_eye(),
        speed_min: 1_000,
        speed_max: 5_000,
        speed_start: 2_000,
        speed_accel: 200_000,
        rotation_accel: 250_000,
        generation_length: 3,
        eat_range: 10_000,
        n_animals: 3,
        n_foods: 3,
    }
}

fn roulette_ga() -> GeneticAlgorithm {
    GeneticAlgorithm::new(
        SelectionMethod::RouletteWheel(RouletteWheelSelection::new()),
        UniformCrossover::new(),
        GaussianMutation::new(10_000, 300_000),
    )
}

#[test]
fn vision_food_at_the_boundary_contributes_nothing() {
    let eye = reference_eye();
    // The food sits exactly at the field-of-view radius: it is seen, but
    // its energy is zero.
    let foods = vec![Food { x: 500_000, y: 750_000 }];
    let cells = eye.process_vision(500_000, 500_000, 0, &foods);
    assert_eq!(cells, vec![0; 9]);
}

#[test]
fn vision_food_at_zero_distance_contributes_full_energy() {
    let eye = reference_eye();
    let foods = vec![Food { x: 500_000, y: 500_000 }];
    let cells = eye.process_vision(500_000, 500_000, 0, &foods);
    // An angle of zero lands in the middle cell with energy 1.0.
    assert_eq!(cells[4], 1_000_000);
    let total: i64 = cells.iter().sum();
    assert_eq!(total, 1_000_000);
}

#[test]
fn vision_energy_falls_off_linearly() {
    let eye = reference_eye();
    // Straight ahead at distance 0.1 of a 0.25 range: energy 0.6.
    let foods = vec![Food { x: 500_000, y: 600_000 }];
    let cells = eye.process_vision(500_000, 500_000, 0, &foods);
    assert_eq!(cells[4], 600_000);
}

#[test]
fn vision_foods_in_one_cell_sum() {
    let eye = reference_eye();
    let foods = vec![
        Food { x: 500_000, y: 600_000 },
        Food { x: 500_000, y: 650_000 },
    ];
    let cells = eye.process_vision(500_000, 500_000, 0, &foods);
    // 0.6 plus 0.4 of energy in the middle cell.
    assert_eq!(cells[4], 1_000_000);
}

#[test]
fn vision_food_behind_is_outside_the_fov() {
    let eye = reference_eye();
    // Facing up, a close food straight below sits outside the five-eighths
    // field of view.
    let foods = vec![Food { x: 500_000, y: 400_000 }];
    let cells = eye.process_vision(500_000, 500_000, 0, &foods);
    assert_eq!(cells, vec![0; 9]);
}

#[test]
fn vision_out_of_range_food_is_unseen() {
    let eye = reference_eye();
    let foods = vec![Food { x: 500_000, y: 760_001 }];
    let cells = eye.process_vision(500_000, 500_000, 0, &foods);
    assert_eq!(cells, vec![0; 9]);
}

#[test]
fn movement_wraps_on_the_torus() {
    // An inert brain keeps speed 0.002 and heading 0 (straight up): from
    // y = 0.999 the animal reappears at 0.001.
    let config = small_config();
    let eye = config.eye;
    let animal = Animal {
        x: 500_000,
        y: 999_000,
        rotation: 0,
        speed: 2_000,
        satiation: 0,
        brain: inert_brain(&eye),
        eye,
    };
    let b = inert_brain(&eye);
    let c = inert_brain(&eye);
    let far_food = Food { x: 0, y: 0 };
    let world = World {
        animals: vec![
            animal,
            Animal { x: 0, y: 0, rotation: 0, speed: 2_000, satiation: 0, brain: b, eye },
            Animal { x: 0, y: 0, rotation: 0, speed: 2_000, satiation: 0, brain: c, eye },
        ],
        foods: vec![far_food, far_food, far_food],
    };
    let mut sim = Simulation { config, ga: roulette_ga(), world, age: 0 };
    let mut rng = SimRng::from_seed(1);

    let out = sim.step(&mut rng).unwrap();
    assert!(out.is_none());

    let a0 = &sim.world().animals()[0];
    assert_eq!(a0.position(), (500_000, 1_000));
    assert_eq!(a0.rotation(), 0);
    assert!(a0.position().1 < 1_000_000);
}

#[test]
fn feeding_raises_satiation_and_respawns_the_food() {
    let config = small_config();
    let eye = config.eye;
    let mk = |x: i64, y: i64| Animal {
        x,
        y,
        rotation: 0,
        speed: 2_000,
        satiation: 0,
        brain: inert_brain(&eye),
        eye,
    };
    // The first animal sits within eating range of the first food.
    let world = World {
        animals: vec![mk(500_000, 500_000), mk(0, 0), mk(100_000, 900_000)],
        foods: vec![
            Food { x: 505_000, y: 500_000 },
            Food { x: 300_000, y: 300_000 },
            Food { x: 700_000, y: 700_000 },
        ],
    };
    let mut sim = Simulation { config, ga: roulette_ga(), world, age: 0 };
    let mut rng = SimRng::from_seed(123);

    sim.step(&mut rng).unwrap();

    assert_eq!(sim.world().animals()[0].satiation, 1);
    assert_eq!(sim.world().animals()[1].satiation, 0);
    // The eaten food respawned somewhere else.
    let (fx, fy) = sim.world().foods()[0].position();
    assert!(!(fx == 505_000 && fy == 500_000));
}

#[test]
fn feeding_banks_one_event_per_food_in_range() {
    let config = small_config();
    let eye = config.eye;
    let animal = Animal {
        x: 500_000,
        y: 500_000,
        rotation: 0,
        speed: 2_000,
        satiation: 0,
        brain: inert_brain(&eye),
        eye,
    };
    let b = inert_brain(&eye);
    let c = inert_brain(&eye);
    // Two foods within eating range, one outside it.
    let world = World {
        animals: vec![
            animal,
            Animal { x: 0, y: 0, rotation: 0, speed: 2_000, satiation: 0, brain: b, eye },
            Animal { x: 100_000, y: 900_000, rotation: 0, speed: 2_000, satiation: 0, brain: c, eye },
        ],
        foods: vec![
            Food { x: 505_000, y: 500_000 },
            Food { x: 500_000, y: 493_000 },
            Food { x: 700_000, y: 700_000 },
        ],
    };
    let mut sim = Simulation { config, ga: roulette_ga(), world, age: 0 };
    let mut rng = SimRng::from_seed(77);

    sim.step(&mut rng).unwrap();

    assert_eq!(sim.world().animals()[0].satiation, 2);
}

#[test]
fn step_reports_statistics_only_on_the_boundary() {
    let mut config = small_config();
    config.generation_length = 2;
    let mut rng = SimRng::from_seed(7);
    let world = World::random(&mut rng, &config);
    let mut sim = Simulation {
        config,
        ga: GeneticAlgorithm::new(
            SelectionMethod::Rank(RankSelection::new()),
            UniformCrossover::new(),
            GaussianMutation::new(10_000, 300_000),
        ),
        world,
        age: 0,
    };

    assert!(sim.step(&mut rng).unwrap().is_none());
    assert!(sim.step(&mut rng).unwrap().is_none());
    // The third tick crosses the two-tick generation boundary.
    let stats = sim.step(&mut rng).unwrap();
    assert!(stats.is_some());
    // After rebirth every animal starts hungry again.
    for a in sim.world().animals() {
        assert_eq!(a.satiation, 0);
    }
}

#[test]
fn train_runs_to_the_next_boundary() {
    let config = small_config();
    let mut rng = SimRng::from_seed(99);
    let world = World::random(&mut rng, &config);
    let mut sim = Simulation {
        config,
        ga: GeneticAlgorithm::new(
            SelectionMethod::Rank(RankSelection::new()),
            UniformCrossover::new(),
            GaussianMutation::new(10_000, 300_000),
        ),
        world,
        age: 0,
    };

    let stats = sim.train(&mut rng).unwrap();
    assert!(stats.min_fitness() <= stats.median_fitness());
    assert!(stats.median_fitness() <= stats.max_fitness());
    assert!(stats.min_fitness() <= stats.avg_fitness());
    assert!(stats.avg_fitness() <= stats.max_fitness());
    assert_eq!(sim.age, 0);
}

#[test]
fn identical_seeds_replay_identically() {
    let run = |seed: u64| {
        let mut rng = SimRng::from_seed(seed);
        let mut sim = Simulation::random(&mut rng);
        for _ in 0..40 {
            sim.step(&mut rng).unwrap();
        }
        let mut snapshot: Vec<(i64, i64, i64, i64, i64)> = Vec::new();
        for a in sim.world().animals() {
            snapshot.push((a.x, a.y, a.rotation, a.speed, a.satiation));
        }
        for f in sim.world().foods() {
            snapshot.push((f.x, f.y, 0, 0, 0));
        }
        snapshot
    };

    assert_eq!(run(2_718), run(2_718));
    assert!(run(2_718) != run(31_415));
}
