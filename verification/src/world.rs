//! The world: animals and the food they hunt, on the unit torus.

use vstd::prelude::*;

use crate::brain::Brain;
use crate::config::Config;
use crate::eye::Eye;
use crate::fixed::{SCALE, TURN};
use crate::rng::SimRng;

verus! {

/// A morsel of food: a position on the unit torus.
#[derive(Clone, Copy, Debug)]
pub struct Food {
    pub x: i64,
    pub y: i64,
}

impl Food {
    /// The position lies on the unit torus.
    pub open spec fn wf(&self) -> bool {
        &&& 0 <= self.x < SCALE
        &&& 0 <= self.y < SCALE
    }

    /// A food at a uniformly random position.
    pub fn random(rng: &mut SimRng) -> (r: Food)
        ensures
            r.wf(),
    {
        let x = rng.coord();
        let y = rng.coord();
        Food { x, y }
    }

    /// The food's position, as fixed-point coordinates.
    pub fn position(&self) -> (r: (i64, i64))
        ensures
            r.0 == self.x,
            r.1 == self.y,
    {
        (self.x, self.y)
    }
}

/// Most feeding events one animal can bank in a generation.
pub open const SATIATION_LIMIT: i64 = 1_000_000;

/// An agent: a position and heading on the unit torus, a speed, the count
/// of foods eaten this generation, and the sensor and brain that steer it.
#[derive(Clone, Debug)]
pub struct Animal {
    pub x: i64,
    pub y: i64,
    pub rotation: i64,
    pub speed: i64,
    pub satiation: i64,
    pub brain: Brain,
    pub eye: Eye,
}

impl Animal {
    /// On the torus, within the speed band, satiation banked, the brain
    /// shaped for the configured eye.
    pub open spec fn wf(&self, config: Config) -> bool {
        &&& 0 <= self.x < SCALE
        &&& 0 <= self.y < SCALE
        &&& 0 <= self.rotation < TURN
        &&& config.speed_min <= self.speed <= config.speed_max
        &&& 0 <= self.satiation <= SATIATION_LIMIT
        &&& self.eye == config.eye
        &&& self.brain.wf(config.eye)
    }

    /// An animal at a random place and heading, with a random brain.
    pub fn random(rng: &mut SimRng, config: &Config) -> (r: Animal)
        requires
            config.wf(),
        ensures
            r.wf(*config),
            r.satiation == 0,
            r.speed == config.speed_start,
            r.brain.nn.genes_in_unit_range(),
    {
        let x = rng.coord();
        let y = rng.coord();
        let rotation = rng.angle();
        let brain = Brain::random(rng, &config.eye);
        Animal { x, y, rotation, speed: config.speed_start, satiation: 0, brain, eye: config.eye }
    }

    /// The animal's position, as fixed-point coordinates.
    pub fn position(&self) -> (r: (i64, i64))
        ensures
            r.0 == self.x,
            r.1 == self.y,
    {
        (self.x, self.y)
    }

    /// The animal's heading, in turn units.
    pub fn rotation(&self) -> (r: i64)
        ensures
            r == self.rotation,
    {
        self.rotation
    }
}

/// The world: a fixed population of animals and a fixed supply of foods.
#[derive(Clone, Debug)]
pub struct World {
    pub animals: Vec<Animal>,
    pub foods: Vec<Food>,
}

impl World {
    /// The configured counts, every inhabitant well formed.
    pub open spec fn wf(&self, config: Config) -> bool {
        &&& self.animals@.len() == config.n_animals
        &&& self.foods@.len() == config.n_foods
        &&& forall|i: int| 0 <= i < self.animals@.len() ==> (#[trigger] self.animals@[i]).wf(config)
        &&& forall|i: int| 0 <= i < self.foods@.len() ==> (#[trigger] self.foods@[i]).wf()
    }

    /// A world of randomly placed animals and foods.
    pub fn random(rng: &mut SimRng, config: &Config) -> (r: World)
        requires
            config.wf(),
        ensures
            r.wf(*config),
            forall|i: int|
                0 <= i < r.animals@.len() ==> (#[trigger] r.animals@[i]).satiation == 0
                    && r.animals@[i].speed == config.speed_start,
    {
        let mut animals: Vec<Animal> = Vec::new();
        let mut k: usize = 0;
        while k < config.n_animals
            invariant
                k <= config.n_animals,
                config.wf(),
                animals@.len() == k,
                forall|i: int| 0 <= i < k ==> (#[trigger] animals@[i]).wf(*config),
                forall|i: int|
                    0 <= i < k ==> (#[trigger] animals@[i]).satiation == 0 && animals@[i].speed
                        == config.speed_start,
            decreases config.n_animals - k,
        {
            let a = Animal::random(rng, config);
            animals.push(a);
            k += 1;
        }
        let mut foods: Vec<Food> = Vec::new();
        let mut k: usize = 0;
        while k < config.n_foods
            invariant
                k <= config.n_foods,
                foods@.len() == k,
                forall|i: int| 0 <= i < k ==> (#[trigger] foods@[i]).wf(),
            decreases config.n_foods - k,
        {
            let f = Food::random(rng);
            foods.push(f);
            k += 1;
        }
        World { animals, foods }
    }

    /// The world's animals.
    pub fn animals(&self) -> (r: &Vec<Animal>)
        ensures
            r == &self.animals,
    {
        &self.animals
    }

    /// The world's foods.
    pub fn foods(&self) -> (r: &Vec<Food>)
        ensures
            r == &self.foods,
    {
        &self.foods
    }
}

} // verus!
