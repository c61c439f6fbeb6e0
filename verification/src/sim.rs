//! The simulation stepper and evolution driver.
//!
//! Each tick runs, in order: the feeding pass (eaten food respawns and
//! feeds its eater), the brain pass (each animal steers by what its eye
//! sees), and the movement pass (each animal advances along its heading
//! and wraps on the torus). After a generation's worth of ticks the whole
//! population is handed to the genetic algorithm and reborn from the
//! evolved chromosomes, and that generation's statistics are returned.

use vstd::prelude::*;

use crate::brain::{spec_topology, Brain};
use crate::chromosome::Chromosome;
use crate::config::Config;
use crate::crossover::UniformCrossover;
use crate::eye::spec_vision;
use crate::fixed::{
    clamped, clamp_i64, div_scale, div_trunc, lemma_div_trunc_bound, wrap_mod, SCALE,
    SIGNAL_LIMIT, TURN,
};
use crate::ga::{
    evolvable, fitnesses, seq_max, seq_min, spec_child_of, spec_gene_options, spec_median,
    GaError, GeneticAlgorithm, Statistics,
};
use crate::individual::{spec_sum, Individual};
use crate::mutation::GaussianMutation;
use crate::nn::{lemma_genes_len, spec_gene_count, spec_propagate};
use crate::rng::SimRng;
use crate::selection::{RouletteWheelSelection, SelectionMethod};
use crate::trig::{cos_turn, sin_turn, spec_cos_turn, spec_sin_turn};
use crate::world::{Animal, Food, World, SATIATION_LIMIT};

verus! {

/// An animal wrapped for the genetic algorithm: its satiation as fitness,
/// its flattened brain as chromosome.
#[derive(Clone, Debug)]
pub struct AnimalIndividual {
    pub fitness: i64,
    pub chromosome: Chromosome,
}

impl Individual for AnimalIndividual {
    open spec fn inv(&self) -> bool {
        &&& self.chromosome.wf()
        &&& 0 <= self.fitness <= SIGNAL_LIMIT
    }

    open spec fn has_chromosome(&self) -> bool {
        true
    }

    open spec fn spec_fitness(&self) -> i64 {
        self.fitness
    }

    open spec fn spec_chromosome(&self) -> Seq<i64> {
        self.chromosome.genes@
    }

    fn fitness(&self) -> (r: i64) {
        self.fitness
    }

    fn chromosome(&self) -> (r: &Chromosome) {
        &self.chromosome
    }

    fn create(chromosome: Chromosome) -> (r: Self) {
        AnimalIndividual { fitness: 0, chromosome }
    }
}

impl AnimalIndividual {
    /// Wrap an animal: fitness is its satiation, the chromosome its
    /// flattened brain.
    pub fn from_animal(animal: &Animal) -> (r: AnimalIndividual)
        requires
            animal.brain.nn.wf(),
            0 <= animal.satiation <= SATIATION_LIMIT,
        ensures
            r.inv(),
            r.fitness == animal.satiation * 1_000_000,
            r.chromosome.genes@ == animal.brain.nn.genes(),
    {
        let chromosome = animal.brain.as_chromosome();
        AnimalIndividual { fitness: animal.satiation * SCALE, chromosome }
    }

    /// Rebirth: a brand-new animal at a random place and heading, its
    /// brain rebuilt from the evolved chromosome, satiation reset.
    pub fn into_animal(self, rng: &mut SimRng, config: &Config) -> (r: Animal)
        requires
            config.wf(),
            self.chromosome.wf(),
            self.chromosome.genes@.len() == spec_gene_count(spec_topology(config.eye.cells)),
        ensures
            r.wf(*config),
            r.satiation == 0,
            r.brain.nn.genes() == self.chromosome.genes@,
    {
        let brain = match Brain::from_chromosome(&self.chromosome, &config.eye) {
            Ok(b) => b,
            Err(e) => {
                proof {
                    assert(false);
                }
                unreached()
            },
        };
        let x = rng.coord();
        let y = rng.coord();
        let rotation = rng.angle();
        Animal {
            x,
            y,
            rotation,
            speed: config.speed_start,
            satiation: 0,
            brain,
            eye: config.eye,
        }
    }
}

/// Each animal's fitness value: its satiation in fixed point.
pub open spec fn spec_animal_fitnesses(animals: Seq<Animal>) -> Seq<i64> {
    animals.map_values(|a: Animal| (a.satiation * 1_000_000) as i64)
}

/// The reborn brain was bred from two of the boundary population's
/// brains: every gene is gene `j` of one of the two parents' flattened
/// brains, moved at most one mutation step; under fitness-proportional
/// selection both parents had eaten.
pub open spec fn spec_rebred(
    parents: Seq<Animal>,
    genes: Seq<i64>,
    coeff: i64,
    need_fed_parents: bool,
) -> bool {
    exists|ma: int, mb: int|
        #![trigger parents[ma].brain, parents[mb].brain]
        {
            &&& 0 <= ma < parents.len()
            &&& 0 <= mb < parents.len()
            &&& (need_fed_parents ==> parents[ma].satiation > 0 && parents[mb].satiation > 0)
            &&& genes.len() == parents[ma].brain.nn.genes().len()
            &&& forall|j: int|
                0 <= j < genes.len() ==> spec_gene_options(
                    parents[ma].brain.nn.genes()[j],
                    coeff,
                    #[trigger] genes[j],
                ) || spec_gene_options(parents[mb].brain.nn.genes()[j], coeff, genes[j])
        }
}

/// The food `f` lies within eating range of the animal `a`.
pub open spec fn spec_in_eat_range(a: Animal, f: Food, eat_range: i64) -> bool {
    (f.x - a.x) * (f.x - a.x) + (f.y - a.y) * (f.y - a.y) <= eat_range * eat_range
}

/// How many foods of `fs` lie within eating range of `a`.
pub open spec fn spec_eaten_count(a: Animal, fs: Seq<Food>, eat_range: i64) -> int
    decreases fs.len(),
{
    if fs.len() == 0 {
        0
    } else {
        spec_eaten_count(a, fs.drop_last(), eat_range) + if spec_in_eat_range(
            a,
            fs.last(),
            eat_range,
        ) {
            1int
        } else {
            0int
        }
    }
}

/// `cnt` feeding events banked on top of `s`, saturating at the limit.
pub open spec fn spec_banked(s: int, cnt: int) -> int {
    if s + cnt > SATIATION_LIMIT {
        SATIATION_LIMIT as int
    } else {
        s + cnt
    }
}

/// One animal's feeding turn against the food state `fs0`: every food
/// within eating range feeds it (one banked event each) and respawns
/// somewhere on the torus in `fs1`; every other food and everything else
/// about the animal stays.
pub open spec fn spec_fed_turn(a: Animal, b: Animal, fs0: Seq<Food>, fs1: Seq<Food>, eat_range: i64) -> bool {
    &&& b.x == a.x
    &&& b.y == a.y
    &&& b.rotation == a.rotation
    &&& b.speed == a.speed
    &&& b.brain == a.brain
    &&& b.eye == a.eye
    &&& b.satiation == spec_banked(a.satiation as int, spec_eaten_count(a, fs0, eat_range))
    &&& fs1.len() == fs0.len()
    &&& forall|j: int|
        0 <= j < fs0.len() ==> if spec_in_eat_range(a, #[trigger] fs0[j], eat_range) {
            fs1[j].wf()
        } else {
            fs1[j] == fs0[j]
        }
}

/// The whole feeding pass: animal `k`'s turn runs against the food state
/// its predecessors left, `chain[k]`, and leaves `chain[k + 1]`.
pub open spec fn spec_feeding_pass(
    a0: Seq<Animal>,
    a1: Seq<Animal>,
    chain: Seq<Seq<Food>>,
    eat_range: i64,
) -> bool {
    &&& a1.len() == a0.len()
    &&& chain.len() == a0.len() + 1
    &&& forall|k: int|
        0 <= k < a0.len() ==> spec_fed_turn(a0[k], a1[k], #[trigger] chain[k], chain[k + 1], eat_range)
}

/// What one brain decision does to an animal: its eye's reading runs
/// through its network; the two outputs, clamped to the acceleration
/// bounds, shift the speed (clamped into the speed band) and the heading
/// (wrapped on the circle).
pub open spec fn spec_steered(a: Animal, foods: Seq<Food>, config: Config) -> Animal {
    let vision = spec_vision(a.eye, a.x as int, a.y as int, a.rotation as int, foods);
    let outs = spec_propagate(a.brain.nn.layers@, vision);
    let ds = clamped(-config.speed_accel as int, outs[0] as int, config.speed_accel as int);
    let dr = clamped(-config.rotation_accel as int, outs[1] as int, config.rotation_accel as int);
    Animal {
        x: a.x,
        y: a.y,
        rotation: (((a.rotation + dr) % 1_000_000) as i64),
        speed: (clamped(config.speed_min as int, a.speed + ds, config.speed_max as int) as i64),
        satiation: a.satiation,
        brain: a.brain,
        eye: a.eye,
    }
}

/// What one movement does to an animal: it advances along its heading by
/// its speed and wraps both coordinates on the unit torus.
pub open spec fn spec_moved(a: Animal) -> Animal {
    let dx = div_trunc(-(a.speed * spec_sin_turn(a.rotation as int)), 1_000_000);
    let dy = div_trunc(a.speed * spec_cos_turn(a.rotation as int), 1_000_000);
    Animal {
        x: (((a.x + dx) % 1_000_000) as i64),
        y: (((a.y + dy) % 1_000_000) as i64),
        rotation: a.rotation,
        speed: a.speed,
        satiation: a.satiation,
        brain: a.brain,
        eye: a.eye,
    }
}

/// One simulation instance: its tuning, its genetic engine, its world,
/// and the tick count of the running generation.
pub struct Simulation {
    pub config: Config,
    pub ga: GeneticAlgorithm,
    pub world: World,
    pub age: u32,
}

impl Simulation {
    /// The simulation's invariant.
    pub open spec fn wf(&self) -> bool {
        &&& self.config.wf()
        &&& self.ga.wf()
        &&& self.world.wf(self.config)
        &&& self.age <= self.config.generation_length
    }

    /// A random world under the reference tuning, evolved by
    /// fitness-proportional selection.
    pub fn random(rng: &mut SimRng) -> (r: Simulation)
        ensures
            r.wf(),
            !r.ga.selection_method.is_rank(),
            r.config == crate::config::spec_default_config(),
            r.age == 0,
            forall|i: int|
                0 <= i < r.world.animals@.len() ==> (#[trigger] r.world.animals@[i]).satiation
                    == 0 && r.world.animals@[i].speed == r.config.speed_start,
    {
        Simulation::random_with_selection(
            rng,
            SelectionMethod::RouletteWheel(RouletteWheelSelection::new()),
        )
    }

    /// A random world under the reference tuning, evolved by the given
    /// selection strategy.
    pub fn random_with_selection(rng: &mut SimRng, selection_method: SelectionMethod) -> (r:
        Simulation)
        ensures
            r.wf(),
            r.ga.selection_method.is_rank() == selection_method.is_rank(),
            r.config == crate::config::spec_default_config(),
            r.age == 0,
            forall|i: int|
                0 <= i < r.world.animals@.len() ==> (#[trigger] r.world.animals@[i]).satiation
                    == 0 && r.world.animals@[i].speed == r.config.speed_start,
    {
        let config = Config::default();
        let ga = GeneticAlgorithm::new(
            selection_method,
            UniformCrossover::new(),
            GaussianMutation::new(10_000, 300_000),
        );
        let world = World::random(rng, &config);
        Simulation { config, ga, world, age: 0 }
    }

    /// The world, for read-only projection.
    pub fn world(&self) -> (r: &World)
        ensures
            r == &self.world,
    {
        &self.world
    }

    /// The feeding pass: animal by animal, every food within eating range
    /// feeds its eater and respawns at a random position.
    fn process_collisions(&mut self, rng: &mut SimRng)
        requires
            old(self).wf(),
        ensures
            final(self).wf(),
            final(self).config == old(self).config,
            final(self).ga == old(self).ga,
            final(self).age == old(self).age,
            final(self).world.animals@.len() == old(self).world.animals@.len(),
            exists|chain: Seq<Seq<Food>>|
                {
                    &&& #[trigger] spec_feeding_pass(
                        old(self).world.animals@,
                        final(self).world.animals@,
                        chain,
                        old(self).config.eat_range,
                    )
                    &&& chain.first() == old(self).world.foods@
                    &&& chain.last() == final(self).world.foods@
                },
    {
        let n = self.world.animals.len();
        let mut src: Vec<Animal> = Vec::new();
        core::mem::swap(&mut self.world.animals, &mut src);
        let ghost orig: Seq<Animal> = src@;
        let ghost er: i64 = self.config.eat_range;
        let ghost mut chain: Seq<Seq<Food>> = seq![self.world.foods@];
        let mut dst: Vec<Animal> = Vec::new();
        while src.len() > 0
            invariant
                dst@.len() + src@.len() == n,
                n == orig.len(),
                old(self).wf(),
                orig == old(self).world.animals@,
                src@ == orig.skip(dst@.len() as int),
                self.config == old(self).config,
                self.ga == old(self).ga,
                self.age == old(self).age,
                er == old(self).config.eat_range,
                self.world.foods@.len() == old(self).config.n_foods,
                forall|i: int| 0 <= i < self.world.foods@.len() ==> (#[trigger] self.world.foods@[i]).wf(),
                chain.len() == dst@.len() + 1,
                chain.first() == old(self).world.foods@,
                chain.last() == self.world.foods@,
                forall|k: int|
                    0 <= k < dst@.len() ==> spec_fed_turn(
                        orig[k],
                        dst@[k],
                        #[trigger] chain[k],
                        chain[k + 1],
                        er,
                    ),
                forall|i: int| 0 <= i < dst@.len() ==> (#[trigger] dst@[i]).wf(old(self).config),
            decreases src@.len(),
        {
            let ghost k: int = dst@.len() as int;
            let mut a = src.remove(0);
            proof {
                assert(orig.skip(k)[0] == orig[k]);
                assert(a == orig[k]);
                assert(src@ =~= orig.skip(k + 1));
                assert(orig[k].wf(old(self).config));
            }
            let ghost fs_turn: Seq<Food> = self.world.foods@;
            let nf = self.world.foods.len();
            let mut j: usize = 0;
            proof {
                assert(fs_turn.take(0) =~= Seq::<Food>::empty());
            }
            while j < nf
                invariant
                    j <= nf,
                    old(self).wf(),
                    nf == fs_turn.len(),
                    nf == self.world.foods@.len(),
                    self.world.foods@.len() == old(self).config.n_foods,
                    self.config == old(self).config,
                    self.ga == old(self).ga,
                    self.age == old(self).age,
                    er == old(self).config.eat_range,
                    forall|i: int|
                        0 <= i < self.world.foods@.len() ==> (
                        #[trigger] self.world.foods@[i]).wf(),
                    forall|idx: int|
                        j <= idx < nf ==> #[trigger] self.world.foods@[idx] == fs_turn[idx],
                    forall|idx: int|
                        0 <= idx < j ==> if spec_in_eat_range(orig[k], #[trigger] fs_turn[idx], er) {
                            self.world.foods@[idx].wf()
                        } else {
                            self.world.foods@[idx] == fs_turn[idx]
                        },
                    a.x == orig[k].x,
                    a.y == orig[k].y,
                    a.rotation == orig[k].rotation,
                    a.speed == orig[k].speed,
                    a.brain == orig[k].brain,
                    a.eye == orig[k].eye,
                    a.satiation == spec_banked(
                        orig[k].satiation as int,
                        spec_eaten_count(orig[k], fs_turn.take(j as int), er),
                    ),
                    orig[k].satiation <= a.satiation <= SATIATION_LIMIT,
                    0 <= k < orig.len(),
                    orig == old(self).world.animals@,
                decreases nf - j,
            {
                proof {
                    assert(fs_turn.take(j as int + 1).drop_last() =~= fs_turn.take(j as int));
                    assert(fs_turn.take(j as int + 1).last() == fs_turn[j as int]);
                }
                let food = self.world.foods[j];
                let dx: i64 = food.x - a.x;
                let dy: i64 = food.y - a.y;
                assert(0 <= dx * dx <= 1_000_000_000_000 && 0 <= dy * dy <= 1_000_000_000_000)
                    by (nonlinear_arith)
                    requires
                        -1_000_000 <= dx <= 1_000_000,
                        -1_000_000 <= dy <= 1_000_000,
                ;
                let d2: u64 = ((dx * dx) as u64) + ((dy * dy) as u64);
                let er_x: i64 = self.config.eat_range;
                assert(0 <= er_x * er_x <= 1_000_000_000_000) by (nonlinear_arith)
                    requires
                        0 <= er_x <= 1_000_000,
                ;
                let r2: u64 = (er_x * er_x) as u64;
                if d2 <= r2 {
                    let f = Food::random(rng);
                    self.world.foods.set(j, f);
                    if a.satiation < SATIATION_LIMIT {
                        a.satiation = a.satiation + 1;
                    }
                }
                j += 1;
            }
            proof {
                assert(fs_turn.take(nf as int) =~= fs_turn);
                assert(spec_fed_turn(orig[k], a, fs_turn, self.world.foods@, er));
            }
            dst.push(a);
            proof {
                chain = chain.push(self.world.foods@);
                assert forall|k2: int| 0 <= k2 < dst@.len() implies spec_fed_turn(
                    orig[k2],
                    dst@[k2],
                    #[trigger] chain[k2],
                    chain[k2 + 1],
                    er,
                ) by {
                    if k2 < dst@.len() - 1 {
                        assert(chain[k2] == chain.drop_last()[k2]);
                        assert(chain[k2 + 1] == chain.drop_last()[k2 + 1]);
                        assert(dst@[k2] == dst@.drop_last()[k2]);
                    } else {
                        assert(chain[k2] == fs_turn);
                        assert(chain[k2 + 1] == self.world.foods@);
                        assert(dst@[k2] == a);
                    }
                }
            }
        }
        core::mem::swap(&mut self.world.animals, &mut dst);
        proof {
            assert(spec_feeding_pass(
                old(self).world.animals@,
                self.world.animals@,
                chain,
                old(self).config.eat_range,
            ));
        }
    }

    /// The brain pass: every animal steers by what its eye sees.
    fn process_brains(&mut self)
        requires
            old(self).wf(),
        ensures
            final(self).wf(),
            final(self).config == old(self).config,
            final(self).ga == old(self).ga,
            final(self).age == old(self).age,
            final(self).world.foods == old(self).world.foods,
            final(self).world.animals@.len() == old(self).world.animals@.len(),
            forall|i: int|
                0 <= i < final(self).world.animals@.len() ==> #[trigger] final(self).world.animals@[i] == spec_steered(
                    old(self).world.animals@[i],
                    old(self).world.foods@,
                    old(self).config,
                ),
    {
        let n = self.world.animals.len();
        let mut src: Vec<Animal> = Vec::new();
        core::mem::swap(&mut self.world.animals, &mut src);
        let ghost orig: Seq<Animal> = src@;
        let mut dst: Vec<Animal> = Vec::new();
        while src.len() > 0
            invariant
                dst@.len() + src@.len() == n,
                n == orig.len(),
                old(self).wf(),
                orig == old(self).world.animals@,
                src@ == orig.skip(dst@.len() as int),
                self.config == old(self).config,
                self.ga == old(self).ga,
                self.age == old(self).age,
                self.world.foods == old(self).world.foods,
                forall|i: int|
                    0 <= i < dst@.len() ==> #[trigger] dst@[i] == spec_steered(
                        orig[i],
                        old(self).world.foods@,
                        old(self).config,
                    ) && dst@[i].wf(old(self).config),
            decreases src@.len(),
        {
            let ghost k: int = dst@.len() as int;
            let a = src.remove(0);
            proof {
                assert(orig.skip(k)[0] == orig[k]);
                assert(a == orig[k]);
                assert(src@ =~= orig.skip(k + 1));
                assert(orig[k].wf(old(self).config));
                assert(a.brain.nn.layers@[0].arity() == spec_topology(a.eye.cells)[0]);
                assert(a.brain.nn.layers@[1].neurons@.len() == spec_topology(a.eye.cells)[2]);
            }
            let vision = a.eye.process_vision(a.x, a.y, a.rotation, &self.world.foods);
            let outs = match a.brain.nn.propagate(vision) {
                Ok(o) => o,
                Err(e) => {
                    proof {
                        assert(false);
                    }
                    unreached()
                },
            };
            proof {
                assert(a.brain.nn.layers@.last() == a.brain.nn.layers@[1]);
            }
            let out0 = outs[0];
            let out1 = outs[1];
            let ds = clamp_i64(-self.config.speed_accel, out0, self.config.speed_accel);
            let dr = clamp_i64(-self.config.rotation_accel, out1, self.config.rotation_accel);
            let speed = clamp_i64(self.config.speed_min, a.speed + ds, self.config.speed_max);
            let rotation = wrap_mod(a.rotation + dr, TURN);
            let b = Animal {
                x: a.x,
                y: a.y,
                rotation,
                speed,
                satiation: a.satiation,
                brain: a.brain,
                eye: a.eye,
            };
            dst.push(b);
        }
        core::mem::swap(&mut self.world.animals, &mut dst);
    }

    /// The movement pass: every animal advances along its heading and
    /// wraps on the torus.
    fn process_movements(&mut self)
        requires
            old(self).wf(),
        ensures
            final(self).wf(),
            final(self).config == old(self).config,
            final(self).ga == old(self).ga,
            final(self).age == old(self).age,
            final(self).world.foods == old(self).world.foods,
            final(self).world.animals@.len() == old(self).world.animals@.len(),
            forall|i: int|
                0 <= i < final(self).world.animals@.len() ==> #[trigger] final(self).world.animals@[i] == spec_moved(
                    old(self).world.animals@[i],
                ),
    {
        let n = self.world.animals.len();
        let mut src: Vec<Animal> = Vec::new();
        core::mem::swap(&mut self.world.animals, &mut src);
        let ghost orig: Seq<Animal> = src@;
        let mut dst: Vec<Animal> = Vec::new();
        while src.len() > 0
            invariant
                dst@.len() + src@.len() == n,
                n == orig.len(),
                old(self).wf(),
                orig == old(self).world.animals@,
                src@ == orig.skip(dst@.len() as int),
                self.config == old(self).config,
                self.ga == old(self).ga,
                self.age == old(self).age,
                self.world.foods == old(self).world.foods,
                forall|i: int|
                    0 <= i < dst@.len() ==> #[trigger] dst@[i] == spec_moved(orig[i])
                        && dst@[i].wf(old(self).config),
            decreases src@.len(),
        {
            let ghost k: int = dst@.len() as int;
            let a = src.remove(0);
            proof {
                assert(orig.skip(k)[0] == orig[k]);
                assert(a == orig[k]);
                assert(src@ =~= orig.skip(k + 1));
                assert(orig[k].wf(old(self).config));
            }
            let s = sin_turn(a.rotation);
            let c = cos_turn(a.rotation);
            assert(-1_000_000_000_000 <= a.speed * s <= 1_000_000_000_000 && -1_000_000_000_000
                <= a.speed * c <= 1_000_000_000_000) by (nonlinear_arith)
                requires
                    0 <= a.speed <= 1_000_000,
                    -1_000_000 <= s <= 1_000_000,
                    -1_000_000 <= c <= 1_000_000,
            ;
            let ms: i64 = a.speed * s;
            let mc: i64 = a.speed * c;
            let dx128: i128 = div_scale(-(ms as i128));
            let dy128: i128 = div_scale(mc as i128);
            proof {
                assert(a.speed * s <= a.speed * 1_000_000 && -(a.speed * 1_000_000) <= a.speed
                    * s && a.speed * c <= a.speed * 1_000_000 && -(a.speed * 1_000_000) <= a.speed
                    * c) by (nonlinear_arith)
                    requires
                        0 <= a.speed,
                        -1_000_000 <= s <= 1_000_000,
                        -1_000_000 <= c <= 1_000_000,
                ;
                lemma_div_trunc_bound(-(ms as int), a.speed as int);
                lemma_div_trunc_bound(mc as int, a.speed as int);
            }
            let dx: i64 = dx128 as i64;
            let dy: i64 = dy128 as i64;
            let nx = wrap_mod(a.x + dx, SCALE);
            let ny = wrap_mod(a.y + dy, SCALE);
            let b = Animal {
                x: nx,
                y: ny,
                rotation: a.rotation,
                speed: a.speed,
                satiation: a.satiation,
                brain: a.brain,
                eye: a.eye,
            };
            dst.push(b);
        }
        core::mem::swap(&mut self.world.animals, &mut dst);
    }

    /// The generational handoff: wrap every animal as an individual, run
    /// the genetic engine, rebirth the population from the evolved
    /// chromosomes, scatter the food, and reset the tick count. Fails
    /// exactly when fitness-proportional selection faces an all-zero
    /// generation.
    fn try_evolving(&mut self, rng: &mut SimRng) -> (r: Result<Statistics, GaError>)
        requires
            old(self).wf(),
        ensures
            final(self).wf(),
            final(self).config == old(self).config,
            final(self).ga.selection_method.is_rank() == old(self).ga.selection_method.is_rank(),
            r is Ok ==> final(self).age == 0 && forall|i: int|
                0 <= i < final(self).world.animals@.len() ==> (
                #[trigger] final(self).world.animals@[i]).satiation == 0,
            r is Ok ==> {
                &&& r->Ok_0.spec_min() == seq_min(spec_animal_fitnesses(old(self).world.animals@))
                &&& r->Ok_0.spec_max() == seq_max(spec_animal_fitnesses(old(self).world.animals@))
                &&& r->Ok_0.spec_avg() == spec_sum(spec_animal_fitnesses(old(self).world.animals@))
                    / (old(self).world.animals@.len() as int)
                &&& r->Ok_0.spec_median() == spec_median(
                    spec_animal_fitnesses(old(self).world.animals@),
                )
            },
            r is Ok ==> forall|i: int|
                0 <= i < final(self).world.animals@.len() ==> spec_rebred(
                    old(self).world.animals@,
                    (#[trigger] final(self).world.animals@[i]).brain.nn.genes(),
                    old(self).ga.mutation_method.coeff,
                    !old(self).ga.selection_method.is_rank(),
                ),
            r is Err ==> r == Err::<Statistics, GaError>(GaError::EmptySelection) && !old(
                self,
            ).ga.selection_method.is_rank() && final(self).age == old(self).age
                && final(self).world == old(self).world,
            old(self).ga.selection_method.is_rank() ==> r is Ok,
    {
        let ghost cfg: Config = self.config;
        let ghost orig: Seq<Animal> = self.world.animals@;
        let ghost coeff_g: i64 = self.ga.mutation_method.coeff;
        let ghost roulette_g: bool = !self.ga.selection_method.is_rank();
        let ghost gene_len: int = spec_gene_count(spec_topology(cfg.eye.cells));
        let n = self.world.animals.len();
        let mut individuals: Vec<AnimalIndividual> = Vec::new();
        let mut k: usize = 0;
        while k < n
            invariant
                k <= n,
                self == old(self),
                old(self).wf(),
                cfg == self.config,
                orig == self.world.animals@,
                n == orig.len(),
                gene_len == spec_gene_count(spec_topology(cfg.eye.cells)),
                individuals@.len() == k,
                forall|i: int|
                    0 <= i < k ==> (#[trigger] individuals@[i]).inv()
                        && individuals@[i].has_chromosome()
                        && individuals@[i].spec_chromosome().len() == gene_len
                        && individuals@[i].spec_fitness() == orig[i].satiation * 1_000_000
                        && individuals@[i].spec_chromosome() == orig[i].brain.nn.genes(),
            decreases n - k,
        {
            proof {
                assert(orig[k as int].wf(cfg));
                lemma_genes_len(
                    orig[k as int].brain.nn.layers@,
                    spec_topology(cfg.eye.cells),
                );
            }
            let ind = AnimalIndividual::from_animal(&self.world.animals[k]);
            individuals.push(ind);
            k += 1;
        }
        proof {
            assert(evolvable(individuals@));
            assert(fitnesses(individuals@) =~= spec_animal_fitnesses(orig));
        }
        let ghost wrapped: Seq<AnimalIndividual> = individuals@;
        match self.ga.evolve(rng, &mut individuals) {
            Ok(pair) => {
                let (mut children, stats) = pair;
                let ghost child_seq: Seq<AnimalIndividual> = children@;
                let mut new_animals: Vec<Animal> = Vec::new();
                while children.len() > 0
                    invariant
                        new_animals@.len() + children@.len() == child_seq.len(),
                        children@ == child_seq.skip(new_animals@.len() as int),
                        child_seq.len() == n,
                        n == cfg.n_animals,
                        cfg.wf(),
                        cfg == old(self).config,
                        self.config == cfg,
                        self.age == old(self).age,
                        self.ga.wf(),
                        self.ga.selection_method.is_rank() == old(
                            self,
                        ).ga.selection_method.is_rank(),
                        self.world.foods@.len() == cfg.n_foods,
                        forall|i: int|
                            0 <= i < self.world.foods@.len() ==> (
                            #[trigger] self.world.foods@[i]).wf(),
                        gene_len == spec_gene_count(spec_topology(cfg.eye.cells)),
                        forall|i: int|
                            0 <= i < child_seq.len() ==> (#[trigger] child_seq[i]).inv()
                                && child_seq[i].spec_chromosome().len() == gene_len,
                        forall|i: int|
                            0 <= i < new_animals@.len() ==> (
                            #[trigger] new_animals@[i]).wf(cfg) && new_animals@[i].satiation
                                == 0,
                        forall|i: int|
                            0 <= i < new_animals@.len() ==> (
                            #[trigger] new_animals@[i]).brain.nn.genes()
                                == child_seq[i].spec_chromosome(),
                    decreases children@.len(),
                {
                    let ghost k2: int = new_animals@.len() as int;
                    let ind = children.remove(0);
                    proof {
                        assert(child_seq.skip(k2)[0] == child_seq[k2]);
                        assert(ind == child_seq[k2]);
                        assert(children@ =~= child_seq.skip(k2 + 1));
                    }
                    let a = ind.into_animal(rng, &self.config);
                    new_animals.push(a);
                }
                self.world.animals = new_animals;
                proof {
                    assert forall|i: int|
                        0 <= i < self.world.animals@.len() implies spec_rebred(
                        orig,
                        (#[trigger] self.world.animals@[i]).brain.nn.genes(),
                        coeff_g,
                        roulette_g,
                    ) by {
                        let genes_c: Seq<i64> = self.world.animals@[i].brain.nn.genes();
                        assert(genes_c == child_seq[i].spec_chromosome());
                        assert(spec_child_of(
                            wrapped,
                            child_seq[i].spec_chromosome(),
                            coeff_g,
                            roulette_g,
                        ));
                        let (ma, mb): (int, int) = choose|ma: int, mb: int|
                            #![trigger wrapped[ma].spec_chromosome(), wrapped[mb].spec_chromosome()]
                            {
                                &&& 0 <= ma < wrapped.len()
                                &&& 0 <= mb < wrapped.len()
                                &&& (roulette_g ==> wrapped[ma].spec_fitness() > 0
                                    && wrapped[mb].spec_fitness() > 0)
                                &&& genes_c.len() == wrapped[ma].spec_chromosome().len()
                                &&& forall|j: int|
                                    0 <= j < genes_c.len() ==> spec_gene_options(
                                        wrapped[ma].spec_chromosome()[j],
                                        coeff_g,
                                        #[trigger] genes_c[j],
                                    ) || spec_gene_options(
                                        wrapped[mb].spec_chromosome()[j],
                                        coeff_g,
                                        genes_c[j],
                                    )
                            };
                        assert(wrapped[ma].spec_chromosome() == orig[ma].brain.nn.genes());
                        assert(wrapped[mb].spec_chromosome() == orig[mb].brain.nn.genes());
                        if roulette_g {
                            assert(wrapped[ma].spec_fitness() == orig[ma].satiation * 1_000_000);
                            assert(wrapped[mb].spec_fitness() == orig[mb].satiation * 1_000_000);
                            assert(orig[ma].satiation > 0);
                            assert(orig[mb].satiation > 0);
                        }
                        assert(orig[ma].brain == orig[ma].brain);
                        assert(orig[mb].brain == orig[mb].brain);
                        assert(spec_rebred(orig, genes_c, coeff_g, roulette_g));
                    }
                }
                let nf = self.world.foods.len();
                let mut j: usize = 0;
                while j < nf
                    invariant
                        j <= nf,
                        nf == self.world.foods@.len(),
                        cfg.wf(),
                        cfg == old(self).config,
                        self.config == cfg,
                        self.ga.wf(),
                        self.ga.selection_method.is_rank() == old(
                            self,
                        ).ga.selection_method.is_rank(),
                        self.world.foods@.len() == cfg.n_foods,
                        self.world.animals@.len() == cfg.n_animals,
                        orig == old(self).world.animals@,
                        coeff_g == old(self).ga.mutation_method.coeff,
                        roulette_g == !old(self).ga.selection_method.is_rank(),
                        forall|i: int|
                            0 <= i < self.world.animals@.len() ==> (
                            #[trigger] self.world.animals@[i]).wf(cfg)
                                && self.world.animals@[i].satiation == 0,
                        forall|i: int|
                            0 <= i < self.world.animals@.len() ==> spec_rebred(
                                orig,
                                (#[trigger] self.world.animals@[i]).brain.nn.genes(),
                                coeff_g,
                                roulette_g,
                            ),
                        forall|i: int|
                            0 <= i < self.world.foods@.len() ==> (
                            #[trigger] self.world.foods@[i]).wf(),
                    decreases nf - j,
                {
                    let f = Food::random(rng);
                    self.world.foods.set(j, f);
                    j += 1;
                }
                self.age = 0;
                Ok(stats)
            },
            Err(e) => {
                proof {
                    assert(wrapped.len() > 0);
                    crate::selection::lemma_sum_fitness_nonneg(wrapped);
                }
                Err(e)
            },
        }
    }

    /// One tick: feeding, brains, movement, and on a generation boundary
    /// the evolutionary handoff, whose statistics are returned. The fed
    /// population the tick produced is pinned: on an ordinary tick every
    /// animal ends exactly steered and moved from it; on a boundary the
    /// statistics are its statistics and every reborn brain was bred from
    /// two of its brains. Fails exactly when the boundary's evolution
    /// does: fitness-proportional selection over an all-zero generation.
    pub fn step(&mut self, rng: &mut SimRng) -> (r: Result<Option<Statistics>, GaError>)
        requires
            old(self).wf(),
        ensures
            final(self).wf(),
            final(self).config == old(self).config,
            final(self).ga.selection_method.is_rank() == old(self).ga.selection_method.is_rank(),
            r is Ok ==> ((r->Ok_0 is Some) <==> old(self).age + 1 > old(
                self,
            ).config.generation_length),
            r is Ok && r->Ok_0 is None ==> final(self).age == old(self).age + 1,
            r is Ok && r->Ok_0 is Some ==> final(self).age == 0 && forall|i: int|
                0 <= i < final(self).world.animals@.len() ==> (
                #[trigger] final(self).world.animals@[i]).satiation == 0,
            r is Ok ==> exists|fed: Seq<Animal>, chain: Seq<Seq<Food>>|
                {
                    &&& #[trigger] spec_feeding_pass(
                        old(self).world.animals@,
                        fed,
                        chain,
                        old(self).config.eat_range,
                    )
                    &&& chain.first() == old(self).world.foods@
                    &&& (r->Ok_0 is None ==> final(self).world.foods@ == chain.last() && forall|
                        i: int,
                    |
                        0 <= i < fed.len() ==> #[trigger] final(self).world.animals@[i]
                            == spec_moved(
                            spec_steered(fed[i], chain.last(), old(self).config),
                        ))
                    &&& (r->Ok_0 is Some ==> {
                        &&& r->Ok_0->Some_0.spec_min() == seq_min(spec_animal_fitnesses(fed))
                        &&& r->Ok_0->Some_0.spec_max() == seq_max(spec_animal_fitnesses(fed))
                        &&& r->Ok_0->Some_0.spec_avg() == spec_sum(spec_animal_fitnesses(fed))
                            / (old(self).world.animals@.len() as int)
                        &&& r->Ok_0->Some_0.spec_median() == spec_median(
                            spec_animal_fitnesses(fed),
                        )
                        &&& forall|i: int|
                            0 <= i < final(self).world.animals@.len() ==> spec_rebred(
                                fed,
                                (#[trigger] final(self).world.animals@[i]).brain.nn.genes(),
                                old(self).ga.mutation_method.coeff,
                                !old(self).ga.selection_method.is_rank(),
                            )
                    })
                },
            r is Err ==> r == Err::<Option<Statistics>, GaError>(GaError::EmptySelection) && !old(
                self,
            ).ga.selection_method.is_rank() && old(self).age + 1 > old(
                self,
            ).config.generation_length && final(self).age == old(self).age,
    {
        self.process_collisions(rng);
        let ghost fed: Seq<Animal> = self.world.animals@;
        let ghost mid_foods: Seq<Food> = self.world.foods@;
        let ghost chain: Seq<Seq<Food>> = choose|c: Seq<Seq<Food>>|
            {
                &&& #[trigger] spec_feeding_pass(
                    old(self).world.animals@,
                    fed,
                    c,
                    old(self).config.eat_range,
                )
                &&& c.first() == old(self).world.foods@
                &&& c.last() == mid_foods
            };
        self.process_brains();
        let ghost m1: Seq<Animal> = self.world.animals@;
        self.process_movements();
        let ghost m2: Seq<Animal> = self.world.animals@;
        proof {
            assert(spec_feeding_pass(
                old(self).world.animals@,
                fed,
                chain,
                old(self).config.eat_range,
            ));
            assert forall|i: int| 0 <= i < fed.len() implies #[trigger] m2[i] == spec_moved(
                spec_steered(fed[i], chain.last(), old(self).config),
            ) by {
                assert(m1[i] == spec_steered(fed[i], mid_foods, old(self).config));
                assert(m2[i] == spec_moved(m1[i]));
            }
        }
        if self.age + 1 > self.config.generation_length {
            match self.try_evolving(rng) {
                Ok(stats) => {
                    proof {
                        let ghost coeff: i64 = old(self).ga.mutation_method.coeff;
                        let ghost roulette: bool = !old(self).ga.selection_method.is_rank();
                        assert forall|i: int| 0 <= i < m2.len() implies spec_animal_fitnesses(
                            m2,
                        )[i] == spec_animal_fitnesses(fed)[i] by {
                            assert(m2[i].satiation == fed[i].satiation);
                        }
                        assert(spec_animal_fitnesses(m2) =~= spec_animal_fitnesses(fed));
                        assert forall|i: int|
                            0 <= i < self.world.animals@.len() implies spec_rebred(
                            fed,
                            (#[trigger] self.world.animals@[i]).brain.nn.genes(),
                            coeff,
                            roulette,
                        ) by {
                            let genes_c: Seq<i64> = self.world.animals@[i].brain.nn.genes();
                            assert(spec_rebred(m2, genes_c, coeff, roulette));
                            let (ma, mb): (int, int) = choose|ma: int, mb: int|
                                #![trigger m2[ma].brain, m2[mb].brain]
                                {
                                    &&& 0 <= ma < m2.len()
                                    &&& 0 <= mb < m2.len()
                                    &&& (roulette ==> m2[ma].satiation > 0 && m2[mb].satiation
                                        > 0)
                                    &&& genes_c.len() == m2[ma].brain.nn.genes().len()
                                    &&& forall|j: int|
                                        0 <= j < genes_c.len() ==> spec_gene_options(
                                            m2[ma].brain.nn.genes()[j],
                                            coeff,
                                            #[trigger] genes_c[j],
                                        ) || spec_gene_options(
                                            m2[mb].brain.nn.genes()[j],
                                            coeff,
                                            genes_c[j],
                                        )
                                };
                            assert(fed[ma].brain == m2[ma].brain);
                            assert(fed[mb].brain == m2[mb].brain);
                            assert(fed[ma].satiation == m2[ma].satiation);
                            assert(fed[mb].satiation == m2[mb].satiation);
                            assert(spec_rebred(fed, genes_c, coeff, roulette));
                        }
                    }
                    Ok(Some(stats))
                },
                Err(e) => Err(e),
            }
        } else {
            self.age = self.age + 1;
            Ok(None)
        }
    }

    /// Step until the next generation boundary and return that boundary's
    /// statistics: the min/max/mean/median fitness of the population the
    /// crossing tick fed, before it was evolved away.
    pub fn train(&mut self, rng: &mut SimRng) -> (r: Result<Statistics, GaError>)
        requires
            old(self).wf(),
        ensures
            final(self).wf(),
            final(self).config == old(self).config,
            final(self).ga.selection_method.is_rank() == old(self).ga.selection_method.is_rank(),
            old(self).ga.selection_method.is_rank() ==> r is Ok,
            r is Ok ==> final(self).age == 0,
            r is Ok ==> exists|boundary: Seq<Animal>|
                #![trigger spec_animal_fitnesses(boundary)]
                {
                    &&& boundary.len() == old(self).config.n_animals
                    &&& r->Ok_0.spec_min() == seq_min(spec_animal_fitnesses(boundary))
                    &&& r->Ok_0.spec_max() == seq_max(spec_animal_fitnesses(boundary))
                    &&& r->Ok_0.spec_avg() == spec_sum(spec_animal_fitnesses(boundary)) / (
                    boundary.len() as int)
                    &&& r->Ok_0.spec_median() == spec_median(spec_animal_fitnesses(boundary))
                },
    {
        loop
            invariant
                self.wf(),
                self.config == old(self).config,
                self.ga.selection_method.is_rank() == old(self).ga.selection_method.is_rank(),
            decreases self.config.generation_length + 1 - self.age,
        {
            let ghost pre: Simulation = *self;
            match self.step(rng) {
                Ok(o) => {
                    match o {
                        Option::Some(stats) => {
                            proof {
                                let (fed, chain): (Seq<Animal>, Seq<Seq<Food>>) = choose|
                                    fed: Seq<Animal>,
                                    chain: Seq<Seq<Food>>,
                                |
                                    {
                                        &&& #[trigger] spec_feeding_pass(
                                            pre.world.animals@,
                                            fed,
                                            chain,
                                            pre.config.eat_range,
                                        )
                                        &&& stats.spec_min() == seq_min(
                                            spec_animal_fitnesses(fed),
                                        )
                                        &&& stats.spec_max() == seq_max(
                                            spec_animal_fitnesses(fed),
                                        )
                                        &&& stats.spec_avg() == spec_sum(
                                            spec_animal_fitnesses(fed),
                                        ) / (pre.world.animals@.len() as int)
                                        &&& stats.spec_median() == spec_median(
                                            spec_animal_fitnesses(fed),
                                        )
                                    };
                                assert(fed.len() == pre.world.animals@.len());
                                assert(pre.world.animals@.len() == pre.config.n_animals);
                                assert(stats.spec_avg() == spec_sum(spec_animal_fitnesses(fed))
                                    / (fed.len() as int));
                            }
                            return Ok(stats);
                        },
                        Option::None => {
                        },
                    }
                },
                Err(e) => {
                    return Err(e);
                },
            }
        }
    }
}

} // verus!
