//! The individual: the capability the genetic algorithm works through.
//!
//! Anything that exposes a fitness and a chromosome, and can be rebuilt
//! from a chromosome alone, can be evolved. The simulation's animals come
//! wrapped this way, and [`TestIndividual`] is a bare-bones variant for
//! exercising the engine directly.

use vstd::prelude::*;

use crate::chromosome::Chromosome;
use crate::fixed::{all_in_signal, clamped, clamp_signal, SIGNAL_LIMIT};

verus! {

/// A fitness score bound to a chromosome.
pub trait Individual: Sized {
    /// The invariant the individual maintains.
    spec fn inv(&self) -> bool;

    /// Whether a chromosome can be taken from this individual.
    spec fn has_chromosome(&self) -> bool;

    /// The fitness the individual reports.
    spec fn spec_fitness(&self) -> i64;

    /// The genes the individual carries.
    spec fn spec_chromosome(&self) -> Seq<i64>;

    fn fitness(&self) -> (r: i64)
        requires
            self.inv(),
        ensures
            r == self.spec_fitness(),
    ;

    fn chromosome(&self) -> (r: &Chromosome)
        requires
            self.inv(),
            self.has_chromosome(),
        ensures
            r.genes@ == self.spec_chromosome(),
            all_in_signal(r.genes@),
    ;

    fn create(chromosome: Chromosome) -> (r: Self)
        requires
            chromosome.wf(),
        ensures
            r.inv(),
            r.has_chromosome(),
            r.spec_chromosome() == chromosome.genes@,
    ;
}

/// The sum of a gene sequence.
pub open spec fn spec_sum(s: Seq<i64>) -> int
    decreases s.len(),
{
    if s.len() == 0 {
        0
    } else {
        spec_sum(s.drop_last()) + s.last()
    }
}

/// A bare individual for exercising the genetic algorithm.
#[derive(Clone, Debug, PartialEq)]
pub enum TestIndividual {
    /// Carries a chromosome; its fitness is the sum of its genes.
    WithChromosome { chromosome: Chromosome },
    /// Carries a fixed fitness and no chromosome.
    WithFitness { fitness: i64 },
}

impl TestIndividual {
    pub fn new(fitness: i64) -> (r: TestIndividual)
        ensures
            r == (TestIndividual::WithFitness { fitness }),
            r.spec_fitness() == fitness,
            r.inv(),
    {
        TestIndividual::WithFitness { fitness }
    }
}

impl Individual for TestIndividual {
    open spec fn inv(&self) -> bool {
        match *self {
            TestIndividual::WithChromosome { chromosome } => chromosome.wf(),
            TestIndividual::WithFitness { .. } => true,
        }
    }

    open spec fn has_chromosome(&self) -> bool {
        self is WithChromosome
    }

    open spec fn spec_fitness(&self) -> i64 {
        match *self {
            TestIndividual::WithChromosome { chromosome } => clamped(
                -SIGNAL_LIMIT as int,
                spec_sum(chromosome.genes@),
                SIGNAL_LIMIT as int,
            ) as i64,
            TestIndividual::WithFitness { fitness } => fitness,
        }
    }

    open spec fn spec_chromosome(&self) -> Seq<i64> {
        match *self {
            TestIndividual::WithChromosome { chromosome } => chromosome.genes@,
            TestIndividual::WithFitness { .. } => Seq::empty(),
        }
    }

    /// The sum of the genes, clamped into the signal range; or the fixed
    /// fitness.
    fn fitness(&self) -> (r: i64) {
        match self {
            TestIndividual::WithChromosome { chromosome } => {
                let n = chromosome.genes.len();
                let mut acc: i128 = 0;
                let mut k: usize = 0;
                while k < n
                    invariant
                        k <= n,
                        n == chromosome.genes.len(),
                        chromosome.wf(),
                        acc == spec_sum(chromosome.genes@.take(k as int)),
                        -((k as int) * 1_000_000_000_000) <= acc <= (k as int)
                            * 1_000_000_000_000,
                    decreases n - k,
                {
                    proof {
                        assert(chromosome.genes@.take(k as int + 1).drop_last()
                            =~= chromosome.genes@.take(k as int));
                    }
                    acc = acc + (chromosome.genes[k] as i128);
                    k += 1;
                }
                proof {
                    assert(chromosome.genes@.take(n as int) =~= chromosome.genes@);
                }
                clamp_signal(acc)
            },
            TestIndividual::WithFitness { fitness } => *fitness,
        }
    }

    fn chromosome(&self) -> (r: &Chromosome) {
        match self {
            TestIndividual::WithChromosome { chromosome } => chromosome,
            TestIndividual::WithFitness { .. } => {
                proof {
                    assert(false);
                }
                unreached()
            },
        }
    }

    fn create(chromosome: Chromosome) -> (r: Self) {
        TestIndividual::WithChromosome { chromosome }
    }
}

} // verus!
