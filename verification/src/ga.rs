//! The genetic algorithm engine.
//!
//! One `evolve` call breeds a full replacement population: per offspring it
//! selects two parents under the active strategy, crosses their chromosomes
//! gene by gene, mutates the child, and materializes a new individual; it
//! also reports statistics over the population as it stood before
//! evolution.

use vstd::prelude::*;

use crate::crossover::UniformCrossover;
use crate::fixed::{clamped, SIGNAL_LIMIT};
use crate::individual::{spec_sum, Individual};
use crate::mutation::GaussianMutation;
use crate::rng::SimRng;
use crate::selection::{
    elem_of, lemma_multiset_elem_transfer, lemma_sum_fitness_nonneg, sorted_by_fitness,
    spec_sum_fitness, SelectionMethod,
};
use vstd::relations::sorted_by;

verus! {

broadcast use vstd::seq_lib::group_to_multiset_ensures;

#[derive(Clone, Copy, Debug, PartialEq, Eq, Structural)]
pub enum GaError {
    /// `evolve` was handed an empty population.
    EmptyPopulation,
    /// No individual carries any selection weight: every fitness is zero.
    EmptySelection,
    /// Parent chromosomes of different lengths cannot cross over.
    MismatchedChromosomes,
}

/// The fitness of each individual, in population order.
pub open spec fn fitnesses<I: Individual>(pop: Seq<I>) -> Seq<i64> {
    pop.map_values(|ind: I| ind.spec_fitness())
}

/// The least element of a non-empty sequence.
pub open spec fn seq_min(s: Seq<i64>) -> int
    recommends
        s.len() >= 1,
    decreases s.len(),
{
    if s.len() <= 1 {
        s[0] as int
    } else {
        let m = seq_min(s.drop_last());
        if s.last() < m {
            s.last() as int
        } else {
            m
        }
    }
}

/// The greatest element of a non-empty sequence.
pub open spec fn seq_max(s: Seq<i64>) -> int
    recommends
        s.len() >= 1,
    decreases s.len(),
{
    if s.len() <= 1 {
        s[0] as int
    } else {
        let m = seq_max(s.drop_last());
        if s.last() > m {
            s.last() as int
        } else {
            m
        }
    }
}

/// The fitness ordering the median is taken under.
pub open spec fn fitness_le(a: i64, b: i64) -> bool {
    a <= b
}

/// The median of a non-empty sequence: sort a copy ascending; the single
/// middle element, or the mean of the two middle elements when the length
/// is even.
pub open spec fn spec_median(fs: Seq<i64>) -> int
    recommends
        fs.len() >= 1,
{
    let sorted = fs.sort_by(|a: i64, b: i64| fitness_le(a, b));
    if fs.len() % 2 == 0 {
        (sorted[fs.len() as int / 2 - 1] + sorted[fs.len() as int / 2]) / 2
    } else {
        sorted[fs.len() as int / 2] as int
    }
}

proof fn lemma_fitness_le_total_ordering()
    ensures
        vstd::relations::total_ordering(|a: i64, b: i64| fitness_le(a, b)),
{
    let leq = |a: i64, b: i64| fitness_le(a, b);
    assert(vstd::relations::reflexive(leq)) by {
        assert forall|x: i64| #[trigger] leq(x, x) by {}
    }
    assert(vstd::relations::antisymmetric(leq)) by {
        assert forall|x: i64, y: i64| #[trigger] leq(x, y) && #[trigger] leq(y, x) implies x
            == y by {}
    }
    assert(vstd::relations::transitive(leq)) by {
        assert forall|x: i64, y: i64, z: i64| #[trigger] leq(x, y) && #[trigger] leq(
            y,
            z,
        ) implies leq(x, z) by {}
    }
    assert(vstd::relations::strongly_connected(leq)) by {
        assert forall|x: i64, y: i64| #[trigger] leq(x, y) || #[trigger] leq(y, x) by {}
    }
}

/// Sort a sequence of fitness values ascending.
fn sort_i64(v: &mut Vec<i64>)
    ensures
        final(v)@.len() == old(v)@.len(),
        final(v)@.to_multiset() == old(v)@.to_multiset(),
        sorted_by(final(v)@, |a: i64, b: i64| fitness_le(a, b)),
{
    let ghost orig: Seq<i64> = old(v)@;
    let ghost leq = |a: i64, b: i64| fitness_le(a, b);
    let mut src: Vec<i64> = Vec::new();
    core::mem::swap(v, &mut src);
    let mut dst: Vec<i64> = Vec::new();
    proof {
        assert(dst@.to_multiset().add(src@.to_multiset()) =~= orig.to_multiset());
    }
    while src.len() > 0
        invariant
            dst@.len() + src@.len() == orig.len(),
            dst@.to_multiset().add(src@.to_multiset()) == orig.to_multiset(),
            sorted_by(dst@, leq),
            leq == (|a: i64, b: i64| fitness_le(a, b)),
            forall|a: int, b: int|
                0 <= a < dst@.len() && 0 <= b < src@.len() ==> #[trigger] dst@[a]
                    <= #[trigger] src@[b],
        decreases src@.len(),
    {
        let mut mi: usize = 0;
        let mut k: usize = 1;
        while k < src.len()
            invariant
                mi < k <= src@.len(),
                forall|l: int| 0 <= l < k ==> src@[mi as int] <= #[trigger] src@[l],
            decreases src@.len() - k,
        {
            if src[k] < src[mi] {
                mi = k;
            }
            k += 1;
        }
        let ghost src_before: Seq<i64> = src@;
        let ghost dst_before: Seq<i64> = dst@;
        let x = src.remove(mi);
        dst.push(x);
        proof {
            assert(src_before[mi as int] == x);
            assert(src_before.contains(x));
            assert(src_before.to_multiset().count(x) > 0);
            assert(src@ == src_before.remove(mi as int));
            assert(dst@ == dst_before.push(x));
            assert(src_before.remove(mi as int).to_multiset() =~= src_before.to_multiset().remove(
                src_before[mi as int],
            ));
            assert(dst_before.push(x).to_multiset() =~= dst_before.to_multiset().insert(x));
            assert(dst@.to_multiset().add(src@.to_multiset()) =~= dst_before.to_multiset().add(
                src_before.to_multiset(),
            ));
            assert forall|b: int| 0 <= b < src@.len() implies x <= #[trigger] src@[b] by {
                if b < mi {
                    assert(src@[b] == src_before[b]);
                } else {
                    assert(src@[b] == src_before[b + 1]);
                }
            }
            assert forall|a: int, b: int|
                0 <= a < dst@.len() && 0 <= b < src@.len() implies #[trigger] dst@[a]
                <= #[trigger] src@[b] by {
                if a < dst@.len() - 1 {
                    assert(dst@[a] == dst_before[a]);
                    assert(dst_before[a] <= src_before[mi as int]);
                } else {
                    assert(dst@[a] == x);
                }
            }
            assert forall|a: int, b: int| 0 <= a < b < dst@.len() implies #[trigger] leq(
                dst@[a],
                dst@[b],
            ) by {
                if b < dst@.len() - 1 {
                    assert(dst@[a] == dst_before[a] && dst@[b] == dst_before[b]);
                } else {
                    assert(dst@[b] == x);
                    assert(dst@[a] == dst_before[a]);
                    assert(dst_before[a] <= src_before[mi as int]);
                }
            }
        }
    }
    core::mem::swap(v, &mut dst);
}

/// The min/max/mean/median fitness snapshot of one generation.
#[derive(Clone, Copy, Debug)]
pub struct Statistics {
    min_fitness: i64,
    max_fitness: i64,
    avg_fitness: i64,
    median_fitness: i64,
}

impl Statistics {
    /// The least fitness the snapshot saw.
    pub closed spec fn spec_min(&self) -> i64 {
        self.min_fitness
    }

    /// The greatest fitness the snapshot saw.
    pub closed spec fn spec_max(&self) -> i64 {
        self.max_fitness
    }

    /// The mean fitness the snapshot saw.
    pub closed spec fn spec_avg(&self) -> i64 {
        self.avg_fitness
    }

    /// The median fitness the snapshot saw.
    pub closed spec fn spec_median(&self) -> i64 {
        self.median_fitness
    }

    /// Statistics over a non-empty population's fitness values.
    pub fn new<I: Individual>(population: &Vec<I>) -> (r: Statistics)
        requires
            1 <= population@.len() <= 1_000_000,
            forall|i: int| 0 <= i < population@.len() ==> (#[trigger] population@[i]).inv(),
            forall|i: int|
                0 <= i < population@.len() ==> 0 <= (#[trigger] population@[i]).spec_fitness()
                    <= SIGNAL_LIMIT,
        ensures
            r.spec_min() == seq_min(fitnesses(population@)),
            r.spec_max() == seq_max(fitnesses(population@)),
            r.spec_avg() == spec_sum(fitnesses(population@)) / (population@.len() as int),
            r.spec_median() == spec_median(fitnesses(population@)),
    {
        let ghost fs: Seq<i64> = fitnesses(population@);
        let n = population.len();
        let f0 = population[0].fitness();
        let mut mn: i64 = f0;
        let mut mx: i64 = f0;
        let mut sum: u64 = f0 as u64;
        let mut vals: Vec<i64> = Vec::new();
        vals.push(f0);
        let mut k: usize = 1;
        proof {
            assert(fs[0] == population@[0].spec_fitness());
            assert(fs.take(1).drop_last() =~= Seq::<i64>::empty());
            assert(spec_sum(Seq::<i64>::empty()) == 0);
            assert(fs.take(1).last() == fs[0]);
            assert(spec_sum(fs.take(1)) == fs[0]);
            assert(vals@ =~= fs.take(1));
        }
        while k < n
            invariant
                1 <= k <= n,
                n == population@.len() <= 1_000_000,
                fs == fitnesses(population@),
                forall|i: int| 0 <= i < n ==> (#[trigger] population@[i]).inv(),
                forall|i: int|
                    0 <= i < n ==> 0 <= (#[trigger] population@[i]).spec_fitness()
                        <= SIGNAL_LIMIT,
                mn == seq_min(fs.take(k as int)),
                mx == seq_max(fs.take(k as int)),
                sum == spec_sum(fs.take(k as int)),
                sum <= (k as int) * 1_000_000_000_000,
                vals@ == fs.take(k as int),
            decreases n - k,
        {
            let f = population[k].fitness();
            proof {
                assert(fs[k as int] == population@[k as int].spec_fitness());
                assert(fs.take(k as int + 1).drop_last() =~= fs.take(k as int));
                assert(fs.take(k as int + 1).last() == fs[k as int]);
            }
            if f < mn {
                mn = f;
            }
            if f > mx {
                mx = f;
            }
            sum = sum + (f as u64);
            vals.push(f);
            k += 1;
        }
        proof {
            assert(fs.take(n as int) =~= fs);
        }
        let avg: u64 = sum / (n as u64);
        sort_i64(&mut vals);
        proof {
            lemma_fitness_le_total_ordering();
            fs.lemma_sort_by_ensures(|a: i64, b: i64| fitness_le(a, b));
            vstd::seq_lib::lemma_sorted_unique(
                vals@,
                fs.sort_by(|a: i64, b: i64| fitness_le(a, b)),
                |a: i64, b: i64| fitness_le(a, b),
            );
            assert(vals@ == fs.sort_by(|a: i64, b: i64| fitness_le(a, b)));
            crate::selection::lemma_multiset_elem_transfer(fs, vals@);
            assert forall|i: int| 0 <= i < vals@.len() implies 0 <= #[trigger] vals@[i]
                <= SIGNAL_LIMIT by {
                assert(crate::selection::elem_of(vals@[i], fs));
                let j = choose|j: int| 0 <= j < fs.len() && vals@[i] == fs[j];
                assert(fs[j] == population@[j].spec_fitness());
            }
        }
        let median: i64 = if n % 2 == 0 {
            let a = vals[n / 2 - 1];
            let b = vals[n / 2];
            (((a as u64) + (b as u64)) / 2) as i64
        } else {
            vals[n / 2]
        };
        Statistics { min_fitness: mn, max_fitness: mx, avg_fitness: avg as i64, median_fitness: median }
    }

    pub fn min_fitness(&self) -> (r: i64)
        ensures
            r == self.spec_min(),
    {
        self.min_fitness
    }

    pub fn max_fitness(&self) -> (r: i64)
        ensures
            r == self.spec_max(),
    {
        self.max_fitness
    }

    pub fn avg_fitness(&self) -> (r: i64)
        ensures
            r == self.spec_avg(),
    {
        self.avg_fitness
    }

    pub fn median_fitness(&self) -> (r: i64)
        ensures
            r == self.spec_median(),
    {
        self.median_fitness
    }
}

/// Every chromosome in the population has one gene count.
pub open spec fn uniform_chromosomes<I: Individual>(pop: Seq<I>) -> bool {
    forall|i: int|
        0 <= i < pop.len() ==> (#[trigger] pop[i]).spec_chromosome().len()
            == pop[0].spec_chromosome().len()
}

/// A population the engine can breed from.
pub open spec fn evolvable<I: Individual>(pop: Seq<I>) -> bool {
    &&& pop.len() <= 1_000_000
    &&& forall|i: int| 0 <= i < pop.len() ==> (#[trigger] pop[i]).inv()
    &&& forall|i: int| 0 <= i < pop.len() ==> (#[trigger] pop[i]).has_chromosome()
    &&& forall|i: int|
        0 <= i < pop.len() ==> 0 <= (#[trigger] pop[i]).spec_fitness() <= SIGNAL_LIMIT
    &&& uniform_chromosomes(pop)
}

/// The values one mutation step can leave of `base`.
pub open spec fn spec_gene_options(base: i64, coeff: i64, g: i64) -> bool {
    ||| g == base
    ||| g == clamped(-SIGNAL_LIMIT as int, base + coeff, SIGNAL_LIMIT as int)
    ||| g == clamped(-SIGNAL_LIMIT as int, base - coeff, SIGNAL_LIMIT as int)
}

/// The child was bred from two selected parents: every gene is gene `j`
/// of one of the two, moved at most one mutation step; under
/// fitness-proportional selection both parents carry positive fitness.
pub open spec fn spec_child_of<I: Individual>(
    pop: Seq<I>,
    child: Seq<i64>,
    coeff: i64,
    need_positive_fitness: bool,
) -> bool {
    exists|ma: int, mb: int|
        #![trigger pop[ma].spec_chromosome(), pop[mb].spec_chromosome()]
        {
            &&& 0 <= ma < pop.len()
            &&& 0 <= mb < pop.len()
            &&& (need_positive_fitness ==> pop[ma].spec_fitness() > 0 && pop[mb].spec_fitness()
                > 0)
            &&& child.len() == pop[ma].spec_chromosome().len()
            &&& forall|j: int|
                0 <= j < child.len() ==> spec_gene_options(
                    pop[ma].spec_chromosome()[j],
                    coeff,
                    #[trigger] child[j],
                ) || spec_gene_options(pop[mb].spec_chromosome()[j], coeff, child[j])
        }
}

/// The engine: a selection strategy, a crossover strategy and a mutation
/// strategy, run once per generation.
pub struct GeneticAlgorithm {
    pub selection_method: SelectionMethod,
    pub crossover_method: UniformCrossover,
    pub mutation_method: GaussianMutation,
}

impl GeneticAlgorithm {
    /// The engine's configuration is usable.
    pub open spec fn wf(&self) -> bool {
        self.mutation_method.wf()
    }

    pub fn new(
        selection_method: SelectionMethod,
        crossover_method: UniformCrossover,
        mutation_method: GaussianMutation,
    ) -> (r: GeneticAlgorithm)
        requires
            mutation_method.wf(),
        ensures
            r.selection_method == selection_method,
            r.crossover_method == crossover_method,
            r.mutation_method == mutation_method,
            r.wf(),
    {
        GeneticAlgorithm { selection_method, crossover_method, mutation_method }
    }

    /// Breed one full replacement generation. Per offspring: rank the
    /// population if the strategy demands it (once per call), select two
    /// parents, cross their chromosomes, mutate the child, and materialize
    /// a new individual. Returns the new population and statistics over
    /// the population as it stood before evolution.
    pub fn evolve<I: Individual>(&mut self, rng: &mut SimRng, population: &mut Vec<I>) -> (r:
        Result<(Vec<I>, Statistics), GaError>)
        requires
            old(self).wf(),
            evolvable(old(population)@),
        ensures
            final(self).wf(),
            final(self).mutation_method == old(self).mutation_method,
            final(self).selection_method.is_rank() == old(self).selection_method.is_rank(),
            final(population)@.to_multiset() == old(population)@.to_multiset(),
            !old(self).selection_method.is_rank() ==> *final(population) == *old(population),
            old(self).selection_method.is_rank() && r is Ok ==> sorted_by_fitness(
                final(population)@,
            ),
            old(population)@.len() == 0 ==> r == Err::<(Vec<I>, Statistics), GaError>(
                GaError::EmptyPopulation,
            ),
            old(population)@.len() > 0 && !old(self).selection_method.is_rank()
                && spec_sum_fitness(old(population)@) == 0 ==> r == Err::<
                (Vec<I>, Statistics),
                GaError,
            >(GaError::EmptySelection),
            old(population)@.len() > 0 && (old(self).selection_method.is_rank()
                || spec_sum_fitness(old(population)@) > 0) ==> r is Ok,
            r is Ok ==> {
                &&& r->Ok_0.0@.len() == old(population)@.len()
                &&& forall|k: int|
                    0 <= k < r->Ok_0.0@.len() ==> (#[trigger] r->Ok_0.0@[k]).inv()
                        && r->Ok_0.0@[k].has_chromosome() && r->Ok_0.0@[k].spec_chromosome().len()
                        == old(population)@[0].spec_chromosome().len()
                &&& forall|k: int|
                    0 <= k < r->Ok_0.0@.len() ==> spec_child_of(
                        old(population)@,
                        (#[trigger] r->Ok_0.0@[k]).spec_chromosome(),
                        old(self).mutation_method.coeff,
                        !old(self).selection_method.is_rank(),
                    )
                &&& r->Ok_0.1.spec_min() == seq_min(fitnesses(old(population)@))
                &&& r->Ok_0.1.spec_max() == seq_max(fitnesses(old(population)@))
                &&& r->Ok_0.1.spec_avg() == spec_sum(fitnesses(old(population)@)) / (old(
                    population,
                )@.len() as int)
                &&& r->Ok_0.1.spec_median() == spec_median(fitnesses(old(population)@))
            },
    {
        let ghost orig: Seq<I> = old(population)@;
        let ghost coeff: i64 = self.mutation_method.coeff;
        let ghost gene_len: int = orig[0].spec_chromosome().len() as int;
        let n = population.len();
        if n == 0 {
            return Err(GaError::EmptyPopulation);
        }
        let stats = Statistics::new(population);
        self.selection_method.set_not_sorted_population();
        let mut new_population: Vec<I> = Vec::new();
        let mut k: usize = 0;
        while k < n
            invariant
                k <= n,
                n == population@.len(),
                n >= 1,
                self.wf(),
                self.mutation_method == old(self).mutation_method,
                self.crossover_method == old(self).crossover_method,
                self.selection_method.is_rank() == old(self).selection_method.is_rank(),
                coeff == old(self).mutation_method.coeff,
                gene_len == orig[0].spec_chromosome().len(),
                evolvable(orig),
                orig == old(population)@,
                population@.to_multiset() == orig.to_multiset(),
                evolvable(population@),
                !self.selection_method.is_rank() ==> *population == *old(population),
                self.selection_method is Rank ==> (self.selection_method->Rank_0.is_sorted <==> k
                    > 0),
                k > 0 && self.selection_method.is_rank() ==> sorted_by_fitness(population@),
                k > 0 ==> self.selection_method.is_rank() || spec_sum_fitness(orig) > 0,
                new_population@.len() == k,
                forall|k2: int|
                    0 <= k2 < k ==> (#[trigger] new_population@[k2]).inv()
                        && new_population@[k2].has_chromosome()
                        && new_population@[k2].spec_chromosome().len() == gene_len,
                forall|k2: int|
                    0 <= k2 < k ==> spec_child_of(
                        orig,
                        (#[trigger] new_population@[k2]).spec_chromosome(),
                        coeff,
                        !old(self).selection_method.is_rank(),
                    ),
            decreases n - k,
        {
            self.selection_method.sort(population);
            proof {
                lemma_multiset_elem_transfer(orig, population@);
                assert forall|i: int|
                    0 <= i < population@.len() implies (#[trigger] population@[i]).inv()
                    && population@[i].has_chromosome() && 0 <= population@[i].spec_fitness()
                    <= SIGNAL_LIMIT && population@[i].spec_chromosome().len() == gene_len by {
                    assert(elem_of(population@[i], orig));
                    let m = choose|m: int| 0 <= m < orig.len() && population@[i] == orig[m];
                    assert(orig[m].spec_chromosome().len() == orig[0].spec_chromosome().len());
                }
                assert(uniform_chromosomes(population@));
                lemma_sum_fitness_nonneg(population@);
            }
            let parent_a = match self.selection_method.select(rng, population) {
                Ok(p) => p,
                Err(e) => {
                    proof {
                        assert(!self.selection_method.is_rank());
                        assert(spec_sum_fitness(population@) == 0);
                    }
                    return Err(e);
                },
            };
            proof {
                if !self.selection_method.is_rank() {
                    assert(spec_sum_fitness(population@) != 0);
                }
            }
            let parent_b = match self.selection_method.select(rng, population) {
                Ok(p) => p,
                Err(e) => {
                    proof {
                        assert(!self.selection_method.is_rank());
                        assert(spec_sum_fitness(population@) == 0);
                    }
                    return Err(e);
                },
            };
            let ca = parent_a.chromosome();
            let cb = parent_b.chromosome();
            let ghost roulette: bool = !self.selection_method.is_rank();
            let ghost ia: int = choose|i: int|
                0 <= i < population@.len() && *parent_a == population@[i] && (roulette
                    ==> population@[i].spec_fitness() > 0);
            let ghost ib: int = choose|i: int|
                0 <= i < population@.len() && *parent_b == population@[i] && (roulette
                    ==> population@[i].spec_fitness() > 0);
            let mut child = match self.crossover_method.crossover(rng, ca, cb) {
                Ok(c) => c,
                Err(e) => {
                    proof {
                        assert(ca.genes@.len() == gene_len);
                        assert(cb.genes@.len() == gene_len);
                        assert(false);
                    }
                    return Err(e);
                },
            };
            let ghost crossed: Seq<i64> = child.genes@;
            self.mutation_method.mutate(rng, &mut child);
            proof {
                assert(elem_of(population@[ia], orig));
                assert(elem_of(population@[ib], orig));
                let ma = choose|m: int| 0 <= m < orig.len() && population@[ia] == orig[m];
                let mb = choose|m: int| 0 <= m < orig.len() && population@[ib] == orig[m];
                assert forall|j: int| 0 <= j < child.genes@.len() implies spec_gene_options(
                    orig[ma].spec_chromosome()[j],
                    coeff,
                    #[trigger] child.genes@[j],
                ) || spec_gene_options(orig[mb].spec_chromosome()[j], coeff, child.genes@[j]) by {
                    assert(crossed[j] == ca.genes@[j] || crossed[j] == cb.genes@[j]);
                    assert(ca.genes@ == orig[ma].spec_chromosome());
                    assert(cb.genes@ == orig[mb].spec_chromosome());
                    assert(spec_gene_options(crossed[j], coeff, child.genes@[j]));
                }
                assert(child.genes@.len() == orig[ma].spec_chromosome().len());
                assert(spec_child_of(
                    orig,
                    child.genes@,
                    coeff,
                    !old(self).selection_method.is_rank(),
                ));
            }
            let offspring = I::create(child);
            new_population.push(offspring);
            k += 1;
        }
        Ok((new_population, stats))
    }
}

} // verus!
