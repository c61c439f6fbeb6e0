//! Parent selection strategies.
//!
//! Fitness-proportional ("roulette wheel") selection weighs each individual
//! by its raw fitness; rank selection weighs it by its rank in a
//! fitness-sorted population, where the rank is found by locating the
//! individual's fitness value, so equal fitness values collapse to one
//! rank. Either way a parent is drawn by one uniform draw against the
//! cumulative weights, so an individual of zero weight is never selected.

use vstd::prelude::*;

use crate::fixed::SIGNAL_LIMIT;
use crate::ga::GaError;
use crate::individual::Individual;
use crate::rng::SimRng;

verus! {

broadcast use vstd::seq_lib::group_to_multiset_ensures;

/// The sum of a weight sequence.
pub open spec fn spec_sum_u64(s: Seq<u64>) -> int
    decreases s.len(),
{
    if s.len() == 0 {
        0
    } else {
        spec_sum_u64(s.drop_last()) + s.last()
    }
}

/// The summed fitness of a population.
pub open spec fn spec_sum_fitness<I: Individual>(pop: Seq<I>) -> int
    decreases pop.len(),
{
    if pop.len() == 0 {
        0
    } else {
        spec_sum_fitness(pop.drop_last()) + pop.last().spec_fitness()
    }
}

/// Ascending fitness order.
pub open spec fn sorted_by_fitness<I: Individual>(s: Seq<I>) -> bool {
    forall|i: int, j: int|
        0 <= i < j < s.len() ==> #[trigger] s[i].spec_fitness() <= #[trigger] s[j].spec_fitness()
}

/// The index of the first individual at or after `j` whose fitness is `f`;
/// the population's length when there is none.
pub open spec fn spec_first_with_fitness<I: Individual>(pop: Seq<I>, f: i64, j: int) -> int
    decreases pop.len() - j when 0 <= j <= pop.len()
{
    if j >= pop.len() {
        pop.len() as int
    } else if pop[j].spec_fitness() == f {
        j
    } else {
        spec_first_with_fitness(pop, f, j + 1)
    }
}

/// The tie-collapsing rank of the individual at `i`: one more than the
/// position of the first individual sharing its fitness value.
pub open spec fn spec_rank<I: Individual>(pop: Seq<I>, i: int) -> int {
    spec_first_with_fitness(pop, pop[i].spec_fitness(), 0) + 1
}

proof fn lemma_first_match_at_most<I: Individual>(pop: Seq<I>, f: i64, j: int, k: int)
    requires
        0 <= j <= k < pop.len(),
        pop[k].spec_fitness() == f,
    ensures
        j <= spec_first_with_fitness(pop, f, j) <= k,
    decreases k - j,
{
    if pop[j].spec_fitness() == f {
    } else {
        lemma_first_match_at_most(pop, f, j + 1, k);
    }
}

proof fn lemma_sum_u64_matches_fitness<I: Individual>(pop: Seq<I>, ws: Seq<u64>)
    requires
        pop.len() == ws.len(),
        forall|i: int| 0 <= i < ws.len() ==> #[trigger] ws[i] == pop[i].spec_fitness(),
    ensures
        spec_sum_u64(ws) == spec_sum_fitness(pop),
    decreases ws.len(),
{
    if ws.len() > 0 {
        lemma_sum_u64_matches_fitness(pop.drop_last(), ws.drop_last());
    }
}

/// A population of non-negative fitness sums to a non-negative total.
pub proof fn lemma_sum_fitness_nonneg<I: Individual>(pop: Seq<I>)
    requires
        forall|i: int| 0 <= i < pop.len() ==> (#[trigger] pop[i]).spec_fitness() >= 0,
    ensures
        spec_sum_fitness(pop) >= 0,
    decreases pop.len(),
{
    if pop.len() > 0 {
        lemma_sum_fitness_nonneg(pop.drop_last());
    }
}

proof fn lemma_sum_u64_at_least_len(ws: Seq<u64>)
    requires
        forall|i: int| 0 <= i < ws.len() ==> #[trigger] ws[i] >= 1,
    ensures
        spec_sum_u64(ws) >= ws.len(),
    decreases ws.len(),
{
    if ws.len() > 0 {
        lemma_sum_u64_at_least_len(ws.drop_last());
    }
}

/// One uniform draw against the cumulative weights: returns an index
/// carrying positive weight, or reports that no weight exists at all.
fn pick_weighted(rng: &mut SimRng, weights: &Vec<u64>) -> (r: Result<usize, GaError>)
    requires
        weights@.len() <= 1_000_000,
        forall|i: int| 0 <= i < weights@.len() ==> #[trigger] weights@[i] <= 1_000_000_000_000,
    ensures
        spec_sum_u64(weights@) > 0 ==> r is Ok,
        r is Ok ==> r->Ok_0 < weights@.len() && weights@[r->Ok_0 as int] > 0,
        spec_sum_u64(weights@) == 0 ==> r == Err::<usize, GaError>(GaError::EmptySelection),
    {
    let n = weights.len();
    let mut total: u64 = 0;
    let mut k: usize = 0;
    while k < n
        invariant
            k <= n,
            n == weights@.len() <= 1_000_000,
            forall|i: int| 0 <= i < n ==> #[trigger] weights@[i] <= 1_000_000_000_000,
            total == spec_sum_u64(weights@.take(k as int)),
            total <= (k as int) * 1_000_000_000_000,
        decreases n - k,
    {
        proof {
            assert(weights@.take(k as int + 1).drop_last() =~= weights@.take(k as int));
        }
        total = total + weights[k];
        k += 1;
    }
    proof {
        assert(weights@.take(n as int) =~= weights@);
    }
    if total == 0 {
        return Err(GaError::EmptySelection);
    }
    let t = rng.next_below(total);
    let mut cum: u64 = 0;
    let mut k: usize = 0;
    while k < n
        invariant
            k <= n,
            n == weights@.len(),
            total == spec_sum_u64(weights@),
            cum == spec_sum_u64(weights@.take(k as int)),
            cum <= t < total,
        decreases n - k,
    {
        if t - cum < weights[k] {
            return Ok(k);
        }
        proof {
            assert(weights@.take(k as int + 1).drop_last() =~= weights@.take(k as int));
        }
        cum = cum + weights[k];
        k += 1;
    }
    proof {
        assert(weights@.take(n as int) =~= weights@);
        assert(false);
    }
    Err(GaError::EmptySelection)
}

/// Fitness-proportional selection.
#[derive(Clone, Copy, Debug)]
pub struct RouletteWheelSelection;

impl RouletteWheelSelection {
    pub fn new() -> (r: RouletteWheelSelection) {
        RouletteWheelSelection
    }

    /// Draw one parent, each individual weighted by its raw fitness. A
    /// population whose fitness sums to zero gives no one any weight: that
    /// is the empty-selection condition, reported as an error.
    pub fn select<'a, I: Individual>(&self, rng: &mut SimRng, population: &'a Vec<I>) -> (r:
        Result<&'a I, GaError>)
        requires
            population@.len() <= 1_000_000,
            forall|i: int| 0 <= i < population@.len() ==> (#[trigger] population@[i]).inv(),
            forall|i: int|
                0 <= i < population@.len() ==> 0 <= (#[trigger] population@[i]).spec_fitness()
                    <= SIGNAL_LIMIT,
        ensures
            spec_sum_fitness(population@) > 0 ==> r is Ok,
            r is Ok ==> exists|i: int|
                0 <= i < population@.len() && *r->Ok_0 == (#[trigger] population@[i])
                    && population@[i].spec_fitness() > 0,
            spec_sum_fitness(population@) == 0 ==> r == Err::<&'a I, GaError>(
                GaError::EmptySelection,
            ),
    {
        let n = population.len();
        let mut weights: Vec<u64> = Vec::new();
        let mut k: usize = 0;
        while k < n
            invariant
                k <= n,
                n == population@.len() <= 1_000_000,
                forall|i: int| 0 <= i < n ==> (#[trigger] population@[i]).inv(),
                forall|i: int|
                    0 <= i < n ==> 0 <= (#[trigger] population@[i]).spec_fitness()
                        <= SIGNAL_LIMIT,
                weights@.len() == k,
                forall|i: int|
                    0 <= i < k ==> #[trigger] weights@[i] == population@[i].spec_fitness(),
            decreases n - k,
        {
            let f = population[k].fitness();
            weights.push(f as u64);
            k += 1;
        }
        proof {
            lemma_sum_u64_matches_fitness(population@, weights@);
        }
        match pick_weighted(rng, &weights) {
            Ok(i) => Ok(&population[i]),
            Err(e) => Err(e),
        }
    }
}

/// Rank-based selection.
#[derive(Clone, Copy, Debug)]
pub struct RankSelection {
    /// Whether the population was already sorted this generation.
    pub is_sorted: bool,
}

/// The tie-collapsing rank of every individual: one more than the position
/// of the first individual sharing its fitness value. Equal fitness values
/// share one rank, whatever their positions.
pub fn rank_weights<I: Individual>(population: &Vec<I>) -> (r: Vec<u64>)
    requires
        population@.len() <= 1_000_000,
        forall|i: int| 0 <= i < population@.len() ==> (#[trigger] population@[i]).inv(),
    ensures
        r@.len() == population@.len(),
        forall|i: int| 0 <= i < r@.len() ==> #[trigger] r@[i] == spec_rank(population@, i),
        forall|i: int| 0 <= i < r@.len() ==> 1 <= #[trigger] r@[i] <= population@.len(),
{
    let n = population.len();
    let mut weights: Vec<u64> = Vec::new();
    let mut k: usize = 0;
    while k < n
        invariant
            k <= n,
            n == population@.len() <= 1_000_000,
            forall|i: int| 0 <= i < n ==> (#[trigger] population@[i]).inv(),
            weights@.len() == k,
            forall|i: int| 0 <= i < k ==> #[trigger] weights@[i] == spec_rank(population@, i),
            forall|i: int| 0 <= i < k ==> 1 <= #[trigger] weights@[i] <= n,
        decreases n - k,
    {
        let f = population[k].fitness();
        proof {
            lemma_first_match_at_most(population@, f, 0, k as int);
        }
        let mut j: usize = 0;
        while population[j].fitness() != f
            invariant
                n == population@.len(),
                forall|i: int| 0 <= i < n ==> (#[trigger] population@[i]).inv(),
                k < n,
                f == population@[k as int].spec_fitness(),
                0 <= j <= spec_first_with_fitness(population@, f, 0) <= k,
                spec_first_with_fitness(population@, f, 0) == spec_first_with_fitness(
                    population@,
                    f,
                    j as int,
                ),
            decreases k - j,
        {
            proof {
                assert(j < k);
                lemma_first_match_at_most(population@, f, j as int + 1, k as int);
            }
            j += 1;
        }
        proof {
            assert(spec_first_with_fitness(population@, f, j as int) == j);
        }
        weights.push((j as u64) + 1);
        k += 1;
    }
    weights
}

impl RankSelection {
    pub fn new() -> (r: RankSelection)
        ensures
            !r.is_sorted,
    {
        RankSelection { is_sorted: false }
    }

    /// Draw one parent, each individual weighted by its tie-collapsing
    /// rank. Every rank is at least one, so a non-empty population always
    /// yields a parent, sorted or not.
    pub fn select<'a, I: Individual>(&self, rng: &mut SimRng, population: &'a Vec<I>) -> (r:
        Result<&'a I, GaError>)
        requires
            population@.len() <= 1_000_000,
            forall|i: int| 0 <= i < population@.len() ==> (#[trigger] population@[i]).inv(),
        ensures
            population@.len() > 0 ==> r is Ok,
            r is Ok ==> exists|i: int|
                0 <= i < population@.len() && *r->Ok_0 == (#[trigger] population@[i]),
            population@.len() == 0 ==> r == Err::<&'a I, GaError>(GaError::EmptySelection),
    {
        let weights = rank_weights(population);
        proof {
            if population@.len() > 0 {
                lemma_sum_u64_at_least_len(weights@);
            }
        }
        match pick_weighted(rng, &weights) {
            Ok(i) => Ok(&population[i]),
            Err(e) => Err(e),
        }
    }
}

/// `x` occurs in `a`.
pub open spec fn elem_of<T>(x: T, a: Seq<T>) -> bool {
    exists|j: int| 0 <= j < a.len() && x == #[trigger] a[j]
}

/// Elements of multiset-equal sequences transfer: each element of one is
/// an element of the other.
pub proof fn lemma_multiset_elem_transfer<T>(a: Seq<T>, b: Seq<T>)
    requires
        a.to_multiset() == b.to_multiset(),
    ensures
        forall|i: int| 0 <= i < b.len() ==> #[trigger] elem_of(b[i], a),
{
    assert forall|i: int| 0 <= i < b.len() implies #[trigger] elem_of(b[i], a) by {
        let x = b[i];
        assert(b.contains(x));
        assert(b.to_multiset().count(x) > 0);
        assert(a.to_multiset().count(x) > 0);
        assert(a.contains(x));
        let j = choose|k: int| 0 <= k < a.len() && a[k] == x;
        assert(0 <= j < a.len() && x == a[j]);
    }
}

/// Sort a population ascending by fitness: the result is a fitness-sorted
/// rearrangement of the same individuals.
pub fn sort_by_fitness<I: Individual>(population: &mut Vec<I>)
    requires
        forall|i: int|
            0 <= i < old(population)@.len() ==> (#[trigger] old(population)@[i]).inv(),
    ensures
        final(population)@.len() == old(population)@.len(),
        final(population)@.to_multiset() == old(population)@.to_multiset(),
        sorted_by_fitness(final(population)@),
{
    let ghost orig: Seq<I> = old(population)@;
    let mut src: Vec<I> = Vec::new();
    core::mem::swap(population, &mut src);
    let mut dst: Vec<I> = Vec::new();
    proof {
        assert(dst@.to_multiset().add(src@.to_multiset()) =~= orig.to_multiset());
    }
    while src.len() > 0
        invariant
            dst@.len() + src@.len() == orig.len(),
            dst@.to_multiset().add(src@.to_multiset()) == orig.to_multiset(),
            sorted_by_fitness(dst@),
            forall|a: int, b: int|
                0 <= a < dst@.len() && 0 <= b < src@.len() ==> (#[trigger] dst@[a]).spec_fitness()
                    <= (#[trigger] src@[b]).spec_fitness(),
            forall|i: int| 0 <= i < src@.len() ==> (#[trigger] src@[i]).inv(),
        decreases src@.len(),
    {
        let mut mi: usize = 0;
        let mut k: usize = 1;
        while k < src.len()
            invariant
                mi < k <= src@.len(),
                forall|i: int| 0 <= i < src@.len() ==> (#[trigger] src@[i]).inv(),
                forall|l: int|
                    0 <= l < k ==> src@[mi as int].spec_fitness() <= (
                    #[trigger] src@[l]).spec_fitness(),
            decreases src@.len() - k,
        {
            if src[k].fitness() < src[mi].fitness() {
                mi = k;
            }
            k += 1;
        }
        let ghost src_before: Seq<I> = src@;
        let ghost dst_before: Seq<I> = dst@;
        let x = src.remove(mi);
        dst.push(x);
        proof {
            assert(src_before[mi as int] == x);
            assert(src_before.contains(x));
            assert(src_before.to_multiset().count(x) > 0);
            assert(src@ == src_before.remove(mi as int));
            assert(dst@ == dst_before.push(x));
            assert(src_before.remove(mi as int).to_multiset() =~= src_before.to_multiset().remove(
                src_before[mi as int],
            ));
            assert(dst_before.push(x).to_multiset() =~= dst_before.to_multiset().insert(x));
            assert(dst@.to_multiset().add(src@.to_multiset()) =~= dst_before.to_multiset().add(
                src_before.to_multiset(),
            ));
            assert forall|b: int| 0 <= b < src@.len() implies x.spec_fitness() <= (
            #[trigger] src@[b]).spec_fitness() && src@[b].inv() by {
                if b < mi {
                    assert(src@[b] == src_before[b]);
                } else {
                    assert(src@[b] == src_before[b + 1]);
                }
            }
            assert forall|a: int, b: int|
                0 <= a < dst@.len() && 0 <= b < src@.len() implies (
            #[trigger] dst@[a]).spec_fitness() <= (#[trigger] src@[b]).spec_fitness() by {
                assert(x.spec_fitness() <= src@[b].spec_fitness());
                if a < dst@.len() - 1 {
                    assert(dst@[a] == dst_before[a]);
                    assert(dst_before[a].spec_fitness() <= src_before[mi as int].spec_fitness());
                } else {
                    assert(dst@[a] == x);
                }
            }
            assert forall|a: int, b: int| 0 <= a < b < dst@.len() implies (
            #[trigger] dst@[a]).spec_fitness() <= (#[trigger] dst@[b]).spec_fitness() by {
                if b < dst@.len() - 1 {
                    assert(dst@[a] == dst_before[a] && dst@[b] == dst_before[b]);
                } else {
                    assert(dst@[b] == x);
                    assert(dst@[a] == dst_before[a]);
                    assert(dst_before[a].spec_fitness() <= src_before[mi as int].spec_fitness());
                }
            }
        }
    }
    core::mem::swap(population, &mut dst);
}

impl RouletteWheelSelection {
    /// Roulette selection needs no ranking: sorting is a no-op.
    pub fn sort<I: Individual>(&self, population: &mut Vec<I>)
        ensures
            *final(population) == *old(population),
    {
    }

    /// Ranking state is irrelevant to roulette selection.
    pub fn set_sorted_population(&mut self)
        ensures
            *final(self) == *old(self),
    {
    }

    /// Ranking state is irrelevant to roulette selection.
    pub fn set_not_sorted_population(&mut self)
        ensures
            *final(self) == *old(self),
    {
    }
}

impl RankSelection {
    /// Sort the population ascending by fitness, at most once per
    /// generation: once the flag records a sort, later calls change
    /// nothing.
    pub fn sort<I: Individual>(&mut self, population: &mut Vec<I>)
        requires
            forall|i: int|
                0 <= i < old(population)@.len() ==> (#[trigger] old(population)@[i]).inv(),
        ensures
            final(self).is_sorted,
            old(self).is_sorted ==> *final(population) == *old(population),
            !old(self).is_sorted ==> sorted_by_fitness(final(population)@),
            final(population)@.len() == old(population)@.len(),
            final(population)@.to_multiset() == old(population)@.to_multiset(),
    {
        if !self.is_sorted {
            sort_by_fitness(population);
            self.is_sorted = true;
        }
    }

    /// Record that the population is already ranked this generation.
    pub fn set_sorted_population(&mut self)
        ensures
            final(self).is_sorted,
    {
        self.is_sorted = true;
    }

    /// Forget the ranking: the next sort will rank anew.
    pub fn set_not_sorted_population(&mut self)
        ensures
            !final(self).is_sorted,
    {
        self.is_sorted = false;
    }
}

/// The closed set of selection strategies the engine can run.
#[derive(Clone, Copy, Debug)]
pub enum SelectionMethod {
    RouletteWheel(RouletteWheelSelection),
    Rank(RankSelection),
}

impl SelectionMethod {
    /// Whether this strategy ranks the population before selecting.
    pub open spec fn is_rank(&self) -> bool {
        self is Rank
    }

    /// Draw one parent under the active strategy.
    pub fn select<'a, I: Individual>(&self, rng: &mut SimRng, population: &'a Vec<I>) -> (r:
        Result<&'a I, GaError>)
        requires
            population@.len() <= 1_000_000,
            forall|i: int| 0 <= i < population@.len() ==> (#[trigger] population@[i]).inv(),
            forall|i: int|
                0 <= i < population@.len() ==> 0 <= (#[trigger] population@[i]).spec_fitness()
                    <= SIGNAL_LIMIT,
        ensures
            !self.is_rank() && spec_sum_fitness(population@) > 0 ==> r is Ok,
            !self.is_rank() && spec_sum_fitness(population@) == 0 ==> r is Err,
            self.is_rank() && population@.len() > 0 ==> r is Ok,
            r is Ok ==> exists|i: int|
                0 <= i < population@.len() && *r->Ok_0 == (#[trigger] population@[i]) && (
                !self.is_rank() ==> population@[i].spec_fitness() > 0),
            r is Err ==> r == Err::<&'a I, GaError>(GaError::EmptySelection),
    {
        proof {
            lemma_sum_fitness_nonneg(population@);
        }
        match self {
            SelectionMethod::RouletteWheel(s) => s.select(rng, population),
            SelectionMethod::Rank(s) => s.select(rng, population),
        }
    }

    /// Rank the population if this strategy needs it, exactly once per
    /// generation.
    pub fn sort<I: Individual>(&mut self, population: &mut Vec<I>)
        requires
            forall|i: int|
                0 <= i < old(population)@.len() ==> (#[trigger] old(population)@[i]).inv(),
        ensures
            final(population)@.len() == old(population)@.len(),
            final(population)@.to_multiset() == old(population)@.to_multiset(),
            final(self).is_rank() == old(self).is_rank(),
            !old(self).is_rank() ==> *final(population) == *old(population) && *final(self)
                == *old(self),
            (*old(self)) is Rank && !(*old(self))->Rank_0.is_sorted ==> sorted_by_fitness(
                final(population)@,
            ),
            (*old(self)) is Rank && (*old(self))->Rank_0.is_sorted ==> *final(population) == *old(
                population,
            ),
            (*final(self)) is Rank ==> (*final(self))->Rank_0.is_sorted,
    {
        match self {
            SelectionMethod::RouletteWheel(s) => {
                s.sort(population);
            },
            SelectionMethod::Rank(s) => {
                s.sort(population);
            },
        }
    }

    /// Start a generation: any ranking from the last one is stale.
    pub fn set_not_sorted_population(&mut self)
        ensures
            final(self).is_rank() == old(self).is_rank(),
            (*final(self)) is Rank ==> !(*final(self))->Rank_0.is_sorted,
    {
        match self {
            SelectionMethod::RouletteWheel(s) => {
                s.set_not_sorted_population();
            },
            SelectionMethod::Rank(s) => {
                s.set_not_sorted_population();
            },
        }
    }
}

} // verus!
