//! Uniform crossover: each child gene is drawn from one of the two
//! parents, a fair coin deciding independently per gene.

use vstd::prelude::*;

use crate::chromosome::Chromosome;
use crate::ga::GaError;
use crate::rng::SimRng;

verus! {

/// The per-gene fair-coin crossover strategy.
#[derive(Clone, Copy, Debug)]
pub struct UniformCrossover;

impl UniformCrossover {
    pub fn new() -> (r: UniformCrossover) {
        UniformCrossover
    }

    /// A child chromosome of two equal-length parents: at each index the
    /// gene of one parent or the other. Parents of different lengths are
    /// rejected.
    pub fn crossover(
        &self,
        rng: &mut SimRng,
        parent_a: &Chromosome,
        parent_b: &Chromosome,
    ) -> (r: Result<Chromosome, GaError>)
        requires
            parent_a.wf(),
            parent_b.wf(),
        ensures
            parent_a.genes@.len() == parent_b.genes@.len() ==> {
                &&& r is Ok
                &&& r->Ok_0.wf()
                &&& r->Ok_0.genes@.len() == parent_a.genes@.len()
                &&& forall|i: int|
                    0 <= i < parent_a.genes@.len() ==> #[trigger] r->Ok_0.genes@[i]
                        == parent_a.genes@[i] || r->Ok_0.genes@[i] == parent_b.genes@[i]
            },
            parent_a.genes@.len() != parent_b.genes@.len() ==> r == Err::<Chromosome, GaError>(
                GaError::MismatchedChromosomes,
            ),
    {
        let n = parent_a.genes.len();
        if parent_b.genes.len() != n {
            return Err(GaError::MismatchedChromosomes);
        }
        let mut out: Vec<i64> = Vec::new();
        let mut k: usize = 0;
        while k < n
            invariant
                k <= n,
                n == parent_a.genes.len(),
                n == parent_b.genes.len(),
                out.len() == k,
                parent_a.wf(),
                parent_b.wf(),
                forall|i: int|
                    0 <= i < k ==> #[trigger] out@[i] == parent_a.genes@[i] || out@[i]
                        == parent_b.genes@[i],
            decreases n - k,
        {
            let g = if rng.coin() {
                parent_a.genes[k]
            } else {
                parent_b.genes[k]
            };
            out.push(g);
            k += 1;
        }
        Ok(Chromosome { genes: out })
    }
}

} // verus!
