//! Mutation: with a configured chance per gene, nudge the gene by the
//! configured magnitude, the direction a fair coin's choice.

use vstd::prelude::*;

use crate::chromosome::Chromosome;
use crate::fixed::{clamped, clamp_i64, SCALE, SIGNAL_LIMIT};
use crate::rng::SimRng;

verus! {

/// The bounded-jitter mutation strategy: each gene moves by exactly
/// `coeff` (up or down) with probability `chance / SCALE`, clamped into
/// the signal range.
#[derive(Clone, Copy, Debug)]
pub struct GaussianMutation {
    /// Mutation probability per gene, in fixed point: `SCALE` is certainty.
    pub chance: i64,
    /// The magnitude a mutated gene moves by.
    pub coeff: i64,
}

impl GaussianMutation {
    /// The configuration is usable.
    pub open spec fn wf(&self) -> bool {
        &&& 0 <= self.chance <= SCALE
        &&& 0 <= self.coeff <= SIGNAL_LIMIT
    }

    pub fn new(chance: i64, coeff: i64) -> (r: GaussianMutation)
        requires
            0 <= chance <= SCALE,
            0 <= coeff <= SIGNAL_LIMIT,
        ensures
            r.chance == chance,
            r.coeff == coeff,
            r.wf(),
    {
        GaussianMutation { chance, coeff }
    }

    /// Mutate the child in place: each gene stays, or moves by exactly
    /// `coeff` up or down, clamped into the signal range.
    pub fn mutate(&self, rng: &mut SimRng, child: &mut Chromosome)
        requires
            old(child).wf(),
            self.wf(),
        ensures
            final(child).genes@.len() == old(child).genes@.len(),
            final(child).wf(),
            forall|i: int|
                0 <= i < old(child).genes@.len() ==> {
                    ||| #[trigger] final(child).genes@[i] == old(child).genes@[i]
                    ||| final(child).genes@[i] == clamped(
                        -SIGNAL_LIMIT as int,
                        old(child).genes@[i] + self.coeff,
                        SIGNAL_LIMIT as int,
                    )
                    ||| final(child).genes@[i] == clamped(
                        -SIGNAL_LIMIT as int,
                        old(child).genes@[i] - self.coeff,
                        SIGNAL_LIMIT as int,
                    )
                },
    {
        let n = child.genes.len();
        let mut out: Vec<i64> = Vec::new();
        let mut k: usize = 0;
        while k < n
            invariant
                k <= n,
                n == old(child).genes.len(),
                child.genes == old(child).genes,
                old(child).wf(),
                self.wf(),
                out.len() == k,
                forall|i: int|
                    0 <= i < k ==> {
                        ||| #[trigger] out@[i] == old(child).genes@[i]
                        ||| out@[i] == clamped(
                            -SIGNAL_LIMIT as int,
                            old(child).genes@[i] + self.coeff,
                            SIGNAL_LIMIT as int,
                        )
                        ||| out@[i] == clamped(
                            -SIGNAL_LIMIT as int,
                            old(child).genes@[i] - self.coeff,
                            SIGNAL_LIMIT as int,
                        )
                    },
                forall|i: int| 0 <= i < k ==> -SIGNAL_LIMIT <= #[trigger] out@[i] <= SIGNAL_LIMIT,
            decreases n - k,
        {
            let g = child.genes[k];
            let d = rng.next_below(1_000_000);
            let v: i64 = if d < self.chance as u64 {
                if rng.coin() {
                    clamp_i64(-SIGNAL_LIMIT, g + self.coeff, SIGNAL_LIMIT)
                } else {
                    clamp_i64(-SIGNAL_LIMIT, g - self.coeff, SIGNAL_LIMIT)
                }
            } else {
                g
            };
            out.push(v);
            k += 1;
        }
        child.genes = out;
    }
}

} // verus!
