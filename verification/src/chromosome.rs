//! The genotype: a flat ordered sequence of genes.
//!
//! A chromosome carries one network's flattened weights and biases. Its
//! length is fixed by the network's topology; reconstruction checks the
//! length exactly.

use vstd::prelude::*;

use crate::fixed::{all_in_signal, clamped, SIGNAL_LIMIT};

verus! {

/// A flat ordered sequence of fixed-point genes.
#[derive(Clone, Debug, PartialEq)]
pub struct Chromosome {
    pub genes: Vec<i64>,
}

impl Chromosome {
    /// Every gene lies in the signal range.
    pub open spec fn wf(&self) -> bool {
        all_in_signal(self.genes@)
    }

    /// Wrap a gene sequence, clamping each gene into the signal range; a
    /// sequence already in range is kept as it is.
    pub fn new(genes: Vec<i64>) -> (r: Chromosome)
        ensures
            r.genes@.len() == genes@.len(),
            forall|i: int|
                0 <= i < genes@.len() ==> #[trigger] r.genes@[i] == clamped(
                    -SIGNAL_LIMIT as int,
                    genes@[i] as int,
                    SIGNAL_LIMIT as int,
                ),
            r.wf(),
            all_in_signal(genes@) ==> r.genes@ == genes@,
    {
        let n = genes.len();
        let mut out: Vec<i64> = Vec::new();
        let mut k: usize = 0;
        while k < n
            invariant
                k <= n,
                n == genes.len(),
                out.len() == k,
                forall|i: int|
                    0 <= i < k ==> #[trigger] out@[i] == clamped(
                        -SIGNAL_LIMIT as int,
                        genes@[i] as int,
                        SIGNAL_LIMIT as int,
                    ),
            decreases n - k,
        {
            let g = genes[k];
            let c = if g < -SIGNAL_LIMIT {
                -SIGNAL_LIMIT
            } else if g > SIGNAL_LIMIT {
                SIGNAL_LIMIT
            } else {
                g
            };
            out.push(c);
            k += 1;
        }
        let r = Chromosome { genes: out };
        proof {
            if all_in_signal(genes@) {
                assert(r.genes@ =~= genes@);
            }
        }
        r
    }

    /// How many genes the chromosome holds.
    pub fn len(&self) -> (r: usize)
        ensures
            r == self.genes@.len(),
    {
        self.genes.len()
    }

    /// The gene at `index`.
    pub fn gene(&self, index: usize) -> (r: i64)
        requires
            index < self.genes@.len(),
        ensures
            r == self.genes@[index as int],
    {
        self.genes[index]
    }
}

} // verus!
