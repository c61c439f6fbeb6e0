//! The brain: a feed-forward network shaped by the eye.
//!
//! The input layer is one neuron per photoreceptor cell, a hidden layer
//! doubles that, and the output layer carries the two control signals
//! (speed change, rotation change). The shape derives from the eye alone,
//! so flattening a brain and rebuilding it from the same eye round-trips.

use vstd::prelude::*;

use crate::chromosome::Chromosome;
use crate::eye::Eye;
use crate::nn::{
    lemma_genes_in_signal, spec_gene_count, topo_view, topology_ok, LayerTopology, Network,
    NnError,
};
use crate::rng::SimRng;

verus! {

/// The layer sizes an eye of `cells` photoreceptors demands.
pub open spec fn spec_topology(cells: usize) -> Seq<usize> {
    seq![cells, (2 * cells) as usize, 2usize]
}

/// An animal's brain.
#[derive(Clone, Debug)]
pub struct Brain {
    pub nn: Network,
}

impl Brain {
    /// The network is well formed and shaped for `eye`.
    pub open spec fn wf(&self, eye: Eye) -> bool {
        &&& self.nn.wf()
        &&& self.nn.matches_topology(spec_topology(eye.cells))
    }

    /// The shape description an eye demands, as layer sizes.
    pub fn topology(eye: &Eye) -> (r: Vec<LayerTopology>)
        requires
            eye.wf(),
        ensures
            topo_view(r@) == spec_topology(eye.cells),
            topology_ok(topo_view(r@)),
    {
        let mut v: Vec<LayerTopology> = Vec::new();
        v.push(LayerTopology { neurons: eye.cells });
        v.push(LayerTopology { neurons: 2 * eye.cells });
        v.push(LayerTopology { neurons: 2 });
        proof {
            assert(topo_view(v@) =~= spec_topology(eye.cells));
        }
        v
    }

    /// A brain of random genes, shaped for `eye`.
    pub fn random(rng: &mut SimRng, eye: &Eye) -> (r: Brain)
        requires
            eye.wf(),
        ensures
            r.wf(*eye),
            r.nn.genes_in_unit_range(),
    {
        let topology = Brain::topology(eye);
        let nn = Network::random(rng, &topology);
        Brain { nn }
    }

    /// The brain flattened to a chromosome.
    pub fn as_chromosome(&self) -> (r: Chromosome)
        requires
            self.nn.wf(),
        ensures
            r.genes@ == self.nn.genes(),
            r.wf(),
    {
        let genes = self.nn.weights();
        proof {
            lemma_genes_in_signal(self.nn.layers@);
        }
        Chromosome { genes }
    }

    /// A brain rebuilt from a chromosome, shaped for `eye`: succeeds
    /// exactly when the chromosome's length is the gene count the eye's
    /// shape demands.
    pub fn from_chromosome(chromosome: &Chromosome, eye: &Eye) -> (r: Result<Brain, NnError>)
        requires
            eye.wf(),
            chromosome.wf(),
        ensures
            chromosome.genes@.len() == spec_gene_count(spec_topology(eye.cells)) ==> {
                &&& r is Ok
                &&& r->Ok_0.wf(*eye)
                &&& r->Ok_0.nn.genes() == chromosome.genes@
            },
            chromosome.genes@.len() < spec_gene_count(spec_topology(eye.cells)) ==> r == Err::<
                Brain,
                NnError,
            >(NnError::NotEnoughWeights),
            chromosome.genes@.len() > spec_gene_count(spec_topology(eye.cells)) ==> r == Err::<
                Brain,
                NnError,
            >(NnError::TooManyWeights),
    {
        let topology = Brain::topology(eye);
        match Network::from_weights(&topology, &chromosome.genes) {
            Ok(nn) => Ok(Brain { nn }),
            Err(e) => Err(e),
        }
    }
}

} // verus!
