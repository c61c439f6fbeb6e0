//! The feed-forward neural network engine.
//!
//! A network is an ordered sequence of layers; a layer an ordered sequence
//! of neurons; a neuron a bias and one weight per input. Propagation runs
//! each layer's outputs into the next. `weights` flattens a network to its
//! gene sequence (per layer, per neuron: bias first, then each weight in
//! order) and `from_weights` rebuilds a network from a topology and such a
//! sequence; the two are exact inverses.

use vstd::prelude::*;

use crate::fixed::{all_in_signal, div_scale, div_trunc, SCALE, SIGNAL_LIMIT};
use crate::rng::SimRng;

verus! {

/// Widest layer a network may have.
pub open const MAX_WIDTH: usize = 1_000_000;

/// Most entries a topology may have.
pub open const MAX_DEPTH: usize = 1_000;

#[derive(Clone, Copy, Debug, PartialEq, Eq, Structural)]
pub enum NnError {
    /// An input vector's length differs from the receiving layer's arity.
    MismatchedInputs,
    /// The gene sequence ran out before the topology was filled.
    NotEnoughWeights,
    /// The gene sequence has elements left over after reconstruction.
    TooManyWeights,
}

/// One layer's size, when a network's shape is described.
#[derive(Clone, Copy, Debug)]
pub struct LayerTopology {
    pub neurons: usize,
}

/// A single neuron.
#[derive(Clone, Debug)]
pub struct Neuron {
    pub bias: i64,
    pub weights: Vec<i64>,
}

/// The pairwise weighted sum of `inputs` under `weights`.
pub open spec fn spec_dot(inputs: Seq<i64>, weights: Seq<i64>) -> int
    recommends
        inputs.len() == weights.len(),
    decreases weights.len(),
{
    if weights.len() == 0 {
        0
    } else {
        spec_dot(inputs.drop_last(), weights.drop_last()) + inputs.last() * weights.last()
    }
}

/// A neuron's activation on the weighted sum `d`: the bias plus the
/// scale-reduced sum, floored at zero (the ReLU) and capped at the signal
/// limit.
pub open spec fn spec_activation(bias: int, d: int) -> int {
    let s = bias + div_trunc(d, SCALE as int);
    if s <= 0 {
        0
    } else if s > SIGNAL_LIMIT {
        SIGNAL_LIMIT as int
    } else {
        s
    }
}

impl Neuron {
    /// Values within the signal range, and at least one input.
    pub open spec fn wf(&self) -> bool {
        &&& -SIGNAL_LIMIT <= self.bias <= SIGNAL_LIMIT
        &&& 1 <= self.weights.len() <= MAX_WIDTH
        &&& all_in_signal(self.weights@)
    }

    /// Every gene lies in the unit range `[-1.0, 1.0]`, as freshly drawn
    /// genes do.
    pub open spec fn genes_in_unit_range(&self) -> bool {
        &&& -SCALE <= self.bias <= SCALE
        &&& forall|i: int|
            0 <= i < self.weights@.len() ==> -SCALE <= #[trigger] self.weights@[i] <= SCALE
    }

    /// The neuron's genes: its bias, then each weight in order.
    pub open spec fn genes(&self) -> Seq<i64> {
        seq![self.bias] + self.weights@
    }

    pub fn new(bias: i64, weights: Vec<i64>) -> (r: Neuron)
        requires
            1 <= weights.len() <= MAX_WIDTH,
            -SIGNAL_LIMIT <= bias <= SIGNAL_LIMIT,
            all_in_signal(weights@),
        ensures
            r.wf(),
            r.bias == bias,
            r.weights == weights,
    {
        Neuron { bias, weights }
    }

    /// A neuron with `input_neurons` weights, bias and weights drawn
    /// uniformly from the unit range.
    pub fn random(rng: &mut SimRng, input_neurons: usize) -> (r: Neuron)
        requires
            1 <= input_neurons <= MAX_WIDTH,
        ensures
            r.wf(),
            r.weights.len() == input_neurons,
            r.genes_in_unit_range(),
    {
        let bias = rng.gene();
        let mut weights: Vec<i64> = Vec::new();
        let mut k: usize = 0;
        while k < input_neurons
            invariant
                k <= input_neurons,
                weights.len() == k,
                forall|i: int| 0 <= i < k ==> -SCALE <= #[trigger] weights@[i] <= SCALE,
            decreases input_neurons - k,
    {
        let g = rng.gene();
        weights.push(g);
        k += 1;
    }
        assert(all_in_signal(weights@));
        Neuron { bias, weights }
    }

    /// The neuron's activation on `inputs`: `max(0, bias + sum(input * weight))`
    /// in fixed point, capped at the signal limit.
    pub fn propagate(&self, inputs: &Vec<i64>) -> (r: Result<i64, NnError>)
        requires
            self.wf(),
            all_in_signal(inputs@),
        ensures
            inputs.len() == self.weights.len() ==> r == Ok::<i64, NnError>(
                spec_activation(self.bias as int, spec_dot(inputs@, self.weights@)) as i64,
            ),
            inputs.len() != self.weights.len() ==> r == Err::<i64, NnError>(
                NnError::MismatchedInputs,
            ),
            0 <= spec_activation(self.bias as int, spec_dot(inputs@, self.weights@))
                <= SIGNAL_LIMIT,
    {
        let n = self.weights.len();
        if inputs.len() != n {
            return Err(NnError::MismatchedInputs);
        }
        let mut acc: i128 = 0;
        let mut k: usize = 0;
        while k < n
            invariant
                k <= n,
                n == self.weights.len(),
                inputs.len() == n,
                self.wf(),
                all_in_signal(inputs@),
                acc == spec_dot(inputs@.take(k as int), self.weights@.take(k as int)),
                -((k as int) * 1_000_000_000_000_000_000_000_000) <= acc
                    <= (k as int) * 1_000_000_000_000_000_000_000_000,
            decreases n - k,
        {
            let a: i128 = inputs[k] as i128;
            let b: i128 = self.weights[k] as i128;
            assert(-1_000_000_000_000_000_000_000_000 <= a * b <= 1_000_000_000_000_000_000_000_000)
                by (nonlinear_arith)
                requires
                    -1_000_000_000_000 <= a <= 1_000_000_000_000,
                    -1_000_000_000_000 <= b <= 1_000_000_000_000,
            ;
            let t: i128 = a * b;
            proof {
                assert(inputs@.take(k as int + 1).drop_last() =~= inputs@.take(k as int));
                assert(self.weights@.take(k as int + 1).drop_last() =~= self.weights@.take(
                    k as int,
                ));
                assert(inputs@.take(k as int + 1).last() == inputs@[k as int]);
                assert(self.weights@.take(k as int + 1).last() == self.weights@[k as int]);
            }
            acc = acc + t;
            k += 1;
        }
        proof {
            assert(inputs@.take(n as int) =~= inputs@);
            assert(self.weights@.take(n as int) =~= self.weights@);
        }
        let q: i128 = div_scale(acc);
        let s_v: i128 = (self.bias as i128) + q;
        if s_v <= 0 {
            Ok(0)
        } else if s_v > SIGNAL_LIMIT as i128 {
            Ok(SIGNAL_LIMIT)
        } else {
            Ok(s_v as i64)
        }
    }

    /// Rebuild one neuron from the gene sequence, advancing the cursor past
    /// the bias and the `input_neurons` weights it consumes.
    pub fn from_weights(input_neurons: usize, genes: &Vec<i64>, pos: &mut usize) -> (r: Result<
        Neuron,
        NnError,
    >)
        requires
            1 <= input_neurons <= MAX_WIDTH,
            all_in_signal(genes@),
            *old(pos) <= genes.len(),
        ensures
            *old(pos) + input_neurons + 1 <= genes.len() ==> {
                &&& r is Ok
                &&& *final(pos) == *old(pos) + input_neurons + 1
                &&& r->Ok_0.wf()
                &&& r->Ok_0.weights.len() == input_neurons
                &&& r->Ok_0.genes() == genes@.subrange(*old(pos) as int, *final(pos) as int)
            },
            *old(pos) + input_neurons + 1 > genes.len() ==> r == Err::<Neuron, NnError>(
                NnError::NotEnoughWeights,
            ) && *final(pos) == *old(pos),
    {
        let n = genes.len();
        if input_neurons + 1 > n - *pos {
            return Err(NnError::NotEnoughWeights);
        }
        let ghost p0: int = *pos as int;
        let bias = genes[*pos];
        let mut weights: Vec<i64> = Vec::new();
        let mut k: usize = 0;
        while k < input_neurons
            invariant
                k <= input_neurons,
                *pos == p0,
                p0 + input_neurons + 1 <= n,
                n == genes.len(),
                all_in_signal(genes@),
                weights.len() == k,
                weights@ == genes@.subrange(p0 + 1, p0 + 1 + k as int),
            decreases input_neurons - k,
        {
            let g = genes[*pos + 1 + k];
            weights.push(g);
            proof {
                assert(genes@.subrange(p0 + 1, p0 + 1 + (k + 1) as int) =~= genes@.subrange(
                    p0 + 1,
                    p0 + 1 + k as int,
                ).push(genes@[p0 + 1 + k as int]));
            }
            k += 1;
        }
        *pos = *pos + input_neurons + 1;
        let nr = Neuron { bias, weights };
        proof {
            assert forall|i: int| 0 <= i < nr.weights@.len() implies -SIGNAL_LIMIT
                <= #[trigger] nr.weights@[i] <= SIGNAL_LIMIT by {
                assert(nr.weights@[i] == genes@[p0 + 1 + i]);
            }
            assert(nr.genes() =~= genes@.subrange(p0, p0 + 1 + input_neurons as int));
        }
        Ok(nr)
    }
}

/// A layer: neurons that share one arity and fire on the same inputs.
#[derive(Clone, Debug)]
pub struct Layer {
    pub neurons: Vec<Neuron>,
}

/// The genes of a sequence of neurons, concatenated in order.
pub open spec fn spec_neurons_genes(ns: Seq<Neuron>) -> Seq<i64>
    decreases ns.len(),
{
    if ns.len() == 0 {
        Seq::empty()
    } else {
        spec_neurons_genes(ns.drop_last()) + ns.last().genes()
    }
}

/// Each neuron's activation on the shared `inputs`, in order.
pub open spec fn spec_layer_outputs(l: Layer, inputs: Seq<i64>) -> Seq<i64> {
    Seq::new(
        l.neurons@.len(),
        |i: int|
            spec_activation(l.neurons@[i].bias as int, spec_dot(inputs, l.neurons@[i].weights@))
                as i64,
    )
}

impl Layer {
    /// The arity its neurons share: how many inputs the layer takes.
    pub open spec fn arity(&self) -> int {
        self.neurons@[0].weights.len() as int
    }

    /// Every neuron's genes lie in the unit range, as freshly drawn genes
    /// do.
    pub open spec fn genes_in_unit_range(&self) -> bool {
        forall|i: int| 0 <= i < self.neurons@.len() ==> (#[trigger] self.neurons@[i]).genes_in_unit_range()
    }

    /// At least one neuron, every neuron well formed, all of one arity.
    pub open spec fn wf(&self) -> bool {
        &&& 1 <= self.neurons.len() <= MAX_WIDTH
        &&& forall|i: int| 0 <= i < self.neurons@.len() ==> (#[trigger] self.neurons@[i]).wf()
        &&& forall|i: int|
            0 <= i < self.neurons@.len() ==> (#[trigger] self.neurons@[i]).weights@.len()
                == self.arity()
    }

    /// The layer's genes: each neuron's genes, in neuron order.
    pub open spec fn genes(&self) -> Seq<i64> {
        spec_neurons_genes(self.neurons@)
    }

    pub fn new(neurons: Vec<Neuron>) -> (r: Layer)
        requires
            1 <= neurons.len() <= MAX_WIDTH,
            forall|i: int| 0 <= i < neurons@.len() ==> (#[trigger] neurons@[i]).wf(),
            forall|i: int|
                0 <= i < neurons@.len() ==> (#[trigger] neurons@[i]).weights@.len()
                    == neurons@[0].weights@.len(),
        ensures
            r.neurons == neurons,
            r.wf(),
    {
        Layer { neurons }
    }

    /// A layer of `output_neurons` random neurons of `input_neurons` inputs
    /// each.
    pub fn random(rng: &mut SimRng, input_neurons: usize, output_neurons: usize) -> (r: Layer)
        requires
            1 <= input_neurons <= MAX_WIDTH,
            1 <= output_neurons <= MAX_WIDTH,
        ensures
            r.wf(),
            r.neurons.len() == output_neurons,
            r.arity() == input_neurons,
            r.genes_in_unit_range(),
    {
        let mut neurons: Vec<Neuron> = Vec::new();
        let mut k: usize = 0;
        while k < output_neurons
            invariant
                k <= output_neurons,
                neurons.len() == k,
                1 <= input_neurons <= MAX_WIDTH,
                forall|i: int| 0 <= i < k ==> (#[trigger] neurons@[i]).wf(),
                forall|i: int|
                    0 <= i < k ==> (#[trigger] neurons@[i]).weights@.len() == input_neurons,
                forall|i: int| 0 <= i < k ==> (#[trigger] neurons@[i]).genes_in_unit_range(),
            decreases output_neurons - k,
        {
            let nr = Neuron::random(rng, input_neurons);
            neurons.push(nr);
            k += 1;
        }
        Layer { neurons }
    }

    /// Every neuron's activation on `inputs`, in neuron order.
    pub fn propagate(&self, inputs: &Vec<i64>) -> (r: Result<Vec<i64>, NnError>)
        requires
            self.wf(),
            all_in_signal(inputs@),
        ensures
            inputs.len() == self.arity() ==> r is Ok && r->Ok_0@ == spec_layer_outputs(
                *self,
                inputs@,
            ),
            inputs.len() != self.arity() ==> r == Err::<Vec<i64>, NnError>(
                NnError::MismatchedInputs,
            ),
            r is Ok ==> all_in_signal(r->Ok_0@) && forall|i: int|
                0 <= i < r->Ok_0@.len() ==> 0 <= #[trigger] r->Ok_0@[i],
    {
        let n = self.neurons.len();
        if inputs.len() != self.neurons[0].weights.len() {
            return Err(NnError::MismatchedInputs);
        }
        let mut out: Vec<i64> = Vec::new();
        let mut k: usize = 0;
        while k < n
            invariant
                k <= n,
                n == self.neurons.len(),
                self.wf(),
                all_in_signal(inputs@),
                inputs.len() == self.arity(),
                out.len() == k,
                forall|i: int|
                    0 <= i < k ==> #[trigger] out@[i] == spec_activation(
                        self.neurons@[i].bias as int,
                        spec_dot(inputs@, self.neurons@[i].weights@),
                    ) as i64,
                forall|i: int| 0 <= i < k ==> 0 <= #[trigger] out@[i] <= SIGNAL_LIMIT,
            decreases n - k,
        {
            match self.neurons[k].propagate(inputs) {
                Ok(v) => {
                    out.push(v);
                },
                Err(e) => {
                    return Err(e);
                },
            }
            k += 1;
        }
        proof {
            assert(out@ =~= spec_layer_outputs(*self, inputs@));
        }
        Ok(out)
    }

    /// Rebuild one layer from the gene sequence, advancing the cursor past
    /// the `output_neurons * (input_neurons + 1)` genes it consumes. On
    /// failure the cursor is unchanged.
    pub fn from_weights(
        input_neurons: usize,
        output_neurons: usize,
        genes: &Vec<i64>,
        pos: &mut usize,
    ) -> (r: Result<Layer, NnError>)
        requires
            1 <= input_neurons <= MAX_WIDTH,
            1 <= output_neurons <= MAX_WIDTH,
            all_in_signal(genes@),
            *old(pos) <= genes.len(),
        ensures
            *old(pos) + output_neurons * (input_neurons + 1) <= genes.len() ==> {
                &&& r is Ok
                &&& *final(pos) == *old(pos) + output_neurons * (input_neurons + 1)
                &&& r->Ok_0.wf()
                &&& r->Ok_0.neurons.len() == output_neurons
                &&& r->Ok_0.arity() == input_neurons
                &&& r->Ok_0.genes() == genes@.subrange(*old(pos) as int, *final(pos) as int)
            },
            *old(pos) + output_neurons * (input_neurons + 1) > genes.len() ==> r == Err::<
                Layer,
                NnError,
            >(NnError::NotEnoughWeights) && *final(pos) == *old(pos),
    {
        let ghost p0: int = *pos as int;
        let ghost a1: int = input_neurons as int + 1;
        let mut p: usize = *pos;
        let mut neurons: Vec<Neuron> = Vec::new();
        let mut k: usize = 0;
        proof {
            assert(genes@.subrange(p0, p0) =~= Seq::<i64>::empty());
        }
        while k < output_neurons
            invariant
                k <= output_neurons,
                1 <= input_neurons <= MAX_WIDTH,
                1 <= output_neurons <= MAX_WIDTH,
                all_in_signal(genes@),
                a1 == input_neurons as int + 1,
                p0 == *pos,
                p == p0 + k as int * a1,
                p <= genes.len(),
                neurons.len() == k,
                forall|i: int| 0 <= i < k ==> (#[trigger] neurons@[i]).wf(),
                forall|i: int|
                    0 <= i < k ==> (#[trigger] neurons@[i]).weights@.len() == input_neurons,
                spec_neurons_genes(neurons@) == genes@.subrange(p0, p as int),
            decreases output_neurons - k,
        {
            let ghost p_before: int = p as int;
            match Neuron::from_weights(input_neurons, genes, &mut p) {
                Ok(nr) => {
                    proof {
                        assert(neurons@.push(nr).drop_last() =~= neurons@);
                        assert(genes@.subrange(p0, p_before + a1) =~= genes@.subrange(
                            p0,
                            p_before,
                        ) + genes@.subrange(p_before, p_before + a1));
                        assert(p0 + (k as int + 1) * a1 == p0 + k as int * a1 + a1)
                            by (nonlinear_arith);
                    }
                    neurons.push(nr);
                },
                Err(e) => {
                    proof {
                        assert(p_before + a1 > genes.len());
                        assert(p0 + output_neurons as int * a1 >= p_before + a1)
                            by (nonlinear_arith)
                            requires
                                p_before == p0 + k as int * a1,
                                k as int + 1 <= output_neurons as int,
                                a1 >= 1,
                        ;
                    }
                    return Err(e);
                },
            }
            k += 1;
        }
        *pos = p;
        Ok(Layer { neurons })
    }
}

/// A network: layers chained output to input.
#[derive(Clone, Debug)]
pub struct Network {
    pub layers: Vec<Layer>,
}

/// The genes of a sequence of layers, concatenated in order.
pub open spec fn spec_layers_genes(ls: Seq<Layer>) -> Seq<i64>
    decreases ls.len(),
{
    if ls.len() == 0 {
        Seq::empty()
    } else {
        spec_layers_genes(ls.drop_last()) + ls.last().genes()
    }
}

/// The outputs of `layers` run in order on `inputs`: each layer's outputs
/// are the next layer's inputs.
pub open spec fn spec_propagate(layers: Seq<Layer>, inputs: Seq<i64>) -> Seq<i64>
    decreases layers.len(),
{
    if layers.len() == 0 {
        inputs
    } else {
        spec_propagate(layers.drop_first(), spec_layer_outputs(layers.first(), inputs))
    }
}

/// The layer sizes of a shape description, as a sequence.
pub open spec fn topo_view(v: Seq<LayerTopology>) -> Seq<usize> {
    v.map_values(|t: LayerTopology| t.neurons)
}

/// A usable shape: at least an input and an output entry, every entry a
/// buildable layer size.
pub open spec fn topology_ok(topo: Seq<usize>) -> bool {
    &&& 2 <= topo.len() <= MAX_DEPTH
    &&& forall|i: int| 0 <= i < topo.len() ==> 1 <= #[trigger] topo[i] <= MAX_WIDTH
}

/// How many genes a topology demands: for each consecutive pair, one bias
/// and one weight per input for each neuron.
pub open spec fn spec_gene_count(topo: Seq<usize>) -> int
    decreases topo.len(),
{
    if topo.len() <= 1 {
        0
    } else {
        spec_gene_count(topo.drop_last()) + (topo.last() as int) * ((topo[topo.len() - 2] as int)
            + 1)
    }
}

/// A topology prefix never demands more genes than the whole.
proof fn lemma_gene_count_prefix(topo: Seq<usize>, j: int)
    requires
        0 <= j <= topo.len(),
        forall|i: int| 0 <= i < topo.len() ==> #[trigger] topo[i] >= 0,
    ensures
        spec_gene_count(topo.take(j)) <= spec_gene_count(topo),
    decreases topo.len() - j,
{
    if j == topo.len() {
        assert(topo.take(j) =~= topo);
    } else {
        lemma_gene_count_prefix(topo, j + 1);
        let t = topo.take(j + 1);
        assert(t.drop_last() =~= topo.take(j));
        if t.len() > 1 {
            assert((t.last() as int) * ((t[t.len() - 2] as int) + 1) >= 0) by (nonlinear_arith)
                requires
                    t.last() as int >= 0,
                    t[t.len() - 2] as int >= 0,
            ;
        }
    }
}

impl Network {
    /// At least one layer, each well formed, each taking the previous
    /// layer's outputs.
    pub open spec fn wf(&self) -> bool {
        &&& 1 <= self.layers.len()
        &&& forall|i: int| 0 <= i < self.layers@.len() ==> (#[trigger] self.layers@[i]).wf()
        &&& forall|i: int|
            1 <= i < self.layers@.len() ==> (#[trigger] self.layers@[i]).arity()
                == self.layers@[i - 1].neurons@.len()
    }

    /// How many inputs the network takes.
    pub open spec fn in_arity(&self) -> int {
        self.layers@[0].arity()
    }

    /// The shape `topo` describes this network: its first entry the input
    /// arity, each later entry a layer's neuron count.
    pub open spec fn matches_topology(&self, topo: Seq<usize>) -> bool {
        &&& self.layers@.len() + 1 == topo.len()
        &&& forall|i: int|
            0 <= i < self.layers@.len() ==> (#[trigger] self.layers@[i]).arity() == topo[i]
        &&& forall|i: int|
            0 <= i < self.layers@.len() ==> (#[trigger] self.layers@[i]).neurons@.len() == topo[i
                + 1]
    }

    /// The network's genes: each layer's genes, in layer order.
    pub open spec fn genes(&self) -> Seq<i64> {
        spec_layers_genes(self.layers@)
    }

    /// Every gene lies in the unit range, as freshly drawn genes do.
    pub open spec fn genes_in_unit_range(&self) -> bool {
        forall|i: int| 0 <= i < self.layers@.len() ==> (#[trigger] self.layers@[i]).genes_in_unit_range()
    }

    pub fn new(layers: Vec<Layer>) -> (r: Network)
        requires
            1 <= layers.len(),
            forall|i: int| 0 <= i < layers@.len() ==> (#[trigger] layers@[i]).wf(),
            forall|i: int|
                1 <= i < layers@.len() ==> (#[trigger] layers@[i]).arity() == layers@[i
                    - 1].neurons@.len(),
        ensures
            r.layers == layers,
            r.wf(),
    {
        Network { layers }
    }

    /// A random network of the given shape: one layer per consecutive pair
    /// of topology entries, genes drawn uniformly from the unit range.
    pub fn random(rng: &mut SimRng, layers: &Vec<LayerTopology>) -> (r: Network)
        requires
            topology_ok(topo_view(layers@)),
        ensures
            r.wf(),
            r.matches_topology(topo_view(layers@)),
            r.genes_in_unit_range(),
    {
        let ghost tv: Seq<usize> = topo_view(layers@);
        let mut built: Vec<Layer> = Vec::new();
        let mut li: usize = 1;
        while li < layers.len()
            invariant
                1 <= li <= layers.len(),
                topology_ok(tv),
                tv == topo_view(layers@),
                built.len() == li - 1,
                forall|i: int| 0 <= i < built@.len() ==> (#[trigger] built@[i]).wf(),
                forall|i: int| 0 <= i < built@.len() ==> (#[trigger] built@[i]).arity() == tv[i],
                forall|i: int|
                    0 <= i < built@.len() ==> (#[trigger] built@[i]).neurons@.len() == tv[i + 1],
                forall|i: int| 0 <= i < built@.len() ==> (#[trigger] built@[i]).genes_in_unit_range(),
            decreases layers.len() - li,
        {
            assert(tv[li as int] == layers@[li as int].neurons);
            assert(tv[li as int - 1] == layers@[li as int - 1].neurons);
            let l = Layer::random(rng, layers[li - 1].neurons, layers[li].neurons);
            built.push(l);
            li += 1;
        }
        Network { layers: built }
    }

    /// The network's outputs on `inputs`.
    pub fn propagate(&self, inputs: Vec<i64>) -> (r: Result<Vec<i64>, NnError>)
        requires
            self.wf(),
            all_in_signal(inputs@),
        ensures
            inputs.len() == self.in_arity() ==> r is Ok && r->Ok_0@ == spec_propagate(
                self.layers@,
                inputs@,
            ),
            inputs.len() != self.in_arity() ==> r == Err::<Vec<i64>, NnError>(
                NnError::MismatchedInputs,
            ),
            r is Ok ==> all_in_signal(r->Ok_0@) && r->Ok_0@.len() == self.layers@.last().neurons@.len(),
    {
        if inputs.len() != self.layers[0].neurons[0].weights.len() {
            return Err(NnError::MismatchedInputs);
        }
        let n = self.layers.len();
        let mut cur = inputs;
        let ghost start: Seq<i64> = cur@;
        let mut li: usize = 0;
        proof {
            assert(self.layers@.skip(0) =~= self.layers@);
        }
        while li < n
            invariant
                li <= n,
                n == self.layers.len(),
                self.wf(),
                all_in_signal(cur@),
                spec_propagate(self.layers@, start) == spec_propagate(
                    self.layers@.skip(li as int),
                    cur@,
                ),
                li < n ==> cur.len() == self.layers@[li as int].arity(),
                li == n ==> cur.len() == self.layers@.last().neurons@.len(),
            decreases n - li,
        {
            let ghost before: Seq<i64> = cur@;
            match self.layers[li].propagate(&cur) {
                Ok(v) => {
                    cur = v;
                },
                Err(e) => {
                    return Err(e);
                },
            }
            proof {
                let ls = self.layers@.skip(li as int);
                assert(ls.first() == self.layers@[li as int]);
                assert(ls.drop_first() =~= self.layers@.skip(li as int + 1));
                assert(spec_propagate(ls, before) == spec_propagate(
                    self.layers@.skip(li as int + 1),
                    spec_layer_outputs(self.layers@[li as int], before),
                ));
            }
            li += 1;
        }
        proof {
            assert(self.layers@.skip(n as int) =~= Seq::<Layer>::empty());
        }
        Ok(cur)
    }

    /// The network flattened to its gene sequence: for each layer, for each
    /// neuron, the bias first, then each weight in order.
    pub fn weights(&self) -> (r: Vec<i64>)
        ensures
            r@ == self.genes(),
    {
        let mut out: Vec<i64> = Vec::new();
        let n = self.layers.len();
        let mut li: usize = 0;
        while li < n
            invariant
                li <= n,
                n == self.layers.len(),
                out@ == spec_layers_genes(self.layers@.take(li as int)),
            decreases n - li,
        {
            let ghost outer_before: Seq<i64> = out@;
            let layer = &self.layers[li];
            let m = layer.neurons.len();
            let mut ni: usize = 0;
            while ni < m
                invariant
                    ni <= m,
                    m == layer.neurons.len(),
                    layer == self.layers@[li as int],
                    out@ == outer_before + spec_neurons_genes(layer.neurons@.take(ni as int)),
                decreases m - ni,
            {
                let ghost inner_before: Seq<i64> = out@;
                let neuron = &layer.neurons[ni];
                out.push(neuron.bias);
                let w = neuron.weights.len();
                let mut wi: usize = 0;
                while wi < w
                    invariant
                        wi <= w,
                        w == neuron.weights.len(),
                        neuron == layer.neurons@[ni as int],
                        out@ == inner_before + seq![neuron.bias] + neuron.weights@.take(wi as int),
                    decreases w - wi,
                {
                    out.push(neuron.weights[wi]);
                    proof {
                        assert(neuron.weights@.take(wi as int + 1) =~= neuron.weights@.take(
                            wi as int,
                        ).push(neuron.weights@[wi as int]));
                    }
                    wi += 1;
                }
                proof {
                    assert(neuron.weights@.take(w as int) =~= neuron.weights@);
                    assert(layer.neurons@.take(ni as int + 1).drop_last() =~= layer.neurons@.take(
                        ni as int,
                    ));
                    assert(inner_before + seq![neuron.bias] + neuron.weights@ =~= outer_before
                        + spec_neurons_genes(layer.neurons@.take(ni as int + 1)));
                }
                ni += 1;
            }
            proof {
                assert(layer.neurons@.take(m as int) =~= layer.neurons@);
                assert(self.layers@.take(li as int + 1).drop_last() =~= self.layers@.take(
                    li as int,
                ));
            }
            li += 1;
        }
        proof {
            assert(self.layers@.take(n as int) =~= self.layers@);
        }
        out
    }

    /// Rebuild a network of the given shape from its gene sequence: the
    /// exact inverse of [`Network::weights`]. Fails when the sequence runs
    /// out early or has genes left over.
    pub fn from_weights(layers: &Vec<LayerTopology>, genes: &Vec<i64>) -> (r: Result<
        Network,
        NnError,
    >)
        requires
            topology_ok(topo_view(layers@)),
            all_in_signal(genes@),
        ensures
            genes.len() == spec_gene_count(topo_view(layers@)) ==> {
                &&& r is Ok
                &&& r->Ok_0.wf()
                &&& r->Ok_0.matches_topology(topo_view(layers@))
                &&& r->Ok_0.genes() == genes@
            },
            genes.len() < spec_gene_count(topo_view(layers@)) ==> r == Err::<Network, NnError>(
                NnError::NotEnoughWeights,
            ),
            genes.len() > spec_gene_count(topo_view(layers@)) ==> r == Err::<Network, NnError>(
                NnError::TooManyWeights,
            ),
    {
        let ghost tv: Seq<usize> = topo_view(layers@);
        let n = layers.len();
        // First pass: how many genes this shape demands.
        let mut cnt: u64 = 0;
        let mut li: usize = 1;
        while li < n
            invariant
                1 <= li <= n,
                n == layers.len(),
                tv == topo_view(layers@),
                topology_ok(tv),
                cnt == spec_gene_count(tv.take(li as int)),
                cnt <= (li as int - 1) * 1_000_001_000_000,
            decreases n - li,
        {
            assert(tv[li as int] == layers@[li as int].neurons);
            assert(tv[li as int - 1] == layers@[li as int - 1].neurons);
            let o: u64 = layers[li].neurons as u64;
            let a: u64 = layers[li - 1].neurons as u64;
            assert(o * (a + 1) <= 1_000_001_000_000) by (nonlinear_arith)
                requires
                    o <= 1_000_000,
                    a <= 1_000_000,
            ;
            let term: u64 = o * (a + 1);
            proof {
                assert(tv.take(li as int + 1).drop_last() =~= tv.take(li as int));
            }
            cnt = cnt + term;
            li += 1;
        }
        proof {
            assert(tv.take(n as int) =~= tv);
        }
        if (genes.len() as u64) < cnt {
            return Err(NnError::NotEnoughWeights);
        }
        if (genes.len() as u64) > cnt {
            return Err(NnError::TooManyWeights);
        }
        // Second pass: build the layers, consuming the genes in order.
        let mut pos: usize = 0;
        let mut built: Vec<Layer> = Vec::new();
        let mut li: usize = 1;
        proof {
            assert(genes@.subrange(0, 0) =~= Seq::<i64>::empty());
        }
        while li < n
            invariant
                1 <= li <= n,
                n == layers.len(),
                tv == topo_view(layers@),
                topology_ok(tv),
                all_in_signal(genes@),
                genes.len() == spec_gene_count(tv),
                pos == spec_gene_count(tv.take(li as int)),
                pos <= genes.len(),
                built.len() == li - 1,
                forall|i: int| 0 <= i < built@.len() ==> (#[trigger] built@[i]).wf(),
                forall|i: int| 0 <= i < built@.len() ==> (#[trigger] built@[i]).arity() == tv[i],
                forall|i: int|
                    0 <= i < built@.len() ==> (#[trigger] built@[i]).neurons@.len() == tv[i + 1],
                spec_layers_genes(built@) == genes@.subrange(0, pos as int),
            decreases n - li,
        {
            assert(tv[li as int] == layers@[li as int].neurons);
            assert(tv[li as int - 1] == layers@[li as int - 1].neurons);
            proof {
                lemma_gene_count_prefix(tv, li as int + 1);
                assert(tv.take(li as int + 1).drop_last() =~= tv.take(li as int));
            }
            let ghost p_before: int = pos as int;
            let out = layers[li].neurons;
            let ar = layers[li - 1].neurons;
            match Layer::from_weights(ar, out, genes, &mut pos) {
                Ok(l) => {
                    proof {
                        assert(built@.push(l).drop_last() =~= built@);
                        assert(genes@.subrange(0, pos as int) =~= genes@.subrange(0, p_before)
                            + genes@.subrange(p_before, pos as int));
                    }
                    built.push(l);
                },
                Err(e) => {
                    // The count pass showed every layer's genes are present.
                    return Err(e);
                },
            }
            li += 1;
        }
        proof {
            assert(tv.take(n as int) =~= tv);
            assert(genes@.subrange(0, genes.len() as int) =~= genes@);
        }
        Ok(Network { layers: built })
    }
}

/// Every gene of a well-formed network lies in the signal range.
pub proof fn lemma_genes_in_signal(ls: Seq<Layer>)
    requires
        forall|i: int| 0 <= i < ls.len() ==> (#[trigger] ls[i]).wf(),
    ensures
        all_in_signal(spec_layers_genes(ls)),
    decreases ls.len(),
{
    if ls.len() > 0 {
        lemma_genes_in_signal(ls.drop_last());
        lemma_layer_genes_in_signal(ls.last().neurons@);
    }
}

proof fn lemma_layer_genes_in_signal(ns: Seq<Neuron>)
    requires
        forall|i: int| 0 <= i < ns.len() ==> (#[trigger] ns[i]).wf(),
    ensures
        all_in_signal(spec_neurons_genes(ns)),
    decreases ns.len(),
{
    if ns.len() > 0 {
        lemma_layer_genes_in_signal(ns.drop_last());
    }
}

proof fn lemma_neurons_genes_len(ns: Seq<Neuron>, a: int)
    requires
        forall|i: int| 0 <= i < ns.len() ==> (#[trigger] ns[i]).weights@.len() == a,
    ensures
        spec_neurons_genes(ns).len() == ns.len() * (a + 1),
    decreases ns.len(),
{
    if ns.len() == 0 {
    } else {
        lemma_neurons_genes_len(ns.drop_last(), a);
        assert((ns.len() - 1) * (a + 1) + (a + 1) == ns.len() as int * (a + 1))
            by (nonlinear_arith);
    }
}

/// Round trip, length half: a network shaped like `topo` flattens to
/// exactly the gene count `topo` demands, so `from_weights(topo, weights())`
/// is owed success.
pub proof fn lemma_genes_len(layers: Seq<Layer>, topo: Seq<usize>)
    requires
        layers.len() + 1 == topo.len(),
        forall|i: int| 0 <= i < layers.len() ==> (#[trigger] layers[i]).wf(),
        forall|i: int| 0 <= i < layers.len() ==> (#[trigger] layers[i]).arity() == topo[i],
        forall|i: int|
            0 <= i < layers.len() ==> (#[trigger] layers[i]).neurons@.len() == topo[i + 1],
    ensures
        spec_layers_genes(layers).len() == spec_gene_count(topo),
    decreases layers.len(),
{
    if layers.len() == 0 {
    } else {
        lemma_genes_len(layers.drop_last(), topo.drop_last());
        let l = layers.last();
        lemma_neurons_genes_len(l.neurons@, l.arity());
        assert(topo.last() == topo[layers.len() as int]);
        assert(topo[topo.len() - 2] == topo[layers.len() - 1]);
    }
}

proof fn lemma_seq_concat_cancel<T>(x: Seq<T>, y: Seq<T>, u: Seq<T>, v: Seq<T>)
    requires
        x + y == u + v,
        x.len() == u.len(),
    ensures
        x == u,
        y == v,
{
    assert(x =~= (x + y).subrange(0, x.len() as int));
    assert(u =~= (u + v).subrange(0, u.len() as int));
    assert(y =~= (x + y).subrange(x.len() as int, (x + y).len() as int));
    assert(v =~= (u + v).subrange(u.len() as int, (u + v).len() as int));
}

proof fn lemma_neurons_genes_inj(ns: Seq<Neuron>, ms: Seq<Neuron>, a: int)
    requires
        ns.len() == ms.len(),
        forall|i: int| 0 <= i < ns.len() ==> (#[trigger] ns[i]).weights@.len() == a,
        forall|i: int| 0 <= i < ms.len() ==> (#[trigger] ms[i]).weights@.len() == a,
        spec_neurons_genes(ns) == spec_neurons_genes(ms),
    ensures
        forall|i: int|
            0 <= i < ns.len() ==> (#[trigger] ns[i]).bias == ms[i].bias && ns[i].weights@
                == ms[i].weights@,
    decreases ns.len(),
{
    if ns.len() > 0 {
        let gn = ns.last().genes();
        let gm = ms.last().genes();
        assert(gn.len() == a + 1);
        assert(gm.len() == a + 1);
        lemma_neurons_genes_len(ns, a);
        lemma_neurons_genes_len(ms, a);
        lemma_seq_concat_cancel(
            spec_neurons_genes(ns.drop_last()),
            gn,
            spec_neurons_genes(ms.drop_last()),
            gm,
        );
        lemma_neurons_genes_inj(ns.drop_last(), ms.drop_last(), a);
        assert(ns.last().bias == gn[0]);
        assert(ms.last().bias == gm[0]);
        assert(ns.last().weights@ =~= gn.subrange(1, a + 1));
        assert(ms.last().weights@ =~= gm.subrange(1, a + 1));
        assert forall|i: int|
            0 <= i < ns.len() implies (#[trigger] ns[i]).bias == ms[i].bias && ns[i].weights@
            == ms[i].weights@ by {
            if i < ns.len() - 1 {
                assert(ns.drop_last()[i] == ns[i]);
                assert(ms.drop_last()[i] == ms[i]);
            }
        }
    }
}

proof fn lemma_layers_genes_inj(las: Seq<Layer>, lbs: Seq<Layer>, topo: Seq<usize>)
    requires
        las.len() + 1 == topo.len(),
        lbs.len() + 1 == topo.len(),
        forall|i: int| 0 <= i < las.len() ==> (#[trigger] las[i]).wf(),
        forall|i: int| 0 <= i < lbs.len() ==> (#[trigger] lbs[i]).wf(),
        forall|i: int| 0 <= i < las.len() ==> (#[trigger] las[i]).arity() == topo[i],
        forall|i: int| 0 <= i < lbs.len() ==> (#[trigger] lbs[i]).arity() == topo[i],
        forall|i: int| 0 <= i < las.len() ==> (#[trigger] las[i]).neurons@.len() == topo[i + 1],
        forall|i: int| 0 <= i < lbs.len() ==> (#[trigger] lbs[i]).neurons@.len() == topo[i + 1],
        spec_layers_genes(las) == spec_layers_genes(lbs),
    ensures
        forall|i: int, j: int|
            0 <= i < las.len() && 0 <= j < las[i].neurons@.len()
                ==> #[trigger] las[i].neurons@[j].bias == lbs[i].neurons@[j].bias
                && las[i].neurons@[j].weights@ == lbs[i].neurons@[j].weights@,
    decreases las.len(),
{
    if las.len() > 0 {
        let la = las.last();
        let lb = lbs.last();
        let a = la.arity();
        assert(la.arity() == topo[las.len() - 1]);
        assert(lb.arity() == topo[lbs.len() - 1]);
        assert(la.neurons@.len() == topo[las.len() as int]);
        assert(lb.neurons@.len() == topo[lbs.len() as int]);
        lemma_neurons_genes_len(la.neurons@, a);
        lemma_neurons_genes_len(lb.neurons@, a);
        assert(spec_layers_genes(las) == spec_layers_genes(las.drop_last()) + la.genes());
        assert(spec_layers_genes(lbs) == spec_layers_genes(lbs.drop_last()) + lb.genes());
        assert(la.genes().len() == la.neurons@.len() * (a + 1));
        assert(lb.genes().len() == lb.neurons@.len() * (a + 1));
        lemma_seq_concat_cancel(
            spec_layers_genes(las.drop_last()),
            la.genes(),
            spec_layers_genes(lbs.drop_last()),
            lb.genes(),
        );
        lemma_layers_genes_inj(las.drop_last(), lbs.drop_last(), topo.drop_last());
        lemma_neurons_genes_inj(la.neurons@, lb.neurons@, a);
        assert forall|i: int, j: int|
            0 <= i < las.len() && 0 <= j < las[i].neurons@.len()
                implies #[trigger] las[i].neurons@[j].bias == lbs[i].neurons@[j].bias
            && las[i].neurons@[j].weights@ == lbs[i].neurons@[j].weights@ by {
            if i < las.len() - 1 {
                assert(las.drop_last()[i] == las[i]);
                assert(lbs.drop_last()[i] == lbs[i]);
            }
        }
    }
}

/// Round trip, uniqueness half: two well-formed networks of one topology
/// with equal gene sequences agree neuron for neuron, so rebuilding from a
/// network's flattened weights reproduces that network.
pub proof fn lemma_genes_determine_network(a: Network, b: Network, topo: Seq<usize>)
    requires
        a.wf(),
        b.wf(),
        a.matches_topology(topo),
        b.matches_topology(topo),
        a.genes() == b.genes(),
    ensures
        a.layers@.len() == b.layers@.len(),
        forall|i: int|
            0 <= i < a.layers@.len() ==> #[trigger] a.layers@[i].neurons@.len()
                == b.layers@[i].neurons@.len(),
        forall|i: int, j: int|
            0 <= i < a.layers@.len() && 0 <= j < a.layers@[i].neurons@.len()
                ==> #[trigger] a.layers@[i].neurons@[j].bias == b.layers@[i].neurons@[j].bias
                && a.layers@[i].neurons@[j].weights@ == b.layers@[i].neurons@[j].weights@,
{
    lemma_layers_genes_inj(a.layers@, b.layers@, topo);
}

} // verus!
