//! A Network: an ordered stack of layers realizing a vector-to-vector map.

use crate::errors::TrainError;
use crate::fx::{add_fx, fx_add, fx_mul, fx_sub, lemma_square_nonneg, mul_fx, sub_fx, FX_ONE};
use crate::layer::{layer_in_unit, layer_mutated, layer_out, layer_wf, Layer, LayerV};
use crate::types::{dataset_view, Dataset, Inputs, NetworkConfig, Outputs};
use vstd::arithmetic::div_mod::{
    lemma_div_nonincreasing, lemma_div_of0, lemma_div_pos_is_pos, lemma_small_div_converse,
};
use vstd::prelude::*;

verus! {

/// Hidden layers followed by exactly one output layer.
#[derive(Debug)]
pub struct Network {
    pub hidden_layers: Vec<Layer>,
    pub output_layer: Layer,
}

/// The mathematical shadow of a `Network`.
#[verifier::ext_equal]
pub ghost struct NetworkV {
    pub hidden: Seq<LayerV>,
    pub output: LayerV,
}

impl View for Network {
    type V = NetworkV;

    open spec fn view(&self) -> NetworkV {
        NetworkV {
            hidden: self.hidden_layers@.map_values(|l: Layer| l@),
            output: self.output_layer@,
        }
    }
}

/// The network's declared input size: the input width of its first layer.
pub open spec fn net_input_size(n: NetworkV) -> int {
    if n.hidden.len() == 0 {
        n.output.input_size
    } else {
        n.hidden[0].input_size
    }
}

/// The network's declared output size: the width of its output layer.
pub open spec fn net_output_size(n: NetworkV) -> int {
    n.output.neurons.len() as int
}

/// The layers chain: each layer's input width is the width of the layer
/// before it.
pub open spec fn layers_chain(hidden: Seq<LayerV>, output: LayerV) -> bool {
    &&& forall|i: int|
        1 <= i < hidden.len() ==> (#[trigger] hidden[i]).input_size == hidden[i - 1].neurons.len()
    &&& hidden.len() > 0 ==> output.input_size == hidden.last().neurons.len()
}

/// Well-formedness: every layer is well formed and consecutive layers chain.
pub open spec fn net_wf(n: NetworkV) -> bool {
    &&& forall|i: int| 0 <= i < n.hidden.len() ==> layer_wf(#[trigger] n.hidden[i])
    &&& layer_wf(n.output)
    &&& layers_chain(n.hidden, n.output)
}

/// The input vector folded through a stack of hidden layers in declared
/// order: each layer's output becomes the next layer's input.
pub open spec fn hidden_out(layers: Seq<LayerV>, xs: Seq<i64>) -> Seq<i64>
    decreases layers.len(),
{
    if layers.len() == 0 {
        xs
    } else {
        layer_out(layers.last(), hidden_out(layers.drop_last(), xs))
    }
}

/// What a network computes: the input folded through the hidden layers,
/// then through the output layer. A pure function of the network and the
/// inputs alone.
pub open spec fn net_out(n: NetworkV, xs: Seq<i64>) -> Seq<i64> {
    layer_out(n.output, hidden_out(n.hidden, xs))
}

/// The forward pass is deterministic: two results of `net_out` on the same
/// network and the same input are the same value. There is no hidden
/// randomness in forward propagation.
pub proof fn lemma_forward_deterministic(n: NetworkV, xs: Seq<i64>, r1: Seq<i64>, r2: Seq<i64>)
    requires
        r1 == net_out(n, xs),
        r2 == net_out(n, xs),
    ensures
        r1 == r2,
{
}

/// How a mutated network relates to its parent: every hidden layer and the
/// output layer mutated from its counterpart.
pub open spec fn network_mutated(parent: NetworkV, child: NetworkV, rate: i64) -> bool {
    &&& child.hidden.len() == parent.hidden.len()
    &&& forall|i: int|
        0 <= i < parent.hidden.len() ==> layer_mutated(
            parent.hidden[i],
            #[trigger] child.hidden[i],
            rate,
        )
    &&& layer_mutated(parent.output, child.output, rate)
}

/// Shape preservation under mutation: a mutated network has the same layer
/// count, the same per-layer width, the same input and output sizes as its
/// parent, and stays well formed.
pub proof fn lemma_mutation_preserves_shape(parent: NetworkV, child: NetworkV, rate: i64)
    requires
        network_mutated(parent, child, rate),
    ensures
        child.hidden.len() == parent.hidden.len(),
        forall|i: int|
            0 <= i < parent.hidden.len() ==> (#[trigger] child.hidden[i]).neurons.len()
                == parent.hidden[i].neurons.len(),
        net_input_size(child) == net_input_size(parent),
        net_output_size(child) == net_output_size(parent),
        net_wf(parent) ==> net_wf(child),
{
    assert forall|i: int| 0 <= i < parent.hidden.len() implies (#[trigger] child.hidden[i]).neurons.len()
        == parent.hidden[i].neurons.len() by {
        assert(layer_mutated(parent.hidden[i], child.hidden[i], rate));
    }
    if net_wf(parent) {
        assert forall|i: int| 0 <= i < child.hidden.len() implies layer_wf(#[trigger] child.hidden[i]) by {
            assert(layer_mutated(parent.hidden[i], child.hidden[i], rate));
            assert(layer_wf(parent.hidden[i]));
            assert forall|k: int| 0 <= k < child.hidden[i].neurons.len() implies (#[trigger] child.hidden[i].neurons[k]).weights.len()
                == child.hidden[i].input_size by {
                assert(parent.hidden[i].neurons[k].weights.len() == parent.hidden[i].input_size);
            }
        }
        assert forall|k: int| 0 <= k < child.output.neurons.len() implies (#[trigger] child.output.neurons[k]).weights.len()
            == child.output.input_size by {
            assert(parent.output.neurons[k].weights.len() == parent.output.input_size);
        }
    }
}

/// The per-sample cost: the sum over output dimensions of the squared
/// difference between the expected and the actual value, with saturating
/// fixed-point arithmetic.
pub open spec fn cost_of(expected: Seq<i64>, actual: Seq<i64>) -> i64
    recommends
        expected.len() == actual.len(),
    decreases expected.len(),
{
    if expected.len() == 0 {
        0
    } else {
        fx_add(
            cost_of(expected.drop_last(), actual.drop_last()),
            fx_mul(
                fx_sub(expected.last(), actual.last()),
                fx_sub(expected.last(), actual.last()),
            ),
        )
    }
}

/// A cost is never negative.
pub proof fn lemma_cost_nonneg(expected: Seq<i64>, actual: Seq<i64>)
    ensures
        0 <= cost_of(expected, actual),
    decreases expected.len(),
{
    if expected.len() > 0 {
        lemma_cost_nonneg(expected.drop_last(), actual.drop_last());
        lemma_square_nonneg(fx_sub(expected.last(), actual.last()));
    }
}

/// The cost of an exact fit is exactly zero.
pub proof fn lemma_cost_exact_fit(expected: Seq<i64>, actual: Seq<i64>)
    requires
        expected == actual,
    ensures
        cost_of(expected, actual) == 0,
    decreases expected.len(),
{
    if expected.len() > 0 {
        lemma_cost_exact_fit(expected.drop_last(), actual.drop_last());
        lemma_div_of0(FX_ONE as int);
        assert(fx_sub(expected.last(), actual.last()) == 0);
        assert(fx_mul(0, 0) == 0);
    }
}

/// What a zero cost certifies. The exact converse of "an exact fit costs
/// zero" does not hold in fixed point: an error of a single unit squares
/// to less than one unit and rescales to a zero square. A zero cost does
/// bound every output error strictly below 256 units, i.e. below 2^-8.
pub proof fn lemma_zero_cost_bounds_error(expected: Seq<i64>, actual: Seq<i64>)
    requires
        expected.len() == actual.len(),
        cost_of(expected, actual) == 0,
    ensures
        forall|j: int|
            0 <= j < expected.len() ==> -256 < #[trigger] expected[j] - actual[j] < 256,
    decreases expected.len(),
{
    if expected.len() > 0 {
        let e = expected.last();
        let a = actual.last();
        let d = fx_sub(e, a);
        lemma_cost_nonneg(expected.drop_last(), actual.drop_last());
        lemma_square_nonneg(d);
        assert(fx_mul(d, d) == 0);
        assert(0 <= d * d) by (nonlinear_arith);
        lemma_div_pos_is_pos(d * d, FX_ONE as int);
        assert((d * d) / (FX_ONE as int) == 0);
        assert(d * d < FX_ONE) by {
            lemma_small_div_converse(d * d, FX_ONE as int);
        }
        assert(-256 < d < 256) by (nonlinear_arith)
            requires
                d * d < 65536,
        ;
        assert(-256 < e - a < 256);
        lemma_zero_cost_bounds_error(expected.drop_last(), actual.drop_last());
        assert forall|j: int| 0 <= j < expected.len() implies -256 < #[trigger] expected[j] - actual[j]
            < 256 by {
            if j < expected.len() - 1 {
                assert(expected.drop_last()[j] == expected[j]);
                assert(actual.drop_last()[j] == actual[j]);
            }
        }
    }
}

/// Over a single sample the mean is the sample's own cost, so there a
/// zero fitness certifies a zero cost.
pub proof fn lemma_single_sample_fitness(n: NetworkV, ds: Seq<(Seq<i64>, Seq<i64>)>)
    requires
        ds.len() == 1,
    ensures
        fitness_of(n, ds) == cost_of(ds[0].1, net_out(n, ds[0].0)),
{
    let c = cost_of(ds[0].1, net_out(n, ds[0].0));
    lemma_cost_nonneg(ds[0].1, net_out(n, ds[0].0));
    assert(ds.last() == ds[0]);
    assert(total_cost(n, ds) == fx_add(total_cost(n, ds.drop_last()), c));
    assert(total_cost(n, ds) == c);
    vstd::arithmetic::div_mod::lemma_div_basics(c as int);
}

/// A zero summed cost certifies a zero cost on every single sample.
pub proof fn lemma_zero_total_cost_is_pointwise(n: NetworkV, ds: Seq<(Seq<i64>, Seq<i64>)>)
    requires
        total_cost(n, ds) == 0,
    ensures
        forall|k: int|
            0 <= k < ds.len() ==> cost_of((#[trigger] ds[k]).1, net_out(n, ds[k].0)) == 0,
    decreases ds.len(),
{
    if ds.len() > 0 {
        lemma_total_cost_nonneg(n, ds.drop_last());
        lemma_cost_nonneg(ds.last().1, net_out(n, ds.last().0));
        lemma_zero_total_cost_is_pointwise(n, ds.drop_last());
        assert forall|k: int| 0 <= k < ds.len() implies cost_of(
            (#[trigger] ds[k]).1,
            net_out(n, ds[k].0),
        ) == 0 by {
            if k < ds.len() - 1 {
                assert(ds.drop_last()[k] == ds[k]);
            }
        }
    }
}

/// The summed cost of a network over a dataset, in sample order.
pub open spec fn total_cost(n: NetworkV, ds: Seq<(Seq<i64>, Seq<i64>)>) -> i64
    decreases ds.len(),
{
    if ds.len() == 0 {
        0
    } else {
        fx_add(total_cost(n, ds.drop_last()), cost_of(ds.last().1, net_out(n, ds.last().0)))
    }
}

/// A summed cost is never negative.
pub proof fn lemma_total_cost_nonneg(n: NetworkV, ds: Seq<(Seq<i64>, Seq<i64>)>)
    ensures
        0 <= total_cost(n, ds),
    decreases ds.len(),
{
    if ds.len() > 0 {
        lemma_total_cost_nonneg(n, ds.drop_last());
        lemma_cost_nonneg(ds.last().1, net_out(n, ds.last().0));
    }
}

/// The fitness of a network against a non-empty dataset: the mean over all
/// samples of the per-sample cost. Lower is better; this is an error
/// magnitude, not a reward.
pub open spec fn fitness_of(n: NetworkV, ds: Seq<(Seq<i64>, Seq<i64>)>) -> i64
    recommends
        ds.len() > 0,
{
    ((total_cost(n, ds) as int) / (ds.len() as int)) as i64
}

/// A fitness is never negative.
pub proof fn lemma_fitness_nonneg(n: NetworkV, ds: Seq<(Seq<i64>, Seq<i64>)>)
    requires
        ds.len() > 0,
    ensures
        0 <= fitness_of(n, ds),
        fitness_of(n, ds) <= total_cost(n, ds),
{
    lemma_total_cost_nonneg(n, ds);
    lemma_div_pos_is_pos(total_cost(n, ds) as int, ds.len() as int);
    lemma_div_nonincreasing(total_cost(n, ds) as int, ds.len() as int);
}

/// Fitness of an exact fit: a network whose forward pass reproduces every
/// expected output of a non-empty dataset scores exactly zero.
pub proof fn lemma_exact_fit_scores_zero(n: NetworkV, ds: Seq<(Seq<i64>, Seq<i64>)>)
    requires
        ds.len() > 0,
        forall|k: int| 0 <= k < ds.len() ==> net_out(n, (#[trigger] ds[k]).0) == ds[k].1,
    ensures
        fitness_of(n, ds) == 0,
{
    lemma_total_zero(n, ds);
}

/// The summed cost of an exact fit is zero.
proof fn lemma_total_zero(n: NetworkV, ds: Seq<(Seq<i64>, Seq<i64>)>)
    requires
        forall|k: int| 0 <= k < ds.len() ==> net_out(n, (#[trigger] ds[k]).0) == ds[k].1,
    ensures
        total_cost(n, ds) == 0,
    decreases ds.len(),
{
    if ds.len() > 0 {
        lemma_total_zero(n, ds.drop_last());
        lemma_cost_exact_fit(ds.last().1, net_out(n, ds.last().0));
    }
}

/// A sample fits a network when its input vector has the network's input
/// size and its expected vector the network's output size.
pub open spec fn sample_fits(n: NetworkV, s: (Seq<i64>, Seq<i64>)) -> bool {
    &&& s.0.len() == net_input_size(n)
    &&& s.1.len() == net_output_size(n)
}

/// Every sample of the dataset fits the network.
pub open spec fn dataset_fits(n: NetworkV, ds: Seq<(Seq<i64>, Seq<i64>)>) -> bool {
    forall|k: int| 0 <= k < ds.len() ==> sample_fits(n, #[trigger] ds[k])
}

/// The shape a topology descriptor asks for: one hidden layer per declared
/// width, with that width, and the declared input and output sizes.
pub open spec fn has_topology(
    n: NetworkV,
    input_size: int,
    hidden_sizes: Seq<usize>,
    output_size: int,
) -> bool {
    &&& n.hidden.len() == hidden_sizes.len()
    &&& net_input_size(n) == input_size
    &&& forall|i: int|
        0 <= i < hidden_sizes.len() ==> (#[trigger] n.hidden[i]).neurons.len() == hidden_sizes[i]
    &&& net_output_size(n) == output_size
}

/// A topology descriptor is valid when every declared width is positive.
pub open spec fn topology_ok(c: (usize, Seq<usize>, usize)) -> bool {
    &&& c.0 > 0
    &&& forall|i: int| 0 <= i < c.1.len() ==> #[trigger] c.1[i] > 0
    &&& c.2 > 0
}

/// Whether every width of a topology descriptor is positive.
pub fn topology_is_ok(network_config: &NetworkConfig) -> (b: bool)
    ensures
        b == topology_ok((network_config.0, network_config.1@, network_config.2)),
{
    if network_config.0 == 0 || network_config.2 == 0 {
        return false;
    }
    let n: usize = network_config.1.len();
    let mut i: usize = 0;
    while i < n
        invariant
            n == network_config.1@.len(),
            i <= n,
            forall|j: int| 0 <= j < i ==> #[trigger] network_config.1@[j] > 0,
        decreases n - i,
    {
        if network_config.1[i] == 0 {
            proof {
                let c = (network_config.0, network_config.1@, network_config.2);
                assert(c.1[i as int] == 0);
                assert(!topology_ok(c));
            }
            return false;
        }
        i += 1;
    }
    true
}

/// Every neuron of a freshly drawn network has weights and bias in [0, 1).
pub open spec fn net_in_unit(n: NetworkV) -> bool {
    &&& forall|i: int| 0 <= i < n.hidden.len() ==> layer_in_unit(#[trigger] n.hidden[i])
    &&& layer_in_unit(n.output)
}

impl Clone for Network {
    /// A clone carries exactly the layers of the original.
    fn clone(&self) -> (r: Self)
        ensures
            r@ == self@,
    {
        let hs: Vec<Layer> = self.hidden_layers.clone();
        let r = Network { hidden_layers: hs, output_layer: self.output_layer.clone() };
        proof {
            assert(r@.hidden =~= self@.hidden);
            assert(r@ =~= self@);
        }
        r
    }
}

impl Network {
    /// A network from explicit layers, checked for chaining: each layer's
    /// input width must be the width of the layer before it.
    pub fn new(hidden_layers: Vec<Layer>, output_layer: Layer) -> (r: Result<
        Network,
        TrainError,
    >)
        requires
            forall|i: int|
                0 <= i < hidden_layers@.len() ==> layer_wf((#[trigger] hidden_layers@[i])@),
            layer_wf(output_layer@),
        ensures
            match r {
                Ok(n) => {
                    &&& n@ == (NetworkV {
                        hidden: hidden_layers@.map_values(|l: Layer| l@),
                        output: output_layer@,
                    })
                    &&& net_wf(n@)
                },
                Err(e) => {
                    &&& e == TrainError::DimensionMismatch
                    &&& !layers_chain(hidden_layers@.map_values(|l: Layer| l@), output_layer@)
                },
            },
    {
        let n: usize = hidden_layers.len();
        let ghost hv = hidden_layers@.map_values(|l: Layer| l@);
        let mut i: usize = 1;
        while i < n
            invariant
                n == hidden_layers@.len(),
                hv == hidden_layers@.map_values(|l: Layer| l@),
                1 <= i,
                i <= n || n == 0,
                forall|j: int| 1 <= j < i ==> (#[trigger] hv[j]).input_size == hv[j - 1].neurons.len(),
            decreases n - i,
        {
            if hidden_layers[i].input_size != hidden_layers[i - 1].neurons.len() {
                proof {
                    assert(hv[i as int].input_size != hv[i - 1].neurons.len());
                }
                return Err(TrainError::DimensionMismatch);
            }
            i += 1;
        }
        if n > 0 {
            if output_layer.input_size != hidden_layers[n - 1].neurons.len() {
                proof {
                    assert(hv.last() == hv[n - 1]);
                    assert(output_layer@.input_size != hv.last().neurons.len());
                }
                return Err(TrainError::DimensionMismatch);
            }
        }
        let r = Network { hidden_layers, output_layer };
        proof {
            assert(hv.len() > 0 ==> hv.last() == hv[hv.len() - 1]);
        }
        Ok(r)
    }

    /// A random network with the given topology: each layer's neurons have
    /// one weight per output of the layer before (or per network input for
    /// the first layer), all drawn uniformly from [0, 1). Rejects a
    /// topology with a zero width.
    pub fn new_with_random_values(network_config: &NetworkConfig) -> (r: Result<
        Network,
        TrainError,
    >)
        ensures
            match r {
                Ok(n) => {
                    &&& topology_ok((network_config.0, network_config.1@, network_config.2))
                    &&& net_wf(n@)
                    &&& has_topology(
                        n@,
                        network_config.0 as int,
                        network_config.1@,
                        network_config.2 as int,
                    )
                    &&& net_in_unit(n@)
                },
                Err(e) => {
                    &&& e == TrainError::InvalidTopology
                    &&& !topology_ok((network_config.0, network_config.1@, network_config.2))
                },
            },
    {
        let input_size: usize = network_config.0;
        let output_size: usize = network_config.2;
        if input_size == 0 || output_size == 0 {
            return Err(TrainError::InvalidTopology);
        }
        let sizes: &Vec<usize> = &network_config.1;
        let n: usize = sizes.len();
        let mut hidden: Vec<Layer> = Vec::new();
        let mut previous: usize = input_size;
        let mut i: usize = 0;
        while i < n
            invariant
                sizes@ == network_config.1@,
                n == sizes@.len(),
                i <= n,
                hidden@.len() == i,
                previous == (if i == 0 { input_size as int } else { sizes@[i - 1] as int }),
                input_size > 0,
                forall|j: int| 0 <= j < i ==> #[trigger] sizes@[j] > 0,
                forall|j: int| 0 <= j < i ==> layer_wf((#[trigger] hidden@[j])@),
                forall|j: int| 0 <= j < i ==> layer_in_unit((#[trigger] hidden@[j])@),
                forall|j: int|
                    0 <= j < i ==> (#[trigger] hidden@[j])@.neurons.len() == sizes@[j],
                i > 0 ==> hidden@[0]@.input_size == input_size,
                forall|j: int|
                    1 <= j < i ==> (#[trigger] hidden@[j])@.input_size == hidden@[j
                        - 1]@.neurons.len(),
            decreases n - i,
        {
            let size: usize = sizes[i];
            if size == 0 {
                proof {
                    let c = (network_config.0, network_config.1@, network_config.2);
                    assert(c.1[i as int] == 0);
                    assert(!topology_ok(c));
                }
                return Err(TrainError::InvalidTopology);
            }
            hidden.push(Layer::new_with_random_values(previous, size));
            previous = size;
            i += 1;
        }
        let output_layer: Layer = Layer::new_with_random_values(previous, output_size);
        let r = Network { hidden_layers: hidden, output_layer };
        proof {
            let hv = hidden@.map_values(|l: Layer| l@);
            assert(hv.len() > 0 ==> hv.last() == hv[hv.len() - 1]);
        }
        Ok(r)
    }

    /// The forward pass: the input folded through the hidden layers in
    /// declared order, then through the output layer. Pure and
    /// deterministic. Rejects an input vector whose length is not the
    /// network's input size.
    pub fn forward(&self, inputs: &Inputs) -> (r: Result<Outputs, TrainError>)
        requires
            net_wf(self@),
        ensures
            match r {
                Ok(out) => {
                    &&& inputs@.len() == net_input_size(self@)
                    &&& out@ == net_out(self@, inputs@)
                    &&& out@.len() == net_output_size(self@)
                },
                Err(e) => {
                    &&& e == TrainError::DimensionMismatch
                    &&& inputs@.len() != net_input_size(self@)
                },
            },
    {
        let n: usize = self.hidden_layers.len();
        let expected: usize = if n > 0 {
            self.hidden_layers[0].input_size
        } else {
            self.output_layer.input_size
        };
        if inputs.len() != expected {
            return Err(TrainError::DimensionMismatch);
        }
        let mut cur: Vec<i64> = inputs.clone();
        proof {
            assert(cur@ =~= inputs@);
            assert(self@.hidden.take(0) =~= Seq::<LayerV>::empty());
        }
        let mut i: usize = 0;
        while i < n
            invariant
                net_wf(self@),
                n == self.hidden_layers@.len(),
                i <= n,
                inputs@.len() == net_input_size(self@),
                cur@ == hidden_out(self@.hidden.take(i as int), inputs@),
                cur@.len() == (if i == 0 {
                    net_input_size(self@)
                } else {
                    self@.hidden[i - 1].neurons.len() as int
                }),
            decreases n - i,
        {
            proof {
                assert(self@.hidden[i as int] == self.hidden_layers@[i as int]@);
            }
            let next: Vec<i64> = match self.hidden_layers[i].forward(&cur) {
                Ok(v) => v,
                Err(e) => {
                    proof {
                        assert(self@.hidden[i as int].input_size == cur@.len());
                    }
                    return Err(e);
                },
            };
            cur = next;
            i += 1;
            proof {
                assert(self@.hidden.take(i as int).drop_last() =~= self@.hidden.take(i - 1));
                assert(self@.hidden.take(i as int).last() == self@.hidden[i - 1]);
            }
        }
        proof {
            assert(self@.hidden.take(n as int) =~= self@.hidden);
            if n > 0 {
                assert(self@.hidden.last() == self@.hidden[n - 1]);
            }
        }
        match self.output_layer.forward(&cur) {
            Ok(v) => Ok(v),
            Err(e) => {
                proof {
                    assert(self@.output.input_size == cur@.len());
                }
                Err(e)
            },
        }
    }

    /// The fitness of this network: the mean over all samples of the
    /// per-sample cost against a non-empty dataset whose samples all fit
    /// the network's input and output sizes.
    pub fn fitness(&self, training_data: &Dataset) -> (r: Result<i64, TrainError>)
        requires
            net_wf(self@),
        ensures
            match r {
                Ok(s) => {
                    &&& training_data@.len() > 0
                    &&& dataset_fits(self@, dataset_view(training_data@))
                    &&& s == fitness_of(self@, dataset_view(training_data@))
                    &&& 0 <= s
                },
                Err(e) => {
                    if training_data@.len() == 0 {
                        e == TrainError::EmptyDatasetError
                    } else {
                        &&& e == TrainError::DimensionMismatch
                        &&& !dataset_fits(self@, dataset_view(training_data@))
                    }
                },
            },
    {
        let m: usize = training_data.len();
        if m == 0 {
            return Err(TrainError::EmptyDatasetError);
        }
        let ghost dv = dataset_view(training_data@);
        let mut total: i64 = 0;
        let mut k: usize = 0;
        while k < m
            invariant
                net_wf(self@),
                m == training_data@.len(),
                dv == dataset_view(training_data@),
                k <= m,
                forall|j: int| 0 <= j < k ==> sample_fits(self@, #[trigger] dv[j]),
                total == total_cost(self@, dv.take(k as int)),
                0 <= total,
            decreases m - k,
        {
            let sample: &(Vec<i64>, Vec<i64>) = &training_data[k];
            let actual: Vec<i64> = match self.forward(&sample.0) {
                Ok(v) => v,
                Err(_) => {
                    proof {
                        assert(dv[k as int].0.len() != net_input_size(self@));
                        assert(!sample_fits(self@, dv[k as int]));
                    }
                    return Err(TrainError::DimensionMismatch);
                },
            };
            if sample.1.len() != actual.len() {
                proof {
                    assert(dv[k as int].1.len() != net_output_size(self@));
                    assert(!sample_fits(self@, dv[k as int]));
                }
                return Err(TrainError::DimensionMismatch);
            }
            let c: i64 = cost_exec(&sample.1, &actual);
            total = add_fx(total, c);
            k += 1;
            proof {
                lemma_cost_nonneg(dv[k - 1].1, net_out(self@, dv[k - 1].0));
                assert(dv.take(k as int).drop_last() =~= dv.take(k - 1));
                assert(dv.take(k as int).last() == dv[k - 1]);
            }
        }
        proof {
            assert(dv.take(m as int) =~= dv);
            lemma_div_pos_is_pos(total as int, m as int);
            lemma_div_nonincreasing(total as int, m as int);
        }
        let q: u128 = (total as u128) / (m as u128);
        Ok(q as i64)
    }

    /// A new network in which every hidden layer and the output layer is
    /// independently mutated with the same rate. The parent is untouched,
    /// the topology is invariant, and a rate of zero returns an identical
    /// network.
    pub fn mutate(&self, rate: i64) -> (r: Network)
        requires
            0 <= rate,
        ensures
            network_mutated(self@, r@, rate),
            rate == 0 ==> r@ == self@,
    {
        let n: usize = self.hidden_layers.len();
        let mut hs: Vec<Layer> = Vec::new();
        let mut i: usize = 0;
        while i < n
            invariant
                0 <= rate,
                n == self.hidden_layers@.len(),
                i <= n,
                hs@.len() == i,
                forall|j: int|
                    0 <= j < i ==> layer_mutated(self@.hidden[j], (#[trigger] hs@[j])@, rate),
                rate == 0 ==> hs@.map_values(|l: Layer| l@) =~= self@.hidden.take(i as int),
            decreases n - i,
        {
            hs.push(self.hidden_layers[i].mutate(rate));
            i += 1;
        }
        let out: Layer = self.output_layer.mutate(rate);
        let r = Network { hidden_layers: hs, output_layer: out };
        proof {
            assert(self@.hidden.take(n as int) =~= self@.hidden);
            if rate == 0 {
                assert(r@ =~= self@);
            }
        }
        r
    }
}

/// The executable per-sample cost, matching `cost_of`.
fn cost_exec(expected: &Vec<i64>, actual: &Vec<i64>) -> (r: i64)
    requires
        expected@.len() == actual@.len(),
    ensures
        r == cost_of(expected@, actual@),
        0 <= r,
{
    let n: usize = expected.len();
    let mut acc: i64 = 0;
    let mut i: usize = 0;
    while i < n
        invariant
            n == expected@.len(),
            actual@.len() == n,
            i <= n,
            acc == cost_of(expected@.take(i as int), actual@.take(i as int)),
            0 <= acc,
        decreases n - i,
    {
        let d: i64 = sub_fx(expected[i], actual[i]);
        let sq: i64 = mul_fx(d, d);
        proof {
            lemma_square_nonneg(d);
        }
        acc = add_fx(acc, sq);
        i += 1;
        proof {
            assert(expected@.take(i as int).drop_last() =~= expected@.take(i - 1));
            assert(actual@.take(i as int).drop_last() =~= actual@.take(i - 1));
        }
    }
    proof {
        assert(expected@.take(n as int) =~= expected@);
        assert(actual@.take(n as int) =~= actual@);
    }
    acc
}

} // verus!
