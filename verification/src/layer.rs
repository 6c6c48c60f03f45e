//! A Layer: an ordered collection of neurons sharing one input width.

use crate::errors::TrainError;
use crate::neuron::{
    neuron_in_unit, neuron_mutated, neuron_out, Neuron, NeuronV,
};
use crate::types::{Inputs, Outputs};
use vstd::prelude::*;

verus! {

/// An ordered group of neurons, all reading the same input vector.
#[derive(Debug)]
pub struct Layer {
    pub neurons: Vec<Neuron>,
    pub input_size: usize,
}

/// The mathematical shadow of a `Layer`.
#[verifier::ext_equal]
pub ghost struct LayerV {
    pub input_size: int,
    pub neurons: Seq<NeuronV>,
}

impl View for Layer {
    type V = LayerV;

    open spec fn view(&self) -> LayerV {
        LayerV {
            input_size: self.input_size as int,
            neurons: self.neurons@.map_values(|n: Neuron| n@),
        }
    }
}

/// Well-formedness: every neuron of the layer has exactly one weight per
/// input of the layer.
pub open spec fn layer_wf(l: LayerV) -> bool {
    forall|i: int|
        0 <= i < l.neurons.len() ==> (#[trigger] l.neurons[i]).weights.len() == l.input_size
}

/// What a layer computes: each neuron's output in neuron order.
pub open spec fn layer_out(l: LayerV, xs: Seq<i64>) -> Seq<i64> {
    Seq::new(l.neurons.len(), |i: int| neuron_out(l.neurons[i], xs))
}

/// How a mutated layer relates to its parent: the same input width, the
/// same number of neurons, and each neuron mutated from its counterpart.
pub open spec fn layer_mutated(parent: LayerV, child: LayerV, rate: i64) -> bool {
    &&& child.input_size == parent.input_size
    &&& child.neurons.len() == parent.neurons.len()
    &&& forall|i: int|
        0 <= i < parent.neurons.len() ==> neuron_mutated(
            parent.neurons[i],
            #[trigger] child.neurons[i],
            rate,
        )
}

/// Every neuron of a freshly drawn layer has weights and bias in [0, 1).
pub open spec fn layer_in_unit(l: LayerV) -> bool {
    forall|i: int| 0 <= i < l.neurons.len() ==> neuron_in_unit(#[trigger] l.neurons[i])
}

impl Clone for Layer {
    /// A clone carries exactly the neurons and input width of the original.
    fn clone(&self) -> (r: Self)
        ensures
            r@ == self@,
    {
        let ns: Vec<Neuron> = self.neurons.clone();
        let r = Layer { neurons: ns, input_size: self.input_size };
        proof {
            assert(r@.neurons =~= self@.neurons);
            assert(r@ =~= self@);
        }
        r
    }
}

impl Layer {
    /// A layer from explicit neurons, checked against the declared input
    /// width: every neuron must have exactly one weight per input.
    pub fn new(input_size: usize, neurons: Vec<Neuron>) -> (r: Result<Layer, TrainError>)
        ensures
            match r {
                Ok(l) => {
                    &&& l@ == (LayerV {
                        input_size: input_size as int,
                        neurons: neurons@.map_values(|n: Neuron| n@),
                    })
                    &&& layer_wf(l@)
                },
                Err(e) => {
                    &&& e == TrainError::DimensionMismatch
                    &&& exists|i: int|
                        0 <= i < neurons@.len() && (#[trigger] neurons@[i])@.weights.len()
                            != input_size
                },
            },
    {
        let n: usize = neurons.len();
        let mut i: usize = 0;
        while i < n
            invariant
                n == neurons@.len(),
                i <= n,
                forall|j: int| 0 <= j < i ==> (#[trigger] neurons@[j])@.weights.len() == input_size,
            decreases n - i,
        {
            if neurons[i].weights.len() != input_size {
                return Err(TrainError::DimensionMismatch);
            }
            i += 1;
        }
        Ok(Layer { neurons, input_size })
    }

    /// A layer of `size` neurons of the given input width, every weight and
    /// bias drawn uniformly from [0, 1).
    pub fn new_with_random_values(input_size: usize, size: usize) -> (r: Layer)
        ensures
            r@.input_size == input_size,
            r@.neurons.len() == size,
            layer_wf(r@),
            layer_in_unit(r@),
    {
        let mut ns: Vec<Neuron> = Vec::new();
        let mut i: usize = 0;
        while i < size
            invariant
                i <= size,
                ns@.len() == i,
                forall|j: int|
                    0 <= j < i ==> (#[trigger] ns@[j])@.weights.len() == input_size,
                forall|j: int| 0 <= j < i ==> neuron_in_unit((#[trigger] ns@[j])@),
            decreases size - i,
        {
            ns.push(Neuron::new_with_random_values(input_size));
            i += 1;
        }
        Layer { neurons: ns, input_size }
    }

    /// The forward pass: each neuron's output, in neuron order. Rejects an
    /// input vector whose length is not the layer's input width.
    pub fn forward(&self, inputs: &Inputs) -> (r: Result<Outputs, TrainError>)
        requires
            layer_wf(self@),
        ensures
            match r {
                Ok(out) => {
                    &&& inputs@.len() == self@.input_size
                    &&& out@ == layer_out(self@, inputs@)
                    &&& out@.len() == self@.neurons.len()
                },
                Err(e) => {
                    &&& e == TrainError::DimensionMismatch
                    &&& inputs@.len() != self@.input_size
                },
            },
    {
        if inputs.len() != self.input_size {
            return Err(TrainError::DimensionMismatch);
        }
        let n: usize = self.neurons.len();
        let mut out: Vec<i64> = Vec::new();
        let mut i: usize = 0;
        while i < n
            invariant
                n == self.neurons@.len(),
                inputs@.len() == self@.input_size,
                layer_wf(self@),
                i <= n,
                out@.len() == i,
                forall|j: int| 0 <= j < i ==> #[trigger] out@[j] == neuron_out(self@.neurons[j], inputs@),
            decreases n - i,
        {
            proof {
                assert(self@.neurons[i as int] == self.neurons@[i as int]@);
                assert(self@.neurons[i as int].weights.len() == self@.input_size);
            }
            out.push(self.neurons[i].forward(inputs));
            i += 1;
        }
        proof {
            assert(out@ =~= layer_out(self@, inputs@));
        }
        Ok(out)
    }

    /// A new layer whose neurons are each independently the result of
    /// `Neuron::mutate(rate)`; arity and input width are preserved, and a
    /// rate of zero returns an identical layer.
    pub fn mutate(&self, rate: i64) -> (r: Layer)
        requires
            0 <= rate,
        ensures
            layer_mutated(self@, r@, rate),
            rate == 0 ==> r@ == self@,
    {
        let n: usize = self.neurons.len();
        let mut ns: Vec<Neuron> = Vec::new();
        let mut i: usize = 0;
        while i < n
            invariant
                0 <= rate,
                n == self.neurons@.len(),
                i <= n,
                ns@.len() == i,
                forall|j: int|
                    0 <= j < i ==> neuron_mutated(self@.neurons[j], (#[trigger] ns@[j])@, rate),
                rate == 0 ==> ns@.map_values(|m: Neuron| m@) =~= self@.neurons.take(i as int),
            decreases n - i,
        {
            ns.push(self.neurons[i].mutate(rate));
            i += 1;
        }
        let r = Layer { neurons: ns, input_size: self.input_size };
        proof {
            assert(self@.neurons.take(n as int) =~= self@.neurons);
            if rate == 0 {
                assert(r@ =~= self@);
            }
        }
        r
    }
}

} // verus!
