//! A Neuron: one affine-plus-activation computation cell.

use crate::fx::{
    add_fx, fx_add, fx_mul, lemma_sigmoid_range, mul_fx, mutation_delta, random_unit, sigmoid,
    sigmoid_fx, FX_ONE,
};
use crate::types::Inputs;
use vstd::prelude::*;

verus! {

/// One computation cell: a weight per input, and a bias, in fixed-point
/// units of `FX_ONE`.
#[derive(Debug)]
pub struct Neuron {
    pub weights: Vec<i64>,
    pub bias: i64,
}

/// The mathematical shadow of a `Neuron`.
#[verifier::ext_equal]
pub ghost struct NeuronV {
    pub weights: Seq<i64>,
    pub bias: i64,
}

impl View for Neuron {
    type V = NeuronV;

    open spec fn view(&self) -> NeuronV {
        NeuronV { weights: self.weights@, bias: self.bias }
    }
}

/// The saturating fixed-point dot product of two equally long vectors,
/// folded left to right.
pub open spec fn dot(xs: Seq<i64>, ws: Seq<i64>) -> i64
    recommends
        xs.len() == ws.len(),
    decreases ws.len(),
{
    if ws.len() == 0 {
        0
    } else {
        fx_add(dot(xs.drop_last(), ws.drop_last()), fx_mul(xs.last(), ws.last()))
    }
}

/// What a neuron computes: the activation of its weighted input sum plus
/// bias. A pure function of the neuron and the inputs alone.
pub open spec fn neuron_out(n: NeuronV, xs: Seq<i64>) -> i64 {
    sigmoid(fx_add(dot(xs, n.weights), n.bias))
}

/// The activation bound: for every input and every weights/bias, a neuron's
/// output lies strictly within (0, 1), i.e. strictly between 0 and `FX_ONE`
/// in fixed-point units.
pub proof fn lemma_neuron_out_range(n: NeuronV, xs: Seq<i64>)
    ensures
        0 < neuron_out(n, xs) < FX_ONE,
{
    lemma_sigmoid_range(fx_add(dot(xs, n.weights), n.bias));
}

/// Every weight and the bias of a freshly drawn neuron lies in [0, 1).
pub open spec fn neuron_in_unit(n: NeuronV) -> bool {
    &&& forall|j: int| 0 <= j < n.weights.len() ==> 0 <= #[trigger] n.weights[j] < FX_ONE
    &&& 0 <= n.bias < FX_ONE
}

/// A child weight or bias differs from its parent by at most half the
/// mutation rate in absolute value.
pub open spec fn within_half_rate(parent: i64, child: i64, rate: i64) -> bool {
    -(rate / 2) <= child - parent <= rate / 2
}

/// How a mutated neuron relates to its parent: the same number of weights,
/// and every weight and the bias moved by at most half the rate.
pub open spec fn neuron_mutated(parent: NeuronV, child: NeuronV, rate: i64) -> bool {
    &&& child.weights.len() == parent.weights.len()
    &&& forall|j: int|
        0 <= j < parent.weights.len() ==> #[trigger] within_half_rate(
            parent.weights[j],
            child.weights[j],
            rate,
        )
    &&& within_half_rate(parent.bias, child.bias, rate)
}

impl Clone for Neuron {
    /// A clone carries exactly the weights and bias of the original.
    fn clone(&self) -> (r: Self)
        ensures
            r@ == self@,
    {
        let w: Vec<i64> = self.weights.clone();
        proof {
            assert(w@ =~= self.weights@);
        }
        Neuron { weights: w, bias: self.bias }
    }
}

impl Neuron {
    /// A neuron from explicit weights and bias.
    pub fn new(weights: Vec<i64>, bias: i64) -> (r: Neuron)
        ensures
            r@.weights == weights@,
            r@.bias == bias,
    {
        Neuron { weights, bias }
    }

    /// A neuron of the given input width with every weight and the bias
    /// drawn uniformly from [0, 1).
    pub fn new_with_random_values(input_size: usize) -> (r: Neuron)
        ensures
            r@.weights.len() == input_size,
            neuron_in_unit(r@),
    {
        let mut ws: Vec<i64> = Vec::new();
        let mut i: usize = 0;
        while i < input_size
            invariant
                i <= input_size,
                ws@.len() == i,
                forall|j: int| 0 <= j < i ==> 0 <= #[trigger] ws@[j] < FX_ONE,
            decreases input_size - i,
        {
            ws.push(random_unit());
            i += 1;
        }
        Neuron { weights: ws, bias: random_unit() }
    }

    /// The forward pass: the activation of the weighted input sum plus
    /// bias. Pure and deterministic: the result is a function of the
    /// neuron and the inputs alone, and lies strictly within (0, 1).
    pub fn forward(&self, inputs: &Inputs) -> (r: i64)
        requires
            inputs@.len() == self.weights@.len(),
        ensures
            r == neuron_out(self@, inputs@),
            0 < r < FX_ONE,
    {
        let n: usize = self.weights.len();
        let mut acc: i64 = 0;
        let mut i: usize = 0;
        while i < n
            invariant
                n == self.weights@.len(),
                inputs@.len() == n,
                i <= n,
                acc == dot(inputs@.take(i as int), self.weights@.take(i as int)),
            decreases n - i,
        {
            let term: i64 = mul_fx(inputs[i], self.weights[i]);
            acc = add_fx(acc, term);
            i += 1;
            proof {
                assert(inputs@.take(i as int).drop_last() =~= inputs@.take(i - 1));
                assert(self.weights@.take(i as int).drop_last() =~= self.weights@.take(i - 1));
            }
        }
        proof {
            assert(inputs@.take(n as int) =~= inputs@);
            assert(self.weights@.take(n as int) =~= self.weights@);
        }
        let s: i64 = add_fx(acc, self.bias);
        sigmoid_fx(s)
    }

    /// A new neuron in which each weight and the bias is independently
    /// perturbed by a uniform draw from [-rate/2, rate/2]. The parent is
    /// untouched, the number of weights never changes, and a rate of zero
    /// returns an identical neuron.
    pub fn mutate(&self, rate: i64) -> (r: Neuron)
        requires
            0 <= rate,
        ensures
            neuron_mutated(self@, r@, rate),
            rate == 0 ==> r@ == self@,
    {
        let n: usize = self.weights.len();
        let mut ws: Vec<i64> = Vec::new();
        let mut i: usize = 0;
        while i < n
            invariant
                0 <= rate,
                n == self.weights@.len(),
                i <= n,
                ws@.len() == i,
                forall|j: int|
                    0 <= j < i ==> #[trigger] within_half_rate(self.weights@[j], ws@[j], rate),
                rate == 0 ==> ws@ =~= self.weights@.take(i as int),
            decreases n - i,
        {
            let d: i64 = mutation_delta(rate);
            let w: i64 = add_fx(self.weights[i], d);
            proof {
                crate::fx::lemma_add_shift(self.weights@[i as int], d);
            }
            ws.push(w);
            i += 1;
        }
        let d: i64 = mutation_delta(rate);
        let b: i64 = add_fx(self.bias, d);
        proof {
            crate::fx::lemma_add_shift(self.bias, d);
            assert(self.weights@.take(n as int) =~= self.weights@);
        }
        let r = Neuron { weights: ws, bias: b };
        proof {
            if rate == 0 {
                assert(r@ =~= self@);
            }
        }
        r
    }
}

} // verus!
