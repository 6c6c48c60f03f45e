//! Shared value types of the optimizer.

use vstd::prelude::*;

verus! {

/// An input vector, in fixed-point units of `fx::FX_ONE`.
pub type Inputs = Vec<i64>;

/// An output vector, in fixed-point units of `fx::FX_ONE`.
pub type Outputs = Vec<i64>;

/// A labeled dataset: ordered (input vector, expected output vector) pairs.
pub type Dataset = Vec<(Vec<i64>, Vec<i64>)>;

/// A topology descriptor: input size, ordered hidden layer sizes, output size.
pub type NetworkConfig = (usize, Vec<usize>, usize);

/// The mathematical shadow of a `Dataset`: each sample as a pair of sequences.
pub open spec fn dataset_view(d: Seq<(Vec<i64>, Vec<i64>)>) -> Seq<(Seq<i64>, Seq<i64>)> {
    d.map_values(|p: (Vec<i64>, Vec<i64>)| (p.0@, p.1@))
}

} // verus!
