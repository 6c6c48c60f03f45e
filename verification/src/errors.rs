//! The error taxonomy of the optimizer.

use vstd::prelude::*;

verus! {

/// Everything that can go wrong in a forward pass, a fitness evaluation or a
/// training step. All of these propagate immediately to the caller; nothing
/// is retried or substituted.
#[derive(Clone, Copy, Debug, PartialEq, Eq, Structural)]
pub enum TrainError {
    /// An input vector's length disagrees with the expected input width, or a
    /// constructor was handed inconsistent shape parameters.
    DimensionMismatch,
    /// Fitness evaluation was attempted with zero samples.
    EmptyDatasetError,
    /// Ranking or generational replacement was attempted on a population of
    /// size zero.
    EmptyPopulationError,
    /// A topology descriptor specifies a zero layer width.
    InvalidTopology,
}

} // verus!
