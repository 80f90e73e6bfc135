use vstd::prelude::*;

verus! {

/// Why an operation of the engine refused its inputs.
#[derive(Debug, Clone, Copy, PartialEq, Eq, Structural)]
pub enum AutodiffError {
    /// Operand shapes are incompatible: unequal shapes for an element-wise operation,
    /// a bad inner dimension for a matrix product, or a seed whose shape is not the
    /// output's.
    ShapeMismatch,
    /// A handle does not belong to the tape it was used with.
    TapeMismatch,
    /// A rank-2 operation received a value of another rank.
    RankError,
    /// A gradient was asked for a value that did not take part in computing the output.
    NotInGraph,
    /// A gradient was asked of a non-scalar output without a seed.
    SeedRequired,
    /// A layer was asked to update a parameter that it never wrapped.
    UninitializedParameter,
}

} // verus!
