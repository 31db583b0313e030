//! The error kinds that graph construction and evaluation can surface.

use vstd::prelude::*;

verus! {

/// Everything that can go wrong while building or evaluating a graph.
///
/// `ShapeMismatch`, `HardwareMismatch` and `InvalidGraph` are detected
/// eagerly, at the operation that introduces the offending step.
/// `DivisionByZero` and `Overflow` are value-level failures that surface
/// lazily, when a node is actually calculated: element values are exact
/// rationals over 64-bit integers, so a division by an exact zero or a
/// component that no longer fits in 64 bits must be reported rather than
/// silently misbehave.
#[derive(Clone, Copy, Debug, PartialEq, Eq, Structural)]
pub enum Error {
    /// Operator inputs' shapes are not elementwise compatible, or a
    /// requested shape is otherwise invalid.
    ShapeMismatch,
    /// Operator inputs resolve to different hardware identities.
    HardwareMismatch,
    /// An operation combines nodes from different graphs, or a node's
    /// address does not exist in the graph it is used with.
    InvalidGraph,
    /// An exact division by zero was requested during calculation.
    DivisionByZero,
    /// A rational component left the 64-bit range during calculation.
    Overflow,
}

} // verus!
