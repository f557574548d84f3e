//! Errors that the core reports.
use vstd::prelude::*;

verus! {

/// What went wrong in a call into the core.
#[derive(Clone, Copy, Debug, PartialEq, Eq, Structural)]
pub enum AutogradError {
    /// The graph handed to the engine does not match its own bookkeeping:
    /// an edge names a node that does not exist, or roots and seeds differ
    /// in number.
    GraphConsistency,
    /// A storage whose `resizable` flag is false was asked to change size.
    NonResizableStorage,
    /// A differentiation was requested through an input that must not
    /// require gradients (the target or weight of a loss).
    GradientOnNonDifferentiableInput,
    /// A dimension index was out of range for the tensor's rank.
    DimensionOutOfRange { dim: i64, rank: i64 },
    /// Size and stride lists differ in length, or a shape's element count
    /// or byte size does not fit the machine.
    ShapeMismatch,
}

} // verus!
