use vstd::prelude::*;

verus! {

/// Why a checked tensor operation refused its arguments.
#[derive(Clone, Copy, Debug, PartialEq, Eq, Structural)]
pub enum TensorError {
    /// The element count or the rank of a shape does not fit the tensor.
    ShapeMismatch,
    /// The requested elements do not all lie inside the tensor's window.
    OutOfBounds,
}

} // verus!
