//! Tensors over shared, reference-counted storage: a shape laid over a
//! window of a buffer, with zero-copy slices, reshaping, gathering of one
//! attention head and two-dimensional transposition.

pub mod error;
pub mod model;
pub mod shape;
mod storage;
pub mod tensor;
pub mod transpose;

pub use crate::error::TensorError;
pub use crate::model::TensorModel;
pub use crate::shape::shape_size;
pub use crate::tensor::{window_mut, Tensor};
pub use crate::transpose::{transpose, try_transpose};
