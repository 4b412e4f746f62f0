use crate::error::TensorError;
use crate::shape::{lemma_flat_index, lemma_product_pair, lemma_product_rank_two};
use crate::tensor::Tensor;
use vstd::prelude::*;

verus! {

/// The two-dimensional `tensor` with rows and columns exchanged, in a buffer
/// of its own: element `(j, i)` of the result is element `(i, j)` of
/// `tensor`. `try_transpose` tests the rank at run time.
pub fn transpose<T: Copy + Clone + Default>(tensor: &Tensor<T>) -> (r: Tensor<T>)
    requires
        tensor@.shape.len() == 2,
    ensures
        r@ == tensor@.transposed(),
        r@.wf(),
        forall|i: int, j: int|
            0 <= i < tensor@.shape[0] && 0 <= j < tensor@.shape[1] ==> #[trigger] r@.at(j, i)
                == tensor@.at(i, j),
{
    let shape: &Vec<usize> = tensor.shape();
    let rows: usize = shape[0];
    let cols: usize = shape[1];
    let source: &[T] = tensor.data();
    let total: usize = tensor.size();
    let ghost wanted: Seq<T> = tensor@.transposed().storage;
    proof {
        lemma_product_rank_two(tensor@.shape);
        tensor@.lemma_transposed();
    }
    let mut turned: Vec<T> = Vec::new();
    let mut j: usize = 0;
    while j < cols
        invariant
            j <= cols,
            rows == tensor@.shape[0],
            cols == tensor@.shape[1],
            source@ == tensor@.data(),
            source@.len() == rows * cols,
            source@.len() == total,
            wanted == tensor@.transposed().storage,
            turned@.len() == j * rows,
            forall|k: int| 0 <= k < turned@.len() ==> turned@[k] == wanted[k],
        decreases cols - j,
    {
        let mut i: usize = 0;
        while i < rows
            invariant
                j < cols,
                i <= rows,
                rows == tensor@.shape[0],
                cols == tensor@.shape[1],
                source@ == tensor@.data(),
                source@.len() == rows * cols,
                source@.len() == total,
                wanted == tensor@.transposed().storage,
                turned@.len() == j * rows + i,
                forall|k: int| 0 <= k < turned@.len() ==> turned@[k] == wanted[k],
            decreases rows - i,
        {
            proof {
                lemma_flat_index(i as int, j as int, rows as int, cols as int);
                lemma_flat_index(j as int, i as int, cols as int, rows as int);
                assert(cols * rows == rows * cols) by (nonlinear_arith);
                assert(i * cols <= i * cols + j);
            }
            turned.push(source[i * cols + j]);
            i += 1;
        }
        proof {
            assert(j * rows + rows == (j + 1) * rows) by (nonlinear_arith);
        }
        j += 1;
    }
    let turned_shape: Vec<usize> = vec![cols, rows];
    proof {
        lemma_product_pair(cols, rows);
        assert(cols * rows == rows * cols) by (nonlinear_arith);
        assert(turned_shape@ =~= seq![cols, rows]);
        assert(turned@ =~= wanted);
    }
    Tensor::new(turned, &turned_shape)
}

/// As `transpose`, but refuses a tensor that is not two-dimensional.
pub fn try_transpose<T: Copy + Clone + Default>(tensor: &Tensor<T>) -> (r: Result<
    Tensor<T>,
    TensorError,
>)
    ensures
        match r {
            Ok(t) => {
                &&& tensor@.shape.len() == 2
                &&& t@ == tensor@.transposed()
                &&& t@.wf()
                &&& forall|i: int, j: int|
                    0 <= i < tensor@.shape[0] && 0 <= j < tensor@.shape[1] ==> #[trigger] t@.at(
                        j,
                        i,
                    ) == tensor@.at(i, j)
            },
            Err(e) => tensor@.shape.len() != 2 && e == TensorError::ShapeMismatch,
        },
{
    if tensor.shape().len() == 2 {
        Ok(transpose(tensor))
    } else {
        Err(TensorError::ShapeMismatch)
    }
}

} // verus!
