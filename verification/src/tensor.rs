use crate::error::TensorError;
use crate::model::TensorModel;
use crate::shape::{
    lemma_flat_index, lemma_product_pair, lemma_product_rank_two, same_shape, shape_product,
    shape_size,
};
use crate::storage::{exclusive_storage, share_storage};
use std::sync::Arc;
use vstd::arithmetic::div_mod::lemma_fundamental_div_mod_converse;
use vstd::prelude::*;

verus! {

/// An N-dimensional array: a shape laid over a window of a shared,
/// reference-counted buffer. Slices and clones of a tensor share its
/// buffer, which is released with its last holder. The elements can be
/// written only through `data_mut`, and only while the tensor is the sole
/// holder of its buffer.
pub struct Tensor<T> {
    storage: Arc<Vec<T>>,
    shape: Vec<usize>,
    offset: usize,
    length: usize,
}

impl<T> View for Tensor<T> {
    type V = TensorModel<T>;

    closed spec fn view(&self) -> TensorModel<T> {
        TensorModel {
            storage: self.storage@,
            shape: self.shape@,
            offset: self.offset as nat,
            length: self.length as nat,
        }
    }
}

impl<T> Tensor<T> {
    /// Holds of every tensor at every point of a program.
    #[verifier::type_invariant]
    pub open spec fn well_formed(&self) -> bool {
        self@.wf()
    }
}

/// The part of `buffer` that starts at `offset` and holds `length` elements,
/// for writing. What is written through it is what `buffer` holds there
/// afterwards; the elements before and after it stay as they were.
pub fn window_mut<T>(buffer: &mut [T], offset: usize, length: usize) -> (window: &mut [T])
    requires
        offset + length <= old(buffer)@.len(),
    ensures
        window@ == old(buffer)@.subrange(offset as int, offset + length),
        final(buffer)@ == old(buffer)@.subrange(0, offset as int) + final(window)@ + old(
            buffer,
        )@.subrange(offset + length, old(buffer)@.len() as int),
{
    let (_, tail) = buffer.split_at_mut(offset);
    let (window, _) = tail.split_at_mut(length);
    window
}

impl<T> Clone for Tensor<T> {
    /// Another handle to the same window of the same buffer.
    fn clone(&self) -> (r: Self)
        ensures
            r@ == self@,
    {
        proof {
            use_type_invariant(self);
        }
        Tensor {
            storage: share_storage(&self.storage),
            shape: self.shape.clone(),
            offset: self.offset,
            length: self.length,
        }
    }
}

impl<T: Copy + Clone + Default> Tensor<T> {
    /// Wraps `data` in a buffer of its own and lays `shape` over all of it.
    /// The shape must describe exactly the elements of `data`; `try_new`
    /// tests that at run time.
    pub fn new(data: Vec<T>, shape: &Vec<usize>) -> (r: Self)
        requires
            shape_product(shape@) == data@.len(),
        ensures
            r@ == TensorModel::fresh(data@, shape@),
            r@.wf(),
    {
        let length: usize = data.len();
        Tensor { storage: Arc::new(data), shape: shape.clone(), offset: 0, length }
    }

    /// As `new`, but refuses a shape that does not describe exactly the
    /// elements of `data`.
    pub fn try_new(data: Vec<T>, shape: &Vec<usize>) -> (r: Result<Self, TensorError>)
        ensures
            match r {
                Ok(t) => {
                    &&& shape_product(shape@) == data@.len()
                    &&& t@ == TensorModel::fresh(data@, shape@)
                    &&& t@.wf()
                },
                Err(e) => shape_product(shape@) != data@.len() && e == TensorError::ShapeMismatch,
            },
    {
        let length: usize = data.len();
        match shape_size(shape) {
            Some(n) => {
                if n == length {
                    Ok(Self::new(data, shape))
                } else {
                    Err(TensorError::ShapeMismatch)
                }
            },
            None => Err(TensorError::ShapeMismatch),
        }
    }

    /// A tensor of `shape` in a buffer of its own, every element the
    /// default value of `T`. The number of elements must fit in a `usize`,
    /// which `shape_size` tests at run time.
    pub fn default(shape: &Vec<usize>) -> (r: Self)
        requires
            shape_product(shape@) <= usize::MAX,
        ensures
            r@ == TensorModel::fresh(r@.storage, shape@),
            r@.length == shape_product(shape@),
            r@.wf(),
            forall|k: int|
                0 <= k < r@.length ==> call_ensures(T::default, (), #[trigger] r@.storage[k])
                    && r@.storage[k] == r@.storage[0],
    {
        let length: usize = shape_size(shape).unwrap();
        let value: T = T::default();
        let mut data: Vec<T> = Vec::with_capacity(length);
        let mut k: usize = 0;
        while k < length
            invariant
                k <= length,
                data@.len() == k,
                forall|j: int| 0 <= j < k ==> data@[j] == value,
            decreases length - k,
        {
            data.push(value);
            k += 1;
        }
        Self::new(data, shape)
    }

    /// The elements visible through this tensor's window.
    pub fn data(&self) -> (r: &[T])
        ensures
            r@ == self@.data(),
            r@.len() == self@.length,
            self@.wf(),
    {
        proof {
            use_type_invariant(self);
        }
        let all: &[T] = self.storage.as_slice();
        assert(all@.len() == all.len());
        let end: usize = self.offset + self.length;
        &all[self.offset..end]
    }

    /// The window for writing, when no other tensor shares the buffer;
    /// `None`, and nothing changed, when one does. What is written through
    /// the slice is what this tensor shows afterwards; the buffer outside
    /// the window, the shape, the offset and the length stay as they were.
    pub fn data_mut(&mut self) -> (r: Option<&mut [T]>)
        ensures
            match r {
                Some(window) => {
                    &&& window@ == old(self)@.data()
                    &&& window@.len() == old(self)@.length
                    &&& final(self)@ == old(self)@.with_data(final(window)@)
                    &&& final(self)@.data() == final(window)@
                },
                None => final(self)@ == old(self)@,
            },
            old(self)@.wf(),
    {
        proof {
            use_type_invariant(&*self);
        }
        let offset: usize = self.offset;
        let length: usize = self.length;
        match exclusive_storage(&mut self.storage) {
            Some(all) => Some(window_mut(all, offset, length)),
            None => None,
        }
    }

    /// The dimension sizes. Their product is the number of elements.
    pub fn shape(&self) -> (r: &Vec<usize>)
        ensures
            r@ == self@.shape,
            shape_product(r@) == self@.length,
            self@.wf(),
    {
        proof {
            use_type_invariant(self);
        }
        &self.shape
    }

    /// The number of elements visible through the window, which is the
    /// product of the dimension sizes.
    pub fn size(&self) -> (n: usize)
        ensures
            n == self@.length,
            n == self@.data().len(),
            n == shape_product(self@.shape),
            self@.wf(),
    {
        proof {
            use_type_invariant(self);
        }
        self.length
    }

    /// Where this tensor's window starts in its buffer.
    pub fn offset(&self) -> (n: usize)
        ensures
            n == self@.offset,
    {
        self.offset
    }

    /// Lays another shape with the same number of elements over the window
    /// and returns the tensor for chaining. The elements and their order
    /// stay as they were. `try_reshape` tests the number of elements at run
    /// time.
    pub fn reshape(&mut self, new_shape: &Vec<usize>) -> (r: &mut Self)
        requires
            shape_product(new_shape@) == old(self)@.length,
        ensures
            r@ == old(self)@.reshaped(new_shape@),
            r@.data() == old(self)@.data(),
            final(self)@ == final(r)@,
    {
        proof {
            use_type_invariant(&*self);
        }
        self.shape = new_shape.clone();
        self
    }

    /// As `reshape`, but refuses a shape with another number of elements
    /// and then leaves the tensor as it was.
    pub fn try_reshape(&mut self, new_shape: &Vec<usize>) -> (r: Result<&mut Self, TensorError>)
        ensures
            match r {
                Ok(t) => {
                    &&& shape_product(new_shape@) == old(self)@.length
                    &&& t@ == old(self)@.reshaped(new_shape@)
                    &&& t@.data() == old(self)@.data()
                    &&& final(self)@ == final(t)@
                },
                Err(e) => {
                    &&& shape_product(new_shape@) != old(self)@.length
                    &&& e == TensorError::ShapeMismatch
                    &&& final(self)@ == old(self)@
                },
            },
    {
        match shape_size(new_shape) {
            Some(n) => {
                if n == self.length {
                    Ok(self.reshape(new_shape))
                } else {
                    Err(TensorError::ShapeMismatch)
                }
            },
            None => Err(TensorError::ShapeMismatch),
        }
    }

    /// The window of `shape` that starts `start` elements into this one. It
    /// shares this tensor's buffer: element `k` of the slice is element
    /// `start + k` of this tensor. `try_slice` tests the bound at run time.
    pub fn slice(&self, start: usize, shape: &Vec<usize>) -> (r: Self)
        requires
            self@.admits_slice(start as nat, shape@),
        ensures
            r@ == self@.sliced(start as nat, shape@),
            r@.wf(),
            forall|k: int| 0 <= k < r@.length ==> r@.data()[k] == self@.data()[start + k],
    {
        proof {
            use_type_invariant(self);
        }
        let length: usize = shape_size(shape).unwrap();
        Tensor {
            storage: share_storage(&self.storage),
            shape: shape.clone(),
            offset: self.offset + start,
            length,
        }
    }

    /// As `slice`, but refuses a window that the bound of `slice` does not
    /// admit.
    pub fn try_slice(&self, start: usize, shape: &Vec<usize>) -> (r: Result<Self, TensorError>)
        ensures
            match r {
                Ok(t) => {
                    &&& self@.admits_slice(start as nat, shape@)
                    &&& t@ == self@.sliced(start as nat, shape@)
                    &&& t@.wf()
                    &&& forall|k: int|
                        0 <= k < t@.length ==> t@.data()[k] == self@.data()[start + k]
                },
                Err(e) => {
                    &&& !self@.admits_slice(start as nat, shape@)
                    &&& e == TensorError::OutOfBounds
                },
            },
    {
        match shape_size(shape) {
            Some(n) => {
                if self.offset <= self.length && start <= self.length - self.offset && n
                    <= self.length - self.offset - start {
                    Ok(self.slice(start, shape))
                } else {
                    Err(TensorError::OutOfBounds)
                }
            },
            None => Err(TensorError::OutOfBounds),
        }
    }

    /// Gathers head `head_index`, `dqkv` columns wide, from every row of a
    /// two-dimensional tensor whose rows hold `n_heads` heads, into a
    /// tensor with a buffer of its own: element `(i, o)` of the result is
    /// element `(i, head_index * dqkv + o)` of this tensor.
    /// `try_select_head` tests the conditions at run time.
    pub fn select_head(&self, head_index: usize, n_heads: usize, dqkv: usize) -> (r: Self)
        requires
            self@.admits_head(head_index, n_heads, dqkv),
        ensures
            r@ == self@.head(head_index, dqkv),
            r@.wf(),
            forall|i: int, o: int|
                0 <= i < self@.shape[0] && 0 <= o < dqkv ==> #[trigger] r@.at(i, o) == self@.at(
                    i,
                    head_index * dqkv + o,
                ),
    {
        proof {
            use_type_invariant(self);
            lemma_product_rank_two(self@.shape);
            self@.lemma_head(head_index, n_heads, dqkv);
        }
        let seq_len: usize = self.shape[0];
        let hidden: usize = self.shape[1];
        let source: &[T] = self.data();
        let ghost wanted: Seq<T> = self@.head(head_index, dqkv).storage;
        let mut gathered: Vec<T> = Vec::new();
        if seq_len > 0 && dqkv > 0 {
            assert(head_index * dqkv + dqkv <= hidden) by (nonlinear_arith)
                requires
                    head_index < n_heads,
                    hidden == n_heads * dqkv,
            ;
            let first: usize = head_index * dqkv;
            let mut i: usize = 0;
            while i < seq_len
                invariant
                    i <= seq_len,
                    0 < dqkv,
                    first == head_index * dqkv,
                    first + dqkv <= hidden,
                    source@ == self@.data(),
                    source@.len() == seq_len * hidden,
                    source@.len() <= usize::MAX,
                    wanted == self@.head(head_index, dqkv).storage,
                    seq_len == self@.shape[0],
                    hidden == self@.shape[1],
                    gathered@.len() == i * dqkv,
                    forall|k: int| 0 <= k < gathered@.len() ==> gathered@[k] == wanted[k],
                decreases seq_len - i,
            {
                proof {
                    lemma_flat_index(i as int, first as int, seq_len as int, hidden as int);
                    assert(i * hidden + hidden <= seq_len * hidden) by (nonlinear_arith)
                        requires
                            i < seq_len,
                    ;
                }
                let base: usize = i * hidden + first;
                let mut o: usize = 0;
                while o < dqkv
                    invariant
                        i < seq_len,
                        o <= dqkv,
                        first == head_index * dqkv,
                        base == i * hidden + first,
                        base + dqkv <= source@.len(),
                        source@.len() <= usize::MAX,
                        source@ == self@.data(),
                        wanted == self@.head(head_index, dqkv).storage,
                        seq_len == self@.shape[0],
                        hidden == self@.shape[1],
                        gathered@.len() == i * dqkv + o,
                        forall|k: int| 0 <= k < gathered@.len() ==> gathered@[k] == wanted[k],
                    decreases dqkv - o,
                {
                    proof {
                        lemma_flat_index(i as int, o as int, seq_len as int, dqkv as int);
                    }
                    gathered.push(source[base + o]);
                    o += 1;
                }
                proof {
                    assert(i * dqkv + dqkv == (i + 1) * dqkv) by (nonlinear_arith);
                }
                i += 1;
            }
        } else {
            assert(seq_len * dqkv == 0) by (nonlinear_arith)
                requires
                    seq_len == 0 || dqkv == 0,
            ;
        }
        let shape: Vec<usize> = vec![seq_len, dqkv];
        proof {
            lemma_product_pair(seq_len, dqkv);
            assert(shape@ =~= seq![seq_len, dqkv]);
            assert(gathered@ =~= wanted);
        }
        Self::new(gathered, &shape)
    }

    /// As `select_head`, but refuses a tensor that is not two-dimensional
    /// or whose rows are not `n_heads * dqkv` long, and a head that lies
    /// outside the rows.
    pub fn try_select_head(&self, head_index: usize, n_heads: usize, dqkv: usize) -> (r: Result<
        Self,
        TensorError,
    >)
        ensures
            match r {
                Ok(t) => {
                    &&& self@.admits_head(head_index, n_heads, dqkv)
                    &&& t@ == self@.head(head_index, dqkv)
                    &&& t@.wf()
                    &&& forall|i: int, o: int|
                        0 <= i < self@.shape[0] && 0 <= o < dqkv ==> #[trigger] t@.at(i, o)
                            == self@.at(i, head_index * dqkv + o)
                },
                Err(e) => {
                    &&& !self@.admits_head(head_index, n_heads, dqkv)
                    &&& e == if self@.shape.len() == 2 && self@.shape[1] == n_heads * dqkv {
                        TensorError::OutOfBounds
                    } else {
                        TensorError::ShapeMismatch
                    }
                },
            },
    {
        if self.shape.len() != 2 {
            return Err(TensorError::ShapeMismatch);
        }
        match n_heads.checked_mul(dqkv) {
            Some(hidden) => {
                if hidden != self.shape[1] {
                    return Err(TensorError::ShapeMismatch);
                }
            },
            None => {
                return Err(TensorError::ShapeMismatch);
            },
        }
        if self.shape[0] > 0 && dqkv > 0 && head_index >= n_heads {
            return Err(TensorError::OutOfBounds);
        }
        Ok(self.select_head(head_index, n_heads, dqkv))
    }

    /// The window cut into rows as long as the last dimension, first row
    /// first. The rows together are the whole window. The tensor must have
    /// a last dimension, and that must not be zero.
    pub fn rows(&self) -> (r: Vec<&[T]>)
        requires
            self@.shape.len() > 0,
            self@.shape.last() > 0,
        ensures
            r@.len() * self@.shape.last() == self@.length,
            forall|i: int|
                0 <= i < r@.len() ==> (#[trigger] r@[i])@ == self@.data().subrange(
                    i * self@.shape.last(),
                    i * self@.shape.last() + self@.shape.last(),
                ),
    {
        proof {
            use_type_invariant(self);
        }
        let width: usize = self.shape[self.shape.len() - 1];
        let count: usize = self.length / width;
        let source: &[T] = self.data();
        proof {
            let outer = shape_product(self@.shape.drop_last()) as int;
            lemma_fundamental_div_mod_converse(self.length as int, width as int, outer, 0);
        }
        let mut rows: Vec<&[T]> = Vec::new();
        let mut i: usize = 0;
        while i < count
            invariant
                i <= count,
                0 < width,
                count * width == source@.len(),
                source@.len() <= usize::MAX,
                width == self@.shape.last(),
                source@ == self@.data(),
                rows@.len() == i,
                forall|k: int|
                    0 <= k < i ==> (#[trigger] rows@[k])@ == source@.subrange(
                        k * width,
                        k * width + width,
                    ),
            decreases count - i,
        {
            proof {
                assert(i * width + width <= count * width) by (nonlinear_arith)
                    requires
                        i < count,
                ;
            }
            let start: usize = i * width;
            rows.push(&source[start..start + width]);
            i += 1;
        }
        rows
    }

    /// Whether `other` has this tensor's shape and `close` accepts every
    /// pair of elements at the same position. Tensors of different shapes
    /// are told apart without a look at their elements; otherwise the pairs
    /// are tried in order up to the first that `close` rejects.
    pub fn close_to<F: Fn(&T, &T) -> bool>(&self, other: &Self, close: F) -> (r: bool)
        requires
            self@.shape == other@.shape ==> forall|k: int|
                0 <= k < self@.length ==> call_requires(
                    close,
                    (&#[trigger] self@.data()[k], &other@.data()[k]),
                ),
        ensures
            self@.shape != other@.shape ==> !r,
            r ==> forall|k: int|
                0 <= k < self@.length ==> call_ensures(
                    close,
                    (&#[trigger] self@.data()[k], &other@.data()[k]),
                    true,
                ),
            !r && self@.shape == other@.shape ==> exists|k: int|
                {
                    &&& 0 <= k < self@.length
                    &&& call_ensures(close, (&#[trigger] self@.data()[k], &other@.data()[k]), false)
                    &&& forall|j: int|
                        0 <= j < k ==> call_ensures(
                            close,
                            (&#[trigger] self@.data()[j], &other@.data()[j]),
                            true,
                        )
                },
    {
        proof {
            use_type_invariant(self);
            use_type_invariant(other);
        }
        if !same_shape(&self.shape, &other.shape) {
            return false;
        }
        let left: &[T] = self.data();
        let right: &[T] = other.data();
        let mut k: usize = 0;
        while k < left.len()
            invariant
                k <= left@.len(),
                left@ == self@.data(),
                right@ == other@.data(),
                left@.len() == right@.len(),
                left@.len() == self@.length,
                forall|j: int|
                    0 <= j < self@.length ==> call_requires(
                        close,
                        (&#[trigger] self@.data()[j], &other@.data()[j]),
                    ),
                forall|j: int|
                    0 <= j < k ==> call_ensures(
                        close,
                        (&#[trigger] self@.data()[j], &other@.data()[j]),
                        true,
                    ),
            decreases left@.len() - k,
        {
            if !close(&left[k], &right[k]) {
                return false;
            }
            k += 1;
        }
        true
    }
}

} // verus!
