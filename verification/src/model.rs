use crate::shape::{
    flat_index, lemma_flat_index, lemma_product_pair, lemma_product_rank_two, shape_product,
};
use vstd::arithmetic::div_mod::{lemma_fundamental_div_mod, lemma_mod_bound};
use vstd::prelude::*;

verus! {

/// What a tensor is, mathematically: a window of `length` elements that
/// starts at `offset` in a backing buffer, read through a shape.
#[verifier::ext_equal]
pub struct TensorModel<T> {
    /// The whole backing buffer, shared by every view made from one tensor.
    pub storage: Seq<T>,
    /// The dimension sizes, outermost first.
    pub shape: Seq<usize>,
    /// Where the window starts in `storage`.
    pub offset: nat,
    /// How many elements the window holds.
    pub length: nat,
}

impl<T> TensorModel<T> {
    /// The invariant of every tensor: the shape describes exactly the
    /// window, and the window lies inside the buffer.
    pub open spec fn wf(self) -> bool {
        &&& shape_product(self.shape) == self.length
        &&& self.offset + self.length <= self.storage.len()
    }

    /// The elements visible through the window, in order.
    pub open spec fn data(self) -> Seq<T> {
        self.storage.subrange(self.offset as int, (self.offset + self.length) as int)
    }

    /// The element at `(row, col)` of a two-dimensional tensor.
    pub open spec fn at(self, row: int, col: int) -> T
        recommends
            self.shape.len() == 2,
            0 <= row < self.shape[0],
            0 <= col < self.shape[1],
    {
        self.data()[flat_index(row, col, self.shape[1] as int)]
    }

    /// A tensor that owns a buffer of its own and shows all of it.
    pub open spec fn fresh(data: Seq<T>, shape: Seq<usize>) -> Self {
        TensorModel { storage: data, shape, offset: 0, length: data.len() }
    }

    /// The same window read through another shape.
    pub open spec fn reshaped(self, shape: Seq<usize>) -> Self {
        TensorModel { shape, ..self }
    }

    /// Whether the window of `shape` that starts `start` elements into this
    /// one is accepted. The bound counts this tensor's own offset against
    /// its length.
    pub open spec fn admits_slice(self, start: nat, shape: Seq<usize>) -> bool {
        self.offset + start + shape_product(shape) <= self.length
    }

    /// The window of `shape` that starts `start` elements into this one,
    /// over the same buffer.
    pub open spec fn sliced(self, start: nat, shape: Seq<usize>) -> Self {
        TensorModel {
            storage: self.storage,
            shape,
            offset: self.offset + start,
            length: shape_product(shape),
        }
    }

    /// This tensor after its window was overwritten with `window`; the rest
    /// of the buffer is untouched.
    pub open spec fn with_data(self, window: Seq<T>) -> Self {
        TensorModel {
            storage: self.storage.subrange(0, self.offset as int) + window
                + self.storage.subrange(
                (self.offset + self.length) as int,
                self.storage.len() as int,
            ),
            ..self
        }
    }

    /// Whether head `head_index` out of `n_heads` heads of width `dqkv` can
    /// be taken from this tensor: it is two-dimensional, its rows are made
    /// of exactly `n_heads` heads, and the head exists wherever an element
    /// would be read.
    pub open spec fn admits_head(self, head_index: usize, n_heads: usize, dqkv: usize) -> bool {
        &&& self.shape.len() == 2
        &&& self.shape[1] == n_heads * dqkv
        &&& (self.shape[0] > 0 && dqkv > 0 ==> head_index < n_heads)
    }

    /// The columns of head `head_index`, `dqkv` wide, gathered from every
    /// row into a buffer of their own.
    pub open spec fn head(self, head_index: usize, dqkv: usize) -> Self {
        let hidden = self.shape[1] as int;
        TensorModel::fresh(
            Seq::new(
                (self.shape[0] * dqkv) as nat,
                |k: int|
                    self.data()[flat_index(
                        k / (dqkv as int),
                        head_index * dqkv + k % (dqkv as int),
                        hidden,
                    )],
            ),
            seq![self.shape[0], dqkv],
        )
    }

    /// The two-dimensional tensor with rows and columns exchanged, in a
    /// buffer of its own.
    pub open spec fn transposed(self) -> Self {
        let rows = self.shape[0] as int;
        let cols = self.shape[1] as int;
        TensorModel::fresh(
            Seq::new(
                (rows * cols) as nat,
                |k: int| self.data()[flat_index(k % rows, k / rows, cols)],
            ),
            seq![self.shape[1], self.shape[0]],
        )
    }

    /// Writing a window changes what the tensor shows to exactly what was
    /// written, and nothing else in the buffer.
    pub proof fn lemma_with_data(self, window: Seq<T>)
        requires
            self.wf(),
            window.len() == self.length,
        ensures
            self.with_data(window).wf(),
            self.with_data(window).data() == window,
            forall|k: int|
                0 <= k < self.storage.len() && !(self.offset <= k < self.offset + self.length)
                    ==> self.with_data(window).storage[k] == self.storage[k],
    {
        assert(self.with_data(window).data() =~= window);
    }

    /// A slice taken after a write shows what was written: its element `k`
    /// is element `start + k` of the window that was written.
    pub proof fn lemma_write_seen_by_slice(self, window: Seq<T>, start: nat, shape: Seq<usize>)
        requires
            self.wf(),
            window.len() == self.length,
            self.admits_slice(start, shape),
        ensures
            self.with_data(window).sliced(start, shape).wf(),
            forall|k: int|
                0 <= k < shape_product(shape) ==> self.with_data(window).sliced(
                    start,
                    shape,
                ).data()[k] == window[start + k],
    {
        self.lemma_with_data(window);
    }

    /// Element `(i, o)` of a head is element `(i, head_index * dqkv + o)`
    /// of the tensor it was gathered from.
    pub proof fn lemma_head(self, head_index: usize, n_heads: usize, dqkv: usize)
        requires
            self.wf(),
            self.admits_head(head_index, n_heads, dqkv),
        ensures
            self.head(head_index, dqkv).wf(),
            forall|i: int, o: int|
                0 <= i < self.shape[0] && 0 <= o < dqkv ==> #[trigger] self.head(
                    head_index,
                    dqkv,
                ).at(i, o) == self.at(i, head_index * dqkv + o),
    {
        let head = self.head(head_index, dqkv);
        lemma_product_pair(self.shape[0], dqkv);
        assert(head.data() =~= head.storage);
        assert forall|i: int, o: int|
            0 <= i < self.shape[0] && 0 <= o < dqkv implies #[trigger] head.at(i, o) == self.at(
            i,
            head_index * dqkv + o,
        ) by {
            lemma_flat_index(i, o, self.shape[0] as int, dqkv as int);
        }
    }

    /// Element `(j, i)` of the transposed tensor is element `(i, j)` of the
    /// tensor itself.
    pub proof fn lemma_transposed(self)
        requires
            self.wf(),
            self.shape.len() == 2,
        ensures
            self.transposed().wf(),
            forall|i: int, j: int|
                0 <= i < self.shape[0] && 0 <= j < self.shape[1]
                    ==> #[trigger] self.transposed().at(j, i) == self.at(i, j),
    {
        let t = self.transposed();
        lemma_product_pair(self.shape[1], self.shape[0]);
        assert(self.shape[1] * self.shape[0] == self.shape[0] * self.shape[1])
            by (nonlinear_arith);
        assert(t.data() =~= t.storage);
        assert forall|i: int, j: int|
            0 <= i < self.shape[0] && 0 <= j < self.shape[1] implies #[trigger] t.at(j, i)
            == self.at(i, j) by {
            lemma_flat_index(j, i, self.shape[1] as int, self.shape[0] as int);
            assert(self.shape[1] * self.shape[0] == self.shape[0] * self.shape[1])
                by (nonlinear_arith);
        }
    }

    /// Transposing twice gives back the shape and every element, in order.
    pub proof fn lemma_transposed_twice(self)
        requires
            self.wf(),
            self.shape.len() == 2,
        ensures
            self.transposed().transposed().shape == self.shape,
            self.transposed().transposed().data() == self.data(),
    {
        let rows = self.shape[0] as int;
        let cols = self.shape[1] as int;
        let once = self.transposed();
        let twice = once.transposed();
        lemma_product_rank_two(self.shape);
        assert(cols * rows == rows * cols) by (nonlinear_arith);
        assert(twice.shape =~= self.shape);
        assert(once.data() =~= once.storage);
        assert(twice.data() =~= twice.storage);
        assert forall|m: int| 0 <= m < rows * cols implies twice.data()[m] == self.data()[m] by {
            assert(cols > 0 && rows > 0) by (nonlinear_arith)
                requires
                    0 <= m < rows * cols,
                    rows >= 0,
                    cols >= 0,
            ;
            let i = m / cols;
            let j = m % cols;
            lemma_fundamental_div_mod(m, cols);
            lemma_mod_bound(m, cols);
            assert(0 <= i < rows) by (nonlinear_arith)
                requires
                    m == cols * i + j,
                    0 <= j < cols,
                    0 <= m < rows * cols,
            ;
            assert(m == flat_index(i, j, cols)) by (nonlinear_arith)
                requires
                    m == cols * i + j,
            ;
            lemma_flat_index(j, i, cols, rows);
        }
        assert(twice.data() =~= self.data());
    }
}

} // verus!
