use vstd::arithmetic::div_mod::lemma_fundamental_div_mod_converse;
use vstd::prelude::*;

verus! {

/// Number of elements that a shape describes: the product of its dimensions.
/// The empty shape describes exactly one element.
pub open spec fn shape_product(shape: Seq<usize>) -> nat
    decreases shape.len(),
{
    if shape.len() == 0 {
        1
    } else {
        shape_product(shape.drop_last()) * (shape.last() as nat)
    }
}

/// Position of the element at `(row, col)` in a row-major buffer whose rows
/// are `width` elements long.
pub open spec fn flat_index(row: int, col: int, width: int) -> int {
    row * width + col
}

/// Extending a prefix of a shape by the next dimension multiplies its product
/// by that dimension.
pub proof fn lemma_product_step(shape: Seq<usize>, i: int)
    requires
        0 <= i < shape.len(),
    ensures
        shape_product(shape.take(i + 1)) == shape_product(shape.take(i)) * (shape[i] as nat),
{
    assert(shape.take(i + 1).drop_last() =~= shape.take(i));
}

/// A shape with a zero dimension describes no element.
pub proof fn lemma_product_zero(shape: Seq<usize>, k: int)
    requires
        0 <= k < shape.len(),
        shape[k] == 0,
    ensures
        shape_product(shape) == 0,
    decreases shape.len(),
{
    if k < shape.len() - 1 {
        lemma_product_zero(shape.drop_last(), k);
        assert(0 * (shape.last() as nat) == 0);
    } else {
        assert(shape_product(shape.drop_last()) * 0 == 0) by (nonlinear_arith);
    }
}

/// Where no dimension is zero, the product of a prefix never exceeds the
/// product of the whole shape.
pub proof fn lemma_product_prefix(shape: Seq<usize>, i: int)
    requires
        0 <= i <= shape.len(),
        forall|k: int| 0 <= k < shape.len() ==> shape[k] >= 1,
    ensures
        1 <= shape_product(shape.take(i)) <= shape_product(shape),
    decreases shape.len() - i,
{
    if i == shape.len() {
        assert(shape.take(i) =~= shape);
        lemma_product_positive(shape);
    } else {
        lemma_product_prefix(shape, i + 1);
        lemma_product_step(shape, i);
        let p = shape_product(shape.take(i));
        let d = shape[i] as nat;
        assert(p <= p * d && (p * d >= 1 ==> p >= 1)) by (nonlinear_arith)
            requires
                d >= 1,
        ;
    }
}

/// Where no dimension is zero, the shape describes at least one element.
pub proof fn lemma_product_positive(shape: Seq<usize>)
    requires
        forall|k: int| 0 <= k < shape.len() ==> shape[k] >= 1,
    ensures
        shape_product(shape) >= 1,
    decreases shape.len(),
{
    if shape.len() > 0 {
        lemma_product_positive(shape.drop_last());
        let p = shape_product(shape.drop_last());
        let d = shape.last() as nat;
        assert(p * d >= 1) by (nonlinear_arith)
            requires
                p >= 1,
                d >= 1,
        ;
    }
}

/// A two-dimensional shape describes `rows * cols` elements.
pub proof fn lemma_product_pair(rows: usize, cols: usize)
    ensures
        shape_product(seq![rows, cols]) == rows * cols,
{
    let s = seq![rows, cols];
    assert(s.drop_last() =~= seq![rows]);
    assert(seq![rows].drop_last() =~= Seq::<usize>::empty());
    reveal_with_fuel(shape_product, 3);
    assert(1 * (rows as nat) * (cols as nat) == rows * cols) by (nonlinear_arith);
}

/// A shape of rank two describes as many elements as its two dimensions
/// multiplied.
pub proof fn lemma_product_rank_two(shape: Seq<usize>)
    requires
        shape.len() == 2,
    ensures
        shape_product(shape) == shape[0] * shape[1],
{
    assert(shape =~= seq![shape[0], shape[1]]);
    lemma_product_pair(shape[0], shape[1]);
}

/// Row-major positions stay inside the buffer, and the row and the column
/// can be read back from a position by division.
pub proof fn lemma_flat_index(row: int, col: int, height: int, width: int)
    requires
        0 <= row < height,
        0 <= col < width,
    ensures
        0 <= flat_index(row, col, width) < height * width,
        flat_index(row, col, width) / width == row,
        flat_index(row, col, width) % width == col,
{
    assert(0 <= row * width && row * width + width <= height * width) by (nonlinear_arith)
        requires
            0 <= row < height,
            0 < width,
    ;
    lemma_fundamental_div_mod_converse(flat_index(row, col, width), width, row, col);
}

/// Computes the number of elements that `shape` describes, or `None` when
/// that number does not fit in a `usize`.
pub fn shape_size(shape: &Vec<usize>) -> (r: Option<usize>)
    ensures
        match r {
            Some(n) => n == shape_product(shape@),
            None => shape_product(shape@) > usize::MAX,
        },
{
    let rank: usize = shape.len();
    let mut k: usize = 0;
    while k < rank
        invariant
            rank == shape.len(),
            k <= rank,
            forall|j: int| 0 <= j < k ==> shape[j] >= 1,
        decreases rank - k,
    {
        if shape[k] == 0 {
            proof {
                lemma_product_zero(shape@, k as int);
            }
            return Some(0);
        }
        k += 1;
    }
    let mut acc: usize = 1;
    let mut i: usize = 0;
    while i < rank
        invariant
            rank == shape.len(),
            i <= rank,
            acc == shape_product(shape@.take(i as int)),
            forall|j: int| 0 <= j < shape.len() ==> shape[j] >= 1,
        decreases rank - i,
    {
        proof {
            lemma_product_step(shape@, i as int);
        }
        match acc.checked_mul(shape[i]) {
            Some(next) => {
                acc = next;
            },
            None => {
                proof {
                    lemma_product_prefix(shape@, i + 1);
                }
                return None;
            },
        }
        i += 1;
    }
    proof {
        assert(shape@.take(rank as int) =~= shape@);
    }
    Some(acc)
}

/// Whether two shapes have the same rank and the same dimensions.
pub(crate) fn same_shape(a: &Vec<usize>, b: &Vec<usize>) -> (r: bool)
    ensures
        r <==> a@ == b@,
{
    let r: bool = a == b;
    proof {
        if r {
            assert(a@ =~= b@);
        }
    }
    r
}

} // verus!
