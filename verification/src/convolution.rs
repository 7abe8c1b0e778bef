//! Neighbour counting by two-dimensional convolution with a 3x3 kernel,
//! computed by `ndarray_ndimage::convolve`.
use vstd::prelude::*;

use crate::grid::flat_index;

verus! {

/// The value of the cell `(x, y)` of a row-major field of `numx` columns and
/// `numy` rows; 0 for every position outside the field.
pub open spec fn padded_at(data: Seq<usize>, numx: int, numy: int, x: int, y: int) -> int {
    if 0 <= x < numx && 0 <= y < numy {
        data[flat_index(numy, x, y)] as int
    } else {
        0
    }
}

/// One term of the convolution at `(x, y)`: the kernel weight at `(p, q)` times
/// the cell it covers.
pub open spec fn tap(
    data: Seq<usize>,
    numx: int,
    numy: int,
    kernel: Seq<usize>,
    x: int,
    y: int,
    p: int,
    q: int,
) -> int {
    kernel[3 * p + q] * padded_at(data, numx, numy, x + 1 - p, y + 1 - q)
}

/// The convolution of the field with the row-major 3x3 `kernel` at `(x, y)`,
/// the kernel centred on the cell and the field extended by zeros:
/// the sum over `p, q` in `0..3` of `kernel[p][q] * data[x + 1 - p][y + 1 - q]`.
pub open spec fn convolution_at(
    data: Seq<usize>,
    numx: int,
    numy: int,
    kernel: Seq<usize>,
    x: int,
    y: int,
) -> int {
    tap(data, numx, numy, kernel, x, y, 0, 0) + tap(data, numx, numy, kernel, x, y, 0, 1) + tap(
        data,
        numx,
        numy,
        kernel,
        x,
        y,
        0,
        2,
    ) + tap(data, numx, numy, kernel, x, y, 1, 0) + tap(data, numx, numy, kernel, x, y, 1, 1)
        + tap(data, numx, numy, kernel, x, y, 1, 2) + tap(data, numx, numy, kernel, x, y, 2, 0)
        + tap(data, numx, numy, kernel, x, y, 2, 1) + tap(data, numx, numy, kernel, x, y, 2, 2)
}

/// The eight surrounding cells.
pub open spec fn moore_kernel() -> Seq<usize> {
    seq![1, 1, 1, 1, 0, 1, 1, 1, 1]
}

/// The four cells that share a side with the centre.
pub open spec fn von_neumann_kernel() -> Seq<usize> {
    seq![0, 1, 0, 1, 0, 1, 0, 1, 0]
}

/// Every value is 0 or 1.
pub open spec fn is_binary(s: Seq<usize>) -> bool {
    forall|i: int| 0 <= i < s.len() ==> #[trigger] s[i] <= 1
}

/// The Moore kernel as a vector.
pub fn moore_kernel_vec() -> (k: Vec<usize>)
    ensures
        k@ == moore_kernel(),
{
    let mut k: Vec<usize> = Vec::new();
    k.push(1);
    k.push(1);
    k.push(1);
    k.push(1);
    k.push(0);
    k.push(1);
    k.push(1);
    k.push(1);
    k.push(1);
    assert(k@ =~= moore_kernel());
    k
}

/// The von Neumann kernel as a vector.
pub fn von_neumann_kernel_vec() -> (k: Vec<usize>)
    ensures
        k@ == von_neumann_kernel(),
{
    let mut k: Vec<usize> = Vec::new();
    k.push(0);
    k.push(1);
    k.push(0);
    k.push(1);
    k.push(0);
    k.push(1);
    k.push(0);
    k.push(1);
    k.push(0);
    assert(k@ =~= von_neumann_kernel());
    k
}

proof fn lemma_weight(w: int, v: int)
    ensures
        w == 0 ==> w * v == 0,
        w == 1 ==> w * v == v,
{
    assert(w == 0 ==> w * v == 0) by (nonlinear_arith);
    assert(w == 1 ==> w * v == v) by (nonlinear_arith);
}

proof fn lemma_taps(data: Seq<usize>, numx: int, numy: int, kernel: Seq<usize>, x: int, y: int)
    requires
        kernel.len() == 9,
        is_binary(kernel),
    ensures
        forall|p: int, q: int|
            0 <= p < 3 && 0 <= q < 3 ==> #[trigger] tap(data, numx, numy, kernel, x, y, p, q) == (
            if kernel[3 * p + q] == 0 {
                0
            } else {
                padded_at(data, numx, numy, x + 1 - p, y + 1 - q)
            }),
{
    assert forall|p: int, q: int| 0 <= p < 3 && 0 <= q < 3 implies #[trigger] tap(
        data,
        numx,
        numy,
        kernel,
        x,
        y,
        p,
        q,
    ) == (if kernel[3 * p + q] == 0 {
        0
    } else {
        padded_at(data, numx, numy, x + 1 - p, y + 1 - q)
    }) by {
        assert(kernel[3 * p + q] <= 1);
        lemma_weight(kernel[3 * p + q] as int, padded_at(data, numx, numy, x + 1 - p, y + 1 - q));
    }
}

/// The Moore kernel adds up the eight cells around `(x, y)`.
pub proof fn lemma_moore_convolution(data: Seq<usize>, numx: int, numy: int, x: int, y: int)
    ensures
        convolution_at(data, numx, numy, moore_kernel(), x, y) == padded_at(data, numx, numy, x - 1, y - 1)
            + padded_at(data, numx, numy, x - 1, y) + padded_at(data, numx, numy, x - 1, y + 1)
            + padded_at(data, numx, numy, x, y - 1) + padded_at(data, numx, numy, x, y + 1)
            + padded_at(data, numx, numy, x + 1, y - 1) + padded_at(data, numx, numy, x + 1, y)
            + padded_at(data, numx, numy, x + 1, y + 1),
{
    let k = moore_kernel();
    lemma_taps(data, numx, numy, k, x, y);
    assert(k[0] == 1 && k[1] == 1 && k[2] == 1 && k[3] == 1 && k[4] == 0);
    assert(k[5] == 1 && k[6] == 1 && k[7] == 1 && k[8] == 1);
}

/// The von Neumann kernel adds up the four cells that share a side with `(x, y)`.
pub proof fn lemma_von_neumann_convolution(data: Seq<usize>, numx: int, numy: int, x: int, y: int)
    ensures
        convolution_at(data, numx, numy, von_neumann_kernel(), x, y) == padded_at(data, numx, numy, x - 1, y)
            + padded_at(data, numx, numy, x, y - 1) + padded_at(data, numx, numy, x, y + 1)
            + padded_at(data, numx, numy, x + 1, y),
{
    let k = von_neumann_kernel();
    lemma_taps(data, numx, numy, k, x, y);
    assert(k[0] == 0 && k[1] == 1 && k[2] == 0 && k[3] == 1 && k[4] == 0);
    assert(k[5] == 1 && k[6] == 0 && k[7] == 1 && k[8] == 0);
}

/// `ndarray_ndimage::convolve` (border `Constant(0)`, origin 0) of the row-major
/// `numx` by `numy` field `data` with the row-major 3x3 `kernel`, read back in
/// row-major order.
///
/// Claimed, as the crate's source computes it: the result has the field's shape
/// and holds at `(x, y)` the sum over `p, q` of `kernel[p][q] * data[x + 1 - p][y + 1 - q]`,
/// cells outside the field counting as 0 (the kernel is reversed, then correlated
/// with the zero-padded field). Values of at most 1 keep every sum far from overflow;
/// an empty field is not handed over.
#[verifier::external_body]
pub(crate) fn convolve_3x3(data: &Vec<usize>, numx: usize, numy: usize, kernel: &Vec<usize>) -> (out: Vec<
    usize,
>)
    requires
        numx >= 1,
        numy >= 1,
        data@.len() == numx * numy,
        kernel@.len() == 9,
        is_binary(data@),
        is_binary(kernel@),
    ensures
        out@.len() == numx * numy,
        forall|x: int, y: int|
            0 <= x < numx && 0 <= y < numy ==> #[trigger] out@[flat_index(numy as int, x, y)]
                == convolution_at(data@, numx as int, numy as int, kernel@, x, y),
{
    let field = ndarray::Array2::from_shape_vec((numx, numy), data.clone()).unwrap();
    let weights = ndarray::Array2::from_shape_vec((3, 3), kernel.clone()).unwrap();
    ndarray_ndimage::convolve(&field, &weights, ndarray_ndimage::BorderMode::Constant(0), 0)
        .into_raw_vec()
}

} // verus!
