//! Operations that take each row for itself.
use crate::graph::index::{broadcast_index, lemma_cell};
use crate::graph::ops::elementwise::{broadcast_ok, pairwise_out, silu_out, Pairwise};
use crate::graph::ops::linear::{matmul_dot, matmul_out};
use crate::graph::ops::normalization::{all_rrms, rms_out, sum_of_squares};
use crate::graph::ops::reduction::row_of;
use crate::graph::ops::transform::{
    as_rows, gather_out, rope_out, swapped_index, transpose_0213_out, RopeDims,
};
use crate::scalar::Scalar;
use crate::tensor::{
    broadcast_shape, broadcast_strides, lemma_product_positive, product, ravel_of_unravel,
    shape_fits, strides_of,
};
use vstd::prelude::*;

verus! {

/// Row `r` of the two is the same.
pub open spec fn same_row<T>(a: Seq<T>, b: Seq<T>, n: int, r: int) -> bool {
    forall|c: int| 0 <= c < n ==> #[trigger] row_of(a, n, r)[c] == row_of(b, n, r)[c]
}

proof fn lemma_dot_row<T: Scalar>(a: Seq<T>, b: Seq<T>, w: Seq<T>, k: int, n: int, r: int, c: int, i: nat)
    requires
        i <= k,
        same_row(a, b, k, r),
    ensures
        matmul_dot(a, w, k, n, r, c, i) == matmul_dot(b, w, k, n, r, c, i),
    decreases i,
{
    if i > 0 {
        lemma_dot_row(a, b, w, k, n, r, c, (i - 1) as nat);
        assert(row_of(a, k, r)[i - 1] == row_of(b, k, r)[i - 1]);
    }
}

/// A row of a product of matrices depends on that row of the left factor and no other.
pub proof fn product_row<T: Scalar>(a: Seq<T>, b: Seq<T>, w: Seq<T>, m: int, k: int, n: int, r: int)
    requires
        0 <= r < m,
        0 <= k,
        same_row(a, b, k, r),
    ensures
        same_row(matmul_out(a, w, m, k, n), matmul_out(b, w, m, k, n), n, r),
{
    let (x, y) = (matmul_out(a, w, m, k, n), matmul_out(b, w, m, k, n));
    assert forall|c: int| 0 <= c < n implies #[trigger] row_of(x, n, r)[c] == row_of(y, n, r)[c] by {
        lemma_cell(r, m, c, n);
        lemma_dot_row(a, b, w, k, n, r, c, k as nat);
    }
}

proof fn lemma_squares_row<T: Scalar>(a: Seq<T>, b: Seq<T>, n: int, r: int, i: nat)
    requires
        i <= n,
        same_row(a, b, n, r),
    ensures
        sum_of_squares(a, r * n, i) == sum_of_squares(b, r * n, i),
    decreases i,
{
    if i > 0 {
        lemma_squares_row(a, b, n, r, (i - 1) as nat);
        assert(row_of(a, n, r)[i - 1] == row_of(b, n, r)[i - 1]);
    }
}

/// Each row is normalised by itself.
pub proof fn normalised_row<T: Scalar>(
    a: Seq<T>,
    b: Seq<T>,
    w: Seq<T>,
    m: int,
    n: int,
    eps: T,
    r: int,
)
    requires
        0 <= r < m,
        a.len() == m * n,
        b.len() == m * n,
        same_row(a, b, n, r),
    ensures
        same_row(
            rms_out(a, w, n, all_rrms(a, n, eps, m)),
            rms_out(b, w, n, all_rrms(b, n, eps, m)),
            n,
            r,
        ),
{
    let x = rms_out(a, w, n, all_rrms(a, n, eps, m));
    let y = rms_out(b, w, n, all_rrms(b, n, eps, m));
    assert forall|c: int| 0 <= c < n implies #[trigger] row_of(x, n, r)[c] == row_of(y, n, r)[c] by {
        lemma_cell(r, m, c, n);
        lemma_squares_row(a, b, n, r, n as nat);
        assert(row_of(a, n, r)[c] == row_of(b, n, r)[c]);
    }
}

/// SiLU changes each element by itself.
pub proof fn silu_keeps_rows<T: Scalar>(a: Seq<T>, b: Seq<T>, m: int, n: int, r: int)
    requires
        0 <= r < m,
        a.len() == m * n,
        b.len() == m * n,
        same_row(a, b, n, r),
    ensures
        same_row(silu_out(a), silu_out(b), n, r),
{
    assert forall|c: int| 0 <= c < n implies #[trigger] row_of(silu_out(a), n, r)[c] == row_of(
        silu_out(b),
        n,
        r,
    )[c] by {
        lemma_cell(r, m, c, n);
        assert(row_of(a, n, r)[c] == row_of(b, n, r)[c]);
    }
}

/// In a tensor of the shape of the result every element stands where it stood.
pub proof fn unrepeated_index(shape: Seq<usize>, i: int)
    requires
        shape_fits(shape),
        0 <= i < product(shape),
    ensures
        broadcast_shape(shape, shape) == shape,
        broadcast_index(shape, shape, i) == i,
{
    assert(broadcast_shape(shape, shape) =~= shape);
    assert(shape.skip(0) =~= shape);
    lemma_product_positive(shape);
    assert(broadcast_strides(shape, strides_of(shape), shape) =~= strides_of(shape));
    ravel_of_unravel(i, shape);
}

/// Rows are gathered one for each index.
pub proof fn gathered_row<T: Scalar>(w: Seq<T>, x: Seq<T>, y: Seq<T>, n: int, r: int)
    requires
        0 <= r < x.len(),
        x.len() == y.len(),
        x[r] == y[r],
    ensures
        same_row(gather_out(w, as_rows(x), n), gather_out(w, as_rows(y), n), n, r),
{
    let (a, b) = (gather_out(w, as_rows(x), n), gather_out(w, as_rows(y), n));
    assert forall|c: int| 0 <= c < n implies #[trigger] row_of(a, n, r)[c] == row_of(b, n, r)[c] by {
        lemma_cell(r, x.len() as int, c, n);
    }
}

/// A row is turned by its position, and by no other row.
pub proof fn turned_row<T: Scalar>(a: Seq<T>, b: Seq<T>, d: RopeDims, r: int)
    requires
        0 <= r < d.rows,
        d.head > 0,
        a.len() == d.rows * d.hidden,
        b.len() == d.rows * d.hidden,
        same_row(a, b, d.hidden as int, r),
    ensures
        same_row(rope_out(a, d), rope_out(b, d), d.hidden as int, r),
{
    let n = d.hidden as int;
    let (x, y) = (rope_out(a, d), rope_out(b, d));
    assert forall|c: int| 0 <= c < n implies #[trigger] row_of(x, n, r)[c] == row_of(y, n, r)[c] by {
        lemma_cell(r, d.rows as int, c, n);
        let o = r * n + c;
        assert(d.column(o) == c);
        let w = d.within(o);
        vstd::arithmetic::div_mod::lemma_fundamental_div_mod(c, d.head as int);
        assert(row_of(a, n, r)[c] == row_of(b, n, r)[c]);
        if d.turns(o) {
            if w % 2 == 0 {
                assert(c + 1 < n);
                assert(row_of(a, n, r)[c + 1] == row_of(b, n, r)[c + 1]);
            } else {
                assert(w <= c) by {
                    assert(d.head * (c / d.head as int) >= 0) by (nonlinear_arith)
                        requires
                            c >= 0,
                            d.head > 0,
                    ;
                }
                assert(row_of(a, n, r)[c - 1] == row_of(b, n, r)[c - 1]);
            }
        }
    }
}

/// The element with indices `b`, `i`, `j` and `c` stands behind `b`, `j`, `i` and `c` when the
/// middle dimensions have been exchanged.
pub proof fn exchanged_element<T>(
    a: Seq<T>,
    n: int,
    x: int,
    y: int,
    d: int,
    b: int,
    i: int,
    j: int,
    c: int,
)
    requires
        a.len() == n * x * y * d,
        0 <= b < n,
        0 <= i < x,
        0 <= j < y,
        0 <= c < d,
    ensures
        transpose_0213_out(a, x, y, d)[((b * y + j) * x + i) * d + c] == a[((b * x + i) * y + j) * d
            + c],
        0 <= ((b * x + i) * y + j) * d + c < n * x * y * d,
        0 <= ((b * y + j) * x + i) * d + c < n * x * y * d,
{
    let block = b * y + j;
    let row = block * x + i;
    let o = row * d + c;
    lemma_cell(b, n, j, y);
    lemma_cell(block, n * y, i, x);
    lemma_cell(row, n * y * x, c, d);
    lemma_cell(b, n, i, x);
    lemma_cell(b * x + i, n * x, j, y);
    lemma_cell((b * x + i) * y + j, n * x * y, c, d);
    assert(n * y * x == n * x * y) by (nonlinear_arith);
    assert(swapped_index(x, y, d, o) == ((b * x + i) * y + j) * d + c);
}

/// Rows of two tensors of one shape are taken together row by row.
pub proof fn paired_row<T: Scalar>(
    op: Pairwise,
    a: (Seq<T>, Seq<T>),
    b: (Seq<T>, Seq<T>),
    shape: Seq<usize>,
    m: int,
    n: int,
    r: int,
)
    requires
        shape_fits(shape),
        product(shape) == m * n,
        0 <= r < m,
        same_row(a.0, b.0, n, r),
        same_row(a.1, b.1, n, r),
    ensures
        same_row(
            pairwise_out(op, a.0, shape, a.1, shape),
            pairwise_out(op, b.0, shape, b.1, shape),
            n,
            r,
        ),
{
    let x = pairwise_out(op, a.0, shape, a.1, shape);
    let y = pairwise_out(op, b.0, shape, b.1, shape);
    assert forall|c: int| 0 <= c < n implies #[trigger] row_of(x, n, r)[c] == row_of(y, n, r)[c] by {
        lemma_cell(r, m, c, n);
        unrepeated_index(shape, r * n + c);
        assert(row_of(a.0, n, r)[c] == row_of(b.0, n, r)[c]);
        assert(row_of(a.1, n, r)[c] == row_of(b.1, n, r)[c]);
    }
}

/// The same row of numbers is added to every row.
pub proof fn biased_row<T: Scalar>(op: Pairwise, a: Seq<T>, b: Seq<T>, w: Seq<T>, m: usize, n: usize, r: int)
    requires
        broadcast_ok(seq![m, n], seq![n]),
        product(seq![m, n]) == m * n,
        0 <= r < m,
        same_row(a, b, n as int, r),
    ensures
        broadcast_shape(seq![m, n], seq![n]) == seq![m, n],
        same_row(
            pairwise_out(op, a, seq![m, n], w, seq![n]),
            pairwise_out(op, b, seq![m, n], w, seq![n]),
            n as int,
            r,
        ),
{
    let shape = seq![m, n];
    assert(broadcast_shape(shape, seq![n]) =~= shape);
    let x = pairwise_out(op, a, shape, w, seq![n]);
    let y = pairwise_out(op, b, shape, w, seq![n]);
    let k = n as int;
    assert forall|c: int| 0 <= c < n implies #[trigger] row_of(x, k, r)[c] == row_of(y, k, r)[c] by {
        lemma_cell(r, m as int, c, k);
        unrepeated_index(shape, r * k + c);
        assert(row_of(a, k, r)[c] == row_of(b, k, r)[c]);
    }
}

} // verus!
