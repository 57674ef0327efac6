//! Attention that does not see what lies behind.
use crate::graph::index::{broadcast_index, lemma_cell, lemma_product3};
use crate::graph::ops::attention::{flash_out, query_key, scores, weighted, FlashDims};
use crate::graph::ops::elementwise::{broadcast_ok, pairwise_out, Pairwise};
use crate::graph::ops::linear::{bmm_dot, bmm_out, BmmDims};
use crate::graph::ops::reduction::{exps, largest, row_of, softmax_out, softmax_row, total};
use crate::graph::row_laws::{same_row, unrepeated_index};
use crate::nn::program::{mask_hides_the_future, mask_values};
use crate::scalar::Scalar;
use crate::tensor::{broadcast_shape, broadcast_strides, product, ravel_from, strides_of, unravel};
use vstd::prelude::*;

verus! {

/// Minus ten to the power of twenty.
pub open spec fn far_down<T: Scalar>() -> T {
    let e5 = T::spec_from_count(100_000);
    e5.spec_times(e5).spec_times(e5.spec_times(e5)).spec_negated()
}

/// Beside ordinary numbers `v` is never the largest, and the exponential of its distance from any
/// of them is zero.
pub open spec fn vanishes<T: Scalar>(ordinary: spec_fn(T) -> bool, v: T) -> bool {
    forall|m: T| #[trigger]
        ordinary(m) ==> m.spec_larger(v) == m && v.spec_minus(m).spec_exp() == T::spec_zero()
}

/// The lowest number, and ordinary numbers that are taken far down, vanish beside ordinary ones;
/// the larger of two ordinary numbers is one; and zero times and over anything is zero. So it is for
/// reals, with an exponential that is zero far below zero, and the numbers up to some size.
#[verifier::opaque]
pub open spec fn hides<T: Scalar>(ordinary: spec_fn(T) -> bool) -> bool {
    &&& vanishes(ordinary, T::spec_lowest())
    &&& forall|x: T| ordinary(x) ==> vanishes(ordinary, #[trigger] x.spec_plus(far_down::<T>()))
    &&& forall|x: T| ordinary(x) ==> ordinary(#[trigger] T::spec_lowest().spec_larger(x))
    &&& forall|x: T| ordinary(x) ==> ordinary(#[trigger] x.spec_plus(T::spec_zero()))
    &&& forall|x: T, y: T|
        ordinary(x) && ordinary(y) ==> ordinary(#[trigger] x.spec_larger(y))
    &&& forall|x: T| #[trigger] T::spec_zero().spec_over(x) == T::spec_zero()
    &&& forall|x: T| #[trigger] T::spec_zero().spec_times(x) == T::spec_zero()
}

proof fn lemma_lowest<T: Scalar>(ordinary: spec_fn(T) -> bool)
    requires
        hides(ordinary),
    ensures
        vanishes(ordinary, T::spec_lowest()),
{
    reveal(hides);
}

proof fn lemma_far_down<T: Scalar>(ordinary: spec_fn(T) -> bool, x: T)
    requires
        hides(ordinary),
        ordinary(x),
    ensures
        vanishes(ordinary, x.spec_plus(far_down::<T>())),
        ordinary(x.spec_plus(T::spec_zero())),
{
    reveal(hides);
}

proof fn lemma_larger<T: Scalar>(ordinary: spec_fn(T) -> bool, x: T, y: T)
    requires
        hides(ordinary),
        ordinary(x) || x == T::spec_lowest(),
        ordinary(y),
    ensures
        ordinary(x.spec_larger(y)),
{
    reveal(hides);
}

proof fn lemma_zero<T: Scalar>(ordinary: spec_fn(T) -> bool, x: T)
    requires
        hides(ordinary),
    ensures
        T::spec_zero().spec_over(x) == T::spec_zero(),
        T::spec_zero().spec_times(x) == T::spec_zero(),
{
    reveal(hides);
}

proof fn lemma_largest<T: Scalar>(ordinary: spec_fn(T) -> bool, a: Seq<T>, i: int, n: nat)
    requires
        hides(ordinary),
        0 <= i < a.len(),
        1 <= n <= a.len(),
        forall|j: int| 0 <= j <= i ==> ordinary(#[trigger] a[j]),
        forall|j: int| i < j < a.len() ==> vanishes(ordinary, #[trigger] a[j]),
    ensures
        ordinary(largest(a, n)),
        n > i + 1 ==> largest(a, n) == largest(a, (i + 1) as nat),
    decreases n,
{
    let last = a[n - 1];
    if n == 1 {
        assert(largest(a, 0) == T::spec_lowest());
        assert(ordinary(last));
        lemma_larger(ordinary, largest(a, 0), last);
    } else {
        lemma_largest(ordinary, a, i, (n - 1) as nat);
        if n - 1 <= i {
            assert(ordinary(last));
            lemma_larger(ordinary, largest(a, (n - 1) as nat), last);
        } else {
            assert(vanishes(ordinary, last));
        }
    }
}

proof fn lemma_same_largest<T: Scalar>(a: Seq<T>, b: Seq<T>, n: nat)
    requires
        n <= a.len(),
        n <= b.len(),
        forall|j: int| 0 <= j < n ==> #[trigger] a[j] == b[j],
    ensures
        largest(a, n) == largest(b, n),
    decreases n,
{
    if n > 0 {
        lemma_same_largest(a, b, (n - 1) as nat);
        assert(a[n - 1] == b[n - 1]);
    }
}

/// Scores that vanish have no weight, and the weights of the others do not depend on them.
pub proof fn hidden_scores_weigh_nothing<T: Scalar>(
    ordinary: spec_fn(T) -> bool,
    a: Seq<T>,
    b: Seq<T>,
    i: int,
)
    requires
        hides(ordinary),
        a.len() == b.len(),
        0 <= i < a.len(),
        forall|j: int| 0 <= j <= i ==> #[trigger] a[j] == b[j] && ordinary(a[j]),
        forall|j: int| i < j < a.len() ==> vanishes(ordinary, #[trigger] a[j]),
        forall|j: int| i < j < a.len() ==> vanishes(ordinary, #[trigger] b[j]),
    ensures
        softmax_row(a) == softmax_row(b),
        forall|j: int| i < j < a.len() ==> #[trigger] softmax_row(a)[j] == T::spec_zero(),
{
    let n = a.len();
    assert forall|j: int| 0 <= j <= i implies ordinary(#[trigger] b[j]) by {
        assert(a[j] == b[j]);
    }
    lemma_largest(ordinary, a, i, n);
    lemma_largest(ordinary, b, i, n);
    lemma_same_largest(a, b, (i + 1) as nat);
    let m = largest(a, n);
    assert(m == largest(b, n));
    assert forall|j: int| 0 <= j < n implies #[trigger] exps(a)[j] == exps(b)[j] && (j > i ==> exps(
        a,
    )[j] == T::spec_zero()) by {
        if j <= i {
            assert(a[j] == b[j]);
        } else {
            assert(vanishes(ordinary, a[j]) && vanishes(ordinary, b[j]));
            assert(ordinary(m));
        }
    }
    assert(exps(a) =~= exps(b));
    assert forall|j: int| i < j < n implies #[trigger] softmax_row(a)[j] == T::spec_zero() by {
        assert(exps(a)[j] == T::spec_zero());
        lemma_zero(ordinary, total(exps(a), n));
    }
    assert(softmax_row(a) =~= softmax_row(b));
}

proof fn lemma_query_key<T: Scalar>(
    q: Seq<T>,
    k: Seq<T>,
    q2: Seq<T>,
    k2: Seq<T>,
    d: int,
    r: int,
    c: int,
    i: nat,
)
    requires
        i <= d,
        same_row(q, q2, d, r),
        same_row(k, k2, d, c),
    ensures
        query_key(q, k, d, r, c, i) == query_key(q2, k2, d, r, c, i),
    decreases i,
{
    if i > 0 {
        lemma_query_key(q, k, q2, k2, d, r, c, (i - 1) as nat);
        assert(row_of(q, d, r)[i - 1] == row_of(q2, d, r)[i - 1]);
        assert(row_of(k, d, c)[i - 1] == row_of(k2, d, c)[i - 1]);
    }
}

proof fn lemma_weighted<T: Scalar>(
    ordinary: spec_fn(T) -> bool,
    p: Seq<T>,
    v: Seq<T>,
    v2: Seq<T>,
    dims: FlashDims,
    n: int,
    i: int,
    c: int,
    k: nat,
)
    requires
        hides(ordinary),
        k <= dims.n,
        0 <= c < dims.d,
        forall|j: int| 0 <= j <= i ==> #[trigger] same_row(v, v2, dims.d as int, n * dims.n + j),
        forall|j: int| i < j < dims.n ==> #[trigger] p[j] == T::spec_zero(),
    ensures
        weighted(p, v, dims, n, c, k) == weighted(p, v2, dims, n, c, k),
    decreases k,
{
    if k > 0 {
        lemma_weighted(ordinary, p, v, v2, dims, n, i, c, (k - 1) as nat);
        let j = k - 1;
        let d = dims.d as int;
        if j <= i {
            assert(same_row(v, v2, d, n * dims.n + j));
            assert(row_of(v, d, n * dims.n + j)[c] == row_of(v2, d, n * dims.n + j)[c]);
        } else {
            assert(p[j] == T::spec_zero());
            lemma_zero(ordinary, v[(n * dims.n + j) * d + c]);
            lemma_zero(ordinary, v2[(n * dims.n + j) * d + c]);
        }
    }
}

/// What attention in one pass gives for query `i` of matrix `n` depends on that query and on keys
/// and values up to `i`.
pub proof fn one_pass_sees_no_future<T: Scalar>(
    ordinary: spec_fn(T) -> bool,
    a: (Seq<T>, Seq<T>, Seq<T>),
    b: (Seq<T>, Seq<T>, Seq<T>),
    dims: FlashDims,
    scale: T,
    n: int,
    i: int,
)
    requires
        hides(ordinary),
        dims.m == dims.n,
        0 <= n < dims.batch,
        0 <= i < dims.m,
        a.0.len() == dims.batch * dims.m * dims.d,
        b.0.len() == a.0.len(),
        same_row(a.0, b.0, dims.d as int, n * dims.m + i),
        forall|j: int| 0 <= j <= i ==> #[trigger] same_row(a.1, b.1, dims.d as int, n * dims.n + j),
        forall|j: int| 0 <= j <= i ==> #[trigger] same_row(a.2, b.2, dims.d as int, n * dims.n + j),
        forall|j: int|
            0 <= j <= i ==> ordinary(
                #[trigger] scores(a.0, a.1, dims, scale, false, n * dims.m + i)[j],
            ),
    ensures
        same_row(
            flash_out(a.0, a.1, a.2, dims, scale, true),
            flash_out(b.0, b.1, b.2, dims, scale, true),
            dims.d as int,
            n * dims.m + i,
        ),
{
    let (m, d) = (dims.m as int, dims.d as int);
    let r = n * m + i;
    lemma_cell(n, dims.batch as int, i, m);
    let s = scores(a.0, a.1, dims, scale, true, r);
    let s2 = scores(b.0, b.1, dims, scale, true, r);
    assert forall|j: int| 0 <= j < dims.n implies #[trigger] s[j] == s2[j] && (j <= i ==> ordinary(
        s[j],
    )) by {
        if j <= i {
            assert(same_row(a.1, b.1, d, n * dims.n + j));
            lemma_query_key(a.0, a.1, b.0, b.1, d, r, n * dims.n + j, d as nat);
            assert(ordinary(scores(a.0, a.1, dims, scale, false, r)[j]));
        }
    }
    lemma_lowest(ordinary);
    assert forall|j: int| i < j < s.len() implies vanishes(ordinary, #[trigger] s[j]) by {
        assert(s[j] == T::spec_lowest());
    }
    assert forall|j: int| i < j < s.len() implies vanishes(ordinary, #[trigger] s2[j]) by {
        assert(s[j] == s2[j]);
        assert(s[j] == T::spec_lowest());
    }
    hidden_scores_weigh_nothing(ordinary, s, s2, i);
    let out = flash_out(a.0, a.1, a.2, dims, scale, true);
    let out2 = flash_out(b.0, b.1, b.2, dims, scale, true);
    assert forall|c: int| 0 <= c < d implies #[trigger] row_of(out, d, r)[c] == row_of(
        out2,
        d,
        r,
    )[c] by {
        lemma_cell(r, dims.batch * m, c, d);
        lemma_weighted(ordinary, softmax_row(s), a.2, b.2, dims, n, i, c, dims.n as nat);
    }
}

proof fn lemma_bmm_scores<T: Scalar>(
    q: Seq<T>,
    k: Seq<T>,
    q2: Seq<T>,
    k2: Seq<T>,
    d: BmmDims,
    n: int,
    i: int,
    j: int,
    e: nat,
)
    requires
        d.trans_b,
        e <= d.k,
        0 <= n < d.batch,
        0 <= i < d.m,
        0 <= j < d.n,
        same_row(q, q2, d.k as int, n * d.m + i),
        same_row(k, k2, d.k as int, n * d.n + j),
    ensures
        bmm_dot(q, k, d, (n * d.m + i) * d.n + j, e) == bmm_dot(
            q2,
            k2,
            d,
            (n * d.m + i) * d.n + j,
            e,
        ),
    decreases e,
{
    if e > 0 {
        lemma_bmm_scores(q, k, q2, k2, d, n, i, j, (e - 1) as nat);
        lemma_cell(n, d.batch as int, i, d.m as int);
        lemma_cell(n * d.m + i, d.batch * d.m, j, d.n as int);
        let w = d.k as int;
        assert(row_of(q, w, n * d.m + i)[e - 1] == row_of(q2, w, n * d.m + i)[e - 1]);
        assert(row_of(k, w, n * d.n + j)[e - 1] == row_of(k2, w, n * d.n + j)[e - 1]);
    }
}

proof fn lemma_bmm_weighted<T: Scalar>(
    ordinary: spec_fn(T) -> bool,
    p: Seq<T>,
    v: Seq<T>,
    p2: Seq<T>,
    v2: Seq<T>,
    d: BmmDims,
    n: int,
    i: int,
    c: int,
    e: nat,
)
    requires
        hides(ordinary),
        !d.trans_b,
        e <= d.k,
        0 <= n < d.batch,
        0 <= i < d.m,
        0 <= c < d.n,
        same_row(p, p2, d.k as int, n * d.m + i),
        forall|j: int|
            i < j < d.k ==> #[trigger] row_of(p, d.k as int, n * d.m + i)[j] == T::spec_zero(),
        forall|j: int| 0 <= j <= i ==> #[trigger] same_row(v, v2, d.n as int, n * d.k + j),
    ensures
        bmm_dot(p, v, d, (n * d.m + i) * d.n + c, e) == bmm_dot(
            p2,
            v2,
            d,
            (n * d.m + i) * d.n + c,
            e,
        ),
    decreases e,
{
    if e > 0 {
        lemma_bmm_weighted(ordinary, p, v, p2, v2, d, n, i, c, (e - 1) as nat);
        lemma_cell(n, d.batch as int, i, d.m as int);
        lemma_cell(n * d.m + i, d.batch * d.m, c, d.n as int);
        let j = e - 1;
        assert(row_of(p, d.k as int, n * d.m + i)[j] == row_of(p2, d.k as int, n * d.m + i)[j]);
        if j <= i {
            assert(same_row(v, v2, d.n as int, n * d.k + j));
            assert(row_of(v, d.n as int, n * d.k + j)[c] == row_of(v2, d.n as int, n * d.k + j)[c]);
        } else {
            assert(row_of(p, d.k as int, n * d.m + i)[j] == T::spec_zero());
            lemma_zero(ordinary, v[(n * d.k + j) * d.n + c]);
            lemma_zero(ordinary, v2[(n * d.k + j) * d.n + c]);
        }
    }
}

/// A mask is repeated over all matrices.
proof fn lemma_mask_index(n: usize, s: usize, b: int, i: int, j: int)
    requires
        broadcast_ok(seq![n, s, s], seq![1, s, s]),
        0 <= b < n,
        0 <= i < s,
        0 <= j < s,
    ensures
        broadcast_shape(seq![n, s, s], seq![1, s, s]) == seq![n, s, s],
        broadcast_index(seq![1, s, s], seq![n, s, s], (b * s + i) * s + j) == i * s + j,
{
    let out = seq![n, s, s];
    let mask: Seq<usize> = seq![1, s, s];
    let o = (b * s + i) * s + j;
    assert(broadcast_shape(out, mask) =~= out);
    lemma_product3(n, s, s);
    lemma_product3(1, s, s);
    lemma_cell(b, n as int, i, s as int);
    lemma_cell(b * s + i, n * s, j, s as int);
    lemma_cell(i, s as int, j, s as int);
    assert(mask.skip(0) =~= mask && out.skip(0) =~= out);
    assert(product(out) <= usize::MAX && product(mask) <= usize::MAX);
    let nd = unravel(o, out);
    let strides = broadcast_strides(mask, strides_of(mask), out);
    assert(out.skip(3) =~= Seq::empty());
    assert(out.skip(2) =~= seq![s]);
    assert(out.skip(2).skip(1) =~= Seq::empty());
    assert(product(Seq::<usize>::empty()) == 1);
    assert(s as nat * 1 == s) by (nonlinear_arith);
    assert(product(out.skip(2)) == s);
    assert(mask.skip(3) =~= Seq::empty());
    assert(mask.skip(2) =~= seq![s]);
    assert(mask.skip(2).skip(1) =~= Seq::empty());
    assert(product(mask.skip(2)) == s);
    assert(product(out.skip(3)) == 1 && product(mask.skip(3)) == 1);
    assert(nd[1] == i && nd[2] == j) by {
        assert(nd[1] == ((o / s as int) % s as int) as usize);
        assert((b * s + i) % s as int == i);
        assert(nd[2] == ((o / 1int) % s as int) as usize);
    }
    assert(strides[1] == s && strides[2] == 1);
    if n != 1 {
        assert(strides[0] == 0);
    }
    assert(nd[0] * strides[0] == 0) by {
        if n == 1 {
            assert(b == 0);
            vstd::arithmetic::div_mod::lemma_mod_bound(o / product(out.skip(1)) as int, 1);
            assert(nd[0] == 0);
            assert(0 * strides[0] == 0) by (nonlinear_arith);
        } else {
            assert(nd[0] * 0 == 0) by (nonlinear_arith);
        }
    }
    reveal_with_fuel(ravel_from, 4);
    assert(nd[2] * 1 == j);
    assert(ravel_from(nd, strides, 3) == 0);
    assert(ravel_from(nd, strides, 2) == j);
    assert(ravel_from(nd, strides, 1) == i * s + j);
}

/// The scores behind queries, step by step: products, scaled, and masked.
pub open spec fn stepwise_scores<T: Scalar>(q: Seq<T>, k: Seq<T>, scale: Seq<T>, d: BmmDims) -> Seq<
    T,
> {
    let shape = seq![d.batch, d.m, d.n];
    pairwise_out(Pairwise::Mul, bmm_out(q, k, d), shape, scale, shape)
}

/// Masked scores, turned into weights.
pub open spec fn stepwise_weights<T: Scalar>(sc: Seq<T>, n: usize, s: usize) -> Seq<T> {
    let masked = pairwise_out(
        Pairwise::Add,
        sc,
        seq![n, s, s],
        mask_values::<T>(s),
        seq![1, s, s],
    );
    softmax_out(masked, n * s, s as int)
}

proof fn lemma_masked_row<T: Scalar>(sc: Seq<T>, n: usize, s: usize, b: int, i: int, j: int)
    requires
        broadcast_ok(seq![n, s, s], seq![1, s, s]),
        0 <= b < n,
        0 <= i < s,
        0 <= j < s,
    ensures
        ({
            let masked = pairwise_out(
                Pairwise::Add,
                sc,
                seq![n, s, s],
                mask_values::<T>(s),
                seq![1, s, s],
            );
            row_of(masked, s as int, b * s + i)[j] == (if j > i {
                sc[(b * s + i) * s + j].spec_plus(far_down::<T>())
            } else {
                sc[(b * s + i) * s + j].spec_plus(T::spec_zero())
            })
        }),
{
    let o = (b * s + i) * s + j;
    lemma_mask_index(n, s, b, i, j);
    lemma_cell(b, n as int, i, s as int);
    lemma_cell(b * s + i, n * s, j, s as int);
    lemma_product3(n, s, s);
    unrepeated_index(seq![n, s, s], o);
    mask_hides_the_future::<T>(s, i, j);
}

/// What attention step by step gives for query `i` of matrix `b` depends on that query and on keys
/// and values up to `i`.
pub proof fn stepwise_sees_no_future<T: Scalar>(
    ordinary: spec_fn(T) -> bool,
    x: (Seq<T>, Seq<T>, Seq<T>),
    y: (Seq<T>, Seq<T>, Seq<T>),
    scale: Seq<T>,
    n: usize,
    s: usize,
    dim: usize,
    b: int,
    i: int,
)
    requires
        hides(ordinary),
        broadcast_ok(seq![n, s, s], seq![1, s, s]),
        0 <= b < n,
        0 <= i < s,
        same_row(x.0, y.0, dim as int, b * s + i),
        forall|j: int| 0 <= j <= i ==> #[trigger] same_row(x.1, y.1, dim as int, b * s + j),
        forall|j: int| 0 <= j <= i ==> #[trigger] same_row(x.2, y.2, dim as int, b * s + j),
        ({
            let d = BmmDims { batch: n, m: s, k: dim, n: s, trans_b: true };
            let (p, q) = (stepwise_scores(x.0, x.1, scale, d), stepwise_scores(y.0, y.1, scale, d));
            &&& forall|o: int| 0 <= o < p.len() ==> ordinary(#[trigger] p[o])
            &&& forall|o: int| 0 <= o < q.len() ==> ordinary(#[trigger] q[o])
        }),
    ensures
        ({
            let d = BmmDims { batch: n, m: s, k: dim, n: s, trans_b: true };
            let e = BmmDims { batch: n, m: s, k: s, n: dim, trans_b: false };
            let (p, q) = (stepwise_scores(x.0, x.1, scale, d), stepwise_scores(y.0, y.1, scale, d));
            same_row(
                bmm_out(stepwise_weights(p, n, s), x.2, e),
                bmm_out(stepwise_weights(q, n, s), y.2, e),
                dim as int,
                b * s + i,
            )
        }),
{
    let d = BmmDims { batch: n, m: s, k: dim, n: s, trans_b: true };
    let e = BmmDims { batch: n, m: s, k: s, n: dim, trans_b: false };
    let w = s as int;
    let r = b * s + i;
    let (p, q) = (stepwise_scores(x.0, x.1, scale, d), stepwise_scores(y.0, y.1, scale, d));
    let shape = seq![n, s, s];
    lemma_cell(b, n as int, i, w);
    lemma_product3(n, s, s);
    assert(broadcast_shape(shape, shape) =~= shape);
    assert(p.len() == n * s * s && q.len() == p.len());
    let masked = pairwise_out(Pairwise::Add, p, shape, mask_values::<T>(s), seq![1, s, s]);
    let masked2 = pairwise_out(Pairwise::Add, q, shape, mask_values::<T>(s), seq![1, s, s]);
    let (ra, rb) = (row_of(masked, w, r), row_of(masked2, w, r));
    assert forall|j: int| 0 <= j <= i implies #[trigger] ra[j] == rb[j] && ordinary(ra[j]) by {
        lemma_masked_row(p, n, s, b, i, j);
        lemma_masked_row(q, n, s, b, i, j);
        lemma_cell(r, n * s, j, w);
        let o = r * w + j;
        unrepeated_index(shape, o);
        assert(same_row(x.1, y.1, dim as int, b * s + j));
        lemma_bmm_scores(x.0, x.1, y.0, y.1, d, b, i, j, dim as nat);
        assert(p[o] == q[o]);
        assert(ordinary(p[o]));
        lemma_far_down(ordinary, p[o]);
    }
    assert forall|j: int| i < j < s implies vanishes(ordinary, #[trigger] ra[j]) by {
        lemma_masked_row(p, n, s, b, i, j);
        lemma_cell(r, n * s, j, w);
        assert(ordinary(p[r * w + j]));
        lemma_far_down(ordinary, p[r * w + j]);
    }
    assert forall|j: int| i < j < s implies vanishes(ordinary, #[trigger] rb[j]) by {
        lemma_masked_row(q, n, s, b, i, j);
        lemma_cell(r, n * s, j, w);
        assert(ordinary(q[r * w + j]));
        lemma_far_down(ordinary, q[r * w + j]);
    }
    hidden_scores_weigh_nothing(ordinary, ra, rb, i);
    let (u, v) = (stepwise_weights(p, n, s), stepwise_weights(q, n, s));
    assert forall|j: int| 0 <= j < w implies #[trigger] row_of(u, w, r)[j] == row_of(v, w, r)[j]
        && (j > i ==> row_of(u, w, r)[j] == T::spec_zero()) by {
        lemma_cell(r, n * s, j, w);
        assert(row_of(u, w, r)[j] == softmax_row(ra)[j]);
        assert(row_of(v, w, r)[j] == softmax_row(rb)[j]);
    }
    let (o1, o2) = (bmm_out(u, x.2, e), bmm_out(v, y.2, e));
    assert forall|c: int| 0 <= c < dim implies #[trigger] row_of(o1, dim as int, r)[c] == row_of(
        o2,
        dim as int,
        r,
    )[c] by {
        lemma_cell(r, n * s, c, dim as int);
        lemma_bmm_weighted(ordinary, u, x.2, v, y.2, e, b, i, c, s as nat);
    }
}

proof fn lemma_same_products<T: Scalar>(
    q: Seq<T>,
    k: Seq<T>,
    d: BmmDims,
    b: int,
    i: int,
    j: int,
    e: nat,
)
    requires
        d.trans_b,
        e <= d.k,
        0 <= b < d.batch,
        0 <= i < d.m,
        0 <= j < d.n,
    ensures
        query_key(q, k, d.k as int, b * d.m + i, b * d.n + j, e) == bmm_dot(
            q,
            k,
            d,
            (b * d.m + i) * d.n + j,
            e,
        ),
    decreases e,
{
    if e > 0 {
        lemma_same_products(q, k, d, b, i, j, (e - 1) as nat);
        lemma_cell(b, d.batch as int, i, d.m as int);
        lemma_cell(b * d.m + i, d.batch * d.m, j, d.n as int);
    }
}

proof fn lemma_same_sums<T: Scalar>(
    p: Seq<T>,
    u: Seq<T>,
    v: Seq<T>,
    dims: FlashDims,
    d: BmmDims,
    b: int,
    i: int,
    c: int,
    e: nat,
)
    requires
        !d.trans_b,
        d.batch == dims.batch,
        d.m == dims.m,
        d.k == dims.n,
        d.n == dims.d,
        e <= d.k,
        0 <= b < d.batch,
        0 <= i < d.m,
        0 <= c < d.n,
        forall|j: int| 0 <= j < d.k ==> #[trigger] row_of(u, d.k as int, b * d.m + i)[j] == p[j],
    ensures
        weighted(p, v, dims, b, c, e) == bmm_dot(u, v, d, (b * d.m + i) * d.n + c, e),
    decreases e,
{
    if e > 0 {
        lemma_same_sums(p, u, v, dims, d, b, i, c, (e - 1) as nat);
        lemma_cell(b, d.batch as int, i, d.m as int);
        lemma_cell(b * d.m + i, d.batch * d.m, c, d.n as int);
        assert(row_of(u, d.k as int, b * d.m + i)[e - 1] == p[e - 1]);
    }
}

/// Attention in one pass gives what attention step by step gives, with one scale for all scores:
/// it makes no difference whether operations are recorded.
pub proof fn one_pass_gives_what_steps_give<T: Scalar>(
    ordinary: spec_fn(T) -> bool,
    q: Seq<T>,
    k: Seq<T>,
    v: Seq<T>,
    scale: T,
    n: usize,
    s: usize,
    dim: usize,
    b: int,
    i: int,
)
    requires
        hides(ordinary),
        forall|x: T| #[trigger] x.spec_plus(T::spec_zero()) == x,
        broadcast_ok(seq![n, s, s], seq![1, s, s]),
        0 <= b < n,
        0 <= i < s,
        q.len() == n * s * dim,
        ({
            let d = BmmDims { batch: n, m: s, k: dim, n: s, trans_b: true };
            let scales = Seq::new(product(seq![n, s, s]), |o: int| scale);
            forall|o: int|
                0 <= o < n * s * s ==> ordinary(#[trigger] stepwise_scores(q, k, scales, d)[o])
        }),
    ensures
        ({
            let d = BmmDims { batch: n, m: s, k: dim, n: s, trans_b: true };
            let e = BmmDims { batch: n, m: s, k: s, n: dim, trans_b: false };
            let scales = Seq::new(product(seq![n, s, s]), |o: int| scale);
            let dims = FlashDims { batch: n, m: s, n: s, d: dim };
            same_row(
                flash_out(q, k, v, dims, scale, true),
                bmm_out(stepwise_weights(stepwise_scores(q, k, scales, d), n, s), v, e),
                dim as int,
                b * s + i,
            )
        }),
{
    let d = BmmDims { batch: n, m: s, k: dim, n: s, trans_b: true };
    let e = BmmDims { batch: n, m: s, k: s, n: dim, trans_b: false };
    let scales = Seq::new(product(seq![n, s, s]), |o: int| scale);
    let dims = FlashDims { batch: n, m: s, n: s, d: dim };
    let shape = seq![n, s, s];
    let w = s as int;
    let r = b * s + i;
    lemma_cell(b, n as int, i, w);
    lemma_product3(n, s, s);
    assert(broadcast_shape(shape, shape) =~= shape);
    let p = stepwise_scores(q, k, scales, d);
    let masked = pairwise_out(Pairwise::Add, p, shape, mask_values::<T>(s), seq![1, s, s]);
    let (ra, rb) = (scores(q, k, dims, scale, true, r), row_of(masked, w, r));
    assert forall|j: int| 0 <= j <= i implies #[trigger] ra[j] == rb[j] && ordinary(ra[j]) by {
        lemma_masked_row(p, n, s, b, i, j);
        lemma_cell(r, n * s, j, w);
        let o = r * w + j;
        unrepeated_index(shape, o);
        lemma_same_products(q, k, d, b, i, j, dim as nat);
        assert(p[o] == query_key(q, k, dim as int, r, b * s + j, dim as nat).spec_times(scale));
        assert(ordinary(p[o]));
    }
    lemma_lowest(ordinary);
    assert forall|j: int| i < j < s implies vanishes(ordinary, #[trigger] ra[j]) by {
        assert(ra[j] == T::spec_lowest());
    }
    assert forall|j: int| i < j < s implies vanishes(ordinary, #[trigger] rb[j]) by {
        lemma_masked_row(p, n, s, b, i, j);
        lemma_cell(r, n * s, j, w);
        assert(ordinary(p[r * w + j]));
        lemma_far_down(ordinary, p[r * w + j]);
    }
    hidden_scores_weigh_nothing(ordinary, ra, rb, i);
    let u = stepwise_weights(p, n, s);
    let pr = softmax_row(ra);
    assert forall|j: int| 0 <= j < w implies #[trigger] row_of(u, w, r)[j] == pr[j] by {
        lemma_cell(r, n * s, j, w);
        assert(row_of(u, w, r)[j] == softmax_row(rb)[j]);
    }
    let (o1, o2) = (flash_out(q, k, v, dims, scale, true), bmm_out(u, v, e));
    assert forall|c: int| 0 <= c < dim implies #[trigger] row_of(o1, dim as int, r)[c] == row_of(
        o2,
        dim as int,
        r,
    )[c] by {
        lemma_cell(r, n * s, c, dim as int);
        lemma_same_sums(pr, u, v, dims, e, b, i, c, s as nat);
    }
}

} // verus!
