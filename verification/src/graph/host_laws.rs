//! What holds of several operations on the host together.
use crate::data::fim::IGNORE_INDEX;
use crate::graph::differential::ring::{exact, times_plus, times_swap, times_zero};
use crate::graph::host::{
    bmm_dims, bmm_host_made, bmm_host_ok, cross_entropy_host_made, cross_entropy_masked_host_made,
    data_of, host_ready, lemma_kept, mean_loss, normalizer, shape_of, swap_shape, swap_sizes,
    transpose_0213_host_made, transpose_0213_host_ok, transpose_made, transpose_ok, valid_targets,
};
use crate::graph::index::{lemma_cell, lemma_product3, lemma_product_last, lemma_uncell};
use crate::graph::ops::linear::{bmm_dot, BmmDims};
use crate::graph::ops::reduction::{class_probs, loss_sum, row_loss, row_of, softmax_row};
use crate::graph::ops::transform::{lemma_swapped, strided_index, strided_out, swapped};
use crate::graph::Graph;
use crate::scalar::Scalar;
use crate::tensor::{
    lemma_product_end, product, ravel, ravel_from, shape_fits, strides_of, unravel_of_ravel,
};
use vstd::prelude::*;

verus! {

proof fn lemma_product_of_four_last(s: Seq<usize>)
    requires
        s.len() >= 4,
    ensures
        ({
            let (b, x, y, d) = swap_sizes(s);
            product(s) == b * x * y * d
        }),
{
    let n = s.len() as int;
    lemma_product_last(s);
    lemma_product_last(s.drop_last());
    lemma_product_last(s.drop_last().drop_last());
    assert(s.drop_last().drop_last().drop_last() =~= s.take(n - 3));
    assert(s.drop_last().last() == s[n - 2]);
    assert(s.drop_last().drop_last().last() == s[n - 3]);
}

/// Exchanging the two dimensions before the last puts every element where its exchanged indices
/// say, and doing so twice brings the tensor back; the tensors that were there stay.
pub proof fn transposing_0213_twice<T: Scalar>(
    g0: Graph<T>,
    g1: Graph<T>,
    g2: Graph<T>,
    a: usize,
    t: usize,
    u: usize,
)
    requires
        transpose_0213_host_ok(g0, a),
        transpose_0213_host_made(g0, g1, t, a),
        transpose_0213_host_made(g1, g2, u, t),
    ensures
        transpose_0213_host_ok(g1, t),
        shape_of(g2, t) == swap_shape(shape_of(g0, a)),
        ({
            let (b, s, h, d) = swap_sizes(shape_of(g0, a));
            forall|i: int, j: int, k: int, l: int|
                0 <= i < b && 0 <= j < h && 0 <= k < s && 0 <= l < d
                    ==> #[trigger] data_of(g2, t)[((i * h + j) * s + k) * d + l] == data_of(g0, a)[(
                (i * s + k) * h + j) * d + l]
        }),
        shape_of(g2, u) == shape_of(g0, a),
        data_of(g2, u) == data_of(g0, a),
        g2.tensors@[a as int] == g0.tensors@[a as int],
{
    lemma_kept(g0, g1, a);
    lemma_kept(g1, g2, a);
    lemma_kept(g1, g2, t);
    let shape = shape_of(g0, a);
    let n = shape.len() as int;
    let (b, s, h, d) = swap_sizes(shape);
    let there = swap_shape(shape);
    assert(there.take(n - 3) =~= shape.take(n - 3));
    assert(swap_shape(there) =~= shape);
    lemma_product_of_four_last(shape);
    lemma_product_of_four_last(there);
    assert(b * s * h == b * h * s) by (nonlinear_arith);
    let x = data_of(g0, a);
    let y = data_of(g1, t);
    assert forall|i: int, j: int, k: int, l: int|
        0 <= i < b && 0 <= j < h && 0 <= k < s && 0 <= l < d implies #[trigger] y[((i * h + j) * s
        + k) * d + l] == x[((i * s + k) * h + j) * d + l] by {
        lemma_cell(i, b, j, h);
        lemma_cell(i * h + j, b * h, k, s);
        lemma_cell((i * h + j) * s + k, b * h * s, l, d);
    }
    assert forall|o: int| 0 <= o < x.len() implies #[trigger] data_of(g2, u)[o] == x[o] by {
        lemma_swapped(b, h, s, d, o);
    }
    assert(data_of(g2, u) =~= x);
}

/// The first `n` products of neighbours from `i` on in `a` with neighbours from `j` on in `b`,
/// summed.
pub open spec fn run_product<T: Scalar>(a: Seq<T>, i: int, b: Seq<T>, j: int, n: nat) -> T
    decreases n,
{
    if n == 0 {
        T::spec_zero()
    } else {
        run_product(a, i, b, j, (n - 1) as nat).spec_plus(
            a[i + n - 1].spec_times(b[j + n - 1]),
        )
    }
}

proof fn lemma_dot_is_run<T: Scalar>(
    a: Seq<T>,
    b: Seq<T>,
    d: BmmDims,
    i: int,
    r: int,
    c: int,
    n: nat,
)
    requires
        d.trans_b,
        0 <= i < d.batch,
        0 <= r < d.m,
        0 <= c < d.n,
    ensures
        bmm_dot(a, b, d, (i * d.m + r) * d.n + c, n) == run_product(
            a,
            (i * d.m + r) * d.k,
            b,
            (i * d.n + c) * d.k,
            n,
        ),
    decreases n,
{
    let (batch, m) = (d.batch as int, d.m as int);
    lemma_cell(i, batch, r, m);
    lemma_cell(i * m + r, batch * m, c, d.n as int);
    if n > 0 {
        lemma_dot_is_run(a, b, d, i, r, c, (n - 1) as nat);
    }
}

/// Where element `(i, k, c)` of the matrices given by rows lies among them given by columns.
proof fn lemma_turned_place(batch: usize, n: usize, k: usize, i: int, c: int, kk: int)
    requires
        shape_fits(seq![batch, n, k]),
        shape_fits(seq![batch, k, n]),
        0 <= i < batch,
        0 <= c < n,
        0 <= kk < k,
    ensures
        0 <= (i * k + kk) * n + c < batch * n * k,
        strided_index(
            swapped(seq![batch, n, k], 1, 2),
            swapped(strides_of(seq![batch, n, k]), 1, 2),
            (i * k + kk) * n + c,
        ) == (i * n + c) * k + kk,
{
    let given = seq![batch, n, k];
    let shape = seq![batch, k, n];
    assert(swapped(given, 1, 2) =~= shape);
    let nd = seq![i as usize, kk as usize, c as usize];
    lemma_product3(batch, k, n);
    lemma_product_end(shape);
    lemma_product_end(given);
    assert(product(shape.skip(0)) <= usize::MAX);
    assert forall|j: int| 0 <= j < nd.len() implies #[trigger] nd[j] < shape[j] by {}
    unravel_of_ravel(nd, shape);
    lemma_strides3(batch, k, n);
    lemma_strides3(batch, n, k);
    reveal_with_fuel(ravel_from, 4);
    let st = strides_of(shape);
    let sw = swapped(strides_of(given), 1, 2);
    assert(sw =~= seq![strides_of(given)[0], strides_of(given)[2], strides_of(given)[1]]);
    let (bi, ki, ni) = (batch as int, k as int, n as int);
    assert(ravel(nd, st) == i * (ki * ni) + kk * ni + c) by {
        assert(nd[2] as nat * 1 == c);
    }
    assert(i * (ki * ni) + kk * ni == (i * ki + kk) * ni) by (nonlinear_arith);
    assert(ravel(nd, sw) == i * (ni * ki) + kk + c * ki) by {
        assert(nd[1] as nat * 1 == kk);
    }
    assert(i * (ni * ki) + c * ki == (i * ni + c) * ki) by (nonlinear_arith);
    lemma_cell(i, bi, kk, ki);
    lemma_cell(i * ki + kk, bi * ki, c, ni);
    assert(bi * ki * ni == bi * ni * ki) by (nonlinear_arith);
}

proof fn lemma_strides3(a: usize, b: usize, c: usize)
    requires
        shape_fits(seq![a, b, c]),
    ensures
        strides_of(seq![a, b, c]) == seq![(b * c) as usize, c, 1usize],
        b * c <= usize::MAX,
{
    let s = seq![a, b, c];
    crate::graph::index::lemma_product2(b, c);
    assert(s.skip(1) =~= seq![b, c]);
    assert(product(s.skip(1)) <= usize::MAX);
    assert(s.skip(3) =~= Seq::empty());
    assert(product(Seq::<usize>::empty()) == 1);
    assert(s.skip(2) =~= seq![c]);
    crate::tensor::lemma_product_step(s, 2);
    assert(c as nat * 1 == c);
    assert(strides_of(s) =~= seq![(b * c) as usize, c, 1usize]);
}

proof fn lemma_turned_dot<T: Scalar>(
    a: Seq<T>,
    b: Seq<T>,
    bt: Seq<T>,
    d: BmmDims,
    e: BmmDims,
    o: int,
    j: nat,
)
    requires
        d.trans_b,
        e == (BmmDims { trans_b: false, ..d }),
        shape_fits(seq![d.batch, d.n, d.k]),
        shape_fits(seq![d.batch, d.k, d.n]),
        b.len() == d.batch * d.n * d.k,
        bt == strided_out(
            b,
            swapped(seq![d.batch, d.n, d.k], 1, 2),
            swapped(strides_of(seq![d.batch, d.n, d.k]), 1, 2),
        ),
        0 <= o < d.out_len(),
        j <= d.k,
    ensures
        bmm_dot(a, bt, e, o, j) == bmm_dot(a, b, d, o, j),
    decreases j,
{
    if j > 0 {
        lemma_turned_dot(a, b, bt, d, e, o, (j - 1) as nat);
        let (batch, m) = (d.batch as int, d.m as int);
        assert(0 <= batch * m) by (nonlinear_arith)
            requires
                batch >= 0,
                m >= 0,
        ;
        lemma_uncell(o, batch * m, d.n as int);
        lemma_uncell(o / d.n as int, batch, m);
        lemma_turned_place(
            d.batch,
            d.n,
            d.k,
            o / d.n as int / m,
            o % d.n as int,
            j - 1,
        );
    }
}

/// Multiplying by matrices that are given by columns is multiplying by their transposes given by
/// rows: the results have the same shape and the same elements, each the product of a row of the
/// left and a column of the right matrix; the operands stay.
pub proof fn product_with_transposed<T: Scalar>(
    g0: Graph<T>,
    g1: Graph<T>,
    g2: Graph<T>,
    g3: Graph<T>,
    a: usize,
    b: usize,
    bt: usize,
    x: usize,
    y: usize,
    sizes: (usize, usize, usize, usize),
)
    requires
        host_ready(g0, a),
        shape_of(g0, a) == seq![sizes.0, sizes.1, sizes.2],
        shape_of(g0, b) == seq![sizes.0, sizes.3, sizes.2],
        transpose_ok(g0, b, 1, 2),
        transpose_made(g0, g1, bt, b, 1, 2),
        bmm_host_ok(g1, a, b, true),
        bmm_host_made(g1, g2, x, a, b, true),
        bmm_host_made(g2, g3, y, a, bt, false),
    ensures
        bmm_host_ok(g2, a, bt, false),
        shape_of(g3, x) == seq![sizes.0, sizes.1, sizes.3],
        shape_of(g3, y) == shape_of(g3, x),
        data_of(g3, y) == data_of(g3, x),
        forall|i: int, r: int, c: int|
            0 <= i < sizes.0 && 0 <= r < sizes.1 && 0 <= c < sizes.3 ==> #[trigger] data_of(g3, x)[(
            i * sizes.1 + r) * sizes.3 + c] == run_product(
                data_of(g0, a),
                (i * sizes.1 + r) * sizes.2,
                data_of(g0, b),
                (i * sizes.3 + c) * sizes.2,
                sizes.2 as nat,
            ),
        g3.tensors@[a as int] == g0.tensors@[a as int],
        g3.tensors@[b as int] == g0.tensors@[b as int],
{
    lemma_kept(g0, g1, a);
    lemma_kept(g0, g1, b);
    lemma_kept(g1, g2, a);
    lemma_kept(g1, g2, b);
    lemma_kept(g1, g2, bt);
    lemma_kept(g2, g3, a);
    lemma_kept(g2, g3, b);
    lemma_kept(g2, g3, x);
    let (batch, m, k, n) = sizes;
    let d = bmm_dims(shape_of(g1, a), shape_of(g1, b), true);
    let e = bmm_dims(shape_of(g2, a), shape_of(g2, bt), false);
    let turned = seq![batch, k, n];
    assert(swapped(shape_of(g0, b), 1, 2) =~= turned);
    lemma_product3(batch, n, k);
    lemma_product3(batch, k, n);
    assert(batch * k * n == batch * n * k) by (nonlinear_arith);
    let (p, q, w) = (data_of(g0, a), data_of(g0, b), data_of(g1, bt));
    assert forall|o: int| 0 <= o < d.out_len() implies #[trigger] bmm_dot(p, w, e, o, k as nat)
        == bmm_dot(p, q, d, o, k as nat) by {
        lemma_turned_dot(p, q, w, d, e, o, k as nat);
    }
    assert(data_of(g3, y) =~= data_of(g3, x));
    assert forall|i: int, r: int, c: int|
        0 <= i < batch && 0 <= r < m && 0 <= c < n implies #[trigger] data_of(g3, x)[(i * m + r) * n
        + c] == run_product(p, (i * m + r) * k, q, (i * n + c) * k, k as nat) by {
        lemma_cell(i, batch as int, r, m as int);
        lemma_cell(i * m + r, batch * m, c, n as int);
        lemma_dot_is_run(p, q, d, i, r, c, k as nat);
    }
}

/// The targets that count among the first `n`, in order.
pub open spec fn kept_targets(targets: Seq<usize>, n: nat) -> Seq<usize>
    decreases n,
{
    if n == 0 {
        Seq::empty()
    } else if targets[n - 1] == IGNORE_INDEX {
        kept_targets(targets, (n - 1) as nat)
    } else {
        kept_targets(targets, (n - 1) as nat).push(targets[n - 1])
    }
}

/// The rows of `c` logits among the first `n` whose targets count, one after the other.
pub open spec fn kept_rows<T>(logits: Seq<T>, targets: Seq<usize>, c: int, n: nat) -> Seq<T>
    decreases n,
{
    if n == 0 {
        Seq::empty()
    } else if targets[n - 1] == IGNORE_INDEX {
        kept_rows(logits, targets, c, (n - 1) as nat)
    } else {
        kept_rows(logits, targets, c, (n - 1) as nat) + row_of(logits, c, n - 1)
    }
}

/// Every target that counts is one of `c` classes.
pub open spec fn are_classes(targets: Seq<usize>, c: int) -> bool {
    forall|i: int|
        0 <= i < targets.len() && targets[i] != IGNORE_INDEX ==> #[trigger] targets[i] < c
}

pub proof fn lemma_kept_sizes<T>(logits: Seq<T>, targets: Seq<usize>, c: int, n: nat)
    requires
        c >= 0,
        n <= targets.len(),
    ensures
        kept_targets(targets, n).len() == valid_targets(targets.take(n as int)),
        kept_rows(logits, targets, c, n).len() == kept_targets(targets, n).len() * c,
        forall|i: int|
            0 <= i < kept_targets(targets, n).len() ==> #[trigger] kept_targets(targets, n)[i]
                != IGNORE_INDEX && targets.contains(kept_targets(targets, n)[i]),
    decreases n,
{
    let t = targets.take(n as int);
    if n == 0 {
        assert(0 * c == 0);
    } else {
        let m = (n - 1) as nat;
        lemma_kept_sizes(logits, targets, c, m);
        assert(t.drop_last() =~= targets.take(m as int));
        assert(t.last() == targets[n - 1]);
        if targets[n - 1] != IGNORE_INDEX {
            let k = kept_targets(targets, m).len() as int;
            assert((k + 1) * c == k * c + c) by (nonlinear_arith);
        }
    }
}

pub proof fn lemma_valid_at_most(targets: Seq<usize>)
    ensures
        valid_targets(targets) <= targets.len(),
    decreases targets.len(),
{
    if targets.len() > 0 {
        lemma_valid_at_most(targets.drop_last());
    }
}

proof fn lemma_row_loss<T: Scalar>(logits: Seq<T>, targets: Seq<usize>, b: int, c: int, r: int)
    requires
        0 <= r < b,
        targets[r] != IGNORE_INDEX,
        targets[r] < c,
    ensures
        row_loss(logits, targets, b, c, r) == softmax_row(
            row_of(logits, c, r),
        )[targets[r] as int].spec_plus(T::spec_decimal(1, 8)).spec_ln().spec_negated(),
{
    lemma_cell(r, b, targets[r] as int, c);
    let o = r * c + targets[r];
    assert(class_probs(logits, targets, b, c, r + 1)[o] == softmax_row(row_of(logits, c, o / c))[o
        % c]);
}

/// The loss of some rows depends on these rows alone.
proof fn lemma_same_loss<T: Scalar>(
    x: Seq<T>,
    s: Seq<usize>,
    bx: int,
    y: Seq<T>,
    t: Seq<usize>,
    by: int,
    c: int,
    w: Option<T>,
    n: nat,
)
    requires
        n <= bx,
        n <= by,
        forall|r: int|
            0 <= r < n ==> #[trigger] s[r] == t[r] && (s[r] != IGNORE_INDEX ==> s[r] < c && row_of(
                x,
                c,
                r,
            ) == row_of(y, c, r)),
    ensures
        loss_sum(x, s, bx, c, w, n) == loss_sum(y, t, by, c, w, n),
    decreases n,
{
    if n > 0 {
        lemma_same_loss(x, s, bx, y, t, by, c, w, (n - 1) as nat);
        assert(s[n - 1] == t[n - 1]);
        if s[n - 1] != IGNORE_INDEX {
            lemma_row_loss(x, s, bx, c, n - 1);
            lemma_row_loss(y, t, by, c, n - 1);
        }
    }
}

pub proof fn lemma_kept_loss<T: Scalar>(
    logits: Seq<T>,
    targets: Seq<usize>,
    b: int,
    c: int,
    w: Option<T>,
    n: nat,
)
    requires
        c >= 0,
        n <= targets.len(),
        n <= b,
        are_classes(targets, c),
    ensures
        loss_sum(logits, targets, b, c, w, n) == loss_sum(
            kept_rows(logits, targets, c, n),
            kept_targets(targets, n),
            kept_targets(targets, n).len() as int,
            c,
            w,
            kept_targets(targets, n).len(),
        ),
    decreases n,
{
    if n > 0 {
        let m = (n - 1) as nat;
        lemma_kept_loss(logits, targets, b, c, w, m);
        if targets[n - 1] != IGNORE_INDEX {
            let (x, s) = (kept_rows(logits, targets, c, m), kept_targets(targets, m));
            let (y, t) = (kept_rows(logits, targets, c, n), kept_targets(targets, n));
            let k = s.len();
            lemma_kept_sizes(logits, targets, c, m);
            assert forall|r: int| 0 <= r < k implies #[trigger] s[r] == t[r] && (s[r]
                != IGNORE_INDEX ==> s[r] < c && row_of(x, c, r) == row_of(y, c, r)) by {
                assert(targets.contains(s[r]));
                assert forall|j: int| 0 <= j < c implies x[r * c + j] == #[trigger] y[r * c
                    + j] by {
                    lemma_cell(r, k as int, j, c);
                }
                assert(row_of(x, c, r) =~= row_of(y, c, r));
            }
            lemma_same_loss(x, s, k as int, y, t, k as int + 1, c, w, k);
            assert(targets[n - 1] < c);
            assert forall|j: int| 0 <= j < c implies #[trigger] y[k * c + j] == row_of(
                logits,
                c,
                n - 1,
            )[j] by {}
            assert(row_of(y, c, k as int) =~= row_of(logits, c, n - 1));
            lemma_row_loss(y, t, k as int + 1, c, k as int);
            lemma_row_loss(logits, targets, b, c, n - 1);
        }
    }
}

/// The rows and the targets of the tensor that a masked loss goes by.
pub open spec fn masked_batch<T: Scalar>(g: Graph<T>, logits_id: usize, targets: Seq<usize>) -> (
    Seq<T>,
    Seq<usize>,
) {
    let shape = shape_of(g, logits_id);
    (
        kept_rows(data_of(g, logits_id), targets, shape[1] as int, shape[0] as nat),
        kept_targets(targets, shape[0] as nat),
    )
}

/// A row of logits for every target, and every target that counts is one of their classes.
pub open spec fn is_batch<T: Scalar>(g: Graph<T>, logits_id: usize, targets: Seq<usize>) -> bool {
    let shape = shape_of(g, logits_id);
    &&& host_ready(g, logits_id)
    &&& shape.len() >= 2
    &&& targets.len() == shape[0]
    &&& are_classes(targets, shape[1] as int)
}

/// Rows whose targets are to be ignored have no influence on the masked loss: it is the weighted
/// loss of the other rows alone, where every row weighs one part of their number.
pub proof fn ignored_rows_have_no_influence<T: Scalar>(
    was: Graph<T>,
    now: Graph<T>,
    id: usize,
    logits_id: usize,
    targets: Seq<usize>,
)
    requires
        is_batch(was, logits_id, targets),
        0 < valid_targets(targets) < targets.len(),
        cross_entropy_masked_host_made(was, now, id, logits_id, targets),
    ensures
        ({
            let (rows, kept) = masked_batch(was, logits_id, targets);
            let c = shape_of(was, logits_id)[1] as int;
            let n = valid_targets(targets);
            &&& kept.len() == n
            &&& rows.len() == n * c
            &&& data_of(now, id) == seq![
                loss_sum(rows, kept, n as int, c, Some(normalizer::<T>(targets)), n),
            ]
        }),
{
    let shape = shape_of(was, logits_id);
    let logits = data_of(was, logits_id);
    lemma_kept_sizes(logits, targets, shape[1] as int, shape[0] as nat);
    assert(targets.take(shape[0] as int) =~= targets);
    lemma_kept_loss(
        logits,
        targets,
        shape[0] as int,
        shape[1] as int,
        Some(normalizer::<T>(targets)),
        shape[0] as nat,
    );
}

/// Where every target counts, the masked loss is the loss.
pub proof fn masked_loss_without_ignored<T: Scalar>(
    was: Graph<T>,
    now: Graph<T>,
    other: Graph<T>,
    id: usize,
    other_id: usize,
    logits_id: usize,
    targets: Seq<usize>,
)
    requires
        valid_targets(targets) == targets.len(),
        cross_entropy_masked_host_made(was, now, id, logits_id, targets),
        cross_entropy_host_made(was, other, other_id, logits_id, targets),
    ensures
        data_of(now, id) == data_of(other, other_id),
{
}

/// Dividing is multiplying by one over the divisor, as it is but for rounding.
pub open spec fn divides_exactly<T: Scalar>() -> bool {
    forall|a: T, b: T| #[trigger] a.spec_over(b) == a.spec_times(T::spec_one().spec_over(b))
}

proof fn lemma_weighted_loss<T: Scalar>(
    logits: Seq<T>,
    targets: Seq<usize>,
    b: int,
    c: int,
    w: T,
    n: nat,
)
    requires
        exact::<T>(),
    ensures
        loss_sum(logits, targets, b, c, Some(w), n) == loss_sum(
            logits,
            targets,
            b,
            c,
            None,
            n,
        ).spec_times(w),
    decreases n,
{
    if n == 0 {
        times_zero(w);
        times_swap(T::spec_zero(), w);
    } else {
        let m = (n - 1) as nat;
        lemma_weighted_loss(logits, targets, b, c, w, m);
        let s = loss_sum(logits, targets, b, c, None, m);
        let l = row_loss(logits, targets, b, c, n - 1);
        times_plus(w, s, l);
        times_swap(w, s);
        times_swap(w, l);
        times_swap(w, s.spec_plus(l));
    }
}

/// But for rounding, the masked loss is the mean loss of the rows whose targets count: what
/// `cross_entropy` gives for these rows alone.
pub proof fn masked_loss_is_mean_of_kept<T: Scalar>(
    was: Graph<T>,
    now: Graph<T>,
    id: usize,
    logits_id: usize,
    targets: Seq<usize>,
    sub: Graph<T>,
    sub_now: Graph<T>,
    sub_out: usize,
    sub_id: usize,
)
    requires
        exact::<T>(),
        divides_exactly::<T>(),
        is_batch(was, logits_id, targets),
        0 < valid_targets(targets) < targets.len(),
        cross_entropy_masked_host_made(was, now, id, logits_id, targets),
        data_of(sub, sub_id) == masked_batch(was, logits_id, targets).0,
        shape_of(sub, sub_id) == seq![
            valid_targets(targets) as usize,
            shape_of(was, logits_id)[1],
        ],
        cross_entropy_host_made(
            sub,
            sub_now,
            sub_out,
            sub_id,
            masked_batch(was, logits_id, targets).1,
        ),
    ensures
        data_of(now, id) == data_of(sub_now, sub_out),
{
    ignored_rows_have_no_influence(was, now, id, logits_id, targets);
    let (rows, kept) = masked_batch(was, logits_id, targets);
    let c = shape_of(was, logits_id)[1] as int;
    let n = valid_targets(targets);
    lemma_weighted_loss(rows, kept, n as int, c, normalizer::<T>(targets), n);
    assert(mean_loss(rows, shape_of(sub, sub_id), kept) == loss_sum(
        rows,
        kept,
        n as int,
        c,
        None,
        n,
    ).spec_over(T::spec_from_count(n as usize)));
}

} // verus!
