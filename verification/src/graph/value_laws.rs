//! What operations are for, in arithmetic without rounding.
use crate::data::fim::IGNORE_INDEX;
use crate::graph::differential::ring::{
    cancel_factor, divides_by, exact, has_root, minus_is_plus, negated_plus, negated_twice,
    plus_group, plus_negated, plus_pairs, plus_swap, plus_zero, times_group, times_negated,
    times_one, times_plus, times_rotate, times_swap, times_zero,
};
use crate::graph::index::{lemma_cell, lemma_uncell};
use crate::graph::ops::elementwise::{add_at, sigmoid, silu_out};
use crate::graph::ops::gqa::{repeat_kv_out, RepeatDims};
use crate::graph::ops::linear::{bmm_dot, bmm_out, matmul_dot, matmul_out, BmmDims};
use crate::graph::ops::normalization::{all_rrms, rms_out, row_rrms, sum_of_squares};
use crate::graph::ops::reduction::{
    exps, largest, lemma_reduced_index, max_to, reduce_ok, reduced_index, row_loss, row_of,
    softmax_row, sum_to, total,
};
use crate::graph::ops::transform::gather_out;
use crate::scalar::Scalar;
use crate::tensor::{all_positive, lemma_product_positive, product};
use vstd::prelude::*;

verus! {

proof fn lemma_total_over<T: Scalar>(s: Seq<T>, z: T, n: nat)
    requires
        exact::<T>(),
        divides_by(z),
        n <= s.len(),
    ensures
        total(Seq::new(s.len(), |j: int| s[j].spec_over(z)), n).spec_times(z) == total(s, n),
    decreases n,
{
    let q = Seq::new(s.len(), |j: int| s[j].spec_over(z));
    if n == 0 {
        times_zero(z);
    } else {
        lemma_total_over(s, z, (n - 1) as nat);
        times_plus(z, total(q, (n - 1) as nat), q[n - 1]);
        assert(s[n - 1].spec_over(z).spec_times(z) == s[n - 1]);
    }
}

/// The weights of a row add up to one.
pub proof fn weights_add_up_to_one<T: Scalar>(s: Seq<T>)
    requires
        exact::<T>(),
        divides_by(total(exps(s), s.len())),
    ensures
        total(softmax_row(s), s.len()) == T::spec_one(),
{
    let z = total(exps(s), s.len());
    let e = exps(s);
    lemma_total_over(e, z, s.len());
    assert(softmax_row(s) =~= Seq::new(e.len(), |j: int| e[j].spec_over(z)));
    times_one(z);
    cancel_factor(total(softmax_row(s), s.len()), T::spec_one(), z);
}

/// The weights of a row are in the ratio of the exponentials of its scores.
pub proof fn weights_are_as_exponentials<T: Scalar>(s: Seq<T>, i: int, j: int)
    requires
        exact::<T>(),
        divides_by(total(exps(s), s.len())),
        forall|a: T, b: T| #[trigger]
            a.spec_minus(b).spec_exp().spec_times(b.spec_exp()) == a.spec_exp(),
        0 <= i < s.len(),
        0 <= j < s.len(),
    ensures
        softmax_row(s)[i].spec_times(s[j].spec_exp()) == softmax_row(s)[j].spec_times(
            s[i].spec_exp(),
        ),
{
    let z = total(exps(s), s.len());
    let m = largest(s, s.len());
    let (ei, ej) = (exps(s)[i], exps(s)[j]);
    let (p, q) = (softmax_row(s)[i], softmax_row(s)[j]);
    let em = m.spec_exp();
    assert(ei.spec_times(em) == s[i].spec_exp() && ej.spec_times(em) == s[j].spec_exp());
    assert(ei.spec_over(z).spec_times(z) == ei && ej.spec_over(z).spec_times(z) == ej);
    let (a, b) = (p.spec_times(s[j].spec_exp()), q.spec_times(s[i].spec_exp()));
    // p (ej m) z == (p z)(ej m) == ei ej m, and the same the other way round
    times_rotate(p, ej.spec_times(em), z);
    times_rotate(q, ei.spec_times(em), z);
    times_rotate(p, z, ej.spec_times(em));
    times_rotate(q, z, ei.spec_times(em));
    times_rotate(ei, ej, em);
    times_rotate(ej, ei, em);
    cancel_factor(a, b, z);
}

proof fn lemma_shifted_largest<T: Scalar>(s: Seq<T>, t: Seq<T>, c: T, n: nat)
    requires
        forall|x: T| #[trigger] T::spec_lowest().spec_larger(x) == x,
        forall|x: T, y: T| #[trigger]
            x.spec_plus(c).spec_larger(y.spec_plus(c)) == x.spec_larger(y).spec_plus(c),
        1 <= n <= s.len(),
        n <= t.len(),
        forall|j: int| 0 <= j < n ==> #[trigger] t[j] == s[j].spec_plus(c),
    ensures
        largest(t, n) == largest(s, n).spec_plus(c),
    decreases n,
{
    assert(t[n - 1] == s[n - 1].spec_plus(c));
    if n == 1 {
        assert(largest(t, 0) == T::spec_lowest() && largest(s, 0) == T::spec_lowest());
    } else {
        lemma_shifted_largest(s, t, c, (n - 1) as nat);
    }
}

/// The same number added to all scores of a row leaves the weights as they are.
pub proof fn weights_ignore_a_shift<T: Scalar>(s: Seq<T>, t: Seq<T>, c: T)
    requires
        exact::<T>(),
        forall|x: T| #[trigger] T::spec_lowest().spec_larger(x) == x,
        forall|x: T, y: T| #[trigger]
            x.spec_plus(c).spec_larger(y.spec_plus(c)) == x.spec_larger(y).spec_plus(c),
        s.len() == t.len(),
        forall|j: int| 0 <= j < s.len() ==> #[trigger] t[j] == s[j].spec_plus(c),
    ensures
        softmax_row(t) == softmax_row(s),
{
    if s.len() > 0 {
        lemma_shifted_largest(s, t, c, s.len());
        let m = largest(s, s.len());
        assert forall|j: int| 0 <= j < s.len() implies #[trigger] exps(t)[j] == exps(s)[j] by {
            lemma_shifted_minus(s[j], m, c);
        }
        assert(exps(t) =~= exps(s));
    }
    assert(softmax_row(t) =~= softmax_row(s));
}

proof fn lemma_shifted_minus<T: Scalar>(a: T, b: T, c: T)
    requires
        exact::<T>(),
    ensures
        a.spec_plus(c).spec_minus(b.spec_plus(c)) == a.spec_minus(b),
{
    minus_is_plus(a.spec_plus(c), b.spec_plus(c));
    minus_is_plus(a, b);
    negated_plus(b, c);
    plus_pairs(a, c, b.spec_negated(), c.spec_negated());
    plus_negated(c);
    plus_zero(a.spec_plus(b.spec_negated()));
}

/// SiLU of a number less SiLU of its opposite is the number: both sigmoids are parts of one.
pub proof fn silu_of_opposites<T: Scalar>(a: Seq<T>, b: Seq<T>, i: int)
    requires
        exact::<T>(),
        0 <= i < a.len(),
        0 <= i < b.len(),
        b[i] == a[i].spec_negated(),
        a[i].spec_exp().spec_times(a[i].spec_negated().spec_exp()) == T::spec_one(),
        divides_by(T::spec_one().spec_plus(a[i].spec_exp())),
        divides_by(T::spec_one().spec_plus(a[i].spec_negated().spec_exp())),
    ensures
        silu_out(a)[i].spec_minus(silu_out(b)[i]) == a[i],
        sigmoid(a[i]).spec_plus(sigmoid(b[i])) == T::spec_one(),
{
    let one = T::spec_one();
    let x = a[i];
    negated_twice(x);
    let (p, q) = (x.spec_exp(), x.spec_negated().spec_exp());
    let (u, v) = (one.spec_plus(q), one.spec_plus(p));
    let (su, sv) = (one.spec_over(u), one.spec_over(v));
    assert(su.spec_times(u) == one && sv.spec_times(v) == one);
    // u p == v, so su == p sv, and su + sv == (p + 1) sv
    times_plus(p, one, q);
    times_one(p);
    plus_swap(p, one);
    assert(p.spec_times(u) == v);
    times_group(sv, p, u);
    cancel_factor(su, sv.spec_times(p), u);
    times_plus(sv, p, one);
    times_one(sv);
    times_swap(sv, v);
    let (sx, sn) = (sigmoid(x), sigmoid(x.spec_negated()));
    assert(sx == su && sn == sv);
    assert(sx.spec_plus(sn) == one);
    // x sx - (-x) sn == x (sx + sn)
    times_negated(sn, x);
    let y = x.spec_times(sn);
    minus_is_plus(x.spec_times(sx), y.spec_negated());
    negated_twice(y);
    times_plus(x, sx, sn);
    times_one(x);
}

proof fn lemma_scaled_squares<T: Scalar>(x: Seq<T>, off: int, k: T, n: nat)
    requires
        exact::<T>(),
    ensures
        sum_of_squares(x, off, n).spec_times(k.spec_times(k)) == total(
            Seq::new(
                n,
                |c: int|
                    x[off + c].spec_times(k).spec_times(x[off + c].spec_times(k)),
            ),
            n,
        ),
    decreases n,
{
    let f = |c: int| x[off + c].spec_times(k).spec_times(x[off + c].spec_times(k));
    if n == 0 {
        times_zero(k.spec_times(k));
    } else {
        let m = (n - 1) as nat;
        lemma_scaled_squares(x, off, k, m);
        let y = x[off + n - 1];
        times_plus(k.spec_times(k), sum_of_squares(x, off, m), y.spec_times(y));
        times_rotate(y, k, y.spec_times(k));
        times_rotate(y, k, k);
        times_group(y, y, k.spec_times(k));
        times_group(y, k, k);
        times_swap(k, y.spec_times(k));
        times_group(y, k, y.spec_times(k));
        lemma_same_total(Seq::new(m, f), Seq::new(n, f), m);
    }
}

proof fn lemma_same_total<T: Scalar>(a: Seq<T>, b: Seq<T>, n: nat)
    requires
        n <= a.len(),
        n <= b.len(),
        forall|j: int| 0 <= j < n ==> #[trigger] a[j] == b[j],
    ensures
        total(a, n) == total(b, n),
    decreases n,
{
    if n > 0 {
        lemma_same_total(a, b, (n - 1) as nat);
        assert(a[n - 1] == b[n - 1]);
    }
}

/// A row is normalised by one number for all of it, whose square times the mean square of the row,
/// with `eps` added, is one; then each element is multiplied with the weight of its column.
pub proof fn rows_get_mean_square_one<T: Scalar>(
    x: Seq<T>,
    w: Seq<T>,
    rows: int,
    dim: int,
    eps: T,
    r: int,
) -> (k: T)
    requires
        exact::<T>(),
        0 < dim <= usize::MAX,
        0 <= r < rows,
        x.len() == rows * dim,
        divides_by(T::spec_from_count(dim as usize)),
        ({
            let mean = sum_of_squares(x, r * dim, dim as nat).spec_over(
                T::spec_from_count(dim as usize),
            );
            has_root(mean.spec_plus(eps)) && divides_by(mean.spec_plus(eps).spec_sqrt())
        }),
    ensures
        forall|c: int|
            0 <= c < dim ==> #[trigger] row_of(
                rms_out(x, w, dim, all_rrms(x, dim, eps, rows)),
                dim,
                r,
            )[c] == row_of(x, dim, r)[c].spec_times(k).spec_times(w[c]),
        total(
            Seq::new(
                dim as nat,
                |c: int|
                    x[r * dim + c].spec_times(k).spec_times(x[r * dim + c].spec_times(k)),
            ),
            dim as nat,
        ).spec_plus(k.spec_times(k).spec_times(eps).spec_times(T::spec_from_count(dim as usize)))
            == T::spec_from_count(dim as usize),
{
    let k = row_rrms(x, dim, eps, r);
    let (one, n) = (T::spec_one(), T::spec_from_count(dim as usize));
    let sum = sum_of_squares(x, r * dim, dim as nat);
    let mean = sum.spec_over(n);
    let ms = mean.spec_plus(eps);
    let root = ms.spec_sqrt();
    let out = rms_out(x, w, dim, all_rrms(x, dim, eps, rows));
    assert forall|c: int| 0 <= c < dim implies #[trigger] row_of(out, dim, r)[c] == row_of(
        x,
        dim,
        r,
    )[c].spec_times(k).spec_times(w[c]) by {
        lemma_cell(r, rows, c, dim);
    }
    let kk = k.spec_times(k);
    assert(one.spec_over(root).spec_times(root) == one);
    assert(k.spec_times(root) == one);
    // kk ms == (k root)(k root) == 1
    times_group(k, k, ms);
    times_group(k, root, root);
    times_one(root);
    assert(kk.spec_times(ms) == one);
    // kk (mean + eps) n == n
    times_plus(kk, mean, eps);
    let (p, q) = (kk.spec_times(mean), kk.spec_times(eps));
    times_plus(n, p, q);
    times_one(n);
    assert(mean.spec_times(n) == sum);
    times_group(kk, mean, n);
    times_swap(kk, sum);
    lemma_scaled_squares(x, r * dim, k, dim as nat);
    k
}

/// The exponential of the loss of a row, negated, is the weight of its target, but for the small
/// number that keeps the logarithm finite.
pub proof fn loss_is_logarithm_of_weight<T: Scalar>(
    logits: Seq<T>,
    targets: Seq<usize>,
    rows: int,
    classes: int,
    r: int,
)
    requires
        exact::<T>(),
        forall|x: T| #[trigger] x.spec_ln().spec_exp() == x,
        0 <= r < rows,
        targets[r] != IGNORE_INDEX,
        targets[r] < classes,
    ensures
        row_loss(logits, targets, rows, classes, r).spec_negated().spec_exp() == softmax_row(
            row_of(logits, classes, r),
        )[targets[r] as int].spec_plus(T::spec_decimal(1, 8)),
{
    lemma_cell(r, rows, targets[r] as int, classes);
    let p = softmax_row(row_of(logits, classes, r))[targets[r] as int].spec_plus(
        T::spec_decimal(1, 8),
    );
    negated_twice(p.spec_ln());
    assert(p.spec_ln().spec_exp() == p);
}

proof fn lemma_unit_dot<T: Scalar>(
    a: Seq<T>,
    w: Seq<T>,
    k: int,
    n: int,
    r: int,
    c: int,
    p: int,
    q: int,
    i: nat,
)
    requires
        exact::<T>(),
        i <= k,
        0 <= c < n,
        0 <= p < k,
        0 <= q < n,
        forall|x: int, y: int|
            0 <= x < k && 0 <= y < n ==> #[trigger] w[x * n + y] == (if x == p && y == q {
                T::spec_one()
            } else {
                T::spec_zero()
            }),
    ensures
        matmul_dot(a, w, k, n, r, c, i) == (if c == q && p < i {
            a[r * k + p]
        } else {
            T::spec_zero()
        }),
    decreases i,
{
    if i > 0 {
        lemma_unit_dot(a, w, k, n, r, c, p, q, (i - 1) as nat);
        let x = i - 1;
        assert(w[x * n + c] == (if x == p && c == q {
            T::spec_one()
        } else {
            T::spec_zero()
        }));
        let y = a[r * k + i - 1];
        times_one(y);
        times_zero(y);
        plus_zero(y);
        plus_zero(T::spec_zero());
        plus_zero(a[r * k + p]);
    }
}

/// A matrix times one that holds a single one, in row `p` and column `q`, has its column `p` in
/// column `q`, and is zero elsewhere.
pub proof fn product_with_unit<T: Scalar>(
    a: Seq<T>,
    w: Seq<T>,
    m: int,
    k: int,
    n: int,
    p: int,
    q: int,
    r: int,
    c: int,
)
    requires
        exact::<T>(),
        0 <= r < m,
        0 <= c < n,
        0 <= p < k,
        0 <= q < n,
        forall|x: int, y: int|
            0 <= x < k && 0 <= y < n ==> #[trigger] w[x * n + y] == (if x == p && y == q {
                T::spec_one()
            } else {
                T::spec_zero()
            }),
    ensures
        matmul_out(a, w, m, k, n)[r * n + c] == (if c == q {
            a[r * k + p]
        } else {
            T::spec_zero()
        }),
{
    lemma_cell(r, m, c, n);
    lemma_unit_dot(a, w, k, n, r, c, p, q, k as nat);
}

proof fn lemma_total_added<T: Scalar>(s: Seq<T>, j: int, x: T, n: nat)
    requires
        exact::<T>(),
        0 <= j < s.len(),
        n <= s.len(),
    ensures
        total(add_at(s, j, x), n) == (if j < n {
            total(s, n).spec_plus(x)
        } else {
            total(s, n)
        }),
    decreases n,
{
    if n > 0 {
        let m = (n - 1) as nat;
        lemma_total_added(s, j, x, m);
        let (a, b) = (total(s, m), s[n - 1]);
        if j == n - 1 {
            plus_group(a, b, x);
        } else if j < n - 1 {
            plus_group(a, x, b);
            plus_swap(x, b);
            plus_group(a, b, x);
        }
    }
}

proof fn lemma_total_of_zeros<T: Scalar>(n: nat, k: nat)
    requires
        exact::<T>(),
        k <= n,
    ensures
        total(Seq::new(n, |i: int| T::spec_zero()), k) == T::spec_zero(),
    decreases k,
{
    if k > 0 {
        lemma_total_of_zeros::<T>(n, (k - 1) as nat);
        plus_zero(T::spec_zero());
    }
}

proof fn lemma_sums_keep<T: Scalar>(a: Seq<T>, shape: Seq<usize>, dim: int, n: nat)
    requires
        exact::<T>(),
        reduce_ok(shape, dim),
        n <= a.len(),
        n > 0 ==> all_positive(shape),
    ensures
        sum_to(a, shape, dim, n).len() == product(shape.remove(dim)),
        total(sum_to(a, shape, dim, n), product(shape.remove(dim))) == total(a, n),
    decreases n,
{
    let size = product(shape.remove(dim));
    if n == 0 {
        lemma_total_of_zeros::<T>(size, size);
    } else {
        let m = (n - 1) as nat;
        lemma_sums_keep(a, shape, dim, m);
        lemma_reduced_index(shape, dim, n - 1);
        lemma_total_added(
            sum_to(a, shape, dim, m),
            reduced_index(shape, dim, n - 1),
            a[n - 1],
            size,
        );
    }
}

/// The sums over a dimension add up to the sum of all elements.
pub proof fn sums_add_up<T: Scalar>(a: Seq<T>, shape: Seq<usize>, dim: int)
    requires
        exact::<T>(),
        reduce_ok(shape, dim),
        a.len() == product(shape),
    ensures
        total(sum_to(a, shape, dim, a.len()), product(shape.remove(dim))) == total(a, a.len()),
{
    if a.len() > 0 {
        lemma_product_positive(shape);
    }
    lemma_sums_keep(a, shape, dim, a.len());
}

/// A maximum over a dimension is above all: none of its elements is above it, and it is one of them,
/// at the position that is given for it, or the lowest number.
pub proof fn maximum_is_above_all<T: Scalar>(a: Seq<T>, shape: Seq<usize>, dim: int, n: nat)
    requires
        forall|x: T| !#[trigger] x.spec_above(x),
        forall|x: T, y: T, z: T| #[trigger]
            x.spec_above(y) && !#[trigger] z.spec_above(y) ==> !z.spec_above(x),
        reduce_ok(shape, dim),
        n <= a.len(),
        a.len() <= usize::MAX,
        n > 0 ==> all_positive(shape),
    ensures
        ({
            let (m, at) = max_to(a, shape, dim, n);
            let size = product(shape.remove(dim));
            &&& m.len() == size
            &&& at.len() == size
            &&& forall|i: int|
                0 <= i < n ==> !(#[trigger] a[i]).spec_above(m[reduced_index(shape, dim, i)])
            &&& forall|j: int|
                0 <= j < size ==> #[trigger] m[j] == T::spec_lowest() || {
                    &&& at[j] < n
                    &&& reduced_index(shape, dim, at[j] as int) == j
                    &&& m[j] == a[at[j] as int]
                }
        }),
    decreases n,
{
    if n > 0 {
        let k = (n - 1) as nat;
        maximum_is_above_all(a, shape, dim, k);
        lemma_reduced_index(shape, dim, n - 1);
        let (p, pat) = max_to(a, shape, dim, k);
        let (m, at) = max_to(a, shape, dim, n);
        let j = reduced_index(shape, dim, n - 1);
        assert forall|i: int| 0 <= i < n implies !(#[trigger] a[i]).spec_above(
            m[reduced_index(shape, dim, i)],
        ) by {
            if i < k {
                assert(!a[i].spec_above(p[reduced_index(shape, dim, i)]));
                lemma_reduced_index(shape, dim, i);
            }
        }
        assert forall|q: int| 0 <= q < m.len() implies #[trigger] m[q] == T::spec_lowest() || {
            &&& at[q] < n
            &&& reduced_index(shape, dim, at[q] as int) == q
            &&& m[q] == a[at[q] as int]
        } by {
            assert(p[q] == T::spec_lowest() || pat[q] < k);
        }
    }
}

/// A gathered row is the row that the index names.
pub proof fn gathered_rows_are_rows<T: Scalar>(w: Seq<T>, rows: Seq<usize>, n: int, r: int)
    requires
        0 <= r < rows.len(),
        0 <= n,
    ensures
        row_of(gather_out(w, rows, n), n, r) == row_of(w, n, rows[r] as int),
{
    let out = gather_out(w, rows, n);
    assert forall|c: int| 0 <= c < n implies row_of(out, n, r)[c] == row_of(w, n, rows[r] as int)[c] by {
        lemma_cell(r, rows.len() as int, c, n);
    }
    assert(row_of(out, n, r) =~= row_of(w, n, rows[r] as int));
}

proof fn lemma_batched_dot<T: Scalar>(
    a: Seq<T>,
    b: Seq<T>,
    d: BmmDims,
    n: int,
    r: int,
    c: int,
    i: nat,
)
    requires
        !d.trans_b,
        0 <= n < d.batch,
        0 <= r < d.m,
        0 <= c < d.n,
        i <= d.k,
        d.batch * d.m * d.k <= a.len(),
        d.batch * d.k * d.n <= b.len(),
    ensures
        bmm_dot(a, b, d, (n * d.m + r) * d.n + c, i) == matmul_dot(
            a.subrange(n * (d.m * d.k), (n + 1) * (d.m * d.k)),
            b.subrange(n * (d.k * d.n), (n + 1) * (d.k * d.n)),
            d.k as int,
            d.n as int,
            r,
            c,
            i,
        ),
    decreases i,
{
    if i > 0 {
        lemma_batched_dot(a, b, d, n, r, c, (i - 1) as nat);
        let (m, k, w) = (d.m as int, d.k as int, d.n as int);
        let j = i - 1;
        lemma_cell(n, d.batch as int, r, m);
        lemma_cell(n * m + r, d.batch * m, c, w);
        lemma_cell(r, m, j, k);
        lemma_cell(j, k, c, w);
        assert((n * m + r) * k + j == n * (m * k) + (r * k + j)) by (nonlinear_arith);
        assert((n * k + j) * w + c == n * (k * w) + (j * w + c)) by (nonlinear_arith);
        assert(0 <= n * (m * k) && (n + 1) * (m * k) <= d.batch * m * k && (n + 1) * (m * k) == n * (m
            * k) + m * k) by (nonlinear_arith)
            requires
                0 <= n < d.batch,
                m >= 0,
                k >= 0,
        ;
        assert(0 <= n * (k * w) && (n + 1) * (k * w) <= d.batch * k * w && (n + 1) * (k * w) == n * (k
            * w) + k * w) by (nonlinear_arith)
            requires
                0 <= n < d.batch,
                k >= 0,
                w >= 0,
        ;
    }
}

/// The product of pairs of matrices is, pair by pair, the product of the two.
pub proof fn batched_product_is_product_of_each<T: Scalar>(
    a: Seq<T>,
    b: Seq<T>,
    d: BmmDims,
    n: int,
    r: int,
    c: int,
)
    requires
        !d.trans_b,
        0 <= n < d.batch,
        0 <= r < d.m,
        0 <= c < d.n,
        d.batch * d.m * d.k <= a.len(),
        d.batch * d.k * d.n <= b.len(),
    ensures
        bmm_out(a, b, d)[(n * d.m + r) * d.n + c] == matmul_out(
            a.subrange(n * (d.m * d.k), (n + 1) * (d.m * d.k)),
            b.subrange(n * (d.k * d.n), (n + 1) * (d.k * d.n)),
            d.m as int,
            d.k as int,
            d.n as int,
        )[r * d.n + c],
{
    lemma_cell(n, d.batch as int, r, d.m as int);
    lemma_cell(n * d.m + r, d.batch * d.m, c, d.n as int);
    lemma_cell(r, d.m as int, c, d.n as int);
    lemma_batched_dot(a, b, d, n, r, c, d.k as nat);
}

/// Heads are repeated in groups: head `h` of the result is head `h / repeats` of the operand.
pub proof fn repeated_heads_follow_in_groups<T>(
    a: Seq<T>,
    d: RepeatDims,
    b: int,
    h: int,
    j: int,
    c: int,
)
    requires
        d.repeats > 0,
        0 <= b < d.batch,
        0 <= h < d.kv * d.repeats,
        0 <= j < d.seq,
        0 <= c < d.dim,
    ensures
        repeat_kv_out(a, d)[((b * (d.kv * d.repeats) + h) * d.seq + j) * d.dim + c] == a[((b * d.kv
            + h / d.repeats as int) * d.seq + j) * d.dim + c],
{
    let (s, w, k) = (d.seq as int, d.dim as int, d.repeats as int);
    let heads = d.kv * k;
    let m = b * heads + h;
    let head = s * w;
    let o = (m * s + j) * w + c;
    lemma_cell(b, d.batch as int, h, heads);
    lemma_cell(j, s, c, w);
    lemma_cell(m, d.batch * heads, j * w + c, head);
    lemma_uncell(h, d.kv as int, k);
    let from = b * d.kv + h / k;
    assert(m == from * k + h % k) by (nonlinear_arith)
        requires
            m == b * heads + h,
            heads == d.kv * k,
            from == b * d.kv + h / k,
            h == (h / k) * k + h % k,
    ;
    vstd::arithmetic::div_mod::lemma_fundamental_div_mod_converse(m, k, from, h % k);
    assert(o == m * head + (j * w + c)) by (nonlinear_arith)
        requires
            head == s * w,
            o == (m * s + j) * w + c,
    ;
    assert(from * head + (j * w + c) == (from * s + j) * w + c) by (nonlinear_arith)
        requires
            head == s * w,
    ;
    assert(d.source(o) == (from * s + j) * w + c);
    assert(d.out_len() == d.batch * heads * head);
}

} // verus!
