//! Operations that move, repeat, pick or add up elements.
use crate::graph::differential::ring::{
    exact, plus_group, plus_pairs, plus_zero, times_plus, times_zero,
};
use crate::graph::differential::sums::{inner, inner_of_added};
use crate::graph::index::{lemma_cell, lemma_uncell};
use crate::graph::ops::elementwise::add_at;
use crate::graph::ops::gqa::{
    lemma_copy_at, lemma_source, repeat_kv_back, repeats_added, RepeatDims,
};
use crate::graph::ops::reduction::{
    lemma_reduced_index, reduce_ok, reduced_index, scatter_to, sum_back, sum_to,
};
use crate::graph::ops::transform::{
    gather_back, lemma_swapped, plain_back, rows_ok, strided_back, strided_index, strided_ok,
    swapped_index, transpose_0213_back,
};
use crate::scalar::Scalar;
use crate::tensor::{lemma_product_positive, product};
use vstd::prelude::*;

verus! {

/// Element `at(o)` at every place `o`.
pub open spec fn picked_from<T>(d: Seq<T>, at: spec_fn(int) -> int, n: nat) -> Seq<T> {
    Seq::new(n, |o: int| d[at(o)])
}

/// `grad` with the first `n` of `og` added to the elements at `at`, one after the other.
pub open spec fn scattered<T: Scalar>(
    at: spec_fn(int) -> int,
    og: Seq<T>,
    grad: Seq<T>,
    n: nat,
) -> Seq<T>
    decreases n,
{
    if n == 0 {
        grad
    } else {
        add_at(scattered(at, og, grad, (n - 1) as nat), at(n - 1), og[n - 1])
    }
}

/// Adding to elements is the transpose of picking them.
pub proof fn scattered_adjoint<T: Scalar>(
    at: spec_fn(int) -> int,
    og: Seq<T>,
    grad: Seq<T>,
    d: Seq<T>,
    n: nat,
    all: nat,
)
    requires
        exact::<T>(),
        n <= all,
        forall|o: int| 0 <= o < n ==> 0 <= #[trigger] at(o) < grad.len(),
    ensures
        scattered(at, og, grad, n).len() == grad.len(),
        inner(scattered(at, og, grad, n), d, grad.len()) == inner(grad, d, grad.len()).spec_plus(
            inner(og, picked_from(d, at, all), n),
        ),
    decreases n,
{
    let base = inner(grad, d, grad.len());
    let p = picked_from(d, at, all);
    if n == 0 {
        plus_zero(base);
    } else {
        let m = (n - 1) as nat;
        scattered_adjoint(at, og, grad, d, m, all);
        let o = n - 1;
        assert(0 <= at(o) < grad.len());
        inner_of_added(scattered(at, og, grad, m), d, at(o), og[o], grad.len());
        assert(p[o] == d[at(o)]);
        plus_group(base, inner(og, p, m), og[o].spec_times(p[o]));
    }
}

/// Going back through maxima is the transpose of picking the elements that have them.
pub proof fn max_adjoint<T: Scalar>(at: Seq<usize>, og: Seq<T>, grad: Seq<T>, d: Seq<T>)
    requires
        exact::<T>(),
        at.len() == og.len(),
        forall|j: int| 0 <= j < at.len() ==> #[trigger] at[j] < grad.len(),
    ensures
        scatter_to(at, og, grad, og.len()).len() == grad.len(),
        inner(scatter_to(at, og, grad, og.len()), d, grad.len()) == inner(
            grad,
            d,
            grad.len(),
        ).spec_plus(inner(og, picked_from(d, |j: int| at[j] as int, at.len()), at.len())),
{
    let f = |j: int| at[j] as int;
    lemma_max_is_scatter(at, og, grad, og.len());
    assert forall|o: int| 0 <= o < og.len() implies 0 <= #[trigger] f(o) < grad.len() by {
        assert(at[o] < grad.len());
    }
    scattered_adjoint(f, og, grad, d, og.len(), og.len());
}

proof fn lemma_max_is_scatter<T: Scalar>(at: Seq<usize>, og: Seq<T>, grad: Seq<T>, n: nat)
    ensures
        scatter_to(at, og, grad, n) == scattered(|j: int| at[j] as int, og, grad, n),
    decreases n,
{
    if n > 0 {
        lemma_max_is_scatter(at, og, grad, (n - 1) as nat);
    }
}

/// The place of element `o` of the gathered rows.
pub open spec fn gathered_at(rows: Seq<usize>, hidden: int) -> spec_fn(int) -> int {
    |o: int| rows[o / hidden] * hidden + o % hidden
}

/// Going back through gathered rows is the transpose of gathering.
pub proof fn gather_adjoint<T: Scalar>(
    rows: Seq<usize>,
    hidden: usize,
    og: Seq<T>,
    grad: Seq<T>,
    d: Seq<T>,
)
    requires
        exact::<T>(),
        rows_ok(rows, hidden as int, grad.len()),
        og.len() == rows.len() * hidden,
    ensures
        gather_back(rows, hidden as int, og, grad, og.len()).len() == grad.len(),
        inner(gather_back(rows, hidden as int, og, grad, og.len()), d, grad.len()) == inner(
            grad,
            d,
            grad.len(),
        ).spec_plus(
            inner(og, picked_from(d, gathered_at(rows, hidden as int), og.len()), og.len()),
        ),
{
    let f = gathered_at(rows, hidden as int);
    lemma_gather_is_scatter(rows, hidden as int, og, grad, og.len());
    assert forall|o: int| 0 <= o < og.len() implies 0 <= #[trigger] f(o) < grad.len() by {
        lemma_uncell(o, rows.len() as int, hidden as int);
        let row = rows[o / hidden as int];
        assert((row + 1) * hidden <= grad.len());
        lemma_cell(row as int, row + 1, o % hidden as int, hidden as int);
    }
    scattered_adjoint(f, og, grad, d, og.len(), og.len());
}

proof fn lemma_gather_is_scatter<T: Scalar>(
    rows: Seq<usize>,
    hidden: int,
    og: Seq<T>,
    grad: Seq<T>,
    n: nat,
)
    ensures
        gather_back(rows, hidden, og, grad, n) == scattered(gathered_at(rows, hidden), og, grad, n),
    decreases n,
{
    if n > 0 {
        lemma_gather_is_scatter(rows, hidden, og, grad, (n - 1) as nat);
    }
}

/// Going back through a view is the transpose of looking through it.
pub proof fn strided_adjoint<T: Scalar>(
    shape: Seq<usize>,
    strides: Seq<usize>,
    og: Seq<T>,
    grad: Seq<T>,
    d: Seq<T>,
)
    requires
        exact::<T>(),
        strided_ok(shape, strides, og.len(), grad.len()),
    ensures
        strided_back(shape, strides, og, grad, og.len()).len() == grad.len(),
        inner(strided_back(shape, strides, og, grad, og.len()), d, grad.len()) == inner(
            grad,
            d,
            grad.len(),
        ).spec_plus(
            inner(
                og,
                picked_from(d, |o: int| strided_index(shape, strides, o), og.len()),
                og.len(),
            ),
        ),
{
    let f = |o: int| strided_index(shape, strides, o);
    lemma_strided_is_scatter(shape, strides, og, grad, og.len());
    assert forall|o: int| 0 <= o < og.len() implies 0 <= #[trigger] f(o) < grad.len() by {
        assert(strided_index(shape, strides, o) < grad.len());
    }
    scattered_adjoint(f, og, grad, d, og.len(), og.len());
}

proof fn lemma_strided_is_scatter<T: Scalar>(
    shape: Seq<usize>,
    strides: Seq<usize>,
    og: Seq<T>,
    grad: Seq<T>,
    n: nat,
)
    ensures
        strided_back(shape, strides, og, grad, n) == scattered(
            |o: int| strided_index(shape, strides, o),
            og,
            grad,
            n,
        ),
    decreases n,
{
    if n > 0 {
        lemma_strided_is_scatter(shape, strides, og, grad, (n - 1) as nat);
    }
}

/// Going back through other dimensions for the same elements is the transpose of keeping them.
pub proof fn plain_adjoint<T: Scalar>(og: Seq<T>, grad: Seq<T>, d: Seq<T>, n: nat)
    requires
        exact::<T>(),
        n <= grad.len(),
    ensures
        inner(plain_back(og, grad), d, n) == inner(grad, d, n).spec_plus(inner(og, d, n)),
    decreases n,
{
    if n == 0 {
        plus_zero(T::spec_zero());
    } else {
        let m = (n - 1) as nat;
        let i = n - 1;
        plain_adjoint(og, grad, d, m);
        times_plus(d[i], grad[i], og[i]);
        plus_pairs(
            inner(grad, d, m),
            inner(og, d, m),
            grad[i].spec_times(d[i]),
            og[i].spec_times(d[i]),
        );
    }
}

/// Going back through sums over a dimension is the transpose of summing.
pub proof fn sum_adjoint<T: Scalar>(
    shape: Seq<usize>,
    dim: int,
    og: Seq<T>,
    grad: Seq<T>,
    d: Seq<T>,
    n: nat,
)
    requires
        exact::<T>(),
        reduce_ok(shape, dim),
        grad.len() == product(shape),
        n <= grad.len(),
    ensures
        sum_to(d, shape, dim, n).len() == product(shape.remove(dim)),
        inner(sum_back(shape, dim, og, grad), d, n) == inner(grad, d, n).spec_plus(
            inner(og, sum_to(d, shape, dim, n), product(shape.remove(dim))),
        ),
    decreases n,
{
    let size = product(shape.remove(dim));
    let back = sum_back(shape, dim, og, grad);
    if n == 0 {
        lemma_inner_zero(og, sum_to(d, shape, dim, 0), size);
        plus_zero(T::spec_zero());
    } else {
        let m = (n - 1) as nat;
        let i = n - 1;
        sum_adjoint(shape, dim, og, grad, d, m);
        lemma_product_positive(shape);
        lemma_reduced_index(shape, dim, i);
        let j = reduced_index(shape, dim, i);
        let y = sum_to(d, shape, dim, m);
        inner_of_added(y, og, j, d[i], size);
        assert(back[i] == grad[i].spec_plus(og[j]));
        times_plus(d[i], grad[i], og[j]);
        plus_pairs(
            inner(grad, d, m),
            inner(og, y, size),
            grad[i].spec_times(d[i]),
            og[j].spec_times(d[i]),
        );
    }
}

/// Products with zeros come to nothing.
pub proof fn lemma_inner_zero<T: Scalar>(x: Seq<T>, y: Seq<T>, n: nat)
    requires
        exact::<T>(),
        forall|i: int| 0 <= i < n ==> #[trigger] y[i] == T::spec_zero(),
    ensures
        inner(x, y, n) == T::spec_zero(),
        inner(y, x, n) == T::spec_zero(),
    decreases n,
{
    if n > 0 {
        lemma_inner_zero(x, y, (n - 1) as nat);
        assert(y[n - 1] == T::spec_zero());
        times_zero(x[n - 1]);
        plus_zero(T::spec_zero());
    }
}

/// Going back through exchanged middle dimensions is the transpose of exchanging them.
pub proof fn transpose_0213_adjoint<T: Scalar>(
    og: Seq<T>,
    grad: Seq<T>,
    d: Seq<T>,
    b: usize,
    s: usize,
    h: usize,
    w: usize,
)
    requires
        exact::<T>(),
        grad.len() == b * s * h * w,
        og.len() == grad.len(),
    ensures
        inner(
            transpose_0213_back(og, grad, s as int, h as int, w as int),
            d,
            grad.len(),
        ) == inner(grad, d, grad.len()).spec_plus(
            inner(
                og,
                picked_from(d, |o: int| swapped_index(s as int, h as int, w as int, o), og.len()),
                og.len(),
            ),
        ),
{
    let f = |o: int| swapped_index(s as int, h as int, w as int, o);
    let n = grad.len();
    assert(b * s * h * w == b * h * s * w) by (nonlinear_arith);
    assert forall|o: int| 0 <= o < n implies 0 <= #[trigger] f(o) < n by {
        lemma_swapped(b as int, s as int, h as int, w as int, o);
    }
    lemma_swap_is_scatter(og, grad, b as int, s as int, h as int, w as int, n);
    scattered_adjoint(f, og, grad, d, n, n);
}

proof fn lemma_swap_is_scatter<T: Scalar>(
    og: Seq<T>,
    grad: Seq<T>,
    b: int,
    s: int,
    h: int,
    w: int,
    n: nat,
)
    requires
        0 <= b,
        0 <= s,
        0 <= h,
        0 <= w,
        grad.len() == b * s * h * w,
        grad.len() == b * h * s * w,
        n <= grad.len(),
    ensures
        ({
            let r = scattered(|o: int| swapped_index(s, h, w, o), og, grad, n);
            &&& r.len() == grad.len()
            &&& forall|i: int|
                0 <= i < grad.len() ==> #[trigger] r[i] == (if swapped_index(h, s, w, i) < n {
                    grad[i].spec_plus(og[swapped_index(h, s, w, i)])
                } else {
                    grad[i]
                })
        }),
        n == grad.len() ==> scattered(|o: int| swapped_index(s, h, w, o), og, grad, n)
            == transpose_0213_back(og, grad, s, h, w),
    decreases n,
{
    let f = |o: int| swapped_index(s, h, w, o);
    let r = scattered(f, og, grad, n);
    if n == 0 {
        assert forall|i: int| 0 <= i < grad.len() implies swapped_index(h, s, w, i) >= 0 by {
            lemma_swapped(b, h, s, w, i);
        }
    } else {
        let m = (n - 1) as nat;
        lemma_swap_is_scatter(og, grad, b, s, h, w, m);
        let before = scattered(f, og, grad, m);
        let at = f(n - 1);
        lemma_swapped(b, s, h, w, n - 1);
        assert forall|i: int| 0 <= i < grad.len() implies #[trigger] r[i] == (if swapped_index(
            h,
            s,
            w,
            i,
        ) < n {
            grad[i].spec_plus(og[swapped_index(h, s, w, i)])
        } else {
            grad[i]
        }) by {
            lemma_swapped(b, h, s, w, i);
            if i == at {
                assert(swapped_index(h, s, w, i) == n - 1);
            } else {
                assert(r[i] == before[i]);
                assert(swapped_index(h, s, w, i) != n - 1);
            }
        }
    }
    if n == grad.len() {
        assert forall|i: int| 0 <= i < grad.len() implies swapped_index(h, s, w, i) < n by {
            lemma_swapped(b, h, s, w, i);
        }
        assert(r =~= transpose_0213_back(og, grad, s, h, w));
    }
}

proof fn lemma_copy_of_source(d: RepeatDims, o: int)
    requires
        d.fits(),
        0 <= o < d.out_len(),
    ensures
        0 <= (o / d.head()) % d.repeats as int,
        (o / d.head()) % (d.repeats as int) < d.repeats,
        d.copy_at(d.source(o), (o / d.head()) % d.repeats as int) == o,
{
    lemma_source(d, o);
    let h = d.head();
    let n = d.repeats as int;
    let q = o / h;
    let k = q / n;
    vstd::arithmetic::div_mod::lemma_fundamental_div_mod(o, h);
    vstd::arithmetic::div_mod::lemma_fundamental_div_mod(q, n);
    vstd::arithmetic::div_mod::lemma_fundamental_div_mod_converse(d.source(o), h, k, o % h);
    assert(k * n == n * k && q * h == h * q) by (nonlinear_arith);
}

proof fn lemma_copies_rise(d: RepeatDims, i: int, r: int, t: int)
    requires
        d.head() > 0,
        r < t,
    ensures
        d.copy_at(i, r) < d.copy_at(i, t),
{
    let h = d.head();
    let k = (i / h) * d.repeats;
    assert((k + r) * h < (k + t) * h) by (nonlinear_arith)
        requires
            h > 0,
            r < t,
    ;
}

/// How many repetitions of element `i` lie among the first `n` places.
spec fn copies_before(d: RepeatDims, i: int, n: nat) -> nat
    decreases n,
{
    if n == 0 {
        0
    } else {
        copies_before(d, i, (n - 1) as nat) + (if d.source(n - 1) == i {
            1nat
        } else {
            0
        })
    }
}

proof fn lemma_copies_before(d: RepeatDims, i: int, n: nat)
    requires
        d.fits(),
        0 <= i < d.in_len(),
        n <= d.out_len(),
    ensures
        ({
            let c = copies_before(d, i, n);
            &&& c <= d.repeats
            &&& c < d.repeats ==> d.copy_at(i, c as int) >= n
            &&& c > 0 ==> d.copy_at(i, c - 1) < n
        }),
    decreases n,
{
    let c = copies_before(d, i, n);
    if n == 0 {
        if c < d.repeats {
            lemma_copy_at(d, i, c as int);
        }
    } else {
        let m = (n - 1) as nat;
        let o = n - 1;
        let was = copies_before(d, i, m);
        lemma_copies_before(d, i, m);
        lemma_source(d, o);
        let r = (o / d.head()) % d.repeats as int;
        lemma_copy_of_source(d, o);
        if d.source(o) == i {
            if was > r + 1 {
                lemma_copies_rise(d, i, r, was - 1);
            } else if was < r {
                lemma_copies_rise(d, i, was as int, r);
            }
            assert(was == r);
            lemma_copies_rise(d, i, r, r + 1);
        } else if was < d.repeats {
            lemma_copy_at(d, i, was as int);
        }
    }
}

proof fn lemma_repeat_is_scatter<T: Scalar>(d: RepeatDims, og: Seq<T>, grad: Seq<T>, n: nat)
    requires
        d.fits(),
        grad.len() == d.in_len(),
        n <= d.out_len(),
    ensures
        ({
            let r = scattered(|o: int| d.source(o), og, grad, n);
            &&& r.len() == grad.len()
            &&& forall|i: int|
                0 <= i < grad.len() ==> #[trigger] r[i] == repeats_added(
                    d,
                    og,
                    grad[i],
                    i,
                    copies_before(d, i, n),
                )
        }),
    decreases n,
{
    if n > 0 {
        let m = (n - 1) as nat;
        let o = n - 1;
        lemma_repeat_is_scatter(d, og, grad, m);
        lemma_source(d, o);
        lemma_copy_of_source(d, o);
        let f = |o: int| d.source(o);
        let before = scattered(f, og, grad, m);
        let r = scattered(f, og, grad, n);
        assert forall|i: int| 0 <= i < grad.len() implies #[trigger] r[i] == repeats_added(
            d,
            og,
            grad[i],
            i,
            copies_before(d, i, n),
        ) by {
            assert(before[i] == repeats_added(d, og, grad[i], i, copies_before(d, i, m)));
            if i == d.source(o) {
                let c = copies_before(d, i, m);
                let k = (o / d.head()) % d.repeats as int;
                lemma_copies_before(d, i, m);
                if c > k + 1 {
                    lemma_copies_rise(d, i, k, c - 1);
                } else if c < k {
                    lemma_copies_rise(d, i, c as int, k);
                }
                assert(c == k);
                assert(d.copy_at(i, c as int) == o);
            } else {
                assert(r[i] == before[i]);
            }
        }
    }
}

/// Going back through repeated heads is the transpose of repeating them.
pub proof fn repeat_kv_adjoint<T: Scalar>(d: RepeatDims, og: Seq<T>, grad: Seq<T>, t: Seq<T>)
    requires
        exact::<T>(),
        d.fits(),
        grad.len() == d.in_len(),
        og.len() == d.out_len(),
    ensures
        inner(repeat_kv_back(d, og, grad), t, grad.len()) == inner(grad, t, grad.len()).spec_plus(
            inner(og, picked_from(t, |o: int| d.source(o), og.len()), og.len()),
        ),
{
    let f = |o: int| d.source(o);
    let n = og.len();
    assert forall|o: int| 0 <= o < n implies 0 <= #[trigger] f(o) < grad.len() by {
        lemma_source(d, o);
    }
    lemma_repeat_is_scatter(d, og, grad, n);
    let r = scattered(f, og, grad, n);
    let back = repeat_kv_back(d, og, grad);
    assert forall|i: int| 0 <= i < grad.len() implies #[trigger] back[i] == r[i] by {
        lemma_copies_before(d, i, n);
        let c = copies_before(d, i, n);
        if c < d.repeats {
            lemma_copy_at(d, i, c as int);
        }
    }
    assert(back =~= r);
    scattered_adjoint(f, og, grad, t, n, n);
}

} // verus!
