//! Finite sums.
use crate::graph::differential::ring::{
    exact, plus_group, plus_pairs, plus_swap, plus_zero, times_plus, times_zero,
};
use crate::graph::ops::elementwise::add_at;
use crate::scalar::Scalar;
use vstd::prelude::*;

verus! {

/// The sum of `f` over the first `n` numbers.
pub open spec fn sum<T: Scalar>(f: spec_fn(int) -> T, n: nat) -> T
    decreases n,
{
    if n == 0 {
        T::spec_zero()
    } else {
        sum(f, (n - 1) as nat).spec_plus(f(n - 1))
    }
}

/// The products of the first `n` elements of two sequences, summed.
pub open spec fn inner<T: Scalar>(x: Seq<T>, y: Seq<T>, n: nat) -> T
    decreases n,
{
    if n == 0 {
        T::spec_zero()
    } else {
        inner(x, y, (n - 1) as nat).spec_plus(x[n - 1].spec_times(y[n - 1]))
    }
}

pub proof fn inner_is_sum<T: Scalar>(x: Seq<T>, y: Seq<T>, n: nat)
    ensures
        inner(x, y, n) == sum(|i: int| x[i].spec_times(y[i]), n),
    decreases n,
{
    if n > 0 {
        inner_is_sum(x, y, (n - 1) as nat);
    }
}

pub proof fn same_sum<T: Scalar>(f: spec_fn(int) -> T, g: spec_fn(int) -> T, n: nat)
    requires
        forall|i: int| 0 <= i < n ==> #[trigger] f(i) == g(i),
    ensures
        sum(f, n) == sum(g, n),
    decreases n,
{
    if n > 0 {
        same_sum(f, g, (n - 1) as nat);
        assert(f(n - 1) == g(n - 1));
    }
}

pub proof fn sum_of_sums<T: Scalar>(f: spec_fn(int) -> T, g: spec_fn(int) -> T, n: nat)
    requires
        exact::<T>(),
    ensures
        sum(|i: int| f(i).spec_plus(g(i)), n) == sum(f, n).spec_plus(sum(g, n)),
    decreases n,
{
    if n > 0 {
        let m = (n - 1) as nat;
        sum_of_sums(f, g, m);
        plus_pairs(sum(f, m), sum(g, m), f(n - 1), g(n - 1));
    } else {
        plus_zero(T::spec_zero());
    }
}

pub proof fn scaled_sum<T: Scalar>(c: T, f: spec_fn(int) -> T, n: nat)
    requires
        exact::<T>(),
    ensures
        sum(|i: int| c.spec_times(f(i)), n) == c.spec_times(sum(f, n)),
        sum(|i: int| f(i).spec_times(c), n) == sum(f, n).spec_times(c),
    decreases n,
{
    if n > 0 {
        scaled_sum(c, f, (n - 1) as nat);
        times_plus(c, sum(f, (n - 1) as nat), f(n - 1));
    } else {
        times_zero(c);
    }
}

pub proof fn sum_of_zeros<T: Scalar>(f: spec_fn(int) -> T, n: nat)
    requires
        exact::<T>(),
        forall|i: int| 0 <= i < n ==> #[trigger] f(i) == T::spec_zero(),
    ensures
        sum(f, n) == T::spec_zero(),
    decreases n,
{
    if n > 0 {
        sum_of_zeros(f, (n - 1) as nat);
        assert(f(n - 1) == T::spec_zero());
        plus_zero(T::spec_zero());
    }
}

/// Two sums one inside the other can be exchanged.
pub proof fn swapped_sums<T: Scalar>(f: spec_fn(int, int) -> T, m: nat, n: nat)
    requires
        exact::<T>(),
    ensures
        sum(|i: int| sum(|j: int| f(i, j), n), m) == sum(|j: int| sum(|i: int| f(i, j), m), n),
    decreases m,
{
    let rows = |i: int| sum(|j: int| f(i, j), n);
    let cols = |j: int| sum(|i: int| f(i, j), m);
    if m == 0 {
        sum_of_zeros(cols, n);
    } else {
        let p = (m - 1) as nat;
        swapped_sums(f, p, n);
        let before = |j: int| sum(|i: int| f(i, j), p);
        let last = |j: int| f(m - 1, j);
        sum_of_sums(before, last, n);
        let both = |j: int| before(j).spec_plus(last(j));
        assert forall|j: int| 0 <= j < n implies #[trigger] cols(j) == both(j) by {
            let col = |i: int| f(i, j);
            assert(sum(col, m) == sum(col, p).spec_plus(col(m - 1)));
        }
        same_sum(cols, both, n);
        assert(rows(m - 1) == sum(last, n));
    }
}

/// A sum over the cells of a table, row by row.
pub proof fn sum_by_rows<T: Scalar>(f: spec_fn(int) -> T, m: nat, n: nat)
    requires
        exact::<T>(),
    ensures
        sum(f, m * n) == sum(|r: int| sum(|c: int| f(r * n + c), n), m),
    decreases m,
{
    let rows = |r: int| sum(|c: int| f(r * n + c), n);
    if m == 0 {
        assert(0 * n == 0) by (nonlinear_arith);
    } else {
        let p = (m - 1) as nat;
        sum_by_rows(f, p, n);
        assert(m * n == p * n + n) by (nonlinear_arith)
            requires
                m == p + 1,
        ;
        sum_of_parts(f, p * n, n);
        let tail = |c: int| f(p * n + c);
        let row = |c: int| f((m - 1) * n + c);
        same_sum(tail, row, n);
        assert(rows(m - 1) == sum(row, n));
    }
}

/// The first part of a sum and the rest.
pub proof fn sum_of_parts<T: Scalar>(f: spec_fn(int) -> T, m: nat, n: nat)
    requires
        exact::<T>(),
    ensures
        sum(f, m + n) == sum(f, m).spec_plus(sum(|c: int| f(m + c), n)),
    decreases n,
{
    let tail = |c: int| f(m + c);
    if n == 0 {
        plus_zero(sum(f, m));
    } else {
        let p = (n - 1) as nat;
        sum_of_parts(f, m, p);
        plus_group(sum(f, m), sum(tail, p), tail(n - 1));
        assert(tail(n - 1) == f(m + n - 1));
    }
}

pub proof fn same_inner<T: Scalar>(x: Seq<T>, y: Seq<T>, u: Seq<T>, v: Seq<T>, n: nat)
    requires
        forall|i: int| 0 <= i < n ==> #[trigger] x[i] == u[i],
        forall|i: int| 0 <= i < n ==> #[trigger] y[i] == v[i],
    ensures
        inner(x, y, n) == inner(u, v, n),
    decreases n,
{
    if n > 0 {
        same_inner(x, y, u, v, (n - 1) as nat);
        assert(x[n - 1] == u[n - 1]);
        assert(y[n - 1] == v[n - 1]);
    }
}

/// What is added to one element is added, times its partner, to the sum of products.
pub proof fn inner_of_added<T: Scalar>(g: Seq<T>, d: Seq<T>, i: int, x: T, n: nat)
    requires
        exact::<T>(),
        0 <= i < n <= g.len(),
    ensures
        inner(add_at(g, i, x), d, n) == inner(g, d, n).spec_plus(x.spec_times(d[i])),
        inner(d, add_at(g, i, x), n) == inner(d, g, n).spec_plus(d[i].spec_times(x)),
    decreases n,
{
    let h = add_at(g, i, x);
    let m = (n - 1) as nat;
    let (p, q) = (inner(g, d, m), inner(d, g, m));
    if i == n - 1 {
        same_inner(h, d, g, d, m);
        same_inner(d, h, d, g, m);
        times_plus(d[i], g[i], x);
        plus_group(p, g[i].spec_times(d[i]), x.spec_times(d[i]));
        plus_group(q, d[i].spec_times(g[i]), d[i].spec_times(x));
    } else {
        inner_of_added(g, d, i, x, m);
        assert(h[n - 1] == g[n - 1]);
        let (u, v) = (x.spec_times(d[i]), d[i].spec_times(x));
        let (s, t) = (g[n - 1].spec_times(d[n - 1]), d[n - 1].spec_times(g[n - 1]));
        plus_group(p, u, s);
        plus_swap(u, s);
        plus_group(p, s, u);
        plus_group(q, v, t);
        plus_swap(v, t);
        plus_group(q, t, v);
    }
}

/// Two sequences added up.
pub open spec fn added<T: Scalar>(x: Seq<T>, y: Seq<T>) -> Seq<T> {
    Seq::new(x.len(), |i: int| x[i].spec_plus(y[i]))
}

pub proof fn inner_of_sum<T: Scalar>(x: Seq<T>, y: Seq<T>, d: Seq<T>, n: nat)
    requires
        exact::<T>(),
        n <= x.len(),
    ensures
        inner(added(x, y), d, n) == inner(x, d, n).spec_plus(inner(y, d, n)),
        inner(d, added(x, y), n) == inner(d, x, n).spec_plus(inner(d, y, n)),
    decreases n,
{
    if n == 0 {
        plus_zero(T::spec_zero());
    } else {
        let m = (n - 1) as nat;
        inner_of_sum(x, y, d, m);
        let i = n - 1;
        times_plus(d[i], x[i], y[i]);
        plus_pairs(
            inner(x, d, m),
            inner(y, d, m),
            x[i].spec_times(d[i]),
            y[i].spec_times(d[i]),
        );
        plus_pairs(
            inner(d, x, m),
            inner(d, y, m),
            d[i].spec_times(x[i]),
            d[i].spec_times(y[i]),
        );
    }
}

} // verus!
