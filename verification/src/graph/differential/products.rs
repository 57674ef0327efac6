//! Products of matrices.
use crate::graph::differential::ring::{
    exact, plus_group, plus_pairs, plus_zero, times_plus, times_rotate, times_zero,
};
use crate::graph::differential::sums::{
    added, inner, inner_is_sum, inner_of_added, inner_of_sum, same_sum, scaled_sum, sum,
    sum_by_rows, swapped_sums,
};
use crate::graph::index::lemma_cell;
use crate::graph::ops::elementwise::add_at;
use crate::graph::ops::linear::{
    bmm_back, bmm_back_self, bmm_dot, lemma_bmm_at, matmul_dot, matmul_dot_a, matmul_dot_b,
    matmul_grad_a, matmul_grad_b, matmul_out, BmmDims,
};
use crate::scalar::Scalar;
use vstd::prelude::*;

verus! {

/// How a product of two matrices changes with its factors.
pub open spec fn matmul_tangent<T: Scalar>(
    a: Seq<T>,
    b: Seq<T>,
    da: Seq<T>,
    db: Seq<T>,
    m: int,
    k: int,
    n: int,
) -> Seq<T> {
    added(matmul_out(da, b, m, k, n), matmul_out(a, db, m, k, n))
}

proof fn lemma_dot_sum<T: Scalar>(a: Seq<T>, b: Seq<T>, k: int, n: int, r: int, c: int, i: nat)
    ensures
        matmul_dot(a, b, k, n, r, c, i) == sum(
            |j: int| a[r * k + j].spec_times(b[j * n + c]),
            i,
        ),
    decreases i,
{
    if i > 0 {
        lemma_dot_sum(a, b, k, n, r, c, (i - 1) as nat);
        assert(r * k + i - 1 == r * k + (i - 1));
    }
}

proof fn lemma_dot_a_sum<T: Scalar>(og: Seq<T>, b: Seq<T>, n: int, r: int, c: int, i: nat)
    ensures
        matmul_dot_a(og, b, n, r, c, i) == sum(
            |j: int| og[r * n + j].spec_times(b[c * n + j]),
            i,
        ),
    decreases i,
{
    if i > 0 {
        lemma_dot_a_sum(og, b, n, r, c, (i - 1) as nat);
        assert(r * n + i - 1 == r * n + (i - 1));
        assert(c * n + i - 1 == c * n + (i - 1));
    }
}

proof fn lemma_dot_b_sum<T: Scalar>(og: Seq<T>, a: Seq<T>, k: int, n: int, r: int, c: int, i: nat)
    ensures
        matmul_dot_b(og, a, k, n, r, c, i) == sum(
            |j: int| a[j * k + r].spec_times(og[j * n + c]),
            i,
        ),
    decreases i,
{
    if i > 0 {
        lemma_dot_b_sum(og, a, k, n, r, c, (i - 1) as nat);
    }
}

/// The part of a product of three that row `r`, column `c` of the left factor and column `j` of
/// the result contribute.
spec fn left_term<T: Scalar>(og: Seq<T>, b: Seq<T>, da: Seq<T>, k: int, n: int) -> spec_fn(
    int,
    int,
    int,
) -> T {
    |r: int, c: int, j: int|
        og[r * n + j].spec_times(b[c * n + j]).spec_times(da[r * k + c])
}

/// What the gradient of the left factor takes up, element by element.
spec fn left_share<T: Scalar>(og: Seq<T>, b: Seq<T>, m: int, k: int, n: int) -> Seq<T> {
    Seq::new((m * k) as nat, |j: int| matmul_dot_a(og, b, n, j / k, j % k, n as nat))
}

spec fn right_share<T: Scalar>(og: Seq<T>, a: Seq<T>, m: int, k: int, n: int) -> Seq<T> {
    Seq::new((k * n) as nat, |j: int| matmul_dot_b(og, a, k, n, j / n, j % n, m as nat))
}

proof fn lemma_left_rows<T: Scalar>(
    og: Seq<T>,
    b: Seq<T>,
    da: Seq<T>,
    m: nat,
    k: nat,
    n: nat,
)
    requires
        exact::<T>(),
    ensures
        ({
            let f = left_term(og, b, da, k as int, n as int);
            inner(left_share(og, b, m as int, k as int, n as int), da, m * k) == sum(
                |r: int| sum(|c: int| sum(|j: int| f(r, c, j), n), k),
                m,
            )
        }),
{
    let f = left_term(og, b, da, k as int, n as int);
    let x = left_share(og, b, m as int, k as int, n as int);
    let g = |i: int| x[i].spec_times(da[i]);
    inner_is_sum(x, da, m * k);
    sum_by_rows(g, m, k);
    let h1 = |r: int| sum(|c: int| g(r * k + c), k);
    let h2 = |r: int| sum(|c: int| sum(|j: int| f(r, c, j), n), k);
    assert forall|r: int| 0 <= r < m implies #[trigger] h1(r) == h2(r) by {
        let p = |c: int| g(r * k + c);
        let q = |c: int| sum(|j: int| f(r, c, j), n);
        assert forall|c: int| 0 <= c < k implies #[trigger] p(c) == q(c) by {
            lemma_cell(r, m as int, c, k as int);
            let i = r * k + c;
            lemma_dot_a_sum(og, b, n as int, r, c, n);
            let u = |j: int| og[r * n + j].spec_times(b[c * n + j]);
            assert(x[i] == sum(u, n));
            scaled_sum(da[i], u, n);
            let v = |j: int| u(j).spec_times(da[i]);
            let w = |j: int| f(r, c, j);
            same_sum(v, w, n);
        }
        same_sum(p, q, k);
    }
    same_sum(h1, h2, m);
}

proof fn lemma_left_out<T: Scalar>(
    og: Seq<T>,
    b: Seq<T>,
    da: Seq<T>,
    m: nat,
    k: nat,
    n: nat,
)
    requires
        exact::<T>(),
    ensures
        ({
            let f = left_term(og, b, da, k as int, n as int);
            inner(og, matmul_out(da, b, m as int, k as int, n as int), m * n) == sum(
                |r: int| sum(|j: int| sum(|c: int| f(r, c, j), k), n),
                m,
            )
        }),
{
    let f = left_term(og, b, da, k as int, n as int);
    let y = matmul_out(da, b, m as int, k as int, n as int);
    let g = |i: int| og[i].spec_times(y[i]);
    inner_is_sum(og, y, m * n);
    sum_by_rows(g, m, n);
    let h1 = |r: int| sum(|j: int| g(r * n + j), n);
    let h2 = |r: int| sum(|j: int| sum(|c: int| f(r, c, j), k), n);
    assert forall|r: int| 0 <= r < m implies #[trigger] h1(r) == h2(r) by {
        let p = |j: int| g(r * n + j);
        let q = |j: int| sum(|c: int| f(r, c, j), k);
        assert forall|j: int| 0 <= j < n implies #[trigger] p(j) == q(j) by {
            lemma_cell(r, m as int, j, n as int);
            let i = r * n + j;
            lemma_dot_sum(da, b, k as int, n as int, r, j, k);
            let u = |c: int| da[r * k + c].spec_times(b[c * n + j]);
            assert(y[i] == sum(u, k));
            scaled_sum(og[i], u, k);
            let v = |c: int| og[i].spec_times(u(c));
            let w = |c: int| f(r, c, j);
            assert forall|c: int| 0 <= c < k implies #[trigger] v(c) == w(c) by {
                times_rotate(og[i], b[c * n + j], da[r * k + c]);
            }
            same_sum(v, w, k);
        }
        same_sum(p, q, n);
    }
    same_sum(h1, h2, m);
}

/// What goes back to the left factor.
proof fn lemma_left<T: Scalar>(og: Seq<T>, b: Seq<T>, da: Seq<T>, m: nat, k: nat, n: nat)
    requires
        exact::<T>(),
    ensures
        inner(left_share(og, b, m as int, k as int, n as int), da, m * k) == inner(
            og,
            matmul_out(da, b, m as int, k as int, n as int),
            m * n,
        ),
{
    lemma_left_rows(og, b, da, m, k, n);
    lemma_left_out(og, b, da, m, k, n);
    let f = left_term(og, b, da, k as int, n as int);
    let h1 = |r: int| sum(|c: int| sum(|j: int| f(r, c, j), n), k);
    let h2 = |r: int| sum(|j: int| sum(|c: int| f(r, c, j), k), n);
    assert forall|r: int| 0 <= r < m implies #[trigger] h1(r) == h2(r) by {
        let g = |c: int, j: int| f(r, c, j);
        swapped_sums(g, k, n);
        let p1 = |c: int| sum(|j: int| g(c, j), n);
        let q1 = |c: int| sum(|j: int| f(r, c, j), n);
        assert forall|c: int| 0 <= c < k implies #[trigger] p1(c) == q1(c) by {
            same_sum(|j: int| g(c, j), |j: int| f(r, c, j), n);
        }
        same_sum(p1, q1, k);
        let p2 = |j: int| sum(|c: int| g(c, j), k);
        let q2 = |j: int| sum(|c: int| f(r, c, j), k);
        assert forall|j: int| 0 <= j < n implies #[trigger] p2(j) == q2(j) by {
            same_sum(|c: int| g(c, j), |c: int| f(r, c, j), k);
        }
        same_sum(p2, q2, n);
    }
    same_sum(h1, h2, m);
}

/// The part that row `i`, column `r` of the left factor and column `c` of the result contribute.
spec fn right_term<T: Scalar>(og: Seq<T>, a: Seq<T>, db: Seq<T>, k: int, n: int) -> spec_fn(
    int,
    int,
    int,
) -> T {
    |r: int, c: int, i: int|
        a[i * k + r].spec_times(og[i * n + c]).spec_times(db[r * n + c])
}

proof fn lemma_right_rows<T: Scalar>(
    og: Seq<T>,
    a: Seq<T>,
    db: Seq<T>,
    m: nat,
    k: nat,
    n: nat,
)
    requires
        exact::<T>(),
    ensures
        ({
            let f = right_term(og, a, db, k as int, n as int);
            inner(right_share(og, a, m as int, k as int, n as int), db, k * n) == sum(
                |r: int| sum(|c: int| sum(|i: int| f(r, c, i), m), n),
                k,
            )
        }),
{
    let f = right_term(og, a, db, k as int, n as int);
    let x = right_share(og, a, m as int, k as int, n as int);
    let g = |o: int| x[o].spec_times(db[o]);
    inner_is_sum(x, db, k * n);
    sum_by_rows(g, k, n);
    let h1 = |r: int| sum(|c: int| g(r * n + c), n);
    let h2 = |r: int| sum(|c: int| sum(|i: int| f(r, c, i), m), n);
    assert forall|r: int| 0 <= r < k implies #[trigger] h1(r) == h2(r) by {
        let p = |c: int| g(r * n + c);
        let q = |c: int| sum(|i: int| f(r, c, i), m);
        assert forall|c: int| 0 <= c < n implies #[trigger] p(c) == q(c) by {
            lemma_cell(r, k as int, c, n as int);
            let o = r * n + c;
            lemma_dot_b_sum(og, a, k as int, n as int, r, c, m);
            let u = |i: int| a[i * k + r].spec_times(og[i * n + c]);
            assert(x[o] == sum(u, m));
            scaled_sum(db[o], u, m);
            same_sum(|i: int| u(i).spec_times(db[o]), |i: int| f(r, c, i), m);
        }
        same_sum(p, q, n);
    }
    same_sum(h1, h2, k);
}

proof fn lemma_right_out<T: Scalar>(
    og: Seq<T>,
    a: Seq<T>,
    db: Seq<T>,
    m: nat,
    k: nat,
    n: nat,
)
    requires
        exact::<T>(),
    ensures
        ({
            let f = right_term(og, a, db, k as int, n as int);
            inner(og, matmul_out(a, db, m as int, k as int, n as int), m * n) == sum(
                |i: int| sum(|c: int| sum(|r: int| f(r, c, i), k), n),
                m,
            )
        }),
{
    let f = right_term(og, a, db, k as int, n as int);
    let y = matmul_out(a, db, m as int, k as int, n as int);
    let g = |o: int| og[o].spec_times(y[o]);
    inner_is_sum(og, y, m * n);
    sum_by_rows(g, m, n);
    let h1 = |i: int| sum(|c: int| g(i * n + c), n);
    let h2 = |i: int| sum(|c: int| sum(|r: int| f(r, c, i), k), n);
    assert forall|i: int| 0 <= i < m implies #[trigger] h1(i) == h2(i) by {
        let p = |c: int| g(i * n + c);
        let q = |c: int| sum(|r: int| f(r, c, i), k);
        assert forall|c: int| 0 <= c < n implies #[trigger] p(c) == q(c) by {
            lemma_cell(i, m as int, c, n as int);
            let o = i * n + c;
            lemma_dot_sum(a, db, k as int, n as int, i, c, k);
            let u = |r: int| a[i * k + r].spec_times(db[r * n + c]);
            assert(y[o] == sum(u, k));
            scaled_sum(og[o], u, k);
            let v = |r: int| og[o].spec_times(u(r));
            let w = |r: int| f(r, c, i);
            assert forall|r: int| 0 <= r < k implies #[trigger] v(r) == w(r) by {
                times_rotate(a[i * k + r], og[o], db[r * n + c]);
            }
            same_sum(v, w, k);
        }
        same_sum(p, q, n);
    }
    same_sum(h1, h2, m);
}

/// Three sums in the order `r`, `c`, `i` and in the order `i`, `c`, `r`.
proof fn lemma_three_sums<T: Scalar>(f: spec_fn(int, int, int) -> T, k: nat, n: nat, m: nat)
    requires
        exact::<T>(),
    ensures
        sum(|r: int| sum(|c: int| sum(|i: int| f(r, c, i), m), n), k) == sum(
            |i: int| sum(|c: int| sum(|r: int| f(r, c, i), k), n),
            m,
        ),
{
    // r, c, i to r, i, c
    let s0 = |r: int| sum(|c: int| sum(|i: int| f(r, c, i), m), n);
    let s1 = |r: int| sum(|i: int| sum(|c: int| f(r, c, i), n), m);
    assert forall|r: int| 0 <= r < k implies #[trigger] s0(r) == s1(r) by {
        let g = |c: int, i: int| f(r, c, i);
        swapped_sums(g, n, m);
        let a1 = |c: int| sum(|i: int| g(c, i), m);
        let a2 = |c: int| sum(|i: int| f(r, c, i), m);
        assert forall|c: int| 0 <= c < n implies #[trigger] a1(c) == a2(c) by {
            same_sum(|i: int| g(c, i), |i: int| f(r, c, i), m);
        }
        same_sum(a1, a2, n);
        let b1 = |i: int| sum(|c: int| g(c, i), n);
        let b2 = |i: int| sum(|c: int| f(r, c, i), n);
        assert forall|i: int| 0 <= i < m implies #[trigger] b1(i) == b2(i) by {
            same_sum(|c: int| g(c, i), |c: int| f(r, c, i), n);
        }
        same_sum(b1, b2, m);
    }
    same_sum(s0, s1, k);
    // r, i, c to i, r, c
    let h = |r: int, i: int| sum(|c: int| f(r, c, i), n);
    swapped_sums(h, k, m);
    let s1b = |r: int| sum(|i: int| h(r, i), m);
    assert forall|r: int| 0 <= r < k implies #[trigger] s1(r) == s1b(r) by {
        same_sum(|i: int| sum(|c: int| f(r, c, i), n), |i: int| h(r, i), m);
    }
    same_sum(s1, s1b, k);
    // i, r, c to i, c, r
    let s2 = |i: int| sum(|r: int| h(r, i), k);
    let s3 = |i: int| sum(|c: int| sum(|r: int| f(r, c, i), k), n);
    assert forall|i: int| 0 <= i < m implies #[trigger] s2(i) == s3(i) by {
        let g = |r: int, c: int| f(r, c, i);
        swapped_sums(g, k, n);
        let a1 = |r: int| sum(|c: int| g(r, c), n);
        let a2 = |r: int| h(r, i);
        assert forall|r: int| 0 <= r < k implies #[trigger] a1(r) == a2(r) by {
            same_sum(|c: int| g(r, c), |c: int| f(r, c, i), n);
        }
        same_sum(a1, a2, k);
        let b1 = |c: int| sum(|r: int| g(r, c), k);
        let b2 = |c: int| sum(|r: int| f(r, c, i), k);
        assert forall|c: int| 0 <= c < n implies #[trigger] b1(c) == b2(c) by {
            same_sum(|r: int| g(r, c), |r: int| f(r, c, i), k);
        }
        same_sum(b1, b2, n);
    }
    same_sum(s2, s3, m);
}

/// What goes back to the right factor.
proof fn lemma_right<T: Scalar>(og: Seq<T>, a: Seq<T>, db: Seq<T>, m: nat, k: nat, n: nat)
    requires
        exact::<T>(),
    ensures
        inner(right_share(og, a, m as int, k as int, n as int), db, k * n) == inner(
            og,
            matmul_out(a, db, m as int, k as int, n as int),
            m * n,
        ),
{
    lemma_right_rows(og, a, db, m, k, n);
    lemma_right_out(og, a, db, m, k, n);
    lemma_three_sums(right_term(og, a, db, k as int, n as int), k, n, m);
}

/// What is handed back to the left factor, against a change of it.
pub proof fn matmul_left_adjoint<T: Scalar>(
    g: Seq<T>,
    og: Seq<T>,
    b: Seq<T>,
    da: Seq<T>,
    m: usize,
    k: usize,
    n: usize,
)
    requires
        exact::<T>(),
        g.len() == m * k,
    ensures
        inner(matmul_grad_a(g, og, b, m as int, k as int, n as int), da, g.len()) == inner(
            g,
            da,
            g.len(),
        ).spec_plus(inner(og, matmul_out(da, b, m as int, k as int, n as int), (m * n) as nat)),
{
    let x = left_share(og, b, m as int, k as int, n as int);
    lemma_left(og, b, da, m as nat, k as nat, n as nat);
    inner_of_sum(g, x, da, g.len());
    assert(matmul_grad_a(g, og, b, m as int, k as int, n as int) =~= added(g, x));
}

/// What is handed back to the right factor, against a change of it.
pub proof fn matmul_right_adjoint<T: Scalar>(
    g: Seq<T>,
    og: Seq<T>,
    a: Seq<T>,
    db: Seq<T>,
    m: usize,
    k: usize,
    n: usize,
)
    requires
        exact::<T>(),
        g.len() == k * n,
    ensures
        inner(matmul_grad_b(g, og, a, m as int, k as int, n as int), db, g.len()) == inner(
            g,
            db,
            g.len(),
        ).spec_plus(inner(og, matmul_out(a, db, m as int, k as int, n as int), (m * n) as nat)),
{
    let x = right_share(og, a, m as int, k as int, n as int);
    lemma_right(og, a, db, m as nat, k as nat, n as nat);
    inner_of_sum(g, x, db, g.len());
    assert(matmul_grad_b(g, og, a, m as int, k as int, n as int) =~= added(g, x));
}

/// How the two parts of the change of a product enter a sum of products.
pub proof fn matmul_tangent_parts<T: Scalar>(
    og: Seq<T>,
    a: Seq<T>,
    b: Seq<T>,
    da: Seq<T>,
    db: Seq<T>,
    m: usize,
    k: usize,
    n: usize,
)
    requires
        exact::<T>(),
    ensures
        inner(
            og,
            matmul_tangent(a, b, da, db, m as int, k as int, n as int),
            (m * n) as nat,
        ) == inner(og, matmul_out(da, b, m as int, k as int, n as int), (m * n) as nat).spec_plus(
            inner(og, matmul_out(a, db, m as int, k as int, n as int), (m * n) as nat),
        ),
{
    inner_of_sum(
        matmul_out(da, b, m as int, k as int, n as int),
        matmul_out(a, db, m as int, k as int, n as int),
        og,
        (m * n) as nat,
    );
}

// Batches of products.

/// How element `o` of the result changes, from the first `i` terms.
pub open spec fn bmm_change<T: Scalar>(
    a: Seq<T>,
    b: Seq<T>,
    da: Seq<T>,
    db: Seq<T>,
    d: BmmDims,
    o: int,
    i: nat,
) -> T {
    bmm_dot(da, b, d, o, i).spec_plus(bmm_dot(a, db, d, o, i))
}

/// How products of pairs of matrices change with their factors.
pub open spec fn bmm_tangent<T: Scalar>(
    a: Seq<T>,
    b: Seq<T>,
    da: Seq<T>,
    db: Seq<T>,
    d: BmmDims,
) -> Seq<T> {
    Seq::new(d.out_len() as nat, |o: int| bmm_change(a, b, da, db, d, o, d.k as nat))
}

/// One more term.
proof fn lemma_bmm_term<T: Scalar>(
    a: Seq<T>,
    b: Seq<T>,
    da: Seq<T>,
    db: Seq<T>,
    d: BmmDims,
    o: int,
    i: nat,
    g: T,
)
    requires
        exact::<T>(),
        i > 0,
    ensures
        ({
            let ia = d.a_at(o, i - 1);
            let ib = d.b_at(o, i - 1);
            g.spec_times(bmm_change(a, b, da, db, d, o, i)) == g.spec_times(
                bmm_change(a, b, da, db, d, o, (i - 1) as nat),
            ).spec_plus(
                g.spec_times(b[ib]).spec_times(da[ia]).spec_plus(
                    g.spec_times(a[ia]).spec_times(db[ib]),
                ),
            )
        }),
{
    let ia = d.a_at(o, i - 1);
    let ib = d.b_at(o, i - 1);
    let m = (i - 1) as nat;
    let (p, q) = (bmm_dot(da, b, d, o, m), bmm_dot(a, db, d, o, m));
    let (u, v) = (da[ia].spec_times(b[ib]), a[ia].spec_times(db[ib]));
    plus_pairs(p, u, q, v);
    times_plus(g, p.spec_plus(q), u.spec_plus(v));
    times_plus(g, u, v);
    times_rotate(g, b[ib], da[ia]);
    times_rotate(g, a[ia], db[ib]);
}

/// Going back through products of pairs of matrices, as far as the first `kk` terms of element `o`
/// of the result, is the transpose of how they change.
pub proof fn bmm_adjoint<T: Scalar>(
    a: Seq<T>,
    b: Seq<T>,
    og: Seq<T>,
    d: BmmDims,
    grads: (Seq<T>, Seq<T>),
    da: Seq<T>,
    db: Seq<T>,
    o: nat,
    kk: nat,
)
    requires
        exact::<T>(),
        d.fits(grads.0.len(), grads.1.len()),
        o < d.out_len() || (o == d.out_len() && kk == 0),
        kk <= d.k,
    ensures
        ({
            let r = bmm_back(a, b, og, d, grads, o, kk);
            let (la, lb) = (grads.0.len(), grads.1.len());
            &&& r.0.len() == la
            &&& r.1.len() == lb
            &&& inner(r.0, da, la).spec_plus(inner(r.1, db, lb)) == inner(
                grads.0,
                da,
                la,
            ).spec_plus(inner(grads.1, db, lb)).spec_plus(
                inner(og, bmm_tangent(a, b, da, db, d), o).spec_plus(
                    og[o as int].spec_times(bmm_change(a, b, da, db, d, o as int, kk)),
                ),
            )
        }),
    decreases o, kk,
{
    let (la, lb) = (grads.0.len(), grads.1.len());
    let base = inner(grads.0, da, la).spec_plus(inner(grads.1, db, lb));
    let t = bmm_tangent(a, b, da, db, d);
    let zero = T::spec_zero();
    if kk > 0 {
        let m = (kk - 1) as nat;
        bmm_adjoint(a, b, og, d, grads, da, db, o, m);
        let g = bmm_back(a, b, og, d, grads, o, m);
        let ia = d.a_at(o as int, kk - 1);
        let ib = d.b_at(o as int, kk - 1);
        lemma_bmm_at(d, la, lb, o as int, kk - 1);
        let x = og[o as int].spec_times(b[ib]);
        let y = og[o as int].spec_times(a[ia]);
        inner_of_added(g.0, da, ia, x, la);
        inner_of_added(g.1, db, ib, y, lb);
        let (u, v) = (x.spec_times(da[ia]), y.spec_times(db[ib]));
        plus_pairs(inner(g.0, da, la), u, inner(g.1, db, lb), v);
        let part = og[o as int].spec_times(bmm_change(a, b, da, db, d, o as int, m));
        let rest = inner(og, t, o);
        lemma_bmm_term(a, b, da, db, d, o as int, kk, og[o as int]);
        plus_group(base, rest.spec_plus(part), u.spec_plus(v));
        plus_group(rest, part, u.spec_plus(v));
    } else {
        plus_zero(zero);
        times_zero(og[o as int]);
        plus_zero(inner(og, t, o));
        if o > 0 {
            let p = (o - 1) as nat;
            bmm_adjoint(a, b, og, d, grads, da, db, p, d.k as nat);
            assert(t[o - 1] == bmm_change(a, b, da, db, d, o - 1, d.k as nat));
        } else {
            plus_zero(base);
        }
    }
}

/// The same where the factors are one tensor.
pub proof fn bmm_self_adjoint<T: Scalar>(
    a: Seq<T>,
    b: Seq<T>,
    og: Seq<T>,
    d: BmmDims,
    grad: Seq<T>,
    da: Seq<T>,
    o: nat,
    kk: nat,
)
    requires
        exact::<T>(),
        d.fits(grad.len(), grad.len()),
        o < d.out_len() || (o == d.out_len() && kk == 0),
        kk <= d.k,
    ensures
        ({
            let r = bmm_back_self(a, b, og, d, grad, o, kk);
            let len = grad.len();
            &&& r.len() == len
            &&& inner(r, da, len) == inner(grad, da, len).spec_plus(
                inner(og, bmm_tangent(a, b, da, da, d), o).spec_plus(
                    og[o as int].spec_times(bmm_change(a, b, da, da, d, o as int, kk)),
                ),
            )
        }),
    decreases o, kk,
{
    let len = grad.len();
    let base = inner(grad, da, len);
    let t = bmm_tangent(a, b, da, da, d);
    let zero = T::spec_zero();
    if kk > 0 {
        let m = (kk - 1) as nat;
        bmm_self_adjoint(a, b, og, d, grad, da, o, m);
        let g = bmm_back_self(a, b, og, d, grad, o, m);
        let ia = d.a_at(o as int, kk - 1);
        let ib = d.b_at(o as int, kk - 1);
        lemma_bmm_at(d, len, len, o as int, kk - 1);
        let x = og[o as int].spec_times(b[ib]);
        let y = og[o as int].spec_times(a[ia]);
        inner_of_added(g, da, ia, x, len);
        inner_of_added(add_at(g, ia, x), da, ib, y, len);
        let (u, v) = (x.spec_times(da[ia]), y.spec_times(da[ib]));
        plus_group(inner(g, da, len), u, v);
        let part = og[o as int].spec_times(bmm_change(a, b, da, da, d, o as int, m));
        let rest = inner(og, t, o);
        lemma_bmm_term(a, b, da, da, d, o as int, kk, og[o as int]);
        plus_group(base, rest.spec_plus(part), u.spec_plus(v));
        plus_group(rest, part, u.spec_plus(v));
    } else {
        plus_zero(zero);
        times_zero(og[o as int]);
        plus_zero(inner(og, t, o));
        if o > 0 {
            let p = (o - 1) as nat;
            bmm_self_adjoint(a, b, og, d, grad, da, p, d.k as nat);
            assert(t[o - 1] == bmm_change(a, b, da, da, d, o - 1, d.k as nat));
        } else {
            plus_zero(base);
        }
    }
}

} // verus!
