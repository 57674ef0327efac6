//! Changes along the way forth.
use crate::graph::differential::pointwise::pairwise_tangent;
use crate::graph::differential::products::{bmm_change, bmm_tangent, matmul_tangent};
use crate::graph::differential::ring::{exact, plus_group, plus_pairs, plus_zero, times_plus};
use crate::graph::differential::sums::added;
use crate::graph::index::{broadcast_index, lemma_cell, lemma_uncell};
use crate::graph::ops::elementwise::{
    broadcast_ok, lemma_broadcast_positions, pairwise_out, Pairwise,
};
use crate::graph::ops::linear::{bmm_dot, bmm_out, lemma_bmm_at, matmul_dot, matmul_out, BmmDims};
use crate::scalar::Scalar;
use crate::tensor::{broadcast_shape, product};
use vstd::prelude::*;

verus! {

/// A product of two changed numbers: the product, its change, and the product of the changes.
proof fn lemma_product<T: Scalar>(x: T, dx: T, y: T, dy: T)
    requires
        exact::<T>(),
    ensures
        x.spec_plus(dx).spec_times(y.spec_plus(dy)) == x.spec_times(y).spec_plus(
            dx.spec_times(y).spec_plus(x.spec_times(dy)),
        ).spec_plus(dx.spec_times(dy)),
{
    let (p, q, r, s) = (
        x.spec_times(y),
        dx.spec_times(y),
        x.spec_times(dy),
        dx.spec_times(dy),
    );
    times_plus(x.spec_plus(dx), y, dy);
    times_plus(y, x, dx);
    times_plus(dy, x, dx);
    plus_group(p.spec_plus(q), r, s);
    plus_group(p, q, r);
}

/// In exact arithmetic a sum of two changed tensors is their sum with its change added.
pub proof fn sum_changes<T: Scalar>(
    a: Seq<T>,
    a_shape: Seq<usize>,
    b: Seq<T>,
    b_shape: Seq<usize>,
    da: Seq<T>,
    db: Seq<T>,
)
    requires
        exact::<T>(),
        broadcast_ok(a_shape, b_shape),
        a.len() == product(a_shape),
        b.len() == product(b_shape),
    ensures
        pairwise_out(Pairwise::Add, added(a, da), a_shape, added(b, db), b_shape) == added(
            pairwise_out(Pairwise::Add, a, a_shape, b, b_shape),
            pairwise_tangent(Pairwise::Add, a, a_shape, b, b_shape, da, db),
        ),
{
    let out = broadcast_shape(a_shape, b_shape);
    let x = pairwise_out(Pairwise::Add, added(a, da), a_shape, added(b, db), b_shape);
    let y = added(
        pairwise_out(Pairwise::Add, a, a_shape, b, b_shape),
        pairwise_tangent(Pairwise::Add, a, a_shape, b, b_shape, da, db),
    );
    assert forall|i: int| 0 <= i < x.len() implies #[trigger] x[i] == y[i] by {
        lemma_broadcast_positions(a_shape, b_shape, i);
        let (p, q) = (broadcast_index(a_shape, out, i), broadcast_index(b_shape, out, i));
        plus_pairs(a[p], da[p], b[q], db[q]);
    }
    assert(x =~= y);
}

/// In exact arithmetic a product of two changed tensors, element by element, is their product with
/// its change and the product of the changes added.
pub proof fn product_changes<T: Scalar>(
    a: Seq<T>,
    a_shape: Seq<usize>,
    b: Seq<T>,
    b_shape: Seq<usize>,
    da: Seq<T>,
    db: Seq<T>,
)
    requires
        exact::<T>(),
        broadcast_ok(a_shape, b_shape),
        a.len() == product(a_shape),
        b.len() == product(b_shape),
    ensures
        pairwise_out(Pairwise::Mul, added(a, da), a_shape, added(b, db), b_shape) == added(
            added(
                pairwise_out(Pairwise::Mul, a, a_shape, b, b_shape),
                pairwise_tangent(Pairwise::Mul, a, a_shape, b, b_shape, da, db),
            ),
            pairwise_out(Pairwise::Mul, da, a_shape, db, b_shape),
        ),
{
    let out = broadcast_shape(a_shape, b_shape);
    let x = pairwise_out(Pairwise::Mul, added(a, da), a_shape, added(b, db), b_shape);
    let y = added(
        added(
            pairwise_out(Pairwise::Mul, a, a_shape, b, b_shape),
            pairwise_tangent(Pairwise::Mul, a, a_shape, b, b_shape, da, db),
        ),
        pairwise_out(Pairwise::Mul, da, a_shape, db, b_shape),
    );
    assert forall|i: int| 0 <= i < x.len() implies #[trigger] x[i] == y[i] by {
        lemma_broadcast_positions(a_shape, b_shape, i);
        let (p, q) = (broadcast_index(a_shape, out, i), broadcast_index(b_shape, out, i));
        lemma_product(a[p], da[p], b[q], db[q]);
    }
    assert(x =~= y);
}

/// Four sums with a term more each.
proof fn lemma_more<T: Scalar>(p: T, q: T, r: T, s: T, x: T, dx: T, y: T, dy: T)
    requires
        exact::<T>(),
    ensures
        p.spec_plus(q.spec_plus(r)).spec_plus(s).spec_plus(
            x.spec_plus(dx).spec_times(y.spec_plus(dy)),
        ) == p.spec_plus(x.spec_times(y)).spec_plus(
            q.spec_plus(dx.spec_times(y)).spec_plus(r.spec_plus(x.spec_times(dy))),
        ).spec_plus(s.spec_plus(dx.spec_times(dy))),
{
    let (a, b, c, d) = (
        x.spec_times(y),
        dx.spec_times(y),
        x.spec_times(dy),
        dx.spec_times(dy),
    );
    lemma_product(x, dx, y, dy);
    plus_pairs(p.spec_plus(q.spec_plus(r)), s, a.spec_plus(b.spec_plus(c)), d);
    plus_pairs(p, q.spec_plus(r), a, b.spec_plus(c));
    plus_pairs(q, r, b, c);
}

proof fn lemma_dot_changes<T: Scalar>(
    a: Seq<T>,
    b: Seq<T>,
    da: Seq<T>,
    db: Seq<T>,
    m: int,
    k: int,
    n: int,
    r: int,
    c: int,
    i: nat,
)
    requires
        exact::<T>(),
        a.len() == m * k,
        b.len() == k * n,
        0 <= r < m,
        0 <= c < n,
        i <= k,
    ensures
        matmul_dot(added(a, da), added(b, db), k, n, r, c, i) == matmul_dot(
            a,
            b,
            k,
            n,
            r,
            c,
            i,
        ).spec_plus(
            matmul_dot(da, b, k, n, r, c, i).spec_plus(matmul_dot(a, db, k, n, r, c, i)),
        ).spec_plus(matmul_dot(da, db, k, n, r, c, i)),
    decreases i,
{
    let z = T::spec_zero();
    if i == 0 {
        plus_zero(z);
    } else {
        let j = (i - 1) as nat;
        lemma_dot_changes(a, b, da, db, m, k, n, r, c, j);
        lemma_cell(r, m, i - 1, k);
        lemma_cell(i - 1, k, c, n);
        let (x, y) = (r * k + i - 1, (i - 1) * n + c);
        assert(x == r * k + (i - 1));
        lemma_more(
            matmul_dot(a, b, k, n, r, c, j),
            matmul_dot(da, b, k, n, r, c, j),
            matmul_dot(a, db, k, n, r, c, j),
            matmul_dot(da, db, k, n, r, c, j),
            a[x],
            da[x],
            b[y],
            db[y],
        );
    }
}

/// In exact arithmetic a product of two changed matrices is their product with its change and the
/// product of the changes added.
pub proof fn matmul_changes<T: Scalar>(
    a: Seq<T>,
    b: Seq<T>,
    da: Seq<T>,
    db: Seq<T>,
    m: usize,
    k: usize,
    n: usize,
)
    requires
        exact::<T>(),
        a.len() == m * k,
        b.len() == k * n,
    ensures
        matmul_out(added(a, da), added(b, db), m as int, k as int, n as int) == added(
            added(
                matmul_out(a, b, m as int, k as int, n as int),
                matmul_tangent(a, b, da, db, m as int, k as int, n as int),
            ),
            matmul_out(da, db, m as int, k as int, n as int),
        ),
{
    let (m, k, n) = (m as int, k as int, n as int);
    let x = matmul_out(added(a, da), added(b, db), m, k, n);
    let y = added(
        added(matmul_out(a, b, m, k, n), matmul_tangent(a, b, da, db, m, k, n)),
        matmul_out(da, db, m, k, n),
    );
    assert forall|o: int| 0 <= o < x.len() implies #[trigger] x[o] == y[o] by {
        lemma_uncell(o, m, n);
        lemma_dot_changes(a, b, da, db, m, k, n, o / n, o % n, k as nat);
    }
    assert(x =~= y);
}

proof fn lemma_bmm_dot_changes<T: Scalar>(
    a: Seq<T>,
    b: Seq<T>,
    da: Seq<T>,
    db: Seq<T>,
    d: BmmDims,
    o: int,
    i: nat,
)
    requires
        exact::<T>(),
        d.fits(a.len(), b.len()),
        0 <= o < d.out_len(),
        i <= d.k,
    ensures
        bmm_dot(added(a, da), added(b, db), d, o, i) == bmm_dot(a, b, d, o, i).spec_plus(
            bmm_change(a, b, da, db, d, o, i),
        ).spec_plus(bmm_dot(da, db, d, o, i)),
    decreases i,
{
    let z = T::spec_zero();
    if i == 0 {
        plus_zero(z);
    } else {
        let j = (i - 1) as nat;
        lemma_bmm_dot_changes(a, b, da, db, d, o, j);
        lemma_bmm_at(d, a.len(), b.len(), o, i - 1);
        let (x, y) = (d.a_at(o, i - 1), d.b_at(o, i - 1));
        lemma_more(
            bmm_dot(a, b, d, o, j),
            bmm_dot(da, b, d, o, j),
            bmm_dot(a, db, d, o, j),
            bmm_dot(da, db, d, o, j),
            a[x],
            da[x],
            b[y],
            db[y],
        );
    }
}

/// The same of the products of pairs of matrices.
pub proof fn bmm_changes<T: Scalar>(
    a: Seq<T>,
    b: Seq<T>,
    da: Seq<T>,
    db: Seq<T>,
    d: BmmDims,
)
    requires
        exact::<T>(),
        d.fits(a.len(), b.len()),
    ensures
        bmm_out(added(a, da), added(b, db), d) == added(
            added(bmm_out(a, b, d), bmm_tangent(a, b, da, db, d)),
            bmm_out(da, db, d),
        ),
{
    let x = bmm_out(added(a, da), added(b, db), d);
    let y = added(
        added(bmm_out(a, b, d), bmm_tangent(a, b, da, db, d)),
        bmm_out(da, db, d),
    );
    assert forall|o: int| 0 <= o < x.len() implies #[trigger] x[o] == y[o] by {
        lemma_bmm_dot_changes(a, b, da, db, d, o, d.k as nat);
    }
    assert(x =~= y);
}

} // verus!
