//! Operations on rows: softmax, the loss, the normalisation and the rotation.
use crate::data::fim::IGNORE_INDEX;
use crate::graph::differential::ring::{
    exact, minus_is_plus, negated_plus, plus_group, plus_negated, plus_pairs, plus_swap, plus_zero,
    times_group, times_negated, times_plus, times_rotate, times_swap, times_zero,
};
use crate::graph::differential::sums::{
    added, inner, inner_is_sum, inner_of_added, inner_of_sum, same_sum, sum, sum_by_rows,
};
use crate::graph::index::lemma_cell;
use crate::graph::ops::elementwise::add_at;
use crate::graph::ops::normalization::{rms_back, rms_back_self, rms_dot, rms_dw, rms_dx};
use crate::graph::ops::reduction::{
    class_grad, cross_entropy_back, row_dot, softmax_back, RowWeight,
};
use crate::graph::ops::transform::{rope_back, rope_out, RopeDims};
use crate::scalar::Scalar;
use vstd::prelude::*;

verus! {

/// What `k` multiplies can be taken off a sum before or after the next terms are added.
proof fn lemma_minus_terms<T: Scalar>(a: T, b: T, k: T, x: T, y: T)
    requires
        exact::<T>(),
    ensures
        a.spec_minus(k.spec_times(b)).spec_plus(x.spec_minus(k.spec_times(y))) == a.spec_plus(
            x,
        ).spec_minus(k.spec_times(b.spec_plus(y))),
{
    let (kb, ky) = (k.spec_times(b), k.spec_times(y));
    minus_is_plus(a, kb);
    minus_is_plus(x, ky);
    plus_pairs(a, kb.spec_negated(), x, ky.spec_negated());
    negated_plus(kb, ky);
    times_plus(k, b, y);
    minus_is_plus(a.spec_plus(x), k.spec_times(b.spec_plus(y)));
}

proof fn lemma_zero_minus<T: Scalar>(k: T)
    requires
        exact::<T>(),
    ensures
        T::spec_zero().spec_minus(k.spec_times(T::spec_zero())) == T::spec_zero(),
{
    let z = T::spec_zero();
    times_zero(k);
    minus_is_plus(z, z);
    plus_negated(z);
}

proof fn lemma_times_minus<T: Scalar>(a: T, b: T, c: T)
    requires
        exact::<T>(),
    ensures
        a.spec_times(b.spec_minus(c)) == a.spec_times(b).spec_minus(a.spec_times(c)),
        b.spec_minus(c).spec_times(a) == b.spec_times(a).spec_minus(c.spec_times(a)),
{
    minus_is_plus(b, c);
    times_plus(a, b, c.spec_negated());
    times_negated(a, c);
    minus_is_plus(a.spec_times(b), a.spec_times(c));
    minus_is_plus(b.spec_times(a), c.spec_times(a));
}

/// How the shares of the elements of a row change with the elements, given the shares.
pub open spec fn softmax_tangent<T: Scalar>(s: Seq<T>, d: Seq<T>, n: int) -> Seq<T> {
    Seq::new(
        s.len(),
        |o: int| s[o].spec_times(d[o].spec_minus(row_dot(d, s, (o / n) * n, n as nat))),
    )
}

/// The first `n` products of three in a row from `off` on.
spec fn row_three<T: Scalar>(s: Seq<T>, u: Seq<T>, v: Seq<T>, off: int, n: nat) -> T
    decreases n,
{
    if n == 0 {
        T::spec_zero()
    } else {
        row_three(s, u, v, off, (n - 1) as nat).spec_plus(
            s[off + n - 1].spec_times(u[off + n - 1]).spec_times(v[off + n - 1]),
        )
    }
}

proof fn lemma_three_swap<T: Scalar>(s: Seq<T>, u: Seq<T>, v: Seq<T>, off: int, n: nat)
    requires
        exact::<T>(),
    ensures
        row_three(s, u, v, off, n) == row_three(s, v, u, off, n),
    decreases n,
{
    if n > 0 {
        lemma_three_swap(s, u, v, off, (n - 1) as nat);
        times_rotate(s[off + n - 1], u[off + n - 1], v[off + n - 1]);
    }
}

/// A row of the change of softmax against another row.
proof fn lemma_softmax_row<T: Scalar>(
    s: Seq<T>,
    u: Seq<T>,
    v: Seq<T>,
    k: T,
    off: int,
    n: nat,
    f: spec_fn(int) -> T,
)
    requires
        exact::<T>(),
        forall|c: int|
            0 <= c < n ==> #[trigger] f(c) == s[off + c].spec_times(
                u[off + c].spec_minus(k),
            ).spec_times(v[off + c]),
    ensures
        sum(f, n) == row_three(s, u, v, off, n).spec_minus(k.spec_times(row_dot(v, s, off, n))),
    decreases n,
{
    if n == 0 {
        lemma_zero_minus(k);
    } else {
        let m = (n - 1) as nat;
        lemma_softmax_row(s, u, v, k, off, m, f);
        let o = off + n - 1;
        assert(f(n - 1) == s[o].spec_times(u[o].spec_minus(k)).spec_times(v[o])) by {
            assert(off + (n - 1) == o);
        }
        lemma_times_minus(s[o], u[o], k);
        lemma_times_minus(v[o], s[o].spec_times(u[o]), s[o].spec_times(k));
        times_rotate(s[o], k, v[o]);
        times_swap(s[o], v[o]);
        lemma_minus_terms(
            row_three(s, u, v, off, m),
            row_dot(v, s, off, m),
            k,
            s[o].spec_times(u[o]).spec_times(v[o]),
            v[o].spec_times(s[o]),
        );
    }
}

/// A change of softmax against another one, row by row.
proof fn lemma_softmax_symmetric<T: Scalar>(s: Seq<T>, u: Seq<T>, v: Seq<T>, b: nat, n: nat)
    requires
        exact::<T>(),
        s.len() == b * n,
    ensures
        inner(softmax_tangent(s, u, n as int), v, b * n) == inner(
            u,
            softmax_tangent(s, v, n as int),
            b * n,
        ),
{
    let (x, y) = (softmax_tangent(s, u, n as int), softmax_tangent(s, v, n as int));
    let f = |i: int| x[i].spec_times(v[i]);
    let g = |i: int| u[i].spec_times(y[i]);
    inner_is_sum(x, v, b * n);
    inner_is_sum(u, y, b * n);
    sum_by_rows(f, b, n);
    sum_by_rows(g, b, n);
    let fr = |r: int| sum(|c: int| f(r * n + c), n);
    let gr = |r: int| sum(|c: int| g(r * n + c), n);
    assert forall|r: int| 0 <= r < b implies #[trigger] fr(r) == gr(r) by {
        let off = r * n;
        let (ku, kv) = (row_dot(u, s, off, n), row_dot(v, s, off, n));
        let p = |c: int| f(r * n + c);
        let q = |c: int| g(r * n + c);
        assert forall|c: int| 0 <= c < n implies #[trigger] p(c) == s[off + c].spec_times(
            u[off + c].spec_minus(ku),
        ).spec_times(v[off + c]) by {
            lemma_cell(r, b as int, c, n as int);
        }
        assert forall|c: int| 0 <= c < n implies #[trigger] q(c) == s[off + c].spec_times(
            v[off + c].spec_minus(kv),
        ).spec_times(u[off + c]) by {
            lemma_cell(r, b as int, c, n as int);
            times_swap(u[off + c], y[off + c]);
        }
        lemma_softmax_row(s, u, v, ku, off, n, p);
        lemma_softmax_row(s, v, u, kv, off, n, q);
        lemma_three_swap(s, u, v, off, n);
        times_swap(ku, kv);
    }
    same_sum(fr, gr, b);
}

/// Going back through softmax is the transpose of how it changes.
pub proof fn softmax_adjoint<T: Scalar>(
    s: Seq<T>,
    og: Seq<T>,
    grad: Seq<T>,
    d: Seq<T>,
    b: usize,
    n: usize,
)
    requires
        exact::<T>(),
        s.len() == b * n,
        grad.len() == b * n,
    ensures
        inner(softmax_back(s, og, grad, n as int), d, grad.len()) == inner(
            grad,
            d,
            grad.len(),
        ).spec_plus(inner(og, softmax_tangent(s, d, n as int), grad.len())),
{
    let x = softmax_tangent(s, og, n as int);
    lemma_softmax_symmetric(s, og, d, b as nat, n as nat);
    inner_of_sum(grad, x, d, grad.len());
    assert(softmax_back(s, og, grad, n as int) =~= added(grad, x));
}

/// What an element of the logits changes the loss by: nothing where its row is left out.
pub open spec fn loss_slopes<T: Scalar>(
    probs: Seq<T>,
    targets: Seq<usize>,
    c: int,
    weight: RowWeight<T>,
    n: nat,
) -> Seq<T> {
    Seq::new(
        n,
        |o: int|
            if o >= probs.len() || targets[o / c] == IGNORE_INDEX {
                T::spec_zero()
            } else {
                class_grad(probs, targets, c, weight, o)
            },
    )
}

/// How the loss changes with the logits.
pub open spec fn loss_tangent<T: Scalar>(
    probs: Seq<T>,
    targets: Seq<usize>,
    c: int,
    weight: RowWeight<T>,
    d: Seq<T>,
    n: nat,
) -> Seq<T> {
    seq![inner(loss_slopes(probs, targets, c, weight, n), d, n)]
}

/// Going back through the loss is the transpose of how it changes.
pub proof fn loss_adjoint<T: Scalar>(
    probs: Seq<T>,
    targets: Seq<usize>,
    c: int,
    weight: RowWeight<T>,
    og: Seq<T>,
    grad: Seq<T>,
    d: Seq<T>,
)
    requires
        exact::<T>(),
        og.len() == 1,
    ensures
        inner(cross_entropy_back(probs, targets, c, weight, og[0], grad), d, grad.len()) == inner(
            grad,
            d,
            grad.len(),
        ).spec_plus(
            inner(og, loss_tangent(probs, targets, c, weight, d, grad.len()), og.len()),
        ),
{
    let n = grad.len();
    let t = loss_tangent(probs, targets, c, weight, d, n);
    lemma_loss(probs, targets, c, weight, og[0], grad, d, n);
    assert(inner(og, t, 0) == T::spec_zero());
    assert(inner(og, t, 1) == T::spec_zero().spec_plus(og[0].spec_times(t[0])));
    plus_zero(og[0].spec_times(t[0]));
}

proof fn lemma_loss<T: Scalar>(
    probs: Seq<T>,
    targets: Seq<usize>,
    c: int,
    weight: RowWeight<T>,
    og: T,
    grad: Seq<T>,
    d: Seq<T>,
    n: nat,
)
    requires
        exact::<T>(),
        n <= grad.len(),
    ensures
        inner(cross_entropy_back(probs, targets, c, weight, og, grad), d, n) == inner(
            grad,
            d,
            n,
        ).spec_plus(og.spec_times(inner(loss_slopes(probs, targets, c, weight, grad.len()), d, n))),
    decreases n,
{
    let s = loss_slopes(probs, targets, c, weight, grad.len());
    let back = cross_entropy_back(probs, targets, c, weight, og, grad);
    if n == 0 {
        times_zero(og);
        plus_zero(T::spec_zero());
    } else {
        let m = (n - 1) as nat;
        let o = n - 1;
        lemma_loss(probs, targets, c, weight, og, grad, d, m);
        let (a, b) = (inner(grad, d, m), inner(s, d, m));
        let (u, v) = (grad[o].spec_times(d[o]), s[o].spec_times(d[o]));
        times_plus(og, b, v);
        plus_pairs(a, og.spec_times(b), u, og.spec_times(v));
        if o >= probs.len() || targets[o / c] == IGNORE_INDEX {
            times_zero(d[o]);
            times_zero(og);
            plus_zero(u);
        } else {
            times_plus(d[o], grad[o], s[o].spec_times(og));
            times_rotate(s[o], og, d[o]);
        }
    }
}

/// How normalised rows change with their elements and the weights, given the scales of the rows.
pub open spec fn rms_tangent<T: Scalar>(
    x: Seq<T>,
    w: Seq<T>,
    rrms: Seq<T>,
    dim: int,
    dx: Seq<T>,
    dw: Seq<T>,
) -> Seq<T> {
    Seq::new(
        x.len(),
        |o: int|
            {
                let s = rrms[o / dim];
                let cube = s.spec_power(3).spec_over(T::spec_from_count(dim as usize));
                let q = row_dot(x, dx, (o / dim) * dim, dim as nat);
                dx[o].spec_times(s).spec_times(w[o % dim]).spec_minus(
                    x[o].spec_times(cube).spec_times(q).spec_times(w[o % dim]),
                ).spec_plus(x[o].spec_times(s).spec_times(dw[o % dim]))
            },
    )
}

/// What the element at `o` is handed and what the weight of its column is, each against its change.
spec fn rms_term<T: Scalar>(
    og: Seq<T>,
    x: Seq<T>,
    w: Seq<T>,
    rrms: Seq<T>,
    dim: int,
    dx: Seq<T>,
    dw: Seq<T>,
) -> spec_fn(int) -> T {
    |o: int|
        rms_dx(og, x, w, rrms, dim, o / dim, o % dim).spec_times(dx[o]).spec_plus(
            rms_dw(og, x, rrms, dim, o / dim, o % dim).spec_times(dw[o % dim]),
        )
}

proof fn lemma_rms_back<T: Scalar>(
    og: Seq<T>,
    x: Seq<T>,
    w: Seq<T>,
    rrms: Seq<T>,
    dim: nat,
    grads: (Seq<T>, Seq<T>),
    dx: Seq<T>,
    dw: Seq<T>,
    n: nat,
    r: nat,
    c: nat,
)
    requires
        exact::<T>(),
        grads.0.len() == n * dim,
        n > 0 ==> grads.1.len() >= dim,
        r < n || (r == n && c == 0),
        c <= dim,
    ensures
        ({
            let back = rms_back(og, x, w, rrms, dim as int, grads, r, c);
            let (la, lb) = (grads.0.len(), grads.1.len());
            &&& back.0.len() == la
            &&& back.1.len() == lb
            &&& inner(back.0, dx, la).spec_plus(inner(back.1, dw, lb)) == inner(
                grads.0,
                dx,
                la,
            ).spec_plus(inner(grads.1, dw, lb)).spec_plus(
                sum(rms_term(og, x, w, rrms, dim as int, dx, dw), r * dim + c),
            )
        }),
    decreases r, c,
{
    let (la, lb) = (grads.0.len(), grads.1.len());
    let base = inner(grads.0, dx, la).spec_plus(inner(grads.1, dw, lb));
    let t = rms_term(og, x, w, rrms, dim as int, dx, dw);
    if c > 0 {
        let m = (c - 1) as nat;
        lemma_rms_back(og, x, w, rrms, dim, grads, dx, dw, n, r, m);
        let g = rms_back(og, x, w, rrms, dim as int, grads, r, m);
        let o = r * dim + c - 1;
        lemma_cell(r as int, n as int, m as int, dim as int);
        assert(o == r * dim + m);
        let u = rms_dx(og, x, w, rrms, dim as int, r as int, c - 1);
        let v = rms_dw(og, x, rrms, dim as int, r as int, c - 1);
        inner_of_added(g.0, dx, o, u, la);
        inner_of_added(g.1, dw, c - 1, v, lb);
        plus_pairs(
            inner(g.0, dx, la),
            u.spec_times(dx[o]),
            inner(g.1, dw, lb),
            v.spec_times(dw[c - 1]),
        );
        assert(t(o) == u.spec_times(dx[o]).spec_plus(v.spec_times(dw[c - 1])));
        plus_group(base, sum(t, r * dim + m), t(o));
    } else if r > 0 {
        let p = (r - 1) as nat;
        lemma_rms_back(og, x, w, rrms, dim, grads, dx, dw, n, p, dim);
        assert(p * dim + dim == r * dim) by (nonlinear_arith)
            requires
                r == p + 1,
        ;
    } else {
        assert(0 * dim == 0) by (nonlinear_arith);
        plus_zero(base);
    }
}

proof fn lemma_rms_back_self<T: Scalar>(
    og: Seq<T>,
    x: Seq<T>,
    w: Seq<T>,
    rrms: Seq<T>,
    dim: nat,
    grad: Seq<T>,
    dx: Seq<T>,
    n: nat,
    r: nat,
    c: nat,
)
    requires
        exact::<T>(),
        grad.len() == n * dim,
        r < n || (r == n && c == 0),
        c <= dim,
    ensures
        ({
            let back = rms_back_self(og, x, w, rrms, dim as int, grad, r, c);
            &&& back.len() == grad.len()
            &&& inner(back, dx, grad.len()) == inner(grad, dx, grad.len()).spec_plus(
                sum(rms_term(og, x, w, rrms, dim as int, dx, dx), r * dim + c),
            )
        }),
    decreases r, c,
{
    let len = grad.len();
    let base = inner(grad, dx, len);
    let t = rms_term(og, x, w, rrms, dim as int, dx, dx);
    if c > 0 {
        let m = (c - 1) as nat;
        lemma_rms_back_self(og, x, w, rrms, dim, grad, dx, n, r, m);
        let g = rms_back_self(og, x, w, rrms, dim as int, grad, r, m);
        let o = r * dim + c - 1;
        lemma_cell(r as int, n as int, m as int, dim as int);
        lemma_cell(0, n as int, m as int, dim as int);
        assert(o == r * dim + m);
        let u = rms_dx(og, x, w, rrms, dim as int, r as int, c - 1);
        let v = rms_dw(og, x, rrms, dim as int, r as int, c - 1);
        inner_of_added(g, dx, o, u, len);
        inner_of_added(add_at(g, o, u), dx, c - 1, v, len);
        plus_group(inner(g, dx, len), u.spec_times(dx[o]), v.spec_times(dx[c - 1]));
        assert(t(o) == u.spec_times(dx[o]).spec_plus(v.spec_times(dx[c - 1])));
        plus_group(base, sum(t, r * dim + m), t(o));
    } else if r > 0 {
        let p = (r - 1) as nat;
        lemma_rms_back_self(og, x, w, rrms, dim, grad, dx, n, p, dim);
        assert(p * dim + dim == r * dim) by (nonlinear_arith)
            requires
                r == p + 1,
        ;
    } else {
        assert(0 * dim == 0) by (nonlinear_arith);
        plus_zero(base);
    }
}

/// The part of a row of the normalisation that keeps the scale of the row.
spec fn scaled_part<T: Scalar>(
    og: Seq<T>,
    x: Seq<T>,
    w: Seq<T>,
    s: T,
    dx: Seq<T>,
    dw: Seq<T>,
    off: int,
    n: nat,
) -> T
    decreases n,
{
    if n == 0 {
        T::spec_zero()
    } else {
        let c = n - 1;
        let o = off + n - 1;
        scaled_part(og, x, w, s, dx, dw, off, (n - 1) as nat).spec_plus(
            s.spec_times(og[o].spec_times(w[c])).spec_times(dx[o]).spec_plus(
                og[o].spec_times(x[o]).spec_times(s).spec_times(dw[c]),
            ),
        )
    }
}

/// (a - b) + c taken with the subtraction last.
proof fn lemma_minus_last<T: Scalar>(a: T, b: T, c: T)
    requires
        exact::<T>(),
    ensures
        a.spec_minus(b).spec_plus(c) == a.spec_plus(c).spec_minus(b),
{
    let y = b.spec_negated();
    minus_is_plus(a, b);
    minus_is_plus(a.spec_plus(c), b);
    plus_group(a, y, c);
    plus_swap(y, c);
    plus_group(a, c, y);
}

proof fn lemma_row_back<T: Scalar>(
    og: Seq<T>,
    x: Seq<T>,
    w: Seq<T>,
    s: T,
    cube: T,
    k: T,
    dx: Seq<T>,
    dw: Seq<T>,
    off: int,
    n: nat,
    f: spec_fn(int) -> T,
)
    requires
        exact::<T>(),
        forall|c: int|
            0 <= c < n ==> #[trigger] f(c) == s.spec_times(
                og[off + c].spec_times(w[c]),
            ).spec_minus(x[off + c].spec_times(cube).spec_times(k)).spec_times(
                dx[off + c],
            ).spec_plus(og[off + c].spec_times(x[off + c]).spec_times(s).spec_times(dw[c])),
    ensures
        sum(f, n) == scaled_part(og, x, w, s, dx, dw, off, n).spec_minus(
            cube.spec_times(k).spec_times(row_dot(x, dx, off, n)),
        ),
    decreases n,
{
    let ck = cube.spec_times(k);
    if n == 0 {
        lemma_zero_minus(ck);
    } else {
        let m = (n - 1) as nat;
        let c = n - 1;
        let o = off + n - 1;
        lemma_row_back(og, x, w, s, cube, k, dx, dw, off, m, f);
        assert(off + c == o);
        let p = s.spec_times(og[o].spec_times(w[c]));
        let q = x[o].spec_times(cube).spec_times(k);
        let e = og[o].spec_times(x[o]).spec_times(s).spec_times(dw[c]);
        assert(f(c) == p.spec_minus(q).spec_times(dx[o]).spec_plus(e));
        lemma_times_minus(dx[o], p, q);
        times_group(x[o], cube, k);
        times_rotate(x[o], ck, dx[o]);
        assert(q.spec_times(dx[o]) == ck.spec_times(x[o].spec_times(dx[o])));
        lemma_minus_last(p.spec_times(dx[o]), q.spec_times(dx[o]), e);
        lemma_minus_terms(
            scaled_part(og, x, w, s, dx, dw, off, m),
            row_dot(x, dx, off, m),
            ck,
            p.spec_times(dx[o]).spec_plus(e),
            x[o].spec_times(dx[o]),
        );
    }
}

proof fn lemma_row_out<T: Scalar>(
    og: Seq<T>,
    x: Seq<T>,
    w: Seq<T>,
    s: T,
    cube: T,
    k: T,
    dx: Seq<T>,
    dw: Seq<T>,
    off: int,
    n: nat,
    f: spec_fn(int) -> T,
)
    requires
        exact::<T>(),
        forall|c: int|
            0 <= c < n ==> #[trigger] f(c) == og[off + c].spec_times(
                dx[off + c].spec_times(s).spec_times(w[c]).spec_minus(
                    x[off + c].spec_times(cube).spec_times(k).spec_times(w[c]),
                ).spec_plus(x[off + c].spec_times(s).spec_times(dw[c])),
            ),
    ensures
        sum(f, n) == scaled_part(og, x, w, s, dx, dw, off, n).spec_minus(
            cube.spec_times(k).spec_times(rms_dot(og, x, w, off, n)),
        ),
    decreases n,
{
    let ck = cube.spec_times(k);
    if n == 0 {
        lemma_zero_minus(ck);
    } else {
        let m = (n - 1) as nat;
        let c = n - 1;
        let o = off + n - 1;
        lemma_row_out(og, x, w, s, cube, k, dx, dw, off, m, f);
        assert(off + c == o);
        let g = og[o];
        let p = dx[o].spec_times(s).spec_times(w[c]);
        let q = x[o].spec_times(cube).spec_times(k).spec_times(w[c]);
        let e = x[o].spec_times(s).spec_times(dw[c]);
        assert(f(c) == g.spec_times(p.spec_minus(q).spec_plus(e)));
        times_plus(g, p.spec_minus(q), e);
        lemma_times_minus(g, p, q);
        let gw = g.spec_times(w[c]);
        assert(g.spec_times(p) == s.spec_times(gw).spec_times(dx[o])) by {
            times_rotate(g, w[c], dx[o].spec_times(s));
            times_rotate(s, gw, dx[o]);
        }
        assert(g.spec_times(q) == ck.spec_times(g.spec_times(x[o]).spec_times(w[c]))) by {
            times_group(x[o], cube, k);
            times_rotate(g, w[c], x[o].spec_times(ck));
            times_rotate(g, x[o], w[c]);
            times_rotate(gw, x[o], ck);
        }
        assert(g.spec_times(e) == g.spec_times(x[o]).spec_times(s).spec_times(dw[c])) by {
            times_group(g, x[o].spec_times(s), dw[c]);
            times_group(g, x[o], s);
        }
        lemma_minus_last(g.spec_times(p), g.spec_times(q), g.spec_times(e));
        lemma_minus_terms(
            scaled_part(og, x, w, s, dx, dw, off, m),
            rms_dot(og, x, w, off, m),
            ck,
            g.spec_times(p).spec_plus(g.spec_times(e)),
            g.spec_times(x[o]).spec_times(w[c]),
        );
    }
}

proof fn lemma_rms_rows<T: Scalar>(
    og: Seq<T>,
    x: Seq<T>,
    w: Seq<T>,
    rrms: Seq<T>,
    dx: Seq<T>,
    dw: Seq<T>,
    n: nat,
    dim: nat,
)
    requires
        exact::<T>(),
        x.len() == n * dim,
    ensures
        sum(rms_term(og, x, w, rrms, dim as int, dx, dw), n * dim) == inner(
            og,
            rms_tangent(x, w, rrms, dim as int, dx, dw),
            n * dim,
        ),
{
    let f = rms_term(og, x, w, rrms, dim as int, dx, dw);
    let y = rms_tangent(x, w, rrms, dim as int, dx, dw);
    let g = |o: int| og[o].spec_times(y[o]);
    inner_is_sum(og, y, n * dim);
    sum_by_rows(f, n, dim);
    sum_by_rows(g, n, dim);
    let fr = |r: int| sum(|c: int| f(r * dim + c), dim);
    let gr = |r: int| sum(|c: int| g(r * dim + c), dim);
    assert forall|r: int| 0 <= r < n implies #[trigger] fr(r) == gr(r) by {
        let off = r * dim;
        let s = rrms[r];
        let cube = s.spec_power(3).spec_over(T::spec_from_count(dim as usize));
        let kb = rms_dot(og, x, w, off, dim);
        let ko = row_dot(x, dx, off, dim);
        let p = |c: int| f(r * dim + c);
        let q = |c: int| g(r * dim + c);
        assert forall|c: int| 0 <= c < dim implies #[trigger] p(c) == s.spec_times(
            og[off + c].spec_times(w[c]),
        ).spec_minus(x[off + c].spec_times(cube).spec_times(kb)).spec_times(
            dx[off + c],
        ).spec_plus(og[off + c].spec_times(x[off + c]).spec_times(s).spec_times(dw[c])) by {
            lemma_cell(r, n as int, c, dim as int);
        }
        assert forall|c: int| 0 <= c < dim implies #[trigger] q(c) == og[off + c].spec_times(
            dx[off + c].spec_times(s).spec_times(w[c]).spec_minus(
                x[off + c].spec_times(cube).spec_times(ko).spec_times(w[c]),
            ).spec_plus(x[off + c].spec_times(s).spec_times(dw[c])),
        ) by {
            lemma_cell(r, n as int, c, dim as int);
        }
        lemma_row_back(og, x, w, s, cube, kb, dx, dw, off, dim, p);
        lemma_row_out(og, x, w, s, cube, ko, dx, dw, off, dim, q);
        times_rotate(cube, kb, ko);
    }
    same_sum(fr, gr, n);
}

/// Going back through the normalisation is the transpose of how it changes.
pub proof fn rms_adjoint<T: Scalar>(
    og: Seq<T>,
    x: Seq<T>,
    w: Seq<T>,
    rrms: Seq<T>,
    grads: (Seq<T>, Seq<T>),
    dx: Seq<T>,
    dw: Seq<T>,
    n: usize,
    dim: usize,
)
    requires
        exact::<T>(),
        x.len() == n * dim,
        grads.0.len() == n * dim,
        n > 0 ==> grads.1.len() >= dim,
    ensures
        ({
            let back = rms_back(og, x, w, rrms, dim as int, grads, n as nat, 0);
            let (la, lb) = (grads.0.len(), grads.1.len());
            &&& back.0.len() == la
            &&& back.1.len() == lb
            &&& inner(back.0, dx, la).spec_plus(inner(back.1, dw, lb)) == inner(
                grads.0,
                dx,
                la,
            ).spec_plus(inner(grads.1, dw, lb)).spec_plus(
                inner(og, rms_tangent(x, w, rrms, dim as int, dx, dw), la),
            )
        }),
{
    lemma_rms_back(og, x, w, rrms, dim as nat, grads, dx, dw, n as nat, n as nat, 0);
    lemma_rms_rows(og, x, w, rrms, dx, dw, n as nat, dim as nat);
}

/// The same where the rows are their own weights.
pub proof fn rms_self_adjoint<T: Scalar>(
    og: Seq<T>,
    x: Seq<T>,
    w: Seq<T>,
    rrms: Seq<T>,
    grad: Seq<T>,
    dx: Seq<T>,
    n: usize,
    dim: usize,
)
    requires
        exact::<T>(),
        x.len() == n * dim,
        grad.len() == n * dim,
    ensures
        ({
            let back = rms_back_self(og, x, w, rrms, dim as int, grad, n as nat, 0);
            &&& back.len() == grad.len()
            &&& inner(back, dx, grad.len()) == inner(grad, dx, grad.len()).spec_plus(
                inner(og, rms_tangent(x, w, rrms, dim as int, dx, dx), grad.len()),
            )
        }),
{
    lemma_rms_back_self(og, x, w, rrms, dim as nat, grad, dx, n as nat, n as nat, 0);
    lemma_rms_rows(og, x, w, rrms, dx, dx, n as nat, dim as nat);
}

/// Every element is turned: none is left over at the end of a head or of a row.
pub open spec fn all_turn(d: RopeDims, n: nat) -> bool {
    forall|o: int| 0 <= o < n ==> #[trigger] d.turns(o)
}

/// The elements of a pair lie side by side, and the next pair begins behind them.
proof fn lemma_turned_pair(d: RopeDims, o: int)
    requires
        d.head > 0,
        o >= 0,
        d.turns(o),
        d.within(o) % 2 == 0,
    ensures
        o + 1 < d.rows * d.hidden,
        d.within(o + 1) == d.within(o) + 1,
        (o + 1) / d.hidden as int == o / d.hidden as int,
        d.within(o + 2) % 2 == 0,
{
    let (h, w) = (d.hidden as int, d.head as int);
    let (r, c) = (o / h, o % h);
    assert(h > 0) by (nonlinear_arith)
        requires
            0 <= o < d.rows * h,
            h >= 0,
    ;
    vstd::arithmetic::div_mod::lemma_fundamental_div_mod(o, h);
    let (q, i) = (c / w, c % w);
    vstd::arithmetic::div_mod::lemma_fundamental_div_mod(c, w);
    assert(c - i + i + 1 < h);
    vstd::arithmetic::div_mod::lemma_fundamental_div_mod_converse(o + 1, h, r, c + 1);
    vstd::arithmetic::div_mod::lemma_fundamental_div_mod_converse(c + 1, w, q, i + 1);
    assert(o + 1 < d.rows * h) by (nonlinear_arith)
        requires
            o == h * r + c,
            c + 1 < h,
            0 <= c,
            o < d.rows * h,
            h > 0,
    ;
    if c + 2 < h {
        vstd::arithmetic::div_mod::lemma_fundamental_div_mod_converse(o + 2, h, r, c + 2);
        if i + 2 < w {
            vstd::arithmetic::div_mod::lemma_fundamental_div_mod_converse(c + 2, w, q, i + 2);
        } else {
            assert(w * (q + 1) == w * q + w) by (nonlinear_arith);
            vstd::arithmetic::div_mod::lemma_fundamental_div_mod_converse(c + 2, w, q + 1, 0);
        }
    } else {
        assert(h * (r + 1) == h * r + h) by (nonlinear_arith);
        vstd::arithmetic::div_mod::lemma_fundamental_div_mod_converse(o + 2, h, r + 1, 0);
        vstd::arithmetic::div_mod::lemma_fundamental_div_mod_converse(0, w, 0, 0);
    }
}

/// One pair: turning it back against a change, and the gradient against the turned change.
proof fn lemma_pair_turns<T: Scalar>(sin: T, cos: T, g: T, h: T, x: T, y: T)
    requires
        exact::<T>(),
    ensures
        g.spec_times(cos).spec_plus(h.spec_times(sin)).spec_times(x).spec_plus(
            g.spec_negated().spec_times(sin).spec_plus(h.spec_times(cos)).spec_times(y),
        ) == g.spec_times(x.spec_times(cos).spec_minus(y.spec_times(sin))).spec_plus(
            h.spec_times(x.spec_times(sin).spec_plus(y.spec_times(cos))),
        ),
{
    let (gc, hs, gs, hc) = (
        g.spec_times(cos),
        h.spec_times(sin),
        g.spec_times(sin),
        h.spec_times(cos),
    );
    times_plus(x, gc, hs);
    times_negated(sin, g);
    times_plus(y, gs.spec_negated(), hc);
    times_negated(y, gs);
    let (a, b, c, e) = (
        gc.spec_times(x),
        hs.spec_times(x),
        gs.spec_times(y),
        hc.spec_times(y),
    );
    // (a + b) + (-c + e) == (a - c) + (b + e)
    plus_pairs(a, b, c.spec_negated(), e);
    lemma_times_minus(g, x.spec_times(cos), y.spec_times(sin));
    times_plus(h, x.spec_times(sin), y.spec_times(cos));
    times_rotate(g, cos, x);
    times_rotate(g, sin, y);
    times_rotate(h, sin, x);
    times_rotate(h, cos, y);
    minus_is_plus(a, c);
}

/// Going back through the rotation is the transpose of turning, where every element is turned.
pub proof fn rope_adjoint<T: Scalar>(
    d: RopeDims,
    og: Seq<T>,
    grad: Seq<T>,
    t: Seq<T>,
    n: nat,
)
    requires
        exact::<T>(),
        d.wf(),
        all_turn(d, grad.len()),
        t.len() == grad.len(),
        grad.len() == d.rows * d.hidden,
        n <= grad.len(),
        n % 2 == 0 || n == grad.len(),
    ensures
        n % 2 == 0,
        grad.len() > 0 ==> d.within(n as int) % 2 == 0,
        inner(rope_back(og, grad, d), t, n) == inner(grad, t, n).spec_plus(
            inner(og, rope_out(t, d), n),
        ),
    decreases n,
{
    let back = rope_back(og, grad, d);
    let out = rope_out(t, d);
    if n == 0 {
        plus_zero(T::spec_zero());
        if grad.len() > 0 {
            assert(d.hidden > 0) by (nonlinear_arith)
                requires
                    d.rows * d.hidden > 0,
                    d.hidden >= 0,
            ;
            vstd::arithmetic::div_mod::lemma_small_mod(0, d.hidden as nat);
            vstd::arithmetic::div_mod::lemma_small_mod(0, d.head as nat);
        }
    } else if n % 2 == 1 {
        let m = (n - 1) as nat;
        rope_adjoint(d, og, grad, t, m);
        assert(d.turns(m as int));
        lemma_turned_pair(d, m as int);
    } else {
        let m = (n - 2) as nat;
        let (i, j) = (n - 2, n - 1);
        rope_adjoint(d, og, grad, t, m);
        assert(d.turns(i) && d.turns(j));
        lemma_turned_pair(d, i);
        let (sin, cos) = (d.angle::<T>(i).spec_sin(), d.angle::<T>(i).spec_cos());
        assert(d.angle::<T>(j) == d.angle::<T>(i));
        let (u, v) = (
            og[i].spec_times(cos).spec_plus(og[j].spec_times(sin)),
            og[i].spec_negated().spec_times(sin).spec_plus(og[j].spec_times(cos)),
        );
        assert(back[i] == grad[i].spec_plus(u));
        assert(back[j] == grad[j].spec_plus(v));
        assert(out[i] == t[i].spec_times(cos).spec_minus(t[j].spec_times(sin)));
        assert(out[j] == t[i].spec_times(sin).spec_plus(t[j].spec_times(cos)));
        lemma_pair_turns(sin, cos, og[i], og[j], t[i], t[j]);
        times_plus(t[i], grad[i], u);
        times_plus(t[j], grad[j], v);
        let (gi, gj) = (grad[i].spec_times(t[i]), grad[j].spec_times(t[j]));
        let (ui, vj) = (u.spec_times(t[i]), v.spec_times(t[j]));
        let (p, q) = (og[i].spec_times(out[i]), og[j].spec_times(out[j]));
        let (a, b) = (inner(grad, t, m), inner(og, out, m));
        let k = (n - 1) as nat;
        assert(inner(back, t, k) == inner(back, t, m).spec_plus(back[i].spec_times(t[i])));
        assert(inner(grad, t, k) == a.spec_plus(gi));
        assert(inner(og, out, k) == b.spec_plus(p));
        // ((a + b) + (gi + ui)) + (gj + vj) == ((a + gi) + gj) + ((b + p) + q)
        plus_group(a.spec_plus(b), gi.spec_plus(ui), gj.spec_plus(vj));
        plus_pairs(gi, ui, gj, vj);
        plus_pairs(a, b, gi.spec_plus(gj), ui.spec_plus(vj));
        plus_group(a, gi, gj);
        plus_group(b, p, q);
    }
}

} // verus!
