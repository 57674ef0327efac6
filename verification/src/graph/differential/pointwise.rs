//! Operations element by element.
use crate::graph::differential::ring::{
    exact, plus_group, plus_pairs, plus_zero, times_plus, times_rotate,
};
use crate::graph::differential::sums::{inner, inner_of_added};
use crate::graph::index::broadcast_index;
use crate::graph::ops::elementwise::{
    add_at, broadcast_ok, lemma_broadcast_positions, pairwise_back, pairwise_back_self,
    pairwise_grad, sigmoid, silu_back, silu_grad, Pairwise,
};
use crate::scalar::Scalar;
use crate::tensor::{broadcast_shape, product};
use vstd::prelude::*;

verus! {

/// How a sum or a product changes with its operands.
pub open spec fn pair_tangent<T: Scalar>(op: Pairwise, x: T, y: T, dx: T, dy: T) -> T {
    match op {
        Pairwise::Add => dx.spec_plus(dy),
        Pairwise::Mul => dx.spec_times(y).spec_plus(x.spec_times(dy)),
    }
}

/// The same for tensors.
pub open spec fn pairwise_tangent<T: Scalar>(
    op: Pairwise,
    a: Seq<T>,
    a_shape: Seq<usize>,
    b: Seq<T>,
    b_shape: Seq<usize>,
    da: Seq<T>,
    db: Seq<T>,
) -> Seq<T> {
    let out = broadcast_shape(a_shape, b_shape);
    Seq::new(
        product(out),
        |o: int|
            pair_tangent(
                op,
                a[broadcast_index(a_shape, out, o)],
                b[broadcast_index(b_shape, out, o)],
                da[broadcast_index(a_shape, out, o)],
                db[broadcast_index(b_shape, out, o)],
            ),
    )
}

proof fn lemma_pair<T: Scalar>(op: Pairwise, x: T, y: T, dx: T, dy: T, g: T)
    requires
        exact::<T>(),
    ensures
        pairwise_grad(op, y, g).spec_times(dx).spec_plus(pairwise_grad(op, x, g).spec_times(dy))
            == g.spec_times(pair_tangent(op, x, y, dx, dy)),
{
    match op {
        Pairwise::Add => {
            times_plus(g, dx, dy);
        },
        Pairwise::Mul => {
            times_rotate(y, g, dx);
            times_rotate(x, g, dy);
            times_plus(g, dx.spec_times(y), x.spec_times(dy));
        },
    }
}

/// Going back through a sum or a product of two tensors is the transpose of how it changes.
pub proof fn pairwise_adjoint<T: Scalar>(
    op: Pairwise,
    a: Seq<T>,
    a_shape: Seq<usize>,
    b: Seq<T>,
    b_shape: Seq<usize>,
    og: Seq<T>,
    grads: (Seq<T>, Seq<T>),
    da: Seq<T>,
    db: Seq<T>,
    n: nat,
)
    requires
        exact::<T>(),
        broadcast_ok(a_shape, b_shape),
        grads.0.len() == product(a_shape),
        grads.1.len() == product(b_shape),
        n <= product(broadcast_shape(a_shape, b_shape)),
    ensures
        ({
            let r = pairwise_back(op, a, a_shape, b, b_shape, og, grads, n);
            let (la, lb) = (product(a_shape), product(b_shape));
            &&& r.0.len() == la
            &&& r.1.len() == lb
            &&& inner(r.0, da, la).spec_plus(inner(r.1, db, lb)) == inner(
                grads.0,
                da,
                la,
            ).spec_plus(inner(grads.1, db, lb)).spec_plus(
                inner(og, pairwise_tangent(op, a, a_shape, b, b_shape, da, db), n),
            )
        }),
    decreases n,
{
    let (la, lb) = (product(a_shape), product(b_shape));
    let base = inner(grads.0, da, la).spec_plus(inner(grads.1, db, lb));
    let t = pairwise_tangent(op, a, a_shape, b, b_shape, da, db);
    if n == 0 {
        plus_zero(base);
    } else {
        let i = n - 1;
        let m = i as nat;
        pairwise_adjoint(op, a, a_shape, b, b_shape, og, grads, da, db, m);
        lemma_broadcast_positions(a_shape, b_shape, i);
        let out = broadcast_shape(a_shape, b_shape);
        let ia = broadcast_index(a_shape, out, i);
        let ib = broadcast_index(b_shape, out, i);
        let g = pairwise_back(op, a, a_shape, b, b_shape, og, grads, m);
        let x = pairwise_grad(op, b[ib], og[i]);
        let y = pairwise_grad(op, a[ia], og[i]);
        inner_of_added(g.0, da, ia, x, la);
        inner_of_added(g.1, db, ib, y, lb);
        plus_pairs(
            inner(g.0, da, la),
            x.spec_times(da[ia]),
            inner(g.1, db, lb),
            y.spec_times(db[ib]),
        );
        lemma_pair(op, a[ia], b[ib], da[ia], db[ib], og[i]);
        plus_group(base, inner(og, t, m), og[i].spec_times(t[i]));
    }
}

/// The same where a tensor is combined with itself.
pub proof fn pairwise_self_adjoint<T: Scalar>(
    op: Pairwise,
    a: Seq<T>,
    b: Seq<T>,
    shape: Seq<usize>,
    og: Seq<T>,
    grad: Seq<T>,
    da: Seq<T>,
    n: nat,
)
    requires
        exact::<T>(),
        broadcast_ok(shape, shape),
        grad.len() == product(shape),
        n <= product(broadcast_shape(shape, shape)),
    ensures
        ({
            let r = pairwise_back_self(op, a, b, shape, og, grad, n);
            &&& r.len() == product(shape)
            &&& inner(r, da, product(shape)) == inner(grad, da, product(shape)).spec_plus(
                inner(og, pairwise_tangent(op, a, shape, b, shape, da, da), n),
            )
        }),
    decreases n,
{
    let len = product(shape);
    let t = pairwise_tangent(op, a, shape, b, shape, da, da);
    let base = inner(grad, da, len);
    if n == 0 {
        plus_zero(base);
    } else {
        let i = n - 1;
        let m = i as nat;
        pairwise_self_adjoint(op, a, b, shape, og, grad, da, m);
        lemma_broadcast_positions(shape, shape, i);
        let ia = broadcast_index(shape, broadcast_shape(shape, shape), i);
        let g = pairwise_back_self(op, a, b, shape, og, grad, m);
        let x = pairwise_grad(op, b[ia], og[i]);
        let y = pairwise_grad(op, a[ia], og[i]);
        inner_of_added(g, da, ia, x, len);
        inner_of_added(add_at(g, ia, x), da, ia, y, len);
        plus_group(inner(g, da, len), x.spec_times(da[ia]), y.spec_times(da[ia]));
        lemma_pair(op, a[ia], b[ia], da[ia], da[ia], og[i]);
        plus_group(base, inner(og, t, m), og[i].spec_times(t[i]));
    }
}

/// How the sigmoid-weighted elements change: every element by its slope.
pub open spec fn silu_tangent<T: Scalar>(a: Seq<T>, da: Seq<T>) -> Seq<T> {
    Seq::new(a.len(), |i: int| silu_grad(a[i], da[i]))
}

/// Going back through the sigmoid-weighted elements is the transpose of how they change.
pub proof fn silu_adjoint<T: Scalar>(a: Seq<T>, og: Seq<T>, grad: Seq<T>, da: Seq<T>, n: nat)
    requires
        exact::<T>(),
        n <= grad.len(),
        n <= a.len(),
    ensures
        inner(silu_back(a, og, grad), da, n) == inner(grad, da, n).spec_plus(
            inner(og, silu_tangent(a, da), n),
        ),
    decreases n,
{
    if n == 0 {
        plus_zero(T::spec_zero());
    } else {
        let m = (n - 1) as nat;
        let i = n - 1;
        silu_adjoint(a, og, grad, da, m);
        let x = silu_grad(a[i], og[i]);
        let sig = sigmoid(a[i]);
        let silu = a[i].spec_times(sig);
        let slope = silu.spec_plus(sig.spec_times(T::spec_one().spec_minus(silu)));
        times_plus(da[i], grad[i], x);
        times_rotate(og[i], slope, da[i]);
        plus_pairs(
            inner(grad, da, m),
            inner(og, silu_tangent(a, da), m),
            grad[i].spec_times(da[i]),
            x.spec_times(da[i]),
        );
    }
}

} // verus!
