//! Element-wise operations on the host: addition and multiplication with broadcasting, and SiLU.
use crate::graph::index::{broadcast_index, broadcast_index_in_range};
use crate::scalar::Scalar;
use crate::tensor::{
    all_positive, broadcast_shape, broadcast_strides, product, shape_fits, strides_of, Tensor,
};
use vstd::prelude::*;

verus! {

/// The operations on two elements.
#[derive(Clone, Copy, Debug, PartialEq, Eq, Structural)]
pub enum Pairwise {
    Add,
    Mul,
}

/// One element of the result.
pub open spec fn pairwise<T: Scalar>(op: Pairwise, x: T, y: T) -> T {
    match op {
        Pairwise::Add => x.spec_plus(y),
        Pairwise::Mul => x.spec_times(y),
    }
}

/// The operation on two tensors, each repeated where its shape is smaller.
pub open spec fn pairwise_out<T: Scalar>(
    op: Pairwise,
    a: Seq<T>,
    a_shape: Seq<usize>,
    b: Seq<T>,
    b_shape: Seq<usize>,
) -> Seq<T> {
    let out = broadcast_shape(a_shape, b_shape);
    Seq::new(
        product(out),
        |i: int|
            pairwise(op, a[broadcast_index(a_shape, out, i)], b[broadcast_index(b_shape, out, i)]),
    )
}

/// The sizes can be counted, and no operand is empty where the result is not.
pub open spec fn broadcast_ok(a_shape: Seq<usize>, b_shape: Seq<usize>) -> bool {
    let out = broadcast_shape(a_shape, b_shape);
    &&& shape_fits(a_shape)
    &&& shape_fits(b_shape)
    &&& shape_fits(out)
    &&& product(out) > 0 ==> product(a_shape) > 0 && product(b_shape) > 0
}

pub proof fn lemma_broadcast_positions(a_shape: Seq<usize>, b_shape: Seq<usize>, i: int)
    requires
        broadcast_ok(a_shape, b_shape),
        0 <= i < product(broadcast_shape(a_shape, b_shape)),
    ensures
        all_positive(broadcast_shape(a_shape, b_shape)),
        0 <= broadcast_index(a_shape, broadcast_shape(a_shape, b_shape), i) < product(a_shape),
        0 <= broadcast_index(b_shape, broadcast_shape(a_shape, b_shape), i) < product(b_shape),
        product(a_shape) <= usize::MAX,
        product(b_shape) <= usize::MAX,
{
    let out = broadcast_shape(a_shape, b_shape);
    crate::tensor::lemma_product_positive(out);
    crate::tensor::lemma_product_positive(a_shape);
    crate::tensor::lemma_product_positive(b_shape);
    crate::tensor::lemma_product_end(a_shape);
    crate::tensor::lemma_product_end(b_shape);
    assert(product(a_shape.skip(0)) <= usize::MAX);
    assert(product(b_shape.skip(0)) <= usize::MAX);
    broadcast_index_in_range(a_shape, out, i);
    broadcast_index_in_range(b_shape, out, i);
}

/// Where in either operand the elements for position `i` of the result lie.
fn positions<T: Scalar>(
    i: usize,
    out: &Vec<usize>,
    a_strides: &Vec<usize>,
    b_strides: &Vec<usize>,
    Ghost(a_shape): Ghost<Seq<usize>>,
    Ghost(b_shape): Ghost<Seq<usize>>,
) -> (r: (usize, usize))
    requires
        broadcast_ok(a_shape, b_shape),
        out@ == broadcast_shape(a_shape, b_shape),
        a_strides@ == broadcast_strides(a_shape, strides_of(a_shape), out@),
        b_strides@ == broadcast_strides(b_shape, strides_of(b_shape), out@),
        i < product(out@),
    ensures
        r.0 == broadcast_index(a_shape, out@, i as int),
        r.1 == broadcast_index(b_shape, out@, i as int),
        r.0 < product(a_shape),
        r.1 < product(b_shape),
{
    proof {
        lemma_broadcast_positions(a_shape, b_shape, i as int);
    }
    let nd = Tensor::<T>::flat_to_nd(i, out.as_slice());
    let ia: usize = Tensor::<T>::nd_to_flat(nd.as_slice(), a_strides.as_slice());
    let ib: usize = Tensor::<T>::nd_to_flat(nd.as_slice(), b_strides.as_slice());
    (ia, ib)
}

/// Applies the operation.
pub fn pairwise_forward<T: Scalar>(
    op: Pairwise,
    a: &Vec<T>,
    a_shape: &Vec<usize>,
    b: &Vec<T>,
    b_shape: &Vec<usize>,
) -> (r: (Vec<usize>, Vec<T>))
    requires
        broadcast_ok(a_shape@, b_shape@),
        a@.len() == product(a_shape@),
        b@.len() == product(b_shape@),
    ensures
        r.0@ == broadcast_shape(a_shape@, b_shape@),
        r.1@ == pairwise_out(op, a@, a_shape@, b@, b_shape@),
{
    let out = Tensor::<T>::get_broadcasted_shape(a_shape.as_slice(), b_shape.as_slice());
    let n: usize = crate::tensor::element_count(out.as_slice());
    let a_strides = broadcast_strides_of::<T>(a_shape, &out);
    let b_strides = broadcast_strides_of::<T>(b_shape, &out);
    let mut r: Vec<T> = Vec::new();
    let ghost goal = pairwise_out(op, a@, a_shape@, b@, b_shape@);
    let mut i: usize = 0;
    while i < n
        invariant
            i <= n,
            n == product(out@),
            out@ == broadcast_shape(a_shape@, b_shape@),
            broadcast_ok(a_shape@, b_shape@),
            a@.len() == product(a_shape@),
            b@.len() == product(b_shape@),
            a_strides@ == broadcast_strides(a_shape@, strides_of(a_shape@), out@),
            b_strides@ == broadcast_strides(b_shape@, strides_of(b_shape@), out@),
            goal == pairwise_out(op, a@, a_shape@, b@, b_shape@),
            r@ == goal.take(i as int),
        decreases n - i,
    {
        let (ia, ib) = positions::<T>(
            i,
            &out,
            &a_strides,
            &b_strides,
            Ghost(a_shape@),
            Ghost(b_shape@),
        );
        let x: T = match op {
            Pairwise::Add => a[ia].plus(b[ib]),
            Pairwise::Mul => a[ia].times(b[ib]),
        };
        assert(goal.take(i + 1) == goal.take(i as int).push(x));
        r.push(x);
        i += 1;
    }
    assert(goal.take(n as int) == goal);
    (out, r)
}

fn broadcast_strides_of<T: Scalar>(shape: &Vec<usize>, out: &Vec<usize>) -> (r: Vec<usize>)
    requires
        shape_fits(shape@),
        shape@.len() <= out@.len(),
    ensures
        r@ == broadcast_strides(shape@, strides_of(shape@), out@),
{
    let strides = Tensor::<T>::compute_strides(shape.as_slice());
    Tensor::<T>::get_broadcasted_strides(shape.as_slice(), strides.as_slice(), out.as_slice())
}

/// `g` with `x` added to element `i`.
pub open spec fn add_at<T: Scalar>(g: Seq<T>, i: int, x: T) -> Seq<T> {
    g.update(i, g[i].spec_plus(x))
}

/// What position `i` of the result hands back to the element of either operand: the gradient
/// itself for a sum, the gradient times the other operand for a product.
pub open spec fn pairwise_grad<T: Scalar>(op: Pairwise, other: T, g: T) -> T {
    match op {
        Pairwise::Add => g,
        Pairwise::Mul => other.spec_times(g),
    }
}

/// The gradients of two operands after the first `n` positions of the result.
pub open spec fn pairwise_back<T: Scalar>(
    op: Pairwise,
    a: Seq<T>,
    a_shape: Seq<usize>,
    b: Seq<T>,
    b_shape: Seq<usize>,
    out_grad: Seq<T>,
    grads: (Seq<T>, Seq<T>),
    n: nat,
) -> (Seq<T>, Seq<T>)
    decreases n,
{
    if n == 0 {
        grads
    } else {
        let i = n - 1;
        let out = broadcast_shape(a_shape, b_shape);
        let ia = broadcast_index(a_shape, out, i);
        let ib = broadcast_index(b_shape, out, i);
        let g = pairwise_back(op, a, a_shape, b, b_shape, out_grad, grads, i as nat);
        (
            add_at(g.0, ia, pairwise_grad(op, b[ib], out_grad[i])),
            add_at(g.1, ib, pairwise_grad(op, a[ia], out_grad[i])),
        )
    }
}

/// The gradient of a tensor combined with itself, after the first `n` positions of the result.
pub open spec fn pairwise_back_self<T: Scalar>(
    op: Pairwise,
    a: Seq<T>,
    b: Seq<T>,
    shape: Seq<usize>,
    out_grad: Seq<T>,
    grad: Seq<T>,
    n: nat,
) -> Seq<T>
    decreases n,
{
    if n == 0 {
        grad
    } else {
        let i = n - 1;
        let ia = broadcast_index(shape, broadcast_shape(shape, shape), i);
        let g = pairwise_back_self(op, a, b, shape, out_grad, grad, i as nat);
        add_at(
            add_at(g, ia, pairwise_grad(op, b[ia], out_grad[i])),
            ia,
            pairwise_grad(op, a[ia], out_grad[i]),
        )
    }
}

fn grad_part<T: Scalar>(op: Pairwise, other: T, g: T) -> (r: T)
    ensures
        r == pairwise_grad(op, other, g),
{
    match op {
        Pairwise::Add => g,
        Pairwise::Mul => other.times(g),
    }
}

/// Adds to the gradients of two different operands what the gradient of the result hands back.
pub fn pairwise_backward<T: Scalar>(
    op: Pairwise,
    a: &Vec<T>,
    a_shape: &Vec<usize>,
    b: &Vec<T>,
    b_shape: &Vec<usize>,
    out_grad: &Vec<T>,
    a_grad: &mut Vec<T>,
    b_grad: &mut Vec<T>,
)
    requires
        broadcast_ok(a_shape@, b_shape@),
        a@.len() == product(a_shape@),
        b@.len() == product(b_shape@),
        old(a_grad)@.len() == product(a_shape@),
        old(b_grad)@.len() == product(b_shape@),
        out_grad@.len() == product(broadcast_shape(a_shape@, b_shape@)),
    ensures
        (final(a_grad)@, final(b_grad)@) == pairwise_back(
            op,
            a@,
            a_shape@,
            b@,
            b_shape@,
            out_grad@,
            (old(a_grad)@, old(b_grad)@),
            out_grad@.len(),
        ),
        final(a_grad)@.len() == old(a_grad)@.len(),
        final(b_grad)@.len() == old(b_grad)@.len(),
{
    let out = Tensor::<T>::get_broadcasted_shape(a_shape.as_slice(), b_shape.as_slice());
    let n: usize = out_grad.len();
    let a_strides = broadcast_strides_of::<T>(a_shape, &out);
    let b_strides = broadcast_strides_of::<T>(b_shape, &out);
    let mut i: usize = 0;
    while i < n
        invariant
            i <= n,
            n == product(out@),
            n == out_grad@.len(),
            out@ == broadcast_shape(a_shape@, b_shape@),
            broadcast_ok(a_shape@, b_shape@),
            a@.len() == product(a_shape@),
            b@.len() == product(b_shape@),
            a_grad@.len() == product(a_shape@),
            b_grad@.len() == product(b_shape@),
            a_strides@ == broadcast_strides(a_shape@, strides_of(a_shape@), out@),
            b_strides@ == broadcast_strides(b_shape@, strides_of(b_shape@), out@),
            (a_grad@, b_grad@) == pairwise_back(
                op,
                a@,
                a_shape@,
                b@,
                b_shape@,
                out_grad@,
                (old(a_grad)@, old(b_grad)@),
                i as nat,
            ),
        decreases n - i,
    {
        let (ia, ib) = positions::<T>(
            i,
            &out,
            &a_strides,
            &b_strides,
            Ghost(a_shape@),
            Ghost(b_shape@),
        );
        let g: T = out_grad[i];
        let xa: T = a_grad[ia].plus(grad_part(op, b[ib], g));
        a_grad.set(ia, xa);
        let xb: T = b_grad[ib].plus(grad_part(op, a[ia], g));
        b_grad.set(ib, xb);
        i += 1;
    }
}

/// Adds to the gradient of a tensor that has been combined with itself.
pub fn pairwise_backward_self<T: Scalar>(
    op: Pairwise,
    a: &Vec<T>,
    b: &Vec<T>,
    shape: &Vec<usize>,
    out_grad: &Vec<T>,
    grad: &mut Vec<T>,
)
    requires
        broadcast_ok(shape@, shape@),
        a@.len() == product(shape@),
        b@.len() == product(shape@),
        old(grad)@.len() == product(shape@),
        out_grad@.len() == product(broadcast_shape(shape@, shape@)),
    ensures
        final(grad)@ == pairwise_back_self(
            op,
            a@,
            b@,
            shape@,
            out_grad@,
            old(grad)@,
            out_grad@.len(),
        ),
        final(grad)@.len() == old(grad)@.len(),
{
    let out = Tensor::<T>::get_broadcasted_shape(shape.as_slice(), shape.as_slice());
    let n: usize = out_grad.len();
    let strides = broadcast_strides_of::<T>(shape, &out);
    let mut i: usize = 0;
    while i < n
        invariant
            i <= n,
            n == product(out@),
            n == out_grad@.len(),
            out@ == broadcast_shape(shape@, shape@),
            broadcast_ok(shape@, shape@),
            a@.len() == product(shape@),
            b@.len() == product(shape@),
            grad@.len() == product(shape@),
            strides@ == broadcast_strides(shape@, strides_of(shape@), out@),
            grad@ == pairwise_back_self(op, a@, b@, shape@, out_grad@, old(grad)@, i as nat),
        decreases n - i,
    {
        let (ia, ib) = positions::<T>(i, &out, &strides, &strides, Ghost(shape@), Ghost(shape@));
        let once: T = grad[ia].plus(grad_part(op, b[ia], out_grad[i]));
        grad.set(ia, once);
        let twice: T = grad[ia].plus(grad_part(op, a[ia], out_grad[i]));
        grad.set(ia, twice);
        i += 1;
    }
}

/// One over one plus the exponential of `-x`.
pub open spec fn sigmoid<T: Scalar>(x: T) -> T {
    T::spec_one().spec_over(T::spec_one().spec_plus(x.spec_negated().spec_exp()))
}

/// Every element times its sigmoid.
pub open spec fn silu_out<T: Scalar>(a: Seq<T>) -> Seq<T> {
    a.map_values(|x: T| x.spec_times(sigmoid(x)))
}

/// What the gradient `g` of the result hands back to `x`.
pub open spec fn silu_grad<T: Scalar>(x: T, g: T) -> T {
    let sig = sigmoid(x);
    let silu = x.spec_times(sig);
    g.spec_times(silu.spec_plus(sig.spec_times(T::spec_one().spec_minus(silu))))
}

/// The gradient after the result has handed its own back.
pub open spec fn silu_back<T: Scalar>(a: Seq<T>, out_grad: Seq<T>, grad: Seq<T>) -> Seq<T> {
    Seq::new(grad.len(), |i: int| grad[i].spec_plus(silu_grad(a[i], out_grad[i])))
}

fn sigmoid_of<T: Scalar>(x: T) -> (r: T)
    ensures
        r == sigmoid(x),
{
    T::one().over(T::one().plus(x.negated().exp()))
}

/// Applies SiLU.
pub fn silu_forward<T: Scalar>(a: &Vec<T>) -> (r: Vec<T>)
    ensures
        r@ == silu_out(a@),
{
    let mut r: Vec<T> = Vec::new();
    let ghost goal = silu_out(a@);
    let mut i: usize = 0;
    while i < a.len()
        invariant
            i <= a@.len(),
            goal == silu_out(a@),
            r@ == goal.take(i as int),
        decreases a@.len() - i,
    {
        let x: T = a[i];
        let y: T = x.times(sigmoid_of(x));
        assert(goal.take(i + 1) == goal.take(i as int).push(y));
        r.push(y);
        i += 1;
    }
    assert(goal.take(a@.len() as int) == goal);
    r
}

/// Adds to the gradient of the operand of SiLU.
pub fn silu_backward<T: Scalar>(a: &Vec<T>, out_grad: &Vec<T>, grad: &mut Vec<T>)
    requires
        old(grad)@.len() == a@.len(),
        old(grad)@.len() == out_grad@.len(),
    ensures
        final(grad)@ == silu_back(a@, out_grad@, old(grad)@),
{
    let n: usize = grad.len();
    let ghost goal = silu_back(a@, out_grad@, grad@);
    let mut i: usize = 0;
    while i < n
        invariant
            i <= n,
            n == a@.len(),
            n == out_grad@.len(),
            n == grad@.len(),
            n == old(grad)@.len(),
            goal == silu_back(a@, out_grad@, old(grad)@),
            forall|x: int| 0 <= x < i ==> #[trigger] grad@[x] == goal[x],
            forall|x: int| i <= x < n ==> #[trigger] grad@[x] == old(grad)@[x],
        decreases n - i,
    {
        let x: T = a[i];
        let sig: T = sigmoid_of(x);
        let silu: T = x.times(sig);
        let d: T = out_grad[i].times(silu.plus(sig.times(T::one().minus(silu))));
        let y: T = grad[i].plus(d);
        grad.set(i, y);
        i += 1;
    }
    assert(grad@ =~= goal);
}

} // verus!
