//! Sums, maxima, softmax and cross entropy on the host.
use crate::data::fim::IGNORE_INDEX;
use crate::graph::index::{lemma_cell, lemma_uncell};
use crate::graph::ops::elementwise::add_at;
use crate::scalar::Scalar;
use crate::tensor::{
    all_positive, filled, product, ravel, ravel_in_range, shape_fits, strides_of, unravel, Tensor,
};
use vstd::prelude::*;

verus! {

/// Where element `i` of a tensor goes when dimension `dim` is taken out of its shape.
pub open spec fn reduced_index(shape: Seq<usize>, dim: int, i: int) -> int {
    ravel(unravel(i, shape).remove(dim), strides_of(shape.remove(dim))) as int
}

pub proof fn lemma_reduced_index(shape: Seq<usize>, dim: int, i: int)
    requires
        0 <= dim < shape.len(),
        shape_fits(shape.remove(dim)),
        all_positive(shape),
    ensures
        0 <= reduced_index(shape, dim, i) < product(shape.remove(dim)),
        product(shape.remove(dim)) <= usize::MAX,
{
    let out = shape.remove(dim);
    let nd = unravel(i, shape).remove(dim);
    assert forall|j: int| 0 <= j < nd.len() implies #[trigger] nd[j] < out[j] by {
        if j < dim {
            crate::tensor::lemma_unravel_in_range(i, shape, j);
        } else {
            crate::tensor::lemma_unravel_in_range(i, shape, j + 1);
        }
    }
    ravel_in_range(nd, out);
    crate::tensor::lemma_product_end(out);
    assert(product(out.skip(0)) <= usize::MAX);
}

fn reduce_at<T: Scalar>(
    i: usize,
    shape: &Vec<usize>,
    dim: usize,
    out_shape: &Vec<usize>,
    out_strides: &Vec<usize>,
) -> (r: usize)
    requires
        dim < shape@.len(),
        out_shape@ == shape@.remove(dim as int),
        out_strides@ == strides_of(out_shape@),
        shape_fits(out_shape@),
        all_positive(shape@),
    ensures
        r == reduced_index(shape@, dim as int, i as int),
        r < product(out_shape@),
{
    let mut nd = Tensor::<T>::flat_to_nd(i, shape.as_slice());
    nd.remove(dim);
    proof {
        lemma_reduced_index(shape@, dim as int, i as int);
    }
    Tensor::<T>::nd_to_flat(nd.as_slice(), out_strides.as_slice())
}

/// A shape without dimension `dim`.
pub fn shape_without(shape: &Vec<usize>, dim: usize) -> (r: Vec<usize>)
    requires
        dim < shape@.len(),
    ensures
        r@ == shape@.remove(dim as int),
{
    let mut out = shape.clone();
    out.remove(dim);
    assert(out@ =~= shape@.remove(dim as int));
    out
}

/// The sums after the first `n` elements.
pub open spec fn sum_to<T: Scalar>(a: Seq<T>, shape: Seq<usize>, dim: int, n: nat) -> Seq<T>
    decreases n,
{
    if n == 0 {
        Seq::new(product(shape.remove(dim)), |i: int| T::spec_zero())
    } else {
        add_at(
            sum_to(a, shape, dim, (n - 1) as nat),
            reduced_index(shape, dim, n - 1),
            a[n - 1],
        )
    }
}

/// The sizes of a reduction can be counted.
pub open spec fn reduce_ok(shape: Seq<usize>, dim: int) -> bool {
    &&& 0 <= dim < shape.len()
    &&& shape_fits(shape)
    &&& shape_fits(shape.remove(dim))
}

/// Sums over dimension `dim`.
pub fn sum_forward<T: Scalar>(a: &Vec<T>, shape: &Vec<usize>, dim: usize) -> (r: Vec<T>)
    requires
        reduce_ok(shape@, dim as int),
        a@.len() == product(shape@),
    ensures
        r@ == sum_to(a@, shape@, dim as int, a@.len()),
        r@.len() == product(shape@.remove(dim as int)),
{
    let out_shape = shape_without(shape, dim);
    let out_strides = Tensor::<T>::compute_strides(out_shape.as_slice());
    let size: usize = crate::tensor::element_count(out_shape.as_slice());
    let mut out: Vec<T> = filled(T::zero(), size);
    let mut i: usize = 0;
    while i < a.len()
        invariant
            i <= a@.len(),
            reduce_ok(shape@, dim as int),
            a@.len() == product(shape@),
            out_shape@ == shape@.remove(dim as int),
            out_strides@ == strides_of(out_shape@),
            out@.len() == product(out_shape@),
            out@ == sum_to(a@, shape@, dim as int, i as nat),
        decreases a@.len() - i,
    {
        proof {
            crate::tensor::lemma_product_positive(shape@);
        }
        let idx: usize = reduce_at::<T>(i, shape, dim, &out_shape, &out_strides);
        let x: T = out[idx].plus(a[i]);
        out.set(idx, x);
        i += 1;
    }
    out
}

/// The gradient of a summed tensor: every element gets the gradient of its sum.
pub open spec fn sum_back<T: Scalar>(
    shape: Seq<usize>,
    dim: int,
    out_grad: Seq<T>,
    grad: Seq<T>,
) -> Seq<T> {
    Seq::new(
        grad.len(),
        |i: int| grad[i].spec_plus(out_grad[reduced_index(shape, dim, i)]),
    )
}

/// Adds to the gradient of a summed tensor.
pub fn sum_backward<T: Scalar>(shape: &Vec<usize>, dim: usize, out_grad: &Vec<T>, grad: &mut Vec<T>)
    requires
        reduce_ok(shape@, dim as int),
        old(grad)@.len() == product(shape@),
        out_grad@.len() == product(shape@.remove(dim as int)),
    ensures
        final(grad)@ == sum_back(shape@, dim as int, out_grad@, old(grad)@),
{
    let out_shape = shape_without(shape, dim);
    let out_strides = Tensor::<T>::compute_strides(out_shape.as_slice());
    let n: usize = grad.len();
    let ghost goal = sum_back(shape@, dim as int, out_grad@, grad@);
    let mut i: usize = 0;
    while i < n
        invariant
            i <= n,
            n == product(shape@),
            n == grad@.len(),
            n == old(grad)@.len(),
            reduce_ok(shape@, dim as int),
            out_shape@ == shape@.remove(dim as int),
            out_strides@ == strides_of(out_shape@),
            out_grad@.len() == product(out_shape@),
            goal == sum_back(shape@, dim as int, out_grad@, old(grad)@),
            forall|x: int| 0 <= x < i ==> #[trigger] grad@[x] == goal[x],
            forall|x: int| i <= x < n ==> #[trigger] grad@[x] == old(grad)@[x],
        decreases n - i,
    {
        proof {
            crate::tensor::lemma_product_positive(shape@);
        }
        let idx: usize = reduce_at::<T>(i, shape, dim, &out_shape, &out_strides);
        let x: T = grad[i].plus(out_grad[idx]);
        grad.set(i, x);
        i += 1;
    }
    assert(grad@ =~= goal);
}

/// The maxima after the first `n` elements, each with the position of the first element that has
/// it.
pub open spec fn max_to<T: Scalar>(a: Seq<T>, shape: Seq<usize>, dim: int, n: nat) -> (
    Seq<T>,
    Seq<usize>,
)
    decreases n,
{
    if n == 0 {
        let size = product(shape.remove(dim));
        (Seq::new(size, |i: int| T::spec_lowest()), Seq::new(size, |i: int| 0usize))
    } else {
        let m = max_to(a, shape, dim, (n - 1) as nat);
        let j = reduced_index(shape, dim, n - 1);
        if a[n - 1].spec_above(m.0[j]) {
            (m.0.update(j, a[n - 1]), m.1.update(j, (n - 1) as usize))
        } else {
            m
        }
    }
}

/// Maxima over dimension `dim`.
pub fn max_forward<T: Scalar>(a: &Vec<T>, shape: &Vec<usize>, dim: usize) -> (r: (
    Vec<T>,
    Vec<usize>,
))
    requires
        reduce_ok(shape@, dim as int),
        a@.len() == product(shape@),
    ensures
        (r.0@, r.1@) == max_to(a@, shape@, dim as int, a@.len()),
        r.0@.len() == product(shape@.remove(dim as int)),
        r.1@.len() == r.0@.len(),
        forall|j: int| 0 <= j < r.1@.len() ==> #[trigger] r.1@[j] < a@.len() || a@.len() == 0,
{
    let out_shape = shape_without(shape, dim);
    let out_strides = Tensor::<T>::compute_strides(out_shape.as_slice());
    let size: usize = crate::tensor::element_count(out_shape.as_slice());
    let mut out: Vec<T> = filled(T::lowest(), size);
    let mut at: Vec<usize> = Vec::new();
    let mut k: usize = 0;
    while k < size
        invariant
            k <= size,
            at@ == Seq::new(k as nat, |i: int| 0usize),
        decreases size - k,
    {
        at.push(0);
        k += 1;
        assert(at@ =~= Seq::new(k as nat, |i: int| 0usize));
    }
    let mut i: usize = 0;
    while i < a.len()
        invariant
            i <= a@.len(),
            reduce_ok(shape@, dim as int),
            a@.len() == product(shape@),
            out_shape@ == shape@.remove(dim as int),
            out_strides@ == strides_of(out_shape@),
            out@.len() == product(out_shape@),
            at@.len() == out@.len(),
            (out@, at@) == max_to(a@, shape@, dim as int, i as nat),
            forall|j: int| 0 <= j < at@.len() ==> #[trigger] at@[j] < a@.len() || a@.len() == 0,
        decreases a@.len() - i,
    {
        proof {
            crate::tensor::lemma_product_positive(shape@);
        }
        let idx: usize = reduce_at::<T>(i, shape, dim, &out_shape, &out_strides);
        let x: T = a[i];
        if x.above(out[idx]) {
            out.set(idx, x);
            at.set(idx, i);
        }
        i += 1;
    }
    (out, at)
}

/// The gradient after the first `n` maxima have handed theirs to the elements at `at`.
pub open spec fn scatter_to<T: Scalar>(
    at: Seq<usize>,
    out_grad: Seq<T>,
    grad: Seq<T>,
    n: nat,
) -> Seq<
    T,
>
    decreases n,
{
    if n == 0 {
        grad
    } else {
        add_at(
            scatter_to(at, out_grad, grad, (n - 1) as nat),
            at[n - 1] as int,
            out_grad[n - 1],
        )
    }
}

/// Adds every `out_grad[i]` to the element `at[i]` of the gradient.
pub fn max_backward<T: Scalar>(at: &Vec<usize>, out_grad: &Vec<T>, grad: &mut Vec<T>)
    requires
        at@.len() == out_grad@.len(),
        forall|j: int| 0 <= j < at@.len() ==> #[trigger] at@[j] < old(grad)@.len(),
    ensures
        final(grad)@ == scatter_to(at@, out_grad@, old(grad)@, out_grad@.len()),
        final(grad)@.len() == old(grad)@.len(),
{
    let mut i: usize = 0;
    while i < out_grad.len()
        invariant
            i <= out_grad@.len(),
            at@.len() == out_grad@.len(),
            grad@.len() == old(grad)@.len(),
            forall|j: int| 0 <= j < at@.len() ==> #[trigger] at@[j] < grad@.len(),
            grad@ == scatter_to(at@, out_grad@, old(grad)@, i as nat),
        decreases out_grad@.len() - i,
    {
        let j: usize = at[i];
        let x: T = grad[j].plus(out_grad[i]);
        grad.set(j, x);
        i += 1;
    }
}

/// The largest of the first `n` numbers.
pub open spec fn largest<T: Scalar>(s: Seq<T>, n: nat) -> T
    decreases n,
{
    if n == 0 {
        T::spec_lowest()
    } else {
        largest(s, (n - 1) as nat).spec_larger(s[n - 1])
    }
}

/// The sum of the first `n` numbers.
pub open spec fn total<T: Scalar>(s: Seq<T>, n: nat) -> T
    decreases n,
{
    if n == 0 {
        T::spec_zero()
    } else {
        total(s, (n - 1) as nat).spec_plus(s[n - 1])
    }
}

/// The exponentials of the distances to the largest number.
pub open spec fn exps<T: Scalar>(s: Seq<T>) -> Seq<T> {
    Seq::new(s.len(), |j: int| s[j].spec_minus(largest(s, s.len())).spec_exp())
}

/// The softmax of a row.
pub open spec fn softmax_row<T: Scalar>(s: Seq<T>) -> Seq<T> {
    Seq::new(s.len(), |j: int| exps(s)[j].spec_over(total(exps(s), s.len())))
}

/// Row `r` of `n` elements.
pub open spec fn row_of<T>(a: Seq<T>, n: int, r: int) -> Seq<T> {
    Seq::new(n as nat, |j: int| a[r * n + j])
}

/// Computes the softmax of a row.
pub fn softmax_of<T: Scalar>(s: &Vec<T>) -> (r: Vec<T>)
    ensures
        r@ == softmax_row(s@),
{
    let mut max: T = T::lowest();
    let mut j: usize = 0;
    while j < s.len()
        invariant
            j <= s@.len(),
            max == largest(s@, j as nat),
        decreases s@.len() - j,
    {
        max = max.larger(s[j]);
        j += 1;
    }
    let ghost e = exps(s@);
    let mut parts: Vec<T> = Vec::new();
    let mut sum: T = T::zero();
    j = 0;
    while j < s.len()
        invariant
            j <= s@.len(),
            max == largest(s@, s@.len()),
            e == exps(s@),
            parts@ == e.take(j as int),
            sum == total(e, j as nat),
        decreases s@.len() - j,
    {
        let x: T = s[j].minus(max).exp();
        assert(e.take(j + 1) == e.take(j as int).push(x));
        parts.push(x);
        sum = sum.plus(x);
        j += 1;
    }
    assert(parts@ == e);
    let ghost goal = softmax_row(s@);
    let mut out: Vec<T> = Vec::new();
    j = 0;
    while j < s.len()
        invariant
            j <= s@.len(),
            e == exps(s@),
            parts@ == e,
            sum == total(e, s@.len()),
            goal == softmax_row(s@),
            out@ == goal.take(j as int),
        decreases s@.len() - j,
    {
        let x: T = parts[j].over(sum);
        assert(goal.take(j + 1) == goal.take(j as int).push(x));
        out.push(x);
        j += 1;
    }
    assert(goal.take(s@.len() as int) == goal);
    out
}

/// Copies row `r`.
pub fn row_copy<T: Scalar>(a: &Vec<T>, n: usize, r: usize, Ghost(b): Ghost<int>) -> (row: Vec<T>)
    requires
        0 <= r < b,
        b * n <= a@.len(),
    ensures
        row@ == row_of(a@, n as int, r as int),
{
    let mut row: Vec<T> = Vec::new();
    let ghost goal = row_of(a@, n as int, r as int);
    let mut j: usize = 0;
    while j < n
        invariant
            j <= n,
            0 <= r < b,
            b * n <= a@.len(),
            goal == row_of(a@, n as int, r as int),
            row@ == goal.take(j as int),
        decreases n - j,
    {
        proof {
            lemma_cell(r as int, b, j as int, n as int);
            assert(a@.len() == a.len());
        }
        let x: T = a[r * n + j];
        assert(goal.take(j + 1) == goal.take(j as int).push(x));
        row.push(x);
        j += 1;
    }
    assert(goal.take(n as int) == goal);
    row
}

/// The softmax of every row.
pub open spec fn softmax_out<T: Scalar>(a: Seq<T>, b: int, n: int) -> Seq<T> {
    Seq::new((b * n) as nat, |o: int| softmax_row(row_of(a, n, o / n))[o % n])
}

/// Computes the softmax of `b` rows of `n` elements.
pub fn softmax_forward<T: Scalar>(a: &Vec<T>, b: usize, n: usize) -> (out: Vec<T>)
    requires
        a@.len() == b * n,
    ensures
        out@ == softmax_out(a@, b as int, n as int),
{
    let ghost goal = softmax_out(a@, b as int, n as int);
    let mut out: Vec<T> = Vec::new();
    let mut r: usize = 0;
    while r < b
        invariant
            r <= b,
            a@.len() == b * n,
            goal == softmax_out(a@, b as int, n as int),
            r * n <= b * n,
            out@ == goal.take(r * n),
        decreases b - r,
    {
        let row = row_copy(a, n, r, Ghost(b as int));
        let p = softmax_of(&row);
        let ghost before = out@;
        let mut j: usize = 0;
        while j < n
            invariant
                j <= n,
                r < b,
                p@.len() == n,
                before.len() == r * n,
                out@ == before + p@.take(j as int),
            decreases n - j,
        {
            assert(p@.take(j + 1) == p@.take(j as int).push(p@[j as int]));
            out.push(p[j]);
            assert(out@ =~= before + p@.take(j + 1));
            j += 1;
        }
        proof {
            assert((r + 1) * n == r * n + n && (r + 1) * n <= b * n) by (nonlinear_arith)
                requires
                    r < b,
                    n >= 0,
            ;
            assert(goal.len() == b * n);
            assert(p@.take(n as int) =~= p@);
            assert(before.len() == r * n);
            assert forall|x: int| 0 <= x < out@.len() implies out@[x] == goal.take((r + 1) * n)[x] by {
                if x < r * n {
                    assert(out@[x] == before[x]);
                    assert(before[x] == goal.take(r * n)[x]);
                } else {
                    lemma_cell(r as int, b as int, x - r * n, n as int);
                    assert(goal[x]
                        == softmax_row(row_of(a@, n as int, x / n as int))[x % n as int]);
                }
            }
            assert(out@ =~= goal.take((r + 1) * n));
        }
        r += 1;
    }
    assert(goal.take(b * n) =~= goal);
    out
}

/// The products of two rows summed.
pub open spec fn row_dot<T: Scalar>(x: Seq<T>, y: Seq<T>, off: int, n: nat) -> T
    decreases n,
{
    if n == 0 {
        T::spec_zero()
    } else {
        row_dot(x, y, off, (n - 1) as nat).spec_plus(x[off + n - 1].spec_times(y[off + n - 1]))
    }
}

/// The gradient of the operand of softmax.
pub open spec fn softmax_back<T: Scalar>(
    out: Seq<T>,
    out_grad: Seq<T>,
    grad: Seq<T>,
    n: int,
) -> Seq<T> {
    Seq::new(
        grad.len(),
        |o: int|
            grad[o].spec_plus(
                out[o].spec_times(
                    out_grad[o].spec_minus(row_dot(out_grad, out, (o / n) * n, n as nat)),
                ),
            ),
    )
}

/// Adds to the gradient of the operand of softmax.
pub fn softmax_backward<T: Scalar>(
    out: &Vec<T>,
    out_grad: &Vec<T>,
    grad: &mut Vec<T>,
    b: usize,
    n: usize,
)
    requires
        out@.len() == b * n,
        out_grad@.len() == b * n,
        old(grad)@.len() == b * n,
    ensures
        final(grad)@ == softmax_back(out@, out_grad@, old(grad)@, n as int),
{
    let ghost goal = softmax_back(out@, out_grad@, grad@, n as int);
    let mut r: usize = 0;
    while r < b
        invariant
            r <= b,
            r * n <= b * n,
            out@.len() == b * n,
            out_grad@.len() == b * n,
            grad@.len() == b * n,
            old(grad)@.len() == b * n,
            goal == softmax_back(out@, out_grad@, old(grad)@, n as int),
            forall|x: int| 0 <= x < r * n ==> #[trigger] grad@[x] == goal[x],
            forall|x: int| r * n <= x < b * n ==> #[trigger] grad@[x] == old(grad)@[x],
        decreases b - r,
    {
        proof {
            assert((r + 1) * n == r * n + n && (r + 1) * n <= b * n && 0 <= r * n) by (nonlinear_arith)
                requires
                    r < b,
                    n >= 0,
            ;
            assert(out@.len() == out.len());
        }
        let off: usize = r * n;
        let mut dot: T = T::zero();
        let mut j: usize = 0;
        while j < n
            invariant
                j <= n,
                off == r * n,
                off + n <= b * n,
                out@.len() == b * n,
                out_grad@.len() == b * n,
                dot == row_dot(out_grad@, out@, off as int, j as nat),
            decreases n - j,
        {
            assert(out@.len() == out.len());
            dot = dot.plus(out_grad[off + j].times(out[off + j]));
            j += 1;
        }
        j = 0;
        while j < n
            invariant
                j <= n,
                r < b,
                off == r * n,
                off + n <= b * n,
                (r + 1) * n == off + n,
                out@.len() == b * n,
                out_grad@.len() == b * n,
                grad@.len() == b * n,
                old(grad)@.len() == b * n,
                dot == row_dot(out_grad@, out@, off as int, n as nat),
                goal == softmax_back(out@, out_grad@, old(grad)@, n as int),
                forall|x: int| 0 <= x < off + j ==> #[trigger] grad@[x] == goal[x],
                forall|x: int| off + j <= x < b * n ==> #[trigger] grad@[x] == old(grad)@[x],
            decreases n - j,
        {
            proof {
                assert(out@.len() == out.len());
                lemma_cell(r as int, b as int, j as int, n as int);
            }
            let x: T = grad[off + j].plus(out[off + j].times(out_grad[off + j].minus(dot)));
            grad.set(off + j, x);
            j += 1;
        }
        r += 1;
    }
    assert(grad@ =~= goal);
}

/// The probabilities of `c` classes after the first `rows` rows; those of a row whose target is to
/// be ignored stay zero.
pub open spec fn class_probs<T: Scalar>(
    logits: Seq<T>,
    targets: Seq<usize>,
    b: int,
    c: int,
    rows: int,
) -> Seq<T> {
    Seq::new(
        (b * c) as nat,
        |o: int|
            if o / c < rows && targets[o / c] != IGNORE_INDEX {
                softmax_row(row_of(logits, c, o / c))[o % c]
            } else {
                T::spec_zero()
            },
    )
}

/// The negated logarithm of the probability that row `r` gives to its target.
pub open spec fn row_loss<T: Scalar>(
    logits: Seq<T>,
    targets: Seq<usize>,
    b: int,
    c: int,
    r: int,
) -> T {
    class_probs(logits, targets, b, c, r + 1)[r * c + targets[r]].spec_plus(
        T::spec_decimal(1, 8),
    ).spec_ln().spec_negated()
}

/// The losses of the first `rows` rows that count, each times `weight` where there is one.
pub open spec fn loss_sum<T: Scalar>(
    logits: Seq<T>,
    targets: Seq<usize>,
    b: int,
    c: int,
    weight: Option<T>,
    rows: nat,
) -> T
    decreases rows,
{
    if rows == 0 {
        T::spec_zero()
    } else {
        let before = loss_sum(logits, targets, b, c, weight, (rows - 1) as nat);
        if targets[rows - 1] == IGNORE_INDEX {
            before
        } else {
            let l = row_loss(logits, targets, b, c, rows - 1);
            match weight {
                Some(w) => before.spec_plus(l.spec_times(w)),
                None => before.spec_plus(l),
            }
        }
    }
}

/// The targets name elements of their rows.
pub open spec fn targets_ok(targets: Seq<usize>, b: int, c: int) -> bool {
    &&& targets.len() >= b
    &&& forall|r: int|
        0 <= r < b ==> #[trigger] targets[r] == IGNORE_INDEX || r * c + targets[r] < b * c
}

/// Computes the probabilities and the sum of the losses.
pub fn cross_entropy_forward<T: Scalar>(
    logits: &Vec<T>,
    targets: &[usize],
    b: usize,
    c: usize,
    weight: Option<T>,
) -> (r: (T, Vec<T>))
    requires
        b * c <= logits@.len(),
        targets_ok(targets@, b as int, c as int),
    ensures
        r.0 == loss_sum(logits@, targets@, b as int, c as int, weight, b as nat),
        r.1@ == class_probs(logits@, targets@, b as int, c as int, b as int),
{
    assert(logits@.len() == logits.len());
    let mut probs: Vec<T> = filled(T::zero(), b * c);
    let mut loss: T = T::zero();
    let mut r: usize = 0;
    proof {
        assert forall|o: int| 0 <= o < b * c implies !(#[trigger] (o / c as int) < 0) by {
            lemma_uncell(o, b as int, c as int);
        }
        assert(probs@ =~= class_probs(logits@, targets@, b as int, c as int, 0));
    }
    while r < b
        invariant
            r <= b,
            b * c <= logits@.len(),
            targets_ok(targets@, b as int, c as int),
            probs@ == class_probs(logits@, targets@, b as int, c as int, r as int),
            loss == loss_sum(logits@, targets@, b as int, c as int, weight, r as nat),
        decreases b - r,
    {
        let t: usize = targets[r];
        let ghost before = probs@;
        let ghost after = class_probs(logits@, targets@, b as int, c as int, r + 1);
        if t != IGNORE_INDEX {
            let row = row_copy(logits, c, r, Ghost(b as int));
            let p = softmax_of(&row);
            proof {
                assert((r + 1) * c == r * c + c && (r + 1) * c <= b * c && 0 <= r * c) by (nonlinear_arith)
                    requires
                        r < b,
                        c >= 0,
                ;
                assert(probs@.len() == probs.len());
            }
            let off: usize = r * c;
            let mut j: usize = 0;
            while j < c
                invariant
                    j <= c,
                    r < b,
                    off == r * c,
                    off + c <= b * c,
                    probs@.len() == b * c,
                    p@ == softmax_row(row_of(logits@, c as int, r as int)),
                    before.len() == b * c,
                    forall|x: int| 0 <= x < off ==> #[trigger] probs@[x] == before[x],
                    forall|x: int| off <= x < off + j ==> #[trigger] probs@[x] == p@[x - off],
                    forall|x: int| off + j <= x < b * c ==> #[trigger] probs@[x] == before[x],
                decreases c - j,
            {
                assert(probs@.len() == probs.len());
                probs.set(off + j, p[j]);
                j += 1;
            }
            proof {
                assert forall|x: int| 0 <= x < b * c implies probs@[x] == after[x] by {
                    lemma_uncell(x, b as int, c as int);
                    if off <= x < off + c {
                        lemma_cell(r as int, b as int, x - off, c as int);
                    } else if x / c as int == r {
                        assert(x == r * c + x % c as int);
                        assert(false);
                    }
                    if x / (c as int) < r {
                        assert(before[x]
                            == class_probs(logits@, targets@, b as int, c as int, r as int)[x]);
                    }
                }
                assert(probs@ =~= after);
                assert(targets@[r as int] == t);
                assert(off + t < b * c);
                assert(probs@.len() == probs.len());
            }
            let l: T = probs[off + t].plus(T::decimal(1, 8)).ln().negated();
            loss = match weight {
                Some(w) => loss.plus(l.times(w)),
                None => loss.plus(l),
            };
        } else {
            proof {
                assert forall|x: int| 0 <= x < b * c implies before[x] == after[x] by {
                    lemma_uncell(x, b as int, c as int);
                }
                assert(probs@ =~= after);
            }
        }
        r += 1;
    }
    (loss, probs)
}

/// The gradient that the loss hands to the probability of class `o % c` of row `o / c`: one is
/// taken off that of the target, and `weighted` brings in the weight of the row.
pub open spec fn class_grad<T: Scalar>(
    probs: Seq<T>,
    targets: Seq<usize>,
    c: int,
    weight: RowWeight<T>,
    o: int,
) -> T {
    let g = if o % c == targets[o / c] {
        probs[o].spec_minus(T::spec_one())
    } else {
        probs[o]
    };
    match weight {
        RowWeight::Divide(n) => g.spec_over(n),
        RowWeight::Multiply(w) => g.spec_times(w),
    }
}

/// How a row of the batch enters the loss.
pub enum RowWeight<T> {
    /// As one part of so many.
    Divide(T),
    /// With a weight of its own.
    Multiply(T),
}

impl<T: Copy> Clone for RowWeight<T> {
    fn clone(&self) -> (r: Self)
        ensures
            r == *self,
    {
        *self
    }
}

impl<T: Copy> Copy for RowWeight<T> {

}

/// The gradient of the logits.
pub open spec fn cross_entropy_back<T: Scalar>(
    probs: Seq<T>,
    targets: Seq<usize>,
    c: int,
    weight: RowWeight<T>,
    og: T,
    grad: Seq<T>,
) -> Seq<T> {
    Seq::new(
        grad.len(),
        |o: int|
            if o >= probs.len() || targets[o / c] == IGNORE_INDEX {
                grad[o]
            } else {
                grad[o].spec_plus(class_grad(probs, targets, c, weight, o).spec_times(og))
            },
    )
}

/// Adds to the gradient of the logits.
pub fn cross_entropy_backward<T: Scalar>(
    probs: &Vec<T>,
    targets: &Vec<usize>,
    b: usize,
    c: usize,
    weight: RowWeight<T>,
    og: T,
    grad: &mut Vec<T>,
)
    requires
        probs@.len() == b * c,
        old(grad)@.len() >= b * c,
        targets@.len() >= b,
    ensures
        final(grad)@ == cross_entropy_back(probs@, targets@, c as int, weight, og, old(grad)@),
{
    let n: usize = probs.len();
    let ghost goal = cross_entropy_back(probs@, targets@, c as int, weight, og, grad@);
    let mut o: usize = 0;
    while o < n
        invariant
            o <= n,
            n == b * c,
            probs@.len() == n,
            grad@.len() >= n,
            old(grad)@.len() == grad@.len(),
            targets@.len() >= b,
            goal == cross_entropy_back(probs@, targets@, c as int, weight, og, old(grad)@),
            forall|x: int| 0 <= x < o ==> #[trigger] grad@[x] == goal[x],
            forall|x: int| o <= x < grad@.len() ==> #[trigger] grad@[x] == old(grad)@[x],
        decreases n - o,
    {
        proof {
            lemma_uncell(o as int, b as int, c as int);
        }
        let t: usize = targets[o / c];
        if t != IGNORE_INDEX {
            let g: T = if o % c == t {
                probs[o].minus(T::one())
            } else {
                probs[o]
            };
            let w: T = match weight {
                RowWeight::Divide(d) => g.over(d),
                RowWeight::Multiply(f) => g.times(f),
            };
            let x: T = grad[o].plus(w.times(og));
            grad.set(o, x);
        }
        o += 1;
    }
    assert(grad@ =~= goal);
}

} // verus!
