//! Normalisation by the root mean square on the host.
use crate::graph::index::lemma_cell;
use crate::graph::ops::elementwise::add_at;
use crate::scalar::Scalar;
use vstd::prelude::*;

verus! {

/// The squares of the first `n` elements from `off` on, summed.
pub open spec fn sum_of_squares<T: Scalar>(x: Seq<T>, off: int, n: nat) -> T
    decreases n,
{
    if n == 0 {
        T::spec_zero()
    } else {
        sum_of_squares(x, off, (n - 1) as nat).spec_plus(
            x[off + n - 1].spec_times(x[off + n - 1]),
        )
    }
}

/// One over the root of the mean square of row `r`, with `eps` added to the mean.
pub open spec fn row_rrms<T: Scalar>(x: Seq<T>, dim: int, eps: T, r: int) -> T {
    T::spec_one().spec_over(
        sum_of_squares(x, r * dim, dim as nat).spec_over(
            T::spec_from_count(dim as usize),
        ).spec_plus(eps).spec_sqrt(),
    )
}

/// These for `n` rows.
pub open spec fn all_rrms<T: Scalar>(x: Seq<T>, dim: int, eps: T, n: int) -> Seq<T> {
    Seq::new(n as nat, |r: int| row_rrms(x, dim, eps, r))
}

/// Every element over the root mean square of its row, times the weight of its column.
pub open spec fn rms_out<T: Scalar>(x: Seq<T>, w: Seq<T>, dim: int, rrms: Seq<T>) -> Seq<T> {
    Seq::new(x.len(), |o: int| x[o].spec_times(rrms[o / dim]).spec_times(w[o % dim]))
}

/// Normalises `n` rows of `dim` elements.
pub fn rms_forward<T: Scalar>(x: &Vec<T>, w: &Vec<T>, n: usize, dim: usize, eps: T) -> (r: (
    Vec<T>,
    Vec<T>,
))
    requires
        x@.len() == n * dim,
        n > 0 ==> w@.len() >= dim,
    ensures
        r.1@ == all_rrms(x@, dim as int, eps, n as int),
        r.0@ == rms_out(x@, w@, dim as int, r.1@),
{
    let mut rrms: Vec<T> = Vec::new();
    let ghost all = all_rrms(x@, dim as int, eps, n as int);
    let ghost goal = rms_out(x@, w@, dim as int, all);
    let mut out: Vec<T> = Vec::new();
    let mut k: usize = 0;
    while k < n
        invariant
            k <= n,
            x@.len() == n * dim,
            n > 0 ==> w@.len() >= dim,
            all == all_rrms(x@, dim as int, eps, n as int),
            goal == rms_out(x@, w@, dim as int, all),
            rrms@ == all.take(k as int),
            0 <= k * dim <= n * dim,
            out@ == goal.take(k * dim),
        decreases n - k,
    {
        proof {
            assert((k + 1) * dim == k * dim + dim && (k + 1) * dim <= n * dim && 0 <= k * dim)
                by (nonlinear_arith)
                requires
                    k < n,
                    dim >= 0,
            ;
            assert(x@.len() == x.len());
        }
        let off: usize = k * dim;
        let mut ss: T = T::zero();
        let mut d: usize = 0;
        while d < dim
            invariant
                d <= dim,
                off + dim <= x@.len(),
                ss == sum_of_squares(x@, off as int, d as nat),
            decreases dim - d,
        {
            assert(x@.len() == x.len());
            ss = ss.plus(x[off + d].times(x[off + d]));
            d += 1;
        }
        let s: T = T::one().over(ss.over(T::from_count(dim)).plus(eps).sqrt());
        assert(all.take(k + 1) == all.take(k as int).push(s));
        rrms.push(s);
        d = 0;
        while d < dim
            invariant
                d <= dim,
                k < n,
                off == k * dim,
                off + dim <= x@.len(),
                x@.len() == n * dim,
                w@.len() >= dim,
                s == all[k as int],
                all == all_rrms(x@, dim as int, eps, n as int),
                goal == rms_out(x@, w@, dim as int, all),
                out@ == goal.take(off + d),
            decreases dim - d,
        {
            proof {
                assert(x@.len() == x.len());
                lemma_cell(k as int, n as int, d as int, dim as int);
            }
            let y: T = x[off + d].times(s).times(w[d]);
            assert(goal[off + d] == y);
            assert(goal.take(off + d + 1) == goal.take(off + d).push(y));
            out.push(y);
            d += 1;
        }
        k += 1;
    }
    assert(all.take(n as int) == all);
    assert(goal.take(n * dim) == goal);
    (out, rrms)
}

/// The gradient, the element and the weight multiplied and summed over the first `n` columns.
pub open spec fn rms_dot<T: Scalar>(og: Seq<T>, x: Seq<T>, w: Seq<T>, off: int, n: nat) -> T
    decreases n,
{
    if n == 0 {
        T::spec_zero()
    } else {
        rms_dot(og, x, w, off, (n - 1) as nat).spec_plus(
            og[off + n - 1].spec_times(x[off + n - 1]).spec_times(w[n - 1]),
        )
    }
}

/// What row `r` and column `c` of the result hand back to the element there.
pub open spec fn rms_dx<T: Scalar>(
    og: Seq<T>,
    x: Seq<T>,
    w: Seq<T>,
    rrms: Seq<T>,
    dim: int,
    r: int,
    c: int,
) -> T {
    let s = rrms[r];
    let cube = s.spec_power(3).spec_over(T::spec_from_count(dim as usize));
    let o = r * dim + c;
    s.spec_times(og[o].spec_times(w[c])).spec_minus(
        x[o].spec_times(cube).spec_times(rms_dot(og, x, w, r * dim, dim as nat)),
    )
}

/// What they hand back to the weight of column `c`.
pub open spec fn rms_dw<T: Scalar>(
    og: Seq<T>,
    x: Seq<T>,
    rrms: Seq<T>,
    dim: int,
    r: int,
    c: int,
) -> T {
    let o = r * dim + c;
    og[o].spec_times(x[o]).spec_times(rrms[r])
}

/// The gradients of the rows and of the weights after `r` rows and `c` columns of the next.
pub open spec fn rms_back<T: Scalar>(
    og: Seq<T>,
    x: Seq<T>,
    w: Seq<T>,
    rrms: Seq<T>,
    dim: int,
    grads: (Seq<T>, Seq<T>),
    r: nat,
    c: nat,
) -> (Seq<T>, Seq<T>)
    decreases r, c,
{
    if c > 0 {
        let g = rms_back(og, x, w, rrms, dim, grads, r, (c - 1) as nat);
        (
            add_at(g.0, r * dim + c - 1, rms_dx(og, x, w, rrms, dim, r as int, c - 1)),
            add_at(g.1, c - 1, rms_dw(og, x, rrms, dim, r as int, c - 1)),
        )
    } else if r > 0 {
        rms_back(og, x, w, rrms, dim, grads, (r - 1) as nat, dim as nat)
    } else {
        grads
    }
}

/// The gradient of a tensor that is its own weight.
pub open spec fn rms_back_self<T: Scalar>(
    og: Seq<T>,
    x: Seq<T>,
    w: Seq<T>,
    rrms: Seq<T>,
    dim: int,
    grad: Seq<T>,
    r: nat,
    c: nat,
) -> Seq<T>
    decreases r, c,
{
    if c > 0 {
        let g = rms_back_self(og, x, w, rrms, dim, grad, r, (c - 1) as nat);
        add_at(
            add_at(g, r * dim + c - 1, rms_dx(og, x, w, rrms, dim, r as int, c - 1)),
            c - 1,
            rms_dw(og, x, rrms, dim, r as int, c - 1),
        )
    } else if r > 0 {
        rms_back_self(og, x, w, rrms, dim, grad, (r - 1) as nat, dim as nat)
    } else {
        grad
    }
}

/// The values captured for the way back, and their sizes.
pub open spec fn rms_ok<T>(
    og: Seq<T>,
    x: Seq<T>,
    w: Seq<T>,
    rrms: Seq<T>,
    n: int,
    dim: int,
) -> bool {
    &&& og.len() == n * dim
    &&& x.len() == n * dim
    &&& n > 0 ==> w.len() >= dim
    &&& rrms.len() == n
}

/// The sum over a row, and the cube of its scale over its length.
fn rms_row<T: Scalar>(
    og: &Vec<T>,
    x: &Vec<T>,
    w: &Vec<T>,
    rrms: &Vec<T>,
    n: usize,
    dim: usize,
    r: usize,
) -> (q: (T, T))
    requires
        rms_ok(og@, x@, w@, rrms@, n as int, dim as int),
        r < n,
    ensures
        q.0 == rms_dot(og@, x@, w@, r * dim, dim as nat),
        q.1 == rrms@[r as int].spec_power(3).spec_over(T::spec_from_count(dim)),
{
    proof {
        assert((r + 1) * dim == r * dim + dim && (r + 1) * dim <= n * dim && 0 <= r * dim)
            by (nonlinear_arith)
            requires
                r < n,
                dim >= 0,
        ;
        assert(x@.len() == x.len());
    }
    let off: usize = r * dim;
    let mut dot: T = T::zero();
    let mut d: usize = 0;
    while d < dim
        invariant
            d <= dim,
            off + dim <= n * dim,
            r < n,
            rms_ok(og@, x@, w@, rrms@, n as int, dim as int),
            dot == rms_dot(og@, x@, w@, off as int, d as nat),
        decreases dim - d,
    {
        assert(x@.len() == x.len());
        dot = dot.plus(og[off + d].times(x[off + d]).times(w[d]));
        d += 1;
    }
    (dot, rrms[r].power(3).over(T::from_count(dim)))
}

/// Adds to the gradients of the rows and of the weights.
pub fn rms_backward<T: Scalar>(
    og: &Vec<T>,
    x: &Vec<T>,
    w: &Vec<T>,
    rrms: &Vec<T>,
    n: usize,
    dim: usize,
    x_grad: &mut Vec<T>,
    w_grad: &mut Vec<T>,
)
    requires
        rms_ok(og@, x@, w@, rrms@, n as int, dim as int),
        old(x_grad)@.len() == x@.len(),
        old(w_grad)@.len() == w@.len(),
    ensures
        (final(x_grad)@, final(w_grad)@) == rms_back(
            og@,
            x@,
            w@,
            rrms@,
            dim as int,
            (old(x_grad)@, old(w_grad)@),
            n as nat,
            0,
        ),
        final(x_grad)@.len() == old(x_grad)@.len(),
        final(w_grad)@.len() == old(w_grad)@.len(),
{
    let mut r: usize = 0;
    while r < n
        invariant
            r <= n,
            rms_ok(og@, x@, w@, rrms@, n as int, dim as int),
            x_grad@.len() == x@.len(),
            w_grad@.len() == w@.len(),
            x_grad@.len() == old(x_grad)@.len(),
            w_grad@.len() == old(w_grad)@.len(),
            (x_grad@, w_grad@) == rms_back(
                og@,
                x@,
                w@,
                rrms@,
                dim as int,
                (old(x_grad)@, old(w_grad)@),
                r as nat,
                0,
            ),
        decreases n - r,
    {
        let (dot, cube) = rms_row(og, x, w, rrms, n, dim, r);
        let s: T = rrms[r];
        let mut d: usize = 0;
        while d < dim
            invariant
                d <= dim,
                r < n,
                rms_ok(og@, x@, w@, rrms@, n as int, dim as int),
                x_grad@.len() == x@.len(),
                w_grad@.len() == w@.len(),
                x_grad@.len() == old(x_grad)@.len(),
                w_grad@.len() == old(w_grad)@.len(),
                s == rrms@[r as int],
                dot == rms_dot(og@, x@, w@, r * dim, dim as nat),
                cube == s.spec_power(3).spec_over(T::spec_from_count(dim)),
                (x_grad@, w_grad@) == rms_back(
                    og@,
                    x@,
                    w@,
                    rrms@,
                    dim as int,
                    (old(x_grad)@, old(w_grad)@),
                    r as nat,
                    d as nat,
                ),
            decreases dim - d,
        {
            proof {
                lemma_cell(r as int, n as int, d as int, dim as int);
                assert(x@.len() == x.len());
            }
            let o: usize = r * dim + d;
            let dx: T = s.times(og[o].times(w[d])).minus(x[o].times(cube).times(dot));
            let gx: T = x_grad[o].plus(dx);
            x_grad.set(o, gx);
            let gw: T = w_grad[d].plus(og[o].times(x[o]).times(s));
            w_grad.set(d, gw);
            d += 1;
        }
        r += 1;
        assert((x_grad@, w_grad@) == rms_back(
            og@,
            x@,
            w@,
            rrms@,
            dim as int,
            (old(x_grad)@, old(w_grad)@),
            r as nat,
            0,
        ));
    }
}

/// Adds to the gradient of a tensor that is its own weight.
pub fn rms_backward_self<T: Scalar>(
    og: &Vec<T>,
    x: &Vec<T>,
    w: &Vec<T>,
    rrms: &Vec<T>,
    n: usize,
    dim: usize,
    grad: &mut Vec<T>,
)
    requires
        rms_ok(og@, x@, w@, rrms@, n as int, dim as int),
        old(grad)@.len() == x@.len(),
        w@.len() == x@.len(),
    ensures
        final(grad)@ == rms_back_self(og@, x@, w@, rrms@, dim as int, old(grad)@, n as nat, 0),
        final(grad)@.len() == old(grad)@.len(),
{
    let mut r: usize = 0;
    while r < n
        invariant
            r <= n,
            rms_ok(og@, x@, w@, rrms@, n as int, dim as int),
            grad@.len() == x@.len(),
            w@.len() == x@.len(),
            grad@.len() == old(grad)@.len(),
            grad@ == rms_back_self(og@, x@, w@, rrms@, dim as int, old(grad)@, r as nat, 0),
        decreases n - r,
    {
        let (dot, cube) = rms_row(og, x, w, rrms, n, dim, r);
        let s: T = rrms[r];
        let mut d: usize = 0;
        while d < dim
            invariant
                d <= dim,
                r < n,
                rms_ok(og@, x@, w@, rrms@, n as int, dim as int),
                grad@.len() == x@.len(),
                w@.len() == x@.len(),
                grad@.len() == old(grad)@.len(),
                s == rrms@[r as int],
                dot == rms_dot(og@, x@, w@, r * dim, dim as nat),
                cube == s.spec_power(3).spec_over(T::spec_from_count(dim)),
                grad@ == rms_back_self(og@, x@, w@, rrms@, dim as int, old(grad)@, r as nat, d as nat),
            decreases dim - d,
        {
            proof {
                lemma_cell(r as int, n as int, d as int, dim as int);
                assert(x@.len() == x.len());
            }
            let o: usize = r * dim + d;
            let dx: T = s.times(og[o].times(w[d])).minus(x[o].times(cube).times(dot));
            let gx: T = grad[o].plus(dx);
            grad.set(o, gx);
            let gw: T = grad[d].plus(og[o].times(x[o]).times(s));
            grad.set(d, gw);
            d += 1;
        }
        r += 1;
        assert(grad@ == rms_back_self(og@, x@, w@, rrms@, dim as int, old(grad)@, r as nat, 0));
    }
}

} // verus!
