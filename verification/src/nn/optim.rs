//! AdamW: gradients with running means, and weights that decay.
use crate::graph::backward::{
    grads_of, lemma_same, lemma_same_chain, put_grad, same_but_grad, same_but_grads, take_grad,
};
use crate::graph::kernel::Kernel;
use crate::graph::launch::{dims_for, elementwise_launch};
use crate::graph::plan::{call, call_steps, push_if, Arg, Step};
use crate::graph::{only_tensors, same_but_data, zeros, Graph};
use crate::scalar::Scalar;
use crate::tensor::{
    element_count, filled, from_halves, halves_of, is_bf16, product, shape_fits, to_halves,
    DeviceBuffer, Storage, Tensor,
};
use std::collections::HashMap;
use vstd::prelude::*;

verus! {

broadcast use vstd::std_specs::hash::group_hash_axioms;

/// The optimizer.
pub struct AdamW<T> {
    /// The tensors that it trains.
    pub params: Vec<usize>,
    pub lr: T,
    pub beta1: T,
    pub beta2: T,
    pub eps: T,
    pub weight_decay: T,
    /// The steps so far.
    pub t: usize,
    /// The running means of the gradients of parameters on the host.
    pub m_cpu: HashMap<usize, Vec<T>>,
    /// The running means of their squares.
    pub v_cpu: HashMap<usize, Vec<T>>,
    /// Both means for parameters on the device, in full precision whatever theirs is.
    pub moments_gpu: HashMap<usize, (DeviceBuffer, DeviceBuffer)>,
    /// The norm that gradients are clipped to.
    pub grad_clip_norm: Option<T>,
    pub last_grad_norm: T,
    pub last_grad_scale: T,
}

/// The numbers of one step.
pub struct Rule<T> {
    pub lr: T,
    pub beta1: T,
    pub beta2: T,
    pub eps: T,
    pub weight_decay: T,
    /// What the first mean is multiplied with for the steps so far.
    pub bc1: T,
    /// What the second mean is multiplied with.
    pub bc2: T,
}

impl<T: Copy> Clone for Rule<T> {
    fn clone(&self) -> (r: Self)
        ensures
            r == *self,
    {
        *self
    }
}

impl<T: Copy> Copy for Rule<T> {

}

/// The running mean with another gradient.
pub open spec fn mean_next<T: Scalar>(r: Rule<T>, m: T, g: T) -> T {
    r.beta1.spec_times(m).spec_plus(T::spec_one().spec_minus(r.beta1).spec_times(g))
}

/// The running mean of squares with another gradient.
pub open spec fn square_next<T: Scalar>(r: Rule<T>, v: T, g: T) -> T {
    r.beta2.spec_times(v).spec_plus(
        T::spec_one().spec_minus(r.beta2).spec_times(g).spec_times(g),
    )
}

/// The weight after a step, given the new means.
pub open spec fn weight_next<T: Scalar>(r: Rule<T>, w: T, m: T, v: T) -> T {
    let decayed = w.spec_times(T::spec_one().spec_minus(r.lr.spec_times(r.weight_decay)));
    decayed.spec_minus(
        r.lr.spec_times(m.spec_times(r.bc1)).spec_over(
            v.spec_times(r.bc2).spec_sqrt().spec_plus(r.eps),
        ),
    )
}

/// The first `n` means with their gradients, the others as they are.
pub open spec fn means_next<T: Scalar>(r: Rule<T>, m: Seq<T>, g: Seq<T>, n: nat) -> Seq<T> {
    Seq::new(
        m.len(),
        |i: int|
            if i < n {
                mean_next(r, m[i], g[i])
            } else {
                m[i]
            },
    )
}

/// The first `n` means of squares with their gradients, the others as they are.
pub open spec fn squares_next<T: Scalar>(r: Rule<T>, v: Seq<T>, g: Seq<T>, n: nat) -> Seq<T> {
    Seq::new(
        v.len(),
        |i: int|
            if i < n {
                square_next(r, v[i], g[i])
            } else {
                v[i]
            },
    )
}

/// The first `n` weights after a step, the others as they are.
pub open spec fn weights_next<T: Scalar>(
    r: Rule<T>,
    w: Seq<T>,
    m: Seq<T>,
    v: Seq<T>,
    n: nat,
) -> Seq<T> {
    Seq::new(
        w.len(),
        |i: int|
            if i < n {
                weight_next(r, w[i], m[i], v[i])
            } else {
                w[i]
            },
    )
}

/// One step for the first `n` weights of a parameter on the host.
pub fn update_weights<T: Scalar>(
    r: Rule<T>,
    n: usize,
    w: &mut Vec<T>,
    g: &Vec<T>,
    m: &mut Vec<T>,
    v: &mut Vec<T>,
)
    requires
        n <= old(w)@.len(),
        n <= g@.len(),
        n <= old(m)@.len(),
        n <= old(v)@.len(),
    ensures
        final(m)@ == means_next(r, old(m)@, g@, n as nat),
        final(v)@ == squares_next(r, old(v)@, g@, n as nat),
        final(w)@ == weights_next(r, old(w)@, final(m)@, final(v)@, n as nat),
{
    let ghost (w0, m0, v0) = (w@, m@, v@);
    let ghost m1 = means_next(r, m0, g@, n as nat);
    let ghost v1 = squares_next(r, v0, g@, n as nat);
    let mut i: usize = 0;
    while i < n
        invariant
            i <= n,
            n <= w0.len(),
            n <= g@.len(),
            n <= m0.len(),
            n <= v0.len(),
            m1 == means_next(r, m0, g@, n as nat),
            v1 == squares_next(r, v0, g@, n as nat),
            m@ == means_next(r, m0, g@, i as nat),
            v@ == squares_next(r, v0, g@, i as nat),
            w@ == weights_next(r, w0, m1, v1, i as nat),
        decreases n - i,
    {
        let grad: T = g[i];
        let decayed: T = w[i].times(T::one().minus(r.lr.times(r.weight_decay)));
        let mi: T = r.beta1.times(m[i]).plus(T::one().minus(r.beta1).times(grad));
        let vi: T = r.beta2.times(v[i]).plus(T::one().minus(r.beta2).times(grad).times(grad));
        m.set(i, mi);
        v.set(i, vi);
        let m_hat: T = mi.times(r.bc1);
        let v_hat: T = vi.times(r.bc2);
        w.set(i, decayed.minus(r.lr.times(m_hat).over(v_hat.sqrt().plus(r.eps))));
        assert(m@ =~= means_next(r, m0, g@, (i + 1) as nat));
        assert(v@ =~= squares_next(r, v0, g@, (i + 1) as nat));
        assert(w@ =~= weights_next(r, w0, m1, v1, (i + 1) as nat));
        i += 1;
    }
}

/// The sum of the squares of the first `n` numbers, added to `start`.
pub open spec fn squares_added<T: Scalar>(v: Seq<T>, start: T::Wide, n: nat) -> T::Wide
    decreases n,
{
    if n == 0 {
        start
    } else {
        v[n - 1].spec_wide_add_square(squares_added(v, start, (n - 1) as nat))
    }
}

/// The sum of the squares of all numbers of the first `n` rows.
pub open spec fn row_squares<T: Scalar>(rows: Seq<Seq<T>>, n: nat) -> T::Wide
    decreases n,
{
    if n == 0 {
        T::spec_wide_zero()
    } else {
        squares_added(rows[n - 1], row_squares(rows, (n - 1) as nat), rows[n - 1].len())
    }
}

fn add_squares<T: Scalar>(v: &Vec<T>, start: T::Wide) -> (r: T::Wide)
    ensures
        r == squares_added(v@, start, v@.len()),
{
    let mut r: T::Wide = start;
    let mut i: usize = 0;
    while i < v.len()
        invariant
            i <= v@.len(),
            r == squares_added(v@, start, i as nat),
        decreases v@.len() - i,
    {
        r = v[i].wide_add_square(r);
        i += 1;
    }
    r
}

/// The gradients of the parameters: those on the host, and copies of those on the device.
pub open spec fn grad_rows<T: Scalar>(
    params: Seq<usize>,
    ts: Seq<Tensor<T>>,
    fetched: Seq<Vec<T>>,
) -> Seq<Seq<T>> {
    Seq::new(
        params.len(),
        |i: int|
            if ts[params[i] as int].grad is Cpu {
                ts[params[i] as int].grad.values()
            } else {
                fetched[i]@
            },
    )
}

/// Every number multiplied with `s`.
pub open spec fn scaled_row<T: Scalar>(v: Seq<T>, s: T) -> Seq<T> {
    Seq::new(v.len(), |i: int| v[i].spec_times(s))
}

/// What becomes of the gradients on the host of the first `n` parameters, each changed by `f`.
pub open spec fn rows_changed<T: Scalar>(
    params: Seq<usize>,
    ts: Seq<Tensor<T>>,
    g: Seq<Seq<T>>,
    f: spec_fn(Seq<T>) -> Seq<T>,
    n: nat,
) -> Seq<Seq<T>>
    decreases n,
{
    if n == 0 {
        g
    } else {
        let h = rows_changed(params, ts, g, f, (n - 1) as nat);
        let p = params[n - 1] as int;
        if ts[p].grad is Cpu {
            h.update(p, f(h[p]))
        } else {
            h
        }
    }
}

/// The work that runs a kernel with a number over the gradients on the device of the first `n`
/// parameters.
pub open spec fn grad_kernel_steps<T: Scalar>(
    params: Seq<usize>,
    ts: Seq<Tensor<T>>,
    k: Kernel,
    x: T,
    n: nat,
) -> Seq<Step<T>>
    decreases n,
{
    if n == 0 {
        Seq::empty()
    } else {
        let s = grad_kernel_steps(params, ts, k, x, (n - 1) as nat);
        let p = params[n - 1];
        let size = product(ts[p as int].shape@) as usize;
        if ts[p as int].grad is Cpu {
            s
        } else {
            call_steps(
                s,
                k,
                seq![Arg::Grad(p), Arg::Real(x), Arg::Size(size as u64)],
                dims_for(size as u32),
            )
        }
    }
}

/// The parameters are tensors with gradients in full precision.
pub open spec fn grads_ready<T: Scalar>(params: Seq<usize>, ts: Seq<Tensor<T>>) -> bool {
    forall|i: int|
        0 <= i < params.len() ==> {
            &&& (#[trigger] params[i]) < ts.len()
            &&& ts[params[i] as int].grad is Cpu || ts[params[i] as int].grad is Gpu
            &&& shape_fits(ts[params[i] as int].shape@)
        }
}

/// A copy has been fetched of every gradient on the device.
pub open spec fn fetched_ok<T: Scalar>(
    params: Seq<usize>,
    ts: Seq<Tensor<T>>,
    fetched: Seq<Vec<T>>,
) -> bool {
    forall|i: int|
        0 <= i < params.len() ==> (ts[(#[trigger] params[i]) as int].grad is Cpu || i
            < fetched.len())
}

fn scale_row<T: Scalar>(v: &mut Vec<T>, s: T)
    ensures
        final(v)@ == scaled_row(old(v)@, s),
{
    let ghost before = v@;
    let mut i: usize = 0;
    while i < v.len()
        invariant
            i <= v@.len(),
            v@.len() == before.len(),
            forall|j: int| 0 <= j < i ==> #[trigger] v@[j] == before[j].spec_times(s),
            forall|j: int| i <= j < v@.len() ==> #[trigger] v@[j] == before[j],
        decreases v@.len() - i,
    {
        let x: T = v[i].times(s);
        v.set(i, x);
        i += 1;
    }
    assert(v@ =~= scaled_row(before, s));
}

/// The first `n` numbers of a row set to zero are all of them.
pub open spec fn zeroed_row<T: Scalar>(v: Seq<T>) -> Seq<T> {
    zeros::<T>(v.len())
}

/// How much gradients of a norm are scaled for a step.
pub open spec fn step_scale<T: Scalar>(norm: T, max_norm: T) -> T {
    if norm.spec_above(max_norm) {
        max_norm.spec_over(norm.spec_plus(T::spec_decimal(1, 6)))
    } else {
        T::spec_one()
    }
}

/// How much gradients of a norm are scaled to a norm.
pub open spec fn clip_scale<T: Scalar>(norm: T, max_norm: T) -> T {
    if norm.spec_above(T::spec_zero()) {
        max_norm.spec_over(norm.spec_plus(T::spec_decimal(1, 6))).spec_smaller(T::spec_one())
    } else {
        T::spec_one()
    }
}

/// Where the smaller of two numbers is above neither, gradients are never scaled by more than one.
pub proof fn clipping_never_enlarges<T: Scalar>(norm: T, max_norm: T)
    requires
        !T::spec_one().spec_above(T::spec_one()),
        forall|x: T| !(#[trigger] x.spec_smaller(T::spec_one())).spec_above(T::spec_one()),
    ensures
        !clip_scale(norm, max_norm).spec_above(T::spec_one()),
{
}

impl<T: Scalar> AdamW<T> {
    /// An optimizer that has made no step.
    pub fn new(params: Vec<usize>, lr: T) -> (r: Self)
        ensures
            r.params == params,
            r.lr == lr,
            r.beta1 == T::spec_decimal(9, 1),
            r.beta2 == T::spec_decimal(999, 3),
            r.eps == T::spec_decimal(1, 8),
            r.weight_decay == T::spec_decimal(1, 2),
            r.t == 0,
            r.m_cpu@ == Map::<usize, Vec<T>>::empty(),
            r.v_cpu@ == Map::<usize, Vec<T>>::empty(),
            r.moments_gpu@ == Map::<usize, (DeviceBuffer, DeviceBuffer)>::empty(),
            r.grad_clip_norm is None,
            r.last_grad_norm == T::spec_zero(),
            r.last_grad_scale == T::spec_one(),
    {
        AdamW {
            params,
            lr,
            beta1: T::decimal(9, 1),
            beta2: T::decimal(999, 3),
            eps: T::decimal(1, 8),
            weight_decay: T::decimal(1, 2),
            t: 0,
            m_cpu: HashMap::new(),
            v_cpu: HashMap::new(),
            moments_gpu: HashMap::new(),
            grad_clip_norm: None,
            last_grad_norm: T::zero(),
            last_grad_scale: T::one(),
        }
    }

    /// Everything but the clipping is the same.
    pub open spec fn same_but_clip(&self, other: Self) -> bool {
        &&& self.params == other.params
        &&& self.lr == other.lr
        &&& self.beta1 == other.beta1
        &&& self.beta2 == other.beta2
        &&& self.eps == other.eps
        &&& self.weight_decay == other.weight_decay
        &&& self.t == other.t
        &&& self.m_cpu == other.m_cpu
        &&& self.v_cpu == other.v_cpu
        &&& self.moments_gpu == other.moments_gpu
    }

    /// Has gradients clipped to a norm, where that is above zero.
    pub fn set_grad_clip_norm(&mut self, max_norm: T)
        ensures
            final(self).grad_clip_norm == (if max_norm.spec_above(T::spec_zero()) {
                Some(max_norm)
            } else {
                old(self).grad_clip_norm
            }),
            final(self).last_grad_norm == old(self).last_grad_norm,
            final(self).last_grad_scale == old(self).last_grad_scale,
            final(self).same_but_clip(*old(self)),
    {
        if max_norm.above(T::zero()) {
            self.grad_clip_norm = Some(max_norm);
        }
    }

    /// The norm of the gradients before the last step.
    pub fn last_grad_norm(&self) -> (r: T)
        ensures
            r == self.last_grad_norm,
    {
        self.last_grad_norm
    }

    /// How much gradients were scaled for the last step.
    pub fn last_grad_scale(&self) -> (r: T)
        ensures
            r == self.last_grad_scale,
    {
        self.last_grad_scale
    }

    fn total_squares(&self, g: &Graph<T>, fetched: &Vec<Vec<T>>) -> (r: T::Wide)
        requires
            grads_ready(self.params@, g.tensors@),
            fetched_ok(self.params@, g.tensors@, fetched@),
        ensures
            r == row_squares(
                grad_rows(self.params@, g.tensors@, fetched@),
                self.params@.len(),
            ),
    {
        let ghost rows = grad_rows(self.params@, g.tensors@, fetched@);
        let mut r: T::Wide = T::wide_zero();
        let mut i: usize = 0;
        while i < self.params.len()
            invariant
                i <= self.params@.len(),
                grads_ready(self.params@, g.tensors@),
                fetched_ok(self.params@, g.tensors@, fetched@),
                rows == grad_rows(self.params@, g.tensors@, fetched@),
                r == row_squares(rows, i as nat),
            decreases self.params@.len() - i,
        {
            let p: usize = self.params[i];
            r = match &g.tensors[p].grad {
                Storage::Cpu(v) => add_squares(v, r),
                _ => add_squares(&fetched[i], r),
            };
            i += 1;
        }
        r
    }

    fn change_grads(&self, g: &mut Graph<T>, zero: bool, x: T) -> (r: Vec<Step<T>>)
        requires
            grads_ready(self.params@, old(g).tensors@),
        ensures
            only_tensors(*final(g), *old(g)),
            same_but_grads(final(g).tensors@, old(g).tensors@),
            zero ==> grads_of(final(g).tensors@) == rows_changed(
                self.params@,
                old(g).tensors@,
                grads_of(old(g).tensors@),
                |v: Seq<T>| zeroed_row(v),
                self.params@.len(),
            ),
            !zero ==> grads_of(final(g).tensors@) == rows_changed(
                self.params@,
                old(g).tensors@,
                grads_of(old(g).tensors@),
                |v: Seq<T>| scaled_row(v, x),
                self.params@.len(),
            ),
            r@ == grad_kernel_steps(
                self.params@,
                old(g).tensors@,
                if zero {
                    Kernel::FillF32
                } else {
                    Kernel::ScaleF32
                },
                x,
                self.params@.len(),
            ),
    {
        let ghost ts = g.tensors@;
        let ghost g0 = grads_of(ts);
        let ghost f = if zero {
            |v: Seq<T>| zeroed_row(v)
        } else {
            |v: Seq<T>| scaled_row(v, x)
        };
        let k = if zero {
            Kernel::FillF32
        } else {
            Kernel::ScaleF32
        };
        let mut s: Vec<Step<T>> = Vec::new();
        let mut i: usize = 0;
        proof {
            lemma_same_self(ts);
        }
        while i < self.params.len()
            invariant
                i <= self.params@.len(),
                ts == old(g).tensors@,
                g0 == grads_of(ts),
                grads_ready(self.params@, ts),
                zero ==> f == (|v: Seq<T>| zeroed_row(v)),
                !zero ==> f == (|v: Seq<T>| scaled_row(v, x)),
                k == (if zero {
                    Kernel::FillF32
                } else {
                    Kernel::ScaleF32
                }),
                only_tensors(*g, *old(g)),
                same_but_grads(g.tensors@, ts),
                grads_of(g.tensors@) == rows_changed(self.params@, ts, g0, f, i as nat),
                s@ == grad_kernel_steps(self.params@, ts, k, x, i as nat),
            decreases self.params@.len() - i,
        {
            let p: usize = self.params[i];
            let ghost before = g.tensors@;
            assert(same_but_grad(before[p as int], ts[p as int]));
            let on_host: bool = match &g.tensors[p].grad {
                Storage::Cpu(_) => true,
                _ => false,
            };
            if on_host {
                let mut v = take_grad(&mut g.tensors, p);
                if zero {
                    v = filled(T::zero(), v.len());
                } else {
                    scale_row(&mut v, x);
                }
                put_grad(&mut g.tensors, p, v);
                proof {
                    lemma_same(before, g.tensors@, p as int, p as int);
                    lemma_same_chain(g.tensors@, before, ts);
                    assert(v@ =~= f(grads_of(before)[p as int]));
                    assert(grads_of(g.tensors@) =~= grads_of(before).update(p as int, v@));
                }
            } else {
                let size: usize = element_count(g.tensors[p].shape.as_slice());
                call(
                    &mut s,
                    k,
                    &vec![Arg::Grad(p), Arg::Real(x), Arg::Size(size as u64)],
                    elementwise_launch(size),
                );
            }
            i += 1;
        }
        s
    }

    /// Sets all gradients to zero: those on the host at once; the work for the others is returned.
    pub fn zero_grad(&self, g: &mut Graph<T>) -> (r: Vec<Step<T>>)
        requires
            grads_ready(self.params@, old(g).tensors@),
        ensures
            only_tensors(*final(g), *old(g)),
            same_but_grads(final(g).tensors@, old(g).tensors@),
            grads_of(final(g).tensors@) == rows_changed(
                self.params@,
                old(g).tensors@,
                grads_of(old(g).tensors@),
                |v: Seq<T>| zeroed_row(v),
                self.params@.len(),
            ),
            r@ == grad_kernel_steps(
                self.params@,
                old(g).tensors@,
                Kernel::FillF32,
                T::spec_zero(),
                self.params@.len(),
            ),
    {
        self.change_grads(g, true, T::zero())
    }

    /// Scales gradients down to a norm over all parameters. Those on the host are changed at once.
    /// Returns the norm, what they were scaled with, and the work for those on the device.
    pub fn clip_grad_norm(&self, g: &mut Graph<T>, max_norm: T, fetched: &Vec<Vec<T>>) -> (r: (
        T,
        T,
        Vec<Step<T>>,
    ))
        requires
            grads_ready(self.params@, old(g).tensors@),
            fetched_ok(self.params@, old(g).tensors@, fetched@),
        ensures
            r.0 == T::spec_narrow(
                T::spec_wide_sqrt(
                    row_squares(
                        grad_rows(self.params@, old(g).tensors@, fetched@),
                        self.params@.len(),
                    ),
                ),
            ),
            r.1 == clip_scale(r.0, max_norm),
            T::spec_one().spec_above(r.1) ==> {
                &&& only_tensors(*final(g), *old(g))
                &&& same_but_grads(final(g).tensors@, old(g).tensors@)
                &&& grads_of(final(g).tensors@) == rows_changed(
                    self.params@,
                    old(g).tensors@,
                    grads_of(old(g).tensors@),
                    |v: Seq<T>| scaled_row(v, r.1),
                    self.params@.len(),
                )
                &&& r.2@ == grad_kernel_steps(
                    self.params@,
                    old(g).tensors@,
                    Kernel::ScaleF32,
                    r.1,
                    self.params@.len(),
                )
            },
            !T::spec_one().spec_above(r.1) ==> *final(g) == *old(g) && r.2@.len() == 0,
    {
        let norm: T = T::narrow(T::wide_sqrt(self.total_squares(g, fetched)));
        let scale: T = if norm.above(T::zero()) {
            max_norm.over(norm.plus(T::decimal(1, 6))).smaller(T::one())
        } else {
            T::one()
        };
        if T::one().above(scale) {
            let s = self.change_grads(g, false, scale);
            (norm, scale, s)
        } else {
            (norm, scale, Vec::new())
        }
    }
}

/// The running means by parameter, and the elements of all tensors on the host.
pub open spec fn mapped<T>(m: Map<usize, Vec<T>>) -> Map<usize, Seq<T>> {
    m.map_values(|v: Vec<T>| v@)
}

/// The elements of all tensors, as far as they are on the host.
pub open spec fn data_rows<T: Scalar>(ts: Seq<Tensor<T>>) -> Seq<Seq<T>> {
    Seq::new(ts.len(), |i: int| ts[i].data.values())
}

/// The running mean that a step starts with.
pub open spec fn mean_before<T: Scalar>(m: Map<usize, Seq<T>>, p: usize, size: nat) -> Seq<T> {
    if m.contains_key(p) {
        m[p]
    } else {
        zeros::<T>(size)
    }
}

/// Elements as they are kept: rounded where they have 16 bits.
pub open spec fn kept<T: Scalar>(w: Seq<T>, half: bool) -> Seq<T> {
    if half {
        from_halves(to_halves(w))
    } else {
        w
    }
}

/// The means and the elements after a step for one parameter on the host, of 16 bits an element
/// where `half` says so.
pub open spec fn param_stepped<T: Scalar>(
    r: Rule<T>,
    p: usize,
    size: nat,
    half: bool,
    g: Seq<T>,
    s: (Map<usize, Seq<T>>, Map<usize, Seq<T>>, Seq<Seq<T>>),
) -> (Map<usize, Seq<T>>, Map<usize, Seq<T>>, Seq<Seq<T>>) {
    let m = means_next(r, mean_before(s.0, p, size), g, size);
    let v = squares_next(r, mean_before(s.1, p, size), g, size);
    (
        s.0.insert(p, m),
        s.1.insert(p, v),
        s.2.update(p as int, kept(weights_next(r, s.2[p as int], m, v, size), half)),
    )
}

/// The means and the elements after a step for those of the first `n` parameters that are on the
/// host.
pub open spec fn stepped<T: Scalar>(
    r: Rule<T>,
    params: Seq<usize>,
    ts: Seq<Tensor<T>>,
    grads: Seq<Seq<T>>,
    s: (Map<usize, Seq<T>>, Map<usize, Seq<T>>, Seq<Seq<T>>),
    n: nat,
) -> (Map<usize, Seq<T>>, Map<usize, Seq<T>>, Seq<Seq<T>>)
    decreases n,
{
    if n == 0 {
        s
    } else {
        let before = stepped(r, params, ts, grads, s, (n - 1) as nat);
        let p = params[n - 1];
        if ts[p as int].data.on_device() {
            before
        } else {
            param_stepped(
                r,
                p,
                product(ts[p as int].shape@),
                ts[p as int].data is CpuBf16,
                grads[p as int],
                before,
            )
        }
    }
}

/// Those of the first `n` parameters that are on the device.
pub open spec fn device_params<T: Scalar>(
    params: Seq<usize>,
    ts: Seq<Tensor<T>>,
    n: nat,
) -> Seq<usize>
    decreases n,
{
    if n == 0 {
        Seq::empty()
    } else {
        let before = device_params(params, ts, (n - 1) as nat);
        if ts[params[n - 1] as int].data.on_device() {
            before.push(params[n - 1])
        } else {
            before
        }
    }
}

/// The launch that moves the elements `weights` of parameter `p`.
pub open spec fn adam_args<T: Scalar>(
    r: Rule<T>,
    p: usize,
    weights: Arg<T>,
    n: usize,
) -> Seq<Arg<T>> {
    seq![
        weights,
        Arg::Grad(p),
        Arg::Mean(p),
        Arg::Squares(p),
        Arg::Real(r.lr),
        Arg::Real(r.beta1),
        Arg::Real(r.beta2),
        Arg::Real(r.eps),
        Arg::Real(r.weight_decay),
        Arg::Real(r.bc1),
        Arg::Real(r.bc2),
        Arg::Size(n as u64),
    ]
}

/// The work for a parameter on the device. Elements of 16 bits are moved in full precision, and
/// rounded again.
pub open spec fn adam_steps<T: Scalar>(r: Rule<T>, p: usize, t: Tensor<T>) -> Seq<Step<T>> {
    let n = product(t.shape@) as usize;
    let dims = dims_for(n as u32);
    if t.data is GpuBf16 {
        call_steps(
            call_steps(
                seq![Step::CastTemp { id: p, size: n }],
                Kernel::AdamwStepF32,
                adam_args(r, p, Arg::Cast(p), n),
                dims,
            ),
            Kernel::CastF32ToBf16,
            seq![Arg::Cast(p), Arg::Data(p), Arg::Size(n as u64)],
            dims,
        )
    } else {
        call_steps(seq![], Kernel::AdamwStepF32, adam_args(r, p, Arg::Data(p), n), dims)
    }
}

/// The work for a parameter on the device. Its means are to be there first.
pub struct ParamWork<T> {
    pub id: usize,
    pub steps: Vec<Step<T>>,
}

/// The work on the device for a step: first what scales gradients, then the parameters.
pub struct StepWork<T> {
    pub scale: Vec<Step<T>>,
    pub params: Vec<ParamWork<T>>,
}

/// A parameter can be trained where it is: on the host with a gradient in full precision, or on the
/// device with a gradient in full precision and, unless precision is mixed, so its elements.
pub open spec fn trainable<T: Scalar>(t: Tensor<T>, mixed: bool) -> bool {
    if t.data.on_device() {
        t.grad is Gpu && (mixed || t.data is Gpu)
    } else {
        &&& t.grad is Cpu
        &&& product(t.shape@) <= t.data.spec_len()
        &&& product(t.shape@) <= t.grad.spec_len()
    }
}

/// All parameters can be trained.
pub open spec fn all_trainable<T: Scalar>(params: Seq<usize>, g: Graph<T>) -> bool {
    forall|i: int|
        0 <= i < params.len() ==> {
            &&& (#[trigger] params[i]) < g.tensors@.len()
            &&& trainable(g.tensors@[params[i] as int], g.mixed())
        }
}

/// Running means have as many elements as their parameters.
pub open spec fn means_fit<T: Scalar>(
    params: Seq<usize>,
    ts: Seq<Tensor<T>>,
    m: Map<usize, Vec<T>>,
) -> bool {
    forall|i: int|
        0 <= i < params.len() && m.contains_key(#[trigger] params[i]) ==> product(
            ts[params[i] as int].shape@,
        ) <= m[params[i]]@.len()
}

/// Nothing but elements and gradients differs, and those not in their place.
pub open spec fn same_but_values<T: Scalar>(x: Seq<Tensor<T>>, y: Seq<Tensor<T>>) -> bool {
    &&& x.len() == y.len()
    &&& forall|i: int|
        0 <= i < x.len() ==> {
            &&& (#[trigger] x[i]).id == y[i].id
            &&& x[i].shape == y[i].shape
            &&& x[i].strides == y[i].strides
            &&& x[i].device == y[i].device
            &&& x[i].name == y[i].name
            &&& x[i].is_pooled == y[i].is_pooled
            &&& x[i].is_param == y[i].is_param
            &&& x[i].data.spec_kind() == y[i].data.spec_kind()
            &&& x[i].data.spec_len() == y[i].data.spec_len()
            &&& x[i].data.on_device() ==> x[i].data == y[i].data
            &&& x[i].grad.spec_kind() == y[i].grad.spec_kind()
            &&& x[i].grad.spec_len() == y[i].grad.spec_len()
        }
}

/// The gradients that a step goes by: clipped, where a norm is set and they are above it.
pub open spec fn clipped<T: Scalar>(
    params: Seq<usize>,
    ts: Seq<Tensor<T>>,
    scale: T,
) -> Seq<Seq<T>> {
    if T::spec_one().spec_above(scale) {
        rows_changed(
            params,
            ts,
            grads_of(ts),
            |v: Seq<T>| scaled_row(v, scale),
            params.len(),
        )
    } else {
        grads_of(ts)
    }
}

/// The numbers of step `t`.
pub open spec fn rule_of<T: Scalar>(o: AdamW<T>, t: usize) -> Rule<T> {
    Rule {
        lr: o.lr,
        beta1: o.beta1,
        beta2: o.beta2,
        eps: o.eps,
        weight_decay: o.weight_decay,
        bc1: T::spec_one().spec_over(T::spec_one().spec_minus(o.beta1.spec_power(t))),
        bc2: T::spec_one().spec_over(T::spec_one().spec_minus(o.beta2.spec_power(t))),
    }
}

/// Where a mean was put, it is; the others are as they were.
proof fn lemma_mapped_insert<T>(m: Map<usize, Vec<T>>, p: usize, v: Vec<T>)
    ensures
        mapped(m.insert(p, v)) == mapped(m).insert(p, v@),
{
    assert(mapped(m.insert(p, v)) =~= mapped(m).insert(p, v@));
}

proof fn lemma_mapped_removed<T>(m: Map<usize, Vec<T>>, p: usize, v: Seq<T>)
    ensures
        mapped(m.remove(p)).insert(p, v) == mapped(m).insert(p, v),
{
    assert(mapped(m.remove(p)).insert(p, v) =~= mapped(m).insert(p, v));
}

impl<T: Scalar> AdamW<T> {
    /// Scales gradients for a step, where a norm is set and they are above it.
    fn maybe_clip_gradients(&mut self, g: &mut Graph<T>, fetched: &Vec<Vec<T>>) -> (r: Vec<Step<T>>)
        requires
            grads_ready(old(self).params@, old(g).tensors@),
            fetched_ok(old(self).params@, old(g).tensors@, fetched@),
        ensures
            final(self).same_but_clip(*old(self)),
            final(self).grad_clip_norm == old(self).grad_clip_norm,
            match old(self).grad_clip_norm {
                None => {
                    &&& final(self).last_grad_norm == T::spec_zero()
                    &&& final(self).last_grad_scale == T::spec_one()
                    &&& *final(g) == *old(g)
                    &&& r@.len() == 0
                },
                Some(max_norm) => {
                    let norm = T::spec_narrow(
                        row_squares(
                            grad_rows(old(self).params@, old(g).tensors@, fetched@),
                            old(self).params@.len(),
                        ),
                    ).spec_sqrt();
                    let scale = step_scale(norm, max_norm);
                    &&& final(self).last_grad_norm == norm
                    &&& final(self).last_grad_scale == scale
                    &&& only_tensors(*final(g), *old(g))
                    &&& same_but_grads(final(g).tensors@, old(g).tensors@)
                    &&& grads_of(final(g).tensors@) == clipped(
                        old(self).params@,
                        old(g).tensors@,
                        scale,
                    )
                    &&& r@ == (if T::spec_one().spec_above(scale) {
                        grad_kernel_steps(
                            old(self).params@,
                            old(g).tensors@,
                            Kernel::ScaleF32,
                            scale,
                            old(self).params@.len(),
                        )
                    } else {
                        Seq::empty()
                    })
                },
            },
    {
        let max_norm: T = match self.grad_clip_norm {
            None => {
                self.last_grad_norm = T::zero();
                self.last_grad_scale = T::one();
                return Vec::new();
            },
            Some(x) => x,
        };
        let norm: T = T::narrow(self.total_squares(g, fetched)).sqrt();
        let scale: T = if norm.above(max_norm) {
            max_norm.over(norm.plus(T::decimal(1, 6)))
        } else {
            T::one()
        };
        self.last_grad_norm = norm;
        self.last_grad_scale = scale;
        if !T::one().above(scale) {
            proof {
                lemma_same_self(g.tensors@);
            }
            return Vec::new();
        }
        self.change_grads(g, false, scale)
    }

    fn rule(&self) -> (r: Rule<T>)
        ensures
            r == rule_of(*self, self.t),
    {
        Rule {
            lr: self.lr,
            beta1: self.beta1,
            beta2: self.beta2,
            eps: self.eps,
            weight_decay: self.weight_decay,
            bc1: T::one().over(T::one().minus(self.beta1.power(self.t))),
            bc2: T::one().over(T::one().minus(self.beta2.power(self.t))),
        }
    }

    fn device_work(r: Rule<T>, p: usize, t: &Tensor<T>) -> (w: ParamWork<T>)
        requires
            shape_fits(t.shape@),
        ensures
            w.id == p,
            w.steps@ == adam_steps(r, p, *t),
    {
        let n: usize = element_count(t.shape.as_slice());
        let half: bool = is_bf16(&t.data);
        let mut s: Vec<Step<T>> = Vec::new();
        push_if(&mut s, half, Step::CastTemp { id: p, size: n });
        let weights: Arg<T> = if half {
            Arg::Cast(p)
        } else {
            Arg::Data(p)
        };
        let args: Vec<Arg<T>> = vec![
            weights,
            Arg::Grad(p),
            Arg::Mean(p),
            Arg::Squares(p),
            Arg::Real(r.lr),
            Arg::Real(r.beta1),
            Arg::Real(r.beta2),
            Arg::Real(r.eps),
            Arg::Real(r.weight_decay),
            Arg::Real(r.bc1),
            Arg::Real(r.bc2),
            Arg::Size(n as u64),
        ];
        assert(args@ =~= adam_args(r, p, weights, n));
        call(&mut s, Kernel::AdamwStepF32, &args, elementwise_launch(n));
        if half {
            let back: Vec<Arg<T>> = vec![Arg::Cast(p), Arg::Data(p), Arg::Size(n as u64)];
            call(&mut s, Kernel::CastF32ToBf16, &back, elementwise_launch(n));
        }
        ParamWork { id: p, steps: s }
    }

    fn host_step(&mut self, r: Rule<T>, p: usize, tensors: &mut Vec<Tensor<T>>)
        requires
            p < old(tensors)@.len(),
            shape_fits(old(tensors)@[p as int].shape@),
            !old(tensors)@[p as int].data.on_device(),
            trainable(old(tensors)@[p as int], false),
            old(self).m_cpu@.contains_key(p) ==> product(old(tensors)@[p as int].shape@) <= old(
                self,
            ).m_cpu@[p]@.len(),
            old(self).v_cpu@.contains_key(p) ==> product(old(tensors)@[p as int].shape@) <= old(
                self,
            ).v_cpu@[p]@.len(),
        ensures
            final(self).params == old(self).params,
            final(self).lr == old(self).lr,
            final(self).beta1 == old(self).beta1,
            final(self).beta2 == old(self).beta2,
            final(self).eps == old(self).eps,
            final(self).weight_decay == old(self).weight_decay,
            final(self).t == old(self).t,
            final(self).moments_gpu == old(self).moments_gpu,
            final(self).grad_clip_norm == old(self).grad_clip_norm,
            final(self).last_grad_norm == old(self).last_grad_norm,
            final(self).last_grad_scale == old(self).last_grad_scale,
            (mapped(final(self).m_cpu@), mapped(final(self).v_cpu@), data_rows(final(tensors)@))
                == param_stepped(
                r,
                p,
                product(old(tensors)@[p as int].shape@),
                old(tensors)@[p as int].data is CpuBf16,
                old(tensors)@[p as int].grad.values(),
                (mapped(old(self).m_cpu@), mapped(old(self).v_cpu@), data_rows(old(tensors)@)),
            ),
            forall|q: usize|
                #[trigger] final(self).m_cpu@.contains_key(q) && q != p ==> old(
                    self,
                ).m_cpu@.contains_key(q) && final(self).m_cpu@[q] == old(self).m_cpu@[q],
            forall|q: usize|
                #[trigger] final(self).v_cpu@.contains_key(q) && q != p ==> old(
                    self,
                ).v_cpu@.contains_key(q) && final(self).v_cpu@[q] == old(self).v_cpu@[q],
            final(self).m_cpu@.contains_key(p) && product(old(tensors)@[p as int].shape@)
                <= final(self).m_cpu@[p]@.len(),
            final(self).v_cpu@.contains_key(p) && product(old(tensors)@[p as int].shape@)
                <= final(self).v_cpu@[p]@.len(),
            final(tensors)@.len() == old(tensors)@.len(),
            same_but_data(final(tensors)@[p as int], old(tensors)@[p as int]),
            final(tensors)@[p as int].data.spec_kind() == old(tensors)@[p as int].data.spec_kind(),
            final(tensors)@[p as int].data.spec_len() == old(tensors)@[p as int].data.spec_len(),
            forall|i: int|
                0 <= i < old(tensors)@.len() && i != p ==> #[trigger] final(tensors)@[i] == old(
                    tensors,
                )@[i],
    {
        let ghost (m0, v0, ts) = (self.m_cpu@, self.v_cpu@, tensors@);
        let size: usize = element_count(tensors[p].shape.as_slice());
        let mut m = match self.m_cpu.remove(&p) {
            Some(m) => m,
            None => filled(T::zero(), size),
        };
        let mut v = match self.v_cpu.remove(&p) {
            Some(v) => v,
            None => filled(T::zero(), size),
        };
        assert(m@ =~= mean_before(mapped(m0), p, size as nat));
        assert(v@ =~= mean_before(mapped(v0), p, size as nat));
        let mut taken: Storage<T> = Storage::Cpu(Vec::new());
        std::mem::swap(&mut tensors[p].data, &mut taken);
        let (mut w, half) = match taken {
            Storage::Cpu(w) => (w, false),
            other => (other.to_f32_vec(), true),
        };
        update_weights(r, size, &mut w, tensors[p].grad.as_cpu(), &mut m, &mut v);
        let ghost next = w@;
        tensors[p].data = if half {
            Storage::CpuBf16(halves_of(&w))
        } else {
            Storage::Cpu(w)
        };
        proof {
            lemma_mapped_insert(m0.remove(p), p, m);
            lemma_mapped_insert(v0.remove(p), p, v);
            lemma_mapped_removed(m0, p, m@);
            lemma_mapped_removed(v0, p, v@);
            assert(data_rows(tensors@) =~= data_rows(ts).update(p as int, kept(next, half)));
        }
        self.m_cpu.insert(p, m);
        self.v_cpu.insert(p, v);
    }

    /// One step. Gradients are clipped where a norm is set. Parameters on the host are changed at
    /// once; the work for the others is returned, in order.
    pub fn step(&mut self, g: &mut Graph<T>, fetched: &Vec<Vec<T>>) -> (r: StepWork<T>)
        requires
            old(g).wf(),
            old(self).t < usize::MAX,
            grads_ready(old(self).params@, old(g).tensors@),
            fetched_ok(old(self).params@, old(g).tensors@, fetched@),
            all_trainable(old(self).params@, *old(g)),
            means_fit(old(self).params@, old(g).tensors@, old(self).m_cpu@),
            means_fit(old(self).params@, old(g).tensors@, old(self).v_cpu@),
        ensures
            final(self).t == old(self).t + 1,
            final(self).params == old(self).params,
            final(self).lr == old(self).lr,
            final(self).beta1 == old(self).beta1,
            final(self).beta2 == old(self).beta2,
            final(self).eps == old(self).eps,
            final(self).weight_decay == old(self).weight_decay,
            final(self).moments_gpu == old(self).moments_gpu,
            final(self).grad_clip_norm == old(self).grad_clip_norm,
            ({
                let params = old(self).params@;
                let ts = old(g).tensors@;
                let norm = T::spec_narrow(
                    row_squares(grad_rows(params, ts, fetched@), params.len()),
                ).spec_sqrt();
                let scale = match old(self).grad_clip_norm {
                    None => T::spec_one(),
                    Some(max_norm) => step_scale(norm, max_norm),
                };
                let clips = old(self).grad_clip_norm is Some && T::spec_one().spec_above(scale);
                let grads = if clips {
                    clipped(params, ts, scale)
                } else {
                    grads_of(ts)
                };
                let rule = rule_of(*old(self), (old(self).t + 1) as usize);
                let start = (mapped(old(self).m_cpu@), mapped(old(self).v_cpu@), data_rows(ts));
                let end = stepped(rule, params, ts, grads, start, params.len());
                let devices = device_params(params, ts, params.len());
                &&& final(self).last_grad_norm == (if old(self).grad_clip_norm is Some {
                    norm
                } else {
                    T::spec_zero()
                })
                &&& final(self).last_grad_scale == scale
                &&& mapped(final(self).m_cpu@) == end.0
                &&& mapped(final(self).v_cpu@) == end.1
                &&& data_rows(final(g).tensors@) == end.2
                &&& grads_of(final(g).tensors@) == grads
                &&& r.scale@ == (if clips {
                    grad_kernel_steps(params, ts, Kernel::ScaleF32, scale, params.len())
                } else {
                    Seq::empty()
                })
                &&& r.params@.len() == devices.len()
                &&& forall|i: int|
                    0 <= i < devices.len() ==> {
                        &&& (#[trigger] r.params@[i]).id == devices[i]
                        &&& r.params@[i].steps@ == adam_steps(
                            rule,
                            devices[i],
                            ts[devices[i] as int],
                        )
                    }
            }),
            only_tensors(*final(g), *old(g)),
            same_but_values(final(g).tensors@, old(g).tensors@),
            means_fit(final(self).params@, final(g).tensors@, final(self).m_cpu@),
            means_fit(final(self).params@, final(g).tensors@, final(self).v_cpu@),
    {
        let ghost ts = g.tensors@;
        let ghost params = self.params@;
        proof {
            lemma_same_self(ts);
        }
        let scale = self.maybe_clip_gradients(g, fetched);
        self.t = self.t + 1;
        let r = self.rule();
        let ghost mid = g.tensors@;
        let ghost grads = grads_of(mid);
        let ghost start = (mapped(self.m_cpu@), mapped(self.v_cpu@), data_rows(ts));
        let ghost (norm, factor) = (self.last_grad_norm, self.last_grad_scale);
        proof {
            assert(same_but_grads(mid, ts));
            assert forall|i: int| 0 <= i < mid.len() implies #[trigger] mid[i].data == ts[i].data
                && mid[i].shape == ts[i].shape && mid[i].id == ts[i].id && mid[i].strides
                == ts[i].strides && mid[i].device == ts[i].device && mid[i].name == ts[i].name
                && mid[i].is_pooled == ts[i].is_pooled && mid[i].is_param == ts[i].is_param by {
                assert(same_but_grad(mid[i], ts[i]));
            }
            assert(data_rows(mid) =~= data_rows(ts));
        }
        let mut works: Vec<ParamWork<T>> = Vec::new();
        let mut i: usize = 0;
        while i < self.params.len()
            invariant
                i <= params.len(),
                params == self.params@,
                params == old(self).params@,
                self.params == old(self).params,
                self.lr == old(self).lr,
                self.beta1 == old(self).beta1,
                self.beta2 == old(self).beta2,
                self.eps == old(self).eps,
                self.weight_decay == old(self).weight_decay,
                self.t == old(self).t + 1,
                self.moments_gpu == old(self).moments_gpu,
                self.grad_clip_norm == old(self).grad_clip_norm,
                self.last_grad_norm == norm,
                self.last_grad_scale == factor,
                ts == old(g).tensors@,
                grads_ready(params, ts),
                all_trainable(params, *old(g)),
                same_but_grads(mid, ts),
                grads == grads_of(mid),
                only_tensors(*g, *old(g)),
                g.tensors@.len() == ts.len(),
                forall|j: int|
                    0 <= j < ts.len() ==> {
                        &&& same_but_data(#[trigger] g.tensors@[j], mid[j])
                        &&& g.tensors@[j].data.spec_kind() == mid[j].data.spec_kind()
                        &&& g.tensors@[j].data.spec_len() == mid[j].data.spec_len()
                        &&& mid[j].data.on_device() ==> g.tensors@[j].data == mid[j].data
                    },
                (mapped(self.m_cpu@), mapped(self.v_cpu@), data_rows(g.tensors@)) == stepped(
                    r,
                    params,
                    ts,
                    grads,
                    start,
                    i as nat,
                ),
                means_fit(params, ts, self.m_cpu@),
                means_fit(params, ts, self.v_cpu@),
                works@.len() == device_params(params, ts, i as nat).len(),
                forall|j: int|
                    0 <= j < works@.len() ==> {
                        let d = device_params(params, ts, i as nat)[j];
                        &&& (#[trigger] works@[j]).id == d
                        &&& works@[j].steps@ == adam_steps(r, d, ts[d as int])
                    },
            decreases params.len() - i,
        {
            let p: usize = self.params[i];
            let ghost before = *self;
            proof {
                assert(params[i as int] < ts.len());
                assert(same_but_grad(mid[p as int], ts[p as int]));
                assert(same_but_data(g.tensors@[p as int], mid[p as int]));
            }
            let on_device: bool = !g.tensors[p].data.is_cpu();
            if on_device {
                let ghost had = works@;
                let w = Self::device_work(r, p, &g.tensors[p]);
                assert(adam_steps(r, p, g.tensors@[p as int]) == adam_steps(r, p, ts[p as int]));
                works.push(w);
                assert forall|j: int| 0 <= j < works@.len() implies {
                    let d = device_params(params, ts, (i + 1) as nat)[j];
                    &&& (#[trigger] works@[j]).id == d
                    &&& works@[j].steps@ == adam_steps(r, d, ts[d as int])
                } by {
                    if j < had.len() {
                        assert(works@[j] == had[j]);
                    }
                }
            } else {
                let ghost was = g.tensors@;
                self.host_step(r, p, &mut g.tensors);
                proof {
                    assert forall|j: int| 0 <= j < ts.len() implies {
                        &&& same_but_data(#[trigger] g.tensors@[j], mid[j])
                        &&& g.tensors@[j].data.spec_kind() == mid[j].data.spec_kind()
                        &&& g.tensors@[j].data.spec_len() == mid[j].data.spec_len()
                        &&& mid[j].data.on_device() ==> g.tensors@[j].data == mid[j].data
                    } by {
                        assert(same_but_data(was[j], mid[j]));
                        if j != p {
                            assert(g.tensors@[j] == was[j]);
                        }
                    }
                    assert forall|j: int|
                        0 <= j < params.len() && self.m_cpu@.contains_key(
                            #[trigger] params[j],
                        ) implies product(ts[params[j] as int].shape@)
                        <= self.m_cpu@[params[j]]@.len() by {
                        if params[j] != p {
                            assert(before.m_cpu@.contains_key(params[j]));
                        }
                    }
                    assert forall|j: int|
                        0 <= j < params.len() && self.v_cpu@.contains_key(
                            #[trigger] params[j],
                        ) implies product(ts[params[j] as int].shape@)
                        <= self.v_cpu@[params[j]]@.len() by {
                        if params[j] != p {
                            assert(before.v_cpu@.contains_key(params[j]));
                        }
                    }
                }
            }
            i += 1;
        }
        proof {
            assert forall|j: int| 0 <= j < ts.len() implies (#[trigger] g.tensors@[j]).shape
                == ts[j].shape && g.tensors@[j].grad == mid[j].grad by {
                assert(same_but_data(g.tensors@[j], mid[j]));
                assert(same_but_grad(mid[j], ts[j]));
            }
            assert(grads_of(g.tensors@) =~= grads);
            assert forall|j: int| 0 <= j < ts.len() implies (#[trigger] g.tensors@[j]).id
                == ts[j].id && g.tensors@[j].strides == ts[j].strides && g.tensors@[j].device
                == ts[j].device && g.tensors@[j].name == ts[j].name && g.tensors@[j].is_pooled
                == ts[j].is_pooled && g.tensors@[j].is_param == ts[j].is_param && (
            mid[j].data.on_device() ==> g.tensors@[j].data == ts[j].data)
                && g.tensors@[j].data.spec_kind() == ts[j].data.spec_kind()
                && g.tensors@[j].data.spec_len() == ts[j].data.spec_len()
                && g.tensors@[j].grad.spec_kind() == ts[j].grad.spec_kind()
                && g.tensors@[j].grad.spec_len() == ts[j].grad.spec_len() by {
                assert(same_but_data(g.tensors@[j], mid[j]));
                assert(same_but_grad(mid[j], ts[j]));
            }
        }
        StepWork { scale, params: works }
    }
}

/// Running means with zeros for those of the first `n` parameters on the host that had none.
pub open spec fn with_means<T: Scalar>(
    params: Seq<usize>,
    ts: Seq<Tensor<T>>,
    m: Map<usize, Seq<T>>,
    n: nat,
) -> Map<usize, Seq<T>>
    decreases n,
{
    if n == 0 {
        m
    } else {
        let before = with_means(params, ts, m, (n - 1) as nat);
        let p = params[n - 1];
        if ts[p as int].data.on_device() || before.contains_key(p) {
            before
        } else {
            before.insert(p, zeros::<T>(product(ts[p as int].shape@)))
        }
    }
}

/// The parameter is on the device and has no running means there.
pub open spec fn lacks_moments<T: Scalar>(o: AdamW<T>, g: Graph<T>, p: usize) -> bool {
    &&& g.tensors@[p as int].data.on_device()
    &&& !o.moments_gpu@.contains_key(p)
}

impl<T: Scalar> AdamW<T> {
    /// Makes running means of zeros for the parameters on the host. Those on the device are
    /// allocated one by one, as `missing_moments` asks for them.
    pub fn init_moments(&mut self, g: &Graph<T>)
        requires
            forall|i: int|
                0 <= i < old(self).params@.len() ==> {
                    &&& (#[trigger] old(self).params@[i]) < g.tensors@.len()
                    &&& shape_fits(g.tensors@[old(self).params@[i] as int].shape@)
                },
        ensures
            mapped(final(self).m_cpu@) == with_means(
                old(self).params@,
                g.tensors@,
                mapped(old(self).m_cpu@),
                old(self).params@.len(),
            ),
            mapped(final(self).v_cpu@) == with_means(
                old(self).params@,
                g.tensors@,
                mapped(old(self).v_cpu@),
                old(self).params@.len(),
            ),
            final(self).params == old(self).params,
            final(self).lr == old(self).lr,
            final(self).beta1 == old(self).beta1,
            final(self).beta2 == old(self).beta2,
            final(self).eps == old(self).eps,
            final(self).weight_decay == old(self).weight_decay,
            final(self).t == old(self).t,
            final(self).moments_gpu == old(self).moments_gpu,
            final(self).grad_clip_norm == old(self).grad_clip_norm,
            final(self).last_grad_norm == old(self).last_grad_norm,
            final(self).last_grad_scale == old(self).last_grad_scale,
    {
        let ghost (m0, v0) = (mapped(self.m_cpu@), mapped(self.v_cpu@));
        let mut i: usize = 0;
        while i < self.params.len()
            invariant
                i <= self.params@.len(),
                self.params == old(self).params,
                self.lr == old(self).lr,
                self.beta1 == old(self).beta1,
                self.beta2 == old(self).beta2,
                self.eps == old(self).eps,
                self.weight_decay == old(self).weight_decay,
                self.t == old(self).t,
                self.moments_gpu == old(self).moments_gpu,
                self.grad_clip_norm == old(self).grad_clip_norm,
                self.last_grad_norm == old(self).last_grad_norm,
                self.last_grad_scale == old(self).last_grad_scale,
                forall|i: int|
                    0 <= i < self.params@.len() ==> {
                        &&& (#[trigger] self.params@[i]) < g.tensors@.len()
                        &&& shape_fits(g.tensors@[self.params@[i] as int].shape@)
                    },
                mapped(self.m_cpu@) == with_means(self.params@, g.tensors@, m0, i as nat),
                mapped(self.v_cpu@) == with_means(self.params@, g.tensors@, v0, i as nat),
            decreases self.params@.len() - i,
        {
            let p: usize = self.params[i];
            let size: usize = element_count(g.tensors[p].shape.as_slice());
            if g.tensors[p].data.is_cpu() {
                if !self.m_cpu.contains_key(&p) {
                    let z = filled(T::zero(), size);
                    proof {
                        assert(z@ =~= zeros::<T>(size as nat));
                        lemma_mapped_insert(self.m_cpu@, p, z);
                    }
                    self.m_cpu.insert(p, z);
                }
                if !self.v_cpu.contains_key(&p) {
                    let z = filled(T::zero(), size);
                    proof {
                        assert(z@ =~= zeros::<T>(size as nat));
                        lemma_mapped_insert(self.v_cpu@, p, z);
                    }
                    self.v_cpu.insert(p, z);
                }
            }
            i += 1;
        }
    }

    /// The size of the running means that a parameter on the device lacks; none where it has them.
    pub fn missing_moments(&self, g: &Graph<T>, p: usize) -> (r: Option<usize>)
        requires
            p < g.tensors@.len(),
            shape_fits(g.tensors@[p as int].shape@),
        ensures
            r == (if lacks_moments(*self, *g, p) {
                Some(product(g.tensors@[p as int].shape@) as usize)
            } else {
                None
            }),
    {
        if g.tensors[p].data.is_cpu() || self.moments_gpu.contains_key(&p) {
            None
        } else {
            Some(element_count(g.tensors[p].shape.as_slice()))
        }
    }

    /// Takes over the running means of a parameter that have been allocated on the device.
    pub fn moments_allocated(&mut self, p: usize, m: DeviceBuffer, v: DeviceBuffer)
        ensures
            final(self).moments_gpu@ == old(self).moments_gpu@.insert(p, (m, v)),
            final(self).params == old(self).params,
            final(self).lr == old(self).lr,
            final(self).beta1 == old(self).beta1,
            final(self).beta2 == old(self).beta2,
            final(self).eps == old(self).eps,
            final(self).weight_decay == old(self).weight_decay,
            final(self).t == old(self).t,
            final(self).m_cpu == old(self).m_cpu,
            final(self).v_cpu == old(self).v_cpu,
            final(self).grad_clip_norm == old(self).grad_clip_norm,
            final(self).last_grad_norm == old(self).last_grad_norm,
            final(self).last_grad_scale == old(self).last_grad_scale,
    {
        self.moments_gpu.insert(p, (m, v));
    }

    /// The buffers of the running means of a parameter on the device.
    pub fn moments_of(&self, p: usize) -> (r: Option<(DeviceBuffer, DeviceBuffer)>)
        ensures
            r == self.moments_gpu@.get(p),
    {
        match self.moments_gpu.get(&p) {
            Some(b) => Some(*b),
            None => None,
        }
    }
}

/// A change of gradients by rows leaves tensors alone that are no parameters, and those on the
/// device.
pub proof fn other_gradients_stay<T: Scalar>(
    params: Seq<usize>,
    ts: Seq<Tensor<T>>,
    g: Seq<Seq<T>>,
    f: spec_fn(Seq<T>) -> Seq<T>,
    n: nat,
    id: usize,
)
    requires
        n <= params.len(),
        id < g.len(),
        g.len() == ts.len(),
        forall|i: int| 0 <= i < params.len() ==> (#[trigger] params[i]) < ts.len(),
        forall|i: int| 0 <= i < n && (#[trigger] params[i]) == id ==> !(ts[id as int].grad is Cpu),
    ensures
        rows_changed(params, ts, g, f, n)[id as int] == g[id as int],
        rows_changed(params, ts, g, f, n).len() == g.len(),
    decreases n,
{
    if n > 0 {
        other_gradients_stay(params, ts, g, f, (n - 1) as nat, id);
        assert(params[n - 1] < ts.len());
    }
}

/// Setting gradients to zero leaves only zeros in the gradient of every parameter on the host.
pub proof fn zeroed_gradients_are_zero<T: Scalar>(
    params: Seq<usize>,
    ts: Seq<Tensor<T>>,
    g: Seq<Seq<T>>,
    n: nat,
    k: int,
)
    requires
        0 <= k < n <= params.len(),
        g.len() == ts.len(),
        forall|i: int| 0 <= i < params.len() ==> (#[trigger] params[i]) < ts.len(),
        ts[params[k] as int].grad is Cpu,
    ensures
        rows_changed(params, ts, g, |v: Seq<T>| zeroed_row(v), n)[params[k] as int] == zeros::<T>(
            g[params[k] as int].len(),
        ),
    decreases n,
{
    let f = |v: Seq<T>| zeroed_row(v);
    assert(params[k] < ts.len());
    lemma_zeroed_length(params, ts, g, (n - 1) as nat, params[k] as int);
    let before = rows_changed(params, ts, g, f, (n - 1) as nat);
    let last = params[n - 1] as int;
    assert(params[n - 1] < ts.len());
    assert(before[params[k] as int].len() == g[params[k] as int].len());
    if params[k] == last {
        assert(rows_changed(params, ts, g, f, n)[last] == zeroed_row(before[last]));
    } else {
        zeroed_gradients_are_zero(params, ts, g, (n - 1) as nat, k);
    }
}

proof fn lemma_zeroed_length<T: Scalar>(
    params: Seq<usize>,
    ts: Seq<Tensor<T>>,
    g: Seq<Seq<T>>,
    n: nat,
    j: int,
)
    requires
        n <= params.len(),
        0 <= j < g.len(),
        g.len() == ts.len(),
        forall|i: int| 0 <= i < params.len() ==> (#[trigger] params[i]) < ts.len(),
    ensures
        rows_changed(params, ts, g, |v: Seq<T>| zeroed_row(v), n).len() == g.len(),
        rows_changed(params, ts, g, |v: Seq<T>| zeroed_row(v), n)[j].len() == g[j].len(),
    decreases n,
{
    if n > 0 {
        lemma_zeroed_length(params, ts, g, (n - 1) as nat, j);
        assert(params[n - 1] < ts.len());
    }
}

proof fn lemma_same_self<T: Scalar>(ts: Seq<Tensor<T>>)
    ensures
        same_but_grads(ts, ts),
{
}

} // verus!
