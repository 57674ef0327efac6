//! What holds of the steps of AdamW in arithmetic without rounding.
use crate::graph::differential::ring::{
    divides_by, exact, has_powers, minus_and_plus, minus_is_plus, parts_of_one, parts_of_rest,
    plus_negated, plus_zero, times_group, times_one, times_plus, times_swap, times_zero,
};
use crate::nn::optim::{
    clip_scale, mean_before, means_next, param_stepped, row_squares, rule_of, squares_added,
    squares_next, step_scale, stepped, weights_next, AdamW, Rule,
};
use crate::scalar::Scalar;
use crate::tensor::{product, Tensor};
use vstd::prelude::*;

verus! {

/// The running means and the elements by tensor.
pub type Moments<T> = (Map<usize, Seq<T>>, Map<usize, Seq<T>>, Seq<Seq<T>>);

/// A mean that is the gradient stays the gradient, and so does a mean of squares that is its
/// square.
pub proof fn steady_means_stay<T: Scalar>(r: Rule<T>, m: Seq<T>, v: Seq<T>, g: Seq<T>, n: nat, i: int)
    requires
        exact::<T>(),
        0 <= i < m.len(),
        0 <= i < v.len(),
        m[i] == g[i],
        v[i] == g[i].spec_times(g[i]),
    ensures
        means_next(r, m, g, n)[i] == g[i],
        squares_next(r, v, g, n)[i] == g[i].spec_times(g[i]),
{
    parts_of_one(r.beta1, g[i]);
    parts_of_one(r.beta2, g[i].spec_times(g[i]));
    times_group(T::spec_one().spec_minus(r.beta2), g[i], g[i]);
}

/// Without a gradient a step leaves of a mean its part beta and nothing else: what came earlier
/// fades.
pub proof fn means_fade<T: Scalar>(r: Rule<T>, m: Seq<T>, v: Seq<T>, g: Seq<T>, n: nat, i: int)
    requires
        exact::<T>(),
        0 <= i < n,
        n <= m.len(),
        n <= v.len(),
        g[i] == T::spec_zero(),
    ensures
        means_next(r, m, g, n)[i] == m[i].spec_times(r.beta1),
        squares_next(r, v, g, n)[i] == v[i].spec_times(r.beta2),
{
    let zero = T::spec_zero();
    let (a, b) = (T::spec_one().spec_minus(r.beta1), T::spec_one().spec_minus(r.beta2));
    times_zero(a);
    times_zero(b);
    times_zero(zero);
    plus_zero(r.beta1.spec_times(m[i]));
    plus_zero(r.beta2.spec_times(v[i]));
    times_swap(r.beta1, m[i]);
    times_swap(r.beta2, v[i]);
}

/// A weight whose mean is zero loses the part `lr * weight_decay` of itself, and nothing else
/// happens to it.
pub proof fn resting_weights_decay<T: Scalar>(
    r: Rule<T>,
    w: Seq<T>,
    m: Seq<T>,
    v: Seq<T>,
    n: nat,
    i: int,
)
    requires
        exact::<T>(),
        0 <= i < n,
        n <= w.len(),
        m[i] == T::spec_zero(),
        forall|b: T| #[trigger] T::spec_zero().spec_over(b) == T::spec_zero(),
    ensures
        weights_next(r, w, m, v, n)[i].spec_plus(w[i].spec_times(r.lr.spec_times(r.weight_decay)))
            == w[i],
{
    let (zero, one) = (T::spec_zero(), T::spec_one());
    let part = r.lr.spec_times(r.weight_decay);
    let left = w[i].spec_times(one.spec_minus(part));
    times_zero(r.bc1);
    times_zero(r.lr);
    minus_is_plus(left, zero);
    plus_zero(zero.spec_negated());
    plus_negated(zero);
    plus_zero(left);
    assert(weights_next(r, w, m, v, n)[i] == left);
    times_plus(w[i], one.spec_minus(part), part);
    minus_and_plus(part, one);
    times_one(w[i]);
}

/// What `t` steps make of means and elements, from the first step on, where the gradients are the
/// same in every step.
pub open spec fn steps_made<T: Scalar>(
    o: AdamW<T>,
    ts: Seq<Tensor<T>>,
    grads: Seq<Seq<T>>,
    s: Moments<T>,
    t: nat,
) -> Moments<T>
    decreases t,
{
    if t == 0 {
        s
    } else {
        stepped(
            rule_of(o, t as usize),
            o.params@,
            ts,
            grads,
            steps_made(o, ts, grads, s, (t - 1) as nat),
            o.params@.len(),
        )
    }
}

/// A step changes of one parameter what its own part of the step changes.
proof fn lemma_own_step<T: Scalar>(
    r: Rule<T>,
    params: Seq<usize>,
    ts: Seq<Tensor<T>>,
    grads: Seq<Seq<T>>,
    s: Moments<T>,
    k: int,
    n: nat,
)
    requires
        params.no_duplicates(),
        0 <= k < params.len(),
        n <= params.len(),
        forall|j: int| 0 <= j < params.len() ==> #[trigger] params[j] < s.2.len(),
        !ts[params[k] as int].data.on_device(),
    ensures
        ({
            let p = params[k];
            let e = stepped(r, params, ts, grads, s, n);
            let own = param_stepped(
                r,
                p,
                product(ts[p as int].shape@),
                ts[p as int].data is CpuBf16,
                grads[p as int],
                s,
            );
            let a = if k < n {
                own
            } else {
                s
            };
            &&& e.0.contains_key(p) == a.0.contains_key(p)
            &&& e.1.contains_key(p) == a.1.contains_key(p)
            &&& e.0[p] == a.0[p]
            &&& e.1[p] == a.1[p]
            &&& e.2[p as int] == a.2[p as int]
            &&& e.2.len() == s.2.len()
        }),
    decreases n,
{
    if n > 0 {
        lemma_own_step(r, params, ts, grads, s, k, (n - 1) as nat);
        let q = params[n - 1];
        assert(q < s.2.len());
        assert(params[k] < s.2.len());
        if n - 1 != k {
            assert(q != params[k]);
        }
    }
}

/// With the same gradient in every step the running mean after `t` steps is the part `1 - beta^t` of
/// it, so that the corrected mean is the gradient itself, however many steps there were; the mean
/// of squares is as much of its square. Step `t` then takes a weight, less its decay, by
/// `lr * g / (sqrt(g * g) + eps)`: no step is larger for the steps before it.
pub proof fn steady_gradient_is_its_mean<T: Scalar>(
    o: AdamW<T>,
    ts: Seq<Tensor<T>>,
    grads: Seq<Seq<T>>,
    s: Moments<T>,
    k: int,
    i: int,
    t: nat,
)
    requires
        exact::<T>(),
        has_powers(o.beta1),
        has_powers(o.beta2),
        1 <= t <= usize::MAX,
        divides_by(T::spec_one().spec_minus(o.beta1.spec_power(t as usize))),
        divides_by(T::spec_one().spec_minus(o.beta2.spec_power(t as usize))),
        o.params@.no_duplicates(),
        0 <= k < o.params@.len(),
        forall|j: int| 0 <= j < o.params@.len() ==> #[trigger] o.params@[j] < s.2.len(),
        !ts[o.params@[k] as int].data.on_device(),
        !s.0.contains_key(o.params@[k]),
        !s.1.contains_key(o.params@[k]),
        s.2[o.params@[k] as int].len() == product(ts[o.params@[k] as int].shape@),
        0 <= i < product(ts[o.params@[k] as int].shape@),
    ensures
        ({
            let p = o.params@[k];
            let g = grads[p as int][i];
            let gg = g.spec_times(g);
            let one = T::spec_one();
            let r = rule_of(o, t as usize);
            let w = steps_made(o, ts, grads, s, (t - 1) as nat).2[p as int][i];
            let e = steps_made(o, ts, grads, s, t);
            &&& e.0[p][i] == one.spec_minus(o.beta1.spec_power(t as usize)).spec_times(g)
            &&& e.1[p][i] == one.spec_minus(o.beta2.spec_power(t as usize)).spec_times(gg)
            &&& e.0[p][i].spec_times(r.bc1) == g
            &&& e.1[p][i].spec_times(r.bc2) == gg
            &&& !(ts[p as int].data is CpuBf16) ==> e.2[p as int][i] == w.spec_times(
                one.spec_minus(o.lr.spec_times(o.weight_decay)),
            ).spec_minus(o.lr.spec_times(g).spec_over(gg.spec_sqrt().spec_plus(o.eps)))
        }),
    decreases t,
{
    let p = o.params@[k];
    let size = product(ts[p as int].shape@);
    let g = grads[p as int][i];
    let gg = g.spec_times(g);
    let one = T::spec_one();
    lemma_steady_means(o, ts, grads, s, k, i, t);
    lemma_steady_means(o, ts, grads, s, k, i, (t - 1) as nat);
    let before = steps_made(o, ts, grads, s, (t - 1) as nat);
    let r = rule_of(o, t as usize);
    lemma_own_step(r, o.params@, ts, grads, before, k, o.params@.len());
    let e = steps_made(o, ts, grads, s, t);
    lemma_undone(one.spec_minus(o.beta1.spec_power(t as usize)), g);
    lemma_undone(one.spec_minus(o.beta2.spec_power(t as usize)), gg);
}

/// A product with `c` times one over `c`.
proof fn lemma_undone<T: Scalar>(c: T, g: T)
    requires
        exact::<T>(),
        divides_by(c),
    ensures
        c.spec_times(g).spec_times(T::spec_one().spec_over(c)) == g,
{
    let u = T::spec_one().spec_over(c);
    times_swap(c, g);
    times_group(g, c, u);
    times_swap(c, u);
    times_one(g);
}

proof fn lemma_steady_means<T: Scalar>(
    o: AdamW<T>,
    ts: Seq<Tensor<T>>,
    grads: Seq<Seq<T>>,
    s: Moments<T>,
    k: int,
    i: int,
    t: nat,
)
    requires
        exact::<T>(),
        has_powers(o.beta1),
        has_powers(o.beta2),
        t <= usize::MAX,
        o.params@.no_duplicates(),
        0 <= k < o.params@.len(),
        forall|j: int| 0 <= j < o.params@.len() ==> #[trigger] o.params@[j] < s.2.len(),
        !ts[o.params@[k] as int].data.on_device(),
        !s.0.contains_key(o.params@[k]),
        !s.1.contains_key(o.params@[k]),
        s.2[o.params@[k] as int].len() == product(ts[o.params@[k] as int].shape@),
        0 <= i < product(ts[o.params@[k] as int].shape@),
    ensures
        ({
            let p = o.params@[k];
            let size = product(ts[p as int].shape@);
            let g = grads[p as int][i];
            let one = T::spec_one();
            let e = steps_made(o, ts, grads, s, t);
            let m = mean_before(e.0, p, size);
            let v = mean_before(e.1, p, size);
            &&& m.len() == size
            &&& v.len() == size
            &&& t > 0 ==> e.0.contains_key(p) && e.1.contains_key(p)
            &&& m[i] == one.spec_minus(o.beta1.spec_power(t as usize)).spec_times(g)
            &&& v[i] == one.spec_minus(o.beta2.spec_power(t as usize)).spec_times(
                g.spec_times(g),
            )
            &&& e.2.len() == s.2.len()
            &&& e.2[p as int].len() == size
        }),
    decreases t,
{
    let p = o.params@[k];
    let size = product(ts[p as int].shape@);
    let g = grads[p as int][i];
    let gg = g.spec_times(g);
    let one = T::spec_one();
    if t == 0 {
        minus_is_plus(one, one);
        plus_negated(one);
        times_zero(g);
        times_zero(gg);
    } else {
        lemma_steady_means(o, ts, grads, s, k, i, (t - 1) as nat);
        let before = steps_made(o, ts, grads, s, (t - 1) as nat);
        let r = rule_of(o, t as usize);
        lemma_own_step(r, o.params@, ts, grads, before, k, o.params@.len());
        let b1 = o.beta1.spec_power((t - 1) as usize);
        let b2 = o.beta2.spec_power((t - 1) as usize);
        assert(b1.spec_times(o.beta1) == o.beta1.spec_power(t as usize));
        assert(b2.spec_times(o.beta2) == o.beta2.spec_power(t as usize));
        lemma_mean(o.beta1, b1, g);
        lemma_mean(o.beta2, b2, gg);
        times_group(one.spec_minus(o.beta2), g, g);
    }
}

proof fn lemma_mean<T: Scalar>(b: T, x: T, g: T)
    requires
        exact::<T>(),
    ensures
        b.spec_times(T::spec_one().spec_minus(x).spec_times(g)).spec_plus(
            T::spec_one().spec_minus(b).spec_times(g),
        ) == T::spec_one().spec_minus(x.spec_times(b)).spec_times(g),
{
    let y = T::spec_one().spec_minus(x);
    times_group(b, y, g);
    times_plus(g, b.spec_times(y), T::spec_one().spec_minus(b));
    parts_of_rest(b, x);
}

/// Gradients whose norm is above the one that they are clipped to are scaled so that the scale
/// times their norm, with a millionth added, is that norm; all others are left.
pub proof fn clipping_scales_to_norm<T: Scalar>(norm: T, max_norm: T)
    requires
        divides_by(norm.spec_plus(T::spec_decimal(1, 6))),
    ensures
        norm.spec_above(max_norm) ==> step_scale(norm, max_norm).spec_times(
            norm.spec_plus(T::spec_decimal(1, 6)),
        ) == max_norm,
        !norm.spec_above(max_norm) ==> step_scale(norm, max_norm) == T::spec_one(),
        ({
            let s = max_norm.spec_over(norm.spec_plus(T::spec_decimal(1, 6)));
            norm.spec_above(T::spec_zero()) && s.spec_smaller(T::spec_one()) == s ==> clip_scale(
                norm,
                max_norm,
            ).spec_times(norm.spec_plus(T::spec_decimal(1, 6))) == max_norm
        }),
{
    let n = norm.spec_plus(T::spec_decimal(1, 6));
    assert(max_norm.spec_over(n).spec_times(n) == max_norm);
}

/// The first `n` rows one after the other.
pub open spec fn rows_joined<T>(rows: Seq<Seq<T>>, n: nat) -> Seq<T>
    decreases n,
{
    if n == 0 {
        Seq::empty()
    } else {
        rows_joined(rows, (n - 1) as nat) + rows[n - 1]
    }
}

proof fn lemma_squares_joined<T: Scalar>(a: Seq<T>, b: Seq<T>, start: T::Wide, n: nat)
    requires
        n <= b.len(),
    ensures
        squares_added(a + b, start, a.len() + n) == squares_added(
            b,
            squares_added(a, start, a.len()),
            n,
        ),
    decreases n,
{
    if n > 0 {
        lemma_squares_joined(a, b, start, (n - 1) as nat);
        assert((a + b)[a.len() + n - 1] == b[n - 1]);
    } else {
        lemma_squares_prefix(a, b, start, a.len());
    }
}

proof fn lemma_squares_prefix<T: Scalar>(a: Seq<T>, b: Seq<T>, start: T::Wide, n: nat)
    requires
        n <= a.len(),
    ensures
        squares_added(a + b, start, n) == squares_added(a, start, n),
    decreases n,
{
    if n > 0 {
        lemma_squares_prefix(a, b, start, (n - 1) as nat);
        assert((a + b)[n - 1] == a[n - 1]);
    }
}

/// The norm is that of all gradients of all parameters together: the squares of the rows add up as
/// those of one row that holds them all.
pub proof fn norm_is_of_all_gradients<T: Scalar>(rows: Seq<Seq<T>>, n: nat)
    requires
        n <= rows.len(),
    ensures
        row_squares(rows, n) == squares_added(
            rows_joined(rows, n),
            T::spec_wide_zero(),
            rows_joined(rows, n).len(),
        ),
    decreases n,
{
    if n > 0 {
        let m = (n - 1) as nat;
        norm_is_of_all_gradients(rows, m);
        lemma_squares_joined(
            rows_joined(rows, m),
            rows[n - 1],
            T::spec_wide_zero(),
            rows[n - 1].len(),
        );
    }
}

} // verus!
