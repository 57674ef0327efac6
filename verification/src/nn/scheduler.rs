//! The learning rate over a training.
use crate::graph::differential::ring::{
    divides_by, exact, minus_and_plus, minus_is_plus, plus_group, plus_negated, plus_pairs,
    plus_swap, plus_zero, times_group, times_one, times_plus, times_zero,
};
use crate::scalar::Scalar;
use vstd::prelude::*;

verus! {

/// A learning rate that rises in a straight line and then falls along a cosine.
pub struct CosineScheduler<T> {
    /// The rate at the end of the rise.
    pub lr_max: T,
    /// The rate at the end of the fall.
    pub lr_min: T,
    /// The steps of the rise.
    pub warmup_steps: usize,
    /// The steps of the rise and the fall.
    pub total_steps: usize,
}

/// The number between `low` and `high` that is nearest to `x`.
pub open spec fn clamped<T: Scalar>(x: T, low: T, high: T) -> T {
    x.spec_larger(low).spec_smaller(high)
}

/// The part of the fall that lies behind a step.
pub open spec fn progress<T: Scalar>(s: CosineScheduler<T>, step: usize) -> T {
    let fall = if s.total_steps > s.warmup_steps {
        (s.total_steps - s.warmup_steps) as usize
    } else {
        1
    };
    clamped(
        T::spec_from_count((step - s.warmup_steps) as usize).spec_over(T::spec_from_count(fall)),
        T::spec_zero(),
        T::spec_one(),
    )
}

/// The rate at a step.
pub open spec fn rate<T: Scalar>(s: CosineScheduler<T>, step: usize) -> T {
    if step < s.warmup_steps {
        s.lr_max.spec_times(T::spec_from_count(step)).spec_over(
            T::spec_from_count(s.warmup_steps),
        )
    } else {
        let swing = T::spec_one().spec_plus(
            T::spec_pi().spec_times(progress(s, step)).spec_cos(),
        );
        s.lr_min.spec_plus(
            T::spec_decimal(5, 1).spec_times(s.lr_max.spec_minus(s.lr_min)).spec_times(swing),
        )
    }
}

impl<T: Scalar> CosineScheduler<T> {
    /// A scheduler with these rates and steps.
    pub fn new(lr_max: T, lr_min: T, warmup_steps: usize, total_steps: usize) -> (r: Self)
        requires
            total_steps > warmup_steps,
        ensures
            r == (CosineScheduler { lr_max, lr_min, warmup_steps, total_steps }),
    {
        CosineScheduler { lr_max, lr_min, warmup_steps, total_steps }
    }

    /// The rate at a step, counted from zero.
    pub fn get_lr(&self, step: usize) -> (r: T)
        requires
            self.warmup_steps <= self.total_steps,
        ensures
            r == rate(*self, step),
    {
        if step < self.warmup_steps {
            self.lr_max.times(T::from_count(step)).over(T::from_count(self.warmup_steps))
        } else {
            let fall: usize = if self.total_steps > self.warmup_steps {
                self.total_steps - self.warmup_steps
            } else {
                1
            };
            let done: T = T::from_count(step - self.warmup_steps).over(T::from_count(fall));
            let done: T = done.larger(T::zero()).smaller(T::one());
            let swing: T = T::one().plus(T::pi().times(done).cos());
            self.lr_min.plus(
                T::decimal(5, 1).times(self.lr_max.minus(self.lr_min)).times(swing),
            )
        }
    }
}

/// During the rise the rate does not depend on the rate at the end of the fall, nor on how long the
/// fall takes.
pub proof fn rise_ignores_fall<T: Scalar>(s: CosineScheduler<T>, t: CosineScheduler<T>, step: usize)
    requires
        s.lr_max == t.lr_max,
        s.warmup_steps == t.warmup_steps,
        step < s.warmup_steps,
    ensures
        rate(s, step) == rate(t, step),
{
}

/// What holds of the real numbers: sums and products are exact, zero over anything is taken for
/// zero, a count over itself is one, two halves make one, and the cosine is one at zero and minus
/// one at half the circle.
pub open spec fn like_reals<T: Scalar>() -> bool {
    &&& exact::<T>()
    &&& T::spec_from_count(0) == T::spec_zero()
    &&& forall|x: T| #[trigger] T::spec_zero().spec_over(x) == T::spec_zero()
    &&& forall|n: usize|
        n > 0 ==> (#[trigger] T::spec_from_count(n)).spec_over(T::spec_from_count(n))
            == T::spec_one()
    &&& clamped(T::spec_zero(), T::spec_zero(), T::spec_one()) == T::spec_zero()
    &&& clamped(T::spec_one(), T::spec_zero(), T::spec_one()) == T::spec_one()
    &&& T::spec_decimal(5, 1).spec_plus(T::spec_decimal(5, 1)) == T::spec_one()
    &&& T::spec_zero().spec_cos() == T::spec_one()
    &&& T::spec_pi().spec_cos() == T::spec_one().spec_negated()
}

/// For real numbers the rise begins at zero.
pub proof fn rise_begins_at_zero<T: Scalar>(s: CosineScheduler<T>)
    requires
        like_reals::<T>(),
        0 < s.warmup_steps,
    ensures
        rate(s, 0) == T::spec_zero(),
{
    times_zero(s.lr_max);
}

/// For real numbers the fall begins at the highest rate and ends at the lowest.
pub proof fn fall_from_peak_to_floor<T: Scalar>(s: CosineScheduler<T>)
    requires
        like_reals::<T>(),
        s.warmup_steps < s.total_steps,
    ensures
        rate(s, s.warmup_steps) == s.lr_max,
        rate(s, s.total_steps) == s.lr_min,
{
    let (one, half, pi) = (T::spec_one(), T::spec_decimal(5, 1), T::spec_pi());
    let span = s.lr_max.spec_minus(s.lr_min);
    let part = half.spec_times(span);
    // at the beginning the swing is two
    assert(progress(s, s.warmup_steps) == T::spec_zero());
    times_zero(pi);
    times_plus(part, one, one);
    times_one(part);
    times_plus(span, half, half);
    times_one(span);
    let low = s.lr_min;
    minus_is_plus(s.lr_max, low);
    plus_swap(s.lr_max, low.spec_negated());
    plus_group(low, low.spec_negated(), s.lr_max);
    plus_negated(low);
    plus_zero(s.lr_max);
    // at the end it is zero
    assert(progress(s, s.total_steps) == one);
    times_one(pi);
    plus_negated(one);
    times_zero(part);
    plus_zero(low);
}

/// The rise is even: the rate at a step times the steps of the rise is the highest rate times the
/// step.
pub proof fn rise_is_even<T: Scalar>(s: CosineScheduler<T>, step: usize)
    requires
        divides_by(T::spec_from_count(s.warmup_steps)),
        step < s.warmup_steps,
    ensures
        rate(s, step).spec_times(T::spec_from_count(s.warmup_steps)) == s.lr_max.spec_times(
            T::spec_from_count(step),
        ),
{
    let n = T::spec_from_count(s.warmup_steps);
    let x = s.lr_max.spec_times(T::spec_from_count(step));
    assert(x.spec_over(n).spec_times(n) == x);
}

/// The fall follows a cosine: twice the rate is the sum of the highest and the lowest and, as far as
/// the cosine of the part of the fall that lies behind says, their difference. That part times the
/// steps of the fall is the number of steps behind.
pub proof fn fall_follows_cosine<T: Scalar>(s: CosineScheduler<T>, step: usize) -> (part: T)
    requires
        exact::<T>(),
        T::spec_decimal(5, 1).spec_plus(T::spec_decimal(5, 1)) == T::spec_one(),
        s.warmup_steps <= step <= s.total_steps,
        s.warmup_steps < s.total_steps,
        divides_by(T::spec_from_count((s.total_steps - s.warmup_steps) as usize)),
        ({
            let x = T::spec_from_count((step - s.warmup_steps) as usize).spec_over(
                T::spec_from_count((s.total_steps - s.warmup_steps) as usize),
            );
            clamped(x, T::spec_zero(), T::spec_one()) == x
        }),
    ensures
        part.spec_times(T::spec_from_count((s.total_steps - s.warmup_steps) as usize))
            == T::spec_from_count((step - s.warmup_steps) as usize),
        rate(s, step).spec_plus(rate(s, step)) == s.lr_max.spec_plus(s.lr_min).spec_plus(
            s.lr_max.spec_minus(s.lr_min).spec_times(T::spec_pi().spec_times(part).spec_cos()),
        ),
{
    let n = T::spec_from_count((s.total_steps - s.warmup_steps) as usize);
    let k = T::spec_from_count((step - s.warmup_steps) as usize);
    let part = k.spec_over(n);
    assert(k.spec_over(n).spec_times(n) == k);
    let (one, half) = (T::spec_one(), T::spec_decimal(5, 1));
    let (low, span) = (s.lr_min, s.lr_max.spec_minus(s.lr_min));
    let c = T::spec_pi().spec_times(part).spec_cos();
    let swing = one.spec_plus(c);
    let x = half.spec_times(span).spec_times(swing);
    assert(rate(s, step) == low.spec_plus(x));
    // x + x == span (1 + c)
    times_plus(span.spec_times(swing), half, half);
    times_group(half, span, swing);
    times_one(span.spec_times(swing));
    assert(x.spec_plus(x) == span.spec_times(swing));
    plus_pairs(low, x, low, x);
    times_plus(span, one, c);
    times_one(span);
    let y = span.spec_times(c);
    // low + low + (span + y) == max + low + y
    plus_group(low.spec_plus(low), span, y);
    plus_group(low, low, span);
    minus_and_plus(low, s.lr_max);
    plus_swap(low, s.lr_max);
    part
}

} // verus!
