//! Arithmetic without rounding.
use crate::scalar::Scalar;
use vstd::prelude::*;

verus! {

/// Sums and products do not depend on order and grouping, products distribute over sums, and
/// differences undo sums. Machine floats miss this by their rounding; whole numbers that wrap
/// around do not.
#[verifier::opaque]
pub open spec fn exact<T: Scalar>() -> bool {
    &&& forall|a: T, b: T| #[trigger] a.spec_plus(b) == b.spec_plus(a)
    &&& forall|a: T, b: T, c: T| #[trigger]
        a.spec_plus(b).spec_plus(c) == a.spec_plus(b.spec_plus(c))
    &&& forall|a: T| #[trigger] a.spec_plus(T::spec_zero()) == a
    &&& forall|a: T, b: T| #[trigger] a.spec_times(b) == b.spec_times(a)
    &&& forall|a: T, b: T, c: T| #[trigger]
        a.spec_times(b).spec_times(c) == a.spec_times(b.spec_times(c))
    &&& forall|a: T, b: T, c: T| #[trigger]
        a.spec_times(b.spec_plus(c)) == a.spec_times(b).spec_plus(a.spec_times(c))
    &&& forall|a: T| #[trigger] a.spec_times(T::spec_zero()) == T::spec_zero()
    &&& forall|a: T| #[trigger] a.spec_times(T::spec_one()) == a
    &&& forall|a: T, b: T| #[trigger] a.spec_minus(b) == a.spec_plus(b.spec_negated())
    &&& forall|a: T| #[trigger] a.spec_plus(a.spec_negated()) == T::spec_zero()
}

pub proof fn plus_swap<T: Scalar>(a: T, b: T)
    requires
        exact::<T>(),
    ensures
        a.spec_plus(b) == b.spec_plus(a),
{
    reveal(exact);
}

pub proof fn plus_group<T: Scalar>(a: T, b: T, c: T)
    requires
        exact::<T>(),
    ensures
        a.spec_plus(b).spec_plus(c) == a.spec_plus(b.spec_plus(c)),
{
    reveal(exact);
}

pub proof fn plus_zero<T: Scalar>(a: T)
    requires
        exact::<T>(),
    ensures
        a.spec_plus(T::spec_zero()) == a,
        T::spec_zero().spec_plus(a) == a,
{
    reveal(exact);
    plus_swap(a, T::spec_zero());
}

pub proof fn times_swap<T: Scalar>(a: T, b: T)
    requires
        exact::<T>(),
    ensures
        a.spec_times(b) == b.spec_times(a),
{
    reveal(exact);
}

pub proof fn times_group<T: Scalar>(a: T, b: T, c: T)
    requires
        exact::<T>(),
    ensures
        a.spec_times(b).spec_times(c) == a.spec_times(b.spec_times(c)),
{
    reveal(exact);
}

pub proof fn times_zero<T: Scalar>(a: T)
    requires
        exact::<T>(),
    ensures
        a.spec_times(T::spec_zero()) == T::spec_zero(),
        T::spec_zero().spec_times(a) == T::spec_zero(),
{
    reveal(exact);
    times_swap(a, T::spec_zero());
}

pub proof fn times_one<T: Scalar>(a: T)
    requires
        exact::<T>(),
    ensures
        a.spec_times(T::spec_one()) == a,
        T::spec_one().spec_times(a) == a,
{
    reveal(exact);
    times_swap(a, T::spec_one());
}

pub proof fn times_plus<T: Scalar>(a: T, b: T, c: T)
    requires
        exact::<T>(),
    ensures
        a.spec_times(b.spec_plus(c)) == a.spec_times(b).spec_plus(a.spec_times(c)),
        b.spec_plus(c).spec_times(a) == b.spec_times(a).spec_plus(c.spec_times(a)),
{
    reveal(exact);
    times_swap(a, b.spec_plus(c));
    times_swap(a, b);
    times_swap(a, c);
}

pub proof fn minus_is_plus<T: Scalar>(a: T, b: T)
    requires
        exact::<T>(),
    ensures
        a.spec_minus(b) == a.spec_plus(b.spec_negated()),
{
    reveal(exact);
}

pub proof fn plus_negated<T: Scalar>(a: T)
    requires
        exact::<T>(),
    ensures
        a.spec_plus(a.spec_negated()) == T::spec_zero(),
{
    reveal(exact);
}

/// What added to `a` gives zero is the negated `a`.
pub proof fn negated_is_unique<T: Scalar>(a: T, b: T)
    requires
        exact::<T>(),
        a.spec_plus(b) == T::spec_zero(),
    ensures
        b == a.spec_negated(),
{
    let n = a.spec_negated();
    plus_negated(a);
    plus_group(n, a, b);
    plus_swap(n, a);
    plus_zero(n);
    plus_zero(b);
}

pub proof fn times_negated<T: Scalar>(a: T, b: T)
    requires
        exact::<T>(),
    ensures
        a.spec_times(b.spec_negated()) == a.spec_times(b).spec_negated(),
        b.spec_negated().spec_times(a) == b.spec_times(a).spec_negated(),
{
    times_plus(a, b, b.spec_negated());
    plus_negated(b);
    times_zero(a);
    negated_is_unique(a.spec_times(b), a.spec_times(b.spec_negated()));
    times_swap(a, b.spec_negated());
    times_swap(a, b);
}

pub proof fn negated_plus<T: Scalar>(a: T, b: T)
    requires
        exact::<T>(),
    ensures
        a.spec_plus(b).spec_negated() == a.spec_negated().spec_plus(b.spec_negated()),
{
    let (x, y) = (a.spec_negated(), b.spec_negated());
    plus_pairs(a, b, x, y);
    plus_negated(a);
    plus_negated(b);
    plus_zero(T::spec_zero());
    negated_is_unique(a.spec_plus(b), x.spec_plus(y));
}

/// Two sums added up term by term.
pub proof fn plus_pairs<T: Scalar>(a: T, b: T, c: T, d: T)
    requires
        exact::<T>(),
    ensures
        a.spec_plus(b).spec_plus(c.spec_plus(d)) == a.spec_plus(c).spec_plus(b.spec_plus(d)),
{
    plus_group(a, b, c.spec_plus(d));
    plus_group(b, c, d);
    plus_swap(b, c);
    plus_group(c, b, d);
    plus_group(a, c, b.spec_plus(d));
}

/// The outer two of three factors exchanged with the inner one.
pub proof fn times_rotate<T: Scalar>(a: T, b: T, c: T)
    requires
        exact::<T>(),
    ensures
        a.spec_times(b).spec_times(c) == b.spec_times(a).spec_times(c),
        a.spec_times(b).spec_times(c) == a.spec_times(c).spec_times(b),
        a.spec_times(b).spec_times(c) == a.spec_times(b.spec_times(c)),
        a.spec_times(b).spec_times(c) == a.spec_times(c.spec_times(b)),
        a.spec_times(b).spec_times(c) == b.spec_times(a.spec_times(c)),
        a.spec_times(b).spec_times(c) == b.spec_times(c.spec_times(a)),
        a.spec_times(b).spec_times(c) == c.spec_times(a.spec_times(b)),
        a.spec_times(b).spec_times(c) == c.spec_times(b.spec_times(a)),
{
    times_swap(a, b);
    times_swap(b, c);
    times_swap(a, c);
    times_group(a, b, c);
    times_group(a, c, b);
    times_group(b, a, c);
    times_group(b, c, a);
    times_swap(a.spec_times(b), c);
    times_swap(b.spec_times(a), c);
}

/// A quotient by `b` times `b` is what was divided.
pub open spec fn divides_by<T: Scalar>(b: T) -> bool {
    forall|a: T| #[trigger] a.spec_over(b).spec_times(b) == a
}

/// The square root of `a` times itself is `a`.
pub open spec fn has_root<T: Scalar>(a: T) -> bool {
    a.spec_sqrt().spec_times(a.spec_sqrt()) == a
}

/// The powers of `b` are products of as many factors `b`.
pub open spec fn has_powers<T: Scalar>(b: T) -> bool {
    &&& b.spec_power(0) == T::spec_one()
    &&& forall|n: usize|
        n < usize::MAX ==> #[trigger] b.spec_power(n).spec_times(b) == b.spec_power((n + 1) as usize)
}

/// What is neither added nor taken away: `a - a + b` is `b`.
pub proof fn minus_and_plus<T: Scalar>(a: T, b: T)
    requires
        exact::<T>(),
    ensures
        a.spec_plus(b.spec_minus(a)) == b,
        b.spec_minus(a).spec_plus(a) == b,
{
    minus_is_plus(b, a);
    plus_group(b, a.spec_negated(), a);
    plus_swap(a.spec_negated(), a);
    plus_negated(a);
    plus_zero(b);
    plus_swap(a, b.spec_minus(a));
}

/// Parts `b` and `1 - b` of a number are all of it.
pub proof fn parts_of_one<T: Scalar>(b: T, g: T)
    requires
        exact::<T>(),
    ensures
        b.spec_times(g).spec_plus(T::spec_one().spec_minus(b).spec_times(g)) == g,
{
    let rest = T::spec_one().spec_minus(b);
    times_plus(g, b, rest);
    minus_and_plus(b, T::spec_one());
    times_one(g);
}

/// The part `b` of `1 - x`, and `1 - b`, are together `1 - xb`.
pub proof fn parts_of_rest<T: Scalar>(b: T, x: T)
    requires
        exact::<T>(),
    ensures
        b.spec_times(T::spec_one().spec_minus(x)).spec_plus(T::spec_one().spec_minus(b))
            == T::spec_one().spec_minus(x.spec_times(b)),
{
    let one = T::spec_one();
    let bx = b.spec_times(x);
    minus_is_plus(one, x);
    times_plus(b, one, x.spec_negated());
    times_one(b);
    times_negated(b, x);
    plus_swap(b, bx.spec_negated());
    plus_group(bx.spec_negated(), b, one.spec_minus(b));
    minus_and_plus(b, one);
    plus_swap(bx.spec_negated(), one);
    times_swap(b, x);
    minus_is_plus(one, bx);
}

/// Equal products with the same number are of equal factors, where dividing by it is possible.
pub proof fn cancel_factor<T: Scalar>(a: T, b: T, w: T)
    requires
        exact::<T>(),
        divides_by(w),
        a.spec_times(w) == b.spec_times(w),
    ensures
        a == b,
{
    let u = T::spec_one().spec_over(w);
    assert(u.spec_times(w) == T::spec_one());
    times_swap(u, w);
    times_group(a, w, u);
    times_group(b, w, u);
    times_one(a);
    times_one(b);
}

pub proof fn negated_twice<T: Scalar>(a: T)
    requires
        exact::<T>(),
    ensures
        a.spec_negated().spec_negated() == a,
{
    plus_negated(a);
    plus_swap(a, a.spec_negated());
    negated_is_unique(a.spec_negated(), a);
}

} // verus!
