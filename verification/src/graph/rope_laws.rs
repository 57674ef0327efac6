//! What holds of rotary positions in arithmetic without rounding.
use crate::graph::differential::ring::{
    cancel_factor, divides_by, exact, minus_is_plus, negated_plus, negated_twice, plus_negated,
    plus_pairs, plus_swap, plus_zero, times_group, times_negated, times_one, times_plus,
    times_rotate, times_swap, times_zero,
};
use crate::graph::host::{data_of, rope_dims, rope_host_made, rope_host_ok, shape_of};
use crate::graph::index::lemma_cell;
use crate::graph::Graph;
use crate::scalar::Scalar;
use vstd::prelude::*;

verus! {

/// What the position is divided by for the angle of pair `i` in a head of `head` elements: 10000 to
/// the power of `2 i / head`.
pub open spec fn wavelength<T: Scalar>(head: usize, i: int) -> T {
    T::spec_from_count(10000).spec_raised(
        T::spec_from_count(2).spec_times(T::spec_from_count(i as usize)).spec_over(
            T::spec_from_count(head),
        ),
    )
}

/// The place of element `c` of head `h` in the row at position `s` of sequence `b`.
pub open spec fn place(shape: Seq<usize>, head: usize, b: int, s: int, h: int, c: int) -> int {
    (b * shape[1] + s) * shape[2] + (h * head + c)
}

/// There are a sequence `b`, a position `s` in it, and in the rows a head `h` with a pair `i`.
pub open spec fn pair_there(shape: Seq<usize>, head: usize, b: int, s: int, h: int, i: int) -> bool {
    &&& 0 <= b < shape[0]
    &&& 0 <= s < shape[1]
    &&& 0 <= h
    &&& 0 <= i
    &&& 2 * i + 1 < head
    &&& h * head + 2 * i + 1 < shape[2]
}

proof fn lemma_place(shape: Seq<usize>, head: usize, b: int, s: int, h: int, i: int, c: int)
    requires
        shape.len() >= 3,
        shape[0] * shape[1] <= usize::MAX,
        pair_there(shape, head, b, s, h, i),
        c == 2 * i || c == 2 * i + 1,
    ensures
        ({
            let d = rope_dims(shape, head);
            let o = place(shape, head, b, s, h, c);
            &&& 0 <= o < shape[0] * shape[1] * shape[2]
            &&& d.turns(o)
            &&& d.within(o) == c
            &&& d.column(o) == h * head + c
            &&& (o / d.hidden as int) % d.seq as int == s
        }),
{
    let d = rope_dims(shape, head);
    let o = place(shape, head, b, s, h, c);
    lemma_cell(b, shape[0] as int, s, shape[1] as int);
    assert(0 <= h * head) by (nonlinear_arith)
        requires
            h >= 0,
            head >= 0,
    ;
    lemma_cell(b * shape[1] + s, shape[0] * shape[1], h * head + c, shape[2] as int);
    vstd::arithmetic::div_mod::lemma_fundamental_div_mod_converse(
        h * head + c,
        head as int,
        h,
        c,
    );
    assert(d.rows * d.hidden == shape[0] * shape[1] * shape[2]);
}

/// A rotation turns the two elements of pair `i` of a head, at position `s` of a sequence, by an
/// angle that times 10000 to the power of `2 i / head` is `s`: the first pair fastest, and the more
/// slowly the later the pair.
pub proof fn pairs_turn_by_position<T: Scalar>(
    g0: Graph<T>,
    g1: Graph<T>,
    t: usize,
    a: usize,
    head: usize,
    b: int,
    s: int,
    h: int,
    i: int,
) -> (angle: T)
    requires
        rope_host_ok(g0, a, head),
        rope_host_made(g0, g1, t, a, head),
        pair_there(shape_of(g0, a), head, b, s, h, i),
        divides_by(wavelength::<T>(head, i)),
    ensures
        angle.spec_times(wavelength::<T>(head, i)) == T::spec_from_count(s as usize),
        ({
            let shape = shape_of(g0, a);
            let (first, second) = (
                place(shape, head, b, s, h, 2 * i),
                place(shape, head, b, s, h, 2 * i + 1),
            );
            let (x, y) = (data_of(g0, a)[first], data_of(g0, a)[second]);
            let (sin, cos) = (angle.spec_sin(), angle.spec_cos());
            &&& shape_of(g1, t) == shape
            &&& data_of(g1, t)[first] == x.spec_times(cos).spec_minus(y.spec_times(sin))
            &&& data_of(g1, t)[second] == x.spec_times(sin).spec_plus(y.spec_times(cos))
        }),
{
    let shape = shape_of(g0, a);
    lemma_place(shape, head, b, s, h, i, 2 * i);
    lemma_place(shape, head, b, s, h, i, 2 * i + 1);
    let o = place(shape, head, b, s, h, 2 * i);
    assert(place(shape, head, b, s, h, 2 * i + 1) == o + 1);
    rope_dims(shape, head).angle::<T>(o)
}

/// Counts are sums of ones, powers of sums are products of powers, and so on: what the angles need
/// of a number.
pub open spec fn raises<T: Scalar>(base: T, head: usize) -> bool {
    &&& T::spec_from_count(0) == T::spec_zero()
    &&& T::spec_from_count(1) == T::spec_one()
    &&& forall|n: usize|
        n < usize::MAX ==> #[trigger] T::spec_from_count(n).spec_plus(T::spec_one())
            == T::spec_from_count((n + 1) as usize)
    &&& forall|x: T, y: T| #[trigger]
        base.spec_raised(x.spec_plus(y)) == base.spec_raised(x).spec_times(base.spec_raised(y))
    &&& base.spec_raised(T::spec_zero()) == T::spec_one()
    &&& forall|x: T, y: T| #[trigger]
        x.spec_plus(y).spec_over(T::spec_from_count(head)) == x.spec_over(
            T::spec_from_count(head),
        ).spec_plus(y.spec_over(T::spec_from_count(head)))
    &&& T::spec_zero().spec_over(T::spec_from_count(head)) == T::spec_zero()
}

/// The angle of the first pair of a head is the position, and from one pair to the next the angle is
/// divided by 10000 to the power of `2 / head`.
pub proof fn angles_fall_along_a_head<T: Scalar>(
    shape: Seq<usize>,
    head: usize,
    b: int,
    s: int,
    h: int,
    i: int,
)
    requires
        exact::<T>(),
        raises(T::spec_from_count(10000), head),
        divides_by(wavelength::<T>(head, 0)),
        divides_by(wavelength::<T>(head, i)),
        divides_by(wavelength::<T>(head, i + 1)),
        shape.len() >= 3,
        shape[0] * shape[1] <= usize::MAX,
        0 <= i,
        pair_there(shape, head, b, s, h, i + 1),
    ensures
        ({
            let d = rope_dims(shape, head);
            let q = T::spec_from_count(10000).spec_raised(
                T::spec_from_count(2).spec_over(T::spec_from_count(head)),
            );
            let angle = |j: int| d.angle::<T>(place(shape, head, b, s, h, 2 * j));
            &&& angle(0) == T::spec_from_count(s as usize)
            &&& angle(i + 1).spec_times(q) == angle(i)
        }),
{
    let d = rope_dims(shape, head);
    let (zero, one) = (T::spec_zero(), T::spec_one());
    let (two, n) = (T::spec_from_count(2), T::spec_from_count(head));
    let c = T::spec_from_count(i as usize);
    let base = T::spec_from_count(10000);
    let q = base.spec_raised(two.spec_over(n));
    let pos = T::spec_from_count(s as usize);
    assert(pair_there(shape, head, b, s, h, i) && pair_there(shape, head, b, s, h, 0));
    lemma_place(shape, head, b, s, h, 0, 0);
    lemma_place(shape, head, b, s, h, i, 2 * i);
    lemma_place(shape, head, b, s, h, i + 1, 2 * (i + 1));
    let first = d.angle::<T>(place(shape, head, b, s, h, 0));
    let x = d.angle::<T>(place(shape, head, b, s, h, 2 * i));
    let y = d.angle::<T>(place(shape, head, b, s, h, 2 * (i + 1)));
    let (w, w0) = (wavelength::<T>(head, i), wavelength::<T>(head, 0));
    times_zero(two);
    assert(w0 == one);
    assert(pos.spec_over(w0).spec_times(w0) == pos);
    times_one(pos.spec_over(w0));
    assert(first == pos);
    assert(c.spec_plus(one) == T::spec_from_count((i + 1) as usize));
    times_plus(two, c, one);
    times_one(two);
    let e = two.spec_times(c);
    assert(e.spec_plus(two).spec_over(n) == e.spec_over(n).spec_plus(two.spec_over(n)));
    assert(wavelength::<T>(head, i + 1) == w.spec_times(q));
    assert(pos.spec_over(w).spec_times(w) == pos);
    let w1 = w.spec_times(q);
    assert(pos.spec_over(w1).spec_times(w1) == pos);
    assert(y.spec_times(w.spec_times(q)) == pos && x.spec_times(w) == pos);
    times_swap(w, q);
    times_group(y, q, w);
    cancel_factor(y.spec_times(q), x, w);
}

/// Where the squares of sine and cosine add up to one, a rotation keeps the length of every pair.
pub proof fn turning_keeps_lengths<T: Scalar>(
    g0: Graph<T>,
    g1: Graph<T>,
    t: usize,
    a: usize,
    head: usize,
    b: int,
    s: int,
    h: int,
    i: int,
)
    requires
        exact::<T>(),
        forall|x: T|
            (#[trigger] x.spec_sin()).spec_times(x.spec_sin()).spec_plus(
                x.spec_cos().spec_times(x.spec_cos()),
            ) == T::spec_one(),
        rope_host_ok(g0, a, head),
        rope_host_made(g0, g1, t, a, head),
        pair_there(shape_of(g0, a), head, b, s, h, i),
    ensures
        ({
            let shape = shape_of(g0, a);
            let (first, second) = (
                place(shape, head, b, s, h, 2 * i),
                place(shape, head, b, s, h, 2 * i + 1),
            );
            let (x, y) = (data_of(g0, a)[first], data_of(g0, a)[second]);
            let (u, v) = (data_of(g1, t)[first], data_of(g1, t)[second]);
            u.spec_times(u).spec_plus(v.spec_times(v)) == x.spec_times(x).spec_plus(
                y.spec_times(y),
            )
        }),
{
    let shape = shape_of(g0, a);
    lemma_place(shape, head, b, s, h, i, 2 * i);
    lemma_place(shape, head, b, s, h, i, 2 * i + 1);
    let o = place(shape, head, b, s, h, 2 * i);
    assert(place(shape, head, b, s, h, 2 * i + 1) == o + 1);
    let angle = rope_dims(shape, head).angle::<T>(o);
    let (x, y) = (data_of(g0, a)[o], data_of(g0, a)[o + 1]);
    lemma_turned_length(x, y, angle.spec_sin(), angle.spec_cos());
}

proof fn lemma_turned_length<T: Scalar>(x: T, y: T, s: T, c: T)
    requires
        exact::<T>(),
        s.spec_times(s).spec_plus(c.spec_times(c)) == T::spec_one(),
    ensures
        ({
            let u = x.spec_times(c).spec_minus(y.spec_times(s));
            let v = x.spec_times(s).spec_plus(y.spec_times(c));
            u.spec_times(u).spec_plus(v.spec_times(v)) == x.spec_times(x).spec_plus(
                y.spec_times(y),
            )
        }),
{
    // u u + v v == x (u c + v s) + y (v c - u s), and the two are x and y again.
    let (xc, xs, yc, ys) = (x.spec_times(c), x.spec_times(s), y.spec_times(c), y.spec_times(s));
    let u = xc.spec_minus(ys);
    let v = xs.spec_plus(yc);
    let (cc, ss, cs) = (c.spec_times(c), s.spec_times(s), c.spec_times(s));
    let sc = s.spec_times(c);
    times_swap(c, s);
    // u c + v s == x
    minus_is_plus(xc, ys);
    let n = ys.spec_negated();
    times_plus(c, xc, n);
    times_plus(s, xs, yc);
    times_group(x, c, c);
    times_group(x, s, s);
    times_group(y, c, s);
    times_group(y, s, c);
    times_negated(c, ys);
    let k = y.spec_times(cs);
    let (xcc, xss) = (x.spec_times(cc), x.spec_times(ss));
    assert(u.spec_times(c) == xcc.spec_plus(k.spec_negated()));
    assert(v.spec_times(s) == xss.spec_plus(k));
    lemma_sum_of_parts(xcc, k, xss);
    times_plus(x, ss, cc);
    times_one(x);
    plus_swap(xcc, xss);
    let one = u.spec_times(c).spec_plus(v.spec_times(s));
    assert(one == x);
    // v c - u s == y
    times_plus(c, xs, yc);
    times_plus(s, xc, n);
    times_group(x, s, c);
    times_group(x, c, s);
    times_group(y, c, c);
    times_group(y, s, s);
    times_negated(s, ys);
    let m = x.spec_times(cs);
    let (ycc, yss) = (y.spec_times(cc), y.spec_times(ss));
    let us = u.spec_times(s);
    assert(v.spec_times(c) == m.spec_plus(ycc));
    assert(us == m.spec_plus(yss.spec_negated()));
    let r = v.spec_times(c).spec_minus(us);
    minus_is_plus(v.spec_times(c), us);
    negated_plus(m, yss.spec_negated());
    negated_twice(yss);
    assert(us.spec_negated() == m.spec_negated().spec_plus(yss));
    plus_pairs(m, ycc, m.spec_negated(), yss);
    plus_negated(m);
    plus_zero(ycc.spec_plus(yss));
    times_plus(y, ss, cc);
    times_one(y);
    plus_swap(ycc, yss);
    assert(r == y);
    // u u + v v
    times_plus(u, xc, n);
    times_plus(v, xs, yc);
    let (uxc, un, vxs, vyc) = (
        u.spec_times(xc),
        u.spec_times(n),
        v.spec_times(xs),
        v.spec_times(yc),
    );
    plus_pairs(uxc, un, vxs, vyc);
    times_rotate(u, x, c);
    times_rotate(v, x, s);
    times_plus(x, u.spec_times(c), v.spec_times(s));
    assert(uxc.spec_plus(vxs) == x.spec_times(x));
    times_negated(u, ys);
    times_rotate(u, y, s);
    times_rotate(v, y, c);
    times_negated(y, us);
    plus_swap(un, vyc);
    times_plus(y, v.spec_times(c), us.spec_negated());
    assert(un.spec_plus(vyc) == y.spec_times(y));
}

proof fn lemma_sum_of_parts<T: Scalar>(a: T, k: T, b: T)
    requires
        exact::<T>(),
    ensures
        a.spec_plus(k.spec_negated()).spec_plus(b.spec_plus(k)) == a.spec_plus(b),
{
    plus_pairs(a, k.spec_negated(), b, k);
    plus_negated(k);
    plus_swap(k, k.spec_negated());
    plus_zero(a.spec_plus(b));
}

} // verus!
