//! Positions in nested loops and in broadcast tensors.
use crate::tensor::{
    all_positive, broadcast_strides, lemma_product_end, lemma_product_step, lemma_product_suffix,
    lemma_unravel_in_range, product, ravel, ravel_from, shape_fits, strides_of, unravel,
};
use vstd::prelude::*;

verus! {

/// Row `r` of `m` and column `c` of `n` lie at a position below `m * n`.
pub proof fn lemma_cell(r: int, m: int, c: int, n: int)
    requires
        0 <= r < m,
        0 <= c < n,
    ensures
        0 <= r * n + c < m * n,
        0 <= r * n,
        (r + 1) * n <= m * n,
        (r * n + c) / n == r,
        (r * n + c) % n == c,
{
    assert(0 <= r * n + c < m * n && 0 <= r * n && (r + 1) * n <= m * n) by (nonlinear_arith)
        requires
            0 <= r < m,
            0 <= c < n,
    ;
    vstd::arithmetic::div_mod::lemma_fundamental_div_mod_converse(r * n + c, n, r, c);
}

/// Position `o` of a table of `m` rows and `n` columns lies in a row and a column of it.
pub proof fn lemma_uncell(o: int, m: int, n: int)
    requires
        0 <= o < m * n,
        0 <= m,
        0 <= n,
    ensures
        n > 0,
        m > 0,
        0 <= o / n < m,
        0 <= o % n < n,
        o == (o / n) * n + o % n,
{
    assert(n > 0 && m > 0) by (nonlinear_arith)
        requires
            0 <= o < m * n,
            0 <= m,
            0 <= n,
    ;
    vstd::arithmetic::div_mod::lemma_fundamental_div_mod(o, n);
    assert(n * (o / n) == (o / n) * n) by (nonlinear_arith);
    assert(0 <= o / n) by (nonlinear_arith)
        requires
            0 <= o,
            n > 0,
    ;
    assert(o / n < m) by (nonlinear_arith)
        requires
            o == (o / n) * n + o % n,
            0 <= o % n,
            o < m * n,
            n > 0,
    ;
}

/// A product of three sizes does not depend on how it is taken together.
pub proof fn lemma_mul3(a: int, b: int, c: int)
    ensures
        a * b * c == a * (b * c),
        a * b == b * a,
{
    assert(a * b * c == a * (b * c)) by (nonlinear_arith);
    assert(a * b == b * a) by (nonlinear_arith);
}

/// Where in a tensor of shape `shape` the element lies that is repeated to position `i` of `out`.
pub open spec fn broadcast_index(shape: Seq<usize>, out: Seq<usize>, i: int) -> int {
    ravel(unravel(i, out), broadcast_strides(shape, strides_of(shape), out)) as int
}

proof fn lemma_broadcast_from(shape: Seq<usize>, out: Seq<usize>, flat: int, i: int)
    requires
        shape.len() <= out.len(),
        all_positive(shape),
        all_positive(out),
        product(shape) <= usize::MAX,
        0 <= i <= shape.len(),
    ensures
        ravel_from(
            unravel(flat, out),
            broadcast_strides(shape, strides_of(shape), out),
            out.len() - shape.len() + i,
        ) < product(shape.skip(i)),
    decreases shape.len() - i,
{
    lemma_product_suffix(shape, i);
    let pad = out.len() - shape.len();
    if i == shape.len() {
        lemma_product_end(shape);
    } else {
        lemma_broadcast_from(shape, out, flat, i + 1);
        lemma_product_step(shape, i);
        lemma_product_suffix(shape, i + 1);
        lemma_unravel_in_range(flat, out, pad + i);
        let p = product(shape.skip(i + 1)) as int;
        let d = shape[i] as int;
        let x = unravel(flat, out)[pad + i] as int;
        let r = ravel_from(
            unravel(flat, out),
            broadcast_strides(shape, strides_of(shape), out),
            pad + i + 1,
        ) as int;
        let s = broadcast_strides(shape, strides_of(shape), out)[pad + i] as int;
        assert(strides_of(shape)[i] == p);
        if shape[i] == out[pad + i] {
            assert(s == p);
            assert(x * p + r < d * p) by (nonlinear_arith)
                requires
                    0 <= x,
                    x + 1 <= d,
                    0 <= r < p,
            ;
        } else {
            assert(s == 0);
            assert(shape[i] > 0);
            assert(x * 0 + r < d * p) by (nonlinear_arith)
                requires
                    1 <= d,
                    0 <= r < p,
            ;
        }
    }
}

proof fn lemma_broadcast_pad(shape: Seq<usize>, out: Seq<usize>, flat: int, i: int)
    requires
        shape.len() <= out.len(),
        0 <= i <= out.len() - shape.len(),
    ensures
        ravel_from(unravel(flat, out), broadcast_strides(shape, strides_of(shape), out), i) == ravel_from(
            unravel(flat, out),
            broadcast_strides(shape, strides_of(shape), out),
            out.len() - shape.len(),
        ),
    decreases out.len() - shape.len() - i,
{
    if i < out.len() - shape.len() {
        lemma_broadcast_pad(shape, out, flat, i + 1);
        let x = unravel(flat, out)[i] as nat;
        assert(x * 0 == 0) by (nonlinear_arith);
    }
}

/// A repeated element lies within its tensor.
pub proof fn broadcast_index_in_range(shape: Seq<usize>, out: Seq<usize>, i: int)
    requires
        shape.len() <= out.len(),
        all_positive(shape),
        all_positive(out),
        product(shape) <= usize::MAX,
    ensures
        0 <= broadcast_index(shape, out, i) < product(shape),
{
    lemma_broadcast_pad(shape, out, i, 0);
    lemma_broadcast_from(shape, out, i, 0);
    lemma_product_end(shape);
}

/// A product ends with its last factor.
pub proof fn lemma_product_last(s: Seq<usize>)
    requires
        s.len() > 0,
    ensures
        product(s) == product(s.drop_last()) * s.last(),
    decreases s.len(),
{
    if s.len() == 1 {
        assert(s.drop_last() =~= Seq::empty());
        assert(s.skip(1) =~= Seq::empty());
        assert(product(Seq::<usize>::empty()) == 1);
        let x = s[0] as int;
        assert(x * 1 == 1 * x) by (nonlinear_arith);
    } else {
        lemma_product_last(s.skip(1));
        assert(s.skip(1).drop_last() =~= s.drop_last().skip(1));
        assert(s.skip(1).last() == s.last());
        let (x, p, l) = (s[0] as int, product(s.drop_last().skip(1)) as int, s.last() as int);
        assert(x * (p * l) == (x * p) * l) by (nonlinear_arith);
    }
}

/// The elements of a matrix.
pub proof fn lemma_product2(a: usize, b: usize)
    ensures
        product(seq![a, b]) == a * b,
        a * b <= usize::MAX ==> shape_fits(seq![a, b]),
{
    let s = seq![a, b];
    lemma_product_last(s);
    assert(s.drop_last() =~= seq![a]);
    lemma_product1(a);
    if a * b <= usize::MAX {
        assert forall|i: int| 0 <= i <= 2 implies product(#[trigger] s.skip(i)) <= usize::MAX by {
            if i == 0 {
                assert(s.skip(0) =~= s);
            } else if i == 1 {
                assert(s.skip(1) =~= seq![b]);
                lemma_product1(b);
            } else {
                assert(s.skip(2) =~= Seq::empty());
            }
        }
    }
}

proof fn lemma_product1(a: usize)
    ensures
        product(seq![a]) == a,
{
    let n = a as nat;
    let rest = seq![a].skip(1);
    assert(rest.len() == 0);
    assert(product(rest) == 1);
    assert(seq![a][0] == a);
    assert(product(seq![a]) == n * product(rest));
    assert(n * 1nat == n) by (nonlinear_arith);
}

/// A dimension in front keeps a shape countable.
pub proof fn lemma_fits_front(a: usize, s: Seq<usize>)
    requires
        shape_fits(s),
        a * product(s) <= usize::MAX,
    ensures
        shape_fits(seq![a] + s),
        product(seq![a] + s) == a * product(s),
{
    let t = seq![a] + s;
    assert(t.skip(1) =~= s);
    assert forall|i: int| 0 <= i <= t.len() implies product(#[trigger] t.skip(i)) <= usize::MAX by {
        if i == 0 {
            assert(t.skip(0) =~= t);
        } else {
            assert(t.skip(i) =~= s.skip(i - 1));
        }
    }
}

/// The elements of a tensor of three dimensions.
pub proof fn lemma_product3(a: usize, b: usize, c: usize)
    ensures
        product(seq![a, b, c]) == a * b * c,
        a * b * c <= usize::MAX && b * c <= usize::MAX ==> shape_fits(seq![a, b, c]),
{
    let s = seq![a, b, c];
    lemma_product_last(s);
    assert(s.drop_last() =~= seq![a, b]);
    lemma_product2(a, b);
    lemma_product2(b, c);
    lemma_mul3(a as int, b as int, c as int);
    if a * b * c <= usize::MAX && b * c <= usize::MAX {
        lemma_fits_front(a, seq![b, c]);
        assert(seq![a] + seq![b, c] =~= s);
    }
}

/// The elements of a tensor of four dimensions.
pub proof fn lemma_product4(a: usize, b: usize, c: usize, d: usize)
    ensures
        product(seq![a, b, c, d]) == a * b * c * d,
        a * b * c * d == a * b * (c * d),
        shape_fits(seq![b, c, d]) && a * b * c * d <= usize::MAX ==> shape_fits(seq![a, b, c, d]),
{
    let s = seq![a, b, c, d];
    lemma_product_last(s);
    assert(s.drop_last() =~= seq![a, b, c]);
    lemma_product3(a, b, c);
    lemma_product3(b, c, d);
    assert(a * b * c * d == a * b * (c * d) && a * b * c * d
        == a * (b * c * d)) by (nonlinear_arith);
    if shape_fits(seq![b, c, d]) && a * b * c * d <= usize::MAX {
        lemma_fits_front(a, seq![b, c, d]);
        assert(seq![a] + seq![b, c, d] =~= s);
    }
}

/// Numbers and strides exchanged alike at two places, from `i` on: the sums differ by the two
/// terms as long as only one of the places is counted.
proof fn lemma_swapped_ravel(
    x: Seq<usize>,
    s: Seq<usize>,
    y: Seq<usize>,
    t: Seq<usize>,
    lo: int,
    hi: int,
    i: int,
)
    requires
        x.len() == s.len(),
        y.len() == x.len(),
        t.len() == x.len(),
        0 <= lo <= hi < x.len(),
        0 <= i <= x.len(),
        y[lo] == x[hi] && t[lo] == s[hi],
        y[hi] == x[lo] && t[hi] == s[lo],
        forall|j: int| 0 <= j < x.len() && j != lo && j != hi ==> #[trigger] y[j] == x[j] && t[j] == s[j],
    ensures
        i > hi || i <= lo ==> ravel_from(y, t, i) == ravel_from(x, s, i),
        lo < i <= hi ==> ravel_from(y, t, i) + x[hi] as nat * s[hi] as nat == ravel_from(x, s, i)
            + x[lo] as nat * s[lo] as nat,
    decreases x.len() - i,
{
    if i < x.len() {
        lemma_swapped_ravel(x, s, y, t, lo, hi, i + 1);
        if i != lo && i != hi {
            assert(y[i] == x[i]);
        }
    }
}

/// The same for the products of a shape.
proof fn lemma_swapped_product(x: Seq<usize>, y: Seq<usize>, lo: int, hi: int, i: int)
    requires
        y.len() == x.len(),
        0 <= lo <= hi < x.len(),
        0 <= i <= x.len(),
        y[lo] == x[hi],
        y[hi] == x[lo],
        forall|j: int| 0 <= j < x.len() && j != lo && j != hi ==> #[trigger] y[j] == x[j],
    ensures
        i > hi || i <= lo ==> product(y.skip(i)) == product(x.skip(i)),
        lo < i <= hi ==> product(y.skip(i)) * x[hi] == product(x.skip(i)) * x[lo],
    decreases x.len() - i,
{
    if i == x.len() {
        assert(y.skip(i) =~= Seq::empty());
        assert(x.skip(i) =~= Seq::empty());
    } else {
        lemma_swapped_product(x, y, lo, hi, i + 1);
        lemma_product_step(x, i);
        lemma_product_step(y, i);
        let (p, q) = (product(x.skip(i + 1)) as int, product(y.skip(i + 1)) as int);
        let (a, b) = (x[lo] as int, x[hi] as int);
        let (u, v) = (x[i] as int, y[i] as int);
        if i > hi {
            assert(u == v);
        } else if i == hi && lo < hi {
            assert(p == q && v == a && u == b);
            assert((v * q) * b == (u * p) * a) by (nonlinear_arith)
                requires
                    p == q,
                    v == a,
                    u == b,
            ;
        } else if i == hi {
            assert(u == v);
        } else if lo < i {
            assert(y[i] == x[i]);
            assert((v * q) * b == (u * p) * a) by (nonlinear_arith)
                requires
                    q * b == p * a,
                    u == v,
            ;
        } else if i == lo {
            assert(v == b && u == a);
            assert(v * q == u * p) by (nonlinear_arith)
                requires
                    q * b == p * a,
                    v == b,
                    u == a,
            ;
        } else {
            assert(y[i] == x[i]);
        }
    }
}

/// A shape with two dimensions exchanged has as many elements, and every position of it shows an
/// element of the tensor through the strides exchanged alike.
pub proof fn swapped_view_in_range(
    shape: Seq<usize>,
    strides: Seq<usize>,
    out_shape: Seq<usize>,
    out_strides: Seq<usize>,
    d0: int,
    d1: int,
)
    requires
        0 <= d0 < shape.len(),
        0 <= d1 < shape.len(),
        shape_fits(shape),
        strides == strides_of(shape),
        out_shape == shape.update(d0, shape[d1]).update(d1, shape[d0]),
        out_strides == strides.update(d0, strides[d1]).update(d1, strides[d0]),
    ensures
        product(out_shape) == product(shape),
        product(shape) > 0 ==> all_positive(out_shape),
        forall|i: int|
            product(shape) > 0 ==> (#[trigger] ravel(unravel(i, out_shape), out_strides)) < product(
                shape,
            ),
{
    let (lo, hi) = if d0 <= d1 {
        (d0, d1)
    } else {
        (d1, d0)
    };
    lemma_swapped_product(shape, out_shape, lo, hi, 0);
    assert(shape.skip(0) =~= shape);
    assert(out_shape.skip(0) =~= out_shape);
    if product(shape) > 0 {
        crate::tensor::lemma_product_positive(shape);
        assert(all_positive(out_shape)) by {
            assert forall|j: int| 0 <= j < out_shape.len() implies #[trigger] out_shape[j] > 0 by {
                assert(shape[j] > 0);
                assert(shape[d0] > 0);
                assert(shape[d1] > 0);
            }
        }
        assert forall|i: int| (#[trigger] ravel(unravel(i, out_shape), out_strides)) < product(
            shape,
        ) by {
            let y = unravel(i, out_shape);
            let x = y.update(d0, y[d1]).update(d1, y[d0]);
            assert forall|j: int| 0 <= j < x.len() implies #[trigger] x[j] < shape[j] by {
                lemma_unravel_in_range(i, out_shape, j);
                lemma_unravel_in_range(i, out_shape, d0);
                lemma_unravel_in_range(i, out_shape, d1);
            }
            lemma_swapped_ravel(x, strides, y, out_strides, lo, hi, 0);
            crate::tensor::ravel_in_range(x, shape);
        }
    }
}

} // verus!
