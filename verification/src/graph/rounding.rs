//! The masked loss in arithmetic that rounds: how far it can be from the mean of the rows that
//! count.
use crate::data::fim::IGNORE_INDEX;
use crate::graph::host::{
    cross_entropy_host_made, cross_entropy_masked_host_made, data_of, normalizer, shape_of,
    valid_targets,
};
use crate::graph::host_laws::{
    ignored_rows_have_no_influence, is_batch, lemma_kept_loss, lemma_kept_sizes,
    lemma_valid_at_most, masked_batch,
};
use crate::graph::ops::reduction::{loss_sum, row_loss};
use crate::graph::Graph;
use crate::scalar::Scalar;
use vstd::prelude::*;

verus! {

/// How large a number is.
pub open spec fn size(x: real) -> real {
    if x < 0real {
        0real - x
    } else {
        x
    }
}

/// `x` is `y` but for a relative error of at most `u`.
pub open spec fn near(x: real, y: real, u: real) -> bool {
    size(x - y) <= u * size(y)
}

/// A sum of two numbers is rounded.
pub open spec fn plus_rounds<T: Scalar>(value: spec_fn(T) -> real, u: real, a: T, b: T) -> bool {
    near(value(a.spec_plus(b)), value(a) + value(b), u)
}

/// A product of two numbers is rounded.
pub open spec fn times_rounds<T: Scalar>(value: spec_fn(T) -> real, u: real, a: T, b: T) -> bool {
    near(value(a.spec_times(b)), value(a) * value(b), u)
}

/// A quotient of two numbers is rounded.
pub open spec fn over_rounds<T: Scalar>(value: spec_fn(T) -> real, u: real, a: T, b: T) -> bool {
    near(value(a.spec_over(b)), value(a) / value(b), u)
}

/// How far `n` roundings can enlarge a number.
pub open spec fn grown(u: real, n: nat) -> real
    decreases n,
{
    if n == 0 {
        1real
    } else {
        (1real + u) * grown(u, (n - 1) as nat)
    }
}

/// Rows of logits with a class each.
pub struct Rows<T> {
    pub logits: Seq<T>,
    pub classes: Seq<usize>,
    /// How many classes there are.
    pub width: int,
}

impl<T: Scalar> Rows<T> {
    pub open spec fn count(self) -> nat {
        self.classes.len()
    }

    /// The loss of a row.
    pub open spec fn loss(self, r: int) -> T {
        row_loss(self.logits, self.classes, self.count() as int, self.width, r)
    }

    /// The losses of the first `n` rows, each times `weight` where there is one.
    pub open spec fn sum(self, weight: Option<T>, n: nat) -> T {
        loss_sum(self.logits, self.classes, self.count() as int, self.width, weight, n)
    }

    /// The number of rows, as a number to divide by.
    pub open spec fn divisor(self) -> T {
        T::spec_from_count(self.count() as usize)
    }

    /// One part of that number.
    pub open spec fn weight(self) -> T {
        T::spec_one().spec_over(self.divisor())
    }

    /// The losses of the first `n` rows, without rounding.
    pub open spec fn total(self, value: spec_fn(T) -> real, n: nat) -> real
        decreases n,
    {
        if n == 0 {
            0real
        } else {
            self.total(value, (n - 1) as nat) + value(self.loss(n - 1))
        }
    }

    /// How large the losses of the first `n` rows are together.
    pub open spec fn extent(self, value: spec_fn(T) -> real, n: nat) -> real
        decreases n,
    {
        if n == 0 {
            0real
        } else {
            self.extent(value, (n - 1) as nat) + size(value(self.loss(n - 1)))
        }
    }

    /// No target is to be ignored.
    pub open spec fn all_count(self) -> bool {
        forall|r: int| 0 <= r < self.count() ==> #[trigger] self.classes[r] != IGNORE_INDEX
    }

    /// The operations that the loss of row `r` goes through are rounded.
    pub open spec fn row_rounds(self, value: spec_fn(T) -> real, u: real, r: int) -> bool {
        let l = self.loss(r);
        let w = self.weight();
        &&& times_rounds(value, u, l, w)
        &&& plus_rounds(value, u, self.sum(Some(w), r as nat), l.spec_times(w))
        &&& plus_rounds(value, u, self.sum(None, r as nat), l)
    }

    /// `value` gives the numbers that losses are computed with, and every operation that their mean
    /// and their weighted sum take is rounded, with a relative error of at most `u`.
    pub open spec fn rounds(self, value: spec_fn(T) -> real, u: real) -> bool {
        &&& 0real <= u
        &&& value(T::spec_zero()) == 0real
        &&& value(T::spec_one()) == 1real
        &&& value(self.divisor()) > 0real
        &&& over_rounds(value, u, T::spec_one(), self.divisor())
        &&& over_rounds(value, u, self.sum(None, self.count()), self.divisor())
        &&& forall|r: int| 0 <= r < self.count() ==> #[trigger] self.row_rounds(value, u, r)
    }
}

/// How far the weighted sum of the losses of some rows can be from their mean: twice what two
/// roundings more than there are rows make of the mean size of a loss.
pub open spec fn rounding_bound<T: Scalar>(value: spec_fn(T) -> real, u: real, s: Rows<T>) -> real {
    2real * (grown(u, s.count() + 2) - 1real) * (s.extent(value, s.count()) / value(
        s.divisor(),
    ))
}

proof fn lemma_grown(u: real, n: nat)
    requires
        0real <= u,
    ensures
        grown(u, n) >= 1real,
        grown(u, n + 1) >= grown(u, n),
        grown(u, n + 1) == (1real + u) * grown(u, n),
    decreases n,
{
    if n > 0 {
        lemma_grown(u, (n - 1) as nat);
    }
    let g = grown(u, n);
    assert((1real + u) * g >= g) by (nonlinear_arith)
        requires
            0real <= u,
            g >= 1real,
    ;
}

proof fn lemma_grown_further(u: real, n: nat, m: nat)
    requires
        0real <= u,
        n <= m,
    ensures
        grown(u, n) <= grown(u, m),
    decreases m,
{
    if n < m {
        lemma_grown_further(u, n, (m - 1) as nat);
        lemma_grown(u, (m - 1) as nat);
    }
}

/// One more term in a rounded sum.
proof fn lemma_sum_step(
    t: real,
    s: real,
    p: real,
    x: real,
    y: real,
    a: real,
    b: real,
    g: real,
    u: real,
)
    requires
        0real <= u,
        1real <= g,
        near(t, s + p, u),
        size(s - x) <= (g - 1real) * a,
        size(p - y) <= (g - 1real) * b,
        size(x) <= a,
        size(y) <= b,
    ensures
        size(t - (x + y)) <= ((1real + u) * g - 1real) * (a + b),
        size(x + y) <= a + b,
{
    let e = g - 1real;
    let z = a + b;
    assert(e * z == e * a + e * b) by (nonlinear_arith)
        requires
            z == a + b,
    ;
    assert(size(s + p - (x + y)) <= e * z);
    assert(size(s + p) <= z + e * z);
    assert(z + e * z == g * z) by (nonlinear_arith)
        requires
            e == g - 1real,
    ;
    let q = size(s + p);
    assert(u * q <= u * (g * z)) by (nonlinear_arith)
        requires
            0real <= u,
            q <= g * z,
    ;
    assert(u * (g * z) + e * z == ((1real + u) * g - 1real) * z) by (nonlinear_arith)
        requires
            e == g - 1real,
    ;
}

/// A loss times a rounded weight.
proof fn lemma_weighted(p: real, x: real, w: real, k: real, u: real)
    requires
        0real <= u,
        0real <= k,
        near(w, k, u),
        near(p, x * w, u),
    ensures
        size(p - x * k) <= (grown(u, 2) - 1real) * (size(x) * k),
        size(x * k) == size(x) * k,
{
    reveal_with_fuel(grown, 3);
    let a = size(x);
    let e = w - k;
    assert(size(x * k) == a * k && size(x * w) == a * size(w) && size(x * e) == a * size(e))
        by (nonlinear_arith)
        requires
            0real <= k,
            a == (if x < 0real {
                0real - x
            } else {
                x
            }),
    ;
    assert(x * w - x * k == x * e) by (nonlinear_arith)
        requires
            e == w - k,
    ;
    assert(size(w) <= k + u * k);
    let d = size(e);
    let v = size(w);
    assert(a * d <= a * (u * k)) by (nonlinear_arith)
        requires
            0real <= a,
            d <= u * k,
    ;
    assert(u * (a * v) <= u * (a * (k + u * k))) by (nonlinear_arith)
        requires
            0real <= a,
            0real <= u,
            v <= k + u * k,
    ;
    assert(a * (u * k) + u * (a * (k + u * k)) == ((1real + u) * ((1real + u) * 1real)
        - 1real) * (a * k)) by (nonlinear_arith);
}

/// The sum of the losses, without and with weights, before and after rounding.
proof fn lemma_sums<T: Scalar>(value: spec_fn(T) -> real, u: real, s: Rows<T>, n: nat)
    requires
        s.rounds(value, u),
        s.all_count(),
        n <= s.count(),
    ensures
        ({
            let k = 1real / value(s.divisor());
            let (x, a) = (s.total(value, n), s.extent(value, n));
            &&& size(x) <= a
            &&& size(value(s.sum(None, n)) - x) <= (grown(u, n) - 1real) * a
            &&& size(value(s.sum(Some(s.weight()), n)) - x * k) <= (grown(u, n + 2) - 1real) * (
            a * k)
        }),
    decreases n,
{
    let d = value(s.divisor());
    let k = 1real / d;
    assert(0real < k) by (nonlinear_arith)
        requires
            d > 0real,
            k == 1real / d,
    ;
    if n == 0 {
        lemma_grown(u, 0);
        lemma_grown(u, 1);
        assert(0real * k == 0real) by (nonlinear_arith);
        let (g, h) = (grown(u, 0), grown(u, 2));
        assert((g - 1real) * 0real == 0real) by (nonlinear_arith);
        assert((h - 1real) * 0real == 0real) by (nonlinear_arith);
    } else {
        let m = (n - 1) as nat;
        lemma_sums(value, u, s, m);
        assert(s.row_rounds(value, u, n - 1));
        assert(s.classes[n - 1] != IGNORE_INDEX);
        let l = s.loss(n - 1);
        let w = s.weight();
        let y = value(l);
        let (x, a) = (s.total(value, m), s.extent(value, m));
        let b = size(y);
        lemma_grown(u, m);
        lemma_grown(u, m + 1);
        lemma_grown(u, m + 2);
        let g = grown(u, m);
        assert(0real <= (g - 1real) * b) by (nonlinear_arith)
            requires
                g >= 1real,
                b >= 0real,
        ;
        lemma_sum_step(
            value(s.sum(None, n)),
            value(s.sum(None, m)),
            y,
            x,
            y,
            a,
            b,
            g,
            u,
        );
        let p = value(l.spec_times(w));
        let h = grown(u, m + 2);
        lemma_weighted(p, y, value(w), k, u);
        lemma_grown_further(u, 2, m + 2);
        let two = grown(u, 2);
        let bk = b * k;
        assert(0real <= bk && (two - 1real) * bk <= (h - 1real) * bk)
            by (nonlinear_arith)
            requires
                two <= h,
                b >= 0real,
                0real < k,
                bk == b * k,
        ;
        assert(size(x * k) <= a * k) by (nonlinear_arith)
            requires
                size(x) <= a,
                0real < k,
        ;
        lemma_sum_step(
            value(s.sum(Some(w), n)),
            value(s.sum(Some(w), m)),
            p,
            x * k,
            y * k,
            a * k,
            bk,
            h,
            u,
        );
        assert(x * k + y * k == (x + y) * k && a * k + b * k == (a + b) * k) by (nonlinear_arith);
    }
}

proof fn lemma_weighted_is_mean<T: Scalar>(value: spec_fn(T) -> real, u: real, s: Rows<T>)
    requires
        s.rounds(value, u),
        s.all_count(),
    ensures
        size(
            value(s.sum(Some(s.weight()), s.count())) - value(
                s.sum(None, s.count()).spec_over(s.divisor()),
            ),
        ) <= rounding_bound(value, u, s),
        0real <= rounding_bound(value, u, s),
{
    let n = s.count();
    let d = value(s.divisor());
    let k = 1real / d;
    lemma_sums(value, u, s, n);
    lemma_grown(u, n);
    lemma_grown(u, n + 1);
    let (x, a) = (s.total(value, n), s.extent(value, n));
    let t = value(s.sum(None, n));
    let m = value(s.sum(None, n).spec_over(s.divisor()));
    let g = grown(u, n);
    let h = grown(u, n + 2);
    assert(0real < k && t / d == t * k && a / d == a * k) by (nonlinear_arith)
        requires
            d > 0real,
            k == 1real / d,
    ;
    assert(size(t * k - x * k) <= (g - 1real) * (a * k)) by (nonlinear_arith)
        requires
            size(t - x) <= (g - 1real) * a,
            0real < k,
    ;
    assert(size(x * k) <= a * k) by (nonlinear_arith)
        requires
            size(x) <= a,
            0real < k,
    ;
    let ak = a * k;
    assert((g - 1real) * 0real == 0real) by (nonlinear_arith);
    lemma_sum_step(m, t * k, 0real, x * k, 0real, ak, 0real, g, u);
    let g1 = grown(u, n + 1);
    assert((g1 - 1real) * ak <= (h - 1real) * ak && 0real <= (h - 1real) * ak)
        by (nonlinear_arith)
        requires
            1real <= g1 <= h,
            0real <= ak,
    ;
    assert(2real * (h - 1real) * ak == (h - 1real) * ak + (h - 1real) * ak)
        by (nonlinear_arith);
}

/// The rows of a batch whose targets count.
pub open spec fn kept<T: Scalar>(g: Graph<T>, logits_id: usize, targets: Seq<usize>) -> Rows<T> {
    let (logits, classes) = masked_batch(g, logits_id, targets);
    Rows { logits, classes, width: shape_of(g, logits_id)[1] as int }
}

/// Up to rounding, the masked loss is the mean loss of the rows whose targets count: in arithmetic
/// whose operations have a relative error of at most `u`, it is no further than
/// [`rounding_bound`] from what `cross_entropy` gives for these rows alone.
pub proof fn masked_loss_is_mean_up_to_rounding<T: Scalar>(
    value: spec_fn(T) -> real,
    u: real,
    was: Graph<T>,
    now: Graph<T>,
    id: usize,
    logits_id: usize,
    targets: Seq<usize>,
    sub: Graph<T>,
    sub_now: Graph<T>,
    sub_out: usize,
    sub_id: usize,
)
    requires
        kept(was, logits_id, targets).rounds(value, u),
        is_batch(was, logits_id, targets),
        0 < valid_targets(targets),
        cross_entropy_masked_host_made(was, now, id, logits_id, targets),
        data_of(sub, sub_id) == masked_batch(was, logits_id, targets).0,
        shape_of(sub, sub_id) == seq![
            valid_targets(targets) as usize,
            shape_of(was, logits_id)[1],
        ],
        cross_entropy_host_made(
            sub,
            sub_now,
            sub_out,
            sub_id,
            masked_batch(was, logits_id, targets).1,
        ),
    ensures
        data_of(now, id).len() == 1,
        data_of(sub_now, sub_out).len() == 1,
        size(value(data_of(now, id)[0]) - value(data_of(sub_now, sub_out)[0])) <= rounding_bound(
            value,
            u,
            kept(was, logits_id, targets),
        ),
{
    let s = kept(was, logits_id, targets);
    let shape = shape_of(was, logits_id);
    let logits = data_of(was, logits_id);
    let n = valid_targets(targets);
    lemma_kept_sizes(logits, targets, shape[1] as int, shape[0] as nat);
    assert(targets.take(shape[0] as int) =~= targets);
    assert(s.all_count());
    lemma_weighted_is_mean(value, u, s);
    assert(s.weight() == normalizer::<T>(targets));
    if n < targets.len() {
        ignored_rows_have_no_influence(was, now, id, logits_id, targets);
    } else {
        lemma_kept_loss(
            logits,
            targets,
            shape[0] as int,
            shape[1] as int,
            None,
            shape[0] as nat,
        );
        lemma_valid_at_most(targets);
    }
}

} // verus!
