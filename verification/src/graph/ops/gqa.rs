//! Repetition of key and value heads on the host.
use crate::graph::index::{lemma_cell, lemma_uncell};
use crate::scalar::Scalar;
use vstd::prelude::*;

verus! {

/// The sizes of a repetition: `batch` times `kv` heads of `seq` rows of `dim` elements, each head
/// `repeats` times.
#[derive(Clone, Copy, Debug, PartialEq, Eq, Structural)]
pub struct RepeatDims {
    pub batch: usize,
    pub kv: usize,
    pub repeats: usize,
    pub seq: usize,
    pub dim: usize,
}

impl RepeatDims {
    /// The number of elements of a head.
    pub open spec fn head(self) -> int {
        self.seq * self.dim
    }

    pub open spec fn in_len(self) -> int {
        self.batch * self.kv * (self.seq * self.dim)
    }

    pub open spec fn out_len(self) -> int {
        self.batch * (self.kv * self.repeats) * (self.seq * self.dim)
    }

    pub open spec fn fits(self) -> bool {
        &&& self.in_len() <= usize::MAX
        &&& self.out_len() <= usize::MAX
        &&& self.kv * self.repeats <= usize::MAX
        &&& self.seq * self.dim <= usize::MAX
    }

    /// Where the element repeated to position `o` lies: heads follow each other in groups of
    /// `repeats`.
    pub open spec fn source(self, o: int) -> int {
        (o / self.head() / self.repeats as int) * self.head() + o % self.head()
    }

    /// Where repetition `r` of element `i` lies.
    pub open spec fn copy_at(self, i: int, r: int) -> int {
        ((i / self.head()) * self.repeats + r) * self.head() + i % self.head()
    }
}

pub proof fn lemma_source(d: RepeatDims, o: int)
    requires
        d.fits(),
        0 <= o < d.out_len(),
    ensures
        d.head() > 0,
        d.repeats > 0,
        0 <= d.source(o) < d.in_len(),
        0 <= (o / d.head() / d.repeats as int) * d.head(),
{
    let heads = d.batch * (d.kv * d.repeats);
    assert(0 <= heads && heads == (d.batch * d.kv) * d.repeats && 0 <= d.batch * d.kv && 0 <= d.seq
        * d.dim) by (nonlinear_arith)
        requires
            heads == d.batch * (d.kv * d.repeats),
            d.batch >= 0,
            d.kv >= 0,
            d.repeats >= 0,
            d.seq >= 0,
            d.dim >= 0,
    ;
    lemma_uncell(o, heads, d.head());
    lemma_uncell(o / d.head(), d.batch * d.kv, d.repeats as int);
    lemma_cell(o / d.head() / d.repeats as int, d.batch * d.kv, o % d.head(), d.head());
}

pub proof fn lemma_copy_at(d: RepeatDims, i: int, r: int)
    requires
        d.fits(),
        0 <= i < d.in_len(),
        0 <= r < d.repeats,
    ensures
        d.head() > 0,
        0 <= d.copy_at(i, r) < d.out_len(),
        d.source(d.copy_at(i, r)) == i,
        0 <= (i / d.head()) * d.repeats,
        0 <= ((i / d.head()) * d.repeats + r) * d.head(),
        (i / d.head()) * d.repeats + r <= ((i / d.head()) * d.repeats + r) * d.head(),
{
    let heads = d.batch * (d.kv * d.repeats);
    assert(heads == (d.batch * d.kv) * d.repeats && 0 <= d.batch * d.kv && 0 <= d.seq * d.dim)
        by (nonlinear_arith)
        requires
            heads == d.batch * (d.kv * d.repeats),
            d.batch >= 0,
            d.kv >= 0,
            d.seq >= 0,
            d.dim >= 0,
    ;
    lemma_uncell(i, d.batch * d.kv, d.head());
    let k = i / d.head();
    lemma_cell(k, d.batch * d.kv, r, d.repeats as int);
    let q = k * d.repeats + r;
    lemma_cell(q, heads, i % d.head(), d.head());
    let h = d.head();
    assert(q <= q * h) by (nonlinear_arith)
        requires
            q >= 0,
            h >= 1,
    ;
}

/// Every repeated element comes from the element whose repetition it is.
pub proof fn repetition_has_source(d: RepeatDims, i: int, r: int)
    requires
        d.fits(),
        0 <= i < d.in_len(),
        0 <= r < d.repeats,
    ensures
        0 <= d.copy_at(i, r) < d.out_len(),
        d.source(d.copy_at(i, r)) == i,
{
    lemma_copy_at(d, i, r);
}

/// The repeated heads.
pub open spec fn repeat_kv_out<T>(a: Seq<T>, d: RepeatDims) -> Seq<T> {
    Seq::new(d.out_len() as nat, |o: int| a[d.source(o)])
}

fn out_size(d: RepeatDims) -> (r: usize)
    requires
        d.fits(),
    ensures
        r == d.out_len(),
{
    let heads: usize = d.kv * d.repeats;
    let head: usize = d.seq * d.dim;
    if head == 0 {
        assert(d.batch * heads * 0 == 0) by (nonlinear_arith);
        return 0;
    }
    assert(d.batch * heads <= d.batch * heads * head) by (nonlinear_arith)
        requires
            head >= 1,
            d.batch >= 0,
            heads >= 0,
    ;
    d.batch * heads * head
}

/// Repeats the heads.
pub fn repeat_kv_forward<T: Scalar>(a: &Vec<T>, d: RepeatDims) -> (r: Vec<T>)
    requires
        d.fits(),
        a@.len() == d.in_len(),
    ensures
        r@ == repeat_kv_out(a@, d),
{
    let ghost goal = repeat_kv_out(a@, d);
    let n: usize = out_size(d);
    let head: usize = d.seq * d.dim;
    let mut r: Vec<T> = Vec::new();
    let mut o: usize = 0;
    while o < n
        invariant
            o <= n,
            n == d.out_len(),
            head == d.head(),
            d.fits(),
            a@.len() == d.in_len(),
            goal == repeat_kv_out(a@, d),
            r@ == goal.take(o as int),
        decreases n - o,
    {
        proof {
            lemma_source(d, o as int);
        }
        let x: T = a[(o / head / d.repeats) * head + o % head];
        assert(goal.take(o + 1) == goal.take(o as int).push(x));
        r.push(x);
        o += 1;
    }
    assert(goal.take(n as int) == goal);
    r
}

/// `g` with the gradients of the first `r` repetitions of element `i` added one after the other.
pub open spec fn repeats_added<T: Scalar>(
    d: RepeatDims,
    out_grad: Seq<T>,
    g: T,
    i: int,
    r: nat,
) -> T
    decreases r,
{
    if r == 0 {
        g
    } else {
        repeats_added(d, out_grad, g, i, (r - 1) as nat).spec_plus(out_grad[d.copy_at(i, r - 1)])
    }
}

/// The gradient of the heads: that of all repetitions, added up.
pub open spec fn repeat_kv_back<T: Scalar>(
    d: RepeatDims,
    out_grad: Seq<T>,
    grad: Seq<T>,
) -> Seq<T> {
    Seq::new(grad.len(), |i: int| repeats_added(d, out_grad, grad[i], i, d.repeats as nat))
}

/// Adds to the gradient of the heads.
pub fn repeat_kv_backward<T: Scalar>(d: RepeatDims, out_grad: &Vec<T>, grad: &mut Vec<T>)
    requires
        d.fits(),
        old(grad)@.len() == d.in_len(),
        out_grad@.len() == d.out_len(),
    ensures
        final(grad)@ == repeat_kv_back(d, out_grad@, old(grad)@),
{
    let ghost goal = repeat_kv_back(d, out_grad@, grad@);
    let n: usize = grad.len();
    let head: usize = d.seq * d.dim;
    let mut i: usize = 0;
    while i < n
        invariant
            i <= n,
            n == d.in_len(),
            head == d.head(),
            d.fits(),
            grad@.len() == n,
            old(grad)@.len() == n,
            out_grad@.len() == d.out_len(),
            goal == repeat_kv_back(d, out_grad@, old(grad)@),
            forall|x: int| 0 <= x < i ==> #[trigger] grad@[x] == goal[x],
            forall|x: int| i <= x < n ==> #[trigger] grad@[x] == old(grad)@[x],
        decreases n - i,
    {
        let mut x: T = grad[i];
        let mut r: usize = 0;
        while r < d.repeats
            invariant
                r <= d.repeats,
                i < n,
                n == d.in_len(),
                head == d.head(),
                d.fits(),
                out_grad@.len() == d.out_len(),
                x == repeats_added(d, out_grad@, old(grad)@[i as int], i as int, r as nat),
            decreases d.repeats - r,
        {
            proof {
                lemma_copy_at(d, i as int, r as int);
                assert(out_grad@.len() == out_grad.len());
            }
            x = x.plus(out_grad[((i / head) * d.repeats + r) * head + i % head]);
            r += 1;
        }
        grad.set(i, x);
        i += 1;
    }
    assert(grad@ =~= goal);
}

} // verus!
