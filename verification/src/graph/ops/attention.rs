//! Attention on the host in one pass.
use crate::graph::index::{lemma_cell, lemma_uncell};
use crate::graph::ops::reduction::{softmax_of, softmax_row};
use crate::scalar::Scalar;
use vstd::prelude::*;

verus! {

/// The sizes of an attention: `batch` times `m` queries and `n` keys and values of `d` elements.
#[derive(Clone, Copy, Debug, PartialEq, Eq, Structural)]
pub struct FlashDims {
    pub batch: usize,
    pub m: usize,
    pub n: usize,
    pub d: usize,
}

impl FlashDims {
    pub open spec fn fits(self, q: nat, k: nat, v: nat) -> bool {
        &&& q == self.batch * self.m * self.d
        &&& k == self.batch * self.n * self.d
        &&& v == self.batch * self.n * self.d
        &&& q <= usize::MAX
        &&& k <= usize::MAX
    }
}

/// The first `i` terms of the product of query row `r` and key row `c`.
pub open spec fn query_key<T: Scalar>(q: Seq<T>, k: Seq<T>, d: int, r: int, c: int, i: nat) -> T
    decreases i,
{
    if i == 0 {
        T::spec_zero()
    } else {
        query_key(q, k, d, r, c, (i - 1) as nat).spec_plus(
            q[r * d + i - 1].spec_times(k[c * d + i - 1]),
        )
    }
}

/// The scores of the keys of a batch for query row `r`. With `causal` set, keys behind the query
/// score lowest.
pub open spec fn scores<T: Scalar>(
    q: Seq<T>,
    k: Seq<T>,
    dims: FlashDims,
    scale: T,
    causal: bool,
    r: int,
) -> Seq<T> {
    let m = dims.m as int;
    Seq::new(
        dims.n as nat,
        |j: int|
            if causal && j > r % m {
                T::spec_lowest()
            } else {
                query_key(
                    q,
                    k,
                    dims.d as int,
                    r,
                    (r / m) * dims.n + j,
                    dims.d as nat,
                ).spec_times(scale)
            },
    )
}

/// The first `i` values of a batch weighted and summed, in column `c`.
pub open spec fn weighted<T: Scalar>(
    probs: Seq<T>,
    v: Seq<T>,
    dims: FlashDims,
    bb: int,
    c: int,
    i: nat,
) -> T
    decreases i,
{
    if i == 0 {
        T::spec_zero()
    } else {
        weighted(probs, v, dims, bb, c, (i - 1) as nat).spec_plus(
            probs[i - 1].spec_times(v[(bb * dims.n + i - 1) * dims.d + c]),
        )
    }
}

/// For every query the values weighted by the softmax of the scores.
pub open spec fn flash_out<T: Scalar>(
    q: Seq<T>,
    k: Seq<T>,
    v: Seq<T>,
    dims: FlashDims,
    scale: T,
    causal: bool,
) -> Seq<T> {
    let d = dims.d as int;
    Seq::new(
        q.len(),
        |o: int|
            weighted(
                softmax_row(scores(q, k, dims, scale, causal, o / d)),
                v,
                dims,
                (o / d) / dims.m as int,
                o % d,
                dims.n as nat,
            ),
    )
}

fn key_row(dims: FlashDims, bb: usize, j: usize, c: usize, Ghost(len): Ghost<nat>) -> (r: usize)
    requires
        bb < dims.batch,
        j < dims.n,
        c < dims.d,
        len == dims.batch * dims.n * dims.d,
        len <= usize::MAX,
    ensures
        r == (bb * dims.n + j) * dims.d + c,
        r < len,
{
    proof {
        lemma_cell(bb as int, dims.batch as int, j as int, dims.n as int);
        let x = bb * dims.n + j;
        lemma_cell(x, dims.batch * dims.n, c as int, dims.d as int);
        let d = dims.d as int;
        assert(x <= x * d) by (nonlinear_arith)
            requires
                x >= 0,
                d >= 1,
        ;
    }
    (bb * dims.n + j) * dims.d + c
}

fn scores_of<T: Scalar>(
    q: &Vec<T>,
    k: &Vec<T>,
    dims: FlashDims,
    scale: T,
    causal: bool,
    r: usize,
) -> (s: Vec<T>)
    requires
        dims.fits(q@.len(), k@.len(), k@.len()),
        r < dims.batch * dims.m,
    ensures
        s@ == scores(q@, k@, dims, scale, causal, r as int),
{
    proof {
        lemma_uncell(r as int, dims.batch as int, dims.m as int);
    }
    let bb: usize = r / dims.m;
    let i: usize = r % dims.m;
    let ghost goal = scores(q@, k@, dims, scale, causal, r as int);
    let mut s: Vec<T> = Vec::new();
    let mut j: usize = 0;
    while j < dims.n
        invariant
            j <= dims.n,
            dims.fits(q@.len(), k@.len(), k@.len()),
            r < dims.batch * dims.m,
            dims.m > 0,
            bb == r as int / dims.m as int,
            bb < dims.batch,
            i == r as int % dims.m as int,
            goal == scores(q@, k@, dims, scale, causal, r as int),
            s@ == goal.take(j as int),
        decreases dims.n - j,
    {
        let x: T = if causal && j > i {
            T::lowest()
        } else {
            let mut dot: T = T::zero();
            let mut c: usize = 0;
            while c < dims.d
                invariant
                    c <= dims.d,
                    j < dims.n,
                    dims.fits(q@.len(), k@.len(), k@.len()),
                    r < dims.batch * dims.m,
                    bb < dims.batch,
                    dot == query_key(
                        q@,
                        k@,
                        dims.d as int,
                        r as int,
                        bb * dims.n + j,
                        c as nat,
                    ),
                decreases dims.d - c,
            {
                proof {
                    lemma_cell(r as int, dims.batch * dims.m, c as int, dims.d as int);
                }
                let at: usize = key_row(dims, bb, j, c, Ghost(k@.len()));
                dot = dot.plus(q[r * dims.d + c].times(k[at]));
                c += 1;
            }
            dot.times(scale)
        };
        assert(goal[j as int] == x);
        assert(goal.take(j + 1) == goal.take(j as int).push(x));
        s.push(x);
        j += 1;
    }
    assert(goal.take(dims.n as int) == goal);
    s
}

fn weighted_of<T: Scalar>(
    probs: &Vec<T>,
    v: &Vec<T>,
    dims: FlashDims,
    bb: usize,
    c: usize,
) -> (r: T)
    requires
        probs@.len() == dims.n,
        v@.len() == dims.batch * dims.n * dims.d,
        bb < dims.batch,
        c < dims.d,
    ensures
        r == weighted(probs@, v@, dims, bb as int, c as int, dims.n as nat),
{
    let mut acc: T = T::zero();
    let mut j: usize = 0;
    while j < dims.n
        invariant
            j <= dims.n,
            probs@.len() == dims.n,
            v@.len() == dims.batch * dims.n * dims.d,
            bb < dims.batch,
            c < dims.d,
            acc == weighted(probs@, v@, dims, bb as int, c as int, j as nat),
        decreases dims.n - j,
    {
        assert(v@.len() == v.len());
        let at: usize = key_row(dims, bb, j, c, Ghost(v@.len()));
        acc = acc.plus(probs[j].times(v[at]));
        j += 1;
    }
    acc
}

/// Computes the attention.
pub fn flash_forward<T: Scalar>(
    q: &Vec<T>,
    k: &Vec<T>,
    v: &Vec<T>,
    dims: FlashDims,
    scale: T,
    causal: bool,
) -> (r: Vec<T>)
    requires
        dims.fits(q@.len(), k@.len(), v@.len()),
    ensures
        r@ == flash_out(q@, k@, v@, dims, scale, causal),
{
    let ghost goal = flash_out(q@, k@, v@, dims, scale, causal);
    let n: usize = q.len();
    let mut r: Vec<T> = Vec::new();
    let mut probs: Vec<T> = Vec::new();
    let mut o: usize = 0;
    proof {
        if n > 0 {
            assert(0 <= dims.batch * dims.m) by (nonlinear_arith)
                requires
                    dims.batch >= 0,
                    dims.m >= 0,
            ;
            lemma_uncell(0, dims.batch * dims.m, dims.d as int);
            vstd::arithmetic::div_mod::lemma_small_mod(0, dims.d as nat);
        }
    }
    while o < n
        invariant
            o <= n,
            n == q@.len(),
            dims.fits(q@.len(), k@.len(), v@.len()),
            goal == flash_out(q@, k@, v@, dims, scale, causal),
            o < n && o as int % dims.d as int != 0 ==> probs@ == softmax_row(
                scores(q@, k@, dims, scale, causal, o as int / dims.d as int),
            ),
            r@ == goal.take(o as int),
        decreases n - o,
    {
        proof {
            assert(0 <= dims.batch * dims.m) by (nonlinear_arith)
                requires
                    dims.batch >= 0,
                    dims.m >= 0,
            ;
            lemma_uncell(o as int, dims.batch * dims.m, dims.d as int);
        }
        let row: usize = o / dims.d;
        let c: usize = o % dims.d;
        if c == 0 {
            let s = scores_of(q, k, dims, scale, causal, row);
            probs = softmax_of(&s);
        }
        proof {
            lemma_uncell(row as int, dims.batch as int, dims.m as int);
        }
        let x: T = weighted_of(&probs, v, dims, row / dims.m, c);
        assert(goal[o as int] == x);
        assert(goal.take(o + 1) == goal.take(o as int).push(x));
        r.push(x);
        proof {
            if o + 1 < n && (o + 1) % dims.d as int != 0 {
                vstd::arithmetic::div_mod::lemma_fundamental_div_mod(o + 1, dims.d as int);
                lemma_next_in_row(o as int, dims.d as int);
            }
        }
        o += 1;
    }
    assert(goal.take(n as int) == goal);
    r
}

proof fn lemma_next_in_row(o: int, d: int)
    requires
        0 <= o,
        d > 0,
        (o + 1) % d != 0,
    ensures
        (o + 1) / d == o / d,
{
    vstd::arithmetic::div_mod::lemma_fundamental_div_mod(o, d);
    vstd::arithmetic::div_mod::lemma_mod_bound(o, d);
    let q = o / d;
    let r = o % d;
    if r + 1 == d {
        assert(o + 1 == (q + 1) * d) by (nonlinear_arith)
            requires
                o == d * q + r,
                r + 1 == d,
        ;
        vstd::arithmetic::div_mod::lemma_fundamental_div_mod_converse(o + 1, d, q + 1, 0);
    } else {
        assert(o + 1 == q * d + (r + 1)) by (nonlinear_arith)
            requires
                o == d * q + r,
        ;
        vstd::arithmetic::div_mod::lemma_fundamental_div_mod_converse(o + 1, d, q, r + 1);
    }
}

} // verus!
