//! Products of matrices on the host.
use crate::graph::index::{lemma_cell, lemma_mul3, lemma_uncell};
use crate::graph::ops::elementwise::add_at;
use crate::scalar::Scalar;
use vstd::prelude::*;

verus! {

/// The first `i` terms of the product of row `r` of `a` (of `k` columns) and column `c` of `b` (of
/// `n` columns).
pub open spec fn matmul_dot<T: Scalar>(
    a: Seq<T>,
    b: Seq<T>,
    k: int,
    n: int,
    r: int,
    c: int,
    i: nat,
) -> T
    decreases i,
{
    if i == 0 {
        T::spec_zero()
    } else {
        matmul_dot(a, b, k, n, r, c, (i - 1) as nat).spec_plus(
            a[r * k + i - 1].spec_times(b[(i - 1) * n + c]),
        )
    }
}

/// The product of an `m` by `k` and a `k` by `n` matrix.
pub open spec fn matmul_out<T: Scalar>(a: Seq<T>, b: Seq<T>, m: int, k: int, n: int) -> Seq<T> {
    Seq::new((m * n) as nat, |o: int| matmul_dot(a, b, k, n, o / n, o % n, k as nat))
}

/// Multiplies two matrices.
pub fn matmul_forward<T: Scalar>(
    a: &Vec<T>,
    b: &Vec<T>,
    m: usize,
    k: usize,
    n: usize,
) -> (r: Vec<T>)
    requires
        a@.len() == m * k,
        b@.len() == k * n,
        m * n <= usize::MAX,
    ensures
        r@ == matmul_out(a@, b@, m as int, k as int, n as int),
{
    let size: usize = m * n;
    let ghost goal = matmul_out(a@, b@, m as int, k as int, n as int);
    let mut out: Vec<T> = Vec::new();
    let mut o: usize = 0;
    while o < size
        invariant
            o <= size,
            size == m * n,
            a@.len() == m * k,
            b@.len() == k * n,
            goal == matmul_out(a@, b@, m as int, k as int, n as int),
            out@ == goal.take(o as int),
        decreases size - o,
    {
        proof {
            lemma_uncell(o as int, m as int, n as int);
        }
        let r: usize = o / n;
        let c: usize = o % n;
        let mut sum: T = T::zero();
        let mut i: usize = 0;
        while i < k
            invariant
                i <= k,
                r < m,
                c < n,
                a@.len() == m * k,
                b@.len() == k * n,
                sum == matmul_dot(a@, b@, k as int, n as int, r as int, c as int, i as nat),
            decreases k - i,
        {
            proof {
                lemma_cell(r as int, m as int, i as int, k as int);
                lemma_cell(i as int, k as int, c as int, n as int);
                assert(a@.len() == a.len() && b@.len() == b.len());
            }
            sum = sum.plus(a[r * k + i].times(b[i * n + c]));
            i += 1;
        }
        assert(goal.take(o + 1) == goal.take(o as int).push(sum));
        out.push(sum);
        o += 1;
    }
    assert(goal.take(size as int) == goal);
    out
}

/// The first `i` terms of what the gradient of the result hands back to the left factor.
pub open spec fn matmul_dot_a<T: Scalar>(og: Seq<T>, b: Seq<T>, n: int, r: int, c: int, i: nat) -> T
    decreases i,
{
    if i == 0 {
        T::spec_zero()
    } else {
        matmul_dot_a(og, b, n, r, c, (i - 1) as nat).spec_plus(
            og[r * n + i - 1].spec_times(b[c * n + i - 1]),
        )
    }
}

/// The gradient of the left factor: that of the result times the right factor transposed, added to
/// what was there.
pub open spec fn matmul_grad_a<T: Scalar>(
    g: Seq<T>,
    og: Seq<T>,
    b: Seq<T>,
    m: int,
    k: int,
    n: int,
) -> Seq<T> {
    Seq::new(
        (m * k) as nat,
        |j: int| g[j].spec_plus(matmul_dot_a(og, b, n, j / k, j % k, n as nat)),
    )
}

/// The first `i` terms of what the gradient of the result hands back to the right factor.
pub open spec fn matmul_dot_b<T: Scalar>(
    og: Seq<T>,
    a: Seq<T>,
    k: int,
    n: int,
    r: int,
    c: int,
    i: nat,
) -> T
    decreases i,
{
    if i == 0 {
        T::spec_zero()
    } else {
        matmul_dot_b(og, a, k, n, r, c, (i - 1) as nat).spec_plus(
            a[(i - 1) * k + r].spec_times(og[(i - 1) * n + c]),
        )
    }
}

/// The gradient of the right factor: the left factor transposed times that of the result, added to
/// what was there.
pub open spec fn matmul_grad_b<T: Scalar>(
    g: Seq<T>,
    og: Seq<T>,
    a: Seq<T>,
    m: int,
    k: int,
    n: int,
) -> Seq<T> {
    Seq::new(
        (k * n) as nat,
        |j: int| g[j].spec_plus(matmul_dot_b(og, a, k, n, j / n, j % n, m as nat)),
    )
}

/// Adds to the gradient of the left factor.
pub fn matmul_backward_a<T: Scalar>(
    grad: &mut Vec<T>,
    og: &Vec<T>,
    b: &Vec<T>,
    m: usize,
    k: usize,
    n: usize,
)
    requires
        old(grad)@.len() == m * k,
        og@.len() == m * n,
        b@.len() == k * n,
    ensures
        final(grad)@ == matmul_grad_a(old(grad)@, og@, b@, m as int, k as int, n as int),
{
    let size: usize = grad.len();
    let ghost goal = matmul_grad_a(old(grad)@, og@, b@, m as int, k as int, n as int);
    let mut j: usize = 0;
    while j < size
        invariant
            j <= size,
            size == m * k,
            grad@.len() == m * k,
            old(grad)@.len() == m * k,
            og@.len() == m * n,
            b@.len() == k * n,
            goal == matmul_grad_a(old(grad)@, og@, b@, m as int, k as int, n as int),
            forall|x: int| 0 <= x < j ==> #[trigger] grad@[x] == goal[x],
            forall|x: int| j <= x < size ==> #[trigger] grad@[x] == old(grad)@[x],
        decreases size - j,
    {
        proof {
            lemma_uncell(j as int, m as int, k as int);
        }
        let r: usize = j / k;
        let c: usize = j % k;
        let mut sum: T = T::zero();
        let mut i: usize = 0;
        while i < n
            invariant
                i <= n,
                r < m,
                c < k,
                og@.len() == m * n,
                b@.len() == k * n,
                sum == matmul_dot_a(og@, b@, n as int, r as int, c as int, i as nat),
            decreases n - i,
        {
            proof {
                lemma_cell(r as int, m as int, i as int, n as int);
                lemma_cell(c as int, k as int, i as int, n as int);
                assert(og@.len() == og.len() && b@.len() == b.len());
            }
            sum = sum.plus(og[r * n + i].times(b[c * n + i]));
            i += 1;
        }
        let x: T = grad[j].plus(sum);
        grad.set(j, x);
        j += 1;
    }
    assert(grad@ =~= goal);
}

/// Adds to the gradient of the right factor.
pub fn matmul_backward_b<T: Scalar>(
    grad: &mut Vec<T>,
    og: &Vec<T>,
    a: &Vec<T>,
    m: usize,
    k: usize,
    n: usize,
)
    requires
        old(grad)@.len() == k * n,
        og@.len() == m * n,
        a@.len() == m * k,
    ensures
        final(grad)@ == matmul_grad_b(old(grad)@, og@, a@, m as int, k as int, n as int),
{
    let size: usize = grad.len();
    let ghost goal = matmul_grad_b(old(grad)@, og@, a@, m as int, k as int, n as int);
    let mut j: usize = 0;
    while j < size
        invariant
            j <= size,
            size == k * n,
            grad@.len() == k * n,
            old(grad)@.len() == k * n,
            og@.len() == m * n,
            a@.len() == m * k,
            goal == matmul_grad_b(old(grad)@, og@, a@, m as int, k as int, n as int),
            forall|x: int| 0 <= x < j ==> #[trigger] grad@[x] == goal[x],
            forall|x: int| j <= x < size ==> #[trigger] grad@[x] == old(grad)@[x],
        decreases size - j,
    {
        proof {
            lemma_uncell(j as int, k as int, n as int);
        }
        let r: usize = j / n;
        let c: usize = j % n;
        let mut sum: T = T::zero();
        let mut i: usize = 0;
        while i < m
            invariant
                i <= m,
                r < k,
                c < n,
                og@.len() == m * n,
                a@.len() == m * k,
                sum == matmul_dot_b(og@, a@, k as int, n as int, r as int, c as int, i as nat),
            decreases m - i,
        {
            proof {
                lemma_cell(i as int, m as int, r as int, k as int);
                lemma_cell(i as int, m as int, c as int, n as int);
                assert(og@.len() == og.len() && a@.len() == a.len());
            }
            sum = sum.plus(a[i * k + r].times(og[i * n + c]));
            i += 1;
        }
        let x: T = grad[j].plus(sum);
        grad.set(j, x);
        j += 1;
    }
    assert(grad@ =~= goal);
}

/// The sizes of a product of `batch` pairs of matrices: `m` by `k` each times `k` by `n`, the
/// right ones given by columns where `trans_b` is set.
#[derive(Clone, Copy, Debug, PartialEq, Eq, Structural)]
pub struct BmmDims {
    pub batch: usize,
    pub m: usize,
    pub k: usize,
    pub n: usize,
    pub trans_b: bool,
}

impl BmmDims {
    pub open spec fn out_len(self) -> int {
        self.batch * self.m * self.n
    }

    /// The operands are large enough, and all positions can be counted.
    pub open spec fn fits(self, a_len: nat, b_len: nat) -> bool {
        &&& self.batch * self.m * self.k <= a_len
        &&& self.batch * self.k * self.n <= b_len
        &&& a_len <= usize::MAX
        &&& b_len <= usize::MAX
        &&& self.batch * self.m * self.n <= usize::MAX
    }

    /// The position in the left operand of term `kk` of element `o` of the result.
    pub open spec fn a_at(self, o: int, kk: int) -> int {
        (o / self.n as int) * self.k + kk
    }

    /// The position in the right operand of term `kk` of element `o` of the result.
    pub open spec fn b_at(self, o: int, kk: int) -> int {
        let bb = o / self.n as int / self.m as int;
        let j = o % self.n as int;
        if self.trans_b {
            (bb * self.n + j) * self.k + kk
        } else {
            (bb * self.k + kk) * self.n + j
        }
    }
}

pub proof fn lemma_bmm_at(d: BmmDims, a_len: nat, b_len: nat, o: int, kk: int)
    requires
        d.fits(a_len, b_len),
        0 <= o < d.out_len(),
        0 <= kk < d.k,
    ensures
        d.n > 0,
        d.m > 0,
        0 <= (o / d.n as int) / (d.m as int) < d.batch,
        0 <= d.a_at(o, kk) < a_len,
        0 <= d.b_at(o, kk) < b_len,
        0 <= (o / d.n as int) * d.k <= d.a_at(o, kk),
        ({
            let bb = o / d.n as int / d.m as int;
            let j = o % d.n as int;
            &&& 0 <= bb * d.n + j <= usize::MAX || !d.trans_b
            &&& 0 <= (bb * d.n + j) * d.k <= usize::MAX || !d.trans_b
            &&& 0 <= bb * d.n <= usize::MAX || !d.trans_b
            &&& 0 <= bb * d.k + kk <= usize::MAX || d.trans_b
            &&& 0 <= (bb * d.k + kk) * d.n <= usize::MAX || d.trans_b
            &&& 0 <= bb * d.k <= usize::MAX || d.trans_b
        }),
{
    let (batch, m, k, n) = (d.batch as int, d.m as int, d.k as int, d.n as int);
    assert(0 <= batch * m) by (nonlinear_arith)
        requires
            batch >= 0,
            m >= 0,
    ;
    lemma_uncell(o, batch * m, n);
    let bi = o / n;
    let j = o % n;
    lemma_uncell(bi, batch, m);
    let bb = bi / m;
    lemma_cell(bi, batch * m, kk, k);
    if d.trans_b {
        lemma_cell(bb, batch, j, n);
        lemma_cell(bb * n + j, batch * n, kk, k);
        lemma_mul3(batch, k, n);
        lemma_mul3(batch, n, k);
        lemma_mul3(k, n, 1);
        assert(bb * n + j <= (bb * n + j) * k) by (nonlinear_arith)
            requires
                k >= 1,
                bb * n + j >= 0,
        ;
    } else {
        lemma_cell(bb, batch, kk, k);
        lemma_cell(bb * k + kk, batch * k, j, n);
        assert(bb * k + kk <= (bb * k + kk) * n) by (nonlinear_arith)
            requires
                n >= 1,
                bb * k + kk >= 0,
        ;
    }
}

/// The first `i` terms of element `o` of the result.
pub open spec fn bmm_dot<T: Scalar>(a: Seq<T>, b: Seq<T>, d: BmmDims, o: int, i: nat) -> T
    decreases i,
{
    if i == 0 {
        T::spec_zero()
    } else {
        bmm_dot(a, b, d, o, (i - 1) as nat).spec_plus(
            a[d.a_at(o, i - 1)].spec_times(b[d.b_at(o, i - 1)]),
        )
    }
}

/// The products of the pairs of matrices.
pub open spec fn bmm_out<T: Scalar>(a: Seq<T>, b: Seq<T>, d: BmmDims) -> Seq<T> {
    Seq::new(d.out_len() as nat, |o: int| bmm_dot(a, b, d, o, d.k as nat))
}

fn bmm_a_at(
    d: BmmDims,
    o: usize,
    kk: usize,
    Ghost(a_len): Ghost<nat>,
    Ghost(b_len): Ghost<nat>,
) -> (r: usize)
    requires
        d.fits(a_len, b_len),
        o < d.out_len(),
        kk < d.k,
    ensures
        r == d.a_at(o as int, kk as int),
        r < a_len,
{
    proof {
        lemma_bmm_at(d, a_len, b_len, o as int, kk as int);
    }
    (o / d.n) * d.k + kk
}

fn bmm_b_at(
    d: BmmDims,
    o: usize,
    kk: usize,
    Ghost(a_len): Ghost<nat>,
    Ghost(b_len): Ghost<nat>,
) -> (r: usize)
    requires
        d.fits(a_len, b_len),
        o < d.out_len(),
        kk < d.k,
    ensures
        r == d.b_at(o as int, kk as int),
        r < b_len,
{
    proof {
        lemma_bmm_at(d, a_len, b_len, o as int, kk as int);
    }
    let bb: usize = o / d.n / d.m;
    let j: usize = o % d.n;
    if d.trans_b {
        (bb * d.n + j) * d.k + kk
    } else {
        (bb * d.k + kk) * d.n + j
    }
}

fn bmm_size(d: BmmDims, Ghost(a_len): Ghost<nat>, Ghost(b_len): Ghost<nat>) -> (r: usize)
    requires
        d.fits(a_len, b_len),
    ensures
        r == d.out_len(),
{
    if d.n == 0 {
        assert(d.batch * d.m * 0 == 0) by (nonlinear_arith);
        return 0;
    }
    proof {
        let (batch, m, n) = (d.batch as int, d.m as int, d.n as int);
        assert(batch * m <= batch * m * n) by (nonlinear_arith)
            requires
                n >= 1,
                batch >= 0,
                m >= 0,
        ;
    }
    d.batch * d.m * d.n
}

/// Multiplies the pairs of matrices.
pub fn bmm_forward<T: Scalar>(a: &Vec<T>, b: &Vec<T>, d: BmmDims) -> (r: Vec<T>)
    requires
        d.fits(a@.len(), b@.len()),
    ensures
        r@ == bmm_out(a@, b@, d),
{
    let size: usize = bmm_size(d, Ghost(a@.len()), Ghost(b@.len()));
    let ghost goal = bmm_out(a@, b@, d);
    let mut out: Vec<T> = Vec::new();
    let mut o: usize = 0;
    while o < size
        invariant
            o <= size,
            size == d.out_len(),
            d.fits(a@.len(), b@.len()),
            goal == bmm_out(a@, b@, d),
            out@ == goal.take(o as int),
        decreases size - o,
    {
        let mut acc: T = T::zero();
        let mut kk: usize = 0;
        while kk < d.k
            invariant
                kk <= d.k,
                o < d.out_len(),
                d.fits(a@.len(), b@.len()),
                acc == bmm_dot(a@, b@, d, o as int, kk as nat),
            decreases d.k - kk,
        {
            let ia: usize = bmm_a_at(d, o, kk, Ghost(a@.len()), Ghost(b@.len()));
            let ib: usize = bmm_b_at(d, o, kk, Ghost(a@.len()), Ghost(b@.len()));
            acc = acc.plus(a[ia].times(b[ib]));
            kk += 1;
        }
        assert(goal.take(o + 1) == goal.take(o as int).push(acc));
        out.push(acc);
        o += 1;
    }
    assert(goal.take(size as int) == goal);
    out
}

/// The gradients of the two operands after the elements before `o` of the result and the first
/// `kk` terms of `o` have handed theirs back.
pub open spec fn bmm_back<T: Scalar>(
    a: Seq<T>,
    b: Seq<T>,
    og: Seq<T>,
    d: BmmDims,
    grads: (Seq<T>, Seq<T>),
    o: nat,
    kk: nat,
) -> (Seq<T>, Seq<T>)
    decreases o, kk,
{
    if kk > 0 {
        let g = bmm_back(a, b, og, d, grads, o, (kk - 1) as nat);
        let ia = d.a_at(o as int, kk - 1);
        let ib = d.b_at(o as int, kk - 1);
        (
            add_at(g.0, ia, og[o as int].spec_times(b[ib])),
            add_at(g.1, ib, og[o as int].spec_times(a[ia])),
        )
    } else if o > 0 {
        bmm_back(a, b, og, d, grads, (o - 1) as nat, d.k as nat)
    } else {
        grads
    }
}

/// The gradient of a tensor that is both operands.
pub open spec fn bmm_back_self<T: Scalar>(
    a: Seq<T>,
    b: Seq<T>,
    og: Seq<T>,
    d: BmmDims,
    grad: Seq<T>,
    o: nat,
    kk: nat,
) -> Seq<T>
    decreases o, kk,
{
    if kk > 0 {
        let g = bmm_back_self(a, b, og, d, grad, o, (kk - 1) as nat);
        let ia = d.a_at(o as int, kk - 1);
        let ib = d.b_at(o as int, kk - 1);
        add_at(
            add_at(g, ia, og[o as int].spec_times(b[ib])),
            ib,
            og[o as int].spec_times(a[ia]),
        )
    } else if o > 0 {
        bmm_back_self(a, b, og, d, grad, (o - 1) as nat, d.k as nat)
    } else {
        grad
    }
}

/// Adds to the gradients of two different operands.
pub fn bmm_backward<T: Scalar>(
    a: &Vec<T>,
    b: &Vec<T>,
    og: &Vec<T>,
    d: BmmDims,
    a_grad: &mut Vec<T>,
    b_grad: &mut Vec<T>,
)
    requires
        d.fits(a@.len(), b@.len()),
        old(a_grad)@.len() == a@.len(),
        old(b_grad)@.len() == b@.len(),
        og@.len() == d.out_len(),
    ensures
        (final(a_grad)@, final(b_grad)@) == bmm_back(
            a@,
            b@,
            og@,
            d,
            (old(a_grad)@, old(b_grad)@),
            og@.len(),
            0,
        ),
        final(a_grad)@.len() == old(a_grad)@.len(),
        final(b_grad)@.len() == old(b_grad)@.len(),
{
    let size: usize = og.len();
    let mut o: usize = 0;
    while o < size
        invariant
            o <= size,
            size == og@.len(),
            og@.len() == d.out_len(),
            d.fits(a@.len(), b@.len()),
            a_grad@.len() == a@.len(),
            b_grad@.len() == b@.len(),
            (a_grad@, b_grad@) == bmm_back(
                a@,
                b@,
                og@,
                d,
                (old(a_grad)@, old(b_grad)@),
                o as nat,
                0,
            ),
        decreases size - o,
    {
        let go: T = og[o];
        let mut kk: usize = 0;
        while kk < d.k
            invariant
                kk <= d.k,
                o < d.out_len(),
                go == og@[o as int],
                d.fits(a@.len(), b@.len()),
                a_grad@.len() == a@.len(),
                b_grad@.len() == b@.len(),
                (a_grad@, b_grad@) == bmm_back(
                    a@,
                    b@,
                    og@,
                    d,
                    (old(a_grad)@, old(b_grad)@),
                    o as nat,
                    kk as nat,
                ),
            decreases d.k - kk,
        {
            let ia: usize = bmm_a_at(d, o, kk, Ghost(a@.len()), Ghost(b@.len()));
            let ib: usize = bmm_b_at(d, o, kk, Ghost(a@.len()), Ghost(b@.len()));
            let xa: T = a_grad[ia].plus(go.times(b[ib]));
            a_grad.set(ia, xa);
            let xb: T = b_grad[ib].plus(go.times(a[ia]));
            b_grad.set(ib, xb);
            kk += 1;
        }
        o += 1;
        assert((a_grad@, b_grad@) == bmm_back(
            a@,
            b@,
            og@,
            d,
            (old(a_grad)@, old(b_grad)@),
            o as nat,
            0,
        ));
    }
}

/// Adds to the gradient of a tensor that is both operands.
pub fn bmm_backward_self<T: Scalar>(
    a: &Vec<T>,
    b: &Vec<T>,
    og: &Vec<T>,
    d: BmmDims,
    grad: &mut Vec<T>,
)
    requires
        d.fits(a@.len(), b@.len()),
        old(grad)@.len() == a@.len(),
        b@.len() == a@.len(),
        og@.len() == d.out_len(),
    ensures
        final(grad)@ == bmm_back_self(a@, b@, og@, d, old(grad)@, og@.len(), 0),
        final(grad)@.len() == old(grad)@.len(),
{
    let size: usize = og.len();
    let mut o: usize = 0;
    while o < size
        invariant
            o <= size,
            size == og@.len(),
            og@.len() == d.out_len(),
            d.fits(a@.len(), b@.len()),
            grad@.len() == a@.len(),
            b@.len() == a@.len(),
            grad@ == bmm_back_self(a@, b@, og@, d, old(grad)@, o as nat, 0),
        decreases size - o,
    {
        let go: T = og[o];
        let mut kk: usize = 0;
        while kk < d.k
            invariant
                kk <= d.k,
                o < d.out_len(),
                go == og@[o as int],
                d.fits(a@.len(), b@.len()),
                grad@.len() == a@.len(),
                b@.len() == a@.len(),
                grad@ == bmm_back_self(a@, b@, og@, d, old(grad)@, o as nat, kk as nat),
            decreases d.k - kk,
        {
            let ia: usize = bmm_a_at(d, o, kk, Ghost(a@.len()), Ghost(b@.len()));
            let ib: usize = bmm_b_at(d, o, kk, Ghost(a@.len()), Ghost(b@.len()));
            let xa: T = grad[ia].plus(go.times(b[ib]));
            grad.set(ia, xa);
            let xb: T = grad[ib].plus(go.times(a[ia]));
            grad.set(ib, xb);
            kk += 1;
        }
        o += 1;
        assert(grad@ == bmm_back_self(a@, b@, og@, d, old(grad)@, o as nat, 0));
    }
}

} // verus!
