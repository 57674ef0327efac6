//! Causality: what stands at a position does not depend on what stands behind it.
use crate::graph::host::{
    bmm_dims, data_of, flash_dims, matmul_shapes_ok, repeat_dims, repeat_shape, rope_dims, shape_of,
    swap_shape,
};
use crate::graph::index::{lemma_cell, lemma_product2, lemma_product3, lemma_uncell};
use crate::graph::ops::attention::scores;
use crate::graph::ops::elementwise::{broadcast_ok, Pairwise};
use crate::graph::ops::gqa::{repeat_kv_out, RepeatDims};
use crate::graph::ops::linear::BmmDims;
use crate::graph::ops::reduction::row_of;
use crate::graph::ops::transform::transpose_0213_out;
use crate::graph::row_laws::{
    biased_row, exchanged_element, gathered_row, normalised_row, paired_row, product_row, same_row,
    silu_keeps_rows, turned_row,
};
use crate::graph::Graph;
use crate::nn::attention::{
    attend_calls, flattened, gqa_calls, heads_cut, heads_joined, mask_hit, masked_scores, mha_calls,
    projected, repeated, scale_hit, scaled_scores, score_scale, Attention, GroupedQueryAttention,
    MaskCache, MultiHeadAttention, ScaleCache, Style,
};
use crate::nn::embedding::embedding_calls;
use crate::nn::linear::{linear_calls, Linear};
use crate::nn::masking::{
    hides, one_pass_sees_no_future, stepwise_scores, stepwise_sees_no_future, stepwise_weights,
};
use crate::nn::program::{emit, makes, mask_values, Call, Dims, Draft, Program, Tag, Val};
use crate::nn::rmsnorm::{norm_calls, RMSNorm};
use crate::nn::run::{carried_out, mask_shape};
use crate::nn::transformer::{block_calls, blocks_calls, TransformerBlock, TransformerLM};
use crate::nn::values::{
    all_held, at_each_call, at_each_call_before, begins, begins_emit, begins_through,
    begins_with_itself, drafted, drafted_emit, held, held_after, made_by, product_of,
    program_gives_values, sizes_fit, Held,
};
use crate::nn::Module;
use crate::scalar::Scalar;
use crate::tensor::{broadcast_shape, product};
use vstd::prelude::*;

verus! {

/// What tensors hold in one run of a program and in another.
pub struct Runs<T> {
    pub a: Seq<Held<T>>,
    pub b: Seq<Held<T>>,
}

/// Both after a draft.
pub open spec fn after<T: Scalar>(s: Runs<T>, d: Draft<T>) -> Runs<T> {
    Runs { a: drafted(s.a, d), b: drafted(s.b, d) }
}

/// The next number of a draft is that of the next tensor of both.
pub open spec fn counted<T: Scalar>(s: Runs<T>, d: Draft<T>) -> bool {
    after(s, d).a.len() == d.next && after(s, d).b.len() == d.next
}

/// A tensor holds the same in both.
pub open spec fn same<T: Scalar>(r: Runs<T>, id: usize) -> bool {
    id < r.a.len() && id < r.b.len() && r.a[id as int] == r.b[id as int]
}

/// The tensors of the first are still there.
pub open spec fn grown<T: Scalar>(r: Runs<T>, q: Runs<T>) -> bool {
    &&& r.a.len() <= q.a.len()
    &&& r.b.len() <= q.b.len()
    &&& forall|i: int| 0 <= i < r.a.len() ==> #[trigger] q.a[i] == r.a[i]
    &&& forall|i: int| 0 <= i < r.b.len() ==> #[trigger] q.b[i] == r.b[i]
}

/// The matrices from `lo` on, below `hi`, and of each the rows up to `t`.
pub struct Span {
    pub lo: int,
    pub hi: int,
    pub t: int,
}

/// Row `j` of matrix `m`, of `s` rows of `w` elements each, is the same in both.
pub open spec fn same_at<T>(a: Seq<T>, b: Seq<T>, s: int, w: int, m: int, j: int) -> bool {
    same_row(a, b, w, m * s + j)
}

/// `n` matrices of `s` rows of `w` elements, the rows of a span the same in both.
pub open spec fn alike_rows<T>(a: Seq<T>, b: Seq<T>, n: int, s: int, w: int, z: Span) -> bool {
    &&& a.len() == n * s * w
    &&& b.len() == n * s * w
    &&& 0 <= z.lo < z.hi <= n
    &&& 0 <= z.t < s
    &&& 0 <= w
    &&& forall|m: int, j: int|
        z.lo <= m < z.hi && 0 <= j <= z.t ==> #[trigger] same_at(a, b, s, w, m, j)
}

/// A tensor of such matrices.
pub open spec fn alike<T: Scalar>(
    r: Runs<T>,
    id: usize,
    n: usize,
    s: usize,
    w: usize,
    z: Span,
) -> bool {
    &&& id < r.a.len()
    &&& id < r.b.len()
    &&& r.a[id as int].shape == seq![n, s, w]
    &&& r.b[id as int].shape == seq![n, s, w]
    &&& alike_rows(
        r.a[id as int].data,
        r.b[id as int].data,
        n as int,
        s as int,
        w as int,
        z,
    )
}

/// The scores that a call makes are ordinary numbers, before any are hidden.
pub open spec fn ordinary_scores<T: Scalar>(
    ordinary: spec_fn(T) -> bool,
    s: Seq<Held<T>>,
    c: Call<T>,
) -> bool {
    match c {
        Call::Mul { a, b } => forall|i: int|
            0 <= i < made_by(s, c).data.len() ==> ordinary(#[trigger] made_by(s, c).data[i]),
        Call::FlashAttention { q, k, v, scale, causal } => ordinary_products(
            ordinary,
            s[q as int],
            s[k as int],
            scale,
        ),
        _ => true,
    }
}

/// The products of queries and keys, scaled, are ordinary numbers.
pub open spec fn ordinary_products<T: Scalar>(
    ordinary: spec_fn(T) -> bool,
    q: Held<T>,
    k: Held<T>,
    scale: T,
) -> bool {
    let dims = flash_dims(q.shape, k.shape);
    forall|r: int, j: int|
        0 <= r < dims.batch * dims.m && 0 <= j < dims.n ==> ordinary(
            #[trigger] scores(q.data, k.data, dims, scale, false, r)[j],
        )
}

/// The sizes of a call go together, and the scores that it makes are ordinary.
pub open spec fn tame<T: Scalar>(ordinary: spec_fn(T) -> bool) -> spec_fn(
    Seq<Held<T>>,
    Call<T>,
) -> bool {
    |s: Seq<Held<T>>, c: Call<T>| sizes_fit(s, c) && ordinary_scores(ordinary, s, c)
}

/// So are all calls of a draft, in both runs.
pub open spec fn tamed<T: Scalar>(s: Runs<T>, d: Draft<T>, ordinary: spec_fn(T) -> bool) -> bool {
    &&& at_each_call(s.a, d.calls, tame(ordinary))
    &&& at_each_call(s.b, d.calls, tame(ordinary))
}

proof fn lemma_tamed<T: Scalar>(
    s: Runs<T>,
    d: Draft<T>,
    e: Draft<T>,
    ordinary: spec_fn(T) -> bool,
)
    requires
        begins(d, e),
        tamed(s, e, ordinary),
    ensures
        tamed(s, d, ordinary),
{
    at_each_call_before(s.a, d, e, tame(ordinary));
    at_each_call_before(s.b, d, e, tame(ordinary));
}

proof fn lemma_emit<T: Scalar>(
    s: Runs<T>,
    d: Draft<T>,
    c: Call<T>,
    ordinary: spec_fn(T) -> bool,
)
    requires
        counted(s, d),
        tamed(s, emit(d, c), ordinary),
        c matches Call::Reinterpret { id, .. } ==> id < d.next,
    ensures
        after(s, emit(d, c)).a == held_after(after(s, d).a, c),
        after(s, emit(d, c)).b == held_after(after(s, d).b, c),
        counted(s, emit(d, c)),
        tamed(s, d, ordinary),
        sizes_fit(after(s, d).a, c),
        sizes_fit(after(s, d).b, c),
        ordinary_scores(ordinary, after(s, d).a, c),
        ordinary_scores(ordinary, after(s, d).b, c),
        makes(c) ==> grown(after(s, d), after(s, emit(d, c))),
{
    drafted_emit(s.a, d, c);
    drafted_emit(s.b, d, c);
    let f = tame(ordinary);
    assert(at_each_call(s.a, emit(d, c).calls, f));
    assert(at_each_call(s.b, emit(d, c).calls, f));
    assert(f(after(s, d).a, c) && f(after(s, d).b, c));
}

/// The weights of a layer are the same in both runs, and have the sizes that they should.
pub open spec fn same_linear<T: Scalar>(r: Runs<T>, l: Linear, out: usize) -> bool {
    &&& same(r, l.weight_id)
    &&& r.a[l.weight_id as int].shape.len() == 2
    &&& r.a[l.weight_id as int].shape[1] == out
    &&& l.bias_id matches Some(b) ==> same(r, b) && r.a[b as int].shape == seq![out]
}

proof fn lemma_same_linear<T: Scalar>(r: Runs<T>, q: Runs<T>, l: Linear, out: usize)
    requires
        grown(r, q),
        same_linear(r, l, out),
    ensures
        same_linear(q, l, out),
{
}

proof fn lemma_alike_kept<T: Scalar>(
    r: Runs<T>,
    q: Runs<T>,
    id: usize,
    n: usize,
    s: usize,
    w: usize,
    z: Span,
)
    requires
        grown(r, q),
        alike(r, id, n, s, w, z),
    ensures
        alike(q, id, n, s, w, z),
{
}

/// Rows of a product are alike where the rows of the left factor are.
proof fn lemma_product_rows<T: Scalar>(
    x: Held<T>,
    y: Held<T>,
    w: Held<T>,
    n: usize,
    s: usize,
    k: usize,
    out: usize,
    z: Span,
)
    requires
        x.shape == seq![n, s, k],
        y.shape == seq![n, s, k],
        alike_rows(x.data, y.data, n as int, s as int, k as int, z),
        w.shape.len() == 2,
        w.shape[1] == out,
        matmul_shapes_ok(x.shape, w.shape),
    ensures
        ({
            let (p, q) = (
                product_of(x, w),
                product_of(y, w),
            );
            &&& 0 < n * s <= usize::MAX
            &&& p.shape == seq![(n * s) as usize, out]
            &&& q.shape == p.shape
            &&& alike_rows(p.data, q.data, n as int, s as int, out as int, z)
        }),
{
    let (p, q) = (product_of(x, w), product_of(y, w));
    assert(x.shape.drop_last() =~= seq![n, s]);
    assert(y.shape.drop_last() =~= seq![n, s]);
    lemma_product2(n, s);
    assert(seq![n, s].skip(0) =~= seq![n, s]);
    let m = n * s;
    assert(product(seq![n, s]) <= usize::MAX);
    assert(m > 0) by (nonlinear_arith)
        requires
            n > 0,
            s > 0,
            m == n * s,
    ;
    assert forall|i: int, j: int| z.lo <= i < z.hi && 0 <= j <= z.t implies #[trigger] same_at(
        p.data,
        q.data,
        s as int,
        out as int,
        i,
        j,
    ) by {
        assert(same_at(x.data, y.data, s as int, k as int, i, j));
        lemma_cell(i, n as int, j, s as int);
        product_row(x.data, y.data, w.data, m, k as int, out as int, i * s + j);
    }
}

proof fn lemma_linear<T: Scalar>(
    st: Runs<T>,
    l: Linear,
    out: usize,
    mixed: bool,
    d: Draft<T>,
    x: Val,
    z: Span,
    ordinary: spec_fn(T) -> bool,
)
    requires
        counted(st, d),
        x.dims is Three,
        alike(after(st, d), x.id, x.dims->Three_0, x.dims->Three_1, x.dims->Three_2, z),
        same_linear(after(st, d), l, out),
        d.next + 2 <= usize::MAX,
        tamed(st, linear_calls(l, out, mixed, d, x).0, ordinary),
    ensures
        ({
            let (e, y) = linear_calls(l, out, mixed, d, x);
            &&& counted(st, e)
            &&& alike(after(st, e), y.id, x.dims->Three_0, x.dims->Three_1, out, z)
            &&& y.dims == Dims::Three(x.dims->Three_0, x.dims->Three_1, out)
            &&& d.next <= y.id < e.next
            &&& grown(after(st, d), after(st, e))
            &&& d.next < e.next <= d.next + 2
        }),
{
    let (n, s, k) = (x.dims->Three_0, x.dims->Three_1, x.dims->Three_2);
    let r = after(st, d);
    let c = if mixed {
        Call::<T>::MatmulBf16 { a: x.id, b: l.weight_id }
    } else {
        Call::<T>::Matmul { a: x.id, b: l.weight_id }
    };
    let p = emit(d, c);
    let dims = Dims::Three(n, s, out);
    let e = linear_calls(l, out, mixed, d, x).0;
    begins_emit(d, c);
    match l.bias_id {
        Some(b) => {
            let add = Call::<T>::Add { a: d.next as usize, b };
            let q = emit(p, add);
            let last = Call::<T>::Reinterpret { id: p.next as usize, dims };
            begins_emit(p, add);
            begins_emit(q, last);
            begins_through(p, q, e);
            lemma_tamed(st, q, e, ordinary);
            lemma_tamed(st, p, e, ordinary);
            lemma_emit(st, d, c, ordinary);
            lemma_product_rows(
                r.a[x.id as int],
                r.b[x.id as int],
                r.a[l.weight_id as int],
                n,
                s,
                k,
                out,
                z,
            );
            lemma_emit(st, p, add, ordinary);
            lemma_emit(st, q, last, ordinary);
            let rp = after(st, p);
            let m = (n * s) as usize;
            lemma_product2(m, out);
            let (u, v) = (rp.a[d.next], rp.b[d.next]);
            let w = rp.a[b as int];
            let rq = after(st, q);
            assert forall|i: int, j: int|
                z.lo <= i < z.hi && 0 <= j <= z.t implies #[trigger] same_at(
                rq.a[p.next].data,
                rq.b[p.next].data,
                s as int,
                out as int,
                i,
                j,
            ) by {
                assert(same_at(u.data, v.data, s as int, out as int, i, j));
                lemma_cell(i, n as int, j, s as int);
                biased_row(
                    Pairwise::Add,
                    u.data,
                    v.data,
                    w.data,
                    m,
                    out,
                    i * s + j,
                );
            }
            lemma_cell(z.lo, n as int, 0, s as int);
            assert(same_at(u.data, v.data, s as int, out as int, z.lo, 0));
            biased_row(
                Pairwise::Add,
                u.data,
                v.data,
                w.data,
                m,
                out,
                z.lo * s + 0,
            );
        },
        None => {
            let last = Call::<T>::Reinterpret { id: d.next as usize, dims };
            begins_emit(p, last);
            lemma_tamed(st, p, e, ordinary);
            lemma_emit(st, d, c, ordinary);
            lemma_product_rows(
                r.a[x.id as int],
                r.b[x.id as int],
                r.a[l.weight_id as int],
                n,
                s,
                k,
                out,
                z,
            );
            lemma_emit(st, p, last, ordinary);
        },
    }
}

proof fn lemma_norm<T: Scalar>(
    st: Runs<T>,
    l: RMSNorm<T>,
    d: Draft<T>,
    x: Val,
    z: Span,
    ordinary: spec_fn(T) -> bool,
)
    requires
        counted(st, d),
        x.dims is Three,
        alike(after(st, d), x.id, x.dims->Three_0, x.dims->Three_1, x.dims->Three_2, z),
        same(after(st, d), l.weight_id),
        d.next + 1 <= usize::MAX,
        tamed(st, norm_calls(l, d, x).0, ordinary),
    ensures
        ({
            let (e, y) = norm_calls(l, d, x);
            &&& counted(st, e)
            &&& alike(after(st, e), y.id, x.dims->Three_0, x.dims->Three_1, x.dims->Three_2, z)
            &&& y.dims == x.dims
            &&& y.id == d.next
            &&& grown(after(st, d), after(st, e))
            &&& e.next == d.next + 1
        }),
{
    let (n, s, k) = (x.dims->Three_0, x.dims->Three_1, x.dims->Three_2);
    let r = after(st, d);
    let c = Call::<T>::RmsNorm { x: x.id, w: l.weight_id, eps: l.eps };
    lemma_emit(st, d, c, ordinary);
    let q = after(st, emit(d, c));
    let (u, v, w) = (r.a[x.id as int], r.b[x.id as int], r.a[l.weight_id as int]);
    let m = n * s;
    if k > 0 {
        vstd::arithmetic::div_mod::lemma_fundamental_div_mod_converse(m * k, k as int, m, 0);
    }
    assert forall|i: int, j: int| z.lo <= i < z.hi && 0 <= j <= z.t implies #[trigger] same_at(
        q.a[d.next].data,
        q.b[d.next].data,
        s as int,
        k as int,
        i,
        j,
    ) by {
        if k > 0 {
            assert(same_at(u.data, v.data, s as int, k as int, i, j));
            lemma_cell(i, n as int, j, s as int);
            normalised_row(u.data, v.data, w.data, m, k as int, l.eps, i * s + j);
        }
    }
}

proof fn lemma_rope<T: Scalar>(
    st: Runs<T>,
    d: Draft<T>,
    id: usize,
    n: usize,
    s: usize,
    k: usize,
    head: usize,
    z: Span,
    ordinary: spec_fn(T) -> bool,
)
    requires
        counted(st, d),
        alike(after(st, d), id, n, s, k, z),
        d.next + 1 <= usize::MAX,
        tamed(st, emit(d, Call::<T>::Rope { a: id, head_dim: head }), ordinary),
    ensures
        ({
            let e = emit(d, Call::<T>::Rope { a: id, head_dim: head });
            &&& counted(st, e)
            &&& alike(after(st, e), d.next as usize, n, s, k, z)
            &&& grown(after(st, d), after(st, e))
            &&& e.next == d.next + 1
        }),
{
    let r = after(st, d);
    let c = Call::<T>::Rope { a: id, head_dim: head };
    lemma_emit(st, d, c, ordinary);
    let q = after(st, emit(d, c));
    let (u, v) = (r.a[id as int], r.b[id as int]);
    let dims = rope_dims(u.shape, head);
    assert forall|i: int, j: int| z.lo <= i < z.hi && 0 <= j <= z.t implies #[trigger] same_at(
        q.a[d.next].data,
        q.b[d.next].data,
        s as int,
        k as int,
        i,
        j,
    ) by {
        assert(same_at(u.data, v.data, s as int, k as int, i, j));
        lemma_cell(i, n as int, j, s as int);
        turned_row(u.data, v.data, dims, i * s + j);
    }
}

proof fn lemma_silu<T: Scalar>(
    st: Runs<T>,
    d: Draft<T>,
    id: usize,
    n: usize,
    s: usize,
    k: usize,
    z: Span,
    ordinary: spec_fn(T) -> bool,
)
    requires
        counted(st, d),
        alike(after(st, d), id, n, s, k, z),
        d.next + 1 <= usize::MAX,
        tamed(st, emit(d, Call::<T>::Silu { a: id }), ordinary),
    ensures
        ({
            let e = emit(d, Call::<T>::Silu { a: id });
            &&& counted(st, e)
            &&& alike(after(st, e), d.next as usize, n, s, k, z)
            &&& grown(after(st, d), after(st, e))
            &&& e.next == d.next + 1
        }),
{
    let r = after(st, d);
    let c = Call::<T>::Silu { a: id };
    lemma_emit(st, d, c, ordinary);
    let q = after(st, emit(d, c));
    let (u, v) = (r.a[id as int], r.b[id as int]);
    assert forall|i: int, j: int| z.lo <= i < z.hi && 0 <= j <= z.t implies #[trigger] same_at(
        q.a[d.next].data,
        q.b[d.next].data,
        s as int,
        k as int,
        i,
        j,
    ) by {
        assert(same_at(u.data, v.data, s as int, k as int, i, j));
        lemma_cell(i, n as int, j, s as int);
        silu_keeps_rows(u.data, v.data, n * s, k as int, i * s + j);
    }
}

proof fn lemma_sum<T: Scalar>(
    st: Runs<T>,
    d: Draft<T>,
    x: usize,
    y: usize,
    n: usize,
    s: usize,
    k: usize,
    z: Span,
    ordinary: spec_fn(T) -> bool,
)
    requires
        counted(st, d),
        alike(after(st, d), x, n, s, k, z),
        alike(after(st, d), y, n, s, k, z),
        d.next + 1 <= usize::MAX,
        tamed(st, emit(d, Call::<T>::Add { a: x, b: y }), ordinary),
    ensures
        ({
            let e = emit(d, Call::<T>::Add { a: x, b: y });
            &&& counted(st, e)
            &&& alike(after(st, e), d.next as usize, n, s, k, z)
            &&& grown(after(st, d), after(st, e))
            &&& e.next == d.next + 1
        }),
{
    let r = after(st, d);
    let c = Call::<T>::Add { a: x, b: y };
    lemma_emit(st, d, c, ordinary);
    let q = after(st, emit(d, c));
    let shape = seq![n, s, k];
    lemma_product3(n, s, k);
    assert(broadcast_shape(shape, shape) =~= shape);
    let (u, v) = (r.a[x as int].data, r.b[x as int].data);
    let (u2, v2) = (r.a[y as int].data, r.b[y as int].data);
    assert forall|i: int, j: int| z.lo <= i < z.hi && 0 <= j <= z.t implies #[trigger] same_at(
        q.a[d.next].data,
        q.b[d.next].data,
        s as int,
        k as int,
        i,
        j,
    ) by {
        assert(same_at(u, v, s as int, k as int, i, j));
        assert(same_at(u2, v2, s as int, k as int, i, j));
        lemma_cell(i, n as int, j, s as int);
        paired_row(
            Pairwise::Add,
            (u, u2),
            (v, v2),
            shape,
            n * s,
            k as int,
            i * s + j,
        );
    }
}

/// The span of the heads of a span.
pub open spec fn heads_of(z: Span, heads: int) -> Span {
    Span { lo: z.lo * heads, hi: z.hi * heads, t: z.t }
}

proof fn lemma_heads_of(z: Span, n: int, heads: int)
    requires
        0 <= z.lo < z.hi <= n,
        heads > 0,
    ensures
        0 <= heads_of(z, heads).lo < heads_of(z, heads).hi <= n * heads,
{
    assert(0 <= z.lo * heads && z.lo * heads < z.hi * heads && z.hi * heads <= n * heads)
        by (nonlinear_arith)
        requires
            0 <= z.lo < z.hi <= n,
            heads > 0,
    ;
}

/// Rows cut into heads are alike where the rows are.
proof fn lemma_cut_rows<T>(
    a: Seq<T>,
    b: Seq<T>,
    n: int,
    s: int,
    heads: int,
    dim: int,
    z: Span,
)
    requires
        heads > 0,
        dim >= 0,
        alike_rows(a, b, n, s, heads * dim, z),
    ensures
        alike_rows(
            transpose_0213_out(a, s, heads, dim),
            transpose_0213_out(b, s, heads, dim),
            n * heads,
            s,
            dim,
            heads_of(z, heads),
        ),
{
    let (x, y) = (transpose_0213_out(a, s, heads, dim), transpose_0213_out(b, s, heads, dim));
    lemma_heads_of(z, n, heads);
    let h = heads_of(z, heads);
    assert(n * s * (heads * dim) == n * s * heads * dim && n * s * heads * dim == n * heads * s * dim)
        by (nonlinear_arith);
    assert forall|m: int, j: int| h.lo <= m < h.hi && 0 <= j <= h.t implies #[trigger] same_at(
        x,
        y,
        s,
        dim,
        m,
        j,
    ) by {
        lemma_uncell(m, n, heads);
        let (i, k) = (m / heads, m % heads);
        assert(z.lo <= i < z.hi) by (nonlinear_arith)
            requires
                z.lo * heads <= m < z.hi * heads,
                m == i * heads + k,
                0 <= k < heads,
                heads > 0,
        ;
        assert(same_at(a, b, s, heads * dim, i, j));
        let w = heads * dim;
        let r = i * s + j;
        assert forall|c: int| 0 <= c < dim implies #[trigger] row_of(x, dim, m * s + j)[c]
            == row_of(y, dim, m * s + j)[c] by {
            exchanged_element(a, n, s, heads, dim, i, j, k, c);
            exchanged_element(b, n, s, heads, dim, i, j, k, c);
            assert((r * heads + k) * dim + c == r * w + (k * dim + c)) by (nonlinear_arith)
                requires
                    w == heads * dim,
            ;
            lemma_cell(k, heads, c, dim);
            assert(row_of(a, w, r)[k * dim + c] == row_of(b, w, r)[k * dim + c]);
        }
    }
}

/// Heads joined to rows are alike where the heads are.
proof fn lemma_joined_rows<T>(
    a: Seq<T>,
    b: Seq<T>,
    n: int,
    s: int,
    heads: int,
    dim: int,
    z: Span,
)
    requires
        heads > 0,
        dim >= 0,
        0 <= z.lo < z.hi <= n,
        alike_rows(a, b, n * heads, s, dim, heads_of(z, heads)),
    ensures
        alike_rows(
            transpose_0213_out(a, heads, s, dim),
            transpose_0213_out(b, heads, s, dim),
            n,
            s,
            heads * dim,
            z,
        ),
{
    let (x, y) = (transpose_0213_out(a, heads, s, dim), transpose_0213_out(b, heads, s, dim));
    let w = heads * dim;
    assert(n * s * (heads * dim) == n * s * heads * dim && n * s * heads * dim == n * heads * s * dim)
        by (nonlinear_arith);
    assert(w >= 0) by (nonlinear_arith)
        requires
            w == heads * dim,
            heads > 0,
            dim >= 0,
    ;
    assert forall|i: int, j: int| z.lo <= i < z.hi && 0 <= j <= z.t implies #[trigger] same_at(
        x,
        y,
        s,
        w,
        i,
        j,
    ) by {
        let r = i * s + j;
        assert forall|o: int| 0 <= o < w implies #[trigger] row_of(x, w, r)[o] == row_of(
            y,
            w,
            r,
        )[o] by {
            lemma_uncell(o, heads, dim);
            let (k, c) = (o / dim, o % dim);
            let m = i * heads + k;
            assert(z.lo * heads <= m < z.hi * heads) by (nonlinear_arith)
                requires
                    z.lo <= i < z.hi,
                    m == i * heads + k,
                    0 <= k < heads,
            ;
            assert(same_at(a, b, s, dim, m, j));
            assert(row_of(a, dim, m * s + j)[c] == row_of(b, dim, m * s + j)[c]);
            exchanged_element(a, n, heads, s, dim, i, k, j, c);
            exchanged_element(b, n, heads, s, dim, i, k, j, c);
            assert((r * heads + k) * dim + c == r * w + o) by (nonlinear_arith)
                requires
                    w == heads * dim,
                    o == k * dim + c,
            ;
        }
    }
}

/// A tensor of heads, of four dimensions.
pub open spec fn alike_heads<T: Scalar>(
    r: Runs<T>,
    id: usize,
    n: usize,
    heads: usize,
    s: usize,
    dim: usize,
    z: Span,
) -> bool {
    &&& id < r.a.len()
    &&& id < r.b.len()
    &&& r.a[id as int].shape == seq![n, heads, s, dim]
    &&& r.b[id as int].shape == seq![n, heads, s, dim]
    &&& alike_rows(
        r.a[id as int].data,
        r.b[id as int].data,
        n * heads,
        s as int,
        dim as int,
        heads_of(z, heads as int),
    )
}

/// A tensor of rows, seen as heads.
pub open spec fn alike_split<T: Scalar>(
    r: Runs<T>,
    id: usize,
    n: usize,
    s: usize,
    heads: usize,
    dim: usize,
    z: Span,
) -> bool {
    &&& id < r.a.len()
    &&& id < r.b.len()
    &&& r.a[id as int].shape == seq![n, s, heads, dim]
    &&& r.b[id as int].shape == seq![n, s, heads, dim]
    &&& alike_rows(
        r.a[id as int].data,
        r.b[id as int].data,
        n as int,
        s as int,
        heads * dim,
        z,
    )
}

proof fn lemma_split<T: Scalar>(
    st: Runs<T>,
    d: Draft<T>,
    id: usize,
    n: usize,
    s: usize,
    heads: usize,
    dim: usize,
    w: usize,
    z: Span,
    ordinary: spec_fn(T) -> bool,
)
    requires
        counted(st, d),
        w == heads * dim,
        alike(after(st, d), id, n, s, w, z),
        d.next + 1 <= usize::MAX,
        tamed(
            st,
            emit(d, Call::<T>::Reshape { a: id, dims: Dims::Four(n, s, heads, dim) }),
            ordinary,
        ),
    ensures
        ({
            let e = emit(d, Call::<T>::Reshape { a: id, dims: Dims::Four(n, s, heads, dim) });
            &&& counted(st, e)
            &&& alike_split(after(st, e), d.next as usize, n, s, heads, dim, z)
            &&& grown(after(st, d), after(st, e))
            &&& e.next == d.next + 1
        }),
{
    let c = Call::<T>::Reshape { a: id, dims: Dims::Four(n, s, heads, dim) };
    lemma_emit(st, d, c, ordinary);
}

proof fn lemma_cut<T: Scalar>(
    st: Runs<T>,
    d: Draft<T>,
    id: usize,
    n: usize,
    s: usize,
    heads: usize,
    dim: usize,
    z: Span,
    ordinary: spec_fn(T) -> bool,
)
    requires
        counted(st, d),
        heads > 0,
        alike_split(after(st, d), id, n, s, heads, dim, z),
        d.next + 1 <= usize::MAX,
        tamed(st, emit(d, Call::<T>::Transpose0213 { a: id }), ordinary),
    ensures
        ({
            let e = emit(d, Call::<T>::Transpose0213 { a: id });
            &&& counted(st, e)
            &&& alike_heads(after(st, e), d.next as usize, n, heads, s, dim, z)
            &&& grown(after(st, d), after(st, e))
            &&& e.next == d.next + 1
        }),
{
    let r = after(st, d);
    let c = Call::<T>::Transpose0213 { a: id };
    lemma_emit(st, d, c, ordinary);
    let (u, v) = (r.a[id as int], r.b[id as int]);
    assert(swap_shape(u.shape) =~= seq![n, heads, s, dim]);
    lemma_cut_rows(u.data, v.data, n as int, s as int, heads as int, dim as int, z);
}

/// The scales and the mask of earlier attentions are there and the same in both runs, and the mask
/// is one.
pub open spec fn caches_hold<T: Scalar>(r: Runs<T>, c: (ScaleCache, MaskCache)) -> bool {
    &&& c.0 matches Some(((n, q), id)) ==> same(r, id) && r.a[id as int].shape == seq![n, q, q]
    &&& c.1 matches Some((q, id)) ==> {
        &&& same(r, id)
        &&& r.a[id as int].shape == mask_shape(q)
        &&& r.a[id as int].data == mask_values::<T>(q)
    }
}

proof fn lemma_caches_kept<T: Scalar>(r: Runs<T>, q: Runs<T>, c: (ScaleCache, MaskCache))
    requires
        grown(r, q),
        caches_hold(r, c),
    ensures
        caches_hold(q, c),
{
}

proof fn scaled_begins<T: Scalar>(
    d: Draft<T>,
    q: usize,
    k: usize,
    n: usize,
    seq: usize,
    scale: T,
    style: Style,
    c: ScaleCache,
)
    ensures
        begins(d, scaled_scores(d, q, k, n, seq, scale, style, c).0),
{
    let c1 = Call::<T>::Bmm { a: q, b: k, trans_b: true };
    let d1 = emit(d, c1);
    let e = scaled_scores(d, q, k, n, seq, scale, style, c).0;
    begins_emit(d, c1);
    match scale_hit(c, n, seq) {
        Some(id) => {
            begins_emit(d1, Call::<T>::Mul { a: d.next as usize, b: id });
        },
        None => {
            let c2 = Call::<T>::Constant {
                dims: Dims::Three(n, seq, seq),
                value: scale,
                tag: style.tag,
                pooled: style.pooled,
            };
            let d2 = emit(d1, c2);
            begins_emit(d1, c2);
            begins_emit(d2, Call::<T>::Mul { a: d.next as usize, b: d1.next as usize });
            begins_through(d1, d2, e);
        },
    }
    begins_through(d, d1, e);
}

proof fn masked_begins<T: Scalar>(
    d: Draft<T>,
    scores: usize,
    seq: usize,
    causal: bool,
    half: bool,
    c: MaskCache,
)
    ensures
        begins(d, masked_scores(d, scores, seq, causal, half, c).0),
{
    let e = masked_scores(d, scores, seq, causal, half, c).0;
    if causal {
        match mask_hit(c, seq) {
            Some(id) => {
                begins_emit(d, Call::<T>::Add { a: scores, b: id });
            },
            None => {
                let c1 = Call::<T>::Mask { seq, half };
                let d1 = emit(d, c1);
                begins_emit(d, c1);
                begins_emit(d1, Call::<T>::Add { a: scores, b: d.next as usize });
                begins_through(d, d1, e);
            },
        }
    } else {
        begins_with_itself(d);
    }
}

proof fn attend_begins<T: Scalar>(
    d: Draft<T>,
    no_grad: bool,
    ids: (usize, usize, usize),
    n: usize,
    seq: usize,
    scale: T,
    causal: bool,
    style: Style,
    caches: (ScaleCache, MaskCache),
)
    ensures
        begins(d, attend_calls(d, no_grad, ids, n, seq, scale, causal, style, caches).0),
{
    let (q, k, v) = ids;
    let e = attend_calls(d, no_grad, ids, n, seq, scale, causal, style, caches).0;
    if no_grad {
        begins_emit(d, Call::<T>::FlashAttention { q, k, v, scale, causal });
    } else {
        let (d1, scores, sc) = scaled_scores(d, q, k, n, seq, scale, style, caches.0);
        let (d2, masked, mc) = masked_scores(d1, scores, seq, causal, style.half, caches.1);
        let c3 = Call::<T>::Softmax { a: masked };
        let d3 = emit(d2, c3);
        scaled_begins(d, q, k, n, seq, scale, style, caches.0);
        masked_begins(d1, scores, seq, causal, style.half, caches.1);
        begins_emit(d2, c3);
        begins_emit(d3, Call::<T>::Bmm { a: d2.next as usize, b: v, trans_b: false });
        begins_through(d2, d3, e);
        begins_through(d1, d2, e);
        begins_through(d, d1, e);
    }
}

/// The scores that a call has made are ordinary.
proof fn lemma_ordinary<T: Scalar>(
    ordinary: spec_fn(T) -> bool,
    r: Runs<T>,
    c: Call<T>,
    f: Runs<T>,
    id: usize,
)
    requires
        c is Mul,
        ordinary_scores(ordinary, r.a, c),
        ordinary_scores(ordinary, r.b, c),
        f.a[id as int] == made_by(r.a, c),
        f.b[id as int] == made_by(r.b, c),
    ensures
        forall|o: int|
            0 <= o < f.a[id as int].data.len() ==> ordinary(#[trigger] f.a[id as int].data[o]),
        forall|o: int|
            0 <= o < f.b[id as int].data.len() ==> ordinary(#[trigger] f.b[id as int].data[o]),
{
}

/// The scores of all queries for all keys, scaled: what a draft makes is what the scores are.
proof fn lemma_scaled<T: Scalar>(
    st: Runs<T>,
    d: Draft<T>,
    q: usize,
    k: usize,
    n: usize,
    seq: usize,
    dim: usize,
    scale: T,
    style: Style,
    c: ScaleCache,
    m: MaskCache,
    ordinary: spec_fn(T) -> bool,
) -> (w: Seq<T>)
    requires
        counted(st, d),
        q < d.next,
        k < d.next,
        after(st, d).a[q as int].shape == seq![n, seq, dim],
        after(st, d).b[q as int].shape == seq![n, seq, dim],
        after(st, d).a[k as int].shape == seq![n, seq, dim],
        after(st, d).b[k as int].shape == seq![n, seq, dim],
        caches_hold(after(st, d), (c, m)),
        d.next + 3 <= usize::MAX,
        tamed(st, scaled_scores(d, q, k, n, seq, scale, style, c).0, ordinary),
    ensures
        ({
            let (e, id, cache) = scaled_scores(d, q, k, n, seq, scale, style, c);
            let (r, f) = (after(st, d), after(st, e));
            let dims = BmmDims { batch: n, m: seq, k: dim, n: seq, trans_b: true };
            &&& counted(st, e)
            &&& d.next <= id < e.next
            &&& grown(r, f)
            &&& d.next < e.next <= d.next + 3
            &&& f.a[id as int].shape == seq![n, seq, seq]
            &&& f.b[id as int].shape == seq![n, seq, seq]
            &&& f.a[id as int].data == stepwise_scores(
                r.a[q as int].data,
                r.a[k as int].data,
                w,
                dims,
            )
            &&& f.b[id as int].data == stepwise_scores(
                r.b[q as int].data,
                r.b[k as int].data,
                w,
                dims,
            )
            &&& forall|o: int|
                0 <= o < f.a[id as int].data.len() ==> ordinary(#[trigger] f.a[id as int].data[o])
            &&& forall|o: int|
                0 <= o < f.b[id as int].data.len() ==> ordinary(#[trigger] f.b[id as int].data[o])
        }),
{
    let r = after(st, d);
    let shape = seq![n, seq, seq];
    let c1 = Call::<T>::Bmm { a: q, b: k, trans_b: true };
    let d1 = emit(d, c1);
    let (e, id, cache) = scaled_scores(d, q, k, n, seq, scale, style, c);
    let dims = BmmDims { batch: n, m: seq, k: dim, n: seq, trans_b: true };
    assert(broadcast_shape(shape, shape) =~= shape);
    assert(bmm_dims(seq![n, seq, dim], seq![n, seq, dim], true) == dims);
    match scale_hit(c, n, seq) {
        Some(sid) => {
            let mul = Call::<T>::Mul { a: d.next as usize, b: sid };
            begins_emit(d1, mul);
            lemma_tamed(st, d1, e, ordinary);
            lemma_emit(st, d, c1, ordinary);
            lemma_emit(st, d1, mul, ordinary);
            let r1 = after(st, d1);
            let w = r1.a[sid as int].data;
            let f = after(st, e);
            assert(f.a[id as int] == made_by(r1.a, mul));
            assert(f.b[id as int] == made_by(r1.b, mul));
            assert(f.a[id as int].data == stepwise_scores(
                r.a[q as int].data,
                r.a[k as int].data,
                w,
                dims,
            ));
            assert(f.b[id as int].data == stepwise_scores(
                r.b[q as int].data,
                r.b[k as int].data,
                w,
                dims,
            ));
            lemma_ordinary(ordinary, r1, mul, f, id);
            w
        },
        None => {
            let c2 = Call::<T>::Constant {
                dims: Dims::Three(n, seq, seq),
                value: scale,
                tag: style.tag,
                pooled: style.pooled,
            };
            let d2 = emit(d1, c2);
            let mul = Call::<T>::Mul { a: d.next as usize, b: d1.next as usize };
            begins_emit(d1, c2);
            begins_emit(d2, mul);
            begins_through(d1, d2, e);
            lemma_tamed(st, d1, e, ordinary);
            lemma_tamed(st, d2, e, ordinary);
            lemma_emit(st, d, c1, ordinary);
            lemma_emit(st, d1, c2, ordinary);
            lemma_emit(st, d2, mul, ordinary);
            let r2 = after(st, d2);
            let w = r2.a[d1.next].data;
            let f = after(st, e);
            assert(f.a[id as int] == made_by(r2.a, mul));
            assert(f.b[id as int] == made_by(r2.b, mul));
            assert(f.a[id as int].data == stepwise_scores(
                r.a[q as int].data,
                r.a[k as int].data,
                w,
                dims,
            ));
            assert(f.b[id as int].data == stepwise_scores(
                r.b[q as int].data,
                r.b[k as int].data,
                w,
                dims,
            ));
            lemma_ordinary(ordinary, r2, mul, f, id);
            w
        },
    }
}

/// The weights of masked scores: what a draft makes is what the weights are.
proof fn lemma_weights<T: Scalar>(
    st: Runs<T>,
    d: Draft<T>,
    scores: usize,
    n: usize,
    seq: usize,
    half: bool,
    c: ScaleCache,
    m: MaskCache,
    ordinary: spec_fn(T) -> bool,
)
    requires
        counted(st, d),
        n >= 1,
        seq >= 1,
        scores < d.next,
        after(st, d).a[scores as int].shape == seq![n, seq, seq],
        after(st, d).b[scores as int].shape == seq![n, seq, seq],
        caches_hold(after(st, d), (c, m)),
        d.next + 3 <= usize::MAX,
        ({
            let (e, id, cache) = masked_scores(d, scores, seq, true, half, m);
            tamed(st, emit(e, Call::<T>::Softmax { a: id }), ordinary)
        }),
    ensures
        ({
            let (e, id, cache) = masked_scores(d, scores, seq, true, half, m);
            let g = emit(e, Call::<T>::Softmax { a: id });
            let (r, f) = (after(st, d), after(st, g));
            &&& counted(st, g)
            &&& counted(st, e)
            &&& grown(r, f)
            &&& d.next < e.next < g.next <= d.next + 3
            &&& f.a[e.next].shape == seq![n, seq, seq]
            &&& f.b[e.next].shape == seq![n, seq, seq]
            &&& f.a[e.next].data == stepwise_weights(r.a[scores as int].data, n, seq)
            &&& f.b[e.next].data == stepwise_weights(r.b[scores as int].data, n, seq)
            &&& broadcast_ok(seq![n, seq, seq], seq![1, seq, seq])
        }),
{
    let r = after(st, d);
    let shape = seq![n, seq, seq];
    let (e, id, cache) = masked_scores(d, scores, seq, true, half, m);
    let soft = Call::<T>::Softmax { a: id };
    let g = emit(e, soft);
    assert(broadcast_shape(shape, mask_shape(seq)) =~= shape);
    lemma_product3(n, seq, seq);
    vstd::arithmetic::div_mod::lemma_fundamental_div_mod_converse(
        n * seq * seq,
        seq as int,
        n * seq,
        0,
    );
    begins_emit(e, soft);
    lemma_tamed(st, e, g, ordinary);
    match mask_hit(m, seq) {
        Some(mid) => {
            let add = Call::<T>::Add { a: scores, b: mid };
            lemma_emit(st, d, add, ordinary);
            lemma_emit(st, e, soft, ordinary);
            let h = after(st, e);
            assert(h.a[id as int] == made_by(r.a, add));
            assert(h.b[id as int] == made_by(r.b, add));
        },
        None => {
            let c1 = Call::<T>::Mask { seq, half };
            let d1 = emit(d, c1);
            let add = Call::<T>::Add { a: scores, b: d.next as usize };
            begins_emit(d1, add);
            lemma_tamed(st, d1, e, ordinary);
            lemma_emit(st, d, c1, ordinary);
            lemma_emit(st, d1, add, ordinary);
            lemma_emit(st, e, soft, ordinary);
            let h = after(st, e);
            assert(h.a[id as int] == made_by(after(st, d1).a, add));
            assert(h.b[id as int] == made_by(after(st, d1).b, add));
        },
    }
    let f = after(st, g);
    assert(f.a[e.next] == made_by(after(st, e).a, soft));
    assert(f.b[e.next] == made_by(after(st, e).b, soft));
}

/// What attention gives at a position depends on queries, keys and values up to there.
proof fn lemma_attend<T: Scalar>(
    st: Runs<T>,
    d: Draft<T>,
    no_grad: bool,
    ids: (usize, usize, usize),
    n: usize,
    seq: usize,
    dim: usize,
    scale: T,
    style: Style,
    caches: (ScaleCache, MaskCache),
    z: Span,
    ordinary: spec_fn(T) -> bool,
)
    requires
        hides(ordinary),
        counted(st, d),
        alike(after(st, d), ids.0, n, seq, dim, z),
        alike(after(st, d), ids.1, n, seq, dim, z),
        alike(after(st, d), ids.2, n, seq, dim, z),
        caches_hold(after(st, d), caches),
        d.next + 7 <= usize::MAX,
        tamed(
            st,
            attend_calls(d, no_grad, ids, n, seq, scale, true, style, caches).0,
            ordinary,
        ),
    ensures
        ({
            let (e, a) = attend_calls(d, no_grad, ids, n, seq, scale, true, style, caches);
            &&& counted(st, e)
            &&& d.next <= a.id < e.next
            &&& alike(after(st, e), a.id, n, seq, dim, z)
            &&& grown(after(st, d), after(st, e))
            &&& d.next < e.next <= d.next + 7
        }),
{
    let (q, k, v) = ids;
    let r = after(st, d);
    let (e, a) = attend_calls(d, no_grad, ids, n, seq, scale, true, style, caches);
    let x = (r.a[q as int].data, r.a[k as int].data, r.a[v as int].data);
    let y = (r.b[q as int].data, r.b[k as int].data, r.b[v as int].data);
    let (s, w) = (seq as int, dim as int);
    if no_grad {
        let c = Call::<T>::FlashAttention { q, k, v, scale, causal: true };
        lemma_emit(st, d, c, ordinary);
        let f = after(st, e);
        let dims = flash_dims(r.a[q as int].shape, r.a[k as int].shape);
        assert forall|m: int, i: int| z.lo <= m < z.hi && 0 <= i <= z.t implies #[trigger] same_at(
            f.a[d.next].data,
            f.b[d.next].data,
            s,
            w,
            m,
            i,
        ) by {
            lemma_cell(m, n as int, i, s);
            lemma_same_until(x.1, y.1, n as int, s, w, z, m, i);
            lemma_same_until(x.2, y.2, n as int, s, w, z, m, i);
            assert(same_at(x.0, y.0, s, w, m, i));
            assert(ordinary_products(ordinary, r.a[q as int], r.a[k as int], scale));
            let row = m * dims.m + i;
            assert(dims.batch == n && dims.m == seq && dims.n == seq && dims.d == dim);
            assert(0 <= row < dims.batch * dims.m);
            assert forall|j: int| 0 <= j <= i implies ordinary(
                #[trigger] scores(x.0, x.1, dims, scale, false, row)[j],
            ) by {
                assert(0 <= j < dims.n);
                assert(scores(
                    r.a[q as int].data,
                    r.a[k as int].data,
                    dims,
                    scale,
                    false,
                    row,
                )[j] == scores(x.0, x.1, dims, scale, false, row)[j]);
            }
            one_pass_sees_no_future(ordinary, x, y, dims, scale, m, i);
        }
    } else {
        let (d1, sc, cache) = scaled_scores(d, q, k, n, seq, scale, style, caches.0);
        let (d2, masked, mc) = masked_scores(d1, sc, seq, true, style.half, caches.1);
        let c3 = Call::<T>::Softmax { a: masked };
        let d3 = emit(d2, c3);
        let c4 = Call::<T>::Bmm { a: d2.next as usize, b: v, trans_b: false };
        begins_emit(d3, c4);
        begins_emit(d2, c3);
        masked_begins(d1, sc, seq, true, style.half, caches.1);
        begins_through(d2, d3, e);
        begins_through(d1, d2, e);
        lemma_tamed(st, d1, e, ordinary);
        lemma_tamed(st, d3, e, ordinary);
        let scales = lemma_scaled(
            st,
            d,
            q,
            k,
            n,
            seq,
            dim,
            scale,
            style,
            caches.0,
            caches.1,
            ordinary,
        );
        let r1 = after(st, d1);
        lemma_caches_kept(r, r1, caches);
        lemma_weights(st, d1, sc, n, seq, style.half, caches.0, caches.1, ordinary);
        lemma_emit(st, d3, c4, ordinary);
        let f = after(st, e);
        let dims = BmmDims { batch: n, m: seq, k: dim, n: seq, trans_b: true };
        let out = BmmDims { batch: n, m: seq, k: seq, n: dim, trans_b: false };
        assert(bmm_dims(seq![n, seq, seq], seq![n, seq, dim], false) == out);
        assert(f.a[d3.next] == made_by(after(st, d3).a, c4));
        assert(f.b[d3.next] == made_by(after(st, d3).b, c4));
        assert(f.a[d3.next].shape =~= seq![n, seq, dim]);
        assert(f.b[d3.next].shape =~= seq![n, seq, dim]);
        assert forall|m: int, i: int| z.lo <= m < z.hi && 0 <= i <= z.t implies #[trigger] same_at(
            f.a[d3.next].data,
            f.b[d3.next].data,
            s,
            w,
            m,
            i,
        ) by {
            lemma_same_until(x.1, y.1, n as int, s, w, z, m, i);
            lemma_same_until(x.2, y.2, n as int, s, w, z, m, i);
            assert(same_at(x.0, y.0, s, w, m, i));
            stepwise_sees_no_future(ordinary, x, y, scales, n, seq, dim, m, i);
        }
    }
}

proof fn lemma_same_until<T>(
    a: Seq<T>,
    b: Seq<T>,
    n: int,
    s: int,
    w: int,
    z: Span,
    m: int,
    i: int,
)
    requires
        alike_rows(a, b, n, s, w, z),
        z.lo <= m < z.hi,
        0 <= i <= z.t,
    ensures
        forall|j: int| 0 <= j <= i ==> #[trigger] same_row(a, b, w, m * s + j),
{
    assert forall|j: int| 0 <= j <= i implies #[trigger] same_row(a, b, w, m * s + j) by {
        assert(same_at(a, b, s, w, m, j));
    }
}

pub proof fn linear_begins<T: Scalar>(l: Linear, out: usize, mixed: bool, d: Draft<T>, x: Val)
    ensures
        begins(d, linear_calls(l, out, mixed, d, x).0),
{
    let e = linear_calls(l, out, mixed, d, x).0;
    let c = if mixed {
        Call::<T>::MatmulBf16 { a: x.id, b: l.weight_id }
    } else {
        Call::<T>::Matmul { a: x.id, b: l.weight_id }
    };
    let p = emit(d, c);
    begins_emit(d, c);
    let (q, id) = match l.bias_id {
        Some(b) => (emit(p, Call::<T>::Add { a: d.next as usize, b }), p.next as usize),
        None => (p, d.next as usize),
    };
    match l.bias_id {
        Some(b) => {
            begins_emit(p, Call::<T>::Add { a: d.next as usize, b });
        },
        None => {
            begins_with_itself(p);
        },
    }
    match x.dims {
        Dims::Three(b, s, _) => {
            begins_emit(q, Call::<T>::Reinterpret { id, dims: Dims::Three(b, s, out) });
        },
        _ => {
            begins_with_itself(q);
        },
    }
    begins_through(p, q, e);
    begins_through(d, p, e);
}

proof fn projected_begins<T: Scalar>(
    layers: (Linear, Linear, Linear),
    g: Graph<T>,
    d: Draft<T>,
    x: Val,
)
    ensures
        begins(d, projected(layers, g, d, x).0),
{
    let (q, k, v) = layers;
    let d1 = linear_calls(q, q.columns(g), g.mixed(), d, x).0;
    let d2 = linear_calls(k, k.columns(g), g.mixed(), d1, x).0;
    let d3 = linear_calls(v, v.columns(g), g.mixed(), d2, x).0;
    linear_begins(q, q.columns(g), g.mixed(), d, x);
    linear_begins(k, k.columns(g), g.mixed(), d1, x);
    linear_begins(v, v.columns(g), g.mixed(), d2, x);
    begins_through(d1, d2, d3);
    begins_through(d, d1, d3);
}

proof fn lemma_projected<T: Scalar>(
    st: Runs<T>,
    layers: (Linear, Linear, Linear),
    g: Graph<T>,
    d: Draft<T>,
    x: Val,
    z: Span,
    ordinary: spec_fn(T) -> bool,
)
    requires
        counted(st, d),
        x.dims is Three,
        alike(after(st, d), x.id, x.dims->Three_0, x.dims->Three_1, x.dims->Three_2, z),
        same_linear(after(st, d), layers.0, layers.0.columns(g)),
        same_linear(after(st, d), layers.1, layers.1.columns(g)),
        same_linear(after(st, d), layers.2, layers.2.columns(g)),
        d.next + 6 <= usize::MAX,
        tamed(st, projected(layers, g, d, x).0, ordinary),
    ensures
        ({
            let (e, q, k, v) = projected(layers, g, d, x);
            let (n, s) = (x.dims->Three_0, x.dims->Three_1);
            &&& counted(st, e)
            &&& alike(after(st, e), q.id, n, s, layers.0.columns(g), z)
            &&& alike(after(st, e), k.id, n, s, layers.1.columns(g), z)
            &&& alike(after(st, e), v.id, n, s, layers.2.columns(g), z)
            &&& v.dims == Dims::Three(n, s, layers.2.columns(g))
            &&& grown(after(st, d), after(st, e))
            &&& d.next <= e.next <= d.next + 6
        }),
{
    let (n, s, w) = (x.dims->Three_0, x.dims->Three_1, x.dims->Three_2);
    let (q, k, v) = layers;
    let (d1, qv) = linear_calls(q, q.columns(g), g.mixed(), d, x);
    let (d2, kv) = linear_calls(k, k.columns(g), g.mixed(), d1, x);
    let (d3, vv) = linear_calls(v, v.columns(g), g.mixed(), d2, x);
    linear_begins(k, k.columns(g), g.mixed(), d1, x);
    linear_begins(v, v.columns(g), g.mixed(), d2, x);
    begins_through(d1, d2, d3);
    lemma_tamed(st, d1, d3, ordinary);
    lemma_tamed(st, d2, d3, ordinary);
    let r = after(st, d);
    lemma_linear(st, q, q.columns(g), g.mixed(), d, x, z, ordinary);
    let r1 = after(st, d1);
    lemma_same_linear(r, r1, k, k.columns(g));
    lemma_same_linear(r, r1, v, v.columns(g));
    lemma_alike_kept(r, r1, x.id, n, s, w, z);
    lemma_linear(st, k, k.columns(g), g.mixed(), d1, x, z, ordinary);
    let r2 = after(st, d2);
    lemma_same_linear(r1, r2, v, v.columns(g));
    lemma_alike_kept(r1, r2, x.id, n, s, w, z);
    lemma_alike_kept(r1, r2, qv.id, n, s, q.columns(g), z);
    lemma_linear(st, v, v.columns(g), g.mixed(), d2, x, z, ordinary);
    let r3 = after(st, d3);
    lemma_alike_kept(r2, r3, qv.id, n, s, q.columns(g), z);
    lemma_alike_kept(r2, r3, kv.id, n, s, k.columns(g), z);
}

pub proof fn cut_begins<T: Scalar>(
    d: Draft<T>,
    ids: (usize, usize, usize),
    batch: usize,
    seq: usize,
    heads: usize,
    kv: usize,
    dim: usize,
)
    ensures
        begins(d, heads_cut(d, ids, batch, seq, heads, kv, dim).0),
{
    let c1 = Call::<T>::Reshape { a: ids.0, dims: Dims::Four(batch, seq, heads, dim) };
    let c2 = Call::<T>::Reshape { a: ids.1, dims: Dims::Four(batch, seq, kv, dim) };
    let c3 = Call::<T>::Reshape { a: ids.2, dims: Dims::Four(batch, seq, kv, dim) };
    let d1 = emit(d, c1);
    let d2 = emit(d1, c2);
    let d3 = emit(d2, c3);
    let c4 = Call::<T>::Transpose0213 { a: d.next as usize };
    let c5 = Call::<T>::Transpose0213 { a: d1.next as usize };
    let c6 = Call::<T>::Transpose0213 { a: d2.next as usize };
    let d4 = emit(d3, c4);
    let d5 = emit(d4, c5);
    let d6 = emit(d5, c6);
    begins_emit(d, c1);
    begins_emit(d1, c2);
    begins_emit(d2, c3);
    begins_emit(d3, c4);
    begins_emit(d4, c5);
    begins_emit(d5, c6);
    begins_through(d4, d5, d6);
    begins_through(d3, d4, d6);
    begins_through(d2, d3, d6);
    begins_through(d1, d2, d6);
    begins_through(d, d1, d6);
}

proof fn lemma_heads<T: Scalar>(
    st: Runs<T>,
    d: Draft<T>,
    ids: (usize, usize, usize),
    n: usize,
    s: usize,
    heads: usize,
    kv: usize,
    dim: usize,
    w: (usize, usize, usize),
    z: Span,
    ordinary: spec_fn(T) -> bool,
)
    requires
        counted(st, d),
        heads > 0,
        kv > 0,
        w.0 == heads * dim,
        w.1 == kv * dim,
        w.2 == kv * dim,
        alike(after(st, d), ids.0, n, s, w.0, z),
        alike(after(st, d), ids.1, n, s, w.1, z),
        alike(after(st, d), ids.2, n, s, w.2, z),
        d.next + 6 <= usize::MAX,
        tamed(st, heads_cut(d, ids, n, s, heads, kv, dim).0, ordinary),
    ensures
        ({
            let (e, r) = heads_cut(d, ids, n, s, heads, kv, dim);
            let f = after(st, e);
            &&& counted(st, e)
            &&& e.next == d.next + 6
            &&& grown(after(st, d), f)
            &&& d.next <= r.0 < r.1 < r.2 < e.next
            &&& alike_heads(f, r.0, n, heads, s, dim, z)
            &&& alike_heads(f, r.1, n, kv, s, dim, z)
            &&& alike_heads(f, r.2, n, kv, s, dim, z)
        }),
{
    let c1 = Call::<T>::Reshape { a: ids.0, dims: Dims::Four(n, s, heads, dim) };
    let c2 = Call::<T>::Reshape { a: ids.1, dims: Dims::Four(n, s, kv, dim) };
    let c3 = Call::<T>::Reshape { a: ids.2, dims: Dims::Four(n, s, kv, dim) };
    let d1 = emit(d, c1);
    let d2 = emit(d1, c2);
    let d3 = emit(d2, c3);
    let c4 = Call::<T>::Transpose0213 { a: d.next as usize };
    let c5 = Call::<T>::Transpose0213 { a: d1.next as usize };
    let c6 = Call::<T>::Transpose0213 { a: d2.next as usize };
    let d4 = emit(d3, c4);
    let d5 = emit(d4, c5);
    let d6 = emit(d5, c6);
    begins_emit(d1, c2);
    begins_emit(d2, c3);
    begins_emit(d3, c4);
    begins_emit(d4, c5);
    begins_emit(d5, c6);
    begins_through(d4, d5, d6);
    begins_through(d3, d4, d6);
    begins_through(d2, d3, d6);
    begins_through(d1, d2, d6);
    lemma_tamed(st, d1, d6, ordinary);
    lemma_tamed(st, d2, d6, ordinary);
    lemma_tamed(st, d3, d6, ordinary);
    lemma_tamed(st, d4, d6, ordinary);
    lemma_tamed(st, d5, d6, ordinary);
    lemma_split(st, d, ids.0, n, s, heads, dim, w.0, z, ordinary);
    lemma_split(st, d1, ids.1, n, s, kv, dim, w.1, z, ordinary);
    lemma_split(st, d2, ids.2, n, s, kv, dim, w.2, z, ordinary);
    lemma_cut(st, d3, d.next as usize, n, s, heads, dim, z, ordinary);
    lemma_cut(st, d4, d1.next as usize, n, s, kv, dim, z, ordinary);
    lemma_cut(st, d5, d2.next as usize, n, s, kv, dim, z, ordinary);
}

proof fn flattened_begins<T: Scalar>(
    d: Draft<T>,
    ids: (usize, usize, usize),
    n: usize,
    seq: usize,
    dim: usize,
)
    ensures
        begins(d, flattened(d, ids, n, seq, dim)),
{
    let dims = Dims::Three(n, seq, dim);
    let c1 = Call::<T>::Reinterpret { id: ids.0, dims };
    let c2 = Call::<T>::Reinterpret { id: ids.1, dims };
    let c3 = Call::<T>::Reinterpret { id: ids.2, dims };
    let d1 = emit(d, c1);
    let d2 = emit(d1, c2);
    begins_emit(d, c1);
    begins_emit(d1, c2);
    begins_emit(d2, c3);
    begins_through(d1, d2, emit(d2, c3));
    begins_through(d, d1, emit(d2, c3));
}

proof fn lemma_flatten<T: Scalar>(
    st: Runs<T>,
    base: Runs<T>,
    d: Draft<T>,
    ids: (usize, usize, usize),
    n: usize,
    heads: usize,
    s: usize,
    dim: usize,
    z: Span,
    ordinary: spec_fn(T) -> bool,
)
    requires
        counted(st, d),
        n * heads <= usize::MAX,
        grown(base, after(st, d)),
        base.a.len() <= ids.0,
        base.a.len() <= ids.1,
        base.a.len() <= ids.2,
        base.b.len() == base.a.len(),
        ids.0 != ids.1,
        ids.0 != ids.2,
        ids.1 != ids.2,
        alike_heads(after(st, d), ids.0, n, heads, s, dim, z),
        alike_heads(after(st, d), ids.1, n, heads, s, dim, z),
        alike_heads(after(st, d), ids.2, n, heads, s, dim, z),
        tamed(st, flattened(d, ids, (n * heads) as usize, s, dim), ordinary),
    ensures
        ({
            let m = (n * heads) as usize;
            let e = flattened(d, ids, m, s, dim);
            let f = after(st, e);
            let h = heads_of(z, heads as int);
            &&& counted(st, e)
            &&& e.next == d.next
            &&& grown(base, f)
            &&& alike(f, ids.0, m, s, dim, h)
            &&& alike(f, ids.1, m, s, dim, h)
            &&& alike(f, ids.2, m, s, dim, h)
        }),
{
    let m = (n * heads) as usize;
    let dims = Dims::Three(m, s, dim);
    let c1 = Call::<T>::Reinterpret { id: ids.0, dims };
    let c2 = Call::<T>::Reinterpret { id: ids.1, dims };
    let c3 = Call::<T>::Reinterpret { id: ids.2, dims };
    let d1 = emit(d, c1);
    let d2 = emit(d1, c2);
    let e = emit(d2, c3);
    begins_emit(d1, c2);
    begins_emit(d2, c3);
    begins_through(d1, d2, e);
    lemma_tamed(st, d1, e, ordinary);
    lemma_tamed(st, d2, e, ordinary);
    lemma_emit(st, d, c1, ordinary);
    lemma_emit(st, d1, c2, ordinary);
    lemma_emit(st, d2, c3, ordinary);
}

proof fn joined_begins<T: Scalar>(
    d: Draft<T>,
    id: usize,
    batch: usize,
    seq: usize,
    heads: usize,
    dim: usize,
    hidden: usize,
)
    ensures
        begins(d, heads_joined(d, id, batch, seq, heads, dim, hidden).0),
{
    let c1 = Call::<T>::Reinterpret { id, dims: Dims::Four(batch, heads, seq, dim) };
    let d1 = emit(d, c1);
    let c2 = Call::<T>::Transpose0213 { a: id };
    let d2 = emit(d1, c2);
    let c3 = Call::<T>::Reshape { a: d1.next as usize, dims: Dims::Three(batch, seq, hidden) };
    begins_emit(d, c1);
    begins_emit(d1, c2);
    begins_emit(d2, c3);
    begins_through(d1, d2, emit(d2, c3));
    begins_through(d, d1, emit(d2, c3));
}

proof fn lemma_joined<T: Scalar>(
    st: Runs<T>,
    base: Runs<T>,
    d: Draft<T>,
    id: usize,
    n: usize,
    s: usize,
    heads: usize,
    dim: usize,
    hidden: usize,
    z: Span,
    ordinary: spec_fn(T) -> bool,
)
    requires
        counted(st, d),
        heads > 0,
        n * heads <= usize::MAX,
        hidden == heads * dim,
        0 <= z.lo < z.hi <= n,
        grown(base, after(st, d)),
        base.a.len() <= id,
        base.b.len() == base.a.len(),
        alike(after(st, d), id, (n * heads) as usize, s, dim, heads_of(z, heads as int)),
        d.next + 2 <= usize::MAX,
        tamed(st, heads_joined(d, id, n, s, heads, dim, hidden).0, ordinary),
    ensures
        ({
            let (e, y) = heads_joined(d, id, n, s, heads, dim, hidden);
            &&& counted(st, e)
            &&& y.dims == Dims::Three(n, s, hidden)
            &&& alike(after(st, e), y.id, n, s, hidden, z)
            &&& grown(base, after(st, e))
            &&& e.next == d.next + 2
        }),
{
    let c1 = Call::<T>::Reinterpret { id, dims: Dims::Four(n, heads, s, dim) };
    let d1 = emit(d, c1);
    let c2 = Call::<T>::Transpose0213 { a: id };
    let d2 = emit(d1, c2);
    let c3 = Call::<T>::Reshape { a: d1.next as usize, dims: Dims::Three(n, s, hidden) };
    let e = emit(d2, c3);
    begins_emit(d1, c2);
    begins_emit(d2, c3);
    begins_through(d1, d2, e);
    lemma_tamed(st, d1, e, ordinary);
    lemma_tamed(st, d2, e, ordinary);
    lemma_emit(st, d, c1, ordinary);
    lemma_emit(st, d1, c2, ordinary);
    lemma_emit(st, d2, c3, ordinary);
    let r = after(st, d);
    let (u, v) = (r.a[id as int].data, r.b[id as int].data);
    lemma_joined_rows(u, v, n as int, s as int, heads as int, dim as int, z);
    let r2 = after(st, d2);
    assert(r2.a[d1.next].data == transpose_0213_out(u, heads as int, s as int, dim as int));
    assert(r2.b[d1.next].data == transpose_0213_out(v, heads as int, s as int, dim as int));
}

/// The layers of an attention are the same in both runs, its sizes go together, and what it has
/// kept is there.
pub open spec fn same_attention<T: Scalar>(
    r: Runs<T>,
    m: MultiHeadAttention,
    g: Graph<T>,
) -> bool {
    &&& same_linear(r, m.q_proj, m.q_proj.columns(g))
    &&& same_linear(r, m.k_proj, m.k_proj.columns(g))
    &&& same_linear(r, m.v_proj, m.v_proj.columns(g))
    &&& same_linear(r, m.out_proj, m.out_proj.columns(g))
    &&& m.num_heads > 0
    &&& m.hidden_dim == m.num_heads * m.head_dim
    &&& m.q_proj.columns(g) == m.hidden_dim
    &&& m.k_proj.columns(g) == m.hidden_dim
    &&& m.v_proj.columns(g) == m.hidden_dim
    &&& caches_hold(r, (m.cached_scale, m.cached_mask))
}

proof fn lemma_same_attention<T: Scalar>(
    r: Runs<T>,
    q: Runs<T>,
    m: MultiHeadAttention,
    g: Graph<T>,
)
    requires
        grown(r, q),
        same_attention(r, m, g),
    ensures
        same_attention(q, m, g),
{
    lemma_same_linear(r, q, m.q_proj, m.q_proj.columns(g));
    lemma_same_linear(r, q, m.k_proj, m.k_proj.columns(g));
    lemma_same_linear(r, q, m.v_proj, m.v_proj.columns(g));
    lemma_same_linear(r, q, m.out_proj, m.out_proj.columns(g));
    lemma_caches_kept(r, q, (m.cached_scale, m.cached_mask));
}

pub proof fn mha_begins<T: Scalar>(
    m: MultiHeadAttention,
    g: Graph<T>,
    d: Draft<T>,
    x: Val,
    causal: bool,
)
    ensures
        ({
            let (batch, seq) = (x.dims->Three_0, x.dims->Three_1);
            let (d1, q, k, v) = projected((m.q_proj, m.k_proj, m.v_proj), g, d, x);
            let d2 = emit(d1, Call::Rope { a: q.id, head_dim: m.head_dim });
            let d3 = emit(d2, Call::Rope { a: k.id, head_dim: m.head_dim });
            let turned = (d1.next as usize, d2.next as usize, v.id);
            let cut = heads_cut(d3, turned, batch, seq, m.num_heads, m.num_heads, m.head_dim).0;
            let e = mha_calls(m, g, d, x, causal).0;
            &&& begins(d, e)
            &&& begins(cut, e)
        }),
{
    let (batch, seq) = (x.dims->Three_0, x.dims->Three_1);
    let n = (batch * m.num_heads) as usize;
    let layers = (m.q_proj, m.k_proj, m.v_proj);
    let (d1, q, k, v) = projected(layers, g, d, x);
    let c2 = Call::<T>::Rope { a: q.id, head_dim: m.head_dim };
    let d2 = emit(d1, c2);
    let c3 = Call::<T>::Rope { a: k.id, head_dim: m.head_dim };
    let d3 = emit(d2, c3);
    let turned = (d1.next as usize, d2.next as usize, v.id);
    let (d4, ids) = heads_cut(d3, turned, batch, seq, m.num_heads, m.num_heads, m.head_dim);
    let d5 = flattened(d4, ids, n, seq, m.head_dim);
    let scale = score_scale::<T>(m.head_dim);
    let style = Style { tag: Tag::AttnScale, pooled: false, half: g.mixed() };
    let caches = (m.cached_scale, m.cached_mask);
    let (d6, done) = attend_calls(d5, g.no_grad, ids, n, seq, scale, causal, style, caches);
    let (d7, context) = heads_joined(
        d6,
        done.id,
        batch,
        seq,
        m.num_heads,
        m.head_dim,
        m.hidden_dim,
    );
    let (d8, y) = linear_calls(m.out_proj, m.out_proj.columns(g), g.mixed(), d7, context);
    projected_begins(layers, g, d, x);
    begins_emit(d1, c2);
    begins_emit(d2, c3);
    cut_begins(d3, turned, batch, seq, m.num_heads, m.num_heads, m.head_dim);
    flattened_begins(d4, ids, n, seq, m.head_dim);
    attend_begins(d5, g.no_grad, ids, n, seq, scale, causal, style, caches);
    joined_begins(d6, done.id, batch, seq, m.num_heads, m.head_dim, m.hidden_dim);
    linear_begins(m.out_proj, m.out_proj.columns(g), g.mixed(), d7, context);
    begins_through(d6, d7, d8);
    begins_through(d5, d6, d8);
    begins_through(d4, d5, d8);
    begins_through(d3, d4, d8);
    begins_through(d2, d3, d8);
    begins_through(d1, d2, d8);
    begins_through(d, d1, d8);
}

/// From heads to the end of an attention: what is there before the heads stays.
proof fn lemma_core<T: Scalar>(
    st: Runs<T>,
    base: Runs<T>,
    g: Graph<T>,
    d: Draft<T>,
    ids: (usize, usize, usize),
    batch: usize,
    seq: usize,
    heads: usize,
    dim: usize,
    hidden: usize,
    scale: T,
    style: Style,
    caches: (ScaleCache, MaskCache),
    out: Linear,
    z: Span,
    ordinary: spec_fn(T) -> bool,
)
    requires
        hides(ordinary),
        counted(st, d),
        heads > 0,
        batch * heads <= usize::MAX,
        hidden == heads * dim,
        0 <= z.lo < z.hi <= batch,
        grown(base, after(st, d)),
        base.a.len() <= ids.0,
        base.a.len() <= ids.1,
        base.a.len() <= ids.2,
        base.b.len() == base.a.len(),
        ids.0 != ids.1,
        ids.0 != ids.2,
        ids.1 != ids.2,
        alike_heads(after(st, d), ids.0, batch, heads, seq, dim, z),
        alike_heads(after(st, d), ids.1, batch, heads, seq, dim, z),
        alike_heads(after(st, d), ids.2, batch, heads, seq, dim, z),
        caches_hold(base, caches),
        same_linear(base, out, out.columns(g)),
        d.next + 11 <= usize::MAX,
        ({
            let n = (batch * heads) as usize;
            let d1 = flattened(d, ids, n, seq, dim);
            let (d2, done) = attend_calls(d1, g.no_grad, ids, n, seq, scale, true, style, caches);
            let (d3, context) = heads_joined(d2, done.id, batch, seq, heads, dim, hidden);
            tamed(
                st,
                linear_calls(out, out.columns(g), g.mixed(), d3, context).0,
                ordinary,
            )
        }),
    ensures
        ({
            let n = (batch * heads) as usize;
            let d1 = flattened(d, ids, n, seq, dim);
            let (d2, done) = attend_calls(d1, g.no_grad, ids, n, seq, scale, true, style, caches);
            let (d3, context) = heads_joined(d2, done.id, batch, seq, heads, dim, hidden);
            let (e, y) = linear_calls(out, out.columns(g), g.mixed(), d3, context);
            &&& counted(st, e)
            &&& alike(after(st, e), y.id, batch, seq, out.columns(g), z)
            &&& y.dims == Dims::Three(batch, seq, out.columns(g))
            &&& grown(base, after(st, e))
            &&& d.next <= e.next <= d.next + 11
        }),
{
    let n = (batch * heads) as usize;
    let d1 = flattened(d, ids, n, seq, dim);
    let (d2, done) = attend_calls(d1, g.no_grad, ids, n, seq, scale, true, style, caches);
    let (d3, context) = heads_joined(d2, done.id, batch, seq, heads, dim, hidden);
    let (e, y) = linear_calls(out, out.columns(g), g.mixed(), d3, context);
    attend_begins(d1, g.no_grad, ids, n, seq, scale, true, style, caches);
    joined_begins(d2, done.id, batch, seq, heads, dim, hidden);
    linear_begins(out, out.columns(g), g.mixed(), d3, context);
    begins_through(d2, d3, e);
    begins_through(d1, d2, e);
    lemma_tamed(st, d1, e, ordinary);
    lemma_tamed(st, d2, e, ordinary);
    lemma_tamed(st, d3, e, ordinary);
    lemma_flatten(st, base, d, ids, batch, heads, seq, dim, z, ordinary);
    lemma_caches_kept(base, after(st, d1), caches);
    let h = heads_of(z, heads as int);
    lemma_attend(st, d1, g.no_grad, ids, n, seq, dim, scale, style, caches, h, ordinary);
    lemma_grown(base, after(st, d1), after(st, d2));
    lemma_joined(st, base, d2, done.id, batch, seq, heads, dim, hidden, z, ordinary);
    lemma_same_linear(base, after(st, d3), out, out.columns(g));
    lemma_linear(st, out, out.columns(g), g.mixed(), d3, context, z, ordinary);
    lemma_grown(base, after(st, d3), after(st, e));
}

proof fn lemma_grown<T: Scalar>(a: Runs<T>, b: Runs<T>, c: Runs<T>)
    requires
        grown(a, b),
        grown(b, c),
    ensures
        grown(a, c),
{
}

/// From the input of an attention to its heads.
proof fn lemma_front<T: Scalar>(
    st: Runs<T>,
    layers: (Linear, Linear, Linear),
    g: Graph<T>,
    d: Draft<T>,
    x: Val,
    heads: usize,
    kv: usize,
    dim: usize,
    z: Span,
    ordinary: spec_fn(T) -> bool,
)
    requires
        counted(st, d),
        x.dims is Three,
        heads > 0,
        kv > 0,
        alike(after(st, d), x.id, x.dims->Three_0, x.dims->Three_1, x.dims->Three_2, z),
        same_linear(after(st, d), layers.0, layers.0.columns(g)),
        same_linear(after(st, d), layers.1, layers.1.columns(g)),
        same_linear(after(st, d), layers.2, layers.2.columns(g)),
        layers.0.columns(g) == heads * dim,
        layers.1.columns(g) == kv * dim,
        layers.2.columns(g) == kv * dim,
        d.next + 14 <= usize::MAX,
        ({
            let (d1, q, k, v) = projected(layers, g, d, x);
            let d2 = emit(d1, Call::<T>::Rope { a: q.id, head_dim: dim });
            let d3 = emit(d2, Call::<T>::Rope { a: k.id, head_dim: dim });
            let turned = (d1.next as usize, d2.next as usize, v.id);
            tamed(
                st,
                heads_cut(d3, turned, x.dims->Three_0, x.dims->Three_1, heads, kv, dim).0,
                ordinary,
            )
        }),
    ensures
        ({
            let (n, s) = (x.dims->Three_0, x.dims->Three_1);
            let (d1, q, k, v) = projected(layers, g, d, x);
            let d2 = emit(d1, Call::<T>::Rope { a: q.id, head_dim: dim });
            let d3 = emit(d2, Call::<T>::Rope { a: k.id, head_dim: dim });
            let turned = (d1.next as usize, d2.next as usize, v.id);
            let (e, ids) = heads_cut(d3, turned, n, s, heads, kv, dim);
            let f = after(st, e);
            &&& counted(st, e)
            &&& grown(after(st, d), f)
            &&& d.next <= ids.0 < ids.1 < ids.2 < e.next
            &&& d.next <= e.next <= d.next + 14
            &&& alike_heads(f, ids.0, n, heads, s, dim, z)
            &&& alike_heads(f, ids.1, n, kv, s, dim, z)
            &&& alike_heads(f, ids.2, n, kv, s, dim, z)
        }),
{
    let (batch, seq) = (x.dims->Three_0, x.dims->Three_1);
    let (d1, q, k, v) = projected(layers, g, d, x);
    let c2 = Call::<T>::Rope { a: q.id, head_dim: dim };
    let d2 = emit(d1, c2);
    let c3 = Call::<T>::Rope { a: k.id, head_dim: dim };
    let d3 = emit(d2, c3);
    let turned = (d1.next as usize, d2.next as usize, v.id);
    let (e, ids) = heads_cut(d3, turned, batch, seq, heads, kv, dim);
    begins_emit(d1, c2);
    begins_emit(d2, c3);
    cut_begins(d3, turned, batch, seq, heads, kv, dim);
    begins_through(d2, d3, e);
    begins_through(d1, d2, e);
    lemma_tamed(st, d1, e, ordinary);
    lemma_tamed(st, d2, e, ordinary);
    lemma_tamed(st, d3, e, ordinary);
    let w = (layers.0.columns(g), layers.1.columns(g), layers.2.columns(g));
    let (r, r1, r2, r3) = (after(st, d), after(st, d1), after(st, d2), after(st, d3));
    lemma_projected(st, layers, g, d, x, z, ordinary);
    lemma_rope(st, d1, q.id, batch, seq, w.0, dim, z, ordinary);
    lemma_alike_kept(r1, r2, k.id, batch, seq, w.1, z);
    lemma_alike_kept(r1, r2, v.id, batch, seq, w.2, z);
    lemma_grown(r, r1, r2);
    lemma_rope(st, d2, k.id, batch, seq, w.1, dim, z, ordinary);
    lemma_alike_kept(r2, r3, v.id, batch, seq, w.2, z);
    lemma_alike_kept(r2, r3, d1.next as usize, batch, seq, w.0, z);
    lemma_grown(r, r2, r3);
    lemma_heads(st, d3, turned, batch, seq, heads, kv, dim, w, z, ordinary);
    lemma_grown(r, r3, after(st, e));
}

/// What an attention with many heads gives at a position depends on its input up to there.
pub proof fn mha_is_causal<T: Scalar>(
    st: Runs<T>,
    m: MultiHeadAttention,
    g: Graph<T>,
    d: Draft<T>,
    x: Val,
    z: Span,
    ordinary: spec_fn(T) -> bool,
)
    requires
        hides(ordinary),
        counted(st, d),
        m.takes(x),
        alike(after(st, d), x.id, x.dims->Three_0, x.dims->Three_1, x.dims->Three_2, z),
        same_attention(after(st, d), m, g),
        d.next + 25 <= usize::MAX,
        tamed(st, mha_calls(m, g, d, x, true).0, ordinary),
    ensures
        ({
            let (e, y, kept) = mha_calls(m, g, d, x, true);
            let (n, s) = (x.dims->Three_0, x.dims->Three_1);
            &&& counted(st, e)
            &&& alike(after(st, e), y.id, n, s, m.out_proj.columns(g), z)
            &&& y.dims == Dims::Three(n, s, m.out_proj.columns(g))
            &&& grown(after(st, d), after(st, e))
            &&& d.next <= e.next <= d.next + 25
        }),
{
    let (batch, seq) = (x.dims->Three_0, x.dims->Three_1);
    let (heads, dim) = (m.num_heads, m.head_dim);
    let layers = (m.q_proj, m.k_proj, m.v_proj);
    let (d1, q, k, v) = projected(layers, g, d, x);
    let d2 = emit(d1, Call::<T>::Rope { a: q.id, head_dim: dim });
    let d3 = emit(d2, Call::<T>::Rope { a: k.id, head_dim: dim });
    let turned = (d1.next as usize, d2.next as usize, v.id);
    let (d4, ids) = heads_cut(d3, turned, batch, seq, heads, heads, dim);
    let e = mha_calls(m, g, d, x, true).0;
    mha_begins(m, g, d, x, true);
    lemma_tamed(st, d4, e, ordinary);
    lemma_front(st, layers, g, d, x, heads, heads, dim, z, ordinary);
    lemma_core(
        st,
        after(st, d),
        g,
        d4,
        ids,
        batch,
        seq,
        heads,
        dim,
        m.hidden_dim,
        score_scale::<T>(dim),
        Style { tag: Tag::AttnScale, pooled: false, half: g.mixed() },
        (m.cached_scale, m.cached_mask),
        m.out_proj,
        z,
        ordinary,
    );
}

/// Heads repeated are alike where the heads are.
proof fn lemma_repeated_rows<T>(
    a: Seq<T>,
    b: Seq<T>,
    d: RepeatDims,
    heads: int,
    z: Span,
)
    requires
        d.repeats > 0,
        heads == d.kv * d.repeats,
        0 <= z.lo < z.hi <= d.batch,
        d.kv > 0,
        alike_rows(a, b, d.batch * d.kv, d.seq as int, d.dim as int, heads_of(z, d.kv as int)),
    ensures
        alike_rows(
            repeat_kv_out(a, d),
            repeat_kv_out(b, d),
            d.batch * heads,
            d.seq as int,
            d.dim as int,
            heads_of(z, heads),
        ),
{
    let (x, y) = (repeat_kv_out(a, d), repeat_kv_out(b, d));
    let (n, s, w) = (d.batch as int, d.seq as int, d.dim as int);
    let (kv, k) = (d.kv as int, d.repeats as int);
    let head = s * w;
    assert(heads > 0) by (nonlinear_arith)
        requires
            heads == kv * k,
            kv > 0,
            k > 0,
    ;
    lemma_heads_of(z, n, heads);
    assert(n * heads * s * w == n * heads * head) by (nonlinear_arith)
        requires
            head == s * w,
    ;
    let h = heads_of(z, heads);
    assert forall|m: int, j: int| h.lo <= m < h.hi && 0 <= j <= h.t implies #[trigger] same_at(
        x,
        y,
        s,
        w,
        m,
        j,
    ) by {
        assert(h.hi == z.hi * kv * k && h.lo == z.lo * kv * k) by (nonlinear_arith)
            requires
                h.hi == z.hi * heads,
                h.lo == z.lo * heads,
                heads == kv * k,
        ;
        lemma_uncell(m, z.hi * kv, k);
        let from = m / k;
        assert(z.lo * kv <= from < z.hi * kv) by (nonlinear_arith)
            requires
                z.lo * kv * k <= m < z.hi * kv * k,
                m == from * k + m % k,
                0 <= m % k < k,
        ;
        assert(same_at(a, b, s, w, from, j));
        assert forall|c: int| 0 <= c < w implies #[trigger] row_of(x, w, m * s + j)[c] == row_of(
            y,
            w,
            m * s + j,
        )[c] by {
            lemma_cell(j, s, c, w);
            lemma_cell(m, n * heads, j * w + c, head);
            let o = (m * s + j) * w + c;
            assert(o == m * head + (j * w + c)) by (nonlinear_arith)
                requires
                    head == s * w,
                    o == (m * s + j) * w + c,
            ;
            assert(from * head + (j * w + c) == (from * s + j) * w + c) by (nonlinear_arith)
                requires
                    head == s * w,
            ;
            assert(d.source(o) == (from * s + j) * w + c);
            assert(0 <= o < d.out_len()) by {
                assert(d.out_len() == n * heads * head);
            }
            assert(row_of(a, w, from * s + j)[c] == row_of(b, w, from * s + j)[c]);
        }
    }
}

proof fn repeated_begins<T: Scalar>(d: Draft<T>, x: usize, repeats: usize)
    ensures
        begins(d, repeated(d, x, repeats).0),
{
    if repeats == 1 {
        begins_with_itself(d);
    } else {
        begins_emit(d, Call::<T>::RepeatKv { x, repeats });
    }
}

proof fn lemma_repeated<T: Scalar>(
    st: Runs<T>,
    d: Draft<T>,
    id: usize,
    n: usize,
    kv: usize,
    s: usize,
    dim: usize,
    repeats: usize,
    heads: usize,
    z: Span,
    ordinary: spec_fn(T) -> bool,
)
    requires
        counted(st, d),
        kv > 0,
        repeats > 0,
        heads == kv * repeats,
        0 <= z.lo < z.hi <= n,
        alike_heads(after(st, d), id, n, kv, s, dim, z),
        d.next + 1 <= usize::MAX,
        tamed(st, repeated(d, id, repeats).0, ordinary),
    ensures
        ({
            let (e, r) = repeated(d, id, repeats);
            &&& counted(st, e)
            &&& alike_heads(after(st, e), r, n, heads, s, dim, z)
            &&& grown(after(st, d), after(st, e))
            &&& r == id || r == d.next
            &&& r < e.next
            &&& d.next <= e.next <= d.next + 1
            &&& repeats != 1 ==> r == d.next
        }),
{
    if repeats != 1 {
        let r = after(st, d);
        let c = Call::<T>::RepeatKv { x: id, repeats };
        lemma_emit(st, d, c, ordinary);
        let (u, v) = (r.a[id as int], r.b[id as int]);
        let dims = repeat_dims(u.shape, repeats);
        lemma_repeated_rows(u.data, v.data, dims, heads as int, z);
        assert(repeat_shape(u.shape, repeats) =~= seq![n, heads, s, dim]);
    }
}

/// The layers of an attention with fewer heads for keys and values are the same in both runs, its
/// sizes go together, and what it has kept is there.
pub open spec fn same_grouped<T: Scalar>(
    r: Runs<T>,
    m: GroupedQueryAttention,
    g: Graph<T>,
) -> bool {
    &&& same_linear(r, m.q_proj, m.q_proj.columns(g))
    &&& same_linear(r, m.k_proj, m.k_proj.columns(g))
    &&& same_linear(r, m.v_proj, m.v_proj.columns(g))
    &&& same_linear(r, m.out_proj, m.out_proj.columns(g))
    &&& m.num_heads > 0
    &&& m.num_kv_heads > 0
    &&& m.num_heads % m.num_kv_heads == 0
    &&& m.hidden_dim == m.num_heads * m.head_dim
    &&& m.q_proj.columns(g) == m.hidden_dim
    &&& m.k_proj.columns(g) == m.num_kv_heads * m.head_dim
    &&& m.v_proj.columns(g) == m.num_kv_heads * m.head_dim
    &&& caches_hold(r, (m.cached_scale, m.cached_mask))
}

proof fn gqa_begins<T: Scalar>(
    m: GroupedQueryAttention,
    g: Graph<T>,
    d: Draft<T>,
    x: Val,
    causal: bool,
)
    ensures
        ({
            let (batch, seq) = (x.dims->Three_0, x.dims->Three_1);
            let repeats = m.num_heads / m.num_kv_heads;
            let (d1, q, k, v) = projected((m.q_proj, m.k_proj, m.v_proj), g, d, x);
            let d2 = emit(d1, Call::Rope { a: q.id, head_dim: m.head_dim });
            let d3 = emit(d2, Call::Rope { a: k.id, head_dim: m.head_dim });
            let turned = (d1.next as usize, d2.next as usize, v.id);
            let (d4, cut) = heads_cut(
                d3,
                turned,
                batch,
                seq,
                m.num_heads,
                m.num_kv_heads,
                m.head_dim,
            );
            let d5 = repeated(d4, cut.1, repeats).0;
            let d6 = repeated(d5, cut.2, repeats).0;
            let e = gqa_calls(m, g, d, x, causal).0;
            &&& begins(d4, e)
            &&& begins(d5, e)
            &&& begins(d6, e)
        }),
{
    let (batch, seq) = (x.dims->Three_0, x.dims->Three_1);
    let n = (batch * m.num_heads) as usize;
    let repeats = m.num_heads / m.num_kv_heads;
    let layers = (m.q_proj, m.k_proj, m.v_proj);
    let (d1, q, k, v) = projected(layers, g, d, x);
    let d2 = emit(d1, Call::<T>::Rope { a: q.id, head_dim: m.head_dim });
    let d3 = emit(d2, Call::<T>::Rope { a: k.id, head_dim: m.head_dim });
    let turned = (d1.next as usize, d2.next as usize, v.id);
    let (d4, cut) = heads_cut(d3, turned, batch, seq, m.num_heads, m.num_kv_heads, m.head_dim);
    let (d5, k_id) = repeated(d4, cut.1, repeats);
    let (d6, v_id) = repeated(d5, cut.2, repeats);
    let ids = (cut.0, k_id, v_id);
    let d7 = flattened(d6, ids, n, seq, m.head_dim);
    let scale = score_scale::<T>(m.head_dim);
    let style = Style { tag: Tag::GqaAttnScale, pooled: true, half: g.mixed() };
    let caches = (m.cached_scale, m.cached_mask);
    let (d8, done) = attend_calls(d7, g.no_grad, ids, n, seq, scale, causal, style, caches);
    let (d9, context) = heads_joined(
        d8,
        done.id,
        batch,
        seq,
        m.num_heads,
        m.head_dim,
        m.hidden_dim,
    );
    let e = linear_calls(m.out_proj, m.out_proj.columns(g), g.mixed(), d9, context).0;
    repeated_begins(d4, cut.1, repeats);
    repeated_begins(d5, cut.2, repeats);
    flattened_begins(d6, ids, n, seq, m.head_dim);
    attend_begins(d7, g.no_grad, ids, n, seq, scale, causal, style, caches);
    joined_begins(d8, done.id, batch, seq, m.num_heads, m.head_dim, m.hidden_dim);
    linear_begins(m.out_proj, m.out_proj.columns(g), g.mixed(), d9, context);
    begins_through(d8, d9, e);
    begins_through(d7, d8, e);
    begins_through(d6, d7, e);
    begins_through(d5, d6, e);
    begins_through(d4, d5, e);
}

/// What an attention with fewer heads for keys and values gives at a position depends on its input
/// up to there.
pub proof fn gqa_is_causal<T: Scalar>(
    st: Runs<T>,
    m: GroupedQueryAttention,
    kept: GroupedQueryAttention,
    g: Graph<T>,
    was: Program<T>,
    x: Val,
    now: Program<T>,
    y: Val,
    z: Span,
    ordinary: spec_fn(T) -> bool,
)
    requires
        hides(ordinary),
        counted(st, was@),
        m.accepts(g, was, x),
        m.passes(kept, g, was, x, now, y),
        alike(after(st, was@), x.id, x.dims->Three_0, x.dims->Three_1, x.dims->Three_2, z),
        same_grouped(after(st, was@), m, g),
        tamed(st, now@, ordinary),
    ensures
        alike(
            after(st, now@),
            y.id,
            x.dims->Three_0,
            x.dims->Three_1,
            m.out_proj.columns(g),
            z,
        ),
        grown(after(st, was@), after(st, now@)),
{
    let d = was@;
    let (batch, seq) = (x.dims->Three_0, x.dims->Three_1);
    let (heads, kv, dim) = (m.num_heads, m.num_kv_heads, m.head_dim);
    let repeats = heads / kv;
    vstd::arithmetic::div_mod::lemma_fundamental_div_mod(heads as int, kv as int);
    assert(repeats > 0) by (nonlinear_arith)
        requires
            heads == kv * repeats,
            heads > 0,
            repeats >= 0,
    ;
    let layers = (m.q_proj, m.k_proj, m.v_proj);
    let (d1, q, k, v) = projected(layers, g, d, x);
    let d2 = emit(d1, Call::<T>::Rope { a: q.id, head_dim: dim });
    let d3 = emit(d2, Call::<T>::Rope { a: k.id, head_dim: dim });
    let turned = (d1.next as usize, d2.next as usize, v.id);
    let (d4, cut) = heads_cut(d3, turned, batch, seq, heads, kv, dim);
    let (d5, k_id) = repeated(d4, cut.1, repeats);
    let (d6, v_id) = repeated(d5, cut.2, repeats);
    let e = now@;
    gqa_begins(m, g, d, x, true);
    lemma_tamed(st, d4, e, ordinary);
    lemma_tamed(st, d5, e, ordinary);
    lemma_tamed(st, d6, e, ordinary);
    let (r, r4, r5, r6) = (after(st, d), after(st, d4), after(st, d5), after(st, d6));
    lemma_front(st, layers, g, d, x, heads, kv, dim, z, ordinary);
    lemma_repeated(st, d4, cut.1, batch, kv, seq, dim, repeats, heads, z, ordinary);
    lemma_heads_kept(r4, r5, cut.0, batch, heads, seq, dim, z);
    lemma_heads_kept(r4, r5, cut.2, batch, kv, seq, dim, z);
    lemma_grown(r, r4, r5);
    lemma_repeated(st, d5, cut.2, batch, kv, seq, dim, repeats, heads, z, ordinary);
    lemma_heads_kept(r5, r6, cut.0, batch, heads, seq, dim, z);
    lemma_heads_kept(r5, r6, k_id, batch, heads, seq, dim, z);
    lemma_grown(r, r5, r6);
    lemma_core(
        st,
        r,
        g,
        d6,
        (cut.0, k_id, v_id),
        batch,
        seq,
        heads,
        dim,
        m.hidden_dim,
        score_scale::<T>(dim),
        Style { tag: Tag::GqaAttnScale, pooled: true, half: g.mixed() },
        (m.cached_scale, m.cached_mask),
        m.out_proj,
        z,
        ordinary,
    );
}

proof fn lemma_heads_kept<T: Scalar>(
    r: Runs<T>,
    q: Runs<T>,
    id: usize,
    n: usize,
    heads: usize,
    s: usize,
    dim: usize,
    z: Span,
)
    requires
        grown(r, q),
        alike_heads(r, id, n, heads, s, dim, z),
    ensures
        alike_heads(q, id, n, heads, s, dim, z),
{
}

/// The layers of an attention with one head are the same in both runs, its sizes go together, and
/// what it has kept is there.
pub open spec fn same_single<T: Scalar>(r: Runs<T>, m: Attention, g: Graph<T>) -> bool {
    &&& same_linear(r, m.q_proj, m.q_proj.columns(g))
    &&& same_linear(r, m.k_proj, m.k_proj.columns(g))
    &&& same_linear(r, m.v_proj, m.v_proj.columns(g))
    &&& same_linear(r, m.out_proj, m.out_proj.columns(g))
    &&& m.q_proj.columns(g) == m.hidden_dim
    &&& m.k_proj.columns(g) == m.hidden_dim
    &&& m.v_proj.columns(g) == m.hidden_dim
    &&& caches_hold(r, (m.cached_scale, m.cached_mask))
}

/// What an attention with one head gives at a position depends on its input up to there.
pub proof fn attention_is_causal<T: Scalar>(
    st: Runs<T>,
    m: Attention,
    kept: Attention,
    g: Graph<T>,
    was: Program<T>,
    x: Val,
    now: Program<T>,
    y: Val,
    z: Span,
    ordinary: spec_fn(T) -> bool,
)
    requires
        hides(ordinary),
        counted(st, was@),
        m.accepts(g, was, x),
        m.passes(kept, g, was, x, now, y),
        alike(after(st, was@), x.id, x.dims->Three_0, x.dims->Three_1, x.dims->Three_2, z),
        same_single(after(st, was@), m, g),
        tamed(st, now@, ordinary),
    ensures
        alike(
            after(st, now@),
            y.id,
            x.dims->Three_0,
            x.dims->Three_1,
            m.out_proj.columns(g),
            z,
        ),
        grown(after(st, was@), after(st, now@)),
{
    let d = was@;
    let (batch, seq) = (x.dims->Three_0, x.dims->Three_1);
    let layers = (m.q_proj, m.k_proj, m.v_proj);
    let (d1, q, k, v) = projected(layers, g, d, x);
    let ids = (q.id, k.id, v.id);
    let scale = score_scale::<T>(m.hidden_dim);
    let style = Style { tag: Tag::Plain, pooled: false, half: false };
    let caches = (m.cached_scale, m.cached_mask);
    let (d2, done) = attend_calls(d1, g.no_grad, ids, batch, seq, scale, true, style, caches);
    let context = Val { id: done.id, dims: v.dims };
    let e = now@;
    attend_begins(d1, g.no_grad, ids, batch, seq, scale, true, style, caches);
    linear_begins(m.out_proj, m.out_proj.columns(g), g.mixed(), d2, context);
    begins_through(d1, d2, e);
    lemma_tamed(st, d1, e, ordinary);
    lemma_tamed(st, d2, e, ordinary);
    let (r, r1, r2) = (after(st, d), after(st, d1), after(st, d2));
    let w = m.hidden_dim;
    lemma_projected(st, layers, g, d, x, z, ordinary);
    lemma_caches_kept(r, r1, caches);
    lemma_attend(st, d1, g.no_grad, ids, batch, seq, w, scale, style, caches, z, ordinary);
    lemma_grown(r, r1, r2);
    lemma_same_linear(r, r2, m.out_proj, m.out_proj.columns(g));
    lemma_linear(st, m.out_proj, m.out_proj.columns(g), g.mixed(), d2, context, z, ordinary);
    lemma_grown(r, r2, after(st, e));
}

/// The layers of a block, for rows of `hidden` numbers, are the same in both runs.
pub open spec fn same_block<T: Scalar>(
    r: Runs<T>,
    b: TransformerBlock<T>,
    g: Graph<T>,
    hidden: usize,
) -> bool {
    &&& same_attention(r, b.attn, g)
    &&& b.attn.out_proj.columns(g) == hidden
    &&& same(r, b.norm1.weight_id)
    &&& same(r, b.norm2.weight_id)
    &&& same_linear(r, b.ffn1, b.ffn1.columns(g))
    &&& same_linear(r, b.ffn2, b.ffn2.columns(g))
    &&& b.ffn2.columns(g) == hidden
}

proof fn lemma_same_block<T: Scalar>(
    r: Runs<T>,
    q: Runs<T>,
    b: TransformerBlock<T>,
    g: Graph<T>,
    hidden: usize,
)
    requires
        grown(r, q),
        same_block(r, b, g, hidden),
    ensures
        same_block(q, b, g, hidden),
{
    lemma_same_attention(r, q, b.attn, g);
    lemma_same_linear(r, q, b.ffn1, b.ffn1.columns(g));
    lemma_same_linear(r, q, b.ffn2, b.ffn2.columns(g));
}

pub proof fn norm_begins<T: Scalar>(l: RMSNorm<T>, d: Draft<T>, x: Val)
    ensures
        begins(d, norm_calls(l, d, x).0),
{
    begins_emit(d, Call::<T>::RmsNorm { x: x.id, w: l.weight_id, eps: l.eps });
}

/// The second half of a block.
spec fn block_end<T: Scalar>(b: TransformerBlock<T>, g: Graph<T>, d: Draft<T>, r1: Val) -> (
    Draft<T>,
    Val,
) {
    let (d4, n2) = norm_calls(b.norm2, d, r1);
    let (d5, f1) = linear_calls(b.ffn1, b.ffn1.columns(g), g.mixed(), d4, n2);
    let d6 = emit(d5, Call::<T>::Silu { a: f1.id });
    let act = Val { id: d5.next as usize, dims: f1.dims };
    let (d7, f2) = linear_calls(b.ffn2, b.ffn2.columns(g), g.mixed(), d6, act);
    (
        emit(d7, Call::<T>::Add { a: r1.id, b: f2.id }),
        Val { id: d7.next as usize, dims: r1.dims },
    )
}

proof fn block_end_begins<T: Scalar>(b: TransformerBlock<T>, g: Graph<T>, d: Draft<T>, r1: Val)
    ensures
        begins(d, block_end(b, g, d, r1).0),
{
    let (d4, n2) = norm_calls(b.norm2, d, r1);
    let (d5, f1) = linear_calls(b.ffn1, b.ffn1.columns(g), g.mixed(), d4, n2);
    let c6 = Call::<T>::Silu { a: f1.id };
    let d6 = emit(d5, c6);
    let act = Val { id: d5.next as usize, dims: f1.dims };
    let (d7, f2) = linear_calls(b.ffn2, b.ffn2.columns(g), g.mixed(), d6, act);
    let c8 = Call::<T>::Add { a: r1.id, b: f2.id };
    let e = emit(d7, c8);
    norm_begins(b.norm2, d, r1);
    linear_begins(b.ffn1, b.ffn1.columns(g), g.mixed(), d4, n2);
    begins_emit(d5, c6);
    linear_begins(b.ffn2, b.ffn2.columns(g), g.mixed(), d6, act);
    begins_emit(d7, c8);
    begins_through(d6, d7, e);
    begins_through(d5, d6, e);
    begins_through(d4, d5, e);
    begins_through(d, d4, e);
}

proof fn lemma_block_end<T: Scalar>(
    st: Runs<T>,
    b: TransformerBlock<T>,
    g: Graph<T>,
    d: Draft<T>,
    r1: Val,
    z: Span,
    ordinary: spec_fn(T) -> bool,
)
    requires
        counted(st, d),
        r1.dims is Three,
        alike(after(st, d), r1.id, r1.dims->Three_0, r1.dims->Three_1, r1.dims->Three_2, z),
        same_block(after(st, d), b, g, r1.dims->Three_2),
        d.next + 7 <= usize::MAX,
        tamed(st, block_end(b, g, d, r1).0, ordinary),
    ensures
        ({
            let (e, y) = block_end(b, g, d, r1);
            &&& counted(st, e)
            &&& alike(after(st, e), y.id, r1.dims->Three_0, r1.dims->Three_1, r1.dims->Three_2, z)
            &&& y.dims == r1.dims
            &&& grown(after(st, d), after(st, e))
            &&& d.next <= e.next <= d.next + 7
        }),
{
    let (n, s, w) = (r1.dims->Three_0, r1.dims->Three_1, r1.dims->Three_2);
    let (d4, n2) = norm_calls(b.norm2, d, r1);
    let (d5, f1) = linear_calls(b.ffn1, b.ffn1.columns(g), g.mixed(), d4, n2);
    let c6 = Call::<T>::Silu { a: f1.id };
    let d6 = emit(d5, c6);
    let act = Val { id: d5.next as usize, dims: f1.dims };
    let (d7, f2) = linear_calls(b.ffn2, b.ffn2.columns(g), g.mixed(), d6, act);
    let c8 = Call::<T>::Add { a: r1.id, b: f2.id };
    let e = emit(d7, c8);
    linear_begins(b.ffn1, b.ffn1.columns(g), g.mixed(), d4, n2);
    begins_emit(d5, c6);
    linear_begins(b.ffn2, b.ffn2.columns(g), g.mixed(), d6, act);
    begins_emit(d7, c8);
    begins_through(d6, d7, e);
    begins_through(d5, d6, e);
    begins_through(d4, d5, e);
    lemma_tamed(st, d4, e, ordinary);
    lemma_tamed(st, d5, e, ordinary);
    lemma_tamed(st, d6, e, ordinary);
    lemma_tamed(st, d7, e, ordinary);
    let (r, r4, r5, r6, r7) = (
        after(st, d),
        after(st, d4),
        after(st, d5),
        after(st, d6),
        after(st, d7),
    );
    lemma_norm(st, b.norm2, d, r1, z, ordinary);
    lemma_same_linear(r, r4, b.ffn1, b.ffn1.columns(g));
    lemma_linear(st, b.ffn1, b.ffn1.columns(g), g.mixed(), d4, n2, z, ordinary);
    lemma_grown(r, r4, r5);
    lemma_silu(st, d5, f1.id, n, s, b.ffn1.columns(g), z, ordinary);
    lemma_grown(r, r5, r6);
    lemma_same_linear(r, r6, b.ffn2, b.ffn2.columns(g));
    lemma_linear(st, b.ffn2, b.ffn2.columns(g), g.mixed(), d6, act, z, ordinary);
    lemma_grown(r, r6, r7);
    lemma_alike_kept(r, r7, r1.id, n, s, w, z);
    lemma_sum(st, d7, r1.id, f2.id, n, s, w, z, ordinary);
    lemma_grown(r, r7, after(st, e));
}

proof fn block_begins<T: Scalar>(
    b: TransformerBlock<T>,
    g: Graph<T>,
    d: Draft<T>,
    x: Val,
    causal: bool,
)
    ensures
        begins(d, block_calls(b, g, d, x, causal).0),
{
    let (d1, n1) = norm_calls(b.norm1, d, x);
    let (d2, a, attn) = mha_calls(b.attn, g, d1, n1, causal);
    let c3 = Call::<T>::Add { a: x.id, b: a.id };
    let d3 = emit(d2, c3);
    let r1 = Val { id: d2.next as usize, dims: x.dims };
    let e = block_end(b, g, d3, r1).0;
    norm_begins(b.norm1, d, x);
    mha_begins(b.attn, g, d1, n1, causal);
    begins_emit(d2, c3);
    block_end_begins(b, g, d3, r1);
    begins_through(d2, d3, e);
    begins_through(d1, d2, e);
    begins_through(d, d1, e);
}

/// What a block gives at a position depends on its input up to there.
pub proof fn block_is_causal<T: Scalar>(
    st: Runs<T>,
    b: TransformerBlock<T>,
    g: Graph<T>,
    d: Draft<T>,
    x: Val,
    z: Span,
    ordinary: spec_fn(T) -> bool,
)
    requires
        hides(ordinary),
        counted(st, d),
        b.attn.takes(x),
        alike(after(st, d), x.id, x.dims->Three_0, x.dims->Three_1, x.dims->Three_2, z),
        same_block(after(st, d), b, g, x.dims->Three_2),
        d.next + 34 <= usize::MAX,
        tamed(st, block_calls(b, g, d, x, true).0, ordinary),
    ensures
        ({
            let (e, y, kept) = block_calls(b, g, d, x, true);
            &&& counted(st, e)
            &&& alike(after(st, e), y.id, x.dims->Three_0, x.dims->Three_1, x.dims->Three_2, z)
            &&& y.dims == x.dims
            &&& grown(after(st, d), after(st, e))
            &&& d.next <= e.next <= d.next + 34
        }),
{
    let (n, s, w) = (x.dims->Three_0, x.dims->Three_1, x.dims->Three_2);
    let (d1, n1) = norm_calls(b.norm1, d, x);
    let (d2, a, attn) = mha_calls(b.attn, g, d1, n1, true);
    let c3 = Call::<T>::Add { a: x.id, b: a.id };
    let d3 = emit(d2, c3);
    let r1 = Val { id: d2.next as usize, dims: x.dims };
    let e = block_end(b, g, d3, r1).0;
    mha_begins(b.attn, g, d1, n1, true);
    begins_emit(d2, c3);
    block_end_begins(b, g, d3, r1);
    begins_through(d2, d3, e);
    begins_through(d1, d2, e);
    lemma_tamed(st, d1, e, ordinary);
    lemma_tamed(st, d2, e, ordinary);
    lemma_tamed(st, d3, e, ordinary);
    let (r, q1, q2, q3) = (after(st, d), after(st, d1), after(st, d2), after(st, d3));
    lemma_norm(st, b.norm1, d, x, z, ordinary);
    lemma_same_attention(r, q1, b.attn, g);
    mha_is_causal(st, b.attn, g, d1, n1, z, ordinary);
    lemma_grown(r, q1, q2);
    lemma_alike_kept(r, q2, x.id, n, s, w, z);
    lemma_sum(st, d2, x.id, a.id, n, s, w, z, ordinary);
    lemma_grown(r, q2, q3);
    lemma_same_block(r, q3, b, g, w);
    lemma_block_end(st, b, g, d3, r1, z, ordinary);
    lemma_grown(r, q3, after(st, e));
}

pub proof fn blocks_begin<T: Scalar>(
    bs: Seq<TransformerBlock<T>>,
    g: Graph<T>,
    d: Draft<T>,
    x: Val,
    n: nat,
)
    ensures
        begins(d, blocks_calls(bs, g, d, x, n).0),
        n > 0 ==> begins(
            blocks_calls(bs, g, d, x, (n - 1) as nat).0,
            blocks_calls(bs, g, d, x, n).0,
        ),
    decreases n,
{
    if n == 0 {
        begins_with_itself(d);
    } else {
        blocks_begin(bs, g, d, x, (n - 1) as nat);
        let (e, h, done) = blocks_calls(bs, g, d, x, (n - 1) as nat);
        block_begins(bs[n - 1], g, e, h, true);
        begins_through(d, e, blocks_calls(bs, g, d, x, n).0);
    }
}

/// What blocks one after the other give at a position depends on their input up to there.
pub proof fn blocks_are_causal<T: Scalar>(
    st: Runs<T>,
    bs: Seq<TransformerBlock<T>>,
    g: Graph<T>,
    d: Draft<T>,
    x: Val,
    n: nat,
    z: Span,
    ordinary: spec_fn(T) -> bool,
)
    requires
        hides(ordinary),
        counted(st, d),
        n <= bs.len(),
        x.dims is Three,
        alike(after(st, d), x.id, x.dims->Three_0, x.dims->Three_1, x.dims->Three_2, z),
        forall|i: int|
            0 <= i < bs.len() ==> (#[trigger] bs[i]).attn.takes(x) && same_block(
                after(st, d),
                bs[i],
                g,
                x.dims->Three_2,
            ),
        d.next + 34 * n <= usize::MAX,
        tamed(st, blocks_calls(bs, g, d, x, n).0, ordinary),
    ensures
        ({
            let (e, y, kept) = blocks_calls(bs, g, d, x, n);
            &&& counted(st, e)
            &&& alike(after(st, e), y.id, x.dims->Three_0, x.dims->Three_1, x.dims->Three_2, z)
            &&& y.dims == x.dims
            &&& grown(after(st, d), after(st, e))
            &&& d.next <= e.next <= d.next + 34 * n
        }),
    decreases n,
{
    if n > 0 {
        blocks_begin(bs, g, d, x, n);
        let (e, h, done) = blocks_calls(bs, g, d, x, (n - 1) as nat);
        let f = blocks_calls(bs, g, d, x, n).0;
        lemma_tamed(st, e, f, ordinary);
        blocks_are_causal(st, bs, g, d, x, (n - 1) as nat, z, ordinary);
        assert(bs[n - 1].attn.takes(x));
        lemma_same_block(after(st, d), after(st, e), bs[n - 1], g, x.dims->Three_2);
        block_is_causal(st, bs[n - 1], g, e, h, z, ordinary);
        lemma_grown(after(st, d), after(st, e), after(st, f));
    }
}

/// What an attention with many heads, used as a layer, gives at a position depends on its input up
/// to there.
pub proof fn mha_layer_is_causal<T: Scalar>(
    st: Runs<T>,
    m: MultiHeadAttention,
    kept: MultiHeadAttention,
    g: Graph<T>,
    was: Program<T>,
    x: Val,
    now: Program<T>,
    y: Val,
    z: Span,
    ordinary: spec_fn(T) -> bool,
)
    requires
        hides(ordinary),
        counted(st, was@),
        m.accepts(g, was, x),
        m.passes(kept, g, was, x, now, y),
        alike(after(st, was@), x.id, x.dims->Three_0, x.dims->Three_1, x.dims->Three_2, z),
        same_attention(after(st, was@), m, g),
        tamed(st, now@, ordinary),
    ensures
        alike(
            after(st, now@),
            y.id,
            x.dims->Three_0,
            x.dims->Three_1,
            m.out_proj.columns(g),
            z,
        ),
{
    mha_is_causal(st, m, g, was@, x, z, ordinary);
}

/// What a block, used as a layer, gives at a position depends on its input up to there.
pub proof fn block_layer_is_causal<T: Scalar>(
    st: Runs<T>,
    b: TransformerBlock<T>,
    kept: TransformerBlock<T>,
    g: Graph<T>,
    was: Program<T>,
    x: Val,
    now: Program<T>,
    y: Val,
    z: Span,
    ordinary: spec_fn(T) -> bool,
)
    requires
        hides(ordinary),
        counted(st, was@),
        b.accepts(g, was, x),
        b.passes(kept, g, was, x, now, y),
        alike(after(st, was@), x.id, x.dims->Three_0, x.dims->Three_1, x.dims->Three_2, z),
        same_block(after(st, was@), b, g, x.dims->Three_2),
        tamed(st, now@, ordinary),
    ensures
        alike(after(st, now@), y.id, x.dims->Three_0, x.dims->Three_1, x.dims->Three_2, z),
{
    block_is_causal(st, b, g, was@, x, z, ordinary);
}

/// The layers of a model are the same in both runs.
pub open spec fn same_model<T: Scalar>(r: Runs<T>, m: TransformerLM<T>, g: Graph<T>) -> bool {
    let hidden = m.token_emb.columns(g);
    &&& same(r, m.token_emb.weight_id)
    &&& r.a[m.token_emb.weight_id as int].shape.len() == 2
    &&& r.a[m.token_emb.weight_id as int].shape[1] == hidden
    &&& forall|i: int| 0 <= i < m.blocks@.len() ==> same_block(r, #[trigger] m.blocks@[i], g, hidden)
    &&& same(r, m.norm_f.weight_id)
    &&& same_linear(r, m.lm_head, m.lm_head.columns(g))
}

proof fn lemma_model<T: Scalar>(
    st: Runs<T>,
    m: TransformerLM<T>,
    kept: TransformerLM<T>,
    g: Graph<T>,
    was: Program<T>,
    x: Val,
    now: Program<T>,
    y: Val,
    z: Span,
    ordinary: spec_fn(T) -> bool,
)
    requires
        hides(ordinary),
        counted(st, was@),
        m.accepts(g, was, x),
        m.passes(kept, g, was, x, now, y),
        same_model(after(st, was@), m, g),
        x.id < was@.next,
        ({
            let (u, v) = (after(st, was@).a[x.id as int], after(st, was@).b[x.id as int]);
            let (n, s) = (x.dims->Two_0, x.dims->Two_1);
            &&& u.shape == seq![n, s]
            &&& v.shape == seq![n, s]
            &&& u.data.len() == n * s
            &&& v.data.len() == n * s
            &&& 0 <= z.lo
            &&& z.hi == z.lo + 1
            &&& z.hi <= n
            &&& 0 <= z.t < s
            &&& forall|j: int|
                z.lo * s <= j <= z.lo * s + z.t ==> #[trigger] u.data[j] == v.data[j]
        }),
        tamed(st, now@, ordinary),
    ensures
        counted(st, now@),
        alike(
            after(st, now@),
            y.id,
            x.dims->Two_0,
            x.dims->Two_1,
            m.lm_head.columns(g),
            z,
        ),
        y.dims == Dims::Three(x.dims->Two_0, x.dims->Two_1, m.lm_head.columns(g)),
{
    let d = was@;
    let (n, s) = (x.dims->Two_0, x.dims->Two_1);
    let hidden = m.token_emb.columns(g);
    let bs = m.blocks@;
    let (d1, h) = embedding_calls(m.token_emb, hidden, d, x);
    let (d2, h2, done) = blocks_calls(bs, g, d1, h, bs.len());
    let (d3, h3) = norm_calls(m.norm_f, d2, h2);
    let e = now@;
    blocks_begin(bs, g, d1, h, bs.len());
    norm_begins(m.norm_f, d2, h2);
    linear_begins(m.lm_head, m.lm_head.columns(g), g.mixed(), d3, h3);
    begins_through(d2, d3, e);
    begins_through(d1, d2, e);
    lemma_tamed(st, d1, e, ordinary);
    lemma_tamed(st, d2, e, ordinary);
    lemma_tamed(st, d3, e, ordinary);
    let c = Call::<T>::Gather { w: m.token_emb.weight_id, x: x.id };
    lemma_emit(st, d, c, ordinary);
    let (r, r1, r2, r3) = (after(st, d), after(st, d1), after(st, d2), after(st, d3));
    let (u, v) = (r.a[x.id as int], r.b[x.id as int]);
    let w = r.a[m.token_emb.weight_id as int];
    assert(r1.a[d.next].shape =~= seq![n, s, hidden]);
    assert(r1.b[d.next].shape =~= seq![n, s, hidden]);
    assert forall|i: int, j: int| z.lo <= i < z.hi && 0 <= j <= z.t implies #[trigger] same_at(
        r1.a[d.next].data,
        r1.b[d.next].data,
        s as int,
        hidden as int,
        i,
        j,
    ) by {
        lemma_cell(i, n as int, j, s as int);
        assert(u.data[i * s + j] == v.data[i * s + j]);
        gathered_row(w.data, u.data, v.data, hidden as int, i * s + j);
    }
    assert(alike(r1, h.id, n, s, hidden, z));
    assert forall|i: int| 0 <= i < bs.len() implies (#[trigger] bs[i]).attn.takes(h) && same_block(
        r1,
        bs[i],
        g,
        hidden,
    ) by {
        lemma_same_block(r, r1, bs[i], g, hidden);
    }
    blocks_are_causal(st, bs, g, d1, h, bs.len(), z, ordinary);
    lemma_grown(r, r1, r2);
    lemma_norm(st, m.norm_f, d2, h2, z, ordinary);
    lemma_grown(r, r2, r3);
    lemma_same_linear(r, r3, m.lm_head, m.lm_head.columns(g));
    lemma_linear(st, m.lm_head, m.lm_head.columns(g), g.mixed(), d3, h3, z, ordinary);
}

/// The tokens of sequence `b` up to position `t` are the same in two graphs that hold tokens of one
/// shape.
pub open spec fn same_tokens<T: Scalar>(g: Graph<T>, h: Graph<T>, x: Val, b: int, t: int) -> bool {
    let (n, s) = (x.dims->Two_0, x.dims->Two_1);
    &&& x.id < g.tensors@.len()
    &&& x.id < h.tensors@.len()
    &&& shape_of(g, x.id) == seq![n, s]
    &&& shape_of(h, x.id) == seq![n, s]
    &&& data_of(g, x.id).len() == n * s
    &&& data_of(h, x.id).len() == n * s
    &&& 0 <= b < n
    &&& 0 <= t < s
    &&& forall|j: int|
        b * s <= j <= b * s + t ==> #[trigger] data_of(g, x.id)[j] == data_of(h, x.id)[j]
}

/// The states of a graph from call to call, as the calls are carried out, all scores that they make,
/// before any are hidden, being ordinary numbers.
#[verifier::opaque]
pub open spec fn ordinary_run<T: Scalar>(
    ordinary: spec_fn(T) -> bool,
    states: Seq<Graph<T>>,
    calls: Seq<Call<T>>,
) -> bool {
    &&& carried_out(states, calls, calls.len())
    &&& forall|k: int|
        0 <= k < calls.len() ==> ordinary_scores(ordinary, held(#[trigger] states[k]), calls[k])
}

proof fn lemma_run<T: Scalar>(
    states: Seq<Graph<T>>,
    calls: Seq<Call<T>>,
    ordinary: spec_fn(T) -> bool,
)
    requires
        ordinary_run(ordinary, states, calls),
    ensures
        held(states.last()) == all_held(held(states[0]), calls),
        at_each_call(held(states[0]), calls, tame(ordinary)),
{
    reveal(ordinary_run);
    let n = calls.len();
    let f = tame(ordinary);
    assert forall|k: int| 0 <= k <= n implies (#[trigger] states[k]).tensors@.len() <= usize::MAX by {
        assert(states[k].tensors@.len() == states[k].tensors.len());
    }
    assert forall|k: int|
        0 <= k < n && sizes_fit(held(#[trigger] states[k]), calls[k]) implies f(
        held(states[k]),
        calls[k],
    ) by {}
    program_gives_values(states, calls, n, f);
    assert(calls.take(n as int) =~= calls);
}

/// A language model is causal: the program that it writes down is run on two inputs of one shape,
/// with the same weights. Where the tokens of a sequence agree up to position `t`, so do the scores
/// at position `t`, whatever stands behind it. Hidden scores vanish beside ordinary ones, and all
/// others are ordinary.
pub proof fn model_is_causal<T: Scalar>(
    m: TransformerLM<T>,
    kept: TransformerLM<T>,
    was: Program<T>,
    x: Val,
    now: Program<T>,
    y: Val,
    one: Seq<Graph<T>>,
    two: Seq<Graph<T>>,
    ordinary: spec_fn(T) -> bool,
    b: int,
    t: int,
)
    requires
        hides(ordinary),
        was@.calls.len() == 0,
        was@.next == one[0].tensors@.len(),
        was@.next == two[0].tensors@.len(),
        m.accepts(one[0], was, x),
        m.passes(kept, one[0], was, x, now, y),
        ordinary_run(ordinary, one, now@.calls),
        ordinary_run(ordinary, two, now@.calls),
        same_model(Runs { a: held(one[0]), b: held(two[0]) }, m, one[0]),
        same_tokens(one[0], two[0], x, b, t),
    ensures
        ({
            let (n, s, v) = (x.dims->Two_0, x.dims->Two_1, m.lm_head.columns(one[0]));
            &&& shape_of(one.last(), y.id) == seq![n, s, v]
            &&& shape_of(two.last(), y.id) == seq![n, s, v]
            &&& forall|c: int|
                0 <= c < v ==> #[trigger] data_of(one.last(), y.id)[(b * s + t) * v + c] == data_of(
                    two.last(),
                    y.id,
                )[(b * s + t) * v + c]
        }),
{
    lemma_run(one, now@.calls, ordinary);
    lemma_run(two, now@.calls, ordinary);
    lemma_ends(m, kept, was, x, now, y, (one[0], one.last()), (two[0], two.last()), ordinary, b, t);
}

/// The same of the first and the last state of each run.
proof fn lemma_ends<T: Scalar>(
    m: TransformerLM<T>,
    kept: TransformerLM<T>,
    was: Program<T>,
    x: Val,
    now: Program<T>,
    y: Val,
    one: (Graph<T>, Graph<T>),
    two: (Graph<T>, Graph<T>),
    ordinary: spec_fn(T) -> bool,
    b: int,
    t: int,
)
    requires
        hides(ordinary),
        was@.calls.len() == 0,
        was@.next == one.0.tensors@.len(),
        was@.next == two.0.tensors@.len(),
        m.accepts(one.0, was, x),
        m.passes(kept, one.0, was, x, now, y),
        held(one.1) == all_held(held(one.0), now@.calls),
        held(two.1) == all_held(held(two.0), now@.calls),
        at_each_call(held(one.0), now@.calls, tame(ordinary)),
        at_each_call(held(two.0), now@.calls, tame(ordinary)),
        same_model(Runs { a: held(one.0), b: held(two.0) }, m, one.0),
        same_tokens(one.0, two.0, x, b, t),
    ensures
        ({
            let (n, s, v) = (x.dims->Two_0, x.dims->Two_1, m.lm_head.columns(one.0));
            &&& shape_of(one.1, y.id) == seq![n, s, v]
            &&& shape_of(two.1, y.id) == seq![n, s, v]
            &&& forall|c: int|
                0 <= c < v ==> #[trigger] data_of(one.1, y.id)[(b * s + t) * v + c] == data_of(
                    two.1,
                    y.id,
                )[(b * s + t) * v + c]
        }),
{
    let st = Runs { a: held(one.0), b: held(two.0) };
    let z = Span { lo: b, hi: b + 1, t };
    let (n, s, v) = (x.dims->Two_0, x.dims->Two_1, m.lm_head.columns(one.0));
    lemma_start(st, was@, one.0, two.0, x);
    lemma_model(st, m, kept, one.0, was, x, now, y, z, ordinary);
    lemma_scores(st, now@, one.1, two.1, y.id, n, s, v, z);
}

/// An empty draft leaves what is there.
proof fn lemma_start<T: Scalar>(
    st: Runs<T>,
    d: Draft<T>,
    g: Graph<T>,
    h: Graph<T>,
    x: Val,
)
    requires
        d.calls.len() == 0,
        st.a == held(g),
        st.b == held(h),
        d.next == g.tensors@.len(),
        d.next == h.tensors@.len(),
        x.id < d.next,
    ensures
        after(st, d) == st,
        counted(st, d),
        st.a[x.id as int].shape == shape_of(g, x.id),
        st.b[x.id as int].shape == shape_of(h, x.id),
        st.a[x.id as int].data == data_of(g, x.id),
        st.b[x.id as int].data == data_of(h, x.id),
{
}

proof fn lemma_scores<T: Scalar>(
    st: Runs<T>,
    e: Draft<T>,
    g: Graph<T>,
    h: Graph<T>,
    id: usize,
    n: usize,
    s: usize,
    v: usize,
    z: Span,
)
    requires
        held(g) == drafted(st.a, e),
        held(h) == drafted(st.b, e),
        alike(after(st, e), id, n, s, v, z),
    ensures
        shape_of(g, id) == seq![n, s, v],
        shape_of(h, id) == seq![n, s, v],
        forall|c: int|
            0 <= c < v ==> #[trigger] data_of(g, id)[(z.lo * s + z.t) * v + c] == data_of(
                h,
                id,
            )[(z.lo * s + z.t) * v + c],
{
    let (p, q) = (data_of(g, id), data_of(h, id));
    let r = z.lo * s + z.t;
    assert(same_at(p, q, s as int, v as int, z.lo, z.t));
    assert forall|c: int| 0 <= c < v implies #[trigger] p[r * v + c] == q[r * v + c] by {
        assert(row_of(p, v as int, r)[c] == row_of(q, v as int, r)[c]);
    }
}

} // verus!
