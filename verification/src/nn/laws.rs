//! What holds of the programs of layers: the numbers and shapes of their results.
use crate::graph::backward::shapes_of;
use crate::graph::host::{bmm_dims, matmul_sizes, repeat_shape, swap_shape};
use crate::graph::Graph;
use crate::nn::attention::{
    attend_calls, flattened, gqa_calls, heads_cut, heads_joined, mask_hit, masked_scores, mha_calls,
    projected, repeated, scale_hit, score_scale, scaled_scores, GroupedQueryAttention, MaskCache,
    MultiHeadAttention, ScaleCache, Style,
};
use crate::nn::embedding::embedding_calls;
use crate::nn::linear::{linear_calls, Linear};
use crate::nn::program::{emit, makes, Call, Dims, Draft, Tag, Val};
use crate::nn::rmsnorm::norm_calls;
use crate::nn::run::{call_done, call_ok, carried_out, mask_shape};
use crate::nn::transformer::{block_calls, blocks_calls, TransformerBlock};
use crate::scalar::Scalar;
use crate::tensor::broadcast_shape;
use vstd::prelude::*;

verus! {

/// The shape of what a call makes, given the shapes that there are.
pub open spec fn new_shape<T: Scalar>(s: Seq<Seq<usize>>, c: Call<T>) -> Seq<usize> {
    match c {
        Call::Param { dims, init, half } => dims.shape(),
        Call::Constant { dims, value, tag, pooled } => dims.shape(),
        Call::Mask { seq, half } => mask_shape(seq),
        Call::Gather { w, x } => s[x as int].push(s[w as int][1]),
        Call::Matmul { a, b } => product_shape(s[a as int], s[b as int]),
        Call::MatmulBf16 { a, b } => product_shape(s[a as int], s[b as int]),
        Call::Add { a, b } => broadcast_shape(s[a as int], s[b as int]),
        Call::Mul { a, b } => broadcast_shape(s[a as int], s[b as int]),
        Call::Silu { a } => s[a as int],
        Call::RmsNorm { x, w, eps } => s[x as int],
        Call::Bmm { a, b, trans_b } => {
            let d = bmm_dims(s[a as int], s[b as int], trans_b);
            seq![d.batch, d.m, d.n]
        },
        Call::Softmax { a } => s[a as int],
        Call::Rope { a, head_dim } => s[a as int],
        Call::Reshape { a, dims } => dims.shape(),
        Call::Transpose0213 { a } => swap_shape(s[a as int]),
        Call::RepeatKv { x, repeats } => repeat_shape(s[x as int], repeats),
        Call::FlashAttention { q, k, v, scale, causal } => s[q as int],
        Call::Reinterpret { id, dims } => dims.shape(),
        Call::Demote(id) => s[id as int],
    }
}

/// The shape of a product of the rows of a tensor with a matrix.
pub open spec fn product_shape(a: Seq<usize>, b: Seq<usize>) -> Seq<usize> {
    let (m, k, n) = matmul_sizes(a, b);
    seq![m as usize, n as usize]
}

/// The shapes after a call.
pub open spec fn shapes_after<T: Scalar>(s: Seq<Seq<usize>>, c: Call<T>) -> Seq<Seq<usize>> {
    if makes(c) {
        s.push(new_shape(s, c))
    } else {
        match c {
            Call::Reinterpret { id, dims } => s.update(id as int, dims.shape()),
            _ => s,
        }
    }
}

/// The shapes after calls.
pub open spec fn all_shapes<T: Scalar>(s: Seq<Seq<usize>>, calls: Seq<Call<T>>) -> Seq<Seq<usize>>
    decreases calls.len(),
{
    if calls.len() == 0 {
        s
    } else {
        shapes_after(all_shapes(s, calls.drop_last()), calls.last())
    }
}

/// A call that is carried out gives shapes as foretold.
pub proof fn call_gives_shapes<T: Scalar>(was: Graph<T>, now: Graph<T>, c: Call<T>)
    requires
        was.tensors@.len() <= usize::MAX,
        call_ok(was, c),
        call_done(was, now, c),
    ensures
        shapes_of(now.tensors@) == shapes_after(shapes_of(was.tensors@), c),
{
    let n = was.tensors@.len() as int;
    let s = shapes_of(was.tensors@);
    if makes(c) {
        assert(now.tensors@.len() == n + 1);
        assert(now.tensors@.take(n) == was.tensors@);
        assert forall|i: int| 0 <= i < n implies #[trigger] shapes_of(now.tensors@)[i] == s[i] by {
            assert(now.tensors@.take(n)[i] == was.tensors@[i]);
        }
        assert(now.tensors@[n].shape@ == new_shape(s, c));
        assert(shapes_of(now.tensors@) =~= s.push(new_shape(s, c)));
    } else {
        assert(shapes_of(now.tensors@) =~= shapes_after(s, c));
    }
}

/// A program that is carried out gives shapes as foretold, and so many tensors.
pub proof fn program_gives_shapes<T: Scalar>(states: Seq<Graph<T>>, calls: Seq<Call<T>>, n: nat)
    requires
        carried_out(states, calls, n),
        forall|k: int| 0 <= k <= n ==> (#[trigger] states[k]).tensors@.len() <= usize::MAX,
    ensures
        shapes_of(states[n as int].tensors@) == all_shapes(
            shapes_of(states[0].tensors@),
            calls.take(n as int),
        ),
    decreases n,
{
    if n > 0 {
        let before = states.drop_last();
        assert forall|k: int| 0 <= k < n - 1 implies call_ok(#[trigger] before[k], calls[k])
            && call_done(before[k], before[k + 1], calls[k]) by {
            assert(before[k] == states[k]);
            assert(before[k + 1] == states[k + 1]);
        }
        assert forall|k: int| 0 <= k <= n - 1 implies (#[trigger] before[k]).tensors@.len()
            <= usize::MAX by {
            assert(before[k] == states[k]);
        }
        program_gives_shapes(before, calls, (n - 1) as nat);
        assert(states[n - 1].tensors@.len() <= usize::MAX);
        call_gives_shapes(states[n - 1], states[n as int], calls[n - 1]);
        assert(calls.take(n as int).drop_last() =~= calls.take(n - 1));
        assert(calls.take(n as int).last() == calls[n - 1]);
    } else {
        assert(calls.take(0) =~= Seq::empty());
    }
}

/// The shapes after a draft.
pub open spec fn shaped<T: Scalar>(s0: Seq<Seq<usize>>, d: Draft<T>) -> Seq<Seq<usize>> {
    all_shapes(s0, d.calls)
}

/// The next number of a draft is that of the next tensor.
pub open spec fn counted<T: Scalar>(s0: Seq<Seq<usize>>, d: Draft<T>) -> bool {
    shaped(s0, d).len() == d.next
}

/// All shapes of the first list are still there.
pub open spec fn kept(s: Seq<Seq<usize>>, t: Seq<Seq<usize>>) -> bool {
    &&& s.len() <= t.len()
    &&& forall|i: int| 0 <= i < s.len() ==> #[trigger] t[i] == s[i]
}

/// A tensor has the shape that is said.
pub open spec fn right<T: Scalar>(s0: Seq<Seq<usize>>, d: Draft<T>, v: Val) -> bool {
    v.id < d.next && shaped(s0, d)[v.id as int] == v.dims.shape()
}

proof fn lemma_emit<T: Scalar>(s0: Seq<Seq<usize>>, d: Draft<T>, c: Call<T>)
    requires
        counted(s0, d),
        c matches Call::Reinterpret { id, .. } ==> id < d.next,
    ensures
        shaped(s0, emit(d, c)) == shapes_after(shaped(s0, d), c),
        counted(s0, emit(d, c)),
        emit(d, c).next == d.next + (if makes(c) {
            1int
        } else {
            0int
        }),
{
    assert(emit(d, c).calls.drop_last() =~= d.calls);
    assert(emit(d, c).calls.last() == c);
}

/// The weights of a layer and what it adds have the shapes that they should.
pub open spec fn linear_shaped(s: Seq<Seq<usize>>, l: Linear, out: usize) -> bool {
    &&& l.weight_id < s.len()
    &&& s[l.weight_id as int].len() == 2
    &&& s[l.weight_id as int][1] == out
    &&& l.bias_id matches Some(b) ==> b < s.len() && s[b as int] == seq![out]
}

/// A layer turns `[batch, seq, _]` into `[batch, seq, out]`.
pub proof fn linear_gives_shape<T: Scalar>(
    s0: Seq<Seq<usize>>,
    l: Linear,
    out: usize,
    mixed: bool,
    d: Draft<T>,
    x: Val,
)
    requires
        counted(s0, d),
        right(s0, d, x),
        x.dims is Three,
        linear_shaped(shaped(s0, d), l, out),
        d.next + 2 <= usize::MAX,
    ensures
        ({
            let (e, y) = linear_calls(l, out, mixed, d, x);
            &&& counted(s0, e)
            &&& right(s0, e, y)
            &&& y.dims == Dims::Three(x.dims->Three_0, x.dims->Three_1, out)
            &&& d.next <= y.id
            &&& kept(shaped(s0, d), shaped(s0, e))
            &&& d.next < e.next <= d.next + 2
        }),
{
    let s = shaped(s0, d);
    let c = if mixed {
        Call::<T>::MatmulBf16 { a: x.id, b: l.weight_id }
    } else {
        Call::<T>::Matmul { a: x.id, b: l.weight_id }
    };
    lemma_emit(s0, d, c);
    let p = emit(d, c);
    match l.bias_id {
        Some(b) => {
            let add = Call::<T>::Add { a: d.next as usize, b };
            lemma_emit(s0, p, add);
            let q = emit(p, add);
            let dims = Dims::Three(x.dims->Three_0, x.dims->Three_1, out);
            lemma_emit(s0, q, Call::Reinterpret { id: p.next as usize, dims });
        },
        None => {
            let dims = Dims::Three(x.dims->Three_0, x.dims->Three_1, out);
            lemma_emit(s0, p, Call::Reinterpret { id: d.next as usize, dims });
        },
    }
}

/// Scales and masks of earlier attentions are there, with the shapes that they should have.
pub open spec fn caches_right(s: Seq<Seq<usize>>, c: (ScaleCache, MaskCache)) -> bool {
    &&& c.0 matches Some(((n, q), id)) ==> id < s.len() && s[id as int] == seq![n, q, q]
    &&& c.1 matches Some((q, id)) ==> id < s.len() && s[id as int] == mask_shape(q)
}

proof fn lemma_same_shape(a: Seq<usize>)
    ensures
        broadcast_shape(a, a) == a,
{
    assert(broadcast_shape(a, a) =~= a);
}

proof fn lemma_mask_spreads(n: usize, seq: usize)
    requires
        n >= 1,
    ensures
        broadcast_shape(seq![n, seq, seq], mask_shape(seq)) == seq![n, seq, seq],
{
    assert(broadcast_shape(seq![n, seq, seq], mask_shape(seq)) =~= seq![n, seq, seq]);
}

proof fn lemma_scores<T: Scalar>(
    s0: Seq<Seq<usize>>,
    d: Draft<T>,
    q: usize,
    k: usize,
    n: usize,
    seq: usize,
    dim: usize,
    scale: T,
    style: Style,
    c: ScaleCache,
    m: MaskCache,
)
    requires
        counted(s0, d),
        q < d.next,
        k < d.next,
        shaped(s0, d)[q as int] == seq![n, seq, dim],
        shaped(s0, d)[k as int] == seq![n, seq, dim],
        caches_right(shaped(s0, d), (c, m)),
        d.next + 3 <= usize::MAX,
    ensures
        ({
            let (e, id, cache) = scaled_scores(d, q, k, n, seq, scale, style, c);
            &&& counted(s0, e)
            &&& id < e.next
            &&& d.next <= id
            &&& shaped(s0, e)[id as int] == seq![n, seq, seq]
            &&& kept(shaped(s0, d), shaped(s0, e))
            &&& caches_right(shaped(s0, e), (cache, m))
            &&& d.next < e.next <= d.next + 3
        }),
{
    let s = shaped(s0, d);
    let c1 = Call::<T>::Bmm { a: q, b: k, trans_b: true };
    lemma_emit(s0, d, c1);
    let scores = emit(d, c1);
    assert(shaped(s0, scores)[d.next] =~= seq![n, seq, seq]);
    lemma_same_shape(seq![n, seq, seq]);
    match scale_hit(c, n, seq) {
        Some(id) => {
            lemma_emit(s0, scores, Call::<T>::Mul { a: d.next as usize, b: id });
        },
        None => {
            let c2 = Call::<T>::Constant {
                dims: Dims::Three(n, seq, seq),
                value: scale,
                tag: style.tag,
                pooled: style.pooled,
            };
            lemma_emit(s0, scores, c2);
            let ready = emit(scores, c2);
            lemma_emit(
                s0,
                ready,
                Call::<T>::Mul { a: d.next as usize, b: scores.next as usize },
            );
        },
    }
}

proof fn lemma_masked<T: Scalar>(
    s0: Seq<Seq<usize>>,
    d: Draft<T>,
    scores: usize,
    n: usize,
    seq: usize,
    causal: bool,
    half: bool,
    c: ScaleCache,
    m: MaskCache,
)
    requires
        counted(s0, d),
        n >= 1,
        scores < d.next,
        shaped(s0, d)[scores as int] == seq![n, seq, seq],
        caches_right(shaped(s0, d), (c, m)),
        d.next + 2 <= usize::MAX,
    ensures
        ({
            let (e, id, cache) = masked_scores(d, scores, seq, causal, half, m);
            &&& counted(s0, e)
            &&& id < e.next
            &&& id == scores || d.next <= id
            &&& shaped(s0, e)[id as int] == seq![n, seq, seq]
            &&& kept(shaped(s0, d), shaped(s0, e))
            &&& caches_right(shaped(s0, e), (c, cache))
            &&& d.next <= e.next <= d.next + 2
        }),
{
    if causal {
        lemma_mask_spreads(n, seq);
        match mask_hit(m, seq) {
            Some(id) => {
                lemma_emit(s0, d, Call::<T>::Add { a: scores, b: id });
            },
            None => {
                let c1 = Call::<T>::Mask { seq, half };
                lemma_emit(s0, d, c1);
                let ready = emit(d, c1);
                lemma_emit(s0, ready, Call::<T>::Add { a: scores, b: d.next as usize });
            },
        }
    }
}

proof fn lemma_attend<T: Scalar>(
    s0: Seq<Seq<usize>>,
    d: Draft<T>,
    no_grad: bool,
    ids: (usize, usize, usize),
    n: usize,
    seq: usize,
    dim: usize,
    scale: T,
    causal: bool,
    style: Style,
    caches: (ScaleCache, MaskCache),
)
    requires
        counted(s0, d),
        n >= 1,
        ids.0 < d.next,
        ids.1 < d.next,
        ids.2 < d.next,
        shaped(s0, d)[ids.0 as int] == seq![n, seq, dim],
        shaped(s0, d)[ids.1 as int] == seq![n, seq, dim],
        shaped(s0, d)[ids.2 as int] == seq![n, seq, dim],
        caches_right(shaped(s0, d), caches),
        d.next + 7 <= usize::MAX,
    ensures
        ({
            let (e, a) = attend_calls(d, no_grad, ids, n, seq, scale, causal, style, caches);
            &&& counted(s0, e)
            &&& a.id < e.next
            &&& d.next <= a.id
            &&& shaped(s0, e)[a.id as int] == seq![n, seq, dim]
            &&& kept(shaped(s0, d), shaped(s0, e))
            &&& caches_right(shaped(s0, e), (a.scale, a.mask))
            &&& d.next < e.next <= d.next + 7
            &&& a.scale matches Some((_, id)) ==> id != a.id
            &&& a.mask matches Some((_, id)) ==> id != a.id
        }),
{
    let (q, k, v) = ids;
    if no_grad {
        lemma_emit(s0, d, Call::<T>::FlashAttention { q, k, v, scale, causal });
    } else {
        lemma_scores(s0, d, q, k, n, seq, dim, scale, style, caches.0, caches.1);
        let (d1, scores, sc) = scaled_scores(d, q, k, n, seq, scale, style, caches.0);
        lemma_masked(s0, d1, scores, n, seq, causal, style.half, sc, caches.1);
        let (d2, masked, mc) = masked_scores(d1, scores, seq, causal, style.half, caches.1);
        let c3 = Call::<T>::Softmax { a: masked };
        lemma_emit(s0, d2, c3);
        let d3 = emit(d2, c3);
        let c4 = Call::<T>::Bmm { a: d2.next as usize, b: v, trans_b: false };
        lemma_emit(s0, d3, c4);
        let s3 = shaped(s0, d3);
        assert(s3[v as int] == seq![n, seq, dim]);
        assert(s3[d2.next] == seq![n, seq, seq]);
        assert(shaped(s0, emit(d3, c4))[d3.next] =~= seq![n, seq, dim]);
    }
}

proof fn lemma_cut<T: Scalar>(
    s0: Seq<Seq<usize>>,
    d: Draft<T>,
    ids: (usize, usize, usize),
    batch: usize,
    seq: usize,
    heads: usize,
    kv: usize,
    dim: usize,
)
    requires
        counted(s0, d),
        ids.0 < d.next,
        ids.1 < d.next,
        ids.2 < d.next,
        d.next + 6 <= usize::MAX,
    ensures
        ({
            let (e, r) = heads_cut(d, ids, batch, seq, heads, kv, dim);
            let s = shaped(s0, e);
            &&& counted(s0, e)
            &&& e.next == d.next + 6
            &&& kept(shaped(s0, d), s)
            &&& d.next <= r.0 < r.1 < r.2 < e.next
            &&& s[r.0 as int] == seq![batch, heads, seq, dim]
            &&& s[r.1 as int] == seq![batch, kv, seq, dim]
            &&& s[r.2 as int] == seq![batch, kv, seq, dim]
        }),
{
    let c1 = Call::<T>::Reshape { a: ids.0, dims: Dims::Four(batch, seq, heads, dim) };
    let c2 = Call::<T>::Reshape { a: ids.1, dims: Dims::Four(batch, seq, kv, dim) };
    let c3 = Call::<T>::Reshape { a: ids.2, dims: Dims::Four(batch, seq, kv, dim) };
    lemma_emit(s0, d, c1);
    let d1 = emit(d, c1);
    lemma_emit(s0, d1, c2);
    let d2 = emit(d1, c2);
    lemma_emit(s0, d2, c3);
    let d3 = emit(d2, c3);
    let c4 = Call::<T>::Transpose0213 { a: d.next as usize };
    let c5 = Call::<T>::Transpose0213 { a: d1.next as usize };
    let c6 = Call::<T>::Transpose0213 { a: d2.next as usize };
    lemma_emit(s0, d3, c4);
    let d4 = emit(d3, c4);
    lemma_emit(s0, d4, c5);
    let d5 = emit(d4, c5);
    lemma_emit(s0, d5, c6);
    assert(swap_shape(seq![batch, seq, heads, dim]) =~= seq![batch, heads, seq, dim]);
    assert(swap_shape(seq![batch, seq, kv, dim]) =~= seq![batch, kv, seq, dim]);
}

proof fn lemma_flatten<T: Scalar>(
    s0: Seq<Seq<usize>>,
    d: Draft<T>,
    ids: (usize, usize, usize),
    n: usize,
    seq: usize,
    dim: usize,
    start: int,
)
    requires
        counted(s0, d),
        0 <= start <= ids.0 < d.next,
        start <= ids.1 < d.next,
        start <= ids.2 < d.next,
    ensures
        ({
            let e = flattened(d, ids, n, seq, dim);
            let s = shaped(s0, e);
            &&& counted(s0, e)
            &&& e.next == d.next
            &&& forall|j: int| 0 <= j < start ==> #[trigger] s[j] == shaped(s0, d)[j]
            &&& s[ids.0 as int] == seq![n, seq, dim]
            &&& s[ids.1 as int] == seq![n, seq, dim]
            &&& s[ids.2 as int] == seq![n, seq, dim]
        }),
{
    let dims = Dims::Three(n, seq, dim);
    let c1 = Call::<T>::Reinterpret { id: ids.0, dims };
    let c2 = Call::<T>::Reinterpret { id: ids.1, dims };
    let c3 = Call::<T>::Reinterpret { id: ids.2, dims };
    lemma_emit(s0, d, c1);
    lemma_emit(s0, emit(d, c1), c2);
    lemma_emit(s0, emit(emit(d, c1), c2), c3);
}

proof fn lemma_joined<T: Scalar>(
    s0: Seq<Seq<usize>>,
    d: Draft<T>,
    id: usize,
    batch: usize,
    seq: usize,
    heads: usize,
    dim: usize,
    hidden: usize,
)
    requires
        counted(s0, d),
        id < d.next,
        d.next + 2 <= usize::MAX,
    ensures
        ({
            let (e, y) = heads_joined(d, id, batch, seq, heads, dim, hidden);
            &&& counted(s0, e)
            &&& right(s0, e, y)
            &&& y.dims == Dims::Three(batch, seq, hidden)
            &&& forall|j: int|
                0 <= j < d.next && j != id ==> #[trigger] shaped(s0, e)[j] == shaped(s0, d)[j]
            &&& e.next == d.next + 2
        }),
{
    let c1 = Call::<T>::Reinterpret { id, dims: Dims::Four(batch, heads, seq, dim) };
    lemma_emit(s0, d, c1);
    let d1 = emit(d, c1);
    let c2 = Call::<T>::Transpose0213 { a: id };
    lemma_emit(s0, d1, c2);
    let d2 = emit(d1, c2);
    let dims = Dims::Three(batch, seq, hidden);
    lemma_emit(s0, d2, Call::<T>::Reshape { a: d1.next as usize, dims });
}

proof fn lemma_projected<T: Scalar>(
    s0: Seq<Seq<usize>>,
    layers: (Linear, Linear, Linear),
    g: Graph<T>,
    d: Draft<T>,
    x: Val,
)
    requires
        counted(s0, d),
        right(s0, d, x),
        x.dims is Three,
        linear_shaped(shaped(s0, d), layers.0, layers.0.columns(g)),
        linear_shaped(shaped(s0, d), layers.1, layers.1.columns(g)),
        linear_shaped(shaped(s0, d), layers.2, layers.2.columns(g)),
        d.next + 6 <= usize::MAX,
    ensures
        ({
            let (e, q, k, v) = projected(layers, g, d, x);
            &&& counted(s0, e)
            &&& right(s0, e, q)
            &&& right(s0, e, k)
            &&& right(s0, e, v)
            &&& kept(shaped(s0, d), shaped(s0, e))
            &&& d.next <= e.next <= d.next + 6
            &&& v.dims == Dims::Three(
                x.dims->Three_0,
                x.dims->Three_1,
                layers.2.columns(g),
            )
        }),
{
    let (q, k, v) = layers;
    linear_gives_shape(s0, q, q.columns(g), g.mixed(), d, x);
    let (d1, qv) = linear_calls(q, q.columns(g), g.mixed(), d, x);
    lemma_linear_kept(shaped(s0, d), shaped(s0, d1), k, k.columns(g));
    lemma_linear_kept(shaped(s0, d), shaped(s0, d1), v, v.columns(g));
    linear_gives_shape(s0, k, k.columns(g), g.mixed(), d1, x);
    let (d2, kv) = linear_calls(k, k.columns(g), g.mixed(), d1, x);
    lemma_linear_kept(shaped(s0, d1), shaped(s0, d2), v, v.columns(g));
    linear_gives_shape(s0, v, v.columns(g), g.mixed(), d2, x);
}

proof fn lemma_linear_kept(s: Seq<Seq<usize>>, t: Seq<Seq<usize>>, l: Linear, out: usize)
    requires
        kept(s, t),
        linear_shaped(s, l, out),
    ensures
        linear_shaped(t, l, out),
{
}

/// From heads to the end of an attention: `s` are shapes of before the heads.
proof fn lemma_core<T: Scalar>(
    s0: Seq<Seq<usize>>,
    s: Seq<Seq<usize>>,
    g: Graph<T>,
    d: Draft<T>,
    ids: (usize, usize, usize),
    batch: usize,
    seq: usize,
    heads: usize,
    dim: usize,
    hidden: usize,
    scale: T,
    causal: bool,
    style: Style,
    caches: (ScaleCache, MaskCache),
    out: Linear,
)
    requires
        counted(s0, d),
        batch >= 1,
        heads >= 1,
        batch * heads <= usize::MAX,
        kept(s, shaped(s0, d)),
        s.len() <= ids.0 < d.next,
        s.len() <= ids.1 < d.next,
        s.len() <= ids.2 < d.next,
        caches_right(s, caches),
        linear_shaped(s, out, out.columns(g)),
        d.next + 11 <= usize::MAX,
    ensures
        ({
            let n = (batch * heads) as usize;
            let d1 = flattened(d, ids, n, seq, dim);
            let (d2, done) = attend_calls(d1, g.no_grad, ids, n, seq, scale, causal, style, caches);
            let (d3, context) = heads_joined(d2, done.id, batch, seq, heads, dim, hidden);
            let (e, y) = linear_calls(out, out.columns(g), g.mixed(), d3, context);
            &&& counted(s0, e)
            &&& right(s0, e, y)
            &&& y.dims == Dims::Three(batch, seq, out.columns(g))
            &&& kept(s, shaped(s0, e))
            &&& caches_right(shaped(s0, e), (done.scale, done.mask))
            &&& d.next <= e.next <= d.next + 11
        }),
{
    let n = (batch * heads) as usize;
    assert(batch * heads >= 1) by (nonlinear_arith)
        requires
            batch >= 1,
            heads >= 1,
    ;
    lemma_flatten(s0, d, ids, n, seq, dim, s.len() as int);
    let d1 = flattened(d, ids, n, seq, dim);
    assert(kept(s, shaped(s0, d1)));
    assert(caches_right(shaped(s0, d1), caches));
    lemma_attend(s0, d1, g.no_grad, ids, n, seq, dim, scale, causal, style, caches);
    let (d2, done) = attend_calls(d1, g.no_grad, ids, n, seq, scale, causal, style, caches);
    assert(kept(s, shaped(s0, d2)));
    lemma_joined(s0, d2, done.id, batch, seq, heads, dim, hidden);
    let (d3, context) = heads_joined(d2, done.id, batch, seq, heads, dim, hidden);
    assert(kept(s, shaped(s0, d3)));
    assert(caches_right(shaped(s0, d3), (done.scale, done.mask)));
    lemma_linear_kept(s, shaped(s0, d3), out, out.columns(g));
    linear_gives_shape(s0, out, out.columns(g), g.mixed(), d3, context);
    let (e, y) = linear_calls(out, out.columns(g), g.mixed(), d3, context);
    assert(kept(s, shaped(s0, e)));
}

/// From the input of an attention to its heads.
proof fn lemma_front<T: Scalar>(
    s0: Seq<Seq<usize>>,
    layers: (Linear, Linear, Linear),
    g: Graph<T>,
    d: Draft<T>,
    x: Val,
    heads: usize,
    kv: usize,
    dim: usize,
)
    requires
        counted(s0, d),
        right(s0, d, x),
        x.dims is Three,
        linear_shaped(shaped(s0, d), layers.0, layers.0.columns(g)),
        linear_shaped(shaped(s0, d), layers.1, layers.1.columns(g)),
        linear_shaped(shaped(s0, d), layers.2, layers.2.columns(g)),
        d.next + 14 <= usize::MAX,
    ensures
        ({
            let (d1, q, k, v) = projected(layers, g, d, x);
            let d2 = emit(d1, Call::<T>::Rope { a: q.id, head_dim: dim });
            let d3 = emit(d2, Call::<T>::Rope { a: k.id, head_dim: dim });
            let turned = (d1.next as usize, d2.next as usize, v.id);
            let (e, ids) = heads_cut(
                d3,
                turned,
                x.dims->Three_0,
                x.dims->Three_1,
                heads,
                kv,
                dim,
            );
            &&& counted(s0, e)
            &&& kept(shaped(s0, d), shaped(s0, e))
            &&& d.next <= ids.0 < e.next
            &&& d.next <= ids.1 < e.next
            &&& d.next <= ids.2 < e.next
            &&& d.next <= e.next <= d.next + 14
        }),
{
    let s = shaped(s0, d);
    lemma_projected(s0, layers, g, d, x);
    let (d1, q, k, v) = projected(layers, g, d, x);
    let c2 = Call::<T>::Rope { a: q.id, head_dim: dim };
    lemma_emit(s0, d1, c2);
    let d2 = emit(d1, c2);
    let c3 = Call::<T>::Rope { a: k.id, head_dim: dim };
    lemma_emit(s0, d2, c3);
    let d3 = emit(d2, c3);
    assert(kept(s, shaped(s0, d3)));
    let turned = (d1.next as usize, d2.next as usize, v.id);
    lemma_cut(s0, d3, turned, x.dims->Three_0, x.dims->Three_1, heads, kv, dim);
}

/// The layers of an attention with many heads have the shapes that they should.
pub open spec fn mha_shaped<T: Scalar>(
    s: Seq<Seq<usize>>,
    m: MultiHeadAttention,
    g: Graph<T>,
) -> bool {
    &&& linear_shaped(s, m.q_proj, m.q_proj.columns(g))
    &&& linear_shaped(s, m.k_proj, m.k_proj.columns(g))
    &&& linear_shaped(s, m.v_proj, m.v_proj.columns(g))
    &&& linear_shaped(s, m.out_proj, m.out_proj.columns(g))
    &&& caches_right(s, (m.cached_scale, m.cached_mask))
}

/// An attention with many heads turns `[batch, seq, _]` into `[batch, seq, out]`, leaves the shapes
/// of earlier tensors alone, and remembers scales and masks of the right shapes.
pub proof fn mha_gives_shape<T: Scalar>(
    s0: Seq<Seq<usize>>,
    m: MultiHeadAttention,
    g: Graph<T>,
    d: Draft<T>,
    x: Val,
    causal: bool,
)
    requires
        counted(s0, d),
        right(s0, d, x),
        m.takes(x),
        x.dims->Three_0 >= 1,
        m.num_heads >= 1,
        mha_shaped(shaped(s0, d), m, g),
        d.next + 25 <= usize::MAX,
    ensures
        ({
            let (e, y, after) = mha_calls(m, g, d, x, causal);
            &&& counted(s0, e)
            &&& right(s0, e, y)
            &&& y.dims == Dims::Three(
                x.dims->Three_0,
                x.dims->Three_1,
                m.out_proj.columns(g),
            )
            &&& kept(shaped(s0, d), shaped(s0, e))
            &&& mha_shaped(shaped(s0, e), after, g)
            &&& d.next <= e.next <= d.next + 25
        }),
{
    let (batch, seq) = (x.dims->Three_0, x.dims->Three_1);
    let s = shaped(s0, d);
    let layers = (m.q_proj, m.k_proj, m.v_proj);
    lemma_front(s0, layers, g, d, x, m.num_heads, m.num_heads, m.head_dim);
    let (d1, q, k, v) = projected(layers, g, d, x);
    let d2 = emit(d1, Call::<T>::Rope { a: q.id, head_dim: m.head_dim });
    let d3 = emit(d2, Call::<T>::Rope { a: k.id, head_dim: m.head_dim });
    let turned = (d1.next as usize, d2.next as usize, v.id);
    let (d4, ids) = heads_cut(d3, turned, batch, seq, m.num_heads, m.num_heads, m.head_dim);
    lemma_core(
        s0,
        s,
        g,
        d4,
        ids,
        batch,
        seq,
        m.num_heads,
        m.head_dim,
        m.hidden_dim,
        score_scale::<T>(m.head_dim),
        causal,
        Style { tag: Tag::AttnScale, pooled: false, half: g.mixed() },
        (m.cached_scale, m.cached_mask),
        m.out_proj,
    );
    let (e, y, after) = mha_calls(m, g, d, x, causal);
    lemma_linear_kept(s, shaped(s0, e), m.q_proj, m.q_proj.columns(g));
    lemma_linear_kept(s, shaped(s0, e), m.k_proj, m.k_proj.columns(g));
    lemma_linear_kept(s, shaped(s0, e), m.v_proj, m.v_proj.columns(g));
    lemma_linear_kept(s, shaped(s0, e), m.out_proj, m.out_proj.columns(g));
}

/// The layers of an attention with fewer heads for keys and values have the shapes that they
/// should.
pub open spec fn gqa_shaped<T: Scalar>(
    s: Seq<Seq<usize>>,
    m: GroupedQueryAttention,
    g: Graph<T>,
) -> bool {
    &&& linear_shaped(s, m.q_proj, m.q_proj.columns(g))
    &&& linear_shaped(s, m.k_proj, m.k_proj.columns(g))
    &&& linear_shaped(s, m.v_proj, m.v_proj.columns(g))
    &&& linear_shaped(s, m.out_proj, m.out_proj.columns(g))
    &&& caches_right(s, (m.cached_scale, m.cached_mask))
}

proof fn lemma_repeated<T: Scalar>(
    s0: Seq<Seq<usize>>,
    d: Draft<T>,
    x: usize,
    repeats: usize,
)
    requires
        counted(s0, d),
        x < d.next,
        d.next + 1 <= usize::MAX,
    ensures
        ({
            let (e, id) = repeated(d, x, repeats);
            &&& counted(s0, e)
            &&& id == x || id == d.next
            &&& id < e.next
            &&& kept(shaped(s0, d), shaped(s0, e))
            &&& d.next <= e.next <= d.next + 1
        }),
{
    if repeats != 1 {
        lemma_emit(s0, d, Call::<T>::RepeatKv { x, repeats });
    }
}

/// An attention with fewer heads for keys and values turns `[batch, seq, _]` into
/// `[batch, seq, out]`, leaves the shapes of earlier tensors alone, and remembers scales and masks
/// of the right shapes.
pub proof fn gqa_gives_shape<T: Scalar>(
    s0: Seq<Seq<usize>>,
    m: GroupedQueryAttention,
    g: Graph<T>,
    d: Draft<T>,
    x: Val,
    causal: bool,
)
    requires
        counted(s0, d),
        right(s0, d, x),
        m.takes(x),
        x.dims->Three_0 >= 1,
        m.num_heads >= 1,
        gqa_shaped(shaped(s0, d), m, g),
        d.next + 27 <= usize::MAX,
    ensures
        ({
            let (e, y, after) = gqa_calls(m, g, d, x, causal);
            &&& counted(s0, e)
            &&& right(s0, e, y)
            &&& y.dims == Dims::Three(
                x.dims->Three_0,
                x.dims->Three_1,
                m.out_proj.columns(g),
            )
            &&& kept(shaped(s0, d), shaped(s0, e))
            &&& gqa_shaped(shaped(s0, e), after, g)
        }),
{
    let (batch, seq) = (x.dims->Three_0, x.dims->Three_1);
    let repeats = m.num_heads / m.num_kv_heads;
    let s = shaped(s0, d);
    let layers = (m.q_proj, m.k_proj, m.v_proj);
    lemma_front(s0, layers, g, d, x, m.num_heads, m.num_kv_heads, m.head_dim);
    let (d1, q, k, v) = projected(layers, g, d, x);
    let d2 = emit(d1, Call::<T>::Rope { a: q.id, head_dim: m.head_dim });
    let d3 = emit(d2, Call::<T>::Rope { a: k.id, head_dim: m.head_dim });
    let turned = (d1.next as usize, d2.next as usize, v.id);
    let (d4, cut) = heads_cut(d3, turned, batch, seq, m.num_heads, m.num_kv_heads, m.head_dim);
    lemma_repeated(s0, d4, cut.1, repeats);
    let (d5, k_id) = repeated(d4, cut.1, repeats);
    lemma_repeated(s0, d5, cut.2, repeats);
    let (d6, v_id) = repeated(d5, cut.2, repeats);
    assert(kept(s, shaped(s0, d6)));
    lemma_core(
        s0,
        s,
        g,
        d6,
        (cut.0, k_id, v_id),
        batch,
        seq,
        m.num_heads,
        m.head_dim,
        m.hidden_dim,
        score_scale::<T>(m.head_dim),
        causal,
        Style { tag: Tag::GqaAttnScale, pooled: true, half: g.mixed() },
        (m.cached_scale, m.cached_mask),
        m.out_proj,
    );
    let (e, y, after) = gqa_calls(m, g, d, x, causal);
    lemma_linear_kept(s, shaped(s0, e), m.q_proj, m.q_proj.columns(g));
    lemma_linear_kept(s, shaped(s0, e), m.k_proj, m.k_proj.columns(g));
    lemma_linear_kept(s, shaped(s0, e), m.v_proj, m.v_proj.columns(g));
    lemma_linear_kept(s, shaped(s0, e), m.out_proj, m.out_proj.columns(g));
}

/// The layers of a block have the shapes that they should, for rows of `hidden` numbers.
pub open spec fn block_shaped<T: Scalar>(
    s: Seq<Seq<usize>>,
    b: TransformerBlock<T>,
    g: Graph<T>,
    hidden: usize,
) -> bool {
    &&& mha_shaped(s, b.attn, g)
    &&& b.attn.out_proj.columns(g) == hidden
    &&& b.attn.num_heads >= 1
    &&& linear_shaped(s, b.ffn1, b.ffn1.columns(g))
    &&& linear_shaped(s, b.ffn2, b.ffn2.columns(g))
    &&& b.ffn2.columns(g) == hidden
}

proof fn lemma_mha_kept<T: Scalar>(
    s: Seq<Seq<usize>>,
    t: Seq<Seq<usize>>,
    m: MultiHeadAttention,
    g: Graph<T>,
)
    requires
        kept(s, t),
        mha_shaped(s, m, g),
    ensures
        mha_shaped(t, m, g),
{
    lemma_linear_kept(s, t, m.q_proj, m.q_proj.columns(g));
    lemma_linear_kept(s, t, m.k_proj, m.k_proj.columns(g));
    lemma_linear_kept(s, t, m.v_proj, m.v_proj.columns(g));
    lemma_linear_kept(s, t, m.out_proj, m.out_proj.columns(g));
}

pub proof fn lemma_block_kept<T: Scalar>(
    s: Seq<Seq<usize>>,
    t: Seq<Seq<usize>>,
    b: TransformerBlock<T>,
    g: Graph<T>,
    hidden: usize,
)
    requires
        kept(s, t),
        block_shaped(s, b, g, hidden),
    ensures
        block_shaped(t, b, g, hidden),
{
    lemma_mha_kept(s, t, b.attn, g);
    lemma_linear_kept(s, t, b.ffn1, b.ffn1.columns(g));
    lemma_linear_kept(s, t, b.ffn2, b.ffn2.columns(g));
}

/// The first half of a block: attention added to the input.
pub open spec fn block_middle<T: Scalar>(
    b: TransformerBlock<T>,
    g: Graph<T>,
    d: Draft<T>,
    x: Val,
    causal: bool,
) -> (Draft<T>, Val, MultiHeadAttention) {
    let (d1, n1) = norm_calls(b.norm1, d, x);
    let (d2, a, attn) = mha_calls(b.attn, g, d1, n1, causal);
    (
        emit(d2, Call::Add { a: x.id, b: a.id }),
        Val { id: d2.next as usize, dims: x.dims },
        attn,
    )
}

proof fn lemma_block_middle<T: Scalar>(
    s0: Seq<Seq<usize>>,
    b: TransformerBlock<T>,
    g: Graph<T>,
    d: Draft<T>,
    x: Val,
    causal: bool,
)
    requires
        counted(s0, d),
        right(s0, d, x),
        b.attn.takes(x),
        x.dims->Three_0 >= 1,
        block_shaped(shaped(s0, d), b, g, x.dims->Three_2),
        d.next + 27 <= usize::MAX,
    ensures
        ({
            let (e, y, attn) = block_middle(b, g, d, x, causal);
            &&& counted(s0, e)
            &&& right(s0, e, y)
            &&& kept(shaped(s0, d), shaped(s0, e))
            &&& mha_shaped(shaped(s0, e), attn, g)
            &&& d.next <= e.next <= d.next + 27
        }),
{
    let s = shaped(s0, d);
    lemma_emit(s0, d, Call::<T>::RmsNorm { x: x.id, w: b.norm1.weight_id, eps: b.norm1.eps });
    let (d1, n1) = norm_calls(b.norm1, d, x);
    lemma_mha_kept(s, shaped(s0, d1), b.attn, g);
    mha_gives_shape(s0, b.attn, g, d1, n1, causal);
    let (d2, a, attn) = mha_calls(b.attn, g, d1, n1, causal);
    assert(kept(s, shaped(s0, d2)));
    assert(a.dims == x.dims);
    lemma_same_shape(x.dims.shape());
    let c3 = Call::<T>::Add { a: x.id, b: a.id };
    lemma_emit(s0, d2, c3);
    let d3 = emit(d2, c3);
    lemma_mha_kept(shaped(s0, d2), shaped(s0, d3), attn, g);
}

/// A block keeps the shape of its input.
pub proof fn block_gives_shape<T: Scalar>(
    s0: Seq<Seq<usize>>,
    b: TransformerBlock<T>,
    g: Graph<T>,
    d: Draft<T>,
    x: Val,
    causal: bool,
)
    requires
        counted(s0, d),
        right(s0, d, x),
        b.attn.takes(x),
        x.dims->Three_0 >= 1,
        block_shaped(shaped(s0, d), b, g, x.dims->Three_2),
        d.next + 34 <= usize::MAX,
    ensures
        ({
            let (e, y, after) = block_calls(b, g, d, x, causal);
            &&& counted(s0, e)
            &&& right(s0, e, y)
            &&& y.dims == x.dims
            &&& kept(shaped(s0, d), shaped(s0, e))
            &&& block_shaped(shaped(s0, e), after, g, x.dims->Three_2)
            &&& d.next <= e.next <= d.next + 34
        }),
{
    let s = shaped(s0, d);
    lemma_block_middle(s0, b, g, d, x, causal);
    let (d3, r1, attn) = block_middle(b, g, d, x, causal);
    lemma_block_end(s0, s, b, attn, g, d3, r1);
}

/// The second half of a block, from `d` on; `s` are shapes of before the block.
proof fn lemma_block_end<T: Scalar>(
    s0: Seq<Seq<usize>>,
    s: Seq<Seq<usize>>,
    b: TransformerBlock<T>,
    attn: MultiHeadAttention,
    g: Graph<T>,
    d: Draft<T>,
    r1: Val,
)
    requires
        counted(s0, d),
        right(s0, d, r1),
        r1.dims is Three,
        kept(s, shaped(s0, d)),
        block_shaped(s, b, g, r1.dims->Three_2),
        mha_shaped(shaped(s0, d), attn, g),
        d.next + 7 <= usize::MAX,
    ensures
        ({
            let (d4, n2) = norm_calls(b.norm2, d, r1);
            let (d5, f1) = linear_calls(b.ffn1, b.ffn1.columns(g), g.mixed(), d4, n2);
            let d6 = emit(d5, Call::<T>::Silu { a: f1.id });
            let act = Val { id: d5.next as usize, dims: f1.dims };
            let (d7, f2) = linear_calls(b.ffn2, b.ffn2.columns(g), g.mixed(), d6, act);
            let e = emit(d7, Call::<T>::Add { a: r1.id, b: f2.id });
            let y = Val { id: d7.next as usize, dims: r1.dims };
            &&& counted(s0, e)
            &&& right(s0, e, y)
            &&& kept(s, shaped(s0, e))
            &&& mha_shaped(shaped(s0, e), attn, g)
            &&& linear_shaped(shaped(s0, e), b.ffn1, b.ffn1.columns(g))
            &&& linear_shaped(shaped(s0, e), b.ffn2, b.ffn2.columns(g))
            &&& d.next <= e.next <= d.next + 7
        }),
{
    let t = shaped(s0, d);
    lemma_same_shape(r1.dims.shape());
    lemma_emit(s0, d, Call::<T>::RmsNorm { x: r1.id, w: b.norm2.weight_id, eps: b.norm2.eps });
    let (d4, n2) = norm_calls(b.norm2, d, r1);
    assert(kept(t, shaped(s0, d4)) && kept(s, shaped(s0, d4)));
    lemma_linear_kept(s, shaped(s0, d4), b.ffn1, b.ffn1.columns(g));
    linear_gives_shape(s0, b.ffn1, b.ffn1.columns(g), g.mixed(), d4, n2);
    let (d5, f1) = linear_calls(b.ffn1, b.ffn1.columns(g), g.mixed(), d4, n2);
    assert(kept(t, shaped(s0, d5)) && kept(s, shaped(s0, d5)));
    let c6 = Call::<T>::Silu { a: f1.id };
    lemma_emit(s0, d5, c6);
    let d6 = emit(d5, c6);
    let act = Val { id: d5.next as usize, dims: f1.dims };
    assert(kept(t, shaped(s0, d6)) && kept(s, shaped(s0, d6)));
    lemma_linear_kept(s, shaped(s0, d6), b.ffn2, b.ffn2.columns(g));
    linear_gives_shape(s0, b.ffn2, b.ffn2.columns(g), g.mixed(), d6, act);
    let (d7, f2) = linear_calls(b.ffn2, b.ffn2.columns(g), g.mixed(), d6, act);
    assert(kept(t, shaped(s0, d7)) && kept(s, shaped(s0, d7)));
    assert(f2.dims == r1.dims);
    let c8 = Call::<T>::Add { a: r1.id, b: f2.id };
    lemma_emit(s0, d7, c8);
    let e = emit(d7, c8);
    assert(kept(t, shaped(s0, e)) && kept(s, shaped(s0, e)));
    lemma_mha_kept(t, shaped(s0, e), attn, g);
    lemma_linear_kept(s, shaped(s0, e), b.ffn1, b.ffn1.columns(g));
    lemma_linear_kept(s, shaped(s0, e), b.ffn2, b.ffn2.columns(g));
}

/// Blocks one after the other keep the shape of their input.
pub proof fn blocks_give_shape<T: Scalar>(
    s0: Seq<Seq<usize>>,
    bs: Seq<TransformerBlock<T>>,
    g: Graph<T>,
    d: Draft<T>,
    x: Val,
    n: nat,
)
    requires
        counted(s0, d),
        right(s0, d, x),
        n <= bs.len(),
        x.dims is Three,
        x.dims->Three_0 >= 1,
        forall|i: int|
            0 <= i < bs.len() ==> (#[trigger] bs[i]).attn.takes(x) && block_shaped(
                shaped(s0, d),
                bs[i],
                g,
                x.dims->Three_2,
            ),
        d.next + 34 * n <= usize::MAX,
    ensures
        ({
            let (e, y, after) = blocks_calls(bs, g, d, x, n);
            &&& counted(s0, e)
            &&& right(s0, e, y)
            &&& y.dims == x.dims
            &&& kept(shaped(s0, d), shaped(s0, e))
            &&& d.next <= e.next <= d.next + 34 * n
        }),
    decreases n,
{
    if n > 0 {
        blocks_give_shape(s0, bs, g, d, x, (n - 1) as nat);
        let (e, h, done) = blocks_calls(bs, g, d, x, (n - 1) as nat);
        assert(bs[n - 1].attn.takes(x));
        lemma_block_kept(shaped(s0, d), shaped(s0, e), bs[n - 1], g, x.dims->Three_2);
        block_gives_shape(s0, bs[n - 1], g, e, h, true);
    }
}

/// A language model turns tokens of `[batch, seq]` into scores of `[batch, seq, vocabulary]`.
pub proof fn model_gives_scores<T: Scalar>(
    s0: Seq<Seq<usize>>,
    m: crate::nn::transformer::TransformerLM<T>,
    g: Graph<T>,
    d: Draft<T>,
    x: Val,
)
    requires
        counted(s0, d),
        right(s0, d, x),
        m.takes(x),
        x.dims->Two_0 >= 1,
        m.token_emb.weight_id < d.next,
        shaped(s0, d)[m.token_emb.weight_id as int].len() == 2,
        shaped(s0, d)[m.token_emb.weight_id as int][1] == m.token_emb.columns(g),
        linear_shaped(shaped(s0, d), m.lm_head, m.lm_head.columns(g)),
        forall|i: int|
            0 <= i < m.blocks@.len() ==> block_shaped(
                shaped(s0, d),
                #[trigger] m.blocks@[i],
                g,
                m.token_emb.columns(g),
            ),
        d.next + 34 * m.blocks@.len() + 8 <= usize::MAX,
    ensures
        ({
            let (d1, h) = embedding_calls(m.token_emb, m.token_emb.columns(g), d, x);
            let (d2, h2, bs) = blocks_calls(m.blocks@, g, d1, h, m.blocks@.len());
            let (d3, h3) = norm_calls(m.norm_f, d2, h2);
            let (e, y) = linear_calls(m.lm_head, m.lm_head.columns(g), g.mixed(), d3, h3);
            &&& right(s0, e, y)
            &&& y.dims == Dims::Three(x.dims->Two_0, x.dims->Two_1, m.lm_head.columns(g))
            &&& kept(shaped(s0, d), shaped(s0, e))
        }),
{
    let hidden = m.token_emb.columns(g);
    let s = shaped(s0, d);
    lemma_emit(s0, d, Call::<T>::Gather { w: m.token_emb.weight_id, x: x.id });
    let (d1, h) = embedding_calls(m.token_emb, hidden, d, x);
    assert(shaped(s0, d1)[d.next] =~= h.dims.shape());
    assert(right(s0, d1, h));
    assert forall|i: int| 0 <= i < m.blocks@.len() implies (#[trigger] m.blocks@[i]).attn.takes(h)
        && block_shaped(shaped(s0, d1), m.blocks@[i], g, h.dims->Three_2) by {
        lemma_block_kept(s, shaped(s0, d1), m.blocks@[i], g, hidden);
    }
    blocks_give_shape(s0, m.blocks@, g, d1, h, m.blocks@.len());
    let (d2, h2, bs) = blocks_calls(m.blocks@, g, d1, h, m.blocks@.len());
    lemma_emit(s0, d2, Call::<T>::RmsNorm { x: h2.id, w: m.norm_f.weight_id, eps: m.norm_f.eps });
    let (d3, h3) = norm_calls(m.norm_f, d2, h2);
    assert(kept(s, shaped(s0, d3)));
    lemma_linear_kept(s, shaped(s0, d3), m.lm_head, m.lm_head.columns(g));
    linear_gives_shape(s0, m.lm_head, m.lm_head.columns(g), g.mixed(), d3, h3);
}

} // verus!
