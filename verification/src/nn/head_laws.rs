//! What an attention with many heads computes, value by value.
use crate::graph::host::{flash_dims, rope_dims};
use crate::graph::index::lemma_product3;
use crate::graph::ops::attention::{flash_out, FlashDims};
use crate::graph::ops::elementwise::broadcast_ok;
use crate::graph::ops::linear::{bmm_out, BmmDims};
use crate::graph::ops::transform::{rope_out, transpose_0213_out};
use crate::graph::row_laws::same_row;
use crate::graph::Graph;
use crate::nn::attention::{
    attend_calls, flattened, heads_cut, heads_joined, mha_calls, projected, score_scale,
    MultiHeadAttention, Style,
};
use crate::nn::block_laws::{
    fits, fitting, grown, layer_gives_product, lemma_emit, lemma_grown, lemma_layer_kept,
    through_layer,
};
use crate::nn::causality::{cut_begins, linear_begins, mha_begins};
use crate::nn::linear::{linear_calls, Linear};
use crate::nn::masking::{
    hides, one_pass_gives_what_steps_give, stepwise_scores, stepwise_weights,
};
use crate::nn::program::{emit, Call, Dims, Draft, Tag, Val};
use crate::nn::values::{
    at_each_call_before, begins_emit, begins_through, drafted, made_by, Held,
};
use crate::scalar::Scalar;
use crate::tensor::{broadcast_shape, product};
use vstd::prelude::*;

verus! {

/// Rows turned by their positions.
pub open spec fn turned<T: Scalar>(x: Held<T>, head: usize) -> Held<T> {
    Held { shape: x.shape, data: rope_out(x.data, rope_dims(x.shape, head)) }
}

/// Rows cut into heads, each head a matrix.
pub open spec fn cut<T>(x: Held<T>, n: usize, s: usize, heads: usize, dim: usize) -> Held<T> {
    Held {
        shape: seq![(n * heads) as usize, s, dim],
        data: transpose_0213_out(x.data, s as int, heads as int, dim as int),
    }
}

/// Heads joined to rows again.
pub open spec fn joined<T>(x: Held<T>, n: usize, s: usize, heads: usize, dim: usize) -> Held<T> {
    Held {
        shape: seq![n, s, (heads * dim) as usize],
        data: transpose_0213_out(x.data, heads as int, s as int, dim as int),
    }
}

/// For every query the values weighted by its scores.
pub open spec fn attended<T: Scalar>(
    q: Held<T>,
    k: Held<T>,
    v: Held<T>,
    scale: T,
    causal: bool,
) -> Held<T> {
    Held {
        shape: q.shape,
        data: flash_out(q.data, k.data, v.data, flash_dims(q.shape, k.shape), scale, causal),
    }
}

/// The weights and the bias of a layer are among the tensors.
pub open spec fn layer_there(l: Linear, n: int) -> bool {
    l.weight_id < n && (l.bias_id matches Some(b) ==> b < n)
}

/// The queries, keys and values are what the three layers make of the input.
proof fn lemma_projected<T: Scalar>(
    s0: Seq<Held<T>>,
    layers: (Linear, Linear, Linear),
    g: Graph<T>,
    d: Draft<T>,
    x: Val,
)
    requires
        drafted(s0, d).len() == d.next,
        x.dims is Three,
        x.id < d.next,
        layer_there(layers.0, d.next),
        layer_there(layers.1, d.next),
        layer_there(layers.2, d.next),
        d.next + 6 <= usize::MAX,
        fitting(s0, projected(layers, g, d, x).0),
    ensures
        ({
            let (e, q, k, v) = projected(layers, g, d, x);
            let (u, w) = (drafted(s0, d), drafted(s0, e));
            let (n, s) = (x.dims->Three_0, x.dims->Three_1);
            let input = u[x.id as int];
            &&& w.len() == e.next
            &&& grown(u, w)
            &&& d.next <= q.id < k.id < v.id < e.next <= d.next + 6
            &&& w[q.id as int] == through_layer(u, layers.0, input, seq![n, s, layers.0.columns(g)])
            &&& w[k.id as int] == through_layer(u, layers.1, input, seq![n, s, layers.1.columns(g)])
            &&& w[v.id as int] == through_layer(u, layers.2, input, seq![n, s, layers.2.columns(g)])
        }),
{
    let (n, s) = (x.dims->Three_0, x.dims->Three_1);
    let (q, k, v) = layers;
    let (d1, qv) = linear_calls(q, q.columns(g), g.mixed(), d, x);
    let (d2, kv) = linear_calls(k, k.columns(g), g.mixed(), d1, x);
    let (d3, vv) = linear_calls(v, v.columns(g), g.mixed(), d2, x);
    linear_begins(k, k.columns(g), g.mixed(), d1, x);
    linear_begins(v, v.columns(g), g.mixed(), d2, x);
    begins_through(d1, d2, d3);
    at_each_call_before(s0, d1, d3, fits());
    at_each_call_before(s0, d2, d3, fits());
    let (u, u1, u2, u3) = (
        drafted(s0, d),
        drafted(s0, d1),
        drafted(s0, d2),
        drafted(s0, d3),
    );
    let input = u[x.id as int];
    layer_gives_product(s0, q, q.columns(g), g.mixed(), d, x);
    layer_gives_product(s0, k, k.columns(g), g.mixed(), d1, x);
    lemma_layer_kept(u, u1, k, input, seq![n, s, k.columns(g)]);
    lemma_grown(u, u1, u2);
    layer_gives_product(s0, v, v.columns(g), g.mixed(), d2, x);
    lemma_layer_kept(u, u2, v, input, seq![n, s, v.columns(g)]);
    lemma_grown(u, u2, u3);
    lemma_grown(u1, u2, u3);
}

/// What heads are cut out of three tensors hold.
proof fn lemma_cut<T: Scalar>(
    s0: Seq<Held<T>>,
    d: Draft<T>,
    ids: (usize, usize, usize),
    n: usize,
    s: usize,
    heads: usize,
    dim: usize,
)
    requires
        drafted(s0, d).len() == d.next,
        ids.0 < d.next,
        ids.1 < d.next,
        ids.2 < d.next,
        d.next + 6 <= usize::MAX,
        fitting(s0, heads_cut(d, ids, n, s, heads, heads, dim).0),
    ensures
        ({
            let (e, r) = heads_cut(d, ids, n, s, heads, heads, dim);
            let (u, w) = (drafted(s0, d), drafted(s0, e));
            &&& w.len() == e.next
            &&& e.next == d.next + 6
            &&& grown(u, w)
            &&& d.next <= r.0 < r.1 < r.2 < e.next
            &&& w[r.0 as int].data == cut(u[ids.0 as int], n, s, heads, dim).data
            &&& w[r.1 as int].data == cut(u[ids.1 as int], n, s, heads, dim).data
            &&& w[r.2 as int].data == cut(u[ids.2 as int], n, s, heads, dim).data
        }),
{
    let dims = Dims::Four(n, s, heads, dim);
    let c1 = Call::<T>::Reshape { a: ids.0, dims };
    let c2 = Call::<T>::Reshape { a: ids.1, dims };
    let c3 = Call::<T>::Reshape { a: ids.2, dims };
    let d1 = emit(d, c1);
    let d2 = emit(d1, c2);
    let d3 = emit(d2, c3);
    let c4 = Call::<T>::Transpose0213 { a: d.next as usize };
    let c5 = Call::<T>::Transpose0213 { a: d1.next as usize };
    let c6 = Call::<T>::Transpose0213 { a: d2.next as usize };
    let d4 = emit(d3, c4);
    let d5 = emit(d4, c5);
    let d6 = emit(d5, c6);
    begins_emit(d1, c2);
    begins_emit(d2, c3);
    begins_emit(d3, c4);
    begins_emit(d4, c5);
    begins_emit(d5, c6);
    begins_through(d4, d5, d6);
    begins_through(d3, d4, d6);
    begins_through(d2, d3, d6);
    begins_through(d1, d2, d6);
    at_each_call_before(s0, d1, d6, fits());
    at_each_call_before(s0, d2, d6, fits());
    at_each_call_before(s0, d3, d6, fits());
    at_each_call_before(s0, d4, d6, fits());
    at_each_call_before(s0, d5, d6, fits());
    lemma_emit(s0, d, c1);
    lemma_emit(s0, d1, c2);
    lemma_emit(s0, d2, c3);
    lemma_emit(s0, d3, c4);
    lemma_emit(s0, d4, c5);
    lemma_emit(s0, d5, c6);
    let (u, u1, u2, u3, u4, u5, u6) = (
        drafted(s0, d),
        drafted(s0, d1),
        drafted(s0, d2),
        drafted(s0, d3),
        drafted(s0, d4),
        drafted(s0, d5),
        drafted(s0, d6),
    );
    lemma_grown(u, u1, u2);
    lemma_grown(u, u2, u3);
    lemma_grown(u, u3, u4);
    lemma_grown(u, u4, u5);
    lemma_grown(u, u5, u6);
    lemma_grown(u1, u2, u3);
    lemma_grown(u1, u3, u4);
    lemma_grown(u2, u3, u4);
    lemma_grown(u2, u4, u5);
    lemma_grown(u4, u5, u6);
    assert(u1[d.next] == made_by(u, c1));
    assert(u2[d1.next] == made_by(u1, c2));
    assert(u3[d2.next] == made_by(u2, c3));
    assert(u4[d3.next] == made_by(u3, c4));
    assert(u5[d4.next] == made_by(u4, c5));
    assert(u6[d5.next] == made_by(u5, c6));
}

/// From heads to the end of an attention in one pass.
proof fn lemma_core<T: Scalar>(
    s0: Seq<Held<T>>,
    u: Seq<Held<T>>,
    g: Graph<T>,
    d: Draft<T>,
    ids: (usize, usize, usize),
    n: usize,
    s: usize,
    m: MultiHeadAttention,
    causal: bool,
)
    requires
        g.no_grad,
        drafted(s0, d).len() == d.next,
        grown(u, drafted(s0, d)),
        u.len() <= ids.0,
        ids.0 < ids.1 < ids.2 < d.next,
        layer_there(m.out_proj, u.len() as int),
        m.hidden_dim == m.num_heads * m.head_dim,
        d.next + 11 <= usize::MAX,
        ({
            let b = (n * m.num_heads) as usize;
            let d1 = flattened(d, ids, b, s, m.head_dim);
            let (d2, done) = attend_calls(
                d1,
                true,
                ids,
                b,
                s,
                score_scale::<T>(m.head_dim),
                causal,
                Style { tag: Tag::AttnScale, pooled: false, half: g.mixed() },
                (m.cached_scale, m.cached_mask),
            );
            let (d3, context) = heads_joined(
                d2,
                done.id,
                n,
                s,
                m.num_heads,
                m.head_dim,
                m.hidden_dim,
            );
            fitting(
                s0,
                linear_calls(m.out_proj, m.out_proj.columns(g), g.mixed(), d3, context).0,
            )
        }),
    ensures
        ({
            let b = (n * m.num_heads) as usize;
            let w = drafted(s0, d);
            let shape = seq![b, s, m.head_dim];
            let (q, k, v) = (
                Held { shape, data: w[ids.0 as int].data },
                Held { shape, data: w[ids.1 as int].data },
                Held { shape, data: w[ids.2 as int].data },
            );
            let d1 = flattened(d, ids, b, s, m.head_dim);
            let (d2, done) = attend_calls(
                d1,
                true,
                ids,
                b,
                s,
                score_scale::<T>(m.head_dim),
                causal,
                Style { tag: Tag::AttnScale, pooled: false, half: g.mixed() },
                (m.cached_scale, m.cached_mask),
            );
            let (d3, context) = heads_joined(
                d2,
                done.id,
                n,
                s,
                m.num_heads,
                m.head_dim,
                m.hidden_dim,
            );
            let (e, y) = linear_calls(
                m.out_proj,
                m.out_proj.columns(g),
                g.mixed(),
                d3,
                context,
            );
            drafted(s0, e)[y.id as int] == through_layer(
                u,
                m.out_proj,
                joined(
                    attended(q, k, v, score_scale::<T>(m.head_dim), causal),
                    n,
                    s,
                    m.num_heads,
                    m.head_dim,
                ),
                seq![n, s, m.out_proj.columns(g)],
            )
        }),
{
    let (heads, dim) = (m.num_heads, m.head_dim);
    let b = (n * heads) as usize;
    let scale = score_scale::<T>(dim);
    let style = Style { tag: Tag::AttnScale, pooled: false, half: g.mixed() };
    let caches = (m.cached_scale, m.cached_mask);
    let three = Dims::Three(b, s, dim);
    let a1 = Call::<T>::Reinterpret { id: ids.0, dims: three };
    let a2 = Call::<T>::Reinterpret { id: ids.1, dims: three };
    let a3 = Call::<T>::Reinterpret { id: ids.2, dims: three };
    let e1 = emit(d, a1);
    let e2 = emit(e1, a2);
    let d1 = flattened(d, ids, b, s, dim);
    let flash = Call::<T>::FlashAttention { q: ids.0, k: ids.1, v: ids.2, scale, causal };
    let (d2, done) = attend_calls(d1, true, ids, b, s, scale, causal, style, caches);
    let four = Call::<T>::Reinterpret { id: done.id, dims: Dims::Four(n, heads, s, dim) };
    let f1 = emit(d2, four);
    let back = Call::<T>::Transpose0213 { a: done.id };
    let f2 = emit(f1, back);
    let rows = Call::<T>::Reshape { a: f1.next as usize, dims: Dims::Three(n, s, m.hidden_dim) };
    let (d3, context) = heads_joined(d2, done.id, n, s, heads, dim, m.hidden_dim);
    let e = linear_calls(m.out_proj, m.out_proj.columns(g), g.mixed(), d3, context).0;
    linear_begins(m.out_proj, m.out_proj.columns(g), g.mixed(), d3, context);
    begins_emit(f2, rows);
    begins_emit(f1, back);
    begins_emit(d2, four);
    begins_emit(d1, flash);
    begins_emit(e2, a3);
    begins_emit(e1, a2);
    begins_through(f2, d3, e);
    begins_through(f1, f2, e);
    begins_through(d2, f1, e);
    begins_through(d1, d2, e);
    begins_through(e2, d1, e);
    begins_through(e1, e2, e);
    at_each_call_before(s0, e1, e, fits());
    at_each_call_before(s0, e2, e, fits());
    at_each_call_before(s0, d1, e, fits());
    at_each_call_before(s0, d2, e, fits());
    at_each_call_before(s0, f1, e, fits());
    at_each_call_before(s0, f2, e, fits());
    at_each_call_before(s0, d3, e, fits());
    lemma_emit(s0, d, a1);
    lemma_emit(s0, e1, a2);
    lemma_emit(s0, e2, a3);
    let w = drafted(s0, d);
    let w1 = drafted(s0, d1);
    assert(grown(u, w1));
    assert(w1[ids.0 as int].shape =~= seq![b, s, dim] && w1[ids.0 as int].data
        == w[ids.0 as int].data);
    assert(w1[ids.1 as int].shape =~= seq![b, s, dim] && w1[ids.1 as int].data
        == w[ids.1 as int].data);
    assert(w1[ids.2 as int].data == w[ids.2 as int].data);
    lemma_emit(s0, d1, flash);
    let w2 = drafted(s0, d2);
    assert(w2[d1.next] == made_by(w1, flash));
    lemma_grown(u, w1, w2);
    lemma_emit(s0, d2, four);
    lemma_emit(s0, f1, back);
    lemma_emit(s0, f2, rows);
    let w3 = drafted(s0, d3);
    assert(grown(u, drafted(s0, f1)));
    lemma_grown(u, drafted(s0, f1), drafted(s0, f2));
    lemma_grown(u, drafted(s0, f2), w3);
    assert(drafted(s0, f2)[f1.next] == made_by(drafted(s0, f1), back));
    assert(w3[f2.next] == made_by(drafted(s0, f2), rows));
    assert(w3[context.id as int].shape =~= seq![n, s, m.hidden_dim]);
    layer_gives_product(s0, m.out_proj, m.out_proj.columns(g), g.mixed(), d3, context);
    lemma_layer_kept(
        u,
        w3,
        m.out_proj,
        w3[context.id as int],
        seq![n, s, m.out_proj.columns(g)],
    );
}

/// An attention with many heads turns its queries and keys by their positions, not its values, cuts
/// all three into heads, weighs the values of each head by its scores, and passes the heads,
/// joined again, through its last layer. Here operations are not recorded.
pub proof fn heads_attend_turned_rows<T: Scalar>(
    s0: Seq<Held<T>>,
    m: MultiHeadAttention,
    g: Graph<T>,
    d: Draft<T>,
    x: Val,
    causal: bool,
)
    requires
        g.no_grad,
        drafted(s0, d).len() == d.next,
        m.takes(x),
        x.id < d.next,
        layer_there(m.q_proj, d.next),
        layer_there(m.k_proj, d.next),
        layer_there(m.v_proj, d.next),
        layer_there(m.out_proj, d.next),
        m.hidden_dim == m.num_heads * m.head_dim,
        d.next + 25 <= usize::MAX,
        fitting(s0, mha_calls(m, g, d, x, causal).0),
    ensures
        ({
            let u = drafted(s0, d);
            let input = u[x.id as int];
            let (n, s) = (x.dims->Three_0, x.dims->Three_1);
            let (heads, dim) = (m.num_heads, m.head_dim);
            let q = through_layer(u, m.q_proj, input, seq![n, s, m.q_proj.columns(g)]);
            let k = through_layer(u, m.k_proj, input, seq![n, s, m.k_proj.columns(g)]);
            let v = through_layer(u, m.v_proj, input, seq![n, s, m.v_proj.columns(g)]);
            let (e, y, after) = mha_calls(m, g, d, x, causal);
            drafted(s0, e)[y.id as int] == through_layer(
                u,
                m.out_proj,
                joined(
                    attended(
                        cut(turned(q, dim), n, s, heads, dim),
                        cut(turned(k, dim), n, s, heads, dim),
                        cut(v, n, s, heads, dim),
                        score_scale::<T>(dim),
                        causal,
                    ),
                    n,
                    s,
                    heads,
                    dim,
                ),
                seq![n, s, m.out_proj.columns(g)],
            )
        }),
{
    let u = drafted(s0, d);
    let (n, s) = (x.dims->Three_0, x.dims->Three_1);
    let (heads, dim) = (m.num_heads, m.head_dim);
    let layers = (m.q_proj, m.k_proj, m.v_proj);
    let (d1, q, k, v) = projected(layers, g, d, x);
    let c2 = Call::<T>::Rope { a: q.id, head_dim: dim };
    let d2 = emit(d1, c2);
    let c3 = Call::<T>::Rope { a: k.id, head_dim: dim };
    let d3 = emit(d2, c3);
    let ids3 = (d1.next as usize, d2.next as usize, v.id);
    let (d4, ids) = heads_cut(d3, ids3, n, s, heads, heads, dim);
    let e = mha_calls(m, g, d, x, causal).0;
    mha_begins(m, g, d, x, causal);
    cut_begins(d3, ids3, n, s, heads, heads, dim);
    begins_emit(d2, c3);
    begins_emit(d1, c2);
    begins_through(d3, d4, e);
    begins_through(d2, d3, e);
    begins_through(d1, d2, e);
    at_each_call_before(s0, d1, e, fits());
    at_each_call_before(s0, d2, e, fits());
    at_each_call_before(s0, d3, e, fits());
    at_each_call_before(s0, d4, e, fits());
    let (u1, u2, u3, u4) = (
        drafted(s0, d1),
        drafted(s0, d2),
        drafted(s0, d3),
        drafted(s0, d4),
    );
    lemma_projected(s0, layers, g, d, x);
    lemma_emit(s0, d1, c2);
    assert(u2[d1.next] == made_by(u1, c2));
    lemma_emit(s0, d2, c3);
    assert(u3[d2.next] == made_by(u2, c3));
    lemma_grown(u1, u2, u3);
    lemma_grown(u, u1, u3);
    lemma_cut(s0, d3, ids3, n, s, heads, dim);
    lemma_grown(u, u3, u4);
    lemma_core(s0, u, g, d4, ids, n, s, m, causal);
}

/// What attention step by step makes, with a new scale and a new mask.
proof fn lemma_steps<T: Scalar>(
    s0: Seq<Held<T>>,
    d: Draft<T>,
    ids: (usize, usize, usize),
    n: usize,
    s: usize,
    dim: usize,
    scale: T,
    style: Style,
)
    requires
        drafted(s0, d).len() == d.next,
        n >= 1,
        s >= 1,
        ids.0 < d.next,
        ids.1 < d.next,
        ids.2 < d.next,
        drafted(s0, d)[ids.0 as int].shape == seq![n, s, dim],
        drafted(s0, d)[ids.1 as int].shape == seq![n, s, dim],
        drafted(s0, d)[ids.2 as int].shape == seq![n, s, dim],
        d.next + 7 <= usize::MAX,
        fitting(
            s0,
            attend_calls(d, false, ids, n, s, scale, true, style, (None, None)).0,
        ),
    ensures
        ({
            let u = drafted(s0, d);
            let (q, k, v) = (
                u[ids.0 as int].data,
                u[ids.1 as int].data,
                u[ids.2 as int].data,
            );
            let p = BmmDims { batch: n, m: s, k: dim, n: s, trans_b: true };
            let o = BmmDims { batch: n, m: s, k: s, n: dim, trans_b: false };
            let scales = Seq::new(product(seq![n, s, s]), |i: int| scale);
            let (e, a) = attend_calls(d, false, ids, n, s, scale, true, style, (None, None));
            &&& broadcast_ok(seq![n, s, s], seq![1, s, s])
            &&& drafted(s0, e)[a.id as int].shape == seq![n, s, dim]
            &&& drafted(s0, e)[a.id as int].data == bmm_out(
                stepwise_weights(stepwise_scores(q, k, scales, p), n, s),
                v,
                o,
            )
        }),
{
    let u = drafted(s0, d);
    let shape = seq![n, s, s];
    let c1 = Call::<T>::Bmm { a: ids.0, b: ids.1, trans_b: true };
    let d1 = emit(d, c1);
    let c2 = Call::<T>::Constant {
        dims: Dims::Three(n, s, s),
        value: scale,
        tag: style.tag,
        pooled: style.pooled,
    };
    let d2 = emit(d1, c2);
    let c3 = Call::<T>::Mul { a: d.next as usize, b: d1.next as usize };
    let d3 = emit(d2, c3);
    let c4 = Call::<T>::Mask { seq: s, half: style.half };
    let d4 = emit(d3, c4);
    let c5 = Call::<T>::Add { a: d2.next as usize, b: d3.next as usize };
    let d5 = emit(d4, c5);
    let c6 = Call::<T>::Softmax { a: d4.next as usize };
    let d6 = emit(d5, c6);
    let c7 = Call::<T>::Bmm { a: d5.next as usize, b: ids.2, trans_b: false };
    let e = emit(d6, c7);
    assert(e == attend_calls(d, false, ids, n, s, scale, true, style, (None, None)).0);
    begins_emit(d1, c2);
    begins_emit(d2, c3);
    begins_emit(d3, c4);
    begins_emit(d4, c5);
    begins_emit(d5, c6);
    begins_emit(d6, c7);
    begins_through(d5, d6, e);
    begins_through(d4, d5, e);
    begins_through(d3, d4, e);
    begins_through(d2, d3, e);
    begins_through(d1, d2, e);
    at_each_call_before(s0, d1, e, fits());
    at_each_call_before(s0, d2, e, fits());
    at_each_call_before(s0, d3, e, fits());
    at_each_call_before(s0, d4, e, fits());
    at_each_call_before(s0, d5, e, fits());
    at_each_call_before(s0, d6, e, fits());
    lemma_emit(s0, d, c1);
    lemma_emit(s0, d1, c2);
    lemma_emit(s0, d2, c3);
    lemma_emit(s0, d3, c4);
    lemma_emit(s0, d4, c5);
    lemma_emit(s0, d5, c6);
    lemma_emit(s0, d6, c7);
    let (u1, u2, u3, u4, u5, u6) = (
        drafted(s0, d1),
        drafted(s0, d2),
        drafted(s0, d3),
        drafted(s0, d4),
        drafted(s0, d5),
        drafted(s0, d6),
    );
    assert(broadcast_shape(shape, shape) =~= shape);
    assert(broadcast_shape(shape, seq![1, s, s]) =~= shape);
    lemma_product3(n, s, s);
    vstd::arithmetic::div_mod::lemma_fundamental_div_mod_converse(n * s * s, s as int, n * s, 0);
    assert(u1[d.next] == made_by(u, c1));
    assert(u2[d1.next] == made_by(u1, c2));
    assert(u2[d1.next].shape =~= shape);
    assert(u3[d2.next] == made_by(u2, c3));
    assert(u3[d2.next].shape == shape);
    assert(u4[d3.next] == made_by(u3, c4));
    assert(u5[d4.next] == made_by(u4, c5));
    assert(u6[d5.next] == made_by(u5, c6));
    lemma_grown(u, u1, u2);
    lemma_grown(u, u2, u3);
    lemma_grown(u, u3, u4);
    lemma_grown(u, u4, u5);
    lemma_grown(u, u5, u6);
    assert(drafted(s0, e)[d6.next] == made_by(u6, c7));
    assert(drafted(s0, e)[d6.next].shape =~= seq![n, s, dim]);
}

/// Recording makes no difference: for every query, attention gives the same in one pass, as it is
/// done without recording, and step by step, as it is done with it.
pub proof fn recording_makes_no_difference<T: Scalar>(
    ordinary: spec_fn(T) -> bool,
    s0: Seq<Held<T>>,
    d: Draft<T>,
    ids: (usize, usize, usize),
    n: usize,
    s: usize,
    dim: usize,
    scale: T,
    style: Style,
    b: int,
    i: int,
)
    requires
        hides(ordinary),
        forall|x: T| #[trigger] x.spec_plus(T::spec_zero()) == x,
        drafted(s0, d).len() == d.next,
        ids.0 < d.next,
        ids.1 < d.next,
        ids.2 < d.next,
        drafted(s0, d)[ids.0 as int].shape == seq![n, s, dim],
        drafted(s0, d)[ids.1 as int].shape == seq![n, s, dim],
        drafted(s0, d)[ids.2 as int].shape == seq![n, s, dim],
        drafted(s0, d)[ids.0 as int].data.len() == n * s * dim,
        0 <= b < n,
        0 <= i < s,
        ({
            let u = drafted(s0, d);
            let p = BmmDims { batch: n, m: s, k: dim, n: s, trans_b: true };
            let scales = Seq::new(product(seq![n, s, s]), |o: int| scale);
            forall|o: int|
                0 <= o < n * s * s ==> ordinary(
                    #[trigger] stepwise_scores(
                        u[ids.0 as int].data,
                        u[ids.1 as int].data,
                        scales,
                        p,
                    )[o],
                )
        }),
        d.next + 7 <= usize::MAX,
        fitting(
            s0,
            attend_calls(d, false, ids, n, s, scale, true, style, (None, None)).0,
        ),
        fitting(
            s0,
            attend_calls(d, true, ids, n, s, scale, true, style, (None, None)).0,
        ),
    ensures
        ({
            let (e, a) = attend_calls(d, true, ids, n, s, scale, true, style, (None, None));
            let (f, c) = attend_calls(d, false, ids, n, s, scale, true, style, (None, None));
            let (x, y) = (drafted(s0, e)[a.id as int], drafted(s0, f)[c.id as int]);
            &&& x.shape == y.shape
            &&& same_row(x.data, y.data, dim as int, b * s + i)
        }),
{
    let u = drafted(s0, d);
    let (q, k, v) = ids;
    let flash = Call::<T>::FlashAttention { q, k, v, scale, causal: true };
    lemma_emit(s0, d, flash);
    assert(drafted(s0, emit(d, flash))[d.next] == made_by(u, flash));
    lemma_steps(s0, d, ids, n, s, dim, scale, style);
    one_pass_gives_what_steps_give(
        ordinary,
        u[q as int].data,
        u[k as int].data,
        u[v as int].data,
        scale,
        n,
        s,
        dim,
        b,
        i,
    );
    assert(flash_dims(seq![n, s, dim], seq![n, s, dim]) == (FlashDims {
        batch: n,
        m: s,
        n: s,
        d: dim,
    }));
}

} // verus!
