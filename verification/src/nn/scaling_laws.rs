//! By what attention scales its scores.
use crate::graph::differential::ring::{divides_by, exact, has_root, times_group, times_one};
use crate::graph::Graph;
use crate::nn::attention::{
    attend_calls, attention_calls, flattened, gqa_calls, heads_cut, heads_joined, masked_scores,
    mha_calls, mha_made, projected, repeated, scaled_scores, score_scale, Attention,
    GroupedQueryAttention, MaskCache, MultiHeadAttention, ScaleCache, Style,
};
use crate::nn::linear::{linear_calls, Linear};
use crate::nn::program::{emit, Call, Draft, Tag, Val};
use crate::scalar::Scalar;
use vstd::prelude::*;

verus! {

/// What scores are multiplied with times the root of the length of a head is one, and its square
/// times that length is one.
pub proof fn scale_undoes_root_of_length<T: Scalar>(dim: usize)
    requires
        exact::<T>(),
        has_root(T::spec_from_count(dim)),
        divides_by(T::spec_from_count(dim).spec_sqrt()),
    ensures
        score_scale::<T>(dim).spec_times(T::spec_from_count(dim).spec_sqrt()) == T::spec_one(),
        scales_for(score_scale::<T>(dim), dim),
{
    let (n, s) = (T::spec_from_count(dim), score_scale::<T>(dim));
    let root = n.spec_sqrt();
    assert(T::spec_one().spec_over(root).spec_times(root) == T::spec_one());
    assert(s.spec_times(root) == T::spec_one());
    times_group(s, s, n);
    times_group(s, root, root);
    times_one(root);
    assert(s.spec_times(n) == root);
}

/// The square of a scale times the length of a row is one.
pub open spec fn scales_for<T: Scalar>(scale: T, dim: usize) -> bool {
    scale.spec_times(scale).spec_times(T::spec_from_count(dim)) == T::spec_one()
}

/// A call brings no scale into a program but one for rows of length `dim`.
pub open spec fn scaled_for<T: Scalar>(c: Call<T>, dim: usize) -> bool {
    match c {
        Call::Constant { dims, value, tag, pooled } => scales_for(value, dim),
        Call::FlashAttention { q, k, v, scale, causal } => scales_for(scale, dim),
        _ => true,
    }
}

/// So it is with all calls that a draft goes on with.
pub open spec fn goes_on_scaled<T: Scalar>(d: Draft<T>, e: Draft<T>, dim: usize) -> bool {
    &&& d.calls.len() <= e.calls.len()
    &&& forall|i: int|
        d.calls.len() <= i < e.calls.len() ==> scaled_for(#[trigger] e.calls[i], dim)
    &&& forall|i: int| 0 <= i < d.calls.len() ==> #[trigger] e.calls[i] == d.calls[i]
}

proof fn lemma_on<T: Scalar>(d: Draft<T>, c: Call<T>, dim: usize)
    requires
        scaled_for(c, dim),
    ensures
        goes_on_scaled(d, emit(d, c), dim),
{
}

proof fn lemma_through<T: Scalar>(a: Draft<T>, b: Draft<T>, c: Draft<T>, dim: usize)
    requires
        goes_on_scaled(a, b, dim),
        goes_on_scaled(b, c, dim),
    ensures
        goes_on_scaled(a, c, dim),
{
    assert forall|i: int| a.calls.len() <= i < c.calls.len() implies scaled_for(
        #[trigger] c.calls[i],
        dim,
    ) by {
        if i < b.calls.len() {
            assert(scaled_for(b.calls[i], dim));
        }
    }
}

proof fn lemma_linear<T: Scalar>(l: Linear, out: usize, mixed: bool, d: Draft<T>, x: Val, dim: usize)
    ensures
        goes_on_scaled(d, linear_calls(l, out, mixed, d, x).0, dim),
{
}

proof fn lemma_projected<T: Scalar>(
    layers: (Linear, Linear, Linear),
    g: Graph<T>,
    d: Draft<T>,
    x: Val,
    dim: usize,
)
    ensures
        goes_on_scaled(d, projected(layers, g, d, x).0, dim),
{
    let (q, k, v) = layers;
    let d1 = linear_calls(q, q.columns(g), g.mixed(), d, x).0;
    let d2 = linear_calls(k, k.columns(g), g.mixed(), d1, x).0;
    let d3 = linear_calls(v, v.columns(g), g.mixed(), d2, x).0;
    lemma_linear(q, q.columns(g), g.mixed(), d, x, dim);
    lemma_linear(k, k.columns(g), g.mixed(), d1, x, dim);
    lemma_linear(v, v.columns(g), g.mixed(), d2, x, dim);
    lemma_through(d1, d2, d3, dim);
    lemma_through(d, d1, d3, dim);
}

proof fn lemma_attend<T: Scalar>(
    d: Draft<T>,
    no_grad: bool,
    ids: (usize, usize, usize),
    n: usize,
    seq: usize,
    scale: T,
    causal: bool,
    style: Style,
    caches: (ScaleCache, MaskCache),
    dim: usize,
)
    requires
        scales_for(scale, dim),
    ensures
        goes_on_scaled(
            d,
            attend_calls(d, no_grad, ids, n, seq, scale, causal, style, caches).0,
            dim,
        ),
{
    let (q, k, v) = ids;
    if !no_grad {
        let (d1, scores, sc) = scaled_scores(d, q, k, n, seq, scale, style, caches.0);
        assert(goes_on_scaled(d, d1, dim));
        let (d2, masked, mc) = masked_scores(d1, scores, seq, causal, style.half, caches.1);
        assert(goes_on_scaled(d1, d2, dim));
        let d3 = emit(d2, Call::<T>::Softmax { a: masked });
        let d4 = emit(d3, Call::<T>::Bmm { a: d2.next as usize, b: v, trans_b: false });
        assert(goes_on_scaled(d2, d4, dim));
        lemma_through(d1, d2, d4, dim);
        lemma_through(d, d1, d4, dim);
    }
}

proof fn lemma_core<T: Scalar>(
    g: Graph<T>,
    d: Draft<T>,
    ids: (usize, usize, usize),
    batch: usize,
    seq: usize,
    heads: usize,
    dim: usize,
    hidden: usize,
    scale: T,
    causal: bool,
    style: Style,
    caches: (ScaleCache, MaskCache),
    out: Linear,
    len: usize,
)
    requires
        scales_for(scale, len),
    ensures
        ({
            let n = (batch * heads) as usize;
            let d1 = flattened(d, ids, n, seq, dim);
            let (d2, done) = attend_calls(d1, g.no_grad, ids, n, seq, scale, causal, style, caches);
            let (d3, context) = heads_joined(d2, done.id, batch, seq, heads, dim, hidden);
            goes_on_scaled(d, linear_calls(out, out.columns(g), g.mixed(), d3, context).0, len)
        }),
{
    let n = (batch * heads) as usize;
    let d1 = flattened(d, ids, n, seq, dim);
    let (d2, done) = attend_calls(d1, g.no_grad, ids, n, seq, scale, causal, style, caches);
    let (d3, context) = heads_joined(d2, done.id, batch, seq, heads, dim, hidden);
    let e = linear_calls(out, out.columns(g), g.mixed(), d3, context).0;
    assert(goes_on_scaled(d, d1, len));
    lemma_attend(d1, g.no_grad, ids, n, seq, scale, causal, style, caches, len);
    assert(goes_on_scaled(d2, d3, len));
    lemma_linear(out, out.columns(g), g.mixed(), d3, context, len);
    lemma_through(d2, d3, e, len);
    lemma_through(d1, d2, e, len);
    lemma_through(d, d1, e, len);
}

proof fn lemma_front<T: Scalar>(
    layers: (Linear, Linear, Linear),
    g: Graph<T>,
    d: Draft<T>,
    x: Val,
    batch: usize,
    seq: usize,
    heads: usize,
    kv: usize,
    dim: usize,
    len: usize,
)
    ensures
        ({
            let (d1, q, k, v) = projected(layers, g, d, x);
            let d2 = emit(d1, Call::<T>::Rope { a: q.id, head_dim: dim });
            let d3 = emit(d2, Call::<T>::Rope { a: k.id, head_dim: dim });
            let turned = (d1.next as usize, d2.next as usize, v.id);
            goes_on_scaled(d, heads_cut(d3, turned, batch, seq, heads, kv, dim).0, len)
        }),
{
    let (d1, q, k, v) = projected(layers, g, d, x);
    let d2 = emit(d1, Call::<T>::Rope { a: q.id, head_dim: dim });
    let d3 = emit(d2, Call::<T>::Rope { a: k.id, head_dim: dim });
    let turned = (d1.next as usize, d2.next as usize, v.id);
    let e = heads_cut(d3, turned, batch, seq, heads, kv, dim).0;
    lemma_projected(layers, g, d, x, len);
    assert(goes_on_scaled(d1, d3, len));
    assert(goes_on_scaled(d3, e, len));
    lemma_through(d1, d3, e, len);
    lemma_through(d, d1, e, len);
}

proof fn lemma_repeated<T: Scalar>(d: Draft<T>, x: usize, repeats: usize, dim: usize)
    ensures
        goes_on_scaled(d, repeated(d, x, repeats).0, dim),
{
    if repeats != 1 {
        lemma_on(d, Call::<T>::RepeatKv { x, repeats }, dim);
    }
}

/// An attention with many heads scales its scores by one over the root of the length of a head:
/// every scale that it brings into a program, squared, times that length is one.
pub proof fn many_heads_scale_by_head<T: Scalar>(
    m: MultiHeadAttention,
    g: Graph<T>,
    d: Draft<T>,
    x: Val,
    causal: bool,
)
    requires
        exact::<T>(),
        has_root(T::spec_from_count(m.head_dim)),
        divides_by(T::spec_from_count(m.head_dim).spec_sqrt()),
    ensures
        goes_on_scaled(d, mha_calls(m, g, d, x, causal).0, m.head_dim),
{
    let (batch, seq) = (x.dims->Three_0, x.dims->Three_1);
    let (heads, dim) = (m.num_heads, m.head_dim);
    let layers = (m.q_proj, m.k_proj, m.v_proj);
    let (d1, q, k, v) = projected(layers, g, d, x);
    let d2 = emit(d1, Call::<T>::Rope { a: q.id, head_dim: dim });
    let d3 = emit(d2, Call::<T>::Rope { a: k.id, head_dim: dim });
    let turned = (d1.next as usize, d2.next as usize, v.id);
    let (d4, ids) = heads_cut(d3, turned, batch, seq, heads, heads, dim);
    scale_undoes_root_of_length::<T>(dim);
    lemma_front(layers, g, d, x, batch, seq, heads, heads, dim, dim);
    lemma_core(
        g,
        d4,
        ids,
        batch,
        seq,
        heads,
        dim,
        m.hidden_dim,
        score_scale::<T>(dim),
        causal,
        Style { tag: Tag::AttnScale, pooled: false, half: g.mixed() },
        (m.cached_scale, m.cached_mask),
        m.out_proj,
        dim,
    );
    lemma_through(d, d4, mha_calls(m, g, d, x, causal).0, dim);
}

/// So does an attention with fewer heads for keys and values.
pub proof fn grouped_heads_scale_by_head<T: Scalar>(
    m: GroupedQueryAttention,
    g: Graph<T>,
    d: Draft<T>,
    x: Val,
    causal: bool,
)
    requires
        exact::<T>(),
        has_root(T::spec_from_count(m.head_dim)),
        divides_by(T::spec_from_count(m.head_dim).spec_sqrt()),
    ensures
        goes_on_scaled(d, gqa_calls(m, g, d, x, causal).0, m.head_dim),
{
    let (batch, seq) = (x.dims->Three_0, x.dims->Three_1);
    let (heads, kv, dim) = (m.num_heads, m.num_kv_heads, m.head_dim);
    let repeats = heads / kv;
    let layers = (m.q_proj, m.k_proj, m.v_proj);
    let (d1, q, k, v) = projected(layers, g, d, x);
    let d2 = emit(d1, Call::<T>::Rope { a: q.id, head_dim: dim });
    let d3 = emit(d2, Call::<T>::Rope { a: k.id, head_dim: dim });
    let turned = (d1.next as usize, d2.next as usize, v.id);
    let (d4, cut) = heads_cut(d3, turned, batch, seq, heads, kv, dim);
    let (d5, k_id) = repeated(d4, cut.1, repeats);
    let (d6, v_id) = repeated(d5, cut.2, repeats);
    let e = gqa_calls(m, g, d, x, causal).0;
    scale_undoes_root_of_length::<T>(dim);
    lemma_front(layers, g, d, x, batch, seq, heads, kv, dim, dim);
    lemma_repeated(d4, cut.1, repeats, dim);
    lemma_repeated(d5, cut.2, repeats, dim);
    lemma_core(
        g,
        d6,
        (cut.0, k_id, v_id),
        batch,
        seq,
        heads,
        dim,
        m.hidden_dim,
        score_scale::<T>(dim),
        causal,
        Style { tag: Tag::GqaAttnScale, pooled: true, half: g.mixed() },
        (m.cached_scale, m.cached_mask),
        m.out_proj,
        dim,
    );
    lemma_through(d5, d6, e, dim);
    lemma_through(d4, d5, e, dim);
    lemma_through(d, d4, e, dim);
}

/// An attention with one head scales its scores by one over the root of the length of a row.
pub proof fn one_head_scales_by_row<T: Scalar>(
    m: Attention,
    g: Graph<T>,
    d: Draft<T>,
    x: Val,
    causal: bool,
)
    requires
        exact::<T>(),
        has_root(T::spec_from_count(m.hidden_dim)),
        divides_by(T::spec_from_count(m.hidden_dim).spec_sqrt()),
    ensures
        goes_on_scaled(d, attention_calls(m, g, d, x, causal).0, m.hidden_dim),
{
    let (batch, seq) = (x.dims->Three_0, x.dims->Three_1);
    let layers = (m.q_proj, m.k_proj, m.v_proj);
    let (d1, q, k, v) = projected(layers, g, d, x);
    let ids = (q.id, k.id, v.id);
    let scale = score_scale::<T>(m.hidden_dim);
    let style = Style { tag: Tag::Plain, pooled: false, half: false };
    let caches = (m.cached_scale, m.cached_mask);
    let (d2, done) = attend_calls(d1, g.no_grad, ids, batch, seq, scale, causal, style, caches);
    let context = Val { id: done.id, dims: v.dims };
    let (e, y) = linear_calls(m.out_proj, m.out_proj.columns(g), g.mixed(), d2, context);
    scale_undoes_root_of_length::<T>(m.hidden_dim);
    lemma_projected(layers, g, d, x, m.hidden_dim);
    lemma_attend(d1, g.no_grad, ids, batch, seq, scale, causal, style, caches, m.hidden_dim);
    lemma_linear(m.out_proj, m.out_proj.columns(g), g.mixed(), d2, context, m.hidden_dim);
    lemma_through(d1, d2, e, m.hidden_dim);
    lemma_through(d, d1, e, m.hidden_dim);
}

/// The heads of an attention with many heads divide its rows among them.
pub proof fn heads_divide_rows<T: Scalar>(d: Draft<T>, hidden: usize, heads: usize, mixed: bool)
    requires
        heads > 0,
        hidden % heads == 0,
    ensures
        ({
            let m = mha_made(d, hidden, heads, mixed).1;
            m.num_heads == heads && m.head_dim * heads == hidden && m.hidden_dim == hidden
        }),
{
    vstd::arithmetic::div_mod::lemma_fundamental_div_mod(hidden as int, heads as int);
    assert(heads * (hidden / heads) == (hidden / heads) * heads) by (nonlinear_arith);
}

} // verus!
