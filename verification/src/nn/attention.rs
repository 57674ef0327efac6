//! Attention, with one head, with many, and with fewer heads for keys and values.
use crate::graph::Graph;
use crate::nn::linear::{linear_calls, linear_made, Linear};
use crate::nn::program::{emit, Call, Dims, Draft, Program, Tag, Val};
use crate::nn::{append_ids, Module};
use crate::scalar::Scalar;
use vstd::prelude::*;

verus! {

/// A tensor of scales, by the number of matrices and their side.
pub type ScaleCache = Option<((usize, usize), usize)>;

/// A mask, by its side.
pub type MaskCache = Option<(usize, usize)>;

/// The result of an attention, and the tensors that the next one can use again.
#[derive(Clone, Copy, Debug)]
pub struct Attended {
    pub id: usize,
    pub scale: ScaleCache,
    pub mask: MaskCache,
}

/// How the scales and masks of an attention are made.
#[derive(Clone, Copy, Debug, PartialEq, Eq, Structural)]
pub struct Style {
    pub tag: Tag,
    /// Whether scales are an activation.
    pub pooled: bool,
    /// Whether masks have 16 bits an element.
    pub half: bool,
}

/// What scores are multiplied with: one over the root of the length of a row.
pub open spec fn score_scale<T: Scalar>(dim: usize) -> T {
    T::spec_one().spec_over(T::spec_from_count(dim).spec_sqrt())
}

fn score_scale_of<T: Scalar>(dim: usize) -> (r: T)
    ensures
        r == score_scale::<T>(dim),
{
    T::one().over(T::from_count(dim).sqrt())
}

/// The scales of an earlier attention of these sizes.
pub open spec fn scale_hit(c: ScaleCache, n: usize, seq: usize) -> Option<usize> {
    match c {
        Some(((b, s), id)) => if b == n && s == seq {
            Some(id)
        } else {
            None
        },
        None => None,
    }
}

/// The mask of an earlier attention of this size.
pub open spec fn mask_hit(c: MaskCache, seq: usize) -> Option<usize> {
    match c {
        Some((s, id)) => if s == seq {
            Some(id)
        } else {
            None
        },
        None => None,
    }
}

/// The scores of queries for keys, scaled.
pub open spec fn scaled_scores<T: Scalar>(
    d: Draft<T>,
    q: usize,
    k: usize,
    n: usize,
    seq: usize,
    scale: T,
    style: Style,
    c: ScaleCache,
) -> (Draft<T>, usize, ScaleCache) {
    let scores = emit(d, Call::Bmm { a: q, b: k, trans_b: true });
    let (ready, scale_id, cache) = match scale_hit(c, n, seq) {
        Some(id) => (scores, id, c),
        None => (
            emit(
                scores,
                Call::Constant {
                    dims: Dims::Three(n, seq, seq),
                    value: scale,
                    tag: style.tag,
                    pooled: style.pooled,
                },
            ),
            scores.next as usize,
            Some(((n, seq), scores.next as usize)),
        ),
    };
    (
        emit(ready, Call::Mul { a: d.next as usize, b: scale_id }),
        ready.next as usize,
        cache,
    )
}

/// The scores with those of positions behind hidden, where asked for.
pub open spec fn masked_scores<T: Scalar>(
    d: Draft<T>,
    scores: usize,
    seq: usize,
    causal: bool,
    half: bool,
    c: MaskCache,
) -> (Draft<T>, usize, MaskCache) {
    if causal {
        let (ready, mask_id, cache) = match mask_hit(c, seq) {
            Some(id) => (d, id, c),
            None => (
                emit(d, Call::Mask { seq, half }),
                d.next as usize,
                Some((seq, d.next as usize)),
            ),
        };
        (emit(ready, Call::Add { a: scores, b: mask_id }), ready.next as usize, cache)
    } else {
        (d, scores, c)
    }
}

/// The calls from queries, keys and values, `n` matrices of `seq` rows each, to the values weighed
/// by the scores: in one pass where nothing is recorded, else step by step.
pub open spec fn attend_calls<T: Scalar>(
    d: Draft<T>,
    no_grad: bool,
    ids: (usize, usize, usize),
    n: usize,
    seq: usize,
    scale: T,
    causal: bool,
    style: Style,
    caches: (ScaleCache, MaskCache),
) -> (Draft<T>, Attended) {
    let (q, k, v) = ids;
    if no_grad {
        (
            emit(d, Call::FlashAttention { q, k, v, scale, causal }),
            Attended { id: d.next as usize, scale: caches.0, mask: caches.1 },
        )
    } else {
        let (d1, scores, sc) = scaled_scores(d, q, k, n, seq, scale, style, caches.0);
        let (d2, masked, mc) = masked_scores(d1, scores, seq, causal, style.half, caches.1);
        let d3 = emit(d2, Call::Softmax { a: masked });
        let d4 = emit(d3, Call::Bmm { a: d2.next as usize, b: v, trans_b: false });
        (d4, Attended { id: d3.next as usize, scale: sc, mask: mc })
    }
}

fn write_scores<T: Scalar>(
    p: &mut Program<T>,
    q: usize,
    k: usize,
    n: usize,
    seq: usize,
    scale: T,
    style: Style,
    c: ScaleCache,
) -> (r: (usize, ScaleCache))
    requires
        old(p).room(3),
    ensures
        (final(p)@, r.0, r.1) == scaled_scores(old(p)@, q, k, n, seq, scale, style, c),
        final(p).next <= old(p).next + 3,
{
    let scores: usize = p.emit(Call::Bmm { a: q, b: k, trans_b: true });
    let hit = match c {
        Some(((b, s), id)) => if b == n && s == seq {
            Some(id)
        } else {
            None
        },
        None => None,
    };
    let (scale_id, cache): (usize, ScaleCache) = match hit {
        Some(id) => (id, c),
        None => {
            let id: usize = p.emit(
                Call::Constant {
                    dims: Dims::Three(n, seq, seq),
                    value: scale,
                    tag: style.tag,
                    pooled: style.pooled,
                },
            );
            (id, Some(((n, seq), id)))
        },
    };
    (p.emit(Call::Mul { a: scores, b: scale_id }), cache)
}

fn write_mask<T: Scalar>(
    p: &mut Program<T>,
    scores: usize,
    seq: usize,
    causal: bool,
    half: bool,
    c: MaskCache,
) -> (r: (usize, MaskCache))
    requires
        old(p).room(2),
    ensures
        (final(p)@, r.0, r.1) == masked_scores(old(p)@, scores, seq, causal, half, c),
        final(p).next <= old(p).next + 2,
{
    if !causal {
        return (scores, c);
    }
    let hit = match c {
        Some((s, id)) => if s == seq {
            Some(id)
        } else {
            None
        },
        None => None,
    };
    let (mask_id, cache): (usize, MaskCache) = match hit {
        Some(id) => (id, c),
        None => {
            let id: usize = p.emit(Call::Mask { seq, half });
            (id, Some((seq, id)))
        },
    };
    (p.emit(Call::Add { a: scores, b: mask_id }), cache)
}

fn attend<T: Scalar>(
    p: &mut Program<T>,
    no_grad: bool,
    ids: (usize, usize, usize),
    n: usize,
    seq: usize,
    scale: T,
    causal: bool,
    style: Style,
    caches: (ScaleCache, MaskCache),
) -> (r: Attended)
    requires
        old(p).room(7),
    ensures
        (final(p)@, r) == attend_calls(
            old(p)@,
            no_grad,
            ids,
            n,
            seq,
            scale,
            causal,
            style,
            caches,
        ),
        final(p).next <= old(p).next + 7,
{
    let (q, k, v) = ids;
    if no_grad {
        let id: usize = p.emit(Call::FlashAttention { q, k, v, scale, causal });
        return Attended { id, scale: caches.0, mask: caches.1 };
    }
    let (scores, sc): (usize, ScaleCache) = write_scores(p, q, k, n, seq, scale, style, caches.0);
    let (masked, mc): (usize, MaskCache) = write_mask(p, scores, seq, causal, style.half, caches.1);
    let probs: usize = p.emit(Call::Softmax { a: masked });
    let id: usize = p.emit(Call::Bmm { a: probs, b: v, trans_b: false });
    Attended { id, scale: sc, mask: mc }
}

/// Attention with one head.
#[derive(Clone, Copy, Debug)]
pub struct Attention {
    pub q_proj: Linear,
    pub k_proj: Linear,
    pub v_proj: Linear,
    pub out_proj: Linear,
    pub hidden_dim: usize,
    pub cached_scale: ScaleCache,
    pub cached_mask: MaskCache,
}

/// Four layers from `hidden` numbers: to as many, twice to `kv`, and to as many.
pub open spec fn projections_made<T: Scalar>(
    d: Draft<T>,
    hidden: usize,
    kv: usize,
    mixed: bool,
) -> (
    Draft<T>,
    (Linear, Linear, Linear, Linear),
) {
    let (d1, q) = linear_made(d, hidden, hidden, false, mixed);
    let (d2, k) = linear_made(d1, hidden, kv, false, mixed);
    let (d3, v) = linear_made(d2, hidden, kv, false, mixed);
    let (d4, o) = linear_made(d3, hidden, hidden, false, mixed);
    (d4, (q, k, v, o))
}

fn make_projections<T: Scalar>(p: &mut Program<T>, hidden: usize, kv: usize, mixed: bool) -> (r: (
    Linear,
    Linear,
    Linear,
    Linear,
))
    requires
        old(p).room(5),
    ensures
        (final(p)@, r) == projections_made(old(p)@, hidden, kv, mixed),
        final(p).next == old(p).next + 4,
{
    let q = Linear::new(p, hidden, hidden, false, mixed);
    let k = Linear::new(p, hidden, kv, false, mixed);
    let v = Linear::new(p, hidden, kv, false, mixed);
    let o = Linear::new(p, hidden, hidden, false, mixed);
    (q, k, v, o)
}

/// The calls for queries, keys and values of an input.
pub open spec fn projected<T: Scalar>(
    layers: (Linear, Linear, Linear),
    g: Graph<T>,
    d: Draft<T>,
    x: Val,
) -> (Draft<T>, Val, Val, Val) {
    let (q, k, v) = layers;
    let (d1, qv) = linear_calls(q, q.columns(g), g.mixed(), d, x);
    let (d2, kv) = linear_calls(k, k.columns(g), g.mixed(), d1, x);
    let (d3, vv) = linear_calls(v, v.columns(g), g.mixed(), d2, x);
    (d3, qv, kv, vv)
}

fn project<T: Scalar>(
    layers: (Linear, Linear, Linear),
    g: &Graph<T>,
    p: &mut Program<T>,
    x: Val,
) -> (r: (Val, Val, Val))
    requires
        layers.0.ready(*g),
        layers.1.ready(*g),
        layers.2.ready(*g),
        x.dims is Three,
        old(p).room(6),
    ensures
        (final(p)@, r.0, r.1, r.2) == projected(layers, *g, old(p)@, x),
        final(p).next <= old(p).next + 6,
{
    let q = layers.0.apply(g, p, x);
    let k = layers.1.apply(g, p, x);
    let v = layers.2.apply(g, p, x);
    (q, k, v)
}

/// The parameters of four layers.
pub open spec fn four_params<T: Scalar>(q: Linear, k: Linear, v: Linear, o: Linear) -> Seq<usize> {
    Module::<T>::param_ids(&q) + Module::<T>::param_ids(&k) + Module::<T>::param_ids(&v)
        + Module::<T>::param_ids(&o)
}

fn params_of_four<T: Scalar>(q: &Linear, k: &Linear, v: &Linear, o: &Linear) -> (r: Vec<usize>)
    ensures
        r@ == four_params::<T>(*q, *k, *v, *o),
{
    let mut r: Vec<usize> = Module::<T>::params(q);
    append_ids(&mut r, &Module::<T>::params(k));
    append_ids(&mut r, &Module::<T>::params(v));
    append_ids(&mut r, &Module::<T>::params(o));
    r
}

impl Attention {
    /// All layers are there.
    pub open spec fn ready<T: Scalar>(self, g: Graph<T>) -> bool {
        self.q_proj.ready(g) && self.k_proj.ready(g) && self.v_proj.ready(g)
            && self.out_proj.ready(g)
    }

    /// Writes down an attention over rows of `hidden_dim` numbers.
    pub fn new<T: Scalar>(p: &mut Program<T>, hidden_dim: usize, mixed: bool) -> (r: Self)
        requires
            old(p).room(5),
        ensures
            ({
                let (d, l) = projections_made(old(p)@, hidden_dim, hidden_dim, mixed);
                &&& final(p)@ == d
                &&& r == (Attention {
                    q_proj: l.0,
                    k_proj: l.1,
                    v_proj: l.2,
                    out_proj: l.3,
                    hidden_dim,
                    cached_scale: None,
                    cached_mask: None,
                })
            }),
    {
        let (q_proj, k_proj, v_proj, out_proj) = make_projections(p, hidden_dim, hidden_dim, mixed);
        Attention {
            q_proj,
            k_proj,
            v_proj,
            out_proj,
            hidden_dim,
            cached_scale: None,
            cached_mask: None,
        }
    }

    /// Writes down the calls for an input of `[batch, seq, hidden]`.
    pub fn forward_with_mask<T: Scalar>(
        &mut self,
        g: &Graph<T>,
        p: &mut Program<T>,
        x: Val,
        causal: bool,
    ) -> (y: Val)
        requires
            old(self).ready(*g),
            x.dims is Three,
            old(p).room(15),
        ensures
            (final(p)@, y, *final(self)) == attention_calls(*old(self), *g, old(p)@, x, causal),
    {
        let (batch, seq): (usize, usize) = match x.dims {
            Dims::Three(b, s, _) => (b, s),
            _ => (0, 0),
        };
        let (q, k, v) = project((self.q_proj, self.k_proj, self.v_proj), g, p, x);
        let done = attend(
            p,
            g.no_grad,
            (q.id, k.id, v.id),
            batch,
            seq,
            score_scale_of::<T>(self.hidden_dim),
            causal,
            Style { tag: Tag::Plain, pooled: false, half: false },
            (self.cached_scale, self.cached_mask),
        );
        self.cached_scale = done.scale;
        self.cached_mask = done.mask;
        self.out_proj.apply(g, p, Val { id: done.id, dims: v.dims })
    }
}

/// The calls of an attention with one head.
pub open spec fn attention_calls<T: Scalar>(
    m: Attention,
    g: Graph<T>,
    d: Draft<T>,
    x: Val,
    causal: bool,
) -> (Draft<T>, Val, Attention) {
    let (batch, seq) = (x.dims->Three_0, x.dims->Three_1);
    let (d1, q, k, v) = projected((m.q_proj, m.k_proj, m.v_proj), g, d, x);
    let (d2, done) = attend_calls(
        d1,
        g.no_grad,
        (q.id, k.id, v.id),
        batch,
        seq,
        score_scale::<T>(m.hidden_dim),
        causal,
        Style { tag: Tag::Plain, pooled: false, half: false },
        (m.cached_scale, m.cached_mask),
    );
    let (d3, y) = linear_calls(
        m.out_proj,
        m.out_proj.columns(g),
        g.mixed(),
        d2,
        Val { id: done.id, dims: v.dims },
    );
    (d3, y, Attention { cached_scale: done.scale, cached_mask: done.mask, ..m })
}

impl<T: Scalar> Module<T> for Attention {
    open spec fn accepts(&self, g: Graph<T>, p: Program<T>, x: Val) -> bool {
        self.ready(g) && x.dims is Three && p.room(15)
    }

    open spec fn passes(
        &self,
        after: Self,
        g: Graph<T>,
        was: Program<T>,
        x: Val,
        now: Program<T>,
        y: Val,
    ) -> bool {
        (now@, y, after) == attention_calls(*self, g, was@, x, true)
    }

    open spec fn param_ids(&self) -> Seq<usize> {
        four_params::<T>(self.q_proj, self.k_proj, self.v_proj, self.out_proj)
    }

    fn forward(&mut self, g: &Graph<T>, p: &mut Program<T>, x: Val) -> (y: Val) {
        self.forward_with_mask(g, p, x, true)
    }

    fn params(&self) -> (r: Vec<usize>) {
        params_of_four::<T>(&self.q_proj, &self.k_proj, &self.v_proj, &self.out_proj)
    }
}

/// Attention with many heads.
#[derive(Clone, Copy, Debug)]
pub struct MultiHeadAttention {
    pub num_heads: usize,
    pub head_dim: usize,
    pub hidden_dim: usize,
    pub q_proj: Linear,
    pub k_proj: Linear,
    pub v_proj: Linear,
    pub out_proj: Linear,
    pub cached_scale: ScaleCache,
    pub cached_mask: MaskCache,
}

/// Rows cut into heads: `[batch, seq, heads * dim]` to `[batch, heads, seq, dim]`, for three
/// tensors, of which the last two have `kv` heads.
pub open spec fn heads_cut<T: Scalar>(
    d: Draft<T>,
    ids: (usize, usize, usize),
    batch: usize,
    seq: usize,
    heads: usize,
    kv: usize,
    dim: usize,
) -> (Draft<T>, (usize, usize, usize)) {
    let d1 = emit(d, Call::Reshape { a: ids.0, dims: Dims::Four(batch, seq, heads, dim) });
    let d2 = emit(d1, Call::Reshape { a: ids.1, dims: Dims::Four(batch, seq, kv, dim) });
    let d3 = emit(d2, Call::Reshape { a: ids.2, dims: Dims::Four(batch, seq, kv, dim) });
    let d4 = emit(d3, Call::Transpose0213 { a: d.next as usize });
    let d5 = emit(d4, Call::Transpose0213 { a: d1.next as usize });
    let d6 = emit(d5, Call::Transpose0213 { a: d2.next as usize });
    (d6, (d3.next as usize, d4.next as usize, d5.next as usize))
}

fn cut_heads<T: Scalar>(
    p: &mut Program<T>,
    ids: (usize, usize, usize),
    batch: usize,
    seq: usize,
    heads: usize,
    kv: usize,
    dim: usize,
) -> (r: (usize, usize, usize))
    requires
        old(p).room(6),
    ensures
        (final(p)@, r) == heads_cut(old(p)@, ids, batch, seq, heads, kv, dim),
        final(p).next == old(p).next + 6,
{
    let q4: usize = p.emit(Call::Reshape { a: ids.0, dims: Dims::Four(batch, seq, heads, dim) });
    let k4: usize = p.emit(Call::Reshape { a: ids.1, dims: Dims::Four(batch, seq, kv, dim) });
    let v4: usize = p.emit(Call::Reshape { a: ids.2, dims: Dims::Four(batch, seq, kv, dim) });
    let qt: usize = p.emit(Call::Transpose0213 { a: q4 });
    let kt: usize = p.emit(Call::Transpose0213 { a: k4 });
    let vt: usize = p.emit(Call::Transpose0213 { a: v4 });
    (qt, kt, vt)
}

/// Three tensors seen as `n` matrices of `seq` rows.
pub open spec fn flattened<T: Scalar>(
    d: Draft<T>,
    ids: (usize, usize, usize),
    n: usize,
    seq: usize,
    dim: usize,
) -> Draft<T> {
    let dims = Dims::Three(n, seq, dim);
    let d1 = emit(d, Call::Reinterpret { id: ids.0, dims });
    let d2 = emit(d1, Call::Reinterpret { id: ids.1, dims });
    emit(d2, Call::Reinterpret { id: ids.2, dims })
}

fn flatten<T: Scalar>(
    p: &mut Program<T>,
    ids: (usize, usize, usize),
    n: usize,
    seq: usize,
    dim: usize,
)
    ensures
        final(p)@ == flattened(old(p)@, ids, n, seq, dim),
{
    let dims = Dims::Three(n, seq, dim);
    p.change(Call::Reinterpret { id: ids.0, dims });
    p.change(Call::Reinterpret { id: ids.1, dims });
    p.change(Call::Reinterpret { id: ids.2, dims });
}

/// Heads joined to rows again: from `[batch * heads, seq, dim]` to `[batch, seq, hidden]`.
pub open spec fn heads_joined<T: Scalar>(
    d: Draft<T>,
    id: usize,
    batch: usize,
    seq: usize,
    heads: usize,
    dim: usize,
    hidden: usize,
) -> (Draft<T>, Val) {
    let d1 = emit(d, Call::Reinterpret { id, dims: Dims::Four(batch, heads, seq, dim) });
    let d2 = emit(d1, Call::Transpose0213 { a: id });
    let dims = Dims::Three(batch, seq, hidden);
    let d3 = emit(d2, Call::Reshape { a: d1.next as usize, dims });
    (d3, Val { id: d2.next as usize, dims })
}

fn join_heads<T: Scalar>(
    p: &mut Program<T>,
    id: usize,
    batch: usize,
    seq: usize,
    heads: usize,
    dim: usize,
    hidden: usize,
) -> (r: Val)
    requires
        old(p).room(2),
    ensures
        (final(p)@, r) == heads_joined(old(p)@, id, batch, seq, heads, dim, hidden),
        final(p).next == old(p).next + 2,
{
    p.change(Call::Reinterpret { id, dims: Dims::Four(batch, heads, seq, dim) });
    let t: usize = p.emit(Call::Transpose0213 { a: id });
    let dims = Dims::Three(batch, seq, hidden);
    let r: usize = p.emit(Call::Reshape { a: t, dims });
    Val { id: r, dims }
}

/// The calls of an attention with many heads.
pub open spec fn mha_calls<T: Scalar>(
    m: MultiHeadAttention,
    g: Graph<T>,
    d: Draft<T>,
    x: Val,
    causal: bool,
) -> (Draft<T>, Val, MultiHeadAttention) {
    let (batch, seq) = (x.dims->Three_0, x.dims->Three_1);
    let n = (batch * m.num_heads) as usize;
    let (d1, q, k, v) = projected((m.q_proj, m.k_proj, m.v_proj), g, d, x);
    let d2 = emit(d1, Call::Rope { a: q.id, head_dim: m.head_dim });
    let d3 = emit(d2, Call::Rope { a: k.id, head_dim: m.head_dim });
    let turned = (d1.next as usize, d2.next as usize, v.id);
    let (d4, ids) = heads_cut(d3, turned, batch, seq, m.num_heads, m.num_heads, m.head_dim);
    let d5 = flattened(d4, ids, n, seq, m.head_dim);
    let (d6, done) = attend_calls(
        d5,
        g.no_grad,
        ids,
        n,
        seq,
        score_scale::<T>(m.head_dim),
        causal,
        Style { tag: Tag::AttnScale, pooled: false, half: g.mixed() },
        (m.cached_scale, m.cached_mask),
    );
    let (d7, context) = heads_joined(
        d6,
        done.id,
        batch,
        seq,
        m.num_heads,
        m.head_dim,
        m.hidden_dim,
    );
    let (d8, y) = linear_calls(m.out_proj, m.out_proj.columns(g), g.mixed(), d7, context);
    (d8, y, MultiHeadAttention { cached_scale: done.scale, cached_mask: done.mask, ..m })
}

/// The calls that make an attention with many heads.
pub open spec fn mha_made<T: Scalar>(
    d: Draft<T>,
    hidden_dim: usize,
    num_heads: usize,
    mixed: bool,
) -> (
    Draft<T>,
    MultiHeadAttention,
) {
    let (e, l) = projections_made(d, hidden_dim, hidden_dim, mixed);
    (
        e,
        MultiHeadAttention {
            num_heads,
            head_dim: hidden_dim / num_heads,
            hidden_dim,
            q_proj: l.0,
            k_proj: l.1,
            v_proj: l.2,
            out_proj: l.3,
            cached_scale: None,
            cached_mask: None,
        },
    )
}

impl MultiHeadAttention {
    /// All layers are there.
    pub open spec fn ready<T: Scalar>(self, g: Graph<T>) -> bool {
        self.q_proj.ready(g) && self.k_proj.ready(g) && self.v_proj.ready(g)
            && self.out_proj.ready(g)
    }

    /// The matrices of all heads can be counted.
    pub open spec fn takes(self, x: Val) -> bool {
        x.dims matches Dims::Three(b, _, _) && b * self.num_heads <= usize::MAX
    }

    /// Writes down an attention over rows of `hidden_dim` numbers in `num_heads` equal parts.
    pub fn new<T: Scalar>(
        p: &mut Program<T>,
        hidden_dim: usize,
        num_heads: usize,
        mixed: bool,
    ) -> (r: Self)
        requires
            num_heads > 0,
            hidden_dim % num_heads == 0,
            old(p).room(5),
        ensures
            (final(p)@, r) == mha_made(old(p)@, hidden_dim, num_heads, mixed),
            final(p).next == old(p).next + 4,
    {
        let (q_proj, k_proj, v_proj, out_proj) = make_projections(p, hidden_dim, hidden_dim, mixed);
        MultiHeadAttention {
            num_heads,
            head_dim: hidden_dim / num_heads,
            hidden_dim,
            q_proj,
            k_proj,
            v_proj,
            out_proj,
            cached_scale: None,
            cached_mask: None,
        }
    }

    /// Writes down the calls for an input of `[batch, seq, hidden]`.
    pub fn forward_with_mask<T: Scalar>(
        &mut self,
        g: &Graph<T>,
        p: &mut Program<T>,
        x: Val,
        causal: bool,
    ) -> (y: Val)
        requires
            old(self).ready(*g),
            old(self).takes(x),
            old(p).room(25),
        ensures
            (final(p)@, y, *final(self)) == mha_calls(*old(self), *g, old(p)@, x, causal),
            final(p).next <= old(p).next + 25,
    {
        let (batch, seq): (usize, usize) = match x.dims {
            Dims::Three(b, s, _) => (b, s),
            _ => (0, 0),
        };
        let n: usize = batch * self.num_heads;
        let (q, k, v) = project((self.q_proj, self.k_proj, self.v_proj), g, p, x);
        let q_rope: usize = p.emit(Call::Rope { a: q.id, head_dim: self.head_dim });
        let k_rope: usize = p.emit(Call::Rope { a: k.id, head_dim: self.head_dim });
        let ids: (usize, usize, usize) = cut_heads(
            p,
            (q_rope, k_rope, v.id),
            batch,
            seq,
            self.num_heads,
            self.num_heads,
            self.head_dim,
        );
        flatten(p, ids, n, seq, self.head_dim);
        let done = attend(
            p,
            g.no_grad,
            ids,
            n,
            seq,
            score_scale_of::<T>(self.head_dim),
            causal,
            Style { tag: Tag::AttnScale, pooled: false, half: g.uses_bf16_mixed_precision() },
            (self.cached_scale, self.cached_mask),
        );
        self.cached_scale = done.scale;
        self.cached_mask = done.mask;
        let context = join_heads(
            p,
            done.id,
            batch,
            seq,
            self.num_heads,
            self.head_dim,
            self.hidden_dim,
        );
        self.out_proj.apply(g, p, context)
    }
}

impl<T: Scalar> Module<T> for MultiHeadAttention {
    open spec fn accepts(&self, g: Graph<T>, p: Program<T>, x: Val) -> bool {
        self.ready(g) && self.takes(x) && p.room(25)
    }

    open spec fn passes(
        &self,
        after: Self,
        g: Graph<T>,
        was: Program<T>,
        x: Val,
        now: Program<T>,
        y: Val,
    ) -> bool {
        (now@, y, after) == mha_calls(*self, g, was@, x, true)
    }

    open spec fn param_ids(&self) -> Seq<usize> {
        four_params::<T>(self.q_proj, self.k_proj, self.v_proj, self.out_proj)
    }

    fn forward(&mut self, g: &Graph<T>, p: &mut Program<T>, x: Val) -> (y: Val) {
        self.forward_with_mask(g, p, x, true)
    }

    fn params(&self) -> (r: Vec<usize>) {
        params_of_four::<T>(&self.q_proj, &self.k_proj, &self.v_proj, &self.out_proj)
    }
}

/// Attention with fewer heads for keys and values than for queries.
#[derive(Clone, Copy, Debug)]
pub struct GroupedQueryAttention {
    pub num_heads: usize,
    pub num_kv_heads: usize,
    pub head_dim: usize,
    pub hidden_dim: usize,
    pub q_proj: Linear,
    pub k_proj: Linear,
    pub v_proj: Linear,
    pub out_proj: Linear,
    pub cached_scale: ScaleCache,
    pub cached_mask: MaskCache,
}

/// Heads repeated. Once is the tensor itself.
pub open spec fn repeated<T: Scalar>(d: Draft<T>, x: usize, repeats: usize) -> (Draft<T>, usize) {
    if repeats == 1 {
        (d, x)
    } else {
        (emit(d, Call::RepeatKv { x, repeats }), d.next as usize)
    }
}

fn repeat<T: Scalar>(p: &mut Program<T>, x: usize, repeats: usize) -> (r: usize)
    requires
        old(p).room(1),
    ensures
        (final(p)@, r) == repeated(old(p)@, x, repeats),
        final(p).next <= old(p).next + 1,
{
    if repeats == 1 {
        x
    } else {
        p.emit(Call::RepeatKv { x, repeats })
    }
}

/// The calls of an attention with fewer heads for keys and values.
pub open spec fn gqa_calls<T: Scalar>(
    m: GroupedQueryAttention,
    g: Graph<T>,
    d: Draft<T>,
    x: Val,
    causal: bool,
) -> (Draft<T>, Val, GroupedQueryAttention) {
    let (batch, seq) = (x.dims->Three_0, x.dims->Three_1);
    let n = (batch * m.num_heads) as usize;
    let repeats = m.num_heads / m.num_kv_heads;
    let (d1, q, k, v) = projected((m.q_proj, m.k_proj, m.v_proj), g, d, x);
    let d2 = emit(d1, Call::Rope { a: q.id, head_dim: m.head_dim });
    let d3 = emit(d2, Call::Rope { a: k.id, head_dim: m.head_dim });
    let turned = (d1.next as usize, d2.next as usize, v.id);
    let (d4, cut) = heads_cut(d3, turned, batch, seq, m.num_heads, m.num_kv_heads, m.head_dim);
    let (d5, k_id) = repeated(d4, cut.1, repeats);
    let (d6, v_id) = repeated(d5, cut.2, repeats);
    let ids = (cut.0, k_id, v_id);
    let d7 = flattened(d6, ids, n, seq, m.head_dim);
    let (d8, done) = attend_calls(
        d7,
        g.no_grad,
        ids,
        n,
        seq,
        score_scale::<T>(m.head_dim),
        causal,
        Style { tag: Tag::GqaAttnScale, pooled: true, half: g.mixed() },
        (m.cached_scale, m.cached_mask),
    );
    let (d9, context) = heads_joined(
        d8,
        done.id,
        batch,
        seq,
        m.num_heads,
        m.head_dim,
        m.hidden_dim,
    );
    let (d10, y) = linear_calls(m.out_proj, m.out_proj.columns(g), g.mixed(), d9, context);
    (d10, y, GroupedQueryAttention { cached_scale: done.scale, cached_mask: done.mask, ..m })
}

impl GroupedQueryAttention {
    /// All layers are there.
    pub open spec fn ready<T: Scalar>(self, g: Graph<T>) -> bool {
        self.q_proj.ready(g) && self.k_proj.ready(g) && self.v_proj.ready(g)
            && self.out_proj.ready(g)
    }

    /// The matrices of all heads can be counted.
    pub open spec fn takes(self, x: Val) -> bool {
        &&& self.num_kv_heads > 0
        &&& x.dims matches Dims::Three(b, _, _) && b * self.num_heads <= usize::MAX
    }

    /// Writes down an attention over rows of `hidden_dim` numbers, in `num_heads` equal parts for
    /// queries and `num_kv_heads` for keys and values.
    pub fn new<T: Scalar>(
        p: &mut Program<T>,
        hidden_dim: usize,
        num_heads: usize,
        num_kv_heads: usize,
        mixed: bool,
    ) -> (r: Self)
        requires
            num_heads > 0,
            num_kv_heads > 0,
            hidden_dim % num_heads == 0,
            num_heads % num_kv_heads == 0,
            old(p).room(5),
        ensures
            ({
                let head = hidden_dim / num_heads;
                let kv = (num_kv_heads * head) as usize;
                let (d, l) = projections_made(old(p)@, hidden_dim, kv, mixed);
                &&& final(p)@ == d
                &&& r == (GroupedQueryAttention {
                    num_heads,
                    num_kv_heads,
                    head_dim: head,
                    hidden_dim,
                    q_proj: l.0,
                    k_proj: l.1,
                    v_proj: l.2,
                    out_proj: l.3,
                    cached_scale: None,
                    cached_mask: None,
                })
            }),
    {
        let head_dim: usize = hidden_dim / num_heads;
        assert(num_kv_heads * head_dim <= hidden_dim) by (nonlinear_arith)
            requires
                num_heads > 0,
                num_kv_heads > 0,
                num_heads % num_kv_heads == 0,
                head_dim == hidden_dim / num_heads,
        ;
        let kv: usize = num_kv_heads * head_dim;
        let (q_proj, k_proj, v_proj, out_proj) = make_projections(p, hidden_dim, kv, mixed);
        GroupedQueryAttention {
            num_heads,
            num_kv_heads,
            head_dim,
            hidden_dim,
            q_proj,
            k_proj,
            v_proj,
            out_proj,
            cached_scale: None,
            cached_mask: None,
        }
    }

    /// Writes down the calls for an input of `[batch, seq, hidden]`.
    pub fn forward_with_mask<T: Scalar>(
        &mut self,
        g: &Graph<T>,
        p: &mut Program<T>,
        x: Val,
        causal: bool,
    ) -> (y: Val)
        requires
            old(self).ready(*g),
            old(self).takes(x),
            old(p).room(27),
        ensures
            (final(p)@, y, *final(self)) == gqa_calls(*old(self), *g, old(p)@, x, causal),
    {
        let (batch, seq): (usize, usize) = match x.dims {
            Dims::Three(b, s, _) => (b, s),
            _ => (0, 0),
        };
        let n: usize = batch * self.num_heads;
        let repeats: usize = self.num_heads / self.num_kv_heads;
        let (q, k, v) = project((self.q_proj, self.k_proj, self.v_proj), g, p, x);
        let q_rope: usize = p.emit(Call::Rope { a: q.id, head_dim: self.head_dim });
        let k_rope: usize = p.emit(Call::Rope { a: k.id, head_dim: self.head_dim });
        let cut: (usize, usize, usize) = cut_heads(
            p,
            (q_rope, k_rope, v.id),
            batch,
            seq,
            self.num_heads,
            self.num_kv_heads,
            self.head_dim,
        );
        let k_id: usize = repeat(p, cut.1, repeats);
        let v_id: usize = repeat(p, cut.2, repeats);
        let ids: (usize, usize, usize) = (cut.0, k_id, v_id);
        flatten(p, ids, n, seq, self.head_dim);
        let done = attend(
            p,
            g.no_grad,
            ids,
            n,
            seq,
            score_scale_of::<T>(self.head_dim),
            causal,
            Style { tag: Tag::GqaAttnScale, pooled: true, half: g.uses_bf16_mixed_precision() },
            (self.cached_scale, self.cached_mask),
        );
        self.cached_scale = done.scale;
        self.cached_mask = done.mask;
        let context = join_heads(
            p,
            done.id,
            batch,
            seq,
            self.num_heads,
            self.head_dim,
            self.hidden_dim,
        );
        self.out_proj.apply(g, p, context)
    }
}

impl<T: Scalar> Module<T> for GroupedQueryAttention {
    open spec fn accepts(&self, g: Graph<T>, p: Program<T>, x: Val) -> bool {
        self.ready(g) && self.takes(x) && p.room(27)
    }

    open spec fn passes(
        &self,
        after: Self,
        g: Graph<T>,
        was: Program<T>,
        x: Val,
        now: Program<T>,
        y: Val,
    ) -> bool {
        (now@, y, after) == gqa_calls(*self, g, was@, x, true)
    }

    open spec fn param_ids(&self) -> Seq<usize> {
        four_params::<T>(self.q_proj, self.k_proj, self.v_proj, self.out_proj)
    }

    fn forward(&mut self, g: &Graph<T>, p: &mut Program<T>, x: Val) -> (y: Val) {
        self.forward_with_mask(g, p, x, true)
    }

    fn params(&self) -> (r: Vec<usize>) {
        params_of_four::<T>(&self.q_proj, &self.k_proj, &self.v_proj, &self.out_proj)
    }
}

} // verus!
