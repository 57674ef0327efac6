//! What a block and a model compute, value by value.
use crate::graph::ops::elementwise::{silu_out, Pairwise};
use crate::graph::ops::normalization::{all_rrms, rms_out};
use crate::graph::ops::transform::{as_rows, gather_out};
use crate::graph::Graph;
use crate::nn::attention::mha_calls;
use crate::nn::causality::{blocks_begin, linear_begins, mha_begins, norm_begins};
use crate::nn::embedding::embedding_calls;
use crate::nn::laws::{
    all_shapes, block_shaped, blocks_give_shape, kept, lemma_block_kept, mha_gives_shape,
    mha_shaped, new_shape, shapes_after,
};
use crate::nn::linear::{linear_calls, Linear};
use crate::nn::program::{emit, makes, Call, Dims, Draft, Program, Val};
use crate::nn::rmsnorm::{norm_calls, RMSNorm};
use crate::nn::transformer::{block_calls, blocks_calls, TransformerBlock, TransformerLM};
use crate::nn::values::{
    all_held, at_each_call, at_each_call_before, begins, begins_emit, begins_through, drafted, drafted_emit,
    held_after, made_by, pair_of, product_of, sizes_fit, Held,
};
use crate::nn::Module;
use crate::scalar::Scalar;
use vstd::prelude::*;

verus! {

/// The shapes of tensors.
pub open spec fn shapes_held<T>(s: Seq<Held<T>>) -> Seq<Seq<usize>> {
    Seq::new(s.len(), |i: int| s[i].shape)
}

/// Every call of a draft finds its operands, and their sizes go together.
pub open spec fn fitting<T: Scalar>(s: Seq<Held<T>>, d: Draft<T>) -> bool {
    at_each_call(s, d.calls, fits())
}

/// [`sizes_fit`] as a property.
pub open spec fn fits<T: Scalar>() -> spec_fn(Seq<Held<T>>, Call<T>) -> bool {
    |s: Seq<Held<T>>, c: Call<T>| sizes_fit(s, c)
}

proof fn lemma_shapes_after<T: Scalar>(s: Seq<Held<T>>, c: Call<T>)
    requires
        sizes_fit(s, c),
    ensures
        shapes_held(held_after(s, c)) == shapes_after(shapes_held(s), c),
{
    let t = shapes_held(s);
    if makes(c) {
        assert(made_by(s, c).shape == new_shape(t, c));
    }
    assert(shapes_held(held_after(s, c)) =~= shapes_after(t, c));
}

/// What tensors hold has the shapes that are foretold.
proof fn lemma_shapes<T: Scalar>(s: Seq<Held<T>>, calls: Seq<Call<T>>)
    requires
        at_each_call(s, calls, fits()),
    ensures
        shapes_held(all_held(s, calls)) == all_shapes(shapes_held(s), calls),
    decreases calls.len(),
{
    if calls.len() > 0 {
        let before = calls.drop_last();
        lemma_shapes(s, before);
        let f = fits::<T>();
        assert(f(all_held(s, before), calls.last()));
        lemma_shapes_after(all_held(s, before), calls.last());
    }
}

/// Elements never change: what a tensor holds, it holds ever after.
pub proof fn elements_stay<T: Scalar>(s: Seq<Held<T>>, d: Draft<T>, e: Draft<T>)
    requires
        begins(d, e),
        fitting(s, e),
    ensures
        drafted(s, d).len() <= drafted(s, e).len(),
        forall|i: int|
            0 <= i < drafted(s, d).len() ==> (#[trigger] drafted(s, e)[i]).data == drafted(
                s,
                d,
            )[i].data,
    decreases e.calls.len(),
{
    if d.calls.len() == e.calls.len() {
        assert(e.calls.take(d.calls.len() as int) =~= e.calls);
    } else {
        let before = Draft { calls: e.calls.drop_last(), next: 0 };
        assert(before.calls.take(d.calls.len() as int) =~= e.calls.take(d.calls.len() as int));
        elements_stay(s, d, before);
        let f = fits::<T>();
        assert(f(drafted(s, before), e.calls.last()));
    }
}

/// The tensors that there are before a draft goes on are there after it, with shapes and elements.
proof fn lemma_all_stays<T: Scalar>(s: Seq<Held<T>>, d: Draft<T>, e: Draft<T>)
    requires
        begins(d, e),
        fitting(s, e),
        kept(
            all_shapes(shapes_held(s), d.calls),
            all_shapes(shapes_held(s), e.calls),
        ),
    ensures
        grown(drafted(s, d), drafted(s, e)),
{
    elements_stay(s, d, e);
    at_each_call_before(s, d, e, fits());
    lemma_shapes(s, d.calls);
    lemma_shapes(s, e.calls);
    let (u, v) = (drafted(s, d), drafted(s, e));
    assert forall|i: int| 0 <= i < u.len() implies #[trigger] v[i] == u[i] by {
        assert(shapes_held(v)[i] == shapes_held(u)[i]);
        assert(v[i].data == u[i].data);
    }
}

/// The tensors of the first are still there.
pub open spec fn grown<T>(u: Seq<Held<T>>, v: Seq<Held<T>>) -> bool {
    &&& u.len() <= v.len()
    &&& forall|i: int| 0 <= i < u.len() ==> #[trigger] v[i] == u[i]
}

/// One call more.
pub proof fn lemma_emit<T: Scalar>(s: Seq<Held<T>>, d: Draft<T>, c: Call<T>)
    requires
        drafted(s, d).len() == d.next,
        fitting(s, emit(d, c)),
    ensures
        drafted(s, emit(d, c)) == held_after(drafted(s, d), c),
        drafted(s, emit(d, c)).len() == emit(d, c).next,
        fitting(s, d),
        sizes_fit(drafted(s, d), c),
        makes(c) ==> grown(drafted(s, d), drafted(s, emit(d, c))),
{
    drafted_emit(s, d, c);
    let f = fits::<T>();
    assert(at_each_call(s, emit(d, c).calls, f));
    assert(f(drafted(s, d), c));
}

/// A tensor in another shape.
pub open spec fn shaped_as<T>(h: Held<T>, shape: Seq<usize>) -> Held<T> {
    Held { shape, data: h.data }
}

/// The rows of `[n, s, _]` through a layer: a product with its weights, and its bias added.
pub open spec fn through_layer<T: Scalar>(
    u: Seq<Held<T>>,
    l: Linear,
    x: Held<T>,
    shape: Seq<usize>,
) -> Held<T> {
    let p = product_of(x, u[l.weight_id as int]);
    shaped_as(
        match l.bias_id {
            Some(b) => pair_of(Pairwise::Add, p, u[b as int]),
            None => p,
        },
        shape,
    )
}

/// Rows normalised and weighted.
pub open spec fn through_norm<T: Scalar>(u: Seq<Held<T>>, l: RMSNorm<T>, x: Held<T>) -> Held<T> {
    let dim = x.shape.last() as int;
    Held {
        shape: x.shape,
        data: rms_out(
            x.data,
            u[l.weight_id as int].data,
            dim,
            all_rrms(x.data, dim, l.eps, x.data.len() as int / dim),
        ),
    }
}

/// A layer gives the product of its input with its weights, and its bias added.
pub proof fn layer_gives_product<T: Scalar>(
    s: Seq<Held<T>>,
    l: Linear,
    out: usize,
    mixed: bool,
    d: Draft<T>,
    x: Val,
)
    requires
        drafted(s, d).len() == d.next,
        x.dims is Three,
        d.next + 2 <= usize::MAX,
        fitting(s, linear_calls(l, out, mixed, d, x).0),
        l.bias_id matches Some(b) ==> b < d.next,
    ensures
        ({
            let (e, y) = linear_calls(l, out, mixed, d, x);
            let u = drafted(s, d);
            let shape = seq![x.dims->Three_0, x.dims->Three_1, out];
            &&& drafted(s, e).len() == e.next
            &&& grown(u, drafted(s, e))
            &&& d.next <= y.id < e.next <= d.next + 2
            &&& y.dims == Dims::Three(x.dims->Three_0, x.dims->Three_1, out)
            &&& drafted(s, e)[y.id as int] == through_layer(u, l, u[x.id as int], shape)
            &&& begins(d, e)
            &&& fitting(s, d)
        }),
{
    let c = if mixed {
        Call::<T>::MatmulBf16 { a: x.id, b: l.weight_id }
    } else {
        Call::<T>::Matmul { a: x.id, b: l.weight_id }
    };
    let p = emit(d, c);
    let dims = Dims::Three(x.dims->Three_0, x.dims->Three_1, out);
    let e = linear_calls(l, out, mixed, d, x).0;
    begins_emit(d, c);
    match l.bias_id {
        Some(b) => {
            let add = Call::<T>::Add { a: d.next as usize, b };
            let q = emit(p, add);
            let last = Call::<T>::Reinterpret { id: p.next as usize, dims };
            begins_emit(p, add);
            begins_emit(q, last);
            begins_through(p, q, e);
            at_each_call_before(s, q, e, fits());
            at_each_call_before(s, p, e, fits());
            lemma_emit(s, d, c);
            lemma_emit(s, p, add);
            lemma_emit(s, q, last);
        },
        None => {
            let last = Call::<T>::Reinterpret { id: d.next as usize, dims };
            begins_emit(p, last);
            at_each_call_before(s, p, e, fits());
            lemma_emit(s, d, c);
            lemma_emit(s, p, last);
        },
    }
    begins_through(d, p, e);
}

/// Rows passed through SiLU.
pub open spec fn through_silu<T: Scalar>(x: Held<T>) -> Held<T> {
    Held { shape: x.shape, data: silu_out(x.data) }
}

/// What the second half of a block adds to `r`.
pub open spec fn fed_forward<T: Scalar>(
    u: Seq<Held<T>>,
    b: TransformerBlock<T>,
    g: Graph<T>,
    r: Held<T>,
    n: usize,
    s: usize,
) -> Held<T> {
    let inner = through_layer(
        u,
        b.ffn1,
        through_norm(u, b.norm2, r),
        seq![n, s, b.ffn1.columns(g)],
    );
    through_layer(u, b.ffn2, through_silu(inner), seq![n, s, b.ffn2.columns(g)])
}

/// What is still there later is still there later on.
pub proof fn lemma_grown<T>(a: Seq<Held<T>>, b: Seq<Held<T>>, c: Seq<Held<T>>)
    requires
        grown(a, b),
        grown(b, c),
    ensures
        grown(a, c),
{
}

/// A layer takes its weights from where they were.
pub proof fn lemma_layer_kept<T: Scalar>(
    u: Seq<Held<T>>,
    v: Seq<Held<T>>,
    l: Linear,
    x: Held<T>,
    shape: Seq<usize>,
)
    requires
        grown(u, v),
        l.weight_id < u.len(),
        l.bias_id matches Some(b) ==> b < u.len(),
    ensures
        through_layer(u, l, x, shape) == through_layer(v, l, x, shape),
{
}

/// The second half of a block, from `r1` on.
proof fn lemma_feed<T: Scalar>(
    s0: Seq<Held<T>>,
    u: Seq<Held<T>>,
    b: TransformerBlock<T>,
    g: Graph<T>,
    d: Draft<T>,
    r1: Val,
)
    requires
        drafted(s0, d).len() == d.next,
        r1.dims is Three,
        r1.id < d.next,
        grown(u, drafted(s0, d)),
        b.norm2.weight_id < u.len(),
        b.ffn1.weight_id < u.len(),
        b.ffn2.weight_id < u.len(),
        b.ffn1.bias_id matches Some(i) ==> i < u.len(),
        b.ffn2.bias_id matches Some(i) ==> i < u.len(),
        d.next + 7 <= usize::MAX,
        ({
            let (d4, n2) = norm_calls(b.norm2, d, r1);
            let (d5, f1) = linear_calls(b.ffn1, b.ffn1.columns(g), g.mixed(), d4, n2);
            let d6 = emit(d5, Call::<T>::Silu { a: f1.id });
            let act = Val { id: d5.next as usize, dims: f1.dims };
            let (d7, f2) = linear_calls(b.ffn2, b.ffn2.columns(g), g.mixed(), d6, act);
            fitting(s0, emit(d7, Call::<T>::Add { a: r1.id, b: f2.id }))
        }),
    ensures
        ({
            let (d4, n2) = norm_calls(b.norm2, d, r1);
            let (d5, f1) = linear_calls(b.ffn1, b.ffn1.columns(g), g.mixed(), d4, n2);
            let d6 = emit(d5, Call::<T>::Silu { a: f1.id });
            let act = Val { id: d5.next as usize, dims: f1.dims };
            let (d7, f2) = linear_calls(b.ffn2, b.ffn2.columns(g), g.mixed(), d6, act);
            let e = emit(d7, Call::<T>::Add { a: r1.id, b: f2.id });
            let r = drafted(s0, d)[r1.id as int];
            &&& drafted(s0, e).len() == e.next
            &&& d7.next < e.next
            &&& drafted(s0, e)[d7.next] == pair_of(
                Pairwise::Add,
                r,
                fed_forward(u, b, g, r, r1.dims->Three_0, r1.dims->Three_1),
            )
        }),
{
    let (n, s) = (r1.dims->Three_0, r1.dims->Three_1);
    let c4 = Call::<T>::RmsNorm { x: r1.id, w: b.norm2.weight_id, eps: b.norm2.eps };
    let (d4, n2) = norm_calls(b.norm2, d, r1);
    let (d5, f1) = linear_calls(b.ffn1, b.ffn1.columns(g), g.mixed(), d4, n2);
    let c6 = Call::<T>::Silu { a: f1.id };
    let d6 = emit(d5, c6);
    let act = Val { id: d5.next as usize, dims: f1.dims };
    let (d7, f2) = linear_calls(b.ffn2, b.ffn2.columns(g), g.mixed(), d6, act);
    let c8 = Call::<T>::Add { a: r1.id, b: f2.id };
    let e = emit(d7, c8);
    linear_begins(b.ffn1, b.ffn1.columns(g), g.mixed(), d4, n2);
    begins_emit(d5, c6);
    linear_begins(b.ffn2, b.ffn2.columns(g), g.mixed(), d6, act);
    begins_emit(d7, c8);
    begins_through(d6, d7, e);
    begins_through(d5, d6, e);
    begins_through(d4, d5, e);
    at_each_call_before(s0, d4, e, fits());
    at_each_call_before(s0, d5, e, fits());
    at_each_call_before(s0, d6, e, fits());
    at_each_call_before(s0, d7, e, fits());
    let (v, v4, v5, v6, v7) = (
        drafted(s0, d),
        drafted(s0, d4),
        drafted(s0, d5),
        drafted(s0, d6),
        drafted(s0, d7),
    );
    let r = v[r1.id as int];
    lemma_emit(s0, d, c4);
    assert(v4[d.next] == made_by(v, c4));
    assert(v4[n2.id as int] == through_norm(u, b.norm2, r));
    lemma_grown(u, v, v4);
    layer_gives_product(s0, b.ffn1, b.ffn1.columns(g), g.mixed(), d4, n2);
    lemma_layer_kept(u, v4, b.ffn1, v4[n2.id as int], seq![n, s, b.ffn1.columns(g)]);
    lemma_grown(u, v4, v5);
    lemma_emit(s0, d5, c6);
    assert(v6[d5.next] == made_by(v5, c6));
    lemma_grown(u, v5, v6);
    layer_gives_product(s0, b.ffn2, b.ffn2.columns(g), g.mixed(), d6, act);
    lemma_layer_kept(u, v6, b.ffn2, v6[act.id as int], seq![n, s, b.ffn2.columns(g)]);
    lemma_emit(s0, d7, c8);
    lemma_grown(v, v4, v5);
    lemma_grown(v, v5, v6);
    lemma_grown(v, v6, v7);
    assert(drafted(s0, e)[d7.next] == made_by(v7, c8));
}

/// A block adds to its input what attention makes of it, normalised, and to that what its two
/// layers, with SiLU between them, make of it, normalised again.
pub proof fn block_adds_to_its_input<T: Scalar>(
    s0: Seq<Held<T>>,
    b: TransformerBlock<T>,
    g: Graph<T>,
    d: Draft<T>,
    x: Val,
    causal: bool,
)
    requires
        drafted(s0, d).len() == d.next,
        x.id < d.next,
        b.attn.takes(x),
        x.dims->Three_0 >= 1,
        drafted(s0, d)[x.id as int].shape == x.dims.shape(),
        block_shaped(shapes_held(drafted(s0, d)), b, g, x.dims->Three_2),
        b.norm1.weight_id < d.next,
        b.norm2.weight_id < d.next,
        d.next + 34 <= usize::MAX,
        fitting(s0, block_calls(b, g, d, x, causal).0),
    ensures
        ({
            let u = drafted(s0, d);
            let input = u[x.id as int];
            let (d1, n1) = norm_calls(b.norm1, d, x);
            let (d2, av, attn) = mha_calls(b.attn, g, d1, n1, causal);
            let attended = drafted(s0, d2)[av.id as int];
            let r = pair_of(Pairwise::Add, input, attended);
            let (e, y, done) = block_calls(b, g, d, x, causal);
            &&& drafted(s0, d1)[n1.id as int] == through_norm(u, b.norm1, input)
            &&& drafted(s0, e)[y.id as int] == pair_of(
                Pairwise::Add,
                r,
                fed_forward(u, b, g, r, x.dims->Three_0, x.dims->Three_1),
            )
        }),
{
    let u = drafted(s0, d);
    let c1 = Call::<T>::RmsNorm { x: x.id, w: b.norm1.weight_id, eps: b.norm1.eps };
    let (d1, n1) = norm_calls(b.norm1, d, x);
    let (d2, av, attn) = mha_calls(b.attn, g, d1, n1, causal);
    let c3 = Call::<T>::Add { a: x.id, b: av.id };
    let d3 = emit(d2, c3);
    let r1 = Val { id: d2.next as usize, dims: x.dims };
    let e = block_calls(b, g, d, x, causal).0;
    mha_begins(b.attn, g, d1, n1, causal);
    begins_emit(d2, c3);
    lemma_feed_begins(b, g, d3, r1);
    begins_through(d2, d3, e);
    begins_through(d1, d2, e);
    at_each_call_before(s0, d1, e, fits());
    at_each_call_before(s0, d2, e, fits());
    at_each_call_before(s0, d3, e, fits());
    lemma_emit(s0, d, c1);
    let v1 = drafted(s0, d1);
    assert(v1[d.next] == made_by(u, c1));
    lemma_attention_keeps(s0, b, g, d, x, causal);
    let v2 = drafted(s0, d2);
    lemma_grown(u, v1, v2);
    lemma_emit(s0, d2, c3);
    let v3 = drafted(s0, d3);
    assert(v3[d2.next] == made_by(v2, c3));
    lemma_grown(u, v2, v3);
    lemma_feed(s0, u, b, g, d3, r1);
}

proof fn lemma_feed_begins<T: Scalar>(b: TransformerBlock<T>, g: Graph<T>, d: Draft<T>, r1: Val)
    ensures
        ({
            let (d4, n2) = norm_calls(b.norm2, d, r1);
            let (d5, f1) = linear_calls(b.ffn1, b.ffn1.columns(g), g.mixed(), d4, n2);
            let d6 = emit(d5, Call::<T>::Silu { a: f1.id });
            let act = Val { id: d5.next as usize, dims: f1.dims };
            let (d7, f2) = linear_calls(b.ffn2, b.ffn2.columns(g), g.mixed(), d6, act);
            begins(d, emit(d7, Call::<T>::Add { a: r1.id, b: f2.id }))
        }),
{
    let (d4, n2) = norm_calls(b.norm2, d, r1);
    let (d5, f1) = linear_calls(b.ffn1, b.ffn1.columns(g), g.mixed(), d4, n2);
    let c6 = Call::<T>::Silu { a: f1.id };
    let d6 = emit(d5, c6);
    let act = Val { id: d5.next as usize, dims: f1.dims };
    let (d7, f2) = linear_calls(b.ffn2, b.ffn2.columns(g), g.mixed(), d6, act);
    let c8 = Call::<T>::Add { a: r1.id, b: f2.id };
    let e = emit(d7, c8);
    norm_begins(b.norm2, d, r1);
    linear_begins(b.ffn1, b.ffn1.columns(g), g.mixed(), d4, n2);
    begins_emit(d5, c6);
    linear_begins(b.ffn2, b.ffn2.columns(g), g.mixed(), d6, act);
    begins_emit(d7, c8);
    begins_through(d6, d7, e);
    begins_through(d5, d6, e);
    begins_through(d4, d5, e);
    begins_through(d, d4, e);
}

/// Attention within a block leaves the tensors that there are, and gives one of the shape of its
/// input.
proof fn lemma_attention_keeps<T: Scalar>(
    s0: Seq<Held<T>>,
    b: TransformerBlock<T>,
    g: Graph<T>,
    d: Draft<T>,
    x: Val,
    causal: bool,
)
    requires
        drafted(s0, d).len() == d.next,
        x.id < d.next,
        b.attn.takes(x),
        x.dims->Three_0 >= 1,
        drafted(s0, d)[x.id as int].shape == x.dims.shape(),
        block_shaped(shapes_held(drafted(s0, d)), b, g, x.dims->Three_2),
        d.next + 34 <= usize::MAX,
        ({
            let (d1, n1) = norm_calls(b.norm1, d, x);
            fitting(s0, mha_calls(b.attn, g, d1, n1, causal).0)
        }),
    ensures
        ({
            let (d1, n1) = norm_calls(b.norm1, d, x);
            let (d2, av, attn) = mha_calls(b.attn, g, d1, n1, causal);
            &&& drafted(s0, d2).len() == d2.next
            &&& grown(drafted(s0, d1), drafted(s0, d2))
            &&& d1.next == d.next + 1
            &&& d1.next <= d2.next <= d1.next + 25
            &&& av.id < d2.next
        }),
{
    let h = shapes_held(s0);
    let c1 = Call::<T>::RmsNorm { x: x.id, w: b.norm1.weight_id, eps: b.norm1.eps };
    let (d1, n1) = norm_calls(b.norm1, d, x);
    let (d2, av, attn) = mha_calls(b.attn, g, d1, n1, causal);
    mha_begins(b.attn, g, d1, n1, causal);
    at_each_call_before(s0, d1, d2, fits());
    lemma_emit(s0, d, c1);
    lemma_shapes(s0, d.calls);
    lemma_shapes(s0, d1.calls);
    lemma_shapes(s0, d2.calls);
    let (t, t1) = (shapes_held(drafted(s0, d)), shapes_held(drafted(s0, d1)));
    assert(kept(t, t1)) by {
        assert forall|i: int| 0 <= i < t.len() implies #[trigger] t1[i] == t[i] by {
            assert(drafted(s0, d1)[i] == drafted(s0, d)[i]);
        }
    }
    assert(mha_shaped(t1, b.attn, g));
    assert(t1[d.next] == x.dims.shape()) by {
        assert(drafted(s0, d1)[d.next] == made_by(drafted(s0, d), c1));
    }
    mha_gives_shape(h, b.attn, g, d1, n1, causal);
    lemma_all_stays(s0, d1, d2);
    assert(shapes_held(drafted(s0, d2)).len() == drafted(s0, d2).len());
}

/// A language model starts from the rows of its tokens, passes them through its blocks, and gives
/// the product of what they leave, normalised, with its last weights.
pub proof fn model_scores_what_blocks_leave<T: Scalar>(
    s0: Seq<Held<T>>,
    m: TransformerLM<T>,
    after: TransformerLM<T>,
    g: Graph<T>,
    was: Program<T>,
    x: Val,
    now: Program<T>,
    y: Val,
)
    requires
        m.accepts(g, was, x),
        m.passes(after, g, was, x, now, y),
        drafted(s0, was@).len() == was@.next,
        x.id < was@.next,
        x.dims->Two_0 >= 1,
        drafted(s0, was@)[x.id as int].shape == x.dims.shape(),
        m.token_emb.weight_id < was@.next,
        drafted(s0, was@)[m.token_emb.weight_id as int].shape.len() == 2,
        drafted(s0, was@)[m.token_emb.weight_id as int].shape[1] == m.token_emb.columns(g),
        m.norm_f.weight_id < was@.next,
        m.lm_head.weight_id < was@.next,
        m.lm_head.bias_id matches Some(i) ==> i < was@.next,
        forall|i: int|
            0 <= i < m.blocks@.len() ==> block_shaped(
                shapes_held(drafted(s0, was@)),
                #[trigger] m.blocks@[i],
                g,
                m.token_emb.columns(g),
            ),
        fitting(s0, now@),
    ensures
        ({
            let u = drafted(s0, was@);
            let hidden = m.token_emb.columns(g);
            let (n, s) = (x.dims->Two_0, x.dims->Two_1);
            let (d1, h) = embedding_calls(m.token_emb, hidden, was@, x);
            let (d2, h2, bs) = blocks_calls(m.blocks@, g, d1, h, m.blocks@.len());
            let left = drafted(s0, d2)[h2.id as int];
            &&& drafted(s0, d1)[h.id as int].shape == seq![n, s, hidden]
            &&& drafted(s0, d1)[h.id as int].data == gather_out(
                u[m.token_emb.weight_id as int].data,
                as_rows(u[x.id as int].data),
                hidden as int,
            )
            &&& drafted(s0, now@)[y.id as int] == through_layer(
                u,
                m.lm_head,
                through_norm(u, m.norm_f, left),
                seq![n, s, m.lm_head.columns(g)],
            )
        }),
{
    let d = was@;
    let e = now@;
    let (n, s) = (x.dims->Two_0, x.dims->Two_1);
    let hidden = m.token_emb.columns(g);
    let bs = m.blocks@;
    let u = drafted(s0, d);
    let c1 = Call::<T>::Gather { w: m.token_emb.weight_id, x: x.id };
    let (d1, h) = embedding_calls(m.token_emb, hidden, d, x);
    let (d2, h2, done) = blocks_calls(bs, g, d1, h, bs.len());
    let c3 = Call::<T>::RmsNorm { x: h2.id, w: m.norm_f.weight_id, eps: m.norm_f.eps };
    let (d3, h3) = norm_calls(m.norm_f, d2, h2);
    blocks_begin(bs, g, d1, h, bs.len());
    norm_begins(m.norm_f, d2, h2);
    linear_begins(m.lm_head, m.lm_head.columns(g), g.mixed(), d3, h3);
    begins_through(d2, d3, e);
    begins_through(d1, d2, e);
    at_each_call_before(s0, d1, e, fits());
    at_each_call_before(s0, d2, e, fits());
    at_each_call_before(s0, d3, e, fits());
    lemma_emit(s0, d, c1);
    let v1 = drafted(s0, d1);
    assert(v1[d.next] == made_by(u, c1));
    assert(v1[d.next].shape =~= seq![n, s, hidden]);
    lemma_shapes(s0, d1.calls);
    lemma_shapes(s0, d2.calls);
    let (t, t1) = (shapes_held(u), shapes_held(v1));
    assert(kept(t, t1)) by {
        assert forall|i: int| 0 <= i < t.len() implies #[trigger] t1[i] == t[i] by {
            assert(v1[i] == u[i]);
        }
    }
    assert forall|i: int| 0 <= i < bs.len() implies (#[trigger] bs[i]).attn.takes(h) && block_shaped(
        t1,
        bs[i],
        g,
        hidden,
    ) by {
        lemma_block_kept(t, t1, bs[i], g, hidden);
    }
    blocks_give_shape(shapes_held(s0), bs, g, d1, h, bs.len());
    lemma_all_stays(s0, d1, d2);
    let v2 = drafted(s0, d2);
    assert(shapes_held(v2).len() == v2.len());
    lemma_grown(u, v1, v2);
    lemma_emit(s0, d2, c3);
    let v3 = drafted(s0, d3);
    assert(v3[d2.next] == made_by(v2, c3));
    lemma_grown(u, v2, v3);
    layer_gives_product(s0, m.lm_head, m.lm_head.columns(g), g.mixed(), d3, h3);
    lemma_layer_kept(u, v3, m.lm_head, v3[h3.id as int], seq![n, s, m.lm_head.columns(g)]);
}

} // verus!
