//! The sizes of models that have been made.
use crate::graph::Graph;
use crate::nn::attention::{mha_made, projections_made};
use crate::nn::block_laws::{grown, lemma_grown};
use crate::nn::causality::{same_block, same_linear, same_model, Runs};
use crate::nn::embedding::embedding_made;
use crate::nn::linear::{linear_made, Linear};
use crate::nn::program::{emit, Call, Dims, Draft, Init};
use crate::nn::rmsnorm::norm_made;
use crate::nn::scaling_laws::heads_divide_rows;
use crate::nn::transformer::{
    block_made, blocks_made, matrices_demoted, norm_eps, TransformerBlock, TransformerLM,
};
use crate::nn::values::{drafted, drafted_emit, held, Held};
use crate::scalar::Scalar;
use vstd::prelude::*;

verus! {

/// A layer without bias has weights of `rows` by `columns`.
pub open spec fn layer_sized<T>(u: Seq<Held<T>>, l: Linear, rows: usize, columns: usize) -> bool {
    &&& l.weight_id < u.len()
    &&& u[l.weight_id as int].shape == seq![rows, columns]
    &&& l.bias_id is None
}

/// The layers of a block have the sizes that were asked for, its heads divide its rows among them,
/// and nothing is kept yet.
pub open spec fn block_sized<T: Scalar>(
    u: Seq<Held<T>>,
    b: TransformerBlock<T>,
    hidden: usize,
    heads: usize,
    ffn: usize,
) -> bool {
    &&& layer_sized(u, b.attn.q_proj, hidden, hidden)
    &&& layer_sized(u, b.attn.k_proj, hidden, hidden)
    &&& layer_sized(u, b.attn.v_proj, hidden, hidden)
    &&& layer_sized(u, b.attn.out_proj, hidden, hidden)
    &&& layer_sized(u, b.ffn1, hidden, ffn)
    &&& layer_sized(u, b.ffn2, ffn, hidden)
    &&& b.norm1.weight_id < u.len()
    &&& b.norm2.weight_id < u.len()
    &&& b.attn.num_heads == heads
    &&& b.attn.hidden_dim == hidden
    &&& heads * b.attn.head_dim == hidden
    &&& b.attn.cached_scale is None
    &&& b.attn.cached_mask is None
}

proof fn lemma_param<T: Scalar>(s0: Seq<Held<T>>, d: Draft<T>, dims: Dims, init: Init, half: bool)
    requires
        drafted(s0, d).len() == d.next,
    ensures
        ({
            let e = emit(d, Call::<T>::Param { dims, init, half });
            &&& drafted(s0, e).len() == e.next
            &&& e.next == d.next + 1
            &&& grown(drafted(s0, d), drafted(s0, e))
            &&& drafted(s0, e)[d.next].shape == dims.shape()
        }),
{
    drafted_emit(s0, d, Call::<T>::Param { dims, init, half });
}

proof fn lemma_projections<T: Scalar>(s0: Seq<Held<T>>, d: Draft<T>, hidden: usize, mixed: bool)
    requires
        drafted(s0, d).len() == d.next,
        d.next + 4 <= usize::MAX,
    ensures
        ({
            let (e, l) = projections_made(d, hidden, hidden, mixed);
            let u = drafted(s0, e);
            &&& u.len() == e.next
            &&& e.next == d.next + 4
            &&& grown(drafted(s0, d), u)
            &&& layer_sized(u, l.0, hidden, hidden)
            &&& layer_sized(u, l.1, hidden, hidden)
            &&& layer_sized(u, l.2, hidden, hidden)
            &&& layer_sized(u, l.3, hidden, hidden)
        }),
{
    let dims = Dims::Two(hidden, hidden);
    let (d1, q) = linear_made(d, hidden, hidden, false, mixed);
    let (d2, k) = linear_made(d1, hidden, hidden, false, mixed);
    let (d3, v) = linear_made(d2, hidden, hidden, false, mixed);
    lemma_param(s0, d, dims, Init::Normal, mixed);
    lemma_param(s0, d1, dims, Init::Normal, mixed);
    lemma_param(s0, d2, dims, Init::Normal, mixed);
    lemma_param(s0, d3, dims, Init::Normal, mixed);
}

proof fn lemma_block<T: Scalar>(
    s0: Seq<Held<T>>,
    d: Draft<T>,
    hidden: usize,
    heads: usize,
    ffn: usize,
    mixed: bool,
)
    requires
        drafted(s0, d).len() == d.next,
        d.next + 8 <= usize::MAX,
        heads > 0,
        hidden % heads == 0,
    ensures
        ({
            let (e, b) = block_made(d, hidden, heads, ffn, mixed);
            let f = matrices_demoted(e, b);
            &&& drafted(s0, f).len() == f.next
            &&& f.next == d.next + 8
            &&& grown(drafted(s0, d), drafted(s0, f))
            &&& block_sized(drafted(s0, f), b, hidden, heads, ffn)
        }),
{
    let (d1, norm1) = norm_made(d, hidden, norm_eps::<T>(), mixed);
    let (d2, attn) = mha_made(d1, hidden, heads, mixed);
    let (d3, norm2) = norm_made(d2, hidden, norm_eps::<T>(), mixed);
    let (d4, ffn1) = linear_made(d3, hidden, ffn, false, mixed);
    let (d5, ffn2) = linear_made(d4, ffn, hidden, false, mixed);
    let b = block_made(d, hidden, heads, ffn, mixed).1;
    lemma_param(s0, d, Dims::One(hidden), Init::Ones, mixed);
    lemma_projections(s0, d1, hidden, mixed);
    heads_divide_rows(d1, hidden, heads, mixed);
    lemma_param(s0, d2, Dims::One(hidden), Init::Ones, mixed);
    lemma_param(s0, d3, Dims::Two(hidden, ffn), Init::Normal, mixed);
    lemma_param(s0, d4, Dims::Two(ffn, hidden), Init::Normal, mixed);
    let (u, u1, u2, u3, u4, u5) = (
        drafted(s0, d),
        drafted(s0, d1),
        drafted(s0, d2),
        drafted(s0, d3),
        drafted(s0, d4),
        drafted(s0, d5),
    );
    lemma_grown(u, u1, u2);
    lemma_grown(u, u2, u3);
    lemma_grown(u, u3, u4);
    lemma_grown(u, u4, u5);
    lemma_grown(u1, u2, u3);
    lemma_grown(u1, u3, u4);
    lemma_grown(u1, u4, u5);
    lemma_grown(u2, u3, u4);
    lemma_grown(u2, u4, u5);
    lemma_grown(u3, u4, u5);
    assert(heads * attn.head_dim == attn.head_dim * heads) by (nonlinear_arith);
    let m1 = Call::<T>::Demote(b.attn.q_proj.weight_id);
    let m2 = Call::<T>::Demote(b.attn.k_proj.weight_id);
    let m3 = Call::<T>::Demote(b.attn.v_proj.weight_id);
    let m4 = Call::<T>::Demote(b.attn.out_proj.weight_id);
    let m5 = Call::<T>::Demote(b.ffn1.weight_id);
    let m6 = Call::<T>::Demote(b.ffn2.weight_id);
    drafted_emit(s0, d5, m1);
    drafted_emit(s0, emit(d5, m1), m2);
    drafted_emit(s0, emit(emit(d5, m1), m2), m3);
    drafted_emit(s0, emit(emit(emit(d5, m1), m2), m3), m4);
    drafted_emit(s0, emit(emit(emit(emit(d5, m1), m2), m3), m4), m5);
    drafted_emit(s0, emit(emit(emit(emit(emit(d5, m1), m2), m3), m4), m5), m6);
    assert(drafted(s0, matrices_demoted(d5, b)) == u5);
    assert(layer_sized(u5, attn.q_proj, hidden, hidden) && layer_sized(
        u5,
        attn.k_proj,
        hidden,
        hidden,
    ));
    assert(layer_sized(u5, attn.v_proj, hidden, hidden) && layer_sized(
        u5,
        attn.out_proj,
        hidden,
        hidden,
    ));
}

proof fn lemma_block_kept<T: Scalar>(
    u: Seq<Held<T>>,
    v: Seq<Held<T>>,
    b: TransformerBlock<T>,
    hidden: usize,
    heads: usize,
    ffn: usize,
)
    requires
        grown(u, v),
        block_sized(u, b, hidden, heads, ffn),
    ensures
        block_sized(v, b, hidden, heads, ffn),
{
}

/// Blocks that have been made have the sizes that were asked for.
pub proof fn made_blocks_are_sized<T: Scalar>(
    s0: Seq<Held<T>>,
    d: Draft<T>,
    hidden: usize,
    heads: usize,
    ffn: usize,
    mixed: bool,
    n: nat,
)
    requires
        drafted(s0, d).len() == d.next,
        d.next + 8 * n <= usize::MAX,
        heads > 0,
        hidden % heads == 0,
    ensures
        ({
            let (e, bs) = blocks_made(d, hidden, heads, ffn, mixed, n);
            &&& drafted(s0, e).len() == e.next
            &&& e.next == d.next + 8 * n
            &&& grown(drafted(s0, d), drafted(s0, e))
            &&& bs.len() == n
            &&& forall|i: int|
                0 <= i < n ==> block_sized(drafted(s0, e), #[trigger] bs[i], hidden, heads, ffn)
        }),
    decreases n,
{
    if n > 0 {
        made_blocks_are_sized(s0, d, hidden, heads, ffn, mixed, (n - 1) as nat);
        let (e, before) = blocks_made(d, hidden, heads, ffn, mixed, (n - 1) as nat);
        lemma_block(s0, e, hidden, heads, ffn, mixed);
        let (f, bs) = blocks_made(d, hidden, heads, ffn, mixed, n);
        lemma_grown(drafted(s0, d), drafted(s0, e), drafted(s0, f));
        assert forall|i: int| 0 <= i < n implies block_sized(
            drafted(s0, f),
            #[trigger] bs[i],
            hidden,
            heads,
            ffn,
        ) by {
            if i < n - 1 {
                assert(bs[i] == before[i]);
                lemma_block_kept(
                    drafted(s0, e),
                    drafted(s0, f),
                    before[i],
                    hidden,
                    heads,
                    ffn,
                );
            }
        }
    }
}

/// A model as it is made is the same in all graphs that hold it, and its sizes go together, so that
/// what holds of the runs of models with such sizes holds of it.
pub proof fn made_model_goes_together<T: Scalar>(
    s0: Seq<Held<T>>,
    d: Draft<T>,
    vocab: usize,
    hidden: usize,
    heads: usize,
    ffn: usize,
    layers: usize,
    mixed: bool,
    m: TransformerLM<T>,
    g: Graph<T>,
    h: Graph<T>,
)
    requires
        drafted(s0, d).len() == d.next,
        d.next + 8 * layers + 16 <= usize::MAX,
        heads > 0,
        hidden % heads == 0,
        ({
            let (d1, emb) = embedding_made(d, vocab, hidden, mixed);
            let (d2, bs) = blocks_made(d1, hidden, heads, ffn, mixed, layers as nat);
            let (d3, norm) = norm_made(d2, hidden, norm_eps::<T>(), mixed);
            let (d4, head) = linear_made(d3, hidden, vocab, false, mixed);
            &&& m.token_emb == emb
            &&& m.blocks@ == bs
            &&& m.norm_f == norm
            &&& m.lm_head == head
            &&& grown(drafted(s0, d4), held(g))
            &&& grown(drafted(s0, d4), held(h))
        }),
    ensures
        same_model(Runs { a: held(g), b: held(h) }, m, g),
        m.token_emb.columns(g) == hidden,
        m.lm_head.columns(g) == vocab,
        m.blocks@.len() == layers,
{
    let (d1, emb) = embedding_made(d, vocab, hidden, mixed);
    let (d2, bs) = blocks_made(d1, hidden, heads, ffn, mixed, layers as nat);
    let (d3, norm) = norm_made(d2, hidden, norm_eps::<T>(), mixed);
    let (d4, head) = linear_made(d3, hidden, vocab, false, mixed);
    lemma_param(s0, d, Dims::Two(vocab, hidden), Init::Uniform, mixed);
    made_blocks_are_sized(s0, d1, hidden, heads, ffn, mixed, layers as nat);
    lemma_param(s0, d2, Dims::One(hidden), Init::Ones, mixed);
    lemma_param(s0, d3, Dims::Two(hidden, vocab), Init::Normal, mixed);
    let (u1, u2, u3, u4) = (
        drafted(s0, d1),
        drafted(s0, d2),
        drafted(s0, d3),
        drafted(s0, d4),
    );
    lemma_grown(u1, u2, u3);
    lemma_grown(u1, u3, u4);
    lemma_grown(u2, u3, u4);
    let r = Runs { a: held(g), b: held(h) };
    assert(r.a[emb.weight_id as int] == u4[emb.weight_id as int]);
    assert(r.a[head.weight_id as int] == u4[head.weight_id as int]);
    assert(r.a[norm.weight_id as int] == u4[norm.weight_id as int]);
    assert forall|i: int| 0 <= i < bs.len() implies same_block(
        r,
        #[trigger] bs[i],
        g,
        hidden,
    ) by {
        lemma_block_kept(u2, u4, bs[i], hidden, heads, ffn);
        lemma_block_same(u4, bs[i], g, h, hidden, heads, ffn);
    }
}

proof fn lemma_block_same<T: Scalar>(
    u: Seq<Held<T>>,
    b: TransformerBlock<T>,
    g: Graph<T>,
    h: Graph<T>,
    hidden: usize,
    heads: usize,
    ffn: usize,
)
    requires
        heads > 0,
        grown(u, held(g)),
        grown(u, held(h)),
        block_sized(u, b, hidden, heads, ffn),
    ensures
        same_block(Runs { a: held(g), b: held(h) }, b, g, hidden),
{
    let r = Runs { a: held(g), b: held(h) };
    lemma_layer_same(u, b.attn.q_proj, g, h, hidden, hidden);
    lemma_layer_same(u, b.attn.k_proj, g, h, hidden, hidden);
    lemma_layer_same(u, b.attn.v_proj, g, h, hidden, hidden);
    lemma_layer_same(u, b.attn.out_proj, g, h, hidden, hidden);
    lemma_layer_same(u, b.ffn1, g, h, hidden, ffn);
    lemma_layer_same(u, b.ffn2, g, h, ffn, hidden);
    assert(r.a[b.norm1.weight_id as int] == r.b[b.norm1.weight_id as int]);
    assert(r.a[b.norm2.weight_id as int] == r.b[b.norm2.weight_id as int]);
}

proof fn lemma_layer_same<T: Scalar>(
    u: Seq<Held<T>>,
    l: Linear,
    g: Graph<T>,
    h: Graph<T>,
    rows: usize,
    columns: usize,
)
    requires
        grown(u, held(g)),
        grown(u, held(h)),
        layer_sized(u, l, rows, columns),
    ensures
        same_linear(
            Runs { a: held(g), b: held(h) },
            l,
            l.columns(g),
        ),
        l.columns(g) == columns,
{
    assert(held(g)[l.weight_id as int] == u[l.weight_id as int]);
    assert(held(h)[l.weight_id as int] == u[l.weight_id as int]);
}

} // verus!
