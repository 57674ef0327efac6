//! A language model of transformer blocks.
use crate::data::text::{chars_of, push_text, string_of};
use crate::data::tokenizer_file::{decimal, push_decimal};
use crate::graph::Graph;
use crate::nn::attention::{mha_calls, mha_made, MultiHeadAttention};
use crate::nn::embedding::{embedding_calls, embedding_made, Embedding};
use crate::nn::linear::{linear_calls, linear_made, Linear};
use crate::nn::program::{emit, Call, Dims, Draft, Program, Val};
use crate::nn::rmsnorm::{norm_calls, norm_made, RMSNorm};
use crate::nn::{append_ids, Module};
use crate::scalar::Scalar;
use vstd::prelude::*;

verus! {

/// Attention and a feed-forward part, each behind a normalisation, each added to its input.
pub struct TransformerBlock<T> {
    pub norm1: RMSNorm<T>,
    pub attn: MultiHeadAttention,
    pub norm2: RMSNorm<T>,
    pub ffn1: Linear,
    pub ffn2: Linear,
}

impl<T: Copy> Clone for TransformerBlock<T> {
    fn clone(&self) -> (r: Self)
        ensures
            r == *self,
    {
        *self
    }
}

impl<T: Copy> Copy for TransformerBlock<T> {

}

/// What is added under the root of normalisations.
pub open spec fn norm_eps<T: Scalar>() -> T {
    T::spec_decimal(1, 5)
}

/// The calls that make a block.
pub open spec fn block_made<T: Scalar>(
    d: Draft<T>,
    hidden: usize,
    heads: usize,
    ffn: usize,
    mixed: bool,
) -> (Draft<T>, TransformerBlock<T>) {
    let (d1, norm1) = norm_made(d, hidden, norm_eps::<T>(), mixed);
    let (d2, attn) = mha_made(d1, hidden, heads, mixed);
    let (d3, norm2) = norm_made(d2, hidden, norm_eps::<T>(), mixed);
    let (d4, ffn1) = linear_made(d3, hidden, ffn, false, mixed);
    let (d5, ffn2) = linear_made(d4, ffn, hidden, false, mixed);
    (d5, TransformerBlock { norm1, attn, norm2, ffn1, ffn2 })
}

/// The calls of a block.
pub open spec fn block_calls<T: Scalar>(
    b: TransformerBlock<T>,
    g: Graph<T>,
    d: Draft<T>,
    x: Val,
    causal: bool,
) -> (Draft<T>, Val, TransformerBlock<T>) {
    let (d1, n1) = norm_calls(b.norm1, d, x);
    let (d2, a, attn) = mha_calls(b.attn, g, d1, n1, causal);
    let d3 = emit(d2, Call::Add { a: x.id, b: a.id });
    let r1 = Val { id: d2.next as usize, dims: x.dims };
    let (d4, n2) = norm_calls(b.norm2, d3, r1);
    let (d5, f1) = linear_calls(b.ffn1, b.ffn1.columns(g), g.mixed(), d4, n2);
    let d6 = emit(d5, Call::Silu { a: f1.id });
    let (d7, f2) = linear_calls(
        b.ffn2,
        b.ffn2.columns(g),
        g.mixed(),
        d6,
        Val { id: d5.next as usize, dims: f1.dims },
    );
    let d8 = emit(d7, Call::Add { a: r1.id, b: f2.id });
    (d8, Val { id: d7.next as usize, dims: x.dims }, TransformerBlock { attn, ..b })
}

impl<T: Scalar> TransformerBlock<T> {
    /// All layers are there.
    pub open spec fn ready(self, g: Graph<T>) -> bool {
        self.attn.ready(g) && self.ffn1.ready(g) && self.ffn2.ready(g)
    }

    /// Writes down a block.
    pub fn new(
        p: &mut Program<T>,
        hidden_dim: usize,
        num_heads: usize,
        ffn_dim: usize,
        mixed: bool,
    ) -> (r: Self)
        requires
            num_heads > 0,
            hidden_dim % num_heads == 0,
            old(p).room(10),
        ensures
            (final(p)@, r) == block_made(old(p)@, hidden_dim, num_heads, ffn_dim, mixed),
            final(p).next == old(p).next + 8,
    {
        let norm1 = RMSNorm::new(p, hidden_dim, T::decimal(1, 5), mixed);
        let attn = MultiHeadAttention::new(p, hidden_dim, num_heads, mixed);
        let norm2 = RMSNorm::new(p, hidden_dim, T::decimal(1, 5), mixed);
        let ffn1 = Linear::new(p, hidden_dim, ffn_dim, false, mixed);
        let ffn2 = Linear::new(p, ffn_dim, hidden_dim, false, mixed);
        TransformerBlock { norm1, attn, norm2, ffn1, ffn2 }
    }

    /// Writes down the calls for an input of `[batch, seq, hidden]`.
    pub fn forward_with_mask(
        &mut self,
        g: &Graph<T>,
        p: &mut Program<T>,
        x: Val,
        causal: bool,
    ) -> (y: Val)
        requires
            old(self).ready(*g),
            old(self).attn.takes(x),
            old(p).room(34),
        ensures
            (final(p)@, y, *final(self)) == block_calls(*old(self), *g, old(p)@, x, causal),
            final(p).next <= old(p).next + 34,
            y.dims == x.dims,
    {
        let n1 = self.norm1.apply(p, x);
        let a = self.attn.forward_with_mask(g, p, n1, causal);
        let r1: usize = p.emit(Call::Add { a: x.id, b: a.id });
        let n2 = self.norm2.apply(p, Val { id: r1, dims: x.dims });
        let f1 = self.ffn1.apply(g, p, n2);
        let act: usize = p.emit(Call::Silu { a: f1.id });
        let f2 = self.ffn2.apply(g, p, Val { id: act, dims: f1.dims });
        let r2: usize = p.emit(Call::Add { a: r1, b: f2.id });
        Val { id: r2, dims: x.dims }
    }
}

impl<T: Scalar> Module<T> for TransformerBlock<T> {
    open spec fn accepts(&self, g: Graph<T>, p: Program<T>, x: Val) -> bool {
        self.ready(g) && self.attn.takes(x) && p.room(34)
    }

    open spec fn passes(
        &self,
        after: Self,
        g: Graph<T>,
        was: Program<T>,
        x: Val,
        now: Program<T>,
        y: Val,
    ) -> bool {
        (now@, y, after) == block_calls(*self, g, was@, x, true)
    }

    open spec fn param_ids(&self) -> Seq<usize> {
        self.norm1.param_ids() + Module::<T>::param_ids(&self.attn) + self.norm2.param_ids()
            + Module::<T>::param_ids(&self.ffn1) + Module::<T>::param_ids(&self.ffn2)
    }

    fn forward(&mut self, g: &Graph<T>, p: &mut Program<T>, x: Val) -> (y: Val) {
        self.forward_with_mask(g, p, x, true)
    }

    fn params(&self) -> (r: Vec<usize>) {
        let mut r: Vec<usize> = self.norm1.params();
        append_ids(&mut r, &Module::<T>::params(&self.attn));
        append_ids(&mut r, &self.norm2.params());
        append_ids(&mut r, &Module::<T>::params(&self.ffn1));
        append_ids(&mut r, &Module::<T>::params(&self.ffn2));
        r
    }
}

/// Rows for tokens, blocks, a last normalisation and the scores of the next token.
pub struct TransformerLM<T> {
    pub token_emb: Embedding,
    pub blocks: Vec<TransformerBlock<T>>,
    pub norm_f: RMSNorm<T>,
    pub lm_head: Linear,
}

/// The matrices of a block are moved to the host as soon as they are there, so that a model can be
/// made that the device does not hold; its one-dimensional weights stay.
pub open spec fn matrices_demoted<T: Scalar>(d: Draft<T>, b: TransformerBlock<T>) -> Draft<T> {
    let d = emit(d, Call::Demote(b.attn.q_proj.weight_id));
    let d = emit(d, Call::Demote(b.attn.k_proj.weight_id));
    let d = emit(d, Call::Demote(b.attn.v_proj.weight_id));
    let d = emit(d, Call::Demote(b.attn.out_proj.weight_id));
    let d = emit(d, Call::Demote(b.ffn1.weight_id));
    emit(d, Call::Demote(b.ffn2.weight_id))
}

/// The calls that make `n` blocks.
pub open spec fn blocks_made<T: Scalar>(
    d: Draft<T>,
    hidden: usize,
    heads: usize,
    ffn: usize,
    mixed: bool,
    n: nat,
) -> (Draft<T>, Seq<TransformerBlock<T>>)
    decreases n,
{
    if n == 0 {
        (d, Seq::empty())
    } else {
        let (e, bs) = blocks_made(d, hidden, heads, ffn, mixed, (n - 1) as nat);
        let (f, b) = block_made(e, hidden, heads, ffn, mixed);
        (matrices_demoted(f, b), bs.push(b))
    }
}

/// The calls of the first `n` blocks, and the blocks after them.
pub open spec fn blocks_calls<T: Scalar>(
    bs: Seq<TransformerBlock<T>>,
    g: Graph<T>,
    d: Draft<T>,
    x: Val,
    n: nat,
) -> (Draft<T>, Val, Seq<TransformerBlock<T>>)
    decreases n,
{
    if n == 0 {
        (d, x, Seq::empty())
    } else {
        let (e, h, done) = blocks_calls(bs, g, d, x, (n - 1) as nat);
        let (f, y, b) = block_calls(bs[n - 1], g, e, h, true);
        (f, y, done.push(b))
    }
}

/// The names and numbers of the parameters of block `i`.
pub open spec fn block_names<T: Scalar>(i: nat, b: TransformerBlock<T>) -> Seq<(Seq<char>, usize)> {
    seq![
        (layer_name(i, ".input_layernorm.weight"@), b.norm1.weight_id),
        (layer_name(i, ".self_attn.q_proj.weight"@), b.attn.q_proj.weight_id),
        (layer_name(i, ".self_attn.k_proj.weight"@), b.attn.k_proj.weight_id),
        (layer_name(i, ".self_attn.v_proj.weight"@), b.attn.v_proj.weight_id),
        (layer_name(i, ".self_attn.o_proj.weight"@), b.attn.out_proj.weight_id),
        (layer_name(i, ".post_attention_layernorm.weight"@), b.norm2.weight_id),
        (layer_name(i, ".mlp.gate_proj.weight"@), b.ffn1.weight_id),
        (layer_name(i, ".mlp.up_proj.weight"@), b.ffn1.weight_id),
        (layer_name(i, ".mlp.down_proj.weight"@), b.ffn2.weight_id),
    ]
}

/// A name in layer `i`.
pub open spec fn layer_name(i: nat, rest: Seq<char>) -> Seq<char> {
    "model.layers."@ + decimal(i) + rest
}

/// The names and numbers of the parameters of the first `n` blocks.
pub open spec fn all_block_names<T: Scalar>(bs: Seq<TransformerBlock<T>>, n: nat) -> Seq<
    (Seq<char>, usize),
>
    decreases n,
{
    if n == 0 {
        Seq::empty()
    } else {
        all_block_names(bs, (n - 1) as nat) + block_names((n - 1) as nat, bs[n - 1])
    }
}

/// The names and numbers of the parameters of a model.
pub open spec fn model_names<T: Scalar>(m: TransformerLM<T>) -> Seq<(Seq<char>, usize)> {
    seq![("model.embed_tokens.weight"@, m.token_emb.weight_id)] + all_block_names(
        m.blocks@,
        m.blocks@.len(),
    ) + seq![
        ("model.norm.weight"@, m.norm_f.weight_id),
        ("lm_head.weight"@, m.lm_head.weight_id),
    ]
}

/// The parameters of the first `n` blocks.
pub open spec fn all_block_params<T: Scalar>(bs: Seq<TransformerBlock<T>>, n: nat) -> Seq<usize>
    decreases n,
{
    if n == 0 {
        Seq::empty()
    } else {
        all_block_params(bs, (n - 1) as nat) + bs[n - 1].param_ids()
    }
}

/// Names as characters.
pub open spec fn spelled(v: Seq<(String, usize)>) -> Seq<(Seq<char>, usize)> {
    v.map_values(|e: (String, usize)| (e.0@, e.1))
}

fn name_in_layer(i: usize, rest: &str) -> (r: String)
    ensures
        r@ == layer_name(i as nat, rest@),
{
    let mut out: Vec<char> = chars_of("model.layers.");
    push_decimal(&mut out, i);
    push_text(&mut out, rest);
    string_of(&out)
}

fn push_name(out: &mut Vec<(String, usize)>, name: String, id: usize)
    ensures
        spelled(final(out)@) == spelled(old(out)@).push((name@, id)),
{
    out.push((name, id));
    assert(spelled(out@) =~= spelled(old(out)@).push((name@, id)));
}

fn push_block_names<T: Scalar>(out: &mut Vec<(String, usize)>, i: usize, b: &TransformerBlock<T>)
    ensures
        spelled(final(out)@) == spelled(old(out)@) + block_names(i as nat, *b),
{
    push_name(out, name_in_layer(i, ".input_layernorm.weight"), b.norm1.weight_id);
    push_name(out, name_in_layer(i, ".self_attn.q_proj.weight"), b.attn.q_proj.weight_id);
    push_name(out, name_in_layer(i, ".self_attn.k_proj.weight"), b.attn.k_proj.weight_id);
    push_name(out, name_in_layer(i, ".self_attn.v_proj.weight"), b.attn.v_proj.weight_id);
    push_name(out, name_in_layer(i, ".self_attn.o_proj.weight"), b.attn.out_proj.weight_id);
    push_name(out, name_in_layer(i, ".post_attention_layernorm.weight"), b.norm2.weight_id);
    push_name(out, name_in_layer(i, ".mlp.gate_proj.weight"), b.ffn1.weight_id);
    push_name(out, name_in_layer(i, ".mlp.up_proj.weight"), b.ffn1.weight_id);
    push_name(out, name_in_layer(i, ".mlp.down_proj.weight"), b.ffn2.weight_id);
    assert(spelled(out@) =~= spelled(old(out)@) + block_names(i as nat, *b));
}

impl<T: Scalar> TransformerLM<T> {
    /// All layers are there.
    pub open spec fn ready(&self, g: Graph<T>) -> bool {
        &&& self.token_emb.ready(g)
        &&& self.lm_head.ready(g)
        &&& forall|i: int| 0 <= i < self.blocks@.len() ==> (#[trigger] self.blocks@[i]).ready(g)
    }

    /// The matrices of all heads of all blocks can be counted, for tokens of `[batch, seq]`.
    pub open spec fn takes(&self, x: Val) -> bool {
        &&& x.dims is Two
        &&& forall|i: int|
            0 <= i < self.blocks@.len() ==> x.dims->Two_0 * (#[trigger] self.blocks@[i]).attn.num_heads
                <= usize::MAX
    }

    /// Writes down a model.
    pub fn new(
        p: &mut Program<T>,
        vocab_size: usize,
        hidden_dim: usize,
        num_heads: usize,
        ffn_dim: usize,
        num_layers: usize,
        mixed: bool,
    ) -> (r: Self)
        requires
            num_heads > 0,
            hidden_dim % num_heads == 0,
            old(p).room(8 * num_layers + 16),
        ensures
            ({
                let (d1, emb) = embedding_made(old(p)@, vocab_size, hidden_dim, mixed);
                let (d2, bs) = blocks_made(
                    d1,
                    hidden_dim,
                    num_heads,
                    ffn_dim,
                    mixed,
                    num_layers as nat,
                );
                let (d3, norm) = norm_made(d2, hidden_dim, norm_eps::<T>(), mixed);
                let (d4, head) = linear_made(d3, hidden_dim, vocab_size, false, mixed);
                &&& final(p)@ == d4
                &&& r.token_emb == emb
                &&& r.blocks@ == bs
                &&& r.norm_f == norm
                &&& r.lm_head == head
            }),
    {
        let token_emb = Embedding::new(p, vocab_size, hidden_dim, mixed);
        let ghost d1 = p@;
        let mut blocks: Vec<TransformerBlock<T>> = Vec::new();
        let mut i: usize = 0;
        while i < num_layers
            invariant
                i <= num_layers,
                num_heads > 0,
                hidden_dim % num_heads == 0,
                p.next == d1.next + 8 * i,
                d1.next + 8 * num_layers + 15 <= usize::MAX,
                (p@, blocks@) == blocks_made(d1, hidden_dim, num_heads, ffn_dim, mixed, i as nat),
            decreases num_layers - i,
        {
            let b = TransformerBlock::new(p, hidden_dim, num_heads, ffn_dim, mixed);
            p.change(Call::Demote(b.attn.q_proj.weight_id));
            p.change(Call::Demote(b.attn.k_proj.weight_id));
            p.change(Call::Demote(b.attn.v_proj.weight_id));
            p.change(Call::Demote(b.attn.out_proj.weight_id));
            p.change(Call::Demote(b.ffn1.weight_id));
            p.change(Call::Demote(b.ffn2.weight_id));
            blocks.push(b);
            i += 1;
        }
        let norm_f = RMSNorm::new(p, hidden_dim, T::decimal(1, 5), mixed);
        let lm_head = Linear::new(p, hidden_dim, vocab_size, false, mixed);
        TransformerLM { token_emb, blocks, norm_f, lm_head }
    }

    /// The parameters by their names. The first layer of the feed-forward part of a block has two.
    pub fn named_params(&self) -> (r: Vec<(String, usize)>)
        ensures
            spelled(r@) == model_names(*self),
    {
        let mut out: Vec<(String, usize)> = Vec::new();
        push_name(&mut out, "model.embed_tokens.weight".to_string(), self.token_emb.weight_id);
        let ghost first = spelled(out@);
        assert(first =~= seq![("model.embed_tokens.weight"@, self.token_emb.weight_id)]);
        let mut i: usize = 0;
        assert(first + all_block_names(self.blocks@, 0) =~= first);
        while i < self.blocks.len()
            invariant
                i <= self.blocks@.len(),
                spelled(out@) == first + all_block_names(self.blocks@, i as nat),
            decreases self.blocks@.len() - i,
        {
            push_block_names(&mut out, i, &self.blocks[i]);
            i += 1;
            assert(spelled(out@) =~= first + all_block_names(self.blocks@, i as nat));
        }
        let ghost mid = spelled(out@);
        push_name(&mut out, "model.norm.weight".to_string(), self.norm_f.weight_id);
        push_name(&mut out, "lm_head.weight".to_string(), self.lm_head.weight_id);
        assert(spelled(out@) =~= mid + seq![
            ("model.norm.weight"@, self.norm_f.weight_id),
            ("lm_head.weight"@, self.lm_head.weight_id),
        ]);
        out
    }
}

impl<T: Scalar> Module<T> for TransformerLM<T> {
    open spec fn accepts(&self, g: Graph<T>, p: Program<T>, x: Val) -> bool {
        self.ready(g) && self.takes(x) && p.room(34 * self.blocks@.len() as int + 8)
    }

    open spec fn passes(
        &self,
        after: Self,
        g: Graph<T>,
        was: Program<T>,
        x: Val,
        now: Program<T>,
        y: Val,
    ) -> bool {
        let (d1, h) = embedding_calls(self.token_emb, self.token_emb.columns(g), was@, x);
        let (d2, h2, bs) = blocks_calls(self.blocks@, g, d1, h, self.blocks@.len());
        let (d3, h3) = norm_calls(self.norm_f, d2, h2);
        &&& (now@, y) == linear_calls(self.lm_head, self.lm_head.columns(g), g.mixed(), d3, h3)
        &&& after.token_emb == self.token_emb
        &&& after.blocks@ == bs
        &&& after.norm_f == self.norm_f
        &&& after.lm_head == self.lm_head
    }

    open spec fn param_ids(&self) -> Seq<usize> {
        Module::<T>::param_ids(&self.token_emb) + all_block_params(
            self.blocks@,
            self.blocks@.len(),
        ) + self.norm_f.param_ids() + Module::<T>::param_ids(&self.lm_head)
    }

    fn forward(&mut self, g: &Graph<T>, p: &mut Program<T>, x: Val) -> (y: Val) {
        let mut h = self.token_emb.apply(g, p, x);
        let ghost d1 = p@;
        let ghost h1 = h;
        let ghost bs = self.blocks@;
        let ghost start = p.next;
        let mut i: usize = 0;
        while i < self.blocks.len()
            invariant
                i <= bs.len(),
                bs == old(self).blocks@,
                self.blocks@.len() == bs.len(),
                self.token_emb == old(self).token_emb,
                self.norm_f == old(self).norm_f,
                self.lm_head == old(self).lm_head,
                old(self).ready(*g),
                old(self).takes(x),
                h.dims == h1.dims,
                h1.dims == Dims::Three(x.dims->Two_0, x.dims->Two_1, self.token_emb.columns(*g)),
                p.next <= start + 34 * i,
                start + 34 * bs.len() + 7 <= usize::MAX,
                (p@, h, self.blocks@.take(i as int)) == blocks_calls(bs, *g, d1, h1, i as nat),
                forall|j: int| i <= j < bs.len() ==> #[trigger] self.blocks@[j] == bs[j],
            decreases bs.len() - i,
        {
            let ghost done = self.blocks@.take(i as int);
            assert(self.blocks@[i as int] == bs[i as int]);
            assert(bs[i as int].ready(*g));
            let mut b = self.blocks[i];
            h = b.forward_with_mask(g, p, h, true);
            self.blocks.set(i, b);
            assert(self.blocks@.take(i + 1) =~= done.push(b));
            i += 1;
        }
        assert(self.blocks@.take(bs.len() as int) =~= self.blocks@);
        let n = self.norm_f.apply(p, h);
        self.lm_head.apply(g, p, n)
    }

    fn params(&self) -> (r: Vec<usize>) {
        let mut r: Vec<usize> = Module::<T>::params(&self.token_emb);
        let ghost first = r@;
        let mut i: usize = 0;
        assert(first + all_block_params(self.blocks@, 0) =~= first);
        while i < self.blocks.len()
            invariant
                i <= self.blocks@.len(),
                r@ == first + all_block_params(self.blocks@, i as nat),
            decreases self.blocks@.len() - i,
        {
            append_ids(&mut r, &self.blocks[i].params());
            i += 1;
            assert(r@ =~= first + all_block_params(self.blocks@, i as nat));
        }
        append_ids(&mut r, &self.norm_f.params());
        append_ids(&mut r, &Module::<T>::params(&self.lm_head));
        r
    }
}

} // verus!
