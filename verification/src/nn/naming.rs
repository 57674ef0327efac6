//! What holds of the names of parameters.
use crate::data::tokenizer_file::{all_digits, decimal, is_digit};
use crate::data::tokenizer_laws::lemma_decimal;
use crate::nn::linear::Linear;
use crate::nn::transformer::{
    all_block_names, all_block_params, block_names, layer_name, model_names, TransformerBlock,
    TransformerLM,
};
use crate::nn::Module;
use crate::scalar::Scalar;
use vstd::prelude::*;

verus! {

/// The layer has no bias.
pub open spec fn plain(l: Linear) -> bool {
    l.bias_id is None
}

/// The layers of a block have no bias.
pub open spec fn plain_block<T: Scalar>(b: TransformerBlock<T>) -> bool {
    &&& plain(b.attn.q_proj)
    &&& plain(b.attn.k_proj)
    &&& plain(b.attn.v_proj)
    &&& plain(b.attn.out_proj)
    &&& plain(b.ffn1)
    &&& plain(b.ffn2)
}

/// Number `id` goes by some name.
pub open spec fn has_name(names: Seq<(Seq<char>, usize)>, id: usize) -> bool {
    exists|k: int| 0 <= k < names.len() && (#[trigger] names[k]).1 == id
}

proof fn lemma_block_named<T: Scalar>(i: nat, b: TransformerBlock<T>, k: int)
    requires
        plain_block(b),
        0 <= k < b.param_ids().len(),
    ensures
        has_name(block_names(i, b), b.param_ids()[k]),
{
    let n = block_names(i, b);
    assert(n[0].1 == b.norm1.weight_id);
    assert(n[1].1 == b.attn.q_proj.weight_id);
    assert(n[2].1 == b.attn.k_proj.weight_id);
    assert(n[3].1 == b.attn.v_proj.weight_id);
    assert(n[4].1 == b.attn.out_proj.weight_id);
    assert(n[5].1 == b.norm2.weight_id);
    assert(n[6].1 == b.ffn1.weight_id);
    assert(n[8].1 == b.ffn2.weight_id);
    assert(b.param_ids() =~= seq![
        b.norm1.weight_id,
        b.attn.q_proj.weight_id,
        b.attn.k_proj.weight_id,
        b.attn.v_proj.weight_id,
        b.attn.out_proj.weight_id,
        b.norm2.weight_id,
        b.ffn1.weight_id,
        b.ffn2.weight_id,
    ]);
}

proof fn lemma_name_in_sum(
    a: Seq<(Seq<char>, usize)>,
    b: Seq<(Seq<char>, usize)>,
    id: usize,
)
    requires
        has_name(a, id) || has_name(b, id),
    ensures
        has_name(a + b, id),
{
    if has_name(a, id) {
        let k = choose|k: int| 0 <= k < a.len() && (#[trigger] a[k]).1 == id;
        assert((a + b)[k] == a[k]);
    } else {
        let k = choose|k: int| 0 <= k < b.len() && (#[trigger] b[k]).1 == id;
        assert((a + b)[a.len() + k] == b[k]);
    }
}

proof fn lemma_blocks_named<T: Scalar>(bs: Seq<TransformerBlock<T>>, n: nat, k: int)
    requires
        n <= bs.len(),
        forall|i: int| 0 <= i < bs.len() ==> plain_block(#[trigger] bs[i]),
        0 <= k < all_block_params(bs, n).len(),
    ensures
        has_name(all_block_names(bs, n), all_block_params(bs, n)[k]),
    decreases n,
{
    if n > 0 {
        let m = (n - 1) as nat;
        let before = all_block_params(bs, m);
        let id = all_block_params(bs, n)[k];
        if k < before.len() {
            lemma_blocks_named(bs, m, k);
        } else {
            assert(id == bs[n - 1].param_ids()[k - before.len()]);
            lemma_block_named(m, bs[n - 1], k - before.len());
        }
        lemma_name_in_sum(all_block_names(bs, m), block_names(m, bs[n - 1]), id);
    }
}

/// Every parameter of a model without biases goes by a name.
pub proof fn every_parameter_is_named<T: Scalar>(m: TransformerLM<T>, k: int)
    requires
        forall|i: int| 0 <= i < m.blocks@.len() ==> plain_block(#[trigger] m.blocks@[i]),
        plain(m.lm_head),
        0 <= k < m.param_ids().len(),
    ensures
        has_name(model_names(m), m.param_ids()[k]),
{
    let first = seq![("model.embed_tokens.weight"@, m.token_emb.weight_id)];
    let middle = all_block_names(m.blocks@, m.blocks@.len());
    let last = seq![
        ("model.norm.weight"@, m.norm_f.weight_id),
        ("lm_head.weight"@, m.lm_head.weight_id),
    ];
    let inner = all_block_params(m.blocks@, m.blocks@.len());
    let id = m.param_ids()[k];
    let n = inner.len();
    assert(m.param_ids() =~= seq![m.token_emb.weight_id] + inner + seq![
        m.norm_f.weight_id,
        m.lm_head.weight_id,
    ]);
    assert(first[0].1 == m.token_emb.weight_id);
    assert(last[0].1 == m.norm_f.weight_id);
    assert(last[1].1 == m.lm_head.weight_id);
    if 1 <= k <= n {
        lemma_blocks_named(m.blocks@, m.blocks@.len(), k - 1);
        lemma_name_in_sum(first, middle, id);
    } else if k == 0 {
        assert(has_name(first, id));
        lemma_name_in_sum(first, middle, id);
    } else {
        assert(has_name(last, id));
    }
    lemma_name_in_sum(first + middle, last, id);
}

/// The end of name `k` of a block.
spec fn ending(k: int) -> Seq<char> {
    if k == 0 {
        ".input_layernorm.weight"@
    } else if k == 1 {
        ".self_attn.q_proj.weight"@
    } else if k == 2 {
        ".self_attn.k_proj.weight"@
    } else if k == 3 {
        ".self_attn.v_proj.weight"@
    } else if k == 4 {
        ".self_attn.o_proj.weight"@
    } else if k == 5 {
        ".post_attention_layernorm.weight"@
    } else if k == 6 {
        ".mlp.gate_proj.weight"@
    } else if k == 7 {
        ".mlp.up_proj.weight"@
    } else {
        ".mlp.down_proj.weight"@
    }
}

proof fn lemma_endings()
    ensures
        forall|k: int| 0 <= k < 9 ==> (#[trigger] ending(k)).len() > 0 && ending(k)[0] == '.',
        forall|j: int, k: int|
            0 <= j < k < 9 ==> #[trigger] ending(j) != #[trigger] ending(k),
{
    reveal_strlit(".input_layernorm.weight");
    reveal_strlit(".self_attn.q_proj.weight");
    reveal_strlit(".self_attn.k_proj.weight");
    reveal_strlit(".self_attn.v_proj.weight");
    reveal_strlit(".self_attn.o_proj.weight");
    reveal_strlit(".post_attention_layernorm.weight");
    reveal_strlit(".mlp.gate_proj.weight");
    reveal_strlit(".mlp.up_proj.weight");
    reveal_strlit(".mlp.down_proj.weight");
    assert(ending(0)[1] == 'i' && ending(5)[1] == 'p');
    assert(ending(1)[1] == 's' && ending(1)[11] == 'q');
    assert(ending(2)[1] == 's' && ending(2)[11] == 'k');
    assert(ending(3)[1] == 's' && ending(3)[11] == 'v');
    assert(ending(4)[1] == 's' && ending(4)[11] == 'o');
    assert(ending(6)[1] == 'm' && ending(6)[5] == 'g');
    assert(ending(7)[1] == 'm' && ending(7)[5] == 'u');
    assert(ending(8)[1] == 'm' && ending(8)[5] == 'd');
}

/// Digits, a point and more: the digits can be told from what follows.
proof fn lemma_digits_end(a: Seq<char>, x: Seq<char>, b: Seq<char>, y: Seq<char>)
    requires
        all_digits(a),
        all_digits(b),
        x.len() > 0,
        x[0] == '.',
        y.len() > 0,
        y[0] == '.',
        a + x == b + y,
    ensures
        a == b,
        x == y,
{
    if a.len() < b.len() {
        assert((a + x)[a.len() as int] == '.');
        assert((b + y)[a.len() as int] == b[a.len() as int]);
        assert(is_digit(b[a.len() as int]));
    } else if b.len() < a.len() {
        assert((b + y)[b.len() as int] == '.');
        assert((a + x)[b.len() as int] == a[b.len() as int]);
        assert(is_digit(a[b.len() as int]));
    }
    assert(a =~= (a + x).take(a.len() as int));
    assert(b =~= (b + y).take(b.len() as int));
    assert(x =~= (a + x).skip(a.len() as int));
    assert(y =~= (b + y).skip(b.len() as int));
}

proof fn lemma_layer_names_differ(i: nat, j: int, k: nat, l: int)
    requires
        0 <= j < 9,
        0 <= l < 9,
        layer_name(i, ending(j)) == layer_name(k, ending(l)),
    ensures
        i == k,
        j == l,
{
    lemma_endings();
    lemma_decimal(i);
    lemma_decimal(k);
    let start = "model.layers."@;
    let a = decimal(i) + ending(j);
    let b = decimal(k) + ending(l);
    assert(layer_name(i, ending(j)) =~= start + a);
    assert(layer_name(k, ending(l)) =~= start + b);
    assert(a =~= (start + a).skip(start.len() as int));
    assert(b =~= (start + b).skip(start.len() as int));
    lemma_digits_end(decimal(i), ending(j), decimal(k), ending(l));
    if j < l {
        assert(ending(j) != ending(l));
    } else if l < j {
        assert(ending(l) != ending(j));
    }
}

proof fn lemma_name_at<T: Scalar>(bs: Seq<TransformerBlock<T>>, n: nat, k: int)
    requires
        n <= bs.len(),
        0 <= k < 9 * n,
    ensures
        all_block_names(bs, n).len() == 9 * n,
        all_block_names(bs, n)[k].0 == layer_name((k / 9) as nat, ending(k % 9)),
    decreases n,
{
    let m = (n - 1) as nat;
    if m > 0 {
        lemma_name_at(bs, m, if k < 9 * m {
            k
        } else {
            0
        });
    }
    assert(all_block_names(bs, m).len() == 9 * m);
    if k >= 9 * m {
        let r = k - 9 * m;
        assert(k / 9 == m && k % 9 == r);
        assert(all_block_names(bs, n)[k] == block_names(m, bs[n - 1])[r]);
    }
}

/// No two parameters of a model go by one name.
pub proof fn names_are_distinct<T: Scalar>(m: TransformerLM<T>, j: int, k: int)
    requires
        0 <= j < k < model_names(m).len(),
    ensures
        model_names(m)[j].0 != model_names(m)[k].0,
{
    let n = m.blocks@.len();
    let s = model_names(m);
    let end = 9 * n as int;
    let middle = all_block_names(m.blocks@, n);
    if n > 0 {
        lemma_name_at(m.blocks@, n, 0);
    }
    assert(middle.len() == 9 * n);
    reveal_strlit("model.embed_tokens.weight");
    reveal_strlit("model.layers.");
    reveal_strlit("model.norm.weight");
    reveal_strlit("lm_head.weight");
    assert(s[0].0 == "model.embed_tokens.weight"@);
    assert(s[end + 1].0 == "model.norm.weight"@);
    assert(s[end + 2].0 == "lm_head.weight"@);
    assert(s[0].0[6] == 'e' && s[end + 1].0[6] == 'n');
    assert(s[0].0[0] == 'm' && s[end + 1].0[0] == 'm' && s[end + 2].0[0] == 'l');
    if 1 <= j <= end {
        lemma_name_at(m.blocks@, n, j - 1);
        assert(s[j] == middle[j - 1]);
        assert(s[j].0[6] == 'l' && s[j].0[0] == 'm');
    }
    if 1 <= k <= end {
        lemma_name_at(m.blocks@, n, k - 1);
        assert(s[k] == middle[k - 1]);
        assert(s[k].0[6] == 'l' && s[k].0[0] == 'm');
        if j >= 1 && s[j].0 == s[k].0 {
            lemma_layer_names_differ(
                ((j - 1) / 9) as nat,
                (j - 1) % 9,
                ((k - 1) / 9) as nat,
                (k - 1) % 9,
            );
        }
    }
}

} // verus!
