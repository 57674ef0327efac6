//! The export of models in the files that other tools read.
use crate::data::text::{chars_of, push_text, string_of};
use crate::data::tokenizer_file::{decimal, push_decimal};
use vstd::prelude::*;
use vstd::string::StrSliceExecFns;
use vstd::utf8::encode_utf8;

verus! {

// Text.

/// The first `n` numbers, with commas between them.
pub open spec fn with_commas(v: Seq<usize>, n: nat) -> Seq<char>
    decreases n,
{
    if n == 0 {
        Seq::empty()
    } else if n == 1 {
        decimal(v[0] as nat)
    } else {
        with_commas(v, (n - 1) as nat) + ","@ + decimal(v[n - 1] as nat)
    }
}

/// Numbers as an array.
pub open spec fn json_array(v: Seq<usize>) -> Seq<char> {
    "["@ + with_commas(v, v.len()) + "]"@
}

fn add_array(out: &mut Vec<char>, values: &[usize])
    ensures
        final(out)@ == old(out)@ + json_array(values@),
{
    let ghost start = out@;
    push_text(out, "[");
    let mut i: usize = 0;
    assert(out@ =~= start + "["@ + with_commas(values@, 0));
    while i < values.len()
        invariant
            i <= values@.len(),
            out@ == start + "["@ + with_commas(values@, i as nat),
        decreases values@.len() - i,
    {
        if i > 0 {
            push_text(out, ",");
        }
        push_decimal(out, values[i]);
        i += 1;
        assert(out@ =~= start + "["@ + with_commas(values@, i as nat));
    }
    push_text(out, "]");
    assert(out@ =~= start + json_array(values@));
}

/// Numbers as an array.
pub fn as_json_array(values: &[usize]) -> (r: String)
    ensures
        r@ == json_array(values@),
{
    let mut out: Vec<char> = Vec::new();
    add_array(&mut out, values);
    assert(out@ =~= json_array(values@));
    string_of(&out)
}

// The description of a model.

/// The sizes of a model. Fractions are given as they are written.
pub struct LlamaConfig {
    pub vocab_size: usize,
    pub hidden_size: usize,
    pub intermediate_size: usize,
    pub num_hidden_layers: usize,
    pub num_attention_heads: usize,
    pub max_position_embeddings: usize,
    pub rms_norm_eps: String,
    pub rope_theta: String,
    pub tie_word_embeddings: bool,
}

/// A line with a number.
pub open spec fn number_line(key: Seq<char>, n: usize) -> Seq<char> {
    key + decimal(n as nat) + ",\n"@
}

/// A line with a text.
pub open spec fn text_line(key: Seq<char>, t: Seq<char>) -> Seq<char> {
    key + t + ",\n"@
}

/// The description of a model.
pub open spec fn config_text(c: LlamaConfig) -> Seq<char> {
    "{\n  \"architectures\": [\"LlamaForCausalLM\"],\n  \"model_type\": \"llama\",\n"@ + number_line(
        "  \"vocab_size\": "@,
        c.vocab_size,
    ) + number_line("  \"hidden_size\": "@, c.hidden_size) + number_line(
        "  \"intermediate_size\": "@,
        c.intermediate_size,
    ) + number_line("  \"num_hidden_layers\": "@, c.num_hidden_layers) + number_line(
        "  \"num_attention_heads\": "@,
        c.num_attention_heads,
    ) + number_line("  \"num_key_value_heads\": "@, c.num_attention_heads) + number_line(
        "  \"max_position_embeddings\": "@,
        c.max_position_embeddings,
    ) + text_line("  \"rms_norm_eps\": "@, c.rms_norm_eps@) + text_line(
        "  \"rope_theta\": "@,
        c.rope_theta@,
    )
        + "  \"bos_token_id\": 1,\n  \"eos_token_id\": 2,\n  \"pad_token_id\": 0,\n  \"hidden_act\": \"silu\",\n"@
        + text_line(
        "  \"tie_word_embeddings\": "@,
        if c.tie_word_embeddings {
            "true"@
        } else {
            "false"@
        },
    ) + "  \"initializer_range\": 0.02,\n  \"torch_dtype\": \"float32\"\n}\n"@
}

fn add_number_line(out: &mut Vec<char>, key: &str, n: usize)
    ensures
        final(out)@ == old(out)@ + number_line(key@, n),
{
    let ghost start = out@;
    push_text(out, key);
    push_decimal(out, n);
    push_text(out, ",\n");
    assert(out@ =~= start + number_line(key@, n));
}

fn add_text_line(out: &mut Vec<char>, key: &str, t: &str)
    ensures
        final(out)@ == old(out)@ + text_line(key@, t@),
{
    let ghost start = out@;
    push_text(out, key);
    push_text(out, t);
    push_text(out, ",\n");
    assert(out@ =~= start + text_line(key@, t@));
}

/// The description of a model, as text.
pub fn llama_config(cfg: &LlamaConfig) -> (r: String)
    ensures
        r@ == config_text(*cfg),
{
    let mut out: Vec<char> = chars_of(
        "{\n  \"architectures\": [\"LlamaForCausalLM\"],\n  \"model_type\": \"llama\",\n",
    );
    add_number_line(&mut out, "  \"vocab_size\": ", cfg.vocab_size);
    add_number_line(&mut out, "  \"hidden_size\": ", cfg.hidden_size);
    add_number_line(&mut out, "  \"intermediate_size\": ", cfg.intermediate_size);
    add_number_line(&mut out, "  \"num_hidden_layers\": ", cfg.num_hidden_layers);
    add_number_line(&mut out, "  \"num_attention_heads\": ", cfg.num_attention_heads);
    add_number_line(&mut out, "  \"num_key_value_heads\": ", cfg.num_attention_heads);
    add_number_line(&mut out, "  \"max_position_embeddings\": ", cfg.max_position_embeddings);
    add_text_line(&mut out, "  \"rms_norm_eps\": ", cfg.rms_norm_eps.as_str());
    add_text_line(&mut out, "  \"rope_theta\": ", cfg.rope_theta.as_str());
    push_text(
        &mut out,
        "  \"bos_token_id\": 1,\n  \"eos_token_id\": 2,\n  \"pad_token_id\": 0,\n  \"hidden_act\": \"silu\",\n",
    );
    if cfg.tie_word_embeddings {
        add_text_line(&mut out, "  \"tie_word_embeddings\": ", "true");
    } else {
        add_text_line(&mut out, "  \"tie_word_embeddings\": ", "false");
    }
    push_text(&mut out, "  \"initializer_range\": 0.02,\n  \"torch_dtype\": \"float32\"\n}\n");
    string_of(&out)
}

// The weights of a model.

/// A tensor to be written: the bits of its elements.
pub struct NamedTensor {
    pub name: String,
    pub shape: Vec<usize>,
    pub bits: Vec<u32>,
}

/// Where a tensor lies among the bytes of all.
pub struct HeaderEntry {
    pub name: Vec<char>,
    pub shape: Vec<usize>,
    pub begin: usize,
    pub end: usize,
}

/// Byte `k` of a number, the lowest first.
pub open spec fn le_byte(x: u64, k: int) -> u8 {
    if k == 0 {
        (x % 0x100) as u8
    } else if k == 1 {
        (x / 0x100 % 0x100) as u8
    } else if k == 2 {
        (x / 0x1_0000 % 0x100) as u8
    } else if k == 3 {
        (x / 0x100_0000 % 0x100) as u8
    } else if k == 4 {
        (x / 0x1_0000_0000 % 0x100) as u8
    } else if k == 5 {
        (x / 0x100_0000_0000 % 0x100) as u8
    } else if k == 6 {
        (x / 0x1_0000_0000_0000 % 0x100) as u8
    } else {
        (x / 0x100_0000_0000_0000 % 0x100) as u8
    }
}

/// The four bytes of each number.
pub open spec fn word_bytes(w: Seq<u32>) -> Seq<u8> {
    Seq::new(4 * w.len(), |i: int| le_byte(w[i / 4] as u64, i % 4))
}

/// The bytes of the first `n` tensors.
pub open spec fn payload_of(ts: Seq<NamedTensor>, n: nat) -> Seq<u8>
    decreases n,
{
    if n == 0 {
        Seq::empty()
    } else {
        payload_of(ts, (n - 1) as nat) + word_bytes(ts[n - 1].bits@)
    }
}

/// Where the bytes of tensor `i` begin.
pub open spec fn begin_of(ts: Seq<NamedTensor>, i: int) -> int {
    payload_of(ts, i as nat).len() as int
}

/// One text comes before another: at the first difference, or as its beginning.
pub open spec fn text_below(a: Seq<char>, b: Seq<char>) -> bool
    decreases a.len(),
{
    if b.len() == 0 {
        false
    } else if a.len() == 0 {
        true
    } else if a[0] != b[0] {
        (a[0] as u32) < (b[0] as u32)
    } else {
        text_below(a.skip(1), b.skip(1))
    }
}

/// Names rise from entry to entry.
pub open spec fn rising(es: Seq<HeaderEntry>) -> bool {
    forall|i: int, j: int|
        0 <= i < j < es.len() ==> text_below(#[trigger] es[i].name@, #[trigger] es[j].name@)
}

/// Entry `e` is that of tensor `i`.
pub open spec fn entry_of(e: HeaderEntry, ts: Seq<NamedTensor>, i: int) -> bool {
    &&& e.name@ == ts[i].name@
    &&& e.shape@ == ts[i].shape@
    &&& e.begin == begin_of(ts, i)
    &&& e.end == begin_of(ts, i + 1)
}

/// Tensor `i` is the last of the first `n` with its name.
pub open spec fn last_named(ts: Seq<NamedTensor>, n: int, i: int) -> bool {
    &&& 0 <= i < n
    &&& forall|j: int| i < j < n ==> (#[trigger] ts[j]).name@ != ts[i].name@
}

/// The entry is that of the last of the first `n` tensors with its name.
pub open spec fn is_entry(e: HeaderEntry, ts: Seq<NamedTensor>, n: int) -> bool {
    exists|i: int| last_named(ts, n, i) && #[trigger] entry_of(e, ts, i)
}

/// Tensor `i` has an entry.
pub open spec fn has_entry(es: Seq<HeaderEntry>, ts: Seq<NamedTensor>, i: int) -> bool {
    exists|k: int| 0 <= k < es.len() && entry_of(#[trigger] es[k], ts, i)
}

/// The entries of the first `n` tensors: one for every name, that of the last tensor with it, in
/// the order of the names.
pub open spec fn entries_ok(es: Seq<HeaderEntry>, ts: Seq<NamedTensor>, n: int) -> bool {
    &&& rising(es)
    &&& forall|k: int| 0 <= k < es.len() ==> is_entry(#[trigger] es[k], ts, n)
    &&& forall|i: int| #[trigger] last_named(ts, n, i) ==> has_entry(es, ts, i)
}

proof fn lemma_below_irreflexive(a: Seq<char>)
    ensures
        !text_below(a, a),
    decreases a.len(),
{
    if a.len() > 0 {
        lemma_below_irreflexive(a.skip(1));
    }
}

proof fn lemma_below_transitive(a: Seq<char>, b: Seq<char>, c: Seq<char>)
    requires
        text_below(a, b),
        text_below(b, c),
    ensures
        text_below(a, c),
    decreases a.len(),
{
    if a.len() > 0 && b.len() > 0 && c.len() > 0 && a[0] == b[0] && b[0] == c[0] {
        lemma_below_transitive(a.skip(1), b.skip(1), c.skip(1));
    }
}

/// How two texts lie: the first before the second, the same, or after.
#[derive(Clone, Copy, Debug, PartialEq, Eq, Structural)]
pub enum Place {
    Before,
    Same,
    After,
}

/// Places two texts.
pub fn place_of(a: &Vec<char>, b: &Vec<char>) -> (r: Place)
    ensures
        match r {
            Place::Before => text_below(a@, b@),
            Place::Same => a@ == b@,
            Place::After => text_below(b@, a@),
        },
{
    let mut i: usize = 0;
    assert(a@.skip(0) =~= a@);
    assert(b@.skip(0) =~= b@);
    while i < a.len() && i < b.len()
        invariant
            i <= a@.len(),
            i <= b@.len(),
            text_below(a@, b@) == text_below(a@.skip(i as int), b@.skip(i as int)),
            text_below(b@, a@) == text_below(b@.skip(i as int), a@.skip(i as int)),
            a@.take(i as int) == b@.take(i as int),
        decreases a@.len() - i,
    {
        assert(a@.skip(i as int).skip(1) =~= a@.skip(i + 1));
        assert(b@.skip(i as int).skip(1) =~= b@.skip(i + 1));
        if a[i] != b[i] {
            let (x, y): (u32, u32) = (a[i] as u32, b[i] as u32);
            proof {
                vstd::utf8::char_u32_cast(a@[i as int], x);
                vstd::utf8::char_u32_cast(b@[i as int], y);
            }
            return if x < y {
                Place::Before
            } else {
                Place::After
            };
        }
        assert(a@.take(i + 1) =~= b@.take(i + 1));
        i += 1;
    }
    if i < b.len() {
        Place::Before
    } else if i < a.len() {
        Place::After
    } else {
        assert(a@.take(i as int) =~= a@);
        assert(b@.take(i as int) =~= b@);
        Place::Same
    }
}

/// Puts an entry in its place, over one of the same name.
fn put_entry(es: &mut Vec<HeaderEntry>, e: HeaderEntry)
    requires
        rising(old(es)@),
    ensures
        rising(final(es)@),
        final(es)@.contains(e),
        forall|k: int|
            0 <= k < final(es)@.len() ==> #[trigger] final(es)@[k] == e || (old(es)@.contains(
                final(es)@[k],
            ) && final(es)@[k].name@ != e.name@),
        forall|k: int|
            0 <= k < old(es)@.len() && (#[trigger] old(es)@[k]).name@ != e.name@
                ==> final(es)@.contains(old(es)@[k]),
{
    let ghost before = es@;
    let mut i: usize = 0;
    while i < es.len()
        invariant
            i <= es@.len(),
            es@ == before,
            before == old(es)@,
            rising(before),
            forall|j: int| 0 <= j < i ==> text_below(#[trigger] before[j].name@, e.name@),
        decreases es@.len() - i,
    {
        match place_of(&es[i].name, &e.name) {
            Place::Before => {
                i += 1;
            },
            Place::Same => {
                es.set(i, e);
                proof {
                    lemma_replaced(before, es@, e, i as int);
                }
                return;
            },
            Place::After => {
                es.insert(i, e);
                proof {
                    lemma_inserted(before, es@, e, i as int);
                }
                return;
            },
        }
    }
    es.push(e);
    proof {
        assert(before.insert(i as int, e) =~= es@);
        lemma_inserted(before, es@, e, i as int);
    }
}

proof fn lemma_replaced(x: Seq<HeaderEntry>, y: Seq<HeaderEntry>, e: HeaderEntry, i: int)
    requires
        rising(x),
        0 <= i < x.len(),
        x[i].name@ == e.name@,
        y == x.update(i, e),
    ensures
        rising(y),
        y.contains(e),
        forall|k: int|
            0 <= k < y.len() ==> #[trigger] y[k] == e || (x.contains(y[k]) && y[k].name@ != e.name@),
        forall|k: int|
            0 <= k < x.len() && (#[trigger] x[k]).name@ != e.name@ ==> y.contains(x[k]),
{
    assert(y[i] == e);
    assert forall|k: int| 0 <= k < y.len() implies #[trigger] y[k] == e || (x.contains(y[k])
        && y[k].name@ != e.name@) by {
        if k != i {
            assert(y[k] == x[k]);
            lemma_below_irreflexive(e.name@);
            if k < i {
                assert(text_below(x[k].name@, x[i].name@));
            } else {
                assert(text_below(x[i].name@, x[k].name@));
            }
        }
    }
    assert forall|k: int| 0 <= k < x.len() && (#[trigger] x[k]).name@ != e.name@ implies y.contains(
        x[k],
    ) by {
        assert(y[k] == x[k]);
    }
    assert forall|a: int, b: int| 0 <= a < b < y.len() implies text_below(
        #[trigger] y[a].name@,
        #[trigger] y[b].name@,
    ) by {
        assert(text_below(x[a].name@, x[b].name@));
    }
}

proof fn lemma_inserted(x: Seq<HeaderEntry>, y: Seq<HeaderEntry>, e: HeaderEntry, i: int)
    requires
        rising(x),
        0 <= i <= x.len(),
        y == x.insert(i, e),
        forall|j: int| 0 <= j < i ==> text_below(#[trigger] x[j].name@, e.name@),
        i < x.len() ==> text_below(e.name@, x[i].name@),
    ensures
        rising(y),
        y.contains(e),
        forall|k: int|
            0 <= k < y.len() ==> #[trigger] y[k] == e || (x.contains(y[k]) && y[k].name@ != e.name@),
        forall|k: int|
            0 <= k < x.len() && (#[trigger] x[k]).name@ != e.name@ ==> y.contains(x[k]),
{
    assert(y[i] == e);
    assert forall|j: int| i <= j < x.len() implies text_below(e.name@, #[trigger] x[j].name@) by {
        if j > i {
            assert(text_below(x[i].name@, x[j].name@));
            lemma_below_transitive(e.name@, x[i].name@, x[j].name@);
        }
    }
    lemma_below_irreflexive(e.name@);
    assert forall|k: int| 0 <= k < y.len() implies #[trigger] y[k] == e || (x.contains(y[k])
        && y[k].name@ != e.name@) by {
        if k < i {
            assert(y[k] == x[k]);
            assert(text_below(x[k].name@, e.name@));
        } else if k > i {
            assert(y[k] == x[k - 1]);
            assert(text_below(e.name@, x[k - 1].name@));
        }
    }
    assert forall|k: int| 0 <= k < x.len() && (#[trigger] x[k]).name@ != e.name@ implies y.contains(
        x[k],
    ) by {
        if k < i {
            assert(y[k] == x[k]);
        } else {
            assert(y[k + 1] == x[k]);
        }
    }
    assert forall|a: int, b: int| 0 <= a < b < y.len() implies text_below(
        #[trigger] y[a].name@,
        #[trigger] y[b].name@,
    ) by {
        let p = if a < i {
            a
        } else {
            a - 1
        };
        let q = if b < i {
            b
        } else {
            b - 1
        };
        if a == i {
            assert(y[b] == x[b - 1]);
            assert(text_below(e.name@, x[b - 1].name@));
        } else if b == i {
            assert(y[a] == x[a]);
            assert(text_below(x[a].name@, e.name@));
        } else {
            assert(y[a] == x[p]);
            assert(y[b] == x[q]);
            assert(text_below(x[p].name@, x[q].name@));
        }
    }
}

proof fn lemma_payload_len(ts: Seq<NamedTensor>, i: int, n: int)
    requires
        0 <= i <= n <= ts.len(),
    ensures
        begin_of(ts, i) <= begin_of(ts, n),
        payload_of(ts, n as nat).take(begin_of(ts, i)) == payload_of(ts, i as nat),
    decreases n - i,
{
    if i < n {
        lemma_payload_len(ts, i, n - 1);
        let before = payload_of(ts, (n - 1) as nat);
        assert(payload_of(ts, n as nat).take(begin_of(ts, i)) =~= before.take(begin_of(ts, i)));
    } else {
        assert(payload_of(ts, n as nat).take(begin_of(ts, i)) =~= payload_of(ts, i as nat));
    }
}

/// The place of a tensor among all bytes holds the bytes of that tensor.
pub proof fn offsets_delimit_tensor(ts: Seq<NamedTensor>, i: int)
    requires
        0 <= i < ts.len(),
    ensures
        payload_of(ts, ts.len()).subrange(begin_of(ts, i), begin_of(ts, i + 1)) == word_bytes(
            ts[i].bits@,
        ),
        begin_of(ts, i + 1) - begin_of(ts, i) == 4 * ts[i].bits@.len(),
{
    lemma_payload_len(ts, i + 1, ts.len() as int);
    let all = payload_of(ts, ts.len());
    let upto = payload_of(ts, (i + 1) as nat);
    assert(all.take(begin_of(ts, i + 1)) == upto);
    assert(all.subrange(begin_of(ts, i), begin_of(ts, i + 1)) =~= upto.subrange(
        begin_of(ts, i),
        begin_of(ts, i + 1),
    ));
    assert(upto.subrange(begin_of(ts, i), begin_of(ts, i + 1)) =~= word_bytes(ts[i].bits@));
}

fn add_bytes(out: &mut Vec<u8>, w: &Vec<u32>)
    ensures
        final(out)@ == old(out)@ + word_bytes(w@),
{
    let ghost start = out@;
    let mut i: usize = 0;
    assert(start + word_bytes(w@.take(0)) =~= start);
    while i < w.len()
        invariant
            i <= w@.len(),
            out@ == start + word_bytes(w@.take(i as int)),
        decreases w@.len() - i,
    {
        let x: u32 = w[i];
        let ghost before = word_bytes(w@.take(i as int));
        let ghost after = word_bytes(w@.take(i + 1));
        out.push((x % 0x100) as u8);
        out.push((x / 0x100 % 0x100) as u8);
        out.push((x / 0x1_0000 % 0x100) as u8);
        out.push((x / 0x100_0000 % 0x100) as u8);
        proof {
            let n = 4 * i as int;
            assert(before.len() == n && after.len() == n + 4);
            assert forall|j: int| 0 <= j < n implies after[j] == before[j] by {
                assert(j / 4 < i);
                assert(w@.take(i + 1)[j / 4] == w@.take(i as int)[j / 4]);
            }
            assert(after[n] == (x % 0x100) as u8);
            assert(after[n + 1] == (x / 0x100 % 0x100) as u8);
            assert(after[n + 2] == (x / 0x1_0000 % 0x100) as u8);
            assert(after[n + 3] == (x / 0x100_0000 % 0x100) as u8);
            assert(out@ =~= start + after);
        }
        i += 1;
    }
    assert(w@.take(w@.len() as int) =~= w@);
}

/// The bytes of all tensors can be counted.
pub open spec fn payload_fits(ts: Seq<NamedTensor>) -> bool {
    payload_of(ts, ts.len()).len() <= usize::MAX
}

proof fn lemma_entries_step(
    was: Seq<HeaderEntry>,
    now: Seq<HeaderEntry>,
    e: HeaderEntry,
    ts: Seq<NamedTensor>,
    n: int,
)
    requires
        0 <= n < ts.len(),
        entries_ok(was, ts, n),
        entry_of(e, ts, n),
        rising(now),
        now.contains(e),
        forall|k: int|
            0 <= k < now.len() ==> #[trigger] now[k] == e || (was.contains(now[k]) && now[k].name@
                != e.name@),
        forall|k: int|
            0 <= k < was.len() && (#[trigger] was[k]).name@ != e.name@ ==> now.contains(was[k]),
    ensures
        entries_ok(now, ts, n + 1),
{
    assert forall|k: int| 0 <= k < now.len() implies is_entry(#[trigger] now[k], ts, n + 1) by {
        if now[k] == e {
            assert(last_named(ts, n + 1, n) && entry_of(now[k], ts, n));
        } else {
            let q = choose|q: int| 0 <= q < was.len() && was[q] == now[k];
            assert(is_entry(was[q], ts, n));
            lemma_entry_stays(now[k], ts, n);
        }
    }
    assert forall|i: int| #[trigger] last_named(ts, n + 1, i) implies has_entry(now, ts, i) by {
        if i == n {
            let k = choose|k: int| 0 <= k < now.len() && now[k] == e;
            assert(entry_of(now[k], ts, i));
        } else {
            assert(ts[n].name@ != ts[i].name@);
            assert(last_named(ts, n, i));
            assert(has_entry(was, ts, i));
            let q = choose|q: int| 0 <= q < was.len() && entry_of(#[trigger] was[q], ts, i);
            assert(was[q].name@ != e.name@);
            assert(now.contains(was[q]));
            let k = choose|k: int| 0 <= k < now.len() && now[k] == was[q];
            assert(entry_of(now[k], ts, i));
        }
    }
}

proof fn lemma_entry_stays(e: HeaderEntry, ts: Seq<NamedTensor>, n: int)
    requires
        0 <= n < ts.len(),
        is_entry(e, ts, n),
        ts[n].name@ != e.name@,
    ensures
        is_entry(e, ts, n + 1),
{
    let i = choose|i: int| last_named(ts, n, i) && #[trigger] entry_of(e, ts, i);
    assert(last_named(ts, n + 1, i));
    assert(entry_of(e, ts, i));
}

/// The entries of tensors, and their bytes.
pub fn lay_out(ts: &Vec<NamedTensor>) -> (r: (Vec<HeaderEntry>, Vec<u8>))
    requires
        payload_fits(ts@),
    ensures
        entries_ok(r.0@, ts@, ts@.len() as int),
        r.1@ == payload_of(ts@, ts@.len()),
{
    let mut es: Vec<HeaderEntry> = Vec::new();
    let mut payload: Vec<u8> = Vec::new();
    let mut i: usize = 0;
    while i < ts.len()
        invariant
            i <= ts@.len(),
            entries_ok(es@, ts@, i as int),
            payload@ == payload_of(ts@, i as nat),
            payload_fits(ts@),
        decreases ts@.len() - i,
    {
        let ghost was = es@;
        let begin: usize = payload.len();
        add_bytes(&mut payload, &ts[i].bits);
        let end: usize = payload.len();
        let e = HeaderEntry {
            name: chars_of(ts[i].name.as_str()),
            shape: ts[i].shape.clone(),
            begin,
            end,
        };
        assert(entry_of(e, ts@, i as int));
        put_entry(&mut es, e);
        proof {
            lemma_entries_step(was, es@, e, ts@, i as int);
        }
        i += 1;
    }
    (es, payload)
}

/// What is written of an entry.
pub open spec fn entry_text(e: HeaderEntry) -> Seq<char> {
    "\""@ + e.name@ + "\":{\"dtype\":\"F32\",\"shape\":"@ + json_array(e.shape@)
        + ",\"data_offsets\":["@ + decimal(e.begin as nat) + ","@ + decimal(e.end as nat) + "]}"@
}

/// What is written of the first `n` entries, with commas between them.
pub open spec fn entries_text(es: Seq<HeaderEntry>, n: nat) -> Seq<char>
    decreases n,
{
    if n == 0 {
        Seq::empty()
    } else if n == 1 {
        entry_text(es[0])
    } else {
        entries_text(es, (n - 1) as nat) + ","@ + entry_text(es[n - 1])
    }
}

/// The header.
pub open spec fn header_text(es: Seq<HeaderEntry>) -> Seq<char> {
    "{"@ + entries_text(es, es.len()) + "}"@
}

fn add_entry(out: &mut Vec<char>, e: &HeaderEntry)
    ensures
        final(out)@ == old(out)@ + entry_text(*e),
{
    let ghost start = out@;
    push_text(out, "\"");
    push_text(out, string_of(&e.name).as_str());
    push_text(out, "\":{\"dtype\":\"F32\",\"shape\":");
    add_array(out, e.shape.as_slice());
    push_text(out, ",\"data_offsets\":[");
    push_decimal(out, e.begin);
    push_text(out, ",");
    push_decimal(out, e.end);
    push_text(out, "]}");
    assert(out@ =~= start + entry_text(*e));
}

/// Writes the header.
pub fn header_of(es: &Vec<HeaderEntry>) -> (r: String)
    ensures
        r@ == header_text(es@),
{
    let mut out: Vec<char> = chars_of("{");
    let mut i: usize = 0;
    assert(out@ =~= "{"@ + entries_text(es@, 0));
    while i < es.len()
        invariant
            i <= es@.len(),
            out@ == "{"@ + entries_text(es@, i as nat),
        decreases es@.len() - i,
    {
        if i > 0 {
            push_text(&mut out, ",");
        }
        add_entry(&mut out, &es[i]);
        i += 1;
        assert(out@ =~= "{"@ + entries_text(es@, i as nat));
    }
    push_text(&mut out, "}");
    assert(out@ =~= header_text(es@));
    string_of(&out)
}

/// Bytes with blanks behind them, up to a multiple of eight.
pub open spec fn padded_to_eight(b: Seq<u8>) -> Seq<u8> {
    b + Seq::new(((8 - b.len() % 8) % 8) as nat, |i: int| 0x20u8)
}

/// A file: the length of the header, the header, and the bytes of all tensors.
pub open spec fn file_bytes(header: Seq<u8>, payload: Seq<u8>) -> Seq<u8> {
    Seq::new(8, |k: int| le_byte(header.len() as u64, k)) + header + payload
}

fn pad_to_eight(b: &mut Vec<u8>)
    requires
        old(b)@.len() + 8 <= usize::MAX,
    ensures
        final(b)@ == padded_to_eight(old(b)@),
{
    let ghost start = b@;
    let n: usize = (8 - b.len() % 8) % 8;
    let mut i: usize = 0;
    assert(b@ =~= start + Seq::new(0, |i: int| 0x20u8));
    while i < n
        invariant
            i <= n,
            b@ == start + Seq::new(i as nat, |i: int| 0x20u8),
        decreases n - i,
    {
        b.push(0x20);
        i += 1;
        assert(b@ =~= start + Seq::new(i as nat, |i: int| 0x20u8));
    }
}

fn add_all(out: &mut Vec<u8>, b: &Vec<u8>)
    ensures
        final(out)@ == old(out)@ + b@,
{
    let mut i: usize = 0;
    while i < b.len()
        invariant
            i <= b@.len(),
            out@ == old(out)@ + b@.take(i as int),
        decreases b@.len() - i,
    {
        out.push(b[i]);
        assert(out@ =~= old(out)@ + b@.take(i + 1));
        i += 1;
    }
    assert(b@.take(b@.len() as int) =~= b@);
}

fn eight_bytes(x: u64) -> (r: Vec<u8>)
    ensures
        r@ == Seq::new(8, |k: int| le_byte(x, k)),
{
    let r: Vec<u8> = vec![
        (x % 0x100) as u8,
        (x / 0x100 % 0x100) as u8,
        (x / 0x1_0000 % 0x100) as u8,
        (x / 0x100_0000 % 0x100) as u8,
        (x / 0x1_0000_0000 % 0x100) as u8,
        (x / 0x100_0000_0000 % 0x100) as u8,
        (x / 0x1_0000_0000_0000 % 0x100) as u8,
        (x / 0x100_0000_0000_0000 % 0x100) as u8,
    ];
    assert(r@ =~= Seq::new(8, |k: int| le_byte(x, k)));
    r
}

/// The bytes of a file of tensors. Where its header is too long to be counted with what pads it,
/// there is none.
pub fn safetensors(ts: &Vec<NamedTensor>) -> (r: Option<Vec<u8>>)
    requires
        payload_fits(ts@),
    ensures
        exists|es: Seq<HeaderEntry>|
            #[trigger] entries_ok(es, ts@, ts@.len() as int) && match r {
                Some(b) => b@ == file_bytes(
                    padded_to_eight(encode_utf8(header_text(es))),
                    payload_of(ts@, ts@.len()),
                ),
                None => encode_utf8(header_text(es)).len() + 8 > usize::MAX,
            },
{
    let (es, payload) = lay_out(ts);
    assert(entries_ok(es@, ts@, ts@.len() as int));
    let text = header_of(&es);
    let mut header: Vec<u8> = text.as_str().as_bytes_vec();
    if header.len() > usize::MAX - 8 {
        return None;
    }
    pad_to_eight(&mut header);
    let mut out: Vec<u8> = eight_bytes(header.len() as u64);
    add_all(&mut out, &header);
    add_all(&mut out, &payload);
    Some(out)
}

/// The header of a file has a length that is a multiple of eight, which the first eight bytes give,
/// and it comes right behind them.
pub proof fn header_is_found(b: Seq<u8>, payload: Seq<u8>)
    requires
        padded_to_eight(b).len() <= u64::MAX,
    ensures
        ({
            let h = padded_to_eight(b);
            let f = file_bytes(h, payload);
            &&& h.len() % 8 == 0
            &&& f.subrange(8, 8 + h.len() as int) == h
            &&& f.skip(8 + h.len() as int) == payload
            &&& f[0] + 0x100 * f[1] + 0x1_0000 * f[2] + 0x100_0000 * f[3] + 0x1_0000_0000 * f[4]
                + 0x100_0000_0000 * f[5] + 0x1_0000_0000_0000 * f[6] + 0x100_0000_0000_0000 * f[7]
                == h.len()
        }),
{
    let h = padded_to_eight(b);
    let f = file_bytes(h, payload);
    assert(f.subrange(8, 8 + h.len() as int) =~= h);
    assert(f.skip(8 + h.len() as int) =~= payload);
    lemma_le_bytes(h.len() as u64);
}

proof fn lemma_le_bytes(x: u64)
    ensures
        le_byte(x, 0) + 0x100 * le_byte(x, 1) + 0x1_0000 * le_byte(x, 2) + 0x100_0000 * le_byte(x, 3)
            + 0x1_0000_0000 * le_byte(x, 4) + 0x100_0000_0000 * le_byte(x, 5) + 0x1_0000_0000_0000
            * le_byte(x, 6) + 0x100_0000_0000_0000 * le_byte(x, 7) == x,
{
    let x1 = x / 0x100;
    let x2 = x / 0x1_0000;
    let x3 = x / 0x100_0000;
    let x4 = x / 0x1_0000_0000;
    let x5 = x / 0x100_0000_0000;
    let x6 = x / 0x1_0000_0000_0000;
    let x7 = x / 0x100_0000_0000_0000;
    assert(x == 0x100 * x1 + x % 0x100);
    assert(x1 == 0x100 * x2 + x1 % 0x100) by {
        assert(x2 == x1 / 0x100);
    }
    assert(x2 == 0x100 * x3 + x2 % 0x100) by {
        assert(x3 == x2 / 0x100);
    }
    assert(x3 == 0x100 * x4 + x3 % 0x100) by {
        assert(x4 == x3 / 0x100);
    }
    assert(x4 == 0x100 * x5 + x4 % 0x100) by {
        assert(x5 == x4 / 0x100);
    }
    assert(x5 == 0x100 * x6 + x5 % 0x100) by {
        assert(x6 == x5 / 0x100);
    }
    assert(x6 == 0x100 * x7 + x6 % 0x100) by {
        assert(x7 == x6 / 0x100);
    }
    assert(x7 < 0x100);
}

} // verus!
