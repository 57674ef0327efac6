//! Fill-in-the-middle pretraining.
//!
//! A sequence is cut into prefix, middle and suffix and put into one of two orders:
//!
//! - PSM: `<fim_prefix>` prefix `<fim_suffix>` suffix `<fim_middle>` middle
//! - SPM: `<fim_suffix>` suffix `<fim_prefix>` prefix `<fim_middle>` middle
//!
//! The loss counts on the middle alone.
use crate::data::rng::{draw_range, range_draw, xs_step, XorShift64};
use vstd::prelude::*;

verus! {

/// The ids of the four control tokens. They stand at the end of the vocabulary, so that the ids
/// of the other tokens stay as they are.
#[derive(Clone, Copy, Debug)]
pub struct FimTokens {
    pub prefix: usize,
    pub suffix: usize,
    pub middle: usize,
    /// Fills a transformed sequence that is too short.
    pub pad: usize,
}

impl FimTokens {
    /// The control tokens behind a vocabulary of `base_vocab_size` tokens.
    pub fn from_base_vocab(base_vocab_size: usize) -> (r: Self)
        requires
            base_vocab_size + 3 <= usize::MAX,
        ensures
            r.prefix == base_vocab_size,
            r.suffix == base_vocab_size + 1,
            r.middle == base_vocab_size + 2,
            r.pad == base_vocab_size + 3,
    {
        FimTokens {
            prefix: base_vocab_size,
            suffix: base_vocab_size + 1,
            middle: base_vocab_size + 2,
            pad: base_vocab_size + 3,
        }
    }

    /// How many tokens the vocabulary grows by.
    pub fn vocab_overhead() -> (r: usize)
        ensures
            r == 4,
    {
        4
    }
}

/// The rate of one half, on the scale of [`FimConfig::rate`].
pub const HALF_RATE: u64 = 4_503_599_493_152_768;

/// The rate of one half, on the scale of [`FimConfig::spm_rate`].
pub const HALF_SPM_RATE: u32 = 8_388_608;

/// How often sequences are transformed, and how.
#[derive(Clone, Copy, Debug)]
pub struct FimConfig {
    pub tokens: FimTokens,
    /// A sequence is transformed where the upper 53 bits of a draw are below this number.
    pub rate: u64,
    /// A transformed sequence is in the SPM order where the upper 24 bits of a draw of 32 bits
    /// are below this number.
    pub spm_rate: u32,
}

impl FimConfig {
    /// Half of the sequences transformed, half of those in the SPM order.
    pub fn new(base_vocab_size: usize) -> (r: Self)
        requires
            base_vocab_size + 3 <= usize::MAX,
        ensures
            r.tokens.prefix == base_vocab_size,
            r.tokens.suffix == base_vocab_size + 1,
            r.tokens.middle == base_vocab_size + 2,
            r.tokens.pad == base_vocab_size + 3,
            r.rate == HALF_RATE,
            r.spm_rate == HALF_SPM_RATE,
    {
        FimConfig {
            tokens: FimTokens::from_base_vocab(base_vocab_size),
            rate: HALF_RATE,
            spm_rate: HALF_SPM_RATE,
        }
    }

    pub fn with_rate(self, rate: u64) -> (r: Self)
        ensures
            r == (FimConfig { rate, ..self }),
    {
        FimConfig { tokens: self.tokens, rate, spm_rate: self.spm_rate }
    }

    pub fn with_spm_rate(self, spm_rate: u32) -> (r: Self)
        ensures
            r == (FimConfig { spm_rate, ..self }),
    {
        FimConfig { tokens: self.tokens, rate: self.rate, spm_rate }
    }

    /// The size of the vocabulary with the control tokens.
    pub fn full_vocab_size(&self, base: usize) -> (r: usize)
        requires
            base + 4 <= usize::MAX,
        ensures
            r == base + 4,
    {
        base + FimTokens::vocab_overhead()
    }
}

/// A token, and whether the loss counts on it.
pub type Marked = (usize, bool);

/// The tokens `s`, all marked alike.
pub open spec fn marked(s: Seq<usize>, m: bool) -> Seq<Marked> {
    s.map_values(|t: usize| (t, m))
}

/// `tokens`, cut at `lo` and `hi`, in PSM or SPM order.
pub open spec fn fim_order(
    tokens: Seq<usize>,
    ids: FimTokens,
    lo: int,
    hi: int,
    use_spm: bool,
) -> Seq<Marked> {
    let prefix = seq![(ids.prefix, false)] + marked(tokens.take(lo), false);
    let suffix = seq![(ids.suffix, false)] + marked(tokens.skip(hi), false);
    let middle = seq![(ids.middle, false)] + marked(tokens.subrange(lo, hi), true);
    if use_spm {
        suffix + prefix + middle
    } else {
        prefix + suffix + middle
    }
}

/// `s` cut off, or filled up with `pad`, to the length `n`.
pub open spec fn fit(s: Seq<Marked>, n: nat, pad: Marked) -> Seq<Marked> {
    Seq::new(
        n,
        |i: int|
            if i < s.len() {
                s[i]
            } else {
                pad
            },
    )
}

/// The transformed sequence: too short a one has no middle, is only brought to length, and counts
/// nowhere.
pub open spec fn fim_result(
    tokens: Seq<usize>,
    ids: FimTokens,
    lo: int,
    hi: int,
    use_spm: bool,
    seq_len: nat,
) -> Seq<Marked> {
    if tokens.len() < 4 {
        fit(marked(tokens, false), seq_len, (ids.pad, false))
    } else {
        fit(fim_order(tokens, ids, lo, hi, use_spm), seq_len, (ids.pad, false))
    }
}

/// Tokens and marks side by side.
pub open spec fn zipped(tokens: Seq<usize>, mask: Seq<bool>) -> Seq<Marked> {
    Seq::new(tokens.len(), |i: int| (tokens[i], mask[i]))
}

fn push_marked(out: &mut Vec<usize>, mask: &mut Vec<bool>, token: usize, m: bool)
    requires
        old(out)@.len() == old(mask)@.len(),
    ensures
        final(out)@.len() == final(mask)@.len(),
        zipped(final(out)@, final(mask)@) == zipped(old(out)@, old(mask)@).push((token, m)),
{
    out.push(token);
    mask.push(m);
    assert(zipped(out@, mask@) =~= zipped(old(out)@, old(mask)@).push((token, m)));
}

fn push_slice(
    out: &mut Vec<usize>,
    mask: &mut Vec<bool>,
    tokens: &[usize],
    from: usize,
    to: usize,
    m: bool,
)
    requires
        old(out)@.len() == old(mask)@.len(),
        from <= to <= tokens@.len(),
    ensures
        final(out)@.len() == final(mask)@.len(),
        zipped(final(out)@, final(mask)@) == zipped(old(out)@, old(mask)@) + marked(
            tokens@.subrange(from as int, to as int),
            m,
        ),
{
    let ghost part = marked(tokens@.subrange(from as int, to as int), m);
    let ghost start = zipped(out@, mask@);
    let mut i: usize = from;
    assert(start + part.take(0) == start);
    while i < to
        invariant
            from <= i <= to,
            to <= tokens@.len(),
            out@.len() == mask@.len(),
            part == marked(tokens@.subrange(from as int, to as int), m),
            zipped(out@, mask@) == start + part.take(i - from),
        decreases to - i,
    {
        push_marked(out, mask, tokens[i], m);
        assert(start + part.take(i - from + 1) == (start + part.take(i - from)).push(
            part[i - from],
        ));
        i += 1;
    }
    assert(part.take(part.len() as int) == part);
}

/// Brings a sequence into fill-in-the-middle order, cut at `lo` and `hi`. Returns `seq_len`
/// tokens, and for each whether the loss counts on it. The cuts do not matter where the sequence
/// has fewer than four tokens.
pub fn apply_fim_at(
    tokens: &[usize],
    ids: &FimTokens,
    lo: usize,
    hi: usize,
    use_spm: bool,
    seq_len: usize,
) -> (r: (Vec<usize>, Vec<bool>))
    requires
        tokens@.len() >= 4 ==> lo <= hi <= tokens@.len(),
    ensures
        r.0@.len() == seq_len,
        r.1@.len() == seq_len,
        zipped(r.0@, r.1@) == fim_result(
            tokens@,
            *ids,
            lo as int,
            hi as int,
            use_spm,
            seq_len as nat,
        ),
{
    let n: usize = tokens.len();
    let ghost empty = Seq::<Marked>::empty();
    let mut out: Vec<usize> = Vec::new();
    let mut mask: Vec<bool> = Vec::new();
    assert(zipped(out@, mask@) == empty);
    if n < 4 {
        push_slice(&mut out, &mut mask, tokens, 0, n, false);
        assert(tokens@.subrange(0, n as int) == tokens@);
        assert(empty + marked(tokens@, false) == marked(tokens@, false));
        out.resize(seq_len, ids.pad);
        mask.resize(seq_len, false);
        proof {
            let s = marked(tokens@, false);
            let f = fit(s, seq_len as nat, (ids.pad, false));
            assert(zipped(out@, mask@).len() == f.len());
            assert forall|i: int| 0 <= i < f.len() implies zipped(out@, mask@)[i] == f[i] by {
                if i < n {
                    assert(s[i] == (tokens@[i], false));
                }
            }
            assert(zipped(out@, mask@) == f);
        }
        return (out, mask);
    }
    if use_spm {
        push_marked(&mut out, &mut mask, ids.suffix, false);
        push_slice(&mut out, &mut mask, tokens, hi, n, false);
        push_marked(&mut out, &mut mask, ids.prefix, false);
        push_slice(&mut out, &mut mask, tokens, 0, lo, false);
    } else {
        push_marked(&mut out, &mut mask, ids.prefix, false);
        push_slice(&mut out, &mut mask, tokens, 0, lo, false);
        push_marked(&mut out, &mut mask, ids.suffix, false);
        push_slice(&mut out, &mut mask, tokens, hi, n, false);
    }
    push_marked(&mut out, &mut mask, ids.middle, false);
    push_slice(&mut out, &mut mask, tokens, lo, hi, true);
    let ghost full = fim_order(tokens@, *ids, lo as int, hi as int, use_spm);
    proof {
        assert(tokens@.subrange(0, lo as int) == tokens@.take(lo as int));
        assert(tokens@.subrange(hi as int, n as int) == tokens@.skip(hi as int));
        assert(zipped(out@, mask@) == full);
    }
    let ghost all_out = out@;
    let ghost all_mask = mask@;
    out.truncate(seq_len);
    mask.truncate(seq_len);
    let ghost pad = (ids.pad, false);
    let ghost goal = fit(full, seq_len as nat, pad);
    assert forall|i: int| 0 <= i < out@.len() implies (out@[i], mask@[i]) == #[trigger] goal[i] by {
        assert(zipped(all_out, all_mask)[i] == full[i]);
    }
    while out.len() < seq_len
        invariant
            out@.len() <= seq_len,
            out@.len() == mask@.len(),
            goal == fit(full, seq_len as nat, pad),
            pad == (ids.pad, false),
            out@.len() < seq_len ==> out@.len() >= full.len(),
            forall|i: int| 0 <= i < out@.len() ==> (out@[i], mask@[i]) == #[trigger] goal[i],
        decreases seq_len - out@.len(),
    {
        out.push(ids.pad);
        mask.push(false);
    }
    assert(zipped(out@, mask@) =~= goal);
    (out, mask)
}

/// The cuts, the order and the generator's state that follow from the state `s` for a sequence of
/// `n` tokens: two draws between the tokens, then one for the order.
pub open spec fn fim_draws(s: u64, n: u64, spm_rate: u32) -> (u64, u64, bool, u64) {
    let (lo, s1) = range_draw(s, 1, (n - 2) as u64);
    let (hi, s2) = range_draw(s1, (lo + 1) as u64, (n - 1) as u64);
    let s3 = xs_step(s2);
    (lo, hi, (s3 as u32 >> 8u32) < spm_rate, s3)
}

/// Brings a sequence into fill-in-the-middle order, with cuts and order drawn from `rng`.
/// Returns `seq_len` tokens, and for each whether the loss counts on it.
pub fn apply_fim(
    tokens: &[usize],
    config: &FimConfig,
    rng: &mut XorShift64,
    seq_len: usize,
) -> (r: (Vec<usize>, Vec<bool>))
    ensures
        r.0@.len() == seq_len,
        r.1@.len() == seq_len,
        tokens@.len() < 4 ==> final(rng).state == old(rng).state && zipped(r.0@, r.1@) == fim_result(
            tokens@,
            config.tokens,
            0,
            0,
            false,
            seq_len as nat,
        ),
        tokens@.len() >= 4 ==> ({
            let d = fim_draws(old(rng).state, tokens@.len() as u64, config.spm_rate);
            &&& final(rng).state == d.3
            &&& 0 < d.0 < d.1 < tokens@.len() - 1
            &&& zipped(r.0@, r.1@) == fim_result(
                tokens@,
                config.tokens,
                d.0 as int,
                d.1 as int,
                d.2,
                seq_len as nat,
            )
        }),
{
    let n: usize = tokens.len();
    if n < 4 {
        return apply_fim_at(tokens, &config.tokens, 0, 0, false, seq_len);
    }
    let lo: u64 = draw_range(rng, 1, n as u64 - 2);
    let hi: u64 = draw_range(rng, lo + 1, n as u64 - 1);
    let draw: u32 = rng.step() as u32;
    let use_spm: bool = (draw >> 8u32) < config.spm_rate;
    apply_fim_at(tokens, &config.tokens, lo as usize, hi as usize, use_spm, seq_len)
}

/// The target that the loss skips.
pub const IGNORE_INDEX: usize = usize::MAX;

/// The targets `y`, with those that do not count replaced by [`IGNORE_INDEX`].
pub fn mask_targets(y: &[usize], mask: &[bool]) -> (r: Vec<usize>)
    ensures
        r@.len() == if y@.len() < mask@.len() {
            y@.len()
        } else {
            mask@.len()
        },
        forall|i: int|
            0 <= i < r@.len() ==> #[trigger] r@[i] == if mask@[i] {
                y@[i]
            } else {
                IGNORE_INDEX
            },
{
    let mut r: Vec<usize> = Vec::new();
    let mut i: usize = 0;
    while i < y.len() && i < mask.len()
        invariant
            i <= y@.len(),
            i <= mask@.len(),
            r@.len() == i,
            forall|j: int|
                0 <= j < i ==> #[trigger] r@[j] == if mask@[j] {
                    y@[j]
                } else {
                    IGNORE_INDEX
                },
        decreases y@.len() - i,
    {
        r.push(
            if mask[i] {
                y[i]
            } else {
                IGNORE_INDEX
            },
        );
        i += 1;
    }
    r
}

/// The tokens of a transformed sequence, put back into their first order.
pub open spec fn fim_restored(
    s: Seq<Marked>,
    n: int,
    lo: int,
    hi: int,
    use_spm: bool,
) -> Seq<usize> {
    let t = s.map_values(|m: Marked| m.0);
    let (p, q) = if use_spm {
        (n - hi + 2, 1int)
    } else {
        (1int, lo + 2)
    };
    t.subrange(p, p + lo) + t.subrange(n - hi + lo + 3, n + 3) + t.subrange(q, q + n - hi)
}

/// The transformation loses nothing: from the whole of its result the sequence can be put together
/// again, and the loss counts exactly on the middle.
pub proof fn fim_keeps_tokens(
    tokens: Seq<usize>,
    ids: FimTokens,
    lo: int,
    hi: int,
    use_spm: bool,
    seq_len: nat,
)
    requires
        tokens.len() >= 4,
        0 <= lo <= hi <= tokens.len(),
        seq_len >= tokens.len() + 3,
    ensures
        ({
            let n = tokens.len() as int;
            let r = fim_result(tokens, ids, lo, hi, use_spm, seq_len);
            &&& fim_restored(r, n, lo, hi, use_spm) == tokens
            &&& forall|i: int|
                0 <= i < seq_len ==> (#[trigger] r[i]).1 == (n - (hi - lo) + 3 <= i < n + 3)
        }),
{
    let n = tokens.len() as int;
    let r = fim_result(tokens, ids, lo, hi, use_spm, seq_len);
    let full = fim_order(tokens, ids, lo, hi, use_spm);
    assert(full.len() == n + 3);
    let t = r.map_values(|m: Marked| m.0);
    let back = fim_restored(r, n, lo, hi, use_spm);
    assert(back.len() == n);
    assert forall|i: int| 0 <= i < n implies back[i] == tokens[i] by {
        if i < lo {
            assert(tokens.take(lo)[i] == tokens[i]);
        } else if i < hi {
            assert(tokens.subrange(lo, hi)[i - lo] == tokens[i]);
        } else {
            assert(tokens.skip(hi)[i - hi] == tokens[i]);
        }
    }
    assert(back == tokens);
}

/// The loss counts on middle tokens alone, also where the result has been cut off: on what stands
/// behind the control token of the middle, and on no padding. A sequence too short to have a middle
/// counts nowhere.
pub proof fn fim_loss_on_middle_only(
    tokens: Seq<usize>,
    ids: FimTokens,
    lo: int,
    hi: int,
    use_spm: bool,
    seq_len: nat,
    i: int,
)
    requires
        tokens.len() >= 4 ==> 0 <= lo <= hi <= tokens.len(),
        0 <= i < seq_len,
    ensures
        ({
            let start = tokens.len() - (hi - lo) + 3;
            let r = fim_result(tokens, ids, lo, hi, use_spm, seq_len);
            &&& r[i].1 <==> tokens.len() >= 4 && start <= i < tokens.len() + 3
            &&& r[i].1 ==> r[i].0 == tokens[lo + i - start] && 0 < start && r[start - 1].0
                == ids.middle
        }),
{
    if tokens.len() >= 4 {
        let full = fim_order(tokens, ids, lo, hi, use_spm);
        assert(full.len() == tokens.len() + 3);
    }
}

} // verus!
