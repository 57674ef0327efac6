//! Batches of training sequences, from binary token files and from lines of text.
use crate::data::fim::{
    apply_fim, fim_draws, fim_loss_on_middle_only, fim_result, mask_targets, zipped, FimConfig,
    FimTokens, Marked, IGNORE_INDEX,
};
use crate::data::rng::{xs_step, XorShift64};
use crate::data::text::{chars_of, scan_terminates};
use crate::data::tokenizer::BPETokenizer;
use crate::data::tokenizer_file::{is_white, white};
use crate::graph::index::{lemma_cell, lemma_uncell};
use vstd::prelude::*;

verus! {

/// A batch: token ids, the ids that should follow them, and whether some of those do not count.
pub struct BatchResult {
    pub x: Vec<usize>,
    /// Next-token ids, or [`IGNORE_INDEX`] where the loss does not count.
    pub targets: Vec<usize>,
    pub has_masked: bool,
}

/// Tokens read from a binary file, handed out in batches and transformed on the way where
/// fill-in-the-middle is enabled.
pub struct BinaryDataLoader {
    pub seq_len: usize,
    pub batch_size: usize,
    pub buffer: Vec<usize>,
    pub total_batches: usize,
    pub fim: Option<FimConfig>,
    pub rng: XorShift64,
}

/// Tokens and targets of one sequence, whether it has been transformed, and the generator's state
/// after it.
pub struct Row {
    pub x: Seq<usize>,
    pub y: Seq<usize>,
    pub masked: bool,
    pub state: u64,
}

/// The target at position `i` of a transformed sequence: the token that follows, where there is one
/// and the loss counts on it.
pub open spec fn fim_target(r: Seq<Marked>, i: int) -> usize {
    if i + 1 < r.len() && r[i + 1].1 {
        r[i + 1].0
    } else {
        IGNORE_INDEX
    }
}

/// One transformed sequence.
pub open spec fn fim_row(raw_x: Seq<usize>, fim: FimConfig, state: u64) -> Row {
    let d = fim_draws(state, raw_x.len() as u64, fim.spm_rate);
    let r = if raw_x.len() < 4 {
        fim_result(raw_x, fim.tokens, 0, 0, false, raw_x.len())
    } else {
        fim_result(raw_x, fim.tokens, d.0 as int, d.1 as int, d.2, raw_x.len())
    };
    Row {
        x: r.map_values(|m: Marked| m.0),
        y: Seq::new(r.len(), |i: int| fim_target(r, i)),
        masked: true,
        state: if raw_x.len() < 4 {
            state
        } else {
            d.3
        },
    }
}

/// One sequence of a batch, from the `seq_len + 1` tokens `raw`.
pub open spec fn batch_row(raw: Seq<usize>, fim: Option<FimConfig>, state: u64) -> Row {
    let s = xs_step(state);
    let plain = Row { x: raw.drop_last(), y: raw.skip(1), masked: false, state: s };
    match fim {
        Some(c) => if (s >> 11u64) < c.rate {
            fim_row(raw.drop_last(), c, s)
        } else {
            plain
        },
        None => plain,
    }
}

/// The first `n` sequences of a batch, one behind the other.
pub open spec fn batch_rows(
    buffer: Seq<usize>,
    seq_len: int,
    fim: Option<FimConfig>,
    state: u64,
    n: nat,
) -> Row
    decreases n,
{
    if n == 0 {
        Row { x: Seq::empty(), y: Seq::empty(), masked: false, state }
    } else {
        let before = batch_rows(buffer, seq_len, fim, state, (n - 1) as nat);
        let start = (n - 1) * (seq_len + 1);
        let row = batch_row(buffer.subrange(start, start + seq_len + 1), fim, before.state);
        Row {
            x: before.x + row.x,
            y: before.y + row.y,
            masked: before.masked || row.masked,
            state: row.state,
        }
    }
}

/// The 16-bit numbers in `bytes`, low byte first; an odd byte at the end is dropped.
pub open spec fn u16s(bytes: Seq<u8>) -> Seq<usize> {
    Seq::new(
        bytes.len() / 2,
        |i: int| (bytes[2 * i] as int + 256 * bytes[2 * i + 1] as int) as usize,
    )
}

impl BinaryDataLoader {
    /// The tokens that one batch takes.
    pub open spec fn needed(&self) -> int {
        self.batch_size * (self.seq_len + 1)
    }

    /// A batch is not empty, and its size can be counted.
    pub open spec fn wf(&self) -> bool {
        0 < self.needed() <= usize::MAX
    }

    /// A loader for a file of `file_size` bytes.
    pub fn new(file_size: usize, seq_len: usize, batch_size: usize) -> (r: Self)
        requires
            0 < batch_size * (seq_len + 1) <= usize::MAX,
        ensures
            r.wf(),
            r.seq_len == seq_len,
            r.batch_size == batch_size,
            r.buffer@.len() == 0,
            r.total_batches == (file_size as int / 2) / (batch_size * (seq_len + 1)),
            r.fim is None,
            r.rng.state == 1337,
    {
        let total_tokens: usize = file_size / 2;
        proof {
            lemma_row_fits(seq_len, batch_size);
        }
        let tokens_per_batch: usize = batch_size * (seq_len + 1);
        BinaryDataLoader {
            seq_len,
            batch_size,
            buffer: Vec::new(),
            total_batches: total_tokens / tokens_per_batch,
            fim: None,
            rng: XorShift64 { state: 1337 },
        }
    }

    /// Enables fill-in-the-middle.
    pub fn with_fim(self, config: FimConfig) -> (r: Self)
        ensures
            r == (BinaryDataLoader { fim: Some(config), ..self }),
    {
        let mut s = self;
        s.fim = Some(config);
        s
    }

    /// Sets the state of the generator.
    pub fn with_seed(self, seed: u64) -> (r: Self)
        ensures
            r == (BinaryDataLoader { rng: XorShift64 { state: seed }, ..self }),
    {
        let mut s = self;
        s.rng = XorShift64 { state: seed };
        s
    }

    pub fn total_batches(&self) -> (r: usize)
        ensures
            r == self.total_batches,
    {
        self.total_batches
    }

    /// How many bytes to read before the next batch, where the buffer does not hold one: as many
    /// as a hundred batches take.
    pub fn bytes_wanted(&self) -> (r: Option<usize>)
        requires
            self.wf(),
            self.buffer@.len() < self.needed() ==> self.needed() * 200 <= usize::MAX,
        ensures
            r == (if self.buffer@.len() < self.needed() {
                Some((self.needed() * 200) as usize)
            } else {
                None
            }),
    {
        proof {
            lemma_row_fits(self.seq_len, self.batch_size);
        }
        let tokens_needed: usize = self.batch_size * (self.seq_len + 1);
        if self.buffer.len() < tokens_needed {
            Some(tokens_needed * 100 * 2)
        } else {
            None
        }
    }

    /// Adds the tokens that `bytes` hold.
    pub fn feed(&mut self, bytes: &[u8])
        ensures
            *final(self) == (BinaryDataLoader { buffer: final(self).buffer, ..*old(self) }),
            final(self).buffer@ == old(self).buffer@ + u16s(bytes@),
    {
        let ghost new_tokens = u16s(bytes@);
        let size: usize = bytes.len();
        let n: usize = size / 2;
        let mut i: usize = 0;
        assert(self.buffer@ + new_tokens.take(0) == self.buffer@);
        while i < n
            invariant
                i <= n,
                n == size / 2,
                size == bytes@.len(),
                new_tokens == u16s(bytes@),
                *self == (BinaryDataLoader { buffer: self.buffer, ..*old(self) }),
                self.buffer@ == old(self).buffer@ + new_tokens.take(i as int),
            decreases n - i,
        {
            let lo: usize = bytes[2 * i] as usize;
            let hi: usize = bytes[2 * i + 1] as usize;
            assert(new_tokens.take(i + 1) == new_tokens.take(i as int).push(new_tokens[i as int]));
            self.buffer.push(lo + 256 * hi);
            i += 1;
        }
        assert(new_tokens.take(n as int) == new_tokens);
    }

    /// The next batch, where the buffer holds one.
    pub fn next_batch(&mut self) -> (r: Option<BatchResult>)
        requires
            old(self).wf(),
            old(self).seq_len > 0 || old(self).fim is None || (old(self).fim->0).rate == 0,
        ensures
            final(self).wf(),
            match r {
                None => old(self).buffer@.len() < old(self).needed() && *final(self) == *old(self),
                Some(b) => {
                    let rows = batch_rows(
                        old(self).buffer@,
                        old(self).seq_len as int,
                        old(self).fim,
                        old(self).rng.state,
                        old(self).batch_size as nat,
                    );
                    &&& old(self).buffer@.len() >= old(self).needed()
                    &&& b.x@ == rows.x
                    &&& b.targets@ == rows.y
                    &&& b.has_masked == rows.masked
                    &&& final(self).rng.state == rows.state
                    &&& final(self).buffer@ == old(self).buffer@.skip(old(self).needed())
                    &&& final(self).seq_len == old(self).seq_len
                    &&& final(self).batch_size == old(self).batch_size
                    &&& final(self).total_batches == old(self).total_batches
                    &&& final(self).fim == old(self).fim
                },
            },
    {
        proof {
            lemma_row_fits(self.seq_len, self.batch_size);
        }
        let tokens_needed: usize = self.batch_size * (self.seq_len + 1);
        if self.buffer.len() < tokens_needed {
            return None;
        }
        let ghost o = *self;
        let n: usize = self.batch_size;
        let len: usize = self.seq_len;
        let mut x: Vec<usize> = Vec::new();
        let mut targets: Vec<usize> = Vec::new();
        let mut has_masked: bool = false;
        let mut b: usize = 0;
        while b < n
            invariant
                b <= n,
                n == o.batch_size,
                len == o.seq_len,
                o.wf(),
                o.buffer@.len() >= o.needed(),
                len > 0 || o.fim is None || (o.fim->0).rate == 0,
                self.buffer == o.buffer,
                self.seq_len == o.seq_len,
                self.batch_size == o.batch_size,
                self.total_batches == o.total_batches,
                self.fim == o.fim,
                ({
                    let rows = batch_rows(o.buffer@, len as int, o.fim, o.rng.state, b as nat);
                    &&& x@ == rows.x
                    &&& targets@ == rows.y
                    &&& has_masked == rows.masked
                    &&& self.rng.state == rows.state
                }),
            decreases n - b,
        {
            proof {
                lemma_row_fits(len, n);
                lemma_row_start(len as int, n as int, b as int);
            }
            let start: usize = b * (len + 1);
            let ghost raw = o.buffer@.subrange(start as int, start + len + 1);
            let draw: u64 = self.rng.step();
            let shift: u64 = draw >> 11u64;
            let transform: Option<FimConfig> = match &self.fim {
                Some(c) => if shift < c.rate {
                    Some(*c)
                } else {
                    None
                },
                None => None,
            };
            let (row_x, row_y) = self.row(start, transform);
            if transform.is_some() {
                has_masked = true;
            }
            proof {
                let row = batch_row(raw, o.fim, batch_rows(o.buffer@, len as int, o.fim, o.rng.state, b as nat).state);
                assert(row_x@ == row.x);
                assert(row_y@ == row.y);
            }
            x.extend_from_slice(row_x.as_slice());
            targets.extend_from_slice(row_y.as_slice());
            b += 1;
        }
        self.drop_front(tokens_needed);
        Some(BatchResult { x, targets, has_masked })
    }

    /// Tokens and targets of the sequence at `start`, transformed where a configuration is given.
    fn row(&mut self, start: usize, transform: Option<FimConfig>) -> (r: (Vec<usize>, Vec<usize>))
        requires
            start + old(self).seq_len + 1 <= old(self).buffer@.len(),
            transform is Some ==> old(self).seq_len > 0,
        ensures
            *final(self) == (BinaryDataLoader { rng: final(self).rng, ..*old(self) }),
            ({
                let raw = old(self).buffer@.subrange(
                    start as int,
                    start + old(self).seq_len + 1,
                );
                match transform {
                    None => r.0@ == raw.drop_last() && r.1@ == raw.skip(1) && final(self).rng == old(
                        self,
                    ).rng,
                    Some(c) => {
                        let row = fim_row(raw.drop_last(), c, old(self).rng.state);
                        r.0@ == row.x && r.1@ == row.y && final(self).rng.state == row.state
                    },
                }
            }),
    {
        let len: usize = self.seq_len;
        let ghost raw = self.buffer@.subrange(start as int, start + len + 1);
        assert(self.buffer@.len() == self.buffer.len());
        let raw_x = copy_range(&self.buffer, start, start + len);
        assert(raw_x@ == raw.drop_last());
        match transform {
            None => {
                let raw_y = copy_range(&self.buffer, start + 1, start + len + 1);
                assert(raw_y@ == raw.skip(1));
                (raw_x, raw_y)
            },
            Some(c) => {
                let (fx, mask) = apply_fim(raw_x.as_slice(), &c, &mut self.rng, len);
                let ghost marks = mask@;
                let mut fy = copy_range(&fx, 1, fx.len());
                fy.push(IGNORE_INDEX);
                let mut follows = mask;
                let _ = follows.remove(0);
                follows.push(false);
                let masked_y = mask_targets(fy.as_slice(), follows.as_slice());
                proof {
                    let row = fim_row(raw.drop_last(), c, old(self).rng.state);
                    let z = zipped(fx@, marks);
                    assert(fx@ =~= z.map_values(|m: Marked| m.0));
                    assert(masked_y@ =~= Seq::new(z.len(), |i: int| fim_target(z, i)));
                }
                (fx, masked_y)
            },
        }
    }

    /// Drops the first `n` tokens of the buffer.
    fn drop_front(&mut self, n: usize)
        requires
            n <= old(self).buffer@.len(),
        ensures
            *final(self) == (BinaryDataLoader { buffer: final(self).buffer, ..*old(self) }),
            final(self).buffer@ == old(self).buffer@.skip(n as int),
    {
        let rest = copy_range(&self.buffer, n, self.buffer.len());
        assert(rest@ == self.buffer@.skip(n as int));
        self.buffer = rest;
    }

    /// Forgets the tokens read so far.
    pub fn reset(&mut self)
        ensures
            *final(self) == (BinaryDataLoader { buffer: final(self).buffer, ..*old(self) }),
            final(self).buffer@.len() == 0,
    {
        self.buffer = Vec::new();
    }
}

proof fn lemma_row_fits(seq_len: usize, batch_size: usize)
    requires
        0 < batch_size * (seq_len + 1) <= usize::MAX,
    ensures
        seq_len + 1 <= usize::MAX,
        batch_size > 0,
{
    assert(batch_size > 0 && seq_len + 1 <= batch_size * (seq_len + 1)) by (nonlinear_arith)
        requires
            0 < batch_size * (seq_len + 1),
            seq_len >= 0,
            batch_size >= 0,
    ;
}

proof fn lemma_row_start(len: int, n: int, b: int)
    requires
        0 <= b < n,
        len >= 0,
    ensures
        b * (len + 1) + len + 1 <= n * (len + 1),
        0 <= b * (len + 1),
{
    assert(b * (len + 1) + (len + 1) == (b + 1) * (len + 1)) by (nonlinear_arith);
    assert((b + 1) * (len + 1) <= n * (len + 1)) by (nonlinear_arith)
        requires
            b + 1 <= n,
            len >= 0,
    ;
    assert(0 <= b * (len + 1)) by (nonlinear_arith)
        requires
            0 <= b,
            len >= 0,
    ;
}

fn copy_range(v: &Vec<usize>, from: usize, to: usize) -> (r: Vec<usize>)
    requires
        from <= to <= v@.len(),
    ensures
        r@ == v@.subrange(from as int, to as int),
{
    let mut r: Vec<usize> = Vec::new();
    let mut i: usize = from;
    while i < to
        invariant
            from <= i <= to,
            to <= v@.len(),
            r@ == v@.subrange(from as int, i as int),
        decreases to - i,
    {
        r.push(v[i]);
        i += 1;
        assert(v@.subrange(from as int, i as int)
            == v@.subrange(from as int, i - 1).push(v@[i - 1]));
    }
    r
}

/// Token windows that slide over the lines of a text by one token, gathered into batches.
pub struct StreamingDataLoader {
    pub seq_len: usize,
    pub batch_size: usize,
    pub token_buffer: Vec<usize>,
    pub current_x: Vec<usize>,
    pub current_y: Vec<usize>,
}

/// Tokens and targets of a batch.
pub type Batch = (Seq<usize>, Seq<usize>);

/// The state of a streaming loader, and the batches that it has finished.
pub struct Stream {
    pub seq_len: usize,
    pub batch_size: usize,
    pub buffer: Seq<usize>,
    pub x: Seq<usize>,
    pub y: Seq<usize>,
    pub batches: Seq<Batch>,
}

/// One window taken from the front of the buffer; a full batch is finished.
pub open spec fn stream_step(s: Stream) -> Stream {
    let x = s.x + s.buffer.take(s.seq_len as int);
    let y = s.y + s.buffer.subrange(1, s.seq_len + 1);
    if x.len() == s.batch_size * s.seq_len {
        Stream {
            buffer: s.buffer.skip(1),
            x: Seq::empty(),
            y: Seq::empty(),
            batches: s.batches.push((x, y)),
            ..s
        }
    } else {
        Stream { buffer: s.buffer.skip(1), x, y, ..s }
    }
}

/// Windows taken for as long as the buffer holds more tokens than a window.
pub open spec fn stream_run(s: Stream) -> Stream
    decreases s.buffer.len(),
{
    if s.buffer.len() > s.seq_len {
        stream_run(stream_step(s))
    } else {
        s
    }
}

/// A stream with further tokens at the end of its buffer, and all windows taken.
pub open spec fn fed(s: Stream, tokens: Seq<usize>) -> Stream {
    stream_run(Stream { buffer: s.buffer + tokens, ..s })
}

/// The batches as sequences.
pub open spec fn batch_views(v: Seq<(Vec<usize>, Vec<usize>)>) -> Seq<Batch> {
    v.map_values(|b: (Vec<usize>, Vec<usize>)| (b.0@, b.1@))
}

/// Whether `t` holds nothing but white space.
pub open spec fn is_blank(t: Seq<char>) -> bool {
    forall|i: int| 0 <= i < t.len() ==> is_white(#[trigger] t[i])
}

/// Whether a line holds nothing but white space.
pub fn blank(line: &str) -> (r: bool)
    ensures
        r == is_blank(line@),
{
    let t = chars_of(line);
    let mut i: usize = 0;
    while i < t.len()
        invariant
            i <= t@.len(),
            t@ == line@,
            forall|j: int| 0 <= j < i ==> is_white(#[trigger] t@[j]),
        decreases t@.len() - i,
    {
        if !white(t[i]) {
            return false;
        }
        i += 1;
    }
    true
}

impl StreamingDataLoader {
    pub open spec fn stream(&self) -> Stream {
        Stream {
            seq_len: self.seq_len,
            batch_size: self.batch_size,
            buffer: self.token_buffer@,
            x: self.current_x@,
            y: self.current_y@,
            batches: Seq::empty(),
        }
    }

    /// The size of a batch can be counted, and tokens and targets go together.
    pub open spec fn wf(&self) -> bool {
        &&& self.batch_size * self.seq_len <= usize::MAX
        &&& self.current_x@.len() == self.current_y@.len()
    }

    pub fn new(seq_len: usize, batch_size: usize) -> (r: Self)
        requires
            batch_size * seq_len <= usize::MAX,
        ensures
            r.wf(),
            r.seq_len == seq_len,
            r.batch_size == batch_size,
            r.stream() == fed_lines(seq_len, batch_size, Seq::empty()),
    {
        let r = StreamingDataLoader {
            seq_len,
            batch_size,
            token_buffer: Vec::new(),
            current_x: Vec::new(),
            current_y: Vec::new(),
        };
        proof {
            assert(r.token_buffer@ =~= Seq::empty());
            assert(r.current_x@ =~= Seq::empty());
            assert(r.current_y@ =~= Seq::empty());
        }
        r
    }

    /// Takes in the tokens of a further line, and returns the batches that they finish.
    pub fn push_tokens(&mut self, tokens: &[usize]) -> (r: Vec<(Vec<usize>, Vec<usize>)>)
        requires
            old(self).wf(),
        ensures
            final(self).wf(),
            (Stream { batches: batch_views(r@), ..final(self).stream() }) == fed(
                old(self).stream(),
                tokens@,
            ),
    {
        let len: usize = self.seq_len;
        let size: usize = self.batch_size * len;
        self.token_buffer.extend_from_slice(tokens);
        let mut r: Vec<(Vec<usize>, Vec<usize>)> = Vec::new();
        let ghost s0 = Stream {
            buffer: old(self).token_buffer@ + tokens@,
            ..old(self).stream()
        };
        let ghost goal = stream_run(s0);
        assert(batch_views(r@) == Seq::<Batch>::empty());
        assert(self.token_buffer@ =~= s0.buffer);
        let mut at: usize = 0;
        let n: usize = self.token_buffer.len();
        let ghost buf = self.token_buffer@;
        assert(buf.skip(0) == buf);
        while n - at > len
            invariant
                at <= n,
                n == buf.len(),
                self.token_buffer@ == buf,
                len == self.seq_len,
                self.seq_len == old(self).seq_len,
                self.batch_size == old(self).batch_size,
                size == self.batch_size * len,
                self.wf(),
                stream_run(
                    Stream {
                        buffer: buf.skip(at as int),
                        x: self.current_x@,
                        y: self.current_y@,
                        batches: batch_views(r@),
                        ..s0
                    },
                ) == goal,
                s0.seq_len == len,
                s0.batch_size == self.batch_size,
            decreases n - at,
        {
            let ghost cur = Stream {
                buffer: buf.skip(at as int),
                x: self.current_x@,
                y: self.current_y@,
                batches: batch_views(r@),
                ..s0
            };
            let ghost before = r@;
            let wx = copy_range(&self.token_buffer, at, at + len);
            let wy = copy_range(&self.token_buffer, at + 1, at + len + 1);
            self.current_x.extend_from_slice(wx.as_slice());
            self.current_y.extend_from_slice(wy.as_slice());
            proof {
                assert(wx@ == cur.buffer.take(len as int));
                assert(wy@ == cur.buffer.subrange(1, len + 1));
                assert(self.current_x@ =~= cur.x + cur.buffer.take(len as int));
                assert(self.current_y@ =~= cur.y + cur.buffer.subrange(1, len + 1));
                assert(cur.buffer.skip(1) == buf.skip(at + 1));
            }
            if self.current_x.len() == size {
                let mut x: Vec<usize> = Vec::new();
                let mut y: Vec<usize> = Vec::new();
                std::mem::swap(&mut x, &mut self.current_x);
                std::mem::swap(&mut y, &mut self.current_y);
                let ghost b = (x@, y@);
                r.push((x, y));
                assert(batch_views(r@) == batch_views(before).push(b));
                assert(self.current_x@ =~= Seq::<usize>::empty());
                assert(self.current_y@ =~= Seq::<usize>::empty());
            }
            at += 1;
        }
        let rest = copy_range(&self.token_buffer, at, n);
        assert(rest@ == buf.skip(at as int));
        self.token_buffer = rest;
        r
    }

    /// Takes in a further line of text, and returns the batches that it finishes. A blank line
    /// adds nothing.
    pub fn push_line(&mut self, tokenizer: &BPETokenizer, line: &str) -> (r: Vec<
        (Vec<usize>, Vec<usize>),
    >)
        requires
            old(self).wf(),
            !is_blank(line@) ==> scan_terminates(line@, tokenizer.specials()),
        ensures
            final(self).wf(),
            is_blank(line@) ==> *final(self) == *old(self) && r@.len() == 0,
            !is_blank(line@) ==> (Stream { batches: batch_views(r@), ..final(self).stream() })
                == fed(old(self).stream(), tokenizer.encoding(line@)),
    {
        if blank(line) {
            return Vec::new();
        }
        let tokens = tokenizer.encode(line);
        self.push_tokens(tokens.as_slice())
    }
}

/// Every finished batch holds the full number of tokens and as many targets, and no more than a
/// window of tokens stays behind.
pub proof fn stream_batches_have_full_size(s: Stream)
    requires
        s.x.len() == s.y.len(),
        forall|i: int|
            0 <= i < s.batches.len() ==> (#[trigger] s.batches[i]).0.len() == s.batch_size
                * s.seq_len && s.batches[i].1.len() == s.batch_size * s.seq_len,
    ensures
        ({
            let r = stream_run(s);
            &&& r.buffer.len() <= s.seq_len
            &&& r.x.len() == r.y.len()
            &&& forall|i: int|
                0 <= i < r.batches.len() ==> (#[trigger] r.batches[i]).0.len() == s.batch_size
                    * s.seq_len && r.batches[i].1.len() == s.batch_size * s.seq_len
        }),
    decreases s.buffer.len(),
{
    if s.buffer.len() > s.seq_len {
        stream_batches_have_full_size(stream_step(s));
    }
}

proof fn lemma_batches_before(s: Stream, done: Seq<Batch>)
    ensures
        stream_run(Stream { batches: done + s.batches, ..s }) == (Stream {
            batches: done + stream_run(s).batches,
            ..stream_run(s)
        }),
    decreases s.buffer.len(),
{
    if s.buffer.len() > s.seq_len {
        let t = Stream { batches: done + s.batches, ..s };
        let next = stream_step(s);
        lemma_batches_before(next, done);
        assert(stream_step(t).batches =~= done + next.batches);
        assert(stream_step(t) == (Stream { batches: done + next.batches, ..next }));
    }
}

/// The batches that a further line finishes come behind those that were finished before.
pub proof fn finished_batches_stay(s: Stream, tokens: Seq<usize>)
    ensures
        fed(s, tokens) == (Stream {
            batches: s.batches + fed(Stream { batches: Seq::empty(), ..s }, tokens).batches,
            ..fed(Stream { batches: Seq::empty(), ..s }, tokens)
        }),
{
    let none = Stream { batches: Seq::empty(), buffer: s.buffer + tokens, ..s };
    lemma_batches_before(none, s.batches);
    assert(s.batches + Seq::<Batch>::empty() =~= s.batches);
}

/// A loader that has been given some lines and is given one more has been given these lines: the
/// batches that it returns for it continue those that it returned before.
pub proof fn given_lines_add_up(
    was: StreamingDataLoader,
    now: StreamingDataLoader,
    lines: Seq<Seq<usize>>,
    done: Seq<Batch>,
    tokens: Seq<usize>,
    further: Seq<Batch>,
)
    requires
        (Stream { batches: done, ..was.stream() }) == fed_lines(
            was.seq_len,
            was.batch_size,
            lines,
        ),
        (Stream { batches: further, ..now.stream() }) == fed(was.stream(), tokens),
    ensures
        (Stream { batches: done + further, ..now.stream() }) == fed_lines(
            was.seq_len,
            was.batch_size,
            lines.push(tokens),
        ),
{
    let s = Stream { batches: done, ..was.stream() };
    finished_batches_stay(s, tokens);
    assert(lines.push(tokens).drop_last() =~= lines);
    assert(was.stream().batches =~= Seq::empty());
}

/// `n` windows of `len` tokens one behind the other, the first one beginning at `first`.
pub open spec fn windows(tokens: Seq<usize>, len: int, first: int, n: int) -> Seq<usize> {
    Seq::new((n * len) as nat, |i: int| tokens[first + i / len + i % len])
}

/// A stream from whose tokens the first `n` windows have been taken.
spec fn after_windows(seq_len: usize, batch_size: usize, tokens: Seq<usize>, n: int) -> Stream {
    let (len, size) = (seq_len as int, batch_size as int);
    Stream {
        seq_len,
        batch_size,
        buffer: tokens.skip(n),
        x: windows(tokens, len, n / size * size, n % size),
        y: windows(tokens, len, n / size * size + 1, n % size),
        batches: Seq::new(
            (n / size) as nat,
            |k: int|
                (windows(tokens, len, k * size, size), windows(tokens, len, k * size + 1, size)),
        ),
    }
}

proof fn lemma_next_window(tokens: Seq<usize>, len: int, first: int, n: int)
    requires
        len > 0,
        n >= 0,
        first >= 0,
        first + n + len <= tokens.len(),
    ensures
        windows(tokens, len, first, n) + tokens.subrange(first + n, first + n + len) == windows(
            tokens,
            len,
            first,
            n + 1,
        ),
{
    let w = windows(tokens, len, first, n);
    let v = windows(tokens, len, first, n + 1);
    assert((n + 1) * len == n * len + len && 0 <= n * len) by (nonlinear_arith)
        requires
            n >= 0,
            len > 0,
    ;
    assert forall|i: int| 0 <= i < v.len() implies v[i] == (w + tokens.subrange(
        first + n,
        first + n + len,
    ))[i] by {
        if i >= n * len {
            lemma_cell(n, n + 1, i - n * len, len);
        }
    }
    assert(w + tokens.subrange(first + n, first + n + len) =~= v);
}

proof fn lemma_window_step(seq_len: usize, batch_size: usize, tokens: Seq<usize>, n: int)
    requires
        seq_len >= 1,
        batch_size >= 1,
        0 <= n,
        n + seq_len < tokens.len(),
    ensures
        stream_step(after_windows(seq_len, batch_size, tokens, n)) == after_windows(
            seq_len,
            batch_size,
            tokens,
            n + 1,
        ),
{
    let (len, size) = (seq_len as int, batch_size as int);
    let s = after_windows(seq_len, batch_size, tokens, n);
    let t = after_windows(seq_len, batch_size, tokens, n + 1);
    let (q, r) = (n / size, n % size);
    vstd::arithmetic::div_mod::lemma_fundamental_div_mod(n, size);
    assert(q * size + r == n && 0 <= q * size) by (nonlinear_arith)
        requires
            n == size * (n / size) + n % size,
            q == n / size,
            r == n % size,
            n >= 0,
            size > 0,
            0 <= r < size,
    ;
    lemma_next_window(tokens, len, q * size, r);
    lemma_next_window(tokens, len, q * size + 1, r);
    let x = s.x + s.buffer.take(len);
    let y = s.y + s.buffer.subrange(1, len + 1);
    assert(s.buffer.take(len) =~= tokens.subrange(n, n + len));
    assert(s.buffer.subrange(1, len + 1) =~= tokens.subrange(n + 1, n + 1 + len));
    assert(x == windows(tokens, len, q * size, r + 1));
    assert(y == windows(tokens, len, q * size + 1, r + 1));
    assert(s.buffer.skip(1) =~= t.buffer);
    assert((r + 1) * len >= 0) by (nonlinear_arith)
        requires
            r >= 0,
            len >= 0,
    ;
    if r + 1 == size {
        assert((q + 1) * size == n + 1) by (nonlinear_arith)
            requires
                q * size + r == n,
                r + 1 == size,
        ;
        vstd::arithmetic::div_mod::lemma_fundamental_div_mod_converse(n + 1, size, q + 1, 0);
        assert(t.batches =~= s.batches.push((x, y)));
        assert(0 * len == 0);
        assert(t.x =~= Seq::empty());
        assert(t.y =~= Seq::empty());
    } else {
        vstd::arithmetic::div_mod::lemma_fundamental_div_mod_converse(n + 1, size, q, r + 1);
        assert((r + 1) * len != size * len) by (nonlinear_arith)
            requires
                r + 1 < size,
                len > 0,
        ;
        assert(t.batches =~= s.batches);
    }
}

proof fn lemma_window_run(seq_len: usize, batch_size: usize, tokens: Seq<usize>, n: int)
    requires
        seq_len >= 1,
        batch_size >= 1,
        0 <= n,
        n <= tokens.len(),
    ensures
        stream_run(after_windows(seq_len, batch_size, tokens, n)) == after_windows(
            seq_len,
            batch_size,
            tokens,
            if n + seq_len < tokens.len() {
                tokens.len() - seq_len
            } else {
                n
            },
        ),
    decreases tokens.len() - n,
{
    if n + seq_len < tokens.len() {
        lemma_window_step(seq_len, batch_size, tokens, n);
        lemma_window_run(seq_len, batch_size, tokens, n + 1);
    }
}

proof fn lemma_same_windows(a: Seq<usize>, b: Seq<usize>, len: int, first: int, n: int)
    requires
        len > 0,
        n >= 0,
        first >= 0,
        n > 0 ==> first + n - 1 + len <= a.len(),
    ensures
        windows(a + b, len, first, n) == windows(a, len, first, n),
{
    let w = windows(a, len, first, n);
    assert forall|i: int| 0 <= i < w.len() implies w[i] == #[trigger] windows(
        a + b,
        len,
        first,
        n,
    )[i] by {
        lemma_uncell(i, n, len);
    }
    assert(windows(a + b, len, first, n) =~= w);
}

/// Windows that have been taken stay the same when tokens are added.
proof fn lemma_windows_stay(
    seq_len: usize,
    batch_size: usize,
    tokens: Seq<usize>,
    more: Seq<usize>,
    n: int,
)
    requires
        seq_len >= 1,
        batch_size >= 1,
        0 <= n <= tokens.len(),
        n > 0 ==> n + seq_len <= tokens.len(),
    ensures
        after_windows(seq_len, batch_size, tokens + more, n) == (Stream {
            buffer: tokens.skip(n) + more,
            ..after_windows(seq_len, batch_size, tokens, n)
        }),
{
    let (len, size) = (seq_len as int, batch_size as int);
    let s = after_windows(seq_len, batch_size, tokens, n);
    let t = after_windows(seq_len, batch_size, tokens + more, n);
    let (q, r) = (n / size, n % size);
    vstd::arithmetic::div_mod::lemma_fundamental_div_mod(n, size);
    assert(q * size + r == n && 0 <= q * size && 0 <= q) by (nonlinear_arith)
        requires
            n == size * (n / size) + n % size,
            q == n / size,
            r == n % size,
            n >= 0,
            size > 0,
            0 <= r < size,
    ;
    lemma_same_windows(tokens, more, len, q * size, r);
    lemma_same_windows(tokens, more, len, q * size + 1, r);
    assert forall|k: int| 0 <= k < q implies s.batches[k] == #[trigger] t.batches[k] by {
        assert(0 <= k * size && k * size + size <= q * size) by (nonlinear_arith)
            requires
                0 <= k < q,
                size > 0,
        ;
        lemma_same_windows(tokens, more, len, k * size, size);
        lemma_same_windows(tokens, more, len, k * size + 1, size);
    }
    assert(s.batches =~= t.batches);
    assert((tokens + more).skip(n) =~= tokens.skip(n) + more);
}

/// The tokens of some lines one behind the other.
pub open spec fn joined(lines: Seq<Seq<usize>>) -> Seq<usize>
    decreases lines.len(),
{
    if lines.len() == 0 {
        Seq::empty()
    } else {
        joined(lines.drop_last()) + lines.last()
    }
}

/// A fresh stream after it has been fed some lines one by one.
pub open spec fn fed_lines(seq_len: usize, batch_size: usize, lines: Seq<Seq<usize>>) -> Stream
    decreases lines.len(),
{
    if lines.len() == 0 {
        Stream {
            seq_len,
            batch_size,
            buffer: Seq::empty(),
            x: Seq::empty(),
            y: Seq::empty(),
            batches: Seq::empty(),
        }
    } else {
        fed(fed_lines(seq_len, batch_size, lines.drop_last()), lines.last())
    }
}

/// The number of windows that tokens have a successor for.
pub open spec fn window_count(tokens: nat, seq_len: usize) -> int {
    if tokens > seq_len {
        tokens - seq_len
    } else {
        0
    }
}

proof fn lemma_fed_lines(seq_len: usize, batch_size: usize, lines: Seq<Seq<usize>>)
    requires
        seq_len >= 1,
        batch_size >= 1,
    ensures
        fed_lines(seq_len, batch_size, lines) == after_windows(
            seq_len,
            batch_size,
            joined(lines),
            window_count(joined(lines).len(), seq_len),
        ),
    decreases lines.len(),
{
    if lines.len() == 0 {
        let none = after_windows(seq_len, batch_size, Seq::empty(), 0);
        let (len, size) = (seq_len as int, batch_size as int);
        assert(0int / size == 0 && 0int % size == 0) by (nonlinear_arith)
            requires
                size > 0,
        ;
        assert(0 * len == 0);
        assert(none.x =~= Seq::empty());
        assert(none.y =~= Seq::empty());
        assert(none.buffer =~= Seq::empty());
        assert(none.batches =~= Seq::empty());
    } else {
        let before = lines.drop_last();
        let tokens = joined(before);
        let n = window_count(tokens.len(), seq_len);
        lemma_fed_lines(seq_len, batch_size, before);
        lemma_windows_stay(seq_len, batch_size, tokens, lines.last(), n);
        lemma_window_run(seq_len, batch_size, joined(lines), n);
    }
}

/// The batches of a stream are the windows of all its tokens in order, however these are divided
/// into lines: the windows begin one token after the other, the targets are the tokens that follow,
/// and there is a further batch for as long as there are windows for it.
pub proof fn streamed_batches_are_windows(
    seq_len: usize,
    batch_size: usize,
    lines: Seq<Seq<usize>>,
    k: int,
)
    requires
        seq_len >= 1,
        batch_size >= 1,
        k >= 0,
    ensures
        ({
            let tokens = joined(lines);
            let batches = fed_lines(seq_len, batch_size, lines).batches;
            let b = batches[k];
            &&& k < batches.len() <==> (k + 1) * batch_size <= window_count(tokens.len(), seq_len)
            &&& k < batches.len() ==> {
                &&& b.0.len() == batch_size * seq_len
                &&& b.1.len() == batch_size * seq_len
                &&& forall|r: int, s: int|
                    0 <= r < batch_size && 0 <= s < seq_len ==> #[trigger] b.0[r * seq_len + s]
                        == tokens[k * batch_size + r + s]
                &&& forall|r: int, s: int|
                    0 <= r < batch_size && 0 <= s < seq_len ==> #[trigger] b.1[r * seq_len + s]
                        == tokens[k * batch_size + r + s + 1]
            }
        }),
{
    let tokens = joined(lines);
    let (len, size) = (seq_len as int, batch_size as int);
    let n = window_count(tokens.len(), seq_len);
    lemma_fed_lines(seq_len, batch_size, lines);
    let batches = fed_lines(seq_len, batch_size, lines).batches;
    vstd::arithmetic::div_mod::lemma_fundamental_div_mod(n, size);
    assert(k < n / size <==> (k + 1) * size <= n) by (nonlinear_arith)
        requires
            n == size * (n / size) + n % size,
            0 <= n % size < size,
            size > 0,
    ;
    if k < batches.len() {
        let b = batches[k];
        assert forall|r: int, s: int| 0 <= r < size && 0 <= s < len implies #[trigger] b.0[r * len
            + s] == tokens[k * size + r + s] by {
            lemma_cell(r, size, s, len);
        }
        assert forall|r: int, s: int| 0 <= r < size && 0 <= s < len implies #[trigger] b.1[r * len
            + s] == tokens[k * size + r + s + 1] by {
            lemma_cell(r, size, s, len);
        }
    }
}

proof fn lemma_row_shape(raw: Seq<usize>, fim: Option<FimConfig>, state: u64)
    requires
        raw.len() > 0,
    ensures
        batch_row(raw, fim, state).x.len() == raw.len() - 1,
        batch_row(raw, fim, state).y.len() == raw.len() - 1,
{
}

/// A batch of `n` sequences holds `n * seq_len` tokens and as many targets, however many of the
/// sequences are transformed.
pub proof fn batch_has_shape(
    buffer: Seq<usize>,
    seq_len: int,
    fim: Option<FimConfig>,
    state: u64,
    n: nat,
)
    requires
        seq_len >= 0,
        buffer.len() >= n * (seq_len + 1),
    ensures
        batch_rows(buffer, seq_len, fim, state, n).x.len() == n * seq_len,
        batch_rows(buffer, seq_len, fim, state, n).y.len() == n * seq_len,
    decreases n,
{
    if n > 0 {
        let m = (n - 1) as nat;
        lemma_row_start(seq_len, n as int, n - 1);
        batch_has_shape(buffer, seq_len, fim, state, m);
        let start = (n - 1) * (seq_len + 1);
        let before = batch_rows(buffer, seq_len, fim, state, m);
        lemma_row_shape(buffer.subrange(start, start + seq_len + 1), fim, before.state);
        assert((n - 1) * seq_len + seq_len == n * seq_len) by (nonlinear_arith)
            requires
                n > 0,
        ;
    } else {
        assert(n * seq_len == 0) by (nonlinear_arith)
            requires
                n == 0,
        ;
    }
}

/// Without fill-in-the-middle, every target is the token that follows in the file, and no target
/// is marked to be skipped.
pub proof fn plain_targets_follow(
    buffer: Seq<usize>,
    seq_len: int,
    state: u64,
    n: nat,
    b: int,
    t: int,
)
    requires
        0 <= b < n,
        0 <= t < seq_len,
        buffer.len() >= n * (seq_len + 1),
    ensures
        ({
            let rows = batch_rows(buffer, seq_len, None, state, n);
            let k = b * seq_len + t;
            &&& 0 <= k < rows.x.len()
            &&& k < rows.y.len()
            &&& rows.x[k] == buffer[b * (seq_len + 1) + t]
            &&& rows.y[k] == buffer[b * (seq_len + 1) + t + 1]
            &&& !rows.masked
        }),
    decreases n,
{
    let m = (n - 1) as nat;
    let k = b * seq_len + t;
    lemma_row_start(seq_len, n as int, n - 1);
    lemma_row_start(seq_len, n as int, b);
    batch_has_shape(buffer, seq_len, None, state, n);
    batch_has_shape(buffer, seq_len, None, state, m);
    lemma_plain_mask(buffer, seq_len, state, n);
    let before = batch_rows(buffer, seq_len, None, state, m);
    let start = (n - 1) * (seq_len + 1);
    let raw = buffer.subrange(start, start + seq_len + 1);
    assert(0 <= b * seq_len) by (nonlinear_arith)
        requires
            0 <= b,
            seq_len >= 0,
    ;
    if b == n - 1 {
        assert((n - 1) * seq_len + seq_len == n * seq_len) by (nonlinear_arith);
        assert(raw[t] == buffer[start + t]);
        assert(raw[t + 1] == buffer[start + t + 1]);
    } else {
        plain_targets_follow(buffer, seq_len, state, m, b, t);
        assert(k < (n - 1) * seq_len);
        assert((n - 1) * seq_len <= n * seq_len) by (nonlinear_arith)
            requires
                seq_len >= 0,
        ;
    }
}

/// Of a transformed sequence exactly the tokens of the middle are targets, the first of them
/// included, as far as the sequence reaches.
pub proof fn transformed_targets_are_the_middle(
    tokens: Seq<usize>,
    ids: FimTokens,
    lo: int,
    hi: int,
    use_spm: bool,
    seq_len: nat,
    i: int,
)
    requires
        tokens.len() >= 4 ==> 0 <= lo <= hi <= tokens.len(),
        0 <= i < seq_len,
        forall|k: int| 0 <= k < tokens.len() ==> #[trigger] tokens[k] != IGNORE_INDEX,
    ensures
        ({
            let start = tokens.len() - (hi - lo) + 3;
            let r = fim_result(tokens, ids, lo, hi, use_spm, seq_len);
            &&& fim_target(r, i) != IGNORE_INDEX <==> tokens.len() >= 4 && i + 1 < seq_len && start <= i
                + 1 < tokens.len() + 3
            &&& fim_target(r, i) != IGNORE_INDEX ==> fim_target(r, i) == tokens[lo + i + 1 - start]
        }),
{
    if i + 1 < seq_len {
        fim_loss_on_middle_only(tokens, ids, lo, hi, use_spm, seq_len, i + 1);
    }
}

proof fn lemma_plain_mask(buffer: Seq<usize>, seq_len: int, state: u64, n: nat)
    ensures
        !batch_rows(buffer, seq_len, None, state, n).masked,
    decreases n,
{
    if n > 0 {
        lemma_plain_mask(buffer, seq_len, state, (n - 1) as nat);
    }
}

} // verus!
