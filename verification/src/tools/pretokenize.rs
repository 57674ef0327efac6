//! Texts turned into files of tokens, in one go or line by line with a record of the progress.
use crate::data::dataloader::{blank, is_blank, u16s};
use crate::data::text::{chars_of, scan_terminates, string_of};
use crate::data::tokenizer::BPETokenizer;
use crate::data::tokenizer_file::{decimal, parse_number, push_decimal, read_number};
use crate::data::tokenizer_laws::{lemma_decimal, lemma_parse_decimal};
use crate::graph::settings::{trim_text, trimmed};
use vstd::prelude::*;

verus! {

/// The two bytes of a token, the low one first; what is above 16 bits is lost.
pub open spec fn low_byte(token: usize) -> u8 {
    (token % 0x1_0000 % 0x100) as u8
}

pub open spec fn high_byte(token: usize) -> u8 {
    (token % 0x1_0000 / 0x100) as u8
}

/// The bytes of tokens.
pub open spec fn token_bytes(tokens: Seq<usize>) -> Seq<u8> {
    Seq::new(
        2 * tokens.len(),
        |i: int|
            if i % 2 == 0 {
                low_byte(tokens[i / 2])
            } else {
                high_byte(tokens[i / 2])
            },
    )
}

/// Writes tokens as bytes.
pub fn bytes_of_tokens(tokens: &Vec<usize>) -> (r: Vec<u8>)
    ensures
        r@ == token_bytes(tokens@),
{
    let mut r: Vec<u8> = Vec::new();
    let mut i: usize = 0;
    while i < tokens.len()
        invariant
            i <= tokens@.len(),
            r@ == token_bytes(tokens@.take(i as int)),
        decreases tokens@.len() - i,
    {
        let t: usize = tokens[i] % 0x1_0000;
        r.push((t % 0x100) as u8);
        r.push((t / 0x100) as u8);
        assert(r@ =~= token_bytes(tokens@.take(i + 1)));
        i += 1;
    }
    assert(tokens@.take(tokens@.len() as int) =~= tokens@);
    r
}

/// Tokens of 16 bits come back as they were written.
pub proof fn written_tokens_read_back(tokens: Seq<usize>)
    requires
        forall|i: int| 0 <= i < tokens.len() ==> (#[trigger] tokens[i]) < 0x1_0000,
    ensures
        u16s(token_bytes(tokens)) == tokens,
{
    let b = token_bytes(tokens);
    assert forall|i: int| 0 <= i < tokens.len() implies #[trigger] u16s(b)[i] == tokens[i] by {
        assert((2 * i) % 2 == 0 && (2 * i) / 2 == i);
        assert((2 * i + 1) % 2 == 1 && (2 * i + 1) / 2 == i);
        let t = tokens[i];
        assert(b[2 * i] == low_byte(t));
        assert(b[2 * i + 1] == high_byte(t));
        assert(t % 0x100 + 256 * (t / 0x100) == t);
    }
    assert(b.len() / 2 == tokens.len());
    assert(u16s(b) =~= tokens);
}

/// Files of tokens can be written one after the other.
pub proof fn bytes_of_joined_tokens(a: Seq<usize>, b: Seq<usize>)
    ensures
        token_bytes(a + b) == token_bytes(a) + token_bytes(b),
{
    assert(token_bytes(a + b) =~= token_bytes(a) + token_bytes(b));
}

/// The bytes of the tokens of a text.
pub fn pre_tokenize(text: &str, tokenizer: &BPETokenizer) -> (r: Vec<u8>)
    requires
        scan_terminates(text@, tokenizer.specials()),
    ensures
        r@ == token_bytes(tokenizer.encoding(text@)),
{
    let tokens = tokenizer.encode(text);
    bytes_of_tokens(&tokens)
}

/// After so many lines the progress is recorded.
pub const SAVE_EVERY: usize = 10000;

/// The last line that has been dealt with, as recorded; none where no number is.
pub open spec fn last_line(state: Option<Seq<char>>) -> Option<usize> {
    match state {
        None => None,
        Some(s) => parse_number(trimmed(s)),
    }
}

/// The last line that has been dealt with.
pub fn recovered_line(state: Option<&str>) -> (r: Option<usize>)
    ensures
        r == last_line(
            match state {
                None => None,
                Some(s) => Some(s@),
            },
        ),
{
    match state {
        None => None,
        Some(s) => read_number(&trim_text(&chars_of(s))),
    }
}

/// What is done for a line.
pub struct LineWork {
    /// The bytes to be written.
    pub bytes: Vec<u8>,
    /// The progress to be recorded after that.
    pub state: Option<String>,
}

/// The line has not been dealt with, where `done` is the last that has.
pub open spec fn is_open(i: int, done: Option<usize>) -> bool {
    match done {
        None => true,
        Some(d) => i > d,
    }
}

/// The bytes that are written for line `i`: those of its tokens, where it has not been dealt with,
/// could be read and is not blank.
pub open spec fn line_bytes(
    tokenizer: BPETokenizer,
    i: int,
    done: Option<usize>,
    line: Option<Seq<char>>,
) -> Seq<u8> {
    match line {
        Some(t) => if is_open(i, done) && !is_blank(t) {
            token_bytes(tokenizer.encoding(t))
        } else {
            Seq::empty()
        },
        None => Seq::empty(),
    }
}

/// The progress is recorded after line `i`: after every so many lines, but not after the first, a
/// blank one, or one that had been dealt with.
pub open spec fn saves_after(i: int, done: Option<usize>, line: Option<Seq<char>>) -> bool {
    &&& i > 0
    &&& is_open(i, done)
    &&& i % SAVE_EVERY as int == 0
    &&& !(line matches Some(t) && is_blank(t))
}

/// The work for line `i`, where `done` is the last line that has been dealt with. A line that could
/// not be read is none.
pub fn pre_tokenize_line(
    tokenizer: &BPETokenizer,
    i: usize,
    done: Option<usize>,
    line: Option<&str>,
) -> (r: LineWork)
    requires
        line matches Some(t) ==> scan_terminates(t@, tokenizer.specials()),
    ensures
        ({
            let text = match line {
                None => None,
                Some(t) => Some(t@),
            };
            &&& r.bytes@ == line_bytes(*tokenizer, i as int, done, text)
            &&& r.state is Some == saves_after(i as int, done, text)
            &&& r.state matches Some(s) ==> s@ == decimal(i as nat)
        }),
{
    let mut bytes: Vec<u8> = Vec::new();
    let open: bool = match done {
        None => true,
        Some(d) => i > d,
    };
    if !open {
        return LineWork { bytes, state: None };
    }
    match line {
        Some(t) => {
            if blank(t) {
                return LineWork { bytes, state: None };
            }
            bytes = pre_tokenize(t, tokenizer);
        },
        None => {},
    }
    if i % SAVE_EVERY == 0 && i > 0 {
        let mut s: Vec<char> = Vec::new();
        push_decimal(&mut s, i);
        LineWork { bytes, state: Some(string_of(&s)) }
    } else {
        LineWork { bytes, state: None }
    }
}

/// What is recorded when all lines are written.
pub fn finished_state() -> (r: &'static str)
    ensures
        r@ == "DONE"@,
{
    "DONE"
}

/// A recorded line number is read back.
pub proof fn recorded_line_is_recovered(i: usize)
    ensures
        last_line(Some(decimal(i as nat))) == Some(i),
{
    let s = decimal(i as nat);
    lemma_parse_decimal(i as nat);
    lemma_decimal(i as nat);
    assert(trimmed(s) == s);
}

/// What a run writes for the first `n` lines.
pub open spec fn run_bytes(
    tokenizer: BPETokenizer,
    lines: Seq<Option<Seq<char>>>,
    done: Option<usize>,
    n: nat,
) -> Seq<u8>
    decreases n,
{
    if n == 0 {
        Seq::empty()
    } else {
        run_bytes(tokenizer, lines, done, (n - 1) as nat) + line_bytes(
            tokenizer,
            n - 1,
            done,
            lines[n - 1],
        )
    }
}

/// A run that ends after it has recorded line `k`, and a run that goes on from that record, write
/// together what one run over all lines writes: every line once.
pub proof fn resumed_run_completes(
    tokenizer: BPETokenizer,
    lines: Seq<Option<Seq<char>>>,
    done: Option<usize>,
    k: usize,
    n: nat,
)
    requires
        k < n <= lines.len(),
        saves_after(k as int, done, lines[k as int]),
    ensures
        run_bytes(tokenizer, lines, done, (k + 1) as nat) + run_bytes(
            tokenizer,
            lines,
            last_line(Some(decimal(k as nat))),
            n,
        ) == run_bytes(tokenizer, lines, done, n),
{
    recorded_line_is_recovered(k);
    lemma_resumed(tokenizer, lines, done, k, n);
}

proof fn lemma_resumed(
    tokenizer: BPETokenizer,
    lines: Seq<Option<Seq<char>>>,
    done: Option<usize>,
    k: usize,
    n: nat,
)
    requires
        k < n <= lines.len(),
        is_open(k as int, done),
    ensures
        run_bytes(tokenizer, lines, done, (k + 1) as nat) + run_bytes(
            tokenizer,
            lines,
            Some(k),
            n,
        ) == run_bytes(tokenizer, lines, done, n),
    decreases n,
{
    let first = run_bytes(tokenizer, lines, done, (k + 1) as nat);
    if n == k + 1 {
        lemma_nothing_open(tokenizer, lines, k, n);
        assert(first + Seq::<u8>::empty() =~= first);
    } else {
        let m = (n - 1) as nat;
        lemma_resumed(tokenizer, lines, done, k, m);
        let rest = run_bytes(tokenizer, lines, Some(k), m);
        let last = line_bytes(tokenizer, n - 1, Some(k), lines[n - 1]);
        assert(last == line_bytes(tokenizer, n - 1, done, lines[n - 1]));
        assert(first + (rest + last) =~= (first + rest) + last);
    }
}

proof fn lemma_nothing_open(
    tokenizer: BPETokenizer,
    lines: Seq<Option<Seq<char>>>,
    k: usize,
    n: nat,
)
    requires
        n <= k + 1,
    ensures
        run_bytes(tokenizer, lines, Some(k), n) == Seq::<u8>::empty(),
    decreases n,
{
    if n > 0 {
        lemma_nothing_open(tokenizer, lines, k, (n - 1) as nat);
        assert(Seq::<u8>::empty() + Seq::<u8>::empty() =~= Seq::<u8>::empty());
    }
}

} // verus!
