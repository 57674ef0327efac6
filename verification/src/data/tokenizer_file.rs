//! The text format in which a tokenizer is kept: its special tokens, its
//! vocabulary and its merges, line by line.
use crate::data::bpe::Pair;
use crate::data::fast_map::{pair_less, FastMap};
use crate::data::text::{after_line, chars_of, lemma_after_line, string_of, texts, views};
use crate::data::tokenizer::BPETokenizer;
use vstd::prelude::*;

verus! {

pub open spec fn digit_char(d: nat) -> char {
    if d == 0 {
        '0'
    } else if d == 1 {
        '1'
    } else if d == 2 {
        '2'
    } else if d == 3 {
        '3'
    } else if d == 4 {
        '4'
    } else if d == 5 {
        '5'
    } else if d == 6 {
        '6'
    } else if d == 7 {
        '7'
    } else if d == 8 {
        '8'
    } else {
        '9'
    }
}

pub open spec fn is_digit(c: char) -> bool {
    '0' <= c <= '9'
}

/// The value of a digit.
pub open spec fn digit_value(c: char) -> nat {
    (c as u32 - '0' as u32) as nat
}

/// `n` in decimal digits, without leading zeros.
pub open spec fn decimal(n: nat) -> Seq<char>
    decreases n,
{
    if n < 10 {
        seq![digit_char(n)]
    } else {
        decimal(n / 10).push(digit_char(n % 10))
    }
}

pub open spec fn all_digits(s: Seq<char>) -> bool {
    forall|i: int| 0 <= i < s.len() ==> is_digit(#[trigger] s[i])
}

/// The number that the digits `s` write.
pub open spec fn digits_value(s: Seq<char>) -> nat
    decreases s.len(),
{
    if s.len() == 0 {
        0
    } else {
        digits_value(s.drop_last()) * 10 + digit_value(s.last())
    }
}

/// `s` without the sign that a number may begin with.
pub open spec fn without_plus(s: Seq<char>) -> Seq<char> {
    if s.len() > 0 && s[0] == '+' {
        s.skip(1)
    } else {
        s
    }
}

/// The number that `s` writes: decimal digits, with or without a plus sign in front, no greater
/// than the machine can hold.
pub open spec fn parse_number(s: Seq<char>) -> Option<usize> {
    let d = without_plus(s);
    if d.len() > 0 && all_digits(d) && digits_value(d) <= usize::MAX {
        Some(digits_value(d) as usize)
    } else {
        None
    }
}

fn digit(d: usize) -> (c: char)
    requires
        d < 10,
    ensures
        c == digit_char(d as nat),
{
    if d == 0 {
        '0'
    } else if d == 1 {
        '1'
    } else if d == 2 {
        '2'
    } else if d == 3 {
        '3'
    } else if d == 4 {
        '4'
    } else if d == 5 {
        '5'
    } else if d == 6 {
        '6'
    } else if d == 7 {
        '7'
    } else if d == 8 {
        '8'
    } else {
        '9'
    }
}

/// Appends `n` in decimal.
pub fn push_decimal(out: &mut Vec<char>, n: usize)
    ensures
        final(out)@ == old(out)@ + decimal(n as nat),
    decreases n,
{
    if n >= 10 {
        push_decimal(out, n / 10);
    }
    let ghost before = out@;
    out.push(digit(n % 10));
    assert(out@ == before.push(digit_char((n % 10) as nat)));
    assert(out@ == old(out)@ + decimal(n as nat));
}

proof fn lemma_value_prefix(s: Seq<char>, i: int)
    requires
        0 <= i <= s.len(),
    ensures
        digits_value(s.take(i)) <= digits_value(s),
    decreases s.len() - i,
{
    if i == s.len() {
        assert(s.take(i) == s);
    } else {
        assert(s.take(i + 1).drop_last() == s.take(i));
        lemma_value_prefix(s, i + 1);
    }
}

/// Reads a number.
pub fn read_number(s: &Vec<char>) -> (r: Option<usize>)
    ensures
        r == parse_number(s@),
{
    let ghost d = without_plus(s@);
    let start: usize = if s.len() > 0 && s[0] == '+' {
        1
    } else {
        0
    };
    if s.len() == start {
        return None;
    }
    let mut v: usize = 0;
    let mut i: usize = start;
    assert(d.take(0) == Seq::<char>::empty());
    while i < s.len()
        invariant
            start <= i <= s@.len(),
            start <= 1,
            d == s@.skip(start as int),
            d == without_plus(s@),
            all_digits(d.take(i - start)),
            v == digits_value(d.take(i - start)),
        decreases s@.len() - i,
    {
        let c: char = s[i];
        let ghost k = i - start;
        assert(d[k] == c);
        assert(d.take(k + 1).drop_last() == d.take(k));
        if c < '0' || c > '9' {
            assert(!is_digit(d[k]));
            return None;
        }
        let x: usize = (c as u32 - '0' as u32) as usize;
        proof {
            lemma_value_prefix(d, k + 1);
            assert(digits_value(d.take(k + 1)) == v * 10 + x);
        }
        match v.checked_mul(10) {
            None => {
                return None;
            },
            Some(w) => match w.checked_add(x) {
                None => {
                    return None;
                },
                Some(u) => {
                    v = u;
                },
            },
        }
        assert forall|j: int| 0 <= j < k + 1 implies is_digit(#[trigger] d.take(k + 1)[j]) by {
            if j < k {
                assert(d.take(k)[j] == d[j]);
            }
        }
        i += 1;
    }
    assert(d.take(d.len() as int) == d);
    Some(v)
}

/// White space as Unicode defines it.
pub open spec fn is_white(c: char) -> bool {
    let n = c as u32;
    (0x9 <= n <= 0xd) || n == 0x20 || n == 0x85 || n == 0xa0 || n == 0x1680 || (0x2000 <= n <= 0x200a)
        || n == 0x2028 || n == 0x2029 || n == 0x202f || n == 0x205f || n == 0x3000
}

/// Whether `c` is white space.
pub fn white(c: char) -> (r: bool)
    ensures
        r == is_white(c),
{
    let n: u32 = c as u32;
    (0x9 <= n && n <= 0xd) || n == 0x20 || n == 0x85 || n == 0xa0 || n == 0x1680 || (0x2000 <= n && n
        <= 0x200a) || n == 0x2028 || n == 0x2029 || n == 0x202f || n == 0x205f || n == 0x3000
}

/// How many characters of `t` come before the first white space.
pub open spec fn word_len(t: Seq<char>) -> nat
    decreases t.len(),
{
    if t.len() == 0 || is_white(t[0]) {
        0
    } else {
        1 + word_len(t.skip(1))
    }
}

pub proof fn lemma_word_len(t: Seq<char>)
    ensures
        word_len(t) <= t.len(),
        t.len() > 0 && !is_white(t[0]) ==> word_len(t) > 0,
        forall|i: int| 0 <= i < word_len(t) ==> !is_white(#[trigger] t[i]),
        word_len(t) < t.len() ==> is_white(t[word_len(t) as int]),
    decreases t.len(),
{
    if t.len() > 0 && !is_white(t[0]) {
        let u = t.skip(1);
        lemma_word_len(u);
        assert forall|i: int| 0 <= i < word_len(t) implies !is_white(#[trigger] t[i]) by {
            if i > 0 {
                assert(u[i - 1] == t[i]);
            }
        }
        if word_len(t) < t.len() {
            assert(u[word_len(u) as int] == t[word_len(t) as int]);
        }
    }
}

/// The numbers that stand in `t` between white space, or nothing where a word is not a number.
pub open spec fn parse_numbers(t: Seq<char>) -> Option<Seq<usize>>
    decreases t.len(),
{
    if t.len() == 0 {
        Some(Seq::empty())
    } else if is_white(t[0]) {
        parse_numbers(t.skip(1))
    } else {
        let n = word_len(t) as int;
        proof {
            lemma_word_len(t);
        }
        match parse_number(t.take(n)) {
            None => None,
            Some(v) => match parse_numbers(t.skip(n)) {
                None => None,
                Some(rest) => Some(seq![v] + rest),
            },
        }
    }
}

/// Prepends what came before to the numbers that follow.
spec fn joined(before: Seq<usize>, rest: Option<Seq<usize>>) -> Option<Seq<usize>> {
    match rest {
        None => None,
        Some(r) => Some(before + r),
    }
}

fn read_numbers(t: &Vec<char>) -> (r: Option<Vec<usize>>)
    ensures
        match r {
            None => parse_numbers(t@) is None,
            Some(v) => parse_numbers(t@) == Some(v@),
        },
{
    let mut out: Vec<usize> = Vec::new();
    let mut i: usize = 0;
    assert(t@.skip(0) == t@);
    assert(joined(Seq::empty(), parse_numbers(t@)) == parse_numbers(t@)) by {
        if parse_numbers(t@) is Some {
            assert(Seq::<usize>::empty() + parse_numbers(t@)->0 == parse_numbers(t@)->0);
        }
    }
    while i < t.len()
        invariant
            i <= t@.len(),
            joined(out@, parse_numbers(t@.skip(i as int))) == parse_numbers(t@),
        decreases t@.len() - i,
    {
        let ghost s = t@.skip(i as int);
        if white(t[i]) {
            assert(s.skip(1) == t@.skip(i + 1));
            i += 1;
        } else {
            let start: usize = i;
            let mut word: Vec<char> = Vec::new();
            proof {
                lemma_word_len(s);
            }
            let ghost n = word_len(s) as int;
            while i < t.len() && !white(t[i])
                invariant
                    start <= i <= t@.len(),
                    s == t@.skip(start as int),
                    word@ == s.take(i - start),
                    forall|j: int| 0 <= j < i - start ==> !is_white(#[trigger] s[j]),
                decreases t@.len() - i,
            {
                assert(s.take(i - start + 1) == s.take(i - start).push(t@[i as int]));
                word.push(t[i]);
                i += 1;
            }
            assert(i - start == n) by {
                if i - start < n {
                    assert(!is_white(s[i - start]));
                } else if i - start > n {
                    assert(!is_white(s[n]));
                }
            }
            assert(s.skip(n) == t@.skip(i as int));
            match read_number(&word) {
                None => {
                    return None;
                },
                Some(v) => {
                    let ghost before = out@;
                    out.push(v);
                    proof {
                        if parse_numbers(s.skip(n)) is Some {
                            assert(before + (seq![v] + parse_numbers(s.skip(n))->0) == before.push(v)
                                + parse_numbers(s.skip(n))->0);
                        }
                    }
                },
            }
        }
    }
    assert(t@.skip(t@.len() as int) == Seq::<char>::empty());
    assert(out@ + Seq::<usize>::empty() == out@);
    Some(out)
}

/// The first line of `t`, without its line ending.
pub open spec fn first_line(t: Seq<char>) -> Seq<char> {
    let n = line_len(t) as int;
    if n == t.len() {
        t
    } else if n > 0 && t[n - 1] == '\r' {
        t.take(n - 1)
    } else {
        t.take(n)
    }
}

/// How many characters of `t` come before the first line feed.
pub open spec fn line_len(t: Seq<char>) -> nat
    decreases t.len(),
{
    if t.len() == 0 || t[0] == '\n' {
        0
    } else {
        1 + line_len(t.skip(1))
    }
}

pub proof fn lemma_line_len(t: Seq<char>)
    ensures
        line_len(t) <= t.len(),
        forall|i: int| 0 <= i < line_len(t) ==> #[trigger] t[i] != '\n',
        line_len(t) < t.len() ==> t[line_len(t) as int] == '\n',
        after_line(t) == (if line_len(t) < t.len() {
            t.skip(line_len(t) as int + 1)
        } else {
            Seq::<char>::empty()
        }),
    decreases t.len(),
{
    if t.len() > 0 && t[0] != '\n' {
        let u = t.skip(1);
        lemma_line_len(u);
        assert forall|i: int| 0 <= i < line_len(t) implies #[trigger] t[i] != '\n' by {
            if i > 0 {
                assert(u[i - 1] == t[i]);
            }
        }
        if line_len(t) < t.len() {
            assert(u[line_len(u) as int] == t[line_len(t) as int]);
            assert(u.skip(line_len(u) as int + 1) == t.skip(line_len(t) as int + 1));
        }
    }
}

/// Reads a line from position `at` on, and where the next one begins.
fn read_line(t: &Vec<char>, at: usize) -> (r: (Vec<char>, usize))
    requires
        at <= t@.len(),
    ensures
        r.0@ == first_line(t@.skip(at as int)),
        at <= r.1 <= t@.len(),
        at < t@.len() ==> at < r.1,
        t@.skip(r.1 as int) == after_line(t@.skip(at as int)),
{
    let ghost s = t@.skip(at as int);
    let ghost n = line_len(s) as int;
    proof {
        lemma_line_len(s);
    }
    let mut line: Vec<char> = Vec::new();
    let mut i: usize = at;
    while i < t.len() && t[i] != '\n'
        invariant
            at <= i <= t@.len(),
            s == t@.skip(at as int),
            line@ == s.take(i - at),
            forall|j: int| 0 <= j < i - at ==> #[trigger] s[j] != '\n',
        decreases t@.len() - i,
    {
        assert(s.take(i - at + 1) == s.take(i - at).push(t@[i as int]));
        line.push(t[i]);
        i += 1;
    }
    assert(i - at == n) by {
        if i - at < n {
            assert(s[i - at] != '\n');
        } else if i - at > n {
            assert(s[n] != '\n');
        }
    }
    if i < t.len() {
        if line.len() > 0 && line[line.len() - 1] == '\r' {
            line.pop();
            assert(line@ == s.take(n - 1));
        }
        assert(t@.skip(i + 1) == s.skip(n + 1));
        (line, i + 1)
    } else {
        assert(s.take(n) == s);
        assert(t@.skip(i as int) == Seq::<char>::empty());
        (line, i)
    }
}

/// The first `n` lines of `t` and what follows them, where there are as many.
pub open spec fn take_lines(t: Seq<char>, n: nat) -> Option<(Seq<Seq<char>>, Seq<char>)>
    decreases n,
{
    if n == 0 {
        Some((Seq::empty(), t))
    } else if t.len() == 0 {
        None
    } else {
        match take_lines(after_line(t), (n - 1) as nat) {
            None => None,
            Some(rest) => Some((seq![first_line(t)] + rest.0, rest.1)),
        }
    }
}

/// `t` with each backslash followed by an `n` turned into a line feed.
pub open spec fn unescape(t: Seq<char>) -> Seq<char>
    decreases t.len(),
{
    if t.len() == 0 {
        t
    } else if t.len() >= 2 && t[0] == '\\' && t[1] == 'n' {
        seq!['\n'] + unescape(t.skip(2))
    } else {
        seq![t[0]] + unescape(t.skip(1))
    }
}

/// `t` with each line feed turned into a backslash and an `n`.
pub open spec fn escape(t: Seq<char>) -> Seq<char>
    decreases t.len(),
{
    if t.len() == 0 {
        t
    } else if t[0] == '\n' {
        seq!['\\', 'n'] + escape(t.skip(1))
    } else {
        seq![t[0]] + escape(t.skip(1))
    }
}

fn unescaped(t: &Vec<char>) -> (r: Vec<char>)
    ensures
        r@ == unescape(t@),
{
    let n: usize = t.len();
    let mut r: Vec<char> = Vec::new();
    let mut i: usize = 0;
    assert(t@.skip(0) == t@);
    assert(r@ + unescape(t@) == unescape(t@));
    while i < n
        invariant
            i <= n,
            n == t@.len(),
            r@ + unescape(t@.skip(i as int)) == unescape(t@),
        decreases n - i,
    {
        let ghost s = t@.skip(i as int);
        let ghost before = r@;
        if n - i >= 2 && t[i] == '\\' && t[i + 1] == 'n' {
            assert(s.skip(2) == t@.skip(i + 2));
            r.push('\n');
            i += 2;
            assert(before + (seq!['\n'] + unescape(t@.skip(i as int))) == r@ + unescape(
                t@.skip(i as int),
            ));
        } else {
            let c: char = t[i];
            assert(s.skip(1) == t@.skip(i + 1));
            r.push(c);
            i += 1;
            assert(before + (seq![c] + unescape(t@.skip(i as int))) == r@ + unescape(
                t@.skip(i as int),
            ));
        }
    }
    assert(t@.skip(n as int) == Seq::<char>::empty());
    assert(r@ + Seq::<char>::empty() == r@);
    r
}

/// Appends the text `t` with its line feeds escaped.
fn push_escaped(out: &mut Vec<char>, t: &Vec<char>)
    ensures
        final(out)@ == old(out)@ + escape(t@),
{
    let mut i: usize = 0;
    assert(t@.skip(0) == t@);
    while i < t.len()
        invariant
            i <= t@.len(),
            out@ + escape(t@.skip(i as int)) == old(out)@ + escape(t@),
        decreases t@.len() - i,
    {
        let ghost s = t@.skip(i as int);
        let ghost before = out@;
        let c: char = t[i];
        assert(s.skip(1) == t@.skip(i + 1));
        if c == '\n' {
            out.push('\\');
            out.push('n');
            assert(before + (seq!['\\', 'n'] + escape(t@.skip(i + 1)))
                == out@ + escape(t@.skip(i + 1)));
        } else {
            out.push(c);
            assert(before + (seq![c] + escape(t@.skip(i + 1))) == out@ + escape(t@.skip(i + 1)));
        }
        i += 1;
    }
    assert(t@.skip(t@.len() as int) == Seq::<char>::empty());
    assert(out@ + Seq::<char>::empty() == out@);
}

/// The lines `ls`, each with a line feed behind it.
pub open spec fn lines_text(ls: Seq<Seq<char>>) -> Seq<char>
    decreases ls.len(),
{
    if ls.len() == 0 {
        Seq::empty()
    } else {
        ls[0].push('\n') + lines_text(ls.skip(1))
    }
}

/// `es` lists the entries of `m` in increasing order of their pairs.
pub open spec fn is_entries(m: Map<Pair, usize>, es: Seq<(Pair, usize)>) -> bool {
    &&& forall|i: int, j: int| 0 <= i < j < es.len() ==> pair_less(#[trigger] es[i].0, #[trigger] es[j].0)
    &&& forall|i: int|
        0 <= i < es.len() ==> m.contains_key(#[trigger] es[i].0) && m[es[i].0] == es[i].1
    &&& forall|p: Pair| #[trigger]
        m.contains_key(p) ==> exists|i: int| 0 <= i < es.len() && #[trigger] es[i].0 == p
}

/// A merge on one line: the two tokens and the token that they become.
pub open spec fn merge_line(e: (Pair, usize)) -> Seq<char> {
    decimal(e.0.0 as nat).push(' ') + decimal(e.0.1 as nat).push(' ') + decimal(e.1 as nat)
}

/// All lines of a saved tokenizer.
pub open spec fn saved_lines(
    specials: Seq<Seq<char>>,
    vocab: Seq<Seq<char>>,
    es: Seq<(Pair, usize)>,
) -> Seq<Seq<char>> {
    seq![decimal(specials.len())] + specials + seq![decimal(vocab.len())] + vocab.map_values(
        |v: Seq<char>| escape(v),
    ) + es.map_values(|e: (Pair, usize)| merge_line(e))
}

/// What a saved tokenizer holds.
pub struct Saved {
    pub specials: Seq<Seq<char>>,
    pub vocab: Seq<Seq<char>>,
    pub merges: Map<Pair, usize>,
}

/// The merges that the lines of `t` add to `m`. A line with other than three numbers adds none;
/// a word that is no number spoils the text.
pub open spec fn parse_merges(t: Seq<char>, m: Map<Pair, usize>) -> Option<Map<Pair, usize>>
    decreases t.len(),
{
    if t.len() == 0 {
        Some(m)
    } else {
        proof {
            lemma_after_line(t);
        }
        match parse_numbers(first_line(t)) {
            None => None,
            Some(v) => parse_merges(
                after_line(t),
                if v.len() == 3 {
                    m.insert((v[0], v[1]), v[2])
                } else {
                    m
                },
            ),
        }
    }
}

/// What the text `t` holds, or nothing where it is no saved tokenizer.
pub open spec fn parse_saved(t: Seq<char>) -> Option<Saved> {
    if t.len() == 0 {
        None
    } else {
        match parse_number(first_line(t)) {
            None => None,
            Some(n) => match take_lines(after_line(t), n as nat) {
                None => None,
                Some((specials, t2)) => if t2.len() == 0 {
                    None
                } else {
                    match parse_number(first_line(t2)) {
                        None => None,
                        Some(m) => match take_lines(after_line(t2), m as nat) {
                            None => None,
                            Some((lines, t3)) => match parse_merges(t3, Map::empty()) {
                                None => None,
                                Some(merges) => Some(
                                    Saved {
                                        specials,
                                        vocab: lines.map_values(|l: Seq<char>| unescape(l)),
                                        merges,
                                    },
                                ),
                            },
                        },
                    }
                },
            },
        }
    }
}

proof fn lemma_lines_push(ls: Seq<Seq<char>>, l: Seq<char>)
    ensures
        lines_text(ls.push(l)) == lines_text(ls) + l.push('\n'),
    decreases ls.len(),
{
    let w = ls.push(l);
    if ls.len() == 0 {
        assert(lines_text(w.skip(1)) == Seq::<char>::empty());
        assert(lines_text(ls) == Seq::<char>::empty());
        assert(w[0].push('\n') + Seq::<char>::empty() == Seq::<char>::empty() + l.push('\n'));
    } else {
        lemma_lines_push(ls.skip(1), l);
        assert(w.skip(1) == ls.skip(1).push(l));
        assert(lines_text(w) == ls[0].push('\n') + lines_text(w.skip(1)));
        assert(ls[0].push('\n') + (lines_text(ls.skip(1)) + l.push('\n')) == (ls[0].push('\n')
            + lines_text(ls.skip(1))) + l.push('\n'));
    }
}

/// Reads `n` lines from position `at` on, and where the next one begins.
fn read_lines(t: &Vec<char>, at: usize, n: usize) -> (r: Option<(Vec<Vec<char>>, usize)>)
    requires
        at <= t@.len(),
    ensures
        match r {
            None => take_lines(t@.skip(at as int), n as nat) is None,
            Some((lines, next)) => {
                &&& next <= t@.len()
                &&& take_lines(t@.skip(at as int), n as nat) == Some(
                    (views(lines@), t@.skip(next as int)),
                )
            },
        },
{
    let mut lines: Vec<Vec<char>> = Vec::new();
    let mut pos: usize = at;
    let mut k: usize = 0;
    let ghost whole = take_lines(t@.skip(at as int), n as nat);
    proof {
        let r0 = take_lines(t@.skip(at as int), n as nat);
        if r0 is Some {
            assert(Seq::<Seq<char>>::empty() + (r0->0).0 == (r0->0).0);
        }
    }
    while k < n
        invariant
            k <= n,
            pos <= t@.len(),
            lines@.len() == k,
            whole == take_lines(t@.skip(at as int), n as nat),
            whole == (match take_lines(t@.skip(pos as int), (n - k) as nat) {
                None => None::<(Seq<Seq<char>>, Seq<char>)>,
                Some(rest) => Some((views(lines@) + rest.0, rest.1)),
            }),
        decreases n - k,
    {
        if pos >= t.len() {
            return None;
        }
        let (line, next) = read_line(t, pos);
        let ghost before = lines@;
        lines.push(line);
        proof {
            assert(views(lines@) == views(before).push(line@));
            let rest = take_lines(t@.skip(next as int), (n - k - 1) as nat);
            if rest is Some {
                assert(views(before) + (seq![line@] + (rest->0).0) == views(lines@) + (rest->0).0);
            }
        }
        pos = next;
        k += 1;
    }
    assert(views(lines@) + Seq::<Seq<char>>::empty() == views(lines@));
    Some((lines, pos))
}

fn read_merges(t: &Vec<char>, at: usize) -> (r: Option<FastMap>)
    requires
        at <= t@.len(),
    ensures
        match r {
            None => parse_merges(t@.skip(at as int), Map::empty()) is None,
            Some(m) => parse_merges(t@.skip(at as int), Map::empty()) == Some(m@),
        },
{
    let mut merges = FastMap::new();
    let mut pos: usize = at;
    while pos < t.len()
        invariant
            pos <= t@.len(),
            parse_merges(t@.skip(pos as int), merges@) == parse_merges(
                t@.skip(at as int),
                Map::empty(),
            ),
        decreases t@.len() - pos,
    {
        let (line, next) = read_line(t, pos);
        match read_numbers(&line) {
            None => {
                return None;
            },
            Some(parts) => {
                if parts.len() == 3 {
                    merges.insert((parts[0], parts[1]), parts[2]);
                }
            },
        }
        pos = next;
    }
    assert(t@.skip(t@.len() as int) == Seq::<char>::empty());
    Some(merges)
}

fn strings_of(v: &Vec<Vec<char>>) -> (r: Vec<String>)
    ensures
        texts(r@) == views(v@),
{
    let mut r: Vec<String> = Vec::new();
    let mut i: usize = 0;
    while i < v.len()
        invariant
            i <= v@.len(),
            texts(r@) == views(v@).take(i as int),
        decreases v@.len() - i,
    {
        let ghost before = r@;
        r.push(string_of(&v[i]));
        assert(texts(r@) == texts(before).push(v@[i as int]@));
        assert(views(v@).take(i + 1) == views(v@).take(i as int).push(v@[i as int]@));
        i += 1;
    }
    assert(views(v@).take(v@.len() as int) == views(v@));
    r
}

/// Appends a line.
fn push_line(out: &mut Vec<char>, line: &Vec<char>, Ghost(ls): Ghost<Seq<Seq<char>>>)
    requires
        old(out)@ == lines_text(ls),
    ensures
        final(out)@ == lines_text(ls.push(line@)),
{
    let mut i: usize = 0;
    while i < line.len()
        invariant
            i <= line@.len(),
            out@ == old(out)@ + line@.take(i as int),
        decreases line@.len() - i,
    {
        assert(line@.take(i + 1) == line@.take(i as int).push(line@[i as int]));
        out.push(line[i]);
        i += 1;
    }
    out.push('\n');
    proof {
        lemma_lines_push(ls, line@);
        assert(line@.take(line@.len() as int) == line@);
        assert(out@ == old(out)@ + line@.push('\n'));
    }
}

impl BPETokenizer {
    /// The saved form of the tokenizer.
    pub fn to_text(&self) -> (r: String)
        ensures
            exists|es: Seq<(Pair, usize)>|
                is_entries(self.merges@, es) && r@ == lines_text(
                    #[trigger] saved_lines(self.specials(), self.tokens(), es),
                ),
    {
        let ghost sp = self.specials();
        let ghost vo = self.tokens();
        let entries = self.merges.entries();
        let ghost es = entries@;
        let ghost escaped = vo.map_values(|v: Seq<char>| escape(v));
        let ghost merged = es.map_values(|e: (Pair, usize)| merge_line(e));
        let ghost mut ls = Seq::<Seq<char>>::empty();
        let mut out: Vec<char> = Vec::new();
        let mut number: Vec<char> = Vec::new();
        push_decimal(&mut number, self.special_tokens.len());
        assert(number@ == decimal(sp.len()));
        push_line(&mut out, &number, Ghost(ls));
        proof {
            ls = ls.push(number@);
        }
        let ghost base = ls;
        let mut i: usize = 0;
        assert(base + sp.take(0) == base);
        while i < self.special_tokens.len()
            invariant
                i <= self.special_tokens@.len(),
                sp == self.specials(),
                ls == base + sp.take(i as int),
                out@ == lines_text(ls),
            decreases self.special_tokens@.len() - i,
        {
            let line = chars_of(self.special_tokens[i].as_str());
            assert(sp[i as int] == line@);
            push_line(&mut out, &line, Ghost(ls));
            proof {
                ls = ls.push(line@);
                assert(base + sp.take(i + 1) == (base + sp.take(i as int)).push(sp[i as int]));
            }
            i += 1;
        }
        assert(sp.take(sp.len() as int) == sp);
        let mut number: Vec<char> = Vec::new();
        push_decimal(&mut number, self.vocab.len());
        assert(number@ == decimal(vo.len()));
        push_line(&mut out, &number, Ghost(ls));
        proof {
            ls = ls.push(number@);
        }
        let ghost base2 = ls;
        let mut i: usize = 0;
        assert(base2 + escaped.take(0) == base2);
        while i < self.vocab.len()
            invariant
                i <= self.vocab@.len(),
                vo == self.tokens(),
                escaped == vo.map_values(|v: Seq<char>| escape(v)),
                ls == base2 + escaped.take(i as int),
                out@ == lines_text(ls),
            decreases self.vocab@.len() - i,
        {
            let token = chars_of(self.vocab[i].as_str());
            assert(vo[i as int] == token@);
            let mut line: Vec<char> = Vec::new();
            push_escaped(&mut line, &token);
            assert(line@ == escaped[i as int]);
            push_line(&mut out, &line, Ghost(ls));
            proof {
                ls = ls.push(line@);
                assert(base2 + escaped.take(i + 1) == (base2 + escaped.take(i as int)).push(
                    escaped[i as int],
                ));
            }
            i += 1;
        }
        assert(escaped.take(escaped.len() as int) == escaped);
        let ghost base3 = ls;
        let mut i: usize = 0;
        assert(base3 + merged.take(0) == base3);
        while i < entries.len()
            invariant
                i <= entries@.len(),
                es == entries@,
                merged == es.map_values(|e: (Pair, usize)| merge_line(e)),
                ls == base3 + merged.take(i as int),
                out@ == lines_text(ls),
            decreases entries@.len() - i,
        {
            let (pair, id) = entries[i];
            let mut line: Vec<char> = Vec::new();
            push_decimal(&mut line, pair.0);
            line.push(' ');
            push_decimal(&mut line, pair.1);
            line.push(' ');
            push_decimal(&mut line, id);
            assert(line@ == merge_line(es[i as int]));
            push_line(&mut out, &line, Ghost(ls));
            proof {
                ls = ls.push(line@);
                assert(base3 + merged.take(i + 1) == (base3 + merged.take(i as int)).push(
                    merged[i as int],
                ));
            }
            i += 1;
        }
        proof {
            assert(merged.take(merged.len() as int) == merged);
            assert(ls == saved_lines(sp, vo, es));
            assert(is_entries(self.merges@, es));
        }
        string_of(&out)
    }

    /// The tokenizer that the text holds, or nothing where it is no saved tokenizer.
    pub fn from_text(text: &str) -> (r: Option<Self>)
        ensures
            match r {
                None => parse_saved(text@) is None,
                Some(tok) => parse_saved(text@) == Some(
                    (Saved { specials: tok.specials(), vocab: tok.tokens(), merges: tok.merges@ }),
                ),
            },
    {
        let t = chars_of(text);
        assert(t@.skip(0) == t@);
        if t.len() == 0 {
            return None;
        }
        let (line, at) = read_line(&t, 0);
        let num_special: usize = match read_number(&line) {
            None => {
                return None;
            },
            Some(n) => n,
        };
        let (special_lines, at2) = match read_lines(&t, at, num_special) {
            None => {
                return None;
            },
            Some(x) => x,
        };
        if at2 >= t.len() {
            assert(t@.skip(at2 as int).len() == 0);
            return None;
        }
        let (line2, at3) = read_line(&t, at2);
        let vocab_size: usize = match read_number(&line2) {
            None => {
                return None;
            },
            Some(n) => n,
        };
        let (vocab_lines, at4) = match read_lines(&t, at3, vocab_size) {
            None => {
                return None;
            },
            Some(x) => x,
        };
        let merges = match read_merges(&t, at4) {
            None => {
                return None;
            },
            Some(m) => m,
        };
        let special_tokens = strings_of(&special_lines);
        let ghost lines = views(vocab_lines@);
        let ghost plain = lines.map_values(|l: Seq<char>| unescape(l));
        let mut vocab: Vec<String> = Vec::new();
        let mut i: usize = 0;
        while i < vocab_lines.len()
            invariant
                i <= vocab_lines@.len(),
                lines == views(vocab_lines@),
                plain == lines.map_values(|l: Seq<char>| unescape(l)),
                texts(vocab@) == plain.take(i as int),
            decreases vocab_lines@.len() - i,
        {
            let ghost before = vocab@;
            vocab.push(string_of(&unescaped(&vocab_lines[i])));
            assert(lines[i as int] == vocab_lines@[i as int]@);
            assert(texts(vocab@) == texts(before).push(plain[i as int]));
            assert(plain.take(i + 1) == plain.take(i as int).push(plain[i as int]));
            i += 1;
        }
        assert(plain.take(plain.len() as int) == plain);
        Some(BPETokenizer { vocab, merges, special_tokens })
    }
}

} // verus!
