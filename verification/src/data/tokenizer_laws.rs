//! What holds of training, encoding, decoding and saving taken together.
use crate::data::bpe::{
    best_pair, is_best, lemma_forward_len, merge_backward, merge_forward, merge_pair, occurrences,
    occurs_at, pair_count, Pair,
};
use crate::data::merge_engine::greater_id;
use crate::data::text::{
    after_line, doc_marker, first_match, lemma_after_line, lemma_first_match, scan,
    scan_terminates, starts_with,
};
use crate::data::tokenizer::{
    apply_merges, decode_ids, known_ids, merges_next, pair_of, register, trained, training_run,
    training_start, training_step, Training,
};
use crate::data::tokenizer_file::{
    all_digits, decimal, digit_char, digit_value, digits_value, escape, first_line, is_digit,
    is_entries, is_white, lemma_line_len, lemma_word_len, line_len, lines_text, merge_line,
    parse_merges, parse_number, parse_numbers, parse_saved, saved_lines, take_lines, unescape,
    without_plus, word_len, Saved,
};
use vstd::prelude::*;

verus! {

/// A line that reading gives back as it was written.
pub open spec fn clean_line(l: Seq<char>) -> bool {
    &&& forall|i: int| 0 <= i < l.len() ==> #[trigger] l[i] != '\n'
    &&& l.len() > 0 ==> l.last() != '\r'
}

/// Whether `t` holds a backslash followed by an `n`.
pub open spec fn has_escape(t: Seq<char>) -> bool {
    exists|i: int| 0 <= i < t.len() - 1 && #[trigger] t[i] == '\\' && t[i + 1] == 'n'
}

proof fn lemma_first_line(l: Seq<char>, rest: Seq<char>)
    requires
        clean_line(l),
    ensures
        first_line(l.push('\n') + rest) == l,
        after_line(l.push('\n') + rest) == rest,
{
    let t = l.push('\n') + rest;
    lemma_line_len(t);
    let n = line_len(t) as int;
    assert(n == l.len()) by {
        if n < l.len() {
            assert(t[n] == l[n]);
        } else if n > l.len() {
            assert(t[l.len() as int] == '\n');
        }
    }
    assert(t.take(n) == l);
    assert(t.skip(n + 1) == rest);
    if n > 0 {
        assert(t[n - 1] == l.last());
    }
}

proof fn lemma_take_lines(ls: Seq<Seq<char>>, n: nat)
    requires
        n <= ls.len(),
        forall|i: int| 0 <= i < n ==> clean_line(#[trigger] ls[i]),
    ensures
        take_lines(lines_text(ls), n) == Some((ls.take(n as int), lines_text(ls.skip(n as int)))),
    decreases n,
{
    if n == 0 {
        assert(ls.take(0) == Seq::<Seq<char>>::empty());
        assert(ls.skip(0) == ls);
    } else {
        let t = lines_text(ls);
        let rest = ls.skip(1);
        assert(clean_line(ls[0]));
        lemma_first_line(ls[0], lines_text(rest));
        assert forall|i: int| 0 <= i < n - 1 implies clean_line(#[trigger] rest[i]) by {
            assert(rest[i] == ls[i + 1]);
        }
        lemma_take_lines(rest, (n - 1) as nat);
        assert(rest.skip(n - 1) == ls.skip(n as int));
        assert(seq![ls[0]] + rest.take(n - 1) == ls.take(n as int));
        assert(t.len() > 0);
    }
}

proof fn lemma_digit_char(d: nat)
    requires
        d < 10,
    ensures
        is_digit(digit_char(d)),
        digit_value(digit_char(d)) == d,
{
}

/// The digits of a number give the number back.
pub proof fn lemma_decimal(n: nat)
    ensures
        decimal(n).len() > 0,
        all_digits(decimal(n)),
        digits_value(decimal(n)) == n,
    decreases n,
{
    let s = decimal(n);
    lemma_digit_char(n % 10);
    if n >= 10 {
        lemma_decimal(n / 10);
        assert(s.drop_last() == decimal(n / 10));
        assert forall|i: int| 0 <= i < s.len() implies is_digit(#[trigger] s[i]) by {
            if i < s.len() - 1 {
                assert(decimal(n / 10)[i] == s[i]);
            }
        }
    } else {
        assert(s.drop_last() == Seq::<char>::empty());
        assert(digits_value(s.drop_last()) == 0);
    }
}

/// A number written in decimal reads back, and holds no white space.
pub proof fn lemma_parse_decimal(n: nat)
    requires
        n <= usize::MAX,
    ensures
        parse_number(decimal(n)) == Some(n as usize),
        clean_line(decimal(n)),
        forall|i: int| 0 <= i < decimal(n).len() ==> !is_white(#[trigger] decimal(n)[i]),
{
    lemma_decimal(n);
    let s = decimal(n);
    assert(is_digit(s[0]));
    assert forall|i: int| 0 <= i < s.len() implies !is_white(#[trigger] s[i]) && s[i] != '\n' && s[i]
        != '\r' by {
        assert(is_digit(s[i]));
    }
    assert(without_plus(s) == s);
}

proof fn lemma_word(w: Seq<char>, rest: Seq<char>)
    requires
        forall|i: int| 0 <= i < w.len() ==> !is_white(#[trigger] w[i]),
        rest.len() > 0 ==> is_white(rest[0]),
    ensures
        word_len(w + rest) == w.len(),
{
    let t = w + rest;
    lemma_word_len(t);
    let n = word_len(t) as int;
    if n < w.len() {
        assert(t[n] == w[n]);
        assert(!is_white(w[n]));
    } else if n > w.len() {
        assert(t[w.len() as int] == rest[0]);
    }
}

/// A number followed by a space or by nothing is read as one word.
proof fn lemma_parse_word(n: usize, rest: Seq<char>)
    requires
        rest.len() > 0 ==> is_white(rest[0]),
    ensures
        parse_numbers(decimal(n as nat) + rest) == (match parse_numbers(rest) {
            None => None::<Seq<usize>>,
            Some(v) => Some(seq![n] + v),
        }),
{
    lemma_parse_decimal(n as nat);
    let w = decimal(n as nat);
    let t = w + rest;
    lemma_decimal(n as nat);
    assert(t[0] == w[0]);
    lemma_word(w, rest);
    assert(t.take(w.len() as int) == w);
    assert(t.skip(w.len() as int) == rest);
}

proof fn lemma_merge_line(e: (Pair, usize))
    ensures
        parse_numbers(merge_line(e)) == Some(seq![e.0.0, e.0.1, e.1]),
        clean_line(merge_line(e)),
        merge_line(e).len() > 0,
{
    let a = decimal(e.0.0 as nat);
    let b = decimal(e.0.1 as nat);
    let c = decimal(e.1 as nat);
    lemma_decimal(e.0.0 as nat);
    lemma_decimal(e.0.1 as nat);
    lemma_decimal(e.1 as nat);
    let empty = Seq::<char>::empty();
    let rest_b = seq![' '] + c;
    let rest_a = seq![' '] + (b + rest_b);
    assert(is_white(' '));
    assert(c + empty == c);
    lemma_parse_word(e.1, empty);
    assert(parse_numbers(empty) == Some(Seq::<usize>::empty()));
    assert(parse_numbers(c) == Some(seq![e.1] + Seq::<usize>::empty()));
    assert(rest_b.skip(1) == c);
    assert(parse_numbers(rest_b) == parse_numbers(c));
    lemma_parse_word(e.0.1, rest_b);
    assert(rest_a.skip(1) == b + rest_b);
    assert(parse_numbers(rest_a) == parse_numbers(b + rest_b));
    lemma_parse_word(e.0.0, rest_a);
    assert(merge_line(e) == a + rest_a);
    let v = seq![e.0.0] + (seq![e.0.1] + (seq![e.1] + Seq::<usize>::empty()));
    assert(v == seq![e.0.0, e.0.1, e.1]);
    let l = merge_line(e);
    assert forall|i: int| 0 <= i < l.len() implies #[trigger] l[i] != '\n' by {
        if i < a.len() {
            assert(is_digit(a[i]));
        } else if a.len() < i < a.len() + 1 + b.len() {
            assert(is_digit(b[i - a.len() - 1]));
        } else if i > a.len() + 1 + b.len() {
            assert(is_digit(c[i - a.len() - b.len() - 2]));
        }
    }
    assert(l.last() == c.last());
    assert(is_digit(c[c.len() - 1]));
}

proof fn lemma_escape(t: Seq<char>)
    ensures
        forall|i: int| 0 <= i < escape(t).len() ==> #[trigger] escape(t)[i] != '\n',
        t.len() > 0 ==> escape(t).len() > 0,
        t.len() > 0 && t.last() != '\r' ==> escape(t).last() != '\r',
        t.len() > 0 ==> escape(t)[0] == (if t[0] == '\n' {
            '\\'
        } else {
            t[0]
        }),
        !has_escape(t) ==> unescape(escape(t)) == t,
    decreases t.len(),
{
    if t.len() > 0 {
        let u = t.skip(1);
        let e = escape(t);
        let f = escape(u);
        lemma_escape(u);
        if t[0] == '\n' {
            assert(e == seq!['\\', 'n'] + f);
            assert forall|i: int| 0 <= i < e.len() implies #[trigger] e[i] != '\n' by {
                if i >= 2 {
                    assert(e[i] == f[i - 2]);
                }
            }
            if u.len() > 0 {
                assert(e.last() == f.last());
                assert(t.last() == u.last());
            } else {
                assert(f == Seq::<char>::empty());
            }
        } else {
            assert(e == seq![t[0]] + f);
            assert forall|i: int| 0 <= i < e.len() implies #[trigger] e[i] != '\n' by {
                if i >= 1 {
                    assert(e[i] == f[i - 1]);
                }
            }
            if u.len() > 0 {
                assert(e.last() == f.last());
                assert(t.last() == u.last());
            } else {
                assert(f == Seq::<char>::empty());
            }
        }
        if !has_escape(t) {
            assert(!has_escape(u)) by {
                if has_escape(u) {
                    let i = choose|i: int| 0 <= i < u.len() - 1 && #[trigger] u[i] == '\\' && u[i + 1] == 'n';
                    assert(t[i + 1] == '\\' && t[i + 2] == 'n');
                }
            }
            if t[0] == '\n' {
                assert(e.skip(2) == f);
                assert(seq!['\n'] + u == t);
            } else {
                assert(e.skip(1) == f);
                if e.len() >= 2 && e[0] == '\\' && e[1] == 'n' {
                    assert(f[0] == 'n');
                    assert(u.len() > 0);
                    assert(u[0] == 'n');
                    assert(t[0] == '\\' && t[1] == 'n');
                    assert(false);
                }
                assert(unescape(e) == seq![e[0]] + unescape(e.skip(1)));
                assert(seq![t[0]] + u == t);
            }
        }
    }
}

/// The map that the first `n` entries of `es` make.
spec fn entries_map(es: Seq<(Pair, usize)>, n: int) -> Map<Pair, usize>
    decreases n,
{
    if n <= 0 {
        Map::empty()
    } else {
        entries_map(es, n - 1).insert(es[n - 1].0, es[n - 1].1)
    }
}

proof fn lemma_entries_map(m: Map<Pair, usize>, es: Seq<(Pair, usize)>, n: int)
    requires
        is_entries(m, es),
        0 <= n <= es.len(),
    ensures
        forall|p: Pair| #[trigger]
            entries_map(es, n).contains_key(p) <==> exists|i: int| 0 <= i < n && #[trigger] es[i].0 == p,
        forall|p: Pair| #[trigger]
            entries_map(es, n).contains_key(p) ==> m.contains_key(p) && entries_map(es, n)[p] == m[p],
    decreases n,
{
    if n > 0 {
        lemma_entries_map(m, es, n - 1);
        let a = entries_map(es, n - 1);
        let b = entries_map(es, n);
        assert forall|p: Pair| #[trigger] b.contains_key(p) <==> exists|i: int|
            0 <= i < n && #[trigger] es[i].0 == p by {
            if a.contains_key(p) {
                let i = choose|i: int| 0 <= i < n - 1 && #[trigger] es[i].0 == p;
                assert(es[i].0 == p);
            }
            if p == es[n - 1].0 {
                assert(es[n - 1].0 == p);
            }
            if exists|i: int| 0 <= i < n && #[trigger] es[i].0 == p {
                let i = choose|i: int| 0 <= i < n && #[trigger] es[i].0 == p;
                if i < n - 1 {
                    assert(es[i].0 == p);
                    assert(a.contains_key(p));
                }
            }
        }
    }
}

proof fn lemma_parse_merges(es: Seq<(Pair, usize)>, i: int)
    requires
        0 <= i <= es.len(),
    ensures
        parse_merges(
            lines_text(es.map_values(|e: (Pair, usize)| merge_line(e)).skip(i)),
            entries_map(es, i),
        ) == Some(entries_map(es, es.len() as int)),
    decreases es.len() - i,
{
    let ls = es.map_values(|e: (Pair, usize)| merge_line(e));
    let rest = ls.skip(i);
    let t = lines_text(rest);
    if i < es.len() {
        let l = rest[0];
        assert(l == merge_line(es[i]));
        lemma_merge_line(es[i]);
        lemma_first_line(l, lines_text(rest.skip(1)));
        assert(rest.skip(1) == ls.skip(i + 1));
        lemma_parse_merges(es, i + 1);
        assert(t.len() > 0);
    } else {
        assert(t == Seq::<char>::empty());
    }
}

/// Loading gives back what was saved. Left out are tokens that hold a backslash followed by an
/// `n`, tokens and special tokens that end in a carriage return, and special tokens that hold a
/// line feed: the format cannot tell them from others.
pub proof fn saved_text_loads(
    specials: Seq<Seq<char>>,
    vocab: Seq<Seq<char>>,
    merges: Map<Pair, usize>,
    es: Seq<(Pair, usize)>,
)
    requires
        is_entries(merges, es),
        specials.len() <= usize::MAX,
        vocab.len() <= usize::MAX,
        forall|i: int| 0 <= i < specials.len() ==> clean_line(#[trigger] specials[i]),
        forall|i: int|
            0 <= i < vocab.len() ==> !has_escape(#[trigger] vocab[i]) && (vocab[i].len() > 0
                ==> vocab[i].last() != '\r'),
    ensures
        parse_saved(lines_text(saved_lines(specials, vocab, es))) == Some(
            (Saved { specials, vocab, merges }),
        ),
{
    let ls = saved_lines(specials, vocab, es);
    let escaped = vocab.map_values(|v: Seq<char>| escape(v));
    let merged = es.map_values(|e: (Pair, usize)| merge_line(e));
    let t = lines_text(ls);
    let ns = specials.len();
    let nv = vocab.len();
    // The number of special tokens, and the special tokens.
    assert(ls[0] == decimal(ns));
    lemma_parse_decimal(ns);
    let ls1 = ls.skip(1);
    lemma_first_line(ls[0], lines_text(ls1));
    assert(t.len() > 0);
    assert forall|i: int| 0 <= i < ns implies clean_line(#[trigger] ls1[i]) by {
        assert(ls1[i] == specials[i]);
    }
    lemma_take_lines(ls1, ns);
    assert(ls1.take(ns as int) == specials);
    // The size of the vocabulary, and the vocabulary.
    let ls2 = ls1.skip(ns as int);
    assert(ls2[0] == decimal(nv));
    lemma_parse_decimal(nv);
    let ls3 = ls2.skip(1);
    lemma_first_line(ls2[0], lines_text(ls3));
    assert(lines_text(ls2).len() > 0);
    assert forall|i: int| 0 <= i < nv implies clean_line(#[trigger] ls3[i]) by {
        assert(ls3[i] == escape(vocab[i]));
        lemma_escape(vocab[i]);
        if vocab[i].len() == 0 {
            assert(escape(vocab[i]) == vocab[i]);
        }
    }
    lemma_take_lines(ls3, nv);
    assert(ls3.take(nv as int) == escaped);
    let plain = escaped.map_values(|l: Seq<char>| unescape(l));
    assert forall|i: int| 0 <= i < nv implies plain[i] == vocab[i] by {
        lemma_escape(vocab[i]);
    }
    assert(plain == vocab);
    // The merges.
    let ls4 = ls3.skip(nv as int);
    assert(ls4 == merged.skip(0));
    assert(entries_map(es, 0) == Map::<Pair, usize>::empty());
    lemma_parse_merges(es, 0);
    lemma_entries_map(merges, es, es.len() as int);
    assert(entries_map(es, es.len() as int) =~= merges);
}

/// Decoding goes token by token: the text of two runs of tokens is the one text behind the other.
pub proof fn decode_of_concatenation(vocab: Seq<Seq<char>>, a: Seq<usize>, b: Seq<usize>)
    ensures
        decode_ids(vocab, a + b) == decode_ids(vocab, a) + decode_ids(vocab, b),
    decreases b.len(),
{
    if b.len() == 0 {
        assert(a + b == a);
        assert(decode_ids(vocab, a) + Seq::<char>::empty() == decode_ids(vocab, a));
    } else {
        let s = a + b;
        assert(s.drop_last() == a + b.drop_last());
        assert(s.last() == b.last());
        decode_of_concatenation(vocab, a, b.drop_last());
        let last = if b.last() < vocab.len() {
            vocab[b.last() as int]
        } else {
            Seq::empty()
        };
        assert((decode_ids(vocab, a) + decode_ids(vocab, b.drop_last())) + last == decode_ids(vocab, a)
            + (decode_ids(vocab, b.drop_last()) + last));
    }
}

proof fn lemma_decode_one(vocab: Seq<Seq<char>>, id: usize)
    requires
        id < vocab.len(),
    ensures
        decode_ids(vocab, seq![id]) == vocab[id as int],
{
    let s = seq![id];
    assert(s.drop_last() == Seq::<usize>::empty());
    assert(decode_ids(vocab, s.drop_last()) == Seq::<char>::empty());
    assert(Seq::<char>::empty() + vocab[id as int] == vocab[id as int]);
}

/// Each merge joins the texts of two tokens into the text of a third.
pub open spec fn consistent(vocab: Seq<Seq<char>>, merges: Map<Pair, usize>) -> bool {
    forall|p: Pair| #[trigger]
        merges.contains_key(p) ==> {
            &&& p.0 < vocab.len()
            &&& p.1 < vocab.len()
            &&& merges[p] < vocab.len()
            &&& vocab[merges[p] as int] == vocab[p.0 as int] + vocab[p.1 as int]
        }
}

proof fn lemma_merge_keeps_text(vocab: Seq<Seq<char>>, ids: Seq<usize>, p: Pair, new_id: usize)
    requires
        p.0 < vocab.len(),
        p.1 < vocab.len(),
        new_id < vocab.len(),
        vocab[new_id as int] == vocab[p.0 as int] + vocab[p.1 as int],
    ensures
        decode_ids(vocab, merge_forward(ids, p, new_id)) == decode_ids(vocab, ids),
    decreases ids.len(),
{
    if ids.len() >= 2 {
        if occurs_at(ids, p, 0) {
            let rest = ids.skip(2);
            lemma_merge_keeps_text(vocab, rest, p, new_id);
            decode_of_concatenation(vocab, seq![new_id], merge_forward(rest, p, new_id));
            lemma_decode_one(vocab, new_id);
            assert(ids == (seq![p.0] + seq![p.1]) + rest);
            decode_of_concatenation(vocab, seq![p.0] + seq![p.1], rest);
            decode_of_concatenation(vocab, seq![p.0], seq![p.1]);
            lemma_decode_one(vocab, p.0);
            lemma_decode_one(vocab, p.1);
        } else {
            let rest = ids.skip(1);
            lemma_merge_keeps_text(vocab, rest, p, new_id);
            decode_of_concatenation(vocab, seq![ids[0]], merge_forward(rest, p, new_id));
            decode_of_concatenation(vocab, seq![ids[0]], rest);
            assert(ids == seq![ids[0]] + rest);
        }
    }
}

/// Merging tokens never changes the text that they stand for.
pub proof fn merging_keeps_text(vocab: Seq<Seq<char>>, merges: Map<Pair, usize>, ids: Seq<usize>)
    requires
        consistent(vocab, merges),
    ensures
        decode_ids(vocab, apply_merges(ids, merges)) == decode_ids(vocab, ids),
    decreases ids.len(),
{
    if exists|k: int| merges_next(ids, merges, k) {
        let k = choose|k: int| merges_next(ids, merges, k);
        let p = pair_of(ids, k);
        assert(merges.contains_key(p));
        lemma_forward_len(ids, p, merges[p]);
        assert(occurs_at(ids, p, k));
        lemma_merge_keeps_text(vocab, ids, p, merges[p]);
        merging_keeps_text(vocab, merges, merge_forward(ids, p, merges[p]));
    }
}

/// The pieces that the vocabulary has, one behind the other.
pub open spec fn known_text(vocab: Seq<Seq<char>>, pieces: Seq<Seq<char>>) -> Seq<char>
    decreases pieces.len(),
{
    if pieces.len() == 0 {
        Seq::empty()
    } else {
        known_text(vocab, pieces.drop_last()) + (if vocab.contains(pieces.last()) {
            pieces.last()
        } else {
            Seq::empty()
        })
    }
}

/// Encoding a text and decoding the tokens gives back the pieces of the text that the vocabulary has.
pub proof fn decode_of_encode(
    vocab: Seq<Seq<char>>,
    merges: Map<Pair, usize>,
    pieces: Seq<Seq<char>>,
)
    requires
        consistent(vocab, merges),
        vocab.len() <= usize::MAX,
    ensures
        decode_ids(vocab, apply_merges(known_ids(vocab, pieces), merges)) == known_text(vocab, pieces),
{
    merging_keeps_text(vocab, merges, known_ids(vocab, pieces));
    lemma_known(vocab, pieces);
}

proof fn lemma_known(vocab: Seq<Seq<char>>, pieces: Seq<Seq<char>>)
    requires
        vocab.len() <= usize::MAX,
    ensures
        decode_ids(vocab, known_ids(vocab, pieces)) == known_text(vocab, pieces),
    decreases pieces.len(),
{
    if pieces.len() > 0 {
        lemma_known(vocab, pieces.drop_last());
        vocab.index_of_first_ensures(pieces.last());
        let ids = known_ids(vocab, pieces.drop_last());
        match vocab.index_of_first(pieces.last()) {
            Some(i) => {
                assert(ids.push(i as usize).drop_last() == ids);
            },
            None => {
                assert(known_text(vocab, pieces.drop_last()) + Seq::<char>::empty() == known_text(
                    vocab,
                    pieces.drop_last(),
                ));
            },
        }
    }
}

/// `t` holds no line that scanning leaves out.
pub open spec fn no_doc_lines(t: Seq<char>) -> bool {
    forall|i: int| 0 <= i < t.len() ==> !starts_with(#[trigger] t.skip(i), doc_marker())
}

proof fn lemma_known_text_prepend(vocab: Seq<Seq<char>>, x: Seq<char>, pieces: Seq<Seq<char>>)
    requires
        vocab.contains(x),
    ensures
        known_text(vocab, seq![x] + pieces) == x + known_text(vocab, pieces),
    decreases pieces.len(),
{
    let s = seq![x] + pieces;
    if pieces.len() == 0 {
        assert(s.drop_last() == Seq::<Seq<char>>::empty());
        assert(known_text(vocab, s.drop_last()) == Seq::<char>::empty());
        assert(Seq::<char>::empty() + x == x + Seq::<char>::empty());
    } else {
        assert(s.drop_last() == seq![x] + pieces.drop_last());
        assert(s.last() == pieces.last());
        lemma_known_text_prepend(vocab, x, pieces.drop_last());
        let last = if vocab.contains(pieces.last()) {
            pieces.last()
        } else {
            Seq::empty()
        };
        assert((x + known_text(vocab, pieces.drop_last())) + last == x + (known_text(
            vocab,
            pieces.drop_last(),
        ) + last));
    }
}

proof fn lemma_scan_covers(vocab: Seq<Seq<char>>, t: Seq<char>, specials: Seq<Seq<char>>)
    requires
        scan_terminates(t, specials),
        no_doc_lines(t),
        forall|i: int| 0 <= i < scan(t, specials).len() ==> vocab.contains(#[trigger] scan(t, specials)[i]),
    ensures
        known_text(vocab, scan(t, specials)) == t,
    decreases t.len(),
{
    let pieces = scan(t, specials);
    if t.len() > 0 {
        assert(t.skip(0) == t);
        assert(!starts_with(t.skip(0), doc_marker()));
        lemma_first_match(t, specials, 0);
        let x = match first_match(t, specials, 0) {
            Some(k) => specials[k],
            None => t.take(1),
        };
        let n = x.len() as int;
        let rest = t.skip(n);
        assert(pieces == seq![x] + scan(rest, specials));
        assert(pieces[0] == x);
        assert(t.take(n) == x);
        assert forall|i: int| 0 <= i < rest.len() implies !starts_with(
            #[trigger] rest.skip(i),
            doc_marker(),
        ) by {
            assert(rest.skip(i) == t.skip(n + i));
        }
        assert forall|i: int| 0 <= i < scan(rest, specials).len() implies vocab.contains(
            #[trigger] scan(rest, specials)[i],
        ) by {
            assert(scan(rest, specials)[i] == pieces[i + 1]);
        }
        lemma_scan_covers(vocab, rest, specials);
        lemma_known_text_prepend(vocab, x, scan(rest, specials));
        assert(x + rest == t);
    } else {
        assert(pieces == Seq::<Seq<char>>::empty());
        assert(t == Seq::<char>::empty());
    }
}

/// A text whose pieces are all in the vocabulary comes back from encoding and decoding as it was,
/// where it holds no provenance line.
pub proof fn encode_decode_round_trip(
    vocab: Seq<Seq<char>>,
    merges: Map<Pair, usize>,
    specials: Seq<Seq<char>>,
    text: Seq<char>,
)
    requires
        consistent(vocab, merges),
        vocab.len() <= usize::MAX,
        scan_terminates(text, specials),
        no_doc_lines(text),
        forall|i: int|
            0 <= i < scan(text, specials).len() ==> vocab.contains(#[trigger] scan(text, specials)[i]),
    ensures
        decode_ids(vocab, apply_merges(known_ids(vocab, scan(text, specials)), merges)) == text,
{
    decode_of_encode(vocab, merges, scan(text, specials));
    lemma_scan_covers(vocab, text, specials);
}

proof fn lemma_forward_end(ids: Seq<usize>, p: Pair, new_id: usize)
    requires
        p.0 != p.1,
        ids.len() >= 2,
    ensures
        merge_forward(ids, p, new_id) == (if occurs_at(ids, p, ids.len() - 2) {
            merge_forward(ids.take(ids.len() - 2), p, new_id).push(new_id)
        } else {
            merge_forward(ids.drop_last(), p, new_id).push(ids.last())
        }),
    decreases ids.len(),
{
    let n = ids.len() as int;
    let tail = occurs_at(ids, p, n - 2);
    let cut = if tail {
        ids.take(n - 2)
    } else {
        ids.drop_last()
    };
    let last = if tail {
        new_id
    } else {
        ids.last()
    };
    let head = occurs_at(ids, p, 0);
    let m: int = if head {
        2
    } else {
        1
    };
    let x = if head {
        new_id
    } else {
        ids[0]
    };
    let rest = ids.skip(m);
    if rest.len() >= 2 {
        lemma_forward_end(rest, p, new_id);
        assert(occurs_at(rest, p, rest.len() - 2) == tail);
        let rcut = if tail {
            rest.take(rest.len() - 2)
        } else {
            rest.drop_last()
        };
        assert(merge_forward(rest, p, new_id) == merge_forward(rcut, p, new_id).push(last));
        assert(cut.skip(m) == rcut);
        if cut.len() >= 2 {
            assert(occurs_at(cut, p, 0) == head);
            assert(merge_forward(cut, p, new_id) == seq![x] + merge_forward(rcut, p, new_id));
        } else {
            assert(rcut == Seq::<usize>::empty());
            assert(cut == seq![ids[0]]);
            assert(merge_forward(rcut, p, new_id) == Seq::<usize>::empty());
            assert(seq![x] + Seq::<usize>::empty() == cut);
        }
        assert(seq![x] + merge_forward(rcut, p, new_id).push(last) == (seq![x] + merge_forward(
            rcut,
            p,
            new_id,
        )).push(last));
    } else {
        assert(merge_forward(rest, p, new_id) == rest);
        assert(n == 2 || n == 3);
        if n == 3 {
            assert(head && !tail);
            assert(occurs_at(cut, p, 0));
            assert(cut.skip(2) == Seq::<usize>::empty());
            assert(merge_forward(cut.skip(2), p, new_id) == Seq::<usize>::empty());
            assert(seq![x] + Seq::<usize>::empty() == seq![x]);
            assert(rest == seq![ids[2]]);
            assert(seq![x] + rest == seq![x].push(ids[2]));
        } else if head {
            assert(cut == Seq::<usize>::empty());
            assert(rest == Seq::<usize>::empty());
            assert(seq![x] + rest == cut.push(new_id));
        } else {
            assert(cut == seq![ids[0]]);
            assert(seq![x] + rest == cut.push(ids[1]));
        }
    }
}

/// Where the two tokens of a pair differ, the direction of replacement does not matter.
pub proof fn merge_directions_agree(ids: Seq<usize>, p: Pair, new_id: usize)
    requires
        p.0 != p.1,
    ensures
        merge_forward(ids, p, new_id) == merge_backward(ids, p, new_id),
    decreases ids.len(),
{
    if ids.len() >= 2 {
        lemma_forward_end(ids, p, new_id);
        if occurs_at(ids, p, ids.len() - 2) {
            merge_directions_agree(ids.take(ids.len() - 2), p, new_id);
        } else {
            merge_directions_agree(ids.drop_last(), p, new_id);
        }
    }
}

proof fn lemma_forward_shape(ids: Seq<usize>, p: Pair, new_id: usize, q: Pair)
    requires
        new_id != q.0,
        new_id != q.1,
        q == p || forall|k: int| !#[trigger] occurs_at(ids, q, k),
    ensures
        forall|k: int| !#[trigger] occurs_at(merge_forward(ids, p, new_id), q, k),
        forall|i: int|
            0 <= i < merge_forward(ids, p, new_id).len() ==> ids.contains(
                #[trigger] merge_forward(ids, p, new_id)[i],
            ) || merge_forward(ids, p, new_id)[i] == new_id,
        ids.len() > 0 ==> merge_forward(ids, p, new_id).len() > 0 && (merge_forward(ids, p, new_id)[0]
            == ids[0] || merge_forward(ids, p, new_id)[0] == new_id),
    decreases ids.len(),
{
    let r = merge_forward(ids, p, new_id);
    if ids.len() >= 2 {
        let m: int = if occurs_at(ids, p, 0) {
            2
        } else {
            1
        };
        let rest = ids.skip(m);
        assert forall|k: int| q != p implies !#[trigger] occurs_at(rest, q, k) by {
            assert(!occurs_at(ids, q, k + m));
        }
        lemma_forward_shape(rest, p, new_id, q);
        let rr = merge_forward(rest, p, new_id);
        assert forall|i: int| 0 <= i < r.len() implies ids.contains(#[trigger] r[i]) || r[i] == new_id by {
            if i > 0 {
                assert(r[i] == rr[i - 1]);
                if rest.contains(rr[i - 1]) {
                    let j = choose|j: int| 0 <= j < rest.len() && rest[j] == rr[i - 1];
                    assert(ids[j + m] == rr[i - 1]);
                }
            } else if m == 1 {
                assert(r[0] == ids[0]);
            }
        }
        assert forall|k: int| !#[trigger] occurs_at(r, q, k) by {
            if occurs_at(r, q, k) {
                if k > 0 {
                    assert(occurs_at(rr, q, k - 1));
                } else if m == 1 {
                    assert(r[1] == rr[0]);
                    assert(rest[0] == ids[1]);
                    assert(occurs_at(ids, q, 0));
                }
            }
        }
    } else {
        assert(r == ids);
    }
}

proof fn lemma_backward_shape(ids: Seq<usize>, p: Pair, new_id: usize, q: Pair)
    requires
        new_id != q.0,
        new_id != q.1,
        q == p || forall|k: int| !#[trigger] occurs_at(ids, q, k),
    ensures
        forall|k: int| !#[trigger] occurs_at(merge_backward(ids, p, new_id), q, k),
        forall|i: int|
            0 <= i < merge_backward(ids, p, new_id).len() ==> ids.contains(
                #[trigger] merge_backward(ids, p, new_id)[i],
            ) || merge_backward(ids, p, new_id)[i] == new_id,
        ids.len() > 0 ==> merge_backward(ids, p, new_id).len() > 0 && (merge_backward(ids, p, new_id).last()
            == ids.last() || merge_backward(ids, p, new_id).last() == new_id),
    decreases ids.len(),
{
    let r = merge_backward(ids, p, new_id);
    if ids.len() >= 2 {
        let n = ids.len() as int;
        let hit = occurs_at(ids, p, n - 2);
        let rest = if hit {
            ids.take(n - 2)
        } else {
            ids.drop_last()
        };
        assert forall|k: int| q != p implies !#[trigger] occurs_at(rest, q, k) by {
            assert(!occurs_at(ids, q, k));
        }
        lemma_backward_shape(rest, p, new_id, q);
        let rr = merge_backward(rest, p, new_id);
        let e = r.len() - 1;
        assert(rr.len() == e);
        assert forall|i: int| 0 <= i < r.len() implies ids.contains(#[trigger] r[i]) || r[i] == new_id by {
            if i < e {
                assert(r[i] == rr[i]);
                if rest.contains(rr[i]) {
                    let j = choose|j: int| 0 <= j < rest.len() && rest[j] == rr[i];
                    assert(ids[j] == rr[i]);
                }
            } else if !hit {
                assert(r[i] == ids[n - 1]);
            }
        }
        assert forall|k: int| !#[trigger] occurs_at(r, q, k) by {
            if occurs_at(r, q, k) {
                if k + 1 < e {
                    assert(occurs_at(rr, q, k));
                } else if !hit {
                    assert(r[k] == rr.last());
                    assert(rest.last() == ids[n - 2]);
                    assert(occurs_at(ids, q, n - 2));
                }
            }
        }
    } else {
        assert(r == ids);
    }
}

/// After a pair has been replaced it no longer occurs, and no other pair of older tokens has come
/// up anew.
pub proof fn merged_pair_is_gone(ids: Seq<usize>, p: Pair, new_id: usize, forward: bool, q: Pair)
    requires
        new_id != q.0,
        new_id != q.1,
        q == p || forall|k: int| !#[trigger] occurs_at(ids, q, k),
    ensures
        forall|k: int| !#[trigger] occurs_at(merge_pair(ids, p, new_id, forward), q, k),
{
    lemma_forward_shape(ids, p, new_id, q);
    lemma_backward_shape(ids, p, new_id, q);
}

/// What training keeps from the vocabulary `base` on: the base stays in front, each merge makes
/// one new token out of the texts of two, and a merged pair does not occur again.
pub open spec fn training_ok(s: Training, base: Seq<Seq<char>>) -> bool {
    &&& base.len() <= s.vocab.len()
    &&& s.vocab.take(base.len() as int) == base
    &&& s.forward.len() == s.vocab.len()
    &&& forall|i: int| 0 <= i < s.ids.len() ==> #[trigger] s.ids[i] < s.vocab.len()
    &&& consistent(s.vocab, s.merges)
    &&& forall|p: Pair, k: int| #[trigger] s.merges.contains_key(p) ==> !#[trigger] occurs_at(s.ids, p, k)
    &&& forall|p: Pair| #[trigger]
        s.merges.contains_key(p) ==> {
            &&& base.len() <= s.merges[p]
            &&& p.0 < s.merges[p]
            &&& p.1 < s.merges[p]
        }
    &&& s.merges.dom().finite()
    &&& s.vocab.len() == base.len() + s.merges.len()
    &&& forall|p: Pair, q: Pair| #[trigger]
        s.merges.contains_key(p) && #[trigger] s.merges.contains_key(q) && s.merges[p] == s.merges[q]
            ==> p == q
    &&& forall|id: int| base.len() <= id < s.vocab.len() ==> #[trigger] has_merge(s.merges, id)
}

/// Some merge makes the token `id`.
pub open spec fn has_merge(merges: Map<Pair, usize>, id: int) -> bool {
    exists|p: Pair| #[trigger] merges.contains_key(p) && merges[p] == id
}

proof fn lemma_best_occurs(ids: Seq<usize>, p: Pair) -> (k: int)
    requires
        best_pair(ids) == Some(p),
    ensures
        occurs_at(ids, p, k),
{
    assert(is_best(ids, p));
    let occ = occurrences(ids, p);
    assert(pair_count(ids, p) == occ.len());
    assert(occ.len() != 0);
    if forall|k: int| !occ.contains(k) {
        assert(occ =~= Set::empty());
    }
    let k = choose|k: int| occ.contains(k);
    k
}

proof fn lemma_training_step(s: Training, base: Seq<Seq<char>>, p: Pair)
    requires
        training_ok(s, base),
        best_pair(s.ids) == Some(p),
        s.vocab.len() <= usize::MAX,
    ensures
        training_ok(training_step(s, p), base),
{
    let t = training_step(s, p);
    let new_id = s.vocab.len() as usize;
    let f = s.forward[greater_id(p) as int];
    let k = lemma_best_occurs(s.ids, p);
    assert(s.ids[k] < s.vocab.len() && s.ids[k + 1] < s.vocab.len());
    assert(t.vocab.take(base.len() as int) == s.vocab.take(base.len() as int));
    lemma_forward_shape(s.ids, p, new_id, p);
    lemma_backward_shape(s.ids, p, new_id, p);
    assert forall|i: int| 0 <= i < t.ids.len() implies #[trigger] t.ids[i] < t.vocab.len() by {
        if s.ids.contains(t.ids[i]) {
            let j = choose|j: int| 0 <= j < s.ids.len() && s.ids[j] == t.ids[i];
            assert(s.ids[j] < s.vocab.len());
        }
    }
    assert forall|q: Pair| #[trigger] t.merges.contains_key(q) implies {
        &&& q.0 < t.vocab.len()
        &&& q.1 < t.vocab.len()
        &&& t.merges[q] < t.vocab.len()
        &&& t.vocab[t.merges[q] as int] == t.vocab[q.0 as int] + t.vocab[q.1 as int]
        &&& base.len() <= t.merges[q]
        &&& q.0 < t.merges[q]
        &&& q.1 < t.merges[q]
    } by {
        if q != p {
            assert(s.merges.contains_key(q));
        }
    }
    assert(!s.merges.contains_key(p)) by {
        if s.merges.contains_key(p) {
            assert(!occurs_at(s.ids, p, k));
        }
    }
    assert forall|q: Pair, j: int| #[trigger] t.merges.contains_key(q) implies !#[trigger] occurs_at(
        t.ids,
        q,
        j,
    ) by {
        if q != p {
            assert(s.merges.contains_key(q));
            assert forall|i: int| !#[trigger] occurs_at(s.ids, q, i) by {}
        }
        merged_pair_is_gone(s.ids, p, new_id, f, q);
    }
    assert forall|a: Pair, b: Pair| #[trigger]
        t.merges.contains_key(a) && #[trigger] t.merges.contains_key(b) && t.merges[a]
            == t.merges[b] implies a == b by {
        if a != p {
            assert(s.merges.contains_key(a));
        }
        if b != p {
            assert(s.merges.contains_key(b));
        }
    }
    assert forall|id: int| base.len() <= id < t.vocab.len() implies #[trigger] has_merge(t.merges, id) by {
        if id == new_id {
            assert(t.merges.contains_key(p) && t.merges[p] == id);
        } else {
            assert(has_merge(s.merges, id));
            let q = choose|q: Pair| #[trigger] s.merges.contains_key(q) && s.merges[q] == id;
            assert(t.merges.contains_key(q) && t.merges[q] == id);
        }
    }
}

proof fn lemma_training_run(s: Training, base: Seq<Seq<char>>, n: nat)
    requires
        training_ok(s, base),
        s.vocab.len() + n <= usize::MAX,
    ensures
        training_ok(training_run(s, n), base),
        training_run(s, n).vocab.len() <= s.vocab.len() + n,
        training_run(s, n).vocab.len() < s.vocab.len() + n ==> best_pair(training_run(s, n).ids) is None,
    decreases n,
{
    if n > 0 {
        match best_pair(s.ids) {
            None => {},
            Some(p) => {
                lemma_training_step(s, base, p);
                lemma_training_run(training_step(s, p), base, (n - 1) as nat);
            },
        }
    }
}

proof fn lemma_register_keeps(vocab: Seq<Seq<char>>, pieces: Seq<Seq<char>>)
    ensures
        register(vocab, pieces).len() >= vocab.len(),
        register(vocab, pieces).take(vocab.len() as int) == vocab,
        forall|i: int| 0 <= i < pieces.len() ==> register(vocab, pieces).contains(#[trigger] pieces[i]),
    decreases pieces.len(),
{
    let r = register(vocab, pieces);
    if pieces.len() == 0 {
        assert(vocab.take(vocab.len() as int) == vocab);
    } else {
        let d = pieces.drop_last();
        let v = register(vocab, d);
        lemma_register_keeps(vocab, d);
        assert(r.take(vocab.len() as int) == v.take(vocab.len() as int));
        assert forall|i: int| 0 <= i < pieces.len() implies r.contains(#[trigger] pieces[i]) by {
            if i < d.len() {
                assert(d[i] == pieces[i]);
                let j = choose|j: int| 0 <= j < v.len() && v[j] == pieces[i];
                assert(r[j] == pieces[i]);
            } else if !v.contains(pieces.last()) {
                assert(r[v.len() as int] == pieces[i]);
            }
        }
    }
}

/// A special token or one character.
spec fn is_piece(t: Seq<char>, specials: Seq<Seq<char>>) -> bool {
    specials.contains(t) || t.len() == 1
}

proof fn lemma_pieces_before(
    first: Seq<char>,
    rest: Seq<Seq<char>>,
    specials: Seq<Seq<char>>,
)
    requires
        is_piece(first, specials),
        forall|i: int| 0 <= i < rest.len() ==> is_piece(#[trigger] rest[i], specials),
    ensures
        forall|i: int|
            0 <= i < rest.len() + 1 ==> is_piece(#[trigger] (seq![first] + rest)[i], specials),
{
    let all = seq![first] + rest;
    assert forall|i: int| 0 <= i < rest.len() + 1 implies is_piece(#[trigger] all[i], specials) by {
        if i > 0 {
            assert(all[i] == rest[i - 1]);
        }
    }
}

/// Every piece of a text is a special token or one character.
proof fn lemma_scan_pieces(text: Seq<char>, specials: Seq<Seq<char>>)
    ensures
        forall|i: int|
            0 <= i < scan(text, specials).len() ==> is_piece(
                #[trigger] scan(text, specials)[i],
                specials,
            ),
    decreases text.len(),
{
    if text.len() > 0 {
        if starts_with(text, doc_marker()) {
            lemma_after_line(text);
            lemma_scan_pieces(after_line(text), specials);
            assert(scan(text, specials) == scan(after_line(text), specials));
        } else {
            match first_match(text, specials, 0) {
                Some(k) => {
                    lemma_first_match(text, specials, 0);
                    if 0 < specials[k].len() <= text.len() {
                        let rest = text.skip(specials[k].len() as int);
                        lemma_scan_pieces(rest, specials);
                        lemma_pieces_before(specials[k], scan(rest, specials), specials);
                        assert(scan(text, specials) == seq![specials[k]] + scan(rest, specials));
                    } else {
                        assert(scan(text, specials).len() == 0);
                    }
                },
                None => {
                    lemma_scan_pieces(text.skip(1), specials);
                    lemma_pieces_before(text.take(1), scan(text.skip(1), specials), specials);
                    assert(scan(text, specials) == seq![text.take(1)] + scan(
                        text.skip(1),
                        specials,
                    ));
                },
            }
        }
    }
}

/// What registering adds are pieces that were not there.
proof fn lemma_register_adds(vocab: Seq<Seq<char>>, pieces: Seq<Seq<char>>)
    ensures
        forall|i: int|
            vocab.len() <= i < register(vocab, pieces).len() ==> pieces.contains(
                #[trigger] register(vocab, pieces)[i],
            ) && !vocab.contains(register(vocab, pieces)[i]),
    decreases pieces.len(),
{
    if pieces.len() > 0 {
        let d = pieces.drop_last();
        let v = register(vocab, d);
        let r = register(vocab, pieces);
        lemma_register_adds(vocab, d);
        lemma_register_keeps(vocab, d);
        assert forall|i: int| vocab.len() <= i < r.len() implies pieces.contains(#[trigger] r[i])
            && !vocab.contains(r[i]) by {
            if i < v.len() {
                assert(r[i] == v[i]);
                let j = choose|j: int| 0 <= j < d.len() && d[j] == v[i];
                assert(pieces[j] == r[i]);
            } else {
                assert(r[i] == pieces[pieces.len() - 1]);
                if vocab.contains(r[i]) {
                    let j = choose|j: int| 0 <= j < vocab.len() && vocab[j] == r[i];
                    assert(v.take(vocab.len() as int)[j] == v[j]);
                    assert(v.contains(pieces.last()));
                }
            }
        }
    }
}

/// Training yields a vocabulary that begins with the special tokens, goes on with single
/// characters, until all pieces of the text are there, and has one merge for each further token,
/// of two tokens before it. It stops at the wanted size, or earlier only where no pair occurs
/// twice.
pub proof fn training_builds_vocabulary(text: Seq<char>, target: usize, specials: Seq<Seq<char>>)
    requires
        training_start(text, specials).vocab.len() <= usize::MAX,
    ensures
        ({
            let start = training_start(text, specials);
            let done = trained(text, target, specials);
            let base = start.vocab.len() as int;
            &&& training_ok(done, start.vocab)
            &&& base == done.vocab.len() - done.merges.len()
            &&& specials.len() <= base
            &&& done.vocab.take(specials.len() as int) == specials
            &&& forall|i: int|
                specials.len() <= i < base ==> #[trigger] done.vocab[i].len() == 1
            &&& forall|p: Pair| #[trigger]
                done.merges.contains_key(p) ==> {
                    let id = done.merges[p];
                    &&& base <= id < done.vocab.len()
                    &&& p.0 < id
                    &&& p.1 < id
                    &&& done.vocab[id as int] == done.vocab[p.0 as int] + done.vocab[p.1 as int]
                }
            &&& forall|id: int|
                base <= id < done.vocab.len() ==> #[trigger] has_merge(done.merges, id)
            &&& forall|p: Pair, q: Pair| #[trigger]
                done.merges.contains_key(p) && #[trigger] done.merges.contains_key(q)
                    && done.merges[p] == done.merges[q] ==> p == q
            &&& forall|i: int|
                0 <= i < scan(text, specials).len() ==> done.vocab.contains(
                    #[trigger] scan(text, specials)[i],
                )
            &&& start.vocab.len() <= target ==> done.vocab.len() <= target
            &&& start.vocab.len() > target ==> done == start
            &&& done.vocab.len() < target ==> best_pair(done.ids) is None
        }),
{
    let start = training_start(text, specials);
    let pieces = scan(text, specials);
    let base = start.vocab;
    lemma_register_keeps(specials, pieces);
    assert(base.take(base.len() as int) == base);
    assert forall|i: int| 0 <= i < start.ids.len() implies #[trigger] start.ids[i] < base.len() by {
        assert(base.contains(pieces[i]));
        base.index_of_last_ensures(pieces[i]);
    }
    assert(training_ok(start, base));
    let n = if target > base.len() {
        (target - base.len()) as nat
    } else {
        0
    };
    lemma_training_run(start, base, n);
    let done = trained(text, target, specials);
    assert(done.vocab.take(specials.len() as int) =~= base.take(specials.len() as int)) by {
        assert forall|i: int| 0 <= i < specials.len() implies done.vocab[i] == #[trigger] base[i] by {
            assert(done.vocab.take(base.len() as int)[i] == base[i]);
        }
    }
    lemma_scan_pieces(text, specials);
    lemma_register_adds(specials, pieces);
    assert forall|i: int| specials.len() <= i < base.len() implies #[trigger] done.vocab[i].len()
        == 1 by {
        assert(done.vocab.take(base.len() as int)[i] == base[i]);
        let j = choose|j: int| 0 <= j < pieces.len() && pieces[j] == base[i];
        assert(is_piece(pieces[j], specials));
    }
    assert forall|i: int| 0 <= i < pieces.len() implies done.vocab.contains(#[trigger] pieces[i]) by {
        assert(base.contains(pieces[i]));
        let j = choose|j: int| 0 <= j < base.len() && base[j] == pieces[i];
        assert(done.vocab.take(base.len() as int)[j] == base[j]);
        assert(done.vocab[j] == pieces[i]);
    }
}

proof fn lemma_merges_stay(s: Training, base: Seq<Seq<char>>, n: nat, p: Pair)
    requires
        training_ok(s, base),
        s.vocab.len() + n <= usize::MAX,
        s.merges.contains_key(p),
    ensures
        training_run(s, n).merges.contains_key(p),
        training_run(s, n).merges[p] == s.merges[p],
    decreases n,
{
    if n > 0 {
        match best_pair(s.ids) {
            None => {},
            Some(q) => {
                let k = lemma_best_occurs(s.ids, q);
                assert(q != p) by {
                    assert(!occurs_at(s.ids, p, k));
                }
                lemma_training_step(s, base, q);
                lemma_merges_stay(training_step(s, q), base, (n - 1) as nat, p);
            },
        }
    }
}

proof fn lemma_merge_origin(s: Training, base: Seq<Seq<char>>, n: nat, p: Pair)
    requires
        training_ok(s, base),
        s.vocab.len() + n <= usize::MAX,
        !s.merges.contains_key(p),
        training_run(s, n).merges.contains_key(p),
    ensures
        ({
            let k = training_run(s, n).merges[p] - s.vocab.len();
            &&& 0 <= k < n
            &&& best_pair(training_run(s, k as nat).ids) == Some(p)
            &&& training_run(s, k as nat).vocab.len() == s.vocab.len() + k
        }),
    decreases n,
{
    if n > 0 {
        match best_pair(s.ids) {
            None => {},
            Some(q) => {
                let t = training_step(s, q);
                lemma_training_step(s, base, q);
                if q == p {
                    lemma_merges_stay(t, base, (n - 1) as nat, p);
                } else {
                    lemma_merge_origin(t, base, (n - 1) as nat, p);
                }
            },
        }
    }
}

/// Training learns the most frequent pair first: the pair that makes a token occurs at least twice
/// in what training for as many tokens as came before that one leaves of the text, and no other
/// pair occurs more often there; of pairs that occur equally often it is the one with the greatest
/// numbers.
pub proof fn training_learns_most_frequent_pairs(
    text: Seq<char>,
    target: usize,
    specials: Seq<Seq<char>>,
    p: Pair,
)
    requires
        training_start(text, specials).vocab.len() <= usize::MAX,
        trained(text, target, specials).merges.contains_key(p),
    ensures
        ({
            let id = trained(text, target, specials).merges[p];
            let before = trained(text, id, specials);
            &&& before.vocab.len() == id
            &&& pair_count(before.ids, p) >= 2
            &&& forall|q: Pair| #[trigger]
                pair_count(before.ids, q) <= pair_count(before.ids, p)
            &&& forall|q: Pair| #[trigger]
                pair_count(before.ids, q) == pair_count(before.ids, p) ==> q.0 < p.0 || (q.0 == p.0
                    && q.1 <= p.1)
        }),
{
    let start = training_start(text, specials);
    training_builds_vocabulary(text, 0, specials);
    assert(training_ok(start, start.vocab));
    let n = if target > start.vocab.len() {
        (target - start.vocab.len()) as nat
    } else {
        0
    };
    lemma_merge_origin(start, start.vocab, n, p);
    let id = trained(text, target, specials).merges[p];
    let before = trained(text, id, specials);
    assert(best_pair(before.ids) == Some(p));
    assert(is_best(before.ids, p));
}

/// A trained tokenizer gives the text that it was trained on back, where that holds no
/// provenance line.
pub proof fn trained_tokenizer_round_trip(text: Seq<char>, target: usize, specials: Seq<Seq<char>>)
    requires
        scan_terminates(text, specials),
        no_doc_lines(text),
        training_start(text, specials).vocab.len() <= usize::MAX,
    ensures
        ({
            let t = trained(text, target, specials);
            decode_ids(t.vocab, apply_merges(known_ids(t.vocab, scan(text, specials)), t.merges))
                == text
        }),
{
    training_builds_vocabulary(text, target, specials);
    let t = trained(text, target, specials);
    encode_decode_round_trip(t.vocab, t.merges, specials, text);
}

} // verus!
