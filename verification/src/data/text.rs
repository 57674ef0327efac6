//! Text as sequences of characters, and its split into special tokens and single characters.
use vstd::prelude::*;

verus! {

/// `String::push` appends the character to the end of the string.
pub assume_specification[ String::push ](s: &mut String, c: char)
    ensures
        final(s)@ == old(s)@.push(c),
;

/// The characters of each string.
pub open spec fn texts(v: Seq<String>) -> Seq<Seq<char>> {
    v.map_values(|s: String| s@)
}

/// The characters of `s`.
pub fn chars_of(s: &str) -> (r: Vec<char>)
    ensures
        r@ == s@,
{
    let mut r: Vec<char> = Vec::new();
    for c in it: s.chars()
        invariant
            it.seq() == s@,
            r@ == s@.take(it.index() as int),
    {
        assert(s@.take(it.index() + 1) == s@.take(it.index() as int).push(c));
        r.push(c);
    }
    assert(s@.take(s@.len() as int) == s@);
    r
}

/// The string of the characters `v`.
pub fn string_of(v: &Vec<char>) -> (r: String)
    ensures
        r@ == v@,
{
    let mut r = String::new();
    let mut i: usize = 0;
    while i < v.len()
        invariant
            i <= v@.len(),
            r@ == v@.take(i as int),
        decreases v@.len() - i,
    {
        assert(v@.take(i + 1) == v@.take(i as int).push(v@[i as int]));
        r.push(v[i]);
        i += 1;
    }
    assert(v@.take(v@.len() as int) == v@);
    r
}

/// Appends the characters of `s`.
pub fn push_text(out: &mut Vec<char>, s: &str)
    ensures
        final(out)@ == old(out)@ + s@,
{
    let c = chars_of(s);
    let mut i: usize = 0;
    while i < c.len()
        invariant
            i <= c@.len(),
            c@ == s@,
            out@ == old(out)@ + c@.take(i as int),
        decreases c@.len() - i,
    {
        out.push(c[i]);
        assert(out@ =~= old(out)@ + c@.take(i + 1));
        i += 1;
    }
    assert(c@.take(c@.len() as int) =~= c@);
}

/// Whether the text `t` begins with `p`.
pub open spec fn starts_with(t: Seq<char>, p: Seq<char>) -> bool {
    p.len() <= t.len() && t.take(p.len() as int) == p
}

fn starts_with_at(text: &Vec<char>, at: usize, p: &Vec<char>) -> (r: bool)
    requires
        at <= text@.len(),
    ensures
        r == starts_with(text@.skip(at as int), p@),
{
    let n: usize = text.len();
    if p.len() > n - at {
        return false;
    }
    let ghost t = text@.skip(at as int);
    let mut i: usize = 0;
    while i < p.len()
        invariant
            i <= p@.len(),
            at + p@.len() <= n,
            n == text@.len(),
            t == text@.skip(at as int),
            forall|j: int| 0 <= j < i ==> t[j] == #[trigger] p@[j],
        decreases p@.len() - i,
    {
        if text[at + i] != p[i] {
            assert(t.take(p@.len() as int)[i as int] != p@[i as int]);
            return false;
        }
        i += 1;
    }
    assert(t.take(p@.len() as int) == p@);
    true
}

/// The marker in front of a line that names the source of a document.
pub open spec fn doc_marker() -> Seq<char> {
    seq!['#', '#', '#', ' ', 'D', 'O', 'C', '_', 'I', 'D', ':']
}

fn doc_marker_chars() -> (r: Vec<char>)
    ensures
        r@ == doc_marker(),
{
    vec!['#', '#', '#', ' ', 'D', 'O', 'C', '_', 'I', 'D', ':']
}

/// What follows the first line of `t`.
pub open spec fn after_line(t: Seq<char>) -> Seq<char>
    decreases t.len(),
{
    if t.len() == 0 {
        t
    } else if t[0] == '\n' {
        t.skip(1)
    } else {
        after_line(t.skip(1))
    }
}

/// The first of `specials`, from number `from` on, with which the text `t` begins.
pub open spec fn first_match(t: Seq<char>, specials: Seq<Seq<char>>, from: int) -> Option<int>
    decreases specials.len() - from,
{
    if from < 0 || from >= specials.len() {
        None
    } else if starts_with(t, specials[from]) {
        Some(from)
    } else {
        first_match(t, specials, from + 1)
    }
}

/// The pieces of a text: lines that begin with the document marker are left out; elsewhere the
/// first special token that fits, or else one character.
pub open spec fn scan(t: Seq<char>, specials: Seq<Seq<char>>) -> Seq<Seq<char>>
    decreases t.len(),
{
    if t.len() == 0 {
        Seq::empty()
    } else if starts_with(t, doc_marker()) {
        proof {
            lemma_after_line(t);
        }
        scan(after_line(t), specials)
    } else {
        match first_match(t, specials, 0) {
            Some(k) => if specials[k].len() == 0 || specials[k].len() > t.len() {
                Seq::empty()
            } else {
                seq![specials[k]] + scan(t.skip(specials[k].len() as int), specials)
            },
            None => seq![t.take(1)] + scan(t.skip(1), specials),
        }
    }
}

/// A piece of a text: the special token of that number, or else the character at that position.
#[derive(Clone, Copy)]
pub struct Piece {
    pub special: Option<usize>,
    pub at: usize,
}

/// What a piece of `text` reads.
pub open spec fn piece_text(text: Seq<char>, specials: Seq<Seq<char>>, piece: Piece) -> Seq<char> {
    match piece.special {
        Some(k) => specials[k as int],
        None => text.subrange(piece.at as int, piece.at + 1),
    }
}

/// The piece lies within the text and the special tokens.
pub open spec fn piece_wf(text: Seq<char>, specials: Seq<Seq<char>>, piece: Piece) -> bool {
    match piece.special {
        Some(k) => k < specials.len(),
        None => piece.at < text.len(),
    }
}

pub open spec fn piece_texts(
    text: Seq<char>,
    specials: Seq<Seq<char>>,
    pieces: Seq<Piece>,
) -> Seq<Seq<char>> {
    pieces.map_values(|p: Piece| piece_text(text, specials, p))
}

/// Whether scanning comes to an end: it stays in place forever where the first special token
/// that fits is the empty one.
pub open spec fn scan_terminates(t: Seq<char>, specials: Seq<Seq<char>>) -> bool
    decreases t.len(),
{
    if t.len() == 0 {
        true
    } else if starts_with(t, doc_marker()) {
        proof {
            lemma_after_line(t);
        }
        scan_terminates(after_line(t), specials)
    } else {
        match first_match(t, specials, 0) {
            Some(k) => specials[k].len() > 0 && specials[k].len() <= t.len() && scan_terminates(
                t.skip(specials[k].len() as int),
                specials,
            ),
            None => scan_terminates(t.skip(1), specials),
        }
    }
}

pub proof fn lemma_after_line(t: Seq<char>)
    ensures
        after_line(t).len() <= t.len(),
        t.len() > 0 ==> after_line(t).len() < t.len(),
    decreases t.len(),
{
    if t.len() > 0 && t[0] != '\n' {
        lemma_after_line(t.skip(1));
    }
}

pub proof fn lemma_first_match(t: Seq<char>, specials: Seq<Seq<char>>, from: int)
    requires
        0 <= from,
    ensures
        match first_match(t, specials, from) {
            Some(k) => from <= k < specials.len() && starts_with(t, specials[k]),
            None => forall|k: int|
                from <= k < specials.len() ==> !starts_with(t, #[trigger] specials[k]),
        },
    decreases specials.len() - from,
{
    if from < specials.len() && !starts_with(t, specials[from]) {
        lemma_first_match(t, specials, from + 1);
    }
}

/// Where no special token is empty, scanning comes to an end.
pub proof fn scan_terminates_without_empty(t: Seq<char>, specials: Seq<Seq<char>>)
    requires
        forall|k: int| 0 <= k < specials.len() ==> (#[trigger] specials[k]).len() > 0,
    ensures
        scan_terminates(t, specials),
    decreases t.len(),
{
    if t.len() > 0 {
        if starts_with(t, doc_marker()) {
            lemma_after_line(t);
            scan_terminates_without_empty(after_line(t), specials);
        } else {
            lemma_first_match(t, specials, 0);
            match first_match(t, specials, 0) {
                Some(k) => scan_terminates_without_empty(t.skip(specials[k].len() as int), specials),
                None => scan_terminates_without_empty(t.skip(1), specials),
            }
        }
    }
}

pub open spec fn views(v: Seq<Vec<char>>) -> Seq<Seq<char>> {
    v.map_values(|s: Vec<char>| s@)
}

proof fn lemma_prepend<A>(done: Seq<A>, x: A, rest: Seq<A>)
    ensures
        done.push(x) + rest == done + (seq![x] + rest),
{
}

/// Splits `text` into pieces.
pub fn scan_text(text: &Vec<char>, specials: &Vec<Vec<char>>) -> (r: Vec<Piece>)
    requires
        scan_terminates(text@, views(specials@)),
    ensures
        piece_texts(text@, views(specials@), r@) == scan(text@, views(specials@)),
        forall|i: int|
            0 <= i < r@.len() ==> piece_wf(text@, views(specials@), #[trigger] r@[i]),
{
    let ghost sp = views(specials@);
    let marker = doc_marker_chars();
    let mut r: Vec<Piece> = Vec::new();
    let mut head: usize = 0;
    let n: usize = text.len();
    assert(text@.skip(0) == text@);
    while head < n
        invariant
            head <= n,
            n == text@.len(),
            sp == views(specials@),
            marker@ == doc_marker(),
            scan_terminates(text@.skip(head as int), sp),
            piece_texts(text@, sp, r@) + scan(text@.skip(head as int), sp) == scan(text@, sp),
            forall|i: int| 0 <= i < r@.len() ==> piece_wf(text@, sp, #[trigger] r@[i]),
        decreases n - head,
    {
        let ghost t = text@.skip(head as int);
        let ghost done = r@;
        if starts_with_at(text, head, &marker) {
            // Provenance lines are no part of the text.
            let ghost start = head;
            let mut stop: bool = false;
            while head < n && !stop
                invariant
                    start <= head <= n,
                    n == text@.len(),
                    !stop ==> after_line(text@.skip(head as int)) == after_line(
                        text@.skip(start as int),
                    ),
                    stop ==> text@.skip(head as int) == after_line(text@.skip(start as int)),
                    head > start || !stop,
                    start < n,
                decreases n - head + (if stop {
                    0int
                } else {
                    1int
                }),
            {
                if text[head] == '\n' {
                    stop = true;
                }
                assert(text@.skip(head as int).skip(1) == text@.skip(head + 1));
                head += 1;
            }
            assert(text@.skip(head as int) == after_line(t));
        } else {
            let mut found: bool = false;
            let mut k: usize = 0;
            while k < specials.len() && !found
                invariant
                    k <= specials@.len(),
                    sp == views(specials@),
                    head < n,
                    n == text@.len(),
                    t == text@.skip(head as int),
                    !found ==> first_match(t, sp, k as int) == first_match(t, sp, 0),
                    found ==> k < specials@.len() && first_match(t, sp, 0) == Some(k as int),
                decreases
                    specials@.len() - k,
                    (if found {
                        0int
                    } else {
                        1int
                    }),
            {
                if starts_with_at(text, head, &specials[k]) {
                    found = true;
                } else {
                    k += 1;
                }
            }
            if found {
                assert(sp[k as int] == specials@[k as int]@);
                let piece = Piece { special: Some(k), at: head };
                r.push(piece);
                assert(t.skip(sp[k as int].len() as int) == text@.skip(head + sp[k as int].len()));
                head += specials[k].len();
                proof {
                    let rest = scan(text@.skip(head as int), sp);
                    assert(piece_texts(text@, sp, r@)
                        == piece_texts(text@, sp, done).push(sp[k as int]));
                    lemma_prepend(piece_texts(text@, sp, done), sp[k as int], rest);
                }
            } else {
                let piece = Piece { special: None, at: head };
                r.push(piece);
                assert(t.skip(1) == text@.skip(head + 1));
                assert(t.take(1) == text@.subrange(head as int, head + 1));
                head += 1;
                proof {
                    let rest = scan(text@.skip(head as int), sp);
                    assert(piece_texts(text@, sp, r@)
                        == piece_texts(text@, sp, done).push(t.take(1)));
                    lemma_prepend(piece_texts(text@, sp, done), t.take(1), rest);
                }
            }
        }
    }
    assert(piece_texts(text@, sp, r@) + Seq::<Seq<char>>::empty() == piece_texts(text@, sp, r@));
    r
}

} // verus!
