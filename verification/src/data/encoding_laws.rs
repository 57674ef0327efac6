//! How encoding cuts a text, and in which order it applies merges.
use crate::data::bpe::{
    lemma_merge_first, lemma_merge_none, merge_at, merge_forward, merge_pair, occurs_at, Pair,
};
use crate::data::text::{after_line, doc_marker, first_match, scan, starts_with};
use crate::data::tokenizer::{
    apply_merges, known_ids, lemma_apply_step, mergeable, merges_next, pair_of, trained,
    training_start,
};
use crate::data::tokenizer_laws::{has_merge, merged_pair_is_gone, training_builds_vocabulary};
use vstd::prelude::*;

verus! {

/// Each token is made by one merge at most.
pub open spec fn one_merge_each(merges: Map<Pair, usize>) -> bool {
    forall|p: Pair, q: Pair| #[trigger]
        merges.contains_key(p) && #[trigger] merges.contains_key(q) && merges[p] == merges[q]
            ==> p == q
}

/// Each merge is of two tokens before the one that it makes.
pub open spec fn merges_grow(merges: Map<Pair, usize>) -> bool {
    forall|p: Pair| #[trigger]
        merges.contains_key(p) ==> p.0 < merges[p] && p.1 < merges[p]
}

/// Some position of `ids` holds a pair that makes a token below `r`.
pub open spec fn lower_merge(ids: Seq<usize>, merges: Map<Pair, usize>, r: int) -> bool {
    exists|p: Pair, k: int| #[trigger]
        merges.contains_key(p) && #[trigger] occurs_at(ids, p, k) && merges[p] < r
}

/// The pair to be replaced first is the one that makes the lowest token: where a pair of `ids` is
/// merged into a token, and no pair of `ids` into a lower one, encoding `ids` is encoding what they
/// are with that pair replaced everywhere.
pub proof fn lowest_merge_comes_first(ids: Seq<usize>, merges: Map<Pair, usize>, p: Pair, at: int)
    requires
        one_merge_each(merges),
        merges.contains_key(p),
        merges[p] < usize::MAX,
        occurs_at(ids, p, at),
        !lower_merge(ids, merges, merges[p] as int),
    ensures
        apply_merges(ids, merges) == apply_merges(merge_forward(ids, p, merges[p]), merges),
{
    let k = lemma_first_occurrence(ids, p, at);
    assert(pair_of(ids, k) == p);
    assert forall|j: int| #[trigger] mergeable(ids, merges, j) implies merges[p] <= merges[pair_of(
        ids,
        j,
    )] && (merges[p] == merges[pair_of(ids, j)] ==> k <= j) by {
        let q = pair_of(ids, j);
        assert(occurs_at(ids, q, j) && merges.contains_key(q));
        if merges[q] == merges[p] {
            assert(q == p);
        }
    }
    assert(merges_next(ids, merges, k));
    lemma_apply_step(ids, merges, k);
}

proof fn lemma_first_occurrence(ids: Seq<usize>, p: Pair, at: int) -> (k: int)
    requires
        occurs_at(ids, p, at),
    ensures
        occurs_at(ids, p, k),
        k <= at,
        forall|j: int| 0 <= j < k ==> !#[trigger] occurs_at(ids, p, j),
        forall|j: int| #[trigger] occurs_at(ids, p, j) ==> k <= j,
    decreases at,
{
    if exists|j: int| 0 <= j < at && #[trigger] occurs_at(ids, p, j) {
        let j = choose|j: int| 0 <= j < at && #[trigger] occurs_at(ids, p, j);
        lemma_first_occurrence(ids, p, j)
    } else {
        at
    }
}

/// Encoding ends where no pair has a merge.
pub proof fn no_merge_is_left_over(ids: Seq<usize>, merges: Map<Pair, usize>)
    requires
        !lower_merge(ids, merges, usize::MAX as int),
    ensures
        apply_merges(ids, merges) == ids,
{
    if exists|k: int| merges_next(ids, merges, k) {
        let k = choose|k: int| merges_next(ids, merges, k);
        assert(mergeable(ids, merges, k));
        assert(merges.contains_key(pair_of(ids, k)) && occurs_at(ids, pair_of(ids, k), k));
    }
}

/// A pair that occurs once is replaced where it occurs, and the rest stays.
pub proof fn single_pair_is_replaced_in_place(ids: Seq<usize>, p: Pair, r: usize, k: int)
    requires
        occurs_at(ids, p, k),
        forall|j: int| #[trigger] occurs_at(ids, p, j) ==> j == k,
        r != p.0,
        r != p.1,
    ensures
        merge_forward(ids, p, r) == ids.take(k) + seq![r] + ids.skip(k + 2),
{
    lemma_merge_first(ids, p, r, k);
    let after = merge_at(ids, k, r);
    assert forall|j: int| !#[trigger] occurs_at(after, p, j) by {
        if j < k - 1 {
            assert(!occurs_at(ids, p, j));
        } else if j > k {
            assert(!occurs_at(ids, p, j + 1));
        }
    }
    lemma_merge_none(after, p, r, true);
    assert(merge_pair(after, p, r, true) == merge_forward(after, p, r));
    assert(after =~= ids.take(k) + seq![r] + ids.skip(k + 2));
}

/// Of two merges that overlap, the one that makes the lower token is taken: where `bc` is merged
/// into a lower token than `ab` is, `abc` is encoded by that token, though `ab` stands further left.
pub proof fn overlapping_merges(
    merges: Map<Pair, usize>,
    a: usize,
    b: usize,
    c: usize,
)
    requires
        one_merge_each(merges),
        merges_grow(merges),
        merges.contains_key((b, c)),
        merges.contains_key((a, b)) ==> merges[(b, c)] < merges[(a, b)],
        merges[(b, c)] < usize::MAX,
    ensures
        (a, b) != (b, c) ==> apply_merges(seq![a, b, c], merges) == apply_merges(
            seq![a, merges[(b, c)]],
            merges,
        ),
        (a, b) != (b, c) && !merges.contains_key((a, merges[(b, c)])) ==> apply_merges(
            seq![a, b, c],
            merges,
        ) == seq![a, merges[(b, c)]],
{
    let ids = seq![a, b, c];
    let p = (b, c);
    let r = merges[p];
    if (a, b) != p {
        assert(occurs_at(ids, p, 1));
        assert(!lower_merge(ids, merges, r as int)) by {
            assert forall|q: Pair, k: int| #[trigger]
                merges.contains_key(q) && #[trigger] occurs_at(ids, q, k) implies merges[q] >= r by {
                if k == 0 {
                    assert(q == (a, b));
                } else {
                    assert(q == p);
                }
            }
        }
        lowest_merge_comes_first(ids, merges, p, 1);
        assert forall|j: int| #[trigger] occurs_at(ids, p, j) implies j == 1 by {}
        single_pair_is_replaced_in_place(ids, p, r, 1);
        assert(ids.take(1) + seq![r] + ids.skip(3) =~= seq![a, r]);
        let after = seq![a, r];
        if !merges.contains_key((a, r)) {
            assert forall|q: Pair, k: int| #[trigger]
                merges.contains_key(q) implies !#[trigger] occurs_at(after, q, k) by {
                if occurs_at(after, q, k) {
                    assert(q == (a, r));
                }
            }
            no_merge_is_left_over(after, merges);
        }
    }
}

/// The pair that makes token `r`.
pub open spec fn pair_made_into(merges: Map<Pair, usize>, r: int) -> Pair {
    choose|p: Pair| #[trigger] merges.contains_key(p) && merges[p] == r
}

/// `ids` with the merges that make the tokens from `from` on, below `end`, applied one after the
/// other, in the order of the tokens, each everywhere.
pub open spec fn replayed(ids: Seq<usize>, merges: Map<Pair, usize>, from: nat, end: nat) -> Seq<usize>
    decreases end - from,
{
    if from >= end {
        ids
    } else if has_merge(merges, from as int) {
        replayed(
            merge_forward(ids, pair_made_into(merges, from as int), from as usize),
            merges,
            from + 1,
            end,
        )
    } else {
        replayed(ids, merges, from + 1, end)
    }
}

proof fn lemma_replayed(ids: Seq<usize>, merges: Map<Pair, usize>, from: nat, end: nat)
    requires
        one_merge_each(merges),
        merges_grow(merges),
        forall|p: Pair| #[trigger] merges.contains_key(p) ==> merges[p] < end,
        end <= usize::MAX,
        !lower_merge(ids, merges, from as int),
    ensures
        apply_merges(ids, merges) == replayed(ids, merges, from, end),
    decreases end - from,
{
    if from >= end {
        assert(!lower_merge(ids, merges, usize::MAX as int)) by {
            assert forall|p: Pair, k: int| #[trigger]
                merges.contains_key(p) implies !#[trigger] occurs_at(ids, p, k) by {}
        }
        no_merge_is_left_over(ids, merges);
    } else if has_merge(merges, from as int) {
        let p = pair_made_into(merges, from as int);
        let r = from as usize;
        assert(merges.contains_key(p) && merges[p] == from);
        let after = merge_forward(ids, p, r);
        if exists|k: int| occurs_at(ids, p, k) {
            let k = choose|k: int| occurs_at(ids, p, k);
            lowest_merge_comes_first(ids, merges, p, k);
        } else {
            lemma_merge_none(ids, p, r, true);
            assert(merge_pair(ids, p, r, true) == after);
        }
        assert(!lower_merge(after, merges, from + 1int)) by {
            assert forall|q: Pair, k: int| #[trigger]
                merges.contains_key(q) && #[trigger] occurs_at(after, q, k) implies merges[q]
                >= from + 1 by {
                if merges[q] <= from {
                    if merges[q] == from {
                        assert(q == p);
                    } else {
                        assert forall|j: int| !#[trigger] occurs_at(ids, q, j) by {
                            if occurs_at(ids, q, j) {
                                assert(lower_merge(ids, merges, from as int));
                            }
                        }
                    }
                    merged_pair_is_gone(ids, p, r, true, q);
                    assert(merge_pair(ids, p, r, true) == after);
                }
            }
        }
        lemma_replayed(after, merges, from + 1, end);
    } else {
        assert(!lower_merge(ids, merges, from + 1int)) by {
            assert forall|q: Pair, k: int| #[trigger]
                merges.contains_key(q) && #[trigger] occurs_at(ids, q, k) implies merges[q]
                >= from + 1 by {
                if merges[q] == from {
                    assert(has_merge(merges, from as int));
                }
            }
        }
        lemma_replayed(ids, merges, from + 1, end);
    }
}

/// Encoding is replaying the merges in the order of the tokens that they make, each everywhere.
pub proof fn encoding_replays_merges(ids: Seq<usize>, merges: Map<Pair, usize>, end: nat)
    requires
        one_merge_each(merges),
        merges_grow(merges),
        forall|p: Pair| #[trigger] merges.contains_key(p) ==> merges[p] < end,
        end <= usize::MAX,
    ensures
        apply_merges(ids, merges) == replayed(ids, merges, 0, end),
{
    lemma_replayed(ids, merges, 0, end);
}

/// A trained tokenizer encodes a text by replaying what it has learnt, in the order in which it
/// has learnt it: first the merge that made the first token behind the characters.
pub proof fn trained_tokenizer_replays_training(
    learnt_from: Seq<char>,
    target: usize,
    specials: Seq<Seq<char>>,
    text: Seq<char>,
)
    requires
        training_start(learnt_from, specials).vocab.len() <= usize::MAX,
        trained(learnt_from, target, specials).vocab.len() <= usize::MAX,
    ensures
        ({
            let t = trained(learnt_from, target, specials);
            let base = training_start(learnt_from, specials).vocab.len();
            let ids = known_ids(t.vocab, scan(text, specials));
            apply_merges(ids, t.merges) == replayed(ids, t.merges, base, t.vocab.len())
        }),
{
    training_builds_vocabulary(learnt_from, target, specials);
    let t = trained(learnt_from, target, specials);
    let base = training_start(learnt_from, specials).vocab.len();
    let ids = known_ids(t.vocab, scan(text, specials));
    assert(!lower_merge(ids, t.merges, base as int)) by {
        assert forall|p: Pair| #[trigger] t.merges.contains_key(p) implies base <= t.merges[p] by {}
    }
    lemma_replayed(ids, t.merges, base, t.vocab.len());
}

proof fn lemma_first_match(t: Seq<char>, specials: Seq<Seq<char>>, from: int, k: int)
    requires
        0 <= from <= k < specials.len(),
        starts_with(t, specials[k]),
        forall|j: int| from <= j < k ==> !starts_with(t, #[trigger] specials[j]),
    ensures
        first_match(t, specials, from) == Some(k),
    decreases k - from,
{
    if from < k {
        assert(!starts_with(t, specials[from]));
        lemma_first_match(t, specials, from + 1, k);
    }
}

/// A special token in front of a text is one piece, whatever follows, where no special token before
/// it in the list fits too and no line of a document begins there.
pub proof fn special_token_is_one_piece(rest: Seq<char>, specials: Seq<Seq<char>>, k: int)
    requires
        0 <= k < specials.len(),
        specials[k].len() > 0,
        !starts_with(specials[k] + rest, doc_marker()),
        forall|j: int| 0 <= j < k ==> !starts_with(specials[k] + rest, #[trigger] specials[j]),
    ensures
        scan(specials[k] + rest, specials) == seq![specials[k]] + scan(rest, specials),
{
    let t = specials[k] + rest;
    assert(t.take(specials[k].len() as int) =~= specials[k]);
    assert(t.skip(specials[k].len() as int) =~= rest);
    lemma_first_match(t, specials, 0, k);
}

proof fn lemma_no_match(t: Seq<char>, specials: Seq<Seq<char>>, from: int)
    requires
        0 <= from,
        forall|j: int| 0 <= j < specials.len() ==> !starts_with(t, #[trigger] specials[j]),
    ensures
        first_match(t, specials, from) is None,
    decreases specials.len() - from,
{
    if from < specials.len() {
        lemma_no_match(t, specials, from + 1);
    }
}

/// A character where no special token fits, and no line of a document begins, is a piece.
pub proof fn other_characters_are_pieces(c: char, rest: Seq<char>, specials: Seq<Seq<char>>)
    requires
        !starts_with(seq![c] + rest, doc_marker()),
        forall|j: int|
            0 <= j < specials.len() ==> !starts_with(seq![c] + rest, #[trigger] specials[j]),
    ensures
        scan(seq![c] + rest, specials) == seq![seq![c]] + scan(rest, specials),
{
    let t = seq![c] + rest;
    assert(t.take(1) =~= seq![c]);
    assert(t.skip(1) =~= rest);
    lemma_no_match(t, specials, 0);
}

proof fn lemma_after_line_of(line: Seq<char>, rest: Seq<char>)
    requires
        forall|i: int| 0 <= i < line.len() ==> #[trigger] line[i] != '\n',
    ensures
        after_line(line + seq!['\n'] + rest) == rest,
    decreases line.len(),
{
    let t = line + seq!['\n'] + rest;
    if line.len() == 0 {
        assert(t.skip(1) =~= rest);
    } else {
        assert(t[0] == line[0]);
        let less = line.skip(1);
        assert forall|i: int| 0 <= i < less.len() implies #[trigger] less[i] != '\n' by {
            assert(line[i + 1] != '\n');
        }
        lemma_after_line_of(less, rest);
        assert(t.skip(1) =~= less + seq!['\n'] + rest);
    }
}

/// A line that names the source of a document leaves no piece.
pub proof fn document_lines_are_left_out(line: Seq<char>, rest: Seq<char>, specials: Seq<Seq<char>>)
    requires
        starts_with(line, doc_marker()),
        forall|i: int| 0 <= i < line.len() ==> #[trigger] line[i] != '\n',
    ensures
        scan(line + seq!['\n'] + rest, specials) == scan(rest, specials),
{
    let t = line + seq!['\n'] + rest;
    let n = doc_marker().len() as int;
    assert(t.take(n) =~= line.take(n));
    lemma_after_line_of(line, rest);
}

} // verus!
