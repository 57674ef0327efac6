//! Byte-pair encoding as mathematics: occurrences of a pair in a sequence of
//! token ids, replacement of a pair, and the choice of the next pair to merge.
use vstd::prelude::*;
use vstd::set_lib::set_int_range;

verus! {

/// Two adjacent token ids.
pub type Pair = (usize, usize);

/// Whether the pair `p` stands at position `k` of `ids`.
pub open spec fn occurs_at(ids: Seq<usize>, p: Pair, k: int) -> bool {
    0 <= k < ids.len() - 1 && ids[k] == p.0 && ids[k + 1] == p.1
}

/// The positions of `p` in `ids`; overlapping occurrences count each.
pub open spec fn occurrences(ids: Seq<usize>, p: Pair) -> Set<int> {
    set_int_range(0, ids.len() as int).filter(|k: int| occurs_at(ids, p, k))
}

/// How often the pair `p` occurs in `ids`.
pub open spec fn pair_count(ids: Seq<usize>, p: Pair) -> nat {
    occurrences(ids, p).len()
}

/// `ids` with every occurrence of `p` replaced by `new_id`, taken greedily from the left.
pub open spec fn merge_forward(ids: Seq<usize>, p: Pair, new_id: usize) -> Seq<usize>
    decreases ids.len(),
{
    if ids.len() < 2 {
        ids
    } else if occurs_at(ids, p, 0) {
        seq![new_id] + merge_forward(ids.skip(2), p, new_id)
    } else {
        seq![ids[0]] + merge_forward(ids.skip(1), p, new_id)
    }
}

/// `ids` with every occurrence of `p` replaced by `new_id`, taken greedily from the right.
pub open spec fn merge_backward(ids: Seq<usize>, p: Pair, new_id: usize) -> Seq<usize>
    decreases ids.len(),
{
    if ids.len() < 2 {
        ids
    } else if occurs_at(ids, p, ids.len() - 2) {
        merge_backward(ids.take(ids.len() - 2), p, new_id).push(new_id)
    } else {
        merge_backward(ids.drop_last(), p, new_id).push(ids.last())
    }
}

/// Replacement of a pair in either direction. The two differ only where a
/// token is paired with itself and occurs three or more times in a row.
pub open spec fn merge_pair(ids: Seq<usize>, p: Pair, new_id: usize, forward: bool) -> Seq<usize> {
    if forward {
        merge_forward(ids, p, new_id)
    } else {
        merge_backward(ids, p, new_id)
    }
}

/// `ids` with the one occurrence at `k` replaced.
pub open spec fn merge_at(ids: Seq<usize>, k: int, new_id: usize) -> Seq<usize> {
    ids.take(k).push(new_id) + ids.skip(k + 2)
}

/// Whether `p` is the pair to merge next: it occurs at least twice, and no
/// other pair comes after it in the order by count and then by ids.
pub open spec fn is_best(ids: Seq<usize>, p: Pair) -> bool {
    &&& pair_count(ids, p) >= 2
    &&& forall|q: Pair| #[trigger] pair_count(ids, q) <= pair_count(ids, p) && (pair_count(ids, q)
        == pair_count(ids, p) ==> q.0 < p.0 || (q.0 == p.0 && q.1 <= p.1))
}

/// The pair to merge next, where there is one.
pub open spec fn best_pair(ids: Seq<usize>) -> Option<Pair> {
    if exists|p: Pair| is_best(ids, p) {
        Some(choose|p: Pair| is_best(ids, p))
    } else {
        None
    }
}

/// No more than one pair is the next to merge.
pub proof fn best_pair_is_unique(ids: Seq<usize>, p: Pair)
    requires
        is_best(ids, p),
    ensures
        best_pair(ids) == Some(p),
{
    let q = choose|q: Pair| is_best(ids, q);
    assert(is_best(ids, q));
    assert(pair_count(ids, q) <= pair_count(ids, p));
    assert(pair_count(ids, p) <= pair_count(ids, q));
}

pub proof fn lemma_backward_suffix(ids: Seq<usize>, p: Pair, new_id: usize, m: int)
    requires
        0 <= m <= ids.len(),
        forall|k: int| m - 1 <= k < ids.len() - 1 ==> !#[trigger] occurs_at(ids, p, k),
    ensures
        merge_backward(ids, p, new_id) == merge_backward(ids.take(m), p, new_id) + ids.skip(m),
    decreases ids.len() - m,
{
    if m == ids.len() {
        assert(ids.take(m) == ids);
        assert(merge_backward(ids, p, new_id) + ids.skip(m) == merge_backward(ids, p, new_id));
    } else if ids.len() < 2 {
        assert(ids.take(0) == Seq::<usize>::empty());
        assert(ids == ids.take(0) + ids.skip(0));
    } else {
        let d = ids.drop_last();
        assert(!occurs_at(ids, p, ids.len() - 2));
        assert forall|k: int| m - 1 <= k < d.len() - 1 implies !#[trigger] occurs_at(d, p, k) by {
            assert(!occurs_at(ids, p, k));
        }
        lemma_backward_suffix(d, p, new_id, m);
        assert(d.take(m) == ids.take(m));
        assert(d.skip(m).push(ids.last()) == ids.skip(m));
        assert((merge_backward(ids.take(m), p, new_id) + d.skip(m)).push(ids.last())
            == merge_backward(ids.take(m), p, new_id) + ids.skip(m));
    }
}

pub proof fn lemma_forward_prefix(ids: Seq<usize>, p: Pair, new_id: usize, m: int)
    requires
        0 <= m <= ids.len(),
        forall|k: int| 0 <= k < m ==> !#[trigger] occurs_at(ids, p, k),
    ensures
        merge_forward(ids, p, new_id) == ids.take(m) + merge_forward(ids.skip(m), p, new_id),
    decreases m,
{
    if m == 0 {
        assert(ids.skip(0) == ids);
        assert(ids.take(0) + merge_forward(ids, p, new_id) == merge_forward(ids, p, new_id));
    } else if ids.len() < 2 {
        assert(ids.take(1) == ids);
        assert(ids.take(1) + ids.skip(1) == ids);
    } else {
        let d = ids.skip(1);
        assert(!occurs_at(ids, p, 0));
        assert forall|k: int| 0 <= k < m - 1 implies !#[trigger] occurs_at(d, p, k) by {
            assert(!occurs_at(ids, p, k + 1));
        }
        lemma_forward_prefix(d, p, new_id, m - 1);
        assert(d.skip(m - 1) == ids.skip(m));
        assert(seq![ids[0]] + d.take(m - 1) == ids.take(m));
        assert(seq![ids[0]] + (d.take(m - 1) + merge_forward(ids.skip(m), p, new_id)) == ids.take(m)
            + merge_forward(ids.skip(m), p, new_id));
    }
}

/// Replacing the last occurrence first does not change what replacement from the right gives.
pub proof fn lemma_merge_last(ids: Seq<usize>, p: Pair, new_id: usize, j: int)
    requires
        occurs_at(ids, p, j),
        forall|k: int| j < k ==> !#[trigger] occurs_at(ids, p, k),
        new_id != p.0,
        new_id != p.1,
    ensures
        merge_backward(merge_at(ids, j, new_id), p, new_id) == merge_backward(ids, p, new_id),
{
    let after = merge_at(ids, j, new_id);
    lemma_backward_suffix(ids, p, new_id, j + 2);
    let t = ids.take(j + 2);
    assert(occurs_at(t, p, j));
    assert(t.take(j) == ids.take(j));
    assert(merge_backward(t, p, new_id) == merge_backward(ids.take(j), p, new_id).push(new_id));
    assert forall|k: int| j - 1 <= k < after.len() - 1 implies !#[trigger] occurs_at(after, p, k) by {
        if k > j {
            assert(!occurs_at(ids, p, k + 1));
        }
    }
    lemma_backward_suffix(after, p, new_id, j);
    assert(after.take(j) == ids.take(j));
    assert(after.skip(j) == seq![new_id] + ids.skip(j + 2));
    assert(merge_backward(ids.take(j), p, new_id) + (seq![new_id] + ids.skip(j + 2))
        == merge_backward(ids.take(j), p, new_id).push(new_id) + ids.skip(j + 2));
}

/// Replacing the first occurrence first does not change what replacement from the left gives.
pub proof fn lemma_merge_first(ids: Seq<usize>, p: Pair, new_id: usize, j: int)
    requires
        occurs_at(ids, p, j),
        forall|k: int| 0 <= k < j ==> !#[trigger] occurs_at(ids, p, k),
        new_id != p.0,
        new_id != p.1,
    ensures
        merge_forward(merge_at(ids, j, new_id), p, new_id) == merge_forward(ids, p, new_id),
{
    let after = merge_at(ids, j, new_id);
    lemma_forward_prefix(ids, p, new_id, j);
    let t = ids.skip(j);
    assert(occurs_at(t, p, 0));
    assert(t.skip(2) == ids.skip(j + 2));
    let rest = merge_forward(ids.skip(j + 2), p, new_id);
    assert(merge_forward(t, p, new_id) == seq![new_id] + rest);
    assert forall|k: int| 0 <= k < j + 1 implies !#[trigger] occurs_at(after, p, k) by {
        if k < j - 1 {
            assert(!occurs_at(ids, p, k));
        }
    }
    lemma_forward_prefix(after, p, new_id, j + 1);
    assert(after.skip(j + 1) == ids.skip(j + 2));
    assert(after.take(j + 1) == ids.take(j).push(new_id));
    assert(ids.take(j).push(new_id) + rest == ids.take(j) + (seq![new_id] + rest));
}

/// Replacement from the left never lengthens a sequence, and shortens it where the pair occurs.
pub proof fn lemma_forward_len(ids: Seq<usize>, p: Pair, new_id: usize)
    ensures
        merge_forward(ids, p, new_id).len() <= ids.len(),
        forall|k: int| #[trigger]
            occurs_at(ids, p, k) ==> merge_forward(ids, p, new_id).len() < ids.len(),
    decreases ids.len(),
{
    if ids.len() >= 2 {
        if occurs_at(ids, p, 0) {
            lemma_forward_len(ids.skip(2), p, new_id);
        } else {
            lemma_forward_len(ids.skip(1), p, new_id);
            assert forall|k: int| #[trigger] occurs_at(ids, p, k) implies merge_forward(
                ids,
                p,
                new_id,
            ).len() < ids.len() by {
                assert(occurs_at(ids.skip(1), p, k - 1));
            }
        }
    }
}

/// Where the pair does not occur, replacement changes nothing.
pub proof fn lemma_merge_none(ids: Seq<usize>, p: Pair, new_id: usize, forward: bool)
    requires
        forall|k: int| !#[trigger] occurs_at(ids, p, k),
    ensures
        merge_pair(ids, p, new_id, forward) == ids,
{
    if forward {
        lemma_forward_prefix(ids, p, new_id, ids.len() as int);
        assert(merge_forward(ids.skip(ids.len() as int), p, new_id) == Seq::<usize>::empty());
        assert(ids.take(ids.len() as int) == ids);
    } else {
        lemma_backward_suffix(ids, p, new_id, 0);
        assert(merge_backward(ids.take(0), p, new_id) == Seq::<usize>::empty());
        assert(ids.skip(0) == ids);
    }
}

} // verus!
