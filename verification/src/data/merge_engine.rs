//! The merge loop of byte-pair training: linked tokens, pair lists, pair
//! counts and a heap of candidate pairs, kept in step with each other.
use crate::data::bpe::{
    best_pair, best_pair_is_unique, is_best, lemma_merge_first, lemma_merge_last, lemma_merge_none,
    merge_at, merge_pair, occurrences, occurs_at, pair_count, Pair,
};
use crate::data::fast_map::FastMap;
use crate::data::pair_heap::{entry_le, Entry, PairHeap};
use crate::data::pair_lists::{after, before, list_of, same_token, ListNode, PairLists};
use vstd::multiset::Multiset;
use vstd::prelude::*;
use vstd::relations::injective_on;

verus! {

/// Strictly increasing where `forward`, strictly decreasing otherwise.
pub open spec fn sorted_dir(s: Seq<usize>, forward: bool) -> bool {
    forall|i: int, j: int|
        0 <= i < j < s.len() ==> if forward {
            #[trigger] s[i] < #[trigger] s[j]
        } else {
            s[i] > s[j]
        }
}

pub open spec fn greater_id(p: Pair) -> usize {
    if p.0 < p.1 {
        p.1
    } else {
        p.0
    }
}

/// State of the merge loop.
pub struct MergeEngine {
    pub tokens: PairLists,
    pub counts: FastMap,
    pub heap: PairHeap,
    /// The nodes still in the sequence, from left to right.
    pub live: Ghost<Seq<usize>>,
    /// For each token id, the order in which the lists of its pairs run.
    pub forward: Ghost<Seq<bool>>,
}

/// The pair that starts at node `idx`, where the node is in the sequence and has a right neighbour.
pub open spec fn pair_at(nodes: Seq<ListNode>, idx: usize) -> Option<Pair> {
    if idx < nodes.len() && nodes[idx as int].valid && nodes[idx as int].next is Some {
        Some((nodes[idx as int].id, nodes[nodes[idx as int].next->0 as int].id))
    } else {
        None
    }
}

/// The node at place `k` of the sequence is linked to its neighbours.
pub open spec fn link_ok(nodes: Seq<ListNode>, live: Seq<usize>, k: int) -> bool {
    let idx = live[k];
    &&& idx < nodes.len()
    &&& nodes[idx as int].valid
    &&& nodes[idx as int].prev == before(live, k)
    &&& nodes[idx as int].next == after(live, k)
}

/// `live` lists the valid nodes from left to right, and the nodes are linked in that order.
#[verifier::opaque]
pub open spec fn links_wf(nodes: Seq<ListNode>, live: Seq<usize>) -> bool {
    &&& forall|k: int| 0 <= k < live.len() ==> #[trigger] link_ok(nodes, live, k)
    &&& sorted_dir(live, true)
    &&& forall|idx: usize|
        idx < nodes.len() && (#[trigger] nodes[idx as int]).valid ==> live.contains(idx)
}

/// The token ids in the sequence, from left to right.
pub open spec fn ids_of(nodes: Seq<ListNode>, live: Seq<usize>) -> Seq<usize> {
    Seq::new(live.len(), |k: int| nodes[live[k] as int].id)
}

/// The list of each pair but `skip` holds the nodes at which the pair starts, without `gone`.
#[verifier::opaque]
pub open spec fn lists_match(
    lists: Map<Pair, Seq<usize>>,
    nodes: Seq<ListNode>,
    skip: Option<Pair>,
    gone: Set<usize>,
) -> bool {
    forall|p: Pair, x: usize| #[trigger]
        list_of(lists, p).contains(x) <==> Some(p) != skip && pair_at(nodes, x) == Some(p)
            && !gone.contains(x)
}

/// The count of each pair is the length of its list.
#[verifier::opaque]
pub open spec fn counts_match(
    counts: Map<Pair, usize>,
    lists: Map<Pair, Seq<usize>>,
    skip: Option<Pair>,
) -> bool {
    &&& forall|p: Pair| #[trigger]
        counts.contains_key(p) ==> Some(p) != skip && counts[p] == list_of(lists, p).len()
    &&& forall|p: Pair| (#[trigger] list_of(lists, p)).len() > 0 ==> counts.contains_key(p)
}

/// The heap offers each pair with its current count.
#[verifier::opaque]
pub open spec fn heap_match(heap: Multiset<Entry>, counts: Map<Pair, usize>) -> bool {
    forall|p: Pair| #[trigger] counts.contains_key(p) ==> heap.count((counts[p], p)) > 0
}

/// Each list runs in the direction of the greater id of its pair.
#[verifier::opaque]
pub open spec fn lists_sorted(lists: Map<Pair, Seq<usize>>, forward: Seq<bool>) -> bool {
    forall|p: Pair|
        (#[trigger] list_of(lists, p)).len() > 0 ==> {
            &&& p.0 < forward.len()
            &&& p.1 < forward.len()
            &&& sorted_dir(list_of(lists, p), forward[greater_id(p) as int])
        }
}

pub open spec fn ids_below(ids: Seq<usize>, bound: nat) -> bool {
    forall|k: int| 0 <= k < ids.len() ==> #[trigger] ids[k] < bound
}

impl MergeEngine {
    /// The current token sequence.
    pub open spec fn ids(&self) -> Seq<usize> {
        ids_of(self.tokens.nodes@, self.live@)
    }

    pub open spec fn wf_but(&self, skip: Option<Pair>, gone: Set<usize>) -> bool {
        &&& self.tokens.wf()
        &&& links_wf(self.tokens.nodes@, self.live@)
        &&& lists_match(self.tokens.lists@, self.tokens.nodes@, skip, gone)
        &&& counts_match(self.counts@, self.tokens.lists@, skip)
        &&& self.heap.wf()
        &&& heap_match(self.heap@, self.counts@)
        &&& lists_sorted(self.tokens.lists@, self.forward@)
        &&& ids_below(self.ids(), self.forward@.len())
    }

    /// Everything agrees with the token sequence.
    pub open spec fn wf(&self) -> bool {
        self.wf_but(None, Set::empty())
    }
}

proof fn lemma_sorted_len(s: Seq<usize>, forward: bool, i: int)
    requires
        sorted_dir(s, forward),
        0 <= i < s.len(),
    ensures
        forward ==> s[i] >= i,
        !forward ==> s[s.len() - 1 - i] >= i,
    decreases i,
{
    if i > 0 {
        lemma_sorted_len(s, forward, i - 1);
        if forward {
            assert(s[i - 1] < s[i]);
        } else {
            assert(s[s.len() - i] < s[s.len() - 1 - i]);
        }
    }
}

proof fn lemma_remove_member(s: Seq<usize>, x: usize, y: usize)
    requires
        s.contains(x),
        s.no_duplicates(),
    ensures
        s.remove(s.index_of(x)).contains(y) <==> s.contains(y) && y != x,
{
    let k = s.index_of(x);
    assert(s[k] == x);
    let t = s.remove(k);
    if t.contains(y) {
        let i = choose|i: int| 0 <= i < t.len() && t[i] == y;
        if i < k {
            assert(s[i] == y);
        } else {
            assert(s[i + 1] == y);
        }
    }
    if s.contains(y) && y != x {
        let i = choose|i: int| 0 <= i < s.len() && s[i] == y;
        if i < k {
            assert(t[i] == y);
        } else {
            assert(t[i - 1] == y);
        }
    }
}

proof fn lemma_remove_sorted(s: Seq<usize>, j: int, forward: bool)
    requires
        sorted_dir(s, forward),
        0 <= j < s.len(),
    ensures
        sorted_dir(s.remove(j), forward),
{
    let t = s.remove(j);
    assert forall|a: int, b: int| 0 <= a < b < t.len() implies if forward {
        #[trigger] t[a] < #[trigger] t[b]
    } else {
        t[a] > t[b]
    } by {
        let oa = if a < j {
            a
        } else {
            a + 1
        };
        let ob = if b < j {
            b
        } else {
            b + 1
        };
        assert(t[a] == s[oa] && t[b] == s[ob]);
    }
}

/// The place of a valid node in the sequence.
proof fn lemma_live(nodes: Seq<ListNode>, live: Seq<usize>, idx: usize) -> (k: int)
    requires
        links_wf(nodes, live),
        idx < nodes.len(),
        nodes[idx as int].valid,
    ensures
        0 <= k < live.len(),
        live[k] == idx,
        nodes[idx as int].prev == before(live, k),
        nodes[idx as int].next == after(live, k),
        k > 0 ==> live[k - 1] < idx,
        k + 1 < live.len() ==> idx < live[k + 1] < nodes.len(),
{
    reveal(links_wf);
    assert(live.contains(idx));
    let k = choose|k: int| 0 <= k < live.len() && live[k] == idx;
    assert(link_ok(nodes, live, k));
    if k > 0 {
        assert(live[k - 1] < live[k]);
    }
    if k + 1 < live.len() {
        assert(live[k] < live[k + 1]);
        assert(link_ok(nodes, live, k + 1));
    }
    k
}

proof fn lemma_same_tokens(a: Seq<ListNode>, b: Seq<ListNode>, live: Seq<usize>)
    requires
        a.len() == b.len(),
        forall|i: int| 0 <= i < a.len() ==> same_token(#[trigger] a[i], b[i]),
        links_wf(b, live),
    ensures
        links_wf(a, live),
        ids_of(a, live) == ids_of(b, live),
        forall|x: usize| #[trigger] pair_at(a, x) == pair_at(b, x),
{
    assert forall|x: usize| #[trigger] pair_at(a, x) == pair_at(b, x) by {
        if x < a.len() {
            assert(same_token(a[x as int], b[x as int]));
            if b[x as int].valid {
                let k = lemma_live(b, live, x);
                if k + 1 < live.len() {
                    assert(same_token(a[live[k + 1] as int], b[live[k + 1] as int]));
                }
            }
        }
    }
    reveal(links_wf);
    assert forall|k: int| 0 <= k < live.len() implies #[trigger] link_ok(a, live, k) by {
        assert(link_ok(b, live, k));
        assert(same_token(a[live[k] as int], b[live[k] as int]));
    }
    assert forall|idx: usize| idx < a.len() && (#[trigger] a[idx as int]).valid implies live.contains(
        idx,
    ) by {
        assert(same_token(a[idx as int], b[idx as int]));
        assert(b[idx as int].valid);
    }
    assert forall|k: int| 0 <= k < live.len() implies a[live[k] as int].id == b[live[k] as int].id by {
        assert(link_ok(b, live, k));
        assert(same_token(a[live[k] as int], b[live[k] as int]));
    }
    assert(ids_of(a, live) == ids_of(b, live));
}

/// What taking node `x` out of its list does to the lists.
proof fn lemma_drop(
    o: &PairLists,
    n: &PairLists,
    counts: Map<Pair, usize>,
    x: usize,
    skip: Option<Pair>,
    gone: Set<usize>,
    forward: Seq<bool>,
)
    requires
        o.wf(),
        lists_match(o.lists@, o.nodes@, skip, gone),
        counts_match(counts, o.lists@, skip),
        lists_sorted(o.lists@, forward),
        forall|y: usize| #[trigger] pair_at(n.nodes@, y) == pair_at(o.nodes@, y),
        pair_at(o.nodes@, x) is Some,
        !gone.contains(x),
        forall|p: Pair| #[trigger]
            n.list(p) == if o.list(p).contains(x) {
                o.list(p).remove(o.list(p).index_of(x))
            } else {
                o.list(p)
            },
    ensures
        lists_match(n.lists@, n.nodes@, skip, gone.insert(x)),
        lists_sorted(n.lists@, forward),
        ({
            let q = pair_at(o.nodes@, x)->0;
            if Some(q) == skip {
                !counts.contains_key(q) && counts_match(counts, n.lists@, skip)
            } else {
                counts.contains_key(q) && counts[q] > 0 && counts_match(
                    counts.insert(q, (counts[q] - 1) as usize),
                    n.lists@,
                    skip,
                )
            }
        }),
{
    reveal(lists_match);
    reveal(counts_match);
    let q = pair_at(o.nodes@, x)->0;
    assert forall|p: Pair| o.list(p).contains(x) <==> p == q && Some(q) != skip by {
        assert(list_of(o.lists@, p).contains(x) <==> Some(p) != skip && pair_at(o.nodes@, x)
            == Some(p) && !gone.contains(x));
    }
    assert forall|p: Pair, y: usize| #[trigger]
        list_of(n.lists@, p).contains(y) <==> Some(p) != skip && pair_at(n.nodes@, y) == Some(p)
            && !gone.insert(x).contains(y) by {
        assert(n.list(p) == list_of(n.lists@, p));
        if o.list(p).contains(x) {
            o.lemma_list(p);
            lemma_remove_member(o.list(p), x, y);
        }
        assert(list_of(o.lists@, p).contains(y) <==> Some(p) != skip && pair_at(o.nodes@, y) == Some(
            p,
        ) && !gone.contains(y));
    }
    assert(lists_sorted(n.lists@, forward)) by {
        reveal(lists_sorted);
        assert forall|p: Pair| (#[trigger] list_of(n.lists@, p)).len() > 0 implies ({
            &&& p.0 < forward.len()
            &&& p.1 < forward.len()
            &&& sorted_dir(list_of(n.lists@, p), forward[greater_id(p) as int])
        }) by {
            assert(n.list(p) == list_of(n.lists@, p));
            assert(list_of(o.lists@, p).len() > 0);
            if o.list(p).contains(x) {
                lemma_remove_sorted(
                    o.list(p),
                    o.list(p).index_of(x),
                    forward[greater_id(p) as int],
                );
            }
        }
    }
    assert forall|p: Pair| #[trigger] list_of(n.lists@, p).len() == list_of(o.lists@, p).len() - (if p
        == q && Some(q) != skip {
        1int
    } else {
        0int
    }) by {
        assert(n.list(p) == list_of(n.lists@, p));
    }
    if Some(q) != skip {
        assert(list_of(o.lists@, q).contains(x));
        assert(counts.contains_key(q));
        assert(counts_match(counts.insert(q, (counts[q] - 1) as usize), n.lists@, skip));
    } else {
        assert(counts_match(counts, n.lists@, skip));
    }
}

/// What putting node `x` at the head of its list does to the lists.
proof fn lemma_put(
    o: &PairLists,
    n: &PairLists,
    counts: Map<Pair, usize>,
    x: usize,
    skip: Option<Pair>,
    gone: Set<usize>,
    forward: Seq<bool>,
)
    requires
        n.wf(),
        o.nodes@.len() == n.nodes@.len(),
        lists_match(o.lists@, o.nodes@, skip, gone),
        counts_match(counts, o.lists@, skip),
        lists_sorted(o.lists@, forward),
        forall|y: usize| #[trigger] pair_at(n.nodes@, y) == pair_at(o.nodes@, y),
        pair_at(o.nodes@, x) is Some,
        pair_at(o.nodes@, x) != skip,
        gone.contains(x),
        forall|p: Pair| #[trigger]
            n.list(p) == if Some(p) == pair_at(o.nodes@, x) {
                seq![x] + o.list(p)
            } else {
                o.list(p)
            },
        ({
            let q = pair_at(o.nodes@, x)->0;
            &&& q.0 < forward.len()
            &&& q.1 < forward.len()
            &&& sorted_dir(seq![x] + o.list(q), forward[greater_id(q) as int])
        }),
    ensures
        lists_match(n.lists@, n.nodes@, skip, gone.remove(x)),
        lists_sorted(n.lists@, forward),
        ({
            let q = pair_at(o.nodes@, x)->0;
            let c = if counts.contains_key(q) {
                counts[q] as int
            } else {
                0
            };
            c + 1 <= n.nodes@.len() && counts_match(
                counts.insert(q, (c + 1) as usize),
                n.lists@,
                skip,
            )
        }),
{
    reveal(lists_match);
    reveal(counts_match);
    let q = pair_at(o.nodes@, x)->0;
    let l = n.list(q);
    let ol = o.list(q);
    assert(l == list_of(n.lists@, q));
    assert(l[0] == x);
    assert forall|p: Pair, y: usize| #[trigger]
        list_of(n.lists@, p).contains(y) <==> Some(p) != skip && pair_at(n.nodes@, y) == Some(p)
            && !gone.remove(x).contains(y) by {
        assert(n.list(p) == list_of(n.lists@, p));
        assert(list_of(o.lists@, p).contains(y) <==> Some(p) != skip && pair_at(o.nodes@, y) == Some(
            p,
        ) && !gone.contains(y));
        if p == q {
            if l.contains(y) {
                let i = choose|i: int| 0 <= i < l.len() && l[i] == y;
                if i > 0 {
                    assert(ol[i - 1] == y);
                }
            }
            if ol.contains(y) {
                let i = choose|i: int| 0 <= i < ol.len() && ol[i] == y;
                assert(l[i + 1] == y);
            }
        }
    }
    assert(lists_sorted(n.lists@, forward)) by {
        reveal(lists_sorted);
        assert forall|p: Pair| (#[trigger] list_of(n.lists@, p)).len() > 0 implies ({
            &&& p.0 < forward.len()
            &&& p.1 < forward.len()
            &&& sorted_dir(list_of(n.lists@, p), forward[greater_id(p) as int])
        }) by {
            assert(n.list(p) == list_of(n.lists@, p));
            if p != q {
                assert(list_of(o.lists@, p).len() > 0);
            }
        }
    }
    n.lemma_list(q);
    let f = forward[greater_id(q) as int];
    lemma_sorted_len(l, f, l.len() - 1);
    assert(l[0] < n.nodes@.len() && l[l.len() - 1] < n.nodes@.len());
    assert(l.len() <= n.nodes@.len());
    assert(n.nodes@.len() == n.nodes.len());
    let c = if counts.contains_key(q) {
        counts[q] as int
    } else {
        0
    };
    assert(list_of(o.lists@, q).len() > 0 ==> counts.contains_key(q));
    assert(c + 1 == l.len());
    let after_counts = counts.insert(q, (c + 1) as usize);
    assert forall|p: Pair| #[trigger] after_counts.contains_key(p) implies Some(p) != skip
        && after_counts[p] == list_of(n.lists@, p).len() by {
        assert(n.list(p) == list_of(n.lists@, p));
        if p != q {
            assert(counts.contains_key(p));
        }
    }
    assert forall|p: Pair| (#[trigger] list_of(n.lists@, p)).len() > 0 implies after_counts.contains_key(
        p,
    ) by {
        assert(n.list(p) == list_of(n.lists@, p));
        if p != q {
            assert(list_of(o.lists@, p).len() > 0);
        }
    }
}

proof fn lemma_heap(heap: Multiset<Entry>, counts: Map<Pair, usize>, q: Pair, c: usize)
    requires
        heap_match(heap, counts),
    ensures
        heap_match(heap.insert((c, q)), counts.insert(q, c)),
{
    reveal(heap_match);
    let counts2 = counts.insert(q, c);
    let heap2 = heap.insert((c, q));
    assert forall|p: Pair| #[trigger] counts2.contains_key(p) implies heap2.count((counts2[p], p)) > 0 by {
        if p != q {
            assert(counts.contains_key(p));
        }
    }
}

/// The nodes `n` are `o` with the node at place `k` of the sequence and its right neighbour
/// replaced by one node of id `new_id`.
spec fn relinked(
    o: Seq<ListNode>,
    n: Seq<ListNode>,
    live: Seq<usize>,
    k: int,
    new_id: usize,
) -> bool {
    let idx = live[k];
    let next_idx = live[k + 1];
    &&& n.len() == o.len()
    &&& n[idx as int].id == new_id
    &&& n[idx as int].valid
    &&& n[idx as int].prev == o[idx as int].prev
    &&& n[idx as int].next == o[next_idx as int].next
    &&& !n[next_idx as int].valid
    &&& forall|i: int|
        0 <= i < n.len() && i != idx && i != next_idx ==> {
            &&& (#[trigger] n[i]).id == o[i].id
            &&& n[i].valid == o[i].valid
            &&& n[i].next == o[i].next
            &&& n[i].prev == if o[next_idx as int].next is Some && o[next_idx as int].next->0 == i {
                Some(idx)
            } else {
                o[i].prev
            }
        }
}

proof fn lemma_relink(
    o: Seq<ListNode>,
    n: Seq<ListNode>,
    live: Seq<usize>,
    k: int,
    new_id: usize,
)
    requires
        links_wf(o, live),
        0 <= k < live.len() - 1,
        relinked(o, n, live, k, new_id),
    ensures
        links_wf(n, live.remove(k + 1)),
        ids_of(n, live.remove(k + 1)) == merge_at(ids_of(o, live), k, new_id),
        pair_at(n, live[k + 1]) is None,
        k > 0 ==> pair_at(n, live[k - 1]) == Some((o[live[k - 1] as int].id, new_id)),
        pair_at(n, live[k]) == (if k + 2 < live.len() {
            Some((new_id, o[live[k + 2] as int].id))
        } else {
            None
        }),
        forall|x: usize|
            x != live[k] && x != live[k + 1] && !(k > 0 && x == live[k - 1]) ==> #[trigger] pair_at(n, x)
                == pair_at(o, x),
{
    reveal(links_wf);
    let idx = live[k];
    let next_idx = live[k + 1];
    let m = live.remove(k + 1);
    assert(live[k] < live[k + 1]);
    assert(link_ok(o, live, k) && link_ok(o, live, k + 1));
    assert forall|i: int| 0 <= i < m.len() implies #[trigger] link_ok(n, m, i) by {
        let oi = if i <= k {
            i
        } else {
            i + 1
        };
        assert(m[i] == live[oi]);
        assert(link_ok(o, live, oi));
        if oi < k + 1 {
            assert(live[oi] < live[k + 1]);
        } else {
            assert(live[k + 1] < live[oi]);
        }
        if oi < k {
            assert(live[oi] < live[k]);
        }
        if k + 2 < live.len() && oi != k + 2 {
            if oi < k + 2 {
                assert(live[oi] < live[k + 2]);
            } else {
                assert(live[k + 2] < live[oi]);
            }
        }
    }
    assert(sorted_dir(m, true));
    assert forall|x: usize| x < n.len() && (#[trigger] n[x as int]).valid implies m.contains(x) by {
        assert(o[x as int].valid || x == idx);
        assert(live.contains(x));
        let j = choose|j: int| 0 <= j < live.len() && live[j] == x;
        if j <= k {
            assert(m[j] == x);
        } else {
            assert(m[j - 1] == x);
        }
    }
    let a = ids_of(n, m);
    let b = merge_at(ids_of(o, live), k, new_id);
    assert(a.len() == b.len());
    assert forall|i: int| 0 <= i < a.len() implies a[i] == b[i] by {
        assert(a[i] == n[m[i] as int].id);
        assert(link_ok(n, m, i));
        if i < k {
            assert(live[i] < live[k]);
            assert(live[i] < live[k + 1]);
        } else if i > k {
            assert(live[k] < live[i + 1]);
            assert(live[k + 1] < live[i + 1]);
        }
    }
    assert(a == b);
    if k > 0 {
        assert(live[k - 1] < live[k]);
        assert(link_ok(o, live, k - 1));
    }
    if k + 2 < live.len() {
        assert(live[k + 1] < live[k + 2]);
        assert(link_ok(o, live, k + 2));
    }
    assert forall|x: usize|
        x != live[k] && x != live[k + 1] && !(k > 0 && x == live[k - 1]) implies #[trigger] pair_at(
        n,
        x,
    ) == pair_at(o, x) by {
        if x < n.len() && o[x as int].valid {
            assert(live.contains(x));
            let j = choose|j: int| 0 <= j < live.len() && live[j] == x;
            assert(link_ok(o, live, j));
            if j + 1 < live.len() {
                assert(link_ok(o, live, j + 1));
                let y = live[j + 1];
                if j + 1 < k {
                    assert(live[j + 1] < live[k]);
                    assert(live[j + 1] < live[k + 1]);
                } else {
                    assert(live[k] < live[j + 1]);
                    assert(live[k + 1] < live[j + 1]);
                }
                assert(n[y as int].id == o[y as int].id);
            }
        }
    }
}

/// All nodes of id `new_id` stand before `idx` where merging runs forward, else behind it.
pub open spec fn merged_side(
    nodes: Seq<ListNode>,
    new_id: usize,
    idx: usize,
    forward: bool,
) -> bool {
    forall|x: usize|
        x < nodes.len() && (#[trigger] nodes[x as int]).valid && nodes[x as int].id == new_id ==> if forward {
            x < idx
        } else {
            idx < x
        }
}

proof fn lemma_prepend_sorted(x: usize, s: Seq<usize>, forward: bool)
    requires
        sorted_dir(s, forward),
        forall|e: usize| #[trigger]
            s.contains(e) ==> if forward {
                x < e
            } else {
                e < x
            },
    ensures
        sorted_dir(seq![x] + s, forward),
{
    let t = seq![x] + s;
    assert forall|i: int, j: int| 0 <= i < j < t.len() implies if forward {
        #[trigger] t[i] < #[trigger] t[j]
    } else {
        t[i] > t[j]
    } by {
        assert(t[j] == s[j - 1]);
        assert(s.contains(s[j - 1]));
        if i > 0 {
            assert(t[i] == s[i - 1]);
        }
    }
}

proof fn lemma_list_sorted(lists: Map<Pair, Seq<usize>>, forward: Seq<bool>, q: Pair)
    requires
        lists_sorted(lists, forward),
    ensures
        sorted_dir(list_of(lists, q), forward[greater_id(q) as int]),
{
    reveal(lists_sorted);
    if list_of(lists, q).len() == 0 {
    }
}

impl MergeEngine {
    /// Takes the pair that starts at node `idx` out of its list and out of its count.
    fn drop_pair(
        &mut self,
        idx: usize,
        Ghost(skip): Ghost<Option<Pair>>,
        Ghost(gone): Ghost<Set<usize>>,
    )
        requires
            old(self).wf_but(skip, gone),
            pair_at(old(self).tokens.nodes@, idx) is Some,
            !gone.contains(idx),
        ensures
            final(self).wf_but(skip, gone.insert(idx)),
            final(self).tokens.same_tokens(&old(self).tokens),
            final(self).live == old(self).live,
            final(self).forward == old(self).forward,
            final(self).ids() == old(self).ids(),
    {
        let ghost o = *self;
        let ghost k = lemma_live(self.tokens.nodes@, self.live@, idx);
        let next_idx: usize = self.tokens.nodes[idx].next.unwrap();
        let old_pair: (usize, usize) = (self.tokens.nodes[idx].id, self.tokens.nodes[next_idx].id);
        assert forall|p: Pair| #[trigger] self.tokens.list(p).contains(idx) implies p
            == self.tokens.pair_from(idx) by {
            reveal(lists_match);
            assert(list_of(self.tokens.lists@, p).contains(idx));
        }
        self.tokens.remove_from_pair_list(idx);
        proof {
            lemma_same_tokens(self.tokens.nodes@, o.tokens.nodes@, self.live@);
            lemma_drop(&o.tokens, &self.tokens, o.counts@, idx, skip, gone, self.forward@);
        }
        match self.counts.get(old_pair) {
            Some(c) => {
                let c1: usize = c.saturating_sub(1);
                self.counts.insert(old_pair, c1);
                self.heap.push((c1, old_pair));
                proof {
                    lemma_heap(o.heap@, o.counts@, old_pair, c1);
                }
            },
            None => {},
        }
    }

    /// Puts the pair that starts at node `idx` into its list and into its count.
    fn put_pair(
        &mut self,
        idx: usize,
        Ghost(skip): Ghost<Option<Pair>>,
        Ghost(gone): Ghost<Set<usize>>,
    )
        requires
            old(self).wf_but(skip, gone),
            pair_at(old(self).tokens.nodes@, idx) is Some,
            pair_at(old(self).tokens.nodes@, idx) != skip,
            gone.contains(idx),
            ({
                let q = pair_at(old(self).tokens.nodes@, idx)->0;
                sorted_dir(
                    seq![idx] + old(self).tokens.list(q),
                    old(self).forward@[greater_id(q) as int],
                )
            }),
        ensures
            final(self).wf_but(skip, gone.remove(idx)),
            final(self).tokens.same_tokens(&old(self).tokens),
            final(self).live == old(self).live,
            final(self).forward == old(self).forward,
            final(self).ids() == old(self).ids(),
            forall|p: Pair| #[trigger]
                final(self).tokens.list(p) == if Some(p) == pair_at(old(self).tokens.nodes@, idx) {
                    seq![idx] + old(self).tokens.list(p)
                } else {
                    old(self).tokens.list(p)
                },
    {
        let ghost o = *self;
        let ghost k = lemma_live(self.tokens.nodes@, self.live@, idx);
        let next_idx: usize = self.tokens.nodes[idx].next.unwrap();
        let new_pair: (usize, usize) = (self.tokens.nodes[idx].id, self.tokens.nodes[next_idx].id);
        assert(self.ids()[k] == new_pair.0 && self.ids()[k + 1] == new_pair.1);
        assert(!self.tokens.listed(idx)) by {
            reveal(lists_match);
            assert forall|p: Pair| !(#[trigger] self.tokens.list(p)).contains(idx) by {
                assert(!list_of(self.tokens.lists@, p).contains(idx));
            }
        }
        self.tokens.add_to_pair_list(idx);
        proof {
            lemma_same_tokens(self.tokens.nodes@, o.tokens.nodes@, self.live@);
            lemma_put(&o.tokens, &self.tokens, o.counts@, idx, skip, gone, self.forward@);
        }
        let c: usize = match self.counts.get(new_pair) {
            Some(c) => c,
            None => 0,
        };
        assert(c + 1 <= self.tokens.nodes.len());
        let c1: usize = c + 1;
        self.counts.insert(new_pair, c1);
        self.heap.push((c1, new_pair));
        proof {
            lemma_heap(o.heap@, o.counts@, new_pair, c1);
        }
    }

    /// Replaces the pair that starts at node `idx` by one token.
    fn merge_one(
        &mut self,
        idx: usize,
        new_id: usize,
        Ghost(pair): Ghost<Pair>,
    ) -> (place: Ghost<int>)
        requires
            old(self).wf_but(Some(pair), Set::empty()),
            pair_at(old(self).tokens.nodes@, idx) == Some(pair),
            new_id + 1 == old(self).forward@.len(),
            pair.0 < new_id,
            pair.1 < new_id,
            merged_side(
                old(self).tokens.nodes@,
                new_id,
                idx,
                !old(self).forward@[new_id as int],
            ),
        ensures
            final(self).wf_but(Some(pair), Set::empty()),
            final(self).forward == old(self).forward,
            final(self).tokens.nodes@.len() == old(self).tokens.nodes@.len(),
            0 <= place@ < old(self).live@.len() - 1,
            old(self).live@[place@] == idx,
            occurs_at(old(self).ids(), pair, place@),
            final(self).live@ == old(self).live@.remove(place@ + 1),
            final(self).ids() == merge_at(old(self).ids(), place@, new_id),
            forall|x: usize| #[trigger]
                pair_at(final(self).tokens.nodes@, x) == Some(pair) ==> pair_at(
                    old(self).tokens.nodes@,
                    x,
                ) == Some(pair) && x != idx,
            forall|x: usize|
                x < final(self).tokens.nodes@.len() && (#[trigger] final(self).tokens.nodes@[x as int]).valid
                    && final(self).tokens.nodes@[x as int].id == new_id ==> x == idx || (old(
                    self,
                ).tokens.nodes@[x as int].valid && old(self).tokens.nodes@[x as int].id == new_id),
    {
        let ghost skip = Some(pair);
        let ghost o = *self;
        let ghost live = self.live@;
        let ghost k = lemma_live(self.tokens.nodes@, live, idx);
        let next_idx: usize = self.tokens.nodes[idx].next.unwrap();
        assert(live[k + 1] == next_idx);
        assert(self.tokens.nodes@[next_idx as int].valid && self.tokens.nodes@[next_idx as int].next
            == after(live, k + 1) && (k + 2 < live.len() ==> next_idx < live[k + 2]
            < self.tokens.nodes@.len()) && (k > 0 ==> self.tokens.nodes@[live[k - 1] as int].valid
            && self.tokens.nodes@[live[k - 1] as int].next == Some(idx) && live[k - 1] < idx)) by {
            reveal(links_wf);
            assert(link_ok(self.tokens.nodes@, live, k + 1));
            if k + 2 < live.len() {
                assert(live[k + 1] < live[k + 2]);
                assert(link_ok(self.tokens.nodes@, live, k + 2));
            }
            if k > 0 {
                assert(live[k - 1] < live[k]);
                assert(link_ok(self.tokens.nodes@, live, k - 1));
            }
        }
        let prev_idx: Option<usize> = self.tokens.nodes[idx].prev;
        let next_next_idx: Option<usize> = self.tokens.nodes[next_idx].next;
        let ghost mut gone = Set::<usize>::empty().insert(idx);
        assert(self.wf_but(skip, gone)) by {
            reveal(lists_match);
        }
        // The pairs that overlap the merged one are no more.
        if let Some(p) = prev_idx {
            self.drop_pair(p, Ghost(skip), Ghost(gone));
            proof {
                gone = gone.insert(p);
                lemma_same_tokens(self.tokens.nodes@, o.tokens.nodes@, live);
            }
        }
        let ghost mid = *self;
        if next_next_idx.is_some() {
            self.drop_pair(next_idx, Ghost(skip), Ghost(gone));
            proof {
                gone = gone.insert(next_idx);
                lemma_same_tokens(self.tokens.nodes@, mid.tokens.nodes@, live);
            }
        }
        let ghost detached = *self;
        assert forall|i: int| 0 <= i < o.tokens.nodes@.len() implies same_token(
            #[trigger] self.tokens.nodes@[i],
            o.tokens.nodes@[i],
        ) by {
            assert(same_token(mid.tokens.nodes@[i], o.tokens.nodes@[i]));
        }
        // The linked list takes the new token in place of the two.
        let mut node = self.tokens.nodes[idx];
        node.id = new_id;
        node.next = next_next_idx;
        self.tokens.nodes.set(idx, node);
        let mut dead = self.tokens.nodes[next_idx];
        dead.valid = false;
        self.tokens.nodes.set(next_idx, dead);
        if let Some(nn) = next_next_idx {
            let mut right = self.tokens.nodes[nn];
            right.prev = Some(idx);
            self.tokens.nodes.set(nn, right);
        }
        proof {
            self.live@ = live.remove(k + 1);
            lemma_same_tokens(detached.tokens.nodes@, o.tokens.nodes@, live);
            assert(same_token(detached.tokens.nodes@[idx as int], o.tokens.nodes@[idx as int]));
            assert(same_token(
                detached.tokens.nodes@[next_idx as int],
                o.tokens.nodes@[next_idx as int],
            ));
            assert(relinked(detached.tokens.nodes@, self.tokens.nodes@, live, k, new_id));
            lemma_relink(detached.tokens.nodes@, self.tokens.nodes@, live, k, new_id);
            self.tokens.lemma_relinked(&detached.tokens);
            let small = if k > 0 {
                Set::empty().insert(idx).insert(live[k - 1])
            } else {
                Set::empty().insert(idx)
            };
            assert(lists_match(self.tokens.lists@, self.tokens.nodes@, skip, small)) by {
                reveal(lists_match);
                assert forall|p: Pair, x: usize| #[trigger]
                    list_of(self.tokens.lists@, p).contains(x) <==> Some(p) != skip && pair_at(
                        self.tokens.nodes@,
                        x,
                    ) == Some(p) && !small.contains(x) by {
                    assert(list_of(detached.tokens.lists@, p).contains(x) <==> Some(p) != skip
                        && pair_at(detached.tokens.nodes@, x) == Some(p) && !gone.contains(x));
                    if x == next_idx {
                        assert(pair_at(detached.tokens.nodes@, next_idx) is Some ==> gone.contains(
                            next_idx,
                        ));
                    }
                }
            }
            gone = small;
            assert(ids_below(self.ids(), self.forward@.len())) by {
                let before_ids = detached.ids();
                assert forall|i: int| 0 <= i < self.ids().len() implies #[trigger] self.ids()[i]
                    < self.forward@.len() by {
                    if i < k {
                        assert(self.ids()[i] == before_ids[i]);
                    } else if i > k {
                        assert(self.ids()[i] == before_ids[i + 1]);
                    }
                }
            }
        }
        let ghost linked = *self;
        let ghost f = self.forward@[new_id as int];
        assert forall|x: usize|
            x < self.tokens.nodes@.len() && (#[trigger] self.tokens.nodes@[x as int]).valid
                && self.tokens.nodes@[x as int].id == new_id && x != idx implies o.tokens.nodes@[x as int].valid
            && o.tokens.nodes@[x as int].id == new_id by {
            assert(same_token(detached.tokens.nodes@[x as int], o.tokens.nodes@[x as int]));
        }
        // The pairs with the new token come in.
        if let Some(p) = prev_idx {
            proof {
                let q = pair_at(self.tokens.nodes@, p)->0;
                assert(q.1 == new_id);
                assert(self.ids()[k - 1] == q.0) by {
                    assert(self.live@[k - 1] == p);
                }
                assert(greater_id(q) == new_id);
                lemma_list_sorted(self.tokens.lists@, self.forward@, q);
                assert forall|e: usize| #[trigger] self.tokens.list(q).contains(e) implies if f {
                    p < e
                } else {
                    e < p
                } by {
                    assert(list_of(self.tokens.lists@, q).contains(e));
                    assert(pair_at(self.tokens.nodes@, e) == Some(q) && e != idx && e != p) by {
                        reveal(lists_match);
                    }
                    self.lemma_left_of_new(o, live, k, new_id, e);
                }
                lemma_prepend_sorted(p, self.tokens.list(q), f);
            }
            self.put_pair(p, Ghost(skip), Ghost(gone));
            proof {
                lemma_same_tokens(self.tokens.nodes@, linked.tokens.nodes@, self.live@);
                gone = gone.remove(p);
                assert(gone =~= Set::empty().insert(idx));
            }
        }
        let ghost put = *self;
        assert forall|i: int| 0 <= i < linked.tokens.nodes@.len() implies same_token(
            #[trigger] self.tokens.nodes@[i],
            linked.tokens.nodes@[i],
        ) by {}
        if next_next_idx.is_some() {
            proof {
                let q = pair_at(self.tokens.nodes@, idx)->0;
                assert(q.0 == new_id);
                assert(self.ids()[k + 1] == q.1) by {
                    assert(self.live@[k + 1] == next_next_idx->0);
                }
                assert(greater_id(q) == new_id);
                lemma_list_sorted(self.tokens.lists@, self.forward@, q);
                assert forall|e: usize| #[trigger] self.tokens.list(q).contains(e) implies if f {
                    idx < e
                } else {
                    e < idx
                } by {
                    assert(list_of(self.tokens.lists@, q).contains(e));
                    assert(pair_at(self.tokens.nodes@, e) == Some(q) && e != idx) by {
                        reveal(lists_match);
                    }
                    assert(same_token(self.tokens.nodes@[e as int], linked.tokens.nodes@[e as int]));
                    assert(linked.tokens.nodes@[e as int].valid);
                }
                lemma_prepend_sorted(idx, self.tokens.list(q), f);
            }
            self.put_pair(idx, Ghost(skip), Ghost(gone));
            proof {
                lemma_same_tokens(self.tokens.nodes@, put.tokens.nodes@, self.live@);
                assert(gone.remove(idx) =~= Set::empty());
            }
        } else {
            assert(lists_match(self.tokens.lists@, self.tokens.nodes@, skip, Set::empty())) by {
                reveal(lists_match);
            }
        }
        proof {
            assert forall|x: usize| #[trigger] pair_at(self.tokens.nodes@, x) == Some(pair) implies pair_at(
                o.tokens.nodes@,
                x,
            ) == Some(pair) && x != idx by {
                assert(pair_at(self.tokens.nodes@, x) == pair_at(put.tokens.nodes@, x));
                assert(pair_at(put.tokens.nodes@, x) == pair_at(linked.tokens.nodes@, x));
                assert(pair_at(detached.tokens.nodes@, x) == pair_at(o.tokens.nodes@, x));
            }
            assert forall|x: usize|
                x < self.tokens.nodes@.len() && (#[trigger] self.tokens.nodes@[x as int]).valid
                    && self.tokens.nodes@[x as int].id == new_id implies x == idx || (o.tokens.nodes@[x as int].valid
                && o.tokens.nodes@[x as int].id == new_id) by {
                assert(same_token(self.tokens.nodes@[x as int], put.tokens.nodes@[x as int]));
                assert(same_token(put.tokens.nodes@[x as int], linked.tokens.nodes@[x as int]));
                assert(linked.tokens.nodes@[x as int].valid);
            }
            assert(occurs_at(o.ids(), pair, k));
        }
        Ghost(k)
    }

    /// A node whose right neighbour carries the new id stands on the merged side of `live[k - 1]`.
    proof fn lemma_left_of_new(&self, o: Self, live: Seq<usize>, k: int, new_id: usize, e: usize)
        requires
            links_wf(self.tokens.nodes@, self.live@),
            links_wf(o.tokens.nodes@, live),
            0 < k < live.len() - 1,
            self.live@ == live.remove(k + 1),
            new_id < self.forward@.len(),
            merged_side(o.tokens.nodes@, new_id, live[k], !self.forward@[new_id as int]),
            pair_at(self.tokens.nodes@, e) is Some,
            (pair_at(self.tokens.nodes@, e)->0).1 == new_id,
            e != live[k],
            e != live[k - 1],
            forall|x: usize|
                x < self.tokens.nodes@.len() && (#[trigger] self.tokens.nodes@[x as int]).valid
                    && self.tokens.nodes@[x as int].id == new_id && x != live[k] ==> x
                    < o.tokens.nodes@.len() && o.tokens.nodes@[x as int].valid
                    && o.tokens.nodes@[x as int].id == new_id,
        ensures
            self.forward@[new_id as int] ==> live[k - 1] < e,
            !self.forward@[new_id as int] ==> e < live[k - 1],
    {
        let m = self.live@;
        let j = lemma_live(self.tokens.nodes@, m, e);
        let z = m[j + 1];
        reveal(links_wf);
        assert(m[k] == live[k] && m[k - 1] == live[k - 1]);
        assert(link_ok(self.tokens.nodes@, m, j + 1));
        assert(self.tokens.nodes@[z as int].valid);
        if z == live[k] {
            if j + 1 < k {
                assert(m[j + 1] < m[k]);
            } else if j + 1 > k {
                assert(m[k] < m[j + 1]);
            }
            assert(false);
        }
        assert(o.tokens.nodes@[z as int].valid);
        if self.forward@[new_id as int] {
            assert(live[k] < z);
            if j + 1 <= k {
                if j + 1 < k {
                    assert(m[j + 1] < m[k]);
                }
            }
            assert(m[k - 1] < m[j]);
        } else {
            assert(z < live[k]);
            if j + 1 >= k {
                if j + 1 > k {
                    assert(m[k] < m[j + 1]);
                }
            }
            assert(j + 1 < k);
            assert(m[j] < m[k - 1]);
        }
    }

    proof fn lemma_occurs(&self, p: Pair, j: int)
        requires
            links_wf(self.tokens.nodes@, self.live@),
            0 <= j < self.live@.len(),
        ensures
            occurs_at(self.ids(), p, j) <==> pair_at(self.tokens.nodes@, self.live@[j]) == Some(p),
    {
        reveal(links_wf);
        assert(link_ok(self.tokens.nodes@, self.live@, j));
    }

    /// The list of a pair is as long as the pair is frequent.
    proof fn lemma_count(&self, p: Pair)
        requires
            self.tokens.wf(),
            links_wf(self.tokens.nodes@, self.live@),
            lists_match(self.tokens.lists@, self.tokens.nodes@, None, Set::empty()),
        ensures
            pair_count(self.ids(), p) == self.tokens.list(p).len(),
    {
        let l = self.tokens.list(p);
        let live = self.live@;
        let occ = occurrences(self.ids(), p);
        self.tokens.lemma_list(p);
        l.unique_seq_to_set();
        vstd::set_lib::lemma_int_range(0, self.ids().len() as int);
        let f = |k: int| live[k];
        assert(injective_on(f, occ)) by {
            reveal(links_wf);
            assert forall|a: int, b: int|
                occ.contains(a) && occ.contains(b) && #[trigger] f(a) == #[trigger] f(b) implies a == b by {
                if a < b {
                    assert(live[a] < live[b]);
                } else if b < a {
                    assert(live[b] < live[a]);
                }
            }
        }
        assert forall|x: usize| #[trigger] occ.map(f).contains(x) <==> l.to_set().contains(x) by {
            assert(list_of(self.tokens.lists@, p).contains(x) <==> pair_at(self.tokens.nodes@, x)
                == Some(p)) by {
                reveal(lists_match);
            }
            if occ.map(f).contains(x) {
                let k = choose|k: int| occ.contains(k) && f(k) == x;
                self.lemma_occurs(p, k);
            }
            if l.to_set().contains(x) {
                assert(l.contains(x));
                let k = lemma_live(self.tokens.nodes@, live, x);
                self.lemma_occurs(p, k);
                assert(occ.contains(k));
                assert(f(k) == x);
            }
        }
        assert(occ.map(f) =~= l.to_set());
        vstd::set_lib::lemma_map_size(occ, l.to_set(), f);
    }

    /// Replaces every occurrence of `pair` by `new_id`, in the order of the list of the pair.
    fn merge_all(&mut self, pair: (usize, usize), new_id: usize)
        requires
            old(self).tokens.wf(),
            links_wf(old(self).tokens.nodes@, old(self).live@),
            lists_match(old(self).tokens.lists@, old(self).tokens.nodes@, None, Set::empty()),
            counts_match(old(self).counts@, old(self).tokens.lists@, None),
            old(self).heap.wf(),
            heap_match(old(self).heap@, old(self).counts@.remove(pair)),
            lists_sorted(old(self).tokens.lists@, old(self).forward@),
            ids_below(old(self).ids(), old(self).forward@.len()),
            new_id == old(self).forward@.len(),
            pair.0 < new_id,
            pair.1 < new_id,
        ensures
            final(self).wf(),
            final(self).forward@ == old(self).forward@.push(
                !old(self).forward@[greater_id(pair) as int],
            ),
            final(self).ids() == merge_pair(
                old(self).ids(),
                pair,
                new_id,
                old(self).forward@[greater_id(pair) as int],
            ),
    {
        let ghost o = *self;
        let ghost skip = Some(pair);
        let ghost d = self.forward@[greater_id(pair) as int];
        let positions = self.tokens.take_pair_list(pair);
        self.counts.remove(pair);
        proof {
            self.forward@ = self.forward@.push(!d);
            lemma_same_tokens(self.tokens.nodes@, o.tokens.nodes@, self.live@);
            assert forall|p: Pair| #[trigger] list_of(self.tokens.lists@, p) == if p == pair {
                Seq::<usize>::empty()
            } else {
                list_of(o.tokens.lists@, p)
            } by {
                assert(self.tokens.list(p) == list_of(self.tokens.lists@, p));
                assert(o.tokens.list(p) == list_of(o.tokens.lists@, p));
            }
            assert(lists_match(self.tokens.lists@, self.tokens.nodes@, skip, Set::empty())) by {
                reveal(lists_match);
                assert forall|p: Pair, x: usize| #[trigger]
                    list_of(self.tokens.lists@, p).contains(x) <==> Some(p) != skip && pair_at(
                        self.tokens.nodes@,
                        x,
                    ) == Some(p) && !Set::<usize>::empty().contains(x) by {
                    assert(list_of(o.tokens.lists@, p).contains(x) <==> pair_at(o.tokens.nodes@, x)
                        == Some(p));
                }
            }
            assert(counts_match(self.counts@, self.tokens.lists@, skip)) by {
                reveal(counts_match);
            }
            assert(lists_sorted(self.tokens.lists@, self.forward@)) by {
                reveal(lists_sorted);
            }
            lemma_list_sorted(o.tokens.lists@, o.forward@, pair);
            assert(sorted_dir(positions@, d));
            assert forall|x: usize| #[trigger] pair_at(self.tokens.nodes@, x) == Some(pair) implies exists|
                s: int,
            | 0 <= s < positions@.len() && #[trigger] positions@[s] == x by {
                reveal(lists_match);
                assert(pair_at(o.tokens.nodes@, x) == Some(pair));
                assert(list_of(o.tokens.lists@, pair).contains(x));
            }
            assert forall|s: int| 0 <= s < positions@.len() implies merged_side(
                self.tokens.nodes@,
                new_id,
                #[trigger] positions@[s],
                d,
            ) by {
                assert forall|x: usize|
                    x < self.tokens.nodes@.len() && (#[trigger] self.tokens.nodes@[x as int]).valid implies self.tokens.nodes@[x as int].id
                    != new_id by {
                    let k = lemma_live(self.tokens.nodes@, self.live@, x);
                    assert(self.ids()[k] < new_id);
                }
            }
            o.tokens.lemma_list(pair);
        }
        let n: usize = positions.len();
        let mut t: usize = 0;
        while t < n
            invariant
                t <= n,
                n == positions@.len(),
                self.wf_but(skip, Set::empty()),
                skip == Some(pair),
                self.forward@ == o.forward@.push(!d),
                d == o.forward@[greater_id(pair) as int],
                new_id == o.forward@.len(),
                pair.0 < new_id,
                pair.1 < new_id,
                sorted_dir(positions@, d),
                forall|s: int|
                    0 <= s < n ==> #[trigger] positions@[s] < self.tokens.nodes@.len(),
                forall|x: usize| #[trigger]
                    pair_at(self.tokens.nodes@, x) == Some(pair) ==> exists|s: int|
                        t <= s < n && #[trigger] positions@[s] == x,
                forall|s: int|
                    t <= s < n ==> merged_side(
                        self.tokens.nodes@,
                        new_id,
                        #[trigger] positions@[s],
                        d,
                    ),
                merge_pair(self.ids(), pair, new_id, d) == merge_pair(o.ids(), pair, new_id, d),
            decreases n - t,
        {
            let idx: usize = positions[t];
            let ghost b = *self;
            let node = self.tokens.nodes[idx];
            let mut hit: bool = false;
            if node.valid {
                proof {
                    let k = lemma_live(self.tokens.nodes@, self.live@, idx);
                }
                if let Some(next_idx) = node.next {
                    hit = node.id == pair.0 && self.tokens.nodes[next_idx].id == pair.1;
                }
            }
            assert(hit == (pair_at(self.tokens.nodes@, idx) == Some(pair)));
            if hit {
                let Ghost(k) = self.merge_one(idx, new_id, Ghost(pair));
                proof {
                    assert forall|j: int| 0 <= j && j != k && #[trigger] occurs_at(b.ids(), pair, j) implies if d {
                        j > k
                    } else {
                        j < k
                    } by {
                        b.lemma_occurs(pair, j);
                        let s = choose|s: int| t <= s < n && #[trigger] positions@[s] == b.live@[j];
                        reveal(links_wf);
                        if j < k {
                            assert(b.live@[j] < b.live@[k]);
                        } else {
                            assert(b.live@[k] < b.live@[j]);
                        }
                        assert(positions@[t as int] == idx);
                        if s > t {
                            assert(if d {
                                positions@[t as int] < positions@[s]
                            } else {
                                positions@[t as int] > positions@[s]
                            });
                        }
                    }
                    if d {
                        lemma_merge_first(b.ids(), pair, new_id, k);
                    } else {
                        lemma_merge_last(b.ids(), pair, new_id, k);
                    }
                }
            }
            proof {
                assert forall|x: usize| #[trigger] pair_at(self.tokens.nodes@, x) == Some(pair) implies exists|
                    s: int,
                | t < s < n && #[trigger] positions@[s] == x by {
                    assert(pair_at(b.tokens.nodes@, x) == Some(pair));
                    let s = choose|s: int| t <= s < n && #[trigger] positions@[s] == x;
                    assert(s != t);
                    assert(positions@[s] == x);
                }
                assert forall|s: int| t < s < n implies merged_side(
                    self.tokens.nodes@,
                    new_id,
                    #[trigger] positions@[s],
                    d,
                ) by {
                    assert(merged_side(b.tokens.nodes@, new_id, positions@[s], d));
                    assert(positions@[t as int] == idx);
                }
            }
            t += 1;
        }
        proof {
            assert forall|k: int| !#[trigger] occurs_at(self.ids(), pair, k) by {
                if occurs_at(self.ids(), pair, k) {
                    self.lemma_occurs(pair, k);
                    let s = choose|s: int| n <= s < n && #[trigger] positions@[s] == self.live@[k];
                    assert(false);
                }
            }
            lemma_merge_none(self.ids(), pair, new_id, d);
            assert(lists_match(self.tokens.lists@, self.tokens.nodes@, None, Set::empty())) by {
                reveal(lists_match);
                assert forall|p: Pair, x: usize| #[trigger]
                    list_of(self.tokens.lists@, p).contains(x) <==> Some(p) != None::<Pair> && pair_at(
                        self.tokens.nodes@,
                        x,
                    ) == Some(p) && !Set::<usize>::empty().contains(x) by {
                    if p == pair && pair_at(self.tokens.nodes@, x) == Some(pair) {
                        let s = choose|s: int| n <= s < n && #[trigger] positions@[s] == x;
                        assert(false);
                    }
                }
            }
            assert(counts_match(self.counts@, self.tokens.lists@, None)) by {
                reveal(counts_match);
            }
        }
    }

    /// Merges the best pair into the token `new_id` and returns it, or returns `None` where no
    /// pair occurs twice.
    pub fn merge_best(&mut self, new_id: usize) -> (r: Option<(usize, usize)>)
        requires
            old(self).wf(),
            new_id == old(self).forward@.len(),
        ensures
            r == best_pair(old(self).ids()),
            match r {
                None => final(self).ids() == old(self).ids() && final(self).forward == old(
                    self,
                ).forward,
                Some(p) => {
                    &&& p.0 < new_id
                    &&& p.1 < new_id
                    &&& final(self).wf()
                    &&& final(self).forward@ == old(self).forward@.push(
                        !old(self).forward@[greater_id(p) as int],
                    )
                    &&& final(self).ids() == merge_pair(
                        old(self).ids(),
                        p,
                        new_id,
                        old(self).forward@[greater_id(p) as int],
                    )
                },
            },
    {
        let ghost o = *self;
        let mut best: Option<(usize, usize)> = None;
        let mut done: bool = false;
        while !done
            invariant
                self.tokens == o.tokens,
                self.counts == o.counts,
                self.live == o.live,
                self.forward == o.forward,
                o.wf(),
                self.heap.wf(),
                !done ==> heap_match(self.heap@, self.counts@) && best is None,
                done ==> match best {
                    None => forall|q: Pair| #[trigger] o.counts@.contains_key(q) ==> o.counts@[q] < 2,
                    Some(p) => {
                        &&& o.counts@.contains_key(p)
                        &&& o.counts@[p] >= 2
                        &&& heap_match(self.heap@, self.counts@.remove(p))
                        &&& forall|q: Pair| #[trigger]
                            o.counts@.contains_key(q) ==> entry_le((o.counts@[q], q), (o.counts@[p], p))
                    },
                },
            decreases
                (if done {
                    0int
                } else {
                    1int
                }),
                self.heap@.len(),
        {
            let ghost h = self.heap@;
            match self.heap.pop() {
                None => {
                    done = true;
                    proof {
                        reveal(heap_match);
                        assert forall|q: Pair| #[trigger] o.counts@.contains_key(q) implies o.counts@[q] < 2 by {
                            assert(h.count((o.counts@[q], q)) > 0);
                        }
                    }
                },
                Some(e) => {
                    let count: usize = e.0;
                    let pair: (usize, usize) = e.1;
                    let actual: Option<usize> = self.counts.get(pair);
                    let current: bool = match actual {
                        Some(a) => a == count,
                        None => false,
                    };
                    if current {
                        done = true;
                        if count >= 2 {
                            best = Some(pair);
                        }
                        proof {
                            reveal(heap_match);
                            assert forall|q: Pair| #[trigger] o.counts@.contains_key(q) implies entry_le(
                                (o.counts@[q], q),
                                (count, pair),
                            ) && (q != pair ==> self.heap@.count((o.counts@[q], q)) > 0) by {
                                assert(h.count((o.counts@[q], q)) > 0);
                            }
                        }
                    } else {
                        assert(heap_match(self.heap@, self.counts@)) by {
                            reveal(heap_match);
                            assert forall|q: Pair| #[trigger] self.counts@.contains_key(q) implies self.heap@.count(
                                (self.counts@[q], q),
                            ) > 0 by {
                                assert(h.count((self.counts@[q], q)) > 0);
                            }
                        }
                    }
                },
            }
        }
        proof {
            assert forall|q: Pair| #[trigger] pair_count(o.ids(), q) == (if o.counts@.contains_key(q) {
                o.counts@[q] as nat
            } else {
                0
            }) by {
                o.lemma_count(q);
                reveal(counts_match);
                assert(o.tokens.list(q) == list_of(o.tokens.lists@, q));
            }
        }
        match best {
            None => {
                assert forall|q: Pair| !is_best(o.ids(), q) by {}
                None
            },
            Some(p) => {
                proof {
                    assert forall|q: Pair| #[trigger] pair_count(o.ids(), q) <= pair_count(o.ids(), p) && (
                    pair_count(o.ids(), q) == pair_count(o.ids(), p) ==> q.0 < p.0 || (q.0 == p.0 && q.1
                        <= p.1)) by {}
                    assert(is_best(o.ids(), p));
                    best_pair_is_unique(o.ids(), p);
                    reveal(counts_match);
                    reveal(lists_sorted);
                    assert(list_of(o.tokens.lists@, p).len() > 0);
                }
                self.merge_all(p, new_id);
                Some(p)
            },
        }
    }

    /// The engine over `sequence`, whose ids are all below `vocab_len`.
    pub fn new(sequence: &Vec<usize>, vocab_len: usize) -> (r: Self)
        requires
            ids_below(sequence@, vocab_len as nat),
        ensures
            r.wf(),
            r.ids() == sequence@,
            r.forward@ == Seq::new(vocab_len as nat, |i: int| false),
    {
        let n: usize = sequence.len();
        let ghost live: Seq<usize> = Seq::new(n as nat, |i: int| i as usize);
        let ghost forward: Seq<bool> = Seq::new(vocab_len as nat, |i: int| false);
        let mut nodes: Vec<ListNode> = Vec::new();
        let mut i: usize = 0;
        while i < n
            invariant
                i <= n,
                n == sequence@.len(),
                nodes@.len() == i,
                forall|j: int|
                    0 <= j < i ==> #[trigger] nodes@[j] == (ListNode {
                        id: sequence@[j],
                        prev: if j > 0 {
                            Some((j - 1) as usize)
                        } else {
                            None
                        },
                        next: if j + 1 < n {
                            Some((j + 1) as usize)
                        } else {
                            None
                        },
                        pair_prev: None,
                        pair_next: None,
                        valid: true,
                    }),
            decreases n - i,
        {
            nodes.push(
                ListNode {
                    id: sequence[i],
                    prev: if i > 0 {
                        Some(i - 1)
                    } else {
                        None
                    },
                    next: if i + 1 < n {
                        Some(i + 1)
                    } else {
                        None
                    },
                    pair_prev: None,
                    pair_next: None,
                    valid: true,
                },
            );
            i += 1;
        }
        let mut r = MergeEngine {
            tokens: PairLists::new(nodes),
            counts: FastMap::new(),
            heap: PairHeap::new(),
            live: Ghost(live),
            forward: Ghost(forward),
        };
        proof {
            let nodes = r.tokens.nodes@;
            assert(links_wf(nodes, live)) by {
                reveal(links_wf);
                assert forall|k: int| 0 <= k < live.len() implies #[trigger] link_ok(nodes, live, k) by {}
                assert forall|x: usize| x < nodes.len() && (#[trigger] nodes[x as int]).valid implies live.contains(
                    x,
                ) by {
                    assert(live[x as int] == x);
                }
            }
            assert(r.ids() =~= sequence@);
            assert(lists_match(r.tokens.lists@, nodes, None, Set::new(|x: usize| x >= 0))) by {
                reveal(lists_match);
                assert forall|p: Pair, x: usize| !(#[trigger] list_of(r.tokens.lists@, p).contains(x)) by {
                    assert(r.tokens.list(p).len() == 0);
                }
            }
            assert(counts_match(r.counts@, r.tokens.lists@, None)) by {
                reveal(counts_match);
                assert forall|p: Pair| (#[trigger] list_of(r.tokens.lists@, p)).len() == 0 by {
                    assert(r.tokens.list(p).len() == 0);
                }
            }
            assert(lists_sorted(r.tokens.lists@, forward)) by {
                reveal(lists_sorted);
                assert forall|p: Pair| (#[trigger] list_of(r.tokens.lists@, p)).len() == 0 by {
                    assert(r.tokens.list(p).len() == 0);
                }
            }
        }
        let mut i: usize = 0;
        while i < n && n - i > 1
            invariant
                i <= n,
                n == sequence@.len(),
                r.tokens.nodes@.len() == n,
                r.live@ == live,
                live == Seq::new(n as nat, |i: int| i as usize),
                r.forward@ == forward,
                forward == Seq::new(vocab_len as nat, |i: int| false),
                ids_below(sequence@, vocab_len as nat),
                r.tokens.wf(),
                r.heap.wf(),
                r.heap@ == Multiset::<Entry>::empty(),
                links_wf(r.tokens.nodes@, live),
                r.ids() == sequence@,
                lists_match(r.tokens.lists@, r.tokens.nodes@, None, Set::new(|x: usize| x >= i)),
                counts_match(r.counts@, r.tokens.lists@, None),
                lists_sorted(r.tokens.lists@, forward),
            decreases n - i,
        {
            let ghost o = r;
            let ghost gone = Set::new(|x: usize| x >= i);
            proof {
                reveal(links_wf);
                assert(live[i as int] == i && live[i + 1] == i + 1);
                assert(link_ok(r.tokens.nodes@, live, i as int));
                assert(link_ok(r.tokens.nodes@, live, i + 1));
                assert(r.ids()[i as int] == sequence@[i as int]);
                assert(r.ids()[i + 1] == sequence@[i + 1]);
            }
            let pair: (usize, usize) = (r.tokens.nodes[i].id, r.tokens.nodes[i + 1].id);
            assert(pair_at(r.tokens.nodes@, i) == Some(pair));
            proof {
                assert forall|p: Pair, e: usize| #[trigger] r.tokens.list(p).contains(e) implies e < i by {
                    reveal(lists_match);
                    assert(list_of(r.tokens.lists@, p).contains(e));
                }
                assert(!r.tokens.listed(i));
                lemma_list_sorted(r.tokens.lists@, forward, pair);
                lemma_prepend_sorted(i, r.tokens.list(pair), false);
            }
            r.tokens.add_to_pair_list(i);
            proof {
                lemma_same_tokens(r.tokens.nodes@, o.tokens.nodes@, live);
                lemma_put(&o.tokens, &r.tokens, o.counts@, i, None, gone, forward);
                assert(gone.remove(i) =~= Set::new(|x: usize| x >= i + 1));
            }
            let c: usize = match r.counts.get(pair) {
                Some(c) => c,
                None => 0,
            };
            assert(c + 1 <= r.tokens.nodes.len());
            r.counts.insert(pair, c + 1);
            i += 1;
        }
        assert(lists_match(r.tokens.lists@, r.tokens.nodes@, None, Set::empty())) by {
            reveal(lists_match);
            assert forall|p: Pair, x: usize| #[trigger]
                list_of(r.tokens.lists@, p).contains(x) <==> Some(p) != None::<Pair> && pair_at(
                    r.tokens.nodes@,
                    x,
                ) == Some(p) && !Set::<usize>::empty().contains(x) by {
                if x >= i && pair_at(r.tokens.nodes@, x) is Some {
                    let k = lemma_live(r.tokens.nodes@, live, x);
                    assert(live[k] == k);
                }
            }
        }
        let entries = r.counts.entries();
        let mut j: usize = 0;
        while j < entries.len()
            invariant
                j <= entries@.len(),
                r.heap.wf(),
                forall|t: int|
                    0 <= t < j ==> r.heap@.count(((#[trigger] entries@[t]).1, entries@[t].0)) > 0,
                r.tokens.wf(),
                r.live@ == live,
                r.forward@ == forward,
                links_wf(r.tokens.nodes@, live),
                r.ids() == sequence@,
                lists_match(r.tokens.lists@, r.tokens.nodes@, None, Set::empty()),
                counts_match(r.counts@, r.tokens.lists@, None),
                lists_sorted(r.tokens.lists@, forward),
                forall|i: int|
                    0 <= i < entries@.len() ==> r.counts@.contains_key(#[trigger] entries@[i].0)
                        && r.counts@[entries@[i].0] == entries@[i].1,
                forall|p: Pair| #[trigger]
                    r.counts@.contains_key(p) ==> exists|i: int|
                        0 <= i < entries@.len() && #[trigger] entries@[i].0 == p,
            decreases entries@.len() - j,
        {
            let (pair, count) = entries[j];
            r.heap.push((count, pair));
            j += 1;
        }
        assert(heap_match(r.heap@, r.counts@)) by {
            reveal(heap_match);
        }
        r
    }
}

} // verus!
