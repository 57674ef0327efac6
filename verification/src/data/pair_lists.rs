//! The token sequence as a doubly linked list, with an intrusive list through
//! the positions of each pair.
use crate::data::bpe::Pair;
use crate::data::fast_map::FastMap;
use vstd::prelude::*;

verus! {

/// A token in the doubly linked sequence, and its links in the list of its pair.
#[derive(Clone, Copy)]
pub struct ListNode {
    pub id: usize,
    pub prev: Option<usize>,
    pub next: Option<usize>,
    pub pair_prev: Option<usize>,
    pub pair_next: Option<usize>,
    pub valid: bool,
}

/// The neighbour of position `i` to the left in `s`.
pub open spec fn before(s: Seq<usize>, i: int) -> Option<usize> {
    if i > 0 {
        Some(s[i - 1])
    } else {
        None
    }
}

/// The neighbour of position `i` to the right in `s`.
pub open spec fn after(s: Seq<usize>, i: int) -> Option<usize> {
    if i + 1 < s.len() {
        Some(s[i + 1])
    } else {
        None
    }
}

/// The list of pair `p`, empty where none is kept.
pub open spec fn list_of(lists: Map<Pair, Seq<usize>>, p: Pair) -> Seq<usize> {
    if lists.contains_key(p) {
        lists[p]
    } else {
        Seq::empty()
    }
}

/// Whether two nodes agree on everything but the links of the pair lists.
pub open spec fn same_token(a: ListNode, b: ListNode) -> bool {
    a.id == b.id && a.prev == b.prev && a.next == b.next && a.valid == b.valid
}

/// The linked token sequence and the lists of pair positions.
pub struct PairLists {
    pub nodes: Vec<ListNode>,
    pub heads: FastMap,
    /// For each pair the nodes in its list, head first.
    pub lists: Ghost<Map<Pair, Seq<usize>>>,
}

impl PairLists {
    /// The nodes in the list of `p`, head first.
    pub open spec fn list(&self, p: Pair) -> Seq<usize> {
        list_of(self.lists@, p)
    }

    pub open spec fn listed(&self, idx: usize) -> bool {
        exists|p: Pair| #[trigger] self.list(p).contains(idx)
    }

    /// The links agree with the lists.
    pub closed spec fn wf(&self) -> bool {
        &&& forall|p: Pair, i: int|
            0 <= i < self.list(p).len() ==> {
                let idx = #[trigger] self.list(p)[i];
                &&& idx < self.nodes@.len()
                &&& self.nodes@[idx as int].pair_prev == before(self.list(p), i)
                &&& self.nodes@[idx as int].pair_next == after(self.list(p), i)
            }
        &&& forall|p: Pair, q: Pair, i: int, j: int|
            0 <= i < self.list(p).len() && 0 <= j < self.list(q).len() && #[trigger] self.list(p)[i]
                == #[trigger] self.list(q)[j] ==> p == q && i == j
        &&& forall|p: Pair| #[trigger]
            self.heads@.contains_key(p) == (self.list(p).len() > 0)
        &&& forall|p: Pair| #[trigger]
            self.heads@.contains_key(p) ==> self.heads@[p] == self.list(p)[0]
        &&& forall|idx: usize|
            idx < self.nodes@.len() && !#[trigger] self.listed(idx) ==> self.nodes@[idx as int].pair_prev
                is None && self.nodes@[idx as int].pair_next is None
    }

    /// The two agree on everything but the lists.
    pub open spec fn same_tokens(&self, other: &Self) -> bool {
        &&& self.nodes@.len() == other.nodes@.len()
        &&& forall|i: int|
            0 <= i < self.nodes@.len() ==> same_token(#[trigger] self.nodes@[i], other.nodes@[i])
    }

    /// The pair that the node `idx` forms with its right neighbour.
    pub open spec fn pair_from(&self, idx: usize) -> Pair {
        (
            self.nodes@[idx as int].id,
            self.nodes@[self.nodes@[idx as int].next->0 as int].id,
        )
    }

    /// The node `idx` forms a pair, and stands in no list.
    pub open spec fn addable(&self, idx: usize) -> bool {
        &&& self.wf()
        &&& idx < self.nodes@.len()
        &&& self.nodes@[idx as int].next matches Some(n) && n < self.nodes@.len()
        &&& !self.listed(idx)
    }

    /// The node `idx` has come to the head of the list of its pair.
    pub open spec fn added(&self, was: &Self, idx: usize) -> bool {
        &&& self.wf()
        &&& self.same_tokens(was)
        &&& forall|p: Pair| #[trigger]
            self.list(p) == if p == was.pair_from(idx) {
                seq![idx] + was.list(p)
            } else {
                was.list(p)
            }
    }

    /// The node `idx` stands in no list but that of its pair.
    pub open spec fn removable(&self, idx: usize) -> bool {
        &&& self.wf()
        &&& idx < self.nodes@.len()
        &&& self.nodes@[idx as int].next matches Some(n) ==> n < self.nodes@.len()
        &&& forall|p: Pair| #[trigger]
            self.list(p).contains(idx) ==> self.nodes@[idx as int].next is Some && p
                == self.pair_from(idx)
    }

    /// The node `idx` has been taken out of the list that it stood in.
    pub open spec fn removed(&self, was: &Self, idx: usize) -> bool {
        &&& self.wf()
        &&& self.same_tokens(was)
        &&& !self.listed(idx)
        &&& forall|p: Pair| #[trigger]
            self.list(p) == if was.list(p).contains(idx) {
                was.list(p).remove(was.list(p).index_of(idx))
            } else {
                was.list(p)
            }
    }

    /// Nodes with empty pair lists.
    pub fn new(nodes: Vec<ListNode>) -> (r: Self)
        requires
            forall|i: int|
                0 <= i < nodes@.len() ==> (#[trigger] nodes@[i]).pair_prev is None
                    && nodes@[i].pair_next is None,
        ensures
            r.wf(),
            r.nodes == nodes,
            forall|p: Pair| (#[trigger] r.list(p)).len() == 0,
    {
        PairLists { nodes, heads: FastMap::new(), lists: Ghost(Map::empty()) }
    }

    /// The list of a pair holds no node twice, and only nodes that there are.
    pub proof fn lemma_list(&self, p: Pair)
        requires
            self.wf(),
        ensures
            self.list(p).no_duplicates(),
            forall|i: int| 0 <= i < self.list(p).len() ==> #[trigger] self.list(p)[i] < self.nodes@.len(),
    {
    }

    /// A node of a list links to its neighbours there.
    pub proof fn lemma_links(&self, p: Pair, i: int)
        requires
            self.wf(),
            0 <= i < self.list(p).len(),
        ensures
            self.list(p)[i] < self.nodes@.len(),
            self.nodes@[self.list(p)[i] as int].pair_prev == before(self.list(p), i),
            self.nodes@[self.list(p)[i] as int].pair_next == after(self.list(p), i),
    {
    }

    /// A node stands in one list only.
    pub proof fn lemma_one_list(&self, p: Pair, q: Pair, idx: usize)
        requires
            self.wf(),
            self.list(p).contains(idx),
            self.list(q).contains(idx),
        ensures
            p == q,
    {
        let i = choose|i: int| 0 <= i < self.list(p).len() && self.list(p)[i] == idx;
        let j = choose|j: int| 0 <= j < self.list(q).len() && self.list(q)[j] == idx;
        assert(self.list(p)[i] == self.list(q)[j]);
    }

    /// The head of a pair is the first node of its list, and there is one where the list is not
    /// empty.
    pub proof fn lemma_head(&self, p: Pair)
        requires
            self.wf(),
        ensures
            self.heads@.contains_key(p) == (self.list(p).len() > 0),
            self.heads@.contains_key(p) ==> self.heads@[p] == self.list(p)[0],
    {
    }

    /// A node that stands in no list has no links.
    pub proof fn lemma_unlisted(&self, idx: usize)
        requires
            self.wf(),
            idx < self.nodes@.len(),
            !self.listed(idx),
        ensures
            self.nodes@[idx as int].pair_prev is None,
            self.nodes@[idx as int].pair_next is None,
    {
    }

    /// The lists determine the links and the heads.
    pub proof fn lists_determine_links(&self, other: &Self)
        requires
            self.wf(),
            other.wf(),
            self.same_tokens(other),
            forall|p: Pair| #[trigger] self.list(p) == other.list(p),
        ensures
            self.nodes@ == other.nodes@,
            self.heads@ == other.heads@,
    {
        assert(self.nodes@.len() == self.nodes.len());
        assert forall|i: int| 0 <= i < self.nodes@.len() implies self.nodes@[i] == other.nodes@[i] by {
            let idx = i as usize;
            assert(same_token(self.nodes@[i], other.nodes@[i]));
            if self.listed(idx) {
                let p = choose|p: Pair| #[trigger] self.list(p).contains(idx);
                let k = choose|k: int| 0 <= k < self.list(p).len() && self.list(p)[k] == idx;
                self.lemma_links(p, k);
                other.lemma_links(p, k);
            } else {
                assert(!other.listed(idx)) by {
                    if other.listed(idx) {
                        let p = choose|p: Pair| #[trigger] other.list(p).contains(idx);
                        assert(self.list(p).contains(idx));
                    }
                }
                self.lemma_unlisted(idx);
                other.lemma_unlisted(idx);
            }
        }
        assert(self.heads@ =~= other.heads@) by {
            assert forall|p: Pair| #[trigger]
                self.heads@.contains_key(p) == other.heads@.contains_key(p) by {
                self.lemma_head(p);
                other.lemma_head(p);
            }
            assert forall|p: Pair| #[trigger] self.heads@.contains_key(p) implies self.heads@[p]
                == other.heads@[p] by {
                self.lemma_head(p);
                other.lemma_head(p);
            }
        }
        assert(self.nodes@ =~= other.nodes@);
    }

    /// Taking a node out of the list that it has just been put into leaves all nodes and heads as
    /// they were; taking it out once more changes nothing.
    pub proof fn removing_undoes_adding(
        was: &Self,
        with: &Self,
        without: &Self,
        again: &Self,
        idx: usize,
    )
        requires
            was.addable(idx),
            with.added(was, idx),
            without.removed(with, idx),
            again.removed(without, idx),
        ensures
            with.removable(idx),
            without.nodes@ == was.nodes@,
            without.heads@ == was.heads@,
            without.removable(idx),
            again.nodes@ == without.nodes@,
            again.heads@ == without.heads@,
    {
        let pair = was.pair_from(idx);
        let next = was.nodes@[idx as int].next->0;
        assert(same_token(with.nodes@[idx as int], was.nodes@[idx as int]));
        assert(same_token(with.nodes@[next as int], was.nodes@[next as int]));
        assert(same_token(without.nodes@[idx as int], with.nodes@[idx as int]));
        assert forall|p: Pair| #[trigger] with.list(p).contains(idx) implies p == pair by {
            if p != pair {
                assert(was.list(p).contains(idx));
            }
        }
        let l = with.list(pair);
        assert(l[0] == idx);
        with.lemma_list(pair);
        assert(l.index_of(idx) == 0);
        assert(l.remove(0) =~= was.list(pair));
        assert forall|p: Pair| #[trigger] without.list(p) == was.list(p) by {}
        assert(without.same_tokens(was)) by {
            assert forall|i: int| 0 <= i < without.nodes@.len() implies same_token(
                #[trigger] without.nodes@[i],
                was.nodes@[i],
            ) by {
                assert(same_token(with.nodes@[i], was.nodes@[i]));
            }
        }
        without.lists_determine_links(was);
        assert forall|p: Pair| !(#[trigger] without.list(p).contains(idx)) by {}
        assert forall|p: Pair| #[trigger] again.list(p) == without.list(p) by {
            assert(!without.list(p).contains(idx));
        }
        again.lists_determine_links(without);
    }

    /// The lists do not depend on the links of the sequence.
    pub proof fn lemma_relinked(&self, other: &Self)
        requires
            other.wf(),
            self.heads == other.heads,
            self.lists == other.lists,
            self.nodes@.len() == other.nodes@.len(),
            forall|i: int|
                0 <= i < self.nodes@.len() ==> (#[trigger] self.nodes@[i]).pair_prev
                    == other.nodes@[i].pair_prev && self.nodes@[i].pair_next == other.nodes@[i].pair_next,
        ensures
            self.wf(),
    {
        assert forall|p: Pair| #[trigger] self.list(p) == other.list(p) by {}
        assert forall|p: Pair, i: int| 0 <= i < self.list(p).len() implies ({
            let idx = #[trigger] self.list(p)[i];
            &&& idx < self.nodes@.len()
            &&& self.nodes@[idx as int].pair_prev == before(self.list(p), i)
            &&& self.nodes@[idx as int].pair_next == after(self.list(p), i)
        }) by {
            assert(self.list(p)[i] == other.list(p)[i]);
        }
        assert forall|p: Pair, q: Pair, i: int, j: int|
            0 <= i < self.list(p).len() && 0 <= j < self.list(q).len() && #[trigger] self.list(p)[i]
                == #[trigger] self.list(q)[j] implies p == q && i == j by {
            assert(other.list(p)[i] == other.list(q)[j]);
        }
        assert forall|p: Pair| #[trigger] self.heads@.contains_key(p) == (self.list(p).len() > 0) by {
            assert(other.heads@.contains_key(p) == (other.list(p).len() > 0));
        }
        assert forall|idx: usize| idx < self.nodes@.len() && !#[trigger] self.listed(
            idx,
        ) implies self.nodes@[idx as int].pair_prev is None && self.nodes@[idx as int].pair_next is None by {
            assert(!other.listed(idx)) by {
                if other.listed(idx) {
                    let p = choose|p: Pair| #[trigger] other.list(p).contains(idx);
                    assert(self.list(p).contains(idx));
                }
            }
        }
    }

    /// Puts the node `idx` at the head of the list of its pair.
    pub fn add_to_pair_list(&mut self, idx: usize)
        requires
            old(self).addable(idx),
        ensures
            final(self).added(old(self), idx),
    {
        let next_idx: usize = self.nodes[idx].next.unwrap();
        let pair: (usize, usize) = (self.nodes[idx].id, self.nodes[next_idx].id);
        let mut node = self.nodes[idx];
        node.pair_prev = None;
        match self.heads.get(pair) {
            Some(head) => {
                assert(self.list(pair)[0] == head);
                assert(self.list(pair).contains(head));
                node.pair_next = Some(head);
                let mut h = self.nodes[head];
                h.pair_prev = Some(idx);
                self.nodes.set(head, h);
            },
            None => {
                node.pair_next = None;
            },
        }
        self.nodes.set(idx, node);
        self.heads.insert(pair, idx);
        proof {
            let l = old(self).list(pair);
            self.lists@ = self.lists@.insert(pair, seq![idx] + l);
            assert forall|p: Pair| #[trigger] self.list(p) == if p == pair {
                seq![idx] + old(self).list(p)
            } else {
                old(self).list(p)
            } by {}
            assert forall|p: Pair, i: int| 0 <= i < old(self).list(p).len() implies #[trigger] old(
                self,
            ).list(p)[i] != idx by {
                if old(self).list(p)[i] == idx {
                    assert(old(self).list(p).contains(idx));
                    assert(old(self).listed(idx));
                }
            }
            assert forall|p: Pair, i: int| 0 <= i < self.list(p).len() implies ({
                let x = #[trigger] self.list(p)[i];
                &&& x < self.nodes@.len()
                &&& self.nodes@[x as int].pair_prev == before(self.list(p), i)
                &&& self.nodes@[x as int].pair_next == after(self.list(p), i)
            }) by {
                let x = self.list(p)[i];
                if p == pair {
                    if i > 0 {
                        assert(x == l[i - 1]);
                        if i > 1 {
                            assert(l[i - 1] != l[0]);
                        }
                    }
                } else {
                    assert(x == old(self).list(p)[i]);
                    if l.len() > 0 {
                        assert(old(self).list(p)[i] != l[0]);
                    }
                }
            }
            assert forall|p: Pair, q: Pair, i: int, j: int|
                0 <= i < self.list(p).len() && 0 <= j < self.list(q).len()
                    && #[trigger] self.list(p)[i] == #[trigger] self.list(q)[j] implies p == q && i
                == j by {
                let oi = if p == pair {
                    i - 1
                } else {
                    i
                };
                let oj = if q == pair {
                    j - 1
                } else {
                    j
                };
                if oi >= 0 {
                    assert(self.list(p)[i] == old(self).list(p)[oi]);
                }
                if oj >= 0 {
                    assert(self.list(q)[j] == old(self).list(q)[oj]);
                }
            }
            assert forall|x: usize| x < self.nodes@.len() && !#[trigger] self.listed(
                x,
            ) implies self.nodes@[x as int].pair_prev is None && self.nodes@[x as int].pair_next is None by {
                assert(self.list(pair)[0] == idx);
                assert(self.list(pair).contains(idx));
                assert(x != idx);
                assert(!old(self).listed(x)) by {
                    if old(self).listed(x) {
                        let p = choose|p: Pair| #[trigger] old(self).list(p).contains(x);
                        let i = choose|i: int|
                            0 <= i < old(self).list(p).len() && old(self).list(p)[i] == x;
                        if p == pair {
                            assert(self.list(p)[i + 1] == x);
                        } else {
                            assert(self.list(p)[i] == x);
                        }
                        assert(self.list(p).contains(x));
                    }
                }
            }
        }
    }

    /// Takes the node `idx` out of the list of its pair, where it stands in it.
    pub fn remove_from_pair_list(&mut self, idx: usize)
        requires
            old(self).removable(idx),
        ensures
            final(self).removed(old(self), idx),
    {
        let node = self.nodes[idx];
        if let Some(next_idx) = node.next {
            let pair: (usize, usize) = (node.id, self.nodes[next_idx].id);
            let is_head: bool = match self.heads.get(pair) {
                Some(h) => h == idx,
                None => false,
            };
            let ghost l = self.list(pair);
            if !is_head && node.pair_prev.is_none() {
                proof {
                    if l.contains(idx) {
                        let i = choose|i: int| 0 <= i < l.len() && l[i] == idx;
                        assert(self.list(pair)[i] == idx);
                        assert(i == 0);
                        assert(self.heads@.contains_key(pair));
                    }
                    assert forall|p: Pair| !(#[trigger] self.list(p).contains(idx)) by {}
                }
                return ;
            }
            proof {
                assert(l.contains(idx)) by {
                    if is_head {
                        assert(l[0] == idx);
                    } else {
                        assert(self.listed(idx));
                        let p = choose|p: Pair| #[trigger] self.list(p).contains(idx);
                        assert(p == pair);
                    }
                }
            }
            let ghost k = l.index_of(idx);
            assert(self.list(pair)[k] == idx);
            if let Some(p) = node.pair_prev {
                assert(k > 0);
                assert(self.list(pair)[k - 1] == p);
                let mut n = self.nodes[p];
                n.pair_next = node.pair_next;
                self.nodes.set(p, n);
            } else {
                if let Some(n) = node.pair_next {
                    self.heads.insert(pair, n);
                } else {
                    self.heads.remove(pair);
                }
            }
            if let Some(n) = node.pair_next {
                assert(old(self).list(pair)[k + 1] == n);
                let mut m = self.nodes[n];
                m.pair_prev = node.pair_prev;
                self.nodes.set(n, m);
            }
            let mut cleared = self.nodes[idx];
            cleared.pair_prev = None;
            cleared.pair_next = None;
            self.nodes.set(idx, cleared);
            proof {
                self.lists@ = self.lists@.insert(pair, l.remove(k));
                self.lemma_removed(old(self), pair, k);
            }
        }
    }

    proof fn lemma_removed(&self, before_call: &Self, pair: Pair, k: int)
        requires
            before_call.wf(),
            0 <= k < before_call.list(pair).len(),
            self.nodes@.len() == before_call.nodes@.len(),
            self.lists@ == before_call.lists@.insert(pair, before_call.list(pair).remove(k)),
            self.heads@ == (if k > 0 {
                before_call.heads@
            } else if before_call.list(pair).len() > 1 {
                before_call.heads@.insert(pair, before_call.list(pair)[1])
            } else {
                before_call.heads@.remove(pair)
            }),
            forall|i: int|
                0 <= i < self.nodes@.len() ==> same_token(
                    #[trigger] self.nodes@[i],
                    before_call.nodes@[i],
                ) && self.nodes@[i].pair_prev == (if i == before_call.list(pair)[k] {
                    None
                } else if k + 1 < before_call.list(pair).len() && i == before_call.list(pair)[k + 1] {
                    before(before_call.list(pair), k)
                } else {
                    before_call.nodes@[i].pair_prev
                }) && self.nodes@[i].pair_next == (if i == before_call.list(pair)[k] {
                    None
                } else if k > 0 && i == before_call.list(pair)[k - 1] {
                    after(before_call.list(pair), k)
                } else {
                    before_call.nodes@[i].pair_next
                }),
        ensures
            self.wf(),
            !self.listed(before_call.list(pair)[k]),
            before_call.list(pair).contains(before_call.list(pair)[k]),
            before_call.list(pair).index_of(before_call.list(pair)[k]) == k,
            forall|p: Pair| p != pair ==> !(#[trigger] before_call.list(p)).contains(
                before_call.list(pair)[k],
            ),
    {
        let l = before_call.list(pair);
        let m = l.remove(k);
        assert(self.list(pair) == m);
        assert forall|p: Pair| p != pair implies #[trigger] self.list(p) == before_call.list(p) by {}
        assert forall|p: Pair, i: int| 0 <= i < self.list(p).len() implies ({
            let x = #[trigger] self.list(p)[i];
            &&& x < self.nodes@.len()
            &&& self.nodes@[x as int].pair_prev == before(self.list(p), i)
            &&& self.nodes@[x as int].pair_next == after(self.list(p), i)
        }) by {
            let x = self.list(p)[i];
            if p == pair {
                let o = if i < k {
                    i
                } else {
                    i + 1
                };
                assert(m[i] == before_call.list(pair)[o]);
                assert(before_call.list(pair)[o] != before_call.list(pair)[k]);
                if o + 1 < l.len() {
                    assert(before_call.list(pair)[o + 1] == l[o + 1]);
                }
                if k + 1 < l.len() && o != k + 1 {
                    assert(before_call.list(pair)[o] != before_call.list(pair)[k + 1]);
                }
                if k > 0 && o != k - 1 {
                    assert(before_call.list(pair)[o] != before_call.list(pair)[k - 1]);
                }
            } else {
                assert(x == before_call.list(p)[i]);
                assert(before_call.list(p)[i] != before_call.list(pair)[k]);
                if k + 1 < l.len() {
                    assert(before_call.list(p)[i] != before_call.list(pair)[k + 1]);
                }
                if k > 0 {
                    assert(before_call.list(p)[i] != before_call.list(pair)[k - 1]);
                }
            }
        }
        assert forall|p: Pair, q: Pair, i: int, j: int|
            0 <= i < self.list(p).len() && 0 <= j < self.list(q).len() && #[trigger] self.list(p)[i]
                == #[trigger] self.list(q)[j] implies p == q && i == j by {
            let oi = if p == pair && i >= k {
                i + 1
            } else {
                i
            };
            let oj = if q == pair && j >= k {
                j + 1
            } else {
                j
            };
            assert(self.list(p)[i] == before_call.list(p)[oi]);
            assert(self.list(q)[j] == before_call.list(q)[oj]);
        }
        assert forall|p: Pair| #[trigger] self.heads@.contains_key(p) == (self.list(p).len() > 0) by {
            assert(before_call.heads@.contains_key(p) == (before_call.list(p).len() > 0));
        }
        assert forall|p: Pair| #[trigger] self.heads@.contains_key(p) implies self.heads@[p]
            == self.list(p)[0] by {
            assert(before_call.heads@.contains_key(p) == (before_call.list(p).len() > 0));
        }
        let gone = l[k];
        assert forall|p: Pair| !(#[trigger] self.list(p)).contains(gone) by {
            if self.list(p).contains(gone) {
                let i = choose|i: int| 0 <= i < self.list(p).len() && self.list(p)[i] == gone;
                let o = if p == pair && i >= k {
                    i + 1
                } else {
                    i
                };
                assert(before_call.list(p)[o] == before_call.list(pair)[k]);
            }
        }
        assert forall|x: usize| x < self.nodes@.len() && !#[trigger] self.listed(
            x,
        ) implies self.nodes@[x as int].pair_prev is None && self.nodes@[x as int].pair_next is None by {
            if x != gone {
                if before_call.listed(x) {
                    let p = choose|p: Pair| #[trigger] before_call.list(p).contains(x);
                    let i = choose|i: int|
                        0 <= i < before_call.list(p).len() && before_call.list(p)[i] == x;
                    if p == pair && i > k {
                        assert(self.list(p)[i - 1] == x);
                    } else {
                        assert(self.list(p)[i] == x);
                    }
                    assert(self.list(p).contains(x));
                }
                if k + 1 < l.len() {
                    assert(before_call.list(pair)[k + 1] == l[k + 1]);
                    assert(before_call.list(pair).contains(l[k + 1]));
                    assert(before_call.listed(l[k + 1]));
                }
                if k > 0 {
                    assert(before_call.list(pair)[k - 1] == l[k - 1]);
                    assert(before_call.list(pair).contains(l[k - 1]));
                    assert(before_call.listed(l[k - 1]));
                }
            }
        }
        assert(before_call.list(pair)[k] == gone);
        assert(l.contains(gone));
        assert(l[l.index_of(gone)] == gone);
        assert(before_call.list(pair)[l.index_of(gone)] == before_call.list(pair)[k]);
        assert forall|p: Pair| p != pair implies !(#[trigger] before_call.list(p)).contains(gone) by {
            if before_call.list(p).contains(gone) {
                let i = choose|i: int| 0 <= i < before_call.list(p).len() && before_call.list(p)[i] == gone;
                assert(before_call.list(p)[i] == before_call.list(pair)[k]);
            }
        }
    }

    /// Empties the list of `pair` and returns the nodes that stood in it, head first.
    pub fn take_pair_list(&mut self, pair: (usize, usize)) -> (positions: Vec<usize>)
        requires
            old(self).wf(),
        ensures
            final(self).wf(),
            final(self).same_tokens(old(self)),
            positions@ == old(self).list(pair),
            forall|p: Pair| #[trigger]
                final(self).list(p) == if p == pair {
                    Seq::<usize>::empty()
                } else {
                    old(self).list(p)
                },
    {
        let ghost l = self.list(pair);
        let mut positions: Vec<usize> = Vec::new();
        let mut current: Option<usize> = self.heads.get(pair);
        assert(current is Some ==> self.heads@.contains_key(pair));
        assert(current == if l.len() > 0 {
            Some(l[0])
        } else {
            None
        }) by {
            assert(self.heads@.contains_key(pair) == (l.len() > 0));
        }
        while current.is_some()
            invariant
                self == old(self),
                self.wf(),
                l == self.list(pair),
                positions@.len() <= l.len(),
                positions@ == l.take(positions@.len() as int),
                current == (if positions@.len() < l.len() {
                    Some(l[positions@.len() as int])
                } else {
                    None
                }),
            decreases l.len() - positions@.len(),
        {
            let idx: usize = current.unwrap();
            assert(self.list(pair)[positions@.len() as int] == idx);
            assert(l.take(positions@.len() as int + 1)
                == l.take(positions@.len() as int).push(idx));
            positions.push(idx);
            current = self.nodes[idx].pair_next;
        }
        assert(l.take(l.len() as int) == l);
        let n: usize = positions.len();
        let mut t: usize = 0;
        while t < n
            invariant
                t <= n,
                n == positions@.len(),
                positions@ == l,
                l == old(self).list(pair),
                old(self).wf(),
                self.heads == old(self).heads,
                self.lists == old(self).lists,
                self.nodes@.len() == old(self).nodes@.len(),
                forall|i: int|
                    0 <= i < self.nodes@.len() ==> same_token(
                        #[trigger] self.nodes@[i],
                        old(self).nodes@[i],
                    ),
                forall|s: int|
                    0 <= s < t ==> self.nodes@[#[trigger] l[s] as int].pair_prev is None
                        && self.nodes@[l[s] as int].pair_next is None,
                forall|i: int|
                    0 <= i < self.nodes@.len() && !l.contains(i as usize) ==> #[trigger] self.nodes@[i]
                        == old(self).nodes@[i],
            decreases n - t,
        {
            let idx: usize = positions[t];
            assert(old(self).list(pair)[t as int] == idx);
            assert(l.contains(idx)) by {
                assert(l[t as int] == idx);
            }
            let mut node = self.nodes[idx];
            node.pair_prev = None;
            node.pair_next = None;
            self.nodes.set(idx, node);
            t += 1;
        }
        self.heads.remove(pair);
        proof {
            self.lists@ = self.lists@.insert(pair, Seq::empty());
            assert(self.list(pair) == Seq::<usize>::empty());
            assert forall|p: Pair| p != pair implies #[trigger] self.list(p) == old(self).list(p) by {}
            assert forall|p: Pair, i: int| 0 <= i < self.list(p).len() implies ({
                let x = #[trigger] self.list(p)[i];
                &&& x < self.nodes@.len()
                &&& self.nodes@[x as int].pair_prev == before(self.list(p), i)
                &&& self.nodes@[x as int].pair_next == after(self.list(p), i)
            }) by {
                let x = self.list(p)[i];
                assert(x == old(self).list(p)[i]);
                if l.contains(x) {
                    let j = choose|j: int| 0 <= j < l.len() && l[j] == x;
                    assert(old(self).list(p)[i] == old(self).list(pair)[j]);
                }
            }
            assert forall|p: Pair, q: Pair, i: int, j: int|
                0 <= i < self.list(p).len() && 0 <= j < self.list(q).len()
                    && #[trigger] self.list(p)[i] == #[trigger] self.list(q)[j] implies p == q && i
                == j by {
                assert(old(self).list(p)[i] == old(self).list(q)[j]);
            }
            assert forall|p: Pair| #[trigger] self.heads@.contains_key(p) == (self.list(p).len() > 0) by {
                assert(old(self).heads@.contains_key(p) == (old(self).list(p).len() > 0));
            }
            assert forall|p: Pair| #[trigger] self.heads@.contains_key(p) implies self.heads@[p]
                == self.list(p)[0] by {
                assert(old(self).heads@.contains_key(p) == (old(self).list(p).len() > 0));
            }
            assert forall|x: usize| x < self.nodes@.len() && !#[trigger] self.listed(
                x,
            ) implies self.nodes@[x as int].pair_prev is None && self.nodes@[x as int].pair_next is None by {
                if l.contains(x) {
                    let j = choose|j: int| 0 <= j < l.len() && l[j] == x;
                    assert(self.nodes@[l[j] as int].pair_prev is None);
                } else {
                    assert(self.nodes@[x as int] == old(self).nodes@[x as int]);
                    if old(self).listed(x) {
                        let p = choose|p: Pair| #[trigger] old(self).list(p).contains(x);
                        assert(self.list(p).contains(x));
                    }
                }
            }
        }
        positions
    }
}

} // verus!
