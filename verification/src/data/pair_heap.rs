//! A binary max-heap of counted token pairs.
use vstd::multiset::Multiset;
use vstd::prelude::*;
use vstd::seq_lib::{to_multiset_build, to_multiset_contains, to_multiset_insert, to_multiset_remove};

verus! {

/// A pair of token ids with the number of times it occurs.
pub type Entry = (usize, (usize, usize));

/// Lexicographic order on counted pairs: by count, then by the pair itself.
pub open spec fn entry_le(a: Entry, b: Entry) -> bool {
    a.0 < b.0 || (a.0 == b.0 && (a.1.0 < b.1.0 || (a.1.0 == b.1.0 && a.1.1 <= b.1.1)))
}

fn at_most(a: Entry, b: Entry) -> (r: bool)
    ensures
        r == entry_le(a, b),
{
    a.0 < b.0 || (a.0 == b.0 && (a.1.0 < b.1.0 || (a.1.0 == b.1.0 && a.1.1 <= b.1.1)))
}

spec fn parent(i: int) -> int {
    (i - 1) / 2
}

spec fn ordered_at(s: Seq<Entry>, i: int) -> bool {
    entry_le(s[i], s[parent(i)])
}

/// A priority queue that hands out its greatest entry first.
pub struct PairHeap {
    items: Vec<Entry>,
}

impl View for PairHeap {
    type V = Multiset<Entry>;

    closed spec fn view(&self) -> Multiset<Entry> {
        self.items@.to_multiset()
    }
}

proof fn lemma_swap(s: Seq<Entry>, i: int, j: int)
    requires
        0 <= i < s.len(),
        0 <= j < s.len(),
        i != j,
    ensures
        s.update(i, s[j]).update(j, s[i]).to_multiset() == s.to_multiset(),
{
    broadcast use vstd::multiset::group_multiset_axioms;

    let t = s.update(i, s[j]);
    assert(t == s.remove(i).insert(i, s[j]));
    to_multiset_remove(s, i);
    to_multiset_insert(s.remove(i), i, s[j]);
    let u = t.update(j, s[i]);
    assert(u == t.remove(j).insert(j, s[i]));
    to_multiset_remove(t, j);
    to_multiset_insert(t.remove(j), j, s[i]);
    to_multiset_contains(s, s[i]);
    to_multiset_contains(s, s[j]);
    assert(s.contains(s[i]) && s.contains(s[j]));
    assert(u.to_multiset() =~= s.to_multiset());
}

proof fn lemma_root_is_greatest(s: Seq<Entry>, i: int)
    requires
        0 <= i < s.len(),
        forall|k: int| 0 < k < s.len() ==> #[trigger] ordered_at(s, k),
    ensures
        entry_le(s[i], s[0]),
    decreases i,
{
    if i > 0 {
        assert(ordered_at(s, i));
        lemma_root_is_greatest(s, parent(i));
    }
}

impl PairHeap {
    /// The heap property: no entry is greater than its parent.
    pub closed spec fn wf(&self) -> bool {
        forall|i: int| 0 < i < self.items@.len() ==> #[trigger] ordered_at(self.items@, i)
    }

    pub fn new() -> (r: Self)
        ensures
            r.wf(),
            r@ == Multiset::<Entry>::empty(),
    {
        let r = PairHeap { items: Vec::new() };
        assert(r@ =~= Multiset::empty()) by {
            assert forall|e: Entry| r@.count(e) == 0 by {
                to_multiset_contains(r.items@, e);
            }
        }
        r
    }

    pub fn push(&mut self, e: Entry)
        requires
            old(self).wf(),
        ensures
            final(self).wf(),
            final(self)@ == old(self)@.insert(e),
    {
        proof {
            to_multiset_build(self.items@, e);
        }
        self.items.push(e);
        let mut i: usize = self.items.len() - 1;
        assert forall|k: int| 0 < k < self.items@.len() && k != i implies #[trigger] ordered_at(
            self.items@,
            k,
        ) by {
            assert(ordered_at(old(self).items@, k));
        }
        while i > 0
            invariant_except_break
                forall|k: int|
                    0 < k < self.items@.len() && k != i ==> #[trigger] ordered_at(self.items@, k),
            invariant
                i < self.items@.len(),
                self.items@.to_multiset() == old(self).items@.to_multiset().insert(e),
                forall|k: int|
                    0 < k < self.items@.len() && parent(k) == i && i > 0 ==> entry_le(
                        #[trigger] self.items@[k],
                        self.items@[parent(i as int)],
                    ),
            ensures
                forall|k: int| 0 < k < self.items@.len() ==> #[trigger] ordered_at(self.items@, k),
            decreases i,
        {
            let p: usize = (i - 1) / 2;
            if at_most(self.items[i], self.items[p]) {
                assert(ordered_at(self.items@, i as int));
                break ;
            }
            let ghost s = self.items@;
            let child = self.items[i];
            let above = self.items[p];
            self.items.set(i, above);
            self.items.set(p, child);
            proof {
                lemma_swap(s, i as int, p as int);
                assert(self.items@
                    == s.update(i as int, s[p as int]).update(p as int, s[i as int]));
                assert forall|k: int| 0 < k < self.items@.len() && k != p implies #[trigger] ordered_at(
                    self.items@,
                    k,
                ) by {
                    if k == i {
                    } else if parent(k) == i {
                        assert(entry_le(s[k], s[parent(i as int)]));
                    } else {
                        assert(ordered_at(s, k));
                    }
                }
                assert forall|k: int|
                    0 < k < self.items@.len() && parent(k) == p && p > 0 implies entry_le(
                    #[trigger] self.items@[k],
                    self.items@[parent(p as int)],
                ) by {
                    assert(ordered_at(s, p as int));
                    if k != i {
                        assert(ordered_at(s, k));
                    }
                }
            }
            i = p;
        }
    }

    pub fn pop(&mut self) -> (r: Option<Entry>)
        requires
            old(self).wf(),
        ensures
            final(self).wf(),
            match r {
                None => old(self)@ == Multiset::<Entry>::empty() && final(self)@ == old(self)@,
                Some(e) => {
                    &&& old(self)@.count(e) > 0
                    &&& forall|f: Entry| #[trigger] old(self)@.count(f) > 0 ==> entry_le(f, e)
                    &&& final(self)@ == old(self)@.remove(e)
                },
            },
    {
        let n: usize = self.items.len();
        if n == 0 {
            assert(self@ =~= Multiset::empty()) by {
                assert forall|e: Entry| self@.count(e) == 0 by {
                    to_multiset_contains(self.items@, e);
                }
            }
            return None;
        }
        let ghost s0 = self.items@;
        let top = self.items[0];
        proof {
            assert forall|f: Entry| #[trigger] s0.to_multiset().count(f) > 0 implies entry_le(f, top) by {
                to_multiset_contains(s0, f);
                let i = choose|i: int| 0 <= i < s0.len() && s0[i] == f;
                lemma_root_is_greatest(s0, i);
            }
            to_multiset_contains(s0, top);
            assert(s0.contains(top)) by {
                assert(s0[0] == top);
            }
        }
        let last = self.items[n - 1];
        self.items.set(0, last);
        self.items.pop();
        proof {
            if n > 1 {
                lemma_swap(s0, 0, n - 1);
                let u = s0.update(0, s0[n - 1]).update(n - 1, s0[0]);
                to_multiset_remove(u, n - 1);
                assert(self.items@ == u.remove(n - 1));
            } else {
                to_multiset_remove(s0, 0);
                assert(self.items@ == s0.remove(0));
            }
            assert(self.items@.to_multiset() == s0.to_multiset().remove(top));
        }
        let m: usize = self.items.len();
        let mut i: usize = 0;
        proof {
            assert forall|k: int| 0 < k < m && parent(k) != 0 implies #[trigger] ordered_at(
                self.items@,
                k,
            ) by {
                assert(ordered_at(s0, k));
            }
        }
        while i < m / 2
            invariant_except_break
                forall|k: int|
                    0 < k < self.items@.len() && parent(k) != i ==> #[trigger] ordered_at(
                        self.items@,
                        k,
                    ),
            invariant
                m == self.items@.len(),
                self.items@.to_multiset() == s0.to_multiset().remove(top),
                forall|k: int|
                    0 < k < self.items@.len() && parent(k) == i && i > 0 ==> entry_le(
                        #[trigger] self.items@[k],
                        self.items@[parent(i as int)],
                    ),
            ensures
                forall|k: int| 0 < k < self.items@.len() ==> #[trigger] ordered_at(self.items@, k),
            decreases m - i,
        {
            let left: usize = 2 * i + 1;
            let right: usize = left + 1;
            let mut big: usize = left;
            if right < m && !at_most(self.items[right], self.items[left]) {
                big = right;
            }
            if at_most(self.items[big], self.items[i]) {
                assert forall|k: int| 0 < k < self.items@.len() implies #[trigger] ordered_at(
                    self.items@,
                    k,
                ) by {
                    if parent(k) == i {
                        assert(k == left || k == right);
                    }
                }
                break ;
            }
            let ghost s = self.items@;
            let above = self.items[i];
            let below = self.items[big];
            self.items.set(i, below);
            self.items.set(big, above);
            proof {
                lemma_swap(s, i as int, big as int);
                assert(self.items@ == s.update(i as int, s[big as int]).update(
                    big as int,
                    s[i as int],
                ));
                assert forall|k: int|
                    0 < k < self.items@.len() && parent(k) != big implies #[trigger] ordered_at(
                    self.items@,
                    k,
                ) by {
                    if parent(k) == i {
                        assert(k == left || k == right);
                    } else if k == i {
                        assert(entry_le(s[big as int], s[parent(i as int)]));
                    } else {
                        assert(ordered_at(s, k));
                    }
                }
                assert forall|k: int|
                    0 < k < self.items@.len() && parent(k) == big && big > 0 implies entry_le(
                    #[trigger] self.items@[k],
                    self.items@[parent(big as int)],
                ) by {
                    assert(ordered_at(s, k));
                }
            }
            i = big;
        }
        Some(top)
    }
}

} // verus!
