//! The integer-pair map behind the tokenizer, and its FNV-1a hasher.
use std::collections::BTreeMap;
use vstd::prelude::*;
use vstd::std_specs::cmp::OrdSpec;
use vstd::std_specs::iter::IteratorSpec;
use vstd::std_specs::btree::{axiom_increasing_seq_meaning, increasing_seq};

verus! {

/// Offset basis of the 64-bit FNV-1a hash.
pub const FNV_OFFSET: u64 = 0xcbf29ce484222325;

/// Prime of the 64-bit FNV-1a hash.
pub const FNV_PRIME: u64 = 0x100000001b3;

/// The FNV-1a state after the bytes `bytes` have been absorbed from state `hash`.
pub open spec fn fnv1a(hash: u64, bytes: Seq<u8>) -> u64
    decreases bytes.len(),
{
    if bytes.len() == 0 {
        hash
    } else {
        (fnv1a(hash, bytes.drop_last()) ^ (bytes.last() as u64)).wrapping_mul(FNV_PRIME)
    }
}

/// FNV-1a, a short non-cryptographic hash that is fast on pairs of token ids.
pub struct FastHasher {
    hash: u64,
}

impl FastHasher {
    /// The current state of the hash.
    pub closed spec fn state(&self) -> u64 {
        self.hash
    }
}

impl Default for FastHasher {
    fn default() -> (r: Self)
        ensures
            r.state() == FNV_OFFSET,
    {
        FastHasher { hash: FNV_OFFSET }
    }
}

impl std::hash::Hasher for FastHasher {
    fn finish(&self) -> (r: u64)
        ensures
            r == self.state(),
    {
        self.hash
    }

    fn write(&mut self, bytes: &[u8])
        ensures
            final(self).state() == fnv1a(old(self).state(), bytes@),
    {
        let mut i: usize = 0;
        while i < bytes.len()
            invariant
                i <= bytes.len(),
                self.hash == fnv1a(old(self).hash, bytes@.take(i as int)),
            decreases bytes.len() - i,
        {
            self.hash = (self.hash ^ (bytes[i] as u64)).wrapping_mul(FNV_PRIME);
            assert(bytes@.take(i + 1).drop_last() == bytes@.take(i as int));
            i += 1;
        }
        assert(bytes@.take(bytes@.len() as int) == bytes@);
    }
}

/// Lexicographic order on pairs.
pub open spec fn pair_less(a: (usize, usize), b: (usize, usize)) -> bool {
    a.0 < b.0 || (a.0 == b.0 && a.1 < b.1)
}

/// The integer that stands for a pair: first component above, second below.
pub open spec fn pair_key(p: (usize, usize)) -> u128 {
    (p.0 * 0x1_0000_0000_0000_0000 + p.1) as u128
}

spec fn entry_of(k: u128, v: usize) -> ((usize, usize), usize) {
    (
        ((k / 0x1_0000_0000_0000_0000) as usize, (k % 0x1_0000_0000_0000_0000) as usize),
        v,
    )
}

fn key_of(p: (usize, usize)) -> (k: u128)
    ensures
        k == pair_key(p),
        k == p.0 * 0x1_0000_0000_0000_0000 + p.1,
{
    (p.0 as u128) * 0x1_0000_0000_0000_0000u128 + (p.1 as u128)
}

proof fn lemma_key(p: (usize, usize))
    ensures
        pair_key(p) == p.0 * 0x1_0000_0000_0000_0000 + p.1,
        pair_key(p) / 0x1_0000_0000_0000_0000 == p.0,
        pair_key(p) % 0x1_0000_0000_0000_0000 == p.1,
{
}

/// A map from pairs of token ids to integers.
pub struct FastMap {
    map: BTreeMap<u128, usize>,
}

impl View for FastMap {
    type V = Map<(usize, usize), usize>;

    closed spec fn view(&self) -> Map<(usize, usize), usize> {
        Map::new(
            |p: (usize, usize)| self.map@.contains_key(pair_key(p)),
            |p: (usize, usize)| self.map@[pair_key(p)],
        )
    }
}

impl FastMap {
    #[verifier::type_invariant]
    spec fn keys_are_pairs(&self) -> bool {
        forall|k: u128| #[trigger]
            self.map@.contains_key(k) ==> k / 0x1_0000_0000_0000_0000 <= usize::MAX && k
                % 0x1_0000_0000_0000_0000 <= usize::MAX
    }

    pub fn new() -> (r: Self)
        ensures
            r@ == Map::<(usize, usize), usize>::empty(),
    {
        let r = FastMap { map: BTreeMap::new() };
        assert(r@ =~= Map::<(usize, usize), usize>::empty());
        r
    }

    pub fn get(&self, p: (usize, usize)) -> (r: Option<usize>)
        ensures
            r == (if self@.contains_key(p) {
                Some(self@[p])
            } else {
                None
            }),
    {
        let k = key_of(p);
        match self.map.get(&k) {
            Some(v) => Some(*v),
            None => None,
        }
    }

    pub fn insert(&mut self, p: (usize, usize), v: usize)
        ensures
            final(self)@ == old(self)@.insert(p, v),
    {
        proof {
            use_type_invariant(&*self);
            lemma_key(p);
        }
        let k = key_of(p);
        let ghost before = self.map@;
        let mut map: BTreeMap<u128, usize> = BTreeMap::new();
        std::mem::swap(&mut map, &mut self.map);
        map.insert(k, v);
        self.map = map;
        proof {
            assert forall|q: (usize, usize)| self@.contains_key(q) == old(self)@.insert(
                p,
                v,
            ).contains_key(q) by {
                lemma_key(q);
            }
            assert forall|q: (usize, usize)| self@.contains_key(q) implies self@[q] == old(
                self,
            )@.insert(p, v)[q] by {
                lemma_key(q);
            }
            assert(self@ =~= old(self)@.insert(p, v));
        }
    }

    pub fn remove(&mut self, p: (usize, usize))
        ensures
            final(self)@ == old(self)@.remove(p),
    {
        proof {
            use_type_invariant(&*self);
        }
        let k = key_of(p);
        let mut map: BTreeMap<u128, usize> = BTreeMap::new();
        std::mem::swap(&mut map, &mut self.map);
        map.remove(&k);
        self.map = map;
        proof {
            lemma_key(p);
            assert forall|q: (usize, usize)| self@.contains_key(q) == old(self)@.remove(
                p,
            ).contains_key(q) by {
                lemma_key(q);
            }
            assert(self@ =~= old(self)@.remove(p));
        }
    }

    /// All entries, in increasing order of their pairs.
    pub fn entries(&self) -> (r: Vec<((usize, usize), usize)>)
        ensures
            forall|i: int, j: int|
                0 <= i < j < r@.len() ==> pair_less(#[trigger] r@[i].0, #[trigger] r@[j].0),
            forall|i: int|
                0 <= i < r@.len() ==> self@.contains_key(#[trigger] r@[i].0) && self@[r@[i].0]
                    == r@[i].1,
            forall|p: (usize, usize)| #[trigger]
                self@.contains_key(p) ==> exists|i: int| 0 <= i < r@.len() && #[trigger] r@[i].0 == p,
    {
        proof {
            use_type_invariant(self);
        }
        let mut r: Vec<((usize, usize), usize)> = Vec::new();
        let iter = self.map.iter();
        let ghost kvs = iter.remaining();
        let ghost keys = kvs.map_values(|kv: (&u128, &usize)| *kv.0);
        proof {
            lemma_increasing(keys);
        }
        assert(forall|k: u128| #[trigger] self.map@.contains_key(k) ==> kvs.contains((&k, &self.map@[k])));
        for (k, v) in it: iter
            invariant
                it.seq() == kvs,
                r@.len() == it.index(),
                r@ == kvs.take(it.index()).map_values(|kv: (&u128, &usize)| entry_of(*kv.0, *kv.1)),
                forall|k: u128| #[trigger]
                    self.map@.contains_key(k) ==> k / 0x1_0000_0000_0000_0000 <= usize::MAX && k
                        % 0x1_0000_0000_0000_0000 <= usize::MAX,
                forall|i: int|
                    0 <= i < kvs.len() ==> self.map@.contains_key(*(#[trigger] kvs[i]).0)
                        && self.map@[*kvs[i].0] == *kvs[i].1,
        {
            assert(*kvs[it.index()].0 == *k && *kvs[it.index()].1 == *v);
            assert(self.map@.contains_key(*k));
            let p: (usize, usize) = (
                (*k / 0x1_0000_0000_0000_0000u128) as usize,
                (*k % 0x1_0000_0000_0000_0000u128) as usize,
            );
            r.push((p, *v));
            assert(kvs.take(it.index() + 1) == kvs.take(it.index()).push(kvs[it.index()]));
        }
        assert(kvs.take(kvs.len() as int) == kvs);
        assert forall|i: int| 0 <= i < r@.len() implies pair_key(#[trigger] r@[i].0) == *kvs[i].0
            && r@[i].1 == *kvs[i].1 by {
            assert(self.map@.contains_key(*kvs[i].0));
        }
        proof {
            assert forall|i: int, j: int| 0 <= i < j < r@.len() implies pair_less(
                #[trigger] r@[i].0,
                #[trigger] r@[j].0,
            ) by {
                lemma_key(r@[i].0);
                lemma_key(r@[j].0);
                assert(keys[i] < keys[j]);
            }
            assert forall|p: (usize, usize)| #[trigger] self@.contains_key(p) implies exists|i: int|
                0 <= i < r@.len() && #[trigger] r@[i].0 == p by {
                let k = pair_key(p);
                assert(kvs.contains((&k, &self.map@[k])));
                let i = choose|i: int| 0 <= i < kvs.len() && kvs[i] == (&k, &self.map@[k]);
                lemma_key(r@[i].0);
                lemma_key(p);
                assert(r@[i].0 == p);
            }
        }
        r
    }
}

proof fn lemma_increasing(s: Seq<u128>)
    requires
        increasing_seq(s),
    ensures
        forall|i: int, j: int| 0 <= i < j < s.len() ==> #[trigger] s[i] < #[trigger] s[j],
{
    broadcast use vstd::laws_cmp::group_laws_cmp;
    axiom_increasing_seq_meaning(s);
    assert forall|i: int, j: int| 0 <= i < j < s.len() implies #[trigger] s[i] < #[trigger] s[j] by {
        assert(s[i].cmp_spec(&s[j]) is Less);
    }
}

} // verus!
