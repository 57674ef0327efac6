//! What device memory is used for.
use crate::data::text::{chars_of, push_text};
use crate::data::tokenizer_file::{decimal, push_decimal};
use crate::graph::memory::{grad_bytes, tensor_bytes};
use crate::graph::Graph;
use crate::scalar::Scalar;
use crate::tensor::{Storage, Tensor};
use vstd::prelude::*;

verus! {

/// The bytes of device memory in use, by what for.
pub struct VramState {
    /// What the driver has given out, within the budget.
    pub used: usize,
    pub budget: usize,
    pub param_data: usize,
    pub param_grad: usize,
    pub pooled_data: usize,
    pub pooled_grad: usize,
    /// What lies in the pools.
    pub idle: usize,
    /// What the driver has given out, less all of these.
    pub unaccounted: i64,
    /// Activations hold gradients of more than half the size of their elements.
    pub heavy_gradients: bool,
}

/// The bytes of the elements of tensors, of activations or of the others.
pub open spec fn data_bytes_of<T: Scalar>(ts: Seq<Tensor<T>>, pooled: bool) -> nat
    decreases ts.len(),
{
    if ts.len() == 0 {
        0
    } else {
        data_bytes_of(ts.drop_last(), pooled) + (if ts.last().is_pooled == pooled {
            ts.last().data.device_bytes()
        } else {
            0
        })
    }
}

/// The bytes of their gradients.
pub open spec fn grad_bytes_of<T: Scalar>(ts: Seq<Tensor<T>>, pooled: bool) -> nat
    decreases ts.len(),
{
    if ts.len() == 0 {
        0
    } else {
        grad_bytes_of(ts.drop_last(), pooled) + (if ts.last().is_pooled == pooled {
            grad_bytes(ts.last())
        } else {
            0
        })
    }
}

/// What tensors take is the sum over activations and the others, elements and gradients.
pub proof fn parts_make_the_whole<T: Scalar>(ts: Seq<Tensor<T>>)
    ensures
        tensor_bytes(ts) == data_bytes_of(ts, true) + data_bytes_of(ts, false) + grad_bytes_of(
            ts,
            true,
        ) + grad_bytes_of(ts, false),
    decreases ts.len(),
{
    if ts.len() > 0 {
        parts_make_the_whole(ts.drop_last());
    }
}

fn bytes_of<T: Scalar>(t: &Tensor<T>) -> (r: (usize, usize))
    requires
        t.data.device_bytes() + grad_bytes(*t) <= usize::MAX,
    ensures
        r.0 == t.data.device_bytes(),
        r.1 == grad_bytes(*t),
{
    let d: usize = match &t.data {
        Storage::Gpu(b) => b.len * 4,
        Storage::GpuBf16(b) => b.len * 2,
        _ => 0,
    };
    let g: usize = match &t.grad {
        Storage::Gpu(b) => b.len * 4,
        _ => 0,
    };
    (d, g)
}

proof fn lemma_prefix_bytes<T: Scalar>(ts: Seq<Tensor<T>>, n: int)
    requires
        0 <= n <= ts.len(),
    ensures
        tensor_bytes(ts.take(n)) <= tensor_bytes(ts),
    decreases ts.len() - n,
{
    if n == ts.len() {
        assert(ts.take(n) =~= ts);
    } else {
        lemma_prefix_bytes(ts, n + 1);
        assert(ts.take(n + 1).drop_last() =~= ts.take(n));
    }
}

/// A name and the device memory that goes by it.
pub struct Consumer {
    pub name: Vec<char>,
    pub data_bytes: usize,
    pub grad_bytes: usize,
    pub count: usize,
}

/// The same with numbers of any size.
pub struct Share {
    pub name: Seq<char>,
    pub data: nat,
    pub grad: nat,
    pub count: nat,
}

impl Consumer {
    pub open spec fn share(&self) -> Share {
        Share {
            name: self.name@,
            data: self.data_bytes as nat,
            grad: self.grad_bytes as nat,
            count: self.count as nat,
        }
    }
}

/// Consumers as shares.
pub open spec fn shares(v: Seq<Consumer>) -> Seq<Share> {
    v.map_values(|c: Consumer| c.share())
}

/// A shape as it is shown.
pub open spec fn shape_words(s: Seq<usize>, n: nat) -> Seq<char>
    decreases n,
{
    if n == 0 {
        Seq::empty()
    } else if n == 1 {
        decimal(s[0] as nat)
    } else {
        shape_words(s, (n - 1) as nat) + ", "@ + decimal(s[n - 1] as nat)
    }
}

/// What a tensor goes by: its name, or its number and shape, behind a mark for activations or for
/// the others.
pub open spec fn identity<T: Scalar>(t: Tensor<T>) -> Seq<char> {
    let mark = if t.is_pooled {
        "[P] "@
    } else {
        "[S] "@
    };
    match t.name {
        Some(s) => mark + s@,
        None => mark + "ID "@ + decimal(t.id as nat) + " ["@ + shape_words(t.shape@, t.shape@.len())
            + "]"@,
    }
}

/// Shares with one more tensor: on the first of its name, or behind the others.
pub open spec fn share_added(s: Seq<Share>, name: Seq<char>, d: nat, g: nat) -> Seq<Share> {
    if exists|i: int| first_named(s, name, i) {
        let i = choose|i: int| first_named(s, name, i);
        s.update(
            i,
            Share { name, data: s[i].data + d, grad: s[i].grad + g, count: s[i].count + 1 },
        )
    } else {
        s.push(Share { name, data: d, grad: g, count: 1 })
    }
}

/// Share `i` is the first of that name.
pub open spec fn first_named(s: Seq<Share>, name: Seq<char>, i: int) -> bool {
    &&& 0 <= i < s.len()
    &&& s[i].name == name
    &&& forall|j: int| 0 <= j < i ==> (#[trigger] s[j]).name != name
}

/// The shares of the tensors that take device memory.
pub open spec fn all_shares<T: Scalar>(ts: Seq<Tensor<T>>) -> Seq<Share>
    decreases ts.len(),
{
    if ts.len() == 0 {
        Seq::empty()
    } else {
        let before = all_shares(ts.drop_last());
        let t = ts.last();
        if t.data.device_bytes() > 0 || grad_bytes(t) > 0 {
            share_added(before, identity(t), t.data.device_bytes(), grad_bytes(t))
        } else {
            before
        }
    }
}

/// The bytes of all shares.
pub open spec fn shares_total(s: Seq<Share>) -> nat
    decreases s.len(),
{
    if s.len() == 0 {
        0
    } else {
        shares_total(s.drop_last()) + s.last().data + s.last().grad
    }
}

proof fn lemma_share_total(s: Seq<Share>, i: int, x: Share)
    requires
        0 <= i < s.len(),
    ensures
        shares_total(s.update(i, x)) == shares_total(s) - s[i].data - s[i].grad + x.data + x.grad,
        s[i].data + s[i].grad <= shares_total(s),
    decreases s.len(),
{
    if i == s.len() - 1 {
        assert(s.update(i, x).drop_last() =~= s.drop_last());
    } else {
        lemma_share_total(s.drop_last(), i, x);
        assert(s.update(i, x).drop_last() =~= s.drop_last().update(i, x));
        assert(s.update(i, x).last() == s.last());
    }
}

proof fn lemma_first_is_unique(s: Seq<Share>, name: Seq<char>, i: int, j: int)
    requires
        first_named(s, name, i),
        first_named(s, name, j),
    ensures
        i == j,
{
    if i < j {
        assert(s[i].name != name);
    } else if j < i {
        assert(s[j].name != name);
    }
}

/// Nothing is left out and nothing counted twice: the shares take what the tensors take.
pub proof fn shares_make_the_whole<T: Scalar>(ts: Seq<Tensor<T>>)
    ensures
        shares_total(all_shares(ts)) == tensor_bytes(ts),
    decreases ts.len(),
{
    if ts.len() > 0 {
        shares_make_the_whole(ts.drop_last());
        let s = all_shares(ts.drop_last());
        let t = ts.last();
        let (d, g) = (t.data.device_bytes(), grad_bytes(t));
        if d > 0 || g > 0 {
            let name = identity(t);
            if exists|i: int| first_named(s, name, i) {
                let i = choose|i: int| first_named(s, name, i);
                let x = Share {
                    name,
                    data: s[i].data + d,
                    grad: s[i].grad + g,
                    count: s[i].count + 1,
                };
                lemma_share_total(s, i, x);
            } else {
                let x = Share { name, data: d, grad: g, count: 1 };
                assert(s.push(x).drop_last() =~= s);
            }
        }
    }
}

fn identity_of<T: Scalar>(t: &Tensor<T>) -> (r: Vec<char>)
    ensures
        r@ == identity(*t),
{
    let mut out: Vec<char> = if t.is_pooled {
        chars_of("[P] ")
    } else {
        chars_of("[S] ")
    };
    match &t.name {
        Some(s) => {
            push_text(&mut out, s.as_str());
        },
        None => {
            push_text(&mut out, "ID ");
            push_decimal(&mut out, t.id);
            push_text(&mut out, " [");
            let ghost start = out@;
            let mut i: usize = 0;
            assert(start + shape_words(t.shape@, 0) =~= start);
            while i < t.shape.len()
                invariant
                    i <= t.shape@.len(),
                    out@ == start + shape_words(t.shape@, i as nat),
                decreases t.shape@.len() - i,
            {
                if i > 0 {
                    push_text(&mut out, ", ");
                }
                push_decimal(&mut out, t.shape[i]);
                i += 1;
                assert(out@ =~= start + shape_words(t.shape@, i as nat));
            }
            push_text(&mut out, "]");
        },
    }
    out
}

fn same_chars(a: &Vec<char>, b: &Vec<char>) -> (r: bool)
    ensures
        r == (a@ == b@),
{
    if a.len() != b.len() {
        return false;
    }
    let mut i: usize = 0;
    while i < a.len()
        invariant
            i <= a@.len(),
            a@.len() == b@.len(),
            forall|j: int| 0 <= j < i ==> a@[j] == b@[j],
        decreases a@.len() - i,
    {
        if a[i] != b[i] {
            return false;
        }
        i += 1;
    }
    assert(a@ =~= b@);
    true
}

fn add_share(v: &mut Vec<Consumer>, name: Vec<char>, d: usize, g: usize)
    requires
        shares_total(shares(old(v)@)) + d + g <= usize::MAX,
        forall|i: int| 0 <= i < old(v)@.len() ==> (#[trigger] old(v)@[i]).count < usize::MAX,
    ensures
        shares(final(v)@) == share_added(shares(old(v)@), name@, d as nat, g as nat),
{
    let ghost before = shares(v@);
    let ghost was = v@;
    let mut i: usize = 0;
    while i < v.len()
        invariant
            i <= v@.len(),
            v@ == was,
            was == old(v)@,
            before == shares(was),
            shares_total(before) + d + g <= usize::MAX,
            forall|i: int| 0 <= i < was.len() ==> (#[trigger] was[i]).count < usize::MAX,
            forall|j: int| 0 <= j < i ==> (#[trigger] before[j]).name != name@,
        decreases v@.len() - i,
    {
        if same_chars(&v[i].name, &name) {
            proof {
                assert(before[i as int] == was[i as int].share());
                lemma_share_total(before, i as int, before[i as int]);
            }
            let c = Consumer {
                data_bytes: v[i].data_bytes + d,
                grad_bytes: v[i].grad_bytes + g,
                count: v[i].count + 1,
                name,
            };
            v.set(i, c);
            proof {
                assert(first_named(before, name@, i as int));
                let j = choose|j: int| first_named(before, name@, j);
                lemma_first_is_unique(before, name@, i as int, j);
                assert(shares(v@) =~= share_added(before, name@, d as nat, g as nat));
            }
            return;
        }
        assert(before[i as int] == was[i as int].share());
        i += 1;
    }
    v.push(Consumer { name, data_bytes: d, grad_bytes: g, count: 1 });
    proof {
        assert forall|j: int| !first_named(before, name@, j) by {
            if 0 <= j < before.len() {
                assert(before[j].name != name@);
            }
        }
        assert(shares(v@) =~= share_added(before, name@, d as nat, g as nat));
    }
}

/// All of `all`, the greatest totals first.
pub open spec fn is_ranking(all: Seq<Share>, full: Seq<Share>) -> bool {
    &&& full.to_multiset() == all.to_multiset()
    &&& falling(full)
}

/// Totals do not rise.
pub open spec fn falling(s: Seq<Share>) -> bool {
    forall|i: int, j: int|
        0 <= i < j < s.len() ==> (#[trigger] s[i]).data + s[i].grad >= (#[trigger] s[j]).data
            + s[j].grad
}

/// How many consumers are shown.
pub const SHOWN: usize = 25;

/// The shares that are shown.
pub open spec fn shown(all: Seq<Share>, r: Seq<Share>) -> bool {
    exists|full: Seq<Share>| #[trigger]
        is_ranking(all, full) && r == full.take(if all.len() <= SHOWN {
            all.len() as int
        } else {
            SHOWN as int
        })
}

/// The total of every consumer can be counted.
spec fn counted(v: Seq<Consumer>) -> bool {
    forall|i: int|
        0 <= i < v.len() ==> (#[trigger] v[i]).data_bytes + v[i].grad_bytes <= usize::MAX
}

proof fn lemma_counted(v: Seq<Consumer>)
    requires
        shares_total(shares(v)) <= usize::MAX,
    ensures
        counted(v),
{
    assert forall|i: int| 0 <= i < v.len() implies (#[trigger] v[i]).data_bytes + v[i].grad_bytes
        <= usize::MAX by {
        assert(shares(v)[i] == v[i].share());
        lemma_share_total(shares(v), i, shares(v)[i]);
    }
}

fn put_in_order(v: &mut Vec<Consumer>, c: Consumer)
    requires
        falling(shares(old(v)@)),
        counted(old(v)@),
        c.data_bytes + c.grad_bytes <= usize::MAX,
    ensures
        falling(shares(final(v)@)),
        counted(final(v)@),
        shares(final(v)@).to_multiset() == shares(old(v)@).to_multiset().insert(c.share()),
{
    let ghost was = v@;
    let size: usize = c.data_bytes + c.grad_bytes;
    let ghost x = c.share();
    let mut i: usize = 0;
    while i < v.len() && v[i].data_bytes + v[i].grad_bytes > size
        invariant
            i <= v@.len(),
            v@ == was,
            counted(was),
            forall|j: int|
                0 <= j < i ==> (#[trigger] was[j]).data_bytes + was[j].grad_bytes > size,
        decreases v@.len() - i,
    {
        i += 1;
    }
    v.insert(i, c);
    proof {
        let s = shares(was);
        assert(shares(v@) =~= s.insert(i as int, x));
        vstd::seq_lib::to_multiset_insert(s, i as int, x);
        let t = shares(v@);
        assert forall|a: int, b: int| 0 <= a < b < t.len() implies (#[trigger] t[a]).data
            + t[a].grad >= (#[trigger] t[b]).data + t[b].grad by {
            let oa = if a < i { a } else { a - 1 };
            let ob = if b < i { b } else { b - 1 };
            if a != i {
                assert(s[oa] == was[oa].share());
            }
            if b != i {
                assert(s[ob] == was[ob].share());
            }
            if i < was.len() {
                assert(s[i as int] == was[i as int].share());
            }
        }
    }
}

proof fn lemma_share_count<T: Scalar>(ts: Seq<Tensor<T>>)
    ensures
        forall|i: int|
            0 <= i < all_shares(ts).len() ==> (#[trigger] all_shares(ts)[i]).count <= ts.len(),
    decreases ts.len(),
{
    if ts.len() > 0 {
        lemma_share_count(ts.drop_last());
        let s = all_shares(ts.drop_last());
        assert forall|i: int| 0 <= i < all_shares(ts).len() implies (#[trigger] all_shares(
            ts,
        )[i]).count <= ts.len() by {
            if i < s.len() {
                assert(s[i].count <= ts.len() - 1);
            }
        }
    }
}

impl<T: Scalar> Graph<T> {
    /// What device memory is used for, given how much of it the driver has left and has in all.
    pub fn vram_state(&self, driver_free: usize, driver_total: usize) -> (r: Option<VramState>)
        requires
            self.usage() <= usize::MAX,
            self.usage() <= i64::MAX,
            driver_free <= driver_total <= i64::MAX,
        ensures
            match r {
                None => self.vram_budget_bytes is None,
                Some(s) => {
                    &&& self.vram_budget_bytes == Some(s.budget)
                    &&& s.used == (if driver_free <= s.budget {
                        s.budget - driver_free
                    } else {
                        0
                    })
                    &&& s.param_data == data_bytes_of(self.tensors@, false)
                    &&& s.param_grad == grad_bytes_of(self.tensors@, false)
                    &&& s.pooled_data == data_bytes_of(self.tensors@, true)
                    &&& s.pooled_grad == grad_bytes_of(self.tensors@, true)
                    &&& s.idle == self.vram_pool.elements() * 4 + self.vram_pool_bf16.elements() * 2
                    &&& s.unaccounted == driver_total - driver_free - self.usage()
                    &&& s.heavy_gradients == (s.pooled_grad > s.pooled_data / 2 && s.pooled_data
                        > 0)
                },
            },
    {
        let budget: usize = match self.vram_budget_bytes {
            None => {
                return None;
            },
            Some(b) => b,
        };
        let mut pd: usize = 0;
        let mut pg: usize = 0;
        let mut sd: usize = 0;
        let mut sg: usize = 0;
        let mut i: usize = 0;
        assert(self.tensors@.take(0) =~= Seq::empty());
        while i < self.tensors.len()
            invariant
                i <= self.tensors@.len(),
                pd == data_bytes_of(self.tensors@.take(i as int), true),
                pg == grad_bytes_of(self.tensors@.take(i as int), true),
                sd == data_bytes_of(self.tensors@.take(i as int), false),
                sg == grad_bytes_of(self.tensors@.take(i as int), false),
                self.usage() <= usize::MAX,
            decreases self.tensors@.len() - i,
        {
            proof {
                assert(self.tensors@.take(i + 1).drop_last() =~= self.tensors@.take(i as int));
                assert(self.tensors@.take(i + 1).last() == self.tensors@[i as int]);
                lemma_prefix_bytes(self.tensors@, i + 1);
                parts_make_the_whole(self.tensors@.take(i + 1));
            }
            let (d, g) = bytes_of(&self.tensors[i]);
            if self.tensors[i].is_pooled {
                pd = pd + d;
                pg = pg + g;
            } else {
                sd = sd + d;
                sg = sg + g;
            }
            i += 1;
        }
        assert(self.tensors@.take(self.tensors@.len() as int) =~= self.tensors@);
        proof {
            parts_make_the_whole(self.tensors@);
        }
        let accounted: usize = self.current_vram_usage();
        let idle: usize = accounted - pd - pg - sd - sg;
        let used: usize = if driver_free <= budget {
            budget - driver_free
        } else {
            0
        };
        Some(
            VramState {
                used,
                budget,
                param_data: sd,
                param_grad: sg,
                pooled_data: pd,
                pooled_grad: pg,
                idle,
                unaccounted: (driver_total - driver_free) as i64 - accounted as i64,
                heavy_gradients: pg > pd / 2 && pd > 0,
            },
        )
    }

    /// The names that take the most device memory, the greatest first.
    pub fn tensor_breakdown(&self) -> (r: Vec<Consumer>)
        requires
            self.usage() <= usize::MAX,
        ensures
            shown(all_shares(self.tensors@), shares(r@)),
    {
        let ghost all = all_shares(self.tensors@);
        let mut v: Vec<Consumer> = Vec::new();
        let mut i: usize = 0;
        assert(self.tensors@.take(0) =~= Seq::empty());
        assert(shares(v@) =~= Seq::empty());
        while i < self.tensors.len()
            invariant
                i <= self.tensors@.len(),
                shares(v@) == all_shares(self.tensors@.take(i as int)),
                self.usage() <= usize::MAX,
            decreases self.tensors@.len() - i,
        {
            proof {
                let before = self.tensors@.take(i as int);
                assert(self.tensors@.take(i + 1).drop_last() =~= before);
                assert(self.tensors@.take(i + 1).last() == self.tensors@[i as int]);
                lemma_prefix_bytes(self.tensors@, i + 1);
                shares_make_the_whole(before);
                lemma_share_count(before);
                assert forall|j: int| 0 <= j < v@.len() implies (#[trigger] v@[j]).count
                    < usize::MAX by {
                    assert(shares(v@)[j] == v@[j].share());
                }
            }
            let (d, g) = bytes_of(&self.tensors[i]);
            if d > 0 || g > 0 {
                add_share(&mut v, identity_of(&self.tensors[i]), d, g);
            }
            i += 1;
        }
        proof {
            assert(self.tensors@.take(self.tensors@.len() as int) =~= self.tensors@);
            shares_make_the_whole(self.tensors@);
            lemma_counted(v@);
        }
        let mut out: Vec<Consumer> = Vec::new();
        assert(shares(out@) =~= Seq::empty());
        assert(shares(out@).to_multiset().add(all.to_multiset()) =~= all.to_multiset()) by {
            vstd::seq_lib::to_multiset_len(shares(out@));
        }
        while v.len() > 0
            invariant
                counted(v@),
                counted(out@),
                falling(shares(out@)),
                shares(out@).to_multiset().add(shares(v@).to_multiset()) == all.to_multiset(),
            decreases v@.len(),
        {
            let ghost was = v@;
            match v.pop() {
                Some(c) => {
                    proof {
                        assert(shares(was) =~= shares(v@).push(c.share()));
                        vstd::seq_lib::to_multiset_build(shares(v@), c.share());
                        assert(was.last() == c);
                        assert(counted(v@)) by {
                            assert forall|j: int| 0 <= j < v@.len() implies (#[trigger] v@[j]).data_bytes
                                + v@[j].grad_bytes <= usize::MAX by {
                                assert(v@[j] == was[j]);
                            }
                        }
                    }
                    let ghost before = shares(out@).to_multiset();
                    put_in_order(&mut out, c);
                    assert(before.insert(c.share()).add(shares(v@).to_multiset()) =~= before.add(
                        shares(v@).to_multiset().insert(c.share()),
                    ));
                },
                None => {},
            }
        }
        let ghost full = shares(out@);
        proof {
            vstd::seq_lib::to_multiset_len(shares(v@));
            assert(full.to_multiset() =~= all.to_multiset());
            vstd::seq_lib::to_multiset_len(full);
            vstd::seq_lib::to_multiset_len(all);
            assert(is_ranking(all, full));
            assert(full.take(out@.len() as int) =~= full);
        }
        while out.len() > SHOWN
            invariant
                out@.len() <= full.len(),
                full.len() <= SHOWN ==> out@.len() == full.len(),
                full.len() > SHOWN ==> out@.len() >= SHOWN,
                shares(out@) == full.take(out@.len() as int),
            decreases out@.len(),
        {
            let ghost was = out@;
            let last = out.pop();
            assert(shares(out@) =~= shares(was).drop_last());
            assert(shares(out@) =~= full.take(out@.len() as int));
        }
        out
    }
}

} // verus!
