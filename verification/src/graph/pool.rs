//! Free device buffers, kept for reuse by their size.
use crate::tensor::DeviceBuffer;
use vstd::prelude::*;

verus! {

/// The buffers of `size` elements among `e`, in the order in which they came.
pub open spec fn stack_of(e: Seq<(usize, DeviceBuffer)>, size: usize) -> Seq<DeviceBuffer>
    decreases e.len(),
{
    if e.len() == 0 {
        Seq::empty()
    } else {
        let s = stack_of(e.drop_last(), size);
        if e.last().0 == size {
            s.push(e.last().1)
        } else {
            s
        }
    }
}

/// The elements of all buffers.
pub open spec fn total_size(e: Seq<(usize, DeviceBuffer)>) -> nat
    decreases e.len(),
{
    if e.len() == 0 {
        0
    } else {
        total_size(e.drop_last()) + e.last().0 as nat
    }
}

/// The buffers of two lists.
pub proof fn lemma_stack_of_concat(
    a: Seq<(usize, DeviceBuffer)>,
    b: Seq<(usize, DeviceBuffer)>,
    size: usize,
)
    ensures
        stack_of(a + b, size) == stack_of(a, size) + stack_of(b, size),
        total_size(a + b) == total_size(a) + total_size(b),
    decreases b.len(),
{
    if b.len() == 0 {
        assert(a + b =~= a);
        assert(stack_of(a, size) + Seq::<DeviceBuffer>::empty() =~= stack_of(a, size));
    } else {
        lemma_stack_of_concat(a, b.drop_last(), size);
        assert((a + b).drop_last() =~= a + b.drop_last());
        assert((a + b).last() == b.last());
        let s = stack_of(a, size);
        let t = stack_of(b.drop_last(), size);
        assert((s + t).push(b.last().1) =~= s + t.push(b.last().1));
    }
}

/// The elements of two lists of buffers.
pub proof fn lemma_total_of_concat(a: Seq<(usize, DeviceBuffer)>, b: Seq<(usize, DeviceBuffer)>)
    ensures
        total_size(a + b) == total_size(a) + total_size(b),
{
    lemma_stack_of_concat(a, b, 0);
}

proof fn lemma_stack_of_none(e: Seq<(usize, DeviceBuffer)>, size: usize)
    requires
        forall|i: int| 0 <= i < e.len() ==> (#[trigger] e[i]).0 != size,
    ensures
        stack_of(e, size).len() == 0,
    decreases e.len(),
{
    if e.len() > 0 {
        assert(e[e.len() - 1].0 != size);
        assert forall|i: int| 0 <= i < e.drop_last().len() implies (#[trigger] e.drop_last()[i]).0
            != size by {
            assert(e[i].0 != size);
        }
        lemma_stack_of_none(e.drop_last(), size);
    }
}

pub proof fn lemma_stack_of_one(x: (usize, DeviceBuffer), size: usize)
    ensures
        stack_of(seq![x], size) == (if x.0 == size {
            seq![x.1]
        } else {
            Seq::empty()
        }),
        total_size(seq![x]) == x.0,
{
    assert(seq![x].drop_last() =~= Seq::empty());
    assert(seq![x].last() == x);
    assert(stack_of(Seq::empty(), size) =~= Seq::<DeviceBuffer>::empty());
    assert(total_size(Seq::empty()) == 0);
    assert(Seq::<DeviceBuffer>::empty().push(x.1) =~= seq![x.1]);
}

/// Buffers by their size; of those of one size the one that came last leaves first.
pub struct Pool {
    pub entries: Vec<(usize, DeviceBuffer)>,
}

impl Pool {
    /// The buffers of `size` elements, the last to leave first.
    pub open spec fn stack(&self, size: usize) -> Seq<DeviceBuffer> {
        stack_of(self.entries@, size)
    }

    /// The elements of all buffers.
    pub open spec fn elements(&self) -> nat {
        total_size(self.entries@)
    }

    /// A pool without buffers.
    pub fn new() -> (r: Self)
        ensures
            r.entries@.len() == 0,
            r.elements() == 0,
            forall|size: usize| #[trigger] r.stack(size).len() == 0,
    {
        Pool { entries: Vec::new() }
    }

    /// Keeps a buffer.
    pub fn push(&mut self, size: usize, buffer: DeviceBuffer)
        ensures
            final(self).entries@ == old(self).entries@.push((size, buffer)),
            final(self).elements() == old(self).elements() + size,
            final(self).stack(size) == old(self).stack(size).push(buffer),
            forall|other: usize|
                other != size ==> #[trigger] final(self).stack(other) == old(self).stack(other),
    {
        self.entries.push((size, buffer));
        proof {
            assert(self.entries@.drop_last() =~= old(self).entries@);
        }
    }

    /// Takes out the buffer of `size` elements that came last.
    pub fn pop(&mut self, size: usize) -> (r: Option<DeviceBuffer>)
        ensures
            match r {
                None => {
                    &&& old(self).stack(size).len() == 0
                    &&& final(self).entries@ == old(self).entries@
                },
                Some(b) => {
                    &&& old(self).stack(size).len() > 0
                    &&& b == old(self).stack(size).last()
                    &&& final(self).stack(size) == old(self).stack(size).drop_last()
                    &&& final(self).elements() == old(self).elements() - size
                    &&& final(self).entries@.len() < old(self).entries@.len()
                },
            },
            forall|other: usize|
                other != size ==> #[trigger] final(self).stack(other) == old(self).stack(other),
    {
        let mut i: usize = self.entries.len();
        while i > 0
            invariant
                i <= self.entries@.len(),
                self.entries@ == old(self).entries@,
                forall|j: int| i <= j < self.entries@.len() ==> (#[trigger] self.entries@[j]).0 != size,
            decreases i,
        {
            i -= 1;
            if self.entries[i].0 == size {
                let ghost e = self.entries@;
                let (_, b) = self.entries.remove(i);
                proof {
                    let front = e.take(i as int);
                    let rest = e.skip(i + 1);
                    assert(e =~= front + seq![e[i as int]] + rest);
                    assert(self.entries@ =~= front + rest);
                    lemma_stack_of_none(rest, size);
                    assert forall|s: usize| true implies {
                        &&& #[trigger] stack_of(e, s) == stack_of(front, s) + stack_of(
                            seq![e[i as int]],
                            s,
                        ) + stack_of(rest, s)
                        &&& stack_of(self.entries@, s) == stack_of(front, s) + stack_of(rest, s)
                    } by {
                        lemma_stack_of_concat(front, seq![e[i as int]], s);
                        lemma_stack_of_concat(front + seq![e[i as int]], rest, s);
                        lemma_stack_of_concat(front, rest, s);
                    }
                    lemma_stack_of_concat(front, seq![e[i as int]], size);
                    lemma_stack_of_concat(front + seq![e[i as int]], rest, size);
                    lemma_stack_of_concat(front, rest, size);
                    lemma_stack_of_one(e[i as int], size);
                    let f = stack_of(front, size);
                    assert(stack_of(e, size) =~= f.push(b));
                    assert(stack_of(self.entries@, size) =~= f);
                    assert(stack_of(e, size).drop_last() =~= f);
                    assert forall|other: usize| other != size implies #[trigger] self.stack(other)
                        == old(self).stack(other) by {
                        lemma_stack_of_one(e[i as int], other);
                        assert(stack_of(e, other) =~= stack_of(self.entries@, other));
                    }
                }
                return Some(b);
            }
        }
        proof {
            lemma_stack_of_none(self.entries@, size);
        }
        None
    }

    /// Lets all buffers go.
    pub fn clear(&mut self)
        ensures
            final(self).entries@.len() == 0,
            final(self).elements() == 0,
    {
        self.entries.clear();
    }
}

} // verus!
