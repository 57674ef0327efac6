//! Device memory: how much is used, what is moved to the host when there is too little, and which
//! parameters stay.
use crate::graph::{only_tensors, same_but_data, same_settings, Graph};
use crate::graph::backward::same_but_grad;
use crate::graph::kernel::Kernel;
use crate::graph::launch::{dims_for, elementwise_launch};
use crate::graph::plan::{call, call_steps, Arg, Step};
use crate::scalar::Scalar;
use crate::tensor::{
    copy_of, element_count, filled, from_halves, halves_of, product, shape_fits, to_halves, widened,
    Device, DeviceBuffer, Storage, Tensor,
};
use crate::tape::TapeNode;
use vstd::prelude::*;

verus! {

/// The bytes of device memory that the gradient of a tensor takes.
pub open spec fn grad_bytes<T: Scalar>(t: Tensor<T>) -> nat {
    match t.grad {
        Storage::Gpu(b) => b.len as nat * 4,
        _ => 0,
    }
}

/// The bytes of device memory that tensors take.
pub open spec fn tensor_bytes<T: Scalar>(ts: Seq<Tensor<T>>) -> nat
    decreases ts.len(),
{
    if ts.len() == 0 {
        0
    } else {
        tensor_bytes(ts.drop_last()) + ts.last().data.device_bytes() + grad_bytes(ts.last())
    }
}

proof fn lemma_tensor_bytes<T: Scalar>(ts: Seq<Tensor<T>>, n: int)
    requires
        0 <= n <= ts.len(),
    ensures
        tensor_bytes(ts.take(n)) <= tensor_bytes(ts),
    decreases ts.len() - n,
{
    if n == ts.len() {
        assert(ts.take(n) =~= ts);
    } else {
        lemma_tensor_bytes(ts, n + 1);
        assert(ts.take(n + 1).drop_last() =~= ts.take(n));
    }
}

proof fn lemma_pool_size(e: Seq<(usize, DeviceBuffer)>, n: int)
    requires
        0 <= n <= e.len(),
    ensures
        crate::graph::pool::total_size(e.take(n)) <= crate::graph::pool::total_size(e),
    decreases e.len() - n,
{
    if n == e.len() {
        assert(e.take(n) =~= e);
    } else {
        lemma_pool_size(e, n + 1);
        assert(e.take(n + 1).drop_last() =~= e.take(n));
    }
}

fn pool_elements(e: &Vec<(usize, DeviceBuffer)>) -> (r: usize)
    requires
        crate::graph::pool::total_size(e@) <= usize::MAX,
    ensures
        r == crate::graph::pool::total_size(e@),
{
    let mut r: usize = 0;
    let mut i: usize = 0;
    assert(e@.take(0) =~= Seq::empty());
    while i < e.len()
        invariant
            i <= e@.len(),
            r == crate::graph::pool::total_size(e@.take(i as int)),
            crate::graph::pool::total_size(e@) <= usize::MAX,
        decreases e@.len() - i,
    {
        proof {
            assert(e@.take(i + 1).drop_last() =~= e@.take(i as int));
            assert(e@.take(i + 1).last() == e@[i as int]);
            lemma_pool_size(e@, i + 1);
        }
        r = r + e[i].0;
        i += 1;
    }
    assert(e@.take(e@.len() as int) =~= e@);
    r
}

/// The elements of a tensor are weights or activations big enough to be kept in 16 bits on the
/// host: those of matrices are.
pub open spec fn compressible(shape: Seq<usize>) -> bool {
    shape.len() == 2
}

/// Whether the elements are kept in 16 bits on the host.
pub fn should_compress_to_bf16(shape: &[usize]) -> (r: bool)
    ensures
        r == compressible(shape@),
{
    shape.len() == 2
}

/// A tensor of the recorded operations.
pub open spec fn on_tape<T>(nodes: Seq<TapeNode<T>>, id: usize) -> bool {
    exists|i: int|
        0 <= i < nodes.len() && ((#[trigger] nodes[i]).inputs@.contains(id) || nodes[i].output
            == id)
}

/// What is moved to the host is not in use: while the way back is on, that is all but the tensors
/// of its current step, else all but those of recorded operations.
pub open spec fn protected<T: Scalar>(g: Graph<T>, id: usize) -> bool {
    if g.active_node_tensors@.len() == 0 {
        on_tape(g.tape.nodes@, id)
    } else {
        g.active_node_tensors@.contains(id)
    }
}

/// The tensors that can be moved to the host for an allocation.
pub open spec fn evictable<T: Scalar>(g: Graph<T>, i: int) -> bool {
    &&& i >= g.num_params
    &&& g.tensors@[i].is_pooled
    &&& g.tensors@[i].data.on_device()
    &&& !protected(g, i as usize)
}

/// The tensors that can be moved to the host before a step of the way back.
pub open spec fn demotable<T: Scalar>(g: Graph<T>, i: int) -> bool {
    &&& i >= g.num_params
    &&& g.tensors@[i].is_pooled
    &&& !g.active_node_tensors@.contains(i as usize)
    &&& g.tensors@[i].data.on_device() || g.tensors@[i].grad is Gpu
}

/// The numbers below `n` that have a property, in increasing order.
pub open spec fn picked(p: spec_fn(int) -> bool, n: nat) -> Seq<usize>
    decreases n,
{
    if n == 0 {
        Seq::empty()
    } else if p(n - 1) {
        picked(p, (n - 1) as nat).push((n - 1) as usize)
    } else {
        picked(p, (n - 1) as nat)
    }
}

/// Picked numbers are below the bound and have the property.
pub proof fn lemma_picked(p: spec_fn(int) -> bool, n: nat, k: int)
    requires
        0 <= k < picked(p, n).len(),
        n <= usize::MAX,
    ensures
        picked(p, n)[k] < n,
        p(picked(p, n)[k] as int),
    decreases n,
{
    if p(n - 1) {
        if k < picked(p, (n - 1) as nat).len() {
            lemma_picked(p, (n - 1) as nat, k);
        }
    } else {
        lemma_picked(p, (n - 1) as nat, k);
    }
}

fn listed(ids: &Vec<usize>, id: usize) -> (r: bool)
    ensures
        r == ids@.contains(id),
{
    let mut i: usize = 0;
    while i < ids.len()
        invariant
            i <= ids@.len(),
            forall|j: int| 0 <= j < i ==> #[trigger] ids@[j] != id,
        decreases ids@.len() - i,
    {
        if ids[i] == id {
            assert(ids@[i as int] == id);
            return true;
        }
        i += 1;
    }
    false
}

/// How far an allocation has come.
#[derive(Clone, Copy, Debug, PartialEq, Eq, Structural)]
pub enum AllocStage {
    /// Nothing has been tried.
    Start,
    /// The driver has been asked, or the budget did not allow it.
    Asked,
    /// The pools have been emptied.
    Emptied,
    /// Tensors are being moved to the host.
    Evicting,
}

/// An allocation of device memory in progress.
pub struct Allocation {
    pub bytes: usize,
    pub stage: AllocStage,
    /// The tensors that can be moved to the host.
    pub candidates: Vec<usize>,
    /// How many of them have been.
    pub next: usize,
    /// Whether one has just been moved.
    pub moved: bool,
}

impl Allocation {
    /// How many steps of its stage are left at most, and which stage it is, the last lowest.
    pub open spec fn left(&self) -> (int, int) {
        match self.stage {
            AllocStage::Start => (3, 0),
            AllocStage::Asked => (2, 0),
            AllocStage::Emptied => (1, 0),
            AllocStage::Evicting => (0, 2 * (self.candidates@.len() - self.next) + (if self.moved {
                1int
            } else {
                0int
            })),
        }
    }
}

/// An allocation has come further: it cannot go on for ever.
pub open spec fn further(x: Allocation, y: Allocation) -> bool {
    ||| 0 <= x.left().0 < y.left().0
    ||| x.left().0 == y.left().0 && 0 <= x.left().1 < y.left().1
}

/// What an allocation does next.
#[derive(Clone, Copy, Debug, PartialEq, Eq, Structural)]
pub enum AllocAction {
    /// Ask the driver.
    Try,
    /// Wait until the emptied pools are free, then ask the driver where the budget allows it.
    Sync { ask: bool },
    /// Move a tensor to the host and wait for it.
    Demote(usize),
    /// Give up.
    Fail,
}

/// The part of an allocation that moves tensors to the host.
pub open spec fn evict_action(candidates: Seq<usize>, next: int) -> AllocAction {
    if next < candidates.len() {
        AllocAction::Demote(candidates[next])
    } else {
        AllocAction::Fail
    }
}

/// The elements of a tensor to be copied to the device.
pub enum Upload<T> {
    /// They are there, or the graph is on the host.
    Nothing,
    Full(Vec<T>),
    Half(Vec<u16>),
}

/// The elements and the gradient of a tensor to be copied to the host.
#[derive(Clone, Copy, Debug, PartialEq, Eq, Structural)]
pub struct Demotion {
    pub data: Option<DeviceBuffer>,
    /// Whether the elements have 16 bits.
    pub half: bool,
    pub grad: Option<DeviceBuffer>,
}

/// The elements of a tensor that has been moved to the host.
pub open spec fn stored_on_host<T: Scalar>(
    s: Storage<T>,
    shape: Seq<usize>,
    values: Seq<T>,
) -> bool {
    match s {
        Storage::CpuBf16(v) => compressible(shape) && v@ == to_halves(values),
        Storage::Cpu(v) => !compressible(shape) && v@ == values,
        _ => false,
    }
}

/// The work that sets the gradient of a tensor on the device to zero.
pub open spec fn zeroing_steps<T: Scalar>(g: Graph<T>, id: usize) -> Seq<Step<T>> {
    let n = product(g.tensors@[id as int].shape@) as usize;
    call_steps(
        seq![],
        Kernel::FillF32,
        seq![Arg::Grad(id), Arg::Real(T::spec_zero()), Arg::Size(n as u64)],
        dims_for(n as u32),
    )
}

/// Only tensor `id` differs.
pub open spec fn only_tensor<T: Scalar>(x: Graph<T>, y: Graph<T>, id: usize) -> bool {
    &&& only_tensors(x, y)
    &&& x.tensors@.len() == y.tensors@.len()
    &&& forall|i: int| 0 <= i < x.tensors@.len() && i != id ==> #[trigger] x.tensors@[i] == y.tensors@[i]
}

/// Numbers added to those at the front of `a`, as far as there are some.
pub open spec fn sum_of<T: Scalar>(a: Seq<T>, b: Seq<T>) -> Seq<T> {
    Seq::new(
        a.len(),
        |i: int|
            if i < b.len() {
                a[i].spec_plus(b[i])
            } else {
                a[i]
            },
    )
}

impl<T: Scalar> Graph<T> {
    /// The bytes of device memory in use, those of the pools included.
    pub open spec fn usage(&self) -> nat {
        tensor_bytes(self.tensors@) + self.vram_pool.elements() * 4 + self.vram_pool_bf16.elements()
            * 2
    }

    /// Whether `bytes` more fit into the budget.
    pub open spec fn fits(&self, bytes: usize) -> bool {
        match self.vram_budget_bytes {
            None => true,
            Some(b) => self.usage() + bytes <= b,
        }
    }

    /// The bytes of device memory in use.
    pub fn current_vram_usage(&self) -> (r: usize)
        requires
            self.usage() <= usize::MAX,
        ensures
            r == self.usage(),
    {
        let mut used: usize = 0;
        let mut i: usize = 0;
        assert(self.tensors@.take(0) =~= Seq::empty());
        while i < self.tensors.len()
            invariant
                i <= self.tensors@.len(),
                used == tensor_bytes(self.tensors@.take(i as int)),
                self.usage() <= usize::MAX,
            decreases self.tensors@.len() - i,
        {
            proof {
                assert(self.tensors@.take(i + 1).drop_last() =~= self.tensors@.take(i as int));
                assert(self.tensors@.take(i + 1).last() == self.tensors@[i as int]);
                lemma_tensor_bytes(self.tensors@, i + 1);
            }
            match &self.tensors[i].data {
                Storage::Gpu(b) => {
                    used = used + b.len * 4;
                },
                Storage::GpuBf16(b) => {
                    used = used + b.len * 2;
                },
                _ => {},
            }
            match &self.tensors[i].grad {
                Storage::Gpu(b) => {
                    used = used + b.len * 4;
                },
                _ => {},
            }
            i += 1;
        }
        assert(self.tensors@.take(self.tensors@.len() as int) =~= self.tensors@);
        let full: usize = pool_elements(&self.vram_pool.entries);
        let half: usize = pool_elements(&self.vram_pool_bf16.entries);
        used + full * 4 + half * 2
    }

    fn within_budget(&self, bytes: usize) -> (r: bool)
        requires
            self.usage() + bytes <= usize::MAX,
        ensures
            r == self.fits(bytes),
    {
        match self.vram_budget_bytes {
            None => true,
            Some(b) => self.current_vram_usage() + bytes <= b,
        }
    }

    fn is_protected(&self, id: usize) -> (r: bool)
        ensures
            r == protected(*self, id),
    {
        if self.active_node_tensors.len() > 0 {
            return listed(&self.active_node_tensors, id);
        }
        let mut i: usize = 0;
        while i < self.tape.nodes.len()
            invariant
                i <= self.tape.nodes@.len(),
                self.active_node_tensors@.len() == 0,
                forall|j: int|
                    0 <= j < i ==> !((#[trigger] self.tape.nodes@[j]).inputs@.contains(id)
                        || self.tape.nodes@[j].output == id),
            decreases self.tape.nodes@.len() - i,
        {
            if self.tape.nodes[i].output == id || listed(&self.tape.nodes[i].inputs, id) {
                assert(self.tape.nodes@[i as int].inputs@.contains(id)
                    || self.tape.nodes@[i as int].output == id);
                return true;
            }
            i += 1;
        }
        false
    }

    fn eviction_candidates(&self) -> (r: Vec<usize>)
        ensures
            r@ == picked(|i: int| evictable(*self, i), self.tensors@.len()),
    {
        let ghost p = |i: int| evictable(*self, i);
        let mut r: Vec<usize> = Vec::new();
        let mut i: usize = 0;
        while i < self.tensors.len()
            invariant
                i <= self.tensors@.len(),
                p == (|i: int| evictable(*self, i)),
                r@ == picked(p, i as nat),
            decreases self.tensors@.len() - i,
        {
            let yes: bool = i >= self.num_params && self.tensors[i].is_pooled
                && !self.tensors[i].data.is_cpu() && !self.is_protected(i);
            assert(yes == p(i as int));
            if yes {
                r.push(i);
            }
            i += 1;
        }
        r
    }

    /// The tensors that can be moved to the host before a step of the way back.
    pub fn demotion_candidates(&self) -> (r: Vec<usize>)
        ensures
            r@ == picked(|i: int| demotable(*self, i), self.tensors@.len()),
    {
        let ghost p = |i: int| demotable(*self, i);
        let mut r: Vec<usize> = Vec::new();
        let mut i: usize = 0;
        while i < self.tensors.len()
            invariant
                i <= self.tensors@.len(),
                p == (|i: int| demotable(*self, i)),
                r@ == picked(p, i as nat),
            decreases self.tensors@.len() - i,
        {
            let gpu_grad: bool = match &self.tensors[i].grad {
                Storage::Gpu(_) => true,
                _ => false,
            };
            let yes: bool = i >= self.num_params && self.tensors[i].is_pooled && !listed(
                &self.active_node_tensors,
                i,
            ) && (!self.tensors[i].data.is_cpu() || gpu_grad);
            assert(yes == p(i as int));
            if yes {
                r.push(i);
            }
            i += 1;
        }
        r
    }

    /// Starts an allocation.
    pub fn safe_alloc_zeros(&self, bytes: usize) -> (r: Allocation)
        ensures
            r.bytes == bytes,
            r.stage == AllocStage::Start,
            r.candidates@.len() == 0,
            r.next == 0,
            !r.moved,
    {
        Allocation {
            bytes,
            stage: AllocStage::Start,
            candidates: Vec::new(),
            next: 0,
            moved: false,
        }
    }

    /// Goes on with an allocation that has not succeeded yet. First the driver is asked, where the
    /// budget allows it; then the pools are emptied and it is asked again; then tensors that are not
    /// protected are moved to the host one by one, and it is asked after each that makes enough
    /// room. When there is nothing left to move, the allocation fails.
    pub fn alloc_next(&mut self, a: &mut Allocation) -> (r: AllocAction)
        requires
            old(self).usage() + old(a).bytes <= usize::MAX,
            old(a).next <= old(a).candidates@.len(),
        ensures
            final(a).bytes == old(a).bytes,
            final(a).next <= final(a).candidates@.len(),
            r is Fail || further(*final(a), *old(a)),
            final(self).tensors == old(self).tensors,
            final(self).tape == old(self).tape,
            final(self).forward_tensor_ids == old(self).forward_tensor_ids,
            same_settings(*final(self), *old(self)),
            match old(a).stage {
                AllocStage::Start => if old(self).fits(old(a).bytes) {
                    &&& r == AllocAction::Try
                    &&& final(a).stage == AllocStage::Asked
                    &&& final(self).vram_pool == old(self).vram_pool
                    &&& final(self).vram_pool_bf16 == old(self).vram_pool_bf16
                } else {
                    &&& r == AllocAction::Sync { ask: final(self).fits(old(a).bytes) }
                    &&& final(a).stage == AllocStage::Emptied
                    &&& final(self).vram_pool.entries@.len() == 0
                    &&& final(self).vram_pool_bf16.entries@.len() == 0
                },
                AllocStage::Asked => {
                    &&& r == AllocAction::Sync { ask: final(self).fits(old(a).bytes) }
                    &&& final(a).stage == AllocStage::Emptied
                    &&& final(self).vram_pool.entries@.len() == 0
                    &&& final(self).vram_pool_bf16.entries@.len() == 0
                },
                AllocStage::Emptied => {
                    &&& final(a).stage == AllocStage::Evicting
                    &&& final(a).candidates@ == picked(
                        |i: int| evictable(*old(self), i),
                        old(self).tensors@.len(),
                    )
                    &&& r == evict_action(final(a).candidates@, 0)
                    &&& final(a).moved == (r is Demote)
                    &&& final(a).next == (if r is Demote {
                        1int
                    } else {
                        0int
                    })
                    &&& final(self).vram_pool == old(self).vram_pool
                    &&& final(self).vram_pool_bf16 == old(self).vram_pool_bf16
                },
                AllocStage::Evicting => {
                    &&& final(a).stage == AllocStage::Evicting
                    &&& final(a).candidates == old(a).candidates
                    &&& final(self).vram_pool == old(self).vram_pool
                    &&& final(self).vram_pool_bf16 == old(self).vram_pool_bf16
                    &&& if old(a).moved && old(self).fits(old(a).bytes) {
                        &&& r == AllocAction::Try
                        &&& !final(a).moved
                        &&& final(a).next == old(a).next
                    } else {
                        &&& r == evict_action(old(a).candidates@, old(a).next as int)
                        &&& final(a).moved == (r is Demote)
                        &&& final(a).next == old(a).next + (if r is Demote {
                            1int
                        } else {
                            0int
                        })
                    }
                },
            },
    {
        match a.stage {
            AllocStage::Start => {
                if self.within_budget(a.bytes) {
                    a.stage = AllocStage::Asked;
                    return AllocAction::Try;
                }
                self.empty_pools(a)
            },
            AllocStage::Asked => self.empty_pools(a),
            AllocStage::Emptied => {
                a.stage = AllocStage::Evicting;
                a.candidates = self.eviction_candidates();
                a.next = 0;
                evict_next(a)
            },
            AllocStage::Evicting => {
                if a.moved && self.within_budget(a.bytes) {
                    a.moved = false;
                    return AllocAction::Try;
                }
                evict_next(a)
            },
        }
    }

    fn empty_pools(&mut self, a: &mut Allocation) -> (r: AllocAction)
        requires
            old(self).usage() + old(a).bytes <= usize::MAX,
        ensures
            final(a).bytes == old(a).bytes,
            final(a).next == old(a).next,
            final(a).candidates == old(a).candidates,
            final(self).tensors == old(self).tensors,
            final(self).tape == old(self).tape,
            final(self).forward_tensor_ids == old(self).forward_tensor_ids,
            same_settings(*final(self), *old(self)),
            r == (AllocAction::Sync { ask: final(self).fits(old(a).bytes) }),
            final(a).stage == AllocStage::Emptied,
            final(self).vram_pool.entries@.len() == 0,
            final(self).vram_pool_bf16.entries@.len() == 0,
    {
        self.vram_pool.clear();
        self.vram_pool_bf16.clear();
        a.stage = AllocStage::Emptied;
        AllocAction::Sync { ask: self.within_budget(a.bytes) }
    }

    /// The elements of a tensor that are to be copied to the device. Activations get 16 bits an
    /// element in mixed precision; elements kept in 16 bits on the host are widened.
    pub fn ensure_on_gpu(&self, tensor_id: usize) -> (r: Upload<T>)
        requires
            tensor_id < self.tensors@.len(),
        ensures
            self.device == Device::Cpu ==> r is Nothing,
            self.device == Device::Gpu ==> match self.tensors@[tensor_id as int].data {
                Storage::Cpu(v) => if self.mixed() && self.tensors@[tensor_id as int].is_pooled {
                    r matches Upload::Half(h) && h@ == to_halves(v@)
                } else {
                    r matches Upload::Full(f) && f@ == v@
                },
                Storage::CpuBf16(v) => r matches Upload::Full(f) && f@ == from_halves::<T>(v@),
                _ => r is Nothing,
            },
    {
        match self.device {
            Device::Cpu => Upload::Nothing,
            Device::Gpu => match &self.tensors[tensor_id].data {
                Storage::Cpu(v) => if self.uses_bf16_mixed_precision()
                    && self.tensors[tensor_id].is_pooled {
                    Upload::Half(halves_of(v))
                } else {
                    Upload::Full(copy_of(v))
                },
                Storage::CpuBf16(v) => Upload::Full(widened(v)),
                _ => Upload::Nothing,
            },
        }
    }

    /// The gradient of a tensor that is to be copied to the device; an empty one is not.
    pub fn ensure_grad_on_gpu(&self, tensor_id: usize) -> (r: Option<Vec<T>>)
        requires
            tensor_id < self.tensors@.len(),
        ensures
            match self.tensors@[tensor_id as int].grad {
                Storage::Cpu(v) => if self.device == Device::Gpu && v@.len() > 0 {
                    r matches Some(w) && w@ == v@
                } else {
                    r is None
                },
                _ => r is None,
            },
    {
        match self.device {
            Device::Cpu => None,
            Device::Gpu => match &self.tensors[tensor_id].grad {
                Storage::Cpu(v) => if v.len() > 0 {
                    Some(copy_of(v))
                } else {
                    None
                },
                _ => None,
            },
        }
    }

    /// Takes over the elements of a tensor that have been copied to the device.
    pub fn data_uploaded(&mut self, tensor_id: usize, half: bool, buffer: DeviceBuffer)
        requires
            tensor_id < old(self).tensors@.len(),
        ensures
            only_tensor(*final(self), *old(self), tensor_id),
            same_but_data(
                final(self).tensors@[tensor_id as int],
                old(self).tensors@[tensor_id as int],
            ),
            final(self).tensors@[tensor_id as int].data == (if half {
                Storage::<T>::GpuBf16(buffer)
            } else {
                Storage::<T>::Gpu(buffer)
            }),
            old(self).wf() ==> final(self).wf(),
            old(self).full_grads() ==> final(self).full_grads(),
    {
        self.tensors[tensor_id].data = if half {
            Storage::GpuBf16(buffer)
        } else {
            Storage::Gpu(buffer)
        };
    }

    /// Takes over a gradient on the device.
    pub fn grad_uploaded(&mut self, tensor_id: usize, buffer: DeviceBuffer)
        requires
            tensor_id < old(self).tensors@.len(),
        ensures
            only_tensor(*final(self), *old(self), tensor_id),
            same_but_grad(
                final(self).tensors@[tensor_id as int],
                old(self).tensors@[tensor_id as int],
            ),
            final(self).tensors@[tensor_id as int].grad == Storage::<T>::Gpu(buffer),
            old(self).wf() ==> final(self).wf(),
            old(self).full_grads() ==> final(self).full_grads(),
    {
        self.tensors[tensor_id].grad = Storage::Gpu(buffer);
    }

    /// The work that sets a gradient on the device to zero, for a buffer that comes out of the pool.
    pub fn grad_zeroing(&self, id: usize) -> (r: Vec<Step<T>>)
        requires
            id < self.tensors@.len(),
            shape_fits(self.tensors@[id as int].shape@),
        ensures
            r@ == zeroing_steps(*self, id),
    {
        let n: usize = element_count(self.tensors[id].shape.as_slice());
        let mut s: Vec<Step<T>> = Vec::new();
        call(
            &mut s,
            Kernel::FillF32,
            &vec![Arg::Grad(id), Arg::Real(T::zero()), Arg::Size(n as u64)],
            elementwise_launch(n),
        );
        s
    }

    /// The number of zeros that the gradient of a tensor is to be replaced by on the device; none
    /// where it is there.
    pub fn ensure_grad_allocated(&self, id: usize) -> (r: Option<usize>)
        requires
            id < self.tensors@.len(),
            shape_fits(self.tensors@[id as int].shape@),
            self.tensors@[id as int].grad is Gpu || self.device == Device::Gpu,
        ensures
            r == (if self.tensors@[id as int].grad is Gpu {
                None
            } else {
                Some(product(self.tensors@[id as int].shape@) as usize)
            }),
    {
        match &self.tensors[id].grad {
            Storage::Gpu(_) => None,
            _ => Some(element_count(self.tensors[id].shape.as_slice())),
        }
    }

    /// What is to be copied to the host for a tensor to leave the device.
    pub fn demote_tensor_to_cpu(&self, tensor_id: usize) -> (r: Demotion)
        requires
            tensor_id < self.tensors@.len(),
        ensures
            r.data == (match self.tensors@[tensor_id as int].data {
                Storage::Gpu(b) => Some(b),
                Storage::GpuBf16(b) => Some(b),
                _ => None,
            }),
            r.half == (self.tensors@[tensor_id as int].data is GpuBf16),
            r.grad == (match self.tensors@[tensor_id as int].grad {
                Storage::Gpu(b) => Some(b),
                _ => None,
            }),
    {
        let (data, half) = match &self.tensors[tensor_id].data {
            Storage::Gpu(b) => (Some(*b), false),
            Storage::GpuBf16(b) => (Some(*b), true),
            _ => (None, false),
        };
        let grad = match &self.tensors[tensor_id].grad {
            Storage::Gpu(b) => Some(*b),
            _ => None,
        };
        Demotion { data, half, grad }
    }

    /// Takes over the elements of a tensor that have been copied to the host, those of a matrix in
    /// 16 bits.
    pub fn data_demoted(&mut self, tensor_id: usize, values: Vec<T>)
        requires
            tensor_id < old(self).tensors@.len(),
        ensures
            only_tensor(*final(self), *old(self), tensor_id),
            same_but_data(
                final(self).tensors@[tensor_id as int],
                old(self).tensors@[tensor_id as int],
            ),
            stored_on_host(
                final(self).tensors@[tensor_id as int].data,
                old(self).tensors@[tensor_id as int].shape@,
                values@,
            ),
            old(self).wf() ==> final(self).wf(),
            old(self).full_grads() ==> final(self).full_grads(),
    {
        let stored: Storage<T> = if should_compress_to_bf16(self.tensors[tensor_id].shape.as_slice()) {
            Storage::CpuBf16(halves_of(&values))
        } else {
            Storage::Cpu(values)
        };
        self.tensors[tensor_id].data = stored;
    }

    /// Takes over a gradient that has been copied to the host.
    pub fn grad_demoted(&mut self, tensor_id: usize, values: Vec<T>)
        requires
            tensor_id < old(self).tensors@.len(),
        ensures
            only_tensor(*final(self), *old(self), tensor_id),
            same_but_grad(
                final(self).tensors@[tensor_id as int],
                old(self).tensors@[tensor_id as int],
            ),
            final(self).tensors@[tensor_id as int].grad == Storage::Cpu(values),
            old(self).wf() ==> final(self).wf(),
            old(self).full_grads() ==> final(self).full_grads(),
    {
        self.tensors[tensor_id].grad = Storage::Cpu(values);
    }

    /// A gradient computed on the device is added to that of a tensor on the host.
    pub fn grad_fetched(&mut self, tensor_id: usize, values: &Vec<T>)
        requires
            tensor_id < old(self).tensors@.len(),
            old(self).tensors@[tensor_id as int].grad is Cpu,
        ensures
            only_tensor(*final(self), *old(self), tensor_id),
            same_but_grad(
                final(self).tensors@[tensor_id as int],
                old(self).tensors@[tensor_id as int],
            ),
            final(self).tensors@[tensor_id as int].grad is Cpu,
            final(self).tensors@[tensor_id as int].grad.values() == sum_of(
                old(self).tensors@[tensor_id as int].grad.values(),
                values@,
            ),
            old(self).wf() ==> final(self).wf(),
            old(self).full_grads() ==> final(self).full_grads(),
    {
        let mut sum = copy_of(self.tensors[tensor_id].grad.as_cpu());
        let ghost was = sum@;
        let mut i: usize = 0;
        while i < sum.len() && i < values.len()
            invariant
                i <= sum@.len(),
                i <= values@.len(),
                sum@.len() == was.len(),
                forall|j: int| 0 <= j < i ==> #[trigger] sum@[j] == was[j].spec_plus(values@[j]),
                forall|j: int| i <= j < sum@.len() ==> #[trigger] sum@[j] == was[j],
            decreases sum@.len() - i,
        {
            let x = sum[i].plus(values[i]);
            sum.set(i, x);
            i += 1;
        }
        assert(sum@ =~= sum_of(was, values@));
        self.tensors[tensor_id].grad = Storage::Cpu(sum);
    }

    /// Moves a streamed parameter to the host, with a gradient of zeros.
    pub fn stream_out(&mut self, tensor_id: usize, values: Vec<T>)
        requires
            tensor_id < old(self).tensors@.len(),
            shape_fits(old(self).tensors@[tensor_id as int].shape@),
        ensures
            only_tensor(*final(self), *old(self), tensor_id),
            stored_on_host(
                final(self).tensors@[tensor_id as int].data,
                old(self).tensors@[tensor_id as int].shape@,
                values@,
            ),
            final(self).tensors@[tensor_id as int].grad is Cpu,
            final(self).tensors@[tensor_id as int].grad.values() == Seq::new(
                product(old(self).tensors@[tensor_id as int].shape@),
                |i: int| T::spec_zero(),
            ),
            final(self).tensors@[tensor_id as int].shape == old(self).tensors@[tensor_id as int].shape,
            old(self).wf() ==> final(self).wf(),
            old(self).full_grads() ==> final(self).full_grads(),
    {
        let size: usize = element_count(self.tensors[tensor_id].shape.as_slice());
        self.data_demoted(tensor_id, values);
        self.grad_demoted(tensor_id, filled(T::zero(), size));
    }
}

fn evict_next(a: &mut Allocation) -> (r: AllocAction)
    requires
        old(a).next <= old(a).candidates@.len(),
    ensures
        final(a).bytes == old(a).bytes,
        final(a).stage == old(a).stage,
        final(a).candidates == old(a).candidates,
        r == evict_action(old(a).candidates@, old(a).next as int),
        final(a).moved == (r is Demote),
        final(a).next == old(a).next + (if r is Demote {
            1int
        } else {
            0int
        }),
{
    if a.next < a.candidates.len() {
        let id: usize = a.candidates[a.next];
        a.next = a.next + 1;
        a.moved = true;
        AllocAction::Demote(id)
    } else {
        a.moved = false;
        AllocAction::Fail
    }
}

/// No allocation moves a protected tensor or a parameter to the host.
pub proof fn eviction_spares_protected<T: Scalar>(g: Graph<T>, k: int)
    requires
        g.tensors@.len() <= usize::MAX,
        0 <= k < picked(|i: int| evictable(g, i), g.tensors@.len()).len(),
    ensures
        ({
            let id = picked(|i: int| evictable(g, i), g.tensors@.len())[k];
            &&& id < g.tensors@.len()
            &&& !protected(g, id)
            &&& id >= g.num_params
            &&& g.tensors@[id as int].is_pooled
            &&& g.tensors@[id as int].data.on_device()
        }),
{
    lemma_picked(|i: int| evictable(g, i), g.tensors@.len(), k);
}

/// No step of the way back moves its own tensors or a parameter to the host.
pub proof fn demotion_spares_active<T: Scalar>(g: Graph<T>, k: int)
    requires
        g.tensors@.len() <= usize::MAX,
        0 <= k < picked(|i: int| demotable(g, i), g.tensors@.len()).len(),
    ensures
        ({
            let id = picked(|i: int| demotable(g, i), g.tensors@.len())[k];
            &&& id < g.tensors@.len()
            &&& !g.active_node_tensors@.contains(id)
            &&& id >= g.num_params
            &&& g.tensors@[id as int].is_pooled
        }),
{
    lemma_picked(|i: int| demotable(g, i), g.tensors@.len(), k);
}

} // verus!
