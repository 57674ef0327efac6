//! The way back on the device: which work comes when.
use crate::graph::device::{in_device_memory, kind_of, on_gpu};
use crate::graph::device_backward::{back_ok, back_steps};
use crate::graph::kernel::Kernel;
use crate::graph::launch::{dims_for, elementwise_launch};
use crate::graph::memory::{demotable, lemma_picked, picked};
use crate::graph::plan::{call, call_steps, Arg, Step};
use crate::graph::Graph;
use crate::scalar::Scalar;
use crate::tape::{DeviceOp, Op, TapeNode};
use crate::tensor::{Device, Storage, StorageKind};
use vstd::prelude::*;

verus! {

/// How far the way back has come.
#[derive(Clone, Copy, Debug, PartialEq, Eq, Structural)]
pub enum BackStage {
    /// Nothing has been done.
    Loss,
    /// The loss has a gradient.
    Fill,
    /// The next operation is to be taken up.
    Enter,
    /// So many of the tensors of the operation have a gradient.
    Grads(usize),
    /// It is to be seen whether there is room.
    Room,
    /// So many tensors have been moved to the host.
    Evict(usize),
    /// So many of the tensors of the operation are on the device.
    Bring(usize),
    /// They all are.
    Work,
    /// The operation has been gone back through.
    After,
}

/// A way back in progress.
pub struct Rewind {
    pub loss_id: usize,
    /// The number of operations that are left, the current one included.
    pub left: usize,
    pub stage: BackStage,
    /// The tensors that can be moved to the host.
    pub candidates: Vec<usize>,
}

/// What is to be done next.
pub enum BackAction<T> {
    /// See that the tensor has a gradient on the device.
    Grad(usize),
    /// Find out how much device memory is free.
    AskFree,
    /// Move the tensor to the host and wait for it.
    Demote(usize),
    /// Say that there is too little room, and go on.
    Warn,
    /// Bring the tensor to the device.
    Bring(usize),
    /// Wait until all launches are done.
    Sync,
    /// Do the work.
    Run(Vec<Step<T>>),
    /// Stop: the elements are kept in a way that the operation cannot go back from.
    Unsupported,
    /// The way back is done.
    Done,
}

/// The tensors that a recorded operation needs on the device: its result, then its operands. A
/// streamed matrix stays on the host.
pub open spec fn needed<T>(node: TapeNode<T>) -> Seq<usize> {
    if is_streamed_op(node.op) {
        seq![node.output, node.inputs@[0]]
    } else {
        seq![node.output] + node.inputs@
    }
}

/// The operation streams its second operand.
pub open spec fn is_streamed_op<T>(op: Op<T>) -> bool {
    match op {
        Op::Device(d) => d is Streamed || d is StreamedTransB,
        _ => false,
    }
}

/// The elements are kept in a way that the operation can go back from.
pub open spec fn kinds_ok<T: Scalar>(g: Graph<T>, node: TapeNode<T>) -> bool {
    let a = kind_of(g, node.inputs@[0]);
    let b = kind_of(g, node.inputs@[1]);
    match node.op {
        Op::Device(d) => match d {
            DeviceOp::Mul { .. } => on_gpu(a) && on_gpu(b) && (b == StorageKind::GpuBf16 ==> a
                == StorageKind::GpuBf16),
            DeviceOp::Silu { half, .. } => if half {
                on_gpu(a)
            } else {
                a == StorageKind::Gpu
            },
            DeviceOp::RmsNorm { .. } => on_gpu(a) && on_gpu(b) && (a == StorageKind::GpuBf16 ==> b
                == StorageKind::GpuBf16),
            DeviceOp::Softmax { .. } => on_gpu(kind_of(g, node.output)),
            DeviceOp::Streamed { .. } => on_gpu(a) && !on_gpu(b),
            DeviceOp::StreamedTransB { .. } => on_gpu(a) && !on_gpu(b),
            DeviceOp::Matmul { .. } => on_gpu(a) && on_gpu(b),
            DeviceOp::MatmulTransB { .. } => on_gpu(a) && on_gpu(b),
            DeviceOp::MatmulBf16 { .. } => on_gpu(a) && on_gpu(b),
            DeviceOp::Bmm { .. } => on_gpu(a) && on_gpu(b),
            DeviceOp::Max { .. } => on_gpu(a),
            DeviceOp::CrossEntropy { .. } => on_gpu(a),
            DeviceOp::Gather { .. } => on_gpu(b),
            _ => true,
        },
        _ => false,
    }
}

/// A recorded operation on the device, with tensors of the graph.
pub open spec fn device_node<T: Scalar>(g: Graph<T>, node: TapeNode<T>) -> bool {
    &&& node.op is Device
    &&& node.output < g.tensors@.len()
    &&& back_ok(g, node.inputs@, node.op->Device_0)
}

/// The work that sets the gradient of the loss to one.
pub open spec fn fill_steps<T: Scalar>(g: Graph<T>, loss: usize) -> Seq<Step<T>> {
    match g.tensors@[loss as int].grad {
        Storage::Gpu(b) => call_steps(
            seq![],
            Kernel::FillF32,
            seq![Arg::Grad(loss), Arg::Real(T::spec_one()), Arg::Size(b.len as u64)],
            dims_for(b.len as u32),
        ),
        Storage::GpuBf16(b) => call_steps(
            seq![],
            Kernel::FillBf16,
            seq![Arg::Grad(loss), Arg::Half(0x3f80), Arg::Size(b.len as u64)],
            dims_for(b.len as u32),
        ),
        _ => seq![],
    }
}

/// The device memory that kernels need free, in bytes.
pub open spec fn scratch_bytes<T: Scalar>(g: Graph<T>) -> int {
    match g.scratch_budget_mb {
        Some(m) => m * 0x10_0000,
        None => 0x400_0000,
    }
}

/// The device memory that is free: what the budget leaves, or what the driver says.
pub open spec fn free_bytes<T: Scalar>(g: Graph<T>, driver: usize) -> int {
    match g.vram_budget_bytes {
        Some(b) => if g.usage() <= b {
            b - g.usage()
        } else {
            0
        },
        None => driver as int,
    }
}

/// The tensors that can be moved to the host.
pub open spec fn victims<T: Scalar>(g: Graph<T>) -> Seq<usize> {
    picked(|i: int| demotable(g, i), g.tensors@.len())
}

/// The next stage where tensors are being moved to the host, `next` of them so far, and what is
/// done for it.
pub open spec fn evict_step<T: Scalar>(
    g: Graph<T>,
    candidates: Seq<usize>,
    next: usize,
    driver: usize,
    first: usize,
) -> (BackStage, BackAction<T>) {
    if free_bytes(g, driver) >= scratch_bytes(g) {
        (BackStage::Bring(1), BackAction::Bring(first))
    } else if next < candidates.len() {
        (BackStage::Evict((next + 1) as usize), BackAction::Demote(candidates[next as int]))
    } else {
        (BackStage::Bring(0), BackAction::Warn)
    }
}

impl Rewind {
    /// The stage fits the tape.
    pub open spec fn wf<T: Scalar>(&self, g: Graph<T>) -> bool {
        &&& self.left <= g.tape.nodes@.len()
        &&& self.loss_id < g.tensors@.len()
        &&& match self.stage {
            BackStage::Loss => true,
            BackStage::Fill => true,
            BackStage::Enter => true,
            BackStage::Grads(i) => self.left > 0 && i <= needed(self.node(g)).len(),
            BackStage::Bring(i) => self.left > 0 && i <= needed(self.node(g)).len(),
            BackStage::Evict(i) => self.left > 0 && i <= self.candidates@.len(),
            _ => self.left > 0,
        }
        &&& forall|i: int|
            0 <= i < g.tape.nodes@.len() ==> device_node(g, #[trigger] g.tape.nodes@[i])
    }

    /// The current operation.
    pub open spec fn node<T: Scalar>(&self, g: Graph<T>) -> TapeNode<T> {
        g.tape.nodes@[self.left - 1]
    }

    /// How much is left of the way, stage by stage.
    pub open spec fn to_go<T: Scalar>(&self, g: Graph<T>) -> (int, int, int) {
        let n = needed(self.node(g)).len();
        match self.stage {
            BackStage::Loss => (self.left + 2, 0, 0),
            BackStage::Fill => (self.left + 1, 0, 0),
            BackStage::Enter => (self.left as int, 7, 0),
            BackStage::Grads(i) => (self.left as int, 6, n - i),
            BackStage::Room => (self.left as int, 5, 0),
            BackStage::Evict(i) => (self.left as int, 4, self.candidates@.len() - i),
            BackStage::Bring(i) => (self.left as int, 3, n - i),
            BackStage::Work => (self.left as int, 2, 0),
            BackStage::After => (self.left as int, 1, 0),
        }
    }
}

/// The first is below the second, place by place.
pub open spec fn lower(x: (int, int, int), y: (int, int, int)) -> bool {
    &&& 0 <= x.0 && 0 <= x.1 && 0 <= x.2
    &&& x.0 < y.0 || (x.0 == y.0 && (x.1 < y.1 || (x.1 == y.1 && x.2 < y.2)))
}

/// Everything but the list of held tensors is the same.
pub open spec fn only_active<T: Scalar>(x: Graph<T>, y: Graph<T>) -> bool {
    &&& x.tensors == y.tensors
    &&& x.tape == y.tape
    &&& x.vram_pool == y.vram_pool
    &&& x.vram_pool_bf16 == y.vram_pool_bf16
    &&& x.forward_tensor_ids == y.forward_tensor_ids
    &&& x.device == y.device
    &&& x.num_params == y.num_params
    &&& x.no_grad == y.no_grad
    &&& x.precision_mode == y.precision_mode
    &&& x.vram_budget_bytes == y.vram_budget_bytes
    &&& x.scratch_budget_mb == y.scratch_budget_mb
}

impl<T: Scalar> Graph<T> {
    /// Starts the way back on the device.
    pub fn backward_on_device(&self, loss_id: usize) -> (r: Rewind)
        requires
            self.device == Device::Gpu,
        ensures
            r.loss_id == loss_id,
            r.left == self.tape.nodes@.len(),
            r.stage == BackStage::Loss,
    {
        Rewind {
            loss_id,
            left: self.tape.nodes.len(),
            stage: BackStage::Loss,
            candidates: Vec::new(),
        }
    }

    /// The device memory that is free, given what the driver says.
    pub fn free_vram(&self, driver: usize) -> (r: usize)
        requires
            self.usage() <= usize::MAX,
        ensures
            r == free_bytes(*self, driver),
    {
        match self.vram_budget_bytes {
            Some(b) => {
                let used: usize = self.current_vram_usage();
                if used <= b {
                    b - used
                } else {
                    0
                }
            },
            None => driver,
        }
    }

    fn scratch_needed(&self) -> (r: usize)
        requires
            scratch_bytes(*self) <= usize::MAX,
        ensures
            r == scratch_bytes(*self),
    {
        let m: usize = match self.scratch_budget_mb {
            Some(m) => m,
            None => 64,
        };
        m * 0x10_0000
    }

    fn fill_work(&self, loss: usize) -> (r: Vec<Step<T>>)
        requires
            loss < self.tensors@.len(),
        ensures
            r@ == fill_steps(*self, loss),
    {
        let mut s: Vec<Step<T>> = Vec::new();
        match &self.tensors[loss].grad {
            Storage::Gpu(b) => {
                let n: usize = b.len;
                call(
                    &mut s,
                    Kernel::FillF32,
                    &vec![Arg::Grad(loss), Arg::Real(T::one()), Arg::Size(n as u64)],
                    elementwise_launch(n),
                );
            },
            Storage::GpuBf16(b) => {
                let n: usize = b.len;
                call(
                    &mut s,
                    Kernel::FillBf16,
                    &vec![Arg::Grad(loss), Arg::Half(0x3f80), Arg::Size(n as u64)],
                    elementwise_launch(n),
                );
            },
            _ => {},
        }
        s
    }

    fn is_on_gpu(&self, id: usize) -> (r: bool)
        requires
            id < self.tensors@.len(),
        ensures
            r == on_gpu(kind_of(*self, id)),
    {
        in_device_memory(self.tensors[id].data.kind())
    }

    fn can_go_back(&self, node: &TapeNode<T>) -> (r: bool)
        requires
            device_node(*self, *node),
        ensures
            r == kinds_ok(*self, *node),
    {
        let d = match &node.op {
            Op::Device(d) => *d,
            _ => {
                return false;
            },
        };
        let a_id: usize = node.inputs[0];
        let b_id: usize = if node.inputs.len() > 1 {
            node.inputs[1]
        } else {
            a_id
        };
        let a: bool = self.is_on_gpu(a_id);
        let b: bool = self.is_on_gpu(b_id);
        let a_half: bool = self.tensors[a_id].data.kind() == StorageKind::GpuBf16;
        let b_half: bool = self.tensors[b_id].data.kind() == StorageKind::GpuBf16;
        match d {
            DeviceOp::Mul { .. } => a && b && (!b_half || a_half),
            DeviceOp::Silu { half, .. } => a && (half || !a_half),
            DeviceOp::RmsNorm { .. } => a && b && (!a_half || b_half),
            DeviceOp::Softmax { .. } => self.is_on_gpu(node.output),
            DeviceOp::Streamed { .. } => a && !b,
            DeviceOp::StreamedTransB { .. } => a && !b,
            DeviceOp::Matmul { .. } => a && b,
            DeviceOp::MatmulTransB { .. } => a && b,
            DeviceOp::MatmulBf16 { .. } => a && b,
            DeviceOp::Bmm { .. } => a && b,
            DeviceOp::Max { .. } => a,
            DeviceOp::CrossEntropy { .. } => a,
            DeviceOp::Gather { .. } => b,
            _ => true,
        }
    }

    fn work_of(&self, node: &TapeNode<T>) -> (r: Vec<Step<T>>)
        requires
            device_node(*self, *node),
        ensures
            r@ == back_steps(*self, node.inputs@, node.output, node.op->Device_0),
    {
        match &node.op {
            Op::Device(d) => self.node_back_steps(&node.inputs, node.output, *d),
            _ => Vec::new(),
        }
    }

    /// Goes on with the way back once what was to be done has been done. `driver` is the device
    /// memory that the driver says is free. First the loss gets a gradient of one. Then, from the
    /// last recorded operation to the first: its tensors are held, get gradients, room is made for
    /// its kernels by moving other activations to the host, its tensors are brought to the device,
    /// and its work is done.
    pub fn backward_next(&mut self, r: &mut Rewind, driver: usize) -> (action: BackAction<T>)
        requires
            old(r).wf(*old(self)),
            old(self).usage() <= usize::MAX,
            scratch_bytes(*old(self)) <= usize::MAX,
        ensures
            final(r).wf(*final(self)),
            final(r).loss_id == old(r).loss_id,
            only_active(*final(self), *old(self)),
            action is Done || action is Unsupported || lower(
                final(r).to_go(*final(self)),
                old(r).to_go(*old(self)),
            ),
            old(r).stage is Enter || final(self).active_node_tensors == old(
                self,
            ).active_node_tensors,
            old(r).stage is After || final(r).left == old(r).left,
            match old(r).stage {
                BackStage::Loss => if old(self).no_grad {
                    &&& action is Done
                    &&& final(r).stage == old(r).stage
                } else {
                    &&& action == BackAction::<T>::Grad(old(r).loss_id)
                    &&& final(r).stage == BackStage::Fill
                },
                BackStage::Fill => {
                    &&& action is Run
                    &&& action->Run_0@ == fill_steps(*old(self), old(r).loss_id)
                    &&& final(r).stage == BackStage::Enter
                },
                BackStage::Enter => if old(r).left == 0 {
                    &&& action is Done
                    &&& final(r).stage == old(r).stage
                    &&& final(self).active_node_tensors@.len() == 0
                } else {
                    let node = old(r).node(*old(self));
                    &&& action == BackAction::<T>::Grad(node.output)
                    &&& final(r).stage == BackStage::Grads(1)
                    &&& final(self).active_node_tensors@ == node.inputs@.push(node.output)
                },
                BackStage::Grads(i) => {
                    let ids = needed(old(r).node(*old(self)));
                    if i < ids.len() {
                        &&& action == BackAction::<T>::Grad(ids[i as int])
                        &&& final(r).stage == BackStage::Grads((i + 1) as usize)
                    } else {
                        &&& action is AskFree
                        &&& final(r).stage == BackStage::Room
                    }
                },
                BackStage::Room => {
                    let (stage, what) = evict_step(
                        *old(self),
                        victims(*old(self)),
                        0,
                        driver,
                        old(r).node(*old(self)).output,
                    );
                    &&& action == what
                    &&& final(r).stage == stage
                    &&& stage is Evict ==> final(r).candidates@ == victims(*old(self))
                },
                BackStage::Evict(i) => {
                    let (stage, what) = evict_step(
                        *old(self),
                        old(r).candidates@,
                        i,
                        driver,
                        old(r).node(*old(self)).output,
                    );
                    &&& action == what
                    &&& final(r).stage == stage
                    &&& final(r).candidates == old(r).candidates
                },
                BackStage::Bring(i) => {
                    let ids = needed(old(r).node(*old(self)));
                    if i < ids.len() {
                        &&& action == BackAction::<T>::Bring(ids[i as int])
                        &&& final(r).stage == BackStage::Bring((i + 1) as usize)
                    } else {
                        &&& action is Sync
                        &&& final(r).stage == BackStage::Work
                    }
                },
                BackStage::Work => {
                    let node = old(r).node(*old(self));
                    if kinds_ok(*old(self), node) {
                        &&& action is Run
                        &&& action->Run_0@ == back_steps(
                            *old(self),
                            node.inputs@,
                            node.output,
                            node.op->Device_0,
                        )
                        &&& final(r).stage == BackStage::After
                    } else {
                        &&& action is Unsupported
                        &&& final(r).stage == old(r).stage
                    }
                },
                BackStage::After => {
                    &&& action is Sync
                    &&& final(r).stage == BackStage::Enter
                    &&& final(r).left == old(r).left - 1
                },
            },
    {
        proof {
            if r.left > 0 {
                assert(device_node(*self, self.tape.nodes@[r.left - 1]));
            }
        }
        match r.stage {
            BackStage::Loss => {
                if self.no_grad {
                    return BackAction::Done;
                }
                r.stage = BackStage::Fill;
                BackAction::Grad(r.loss_id)
            },
            BackStage::Fill => {
                r.stage = BackStage::Enter;
                BackAction::Run(self.fill_work(r.loss_id))
            },
            BackStage::Enter => {
                self.active_node_tensors.clear();
                if r.left == 0 {
                    return BackAction::Done;
                }
                self.hold_tensors(r.left - 1);
                r.stage = BackStage::Grads(1);
                BackAction::Grad(self.tape.nodes[r.left - 1].output)
            },
            BackStage::Grads(i) => {
                let ids = self.needed_ids(r.left - 1);
                if i < ids.len() {
                    r.stage = BackStage::Grads(i + 1);
                    BackAction::Grad(ids[i])
                } else {
                    r.stage = BackStage::Room;
                    BackAction::AskFree
                }
            },
            BackStage::Room => {
                r.candidates = self.demotion_candidates();
                self.evict_or_bring(r, 0, driver)
            },
            BackStage::Evict(i) => self.evict_or_bring(r, i, driver),
            BackStage::Bring(i) => {
                let ids = self.needed_ids(r.left - 1);
                if i < ids.len() {
                    r.stage = BackStage::Bring(i + 1);
                    BackAction::Bring(ids[i])
                } else {
                    r.stage = BackStage::Work;
                    BackAction::Sync
                }
            },
            BackStage::Work => {
                let node = &self.tape.nodes[r.left - 1];
                if self.can_go_back(node) {
                    r.stage = BackStage::After;
                    BackAction::Run(self.work_of(node))
                } else {
                    BackAction::Unsupported
                }
            },
            BackStage::After => {
                r.stage = BackStage::Enter;
                r.left = r.left - 1;
                BackAction::Sync
            },
        }
    }

    fn evict_or_bring(&self, r: &mut Rewind, next: usize, driver: usize) -> (action: BackAction<T>)
        requires
            old(r).wf(*self),
            old(r).left > 0,
            next <= old(r).candidates@.len(),
            self.usage() <= usize::MAX,
            scratch_bytes(*self) <= usize::MAX,
        ensures
            final(r).wf(*self),
            final(r).loss_id == old(r).loss_id,
            final(r).left == old(r).left,
            final(r).candidates == old(r).candidates,
            final(r).stage is Evict ==> next < usize::MAX,
            (final(r).stage, action) == evict_step(
                *self,
                old(r).candidates@,
                next,
                driver,
                old(r).node(*self).output,
            ),
    {
        assert(device_node(*self, self.tape.nodes@[r.left - 1]));
        if self.free_vram(driver) >= self.scratch_needed() {
            r.stage = BackStage::Bring(1);
            BackAction::Bring(self.tape.nodes[r.left - 1].output)
        } else if next < r.candidates.len() {
            r.stage = BackStage::Evict(next + 1);
            BackAction::Demote(r.candidates[next])
        } else {
            r.stage = BackStage::Bring(0);
            BackAction::Warn
        }
    }

    fn hold_tensors(&mut self, at: usize)
        requires
            at < old(self).tape.nodes@.len(),
            old(self).active_node_tensors@.len() == 0,
        ensures
            only_active(*final(self), *old(self)),
            final(self).active_node_tensors@ == old(self).tape.nodes@[at as int].inputs@.push(
                old(self).tape.nodes@[at as int].output,
            ),
    {
        let mut i: usize = 0;
        let ghost ids = self.tape.nodes@[at as int].inputs@;
        while i < self.tape.nodes[at].inputs.len()
            invariant
                at < self.tape.nodes@.len(),
                ids == self.tape.nodes@[at as int].inputs@,
                i <= ids.len(),
                only_active(*self, *old(self)),
                self.active_node_tensors@ == ids.take(i as int),
            decreases ids.len() - i,
        {
            let id: usize = self.tape.nodes[at].inputs[i];
            self.active_node_tensors.push(id);
            assert(self.active_node_tensors@ =~= ids.take(i + 1));
            i += 1;
        }
        let out: usize = self.tape.nodes[at].output;
        self.active_node_tensors.push(out);
        assert(ids.take(ids.len() as int) =~= ids);
    }

    fn needed_ids(&self, at: usize) -> (r: Vec<usize>)
        requires
            at < self.tape.nodes@.len(),
            self.tape.nodes@[at as int].inputs@.len() >= 1,
        ensures
            r@ == needed(self.tape.nodes@[at as int]),
    {
        let node = &self.tape.nodes[at];
        let mut r: Vec<usize> = Vec::new();
        r.push(node.output);
        let streamed: bool = match &node.op {
            Op::Device(d) => match d {
                DeviceOp::Streamed { .. } => true,
                DeviceOp::StreamedTransB { .. } => true,
                _ => false,
            },
            _ => false,
        };
        if streamed {
            r.push(node.inputs[0]);
            assert(r@ =~= seq![node.output, node.inputs@[0]]);
            return r;
        }
        let mut i: usize = 0;
        while i < node.inputs.len()
            invariant
                i <= node.inputs@.len(),
                r@ == seq![node.output] + node.inputs@.take(i as int),
            decreases node.inputs@.len() - i,
        {
            r.push(node.inputs[i]);
            assert(r@ =~= seq![node.output] + node.inputs@.take(i + 1));
            i += 1;
        }
        assert(node.inputs@.take(node.inputs@.len() as int) =~= node.inputs@);
        r
    }
}

/// While an operation is gone back through, none of the tensors that it needs is moved to the host.
pub proof fn needed_tensors_stay<T: Scalar>(g: Graph<T>, node: TapeNode<T>, id: usize)
    requires
        device_node(g, node),
        g.tensors@.len() <= usize::MAX,
        g.active_node_tensors@ == node.inputs@.push(node.output),
        needed(node).contains(id),
    ensures
        !victims(g).contains(id),
{
    let held = g.active_node_tensors@;
    let i = choose|i: int| 0 <= i < needed(node).len() && needed(node)[i] == id;
    if i == 0 {
        assert(held[node.inputs@.len() as int] == id);
    } else {
        assert(node.inputs@.len() > 0);
        assert(held[i - 1] == id);
    }
    assert(held.contains(id));
    if victims(g).contains(id) {
        let k = choose|k: int| 0 <= k < victims(g).len() && victims(g)[k] == id;
        lemma_picked(|j: int| demotable(g, j), g.tensors@.len(), k);
    }
}

} // verus!
