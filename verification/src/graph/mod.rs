//! The graph: tensors, the tape of operations on them, and the free device buffers.
pub mod backward;
pub mod checks;
pub mod device;
pub mod device_backward;
pub mod differential;
pub mod host;
pub mod host_laws;
pub mod index;
pub mod kernel;
pub mod launch;
pub mod laws;
pub mod memory;
pub mod operations;
pub mod ops;
pub mod plan;
pub mod planner;
pub mod pool;
pub mod report;
pub mod rewind;
pub mod rope_laws;
pub mod rounding;
pub mod row_laws;
pub mod settings;
pub mod streaming;
pub mod tape_checks;
pub mod value_laws;

use crate::graph::pool::Pool;
use crate::graph::settings::PrecisionMode;
use crate::scalar::Scalar;
use crate::tape::{Tape, TapeNode};
use crate::tensor::{
    copy_of, element_count, fetches, filled, halves_of, product, shape_fits, strides_of, to_halves,
    Device, DeviceBuffer, Fetch, Storage, Tensor,
};
use vstd::prelude::*;

verus! {

/// Tensors and what has been done with them.
pub struct Graph<T: Scalar> {
    /// All tensors. The number of a tensor is its place here.
    pub tensors: Vec<Tensor<T>>,
    /// The operations so far.
    pub tape: Tape<T>,
    /// Where tensors live.
    pub device: Device,
    /// Free device buffers in full precision.
    pub vram_pool: Pool,
    /// Free device buffers of 16 bits an element.
    pub vram_pool_bf16: Pool,
    /// The activations of the forward pass.
    pub forward_tensor_ids: Vec<usize>,
    /// How many of the first tensors are parameters.
    pub num_params: usize,
    /// Whether operations are left unrecorded.
    pub no_grad: bool,
    pub precision_mode: PrecisionMode,
    /// The tensors that the current step of the way back holds on to.
    pub active_node_tensors: Vec<usize>,
    /// The device memory that may be used, in bytes.
    pub vram_budget_bytes: Option<usize>,
    /// The device memory that kernels need free, in mebibytes.
    pub scratch_budget_mb: Option<usize>,
}

/// What is left to do on the device for elements to be loaded.
pub enum Load {
    /// Nothing.
    Done,
    /// To copy the elements as they are.
    Full(DeviceBuffer),
    /// To copy these halves.
    Half(DeviceBuffer, Vec<u16>),
}

/// Everything but the tensors is the same.
pub open spec fn only_tensors<T: Scalar>(x: Graph<T>, y: Graph<T>) -> bool {
    &&& x.tape == y.tape
    &&& only_tensors_and_tape(x, y)
}

/// Everything but the tensors and the tape is the same.
pub open spec fn only_tensors_and_tape<T: Scalar>(x: Graph<T>, y: Graph<T>) -> bool {
    &&& x.vram_pool == y.vram_pool
    &&& x.vram_pool_bf16 == y.vram_pool_bf16
    &&& x.forward_tensor_ids == y.forward_tensor_ids
    &&& same_settings(x, y)
}

/// The device, the settings and the number of parameters are the same.
pub open spec fn same_settings<T: Scalar>(x: Graph<T>, y: Graph<T>) -> bool {
    &&& x.device == y.device
    &&& x.num_params == y.num_params
    &&& x.no_grad == y.no_grad
    &&& x.precision_mode == y.precision_mode
    &&& x.active_node_tensors == y.active_node_tensors
    &&& x.vram_budget_bytes == y.vram_budget_bytes
    &&& x.scratch_budget_mb == y.scratch_budget_mb
}

/// `n` zeros.
pub open spec fn zeros<T: Scalar>(n: nat) -> Seq<T> {
    Seq::new(n, |i: int| T::spec_zero())
}

/// A tensor whose shape, strides and gradient go together.
pub open spec fn made<T: Scalar>(t: Tensor<T>, id: int, shape: Seq<usize>, pooled: bool) -> bool {
    &&& t.id == id
    &&& t.shape@ == shape
    &&& t.strides@ == strides_of(shape)
    &&& t.name is None
    &&& t.is_pooled == pooled
}

/// A tensor on the host with these elements and a gradient of zeros.
pub open spec fn host_tensor<T: Scalar>(
    t: Tensor<T>,
    id: int,
    shape: Seq<usize>,
    values: Seq<T>,
) -> bool {
    &&& made(t, id, shape, false)
    &&& !t.is_param
    &&& t.data is Cpu
    &&& t.data->Cpu_0@ == values
    &&& t.grad is Cpu
    &&& t.grad->Cpu_0@ == zeros::<T>(product(shape))
}

/// The entries that a tensor gives back to the pool of full precision.
pub open spec fn full_entries<T: Scalar>(t: Tensor<T>) -> Seq<(usize, DeviceBuffer)> {
    let size = product(t.shape@) as usize;
    let g = match t.grad {
        Storage::Gpu(b) => seq![(size, b)],
        _ => Seq::empty(),
    };
    let d = match t.data {
        Storage::Gpu(b) => seq![(size, b)],
        _ => Seq::empty(),
    };
    if t.is_pooled {
        g + d
    } else {
        Seq::empty()
    }
}

/// The entries that a tensor gives back to the pool of halves.
pub open spec fn half_entries<T: Scalar>(t: Tensor<T>) -> Seq<(usize, DeviceBuffer)> {
    match t.data {
        Storage::GpuBf16(b) => if t.is_pooled {
            seq![(product(t.shape@) as usize, b)]
        } else {
            Seq::empty()
        },
        _ => Seq::empty(),
    }
}

/// What the tensors from `n` on give back, the last first.
pub open spec fn reclaimed<T: Scalar>(
    ts: Seq<Tensor<T>>,
    of: spec_fn(Tensor<T>) -> Seq<(usize, DeviceBuffer)>,
    n: int,
) -> Seq<(usize, DeviceBuffer)>
    decreases ts.len() - n,
{
    if n >= ts.len() || n < 0 {
        Seq::empty()
    } else {
        reclaimed(ts, of, n + 1) + of(ts[n])
    }
}

/// The smaller of two numbers.
pub open spec fn min_of(a: int, b: int) -> int {
    if a <= b {
        a
    } else {
        b
    }
}

impl<T: Scalar> Graph<T> {
    /// Tensors have the numbers of their places, and shapes that can be counted.
    pub open spec fn wf(&self) -> bool {
        forall|i: int|
            0 <= i < self.tensors@.len() ==> {
                &&& (#[trigger] self.tensors@[i]).id == i
                &&& self.tensors@[i].shape_wf()
            }
    }

    /// Gradients are in full precision, those on the host and those on the device.
    pub open spec fn full_grads(&self) -> bool {
        forall|i: int|
            0 <= i < self.tensors@.len() ==> {
                ||| (#[trigger] self.tensors@[i]).grad is Cpu
                ||| self.tensors@[i].grad is Gpu
            }
    }

    /// Whether mixed precision is in use.
    pub open spec fn mixed(&self) -> bool {
        self.precision_mode == PrecisionMode::Bf16Mixed
    }

    /// A graph without tensors.
    pub fn new(
        device: Device,
        precision_mode: PrecisionMode,
        vram_budget_bytes: Option<usize>,
        scratch_budget_mb: usize,
    ) -> (r: Self)
        ensures
            r.wf(),
            r.tensors@.len() == 0,
            r.tape.nodes@.len() == 0,
            r.device == device,
            r.vram_pool.entries@.len() == 0,
            r.vram_pool_bf16.entries@.len() == 0,
            r.forward_tensor_ids@.len() == 0,
            r.num_params == 0,
            !r.no_grad,
            r.precision_mode == precision_mode,
            r.active_node_tensors@.len() == 0,
            r.vram_budget_bytes == vram_budget_bytes,
            r.scratch_budget_mb == Some(scratch_budget_mb),
    {
        Graph {
            tensors: Vec::new(),
            tape: Tape::new(),
            device,
            vram_pool: Pool::new(),
            vram_pool_bf16: Pool::new(),
            forward_tensor_ids: Vec::new(),
            num_params: 0,
            no_grad: false,
            precision_mode,
            active_node_tensors: Vec::new(),
            vram_budget_bytes,
            scratch_budget_mb: Some(scratch_budget_mb),
        }
    }

    /// The precision in use.
    pub fn precision_mode(&self) -> (r: PrecisionMode)
        ensures
            r == self.precision_mode,
    {
        self.precision_mode
    }

    /// Whether mixed precision is in use.
    pub fn uses_bf16_mixed_precision(&self) -> (r: bool)
        ensures
            r == self.mixed(),
    {
        self.precision_mode == PrecisionMode::Bf16Mixed
    }

    /// Gives a tensor a name.
    pub fn name_tensor(&mut self, id: usize, name: &str)
        requires
            id < old(self).tensors@.len(),
        ensures
            only_tensors(*final(self), *old(self)),
            final(self).tensors@.len() == old(self).tensors@.len(),
            final(self).tensors@[id as int].name matches Some(s) && s@ == name@,
            final(self).tensors@[id as int].id == old(self).tensors@[id as int].id,
            final(self).tensors@[id as int].shape == old(self).tensors@[id as int].shape,
            final(self).tensors@[id as int].strides == old(self).tensors@[id as int].strides,
            final(self).tensors@[id as int].data == old(self).tensors@[id as int].data,
            final(self).tensors@[id as int].grad == old(self).tensors@[id as int].grad,
            final(self).tensors@[id as int].device == old(self).tensors@[id as int].device,
            final(self).tensors@[id as int].is_pooled == old(self).tensors@[id as int].is_pooled,
            final(self).tensors@[id as int].is_param == old(self).tensors@[id as int].is_param,
            forall|i: int|
                0 <= i < old(self).tensors@.len() && i != id ==> #[trigger] final(self).tensors@[i]
                    == old(self).tensors@[i],
            old(self).wf() ==> final(self).wf(),
            old(self).full_grads() ==> final(self).full_grads(),
    {
        self.tensors[id].name = Some(name.to_string());
    }

    /// Counts all tensors so far as parameters.
    pub fn mark_params(&mut self)
        ensures
            final(self).num_params == old(self).tensors@.len(),
            final(self).tensors == old(self).tensors,
            final(self).tape == old(self).tape,
            final(self).device == old(self).device,
            final(self).vram_pool == old(self).vram_pool,
            final(self).vram_pool_bf16 == old(self).vram_pool_bf16,
            final(self).forward_tensor_ids == old(self).forward_tensor_ids,
            final(self).no_grad == old(self).no_grad,
            final(self).precision_mode == old(self).precision_mode,
            final(self).active_node_tensors == old(self).active_node_tensors,
            final(self).vram_budget_bytes == old(self).vram_budget_bytes,
            final(self).scratch_budget_mb == old(self).scratch_budget_mb,
    {
        self.num_params = self.tensors.len();
    }

    /// The number of tensors, to come back to.
    pub fn mark_save_point(&self) -> (r: usize)
        ensures
            r == self.tensors@.len(),
    {
        self.tensors.len()
    }

    /// Makes a tensor on the host. Its elements are taken as they are: that there are as many as
    /// the shape says is for the operations on it to ask.
    pub fn alloc_tensor(&mut self, shape: Vec<usize>, data: Vec<T>) -> (id: usize)
        requires
            old(self).device == Device::Cpu,
            shape_fits(shape@),
        ensures
            id == old(self).tensors@.len(),
            final(self).tensors@.len() == id + 1,
            final(self).tensors@.take(id as int) == old(self).tensors@,
            host_tensor(final(self).tensors@[id as int], id as int, shape@, data@),
            final(self).tensors@[id as int].device == Device::Cpu,
            only_tensors(*final(self), *old(self)),
            old(self).wf() ==> final(self).wf(),
            old(self).full_grads() ==> final(self).full_grads(),
    {
        let id: usize = self.tensors.len();
        let t = Tensor::new(id, shape, data);
        self.tensors.push(t);
        assert(self.tensors@.take(id as int) =~= old(self).tensors@);
        assert(old(self).wf() ==> self.wf()) by {
            lemma_pushed_wf(*old(self), *self);
        }
        id
    }

    /// Makes a tensor on the device out of buffers for its elements and its gradient.
    pub fn alloc_on_device(
        &mut self,
        shape: Vec<usize>,
        data: DeviceBuffer,
        grad: DeviceBuffer,
    ) -> (id: usize)
        requires
            old(self).device == Device::Gpu,
            shape_fits(shape@),
        ensures
            id == old(self).tensors@.len(),
            final(self).tensors@.len() == id + 1,
            final(self).tensors@.take(id as int) == old(self).tensors@,
            made(final(self).tensors@[id as int], id as int, shape@, false),
            !final(self).tensors@[id as int].is_param,
            final(self).tensors@[id as int].data == Storage::<T>::Gpu(data),
            final(self).tensors@[id as int].grad == Storage::<T>::Gpu(grad),
            final(self).tensors@[id as int].device == Device::Gpu,
            only_tensors(*final(self), *old(self)),
            old(self).wf() ==> final(self).wf(),
            old(self).full_grads() ==> final(self).full_grads(),
    {
        self.push_tensor(shape, Storage::Gpu(data), Storage::Gpu(grad), false, false)
    }

    /// Makes a parameter of 16 bits an element on the device, with a gradient in full precision.
    pub fn alloc_param_bf16(
        &mut self,
        shape: Vec<usize>,
        data: DeviceBuffer,
        grad: DeviceBuffer,
    ) -> (id: usize)
        requires
            old(self).device == Device::Gpu,
            shape_fits(shape@),
        ensures
            id == old(self).tensors@.len(),
            final(self).tensors@.len() == id + 1,
            final(self).tensors@.take(id as int) == old(self).tensors@,
            made(final(self).tensors@[id as int], id as int, shape@, false),
            final(self).tensors@[id as int].is_param,
            final(self).tensors@[id as int].data == Storage::<T>::GpuBf16(data),
            final(self).tensors@[id as int].grad == Storage::<T>::Gpu(grad),
            final(self).tensors@[id as int].device == Device::Gpu,
            only_tensors(*final(self), *old(self)),
            old(self).wf() ==> final(self).wf(),
            old(self).full_grads() ==> final(self).full_grads(),
    {
        self.push_tensor(shape, Storage::GpuBf16(data), Storage::Gpu(grad), false, true)
    }

    /// Makes a tensor that stays on the host, whatever the device of the graph.
    pub fn alloc_cpu_homed(&mut self, shape: Vec<usize>, data: Vec<T>) -> (id: usize)
        requires
            shape_fits(shape@),
        ensures
            id == old(self).tensors@.len(),
            final(self).tensors@.len() == id + 1,
            final(self).tensors@.take(id as int) == old(self).tensors@,
            host_tensor(final(self).tensors@[id as int], id as int, shape@, data@),
            final(self).tensors@[id as int].device == old(self).device,
            only_tensors(*final(self), *old(self)),
            old(self).wf() ==> final(self).wf(),
            old(self).full_grads() ==> final(self).full_grads(),
    {
        let size: usize = element_count(shape.as_slice());
        self.push_tensor(
            shape,
            Storage::Cpu(data),
            Storage::Cpu(filled(T::zero(), size)),
            false,
            false,
        )
    }

    fn push_tensor(
        &mut self,
        shape: Vec<usize>,
        data: Storage<T>,
        grad: Storage<T>,
        is_pooled: bool,
        is_param: bool,
    ) -> (id: usize)
        requires
            shape_fits(shape@),
        ensures
            id == old(self).tensors@.len(),
            final(self).tensors@.len() == id + 1,
            final(self).tensors@.take(id as int) == old(self).tensors@,
            made(final(self).tensors@[id as int], id as int, shape@, is_pooled),
            final(self).tensors@[id as int].is_param == is_param,
            final(self).tensors@[id as int].data == data,
            final(self).tensors@[id as int].grad == grad,
            final(self).tensors@[id as int].device == old(self).device,
            only_tensors(*final(self), *old(self)),
            old(self).wf() ==> final(self).wf(),
            old(self).full_grads() && (grad is Cpu || grad is Gpu) ==> final(self).full_grads(),
    {
        let id: usize = self.tensors.len();
        let strides = Tensor::<T>::compute_strides(shape.as_slice());
        self.tensors.push(
            Tensor {
                id,
                shape,
                strides,
                data,
                grad,
                device: self.device,
                name: None,
                is_pooled,
                is_param,
            },
        );
        assert(self.tensors@.take(id as int) =~= old(self).tensors@);
        assert(old(self).wf() ==> self.wf()) by {
            lemma_pushed_wf(*old(self), *self);
        }
        id
    }

    /// Makes an activation on the host, of zeros.
    pub fn alloc_pooled(&mut self, shape: Vec<usize>) -> (id: usize)
        requires
            old(self).device == Device::Cpu,
            old(self).vram_pool.entries@.len() == 0,
            shape_fits(shape@),
        ensures
            id == old(self).tensors@.len(),
            final(self).tensors@.len() == id + 1,
            final(self).tensors@.take(id as int) == old(self).tensors@,
            made(final(self).tensors@[id as int], id as int, shape@, true),
            !final(self).tensors@[id as int].is_param,
            match final(self).tensors@[id as int].data {
                Storage::Cpu(v) => !old(self).mixed() && v@ == zeros::<T>(product(shape@)),
                Storage::CpuBf16(v) => old(self).mixed() && v@ == Seq::new(
                    product(shape@),
                    |i: int| 0u16,
                ),
                _ => false,
            },
            final(self).tensors@[id as int].grad is Cpu,
            final(self).tensors@[id as int].grad.values() == zeros::<T>(product(shape@)),
            final(self).tensors@[id as int].device == Device::Cpu,
            only_tensors(*final(self), *old(self)),
            old(self).wf() ==> final(self).wf(),
            old(self).full_grads() ==> final(self).full_grads(),
    {
        let size: usize = element_count(shape.as_slice());
        let data: Storage<T> = if self.uses_bf16_mixed_precision() {
            Storage::CpuBf16(zero_halves(size))
        } else {
            Storage::Cpu(filled(T::zero(), size))
        };
        self.push_tensor(shape, data, Storage::Cpu(filled(T::zero(), size)), true, false)
    }

    /// Takes a buffer for the elements of an activation of `size` elements out of the pool: that of
    /// halves in mixed precision, else that of full precision. Where there is none, a fresh one is
    /// needed.
    pub fn cached_buffer(&mut self, size: usize) -> (r: Option<DeviceBuffer>)
        requires
            old(self).device == Device::Gpu,
        ensures
            final(self).tensors == old(self).tensors,
            final(self).tape == old(self).tape,
            final(self).forward_tensor_ids == old(self).forward_tensor_ids,
            same_settings(*final(self), *old(self)),
            old(self).mixed() ==> final(self).vram_pool == old(self).vram_pool,
            !old(self).mixed() ==> final(self).vram_pool_bf16 == old(self).vram_pool_bf16,
            ({
                let before = if old(self).mixed() {
                    old(self).vram_pool_bf16
                } else {
                    old(self).vram_pool
                };
                let after = if old(self).mixed() {
                    final(self).vram_pool_bf16
                } else {
                    final(self).vram_pool
                };
                &&& match r {
                    None => before.stack(size).len() == 0 && after.entries@ == before.entries@,
                    Some(b) => {
                        &&& before.stack(size).len() > 0
                        &&& b == before.stack(size).last()
                        &&& after.stack(size) == before.stack(size).drop_last()
                        &&& after.elements() == before.elements() - size
                    },
                }
                &&& forall|other: usize|
                    other != size ==> #[trigger] after.stack(other) == before.stack(other)
            }),
    {
        if self.uses_bf16_mixed_precision() {
            self.vram_pool_bf16.pop(size)
        } else {
            self.vram_pool.pop(size)
        }
    }

    /// Takes a buffer for the gradient of an activation of `size` elements out of the pool of full
    /// precision. Where there is none, a fresh one is needed; one from the pool still holds what it
    /// was used for, see [`Graph::grad_zeroing`].
    pub fn cached_grad(&mut self, size: usize) -> (r: Option<DeviceBuffer>)
        requires
            old(self).device == Device::Gpu,
        ensures
            final(self).tensors == old(self).tensors,
            final(self).tape == old(self).tape,
            final(self).forward_tensor_ids == old(self).forward_tensor_ids,
            final(self).vram_pool_bf16 == old(self).vram_pool_bf16,
            same_settings(*final(self), *old(self)),
            ({
                let before = old(self).vram_pool;
                let after = final(self).vram_pool;
                &&& match r {
                    None => before.stack(size).len() == 0 && after.entries@ == before.entries@,
                    Some(b) => {
                        &&& before.stack(size).len() > 0
                        &&& b == before.stack(size).last()
                        &&& after.stack(size) == before.stack(size).drop_last()
                        &&& after.elements() == before.elements() - size
                    },
                }
                &&& forall|other: usize|
                    other != size ==> #[trigger] after.stack(other) == before.stack(other)
            }),
    {
        self.vram_pool.pop(size)
    }

    /// Makes an activation on the device out of buffers for its elements and its gradient. In mixed
    /// precision the elements have 16 bits; gradients are always in full precision.
    pub fn push_pooled(
        &mut self,
        shape: Vec<usize>,
        data: DeviceBuffer,
        grad: DeviceBuffer,
    ) -> (id: usize)
        requires
            old(self).device == Device::Gpu,
            shape_fits(shape@),
        ensures
            id == old(self).tensors@.len(),
            final(self).tensors@.len() == id + 1,
            final(self).tensors@.take(id as int) == old(self).tensors@,
            made(final(self).tensors@[id as int], id as int, shape@, true),
            !final(self).tensors@[id as int].is_param,
            final(self).tensors@[id as int].data == (if old(self).mixed() {
                Storage::<T>::GpuBf16(data)
            } else {
                Storage::<T>::Gpu(data)
            }),
            final(self).tensors@[id as int].grad == Storage::<T>::Gpu(grad),
            final(self).tensors@[id as int].device == Device::Gpu,
            only_tensors(*final(self), *old(self)),
            old(self).wf() ==> final(self).wf(),
            old(self).full_grads() ==> final(self).full_grads(),
    {
        let data_storage: Storage<T> = if self.uses_bf16_mixed_precision() {
            Storage::GpuBf16(data)
        } else {
            Storage::Gpu(data)
        };
        self.push_tensor(shape, data_storage, Storage::Gpu(grad), true, false)
    }

    /// Makes a tensor in full precision for a result to be computed in, not pooled.
    pub fn push_scratch(
        &mut self,
        shape: Vec<usize>,
        data: DeviceBuffer,
        grad: DeviceBuffer,
    ) -> (id: usize)
        requires
            old(self).device == Device::Gpu,
            shape_fits(shape@),
        ensures
            id == old(self).tensors@.len(),
            final(self).tensors@.len() == id + 1,
            final(self).tensors@.take(id as int) == old(self).tensors@,
            made(final(self).tensors@[id as int], id as int, shape@, false),
            final(self).tensors@[id as int].data == Storage::<T>::Gpu(data),
            final(self).tensors@[id as int].grad == Storage::<T>::Gpu(grad),
            only_tensors(*final(self), *old(self)),
            old(self).wf() ==> final(self).wf(),
            old(self).full_grads() ==> final(self).full_grads(),
    {
        self.push_tensor(shape, Storage::Gpu(data), Storage::Gpu(grad), false, false)
    }

    /// Lets the last tensor go.
    pub fn pop_scratch(&mut self)
        requires
            old(self).tensors@.len() > 0,
        ensures
            final(self).tensors@ == old(self).tensors@.drop_last(),
            only_tensors(*final(self), *old(self)),
            old(self).wf() ==> final(self).wf(),
            old(self).full_grads() ==> final(self).full_grads(),
    {
        let _ = self.tensors.pop();
    }

    /// Makes an activation of the forward pass on the host.
    pub fn alloc_forward(&mut self, shape: Vec<usize>) -> (id: usize)
        requires
            old(self).device == Device::Cpu,
            old(self).vram_pool.entries@.len() == 0,
            shape_fits(shape@),
        ensures
            id == old(self).tensors@.len(),
            final(self).tensors@.len() == id + 1,
            final(self).tensors@.take(id as int) == old(self).tensors@,
            made(final(self).tensors@[id as int], id as int, shape@, true),
            !final(self).tensors@[id as int].is_param,
            match final(self).tensors@[id as int].data {
                Storage::Cpu(v) => !old(self).mixed() && v@ == zeros::<T>(product(shape@)),
                Storage::CpuBf16(v) => old(self).mixed() && v@ == Seq::new(
                    product(shape@),
                    |i: int| 0u16,
                ),
                _ => false,
            },
            final(self).tensors@[id as int].grad is Cpu,
            final(self).tensors@[id as int].grad.values() == zeros::<T>(product(shape@)),
            final(self).forward_tensor_ids@ == old(self).forward_tensor_ids@.push(id),
            final(self).tape == old(self).tape,
            final(self).vram_pool == old(self).vram_pool,
            final(self).vram_pool_bf16 == old(self).vram_pool_bf16,
            same_settings(*final(self), *old(self)),
            old(self).wf() ==> final(self).wf(),
            old(self).full_grads() ==> final(self).full_grads(),
    {
        let id: usize = self.alloc_pooled(shape);
        self.forward_tensor_ids.push(id);
        id
    }

    /// Counts a tensor among the activations of the forward pass.
    pub fn track_forward(&mut self, id: usize)
        ensures
            final(self).forward_tensor_ids@ == old(self).forward_tensor_ids@.push(id),
            final(self).tensors == old(self).tensors,
            final(self).tape == old(self).tape,
            final(self).vram_pool == old(self).vram_pool,
            final(self).vram_pool_bf16 == old(self).vram_pool_bf16,
            same_settings(*final(self), *old(self)),
    {
        self.forward_tensor_ids.push(id);
    }

    /// Loads elements into a tensor; for one on the device, says what is to be copied there. A
    /// tensor of 16 bits an element gets the upper halves.
    pub fn load_tensor_data(&mut self, id: usize, host_data: &Vec<T>) -> (r: Load)
        requires
            id < old(self).tensors@.len(),
            shape_fits(old(self).tensors@[id as int].shape@),
            host_data@.len() == product(old(self).tensors@[id as int].shape@),
            old(self).tensors@[id as int].data is Cpu || old(self).device == Device::Gpu,
            !old(self).tensors@[id as int].data.on_device() ==> old(self).tensors@[id as
                int].data.spec_len() == host_data@.len(),
        ensures
            only_tensors(*final(self), *old(self)),
            final(self).tensors@.len() == old(self).tensors@.len(),
            forall|i: int|
                0 <= i < old(self).tensors@.len() && i != id ==> #[trigger] final(self).tensors@[i]
                    == old(self).tensors@[i],
            same_but_data(final(self).tensors@[id as int], old(self).tensors@[id as int]),
            match old(self).tensors@[id as int].data {
                Storage::Cpu(_) => {
                    &&& r is Done
                    &&& final(self).tensors@[id as int].data matches Storage::Cpu(v)
                    &&& v@ == host_data@
                },
                Storage::CpuBf16(_) => {
                    &&& r is Done
                    &&& final(self).tensors@[id as int].data matches Storage::CpuBf16(v)
                    &&& v@ == to_halves(host_data@)
                },
                Storage::Gpu(b) => {
                    &&& r == Load::Full(b)
                    &&& final(self).tensors@[id as int].data == Storage::<T>::Gpu(b)
                },
                Storage::GpuBf16(b) => {
                    &&& r matches Load::Half(to, halves)
                    &&& to == b
                    &&& halves@ == to_halves(host_data@)
                    &&& final(self).tensors@[id as int].data == Storage::<T>::GpuBf16(b)
                },
            },
            old(self).wf() ==> final(self).wf(),
            old(self).full_grads() ==> final(self).full_grads(),
    {
        let loaded: Storage<T>;
        let r: Load;
        match &self.tensors[id].data {
            Storage::Cpu(_) => {
                loaded = Storage::Cpu(copy_of(host_data));
                r = Load::Done;
            },
            Storage::CpuBf16(_) => {
                loaded = Storage::CpuBf16(halves_of(host_data));
                r = Load::Done;
            },
            Storage::Gpu(b) => {
                loaded = Storage::Gpu(*b);
                r = Load::Full(*b);
            },
            Storage::GpuBf16(b) => {
                loaded = Storage::GpuBf16(*b);
                r = Load::Half(*b, halves_of(host_data));
            },
        }
        self.tensors[id].data = loaded;
        r
    }

    /// Makes an activation on the host and loads its elements.
    pub fn alloc_pooled_with_data(&mut self, shape: Vec<usize>, host_data: &Vec<T>) -> (id: usize)
        requires
            old(self).device == Device::Cpu,
            !old(self).mixed(),
            old(self).vram_pool.entries@.len() == 0,
            shape_fits(shape@),
            host_data@.len() == product(shape@),
        ensures
            id == old(self).tensors@.len(),
            final(self).tensors@.len() == id + 1,
            final(self).tensors@.take(id as int) == old(self).tensors@,
            made(final(self).tensors@[id as int], id as int, shape@, true),
            final(self).tensors@[id as int].data is Cpu,
            final(self).tensors@[id as int].data.values() == host_data@,
            final(self).tensors@[id as int].grad is Cpu,
            final(self).tensors@[id as int].grad.values() == zeros::<T>(product(shape@)),
            only_tensors(*final(self), *old(self)),
            old(self).wf() ==> final(self).wf(),
            old(self).full_grads() ==> final(self).full_grads(),
    {
        let id: usize = self.alloc_pooled(shape);
        let _ = self.load_tensor_data(id, host_data);
        assert(self.tensors@.take(id as int) =~= old(self).tensors@);
        id
    }

    /// Makes an activation of the forward pass on the host and loads its elements.
    pub fn alloc_forward_with_data(&mut self, shape: Vec<usize>, host_data: &Vec<T>) -> (id: usize)
        requires
            old(self).device == Device::Cpu,
            !old(self).mixed(),
            old(self).vram_pool.entries@.len() == 0,
            shape_fits(shape@),
            host_data@.len() == product(shape@),
        ensures
            id == old(self).tensors@.len(),
            final(self).tensors@.len() == id + 1,
            final(self).tensors@.take(id as int) == old(self).tensors@,
            made(final(self).tensors@[id as int], id as int, shape@, true),
            final(self).tensors@[id as int].data is Cpu,
            final(self).tensors@[id as int].data.values() == host_data@,
            final(self).tensors@[id as int].grad is Cpu,
            final(self).tensors@[id as int].grad.values() == zeros::<T>(product(shape@)),
            final(self).forward_tensor_ids@ == old(self).forward_tensor_ids@.push(id),
            final(self).tape == old(self).tape,
            same_settings(*final(self), *old(self)),
            old(self).wf() ==> final(self).wf(),
            old(self).full_grads() ==> final(self).full_grads(),
    {
        let id: usize = self.alloc_forward(shape);
        let _ = self.load_tensor_data(id, host_data);
        assert(self.tensors@.take(id as int) =~= old(self).tensors@);
        id
    }

    /// Lets all tensors from `save_point` on go, the last first. The device buffers of activations
    /// go to the pools.
    pub fn restore_save_point(&mut self, save_point: usize)
        requires
            old(self).wf(),
        ensures
            final(self).tensors@ == old(self).tensors@.take(
                min_of(old(self).tensors@.len() as int, save_point as int),
            ),
            final(self).vram_pool.entries@ == old(self).vram_pool.entries@ + reclaimed(
                old(self).tensors@,
                |t: Tensor<T>| full_entries(t),
                save_point as int,
            ),
            final(self).vram_pool_bf16.entries@ == old(self).vram_pool_bf16.entries@ + reclaimed(
                old(self).tensors@,
                |t: Tensor<T>| half_entries(t),
                save_point as int,
            ),
            final(self).tape == old(self).tape,
            final(self).forward_tensor_ids == old(self).forward_tensor_ids,
            same_settings(*final(self), *old(self)),
            final(self).wf(),
            old(self).full_grads() ==> final(self).full_grads(),
    {
        let ghost ts = self.tensors@;
        let ghost full = |t: Tensor<T>| full_entries(t);
        let ghost half = |t: Tensor<T>| half_entries(t);
        assert(ts.take(ts.len() as int) =~= ts);
        assert(self.vram_pool.entries@ =~= old(self).vram_pool.entries@ + reclaimed(
            ts,
            full,
            ts.len() as int,
        ));
        assert(self.vram_pool_bf16.entries@ =~= old(self).vram_pool_bf16.entries@ + reclaimed(
            ts,
            half,
            ts.len() as int,
        ));
        while self.tensors.len() > save_point
            invariant
                ts == old(self).tensors@,
                full == (|t: Tensor<T>| full_entries(t)),
                half == (|t: Tensor<T>| half_entries(t)),
                old(self).wf(),
                self.tensors@.len() <= ts.len(),
                self.tensors@ == ts.take(self.tensors@.len() as int),
                self.tensors@.len() >= save_point || self.tensors@.len() == ts.len(),
                self.vram_pool.entries@ == old(self).vram_pool.entries@ + reclaimed(
                    ts,
                    full,
                    self.tensors@.len() as int,
                ),
                self.vram_pool_bf16.entries@ == old(self).vram_pool_bf16.entries@ + reclaimed(
                    ts,
                    half,
                    self.tensors@.len() as int,
                ),
                self.tape == old(self).tape,
                self.forward_tensor_ids == old(self).forward_tensor_ids,
                same_settings(*self, *old(self)),
            decreases self.tensors@.len(),
        {
            let ghost n = self.tensors@.len() - 1;
            let ghost before = (self.vram_pool.entries@, self.vram_pool_bf16.entries@);
            let popped = self.tensors.pop();
            let t = match popped {
                Some(t) => t,
                None => {
                    assert(false);
                    return;
                },
            };
            assert(t == ts[n]);
            assert(self.tensors@ =~= ts.take(n));
            if t.is_pooled {
                assert(ts[n].shape_wf());
                let size: usize = element_count(t.shape.as_slice());
                match &t.grad {
                    Storage::Gpu(b) => {
                        self.vram_pool.push(size, *b);
                    },
                    _ => {},
                }
                match &t.data {
                    Storage::GpuBf16(b) => {
                        self.vram_pool_bf16.push(size, *b);
                    },
                    Storage::Gpu(b) => {
                        self.vram_pool.push(size, *b);
                    },
                    _ => {},
                }
            }
            proof {
                assert(self.vram_pool.entries@ =~= before.0 + full_entries(ts[n]));
                assert(self.vram_pool_bf16.entries@ =~= before.1 + half_entries(ts[n]));
                assert(reclaimed(ts, full, n) == reclaimed(ts, full, n + 1) + full_entries(ts[n]));
                assert(reclaimed(ts, half, n) == reclaimed(ts, half, n + 1) + half_entries(ts[n]));
                assert(self.vram_pool.entries@ =~= old(self).vram_pool.entries@ + reclaimed(
                    ts,
                    full,
                    n,
                ));
                assert(self.vram_pool_bf16.entries@ =~= old(self).vram_pool_bf16.entries@
                    + reclaimed(ts, half, n));
            }
        }
        proof {
            if self.tensors@.len() == ts.len() && ts.len() < save_point {
                assert(reclaimed(ts, full, ts.len() as int) =~= reclaimed(
                    ts,
                    full,
                    save_point as int,
                ));
                assert(reclaimed(ts, half, ts.len() as int) =~= reclaimed(
                    ts,
                    half,
                    save_point as int,
                ));
            }
        }
    }

    /// Clears the tape, lets all tensors but the parameters go and forgets the activations of the
    /// forward pass. Says which buffers are to be copied to the pool of full precision: those of
    /// activations that are parameters by their number.
    pub fn clear_activations(&mut self) -> (r: Vec<(usize, DeviceBuffer)>)
        requires
            old(self).wf(),
        ensures
            final(self).tape.nodes@.len() == 0,
            final(self).forward_tensor_ids@.len() == 0,
            final(self).tensors@ == old(self).tensors@.take(
                min_of(old(self).tensors@.len() as int, old(self).num_params as int),
            ),
            final(self).vram_pool.entries@ == old(self).vram_pool.entries@ + reclaimed(
                old(self).tensors@,
                |t: Tensor<T>| full_entries(t),
                old(self).num_params as int,
            ),
            final(self).vram_pool_bf16.entries@ == old(self).vram_pool_bf16.entries@ + reclaimed(
                old(self).tensors@,
                |t: Tensor<T>| half_entries(t),
                old(self).num_params as int,
            ),
            r@ == kept_copies(final(self).tensors@, old(self).forward_tensor_ids@),
            same_settings(*final(self), *old(self)),
            final(self).wf(),
            old(self).full_grads() ==> final(self).full_grads(),
    {
        self.tape.nodes.clear();
        self.restore_save_point(self.num_params);
        let mut r: Vec<(usize, DeviceBuffer)> = Vec::new();
        let ghost ids = old(self).forward_tensor_ids@;
        let mut i: usize = 0;
        assert(ids.take(0) =~= Seq::empty());
        while i < self.forward_tensor_ids.len()
            invariant
                i <= ids.len(),
                self.forward_tensor_ids@ == ids,
                self.wf(),
                r@ == kept_copies(self.tensors@, ids.take(i as int)),
            decreases ids.len() - i,
        {
            let id: usize = self.forward_tensor_ids[i];
            proof {
                assert(ids.take(i + 1).drop_last() =~= ids.take(i as int));
                assert(ids.take(i + 1).last() == id);
            }
            if id < self.tensors.len() {
                match &self.tensors[id].data {
                    Storage::Gpu(b) => {
                        assert(self.tensors@[id as int].shape_wf());
                        let size: usize = element_count(self.tensors[id].shape.as_slice());
                        r.push((size, *b));
                    },
                    _ => {},
                }
            }
            i += 1;
        }
        assert(ids.take(ids.len() as int) =~= ids);
        self.forward_tensor_ids.clear();
        r
    }

    /// Keeps a buffer of full precision for reuse.
    pub fn keep_buffer(&mut self, size: usize, buffer: DeviceBuffer)
        ensures
            final(self).vram_pool.entries@ == old(self).vram_pool.entries@.push((size, buffer)),
            final(self).vram_pool_bf16 == old(self).vram_pool_bf16,
            final(self).tensors == old(self).tensors,
            final(self).tape == old(self).tape,
            final(self).forward_tensor_ids == old(self).forward_tensor_ids,
            same_settings(*final(self), *old(self)),
    {
        self.vram_pool.push(size, buffer);
    }

    /// The elements of a tensor on the host.
    pub fn get_data(&self, tensor_id: usize) -> (r: &Vec<T>)
        requires
            tensor_id < self.tensors@.len(),
            self.tensors@[tensor_id as int].data is Cpu,
        ensures
            *r == self.tensors@[tensor_id as int].data->Cpu_0,
    {
        self.tensors[tensor_id].data.as_cpu()
    }

    /// The gradient of a tensor on the host.
    pub fn get_grad(&self, tensor_id: usize) -> (r: &Vec<T>)
        requires
            tensor_id < self.tensors@.len(),
            self.tensors@[tensor_id as int].grad is Cpu,
        ensures
            *r == self.tensors@[tensor_id as int].grad->Cpu_0,
    {
        self.tensors[tensor_id].grad.as_cpu()
    }

    /// A copy of the gradient of a tensor, as far as it is on the host. For one on the device, the
    /// buffer to be copied.
    pub fn sync_grad_to_cpu(&self, tensor_id: usize) -> (r: Fetch<T>)
        requires
            tensor_id < self.tensors@.len(),
        ensures
            fetches(self.tensors@[tensor_id as int].grad, r),
    {
        self.tensors[tensor_id].sync_grad_to_cpu()
    }

    /// Gives a tensor another shape of as many elements.
    pub fn reinterpret_shape(&mut self, tensor_id: usize, new_shape: Vec<usize>)
        requires
            tensor_id < old(self).tensors@.len(),
            shape_fits(new_shape@),
            product(old(self).tensors@[tensor_id as int].shape@) == product(new_shape@),
        ensures
            only_tensors(*final(self), *old(self)),
            final(self).tensors@.len() == old(self).tensors@.len(),
            forall|i: int|
                0 <= i < old(self).tensors@.len() && i != tensor_id ==> #[trigger] final(self).tensors@[i] == old(self).tensors@[i],
            same_but_shape(
                final(self).tensors@[tensor_id as int],
                old(self).tensors@[tensor_id as int],
            ),
            final(self).tensors@[tensor_id as int].shape@ == new_shape@,
            final(self).tensors@[tensor_id as int].strides@ == strides_of(new_shape@),
            old(self).wf() ==> final(self).wf(),
            old(self).full_grads() ==> final(self).full_grads(),
    {
        let strides = Tensor::<T>::compute_strides(new_shape.as_slice());
        self.tensors[tensor_id].shape = new_shape;
        self.tensors[tensor_id].strides = strides;
    }

    /// Adds an operation to the tape, unless operations are left unrecorded.
    pub fn record(&mut self, node: TapeNode<T>)
        ensures
            final(self).tape.nodes@ == (if old(self).no_grad {
                old(self).tape.nodes@
            } else {
                old(self).tape.nodes@.push(node)
            }),
            final(self).tensors == old(self).tensors,
            only_tensors_and_tape(*final(self), *old(self)),
    {
        if !self.no_grad {
            self.tape.nodes.push(node);
        }
    }
}

/// Nothing but the elements differs.
pub open spec fn same_but_data<T: Scalar>(x: Tensor<T>, y: Tensor<T>) -> bool {
    &&& x.id == y.id
    &&& x.shape == y.shape
    &&& x.strides == y.strides
    &&& x.grad == y.grad
    &&& x.device == y.device
    &&& x.name == y.name
    &&& x.is_pooled == y.is_pooled
    &&& x.is_param == y.is_param
}

/// Nothing but the shape differs.
pub open spec fn same_but_shape<T: Scalar>(x: Tensor<T>, y: Tensor<T>) -> bool {
    &&& x.id == y.id
    &&& x.data == y.data
    &&& x.grad == y.grad
    &&& x.device == y.device
    &&& x.name == y.name
    &&& x.is_pooled == y.is_pooled
    &&& x.is_param == y.is_param
}

/// The buffers of the tensors named by `ids` that are on the device in full precision.
pub open spec fn kept_copies<T: Scalar>(ts: Seq<Tensor<T>>, ids: Seq<usize>) -> Seq<
    (usize, DeviceBuffer),
>
    decreases ids.len(),
{
    if ids.len() == 0 {
        Seq::empty()
    } else {
        let before = kept_copies(ts, ids.drop_last());
        let id = ids.last();
        if id < ts.len() {
            match ts[id as int].data {
                Storage::Gpu(b) => before.push((product(ts[id as int].shape@) as usize, b)),
                _ => before,
            }
        } else {
            before
        }
    }
}

fn zero_halves(n: usize) -> (r: Vec<u16>)
    ensures
        r@ == Seq::new(n as nat, |i: int| 0u16),
{
    let mut r: Vec<u16> = Vec::new();
    let mut i: usize = 0;
    while i < n
        invariant
            i <= n,
            r@ == Seq::new(i as nat, |i: int| 0u16),
        decreases n - i,
    {
        r.push(0);
        i += 1;
        assert(r@ =~= Seq::new(i as nat, |i: int| 0u16));
    }
    r
}

/// A well-formed tensor at the end keeps the graph well formed.
pub proof fn lemma_pushed_wf<T: Scalar>(old_graph: Graph<T>, new_graph: Graph<T>)
    requires
        new_graph.tensors@.len() == old_graph.tensors@.len() + 1,
        new_graph.tensors@.take(old_graph.tensors@.len() as int) == old_graph.tensors@,
        new_graph.tensors@.last().id == old_graph.tensors@.len(),
        new_graph.tensors@.last().shape_wf(),
    ensures
        old_graph.wf() ==> new_graph.wf(),
{
    if old_graph.wf() {
        assert forall|i: int| 0 <= i < new_graph.tensors@.len() implies {
            &&& (#[trigger] new_graph.tensors@[i]).id == i
            &&& new_graph.tensors@[i].shape_wf()
        } by {
            if i < old_graph.tensors@.len() {
                assert(new_graph.tensors@.take(old_graph.tensors@.len() as int)[i]
                    == old_graph.tensors@[i]);
                assert(old_graph.tensors@[i].id == i);
            } else {
                assert(new_graph.tensors@[i] == new_graph.tensors@.last());
            }
        }
    }
}

/// A graph on the host, in full precision.
impl<T: Scalar> Default for Graph<T> {
    fn default() -> (r: Self)
        ensures
            r.wf(),
            r.tensors@.len() == 0,
            r.tape.nodes@.len() == 0,
            r.device == Device::Cpu,
            r.precision_mode == PrecisionMode::Fp32,
            r.vram_budget_bytes is None,
            r.scratch_budget_mb == Some(64usize),
            !r.no_grad,
            r.num_params == 0,
            r.vram_pool.entries@.len() == 0,
            r.vram_pool_bf16.entries@.len() == 0,
    {
        Graph::new(Device::Cpu, PrecisionMode::Fp32, None, 64)
    }
}

} // verus!
