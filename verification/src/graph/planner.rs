//! Makes plans for operations on the device.
use crate::data::fim::IGNORE_INDEX;
use crate::graph::device::{
    add_device_ok, add_op, add_steps, bmm_args, bmm_device_ok, bmm_steps, cross_entropy_steps,
    dims3_of, end_scratch, ensured_kind, flash_device_ok, flash_steps, full_arg_of,
    gather_device_ok, gather_steps, in_device_memory, is_streamed, kind_of, loss_device_ok,
    masked_steps, matmul_bf16_device_ok, matmul_bf16_steps, matmul_device_ok, matmul_steps,
    mm_args, mm_dims, mm_kernels, mm_trans_dims, moving_ok, moving_steps, mul_device_ok,
    mul_kernels, mul_steps, numbered, reduce_args, reduce_device_ok, reduce_dims, reduce_steps,
    repeat_args, repeat_device_ok, repeat_kernels, repeat_steps, reshape_steps, rms_device_ok,
    rms_kernels, rms_steps, rope_args, rope_device_ok, rope_steps, row_count, silu_device_ok,
    silu_steps, softmax_device_ok, softmax_kernels, softmax_steps, streamed_steps, swap_args,
    target_id, target_numbers, trans_b_device_ok, trans_b_shape, trans_b_steps,
    transpose_0213_device_ok, transpose_0213_steps, zero_call, Plan,
};
use crate::graph::host::{
    bmm_dims, repeat_dims, repeat_shape, rope_dims, shape_of, swap_shape, swap_sizes,
};
use crate::graph::index::{lemma_mul3, lemma_product2, lemma_product3, lemma_product_last};
use crate::graph::kernel::Kernel;
use crate::graph::launch::{elementwise_launch, tiled_launch};
use crate::graph::ops::gqa::RepeatDims;
use crate::graph::ops::linear::BmmDims;
use crate::graph::ops::reduction::shape_without;
use crate::graph::ops::transform::RopeDims;
use crate::graph::plan::{call, push_if, Arg, Label, Step};
use crate::graph::Graph;
use crate::scalar::Scalar;
use crate::tape::{DeviceOp, MatmulDims, ReduceDims};
use crate::tensor::{broadcast_shape, element_count, product, shape_fits, StorageKind, Tensor};
use vstd::prelude::*;

verus! {

/// The plan for `add` on the device.
pub open spec fn add_planned<T: Scalar>(g: Graph<T>, p: Plan<T>, a_id: usize, b_id: usize) -> bool {
    &&& p.out_shape@ =~= broadcast_shape(shape_of(g, a_id), shape_of(g, b_id))
    &&& p.steps@ =~= add_steps(g, a_id, b_id)
    &&& p.inputs@ =~= seq![a_id, b_id]
    &&& p.op == add_op(g, a_id, b_id)
}

/// The plan for `mul` on the device.
pub open spec fn mul_planned<T: Scalar>(g: Graph<T>, p: Plan<T>, a_id: usize, b_id: usize) -> bool {
    &&& p.out_shape@ =~= broadcast_shape(shape_of(g, a_id), shape_of(g, b_id))
    &&& p.steps@ =~= mul_steps(g, a_id, b_id)
    &&& p.inputs@ =~= seq![a_id, b_id]
    &&& p.op == (DeviceOp::<T>::Mul {
        n: product(broadcast_shape(shape_of(g, a_id), shape_of(g, b_id))) as usize,
        back: mul_kernels(g, a_id, b_id).1,
    })
}

/// The plan for `silu` on the device.
pub open spec fn silu_planned<T: Scalar>(g: Graph<T>, p: Plan<T>, a_id: usize) -> bool {
    &&& p.out_shape@ =~= shape_of(g, a_id)
    &&& p.steps@ =~= silu_steps(g, a_id)
    &&& p.inputs@ =~= seq![a_id]
    &&& p.op == (DeviceOp::<T>::Silu {
        n: product(shape_of(g, a_id)) as usize,
        half: g.mixed(),
    })
}

/// The plan for `matmul` on the device.
pub open spec fn matmul_planned<T: Scalar>(
    g: Graph<T>,
    p: Plan<T>,
    a_id: usize,
    b_id: usize,
) -> bool {
    &&& ({
        let d = mm_dims(shape_of(g, a_id), shape_of(g, b_id));
        let (ha, hb) = (
            kind_of(g, a_id) == StorageKind::GpuBf16,
            kind_of(g, b_id) == StorageKind::GpuBf16,
        );
        &&& p.out_shape@ =~= seq![d.m, d.n]
        &&& p.inputs@ =~= seq![a_id, b_id]
        &&& if is_streamed(g, a_id, b_id) {
            &&& p.steps@ =~= streamed_steps(g, a_id, b_id, d, mm_kernels(ha, hb).0)
            &&& p.op == DeviceOp::<T>::Streamed { dims: d, back_a: mm_kernels(ha, hb).1 }
        } else {
            &&& p.steps@ =~= matmul_steps(g, a_id, b_id)
            &&& p.op == DeviceOp::<T>::Matmul { dims: d, back_a: mm_kernels(ha, hb).1 }
        }
    })
}

/// The plan for `matmul_trans_b` on the device.
pub open spec fn matmul_trans_b_planned<T: Scalar>(
    g: Graph<T>,
    p: Plan<T>,
    a_id: usize,
    b_id: usize,
) -> bool {
    &&& ({
        let d = mm_trans_dims(shape_of(g, a_id), shape_of(g, b_id));
        &&& p.out_shape@ =~= trans_b_shape(shape_of(g, a_id), d.n)
        &&& p.inputs@ =~= seq![a_id, b_id]
        &&& if is_streamed(g, a_id, b_id) {
            &&& p.steps@ =~= streamed_steps(
                g,
                a_id,
                b_id,
                d,
                Kernel::MatmulTransBF32,
            )
            &&& p.op == DeviceOp::<T>::StreamedTransB { dims: d }
        } else {
            &&& p.steps@ =~= trans_b_steps(g, a_id, b_id)
            &&& p.op == DeviceOp::<T>::MatmulTransB { dims: d }
        }
    })
}

/// The plan for `matmul_bf16` on the device.
pub open spec fn matmul_bf16_planned<T: Scalar>(
    g: Graph<T>,
    p: Plan<T>,
    a_id: usize,
    b_id: usize,
) -> bool {
    &&& ({
        let d = mm_dims(shape_of(g, a_id), shape_of(g, b_id));
        &&& p.out_shape@ =~= seq![d.m, d.n]
        &&& p.inputs@ =~= seq![a_id, b_id]
        &&& if is_streamed(g, a_id, b_id) {
            &&& p.steps@ =~= streamed_steps(g, a_id, b_id, d, Kernel::MatmulF32Bf16accumF32)
            &&& p.op == (DeviceOp::<T>::Streamed {
                dims: d,
                back_a: Kernel::MatmulBackwardAF32,
            })
        } else {
            &&& p.steps@ =~= matmul_bf16_steps(g, a_id, b_id)
            &&& p.op == DeviceOp::<T>::MatmulBf16 { dims: d }
        }
    })
}

/// The plan for `bmm` on the device.
pub open spec fn bmm_planned<T: Scalar>(
    g: Graph<T>,
    p: Plan<T>,
    a_id: usize,
    b_id: usize,
    trans_b: bool,
) -> bool {
    &&& ({
        let d = bmm_dims(shape_of(g, a_id), shape_of(g, b_id), trans_b);
        &&& p.out_shape@ =~= seq![d.batch, d.m, d.n]
        &&& p.steps@ == bmm_steps(g, a_id, b_id, trans_b)
        &&& p.inputs@ =~= seq![a_id, b_id]
        &&& p.op == DeviceOp::<T>::Bmm { dims: d }
    })
}

/// The plan for `sum` on the device.
pub open spec fn sum_planned<T: Scalar>(g: Graph<T>, p: Plan<T>, a_id: usize, dim: usize) -> bool {
    &&& p.out_shape@ =~= shape_of(g, a_id).remove(dim as int)
    &&& p.steps@ =~= reduce_steps(g, a_id, dim, Label::Sum, Kernel::SumF32)
    &&& p.inputs@ =~= seq![a_id]
    &&& p.op == (DeviceOp::<T>::Sum { dims: reduce_dims(g, a_id, dim) })
}

/// The plan for `max` on the device.
pub open spec fn max_planned<T: Scalar>(g: Graph<T>, p: Plan<T>, a_id: usize, dim: usize) -> bool {
    &&& p.out_shape@ =~= shape_of(g, a_id).remove(dim as int)
    &&& p.steps@ =~= reduce_steps(g, a_id, dim, Label::Max, Kernel::MaxF32)
    &&& p.inputs@ =~= seq![a_id]
    &&& p.op == (DeviceOp::<T>::Max {
        dims: reduce_dims(g, a_id, dim),
        size: product(shape_of(g, a_id)) as usize,
    })
}

/// The plan for `softmax` on the device.
pub open spec fn softmax_planned<T: Scalar>(g: Graph<T>, p: Plan<T>, a_id: usize) -> bool {
    &&& p.out_shape@ =~= shape_of(g, a_id)
    &&& p.steps@ =~= softmax_steps(g, a_id)
    &&& p.inputs@ =~= seq![a_id]
    &&& p.op == (DeviceOp::<T>::Softmax {
        rows: row_count(g, a_id) as u64,
        n: shape_of(g, a_id).last() as u64,
        back: softmax_kernels(kind_of(g, a_id) == StorageKind::GpuBf16).1,
    })
}

/// The plan for `cross_entropy` on the device.
pub open spec fn cross_entropy_planned<T: Scalar>(
    g: Graph<T>,
    p: Plan<T>,
    logits_id: usize,
    targets: Seq<usize>,
) -> bool {
    &&& p.out_shape@.len() == 0
    &&& p.targets@ =~= target_numbers::<T>(targets, false)
    &&& p.steps@ =~= cross_entropy_steps(g, logits_id)
    &&& p.inputs@ =~= seq![logits_id]
    &&& p.op == (DeviceOp::<T>::CrossEntropy {
        batch: shape_of(g, logits_id)[0],
        classes: shape_of(g, logits_id)[1],
        normalizer: None,
    })
}

/// The plan for `cross_entropy_masked` on the device.
pub open spec fn cross_entropy_masked_planned<T: Scalar>(
    g: Graph<T>,
    p: Plan<T>,
    logits_id: usize,
    targets: Seq<usize>,
    normalizer: T,
) -> bool {
    &&& p.out_shape@.len() == 0
    &&& p.targets@ =~= target_numbers::<T>(targets, true)
    &&& p.steps@ =~= masked_steps(g, logits_id, normalizer)
    &&& p.inputs@ =~= seq![logits_id]
    &&& p.op == (DeviceOp::<T>::CrossEntropy {
        batch: shape_of(g, logits_id)[0],
        classes: shape_of(g, logits_id)[1],
        normalizer: Some(normalizer),
    })
}

/// The plan for `transpose_0213` on the device.
pub open spec fn transpose_0213_planned<T: Scalar>(g: Graph<T>, p: Plan<T>, a_id: usize) -> bool {
    &&& ({
        let (b, s, h, d) = swap_sizes(shape_of(g, a_id));
        &&& p.out_shape@ =~= swap_shape(shape_of(g, a_id))
        &&& p.steps@ =~= transpose_0213_steps(g, a_id)
        &&& p.inputs@ =~= seq![a_id]
        &&& p.op == (DeviceOp::<T>::Transpose0213 {
            b: b as usize,
            s: s as usize,
            h: h as usize,
            d: d as usize,
        })
    })
}

/// The plan for `reshape` on the device.
pub open spec fn reshape_planned<T: Scalar>(
    g: Graph<T>,
    p: Plan<T>,
    a_id: usize,
    new_shape: Seq<usize>,
) -> bool {
    &&& p.out_shape@ =~= new_shape
    &&& p.steps@ =~= reshape_steps(g, a_id)
    &&& p.inputs@ =~= seq![a_id]
    &&& p.op == (DeviceOp::<T>::Reshape {
        n: g.tensors@[a_id as int].data.spec_len() as usize,
    })
}

/// The plan for `rope` on the device.
pub open spec fn rope_planned<T: Scalar>(
    g: Graph<T>,
    p: Plan<T>,
    a_id: usize,
    head_dim: usize,
) -> bool {
    &&& p.out_shape@ =~= shape_of(g, a_id)
    &&& p.steps@ =~= rope_steps(g, a_id, head_dim)
    &&& p.inputs@ =~= seq![a_id]
    &&& p.op == (DeviceOp::<T>::Rope {
        dims: rope_dims(shape_of(g, a_id), head_dim),
        pairs: (product(shape_of(g, a_id)) / 2) as usize,
    })
}

/// The plan for `repeat_kv` on the device.
pub open spec fn repeat_kv_planned<T: Scalar>(
    g: Graph<T>,
    p: Plan<T>,
    x_id: usize,
    repeats: usize,
) -> bool {
    &&& p.out_shape@ =~= repeat_shape(shape_of(g, x_id), repeats)
    &&& p.steps@ =~= repeat_steps(g, x_id, repeats)
    &&& p.inputs@ =~= seq![x_id]
    &&& p.op == (DeviceOp::<T>::RepeatKv {
        dims: repeat_dims(shape_of(g, x_id), repeats),
        back: repeat_kernels(kind_of(g, x_id) == StorageKind::GpuBf16).1,
        size: product(shape_of(g, x_id)) as usize,
    })
}

/// The plan for `gather` on the device.
pub open spec fn gather_planned<T: Scalar>(
    g: Graph<T>,
    p: Plan<T>,
    weights_id: usize,
    indices_id: usize,
) -> bool {
    &&& ({
        let hidden = shape_of(g, weights_id)[1];
        let count = g.tensors@[indices_id as int].data.spec_len() as usize;
        &&& p.out_shape@ =~= shape_of(g, indices_id).push(hidden)
        &&& p.steps@ =~= gather_steps(g, weights_id, indices_id)
        &&& p.inputs@ =~= seq![weights_id, indices_id]
        &&& p.op == (DeviceOp::<T>::Gather {
            hidden,
            indices: count,
            out_size: (count * hidden) as usize,
        })
    })
}

/// The plan for `rms_norm` on the device.
pub open spec fn rms_norm_planned<T: Scalar>(
    g: Graph<T>,
    p: Plan<T>,
    x_id: usize,
    weight_id: usize,
    eps: T,
) -> bool {
    &&& p.out_shape@ =~= shape_of(g, x_id)
    &&& p.steps@ =~= rms_steps(g, x_id, weight_id, eps)
    &&& p.inputs@ =~= seq![x_id, weight_id]
    &&& p.op == (DeviceOp::<T>::RmsNorm {
        dim: shape_of(g, x_id).last(),
        rows: row_count(g, x_id) as usize,
        eps,
        back: rms_kernels(
            kind_of(g, x_id) == StorageKind::GpuBf16,
            kind_of(g, weight_id) == StorageKind::GpuBf16,
        ).1,
    })
}

/// The plan for `flash_attention` on the device.
pub open spec fn flash_attention_planned<T: Scalar>(
    g: Graph<T>,
    p: Plan<T>,
    q_id: usize,
    k_id: usize,
    v_id: usize,
    scale: T,
    causal: bool,
) -> bool {
    &&& p.out_shape@ =~= shape_of(g, q_id)
    &&& p.steps@ =~= flash_steps(g, q_id, k_id, v_id, scale, causal)
}

pub(crate) proof fn lemma_counted(s: Seq<usize>)
    requires
        shape_fits(s),
    ensures
        product(s) <= usize::MAX,
{
    assert(s.skip(0) =~= s);
    assert(product(s.skip(0)) <= usize::MAX);
}

fn pair(a: usize, b: usize) -> (r: Vec<usize>)
    ensures
        r@ == seq![a, b],
{
    let mut r: Vec<usize> = Vec::new();
    r.push(a);
    r.push(b);
    assert(r@ =~= seq![a, b]);
    r
}

fn single(a: usize) -> (r: Vec<usize>)
    ensures
        r@ == seq![a],
{
    let mut r: Vec<usize> = Vec::new();
    r.push(a);
    assert(r@ =~= seq![a]);
    r
}

fn triple(a: usize, b: usize, c: usize) -> (r: Vec<usize>)
    ensures
        r@ == seq![a, b, c],
{
    let mut r = pair(a, b);
    r.push(c);
    assert(r@ =~= seq![a, b, c]);
    r
}

pub(crate) fn leading(shape: &Vec<usize>, n: usize) -> (r: Vec<usize>)
    requires
        n <= shape@.len(),
    ensures
        r@ == shape@.take(n as int),
{
    let mut r: Vec<usize> = Vec::new();
    let mut i: usize = 0;
    while i < n
        invariant
            i <= n,
            n <= shape@.len(),
            r@ == shape@.take(i as int),
        decreases n - i,
    {
        assert(shape@.take(i + 1) =~= shape@.take(i as int).push(shape@[i as int]));
        r.push(shape[i]);
        i += 1;
    }
    r
}

pub(crate) fn append_args<T: Copy>(a: &mut Vec<Arg<T>>, b: &Vec<Arg<T>>)
    ensures
        final(a)@ == old(a)@ + b@,
{
    let mut i: usize = 0;
    while i < b.len()
        invariant
            i <= b@.len(),
            a@ == old(a)@ + b@.take(i as int),
        decreases b@.len() - i,
    {
        a.push(b[i]);
        assert(a@ =~= old(a)@ + b@.take(i + 1));
        i += 1;
    }
    assert(b@.take(b@.len() as int) =~= b@);
}

pub(crate) fn mm_args_of<T: Copy>(
    x: Arg<T>,
    y: Arg<T>,
    z: Arg<T>,
    p: usize,
    q: usize,
    r: usize,
) -> (v: Vec<
    Arg<T>,
>)
    ensures
        v@ == mm_args(x, y, z, p, q, r),
{
    vec![x, y, z, Arg::Size(p as u64), Arg::Size(q as u64), Arg::Size(r as u64)]
}

pub(crate) fn bmm_args_of<T: Copy>(x: Arg<T>, y: Arg<T>, z: Arg<T>, d: BmmDims) -> (v: Vec<Arg<T>>)
    ensures
        v@ == bmm_args(x, y, z, d),
{
    vec![
        x,
        y,
        z,
        Arg::Size(d.batch as u64),
        Arg::Size(d.m as u64),
        Arg::Size(d.k as u64),
        Arg::Size(d.n as u64),
    ]
}

pub(crate) fn reduce_args_of<T: Copy>(d: ReduceDims) -> (v: Vec<Arg<T>>)
    ensures
        v@ == reduce_args::<T>(d),
{
    vec![
        Arg::Size(d.out_size as u64),
        Arg::Size(d.reduced_size),
        Arg::Size(d.reduced_stride),
        Arg::Size(d.rank),
        Arg::Size(d.out.d0),
        Arg::Size(d.out.d1),
        Arg::Size(d.out.d2),
        Arg::Size(d.strides.d0),
        Arg::Size(d.strides.d1),
        Arg::Size(d.strides.d2),
    ]
}

pub(crate) fn swap_args_of<T: Copy>(b: usize, s: usize, h: usize, d: usize) -> (v: Vec<Arg<T>>)
    ensures
        v@ == swap_args::<T>(b, s, h, d),
{
    vec![Arg::Size(b as u64), Arg::Size(s as u64), Arg::Size(h as u64), Arg::Size(d as u64)]
}

pub(crate) fn rope_args_of<T: Copy>(d: RopeDims, pairs: usize) -> (v: Vec<Arg<T>>)
    ensures
        v@ == rope_args::<T>(d, pairs),
{
    vec![
        Arg::Size(d.seq as u64),
        Arg::Size(d.hidden as u64),
        Arg::Size(d.head as u64),
        Arg::Size(pairs as u64),
    ]
}

pub(crate) fn repeat_args_of<T: Copy>(d: RepeatDims) -> (v: Vec<Arg<T>>)
    ensures
        v@ == repeat_args::<T>(d),
{
    vec![
        Arg::Int(d.batch as i32),
        Arg::Int(d.kv as i32),
        Arg::Int(d.repeats as i32),
        Arg::Int(d.seq as i32),
        Arg::Int(d.dim as i32),
    ]
}

/// The targets as numbers.
fn target_numbers_of<T: Scalar>(targets: &[usize], masked: bool) -> (r: Vec<T>)
    ensures
        r@ == target_numbers::<T>(targets@, masked),
{
    let ghost goal = target_numbers::<T>(targets@, masked);
    let mut r: Vec<T> = Vec::new();
    let mut i: usize = 0;
    while i < targets.len()
        invariant
            i <= targets@.len(),
            goal == target_numbers::<T>(targets@, masked),
            r@ == goal.take(i as int),
        decreases targets@.len() - i,
    {
        let x: T = if masked && targets[i] == IGNORE_INDEX {
            T::from_count(u32::MAX as usize)
        } else {
            T::from_count(targets[i])
        };
        assert(goal.take(i + 1) == goal.take(i as int).push(x));
        r.push(x);
        i += 1;
    }
    assert(goal.take(targets@.len() as int) == goal);
    r
}

/// The number of elements of the result, of the left operand and of the right one.
pub(crate) fn pair_sizes(d: BmmDims) -> (r: (usize, usize, usize))
    requires
        shape_fits(seq![d.batch, d.m, d.n]),
        shape_fits(seq![d.batch, d.m, d.k]),
        shape_fits(seq![d.batch, d.k, d.n]),
        d.batch * d.m <= usize::MAX,
        d.batch * d.k <= usize::MAX,
    ensures
        r.0 == d.batch * d.m * d.n,
        r.1 == d.batch * d.m * d.k,
        r.2 == d.batch * d.k * d.n,
{
    proof {
        lemma_product3(d.batch, d.m, d.n);
        lemma_product3(d.batch, d.m, d.k);
        lemma_product3(d.batch, d.k, d.n);
        lemma_counted(seq![d.batch, d.m, d.n]);
        lemma_counted(seq![d.batch, d.m, d.k]);
        lemma_counted(seq![d.batch, d.k, d.n]);
    }
    (d.batch * d.m * d.n, d.batch * d.m * d.k, d.batch * d.k * d.n)
}

impl<T: Scalar> Graph<T> {
    fn data_kind(&self, id: usize) -> (r: StorageKind)
        requires
            id < self.tensors@.len(),
        ensures
            r == kind_of(*self, id),
    {
        self.tensors[id].data.kind()
    }

    fn is_half(&self, id: usize) -> (r: bool)
        requires
            id < self.tensors@.len(),
        ensures
            r == (kind_of(*self, id) == StorageKind::GpuBf16),
    {
        crate::tensor::is_bf16(&self.tensors[id].data)
    }

    fn is_half_ensured(&self, id: usize) -> (r: bool)
        requires
            id < self.tensors@.len(),
        ensures
            r == (ensured_kind(*self, id) == StorageKind::GpuBf16),
    {
        match self.tensors[id].data.kind() {
            StorageKind::Cpu => self.uses_bf16_mixed_precision() && self.tensors[id].is_pooled,
            StorageKind::GpuBf16 => true,
            _ => false,
        }
    }

    fn next_target(&self, scratch: bool) -> (r: usize)
        requires
            numbered(*self),
        ensures
            r == target_id(*self, scratch),
    {
        if scratch {
            self.tensors.len() + 1
        } else {
            self.tensors.len()
        }
    }

    /// The plan for an addition.
    pub fn add_plan(&self, a_id: usize, b_id: usize) -> (r: Plan<T>)
        requires
            self.wf(),
            numbered(*self),
            add_device_ok(*self, a_id, b_id),
        ensures
            add_planned(*self, r, a_id, b_id),
    {
        assert(self.tensors@[a_id as int].shape_wf());
        assert(self.tensors@[b_id as int].shape_wf());
        let a_shape = &self.tensors[a_id].shape;
        let b_shape = &self.tensors[b_id].shape;
        let out_shape = Tensor::<T>::get_broadcasted_shape(a_shape.as_slice(), b_shape.as_slice());
        let n: usize = element_count(out_shape.as_slice());
        let ta = dims3_of(
            &Tensor::<T>::get_broadcasted_strides(
                a_shape.as_slice(),
                self.tensors[a_id].strides.as_slice(),
                out_shape.as_slice(),
            ),
            0,
        );
        let tb = dims3_of(
            &Tensor::<T>::get_broadcasted_strides(
                b_shape.as_slice(),
                self.tensors[b_id].strides.as_slice(),
                out_shape.as_slice(),
            ),
            0,
        );
        let d = dims3_of(&out_shape, 1);
        let rank: u64 = out_shape.len() as u64;
        let (ha, hb) = (self.is_half(a_id), self.is_half(b_id));
        let mixed: bool = self.uses_bf16_mixed_precision();
        let k = if mixed && ha && hb {
            Kernel::AddBf16
        } else if mixed && ha {
            Kernel::AddBf16lhsF32rhsBf16out
        } else {
            Kernel::AddF32
        };
        let up: bool = self.data_kind(b_id) == StorageKind::Cpu;
        let mut s: Vec<Step<T>> = vec![Step::AllocOut, Step::NameOut(Label::Add)];
        push_if(&mut s, up, Step::UploadInt(b_id));
        let second = if up {
            Arg::Upload(b_id)
        } else {
            Arg::Data(b_id)
        };
        call(
            &mut s,
            k,
            &vec![
                Arg::Data(a_id),
                second,
                Arg::Data(self.tensors.len()),
                Arg::Size(n as u64),
                Arg::Size(rank),
                Arg::Size(d.d0),
                Arg::Size(d.d1),
                Arg::Size(d.d2),
                Arg::Size(ta.d0),
                Arg::Size(ta.d1),
                Arg::Size(ta.d2),
                Arg::Size(tb.d0),
                Arg::Size(tb.d1),
                Arg::Size(tb.d2),
            ],
            elementwise_launch(n),
        );
        push_if(&mut s, !self.no_grad, Step::Record);
        Plan {
            out_shape,
            targets: Vec::new(),
            steps: s,
            inputs: pair(a_id, b_id),
            op: DeviceOp::Add { n, rank, shape: d, a: ta, b: tb },
        }
    }

    /// The plan for a multiplication.
    pub fn mul_plan(&self, a_id: usize, b_id: usize) -> (r: Plan<T>)
        requires
            self.wf(),
            numbered(*self),
            mul_device_ok(*self, a_id, b_id),
        ensures
            mul_planned(*self, r, a_id, b_id),
    {
        let out_shape = Tensor::<T>::get_broadcasted_shape(
            self.tensors[a_id].shape.as_slice(),
            self.tensors[b_id].shape.as_slice(),
        );
        let n: usize = element_count(out_shape.as_slice());
        let (ha, hb) = (self.is_half(a_id), self.is_half(b_id));
        let (k, back) = if ha && hb {
            (Kernel::MulBf16, Kernel::MulBackwardBf16inF32)
        } else if ha {
            (Kernel::MulBf16lhsF32rhsBf16out, Kernel::MulBackwardBf16lhsF32rhs)
        } else {
            (Kernel::MulF32, Kernel::MulBackwardF32)
        };
        let mut s: Vec<Step<T>> = vec![Step::AllocOut, Step::NameOut(Label::Mul)];
        call(
            &mut s,
            k,
            &vec![
                Arg::Data(a_id),
                Arg::Data(b_id),
                Arg::Data(self.tensors.len()),
                Arg::Size(n as u64),
            ],
            elementwise_launch(n),
        );
        push_if(&mut s, !self.no_grad, Step::Record);
        Plan {
            out_shape,
            targets: Vec::new(),
            steps: s,
            inputs: pair(a_id, b_id),
            op: DeviceOp::Mul { n, back },
        }
    }

    /// The plan for SiLU.
    pub fn silu_plan(&self, a_id: usize) -> (r: Plan<T>)
        requires
            self.wf(),
            numbered(*self),
            silu_device_ok(*self, a_id),
        ensures
            silu_planned(*self, r, a_id),
    {
        assert(self.tensors@[a_id as int].shape_wf());
        let n: usize = self.tensors[a_id].size();
        let half: bool = self.uses_bf16_mixed_precision();
        let mut s: Vec<Step<T>> = vec![Step::AllocOut, Step::NameOut(Label::Silu)];
        let k = if half {
            Kernel::SiluBf16
        } else {
            Kernel::SiluF32
        };
        call(
            &mut s,
            k,
            &vec![Arg::Data(a_id), Arg::Data(self.tensors.len()), Arg::Size(n as u64)],
            elementwise_launch(n),
        );
        push_if(&mut s, !self.no_grad, Step::Record);
        Plan {
            out_shape: self.tensors[a_id].shape.clone(),
            targets: Vec::new(),
            steps: s,
            inputs: single(a_id),
            op: DeviceOp::Silu { n, half },
        }
    }

    fn rows_and_columns(&self, a_id: usize) -> (r: (usize, usize))
        requires
            self.wf(),
            a_id < self.tensors@.len(),
            shape_of(*self, a_id).len() >= 2,
            shape_fits(shape_of(*self, a_id).drop_last()),
        ensures
            r.0 == product(shape_of(*self, a_id).drop_last()),
            r.1 == shape_of(*self, a_id).last(),
            r.0 * r.1 <= usize::MAX,
    {
        let rank: usize = self.tensors[a_id].shape.len();
        let lead = leading(&self.tensors[a_id].shape, rank - 1);
        assert(lead@ =~= shape_of(*self, a_id).drop_last());
        proof {
            assert(self.tensors@[a_id as int].shape_wf());
            lemma_product_last(shape_of(*self, a_id));
            lemma_counted(shape_of(*self, a_id));
        }
        (element_count(lead.as_slice()), self.tensors[a_id].shape[rank - 1])
    }

    /// The plan for a product. A right operand on the host is streamed.
    pub fn matmul_plan(&self, a_id: usize, b_id: usize) -> (r: Plan<T>)
        requires
            self.wf(),
            numbered(*self),
            matmul_device_ok(*self, a_id, b_id),
        ensures
            matmul_planned(*self, r, a_id, b_id),
    {
        let (ka, kb) = (self.data_kind(a_id), self.data_kind(b_id));
        let (m, k) = self.rows_and_columns(a_id);
        let n: usize = self.tensors[b_id].shape[1];
        let dims = MatmulDims { m, k, n };
        let (ha, hb) = (self.is_half(a_id), self.is_half(b_id));
        let (fwd, back_a) = if ha && hb {
            (Kernel::MatmulBf16F32, Kernel::MatmulBackwardABf16bF32)
        } else {
            (Kernel::MatmulF32, Kernel::MatmulBackwardAF32)
        };
        proof {
            assert(dims == mm_dims(shape_of(*self, a_id), shape_of(*self, b_id)));
            assert(shape_of(*self, b_id) =~= seq![k, n]);
            assert(self.tensors@[b_id as int].shape_wf());
            lemma_product2(k, n);
            lemma_counted(shape_of(*self, b_id));
        }
        if in_device_memory(ka) && !in_device_memory(kb) {
            return self.streamed_plan(a_id, b_id, dims, fwd, DeviceOp::Streamed { dims, back_a });
        }
        let mixed: bool = self.uses_bf16_mixed_precision();
        let t: usize = self.next_target(mixed);
        let mut s: Vec<Step<T>> = vec![Step::AllocOut];
        push_if(&mut s, mixed, Step::AllocScratch(m * n));
        push_if(&mut s, ha, Step::CastIn { id: a_id, size: m * k });
        push_if(&mut s, hb, Step::CastIn { id: b_id, size: k * n });
        s.push(Step::Ensure(a_id));
        s.push(Step::Ensure(b_id));
        s.push(Step::Ensure(t));
        call(
            &mut s,
            fwd,
            &mm_args_of(full_arg_of(a_id, ha), full_arg_of(b_id, hb), Arg::Data(t), m, k, n),
            tiled_launch(n, m, 1),
        );
        end_scratch(&mut s, mixed, m * n);
        push_if(&mut s, !self.no_grad, Step::Record);
        Plan {
            out_shape: pair(m, n),
            targets: Vec::new(),
            steps: s,
            inputs: pair(a_id, b_id),
            op: DeviceOp::Matmul { dims, back_a },
        }
    }

    fn streamed_plan(
        &self,
        a_id: usize,
        b_id: usize,
        d: MatmulDims,
        k: Kernel,
        op: DeviceOp<T>,
    ) -> (r: Plan<T>)
        requires
            self.wf(),
            numbered(*self),
            a_id < self.tensors@.len(),
            d.m * d.n <= usize::MAX,
            d.m * d.k <= usize::MAX,
            crate::graph::launch::tiles_fit(d.n, d.m),
        ensures
            r.out_shape@ == seq![d.m, d.n],
            r.steps@ == streamed_steps(*self, a_id, b_id, d, k),
            r.inputs@ == seq![a_id, b_id],
            r.op == op,
    {
        let ha: bool = self.is_half(a_id);
        let mixed: bool = self.uses_bf16_mixed_precision();
        let t: usize = self.next_target(mixed);
        let mut s: Vec<Step<T>> = vec![Step::UploadFull(b_id), Step::AllocOut];
        push_if(&mut s, mixed, Step::AllocScratch(d.m * d.n));
        push_if(&mut s, ha, Step::CastIn { id: a_id, size: d.m * d.k });
        call(
            &mut s,
            k,
            &mm_args_of(full_arg_of(a_id, ha), Arg::Upload(b_id), Arg::Data(t), d.m, d.k, d.n),
            tiled_launch(d.n, d.m, 1),
        );
        s.push(Step::Sync);
        s.push(Step::DropUpload);
        push_if(&mut s, !self.no_grad, Step::Record);
        end_scratch(&mut s, mixed, d.m * d.n);
        Plan {
            out_shape: pair(d.m, d.n),
            targets: Vec::new(),
            steps: s,
            inputs: pair(a_id, b_id),
            op,
        }
    }

    /// The plan for a product of a tensor on the device with a matrix on the host, rounded to 16
    /// bits on the way.
    pub fn matmul_bf16_streamed(&self, a_id: usize, b_id: usize) -> (r: Plan<T>)
        requires
            self.wf(),
            numbered(*self),
            matmul_device_ok(*self, a_id, b_id),
            is_streamed(*self, a_id, b_id),
        ensures
            ({
                let d = mm_dims(shape_of(*self, a_id), shape_of(*self, b_id));
                &&& r.out_shape@ == seq![d.m, d.n]
                &&& r.steps@ == streamed_steps(
                    *self,
                    a_id,
                    b_id,
                    d,
                    Kernel::MatmulF32Bf16accumF32,
                )
                &&& r.inputs@ == seq![a_id, b_id]
                &&& r.op == (DeviceOp::<T>::Streamed {
                    dims: d,
                    back_a: Kernel::MatmulBackwardAF32,
                })
            }),
    {
        let (m, k) = self.rows_and_columns(a_id);
        let n: usize = self.tensors[b_id].shape[1];
        let dims = MatmulDims { m, k, n };
        self.streamed_plan(
            a_id,
            b_id,
            dims,
            Kernel::MatmulF32Bf16accumF32,
            DeviceOp::Streamed { dims, back_a: Kernel::MatmulBackwardAF32 },
        )
    }

    /// The plan for a product with a transposed tensor. A right operand on the host is streamed.
    pub fn matmul_trans_b_plan(&self, a_id: usize, b_id: usize) -> (r: Plan<T>)
        requires
            self.wf(),
            numbered(*self),
            trans_b_device_ok(*self, a_id, b_id),
        ensures
            matmul_trans_b_planned(*self, r, a_id, b_id),
    {
        let (ka, kb) = (self.data_kind(a_id), self.data_kind(b_id));
        let (m, k) = self.rows_and_columns(a_id);
        let n: usize = self.tensors[b_id].shape[0];
        let d = MatmulDims { m, k, n };
        let rank: usize = self.tensors[a_id].shape.len();
        let mut out_shape = leading(&self.tensors[a_id].shape, rank - 1);
        out_shape.push(n);
        proof {
            assert(out_shape@ =~= trans_b_shape(shape_of(*self, a_id), n));
            assert(shape_of(*self, b_id) =~= seq![n, k]);
            assert(self.tensors@[b_id as int].shape_wf());
            lemma_product2(n, k);
            lemma_counted(shape_of(*self, b_id));
            lemma_mul3(n as int, k as int, 1);
        }
        if in_device_memory(ka) && !in_device_memory(kb) {
            let p = self.streamed_plan(
                a_id,
                b_id,
                d,
                Kernel::MatmulTransBF32,
                DeviceOp::StreamedTransB { dims: d },
            );
            return Plan {
                out_shape,
                targets: p.targets,
                steps: p.steps,
                inputs: p.inputs,
                op: p.op,
            };
        }
        let (ha, hb) = (self.is_half_ensured(a_id), self.is_half_ensured(b_id));
        let mixed: bool = self.uses_bf16_mixed_precision();
        let t: usize = self.next_target(mixed);
        let mut s: Vec<Step<T>> = vec![Step::AllocOut];
        push_if(&mut s, mixed, Step::AllocScratch(m * n));
        s.push(Step::Ensure(a_id));
        s.push(Step::Ensure(b_id));
        s.push(Step::Ensure(t));
        push_if(&mut s, ha, Step::CastIn { id: a_id, size: m * k });
        push_if(&mut s, hb, Step::CastIn { id: b_id, size: k * n });
        call(
            &mut s,
            Kernel::MatmulTransBF32,
            &mm_args_of(full_arg_of(a_id, ha), full_arg_of(b_id, hb), Arg::Data(t), m, k, n),
            tiled_launch(n, m, 1),
        );
        push_if(&mut s, !self.no_grad, Step::Record);
        end_scratch(&mut s, mixed, m * n);
        Plan {
            out_shape,
            targets: Vec::new(),
            steps: s,
            inputs: pair(a_id, b_id),
            op: DeviceOp::MatmulTransB { dims: d },
        }
    }

    /// The plan for a product with rounding to 16 bits on the way. A right operand on the host is
    /// streamed.
    pub fn matmul_bf16_plan(&self, a_id: usize, b_id: usize) -> (r: Plan<T>)
        requires
            self.wf(),
            numbered(*self),
            matmul_bf16_device_ok(*self, a_id, b_id),
        ensures
            matmul_bf16_planned(*self, r, a_id, b_id),
    {
        if !in_device_memory(self.data_kind(b_id)) {
            return self.matmul_bf16_streamed(a_id, b_id);
        }
        let (m, k) = self.rows_and_columns(a_id);
        let n: usize = self.tensors[b_id].shape[1];
        let dims = MatmulDims { m, k, n };
        let ha: bool = self.is_half(a_id);
        let hb: bool = self.is_half_ensured(b_id);
        let mixed: bool = self.uses_bf16_mixed_precision();
        let t: usize = self.next_target(mixed);
        let mut s: Vec<Step<T>> = vec![Step::Ensure(b_id), Step::AllocOut];
        push_if(&mut s, mixed, Step::AllocScratch(m * n));
        push_if(&mut s, ha, Step::CastIn { id: a_id, size: m * k });
        let fwd = if hb {
            Kernel::MatmulF32Bf16rhsaccumF32
        } else {
            Kernel::MatmulF32Bf16accumF32
        };
        call(
            &mut s,
            fwd,
            &mm_args_of(full_arg_of(a_id, ha), Arg::Data(b_id), Arg::Data(t), m, k, n),
            tiled_launch(n, m, 1),
        );
        end_scratch(&mut s, mixed, m * n);
        push_if(&mut s, !self.no_grad, Step::Record);
        Plan {
            out_shape: pair(m, n),
            targets: Vec::new(),
            steps: s,
            inputs: pair(a_id, b_id),
            op: DeviceOp::MatmulBf16 { dims },
        }
    }

    /// The plan for a product of pairs.
    pub fn bmm_plan(&self, a_id: usize, b_id: usize, trans_b: bool) -> (r: Plan<T>)
        requires
            self.wf(),
            numbered(*self),
            bmm_device_ok(*self, a_id, b_id, trans_b),
        ensures
            bmm_planned(*self, r, a_id, b_id, trans_b),
    {
        let batch: usize = self.tensors[a_id].shape[0];
        let m: usize = self.tensors[a_id].shape[1];
        let k: usize = self.tensors[a_id].shape[2];
        let n: usize = if trans_b {
            self.tensors[b_id].shape[1]
        } else {
            self.tensors[b_id].shape[2]
        };
        let d = BmmDims { batch, m, k, n, trans_b };
        let (size, a_size, b_size) = pair_sizes(d);
        let (ha, hb) = (self.is_half(a_id), self.is_half(b_id));
        let mixed: bool = self.uses_bf16_mixed_precision();
        let t: usize = self.next_target(mixed);
        let mut s: Vec<Step<T>> = vec![Step::AllocOut];
        push_if(&mut s, mixed, Step::AllocScratch(size));
        push_if(&mut s, ha, Step::CastIn { id: a_id, size: a_size });
        push_if(&mut s, hb, Step::CastIn { id: b_id, size: b_size });
        s.push(Step::Ensure(a_id));
        s.push(Step::Ensure(b_id));
        s.push(Step::Ensure(t));
        let mut args = bmm_args_of(full_arg_of(a_id, ha), full_arg_of(b_id, hb), Arg::Data(t), d);
        args.push(Arg::Flag(trans_b));
        assert(d == bmm_dims(shape_of(*self, a_id), shape_of(*self, b_id), trans_b));
        let fwd = if mixed {
            Kernel::BmmF32Bf16accumF32
        } else {
            Kernel::BmmF32
        };
        call(&mut s, fwd, &args, tiled_launch(n, m, batch));
        end_scratch(&mut s, mixed, size);
        push_if(&mut s, !self.no_grad, Step::Record);
        assert(s@ == bmm_steps(*self, a_id, b_id, trans_b));
        Plan {
            out_shape: triple(batch, m, n),
            targets: Vec::new(),
            steps: s,
            inputs: pair(a_id, b_id),
            op: DeviceOp::Bmm { dims: d },
        }
    }

    fn reduce_plan(
        &self,
        a_id: usize,
        dim: usize,
        label: Label,
        k: Kernel,
        is_max: bool,
    ) -> (r: Plan<T>)
        requires
            self.wf(),
            numbered(*self),
            reduce_device_ok(*self, a_id, dim),
        ensures
            r.out_shape@ == shape_of(*self, a_id).remove(dim as int),
            r.steps@ == reduce_steps(*self, a_id, dim, label, k),
            r.inputs@ == seq![a_id],
            r.op == (if is_max {
                DeviceOp::<T>::Max {
                    dims: reduce_dims(*self, a_id, dim),
                    size: product(shape_of(*self, a_id)) as usize,
                }
            } else {
                DeviceOp::<T>::Sum { dims: reduce_dims(*self, a_id, dim) }
            }),
    {
        assert(self.tensors@[a_id as int].shape_wf());
        let size: usize = self.tensors[a_id].size();
        let out_shape = shape_without(&self.tensors[a_id].shape, dim);
        let strides = shape_without(&self.tensors[a_id].strides, dim);
        let d = ReduceDims {
            out_size: element_count(out_shape.as_slice()),
            reduced_size: self.tensors[a_id].shape[dim] as u64,
            reduced_stride: self.tensors[a_id].strides[dim] as u64,
            rank: out_shape.len() as u64,
            out: dims3_of(&out_shape, 1),
            strides: dims3_of(&strides, 0),
        };
        let ha: bool = self.is_half(a_id);
        let mixed: bool = self.uses_bf16_mixed_precision();
        let t: usize = self.next_target(mixed);
        let mut s: Vec<Step<T>> = vec![Step::AllocOut, Step::NameOut(label)];
        push_if(&mut s, mixed, Step::AllocScratch(d.out_size));
        push_if(&mut s, ha, Step::CastIn { id: a_id, size });
        let mut args: Vec<Arg<T>> = vec![full_arg_of(a_id, ha), Arg::Data(t)];
        append_args(&mut args, &reduce_args_of(d));
        call(&mut s, k, &args, elementwise_launch(d.out_size));
        end_scratch(&mut s, mixed, d.out_size);
        push_if(&mut s, !self.no_grad, Step::Record);
        let op = if is_max {
            DeviceOp::Max { dims: d, size }
        } else {
            DeviceOp::Sum { dims: d }
        };
        Plan { out_shape, targets: Vec::new(), steps: s, inputs: single(a_id), op }
    }

    /// The plan for a sum over a dimension.
    pub fn sum_plan(&self, a_id: usize, dim: usize) -> (r: Plan<T>)
        requires
            self.wf(),
            numbered(*self),
            reduce_device_ok(*self, a_id, dim),
        ensures
            sum_planned(*self, r, a_id, dim),
    {
        self.reduce_plan(a_id, dim, Label::Sum, Kernel::SumF32, false)
    }

    /// The plan for maxima over a dimension.
    pub fn max_plan(&self, a_id: usize, dim: usize) -> (r: Plan<T>)
        requires
            self.wf(),
            numbered(*self),
            reduce_device_ok(*self, a_id, dim),
        ensures
            max_planned(*self, r, a_id, dim),
    {
        self.reduce_plan(a_id, dim, Label::Max, Kernel::MaxF32, true)
    }

    /// The plan for a softmax.
    pub fn softmax_plan(&self, a_id: usize) -> (r: Plan<T>)
        requires
            self.wf(),
            numbered(*self),
            softmax_device_ok(*self, a_id),
        ensures
            softmax_planned(*self, r, a_id),
    {
        let out_shape = self.tensors[a_id].shape.clone();
        let n: usize = out_shape[out_shape.len() - 1];
        let rows: usize = self.tensors[a_id].data.len() / n;
        let (fwd, back) = if self.is_half(a_id) {
            (Kernel::SoftmaxBf16, Kernel::SoftmaxBackwardBf16inF32)
        } else {
            (Kernel::SoftmaxF32, Kernel::SoftmaxBackwardF32)
        };
        let out: usize = self.tensors.len();
        let mut s: Vec<Step<T>> = vec![
            Step::AllocOut,
            Step::NameOut(Label::Softmax),
            Step::Ensure(a_id),
            Step::Ensure(out),
        ];
        call(
            &mut s,
            fwd,
            &vec![
                Arg::Data(a_id),
                Arg::Data(out),
                Arg::Size(rows as u64),
                Arg::Size(n as u64),
            ],
            elementwise_launch(rows),
        );
        push_if(&mut s, !self.no_grad, Step::Record);
        Plan {
            out_shape,
            targets: Vec::new(),
            steps: s,
            inputs: single(a_id),
            op: DeviceOp::Softmax { rows: rows as u64, n: n as u64, back },
        }
    }

    fn push_zero_call(s: &mut Vec<Step<T>>, t: usize)
        ensures
            final(s)@ == zero_call(old(s)@, t),
    {
        call(
            s,
            Kernel::FillF32,
            &vec![Arg::Data(t), Arg::Real(T::zero()), Arg::Size(1)],
            elementwise_launch(1),
        );
    }

    /// The plan for a loss over all targets.
    pub fn cross_entropy_plan(&self, logits_id: usize, targets: &[usize]) -> (r: Plan<T>)
        requires
            self.wf(),
            numbered(*self),
            loss_device_ok(*self, logits_id),
        ensures
            cross_entropy_planned(*self, r, logits_id, targets@),
    {
        let b: usize = self.tensors[logits_id].shape[0];
        let c: usize = self.tensors[logits_id].shape[1];
        let hl: bool = self.is_half(logits_id);
        let mixed: bool = self.uses_bf16_mixed_precision();
        let t: usize = self.next_target(mixed);
        let mut s: Vec<Step<T>> = vec![Step::AllocOut, Step::NameOut(Label::CrossEntropy)];
        push_if(&mut s, mixed, Step::AllocScratch(1));
        s.push(Step::UploadTargets);
        push_if(&mut s, hl, Step::CastIn { id: logits_id, size: b * c });
        Self::push_zero_call(&mut s, t);
        call(
            &mut s,
            Kernel::CrossEntropyF32,
            &vec![
                full_arg_of(logits_id, hl),
                Arg::Targets(self.tensors.len()),
                Arg::Data(t),
                Arg::Size(b as u64),
                Arg::Size(c as u64),
            ],
            elementwise_launch(b),
        );
        end_scratch(&mut s, mixed, 1);
        push_if(&mut s, !self.no_grad, Step::Record);
        Plan {
            out_shape: Vec::new(),
            targets: target_numbers_of(targets, false),
            steps: s,
            inputs: single(logits_id),
            op: DeviceOp::CrossEntropy { batch: b, classes: c, normalizer: None },
        }
    }

    /// The plan for a loss over the targets that are not to be ignored, some but not all of them.
    pub fn cross_entropy_masked_plan(
        &self,
        logits_id: usize,
        targets: &[usize],
        normalizer: T,
    ) -> (r: Plan<T>)
        requires
            self.wf(),
            numbered(*self),
            loss_device_ok(*self, logits_id),
        ensures
            cross_entropy_masked_planned(*self, r, logits_id, targets@, normalizer),
    {
        let b: usize = self.tensors[logits_id].shape[0];
        let c: usize = self.tensors[logits_id].shape[1];
        let hl: bool = self.is_half(logits_id);
        let mixed: bool = self.uses_bf16_mixed_precision();
        let t: usize = self.next_target(mixed);
        let mut s: Vec<Step<T>> = vec![Step::AllocOut, Step::NameOut(Label::CrossEntropyMasked)];
        push_if(&mut s, mixed, Step::AllocScratch(1));
        Self::push_zero_call(&mut s, t);
        s.push(Step::UploadTargets);
        push_if(&mut s, hl, Step::CastIn { id: logits_id, size: b * c });
        call(
            &mut s,
            Kernel::CrossEntropyMaskedF32,
            &vec![
                full_arg_of(logits_id, hl),
                Arg::Targets(self.tensors.len()),
                Arg::Data(t),
                Arg::Real(normalizer),
                Arg::Size(b as u64),
                Arg::Size(c as u64),
            ],
            elementwise_launch(b),
        );
        end_scratch(&mut s, mixed, 1);
        push_if(&mut s, !self.no_grad, Step::Record);
        Plan {
            out_shape: Vec::new(),
            targets: target_numbers_of(targets, true),
            steps: s,
            inputs: single(logits_id),
            op: DeviceOp::CrossEntropy { batch: b, classes: c, normalizer: Some(normalizer) },
        }
    }

    fn moving_plan(
        &self,
        a_id: usize,
        head: Vec<Step<T>>,
        k: Kernel,
        sizes: &Vec<Arg<T>>,
        n: usize,
        out_shape: Vec<usize>,
        op: DeviceOp<T>,
    ) -> (r: Plan<T>)
        requires
            numbered(*self),
        ensures
            r.out_shape@ == out_shape@,
            r.steps@ == moving_steps(*self, a_id, head@, k, sizes@, n),
            r.inputs@ == seq![a_id],
            r.op == op,
    {
        let out: usize = self.tensors.len();
        let mut s = head;
        s.push(Step::Ensure(a_id));
        s.push(Step::Ensure(out));
        let mut args: Vec<Arg<T>> = vec![Arg::Data(a_id), Arg::Data(out)];
        append_args(&mut args, sizes);
        call(&mut s, k, &args, elementwise_launch(n));
        push_if(&mut s, !self.no_grad, Step::Record);
        Plan { out_shape, targets: Vec::new(), steps: s, inputs: single(a_id), op }
    }

    /// The plan for an exchange of the two dimensions before the last.
    pub fn transpose_0213_plan(&self, a_id: usize) -> (r: Plan<T>)
        requires
            self.wf(),
            numbered(*self),
            transpose_0213_device_ok(*self, a_id),
        ensures
            transpose_0213_planned(*self, r, a_id),
    {
        assert(self.tensors@[a_id as int].shape_wf());
        let rank: usize = self.tensors[a_id].shape.len();
        let s: usize = self.tensors[a_id].shape[rank - 3];
        let h: usize = self.tensors[a_id].shape[rank - 2];
        let d: usize = self.tensors[a_id].shape[rank - 1];
        let mut out_shape = leading(&self.tensors[a_id].shape, rank - 3);
        let b: usize = element_count(out_shape.as_slice());
        out_shape.push(h);
        out_shape.push(s);
        out_shape.push(d);
        assert(out_shape@ =~= swap_shape(shape_of(*self, a_id)));
        let k = if self.is_half(a_id) {
            Kernel::Transpose0213Bf16
        } else {
            Kernel::Transpose0213F32
        };
        self.moving_plan(
            a_id,
            vec![Step::AllocOut],
            k,
            &swap_args_of(b, s, h, d),
            self.tensors[a_id].size(),
            out_shape,
            DeviceOp::Transpose0213 { b, s, h, d },
        )
    }

    /// The plan for a copy into another shape.
    pub fn reshape_plan(&self, a_id: usize, new_shape: Vec<usize>) -> (r: Plan<T>)
        requires
            numbered(*self),
            moving_ok(*self, a_id),
        ensures
            reshape_planned(*self, r, a_id, new_shape@),
    {
        let n: usize = self.tensors[a_id].data.len();
        let k = if self.is_half(a_id) {
            Kernel::CopyBf16
        } else {
            Kernel::CopyF32
        };
        let head: Vec<Step<T>> = vec![Step::AllocOut];
        let sizes: Vec<Arg<T>> = vec![Arg::Size(n as u64)];
        assert(sizes@ =~= seq![Arg::Size(n as u64)]);
        self.moving_plan(a_id, head, k, &sizes, n, new_shape, DeviceOp::Reshape { n })
    }

    /// The plan for a rotation.
    pub fn rope_plan(&self, a_id: usize, head_dim: usize) -> (r: Plan<T>)
        requires
            self.wf(),
            numbered(*self),
            rope_device_ok(*self, a_id),
        ensures
            rope_planned(*self, r, a_id, head_dim),
    {
        assert(self.tensors@[a_id as int].shape_wf());
        let pairs: usize = self.tensors[a_id].size() / 2;
        let dims = RopeDims {
            rows: self.tensors[a_id].shape[0] * self.tensors[a_id].shape[1],
            seq: self.tensors[a_id].shape[1],
            hidden: self.tensors[a_id].shape[2],
            head: head_dim,
        };
        let k = if self.is_half(a_id) {
            Kernel::RopeBf16
        } else {
            Kernel::RopeF32
        };
        self.moving_plan(
            a_id,
            vec![Step::AllocOut],
            k,
            &rope_args_of(dims, pairs),
            pairs,
            self.tensors[a_id].shape.clone(),
            DeviceOp::Rope { dims, pairs },
        )
    }

    /// The plan for a repetition of heads, other than once.
    pub fn repeat_kv_plan(&self, x_id: usize, repeats: usize) -> (r: Plan<T>)
        requires
            self.wf(),
            numbered(*self),
            repeat_device_ok(*self, x_id, repeats),
        ensures
            repeat_kv_planned(*self, r, x_id, repeats),
    {
        assert(self.tensors@[x_id as int].shape_wf());
        let size: usize = self.tensors[x_id].size();
        let dims = RepeatDims {
            batch: self.tensors[x_id].shape[0],
            kv: self.tensors[x_id].shape[1],
            repeats,
            seq: self.tensors[x_id].shape[2],
            dim: self.tensors[x_id].shape[3],
        };
        let mut out_shape = triple(dims.batch, dims.kv * repeats, dims.seq);
        out_shape.push(dims.dim);
        assert(out_shape@ =~= repeat_shape(shape_of(*self, x_id), repeats));
        let n: usize = element_count(out_shape.as_slice());
        let (fwd, back) = if self.is_half(x_id) {
            (Kernel::RepeatKvBf16, Kernel::RepeatKvBackwardBf16)
        } else {
            (Kernel::RepeatKvF32, Kernel::RepeatKvBackwardF32)
        };
        self.moving_plan(
            x_id,
            vec![Step::AllocOut, Step::NameOut(Label::RepeatKv)],
            fwd,
            &repeat_args_of(dims),
            n,
            out_shape,
            DeviceOp::RepeatKv { dims, back, size },
        )
    }

    /// The plan for a gathering of rows.
    pub fn gather_plan(&self, weights_id: usize, indices_id: usize) -> (r: Plan<T>)
        requires
            self.wf(),
            numbered(*self),
            gather_device_ok(*self, weights_id, indices_id),
        ensures
            gather_planned(*self, r, weights_id, indices_id),
    {
        let hidden: usize = self.tensors[weights_id].shape[1];
        let count: usize = self.tensors[indices_id].data.len();
        let n: usize = count * hidden;
        let hw: bool = self.is_half(weights_id);
        let hi: bool = self.is_half(indices_id);
        let mixed: bool = self.uses_bf16_mixed_precision();
        let scratch: bool = mixed && !hw;
        let t: usize = self.next_target(scratch);
        let k = if hw {
            if mixed {
                Kernel::GatherBf16Bf16out
            } else {
                Kernel::GatherBf16F32
            }
        } else {
            Kernel::GatherF32
        };
        let mut s: Vec<Step<T>> = vec![Step::AllocOut];
        push_if(&mut s, scratch, Step::AllocScratch(n));
        push_if(&mut s, hi, Step::CastIn { id: indices_id, size: count });
        call(
            &mut s,
            k,
            &vec![
                Arg::Data(weights_id),
                full_arg_of(indices_id, hi),
                Arg::Data(t),
                Arg::Size(hidden as u64),
                Arg::Size(n as u64),
            ],
            elementwise_launch(n),
        );
        end_scratch(&mut s, scratch, n);
        push_if(&mut s, !self.no_grad, Step::Record);
        let mut out_shape = self.tensors[indices_id].shape.clone();
        out_shape.push(hidden);
        Plan {
            out_shape,
            targets: Vec::new(),
            steps: s,
            inputs: pair(weights_id, indices_id),
            op: DeviceOp::Gather { hidden, indices: count, out_size: n },
        }
    }

    /// The plan for a normalisation of rows.
    pub fn rms_norm_plan(&self, x_id: usize, weight_id: usize, eps: T) -> (r: Plan<T>)
        requires
            self.wf(),
            numbered(*self),
            rms_device_ok(*self, x_id, weight_id),
        ensures
            rms_norm_planned(*self, r, x_id, weight_id, eps),
    {
        let out_shape = self.tensors[x_id].shape.clone();
        let dim: usize = out_shape[out_shape.len() - 1];
        let rows: usize = self.tensors[x_id].data.len() / dim;
        let (hx, hw) = (self.is_half(x_id), self.is_half(weight_id));
        let (fwd, back) = if hx && hw {
            (Kernel::RmsnormBf16, Kernel::RmsnormBackwardBf16inF32)
        } else if hw {
            (Kernel::RmsnormF32Bf16w, Kernel::RmsnormBackwardBf16wF32)
        } else {
            (Kernel::RmsnormF32, Kernel::RmsnormBackwardF32)
        };
        let out: usize = self.tensors.len();
        let mut s: Vec<Step<T>> = vec![
            Step::AllocOut,
            Step::NameOut(Label::RmsNorm),
            Step::Ensure(x_id),
            Step::Ensure(weight_id),
            Step::Ensure(out),
        ];
        call(
            &mut s,
            fwd,
            &vec![
                Arg::Data(x_id),
                Arg::Data(weight_id),
                Arg::Data(out),
                Arg::Size(dim as u64),
                Arg::Real(eps),
                Arg::Size(rows as u64),
            ],
            elementwise_launch(rows),
        );
        push_if(&mut s, !self.no_grad, Step::Record);
        Plan {
            out_shape,
            targets: Vec::new(),
            steps: s,
            inputs: pair(x_id, weight_id),
            op: DeviceOp::RmsNorm { dim, rows, eps, back },
        }
    }

    /// The plan for an attention in one pass; nothing is recorded.
    pub fn flash_attention_plan(
        &self,
        q_id: usize,
        k_id: usize,
        v_id: usize,
        scale: T,
        causal: bool,
    ) -> (r: Plan<T>)
        requires
            self.wf(),
            numbered(*self),
            self.no_grad,
            flash_device_ok(*self, q_id, k_id, v_id),
        ensures
            flash_attention_planned(*self, r, q_id, k_id, v_id, scale, causal),
    {
        assert(self.tensors@[q_id as int].shape_wf());
        assert(self.tensors@[k_id as int].shape_wf());
        let batch: usize = self.tensors[q_id].shape[0];
        let m: usize = self.tensors[q_id].shape[1];
        let d: usize = self.tensors[q_id].shape[2];
        let n: usize = self.tensors[k_id].shape[1];
        let size: usize = self.tensors[q_id].size();
        let keys: usize = self.tensors[k_id].size();
        let (hq, hk, hv) = (self.is_half(q_id), self.is_half(k_id), self.is_half(v_id));
        let mixed: bool = self.uses_bf16_mixed_precision();
        let t: usize = self.next_target(mixed);
        let mut s: Vec<Step<T>> = vec![Step::AllocOut, Step::NameOut(Label::FlashAttention)];
        push_if(&mut s, mixed, Step::AllocScratch(size));
        push_if(&mut s, hq, Step::CastIn { id: q_id, size });
        push_if(&mut s, hk, Step::CastIn { id: k_id, size: keys });
        push_if(&mut s, hv, Step::CastIn { id: v_id, size: keys });
        call(
            &mut s,
            Kernel::FlashAttentionF32,
            &vec![
                full_arg_of(q_id, hq),
                full_arg_of(k_id, hk),
                full_arg_of(v_id, hv),
                Arg::Data(t),
                Arg::Size(batch as u64),
                Arg::Size(m as u64),
                Arg::Size(n as u64),
                Arg::Size(d as u64),
                Arg::Real(scale),
                Arg::Flag(causal),
            ],
            elementwise_launch(batch * m),
        );
        end_scratch(&mut s, mixed, size);
        Plan {
            out_shape: self.tensors[q_id].shape.clone(),
            targets: Vec::new(),
            steps: s,
            inputs: Vec::new(),
            op: DeviceOp::Reshape { n: size },
        }
    }
}

} // verus!
