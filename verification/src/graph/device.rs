//! Operations on the device, as plans.
use crate::graph::host::{
    bmm_dims, flash_dims, flash_ok, matmul_sizes, repeat_dims, repeat_shape, rope_dims, shape_of,
    swap_shape, swap_sizes,
};
use crate::graph::kernel::Kernel;
use crate::graph::launch::{dims_for, tiled, tiles_fit};
use crate::graph::ops::gqa::RepeatDims;
use crate::graph::ops::linear::BmmDims;
use crate::graph::ops::transform::RopeDims;
use crate::graph::plan::{call_steps, step_if, Arg, Label, Step};
use crate::graph::Graph;
use crate::scalar::Scalar;
use crate::tape::{DeviceOp, Dims3, MatmulDims, ReduceDims};
use crate::tensor::{broadcast_shape, broadcast_strides, product, shape_fits, StorageKind};
use vstd::prelude::*;

verus! {

/// The work for one operation on the device.
pub struct Plan<T> {
    /// The shape of the result.
    pub out_shape: Vec<usize>,
    /// The targets of a loss.
    pub targets: Vec<T>,
    pub steps: Vec<Step<T>>,
    /// The operands, for the tape.
    pub inputs: Vec<usize>,
    /// The operation, for the tape.
    pub op: DeviceOp<T>,
}

/// How the elements of a tensor are kept.
pub open spec fn kind_of<T: Scalar>(g: Graph<T>, id: usize) -> StorageKind {
    g.tensors@[id as int].data.spec_kind()
}

/// How they are kept once the tensor has been brought to the device.
pub open spec fn ensured_kind<T: Scalar>(g: Graph<T>, id: usize) -> StorageKind {
    match kind_of(g, id) {
        StorageKind::Cpu => if g.mixed() && g.tensors@[id as int].is_pooled {
            StorageKind::GpuBf16
        } else {
            StorageKind::Gpu
        },
        StorageKind::CpuBf16 => StorageKind::Gpu,
        k => k,
    }
}

/// How the elements of an activation are kept.
pub open spec fn out_kind<T: Scalar>(g: Graph<T>) -> StorageKind {
    if g.mixed() {
        StorageKind::GpuBf16
    } else {
        StorageKind::Gpu
    }
}

/// The elements are on the device.
pub open spec fn on_gpu(k: StorageKind) -> bool {
    k == StorageKind::Gpu || k == StorageKind::GpuBf16
}

pub(crate) fn in_device_memory(k: StorageKind) -> (r: bool)
    ensures
        r == on_gpu(k),
{
    match k {
        StorageKind::Gpu => true,
        StorageKind::GpuBf16 => true,
        _ => false,
    }
}

/// The elements of a tensor in full precision: those themselves, or the copy.
pub open spec fn full_arg<T>(id: usize, half: bool) -> Arg<T> {
    if half {
        Arg::Cast(id)
    } else {
        Arg::Data(id)
    }
}

/// The number of the result.
pub open spec fn out_id<T: Scalar>(g: Graph<T>) -> usize {
    g.tensors@.len() as usize
}

/// The tensor that a result is computed in.
pub open spec fn target_id<T: Scalar>(g: Graph<T>, scratch: bool) -> usize {
    if scratch {
        (g.tensors@.len() + 1) as usize
    } else {
        g.tensors@.len() as usize
    }
}

/// The end of an operation that was computed in a scratch tensor.
pub open spec fn unscratch<T>(s: Seq<Step<T>>, scratch: bool, size: usize) -> Seq<Step<T>> {
    if scratch {
        s.push(Step::CastOut(size)).push(Step::DropScratch)
    } else {
        s
    }
}

pub(crate) fn end_scratch<T: Copy>(s: &mut Vec<Step<T>>, scratch: bool, size: usize)
    ensures
        final(s)@ == unscratch(old(s)@, scratch, size),
{
    if scratch {
        s.push(Step::CastOut(size));
        s.push(Step::DropScratch);
    }
}

/// Up to three sizes, with `fill` where there are fewer.
pub open spec fn dims3(v: Seq<usize>, fill: u64) -> Dims3 {
    Dims3 {
        d0: if v.len() > 0 {
            v[0] as u64
        } else {
            fill
        },
        d1: if v.len() > 1 {
            v[1] as u64
        } else {
            fill
        },
        d2: if v.len() > 2 {
            v[2] as u64
        } else {
            fill
        },
    }
}

pub(crate) fn dims3_of(v: &Vec<usize>, fill: u64) -> (r: Dims3)
    ensures
        r == dims3(v@, fill),
{
    Dims3 {
        d0: if v.len() > 0 {
            v[0] as u64
        } else {
            fill
        },
        d1: if v.len() > 1 {
            v[1] as u64
        } else {
            fill
        },
        d2: if v.len() > 2 {
            v[2] as u64
        } else {
            fill
        },
    }
}

/// A result can be numbered, and so can a scratch tensor behind it.
pub open spec fn numbered<T: Scalar>(g: Graph<T>) -> bool {
    g.tensors@.len() + 1 <= usize::MAX
}

pub(crate) fn full_arg_of<T: Copy>(id: usize, half: bool) -> (r: Arg<T>)
    ensures
        r == full_arg::<T>(id, half),
{
    if half {
        Arg::Cast(id)
    } else {
        Arg::Data(id)
    }
}

// Addition and multiplication.

/// The kernel for an addition.
pub open spec fn add_kernel<T: Scalar>(g: Graph<T>, a: usize, b: usize) -> Kernel {
    let (ha, hb) = (kind_of(g, a) == StorageKind::GpuBf16, kind_of(g, b) == StorageKind::GpuBf16);
    if g.mixed() && ha && hb {
        Kernel::AddBf16
    } else if g.mixed() && ha {
        Kernel::AddBf16lhsF32rhsBf16out
    } else {
        Kernel::AddF32
    }
}

/// The operands of an addition are kept in ways that go together.
pub open spec fn add_kinds_ok(a: StorageKind, b: StorageKind, out: StorageKind) -> bool {
    ||| a == StorageKind::Gpu && b == StorageKind::Gpu && out == StorageKind::Gpu
    ||| a == StorageKind::GpuBf16 && b == StorageKind::GpuBf16 && out == StorageKind::GpuBf16
    ||| a == StorageKind::GpuBf16 && b == StorageKind::Gpu && out == StorageKind::GpuBf16
    ||| a == StorageKind::GpuBf16 && b == StorageKind::Cpu && out == StorageKind::GpuBf16
}

/// Two tensors can be added on the device.
pub open spec fn add_device_ok<T: Scalar>(g: Graph<T>, a: usize, b: usize) -> bool {
    let out = broadcast_shape(shape_of(g, a), shape_of(g, b));
    &&& a < g.tensors@.len()
    &&& b < g.tensors@.len()
    &&& shape_fits(out)
    &&& out.len() <= 3
    &&& add_kinds_ok(kind_of(g, a), kind_of(g, b), out_kind(g))
}

/// What is recorded of an addition.
pub open spec fn add_op<T: Scalar>(g: Graph<T>, a: usize, b: usize) -> DeviceOp<T> {
    let (sa, sb) = (shape_of(g, a), shape_of(g, b));
    let out = broadcast_shape(sa, sb);
    DeviceOp::Add {
        n: product(out) as usize,
        rank: out.len() as u64,
        shape: dims3(out, 1),
        a: dims3(broadcast_strides(sa, g.tensors@[a as int].strides@, out), 0),
        b: dims3(broadcast_strides(sb, g.tensors@[b as int].strides@, out), 0),
    }
}

/// The steps of an addition.
pub open spec fn add_steps<T: Scalar>(g: Graph<T>, a: usize, b: usize) -> Seq<Step<T>> {
    let (sa, sb) = (shape_of(g, a), shape_of(g, b));
    let out = broadcast_shape(sa, sb);
    let n = product(out) as usize;
    let s = dims3(out, 1);
    let ta = dims3(broadcast_strides(sa, g.tensors@[a as int].strides@, out), 0);
    let tb = dims3(broadcast_strides(sb, g.tensors@[b as int].strides@, out), 0);
    let up = kind_of(g, b) == StorageKind::Cpu;
    let s0 = seq![Step::AllocOut, Step::NameOut(Label::Add)];
    let s1 = step_if(s0, up, Step::UploadInt(b));
    let s2 = call_steps(
        s1,
        add_kernel(g, a, b),
        seq![
            Arg::Data(a),
            if up {
                Arg::Upload(b)
            } else {
                Arg::Data(b)
            },
            Arg::Data(out_id(g)),
            Arg::Size(n as u64),
            Arg::Size(out.len() as u64),
            Arg::Size(s.d0),
            Arg::Size(s.d1),
            Arg::Size(s.d2),
            Arg::Size(ta.d0),
            Arg::Size(ta.d1),
            Arg::Size(ta.d2),
            Arg::Size(tb.d0),
            Arg::Size(tb.d1),
            Arg::Size(tb.d2),
        ],
        dims_for(n as u32),
    );
    step_if(s2, !g.no_grad, Step::Record)
}

/// The kernels for a multiplication and its way back.
pub open spec fn mul_kernels<T: Scalar>(g: Graph<T>, a: usize, b: usize) -> (Kernel, Kernel) {
    let (ha, hb) = (kind_of(g, a) == StorageKind::GpuBf16, kind_of(g, b) == StorageKind::GpuBf16);
    if ha && hb {
        (Kernel::MulBf16, Kernel::MulBackwardBf16inF32)
    } else if ha {
        (Kernel::MulBf16lhsF32rhsBf16out, Kernel::MulBackwardBf16lhsF32rhs)
    } else {
        (Kernel::MulF32, Kernel::MulBackwardF32)
    }
}

/// Two tensors can be multiplied on the device, element by element.
pub open spec fn mul_device_ok<T: Scalar>(g: Graph<T>, a: usize, b: usize) -> bool {
    &&& a < g.tensors@.len()
    &&& b < g.tensors@.len()
    &&& shape_fits(broadcast_shape(shape_of(g, a), shape_of(g, b)))
    &&& kind_of(g, b) != StorageKind::Cpu
    &&& add_kinds_ok(kind_of(g, a), kind_of(g, b), out_kind(g))
}

/// The steps of a multiplication.
pub open spec fn mul_steps<T: Scalar>(g: Graph<T>, a: usize, b: usize) -> Seq<Step<T>> {
    let n = product(broadcast_shape(shape_of(g, a), shape_of(g, b))) as usize;
    let s = call_steps(
        seq![Step::AllocOut, Step::NameOut(Label::Mul)],
        mul_kernels(g, a, b).0,
        seq![Arg::Data(a), Arg::Data(b), Arg::Data(out_id(g)), Arg::Size(n as u64)],
        dims_for(n as u32),
    );
    step_if(s, !g.no_grad, Step::Record)
}

/// A tensor can go through SiLU on the device.
pub open spec fn silu_device_ok<T: Scalar>(g: Graph<T>, a: usize) -> bool {
    a < g.tensors@.len() && kind_of(g, a) == out_kind(g)
}

/// The steps of SiLU.
pub open spec fn silu_steps<T: Scalar>(g: Graph<T>, a: usize) -> Seq<Step<T>> {
    let n = product(shape_of(g, a)) as usize;
    let s = call_steps(
        seq![Step::AllocOut, Step::NameOut(Label::Silu)],
        if g.mixed() {
            Kernel::SiluBf16
        } else {
            Kernel::SiluF32
        },
        seq![Arg::Data(a), Arg::Data(out_id(g)), Arg::Size(n as u64)],
        dims_for(n as u32),
    );
    step_if(s, !g.no_grad, Step::Record)
}

// Products of matrices.

/// The sizes of a product.
pub open spec fn mm_dims(a_shape: Seq<usize>, b_shape: Seq<usize>) -> MatmulDims {
    let (m, k, n) = matmul_sizes(a_shape, b_shape);
    MatmulDims { m: m as usize, k: k as usize, n: n as usize }
}

/// The sizes of a product with a transposed matrix.
pub open spec fn mm_trans_dims(a_shape: Seq<usize>, b_shape: Seq<usize>) -> MatmulDims {
    MatmulDims {
        m: product(a_shape.drop_last()) as usize,
        k: a_shape.last(),
        n: b_shape[0],
    }
}

/// The operands are kept on the device, or can be brought there before they are used.
pub open spec fn operand_ok<T: Scalar>(g: Graph<T>, id: usize) -> bool {
    kind_of(g, id) == StorageKind::Cpu ==> !(g.mixed() && g.tensors@[id as int].is_pooled)
}

/// The left operand is on the device and the right one on the host, in full precision or in 16
/// bits: the right one is streamed.
pub open spec fn is_streamed<T: Scalar>(g: Graph<T>, a: usize, b: usize) -> bool {
    on_gpu(kind_of(g, a)) && !on_gpu(kind_of(g, b))
}

/// The sizes of a product on the device can be counted.
pub open spec fn mm_sizes_ok(a_shape: Seq<usize>, d: MatmulDims, fits: bool) -> bool {
    &&& a_shape.len() >= 2
    &&& shape_fits(a_shape.drop_last())
    &&& d.m * d.n <= usize::MAX
    &&& fits ==> tiles_fit(d.n, d.m)
}

/// The kernels for a product and the left part of its way back.
pub open spec fn mm_kernels(ha: bool, hb: bool) -> (Kernel, Kernel) {
    if ha && hb {
        (Kernel::MatmulBf16F32, Kernel::MatmulBackwardABf16bF32)
    } else {
        (Kernel::MatmulF32, Kernel::MatmulBackwardAF32)
    }
}

/// The three sizes of a product as arguments, behind three buffers.
pub open spec fn mm_args<T>(
    x: Arg<T>,
    y: Arg<T>,
    z: Arg<T>,
    p: usize,
    q: usize,
    r: usize,
) -> Seq<Arg<T>> {
    seq![x, y, z, Arg::Size(p as u64), Arg::Size(q as u64), Arg::Size(r as u64)]
}

/// Tensors can be multiplied on the device.
pub open spec fn matmul_device_ok<T: Scalar>(g: Graph<T>, a: usize, b: usize) -> bool {
    let d = mm_dims(shape_of(g, a), shape_of(g, b));
    &&& a < g.tensors@.len()
    &&& b < g.tensors@.len()
    &&& mm_sizes_ok(shape_of(g, a), d, true)
    &&& shape_of(g, b).len() == 2
    &&& shape_of(g, b)[0] == d.k
    &&& is_streamed(g, a, b) || (operand_ok(g, a) && operand_ok(g, b))
}

/// The steps of a product of tensors on the device.
pub open spec fn matmul_steps<T: Scalar>(g: Graph<T>, a: usize, b: usize) -> Seq<Step<T>> {
    let d = mm_dims(shape_of(g, a), shape_of(g, b));
    let (ha, hb) = (kind_of(g, a) == StorageKind::GpuBf16, kind_of(g, b) == StorageKind::GpuBf16);
    let t = target_id(g, g.mixed());
    let s = step_if(
        seq![Step::AllocOut],
        g.mixed(),
        Step::AllocScratch((d.m * d.n) as usize),
    );
    let s = step_if(s, ha, Step::CastIn { id: a, size: (d.m * d.k) as usize });
    let s = step_if(s, hb, Step::CastIn { id: b, size: (d.k * d.n) as usize });
    let s = s.push(Step::Ensure(a)).push(Step::Ensure(b)).push(Step::Ensure(t));
    let s = call_steps(
        s,
        mm_kernels(ha, hb).0,
        mm_args(full_arg(a, ha), full_arg(b, hb), Arg::Data(t), d.m, d.k, d.n),
        tiled(d.n as u32, d.m as u32, 1),
    );
    let s = unscratch(s, g.mixed(), (d.m * d.n) as usize);
    step_if(s, !g.no_grad, Step::Record)
}

/// The steps of a product with a streamed matrix.
pub open spec fn streamed_steps<T: Scalar>(
    g: Graph<T>,
    a: usize,
    b: usize,
    d: MatmulDims,
    k: Kernel,
) -> Seq<Step<T>> {
    let ha = kind_of(g, a) == StorageKind::GpuBf16;
    let t = target_id(g, g.mixed());
    let s = step_if(
        seq![Step::UploadFull(b), Step::AllocOut],
        g.mixed(),
        Step::AllocScratch((d.m * d.n) as usize),
    );
    let s = step_if(s, ha, Step::CastIn { id: a, size: (d.m * d.k) as usize });
    let s = call_steps(
        s,
        k,
        mm_args(full_arg(a, ha), Arg::Upload(b), Arg::Data(t), d.m, d.k, d.n),
        tiled(d.n as u32, d.m as u32, 1),
    );
    let s = s.push(Step::Sync).push(Step::DropUpload);
    let s = step_if(s, !g.no_grad, Step::Record);
    unscratch(s, g.mixed(), (d.m * d.n) as usize)
}

/// Tensors can be multiplied on the device, the right one transposed.
pub open spec fn trans_b_device_ok<T: Scalar>(g: Graph<T>, a: usize, b: usize) -> bool {
    let d = mm_trans_dims(shape_of(g, a), shape_of(g, b));
    &&& a < g.tensors@.len()
    &&& b < g.tensors@.len()
    &&& mm_sizes_ok(shape_of(g, a), d, true)
    &&& shape_of(g, b).len() == 2
    &&& shape_of(g, b)[1] == d.k
    &&& shape_fits(trans_b_shape(shape_of(g, a), d.n))
}

/// The shape of a tensor whose rows have another length.
pub open spec fn trans_b_shape(a_shape: Seq<usize>, n: usize) -> Seq<usize> {
    a_shape.drop_last().push(n)
}

/// The steps of a product with a transposed tensor on the device.
pub open spec fn trans_b_steps<T: Scalar>(g: Graph<T>, a: usize, b: usize) -> Seq<Step<T>> {
    let d = mm_trans_dims(shape_of(g, a), shape_of(g, b));
    let (ha, hb) = (
        ensured_kind(g, a) == StorageKind::GpuBf16,
        ensured_kind(g, b) == StorageKind::GpuBf16,
    );
    let t = target_id(g, g.mixed());
    let s = step_if(
        seq![Step::AllocOut],
        g.mixed(),
        Step::AllocScratch((d.m * d.n) as usize),
    );
    let s = s.push(Step::Ensure(a)).push(Step::Ensure(b)).push(Step::Ensure(t));
    let s = step_if(s, ha, Step::CastIn { id: a, size: (d.m * d.k) as usize });
    let s = step_if(s, hb, Step::CastIn { id: b, size: (d.k * d.n) as usize });
    let s = call_steps(
        s,
        Kernel::MatmulTransBF32,
        mm_args(full_arg(a, ha), full_arg(b, hb), Arg::Data(t), d.m, d.k, d.n),
        tiled(d.n as u32, d.m as u32, 1),
    );
    let s = step_if(s, !g.no_grad, Step::Record);
    unscratch(s, g.mixed(), (d.m * d.n) as usize)
}

/// Tensors can be multiplied on the device with rounding to 16 bits on the way.
pub open spec fn matmul_bf16_device_ok<T: Scalar>(g: Graph<T>, a: usize, b: usize) -> bool {
    let d = mm_dims(shape_of(g, a), shape_of(g, b));
    &&& a < g.tensors@.len()
    &&& b < g.tensors@.len()
    &&& mm_sizes_ok(shape_of(g, a), d, true)
    &&& shape_of(g, b).len() == 2
    &&& shape_of(g, b)[0] == d.k
    &&& on_gpu(kind_of(g, a))
}

/// The steps of such a product of tensors on the device.
pub open spec fn matmul_bf16_steps<T: Scalar>(g: Graph<T>, a: usize, b: usize) -> Seq<Step<T>> {
    let d = mm_dims(shape_of(g, a), shape_of(g, b));
    let ha = kind_of(g, a) == StorageKind::GpuBf16;
    let hb = ensured_kind(g, b) == StorageKind::GpuBf16;
    let t = target_id(g, g.mixed());
    let s = step_if(
        seq![Step::Ensure(b), Step::AllocOut],
        g.mixed(),
        Step::AllocScratch((d.m * d.n) as usize),
    );
    let s = step_if(s, ha, Step::CastIn { id: a, size: (d.m * d.k) as usize });
    let s = call_steps(
        s,
        if hb {
            Kernel::MatmulF32Bf16rhsaccumF32
        } else {
            Kernel::MatmulF32Bf16accumF32
        },
        mm_args(full_arg(a, ha), Arg::Data(b), Arg::Data(t), d.m, d.k, d.n),
        tiled(d.n as u32, d.m as u32, 1),
    );
    let s = unscratch(s, g.mixed(), (d.m * d.n) as usize);
    step_if(s, !g.no_grad, Step::Record)
}

/// Matrices can be multiplied pair by pair on the device.
pub open spec fn bmm_device_ok<T: Scalar>(g: Graph<T>, a: usize, b: usize, trans_b: bool) -> bool {
    let d = bmm_dims(shape_of(g, a), shape_of(g, b), trans_b);
    &&& a < g.tensors@.len()
    &&& b < g.tensors@.len()
    &&& shape_of(g, a).len() >= 3
    &&& shape_of(g, b).len() >= (if trans_b {
        2int
    } else {
        3int
    })
    &&& shape_fits(seq![d.batch, d.m, d.n])
    &&& shape_fits(seq![d.batch, d.m, d.k])
    &&& shape_fits(seq![d.batch, d.k, d.n])
    &&& d.batch * d.m <= usize::MAX
    &&& d.batch * d.k <= usize::MAX
    &&& tiles_fit(d.n, d.m)
    &&& operand_ok(g, a)
    &&& operand_ok(g, b)
}

/// The arguments of a product of pairs, behind three buffers.
pub open spec fn bmm_args<T>(x: Arg<T>, y: Arg<T>, z: Arg<T>, d: BmmDims) -> Seq<Arg<T>> {
    seq![
        x,
        y,
        z,
        Arg::Size(d.batch as u64),
        Arg::Size(d.m as u64),
        Arg::Size(d.k as u64),
        Arg::Size(d.n as u64),
    ]
}

/// The steps of a product of pairs.
pub open spec fn bmm_steps<T: Scalar>(
    g: Graph<T>,
    a: usize,
    b: usize,
    trans_b: bool,
) -> Seq<Step<T>> {
    let d = bmm_dims(shape_of(g, a), shape_of(g, b), trans_b);
    let (ha, hb) = (kind_of(g, a) == StorageKind::GpuBf16, kind_of(g, b) == StorageKind::GpuBf16);
    let size = (d.batch * d.m * d.n) as usize;
    let t = target_id(g, g.mixed());
    let s = step_if(seq![Step::AllocOut], g.mixed(), Step::AllocScratch(size));
    let s = step_if(s, ha, Step::CastIn { id: a, size: (d.batch * d.m * d.k) as usize });
    let s = step_if(s, hb, Step::CastIn { id: b, size: (d.batch * d.k * d.n) as usize });
    let s = s.push(Step::Ensure(a)).push(Step::Ensure(b)).push(Step::Ensure(t));
    let s = call_steps(
        s,
        if g.mixed() {
            Kernel::BmmF32Bf16accumF32
        } else {
            Kernel::BmmF32
        },
        bmm_args(full_arg(a, ha), full_arg(b, hb), Arg::Data(t), d).push(Arg::Flag(trans_b)),
        tiled(d.n as u32, d.m as u32, d.batch as u32),
    );
    let s = unscratch(s, g.mixed(), size);
    step_if(s, !g.no_grad, Step::Record)
}

// Reductions.

/// The sizes of a reduction over dimension `dim`.
pub open spec fn reduce_dims<T: Scalar>(g: Graph<T>, a: usize, dim: usize) -> ReduceDims {
    let t = g.tensors@[a as int];
    let out = t.shape@.remove(dim as int);
    ReduceDims {
        out_size: product(out) as usize,
        reduced_size: t.shape@[dim as int] as u64,
        reduced_stride: t.strides@[dim as int] as u64,
        rank: out.len() as u64,
        out: dims3(out, 1),
        strides: dims3(t.strides@.remove(dim as int), 0),
    }
}

/// A tensor can be reduced on the device.
pub open spec fn reduce_device_ok<T: Scalar>(g: Graph<T>, a: usize, dim: usize) -> bool {
    &&& a < g.tensors@.len()
    &&& dim < shape_of(g, a).len() <= 4
    &&& shape_fits(shape_of(g, a).remove(dim as int))
    &&& on_gpu(kind_of(g, a))
}

/// The sizes of a reduction as arguments.
pub open spec fn reduce_args<T>(d: ReduceDims) -> Seq<Arg<T>> {
    seq![
        Arg::Size(d.out_size as u64),
        Arg::Size(d.reduced_size),
        Arg::Size(d.reduced_stride),
        Arg::Size(d.rank),
        Arg::Size(d.out.d0),
        Arg::Size(d.out.d1),
        Arg::Size(d.out.d2),
        Arg::Size(d.strides.d0),
        Arg::Size(d.strides.d1),
        Arg::Size(d.strides.d2),
    ]
}

/// The steps of a reduction.
pub open spec fn reduce_steps<T: Scalar>(
    g: Graph<T>,
    a: usize,
    dim: usize,
    label: Label,
    k: Kernel,
) -> Seq<Step<T>> {
    let d = reduce_dims(g, a, dim);
    let ha = kind_of(g, a) == StorageKind::GpuBf16;
    let t = target_id(g, g.mixed());
    let s = step_if(
        seq![Step::AllocOut, Step::NameOut(label)],
        g.mixed(),
        Step::AllocScratch(d.out_size),
    );
    let s = step_if(s, ha, Step::CastIn { id: a, size: product(shape_of(g, a)) as usize });
    let s = call_steps(
        s,
        k,
        seq![full_arg(a, ha), Arg::Data(t)] + reduce_args(d),
        dims_for(d.out_size as u32),
    );
    let s = unscratch(s, g.mixed(), d.out_size);
    step_if(s, !g.no_grad, Step::Record)
}

/// The last dimension is there and not empty, and the elements are rows of it.
pub open spec fn rows_device_ok<T: Scalar>(g: Graph<T>, a: usize) -> bool {
    &&& a < g.tensors@.len()
    &&& shape_of(g, a).len() > 0
    &&& shape_of(g, a).last() > 0
}

/// The number of rows.
pub open spec fn row_count<T: Scalar>(g: Graph<T>, a: usize) -> int {
    g.tensors@[a as int].data.spec_len() as int / shape_of(g, a).last() as int
}

/// The softmax of a tensor can be taken on the device.
pub open spec fn softmax_device_ok<T: Scalar>(g: Graph<T>, a: usize) -> bool {
    rows_device_ok(g, a) && ensured_kind(g, a) == out_kind(g)
}

/// The kernels for a softmax and its way back.
pub open spec fn softmax_kernels(half: bool) -> (Kernel, Kernel) {
    if half {
        (Kernel::SoftmaxBf16, Kernel::SoftmaxBackwardBf16inF32)
    } else {
        (Kernel::SoftmaxF32, Kernel::SoftmaxBackwardF32)
    }
}

/// The steps of a softmax.
pub open spec fn softmax_steps<T: Scalar>(g: Graph<T>, a: usize) -> Seq<Step<T>> {
    let rows = row_count(g, a);
    let s = seq![
        Step::AllocOut,
        Step::NameOut(Label::Softmax),
        Step::Ensure(a),
        Step::Ensure(out_id(g)),
    ];
    let s = call_steps(
        s,
        softmax_kernels(kind_of(g, a) == StorageKind::GpuBf16).0,
        seq![
            Arg::Data(a),
            Arg::Data(out_id(g)),
            Arg::Size(rows as u64),
            Arg::Size(shape_of(g, a).last() as u64),
        ],
        dims_for(rows as u32),
    );
    step_if(s, !g.no_grad, Step::Record)
}

/// The loss of logits can be taken on the device.
pub open spec fn loss_device_ok<T: Scalar>(g: Graph<T>, l: usize) -> bool {
    &&& l < g.tensors@.len()
    &&& shape_of(g, l).len() >= 2
    &&& shape_of(g, l)[0] * shape_of(g, l)[1] <= usize::MAX
    &&& on_gpu(kind_of(g, l))
}

/// The targets as numbers; those to be ignored become the largest number of 32 bits.
pub open spec fn target_numbers<T: Scalar>(targets: Seq<usize>, masked: bool) -> Seq<T> {
    targets.map_values(
        |t: usize|
            if masked && t == crate::data::fim::IGNORE_INDEX {
                T::spec_from_count(u32::MAX as usize)
            } else {
                T::spec_from_count(t)
            },
    )
}

/// The launch that sets the loss to zero.
pub open spec fn zero_call<T: Scalar>(s: Seq<Step<T>>, t: usize) -> Seq<Step<T>> {
    call_steps(
        s,
        Kernel::FillF32,
        seq![Arg::Data(t), Arg::Real(T::spec_zero()), Arg::Size(1)],
        dims_for(1),
    )
}

/// The steps of a loss over all targets.
pub open spec fn cross_entropy_steps<T: Scalar>(g: Graph<T>, l: usize) -> Seq<Step<T>> {
    let (b, c) = (shape_of(g, l)[0], shape_of(g, l)[1]);
    let hl = kind_of(g, l) == StorageKind::GpuBf16;
    let t = target_id(g, g.mixed());
    let s = step_if(
        seq![Step::AllocOut, Step::NameOut(Label::CrossEntropy)],
        g.mixed(),
        Step::AllocScratch(1),
    );
    let s = step_if(
        s.push(Step::UploadTargets),
        hl,
        Step::CastIn { id: l, size: (b * c) as usize },
    );
    let s = call_steps(
        zero_call(s, t),
        Kernel::CrossEntropyF32,
        seq![
            full_arg(l, hl),
            Arg::Targets(out_id(g)),
            Arg::Data(t),
            Arg::Size(b as u64),
            Arg::Size(c as u64),
        ],
        dims_for(b as u32),
    );
    let s = unscratch(s, g.mixed(), 1);
    step_if(s, !g.no_grad, Step::Record)
}

/// The steps of a loss over the targets that are not to be ignored.
pub open spec fn masked_steps<T: Scalar>(g: Graph<T>, l: usize, normalizer: T) -> Seq<Step<T>> {
    let (b, c) = (shape_of(g, l)[0], shape_of(g, l)[1]);
    let hl = kind_of(g, l) == StorageKind::GpuBf16;
    let t = target_id(g, g.mixed());
    let s = step_if(
        seq![Step::AllocOut, Step::NameOut(Label::CrossEntropyMasked)],
        g.mixed(),
        Step::AllocScratch(1),
    );
    let s = step_if(
        zero_call(s, t).push(Step::UploadTargets),
        hl,
        Step::CastIn { id: l, size: (b * c) as usize },
    );
    let s = call_steps(
        s,
        Kernel::CrossEntropyMaskedF32,
        seq![
            full_arg(l, hl),
            Arg::Targets(out_id(g)),
            Arg::Data(t),
            Arg::Real(normalizer),
            Arg::Size(b as u64),
            Arg::Size(c as u64),
        ],
        dims_for(b as u32),
    );
    let s = unscratch(s, g.mixed(), 1);
    step_if(s, !g.no_grad, Step::Record)
}

// Operations that move elements.

/// The two buffers of an operation that keeps the precision, and its sizes.
pub open spec fn moving_steps<T: Scalar>(
    g: Graph<T>,
    a: usize,
    head: Seq<Step<T>>,
    k: Kernel,
    sizes: Seq<Arg<T>>,
    n: usize,
) -> Seq<Step<T>> {
    let s = head.push(Step::Ensure(a)).push(Step::Ensure(out_id(g)));
    let s = call_steps(s, k, seq![Arg::Data(a), Arg::Data(out_id(g))] + sizes, dims_for(n as u32));
    step_if(s, !g.no_grad, Step::Record)
}

/// The elements can be moved on the device.
pub open spec fn moving_ok<T: Scalar>(g: Graph<T>, a: usize) -> bool {
    a < g.tensors@.len() && ensured_kind(g, a) == out_kind(g)
}

/// The sizes of an exchange as arguments.
pub open spec fn swap_args<T>(b: usize, s: usize, h: usize, d: usize) -> Seq<Arg<T>> {
    seq![Arg::Size(b as u64), Arg::Size(s as u64), Arg::Size(h as u64), Arg::Size(d as u64)]
}

/// The steps of an exchange of the two dimensions before the last.
pub open spec fn transpose_0213_steps<T: Scalar>(g: Graph<T>, a: usize) -> Seq<Step<T>> {
    let (b, s, h, d) = swap_sizes(shape_of(g, a));
    moving_steps(
        g,
        a,
        seq![Step::AllocOut],
        if kind_of(g, a) == StorageKind::GpuBf16 {
            Kernel::Transpose0213Bf16
        } else {
            Kernel::Transpose0213F32
        },
        swap_args(b as usize, s as usize, h as usize, d as usize),
        product(shape_of(g, a)) as usize,
    )
}

/// The dimensions before the last can be exchanged on the device.
pub open spec fn transpose_0213_device_ok<T: Scalar>(g: Graph<T>, a: usize) -> bool {
    &&& moving_ok(g, a)
    &&& shape_of(g, a).len() >= 4
    &&& shape_fits(shape_of(g, a).take(shape_of(g, a).len() - 3))
    &&& shape_fits(swap_shape(shape_of(g, a)))
}

/// The steps of a copy into another shape.
pub open spec fn reshape_steps<T: Scalar>(g: Graph<T>, a: usize) -> Seq<Step<T>> {
    let n = g.tensors@[a as int].data.spec_len() as usize;
    moving_steps(
        g,
        a,
        seq![Step::AllocOut],
        if kind_of(g, a) == StorageKind::GpuBf16 {
            Kernel::CopyBf16
        } else {
            Kernel::CopyF32
        },
        seq![Arg::Size(n as u64)],
        n,
    )
}

/// The sizes of a rotation as arguments.
pub open spec fn rope_args<T>(d: RopeDims, pairs: usize) -> Seq<Arg<T>> {
    seq![
        Arg::Size(d.seq as u64),
        Arg::Size(d.hidden as u64),
        Arg::Size(d.head as u64),
        Arg::Size(pairs as u64),
    ]
}

/// A tensor can be rotated on the device.
pub open spec fn rope_device_ok<T: Scalar>(g: Graph<T>, a: usize) -> bool {
    moving_ok(g, a) && shape_of(g, a).len() >= 3 && shape_of(g, a)[0] * shape_of(g, a)[1]
        <= usize::MAX
}

/// The steps of a rotation.
pub open spec fn rope_steps<T: Scalar>(g: Graph<T>, a: usize, head: usize) -> Seq<Step<T>> {
    let pairs = (product(shape_of(g, a)) / 2) as usize;
    moving_steps(
        g,
        a,
        seq![Step::AllocOut],
        if kind_of(g, a) == StorageKind::GpuBf16 {
            Kernel::RopeBf16
        } else {
            Kernel::RopeF32
        },
        rope_args(rope_dims(shape_of(g, a), head), pairs),
        pairs,
    )
}

/// The kernels for a repetition and its way back.
pub open spec fn repeat_kernels(half: bool) -> (Kernel, Kernel) {
    if half {
        (Kernel::RepeatKvBf16, Kernel::RepeatKvBackwardBf16)
    } else {
        (Kernel::RepeatKvF32, Kernel::RepeatKvBackwardF32)
    }
}

/// The sizes of a repetition as arguments.
pub open spec fn repeat_args<T>(d: RepeatDims) -> Seq<Arg<T>> {
    seq![
        Arg::Int(d.batch as i32),
        Arg::Int(d.kv as i32),
        Arg::Int(d.repeats as i32),
        Arg::Int(d.seq as i32),
        Arg::Int(d.dim as i32),
    ]
}

/// Heads can be repeated on the device.
pub open spec fn repeat_device_ok<T: Scalar>(g: Graph<T>, x: usize, repeats: usize) -> bool {
    &&& moving_ok(g, x)
    &&& shape_of(g, x).len() == 4
    &&& shape_of(g, x)[1] * repeats <= usize::MAX
    &&& shape_fits(repeat_shape(shape_of(g, x), repeats))
}

/// The steps of a repetition.
pub open spec fn repeat_steps<T: Scalar>(g: Graph<T>, x: usize, repeats: usize) -> Seq<Step<T>> {
    moving_steps(
        g,
        x,
        seq![Step::AllocOut, Step::NameOut(Label::RepeatKv)],
        repeat_kernels(kind_of(g, x) == StorageKind::GpuBf16).0,
        repeat_args(repeat_dims(shape_of(g, x), repeats)),
        product(repeat_shape(shape_of(g, x), repeats)) as usize,
    )
}

/// The kernel that gathers rows, where there is one for the precisions.
pub open spec fn gather_kernel(w: StorageKind, target: StorageKind) -> Option<Kernel> {
    if w == StorageKind::GpuBf16 && target == StorageKind::GpuBf16 {
        Some(Kernel::GatherBf16Bf16out)
    } else if w == StorageKind::Gpu && target == StorageKind::Gpu {
        Some(Kernel::GatherF32)
    } else if w == StorageKind::GpuBf16 && target == StorageKind::Gpu {
        Some(Kernel::GatherBf16F32)
    } else {
        None
    }
}

/// The result of a gathering is computed in a scratch tensor.
pub open spec fn gather_scratch<T: Scalar>(g: Graph<T>, w: usize) -> bool {
    g.mixed() && kind_of(g, w) != StorageKind::GpuBf16
}

/// The precision that rows are gathered in.
pub open spec fn gather_target<T: Scalar>(g: Graph<T>, w: usize) -> StorageKind {
    if gather_scratch(g, w) {
        StorageKind::Gpu
    } else {
        out_kind(g)
    }
}

/// Rows can be gathered on the device.
pub open spec fn gather_device_ok<T: Scalar>(g: Graph<T>, w: usize, i: usize) -> bool {
    &&& w < g.tensors@.len()
    &&& i < g.tensors@.len()
    &&& shape_of(g, w).len() >= 2
    &&& shape_fits(shape_of(g, i).push(shape_of(g, w)[1]))
    &&& g.tensors@[i as int].data.spec_len() * shape_of(g, w)[1] <= usize::MAX
    &&& on_gpu(kind_of(g, i))
    &&& gather_kernel(kind_of(g, w), gather_target(g, w)) is Some
}

/// The steps of a gathering.
pub open spec fn gather_steps<T: Scalar>(g: Graph<T>, w: usize, i: usize) -> Seq<Step<T>> {
    let hidden = shape_of(g, w)[1];
    let count = g.tensors@[i as int].data.spec_len() as usize;
    let n = (count * hidden) as usize;
    let hi = kind_of(g, i) == StorageKind::GpuBf16;
    let scratch = gather_scratch(g, w);
    let s = step_if(seq![Step::AllocOut], scratch, Step::AllocScratch(n));
    let s = step_if(s, hi, Step::CastIn { id: i, size: count });
    let s = call_steps(
        s,
        gather_kernel(kind_of(g, w), gather_target(g, w)).unwrap(),
        seq![
            Arg::Data(w),
            full_arg(i, hi),
            Arg::Data(target_id(g, scratch)),
            Arg::Size(hidden as u64),
            Arg::Size(n as u64),
        ],
        dims_for(n as u32),
    );
    let s = unscratch(s, scratch, n);
    step_if(s, !g.no_grad, Step::Record)
}

// Normalisation and attention.

/// The kernels for a normalisation and its way back.
pub open spec fn rms_kernels(hx: bool, hw: bool) -> (Kernel, Kernel) {
    if hx && hw {
        (Kernel::RmsnormBf16, Kernel::RmsnormBackwardBf16inF32)
    } else if hw {
        (Kernel::RmsnormF32Bf16w, Kernel::RmsnormBackwardBf16wF32)
    } else {
        (Kernel::RmsnormF32, Kernel::RmsnormBackwardF32)
    }
}

/// Rows can be normalised on the device.
pub open spec fn rms_device_ok<T: Scalar>(g: Graph<T>, x: usize, w: usize) -> bool {
    let (kx, kw, ko) = (ensured_kind(g, x), ensured_kind(g, w), out_kind(g));
    &&& rows_device_ok(g, x)
    &&& w < g.tensors@.len()
    &&& ko == StorageKind::Gpu && !(kx == StorageKind::GpuBf16 && kw == StorageKind::GpuBf16) || (
    kx == StorageKind::GpuBf16 && kw == StorageKind::GpuBf16 && ko == StorageKind::GpuBf16)
}

/// The steps of a normalisation.
pub open spec fn rms_steps<T: Scalar>(g: Graph<T>, x: usize, w: usize, eps: T) -> Seq<Step<T>> {
    let rows = row_count(g, x);
    let s = seq![
        Step::AllocOut,
        Step::NameOut(Label::RmsNorm),
        Step::Ensure(x),
        Step::Ensure(w),
        Step::Ensure(out_id(g)),
    ];
    let s = call_steps(
        s,
        rms_kernels(
            kind_of(g, x) == StorageKind::GpuBf16,
            kind_of(g, w) == StorageKind::GpuBf16,
        ).0,
        seq![
            Arg::Data(x),
            Arg::Data(w),
            Arg::Data(out_id(g)),
            Arg::Size(shape_of(g, x).last() as u64),
            Arg::Real(eps),
            Arg::Size(rows as u64),
        ],
        dims_for(rows as u32),
    );
    step_if(s, !g.no_grad, Step::Record)
}

/// Attention can be computed on the device in one pass.
pub open spec fn flash_device_ok<T: Scalar>(g: Graph<T>, q: usize, k: usize, v: usize) -> bool {
    &&& q < g.tensors@.len()
    &&& k < g.tensors@.len()
    &&& v < g.tensors@.len()
    &&& flash_ok(shape_of(g, q), shape_of(g, k), shape_of(g, v))
    &&& shape_of(g, q)[0] * shape_of(g, q)[1] <= usize::MAX
    &&& on_gpu(kind_of(g, q))
    &&& on_gpu(kind_of(g, k))
    &&& on_gpu(kind_of(g, v))
}

/// The steps of an attention in one pass.
pub open spec fn flash_steps<T: Scalar>(
    g: Graph<T>,
    q: usize,
    k: usize,
    v: usize,
    scale: T,
    causal: bool,
) -> Seq<Step<T>> {
    let d = flash_dims(shape_of(g, q), shape_of(g, k));
    let size = product(shape_of(g, q)) as usize;
    let keys = product(shape_of(g, k)) as usize;
    let (hq, hk, hv) = (
        kind_of(g, q) == StorageKind::GpuBf16,
        kind_of(g, k) == StorageKind::GpuBf16,
        kind_of(g, v) == StorageKind::GpuBf16,
    );
    let t = target_id(g, g.mixed());
    let s = step_if(
        seq![Step::AllocOut, Step::NameOut(Label::FlashAttention)],
        g.mixed(),
        Step::AllocScratch(size),
    );
    let s = step_if(s, hq, Step::CastIn { id: q, size });
    let s = step_if(s, hk, Step::CastIn { id: k, size: keys });
    let s = step_if(s, hv, Step::CastIn { id: v, size: keys });
    let s = call_steps(
        s,
        Kernel::FlashAttentionF32,
        seq![
            full_arg(q, hq),
            full_arg(k, hk),
            full_arg(v, hv),
            Arg::Data(t),
            Arg::Size(d.batch as u64),
            Arg::Size(d.m as u64),
            Arg::Size(d.n as u64),
            Arg::Size(d.d as u64),
            Arg::Real(scale),
            Arg::Flag(causal),
        ],
        dims_for((d.batch * d.m) as u32),
    );
    unscratch(s, g.mixed(), size)
}

} // verus!
