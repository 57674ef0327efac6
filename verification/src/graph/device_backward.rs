//! The way back on the device: the work for each recorded operation.
use crate::graph::device::{
    bmm_args, full_arg, full_arg_of, kind_of, mm_args, reduce_args, repeat_args, rope_args,
    swap_args,
};
use crate::graph::kernel::Kernel;
use crate::graph::launch::{dims_for, elementwise_launch, tiled, tiled_launch, tiles_fit};
use crate::graph::ops::linear::BmmDims;
use crate::graph::plan::{call, call_steps, push_if, step_if, Arg, Step};
use crate::graph::planner::{
    append_args, bmm_args_of, mm_args_of, pair_sizes, reduce_args_of, repeat_args_of, rope_args_of,
    swap_args_of,
};
use crate::graph::Graph;
use crate::scalar::Scalar;
use crate::tape::{DeviceOp, Dims3, MatmulDims};
use crate::tensor::{is_bf16, shape_fits, StorageKind};
use vstd::prelude::*;

verus! {

/// The elements of a tensor are kept in 16 bits.
pub open spec fn half<T: Scalar>(g: Graph<T>, id: usize) -> bool {
    kind_of(g, id) == StorageKind::GpuBf16
}

/// `s` and the copy in full precision of a tensor that is kept in 16 bits.
pub open spec fn cast_step<T: Scalar>(
    s: Seq<Step<T>>,
    g: Graph<T>,
    id: usize,
    size: usize,
) -> Seq<Step<T>> {
    step_if(s, half(g, id), Step::CastTemp { id, size })
}

/// The elements of a tensor in full precision.
pub open spec fn full<T: Scalar>(g: Graph<T>, id: usize) -> Arg<T> {
    full_arg(id, half(g, id))
}

/// An addition to a gradient, read in `rank` dimensions.
pub open spec fn accumulate<T>(
    s: Seq<Step<T>>,
    to: usize,
    from: usize,
    n: usize,
    rank: u64,
    shape: Dims3,
    strides: Dims3,
) -> Seq<Step<T>> {
    call_steps(
        s,
        Kernel::AccumulateF32,
        seq![
            Arg::Grad(to),
            Arg::Grad(from),
            Arg::Size(n as u64),
            Arg::Size(rank),
            Arg::Size(shape.d0),
            Arg::Size(shape.d1),
            Arg::Size(shape.d2),
            Arg::Size(strides.d0),
            Arg::Size(strides.d1),
            Arg::Size(strides.d2),
        ],
        dims_for(n as u32),
    )
}

/// The way back of a product of tensors on the device: the kernels for the two operands.
pub open spec fn matmul_back<T: Scalar>(
    g: Graph<T>,
    a: usize,
    b: usize,
    out: usize,
    d: MatmulDims,
    back_a: Kernel,
) -> Seq<Step<T>> {
    let s = cast_step(seq![], g, a, (d.m * d.k) as usize);
    let s = cast_step(s, g, b, (d.k * d.n) as usize);
    let s = call_steps(
        s,
        back_a,
        mm_args(Arg::Grad(out), full(g, b), Arg::Grad(a), d.m, d.k, d.n),
        tiled(d.k as u32, d.m as u32, 1),
    );
    let s = call_steps(
        s,
        Kernel::MatmulBackwardBF32,
        mm_args(full(g, a), Arg::Grad(out), Arg::Grad(b), d.m, d.k, d.n),
        tiled(d.n as u32, d.k as u32, 1),
    );
    s.push(Step::Sync)
}

/// The way back of a product with a transposed tensor.
pub open spec fn trans_b_back<T: Scalar>(
    g: Graph<T>,
    a: usize,
    b: usize,
    out: usize,
    d: MatmulDims,
) -> Seq<
    Step<T>,
> {
    let s = cast_step(seq![], g, a, (d.m * d.k) as usize);
    let s = cast_step(s, g, b, (d.k * d.n) as usize);
    let s = call_steps(
        s,
        Kernel::MatmulF32,
        mm_args(Arg::Grad(out), full(g, b), Arg::Grad(a), d.m, d.n, d.k),
        tiled(d.k as u32, d.m as u32, 1),
    );
    let s = call_steps(
        s.push(Step::Sync),
        Kernel::MatmulTransAF32,
        mm_args(Arg::Grad(out), full(g, a), Arg::Grad(b), d.m, d.n, d.k),
        tiled(d.k as u32, d.n as u32, 1),
    );
    s.push(Step::Sync)
}

/// The way back of a product with rounding to 16 bits: the right operand is read as it is kept.
pub open spec fn matmul_bf16_back<T: Scalar>(
    g: Graph<T>,
    a: usize,
    b: usize,
    out: usize,
    d: MatmulDims,
) -> Seq<
    Step<T>,
> {
    let s = cast_step(seq![], g, a, (d.m * d.k) as usize);
    let s = call_steps(
        s,
        if half(g, b) {
            Kernel::MatmulBackwardABf16bF32
        } else {
            Kernel::MatmulBackwardAF32
        },
        mm_args(Arg::Grad(out), Arg::Data(b), Arg::Grad(a), d.m, d.k, d.n),
        tiled(d.k as u32, d.m as u32, 1),
    );
    let s = call_steps(
        s,
        Kernel::MatmulBackwardBF32,
        mm_args(full(g, a), Arg::Grad(out), Arg::Grad(b), d.m, d.k, d.n),
        tiled(d.n as u32, d.k as u32, 1),
    );
    s.push(Step::Sync)
}

/// The way back of a product with a streamed matrix, whose gradient goes back to the host.
pub open spec fn streamed_back<T: Scalar>(
    g: Graph<T>,
    a: usize,
    b: usize,
    out: usize,
    d: MatmulDims,
    back_a: Kernel,
) -> Seq<Step<T>> {
    let s = cast_step(seq![Step::UploadFull(b)], g, a, (d.m * d.k) as usize);
    let s = call_steps(
        s,
        back_a,
        mm_args(Arg::Grad(out), Arg::Upload(b), Arg::Grad(a), d.m, d.k, d.n),
        tiled(d.k as u32, d.m as u32, 1),
    );
    let s = call_steps(
        s.push(Step::AllocGradTemp((d.k * d.n) as usize)),
        Kernel::MatmulBackwardBF32,
        mm_args(full(g, a), Arg::Grad(out), Arg::GradTemp, d.m, d.k, d.n),
        tiled(d.n as u32, d.k as u32, 1),
    );
    s.push(Step::Sync).push(Step::DropUpload).push(Step::FetchGradTemp(b))
}

/// The way back of a product with a streamed and transposed matrix.
pub open spec fn streamed_trans_b_back<T: Scalar>(
    g: Graph<T>,
    a: usize,
    b: usize,
    out: usize,
    d: MatmulDims,
) -> Seq<Step<T>> {
    let s = cast_step(seq![Step::UploadFull(b)], g, a, (d.m * d.k) as usize);
    let s = call_steps(
        s,
        Kernel::MatmulF32,
        mm_args(Arg::Grad(out), Arg::Upload(b), Arg::Grad(a), d.m, d.n, d.k),
        tiled(d.k as u32, d.m as u32, 1),
    );
    let s = call_steps(
        s.push(Step::AllocGradTemp((d.n * d.k) as usize)),
        Kernel::MatmulTransAF32,
        mm_args(Arg::Grad(out), full(g, a), Arg::GradTemp, d.m, d.n, d.k),
        tiled(d.k as u32, d.n as u32, 1),
    );
    s.push(Step::Sync).push(Step::DropUpload).push(Step::FetchGradTemp(b))
}

/// The way back of a product of pairs.
pub open spec fn bmm_back<T: Scalar>(
    g: Graph<T>,
    a: usize,
    b: usize,
    out: usize,
    d: BmmDims,
) -> Seq<
    Step<T>,
> {
    let s = cast_step(seq![], g, a, (d.batch * d.m * d.k) as usize);
    let s = cast_step(s, g, b, (d.batch * d.k * d.n) as usize);
    let (back_a, back_b) = if d.trans_b {
        (Kernel::BmmBackwardATransbF32, Kernel::BmmBackwardBTransbF32)
    } else {
        (Kernel::BmmBackwardAF32, Kernel::BmmBackwardBF32)
    };
    let s = call_steps(
        s,
        back_a,
        bmm_args(Arg::Grad(out), full(g, b), Arg::Grad(a), d),
        tiled(d.k as u32, d.m as u32, d.batch as u32),
    );
    let s = call_steps(
        s,
        back_b,
        bmm_args(full(g, a), Arg::Grad(out), Arg::Grad(b), d),
        if d.trans_b {
            tiled(d.k as u32, d.n as u32, d.batch as u32)
        } else {
            tiled(d.n as u32, d.k as u32, d.batch as u32)
        },
    );
    s.push(Step::Sync)
}

/// The way back of a loss.
pub open spec fn loss_back<T: Scalar>(
    g: Graph<T>,
    l: usize,
    out: usize,
    batch: usize,
    classes: usize,
    normalizer: Option<T>,
) -> Seq<Step<T>> {
    let s = cast_step(seq![], g, l, (batch * classes) as usize);
    let head = seq![full(g, l), Arg::Targets(out), Arg::Grad(out), Arg::Grad(l)];
    let sizes = seq![Arg::Size(batch as u64), Arg::Size(classes as u64)];
    match normalizer {
        None => call_steps(
            s,
            Kernel::CrossEntropyBackwardF32,
            head + sizes,
            dims_for(batch as u32),
        ),
        Some(x) => call_steps(
            s,
            Kernel::CrossEntropyMaskedBackwardF32,
            head.push(Arg::Real(x)) + sizes,
            dims_for(batch as u32),
        ),
    }
}

/// The work of the way back for one recorded operation: the gradient of the result goes into those
/// of the operands.
pub open spec fn back_steps<T: Scalar>(
    g: Graph<T>,
    inputs: Seq<usize>,
    out: usize,
    op: DeviceOp<T>,
) -> Seq<
    Step<T>,
> {
    let (a, b) = (inputs[0], inputs[1]);
    match op {
        DeviceOp::Add { n, rank, shape, a: ta, b: tb } => accumulate(
            accumulate(seq![], a, out, n, rank, shape, ta),
            b,
            out,
            n,
            rank,
            shape,
            tb,
        ),
        DeviceOp::Mul { n, back } => call_steps(
            seq![],
            back,
            seq![
                Arg::Data(a),
                Arg::Data(b),
                Arg::Grad(out),
                Arg::Grad(a),
                Arg::Grad(b),
                Arg::Size(n as u64),
            ],
            dims_for(n as u32),
        ),
        DeviceOp::Silu { n, half: h } => call_steps(
            step_if(seq![], h && half(g, a), Step::CastTemp { id: a, size: n }),
            if h {
                Kernel::SiluBackwardBf16inF32
            } else {
                Kernel::SiluBackwardF32
            },
            seq![
                full_arg(a, h && half(g, a)),
                Arg::Grad(out),
                Arg::Grad(a),
                Arg::Size(n as u64),
            ],
            dims_for(n as u32),
        ),
        DeviceOp::Matmul { dims, back_a } => matmul_back(g, a, b, out, dims, back_a),
        DeviceOp::MatmulTransB { dims } => trans_b_back(g, a, b, out, dims),
        DeviceOp::MatmulBf16 { dims } => matmul_bf16_back(g, a, b, out, dims),
        DeviceOp::Streamed { dims, back_a } => streamed_back(g, a, b, out, dims, back_a),
        DeviceOp::StreamedTransB { dims } => streamed_trans_b_back(g, a, b, out, dims),
        DeviceOp::Bmm { dims } => bmm_back(g, a, b, out, dims),
        DeviceOp::Sum { dims } => call_steps(
            seq![],
            Kernel::SumBackwardF32,
            seq![Arg::Grad(out), Arg::Grad(a)] + reduce_args::<T>(dims),
            dims_for(dims.out_size as u32),
        ),
        DeviceOp::Max { dims, size } => call_steps(
            cast_step(seq![], g, a, size),
            Kernel::MaxBackwardF32,
            seq![full(g, a), Arg::Grad(out), Arg::Grad(a)] + reduce_args::<T>(dims),
            dims_for(dims.out_size as u32),
        ),
        DeviceOp::Softmax { rows, n, back } => call_steps(
            seq![],
            back,
            seq![
                Arg::Data(out),
                Arg::Grad(out),
                Arg::Grad(a),
                Arg::Size(rows),
                Arg::Size(n),
            ],
            dims_for(rows as u32),
        ),
        DeviceOp::CrossEntropy { batch, classes, normalizer } => loss_back(
            g,
            a,
            out,
            batch,
            classes,
            normalizer,
        ),
        DeviceOp::Transpose0213 { b: batch, s, h, d } => call_steps(
            seq![],
            Kernel::Transpose0213BackwardF32,
            seq![Arg::Grad(out), Arg::Grad(a)] + swap_args::<T>(batch, s, h, d),
            dims_for((batch * s * h * d) as u32),
        ),
        DeviceOp::Gather { hidden, indices, out_size } => call_steps(
            cast_step(seq![], g, b, indices),
            Kernel::GatherBackwardF32,
            seq![
                full(g, b),
                Arg::Grad(out),
                Arg::Grad(a),
                Arg::Size(hidden as u64),
                Arg::Size(out_size as u64),
            ],
            dims_for(out_size as u32),
        ),
        DeviceOp::Reshape { n } => accumulate(
            seq![],
            a,
            out,
            n,
            1,
            Dims3 { d0: n as u64, d1: 1, d2: 1 },
            Dims3 { d0: 1, d1: 1, d2: 1 },
        ),
        DeviceOp::Rope { dims, pairs } => call_steps(
            seq![],
            Kernel::RopeBackwardF32,
            seq![Arg::Grad(out), Arg::Grad(a)] + rope_args::<T>(dims, pairs),
            dims_for(pairs as u32),
        ),
        DeviceOp::RepeatKv { dims, back, size } => call_steps(
            seq![],
            back,
            seq![Arg::Grad(out), Arg::Grad(a)] + repeat_args::<T>(dims),
            dims_for(size as u32),
        ),
        DeviceOp::RmsNorm { dim, rows, eps, back } => call_steps(
            seq![],
            back,
            seq![
                Arg::Data(a),
                Arg::Data(b),
                Arg::Grad(out),
                Arg::Grad(a),
                Arg::Grad(b),
                Arg::Size(dim as u64),
                Arg::Real(eps),
                Arg::Size(rows as u64),
            ],
            dims_for(rows as u32),
        ),
    }
}

/// The number of operands.
pub open spec fn arity<T>(op: DeviceOp<T>) -> nat {
    match op {
        DeviceOp::Add { .. } => 2,
        DeviceOp::Mul { .. } => 2,
        DeviceOp::Matmul { .. } => 2,
        DeviceOp::MatmulTransB { .. } => 2,
        DeviceOp::MatmulBf16 { .. } => 2,
        DeviceOp::Streamed { .. } => 2,
        DeviceOp::StreamedTransB { .. } => 2,
        DeviceOp::Bmm { .. } => 2,
        DeviceOp::Gather { .. } => 2,
        DeviceOp::RmsNorm { .. } => 2,
        _ => 1,
    }
}

/// The sizes of a product on its way back can be counted.
pub open spec fn mm_back_ok(d: MatmulDims) -> bool {
    &&& d.m * d.k <= usize::MAX
    &&& d.k * d.n <= usize::MAX
    &&& d.n * d.k <= usize::MAX
    &&& tiles_fit(d.k, d.m)
    &&& tiles_fit(d.n, d.k)
}

/// The sizes can be counted.
pub open spec fn sizes_ok<T>(op: DeviceOp<T>) -> bool {
    match op {
        DeviceOp::Matmul { dims, .. } => mm_back_ok(dims),
        DeviceOp::MatmulTransB { dims } => mm_back_ok(dims),
        DeviceOp::MatmulBf16 { dims } => mm_back_ok(dims),
        DeviceOp::Streamed { dims, .. } => mm_back_ok(dims),
        DeviceOp::StreamedTransB { dims } => mm_back_ok(dims),
        DeviceOp::Bmm { dims: d } => {
            &&& shape_fits(seq![d.batch, d.m, d.n])
            &&& shape_fits(seq![d.batch, d.m, d.k])
            &&& shape_fits(seq![d.batch, d.k, d.n])
            &&& d.batch * d.m <= usize::MAX
            &&& d.batch * d.k <= usize::MAX
            &&& tiles_fit(d.k, d.m)
            &&& tiles_fit(d.n, d.k)
        },
        DeviceOp::CrossEntropy { batch, classes, .. } => batch * classes <= usize::MAX,
        DeviceOp::Transpose0213 { b, s, h, d } => {
            &&& b * s <= usize::MAX
            &&& b * s * h <= usize::MAX
            &&& b * s * h * d <= usize::MAX
        },
        _ => true,
    }
}

/// A recorded operation can be gone back through.
pub open spec fn back_ok<T: Scalar>(g: Graph<T>, inputs: Seq<usize>, op: DeviceOp<T>) -> bool {
    &&& inputs.len() == arity(op)
    &&& forall|i: int| 0 <= i < inputs.len() ==> #[trigger] inputs[i] < g.tensors@.len()
    &&& sizes_ok(op)
}

fn add_accumulate<T: Scalar>(
    s: &mut Vec<Step<T>>,
    to: usize,
    from: usize,
    n: usize,
    rank: u64,
    shape: Dims3,
    strides: Dims3,
)
    ensures
        final(s)@ == accumulate(old(s)@, to, from, n, rank, shape, strides),
{
    call(
        s,
        Kernel::AccumulateF32,
        &vec![
            Arg::Grad(to),
            Arg::Grad(from),
            Arg::Size(n as u64),
            Arg::Size(rank),
            Arg::Size(shape.d0),
            Arg::Size(shape.d1),
            Arg::Size(shape.d2),
            Arg::Size(strides.d0),
            Arg::Size(strides.d1),
            Arg::Size(strides.d2),
        ],
        elementwise_launch(n),
    );
}

fn grads_and<T: Copy>(out: usize, a: usize, rest: &Vec<Arg<T>>) -> (r: Vec<Arg<T>>)
    ensures
        r@ == seq![Arg::Grad(out), Arg::Grad(a)] + rest@,
{
    let mut r: Vec<Arg<T>> = vec![Arg::Grad(out), Arg::Grad(a)];
    append_args(&mut r, rest);
    r
}

impl<T: Scalar> Graph<T> {
    fn is_half_now(&self, id: usize) -> (r: bool)
        requires
            id < self.tensors@.len(),
        ensures
            r == half(*self, id),
    {
        is_bf16(&self.tensors[id].data)
    }

    fn matmul_back_steps(
        &self,
        a: usize,
        b: usize,
        out: usize,
        d: MatmulDims,
        back_a: Kernel,
    ) -> (r: Vec<Step<T>>)
        requires
            a < self.tensors@.len(),
            b < self.tensors@.len(),
            mm_back_ok(d),
        ensures
            r@ == matmul_back(*self, a, b, out, d, back_a),
    {
        let (ha, hb) = (self.is_half_now(a), self.is_half_now(b));
        let mut s: Vec<Step<T>> = Vec::new();
        push_if(&mut s, ha, Step::CastTemp { id: a, size: d.m * d.k });
        push_if(&mut s, hb, Step::CastTemp { id: b, size: d.k * d.n });
        call(
            &mut s,
            back_a,
            &mm_args_of(Arg::Grad(out), full_arg_of(b, hb), Arg::Grad(a), d.m, d.k, d.n),
            tiled_launch(d.k, d.m, 1),
        );
        call(
            &mut s,
            Kernel::MatmulBackwardBF32,
            &mm_args_of(full_arg_of(a, ha), Arg::Grad(out), Arg::Grad(b), d.m, d.k, d.n),
            tiled_launch(d.n, d.k, 1),
        );
        s.push(Step::Sync);
        s
    }

    fn trans_b_back_steps(&self, a: usize, b: usize, out: usize, d: MatmulDims) -> (r: Vec<Step<T>>)
        requires
            a < self.tensors@.len(),
            b < self.tensors@.len(),
            mm_back_ok(d),
        ensures
            r@ == trans_b_back(*self, a, b, out, d),
    {
        let (ha, hb) = (self.is_half_now(a), self.is_half_now(b));
        let mut s: Vec<Step<T>> = Vec::new();
        push_if(&mut s, ha, Step::CastTemp { id: a, size: d.m * d.k });
        push_if(&mut s, hb, Step::CastTemp { id: b, size: d.k * d.n });
        call(
            &mut s,
            Kernel::MatmulF32,
            &mm_args_of(Arg::Grad(out), full_arg_of(b, hb), Arg::Grad(a), d.m, d.n, d.k),
            tiled_launch(d.k, d.m, 1),
        );
        s.push(Step::Sync);
        call(
            &mut s,
            Kernel::MatmulTransAF32,
            &mm_args_of(Arg::Grad(out), full_arg_of(a, ha), Arg::Grad(b), d.m, d.n, d.k),
            tiled_launch(d.k, d.n, 1),
        );
        s.push(Step::Sync);
        s
    }

    fn matmul_bf16_back_steps(
        &self,
        a: usize,
        b: usize,
        out: usize,
        d: MatmulDims,
    ) -> (r: Vec<Step<T>>)
        requires
            a < self.tensors@.len(),
            b < self.tensors@.len(),
            mm_back_ok(d),
        ensures
            r@ == matmul_bf16_back(*self, a, b, out, d),
    {
        let (ha, hb) = (self.is_half_now(a), self.is_half_now(b));
        let mut s: Vec<Step<T>> = Vec::new();
        push_if(&mut s, ha, Step::CastTemp { id: a, size: d.m * d.k });
        let back_a = if hb {
            Kernel::MatmulBackwardABf16bF32
        } else {
            Kernel::MatmulBackwardAF32
        };
        call(
            &mut s,
            back_a,
            &mm_args_of(Arg::Grad(out), Arg::Data(b), Arg::Grad(a), d.m, d.k, d.n),
            tiled_launch(d.k, d.m, 1),
        );
        call(
            &mut s,
            Kernel::MatmulBackwardBF32,
            &mm_args_of(full_arg_of(a, ha), Arg::Grad(out), Arg::Grad(b), d.m, d.k, d.n),
            tiled_launch(d.n, d.k, 1),
        );
        s.push(Step::Sync);
        s
    }

    fn streamed_back_steps(
        &self,
        a: usize,
        b: usize,
        out: usize,
        d: MatmulDims,
        back_a: Kernel,
    ) -> (r: Vec<Step<T>>)
        requires
            a < self.tensors@.len(),
            mm_back_ok(d),
        ensures
            r@ == streamed_back(*self, a, b, out, d, back_a),
    {
        let ha: bool = self.is_half_now(a);
        let mut s: Vec<Step<T>> = vec![Step::UploadFull(b)];
        push_if(&mut s, ha, Step::CastTemp { id: a, size: d.m * d.k });
        call(
            &mut s,
            back_a,
            &mm_args_of(Arg::Grad(out), Arg::Upload(b), Arg::Grad(a), d.m, d.k, d.n),
            tiled_launch(d.k, d.m, 1),
        );
        s.push(Step::AllocGradTemp(d.k * d.n));
        call(
            &mut s,
            Kernel::MatmulBackwardBF32,
            &mm_args_of(full_arg_of(a, ha), Arg::Grad(out), Arg::GradTemp, d.m, d.k, d.n),
            tiled_launch(d.n, d.k, 1),
        );
        s.push(Step::Sync);
        s.push(Step::DropUpload);
        s.push(Step::FetchGradTemp(b));
        s
    }

    fn streamed_trans_b_back_steps(
        &self,
        a: usize,
        b: usize,
        out: usize,
        d: MatmulDims,
    ) -> (r: Vec<Step<T>>)
        requires
            a < self.tensors@.len(),
            mm_back_ok(d),
        ensures
            r@ == streamed_trans_b_back(*self, a, b, out, d),
    {
        let ha: bool = self.is_half_now(a);
        let mut s: Vec<Step<T>> = vec![Step::UploadFull(b)];
        push_if(&mut s, ha, Step::CastTemp { id: a, size: d.m * d.k });
        call(
            &mut s,
            Kernel::MatmulF32,
            &mm_args_of(Arg::Grad(out), Arg::Upload(b), Arg::Grad(a), d.m, d.n, d.k),
            tiled_launch(d.k, d.m, 1),
        );
        s.push(Step::AllocGradTemp(d.n * d.k));
        call(
            &mut s,
            Kernel::MatmulTransAF32,
            &mm_args_of(Arg::Grad(out), full_arg_of(a, ha), Arg::GradTemp, d.m, d.n, d.k),
            tiled_launch(d.k, d.n, 1),
        );
        s.push(Step::Sync);
        s.push(Step::DropUpload);
        s.push(Step::FetchGradTemp(b));
        s
    }

    fn bmm_back_steps(&self, a: usize, b: usize, out: usize, d: BmmDims) -> (r: Vec<Step<T>>)
        requires
            a < self.tensors@.len(),
            b < self.tensors@.len(),
            sizes_ok(DeviceOp::<T>::Bmm { dims: d }),
        ensures
            r@ == bmm_back(*self, a, b, out, d),
    {
        let (ha, hb) = (self.is_half_now(a), self.is_half_now(b));
        let (_, a_size, b_size) = pair_sizes(d);
        let mut s: Vec<Step<T>> = Vec::new();
        push_if(&mut s, ha, Step::CastTemp { id: a, size: a_size });
        push_if(&mut s, hb, Step::CastTemp { id: b, size: b_size });
        let (back_a, back_b) = if d.trans_b {
            (Kernel::BmmBackwardATransbF32, Kernel::BmmBackwardBTransbF32)
        } else {
            (Kernel::BmmBackwardAF32, Kernel::BmmBackwardBF32)
        };
        call(
            &mut s,
            back_a,
            &bmm_args_of(Arg::Grad(out), full_arg_of(b, hb), Arg::Grad(a), d),
            tiled_launch(d.k, d.m, d.batch),
        );
        let second = if d.trans_b {
            tiled_launch(d.k, d.n, d.batch)
        } else {
            tiled_launch(d.n, d.k, d.batch)
        };
        call(
            &mut s,
            back_b,
            &bmm_args_of(full_arg_of(a, ha), Arg::Grad(out), Arg::Grad(b), d),
            second,
        );
        s.push(Step::Sync);
        s
    }

    fn loss_back_steps(
        &self,
        l: usize,
        out: usize,
        batch: usize,
        classes: usize,
        normalizer: Option<T>,
    ) -> (r: Vec<Step<T>>)
        requires
            l < self.tensors@.len(),
            batch * classes <= usize::MAX,
        ensures
            r@ == loss_back(*self, l, out, batch, classes, normalizer),
    {
        let hl: bool = self.is_half_now(l);
        let mut s: Vec<Step<T>> = Vec::new();
        push_if(&mut s, hl, Step::CastTemp { id: l, size: batch * classes });
        let mut args: Vec<Arg<T>> = vec![
            full_arg_of(l, hl),
            Arg::Targets(out),
            Arg::Grad(out),
            Arg::Grad(l),
        ];
        let sizes: Vec<Arg<T>> = vec![Arg::Size(batch as u64), Arg::Size(classes as u64)];
        let k = match normalizer {
            None => Kernel::CrossEntropyBackwardF32,
            Some(x) => {
                args.push(Arg::Real(x));
                Kernel::CrossEntropyMaskedBackwardF32
            },
        };
        append_args(&mut args, &sizes);
        call(&mut s, k, &args, elementwise_launch(batch));
        s
    }

    /// The work of the way back for a recorded operation.
    pub(crate) fn node_back_steps(
        &self,
        inputs: &Vec<usize>,
        out: usize,
        op: DeviceOp<T>,
    ) -> (r: Vec<
        Step<T>,
    >)
        requires
            back_ok(*self, inputs@, op),
        ensures
            r@ == back_steps(*self, inputs@, out, op),
    {
        let a: usize = inputs[0];
        let b: usize = if inputs.len() > 1 {
            inputs[1]
        } else {
            a
        };
        let mut s: Vec<Step<T>> = Vec::new();
        match op {
            DeviceOp::Add { n, rank, shape, a: ta, b: tb } => {
                add_accumulate(&mut s, a, out, n, rank, shape, ta);
                add_accumulate(&mut s, b, out, n, rank, shape, tb);
            },
            DeviceOp::Mul { n, back } => {
                call(
                    &mut s,
                    back,
                    &vec![
                        Arg::Data(a),
                        Arg::Data(b),
                        Arg::Grad(out),
                        Arg::Grad(a),
                        Arg::Grad(b),
                        Arg::Size(n as u64),
                    ],
                    elementwise_launch(n),
                );
            },
            DeviceOp::Silu { n, half: h } => {
                let cast: bool = h && self.is_half_now(a);
                push_if(&mut s, cast, Step::CastTemp { id: a, size: n });
                let k = if h {
                    Kernel::SiluBackwardBf16inF32
                } else {
                    Kernel::SiluBackwardF32
                };
                call(
                    &mut s,
                    k,
                    &vec![
                        full_arg_of(a, cast),
                        Arg::Grad(out),
                        Arg::Grad(a),
                        Arg::Size(n as u64),
                    ],
                    elementwise_launch(n),
                );
            },
            DeviceOp::Matmul { dims, back_a } => {
                s = self.matmul_back_steps(a, b, out, dims, back_a);
            },
            DeviceOp::MatmulTransB { dims } => {
                s = self.trans_b_back_steps(a, b, out, dims);
            },
            DeviceOp::MatmulBf16 { dims } => {
                s = self.matmul_bf16_back_steps(a, b, out, dims);
            },
            DeviceOp::Streamed { dims, back_a } => {
                s = self.streamed_back_steps(a, b, out, dims, back_a);
            },
            DeviceOp::StreamedTransB { dims } => {
                s = self.streamed_trans_b_back_steps(a, b, out, dims);
            },
            DeviceOp::Bmm { dims } => {
                s = self.bmm_back_steps(a, b, out, dims);
            },
            DeviceOp::Sum { dims } => {
                call(
                    &mut s,
                    Kernel::SumBackwardF32,
                    &grads_and(out, a, &reduce_args_of(dims)),
                    elementwise_launch(dims.out_size),
                );
            },
            DeviceOp::Max { dims, size } => {
                let ha: bool = self.is_half_now(a);
                push_if(&mut s, ha, Step::CastTemp { id: a, size });
                let mut args: Vec<Arg<T>> = vec![
                    full_arg_of(a, ha),
                    Arg::Grad(out),
                    Arg::Grad(a),
                ];
                append_args(&mut args, &reduce_args_of(dims));
                call(&mut s, Kernel::MaxBackwardF32, &args, elementwise_launch(dims.out_size));
            },
            DeviceOp::Softmax { rows, n, back } => {
                call(
                    &mut s,
                    back,
                    &vec![
                        Arg::Data(out),
                        Arg::Grad(out),
                        Arg::Grad(a),
                        Arg::Size(rows),
                        Arg::Size(n),
                    ],
                    crate::graph::launch::launch_for(rows as u32),
                );
            },
            DeviceOp::CrossEntropy { batch, classes, normalizer } => {
                s = self.loss_back_steps(a, out, batch, classes, normalizer);
            },
            DeviceOp::Transpose0213 { b: batch, s: rows, h, d } => {
                call(
                    &mut s,
                    Kernel::Transpose0213BackwardF32,
                    &grads_and(out, a, &swap_args_of(batch, rows, h, d)),
                    elementwise_launch(batch * rows * h * d),
                );
            },
            DeviceOp::Gather { hidden, indices, out_size } => {
                let hb: bool = self.is_half_now(b);
                push_if(&mut s, hb, Step::CastTemp { id: b, size: indices });
                call(
                    &mut s,
                    Kernel::GatherBackwardF32,
                    &vec![
                        full_arg_of(b, hb),
                        Arg::Grad(out),
                        Arg::Grad(a),
                        Arg::Size(hidden as u64),
                        Arg::Size(out_size as u64),
                    ],
                    elementwise_launch(out_size),
                );
            },
            DeviceOp::Reshape { n } => {
                let ones = Dims3 { d0: 1, d1: 1, d2: 1 };
                let row = Dims3 { d0: n as u64, d1: 1, d2: 1 };
                add_accumulate(&mut s, a, out, n, 1, row, ones);
            },
            DeviceOp::Rope { dims, pairs } => {
                call(
                    &mut s,
                    Kernel::RopeBackwardF32,
                    &grads_and(out, a, &rope_args_of(dims, pairs)),
                    elementwise_launch(pairs),
                );
            },
            DeviceOp::RepeatKv { dims, back, size } => {
                call(
                    &mut s,
                    back,
                    &grads_and(out, a, &repeat_args_of(dims)),
                    elementwise_launch(size),
                );
            },
            DeviceOp::RmsNorm { dim, rows, eps, back } => {
                call(
                    &mut s,
                    back,
                    &vec![
                        Arg::Data(a),
                        Arg::Data(b),
                        Arg::Grad(out),
                        Arg::Grad(a),
                        Arg::Grad(b),
                        Arg::Size(dim as u64),
                        Arg::Real(eps),
                        Arg::Size(rows as u64),
                    ],
                    elementwise_launch(rows),
                );
            },
        }
        s
    }
}

} // verus!
