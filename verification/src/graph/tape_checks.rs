//! Whether the operations on the tape can be gone back through.
use crate::graph::backward::{grad_has, node_ok};
use crate::graph::checks::{at_most, can_be_counted, product_of_three, product_of_two};
use crate::graph::device_backward::{arity, mm_back_ok, sizes_ok};
use crate::graph::launch::tiles_can_be_counted;
use crate::graph::ops::elementwise::broadcast_ok;
use crate::graph::ops::linear::BmmDims;
use crate::graph::ops::reduction::{reduce_ok, shape_without};
use crate::graph::ops::transform::{rows_ok, strided_index, strided_ok};
use crate::graph::rewind::{device_node, needed, scratch_bytes, BackStage, Rewind};
use crate::graph::Graph;
use crate::scalar::Scalar;
use crate::tape::{DeviceOp, MatmulDims, Op, TapeNode};
use crate::tensor::{
    all_positive, broadcast_shape, element_count, product, ravel, ravel_from, shape_fits, Storage,
    Tensor,
};
use vstd::prelude::*;

verus! {

fn product_of_four(a: usize, b: usize, c: usize, d: usize) -> (r: Option<usize>)
    ensures
        r == (if a * b * c * d <= usize::MAX {
            Some((a * b * c * d) as usize)
        } else {
            None
        }),
{
    if d == 0 {
        assert(a * b * c * d == 0) by (nonlinear_arith)
            requires
                d == 0,
        ;
        return Some(0);
    }
    match product_of_three(a, b, c) {
        None => {
            assert(a * b * c * d > usize::MAX) by (nonlinear_arith)
                requires
                    a * b * c > usize::MAX,
                    d >= 1,
            ;
            None
        },
        Some(n) => n.checked_mul(d),
    }
}

fn is_count(a: Option<usize>, n: usize) -> (r: bool)
    ensures
        r == (a == Some(n)),
{
    match a {
        None => false,
        Some(x) => x == n,
    }
}

fn same_numbers(a: &Vec<usize>, b: &Vec<usize>) -> (r: bool)
    ensures
        r == (a@ == b@),
{
    if a.len() != b.len() {
        return false;
    }
    let mut i: usize = 0;
    while i < a.len()
        invariant
            i <= a@.len(),
            a@.len() == b@.len(),
            forall|j: int| 0 <= j < i ==> #[trigger] a@[j] == b@[j],
        decreases a@.len() - i,
    {
        if a[i] != b[i] {
            assert(a@[i as int] != b@[i as int]);
            return false;
        }
        i += 1;
    }
    assert(a@ =~= b@);
    true
}

fn has_no_zero(s: &Vec<usize>) -> (r: bool)
    ensures
        r == all_positive(s@),
{
    let mut i: usize = 0;
    while i < s.len()
        invariant
            i <= s@.len(),
            forall|j: int| 0 <= j < i ==> #[trigger] s@[j] > 0,
        decreases s@.len() - i,
    {
        if s[i] == 0 {
            assert(!(s@[i as int] > 0));
            return false;
        }
        i += 1;
    }
    true
}

/// The number of elements of a gradient, where it is on the host.
fn host_grad<T: Scalar>(tensors: &Vec<Tensor<T>>, id: usize) -> (r: Option<usize>)
    ensures
        r == (if id < tensors@.len() && tensors@[id as int].grad is Cpu {
            Some(tensors@[id as int].grad.spec_len() as usize)
        } else {
            None
        }),
        r is Some ==> tensors@[id as int].grad.spec_len() <= usize::MAX,
{
    if id >= tensors.len() {
        return None;
    }
    match &tensors[id].grad {
        Storage::Cpu(v) => Some(v.len()),
        _ => None,
    }
}

/// Whether a gradient is on the host with as many elements as were counted.
fn has_grad<T: Scalar>(tensors: &Vec<Tensor<T>>, id: usize, n: Option<usize>) -> (r: bool)
    ensures
        r == (n matches Some(k) && grad_has(tensors@, id, k as int)),
        forall|x: int| x > usize::MAX ==> !#[trigger] grad_has(tensors@, id, x),
{
    match host_grad(tensors, id) {
        None => false,
        Some(k) => is_count(n, k),
    }
}

fn shapes_broadcast<T: Scalar>(a: &Vec<usize>, b: &Vec<usize>) -> (r: Option<usize>)
    ensures
        r is Some == broadcast_ok(a@, b@),
        r matches Some(n) ==> n == product(broadcast_shape(a@, b@)),
{
    if !can_be_counted(a.as_slice()) || !can_be_counted(b.as_slice()) {
        return None;
    }
    let out = Tensor::<T>::get_broadcasted_shape(a.as_slice(), b.as_slice());
    if !can_be_counted(out.as_slice()) {
        return None;
    }
    let n: usize = element_count(out.as_slice());
    if n == 0 || (element_count(a.as_slice()) > 0 && element_count(b.as_slice()) > 0) {
        Some(n)
    } else {
        None
    }
}

fn reduces(shape: &Vec<usize>, dim: usize) -> (r: bool)
    ensures
        r == reduce_ok(shape@, dim as int),
{
    dim < shape.len() && can_be_counted(shape.as_slice()) && can_be_counted(
        shape_without(shape, dim).as_slice(),
    )
}

fn rows_are_in(rows: &Vec<usize>, hidden: usize, len: usize) -> (r: bool)
    ensures
        r == rows_ok(rows@, hidden as int, len as nat),
{
    if hidden == 0 {
        assert forall|i: int| 0 <= i < rows@.len() implies (#[trigger] rows@[i] + 1) * (
        hidden as int) <= len by {
            let x = rows@[i] + 1;
            assert(x * (hidden as int) == 0) by (nonlinear_arith)
                requires
                    hidden == 0,
            ;
        }
        return true;
    }
    let mut i: usize = 0;
    while i < rows.len()
        invariant
            i <= rows@.len(),
            hidden > 0,
            forall|j: int| 0 <= j < i ==> (#[trigger] rows@[j] + 1) * (hidden as int) <= len,
        decreases rows@.len() - i,
    {
        let next: Option<usize> = rows[i].checked_add(1);
        let fits: bool = match next {
            None => {
                assert((rows@[i as int] + 1) * (hidden as int) > usize::MAX) by (nonlinear_arith)
                    requires
                        rows@[i as int] + 1 > usize::MAX,
                        hidden >= 1,
                ;
                false
            },
            Some(x) => at_most(product_of_two(x, hidden), len),
        };
        if !fits {
            assert(!((rows@[i as int] + 1) * (hidden as int) <= len));
            return false;
        }
        i += 1;
    }
    true
}

/// The position of the element with indices `nd`, where it can be counted.
fn position(nd: &Vec<usize>, strides: &Vec<usize>) -> (r: Option<usize>)
    ensures
        r == (if ravel(nd@, strides@) <= usize::MAX {
            Some(ravel(nd@, strides@) as usize)
        } else {
            None
        }),
{
    let mut sum: usize = 0;
    let mut i: usize = 0;
    while i < nd.len() && i < strides.len()
        invariant
            i <= nd@.len(),
            i <= strides@.len(),
            ravel(nd@, strides@) == sum + ravel_from(nd@, strides@, i as int),
        decreases nd@.len() - i,
    {
        match nd[i].checked_mul(strides[i]) {
            None => {
                return None;
            },
            Some(x) => match sum.checked_add(x) {
                None => {
                    return None;
                },
                Some(y) => {
                    sum = y;
                },
            },
        }
        i += 1;
    }
    Some(sum)
}

fn view_is_in<T: Scalar>(
    shape: &Vec<usize>,
    strides: &Vec<usize>,
    n: usize,
    len: usize,
) -> (r: bool)
    requires
        n > 0 ==> all_positive(shape@),
    ensures
        r == strided_ok(shape@, strides@, n as nat, len as nat),
{
    let mut i: usize = 0;
    while i < n
        invariant
            i <= n,
            n > 0 ==> all_positive(shape@),
            forall|j: int| 0 <= j < i ==> #[trigger] strided_index(shape@, strides@, j) < len,
        decreases n - i,
    {
        let nd = Tensor::<T>::flat_to_nd(i, shape.as_slice());
        let below: bool = match position(&nd, strides) {
            None => false,
            Some(p) => p < len,
        };
        if !below {
            assert(!(strided_index(shape@, strides@, i as int) < len));
            return false;
        }
        i += 1;
    }
    true
}

fn all_below(at: &Vec<usize>, n: usize) -> (r: bool)
    ensures
        r == (forall|j: int| 0 <= j < at@.len() ==> #[trigger] at@[j] < n),
{
    let mut i: usize = 0;
    while i < at.len()
        invariant
            i <= at@.len(),
            forall|j: int| 0 <= j < i ==> #[trigger] at@[j] < n,
        decreases at@.len() - i,
    {
        if at[i] >= n {
            assert(!(at@[i as int] < n));
            return false;
        }
        i += 1;
    }
    true
}

fn bmm_fits(d: BmmDims, a_len: usize, b_len: usize) -> (r: bool)
    ensures
        r == d.fits(a_len as nat, b_len as nat),
{
    at_most(product_of_three(d.batch, d.m, d.k), a_len) && at_most(
        product_of_three(d.batch, d.k, d.n),
        b_len,
    ) && product_of_three(d.batch, d.m, d.n).is_some()
}

spec fn has_two_operands<T>(op: Op<T>) -> bool {
    op is Pairwise || op is Matmul || op is Bmm || op is RmsNorm
}

fn binary_is_ok<T: Scalar>(node: &TapeNode<T>, tensors: &Vec<Tensor<T>>) -> (r: bool)
    requires
        has_two_operands(node.op),
    ensures
        r == node_ok(*node, tensors@),
{
    if node.inputs.len() != 2 {
        return false;
    }
    let a: usize = node.inputs[0];
    let b: usize = node.inputs[1];
    let out: usize = node.output;
    match &node.op {
        Op::Pairwise { op, a_shape, b_shape, a_fwd, b_fwd } => {
            let n: Option<usize> = shapes_broadcast::<T>(a_shape, b_shape);
            n.is_some() && a_fwd.len() == element_count(a_shape.as_slice()) && b_fwd.len()
                == element_count(b_shape.as_slice()) && has_grad(tensors, a, Some(a_fwd.len()))
                && has_grad(tensors, b, Some(b_fwd.len())) && has_grad(tensors, out, n) && (a != b
                || same_numbers(a_shape, b_shape))
        },
        Op::Matmul { a_fwd, b_fwd, m, k, n } => {
            let mk: Option<usize> = product_of_two(*m, *k);
            let kn: Option<usize> = product_of_two(*k, *n);
            is_count(mk, a_fwd.len()) && is_count(kn, b_fwd.len()) && has_grad(tensors, a, mk)
                && has_grad(tensors, b, kn) && has_grad(tensors, out, product_of_two(*m, *n))
        },
        Op::Bmm { a_fwd, b_fwd, dims } => {
            bmm_fits(*dims, a_fwd.len(), b_fwd.len()) && has_grad(tensors, a, Some(a_fwd.len()))
                && has_grad(tensors, b, Some(b_fwd.len())) && has_grad(
                tensors,
                out,
                product_of_three(dims.batch, dims.m, dims.n),
            )
        },
        Op::RmsNorm { x_fwd, w_fwd, rrms, n, dim } => {
            let size: Option<usize> = product_of_two(*n, *dim);
            is_count(size, x_fwd.len()) && (*n == 0 || w_fwd.len() >= *dim) && rrms.len() == *n
                && has_grad(tensors, a, Some(x_fwd.len())) && has_grad(
                tensors,
                b,
                Some(w_fwd.len()),
            ) && has_grad(tensors, out, size)
        },
        _ => false,
    }
}

fn view_back_is_ok<T: Scalar>(
    tensors: &Vec<Tensor<T>>,
    a: usize,
    out: usize,
    strides: &Vec<usize>,
) -> (r: bool)
    ensures
        r == ({
            let n = tensors@[out as int].grad.spec_len();
            &&& out < tensors@.len()
            &&& grad_has(tensors@, out, n as int)
            &&& a < tensors@.len()
            &&& tensors@[a as int].grad is Cpu
            &&& n > 0 ==> all_positive(tensors@[out as int].shape@)
            &&& strided_ok(
                tensors@[out as int].shape@,
                strides@,
                n,
                tensors@[a as int].grad.spec_len(),
            )
        }),
{
    match (host_grad(tensors, out), host_grad(tensors, a)) {
        (Some(n), Some(len)) => {
            if n > 0 && !has_no_zero(&tensors[out].shape) {
                return false;
            }
            view_is_in::<T>(&tensors[out].shape, strides, n, len)
        },
        _ => false,
    }
}

fn unary_is_ok<T: Scalar>(node: &TapeNode<T>, tensors: &Vec<Tensor<T>>) -> (r: bool)
    requires
        !has_two_operands(node.op),
    ensures
        r == node_ok(*node, tensors@),
{
    if node.inputs.len() < 1 {
        return false;
    }
    let a: usize = node.inputs[0];
    let out: usize = node.output;
    let len: Option<usize> = host_grad(tensors, a);
    match &node.op {
        Op::Silu { a_fwd } => has_grad(tensors, a, Some(a_fwd.len())) && has_grad(
            tensors,
            out,
            Some(a_fwd.len()),
        ),
        Op::Sum { shape, dim } => reduces(shape, *dim) && has_grad(
            tensors,
            a,
            Some(element_count(shape.as_slice())),
        ) && has_grad(tensors, out, Some(element_count(shape_without(shape, *dim).as_slice()))),
        Op::Max { at } => {
            has_grad(tensors, out, Some(at.len())) && match len {
                None => false,
                Some(n) => all_below(at, n),
            }
        },
        Op::Softmax { out_fwd, b, n } => {
            let size: Option<usize> = product_of_two(*b, *n);
            is_count(size, out_fwd.len()) && has_grad(tensors, a, size) && has_grad(
                tensors,
                out,
                size,
            )
        },
        Op::CrossEntropy { probs, targets, b, c, weight } => {
            is_count(product_of_two(*b, *c), probs.len()) && targets.len() >= *b && match len {
                None => false,
                Some(n) => n >= probs.len(),
            } && has_grad(tensors, out, Some(1))
        },
        Op::Transpose0213 { b, s, h, d } => {
            let size: Option<usize> = product_of_four(*b, *s, *h, *d);
            has_grad(tensors, a, size) && has_grad(tensors, out, size)
        },
        Op::Gather { rows, hidden } => {
            has_grad(tensors, out, product_of_two(rows.len(), *hidden)) && match len {
                None => false,
                Some(n) => rows_are_in(rows, *hidden, n),
            }
        },
        Op::Reshape => match (host_grad(tensors, out), len) {
            (Some(n), Some(k)) => k <= n,
            _ => false,
        },
        Op::Transpose { strides } => view_back_is_ok(tensors, a, out, strides),
        Op::Rope { dims } => {
            dims.head > 0 && (dims.rows == 0 || dims.seq > 0) && match len {
                None => false,
                Some(n) => has_grad(tensors, out, Some(n)) && at_most(
                    product_of_two(dims.rows, dims.hidden),
                    n,
                ),
            }
        },
        Op::RepeatKv { dims } => {
            match (product_of_two(dims.kv, dims.repeats), product_of_two(dims.seq, dims.dim)) {
                (Some(heads), Some(head)) => has_grad(
                    tensors,
                    a,
                    product_of_three(dims.batch, dims.kv, head),
                ) && has_grad(tensors, out, product_of_three(dims.batch, heads, head)),
                _ => false,
            }
        },
        _ => false,
    }
}

fn node_is_ok<T: Scalar>(node: &TapeNode<T>, tensors: &Vec<Tensor<T>>) -> (r: bool)
    ensures
        r == node_ok(*node, tensors@),
{
    match &node.op {
        Op::Pairwise { .. } | Op::Matmul { .. } | Op::Bmm { .. } | Op::RmsNorm { .. } => {
            binary_is_ok(node, tensors)
        },
        _ => unary_is_ok(node, tensors),
    }
}

fn product_goes_back(d: MatmulDims) -> (r: bool)
    ensures
        r == mm_back_ok(d),
{
    assert(d.k * d.n == d.n * d.k) by (nonlinear_arith);
    product_of_two(d.m, d.k).is_some() && product_of_two(d.k, d.n).is_some()
        && tiles_can_be_counted(d.k, d.m) && tiles_can_be_counted(d.n, d.k)
}

fn shape_counts(a: usize, b: usize, c: usize) -> (r: bool)
    ensures
        r == shape_fits(seq![a, b, c]),
{
    let s: Vec<usize> = vec![a, b, c];
    assert(s@ =~= seq![a, b, c]);
    can_be_counted(s.as_slice())
}

fn sizes_are_ok<T: Scalar>(op: &DeviceOp<T>) -> (r: bool)
    ensures
        r == sizes_ok(*op),
{
    match op {
        DeviceOp::Matmul { dims, .. } => product_goes_back(*dims),
        DeviceOp::MatmulTransB { dims } => product_goes_back(*dims),
        DeviceOp::MatmulBf16 { dims } => product_goes_back(*dims),
        DeviceOp::Streamed { dims, .. } => product_goes_back(*dims),
        DeviceOp::StreamedTransB { dims } => product_goes_back(*dims),
        DeviceOp::Bmm { dims: d } => {
            shape_counts(d.batch, d.m, d.n) && shape_counts(d.batch, d.m, d.k) && shape_counts(
                d.batch,
                d.k,
                d.n,
            ) && product_of_two(d.batch, d.m).is_some() && product_of_two(d.batch, d.k).is_some()
                && tiles_can_be_counted(d.k, d.m) && tiles_can_be_counted(d.n, d.k)
        },
        DeviceOp::CrossEntropy { batch, classes, .. } => product_of_two(
            *batch,
            *classes,
        ).is_some(),
        DeviceOp::Transpose0213 { b, s, h, d } => {
            product_of_two(*b, *s).is_some() && product_of_three(*b, *s, *h).is_some()
                && product_of_four(*b, *s, *h, *d).is_some()
        },
        _ => true,
    }
}

fn operands_of<T: Scalar>(op: &DeviceOp<T>) -> (r: usize)
    ensures
        r == arity(*op),
{
    match op {
        DeviceOp::Add { .. } => 2,
        DeviceOp::Mul { .. } => 2,
        DeviceOp::Matmul { .. } => 2,
        DeviceOp::MatmulTransB { .. } => 2,
        DeviceOp::MatmulBf16 { .. } => 2,
        DeviceOp::Streamed { .. } => 2,
        DeviceOp::StreamedTransB { .. } => 2,
        DeviceOp::Bmm { .. } => 2,
        DeviceOp::Gather { .. } => 2,
        DeviceOp::RmsNorm { .. } => 2,
        _ => 1,
    }
}

fn needs<T: Scalar>(node: &TapeNode<T>) -> (r: usize)
    requires
        node.inputs@.len() < usize::MAX,
    ensures
        r == needed(*node).len(),
{
    match &node.op {
        Op::Device(DeviceOp::Streamed { .. }) => 2,
        Op::Device(DeviceOp::StreamedTransB { .. }) => 2,
        _ => node.inputs.len() + 1,
    }
}

impl<T: Scalar> Graph<T> {
    /// Whether every recorded operation can be gone back through on the host.
    pub fn tape_can_go_back(&self) -> (r: bool)
        ensures
            r == self.tape_ok(),
    {
        let mut i: usize = 0;
        while i < self.tape.nodes.len()
            invariant
                i <= self.tape.nodes@.len(),
                forall|j: int|
                    0 <= j < i ==> node_ok(#[trigger] self.tape.nodes@[j], self.tensors@),
            decreases self.tape.nodes@.len() - i,
        {
            if !node_is_ok(&self.tape.nodes[i], &self.tensors) {
                assert(!node_ok(self.tape.nodes@[i as int], self.tensors@));
                return false;
            }
            i += 1;
        }
        true
    }

    fn is_device_node(&self, node: &TapeNode<T>) -> (r: bool)
        ensures
            r == device_node(*self, *node),
    {
        match &node.op {
            Op::Device(op) => node.output < self.tensors.len() && node.inputs.len() == operands_of(
                op,
            ) && all_below(&node.inputs, self.tensors.len()) && sizes_are_ok(op),
            _ => false,
        }
    }

    /// Whether a way back on the device fits the tape.
    pub fn can_go_on(&self, r: &Rewind) -> (ok: bool)
        ensures
            ok == r.wf(*self),
    {
        if r.left > self.tape.nodes.len() || r.loss_id >= self.tensors.len() {
            return false;
        }
        let mut i: usize = 0;
        while i < self.tape.nodes.len()
            invariant
                i <= self.tape.nodes@.len(),
                forall|j: int| 0 <= j < i ==> device_node(*self, #[trigger] self.tape.nodes@[j]),
            decreases self.tape.nodes@.len() - i,
        {
            if !self.is_device_node(&self.tape.nodes[i]) {
                assert(!device_node(*self, self.tape.nodes@[i as int]));
                return false;
            }
            i += 1;
        }
        if r.left == 0 {
            return matches!(r.stage, BackStage::Loss | BackStage::Fill | BackStage::Enter);
        }
        assert(device_node(*self, self.tape.nodes@[r.left - 1]));
        let n: usize = needs(&self.tape.nodes[r.left - 1]);
        match r.stage {
            BackStage::Grads(k) => k <= n,
            BackStage::Bring(k) => k <= n,
            BackStage::Evict(k) => k <= r.candidates.len(),
            _ => true,
        }
    }

    /// Whether the device memory that kernels need free can be counted.
    pub fn can_count_scratch(&self) -> (r: bool)
        ensures
            r == (scratch_bytes(*self) <= usize::MAX),
    {
        match self.scratch_budget_mb {
            Some(m) => product_of_two(m, 0x10_0000).is_some(),
            None => true,
        }
    }
}

} // verus!
