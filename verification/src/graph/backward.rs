//! The way back through operations on the host.
use crate::graph::ops::elementwise::{
    broadcast_ok, pairwise_back, pairwise_back_self, pairwise_backward, pairwise_backward_self,
    silu_back, silu_backward,
};
use crate::graph::ops::gqa::{repeat_kv_back, repeat_kv_backward};
use crate::graph::ops::linear::{
    bmm_back, bmm_back_self, bmm_backward, bmm_backward_self, matmul_backward_a, matmul_backward_b,
    matmul_grad_a, matmul_grad_b,
};
use crate::graph::ops::normalization::{rms_back, rms_back_self, rms_backward, rms_backward_self};
use crate::graph::ops::reduction::{
    cross_entropy_back, cross_entropy_backward, max_backward, reduce_ok, scatter_to, softmax_back,
    softmax_backward, sum_back, sum_backward,
};
use crate::graph::ops::transform::{
    gather_back, gather_backward, plain_back, plain_backward, rope_back, rope_backward, rows_ok,
    strided_back, strided_backward, strided_ok, transpose_0213_back, transpose_0213_backward,
};
use crate::graph::Graph;
use crate::scalar::Scalar;
use crate::tape::{Op, TapeNode};
use crate::tensor::{all_positive, broadcast_shape, copy_of, filled, product, Device, Storage, Tensor};
use vstd::prelude::*;

verus! {

/// The gradients of the tensors, as far as they are on the host.
pub open spec fn grads_of<T: Scalar>(tensors: Seq<Tensor<T>>) -> Seq<Seq<T>> {
    Seq::new(tensors.len(), |i: int| tensors[i].grad.values())
}

/// Nothing but the gradient differs.
pub open spec fn same_but_grad<T: Scalar>(x: Tensor<T>, y: Tensor<T>) -> bool {
    &&& x.id == y.id
    &&& x.shape == y.shape
    &&& x.strides == y.strides
    &&& x.data == y.data
    &&& x.device == y.device
    &&& x.name == y.name
    &&& x.is_pooled == y.is_pooled
    &&& x.is_param == y.is_param
}

/// Nothing but gradients differs, and none of them in size or place.
pub open spec fn same_but_grads<T: Scalar>(x: Seq<Tensor<T>>, y: Seq<Tensor<T>>) -> bool {
    &&& x.len() == y.len()
    &&& forall|i: int|
        0 <= i < x.len() ==> {
            &&& #[trigger] same_but_grad(x[i], y[i])
            &&& x[i].grad.spec_kind() == y[i].grad.spec_kind()
            &&& x[i].grad.spec_len() == y[i].grad.spec_len()
        }
}

/// Takes the gradient of a tensor out.
pub(crate) fn take_grad<T: Scalar>(tensors: &mut Vec<Tensor<T>>, id: usize) -> (r: Vec<T>)
    requires
        id < old(tensors)@.len(),
        old(tensors)@[id as int].grad is Cpu,
    ensures
        r@ == old(tensors)@[id as int].grad.values(),
        final(tensors)@.len() == old(tensors)@.len(),
        final(tensors)@[id as int].grad is Cpu,
        same_but_grad(final(tensors)@[id as int], old(tensors)@[id as int]),
        forall|i: int|
            0 <= i < old(tensors)@.len() && i != id ==> #[trigger] final(tensors)@[i] == old(
                tensors,
            )@[i],
{
    let mut taken: Storage<T> = Storage::Cpu(Vec::new());
    std::mem::swap(&mut tensors[id].grad, &mut taken);
    match taken {
        Storage::Cpu(v) => v,
        _ => Vec::new(),
    }
}

/// Puts a gradient back.
pub(crate) fn put_grad<T: Scalar>(tensors: &mut Vec<Tensor<T>>, id: usize, v: Vec<T>)
    requires
        id < old(tensors)@.len(),
    ensures
        final(tensors)@.len() == old(tensors)@.len(),
        final(tensors)@[id as int].grad == Storage::Cpu(v),
        same_but_grad(final(tensors)@[id as int], old(tensors)@[id as int]),
        forall|i: int|
            0 <= i < old(tensors)@.len() && i != id ==> #[trigger] final(tensors)@[i] == old(
                tensors,
            )@[i],
{
    tensors[id].grad = Storage::Cpu(v);
}

/// The gradient of tensor `id` is on the host and has `n` elements.
pub open spec fn grad_has<T: Scalar>(tensors: Seq<Tensor<T>>, id: usize, n: int) -> bool {
    &&& id < tensors.len()
    &&& tensors[id as int].grad is Cpu
    &&& tensors[id as int].grad.spec_len() == n
}

/// The tensors of a recorded operation are there, and have the sizes that it recorded.
pub open spec fn node_ok<T: Scalar>(node: TapeNode<T>, tensors: Seq<Tensor<T>>) -> bool {
    let a = node.inputs@[0];
    let b = node.inputs@[1];
    let out = node.output;
    &&& node.inputs@.len() >= 1
    &&& match node.op {
        Op::Pairwise { op, a_shape, b_shape, a_fwd, b_fwd } => {
            &&& node.inputs@.len() == 2
            &&& broadcast_ok(a_shape@, b_shape@)
            &&& a_fwd@.len() == product(a_shape@)
            &&& b_fwd@.len() == product(b_shape@)
            &&& grad_has(tensors, a, a_fwd@.len() as int)
            &&& grad_has(tensors, b, b_fwd@.len() as int)
            &&& grad_has(tensors, out, product(broadcast_shape(a_shape@, b_shape@)) as int)
            &&& a == b ==> a_shape@ == b_shape@
        },
        Op::Silu { a_fwd } => {
            &&& grad_has(tensors, a, a_fwd@.len() as int)
            &&& grad_has(tensors, out, a_fwd@.len() as int)
        },
        Op::Matmul { a_fwd, b_fwd, m, k, n } => {
            &&& node.inputs@.len() == 2
            &&& a_fwd@.len() == m * k
            &&& b_fwd@.len() == k * n
            &&& grad_has(tensors, a, m * k)
            &&& grad_has(tensors, b, k * n)
            &&& grad_has(tensors, out, m * n)
        },
        Op::Bmm { a_fwd, b_fwd, dims } => {
            &&& node.inputs@.len() == 2
            &&& dims.fits(a_fwd@.len(), b_fwd@.len())
            &&& grad_has(tensors, a, a_fwd@.len() as int)
            &&& grad_has(tensors, b, b_fwd@.len() as int)
            &&& grad_has(tensors, out, dims.out_len())
        },
        Op::Sum { shape, dim } => {
            &&& reduce_ok(shape@, dim as int)
            &&& grad_has(tensors, a, product(shape@) as int)
            &&& grad_has(tensors, out, product(shape@.remove(dim as int)) as int)
        },
        Op::Max { at } => {
            &&& grad_has(tensors, out, at@.len() as int)
            &&& a < tensors.len()
            &&& tensors[a as int].grad is Cpu
            &&& forall|j: int|
                0 <= j < at@.len() ==> #[trigger] at@[j] < tensors[a as int].grad.spec_len()
        },
        Op::Softmax { out_fwd, b: rows, n } => {
            &&& out_fwd@.len() == rows * n
            &&& grad_has(tensors, a, rows * n)
            &&& grad_has(tensors, out, rows * n)
        },
        Op::CrossEntropy { probs, targets, b: rows, c, weight } => {
            &&& probs@.len() == rows * c
            &&& targets@.len() >= rows
            &&& a < tensors.len()
            &&& tensors[a as int].grad is Cpu
            &&& tensors[a as int].grad.spec_len() >= rows * c
            &&& grad_has(tensors, out, 1)
        },
        Op::Transpose0213 { b: blocks, s, h, d } => {
            &&& grad_has(tensors, a, blocks * s * h * d)
            &&& grad_has(tensors, out, blocks * s * h * d)
        },
        Op::Gather { rows, hidden } => {
            &&& a < tensors.len()
            &&& tensors[a as int].grad is Cpu
            &&& rows_ok(rows@, hidden as int, tensors[a as int].grad.spec_len())
            &&& grad_has(tensors, out, rows@.len() * hidden)
        },
        Op::Reshape => {
            &&& out < tensors.len()
            &&& grad_has(tensors, out, tensors[out as int].grad.spec_len() as int)
            &&& a < tensors.len()
            &&& tensors[a as int].grad is Cpu
            &&& tensors[a as int].grad.spec_len() <= tensors[out as int].grad.spec_len()
        },
        Op::Transpose { strides } => {
            let n = tensors[out as int].grad.spec_len();
            &&& out < tensors.len()
            &&& grad_has(tensors, out, n as int)
            &&& a < tensors.len()
            &&& tensors[a as int].grad is Cpu
            &&& n > 0 ==> all_positive(tensors[out as int].shape@)
            &&& strided_ok(
                tensors[out as int].shape@,
                strides@,
                n,
                tensors[a as int].grad.spec_len(),
            )
        },
        Op::Rope { dims } => {
            &&& dims.wf()
            &&& a < tensors.len()
            &&& grad_has(tensors, a, tensors[a as int].grad.spec_len() as int)
            &&& grad_has(tensors, out, tensors[a as int].grad.spec_len() as int)
            &&& dims.rows * dims.hidden <= tensors[a as int].grad.spec_len()
        },
        Op::RepeatKv { dims } => {
            &&& dims.fits()
            &&& grad_has(tensors, a, dims.in_len())
            &&& grad_has(tensors, out, dims.out_len())
        },
        Op::RmsNorm { x_fwd, w_fwd, rrms, n, dim } => {
            &&& node.inputs@.len() == 2
            &&& x_fwd@.len() == n * dim
            &&& n > 0 ==> w_fwd@.len() >= dim
            &&& rrms@.len() == n
            &&& grad_has(tensors, a, x_fwd@.len() as int)
            &&& grad_has(tensors, b, w_fwd@.len() as int)
            &&& grad_has(tensors, out, n * dim)
        },
        Op::Device(_) => false,
    }
}

/// The gradients of all tensors after a recorded operation has handed that of its result back.
/// `shapes` are the shapes of the tensors.
pub open spec fn node_grads<T: Scalar>(
    node: TapeNode<T>,
    shapes: Seq<Seq<usize>>,
    g: Seq<Seq<T>>,
) -> Seq<Seq<T>> {
    let a = node.inputs@[0] as int;
    let b = node.inputs@[1] as int;
    let og = g[node.output as int];
    match node.op {
        Op::Pairwise { op, a_shape, b_shape, a_fwd, b_fwd } => if a == b {
            g.update(a, pairwise_back_self(op, a_fwd@, b_fwd@, a_shape@, og, g[a], og.len()))
        } else {
            let r = pairwise_back(
                op,
                a_fwd@,
                a_shape@,
                b_fwd@,
                b_shape@,
                og,
                (g[a], g[b]),
                og.len(),
            );
            g.update(a, r.0).update(b, r.1)
        },
        Op::Silu { a_fwd } => g.update(a, silu_back(a_fwd@, og, g[a])),
        Op::Matmul { a_fwd, b_fwd, m, k, n } => {
            let h = g.update(
                a,
                matmul_grad_a(g[a], og, b_fwd@, m as int, k as int, n as int),
            );
            h.update(b, matmul_grad_b(h[b], og, a_fwd@, m as int, k as int, n as int))
        },
        Op::Bmm { a_fwd, b_fwd, dims } => if a == b {
            g.update(a, bmm_back_self(a_fwd@, b_fwd@, og, dims, g[a], og.len(), 0))
        } else {
            let r = bmm_back(a_fwd@, b_fwd@, og, dims, (g[a], g[b]), og.len(), 0);
            g.update(a, r.0).update(b, r.1)
        },
        Op::Sum { shape, dim } => g.update(a, sum_back(shape@, dim as int, og, g[a])),
        Op::Max { at } => g.update(a, scatter_to(at@, og, g[a], og.len())),
        Op::Softmax { out_fwd, b: rows, n } => g.update(
            a,
            softmax_back(out_fwd@, og, g[a], n as int),
        ),
        Op::CrossEntropy { probs, targets, b: rows, c, weight } => g.update(
            a,
            cross_entropy_back(probs@, targets@, c as int, weight, og[0], g[a]),
        ),
        Op::Transpose0213 { b: blocks, s, h, d } => g.update(
            a,
            transpose_0213_back(og, g[a], s as int, h as int, d as int),
        ),
        Op::Gather { rows, hidden } => g.update(
            a,
            gather_back(rows@, hidden as int, og, g[a], og.len()),
        ),
        Op::Reshape => g.update(a, plain_back(og, g[a])),
        Op::Transpose { strides } => g.update(
            a,
            strided_back(shapes[node.output as int], strides@, og, g[a], og.len()),
        ),
        Op::Rope { dims } => g.update(a, rope_back(og, g[a], dims)),
        Op::RepeatKv { dims } => g.update(a, repeat_kv_back(dims, og, g[a])),
        Op::RmsNorm { x_fwd, w_fwd, rrms, n, dim } => if a == b {
            g.update(a, rms_back_self(og, x_fwd@, w_fwd@, rrms@, dim as int, g[a], n as nat, 0))
        } else {
            let r = rms_back(
                og,
                x_fwd@,
                w_fwd@,
                rrms@,
                dim as int,
                (g[a], g[b]),
                n as nat,
                0,
            );
            g.update(a, r.0).update(b, r.1)
        },
        Op::Device(_) => g,
    }
}

/// The shapes of the tensors.
pub open spec fn shapes_of<T: Scalar>(tensors: Seq<Tensor<T>>) -> Seq<Seq<usize>> {
    Seq::new(tensors.len(), |i: int| tensors[i].shape@)
}

/// Hands the gradient of the result of a recorded operation back to its operands.
pub fn node_backward<T: Scalar>(node: &TapeNode<T>, tensors: &mut Vec<Tensor<T>>)
    requires
        node_ok(*node, old(tensors)@),
    ensures
        same_but_grads(final(tensors)@, old(tensors)@),
        grads_of(final(tensors)@) == node_grads(
            *node,
            shapes_of(old(tensors)@),
            grads_of(old(tensors)@),
        ),
{
    match &node.op {
        Op::Pairwise { .. } | Op::Matmul { .. } | Op::Bmm { .. } | Op::RmsNorm { .. } => {
            binary_backward(node, tensors);
        },
        _ => {
            unary_backward(node, tensors);
        },
    }
}

/// The operation has one operand whose gradient it changes.
spec fn is_unary<T>(op: Op<T>) -> bool {
    !(op is Pairwise) && !(op is Matmul) && !(op is Bmm) && !(op is RmsNorm)
}

fn unary_backward<T: Scalar>(node: &TapeNode<T>, tensors: &mut Vec<Tensor<T>>)
    requires
        node_ok(*node, old(tensors)@),
        is_unary(node.op),
    ensures
        same_but_grads(final(tensors)@, old(tensors)@),
        grads_of(final(tensors)@) == node_grads(
            *node,
            shapes_of(old(tensors)@),
            grads_of(old(tensors)@),
        ),
{
    let a: usize = node.inputs[0];
    let out: usize = node.output;
    let og = copy_of(tensors[out].grad.as_cpu());
    let ghost before = grads_of(tensors@);
    let ghost was = tensors@;
    let mut g = take_grad(tensors, a);
    assert(g@ == before[a as int]);
    match &node.op {
        Op::Silu { a_fwd } => {
            silu_backward(a_fwd, &og, &mut g);
        },
        Op::Sum { shape, dim } => {
            sum_backward(shape, *dim, &og, &mut g);
        },
        Op::Max { at } => {
            max_backward(at, &og, &mut g);
        },
        Op::Softmax { out_fwd, b, n } => {
            softmax_backward(out_fwd, &og, &mut g, *b, *n);
        },
        Op::CrossEntropy { probs, targets, b, c, weight } => {
            cross_entropy_backward(probs, targets, *b, *c, *weight, og[0], &mut g);
        },
        Op::Transpose0213 { b, s, h, d } => {
            transpose_0213_backward(&og, &mut g, *b, *s, *h, *d);
        },
        Op::Gather { rows, hidden } => {
            gather_backward(rows, *hidden, &og, &mut g);
        },
        Op::Reshape => {
            plain_backward(&og, &mut g);
        },
        Op::Transpose { strides } => {
            strided_backward(&tensors[out].shape, strides, &og, &mut g);
        },
        Op::Rope { dims } => {
            rope_backward(&og, &mut g, *dims);
        },
        Op::RepeatKv { dims } => {
            repeat_kv_backward(*dims, &og, &mut g);
        },
        _ => {},
    }
    let ghost done = g@;
    put_grad(tensors, a, g);
    proof {
        assert(done.len() == before[a as int].len());
        assert(grads_of(tensors@) =~= before.update(a as int, done));
        assert forall|i: int| 0 <= i < was.len() implies #[trigger] same_but_grad(tensors@[i], was[i])
            && tensors@[i].grad.spec_kind() == was[i].grad.spec_kind()
            && tensors@[i].grad.spec_len() == was[i].grad.spec_len() by {
            if i == a {
            } else {
                assert(tensors@[i] == was[i]);
            }
        }
    }
}

#[verifier::rlimit(40)]
fn binary_backward<T: Scalar>(node: &TapeNode<T>, tensors: &mut Vec<Tensor<T>>)
    requires
        node_ok(*node, old(tensors)@),
        !is_unary(node.op),
    ensures
        same_but_grads(final(tensors)@, old(tensors)@),
        grads_of(final(tensors)@) == node_grads(
            *node,
            shapes_of(old(tensors)@),
            grads_of(old(tensors)@),
        ),
{
    let a: usize = node.inputs[0];
    let b: usize = node.inputs[1];
    let out: usize = node.output;
    let og = copy_of(tensors[out].grad.as_cpu());
    let ghost before = grads_of(tensors@);
    let ghost was = tensors@;
    let mut ga = take_grad(tensors, a);
    assert(ga@ == before[a as int]);
    if a == b {
        match &node.op {
            Op::Pairwise { op, a_shape, b_shape, a_fwd, b_fwd } => {
                pairwise_backward_self(*op, a_fwd, b_fwd, a_shape, &og, &mut ga);
            },
            Op::Matmul { a_fwd, b_fwd, m, k, n } => {
                matmul_backward_a(&mut ga, &og, b_fwd, *m, *k, *n);
                matmul_backward_b(&mut ga, &og, a_fwd, *m, *k, *n);
            },
            Op::Bmm { a_fwd, b_fwd, dims } => {
                bmm_backward_self(a_fwd, b_fwd, &og, *dims, &mut ga);
            },
            Op::RmsNorm { x_fwd, w_fwd, rrms, n, dim } => {
                rms_backward_self(&og, x_fwd, w_fwd, rrms, *n, *dim, &mut ga);
            },
            _ => {},
        }
        let ghost done = ga@;
        put_grad(tensors, a, ga);
        proof {
            assert(done.len() == before[a as int].len());
            assert(grads_of(tensors@) =~= before.update(a as int, done));
            assert(node_grads(*node, shapes_of(was), before) =~= before.update(a as int, done));
            lemma_same(was, tensors@, a as int, a as int);
        }
    } else {
        let mut gb = take_grad(tensors, b);
        assert(gb@ == before[b as int]);
        match &node.op {
            Op::Pairwise { op, a_shape, b_shape, a_fwd, b_fwd } => {
                pairwise_backward(
                    *op,
                    a_fwd,
                    a_shape,
                    b_fwd,
                    b_shape,
                    &og,
                    &mut ga,
                    &mut gb,
                );
            },
            Op::Matmul { a_fwd, b_fwd, m, k, n } => {
                matmul_backward_a(&mut ga, &og, b_fwd, *m, *k, *n);
                matmul_backward_b(&mut gb, &og, a_fwd, *m, *k, *n);
            },
            Op::Bmm { a_fwd, b_fwd, dims } => {
                bmm_backward(a_fwd, b_fwd, &og, *dims, &mut ga, &mut gb);
            },
            Op::RmsNorm { x_fwd, w_fwd, rrms, n, dim } => {
                rms_backward(&og, x_fwd, w_fwd, rrms, *n, *dim, &mut ga, &mut gb);
            },
            _ => {},
        }
        let ghost da = ga@;
        let ghost db = gb@;
        put_grad(tensors, a, ga);
        put_grad(tensors, b, gb);
        proof {
            assert(da.len() == before[a as int].len());
            assert(db.len() == before[b as int].len());
            assert(grads_of(tensors@) =~= before.update(a as int, da).update(b as int, db));
            lemma_same(was, tensors@, a as int, b as int);
        }
    }
}

/// Where only two tensors were touched, and those in their gradients alone, nothing else differs.
pub proof fn lemma_same<T: Scalar>(x: Seq<Tensor<T>>, y: Seq<Tensor<T>>, a: int, b: int)
    requires
        x.len() == y.len(),
        0 <= a < x.len(),
        0 <= b < x.len(),
        forall|i: int| 0 <= i < x.len() && i != a && i != b ==> #[trigger] y[i] == x[i],
        same_but_grad(y[a], x[a]),
        same_but_grad(y[b], x[b]),
        y[a].grad.spec_kind() == x[a].grad.spec_kind(),
        y[b].grad.spec_kind() == x[b].grad.spec_kind(),
        y[a].grad.spec_len() == x[a].grad.spec_len(),
        y[b].grad.spec_len() == x[b].grad.spec_len(),
    ensures
        same_but_grads(y, x),
{
    assert forall|i: int| 0 <= i < x.len() implies #[trigger] same_but_grad(y[i], x[i])
        && y[i].grad.spec_kind() == x[i].grad.spec_kind() && y[i].grad.spec_len()
        == x[i].grad.spec_len() by {
        if i != a && i != b {
            assert(y[i] == x[i]);
        }
    }
}

/// What was valid before gradients changed is valid after.
proof fn lemma_node_ok_kept<T: Scalar>(node: TapeNode<T>, x: Seq<Tensor<T>>, y: Seq<Tensor<T>>)
    requires
        node_ok(node, x),
        same_but_grads(y, x),
    ensures
        node_ok(node, y),
{
    let a = node.inputs@[0] as int;
    let b = node.inputs@[1] as int;
    let o = node.output as int;
    assert(0 <= a < x.len() ==> same_but_grad(y[a], x[a]));
    assert(0 <= b < x.len() ==> same_but_grad(y[b], x[b]));
    assert(0 <= o < x.len() ==> same_but_grad(y[o], x[o]));
}

/// The gradients after the first `n` operations have been gone back through, the last first.
pub open spec fn rewound<T: Scalar>(
    nodes: Seq<TapeNode<T>>,
    shapes: Seq<Seq<usize>>,
    g: Seq<Seq<T>>,
    n: nat,
) -> Seq<Seq<T>>
    decreases n,
{
    if n == 0 {
        g
    } else {
        rewound(nodes, shapes, node_grads(nodes[n - 1], shapes, g), (n - 1) as nat)
    }
}

/// The gradient that the way back starts with: that of the loss is one everywhere.
pub open spec fn seeded<T: Scalar>(ts: Seq<Tensor<T>>, loss_id: int) -> Seq<Seq<T>> {
    let g = grads_of(ts);
    g.update(loss_id, Seq::new(g[loss_id].len(), |i: int| T::spec_one()))
}

/// Everything but the tensors and the list of held tensors is the same.
pub open spec fn only_grads<T: Scalar>(x: Graph<T>, y: Graph<T>) -> bool {
    &&& x.tape.nodes@ == y.tape.nodes@
    &&& x.vram_pool == y.vram_pool
    &&& x.vram_pool_bf16 == y.vram_pool_bf16
    &&& x.forward_tensor_ids == y.forward_tensor_ids
    &&& x.device == y.device
    &&& x.num_params == y.num_params
    &&& x.no_grad == y.no_grad
    &&& x.precision_mode == y.precision_mode
    &&& x.vram_budget_bytes == y.vram_budget_bytes
    &&& x.scratch_budget_mb == y.scratch_budget_mb
}

impl<T: Scalar> Graph<T> {
    /// Goes back through all recorded operations on the host. Where operations are left unrecorded,
    /// nothing is done.
    pub fn backward_host(&mut self, loss_id: usize)
        requires
            old(self).wf(),
            old(self).device == Device::Cpu,
            !old(self).no_grad ==> {
                &&& old(self).tape_ok()
                &&& loss_id < old(self).tensors@.len()
                &&& old(self).tensors@[loss_id as int].grad is Cpu
            },
        ensures
            old(self).no_grad ==> *final(self) == *old(self),
            !old(self).no_grad ==> {
                &&& same_but_grads(final(self).tensors@, old(self).tensors@)
                &&& grads_of(final(self).tensors@) == rewound(
                    old(self).tape.nodes@,
                    shapes_of(old(self).tensors@),
                    seeded(old(self).tensors@, loss_id as int),
                    old(self).tape.nodes@.len(),
                )
                &&& final(self).active_node_tensors@.len() == 0
                &&& only_grads(*final(self), *old(self))
                &&& final(self).tape_ok()
            },
            final(self).wf(),
            old(self).full_grads() ==> final(self).full_grads(),
    {
        if self.no_grad {
            return;
        }
        let ghost was = self.tensors@;
        let ghost shapes = shapes_of(was);
        let ghost nodes = self.tape.nodes@;
        let n: usize = self.tensors[loss_id].grad.len();
        put_grad(&mut self.tensors, loss_id, filled(T::one(), n));
        proof {
            lemma_same(was, self.tensors@, loss_id as int, loss_id as int);
            assert(grads_of(self.tensors@) =~= seeded(was, loss_id as int));
        }
        let mut i: usize = self.tape.nodes.len();
        while i > 0
            invariant
                i <= nodes.len(),
                nodes == self.tape.nodes@,
                nodes == old(self).tape.nodes@,
                was == old(self).tensors@,
                shapes == shapes_of(was),
                old(self).tape_ok(),
                same_but_grads(self.tensors@, was),
                rewound(nodes, shapes, grads_of(self.tensors@), i as nat) == rewound(
                    nodes,
                    shapes,
                    seeded(was, loss_id as int),
                    nodes.len(),
                ),
                only_grads(*self, *old(self)),
            decreases i,
        {
            i -= 1;
            let ghost before = self.tensors@;
            proof {
                assert(node_ok(nodes[i as int], was));
                lemma_node_ok_kept(nodes[i as int], was, before);
                assert(shapes_of(before) =~= shapes) by {
                    assert forall|j: int| 0 <= j < before.len() implies shapes_of(before)[j]
                        == shapes[j] by {
                        assert(same_but_grad(before[j], was[j]));
                    }
                }
            }
            node_backward(&self.tape.nodes[i], &mut self.tensors);
            proof {
                lemma_same_chain(self.tensors@, before, was);
            }
        }
        self.active_node_tensors.clear();
        proof {
            assert forall|j: int| 0 <= j < was.len() && old(self).full_grads() implies (
            #[trigger] self.tensors@[j]).grad is Cpu || self.tensors@[j].grad is Gpu by {
                assert(same_but_grad(self.tensors@[j], was[j]));
                assert(was[j].grad is Cpu || was[j].grad is Gpu);
            }
            assert forall|j: int| 0 <= j < self.tape.nodes@.len() implies node_ok(
                #[trigger] self.tape.nodes@[j],
                self.tensors@,
            ) by {
                assert(node_ok(nodes[j], was));
                lemma_node_ok_kept(nodes[j], was, self.tensors@);
            }
            assert forall|j: int| 0 <= j < self.tensors@.len() implies {
                &&& (#[trigger] self.tensors@[j]).id == j
                &&& self.tensors@[j].shape_wf()
            } by {
                assert(same_but_grad(self.tensors@[j], was[j]));
                assert(was[j].id == j);
            }
        }
    }
}

/// Differing in gradients only is transitive.
pub proof fn lemma_same_chain<T: Scalar>(x: Seq<Tensor<T>>, y: Seq<Tensor<T>>, z: Seq<Tensor<T>>)
    requires
        same_but_grads(x, y),
        same_but_grads(y, z),
    ensures
        same_but_grads(x, z),
{
    assert forall|i: int| 0 <= i < x.len() implies #[trigger] same_but_grad(x[i], z[i])
        && x[i].grad.spec_kind() == z[i].grad.spec_kind() && x[i].grad.spec_len()
        == z[i].grad.spec_len() by {
        assert(same_but_grad(x[i], y[i]));
        assert(same_but_grad(y[i], z[i]));
    }
}

} // verus!
