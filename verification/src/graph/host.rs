//! Operations on the host.
use crate::data::fim::IGNORE_INDEX;
use crate::graph::backward::node_ok;
use crate::graph::index::{
    lemma_product2, lemma_product3, lemma_product4, lemma_product_last, swapped_view_in_range,
};
use crate::graph::ops::attention::{flash_forward, flash_out, FlashDims};
use crate::graph::ops::elementwise::{
    broadcast_ok, pairwise_forward, pairwise_out, silu_forward, silu_out, Pairwise,
};
use crate::graph::ops::gqa::{repeat_kv_forward, repeat_kv_out, RepeatDims};
use crate::graph::ops::linear::{bmm_forward, bmm_out, matmul_forward, matmul_out, BmmDims};
use crate::graph::ops::normalization::{all_rrms, rms_forward, rms_out};
use crate::graph::ops::reduction::{
    class_probs, cross_entropy_forward, loss_sum, max_forward, max_to, reduce_ok, shape_without,
    softmax_forward, softmax_out, sum_forward, sum_to, targets_ok, RowWeight,
};
use crate::graph::ops::transform::{
    as_rows, gather_forward, gather_out, rope_forward, rope_out, rows_of, rows_ok, strided_forward,
    strided_out, swapped, transpose_0213_forward, transpose_0213_out, with_swapped, RopeDims,
};
use crate::graph::{host_tensor, only_tensors_and_tape, Graph};
use crate::scalar::Scalar;
use crate::tape::{Op, TapeNode};
use crate::tensor::{broadcast_shape, copy_of, element_count, product, shape_fits, Device, Tensor};
use vstd::prelude::*;

verus! {

/// An operation has made tensor `id`, on the host, and changed nothing else but the tape.
pub open spec fn host_result<T: Scalar>(
    x: Graph<T>,
    y: Graph<T>,
    id: usize,
    shape: Seq<usize>,
    values: Seq<T>,
) -> bool {
    &&& id == x.tensors@.len()
    &&& y.tensors@.len() == id + 1
    &&& y.tensors@.take(id as int) == x.tensors@
    &&& host_tensor(y.tensors@[id as int], id as int, shape, values)
    &&& y.tensors@[id as int].device == Device::Cpu
    &&& only_tensors_and_tape(y, x)
    &&& y.wf()
}

/// The operation has been recorded, unless operations are left unrecorded.
pub open spec fn recorded<T: Scalar>(
    x: Graph<T>,
    y: Graph<T>,
    inputs: Seq<usize>,
    output: usize,
    op: spec_fn(Op<T>) -> bool,
) -> bool {
    if x.no_grad {
        y.tape.nodes@ == x.tape.nodes@
    } else {
        let n = x.tape.nodes@.len() as int;
        &&& y.tape.nodes@.len() == n + 1
        &&& y.tape.nodes@.take(n) == x.tape.nodes@
        &&& y.tape.nodes@[n].inputs@ == inputs
        &&& y.tape.nodes@[n].output == output
        &&& op(y.tape.nodes@[n].op)
    }
}

/// Tensor `id` is there, wholly on the host.
pub open spec fn host_ready<T: Scalar>(g: Graph<T>, id: usize) -> bool {
    id < g.tensors@.len() && g.tensors@[id as int].wf_cpu()
}

/// The elements of a tensor on the host.
pub open spec fn data_of<T: Scalar>(g: Graph<T>, id: usize) -> Seq<T> {
    g.tensors@[id as int].data->Cpu_0@
}

/// The shape of a tensor.
pub open spec fn shape_of<T: Scalar>(g: Graph<T>, id: usize) -> Seq<usize> {
    g.tensors@[id as int].shape@
}

/// A recorded operation stays valid when a tensor is added.
proof fn lemma_node_ok_pushed<T: Scalar>(node: TapeNode<T>, x: Seq<Tensor<T>>, y: Seq<Tensor<T>>)
    requires
        node_ok(node, x),
        x.len() <= y.len(),
        y.take(x.len() as int) == x,
    ensures
        node_ok(node, y),
{
    let a = node.inputs@[0] as int;
    let b = node.inputs@[1] as int;
    let o = node.output as int;
    assert(0 <= a < x.len() ==> y[a] == y.take(x.len() as int)[a]);
    assert(0 <= b < x.len() ==> y[b] == y.take(x.len() as int)[b]);
    assert(0 <= o < x.len() ==> y[o] == y.take(x.len() as int)[o]);
}

impl<T: Scalar> Graph<T> {
    /// Every recorded operation can be gone back through on the host.
    pub open spec fn tape_ok(&self) -> bool {
        forall|i: int|
            0 <= i < self.tape.nodes@.len() ==> node_ok(
                #[trigger] self.tape.nodes@[i],
                self.tensors@,
            )
    }

    fn finish(&mut self, shape: Vec<usize>, data: Vec<T>, inputs: Vec<usize>, op: Op<T>) -> (id:
        usize)
        requires
            old(self).wf(),
            old(self).device == Device::Cpu,
            shape_fits(shape@),
        ensures
            host_result(*old(self), *final(self), id, shape@, data@),
            recorded(*old(self), *final(self), inputs@, id, |o: Op<T>| o == op),
            old(self).tape_ok() && node_ok(
                TapeNode { inputs, output: id, op },
                final(self).tensors@,
            ) ==> final(self).tape_ok(),
    {
        let id: usize = self.alloc_tensor(shape, data);
        let ghost mid = *self;
        let ghost n = old(self).tape.nodes@.len() as int;
        self.record(TapeNode { inputs, output: id, op });
        proof {
            if !old(self).no_grad {
                assert(self.tape.nodes@.take(n) =~= old(self).tape.nodes@);
            }
            assert(self.wf()) by {
                assert(mid.wf());
                assert forall|i: int| 0 <= i < self.tensors@.len() implies {
                    &&& (#[trigger] self.tensors@[i]).id == i
                    &&& self.tensors@[i].shape_wf()
                } by {
                    assert(mid.tensors@[i].id == i);
                }
            }
            if old(self).tape_ok() && node_ok(TapeNode { inputs, output: id, op }, self.tensors@) {
                assert forall|i: int| 0 <= i < self.tape.nodes@.len() implies node_ok(
                    #[trigger] self.tape.nodes@[i],
                    self.tensors@,
                ) by {
                    if i < n {
                        assert(old(self).tape.nodes@[i] == self.tape.nodes@[i]);
                        lemma_node_ok_pushed(
                            old(self).tape.nodes@[i],
                            old(self).tensors@,
                            self.tensors@,
                        );
                    }
                }
            }
        }
        id
    }

    /// Adds or multiplies two tensors, each repeated where its shape is smaller.
    pub fn pairwise_host(&mut self, op: Pairwise, a_id: usize, b_id: usize) -> (id: usize)
        requires
            old(self).wf(),
            old(self).device == Device::Cpu,
            pairwise_host_ok(*old(self), a_id, b_id),
        ensures
            pairwise_host_made(*old(self), *final(self), id, op, a_id, b_id),
    {
        let a_shape = self.tensors[a_id].shape.clone();
        let b_shape = self.tensors[b_id].shape.clone();
        let a_fwd = copy_of(self.tensors[a_id].data.as_cpu());
        let b_fwd = copy_of(self.tensors[b_id].data.as_cpu());
        let (out_shape, out) = pairwise_forward(op, &a_fwd, &a_shape, &b_fwd, &b_shape);
        let node = Op::Pairwise { op, a_shape, b_shape, a_fwd, b_fwd };
        let id = self.finish(out_shape, out, two(a_id, b_id), node);
        proof {
            lemma_kept(*old(self), *self, a_id);
            lemma_kept(*old(self), *self, b_id);
        }
        id
    }

    /// Applies SiLU.
    pub fn silu_host(&mut self, a_id: usize) -> (id: usize)
        requires
            old(self).wf(),
            old(self).device == Device::Cpu,
            silu_host_ok(*old(self), a_id),
        ensures
            silu_host_made(*old(self), *final(self), id, a_id),
    {
        let a_fwd = copy_of(self.tensors[a_id].data.as_cpu());
        let out = silu_forward(&a_fwd);
        let shape = self.tensors[a_id].shape.clone();
        let id = self.finish(shape, out, one(a_id), Op::Silu { a_fwd });
        proof {
            lemma_kept(*old(self), *self, a_id);
        }
        id
    }
}

/// The sizes of a product of `a_shape` and `b_shape`.
pub open spec fn matmul_sizes(a_shape: Seq<usize>, b_shape: Seq<usize>) -> (int, int, int) {
    (product(a_shape.drop_last()) as int, a_shape.last() as int, b_shape[1] as int)
}

/// The shapes can be multiplied.
pub open spec fn matmul_shapes_ok(a_shape: Seq<usize>, b_shape: Seq<usize>) -> bool {
    let (m, k, n) = matmul_sizes(a_shape, b_shape);
    &&& a_shape.len() >= 2
    &&& b_shape.len() == 2
    &&& b_shape[0] == k
    &&& shape_fits(a_shape.drop_last())
    &&& m * n <= usize::MAX
}

/// The sizes of a product of `batch` pairs of matrices.
pub open spec fn bmm_dims(a_shape: Seq<usize>, b_shape: Seq<usize>, trans_b: bool) -> BmmDims {
    BmmDims {
        batch: a_shape[0],
        m: a_shape[1],
        k: a_shape[2],
        n: if trans_b {
            b_shape[1]
        } else {
            b_shape[2]
        },
        trans_b,
    }
}

/// The shapes can be multiplied pair by pair.
pub open spec fn bmm_shapes_ok(a_shape: Seq<usize>, b_shape: Seq<usize>, trans_b: bool) -> bool {
    let d = bmm_dims(a_shape, b_shape, trans_b);
    &&& a_shape.len() >= 3
    &&& b_shape.len() >= (if trans_b {
        2int
    } else {
        3int
    })
    &&& d.fits(product(a_shape), product(b_shape))
    &&& d.m * d.n <= usize::MAX
}

/// The last dimension is there and not empty.
pub open spec fn has_rows(shape: Seq<usize>) -> bool {
    shape.len() > 0 && shape.last() > 0
}

/// The number of targets that count.
pub open spec fn valid_targets(targets: Seq<usize>) -> nat
    decreases targets.len(),
{
    if targets.len() == 0 {
        0
    } else {
        valid_targets(targets.drop_last()) + (if targets.last() != IGNORE_INDEX {
            1nat
        } else {
            0nat
        })
    }
}

/// The logits are rows of classes, and the targets name elements of them.
pub open spec fn loss_ok(shape: Seq<usize>, targets: Seq<usize>) -> bool {
    &&& shape.len() >= 2
    &&& shape[0] * shape[1] <= product(shape)
    &&& targets_ok(targets, shape[0] as int, shape[1] as int)
}

/// There are targets, and all are to be ignored.
pub open spec fn all_ignored(targets: Seq<usize>) -> bool {
    targets.len() > 0 && valid_targets(targets) == 0
}

/// No target is to be ignored.
pub open spec fn all_count(targets: Seq<usize>, n: int) -> bool {
    forall|i: int| 0 <= i < n ==> #[trigger] targets[i] != IGNORE_INDEX
}

/// The mean loss of a batch.
pub open spec fn mean_loss<T: Scalar>(logits: Seq<T>, shape: Seq<usize>, targets: Seq<usize>) -> T {
    loss_sum(
        logits,
        targets,
        shape[0] as int,
        shape[1] as int,
        None,
        shape[0] as nat,
    ).spec_over(T::spec_from_count(shape[0]))
}

/// One over the number of targets that count.
pub open spec fn normalizer<T: Scalar>(targets: Seq<usize>) -> T {
    T::spec_one().spec_over(T::spec_from_count(valid_targets(targets) as usize))
}

/// The four sizes of an exchange of the two dimensions before the last.
pub open spec fn swap_sizes(shape: Seq<usize>) -> (int, int, int, int) {
    let n = shape.len() as int;
    (
        product(shape.take(n - 3)) as int,
        shape[n - 3] as int,
        shape[n - 2] as int,
        shape[n - 1] as int,
    )
}

/// The shape with the two dimensions before the last exchanged.
pub open spec fn swap_shape(shape: Seq<usize>) -> Seq<usize> {
    let n = shape.len() as int;
    shape.take(n - 3) + seq![shape[n - 2], shape[n - 3], shape[n - 1]]
}

/// The dimensions before the last can be exchanged.
pub open spec fn swap_ok(shape: Seq<usize>) -> bool {
    &&& shape.len() >= 4
    &&& shape_fits(shape.take(shape.len() - 3))
    &&& shape_fits(swap_shape(shape))
}

/// The sizes of a rotation.
pub open spec fn rope_dims(shape: Seq<usize>, head: usize) -> RopeDims {
    RopeDims { rows: (shape[0] * shape[1]) as usize, seq: shape[1], hidden: shape[2], head }
}

/// The tensor can be rotated.
pub open spec fn rope_ok(shape: Seq<usize>, head: usize) -> bool {
    &&& shape.len() >= 3
    &&& head > 0
    &&& shape[0] * shape[1] <= usize::MAX
    &&& shape[0] * shape[1] * shape[2] <= product(shape)
}

/// The sizes of a repetition.
pub open spec fn repeat_dims(shape: Seq<usize>, repeats: usize) -> RepeatDims {
    RepeatDims { batch: shape[0], kv: shape[1], repeats, seq: shape[2], dim: shape[3] }
}

/// The shape of repeated heads.
pub open spec fn repeat_shape(shape: Seq<usize>, repeats: usize) -> Seq<usize> {
    seq![shape[0], (shape[1] * repeats) as usize, shape[2], shape[3]]
}

/// The heads can be repeated.
pub open spec fn repeat_ok(shape: Seq<usize>, repeats: usize) -> bool {
    &&& shape.len() == 4
    &&& repeat_dims(shape, repeats).fits()
    &&& shape_fits(repeat_shape(shape, repeats))
}

/// The sizes of an attention.
pub open spec fn flash_dims(q: Seq<usize>, k: Seq<usize>) -> FlashDims {
    FlashDims { batch: q[0], m: q[1], n: k[1], d: q[2] }
}

/// The shapes of queries, keys and values go together.
pub open spec fn flash_ok(q: Seq<usize>, k: Seq<usize>, v: Seq<usize>) -> bool {
    &&& q.len() == 3
    &&& k.len() == 3
    &&& v.len() == 3
    &&& k[0] == q[0]
    &&& v[0] == q[0]
    &&& k[2] == q[2]
    &&& v[1] == k[1]
    &&& v[2] == q[2]
    &&& q[2] <= 256
}

/// The operands are there for `pairwise` on the host.
pub open spec fn pairwise_host_ok<T: Scalar>(was: Graph<T>, a_id: usize, b_id: usize) -> bool {
    &&& host_ready(was, a_id)
    &&& host_ready(was, b_id)
    &&& broadcast_ok(shape_of(was, a_id), shape_of(was, b_id))
}

/// What `pairwise` does on the host: the new tensor, and what is recorded.
pub open spec fn pairwise_host_made<T: Scalar>(
    was: Graph<T>,
    now: Graph<T>,
    id: usize,
    op: Pairwise,
    a_id: usize,
    b_id: usize,
) -> bool {
    &&& host_result(
        was,
        now,
        id,
        broadcast_shape(shape_of(was, a_id), shape_of(was, b_id)),
        pairwise_out(
            op,
            data_of(was, a_id),
            shape_of(was, a_id),
            data_of(was, b_id),
            shape_of(was, b_id),
        ),
    )
    &&& recorded(
        was,
        now,
        seq![a_id, b_id],
        id,
        |o: Op<T>|
            {
                &&& o matches Op::Pairwise { op: p, a_shape, b_shape, a_fwd, b_fwd }
                &&& p == op
                &&& a_shape@ == shape_of(was, a_id)
                &&& b_shape@ == shape_of(was, b_id)
                &&& a_fwd@ == data_of(was, a_id)
                &&& b_fwd@ == data_of(was, b_id)
            },
    )
    &&& was.tape_ok() ==> now.tape_ok()
}

/// The operands are there for `silu` on the host.
pub open spec fn silu_host_ok<T: Scalar>(was: Graph<T>, a_id: usize) -> bool {
    &&& host_ready(was, a_id)
}

/// What `silu` does on the host: the new tensor, and what is recorded.
pub open spec fn silu_host_made<T: Scalar>(
    was: Graph<T>,
    now: Graph<T>,
    id: usize,
    a_id: usize,
) -> bool {
    &&& host_result(
        was,
        now,
        id,
        shape_of(was, a_id),
        silu_out(data_of(was, a_id)),
    )
    &&& recorded(
        was,
        now,
        seq![a_id],
        id,
        |o: Op<T>|
            {
                &&& o matches Op::Silu { a_fwd }
                &&& a_fwd@ == data_of(was, a_id)
            },
    )
    &&& was.tape_ok() ==> now.tape_ok()
}

/// The operands are there for `matmul` on the host.
pub open spec fn matmul_host_ok<T: Scalar>(was: Graph<T>, a_id: usize, b_id: usize) -> bool {
    &&& host_ready(was, a_id)
    &&& host_ready(was, b_id)
    &&& matmul_shapes_ok(shape_of(was, a_id), shape_of(was, b_id))
}

/// What `matmul` does on the host: the new tensor, and what is recorded.
pub open spec fn matmul_host_made<T: Scalar>(
    was: Graph<T>,
    now: Graph<T>,
    id: usize,
    a_id: usize,
    b_id: usize,
) -> bool {
    &&& ({
        let (m, k, n) = matmul_sizes(
            shape_of(was, a_id),
            shape_of(was, b_id),
        );
        &&& host_result(
            was,
            now,
            id,
            seq![m as usize, n as usize],
            matmul_out(data_of(was, a_id), data_of(was, b_id), m, k, n),
        )
        &&& recorded(
            was,
            now,
            seq![a_id, b_id],
            id,
            |o: Op<T>|
                {
                    &&& o matches Op::Matmul { a_fwd, b_fwd, m: om, k: ok, n: on }
                    &&& a_fwd@ == data_of(was, a_id)
                    &&& b_fwd@ == data_of(was, b_id)
                    &&& om == m && ok == k && on == n
                },
        )
    })
    &&& was.tape_ok() ==> now.tape_ok()
}

/// The operands are there for `bmm` on the host.
pub open spec fn bmm_host_ok<T: Scalar>(
    was: Graph<T>,
    a_id: usize,
    b_id: usize,
    trans_b: bool,
) -> bool {
    &&& host_ready(was, a_id)
    &&& host_ready(was, b_id)
    &&& bmm_shapes_ok(shape_of(was, a_id), shape_of(was, b_id), trans_b)
}

/// What `bmm` does on the host: the new tensor, and what is recorded.
pub open spec fn bmm_host_made<T: Scalar>(
    was: Graph<T>,
    now: Graph<T>,
    id: usize,
    a_id: usize,
    b_id: usize,
    trans_b: bool,
) -> bool {
    &&& ({
        let d = bmm_dims(shape_of(was, a_id), shape_of(was, b_id), trans_b);
        &&& host_result(
            was,
            now,
            id,
            seq![d.batch, d.m, d.n],
            bmm_out(data_of(was, a_id), data_of(was, b_id), d),
        )
        &&& recorded(
            was,
            now,
            seq![a_id, b_id],
            id,
            |o: Op<T>|
                {
                    &&& o matches Op::Bmm { a_fwd, b_fwd, dims }
                    &&& a_fwd@ == data_of(was, a_id)
                    &&& b_fwd@ == data_of(was, b_id)
                    &&& dims == d
                },
        )
    })
    &&& was.tape_ok() ==> now.tape_ok()
}

/// The operands are there for `sum` on the host.
pub open spec fn sum_host_ok<T: Scalar>(was: Graph<T>, a_id: usize, dim: usize) -> bool {
    &&& host_ready(was, a_id)
    &&& reduce_ok(shape_of(was, a_id), dim as int)
}

/// What `sum` does on the host: the new tensor, and what is recorded.
pub open spec fn sum_host_made<T: Scalar>(
    was: Graph<T>,
    now: Graph<T>,
    id: usize,
    a_id: usize,
    dim: usize,
) -> bool {
    &&& host_result(
        was,
        now,
        id,
        shape_of(was, a_id).remove(dim as int),
        sum_to(
            data_of(was, a_id),
            shape_of(was, a_id),
            dim as int,
            data_of(was, a_id).len(),
        ),
    )
    &&& recorded(
        was,
        now,
        seq![a_id],
        id,
        |o: Op<T>|
            {
                &&& o matches Op::Sum { shape, dim: d }
                &&& shape@ == shape_of(was, a_id)
                &&& d == dim
            },
    )
    &&& was.tape_ok() ==> now.tape_ok()
}

/// The operands are there for `max` on the host.
pub open spec fn max_host_ok<T: Scalar>(was: Graph<T>, a_id: usize, dim: usize) -> bool {
    &&& host_ready(was, a_id)
    &&& reduce_ok(shape_of(was, a_id), dim as int)
}

/// What `max` does on the host: the new tensor, and what is recorded.
pub open spec fn max_host_made<T: Scalar>(
    was: Graph<T>,
    now: Graph<T>,
    id: usize,
    a_id: usize,
    dim: usize,
) -> bool {
    &&& ({
        let m = max_to(
            data_of(was, a_id),
            shape_of(was, a_id),
            dim as int,
            data_of(was, a_id).len(),
        );
        &&& host_result(
            was,
            now,
            id,
            shape_of(was, a_id).remove(dim as int),
            m.0,
        )
        &&& recorded(
            was,
            now,
            seq![a_id],
            id,
            |o: Op<T>|
                {
                    &&& o matches Op::Max { at }
                    &&& at@ == m.1
                },
        )
    })
    &&& was.tape_ok() && (product(shape_of(was, a_id)) > 0 || product(
        shape_of(was, a_id).remove(dim as int),
    ) == 0) ==> now.tape_ok()
}

/// The operands are there for `softmax` on the host.
pub open spec fn softmax_host_ok<T: Scalar>(was: Graph<T>, a_id: usize) -> bool {
    &&& host_ready(was, a_id)
    &&& has_rows(shape_of(was, a_id))
}

/// What `softmax` does on the host: the new tensor, and what is recorded.
pub open spec fn softmax_host_made<T: Scalar>(
    was: Graph<T>,
    now: Graph<T>,
    id: usize,
    a_id: usize,
) -> bool {
    &&& ({
        let n = shape_of(was, a_id).last() as int;
        let b = data_of(was, a_id).len() as int / n;
        let out = softmax_out(data_of(was, a_id), b, n);
        &&& b * n == data_of(was, a_id).len()
        &&& host_result(was, now, id, shape_of(was, a_id), out)
        &&& recorded(
            was,
            now,
            seq![a_id],
            id,
            |o: Op<T>|
                {
                    &&& o matches Op::Softmax { out_fwd, b: ob, n: on }
                    &&& out_fwd@ == out
                    &&& ob == b && on == n
                },
        )
    })
    &&& was.tape_ok() ==> now.tape_ok()
}

/// The operands are there for `cross_entropy` on the host.
pub open spec fn cross_entropy_host_ok<T: Scalar>(
    was: Graph<T>,
    logits_id: usize,
    targets: Seq<usize>,
) -> bool {
    &&& host_ready(was, logits_id)
    &&& loss_ok(shape_of(was, logits_id), targets)
    &&& all_count(targets, shape_of(was, logits_id)[0] as int)
}

/// What `cross_entropy` does on the host: the new tensor, and what is recorded.
pub open spec fn cross_entropy_host_made<T: Scalar>(
    was: Graph<T>,
    now: Graph<T>,
    id: usize,
    logits_id: usize,
    targets: Seq<usize>,
) -> bool {
    &&& ({
        let shape = shape_of(was, logits_id);
        let logits = data_of(was, logits_id);
        &&& host_result(
            was,
            now,
            id,
            Seq::empty(),
            seq![mean_loss(logits, shape, targets)],
        )
        &&& recorded(
            was,
            now,
            seq![logits_id],
            id,
            |o: Op<T>|
                {
                    &&& o matches Op::CrossEntropy { probs, targets: ts, b, c, weight }
                    &&& probs@ == class_probs(
                        logits,
                        targets,
                        shape[0] as int,
                        shape[1] as int,
                        shape[0] as int,
                    )
                    &&& ts@ == targets
                    &&& b == shape[0] && c == shape[1]
                    &&& weight == RowWeight::Divide(T::spec_from_count(shape[0]))
                },
        )
    })
    &&& was.tape_ok() ==> now.tape_ok()
}

/// The operands are there for `cross_entropy_masked` on the host.
pub open spec fn cross_entropy_masked_host_ok<T: Scalar>(
    was: Graph<T>,
    logits_id: usize,
    targets: Seq<usize>,
) -> bool {
    all_ignored(targets) || (host_ready(was, logits_id) && loss_ok(
        shape_of(was, logits_id),
        targets,
    ))
}

/// What `cross_entropy_masked` does on the host: the new tensor, and what is recorded.
pub open spec fn cross_entropy_masked_host_made<T: Scalar>(
    was: Graph<T>,
    now: Graph<T>,
    id: usize,
    logits_id: usize,
    targets: Seq<usize>,
) -> bool {
    &&& ({
        let shape = shape_of(was, logits_id);
        let logits = data_of(was, logits_id);
        let valid = valid_targets(targets);
        let w = normalizer::<T>(targets);
        if valid == targets.len() {
            &&& host_result(
                was,
                now,
                id,
                Seq::empty(),
                seq![mean_loss(logits, shape, targets)],
            )
            &&& recorded(
                was,
                now,
                seq![logits_id],
                id,
                |o: Op<T>|
                    {
                        &&& o matches Op::CrossEntropy { probs, targets: ts, b, c, weight }
                        &&& probs@ == class_probs(
                            logits,
                            targets,
                            shape[0] as int,
                            shape[1] as int,
                            shape[0] as int,
                        )
                        &&& ts@ == targets
                        &&& b == shape[0] && c == shape[1]
                        &&& weight == RowWeight::Divide(T::spec_from_count(shape[0]))
                    },
            )
        } else if valid == 0 {
            &&& host_result(
                was,
                now,
                id,
                Seq::empty(),
                seq![T::spec_zero()],
            )
            &&& now.tape == was.tape
        } else {
            &&& host_result(
                was,
                now,
                id,
                Seq::empty(),
                seq![
                    loss_sum(
                        logits,
                        targets,
                        shape[0] as int,
                        shape[1] as int,
                        Some(w),
                        shape[0] as nat,
                    ),
                ],
            )
            &&& recorded(
                was,
                now,
                seq![logits_id],
                id,
                |o: Op<T>|
                    {
                        &&& o matches Op::CrossEntropy { probs, targets: ts, b, c, weight }
                        &&& probs@ == class_probs(
                            logits,
                            targets,
                            shape[0] as int,
                            shape[1] as int,
                            shape[0] as int,
                        )
                        &&& ts@ == targets
                        &&& b == shape[0] && c == shape[1]
                        &&& weight == RowWeight::Multiply(w)
                    },
            )
        }
    })
    &&& was.tape_ok() ==> now.tape_ok()
}

/// The operand is there for `transpose`.
pub open spec fn transpose_ok<T: Scalar>(
    was: Graph<T>,
    a_id: usize,
    dim0: usize,
    dim1: usize,
) -> bool {
    &&& host_ready(was, a_id)
    &&& dim0 < shape_of(was, a_id).len()
    &&& dim1 < shape_of(was, a_id).len()
    &&& shape_fits(swapped(shape_of(was, a_id), dim0 as int, dim1 as int))
}

/// What `transpose` does: the new tensor, and what is recorded.
pub open spec fn transpose_made<T: Scalar>(
    was: Graph<T>,
    now: Graph<T>,
    id: usize,
    a_id: usize,
    dim0: usize,
    dim1: usize,
) -> bool {
    &&& ({
        let shape = swapped(shape_of(was, a_id), dim0 as int, dim1 as int);
        let strides = swapped(was.tensors@[a_id as int].strides@, dim0 as int, dim1 as int);
        &&& host_result(was, now, id, shape, strided_out(data_of(was, a_id), shape, strides))
        &&& recorded(
            was,
            now,
            seq![a_id],
            id,
            |o: Op<T>|
                {
                    &&& o matches Op::Transpose { strides: s }
                    &&& s@ == strides
                },
        )
    })
    &&& was.tape_ok() ==> now.tape_ok()
}

/// The operands are there for `transpose_0213` on the host.
pub open spec fn transpose_0213_host_ok<T: Scalar>(was: Graph<T>, a_id: usize) -> bool {
    &&& host_ready(was, a_id)
    &&& swap_ok(shape_of(was, a_id))
}

/// What `transpose_0213` does on the host: the new tensor, and what is recorded.
pub open spec fn transpose_0213_host_made<T: Scalar>(
    was: Graph<T>,
    now: Graph<T>,
    id: usize,
    a_id: usize,
) -> bool {
    &&& ({
        let (b, s, h, d) = swap_sizes(shape_of(was, a_id));
        &&& host_result(
            was,
            now,
            id,
            swap_shape(shape_of(was, a_id)),
            transpose_0213_out(data_of(was, a_id), s, h, d),
        )
        &&& recorded(
            was,
            now,
            seq![a_id],
            id,
            |o: Op<T>|
                {
                    &&& o matches Op::Transpose0213 { b: ob, s: os, h: oh, d: od }
                    &&& ob == b && os == s && oh == h && od == d
                },
        )
    })
    &&& was.tape_ok() ==> now.tape_ok()
}

/// The operands are there for `gather` on the host.
pub open spec fn gather_host_ok<T: Scalar>(
    was: Graph<T>,
    weights_id: usize,
    indices_id: usize,
) -> bool {
    &&& host_ready(was, weights_id)
    &&& host_ready(was, indices_id)
    &&& shape_of(was, weights_id).len() >= 2
    &&& rows_ok(
        as_rows(data_of(was, indices_id)),
        shape_of(was, weights_id)[1] as int,
        data_of(was, weights_id).len(),
    )
    &&& shape_fits(
        shape_of(was, indices_id).push(shape_of(was, weights_id)[1]),
    )
}

/// What `gather` does on the host: the new tensor, and what is recorded.
pub open spec fn gather_host_made<T: Scalar>(
    was: Graph<T>,
    now: Graph<T>,
    id: usize,
    weights_id: usize,
    indices_id: usize,
) -> bool {
    &&& ({
        let hidden = shape_of(was, weights_id)[1];
        let rows = as_rows(data_of(was, indices_id));
        &&& host_result(
            was,
            now,
            id,
            shape_of(was, indices_id).push(hidden),
            gather_out(data_of(was, weights_id), rows, hidden as int),
        )
        &&& recorded(
            was,
            now,
            seq![weights_id, indices_id],
            id,
            |o: Op<T>|
                {
                    &&& o matches Op::Gather { rows: r, hidden: h }
                    &&& r@ == rows
                    &&& h == hidden
                },
        )
    })
    &&& was.tape_ok() ==> now.tape_ok()
}

/// The operands are there for `reshape` on the host.
pub open spec fn reshape_host_ok<T: Scalar>(
    was: Graph<T>,
    a_id: usize,
    new_shape: Seq<usize>,
) -> bool {
    &&& host_ready(was, a_id)
    &&& shape_fits(new_shape)
}

/// What `reshape` does on the host: the new tensor, and what is recorded.
pub open spec fn reshape_host_made<T: Scalar>(
    was: Graph<T>,
    now: Graph<T>,
    id: usize,
    a_id: usize,
    new_shape: Seq<usize>,
) -> bool {
    &&& host_result(was, now, id, new_shape, data_of(was, a_id))
    &&& recorded(was, now, seq![a_id], id, |o: Op<T>| o is Reshape)
    &&& was.tape_ok() && product(shape_of(was, a_id)) <= product(new_shape)
        ==> now.tape_ok()
}

/// The operands are there for `rope` on the host.
pub open spec fn rope_host_ok<T: Scalar>(was: Graph<T>, a_id: usize, head_dim: usize) -> bool {
    &&& host_ready(was, a_id)
    &&& rope_ok(shape_of(was, a_id), head_dim)
}

/// What `rope` does on the host: the new tensor, and what is recorded.
pub open spec fn rope_host_made<T: Scalar>(
    was: Graph<T>,
    now: Graph<T>,
    id: usize,
    a_id: usize,
    head_dim: usize,
) -> bool {
    &&& ({
        let dims = rope_dims(shape_of(was, a_id), head_dim);
        &&& host_result(
            was,
            now,
            id,
            shape_of(was, a_id),
            rope_out(data_of(was, a_id), dims),
        )
        &&& recorded(
            was,
            now,
            seq![a_id],
            id,
            |o: Op<T>|
                {
                    &&& o matches Op::Rope { dims: d }
                    &&& d == dims
                },
        )
    })
    &&& was.tape_ok() ==> now.tape_ok()
}

/// The operands are there for `repeat_kv` on the host.
pub open spec fn repeat_kv_host_ok<T: Scalar>(was: Graph<T>, x_id: usize, repeats: usize) -> bool {
    &&& host_ready(was, x_id)
    &&& shape_of(was, x_id).len() == 4
    &&& repeats != 1 ==> repeat_ok(shape_of(was, x_id), repeats)
}

/// What `repeat_kv` does on the host: the new tensor, and what is recorded.
pub open spec fn repeat_kv_host_made<T: Scalar>(
    was: Graph<T>,
    now: Graph<T>,
    id: usize,
    x_id: usize,
    repeats: usize,
) -> bool {
    &&& repeats == 1 ==> id == x_id && now == was
    &&& repeats != 1 ==> ({
        let dims = repeat_dims(shape_of(was, x_id), repeats);
        &&& host_result(
            was,
            now,
            id,
            repeat_shape(shape_of(was, x_id), repeats),
            repeat_kv_out(data_of(was, x_id), dims),
        )
        &&& recorded(
            was,
            now,
            seq![x_id],
            id,
            |o: Op<T>|
                {
                    &&& o matches Op::RepeatKv { dims: d }
                    &&& d == dims
                },
        )
    })
    &&& was.tape_ok() ==> now.tape_ok()
}

/// The operands are there for `rms_norm` on the host.
pub open spec fn rms_norm_host_ok<T: Scalar>(was: Graph<T>, x_id: usize, weight_id: usize) -> bool {
    &&& host_ready(was, x_id)
    &&& host_ready(was, weight_id)
    &&& has_rows(shape_of(was, x_id))
    &&& data_of(was, x_id).len() > 0 ==> data_of(was, weight_id).len()
        >= shape_of(was, x_id).last()
}

/// What `rms_norm` does on the host: the new tensor, and what is recorded.
pub open spec fn rms_norm_host_made<T: Scalar>(
    was: Graph<T>,
    now: Graph<T>,
    id: usize,
    x_id: usize,
    weight_id: usize,
    eps: T,
) -> bool {
    &&& ({
        let x = data_of(was, x_id);
        let w = data_of(was, weight_id);
        let dim = shape_of(was, x_id).last() as int;
        let n = x.len() as int / dim;
        let rrms = all_rrms(x, dim, eps, n);
        &&& n * dim == x.len()
        &&& host_result(
            was,
            now,
            id,
            shape_of(was, x_id),
            rms_out(x, w, dim, rrms),
        )
        &&& recorded(
            was,
            now,
            seq![x_id, weight_id],
            id,
            |o: Op<T>|
                {
                    &&& o matches Op::RmsNorm { x_fwd, w_fwd, rrms: s, n: on, dim: od }
                    &&& x_fwd@ == x
                    &&& w_fwd@ == w
                    &&& s@ == rrms
                    &&& on == n && od == dim
                },
        )
    })
    &&& was.tape_ok() ==> now.tape_ok()
}

/// The operands are there for `flash_attention` on the host.
pub open spec fn flash_attention_host_ok<T: Scalar>(
    was: Graph<T>,
    q_id: usize,
    k_id: usize,
    v_id: usize,
) -> bool {
    &&& was.no_grad
    &&& host_ready(was, q_id)
    &&& host_ready(was, k_id)
    &&& host_ready(was, v_id)
    &&& flash_ok(
        shape_of(was, q_id),
        shape_of(was, k_id),
        shape_of(was, v_id),
    )
}

/// What `flash_attention` does on the host: the new tensor, and what is recorded.
pub open spec fn flash_attention_host_made<T: Scalar>(
    was: Graph<T>,
    now: Graph<T>,
    id: usize,
    q_id: usize,
    k_id: usize,
    v_id: usize,
    scale: T,
    causal: bool,
) -> bool {
    &&& host_result(
        was,
        now,
        id,
        shape_of(was, q_id),
        flash_out(
            data_of(was, q_id),
            data_of(was, k_id),
            data_of(was, v_id),
            flash_dims(shape_of(was, q_id), shape_of(was, k_id)),
            scale,
            causal,
        ),
    )
    &&& now.tape == was.tape
}

impl<T: Scalar> Graph<T> {
    /// Multiplies the rows of a tensor with a matrix.
    pub fn matmul_host(&mut self, a_id: usize, b_id: usize) -> (id: usize)
        requires
            old(self).wf(),
            old(self).device == Device::Cpu,
            matmul_host_ok(*old(self), a_id, b_id),
        ensures
            matmul_host_made(*old(self), *final(self), id, a_id, b_id),
    {
        let rank: usize = self.tensors[a_id].shape.len();
        let k: usize = self.tensors[a_id].shape[rank - 1];
        let rows = front(&self.tensors[a_id].shape, rank - 1);
        assert(rows@ =~= shape_of(*self, a_id).drop_last());
        let m: usize = element_count(rows.as_slice());
        let n: usize = self.tensors[b_id].shape[1];
        let a_fwd = copy_of(self.tensors[a_id].data.as_cpu());
        let b_fwd = copy_of(self.tensors[b_id].data.as_cpu());
        proof {
            lemma_product_last(shape_of(*self, a_id));
            assert(shape_of(*self, b_id) =~= seq![k, n]);
            lemma_product2(k, n);
            lemma_product2(m, n);
        }
        let out = matmul_forward(&a_fwd, &b_fwd, m, k, n);
        let id = self.finish(
            two(m, n),
            out,
            two(a_id, b_id),
            Op::Matmul { a_fwd, b_fwd, m, k, n },
        );
        proof {
            lemma_kept(*old(self), *self, a_id);
            lemma_kept(*old(self), *self, b_id);
        }
        id
    }

    /// Multiplies matrices pair by pair.
    pub fn bmm_host(&mut self, a_id: usize, b_id: usize, trans_b: bool) -> (id: usize)
        requires
            old(self).wf(),
            old(self).device == Device::Cpu,
            bmm_host_ok(*old(self), a_id, b_id, trans_b),
        ensures
            bmm_host_made(*old(self), *final(self), id, a_id, b_id, trans_b),
    {
        let batch: usize = self.tensors[a_id].shape[0];
        let m: usize = self.tensors[a_id].shape[1];
        let k: usize = self.tensors[a_id].shape[2];
        let n: usize = if trans_b {
            self.tensors[b_id].shape[1]
        } else {
            self.tensors[b_id].shape[2]
        };
        let dims = BmmDims { batch, m, k, n, trans_b };
        let a_fwd = copy_of(self.tensors[a_id].data.as_cpu());
        let b_fwd = copy_of(self.tensors[b_id].data.as_cpu());
        let out = bmm_forward(&a_fwd, &b_fwd, dims);
        proof {
            lemma_product3(batch, m, n);
        }
        let id = self.finish(
            three(batch, m, n),
            out,
            two(a_id, b_id),
            Op::Bmm { a_fwd, b_fwd, dims },
        );
        proof {
            lemma_kept(*old(self), *self, a_id);
            lemma_kept(*old(self), *self, b_id);
        }
        id
    }

    /// Sums over a dimension.
    pub fn sum_host(&mut self, a_id: usize, dim: usize) -> (id: usize)
        requires
            old(self).wf(),
            old(self).device == Device::Cpu,
            sum_host_ok(*old(self), a_id, dim),
        ensures
            sum_host_made(*old(self), *final(self), id, a_id, dim),
    {
        let shape = self.tensors[a_id].shape.clone();
        let out = sum_forward(self.tensors[a_id].data.as_cpu(), &shape, dim);
        let out_shape = shape_without(&shape, dim);
        let id = self.finish(out_shape, out, one(a_id), Op::Sum { shape, dim });
        proof {
            lemma_kept(*old(self), *self, a_id);
        }
        id
    }

    /// Maxima over a dimension. The way back is there where the tensor has elements, or the result
    /// has none.
    pub fn max_host(&mut self, a_id: usize, dim: usize) -> (id: usize)
        requires
            old(self).wf(),
            old(self).device == Device::Cpu,
            max_host_ok(*old(self), a_id, dim),
        ensures
            max_host_made(*old(self), *final(self), id, a_id, dim),
    {
        let (out, at) = max_forward(
            self.tensors[a_id].data.as_cpu(),
            &self.tensors[a_id].shape,
            dim,
        );
        let out_shape = shape_without(&self.tensors[a_id].shape, dim);
        let id = self.finish(out_shape, out, one(a_id), Op::Max { at });
        proof {
            lemma_kept(*old(self), *self, a_id);
        }
        id
    }

    /// The softmax of every row.
    pub fn softmax_host(&mut self, a_id: usize) -> (id: usize)
        requires
            old(self).wf(),
            old(self).device == Device::Cpu,
            softmax_host_ok(*old(self), a_id),
        ensures
            softmax_host_made(*old(self), *final(self), id, a_id),
    {
        let shape = self.tensors[a_id].shape.clone();
        let n: usize = shape[shape.len() - 1];
        let b: usize = self.tensors[a_id].data.as_cpu().len() / n;
        proof {
            lemma_rows(shape@);
        }
        let out = softmax_forward(self.tensors[a_id].data.as_cpu(), b, n);
        let out_fwd = copy_of(&out);
        let id = self.finish(shape, out, one(a_id), Op::Softmax { out_fwd, b, n });
        proof {
            lemma_kept(*old(self), *self, a_id);
        }
        id
    }

    /// The mean of the negated logarithms of the probabilities of the targets.
    pub fn cross_entropy_host(&mut self, logits_id: usize, targets: &[usize]) -> (id: usize)
        requires
            old(self).wf(),
            old(self).device == Device::Cpu,
            cross_entropy_host_ok(*old(self), logits_id, targets@),
        ensures
            cross_entropy_host_made(*old(self), *final(self), id, logits_id, targets@),
    {
        let b: usize = self.tensors[logits_id].shape[0];
        let c: usize = self.tensors[logits_id].shape[1];
        let (loss, probs) = cross_entropy_forward(
            self.tensors[logits_id].data.as_cpu(),
            targets,
            b,
            c,
            None,
        );
        let weight = RowWeight::Divide(T::from_count(b));
        let mean: T = loss.over(T::from_count(b));
        let ts = slice_copy(targets);
        proof {
            lemma_scalar_shape();
        }
        let id = self.finish(
            Vec::new(),
            vec_of(mean),
            one(logits_id),
            Op::CrossEntropy { probs, targets: ts, b, c, weight },
        );
        proof {
            lemma_kept(*old(self), *self, logits_id);
        }
        id
    }

    /// The loss over the targets that are not to be ignored. Where all are, it is zero and nothing
    /// is recorded; where none is, it is the mean loss.
    pub fn cross_entropy_masked_host(&mut self, logits_id: usize, targets: &[usize]) -> (id: usize)
        requires
            old(self).wf(),
            old(self).device == Device::Cpu,
            cross_entropy_masked_host_ok(*old(self), logits_id, targets@),
        ensures
            cross_entropy_masked_host_made(*old(self), *final(self), id, logits_id, targets@),
    {
        let valid: usize = count_valid(targets);
        if valid == targets.len() {
            proof {
                lemma_all_valid(targets@);
            }
            return self.cross_entropy_host(logits_id, targets);
        }
        proof {
            lemma_scalar_shape();
        }
        if valid == 0 {
            let id = self.alloc_tensor(Vec::new(), vec_of(T::zero()));
            proof {
                assert forall|i: int| 0 <= i < self.tape.nodes@.len() && old(self).tape_ok() implies node_ok(
                    #[trigger] self.tape.nodes@[i],
                    self.tensors@,
                ) by {
                    assert(node_ok(old(self).tape.nodes@[i], old(self).tensors@));
                    lemma_node_ok_pushed(
                        self.tape.nodes@[i],
                        old(self).tensors@,
                        self.tensors@,
                    );
                }
            }
            return id;
        }
        let w: T = T::one().over(T::from_count(valid));
        let b: usize = self.tensors[logits_id].shape[0];
        let c: usize = self.tensors[logits_id].shape[1];
        let (loss, probs) = cross_entropy_forward(
            self.tensors[logits_id].data.as_cpu(),
            targets,
            b,
            c,
            Some(w),
        );
        let ts = slice_copy(targets);
        let id = self.finish(
            Vec::new(),
            vec_of(loss),
            one(logits_id),
            Op::CrossEntropy { probs, targets: ts, b, c, weight: RowWeight::Multiply(w) },
        );
        proof {
            lemma_kept(*old(self), *self, logits_id);
        }
        id
    }

    /// Exchanges the two dimensions before the last.
    pub fn transpose_0213_host(&mut self, a_id: usize) -> (id: usize)
        requires
            old(self).wf(),
            old(self).device == Device::Cpu,
            transpose_0213_host_ok(*old(self), a_id),
        ensures
            transpose_0213_host_made(*old(self), *final(self), id, a_id),
    {
        let rank: usize = self.tensors[a_id].shape.len();
        let s: usize = self.tensors[a_id].shape[rank - 3];
        let h: usize = self.tensors[a_id].shape[rank - 2];
        let d: usize = self.tensors[a_id].shape[rank - 1];
        let mut out_shape = front(&self.tensors[a_id].shape, rank - 3);
        let b: usize = element_count(out_shape.as_slice());
        let ghost lead = out_shape@;
        out_shape.push(h);
        out_shape.push(s);
        out_shape.push(d);
        proof {
            assert(out_shape@ =~= swap_shape(shape_of(*self, a_id)));
            lemma_product_three(lead, s, h, d);
            lemma_product_three(lead, h, s, d);
            assert(shape_of(*self, a_id) =~= lead + seq![s, h, d]);
            assert(b * s * h == b * h * s) by (nonlinear_arith);
        }
        let out = transpose_0213_forward(self.tensors[a_id].data.as_cpu(), b, s, h, d);
        let id = self.finish(out_shape, out, one(a_id), Op::Transpose0213 { b, s, h, d });
        proof {
            lemma_kept(*old(self), *self, a_id);
        }
        id
    }

    /// Gathers the rows of a matrix that the elements of a tensor name.
    pub fn gather_host(&mut self, weights_id: usize, indices_id: usize) -> (id: usize)
        requires
            old(self).wf(),
            old(self).device == Device::Cpu,
            gather_host_ok(*old(self), weights_id, indices_id),
        ensures
            gather_host_made(*old(self), *final(self), id, weights_id, indices_id),
    {
        let hidden: usize = self.tensors[weights_id].shape[1];
        let rows = rows_of(self.tensors[indices_id].data.as_cpu());
        let mut out_shape = self.tensors[indices_id].shape.clone();
        let ghost lead = out_shape@;
        out_shape.push(hidden);
        proof {
            lemma_product_last(out_shape@);
            assert(out_shape@.drop_last() =~= lead);
            crate::tensor::lemma_product_end(out_shape@);
            assert(out_shape@.skip(0) =~= out_shape@);
            assert(product(out_shape@.skip(0)) <= usize::MAX);
        }
        let out = gather_forward(self.tensors[weights_id].data.as_cpu(), &rows, hidden);
        let id = self.finish(
            out_shape,
            out,
            two(weights_id, indices_id),
            Op::Gather { rows, hidden },
        );
        proof {
            lemma_kept(*old(self), *self, weights_id);
        }
        id
    }

    /// Copies a tensor into another shape. The elements are taken as they are; the way back is
    /// there where the shape has at least as many.
    pub fn reshape_host(&mut self, a_id: usize, new_shape: Vec<usize>) -> (id: usize)
        requires
            old(self).wf(),
            old(self).device == Device::Cpu,
            reshape_host_ok(*old(self), a_id, new_shape@),
        ensures
            reshape_host_made(*old(self), *final(self), id, a_id, new_shape@),
    {
        let out = copy_of(self.tensors[a_id].data.as_cpu());
        let id = self.finish(new_shape, out, one(a_id), Op::Reshape);
        proof {
            lemma_kept(*old(self), *self, a_id);
        }
        id
    }

    /// Exchanges two dimensions.
    pub fn transpose(&mut self, a_id: usize, dim0: usize, dim1: usize) -> (id: usize)
        requires
            old(self).wf(),
            old(self).device == Device::Cpu,
            transpose_ok(*old(self), a_id, dim0, dim1),
        ensures
            transpose_made(*old(self), *final(self), id, a_id, dim0, dim1),
    {
        let out_shape = with_swapped(&self.tensors[a_id].shape, dim0, dim1);
        let strides = with_swapped(&self.tensors[a_id].strides, dim0, dim1);
        let ghost shape = out_shape@;
        proof {
            swapped_view_in_range(
                shape_of(*self, a_id),
                self.tensors@[a_id as int].strides@,
                out_shape@,
                strides@,
                dim0 as int,
                dim1 as int,
            );
            let n = data_of(*self, a_id).len();
            assert forall|i: int| 0 <= i < n implies #[trigger] crate::graph::ops::transform::strided_index(
                shape,
                strides@,
                i,
            ) < n by {
                assert(crate::tensor::ravel(crate::tensor::unravel(i, shape), strides@) < n);
            }
        }
        let out = strided_forward(self.tensors[a_id].data.as_cpu(), &out_shape, &strides);
        let id = self.finish(out_shape, out, one(a_id), Op::Transpose { strides });
        proof {
            lemma_kept(*old(self), *self, a_id);
        }
        id
    }

    /// Turns the pairs of elements of every head by the angles of their positions.
    pub fn rope_host(&mut self, a_id: usize, head_dim: usize) -> (id: usize)
        requires
            old(self).wf(),
            old(self).device == Device::Cpu,
            rope_host_ok(*old(self), a_id, head_dim),
        ensures
            rope_host_made(*old(self), *final(self), id, a_id, head_dim),
    {
        let shape = self.tensors[a_id].shape.clone();
        let dims = RopeDims {
            rows: shape[0] * shape[1],
            seq: shape[1],
            hidden: shape[2],
            head: head_dim,
        };
        proof {
            let (x, y) = (shape@[0] as int, shape@[1] as int);
            if y == 0 {
                assert(x * 0 == 0) by (nonlinear_arith);
            }
        }
        let out = rope_forward(self.tensors[a_id].data.as_cpu(), dims);
        let id = self.finish(shape, out, one(a_id), Op::Rope { dims });
        proof {
            lemma_kept(*old(self), *self, a_id);
        }
        id
    }

    /// Repeats heads. With one repetition the tensor itself is the result.
    pub fn repeat_kv_host(&mut self, x_id: usize, repeats: usize) -> (id: usize)
        requires
            old(self).wf(),
            old(self).device == Device::Cpu,
            repeat_kv_host_ok(*old(self), x_id, repeats),
        ensures
            repeat_kv_host_made(*old(self), *final(self), id, x_id, repeats),
    {
        if repeats == 1 {
            return x_id;
        }
        let batch: usize = self.tensors[x_id].shape[0];
        let kv: usize = self.tensors[x_id].shape[1];
        let seq: usize = self.tensors[x_id].shape[2];
        let dim: usize = self.tensors[x_id].shape[3];
        let dims = RepeatDims { batch, kv, repeats, seq, dim };
        proof {
            assert(shape_of(*self, x_id) =~= seq![batch, kv, seq, dim]);
            lemma_product4(batch, kv, seq, dim);
            lemma_product4(batch, (kv * repeats) as usize, seq, dim);
        }
        let out = repeat_kv_forward(self.tensors[x_id].data.as_cpu(), dims);
        let id = self.finish(
            four(batch, kv * repeats, seq, dim),
            out,
            one(x_id),
            Op::RepeatKv { dims },
        );
        proof {
            lemma_kept(*old(self), *self, x_id);
        }
        id
    }

    /// Normalises every row by its root mean square.
    pub fn rms_norm_host(&mut self, x_id: usize, weight_id: usize, eps: T) -> (id: usize)
        requires
            old(self).wf(),
            old(self).device == Device::Cpu,
            rms_norm_host_ok(*old(self), x_id, weight_id),
        ensures
            rms_norm_host_made(*old(self), *final(self), id, x_id, weight_id, eps),
    {
        let shape = self.tensors[x_id].shape.clone();
        let dim: usize = shape[shape.len() - 1];
        let x_fwd = copy_of(self.tensors[x_id].data.as_cpu());
        let w_fwd = copy_of(self.tensors[weight_id].data.as_cpu());
        let n: usize = x_fwd.len() / dim;
        proof {
            lemma_rows(shape@);
        }
        let (out, rrms) = rms_forward(&x_fwd, &w_fwd, n, dim, eps);
        let id = self.finish(
            shape,
            out,
            two(x_id, weight_id),
            Op::RmsNorm { x_fwd, w_fwd, rrms, n, dim },
        );
        proof {
            lemma_kept(*old(self), *self, x_id);
            lemma_kept(*old(self), *self, weight_id);
        }
        id
    }

    /// Attention in one pass, without a way back.
    pub fn flash_attention_host(
        &mut self,
        q_id: usize,
        k_id: usize,
        v_id: usize,
        scale: T,
        causal: bool,
    ) -> (id: usize)
        requires
            old(self).wf(),
            old(self).device == Device::Cpu,
            flash_attention_host_ok(*old(self), q_id, k_id, v_id),
        ensures
            flash_attention_host_made(
                *old(self),
                *final(self),
                id,
                q_id,
                k_id,
                v_id,
                scale,
                causal,
            ),
    {
        let batch: usize = self.tensors[q_id].shape[0];
        let m: usize = self.tensors[q_id].shape[1];
        let d: usize = self.tensors[q_id].shape[2];
        let n: usize = self.tensors[k_id].shape[1];
        let dims = FlashDims { batch, m, n, d };
        proof {
            assert(shape_of(*self, q_id) =~= seq![batch, m, d]);
            assert(shape_of(*self, k_id) =~= seq![batch, n, d]);
            assert(shape_of(*self, v_id) =~= seq![batch, n, d]);
            lemma_product3(batch, m, d);
            lemma_product3(batch, n, d);
            lemma_counted(shape_of(*self, q_id));
            lemma_counted(shape_of(*self, k_id));
        }
        let out = flash_forward(
            self.tensors[q_id].data.as_cpu(),
            self.tensors[k_id].data.as_cpu(),
            self.tensors[v_id].data.as_cpu(),
            dims,
            scale,
            causal,
        );
        let out_shape = three(batch, m, d);
        let id = self.alloc_tensor(out_shape, out);
        id
    }
}

/// A shape that can be counted has elements that can be counted.
proof fn lemma_counted(s: Seq<usize>)
    requires
        shape_fits(s),
    ensures
        product(s) <= usize::MAX,
{
    assert(s.skip(0) =~= s);
    assert(product(s.skip(0)) <= usize::MAX);
}

/// The rows of a tensor fill it.
proof fn lemma_rows(s: Seq<usize>)
    requires
        has_rows(s),
    ensures
        (product(s) as int / s.last() as int) * s.last() == product(s),
{
    lemma_product_last(s);
    let (p, n) = (product(s.drop_last()) as int, s.last() as int);
    vstd::arithmetic::div_mod::lemma_div_multiples_vanish(p, n);
    assert(n * p == p * n) by (nonlinear_arith);
}

/// A tensor without dimensions has one element.
proof fn lemma_scalar_shape()
    ensures
        product(Seq::<usize>::empty()) == 1,
        shape_fits(Seq::<usize>::empty()),
{
    let s = Seq::<usize>::empty();
    assert forall|i: int| 0 <= i <= s.len() implies product(#[trigger] s.skip(i)) <= usize::MAX by {
        assert(s.skip(i) =~= s);
    }
}

/// The elements of a shape whose last three dimensions are known.
proof fn lemma_product_three(lead: Seq<usize>, x: usize, y: usize, z: usize)
    ensures
        product(lead + seq![x, y, z]) == product(lead) * x * y * z,
{
    let s = lead + seq![x, y, z];
    lemma_product_last(s);
    let s2 = s.drop_last();
    lemma_product_last(s2);
    let s1 = s2.drop_last();
    lemma_product_last(s1);
    assert(s1.drop_last() =~= lead);
}

fn vec_of<T: Scalar>(x: T) -> (r: Vec<T>)
    ensures
        r@ == seq![x],
{
    let mut r: Vec<T> = Vec::new();
    r.push(x);
    assert(r@ =~= seq![x]);
    r
}

fn slice_copy(s: &[usize]) -> (r: Vec<usize>)
    ensures
        r@ == s@,
{
    let mut r: Vec<usize> = Vec::new();
    let mut i: usize = 0;
    while i < s.len()
        invariant
            i <= s@.len(),
            r@ == s@.take(i as int),
        decreases s@.len() - i,
    {
        assert(s@.take(i + 1) =~= s@.take(i as int).push(s@[i as int]));
        r.push(s[i]);
        i += 1;
    }
    assert(s@.take(s@.len() as int) =~= s@);
    r
}

/// Counts the targets that are not to be ignored.
pub fn count_valid(targets: &[usize]) -> (r: usize)
    ensures
        r == valid_targets(targets@),
        r <= targets@.len(),
{
    let mut r: usize = 0;
    let mut i: usize = 0;
    assert(targets@.take(0) =~= Seq::empty());
    while i < targets.len()
        invariant
            i <= targets@.len(),
            r == valid_targets(targets@.take(i as int)),
            r <= i,
        decreases targets@.len() - i,
    {
        assert(targets@.take(i + 1).drop_last() =~= targets@.take(i as int));
        assert(targets@.take(i + 1).last() == targets@[i as int]);
        if targets[i] != IGNORE_INDEX {
            r += 1;
        }
        i += 1;
    }
    assert(targets@.take(targets@.len() as int) =~= targets@);
    r
}

proof fn lemma_valid_bound(targets: Seq<usize>)
    ensures
        valid_targets(targets) <= targets.len(),
    decreases targets.len(),
{
    if targets.len() > 0 {
        lemma_valid_bound(targets.drop_last());
    }
}

/// Where as many targets count as there are, none is to be ignored.
proof fn lemma_all_valid(targets: Seq<usize>)
    requires
        valid_targets(targets) == targets.len(),
    ensures
        all_count(targets, targets.len() as int),
    decreases targets.len(),
{
    if targets.len() > 0 {
        lemma_valid_bound(targets.drop_last());
        lemma_all_valid(targets.drop_last());
        assert forall|i: int| 0 <= i < targets.len() implies #[trigger] targets[i] != IGNORE_INDEX by {
            if i < targets.len() - 1 {
                assert(targets.drop_last()[i] == targets[i]);
            }
        }
    }
}

/// A tensor that was there is there unchanged.
pub proof fn lemma_kept<T: Scalar>(x: Graph<T>, y: Graph<T>, id: usize)
    requires
        id < x.tensors@.len(),
        x.tensors@.len() <= y.tensors@.len(),
        y.tensors@.take(x.tensors@.len() as int) == x.tensors@,
    ensures
        y.tensors@[id as int] == x.tensors@[id as int],
{
    assert(y.tensors@.take(x.tensors@.len() as int)[id as int] == y.tensors@[id as int]);
}

fn one(a: usize) -> (r: Vec<usize>)
    ensures
        r@ == seq![a],
{
    let mut r: Vec<usize> = Vec::new();
    r.push(a);
    assert(r@ =~= seq![a]);
    r
}

fn two(a: usize, b: usize) -> (r: Vec<usize>)
    ensures
        r@ == seq![a, b],
{
    let mut r = one(a);
    r.push(b);
    assert(r@ =~= seq![a, b]);
    r
}

fn three(a: usize, b: usize, c: usize) -> (r: Vec<usize>)
    ensures
        r@ == seq![a, b, c],
{
    let mut r = two(a, b);
    r.push(c);
    assert(r@ =~= seq![a, b, c]);
    r
}

fn four(a: usize, b: usize, c: usize, d: usize) -> (r: Vec<usize>)
    ensures
        r@ == seq![a, b, c, d],
{
    let mut r = three(a, b, c);
    r.push(d);
    assert(r@ =~= seq![a, b, c, d]);
    r
}

/// The first `n` dimensions of a shape.
fn front(shape: &Vec<usize>, n: usize) -> (r: Vec<usize>)
    requires
        n <= shape@.len(),
    ensures
        r@ == shape@.take(n as int),
{
    let mut r: Vec<usize> = Vec::new();
    let mut i: usize = 0;
    while i < n
        invariant
            i <= n,
            n <= shape@.len(),
            r@ == shape@.take(i as int),
        decreases n - i,
    {
        assert(shape@.take(i + 1) =~= shape@.take(i as int).push(shape@[i as int]));
        r.push(shape[i]);
        i += 1;
    }
    r
}

} // verus!
