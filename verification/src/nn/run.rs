//! Programs carried out on the host.
use crate::graph::checks::can_be_counted;
use crate::graph::host::{
    bmm_host_made, bmm_host_ok, flash_attention_host_made, flash_attention_host_ok,
    gather_host_made, gather_host_ok, matmul_host_made, matmul_host_ok, pairwise_host_made,
    pairwise_host_ok, repeat_kv_host_made, repeat_kv_host_ok, reshape_host_made, reshape_host_ok,
    rms_norm_host_made, rms_norm_host_ok, rope_host_made, rope_host_ok, shape_of, silu_host_made,
    silu_host_ok, softmax_host_made, softmax_host_ok, transpose_0213_host_made,
    transpose_0213_host_ok,
};
use crate::graph::ops::elementwise::Pairwise;
use crate::graph::{host_tensor, only_tensors, same_but_shape, zeros, Graph};
use crate::nn::program::{
    init_values, initial_values, mask_of, mask_values, Call, Dims, Program, Tag,
};
use crate::scalar::Scalar;
use crate::tensor::{element_count, filled, product, shape_fits, strides_of, Device};
use vstd::prelude::*;

verus! {

/// A new tensor on the host holds these elements.
pub open spec fn tensor_made<T: Scalar>(
    was: Graph<T>,
    now: Graph<T>,
    shape: Seq<usize>,
    values: Seq<T>,
) -> bool {
    let id = was.tensors@.len();
    &&& now.tensors@.len() == id + 1
    &&& now.tensors@.take(id as int) == was.tensors@
    &&& host_tensor(now.tensors@[id as int], id as int, shape, values)
    &&& only_tensors(now, was)
    &&& now.wf()
}

/// A new tensor on the host holds one number everywhere, and may have a name.
pub open spec fn constant_made<T: Scalar>(
    was: Graph<T>,
    now: Graph<T>,
    shape: Seq<usize>,
    value: T,
    tag: Tag,
    pooled: bool,
) -> bool {
    let id = was.tensors@.len() as int;
    let t = now.tensors@[id];
    &&& now.tensors@.len() == id + 1
    &&& now.tensors@.take(id) == was.tensors@
    &&& t.id == id
    &&& t.shape@ == shape
    &&& t.strides@ == strides_of(shape)
    &&& t.data is Cpu
    &&& t.data.values() == Seq::new(product(shape), |i: int| value)
    &&& t.grad is Cpu
    &&& t.grad.values() == zeros::<T>(product(shape))
    &&& t.is_pooled == pooled
    &&& match tag.words() {
        None => t.name is None,
        Some(w) => t.name matches Some(s) && s@ == w,
    }
    &&& only_tensors(now, was)
    &&& now.wf()
}

/// The shape of a mask.
pub open spec fn mask_shape(seq: usize) -> Seq<usize> {
    seq![1, seq, seq]
}

/// A call can be carried out on the host.
pub open spec fn call_ok<T: Scalar>(g: Graph<T>, c: Call<T>) -> bool {
    match c {
        Call::Param { dims, init, half } => !half && shape_fits(dims.shape()),
        Call::Constant { dims, value, tag, pooled } => shape_fits(dims.shape()) && (pooled ==> !g.mixed()
            && g.vram_pool.entries@.len() == 0),
        Call::Mask { seq, half } => !half && shape_fits(mask_shape(seq)) && seq * seq <= usize::MAX,
        Call::Gather { w, x } => gather_host_ok(g, w, x),
        Call::Matmul { a, b } => matmul_host_ok(g, a, b),
        Call::MatmulBf16 { a, b } => matmul_host_ok(g, a, b),
        Call::Add { a, b } => pairwise_host_ok(g, a, b),
        Call::Mul { a, b } => pairwise_host_ok(g, a, b),
        Call::Silu { a } => silu_host_ok(g, a),
        Call::RmsNorm { x, w, eps } => rms_norm_host_ok(g, x, w),
        Call::Bmm { a, b, trans_b } => bmm_host_ok(g, a, b, trans_b),
        Call::Softmax { a } => softmax_host_ok(g, a),
        Call::Rope { a, head_dim } => rope_host_ok(g, a, head_dim),
        Call::Reshape { a, dims } => reshape_host_ok(g, a, dims.shape()),
        Call::Transpose0213 { a } => transpose_0213_host_ok(g, a),
        Call::RepeatKv { x, repeats } => repeats != 1 && repeat_kv_host_ok(g, x, repeats),
        Call::FlashAttention { q, k, v, scale, causal } => flash_attention_host_ok(g, q, k, v),
        Call::Reinterpret { id, dims } => id < g.tensors@.len() && shape_fits(dims.shape())
            && product(shape_of(g, id)) == product(dims.shape()),
        Call::Demote(id) => id < g.tensors@.len() && !g.tensors@[id as int].data.on_device(),
    }
}

/// A tensor has another shape; nothing else differs.
pub open spec fn reshaped_in_place<T: Scalar>(
    was: Graph<T>,
    now: Graph<T>,
    id: usize,
    shape: Seq<usize>,
) -> bool {
    &&& only_tensors(now, was)
    &&& now.tensors@.len() == was.tensors@.len()
    &&& forall|i: int|
        0 <= i < was.tensors@.len() && i != id ==> #[trigger] now.tensors@[i] == was.tensors@[i]
    &&& same_but_shape(now.tensors@[id as int], was.tensors@[id as int])
    &&& now.tensors@[id as int].shape@ == shape
    &&& now.tensors@[id as int].strides@ == strides_of(shape)
    &&& now.wf()
}

/// What a call does on the host.
pub open spec fn call_done<T: Scalar>(was: Graph<T>, now: Graph<T>, c: Call<T>) -> bool {
    let id = was.tensors@.len() as usize;
    match c {
        Call::Param { dims, init, half } => tensor_made(
            was,
            now,
            dims.shape(),
            init_values::<T>(init, product(dims.shape())),
        ),
        Call::Constant { dims, value, tag, pooled } => constant_made(
            was,
            now,
            dims.shape(),
            value,
            tag,
            pooled,
        ),
        Call::Mask { seq, half } => tensor_made(was, now, mask_shape(seq), mask_values::<T>(seq)),
        Call::Gather { w, x } => gather_host_made(was, now, id, w, x),
        Call::Matmul { a, b } => matmul_host_made(was, now, id, a, b),
        Call::MatmulBf16 { a, b } => matmul_host_made(was, now, id, a, b),
        Call::Add { a, b } => pairwise_host_made(was, now, id, Pairwise::Add, a, b),
        Call::Mul { a, b } => pairwise_host_made(was, now, id, Pairwise::Mul, a, b),
        Call::Silu { a } => silu_host_made(was, now, id, a),
        Call::RmsNorm { x, w, eps } => rms_norm_host_made(was, now, id, x, w, eps),
        Call::Bmm { a, b, trans_b } => bmm_host_made(was, now, id, a, b, trans_b),
        Call::Softmax { a } => softmax_host_made(was, now, id, a),
        Call::Rope { a, head_dim } => rope_host_made(was, now, id, a, head_dim),
        Call::Reshape { a, dims } => reshape_host_made(was, now, id, a, dims.shape()),
        Call::Transpose0213 { a } => transpose_0213_host_made(was, now, id, a),
        Call::RepeatKv { x, repeats } => repeat_kv_host_made(was, now, id, x, repeats),
        Call::FlashAttention { q, k, v, scale, causal } => flash_attention_host_made(
            was,
            now,
            id,
            q,
            k,
            v,
            scale,
            causal,
        ),
        Call::Reinterpret { id, dims } => reshaped_in_place(was, now, id, dims.shape()),
        Call::Demote(_) => now == was,
    }
}

/// States of a graph from call to call.
pub open spec fn carried_out<T: Scalar>(
    states: Seq<Graph<T>>,
    calls: Seq<Call<T>>,
    n: nat,
) -> bool {
    &&& states.len() == n + 1
    &&& n <= calls.len()
    &&& forall|k: int|
        0 <= k < n ==> call_ok(#[trigger] states[k], calls[k]) && call_done(
            states[k],
            states[k + 1],
            calls[k],
        )
}

impl<T: Scalar> Graph<T> {
    fn make_constant(&mut self, dims: Dims, value: T, tag: Tag, pooled: bool)
        requires
            old(self).wf(),
            old(self).device == Device::Cpu,
            shape_fits(dims.shape()),
            pooled ==> !old(self).mixed() && old(self).vram_pool.entries@.len() == 0,
        ensures
            constant_made(*old(self), *final(self), dims.shape(), value, tag, pooled),
    {
        let shape = dims.to_vec();
        let n: usize = element_count(shape.as_slice());
        let values = filled(value, n);
        let id: usize = if pooled {
            self.alloc_pooled_with_data(shape, &values)
        } else {
            self.alloc_tensor(shape, values)
        };
        let ghost mid = *self;
        assert(mid.tensors@.take(id as int) == old(self).tensors@);
        match tag.text() {
            None => {},
            Some(name) => {
                self.name_tensor(id, name);
                proof {
                    assert(self.tensors@.take(id as int) =~= mid.tensors@.take(id as int));
                }
            },
        }
    }

    /// Carries a call out, where it can be.
    pub fn run_call(&mut self, c: Call<T>) -> (r: bool)
        requires
            old(self).wf(),
            old(self).device == Device::Cpu,
        ensures
            r == call_ok(*old(self), c),
            r ==> call_done(*old(self), *final(self), c),
            !r ==> *final(self) == *old(self),
            final(self).wf(),
            final(self).device == Device::Cpu,
    {
        match c {
            Call::Param { dims, init, half } => {
                let shape = dims.to_vec();
                if half || !can_be_counted(shape.as_slice()) {
                    return false;
                }
                let values = initial_values::<T>(init, element_count(shape.as_slice()));
                let _ = self.alloc_tensor(shape, values);
            },
            Call::Constant { dims, value, tag, pooled } => {
                let shape = dims.to_vec();
                if !can_be_counted(shape.as_slice()) || (pooled
                    && (self.uses_bf16_mixed_precision() || self.vram_pool.entries.len() > 0)) {
                    return false;
                }
                self.make_constant(dims, value, tag, pooled);
            },
            Call::Mask { seq, half } => {
                let shape = Dims::Three(1, seq, seq).to_vec();
                if half || !can_be_counted(shape.as_slice()) || seq.checked_mul(seq).is_none() {
                    return false;
                }
                let _ = self.alloc_tensor(shape, mask_of::<T>(seq));
            },
            Call::Gather { w, x } => {
                if !self.can_gather(w, x) {
                    return false;
                }
                let _ = self.gather_host(w, x);
            },
            Call::Matmul { a, b } => {
                if !self.can_matmul(a, b) {
                    return false;
                }
                let _ = self.matmul_host(a, b);
            },
            Call::MatmulBf16 { a, b } => {
                if !self.can_matmul(a, b) {
                    return false;
                }
                let _ = self.matmul_host(a, b);
            },
            Call::Add { a, b } => {
                if !self.can_add(a, b) {
                    return false;
                }
                let _ = self.pairwise_host(Pairwise::Add, a, b);
            },
            Call::Mul { a, b } => {
                if !self.can_mul(a, b) {
                    return false;
                }
                let _ = self.pairwise_host(Pairwise::Mul, a, b);
            },
            Call::Silu { a } => {
                if !self.can_silu(a) {
                    return false;
                }
                let _ = self.silu_host(a);
            },
            Call::RmsNorm { x, w, eps } => {
                if !self.can_rms_norm(x, w) {
                    return false;
                }
                let _ = self.rms_norm_host(x, w, eps);
            },
            Call::Bmm { a, b, trans_b } => {
                if !self.can_bmm(a, b, trans_b) {
                    return false;
                }
                let _ = self.bmm_host(a, b, trans_b);
            },
            Call::Softmax { a } => {
                if !self.can_softmax(a) {
                    return false;
                }
                let _ = self.softmax_host(a);
            },
            Call::Rope { a, head_dim } => {
                if !self.can_rope(a, head_dim) {
                    return false;
                }
                let _ = self.rope_host(a, head_dim);
            },
            Call::Reshape { a, dims } => {
                let shape = dims.to_vec();
                if !self.can_reshape(a, &shape) {
                    return false;
                }
                let _ = self.reshape_host(a, shape);
            },
            Call::Transpose0213 { a } => {
                if !self.can_transpose_0213(a) {
                    return false;
                }
                let _ = self.transpose_0213_host(a);
            },
            Call::RepeatKv { x, repeats } => {
                if repeats == 1 || !self.can_repeat_kv(x, repeats) {
                    return false;
                }
                let _ = self.repeat_kv_host(x, repeats);
            },
            Call::FlashAttention { q, k, v, scale, causal } => {
                if !self.can_flash_attention(q, k, v) {
                    return false;
                }
                let _ = self.flash_attention_host(q, k, v, scale, causal);
            },
            Call::Reinterpret { id, dims } => {
                let shape = dims.to_vec();
                if !self.can_reinterpret(id, &shape) {
                    return false;
                }
                self.reinterpret_shape(id, shape);
            },
            Call::Demote(id) => {
                if id >= self.tensors.len() || !self.tensors[id].data.is_cpu() {
                    return false;
                }
            },
        }
        true
    }

    /// Carries calls out one after the other, up to the first that cannot be. Says how many were.
    pub fn run(&mut self, p: &Program<T>) -> (r: usize)
        requires
            old(self).wf(),
            old(self).device == Device::Cpu,
        ensures
            r <= p.calls@.len(),
            exists|states: Seq<Graph<T>>|
                #[trigger] carried_out(states, p.calls@, r as nat) && states[0] == *old(self)
                    && states[r as int] == *final(self),
            r < p.calls@.len() ==> !call_ok(*final(self), p.calls@[r as int]),
            final(self).wf(),
    {
        let ghost mut states: Seq<Graph<T>> = seq![*self];
        let mut i: usize = 0;
        while i < p.calls.len()
            invariant
                i <= p.calls@.len(),
                self.wf(),
                self.device == Device::Cpu,
                carried_out(states, p.calls@, i as nat),
                states[0] == *old(self),
                states[i as int] == *self,
            decreases p.calls@.len() - i,
        {
            let ghost before = *self;
            let c = p.calls[i];
            if !self.run_call(c) {
                return i;
            }
            proof {
                let next = states.push(*self);
                assert forall|k: int| 0 <= k < i + 1 implies call_ok(
                    #[trigger] next[k],
                    p.calls@[k],
                ) && call_done(next[k], next[k + 1], p.calls@[k]) by {
                    if k < i {
                        assert(next[k] == states[k]);
                        assert(next[k + 1] == states[k + 1]);
                    }
                }
                states = next;
            }
            i += 1;
        }
        i
    }
}

} // verus!
