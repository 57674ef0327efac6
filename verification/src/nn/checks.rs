//! Whether parameters are there for layers and for the optimizer.
use crate::graph::checks::can_be_counted;
use crate::graph::Graph;
use crate::nn::attention::{Attention, GroupedQueryAttention, MultiHeadAttention};
use crate::nn::embedding::Embedding;
use crate::nn::linear::Linear;
use crate::nn::optim::{
    all_trainable, fetched_ok, grads_ready, means_fit, trainable, AdamW,
};
use crate::nn::transformer::{TransformerBlock, TransformerLM};
use crate::scalar::Scalar;
use crate::tensor::{element_count, product, shape_fits, Storage, Tensor};
use std::collections::HashMap;
use vstd::prelude::*;

verus! {

broadcast use vstd::std_specs::hash::group_hash_axioms;

/// Whether a tensor is there and has two dimensions.
pub open spec fn is_matrix<T: Scalar>(g: Graph<T>, id: usize) -> bool {
    id < g.tensors@.len() && g.tensors@[id as int].shape@.len() == 2
}

fn matrix_there<T: Scalar>(g: &Graph<T>, id: usize) -> (r: bool)
    ensures
        r == is_matrix(*g, id),
{
    id < g.tensors.len() && g.tensors[id].shape.len() == 2
}

impl Linear {
    /// Whether the weights are there.
    pub fn is_ready<T: Scalar>(&self, g: &Graph<T>) -> (r: bool)
        ensures
            r == self.ready(*g),
    {
        matrix_there(g, self.weight_id)
    }
}

impl Embedding {
    /// Whether the rows are there.
    pub fn is_ready<T: Scalar>(&self, g: &Graph<T>) -> (r: bool)
        ensures
            r == self.ready(*g),
    {
        matrix_there(g, self.weight_id)
    }
}

impl Attention {
    /// Whether the weights are there.
    pub fn is_ready<T: Scalar>(&self, g: &Graph<T>) -> (r: bool)
        ensures
            r == self.ready(*g),
    {
        self.q_proj.is_ready(g) && self.k_proj.is_ready(g) && self.v_proj.is_ready(g)
            && self.out_proj.is_ready(g)
    }
}

impl MultiHeadAttention {
    /// Whether the weights are there.
    pub fn is_ready<T: Scalar>(&self, g: &Graph<T>) -> (r: bool)
        ensures
            r == self.ready(*g),
    {
        self.q_proj.is_ready(g) && self.k_proj.is_ready(g) && self.v_proj.is_ready(g)
            && self.out_proj.is_ready(g)
    }
}

impl GroupedQueryAttention {
    /// Whether the weights are there.
    pub fn is_ready<T: Scalar>(&self, g: &Graph<T>) -> (r: bool)
        ensures
            r == self.ready(*g),
    {
        self.q_proj.is_ready(g) && self.k_proj.is_ready(g) && self.v_proj.is_ready(g)
            && self.out_proj.is_ready(g)
    }
}

impl<T: Scalar> TransformerBlock<T> {
    /// Whether the weights are there.
    pub fn is_ready(&self, g: &Graph<T>) -> (r: bool)
        ensures
            r == self.ready(*g),
    {
        self.attn.is_ready(g) && self.ffn1.is_ready(g) && self.ffn2.is_ready(g)
    }
}

impl<T: Scalar> TransformerLM<T> {
    /// Whether the weights of all layers are there.
    pub fn is_ready(&self, g: &Graph<T>) -> (r: bool)
        ensures
            r == self.ready(*g),
    {
        let mut i: usize = 0;
        while i < self.blocks.len()
            invariant
                i <= self.blocks@.len(),
                forall|j: int| 0 <= j < i ==> (#[trigger] self.blocks@[j]).ready(*g),
            decreases self.blocks@.len() - i,
        {
            if !self.blocks[i].is_ready(g) {
                return false;
            }
            i += 1;
        }
        self.token_emb.is_ready(g) && self.lm_head.is_ready(g)
    }
}

/// The gradient of a parameter can be changed, where it is.
spec fn grad_ready<T: Scalar>(ts: Seq<Tensor<T>>, p: usize) -> bool {
    &&& p < ts.len()
    &&& ts[p as int].grad is Cpu || ts[p as int].grad is Gpu
    &&& shape_fits(ts[p as int].shape@)
}

fn grad_is_ready<T: Scalar>(g: &Graph<T>, p: usize) -> (r: bool)
    ensures
        r == grad_ready(g.tensors@, p),
{
    if p >= g.tensors.len() {
        return false;
    }
    let there: bool = match &g.tensors[p].grad {
        Storage::Cpu(_) => true,
        Storage::Gpu(_) => true,
        _ => false,
    };
    there && can_be_counted(g.tensors[p].shape.as_slice())
}

fn can_be_trained<T: Scalar>(t: &Tensor<T>, mixed: bool) -> (r: bool)
    requires
        shape_fits(t.shape@),
    ensures
        r == trainable(*t, mixed),
{
    let n: usize = element_count(t.shape.as_slice());
    match &t.data {
        Storage::Gpu(_) => match &t.grad {
            Storage::Gpu(_) => true,
            _ => false,
        },
        Storage::GpuBf16(_) => match &t.grad {
            Storage::Gpu(_) => mixed,
            _ => false,
        },
        Storage::Cpu(d) => match &t.grad {
            Storage::Cpu(g) => n <= d.len() && n <= g.len(),
            _ => false,
        },
        Storage::CpuBf16(d) => match &t.grad {
            Storage::Cpu(g) => n <= d.len() && n <= g.len(),
            _ => false,
        },
    }
}

fn mean_fits<T: Scalar>(t: &Tensor<T>, p: usize, m: &HashMap<usize, Vec<T>>) -> (r: bool)
    requires
        shape_fits(t.shape@),
    ensures
        r == (m@.contains_key(p) ==> product(t.shape@) <= m@[p]@.len()),
{
    match m.get(&p) {
        None => true,
        Some(v) => element_count(t.shape.as_slice()) <= v.len(),
    }
}

impl<T: Scalar> AdamW<T> {
    /// The gradients of all parameters can be changed, and copies of those on the device are
    /// there.
    pub open spec fn grads_there(&self, g: Graph<T>, fetched: Seq<Vec<T>>) -> bool {
        grads_ready(self.params@, g.tensors@) && fetched_ok(self.params@, g.tensors@, fetched)
    }

    /// Whether the gradients of all parameters can be changed, and copies of those on the device
    /// are there.
    pub fn has_grads(&self, g: &Graph<T>, fetched: &Vec<Vec<T>>) -> (r: bool)
        ensures
            r == self.grads_there(*g, fetched@),
    {
        let mut i: usize = 0;
        while i < self.params.len()
            invariant
                i <= self.params@.len(),
                forall|j: int| 0 <= j < i ==> grad_ready(g.tensors@, #[trigger] self.params@[j]),
                forall|j: int|
                    0 <= j < i ==> (g.tensors@[(#[trigger] self.params@[j]) as int].grad is Cpu || j
                        < fetched@.len()),
            decreases self.params@.len() - i,
        {
            let p: usize = self.params[i];
            assert(self.params@[i as int] == p);
            if !grad_is_ready(g, p) {
                return false;
            }
            let there: bool = match &g.tensors[p].grad {
                Storage::Cpu(_) => true,
                _ => i < fetched.len(),
            };
            if !there {
                return false;
            }
            i += 1;
        }
        assert forall|j: int| 0 <= j < self.params@.len() implies {
            &&& (#[trigger] self.params@[j]) < g.tensors@.len()
            &&& g.tensors@[self.params@[j] as int].grad is Cpu
                || g.tensors@[self.params@[j] as int].grad is Gpu
            &&& shape_fits(g.tensors@[self.params@[j] as int].shape@)
        } by {
            assert(grad_ready(g.tensors@, self.params@[j]));
        }
        true
    }

    /// A step can be taken.
    pub open spec fn step_ready(&self, g: Graph<T>, fetched: Seq<Vec<T>>) -> bool {
        &&& self.t < usize::MAX
        &&& self.grads_there(g, fetched)
        &&& all_trainable(self.params@, g)
        &&& means_fit(self.params@, g.tensors@, self.m_cpu@)
        &&& means_fit(self.params@, g.tensors@, self.v_cpu@)
    }

    /// Whether a step can be taken.
    pub fn can_step(&self, g: &Graph<T>, fetched: &Vec<Vec<T>>) -> (r: bool)
        ensures
            r == self.step_ready(*g, fetched@),
    {
        if self.t == usize::MAX || !self.has_grads(g, fetched) {
            return false;
        }
        let mixed: bool = g.uses_bf16_mixed_precision();
        let mut i: usize = 0;
        while i < self.params.len()
            invariant
                i <= self.params@.len(),
                mixed == g.mixed(),
                grads_ready(self.params@, g.tensors@),
                forall|j: int|
                    0 <= j < i ==> trainable(
                        g.tensors@[(#[trigger] self.params@[j]) as int],
                        mixed,
                    ),
                forall|j: int|
                    0 <= j < i && self.m_cpu@.contains_key(#[trigger] self.params@[j]) ==> product(
                        g.tensors@[self.params@[j] as int].shape@,
                    ) <= self.m_cpu@[self.params@[j]]@.len(),
                forall|j: int|
                    0 <= j < i && self.v_cpu@.contains_key(#[trigger] self.params@[j]) ==> product(
                        g.tensors@[self.params@[j] as int].shape@,
                    ) <= self.v_cpu@[self.params@[j]]@.len(),
            decreases self.params@.len() - i,
        {
            let p: usize = self.params[i];
            assert(self.params@[i as int] == p);
            let t = &g.tensors[p];
            if !can_be_trained(t, mixed) || !mean_fits(t, p, &self.m_cpu) || !mean_fits(
                t,
                p,
                &self.v_cpu,
            ) {
                return false;
            }
            i += 1;
        }
        true
    }
}

} // verus!
