//! The operations, on the host or on the device.
use crate::graph::backward::{grads_of, only_grads, rewound, same_but_grads, seeded, shapes_of};
use crate::graph::device::{
    add_device_ok, bmm_device_ok, flash_device_ok, gather_device_ok, loss_device_ok,
    matmul_bf16_device_ok, matmul_device_ok, moving_ok, mul_device_ok, numbered, reduce_device_ok,
    repeat_device_ok, rms_device_ok, rope_device_ok, silu_device_ok, softmax_device_ok,
    trans_b_device_ok, transpose_0213_device_ok, Plan,
};
use crate::graph::host::{
    all_ignored, bmm_host_made, bmm_host_ok, count_valid, cross_entropy_host_made,
    cross_entropy_host_ok,
    cross_entropy_masked_host_made, cross_entropy_masked_host_ok, flash_attention_host_made,
    flash_attention_host_ok, gather_host_made, gather_host_ok, matmul_host_made, matmul_host_ok,
    max_host_made, max_host_ok, normalizer, pairwise_host_made, pairwise_host_ok,
    repeat_kv_host_made, repeat_kv_host_ok, reshape_host_made, reshape_host_ok, rms_norm_host_made,
    rms_norm_host_ok, rope_host_made, rope_host_ok, silu_host_made, silu_host_ok, softmax_host_made,
    softmax_host_ok, sum_host_made, sum_host_ok, transpose_0213_host_made, transpose_0213_host_ok,
    valid_targets,
};
use crate::graph::ops::elementwise::Pairwise;
use crate::graph::planner::{
    add_planned, bmm_planned, cross_entropy_masked_planned, cross_entropy_planned,
    flash_attention_planned, gather_planned, matmul_bf16_planned, matmul_planned,
    matmul_trans_b_planned, max_planned, mul_planned, repeat_kv_planned, reshape_planned,
    rms_norm_planned, rope_planned, silu_planned, softmax_planned, sum_planned,
    transpose_0213_planned,
};
use crate::graph::rewind::{BackStage, Rewind};
use crate::graph::Graph;
use crate::scalar::Scalar;
use crate::tensor::Device;
use vstd::prelude::*;

verus! {

/// What has become of an operation.
pub enum Outcome<T> {
    /// It is done: the result is this tensor.
    Done(usize),
    /// It is to be done on the device.
    Run(Plan<T>),
    /// The result is a new tensor of this shape with these elements on the device.
    Put(Vec<usize>, Vec<T>),
}

impl<T: Scalar> Graph<T> {
    /// Adds two tensors, each repeated where its shape is smaller.
    pub fn add(&mut self, a_id: usize, b_id: usize) -> (r: Outcome<T>)
        requires
            old(self).wf(),
            old(self).device == Device::Cpu ==> pairwise_host_ok(*old(self), a_id, b_id),
            old(self).device == Device::Gpu ==> {
                &&& numbered(*old(self))
                &&& add_device_ok(*old(self), a_id, b_id)
            },
        ensures
            match old(self).device {
                Device::Cpu => {
                    &&& r matches Outcome::Done(id)
                    &&& pairwise_host_made(*old(self), *final(self), id, Pairwise::Add, a_id, b_id)
                },
                Device::Gpu => {
                    &&& r matches Outcome::Run(p)
                    &&& add_planned(*old(self), p, a_id, b_id)
                    &&& *final(self) == *old(self)
                },
            },
    {
        match self.device {
            Device::Cpu => Outcome::Done(self.pairwise_host(Pairwise::Add, a_id, b_id)),
            Device::Gpu => Outcome::Run(self.add_plan(a_id, b_id)),
        }
    }

    /// Multiplies two tensors element by element, each repeated where its shape is smaller.
    pub fn mul(&mut self, a_id: usize, b_id: usize) -> (r: Outcome<T>)
        requires
            old(self).wf(),
            old(self).device == Device::Cpu ==> pairwise_host_ok(*old(self), a_id, b_id),
            old(self).device == Device::Gpu ==> {
                &&& numbered(*old(self))
                &&& mul_device_ok(*old(self), a_id, b_id)
            },
        ensures
            match old(self).device {
                Device::Cpu => {
                    &&& r matches Outcome::Done(id)
                    &&& pairwise_host_made(*old(self), *final(self), id, Pairwise::Mul, a_id, b_id)
                },
                Device::Gpu => {
                    &&& r matches Outcome::Run(p)
                    &&& mul_planned(*old(self), p, a_id, b_id)
                    &&& *final(self) == *old(self)
                },
            },
    {
        match self.device {
            Device::Cpu => Outcome::Done(self.pairwise_host(Pairwise::Mul, a_id, b_id)),
            Device::Gpu => Outcome::Run(self.mul_plan(a_id, b_id)),
        }
    }

    /// Applies SiLU.
    pub fn silu(&mut self, a_id: usize) -> (r: Outcome<T>)
        requires
            old(self).wf(),
            old(self).device == Device::Cpu ==> silu_host_ok(*old(self), a_id),
            old(self).device == Device::Gpu ==> {
                &&& numbered(*old(self))
                &&& silu_device_ok(*old(self), a_id)
            },
        ensures
            match old(self).device {
                Device::Cpu => {
                    &&& r matches Outcome::Done(id)
                    &&& silu_host_made(*old(self), *final(self), id, a_id)
                },
                Device::Gpu => {
                    &&& r matches Outcome::Run(p)
                    &&& silu_planned(*old(self), p, a_id)
                    &&& *final(self) == *old(self)
                },
            },
    {
        match self.device {
            Device::Cpu => Outcome::Done(self.silu_host(a_id)),
            Device::Gpu => Outcome::Run(self.silu_plan(a_id)),
        }
    }

    /// Multiplies the rows of a tensor with a matrix.
    pub fn matmul(&mut self, a_id: usize, b_id: usize) -> (r: Outcome<T>)
        requires
            old(self).wf(),
            old(self).device == Device::Cpu ==> matmul_host_ok(*old(self), a_id, b_id),
            old(self).device == Device::Gpu ==> {
                &&& numbered(*old(self))
                &&& matmul_device_ok(*old(self), a_id, b_id)
            },
        ensures
            match old(self).device {
                Device::Cpu => {
                    &&& r matches Outcome::Done(id)
                    &&& matmul_host_made(*old(self), *final(self), id, a_id, b_id)
                },
                Device::Gpu => {
                    &&& r matches Outcome::Run(p)
                    &&& matmul_planned(*old(self), p, a_id, b_id)
                    &&& *final(self) == *old(self)
                },
            },
    {
        match self.device {
            Device::Cpu => Outcome::Done(self.matmul_host(a_id, b_id)),
            Device::Gpu => Outcome::Run(self.matmul_plan(a_id, b_id)),
        }
    }

    /// Multiplies the rows of a tensor with a matrix, on the device with rounding to 16 bits on the way.
    pub fn matmul_bf16(&mut self, a_id: usize, b_id: usize) -> (r: Outcome<T>)
        requires
            old(self).wf(),
            old(self).device == Device::Cpu ==> matmul_host_ok(*old(self), a_id, b_id),
            old(self).device == Device::Gpu ==> {
                &&& numbered(*old(self))
                &&& matmul_bf16_device_ok(*old(self), a_id, b_id)
            },
        ensures
            match old(self).device {
                Device::Cpu => {
                    &&& r matches Outcome::Done(id)
                    &&& matmul_host_made(*old(self), *final(self), id, a_id, b_id)
                },
                Device::Gpu => {
                    &&& r matches Outcome::Run(p)
                    &&& matmul_bf16_planned(*old(self), p, a_id, b_id)
                    &&& *final(self) == *old(self)
                },
            },
    {
        match self.device {
            Device::Cpu => Outcome::Done(self.matmul_host(a_id, b_id)),
            Device::Gpu => Outcome::Run(self.matmul_bf16_plan(a_id, b_id)),
        }
    }

    /// Multiplies matrices pair by pair, the second one of each pair transposed where asked for.
    pub fn bmm(&mut self, a_id: usize, b_id: usize, trans_b: bool) -> (r: Outcome<T>)
        requires
            old(self).wf(),
            old(self).device == Device::Cpu ==> bmm_host_ok(*old(self), a_id, b_id, trans_b),
            old(self).device == Device::Gpu ==> {
                &&& numbered(*old(self))
                &&& bmm_device_ok(*old(self), a_id, b_id, trans_b)
            },
        ensures
            match old(self).device {
                Device::Cpu => {
                    &&& r matches Outcome::Done(id)
                    &&& bmm_host_made(*old(self), *final(self), id, a_id, b_id, trans_b)
                },
                Device::Gpu => {
                    &&& r matches Outcome::Run(p)
                    &&& bmm_planned(*old(self), p, a_id, b_id, trans_b)
                    &&& *final(self) == *old(self)
                },
            },
    {
        match self.device {
            Device::Cpu => Outcome::Done(self.bmm_host(a_id, b_id, trans_b)),
            Device::Gpu => Outcome::Run(self.bmm_plan(a_id, b_id, trans_b)),
        }
    }

    /// Sums over a dimension.
    pub fn sum(&mut self, a_id: usize, dim: usize) -> (r: Outcome<T>)
        requires
            old(self).wf(),
            old(self).device == Device::Cpu ==> sum_host_ok(*old(self), a_id, dim),
            old(self).device == Device::Gpu ==> {
                &&& numbered(*old(self))
                &&& reduce_device_ok(*old(self), a_id, dim)
            },
        ensures
            match old(self).device {
                Device::Cpu => {
                    &&& r matches Outcome::Done(id)
                    &&& sum_host_made(*old(self), *final(self), id, a_id, dim)
                },
                Device::Gpu => {
                    &&& r matches Outcome::Run(p)
                    &&& sum_planned(*old(self), p, a_id, dim)
                    &&& *final(self) == *old(self)
                },
            },
    {
        match self.device {
            Device::Cpu => Outcome::Done(self.sum_host(a_id, dim)),
            Device::Gpu => Outcome::Run(self.sum_plan(a_id, dim)),
        }
    }

    /// Maxima over a dimension.
    pub fn max(&mut self, a_id: usize, dim: usize) -> (r: Outcome<T>)
        requires
            old(self).wf(),
            old(self).device == Device::Cpu ==> max_host_ok(*old(self), a_id, dim),
            old(self).device == Device::Gpu ==> {
                &&& numbered(*old(self))
                &&& reduce_device_ok(*old(self), a_id, dim)
            },
        ensures
            match old(self).device {
                Device::Cpu => {
                    &&& r matches Outcome::Done(id)
                    &&& max_host_made(*old(self), *final(self), id, a_id, dim)
                },
                Device::Gpu => {
                    &&& r matches Outcome::Run(p)
                    &&& max_planned(*old(self), p, a_id, dim)
                    &&& *final(self) == *old(self)
                },
            },
    {
        match self.device {
            Device::Cpu => Outcome::Done(self.max_host(a_id, dim)),
            Device::Gpu => Outcome::Run(self.max_plan(a_id, dim)),
        }
    }

    /// The softmax of every row.
    pub fn softmax(&mut self, a_id: usize) -> (r: Outcome<T>)
        requires
            old(self).wf(),
            old(self).device == Device::Cpu ==> softmax_host_ok(*old(self), a_id),
            old(self).device == Device::Gpu ==> {
                &&& numbered(*old(self))
                &&& softmax_device_ok(*old(self), a_id)
            },
        ensures
            match old(self).device {
                Device::Cpu => {
                    &&& r matches Outcome::Done(id)
                    &&& softmax_host_made(*old(self), *final(self), id, a_id)
                },
                Device::Gpu => {
                    &&& r matches Outcome::Run(p)
                    &&& softmax_planned(*old(self), p, a_id)
                    &&& *final(self) == *old(self)
                },
            },
    {
        match self.device {
            Device::Cpu => Outcome::Done(self.softmax_host(a_id)),
            Device::Gpu => Outcome::Run(self.softmax_plan(a_id)),
        }
    }

    /// The mean of the negated logarithms of the probabilities of the targets.
    pub fn cross_entropy(&mut self, logits_id: usize, targets: &[usize]) -> (r: Outcome<T>)
        requires
            old(self).wf(),
            old(self).device == Device::Cpu ==> cross_entropy_host_ok(*old(self), logits_id, targets@),
            old(self).device == Device::Gpu ==> {
                &&& numbered(*old(self))
                &&& loss_device_ok(*old(self), logits_id)
            },
        ensures
            match old(self).device {
                Device::Cpu => {
                    &&& r matches Outcome::Done(id)
                    &&& cross_entropy_host_made(*old(self), *final(self), id, logits_id, targets@)
                },
                Device::Gpu => {
                    &&& r matches Outcome::Run(p)
                    &&& cross_entropy_planned(*old(self), p, logits_id, targets@)
                    &&& *final(self) == *old(self)
                },
            },
    {
        match self.device {
            Device::Cpu => Outcome::Done(self.cross_entropy_host(logits_id, targets)),
            Device::Gpu => Outcome::Run(self.cross_entropy_plan(logits_id, targets)),
        }
    }

    /// Exchanges the two dimensions before the last.
    pub fn transpose_0213(&mut self, a_id: usize) -> (r: Outcome<T>)
        requires
            old(self).wf(),
            old(self).device == Device::Cpu ==> transpose_0213_host_ok(*old(self), a_id),
            old(self).device == Device::Gpu ==> {
                &&& numbered(*old(self))
                &&& transpose_0213_device_ok(*old(self), a_id)
            },
        ensures
            match old(self).device {
                Device::Cpu => {
                    &&& r matches Outcome::Done(id)
                    &&& transpose_0213_host_made(*old(self), *final(self), id, a_id)
                },
                Device::Gpu => {
                    &&& r matches Outcome::Run(p)
                    &&& transpose_0213_planned(*old(self), p, a_id)
                    &&& *final(self) == *old(self)
                },
            },
    {
        match self.device {
            Device::Cpu => Outcome::Done(self.transpose_0213_host(a_id)),
            Device::Gpu => Outcome::Run(self.transpose_0213_plan(a_id)),
        }
    }

    /// Takes the rows of a matrix that the indices name.
    pub fn gather(&mut self, weights_id: usize, indices_id: usize) -> (r: Outcome<T>)
        requires
            old(self).wf(),
            old(self).device == Device::Cpu ==> gather_host_ok(*old(self), weights_id, indices_id),
            old(self).device == Device::Gpu ==> {
                &&& numbered(*old(self))
                &&& gather_device_ok(*old(self), weights_id, indices_id)
            },
        ensures
            match old(self).device {
                Device::Cpu => {
                    &&& r matches Outcome::Done(id)
                    &&& gather_host_made(*old(self), *final(self), id, weights_id, indices_id)
                },
                Device::Gpu => {
                    &&& r matches Outcome::Run(p)
                    &&& gather_planned(*old(self), p, weights_id, indices_id)
                    &&& *final(self) == *old(self)
                },
            },
    {
        match self.device {
            Device::Cpu => Outcome::Done(self.gather_host(weights_id, indices_id)),
            Device::Gpu => Outcome::Run(self.gather_plan(weights_id, indices_id)),
        }
    }

    /// Copies a tensor into another shape.
    pub fn reshape(&mut self, a_id: usize, new_shape: Vec<usize>) -> (r: Outcome<T>)
        requires
            old(self).wf(),
            old(self).device == Device::Cpu ==> reshape_host_ok(*old(self), a_id, new_shape@),
            old(self).device == Device::Gpu ==> numbered(*old(self)) && moving_ok(*old(self), a_id),
        ensures
            match old(self).device {
                Device::Cpu => {
                    &&& r matches Outcome::Done(id)
                    &&& reshape_host_made(*old(self), *final(self), id, a_id, new_shape@)
                },
                Device::Gpu => {
                    &&& r matches Outcome::Run(p)
                    &&& reshape_planned(*old(self), p, a_id, new_shape@)
                    &&& *final(self) == *old(self)
                },
            },
    {
        match self.device {
            Device::Cpu => Outcome::Done(self.reshape_host(a_id, new_shape)),
            Device::Gpu => Outcome::Run(self.reshape_plan(a_id, new_shape)),
        }
    }

    /// Rotates pairs of elements by angles that grow with the position.
    pub fn rope(&mut self, a_id: usize, head_dim: usize) -> (r: Outcome<T>)
        requires
            old(self).wf(),
            old(self).device == Device::Cpu ==> rope_host_ok(*old(self), a_id, head_dim),
            old(self).device == Device::Gpu ==> {
                &&& numbered(*old(self))
                &&& rope_device_ok(*old(self), a_id)
            },
        ensures
            match old(self).device {
                Device::Cpu => {
                    &&& r matches Outcome::Done(id)
                    &&& rope_host_made(*old(self), *final(self), id, a_id, head_dim)
                },
                Device::Gpu => {
                    &&& r matches Outcome::Run(p)
                    &&& rope_planned(*old(self), p, a_id, head_dim)
                    &&& *final(self) == *old(self)
                },
            },
    {
        match self.device {
            Device::Cpu => Outcome::Done(self.rope_host(a_id, head_dim)),
            Device::Gpu => Outcome::Run(self.rope_plan(a_id, head_dim)),
        }
    }

    /// Divides every row by its root mean square and weighs its elements.
    pub fn rms_norm(&mut self, x_id: usize, weight_id: usize, eps: T) -> (r: Outcome<T>)
        requires
            old(self).wf(),
            old(self).device == Device::Cpu ==> rms_norm_host_ok(*old(self), x_id, weight_id),
            old(self).device == Device::Gpu ==> {
                &&& numbered(*old(self))
                &&& rms_device_ok(*old(self), x_id, weight_id)
            },
        ensures
            match old(self).device {
                Device::Cpu => {
                    &&& r matches Outcome::Done(id)
                    &&& rms_norm_host_made(*old(self), *final(self), id, x_id, weight_id, eps)
                },
                Device::Gpu => {
                    &&& r matches Outcome::Run(p)
                    &&& rms_norm_planned(*old(self), p, x_id, weight_id, eps)
                    &&& *final(self) == *old(self)
                },
            },
    {
        match self.device {
            Device::Cpu => Outcome::Done(self.rms_norm_host(x_id, weight_id, eps)),
            Device::Gpu => Outcome::Run(self.rms_norm_plan(x_id, weight_id, eps)),
        }
    }

    /// Attention in one pass. Nothing is recorded: it is for inference only.
    pub fn flash_attention(
        &mut self,
        q_id: usize,
        k_id: usize,
        v_id: usize,
        scale: T,
        causal: bool,
    ) -> (r: Outcome<T>)
        requires
            old(self).wf(),
            old(self).device == Device::Cpu ==> flash_attention_host_ok(*old(self), q_id, k_id, v_id),
            old(self).device == Device::Gpu ==> {
                &&& numbered(*old(self))
                &&& old(self).no_grad
                &&& flash_device_ok(*old(self), q_id, k_id, v_id)
            },
        ensures
            match old(self).device {
                Device::Cpu => {
                    &&& r matches Outcome::Done(id)
                    &&& flash_attention_host_made(*old(self), *final(self), id, q_id, k_id, v_id, scale, causal)
                },
                Device::Gpu => {
                    &&& r matches Outcome::Run(p)
                    &&& flash_attention_planned(*old(self), p, q_id, k_id, v_id, scale, causal)
                    &&& *final(self) == *old(self)
                },
            },
    {
        match self.device {
            Device::Cpu => Outcome::Done(self.flash_attention_host(q_id, k_id, v_id, scale, causal)),
            Device::Gpu => Outcome::Run(self.flash_attention_plan(q_id, k_id, v_id, scale, causal)),
        }
    }

    /// Multiplies the rows of a tensor with those of a matrix, on the device.
    pub fn matmul_trans_b(&self, a_id: usize, b_id: usize) -> (r: Outcome<T>)
        requires
            self.wf(),
            self.device == Device::Gpu,
            numbered(*self),
            trans_b_device_ok(*self, a_id, b_id),
        ensures
            r matches Outcome::Run(p) && matmul_trans_b_planned(*self, p, a_id, b_id),
    {
        Outcome::Run(self.matmul_trans_b_plan(a_id, b_id))
    }

    /// The mean loss over the targets that are not to be ignored; zero where all are.
    pub fn cross_entropy_masked(&mut self, logits_id: usize, targets: &[usize]) -> (r: Outcome<T>)
        requires
            old(self).wf(),
            old(self).device == Device::Cpu ==> cross_entropy_masked_host_ok(
                *old(self),
                logits_id,
                targets@,
            ),
            old(self).device == Device::Gpu ==> all_ignored(targets@) || (numbered(*old(self))
                && loss_device_ok(*old(self), logits_id)),
        ensures
            match old(self).device {
                Device::Cpu => r matches Outcome::Done(id) && cross_entropy_masked_host_made(
                    *old(self),
                    *final(self),
                    id,
                    logits_id,
                    targets@,
                ),
                Device::Gpu => {
                    &&& *final(self) == *old(self)
                    &&& if valid_targets(targets@) == targets@.len() {
                        r matches Outcome::Run(p) && cross_entropy_planned(
                            *old(self),
                            p,
                            logits_id,
                            targets@,
                        )
                    } else if valid_targets(targets@) == 0 {
                        r matches Outcome::Put(shape, values) && shape@.len() == 0 && values@
                            == seq![T::spec_zero()]
                    } else {
                        r matches Outcome::Run(p) && cross_entropy_masked_planned(
                            *old(self),
                            p,
                            logits_id,
                            targets@,
                            normalizer::<T>(targets@),
                        )
                    }
                },
            },
    {
        match self.device {
            Device::Cpu => Outcome::Done(self.cross_entropy_masked_host(logits_id, targets)),
            Device::Gpu => {
                let valid: usize = count_valid(targets);
                if valid == targets.len() {
                    return Outcome::Run(self.cross_entropy_plan(logits_id, targets));
                }
                if valid == 0 {
                    let mut zero: Vec<T> = Vec::new();
                    zero.push(T::zero());
                    assert(zero@ =~= seq![T::spec_zero()]);
                    return Outcome::Put(Vec::new(), zero);
                }
                let w: T = T::one().over(T::from_count(valid));
                Outcome::Run(self.cross_entropy_masked_plan(logits_id, targets, w))
            },
        }
    }

    /// Repeats every head of keys or values. Once is the tensor itself.
    pub fn repeat_kv(&mut self, x_id: usize, repeats: usize) -> (r: Outcome<T>)
        requires
            old(self).wf(),
            old(self).device == Device::Cpu ==> repeat_kv_host_ok(*old(self), x_id, repeats),
            old(self).device == Device::Gpu && repeats != 1 ==> numbered(*old(self))
                && repeat_device_ok(*old(self), x_id, repeats),
        ensures
            match old(self).device {
                Device::Cpu => r matches Outcome::Done(id) && repeat_kv_host_made(
                    *old(self),
                    *final(self),
                    id,
                    x_id,
                    repeats,
                ),
                Device::Gpu => {
                    &&& *final(self) == *old(self)
                    &&& if repeats == 1 {
                        r == Outcome::<T>::Done(x_id)
                    } else {
                        r matches Outcome::Run(p) && repeat_kv_planned(*old(self), p, x_id, repeats)
                    }
                },
            },
    {
        match self.device {
            Device::Cpu => Outcome::Done(self.repeat_kv_host(x_id, repeats)),
            Device::Gpu => if repeats == 1 {
                Outcome::Done(x_id)
            } else {
                Outcome::Run(self.repeat_kv_plan(x_id, repeats))
            },
        }
    }

    /// Goes back through all recorded operations: at once on the host, step by step on the device.
    pub fn backward(&mut self, loss_id: usize) -> (r: Option<Rewind>)
        requires
            old(self).wf(),
            old(self).device == Device::Cpu && !old(self).no_grad ==> {
                &&& old(self).tape_ok()
                &&& loss_id < old(self).tensors@.len()
                &&& old(self).tensors@[loss_id as int].grad is Cpu
            },
        ensures
            match old(self).device {
                Device::Cpu => {
                    &&& r is None
                    &&& old(self).no_grad ==> *final(self) == *old(self)
                    &&& !old(self).no_grad ==> {
                        &&& same_but_grads(final(self).tensors@, old(self).tensors@)
                        &&& grads_of(final(self).tensors@) == rewound(
                            old(self).tape.nodes@,
                            shapes_of(old(self).tensors@),
                            seeded(old(self).tensors@, loss_id as int),
                            old(self).tape.nodes@.len(),
                        )
                        &&& final(self).active_node_tensors@.len() == 0
                        &&& only_grads(*final(self), *old(self))
                        &&& final(self).tape_ok()
                    }
                    &&& final(self).wf()
                },
                Device::Gpu => {
                    &&& *final(self) == *old(self)
                    &&& r matches Some(w) && w.loss_id == loss_id && w.left
                        == old(self).tape.nodes@.len() && w.stage == BackStage::Loss
                },
            },
    {
        match self.device {
            Device::Cpu => {
                self.backward_host(loss_id);
                None
            },
            Device::Gpu => Some(self.backward_on_device(loss_id)),
        }
    }
}

} // verus!
