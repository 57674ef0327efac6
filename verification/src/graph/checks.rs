//! Whether operands are there for the operations, on the host or on the device.
use crate::data::fim::IGNORE_INDEX;
use crate::graph::device::{
    add_device_ok, add_kinds_ok, bmm_device_ok, ensured_kind, flash_device_ok, gather_device_ok,
    in_device_memory, kind_of, loss_device_ok, matmul_bf16_device_ok, matmul_device_ok, moving_ok,
    mul_device_ok, numbered, on_gpu, operand_ok, out_kind, reduce_device_ok, repeat_device_ok,
    rms_device_ok, rope_device_ok, rows_device_ok, silu_device_ok, softmax_device_ok,
    trans_b_device_ok, trans_b_shape, transpose_0213_device_ok,
};
use crate::graph::host::{
    all_count, all_ignored, bmm_dims, bmm_host_ok, count_valid, cross_entropy_host_ok,
    cross_entropy_masked_host_ok, flash_attention_host_ok, flash_ok, gather_host_ok, has_rows,
    host_ready, loss_ok, matmul_host_ok, max_host_ok, pairwise_host_ok, repeat_kv_host_ok,
    repeat_shape, reshape_host_ok, rms_norm_host_ok, rope_host_ok, shape_of, silu_host_ok,
    softmax_host_ok, sum_host_ok, swap_shape, transpose_0213_host_ok,
};
use crate::graph::launch::tiles_can_be_counted;
use crate::graph::ops::elementwise::broadcast_ok;
use crate::graph::ops::linear::BmmDims;
use crate::graph::ops::reduction::{shape_without, targets_ok};
use crate::graph::ops::transform::{rows_of, rows_ok};
use crate::graph::planner::{leading, lemma_counted};
use crate::graph::Graph;
use crate::scalar::Scalar;
use crate::tape::MatmulDims;
use crate::tensor::{
    broadcast_shape, element_count, lemma_product_end, lemma_product_step, product, shape_fits,
    Device, Storage, StorageKind, Tensor,
};
use vstd::prelude::*;

verus! {

/// Whether the elements from each dimension on can be counted.
pub fn can_be_counted(shape: &[usize]) -> (r: bool)
    ensures
        r == shape_fits(shape@),
{
    let mut n: usize = 1;
    let mut i: usize = shape.len();
    proof {
        lemma_product_end(shape@);
        assert(shape@.skip(shape@.len() as int) =~= Seq::empty());
    }
    while i > 0
        invariant
            i <= shape@.len(),
            n == product(shape@.skip(i as int)),
            forall|j: int| i <= j <= shape@.len() ==> product(#[trigger] shape@.skip(j)) <= usize::MAX,
        decreases i,
    {
        proof {
            lemma_product_step(shape@, i - 1);
        }
        match shape[i - 1].checked_mul(n) {
            None => {
                assert(product(shape@.skip(i - 1)) > usize::MAX);
                return false;
            },
            Some(m) => {
                n = m;
                i -= 1;
            },
        }
    }
    true
}

/// The product of three numbers, where it can be counted.
pub(crate) fn product_of_three(a: usize, b: usize, c: usize) -> (r: Option<usize>)
    ensures
        r == (if a * b * c <= usize::MAX {
            Some((a * b * c) as usize)
        } else {
            None
        }),
{
    if a == 0 || b == 0 || c == 0 {
        assert(a * b * c == 0) by (nonlinear_arith)
            requires
                a == 0 || b == 0 || c == 0,
        ;
        return Some(0);
    }
    match a.checked_mul(b) {
        None => {
            assert(a * b * c > usize::MAX) by (nonlinear_arith)
                requires
                    a * b > usize::MAX,
                    c >= 1,
            ;
            None
        },
        Some(ab) => ab.checked_mul(c),
    }
}

pub(crate) fn product_of_two(a: usize, b: usize) -> (r: Option<usize>)
    ensures
        r == (if a * b <= usize::MAX {
            Some((a * b) as usize)
        } else {
            None
        }),
{
    a.checked_mul(b)
}

pub(crate) fn at_most(a: Option<usize>, limit: usize) -> (r: bool)
    ensures
        r == (a matches Some(x) && x <= limit),
{
    match a {
        None => false,
        Some(x) => x <= limit,
    }
}

fn of_three(a: usize, b: usize, c: usize) -> (r: Vec<usize>)
    ensures
        r@ == seq![a, b, c],
{
    let mut r: Vec<usize> = Vec::new();
    r.push(a);
    r.push(b);
    r.push(c);
    assert(r@ =~= seq![a, b, c]);
    r
}

fn swapped_shape(shape: &Vec<usize>) -> (r: Vec<usize>)
    requires
        shape@.len() >= 4,
    ensures
        r@ == swap_shape(shape@),
{
    let n: usize = shape.len();
    let mut r = leading(shape, n - 3);
    r.push(shape[n - 2]);
    r.push(shape[n - 3]);
    r.push(shape[n - 1]);
    assert(r@ =~= swap_shape(shape@));
    r
}

impl<T: Scalar> Graph<T> {
    fn is_ready(&self, id: usize) -> (r: bool)
        requires
            self.wf(),
        ensures
            r == host_ready(*self, id),
    {
        if id >= self.tensors.len() {
            return false;
        }
        assert(self.tensors@[id as int].shape_wf());
        let n: usize = element_count(self.tensors[id].shape.as_slice());
        let data: bool = match &self.tensors[id].data {
            Storage::Cpu(v) => v.len() == n,
            _ => false,
        };
        let grad: bool = match &self.tensors[id].grad {
            Storage::Cpu(v) => v.len() == n,
            _ => false,
        };
        data && grad
    }

    fn kind_now(&self, id: usize) -> (r: StorageKind)
        requires
            id < self.tensors@.len(),
        ensures
            r == kind_of(*self, id),
    {
        self.tensors[id].data.kind()
    }

    fn kind_ensured(&self, id: usize) -> (r: StorageKind)
        requires
            id < self.tensors@.len(),
        ensures
            r == ensured_kind(*self, id),
    {
        match self.tensors[id].data.kind() {
            StorageKind::Cpu => if self.uses_bf16_mixed_precision() && self.tensors[id].is_pooled {
                StorageKind::GpuBf16
            } else {
                StorageKind::Gpu
            },
            StorageKind::CpuBf16 => StorageKind::Gpu,
            k => k,
        }
    }

    fn kind_of_result(&self) -> (r: StorageKind)
        ensures
            r == out_kind(*self),
    {
        if self.uses_bf16_mixed_precision() {
            StorageKind::GpuBf16
        } else {
            StorageKind::Gpu
        }
    }

    fn is_in_device_memory(&self, id: usize) -> (r: bool)
        requires
            id < self.tensors@.len(),
        ensures
            r == on_gpu(kind_of(*self, id)),
    {
        in_device_memory(self.tensors[id].data.kind())
    }

    fn numbers_left(&self) -> (r: bool)
        ensures
            r == numbered(*self),
    {
        self.tensors.len() < usize::MAX
    }

    fn broadcasts(&self, a: usize, b: usize) -> (r: bool)
        requires
            self.wf(),
            a < self.tensors@.len(),
            b < self.tensors@.len(),
        ensures
            r == broadcast_ok(shape_of(*self, a), shape_of(*self, b)),
    {
        assert(self.tensors@[a as int].shape_wf());
        assert(self.tensors@[b as int].shape_wf());
        let out = Tensor::<T>::get_broadcasted_shape(
            self.tensors[a].shape.as_slice(),
            self.tensors[b].shape.as_slice(),
        );
        if !can_be_counted(out.as_slice()) {
            return false;
        }
        element_count(out.as_slice()) == 0 || (element_count(self.tensors[a].shape.as_slice()) > 0
            && element_count(self.tensors[b].shape.as_slice()) > 0)
    }

    fn kinds_add(&self, a: usize, b: usize) -> (r: bool)
        requires
            a < self.tensors@.len(),
            b < self.tensors@.len(),
        ensures
            r == add_kinds_ok(kind_of(*self, a), kind_of(*self, b), out_kind(*self)),
    {
        let ka = self.kind_now(a);
        let kb = self.kind_now(b);
        if self.uses_bf16_mixed_precision() {
            ka == StorageKind::GpuBf16 && kb != StorageKind::CpuBf16
        } else {
            ka == StorageKind::Gpu && kb == StorageKind::Gpu
        }
    }

    fn result_counts(&self, a: usize, b: usize) -> (r: Option<usize>)
        requires
            a < self.tensors@.len(),
            b < self.tensors@.len(),
        ensures
            r is Some == shape_fits(broadcast_shape(shape_of(*self, a), shape_of(*self, b))),
            r matches Some(n) ==> n == broadcast_shape(
                shape_of(*self, a),
                shape_of(*self, b),
            ).len(),
    {
        let out = Tensor::<T>::get_broadcasted_shape(
            self.tensors[a].shape.as_slice(),
            self.tensors[b].shape.as_slice(),
        );
        if can_be_counted(out.as_slice()) {
            Some(out.len())
        } else {
            None
        }
    }

    /// Whether two tensors can be added.
    pub fn can_add(&self, a_id: usize, b_id: usize) -> (r: bool)
        requires
            self.wf(),
        ensures
            r == (match self.device {
                Device::Cpu => pairwise_host_ok(*self, a_id, b_id),
                Device::Gpu => numbered(*self) && add_device_ok(*self, a_id, b_id),
            }),
    {
        match self.device {
            Device::Cpu => self.is_ready(a_id) && self.is_ready(b_id) && self.broadcasts(a_id, b_id),
            Device::Gpu => {
                if a_id >= self.tensors.len() || b_id >= self.tensors.len() {
                    return false;
                }
                match self.result_counts(a_id, b_id) {
                    None => false,
                    Some(rank) => self.numbers_left() && rank <= 3 && self.kinds_add(a_id, b_id),
                }
            },
        }
    }

    /// Whether two tensors can be multiplied element by element.
    pub fn can_mul(&self, a_id: usize, b_id: usize) -> (r: bool)
        requires
            self.wf(),
        ensures
            r == (match self.device {
                Device::Cpu => pairwise_host_ok(*self, a_id, b_id),
                Device::Gpu => numbered(*self) && mul_device_ok(*self, a_id, b_id),
            }),
    {
        match self.device {
            Device::Cpu => self.is_ready(a_id) && self.is_ready(b_id) && self.broadcasts(a_id, b_id),
            Device::Gpu => {
                if a_id >= self.tensors.len() || b_id >= self.tensors.len() {
                    return false;
                }
                match self.result_counts(a_id, b_id) {
                    None => false,
                    Some(_) => self.numbers_left() && self.kind_now(b_id) != StorageKind::Cpu
                        && self.kinds_add(a_id, b_id),
                }
            },
        }
    }

    /// Whether SiLU can be applied.
    pub fn can_silu(&self, a_id: usize) -> (r: bool)
        requires
            self.wf(),
        ensures
            r == (match self.device {
                Device::Cpu => silu_host_ok(*self, a_id),
                Device::Gpu => numbered(*self) && silu_device_ok(*self, a_id),
            }),
    {
        match self.device {
            Device::Cpu => self.is_ready(a_id),
            Device::Gpu => self.numbers_left() && a_id < self.tensors.len() && self.kind_now(a_id)
                == self.kind_of_result(),
        }
    }

    fn rows_of_shape(&self, a: usize) -> (r: Option<usize>)
        requires
            a < self.tensors@.len(),
        ensures
            shape_of(*self, a).len() == 0 ==> r is None,
            shape_of(*self, a).len() > 0 ==> r == (if shape_fits(shape_of(*self, a).drop_last()) {
                Some(product(shape_of(*self, a).drop_last()) as usize)
            } else {
                None
            }),
            r is Some ==> product(shape_of(*self, a).drop_last()) <= usize::MAX,
    {
        let rank: usize = self.tensors[a].shape.len();
        if rank == 0 {
            return None;
        }
        let lead = leading(&self.tensors[a].shape, rank - 1);
        assert(lead@ =~= shape_of(*self, a).drop_last());
        if can_be_counted(lead.as_slice()) {
            proof {
                lemma_counted(lead@);
            }
            Some(element_count(lead.as_slice()))
        } else {
            None
        }
    }

    fn matrices_fit(&self, a: usize, b: usize, trans_b: bool) -> (r: Option<MatmulDims>)
        requires
            a < self.tensors@.len(),
            b < self.tensors@.len(),
        ensures
            ({
                let (sa, sb) = (shape_of(*self, a), shape_of(*self, b));
                let ok = sa.len() >= 2 && sb.len() == 2 && shape_fits(sa.drop_last()) && sa.last()
                    == (if trans_b {
                    sb[1]
                } else {
                    sb[0]
                }) && product(sa.drop_last()) * (if trans_b {
                    sb[0]
                } else {
                    sb[1]
                }) <= usize::MAX;
                &&& r is Some == ok
                &&& r matches Some(d) ==> d.m == product(sa.drop_last()) && d.k == sa.last() && d.n
                    == (if trans_b {
                    sb[0]
                } else {
                    sb[1]
                })
                &&& sa.len() >= 2 && shape_fits(sa.drop_last()) ==> product(sa.drop_last())
                    <= usize::MAX
            }),
    {
        proof {
            let lead = shape_of(*self, a).drop_last();
            if shape_fits(lead) {
                lemma_counted(lead);
            }
        }
        let rank: usize = self.tensors[a].shape.len();
        if rank < 2 || self.tensors[b].shape.len() != 2 {
            return None;
        }
        let m: usize = match self.rows_of_shape(a) {
            None => {
                return None;
            },
            Some(m) => m,
        };
        let k: usize = self.tensors[a].shape[rank - 1];
        let (rows, n): (usize, usize) = if trans_b {
            (self.tensors[b].shape[1], self.tensors[b].shape[0])
        } else {
            (self.tensors[b].shape[0], self.tensors[b].shape[1])
        };
        if rows != k || product_of_two(m, n).is_none() {
            return None;
        }
        Some(MatmulDims { m, k, n })
    }

    fn is_operand(&self, id: usize) -> (r: bool)
        requires
            id < self.tensors@.len(),
        ensures
            r == operand_ok(*self, id),
    {
        self.kind_now(id) != StorageKind::Cpu || !(self.uses_bf16_mixed_precision()
            && self.tensors[id].is_pooled)
    }

    /// Whether the rows of a tensor can be multiplied with a matrix.
    pub fn can_matmul(&self, a_id: usize, b_id: usize) -> (r: bool)
        requires
            self.wf(),
        ensures
            r == (match self.device {
                Device::Cpu => matmul_host_ok(*self, a_id, b_id),
                Device::Gpu => numbered(*self) && matmul_device_ok(*self, a_id, b_id),
            }),
    {
        match self.device {
            Device::Cpu => self.is_ready(a_id) && self.is_ready(b_id) && self.matrices_fit(
                a_id,
                b_id,
                false,
            ).is_some(),
            Device::Gpu => {
                if a_id >= self.tensors.len() || b_id >= self.tensors.len()
                    || !self.numbers_left() {
                    return false;
                }
                let d = match self.matrices_fit(a_id, b_id, false) {
                    None => {
                        return false;
                    },
                    Some(d) => d,
                };
                let streamed: bool = self.is_in_device_memory(a_id) && !self.is_in_device_memory(b_id);
                tiles_can_be_counted(d.n, d.m) && (streamed || (self.is_operand(a_id)
                    && self.is_operand(b_id)))
            },
        }
    }

    /// Whether they can be multiplied with rounding to 16 bits.
    pub fn can_matmul_bf16(&self, a_id: usize, b_id: usize) -> (r: bool)
        requires
            self.wf(),
        ensures
            r == (match self.device {
                Device::Cpu => matmul_host_ok(*self, a_id, b_id),
                Device::Gpu => numbered(*self) && matmul_bf16_device_ok(*self, a_id, b_id),
            }),
    {
        match self.device {
            Device::Cpu => self.can_matmul(a_id, b_id),
            Device::Gpu => {
                if a_id >= self.tensors.len() || b_id >= self.tensors.len()
                    || !self.numbers_left() {
                    return false;
                }
                match self.matrices_fit(a_id, b_id, false) {
                    None => false,
                    Some(d) => tiles_can_be_counted(d.n, d.m) && self.is_in_device_memory(a_id),
                }
            },
        }
    }

    /// Whether the rows of a tensor can be multiplied with those of a matrix on the device.
    pub fn can_matmul_trans_b(&self, a_id: usize, b_id: usize) -> (r: bool)
        requires
            self.wf(),
        ensures
            r == (self.device == Device::Gpu && numbered(*self) && trans_b_device_ok(
                *self,
                a_id,
                b_id,
            )),
    {
        match self.device {
            Device::Cpu => false,
            Device::Gpu => {
                if a_id >= self.tensors.len() || b_id >= self.tensors.len()
                    || !self.numbers_left() {
                    return false;
                }
                let d = match self.matrices_fit(a_id, b_id, true) {
                    None => {
                        return false;
                    },
                    Some(d) => d,
                };
                let rank: usize = self.tensors[a_id].shape.len();
                let mut out = leading(&self.tensors[a_id].shape, rank - 1);
                out.push(d.n);
                assert(out@ =~= trans_b_shape(shape_of(*self, a_id), d.n));
                tiles_can_be_counted(d.n, d.m) && can_be_counted(out.as_slice())
            },
        }
    }

    fn pairs_of(&self, a: usize, b: usize, trans_b: bool) -> (r: Option<BmmDims>)
        requires
            a < self.tensors@.len(),
            b < self.tensors@.len(),
        ensures
            ({
                let (sa, sb) = (shape_of(*self, a), shape_of(*self, b));
                let ok = sa.len() >= 3 && sb.len() >= (if trans_b {
                    2int
                } else {
                    3int
                });
                &&& r is Some == ok
                &&& r matches Some(d) ==> d == bmm_dims(sa, sb, trans_b)
            }),
    {
        let rank: usize = if trans_b {
            2
        } else {
            3
        };
        if self.tensors[a].shape.len() < 3 || self.tensors[b].shape.len() < rank {
            return None;
        }
        let n: usize = if trans_b {
            self.tensors[b].shape[1]
        } else {
            self.tensors[b].shape[2]
        };
        Some(
            BmmDims {
                batch: self.tensors[a].shape[0],
                m: self.tensors[a].shape[1],
                k: self.tensors[a].shape[2],
                n,
                trans_b,
            },
        )
    }

    /// Whether matrices can be multiplied pair by pair.
    pub fn can_bmm(&self, a_id: usize, b_id: usize, trans_b: bool) -> (r: bool)
        requires
            self.wf(),
        ensures
            r == (match self.device {
                Device::Cpu => bmm_host_ok(*self, a_id, b_id, trans_b),
                Device::Gpu => numbered(*self) && bmm_device_ok(*self, a_id, b_id, trans_b),
            }),
    {
        if a_id >= self.tensors.len() || b_id >= self.tensors.len() {
            return false;
        }
        let d = match self.pairs_of(a_id, b_id, trans_b) {
            None => {
                return false;
            },
            Some(d) => d,
        };
        match self.device {
            Device::Cpu => {
                if !self.is_ready(a_id) || !self.is_ready(b_id) {
                    return false;
                }
                let a_len: usize = element_count(self.tensors[a_id].shape.as_slice());
                let b_len: usize = element_count(self.tensors[b_id].shape.as_slice());
                at_most(product_of_three(d.batch, d.m, d.k), a_len) && at_most(
                    product_of_three(d.batch, d.k, d.n),
                    b_len,
                ) && product_of_three(d.batch, d.m, d.n).is_some() && product_of_two(
                    d.m,
                    d.n,
                ).is_some()
            },
            Device::Gpu => self.numbers_left() && can_be_counted(
                of_three(d.batch, d.m, d.n).as_slice(),
            ) && can_be_counted(of_three(d.batch, d.m, d.k).as_slice()) && can_be_counted(
                of_three(d.batch, d.k, d.n).as_slice(),
            ) && product_of_two(d.batch, d.m).is_some() && product_of_two(d.batch, d.k).is_some()
                && tiles_can_be_counted(d.n, d.m) && self.is_operand(a_id) && self.is_operand(b_id),
        }
    }

    /// Whether a dimension can be reduced.
    pub fn can_reduce(&self, a_id: usize, dim: usize) -> (r: bool)
        requires
            self.wf(),
        ensures
            r == (match self.device {
                Device::Cpu => sum_host_ok(*self, a_id, dim) && max_host_ok(*self, a_id, dim),
                Device::Gpu => numbered(*self) && reduce_device_ok(*self, a_id, dim),
            }),
    {
        if a_id >= self.tensors.len() || dim >= self.tensors[a_id].shape.len() {
            return false;
        }
        assert(self.tensors@[a_id as int].shape_wf());
        let out = shape_without(&self.tensors[a_id].shape, dim);
        let counted: bool = can_be_counted(out.as_slice());
        match self.device {
            Device::Cpu => self.is_ready(a_id) && counted,
            Device::Gpu => self.numbers_left() && self.tensors[a_id].shape.len() <= 4 && counted
                && self.is_in_device_memory(a_id),
        }
    }

    fn rows_there(&self, a: usize) -> (r: bool)
        ensures
            r == rows_device_ok(*self, a),
            r ==> has_rows(shape_of(*self, a)),
    {
        if a >= self.tensors.len() {
            return false;
        }
        let n: usize = self.tensors[a].shape.len();
        n > 0 && self.tensors[a].shape[n - 1] > 0
    }

    /// Whether there are rows for a softmax.
    pub fn can_softmax(&self, a_id: usize) -> (r: bool)
        requires
            self.wf(),
        ensures
            r == (match self.device {
                Device::Cpu => softmax_host_ok(*self, a_id),
                Device::Gpu => numbered(*self) && softmax_device_ok(*self, a_id),
            }),
    {
        match self.device {
            Device::Cpu => self.is_ready(a_id) && self.rows_there(a_id),
            Device::Gpu => self.numbers_left() && self.rows_there(a_id) && self.kind_ensured(a_id)
                == self.kind_of_result(),
        }
    }

    fn targets_name_elements(&self, l: usize, targets: &[usize]) -> (r: bool)
        requires
            self.wf(),
            host_ready(*self, l),
        ensures
            r == loss_ok(shape_of(*self, l), targets@),
    {
        assert(self.tensors@[l as int].shape_wf());
        if self.tensors[l].shape.len() < 2 {
            return false;
        }
        let b: usize = self.tensors[l].shape[0];
        let c: usize = self.tensors[l].shape[1];
        let size: usize = element_count(self.tensors[l].shape.as_slice());
        let all: usize = match product_of_two(b, c) {
            None => {
                return false;
            },
            Some(x) => x,
        };
        if all > size || targets.len() < b {
            return false;
        }
        let mut r: usize = 0;
        while r < b
            invariant
                r <= b,
                b <= targets@.len(),
                all == b * c,
                shape_of(*self, l).len() >= 2,
                b == shape_of(*self, l)[0],
                c == shape_of(*self, l)[1],
                forall|i: int|
                    0 <= i < r ==> #[trigger] targets@[i] == IGNORE_INDEX || i * c + targets@[i]
                        < b * c,
            decreases b - r,
        {
            assert(r * c <= b * c) by (nonlinear_arith)
                requires
                    r < b,
            ;
            let at: usize = r * c;
            if targets[r] != IGNORE_INDEX && targets[r] >= all - at {
                assert(!targets_ok(targets@, b as int, c as int)) by {
                    assert(targets@[r as int] != IGNORE_INDEX && !(r * c + targets@[r as int] < b
                        * c));
                }
                return false;
            }
            r += 1;
        }
        true
    }

    /// Whether there is a loss over all targets.
    pub fn can_cross_entropy(&self, logits_id: usize, targets: &[usize]) -> (r: bool)
        requires
            self.wf(),
        ensures
            r == (match self.device {
                Device::Cpu => cross_entropy_host_ok(*self, logits_id, targets@),
                Device::Gpu => numbered(*self) && loss_device_ok(*self, logits_id),
            }),
    {
        match self.device {
            Device::Cpu => {
                if !self.is_ready(logits_id) || !self.targets_name_elements(logits_id, targets) {
                    return false;
                }
                let b: usize = self.tensors[logits_id].shape[0];
                let mut i: usize = 0;
                while i < b
                    invariant
                        i <= b,
                        b <= targets@.len(),
                        all_count(targets@, i as int),
                        self.device == Device::Cpu,
                        b == shape_of(*self, logits_id)[0],
                    decreases b - i,
                {
                    if targets[i] == IGNORE_INDEX {
                        assert(!all_count(targets@, b as int)) by {
                            assert(targets@[i as int] == IGNORE_INDEX);
                        }
                        return false;
                    }
                    i += 1;
                }
                true
            },
            Device::Gpu => self.logits_there(logits_id),
        }
    }

    fn logits_there(&self, l: usize) -> (r: bool)
        ensures
            r == (numbered(*self) && loss_device_ok(*self, l)),
    {
        self.numbers_left() && l < self.tensors.len() && self.tensors[l].shape.len() >= 2
            && product_of_two(self.tensors[l].shape[0], self.tensors[l].shape[1]).is_some()
            && self.is_in_device_memory(l)
    }

    /// Whether there is a loss over the targets that are not to be ignored.
    pub fn can_cross_entropy_masked(&self, logits_id: usize, targets: &[usize]) -> (r: bool)
        requires
            self.wf(),
        ensures
            r == (match self.device {
                Device::Cpu => cross_entropy_masked_host_ok(*self, logits_id, targets@),
                Device::Gpu => all_ignored(targets@) || (numbered(*self) && loss_device_ok(
                    *self,
                    logits_id,
                )),
            }),
    {
        if targets.len() > 0 && count_valid(targets) == 0 {
            return true;
        }
        match self.device {
            Device::Cpu => self.is_ready(logits_id) && self.targets_name_elements(
                logits_id,
                targets,
            ),
            Device::Gpu => self.logits_there(logits_id),
        }
    }

    fn moves(&self, a: usize) -> (r: bool)
        ensures
            r == (numbered(*self) && moving_ok(*self, a)),
    {
        self.numbers_left() && a < self.tensors.len() && self.kind_ensured(a)
            == self.kind_of_result()
    }

    /// Whether the two dimensions before the last can be exchanged.
    pub fn can_transpose_0213(&self, a_id: usize) -> (r: bool)
        requires
            self.wf(),
        ensures
            r == (match self.device {
                Device::Cpu => transpose_0213_host_ok(*self, a_id),
                Device::Gpu => numbered(*self) && transpose_0213_device_ok(*self, a_id),
            }),
    {
        let there: bool = match self.device {
            Device::Cpu => self.is_ready(a_id),
            Device::Gpu => self.moves(a_id),
        };
        if !there || self.tensors[a_id].shape.len() < 4 {
            return false;
        }
        let n: usize = self.tensors[a_id].shape.len();
        let lead = leading(&self.tensors[a_id].shape, n - 3);
        let out = swapped_shape(&self.tensors[a_id].shape);
        can_be_counted(lead.as_slice()) && can_be_counted(out.as_slice())
    }

    /// Whether rows can be gathered.
    pub fn can_gather(&self, weights_id: usize, indices_id: usize) -> (r: bool)
        requires
            self.wf(),
        ensures
            r == (match self.device {
                Device::Cpu => gather_host_ok(*self, weights_id, indices_id),
                Device::Gpu => numbered(*self) && gather_device_ok(*self, weights_id, indices_id),
            }),
    {
        if weights_id >= self.tensors.len() || indices_id >= self.tensors.len()
            || self.tensors[weights_id].shape.len() < 2 {
            return false;
        }
        let hidden: usize = self.tensors[weights_id].shape[1];
        let mut out = self.tensors[indices_id].shape.clone();
        out.push(hidden);
        assert(out@ == shape_of(*self, indices_id).push(hidden));
        if !can_be_counted(out.as_slice()) {
            return false;
        }
        match self.device {
            Device::Cpu => {
                if !self.is_ready(weights_id) || !self.is_ready(indices_id) {
                    return false;
                }
                let rows = rows_of(self.tensors[indices_id].data.as_cpu());
                let len: usize = self.tensors[weights_id].data.as_cpu().len();
                rows_lie_within(&rows, hidden, len)
            },
            Device::Gpu => {
                let count: usize = self.tensors[indices_id].data.len();
                let k = self.kind_now(weights_id);
                self.numbers_left() && product_of_two(count, hidden).is_some()
                    && self.is_in_device_memory(indices_id) && (k == StorageKind::Gpu || k
                    == StorageKind::GpuBf16)
            },
        }
    }

    /// Whether a tensor can be copied into another shape.
    pub fn can_reshape(&self, a_id: usize, new_shape: &Vec<usize>) -> (r: bool)
        requires
            self.wf(),
        ensures
            r == (match self.device {
                Device::Cpu => reshape_host_ok(*self, a_id, new_shape@),
                Device::Gpu => numbered(*self) && moving_ok(*self, a_id),
            }),
    {
        match self.device {
            Device::Cpu => self.is_ready(a_id) && can_be_counted(new_shape.as_slice()),
            Device::Gpu => self.moves(a_id),
        }
    }

    /// Whether a tensor can be rotated.
    pub fn can_rope(&self, a_id: usize, head_dim: usize) -> (r: bool)
        requires
            self.wf(),
        ensures
            r == (match self.device {
                Device::Cpu => rope_host_ok(*self, a_id, head_dim),
                Device::Gpu => numbered(*self) && rope_device_ok(*self, a_id),
            }),
    {
        match self.device {
            Device::Cpu => {
                if !self.is_ready(a_id) || self.tensors[a_id].shape.len() < 3 || head_dim == 0 {
                    return false;
                }
                let b: usize = self.tensors[a_id].shape[0];
                let s: usize = self.tensors[a_id].shape[1];
                let h: usize = self.tensors[a_id].shape[2];
                let size: usize = element_count(self.tensors[a_id].shape.as_slice());
                product_of_two(b, s).is_some() && at_most(product_of_three(b, s, h), size)
            },
            Device::Gpu => self.moves(a_id) && self.tensors[a_id].shape.len() >= 3
                && product_of_two(
                self.tensors[a_id].shape[0],
                self.tensors[a_id].shape[1],
            ).is_some(),
        }
    }

    /// Whether heads can be repeated.
    pub fn can_repeat_kv(&self, x_id: usize, repeats: usize) -> (r: bool)
        requires
            self.wf(),
        ensures
            r ==> (match self.device {
                Device::Cpu => repeat_kv_host_ok(*self, x_id, repeats),
                Device::Gpu => repeats != 1 ==> numbered(*self) && repeat_device_ok(
                    *self,
                    x_id,
                    repeats,
                ),
            }),
            self.device == Device::Cpu ==> r == repeat_kv_host_ok(*self, x_id, repeats),
            self.device == Device::Gpu && repeats != 1 ==> r == (numbered(*self)
                && repeat_device_ok(*self, x_id, repeats)),
            self.device == Device::Gpu && repeats == 1 ==> r == (numbered(*self) && moving_ok(
                *self,
                x_id,
            ) && shape_of(*self, x_id).len() == 4),
    {
        let there: bool = match self.device {
            Device::Cpu => self.is_ready(x_id),
            Device::Gpu => self.moves(x_id),
        };
        if !there || self.tensors[x_id].shape.len() != 4 {
            return false;
        }
        if repeats == 1 {
            return true;
        }
        let b: usize = self.tensors[x_id].shape[0];
        let kv: usize = self.tensors[x_id].shape[1];
        let s: usize = self.tensors[x_id].shape[2];
        let d: usize = self.tensors[x_id].shape[3];
        let heads: usize = match product_of_two(kv, repeats) {
            None => {
                return false;
            },
            Some(h) => h,
        };
        let mut out = of_three(b, heads, s);
        out.push(d);
        assert(out@ =~= repeat_shape(shape_of(*self, x_id), repeats));
        if !can_be_counted(out.as_slice()) {
            return false;
        }
        match self.device {
            Device::Cpu => {
                let head: usize = match product_of_two(s, d) {
                    None => {
                        return false;
                    },
                    Some(h) => h,
                };
                product_of_three(b, kv, head).is_some() && product_of_three(b, heads, head).is_some()
            },
            Device::Gpu => true,
        }
    }

    /// Whether rows can be normalised.
    pub fn can_rms_norm(&self, x_id: usize, weight_id: usize) -> (r: bool)
        requires
            self.wf(),
        ensures
            r == (match self.device {
                Device::Cpu => rms_norm_host_ok(*self, x_id, weight_id),
                Device::Gpu => numbered(*self) && rms_device_ok(*self, x_id, weight_id),
            }),
    {
        if !self.rows_there(x_id) || weight_id >= self.tensors.len() {
            return false;
        }
        match self.device {
            Device::Cpu => {
                if !self.is_ready(x_id) || !self.is_ready(weight_id) {
                    return false;
                }
                let n: usize = self.tensors[x_id].shape.len();
                let dim: usize = self.tensors[x_id].shape[n - 1];
                self.tensors[x_id].data.as_cpu().len() == 0
                    || self.tensors[weight_id].data.as_cpu().len() >= dim
            },
            Device::Gpu => {
                let both: bool = self.kind_ensured(x_id) == StorageKind::GpuBf16
                    && self.kind_ensured(weight_id) == StorageKind::GpuBf16;
                self.numbers_left() && both == self.uses_bf16_mixed_precision()
            },
        }
    }

    fn attends(&self, q: usize, k: usize, v: usize) -> (r: bool)
        requires
            q < self.tensors@.len(),
            k < self.tensors@.len(),
            v < self.tensors@.len(),
        ensures
            r == flash_ok(shape_of(*self, q), shape_of(*self, k), shape_of(*self, v)),
    {
        let (sq, sk, sv) = (&self.tensors[q].shape, &self.tensors[k].shape, &self.tensors[v].shape);
        sq.len() == 3 && sk.len() == 3 && sv.len() == 3 && sk[0] == sq[0] && sv[0] == sq[0] && sk[2]
            == sq[2] && sv[1] == sk[1] && sv[2] == sq[2] && sq[2] <= 256
    }

    /// Whether attention can be done in one pass.
    pub fn can_flash_attention(&self, q_id: usize, k_id: usize, v_id: usize) -> (r: bool)
        requires
            self.wf(),
        ensures
            r == (match self.device {
                Device::Cpu => flash_attention_host_ok(*self, q_id, k_id, v_id),
                Device::Gpu => numbered(*self) && self.no_grad && flash_device_ok(
                    *self,
                    q_id,
                    k_id,
                    v_id,
                ),
            }),
    {
        if !self.no_grad || q_id >= self.tensors.len() || k_id >= self.tensors.len() || v_id
            >= self.tensors.len() || !self.attends(q_id, k_id, v_id) {
            return false;
        }
        match self.device {
            Device::Cpu => self.is_ready(q_id) && self.is_ready(k_id) && self.is_ready(v_id),
            Device::Gpu => self.numbers_left() && product_of_two(
                self.tensors[q_id].shape[0],
                self.tensors[q_id].shape[1],
            ).is_some() && self.is_in_device_memory(q_id) && self.is_in_device_memory(k_id)
                && self.is_in_device_memory(v_id),
        }
    }

    /// Whether a tensor can be given another shape in place.
    pub fn can_reinterpret(&self, tensor_id: usize, new_shape: &Vec<usize>) -> (r: bool)
        requires
            self.wf(),
        ensures
            r == (tensor_id < self.tensors@.len() && shape_fits(new_shape@) && product(
                shape_of(*self, tensor_id),
            ) == product(new_shape@)),
    {
        if tensor_id >= self.tensors.len() || !can_be_counted(new_shape.as_slice()) {
            return false;
        }
        assert(self.tensors@[tensor_id as int].shape_wf());
        element_count(self.tensors[tensor_id].shape.as_slice()) == element_count(
            new_shape.as_slice(),
        )
    }
}

fn rows_lie_within(rows: &Vec<usize>, hidden: usize, len: usize) -> (r: bool)
    ensures
        r == rows_ok(rows@, hidden as int, len as nat),
{
    let mut i: usize = 0;
    while i < rows.len()
        invariant
            i <= rows@.len(),
            rows_ok(rows@.take(i as int), hidden as int, len as nat),
        decreases rows@.len() - i,
    {
        let row: usize = rows[i];
        let inside: bool = if hidden == 0 {
            assert((row + 1) * 0 == 0);
            true
        } else if row == usize::MAX {
            assert((row + 1) * hidden > usize::MAX) by (nonlinear_arith)
                requires
                    row == usize::MAX,
                    hidden >= 1,
            ;
            false
        } else {
            at_most(product_of_two(row + 1, hidden), len)
        };
        assert(inside == ((rows@[i as int] + 1) * hidden <= len));
        if !inside {
            assert(!rows_ok(rows@, hidden as int, len as nat)) by {
                let j = i as int;
                assert(!((rows@[j] + 1) * hidden <= len));
            }
            return false;
        }
        assert forall|j: int| 0 <= j < i + 1 implies (#[trigger] rows@.take(i + 1)[j] + 1) * hidden
            <= len by {
            if j < i {
                assert(rows@.take(i as int)[j] == rows@[j]);
            }
        }
        i += 1;
    }
    assert(rows@.take(rows@.len() as int) =~= rows@);
    true
}

} // verus!
