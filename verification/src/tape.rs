//! The tape on which operations are recorded.
use crate::graph::kernel::Kernel;
use crate::graph::ops::elementwise::Pairwise;
use crate::graph::ops::gqa::RepeatDims;
use crate::graph::ops::linear::BmmDims;
use crate::graph::ops::reduction::RowWeight;
use crate::graph::ops::transform::RopeDims;
use vstd::prelude::*;

verus! {

/// Three sizes or strides.
#[derive(Clone, Copy, Debug, PartialEq, Eq, Structural)]
pub struct Dims3 {
    pub d0: u64,
    pub d1: u64,
    pub d2: u64,
}

/// The sizes of a reduction on the device.
#[derive(Clone, Copy, Debug, PartialEq, Eq, Structural)]
pub struct ReduceDims {
    pub out_size: usize,
    pub reduced_size: u64,
    pub reduced_stride: u64,
    pub rank: u64,
    pub out: Dims3,
    pub strides: Dims3,
}

/// The sizes of a product of an `m` by `k` and a `k` by `n` matrix.
#[derive(Clone, Copy, Debug, PartialEq, Eq, Structural)]
pub struct MatmulDims {
    pub m: usize,
    pub k: usize,
    pub n: usize,
}

/// An operation on the device, with what its way back needs.
#[allow(inconsistent_fields)]
pub enum DeviceOp<T> {
    Add { n: usize, rank: u64, shape: Dims3, a: Dims3, b: Dims3 },
    Mul { n: usize, back: Kernel },
    Silu { n: usize, half: bool },
    Matmul { dims: MatmulDims, back_a: Kernel },
    MatmulTransB { dims: MatmulDims },
    MatmulBf16 { dims: MatmulDims },
    Streamed { dims: MatmulDims, back_a: Kernel },
    StreamedTransB { dims: MatmulDims },
    Bmm { dims: BmmDims },
    Sum { dims: ReduceDims },
    Max { dims: ReduceDims, size: usize },
    Softmax { rows: u64, n: u64, back: Kernel },
    CrossEntropy { batch: usize, classes: usize, normalizer: Option<T> },
    Transpose0213 { b: usize, s: usize, h: usize, d: usize },
    Gather { hidden: usize, indices: usize, out_size: usize },
    Reshape { n: usize },
    Rope { dims: RopeDims, pairs: usize },
    RepeatKv { dims: RepeatDims, back: Kernel, size: usize },
    RmsNorm { dim: usize, rows: usize, eps: T, back: Kernel },
}

impl<T: Copy> Clone for DeviceOp<T> {
    fn clone(&self) -> (r: Self)
        ensures
            r == *self,
    {
        *self
    }
}

impl<T: Copy> Copy for DeviceOp<T> {

}

/// An operation, with the values that its way back needs.
#[allow(inconsistent_fields)]
pub enum Op<T> {
    Pairwise {
        op: Pairwise,
        a_shape: Vec<usize>,
        b_shape: Vec<usize>,
        a_fwd: Vec<T>,
        b_fwd: Vec<T>,
    },
    Silu { a_fwd: Vec<T> },
    Matmul { a_fwd: Vec<T>, b_fwd: Vec<T>, m: usize, k: usize, n: usize },
    Bmm { a_fwd: Vec<T>, b_fwd: Vec<T>, dims: BmmDims },
    Sum { shape: Vec<usize>, dim: usize },
    Max { at: Vec<usize> },
    Softmax { out_fwd: Vec<T>, b: usize, n: usize },
    CrossEntropy {
        probs: Vec<T>,
        targets: Vec<usize>,
        b: usize,
        c: usize,
        weight: RowWeight<T>,
    },
    Transpose0213 { b: usize, s: usize, h: usize, d: usize },
    Gather { rows: Vec<usize>, hidden: usize },
    Reshape,
    Transpose { strides: Vec<usize> },
    Rope { dims: RopeDims },
    RepeatKv { dims: RepeatDims },
    RmsNorm { x_fwd: Vec<T>, w_fwd: Vec<T>, rrms: Vec<T>, n: usize, dim: usize },
    Device(DeviceOp<T>),
}

/// A recorded operation: the tensors that it read, the one that it made, and what it did.
pub struct TapeNode<T> {
    pub inputs: Vec<usize>,
    pub output: usize,
    pub op: Op<T>,
}

/// The operations in the order in which they were done.
pub struct Tape<T> {
    pub nodes: Vec<TapeNode<T>>,
}

impl<T> Tape<T> {
    /// A tape without operations.
    pub fn new() -> (r: Self)
        ensures
            r.nodes@.len() == 0,
    {
        Tape { nodes: Vec::new() }
    }
}

} // verus!
