//! What is to be done on the device, step by step.
use crate::graph::kernel::Kernel;
use crate::graph::launch::LaunchDims;
use vstd::prelude::*;

verus! {

/// An argument of a kernel.
pub enum Arg<T> {
    /// The elements of a tensor.
    Data(usize),
    /// The gradient of a tensor.
    Grad(usize),
    /// The copy in full precision of the elements of a tensor.
    Cast(usize),
    /// The copy on the device of elements that stay on the host.
    Upload(usize),
    /// The targets that belong to a loss.
    Targets(usize),
    /// The buffer for a gradient that goes back to the host.
    GradTemp,
    /// The running mean of the gradient of a parameter.
    Mean(usize),
    /// The running mean of its squares.
    Squares(usize),
    Size(u64),
    Int(i32),
    Flag(bool),
    Real(T),
    Half(u16),
}

impl<T: Copy> Clone for Arg<T> {
    fn clone(&self) -> (r: Self)
        ensures
            r == *self,
    {
        *self
    }
}

impl<T: Copy> Copy for Arg<T> {

}

/// A name for a result.
#[derive(Clone, Copy, Debug, PartialEq, Eq, Structural)]
pub enum Label {
    Add,
    Mul,
    Silu,
    Sum,
    Max,
    Softmax,
    CrossEntropy,
    CrossEntropyMasked,
    RmsNorm,
    RepeatKv,
    FlashAttention,
}

impl Label {
    pub open spec fn words(self) -> Seq<char> {
        match self {
            Label::Add => "add_output"@,
            Label::Mul => "mul_output"@,
            Label::Silu => "silu_output"@,
            Label::Sum => "sum_output"@,
            Label::Max => "max_output"@,
            Label::Softmax => "softmax_output"@,
            Label::CrossEntropy => "cross_entropy_output"@,
            Label::CrossEntropyMasked => "cross_entropy_masked_output"@,
            Label::RmsNorm => "rmsnorm_output"@,
            Label::RepeatKv => "gqa_output"@,
            Label::FlashAttention => "flash_attention_output"@,
        }
    }

    /// The name in words.
    pub fn text(self) -> (r: &'static str)
        ensures
            r@ == self.words(),
    {
        match self {
            Label::Add => "add_output",
            Label::Mul => "mul_output",
            Label::Silu => "silu_output",
            Label::Sum => "sum_output",
            Label::Max => "max_output",
            Label::Softmax => "softmax_output",
            Label::CrossEntropy => "cross_entropy_output",
            Label::CrossEntropyMasked => "cross_entropy_masked_output",
            Label::RmsNorm => "rmsnorm_output",
            Label::RepeatKv => "gqa_output",
            Label::FlashAttention => "flash_attention_output",
        }
    }
}

/// One step of work on the device.
pub enum Step<T> {
    /// Allocate the result from the pool.
    AllocOut,
    /// Name the result.
    NameOut(Label),
    /// Allocate a tensor in full precision behind the result, for it to be computed in.
    AllocScratch(usize),
    /// Copy the elements of a tensor in full precision, making room where there is none.
    CastIn { id: usize, size: usize },
    /// Copy the elements of a tensor in full precision.
    CastTemp { id: usize, size: usize },
    /// Bring a tensor to the device.
    Ensure(usize),
    /// Copy elements that are on the host to the device, in full precision.
    UploadFull(usize),
    /// Copy elements that are on the host to the device, each cut to an integer of 16 bits.
    UploadInt(usize),
    /// Copy the targets of a loss to the device.
    UploadTargets,
    /// Start the launch of a kernel.
    Begin(Kernel),
    /// Give the kernel an argument.
    Push(Arg<T>),
    /// Launch the kernel.
    Launch(LaunchDims),
    /// Wait until all launches are done.
    Sync,
    /// Free the copies of elements on the host.
    DropUpload,
    /// Round the scratch tensor to the result and wait for it.
    CastOut(usize),
    /// Free the scratch tensor.
    DropScratch,
    /// Allocate the buffer for a gradient that goes back to the host.
    AllocGradTemp(usize),
    /// Add that buffer to the gradient of a tensor on the host, and free it.
    FetchGradTemp(usize),
    /// Record the operation on the tape.
    Record,
}

impl<T: Copy> Clone for Step<T> {
    fn clone(&self) -> (r: Self)
        ensures
            r == *self,
    {
        *self
    }
}

impl<T: Copy> Copy for Step<T> {

}

/// `s` and the launch of a kernel.
pub open spec fn call_steps<T>(
    s: Seq<Step<T>>,
    k: Kernel,
    args: Seq<Arg<T>>,
    dims: LaunchDims,
) -> Seq<
    Step<T>,
> {
    s.push(Step::Begin(k)) + args.map_values(|a: Arg<T>| Step::Push(a)) + seq![Step::Launch(dims)]
}

/// `s` and `step`, where `yes`.
pub open spec fn step_if<T>(s: Seq<Step<T>>, yes: bool, step: Step<T>) -> Seq<Step<T>> {
    if yes {
        s.push(step)
    } else {
        s
    }
}

/// Adds the launch of a kernel.
pub fn call<T: Copy>(s: &mut Vec<Step<T>>, k: Kernel, args: &Vec<Arg<T>>, dims: LaunchDims)
    ensures
        final(s)@ == call_steps(old(s)@, k, args@, dims),
{
    let ghost before = s@.push(Step::Begin(k));
    let ghost mapped = args@.map_values(|a: Arg<T>| Step::Push(a));
    s.push(Step::Begin(k));
    let mut i: usize = 0;
    while i < args.len()
        invariant
            i <= args@.len(),
            mapped == args@.map_values(|a: Arg<T>| Step::Push(a)),
            s@ == before + mapped.take(i as int),
        decreases args@.len() - i,
    {
        s.push(Step::Push(args[i]));
        assert(s@ =~= before + mapped.take(i + 1));
        i += 1;
    }
    s.push(Step::Launch(dims));
    assert(mapped.take(args@.len() as int) =~= mapped);
    assert(s@ =~= before + mapped + seq![Step::Launch(dims)]);
}

/// Adds `step`, where `yes`.
pub fn push_if<T: Copy>(s: &mut Vec<Step<T>>, yes: bool, step: Step<T>)
    ensures
        final(s)@ == step_if(old(s)@, yes, step),
{
    if yes {
        s.push(step);
    }
}

} // verus!
