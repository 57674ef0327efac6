//! The device kernels and how they are found.
use vstd::prelude::*;

verus! {

/// A kernel of the device modules.
#[derive(Clone, Copy, Debug, PartialEq, Eq, Structural)]
pub enum Kernel {
    AddF32,
    FillF32,
    ScaleF32,
    AccumulateF32,
    MulF32,
    MulBackwardF32,
    MatmulF32,
    MatmulBackwardAF32,
    MatmulBackwardBF32,
    MatmulTransAF32,
    MatmulTransBF32,
    SiluF32,
    SiluBackwardF32,
    GatherF32,
    GatherBackwardF32,
    RmsnormF32,
    RmsnormBackwardF32,
    CopyF32,
    CrossEntropyF32,
    CrossEntropyBackwardF32,
    CrossEntropyMaskedF32,
    CrossEntropyMaskedBackwardF32,
    SumF32,
    SumBackwardF32,
    MaxF32,
    MaxBackwardF32,
    BmmF32,
    BmmBackwardAF32,
    BmmBackwardBF32,
    BmmBackwardATransbF32,
    BmmBackwardBTransbF32,
    SoftmaxF32,
    SoftmaxBackwardF32,
    FlashAttentionF32,
    Transpose0213F32,
    Transpose0213BackwardF32,
    RopeF32,
    RopeBackwardF32,
    RepeatKvF32,
    RepeatKvBackwardF32,
    AdamwStepF32,
    CastF32ToBf16,
    CastBf16ToF32,
    CastBf16ToF32Accumulate,
    ScaleBf16,
    MatmulBf16F32,
    MatmulF32Bf16accumF32,
    MatmulF32Bf16rhsaccumF32,
    MatmulBackwardABf16bF32,
    MatmulTransBBf16,
    MatmulTransABf16,
    MatmulBf16,
    MatmulBackwardABf16,
    MatmulBackwardBBf16,
    BmmBf16,
    BmmF32Bf16accumF32,
    BmmBackwardABf16,
    BmmBackwardAF32ToBf16,
    BmmBackwardATransbBf16,
    BmmBackwardATransbF32goF32bBf16ga,
    BmmBackwardBTransbBf16aF32goF32gb,
    BmmBackwardBBf16,
    BmmBackwardBTransbBf16,
    BmmBackwardBBf16aF32goF32gb,
    GatherBf16F32,
    GatherBf16Bf16out,
    GatherBackwardBf16,
    RmsnormF32Bf16w,
    RmsnormBackwardBf16wF32,
    RmsnormBf16,
    RmsnormBackwardBf16inF32,
    RmsnormBackwardBf16,
    AdamwStepBf16momF32,
    AdamwStepBf16wBf16momF32,
    AdamwStepBf16mom,
    AddBf16,
    AddBf16lhsF32rhsBf16out,
    AccumulateBf16out,
    AccumulateBf16,
    MulBf16,
    MulBf16lhsF32rhsBf16out,
    MulBackwardBf16inF32,
    MulBackwardBf16lhsF32rhs,
    MulBackwardBf16,
    SiluBf16,
    SiluBackwardBf16inF32,
    SiluBackwardBf16,
    SumBf16,
    SumBackwardBf16,
    MaxBf16,
    MaxBackwardBf16,
    SoftmaxBf16,
    SoftmaxBackwardBf16inF32,
    SoftmaxBackwardBf16,
    CopyBf16,
    Transpose0213Bf16,
    Transpose0213BackwardBf16,
    RopeBf16,
    RopeBackwardBf16,
    BmmF32Bf16out,
    MatmulF32Bf16out,
    RepeatKvBf16,
    RepeatKvBackwardBf16,
    CrossEntropyBf16,
    CrossEntropyBackwardBf16,
    FillBf16,
}

/// The device modules.
#[derive(Clone, Copy, Debug, PartialEq, Eq, Structural)]
pub enum DeviceModule {
    Full,
    Half,
}

impl Kernel {
    /// The symbol of the kernel.
    pub open spec fn symbol(self) -> Seq<char> {
        match self {
            Kernel::AddF32 => "add_f32"@,
            Kernel::FillF32 => "fill_f32"@,
            Kernel::ScaleF32 => "scale_f32"@,
            Kernel::AccumulateF32 => "accumulate_f32"@,
            Kernel::MulF32 => "mul_f32"@,
            Kernel::MulBackwardF32 => "mul_backward_f32"@,
            Kernel::MatmulF32 => "matmul_f32"@,
            Kernel::MatmulBackwardAF32 => "matmul_backward_a_f32"@,
            Kernel::MatmulBackwardBF32 => "matmul_backward_b_f32"@,
            Kernel::MatmulTransAF32 => "matmul_trans_a_f32"@,
            Kernel::MatmulTransBF32 => "matmul_trans_b_f32"@,
            Kernel::SiluF32 => "silu_f32"@,
            Kernel::SiluBackwardF32 => "silu_backward_f32"@,
            Kernel::GatherF32 => "gather_f32"@,
            Kernel::GatherBackwardF32 => "gather_backward_f32"@,
            Kernel::RmsnormF32 => "rmsnorm_f32"@,
            Kernel::RmsnormBackwardF32 => "rmsnorm_backward_f32"@,
            Kernel::CopyF32 => "copy_f32"@,
            Kernel::CrossEntropyF32 => "cross_entropy_f32"@,
            Kernel::CrossEntropyBackwardF32 => "cross_entropy_backward_f32"@,
            Kernel::CrossEntropyMaskedF32 => "cross_entropy_masked_f32"@,
            Kernel::CrossEntropyMaskedBackwardF32 => "cross_entropy_masked_backward_f32"@,
            Kernel::SumF32 => "sum_f32"@,
            Kernel::SumBackwardF32 => "sum_backward_f32"@,
            Kernel::MaxF32 => "max_f32"@,
            Kernel::MaxBackwardF32 => "max_backward_f32"@,
            Kernel::BmmF32 => "bmm_f32"@,
            Kernel::BmmBackwardAF32 => "bmm_backward_a_f32"@,
            Kernel::BmmBackwardBF32 => "bmm_backward_b_f32"@,
            Kernel::BmmBackwardATransbF32 => "bmm_backward_a_transb_f32"@,
            Kernel::BmmBackwardBTransbF32 => "bmm_backward_b_transb_f32"@,
            Kernel::SoftmaxF32 => "softmax_f32"@,
            Kernel::SoftmaxBackwardF32 => "softmax_backward_f32"@,
            Kernel::FlashAttentionF32 => "flash_attention_f32"@,
            Kernel::Transpose0213F32 => "transpose_0213_f32"@,
            Kernel::Transpose0213BackwardF32 => "transpose_0213_backward_f32"@,
            Kernel::RopeF32 => "rope_f32"@,
            Kernel::RopeBackwardF32 => "rope_backward_f32"@,
            Kernel::RepeatKvF32 => "repeat_kv_f32"@,
            Kernel::RepeatKvBackwardF32 => "repeat_kv_backward_f32"@,
            Kernel::AdamwStepF32 => "adamw_step_f32"@,
            Kernel::CastF32ToBf16 => "cast_f32_to_bf16"@,
            Kernel::CastBf16ToF32 => "cast_bf16_to_f32"@,
            Kernel::CastBf16ToF32Accumulate => "cast_bf16_to_f32_accumulate"@,
            Kernel::ScaleBf16 => "scale_bf16"@,
            Kernel::MatmulBf16F32 => "matmul_bf16_f32"@,
            Kernel::MatmulF32Bf16accumF32 => "matmul_f32_bf16accum_f32"@,
            Kernel::MatmulF32Bf16rhsaccumF32 => "matmul_f32_bf16rhsaccum_f32"@,
            Kernel::MatmulBackwardABf16bF32 => "matmul_backward_a_bf16b_f32"@,
            Kernel::MatmulTransBBf16 => "matmul_trans_b_bf16"@,
            Kernel::MatmulTransABf16 => "matmul_trans_a_bf16"@,
            Kernel::MatmulBf16 => "matmul_bf16"@,
            Kernel::MatmulBackwardABf16 => "matmul_backward_a_bf16"@,
            Kernel::MatmulBackwardBBf16 => "matmul_backward_b_bf16"@,
            Kernel::BmmBf16 => "bmm_bf16"@,
            Kernel::BmmF32Bf16accumF32 => "bmm_f32_bf16accum_f32"@,
            Kernel::BmmBackwardABf16 => "bmm_backward_a_bf16"@,
            Kernel::BmmBackwardAF32ToBf16 => "bmm_backward_a_f32_to_bf16"@,
            Kernel::BmmBackwardATransbBf16 => "bmm_backward_a_transb_bf16"@,
            Kernel::BmmBackwardATransbF32goF32bBf16ga => "bmm_backward_a_transb_f32go_f32b_bf16ga"@,
            Kernel::BmmBackwardBTransbBf16aF32goF32gb => "bmm_backward_b_transb_bf16a_f32go_f32gb"@,
            Kernel::BmmBackwardBBf16 => "bmm_backward_b_bf16"@,
            Kernel::BmmBackwardBTransbBf16 => "bmm_backward_b_transb_bf16"@,
            Kernel::BmmBackwardBBf16aF32goF32gb => "bmm_backward_b_bf16a_f32go_f32gb"@,
            Kernel::GatherBf16F32 => "gather_bf16_f32"@,
            Kernel::GatherBf16Bf16out => "gather_bf16_bf16out"@,
            Kernel::GatherBackwardBf16 => "gather_backward_bf16"@,
            Kernel::RmsnormF32Bf16w => "rmsnorm_f32_bf16w"@,
            Kernel::RmsnormBackwardBf16wF32 => "rmsnorm_backward_bf16w_f32"@,
            Kernel::RmsnormBf16 => "rmsnorm_bf16"@,
            Kernel::RmsnormBackwardBf16inF32 => "rmsnorm_backward_bf16in_f32"@,
            Kernel::RmsnormBackwardBf16 => "rmsnorm_backward_bf16"@,
            Kernel::AdamwStepBf16momF32 => "adamw_step_bf16mom_f32"@,
            Kernel::AdamwStepBf16wBf16momF32 => "adamw_step_bf16w_bf16mom_f32"@,
            Kernel::AdamwStepBf16mom => "adamw_step_bf16mom"@,
            Kernel::AddBf16 => "add_bf16"@,
            Kernel::AddBf16lhsF32rhsBf16out => "add_bf16lhs_f32rhs_bf16out"@,
            Kernel::AccumulateBf16out => "accumulate_bf16out"@,
            Kernel::AccumulateBf16 => "accumulate_bf16"@,
            Kernel::MulBf16 => "mul_bf16"@,
            Kernel::MulBf16lhsF32rhsBf16out => "mul_bf16lhs_f32rhs_bf16out"@,
            Kernel::MulBackwardBf16inF32 => "mul_backward_bf16in_f32"@,
            Kernel::MulBackwardBf16lhsF32rhs => "mul_backward_bf16lhs_f32rhs"@,
            Kernel::MulBackwardBf16 => "mul_backward_bf16"@,
            Kernel::SiluBf16 => "silu_bf16"@,
            Kernel::SiluBackwardBf16inF32 => "silu_backward_bf16in_f32"@,
            Kernel::SiluBackwardBf16 => "silu_backward_bf16"@,
            Kernel::SumBf16 => "sum_bf16"@,
            Kernel::SumBackwardBf16 => "sum_backward_bf16"@,
            Kernel::MaxBf16 => "max_bf16"@,
            Kernel::MaxBackwardBf16 => "max_backward_bf16"@,
            Kernel::SoftmaxBf16 => "softmax_bf16"@,
            Kernel::SoftmaxBackwardBf16inF32 => "softmax_backward_bf16in_f32"@,
            Kernel::SoftmaxBackwardBf16 => "softmax_backward_bf16"@,
            Kernel::CopyBf16 => "copy_bf16"@,
            Kernel::Transpose0213Bf16 => "transpose_0213_bf16"@,
            Kernel::Transpose0213BackwardBf16 => "transpose_0213_backward_bf16"@,
            Kernel::RopeBf16 => "rope_bf16"@,
            Kernel::RopeBackwardBf16 => "rope_backward_bf16"@,
            Kernel::BmmF32Bf16out => "bmm_f32_bf16out"@,
            Kernel::MatmulF32Bf16out => "matmul_f32_bf16out"@,
            Kernel::RepeatKvBf16 => "repeat_kv_bf16"@,
            Kernel::RepeatKvBackwardBf16 => "repeat_kv_backward_bf16"@,
            Kernel::CrossEntropyBf16 => "cross_entropy_bf16"@,
            Kernel::CrossEntropyBackwardBf16 => "cross_entropy_backward_bf16"@,
            Kernel::FillBf16 => "fill_bf16"@,
        }
    }

    /// The number of the kernel in the load list.
    pub open spec fn index(self) -> int {
        match self {
            Kernel::AddF32 => 0,
            Kernel::FillF32 => 1,
            Kernel::ScaleF32 => 2,
            Kernel::AccumulateF32 => 3,
            Kernel::MulF32 => 4,
            Kernel::MulBackwardF32 => 5,
            Kernel::MatmulF32 => 6,
            Kernel::MatmulBackwardAF32 => 7,
            Kernel::MatmulBackwardBF32 => 8,
            Kernel::MatmulTransAF32 => 9,
            Kernel::MatmulTransBF32 => 10,
            Kernel::SiluF32 => 11,
            Kernel::SiluBackwardF32 => 12,
            Kernel::GatherF32 => 13,
            Kernel::GatherBackwardF32 => 14,
            Kernel::RmsnormF32 => 15,
            Kernel::RmsnormBackwardF32 => 16,
            Kernel::CopyF32 => 17,
            Kernel::CrossEntropyF32 => 18,
            Kernel::CrossEntropyBackwardF32 => 19,
            Kernel::CrossEntropyMaskedF32 => 20,
            Kernel::CrossEntropyMaskedBackwardF32 => 21,
            Kernel::SumF32 => 22,
            Kernel::SumBackwardF32 => 23,
            Kernel::MaxF32 => 24,
            Kernel::MaxBackwardF32 => 25,
            Kernel::BmmF32 => 26,
            Kernel::BmmBackwardAF32 => 27,
            Kernel::BmmBackwardBF32 => 28,
            Kernel::BmmBackwardATransbF32 => 29,
            Kernel::BmmBackwardBTransbF32 => 30,
            Kernel::SoftmaxF32 => 31,
            Kernel::SoftmaxBackwardF32 => 32,
            Kernel::FlashAttentionF32 => 33,
            Kernel::Transpose0213F32 => 34,
            Kernel::Transpose0213BackwardF32 => 35,
            Kernel::RopeF32 => 36,
            Kernel::RopeBackwardF32 => 37,
            Kernel::RepeatKvF32 => 38,
            Kernel::RepeatKvBackwardF32 => 39,
            Kernel::AdamwStepF32 => 40,
            Kernel::CastF32ToBf16 => 41,
            Kernel::CastBf16ToF32 => 42,
            Kernel::CastBf16ToF32Accumulate => 43,
            Kernel::ScaleBf16 => 44,
            Kernel::MatmulBf16F32 => 45,
            Kernel::MatmulF32Bf16accumF32 => 46,
            Kernel::MatmulF32Bf16rhsaccumF32 => 47,
            Kernel::MatmulBackwardABf16bF32 => 48,
            Kernel::MatmulTransBBf16 => 49,
            Kernel::MatmulTransABf16 => 50,
            Kernel::MatmulBf16 => 51,
            Kernel::MatmulBackwardABf16 => 52,
            Kernel::MatmulBackwardBBf16 => 53,
            Kernel::BmmBf16 => 54,
            Kernel::BmmF32Bf16accumF32 => 55,
            Kernel::BmmBackwardABf16 => 56,
            Kernel::BmmBackwardAF32ToBf16 => 57,
            Kernel::BmmBackwardATransbBf16 => 58,
            Kernel::BmmBackwardATransbF32goF32bBf16ga => 59,
            Kernel::BmmBackwardBTransbBf16aF32goF32gb => 60,
            Kernel::BmmBackwardBBf16 => 61,
            Kernel::BmmBackwardBTransbBf16 => 62,
            Kernel::BmmBackwardBBf16aF32goF32gb => 63,
            Kernel::GatherBf16F32 => 64,
            Kernel::GatherBf16Bf16out => 65,
            Kernel::GatherBackwardBf16 => 66,
            Kernel::RmsnormF32Bf16w => 67,
            Kernel::RmsnormBackwardBf16wF32 => 68,
            Kernel::RmsnormBf16 => 69,
            Kernel::RmsnormBackwardBf16inF32 => 70,
            Kernel::RmsnormBackwardBf16 => 71,
            Kernel::AdamwStepBf16momF32 => 72,
            Kernel::AdamwStepBf16wBf16momF32 => 73,
            Kernel::AdamwStepBf16mom => 74,
            Kernel::AddBf16 => 75,
            Kernel::AddBf16lhsF32rhsBf16out => 76,
            Kernel::AccumulateBf16out => 77,
            Kernel::AccumulateBf16 => 78,
            Kernel::MulBf16 => 79,
            Kernel::MulBf16lhsF32rhsBf16out => 80,
            Kernel::MulBackwardBf16inF32 => 81,
            Kernel::MulBackwardBf16lhsF32rhs => 82,
            Kernel::MulBackwardBf16 => 83,
            Kernel::SiluBf16 => 84,
            Kernel::SiluBackwardBf16inF32 => 85,
            Kernel::SiluBackwardBf16 => 86,
            Kernel::SumBf16 => 87,
            Kernel::SumBackwardBf16 => 88,
            Kernel::MaxBf16 => 89,
            Kernel::MaxBackwardBf16 => 90,
            Kernel::SoftmaxBf16 => 91,
            Kernel::SoftmaxBackwardBf16inF32 => 92,
            Kernel::SoftmaxBackwardBf16 => 93,
            Kernel::CopyBf16 => 94,
            Kernel::Transpose0213Bf16 => 95,
            Kernel::Transpose0213BackwardBf16 => 96,
            Kernel::RopeBf16 => 97,
            Kernel::RopeBackwardBf16 => 98,
            Kernel::BmmF32Bf16out => 99,
            Kernel::MatmulF32Bf16out => 100,
            Kernel::RepeatKvBf16 => 101,
            Kernel::RepeatKvBackwardBf16 => 102,
            Kernel::CrossEntropyBf16 => 103,
            Kernel::CrossEntropyBackwardBf16 => 104,
            Kernel::FillBf16 => 105,
        }
    }

    /// The module that holds the kernel: the first 41 are those for full precision.
    pub open spec fn home(self) -> DeviceModule {
        if self.index() < 41 {
            DeviceModule::Full
        } else {
            DeviceModule::Half
        }
    }

    /// The symbol by which the kernel is loaded.
    pub fn name(self) -> (r: &'static str)
        ensures
            r@ == self.symbol(),
    {
        match self {
            Kernel::AddF32 => "add_f32",
            Kernel::FillF32 => "fill_f32",
            Kernel::ScaleF32 => "scale_f32",
            Kernel::AccumulateF32 => "accumulate_f32",
            Kernel::MulF32 => "mul_f32",
            Kernel::MulBackwardF32 => "mul_backward_f32",
            Kernel::MatmulF32 => "matmul_f32",
            Kernel::MatmulBackwardAF32 => "matmul_backward_a_f32",
            Kernel::MatmulBackwardBF32 => "matmul_backward_b_f32",
            Kernel::MatmulTransAF32 => "matmul_trans_a_f32",
            Kernel::MatmulTransBF32 => "matmul_trans_b_f32",
            Kernel::SiluF32 => "silu_f32",
            Kernel::SiluBackwardF32 => "silu_backward_f32",
            Kernel::GatherF32 => "gather_f32",
            Kernel::GatherBackwardF32 => "gather_backward_f32",
            Kernel::RmsnormF32 => "rmsnorm_f32",
            Kernel::RmsnormBackwardF32 => "rmsnorm_backward_f32",
            Kernel::CopyF32 => "copy_f32",
            Kernel::CrossEntropyF32 => "cross_entropy_f32",
            Kernel::CrossEntropyBackwardF32 => "cross_entropy_backward_f32",
            Kernel::CrossEntropyMaskedF32 => "cross_entropy_masked_f32",
            Kernel::CrossEntropyMaskedBackwardF32 => "cross_entropy_masked_backward_f32",
            Kernel::SumF32 => "sum_f32",
            Kernel::SumBackwardF32 => "sum_backward_f32",
            Kernel::MaxF32 => "max_f32",
            Kernel::MaxBackwardF32 => "max_backward_f32",
            Kernel::BmmF32 => "bmm_f32",
            Kernel::BmmBackwardAF32 => "bmm_backward_a_f32",
            Kernel::BmmBackwardBF32 => "bmm_backward_b_f32",
            Kernel::BmmBackwardATransbF32 => "bmm_backward_a_transb_f32",
            Kernel::BmmBackwardBTransbF32 => "bmm_backward_b_transb_f32",
            Kernel::SoftmaxF32 => "softmax_f32",
            Kernel::SoftmaxBackwardF32 => "softmax_backward_f32",
            Kernel::FlashAttentionF32 => "flash_attention_f32",
            Kernel::Transpose0213F32 => "transpose_0213_f32",
            Kernel::Transpose0213BackwardF32 => "transpose_0213_backward_f32",
            Kernel::RopeF32 => "rope_f32",
            Kernel::RopeBackwardF32 => "rope_backward_f32",
            Kernel::RepeatKvF32 => "repeat_kv_f32",
            Kernel::RepeatKvBackwardF32 => "repeat_kv_backward_f32",
            Kernel::AdamwStepF32 => "adamw_step_f32",
            Kernel::CastF32ToBf16 => "cast_f32_to_bf16",
            Kernel::CastBf16ToF32 => "cast_bf16_to_f32",
            Kernel::CastBf16ToF32Accumulate => "cast_bf16_to_f32_accumulate",
            Kernel::ScaleBf16 => "scale_bf16",
            Kernel::MatmulBf16F32 => "matmul_bf16_f32",
            Kernel::MatmulF32Bf16accumF32 => "matmul_f32_bf16accum_f32",
            Kernel::MatmulF32Bf16rhsaccumF32 => "matmul_f32_bf16rhsaccum_f32",
            Kernel::MatmulBackwardABf16bF32 => "matmul_backward_a_bf16b_f32",
            Kernel::MatmulTransBBf16 => "matmul_trans_b_bf16",
            Kernel::MatmulTransABf16 => "matmul_trans_a_bf16",
            Kernel::MatmulBf16 => "matmul_bf16",
            Kernel::MatmulBackwardABf16 => "matmul_backward_a_bf16",
            Kernel::MatmulBackwardBBf16 => "matmul_backward_b_bf16",
            Kernel::BmmBf16 => "bmm_bf16",
            Kernel::BmmF32Bf16accumF32 => "bmm_f32_bf16accum_f32",
            Kernel::BmmBackwardABf16 => "bmm_backward_a_bf16",
            Kernel::BmmBackwardAF32ToBf16 => "bmm_backward_a_f32_to_bf16",
            Kernel::BmmBackwardATransbBf16 => "bmm_backward_a_transb_bf16",
            Kernel::BmmBackwardATransbF32goF32bBf16ga => "bmm_backward_a_transb_f32go_f32b_bf16ga",
            Kernel::BmmBackwardBTransbBf16aF32goF32gb => "bmm_backward_b_transb_bf16a_f32go_f32gb",
            Kernel::BmmBackwardBBf16 => "bmm_backward_b_bf16",
            Kernel::BmmBackwardBTransbBf16 => "bmm_backward_b_transb_bf16",
            Kernel::BmmBackwardBBf16aF32goF32gb => "bmm_backward_b_bf16a_f32go_f32gb",
            Kernel::GatherBf16F32 => "gather_bf16_f32",
            Kernel::GatherBf16Bf16out => "gather_bf16_bf16out",
            Kernel::GatherBackwardBf16 => "gather_backward_bf16",
            Kernel::RmsnormF32Bf16w => "rmsnorm_f32_bf16w",
            Kernel::RmsnormBackwardBf16wF32 => "rmsnorm_backward_bf16w_f32",
            Kernel::RmsnormBf16 => "rmsnorm_bf16",
            Kernel::RmsnormBackwardBf16inF32 => "rmsnorm_backward_bf16in_f32",
            Kernel::RmsnormBackwardBf16 => "rmsnorm_backward_bf16",
            Kernel::AdamwStepBf16momF32 => "adamw_step_bf16mom_f32",
            Kernel::AdamwStepBf16wBf16momF32 => "adamw_step_bf16w_bf16mom_f32",
            Kernel::AdamwStepBf16mom => "adamw_step_bf16mom",
            Kernel::AddBf16 => "add_bf16",
            Kernel::AddBf16lhsF32rhsBf16out => "add_bf16lhs_f32rhs_bf16out",
            Kernel::AccumulateBf16out => "accumulate_bf16out",
            Kernel::AccumulateBf16 => "accumulate_bf16",
            Kernel::MulBf16 => "mul_bf16",
            Kernel::MulBf16lhsF32rhsBf16out => "mul_bf16lhs_f32rhs_bf16out",
            Kernel::MulBackwardBf16inF32 => "mul_backward_bf16in_f32",
            Kernel::MulBackwardBf16lhsF32rhs => "mul_backward_bf16lhs_f32rhs",
            Kernel::MulBackwardBf16 => "mul_backward_bf16",
            Kernel::SiluBf16 => "silu_bf16",
            Kernel::SiluBackwardBf16inF32 => "silu_backward_bf16in_f32",
            Kernel::SiluBackwardBf16 => "silu_backward_bf16",
            Kernel::SumBf16 => "sum_bf16",
            Kernel::SumBackwardBf16 => "sum_backward_bf16",
            Kernel::MaxBf16 => "max_bf16",
            Kernel::MaxBackwardBf16 => "max_backward_bf16",
            Kernel::SoftmaxBf16 => "softmax_bf16",
            Kernel::SoftmaxBackwardBf16inF32 => "softmax_backward_bf16in_f32",
            Kernel::SoftmaxBackwardBf16 => "softmax_backward_bf16",
            Kernel::CopyBf16 => "copy_bf16",
            Kernel::Transpose0213Bf16 => "transpose_0213_bf16",
            Kernel::Transpose0213BackwardBf16 => "transpose_0213_backward_bf16",
            Kernel::RopeBf16 => "rope_bf16",
            Kernel::RopeBackwardBf16 => "rope_backward_bf16",
            Kernel::BmmF32Bf16out => "bmm_f32_bf16out",
            Kernel::MatmulF32Bf16out => "matmul_f32_bf16out",
            Kernel::RepeatKvBf16 => "repeat_kv_bf16",
            Kernel::RepeatKvBackwardBf16 => "repeat_kv_backward_bf16",
            Kernel::CrossEntropyBf16 => "cross_entropy_bf16",
            Kernel::CrossEntropyBackwardBf16 => "cross_entropy_backward_bf16",
            Kernel::FillBf16 => "fill_bf16",
        }
    }

    /// The module from which the kernel is loaded.
    pub fn module(self) -> (r: DeviceModule)
        ensures
            r == self.home(),
    {
        match self {
            Kernel::AddF32 => DeviceModule::Full,
            Kernel::FillF32 => DeviceModule::Full,
            Kernel::ScaleF32 => DeviceModule::Full,
            Kernel::AccumulateF32 => DeviceModule::Full,
            Kernel::MulF32 => DeviceModule::Full,
            Kernel::MulBackwardF32 => DeviceModule::Full,
            Kernel::MatmulF32 => DeviceModule::Full,
            Kernel::MatmulBackwardAF32 => DeviceModule::Full,
            Kernel::MatmulBackwardBF32 => DeviceModule::Full,
            Kernel::MatmulTransAF32 => DeviceModule::Full,
            Kernel::MatmulTransBF32 => DeviceModule::Full,
            Kernel::SiluF32 => DeviceModule::Full,
            Kernel::SiluBackwardF32 => DeviceModule::Full,
            Kernel::GatherF32 => DeviceModule::Full,
            Kernel::GatherBackwardF32 => DeviceModule::Full,
            Kernel::RmsnormF32 => DeviceModule::Full,
            Kernel::RmsnormBackwardF32 => DeviceModule::Full,
            Kernel::CopyF32 => DeviceModule::Full,
            Kernel::CrossEntropyF32 => DeviceModule::Full,
            Kernel::CrossEntropyBackwardF32 => DeviceModule::Full,
            Kernel::CrossEntropyMaskedF32 => DeviceModule::Full,
            Kernel::CrossEntropyMaskedBackwardF32 => DeviceModule::Full,
            Kernel::SumF32 => DeviceModule::Full,
            Kernel::SumBackwardF32 => DeviceModule::Full,
            Kernel::MaxF32 => DeviceModule::Full,
            Kernel::MaxBackwardF32 => DeviceModule::Full,
            Kernel::BmmF32 => DeviceModule::Full,
            Kernel::BmmBackwardAF32 => DeviceModule::Full,
            Kernel::BmmBackwardBF32 => DeviceModule::Full,
            Kernel::BmmBackwardATransbF32 => DeviceModule::Full,
            Kernel::BmmBackwardBTransbF32 => DeviceModule::Full,
            Kernel::SoftmaxF32 => DeviceModule::Full,
            Kernel::SoftmaxBackwardF32 => DeviceModule::Full,
            Kernel::FlashAttentionF32 => DeviceModule::Full,
            Kernel::Transpose0213F32 => DeviceModule::Full,
            Kernel::Transpose0213BackwardF32 => DeviceModule::Full,
            Kernel::RopeF32 => DeviceModule::Full,
            Kernel::RopeBackwardF32 => DeviceModule::Full,
            Kernel::RepeatKvF32 => DeviceModule::Full,
            Kernel::RepeatKvBackwardF32 => DeviceModule::Full,
            Kernel::AdamwStepF32 => DeviceModule::Full,
            _ => DeviceModule::Half,
        }
    }
}

/// Kernel number `i` of the load list.
pub open spec fn numbered(i: int) -> Kernel {
    if i == 0 {
        Kernel::AddF32
    } else if i == 1 {
        Kernel::FillF32
    } else if i == 2 {
        Kernel::ScaleF32
    } else if i == 3 {
        Kernel::AccumulateF32
    } else if i == 4 {
        Kernel::MulF32
    } else if i == 5 {
        Kernel::MulBackwardF32
    } else if i == 6 {
        Kernel::MatmulF32
    } else if i == 7 {
        Kernel::MatmulBackwardAF32
    } else if i == 8 {
        Kernel::MatmulBackwardBF32
    } else if i == 9 {
        Kernel::MatmulTransAF32
    } else if i == 10 {
        Kernel::MatmulTransBF32
    } else if i == 11 {
        Kernel::SiluF32
    } else if i == 12 {
        Kernel::SiluBackwardF32
    } else if i == 13 {
        Kernel::GatherF32
    } else if i == 14 {
        Kernel::GatherBackwardF32
    } else if i == 15 {
        Kernel::RmsnormF32
    } else if i == 16 {
        Kernel::RmsnormBackwardF32
    } else if i == 17 {
        Kernel::CopyF32
    } else if i == 18 {
        Kernel::CrossEntropyF32
    } else if i == 19 {
        Kernel::CrossEntropyBackwardF32
    } else if i == 20 {
        Kernel::CrossEntropyMaskedF32
    } else if i == 21 {
        Kernel::CrossEntropyMaskedBackwardF32
    } else if i == 22 {
        Kernel::SumF32
    } else if i == 23 {
        Kernel::SumBackwardF32
    } else if i == 24 {
        Kernel::MaxF32
    } else if i == 25 {
        Kernel::MaxBackwardF32
    } else if i == 26 {
        Kernel::BmmF32
    } else if i == 27 {
        Kernel::BmmBackwardAF32
    } else if i == 28 {
        Kernel::BmmBackwardBF32
    } else if i == 29 {
        Kernel::BmmBackwardATransbF32
    } else if i == 30 {
        Kernel::BmmBackwardBTransbF32
    } else if i == 31 {
        Kernel::SoftmaxF32
    } else if i == 32 {
        Kernel::SoftmaxBackwardF32
    } else if i == 33 {
        Kernel::FlashAttentionF32
    } else if i == 34 {
        Kernel::Transpose0213F32
    } else if i == 35 {
        Kernel::Transpose0213BackwardF32
    } else if i == 36 {
        Kernel::RopeF32
    } else if i == 37 {
        Kernel::RopeBackwardF32
    } else if i == 38 {
        Kernel::RepeatKvF32
    } else if i == 39 {
        Kernel::RepeatKvBackwardF32
    } else if i == 40 {
        Kernel::AdamwStepF32
    } else if i == 41 {
        Kernel::CastF32ToBf16
    } else if i == 42 {
        Kernel::CastBf16ToF32
    } else if i == 43 {
        Kernel::CastBf16ToF32Accumulate
    } else if i == 44 {
        Kernel::ScaleBf16
    } else if i == 45 {
        Kernel::MatmulBf16F32
    } else if i == 46 {
        Kernel::MatmulF32Bf16accumF32
    } else if i == 47 {
        Kernel::MatmulF32Bf16rhsaccumF32
    } else if i == 48 {
        Kernel::MatmulBackwardABf16bF32
    } else if i == 49 {
        Kernel::MatmulTransBBf16
    } else if i == 50 {
        Kernel::MatmulTransABf16
    } else if i == 51 {
        Kernel::MatmulBf16
    } else if i == 52 {
        Kernel::MatmulBackwardABf16
    } else if i == 53 {
        Kernel::MatmulBackwardBBf16
    } else if i == 54 {
        Kernel::BmmBf16
    } else if i == 55 {
        Kernel::BmmF32Bf16accumF32
    } else if i == 56 {
        Kernel::BmmBackwardABf16
    } else if i == 57 {
        Kernel::BmmBackwardAF32ToBf16
    } else if i == 58 {
        Kernel::BmmBackwardATransbBf16
    } else if i == 59 {
        Kernel::BmmBackwardATransbF32goF32bBf16ga
    } else if i == 60 {
        Kernel::BmmBackwardBTransbBf16aF32goF32gb
    } else if i == 61 {
        Kernel::BmmBackwardBBf16
    } else if i == 62 {
        Kernel::BmmBackwardBTransbBf16
    } else if i == 63 {
        Kernel::BmmBackwardBBf16aF32goF32gb
    } else if i == 64 {
        Kernel::GatherBf16F32
    } else if i == 65 {
        Kernel::GatherBf16Bf16out
    } else if i == 66 {
        Kernel::GatherBackwardBf16
    } else if i == 67 {
        Kernel::RmsnormF32Bf16w
    } else if i == 68 {
        Kernel::RmsnormBackwardBf16wF32
    } else if i == 69 {
        Kernel::RmsnormBf16
    } else if i == 70 {
        Kernel::RmsnormBackwardBf16inF32
    } else if i == 71 {
        Kernel::RmsnormBackwardBf16
    } else if i == 72 {
        Kernel::AdamwStepBf16momF32
    } else if i == 73 {
        Kernel::AdamwStepBf16wBf16momF32
    } else if i == 74 {
        Kernel::AdamwStepBf16mom
    } else if i == 75 {
        Kernel::AddBf16
    } else if i == 76 {
        Kernel::AddBf16lhsF32rhsBf16out
    } else if i == 77 {
        Kernel::AccumulateBf16out
    } else if i == 78 {
        Kernel::AccumulateBf16
    } else if i == 79 {
        Kernel::MulBf16
    } else if i == 80 {
        Kernel::MulBf16lhsF32rhsBf16out
    } else if i == 81 {
        Kernel::MulBackwardBf16inF32
    } else if i == 82 {
        Kernel::MulBackwardBf16lhsF32rhs
    } else if i == 83 {
        Kernel::MulBackwardBf16
    } else if i == 84 {
        Kernel::SiluBf16
    } else if i == 85 {
        Kernel::SiluBackwardBf16inF32
    } else if i == 86 {
        Kernel::SiluBackwardBf16
    } else if i == 87 {
        Kernel::SumBf16
    } else if i == 88 {
        Kernel::SumBackwardBf16
    } else if i == 89 {
        Kernel::MaxBf16
    } else if i == 90 {
        Kernel::MaxBackwardBf16
    } else if i == 91 {
        Kernel::SoftmaxBf16
    } else if i == 92 {
        Kernel::SoftmaxBackwardBf16inF32
    } else if i == 93 {
        Kernel::SoftmaxBackwardBf16
    } else if i == 94 {
        Kernel::CopyBf16
    } else if i == 95 {
        Kernel::Transpose0213Bf16
    } else if i == 96 {
        Kernel::Transpose0213BackwardBf16
    } else if i == 97 {
        Kernel::RopeBf16
    } else if i == 98 {
        Kernel::RopeBackwardBf16
    } else if i == 99 {
        Kernel::BmmF32Bf16out
    } else if i == 100 {
        Kernel::MatmulF32Bf16out
    } else if i == 101 {
        Kernel::RepeatKvBf16
    } else if i == 102 {
        Kernel::RepeatKvBackwardBf16
    } else if i == 103 {
        Kernel::CrossEntropyBf16
    } else if i == 104 {
        Kernel::CrossEntropyBackwardBf16
    } else {
        Kernel::FillBf16
    }
}

fn kernel_numbered(i: usize) -> (r: Kernel)
    ensures
        r == numbered(i as int),
{
    match i {
        0 => Kernel::AddF32,
        1 => Kernel::FillF32,
        2 => Kernel::ScaleF32,
        3 => Kernel::AccumulateF32,
        4 => Kernel::MulF32,
        5 => Kernel::MulBackwardF32,
        6 => Kernel::MatmulF32,
        7 => Kernel::MatmulBackwardAF32,
        8 => Kernel::MatmulBackwardBF32,
        9 => Kernel::MatmulTransAF32,
        10 => Kernel::MatmulTransBF32,
        11 => Kernel::SiluF32,
        12 => Kernel::SiluBackwardF32,
        13 => Kernel::GatherF32,
        14 => Kernel::GatherBackwardF32,
        15 => Kernel::RmsnormF32,
        16 => Kernel::RmsnormBackwardF32,
        17 => Kernel::CopyF32,
        18 => Kernel::CrossEntropyF32,
        19 => Kernel::CrossEntropyBackwardF32,
        20 => Kernel::CrossEntropyMaskedF32,
        21 => Kernel::CrossEntropyMaskedBackwardF32,
        22 => Kernel::SumF32,
        23 => Kernel::SumBackwardF32,
        24 => Kernel::MaxF32,
        25 => Kernel::MaxBackwardF32,
        26 => Kernel::BmmF32,
        27 => Kernel::BmmBackwardAF32,
        28 => Kernel::BmmBackwardBF32,
        29 => Kernel::BmmBackwardATransbF32,
        30 => Kernel::BmmBackwardBTransbF32,
        31 => Kernel::SoftmaxF32,
        32 => Kernel::SoftmaxBackwardF32,
        33 => Kernel::FlashAttentionF32,
        34 => Kernel::Transpose0213F32,
        35 => Kernel::Transpose0213BackwardF32,
        36 => Kernel::RopeF32,
        37 => Kernel::RopeBackwardF32,
        38 => Kernel::RepeatKvF32,
        39 => Kernel::RepeatKvBackwardF32,
        40 => Kernel::AdamwStepF32,
        41 => Kernel::CastF32ToBf16,
        42 => Kernel::CastBf16ToF32,
        43 => Kernel::CastBf16ToF32Accumulate,
        44 => Kernel::ScaleBf16,
        45 => Kernel::MatmulBf16F32,
        46 => Kernel::MatmulF32Bf16accumF32,
        47 => Kernel::MatmulF32Bf16rhsaccumF32,
        48 => Kernel::MatmulBackwardABf16bF32,
        49 => Kernel::MatmulTransBBf16,
        50 => Kernel::MatmulTransABf16,
        51 => Kernel::MatmulBf16,
        52 => Kernel::MatmulBackwardABf16,
        53 => Kernel::MatmulBackwardBBf16,
        54 => Kernel::BmmBf16,
        55 => Kernel::BmmF32Bf16accumF32,
        56 => Kernel::BmmBackwardABf16,
        57 => Kernel::BmmBackwardAF32ToBf16,
        58 => Kernel::BmmBackwardATransbBf16,
        59 => Kernel::BmmBackwardATransbF32goF32bBf16ga,
        60 => Kernel::BmmBackwardBTransbBf16aF32goF32gb,
        61 => Kernel::BmmBackwardBBf16,
        62 => Kernel::BmmBackwardBTransbBf16,
        63 => Kernel::BmmBackwardBBf16aF32goF32gb,
        64 => Kernel::GatherBf16F32,
        65 => Kernel::GatherBf16Bf16out,
        66 => Kernel::GatherBackwardBf16,
        67 => Kernel::RmsnormF32Bf16w,
        68 => Kernel::RmsnormBackwardBf16wF32,
        69 => Kernel::RmsnormBf16,
        70 => Kernel::RmsnormBackwardBf16inF32,
        71 => Kernel::RmsnormBackwardBf16,
        72 => Kernel::AdamwStepBf16momF32,
        73 => Kernel::AdamwStepBf16wBf16momF32,
        74 => Kernel::AdamwStepBf16mom,
        75 => Kernel::AddBf16,
        76 => Kernel::AddBf16lhsF32rhsBf16out,
        77 => Kernel::AccumulateBf16out,
        78 => Kernel::AccumulateBf16,
        79 => Kernel::MulBf16,
        80 => Kernel::MulBf16lhsF32rhsBf16out,
        81 => Kernel::MulBackwardBf16inF32,
        82 => Kernel::MulBackwardBf16lhsF32rhs,
        83 => Kernel::MulBackwardBf16,
        84 => Kernel::SiluBf16,
        85 => Kernel::SiluBackwardBf16inF32,
        86 => Kernel::SiluBackwardBf16,
        87 => Kernel::SumBf16,
        88 => Kernel::SumBackwardBf16,
        89 => Kernel::MaxBf16,
        90 => Kernel::MaxBackwardBf16,
        91 => Kernel::SoftmaxBf16,
        92 => Kernel::SoftmaxBackwardBf16inF32,
        93 => Kernel::SoftmaxBackwardBf16,
        94 => Kernel::CopyBf16,
        95 => Kernel::Transpose0213Bf16,
        96 => Kernel::Transpose0213BackwardBf16,
        97 => Kernel::RopeBf16,
        98 => Kernel::RopeBackwardBf16,
        99 => Kernel::BmmF32Bf16out,
        100 => Kernel::MatmulF32Bf16out,
        101 => Kernel::RepeatKvBf16,
        102 => Kernel::RepeatKvBackwardBf16,
        103 => Kernel::CrossEntropyBf16,
        104 => Kernel::CrossEntropyBackwardBf16,
        _ => Kernel::FillBf16,
    }
}

/// The kernels in the order in which they are loaded.
pub open spec fn load_list() -> Seq<Kernel> {
    Seq::new(106, |i: int| numbered(i))
}

/// The kernels to be loaded.
pub fn kernels_to_load() -> (r: Vec<Kernel>)
    ensures
        r@ == load_list(),
{
    let mut r: Vec<Kernel> = Vec::new();
    let mut i: usize = 0;
    while i < 106
        invariant
            i <= 106,
            r@ == load_list().take(i as int),
        decreases 106 - i,
    {
        let k = kernel_numbered(i);
        assert(load_list().take(i + 1) == load_list().take(i as int).push(k));
        r.push(k);
        i += 1;
    }
    assert(load_list().take(106) == load_list());
    r
}

/// Every kernel that can be launched is in the load list.
pub proof fn every_kernel_is_loaded(k: Kernel)
    ensures
        load_list().len() == 106,
        0 <= k.index() < load_list().len(),
        load_list()[k.index()] == k,
{
}

} // verus!
