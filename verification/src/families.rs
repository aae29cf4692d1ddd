//! Families of kernels that take the same arguments.

use vstd::prelude::*;

verus! {

/// Tiled products: quadrant tiles (`v4`, `j128`), warp tiles (`wm`), exact tiles
/// (`mm`) and products over a half-precision copy (`wc`).
#[derive(Clone, Copy, PartialEq, Eq, Structural, Debug)]
pub enum TileKernel {
    Q5kV4,
    Q5kJ128,
    Q5kWm,
    Q5kMm,
    Q5kWc,
    Q4kV4,
    Q4kJ128,
    Q4kWm,
    Q4kMm,
    Q6kJ128,
    Q6kWm,
    Q6kMm,
    Q8J128,
    XsV4,
    XsJ128,
    XsWm,
    XsMm,
    XsWc,
    NlV4,
    Q3kV4,
    Iq3sV4,
    F16V4,
}

impl TileKernel {
    pub open spec fn spec_name(&self) -> Seq<char> {
        match *self {
            TileKernel::Q5kV4 => "gemm_q5k_v4"@,
            TileKernel::Q5kJ128 => "gemm_q5k_j128"@,
            TileKernel::Q5kWm => "gemm_q5k_wm"@,
            TileKernel::Q5kMm => "gemm_q5k_mm"@,
            TileKernel::Q5kWc => "gemm_q5k_wc"@,
            TileKernel::Q4kV4 => "gemm_q4k_v4"@,
            TileKernel::Q4kJ128 => "gemm_q4k_j128"@,
            TileKernel::Q4kWm => "gemm_q4k_wm"@,
            TileKernel::Q4kMm => "gemm_q4k_mm"@,
            TileKernel::Q6kJ128 => "gemm_q6k_j128"@,
            TileKernel::Q6kWm => "gemm_q6k_wm"@,
            TileKernel::Q6kMm => "gemm_q6k_mm"@,
            TileKernel::Q8J128 => "gemm_q8_j128"@,
            TileKernel::XsV4 => "gemm_xs_v4"@,
            TileKernel::XsJ128 => "gemm_xs_j128"@,
            TileKernel::XsWm => "gemm_xs_wm"@,
            TileKernel::XsMm => "gemm_xs_mm"@,
            TileKernel::XsWc => "gemm_xs_wc"@,
            TileKernel::NlV4 => "gemm_nl_v4"@,
            TileKernel::Q3kV4 => "gemm_q3k_v4"@,
            TileKernel::Iq3sV4 => "gemm_iq3s_v4"@,
            TileKernel::F16V4 => "gemm_f16_v4"@,
        }
    }

    pub fn name(&self) -> (r: &'static str)
        ensures
            r@ == self.spec_name(),
    {
        match *self {
            TileKernel::Q5kV4 => "gemm_q5k_v4",
            TileKernel::Q5kJ128 => "gemm_q5k_j128",
            TileKernel::Q5kWm => "gemm_q5k_wm",
            TileKernel::Q5kMm => "gemm_q5k_mm",
            TileKernel::Q5kWc => "gemm_q5k_wc",
            TileKernel::Q4kV4 => "gemm_q4k_v4",
            TileKernel::Q4kJ128 => "gemm_q4k_j128",
            TileKernel::Q4kWm => "gemm_q4k_wm",
            TileKernel::Q4kMm => "gemm_q4k_mm",
            TileKernel::Q6kJ128 => "gemm_q6k_j128",
            TileKernel::Q6kWm => "gemm_q6k_wm",
            TileKernel::Q6kMm => "gemm_q6k_mm",
            TileKernel::Q8J128 => "gemm_q8_j128",
            TileKernel::XsV4 => "gemm_xs_v4",
            TileKernel::XsJ128 => "gemm_xs_j128",
            TileKernel::XsWm => "gemm_xs_wm",
            TileKernel::XsMm => "gemm_xs_mm",
            TileKernel::XsWc => "gemm_xs_wc",
            TileKernel::NlV4 => "gemm_nl_v4",
            TileKernel::Q3kV4 => "gemm_q3k_v4",
            TileKernel::Iq3sV4 => "gemm_iq3s_v4",
            TileKernel::F16V4 => "gemm_f16_v4",
        }
    }
}

/// Attention kernels that leave partial sums per segment.
#[derive(Clone, Copy, PartialEq, Eq, Structural, Debug)]
pub enum FlashKernel {
    Gqa,
    Gqa2,
    Gqa2h,
    Gqa2d,
    Wmma2,
    Wk16,
    Wk8,
}

impl FlashKernel {
    pub open spec fn spec_name(&self) -> Seq<char> {
        match *self {
            FlashKernel::Gqa => "qsa_flash_gqa"@,
            FlashKernel::Gqa2 => "qsa_flash_gqa2"@,
            FlashKernel::Gqa2h => "qsa_flash_gqa2h"@,
            FlashKernel::Gqa2d => "qsa_flash_gqa2d"@,
            FlashKernel::Wmma2 => "qsa_flash_wmma2v2"@,
            FlashKernel::Wk16 => "qsa_flash_wk16"@,
            FlashKernel::Wk8 => "qsa_flash_wk8"@,
        }
    }

    pub fn name(&self) -> (r: &'static str)
        ensures
            r@ == self.spec_name(),
    {
        match *self {
            FlashKernel::Gqa => "qsa_flash_gqa",
            FlashKernel::Gqa2 => "qsa_flash_gqa2",
            FlashKernel::Gqa2h => "qsa_flash_gqa2h",
            FlashKernel::Gqa2d => "qsa_flash_gqa2d",
            FlashKernel::Wmma2 => "qsa_flash_wmma2v2",
            FlashKernel::Wk16 => "qsa_flash_wk16",
            FlashKernel::Wk8 => "qsa_flash_wk8",
        }
    }
}

} // verus!
