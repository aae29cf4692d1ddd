//! The device kernels: one variant per kernel, one field per argument, in the
//! order in which the kernel takes them.

use vstd::prelude::*;
use crate::device::{Arg, Ptr};
use crate::families::{FlashKernel, TileKernel};

verus! {

/// A call of a device kernel. Single-precision arguments are 32-bit patterns.
#[allow(inconsistent_fields)]
#[derive(Clone, Copy, PartialEq, Eq, Structural, Debug)]
pub enum Call {
    GemmQ4kY { xq: Ptr, w: Ptr, part: Ptr, out: Ptr, n_in: i32, n_out: i32, xq_w: i32, t: i32, rpt: i32 },
    GemmQ4kX { xq: Ptr, w: Ptr, part: Ptr, out: Ptr, n_in: i32, n_out: i32, xq_w: i32, t: i32 },
    GemmQ4kG { xq: Ptr, w: Ptr, part: Ptr, out: Ptr, n_in: i32, n_out: i32, xq_w: i32, t: i32, outs: i32, rows: i32 },
    GemmQ4kM { xq: Ptr, w: Ptr, part: Ptr, out: Ptr, n_in: i32, n_out: i32, xq_w: i32, t: i32 },
    GemmQ51M { xq: Ptr, w: Ptr, part: Ptr, out: Ptr, n_in: i32, n_out: i32, xq_w: i32, t: i32 },
    GemmQ51T { xq: Ptr, w: Ptr, part: Ptr, out: Ptr, n_in: i32, n_out: i32, xq_w: i32, t: i32 },
    GemmF32M { x: Ptr, w: Ptr, out: Ptr, n_in: i32, n_out: i32, stride: i32, t: i32 },
    GemmF32W { x: Ptr, w: Ptr, out: Ptr, n_in: i32, n_out: i32 },
    GemmF32Mt { x: Ptr, w: Ptr, out: Ptr, n_in: i32, n_out: i32, t: i32 },
    GemmF32 { x: Ptr, w: Ptr, out: Ptr, n_in: i32, n_out: i32, stride: i32 },
    GemmQ8Dual { xq: Ptr, w1: Ptr, w2: Ptr, out1: Ptr, out2: Ptr, n_in: i32, n_out1: i32, n_out2: i32, xq_w: i32 },
    GemmF32Dual { x: Ptr, w1: Ptr, out1: Ptr, w2: Ptr, out2: Ptr, n_in: i32, n_out1: i32, n_out2: i32 },
    GemmMixDual { xq: Ptr, w8: Ptr, out8: Ptr, n_out8: i32, x: Ptr, w4: Ptr, out4: Ptr, n_out4: i32, n_in: i32, xq_w: i32 },
    ShexpGu { x: Ptr, wg: Ptr, wu: Ptr, h: Ptr, n_in: i32, n_hidden: i32 },
    ShexpDa { h: Ptr, wd: Ptr, s: Ptr, out: Ptr, n_in: i32, n_hidden: i32 },
    PleGate { res: Ptr, key: Ptr, value: Ptr, nk: Ptr, nq: Ptr, nc: Ptr, gated: Ptr, gate_out: Ptr, eps: u32, n_embd: i32, hc: i32, t: i32 },
    PleConv { gated: Ptr, conv_w: Ptr, ring: Ptr, conv_out: Ptr, hc_dim: i32, t: i32, kern: i32, dil: i32, hist: i32 },
    PleResidual { res: Ptr, value: Ptr, gate_out: Ptr, conv_out: Ptr, n_embd: i32, hc: i32, t: i32 },
    RowsPermute { src: Ptr, perm: Ptr, dst: Ptr, row_words: i32, n: i32 },
    MoeGroup { ids: Ptr, ne: i32, rows: i32, off: Ptr, perm: Ptr, inv: Ptr, rowexp: Ptr, perm_pad: Ptr, inv_pad: Ptr, tilexp: Ptr, rows_pad: Ptr, bound: i32 },
    MoeGather { mix: Ptr, xsel: Ptr, n: i32, k_sel: i32, t: i32 },
    MoeScatter { ys: Ptr, wt: Ptr, out: Ptr, k_sel: i32, n: i32, t: i32 },
    MoeQ4kIds { xq: Ptr, w: Ptr, part: Ptr, out: Ptr, ids: Ptr, n_in: i32, n_out: i32, xq_w: i32, t: i32, expert_bytes: i32, rows_pad: Ptr },
    MoeQ4kReduce { part: Ptr, out: Ptr, n: i32, ksplit: i32 },
    MoeQ51WIds { xq: Ptr, w: Ptr, part: Ptr, out: Ptr, ids: Ptr, n_in: i32, n_out: i32, xq_w: i32, t: i32, expert_words: i32 },
    MoeQ8Ids { xq: Ptr, w: Ptr, part: Ptr, out: Ptr, ids: Ptr, n_in: i32, n_out: i32, xq_w: i32, t: i32, expert_bytes: i32 },
    MoeQ51GmIds { xq: Ptr, w: Ptr, part: Ptr, out: Ptr, ids: Ptr, n_in: i32, n_out: i32, xq_w: i32, t: i32, expert_words: i32 },
    MoeQ51Gm { xq: Ptr, w: Ptr, part: Ptr, out: Ptr, tilexp: Ptr, n_in: i32, n_out: i32, xq_w: i32, t: i32, expert_words: i32 },
    MoeQ4kGe { xq: Ptr, w: Ptr, part: Ptr, out: Ptr, rowexp: Ptr, n_in: i32, n_out: i32, xq_w: i32, t: i32, expert_bytes: i32, rows_pad: Ptr },
    GdnArSwap { state: Ptr, q: Ptr, k: Ptr, v: Ptr, beta_g: Ptr, out: Ptr, d: i32, k_stride: i32, v_stride: i32, h_v: i32, h_k: i32, scale: u32, t: i32 },
    GdnArNp { state: Ptr, q: Ptr, k: Ptr, v: Ptr, beta_g: Ptr, out: Ptr, d: i32, k_stride: i32, v_stride: i32, h_v: i32, h_k: i32, scale: u32, t: i32 },
    GdnConvNp { qkv: Ptr, cw: Ptr, states: Ptr, out: Ptr, ch: i32, k: i32, t: i32 },
    QkNormRope { q: Ptr, k: Ptr, q_norm: Ptr, k_norm: Ptr, cs: Ptr, eps: u32, kq_scale: u32, pos0: i32, n_head: i32, n_kv: i32, hd: i32, n_rot: i32 },
    ArgmaxS1 { x: Ptr, vocab: i32, part: Ptr, nblk: i32 },
    ArgmaxS2 { part: Ptr, out: Ptr, nblk: i32 },
    SiluDiv { t: Ptr, div: u32, n: i32 },
    SiluMul { g: Ptr, u: Ptr, out: Ptr, n: i32 },
    Sigmoid { t: Ptr, n: i32 },
    RmsSmall { x: Ptr, w: Ptr, out: Ptr, eps: u32, n: i32, rows: i32, w_reps: i32 },
    RmsPart { x: Ptr, part: Ptr, n: i32 },
    RmsFinish { x: Ptr, w: Ptr, part: Ptr, out: Ptr, eps: u32, n: i32, w_reps: i32 },
    NormGated { o: Ptr, z: Ptr, w: Ptr, out: Ptr, eps: u32, d: i32, n_h: i32 },
    L2Rows { x: Ptr, eps: u32, d: i32 },
    Scale { t: Ptr, s: u32, n: i32 },
    BcastRows { src: Ptr, dst: Ptr, n: i32, rows: i32 },
    CopyRows { src: Ptr, dst: Ptr, src_off: i32, dst_off: i32, n: i32 },
    HcGateMean { xn: Ptr, gate: Ptr, out: Ptr, hc: i32, n: i32, total: i32 },
    HcCombine { res: Ptr, out: Ptr, inj: Ptr, hc: i32, n: i32, total: i32 },
    Split3 { src: Ptr, d0: Ptr, d1: Ptr, d2: Ptr, n0: i32, n1: i32, n2: i32 },
    GdnBetaG { b: Ptr, a: Ptr, dtb: Ptr, sa: Ptr, bg: Ptr, n_h: i32, dt_rank: i32 },
    GdnConv { qkv: Ptr, cw: Ptr, state: Ptr, out: Ptr, ch: i32, k: i32 },
    GdnConvT2 { qkv: Ptr, cw: Ptr, state: Ptr, out: Ptr, ch: i32, k: i32, t: i32 },
    GdnConvState { qkv: Ptr, state: Ptr, ch: i32, k: i32, t: i32 },
    MoeTop10 { route: Ptr, ids: Ptr, wt: Ptr, n_exp: i32, k_sel: i32 },
    MoeWeightedSum { ys: Ptr, wt: Ptr, out: Ptr, k: i32, n: i32 },
    AxpyScaled { y: Ptr, x: Ptr, s: Ptr, n: i32 },
    AxpyScaledT { y: Ptr, x: Ptr, s: Ptr, n: i32, per: i32 },
    QsaSel { q: Ptr, k: Ptr, v: Ptr, sel_idx: Ptr, sel_off: Ptr, out: Ptr, scale: u32, n_head: i32, n_kv: i32, hd: i32, t: i32 },
    QsaSel4 { q: Ptr, k: Ptr, v: Ptr, sel_idx: Ptr, sel_off: Ptr, out: Ptr, scale: u32, n_head: i32, n_kv: i32, hd: i32, t: i32 },
    QsaSel6 { q: Ptr, k: Ptr, v: Ptr, sel_idx: Ptr, sel_off: Ptr, out: Ptr, scale: u32, n_head: i32, n_kv: i32, hd: i32, t: i32 },
    QsaSplit { q: Ptr, k: Ptr, v: Ptr, sel_idx: Ptr, sel_off: Ptr, part: Ptr, n_splits: i32, scale: u32, n_head: i32, n_kv: i32, hd: i32 },
    QsaMerge { part: Ptr, q: Ptr, out: Ptr, n_splits: i32, n_head: i32, hd: i32 },
    QsaMasked { q: Ptr, k: Ptr, v: Ptr, mask: Ptr, out: Ptr, scale: u32, n_past: i32, n_head: i32, n_kv: i32, hd: i32, t: i32 },
    IdxBlockKeys { idx_k: Ptr, block_k: Ptr, norm: Ptr, cs: Ptr, eps: u32, b0: i32, r: i32, dim: i32 },
    IdxQRope { q: Ptr, out: Ptr, norm: Ptr, cs: Ptr, eps: u32, pos0: i32, t: i32, heads: i32, dim: i32 },
    IdxScore { q: Ptr, block_k: Ptr, scores: Ptr, n_blocks: i32, heads: i32, dim: i32 },
    IdxTopk { scores: Ptr, sel_idx: Ptr, sel_off: Ptr, n_blocks: i32, n_sel: i32, r: i32, n_past: i32 },
    IdxRank { scores: Ptr, flags: Ptr, n_blocks: i32, n_sel: i32 },
    IdxExpand { flags: Ptr, sel_idx: Ptr, sel_off: Ptr, n_blocks: i32, n_sel: i32, r: i32, n_past: i32 },
    PackStrided { src: Ptr, dst: Ptr, n: i32, stride: i32, t: i32 },
    VitGemm { x: Ptr, w: Ptr, bias: Ptr, out: Ptr, n_in: i32, n_out: i32, t: i32 },
    LayerNorm { x: Ptr, w: Ptr, bias: Ptr, n: i32, eps: u32, t: i32 },
    VitRope { q: Ptr, yx: Ptr, n_head: i32, d_head: i32, t: i32, stride: i32 },
    FlashVit { q: Ptr, k: Ptr, v: Ptr, out: Ptr, t: i32, n_head: i32, d_head: i32, scale: u32 },
    GeluT { x: Ptr, n: i32 },
    AddF32 { y: Ptr, x: Ptr, n: i32 },
    TileGemm { kern: TileKernel, xq: Ptr, w: Ptr, out: Ptr, n_in: i32, n_out: i32, xq_w: i32, t: i32 },
    TileGemmLut { kern: TileKernel, xq: Ptr, w: Ptr, out: Ptr, lut: Ptr, n_in: i32, n_out: i32, xq_w: i32, t: i32 },
    DequantXs { w: Ptr, lut: Ptr, out: Ptr, n_in: i32, n_out: i32 },
    DequantQ5k { w: Ptr, out: Ptr, n_in: i32, n_out: i32 },
    DequantXsDebug { out: Ptr, n_in: i32, n_out: i32 },
    GemmQ51 { xq: Ptr, w: Ptr, part: Ptr, out: Ptr, n_in: i32, n_out: i32, xq_w: i32, t: i32 },
    GemmXsBare { y: Ptr, x: Ptr, s: Ptr, n: i32 },
    Rmsq { x: Ptr, w: Ptr, xq: Ptr, eps: u32, n: i32 },
    Gatedq { o: Ptr, z: Ptr, w: Ptr, xq: Ptr, eps: u32, d: i32, n_h: i32, n_tot: i32 },
    Flash { kern: FlashKernel, q: Ptr, k: Ptr, v: Ptr, mask: Ptr, part: Ptr, n_past: i32, n_head: i32, n_kv: i32, hd: i32, t: i32, stride: i32, pos0: i32, seg: i32 },
    KvF16 { src: Ptr, dst: Ptr, n: i32 },
    GemmIq3s { xq: Ptr, w: Ptr, part: Ptr, n_in: i32, n_out: i32 },
    Dp4aProbe { x: Ptr, out: Ptr },
    BwProbe { w: Ptr, part: Ptr, n_in: i32, n_out: i32, block_bytes: i32 },
    BwStream { w: Ptr, part: Ptr, words: u64 },
    QuantQ8 { x: Ptr, xq: Ptr, n: i32 },
    GemmQ6k { xq: Ptr, w: Ptr, part: Ptr, out: Ptr, n_in: i32, n_out: i32, xq_w: i32 },
    Q6kScalar { y: Ptr, w: Ptr, out: Ptr, n_in: i32, n_out: i32 },
    HcaRepro { res: Ptr, norm: Ptr, w_down: Ptr, w_inj: Ptr, low: Ptr, inj: Ptr, xn: Ptr, n: i32, hc: i32, r: i32, eps: u32 },
}

impl Call {
    /// The name under which the kernel is registered on the device.
    pub open spec fn spec_name(&self) -> Seq<char> {
        match *self {
            Call::GemmQ4kY { .. } => "q4_gemm_q4k_y"@,
            Call::GemmQ4kX { .. } => "q4_gemm_q4k_x"@,
            Call::GemmQ4kG { .. } => "q4_gemm_q4k_g"@,
            Call::GemmQ4kM { .. } => "q4_gemm_q4k_m"@,
            Call::GemmQ51M { .. } => "q4_gemm_q5_1_m"@,
            Call::GemmQ51T { .. } => "q4_gemm_q5_1_t"@,
            Call::GemmF32M { .. } => "q4_gemm_f32_m"@,
            Call::GemmF32W { .. } => "q4_gemm_f32_w"@,
            Call::GemmF32Mt { .. } => "q4_gemm_f32_mt"@,
            Call::GemmF32 { .. } => "q4_gemm_f32"@,
            Call::GemmQ8Dual { .. } => "gemm_q8_0_dual"@,
            Call::GemmF32Dual { .. } => "q4_gemm_f32_w2"@,
            Call::GemmMixDual { .. } => "gemm_mix_dual"@,
            Call::ShexpGu { .. } => "q4_shexp_gu"@,
            Call::ShexpDa { .. } => "q4_shexp_da"@,
            Call::PleGate { .. } => "q4_ple_gate"@,
            Call::PleConv { .. } => "q4_ple_conv"@,
            Call::PleResidual { .. } => "q4_ple_residual"@,
            Call::RowsPermute { .. } => "q4_rows_permute_u32"@,
            Call::MoeGroup { .. } => "q4_moe_group_t1"@,
            Call::MoeGather { .. } => "q4_moe_gather"@,
            Call::MoeScatter { .. } => "q4_moe_scatter"@,
            Call::MoeQ4kIds { .. } => "q4_gemm_q4k_ge_ids"@,
            Call::MoeQ4kReduce { .. } => "q4_gemm_q4k_ids_reduce"@,
            Call::MoeQ51WIds { .. } => "q4_gemm_q5_1_w_ids"@,
            Call::MoeQ8Ids { .. } => "gemm_q8_0_ids"@,
            Call::MoeQ51GmIds { .. } => "q4_gemm_q5_1_gm_ids"@,
            Call::MoeQ51Gm { .. } => "q4_gemm_q5_1_gm"@,
            Call::MoeQ4kGe { .. } => "q4_gemm_q4k_ge"@,
            Call::GdnArSwap { .. } => "gdn_ar_w_swap"@,
            Call::GdnArNp { .. } => "gdn_ar_w_np"@,
            Call::GdnConvNp { .. } => "gdn_conv_np"@,
            Call::QkNormRope { .. } => "qk_norm_rope"@,
            Call::ArgmaxS1 { .. } => "argmax_rows_s1"@,
            Call::ArgmaxS2 { .. } => "argmax_rows_s2"@,
            Call::SiluDiv { .. } => "q4_silu_div"@,
            Call::SiluMul { .. } => "silu_mul"@,
            Call::Sigmoid { .. } => "q4_sigmoid"@,
            Call::RmsSmall { .. } => "rms_small"@,
            Call::RmsPart { .. } => "rms_part"@,
            Call::RmsFinish { .. } => "rms_finish"@,
            Call::NormGated { .. } => "q4_norm_gated_sig"@,
            Call::L2Rows { .. } => "q4_l2_rows"@,
            Call::Scale { .. } => "q4_scale"@,
            Call::BcastRows { .. } => "bcast_rows"@,
            Call::CopyRows { .. } => "copy_rows"@,
            Call::HcGateMean { .. } => "q4_hc_gate_mean"@,
            Call::HcCombine { .. } => "q4_hc_combine"@,
            Call::Split3 { .. } => "split3"@,
            Call::GdnBetaG { .. } => "gdn_beta_g"@,
            Call::GdnConv { .. } => "gdn_conv"@,
            Call::GdnConvT2 { .. } => "gdn_conv_t2"@,
            Call::GdnConvState { .. } => "gdn_conv_state"@,
            Call::MoeTop10 { .. } => "q4_moe_top10_m"@,
            Call::MoeWeightedSum { .. } => "q4_moe_weighted_sum"@,
            Call::AxpyScaled { .. } => "axpy_scaled"@,
            Call::AxpyScaledT { .. } => "q4_axpy_scaled_t"@,
            Call::QsaSel { .. } => "q4_qsa_attn_sel"@,
            Call::QsaSel4 { .. } => "q4_qsa_attn_sel4"@,
            Call::QsaSel6 { .. } => "q4_qsa_attn_sel6"@,
            Call::QsaSplit { .. } => "q4_qsa_attn_sel4s"@,
            Call::QsaMerge { .. } => "q4_qsa_attn_sel4s_merge"@,
            Call::QsaMasked { .. } => "q4_qsa_attn_wt"@,
            Call::IdxBlockKeys { .. } => "q4_idx_bk_update"@,
            Call::IdxQRope { .. } => "q4_idx_q_rope"@,
            Call::IdxScore { .. } => "q4_idx_score"@,
            Call::IdxTopk { .. } => "q4_idx_topk"@,
            Call::IdxRank { .. } => "q4_idx_rank"@,
            Call::IdxExpand { .. } => "q4_idx_expand"@,
            Call::PackStrided { .. } => "pack_strided"@,
            Call::VitGemm { .. } => "gemm_f32t"@,
            Call::LayerNorm { .. } => "layernorm_t"@,
            Call::VitRope { .. } => "vit_rope"@,
            Call::FlashVit { .. } => "flash_vit"@,
            Call::GeluT { .. } => "gelu_t"@,
            Call::AddF32 { .. } => "add_f32"@,
            Call::TileGemm { kern, .. } => kern.spec_name(),
            Call::TileGemmLut { kern, .. } => kern.spec_name(),
            Call::DequantXs { .. } => "dequant_f16_xs"@,
            Call::DequantQ5k { .. } => "dequant_f16_q5k"@,
            Call::DequantXsDebug { .. } => "dequant_f16_xs_dbg"@,
            Call::GemmQ51 { .. } => "q4_gemm_q5_1"@,
            Call::GemmXsBare { .. } => "gemm_xs"@,
            Call::Rmsq { .. } => "rmsq"@,
            Call::Gatedq { .. } => "gatedq"@,
            Call::Flash { kern, .. } => kern.spec_name(),
            Call::KvF16 { .. } => "kv_f16"@,
            Call::GemmIq3s { .. } => "gemm_iq3s"@,
            Call::Dp4aProbe { .. } => "dp4a_probe"@,
            Call::BwProbe { .. } => "bw_probe"@,
            Call::BwStream { .. } => "bw_stream"@,
            Call::QuantQ8 { .. } => "quant_q8"@,
            Call::GemmQ6k { .. } => "gemm_q6k"@,
            Call::Q6kScalar { .. } => "q6k_ref_scalar"@,
            Call::HcaRepro { .. } => "q4_hca_repro"@,
        }
    }

    pub fn name(&self) -> (r: &'static str)
        ensures
            r@ == self.spec_name(),
    {
        match *self {
            Call::GemmQ4kY { .. } => "q4_gemm_q4k_y",
            Call::GemmQ4kX { .. } => "q4_gemm_q4k_x",
            Call::GemmQ4kG { .. } => "q4_gemm_q4k_g",
            Call::GemmQ4kM { .. } => "q4_gemm_q4k_m",
            Call::GemmQ51M { .. } => "q4_gemm_q5_1_m",
            Call::GemmQ51T { .. } => "q4_gemm_q5_1_t",
            Call::GemmF32M { .. } => "q4_gemm_f32_m",
            Call::GemmF32W { .. } => "q4_gemm_f32_w",
            Call::GemmF32Mt { .. } => "q4_gemm_f32_mt",
            Call::GemmF32 { .. } => "q4_gemm_f32",
            Call::GemmQ8Dual { .. } => "gemm_q8_0_dual",
            Call::GemmF32Dual { .. } => "q4_gemm_f32_w2",
            Call::GemmMixDual { .. } => "gemm_mix_dual",
            Call::ShexpGu { .. } => "q4_shexp_gu",
            Call::ShexpDa { .. } => "q4_shexp_da",
            Call::PleGate { .. } => "q4_ple_gate",
            Call::PleConv { .. } => "q4_ple_conv",
            Call::PleResidual { .. } => "q4_ple_residual",
            Call::RowsPermute { .. } => "q4_rows_permute_u32",
            Call::MoeGroup { .. } => "q4_moe_group_t1",
            Call::MoeGather { .. } => "q4_moe_gather",
            Call::MoeScatter { .. } => "q4_moe_scatter",
            Call::MoeQ4kIds { .. } => "q4_gemm_q4k_ge_ids",
            Call::MoeQ4kReduce { .. } => "q4_gemm_q4k_ids_reduce",
            Call::MoeQ51WIds { .. } => "q4_gemm_q5_1_w_ids",
            Call::MoeQ8Ids { .. } => "gemm_q8_0_ids",
            Call::MoeQ51GmIds { .. } => "q4_gemm_q5_1_gm_ids",
            Call::MoeQ51Gm { .. } => "q4_gemm_q5_1_gm",
            Call::MoeQ4kGe { .. } => "q4_gemm_q4k_ge",
            Call::GdnArSwap { .. } => "gdn_ar_w_swap",
            Call::GdnArNp { .. } => "gdn_ar_w_np",
            Call::GdnConvNp { .. } => "gdn_conv_np",
            Call::QkNormRope { .. } => "qk_norm_rope",
            Call::ArgmaxS1 { .. } => "argmax_rows_s1",
            Call::ArgmaxS2 { .. } => "argmax_rows_s2",
            Call::SiluDiv { .. } => "q4_silu_div",
            Call::SiluMul { .. } => "silu_mul",
            Call::Sigmoid { .. } => "q4_sigmoid",
            Call::RmsSmall { .. } => "rms_small",
            Call::RmsPart { .. } => "rms_part",
            Call::RmsFinish { .. } => "rms_finish",
            Call::NormGated { .. } => "q4_norm_gated_sig",
            Call::L2Rows { .. } => "q4_l2_rows",
            Call::Scale { .. } => "q4_scale",
            Call::BcastRows { .. } => "bcast_rows",
            Call::CopyRows { .. } => "copy_rows",
            Call::HcGateMean { .. } => "q4_hc_gate_mean",
            Call::HcCombine { .. } => "q4_hc_combine",
            Call::Split3 { .. } => "split3",
            Call::GdnBetaG { .. } => "gdn_beta_g",
            Call::GdnConv { .. } => "gdn_conv",
            Call::GdnConvT2 { .. } => "gdn_conv_t2",
            Call::GdnConvState { .. } => "gdn_conv_state",
            Call::MoeTop10 { .. } => "q4_moe_top10_m",
            Call::MoeWeightedSum { .. } => "q4_moe_weighted_sum",
            Call::AxpyScaled { .. } => "axpy_scaled",
            Call::AxpyScaledT { .. } => "q4_axpy_scaled_t",
            Call::QsaSel { .. } => "q4_qsa_attn_sel",
            Call::QsaSel4 { .. } => "q4_qsa_attn_sel4",
            Call::QsaSel6 { .. } => "q4_qsa_attn_sel6",
            Call::QsaSplit { .. } => "q4_qsa_attn_sel4s",
            Call::QsaMerge { .. } => "q4_qsa_attn_sel4s_merge",
            Call::QsaMasked { .. } => "q4_qsa_attn_wt",
            Call::IdxBlockKeys { .. } => "q4_idx_bk_update",
            Call::IdxQRope { .. } => "q4_idx_q_rope",
            Call::IdxScore { .. } => "q4_idx_score",
            Call::IdxTopk { .. } => "q4_idx_topk",
            Call::IdxRank { .. } => "q4_idx_rank",
            Call::IdxExpand { .. } => "q4_idx_expand",
            Call::PackStrided { .. } => "pack_strided",
            Call::VitGemm { .. } => "gemm_f32t",
            Call::LayerNorm { .. } => "layernorm_t",
            Call::VitRope { .. } => "vit_rope",
            Call::FlashVit { .. } => "flash_vit",
            Call::GeluT { .. } => "gelu_t",
            Call::AddF32 { .. } => "add_f32",
            Call::TileGemm { kern, .. } => kern.name(),
            Call::TileGemmLut { kern, .. } => kern.name(),
            Call::DequantXs { .. } => "dequant_f16_xs",
            Call::DequantQ5k { .. } => "dequant_f16_q5k",
            Call::DequantXsDebug { .. } => "dequant_f16_xs_dbg",
            Call::GemmQ51 { .. } => "q4_gemm_q5_1",
            Call::GemmXsBare { .. } => "gemm_xs",
            Call::Rmsq { .. } => "rmsq",
            Call::Gatedq { .. } => "gatedq",
            Call::Flash { kern, .. } => kern.name(),
            Call::KvF16 { .. } => "kv_f16",
            Call::GemmIq3s { .. } => "gemm_iq3s",
            Call::Dp4aProbe { .. } => "dp4a_probe",
            Call::BwProbe { .. } => "bw_probe",
            Call::BwStream { .. } => "bw_stream",
            Call::QuantQ8 { .. } => "quant_q8",
            Call::GemmQ6k { .. } => "gemm_q6k",
            Call::Q6kScalar { .. } => "q6k_ref_scalar",
            Call::HcaRepro { .. } => "q4_hca_repro",
        }
    }

    /// The positional argument list.
    pub open spec fn spec_args(&self) -> Seq<Arg> {
        match *self {
            Call::GemmQ4kY { xq, w, part, out, n_in, n_out, xq_w, t, rpt } => seq![
                Arg::Ptr(xq),
                Arg::Ptr(w),
                Arg::Ptr(part),
                Arg::Ptr(out),
                Arg::I32(n_in),
                Arg::I32(n_out),
                Arg::I32(xq_w),
                Arg::I32(t),
                Arg::I32(rpt),
            ],
            Call::GemmQ4kX { xq, w, part, out, n_in, n_out, xq_w, t } => seq![
                Arg::Ptr(xq),
                Arg::Ptr(w),
                Arg::Ptr(part),
                Arg::Ptr(out),
                Arg::I32(n_in),
                Arg::I32(n_out),
                Arg::I32(xq_w),
                Arg::I32(t),
            ],
            Call::GemmQ4kG { xq, w, part, out, n_in, n_out, xq_w, t, outs, rows } => seq![
                Arg::Ptr(xq),
                Arg::Ptr(w),
                Arg::Ptr(part),
                Arg::Ptr(out),
                Arg::I32(n_in),
                Arg::I32(n_out),
                Arg::I32(xq_w),
                Arg::I32(t),
                Arg::I32(outs),
                Arg::I32(rows),
            ],
            Call::GemmQ4kM { xq, w, part, out, n_in, n_out, xq_w, t } => seq![
                Arg::Ptr(xq),
                Arg::Ptr(w),
                Arg::Ptr(part),
                Arg::Ptr(out),
                Arg::I32(n_in),
                Arg::I32(n_out),
                Arg::I32(xq_w),
                Arg::I32(t),
            ],
            Call::GemmQ51M { xq, w, part, out, n_in, n_out, xq_w, t } => seq![
                Arg::Ptr(xq),
                Arg::Ptr(w),
                Arg::Ptr(part),
                Arg::Ptr(out),
                Arg::I32(n_in),
                Arg::I32(n_out),
                Arg::I32(xq_w),
                Arg::I32(t),
            ],
            Call::GemmQ51T { xq, w, part, out, n_in, n_out, xq_w, t } => seq![
                Arg::Ptr(xq),
                Arg::Ptr(w),
                Arg::Ptr(part),
                Arg::Ptr(out),
                Arg::I32(n_in),
                Arg::I32(n_out),
                Arg::I32(xq_w),
                Arg::I32(t),
            ],
            Call::GemmF32M { x, w, out, n_in, n_out, stride, t } => seq![
                Arg::Ptr(x),
                Arg::Ptr(w),
                Arg::Ptr(out),
                Arg::I32(n_in),
                Arg::I32(n_out),
                Arg::I32(stride),
                Arg::I32(t),
            ],
            Call::GemmF32W { x, w, out, n_in, n_out } => seq![
                Arg::Ptr(x),
                Arg::Ptr(w),
                Arg::Ptr(out),
                Arg::I32(n_in),
                Arg::I32(n_out),
            ],
            Call::GemmF32Mt { x, w, out, n_in, n_out, t } => seq![
                Arg::Ptr(x),
                Arg::Ptr(w),
                Arg::Ptr(out),
                Arg::I32(n_in),
                Arg::I32(n_out),
                Arg::I32(t),
            ],
            Call::GemmF32 { x, w, out, n_in, n_out, stride } => seq![
                Arg::Ptr(x),
                Arg::Ptr(w),
                Arg::Ptr(out),
                Arg::I32(n_in),
                Arg::I32(n_out),
                Arg::I32(stride),
            ],
            Call::GemmQ8Dual { xq, w1, w2, out1, out2, n_in, n_out1, n_out2, xq_w } => seq![
                Arg::Ptr(xq),
                Arg::Ptr(w1),
                Arg::Ptr(w2),
                Arg::Ptr(out1),
                Arg::Ptr(out2),
                Arg::I32(n_in),
                Arg::I32(n_out1),
                Arg::I32(n_out2),
                Arg::I32(xq_w),
            ],
            Call::GemmF32Dual { x, w1, out1, w2, out2, n_in, n_out1, n_out2 } => seq![
                Arg::Ptr(x),
                Arg::Ptr(w1),
                Arg::Ptr(out1),
                Arg::Ptr(w2),
                Arg::Ptr(out2),
                Arg::I32(n_in),
                Arg::I32(n_out1),
                Arg::I32(n_out2),
            ],
            Call::GemmMixDual { xq, w8, out8, n_out8, x, w4, out4, n_out4, n_in, xq_w } => seq![
                Arg::Ptr(xq),
                Arg::Ptr(w8),
                Arg::Ptr(out8),
                Arg::I32(n_out8),
                Arg::Ptr(x),
                Arg::Ptr(w4),
                Arg::Ptr(out4),
                Arg::I32(n_out4),
                Arg::I32(n_in),
                Arg::I32(xq_w),
            ],
            Call::ShexpGu { x, wg, wu, h, n_in, n_hidden } => seq![
                Arg::Ptr(x),
                Arg::Ptr(wg),
                Arg::Ptr(wu),
                Arg::Ptr(h),
                Arg::I32(n_in),
                Arg::I32(n_hidden),
            ],
            Call::ShexpDa { h, wd, s, out, n_in, n_hidden } => seq![
                Arg::Ptr(h),
                Arg::Ptr(wd),
                Arg::Ptr(s),
                Arg::Ptr(out),
                Arg::I32(n_in),
                Arg::I32(n_hidden),
            ],
            Call::PleGate { res, key, value, nk, nq, nc, gated, gate_out, eps, n_embd, hc, t } => seq![
                Arg::Ptr(res),
                Arg::Ptr(key),
                Arg::Ptr(value),
                Arg::Ptr(nk),
                Arg::Ptr(nq),
                Arg::Ptr(nc),
                Arg::Ptr(gated),
                Arg::Ptr(gate_out),
                Arg::F32(eps),
                Arg::I32(n_embd),
                Arg::I32(hc),
                Arg::I32(t),
            ],
            Call::PleConv { gated, conv_w, ring, conv_out, hc_dim, t, kern, dil, hist } => seq![
                Arg::Ptr(gated),
                Arg::Ptr(conv_w),
                Arg::Ptr(ring),
                Arg::Ptr(conv_out),
                Arg::I32(hc_dim),
                Arg::I32(t),
                Arg::I32(kern),
                Arg::I32(dil),
                Arg::I32(hist),
            ],
            Call::PleResidual { res, value, gate_out, conv_out, n_embd, hc, t } => seq![
                Arg::Ptr(res),
                Arg::Ptr(value),
                Arg::Ptr(gate_out),
                Arg::Ptr(conv_out),
                Arg::I32(n_embd),
                Arg::I32(hc),
                Arg::I32(t),
            ],
            Call::RowsPermute { src, perm, dst, row_words, n } => seq![
                Arg::Ptr(src),
                Arg::Ptr(perm),
                Arg::Ptr(dst),
                Arg::I32(row_words),
                Arg::I32(n),
            ],
            Call::MoeGroup { ids, ne, rows, off, perm, inv, rowexp, perm_pad, inv_pad, tilexp, rows_pad, bound } => seq![
                Arg::Ptr(ids),
                Arg::I32(ne),
                Arg::I32(rows),
                Arg::Ptr(off),
                Arg::Ptr(perm),
                Arg::Ptr(inv),
                Arg::Ptr(rowexp),
                Arg::Ptr(perm_pad),
                Arg::Ptr(inv_pad),
                Arg::Ptr(tilexp),
                Arg::Ptr(rows_pad),
                Arg::I32(bound),
            ],
            Call::MoeGather { mix, xsel, n, k_sel, t } => seq![
                Arg::Ptr(mix),
                Arg::Ptr(xsel),
                Arg::I32(n),
                Arg::I32(k_sel),
                Arg::I32(t),
            ],
            Call::MoeScatter { ys, wt, out, k_sel, n, t } => seq![
                Arg::Ptr(ys),
                Arg::Ptr(wt),
                Arg::Ptr(out),
                Arg::I32(k_sel),
                Arg::I32(n),
                Arg::I32(t),
            ],
            Call::MoeQ4kIds { xq, w, part, out, ids, n_in, n_out, xq_w, t, expert_bytes, rows_pad } => seq![
                Arg::Ptr(xq),
                Arg::Ptr(w),
                Arg::Ptr(part),
                Arg::Ptr(out),
                Arg::Ptr(ids),
                Arg::I32(n_in),
                Arg::I32(n_out),
                Arg::I32(xq_w),
                Arg::I32(t),
                Arg::I32(expert_bytes),
                Arg::Ptr(rows_pad),
            ],
            Call::MoeQ4kReduce { part, out, n, ksplit } => seq![
                Arg::Ptr(part),
                Arg::Ptr(out),
                Arg::I32(n),
                Arg::I32(ksplit),
            ],
            Call::MoeQ51WIds { xq, w, part, out, ids, n_in, n_out, xq_w, t, expert_words } => seq![
                Arg::Ptr(xq),
                Arg::Ptr(w),
                Arg::Ptr(part),
                Arg::Ptr(out),
                Arg::Ptr(ids),
                Arg::I32(n_in),
                Arg::I32(n_out),
                Arg::I32(xq_w),
                Arg::I32(t),
                Arg::I32(expert_words),
            ],
            Call::MoeQ8Ids { xq, w, part, out, ids, n_in, n_out, xq_w, t, expert_bytes } => seq![
                Arg::Ptr(xq),
                Arg::Ptr(w),
                Arg::Ptr(part),
                Arg::Ptr(out),
                Arg::Ptr(ids),
                Arg::I32(n_in),
                Arg::I32(n_out),
                Arg::I32(xq_w),
                Arg::I32(t),
                Arg::I32(expert_bytes),
            ],
            Call::MoeQ51GmIds { xq, w, part, out, ids, n_in, n_out, xq_w, t, expert_words } => seq![
                Arg::Ptr(xq),
                Arg::Ptr(w),
                Arg::Ptr(part),
                Arg::Ptr(out),
                Arg::Ptr(ids),
                Arg::I32(n_in),
                Arg::I32(n_out),
                Arg::I32(xq_w),
                Arg::I32(t),
                Arg::I32(expert_words),
            ],
            Call::MoeQ51Gm { xq, w, part, out, tilexp, n_in, n_out, xq_w, t, expert_words } => seq![
                Arg::Ptr(xq),
                Arg::Ptr(w),
                Arg::Ptr(part),
                Arg::Ptr(out),
                Arg::Ptr(tilexp),
                Arg::I32(n_in),
                Arg::I32(n_out),
                Arg::I32(xq_w),
                Arg::I32(t),
                Arg::I32(expert_words),
            ],
            Call::MoeQ4kGe { xq, w, part, out, rowexp, n_in, n_out, xq_w, t, expert_bytes, rows_pad } => seq![
                Arg::Ptr(xq),
                Arg::Ptr(w),
                Arg::Ptr(part),
                Arg::Ptr(out),
                Arg::Ptr(rowexp),
                Arg::I32(n_in),
                Arg::I32(n_out),
                Arg::I32(xq_w),
                Arg::I32(t),
                Arg::I32(expert_bytes),
                Arg::Ptr(rows_pad),
            ],
            Call::GdnArSwap { state, q, k, v, beta_g, out, d, k_stride, v_stride, h_v, h_k, scale, t } => seq![
                Arg::Ptr(state),
                Arg::Ptr(q),
                Arg::Ptr(k),
                Arg::Ptr(v),
                Arg::Ptr(beta_g),
                Arg::Ptr(out),
                Arg::I32(d),
                Arg::I32(k_stride),
                Arg::I32(v_stride),
                Arg::I32(h_v),
                Arg::I32(h_k),
                Arg::F32(scale),
                Arg::I32(t),
            ],
            Call::GdnArNp { state, q, k, v, beta_g, out, d, k_stride, v_stride, h_v, h_k, scale, t } => seq![
                Arg::Ptr(state),
                Arg::Ptr(q),
                Arg::Ptr(k),
                Arg::Ptr(v),
                Arg::Ptr(beta_g),
                Arg::Ptr(out),
                Arg::I32(d),
                Arg::I32(k_stride),
                Arg::I32(v_stride),
                Arg::I32(h_v),
                Arg::I32(h_k),
                Arg::F32(scale),
                Arg::I32(t),
            ],
            Call::GdnConvNp { qkv, cw, states, out, ch, k, t } => seq![
                Arg::Ptr(qkv),
                Arg::Ptr(cw),
                Arg::Ptr(states),
                Arg::Ptr(out),
                Arg::I32(ch),
                Arg::I32(k),
                Arg::I32(t),
            ],
            Call::QkNormRope { q, k, q_norm, k_norm, cs, eps, kq_scale, pos0, n_head, n_kv, hd, n_rot } => seq![
                Arg::Ptr(q),
                Arg::Ptr(k),
                Arg::Ptr(q_norm),
                Arg::Ptr(k_norm),
                Arg::Ptr(cs),
                Arg::F32(eps),
                Arg::F32(kq_scale),
                Arg::I32(pos0),
                Arg::I32(n_head),
                Arg::I32(n_kv),
                Arg::I32(hd),
                Arg::I32(n_rot),
            ],
            Call::ArgmaxS1 { x, vocab, part, nblk } => seq![
                Arg::Ptr(x),
                Arg::I32(vocab),
                Arg::Ptr(part),
                Arg::I32(nblk),
            ],
            Call::ArgmaxS2 { part, out, nblk } => seq![
                Arg::Ptr(part),
                Arg::Ptr(out),
                Arg::I32(nblk),
            ],
            Call::SiluDiv { t, div, n } => seq![
                Arg::Ptr(t),
                Arg::F32(div),
                Arg::I32(n),
            ],
            Call::SiluMul { g, u, out, n } => seq![
                Arg::Ptr(g),
                Arg::Ptr(u),
                Arg::Ptr(out),
                Arg::I32(n),
            ],
            Call::Sigmoid { t, n } => seq![
                Arg::Ptr(t),
                Arg::I32(n),
            ],
            Call::RmsSmall { x, w, out, eps, n, rows, w_reps } => seq![
                Arg::Ptr(x),
                Arg::Ptr(w),
                Arg::Ptr(out),
                Arg::F32(eps),
                Arg::I32(n),
                Arg::I32(rows),
                Arg::I32(w_reps),
            ],
            Call::RmsPart { x, part, n } => seq![
                Arg::Ptr(x),
                Arg::Ptr(part),
                Arg::I32(n),
            ],
            Call::RmsFinish { x, w, part, out, eps, n, w_reps } => seq![
                Arg::Ptr(x),
                Arg::Ptr(w),
                Arg::Ptr(part),
                Arg::Ptr(out),
                Arg::F32(eps),
                Arg::I32(n),
                Arg::I32(w_reps),
            ],
            Call::NormGated { o, z, w, out, eps, d, n_h } => seq![
                Arg::Ptr(o),
                Arg::Ptr(z),
                Arg::Ptr(w),
                Arg::Ptr(out),
                Arg::F32(eps),
                Arg::I32(d),
                Arg::I32(n_h),
            ],
            Call::L2Rows { x, eps, d } => seq![
                Arg::Ptr(x),
                Arg::F32(eps),
                Arg::I32(d),
            ],
            Call::Scale { t, s, n } => seq![
                Arg::Ptr(t),
                Arg::F32(s),
                Arg::I32(n),
            ],
            Call::BcastRows { src, dst, n, rows } => seq![
                Arg::Ptr(src),
                Arg::Ptr(dst),
                Arg::I32(n),
                Arg::I32(rows),
            ],
            Call::CopyRows { src, dst, src_off, dst_off, n } => seq![
                Arg::Ptr(src),
                Arg::Ptr(dst),
                Arg::I32(src_off),
                Arg::I32(dst_off),
                Arg::I32(n),
            ],
            Call::HcGateMean { xn, gate, out, hc, n, total } => seq![
                Arg::Ptr(xn),
                Arg::Ptr(gate),
                Arg::Ptr(out),
                Arg::I32(hc),
                Arg::I32(n),
                Arg::I32(total),
            ],
            Call::HcCombine { res, out, inj, hc, n, total } => seq![
                Arg::Ptr(res),
                Arg::Ptr(out),
                Arg::Ptr(inj),
                Arg::I32(hc),
                Arg::I32(n),
                Arg::I32(total),
            ],
            Call::Split3 { src, d0, d1, d2, n0, n1, n2 } => seq![
                Arg::Ptr(src),
                Arg::Ptr(d0),
                Arg::Ptr(d1),
                Arg::Ptr(d2),
                Arg::I32(n0),
                Arg::I32(n1),
                Arg::I32(n2),
            ],
            Call::GdnBetaG { b, a, dtb, sa, bg, n_h, dt_rank } => seq![
                Arg::Ptr(b),
                Arg::Ptr(a),
                Arg::Ptr(dtb),
                Arg::Ptr(sa),
                Arg::Ptr(bg),
                Arg::I32(n_h),
                Arg::I32(dt_rank),
            ],
            Call::GdnConv { qkv, cw, state, out, ch, k } => seq![
                Arg::Ptr(qkv),
                Arg::Ptr(cw),
                Arg::Ptr(state),
                Arg::Ptr(out),
                Arg::I32(ch),
                Arg::I32(k),
            ],
            Call::GdnConvT2 { qkv, cw, state, out, ch, k, t } => seq![
                Arg::Ptr(qkv),
                Arg::Ptr(cw),
                Arg::Ptr(state),
                Arg::Ptr(out),
                Arg::I32(ch),
                Arg::I32(k),
                Arg::I32(t),
            ],
            Call::GdnConvState { qkv, state, ch, k, t } => seq![
                Arg::Ptr(qkv),
                Arg::Ptr(state),
                Arg::I32(ch),
                Arg::I32(k),
                Arg::I32(t),
            ],
            Call::MoeTop10 { route, ids, wt, n_exp, k_sel } => seq![
                Arg::Ptr(route),
                Arg::Ptr(ids),
                Arg::Ptr(wt),
                Arg::I32(n_exp),
                Arg::I32(k_sel),
            ],
            Call::MoeWeightedSum { ys, wt, out, k, n } => seq![
                Arg::Ptr(ys),
                Arg::Ptr(wt),
                Arg::Ptr(out),
                Arg::I32(k),
                Arg::I32(n),
            ],
            Call::AxpyScaled { y, x, s, n } => seq![
                Arg::Ptr(y),
                Arg::Ptr(x),
                Arg::Ptr(s),
                Arg::I32(n),
            ],
            Call::AxpyScaledT { y, x, s, n, per } => seq![
                Arg::Ptr(y),
                Arg::Ptr(x),
                Arg::Ptr(s),
                Arg::I32(n),
                Arg::I32(per),
            ],
            Call::QsaSel { q, k, v, sel_idx, sel_off, out, scale, n_head, n_kv, hd, t } => seq![
                Arg::Ptr(q),
                Arg::Ptr(k),
                Arg::Ptr(v),
                Arg::Ptr(sel_idx),
                Arg::Ptr(sel_off),
                Arg::Ptr(out),
                Arg::F32(scale),
                Arg::I32(n_head),
                Arg::I32(n_kv),
                Arg::I32(hd),
                Arg::I32(t),
            ],
            Call::QsaSel4 { q, k, v, sel_idx, sel_off, out, scale, n_head, n_kv, hd, t } => seq![
                Arg::Ptr(q),
                Arg::Ptr(k),
                Arg::Ptr(v),
                Arg::Ptr(sel_idx),
                Arg::Ptr(sel_off),
                Arg::Ptr(out),
                Arg::F32(scale),
                Arg::I32(n_head),
                Arg::I32(n_kv),
                Arg::I32(hd),
                Arg::I32(t),
            ],
            Call::QsaSel6 { q, k, v, sel_idx, sel_off, out, scale, n_head, n_kv, hd, t } => seq![
                Arg::Ptr(q),
                Arg::Ptr(k),
                Arg::Ptr(v),
                Arg::Ptr(sel_idx),
                Arg::Ptr(sel_off),
                Arg::Ptr(out),
                Arg::F32(scale),
                Arg::I32(n_head),
                Arg::I32(n_kv),
                Arg::I32(hd),
                Arg::I32(t),
            ],
            Call::QsaSplit { q, k, v, sel_idx, sel_off, part, n_splits, scale, n_head, n_kv, hd } => seq![
                Arg::Ptr(q),
                Arg::Ptr(k),
                Arg::Ptr(v),
                Arg::Ptr(sel_idx),
                Arg::Ptr(sel_off),
                Arg::Ptr(part),
                Arg::I32(n_splits),
                Arg::F32(scale),
                Arg::I32(n_head),
                Arg::I32(n_kv),
                Arg::I32(hd),
            ],
            Call::QsaMerge { part, q, out, n_splits, n_head, hd } => seq![
                Arg::Ptr(part),
                Arg::Ptr(q),
                Arg::Ptr(out),
                Arg::I32(n_splits),
                Arg::I32(n_head),
                Arg::I32(hd),
            ],
            Call::QsaMasked { q, k, v, mask, out, scale, n_past, n_head, n_kv, hd, t } => seq![
                Arg::Ptr(q),
                Arg::Ptr(k),
                Arg::Ptr(v),
                Arg::Ptr(mask),
                Arg::Ptr(out),
                Arg::F32(scale),
                Arg::I32(n_past),
                Arg::I32(n_head),
                Arg::I32(n_kv),
                Arg::I32(hd),
                Arg::I32(t),
            ],
            Call::IdxBlockKeys { idx_k, block_k, norm, cs, eps, b0, r, dim } => seq![
                Arg::Ptr(idx_k),
                Arg::Ptr(block_k),
                Arg::Ptr(norm),
                Arg::Ptr(cs),
                Arg::F32(eps),
                Arg::I32(b0),
                Arg::I32(r),
                Arg::I32(dim),
            ],
            Call::IdxQRope { q, out, norm, cs, eps, pos0, t, heads, dim } => seq![
                Arg::Ptr(q),
                Arg::Ptr(out),
                Arg::Ptr(norm),
                Arg::Ptr(cs),
                Arg::F32(eps),
                Arg::I32(pos0),
                Arg::I32(t),
                Arg::I32(heads),
                Arg::I32(dim),
            ],
            Call::IdxScore { q, block_k, scores, n_blocks, heads, dim } => seq![
                Arg::Ptr(q),
                Arg::Ptr(block_k),
                Arg::Ptr(scores),
                Arg::I32(n_blocks),
                Arg::I32(heads),
                Arg::I32(dim),
            ],
            Call::IdxTopk { scores, sel_idx, sel_off, n_blocks, n_sel, r, n_past } => seq![
                Arg::Ptr(scores),
                Arg::Ptr(sel_idx),
                Arg::Ptr(sel_off),
                Arg::I32(n_blocks),
                Arg::I32(n_sel),
                Arg::I32(r),
                Arg::I32(n_past),
            ],
            Call::IdxRank { scores, flags, n_blocks, n_sel } => seq![
                Arg::Ptr(scores),
                Arg::Ptr(flags),
                Arg::I32(n_blocks),
                Arg::I32(n_sel),
            ],
            Call::IdxExpand { flags, sel_idx, sel_off, n_blocks, n_sel, r, n_past } => seq![
                Arg::Ptr(flags),
                Arg::Ptr(sel_idx),
                Arg::Ptr(sel_off),
                Arg::I32(n_blocks),
                Arg::I32(n_sel),
                Arg::I32(r),
                Arg::I32(n_past),
            ],
            Call::PackStrided { src, dst, n, stride, t } => seq![
                Arg::Ptr(src),
                Arg::Ptr(dst),
                Arg::I32(n),
                Arg::I32(stride),
                Arg::I32(t),
            ],
            Call::VitGemm { x, w, bias, out, n_in, n_out, t } => seq![
                Arg::Ptr(x),
                Arg::Ptr(w),
                Arg::Ptr(bias),
                Arg::Ptr(out),
                Arg::I32(n_in),
                Arg::I32(n_out),
                Arg::I32(t),
            ],
            Call::LayerNorm { x, w, bias, n, eps, t } => seq![
                Arg::Ptr(x),
                Arg::Ptr(w),
                Arg::Ptr(bias),
                Arg::I32(n),
                Arg::F32(eps),
                Arg::I32(t),
            ],
            Call::VitRope { q, yx, n_head, d_head, t, stride } => seq![
                Arg::Ptr(q),
                Arg::Ptr(yx),
                Arg::I32(n_head),
                Arg::I32(d_head),
                Arg::I32(t),
                Arg::I32(stride),
            ],
            Call::FlashVit { q, k, v, out, t, n_head, d_head, scale } => seq![
                Arg::Ptr(q),
                Arg::Ptr(k),
                Arg::Ptr(v),
                Arg::Ptr(out),
                Arg::I32(t),
                Arg::I32(n_head),
                Arg::I32(d_head),
                Arg::F32(scale),
            ],
            Call::GeluT { x, n } => seq![
                Arg::Ptr(x),
                Arg::I32(n),
            ],
            Call::AddF32 { y, x, n } => seq![
                Arg::Ptr(y),
                Arg::Ptr(x),
                Arg::I32(n),
            ],
            Call::TileGemm { kern: _, xq, w, out, n_in, n_out, xq_w, t } => seq![
                Arg::Ptr(xq),
                Arg::Ptr(w),
                Arg::Ptr(out),
                Arg::I32(n_in),
                Arg::I32(n_out),
                Arg::I32(xq_w),
                Arg::I32(t),
            ],
            Call::TileGemmLut { kern: _, xq, w, out, lut, n_in, n_out, xq_w, t } => seq![
                Arg::Ptr(xq),
                Arg::Ptr(w),
                Arg::Ptr(out),
                Arg::Ptr(lut),
                Arg::I32(n_in),
                Arg::I32(n_out),
                Arg::I32(xq_w),
                Arg::I32(t),
            ],
            Call::DequantXs { w, lut, out, n_in, n_out } => seq![
                Arg::Ptr(w),
                Arg::Ptr(lut),
                Arg::Ptr(out),
                Arg::I32(n_in),
                Arg::I32(n_out),
            ],
            Call::DequantQ5k { w, out, n_in, n_out } => seq![
                Arg::Ptr(w),
                Arg::Ptr(out),
                Arg::I32(n_in),
                Arg::I32(n_out),
            ],
            Call::DequantXsDebug { out, n_in, n_out } => seq![
                Arg::Ptr(out),
                Arg::I32(n_in),
                Arg::I32(n_out),
            ],
            Call::GemmQ51 { xq, w, part, out, n_in, n_out, xq_w, t } => seq![
                Arg::Ptr(xq),
                Arg::Ptr(w),
                Arg::Ptr(part),
                Arg::Ptr(out),
                Arg::I32(n_in),
                Arg::I32(n_out),
                Arg::I32(xq_w),
                Arg::I32(t),
            ],
            Call::GemmXsBare { y, x, s, n } => seq![
                Arg::Ptr(y),
                Arg::Ptr(x),
                Arg::Ptr(s),
                Arg::I32(n),
            ],
            Call::Rmsq { x, w, xq, eps, n } => seq![
                Arg::Ptr(x),
                Arg::Ptr(w),
                Arg::Ptr(xq),
                Arg::F32(eps),
                Arg::I32(n),
            ],
            Call::Gatedq { o, z, w, xq, eps, d, n_h, n_tot } => seq![
                Arg::Ptr(o),
                Arg::Ptr(z),
                Arg::Ptr(w),
                Arg::Ptr(xq),
                Arg::F32(eps),
                Arg::I32(d),
                Arg::I32(n_h),
                Arg::I32(n_tot),
            ],
            Call::Flash { kern: _, q, k, v, mask, part, n_past, n_head, n_kv, hd, t, stride, pos0, seg } => seq![
                Arg::Ptr(q),
                Arg::Ptr(k),
                Arg::Ptr(v),
                Arg::Ptr(mask),
                Arg::Ptr(part),
                Arg::I32(n_past),
                Arg::I32(n_head),
                Arg::I32(n_kv),
                Arg::I32(hd),
                Arg::I32(t),
                Arg::I32(stride),
                Arg::I32(pos0),
                Arg::I32(seg),
            ],
            Call::KvF16 { src, dst, n } => seq![
                Arg::Ptr(src),
                Arg::Ptr(dst),
                Arg::I32(n),
            ],
            Call::GemmIq3s { xq, w, part, n_in, n_out } => seq![
                Arg::Ptr(xq),
                Arg::Ptr(w),
                Arg::Ptr(part),
                Arg::I32(n_in),
                Arg::I32(n_out),
            ],
            Call::Dp4aProbe { x, out } => seq![
                Arg::Ptr(x),
                Arg::Ptr(out),
            ],
            Call::BwProbe { w, part, n_in, n_out, block_bytes } => seq![
                Arg::Ptr(w),
                Arg::Ptr(part),
                Arg::I32(n_in),
                Arg::I32(n_out),
                Arg::I32(block_bytes),
            ],
            Call::BwStream { w, part, words } => seq![
                Arg::Ptr(w),
                Arg::Ptr(part),
                Arg::U64(words),
            ],
            Call::QuantQ8 { x, xq, n } => seq![
                Arg::Ptr(x),
                Arg::Ptr(xq),
                Arg::I32(n),
            ],
            Call::GemmQ6k { xq, w, part, out, n_in, n_out, xq_w } => seq![
                Arg::Ptr(xq),
                Arg::Ptr(w),
                Arg::Ptr(part),
                Arg::Ptr(out),
                Arg::I32(n_in),
                Arg::I32(n_out),
                Arg::I32(xq_w),
            ],
            Call::Q6kScalar { y, w, out, n_in, n_out } => seq![
                Arg::Ptr(y),
                Arg::Ptr(w),
                Arg::Ptr(out),
                Arg::I32(n_in),
                Arg::I32(n_out),
            ],
            Call::HcaRepro { res, norm, w_down, w_inj, low, inj, xn, n, hc, r, eps } => seq![
                Arg::Ptr(res),
                Arg::Ptr(norm),
                Arg::Ptr(w_down),
                Arg::Ptr(w_inj),
                Arg::Ptr(low),
                Arg::Ptr(inj),
                Arg::Ptr(xn),
                Arg::I32(n),
                Arg::I32(hc),
                Arg::I32(r),
                Arg::F32(eps),
            ],
        }
    }

    pub fn args(&self) -> (r: Vec<Arg>)
        ensures
            r@ == self.spec_args(),
    {
        match *self {
            Call::GemmQ4kY { xq, w, part, out, n_in, n_out, xq_w, t, rpt } => vec![
                Arg::Ptr(xq),
                Arg::Ptr(w),
                Arg::Ptr(part),
                Arg::Ptr(out),
                Arg::I32(n_in),
                Arg::I32(n_out),
                Arg::I32(xq_w),
                Arg::I32(t),
                Arg::I32(rpt),
            ],
            Call::GemmQ4kX { xq, w, part, out, n_in, n_out, xq_w, t } => vec![
                Arg::Ptr(xq),
                Arg::Ptr(w),
                Arg::Ptr(part),
                Arg::Ptr(out),
                Arg::I32(n_in),
                Arg::I32(n_out),
                Arg::I32(xq_w),
                Arg::I32(t),
            ],
            Call::GemmQ4kG { xq, w, part, out, n_in, n_out, xq_w, t, outs, rows } => vec![
                Arg::Ptr(xq),
                Arg::Ptr(w),
                Arg::Ptr(part),
                Arg::Ptr(out),
                Arg::I32(n_in),
                Arg::I32(n_out),
                Arg::I32(xq_w),
                Arg::I32(t),
                Arg::I32(outs),
                Arg::I32(rows),
            ],
            Call::GemmQ4kM { xq, w, part, out, n_in, n_out, xq_w, t } => vec![
                Arg::Ptr(xq),
                Arg::Ptr(w),
                Arg::Ptr(part),
                Arg::Ptr(out),
                Arg::I32(n_in),
                Arg::I32(n_out),
                Arg::I32(xq_w),
                Arg::I32(t),
            ],
            Call::GemmQ51M { xq, w, part, out, n_in, n_out, xq_w, t } => vec![
                Arg::Ptr(xq),
                Arg::Ptr(w),
                Arg::Ptr(part),
                Arg::Ptr(out),
                Arg::I32(n_in),
                Arg::I32(n_out),
                Arg::I32(xq_w),
                Arg::I32(t),
            ],
            Call::GemmQ51T { xq, w, part, out, n_in, n_out, xq_w, t } => vec![
                Arg::Ptr(xq),
                Arg::Ptr(w),
                Arg::Ptr(part),
                Arg::Ptr(out),
                Arg::I32(n_in),
                Arg::I32(n_out),
                Arg::I32(xq_w),
                Arg::I32(t),
            ],
            Call::GemmF32M { x, w, out, n_in, n_out, stride, t } => vec![
                Arg::Ptr(x),
                Arg::Ptr(w),
                Arg::Ptr(out),
                Arg::I32(n_in),
                Arg::I32(n_out),
                Arg::I32(stride),
                Arg::I32(t),
            ],
            Call::GemmF32W { x, w, out, n_in, n_out } => vec![
                Arg::Ptr(x),
                Arg::Ptr(w),
                Arg::Ptr(out),
                Arg::I32(n_in),
                Arg::I32(n_out),
            ],
            Call::GemmF32Mt { x, w, out, n_in, n_out, t } => vec![
                Arg::Ptr(x),
                Arg::Ptr(w),
                Arg::Ptr(out),
                Arg::I32(n_in),
                Arg::I32(n_out),
                Arg::I32(t),
            ],
            Call::GemmF32 { x, w, out, n_in, n_out, stride } => vec![
                Arg::Ptr(x),
                Arg::Ptr(w),
                Arg::Ptr(out),
                Arg::I32(n_in),
                Arg::I32(n_out),
                Arg::I32(stride),
            ],
            Call::GemmQ8Dual { xq, w1, w2, out1, out2, n_in, n_out1, n_out2, xq_w } => vec![
                Arg::Ptr(xq),
                Arg::Ptr(w1),
                Arg::Ptr(w2),
                Arg::Ptr(out1),
                Arg::Ptr(out2),
                Arg::I32(n_in),
                Arg::I32(n_out1),
                Arg::I32(n_out2),
                Arg::I32(xq_w),
            ],
            Call::GemmF32Dual { x, w1, out1, w2, out2, n_in, n_out1, n_out2 } => vec![
                Arg::Ptr(x),
                Arg::Ptr(w1),
                Arg::Ptr(out1),
                Arg::Ptr(w2),
                Arg::Ptr(out2),
                Arg::I32(n_in),
                Arg::I32(n_out1),
                Arg::I32(n_out2),
            ],
            Call::GemmMixDual { xq, w8, out8, n_out8, x, w4, out4, n_out4, n_in, xq_w } => vec![
                Arg::Ptr(xq),
                Arg::Ptr(w8),
                Arg::Ptr(out8),
                Arg::I32(n_out8),
                Arg::Ptr(x),
                Arg::Ptr(w4),
                Arg::Ptr(out4),
                Arg::I32(n_out4),
                Arg::I32(n_in),
                Arg::I32(xq_w),
            ],
            Call::ShexpGu { x, wg, wu, h, n_in, n_hidden } => vec![
                Arg::Ptr(x),
                Arg::Ptr(wg),
                Arg::Ptr(wu),
                Arg::Ptr(h),
                Arg::I32(n_in),
                Arg::I32(n_hidden),
            ],
            Call::ShexpDa { h, wd, s, out, n_in, n_hidden } => vec![
                Arg::Ptr(h),
                Arg::Ptr(wd),
                Arg::Ptr(s),
                Arg::Ptr(out),
                Arg::I32(n_in),
                Arg::I32(n_hidden),
            ],
            Call::PleGate { res, key, value, nk, nq, nc, gated, gate_out, eps, n_embd, hc, t } => vec![
                Arg::Ptr(res),
                Arg::Ptr(key),
                Arg::Ptr(value),
                Arg::Ptr(nk),
                Arg::Ptr(nq),
                Arg::Ptr(nc),
                Arg::Ptr(gated),
                Arg::Ptr(gate_out),
                Arg::F32(eps),
                Arg::I32(n_embd),
                Arg::I32(hc),
                Arg::I32(t),
            ],
            Call::PleConv { gated, conv_w, ring, conv_out, hc_dim, t, kern, dil, hist } => vec![
                Arg::Ptr(gated),
                Arg::Ptr(conv_w),
                Arg::Ptr(ring),
                Arg::Ptr(conv_out),
                Arg::I32(hc_dim),
                Arg::I32(t),
                Arg::I32(kern),
                Arg::I32(dil),
                Arg::I32(hist),
            ],
            Call::PleResidual { res, value, gate_out, conv_out, n_embd, hc, t } => vec![
                Arg::Ptr(res),
                Arg::Ptr(value),
                Arg::Ptr(gate_out),
                Arg::Ptr(conv_out),
                Arg::I32(n_embd),
                Arg::I32(hc),
                Arg::I32(t),
            ],
            Call::RowsPermute { src, perm, dst, row_words, n } => vec![
                Arg::Ptr(src),
                Arg::Ptr(perm),
                Arg::Ptr(dst),
                Arg::I32(row_words),
                Arg::I32(n),
            ],
            Call::MoeGroup { ids, ne, rows, off, perm, inv, rowexp, perm_pad, inv_pad, tilexp, rows_pad, bound } => vec![
                Arg::Ptr(ids),
                Arg::I32(ne),
                Arg::I32(rows),
                Arg::Ptr(off),
                Arg::Ptr(perm),
                Arg::Ptr(inv),
                Arg::Ptr(rowexp),
                Arg::Ptr(perm_pad),
                Arg::Ptr(inv_pad),
                Arg::Ptr(tilexp),
                Arg::Ptr(rows_pad),
                Arg::I32(bound),
            ],
            Call::MoeGather { mix, xsel, n, k_sel, t } => vec![
                Arg::Ptr(mix),
                Arg::Ptr(xsel),
                Arg::I32(n),
                Arg::I32(k_sel),
                Arg::I32(t),
            ],
            Call::MoeScatter { ys, wt, out, k_sel, n, t } => vec![
                Arg::Ptr(ys),
                Arg::Ptr(wt),
                Arg::Ptr(out),
                Arg::I32(k_sel),
                Arg::I32(n),
                Arg::I32(t),
            ],
            Call::MoeQ4kIds { xq, w, part, out, ids, n_in, n_out, xq_w, t, expert_bytes, rows_pad } => vec![
                Arg::Ptr(xq),
                Arg::Ptr(w),
                Arg::Ptr(part),
                Arg::Ptr(out),
                Arg::Ptr(ids),
                Arg::I32(n_in),
                Arg::I32(n_out),
                Arg::I32(xq_w),
                Arg::I32(t),
                Arg::I32(expert_bytes),
                Arg::Ptr(rows_pad),
            ],
            Call::MoeQ4kReduce { part, out, n, ksplit } => vec![
                Arg::Ptr(part),
                Arg::Ptr(out),
                Arg::I32(n),
                Arg::I32(ksplit),
            ],
            Call::MoeQ51WIds { xq, w, part, out, ids, n_in, n_out, xq_w, t, expert_words } => vec![
                Arg::Ptr(xq),
                Arg::Ptr(w),
                Arg::Ptr(part),
                Arg::Ptr(out),
                Arg::Ptr(ids),
                Arg::I32(n_in),
                Arg::I32(n_out),
                Arg::I32(xq_w),
                Arg::I32(t),
                Arg::I32(expert_words),
            ],
            Call::MoeQ8Ids { xq, w, part, out, ids, n_in, n_out, xq_w, t, expert_bytes } => vec![
                Arg::Ptr(xq),
                Arg::Ptr(w),
                Arg::Ptr(part),
                Arg::Ptr(out),
                Arg::Ptr(ids),
                Arg::I32(n_in),
                Arg::I32(n_out),
                Arg::I32(xq_w),
                Arg::I32(t),
                Arg::I32(expert_bytes),
            ],
            Call::MoeQ51GmIds { xq, w, part, out, ids, n_in, n_out, xq_w, t, expert_words } => vec![
                Arg::Ptr(xq),
                Arg::Ptr(w),
                Arg::Ptr(part),
                Arg::Ptr(out),
                Arg::Ptr(ids),
                Arg::I32(n_in),
                Arg::I32(n_out),
                Arg::I32(xq_w),
                Arg::I32(t),
                Arg::I32(expert_words),
            ],
            Call::MoeQ51Gm { xq, w, part, out, tilexp, n_in, n_out, xq_w, t, expert_words } => vec![
                Arg::Ptr(xq),
                Arg::Ptr(w),
                Arg::Ptr(part),
                Arg::Ptr(out),
                Arg::Ptr(tilexp),
                Arg::I32(n_in),
                Arg::I32(n_out),
                Arg::I32(xq_w),
                Arg::I32(t),
                Arg::I32(expert_words),
            ],
            Call::MoeQ4kGe { xq, w, part, out, rowexp, n_in, n_out, xq_w, t, expert_bytes, rows_pad } => vec![
                Arg::Ptr(xq),
                Arg::Ptr(w),
                Arg::Ptr(part),
                Arg::Ptr(out),
                Arg::Ptr(rowexp),
                Arg::I32(n_in),
                Arg::I32(n_out),
                Arg::I32(xq_w),
                Arg::I32(t),
                Arg::I32(expert_bytes),
                Arg::Ptr(rows_pad),
            ],
            Call::GdnArSwap { state, q, k, v, beta_g, out, d, k_stride, v_stride, h_v, h_k, scale, t } => vec![
                Arg::Ptr(state),
                Arg::Ptr(q),
                Arg::Ptr(k),
                Arg::Ptr(v),
                Arg::Ptr(beta_g),
                Arg::Ptr(out),
                Arg::I32(d),
                Arg::I32(k_stride),
                Arg::I32(v_stride),
                Arg::I32(h_v),
                Arg::I32(h_k),
                Arg::F32(scale),
                Arg::I32(t),
            ],
            Call::GdnArNp { state, q, k, v, beta_g, out, d, k_stride, v_stride, h_v, h_k, scale, t } => vec![
                Arg::Ptr(state),
                Arg::Ptr(q),
                Arg::Ptr(k),
                Arg::Ptr(v),
                Arg::Ptr(beta_g),
                Arg::Ptr(out),
                Arg::I32(d),
                Arg::I32(k_stride),
                Arg::I32(v_stride),
                Arg::I32(h_v),
                Arg::I32(h_k),
                Arg::F32(scale),
                Arg::I32(t),
            ],
            Call::GdnConvNp { qkv, cw, states, out, ch, k, t } => vec![
                Arg::Ptr(qkv),
                Arg::Ptr(cw),
                Arg::Ptr(states),
                Arg::Ptr(out),
                Arg::I32(ch),
                Arg::I32(k),
                Arg::I32(t),
            ],
            Call::QkNormRope { q, k, q_norm, k_norm, cs, eps, kq_scale, pos0, n_head, n_kv, hd, n_rot } => vec![
                Arg::Ptr(q),
                Arg::Ptr(k),
                Arg::Ptr(q_norm),
                Arg::Ptr(k_norm),
                Arg::Ptr(cs),
                Arg::F32(eps),
                Arg::F32(kq_scale),
                Arg::I32(pos0),
                Arg::I32(n_head),
                Arg::I32(n_kv),
                Arg::I32(hd),
                Arg::I32(n_rot),
            ],
            Call::ArgmaxS1 { x, vocab, part, nblk } => vec![
                Arg::Ptr(x),
                Arg::I32(vocab),
                Arg::Ptr(part),
                Arg::I32(nblk),
            ],
            Call::ArgmaxS2 { part, out, nblk } => vec![
                Arg::Ptr(part),
                Arg::Ptr(out),
                Arg::I32(nblk),
            ],
            Call::SiluDiv { t, div, n } => vec![
                Arg::Ptr(t),
                Arg::F32(div),
                Arg::I32(n),
            ],
            Call::SiluMul { g, u, out, n } => vec![
                Arg::Ptr(g),
                Arg::Ptr(u),
                Arg::Ptr(out),
                Arg::I32(n),
            ],
            Call::Sigmoid { t, n } => vec![
                Arg::Ptr(t),
                Arg::I32(n),
            ],
            Call::RmsSmall { x, w, out, eps, n, rows, w_reps } => vec![
                Arg::Ptr(x),
                Arg::Ptr(w),
                Arg::Ptr(out),
                Arg::F32(eps),
                Arg::I32(n),
                Arg::I32(rows),
                Arg::I32(w_reps),
            ],
            Call::RmsPart { x, part, n } => vec![
                Arg::Ptr(x),
                Arg::Ptr(part),
                Arg::I32(n),
            ],
            Call::RmsFinish { x, w, part, out, eps, n, w_reps } => vec![
                Arg::Ptr(x),
                Arg::Ptr(w),
                Arg::Ptr(part),
                Arg::Ptr(out),
                Arg::F32(eps),
                Arg::I32(n),
                Arg::I32(w_reps),
            ],
            Call::NormGated { o, z, w, out, eps, d, n_h } => vec![
                Arg::Ptr(o),
                Arg::Ptr(z),
                Arg::Ptr(w),
                Arg::Ptr(out),
                Arg::F32(eps),
                Arg::I32(d),
                Arg::I32(n_h),
            ],
            Call::L2Rows { x, eps, d } => vec![
                Arg::Ptr(x),
                Arg::F32(eps),
                Arg::I32(d),
            ],
            Call::Scale { t, s, n } => vec![
                Arg::Ptr(t),
                Arg::F32(s),
                Arg::I32(n),
            ],
            Call::BcastRows { src, dst, n, rows } => vec![
                Arg::Ptr(src),
                Arg::Ptr(dst),
                Arg::I32(n),
                Arg::I32(rows),
            ],
            Call::CopyRows { src, dst, src_off, dst_off, n } => vec![
                Arg::Ptr(src),
                Arg::Ptr(dst),
                Arg::I32(src_off),
                Arg::I32(dst_off),
                Arg::I32(n),
            ],
            Call::HcGateMean { xn, gate, out, hc, n, total } => vec![
                Arg::Ptr(xn),
                Arg::Ptr(gate),
                Arg::Ptr(out),
                Arg::I32(hc),
                Arg::I32(n),
                Arg::I32(total),
            ],
            Call::HcCombine { res, out, inj, hc, n, total } => vec![
                Arg::Ptr(res),
                Arg::Ptr(out),
                Arg::Ptr(inj),
                Arg::I32(hc),
                Arg::I32(n),
                Arg::I32(total),
            ],
            Call::Split3 { src, d0, d1, d2, n0, n1, n2 } => vec![
                Arg::Ptr(src),
                Arg::Ptr(d0),
                Arg::Ptr(d1),
                Arg::Ptr(d2),
                Arg::I32(n0),
                Arg::I32(n1),
                Arg::I32(n2),
            ],
            Call::GdnBetaG { b, a, dtb, sa, bg, n_h, dt_rank } => vec![
                Arg::Ptr(b),
                Arg::Ptr(a),
                Arg::Ptr(dtb),
                Arg::Ptr(sa),
                Arg::Ptr(bg),
                Arg::I32(n_h),
                Arg::I32(dt_rank),
            ],
            Call::GdnConv { qkv, cw, state, out, ch, k } => vec![
                Arg::Ptr(qkv),
                Arg::Ptr(cw),
                Arg::Ptr(state),
                Arg::Ptr(out),
                Arg::I32(ch),
                Arg::I32(k),
            ],
            Call::GdnConvT2 { qkv, cw, state, out, ch, k, t } => vec![
                Arg::Ptr(qkv),
                Arg::Ptr(cw),
                Arg::Ptr(state),
                Arg::Ptr(out),
                Arg::I32(ch),
                Arg::I32(k),
                Arg::I32(t),
            ],
            Call::GdnConvState { qkv, state, ch, k, t } => vec![
                Arg::Ptr(qkv),
                Arg::Ptr(state),
                Arg::I32(ch),
                Arg::I32(k),
                Arg::I32(t),
            ],
            Call::MoeTop10 { route, ids, wt, n_exp, k_sel } => vec![
                Arg::Ptr(route),
                Arg::Ptr(ids),
                Arg::Ptr(wt),
                Arg::I32(n_exp),
                Arg::I32(k_sel),
            ],
            Call::MoeWeightedSum { ys, wt, out, k, n } => vec![
                Arg::Ptr(ys),
                Arg::Ptr(wt),
                Arg::Ptr(out),
                Arg::I32(k),
                Arg::I32(n),
            ],
            Call::AxpyScaled { y, x, s, n } => vec![
                Arg::Ptr(y),
                Arg::Ptr(x),
                Arg::Ptr(s),
                Arg::I32(n),
            ],
            Call::AxpyScaledT { y, x, s, n, per } => vec![
                Arg::Ptr(y),
                Arg::Ptr(x),
                Arg::Ptr(s),
                Arg::I32(n),
                Arg::I32(per),
            ],
            Call::QsaSel { q, k, v, sel_idx, sel_off, out, scale, n_head, n_kv, hd, t } => vec![
                Arg::Ptr(q),
                Arg::Ptr(k),
                Arg::Ptr(v),
                Arg::Ptr(sel_idx),
                Arg::Ptr(sel_off),
                Arg::Ptr(out),
                Arg::F32(scale),
                Arg::I32(n_head),
                Arg::I32(n_kv),
                Arg::I32(hd),
                Arg::I32(t),
            ],
            Call::QsaSel4 { q, k, v, sel_idx, sel_off, out, scale, n_head, n_kv, hd, t } => vec![
                Arg::Ptr(q),
                Arg::Ptr(k),
                Arg::Ptr(v),
                Arg::Ptr(sel_idx),
                Arg::Ptr(sel_off),
                Arg::Ptr(out),
                Arg::F32(scale),
                Arg::I32(n_head),
                Arg::I32(n_kv),
                Arg::I32(hd),
                Arg::I32(t),
            ],
            Call::QsaSel6 { q, k, v, sel_idx, sel_off, out, scale, n_head, n_kv, hd, t } => vec![
                Arg::Ptr(q),
                Arg::Ptr(k),
                Arg::Ptr(v),
                Arg::Ptr(sel_idx),
                Arg::Ptr(sel_off),
                Arg::Ptr(out),
                Arg::F32(scale),
                Arg::I32(n_head),
                Arg::I32(n_kv),
                Arg::I32(hd),
                Arg::I32(t),
            ],
            Call::QsaSplit { q, k, v, sel_idx, sel_off, part, n_splits, scale, n_head, n_kv, hd } => vec![
                Arg::Ptr(q),
                Arg::Ptr(k),
                Arg::Ptr(v),
                Arg::Ptr(sel_idx),
                Arg::Ptr(sel_off),
                Arg::Ptr(part),
                Arg::I32(n_splits),
                Arg::F32(scale),
                Arg::I32(n_head),
                Arg::I32(n_kv),
                Arg::I32(hd),
            ],
            Call::QsaMerge { part, q, out, n_splits, n_head, hd } => vec![
                Arg::Ptr(part),
                Arg::Ptr(q),
                Arg::Ptr(out),
                Arg::I32(n_splits),
                Arg::I32(n_head),
                Arg::I32(hd),
            ],
            Call::QsaMasked { q, k, v, mask, out, scale, n_past, n_head, n_kv, hd, t } => vec![
                Arg::Ptr(q),
                Arg::Ptr(k),
                Arg::Ptr(v),
                Arg::Ptr(mask),
                Arg::Ptr(out),
                Arg::F32(scale),
                Arg::I32(n_past),
                Arg::I32(n_head),
                Arg::I32(n_kv),
                Arg::I32(hd),
                Arg::I32(t),
            ],
            Call::IdxBlockKeys { idx_k, block_k, norm, cs, eps, b0, r, dim } => vec![
                Arg::Ptr(idx_k),
                Arg::Ptr(block_k),
                Arg::Ptr(norm),
                Arg::Ptr(cs),
                Arg::F32(eps),
                Arg::I32(b0),
                Arg::I32(r),
                Arg::I32(dim),
            ],
            Call::IdxQRope { q, out, norm, cs, eps, pos0, t, heads, dim } => vec![
                Arg::Ptr(q),
                Arg::Ptr(out),
                Arg::Ptr(norm),
                Arg::Ptr(cs),
                Arg::F32(eps),
                Arg::I32(pos0),
                Arg::I32(t),
                Arg::I32(heads),
                Arg::I32(dim),
            ],
            Call::IdxScore { q, block_k, scores, n_blocks, heads, dim } => vec![
                Arg::Ptr(q),
                Arg::Ptr(block_k),
                Arg::Ptr(scores),
                Arg::I32(n_blocks),
                Arg::I32(heads),
                Arg::I32(dim),
            ],
            Call::IdxTopk { scores, sel_idx, sel_off, n_blocks, n_sel, r, n_past } => vec![
                Arg::Ptr(scores),
                Arg::Ptr(sel_idx),
                Arg::Ptr(sel_off),
                Arg::I32(n_blocks),
                Arg::I32(n_sel),
                Arg::I32(r),
                Arg::I32(n_past),
            ],
            Call::IdxRank { scores, flags, n_blocks, n_sel } => vec![
                Arg::Ptr(scores),
                Arg::Ptr(flags),
                Arg::I32(n_blocks),
                Arg::I32(n_sel),
            ],
            Call::IdxExpand { flags, sel_idx, sel_off, n_blocks, n_sel, r, n_past } => vec![
                Arg::Ptr(flags),
                Arg::Ptr(sel_idx),
                Arg::Ptr(sel_off),
                Arg::I32(n_blocks),
                Arg::I32(n_sel),
                Arg::I32(r),
                Arg::I32(n_past),
            ],
            Call::PackStrided { src, dst, n, stride, t } => vec![
                Arg::Ptr(src),
                Arg::Ptr(dst),
                Arg::I32(n),
                Arg::I32(stride),
                Arg::I32(t),
            ],
            Call::VitGemm { x, w, bias, out, n_in, n_out, t } => vec![
                Arg::Ptr(x),
                Arg::Ptr(w),
                Arg::Ptr(bias),
                Arg::Ptr(out),
                Arg::I32(n_in),
                Arg::I32(n_out),
                Arg::I32(t),
            ],
            Call::LayerNorm { x, w, bias, n, eps, t } => vec![
                Arg::Ptr(x),
                Arg::Ptr(w),
                Arg::Ptr(bias),
                Arg::I32(n),
                Arg::F32(eps),
                Arg::I32(t),
            ],
            Call::VitRope { q, yx, n_head, d_head, t, stride } => vec![
                Arg::Ptr(q),
                Arg::Ptr(yx),
                Arg::I32(n_head),
                Arg::I32(d_head),
                Arg::I32(t),
                Arg::I32(stride),
            ],
            Call::FlashVit { q, k, v, out, t, n_head, d_head, scale } => vec![
                Arg::Ptr(q),
                Arg::Ptr(k),
                Arg::Ptr(v),
                Arg::Ptr(out),
                Arg::I32(t),
                Arg::I32(n_head),
                Arg::I32(d_head),
                Arg::F32(scale),
            ],
            Call::GeluT { x, n } => vec![
                Arg::Ptr(x),
                Arg::I32(n),
            ],
            Call::AddF32 { y, x, n } => vec![
                Arg::Ptr(y),
                Arg::Ptr(x),
                Arg::I32(n),
            ],
            Call::TileGemm { kern: _, xq, w, out, n_in, n_out, xq_w, t } => vec![
                Arg::Ptr(xq),
                Arg::Ptr(w),
                Arg::Ptr(out),
                Arg::I32(n_in),
                Arg::I32(n_out),
                Arg::I32(xq_w),
                Arg::I32(t),
            ],
            Call::TileGemmLut { kern: _, xq, w, out, lut, n_in, n_out, xq_w, t } => vec![
                Arg::Ptr(xq),
                Arg::Ptr(w),
                Arg::Ptr(out),
                Arg::Ptr(lut),
                Arg::I32(n_in),
                Arg::I32(n_out),
                Arg::I32(xq_w),
                Arg::I32(t),
            ],
            Call::DequantXs { w, lut, out, n_in, n_out } => vec![
                Arg::Ptr(w),
                Arg::Ptr(lut),
                Arg::Ptr(out),
                Arg::I32(n_in),
                Arg::I32(n_out),
            ],
            Call::DequantQ5k { w, out, n_in, n_out } => vec![
                Arg::Ptr(w),
                Arg::Ptr(out),
                Arg::I32(n_in),
                Arg::I32(n_out),
            ],
            Call::DequantXsDebug { out, n_in, n_out } => vec![
                Arg::Ptr(out),
                Arg::I32(n_in),
                Arg::I32(n_out),
            ],
            Call::GemmQ51 { xq, w, part, out, n_in, n_out, xq_w, t } => vec![
                Arg::Ptr(xq),
                Arg::Ptr(w),
                Arg::Ptr(part),
                Arg::Ptr(out),
                Arg::I32(n_in),
                Arg::I32(n_out),
                Arg::I32(xq_w),
                Arg::I32(t),
            ],
            Call::GemmXsBare { y, x, s, n } => vec![
                Arg::Ptr(y),
                Arg::Ptr(x),
                Arg::Ptr(s),
                Arg::I32(n),
            ],
            Call::Rmsq { x, w, xq, eps, n } => vec![
                Arg::Ptr(x),
                Arg::Ptr(w),
                Arg::Ptr(xq),
                Arg::F32(eps),
                Arg::I32(n),
            ],
            Call::Gatedq { o, z, w, xq, eps, d, n_h, n_tot } => vec![
                Arg::Ptr(o),
                Arg::Ptr(z),
                Arg::Ptr(w),
                Arg::Ptr(xq),
                Arg::F32(eps),
                Arg::I32(d),
                Arg::I32(n_h),
                Arg::I32(n_tot),
            ],
            Call::Flash { kern: _, q, k, v, mask, part, n_past, n_head, n_kv, hd, t, stride, pos0, seg } => vec![
                Arg::Ptr(q),
                Arg::Ptr(k),
                Arg::Ptr(v),
                Arg::Ptr(mask),
                Arg::Ptr(part),
                Arg::I32(n_past),
                Arg::I32(n_head),
                Arg::I32(n_kv),
                Arg::I32(hd),
                Arg::I32(t),
                Arg::I32(stride),
                Arg::I32(pos0),
                Arg::I32(seg),
            ],
            Call::KvF16 { src, dst, n } => vec![
                Arg::Ptr(src),
                Arg::Ptr(dst),
                Arg::I32(n),
            ],
            Call::GemmIq3s { xq, w, part, n_in, n_out } => vec![
                Arg::Ptr(xq),
                Arg::Ptr(w),
                Arg::Ptr(part),
                Arg::I32(n_in),
                Arg::I32(n_out),
            ],
            Call::Dp4aProbe { x, out } => vec![
                Arg::Ptr(x),
                Arg::Ptr(out),
            ],
            Call::BwProbe { w, part, n_in, n_out, block_bytes } => vec![
                Arg::Ptr(w),
                Arg::Ptr(part),
                Arg::I32(n_in),
                Arg::I32(n_out),
                Arg::I32(block_bytes),
            ],
            Call::BwStream { w, part, words } => vec![
                Arg::Ptr(w),
                Arg::Ptr(part),
                Arg::U64(words),
            ],
            Call::QuantQ8 { x, xq, n } => vec![
                Arg::Ptr(x),
                Arg::Ptr(xq),
                Arg::I32(n),
            ],
            Call::GemmQ6k { xq, w, part, out, n_in, n_out, xq_w } => vec![
                Arg::Ptr(xq),
                Arg::Ptr(w),
                Arg::Ptr(part),
                Arg::Ptr(out),
                Arg::I32(n_in),
                Arg::I32(n_out),
                Arg::I32(xq_w),
            ],
            Call::Q6kScalar { y, w, out, n_in, n_out } => vec![
                Arg::Ptr(y),
                Arg::Ptr(w),
                Arg::Ptr(out),
                Arg::I32(n_in),
                Arg::I32(n_out),
            ],
            Call::HcaRepro { res, norm, w_down, w_inj, low, inj, xn, n, hc, r, eps } => vec![
                Arg::Ptr(res),
                Arg::Ptr(norm),
                Arg::Ptr(w_down),
                Arg::Ptr(w_inj),
                Arg::Ptr(low),
                Arg::Ptr(inj),
                Arg::Ptr(xn),
                Arg::I32(n),
                Arg::I32(hc),
                Arg::I32(r),
                Arg::F32(eps),
            ],
        }
    }
}

} // verus!
