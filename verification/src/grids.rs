//! How much work the grid of a launch reaches.
//!
//! Every kernel cuts its work into blocks: so many outputs, rows, heads or elements
//! each. A grid with too few blocks leaves part of the work undone.

use vstd::prelude::*;
use crate::device::Launch;
use crate::kernels::Call;

verus! {

/// Threads of a launch in x.
pub open spec fn threads_x(l: Launch) -> int {
    l.gx * l.block
}

/// Blocks of `outs` outputs in x and of `rows` rows in y reach all outputs and rows.
pub open spec fn tiles_reach(l: Launch, outs: int, n_out: int, rows: int, t: int) -> bool {
    l.gx * outs >= n_out && l.gy * rows >= t && l.gz >= 1 && l.block >= outs * rows
}

/// Blocks of eight warps, one output each, reach all outputs.
pub open spec fn warps_reach(l: Launch, n_out: int) -> bool {
    l.gx * 8 >= n_out && l.gy >= 1 && l.gz >= 1 && l.block >= 256
}

/// Threads, one element each, reach all elements.
pub open spec fn elements_reach(l: Launch, n: int) -> bool {
    threads_x(l) >= n && l.gy >= 1 && l.gz >= 1
}

/// Blocks of one warp, laid out over x and y, reach everything.
pub open spec fn blocks_reach(l: Launch, x: int, y: int) -> bool {
    l.gx >= x && l.gy >= y && l.gz >= 1 && l.block >= 32
}

/// The bytes of shared memory that a block of sixteen rows of q8 activations needs.
pub open spec fn tile_smem(n_in: int) -> int {
    16 * (n_in / 32) * 24
}

/// The grid reaches all of the work that the arguments of the kernel describe. Where
/// a kernel takes its number of rows or tokens from the grid alone, that number is no
/// part of this.
pub open spec fn covers(l: Launch) -> bool {
    match l.call {
        Call::GemmQ4kY { n_out, t, rpt, .. } => l.gx * 256 >= n_out && l.gy * rpt >= t && l.gz >= 1
            && l.block >= 256,
        Call::GemmQ4kX { n_out, t, .. } => tiles_reach(l, 16, n_out as int, 16, t as int),
        Call::GemmQ4kG { n_out, t, outs, rows, .. } => tiles_reach(
            l,
            outs as int,
            n_out as int,
            rows as int,
            t as int,
        ),
        Call::GemmQ4kM { n_out, t, .. } => tiles_reach(l, 16, n_out as int, 16, t as int),
        Call::GemmQ51M { n_in, n_out, t, .. } => tiles_reach(l, 16, n_out as int, 16, t as int)
            && l.smem >= tile_smem(n_in as int),
        Call::GemmQ51T { n_out, t, .. } => l.gx * 16 >= t && l.gy * l.gz * 4 >= n_out && l.block
            >= 256,
        Call::GemmF32M { n_out, t, .. } => tiles_reach(l, 16, n_out as int, 16, t as int),
        Call::GemmF32W { n_out, .. } => warps_reach(l, n_out as int),
        Call::GemmF32Mt { n_out, .. } => warps_reach(l, n_out as int),
        Call::GemmF32 { n_out, .. } => l.gy * l.gz >= n_out && l.block >= 64,
        Call::GemmQ8Dual { n_out1, n_out2, .. } => l.gx >= 1 && l.gy * l.gz >= n_out1 + n_out2
            && l.block >= 64,
        Call::GemmF32Dual { n_out1, n_out2, .. } => warps_reach(l, n_out1 + n_out2),
        Call::GemmMixDual { n_out8, n_out4, .. } => (l.gx - n_out8) * 8 >= n_out4 && l.gy >= 1
            && l.gz >= 1 && l.block >= 256,
        Call::ShexpGu { n_hidden, .. } => warps_reach(l, n_hidden as int),
        Call::ShexpDa { n_in, .. } => warps_reach(l, n_in as int),
        Call::PleGate { hc, t, .. } => l.gx * 8 >= hc && l.gy >= t && l.gz >= 1 && l.block >= 256,
        Call::PleConv { hc_dim, .. } => elements_reach(l, hc_dim as int),
        Call::PleResidual { n_embd, .. } => elements_reach(l, n_embd as int),
        Call::RowsPermute { n, .. } => blocks_reach(l, n as int, 1),
        Call::MoeGroup { .. } => blocks_reach(l, 1, 1),
        Call::MoeGather { n, k_sel, t, .. } => elements_reach(l, t * k_sel * n),
        Call::MoeScatter { n, t, .. } => elements_reach(l, t * n),
        Call::MoeQ4kIds { n_out, t, .. } => tiles_reach(l, 16, n_out as int, 16, t as int),
        Call::MoeQ4kReduce { n, .. } => elements_reach(l, n as int),
        Call::MoeQ51WIds { n_out, t, .. } => warps_reach(l, n_out as int) && l.gy >= t,
        Call::MoeQ8Ids { n_out, t, .. } => warps_reach(l, n_out as int) && l.gy >= t,
        Call::MoeQ51GmIds { n_out, t, .. } => tiles_reach(l, 16, n_out as int, 16, t as int),
        Call::MoeQ51Gm { n_in, n_out, t, .. } => tiles_reach(l, 16, n_out as int, 16, t as int)
            && l.smem >= tile_smem(n_in as int),
        Call::MoeQ4kGe { n_out, t, .. } => tiles_reach(l, 16, n_out as int, 16, t as int),
        Call::GdnArSwap { d, h_v, .. } => blocks_reach(l, d as int, h_v as int),
        Call::GdnArNp { d, h_v, .. } => blocks_reach(l, h_v as int, d as int),
        Call::GdnConvNp { ch, t, .. } => threads_x(l) >= ch && l.gy >= t && l.gz >= 1,
        Call::QkNormRope { n_head, n_kv, .. } => blocks_reach(l, n_head + n_kv, 0),
        Call::ArgmaxS1 { nblk, .. } => blocks_reach(l, nblk as int, 0),
        Call::SiluDiv { n, .. } => elements_reach(l, n as int),
        Call::SiluMul { n, .. } => elements_reach(l, n as int),
        Call::Sigmoid { n, .. } => elements_reach(l, n as int),
        Call::RmsSmall { rows, .. } => warps_reach(l, rows as int),
        Call::RmsPart { .. } => blocks_reach(l, 0, 1),
        Call::RmsFinish { .. } => blocks_reach(l, 0, 1) && l.block >= 256,
        Call::NormGated { n_h, .. } => blocks_reach(l, n_h as int, 0),
        Call::L2Rows { .. } => blocks_reach(l, 0, 1),
        Call::Scale { n, .. } => elements_reach(l, n as int),
        Call::BcastRows { n, rows, .. } => threads_x(l) >= n && l.gy >= rows && l.gz >= 1,
        Call::CopyRows { n, .. } => elements_reach(l, n as int),
        Call::HcGateMean { total, .. } => elements_reach(l, total as int),
        Call::HcCombine { total, .. } => elements_reach(l, total as int),
        Call::GdnBetaG { n_h, .. } => elements_reach(l, n_h as int),
        Call::GdnConv { ch, .. } => elements_reach(l, ch as int),
        Call::GdnConvT2 { ch, t, .. } => threads_x(l) >= ch && l.gy >= t && l.gz >= 1,
        Call::GdnConvState { ch, k, .. } => l.gx >= k - 1 && l.gy * l.block >= ch && l.gz >= 1,
        Call::MoeTop10 { .. } => blocks_reach(l, 0, 1),
        Call::MoeWeightedSum { n, .. } => elements_reach(l, n as int),
        Call::AxpyScaled { n, .. } => elements_reach(l, n as int),
        Call::AxpyScaledT { n, .. } => elements_reach(l, n as int),
        Call::QsaSel { n_head, t, .. } => l.gx * 16 >= t && l.gy >= n_head && l.gz >= 1 && l.block
            >= 512,
        Call::QsaSel4 { n_head, t, .. } => l.gx * 4 >= t && l.gy * 8 >= n_head && l.gz >= 1
            && l.block >= 256,
        Call::QsaSel6 { n_head, t, .. } => l.gx * 4 >= t && l.gy * 12 >= n_head && l.gz >= 1
            && l.block >= 256,
        Call::QsaSplit { n_splits, n_head, .. } => l.gx * 4 >= n_splits && l.gy * 12 >= n_head
            && l.gz >= 1 && l.block >= 256,
        Call::QsaMerge { n_head, .. } => warps_reach(l, n_head as int),
        Call::QsaMasked { n_head, t, .. } => l.gx * 16 >= t && l.gy >= n_head && l.gz >= 1
            && l.block >= 512,
        Call::IdxQRope { heads, t, .. } => blocks_reach(l, heads as int, t as int),
        Call::IdxBlockKeys { .. } => blocks_reach(l, 0, 1),
        Call::IdxScore { n_blocks, .. } => elements_reach(l, n_blocks as int),
        Call::IdxTopk { .. } => blocks_reach(l, 1, 1) && l.block >= 256,
        Call::IdxRank { n_blocks, .. } => elements_reach(l, n_blocks as int),
        Call::IdxExpand { .. } => blocks_reach(l, 1, 1) && l.block >= 256,
        Call::PackStrided { n, t, .. } => threads_x(l) >= n && l.gy >= t && l.gz >= 1,
        Call::VitGemm { n_out, t, .. } => l.gx * 32 >= t && l.gy * l.gz * 8 >= n_out && l.block
            >= 256,
        Call::LayerNorm { t, .. } => blocks_reach(l, t as int, 1),
        Call::VitRope { n_head, t, .. } => blocks_reach(l, t as int, n_head as int),
        Call::FlashVit { n_head, t, .. } => blocks_reach(l, t as int, n_head as int) && l.block
            >= 256,
        Call::GeluT { n, .. } => elements_reach(l, n as int),
        Call::AddF32 { n, .. } => elements_reach(l, n as int),
        Call::KvF16 { n, .. } => elements_reach(l, n as int),
        _ => l.gx >= 1 && l.gy >= 1 && l.gz >= 1,
    }
}

} // verus!
