use vstd::prelude::*;
use crate::ggml::GgmlType;
use crate::vit_names::VitWeight;

verus! {

/// The frame transfers that check their range.
#[derive(Clone, Copy, PartialEq, Eq, Structural, Debug)]
pub enum Transfer {
    Write,
    WriteU32,
    Read,
}

/// The resident pools that keep a watermark.
#[derive(Clone, Copy, PartialEq, Eq, Structural, Debug)]
pub enum PoolKind {
    Kv,
    Indexer,
}

/// The buffers that a host rebuild reads.
#[derive(Clone, Copy, PartialEq, Eq, Structural, Debug)]
pub enum RebuildPart {
    Kv,
    Indexer,
    BlockKeys,
}

/// Why a request is refused.
#[allow(inconsistent_fields)]
#[derive(Clone, Copy, PartialEq, Eq, Structural, Debug)]
pub enum AccError {
    /// The device ran out of memory or refused the allocation.
    Alloc { bytes: usize },
    FrameHandleZero,
    FrameHandleMissing { h: u64 },
    FrameRange { what: Transfer, need: usize, cap: usize, h: u64 },
    SliceRange { need: usize, cap: usize },
    RowLength { len: usize, n_in: usize },
    GroupLength { ws: usize, outs: usize },
    FrameGroupLength { ws: usize, outs: usize },
    PairedLength { ws: usize, xs: usize, outs: usize },
    MoeDownLength { xs: usize, ids: usize, outs: usize },
    /// Batched recurrence over several sequences is another operation.
    GdnArSequences,
    /// The device reported more padded rows than the buffers hold.
    MoeBound { rows_pad: usize, bound: usize, ne: usize },
    /// The offsets that the device computed put an expert behind the rows that the
    /// buffers hold.
    MoeStart { expert: usize, bound: usize },
    NoContextLength { pool: PoolKind },
    /// Positions between the watermark and the request were never written.
    Hole { pool: PoolKind, w: usize, pos0: usize },
    IndexerShape { r: usize, idx_dim: usize },
    /// Decoding only: one token at a time.
    SelectTokens { t: usize },
    SelectBlockZero,
    SelectBlocks { n_blocks: usize },
    SelectSplit { t: usize },
    PleTokens { t: usize },
    RebuildShort { kv: bool, idx: bool, pos: usize },
    RebuildMissing { part: RebuildPart },
    KvMissing,
    KMismatch { at: usize, pool: u32, host: u32 },
    VMismatch { at: usize, pool: u32, host: u32 },
    AttentionOnHost { t: usize },
    SelectedAttentionOnHost { t: usize },
    UnsupportedOp,
    /// More image tokens than the attention kernel's shared memory holds.
    VitTokens { t: usize },
    VitWeightMissing { w: VitWeight },
}

/// Why a check or a probe is refused.
#[allow(inconsistent_fields)]
#[derive(Clone, Copy, PartialEq, Eq, Structural, Debug)]
pub enum ProbeError {
    /// The tensor has a type that the probe does not handle.
    Type { ty: GgmlType },
    /// The rows are not a whole number of super blocks.
    RowLength { n_in: usize },
    /// The band must be a proper divisor of the batch and hold the kernel.
    Bands { t: usize, per: usize },
    /// Batches of this size need kernels that are not loaded.
    Batch { t: usize },
    /// The type needs a family of kernels that is not loaded.
    Kernels { ty: GgmlType },
    /// An index lies outside the row.
    Index,
}

} // verus!
