//! The vocabulary of device programs: where data lives, what a launch is, and
//! the commands that a driver executes.

use vstd::prelude::*;
use crate::blocks::Pattern;
use crate::kernels::Call;

verus! {

/// Families of constants that are uploaded once per content.
#[derive(Clone, Copy, PartialEq, Eq, Structural, Debug)]
pub enum ConstMap {
    QNorm,
    KNorm,
    PleNk,
    PleNq,
    PleNc,
    PleConvW,
}

/// The device buffers that the accelerator owns. Each grows on demand and is
/// never released.
#[derive(Clone, Copy, PartialEq, Eq, Structural, Debug)]
pub enum Slot {
    /// Scratch area shared by kernels that need partial sums.
    Scratch,
    /// Lookup table of the non-linear quantisation formats.
    Ktab2,
    /// Quantised activations of the frame path.
    Fxq,
    /// Partial sums of the row norms.
    Fpart,
    Xf,
    Xq,
    Yf,
    Qs,
    Ckv,
    Cvv,
    Msk,
    Soff,
    Atn,
    Qsp,
    Cst,
    QsaIqr,
    QsaScr,
    QsaSelflag,
    QsaIqw,
    QsaIkw,
    QsaCsidx,
    Xperm,
    Yperm,
    Rperm,
    Rperm2,
    Rexp,
    Texp,
    Gxp,
    Gyp,
    Gp,
    Gi,
    /// Convolution ring of one sequence.
    PleRing { seq: usize },
    /// Resident keys, values, indexer keys and block keys of one layer and
    /// sequence.
    KvK { layer: usize, seq: usize },
    KvV { layer: usize, seq: usize },
    IdxK { layer: usize, seq: usize },
    BlockK { layer: usize, seq: usize },
    /// A buffer of a probe.
    Probe { id: usize },
    /// A constant, known by the hash and the length of its content.
    Const { map: ConstMap, hash: u64, len: usize },
}

/// A device address: a base and a byte offset.
#[derive(Clone, Copy, PartialEq, Eq, Structural, Debug)]
pub enum Ptr {
    Null,
    /// An address that the driver handed out, plus an offset.
    Dev { base: u64, off: usize },
    /// An offset into the buffer of a slot.
    Buf { slot: Slot, off: usize },
    /// An offset into the resident copy of the weight with this key.
    Weight { key: usize, off: usize },
}

/// A kernel argument.
#[derive(Clone, Copy, PartialEq, Eq, Structural, Debug)]
pub enum Arg {
    Ptr(Ptr),
    I32(i32),
    F32(u32),
    U64(u64),
}

/// One kernel launch: the call, the grid, the threads per block and the bytes
/// of dynamic shared memory.
#[derive(Clone, Copy, PartialEq, Eq, Structural, Debug)]
pub struct Launch {
    pub call: Call,
    pub gx: u32,
    pub gy: u32,
    pub gz: u32,
    pub block: u32,
    pub smem: u32,
}

/// A matrix product that the runtime offers as a whole.
#[derive(Clone, Copy, PartialEq, Eq, Structural, Debug)]
pub struct MatMul {
    pub ty: u32,
    pub x: Ptr,
    pub w: Ptr,
    pub n_in: usize,
    pub n_out: usize,
    pub xq_w: usize,
    pub t: usize,
    pub out: Ptr,
}

/// Products that may be refused for a shape or a type.
#[derive(Clone, Copy, PartialEq, Eq, Structural, Debug)]
pub enum Attempt {
    /// Tiled product over quantised activations.
    Tile(MatMul),
    /// Product that quantises the `f32` activations itself.
    Mmq(MatMul),
    /// Product through a half-precision copy of the weight.
    F16Deq(MatMul),
}

/// Host arrays that take part in a transfer.
#[allow(inconsistent_fields)]
#[derive(Clone, Copy, PartialEq, Eq, Structural, Debug)]
pub enum Host {
    /// Activations, one row after the other.
    X,
    /// Output rows, one after the other.
    Y,
    /// Expert ids.
    Ids,
    Perm,
    Inv,
    RowExp,
    PermPad,
    InvPad,
    TileExp,
    /// Expert offsets and padded row count computed on the device.
    Offsets,
    /// Table of state addresses, one per sequence.
    States,
    /// Result records.
    Records,
    Q,
    K,
    V,
    Mask,
    SelIdx,
    SelOff,
    Cs,
    QNorm,
    KNorm,
    Ring,
    Nk,
    Nq,
    Nc,
    ConvW,
    /// An array of a probe.
    Probe { id: usize },
    /// A vector of zeros with a one at `k`; of ones; of zeros.
    Unit { n: usize, k: usize },
    Ones { n: usize },
    Zeros { bytes: usize },
    /// A repeated word; a repeated byte.
    Repeat { word: u32, n: usize },
    Fill { byte: u8, bytes: usize },
    /// A synthetic q8_0 matrix.
    Q8 { p: Pattern, rows: usize, n_sub: usize },
    /// A q8_0 block with a single one.
    Q8Single { l: usize },
    /// Unit rows of a batch.
    UnitRows { n: usize },
}

/// What the accelerator remembers once the commands before it have succeeded.
#[allow(inconsistent_fields)]
#[derive(Clone, Copy, PartialEq, Eq, Structural, Debug)]
pub enum Mark {
    /// Forget all constants of a family.
    ConstClear { map: ConstMap },
    /// Start over with the buffer of a constant.
    ConstFresh { map: ConstMap, hash: u64, len: usize },
    /// A constant is on the device.
    Const { map: ConstMap, hash: u64, len: usize },
    /// The buffer of a slot holds the content with this hash.
    Hashed { slot: Slot, hash: u64 },
    /// The buffer of a slot holds the host array at this address.
    Keyed { slot: Slot, ptr: usize, len: usize },
    /// The quantised rows in `Slot::Fxq` are those of `x`.
    Quantised { x: Ptr, rows: usize, generation: u64, xq_w: usize },
    /// The tables of the current routing were built on the device.
    GroupedOnDevice { generation: u64, rows: usize, bound: usize, ne: usize, pinned: bool },
}

/// A device command. The driver executes a program from its first command on;
/// see `advance` for what follows a command.
#[allow(inconsistent_fields)]
#[derive(Clone, Copy, PartialEq, Eq, Structural, Debug)]
pub enum Cmd {
    /// Grow the buffer of `slot` to at least `bytes`.
    Ensure { slot: Slot, bytes: usize },
    /// Make the weight with this key resident.
    Weight { key: usize },
    /// Copy to the device, from the device, on the device.
    H2d { dst: Ptr, src: Host, bytes: usize },
    D2h { dst: Host, src: Ptr, bytes: usize },
    D2d { dst: Ptr, src: Ptr, bytes: usize },
    /// Start a copy to pinned host memory; wait for it.
    D2hIssue { src: Ptr, bytes: usize },
    D2hWait,
    /// Set `words` 32-bit words to zero.
    Zero { dst: Ptr, words: usize },
    /// Quantise `t` rows of `f32` activations to q8.
    Quant { x: Ptr, xq: Ptr, n_in: usize, xq_w: usize, t: usize },
    /// Quantise one row of `f32` activations to q8.
    QuantRow { x: Ptr, xq: Ptr, n_in: usize },
    Launch(Launch),
    /// Product over quantised activations that works for every type.
    Gemv(MatMul),
    /// A product whose refusal is an error.
    Must(Attempt),
    /// Wait for the device.
    Sync,
    /// Try a product; skip the next `on_ok` commands where it succeeded and the
    /// next `on_err` where it was refused.
    Try { call: Attempt, on_ok: usize, on_err: usize },
    /// Hand the mark to `Q4Acc::record`.
    Mark(Mark),
}

/// What the driver does after a command.
#[derive(Clone, Copy, PartialEq, Eq, Structural, Debug)]
pub enum Next {
    Goto(usize),
    Fail,
}

impl Cmd {
    /// The successor of the command at `pc`, by whether the device accepted it.
    pub open spec fn spec_advance(&self, pc: int, ok: bool) -> Option<int> {
        match *self {
            Cmd::Try { call: _, on_ok, on_err } => Some(
                pc + 1 + if ok {
                    on_ok as int
                } else {
                    on_err as int
                },
            ),
            _ => if ok {
                Some(pc + 1)
            } else {
                None
            },
        }
    }

    /// A refused attempt leads on; any other failure ends the program.
    pub fn advance(&self, pc: usize, ok: bool) -> (r: Next)
        requires
            match *self {
                Cmd::Try { call: _, on_ok, on_err } => pc + 1 + on_ok <= usize::MAX && pc + 1
                    + on_err <= usize::MAX,
                _ => pc < usize::MAX,
            },
        ensures
            match self.spec_advance(pc as int, ok) {
                Some(n) => r == Next::Goto(n as usize) && n <= usize::MAX,
                None => r == Next::Fail,
            },
    {
        match *self {
            Cmd::Try { call: _, on_ok, on_err } => Next::Goto(
                pc + 1 + if ok {
                    on_ok
                } else {
                    on_err
                },
            ),
            _ => if ok {
                Next::Goto(pc + 1)
            } else {
                Next::Fail
            },
        }
    }
}

impl Ptr {
    /// The address `n` bytes further on.
    pub open spec fn spec_at(self, n: int) -> Ptr {
        match self {
            Ptr::Null => Ptr::Null,
            Ptr::Dev { base, off } => Ptr::Dev { base, off: (off + n) as usize },
            Ptr::Buf { slot, off } => Ptr::Buf { slot, off: (off + n) as usize },
            Ptr::Weight { key, off } => Ptr::Weight { key, off: (off + n) as usize },
        }
    }

    /// The byte offset from the base.
    pub open spec fn offset(self) -> int {
        match self {
            Ptr::Null => 0,
            Ptr::Dev { base: _, off } => off as int,
            Ptr::Buf { slot: _, off } => off as int,
            Ptr::Weight { key: _, off } => off as int,
        }
    }

    pub fn at(self, n: usize) -> (r: Ptr)
        requires
            self.offset() + n <= usize::MAX,
        ensures
            r == self.spec_at(n as int),
    {
        match self {
            Ptr::Null => Ptr::Null,
            Ptr::Dev { base, off } => Ptr::Dev { base, off: off + n },
            Ptr::Buf { slot, off } => Ptr::Buf { slot, off: off + n },
            Ptr::Weight { key, off } => Ptr::Weight { key, off: off + n },
        }
    }
}

/// The start of a slot's buffer.
pub open spec fn spec_buf(slot: Slot) -> Ptr {
    Ptr::Buf { slot, off: 0 }
}

pub fn buf(slot: Slot) -> (r: Ptr)
    ensures
        r == spec_buf(slot),
{
    Ptr::Buf { slot, off: 0 }
}

/// A launch without dynamic shared memory.
pub open spec fn spec_launch(call: Call, gx: u32, gy: u32, gz: u32, block: u32) -> Cmd {
    Cmd::Launch(Launch { call, gx, gy, gz, block, smem: 0 })
}

pub fn launch(call: Call, gx: u32, gy: u32, gz: u32, block: u32) -> (r: Cmd)
    ensures
        r == spec_launch(call, gx, gy, gz, block),
{
    Cmd::Launch(Launch { call, gx, gy, gz, block, smem: 0 })
}

} // verus!
