//! Device buffers that grow on demand and are never released.

use vstd::prelude::*;
use crate::device::{ConstMap, Slot};
use crate::error::AccError;
use crate::key_map::KeyMap;

verus! {

/// A growing device buffer: its name, its capacity and its address, 0 where
/// nothing was allocated yet.
#[derive(Clone, Copy, Debug)]
pub struct GBuf {
    pub name: &'static str,
    pub bytes: usize,
    pub ptr: u64,
}

impl GBuf {
    /// An empty buffer.
    pub fn new(name: &'static str) -> (r: GBuf)
        ensures
            r.name == name,
            r.bytes == 0,
            r.ptr == 0,
    {
        GBuf { name, bytes: 0, ptr: 0 }
    }

    /// Whether a request needs a new allocation.
    pub fn needs(&self, bytes: usize) -> (r: bool)
        ensures
            r == (bytes > self.bytes),
    {
        bytes > self.bytes
    }

    /// Grows the buffer to `bytes` where it is smaller. `alloc` is the address
    /// that the device gave for the new size, where one was needed; a refused
    /// allocation leaves the buffer as it was.
    pub fn ensure(&mut self, bytes: usize, alloc: Option<u64>) -> (r: Result<u64, AccError>)
        ensures
            final(self).name == old(self).name,
            bytes <= old(self).bytes ==> *final(self) == *old(self) && r == Ok::<u64, AccError>(
                old(self).ptr,
            ),
            bytes > old(self).bytes ==> match alloc {
                Some(p) => final(self).bytes == bytes && final(self).ptr == p && r == Ok::<
                    u64,
                    AccError,
                >(p),
                None => *final(self) == *old(self) && r == Err::<u64, AccError>(
                    AccError::Alloc { bytes },
                ),
            },
    {
        if bytes > self.bytes {
            match alloc {
                Some(p) => {
                    self.ptr = p;
                    self.bytes = bytes;
                },
                None => {
                    return Err(AccError::Alloc { bytes });
                },
            }
        }
        Ok(self.ptr)
    }
}

impl Slot {
    /// The label of the slot's buffer.
    pub open spec fn spec_label(&self) -> Seq<char> {
        match *self {
            Slot::Scratch => "scratch"@,
            Slot::Ktab2 => "ktab2"@,
            Slot::Fxq => "fxq"@,
            Slot::Fpart => "fpart"@,
            Slot::Xf => "xf"@,
            Slot::Xq => "xq"@,
            Slot::Yf => "yf"@,
            Slot::Qs => "qs"@,
            Slot::Ckv => "ckv"@,
            Slot::Cvv => "cvv"@,
            Slot::Msk => "msk"@,
            Slot::Soff => "soff"@,
            Slot::Atn => "atn"@,
            Slot::Qsp => "qsp"@,
            Slot::Cst => "cst"@,
            Slot::QsaIqr => "qsa_iqr"@,
            Slot::QsaScr => "qsa_scr"@,
            Slot::QsaSelflag => "qsa_selflag"@,
            Slot::QsaIqw => "qsa_iqw"@,
            Slot::QsaIkw => "qsa_ikw"@,
            Slot::QsaCsidx => "qsa_csidx"@,
            Slot::Xperm => "xperm"@,
            Slot::Yperm => "yperm"@,
            Slot::Rperm => "rperm"@,
            Slot::Rperm2 => "rperm2"@,
            Slot::Rexp => "rexp"@,
            Slot::Texp => "texp"@,
            Slot::Gxp => "gxp"@,
            Slot::Gyp => "gyp"@,
            Slot::Gp => "gp"@,
            Slot::Gi => "gi"@,
            Slot::PleRing { .. } => "ple_ring"@,
            Slot::KvK { .. } => "qsakv_k"@,
            Slot::KvV { .. } => "qsakv_v"@,
            Slot::IdxK { .. } => "qsa_idxk"@,
            Slot::BlockK { .. } => "qsa_bk"@,
            Slot::Probe { .. } => "probe"@,
            Slot::Const { map, .. } => match map {
                ConstMap::QNorm => "qn_t"@,
                ConstMap::KNorm => "kn_t"@,
                ConstMap::PleNk => "ple_nk"@,
                ConstMap::PleNq => "ple_nq"@,
                ConstMap::PleNc => "ple_nc"@,
                ConstMap::PleConvW => "ple_cw"@,
            },
        }
    }

    pub fn label(&self) -> (r: &'static str)
        ensures
            r@ == self.spec_label(),
    {
        match *self {
            Slot::Scratch => "scratch",
            Slot::Ktab2 => "ktab2",
            Slot::Fxq => "fxq",
            Slot::Fpart => "fpart",
            Slot::Xf => "xf",
            Slot::Xq => "xq",
            Slot::Yf => "yf",
            Slot::Qs => "qs",
            Slot::Ckv => "ckv",
            Slot::Cvv => "cvv",
            Slot::Msk => "msk",
            Slot::Soff => "soff",
            Slot::Atn => "atn",
            Slot::Qsp => "qsp",
            Slot::Cst => "cst",
            Slot::QsaIqr => "qsa_iqr",
            Slot::QsaScr => "qsa_scr",
            Slot::QsaSelflag => "qsa_selflag",
            Slot::QsaIqw => "qsa_iqw",
            Slot::QsaIkw => "qsa_ikw",
            Slot::QsaCsidx => "qsa_csidx",
            Slot::Xperm => "xperm",
            Slot::Yperm => "yperm",
            Slot::Rperm => "rperm",
            Slot::Rperm2 => "rperm2",
            Slot::Rexp => "rexp",
            Slot::Texp => "texp",
            Slot::Gxp => "gxp",
            Slot::Gyp => "gyp",
            Slot::Gp => "gp",
            Slot::Gi => "gi",
            Slot::PleRing { .. } => "ple_ring",
            Slot::KvK { .. } => "qsakv_k",
            Slot::KvV { .. } => "qsakv_v",
            Slot::IdxK { .. } => "qsa_idxk",
            Slot::BlockK { .. } => "qsa_bk",
            Slot::Probe { .. } => "probe",
            Slot::Const { map, .. } => match map {
                ConstMap::QNorm => "qn_t",
                ConstMap::KNorm => "kn_t",
                ConstMap::PleNk => "ple_nk",
                ConstMap::PleNq => "ple_nq",
                ConstMap::PleNc => "ple_nc",
                ConstMap::PleConvW => "ple_cw",
            },
        }
    }
}

/// The buffer of each slot.
pub struct Pool {
    pub bufs: KeyMap<Slot, GBuf>,
}

impl Pool {
    pub open spec fn wf(&self) -> bool {
        self.bufs.wf()
    }

    /// Capacity of a slot's buffer; a slot that was never used has none.
    pub open spec fn bytes_of(&self, slot: Slot) -> usize {
        if self.bufs@.dom().contains(slot) {
            self.bufs@[slot].bytes
        } else {
            0
        }
    }

    /// Address of a slot's buffer, 0 where there is none.
    pub open spec fn ptr_of(&self, slot: Slot) -> u64 {
        if self.bufs@.dom().contains(slot) {
            self.bufs@[slot].ptr
        } else {
            0
        }
    }

    pub fn new() -> (r: Pool)
        ensures
            r.wf(),
            r.bufs@ == Map::<Slot, GBuf>::empty(),
    {
        Pool { bufs: KeyMap::new() }
    }

    pub fn bytes(&self, slot: Slot) -> (r: usize)
        requires
            self.wf(),
        ensures
            r == self.bytes_of(slot),
    {
        match self.bufs.get(slot) {
            Some(b) => b.bytes,
            None => 0,
        }
    }

    pub fn ptr(&self, slot: Slot) -> (r: u64)
        requires
            self.wf(),
        ensures
            r == self.ptr_of(slot),
    {
        match self.bufs.get(slot) {
            Some(b) => b.ptr,
            None => 0,
        }
    }

    /// Whether the slot is known, be it with an empty buffer.
    pub fn has(&self, slot: Slot) -> (r: bool)
        requires
            self.wf(),
        ensures
            r == self.bufs@.dom().contains(slot),
    {
        match self.bufs.get(slot) {
            Some(_) => true,
            None => false,
        }
    }

    /// Whether a request needs a new allocation.
    pub fn needs(&self, slot: Slot, bytes: usize) -> (r: bool)
        requires
            self.wf(),
        ensures
            r == (bytes > self.bytes_of(slot)),
    {
        bytes > self.bytes(slot)
    }

    /// `after` is the pool once a slot was asked to hold `bytes`, and `r` the answer.
    pub open spec fn grown(
        &self,
        after: &Pool,
        slot: Slot,
        bytes: usize,
        alloc: Option<u64>,
        r: Result<u64, AccError>,
    ) -> bool {
        &&& after.bufs@.dom() == self.bufs@.dom().insert(slot)
        &&& forall|s: Slot|
            s != slot && self.bufs@.dom().contains(s) ==> after.bufs@[s] == self.bufs@[s]
        &&& if bytes <= self.bytes_of(slot) {
            &&& after.bytes_of(slot) == self.bytes_of(slot)
            &&& after.ptr_of(slot) == self.ptr_of(slot)
            &&& r == Ok::<u64, AccError>(self.ptr_of(slot))
        } else {
            match alloc {
                Some(p) => {
                    &&& after.bytes_of(slot) == bytes
                    &&& after.ptr_of(slot) == p
                    &&& r == Ok::<u64, AccError>(p)
                },
                None => {
                    &&& after.bytes_of(slot) == self.bytes_of(slot)
                    &&& after.ptr_of(slot) == self.ptr_of(slot)
                    &&& r == Err::<u64, AccError>(AccError::Alloc { bytes })
                },
            }
        }
    }

    /// Grows a slot's buffer where it is smaller than `bytes`; `alloc` is the
    /// outcome of the allocation where one was needed. The slot is known
    /// afterwards, whatever the outcome, and no other slot changes.
    pub fn ensure(&mut self, slot: Slot, bytes: usize, alloc: Option<u64>) -> (r: Result<
        u64,
        AccError,
    >)
        requires
            old(self).wf(),
        ensures
            final(self).wf(),
            old(self).grown(final(self), slot, bytes, alloc, r),
    {
        let mut b = match self.bufs.get(slot) {
            Some(b) => b,
            None => GBuf::new(slot.label()),
        };
        let r = b.ensure(bytes, alloc);
        self.bufs.insert(slot, b);
        r
    }

    /// Forgets a slot; its device memory stays allocated.
    pub fn forget(&mut self, slot: Slot)
        requires
            old(self).wf(),
        ensures
            final(self).wf(),
            final(self).bufs@ == old(self).bufs@.remove(slot),
    {
        self.bufs.remove(slot);
    }
}

/// A request for room never takes any away: every buffer keeps at least its
/// capacity, one that did not grow keeps its address, and after a success the slot
/// holds what was asked for.
pub proof fn law_buffers_never_shrink(
    before: Pool,
    after: Pool,
    slot: Slot,
    bytes: usize,
    alloc: Option<u64>,
    r: Result<u64, AccError>,
    s: Slot,
)
    requires
        before.grown(&after, slot, bytes, alloc, r),
    ensures
        after.bytes_of(s) >= before.bytes_of(s),
        after.bytes_of(s) == before.bytes_of(s) ==> after.ptr_of(s) == before.ptr_of(s),
        r is Ok ==> after.bytes_of(slot) >= bytes && r == Ok::<u64, AccError>(after.ptr_of(slot)),
{
}

} // verus!
