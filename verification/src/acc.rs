//! The accelerator: what it remembers between requests.

use std::collections::HashMap;
use vstd::prelude::*;
use crate::arith::max_usize;
use crate::consts::{ConstCache, HostKey};
use crate::device::{Cmd, Host, Ptr, Slot};
use crate::error::{AccError, Transfer};
use crate::frames::{Frame, Frames};
use crate::ggml::{f32_family, spec_f32_family};
use crate::key_map::{KeyMap, LayerSeq};
use crate::pool::Pool;
use crate::tuning::Tuning;
use crate::upload::{device_len, fresh_plan, plan_upload, uploaded_len, Resident, Source, Weight, WeightPlan};

verus! {

/// Time spent per kind of work, in nanoseconds, and the number of requests.
#[derive(Clone, Copy, PartialEq, Eq, Structural, Debug)]
pub struct AccTime {
    pub upload_ns: u64,
    pub quant_ns: u64,
    pub launch_ns: u64,
    pub d2h_ns: u64,
    pub calls: u64,
}

/// Quantised activations that expert products may share: those of the rows at
/// `x`, valid for one routing.
#[derive(Clone, Copy, PartialEq, Eq, Structural, Debug)]
pub struct QuantCache {
    pub x: Ptr,
    pub rows: usize,
    pub generation: u64,
    pub xq: Ptr,
    pub xq_w: usize,
}

/// Grouping tables that the products of one routing share.
pub struct MoeGroup {
    pub generation: u64,
    pub rows: usize,
    pub perm: Ptr,
    pub inv: Ptr,
    pub rowexp: Ptr,
    pub perm_pad: Ptr,
    pub inv_pad: Ptr,
    pub tilexp: Ptr,
    pub rows_pad: usize,
    /// Where the device left the padded row count, `Null` for tables built on
    /// the host.
    pub rows_pad_d: Ptr,
    /// Where the device left the expert offsets.
    pub off_d: Ptr,
    /// The offsets are on their way to pinned host memory.
    pub pinned: bool,
    /// The offsets, for tables built on the host.
    pub off: Vec<usize>,
}

/// The accelerator.
pub struct Q4Acc {
    pub tuning: Tuning,
    pub pool: Pool,
    pub frames: Frames,
    /// Part files that weights can be staged from.
    pub sources: Vec<Source>,
    /// Resident weights by host address. None is ever released.
    pub weights: HashMap<usize, Resident>,
    /// Bytes of weights uploaded so far.
    pub wbytes: usize,
    pub time: AccTime,
    /// Tokens of the current frame step.
    pub cur_t: usize,
    /// Context length, 0 until it is set.
    pub ctx_len: usize,
    pub q_norm: ConstCache,
    pub k_norm: ConstCache,
    pub ple_nk: ConstCache,
    pub ple_nq: ConstCache,
    pub ple_nc: ConstCache,
    pub ple_cw: ConstCache,
    /// Hashes of the indexer norms on the device.
    pub iqw_hash: u64,
    pub ikw_hash: u64,
    /// The rotation tables on the device.
    pub csidx_key: HostKey,
    pub cst_key: HostKey,
    /// Watermarks: the next position that a pool expects.
    pub kv_pos: KeyMap<LayerSeq, usize>,
    pub idx_pos: KeyMap<LayerSeq, usize>,
    pub ring_pos: KeyMap<usize, usize>,
    pub moe_group: Option<MoeGroup>,
    pub quant_cache: Option<QuantCache>,
    /// Counts the routings.
    pub moe_gen: u64,
}

impl Q4Acc {
    pub open spec fn wf(&self) -> bool {
        &&& self.pool.wf()
        &&& self.frames.wf()
        &&& self.kv_pos.wf()
        &&& self.idx_pos.wf()
        &&& self.ring_pos.wf()
        &&& self.tuning.usable()
        &&& forall|i: int|
            0 <= i < self.sources@.len() ==> (#[trigger] self.sources@[i]).base
                + self.sources@[i].len <= usize::MAX
        &&& match self.quant_cache {
            Some(q) => q.xq.offset() == 0,
            None => true,
        }
        &&& self.q_norm.wf()
        &&& self.k_norm.wf()
        &&& self.ple_nk.wf()
        &&& self.ple_nq.wf()
        &&& self.ple_nc.wf()
        &&& self.ple_cw.wf()
    }

    /// Tokens of the current step, at least one.
    pub open spec fn spec_t(&self) -> int {
        vstd::math::max(self.cur_t as int, 1)
    }

    /// How a weight gets to the device: it stays where it is once it is there.
    pub open spec fn weight_plan(&self, w: Weight) -> WeightPlan {
        if self.weights@.dom().contains(w.key) {
            WeightPlan::Resident(self.weights@[w.key])
        } else {
            fresh_plan(self.sources@, w)
        }
    }

    /// Whether the device copy of a weight is plain `f32`.
    pub open spec fn weight_f32(&self, w: Weight) -> bool {
        if self.weights@.dom().contains(w.key) {
            self.weights@[w.key].is_f32
        } else {
            spec_f32_family(w.ty)
        }
    }

    /// An accelerator without part files.
    pub fn new(tuning: Tuning) -> (r: Q4Acc)
        requires
            tuning.usable(),
        ensures
            r.wf(),
            r.is_new(tuning),
            r.sources@ == Seq::<Source>::empty(),
    {
        Q4Acc::new_with_sources(tuning, Vec::new())
    }

    /// Nothing is remembered yet.
    pub open spec fn is_new(&self, tuning: Tuning) -> bool {
        &&& self.tuning == tuning
        &&& self.pool.bufs@ == Map::<Slot, crate::pool::GBuf>::empty()
        &&& self.frames.list@ == Seq::<Frame>::empty()
        &&& self.weights@ == Map::<usize, Resident>::empty()
        &&& self.wbytes == 0
        &&& self.time == (AccTime {
            upload_ns: 0,
            quant_ns: 0,
            launch_ns: 0,
            d2h_ns: 0,
            calls: 0,
        })
        &&& self.cur_t == 1
        &&& self.ctx_len == 0
        &&& self.q_norm.keys@.len() == 0
        &&& self.k_norm.keys@.len() == 0
        &&& self.ple_nk.keys@.len() == 0
        &&& self.ple_nq.keys@.len() == 0
        &&& self.ple_nc.keys@.len() == 0
        &&& self.ple_cw.keys@.len() == 0
        &&& self.iqw_hash == 0
        &&& self.ikw_hash == 0
        &&& self.csidx_key == (HostKey { ptr: 0, len: 0 })
        &&& self.cst_key == (HostKey { ptr: 0, len: 0 })
        &&& self.kv_pos@ == Map::<LayerSeq, usize>::empty()
        &&& self.idx_pos@ == Map::<LayerSeq, usize>::empty()
        &&& self.ring_pos@ == Map::<usize, usize>::empty()
        &&& self.moe_group is None
        &&& self.quant_cache is None
        &&& self.moe_gen == 0
    }

    /// An accelerator that stages uploads from the part files that could be
    /// opened.
    pub fn new_with_sources(tuning: Tuning, sources: Vec<Source>) -> (r: Q4Acc)
        requires
            tuning.usable(),
            forall|i: int|
                0 <= i < sources@.len() ==> (#[trigger] sources@[i]).base + sources@[i].len
                    <= usize::MAX,
        ensures
            r.wf(),
            r.is_new(tuning),
            r.sources == sources,
    {
        broadcast use vstd::std_specs::hash::group_hash_axioms;

        Q4Acc {
            tuning,
            pool: Pool::new(),
            frames: Frames::new(),
            sources,
            weights: HashMap::new(),
            wbytes: 0,
            time: AccTime { upload_ns: 0, quant_ns: 0, launch_ns: 0, d2h_ns: 0, calls: 0 },
            cur_t: 1,
            ctx_len: 0,
            q_norm: ConstCache::new(),
            k_norm: ConstCache::new(),
            ple_nk: ConstCache::new(),
            ple_nq: ConstCache::new(),
            ple_nc: ConstCache::new(),
            ple_cw: ConstCache::new(),
            iqw_hash: 0,
            ikw_hash: 0,
            csidx_key: HostKey { ptr: 0, len: 0 },
            cst_key: HostKey { ptr: 0, len: 0 },
            kv_pos: KeyMap::new(),
            idx_pos: KeyMap::new(),
            ring_pos: KeyMap::new(),
            moe_group: None,
            quant_cache: None,
            moe_gen: 0,
        }
    }

    /// Pins a prefill to the tile kernels, or lets it go again.
    pub fn set_prefill_pin(&mut self, on: bool)
        requires
            old(self).wf(),
        ensures
            final(self).wf(),
            *final(self) == (Q4Acc {
                tuning: Tuning { prefill_pin: on, ..old(self).tuning },
                ..*old(self)
            }),
    {
        self.tuning = Tuning { prefill_pin: on, ..self.tuning };
        assert(self.tuning.usable());
    }

    /// Takes the switches as they now are. The pin of a prefill stays.
    pub fn retune(&mut self, tuning: Tuning)
        requires
            old(self).wf(),
            tuning.usable(),
        ensures
            final(self).wf(),
            *final(self) == (Q4Acc {
                tuning: Tuning { prefill_pin: old(self).tuning.prefill_pin, ..tuning },
                ..*old(self)
            }),
    {
        self.tuning = Tuning { prefill_pin: self.tuning.prefill_pin, ..tuning };
        assert(self.tuning.usable());
    }

    /// Adds the times of one request; every two hundredth asks for a report.
    pub fn note(&mut self, up: u64, q: u64, k: u64, d: u64) -> (report: bool)
        requires
            old(self).time.upload_ns + up <= u64::MAX,
            old(self).time.quant_ns + q <= u64::MAX,
            old(self).time.launch_ns + k <= u64::MAX,
            old(self).time.d2h_ns + d <= u64::MAX,
            old(self).time.calls < u64::MAX,
        ensures
            *final(self) == (Q4Acc {
                time: AccTime {
                    upload_ns: (old(self).time.upload_ns + up) as u64,
                    quant_ns: (old(self).time.quant_ns + q) as u64,
                    launch_ns: (old(self).time.launch_ns + k) as u64,
                    d2h_ns: (old(self).time.d2h_ns + d) as u64,
                    calls: (old(self).time.calls + 1) as u64,
                },
                ..*old(self)
            }),
            report == ((old(self).time.calls + 1) % 200 == 0),
    {
        let t = self.time;
        self.time = AccTime {
            upload_ns: t.upload_ns + up,
            quant_ns: t.quant_ns + q,
            launch_ns: t.launch_ns + k,
            d2h_ns: t.d2h_ns + d,
            calls: t.calls + 1,
        };
        self.time.calls % 200 == 0
    }

    /// Bytes of weights uploaded so far.
    pub fn uploaded_bytes(&self) -> (r: usize)
        ensures
            r == self.wbytes,
    {
        self.wbytes
    }

    /// Sets the context length, by which resident pools are sized.
    pub fn set_ctx_len(&mut self, n: usize)
        ensures
            *final(self) == (Q4Acc { ctx_len: n, ..*old(self) }),
    {
        self.ctx_len = n;
    }

    /// Starts a frame step of `t` tokens.
    pub fn frame_begin(&mut self, t: usize)
        ensures
            *final(self) == (Q4Acc {
                cur_t: vstd::math::max(t as int, 1) as usize,
                ..*old(self)
            }),
    {
        self.cur_t = max_usize(t, 1);
    }

    /// Tokens of the current step.
    pub fn t_cur(&self) -> (r: usize)
        ensures
            r == self.spec_t(),
            r >= 1,
    {
        max_usize(self.cur_t, 1)
    }

    /// What a weight needs before a product can use it.
    pub fn dev_weight(&self, w: &Weight) -> (r: WeightPlan)
        requires
            self.wf(),
            w.len <= usize::MAX / 2,
        ensures
            r == self.weight_plan(*w),
    {
        broadcast use vstd::std_specs::hash::group_hash_axioms;

        match self.weights.get(&w.key) {
            Some(v) => WeightPlan::Resident(*v),
            None => plan_upload(&self.sources, w),
        }
    }

    /// Takes note of a weight that was uploaded to `ptr`.
    pub fn weight_uploaded(&mut self, w: &Weight, ptr: u64)
        requires
            old(self).wf(),
            w.len <= usize::MAX / 2,
        ensures
            final(self).wf(),
            final(self).weights@ == old(self).weights@.insert(
                w.key,
                Resident { ptr, is_f32: spec_f32_family(w.ty) },
            ),
            *final(self) == (Q4Acc {
                weights: final(self).weights,
                wbytes: old(self).wbytes.wrapping_add(uploaded_len(*w) as usize),
                ..*old(self)
            }),
    {
        broadcast use vstd::std_specs::hash::group_hash_axioms;

        self.wbytes = self.wbytes.wrapping_add(device_len(w));
        self.weights.insert(w.key, Resident { ptr, is_f32: f32_family(w.ty) });
    }

    /// Whether products with a weight take plain `f32` activations.
    pub fn is_f32(&self, w: &Weight) -> (r: bool)
        ensures
            r == self.weight_f32(*w),
    {
        broadcast use vstd::std_specs::hash::group_hash_axioms;

        match self.weights.get(&w.key) {
            Some(v) => v.is_f32,
            None => f32_family(w.ty),
        }
    }

    /// The device address of a frame.
    pub fn fptr(&self, h: u64) -> (r: Result<Ptr, AccError>)
        ensures
            r == self.frames.spec_ptr(h),
    {
        self.frames.ptr(h)
    }

    /// Bytes to allocate for a frame of `len` elements.
    pub fn frame_alloc_bytes(len: usize) -> (r: usize)
        requires
            len * 4 <= usize::MAX,
        ensures
            r == vstd::math::max(len as int, 4) * 4,
    {
        max_usize(len, 4) * 4
    }

    /// Registers a frame of `len` elements; `alloc` is the outcome of the
    /// allocation.
    pub fn frame_alloc(&mut self, len: usize, alloc: Option<u64>) -> (r: Result<u64, AccError>)
        requires
            old(self).wf(),
            len * 4 <= usize::MAX,
        ensures
            final(self).wf(),
            *final(self) == (Q4Acc { frames: final(self).frames, ..*old(self) }),
            match alloc {
                Some(base) => {
                    &&& final(self).frames.list@ == old(self).frames.list@.push(
                        Frame { base, off: 0, cap: (len * 4) as usize },
                    )
                    &&& r == Ok::<u64, AccError>(final(self).frames.list@.len() as u64)
                },
                None => {
                    &&& final(self).frames.list@ == old(self).frames.list@
                    &&& r == Err::<u64, AccError>(
                        AccError::Alloc { bytes: (vstd::math::max(len as int, 4) * 4) as usize },
                    )
                },
            },
    {
        match alloc {
            Some(base) => Ok(self.frames.add_alloc(len, base)),
            None => Err(AccError::Alloc { bytes: Q4Acc::frame_alloc_bytes(len) }),
        }
    }

    /// Frames stay allocated: releasing one does nothing.
    pub fn frame_free(&mut self, h: u64) -> (r: Result<(), AccError>)
        ensures
            *final(self) == *old(self),
            r == Ok::<(), AccError>(()),
    {
        Ok(())
    }

    /// Registers the view of `len` elements from element `off` on of a frame.
    pub fn frame_slice(&mut self, h: u64, off: usize, len: usize) -> (r: Result<u64, AccError>)
        requires
            old(self).wf(),
            (off + len) * 4 <= usize::MAX,
        ensures
            final(self).wf(),
            *final(self) == (Q4Acc { frames: final(self).frames, ..*old(self) }),
            match old(self).frames.lookup(h) {
                Err(e) => r == Err::<u64, AccError>(e) && final(self).frames.list@
                    == old(self).frames.list@,
                Ok(f) => {
                    let need = (off + len) * 4;
                    if need > f.cap {
                        &&& r == Err::<u64, AccError>(
                            AccError::SliceRange { need: need as usize, cap: f.cap },
                        )
                        &&& final(self).frames.list@ == old(self).frames.list@
                    } else {
                        &&& r == Ok::<u64, AccError>((old(self).frames.list@.len() + 1) as u64)
                        &&& final(self).frames.list@ == old(self).frames.list@.push(
                            Frame {
                                base: f.base,
                                off: (f.off + off * 4) as usize,
                                cap: (len * 4) as usize,
                            },
                        )
                    }
                },
            },
    {
        self.frames.slice(h, off, len)
    }

    /// The transfer of `words` 32-bit words to or from a frame.
    pub open spec fn transfer(&self, h: u64, words: int, what: Transfer) -> Result<Cmd, AccError> {
        match self.frames.lookup(h) {
            Err(e) => Err(e),
            Ok(f) => if words * 4 > f.cap {
                Err(AccError::FrameRange { what, need: (words * 4) as usize, cap: f.cap, h })
            } else {
                let p = Ptr::Dev { base: f.base, off: f.off };
                Ok(
                    match what {
                        Transfer::Read => Cmd::D2h {
                            dst: Host::Y,
                            src: p,
                            bytes: (words * 4) as usize,
                        },
                        _ => Cmd::H2d { dst: p, src: Host::X, bytes: (words * 4) as usize },
                    },
                )
            },
        }
    }

    fn frame_transfer(&self, h: u64, words: usize, what: Transfer) -> (r: Result<Cmd, AccError>)
        requires
            words * 4 <= usize::MAX,
        ensures
            r == self.transfer(h, words as int, what),
    {
        let bytes: usize = words * 4;
        match self.frames.check(h, bytes, what) {
            Ok(()) => {},
            Err(e) => {
                return Err(e);
            },
        }
        let p = match self.frames.ptr(h) {
            Ok(p) => p,
            Err(e) => {
                return Err(e);
            },
        };
        Ok(
            match what {
                Transfer::Read => Cmd::D2h { dst: Host::Y, src: p, bytes },
                _ => Cmd::H2d { dst: p, src: Host::X, bytes },
            },
        )
    }

    /// Plans the copy of `len` single-precision values to a frame.
    pub fn frame_write(&self, h: u64, len: usize) -> (r: Result<Cmd, AccError>)
        requires
            len * 4 <= usize::MAX,
        ensures
            r == self.transfer(h, len as int, Transfer::Write),
    {
        self.frame_transfer(h, len, Transfer::Write)
    }

    /// Plans the copy of `len` words to a frame.
    pub fn frame_write_u32(&self, h: u64, len: usize) -> (r: Result<Cmd, AccError>)
        requires
            len * 4 <= usize::MAX,
        ensures
            r == self.transfer(h, len as int, Transfer::WriteU32),
    {
        self.frame_transfer(h, len, Transfer::WriteU32)
    }

    /// Plans the copy of `len` values from a frame.
    pub fn frame_read(&self, h: u64, len: usize) -> (r: Result<Cmd, AccError>)
        requires
            len * 4 <= usize::MAX,
        ensures
            r == self.transfer(h, len as int, Transfer::Read),
    {
        self.frame_transfer(h, len, Transfer::Read)
    }

    /// Returns a sequence slot: its convolution ring and watermark are forgotten.
    pub fn acc_reset_seq(&mut self, seq: usize)
        requires
            old(self).wf(),
        ensures
            final(self).wf(),
            final(self).pool.bufs@ == old(self).pool.bufs@.remove(Slot::PleRing { seq }),
            final(self).ring_pos@ == old(self).ring_pos@.remove(seq),
            *final(self) == (Q4Acc {
                pool: final(self).pool,
                ring_pos: final(self).ring_pos,
                ..*old(self)
            }),
    {
        self.pool.forget(Slot::PleRing { seq });
        self.ring_pos.remove(seq);
    }
}

/// A weight is uploaded at its first use and stays: once its upload is noted, it is
/// found at that address, and no other weight that was there is lost.
pub proof fn law_weights_stay_resident(
    before: Q4Acc,
    after: Q4Acc,
    w: Weight,
    ptr: u64,
    other: Weight,
)
    requires
        after.weights@ == before.weights@.insert(
            w.key,
            Resident { ptr, is_f32: spec_f32_family(w.ty) },
        ),
    ensures
        after.weight_plan(w) == WeightPlan::Resident(
            Resident { ptr, is_f32: spec_f32_family(w.ty) },
        ),
        after.weight_f32(w) == spec_f32_family(w.ty),
        other.key != w.key && before.weight_plan(other) is Resident ==> after.weight_plan(other)
            == before.weight_plan(other),
{
}

} // verus!
