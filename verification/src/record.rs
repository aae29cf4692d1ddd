//! What the accelerator remembers when a program reaches a mark.

use vstd::prelude::*;
use crate::acc::{MoeGroup, Q4Acc, QuantCache};
use crate::consts::{
    const_slot, spec_const_slot, ConstCache, ContentKey, HostKey, CONST_LIMIT,
};
use crate::device::{ConstMap, Mark, Ptr, Slot};
use crate::pool::Pool;
use crate::upload::Weight;

verus! {

impl Q4Acc {
    /// The known constants of a family.
    pub open spec fn spec_cache(&self, map: ConstMap) -> ConstCache {
        match map {
            ConstMap::QNorm => self.q_norm,
            ConstMap::KNorm => self.k_norm,
            ConstMap::PleNk => self.ple_nk,
            ConstMap::PleNq => self.ple_nq,
            ConstMap::PleNc => self.ple_nc,
            ConstMap::PleConvW => self.ple_cw,
        }
    }

    pub fn cache(&self, map: ConstMap) -> (r: &ConstCache)
        ensures
            *r == self.spec_cache(map),
    {
        match map {
            ConstMap::QNorm => &self.q_norm,
            ConstMap::KNorm => &self.k_norm,
            ConstMap::PleNk => &self.ple_nk,
            ConstMap::PleNq => &self.ple_nq,
            ConstMap::PleNc => &self.ple_nc,
            ConstMap::PleConvW => &self.ple_cw,
        }
    }

    /// Only the buffers and the known constants of one family differ.
    pub open spec fn differs_in_consts(&self, other: &Q4Acc, map: ConstMap) -> bool {
        &&& *self == (Q4Acc {
            pool: self.pool,
            q_norm: self.q_norm,
            k_norm: self.k_norm,
            ple_nk: self.ple_nk,
            ple_nq: self.ple_nq,
            ple_nc: self.ple_nc,
            ple_cw: self.ple_cw,
            ..*other
        })
        &&& forall|m: ConstMap| m != map ==> self.spec_cache(m) == other.spec_cache(m)
    }

    /// The state `self` remembers a mark on top of `other`.
    pub open spec fn remembers(&self, other: &Q4Acc, mark: Mark) -> bool {
        match mark {
            Mark::ConstClear { map } => {
                &&& self.differs_in_consts(other, map)
                &&& self.spec_cache(map).keys@ == Seq::<ContentKey>::empty()
                &&& forall|s: Slot| #[trigger]
                    self.pool.bufs@.dom().contains(s) <==> other.pool.bufs@.dom().contains(s)
                        && !(exists|k: ContentKey| other.spec_cache(map).keys@.contains(k) && s
                        == spec_const_slot(map, k))
                &&& forall|s: Slot| #[trigger]
                    self.pool.bufs@.dom().contains(s) ==> self.pool.bufs@[s] == other.pool.bufs@[s]
            },
            Mark::ConstFresh { map, hash, len } => {
                &&& *self == (Q4Acc { pool: self.pool, ..*other })
                &&& self.pool.bufs@ == other.pool.bufs@.remove(Slot::Const { map, hash, len })
            },
            Mark::Const { map, hash, len } => {
                &&& self.differs_in_consts(other, map)
                &&& self.pool == other.pool
                &&& self.spec_cache(map).keys@ == other.spec_cache(map).keys@.push(
                    ContentKey { hash, len },
                )
            },
            Mark::Hashed { slot, hash } => *self == if slot == Slot::QsaIqw {
                Q4Acc { iqw_hash: hash, ..*other }
            } else if slot == Slot::QsaIkw {
                Q4Acc { ikw_hash: hash, ..*other }
            } else {
                *other
            },
            Mark::Keyed { slot, ptr, len } => *self == if slot == Slot::QsaCsidx {
                Q4Acc { csidx_key: HostKey { ptr, len }, ..*other }
            } else if slot == Slot::Cst {
                Q4Acc { cst_key: HostKey { ptr, len }, ..*other }
            } else {
                *other
            },
            Mark::Quantised { x, rows, generation, xq_w } => *self == (Q4Acc {
                quant_cache: Some(
                    QuantCache {
                        x,
                        rows,
                        generation,
                        xq: Ptr::Dev { base: other.pool.ptr_of(Slot::Fxq), off: 0 },
                        xq_w,
                    },
                ),
                ..*other
            }),
            Mark::GroupedOnDevice { generation, rows, bound, ne, pinned } => {
                &&& *self == (Q4Acc { moe_group: self.moe_group, ..*other })
                &&& match self.moe_group {
                    None => false,
                    Some(g) => {
                        &&& g.generation == generation
                        &&& g.rows == rows
                        &&& g.perm == other.table(Slot::Rperm, 0)
                        &&& g.inv == other.table(Slot::Rperm2, 0)
                        &&& g.rowexp == other.table(Slot::Rexp, 0)
                        &&& g.perm_pad == other.table(Slot::Gp, 0)
                        &&& g.inv_pad == other.table(Slot::Gi, 0)
                        &&& g.tilexp == other.table(Slot::Texp, 0)
                        &&& g.rows_pad == bound
                        &&& g.rows_pad_d == other.table(Slot::Gyp, (ne + 1) * 4)
                        &&& g.off_d == other.table(Slot::Gyp, 0)
                        &&& g.pinned == pinned
                        &&& g.off@ == Seq::<usize>::empty()
                    },
                }
            },
        }
    }

    /// The present address of a place in a slot's buffer.
    pub open spec fn table(&self, slot: Slot, off: int) -> Ptr {
        Ptr::Dev { base: self.pool.ptr_of(slot), off: off as usize }
    }

    /// Whether a family has room for one more constant.
    pub fn has_const_room(&self, map: ConstMap) -> (r: bool)
        ensures
            r == (self.spec_cache(map).keys@.len() < CONST_LIMIT),
    {
        let n: usize = match map {
            ConstMap::QNorm => self.q_norm.keys.len(),
            ConstMap::KNorm => self.k_norm.keys.len(),
            ConstMap::PleNk => self.ple_nk.keys.len(),
            ConstMap::PleNq => self.ple_nq.keys.len(),
            ConstMap::PleNc => self.ple_nc.keys.len(),
            ConstMap::PleConvW => self.ple_cw.keys.len(),
        };
        n < CONST_LIMIT
    }

    /// Remembers a mark that a program reached.
    pub fn record(&mut self, mark: Mark)
        requires
            old(self).wf(),
            match mark {
                Mark::GroupedOnDevice { ne, .. } => (ne + 1) * 4 <= usize::MAX,
                Mark::Const { map, .. } => old(self).spec_cache(map).keys@.len() < CONST_LIMIT,
                _ => true,
            },
        ensures
            final(self).wf(),
            final(self).remembers(old(self), mark),
    {
        match mark {
            Mark::ConstClear { map } => {
                let keys: Vec<ContentKey> = match map {
                    ConstMap::QNorm => take_keys(&mut self.q_norm),
                    ConstMap::KNorm => take_keys(&mut self.k_norm),
                    ConstMap::PleNk => take_keys(&mut self.ple_nk),
                    ConstMap::PleNq => take_keys(&mut self.ple_nq),
                    ConstMap::PleNc => take_keys(&mut self.ple_nc),
                    ConstMap::PleConvW => take_keys(&mut self.ple_cw),
                };
                forget_consts(&mut self.pool, map, &keys);
            },
            Mark::ConstFresh { map, hash, len } => {
                self.pool.forget(Slot::Const { map, hash, len });
            },
            Mark::Const { map, hash, len } => {
                let key = ContentKey { hash, len };
                match map {
                    ConstMap::QNorm => self.q_norm.keys.push(key),
                    ConstMap::KNorm => self.k_norm.keys.push(key),
                    ConstMap::PleNk => self.ple_nk.keys.push(key),
                    ConstMap::PleNq => self.ple_nq.keys.push(key),
                    ConstMap::PleNc => self.ple_nc.keys.push(key),
                    ConstMap::PleConvW => self.ple_cw.keys.push(key),
                }
            },
            Mark::Hashed { slot, hash } => {
                if slot == Slot::QsaIqw {
                    self.iqw_hash = hash;
                } else if slot == Slot::QsaIkw {
                    self.ikw_hash = hash;
                }
            },
            Mark::Keyed { slot, ptr, len } => {
                if slot == Slot::QsaCsidx {
                    self.csidx_key = HostKey { ptr, len };
                } else if slot == Slot::Cst {
                    self.cst_key = HostKey { ptr, len };
                }
            },
            Mark::Quantised { x, rows, generation, xq_w } => {
                let base: u64 = self.pool.ptr(Slot::Fxq);
                self.quant_cache = Some(
                    QuantCache { x, rows, generation, xq: Ptr::Dev { base, off: 0 }, xq_w },
                );
            },
            Mark::GroupedOnDevice { generation, rows, bound, ne, pinned } => {
                self.moe_group = Some(
                    MoeGroup {
                        generation,
                        rows,
                        perm: self.table_ptr(Slot::Rperm, 0),
                        inv: self.table_ptr(Slot::Rperm2, 0),
                        rowexp: self.table_ptr(Slot::Rexp, 0),
                        perm_pad: self.table_ptr(Slot::Gp, 0),
                        inv_pad: self.table_ptr(Slot::Gi, 0),
                        tilexp: self.table_ptr(Slot::Texp, 0),
                        rows_pad: bound,
                        rows_pad_d: self.table_ptr(Slot::Gyp, (ne + 1) * 4),
                        off_d: self.table_ptr(Slot::Gyp, 0),
                        pinned,
                        off: Vec::new(),
                    },
                );
            },
        }
    }

    pub fn table_ptr(&self, slot: Slot, off: usize) -> (r: Ptr)
        requires
            self.wf(),
        ensures
            r == self.table(slot, off as int),
    {
        Ptr::Dev { base: self.pool.ptr(slot), off }
    }
}

/// Empties a family and hands out what it knew.
fn take_keys(cache: &mut ConstCache) -> (r: Vec<ContentKey>)
    ensures
        r@ == old(cache).keys@,
        final(cache).keys@ == Seq::<ContentKey>::empty(),
{
    let mut r: Vec<ContentKey> = Vec::new();
    let mut i: usize = 0;
    while i < cache.keys.len()
        invariant
            i <= cache.keys@.len(),
            r@ == cache.keys@.take(i as int),
            cache.keys == old(cache).keys,
        decreases cache.keys@.len() - i,
    {
        r.push(cache.keys[i]);
        i = i + 1;
    }
    cache.keys = Vec::new();
    r
}

/// Forgets the buffers of a family's constants.
fn forget_consts(pool: &mut Pool, map: ConstMap, keys: &Vec<ContentKey>)
    requires
        old(pool).wf(),
    ensures
        final(pool).wf(),
        forall|s: Slot| #[trigger]
            final(pool).bufs@.dom().contains(s) <==> old(pool).bufs@.dom().contains(s) && !(exists|
                k: ContentKey,
            | keys@.contains(k) && s == spec_const_slot(map, k)),
        forall|s: Slot| #[trigger]
            final(pool).bufs@.dom().contains(s) ==> final(pool).bufs@[s] == old(pool).bufs@[s],
{
    let mut i: usize = 0;
    while i < keys.len()
        invariant
            i <= keys@.len(),
            pool.wf(),
            forall|s: Slot| #[trigger]
                pool.bufs@.dom().contains(s) <==> old(pool).bufs@.dom().contains(s) && !(exists|
                    j: int,
                | 0 <= j < i && s == spec_const_slot(map, #[trigger] keys@[j])),
            forall|s: Slot| #[trigger]
                pool.bufs@.dom().contains(s) ==> pool.bufs@[s] == old(pool).bufs@[s],
        decreases keys@.len() - i,
    {
        let ghost p0 = pool.bufs@;
        pool.forget(const_slot(map, keys[i]));
        proof {
            assert forall|s: Slot| #[trigger]
                pool.bufs@.dom().contains(s) <==> old(pool).bufs@.dom().contains(s) && !(exists|
                    j: int,
                | 0 <= j < i + 1 && s == spec_const_slot(map, #[trigger] keys@[j])) by {
                if s == spec_const_slot(map, keys@[i as int]) {
                    assert(!pool.bufs@.dom().contains(s));
                } else {
                    assert(pool.bufs@.dom().contains(s) <==> p0.dom().contains(s));
                    if exists|j: int| 0 <= j < i && s == spec_const_slot(map, #[trigger] keys@[j]) {
                        assert(!p0.dom().contains(s));
                    }
                }
            }
        }
        i = i + 1;
    }
    proof {
        assert forall|s: Slot| #[trigger]
            pool.bufs@.dom().contains(s) <==> old(pool).bufs@.dom().contains(s) && !(exists|
                k: ContentKey,
            | keys@.contains(k) && s == #[trigger] spec_const_slot(map, k)) by {
            if exists|j: int| 0 <= j < keys@.len() && s == spec_const_slot(map, #[trigger] keys@[j]) {
                let j = choose|j: int|
                    0 <= j < keys@.len() && s == spec_const_slot(map, #[trigger] keys@[j]);
                assert(keys@.contains(keys@[j]));
            }
            if exists|k: ContentKey| keys@.contains(k) && s == #[trigger] spec_const_slot(map, k) {
                let k = choose|k: ContentKey|
                    keys@.contains(k) && s == #[trigger] spec_const_slot(map, k);
                let j = choose|j: int| 0 <= j < keys@.len() && keys@[j] == k;
                assert(s == spec_const_slot(map, keys@[j]));
            }
        }
    }
}

/// Whatever a command leaves to remember, the weights on the device, the frames and
/// the watermarks of the caches are untouched.
pub proof fn law_marks_touch_caches_only(before: Q4Acc, after: Q4Acc, mark: Mark, w: Weight)
    requires
        after.remembers(&before, mark),
    ensures
        after.weight_plan(w) == before.weight_plan(w),
        after.frames == before.frames,
        after.kv_pos == before.kv_pos,
        after.idx_pos == before.idx_pos,
        after.ring_pos == before.ring_pos,
{
}

} // verus!
