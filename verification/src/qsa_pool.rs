//! Resident key, value and indexer pools with their watermarks.

use vstd::prelude::*;
use crate::acc::Q4Acc;
use crate::arith::min_usize;
use crate::consts::{hashed_program, keyed_program, upload_by_ptr, upload_hashed, HostKey};
use crate::device::{buf, launch, spec_buf, spec_launch, Cmd, Host, Ptr, Slot};
use crate::error::{AccError, PoolKind, RebuildPart};
use crate::hash::{fnv_hash, fnv_words};
use crate::kernels::Call;
use crate::key_map::{KeyMap, LayerSeq};
use crate::memory::{
    appends_rows, law_append_takes_its_rows, law_copies_read_pools, reads_pools,
};
use crate::op_laws::{frame, lemma_frames};
use crate::score_laws::keys_blocks;

verus! {

/// The next position that a pool expects, 0 where nothing was stored.
pub open spec fn watermark(m: Map<LayerSeq, usize>, at: LayerSeq) -> int {
    if m.dom().contains(at) {
        m[at] as int
    } else {
        0
    }
}

fn mark_of(m: &KeyMap<LayerSeq, usize>, at: LayerSeq) -> (r: usize)
    requires
        m.wf(),
    ensures
        r == watermark(m@, at),
{
    match m.get(at) {
        Some(w) => w,
        None => 0,
    }
}

/// Rows to append: `t` of them from position `pos0` on.
#[derive(Clone, Copy, PartialEq, Eq, Structural, Debug)]
pub struct Append {
    pub at: LayerSeq,
    pub t: usize,
    pub pos0: usize,
}

/// Where indexer keys come from.
#[derive(Clone, Copy, PartialEq, Eq, Structural, Debug)]
pub enum IdxSource {
    Device(Ptr),
    Host,
}

/// A request to the indexer pool: block length, key size, norm epsilon, the
/// rotation table and the key norm.
#[derive(Clone, Copy, PartialEq, Eq, Structural, Debug)]
pub struct IdxReq {
    pub add: Append,
    pub idx_dim: usize,
    pub r: usize,
    pub eps: u32,
    pub cs: HostKey,
}

/// Positions `0 .. w` of a pool are written.
pub open spec fn written_below(written: Set<int>, w: int) -> bool {
    forall|p: int| 0 <= p < w ==> #[trigger] written.contains(p)
}

/// The positions that an append writes.
pub open spec fn appended(pos0: int, t: int) -> Set<int> {
    Set::new(|p: int| pos0 <= p < pos0 + t)
}

/// An append that would leave a hole is the only one that a pool with a known
/// context length refuses.
pub open spec fn append_error(
    kind: PoolKind,
    ctx_len: int,
    m: Map<LayerSeq, usize>,
    a: Append,
) -> Option<AccError> {
    let w = watermark(m, a.at);
    if ctx_len == 0 {
        Some(AccError::NoContextLength { pool: kind })
    } else if a.pos0 > w {
        Some(AccError::Hole { pool: kind, w: w as usize, pos0: a.pos0 })
    } else {
        None
    }
}

/// A pool never has a hole below its watermark: where `written` holds all positions
/// below it, an accepted append, which moves the watermark to its own end, leaves no
/// position below the new one unwritten; an append behind a hole is refused, and the
/// watermark of any other pool stays.
pub proof fn law_watermark_leaves_no_hole(
    kind: PoolKind,
    ctx_len: int,
    m: Map<LayerSeq, usize>,
    a: Append,
    written: Set<int>,
    other: LayerSeq,
)
    requires
        a.pos0 + a.t <= usize::MAX,
        written_below(written, watermark(m, a.at)),
    ensures
        append_error(kind, ctx_len, m, a) is None ==> written_below(
            written.union(appended(a.pos0 as int, a.t as int)),
            watermark(m.insert(a.at, (a.pos0 + a.t) as usize), a.at),
        ),
        a.pos0 > watermark(m, a.at) ==> append_error(kind, ctx_len, m, a) is Some,
        other != a.at ==> watermark(m.insert(a.at, (a.pos0 + a.t) as usize), other) == watermark(
            m,
            other,
        ),
{
    let (pos0, t) = (a.pos0 as int, a.t as int);
    if append_error(kind, ctx_len, m, a) is None {
        assert forall|p: int| 0 <= p < pos0 + t implies #[trigger] written.union(
            appended(pos0, t),
        ).contains(p) by {
            if p >= pos0 {
                assert(appended(pos0, t).contains(p));
            } else {
                assert(written.contains(p));
            }
        }
    }
}

/// Resident keys and values, and the commands that bring them up to date.
pub struct KvPlan {
    pub cmds: Vec<Cmd>,
    pub k: Ptr,
    pub v: Ptr,
}

/// Sizes of the key and value pools can be counted.
pub open spec fn kv_fits(ctx_len: int, a: Append, n_kv: usize, hd: usize) -> bool {
    let row = n_kv * hd;
    &&& a.pos0 + a.t <= usize::MAX
    &&& ctx_len * n_kv <= usize::MAX
    &&& ctx_len * n_kv * hd * 4 <= usize::MAX
    &&& (a.pos0 + a.t) * n_kv <= usize::MAX
    &&& (a.pos0 + a.t) * n_kv * hd * 4 <= usize::MAX
}

impl Q4Acc {
    /// The program that appends rows to the key and value pools.
    pub open spec fn kv_program(&self, a: Append, n_kv: usize, hd: usize, k: Ptr, v: Ptr) -> Seq<
        Cmd,
    > {
        let ks = Slot::KvK { layer: a.at.layer, seq: a.at.seq };
        let vs = Slot::KvV { layer: a.at.layer, seq: a.at.seq };
        let bytes = self.ctx_len * n_kv * hd * 4;
        let off = a.pos0 * n_kv * hd * 4;
        let rows = (a.t * n_kv * hd * 4) as usize;
        (if self.pool.bytes_of(ks) < bytes || !self.pool.bufs@.dom().contains(ks) {
            seq![
                Cmd::Ensure { slot: ks, bytes: bytes as usize },
                Cmd::Ensure { slot: vs, bytes: bytes as usize },
            ]
        } else {
            Seq::empty()
        }) + seq![
            Cmd::D2d { dst: spec_buf(ks).spec_at(off), src: k, bytes: rows },
            Cmd::D2d { dst: spec_buf(vs).spec_at(off), src: v, bytes: rows },
        ]
    }

    /// Plans the append of key and value rows from frames. Rewinding is allowed;
    /// a hole is refused. The watermark moves even where a frame turns out to be
    /// invalid.
    pub fn qsa_kv_dev(&mut self, a: Append, k: u64, v: u64, n_kv: usize, hd: usize) -> (r: Result<
        KvPlan,
        AccError,
    >)
        requires
            old(self).wf(),
            kv_fits(old(self).ctx_len as int, a, n_kv, hd),
        ensures
            final(self).wf(),
            match append_error(
                PoolKind::Kv,
                old(self).ctx_len as int,
                old(self).kv_pos@,
                a,
            ) {
                Some(e) => *final(self) == *old(self) && r == Err::<KvPlan, AccError>(e),
                None => {
                    &&& final(self).kv_pos@ == old(self).kv_pos@.insert(
                        a.at,
                        (a.pos0 + a.t) as usize,
                    )
                    &&& *final(self) == (Q4Acc { kv_pos: final(self).kv_pos, ..*old(self) })
                    &&& match old(self).frame_ptrs(seq![k, v]) {
                        Err(e) => r matches Err(f) && f == e,
                        Ok(p) => r matches Ok(plan) && {
                            &&& plan.cmds@ == old(self).kv_program(a, n_kv, hd, p[0], p[1])
                            &&& plan.k == spec_buf(
                                Slot::KvK { layer: a.at.layer, seq: a.at.seq },
                            )
                            &&& plan.v == spec_buf(
                                Slot::KvV { layer: a.at.layer, seq: a.at.seq },
                            )
                        },
                    }
                },
            },
            r matches Ok(plan) ==> appends_rows(
                *old(self),
                a,
                n_kv,
                hd,
                frame(*old(self), k),
                frame(*old(self), v),
                plan.cmds@,
            ),
    {
        if self.ctx_len == 0 {
            return Err(AccError::NoContextLength { pool: PoolKind::Kv });
        }
        let w: usize = mark_of(&self.kv_pos, a.at);
        if a.pos0 > w {
            return Err(AccError::Hole { pool: PoolKind::Kv, w, pos0: a.pos0 });
        }
        let ks = Slot::KvK { layer: a.at.layer, seq: a.at.seq };
        let vs = Slot::KvV { layer: a.at.layer, seq: a.at.seq };
        proof {
            let (c, n, h, p, t) = (self.ctx_len as int, n_kv as int, hd as int, a.pos0 as int, a.t as int);
            assert(0 <= c * n * h <= c * n * h * 4) by (nonlinear_arith)
                requires
                    0 <= c,
                    0 <= n,
                    0 <= h,
            ;
            assert(0 <= p * n <= (p + t) * n && 0 <= t * n <= (p + t) * n) by (nonlinear_arith)
                requires
                    0 <= p,
                    0 <= t,
                    0 <= n,
            ;
            assert(0 <= p * n * h <= p * n * h * 4 <= (p + t) * n * h * 4) by (nonlinear_arith)
                requires
                    0 <= p * n <= (p + t) * n,
                    0 <= h,
            ;
            assert(0 <= t * n * h <= t * n * h * 4 <= (p + t) * n * h * 4) by (nonlinear_arith)
                requires
                    0 <= t * n <= (p + t) * n,
                    0 <= h,
            ;
        }
        let bytes: usize = self.ctx_len * n_kv * hd * 4;
        let grow = self.pool.bytes(ks) < bytes || !self.pool.has(ks);
        let hs: Vec<u64> = vec![k, v];
        assert(hs@ =~= seq![k, v]);
        let ptrs = self.fptrs(&hs);
        self.kv_pos.insert(a.at, a.pos0 + a.t);
        let p = match ptrs {
            Ok(p) => p,
            Err(e) => {
                return Err(e);
            },
        };
        let off: usize = a.pos0 * n_kv * hd * 4;
        let rows: usize = a.t * n_kv * hd * 4;
        let mut cmds: Vec<Cmd> = Vec::new();
        if grow {
            cmds.push(Cmd::Ensure { slot: ks, bytes });
            cmds.push(Cmd::Ensure { slot: vs, bytes });
        }
        cmds.push(Cmd::D2d { dst: buf(ks).at(off), src: p[0], bytes: rows });
        cmds.push(Cmd::D2d { dst: buf(vs).at(off), src: p[1], bytes: rows });
        assert(cmds@ =~= old(self).kv_program(a, n_kv, hd, p@[0], p@[1]));
        proof {
            lemma_frames(*old(self), hs@, p@);
            law_append_takes_its_rows(*old(self), a, n_kv, hd, p@[0], p@[1]);
        }
        Ok(KvPlan { cmds, k: buf(ks), v: buf(vs) })
    }

    /// Sizes of the indexer pools can be counted.
    pub open spec fn idx_fits(&self, rq: IdxReq) -> bool {
        &&& rq.add.pos0 + rq.add.t <= usize::MAX
        &&& (rq.add.pos0 + rq.add.t) * rq.idx_dim * 4 <= usize::MAX
        &&& (self.ctx_len + 1) * rq.idx_dim * 4 <= usize::MAX
        &&& rq.cs.len * 4 <= usize::MAX
    }

    /// Why the indexer pool refuses an append.
    pub open spec fn idx_error(&self, rq: IdxReq) -> Option<AccError> {
        if self.ctx_len == 0 {
            Some(AccError::NoContextLength { pool: PoolKind::Indexer })
        } else if rq.r == 0 || rq.idx_dim != 128 {
            Some(AccError::IndexerShape { r: rq.r, idx_dim: rq.idx_dim })
        } else {
            append_error(PoolKind::Indexer, self.ctx_len as int, self.idx_pos@, rq.add)
        }
    }

    /// The append completes a block of keys.
    pub open spec fn completes_block(rq: IdxReq) -> bool {
        (rq.add.pos0 + rq.add.t) / rq.r as int > rq.add.pos0 as int / rq.r as int
    }

    /// The program that appends indexer keys and brings the keys of completed
    /// blocks up to date.
    pub open spec fn idx_program(&self, rq: IdxReq, src: IdxSource, ikw: Seq<u32>) -> Seq<Cmd> {
        let a = rq.add;
        let is = Slot::IdxK { layer: a.at.layer, seq: a.at.seq };
        let bs = Slot::BlockK { layer: a.at.layer, seq: a.at.seq };
        let dst = spec_buf(is).spec_at(a.pos0 * rq.idx_dim * 4);
        let bytes = (a.t * rq.idx_dim * 4) as usize;
        let b0 = a.pos0 as int / rq.r as int;
        let b1 = (a.pos0 + a.t) / rq.r as int;
        seq![
            Cmd::Ensure { slot: is, bytes: (self.ctx_len * rq.idx_dim * 4) as usize },
            Cmd::Ensure {
                slot: bs,
                bytes: ((self.ctx_len as int / rq.r as int + 1) * rq.idx_dim * 4) as usize,
            },
            match src {
                IdxSource::Device(p) => Cmd::D2d { dst, src: p, bytes },
                IdxSource::Host => Cmd::H2d { dst, src: Host::K, bytes },
            },
        ] + if Q4Acc::completes_block(rq) {
            hashed_program(
                self.ikw_hash,
                self.pool.ptr_of(Slot::QsaIkw),
                Slot::QsaIkw,
                fnv_words(ikw),
                ikw.len() as usize,
                Host::KNorm,
            ) + keyed_program(
                self.csidx_key,
                self.pool.ptr_of(Slot::QsaCsidx),
                Slot::QsaCsidx,
                rq.cs,
                Host::Cs,
            ) + seq![
                spec_launch(
                    Call::IdxBlockKeys {
                        idx_k: spec_buf(is),
                        block_k: spec_buf(bs),
                        norm: spec_buf(Slot::QsaIkw),
                        cs: spec_buf(Slot::QsaCsidx),
                        eps: rq.eps,
                        b0: b0 as i32,
                        r: rq.r as i32,
                        dim: rq.idx_dim as i32,
                    },
                    (b1 - b0) as u32,
                    1,
                    1,
                    32,
                ),
            ]
        } else {
            Seq::empty()
        }
    }

    /// Plans the append of indexer keys. The rules are those of the key and value
    /// pools.
    pub fn qsa_idx_append(&mut self, rq: &IdxReq, src: IdxSource, ikw: &[u32]) -> (r: Result<
        Vec<Cmd>,
        AccError,
    >)
        requires
            old(self).wf(),
            old(self).idx_fits(*rq),
            ikw@.len() * 4 <= usize::MAX,
        ensures
            final(self).wf(),
            match old(self).idx_error(*rq) {
                Some(e) => *final(self) == *old(self) && r == Err::<Vec<Cmd>, AccError>(e),
                None => {
                    &&& final(self).idx_pos@ == old(self).idx_pos@.insert(
                        rq.add.at,
                        (rq.add.pos0 + rq.add.t) as usize,
                    )
                    &&& *final(self) == (Q4Acc { idx_pos: final(self).idx_pos, ..*old(self) })
                    &&& r matches Ok(c) && c@ == old(self).idx_program(*rq, src, ikw@)
                },
            },
            r matches Ok(c) ==> keys_blocks(*old(self), *rq, src, ikw@, c@),
    {
        proof {
            self.law_append_keys_its_blocks(*rq, src, ikw@);
        }
        let a = rq.add;
        if self.ctx_len == 0 {
            return Err(AccError::NoContextLength { pool: PoolKind::Indexer });
        }
        if rq.r == 0 || rq.idx_dim != 128 {
            return Err(AccError::IndexerShape { r: rq.r, idx_dim: rq.idx_dim });
        }
        let w: usize = mark_of(&self.idx_pos, a.at);
        if a.pos0 > w {
            return Err(AccError::Hole { pool: PoolKind::Indexer, w, pos0: a.pos0 });
        }
        self.idx_pos.insert(a.at, a.pos0 + a.t);
        let is = Slot::IdxK { layer: a.at.layer, seq: a.at.seq };
        let bs = Slot::BlockK { layer: a.at.layer, seq: a.at.seq };
        proof {
            let (p, t, d) = (a.pos0 as int, a.t as int, rq.idx_dim as int);
            assert(0 <= p * d * 4 <= (p + t) * d * 4 && 0 <= t * d * 4 <= (p + t) * d * 4)
                by (nonlinear_arith)
                requires
                    0 <= p,
                    0 <= t,
                    0 <= d,
            ;
            vstd::arithmetic::div_mod::lemma_div_is_ordered(p, p + t, rq.r as int);
            assert(self.ctx_len as int / rq.r as int <= self.ctx_len) by (nonlinear_arith)
                requires
                    rq.r >= 1,
            ;
        }
        let dst = buf(is).at(a.pos0 * rq.idx_dim * 4);
        let bytes: usize = a.t * rq.idx_dim * 4;
        let copy = match src {
            IdxSource::Device(p) => Cmd::D2d { dst, src: p, bytes },
            IdxSource::Host => Cmd::H2d { dst, src: Host::K, bytes },
        };
        let mut r: Vec<Cmd> = vec![
            Cmd::Ensure { slot: is, bytes: self.ctx_len * rq.idx_dim * 4 },
            Cmd::Ensure { slot: bs, bytes: (self.ctx_len / rq.r + 1) * rq.idx_dim * 4 },
            copy,
        ];
        let b0: usize = a.pos0 / rq.r;
        let b1: usize = (a.pos0 + a.t) / rq.r;
        if b1 > b0 {
            let mut x = upload_hashed(
                self.ikw_hash,
                self.pool.ptr(Slot::QsaIkw),
                Slot::QsaIkw,
                fnv_hash(ikw),
                ikw.len(),
                Host::KNorm,
            );
            let mut y = upload_by_ptr(
                self.csidx_key,
                self.pool.ptr(Slot::QsaCsidx),
                Slot::QsaCsidx,
                rq.cs,
                Host::Cs,
            );
            r.append(&mut x);
            r.append(&mut y);
            r.push(
                launch(
                    Call::IdxBlockKeys {
                        idx_k: buf(is),
                        block_k: buf(bs),
                        norm: buf(Slot::QsaIkw),
                        cs: buf(Slot::QsaCsidx),
                        eps: rq.eps,
                        b0: b0 as i32,
                        r: rq.r as i32,
                        dim: rq.idx_dim as i32,
                    },
                    (b1 - b0) as u32,
                    1,
                    1,
                    32,
                ),
            );
        }
        assert(r@ =~= old(self).idx_program(*rq, src, ikw@));
        Ok(r)
    }

    /// Plans the append of indexer keys that the host holds.
    pub fn qsa_idx_append_host(&mut self, rq: &IdxReq, ik: &[u32], ikw: &[u32]) -> (r: Result<
        Vec<Cmd>,
        AccError,
    >)
        requires
            old(self).wf(),
            old(self).idx_fits(*rq),
            ikw@.len() * 4 <= usize::MAX,
            rq.add.t * rq.idx_dim <= ik@.len(),
        ensures
            final(self).wf(),
            match old(self).idx_error(*rq) {
                Some(e) => *final(self) == *old(self) && r == Err::<Vec<Cmd>, AccError>(e),
                None => {
                    &&& final(self).idx_pos@ == old(self).idx_pos@.insert(
                        rq.add.at,
                        (rq.add.pos0 + rq.add.t) as usize,
                    )
                    &&& *final(self) == (Q4Acc { idx_pos: final(self).idx_pos, ..*old(self) })
                    &&& r matches Ok(c) && c@ == old(self).idx_program(
                        *rq,
                        IdxSource::Host,
                        ikw@,
                    )
                },
            },
            r matches Ok(c) ==> keys_blocks(*old(self), *rq, IdxSource::Host, ikw@, c@),
    {
        self.qsa_idx_append(rq, IdxSource::Host, ikw)
    }

    /// Plans the append of indexer keys from a frame.
    pub fn qsa_idx_append_dev(&mut self, rq: &IdxReq, ik: u64, ikw: &[u32]) -> (r: Result<
        Vec<Cmd>,
        AccError,
    >)
        requires
            old(self).wf(),
            old(self).idx_fits(*rq),
            ikw@.len() * 4 <= usize::MAX,
        ensures
            final(self).wf(),
            match old(self).frames.spec_ptr(ik) {
                Err(e) => *final(self) == *old(self) && r == Err::<Vec<Cmd>, AccError>(e),
                Ok(p) => match old(self).idx_error(*rq) {
                    Some(e) => *final(self) == *old(self) && r == Err::<Vec<Cmd>, AccError>(e),
                    None => {
                        &&& final(self).idx_pos@ == old(self).idx_pos@.insert(
                            rq.add.at,
                            (rq.add.pos0 + rq.add.t) as usize,
                        )
                        &&& *final(self) == (Q4Acc { idx_pos: final(self).idx_pos, ..*old(self) })
                        &&& r matches Ok(c) && c@ == old(self).idx_program(
                            *rq,
                            IdxSource::Device(p),
                            ikw@,
                        )
                    },
                },
            },
            r matches Ok(c) ==> keys_blocks(
                *old(self),
                *rq,
                IdxSource::Device(frame(*old(self), ik)),
                ikw@,
                c@,
            ),
    {
        let p = match self.fptr(ik) {
            Ok(p) => p,
            Err(e) => {
                return Err(e);
            },
        };
        self.qsa_idx_append(rq, IdxSource::Device(p), ikw)
    }

    /// The program that reads the pools back up to position `pos`.
    pub open spec fn rebuild_program(
        at: LayerSeq,
        pos: int,
        kv_row: int,
        r: int,
        idx_dim: int,
    ) -> Seq<Cmd> {
        let (layer, seq) = (at.layer, at.seq);
        seq![
            Cmd::D2h {
                dst: Host::K,
                src: spec_buf(Slot::KvK { layer, seq }),
                bytes: (pos * kv_row * 4) as usize,
            },
            Cmd::D2h {
                dst: Host::V,
                src: spec_buf(Slot::KvV { layer, seq }),
                bytes: (pos * kv_row * 4) as usize,
            },
            Cmd::D2h {
                dst: Host::X,
                src: spec_buf(Slot::IdxK { layer, seq }),
                bytes: (pos * idx_dim * 4) as usize,
            },
            Cmd::D2h {
                dst: Host::Y,
                src: spec_buf(Slot::BlockK { layer, seq }),
                bytes: (pos / r * idx_dim * 4) as usize,
            },
        ]
    }

    /// Why a host rebuild up to `pos` is refused: a watermark lies before `pos`,
    /// or a pool is missing.
    pub open spec fn rebuild_error(&self, at: LayerSeq, pos: int) -> Option<AccError> {
        let kv = watermark(self.kv_pos@, at) >= pos;
        let idx = watermark(self.idx_pos@, at) >= pos;
        let (layer, seq) = (at.layer, at.seq);
        if !kv || !idx {
            Some(AccError::RebuildShort { kv, idx, pos: pos as usize })
        } else if !self.pool.bufs@.dom().contains(Slot::KvK { layer, seq }) {
            Some(AccError::RebuildMissing { part: RebuildPart::Kv })
        } else if !self.pool.bufs@.dom().contains(Slot::IdxK { layer, seq }) {
            Some(AccError::RebuildMissing { part: RebuildPart::Indexer })
        } else if !self.pool.bufs@.dom().contains(Slot::BlockK { layer, seq }) {
            Some(AccError::RebuildMissing { part: RebuildPart::BlockKeys })
        } else {
            None
        }
    }

    /// Plans the copy of all pools to the host: keys, values, indexer keys and
    /// the keys of complete blocks.
    pub fn qsa_host_rebuild(
        &self,
        at: LayerSeq,
        pos: usize,
        kv_row: usize,
        r: usize,
        idx_dim: usize,
    ) -> (res: Result<Vec<Cmd>, AccError>)
        requires
            self.wf(),
            r > 0,
            pos * kv_row * 4 <= usize::MAX,
            pos * idx_dim * 4 <= usize::MAX,
        ensures
            match self.rebuild_error(at, pos as int) {
                Some(e) => res == Err::<Vec<Cmd>, AccError>(e),
                None => res matches Ok(c) && c@ == Q4Acc::rebuild_program(
                    at,
                    pos as int,
                    kv_row as int,
                    r as int,
                    idx_dim as int,
                ),
            },
    {
        let kv = mark_of(&self.kv_pos, at) >= pos;
        let idx = mark_of(&self.idx_pos, at) >= pos;
        if !kv || !idx {
            return Err(AccError::RebuildShort { kv, idx, pos });
        }
        let (layer, seq): (usize, usize) = (at.layer, at.seq);
        if !self.pool.has(Slot::KvK { layer, seq }) {
            return Err(AccError::RebuildMissing { part: RebuildPart::Kv });
        }
        if !self.pool.has(Slot::IdxK { layer, seq }) {
            return Err(AccError::RebuildMissing { part: RebuildPart::Indexer });
        }
        if !self.pool.has(Slot::BlockK { layer, seq }) {
            return Err(AccError::RebuildMissing { part: RebuildPart::BlockKeys });
        }
        let nb: usize = pos / r;
        proof {
            let (p, k, d, n) = (pos as int, kv_row as int, idx_dim as int, nb as int);
            assert(n <= p) by (nonlinear_arith)
                requires
                    n == p / (r as int),
                    r >= 1,
                    p >= 0,
            ;
            assert(0 <= p * k <= p * k * 4 && 0 <= p * d <= p * d * 4 && 0 <= n * d <= n * d * 4 <= p
                * d * 4) by (nonlinear_arith)
                requires
                    0 <= p,
                    0 <= k,
                    0 <= d,
                    0 <= n <= p,
            ;
        }
        Ok(
            vec![
                Cmd::D2h {
                    dst: Host::K,
                    src: buf(Slot::KvK { layer, seq }),
                    bytes: pos * kv_row * 4,
                },
                Cmd::D2h {
                    dst: Host::V,
                    src: buf(Slot::KvV { layer, seq }),
                    bytes: pos * kv_row * 4,
                },
                Cmd::D2h {
                    dst: Host::X,
                    src: buf(Slot::IdxK { layer, seq }),
                    bytes: pos * idx_dim * 4,
                },
                Cmd::D2h {
                    dst: Host::Y,
                    src: buf(Slot::BlockK { layer, seq }),
                    bytes: nb * idx_dim * 4,
                },
            ],
        )
    }

    /// Words of the pools that a comparison with host arrays covers.
    pub open spec fn check_words(&self, at: LayerSeq, ck: int, cv: int) -> (int, int) {
        let (layer, seq) = (at.layer, at.seq);
        (
            vstd::math::min(ck, self.pool.bytes_of(Slot::KvK { layer, seq }) as int / 4),
            vstd::math::min(cv, self.pool.bytes_of(Slot::KvV { layer, seq }) as int / 4),
        )
    }

    /// Plans the read of the key and value pools for a comparison.
    pub fn qsa_kv_check(&self, at: LayerSeq, ck: usize, cv: usize) -> (r: Result<Vec<Cmd>, AccError>)
        requires
            self.wf(),
        ensures
            ({
                let (layer, seq) = (at.layer, at.seq);
                let (nk, nv) = self.check_words(at, ck as int, cv as int);
                if !self.pool.bufs@.dom().contains(Slot::KvK { layer, seq }) {
                    r == Err::<Vec<Cmd>, AccError>(AccError::KvMissing)
                } else {
                    r matches Ok(c) && c@ == seq![
                        Cmd::D2h {
                            dst: Host::K,
                            src: spec_buf(Slot::KvK { layer, seq }),
                            bytes: (nk * 4) as usize,
                        },
                        Cmd::D2h {
                            dst: Host::V,
                            src: spec_buf(Slot::KvV { layer, seq }),
                            bytes: (nv * 4) as usize,
                        },
                    ]
                }
            }),
            r matches Ok(c) ==> reads_pools(at, c@),
    {
        let (layer, seq): (usize, usize) = (at.layer, at.seq);
        let (ks, vs): (Slot, Slot) = (Slot::KvK { layer, seq }, Slot::KvV { layer, seq });
        if !self.pool.has(ks) {
            return Err(AccError::KvMissing);
        }
        let nk: usize = min_usize(ck, self.pool.bytes(ks) / 4);
        let nv: usize = min_usize(cv, self.pool.bytes(vs) / 4);
        proof {
            law_copies_read_pools(at, (nk * 4) as usize, (nv * 4) as usize);
        }
        Ok(
            vec![
                Cmd::D2h { dst: Host::K, src: buf(ks), bytes: nk * 4 },
                Cmd::D2h { dst: Host::V, src: buf(vs), bytes: nv * 4 },
            ],
        )
    }
}

/// The first place where two arrays differ, over their common length.
pub open spec fn differs_first(a: Seq<u32>, b: Seq<u32>, i: int) -> bool {
    &&& 0 <= i < a.len() && i < b.len()
    &&& a[i] != b[i]
    &&& forall|j: int| 0 <= j < i ==> a[j] == b[j]
}

fn first_difference(a: &[u32], b: &[u32]) -> (r: Option<usize>)
    ensures
        match r {
            Some(i) => differs_first(a@, b@, i as int),
            None => forall|i: int| 0 <= i < a@.len() && i < b@.len() ==> a@[i] == b@[i],
        },
{
    let mut i: usize = 0;
    while i < a.len() && i < b.len()
        invariant
            i <= a@.len(),
            i <= b@.len(),
            forall|j: int| 0 <= j < i ==> a@[j] == b@[j],
        decreases a@.len() - i,
    {
        if a[i] != b[i] {
            return Some(i);
        }
        i = i + 1;
    }
    None
}

/// Compares what was read from the pools with the host arrays, bit by bit: keys
/// first, then values.
pub fn compare_kv(pool_k: &[u32], host_k: &[u32], pool_v: &[u32], host_v: &[u32]) -> (r: Result<
    (),
    AccError,
>)
    ensures
        match r {
            Ok(()) => {
                &&& forall|i: int|
                    0 <= i < pool_k@.len() && i < host_k@.len() ==> pool_k@[i] == host_k@[i]
                &&& forall|i: int|
                    0 <= i < pool_v@.len() && i < host_v@.len() ==> pool_v@[i] == host_v@[i]
            },
            Err(AccError::KMismatch { at, pool, host }) => {
                &&& differs_first(pool_k@, host_k@, at as int)
                &&& pool == pool_k@[at as int]
                &&& host == host_k@[at as int]
            },
            Err(AccError::VMismatch { at, pool, host }) => {
                &&& forall|i: int|
                    0 <= i < pool_k@.len() && i < host_k@.len() ==> pool_k@[i] == host_k@[i]
                &&& differs_first(pool_v@, host_v@, at as int)
                &&& pool == pool_v@[at as int]
                &&& host == host_v@[at as int]
            },
            Err(_) => false,
        },
{
    match first_difference(pool_k, host_k) {
        Some(i) => {
            return Err(AccError::KMismatch { at: i, pool: pool_k[i], host: host_k[i] });
        },
        None => {},
    }
    match first_difference(pool_v, host_v) {
        Some(i) => {
            return Err(AccError::VMismatch { at: i, pool: pool_v[i], host: host_v[i] });
        },
        None => {},
    }
    Ok(())
}

/// Key and value pools do not move: once they hold the whole context, an append
/// only copies its rows, and within the context these lie inside the pool.
pub proof fn law_pools_stay_put(
    acc: Q4Acc,
    a: Append,
    n_kv: usize,
    hd: usize,
    k: Ptr,
    v: Ptr,
)
    requires
        acc.pool.bufs@.dom().contains(Slot::KvK { layer: a.at.layer, seq: a.at.seq }),
        acc.pool.bytes_of(Slot::KvK { layer: a.at.layer, seq: a.at.seq }) >= acc.ctx_len * n_kv * hd
            * 4,
    ensures
        acc.kv_program(a, n_kv, hd, k, v).len() == 2,
        forall|i: int|
            0 <= i < 2 ==> (#[trigger] acc.kv_program(a, n_kv, hd, k, v)[i]) is D2d,
        a.pos0 + a.t <= acc.ctx_len ==> a.pos0 * n_kv * hd * 4 + a.t * n_kv * hd * 4
            <= acc.pool.bytes_of(Slot::KvK { layer: a.at.layer, seq: a.at.seq }),
{
    let (p, t, c, n, h) = (
        a.pos0 as int,
        a.t as int,
        acc.ctx_len as int,
        n_kv as int,
        hd as int,
    );
    if p + t <= c {
        assert(p * n * h * 4 + t * n * h * 4 <= c * n * h * 4) by (nonlinear_arith)
            requires
                0 <= p,
                0 <= t,
                p + t <= c,
                0 <= n,
                0 <= h,
        ;
    }
}

/// An append of `t` rows at `pos0` computes the key of block `b`.
pub open spec fn keys_block(pos0: int, t: int, r: int, b: int) -> bool {
    pos0 / r <= b < (pos0 + t) / r
}

/// The blocks whose keys an append computes are those that its launch covers; an
/// append that completes no block launches nothing.
pub proof fn law_launch_covers_completed_blocks(
    acc: Q4Acc,
    rq: IdxReq,
    src: IdxSource,
    ikw: Seq<u32>,
    b: int,
)
    requires
        rq.r >= 1,
        (rq.add.pos0 + rq.add.t) / rq.r as int <= i32::MAX,
    ensures
        match acc.idx_program(rq, src, ikw).last() {
            Cmd::Launch(l) => l.call matches Call::IdxBlockKeys { b0, .. } && (keys_block(
                rq.add.pos0 as int,
                rq.add.t as int,
                rq.r as int,
                b,
            ) <==> b0 <= b < b0 + l.gx),
            _ => !keys_block(rq.add.pos0 as int, rq.add.t as int, rq.r as int, b),
        },
{
    let (p, t, r) = (rq.add.pos0 as int, rq.add.t as int, rq.r as int);
    vstd::arithmetic::div_mod::lemma_div_pos_is_pos(p, r);
    vstd::arithmetic::div_mod::lemma_div_is_ordered(p, p + t, r);
}

/// A block's key is computed by the append that brings the block's last row, and by
/// no other.
pub proof fn law_last_row_keys_its_block(pos0: int, t: int, r: int, b: int)
    requires
        0 <= pos0,
        0 <= t,
        1 <= r,
    ensures
        keys_block(pos0, t, r, b) <==> pos0 <= (b + 1) * r - 1 < pos0 + t,
{
    lemma_quotient_below(pos0, r, b);
    lemma_quotient_below(pos0 + t, r, b);
}

/// A quotient is at most `b` exactly where the dividend is below `(b + 1) * r`.
proof fn lemma_quotient_below(n: int, r: int, b: int)
    requires
        0 <= n,
        1 <= r,
    ensures
        n / r <= b <==> n <= (b + 1) * r - 1,
{
    let q = n / r;
    vstd::arithmetic::div_mod::lemma_fundamental_div_mod(n, r);
    vstd::arithmetic::div_mod::lemma_mod_bound(n, r);
    assert(r * q <= n < r * q + r);
    if q <= b {
        assert(r * q + r <= (b + 1) * r) by (nonlinear_arith)
            requires
                q <= b,
                1 <= r,
        ;
    } else {
        assert((b + 1) * r <= r * q) by (nonlinear_arith)
            requires
                q >= b + 1,
                1 <= r,
        ;
    }
}

/// Rows that the first `n` appends of a run bring.
pub open spec fn rows_after(ts: Seq<usize>, n: int) -> int
    decreases n,
{
    if n <= 0 {
        0
    } else {
        rows_after(ts, n - 1) + ts[n - 1]
    }
}

/// How often the first `n` appends of a run compute the key of block `b`, where each
/// append goes on at the row behind the one before it.
pub open spec fn times_keyed(ts: Seq<usize>, r: int, b: int, n: int) -> int
    decreases n,
{
    if n <= 0 {
        0
    } else {
        times_keyed(ts, r, b, n - 1) + if keys_block(
            rows_after(ts, n - 1),
            ts[n - 1] as int,
            r,
            b,
        ) {
            1int
        } else {
            0int
        }
    }
}

/// Over a run of appends from the first row on, every complete block gets its key
/// exactly once, and an incomplete one gets none.
pub proof fn law_every_block_is_keyed_once(ts: Seq<usize>, r: int, b: int, n: int)
    requires
        0 <= n <= ts.len(),
        1 <= r,
        0 <= b,
    ensures
        rows_after(ts, n) >= 0,
        times_keyed(ts, r, b, n) == if b < rows_after(ts, n) / r {
            1int
        } else {
            0int
        },
    decreases n,
{
    if n > 0 {
        law_every_block_is_keyed_once(ts, r, b, n - 1);
        let (a, c) = (rows_after(ts, n - 1), rows_after(ts, n));
        vstd::arithmetic::div_mod::lemma_div_is_ordered(a, c, r);
    } else {
        assert(0int / r == 0) by (nonlinear_arith)
            requires
                1 <= r,
        ;
    }
}

} // verus!
