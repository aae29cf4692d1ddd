//! Choice of the blocks that a token attends to, on the device.

use vstd::prelude::*;
use crate::acc::Q4Acc;
use crate::arith::{max_usize, min_usize};
use crate::consts::{hashed_program, keyed_program, upload_by_ptr, upload_hashed};
use crate::device::{buf, launch, spec_buf, spec_launch, Cmd, Host, Ptr, Slot};
use crate::error::AccError;
use crate::hash::{fnv_hash, fnv_words};
use crate::kernels::Call;
use crate::op_laws::{frame, lemma_frames};
use crate::ops::{blocks, one, spec_blocks};
use crate::qsa_pool::{IdxReq, IdxSource};
use crate::score_laws::scores_blocks;

verus! {

/// Most blocks that the expanding kernel can hold.
pub const MAX_BLOCKS: usize = 8192;

/// Most blocks that the sorting kernel can hold.
pub const TOPK_BLOCKS: usize = 4096;

/// The positions behind the last complete block of `r`.
pub open spec fn tail_len(n_past: int, r: int) -> int {
    n_past - n_past / r * r
}

/// Complete blocks that are chosen: as many as fit behind the tail into a list
/// of at most `top_k + r - 1` positions.
pub open spec fn chosen_blocks(n_past: int, r: int, top_k: int) -> int {
    vstd::math::min(
        (vstd::math::min(n_past, top_k + r - 1) - tail_len(n_past, r)) / r,
        n_past / r,
    )
}

/// Positions of the list: the chosen blocks and the tail.
pub open spec fn chosen_len(n_past: int, r: int, top_k: int) -> int {
    chosen_blocks(n_past, r, top_k) * r + tail_len(n_past, r)
}

/// The list never names more positions than there are, nor more than the limit,
/// and holds the whole tail; where the limit allows, it holds everything.
pub proof fn law_selection_bounds(n_past: int, r: int, top_k: int)
    requires
        n_past >= 0,
        r >= 1,
        top_k >= 0,
    ensures
        0 <= tail_len(n_past, r) < r,
        0 <= chosen_blocks(n_past, r, top_k) <= n_past / r,
        tail_len(n_past, r) <= chosen_len(n_past, r, top_k) <= n_past,
        chosen_len(n_past, r, top_k) <= top_k + r - 1,
        n_past <= top_k + r - 1 ==> chosen_len(n_past, r, top_k) == n_past,
{
    let nb = n_past / r;
    let tail = tail_len(n_past, r);
    vstd::arithmetic::div_mod::lemma_fundamental_div_mod(n_past, r);
    vstd::arithmetic::div_mod::lemma_mod_bound(n_past, r);
    assert(nb * r == r * nb) by (nonlinear_arith);
    let width = vstd::math::min(n_past, top_k + r - 1);
    let fit = (width - tail) / r;
    vstd::arithmetic::div_mod::lemma_fundamental_div_mod(width - tail, r);
    vstd::arithmetic::div_mod::lemma_mod_bound(width - tail, r);
    vstd::arithmetic::div_mod::lemma_div_pos_is_pos(width - tail, r);
    vstd::arithmetic::div_mod::lemma_div_pos_is_pos(n_past, r);
    assert(fit * r == r * fit) by (nonlinear_arith);
    let n = chosen_blocks(n_past, r, top_k);
    assert(0 <= n * r <= fit * r && n * r <= nb * r) by (nonlinear_arith)
        requires
            0 <= n <= fit,
            n <= nb,
            r >= 1,
    ;
    if n_past <= top_k + r - 1 {
        vstd::arithmetic::div_mod::lemma_fundamental_div_mod_converse(nb * r, r, nb, 0);
        assert(fit == nb);
    }
}

/// The program that copies a list of `n` positions and its two offsets to the host.
pub open spec fn readback_program(sel_idx: Ptr, sel_off: Ptr, n: int) -> Seq<Cmd> {
    seq![
        Cmd::D2h { dst: Host::SelIdx, src: sel_idx, bytes: (n * 4) as usize },
        Cmd::D2h { dst: Host::SelOff, src: sel_off, bytes: 8 },
    ]
}

/// A request for the choice of blocks: the append of the token's indexer key,
/// the indexer heads and the length limit.
#[derive(Clone, Copy, PartialEq, Eq, Structural, Debug)]
pub struct SelReq {
    pub idx: IdxReq,
    pub heads: usize,
    pub top_k: usize,
}

/// The chosen positions on the device, and the commands that find them.
pub struct SelPlan {
    pub cmds: Vec<Cmd>,
    pub sel_idx: Ptr,
    pub sel_off: Ptr,
    pub list_len: usize,
}

impl SelReq {
    pub open spec fn n_past(&self) -> int {
        self.idx.add.pos0 + self.idx.add.t
    }
}

impl Q4Acc {
    /// Sizes of a request can be counted.
    pub open spec fn sel_fits(&self, rq: SelReq) -> bool {
        &&& self.idx_fits(rq.idx)
        &&& rq.top_k + rq.idx.r <= usize::MAX
        &&& rq.n_past() * 4 + 4 <= usize::MAX
        &&& rq.heads * rq.idx.idx_dim * 4 <= usize::MAX
    }

    /// Why a request is refused before it reaches the pool.
    pub open spec fn sel_error(&self, rq: SelReq) -> Option<AccError> {
        if rq.idx.add.t != 1 {
            Some(AccError::SelectTokens { t: rq.idx.add.t })
        } else if rq.idx.r == 0 {
            Some(AccError::SelectBlockZero)
        } else if rq.n_past() / rq.idx.r as int > MAX_BLOCKS {
            Some(
                AccError::SelectBlocks { n_blocks: (rq.n_past() / rq.idx.r as int) as usize },
            )
        } else {
            None
        }
    }

    /// Scores of all complete blocks for the token's rotated query.
    pub open spec fn score_program(&self, rq: SelReq, iq: Ptr, iqw: Seq<u32>) -> Seq<Cmd> {
        let a = rq.idx.add;
        let nb = rq.n_past() / rq.idx.r as int;
        let dim = rq.idx.idx_dim;
        seq![Cmd::Ensure { slot: Slot::QsaIqr, bytes: (a.t * rq.heads * dim * 4) as usize }]
            + hashed_program(
            self.iqw_hash,
            self.pool.ptr_of(Slot::QsaIqw),
            Slot::QsaIqw,
            fnv_words(iqw),
            iqw.len() as usize,
            Host::QNorm,
        ) + (if Q4Acc::completes_block(rq.idx) {
            Seq::empty()
        } else {
            keyed_program(
                self.csidx_key,
                self.pool.ptr_of(Slot::QsaCsidx),
                Slot::QsaCsidx,
                rq.idx.cs,
                Host::Cs,
            )
        }) + seq![
            spec_launch(
                Call::IdxQRope {
                    q: iq,
                    out: spec_buf(Slot::QsaIqr),
                    norm: spec_buf(Slot::QsaIqw),
                    cs: spec_buf(Slot::QsaCsidx),
                    eps: rq.idx.eps,
                    pos0: a.pos0 as i32,
                    t: a.t as i32,
                    heads: rq.heads as i32,
                    dim: dim as i32,
                },
                rq.heads as u32,
                a.t as u32,
                1,
                32,
            ),
            Cmd::Ensure { slot: Slot::QsaScr, bytes: (vstd::math::max(nb, 1) * 4) as usize },
        ] + if nb > 0 {
            seq![
                spec_launch(
                    Call::IdxScore {
                        q: spec_buf(Slot::QsaIqr),
                        block_k: spec_buf(Slot::BlockK { layer: a.at.layer, seq: a.at.seq }),
                        scores: spec_buf(Slot::QsaScr),
                        n_blocks: nb as i32,
                        heads: rq.heads as i32,
                        dim: dim as i32,
                    },
                    spec_blocks(nb, 256),
                    1,
                    1,
                    256,
                ),
            ]
        } else {
            Seq::empty()
        }
    }

    /// The list of chosen positions from the scores: sorted by one block where
    /// the blocks are few enough, else ranked and expanded.
    pub open spec fn choose_program(&self, rq: SelReq) -> Seq<Cmd> {
        let n_past = rq.n_past();
        let r = rq.idx.r as int;
        let nb = n_past / r;
        let n_sel = chosen_blocks(n_past, r, rq.top_k as int);
        let len = chosen_len(n_past, r, rq.top_k as int);
        let (scores, flags) = (spec_buf(Slot::QsaScr), spec_buf(Slot::QsaSelflag));
        let (sel_idx, sel_off) = (spec_buf(Slot::Msk), spec_buf(Slot::Soff));
        let (n_blocks, ns, rr, np) = (nb as i32, n_sel as i32, r as i32, n_past as i32);
        seq![
            Cmd::Ensure { slot: Slot::Msk, bytes: (vstd::math::max(len, 1) * 4) as usize },
            Cmd::Ensure { slot: Slot::Soff, bytes: 8 },
        ] + if 0 < nb <= TOPK_BLOCKS && !self.tuning.idx_topk_off {
            seq![
                spec_launch(
                    Call::IdxTopk {
                        scores,
                        sel_idx,
                        sel_off,
                        n_blocks,
                        n_sel: ns,
                        r: rr,
                        n_past: np,
                    },
                    1,
                    1,
                    1,
                    256,
                ),
            ]
        } else {
            seq![
                Cmd::Ensure {
                    slot: Slot::QsaSelflag,
                    bytes: (vstd::math::max(nb, 1) * 4) as usize,
                },
            ] + (if nb > 0 {
                seq![
                    spec_launch(
                        Call::IdxRank { scores, flags, n_blocks, n_sel: ns },
                        spec_blocks(nb, 256),
                        1,
                        1,
                        256,
                    ),
                ]
            } else {
                Seq::empty()
            }) + seq![
                spec_launch(
                    Call::IdxExpand {
                        flags,
                        sel_idx,
                        sel_off,
                        n_blocks,
                        n_sel: ns,
                        r: rr,
                        n_past: np,
                    },
                    1,
                    1,
                    1,
                    256,
                ),
            ]
        }
    }

    fn score_cmds(&self, rq: &SelReq, iq: Ptr, iqw: &[u32]) -> (res: Vec<Cmd>)
        requires
            self.wf(),
            self.sel_fits(*rq),
            self.sel_error(*rq) is None,
            iqw@.len() * 4 <= usize::MAX,
        ensures
            res@ == self.score_program(*rq, iq, iqw@),
    {
        let a = rq.idx.add;
        let dim: usize = rq.idx.idx_dim;
        let nb: usize = (a.pos0 + a.t) / rq.idx.r;
        let fresh_block = nb > a.pos0 / rq.idx.r;
        assert(a.t * rq.heads * dim * 4 == rq.heads * dim * 4 && a.t * rq.heads == rq.heads && 0
            <= rq.heads * dim <= rq.heads * dim * 4) by (nonlinear_arith)
            requires
                a.t == 1,
                0 <= rq.heads,
                0 <= dim,
        ;
        let mut res: Vec<Cmd> = one(
            Cmd::Ensure { slot: Slot::QsaIqr, bytes: a.t * rq.heads * dim * 4 },
        );
        let mut x = upload_hashed(
            self.iqw_hash,
            self.pool.ptr(Slot::QsaIqw),
            Slot::QsaIqw,
            fnv_hash(iqw),
            iqw.len(),
            Host::QNorm,
        );
        res.append(&mut x);
        if !fresh_block {
            let mut y = upload_by_ptr(
                self.csidx_key,
                self.pool.ptr(Slot::QsaCsidx),
                Slot::QsaCsidx,
                rq.idx.cs,
                Host::Cs,
            );
            res.append(&mut y);
        }
        res.push(
            launch(
                Call::IdxQRope {
                    q: iq,
                    out: buf(Slot::QsaIqr),
                    norm: buf(Slot::QsaIqw),
                    cs: buf(Slot::QsaCsidx),
                    eps: rq.idx.eps,
                    pos0: a.pos0 as i32,
                    t: a.t as i32,
                    heads: rq.heads as i32,
                    dim: dim as i32,
                },
                rq.heads as u32,
                a.t as u32,
                1,
                32,
            ),
        );
        res.push(Cmd::Ensure { slot: Slot::QsaScr, bytes: max_usize(nb, 1) * 4 });
        if nb > 0 {
            res.push(
                launch(
                    Call::IdxScore {
                        q: buf(Slot::QsaIqr),
                        block_k: buf(Slot::BlockK { layer: a.at.layer, seq: a.at.seq }),
                        scores: buf(Slot::QsaScr),
                        n_blocks: nb as i32,
                        heads: rq.heads as i32,
                        dim: dim as i32,
                    },
                    blocks(nb, 256),
                    1,
                    1,
                    256,
                ),
            );
        }
        assert(res@ =~= self.score_program(*rq, iq, iqw@));
        res
    }

    fn choose_cmds(&self, rq: &SelReq) -> (res: (Vec<Cmd>, usize))
        requires
            self.sel_fits(*rq),
            self.sel_error(*rq) is None,
        ensures
            res.0@ == self.choose_program(*rq),
            res.1 == chosen_len(rq.n_past(), rq.idx.r as int, rq.top_k as int),
    {
        let n_past: usize = rq.idx.add.pos0 + rq.idx.add.t;
        let r: usize = rq.idx.r;
        proof {
            law_selection_bounds(n_past as int, r as int, rq.top_k as int);
            let (p, rr) = (n_past as int, r as int);
            vstd::arithmetic::div_mod::lemma_fundamental_div_mod(p, rr);
            assert(0 <= p / rr * rr <= p) by (nonlinear_arith)
                requires
                    p == rr * (p / rr) + p % rr,
                    0 <= p % rr,
                    rr >= 1,
                    p >= 0,
                    p / rr >= 0,
            ;
            let n = chosen_blocks(p, rr, rq.top_k as int);
            assert(0 <= n * rr) by (nonlinear_arith)
                requires
                    0 <= n,
                    1 <= rr,
            ;
        }
        let nb: usize = n_past / r;
        let tail: usize = n_past - nb * r;
        let width: usize = min_usize(n_past, rq.top_k + r - 1);
        let n_sel: usize = min_usize((width - tail) / r, nb);
        let len: usize = n_sel * r + tail;
        let (scores, flags): (Ptr, Ptr) = (buf(Slot::QsaScr), buf(Slot::QsaSelflag));
        let (sel_idx, sel_off): (Ptr, Ptr) = (buf(Slot::Msk), buf(Slot::Soff));
        let (n_blocks, ns, rr, np): (i32, i32, i32, i32) = (
            nb as i32,
            n_sel as i32,
            r as i32,
            n_past as i32,
        );
        let mut res: Vec<Cmd> = vec![
            Cmd::Ensure { slot: Slot::Msk, bytes: max_usize(len, 1) * 4 },
            Cmd::Ensure { slot: Slot::Soff, bytes: 8 },
        ];
        if nb > 0 && nb <= TOPK_BLOCKS && !self.tuning.idx_topk_off {
            res.push(
                launch(
                    Call::IdxTopk {
                        scores,
                        sel_idx,
                        sel_off,
                        n_blocks,
                        n_sel: ns,
                        r: rr,
                        n_past: np,
                    },
                    1,
                    1,
                    1,
                    256,
                ),
            );
        } else {
            res.push(Cmd::Ensure { slot: Slot::QsaSelflag, bytes: max_usize(nb, 1) * 4 });
            if nb > 0 {
                res.push(
                    launch(
                        Call::IdxRank { scores, flags, n_blocks, n_sel: ns },
                        blocks(nb, 256),
                        1,
                        1,
                        256,
                    ),
                );
            }
            res.push(
                launch(
                    Call::IdxExpand {
                        flags,
                        sel_idx,
                        sel_off,
                        n_blocks,
                        n_sel: ns,
                        r: rr,
                        n_past: np,
                    },
                    1,
                    1,
                    1,
                    256,
                ),
            );
        }
        assert(res@ =~= self.choose_program(*rq));
        (res, len)
    }

    /// Plans the choice of blocks for one token: its indexer key is appended, the
    /// blocks are scored, and the best are listed together with the tail.
    pub fn qsa_sel_dev(&mut self, rq: &SelReq, iq: u64, ik: u64, iqw: &[u32], ikw: &[u32]) -> (res:
        Result<SelPlan, AccError>)
        requires
            old(self).wf(),
            old(self).sel_fits(*rq),
            iqw@.len() * 4 <= usize::MAX,
            ikw@.len() * 4 <= usize::MAX,
        ensures
            final(self).wf(),
            match old(self).sel_error(*rq) {
                Some(e) => *final(self) == *old(self) && res == Err::<SelPlan, AccError>(e),
                None => match old(self).frame_ptrs(seq![iq, ik]) {
                    Err(e) => *final(self) == *old(self) && res == Err::<SelPlan, AccError>(e),
                    Ok(p) => match old(self).idx_error(rq.idx) {
                        Some(e) => *final(self) == *old(self) && res == Err::<SelPlan, AccError>(
                            e,
                        ),
                        None => {
                            &&& final(self).idx_pos@ == old(self).idx_pos@.insert(
                                rq.idx.add.at,
                                rq.n_past() as usize,
                            )
                            &&& *final(self) == (Q4Acc {
                                idx_pos: final(self).idx_pos,
                                ..*old(self)
                            })
                            &&& res matches Ok(plan) && {
                                &&& plan.cmds@ == old(self).idx_program(
                                    rq.idx,
                                    IdxSource::Device(p[1]),
                                    ikw@,
                                ) + old(self).score_program(*rq, p[0], iqw@)
                                    + old(self).choose_program(*rq)
                                &&& plan.sel_idx == spec_buf(Slot::Msk)
                                &&& plan.sel_off == spec_buf(Slot::Soff)
                                &&& plan.list_len == chosen_len(
                                    rq.n_past(),
                                    rq.idx.r as int,
                                    rq.top_k as int,
                                )
                            }
                        },
                    },
                },
            },
            res matches Ok(plan) ==> scores_blocks(
                *old(self),
                *rq,
                frame(*old(self), iq),
                frame(*old(self), ik),
                iqw@,
                ikw@,
                plan.cmds@,
            ),
    {
        let a = rq.idx.add;
        if a.t != 1 {
            return Err(AccError::SelectTokens { t: a.t });
        }
        if rq.idx.r == 0 {
            return Err(AccError::SelectBlockZero);
        }
        let n_blocks: usize = (a.pos0 + a.t) / rq.idx.r;
        if n_blocks > MAX_BLOCKS {
            return Err(AccError::SelectBlocks { n_blocks });
        }
        let hs: Vec<u64> = vec![iq, ik];
        assert(hs@ =~= seq![iq, ik]);
        let p = match self.fptrs(&hs) {
            Ok(p) => p,
            Err(e) => {
                return Err(e);
            },
        };
        proof {
            lemma_frames(*self, hs@, p@);
            self.law_choice_scores_every_block(*rq, p@[0], p@[1], iqw@, ikw@);
        }
        let mut x = self.score_cmds(rq, p[0], iqw);
        let (mut y, len): (Vec<Cmd>, usize) = self.choose_cmds(rq);
        let mut cmds = match self.qsa_idx_append(&rq.idx, IdxSource::Device(p[1]), ikw) {
            Ok(c) => c,
            Err(e) => {
                return Err(e);
            },
        };
        cmds.append(&mut x);
        cmds.append(&mut y);
        Ok(
            SelPlan { cmds, sel_idx: buf(Slot::Msk), sel_off: buf(Slot::Soff), list_len: len },
        )
    }

    /// Plans the copy of a chosen list to the host: its positions and its two
    /// offsets.
    pub fn qsa_sel_readback(&self, sel_idx: Ptr, sel_off: Ptr, list_len: usize) -> (r: Vec<Cmd>)
        requires
            list_len * 4 <= usize::MAX,
        ensures
            r@ == readback_program(sel_idx, sel_off, list_len as int),
    {
        vec![
            Cmd::D2h { dst: Host::SelIdx, src: sel_idx, bytes: list_len * 4 },
            Cmd::D2h { dst: Host::SelOff, src: sel_off, bytes: 8 },
        ]
    }
}

} // verus!
