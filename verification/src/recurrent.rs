//! Recurrences, rotary embedding, routing copies and token choice on frames.

use vstd::prelude::*;
use crate::acc::Q4Acc;
use crate::arith::{max_usize, min_usize};
use crate::consts::{
    const_program, const_slot, keyed_program, spec_const_slot, upload_by_ptr, upload_map,
    ContentKey, HostKey,
};
use crate::device::{buf, launch, spec_buf, spec_launch, Cmd, ConstMap, Host, Ptr, Slot};
use crate::error::AccError;
use crate::hash::{content_key, spec_content_key};
use crate::kernels::Call;
use crate::layer_laws::rotates_rows;
use crate::op_laws::{frame, lemma_frames};
use crate::ops::{blocks, one, spec_blocks, ONE};
use crate::step_laws::{
    brings_records, copies_tokens, runs_recurrence, steps_ar, steps_conv, sums_tokens,
};

verus! {

/// A planned request with the table of state addresses that it uploads.
pub struct WithStates {
    pub cmds: Vec<Cmd>,
    pub states: Vec<Ptr>,
}

/// Blocks over the vocabulary: one per 4096 entries, between 1 and 64.
pub open spec fn spec_argmax_blocks(vocab: int) -> int {
    vstd::math::min(vstd::math::max(vocab / 4096, 1), 64)
}

/// The little-endian number at byte `at`.
pub open spec fn le_u32(b: Seq<u8>, at: int) -> u32 {
    (b[at] + 256 * b[at + 1] + 65536 * b[at + 2] + 16777216 * b[at + 3]) as u32
}

/// The shape and the positions of a rotary embedding.
#[derive(Clone, Copy, PartialEq, Eq, Structural, Debug)]
pub struct RopeReq {
    pub q: u64,
    pub k: u64,
    pub eps: u32,
    pub pos0: usize,
    pub n_head: usize,
    pub n_kv: usize,
    pub hd: usize,
    pub n_rot: usize,
    pub t: usize,
}

impl Q4Acc {
    /// The launch of the recurrence over the tokens of the step.
    pub open spec fn gdn_ar_launch(&self, p: Seq<Ptr>, h_k: usize, h_v: usize, d: usize) -> Cmd {
        spec_launch(
            Call::GdnArSwap {
                state: p[0],
                q: p[1],
                k: p[2],
                v: p[3],
                beta_g: p[4],
                out: p[5],
                d: d as i32,
                k_stride: (h_k * d) as i32,
                v_stride: (h_v * d) as i32,
                h_v: h_v as i32,
                h_k: h_k as i32,
                scale: ONE,
                t: self.spec_t() as i32,
            },
            d as u32,
            h_v as u32,
            1,
            32,
        )
    }

    /// Plans the gated delta recurrence of one sequence. The queries come
    /// scaled.
    pub fn frame_gdn_ar(
        &self,
        q: u64,
        k: u64,
        v: u64,
        beta_g: u64,
        states: u64,
        out: u64,
        n_seqs: usize,
        h_k: usize,
        h_v: usize,
        d: usize,
    ) -> (r: Result<Vec<Cmd>, AccError>)
        requires
            h_k * d <= usize::MAX,
            h_v * d <= usize::MAX,
        ensures
            if n_seqs != 1 {
                r == Err::<Vec<Cmd>, AccError>(AccError::GdnArSequences)
            } else {
                match self.frame_ptrs(seq![states, q, k, v, beta_g, out]) {
                    Err(e) => r matches Err(f) && f == e,
                    Ok(p) => r matches Ok(c) && c@ == seq![self.gdn_ar_launch(p, h_k, h_v, d)],
                }
            },
            r matches Ok(c) ==> runs_recurrence(
                *self,
                q,
                k,
                v,
                beta_g,
                states,
                out,
                h_k as int,
                h_v as int,
                d as int,
                c@,
            ),
    {
        if n_seqs != 1 {
            return Err(AccError::GdnArSequences);
        }
        let hs: Vec<u64> = vec![states, q, k, v, beta_g, out];
        assert(hs@ =~= seq![states, q, k, v, beta_g, out]);
        let p = match self.fptrs(&hs) {
            Ok(p) => p,
            Err(e) => {
                return Err(e);
            },
        };
        proof {
            lemma_frames(*self, hs@, p@);
            self.law_step_runs_recurrence(q, k, v, beta_g, states, out, h_k, h_v, d);
        }
        Ok(
            one(
                launch(
                    Call::GdnArSwap {
                        state: p[0],
                        q: p[1],
                        k: p[2],
                        v: p[3],
                        beta_g: p[4],
                        out: p[5],
                        d: d as i32,
                        k_stride: (h_k * d) as i32,
                        v_stride: (h_v * d) as i32,
                        h_v: h_v as i32,
                        h_k: h_k as i32,
                        scale: ONE,
                        t: self.t_cur() as i32,
                    },
                    d as u32,
                    h_v as u32,
                    1,
                    32,
                ),
            ),
        )
    }

    /// Plans the copy of each token to its selected expert rows.
    pub fn frame_moe_gather(&self, mix: u64, xsel: u64, n: usize, k_sel: usize, t: usize) -> (r:
        Result<Vec<Cmd>, AccError>)
        requires
            t * k_sel <= usize::MAX,
            t * k_sel * n <= usize::MAX,
        ensures
            match self.frame_ptrs(seq![mix, xsel]) {
                Err(e) => r matches Err(f) && f == e,
                Ok(p) => r matches Ok(c) && c@ == seq![
                    spec_launch(
                        Call::MoeGather {
                            mix: p[0],
                            xsel: p[1],
                            n: n as i32,
                            k_sel: k_sel as i32,
                            t: t as i32,
                        },
                        spec_blocks(t * k_sel * n, 128),
                        1,
                        1,
                        128,
                    ),
                ],
            },
            r matches Ok(c) ==> copies_tokens(
                *self,
                mix,
                xsel,
                n as int,
                k_sel as int,
                t as int,
                c@,
            ),
    {
        let hs: Vec<u64> = vec![mix, xsel];
        assert(hs@ =~= seq![mix, xsel]);
        let p = match self.fptrs(&hs) {
            Ok(p) => p,
            Err(e) => {
                return Err(e);
            },
        };
        proof {
            lemma_frames(*self, hs@, p@);
            self.law_gather_copies_tokens(mix, xsel, n, k_sel, t);
        }
        Ok(
            one(
                launch(
                    Call::MoeGather {
                        mix: p[0],
                        xsel: p[1],
                        n: n as i32,
                        k_sel: k_sel as i32,
                        t: t as i32,
                    },
                    blocks(t * k_sel * n, 128),
                    1,
                    1,
                    128,
                ),
            ),
        )
    }

    /// Plans the weighted sum of expert rows back to their tokens.
    pub fn frame_moe_scatter(&self, ys: u64, wt: u64, out: u64, k_sel: usize, n: usize, t: usize) -> (r:
        Result<Vec<Cmd>, AccError>)
        requires
            t * n <= usize::MAX,
        ensures
            match self.frame_ptrs(seq![ys, wt, out]) {
                Err(e) => r matches Err(f) && f == e,
                Ok(p) => r matches Ok(c) && c@ == seq![
                    spec_launch(
                        Call::MoeScatter {
                            ys: p[0],
                            wt: p[1],
                            out: p[2],
                            k_sel: k_sel as i32,
                            n: n as i32,
                            t: t as i32,
                        },
                        spec_blocks(t * n, 128),
                        1,
                        1,
                        128,
                    ),
                ],
            },
            r matches Ok(c) ==> sums_tokens(
                *self,
                ys,
                wt,
                out,
                k_sel as int,
                n as int,
                t as int,
                c@,
            ),
    {
        let hs: Vec<u64> = vec![ys, wt, out];
        assert(hs@ =~= seq![ys, wt, out]);
        let p = match self.fptrs(&hs) {
            Ok(p) => p,
            Err(e) => {
                return Err(e);
            },
        };
        proof {
            lemma_frames(*self, hs@, p@);
            self.law_scatter_sums_tokens(ys, wt, out, k_sel, n, t);
        }
        Ok(
            one(
                launch(
                    Call::MoeScatter {
                        ys: p[0],
                        wt: p[1],
                        out: p[2],
                        k_sel: k_sel as i32,
                        n: n as i32,
                        t: t as i32,
                    },
                    blocks(t * n, 128),
                    1,
                    1,
                    128,
                ),
            ),
        )
    }

    /// Room for the table of state addresses, and its upload.
    pub open spec fn states_program(t: int) -> Seq<Cmd> {
        seq![
            Cmd::Ensure { slot: Slot::Scratch, bytes: (t * 8) as usize },
            Cmd::H2d { dst: spec_buf(Slot::Scratch), src: Host::States, bytes: (t * 8) as usize },
        ]
    }

    /// Plans one convolution step for each of several sequences, each with its
    /// own state.
    pub fn frame_gdn_conv_np(
        &self,
        qkv: u64,
        out: u64,
        states: &Vec<u64>,
        cw: u64,
        ch: usize,
        k: usize,
    ) -> (r: Result<WithStates, AccError>)
        requires
            states@.len() * 8 <= usize::MAX,
        ensures
            if states@.len() == 0 {
                r matches Ok(w) && w.cmds@.len() == 0 && w.states@.len() == 0
            } else {
                match (self.frame_ptrs(states@), self.frame_ptrs(seq![qkv, cw, out])) {
                    (Err(e), _) => r matches Err(f) && f == e,
                    (Ok(_), Err(e)) => r matches Err(f) && f == e,
                    (Ok(s), Ok(p)) => r matches Ok(w) && w.states@ == s && w.cmds@
                        == Q4Acc::states_program(states@.len() as int).push(
                        spec_launch(
                            Call::GdnConvNp {
                                qkv: p[0],
                                cw: p[1],
                                states: spec_buf(Slot::Scratch),
                                out: p[2],
                                ch: ch as i32,
                                k: k as i32,
                                t: states@.len() as i32,
                            },
                            spec_blocks(ch as int, 64),
                            states@.len() as u32,
                            1,
                            64,
                        ),
                    ),
                }
            },
            states@.len() > 0 ==> (r matches Ok(w) ==> steps_conv(
                *self,
                qkv,
                out,
                cw,
                ch as int,
                k as int,
                states@.len() as int,
                w.cmds@,
            )),
    {
        let t: usize = states.len();
        if t == 0 {
            return Ok(WithStates { cmds: Vec::new(), states: Vec::new() });
        }
        let s = match self.fptrs(states) {
            Ok(p) => p,
            Err(e) => {
                return Err(e);
            },
        };
        let hs: Vec<u64> = vec![qkv, cw, out];
        assert(hs@ =~= seq![qkv, cw, out]);
        let p = match self.fptrs(&hs) {
            Ok(p) => p,
            Err(e) => {
                return Err(e);
            },
        };
        let cmds: Vec<Cmd> = vec![
            Cmd::Ensure { slot: Slot::Scratch, bytes: t * 8 },
            Cmd::H2d { dst: buf(Slot::Scratch), src: Host::States, bytes: t * 8 },
            launch(
                Call::GdnConvNp {
                    qkv: p[0],
                    cw: p[1],
                    states: buf(Slot::Scratch),
                    out: p[2],
                    ch: ch as i32,
                    k: k as i32,
                    t: t as i32,
                },
                blocks(ch, 64),
                t as u32,
                1,
                64,
            ),
        ];
        proof {
            lemma_frames(*self, hs@, p@);
            self.law_conv_steps_by_sequence(qkv, out, cw, ch, k, t);
            assert(cmds@ =~= Q4Acc::states_program(t as int).push(cmds@[2]));
        }
        Ok(WithStates { cmds, states: s })
    }

    /// Plans one recurrence step for each of several sequences, each with its
    /// own state. The grid runs over heads first, then over state columns.
    pub fn frame_gdn_ar_np(
        &self,
        q: u64,
        k: u64,
        v: u64,
        beta_g: u64,
        out: u64,
        states: &Vec<u64>,
        h_k: usize,
        h_v: usize,
        d: usize,
    ) -> (r: Result<WithStates, AccError>)
        requires
            states@.len() * 8 <= usize::MAX,
            h_k * d <= usize::MAX,
            h_v * d <= usize::MAX,
        ensures
            if states@.len() == 0 {
                r matches Ok(w) && w.cmds@.len() == 0 && w.states@.len() == 0
            } else {
                match (self.frame_ptrs(states@), self.frame_ptrs(seq![q, k, v, beta_g, out])) {
                    (Err(e), _) => r matches Err(f) && f == e,
                    (Ok(_), Err(e)) => r matches Err(f) && f == e,
                    (Ok(s), Ok(p)) => r matches Ok(w) && w.states@ == s && w.cmds@
                        == Q4Acc::states_program(states@.len() as int).push(
                        spec_launch(
                            Call::GdnArNp {
                                state: spec_buf(Slot::Scratch),
                                q: p[0],
                                k: p[1],
                                v: p[2],
                                beta_g: p[3],
                                out: p[4],
                                d: d as i32,
                                k_stride: (h_k * d) as i32,
                                v_stride: (h_v * d) as i32,
                                h_v: h_v as i32,
                                h_k: h_k as i32,
                                scale: ONE,
                                t: states@.len() as i32,
                            },
                            h_v as u32,
                            d as u32,
                            1,
                            32,
                        ),
                    ),
                }
            },
            states@.len() > 0 ==> (r matches Ok(w) ==> steps_ar(
                *self,
                q,
                k,
                v,
                beta_g,
                out,
                h_k as int,
                h_v as int,
                d as int,
                states@.len() as int,
                w.cmds@,
            )),
    {
        let t: usize = states.len();
        if t == 0 {
            return Ok(WithStates { cmds: Vec::new(), states: Vec::new() });
        }
        let s = match self.fptrs(states) {
            Ok(p) => p,
            Err(e) => {
                return Err(e);
            },
        };
        let hs: Vec<u64> = vec![q, k, v, beta_g, out];
        assert(hs@ =~= seq![q, k, v, beta_g, out]);
        let p = match self.fptrs(&hs) {
            Ok(p) => p,
            Err(e) => {
                return Err(e);
            },
        };
        let cmds: Vec<Cmd> = vec![
            Cmd::Ensure { slot: Slot::Scratch, bytes: t * 8 },
            Cmd::H2d { dst: buf(Slot::Scratch), src: Host::States, bytes: t * 8 },
            launch(
                Call::GdnArNp {
                    state: buf(Slot::Scratch),
                    q: p[0],
                    k: p[1],
                    v: p[2],
                    beta_g: p[3],
                    out: p[4],
                    d: d as i32,
                    k_stride: (h_k * d) as i32,
                    v_stride: (h_v * d) as i32,
                    h_v: h_v as i32,
                    h_k: h_k as i32,
                    scale: ONE,
                    t: t as i32,
                },
                h_v as u32,
                d as u32,
                1,
                32,
            ),
        ];
        proof {
            lemma_frames(*self, hs@, p@);
            self.law_ar_steps_by_sequence(q, k, v, beta_g, out, h_k, h_v, d, t);
            assert(cmds@ =~= Q4Acc::states_program(t as int).push(cmds@[2]));
        }
        Ok(WithStates { cmds, states: s })
    }

    /// The program of a rotary embedding: the norms by content, the rotation
    /// table by address, one launch over all heads and tokens. Keys stay
    /// unscaled.
    pub open spec fn rope_program(
        &self,
        rq: RopeReq,
        qn: ContentKey,
        kn: ContentKey,
        cs: HostKey,
        p: Seq<Ptr>,
    ) -> Seq<Cmd> {
        const_program(self.q_norm.keys@, ConstMap::QNorm, qn, Host::QNorm) + const_program(
            self.k_norm.keys@,
            ConstMap::KNorm,
            kn,
            Host::KNorm,
        ) + keyed_program(
            self.cst_key,
            self.pool.ptr_of(Slot::Cst),
            Slot::Cst,
            cs,
            Host::Cs,
        ) + seq![
            spec_launch(
                Call::QkNormRope {
                    q: p[0],
                    k: p[1],
                    q_norm: spec_buf(spec_const_slot(ConstMap::QNorm, qn)),
                    k_norm: spec_buf(spec_const_slot(ConstMap::KNorm, kn)),
                    cs: spec_buf(Slot::Cst),
                    eps: rq.eps,
                    kq_scale: ONE,
                    pos0: rq.pos0 as i32,
                    n_head: rq.n_head as i32,
                    n_kv: rq.n_kv as i32,
                    hd: rq.hd as i32,
                    n_rot: rq.n_rot as i32,
                },
                (rq.n_head + rq.n_kv) as u32,
                rq.t as u32,
                1,
                32,
            ),
        ]
    }

    /// Plans a rotary embedding whose norms are known by their content keys.
    pub fn qk_norm_rope_keyed(&self, rq: &RopeReq, qn: ContentKey, kn: ContentKey, cs: HostKey) -> (r:
        Result<Vec<Cmd>, AccError>)
        requires
            self.wf(),
            qn.len * 4 <= usize::MAX,
            kn.len * 4 <= usize::MAX,
            cs.len * 4 <= usize::MAX,
            rq.n_head + rq.n_kv <= usize::MAX,
        ensures
            match self.frame_ptrs(seq![rq.q, rq.k]) {
                Err(e) => r matches Err(f) && f == e,
                Ok(p) => r matches Ok(c) && c@ == self.rope_program(*rq, qn, kn, cs, p),
            },
            r matches Ok(c) ==> rotates_rows(*self, *rq, qn, kn, cs, c@),
    {
        let hs: Vec<u64> = vec![rq.q, rq.k];
        assert(hs@ =~= seq![rq.q, rq.k]);
        let p = match self.fptrs(&hs) {
            Ok(p) => p,
            Err(e) => {
                return Err(e);
            },
        };
        proof {
            lemma_frames(*self, hs@, p@);
            assert(p@ =~= seq![frame(*self, rq.q), frame(*self, rq.k)]);
            self.law_rope_rotates_every_row(*rq, qn, kn, cs);
        }
        let mut r = upload_map(&self.q_norm, ConstMap::QNorm, qn, Host::QNorm);
        let mut b = upload_map(&self.k_norm, ConstMap::KNorm, kn, Host::KNorm);
        let mut c = upload_by_ptr(self.cst_key, self.pool.ptr(Slot::Cst), Slot::Cst, cs, Host::Cs);
        r.append(&mut b);
        r.append(&mut c);
        r.push(
            launch(
                Call::QkNormRope {
                    q: p[0],
                    k: p[1],
                    q_norm: buf(const_slot(ConstMap::QNorm, qn)),
                    k_norm: buf(const_slot(ConstMap::KNorm, kn)),
                    cs: buf(Slot::Cst),
                    eps: rq.eps,
                    kq_scale: ONE,
                    pos0: rq.pos0 as i32,
                    n_head: rq.n_head as i32,
                    n_kv: rq.n_kv as i32,
                    hd: rq.hd as i32,
                    n_rot: rq.n_rot as i32,
                },
                (rq.n_head + rq.n_kv) as u32,
                rq.t as u32,
                1,
                32,
            ),
        );
        assert(r@ =~= self.rope_program(*rq, qn, kn, cs, p@));
        Ok(r)
    }

    /// Plans a rotary embedding with the given norms.
    pub fn frame_qk_norm_rope(&self, rq: &RopeReq, q_norm: &[u32], k_norm: &[u32], cs: HostKey) -> (r:
        Result<Vec<Cmd>, AccError>)
        requires
            self.wf(),
            q_norm@.len() * 4 <= usize::MAX,
            k_norm@.len() * 4 <= usize::MAX,
            cs.len * 4 <= usize::MAX,
            rq.n_head + rq.n_kv <= usize::MAX,
        ensures
            match self.frame_ptrs(seq![rq.q, rq.k]) {
                Err(e) => r matches Err(f) && f == e,
                Ok(p) => exists|a: bool, b: bool|
                    r matches Ok(c) && c@ == self.rope_program(
                        *rq,
                        ContentKey {
                            hash: #[trigger] spec_content_key(q_norm@, a),
                            len: q_norm@.len() as usize,
                        },
                        ContentKey {
                            hash: #[trigger] spec_content_key(k_norm@, b),
                            len: k_norm@.len() as usize,
                        },
                        cs,
                        p,
                    ),
            },
            r matches Ok(c) ==> exists|qn: ContentKey, kn: ContentKey|
                qn.len == q_norm@.len() && kn.len == k_norm@.len() && #[trigger] rotates_rows(
                    *self,
                    *rq,
                    qn,
                    kn,
                    cs,
                    c@,
                ),
    {
        let qn = ContentKey { hash: content_key(q_norm), len: q_norm.len() };
        let kn = ContentKey { hash: content_key(k_norm), len: k_norm.len() };
        proof {
            let a = qn.hash == spec_content_key(q_norm@, true);
            let b = kn.hash == spec_content_key(k_norm@, true);
            assert(qn.hash == spec_content_key(q_norm@, a));
            assert(kn.hash == spec_content_key(k_norm@, b));
        }
        self.qk_norm_rope_keyed(rq, qn, kn, cs)
    }

    /// The two launches that find the largest logit of each row, and the way of
    /// the result records to the host.
    pub open spec fn argmax_program(x: Ptr, t: int, vocab: int) -> Seq<Cmd> {
        let rows = vstd::math::max(t, 1);
        let nblk = spec_argmax_blocks(vocab);
        let part = spec_buf(Slot::Scratch);
        let out = part.spec_at(rows * nblk * 8);
        seq![
            Cmd::Ensure { slot: Slot::Scratch, bytes: (rows * nblk * 8) as usize },
            Cmd::Ensure { slot: Slot::Scratch, bytes: (rows * 8 + 8 * nblk * rows) as usize },
            spec_launch(
                Call::ArgmaxS1 { x, vocab: vocab as i32, part, nblk: nblk as i32 },
                nblk as u32,
                rows as u32,
                1,
                256,
            ),
            spec_launch(Call::ArgmaxS2 { part, out, nblk: nblk as i32 }, rows as u32, 1, 1, 64),
            Cmd::D2h { dst: Host::Records, src: out, bytes: (t * 8) as usize },
        ]
    }

    /// Plans the choice of the largest logit of each of `t` rows.
    pub fn frame_argmax_rows(&self, logits: u64, t: usize, vocab: usize) -> (r: Result<
        Vec<Cmd>,
        AccError,
    >)
        requires
            (t + 1) * 520 <= usize::MAX,
        ensures
            match self.frames.spec_ptr(logits) {
                Err(e) => r matches Err(f) && f == e,
                Ok(x) => r matches Ok(c) && c@ == Q4Acc::argmax_program(x, t as int, vocab as int),
            },
            r matches Ok(c) ==> brings_records(*self, logits, t as int, vocab as int, c@),
    {
        let x = match self.fptr(logits) {
            Ok(p) => p,
            Err(e) => {
                return Err(e);
            },
        };
        proof {
            self.law_argmax_brings_records(logits, t, vocab);
        }
        let nblk: usize = min_usize(max_usize(vocab / 4096, 1), 64);
        let rows: usize = max_usize(t, 1);
        proof {
            assert(rows * nblk * 8 <= rows * 512 && 0 <= rows * nblk <= rows * nblk * 8)
                by (nonlinear_arith)
                requires
                    0 <= rows,
                    1 <= nblk <= 64,
            ;
            assert(8 * nblk * rows == rows * nblk * 8) by (nonlinear_arith);
        }
        let part = buf(Slot::Scratch);
        let out = part.at(rows * nblk * 8);
        Ok(
            vec![
                Cmd::Ensure { slot: Slot::Scratch, bytes: rows * nblk * 8 },
                Cmd::Ensure { slot: Slot::Scratch, bytes: rows * 8 + 8 * nblk * rows },
                launch(
                    Call::ArgmaxS1 { x, vocab: vocab as i32, part, nblk: nblk as i32 },
                    nblk as u32,
                    rows as u32,
                    1,
                    256,
                ),
                launch(Call::ArgmaxS2 { part, out, nblk: nblk as i32 }, rows as u32, 1, 1, 64),
                Cmd::D2h { dst: Host::Records, src: out, bytes: t * 8 },
            ],
        )
    }
}

/// The token of each eight-byte record: its second half, low byte first.
pub fn argmax_tokens(records: &Vec<u8>, t: usize) -> (r: Vec<u32>)
    requires
        records@.len() == t * 8,
    ensures
        r@.len() == t,
        forall|s: int| 0 <= s < t ==> #[trigger] r@[s] == le_u32(records@, s * 8 + 4),
{
    let n: usize = records.len();
    let mut r: Vec<u32> = Vec::new();
    let mut s: usize = 0;
    while s < t
        invariant
            n == records@.len(),
            n == t * 8,
            s <= t,
            r@.len() == s,
            forall|k: int| 0 <= k < s ==> #[trigger] r@[k] == le_u32(records@, k * 8 + 4),
        decreases t - s,
    {
        let at: usize = s * 8 + 4;
        let v: u32 = records[at] as u32 + 256 * (records[at + 1] as u32) + 65536 * (records[at
            + 2] as u32) + 16777216 * (records[at + 3] as u32);
        r.push(v);
        s = s + 1;
    }
    r
}

} // verus!
