//! Attention over selected positions.

use vstd::prelude::*;
use crate::acc::Q4Acc;
use crate::arith::{ceil_div, max_usize, min_usize, spec_ceil_div};
use crate::attn_laws::{
    device_inputs, host_inputs, is_attention, is_host_attention, is_masked_attention,
    listed_inputs, resident_inputs, Lens,
};
use crate::device::{buf, launch, spec_buf, spec_launch, Cmd, Host, Ptr, Slot};
use crate::error::AccError;
use crate::kernels::Call;
use crate::memory::distance;
use crate::op_laws::{frame, lemma_frames};
use crate::ops::one;

verus! {

/// Heads, head size, tokens and the scale of the scores.
#[derive(Clone, Copy, PartialEq, Eq, Structural, Debug)]
pub struct AttnShape {
    pub scale: u32,
    pub n_head: usize,
    pub n_kv: usize,
    pub hd: usize,
    pub t: usize,
}

/// The positions that a list of offsets gives to its first token.
pub open spec fn spec_list_len(sel_off: Seq<u32>) -> int {
    let hi = if sel_off.len() > 1 {
        sel_off[1] as int
    } else {
        0
    };
    let lo = if sel_off.len() > 0 {
        sel_off[0] as int
    } else {
        0
    };
    vstd::math::max(hi - lo, 0)
}

pub fn list_len(sel_off: &[u32]) -> (r: usize)
    ensures
        r == spec_list_len(sel_off@),
{
    let hi: u32 = if sel_off.len() > 1 {
        sel_off[1]
    } else {
        0
    };
    let lo: u32 = if sel_off.len() > 0 {
        sel_off[0]
    } else {
        0
    };
    if hi > lo {
        (hi - lo) as usize
    } else {
        0
    }
}

/// Splits of a list: one per 32 positions, at least one, at most the limit and
/// never more than 512.
pub open spec fn spec_splits(list_len: int, cap: Option<usize>) -> int {
    let cap = match cap {
        Some(c) => c as int,
        None => 64,
    };
    vstd::math::min(
        vstd::math::max(list_len / 32, 1),
        vstd::math::min(vstd::math::max(cap, 1), 512),
    )
}

/// The splits of a list are few enough for the partial sums, and each of them
/// covers at least 32 positions unless there is only one.
pub proof fn law_splits_bounded(list_len: int, cap: Option<usize>)
    requires
        list_len >= 0,
    ensures
        1 <= spec_splits(list_len, cap) <= 512,
        cap matches Some(c) ==> c >= 1 ==> spec_splits(list_len, cap) <= c,
        spec_splits(list_len, cap) == 1 || spec_splits(list_len, cap) * 32 <= list_len,
{
}

pub fn splits(list_len: usize, cap: Option<usize>) -> (r: usize)
    ensures
        r == spec_splits(list_len as int, cap),
        1 <= r <= 512,
{
    let c: usize = match cap {
        Some(c) => c,
        None => 64,
    };
    min_usize(max_usize(list_len / 32, 1), min_usize(max_usize(c, 1), 512))
}

/// Buffers of the attention inputs.
pub open spec fn kv_words(ctx_len: int, s: AttnShape) -> int {
    ctx_len * vstd::math::max(s.n_kv as int, 1) * vstd::math::max(s.hd as int, 1)
}

pub open spec fn max1(n: int) -> int {
    vstd::math::max(n, 1)
}

/// Sizes of an attention step can be counted.
pub open spec fn attn_fits(ctx_len: int, s: AttnShape) -> bool {
    &&& kv_words(ctx_len, s) * 4 <= usize::MAX
    &&& ctx_len * max1(s.n_kv as int) <= usize::MAX
    &&& max1(s.t as int) * s.n_head * 2 * s.hd * 4 <= usize::MAX
    &&& max1(s.t as int) * s.n_head * 2 <= usize::MAX
    &&& s.n_head * 655360 <= usize::MAX
}

proof fn lemma_attn_fits(ctx_len: int, s: AttnShape, n: int)
    requires
        0 <= ctx_len,
        1 <= n <= 512,
        attn_fits(ctx_len, s),
    ensures
        0 <= s.t * s.n_head * s.hd * 4 <= usize::MAX,
        0 <= s.t * s.n_head * s.hd <= usize::MAX,
        0 <= s.t * s.n_head <= usize::MAX,
        0 <= s.n_head * n * 32 * 10 * 4 <= usize::MAX,
        0 <= s.n_head * n <= usize::MAX,
        s.n_head * n * 32 <= usize::MAX,
        s.n_head * n * 32 * 10 <= usize::MAX,
        0 <= kv_words(ctx_len, s) <= usize::MAX,
        0 <= max1(s.t as int) * s.n_head <= max1(s.t as int) * s.n_head * 2,
        max1(s.t as int) * s.n_head * 2 * s.hd <= usize::MAX,
{
    let (t, h, d, m) = (s.t as int, s.n_head as int, s.hd as int, max1(s.t as int));
    assert(0 <= t * h <= m * h * 2) by (nonlinear_arith)
        requires
            0 <= t <= m,
            0 <= h,
    ;
    assert(0 <= t * h * d <= t * h * d * 4 <= m * h * 2 * d * 4) by (nonlinear_arith)
        requires
            0 <= t * h <= m * h * 2,
            0 <= d,
    ;
    assert(0 <= h * n <= h * n * 32 <= h * n * 320 <= h * n * 1280 <= h * 655360)
        by (nonlinear_arith)
        requires
            0 <= h,
            1 <= n <= 512,
    ;
    assert(h * n * 32 * 10 == h * n * 320 && h * n * 32 * 10 * 4 == h * n * 1280)
        by (nonlinear_arith);
    let (a, b) = (max1(s.n_kv as int), max1(s.hd as int));
    assert(0 <= ctx_len * a * b <= ctx_len * a * b * 4) by (nonlinear_arith)
        requires
            0 <= ctx_len,
            1 <= a,
            1 <= b,
    ;
    assert(0 <= m * h <= m * h * 2 && m * h * 2 * d <= m * h * 2 * d * 4) by (nonlinear_arith)
        requires
            0 <= m,
            0 <= h,
            0 <= d,
    ;
}

/// Splits of the list, each with its partial sums, and their merge.
pub open spec fn split_launches(
    s: AttnShape,
    n: int,
    q: Ptr,
    k: Ptr,
    v: Ptr,
    sel_idx: Ptr,
    sel_off: Ptr,
    out: Ptr,
) -> Seq<Cmd> {
    let part = spec_buf(Slot::Qsp);
    seq![
        spec_launch(
            Call::QsaSplit {
                q,
                k,
                v,
                sel_idx,
                sel_off,
                part,
                n_splits: n as i32,
                scale: s.scale,
                n_head: s.n_head as i32,
                n_kv: s.n_kv as i32,
                hd: s.hd as i32,
            },
            spec_ceil_div(n, 4) as u32,
            (s.n_head / 12) as u32,
            1,
            256,
        ),
        spec_launch(
            Call::QsaMerge {
                part,
                q,
                out,
                n_splits: n as i32,
                n_head: s.n_head as i32,
                hd: s.hd as i32,
            },
            spec_ceil_div(s.n_head as int, 8) as u32,
            1,
            1,
            256,
        ),
    ]
}

fn split_cmds(
    s: AttnShape,
    n: usize,
    q: Ptr,
    k: Ptr,
    v: Ptr,
    sel_idx: Ptr,
    sel_off: Ptr,
    out: Ptr,
) -> (r: Vec<Cmd>)
    ensures
        r@ == split_launches(s, n as int, q, k, v, sel_idx, sel_off, out),
{
    let part = buf(Slot::Qsp);
    vec![
        launch(
            Call::QsaSplit {
                q,
                k,
                v,
                sel_idx,
                sel_off,
                part,
                n_splits: n as i32,
                scale: s.scale,
                n_head: s.n_head as i32,
                n_kv: s.n_kv as i32,
                hd: s.hd as i32,
            },
            ceil_div(n, 4) as u32,
            (s.n_head / 12) as u32,
            1,
            256,
        ),
        launch(
            Call::QsaMerge {
                part,
                q,
                out,
                n_splits: n as i32,
                n_head: s.n_head as i32,
                hd: s.hd as i32,
            },
            ceil_div(s.n_head, 8) as u32,
            1,
            1,
            256,
        ),
    ]
}

/// The kernels that run through a whole list: a warp per head, or a warp per
/// four or six heads that share keys and values.
#[derive(Clone, Copy, PartialEq, Eq, Structural, Debug)]
pub enum ListKernel {
    PerHead,
    Four,
    Six,
}

pub open spec fn list_launch(
    kind: ListKernel,
    s: AttnShape,
    q: Ptr,
    k: Ptr,
    v: Ptr,
    sel_idx: Ptr,
    sel_off: Ptr,
    out: Ptr,
) -> Cmd {
    let (scale, n_head, n_kv, hd, t) = (
        s.scale,
        s.n_head as i32,
        s.n_kv as i32,
        s.hd as i32,
        s.t as i32,
    );
    match kind {
        ListKernel::PerHead => spec_launch(
            Call::QsaSel { q, k, v, sel_idx, sel_off, out, scale, n_head, n_kv, hd, t },
            spec_ceil_div(s.t as int, 16) as u32,
            s.n_head as u32,
            1,
            512,
        ),
        ListKernel::Four => spec_launch(
            Call::QsaSel4 { q, k, v, sel_idx, sel_off, out, scale, n_head, n_kv, hd, t },
            spec_ceil_div(s.t as int, 4) as u32,
            (s.n_head / 8) as u32,
            1,
            256,
        ),
        ListKernel::Six => spec_launch(
            Call::QsaSel6 { q, k, v, sel_idx, sel_off, out, scale, n_head, n_kv, hd, t },
            spec_ceil_div(s.t as int, 4) as u32,
            (s.n_head / 12) as u32,
            1,
            256,
        ),
    }
}

fn list_cmd(
    kind: ListKernel,
    s: AttnShape,
    q: Ptr,
    k: Ptr,
    v: Ptr,
    sel_idx: Ptr,
    sel_off: Ptr,
    out: Ptr,
) -> (r: Cmd)
    ensures
        r == list_launch(kind, s, q, k, v, sel_idx, sel_off, out),
{
    let (scale, n_head, n_kv, hd, t): (u32, i32, i32, i32, i32) = (
        s.scale,
        s.n_head as i32,
        s.n_kv as i32,
        s.hd as i32,
        s.t as i32,
    );
    match kind {
        ListKernel::PerHead => launch(
            Call::QsaSel { q, k, v, sel_idx, sel_off, out, scale, n_head, n_kv, hd, t },
            ceil_div(s.t, 16) as u32,
            s.n_head as u32,
            1,
            512,
        ),
        ListKernel::Four => launch(
            Call::QsaSel4 { q, k, v, sel_idx, sel_off, out, scale, n_head, n_kv, hd, t },
            ceil_div(s.t, 4) as u32,
            (s.n_head / 8) as u32,
            1,
            256,
        ),
        ListKernel::Six => launch(
            Call::QsaSel6 { q, k, v, sel_idx, sel_off, out, scale, n_head, n_kv, hd, t },
            ceil_div(s.t, 4) as u32,
            (s.n_head / 12) as u32,
            1,
            256,
        ),
    }
}

/// Room of `words` words in a slot.
pub open spec fn room(slot: Slot, words: int) -> Cmd {
    Cmd::Ensure { slot, bytes: (words * 4) as usize }
}

/// Upload of `words` words to a slot.
pub open spec fn put(slot: Slot, src: Host, words: int) -> Cmd {
    Cmd::H2d { dst: spec_buf(slot), src, bytes: (words * 4) as usize }
}

/// The result rows go to the host.
pub open spec fn fetch(s: AttnShape) -> Cmd {
    Cmd::D2h {
        dst: Host::Y,
        src: spec_buf(Slot::Atn),
        bytes: (s.t * s.n_head * s.hd * 4) as usize,
    }
}

impl Q4Acc {
    /// Room for keys and values: the whole context, so that their addresses stay.
    pub open spec fn kv_room(&self, s: AttnShape, ck: int, cv: int) -> Seq<Cmd> {
        let all = kv_words(self.ctx_len as int, s);
        seq![
            room(Slot::Ckv, vstd::math::max(ck, all)),
            room(Slot::Cvv, vstd::math::max(cv, all)),
        ]
    }

    fn kv_room_cmds(&self, s: AttnShape, ck: usize, cv: usize) -> (r: Vec<Cmd>)
        requires
            attn_fits(self.ctx_len as int, s),
            ck * 4 <= usize::MAX,
            cv * 4 <= usize::MAX,
        ensures
            r@ == self.kv_room(s, ck as int, cv as int),
    {
        proof {
            lemma_attn_fits(self.ctx_len as int, s, 1);
        }
        let all: usize = self.ctx_len * max_usize(s.n_kv, 1) * max_usize(s.hd, 1);
        vec![
            Cmd::Ensure { slot: Slot::Ckv, bytes: max_usize(ck, all) * 4 },
            Cmd::Ensure { slot: Slot::Cvv, bytes: max_usize(cv, all) * 4 },
        ]
    }

    /// The program of attention over host arrays with one of the list kernels.
    pub open spec fn sel_program(
        &self,
        kind: ListKernel,
        s: AttnShape,
        q: int,
        ck: int,
        cv: int,
        si: int,
        so: int,
    ) -> Seq<Cmd> {
        seq![room(Slot::Qs, q)] + self.kv_room(s, ck, cv) + seq![
            room(Slot::Msk, max1(si)),
            room(Slot::Soff, max1(so)),
            room(Slot::Atn, s.t * s.n_head * s.hd),
            put(Slot::Qs, Host::Q, q),
            put(Slot::Ckv, Host::K, ck),
            put(Slot::Cvv, Host::V, cv),
            put(Slot::Msk, Host::SelIdx, si),
            put(Slot::Soff, Host::SelOff, so),
            list_launch(
                kind,
                s,
                spec_buf(Slot::Qs),
                spec_buf(Slot::Ckv),
                spec_buf(Slot::Cvv),
                spec_buf(Slot::Msk),
                spec_buf(Slot::Soff),
                spec_buf(Slot::Atn),
            ),
            fetch(s),
        ]
    }

    fn sel_cmds(
        &self,
        kind: ListKernel,
        s: AttnShape,
        q: usize,
        ck: usize,
        cv: usize,
        si: usize,
        so: usize,
    ) -> (r: Vec<Cmd>)
        requires
            attn_fits(self.ctx_len as int, s),
            q * 4 <= usize::MAX,
            ck * 4 <= usize::MAX,
            cv * 4 <= usize::MAX,
            si * 4 <= usize::MAX,
            so * 4 <= usize::MAX,
        ensures
            r@ == self.sel_program(
                kind,
                s,
                q as int,
                ck as int,
                cv as int,
                si as int,
                so as int,
            ),
    {
        proof {
            lemma_attn_fits(self.ctx_len as int, s, 1);
        }
        let out: usize = s.t * s.n_head * s.hd * 4;
        let mut r: Vec<Cmd> = one(Cmd::Ensure { slot: Slot::Qs, bytes: q * 4 });
        let mut kv = self.kv_room_cmds(s, ck, cv);
        r.append(&mut kv);
        r.push(Cmd::Ensure { slot: Slot::Msk, bytes: max_usize(si, 1) * 4 });
        r.push(Cmd::Ensure { slot: Slot::Soff, bytes: max_usize(so, 1) * 4 });
        r.push(Cmd::Ensure { slot: Slot::Atn, bytes: out });
        r.push(Cmd::H2d { dst: buf(Slot::Qs), src: Host::Q, bytes: q * 4 });
        r.push(Cmd::H2d { dst: buf(Slot::Ckv), src: Host::K, bytes: ck * 4 });
        r.push(Cmd::H2d { dst: buf(Slot::Cvv), src: Host::V, bytes: cv * 4 });
        r.push(Cmd::H2d { dst: buf(Slot::Msk), src: Host::SelIdx, bytes: si * 4 });
        r.push(Cmd::H2d { dst: buf(Slot::Soff), src: Host::SelOff, bytes: so * 4 });
        r.push(
            list_cmd(
                kind,
                s,
                buf(Slot::Qs),
                buf(Slot::Ckv),
                buf(Slot::Cvv),
                buf(Slot::Msk),
                buf(Slot::Soff),
                buf(Slot::Atn),
            ),
        );
        r.push(Cmd::D2h { dst: Host::Y, src: buf(Slot::Atn), bytes: out });
        assert(r@ =~= self.sel_program(
            kind,
            s,
            q as int,
            ck as int,
            cv as int,
            si as int,
            so as int,
        ));
        r
    }

    /// Plans attention over host arrays, a warp per head.
    pub fn qsa_attn_sel_raw(
        &self,
        q: &[u32],
        ck: &[u32],
        cv: &[u32],
        sel_idx: &[u32],
        sel_off: &[u32],
        s: AttnShape,
    ) -> (r: Vec<Cmd>)
        requires
            attn_fits(self.ctx_len as int, s),
            q@.len() * 4 <= usize::MAX,
            ck@.len() * 4 <= usize::MAX,
            cv@.len() * 4 <= usize::MAX,
            sel_idx@.len() * 4 <= usize::MAX,
            sel_off@.len() * 4 <= usize::MAX,
        ensures
            r@ == self.sel_program(
                ListKernel::PerHead,
                s,
                q@.len() as int,
                ck@.len() as int,
                cv@.len() as int,
                sel_idx@.len() as int,
                sel_off@.len() as int,
            ),
            is_host_attention(
                r@,
                host_inputs(),
                Lens {
                    q: q@.len() as int,
                    key: ck@.len() as int,
                    value: cv@.len() as int,
                    idx: sel_idx@.len() as int,
                    off: sel_off@.len() as int,
                },
                s,
            ),
    {
        proof {
            lemma_attn_fits(self.ctx_len as int, s, 1);
            self.law_host_attention(
                ListKernel::PerHead,
                s,
                q@.len() as int,
                ck@.len() as int,
                cv@.len() as int,
                sel_idx@.len() as int,
                sel_off@,
            );
        }
        self.sel_cmds(
            ListKernel::PerHead,
            s,
            q.len(),
            ck.len(),
            cv.len(),
            sel_idx.len(),
            sel_off.len(),
        )
    }

    /// Six heads per warp where the heads come in twelves, else four.
    pub open spec fn wide_kernel(&self, s: AttnShape) -> ListKernel {
        if s.n_head % 12 == 0 && !self.tuning.qsa_h6_off {
            ListKernel::Six
        } else {
            ListKernel::Four
        }
    }

    /// Plans attention over host arrays, several heads per warp.
    pub fn qsa_attn_sel4_raw(
        &self,
        q: &[u32],
        ck: &[u32],
        cv: &[u32],
        sel_idx: &[u32],
        sel_off: &[u32],
        s: AttnShape,
    ) -> (r: Vec<Cmd>)
        requires
            attn_fits(self.ctx_len as int, s),
            q@.len() * 4 <= usize::MAX,
            ck@.len() * 4 <= usize::MAX,
            cv@.len() * 4 <= usize::MAX,
            sel_idx@.len() * 4 <= usize::MAX,
            sel_off@.len() * 4 <= usize::MAX,
        ensures
            r@ == self.sel_program(
                self.wide_kernel(s),
                s,
                q@.len() as int,
                ck@.len() as int,
                cv@.len() as int,
                sel_idx@.len() as int,
                sel_off@.len() as int,
            ),
            s.n_head % 8 == 0 ==> is_host_attention(
                r@,
                host_inputs(),
                Lens {
                    q: q@.len() as int,
                    key: ck@.len() as int,
                    value: cv@.len() as int,
                    idx: sel_idx@.len() as int,
                    off: sel_off@.len() as int,
                },
                s,
            ),
    {
        let kind = if s.n_head % 12 == 0 && !self.tuning.qsa_h6_off {
            ListKernel::Six
        } else {
            ListKernel::Four
        };
        proof {
            lemma_attn_fits(self.ctx_len as int, s, 1);
            self.law_host_attention(
                kind,
                s,
                q@.len() as int,
                ck@.len() as int,
                cv@.len() as int,
                sel_idx@.len() as int,
                sel_off@,
            );
        }
        self.sel_cmds(kind, s, q.len(), ck.len(), cv.len(), sel_idx.len(), sel_off.len())
    }

    /// Room for the partial sums of `n` splits.
    pub open spec fn split_room(s: AttnShape, n: int) -> Cmd {
        Cmd::Ensure { slot: Slot::Qsp, bytes: (s.n_head * n * 32 * 10 * 4) as usize }
    }

    /// The program of split attention over host arrays.
    pub open spec fn split_program(
        &self,
        s: AttnShape,
        q: int,
        ck: int,
        cv: int,
        si: int,
        sel_off: Seq<u32>,
    ) -> Seq<Cmd> {
        let n = spec_splits(spec_list_len(sel_off), self.tuning.qsa_split_cap);
        let so = sel_off.len() as int;
        seq![room(Slot::Qs, max1(q))] + self.kv_room(s, ck, cv) + seq![
            room(Slot::Msk, max1(si)),
            room(Slot::Soff, max1(so)),
            Q4Acc::split_room(s, n),
            room(Slot::Atn, s.t * s.n_head * s.hd),
            put(Slot::Qs, Host::Q, q),
            put(Slot::Ckv, Host::K, ck),
            put(Slot::Cvv, Host::V, cv),
            put(Slot::Msk, Host::SelIdx, si),
            put(Slot::Soff, Host::SelOff, so),
        ] + split_launches(
            s,
            n,
            spec_buf(Slot::Qs),
            spec_buf(Slot::Ckv),
            spec_buf(Slot::Cvv),
            spec_buf(Slot::Msk),
            spec_buf(Slot::Soff),
            spec_buf(Slot::Atn),
        ) + seq![fetch(s)]
    }

    /// Plans attention over host arrays with the list split over blocks.
    pub fn qsa_attn_sel4s_raw(
        &self,
        q: &[u32],
        ck: &[u32],
        cv: &[u32],
        sel_idx: &[u32],
        sel_off: &[u32],
        s: AttnShape,
    ) -> (r: Vec<Cmd>)
        requires
            attn_fits(self.ctx_len as int, s),
            q@.len() * 4 <= usize::MAX,
            ck@.len() * 4 <= usize::MAX,
            cv@.len() * 4 <= usize::MAX,
            sel_idx@.len() * 4 <= usize::MAX,
            sel_off@.len() * 4 <= usize::MAX,
        ensures
            r@ == self.split_program(
                s,
                q@.len() as int,
                ck@.len() as int,
                cv@.len() as int,
                sel_idx@.len() as int,
                sel_off@,
            ),
            s.t == 1 ==> is_host_attention(
                r@,
                host_inputs(),
                Lens {
                    q: q@.len() as int,
                    key: ck@.len() as int,
                    value: cv@.len() as int,
                    idx: sel_idx@.len() as int,
                    off: sel_off@.len() as int,
                },
                s,
            ),
    {
        let n: usize = splits(list_len(sel_off), self.tuning.qsa_split_cap);
        proof {
            lemma_attn_fits(self.ctx_len as int, s, n as int);
            self.law_host_attention(
                ListKernel::PerHead,
                s,
                q@.len() as int,
                ck@.len() as int,
                cv@.len() as int,
                sel_idx@.len() as int,
                sel_off@,
            );
        }
        let out: usize = s.t * s.n_head * s.hd * 4;
        let mut r: Vec<Cmd> = one(Cmd::Ensure { slot: Slot::Qs, bytes: max_usize(q.len(), 1) * 4 });
        let mut kv = self.kv_room_cmds(s, ck.len(), cv.len());
        r.append(&mut kv);
        r.push(Cmd::Ensure { slot: Slot::Msk, bytes: max_usize(sel_idx.len(), 1) * 4 });
        r.push(Cmd::Ensure { slot: Slot::Soff, bytes: max_usize(sel_off.len(), 1) * 4 });
        r.push(Cmd::Ensure { slot: Slot::Qsp, bytes: s.n_head * n * 32 * 10 * 4 });
        r.push(Cmd::Ensure { slot: Slot::Atn, bytes: out });
        r.push(Cmd::H2d { dst: buf(Slot::Qs), src: Host::Q, bytes: q.len() * 4 });
        r.push(Cmd::H2d { dst: buf(Slot::Ckv), src: Host::K, bytes: ck.len() * 4 });
        r.push(Cmd::H2d { dst: buf(Slot::Cvv), src: Host::V, bytes: cv.len() * 4 });
        r.push(Cmd::H2d { dst: buf(Slot::Msk), src: Host::SelIdx, bytes: sel_idx.len() * 4 });
        r.push(Cmd::H2d { dst: buf(Slot::Soff), src: Host::SelOff, bytes: sel_off.len() * 4 });
        let mut c = split_cmds(
            s,
            n,
            buf(Slot::Qs),
            buf(Slot::Ckv),
            buf(Slot::Cvv),
            buf(Slot::Msk),
            buf(Slot::Soff),
            buf(Slot::Atn),
        );
        r.append(&mut c);
        r.push(Cmd::D2h { dst: Host::Y, src: buf(Slot::Atn), bytes: out });
        assert(r@ =~= self.split_program(
            s,
            q@.len() as int,
            ck@.len() as int,
            cv@.len() as int,
            sel_idx@.len() as int,
            sel_off@,
        ));
        r
    }

    /// The program of attention with queries and results in frames.
    pub open spec fn dev_program(
        s: AttnShape,
        ck: int,
        cv: int,
        si: int,
        so: int,
        q: Ptr,
        out: Ptr,
    ) -> Seq<Cmd> {
        seq![
            room(Slot::Qs, max1(s.t as int) * s.n_head * 2 * s.hd),
            room(Slot::Ckv, max1(ck)),
            room(Slot::Cvv, max1(cv)),
            room(Slot::Msk, max1(si)),
            room(Slot::Soff, max1(so)),
            room(Slot::Atn, s.t * s.n_head * s.hd),
            put(Slot::Ckv, Host::K, ck),
            put(Slot::Cvv, Host::V, cv),
            put(Slot::Msk, Host::SelIdx, si),
            put(Slot::Soff, Host::SelOff, so),
            list_launch(
                if s.t > 3 {
                    ListKernel::Four
                } else {
                    ListKernel::PerHead
                },
                s,
                q,
                spec_buf(Slot::Ckv),
                spec_buf(Slot::Cvv),
                spec_buf(Slot::Msk),
                spec_buf(Slot::Soff),
                out,
            ),
        ]
    }

    /// Plans attention with queries and results in frames.
    pub fn qsa_attn_dev_raw(
        &self,
        q: u64,
        ck: &[u32],
        cv: &[u32],
        sel_idx: &[u32],
        sel_off: &[u32],
        s: AttnShape,
        out: u64,
    ) -> (r: Result<Vec<Cmd>, AccError>)
        requires
            attn_fits(0, s),
            ck@.len() * 4 <= usize::MAX,
            cv@.len() * 4 <= usize::MAX,
            sel_idx@.len() * 4 <= usize::MAX,
            sel_off@.len() * 4 <= usize::MAX,
        ensures
            match self.frame_ptrs(seq![q, out]) {
                Err(e) => r matches Err(f) && f == e,
                Ok(p) => r matches Ok(c) && c@ == Q4Acc::dev_program(
                    s,
                    ck@.len() as int,
                    cv@.len() as int,
                    sel_idx@.len() as int,
                    sel_off@.len() as int,
                    p[0],
                    p[1],
                ),
            },
            r matches Ok(c) ==> is_attention(
                c@,
                device_inputs(frame(*self, q)),
                Lens {
                    q: 0,
                    key: ck@.len() as int,
                    value: cv@.len() as int,
                    idx: sel_idx@.len() as int,
                    off: sel_off@.len() as int,
                },
                s,
                frame(*self, out),
            ),
    {
        let hs: Vec<u64> = vec![q, out];
        assert(hs@ =~= seq![q, out]);
        let p = match self.fptrs(&hs) {
            Ok(p) => p,
            Err(e) => {
                return Err(e);
            },
        };
        proof {
            lemma_attn_fits(0, s, 1);
            lemma_frames(*self, hs@, p@);
            self.law_device_attention(
                s,
                ck@.len() as int,
                cv@.len() as int,
                sel_idx@.len() as int,
                sel_off@,
                p@[0],
                p@[1],
            );
        }
        let kind = if s.t > 3 {
            ListKernel::Four
        } else {
            ListKernel::PerHead
        };
        Ok(
            vec![
                Cmd::Ensure { slot: Slot::Qs, bytes: max_usize(s.t, 1) * s.n_head * 2 * s.hd * 4 },
                Cmd::Ensure { slot: Slot::Ckv, bytes: max_usize(ck.len(), 1) * 4 },
                Cmd::Ensure { slot: Slot::Cvv, bytes: max_usize(cv.len(), 1) * 4 },
                Cmd::Ensure { slot: Slot::Msk, bytes: max_usize(sel_idx.len(), 1) * 4 },
                Cmd::Ensure { slot: Slot::Soff, bytes: max_usize(sel_off.len(), 1) * 4 },
                Cmd::Ensure { slot: Slot::Atn, bytes: s.t * s.n_head * s.hd * 4 },
                Cmd::H2d { dst: buf(Slot::Ckv), src: Host::K, bytes: ck.len() * 4 },
                Cmd::H2d { dst: buf(Slot::Cvv), src: Host::V, bytes: cv.len() * 4 },
                Cmd::H2d { dst: buf(Slot::Msk), src: Host::SelIdx, bytes: sel_idx.len() * 4 },
                Cmd::H2d { dst: buf(Slot::Soff), src: Host::SelOff, bytes: sel_off.len() * 4 },
                list_cmd(
                    kind,
                    s,
                    p[0],
                    buf(Slot::Ckv),
                    buf(Slot::Cvv),
                    buf(Slot::Msk),
                    buf(Slot::Soff),
                    p[1],
                ),
            ],
        )
    }

    /// The program of split attention with queries and results in frames.
    pub open spec fn split_dev_program(
        &self,
        s: AttnShape,
        ck: int,
        cv: int,
        si: int,
        sel_off: Seq<u32>,
        q: Ptr,
        out: Ptr,
    ) -> Seq<Cmd> {
        let n = spec_splits(spec_list_len(sel_off), self.tuning.qsa_split_cap);
        let so = sel_off.len() as int;
        self.kv_room(s, ck, cv) + seq![
            room(Slot::Msk, max1(si)),
            room(Slot::Soff, max1(so)),
            Q4Acc::split_room(s, n),
            put(Slot::Ckv, Host::K, ck),
            put(Slot::Cvv, Host::V, cv),
            put(Slot::Msk, Host::SelIdx, si),
            put(Slot::Soff, Host::SelOff, so),
        ] + split_launches(
            s,
            n,
            q,
            spec_buf(Slot::Ckv),
            spec_buf(Slot::Cvv),
            spec_buf(Slot::Msk),
            spec_buf(Slot::Soff),
            out,
        )
    }

    /// Plans split attention with queries and results in frames.
    pub fn qsa_attn_sel4s_dev_raw(
        &self,
        q: u64,
        ck: &[u32],
        cv: &[u32],
        sel_idx: &[u32],
        sel_off: &[u32],
        s: AttnShape,
        out: u64,
    ) -> (r: Result<Vec<Cmd>, AccError>)
        requires
            attn_fits(self.ctx_len as int, s),
            ck@.len() * 4 <= usize::MAX,
            cv@.len() * 4 <= usize::MAX,
            sel_idx@.len() * 4 <= usize::MAX,
            sel_off@.len() * 4 <= usize::MAX,
        ensures
            match self.frame_ptrs(seq![q, out]) {
                Err(e) => r matches Err(f) && f == e,
                Ok(p) => r matches Ok(c) && c@ == self.split_dev_program(
                    s,
                    ck@.len() as int,
                    cv@.len() as int,
                    sel_idx@.len() as int,
                    sel_off@,
                    p[0],
                    p[1],
                ),
            },
            s.t == 1 && r is Ok ==> is_attention(
                r->Ok_0@,
                device_inputs(frame(*self, q)),
                Lens {
                    q: 0,
                    key: ck@.len() as int,
                    value: cv@.len() as int,
                    idx: sel_idx@.len() as int,
                    off: sel_off@.len() as int,
                },
                s,
                frame(*self, out),
            ),
    {
        let hs: Vec<u64> = vec![q, out];
        assert(hs@ =~= seq![q, out]);
        let p = match self.fptrs(&hs) {
            Ok(p) => p,
            Err(e) => {
                return Err(e);
            },
        };
        let n: usize = splits(list_len(sel_off), self.tuning.qsa_split_cap);
        proof {
            lemma_attn_fits(self.ctx_len as int, s, n as int);
            lemma_frames(*self, hs@, p@);
            self.law_device_attention(
                s,
                ck@.len() as int,
                cv@.len() as int,
                sel_idx@.len() as int,
                sel_off@,
                p@[0],
                p@[1],
            );
        }
        let mut r = self.kv_room_cmds(s, ck.len(), cv.len());
        r.push(Cmd::Ensure { slot: Slot::Msk, bytes: max_usize(sel_idx.len(), 1) * 4 });
        r.push(Cmd::Ensure { slot: Slot::Soff, bytes: max_usize(sel_off.len(), 1) * 4 });
        r.push(Cmd::Ensure { slot: Slot::Qsp, bytes: s.n_head * n * 32 * 10 * 4 });
        r.push(Cmd::H2d { dst: buf(Slot::Ckv), src: Host::K, bytes: ck.len() * 4 });
        r.push(Cmd::H2d { dst: buf(Slot::Cvv), src: Host::V, bytes: cv.len() * 4 });
        r.push(Cmd::H2d { dst: buf(Slot::Msk), src: Host::SelIdx, bytes: sel_idx.len() * 4 });
        r.push(Cmd::H2d { dst: buf(Slot::Soff), src: Host::SelOff, bytes: sel_off.len() * 4 });
        let mut c = split_cmds(
            s,
            n,
            p[0],
            buf(Slot::Ckv),
            buf(Slot::Cvv),
            buf(Slot::Msk),
            buf(Slot::Soff),
            p[1],
        );
        r.append(&mut c);
        assert(r@ =~= self.split_dev_program(
            s,
            ck@.len() as int,
            cv@.len() as int,
            sel_idx@.len() as int,
            sel_off@,
            p@[0],
            p@[1],
        ));
        Ok(r)
    }

    /// The program of attention over the resident cache: the list is uploaded,
    /// keys and values are not. The kernels are those of `qsa_attention_dev`.
    pub open spec fn resident_program(
        &self,
        s: AttnShape,
        k: Ptr,
        v: Ptr,
        si: int,
        sel_off: Seq<u32>,
        q: Ptr,
        out: Ptr,
    ) -> Seq<Cmd> {
        let split = s.t == 1 && !self.tuning.qsa_split_off;
        let n = if split {
            spec_splits(spec_list_len(sel_off), self.tuning.qsa_split_cap)
        } else {
            1
        };
        let so = sel_off.len() as int;
        let (idx, off) = (spec_buf(Slot::Msk), spec_buf(Slot::Soff));
        seq![
            room(Slot::Msk, max1(si)),
            room(Slot::Soff, max1(so)),
            Q4Acc::split_room(s, n),
            put(Slot::Msk, Host::SelIdx, si),
            put(Slot::Soff, Host::SelOff, so),
        ] + if split {
            split_launches(s, n, q, k, v, idx, off, out)
        } else {
            seq![
                list_launch(
                    if s.t > 3 {
                        ListKernel::Four
                    } else {
                        ListKernel::PerHead
                    },
                    s,
                    q,
                    k,
                    v,
                    idx,
                    off,
                    out,
                ),
            ]
        }
    }

    /// Plans attention over the resident cache.
    pub fn qsa_attn_res(
        &self,
        q: u64,
        k: Ptr,
        v: Ptr,
        sel_idx: &[u32],
        sel_off: &[u32],
        s: AttnShape,
        out: u64,
    ) -> (r: Result<Vec<Cmd>, AccError>)
        requires
            attn_fits(0, s),
            sel_idx@.len() * 4 <= usize::MAX,
            sel_off@.len() * 4 <= usize::MAX,
        ensures
            match self.frame_ptrs(seq![q, out]) {
                Err(e) => r matches Err(f) && f == e,
                Ok(p) => r matches Ok(c) && c@ == self.resident_program(
                    s,
                    k,
                    v,
                    sel_idx@.len() as int,
                    sel_off@,
                    p[0],
                    p[1],
                ),
            },
            r matches Ok(c) ==> is_attention(
                c@,
                resident_inputs(frame(*self, q), k, v),
                Lens {
                    q: 0,
                    key: 0,
                    value: 0,
                    idx: sel_idx@.len() as int,
                    off: sel_off@.len() as int,
                },
                s,
                frame(*self, out),
            ),
    {
        let hs: Vec<u64> = vec![q, out];
        assert(hs@ =~= seq![q, out]);
        let p = match self.fptrs(&hs) {
            Ok(p) => p,
            Err(e) => {
                return Err(e);
            },
        };
        let split = s.t == 1 && !self.tuning.qsa_split_off;
        let n: usize = if split {
            splits(list_len(sel_off), self.tuning.qsa_split_cap)
        } else {
            1
        };
        proof {
            lemma_attn_fits(0, s, n as int);
            lemma_frames(*self, hs@, p@);
            self.law_resident_attention(
                s,
                k,
                v,
                sel_idx@.len() as int,
                sel_off@,
                p@[0],
                p@[1],
            );
        }
        let (idx, off): (Ptr, Ptr) = (buf(Slot::Msk), buf(Slot::Soff));
        let mut r: Vec<Cmd> = vec![
            Cmd::Ensure { slot: Slot::Msk, bytes: max_usize(sel_idx.len(), 1) * 4 },
            Cmd::Ensure { slot: Slot::Soff, bytes: max_usize(sel_off.len(), 1) * 4 },
            Cmd::Ensure { slot: Slot::Qsp, bytes: s.n_head * n * 32 * 10 * 4 },
            Cmd::H2d { dst: idx, src: Host::SelIdx, bytes: sel_idx.len() * 4 },
            Cmd::H2d { dst: off, src: Host::SelOff, bytes: sel_off.len() * 4 },
        ];
        if split {
            let mut c = split_cmds(s, n, p[0], k, v, idx, off, p[1]);
            r.append(&mut c);
        } else {
            let kind = if s.t > 3 {
                ListKernel::Four
            } else {
                ListKernel::PerHead
            };
            r.push(list_cmd(kind, s, p[0], k, v, idx, off, p[1]));
        }
        assert(r@ =~= self.resident_program(
            s,
            k,
            v,
            sel_idx@.len() as int,
            sel_off@,
            p@[0],
            p@[1],
        ));
        Ok(r)
    }

    /// Plans split attention over the resident cache with a list that is on the
    /// device already. Only single tokens are split.
    pub fn qsa_attention_dev_sel(
        &self,
        q: u64,
        k: Ptr,
        v: Ptr,
        sel_idx: Ptr,
        sel_off: Ptr,
        list_len: usize,
        s: AttnShape,
        out: u64,
    ) -> (r: Result<Vec<Cmd>, AccError>)
        requires
            attn_fits(0, s),
        ensures
            if s.t != 1 || self.tuning.qsa_split_off {
                r == Err::<Vec<Cmd>, AccError>(AccError::SelectSplit { t: s.t })
            } else {
                match self.frame_ptrs(seq![q, out]) {
                    Err(e) => r matches Err(f) && f == e,
                    Ok(p) => {
                        let n = spec_splits(list_len as int, self.tuning.qsa_split_cap);
                        r matches Ok(c) && c@ == seq![Q4Acc::split_room(s, n)] + split_launches(
                            s,
                            n,
                            p[0],
                            k,
                            v,
                            sel_idx,
                            sel_off,
                            p[1],
                        )
                    },
                }
            },
            r is Ok && distance(spec_buf(Slot::Qsp), sel_idx) is None && distance(
                spec_buf(Slot::Qsp),
                sel_off,
            ) is None && sel_idx != Ptr::Null && sel_off != Ptr::Null ==> is_attention(
                r->Ok_0@,
                listed_inputs(frame(*self, q), k, v, sel_idx, sel_off),
                Lens { q: 0, key: 0, value: 0, idx: 0, off: 0 },
                s,
                frame(*self, out),
            ),
    {
        if s.t != 1 || self.tuning.qsa_split_off {
            return Err(AccError::SelectSplit { t: s.t });
        }
        let hs: Vec<u64> = vec![q, out];
        assert(hs@ =~= seq![q, out]);
        let p = match self.fptrs(&hs) {
            Ok(p) => p,
            Err(e) => {
                return Err(e);
            },
        };
        let n: usize = splits(list_len, self.tuning.qsa_split_cap);
        proof {
            lemma_attn_fits(0, s, n as int);
            lemma_frames(*self, hs@, p@);
            law_splits_bounded(list_len as int, self.tuning.qsa_split_cap);
            self.law_listed_attention(s, k, v, sel_idx, sel_off, n as int, p@[0], p@[1]);
        }
        let mut r: Vec<Cmd> = one(
            Cmd::Ensure { slot: Slot::Qsp, bytes: s.n_head * n * 32 * 10 * 4 },
        );
        let mut c = split_cmds(s, n, p[0], k, v, sel_idx, sel_off, p[1]);
        r.append(&mut c);
        Ok(r)
    }

    /// The program of attention under a mask.
    pub open spec fn masked_program(
        &self,
        s: AttnShape,
        n_past: usize,
        q: int,
        ck: int,
        cv: int,
        mask: int,
    ) -> Seq<Cmd> {
        seq![room(Slot::Qs, q)] + self.kv_room(s, ck, cv) + seq![
            room(Slot::Msk, mask),
            room(Slot::Atn, s.t * s.n_head * s.hd),
            put(Slot::Qs, Host::Q, q),
            put(Slot::Ckv, Host::K, ck),
            put(Slot::Cvv, Host::V, cv),
            put(Slot::Msk, Host::Mask, mask),
            spec_launch(
                Call::QsaMasked {
                    q: spec_buf(Slot::Qs),
                    k: spec_buf(Slot::Ckv),
                    v: spec_buf(Slot::Cvv),
                    mask: spec_buf(Slot::Msk),
                    out: spec_buf(Slot::Atn),
                    scale: s.scale,
                    n_past: n_past as i32,
                    n_head: s.n_head as i32,
                    n_kv: s.n_kv as i32,
                    hd: s.hd as i32,
                    t: s.t as i32,
                },
                spec_ceil_div(s.t as int, 16) as u32,
                s.n_head as u32,
                1,
                512,
            ),
            fetch(s),
        ]
    }

    /// Plans attention under a mask over host arrays.
    pub fn qsa_attn_raw(
        &self,
        q: &[u32],
        ck: &[u32],
        cv: &[u32],
        mask: &[u32],
        n_past: usize,
        s: AttnShape,
    ) -> (r: Vec<Cmd>)
        requires
            attn_fits(self.ctx_len as int, s),
            q@.len() * 4 <= usize::MAX,
            ck@.len() * 4 <= usize::MAX,
            cv@.len() * 4 <= usize::MAX,
            mask@.len() * 4 <= usize::MAX,
        ensures
            r@ == self.masked_program(
                s,
                n_past,
                q@.len() as int,
                ck@.len() as int,
                cv@.len() as int,
                mask@.len() as int,
            ),
            is_masked_attention(
                r@,
                s,
                n_past as int,
                q@.len() as int,
                ck@.len() as int,
                cv@.len() as int,
                mask@.len() as int,
            ),
    {
        proof {
            lemma_attn_fits(self.ctx_len as int, s, 1);
            self.law_masked_attention(
                s,
                n_past,
                q@.len() as int,
                ck@.len() as int,
                cv@.len() as int,
                mask@.len() as int,
            );
        }
        let out: usize = s.t * s.n_head * s.hd * 4;
        let mut r: Vec<Cmd> = one(Cmd::Ensure { slot: Slot::Qs, bytes: q.len() * 4 });
        let mut kv = self.kv_room_cmds(s, ck.len(), cv.len());
        r.append(&mut kv);
        r.push(Cmd::Ensure { slot: Slot::Msk, bytes: mask.len() * 4 });
        r.push(Cmd::Ensure { slot: Slot::Atn, bytes: out });
        r.push(Cmd::H2d { dst: buf(Slot::Qs), src: Host::Q, bytes: q.len() * 4 });
        r.push(Cmd::H2d { dst: buf(Slot::Ckv), src: Host::K, bytes: ck.len() * 4 });
        r.push(Cmd::H2d { dst: buf(Slot::Cvv), src: Host::V, bytes: cv.len() * 4 });
        r.push(Cmd::H2d { dst: buf(Slot::Msk), src: Host::Mask, bytes: mask.len() * 4 });
        r.push(
            launch(
                Call::QsaMasked {
                    q: buf(Slot::Qs),
                    k: buf(Slot::Ckv),
                    v: buf(Slot::Cvv),
                    mask: buf(Slot::Msk),
                    out: buf(Slot::Atn),
                    scale: s.scale,
                    n_past: n_past as i32,
                    n_head: s.n_head as i32,
                    n_kv: s.n_kv as i32,
                    hd: s.hd as i32,
                    t: s.t as i32,
                },
                ceil_div(s.t, 16) as u32,
                s.n_head as u32,
                1,
                512,
            ),
        );
        r.push(Cmd::D2h { dst: Host::Y, src: buf(Slot::Atn), bytes: out });
        assert(r@ =~= self.masked_program(
            s,
            n_past,
            q@.len() as int,
            ck@.len() as int,
            cv@.len() as int,
            mask@.len() as int,
        ));
        r
    }

    /// Plans attention with queries and results in frames: split for a single
    /// token, unless splitting is off.
    pub fn qsa_attention_dev(
        &self,
        q: u64,
        ck: &[u32],
        cv: &[u32],
        sel_idx: &[u32],
        sel_off: &[u32],
        s: AttnShape,
        out: u64,
    ) -> (r: Result<Vec<Cmd>, AccError>)
        requires
            attn_fits(self.ctx_len as int, s),
            ck@.len() * 4 <= usize::MAX,
            cv@.len() * 4 <= usize::MAX,
            sel_idx@.len() * 4 <= usize::MAX,
            sel_off@.len() * 4 <= usize::MAX,
        ensures
            match self.frame_ptrs(seq![q, out]) {
                Err(e) => r matches Err(f) && f == e,
                Ok(p) => r matches Ok(c) && c@ == if s.t == 1 && !self.tuning.qsa_split_off {
                    self.split_dev_program(
                        s,
                        ck@.len() as int,
                        cv@.len() as int,
                        sel_idx@.len() as int,
                        sel_off@,
                        p[0],
                        p[1],
                    )
                } else {
                    Q4Acc::dev_program(
                        s,
                        ck@.len() as int,
                        cv@.len() as int,
                        sel_idx@.len() as int,
                        sel_off@.len() as int,
                        p[0],
                        p[1],
                    )
                },
            },
            r matches Ok(c) ==> is_attention(
                c@,
                device_inputs(frame(*self, q)),
                Lens {
                    q: 0,
                    key: ck@.len() as int,
                    value: cv@.len() as int,
                    idx: sel_idx@.len() as int,
                    off: sel_off@.len() as int,
                },
                s,
                frame(*self, out),
            ),
    {
        if s.t == 1 && !self.tuning.qsa_split_off {
            self.qsa_attn_sel4s_dev_raw(q, ck, cv, sel_idx, sel_off, s, out)
        } else {
            assert(kv_words(0, s) == 0) by (nonlinear_arith)
                requires
                    kv_words(0, s) == 0 * max1(s.n_kv as int) * max1(s.hd as int),
            ;
            self.qsa_attn_dev_raw(q, ck, cv, sel_idx, sel_off, s, out)
        }
    }

    /// Plans attention under a mask, unless attention is kept on the host.
    pub fn qsa_attention(
        &self,
        q: &[u32],
        ck: &[u32],
        cv: &[u32],
        mask: &[u32],
        n_past: usize,
        s: AttnShape,
    ) -> (r: Result<Vec<Cmd>, AccError>)
        requires
            attn_fits(self.ctx_len as int, s),
            q@.len() * 4 <= usize::MAX,
            ck@.len() * 4 <= usize::MAX,
            cv@.len() * 4 <= usize::MAX,
            mask@.len() * 4 <= usize::MAX,
        ensures
            if self.tuning.qsa_cpu {
                r == Err::<Vec<Cmd>, AccError>(AccError::AttentionOnHost { t: s.t })
            } else {
                r matches Ok(c) && c@ == self.masked_program(
                    s,
                    n_past,
                    q@.len() as int,
                    ck@.len() as int,
                    cv@.len() as int,
                    mask@.len() as int,
                )
            },
            r matches Ok(c) ==> is_masked_attention(
                c@,
                s,
                n_past as int,
                q@.len() as int,
                ck@.len() as int,
                cv@.len() as int,
                mask@.len() as int,
            ),
    {
        if self.tuning.qsa_cpu {
            return Err(AccError::AttentionOnHost { t: s.t });
        }
        Ok(self.qsa_attn_raw(q, ck, cv, mask, n_past, s))
    }

    /// Plans attention over host arrays: split for a single token, a warp per
    /// head for up to three, several heads per warp for more.
    pub fn qsa_attention_sel(
        &self,
        q: &[u32],
        ck: &[u32],
        cv: &[u32],
        sel_idx: &[u32],
        sel_off: &[u32],
        s: AttnShape,
    ) -> (r: Result<Vec<Cmd>, AccError>)
        requires
            attn_fits(self.ctx_len as int, s),
            q@.len() * 4 <= usize::MAX,
            ck@.len() * 4 <= usize::MAX,
            cv@.len() * 4 <= usize::MAX,
            sel_idx@.len() * 4 <= usize::MAX,
            sel_off@.len() * 4 <= usize::MAX,
        ensures
            if self.tuning.qsa_cpu {
                r == Err::<Vec<Cmd>, AccError>(AccError::SelectedAttentionOnHost { t: s.t })
            } else {
                let (nq, nk, nv, ni) = (
                    q@.len() as int,
                    ck@.len() as int,
                    cv@.len() as int,
                    sel_idx@.len() as int,
                );
                r matches Ok(c) && c@ == if s.t == 1 && !self.tuning.qsa_split_off {
                    self.split_program(s, nq, nk, nv, ni, sel_off@)
                } else {
                    self.sel_program(
                        if s.t <= 3 {
                            ListKernel::PerHead
                        } else {
                            self.wide_kernel(s)
                        },
                        s,
                        nq,
                        nk,
                        nv,
                        ni,
                        sel_off@.len() as int,
                    )
                }
            },
            r matches Ok(c) ==> is_host_attention(
                c@,
                host_inputs(),
                Lens {
                    q: q@.len() as int,
                    key: ck@.len() as int,
                    value: cv@.len() as int,
                    idx: sel_idx@.len() as int,
                    off: sel_off@.len() as int,
                },
                s,
            ),
    {
        if self.tuning.qsa_cpu {
            return Err(AccError::SelectedAttentionOnHost { t: s.t });
        }
        if s.t == 1 && !self.tuning.qsa_split_off {
            Ok(self.qsa_attn_sel4s_raw(q, ck, cv, sel_idx, sel_off, s))
        } else if s.t <= 3 {
            Ok(self.qsa_attn_sel_raw(q, ck, cv, sel_idx, sel_off, s))
        } else {
            Ok(self.qsa_attn_sel4_raw(q, ck, cv, sel_idx, sel_off, s))
        }
    }
}

} // verus!
