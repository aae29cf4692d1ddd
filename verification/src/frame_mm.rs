//! Products over activations that stay on the device.

use vstd::prelude::*;
use crate::acc::Q4Acc;
use crate::device::{buf, spec_buf, Attempt, Cmd, MatMul, Ptr, Slot};
use crate::error::AccError;
use crate::gemm::{
    f32_dual_launch, gemm_f32_dual, gemm_f32_launch, gemm_mix_dual, gemm_program, gemm_q8_dual,
    launch_gemm, launch_gemm_f32, mix_dual_launch, q8_dual_launch,
};
use crate::ggml::{
    f32_family, ggml_id, spec_f32_family, spec_ggml_id, spec_xq_words, xq_words, GgmlType,
};
use crate::moe::{frame_quant, quant_program};
use crate::op_laws::frame;
use crate::product_groups::{
    law_group_multiplies_all, law_product_of_every_row, multiplies, multiplies_all,
};
use crate::upload::Weight;

verus! {

/// The types that the self-quantising product handles.
pub open spec fn mmq_type(ty: u32) -> bool {
    ty == 12 || ty == 13 || ty == 14 || ty == 23
}

fn is_mmq_type(ty: u32) -> (r: bool)
    ensures
        r == mmq_type(ty),
{
    matches!(ty, 12 | 13 | 14 | 23)
}

/// How two neighbouring products share a launch.
#[derive(Clone, Copy, PartialEq, Eq, Structural, Debug)]
pub enum Pairing {
    Alone,
    Q8,
    F32,
    /// A q8_0 product and the `f32` product behind it.
    Mixed,
}

/// The resident copy of a weight.
pub open spec fn spec_wptr(w: Weight) -> Ptr {
    Ptr::Weight { key: w.key, off: 0 }
}

pub fn wptr(w: &Weight) -> (r: Ptr)
    ensures
        r == spec_wptr(*w),
{
    Ptr::Weight { key: w.key, off: 0 }
}

/// Sizes and addresses of a product of `t` rows can be counted.
pub open spec fn mm_fits(w: Weight, out: Ptr, t: int) -> bool {
    &&& t * spec_xq_words(w.n_in as int) * 4 <= usize::MAX
    &&& out.offset() + t * w.n_out * 4 <= usize::MAX
    &&& w.n_out * 512 <= usize::MAX
    &&& (w.n_in / 32) * 384 <= usize::MAX
}

/// The product over the quantised rows in `Slot::Fxq`.
pub open spec fn quantised_mm(w: Weight, out: Ptr, t: usize) -> MatMul {
    MatMul {
        ty: spec_ggml_id(w.ty),
        x: spec_buf(Slot::Fxq),
        w: spec_wptr(w),
        n_in: w.n_in,
        n_out: w.n_out,
        xq_w: spec_xq_words(w.n_in as int) as usize,
        t,
        out,
    }
}

/// The product that reads `f32` rows and quantises them itself.
pub open spec fn mmq_mm(ty: u32, x: Ptr, w: Weight, out: Ptr, t: usize) -> MatMul {
    MatMul { ty, x, w: spec_wptr(w), n_in: w.n_in, n_out: w.n_out, xq_w: 0, t, out }
}

fn quantised(w: &Weight, out: Ptr, t: usize) -> (r: MatMul)
    ensures
        r == quantised_mm(*w, out, t),
{
    MatMul {
        ty: ggml_id(w.ty),
        x: buf(Slot::Fxq),
        w: wptr(w),
        n_in: w.n_in,
        n_out: w.n_out,
        xq_w: xq_words(w.n_in),
        t,
        out,
    }
}

fn mmq(ty: u32, x: Ptr, w: &Weight, out: Ptr, t: usize) -> (r: MatMul)
    ensures
        r == mmq_mm(ty, x, *w, out, t),
{
    MatMul { ty, x, w: wptr(w), n_in: w.n_in, n_out: w.n_out, xq_w: 0, t, out }
}

/// An attempt that skips `rest` where it succeeds.
pub open spec fn try_else(call: Attempt, rest: Seq<Cmd>) -> Seq<Cmd> {
    seq![Cmd::Try { call, on_ok: rest.len() as usize, on_err: 0 }] + rest
}

fn attempt_else(call: Attempt, rest: Vec<Cmd>) -> (r: Vec<Cmd>)
    ensures
        r@ == try_else(call, rest@),
{
    let mut rest = rest;
    let mut r: Vec<Cmd> = vec![Cmd::Try { call, on_ok: rest.len(), on_err: 0 }];
    r.append(&mut rest);
    r
}

/// Commands to run, and the error that ends the request behind them.
pub struct Plan {
    pub cmds: Vec<Cmd>,
    pub stop: Option<AccError>,
}

impl Plan {
    /// The commands and the error of the plan.
    pub open spec fn is(&self, p: (Seq<Cmd>, Option<AccError>)) -> bool {
        self.cmds@ == p.0 && self.stop == p.1
    }
}

/// A plan behind other commands.
pub open spec fn behind(c: Seq<Cmd>, p: (Seq<Cmd>, Option<AccError>)) -> (
    Seq<Cmd>,
    Option<AccError>,
) {
    (c + p.0, p.1)
}

/// Makes two weights resident.
pub open spec fn both_weights(a: Weight, b: Weight) -> Seq<Cmd> {
    seq![Cmd::Weight { key: a.key }, Cmd::Weight { key: b.key }]
}

/// Products of `t` rows can be counted wherever the output frame is valid.
pub open spec fn group_fits(acc: &Q4Acc, ws: Seq<Weight>, outs: Seq<u64>, t: int) -> bool {
    forall|i: int|
        0 <= i < ws.len() && i < outs.len() ==> (acc.frames.spec_ptr(outs[i]) matches Ok(p)
            ==> mm_fits(#[trigger] ws[i], p, t))
}

impl Q4Acc {
    /// The program of one product over the rows at `x`.
    pub open spec fn gemm_of(&self, x: Ptr, w: Weight, out: Ptr, t: usize) -> Seq<Cmd> {
        let rest = quant_program(x, w.n_in, t as int) + gemm_program(
            self.tuning,
            quantised_mm(w, out, t),
        );
        seq![Cmd::Weight { key: w.key }] + if self.weight_f32(w) {
            seq![gemm_f32_launch(x, spec_wptr(w), w.n_in, w.n_out, t, out)]
        } else if t >= 32 && mmq_type(spec_ggml_id(w.ty)) && self.tuning.q4_mmq {
            try_else(Attempt::Mmq(mmq_mm(spec_ggml_id(w.ty), x, w, out, t)), rest)
        } else {
            rest
        }
    }

    /// Plans one product over the rows at `x`.
    pub fn frame_gemm(&self, x: Ptr, w: &Weight, out: Ptr, t: usize) -> (r: Vec<Cmd>)
        requires
            self.tuning.usable(),
            mm_fits(*w, out, t as int),
        ensures
            r@ == self.gemm_of(x, *w, out, t),
            multiplies(*self, x, *w, out, t, r@),
    {
        proof {
            law_product_of_every_row(*self, x, *w, out, t);
        }
        let mut r: Vec<Cmd> = vec![Cmd::Weight { key: w.key }];
        if self.is_f32(w) {
            r.push(launch_gemm_f32(x, wptr(w), w.n_in, w.n_out, t, out));
            assert(r@ =~= self.gemm_of(x, *w, out, t));
            return r;
        }
        let mut rest = frame_quant(x, w.n_in, t);
        let mut g = launch_gemm(&self.tuning, quantised(w, out, t));
        rest.append(&mut g);
        let ty: u32 = ggml_id(w.ty);
        if t >= 32 && is_mmq_type(ty) && self.tuning.q4_mmq {
            let mut tried = attempt_else(Attempt::Mmq(mmq(ty, x, w, out, t)), rest);
            r.append(&mut tried);
        } else {
            r.append(&mut rest);
        }
        assert(r@ =~= self.gemm_of(x, *w, out, t));
        r
    }

    /// Plans the product of the rows of frame `x` into frame `out`.
    pub fn frame_mm(&self, x: u64, w: &Weight, out: u64, t: usize) -> (r: Result<Vec<Cmd>, AccError>)
        requires
            self.tuning.usable(),
            self.frames.spec_ptr(out) matches Ok(p) ==> mm_fits(*w, p, t as int),
        ensures
            match (self.frames.spec_ptr(x), self.frames.spec_ptr(out)) {
                (Err(e), _) => r matches Err(f) && f == e,
                (Ok(_), Err(e)) => r matches Err(f) && f == e,
                (Ok(xp), Ok(op)) => r matches Ok(c) && c@ == self.gemm_of(xp, *w, op, t),
            },
            r matches Ok(c) ==> multiplies(*self, frame(*self, x), *w, frame(*self, out), t, c@),
    {
        let xp = match self.fptr(x) {
            Ok(p) => p,
            Err(e) => {
                return Err(e);
            },
        };
        let op = match self.fptr(out) {
            Ok(p) => p,
            Err(e) => {
                return Err(e);
            },
        };
        Ok(self.frame_gemm(xp, w, op, t))
    }

    /// All weights share the row length, and none is plain `f32`: one
    /// quantisation serves the group.
    pub open spec fn shares_quant(ws: Seq<Weight>) -> bool {
        forall|i: int|
            0 <= i < ws.len() ==> (#[trigger] ws[i]).n_in == ws[0].n_in && !spec_f32_family(
                ws[i].ty,
            )
    }

    /// The self-quantising product is on for this batch.
    pub open spec fn mmq_on(&self, t: int) -> bool {
        t >= 32 && self.tuning.q4_mmq
    }

    /// Two neighbours of a uniform group that one launch serves.
    pub open spec fn pairs_q8(&self, ws: Seq<Weight>, t: int, i: int) -> bool {
        &&& t == 1 && !self.mmq_on(t) && !self.tuning.no_dual
        &&& i + 1 < ws.len()
        &&& spec_ggml_id(ws[i].ty) == 8
        &&& spec_ggml_id(ws[i + 1].ty) == 8
    }

    /// The two products of a uniform group that share a launch.
    pub open spec fn uniform_pair(&self, a: Weight, b: Weight, o1: Ptr, o2: Ptr) -> Seq<Cmd> {
        both_weights(a, b).push(
            q8_dual_launch(
                spec_buf(Slot::Fxq),
                spec_wptr(a),
                a.n_out,
                o1,
                spec_wptr(b),
                b.n_out,
                o2,
                a.n_in,
            ),
        )
    }

    /// A product of a uniform group that has a launch for itself.
    pub open spec fn uniform_single(&self, x: Ptr, w: Weight, out: Ptr, t: usize) -> Seq<Cmd> {
        let rest = (if self.mmq_on(t as int) {
            quant_program(x, w.n_in, t as int)
        } else {
            Seq::empty()
        }) + gemm_program(self.tuning, quantised_mm(w, out, t));
        seq![Cmd::Weight { key: w.key }] + (if self.mmq_on(t as int) && mmq_type(
            spec_ggml_id(w.ty),
        ) {
            try_else(Attempt::Mmq(mmq_mm(spec_ggml_id(w.ty), x, w, out, t)), rest)
        } else {
            rest
        })
    }

    /// The products of a uniform group that start at entry `i`: one, or two that
    /// share a launch. An invalid output frame ends the group once the weights are
    /// resident.
    pub open spec fn uniform_at(
        &self,
        x: Ptr,
        ws: Seq<Weight>,
        outs: Seq<u64>,
        t: usize,
        i: int,
    ) -> (Seq<Cmd>, Option<AccError>) {
        if self.pairs_q8(ws, t as int, i) {
            let (a, b) = (ws[i], ws[i + 1]);
            match self.two_ptrs(outs, i) {
                Ok((o1, o2)) => (self.uniform_pair(a, b, o1, o2), None),
                Err(e) => (both_weights(a, b), Some(e)),
            }
        } else {
            match self.frames.spec_ptr(outs[i]) {
                Ok(out) => (self.uniform_single(x, ws[i], out, t), None),
                Err(e) => (seq![Cmd::Weight { key: ws[i].key }], Some(e)),
            }
        }
    }

    /// The frames of entries `i` and `i + 1`, or the error of the first that is not
    /// valid.
    pub open spec fn two_ptrs(&self, outs: Seq<u64>, i: int) -> Result<(Ptr, Ptr), AccError> {
        match (self.frames.spec_ptr(outs[i]), self.frames.spec_ptr(outs[i + 1])) {
            (Err(e), _) => Err(e),
            (Ok(_), Err(e)) => Err(e),
            (Ok(p), Ok(q)) => Ok((p, q)),
        }
    }

    /// Entries that the products at entry `i` of a uniform group serve.
    pub open spec fn uniform_width(&self, ws: Seq<Weight>, t: int, i: int) -> int {
        if self.pairs_q8(ws, t, i) {
            2
        } else {
            1
        }
    }

    /// The products of a uniform group from entry `i` on, up to the first invalid
    /// output frame.
    pub open spec fn uniform_from(
        &self,
        x: Ptr,
        ws: Seq<Weight>,
        outs: Seq<u64>,
        t: usize,
        i: int,
    ) -> (Seq<Cmd>, Option<AccError>)
        decreases ws.len() - i,
    {
        if i >= ws.len() {
            (Seq::empty(), None)
        } else {
            let at = self.uniform_at(x, ws, outs, t, i);
            if at.1 is Some {
                at
            } else {
                behind(
                    at.0,
                    self.uniform_from(x, ws, outs, t, i + self.uniform_width(ws, t as int, i)),
                )
            }
        }
    }

    /// Neighbours of a mixed group may share a launch.
    pub open spec fn may_pair(&self, ws: Seq<Weight>, t: int, i: int) -> bool {
        t == 1 && !self.tuning.no_dual && i + 1 < ws.len() && ws[i + 1].n_in == ws[i].n_in
    }

    /// How the neighbours at `i` of a mixed group share a launch, if they do.
    pub open spec fn pairing(&self, ws: Seq<Weight>, t: int, i: int) -> Pairing {
        let (a, b) = (ws[i], ws[i + 1]);
        let q8 = a.ty == GgmlType::Q8_0;
        if !self.may_pair(ws, t, i) {
            Pairing::Alone
        } else if q8 && b.ty == GgmlType::Q8_0 {
            Pairing::Q8
        } else if spec_f32_family(a.ty) && spec_f32_family(b.ty) {
            Pairing::F32
        } else if q8 && spec_f32_family(b.ty) {
            Pairing::Mixed
        } else {
            Pairing::Alone
        }
    }

    /// The two products of a mixed group that share a launch.
    pub open spec fn mixed_pair(
        &self,
        kind: Pairing,
        x: Ptr,
        a: Weight,
        b: Weight,
        o1: Ptr,
        o2: Ptr,
        t: usize,
    ) -> Seq<Cmd> {
        let quant = quant_program(x, a.n_in, t as int);
        let xq = spec_buf(Slot::Fxq);
        match kind {
            Pairing::F32 => both_weights(a, b).push(
                f32_dual_launch(x, spec_wptr(a), a.n_out, o1, spec_wptr(b), b.n_out, o2, a.n_in),
            ),
            Pairing::Mixed => (both_weights(a, b) + quant).push(
                mix_dual_launch(
                    xq,
                    spec_wptr(a),
                    a.n_out,
                    o1,
                    x,
                    spec_wptr(b),
                    b.n_out,
                    o2,
                    a.n_in,
                ),
            ),
            _ => (both_weights(a, b) + quant).push(
                q8_dual_launch(xq, spec_wptr(a), a.n_out, o1, spec_wptr(b), b.n_out, o2, a.n_in),
            ),
        }
    }

    /// A product of a mixed group that has a launch for itself.
    pub open spec fn mixed_single(&self, x: Ptr, w: Weight, out: Ptr, t: usize) -> Seq<Cmd> {
        if w.ty == GgmlType::Q8_0 && t >= 32 && self.tuning.q8_mmq {
            seq![Cmd::Weight { key: w.key }, Cmd::Must(Attempt::Mmq(mmq_mm(8, x, w, out, t)))]
        } else {
            self.gemm_of(x, w, out, t)
        }
    }

    /// The products of a mixed group that start at entry `i`: one, or two that
    /// share a launch. An invalid output frame ends the group.
    pub open spec fn mixed_at(
        &self,
        x: Ptr,
        ws: Seq<Weight>,
        outs: Seq<u64>,
        t: usize,
        i: int,
    ) -> (Seq<Cmd>, Option<AccError>) {
        let kind = self.pairing(ws, t as int, i);
        if kind == Pairing::Alone {
            match self.frames.spec_ptr(outs[i]) {
                Ok(out) => (self.mixed_single(x, ws[i], out, t), None),
                Err(e) => (Seq::empty(), Some(e)),
            }
        } else {
            let (a, b) = (ws[i], ws[i + 1]);
            match self.two_ptrs(outs, i) {
                Ok((o1, o2)) => (self.mixed_pair(kind, x, a, b, o1, o2, t), None),
                Err(e) => (both_weights(a, b), Some(e)),
            }
        }
    }

    /// Entries that the products at entry `i` of a mixed group serve.
    pub open spec fn mixed_width(&self, ws: Seq<Weight>, t: int, i: int) -> int {
        if self.pairing(ws, t, i) == Pairing::Alone {
            1
        } else {
            2
        }
    }

    /// The products of a mixed group from entry `i` on, up to the first invalid
    /// output frame.
    pub open spec fn mixed_from(
        &self,
        x: Ptr,
        ws: Seq<Weight>,
        outs: Seq<u64>,
        t: usize,
        i: int,
    ) -> (Seq<Cmd>, Option<AccError>)
        decreases ws.len() - i,
    {
        if i >= ws.len() {
            (Seq::empty(), None)
        } else {
            let at = self.mixed_at(x, ws, outs, t, i);
            if at.1 is Some {
                at
            } else {
                behind(
                    at.0,
                    self.mixed_from(x, ws, outs, t, i + self.mixed_width(ws, t as int, i)),
                )
            }
        }
    }

    /// The program of a group of products over the same rows, and the error of the
    /// first invalid output frame, which ends it.
    pub open spec fn group_of(&self, x: Ptr, ws: Seq<Weight>, outs: Seq<u64>, t: usize) -> (
        Seq<Cmd>,
        Option<AccError>,
    ) {
        if Q4Acc::shares_quant(ws) {
            behind(
                if self.mmq_on(t as int) {
                    Seq::empty()
                } else {
                    quant_program(x, ws[0].n_in, t as int)
                },
                self.uniform_from(x, ws, outs, t, 0),
            )
        } else {
            self.mixed_from(x, ws, outs, t, 0)
        }
    }

    /// The addresses of several frames, or the error of the first that is not
    /// valid.
    pub open spec fn frame_ptrs(&self, hs: Seq<u64>) -> Result<Seq<Ptr>, AccError>
        decreases hs.len(),
    {
        if hs.len() == 0 {
            Ok(Seq::empty())
        } else {
            match self.frame_ptrs(hs.drop_last()) {
                Err(e) => Err(e),
                Ok(ps) => match self.frames.spec_ptr(hs.last()) {
                    Err(e) => Err(e),
                    Ok(p) => Ok(ps.push(p)),
                },
            }
        }
    }

    pub fn fptrs(&self, hs: &Vec<u64>) -> (r: Result<Vec<Ptr>, AccError>)
        ensures
            match self.frame_ptrs(hs@) {
                Ok(ps) => r matches Ok(v) && v@ == ps && ps.len() == hs@.len(),
                Err(e) => r matches Err(f) && f == e,
            },
    {
        let mut v: Vec<Ptr> = Vec::new();
        let mut i: usize = 0;
        while i < hs.len()
            invariant
                i <= hs@.len(),
                v@.len() == i,
                self.frame_ptrs(hs@.take(i as int)) == Ok::<Seq<Ptr>, AccError>(v@),
            decreases hs@.len() - i,
        {
            assert(hs@.take(i + 1).drop_last() =~= hs@.take(i as int));
            match self.fptr(hs[i]) {
                Ok(p) => {
                    v.push(p);
                },
                Err(e) => {
                    proof {
                        self.lemma_frame_ptrs_prefix(hs@, i + 1);
                    }
                    return Err(e);
                },
            }
            i = i + 1;
        }
        assert(hs@.take(i as int) =~= hs@);
        Ok(v)
    }

    proof fn lemma_frame_ptrs_prefix(&self, hs: Seq<u64>, n: int)
        requires
            0 <= n <= hs.len(),
            self.frame_ptrs(hs.take(n)) is Err,
        ensures
            self.frame_ptrs(hs) == self.frame_ptrs(hs.take(n)),
        decreases hs.len() - n,
    {
        if n < hs.len() {
            assert(hs.take(n + 1).drop_last() =~= hs.take(n));
            self.lemma_frame_ptrs_prefix(hs, n + 1);
        } else {
            assert(hs.take(n) =~= hs);
        }
    }

    fn group_is_uniform(ws: &Vec<Weight>) -> (r: bool)
        requires
            ws@.len() > 0,
        ensures
            r == Q4Acc::shares_quant(ws@),
    {
        let n_in: usize = ws[0].n_in;
        let mut i: usize = 0;
        while i < ws.len()
            invariant
                ws@.len() > 0,
                n_in == ws@[0].n_in,
                i <= ws@.len(),
                forall|j: int|
                    0 <= j < i ==> (#[trigger] ws@[j]).n_in == n_in && !spec_f32_family(ws@[j].ty),
            decreases ws@.len() - i,
        {
            if ws[i].n_in != n_in || f32_family(ws[i].ty) {
                assert(!(ws@[i as int].n_in == n_in && !spec_f32_family(ws@[i as int].ty)));
                return false;
            }
            i = i + 1;
        }
        true
    }

    fn out_pair(&self, h1: u64, h2: u64) -> (r: Result<(Ptr, Ptr), AccError>)
        ensures
            match (self.frames.spec_ptr(h1), self.frames.spec_ptr(h2)) {
                (Err(e), _) => r matches Err(f) && f == e,
                (Ok(_), Err(e)) => r matches Err(f) && f == e,
                (Ok(p), Ok(q)) => r matches Ok(v) && v == (p, q),
            },
    {
        let p = match self.fptr(h1) {
            Ok(p) => p,
            Err(e) => {
                return Err(e);
            },
        };
        match self.fptr(h2) {
            Ok(q) => Ok((p, q)),
            Err(e) => Err(e),
        }
    }

    fn uniform_cmds(&self, x: Ptr, ws: &Vec<Weight>, outs: &Vec<u64>, t: usize, i: usize) -> (r: (
        Plan,
        usize,
    ))
        requires
            self.tuning.usable(),
            ws@.len() == outs@.len(),
            group_fits(self, ws@, outs@, t as int),
            i < ws@.len(),
        ensures
            r.0.is(self.uniform_at(x, ws@, outs@, t, i as int)),
            r.1 == self.uniform_width(ws@, t as int, i as int),
            i + r.1 <= ws@.len(),
    {
        let n: usize = ws.len();
        let on = t >= 32 && self.tuning.q4_mmq;
        let w = ws[i];
        let ty: u32 = ggml_id(w.ty);
        let mut r: Vec<Cmd> = vec![Cmd::Weight { key: w.key }];
        if t == 1 && !on && !self.tuning.no_dual && ty == 8 && i + 1 < n && ggml_id(
            ws[i + 1].ty,
        ) == 8 {
            let b = ws[i + 1];
            r.push(Cmd::Weight { key: b.key });
            match self.out_pair(outs[i], outs[i + 1]) {
                Ok((o1, o2)) => {
                    assert(mm_fits(ws@[i as int], o1, t as int));
                    assert(mm_fits(ws@[i + 1], o2, t as int));
                    r.push(
                        gemm_q8_dual(
                            buf(Slot::Fxq),
                            wptr(&w),
                            w.n_out,
                            o1,
                            wptr(&b),
                            b.n_out,
                            o2,
                            w.n_in,
                        ),
                    );
                    assert(r@ =~= self.uniform_pair(w, b, o1, o2));
                    return (Plan { cmds: r, stop: None }, 2);
                },
                Err(e) => {
                    assert(r@ =~= both_weights(w, b));
                    return (Plan { cmds: r, stop: Some(e) }, 2);
                },
            }
        }
        let out = match self.fptr(outs[i]) {
            Ok(p) => p,
            Err(e) => {
                assert(r@ =~= seq![Cmd::Weight { key: w.key }]);
                return (Plan { cmds: r, stop: Some(e) }, 1);
            },
        };
        assert(mm_fits(ws@[i as int], out, t as int));
        let mut rest: Vec<Cmd> = Vec::new();
        if on {
            rest = frame_quant(x, w.n_in, t);
        }
        let mut g = launch_gemm(&self.tuning, quantised(&w, out, t));
        rest.append(&mut g);
        if on && is_mmq_type(ty) {
            let mut tried = attempt_else(Attempt::Mmq(mmq(ty, x, &w, out, t)), rest);
            r.append(&mut tried);
        } else {
            r.append(&mut rest);
        }
        assert(r@ =~= self.uniform_single(x, w, out, t));
        (Plan { cmds: r, stop: None }, 1)
    }

    fn uniform_group(&self, x: Ptr, ws: &Vec<Weight>, outs: &Vec<u64>, t: usize) -> (r: Plan)
        requires
            self.tuning.usable(),
            ws@.len() > 0,
            ws@.len() == outs@.len(),
            group_fits(self, ws@, outs@, t as int),
            t * spec_xq_words(ws@[0].n_in as int) * 4 <= usize::MAX,
            Q4Acc::shares_quant(ws@),
        ensures
            r.is(self.group_of(x, ws@, outs@, t)),
    {
        let mut r: Vec<Cmd> = Vec::new();
        if !(t >= 32 && self.tuning.q4_mmq) {
            r = frame_quant(x, ws[0].n_in, t);
        }
        let mut i: usize = 0;
        let ghost all = self.group_of(x, ws@, outs@, t);
        while i < ws.len()
            invariant
                self.tuning.usable(),
                ws@.len() == outs@.len(),
                group_fits(self, ws@, outs@, t as int),
                i <= ws@.len(),
                all == self.group_of(x, ws@, outs@, t),
                behind(r@, self.uniform_from(x, ws@, outs@, t, i as int)) == all,
            decreases ws@.len() - i,
        {
            let ghost r0 = r@;
            let (p, n): (Plan, usize) = self.uniform_cmds(x, ws, outs, t, i);
            let mut c = p.cmds;
            let ghost cs = c@;
            r.append(&mut c);
            if p.stop.is_some() {
                assert(r@ =~= r0 + cs);
                assert(self.uniform_from(x, ws@, outs@, t, i as int) == self.uniform_at(
                    x,
                    ws@,
                    outs@,
                    t,
                    i as int,
                ));
                return Plan { cmds: r, stop: p.stop };
            }
            proof {
                let rest = self.uniform_from(x, ws@, outs@, t, i + n);
                assert((r0 + cs) + rest.0 =~= r0 + (cs + rest.0));
            }
            i = i + n;
        }
        assert(r@ + Seq::<Cmd>::empty() =~= r@);
        Plan { cmds: r, stop: None }
    }

    fn pairing_of(&self, ws: &Vec<Weight>, t: usize, i: usize) -> (r: Pairing)
        requires
            i < ws@.len(),
        ensures
            r == self.pairing(ws@, t as int, i as int),
            r != Pairing::Alone ==> i + 1 < ws@.len() && i < usize::MAX,
    {
        let n: usize = ws.len();
        let a = ws[i];
        if !(t == 1 && !self.tuning.no_dual && i + 1 < n && ws[i + 1].n_in == a.n_in) {
            return Pairing::Alone;
        }
        let b = ws[i + 1];
        let q8 = matches!(a.ty, GgmlType::Q8_0);
        if q8 && matches!(b.ty, GgmlType::Q8_0) {
            return Pairing::Q8;
        }
        if f32_family(a.ty) && f32_family(b.ty) {
            return Pairing::F32;
        }
        if q8 && f32_family(b.ty) {
            return Pairing::Mixed;
        }
        Pairing::Alone
    }

    fn mixed_cmds(&self, x: Ptr, ws: &Vec<Weight>, outs: &Vec<u64>, t: usize, i: usize) -> (r: (
        Plan,
        usize,
    ))
        requires
            self.tuning.usable(),
            ws@.len() == outs@.len(),
            group_fits(self, ws@, outs@, t as int),
            i < ws@.len(),
        ensures
            r.0.is(self.mixed_at(x, ws@, outs@, t, i as int)),
            r.1 == self.mixed_width(ws@, t as int, i as int),
            i + r.1 <= ws@.len(),
    {
        let a = ws[i];
        let kind = self.pairing_of(ws, t, i);
        let mut r: Vec<Cmd> = Vec::new();
        if matches!(kind, Pairing::Alone) {
            let out = match self.fptr(outs[i]) {
                Ok(p) => p,
                Err(e) => {
                    return (Plan { cmds: r, stop: Some(e) }, 1);
                },
            };
            assert(mm_fits(ws@[i as int], out, t as int));
            if matches!(a.ty, GgmlType::Q8_0) && t >= 32 && self.tuning.q8_mmq {
                r.push(Cmd::Weight { key: a.key });
                r.push(Cmd::Must(Attempt::Mmq(mmq(8, x, &a, out, t))));
                assert(r@ =~= self.mixed_single(x, a, out, t));
                return (Plan { cmds: r, stop: None }, 1);
            }
            return (Plan { cmds: self.frame_gemm(x, &a, out, t), stop: None }, 1);
        }
        let b = ws[i + 1];
        r.push(Cmd::Weight { key: a.key });
        r.push(Cmd::Weight { key: b.key });
        let (o1, o2): (Ptr, Ptr) = match self.out_pair(outs[i], outs[i + 1]) {
            Ok(p) => p,
            Err(e) => {
                assert(r@ =~= both_weights(a, b));
                return (Plan { cmds: r, stop: Some(e) }, 2);
            },
        };
        assert(mm_fits(ws@[i as int], o1, t as int));
        assert(mm_fits(ws@[i + 1], o2, t as int));
        if matches!(kind, Pairing::F32) {
            r.push(gemm_f32_dual(x, wptr(&a), a.n_out, o1, wptr(&b), b.n_out, o2, a.n_in));
        } else {
            let mut q = frame_quant(x, a.n_in, t);
            r.append(&mut q);
            let xq = buf(Slot::Fxq);
            if matches!(kind, Pairing::Q8) {
                r.push(gemm_q8_dual(xq, wptr(&a), a.n_out, o1, wptr(&b), b.n_out, o2, a.n_in));
            } else {
                r.push(gemm_mix_dual(xq, wptr(&a), a.n_out, o1, x, wptr(&b), b.n_out, o2, a.n_in));
            }
        }
        assert(r@ =~= self.mixed_pair(kind, x, a, b, o1, o2, t));
        (Plan { cmds: r, stop: None }, 2)
    }

    fn mixed_group(&self, x: Ptr, ws: &Vec<Weight>, outs: &Vec<u64>, t: usize) -> (r: Plan)
        requires
            self.tuning.usable(),
            ws@.len() == outs@.len(),
            group_fits(self, ws@, outs@, t as int),
        ensures
            r.is(self.mixed_from(x, ws@, outs@, t, 0)),
    {
        let mut r: Vec<Cmd> = Vec::new();
        let mut i: usize = 0;
        let ghost all = self.mixed_from(x, ws@, outs@, t, 0);
        assert(r@ + all.0 =~= all.0);
        while i < ws.len()
            invariant
                self.tuning.usable(),
                ws@.len() == outs@.len(),
                group_fits(self, ws@, outs@, t as int),
                i <= ws@.len(),
                all == self.mixed_from(x, ws@, outs@, t, 0),
                behind(r@, self.mixed_from(x, ws@, outs@, t, i as int)) == all,
            decreases ws@.len() - i,
        {
            let ghost r0 = r@;
            let (p, n): (Plan, usize) = self.mixed_cmds(x, ws, outs, t, i);
            let mut c = p.cmds;
            let ghost cs = c@;
            r.append(&mut c);
            if p.stop.is_some() {
                assert(r@ =~= r0 + cs);
                assert(self.mixed_from(x, ws@, outs@, t, i as int) == self.mixed_at(
                    x,
                    ws@,
                    outs@,
                    t,
                    i as int,
                ));
                return Plan { cmds: r, stop: p.stop };
            }
            proof {
                let rest = self.mixed_from(x, ws@, outs@, t, i + n);
                assert((r0 + cs) + rest.0 =~= r0 + (cs + rest.0));
            }
            i = i + n;
        }
        assert(r@ + Seq::<Cmd>::empty() =~= r@);
        Plan { cmds: r, stop: None }
    }

    /// Plans several products over the rows of frame `x`. Neighbours share a
    /// quantisation or a launch where their types allow it. An invalid output frame
    /// ends the plan; the products before it still run.
    pub fn frame_mm_group(&self, x: u64, ws: &Vec<Weight>, outs: &Vec<u64>, t: usize) -> (r: Result<
        Plan,
        AccError,
    >)
        requires
            self.tuning.usable(),
            ws@.len() > 0 || outs@.len() > 0,
            group_fits(self, ws@, outs@, t as int),
            ws@.len() > 0 ==> t * spec_xq_words(ws@[0].n_in as int) * 4 <= usize::MAX,
        ensures
            if ws@.len() != outs@.len() {
                r matches Err(f) && f == (AccError::FrameGroupLength {
                    ws: ws@.len() as usize,
                    outs: outs@.len() as usize,
                })
            } else {
                match self.frames.spec_ptr(x) {
                    Err(e) => r matches Err(f) && f == e,
                    Ok(xp) => r matches Ok(p) && p.is(self.group_of(xp, ws@, outs@, t)),
                }
            },
            r matches Ok(p) ==> multiplies_all(*self, frame(*self, x), ws@, outs@, t, p.cmds@),
    {
        if ws.len() != outs.len() {
            return Err(AccError::FrameGroupLength { ws: ws.len(), outs: outs.len() });
        }
        let xp = match self.fptr(x) {
            Ok(p) => p,
            Err(e) => {
                return Err(e);
            },
        };
        proof {
            law_group_multiplies_all(*self, xp, ws@, outs@, t);
        }
        if Q4Acc::group_is_uniform(ws) {
            Ok(self.uniform_group(xp, ws, outs, t))
        } else {
            Ok(self.mixed_group(xp, ws, outs, t))
        }
    }
}

} // verus!
