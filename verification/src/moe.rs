//! Expert products over routed rows: direct, grouped on the device, or grouped
//! on the host.
//!
//! A request runs in steps. `moe_prepare` brings the weight and the quantised
//! activations to the device. `moe_route` then says whether the kernels can read
//! the expert ids directly; if not, grouping tables are needed, which are cached
//! per routing, built by a kernel, or built on the host. `moe_grouped` plans the
//! products over the tables, and `moe_experts` those that go expert by expert.

use vstd::prelude::*;
use crate::acc::Q4Acc;
use crate::arith::{ceil_div, max_usize, spec_ceil_div};
use crate::device::{buf, launch, spec_buf, spec_launch, Cmd, Mark, Ptr, Slot};
use crate::error::AccError;
use crate::expert_laws::serves_direct;
use crate::ggml::{spec_xq_words, xq_words, GgmlType};
use crate::kernels::Call;
use crate::table_laws::{builds_tables, prepares_rows};
use crate::upload::{device_len, uploaded_len, Weight};

verus! {

/// A request: the rows in frame `x`, one expert id per row in frame `ids`, the
/// stack of expert weights, and the frame that takes the results.
#[derive(Clone, Copy, PartialEq, Eq, Structural, Debug)]
pub struct MoeReq {
    pub x: u64,
    pub w: Weight,
    pub ids: u64,
    pub out: u64,
    pub n_expert: usize,
    /// Experts per token.
    pub k_sel: usize,
}

impl MoeReq {
    /// Experts in the stack, at least one.
    pub open spec fn spec_ne(&self) -> int {
        vstd::math::max(self.n_expert as int, 1)
    }

    /// Outputs of one expert.
    pub open spec fn spec_n_out(&self) -> int {
        self.w.n_out as int / self.spec_ne()
    }

    /// Bytes of one expert on the device, where half-precision weights are widened.
    pub open spec fn spec_per_expert(&self) -> int {
        uploaded_len(self.w) / self.spec_ne()
    }

    pub fn ne(&self) -> (r: usize)
        ensures
            r == self.spec_ne(),
            r >= 1,
    {
        max_usize(self.n_expert, 1)
    }

    pub fn n_out(&self) -> (r: usize)
        ensures
            r == self.spec_n_out(),
    {
        self.w.n_out / self.ne()
    }

    pub fn per_expert(&self) -> (r: usize)
        requires
            self.w.len <= usize::MAX / 2,
        ensures
            r == self.spec_per_expert(),
    {
        device_len(&self.w) / self.ne()
    }
}

/// The kernels that read expert ids directly.
#[derive(Clone, Copy, PartialEq, Eq, Structural, Debug)]
pub enum Direct {
    Q4k,
    Q51,
    Q8,
}

/// How a request goes on once its activations are on the device.
pub enum MoeRoute {
    /// These commands complete it.
    Direct(Vec<Cmd>),
    /// The tables of this routing are there.
    Cached,
    /// These commands build the tables.
    OnDevice(Vec<Cmd>),
    /// The host builds the tables from the ids.
    OnHost,
}

/// Quantises `t` rows of a frame.
pub open spec fn quant_program(x: Ptr, n_in: usize, t: int) -> Seq<Cmd> {
    let xq_w = spec_xq_words(n_in as int);
    seq![
        Cmd::Ensure { slot: Slot::Fxq, bytes: (t * xq_w * 4) as usize },
        Cmd::Quant { x, xq: spec_buf(Slot::Fxq), n_in, xq_w: xq_w as usize, t: t as usize },
    ]
}

/// Plans the quantisation of `t` rows of a frame into `Slot::Fxq`.
pub fn frame_quant(x: Ptr, n_in: usize, t: usize) -> (r: Vec<Cmd>)
    requires
        t * spec_xq_words(n_in as int) * 4 <= usize::MAX,
    ensures
        r@ == quant_program(x, n_in, t as int),
{
    let xq_w: usize = xq_words(n_in);
    assert(t * xq_w <= t * xq_w * 4) by (nonlinear_arith);
    vec![
        Cmd::Ensure { slot: Slot::Fxq, bytes: t * xq_w * 4 },
        Cmd::Quant { x, xq: buf(Slot::Fxq), n_in, xq_w, t },
    ]
}

impl Q4Acc {
    /// Routed rows of a request.
    pub open spec fn moe_rows(&self, rq: MoeReq) -> int {
        self.spec_t() * vstd::math::max(rq.k_sel as int, 1)
    }

    /// Upper limit of padded rows: each expert adds less than one tile.
    pub open spec fn moe_bound(&self, rq: MoeReq) -> int {
        self.moe_rows(rq) + 16 * rq.spec_ne()
    }

    /// Every size that a request leads to can be counted.
    pub open spec fn moe_fits(&self, rq: MoeReq) -> bool {
        let (rows, bound) = (self.moe_rows(rq), self.moe_bound(rq));
        let xq_w = spec_xq_words(rq.w.n_in as int);
        &&& bound < u32::MAX
        &&& bound * xq_w * 4 <= usize::MAX
        &&& bound * rq.w.n_in * 4 <= usize::MAX
        &&& bound * rq.spec_n_out() * 64 <= usize::MAX
        &&& bound * 4 + 4 <= usize::MAX
        &&& rq.w.len <= usize::MAX / 2
        &&& rq.spec_n_out() * 512 <= usize::MAX
        &&& (rq.w.n_in / 32) * 384 <= usize::MAX
    }

    /// The activations of a request are quantised already.
    pub open spec fn quant_hit(&self, rq: MoeReq) -> bool {
        match self.quant_cache {
            Some(q) => {
                &&& self.frames.spec_ptr(rq.x) == Ok::<Ptr, AccError>(q.x)
                &&& q.rows == self.moe_rows(rq)
                &&& q.generation == self.moe_gen
            },
            None => false,
        }
    }

    /// The tables of the current routing are there.
    pub open spec fn group_hit(&self, rq: MoeReq) -> bool {
        match self.moe_group {
            Some(g) => g.generation == self.moe_gen && g.rows == self.moe_rows(rq),
            None => false,
        }
    }

    pub fn moe_row_count(&self, rq: &MoeReq) -> (r: usize)
        requires
            self.moe_rows(*rq) <= usize::MAX,
        ensures
            r == self.moe_rows(*rq),
            r >= 1,
    {
        let t: usize = self.t_cur();
        let k: usize = max_usize(rq.k_sel, 1);
        proof {
            assert(t * k >= 1) by (nonlinear_arith)
                requires
                    t >= 1,
                    k >= 1,
            ;
        }
        t * k
    }

    /// What `moe_prepare` plans.
    pub open spec fn prepare_program(&self, rq: MoeReq, x: Ptr) -> Seq<Cmd> {
        let rows = self.moe_rows(rq);
        seq![Cmd::Weight { key: rq.w.key }] + if self.weight_f32(rq.w) || self.quant_hit(rq) {
            Seq::empty()
        } else {
            quant_program(x, rq.w.n_in, rows).push(
                Cmd::Mark(
                    Mark::Quantised {
                        x,
                        rows: rows as usize,
                        generation: self.moe_gen,
                        xq_w: spec_xq_words(rq.w.n_in as int) as usize,
                    },
                ),
            )
        }
    }

    fn is_quant_hit(&self, rq: &MoeReq, x: Ptr, rows: usize) -> (r: bool)
        requires
            self.frames.spec_ptr(rq.x) == Ok::<Ptr, AccError>(x),
            rows == self.moe_rows(*rq),
        ensures
            r == self.quant_hit(*rq),
    {
        match self.quant_cache {
            Some(q) => q.x == x && q.rows == rows && q.generation == self.moe_gen,
            None => false,
        }
    }

    /// Makes the weight resident and quantises the rows, unless the cached ones
    /// are those of this request.
    pub fn moe_prepare(&self, rq: &MoeReq) -> (r: Result<Vec<Cmd>, AccError>)
        requires
            self.moe_fits(*rq),
        ensures
            match (self.frames.spec_ptr(rq.x), self.frames.spec_ptr(rq.out)) {
                (Err(e), _) => r matches Err(f) && f == e,
                (Ok(_), Err(e)) => r matches Err(f) && f == e,
                (Ok(x), Ok(_)) => r matches Ok(c) && c@ == self.prepare_program(*rq, x),
            },
            r matches Ok(c) ==> prepares_rows(*self, *rq, c@),
    {
        proof {
            self.law_preparation_quantises_every_row(*rq);
        }
        let x = match self.fptr(rq.x) {
            Ok(p) => p,
            Err(e) => {
                return Err(e);
            },
        };
        match self.fptr(rq.out) {
            Ok(_) => {},
            Err(e) => {
                return Err(e);
            },
        }
        let rows: usize = self.moe_row_count(rq);
        let mut r: Vec<Cmd> = vec![Cmd::Weight { key: rq.w.key }];
        if !self.is_f32(&rq.w) && !self.is_quant_hit(rq, x, rows) {
            proof {
                let (w, b) = (spec_xq_words(rq.w.n_in as int), self.moe_bound(*rq));
                assert(rows * w * 4 <= b * w * 4) by (nonlinear_arith)
                    requires
                        0 <= rows <= b,
                        0 <= w,
                ;
            }
            let mut q = frame_quant(x, rq.w.n_in, rows);
            r.append(&mut q);
            r.push(
                Cmd::Mark(
                    Mark::Quantised {
                        x,
                        rows,
                        generation: self.moe_gen,
                        xq_w: xq_words(rq.w.n_in),
                    },
                ),
            );
        }
        assert(r@ =~= self.prepare_program(*rq, x));
        Ok(r)
    }

    /// The prepared activations: nothing for plain `f32` weights, which read the
    /// frame itself.
    pub open spec fn spec_moe_xq(&self, rq: MoeReq) -> (Ptr, usize) {
        if self.weight_f32(rq.w) {
            (Ptr::Null, 0)
        } else {
            match self.quant_cache {
                Some(q) => (q.xq, q.xq_w),
                None => (Ptr::Null, 0),
            }
        }
    }

    /// The activations are prepared, with the row stride of the request.
    pub open spec fn moe_prepared(&self, rq: MoeReq) -> bool {
        self.weight_f32(rq.w) || self.quant_hit(rq) && match self.quant_cache {
            Some(q) => q.xq_w == spec_xq_words(rq.w.n_in as int),
            None => false,
        }
    }

    /// Whether the activations of a request are prepared.
    pub fn is_moe_prepared(&self, rq: &MoeReq) -> (r: bool)
        requires
            self.moe_fits(*rq),
        ensures
            r == self.moe_prepared(*rq),
    {
        if self.is_f32(&rq.w) {
            return true;
        }
        let x = match self.fptr(rq.x) {
            Ok(p) => p,
            Err(_) => {
                return false;
            },
        };
        match self.quant_cache {
            Some(q) => self.is_quant_hit(rq, x, self.moe_row_count(rq)) && q.xq_w == xq_words(
                rq.w.n_in,
            ),
            None => false,
        }
    }

    pub fn moe_xq(&self, rq: &MoeReq) -> (r: (Ptr, usize))
        ensures
            r == self.spec_moe_xq(*rq),
    {
        if self.is_f32(&rq.w) {
            return (Ptr::Null, 0);
        }
        match self.quant_cache {
            Some(q) => (q.xq, q.xq_w),
            None => (Ptr::Null, 0),
        }
    }

    /// The direct kernel of a request: for one token or few rows, by the type of
    /// the weight.
    pub open spec fn spec_direct(&self, rq: MoeReq) -> Option<Direct> {
        let rows = self.moe_rows(rq);
        let short = rq.w.n_in / 32 <= 32;
        if !(self.spec_t() == 1 || rows <= 64) || self.weight_f32(rq.w) || self.tuning.moe_grouped {
            None
        } else if rq.w.ty == GgmlType::Q4K {
            Some(Direct::Q4k)
        } else if rq.w.ty == GgmlType::Q5_1 && rows > 0 && short && !self.tuning.q51_ids_off {
            Some(Direct::Q51)
        } else if rq.w.ty == GgmlType::Q8_0 && rows > 0 && short && !self.tuning.q8_ids_off {
            Some(Direct::Q8)
        } else {
            None
        }
    }

    /// Splits of the inner dimension, between 1 and 8.
    pub open spec fn spec_ksplit(&self) -> u32 {
        let k = match self.tuning.moe_ksplit {
            Some(k) => k,
            None => 4u32,
        };
        if k < 1 {
            1
        } else if k > 8 {
            8
        } else {
            k
        }
    }

    fn ksplit(&self) -> (r: u32)
        ensures
            r == self.spec_ksplit(),
            1 <= r <= 8,
    {
        let k: u32 = match self.tuning.moe_ksplit {
            Some(k) => k,
            None => 4,
        };
        if k < 1 {
            1
        } else if k > 8 {
            8
        } else {
            k
        }
    }

    /// Words from one routed row to the next for the direct q4_K kernel: none for
    /// one token, whose routed rows are all the same vector.
    pub open spec fn spec_q4k_stride(&self, rq: MoeReq) -> usize {
        if self.spec_t() == 1 {
            0
        } else {
            self.spec_moe_xq(rq).1
        }
    }

    /// The program of a direct kernel.
    pub open spec fn direct_program(&self, rq: MoeReq, kind: Direct, ids: Ptr, out: Ptr) -> Seq<
        Cmd,
    > {
        let rows = self.moe_rows(rq);
        let (xq, xq_w) = self.spec_moe_xq(rq);
        let w = Ptr::Weight { key: rq.w.key, off: 0 };
        let part = spec_buf(Slot::Scratch);
        let (n_in, n_out) = (rq.w.n_in as i32, rq.spec_n_out() as i32);
        let t = rows as i32;
        match kind {
            Direct::Q4k => {
                let ks = self.spec_ksplit();
                let n = rows * rq.spec_n_out();
                seq![
                    Cmd::Ensure { slot: Slot::Scratch, bytes: (n * ks * 8) as usize },
                    spec_launch(
                        Call::MoeQ4kIds {
                            xq,
                            w,
                            part,
                            out,
                            ids,
                            n_in,
                            n_out,
                            xq_w: self.spec_q4k_stride(rq) as i32,
                            t,
                            expert_bytes: rq.spec_per_expert() as i32,
                            rows_pad: Ptr::Null,
                        },
                        spec_ceil_div(rq.spec_n_out(), 16) as u32,
                        spec_ceil_div(rows, 16) as u32,
                        ks,
                        256,
                    ),
                ] + if ks > 1 {
                    seq![
                        spec_launch(
                            Call::MoeQ4kReduce { part, out, n: n as i32, ksplit: ks as i32 },
                            spec_ceil_div(n as u32 as int, 256) as u32,
                            1,
                            1,
                            256,
                        ),
                    ]
                } else {
                    Seq::empty()
                }
            },
            Direct::Q51 => seq![
                Cmd::Ensure { slot: Slot::Scratch, bytes: 4 },
                spec_launch(
                    Call::MoeQ51WIds {
                        xq,
                        w,
                        part,
                        out,
                        ids,
                        n_in,
                        n_out,
                        xq_w: xq_w as i32,
                        t,
                        expert_words: (rq.spec_per_expert() / 4) as i32,
                    },
                    spec_ceil_div(rq.spec_n_out(), 8) as u32,
                    rows as u32,
                    1,
                    256,
                ),
            ],
            Direct::Q8 => seq![
                Cmd::Ensure { slot: Slot::Scratch, bytes: 4 },
                spec_launch(
                    Call::MoeQ8Ids {
                        xq,
                        w,
                        part,
                        out,
                        ids,
                        n_in,
                        n_out,
                        xq_w: xq_w as i32,
                        t,
                        expert_bytes: rq.spec_per_expert() as i32,
                    },
                    spec_ceil_div(rq.spec_n_out(), 8) as u32,
                    rows as u32,
                    1,
                    256,
                ),
            ],
        }
    }

    fn direct_kind(&self, rq: &MoeReq, rows: usize) -> (r: Option<Direct>)
        requires
            rows == self.moe_rows(*rq),
        ensures
            r == self.spec_direct(*rq),
    {
        let short = rq.w.n_in / 32 <= 32;
        if !(self.t_cur() == 1 || rows <= 64) || self.is_f32(&rq.w) || self.tuning.moe_grouped {
            return None;
        }
        if matches!(rq.w.ty, GgmlType::Q4K) {
            return Some(Direct::Q4k);
        }
        if matches!(rq.w.ty, GgmlType::Q5_1) && rows > 0 && short && !self.tuning.q51_ids_off {
            return Some(Direct::Q51);
        }
        if matches!(rq.w.ty, GgmlType::Q8_0) && rows > 0 && short && !self.tuning.q8_ids_off {
            return Some(Direct::Q8);
        }
        None
    }

    fn direct_cmds(&self, rq: &MoeReq, kind: Direct, ids: Ptr, out: Ptr) -> (r: Vec<Cmd>)
        requires
            self.moe_fits(*rq),
        ensures
            r@ == self.direct_program(*rq, kind, ids, out),
    {
        let rows: usize = self.moe_row_count(rq);
        let (xq, xq_w): (Ptr, usize) = self.moe_xq(rq);
        let w = Ptr::Weight { key: rq.w.key, off: 0 };
        let part = buf(Slot::Scratch);
        let no: usize = rq.n_out();
        let per: usize = rq.per_expert();
        let (n_in, n_out): (i32, i32) = (rq.w.n_in as i32, no as i32);
        let t: i32 = rows as i32;
        match kind {
            Direct::Q4k => {
                let stride: usize = if self.t_cur() == 1 {
                    0
                } else {
                    xq_w
                };
                let ks: u32 = self.ksplit();
                proof {
                    let b = self.moe_bound(*rq);
                    assert(0 <= rows * no <= b * no * 64 && 0 <= rows * no * ks * 8 <= b * no * 64
                        && rows * no * ks <= rows * no * ks * 8) by (nonlinear_arith)
                        requires
                            0 <= rows <= b,
                            0 <= no,
                            1 <= ks <= 8,
                    ;
                }
                let mut r: Vec<Cmd> = vec![
                    Cmd::Ensure { slot: Slot::Scratch, bytes: rows * no * ks as usize * 8 },
                    launch(
                        Call::MoeQ4kIds {
                            xq,
                            w,
                            part,
                            out,
                            ids,
                            n_in,
                            n_out,
                            xq_w: stride as i32,
                            t,
                            expert_bytes: per as i32,
                            rows_pad: Ptr::Null,
                        },
                        ceil_div(no, 16) as u32,
                        ceil_div(rows, 16) as u32,
                        ks,
                        256,
                    ),
                ];
                if ks > 1 {
                    let n: usize = rows * no;
                    let low: u32 = n as u32;
                    r.push(
                        launch(
                            Call::MoeQ4kReduce { part, out, n: n as i32, ksplit: ks as i32 },
                            ceil_div(low as usize, 256) as u32,
                            1,
                            1,
                            256,
                        ),
                    );
                }
                assert(r@ =~= self.direct_program(*rq, kind, ids, out));
                r
            },
            Direct::Q51 => vec![
                Cmd::Ensure { slot: Slot::Scratch, bytes: 4 },
                launch(
                    Call::MoeQ51WIds {
                        xq,
                        w,
                        part,
                        out,
                        ids,
                        n_in,
                        n_out,
                        xq_w: xq_w as i32,
                        t,
                        expert_words: (per / 4) as i32,
                    },
                    ceil_div(no, 8) as u32,
                    rows as u32,
                    1,
                    256,
                ),
            ],
            Direct::Q8 => vec![
                Cmd::Ensure { slot: Slot::Scratch, bytes: 4 },
                launch(
                    Call::MoeQ8Ids {
                        xq,
                        w,
                        part,
                        out,
                        ids,
                        n_in,
                        n_out,
                        xq_w: xq_w as i32,
                        t,
                        expert_bytes: per as i32,
                    },
                    ceil_div(no, 8) as u32,
                    rows as u32,
                    1,
                    256,
                ),
            ],
        }
    }

    /// Whether the tables of a routing are built by a kernel.
    pub open spec fn groups_on_device(&self, rq: MoeReq) -> bool {
        &&& !self.tuning.group_dev_off
        &&& self.spec_t() == 1 || self.tuning.group_prefill
        &&& rq.spec_ne() <= 512
        &&& self.moe_rows(rq) > 0
    }

    /// The program that builds the tables on the device. All buffers are sized
    /// by the same upper limit of padded rows.
    pub open spec fn group_program(&self, rq: MoeReq, ids: Ptr) -> Seq<Cmd> {
        let (rows, bound, ne) = (self.moe_rows(rq), self.moe_bound(rq), rq.spec_ne());
        let off = spec_buf(Slot::Gyp);
        seq![
            Cmd::Ensure { slot: Slot::Rperm, bytes: (rows * 4) as usize },
            Cmd::Ensure { slot: Slot::Rperm2, bytes: (rows * 4) as usize },
            Cmd::Ensure { slot: Slot::Rexp, bytes: (bound * 4) as usize },
            Cmd::Ensure { slot: Slot::Gp, bytes: ((bound + 1) * 4) as usize },
            Cmd::Ensure { slot: Slot::Gi, bytes: (rows * 4) as usize },
            Cmd::Ensure { slot: Slot::Texp, bytes: ((bound / 16 + 1) * 4) as usize },
            Cmd::Ensure { slot: Slot::Gyp, bytes: ((ne + 2) * 4) as usize },
            spec_launch(
                Call::MoeGroup {
                    ids,
                    ne: ne as i32,
                    rows: rows as i32,
                    off,
                    perm: spec_buf(Slot::Rperm),
                    inv: spec_buf(Slot::Rperm2),
                    rowexp: spec_buf(Slot::Rexp),
                    perm_pad: spec_buf(Slot::Gp),
                    inv_pad: spec_buf(Slot::Gi),
                    tilexp: spec_buf(Slot::Texp),
                    rows_pad: off.spec_at((ne + 1) * 4),
                    bound: bound as i32,
                },
                1,
                1,
                1,
                128,
            ),
        ] + if self.tuning.group_no_d2h {
            Seq::empty()
        } else if self.tuning.group_sync {
            seq![Cmd::D2hIssue { src: off, bytes: ((ne + 2) * 4) as usize }, Cmd::D2hWait]
        } else {
            seq![Cmd::D2hIssue { src: off, bytes: ((ne + 2) * 4) as usize }]
        } + seq![
            Cmd::Mark(
                Mark::GroupedOnDevice {
                    generation: self.moe_gen,
                    rows: rows as usize,
                    bound: bound as usize,
                    ne: ne as usize,
                    pinned: !self.tuning.group_no_d2h,
                },
            ),
        ]
    }

    /// Plans the kernel that builds the grouping tables from the ids.
    fn moe_group_dev(&self, rq: &MoeReq, ids: Ptr) -> (r: Vec<Cmd>)
        requires
            self.moe_fits(*rq),
        ensures
            r@ == self.group_program(*rq, ids),
    {
        let rows: usize = self.moe_row_count(rq);
        let ne: usize = rq.ne();
        let bound: usize = rows + 16 * ne;
        let off = buf(Slot::Gyp);
        let mut r: Vec<Cmd> = vec![
            Cmd::Ensure { slot: Slot::Rperm, bytes: rows * 4 },
            Cmd::Ensure { slot: Slot::Rperm2, bytes: rows * 4 },
            Cmd::Ensure { slot: Slot::Rexp, bytes: bound * 4 },
            Cmd::Ensure { slot: Slot::Gp, bytes: (bound + 1) * 4 },
            Cmd::Ensure { slot: Slot::Gi, bytes: rows * 4 },
            Cmd::Ensure { slot: Slot::Texp, bytes: (bound / 16 + 1) * 4 },
            Cmd::Ensure { slot: Slot::Gyp, bytes: (ne + 2) * 4 },
            launch(
                Call::MoeGroup {
                    ids,
                    ne: ne as i32,
                    rows: rows as i32,
                    off,
                    perm: buf(Slot::Rperm),
                    inv: buf(Slot::Rperm2),
                    rowexp: buf(Slot::Rexp),
                    perm_pad: buf(Slot::Gp),
                    inv_pad: buf(Slot::Gi),
                    tilexp: buf(Slot::Texp),
                    rows_pad: off.at((ne + 1) * 4),
                    bound: bound as i32,
                },
                1,
                1,
                1,
                128,
            ),
        ];
        if !self.tuning.group_no_d2h {
            r.push(Cmd::D2hIssue { src: off, bytes: (ne + 2) * 4 });
            if self.tuning.group_sync {
                r.push(Cmd::D2hWait);
            }
        }
        r.push(
            Cmd::Mark(
                Mark::GroupedOnDevice {
                    generation: self.moe_gen,
                    rows,
                    bound,
                    ne,
                    pinned: !self.tuning.group_no_d2h,
                },
            ),
        );
        assert(r@ =~= self.group_program(*rq, ids));
        r
    }

    /// Decides how a prepared request goes on.
    pub fn moe_route(&self, rq: &MoeReq) -> (r: Result<MoeRoute, AccError>)
        requires
            self.moe_fits(*rq),
            self.moe_prepared(*rq),
        ensures
            match self.spec_direct(*rq) {
                Some(kind) => match (self.frames.spec_ptr(rq.ids), self.frames.spec_ptr(rq.out)) {
                    (Err(e), _) => r matches Err(f) && f == e,
                    (Ok(_), Err(e)) => r matches Err(f) && f == e,
                    (Ok(ids), Ok(out)) => r matches Ok(MoeRoute::Direct(c)) && c@
                        == self.direct_program(*rq, kind, ids, out),
                },
                None => if self.group_hit(*rq) {
                    r matches Ok(MoeRoute::Cached)
                } else {
                    match self.frames.spec_ptr(rq.ids) {
                        Err(e) => r matches Err(f) && f == e,
                        Ok(ids) => if self.groups_on_device(*rq) {
                            r matches Ok(MoeRoute::OnDevice(c)) && c@ == self.group_program(
                                *rq,
                                ids,
                            )
                        } else {
                            r matches Ok(MoeRoute::OnHost)
                        },
                    }
                },
            },
            r matches Ok(MoeRoute::Direct(c)) ==> serves_direct(*self, *rq, c@),
            r matches Ok(MoeRoute::OnDevice(c)) ==> builds_tables(*self, *rq, c@),
    {
        proof {
            self.law_device_tables_route_every_row(*rq);
            if let Some(kind) = self.spec_direct(*rq) {
                self.law_direct_kernels_serve_every_row(*rq, kind);
            }
        }
        let rows: usize = self.moe_row_count(rq);
        match self.direct_kind(rq, rows) {
            Some(kind) => {
                let ids = match self.fptr(rq.ids) {
                    Ok(p) => p,
                    Err(e) => {
                        return Err(e);
                    },
                };
                let out = match self.fptr(rq.out) {
                    Ok(p) => p,
                    Err(e) => {
                        return Err(e);
                    },
                };
                return Ok(MoeRoute::Direct(self.direct_cmds(rq, kind, ids, out)));
            },
            None => {},
        }
        let hit = match &self.moe_group {
            Some(g) => g.generation == self.moe_gen && g.rows == rows,
            None => false,
        };
        if hit {
            return Ok(MoeRoute::Cached);
        }
        let ids = match self.fptr(rq.ids) {
            Ok(p) => p,
            Err(e) => {
                return Err(e);
            },
        };
        if !self.tuning.group_dev_off && (self.t_cur() == 1 || self.tuning.group_prefill)
            && rq.ne() <= 512 && rows > 0 {
            return Ok(MoeRoute::OnDevice(self.moe_group_dev(rq, ids)));
        }
        Ok(MoeRoute::OnHost)
    }
}

} // verus!
