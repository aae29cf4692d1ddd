//! Expert products over grouping tables.

use vstd::prelude::*;
use crate::acc::{MoeGroup, Q4Acc};
use crate::arith::{ceil_div, max_usize, min_usize, spec_ceil_div};
use crate::device::{buf, launch, spec_buf, spec_launch, Cmd, Host, Launch, Ptr, Slot};
use crate::error::AccError;
use crate::expert_laws::serves_rows;
use crate::experts::{
    experts_program, permute_program, ranges_within, rows_permute_dev, run_experts, ExpertJob, Range,
};
use crate::gemm::grid_y;
use crate::ggml::{ggml_id, spec_ggml_id, spec_xq_words, GgmlType};
use crate::group::{
    expert_of, group_rows, pad_groups, row_experts, ExpertGroups, PaddedGroups,
};
use crate::kernels::Call;
use crate::moe::MoeReq;
use crate::table_laws::{present, tables_at};

verus! {

/// The products over grouping tables.
pub enum MoeRun {
    /// These commands complete the request.
    Complete(Vec<Cmd>),
    /// These commands gather the rows and fetch the expert offsets; `moe_experts`
    /// completes the request.
    NeedOffsets(Vec<Cmd>),
    /// These commands gather the rows; `moe_experts` completes the request with
    /// the offsets of the tables.
    NeedExperts(Vec<Cmd>),
}

/// The tables of a routing, built on the host.
pub struct HostTables {
    pub groups: ExpertGroups,
    pub rowexp: Vec<u32>,
    pub padded: PaddedGroups,
}

impl HostTables {
    /// The tables are those of `ids` over `ne` experts.
    pub open spec fn tables(&self, ids: Seq<u32>, ne: int) -> bool {
        &&& self.groups.groups(ids, ne)
        &&& self.padded.pads(ids, ne)
        &&& self.rowexp@.len() == ids.len()
        &&& forall|p: int|
            0 <= p < ids.len() ==> #[trigger] self.rowexp@[p] == expert_of(
                ids[self.groups.perm@[p] as int],
                ne,
            )
    }
}

/// Builds all tables of a routing.
pub fn build_tables(ids: &[u32], ne: usize) -> (r: HostTables)
    requires
        1 <= ne,
        ids@.len() + 16 * ne <= u32::MAX,
    ensures
        r.tables(ids@, ne as int),
{
    let groups = group_rows(ids, ne);
    let rowexp = row_experts(ids, groups.perm.as_slice(), ne);
    let padded = pad_groups(ids, ne, &groups);
    HostTables { groups, rowexp, padded }
}

/// The program that brings host tables to the device.
pub open spec fn tables_program(rows: int, rows_pad: int) -> Seq<Cmd> {
    let r4 = (rows * 4) as usize;
    seq![
        Cmd::Ensure { slot: Slot::Rperm, bytes: r4 },
        Cmd::Ensure { slot: Slot::Rperm2, bytes: r4 },
        Cmd::Ensure { slot: Slot::Rexp, bytes: r4 },
        Cmd::H2d { dst: spec_buf(Slot::Rperm), src: Host::Perm, bytes: r4 },
        Cmd::H2d { dst: spec_buf(Slot::Rperm2), src: Host::Inv, bytes: r4 },
        Cmd::H2d { dst: spec_buf(Slot::Rexp), src: Host::RowExp, bytes: r4 },
        Cmd::Ensure { slot: Slot::Gp, bytes: (rows_pad * 4) as usize },
        Cmd::Ensure { slot: Slot::Gi, bytes: r4 },
        Cmd::Ensure {
            slot: Slot::Texp,
            bytes: (vstd::math::max(rows_pad / 16, 1) * 4) as usize,
        },
        Cmd::H2d { dst: spec_buf(Slot::Gp), src: Host::PermPad, bytes: (rows_pad * 4) as usize },
        Cmd::H2d { dst: spec_buf(Slot::Gi), src: Host::InvPad, bytes: r4 },
        Cmd::H2d {
            dst: spec_buf(Slot::Texp),
            src: Host::TileExp,
            bytes: (rows_pad / 16 * 4) as usize,
        },
    ]
}

/// Plans the upload of host tables.
pub fn upload_tables(rows: usize, rows_pad: usize) -> (r: Vec<Cmd>)
    requires
        rows * 4 <= usize::MAX,
        rows_pad * 4 <= usize::MAX,
    ensures
        r@ == tables_program(rows as int, rows_pad as int),
{
    let r4: usize = rows * 4;
    vec![
        Cmd::Ensure { slot: Slot::Rperm, bytes: r4 },
        Cmd::Ensure { slot: Slot::Rperm2, bytes: r4 },
        Cmd::Ensure { slot: Slot::Rexp, bytes: r4 },
        Cmd::H2d { dst: buf(Slot::Rperm), src: Host::Perm, bytes: r4 },
        Cmd::H2d { dst: buf(Slot::Rperm2), src: Host::Inv, bytes: r4 },
        Cmd::H2d { dst: buf(Slot::Rexp), src: Host::RowExp, bytes: r4 },
        Cmd::Ensure { slot: Slot::Gp, bytes: rows_pad * 4 },
        Cmd::Ensure { slot: Slot::Gi, bytes: r4 },
        Cmd::Ensure { slot: Slot::Texp, bytes: max_usize(rows_pad / 16, 1) * 4 },
        Cmd::H2d { dst: buf(Slot::Gp), src: Host::PermPad, bytes: rows_pad * 4 },
        Cmd::H2d { dst: buf(Slot::Gi), src: Host::InvPad, bytes: r4 },
        Cmd::H2d { dst: buf(Slot::Texp), src: Host::TileExp, bytes: rows_pad / 16 * 4 },
    ]
}

/// Words per grouped row: a plain row for `f32` weights, else a quantised one.
pub open spec fn spec_row_words(acc: &Q4Acc, rq: MoeReq) -> int {
    if acc.weight_f32(rq.w) {
        rq.w.n_in as int
    } else {
        acc.spec_moe_xq(rq).1 as int
    }
}

/// Tables in the padded layout: built on the device, for several tokens.
pub open spec fn pad_layout(acc: &Q4Acc, g: MoeGroup) -> bool {
    g.rows_pad_d != Ptr::Null && acc.spec_t() > 1
}

impl MoeGroup {
    /// The tables serve `rows` rows over `ne` experts.
    pub open spec fn serves(&self, rows: int, ne: int) -> bool {
        self.rows == rows && self.rows_pad <= rows + 16 * ne
    }
}

/// The step before the products: room for the grouped rows and results, and the
/// gathered rows.
pub open spec fn gather_program(acc: &Q4Acc, rq: MoeReq, g: MoeGroup, x: Ptr) -> Seq<Cmd> {
    let rows = acc.moe_rows(rq);
    let bound = acc.moe_bound(rq);
    let words = spec_row_words(acc, rq);
    let room = if g.rows_pad_d != Ptr::Null {
        bound
    } else {
        rows
    };
    let src = if acc.weight_f32(rq.w) {
        x
    } else {
        acc.spec_moe_xq(rq).0
    };
    seq![
        Cmd::Ensure { slot: Slot::Xperm, bytes: (room * words * 4) as usize },
        Cmd::Ensure { slot: Slot::Yperm, bytes: (room * rq.spec_n_out() * 4) as usize },
    ] + if pad_layout(acc, g) {
        permute_program(src, g.perm_pad, spec_buf(Slot::Xperm), words as usize, bound as usize)
    } else {
        permute_program(src, g.perm, spec_buf(Slot::Xperm), words as usize, rows as usize)
    }
}

/// The step after the products: the results in the order of the rows.
pub open spec fn scatter_program(acc: &Q4Acc, rq: MoeReq, g: MoeGroup, out: Ptr) -> Seq<Cmd> {
    permute_program(
        spec_buf(Slot::Yperm),
        if pad_layout(acc, g) {
            g.inv_pad
        } else {
            g.inv
        },
        out,
        rq.spec_n_out() as usize,
        acc.moe_rows(rq) as usize,
    )
}

/// q5_1 products that read the ids, for one token.
pub open spec fn q51_ids_program(acc: &Q4Acc, rq: MoeReq, ids: Ptr, out: Ptr) -> Seq<Cmd> {
    let (xq, xq_w) = acc.spec_moe_xq(rq);
    seq![
        Cmd::Ensure { slot: Slot::Scratch, bytes: 4 },
        spec_launch(
            Call::MoeQ51GmIds {
                xq,
                w: Ptr::Weight { key: rq.w.key, off: 0 },
                part: spec_buf(Slot::Scratch),
                out,
                ids,
                n_in: rq.w.n_in as i32,
                n_out: rq.spec_n_out() as i32,
                xq_w: xq_w as i32,
                t: acc.moe_rows(rq) as i32,
                expert_words: (rq.spec_per_expert() / 4) as i32,
            },
            spec_ceil_div(rq.spec_n_out(), 16) as u32,
            spec_ceil_div(acc.moe_rows(rq), 16) as u32,
            1,
            256,
        ),
    ]
}

/// q5_1 products over expert-aligned tiles.
pub open spec fn q51_tiles_program(acc: &Q4Acc, rq: MoeReq, g: MoeGroup, out: Ptr) -> Seq<Cmd> {
    let (xq, xq_w) = acc.spec_moe_xq(rq);
    let no = rq.spec_n_out();
    seq![Cmd::Ensure { slot: Slot::Gxp, bytes: (g.rows_pad * xq_w * 4) as usize }]
        + permute_program(xq, g.perm_pad, spec_buf(Slot::Gxp), xq_w, g.rows_pad) + seq![
        Cmd::Ensure { slot: Slot::Gyp, bytes: (g.rows_pad * no * 4) as usize },
        Cmd::Ensure { slot: Slot::Scratch, bytes: 4 },
        Cmd::Launch(
            Launch {
                call: Call::MoeQ51Gm {
                    xq: spec_buf(Slot::Gxp),
                    w: Ptr::Weight { key: rq.w.key, off: 0 },
                    part: spec_buf(Slot::Scratch),
                    out: spec_buf(Slot::Gyp),
                    tilexp: g.tilexp,
                    n_in: rq.w.n_in as i32,
                    n_out: no as i32,
                    xq_w: xq_w as i32,
                    t: g.rows_pad as i32,
                    expert_words: (rq.spec_per_expert() / 4) as i32,
                },
                gx: grid_y(spec_ceil_div(no, 16)),
                gy: spec_ceil_div(g.rows_pad as int, 16) as u32,
                gz: 1,
                block: 256,
                smem: (16 * (rq.w.n_in / 32) * 24) as u32,
            },
        ),
    ] + permute_program(
        spec_buf(Slot::Gyp),
        g.inv_pad,
        out,
        no as usize,
        acc.moe_rows(rq) as usize,
    )
}

/// q4_K products in one launch, each row with the expert that the tables give it.
pub open spec fn q4k_rows_program(acc: &Q4Acc, rq: MoeReq, g: MoeGroup, out: Ptr) -> Seq<Cmd> {
    let (_, xq_w) = acc.spec_moe_xq(rq);
    seq![
        Cmd::Ensure { slot: Slot::Scratch, bytes: 4 },
        spec_launch(
            Call::MoeQ4kGe {
                xq: spec_buf(Slot::Xperm),
                w: Ptr::Weight { key: rq.w.key, off: 0 },
                part: spec_buf(Slot::Scratch),
                out: spec_buf(Slot::Yperm),
                rowexp: g.rowexp,
                n_in: rq.w.n_in as i32,
                n_out: rq.spec_n_out() as i32,
                xq_w: xq_w as i32,
                t: acc.moe_rows(rq) as i32,
                expert_bytes: rq.spec_per_expert() as i32,
                rows_pad: g.rows_pad_d,
            },
            spec_ceil_div(rq.spec_n_out(), 16) as u32,
            spec_ceil_div(g.rows_pad as int, 16) as u32,
            1,
            256,
        ),
    ] + scatter_program(acc, rq, g, out)
}

/// The commands that fetch the offsets which the device computed.
pub open spec fn offsets_program(g: MoeGroup, ne: int) -> Seq<Cmd> {
    seq![Cmd::D2hWait] + if g.pinned {
        Seq::empty()
    } else {
        seq![Cmd::D2h { dst: Host::Offsets, src: g.off_d, bytes: ((ne + 2) * 4) as usize }]
    }
}

/// The products of a request that go expert by expert.
pub open spec fn expert_job(acc: &Q4Acc, rq: MoeReq) -> ExpertJob {
    ExpertJob {
        f32w: acc.weight_f32(rq.w),
        ty: spec_ggml_id(rq.w.ty),
        x: spec_buf(Slot::Xperm),
        w: Ptr::Weight { key: rq.w.key, off: 0 },
        y: spec_buf(Slot::Yperm),
        n_in: rq.w.n_in,
        n_out: rq.spec_n_out() as usize,
        xq_w: acc.spec_moe_xq(rq).1,
        row_words: spec_row_words(acc, rq) as usize,
        per_expert: rq.spec_per_expert() as usize,
    }
}

/// How the products over tables run.
#[derive(Clone, Copy, PartialEq, Eq, Structural, Debug)]
pub enum GroupKind {
    Skipped,
    Q51Ids,
    Q51Tiles,
    Q4kRows,
    Offsets,
    Experts,
}

pub open spec fn spec_group_kind(acc: &Q4Acc, rq: MoeReq, g: MoeGroup) -> GroupKind {
    let quantised = !acc.weight_f32(rq.w) && acc.moe_rows(rq) > 0;
    if acc.tuning.skip_moe {
        GroupKind::Skipped
    } else if rq.w.ty == GgmlType::Q5_1 && quantised {
        if acc.spec_t() == 1 && !acc.tuning.moe_grouped {
            GroupKind::Q51Ids
        } else {
            GroupKind::Q51Tiles
        }
    } else if rq.w.ty == GgmlType::Q4K && quantised {
        GroupKind::Q4kRows
    } else if g.off@.len() == 0 && g.rows_pad_d != Ptr::Null {
        GroupKind::Offsets
    } else {
        GroupKind::Experts
    }
}

impl Q4Acc {
    /// Takes note of host tables that were uploaded for the current routing.
    pub fn tables_uploaded(&mut self, rows: usize, rows_pad: usize, off: Vec<usize>)
        requires
            old(self).wf(),
        ensures
            final(self).wf(),
            *final(self) == (Q4Acc { moe_group: final(self).moe_group, ..*old(self) }),
            final(self).moe_group matches Some(g) && {
                &&& g.generation == old(self).moe_gen
                &&& g.rows == rows
                &&& g.perm == old(self).table(Slot::Rperm, 0)
                &&& g.inv == old(self).table(Slot::Rperm2, 0)
                &&& g.rowexp == old(self).table(Slot::Rexp, 0)
                &&& g.perm_pad == old(self).table(Slot::Gp, 0)
                &&& g.inv_pad == old(self).table(Slot::Gi, 0)
                &&& g.tilexp == old(self).table(Slot::Texp, 0)
                &&& g.rows_pad == rows_pad
                &&& g.rows_pad_d == Ptr::Null
                &&& g.off_d == Ptr::Null
                &&& !g.pinned
                &&& g.off == off
            },
            final(self).moe_group matches Some(g) && tables_at(present(*old(self)), g),
    {
        let g = MoeGroup {
            generation: self.moe_gen,
            rows,
            perm: self.table_ptr(Slot::Rperm, 0),
            inv: self.table_ptr(Slot::Rperm2, 0),
            rowexp: self.table_ptr(Slot::Rexp, 0),
            perm_pad: self.table_ptr(Slot::Gp, 0),
            inv_pad: self.table_ptr(Slot::Gi, 0),
            tilexp: self.table_ptr(Slot::Texp, 0),
            rows_pad,
            rows_pad_d: Ptr::Null,
            off_d: Ptr::Null,
            pinned: false,
            off,
        };
        self.moe_group = Some(g);
    }

    /// Words that the diagnostic hash of the results covers: those of the tokens,
    /// no more than those of the rows.
    pub fn moe_hash_words(&self, rows: usize, n_out: usize) -> (r: usize)
        requires
            self.spec_t() * n_out <= usize::MAX,
            rows * n_out <= usize::MAX,
        ensures
            r == vstd::math::min(self.spec_t() * n_out, rows * n_out),
    {
        min_usize(self.t_cur() * n_out, rows * n_out)
    }

    fn row_words(&self, rq: &MoeReq) -> (r: usize)
        ensures
            r == spec_row_words(self, *rq),
    {
        if self.is_f32(&rq.w) {
            rq.w.n_in
        } else {
            self.moe_xq(rq).1
        }
    }

    fn gather(&self, rq: &MoeReq, g: &MoeGroup, x: Ptr) -> (r: Vec<Cmd>)
        requires
            self.moe_fits(*rq),
            self.moe_prepared(*rq),
        ensures
            r@ == gather_program(self, *rq, *g, x),
    {
        let rows: usize = self.moe_row_count(rq);
        let bound: usize = rows + 16 * rq.ne();
        let words: usize = self.row_words(rq);
        let on_device = g.rows_pad_d != Ptr::Null;
        let room: usize = if on_device {
            bound
        } else {
            rows
        };
        let no: usize = rq.n_out();
        proof {
            let xw = spec_xq_words(rq.w.n_in as int);
            let ni = rq.w.n_in as int;
            assert(room * words * 4 <= bound * words * 4 && room * words <= room * words * 4)
                by (nonlinear_arith)
                requires
                    0 <= room <= bound,
                    0 <= words,
            ;
            assert(words == xw || words == ni);
            assert(room * no <= room * no * 4 && room * no * 4 <= bound * no * 64)
                by (nonlinear_arith)
                requires
                    0 <= room <= bound,
                    0 <= no,
            ;
        }
        let src = if self.is_f32(&rq.w) {
            x
        } else {
            self.moe_xq(rq).0
        };
        let mut r: Vec<Cmd> = vec![
            Cmd::Ensure { slot: Slot::Xperm, bytes: room * words * 4 },
            Cmd::Ensure { slot: Slot::Yperm, bytes: room * no * 4 },
        ];
        let mut p = if on_device && self.t_cur() > 1 {
            rows_permute_dev(src, g.perm_pad, buf(Slot::Xperm), words, bound)
        } else {
            rows_permute_dev(src, g.perm, buf(Slot::Xperm), words, rows)
        };
        r.append(&mut p);
        r
    }

    fn scatter(&self, rq: &MoeReq, g: &MoeGroup, out: Ptr) -> (r: Vec<Cmd>)
        requires
            self.moe_fits(*rq),
        ensures
            r@ == scatter_program(self, *rq, *g, out),
    {
        let inv = if g.rows_pad_d != Ptr::Null && self.t_cur() > 1 {
            g.inv_pad
        } else {
            g.inv
        };
        rows_permute_dev(buf(Slot::Yperm), inv, out, rq.n_out(), self.moe_row_count(rq))
    }

    fn q51_ids(&self, rq: &MoeReq, ids: Ptr, out: Ptr) -> (r: Vec<Cmd>)
        requires
            self.moe_fits(*rq),
        ensures
            r@ == q51_ids_program(self, *rq, ids, out),
    {
        let (xq, xq_w): (Ptr, usize) = self.moe_xq(rq);
        let rows: usize = self.moe_row_count(rq);
        let no: usize = rq.n_out();
        vec![
            Cmd::Ensure { slot: Slot::Scratch, bytes: 4 },
            launch(
                Call::MoeQ51GmIds {
                    xq,
                    w: Ptr::Weight { key: rq.w.key, off: 0 },
                    part: buf(Slot::Scratch),
                    out,
                    ids,
                    n_in: rq.w.n_in as i32,
                    n_out: no as i32,
                    xq_w: xq_w as i32,
                    t: rows as i32,
                    expert_words: (rq.per_expert() / 4) as i32,
                },
                ceil_div(no, 16) as u32,
                ceil_div(rows, 16) as u32,
                1,
                256,
            ),
        ]
    }

    fn q51_tiles(&self, rq: &MoeReq, g: &MoeGroup, out: Ptr) -> (r: Vec<Cmd>)
        requires
            self.moe_fits(*rq),
            self.moe_prepared(*rq),
            !self.weight_f32(rq.w),
            g.serves(self.moe_rows(*rq), rq.spec_ne()),
        ensures
            r@ == q51_tiles_program(self, *rq, *g, out),
    {
        let (xq, xq_w): (Ptr, usize) = self.moe_xq(rq);
        let rows: usize = self.moe_row_count(rq);
        let no: usize = rq.n_out();
        let pad: usize = g.rows_pad;
        proof {
            let b = self.moe_bound(*rq);
            assert(pad * xq_w * 4 <= b * xq_w * 4 && pad * xq_w <= pad * xq_w * 4)
                by (nonlinear_arith)
                requires
                    0 <= pad <= b,
                    0 <= xq_w,
            ;
            assert(pad * no * 4 <= b * no * 64 && pad * no <= pad * no * 4) by (nonlinear_arith)
                requires
                    0 <= pad <= b,
                    0 <= no,
            ;
        }
        let mut r: Vec<Cmd> = vec![Cmd::Ensure { slot: Slot::Gxp, bytes: pad * xq_w * 4 }];
        let mut p = rows_permute_dev(xq, g.perm_pad, buf(Slot::Gxp), xq_w, pad);
        r.append(&mut p);
        r.push(Cmd::Ensure { slot: Slot::Gyp, bytes: pad * no * 4 });
        r.push(Cmd::Ensure { slot: Slot::Scratch, bytes: 4 });
        r.push(
            Cmd::Launch(
                Launch {
                    call: Call::MoeQ51Gm {
                        xq: buf(Slot::Gxp),
                        w: Ptr::Weight { key: rq.w.key, off: 0 },
                        part: buf(Slot::Scratch),
                        out: buf(Slot::Gyp),
                        tilexp: g.tilexp,
                        n_in: rq.w.n_in as i32,
                        n_out: no as i32,
                        xq_w: xq_w as i32,
                        t: pad as i32,
                        expert_words: (rq.per_expert() / 4) as i32,
                    },
                    gx: min_usize(ceil_div(no, 16), crate::gemm::GRID_Y) as u32,
                    gy: ceil_div(pad, 16) as u32,
                    gz: 1,
                    block: 256,
                    smem: (16 * (rq.w.n_in / 32) * 24) as u32,
                },
            ),
        );
        let mut s = rows_permute_dev(buf(Slot::Gyp), g.inv_pad, out, no, rows);
        r.append(&mut s);
        assert(r@ =~= q51_tiles_program(self, *rq, *g, out));
        r
    }

    fn q4k_rows(&self, rq: &MoeReq, g: &MoeGroup, out: Ptr) -> (r: Vec<Cmd>)
        requires
            self.moe_fits(*rq),
        ensures
            r@ == q4k_rows_program(self, *rq, *g, out),
    {
        let (_, xq_w): (Ptr, usize) = self.moe_xq(rq);
        let no: usize = rq.n_out();
        let rows: usize = self.moe_row_count(rq);
        let mut r: Vec<Cmd> = vec![
            Cmd::Ensure { slot: Slot::Scratch, bytes: 4 },
            launch(
                Call::MoeQ4kGe {
                    xq: buf(Slot::Xperm),
                    w: Ptr::Weight { key: rq.w.key, off: 0 },
                    part: buf(Slot::Scratch),
                    out: buf(Slot::Yperm),
                    rowexp: g.rowexp,
                    n_in: rq.w.n_in as i32,
                    n_out: no as i32,
                    xq_w: xq_w as i32,
                    t: rows as i32,
                    expert_bytes: rq.per_expert() as i32,
                    rows_pad: g.rows_pad_d,
                },
                ceil_div(no, 16) as u32,
                ceil_div(g.rows_pad, 16) as u32,
                1,
                256,
            ),
        ];
        let mut s = self.scatter(rq, g, out);
        r.append(&mut s);
        r
    }

    fn group_kind(&self, rq: &MoeReq, g: &MoeGroup) -> (r: GroupKind)
        requires
            self.moe_fits(*rq),
        ensures
            r == spec_group_kind(self, *rq, *g),
    {
        let quantised = !self.is_f32(&rq.w) && self.moe_row_count(rq) > 0;
        if self.tuning.skip_moe {
            GroupKind::Skipped
        } else if matches!(rq.w.ty, GgmlType::Q5_1) && quantised {
            if self.t_cur() == 1 && !self.tuning.moe_grouped {
                GroupKind::Q51Ids
            } else {
                GroupKind::Q51Tiles
            }
        } else if matches!(rq.w.ty, GgmlType::Q4K) && quantised {
            GroupKind::Q4kRows
        } else if g.off.len() == 0 && g.rows_pad_d != Ptr::Null {
            GroupKind::Offsets
        } else {
            GroupKind::Experts
        }
    }

    /// Plans the products of a prepared request over the tables of its routing.
    pub fn moe_grouped(&self, rq: &MoeReq, g: &MoeGroup) -> (r: Result<MoeRun, AccError>)
        requires
            self.moe_fits(*rq),
            self.moe_prepared(*rq),
            g.serves(self.moe_rows(*rq), rq.spec_ne()),
        ensures
            match (self.frames.spec_ptr(rq.x), self.frames.spec_ptr(rq.out)) {
                (Err(e), _) => r matches Err(f) && f == e,
                (Ok(_), Err(e)) => r matches Err(f) && f == e,
                (Ok(x), Ok(out)) => {
                    let pre = gather_program(self, *rq, *g, x);
                    match spec_group_kind(self, *rq, *g) {
                        GroupKind::Skipped => r matches Ok(MoeRun::Complete(c)) && c@ == pre,
                        GroupKind::Q51Ids => match self.frames.spec_ptr(rq.ids) {
                            Err(e) => r matches Err(f) && f == e,
                            Ok(ids) => r matches Ok(MoeRun::Complete(c)) && c@ == pre
                                + q51_ids_program(self, *rq, ids, out),
                        },
                        GroupKind::Q51Tiles => r matches Ok(MoeRun::Complete(c)) && c@ == pre
                            + q51_tiles_program(self, *rq, *g, out),
                        GroupKind::Q4kRows => r matches Ok(MoeRun::Complete(c)) && c@ == pre
                            + q4k_rows_program(self, *rq, *g, out),
                        GroupKind::Offsets => r matches Ok(MoeRun::NeedOffsets(c)) && c@ == pre
                            + offsets_program(*g, rq.spec_ne()),
                        GroupKind::Experts => r matches Ok(MoeRun::NeedExperts(c)) && c@ == pre,
                    }
                },
            },
            !self.tuning.skip_moe ==> (r matches Ok(MoeRun::Complete(c)) ==> serves_rows(
                *self,
                *rq,
                *g,
                c@,
            )),
    {
        let x = match self.fptr(rq.x) {
            Ok(p) => p,
            Err(e) => {
                return Err(e);
            },
        };
        let out = match self.fptr(rq.out) {
            Ok(p) => p,
            Err(e) => {
                return Err(e);
            },
        };
        let mut r = self.gather(rq, g, x);
        match self.group_kind(rq, g) {
            GroupKind::Skipped => Ok(MoeRun::Complete(r)),
            GroupKind::Q51Ids => {
                let ids = match self.fptr(rq.ids) {
                    Ok(p) => p,
                    Err(e) => {
                        return Err(e);
                    },
                };
                let mut c = self.q51_ids(rq, ids, out);
                r.append(&mut c);
                proof {
                    self.law_grouped_step_serves_every_row(*rq, *g, r@);
                }
                Ok(MoeRun::Complete(r))
            },
            GroupKind::Q51Tiles => {
                let mut c = self.q51_tiles(rq, g, out);
                r.append(&mut c);
                proof {
                    self.law_grouped_step_serves_every_row(*rq, *g, r@);
                }
                Ok(MoeRun::Complete(r))
            },
            GroupKind::Q4kRows => {
                let mut c = self.q4k_rows(rq, g, out);
                r.append(&mut c);
                proof {
                    self.law_grouped_step_serves_every_row(*rq, *g, r@);
                }
                Ok(MoeRun::Complete(r))
            },
            GroupKind::Offsets => {
                let ghost r0 = r@;
                r.push(Cmd::D2hWait);
                if !g.pinned {
                    r.push(
                        Cmd::D2h { dst: Host::Offsets, src: g.off_d, bytes: (rq.ne() + 2) * 4 },
                    );
                }
                assert(r@ =~= r0 + offsets_program(*g, rq.spec_ne()));
                Ok(MoeRun::NeedOffsets(r))
            },
            GroupKind::Experts => Ok(MoeRun::NeedExperts(r)),
        }
    }

    /// Plans the products expert by expert and the scatter behind them.
    pub fn moe_experts(&self, rq: &MoeReq, g: &MoeGroup, ranges: &Vec<Range>) -> (r: Result<
        Vec<Cmd>,
        AccError,
    >)
        requires
            self.moe_fits(*rq),
            self.moe_prepared(*rq),
            self.tuning.usable(),
            ranges@.len() == rq.spec_ne(),
            ranges_within(ranges@, self.moe_bound(*rq)),
        ensures
            match self.frames.spec_ptr(rq.out) {
                Err(e) => r matches Err(f) && f == e,
                Ok(out) => r matches Ok(c) && c@ == experts_program(
                    self.tuning,
                    expert_job(self, *rq),
                    ranges@,
                    rq.spec_ne(),
                ) + scatter_program(self, *rq, *g, out),
            },
    {
        let out = match self.fptr(rq.out) {
            Ok(p) => p,
            Err(e) => {
                return Err(e);
            },
        };
        let (_, xq_w): (Ptr, usize) = self.moe_xq(rq);
        let job = ExpertJob {
            f32w: self.is_f32(&rq.w),
            ty: ggml_id(rq.w.ty),
            x: buf(Slot::Xperm),
            w: Ptr::Weight { key: rq.w.key, off: 0 },
            y: buf(Slot::Yperm),
            n_in: rq.w.n_in,
            n_out: rq.n_out(),
            xq_w,
            row_words: self.row_words(rq),
            per_expert: rq.per_expert(),
        };
        let bound: usize = self.moe_row_count(rq) + 16 * rq.ne();
        proof {
            let (b, no, ne, pe) = (bound as int, job.n_out as int, rq.spec_ne(), job.per_expert as int);
            assert(b * no * 4 <= b * no * 64) by (nonlinear_arith)
                requires
                    0 <= b,
                    0 <= no,
            ;
            let len = crate::upload::uploaded_len(rq.w);
            assert(ne * pe <= len) by (nonlinear_arith)
                requires
                    ne >= 1,
                    pe == len / ne,
            ;
            assert(job.row_words == spec_xq_words(rq.w.n_in as int) || job.row_words == rq.w.n_in);
            assert(job.fits(b, ne));
        }
        let mut r = run_experts(&self.tuning, job, ranges, bound);
        let mut s = self.scatter(rq, g, out);
        r.append(&mut s);
        Ok(r)
    }
}

/// Where each expert starts in the padded layout, from unpadded offsets.
pub open spec fn padded_starts(off: Seq<int>, e: int) -> int
    decreases e,
{
    if e <= 0 {
        0
    } else {
        padded_starts(off, e - 1) + crate::arith::round_up(
            count_between(off, e - 1),
            16,
        )
    }
}

/// Rows between an offset and the next, none where the next is smaller.
pub open spec fn count_between(off: Seq<int>, e: int) -> int {
    vstd::math::max(off[e + 1] - off[e], 0)
}

/// Offsets read from the device; a negative one counts as 0.
pub open spec fn device_offsets(b: Seq<i32>) -> Seq<int> {
    Seq::new(b.len(), |i: int| vstd::math::max(b[i] as int, 0))
}

/// Expert `e` is the first that starts behind row `bound` of the padded layout.
pub open spec fn starts_beyond(off: Seq<int>, bound: int, e: int) -> bool {
    &&& padded_starts(off, e) > bound
    &&& forall|f: int| 0 <= f < e ==> #[trigger] padded_starts(off, f) <= bound
}

/// Decodes the offsets that the device computed, for the padded layout: every
/// expert starts at a tile, and only its real rows count, as padding rows would
/// disturb the results of their tile. More padded rows than `bound` are refused, and
/// so is an expert that starts behind them.
pub fn padded_ranges(b: &Vec<i32>, ne: usize, bound: usize) -> (r: Result<Vec<Range>, AccError>)
    requires
        b@.len() == ne + 2,
        ne >= 1,
    ensures
        ({
            let off = device_offsets(b@);
            if off[ne + 1] > bound {
                r == Err::<Vec<Range>, AccError>(
                    AccError::MoeBound { rows_pad: off[ne + 1] as usize, bound, ne },
                )
            } else {
                match r {
                    Ok(v) => v@.len() == ne && forall|e: int|
                        0 <= e < ne ==> (#[trigger] v@[e]).start == padded_starts(off, e)
                            && v@[e].len == count_between(off, e) && v@[e].start <= bound,
                    Err(f) => f matches AccError::MoeStart { expert, bound: c } && c == bound
                        && expert < ne && starts_beyond(off, bound as int, expert as int),
                }
            }
        }),
{
    let ghost off = device_offsets(b@);
    let last: usize = b.len() - 1;
    let rows_pad: usize = nonneg(b[last]);
    if rows_pad > bound {
        return Err(AccError::MoeBound { rows_pad, bound, ne });
    }
    let mut v: Vec<Range> = Vec::new();
    let mut at: usize = 0;
    let mut e: usize = 0;
    while e < ne
        invariant
            b@.len() == ne + 2,
            off == device_offsets(b@),
            off[ne + 1] <= bound,
            e <= ne,
            v@.len() == e,
            e < ne ==> at == padded_starts(off, e as int) && at <= bound,
            forall|f: int|
                0 <= f < e ==> (#[trigger] v@[f]).start == padded_starts(off, f) && v@[f].len
                    == count_between(off, f) && v@[f].start <= bound,
        decreases ne - e,
    {
        let lo: usize = nonneg(b[e]);
        let hi: usize = nonneg(b[e + 1]);
        let c: usize = if hi > lo {
            hi - lo
        } else {
            0
        };
        proof {
            crate::arith::lemma_ceil_div(c as int, 16);
        }
        let padded: usize = ceil_div(c, 16) * 16;
        v.push(Range { start: at, len: c });
        e = e + 1;
        if e < ne {
            if padded > bound - at {
                proof {
                    assert forall|f: int| 0 <= f < e implies #[trigger] padded_starts(off, f)
                        <= bound by {
                        assert(v@[f].start == padded_starts(off, f));
                    }
                }
                return Err(AccError::MoeStart { expert: e, bound });
            }
            at = at + padded;
        }
    }
    Ok(v)
}

/// The device's offsets lead to the padded layout of the tables: every expert
/// starts where the tables put it, and its range holds its rows and no padding.
pub proof fn law_padded_ranges_match_tables(ids: Seq<u32>, ne: int, off: Seq<int>, e: int)
    requires
        ne >= 1,
        0 <= e < ne,
        off.len() >= ne + 1,
        forall|f: int| 0 <= f <= ne ==> #[trigger] off[f] == crate::group::group_off(ids, ne, f),
    ensures
        padded_starts(off, e) == crate::group::pad_off(ids, ne, e),
        count_between(off, e) == crate::group::count_of(ids, ne, e),
        padded_starts(off, e) + count_between(off, e) <= crate::group::pad_off(ids, ne, e + 1),
{
    lemma_padded_starts(ids, ne, off, e);
    lemma_padded_starts(ids, ne, off, e + 1);
    crate::group::lemma_count_bounds(ids, ne, e);
    crate::arith::lemma_ceil_div(crate::group::count_of(ids, ne, e), 16);
    assert(off[e + 1] == crate::group::group_off(ids, ne, e + 1));
    assert(off[e] == crate::group::group_off(ids, ne, e));
}

proof fn lemma_padded_starts(ids: Seq<u32>, ne: int, off: Seq<int>, e: int)
    requires
        ne >= 1,
        0 <= e <= ne,
        off.len() >= ne + 1,
        forall|f: int| 0 <= f <= ne ==> #[trigger] off[f] == crate::group::group_off(ids, ne, f),
    ensures
        padded_starts(off, e) == crate::group::pad_off(ids, ne, e),
    decreases e,
{
    if e > 0 {
        lemma_padded_starts(ids, ne, off, e - 1);
        crate::group::lemma_count_bounds(ids, ne, e - 1);
        assert(off[e - 1] == crate::group::group_off(ids, ne, e - 1));
        assert(off[e] == crate::group::group_off(ids, ne, e));
    }
}

fn nonneg(x: i32) -> (r: usize)
    ensures
        r == vstd::math::max(x as int, 0),
{
    if x > 0 {
        x as usize
    } else {
        0
    }
}

/// Decodes the offsets that the device computed, for the layout without
/// padding.
pub fn plain_offsets(b: &Vec<i32>, ne: usize, bound: usize) -> (r: Result<Vec<usize>, AccError>)
    requires
        b@.len() == ne + 2,
    ensures
        ({
            let off = device_offsets(b@);
            if off[ne + 1] > bound {
                r == Err::<Vec<usize>, AccError>(
                    AccError::MoeBound { rows_pad: off[ne + 1] as usize, bound, ne },
                )
            } else {
                r matches Ok(v) && v@.len() == ne + 1 && forall|e: int|
                    0 <= e <= ne ==> #[trigger] v@[e] == off[e]
            }
        }),
{
    let n: usize = b.len() - 1;
    let rows_pad: usize = nonneg(b[n]);
    if rows_pad > bound {
        return Err(AccError::MoeBound { rows_pad, bound, ne });
    }
    let mut v: Vec<usize> = Vec::new();
    let mut e: usize = 0;
    while e < n
        invariant
            b@.len() == ne + 2,
            n == ne + 1,
            e <= n,
            v@.len() == e,
            forall|f: int| 0 <= f < e ==> #[trigger] v@[f] == device_offsets(b@)[f],
        decreases n - e,
    {
        v.push(nonneg(b[e]));
        e = e + 1;
    }
    Ok(v)
}

} // verus!
