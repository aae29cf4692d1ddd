//! The course of an expert product, step by step.
//!
//! `frame_moe_gemm` is asked again after every step until the request is complete.
//! Two steps need data from the device before the course can go on: the expert ids
//! (`moe_build`) and the offsets that the device computed (`moe_finish`).

use vstd::prelude::*;
use crate::acc::{MoeGroup, Q4Acc};
use crate::device::{Cmd, Mark, Ptr};
use crate::error::AccError;
use crate::experts::{
    ascending, experts_program, is_ascending, offset_ranges, ranges_fit, ranges_of, ranges_within,
    Range,
};
use crate::expert_laws::{finishes_rows, serves_direct, serves_rows};
use crate::ggml::spec_xq_words;
use crate::moe::{MoeReq, MoeRoute};
use crate::moe_grouped::{
    build_tables, count_between, device_offsets, expert_job, gather_program, offsets_program, pad_layout,
    padded_ranges, padded_starts, plain_offsets, q4k_rows_program, q51_ids_program,
    q51_tiles_program, scatter_program, spec_group_kind, tables_program, upload_tables, GroupKind,
    HostTables, MoeRun,
};
use crate::table_laws::{
    brings_tables, builds_tables, law_uploaded_tables_route_every_row, prepares_rows,
};

verus! {

/// Where a request stands.
#[derive(Clone, Copy, PartialEq, Eq, Structural, Debug)]
pub enum MoeStage {
    Start,
    /// The weight and the activations are on the device.
    Prepared,
    /// So are the grouping tables.
    Grouped,
}

/// What the driver does next.
pub enum MoeStep {
    /// Run the commands and ask again.
    Run { cmds: Vec<Cmd>, then: MoeStage },
    /// Copy the ids of the rows to the host, build the tables with `moe_build`, and
    /// ask again once they are uploaded.
    ReadIds { src: Ptr, rows: usize },
    /// Run the commands, which fetch the expert offsets, and go on with
    /// `moe_finish`.
    ReadOffsets { cmds: Vec<Cmd> },
    /// Run the commands; the request is then complete.
    Done { cmds: Vec<Cmd> },
}

impl MoeGroup {
    /// The tables hold offsets of `ne` experts over `rows` rows, on the device or on
    /// the host.
    pub open spec fn has_offsets(&self, rows: int, ne: int) -> bool {
        if self.off@.len() == 0 {
            self.rows_pad_d != Ptr::Null
        } else {
            &&& self.off@.len() == ne + 1
            &&& ascending(self.off@)
            &&& ranges_within(ranges_of(self.off@), rows)
        }
    }
}

impl Q4Acc {
    /// The tables of the current routing are there and serve the request.
    pub open spec fn moe_ready(&self, rq: MoeReq) -> bool {
        &&& self.group_hit(rq)
        &&& self.moe_group matches Some(g) && g.serves(self.moe_rows(rq), rq.spec_ne())
            && g.has_offsets(self.moe_rows(rq), rq.spec_ne())
    }

    /// Whether the tables of the current routing serve the request.
    pub fn is_moe_ready(&self, rq: &MoeReq) -> (r: bool)
        requires
            self.moe_fits(*rq),
        ensures
            r == self.moe_ready(*rq),
    {
        let rows: usize = self.moe_row_count(rq);
        let ne: usize = rq.ne();
        match &self.moe_group {
            Some(g) => {
                if g.generation != self.moe_gen || g.rows != rows || g.rows_pad > rows + 16 * ne {
                    return false;
                }
                if g.off.len() == 0 {
                    return g.rows_pad_d != Ptr::Null;
                }
                g.off.len() == ne + 1 && is_ascending(&g.off) && ranges_fit(
                    &offset_ranges(&g.off),
                    rows,
                )
            },
            None => false,
        }
    }

    /// The next step once the tables are there.
    pub open spec fn grouped_step(&self, rq: MoeReq, g: MoeGroup, r: Result<MoeStep, AccError>) -> bool {
        match (self.frames.spec_ptr(rq.x), self.frames.spec_ptr(rq.out)) {
            (Err(e), _) => r matches Err(f) && f == e,
            (Ok(_), Err(e)) => r matches Err(f) && f == e,
            (Ok(x), Ok(out)) => {
                let pre = gather_program(self, rq, g, x);
                match spec_group_kind(self, rq, g) {
                    GroupKind::Skipped => r matches Ok(MoeStep::Done { cmds }) && cmds@ == pre,
                    GroupKind::Q51Ids => match self.frames.spec_ptr(rq.ids) {
                        Err(e) => r matches Err(f) && f == e,
                        Ok(ids) => r matches Ok(MoeStep::Done { cmds }) && cmds@ == pre
                            + q51_ids_program(self, rq, ids, out),
                    },
                    GroupKind::Q51Tiles => r matches Ok(MoeStep::Done { cmds }) && cmds@ == pre
                        + q51_tiles_program(self, rq, g, out),
                    GroupKind::Q4kRows => r matches Ok(MoeStep::Done { cmds }) && cmds@ == pre
                        + q4k_rows_program(self, rq, g, out),
                    GroupKind::Offsets => r matches Ok(MoeStep::ReadOffsets { cmds }) && cmds@
                        == pre + offsets_program(g, rq.spec_ne()),
                    GroupKind::Experts => r matches Ok(MoeStep::Done { cmds }) && cmds@ == pre + (
                    experts_program(
                        self.tuning,
                        expert_job(self, rq),
                        ranges_of(g.off@),
                        rq.spec_ne(),
                    ) + scatter_program(self, rq, g, out)),
                }
            },
        }
    }

    /// The next step of a prepared request.
    pub open spec fn prepared_step(&self, rq: MoeReq, r: Result<MoeStep, AccError>) -> bool {
        match self.spec_direct(rq) {
            Some(kind) => match (self.frames.spec_ptr(rq.ids), self.frames.spec_ptr(rq.out)) {
                (Err(e), _) => r matches Err(f) && f == e,
                (Ok(_), Err(e)) => r matches Err(f) && f == e,
                (Ok(ids), Ok(out)) => r matches Ok(MoeStep::Done { cmds }) && cmds@
                    == self.direct_program(rq, kind, ids, out),
            },
            None => if self.group_hit(rq) {
                r matches Ok(MoeStep::Run { cmds, then }) && cmds@ == Seq::<Cmd>::empty() && then
                    == MoeStage::Grouped
            } else {
                match self.frames.spec_ptr(rq.ids) {
                    Err(e) => r matches Err(f) && f == e,
                    Ok(ids) => if self.groups_on_device(rq) {
                        r matches Ok(MoeStep::Run { cmds, then }) && cmds@ == self.group_program(
                            rq,
                            ids,
                        ) && then == MoeStage::Grouped
                    } else {
                        r matches Ok(MoeStep::ReadIds { src, rows }) && src == ids && rows
                            == self.moe_rows(rq)
                    },
                }
            },
        }
    }

    /// Plans the next step of an expert product over routed rows.
    pub fn frame_moe_gemm(&self, rq: &MoeReq, stage: MoeStage) -> (r: Result<MoeStep, AccError>)
        requires
            self.moe_fits(*rq),
            self.tuning.usable(),
            stage != MoeStage::Start ==> self.moe_prepared(*rq),
            stage == MoeStage::Grouped ==> self.moe_ready(*rq),
        ensures
            match stage {
                MoeStage::Start => match (
                    self.frames.spec_ptr(rq.x),
                    self.frames.spec_ptr(rq.out),
                ) {
                    (Err(e), _) => r matches Err(f) && f == e,
                    (Ok(_), Err(e)) => r matches Err(f) && f == e,
                    (Ok(x), Ok(_)) => r matches Ok(MoeStep::Run { cmds, then }) && cmds@
                        == self.prepare_program(*rq, x) && then == MoeStage::Prepared,
                },
                MoeStage::Prepared => self.prepared_step(*rq, r),
                MoeStage::Grouped => self.moe_group matches Some(g) && self.grouped_step(
                    *rq,
                    g,
                    r,
                ),
            },
            match stage {
                MoeStage::Start => r matches Ok(MoeStep::Run { cmds, .. }) ==> prepares_rows(
                    *self,
                    *rq,
                    cmds@,
                ),
                MoeStage::Prepared => {
                    &&& r matches Ok(MoeStep::Done { cmds }) ==> serves_direct(*self, *rq, cmds@)
                    &&& !self.group_hit(*rq) ==> (r matches Ok(MoeStep::Run { cmds, .. })
                        ==> builds_tables(*self, *rq, cmds@))
                },
                MoeStage::Grouped => !self.tuning.skip_moe ==> (r matches Ok(MoeStep::Done { cmds })
                    ==> self.moe_group matches Some(g) && serves_rows(*self, *rq, g, cmds@)),
            },
    {
        match stage {
            MoeStage::Start => match self.moe_prepare(rq) {
                Ok(cmds) => Ok(MoeStep::Run { cmds, then: MoeStage::Prepared }),
                Err(e) => Err(e),
            },
            MoeStage::Prepared => match self.moe_route(rq) {
                Ok(MoeRoute::Direct(cmds)) => Ok(MoeStep::Done { cmds }),
                Ok(MoeRoute::Cached) => Ok(
                    MoeStep::Run { cmds: Vec::new(), then: MoeStage::Grouped },
                ),
                Ok(MoeRoute::OnDevice(cmds)) => Ok(
                    MoeStep::Run { cmds, then: MoeStage::Grouped },
                ),
                Ok(MoeRoute::OnHost) => match self.fptr(rq.ids) {
                    Ok(src) => Ok(MoeStep::ReadIds { src, rows: self.moe_row_count(rq) }),
                    Err(e) => Err(e),
                },
                Err(e) => Err(e),
            },
            MoeStage::Grouped => match &self.moe_group {
                Some(g) => self.run_grouped(rq, g),
                None => Err(AccError::UnsupportedOp),
            },
        }
    }

    fn run_grouped(&self, rq: &MoeReq, g: &MoeGroup) -> (r: Result<MoeStep, AccError>)
        requires
            self.moe_fits(*rq),
            self.tuning.usable(),
            self.moe_prepared(*rq),
            g.serves(self.moe_rows(*rq), rq.spec_ne()),
            g.has_offsets(self.moe_rows(*rq), rq.spec_ne()),
        ensures
            self.grouped_step(*rq, *g, r),
            !self.tuning.skip_moe ==> (r matches Ok(MoeStep::Done { cmds }) ==> serves_rows(
                *self,
                *rq,
                *g,
                cmds@,
            )),
    {
        match self.moe_grouped(rq, g) {
            Ok(MoeRun::Complete(cmds)) => Ok(MoeStep::Done { cmds }),
            Ok(MoeRun::NeedOffsets(cmds)) => Ok(MoeStep::ReadOffsets { cmds }),
            Ok(MoeRun::NeedExperts(pre)) => {
                let mut cmds = pre;
                let ranges = offset_ranges(&g.off);
                match self.moe_experts(rq, g, &ranges) {
                    Ok(rest) => {
                        let mut rest = rest;
                        cmds.append(&mut rest);
                        proof {
                            self.law_grouped_step_serves_every_row(*rq, *g, cmds@);
                        }
                        Ok(MoeStep::Done { cmds })
                    },
                    Err(e) => Err(e),
                }
            },
            Err(e) => Err(e),
        }
    }

    /// Builds the tables of a routing from its ids, and plans their upload. Once
    /// that has run, `tables_uploaded` takes note of them.
    pub fn moe_build(&self, rq: &MoeReq, ids: &[u32]) -> (r: (HostTables, Vec<Cmd>))
        requires
            self.moe_fits(*rq),
            ids@.len() == self.moe_rows(*rq),
        ensures
            r.0.tables(ids@, rq.spec_ne()),
            r.1@ == tables_program(ids@.len() as int, r.0.padded.rows_pad as int),
            brings_tables(r.0, ids@, rq.spec_ne(), r.1@),
    {
        let ne: usize = rq.ne();
        let t = build_tables(ids, ne);
        proof {
            crate::group_laws::law_padding_bound(ids@, ne as int);
            law_uploaded_tables_route_every_row(t, ids@, ne as int);
        }
        let cmds = upload_tables(ids.len(), t.padded.rows_pad);
        (t, cmds)
    }

    /// The ranges that the offsets of the device stand for.
    pub open spec fn finish_ranges(&self, rq: MoeReq, g: MoeGroup, b: Seq<i32>) -> Seq<Range> {
        let (off, ne) = (device_offsets(b), rq.spec_ne());
        if pad_layout(self, g) {
            Seq::new(
                ne as nat,
                |e: int|
                    Range {
                        start: padded_starts(off, e) as usize,
                        len: count_between(off, e) as usize,
                    },
            )
        } else {
            ranges_of(plain_off(b, ne))
        }
    }

    /// The offsets of the device describe rows inside the buffers.
    pub open spec fn offsets_usable(&self, rq: MoeReq, g: MoeGroup, b: Seq<i32>) -> bool {
        let ne = rq.spec_ne();
        &&& b.len() == ne + 2
        &&& device_offsets(b)[ne + 1] <= self.moe_bound(rq) ==> {
            if pad_layout(self, g) {
                forall|e: int|
                    0 <= e < ne ==> #[trigger] padded_starts(device_offsets(b), e) + count_between(
                        device_offsets(b),
                        e,
                    ) <= self.moe_bound(rq)
            } else {
                &&& ascending(plain_off(b, ne))
                &&& ranges_within(self.finish_ranges(rq, g, b), self.moe_bound(rq))
            }
        }
    }

    /// Whether the offsets of the device describe rows inside the buffers.
    pub fn are_offsets_usable(&self, rq: &MoeReq, b: &Vec<i32>) -> (r: bool)
        requires
            self.moe_fits(*rq),
        ensures
            r == (self.moe_group matches Some(g) && self.offsets_usable(*rq, g, b@)),
    {
        let ne: usize = rq.ne();
        let bound: usize = self.moe_row_count(rq) + 16 * ne;
        match &self.moe_group {
            Some(g) => {
                if b.len() != ne + 2 {
                    return false;
                }
                if g.rows_pad_d != Ptr::Null && self.t_cur() > 1 {
                    return match padded_ranges(b, ne, bound) {
                        Ok(v) => {
                            let fit = ranges_fit(&v, bound);
                            proof {
                                let off = device_offsets(b@);
                                if fit {
                                    assert forall|e: int| 0 <= e < ne implies #[trigger] padded_starts(
                                        off,
                                        e,
                                    ) + count_between(off, e) <= bound by {
                                        assert(v@[e].start == padded_starts(off, e));
                                    }
                                } else {
                                    let e = choose|e: int|
                                        0 <= e < v@.len() && (#[trigger] v@[e]).start + v@[e].len
                                            > bound;
                                    assert(padded_starts(off, e) + count_between(off, e) > bound);
                                }
                            }
                            fit
                        },
                        Err(AccError::MoeStart { expert, .. }) => {
                            assert(padded_starts(device_offsets(b@), expert as int) > bound);
                            false
                        },
                        Err(_) => true,
                    };
                }
                match plain_offsets(b, ne, bound) {
                    Ok(off) => {
                        assert(off@ =~= plain_off(b@, ne as int));
                        is_ascending(&off) && ranges_fit(&offset_ranges(&off), bound)
                    },
                    Err(_) => true,
                }
            },
            None => false,
        }
    }

    proof fn lemma_padded_ranges(&self, rq: MoeReq, g: MoeGroup, b: Seq<i32>, v: Seq<Range>)
        requires
            pad_layout(self, g),
            v.len() == rq.spec_ne(),
            forall|e: int|
                0 <= e < v.len() ==> (#[trigger] v[e]).start == padded_starts(
                    device_offsets(b),
                    e,
                ) && v[e].len == count_between(device_offsets(b), e),
        ensures
            v == self.finish_ranges(rq, g, b),
    {
        let w = self.finish_ranges(rq, g, b);
        assert forall|e: int| 0 <= e < v.len() implies v[e] == w[e] by {
            assert(v[e].start == padded_starts(device_offsets(b), e));
        }
        assert(v =~= w);
    }

    /// Plans the rest of a request from the offsets that the device computed. More
    /// padded rows than the buffers hold are refused.
    pub fn moe_finish(&self, rq: &MoeReq, b: &Vec<i32>) -> (r: Result<Vec<Cmd>, AccError>)
        requires
            self.moe_fits(*rq),
            self.moe_prepared(*rq),
            self.tuning.usable(),
            self.moe_group matches Some(g) && self.offsets_usable(*rq, g, b@),
        ensures
            self.moe_group matches Some(g) && {
                let ne = rq.spec_ne();
                let pad = device_offsets(b@)[ne + 1];
                if pad > self.moe_bound(*rq) {
                    r == Err::<Vec<Cmd>, AccError>(
                        AccError::MoeBound {
                            rows_pad: pad as usize,
                            bound: self.moe_bound(*rq) as usize,
                            ne: ne as usize,
                        },
                    )
                } else {
                    match self.frames.spec_ptr(rq.out) {
                        Err(e) => r matches Err(f) && f == e,
                        Ok(out) => r matches Ok(c) && c@ == experts_program(
                            self.tuning,
                            expert_job(self, *rq),
                            self.finish_ranges(*rq, g, b@),
                            ne,
                        ) + scatter_program(self, *rq, g, out),
                    }
                }
            },
            r matches Ok(c) ==> self.moe_group matches Some(g) && finishes_rows(
                *self,
                *rq,
                g,
                b@,
                c@,
            ),
    {
        let ne: usize = rq.ne();
        let bound: usize = self.moe_row_count(rq) + 16 * ne;
        match &self.moe_group {
            Some(g) => {
                proof {
                    self.law_finish_serves_every_row(*rq, *g, b@);
                }
                if g.rows_pad_d != Ptr::Null && self.t_cur() > 1 {
                    return match padded_ranges(b, ne, bound) {
                        Ok(v) => {
                            proof {
                                self.lemma_padded_ranges(*rq, *g, b@, v@);
                                assert forall|e: int| 0 <= e < v@.len() implies (
                                #[trigger] v@[e]).start + v@[e].len <= bound by {
                                    assert(padded_starts(device_offsets(b@), e) == v@[e].start);
                                }
                            }
                            self.moe_experts(rq, g, &v)
                        },
                        Err(e) => {
                            proof {
                                if let AccError::MoeStart { expert, .. } = e {
                                    assert(padded_starts(device_offsets(b@), expert as int)
                                        > bound);
                                }
                            }
                            Err(e)
                        },
                    };
                }
                match plain_offsets(b, ne, bound) {
                    Ok(off) => {
                        assert(off@ =~= plain_off(b@, ne as int));
                        let v = offset_ranges(&off);
                        self.moe_experts(rq, g, &v)
                    },
                    Err(e) => Err(e),
                }
            },
            None => Err(AccError::UnsupportedOp),
        }
    }
}

/// The offsets of the layout without padding.
pub open spec fn plain_off(b: Seq<i32>, ne: int) -> Seq<usize> {
    Seq::new((ne + 1) as nat, |e: int| device_offsets(b)[e] as usize)
}

/// Quantising the rows of a request prepares it.
pub proof fn law_quantised_request_is_prepared(acc: Q4Acc, after: Q4Acc, rq: MoeReq, x: Ptr)
    requires
        acc.moe_fits(rq),
        acc.frames.spec_ptr(rq.x) == Ok::<Ptr, AccError>(x),
        after.remembers(
            &acc,
            Mark::Quantised {
                x,
                rows: acc.moe_rows(rq) as usize,
                generation: acc.moe_gen,
                xq_w: spec_xq_words(rq.w.n_in as int) as usize,
            },
        ),
    ensures
        after.moe_prepared(rq),
{
    assert(acc.moe_rows(rq) >= 1) by (nonlinear_arith)
        requires
            acc.moe_rows(rq) == acc.spec_t() * vstd::math::max(rq.k_sel as int, 1),
            acc.spec_t() >= 1,
            vstd::math::max(rq.k_sel as int, 1) >= 1,
    ;
}

/// Tables that the device built serve the request that they were built for.
pub proof fn law_device_tables_are_ready(acc: Q4Acc, after: Q4Acc, rq: MoeReq, pinned: bool)
    requires
        acc.moe_fits(rq),
        after.remembers(
            &acc,
            Mark::GroupedOnDevice {
                generation: acc.moe_gen,
                rows: acc.moe_rows(rq) as usize,
                bound: acc.moe_bound(rq) as usize,
                ne: rq.spec_ne() as usize,
                pinned,
            },
        ),
    ensures
        after.moe_ready(rq),
{
    assert(acc.moe_rows(rq) >= 1) by (nonlinear_arith)
        requires
            acc.moe_rows(rq) == acc.spec_t() * vstd::math::max(rq.k_sel as int, 1),
            acc.spec_t() >= 1,
            vstd::math::max(rq.k_sel as int, 1) >= 1,
    ;
}

/// Tables that the host built serve the request that they were built for.
pub proof fn law_host_tables_are_ready(
    acc: Q4Acc,
    after: Q4Acc,
    rq: MoeReq,
    ids: Seq<u32>,
    t: HostTables,
    g: MoeGroup,
)
    requires
        acc.moe_fits(rq),
        ids.len() == acc.moe_rows(rq),
        t.tables(ids, rq.spec_ne()),
        after == (Q4Acc { moe_group: Some(g), ..acc }),
        g.generation == acc.moe_gen,
        g.rows == ids.len(),
        g.rows_pad == t.padded.rows_pad,
        g.off == t.groups.off,
    ensures
        after.moe_ready(rq),
{
    let ne = rq.spec_ne();
    crate::group_laws::law_padding_bound(ids, ne);
    crate::experts::law_expert_ranges_partition(ids, ne, t.groups);
}

} // verus!
