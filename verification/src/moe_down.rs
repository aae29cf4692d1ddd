//! Expert products over rows that come from the host.

use vstd::prelude::*;
use crate::acc::Q4Acc;
use crate::arith::max_usize;
use crate::device::{buf, spec_buf, Cmd, Host, Slot};
use crate::error::AccError;
use crate::experts::{
    experts_program, law_expert_ranges_partition, offset_ranges, permute_program, ranges_of,
    rows_permute_dev, run_experts, ExpertJob,
};
use crate::frame_mm::{spec_wptr, wptr};
use crate::ggml::{ggml_id, spec_ggml_id, spec_xq_words, xq_words};
use crate::group::{group_rows, ExpertGroups};
use crate::host_laws::{law_moe_down_returns_every_product, returns_grouped};
use crate::upload::{device_len, uploaded_len, Weight};
use crate::value::{prepare_x, row_error, upload_rows};

verus! {

/// A planned request: its commands, and the grouping whose permutation they
/// upload and by whose inverse the results return to their rows.
pub struct MoeDown {
    pub cmds: Vec<Cmd>,
    pub groups: ExpertGroups,
}

/// Experts in the stack, outputs of one expert, and its bytes on the device.
pub open spec fn stack_of(w: Weight, n_expert: usize) -> (int, int, int) {
    let ne = vstd::math::max(n_expert as int, 1);
    (ne, w.n_out as int / ne, uploaded_len(w) / ne)
}

/// Sizes of a request of `t` rows can be counted.
pub open spec fn moe_down_fits(w: Weight, n_expert: usize, t: int) -> bool {
    let (ne, n_out, _) = stack_of(w, n_expert);
    &&& t <= u32::MAX
    &&& w.len <= usize::MAX / 2
    &&& ne < usize::MAX
    &&& t * w.n_in * 4 <= usize::MAX
    &&& t * spec_xq_words(w.n_in as int) * 4 <= usize::MAX
    &&& t * n_out * 4 <= usize::MAX
    &&& t * 4 <= usize::MAX
    &&& n_out * 512 <= usize::MAX
    &&& (w.n_in / 32) * 384 <= usize::MAX
}

impl Q4Acc {
    /// The products of a request, expert by expert.
    pub open spec fn down_job(&self, w: Weight, n_expert: usize) -> ExpertJob {
        let f = self.weight_f32(w);
        let xq_w = if f {
            0
        } else {
            spec_xq_words(w.n_in as int)
        };
        ExpertJob {
            f32w: f,
            ty: spec_ggml_id(w.ty),
            x: spec_buf(Slot::Xperm),
            w: spec_wptr(w),
            y: spec_buf(Slot::Yf),
            n_in: w.n_in,
            n_out: stack_of(w, n_expert).1 as usize,
            xq_w: xq_w as usize,
            row_words: if f {
                w.n_in
            } else {
                xq_w as usize
            },
            per_expert: stack_of(w, n_expert).2 as usize,
        }
    }

    /// The program of a request: upload, gather by expert, one product per
    /// expert, and the results in grouped order.
    pub open spec fn down_program(&self, w: Weight, n_expert: usize, t: int, off: Seq<usize>) -> Seq<
        Cmd,
    > {
        let f = self.weight_f32(w);
        let job = self.down_job(w, n_expert);
        let bytes = (t * job.n_out * 4) as usize;
        let gather = permute_program(
            spec_buf(
                if f {
                    Slot::Xf
                } else {
                    Slot::Xq
                },
            ),
            spec_buf(Slot::Rperm),
            spec_buf(Slot::Xperm),
            job.row_words,
            t as usize,
        );
        seq![Cmd::Weight { key: w.key }] + upload_rows(t, w.n_in, f) + seq![
            Cmd::Ensure { slot: Slot::Yf, bytes },
            Cmd::Ensure { slot: Slot::Xperm, bytes: (t * job.row_words * 4) as usize },
        ] + (if gather.len() == 0 {
            Seq::empty()
        } else {
            seq![
                Cmd::Ensure { slot: Slot::Rperm, bytes: (t * 4) as usize },
                Cmd::H2d {
                    dst: spec_buf(Slot::Rperm),
                    src: Host::Perm,
                    bytes: (t * 4) as usize,
                },
            ] + gather
        }) + experts_program(self.tuning, job, ranges_of(off), off.len() - 1) + seq![
            Cmd::D2h { dst: Host::Y, src: spec_buf(Slot::Yf), bytes },
        ]
    }

    /// Plans one product per row, each with the expert that its id names.
    pub fn moe_down(
        &self,
        xs: &Vec<Vec<u32>>,
        w: &Weight,
        ids: &Vec<u32>,
        n_expert: usize,
        outs: usize,
    ) -> (r: Result<Option<MoeDown>, AccError>)
        requires
            self.tuning.usable(),
            moe_down_fits(*w, n_expert, xs@.len() as int),
        ensures
            if xs@.len() != ids@.len() || xs@.len() != outs {
                r == Err::<Option<MoeDown>, AccError>(
                    AccError::MoeDownLength {
                        xs: xs@.len() as usize,
                        ids: ids@.len() as usize,
                        outs,
                    },
                )
            } else if xs@.len() == 0 {
                r matches Ok(None)
            } else {
                match row_error(xs@, w.n_in) {
                    Some(e) => r matches Err(f) && f == e,
                    None => r matches Ok(Some(m)) && m.groups.groups(
                        ids@,
                        stack_of(*w, n_expert).0,
                    ) && m.cmds@ == self.down_program(
                        *w,
                        n_expert,
                        xs@.len() as int,
                        m.groups.off@,
                    ),
                }
            },
            r matches Ok(Some(m)) ==> returns_grouped(
                *self,
                *w,
                n_expert,
                ids@,
                m.groups,
                m.cmds@,
            ),
    {
        let t: usize = xs.len();
        if t != ids.len() || t != outs {
            return Err(AccError::MoeDownLength { xs: t, ids: ids.len(), outs });
        }
        if t == 0 {
            return Ok(None);
        }
        match crate::value::check_rows(xs, w.n_in) {
            Ok(()) => {},
            Err(e) => {
                return Err(e);
            },
        }
        let ne: usize = max_usize(n_expert, 1);
        let f = self.is_f32(w);
        let xq_w: usize = if f {
            0
        } else {
            xq_words(w.n_in)
        };
        let job = ExpertJob {
            f32w: f,
            ty: ggml_id(w.ty),
            x: buf(Slot::Xperm),
            w: wptr(w),
            y: buf(Slot::Yf),
            n_in: w.n_in,
            n_out: w.n_out / ne,
            xq_w,
            row_words: if f {
                w.n_in
            } else {
                xq_w
            },
            per_expert: device_len(w) / ne,
        };
        assert(job == self.down_job(*w, n_expert));
        let groups = group_rows(ids.as_slice(), ne);
        proof {
            law_expert_ranges_partition(ids@, ne as int, groups);
            let (tt, no, rw, pe) = (t as int, job.n_out as int, job.row_words as int, job.per_expert as int);
            assert(tt * no <= tt * no * 4 && tt * rw <= tt * rw * 4 && 0 <= tt * no && 0 <= tt * rw)
                by (nonlinear_arith)
                requires
                    0 <= tt,
                    0 <= no,
                    0 <= rw,
            ;
            let len = uploaded_len(*w);
            assert(ne * pe <= len) by (nonlinear_arith)
                requires
                    ne >= 1,
                    pe == len / ne as int,
            ;
            assert(job.fits(tt, ne as int));
        }
        let ranges = offset_ranges(&groups.off);
        let bytes: usize = t * job.n_out * 4;
        let mut r: Vec<Cmd> = vec![Cmd::Weight { key: w.key }];
        let mut p = prepare_x(t, w.n_in, f);
        r.append(&mut p);
        r.push(Cmd::Ensure { slot: Slot::Yf, bytes });
        r.push(Cmd::Ensure { slot: Slot::Xperm, bytes: t * job.row_words * 4 });
        let src = buf(
            if f {
                Slot::Xf
            } else {
                Slot::Xq
            },
        );
        let mut g = rows_permute_dev(src, buf(Slot::Rperm), buf(Slot::Xperm), job.row_words, t);
        if g.len() != 0 {
            r.push(Cmd::Ensure { slot: Slot::Rperm, bytes: t * 4 });
            r.push(Cmd::H2d { dst: buf(Slot::Rperm), src: Host::Perm, bytes: t * 4 });
            r.append(&mut g);
        }
        let mut c = run_experts(&self.tuning, job, &ranges, t);
        r.append(&mut c);
        r.push(Cmd::D2h { dst: Host::Y, src: buf(Slot::Yf), bytes });
        assert(r@ =~= self.down_program(*w, n_expert, t as int, groups.off@));
        proof {
            law_moe_down_returns_every_product(*self, *w, n_expert, ids@, groups);
        }
        Ok(Some(MoeDown { cmds: r, groups }))
    }
}

fn copy_row(row: &Vec<u32>) -> (r: Vec<u32>)
    ensures
        r@ == row@,
{
    let mut r: Vec<u32> = Vec::new();
    r.extend_from_slice(row.as_slice());
    assert(r@ =~= row@);
    r
}

/// Puts grouped result rows back in the order of the requests: row `perm[g]` is
/// the grouped row `g`.
pub fn ungroup_rows(rows: &Vec<Vec<u32>>, groups: &ExpertGroups) -> (r: Vec<Vec<u32>>)
    requires
        groups.undoes(rows@.len() as int),
    ensures
        r@.len() == rows@.len(),
        forall|g: int|
            0 <= g < rows@.len() ==> r@[groups.perm@[g] as int]@ == (#[trigger] rows@[g])@,
{
    let mut r: Vec<Vec<u32>> = Vec::new();
    let mut i: usize = 0;
    while i < rows.len()
        invariant
            i <= rows@.len(),
            rows@.len() == groups.inv@.len(),
            r@.len() == i,
            forall|k: int| 0 <= k < rows@.len() ==> (#[trigger] groups.inv@[k]) < rows@.len(),
            forall|k: int|
                0 <= k < i ==> (#[trigger] r@[k])@ == rows@[groups.inv@[k] as int]@,
        decreases rows@.len() - i,
    {
        let g: usize = groups.inv[i] as usize;
        r.push(copy_row(&rows[g]));
        i = i + 1;
    }
    assert forall|g: int| 0 <= g < rows@.len() implies r@[groups.perm@[g] as int]@ == (
    #[trigger] rows@[g])@ by {
        assert(groups.perm@[g] < rows@.len());
    }
    r
}

} // verus!
