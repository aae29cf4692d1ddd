//! One product per expert over grouped rows.

use vstd::prelude::*;
use crate::device::{launch, spec_launch, Cmd, MatMul, Ptr};
use crate::gemm::{gemm_f32_launch, gemm_program, launch_gemm, launch_gemm_f32};
use crate::group::{group_off, ExpertGroups};
use crate::kernels::Call;
use crate::tuning::Tuning;

verus! {

/// The grouped rows of one expert.
#[derive(Clone, Copy, PartialEq, Eq, Structural, Debug)]
pub struct Range {
    pub start: usize,
    pub len: usize,
}

/// The products of all experts of a layer: grouped activations, the stack of
/// expert weights, and where the results go.
#[derive(Clone, Copy, PartialEq, Eq, Structural, Debug)]
pub struct ExpertJob {
    pub f32w: bool,
    pub ty: u32,
    pub x: Ptr,
    pub w: Ptr,
    pub y: Ptr,
    pub n_in: usize,
    pub n_out: usize,
    pub xq_w: usize,
    /// Words per grouped row.
    pub row_words: usize,
    /// Bytes per expert in the stack.
    pub per_expert: usize,
}

impl ExpertJob {
    /// Sizes and addresses over `rows` rows and `ne` experts can be counted.
    pub open spec fn fits(&self, rows: int, ne: int) -> bool {
        &&& self.row_words >= self.xq_w
        &&& self.x.offset() + rows * self.row_words * 4 <= usize::MAX
        &&& self.y.offset() + rows * self.n_out * 4 <= usize::MAX
        &&& self.w.offset() + ne * self.per_expert <= usize::MAX
        &&& self.n_out * 512 <= usize::MAX
        &&& (self.n_in / 32) * 384 <= usize::MAX
    }
}

/// The product of expert `e` over its rows; an expert without rows has none.
pub open spec fn expert_cmds(tun: Tuning, job: ExpertJob, e: int, r: Range) -> Seq<Cmd> {
    let x = job.x.spec_at(r.start * job.row_words * 4);
    let w = job.w.spec_at(e * job.per_expert);
    let y = job.y.spec_at(r.start * job.n_out * 4);
    if r.len == 0 {
        Seq::empty()
    } else if job.f32w {
        seq![gemm_f32_launch(x, w, job.n_in, job.n_out, r.len, y)]
    } else {
        gemm_program(
            tun,
            MatMul {
                ty: job.ty,
                x,
                w,
                n_in: job.n_in,
                n_out: job.n_out,
                xq_w: job.xq_w,
                t: r.len,
                out: y,
            },
        )
    }
}

/// The products of the first `n` experts.
pub open spec fn experts_program(tun: Tuning, job: ExpertJob, ranges: Seq<Range>, n: int) -> Seq<
    Cmd,
>
    decreases n,
{
    if n <= 0 {
        Seq::empty()
    } else {
        experts_program(tun, job, ranges, n - 1) + expert_cmds(tun, job, n - 1, ranges[n - 1])
    }
}

/// Every range ends by row `rows`.
pub open spec fn ranges_within(ranges: Seq<Range>, rows: int) -> bool {
    forall|e: int|
        0 <= e < ranges.len() ==> (#[trigger] ranges[e]).start + ranges[e].len <= rows
}

/// Whether every range ends by row `rows`.
pub fn ranges_fit(ranges: &Vec<Range>, rows: usize) -> (r: bool)
    ensures
        r == ranges_within(ranges@, rows as int),
{
    let mut e: usize = 0;
    while e < ranges.len()
        invariant
            e <= ranges@.len(),
            forall|f: int|
                0 <= f < e ==> (#[trigger] ranges@[f]).start + ranges@[f].len <= rows,
        decreases ranges@.len() - e,
    {
        let g = ranges[e];
        if g.start > rows || g.len > rows - g.start {
            assert(ranges@[e as int].start + ranges@[e as int].len > rows);
            return false;
        }
        e = e + 1;
    }
    true
}

/// Plans one product per expert that has rows.
pub fn run_experts(tun: &Tuning, job: ExpertJob, ranges: &Vec<Range>, rows: usize) -> (r: Vec<Cmd>)
    requires
        tun.usable(),
        job.fits(rows as int, ranges@.len() as int),
        ranges_within(ranges@, rows as int),
    ensures
        r@ == experts_program(*tun, job, ranges@, ranges@.len() as int),
{
    let mut r: Vec<Cmd> = Vec::new();
    let ne: usize = ranges.len();
    let mut e: usize = 0;
    while e < ne
        invariant
            tun.usable(),
            ne == ranges@.len(),
            job.fits(rows as int, ne as int),
            ranges_within(ranges@, rows as int),
            e <= ne,
            r@ == experts_program(*tun, job, ranges@, e as int),
        decreases ne - e,
    {
        let g = ranges[e];
        let ghost r0 = r@;
        if g.len != 0 {
            proof {
                let (s, rw, no, pe) = (g.start as int, job.row_words as int, job.n_out as int, job.per_expert as int);
                let n = rows as int;
                let l = g.len as int;
                let xw = job.xq_w as int;
                assert(s * rw * 4 + l * xw * 4 <= n * rw * 4) by (nonlinear_arith)
                    requires
                        0 <= s,
                        0 <= l,
                        s + l <= n,
                        0 <= xw <= rw,
                ;
                assert(s * no * 4 + l * no * 4 <= n * no * 4) by (nonlinear_arith)
                    requires
                        0 <= s,
                        0 <= l,
                        s + l <= n,
                        0 <= no,
                ;
                assert(0 <= s * rw && 0 <= l * xw && 0 <= s * no && 0 <= l * no) by (nonlinear_arith)
                    requires
                        0 <= s,
                        0 <= l,
                        0 <= xw,
                        0 <= rw,
                        0 <= no,
                ;
                assert(0 <= e * pe <= ne * pe) by (nonlinear_arith)
                    requires
                        0 <= e <= ne,
                        0 <= pe,
                ;
            }
            let x = job.x.at(g.start * job.row_words * 4);
            let w = job.w.at(e * job.per_expert);
            let y = job.y.at(g.start * job.n_out * 4);
            if job.f32w {
                r.push(launch_gemm_f32(x, w, job.n_in, job.n_out, g.len, y));
            } else {
                let m = MatMul {
                    ty: job.ty,
                    x,
                    w,
                    n_in: job.n_in,
                    n_out: job.n_out,
                    xq_w: job.xq_w,
                    t: g.len,
                    out: y,
                };
                proof {
                    lemma_at_offset(job.x, g.start * job.row_words * 4);
                    lemma_at_offset(job.y, g.start * job.n_out * 4);
                }
                let mut cmds = launch_gemm(tun, m);
                r.append(&mut cmds);
            }
        }
        proof {
            assert(r@ =~= r0 + expert_cmds(*tun, job, e as int, g));
        }
        e = e + 1;
    }
    r
}

/// Where the offset of a moved pointer stands.
pub proof fn lemma_at_offset(p: Ptr, n: int)
    requires
        0 <= n,
        p.offset() + n <= usize::MAX,
    ensures
        p.spec_at(n).offset() <= p.offset() + n,
{
}

/// The ranges between neighbouring offsets.
pub open spec fn ranges_of(off: Seq<usize>) -> Seq<Range> {
    Seq::new(
        (off.len() - 1) as nat,
        |e: int| Range { start: off[e], len: (off[e + 1] - off[e]) as usize },
    )
}

/// Offsets that never fall.
pub open spec fn ascending(off: Seq<usize>) -> bool {
    forall|e: int| 0 <= e < off.len() - 1 ==> (#[trigger] off[e]) <= off[e + 1]
}

/// Whether offsets never fall.
pub fn is_ascending(off: &Vec<usize>) -> (r: bool)
    ensures
        r == ascending(off@),
{
    if off.len() == 0 {
        return true;
    }
    let mut e: usize = 0;
    while e < off.len() - 1
        invariant
            0 < off@.len(),
            e <= off@.len() - 1,
            forall|f: int| 0 <= f < e ==> (#[trigger] off@[f]) <= off@[f + 1],
        decreases off@.len() - e,
    {
        if off[e] > off[e + 1] {
            assert(!(off@[e as int] <= off@[e + 1]));
            return false;
        }
        e = e + 1;
    }
    true
}

/// The ranges of the experts between ascending offsets.
pub fn offset_ranges(off: &Vec<usize>) -> (r: Vec<Range>)
    requires
        off@.len() >= 1,
        ascending(off@),
    ensures
        r@ == ranges_of(off@),
{
    let mut r: Vec<Range> = Vec::new();
    let ne: usize = off.len() - 1;
    let mut e: usize = 0;
    while e < ne
        invariant
            ne + 1 == off@.len(),
            ascending(off@),
            e <= ne,
            r@ == ranges_of(off@).take(e as int),
        decreases ne - e,
    {
        assert(off@[e as int] <= off@[e + 1]);
        r.push(Range { start: off[e], len: off[e + 1] - off[e] });
        proof {
            assert(r@ =~= ranges_of(off@).take(e + 1));
        }
        e = e + 1;
    }
    assert(ranges_of(off@).take(ne as int) =~= ranges_of(off@));
    r
}

/// The ranges of a host grouping are ascending and end with the last row, so
/// that every row is multiplied exactly once.
pub proof fn law_expert_ranges_partition(ids: Seq<u32>, ne: int, g: ExpertGroups)
    requires
        ne >= 1,
        g.groups(ids, ne),
    ensures
        ascending(g.off@),
        ranges_within(ranges_of(g.off@), ids.len() as int),
        forall|e: int|
            0 <= e < ne - 1 ==> (#[trigger] ranges_of(g.off@)[e]).start + ranges_of(
                g.off@,
            )[e].len == ranges_of(g.off@)[e + 1].start,
        ranges_of(g.off@)[0].start == 0,
        ranges_of(g.off@)[ne - 1].start + ranges_of(g.off@)[ne - 1].len == ids.len(),
{
    crate::group::lemma_off_total(ids, ne);
    assert forall|e: int| 0 <= e < g.off@.len() - 1 implies (#[trigger] g.off@[e]) <= g.off@[e + 1]
        && g.off@[e + 1] <= ids.len() by {
        crate::group::lemma_off_mono(ids, ne, e, e + 1);
        crate::group::lemma_off_mono(ids, ne, e + 1, ne);
        assert(g.off@[e + 1] == group_off(ids, ne, e + 1));
    }
    assert(g.off@[0] == group_off(ids, ne, 0));
    assert(g.off@[ne] == group_off(ids, ne, ne));
    let r = ranges_of(g.off@);
    assert forall|e: int| 0 <= e < ne implies (#[trigger] r[e]).start + r[e].len <= ids.len() && r[e].start + r[e].len == g.off@[e + 1] by {
        assert(g.off@[e] <= g.off@[e + 1]);
    }
}

/// The launch that copies rows by a table; over no rows or empty rows there is
/// none.
pub open spec fn permute_program(src: Ptr, perm: Ptr, dst: Ptr, row_words: usize, n: usize) -> Seq<
    Cmd,
> {
    if n == 0 || row_words == 0 {
        Seq::empty()
    } else {
        seq![
            spec_launch(
                Call::RowsPermute { src, perm, dst, row_words: row_words as i32, n: n as i32 },
                n as u32,
                1,
                1,
                128,
            ),
        ]
    }
}

/// Plans a copy of rows by a table on the device.
pub fn rows_permute_dev(src: Ptr, perm: Ptr, dst: Ptr, row_words: usize, n: usize) -> (r: Vec<Cmd>)
    ensures
        r@ == permute_program(src, perm, dst, row_words, n),
{
    if n == 0 || row_words == 0 {
        return Vec::new();
    }
    vec![
        launch(
            Call::RowsPermute { src, perm, dst, row_words: row_words as i32, n: n as i32 },
            n as u32,
            1,
            1,
            128,
        ),
    ]
}

} // verus!
