//! However an expert product runs, every routed row gets the product with its own expert.

use vstd::prelude::*;
use crate::acc::{MoeGroup, Q4Acc};
use crate::arith::lemma_ceil_div;
use crate::device::{spec_buf, Cmd, Ptr, Slot};
use crate::expert_runs::{
    can_serve, expert_at, expert_row, is_job, leaves_row, lemma_experts, lemma_gather, lemma_moved,
    lemma_gathered, lemma_place, lemma_scatter, lemma_scattered, lemma_sizes, moved, place,
    ranges_ascend, row_routed, source, source_len, tables_in,
};
use crate::experts::{experts_program, permute_program, ranges_of, Range};
use crate::gemm::GRID_Y;
use crate::ggml::{spec_xq_words, GgmlType};
use crate::group::{
    count_of, expert_of, group_off, lemma_count_bounds, lemma_off_mono, lemma_off_total,
    lemma_rank_in_group, pad_off, pad_rank,
};
use crate::kernel_effects::{entry, expert_rows, none, word_at, Op};
use crate::memory::{distance, written};
use crate::moe::{Direct, MoeReq};
use crate::moe_grouped::{
    count_between, device_offsets, expert_job, gather_program, law_padded_ranges_match_tables,
    pad_layout, padded_starts, q4k_rows_program, q51_ids_program, q51_tiles_program,
    scatter_program, spec_group_kind, GroupKind,
};
use crate::moe_steps::plain_off;
use crate::op_laws::{frame, lemma_in_row, lemma_one_command};
use crate::product_runs::{lemma_ran_behind, performed, ran, row_at, Kernels};
use crate::recurrence_laws::bytes_at;

verus! {

/// The tables are in memory of their own. Tables that the host built come with their
/// offsets.
pub open spec fn is_consistent(g: MoeGroup) -> bool {
    &&& g.perm is Dev
    &&& g.inv is Dev
    &&& g.rowexp is Dev
    &&& g.perm_pad is Dev
    &&& g.inv_pad is Dev
    &&& g.tilexp is Dev
    &&& g.rows_pad_d == Ptr::Null || g.rows_pad_d is Dev
    &&& g.off@.len() != 0 ==> g.rows_pad_d == Ptr::Null
}

/// What the kernels of a weight's type ask for beyond plain sizes: a q5_1 expert is whole
/// words, and its outputs and tiles fit one dimension of the grid and shared memory. The
/// q4_K kernel over rows finds the experts in the layout in which it finds the rows.
pub open spec fn suits_kernels(acc: Q4Acc, rq: MoeReq, g: MoeGroup) -> bool {
    &&& rq.w.ty == GgmlType::Q5_1 ==> {
        &&& rq.spec_per_expert() % 4 == 0
        &&& rq.spec_n_out() <= 16 * GRID_Y
        &&& (rq.w.n_in / 32) * 384 <= u32::MAX
    }
    &&& rq.w.ty == GgmlType::Q4K ==> g.rows_pad_d == Ptr::Null || acc.spec_t() > 1
    &&& has_own_id(rq)
}

/// A further type has an id of its own.
pub open spec fn has_own_id(rq: MoeReq) -> bool {
    rq.w.ty matches GgmlType::Other(id) ==> id != 7 && id != 12
}

/// The ids of the rows are in their frame, each of an expert of the stack.
pub open spec fn ids_in(acc: Q4Acc, rq: MoeReq, m: spec_fn(Ptr) -> u8, ids: Seq<u32>) -> bool {
    forall|i: int|
        0 <= i < ids.len() ==> #[trigger] entry(m, frame(acc, rq.ids), i) == ids[i] && ids[i]
            < rq.spec_ne()
}

/// The routing that a program is to serve is that of its tables. (For one token the q5_1
/// kernel reads the ids instead.)
pub open spec fn is_routing(
    acc: Q4Acc,
    rq: MoeReq,
    g: MoeGroup,
    m: spec_fn(Ptr) -> u8,
    ids: Seq<u32>,
) -> bool {
    let ne = rq.spec_ne();
    &&& ids.len() == acc.moe_rows(rq)
    &&& tables_in(m, g, ids, ne)
    &&& g.off@.len() != 0 ==> g.off@.len() == ne + 1 && forall|e: int|
        0 <= e <= ne ==> #[trigger] g.off@[e] == group_off(ids, ne, e)
    &&& acc.spec_t() == 1 && rq.w.ty == GgmlType::Q5_1 ==> ids_in(acc, rq, m, ids)
}

/// Whatever the kernels compute, the program leaves for every routed row the product of
/// the row with the expert that its id names.
pub open spec fn serves_rows(acc: Q4Acc, rq: MoeReq, g: MoeGroup, c: Seq<Cmd>) -> bool {
    can_serve(acc, rq) && is_consistent(g) && suits_kernels(acc, rq, g) ==> forall|
        k: Kernels,
        m: spec_fn(Ptr) -> u8,
        ok: spec_fn(int) -> bool,
        ids: Seq<u32>,
        i: int,
        b: int,
    |
        is_routing(acc, rq, g, m, ids) ==> #[trigger] leaves_row(
            acc,
            rq,
            k,
            m,
            ran(k, m, c, ok, 0),
            ids,
            i,
            b,
        )
}

/// The products of the weight go expert by expert: the type has no kernel of its own over
/// the tables.
pub open spec fn goes_by_expert(acc: Q4Acc, rq: MoeReq) -> bool {
    acc.weight_f32(rq.w) || rq.w.ty != GgmlType::Q5_1 && rq.w.ty != GgmlType::Q4K
}

/// Two memories that agree on the tables hold the same tables.
proof fn lemma_tables_kept(m: spec_fn(Ptr) -> u8, n: spec_fn(Ptr) -> u8, table: Ptr, i: int)
    requires
        table is Dev || table == Ptr::Null,
        forall|p: Ptr| p is Dev || p is Null ==> #[trigger] n(p) == m(p),
    ensures
        entry(n, table, i) == entry(m, table, i),
        word_at(n, table) == word_at(m, table),
{
}

/// Where every row's place lies in the range of its expert, the products expert by expert
/// behind the gathering, and the scattering behind them, serve every row.
proof fn lemma_experts_serve(
    acc: Q4Acc,
    rq: MoeReq,
    g: MoeGroup,
    ranges: Seq<Range>,
    k: Kernels,
    m: spec_fn(Ptr) -> u8,
    ok: spec_fn(int) -> bool,
    ids: Seq<u32>,
    i: int,
    b: int,
)
    requires
        can_serve(acc, rq),
        is_consistent(g),
        ids.len() == acc.moe_rows(rq),
        tables_in(m, g, ids, rq.spec_ne()),
        goes_by_expert(acc, rq),
        has_own_id(rq),
        ranges.len() == rq.spec_ne(),
        ranges_ascend(ranges),
        forall|e: int|
            0 <= e < ranges.len() ==> (#[trigger] ranges[e]).start + ranges[e].len <= acc.moe_bound(
                rq,
            ),
        forall|j: int|
            0 <= j < ids.len() ==> {
                let e = expert_of(ids[j], rq.spec_ne());
                ranges[e].start <= #[trigger] place(acc, g, ids, rq.spec_ne(), j) < ranges[e].start
                    + ranges[e].len
            },
    ensures
        leaves_row(
            acc,
            rq,
            k,
            m,
            ran(
                k,
                m,
                gather_program(&acc, rq, g, frame(acc, rq.x)) + (experts_program(
                    acc.tuning,
                    expert_job(&acc, rq),
                    ranges,
                    rq.spec_ne(),
                ) + scatter_program(&acc, rq, g, frame(acc, rq.out))),
                ok,
                0,
            ),
            ids,
            i,
            b,
        ),
{
    let ne = rq.spec_ne();
    let pre = gather_program(&acc, rq, g, frame(acc, rq.x));
    let job = expert_job(&acc, rq);
    let prod = experts_program(acc.tuning, job, ranges, ne);
    let post = scatter_program(&acc, rq, g, frame(acc, rq.out));
    lemma_sizes(acc, rq);
    lemma_gather(acc, rq, g, k, m, ok, ids);
    let m1 = ran(k, m, pre, ok, 0);
    vstd::arithmetic::div_mod::lemma_div_pos_is_pos(
        crate::upload::uploaded_len(rq.w),
        rq.spec_ne(),
    );
    assert(is_job(acc.tuning, job, acc.moe_bound(rq)) || job.f32w);
    let tame = crate::experts::ExpertJob { ty: 0, ..job };
    lemma_ran_behind(k, m, pre, prod + post, ok, 0);
    let a1 = pre.len() as int;
    assert(experts_program(acc.tuning, job, ranges, ne) == prod);
    lemma_experts_typed(acc.tuning, job, ranges, ne);
    let used = if job.f32w {
        tame
    } else {
        job
    };
    lemma_experts(k, m1, acc.tuning, used, ranges, ne, acc.moe_bound(rq), ok, a1);
    let m2 = ran(k, m1, prod, ok, a1);
    lemma_ran_behind(k, m1, prod, post, ok, a1);
    let len = rq.spec_n_out() * 4;
    if 0 <= i < ids.len() && 0 <= b < len {
        let e = expert_of(ids[i], ne);
        let p = place(acc, g, ids, ne, i);
        lemma_rank_in_group(ids, ne, i);
        assert(expert_row(k, m1, used, e, p)[b] == m2(spec_buf(Slot::Yperm).spec_at(p * len + b)));
        assert(row_at(m1, spec_buf(Slot::Xperm), source_len(acc, rq), p) == row_at(
            m,
            source(acc, rq),
            source_len(acc, rq),
            i,
        ));
    }
    lemma_scatter(acc, rq, g, k, m, m2, ok, a1 + prod.len(), ids, i, b);
}

/// The products over plain rows do not look at the type of the weight.
proof fn lemma_experts_typed(tun: crate::tuning::Tuning, job: crate::experts::ExpertJob, ranges: Seq<Range>, n: int)
    ensures
        job.f32w ==> experts_program(tun, job, ranges, n) == experts_program(
            tun,
            (crate::experts::ExpertJob { ty: 0, ..job }),
            ranges,
            n,
        ),
    decreases n,
{
    if n > 0 {
        lemma_experts_typed(tun, job, ranges, n - 1);
    }
}

/// The ranges between the offsets of a grouping hold the rows of their experts.
proof fn lemma_plain_ranges(acc: Q4Acc, rq: MoeReq, g: MoeGroup, off: Seq<usize>, ids: Seq<u32>)
    requires
        can_serve(acc, rq),
        !pad_layout(&acc, g),
        ids.len() == acc.moe_rows(rq),
        off.len() == rq.spec_ne() + 1,
        forall|e: int| 0 <= e <= rq.spec_ne() ==> #[trigger] off[e] == group_off(ids, rq.spec_ne(), e),
    ensures
        ({
            let ranges = ranges_of(off);
            &&& ranges.len() == rq.spec_ne()
            &&& ranges_ascend(ranges)
            &&& forall|e: int|
                0 <= e < ranges.len() ==> (#[trigger] ranges[e]).start + ranges[e].len
                    <= acc.moe_bound(rq)
            &&& forall|j: int|
                0 <= j < ids.len() ==> {
                    let e = expert_of(ids[j], rq.spec_ne());
                    ranges[e].start <= #[trigger] place(acc, g, ids, rq.spec_ne(), j)
                        < ranges[e].start + ranges[e].len
                }
        }),
{
    let ne = rq.spec_ne();
    let ranges = ranges_of(off);
    lemma_sizes(acc, rq);
    lemma_off_total(ids, ne);
    assert forall|e: int| 0 <= e < ne implies (#[trigger] ranges[e]).start == group_off(ids, ne, e)
        && ranges[e].start + ranges[e].len == group_off(ids, ne, e + 1) && ranges[e].start
        + ranges[e].len <= acc.moe_bound(rq) by {
        lemma_off_mono(ids, ne, e, e + 1);
        lemma_off_mono(ids, ne, e + 1, ne);
        assert(off[e] == group_off(ids, ne, e) && off[e + 1] == group_off(ids, ne, e + 1));
    }
    assert forall|e: int, f: int| 0 <= e < f < ranges.len() implies (#[trigger] ranges[e]).start
        + ranges[e].len <= (#[trigger] ranges[f]).start by {
        lemma_off_mono(ids, ne, e + 1, f);
    }
    assert forall|j: int| 0 <= j < ids.len() implies {
        let e = expert_of(ids[j], ne);
        ranges[e].start <= #[trigger] place(acc, g, ids, ne, j) < ranges[e].start + ranges[e].len
    } by {
        lemma_rank_in_group(ids, ne, j);
        assert(ranges[expert_of(ids[j], ne)].start == group_off(ids, ne, expert_of(ids[j], ne)));
    }
}

/// The ranges of the padded layout hold the rows of their experts.
proof fn lemma_padded_ranges_hold(acc: Q4Acc, rq: MoeReq, g: MoeGroup, off: Seq<int>, ranges: Seq<Range>, ids: Seq<u32>)
    requires
        can_serve(acc, rq),
        pad_layout(&acc, g),
        ids.len() == acc.moe_rows(rq),
        off.len() >= rq.spec_ne() + 1,
        forall|e: int| 0 <= e <= rq.spec_ne() ==> #[trigger] off[e] == group_off(ids, rq.spec_ne(), e),
        ranges.len() == rq.spec_ne(),
        forall|e: int|
            0 <= e < rq.spec_ne() ==> #[trigger] ranges[e] == (Range {
                start: padded_starts(off, e) as usize,
                len: count_between(off, e) as usize,
            }),
    ensures
        ranges_ascend(ranges),
        forall|e: int|
            0 <= e < ranges.len() ==> (#[trigger] ranges[e]).start + ranges[e].len <= acc.moe_bound(
                rq,
            ),
        forall|j: int|
            0 <= j < ids.len() ==> {
                let e = expert_of(ids[j], rq.spec_ne());
                ranges[e].start <= #[trigger] place(acc, g, ids, rq.spec_ne(), j) < ranges[e].start
                    + ranges[e].len
            },
{
    let ne = rq.spec_ne();
    lemma_sizes(acc, rq);
    crate::group_laws::law_padding_bound(ids, ne);
    assert forall|e: int| 0 <= e < ne implies (#[trigger] ranges[e]).start == pad_off(ids, ne, e)
        && ranges[e].len == count_of(ids, ne, e) && pad_off(ids, ne, e) + count_of(ids, ne, e)
        <= pad_off(ids, ne, e + 1) <= acc.moe_bound(rq) by {
        law_padded_ranges_match_tables(ids, ne, off, e);
        lemma_off_mono(ids, ne, 0, e);
        lemma_off_mono(ids, ne, e + 1, ne);
        lemma_count_bounds(ids, ne, e);
    }
    assert forall|e: int, f: int| 0 <= e < f < ranges.len() implies (#[trigger] ranges[e]).start
        + ranges[e].len <= (#[trigger] ranges[f]).start by {
        lemma_off_mono(ids, ne, e + 1, f);
    }
    assert forall|j: int| 0 <= j < ids.len() implies {
        let e = expert_of(ids[j], ne);
        ranges[e].start <= #[trigger] place(acc, g, ids, ne, j) < ranges[e].start + ranges[e].len
    } by {
        lemma_rank_in_group(ids, ne, j);
        assert(ranges[expert_of(ids[j], ne)].start == pad_off(ids, ne, expert_of(ids[j], ne)));
    }
}

impl Q4Acc {
    /// The products over the tables that the host built, expert by expert, serve every row.
    pub proof fn law_experts_serve_their_rows(&self, rq: MoeReq, g: MoeGroup)
        requires
            goes_by_expert(*self, rq),
            g.off@.len() != 0,
        ensures
            serves_rows(
                *self,
                rq,
                g,
                gather_program(self, rq, g, frame(*self, rq.x)) + (experts_program(
                    self.tuning,
                    expert_job(self, rq),
                    ranges_of(g.off@),
                    rq.spec_ne(),
                ) + scatter_program(self, rq, g, frame(*self, rq.out))),
            ),
    {
        let c = gather_program(self, rq, g, frame(*self, rq.x)) + (experts_program(
            self.tuning,
            expert_job(self, rq),
            ranges_of(g.off@),
            rq.spec_ne(),
        ) + scatter_program(self, rq, g, frame(*self, rq.out)));
        if can_serve(*self, rq) && is_consistent(g) && suits_kernels(*self, rq, g) {
            assert forall|
                k: Kernels,
                m: spec_fn(Ptr) -> u8,
                ok: spec_fn(int) -> bool,
                ids: Seq<u32>,
                i: int,
                b: int,
            | is_routing(*self, rq, g, m, ids) implies #[trigger] leaves_row(
                *self,
                rq,
                k,
                m,
                ran(k, m, c, ok, 0),
                ids,
                i,
                b,
            ) by {
                lemma_plain_ranges(*self, rq, g, g.off@, ids);
                lemma_experts_serve(*self, rq, g, ranges_of(g.off@), k, m, ok, ids, i, b);
            }
        }
    }
}

/// The products of grouped rows, each with the expert that a table names.
proof fn lemma_expert_rows(
    k: Kernels,
    m: spec_fn(Ptr) -> u8,
    x: Ptr,
    len: int,
    rq: MoeReq,
    expert: spec_fn(int) -> int,
    slot: Slot,
    n: int,
    p: int,
    b: int,
)
    requires
        len == spec_xq_words(rq.w.n_in as int) * 4,
        0 <= p < n,
        0 <= b < rq.spec_n_out() * 4,
        n * (rq.spec_n_out() * 4) <= usize::MAX,
    ensures
        ({
            let out = spec_buf(slot);
            let no = rq.spec_n_out();
            let after = expert_rows(
                k,
                m,
                x,
                len,
                Ptr::Weight { key: rq.w.key, off: 0 },
                rq.spec_per_expert(),
                expert,
                out,
                rq.w.n_in as int,
                no,
                n,
            );
            after(out.spec_at(p * (no * 4) + b)) == (k.row)(
                expert_at(rq, expert(p)),
                rq.w.n_in as int,
                no,
                row_at(m, x, len, p),
            )[b]
        }),
{
    let out = spec_buf(slot);
    let l = rq.spec_n_out() * 4;
    lemma_in_row(p, b, l, n);
    assert(distance(out, out.spec_at(p * l + b)) == Some(p * l + b));
}

/// The q4_K kernel over gathered rows serves every row, in either layout.
proof fn lemma_q4k_serves(
    acc: Q4Acc,
    rq: MoeReq,
    g: MoeGroup,
    k: Kernels,
    m: spec_fn(Ptr) -> u8,
    ok: spec_fn(int) -> bool,
    ids: Seq<u32>,
    i: int,
    b: int,
)
    requires
        can_serve(acc, rq),
        is_consistent(g),
        g.serves(acc.moe_rows(rq), rq.spec_ne()),
        ids.len() == acc.moe_rows(rq),
        tables_in(m, g, ids, rq.spec_ne()),
        !acc.weight_f32(rq.w),
        g.rows_pad_d == Ptr::Null || acc.spec_t() > 1,
    ensures
        leaves_row(
            acc,
            rq,
            k,
            m,
            ran(
                k,
                m,
                gather_program(&acc, rq, g, frame(acc, rq.x)) + q4k_rows_program(
                    &acc,
                    rq,
                    g,
                    frame(acc, rq.out),
                ),
                ok,
                0,
            ),
            ids,
            i,
            b,
        ),
{
    let ne = rq.spec_ne();
    let pre = gather_program(&acc, rq, g, frame(acc, rq.x));
    let rest = q4k_rows_program(&acc, rq, g, frame(acc, rq.out));
    let post = scatter_program(&acc, rq, g, frame(acc, rq.out));
    let (room, prod) = (rest.take(1), seq![rest[1]]);
    assert(rest =~= room + (prod + post));
    lemma_sizes(acc, rq);
    lemma_gather(acc, rq, g, k, m, ok, ids);
    let m1 = ran(k, m, pre, ok, 0);
    let a1 = pre.len() as int;
    lemma_ran_behind(k, m, pre, rest, ok, 0);
    lemma_ran_behind(k, m1, room, prod + post, ok, a1);
    lemma_one_command(k, m1, room, ok, a1);
    lemma_ran_behind(k, m1, prod, post, ok, a1 + 1);
    lemma_one_command(k, m1, prod, ok, a1 + 1);
    let m2 = ran(k, m1, prod, ok, a1 + 1);
    let no = rq.spec_n_out();
    let len = no * 4;
    lemma_ceil_div(no, 16);
    lemma_ceil_div(g.rows_pad as int, 16);
    crate::group_laws::law_padding_bound(ids, ne);
    vstd::arithmetic::div_mod::lemma_div_pos_is_pos(crate::upload::uploaded_len(rq.w), ne);
    let gy = crate::arith::spec_ceil_div(g.rows_pad as int, 16);
    let told = if g.rows_pad_d == Ptr::Null {
        acc.moe_rows(rq)
    } else {
        word_at(m1, g.rows_pad_d)
    };
    lemma_tables_kept(m, m1, g.rows_pad_d, 0);
    let n = vstd::math::min(told, gy * 16);
    assert(m2 == expert_rows(
        k,
        m1,
        spec_buf(Slot::Xperm),
        source_len(acc, rq),
        Ptr::Weight { key: rq.w.key, off: 0 },
        rq.spec_per_expert(),
        |q: int| entry(m1, g.rowexp, q),
        spec_buf(Slot::Yperm),
        rq.w.n_in as int,
        no,
        n,
    ));
    if 0 <= i < ids.len() && 0 <= b < len {
        let p = place(acc, g, ids, ne, i);
        lemma_place(acc, rq, g, ids, i);
        assert(row_routed(m, g, ids, ne, i));
        lemma_tables_kept(m, m1, g.rowexp, p);
        assert(0 <= n * len <= acc.moe_bound(rq) * len) by (nonlinear_arith)
            requires
                0 <= n <= acc.moe_bound(rq),
                0 <= len,
        ;
        lemma_expert_rows(
            k,
            m1,
            spec_buf(Slot::Xperm),
            source_len(acc, rq),
            rq,
            |q: int| entry(m1, g.rowexp, q),
            Slot::Yperm,
            n,
            p,
            b,
        );
    }
    lemma_scatter(acc, rq, g, k, m, m2, ok, a1 + 2, ids, i, b);
}

/// The q5_1 kernel over expert-aligned tiles serves every row.
#[verifier::rlimit(60)]
proof fn lemma_tiles_serve(
    acc: Q4Acc,
    rq: MoeReq,
    g: MoeGroup,
    k: Kernels,
    m: spec_fn(Ptr) -> u8,
    ok: spec_fn(int) -> bool,
    ids: Seq<u32>,
    i: int,
    b: int,
)
    requires
        can_serve(acc, rq),
        is_consistent(g),
        suits_kernels(acc, rq, g),
        g.serves(acc.moe_rows(rq), rq.spec_ne()),
        ids.len() == acc.moe_rows(rq),
        tables_in(m, g, ids, rq.spec_ne()),
        !acc.weight_f32(rq.w),
        rq.w.ty == GgmlType::Q5_1,
    ensures
        leaves_row(
            acc,
            rq,
            k,
            m,
            ran(
                k,
                m,
                gather_program(&acc, rq, g, frame(acc, rq.x)) + q51_tiles_program(
                    &acc,
                    rq,
                    g,
                    frame(acc, rq.out),
                ),
                ok,
                0,
            ),
            ids,
            i,
            b,
        ),
{
    let ne = rq.spec_ne();
    let pre = gather_program(&acc, rq, g, frame(acc, rq.x));
    let rest = q51_tiles_program(&acc, rq, g, frame(acc, rq.out));
    lemma_sizes(acc, rq);
    lemma_gather(acc, rq, g, k, m, ok, ids);
    let m1 = ran(k, m, pre, ok, 0);
    let a1 = pre.len() as int;
    lemma_ran_behind(k, m, pre, rest, ok, 0);
    let (xq, xq_w) = acc.spec_moe_xq(rq);
    let (no, pad) = (rq.spec_n_out(), g.rows_pad);
    let len = no * 4;
    let (gx, gy) = (spec_buf(Slot::Gxp), spec_buf(Slot::Gyp));
    let fetch = permute_program(xq, g.perm_pad, gx, xq_w, pad);
    let f = fetch.len() as int;
    let post = permute_program(
        gy,
        g.inv_pad,
        frame(acc, rq.out),
        no as usize,
        acc.moe_rows(rq) as usize,
    );
    let (r0, r1, prod) = (rest.take(1), rest.subrange(1 + f, 3 + f), seq![rest[3 + f]]);
    assert(rest =~= r0 + (fetch + (r1 + (prod + post))));
    lemma_ran_behind(k, m1, r0, fetch + (r1 + (prod + post)), ok, a1);
    lemma_one_command(k, m1, r0, ok, a1);
    let xl = xq_w * 4;
    lemma_moved(k, m1, xq, g.perm_pad, gx, xq_w, pad, ok, a1 + 1);
    let m2 = moved(m1, xq, g.perm_pad, gx, xl, pad as int);
    lemma_ran_behind(k, m1, fetch, r1 + (prod + post), ok, a1 + 1);
    let a2 = a1 + 1 + f;
    reveal_with_fuel(ran, 3);
    assert(r1.skip(1)[0] == rest[2 + f]);
    assert(r1.skip(1).skip(1) =~= Seq::<Cmd>::empty());
    assert(ran(k, m2, r1, ok, a2) == m2);
    lemma_ran_behind(k, m2, r1, prod + post, ok, a2);
    lemma_ran_behind(k, m2, prod, post, ok, a2 + 2);
    lemma_one_command(k, m2, prod, ok, a2 + 2);
    let m3 = ran(k, m2, prod, ok, a2 + 2);
    lemma_ceil_div(no, 16);
    lemma_ceil_div(pad as int, 16);
    vstd::arithmetic::div_mod::lemma_div_pos_is_pos(crate::upload::uploaded_len(rq.w), ne);
    assert(16 * (rq.w.n_in / 32) * 24 == (rq.w.n_in / 32) * 384);
    let per = rq.spec_per_expert();
    assert((per / 4) * 4 == per);
    assert(m3 == expert_rows(
        k,
        m2,
        gx,
        xl,
        Ptr::Weight { key: rq.w.key, off: 0 },
        per,
        |q: int| entry(m2, g.tilexp, q / 16),
        gy,
        rq.w.n_in as int,
        no,
        pad as int,
    ));
    lemma_moved(
        k,
        m3,
        gy,
        g.inv_pad,
        frame(acc, rq.out),
        no as usize,
        acc.moe_rows(rq) as usize,
        ok,
        a2 + 3,
    );
    if 0 <= i < ids.len() && 0 <= b < len {
        let q = pad_rank(ids, ne, i);
        lemma_place(acc, rq, g, ids, i);
        assert(row_routed(m, g, ids, ne, i));
        lemma_tables_kept(m, m1, g.perm_pad, q);
        lemma_tables_kept(m, m2, g.tilexp, q / 16);
        lemma_tables_kept(m, m3, g.inv_pad, i);
        let (bound, rows) = (acc.moe_bound(rq), acc.moe_rows(rq));
        assert(0 <= pad * len <= bound * len && 0 <= pad * xl <= bound * xl) by (nonlinear_arith)
            requires
                0 <= pad <= bound,
                0 <= len,
                0 <= xl,
        ;
        lemma_gathered(m1, xq, g.perm_pad, Slot::Gxp, xl, pad as int, q, i, rows);
        assert(row_at(m1, xq, xl, i) =~= row_at(m, xq, xl, i));
        lemma_expert_rows(
            k,
            m2,
            gx,
            xl,
            rq,
            |q: int| entry(m2, g.tilexp, q / 16),
            Slot::Gyp,
            pad as int,
            q,
            b,
        );
        lemma_scattered(m3, gy, g.inv_pad, frame(acc, rq.out), len, rows, i, b);
    }
}

/// A kernel that reads the ids serves every row.
proof fn lemma_ids_serve(
    acc: Q4Acc,
    rq: MoeReq,
    k: Kernels,
    m: spec_fn(Ptr) -> u8,
    now: spec_fn(Ptr) -> u8,
    stride: int,
    ids: Seq<u32>,
    i: int,
    b: int,
)
    requires
        can_serve(acc, rq),
        !acc.weight_f32(rq.w),
        ids.len() == acc.moe_rows(rq),
        ids_in(acc, rq, m, ids),
        frame(acc, rq.ids) is Dev,
        forall|p: Ptr| p is Dev ==> #[trigger] now(p) == m(p),
        0 <= i < ids.len() ==> bytes_at(
            m,
            source(acc, rq).spec_at(i * stride),
            source_len(acc, rq),
        ) == row_at(m, source(acc, rq), source_len(acc, rq), i),
    ensures
        leaves_row(
            acc,
            rq,
            k,
            m,
            expert_rows(
                k,
                now,
                source(acc, rq),
                stride,
                Ptr::Weight { key: rq.w.key, off: 0 },
                rq.spec_per_expert(),
                |q: int| entry(now, frame(acc, rq.ids), q),
                frame(acc, rq.out),
                rq.w.n_in as int,
                rq.spec_n_out(),
                ids.len() as int,
            ),
            ids,
            i,
            b,
        ),
{
    lemma_sizes(acc, rq);
    let len = rq.spec_n_out() * 4;
    let out = frame(acc, rq.out);
    if 0 <= i < ids.len() && 0 <= b < len {
        lemma_in_row(i, b, len, ids.len() as int);
        assert(distance(out, out.spec_at(i * len + b)) == Some(i * len + b));
        assert(entry(now, frame(acc, rq.ids), i) == entry(m, frame(acc, rq.ids), i));
        let src = source(acc, rq);
        assert(bytes_at(now, src.spec_at(i * stride), source_len(acc, rq)) =~= bytes_at(
            m,
            src.spec_at(i * stride),
            source_len(acc, rq),
        ));
    }
}

impl Q4Acc {
    /// The step over the tables serves every row, whichever kernels it takes.
    pub proof fn law_grouped_step_serves_every_row(&self, rq: MoeReq, g: MoeGroup, c: Seq<Cmd>)
        requires
            g.serves(self.moe_rows(rq), rq.spec_ne()),
            frame(*self, rq.ids) is Dev || spec_group_kind(self, rq, g) != GroupKind::Q51Ids,
            ({
                let (x, out) = (frame(*self, rq.x), frame(*self, rq.out));
                let pre = gather_program(self, rq, g, x);
                match spec_group_kind(self, rq, g) {
                    GroupKind::Q51Ids => c == pre + q51_ids_program(
                        self,
                        rq,
                        frame(*self, rq.ids),
                        out,
                    ),
                    GroupKind::Q51Tiles => c == pre + q51_tiles_program(self, rq, g, out),
                    GroupKind::Q4kRows => c == pre + q4k_rows_program(self, rq, g, out),
                    GroupKind::Experts => g.off@.len() != 0 && c == pre + (experts_program(
                        self.tuning,
                        expert_job(self, rq),
                        ranges_of(g.off@),
                        rq.spec_ne(),
                    ) + scatter_program(self, rq, g, out)),
                    _ => false,
                }
            }),
        ensures
            serves_rows(*self, rq, g, c),
    {
        if can_serve(*self, rq) && is_consistent(g) && suits_kernels(*self, rq, g) {
            lemma_sizes(*self, rq);
            if spec_group_kind(self, rq, g) == GroupKind::Experts {
                self.law_experts_serve_their_rows(rq, g);
            } else {
                assert forall|
                    k: Kernels,
                    m: spec_fn(Ptr) -> u8,
                    ok: spec_fn(int) -> bool,
                    ids: Seq<u32>,
                    i: int,
                    b: int,
                | is_routing(*self, rq, g, m, ids) implies #[trigger] leaves_row(
                    *self,
                    rq,
                    k,
                    m,
                    ran(k, m, c, ok, 0),
                    ids,
                    i,
                    b,
                ) by {
                    match spec_group_kind(self, rq, g) {
                        GroupKind::Q51Ids => {
                            self.lemma_q51_ids_serve(rq, g, k, m, ok, ids, i, b);
                        },
                        GroupKind::Q51Tiles => {
                            lemma_tiles_serve(*self, rq, g, k, m, ok, ids, i, b);
                        },
                        _ => {
                            lemma_q4k_serves(*self, rq, g, k, m, ok, ids, i, b);
                        },
                    }
                }
            }
        }
    }

    /// For one token the q5_1 kernel reads the ids.
    proof fn lemma_q51_ids_serve(
        &self,
        rq: MoeReq,
        g: MoeGroup,
        k: Kernels,
        m: spec_fn(Ptr) -> u8,
        ok: spec_fn(int) -> bool,
        ids: Seq<u32>,
        i: int,
        b: int,
    )
        requires
            can_serve(*self, rq),
            suits_kernels(*self, rq, g),
            rq.w.ty == GgmlType::Q5_1,
            !self.weight_f32(rq.w),
            ids.len() == self.moe_rows(rq),
            tables_in(m, g, ids, rq.spec_ne()),
            ids_in(*self, rq, m, ids),
            frame(*self, rq.ids) is Dev,
        ensures
            leaves_row(
                *self,
                rq,
                k,
                m,
                ran(
                    k,
                    m,
                    gather_program(self, rq, g, frame(*self, rq.x)) + q51_ids_program(
                        self,
                        rq,
                        frame(*self, rq.ids),
                        frame(*self, rq.out),
                    ),
                    ok,
                    0,
                ),
                ids,
                i,
                b,
            ),
    {
        let acc = *self;
        let pre = gather_program(&acc, rq, g, frame(acc, rq.x));
        let rest = q51_ids_program(&acc, rq, frame(acc, rq.ids), frame(acc, rq.out));
        let (room, prod) = (rest.take(1), seq![rest[1]]);
        assert(rest =~= room + prod);
        lemma_sizes(acc, rq);
        lemma_gather(acc, rq, g, k, m, ok, ids);
        let m1 = ran(k, m, pre, ok, 0);
        let a1 = pre.len() as int;
        lemma_ran_behind(k, m, pre, rest, ok, 0);
        lemma_ran_behind(k, m1, room, prod, ok, a1);
        lemma_one_command(k, m1, room, ok, a1);
        lemma_one_command(k, m1, prod, ok, a1 + 1);
        lemma_ceil_div(rq.spec_n_out(), 16);
        lemma_ceil_div(acc.moe_rows(rq), 16);
        let per = rq.spec_per_expert();
        vstd::arithmetic::div_mod::lemma_div_pos_is_pos(
            crate::upload::uploaded_len(rq.w),
            rq.spec_ne(),
        );
        assert((per / 4) * 4 == per);
        lemma_ids_serve(acc, rq, k, m, m1, source_len(acc, rq), ids, i, b);
    }
}

/// The parts of a product whose inner dimension is split add up to the product.
pub open spec fn parts_add_up(
    k: Kernels,
    n: int,
    w: Ptr,
    n_in: int,
    n_out: int,
    row: Seq<u8>,
    o: int,
    x: int,
) -> bool {
    0 <= x < 4 ==> (k.op)(
        Op::SplitSum,
        seq![n],
        Seq::new(
            n as nat,
            |s: int| Seq::new(8, |y: int| (k.split)(s, n, w, n_in, n_out, row, o)[y]),
        ),
        none(),
    )[x] == (k.row)(w, n_in, n_out, row)[o * 4 + x]
}

/// Whatever the kernels compute, the program, which reads the ids, leaves for every routed
/// row the product of the row with the expert that its id names. The routed rows of a
/// single token are one vector.
pub open spec fn serves_direct(acc: Q4Acc, rq: MoeReq, c: Seq<Cmd>) -> bool {
    can_serve(acc, rq) && frame(acc, rq.ids) is Dev && acc.moe_rows(rq) * rq.spec_n_out() <= i32::MAX
        && (rq.w.ty == GgmlType::Q5_1 ==> rq.spec_per_expert() % 4 == 0) ==> forall|
        k: Kernels,
        m: spec_fn(Ptr) -> u8,
        ok: spec_fn(int) -> bool,
        ids: Seq<u32>,
        i: int,
        b: int,
    |
        is_direct_routing(acc, rq, k, m, ids) ==> #[trigger] leaves_row(
            acc,
            rq,
            k,
            m,
            ran(k, m, c, ok, 0),
            ids,
            i,
            b,
        )
}

pub open spec fn is_direct_routing(
    acc: Q4Acc,
    rq: MoeReq,
    k: Kernels,
    m: spec_fn(Ptr) -> u8,
    ids: Seq<u32>,
) -> bool {
    let len = source_len(acc, rq);
    &&& ids.len() == acc.moe_rows(rq)
    &&& ids_in(acc, rq, m, ids)
    &&& acc.spec_t() == 1 ==> forall|i: int|
        0 <= i < ids.len() ==> #[trigger] row_at(m, source(acc, rq), len, i) == row_at(
            m,
            source(acc, rq),
            len,
            0,
        )
    &&& forall|n: int, w: Ptr, n_in: int, n_out: int, row: Seq<u8>, o: int, x: int| #[trigger]
        parts_add_up(k, n, w, n_in, n_out, row, o, x)
}

/// The memory with the parts of all products, where the inner dimension is split.
spec fn parts_written(
    acc: Q4Acc,
    rq: MoeReq,
    k: Kernels,
    m: spec_fn(Ptr) -> u8,
    stride: int,
    ks: int,
) -> spec_fn(Ptr) -> u8 {
    written(
        m,
        spec_buf(Slot::Scratch),
        acc.moe_rows(rq) * rq.spec_n_out() * ks * 8,
        |j: int|
            {
                let e = j / 8 / ks;
                let row = e / rq.spec_n_out();
                (k.split)(
                    j / 8 % ks,
                    ks,
                    expert_at(rq, entry(m, frame(acc, rq.ids), row)),
                    rq.w.n_in as int,
                    rq.spec_n_out(),
                    bytes_at(m, source(acc, rq).spec_at(row * stride), source_len(acc, rq)),
                    e % rq.spec_n_out(),
                )[j % 8]
            },
    )
}

/// The split q4_K kernel and the sum behind it.
proof fn lemma_split_serves(
    acc: Q4Acc,
    rq: MoeReq,
    k: Kernels,
    m: spec_fn(Ptr) -> u8,
    mid: spec_fn(Ptr) -> u8,
    after: spec_fn(Ptr) -> u8,
    stride: int,
    ks: int,
    ids: Seq<u32>,
    i: int,
    b: int,
)
    requires
        can_serve(acc, rq),
        !acc.weight_f32(rq.w),
        is_direct_routing(acc, rq, k, m, ids),
        acc.moe_rows(rq) * rq.spec_n_out() <= i32::MAX,
        1 <= ks <= 8,
        0 <= i < ids.len() ==> bytes_at(
            m,
            source(acc, rq).spec_at(i * stride),
            source_len(acc, rq),
        ) == row_at(m, source(acc, rq), source_len(acc, rq), i),
        mid == parts_written(acc, rq, k, m, stride, ks),
        after == written(
            mid,
            frame(acc, rq.out),
            acc.moe_rows(rq) * rq.spec_n_out() * 4,
            |j: int|
                (k.op)(
                    Op::SplitSum,
                    seq![ks],
                    Seq::new(
                        ks as nat,
                        |s: int| row_at(mid, spec_buf(Slot::Scratch), 8, j / 4 * ks + s),
                    ),
                    none(),
                )[j % 4],
        ),
    ensures
        leaves_row(acc, rq, k, m, after, ids, i, b),
{
    lemma_sizes(acc, rq);
    let (rows, no) = (acc.moe_rows(rq), rq.spec_n_out());
    let len = no * 4;
    let out = frame(acc, rq.out);
    let part = spec_buf(Slot::Scratch);
    if 0 <= i < ids.len() && 0 <= b < len {
        let (o, x) = (b / 4, b % 4);
        lemma_in_row(i, b, len, rows);
        lemma_in_row(i, o, no, rows);
        assert(rows * no * 4 == rows * len && i * len == i * no * 4) by (nonlinear_arith)
            requires
                len == no * 4,
        ;
        let e = i * no + o;
        let j = i * len + b;
        assert(j / 4 == e && j % 4 == x);
        assert(distance(out, out.spec_at(j)) == Some(j));
        let w = expert_at(rq, expert_of(ids[i], rq.spec_ne()));
        let row = row_at(m, source(acc, rq), source_len(acc, rq), i);
        let want = Seq::new(
            ks as nat,
            |s: int| Seq::new(
                8,
                |y: int| (k.split)(s, ks, w, rq.w.n_in as int, no, row, o)[y],
            ),
        );
        let have = Seq::new(ks as nat, |s: int| row_at(mid, part, 8, e * ks + s));
        assert(rows * no * ks * 8 <= acc.moe_bound(rq) * no * 64 && 0 <= rows * no) by (nonlinear_arith)
            requires
                0 <= rows <= acc.moe_bound(rq),
                0 <= no,
                1 <= ks <= 8,
        ;
        assert(entry(m, frame(acc, rq.ids), i) == ids[i]);
        assert forall|s: int| 0 <= s < ks implies have[s] =~= want[s] by {
            assert forall|y: int| 0 <= y < 8 implies have[s][y] == want[s][y] by {
                lemma_in_row(e, s, ks, rows * no);
                let u = e * ks + s;
                lemma_in_row(u, y, 8, rows * no * ks);
                let d = u * 8 + y;
                assert(part.spec_at(u * 8).spec_at(y) == part.spec_at(d));
                assert(distance(part, part.spec_at(d)) == Some(d));
                assert(d / 8 == u && d % 8 == y);
                assert(u / ks == e && u % ks == s);
                assert(e / no == i && e % no == o);
            }
        }
        assert(have =~= want);
        assert(parts_add_up(k, ks, w, rq.w.n_in as int, no, row, o, x));
        assert(o * 4 + x == b);
    }
}

impl Q4Acc {
    /// A direct kernel serves every row.
    pub proof fn law_direct_kernels_serve_every_row(&self, rq: MoeReq, kind: Direct)
        requires
            self.spec_direct(rq) == Some(kind),
        ensures
            serves_direct(
                *self,
                rq,
                self.direct_program(rq, kind, frame(*self, rq.ids), frame(*self, rq.out)),
            ),
    {
        let c = self.direct_program(rq, kind, frame(*self, rq.ids), frame(*self, rq.out));
        if can_serve(*self, rq) && frame(*self, rq.ids) is Dev && self.moe_rows(rq)
            * rq.spec_n_out() <= i32::MAX && (rq.w.ty == GgmlType::Q5_1 ==> rq.spec_per_expert() % 4
            == 0) {
            assert forall|
                k: Kernels,
                m: spec_fn(Ptr) -> u8,
                ok: spec_fn(int) -> bool,
                ids: Seq<u32>,
                i: int,
                b: int,
            | is_direct_routing(*self, rq, k, m, ids) implies #[trigger] leaves_row(
                *self,
                rq,
                k,
                m,
                ran(k, m, c, ok, 0),
                ids,
                i,
                b,
            ) by {
                self.lemma_direct_serves(rq, kind, k, m, ok, ids, i, b);
            }
        }
    }

    #[verifier::rlimit(40)]
    proof fn lemma_direct_serves(
        &self,
        rq: MoeReq,
        kind: Direct,
        k: Kernels,
        m: spec_fn(Ptr) -> u8,
        ok: spec_fn(int) -> bool,
        ids: Seq<u32>,
        i: int,
        b: int,
    )
        requires
            can_serve(*self, rq),
            self.spec_direct(rq) == Some(kind),
            frame(*self, rq.ids) is Dev,
            self.moe_rows(rq) * rq.spec_n_out() <= i32::MAX,
            rq.w.ty == GgmlType::Q5_1 ==> rq.spec_per_expert() % 4 == 0,
            is_direct_routing(*self, rq, k, m, ids),
        ensures
            leaves_row(
                *self,
                rq,
                k,
                m,
                ran(
                    k,
                    m,
                    self.direct_program(rq, kind, frame(*self, rq.ids), frame(*self, rq.out)),
                    ok,
                    0,
                ),
                ids,
                i,
                b,
            ),
    {
        let acc = *self;
        let c = self.direct_program(rq, kind, frame(*self, rq.ids), frame(*self, rq.out));
        let (room, prod) = (c.take(1), seq![c[1]]);
        let rest = c.skip(2);
        assert(c =~= room + (prod + rest));
        lemma_sizes(acc, rq);
        lemma_ran_behind(k, m, room, prod + rest, ok, 0);
        lemma_one_command(k, m, room, ok, 0);
        lemma_ran_behind(k, m, prod, rest, ok, 1);
        lemma_one_command(k, m, prod, ok, 1);
        let (rows, no) = (acc.moe_rows(rq), rq.spec_n_out());
        lemma_ceil_div(no, 16);
        lemma_ceil_div(no, 8);
        lemma_ceil_div(rows, 16);
        let per = rq.spec_per_expert();
        vstd::arithmetic::div_mod::lemma_div_pos_is_pos(
            crate::upload::uploaded_len(rq.w),
            rq.spec_ne(),
        );
        let len = source_len(acc, rq);
        let stride = if kind == Direct::Q4k && self.spec_t() == 1 {
            0
        } else {
            len
        };
        if 0 <= i < ids.len() {
            if stride == 0 {
                assert(i * stride == 0 && 0 * len == 0) by (nonlinear_arith)
                    requires
                        stride == 0,
                ;
            }
            assert(row_at(m, source(acc, rq), len, i) == row_at(m, source(acc, rq), len, i));
        }
        let mid = performed(k, m, c[1]);
        if kind == Direct::Q4k && self.spec_ksplit() > 1 {
            let ks = self.spec_ksplit() as int;
            lemma_one_command(k, mid, rest, ok, 2);
            assert(0 <= rows * no) by (nonlinear_arith)
                requires
                    0 <= rows,
                    0 <= no,
            ;
            lemma_ceil_div(rows * no, 256);
            let after = performed(k, mid, rest[0]);
            assert(mid =~= parts_written(acc, rq, k, m, stride, ks));
            lemma_split_serves(acc, rq, k, m, mid, after, stride, ks, ids, i, b);
        } else {
            assert(rest =~= Seq::<Cmd>::empty());
            assert(per % 4 == 0 ==> (per / 4) * 4 == per);
            lemma_ids_serve(acc, rq, k, m, m, stride, ids, i, b);
        }
    }
}

/// Behind the offsets that the device computed, the products serve every row. The
/// commands before them gather the rows.
pub open spec fn finishes_rows(acc: Q4Acc, rq: MoeReq, g: MoeGroup, b: Seq<i32>, c: Seq<Cmd>) -> bool {
    can_serve(acc, rq) && is_consistent(g) && has_own_id(rq) && goes_by_expert(acc, rq) ==> forall|
        k: Kernels,
        m: spec_fn(Ptr) -> u8,
        ok: spec_fn(int) -> bool,
        ids: Seq<u32>,
        i: int,
        x: int,
    |
        ids.len() == acc.moe_rows(rq) && tables_in(m, g, ids, rq.spec_ne()) && are_offsets(
            b,
            ids,
            rq.spec_ne(),
        ) ==> #[trigger] leaves_row(
            acc,
            rq,
            k,
            m,
            ran(k, m, gather_program(&acc, rq, g, frame(acc, rq.x)) + c, ok, 0),
            ids,
            i,
            x,
        )
}

/// The words that the device left are the offsets of the grouping and the padded rows.
pub open spec fn are_offsets(b: Seq<i32>, ids: Seq<u32>, ne: int) -> bool {
    &&& b.len() == ne + 2
    &&& forall|e: int| 0 <= e <= ne ==> #[trigger] b[e] == group_off(ids, ne, e)
}

impl Q4Acc {
    /// The rest of a request behind the device's offsets serves every row.
    pub proof fn law_finish_serves_every_row(&self, rq: MoeReq, g: MoeGroup, b: Seq<i32>)
        requires
            b.len() == rq.spec_ne() + 2,
        ensures
            finishes_rows(
                *self,
                rq,
                g,
                b,
                experts_program(
                    self.tuning,
                    expert_job(self, rq),
                    self.finish_ranges(rq, g, b),
                    rq.spec_ne(),
                ) + scatter_program(self, rq, g, frame(*self, rq.out)),
            ),
    {
        let ne = rq.spec_ne();
        let ranges = self.finish_ranges(rq, g, b);
        let c = experts_program(self.tuning, expert_job(self, rq), ranges, ne) + scatter_program(
            self,
            rq,
            g,
            frame(*self, rq.out),
        );
        if can_serve(*self, rq) && is_consistent(g) && has_own_id(rq) && goes_by_expert(*self, rq) {
            assert forall|
                k: Kernels,
                m: spec_fn(Ptr) -> u8,
                ok: spec_fn(int) -> bool,
                ids: Seq<u32>,
                i: int,
                x: int,
            |
                ids.len() == self.moe_rows(rq) && tables_in(m, g, ids, ne) && are_offsets(
                    b,
                    ids,
                    ne,
                ) implies #[trigger] leaves_row(
                *self,
                rq,
                k,
                m,
                ran(k, m, gather_program(self, rq, g, frame(*self, rq.x)) + c, ok, 0),
                ids,
                i,
                x,
            ) by {
                let off = device_offsets(b);
                assert forall|e: int| 0 <= e <= ne implies #[trigger] off[e] == group_off(ids, ne, e) by {
                    lemma_off_mono(ids, ne, 0, e);
                    assert(b[e] == group_off(ids, ne, e));
                }
                if pad_layout(self, g) {
                    lemma_padded_ranges_hold(*self, rq, g, off, ranges, ids);
                } else {
                    let plain = plain_off(b, ne);
                    assert forall|e: int| 0 <= e <= ne implies #[trigger] plain[e] == group_off(
                        ids,
                        ne,
                        e,
                    ) by {
                        assert(off[e] == group_off(ids, ne, e));
                        assert(b[e] == group_off(ids, ne, e));
                    }
                    lemma_plain_ranges(*self, rq, g, plain, ids);
                }
                lemma_experts_serve(*self, rq, g, ranges, k, m, ok, ids, i, x);
            }
        }
    }
}

} // verus!
