//! What expert products leave in memory: every routed row gets the product with its own
//! expert.
//!
//! The kernels are parameters, as in `kernel_effects`.

use vstd::prelude::*;
use crate::acc::{MoeGroup, Q4Acc};
use crate::device::{spec_buf, Cmd, MatMul, Ptr, Slot};
use crate::experts::{expert_cmds, experts_program, permute_program, ExpertJob, Range};
use crate::ggml::spec_xq_words;
use crate::grid_laws::{law_plain_product_grids_cover, sizes_fit};
use crate::group::{expert_of, group_rank, lemma_off_mono, lemma_rank_in_group, pad_rank, pad_rows};
use crate::kernel_effects::{entry, word_at};
use crate::memory::{distance, is_inside, written};
use crate::moe::MoeReq;
use crate::moe_grouped::{gather_program, pad_layout, scatter_program, spec_row_words};
use crate::op_laws::{frame, lemma_in_row, lemma_one_command};
use crate::product_runs::{
    job_of, jumps_inside, lemma_gemm_completes, lemma_jumps_of_both, lemma_ran_behind, performed,
    ran, row_at, Kernels,
};
use crate::tuning::Tuning;

verus! {

/// The memory after `n` rows were copied by a table: row `g` is row `table[g]` of `src`.
pub open spec fn moved(
    m: spec_fn(Ptr) -> u8,
    src: Ptr,
    table: Ptr,
    dst: Ptr,
    len: int,
    n: int,
) -> spec_fn(Ptr) -> u8 {
    written(
        m,
        dst,
        n * len,
        |j: int| m(src.spec_at(entry(m, table, j / len) * len + j % len)),
    )
}

pub proof fn lemma_moved(
    k: Kernels,
    m: spec_fn(Ptr) -> u8,
    src: Ptr,
    table: Ptr,
    dst: Ptr,
    words: usize,
    n: usize,
    ok: spec_fn(int) -> bool,
    at: int,
)
    requires
        words <= i32::MAX,
        n <= i32::MAX,
    ensures
        jumps_inside(permute_program(src, table, dst, words, n)),
        ran(k, m, permute_program(src, table, dst, words, n), ok, at) == moved(
            m,
            src,
            table,
            dst,
            words * 4,
            n as int,
        ),
{
    let c = permute_program(src, table, dst, words, n);
    if n == 0 || words == 0 {
        assert(n * (words * 4) == 0) by (nonlinear_arith)
            requires
                n == 0 || words == 0,
        ;
        assert(m =~= moved(m, src, table, dst, words * 4, n as int));
    } else {
        lemma_one_command(k, m, c, ok, at);
    }
}

/// A gathered row is the row that the table names.
pub proof fn lemma_gathered(
    m: spec_fn(Ptr) -> u8,
    src: Ptr,
    table: Ptr,
    slot: Slot,
    len: int,
    n: int,
    p: int,
    i: int,
    rows: int,
)
    requires
        0 <= p < n,
        entry(m, table, p) == i,
        0 <= i < rows,
        0 <= len,
        n * len <= usize::MAX,
        src.offset() + rows * len <= usize::MAX,
    ensures
        row_at(moved(m, src, table, spec_buf(slot), len, n), spec_buf(slot), len, p) == row_at(
            m,
            src,
            len,
            i,
        ),
{
    let after = moved(m, src, table, spec_buf(slot), len, n);
    let dst = spec_buf(slot);
    assert forall|x: int| 0 <= x < len implies row_at(after, dst, len, p)[x] == row_at(
        m,
        src,
        len,
        i,
    )[x] by {
        lemma_in_row(p, x, len, n);
        lemma_in_row(i, x, len, rows);
        assert(dst.spec_at(p * len).spec_at(x) == dst.spec_at(p * len + x));
        assert(distance(dst, dst.spec_at(p * len + x)) == Some(p * len + x));
        assert(src.spec_at(i * len).spec_at(x) == src.spec_at(i * len + x));
    }
    assert(row_at(after, dst, len, p) =~= row_at(m, src, len, i));
}

/// A byte of a scattered row is that of the row that the table names.
pub proof fn lemma_scattered(
    m: spec_fn(Ptr) -> u8,
    src: Ptr,
    table: Ptr,
    dst: Ptr,
    len: int,
    n: int,
    i: int,
    b: int,
)
    requires
        0 <= i < n,
        0 <= b < len,
        dst is Dev,
        dst.offset() + n * len <= usize::MAX,
    ensures
        moved(m, src, table, dst, len, n)(dst.spec_at(i * len + b)) == m(
            src.spec_at(entry(m, table, i) * len + b),
        ),
{
    lemma_in_row(i, b, len, n);
    assert(distance(dst, dst.spec_at(i * len + b)) == Some(i * len + b));
}

/// The rows that a request multiplies: plain ones for `f32` weights, else the quantised
/// ones.
pub open spec fn source(acc: Q4Acc, rq: MoeReq) -> Ptr {
    if acc.weight_f32(rq.w) {
        frame(acc, rq.x)
    } else {
        acc.spec_moe_xq(rq).0
    }
}

/// Bytes of such a row.
pub open spec fn source_len(acc: Q4Acc, rq: MoeReq) -> int {
    spec_row_words(&acc, rq) * 4
}

/// Expert `e` of a request's stack.
pub open spec fn expert_at(rq: MoeReq, e: int) -> Ptr {
    (Ptr::Weight { key: rq.w.key, off: 0 }).spec_at(e * rq.spec_per_expert())
}

/// What row `i` is to get: the product with the expert that its id names.
pub open spec fn routed_row(
    acc: Q4Acc,
    rq: MoeReq,
    k: Kernels,
    m: spec_fn(Ptr) -> u8,
    ids: Seq<u32>,
    i: int,
) -> Seq<u8> {
    (k.row)(
        expert_at(rq, expert_of(ids[i], rq.spec_ne())),
        rq.w.n_in as int,
        rq.spec_n_out(),
        row_at(m, source(acc, rq), source_len(acc, rq), i),
    )
}

/// Byte `b` of the result of row `i` is in its place.
pub open spec fn leaves_row(
    acc: Q4Acc,
    rq: MoeReq,
    k: Kernels,
    m: spec_fn(Ptr) -> u8,
    after: spec_fn(Ptr) -> u8,
    ids: Seq<u32>,
    i: int,
    b: int,
) -> bool {
    let len = rq.spec_n_out() * 4;
    0 <= i < ids.len() && 0 <= b < len ==> after(frame(acc, rq.out).spec_at(i * len + b))
        == routed_row(acc, rq, k, m, ids, i)[b]
}

/// The grouping tables of `ids` are in memory: the row that each grouped row is, the
/// grouped row that each row is, and the expert of each grouped row, in the layout
/// without padding and in the padded one. Tables that the device built have the experts
/// of the padded rows only.
pub open spec fn tables_in(m: spec_fn(Ptr) -> u8, g: MoeGroup, ids: Seq<u32>, ne: int) -> bool {
    &&& pad_rows(ids, ne) <= g.rows_pad
    &&& g.rows_pad_d != Ptr::Null ==> word_at(m, g.rows_pad_d) == pad_rows(ids, ne)
    &&& forall|i: int| 0 <= i < ids.len() ==> #[trigger] row_routed(m, g, ids, ne, i)
}

pub open spec fn row_routed(m: spec_fn(Ptr) -> u8, g: MoeGroup, ids: Seq<u32>, ne: int, i: int) -> bool {
    let (p, q, e) = (group_rank(ids, ne, i), pad_rank(ids, ne, i), expert_of(ids[i], ne));
    &&& entry(m, g.inv, i) == p
    &&& entry(m, g.perm, p) == i
    &&& entry(m, g.inv_pad, i) == q
    &&& entry(m, g.perm_pad, q) == i
    &&& entry(m, g.tilexp, q / 16) == e
    &&& entry(
        m,
        g.rowexp,
        if g.rows_pad_d == Ptr::Null {
            p
        } else {
            q
        },
    ) == e
}

/// The sizes of a request can be told to the kernels, and its rows can be addressed.
pub open spec fn can_serve(acc: Q4Acc, rq: MoeReq) -> bool {
    &&& acc.moe_fits(rq)
    &&& acc.moe_prepared(rq)
    &&& acc.moe_bound(rq) <= i32::MAX
    &&& rq.w.n_in <= i32::MAX
    &&& spec_xq_words(rq.w.n_in as int) <= i32::MAX
    &&& rq.spec_n_out() <= i32::MAX
    &&& rq.spec_per_expert() <= i32::MAX
    &&& source(acc, rq).offset() + acc.moe_rows(rq) * source_len(acc, rq) <= usize::MAX
    &&& frame(acc, rq.out) is Dev
    &&& frame(acc, rq.out).offset() + acc.moe_rows(rq) * (rq.spec_n_out() * 4) <= usize::MAX
    &&& acc.weight_f32(rq.w) ==> frame(acc, rq.x) is Dev
    &&& !acc.weight_f32(rq.w) ==> acc.spec_moe_xq(rq).0 is Dev
}

/// Where the grouped rows of row `i` are.
pub open spec fn place(acc: Q4Acc, g: MoeGroup, ids: Seq<u32>, ne: int, i: int) -> int {
    if pad_layout(&acc, g) {
        pad_rank(ids, ne, i)
    } else {
        group_rank(ids, ne, i)
    }
}

/// Grouped rows that are gathered.
pub open spec fn places(acc: Q4Acc, rq: MoeReq, g: MoeGroup) -> int {
    if pad_layout(&acc, g) {
        acc.moe_bound(rq)
    } else {
        acc.moe_rows(rq)
    }
}

pub proof fn lemma_sizes(acc: Q4Acc, rq: MoeReq)
    requires
        can_serve(acc, rq),
    ensures
        ({
            let (rows, bound, len, out) = (
                acc.moe_rows(rq),
                acc.moe_bound(rq),
                source_len(acc, rq),
                rq.spec_n_out() * 4,
            );
            &&& 1 <= rows <= bound <= i32::MAX
            &&& rq.spec_ne() >= 1
            &&& 0 <= len
            &&& 0 <= out
            &&& 0 <= rows * len <= bound * len <= usize::MAX
            &&& 0 <= rows * out <= bound * out <= usize::MAX
            &&& spec_row_words(&acc, rq) <= i32::MAX
            &&& len == spec_row_words(&acc, rq) * 4
            &&& !acc.weight_f32(rq.w) ==> spec_row_words(&acc, rq) == spec_xq_words(
                rq.w.n_in as int,
            )
            &&& acc.weight_f32(rq.w) ==> spec_row_words(&acc, rq) == rq.w.n_in
        }),
{
    let (rows, bound, len, no) = (
        acc.moe_rows(rq),
        acc.moe_bound(rq),
        source_len(acc, rq),
        rq.spec_n_out(),
    );
    assert(rows >= 1) by (nonlinear_arith)
        requires
            rows == acc.spec_t() * vstd::math::max(rq.k_sel as int, 1),
            acc.spec_t() >= 1,
            vstd::math::max(rq.k_sel as int, 1) >= 1,
    ;
    let w = spec_row_words(&acc, rq);
    assert(w == spec_xq_words(rq.w.n_in as int) || w == rq.w.n_in);
    vstd::arithmetic::div_mod::lemma_div_pos_is_pos(rq.w.n_out as int, rq.spec_ne());
    assert(bound * w * 4 == bound * len && bound * no * 4 == bound * (no * 4) && bound * no * 4
        <= bound * no * 64 && 0 <= rows * len <= bound * len && 0 <= rows * (no * 4) <= bound * (no
        * 4)) by (nonlinear_arith)
        requires
            len == w * 4,
            0 <= w,
            0 <= no,
            1 <= rows <= bound,
    ;
}

/// Every row has a place among the gathered rows, which is its expert's.
pub proof fn lemma_place(acc: Q4Acc, rq: MoeReq, g: MoeGroup, ids: Seq<u32>, i: int)
    requires
        can_serve(acc, rq),
        ids.len() == acc.moe_rows(rq),
        0 <= i < ids.len(),
    ensures
        0 <= place(acc, g, ids, rq.spec_ne(), i) < places(acc, rq, g),
        0 <= group_rank(ids, rq.spec_ne(), i) < ids.len(),
        0 <= pad_rank(ids, rq.spec_ne(), i) < pad_rows(ids, rq.spec_ne()),
        pad_rows(ids, rq.spec_ne()) <= acc.moe_bound(rq),
{
    let ne = rq.spec_ne();
    let e = expert_of(ids[i], ne);
    lemma_rank_in_group(ids, ne, i);
    lemma_off_mono(ids, ne, 0, e);
    lemma_off_mono(ids, ne, e + 1, ne);
    crate::group::lemma_off_total(ids, ne);
    crate::group_laws::law_padding_bound(ids, ne);
}

/// Behind the gathering, a row's place holds the row.
pub proof fn lemma_gather(
    acc: Q4Acc,
    rq: MoeReq,
    g: MoeGroup,
    k: Kernels,
    m: spec_fn(Ptr) -> u8,
    ok: spec_fn(int) -> bool,
    ids: Seq<u32>,
)
    requires
        can_serve(acc, rq),
        ids.len() == acc.moe_rows(rq),
        tables_in(m, g, ids, rq.spec_ne()),
    ensures
        ({
            let c = gather_program(&acc, rq, g, frame(acc, rq.x));
            let after = ran(k, m, c, ok, 0);
            let x = spec_buf(Slot::Xperm);
            let len = source_len(acc, rq);
            &&& jumps_inside(c)
            &&& forall|p: Ptr| distance(x, p) is None ==> #[trigger] after(p) == m(p)
            &&& forall|i: int|
                0 <= i < ids.len() ==> row_at(
                    after,
                    x,
                    len,
                    #[trigger] place(acc, g, ids, rq.spec_ne(), i),
                ) == row_at(m, source(acc, rq), len, i)
        }),
{
    lemma_sizes(acc, rq);
    let c = gather_program(&acc, rq, g, frame(acc, rq.x));
    let (len, n, src) = (source_len(acc, rq), places(acc, rq, g), source(acc, rq));
    let table = if pad_layout(&acc, g) {
        g.perm_pad
    } else {
        g.perm
    };
    let words = spec_row_words(&acc, rq) as usize;
    let x = spec_buf(Slot::Xperm);
    let (head, rest) = (c.take(2), permute_program(src, table, x, words, n as usize));
    assert(c =~= head + rest);
    lemma_moved(k, m, src, table, x, words, n as usize, ok, 2);
    reveal_with_fuel(ran, 3);
    assert(head.skip(1)[0] == c[1]);
    assert(head.skip(1).skip(1) =~= Seq::<Cmd>::empty());
    assert(ran(k, m, head, ok, 0) == m);
    lemma_ran_behind(k, m, head, rest, ok, 0);
    assert forall|i: int| 0 <= i < ids.len() implies row_at(
        ran(k, m, c, ok, 0),
        x,
        len,
        #[trigger] place(acc, g, ids, rq.spec_ne(), i),
    ) == row_at(m, src, len, i) by {
        lemma_place(acc, rq, g, ids, i);
        assert(row_routed(m, g, ids, rq.spec_ne(), i));
        assert(0 <= n * len <= usize::MAX);
        lemma_gathered(
            m,
            src,
            table,
            Slot::Xperm,
            len,
            n,
            place(acc, g, ids, rq.spec_ne(), i),
            i,
            ids.len() as int,
        );
    }
}

/// Where the results stand by place, the scattering brings each to its row.
pub proof fn lemma_scatter(
    acc: Q4Acc,
    rq: MoeReq,
    g: MoeGroup,
    k: Kernels,
    m: spec_fn(Ptr) -> u8,
    now: spec_fn(Ptr) -> u8,
    ok: spec_fn(int) -> bool,
    at: int,
    ids: Seq<u32>,
    i: int,
    b: int,
)
    requires
        can_serve(acc, rq),
        ids.len() == acc.moe_rows(rq),
        tables_in(m, g, ids, rq.spec_ne()),
        forall|p: Ptr| p is Dev ==> #[trigger] now(p) == m(p),
        g.inv is Dev,
        g.inv_pad is Dev,
        0 <= i < ids.len() && 0 <= b < rq.spec_n_out() * 4 ==> now(
            spec_buf(Slot::Yperm).spec_at(
                place(acc, g, ids, rq.spec_ne(), i) * (rq.spec_n_out() * 4) + b,
            ),
        ) == routed_row(acc, rq, k, m, ids, i)[b],
    ensures
        leaves_row(
            acc,
            rq,
            k,
            m,
            ran(k, now, scatter_program(&acc, rq, g, frame(acc, rq.out)), ok, at),
            ids,
            i,
            b,
        ),
{
    lemma_sizes(acc, rq);
    let len = rq.spec_n_out() * 4;
    let table = if pad_layout(&acc, g) {
        g.inv_pad
    } else {
        g.inv
    };
    let out = frame(acc, rq.out);
    lemma_moved(
        k,
        now,
        spec_buf(Slot::Yperm),
        table,
        out,
        rq.spec_n_out() as usize,
        acc.moe_rows(rq) as usize,
        ok,
        at,
    );
    if 0 <= i < ids.len() && 0 <= b < len {
        lemma_scattered(now, spec_buf(Slot::Yperm), table, out, len, ids.len() as int, i, b);
        assert(row_routed(m, g, ids, rq.spec_ne(), i));
        assert(entry(now, table, i) == entry(m, table, i));
    }
}

/// A job over the gathered rows whose sizes can be told to the kernels.
pub open spec fn is_job(tun: Tuning, job: ExpertJob, rows: int) -> bool {
    &&& job.x == spec_buf(Slot::Xperm)
    &&& job.y == spec_buf(Slot::Yperm) || job.y == spec_buf(Slot::Yf)
    &&& job.row_words == if job.f32w {
        job.n_in
    } else {
        job.xq_w
    }
    &&& 0 <= rows <= i32::MAX
    &&& job.n_in <= i32::MAX
    &&& job.n_out <= i32::MAX
    &&& job.row_words <= i32::MAX
    &&& rows * (job.row_words * 4) <= usize::MAX
    &&& rows * (job.n_out * 4) <= usize::MAX
    &&& job.n_out * 512 <= usize::MAX
    &&& (job.n_in / 32) * 384 <= usize::MAX
    &&& job.ty != 7
    &&& job.ty != 12
}

/// The product of grouped row `p` with expert `e`.
pub open spec fn expert_row(k: Kernels, m: spec_fn(Ptr) -> u8, job: ExpertJob, e: int, p: int) -> Seq<u8> {
    (k.row)(
        job.w.spec_at(e * job.per_expert),
        job.n_in as int,
        job.n_out as int,
        row_at(m, job.x, job.row_words * 4, p),
    )
}

/// The commands of one expert write the products of its rows, and nothing else.
proof fn lemma_expert(
    k: Kernels,
    m: spec_fn(Ptr) -> u8,
    tun: Tuning,
    job: ExpertJob,
    e: int,
    r: Range,
    rows: int,
    ok: spec_fn(int) -> bool,
    at: int,
)
    requires
        is_job(tun, job, rows),
        r.start + r.len <= rows,
    ensures
        ({
            let c = expert_cmds(tun, job, e, r);
            let after = ran(k, m, c, ok, at);
            let len = job.n_out * 4;
            &&& jumps_inside(c)
            &&& forall|q: Ptr|
                !is_inside(job.y.spec_at(r.start * len), r.len * len, q) ==> #[trigger] after(q)
                    == m(q)
            &&& forall|p: int, b: int|
                r.start <= p < r.start + r.len && 0 <= b < len ==> after(
                    #[trigger] job.y.spec_at(p * len + b),
                ) == expert_row(k, m, job, e, p)[b]
        }),
{
    let c = expert_cmds(tun, job, e, r);
    let after = ran(k, m, c, ok, at);
    let (len, xl) = (job.n_out * 4, job.row_words * 4);
    let (s, l) = (r.start as int, r.len as int);
    assert(s * job.row_words * 4 == s * xl && s * job.n_out * 4 == s * len && 0 <= s * xl && 0 <= s
        * len && s * len + l * len <= rows * len && s * xl + l * xl <= rows * xl && 0 <= l * len && 0
        <= l * xl && l * job.n_out * 4 == l * len && l * job.xq_w * 4 == l * (job.xq_w * 4))
        by (nonlinear_arith)
        requires
            len == job.n_out * 4,
            xl == job.row_words * 4,
            0 <= s,
            0 <= l,
            s + l <= rows,
            0 <= len,
            0 <= xl,
    ;
    let (x, y) = (job.x.spec_at(s * xl), job.y.spec_at(s * len));
    let w = job.w.spec_at(e * job.per_expert);
    if l > 0 {
        let mm = MatMul {
            ty: job.ty,
            x,
            w,
            n_in: job.n_in,
            n_out: job.n_out,
            xq_w: job.row_words,
            t: r.len,
            out: y,
        };
        let whole = job_of(mm).applied(k, m, m);
        if job.f32w {
            lemma_one_command(k, m, c, ok, at);
            law_plain_product_grids_cover(x, w, job.n_in, job.n_out, r.len, y);
            assert(jumps_inside(c));
            assert forall|q: Ptr| #[trigger] after(q) == whole(q) by {
                assert(performed(k, m, c[0]) =~= whole);
            }
        } else {
            assert(sizes_fit(tun, mm));
            assert forall|q: Ptr| #[trigger] after(q) == whole(q) by {
                lemma_gemm_completes(k, m, tun, mm, ok, at, q);
            }
            lemma_gemm_completes(k, m, tun, mm, ok, at, y);
        }
        assert forall|p: int, b: int| s <= p < s + l && 0 <= b < len implies after(
            #[trigger] job.y.spec_at(p * len + b),
        ) == expert_row(k, m, job, e, p)[b] by {
            let j = p - s;
            lemma_in_row(j, b, len, l);
            assert(s * len + j * len == p * len && s * xl + j * xl == p * xl) by (nonlinear_arith)
                requires
                    j == p - s,
            ;
            assert(0 <= j * xl && j * xl + xl <= l * xl) by (nonlinear_arith)
                requires
                    0 <= j < l,
                    0 <= xl,
            ;
            let q = job.y.spec_at(p * len + b);
            assert(distance(y, q) == Some(j * len + b));
            assert(x.spec_at(j * xl) == job.x.spec_at(p * xl));
            assert(after(q) == whole(q));
        }
    } else {
        assert(l * len == 0) by (nonlinear_arith)
            requires
                l == 0,
        ;
    }
}

/// Ranges one behind the other.
pub open spec fn ranges_ascend(ranges: Seq<Range>) -> bool {
    forall|e: int, f: int|
        0 <= e < f < ranges.len() ==> (#[trigger] ranges[e]).start + ranges[e].len <= (
        #[trigger] ranges[f]).start
}

/// The products of all experts: every row of every range gets that of its expert, and
/// only the results change.
pub proof fn lemma_experts(
    k: Kernels,
    m: spec_fn(Ptr) -> u8,
    tun: Tuning,
    job: ExpertJob,
    ranges: Seq<Range>,
    n: int,
    rows: int,
    ok: spec_fn(int) -> bool,
    at: int,
)
    requires
        is_job(tun, job, rows),
        0 <= n <= ranges.len(),
        ranges_ascend(ranges),
        forall|e: int| 0 <= e < ranges.len() ==> (#[trigger] ranges[e]).start + ranges[e].len <= rows,
    ensures
        ({
            let c = experts_program(tun, job, ranges, n);
            let after = ran(k, m, c, ok, at);
            let len = job.n_out * 4;
            &&& jumps_inside(c)
            &&& forall|q: Ptr| distance(job.y, q) is None ==> #[trigger] after(q) == m(q)
            &&& forall|e: int, p: int, b: int|
                0 <= e < n && ranges[e].start <= p < ranges[e].start + ranges[e].len && 0 <= b < len
                    ==> after(job.y.spec_at(p * len + b)) == #[trigger] expert_row(
                    k,
                    m,
                    job,
                    e,
                    p,
                )[b]
        }),
    decreases n,
{
    if n > 0 {
        let (c0, c1) = (
            experts_program(tun, job, ranges, n - 1),
            expert_cmds(tun, job, n - 1, ranges[n - 1]),
        );
        lemma_experts(k, m, tun, job, ranges, n - 1, rows, ok, at);
        let mid = ran(k, m, c0, ok, at);
        let r = ranges[n - 1];
        lemma_expert(k, mid, tun, job, n - 1, r, rows, ok, at + c0.len());
        lemma_ran_behind(k, m, c0, c1, ok, at);
        lemma_jumps_of_both(c0, c1);
        let c = experts_program(tun, job, ranges, n);
        let after = ran(k, m, c, ok, at);
        let len = job.n_out * 4;
        assert forall|e: int, p: int, b: int|
            0 <= e < n && ranges[e].start <= p < ranges[e].start + ranges[e].len && 0 <= b
                < len implies after(job.y.spec_at(p * len + b)) == #[trigger] expert_row(
            k,
            m,
            job,
            e,
            p,
        )[b] by {
            let q = job.y.spec_at(p * len + b);
            let s = r.start as int;
            if e == n - 1 {
                assert(row_at(mid, job.x, job.row_words * 4, p) =~= row_at(
                    m,
                    job.x,
                    job.row_words * 4,
                    p,
                ));
                assert(after(q) == expert_row(k, mid, job, e, p)[b]);
            } else {
                assert(p * len + b < s * len && 0 <= p * len && s * len <= rows * len) by (nonlinear_arith)
                    requires
                        0 <= p < s <= rows,
                        0 <= b < len,
                ;
                assert(distance(job.y.spec_at(s * len), q) == Some(p * len + b - s * len));
                assert(after(q) == mid(q));
            }
        }
    }
}

} // verus!
