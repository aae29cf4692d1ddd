//! What products over rows of the host bring back to it.
//!
//! The kernels are parameters, as in `kernel_effects`.

use vstd::prelude::*;
use crate::acc::Q4Acc;
use crate::attn_laws::fetched;
use crate::device::{spec_buf, Cmd, Host, MatMul, Ptr, Slot};
use crate::expert_runs::{expert_row, is_job, lemma_experts, lemma_gathered, lemma_moved, moved};
use crate::experts::{experts_program, permute_program, ranges_of};
use crate::frame_mm::spec_wptr;
use crate::gemm::{gemm_f32_launch, gemm_program};
use crate::ggml::{spec_f32_family, spec_ggml_id, spec_xq_words};
use crate::grid_laws::{law_plain_product_grids_cover, sizes_fit};
use crate::group::{expert_of, group_off, lemma_off_mono, lemma_off_total, lemma_rank_in_group, ExpertGroups};
use crate::group_laws::law_groups_are_contiguous_and_stable;
use crate::kernel_effects::entry;
use crate::memory::{distance, written};
use crate::moe_down::{moe_down_fits, stack_of};
use crate::op_laws::{lemma_in_row, lemma_one_command};
use crate::product_runs::{
    job_of, jumps_inside, lemma_gemm_completes, lemma_ran_behind, performed, quantised_row, ran,
    row_at, Kernels,
};
use crate::table_laws::{host_entry, is_quiet, is_table, lemma_quiet};
use crate::upload::Weight;
use crate::value::{upload_rows, value_fits};

verus! {

/// Row `i` of the rows of the host.
pub open spec fn host_row(k: Kernels, n_in: int, i: int) -> Seq<u8> {
    Seq::new((n_in * 4) as nat, |b: int| (k.host)(Host::X, i * (n_in * 4) + b))
}

/// Row `i` as a kernel reads it: plain, or quantised.
pub open spec fn input_row(k: Kernels, n_in: int, plain: bool, i: int) -> Seq<u8> {
    if plain {
        host_row(k, n_in, i)
    } else {
        quantised_row(k, host_row(k, n_in, i), n_in)
    }
}

/// Where uploaded rows are read, and their length.
pub open spec fn uploaded(n_in: int, plain: bool) -> (Ptr, int) {
    if plain {
        (spec_buf(Slot::Xf), n_in * 4)
    } else {
        (spec_buf(Slot::Xq), spec_xq_words(n_in) * 4)
    }
}

/// Behind the upload every row is in its place, plain or quantised, and only the library's
/// own buffers changed.
proof fn lemma_uploaded(
    k: Kernels,
    m: spec_fn(Ptr) -> u8,
    t: usize,
    n_in: usize,
    plain: bool,
    ok: spec_fn(int) -> bool,
    at: int,
)
    requires
        t * n_in * 4 <= usize::MAX,
        t * spec_xq_words(n_in as int) * 4 <= usize::MAX,
    ensures
        ({
            let c = upload_rows(t as int, n_in, plain);
            let after = ran(k, m, c, ok, at);
            let (x, len) = uploaded(n_in as int, plain);
            &&& jumps_inside(c)
            &&& forall|i: int|
                0 <= i < t ==> #[trigger] row_at(after, x, len, i) == input_row(
                    k,
                    n_in as int,
                    plain,
                    i,
                )
        }),
{
    let c = upload_rows(t as int, n_in, plain);
    let (len, xl) = (n_in * 4, spec_xq_words(n_in as int) * 4);
    let xw = spec_xq_words(n_in as int);
    assert(t * n_in * 4 == t * len && t * xw * 4 == t * xl && 0 <= t * len && 0 <= t * xl)
        by (nonlinear_arith)
        requires
            len == n_in * 4,
            xl == xw * 4,
            0 <= xw,
    ;
    let f = spec_buf(Slot::Xf);
    let q = spec_buf(Slot::Xq);
    let m1 = written(m, f, t * len, |j: int| (k.host)(Host::X, j));
    reveal_with_fuel(ran, 5);
    assert(c.skip(1)[0] == c[1]);
    if plain {
        assert(c.skip(1).skip(1) =~= Seq::<Cmd>::empty());
        assert(ran(k, m, c, ok, at) =~= m1);
    } else {
        assert(c.skip(1).skip(1)[0] == c[2]);
        assert(c.skip(1).skip(1).skip(1)[0] == c[3]);
        assert(c.skip(1).skip(1).skip(1).skip(1) =~= Seq::<Cmd>::empty());
        assert(performed(k, m, c[1]) =~= m1);
        assert(ran(k, m, c, ok, at) == performed(k, m1, c[3]));
    }
    assert forall|i: int| 0 <= i < t implies #[trigger] row_at(m1, f, len, i) == host_row(
        k,
        n_in as int,
        i,
    ) by {
        assert forall|b: int| 0 <= b < len implies row_at(m1, f, len, i)[b] == host_row(
            k,
            n_in as int,
            i,
        )[b] by {
            lemma_in_row(i, b, len, t as int);
            assert(f.spec_at(i * len).spec_at(b) == f.spec_at(i * len + b));
            assert(distance(f, f.spec_at(i * len + b)) == Some(i * len + b));
        }
        assert(row_at(m1, f, len, i) =~= host_row(k, n_in as int, i));
    }
    if !plain {
        let after = performed(k, m1, c[3]);
        assert forall|i: int| 0 <= i < t implies #[trigger] row_at(after, q, xl, i)
            == quantised_row(k, host_row(k, n_in as int, i), n_in as int) by {
            let want = quantised_row(k, host_row(k, n_in as int, i), n_in as int);
            assert forall|b: int| 0 <= b < xl implies row_at(after, q, xl, i)[b] == want[b] by {
                lemma_in_row(i, b, xl, t as int);
                assert(q.spec_at(i * xl).spec_at(b) == q.spec_at(i * xl + b));
                assert(distance(q, q.spec_at(i * xl + b)) == Some(i * xl + b));
                assert(row_at(m1, f, len, i) == host_row(k, n_in as int, i));
            }
            assert(row_at(after, q, xl, i) =~= want);
        }
    }
}

/// Byte `b` of row `i` of what comes back is that of the product of row `i`.
pub open spec fn row_returned(
    k: Kernels,
    m: spec_fn(Ptr) -> u8,
    c: Seq<Cmd>,
    ok: spec_fn(int) -> bool,
    w: Weight,
    w_off: int,
    t: int,
    i: int,
    b: int,
) -> bool {
    let y = fetched(k, m, c, ok);
    let len = w.n_out * 4;
    &&& y.len() == t * len
    &&& 0 <= i < t && 0 <= b < len ==> y[i * len + b] == (k.row)(
        spec_wptr(w).spec_at(w_off),
        w.n_in as int,
        w.n_out as int,
        input_row(k, w.n_in as int, spec_f32_family(w.ty), i),
    )[b]
}

/// The product can be described to a kernel. (The half-precision path computes a product of
/// its own.)
pub open spec fn value_runs(acc: Q4Acc, w: Weight, t: usize) -> bool {
    &&& value_fits(w, t as int)
    &&& acc.weight_f32(w) == spec_f32_family(w.ty)
    &&& spec_xq_words(w.n_in as int) <= i32::MAX
    &&& !(t >= 32 && spec_ggml_id(w.ty) == 8 && acc.tuning.f16_acc)
    &&& sizes_fit(
        acc.tuning,
        MatMul {
            ty: spec_ggml_id(w.ty),
            x: spec_buf(Slot::Xq),
            w: spec_wptr(w),
            n_in: w.n_in,
            n_out: w.n_out,
            xq_w: spec_xq_words(w.n_in as int) as usize,
            t,
            out: spec_buf(Slot::Yf),
        },
    )
}

/// The program brings back the product of every row of the host.
pub open spec fn returns_products(acc: Q4Acc, w: Weight, w_off: int, t: usize, c: Seq<Cmd>) -> bool {
    t > 0 && value_runs(acc, w, t) ==> forall|
        k: Kernels,
        m: spec_fn(Ptr) -> u8,
        ok: spec_fn(int) -> bool,
        i: int,
        b: int,
    | #[trigger]
        row_returned(k, m, c, ok, w, w_off, t as int, i, b)
}

/// A batch brings back the product of every row.
pub proof fn law_batch_returns_every_product(acc: Q4Acc, w: Weight, w_off: int, t: usize)
    ensures
        ({
            let f = spec_f32_family(w.ty);
            returns_products(
                acc,
                w,
                w_off,
                t,
                upload_rows(t as int, w.n_in, f) + acc.run_program(w, w_off, t, !f),
            )
        }),
{
    let f = spec_f32_family(w.ty);
    let up = upload_rows(t as int, w.n_in, f);
    let run = acc.run_program(w, w_off, t, !f);
    let c = up + run;
    if t > 0 && value_runs(acc, w, t) {
        assert forall|k: Kernels, m: spec_fn(Ptr) -> u8, ok: spec_fn(int) -> bool, i: int, b: int| #[trigger]
            row_returned(k, m, c, ok, w, w_off, t as int, i, b) by {
            let y = spec_buf(Slot::Yf);
            let wp = spec_wptr(w).spec_at(w_off);
            let (x, xl) = uploaded(w.n_in as int, f);
            let len = w.n_out * 4;
            let tt = t as int;
            let n = crate::arith::spec_ceil_div(tt, 128) * 128;
            crate::arith::lemma_ceil_div(tt, 128);
            assert(tt * w.n_out * 4 == tt * len && 0 <= tt * len <= n * w.n_out * 4)
                by (nonlinear_arith)
                requires
                    len == w.n_out * 4,
                    0 <= tt <= n,
            ;
            lemma_uploaded(k, m, t, w.n_in, f, ok, 0);
            let m1 = ran(k, m, up, ok, 0);
            let a = up.len() as int;
            let mm = MatMul {
                ty: spec_ggml_id(w.ty),
                x,
                w: wp,
                n_in: w.n_in,
                n_out: w.n_out,
                xq_w: if f {
                    w.n_in
                } else {
                    spec_xq_words(w.n_in as int) as usize
                },
                t,
                out: y,
            };
            let body = if f {
                seq![gemm_f32_launch(x, wp, w.n_in, w.n_out, t, y)]
            } else {
                gemm_program(acc.tuning, mm)
            };
            let head = run.take(2);
            assert(run.drop_last() =~= head + body);
            assert(c.drop_last() =~= up + (head + body));
            assert(c.last() == run.last());
            lemma_ran_behind(k, m, up, head + body, ok, 0);
            reveal_with_fuel(ran, 3);
            assert(head.skip(1)[0] == run[1]);
            assert(head.skip(1).skip(1) =~= Seq::<Cmd>::empty());
            assert(ran(k, m1, head, ok, a) == m1);
            lemma_ran_behind(k, m1, head, body, ok, a);
            let whole = job_of(mm).applied(k, m1, m1);
            let after = ran(k, m1, body, ok, a + 2);
            assert forall|p: Ptr| #[trigger] after(p) == whole(p) by {
                if f {
                    lemma_one_command(k, m1, body, ok, a + 2);
                    law_plain_product_grids_cover(x, wp, w.n_in, w.n_out, t, y);
                    assert(performed(k, m1, body[0]) =~= whole);
                } else {
                    lemma_gemm_completes(k, m1, acc.tuning, mm, ok, a + 2, p);
                }
            }
            if 0 <= i < tt && 0 <= b < len {
                lemma_in_row(i, b, len, tt);
                assert(distance(y, y.spec_at(i * len + b)) == Some(i * len + b));
                assert(row_at(m1, x, xl, i) == input_row(k, w.n_in as int, f, i));
                assert(after(y.spec_at(i * len + b)) == whole(y.spec_at(i * len + b)));
            }
        }
    }
}

/// Byte `b` of grouped row `p` of what comes back is that of the product of its row with
/// its expert.
pub open spec fn grouped_returned(
    acc: Q4Acc,
    k: Kernels,
    m: spec_fn(Ptr) -> u8,
    c: Seq<Cmd>,
    ok: spec_fn(int) -> bool,
    w: Weight,
    n_expert: usize,
    ids: Seq<u32>,
    g: ExpertGroups,
    p: int,
    b: int,
) -> bool {
    let (ne, n_out, per) = stack_of(w, n_expert);
    let y = fetched(k, m, c, ok);
    let len = n_out * 4;
    let i = g.perm@[p] as int;
    &&& y.len() == ids.len() * len
    &&& 0 <= p < ids.len() && 0 <= b < len ==> y[p * len + b] == (k.row)(
        spec_wptr(w).spec_at(expert_of(ids[i], ne) * per),
        w.n_in as int,
        n_out,
        input_row(k, w.n_in as int, acc.weight_f32(w), i),
    )[b]
}

/// The products can be described to the kernels.
pub open spec fn down_runs(acc: Q4Acc, w: Weight, n_expert: usize, t: int) -> bool {
    let job = acc.down_job(w, n_expert);
    &&& 0 < t <= i32::MAX
    &&& moe_down_fits(w, n_expert, t)
    &&& w.n_in <= i32::MAX
    &&& job.n_out <= i32::MAX
    &&& 1 <= job.row_words <= i32::MAX
    &&& acc.weight_f32(w) || job.ty != 7 && job.ty != 12
}

/// The program brings back, in grouped order, the product of every row with its expert.
pub open spec fn returns_grouped(
    acc: Q4Acc,
    w: Weight,
    n_expert: usize,
    ids: Seq<u32>,
    g: ExpertGroups,
    c: Seq<Cmd>,
) -> bool {
    down_runs(acc, w, n_expert, ids.len() as int) ==> forall|
        k: Kernels,
        m: spec_fn(Ptr) -> u8,
        ok: spec_fn(int) -> bool,
        p: int,
        b: int,
    |
        is_table(k, Host::Perm, g.perm@) ==> #[trigger] grouped_returned(
            acc,
            k,
            m,
            c,
            ok,
            w,
            n_expert,
            ids,
            g,
            p,
            b,
        )
}

/// The products of a request, behind its uploads and the gathering.
spec fn down_prod(acc: Q4Acc, w: Weight, n_expert: usize, off: Seq<usize>) -> Seq<Cmd> {
    experts_program(acc.tuning, acc.down_job(w, n_expert), ranges_of(off), off.len() - 1)
}

/// The program of a request runs its products on the gathered rows.
#[verifier::rlimit(60)]
proof fn lemma_down_gathers(
    acc: Q4Acc,
    w: Weight,
    n_expert: usize,
    t: int,
    off: Seq<usize>,
    k: Kernels,
    m: spec_fn(Ptr) -> u8,
    ok: spec_fn(int) -> bool,
) -> (r: (spec_fn(Ptr) -> u8, int))
    requires
        down_runs(acc, w, n_expert, t),
        off.len() >= 1,
    ensures
        ({
            let (m1, at) = r;
            let (x, xl) = uploaded(w.n_in as int, acc.weight_f32(w));
            let m2 = written(m1, spec_buf(Slot::Rperm), t * 4, |j: int| (k.host)(Host::Perm, j));
            let m3 = moved(m2, x, spec_buf(Slot::Rperm), spec_buf(Slot::Xperm), xl, t);
            &&& forall|i: int|
                0 <= i < t ==> #[trigger] row_at(m1, x, xl, i) == input_row(
                    k,
                    w.n_in as int,
                    acc.weight_f32(w),
                    i,
                )
            &&& ran(k, m, acc.down_program(w, n_expert, t, off).drop_last(), ok, 0) == ran(
                k,
                m3,
                down_prod(acc, w, n_expert, off),
                ok,
                at,
            )
        }),
{
    let f = acc.weight_f32(w);
    let job = acc.down_job(w, n_expert);
    let c = acc.down_program(w, n_expert, t, off);
    let (x, xl) = uploaded(w.n_in as int, f);
    let up = upload_rows(t, w.n_in, f);
    let gather = permute_program(
        x,
        spec_buf(Slot::Rperm),
        spec_buf(Slot::Xperm),
        job.row_words,
        t as usize,
    );
    let prod = down_prod(acc, w, n_expert, off);
    let u = up.len() as int;
    let (first, room, table) = (
        c.take(1),
        c.subrange(1 + u, 4 + u),
        c.subrange(4 + u, 5 + u),
    );
    assert(c.drop_last() =~= first + (up + (room + (table + (gather + prod)))));
    lemma_one_command(k, m, first, ok, 0);
    lemma_ran_behind(k, m, first, up + (room + (table + (gather + prod))), ok, 0);
    lemma_uploaded(k, m, t as usize, w.n_in, f, ok, 1);
    let m1 = ran(k, m, up, ok, 1);
    lemma_ran_behind(k, m, up, room + (table + (gather + prod)), ok, 1);
    let a1 = 1 + u;
    assert forall|i: int| 0 <= i < room.len() implies #[trigger] is_quiet(room[i]) by {
        assert(room[i] == c[1 + u + i]);
    }
    lemma_quiet(k, m1, room, ok, a1);
    lemma_ran_behind(k, m1, room, table + (gather + prod), ok, a1);
    lemma_one_command(k, m1, table, ok, a1 + 3);
    let m2 = performed(k, m1, table[0]);
    lemma_ran_behind(k, m1, table, gather + prod, ok, a1 + 3);
    lemma_moved(
        k,
        m2,
        x,
        spec_buf(Slot::Rperm),
        spec_buf(Slot::Xperm),
        job.row_words,
        t as usize,
        ok,
        a1 + 4,
    );
    lemma_ran_behind(k, m2, gather, prod, ok, a1 + 4);
    (m1, a1 + 4 + gather.len() as int)
}

#[verifier::rlimit(60)]
proof fn lemma_grouped_returned(
    acc: Q4Acc,
    w: Weight,
    n_expert: usize,
    ids: Seq<u32>,
    g: ExpertGroups,
    k: Kernels,
    m: spec_fn(Ptr) -> u8,
    ok: spec_fn(int) -> bool,
    p: int,
    b: int,
)
    requires
        down_runs(acc, w, n_expert, ids.len() as int),
        g.groups(ids, stack_of(w, n_expert).0),
        is_table(k, Host::Perm, g.perm@),
    ensures
        grouped_returned(
            acc,
            k,
            m,
            acc.down_program(w, n_expert, ids.len() as int, g.off@),
            ok,
            w,
            n_expert,
            ids,
            g,
            p,
            b,
        ),
{
    let (ne, n_out, per) = stack_of(w, n_expert);
    let t = ids.len() as int;
    let f = acc.weight_f32(w);
    let job = acc.down_job(w, n_expert);
    let c = acc.down_program(w, n_expert, t, g.off@);
    let (x, xl) = uploaded(w.n_in as int, f);
    let len = n_out * 4;
    vstd::arithmetic::div_mod::lemma_div_pos_is_pos(w.n_out as int, ne);
    vstd::arithmetic::div_mod::lemma_div_pos_is_pos(crate::upload::uploaded_len(w), ne);
    assert(xl == job.row_words * 4);
    let words = job.row_words as int;
    assert(t * words * 4 == t * xl && t * n_out * 4 == t * len && 0 <= t * len && 0 <= t * xl)
        by (nonlinear_arith)
        requires
            xl == words * 4,
            len == n_out * 4,
            0 <= t,
            0 <= words,
            0 <= n_out,
    ;
    let (m1, a2) = lemma_down_gathers(acc, w, n_expert, t, g.off@, k, m, ok);
    let m2 = written(m1, spec_buf(Slot::Rperm), t * 4, |j: int| (k.host)(Host::Perm, j));
    let m3 = moved(m2, x, spec_buf(Slot::Rperm), spec_buf(Slot::Xperm), xl, t);
    let prod = down_prod(acc, w, n_expert, g.off@);
    // One product per expert.
    let ranges = ranges_of(g.off@);
    lemma_off_total(ids, ne);
    assert forall|e: int| 0 <= e < ne implies (#[trigger] ranges[e]).start == group_off(ids, ne, e)
        && ranges[e].start + ranges[e].len == group_off(ids, ne, e + 1) && ranges[e].start
        + ranges[e].len <= t by {
        lemma_off_mono(ids, ne, e, e + 1);
        lemma_off_mono(ids, ne, e + 1, ne);
        assert(g.off@[e] == group_off(ids, ne, e) && g.off@[e + 1] == group_off(ids, ne, e + 1));
    }
    assert forall|e: int, d: int| 0 <= e < d < ranges.len() implies (#[trigger] ranges[e]).start
        + ranges[e].len <= (#[trigger] ranges[d]).start by {
        lemma_off_mono(ids, ne, e + 1, d);
    }
    let used = if f {
        crate::experts::ExpertJob { ty: 0, xq_w: 0, ..job }
    } else {
        job
    };
    lemma_plain_jobs(acc.tuning, job, ranges, ne);
    assert(is_job(acc.tuning, used, t));
    lemma_experts(k, m3, acc.tuning, used, ranges, ne, t, ok, a2);
    let after = ran(k, m3, prod, ok, a2);
    if 0 <= p < t && 0 <= b < len {
        let i = g.perm@[p] as int;
        let e = expert_of(ids[i], ne);
        lemma_rank_in_group(ids, ne, i);
        law_groups_are_contiguous_and_stable(ids, ne, g, e);
        assert(host_entry(k, Host::Perm, p) == g.perm@[p]);
        lemma_entry(k, m1, m2, t, p);
        assert(row_at(m2, x, xl, i) =~= row_at(m1, x, xl, i));
        lemma_gathered(m2, x, spec_buf(Slot::Rperm), Slot::Xperm, xl, t, p, i, t);
        assert(row_at(m1, x, xl, i) == input_row(k, w.n_in as int, f, i));
        lemma_in_row(p, b, len, t);
        let y = spec_buf(Slot::Yf);
        assert(ranges[e].start <= p < ranges[e].start + ranges[e].len);
        assert(expert_row(k, m3, used, e, p)[b] == after(y.spec_at(p * len + b)));
    }
}

/// The uploaded permutation reads back.
proof fn lemma_entry(k: Kernels, m1: spec_fn(Ptr) -> u8, m2: spec_fn(Ptr) -> u8, t: int, p: int)
    requires
        m2 == written(m1, spec_buf(Slot::Rperm), t * 4, |j: int| (k.host)(Host::Perm, j)),
        0 <= p < t,
        t * 4 <= usize::MAX,
    ensures
        entry(m2, spec_buf(Slot::Rperm), p) == host_entry(k, Host::Perm, p),
{
    let r = spec_buf(Slot::Rperm);
    assert forall|x: int| 0 <= x < 4 implies m2(#[trigger] r.spec_at(4 * p).spec_at(x)) == (k.host)(
        Host::Perm,
        4 * p + x,
    ) by {
        assert(r.spec_at(4 * p).spec_at(x) == r.spec_at(4 * p + x));
        assert(distance(r, r.spec_at(4 * p + x)) == Some(4 * p + x));
    }
    assert(r.spec_at(4 * p).spec_at(0) == r.spec_at(4 * p));
}

/// The products over plain rows look neither at the type of the weight nor at a quantised
/// row.
proof fn lemma_plain_jobs(
    tun: crate::tuning::Tuning,
    job: crate::experts::ExpertJob,
    ranges: Seq<crate::experts::Range>,
    n: int,
)
    ensures
        job.f32w ==> experts_program(tun, job, ranges, n) == experts_program(
            tun,
            (crate::experts::ExpertJob { ty: 0, xq_w: 0, ..job }),
            ranges,
            n,
        ),
    decreases n,
{
    if n > 0 {
        lemma_plain_jobs(tun, job, ranges, n - 1);
    }
}

/// The expert product over rows of the host brings back every row's product, in the order
/// of the grouping.
pub proof fn law_moe_down_returns_every_product(
    acc: Q4Acc,
    w: Weight,
    n_expert: usize,
    ids: Seq<u32>,
    g: ExpertGroups,
)
    requires
        g.groups(ids, stack_of(w, n_expert).0),
    ensures
        returns_grouped(
            acc,
            w,
            n_expert,
            ids,
            g,
            acc.down_program(w, n_expert, ids.len() as int, g.off@),
        ),
{
    let c = acc.down_program(w, n_expert, ids.len() as int, g.off@);
    if down_runs(acc, w, n_expert, ids.len() as int) {
        assert forall|k: Kernels, m: spec_fn(Ptr) -> u8, ok: spec_fn(int) -> bool, p: int, b: int|
            is_table(k, Host::Perm, g.perm@) implies #[trigger] grouped_returned(
            acc,
            k,
            m,
            c,
            ok,
            w,
            n_expert,
            ids,
            g,
            p,
            b,
        ) by {
            lemma_grouped_returned(acc, w, n_expert, ids, g, k, m, ok, p, b);
        }
    }
}

} // verus!
