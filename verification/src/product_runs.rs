//! What programs of products leave in memory.
//!
//! The kernels appear as parameters: one function quantises a row, another multiplies a
//! row with a weight, and so on. Whichever kernel a program picks computes that product, row by
//! row; one that quantises for itself multiplies the same quantised row. Memory is
//! modelled byte by byte, with every buffer apart from all others.

use vstd::prelude::*;
use crate::arith::lemma_ceil_div;
use crate::device::{Attempt, Cmd, Host, Launch, MatMul, Ptr};
use crate::gemm::{
    gemm_program, tile_call, tile_count, tile_program, tile_takes_all, TILE_ROWS,
};
use crate::ggml::spec_xq_words;
use crate::grid_laws::{is_covered, law_product_grids_cover, sizes_fit};
use crate::grids::covers;
use crate::kernel_effects::{worked, Op};
use crate::kernels::Call;
use crate::memory::{distance, is_inside, written};
use crate::recurrence_laws::bytes_at;
use crate::tuning::Tuning;

verus! {

/// What the kernels compute.
pub struct Kernels {
    /// A quantised row.
    pub quant: spec_fn(Seq<u8>) -> Seq<u8>,
    /// The results of the weight at an address, of so many inputs and outputs, for a row.
    pub row: spec_fn(Ptr, int, int, Seq<u8>) -> Seq<u8>,
    /// One part of so many of an output, where the inner dimension is split.
    pub split: spec_fn(int, int, Ptr, int, int, Seq<u8>, int) -> Seq<u8>,
    /// What the other kernels compute from numbers, rows and tables.
    pub op: spec_fn(Op, Seq<int>, Seq<Seq<u8>>, Seq<spec_fn(int) -> u8>) -> Seq<u8>,
    /// Byte `i` of an array of the host.
    pub host: spec_fn(Host, int) -> u8,
}

/// Row `i` of rows of `stride` bytes.
pub open spec fn row_at(m: spec_fn(Ptr) -> u8, x: Ptr, stride: int, i: int) -> Seq<u8> {
    bytes_at(m, x.spec_at(i * stride), stride)
}

/// A quantised row of `n_in` values.
pub open spec fn quantised_row(k: Kernels, row: Seq<u8>, n_in: int) -> Seq<u8> {
    Seq::new((spec_xq_words(n_in) * 4) as nat, |b: int| (k.quant)(row)[b])
}

/// A product of `t` rows with a weight.
pub struct Job {
    pub x: Ptr,
    /// Bytes from one row to the next.
    pub stride: int,
    pub w: Ptr,
    pub out: Ptr,
    pub n_in: int,
    pub n_out: int,
    pub t: int,
}

impl Job {
    /// Byte `j` of the results.
    pub open spec fn byte(&self, k: Kernels, m: spec_fn(Ptr) -> u8, j: int) -> u8 {
        let rb = self.n_out * 4;
        (k.row)(self.w, self.n_in, self.n_out, row_at(m, self.x, self.stride, j / rb))[j % rb]
    }

    /// The memory `to` after the results of the rows in memory `from` were written.
    pub open spec fn applied(
        &self,
        k: Kernels,
        from: spec_fn(Ptr) -> u8,
        to: spec_fn(Ptr) -> u8,
    ) -> spec_fn(Ptr) -> u8 {
        written(to, self.out, self.t * self.n_out * 4, |j: int| self.byte(k, from, j))
    }
}

/// The product of quantised rows.
pub open spec fn job_of(m: MatMul) -> Job {
    Job {
        x: m.x,
        stride: m.xq_w * 4,
        w: m.w,
        out: m.out,
        n_in: m.n_in as int,
        n_out: m.n_out as int,
        t: m.t as int,
    }
}

/// The product of quantised rows, as a kernel is told.
pub open spec fn job_from(xq: Ptr, w: Ptr, out: Ptr, n_in: i32, n_out: i32, xq_w: i32, t: i32) -> Job {
    Job {
        x: xq,
        stride: xq_w * 4,
        w,
        out,
        n_in: n_in as int,
        n_out: n_out as int,
        t: t as int,
    }
}

/// The product of plain rows, as a kernel is told.
pub open spec fn plain_job(x: Ptr, w: Ptr, out: Ptr, n_in: i32, n_out: i32, row: i32, t: int) -> Job {
    Job { x, stride: row * 4, w, out, n_in: n_in as int, n_out: n_out as int, t }
}

/// The products that a kernel on a grid of `gx` columns computes.
pub open spec fn jobs_of_call(c: Call, gx: int) -> Seq<Job> {
    match c {
        Call::GemmQ4kY { xq, w, out, n_in, n_out, xq_w, t, .. } => seq![
            job_from(xq, w, out, n_in, n_out, xq_w, t),
        ],
        Call::GemmQ4kX { xq, w, out, n_in, n_out, xq_w, t, .. } => seq![
            job_from(xq, w, out, n_in, n_out, xq_w, t),
        ],
        Call::GemmQ4kG { xq, w, out, n_in, n_out, xq_w, t, .. } => seq![
            job_from(xq, w, out, n_in, n_out, xq_w, t),
        ],
        Call::GemmQ4kM { xq, w, out, n_in, n_out, xq_w, t, .. } => seq![
            job_from(xq, w, out, n_in, n_out, xq_w, t),
        ],
        Call::GemmQ51M { xq, w, out, n_in, n_out, xq_w, t, .. } => seq![
            job_from(xq, w, out, n_in, n_out, xq_w, t),
        ],
        Call::GemmQ51T { xq, w, out, n_in, n_out, xq_w, t, .. } => seq![
            job_from(xq, w, out, n_in, n_out, xq_w, t),
        ],
        Call::GemmF32M { x, w, out, n_in, n_out, stride, t } => seq![
            plain_job(x, w, out, n_in, n_out, stride, t as int),
        ],
        Call::GemmF32W { x, w, out, n_in, n_out } => seq![
            plain_job(x, w, out, n_in, n_out, n_in, 1),
        ],
        Call::GemmF32Mt { x, w, out, n_in, n_out, t } => seq![
            plain_job(x, w, out, n_in, n_out, n_in, t as int),
        ],
        Call::GemmF32 { x, w, out, n_in, n_out, stride } => seq![
            plain_job(x, w, out, n_in, n_out, stride, gx),
        ],
        Call::GemmQ8Dual { xq, w1, w2, out1, out2, n_in, n_out1, n_out2, xq_w } => seq![
            job_from(xq, w1, out1, n_in, n_out1, xq_w, 1),
            job_from(xq, w2, out2, n_in, n_out2, xq_w, 1),
        ],
        Call::GemmF32Dual { x, w1, out1, w2, out2, n_in, n_out1, n_out2 } => seq![
            plain_job(x, w1, out1, n_in, n_out1, n_in, 1),
            plain_job(x, w2, out2, n_in, n_out2, n_in, 1),
        ],
        Call::GemmMixDual { xq, w8, out8, n_out8, x, w4, out4, n_out4, n_in, xq_w } => seq![
            job_from(xq, w8, out8, n_in, n_out8, xq_w, 1),
            plain_job(x, w4, out4, n_in, n_out4, n_in, 1),
        ],
        _ => Seq::empty(),
    }
}

/// The memory after a launch of up to two products, which read the memory as it was.
pub open spec fn multiplied(k: Kernels, m: spec_fn(Ptr) -> u8, jobs: Seq<Job>) -> spec_fn(Ptr) -> u8 {
    if jobs.len() == 0 {
        m
    } else if jobs.len() == 1 {
        jobs[0].applied(k, m, m)
    } else {
        jobs[1].applied(k, m, jobs[0].applied(k, m, m))
    }
}

/// The memory after a launch that reaches all of its work.
pub open spec fn launched(k: Kernels, m: spec_fn(Ptr) -> u8, l: Launch) -> spec_fn(Ptr) -> u8 {
    let jobs = jobs_of_call(l.call, l.gx as int);
    if jobs.len() > 0 {
        multiplied(k, m, jobs)
    } else {
        worked(k, m, l)
    }
}

/// Byte `j` of the results of a product that reads plain rows and quantises them itself.
pub open spec fn self_quantised_byte(k: Kernels, m: spec_fn(Ptr) -> u8, mm: MatMul, j: int) -> u8 {
    let rb = mm.n_out * 4;
    let row = row_at(m, mm.x, mm.n_in * 4, j / rb);
    (k.row)(mm.w, mm.n_in as int, mm.n_out as int, quantised_row(k, row, mm.n_in as int))[j % rb]
}

/// The memory after a call that was accepted.
pub open spec fn attempted(k: Kernels, m: spec_fn(Ptr) -> u8, a: Attempt) -> spec_fn(Ptr) -> u8 {
    match a {
        Attempt::Tile(mm) => job_of(mm).applied(k, m, m),
        Attempt::Mmq(mm) => written(
            m,
            mm.out,
            mm.t * mm.n_out * 4,
            |j: int| self_quantised_byte(k, m, mm, j),
        ),
        _ => m,
    }
}

/// The memory after a command. A launch whose grid leaves part of the work out counts as
/// none.
pub open spec fn performed(k: Kernels, m: spec_fn(Ptr) -> u8, c: Cmd) -> spec_fn(Ptr) -> u8 {
    match c {
        Cmd::Quant { x, xq, n_in, xq_w, t } => written(
            m,
            xq,
            t * xq_w * 4,
            |j: int| (k.quant)(row_at(m, x, n_in * 4, j / (xq_w * 4)))[j % (xq_w * 4)],
        ),
        Cmd::Zero { dst, words } => written(m, dst, words * 4, |j: int| 0u8),
        Cmd::Launch(l) => if covers(l) {
            launched(k, m, l)
        } else {
            m
        },
        Cmd::H2d { dst, src, bytes } => written(m, dst, bytes as int, |j: int| (k.host)(src, j)),
        Cmd::D2d { dst, src, bytes } => written(
            m,
            dst,
            bytes as int,
            |j: int| m(src.spec_at(j)),
        ),
        Cmd::Gemv(mm) => job_of(mm).applied(k, m, m),
        Cmd::Must(a) => attempted(k, m, a),
        _ => m,
    }
}

/// The memory after a program whose first command has number `at`. `ok` says which
/// attempts the device accepts; everything else succeeds.
pub open spec fn ran(
    k: Kernels,
    m: spec_fn(Ptr) -> u8,
    cmds: Seq<Cmd>,
    ok: spec_fn(int) -> bool,
    at: int,
) -> spec_fn(Ptr) -> u8
    decreases cmds.len(),
{
    if cmds.len() == 0 {
        m
    } else {
        match cmds[0] {
            Cmd::Try { call, on_ok, on_err } => {
                let n = 1 + if ok(at) {
                    on_ok
                } else {
                    on_err
                };
                let after = if ok(at) {
                    attempted(k, m, call)
                } else {
                    m
                };
                if n >= cmds.len() {
                    after
                } else {
                    ran(k, after, cmds.skip(n as int), ok, at + n)
                }
            },
            c => ran(k, performed(k, m, c), cmds.skip(1), ok, at + 1),
        }
    }
}

/// Every jump leads to a command of the program or to its end.
pub open spec fn jumps_inside(cmds: Seq<Cmd>) -> bool {
    forall|i: int|
        0 <= i < cmds.len() ==> (#[trigger] cmds[i] matches Cmd::Try { on_ok, on_err, .. } ==> i + 1
            + on_ok <= cmds.len() && i + 1 + on_err <= cmds.len())
}

/// A program behind another runs on what the other leaves.
pub proof fn lemma_ran_behind(
    k: Kernels,
    m: spec_fn(Ptr) -> u8,
    a: Seq<Cmd>,
    b: Seq<Cmd>,
    ok: spec_fn(int) -> bool,
    at: int,
)
    requires
        jumps_inside(a),
    ensures
        ran(k, m, a + b, ok, at) == ran(k, ran(k, m, a, ok, at), b, ok, at + a.len()),
    decreases a.len(),
{
    if a.len() == 0 {
        assert(a + b =~= b);
    } else {
        assert((a + b)[0] == a[0]);
        match a[0] {
            Cmd::Try { call, on_ok, on_err } => {
                let n = 1 + if ok(at) {
                    on_ok
                } else {
                    on_err
                };
                let after = if ok(at) {
                    attempted(k, m, call)
                } else {
                    m
                };
                assert(n <= a.len());
                if n < a.len() {
                    assert((a + b).skip(n as int) =~= a.skip(n as int) + b);
                    lemma_jumps_of_rest(a, n as int);
                    lemma_ran_behind(k, after, a.skip(n as int), b, ok, at + n);
                } else {
                    assert((a + b).skip(n as int) =~= b);
                }
            },
            c => {
                assert((a + b).skip(1) =~= a.skip(1) + b);
                lemma_jumps_of_rest(a, 1);
                lemma_ran_behind(k, performed(k, m, c), a.skip(1), b, ok, at + 1);
            },
        }
    }
}

proof fn lemma_jumps_of_rest(a: Seq<Cmd>, n: int)
    requires
        jumps_inside(a),
        0 <= n <= a.len(),
    ensures
        jumps_inside(a.skip(n)),
{
    assert forall|i: int| 0 <= i < a.skip(n).len() implies (#[trigger] a.skip(n)[i] matches Cmd::Try {
        on_ok,
        on_err,
        ..
    } ==> i + 1 + on_ok <= a.skip(n).len() && i + 1 + on_err <= a.skip(n).len()) by {
        assert(a[i + n] == a.skip(n)[i]);
    }
}

/// Programs whose jumps stay inside can be put one behind the other.
pub proof fn lemma_jumps_of_both(a: Seq<Cmd>, b: Seq<Cmd>)
    requires
        jumps_inside(a),
        jumps_inside(b),
    ensures
        jumps_inside(a + b),
{
    assert forall|i: int| 0 <= i < (a + b).len() implies (#[trigger] (a + b)[i] matches Cmd::Try {
        on_ok,
        on_err,
        ..
    } ==> i + 1 + on_ok <= (a + b).len() && i + 1 + on_err <= (a + b).len()) by {
        if i < a.len() {
            assert((a + b)[i] == a[i]);
        } else {
            assert((a + b)[i] == b[i - a.len()]);
        }
    }
}

/// The product of a matrix can be described to a kernel, and reads other memory than it
/// writes.
pub open spec fn is_plain(tun: Tuning, mm: MatMul) -> bool {
    &&& mm.fits()
    &&& sizes_fit(tun, mm)
    &&& mm.xq_w <= i32::MAX
    &&& distance(mm.out, mm.x) is None
}

/// Rows apart from `out` are read the same from two memories that agree on all that is
/// apart from it.
proof fn lemma_rows_same(
    m: spec_fn(Ptr) -> u8,
    n: spec_fn(Ptr) -> u8,
    out: Ptr,
    x: Ptr,
    stride: int,
    i: int,
)
    requires
        distance(out, x) is None,
        forall|p: Ptr| distance(out, p) is None ==> #[trigger] n(p) == m(p),
    ensures
        row_at(n, x, stride, i) == row_at(m, x, stride, i),
{
    assert(row_at(n, x, stride, i) =~= row_at(m, x, stride, i));
}

/// The tile calls from call `c` on complete the product, whichever is refused.
proof fn lemma_tiles_complete(
    k: Kernels,
    m: spec_fn(Ptr) -> u8,
    now: spec_fn(Ptr) -> u8,
    tun: Tuning,
    mm: MatMul,
    ok: spec_fn(int) -> bool,
    at: int,
    c: int,
    p: Ptr,
)
    requires
        is_plain(tun, mm),
        0 <= c < tile_count(mm),
        tile_takes_all(mm.ty) ==> c == 0,
        forall|q: Ptr|
            #[trigger] now(q) == if is_inside(mm.out, c * TILE_ROWS * mm.n_out * 4, q) {
                job_of(mm).byte(k, m, distance(mm.out, q).unwrap())
            } else {
                m(q)
            },
        c * TILE_ROWS <= mm.t,
    ensures
        ran(k, now, tile_program(mm).skip(c), ok, at)(p) == job_of(mm).applied(k, m, m)(p),
    decreases tile_count(mm) - c,
{
    let prog = tile_program(mm);
    let n = tile_count(mm);
    let rest = prog.skip(c);
    let all = tile_takes_all(mm.ty);
    if !all {
        lemma_ceil_div(mm.t as int, TILE_ROWS as int);
    }
    let job = job_of(mm);
    let call = tile_call(mm, c);
    let (t0, rb, sb) = (c * TILE_ROWS, mm.n_out * 4, mm.xq_w * 4);
    let t1: int = if all {
        mm.t as int
    } else {
        vstd::math::min(TILE_ROWS as int, mm.t - t0)
    };
    assert(rest[0] == prog[c]);
    assert(call.t == t1);
    assert(t0 * mm.n_out * 4 == t0 * rb && t1 * mm.n_out * 4 == t1 * rb && (t0 + t1) * mm.n_out * 4
        == t0 * rb + t1 * rb && t0 * mm.xq_w * 4 == t0 * sb && 0 <= t0 * rb && 0 <= t1 * rb && 0
        <= t0 * sb && t0 * rb + t1 * rb <= mm.t * mm.n_out * 4 && t0 * sb <= mm.t * mm.xq_w * 4)
        by (nonlinear_arith)
        requires
            0 <= t0,
            0 <= t1,
            t0 + t1 <= mm.t,
            rb == mm.n_out * 4,
            sb == mm.xq_w * 4,
            0 <= mm.n_out,
            0 <= mm.xq_w,
    ;
    // What the call leaves where it is accepted.
    let next = job_of(call).applied(k, now, now);
    assert forall|q: Ptr| #[trigger] next(q) == if is_inside(mm.out, (t0 + t1) * mm.n_out * 4, q) {
        job.byte(k, m, distance(mm.out, q).unwrap())
    } else {
        m(q)
    } by {
        if distance(mm.out, q) is Some {
            let j = distance(mm.out, q).unwrap();
            assert(distance(call.out, q) == Some(j - t0 * rb));
            if t0 * rb <= j < t0 * rb + t1 * rb {
                let o = j - t0 * rb;
                assert(rb > 0) by (nonlinear_arith)
                    requires
                        0 <= o < t1 * rb,
                        0 <= t1,
                        0 <= rb,
                ;
                vstd::arithmetic::div_mod::lemma_hoist_over_denominator(o, t0, rb as nat);
                vstd::arithmetic::div_mod::lemma_mod_multiples_vanish(t0, o, rb);
                assert(rb * t0 == t0 * rb) by (nonlinear_arith);
                vstd::arithmetic::div_mod::lemma_div_pos_is_pos(o, rb);
                let i = o / rb;
                assert(i < t1) by (nonlinear_arith)
                    requires
                        0 <= o < t1 * rb,
                        i == o / rb,
                        0 < rb,
                ;
                assert(t0 * sb + i * sb == (i + t0) * sb && 0 <= i * sb && (i + t0) * sb <= mm.t
                    * mm.xq_w * 4) by (nonlinear_arith)
                    requires
                        0 <= i,
                        0 <= t0,
                        i + t0 <= mm.t,
                        sb == mm.xq_w * 4,
                        0 <= mm.xq_w,
                ;
                assert(call.x.spec_at(i * sb) == mm.x.spec_at((i + t0) * sb));
                lemma_rows_same(m, now, mm.out, mm.x, sb, i + t0);
                assert(row_at(now, call.x, sb, i) =~= row_at(now, mm.x, sb, i + t0));
            }
        }
    }
    if ok(at) {
        if c + 1 == n {
            assert(rest.len() == 2);
            assert(t0 + t1 == mm.t);
            assert(next(p) == job.applied(k, m, m)(p));
        } else {
            assert(!all);
            assert(t1 == TILE_ROWS && t0 + t1 == (c + 1) * TILE_ROWS);
            assert(rest.skip(1) =~= prog.skip(c + 1));
            assert forall|q: Ptr| #[trigger] next(q) == if is_inside(
                mm.out,
                (c + 1) * TILE_ROWS * mm.n_out * 4,
                q,
            ) {
                job.byte(k, m, distance(mm.out, q).unwrap())
            } else {
                m(q)
            } by {
                assert((t0 + t1) * mm.n_out * 4 == (c + 1) * TILE_ROWS * mm.n_out * 4);
            }
            lemma_tiles_complete(k, m, next, tun, mm, ok, at + 1, c + 1, p);
        }
    } else {
        let left = n - c;
        assert(rest.len() == left + 1);
        assert(rest.skip(left) =~= seq![Cmd::Gemv(mm)]);
        let last = seq![Cmd::Gemv(mm)];
        assert(last.skip(1) =~= Seq::<Cmd>::empty());
        assert(ran(k, now, last, ok, at + left) == job.applied(k, now, now)) by {
            reveal_with_fuel(ran, 2);
        }
        if is_inside(mm.out, mm.t * mm.n_out * 4, p) {
            let j = distance(mm.out, p).unwrap();
            lemma_rows_same(m, now, mm.out, mm.x, sb, j / rb);
        }
    }
}

/// The program of a product writes the product, whichever kernel it picks and whichever
/// attempt is refused, and leaves all other memory as it was.
pub proof fn lemma_gemm_completes(
    k: Kernels,
    m: spec_fn(Ptr) -> u8,
    tun: Tuning,
    mm: MatMul,
    ok: spec_fn(int) -> bool,
    at: int,
    p: Ptr,
)
    requires
        is_plain(tun, mm),
    ensures
        jumps_inside(gemm_program(tun, mm)),
        ran(k, m, gemm_program(tun, mm), ok, at)(p) == job_of(mm).applied(k, m, m)(p),
{
    let prog = gemm_program(tun, mm);
    let job = job_of(mm);
    let rb = mm.n_out * 4;
    assert(mm.t * mm.n_out * 4 >= 0 && mm.t * mm.n_out <= mm.t * mm.n_out * 4) by (nonlinear_arith)
        requires
            0 <= mm.t,
            0 <= mm.n_out,
    ;
    reveal_with_fuel(ran, 4);
    assert forall|i: int| 0 <= i < prog.len() implies is_covered(#[trigger] prog[i]) by {
        law_product_grids_cover(tun, mm, i);
    }
    if mm.ty == 12 && mm.t >= 16 && (tun.q4k_mmq || tun.q4k_outs) {
        if tun.q4k_y {
            let zeroed = performed(k, m, prog[0]);
            assert(prog.skip(1).skip(1) =~= seq![prog[2]]);
            assert(prog.skip(1)[0] == prog[1]);
            assert(seq![prog[2]].skip(1) =~= Seq::<Cmd>::empty());
            assert(ran(k, m, prog, ok, at) == job.applied(k, zeroed, zeroed));
            if is_inside(mm.out, mm.t * mm.n_out * 4, p) {
                lemma_rows_same(m, zeroed, mm.out, mm.x, mm.xq_w * 4, distance(mm.out, p).unwrap() / rb);
            }
        } else {
            assert(prog.skip(1) =~= seq![prog[1]]);
            assert(seq![prog[1]].skip(1) =~= Seq::<Cmd>::empty());
        }
    } else if mm.ty == 7 {
        assert(prog.skip(1) =~= seq![prog[1]]);
        assert(seq![prog[1]].skip(1) =~= Seq::<Cmd>::empty());
    } else if (mm.t >= 16 || tun.prefill_pin) && !tun.no_tile {
        if tile_count(mm) > 0 {
            assert(prog.skip(0) =~= prog);
            assert(0 * TILE_ROWS * mm.n_out * 4 == 0) by (nonlinear_arith);
            lemma_tiles_complete(k, m, m, tun, mm, ok, at, 0, p);
        } else {
            lemma_ceil_div(mm.t as int, TILE_ROWS as int);
            assert(prog =~= Seq::<Cmd>::empty());
            assert(mm.t == 0);
            assert(mm.t * mm.n_out * 4 == 0) by (nonlinear_arith)
                requires
                    mm.t == 0,
            ;
        }
    } else {
        assert(prog.skip(1) =~= Seq::<Cmd>::empty());
    }
}

} // verus!
