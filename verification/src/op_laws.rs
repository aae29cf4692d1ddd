//! What the operations on frames leave in memory.
//!
//! The kernels are parameters, as in `kernel_effects`. Each law says of every value of
//! every token of the step which values it is computed from.

use vstd::prelude::*;
use crate::acc::Q4Acc;
use crate::arith::lemma_ceil_div;
use crate::device::{spec_buf, Cmd, Ptr, Slot};
use crate::error::AccError;
use crate::kernel_effects::{column, none, value_at, view, Op};
use crate::memory::{distance, is_inside};
use crate::ops::{op_cmds, op_handles, spec_blocks, FrameOp};
use crate::product_runs::{performed, ran, row_at, Kernels};
use crate::recurrence_laws::{are_apart, bytes_at};

verus! {

/// The address of a frame.
pub open spec fn frame(acc: Q4Acc, h: u64) -> Ptr {
    match acc.frames.spec_ptr(h) {
        Ok(p) => p,
        Err(_) => Ptr::Null,
    }
}

/// The `n` bytes from the start of a frame on can be addressed.
pub open spec fn reaches(acc: Q4Acc, h: u64, n: int) -> bool {
    frame(acc, h).offset() + n <= usize::MAX
}

/// The program of an operation.
pub open spec fn is_program(acc: Q4Acc, op: FrameOp, c: Seq<Cmd>) -> bool {
    acc.op_program(op) == Ok::<Seq<Cmd>, AccError>(c)
}

/// Addresses of frames are looked up one by one.
pub proof fn lemma_frames(acc: Q4Acc, hs: Seq<u64>, ps: Seq<Ptr>)
    requires
        acc.frame_ptrs(hs) == Ok::<Seq<Ptr>, AccError>(ps),
    ensures
        ps.len() == hs.len(),
        forall|i: int| 0 <= i < hs.len() ==> #[trigger] ps[i] == frame(acc, hs[i]) && ps[i] is Dev,
    decreases hs.len(),
{
    if hs.len() > 0 {
        let init = acc.frame_ptrs(hs.drop_last());
        assert(init is Ok);
        lemma_frames(acc, hs.drop_last(), init.unwrap());
        assert forall|i: int| 0 <= i < hs.len() implies #[trigger] ps[i] == frame(acc, hs[i])
            && ps[i] is Dev by {
            if i < hs.len() - 1 {
                assert(init.unwrap()[i] == frame(acc, hs.drop_last()[i]));
            }
        }
    }
}

/// A program of one command that is no attempt.
pub proof fn lemma_one_command(k: Kernels, m: spec_fn(Ptr) -> u8, c: Seq<Cmd>, ok: spec_fn(int) -> bool, at: int)
    requires
        c.len() == 1,
        !(c[0] is Try),
    ensures
        ran(k, m, c, ok, at) == performed(k, m, c[0]),
{
    reveal_with_fuel(ran, 2);
    assert(c.skip(1) =~= Seq::<Cmd>::empty());
}

/// Blocks of `per` threads reach all elements.
pub proof fn lemma_blocks(n: int, per: int)
    requires
        0 <= n <= u32::MAX,
        per >= 1,
    ensures
        spec_blocks(n, per) * per >= n,
{
    lemma_ceil_div(n, per);
    let c = crate::arith::spec_ceil_div(n, per);
    assert(0 <= c <= n) by (nonlinear_arith)
        requires
            c * per < n + per,
            c * per >= n,
            per >= 1,
            n >= 0,
    ;
}

/// The program of an operation and the addresses in it.
proof fn lemma_op(acc: Q4Acc, op: FrameOp, c: Seq<Cmd>) -> (p: Seq<Ptr>)
    requires
        is_program(acc, op, c),
    ensures
        c == op_cmds(acc.tuning.rms_small, op, acc.spec_t(), p),
        p.len() == op_handles(op).len(),
        forall|i: int|
            0 <= i < p.len() ==> #[trigger] p[i] == frame(acc, op_handles(op)[i]) && p[i] is Dev,
{
    let p = acc.frame_ptrs(op_handles(op)).unwrap();
    lemma_frames(acc, op_handles(op), p);
    p
}

/// Every value is replaced by its own activation.
pub proof fn law_silu_div(
    acc: Q4Acc,
    k: Kernels,
    m: spec_fn(Ptr) -> u8,
    ok: spec_fn(int) -> bool,
    c: Seq<Cmd>,
    t: u64,
    div: u32,
    n: usize,
    j: int,
)
    requires
        is_program(acc, (FrameOp::SiluDiv { t, div, n }), c),
        n <= i32::MAX,
        reaches(acc, t, n * 4),
        0 <= j < n * 4,
    ensures
        ran(k, m, c, ok, 0)(frame(acc, t).spec_at(j)) == (k.op)(
            Op::SiluDiv,
            seq![div as int],
            seq![value_at(m, frame(acc, t), j / 4)],
            none(),
        )[j % 4],
{
    let op = (FrameOp::SiluDiv { t, div, n });
    let p = lemma_op(acc, op, c);
    let hs = op_handles(op);
    lemma_one_command(k, m, c, ok, 0);
    lemma_blocks(n as int, 128);
    assert(forall|i: int| 0 <= i < p.len() ==> #[trigger] p[i] == frame(acc, hs[i]));
    assert(frame(acc, t) is Dev && distance(frame(acc, t), frame(acc, t).spec_at(j)) == Some(j));
}

/// Every value of the output is made of the two values at its place.
pub proof fn law_silu_mul(
    acc: Q4Acc,
    k: Kernels,
    m: spec_fn(Ptr) -> u8,
    ok: spec_fn(int) -> bool,
    c: Seq<Cmd>,
    g: u64,
    u: u64,
    out: u64,
    n: usize,
    j: int,
)
    requires
        is_program(acc, (FrameOp::SiluMul { g, u, out, n }), c),
        n <= i32::MAX,
        reaches(acc, out, n * 4),
        0 <= j < n * 4,
    ensures
        ran(k, m, c, ok, 0)(frame(acc, out).spec_at(j)) == (k.op)(
            Op::SiluMul,
            Seq::empty(),
            seq![value_at(m, frame(acc, g), j / 4), value_at(m, frame(acc, u), j / 4)],
            none(),
        )[j % 4],
{
    let op = (FrameOp::SiluMul { g, u, out, n });
    let p = lemma_op(acc, op, c);
    let hs = op_handles(op);
    lemma_one_command(k, m, c, ok, 0);
    lemma_blocks(n as int, 128);
    assert(forall|i: int| 0 <= i < p.len() ==> #[trigger] p[i] == frame(acc, hs[i]));
    assert(frame(acc, out) is Dev && distance(frame(acc, out), frame(acc, out).spec_at(j)) == Some(j));
}

/// Every value is replaced by its own sigmoid.
pub proof fn law_sigmoid(
    acc: Q4Acc,
    k: Kernels,
    m: spec_fn(Ptr) -> u8,
    ok: spec_fn(int) -> bool,
    c: Seq<Cmd>,
    t: u64,
    n: usize,
    j: int,
)
    requires
        is_program(acc, (FrameOp::Sigmoid { t, n }), c),
        n <= i32::MAX,
        reaches(acc, t, n * 4),
        0 <= j < n * 4,
    ensures
        ran(k, m, c, ok, 0)(frame(acc, t).spec_at(j)) == (k.op)(
            Op::Sigmoid,
            Seq::empty(),
            seq![value_at(m, frame(acc, t), j / 4)],
            none(),
        )[j % 4],
{
    let op = (FrameOp::Sigmoid { t, n });
    let p = lemma_op(acc, op, c);
    let hs = op_handles(op);
    lemma_one_command(k, m, c, ok, 0);
    lemma_blocks(n as int, 128);
    assert(forall|i: int| 0 <= i < p.len() ==> #[trigger] p[i] == frame(acc, hs[i]));
    assert(frame(acc, t) is Dev && distance(frame(acc, t), frame(acc, t).spec_at(j)) == Some(j));
}

/// Every value is scaled.
pub proof fn law_scale(
    acc: Q4Acc,
    k: Kernels,
    m: spec_fn(Ptr) -> u8,
    ok: spec_fn(int) -> bool,
    c: Seq<Cmd>,
    t: u64,
    s: u32,
    n: usize,
    j: int,
)
    requires
        is_program(acc, (FrameOp::Scale { t, s, n }), c),
        n <= i32::MAX,
        reaches(acc, t, n * 4),
        0 <= j < n * 4,
    ensures
        ran(k, m, c, ok, 0)(frame(acc, t).spec_at(j)) == (k.op)(
            Op::Scale,
            seq![s as int],
            seq![value_at(m, frame(acc, t), j / 4)],
            none(),
        )[j % 4],
{
    let op = (FrameOp::Scale { t, s, n });
    let p = lemma_op(acc, op, c);
    let hs = op_handles(op);
    lemma_one_command(k, m, c, ok, 0);
    lemma_blocks(n as int, 128);
    assert(forall|i: int| 0 <= i < p.len() ==> #[trigger] p[i] == frame(acc, hs[i]));
    assert(frame(acc, t) is Dev && distance(frame(acc, t), frame(acc, t).spec_at(j)) == Some(j));
}

/// A normed row: the row at place `i` of its token.
pub open spec fn normed(k: Kernels, eps: int, n: int, i: int, x: Seq<u8>, w: Seq<u8>) -> Seq<u8> {
    (k.op)(Op::Rms, seq![eps, n, i], seq![x, w], none())
}

/// The two launches of a norm compute it: the last one is told what the first one found.
pub open spec fn norms_in_parts(k: Kernels) -> bool {
    forall|eps: int, n: int, i: int, x: Seq<u8>, w: Seq<u8>|
        #[trigger] normed(k, eps, n, i, x, w) == (k.op)(
            Op::RmsFinish,
            seq![eps, n, i],
            seq![
                x,
                w,
                Seq::new(256, |b: int| (k.op)(Op::RmsPart, seq![n], seq![x], none())[b]),
            ],
            none(),
        )
}

/// Byte `i * d + b` of rows of `d` bytes lies in row `i`.
pub proof fn lemma_in_row(i: int, b: int, d: int, rows: int)
    requires
        0 <= i < rows,
        0 <= b < d,
    ensures
        0 <= i * d + b < rows * d,
        (i * d + b) / d == i,
        (i * d + b) % d == b,
        0 <= i * d,
        i * d + d <= rows * d,
{
    vstd::arithmetic::div_mod::lemma_fundamental_div_mod_converse(i * d + b, d, i, b);
    assert(0 <= i * d && i * d + d <= rows * d) by (nonlinear_arith)
        requires
            0 <= i < rows,
            0 < d,
    ;
}

/// Every row of every token, `w_reps` of them, is normed by itself, with the weights and
/// its place among the rows of its token, in one launch or in two.
pub proof fn law_rms_rows(
    acc: Q4Acc,
    k: Kernels,
    m: spec_fn(Ptr) -> u8,
    ok: spec_fn(int) -> bool,
    c: Seq<Cmd>,
    x: u64,
    w: u64,
    out: u64,
    eps: u32,
    n: usize,
    w_reps: usize,
    i: int,
    b: int,
)
    requires
        is_program(acc, (FrameOp::RmsRows { x, w, out, eps, n, w_reps }), c),
        n <= i32::MAX / 4,
        w_reps >= 1,
        w_reps * acc.spec_t() <= i32::MAX,
        w_reps * acc.spec_t() * 256 <= usize::MAX,
        reaches(acc, out, w_reps * acc.spec_t() * (n * 4)),
        reaches(acc, x, w_reps * acc.spec_t() * (n * 4)),
        reaches(acc, w, w_reps * (n * 4)),
        0 <= i < w_reps * acc.spec_t(),
        0 <= b < n * 4,
        norms_in_parts(k),
    ensures
        ran(k, m, c, ok, 0)(frame(acc, out).spec_at(i * (n * 4) + b)) == normed(
            k,
            eps as int,
            n as int,
            i % (w_reps as int),
            row_at(m, frame(acc, x), n * 4, i),
            bytes_at(m, frame(acc, w), w_reps * (n * 4)),
        )[b],
{
    let op = (FrameOp::RmsRows { x, w, out, eps, n, w_reps });
    let p = lemma_op(acc, op, c);
    let hs = op_handles(op);
    assert(forall|i: int| 0 <= i < p.len() ==> #[trigger] p[i] == frame(acc, hs[i]));
    let rows = w_reps * acc.spec_t();
    lemma_in_row(i, b, n * 4, rows);
    assert(w_reps <= rows) by (nonlinear_arith)
        requires
            rows == w_reps * acc.spec_t(),
            acc.spec_t() >= 1,
            w_reps >= 0,
    ;
    assert(distance(p[2], p[2].spec_at(i * (n * 4) + b)) == Some(i * (n * 4) + b));
    if rows <= 32 && acc.tuning.rms_small {
        lemma_one_command(k, m, c, ok, 0);
        lemma_ceil_div(rows, 8);
    } else {
        reveal_with_fuel(ran, 4);
        assert(c.skip(1)[0] == c[1]);
        assert(c.skip(1).skip(1) =~= seq![c[2]]);
        assert(seq![c[2]].skip(1) =~= Seq::<Cmd>::empty());
        let part = spec_buf(Slot::Fpart);
        let mid = performed(k, m, c[1]);
        assert(ran(k, m, c, ok, 0) == performed(k, mid, c[2]));
        assert(row_at(mid, p[0], n * 4, i) =~= row_at(m, p[0], n * 4, i));
        assert(bytes_at(mid, p[1], w_reps * (n * 4)) =~= bytes_at(m, p[1], w_reps * (n * 4)));
        let x_row = row_at(m, p[0], n * 4, i);
        let sums = Seq::new(
            256,
            |q: int| (k.op)(Op::RmsPart, seq![n as int], seq![x_row], none())[q],
        );
        assert forall|q: int| 0 <= q < 256 implies #[trigger] row_at(mid, part, 256, i)[q]
            == sums[q] by {
            lemma_in_row(i, q, 256, rows);
            assert(distance(part, part.spec_at(i * 256).spec_at(q)) == Some(i * 256 + q));
        }
        assert(row_at(mid, part, 256, i) =~= sums);
    }
}

/// Every head of every token is normed and gated by itself.
pub proof fn law_norm_gated(
    acc: Q4Acc,
    k: Kernels,
    m: spec_fn(Ptr) -> u8,
    ok: spec_fn(int) -> bool,
    c: Seq<Cmd>,
    o: u64,
    z: u64,
    w: u64,
    out: u64,
    eps: u32,
    d: usize,
    n_h: usize,
    i: int,
    b: int,
)
    requires
        is_program(acc, (FrameOp::NormGated { o, z, w, out, eps, d, n_h }), c),
        d <= i32::MAX / 4,
        1 <= n_h <= i32::MAX,
        acc.spec_t() <= i32::MAX,
        reaches(acc, out, acc.spec_t() * n_h * (d * 4)),
        0 <= i < acc.spec_t() * n_h,
        0 <= b < d * 4,
    ensures
        ran(k, m, c, ok, 0)(frame(acc, out).spec_at(i * (d * 4) + b)) == (k.op)(
            Op::NormGated,
            seq![eps as int, d as int],
            seq![
                row_at(m, frame(acc, o), d * 4, i),
                row_at(m, frame(acc, z), d * 4, i),
                bytes_at(m, frame(acc, w), d * 4),
            ],
            none(),
        )[b],
{
    let op = (FrameOp::NormGated { o, z, w, out, eps, d, n_h });
    let p = lemma_op(acc, op, c);
    let hs = op_handles(op);
    assert(forall|i: int| 0 <= i < p.len() ==> #[trigger] p[i] == frame(acc, hs[i]));
    let t = acc.spec_t();
    lemma_in_row(i, b, d * 4, t * n_h);
    assert(n_h * t / n_h as int == t) by (nonlinear_arith)
        requires
            n_h >= 1,
    ;
    assert(distance(p[3], p[3].spec_at(i * (d * 4) + b)) == Some(i * (d * 4) + b));
    lemma_one_command(k, m, c, ok, 0);
}

/// Every row of `d` values is normed by itself.
pub proof fn law_l2_rows(
    acc: Q4Acc,
    k: Kernels,
    m: spec_fn(Ptr) -> u8,
    ok: spec_fn(int) -> bool,
    c: Seq<Cmd>,
    x: u64,
    eps: u32,
    d: usize,
    n: usize,
    i: int,
    b: int,
)
    requires
        is_program(acc, (FrameOp::L2Rows { x, eps, d, n }), c),
        1 <= d <= i32::MAX / 4,
        n <= i32::MAX,
        reaches(acc, x, n as int / d as int * (d * 4)),
        0 <= i < n as int / d as int,
        0 <= b < d * 4,
    ensures
        ran(k, m, c, ok, 0)(frame(acc, x).spec_at(i * (d * 4) + b)) == (k.op)(
            Op::L2,
            seq![eps as int, d as int],
            seq![row_at(m, frame(acc, x), d * 4, i)],
            none(),
        )[b],
{
    let op = (FrameOp::L2Rows { x, eps, d, n });
    let p = lemma_op(acc, op, c);
    let hs = op_handles(op);
    assert(forall|i: int| 0 <= i < p.len() ==> #[trigger] p[i] == frame(acc, hs[i]));
    let rows = n as int / d as int;
    assert(rows <= n) by (nonlinear_arith)
        requires
            rows == n as int / d as int,
            d >= 1,
            n >= 0,
    ;
    lemma_in_row(i, b, d * 4, rows);
    assert(distance(p[0], p[0].spec_at(i * (d * 4) + b)) == Some(i * (d * 4) + b));
    lemma_one_command(k, m, c, ok, 0);
}

/// Every row of the destination is a copy of the source.
pub proof fn law_bcast_rows(
    acc: Q4Acc,
    k: Kernels,
    m: spec_fn(Ptr) -> u8,
    ok: spec_fn(int) -> bool,
    c: Seq<Cmd>,
    src: u64,
    dst: u64,
    n: usize,
    rows: usize,
    i: int,
    b: int,
)
    requires
        is_program(acc, (FrameOp::BcastRows { src, dst, n, rows }), c),
        n <= i32::MAX / 4,
        rows <= i32::MAX,
        reaches(acc, dst, rows * (n * 4)),
        0 <= i < rows,
        0 <= b < n * 4,
    ensures
        ran(k, m, c, ok, 0)(frame(acc, dst).spec_at(i * (n * 4) + b)) == m(frame(acc, src).spec_at(b)),
{
    let op = (FrameOp::BcastRows { src, dst, n, rows });
    let p = lemma_op(acc, op, c);
    let hs = op_handles(op);
    assert(forall|i: int| 0 <= i < p.len() ==> #[trigger] p[i] == frame(acc, hs[i]));
    lemma_in_row(i, b, n * 4, rows as int);
    lemma_blocks(n as int, 128);
    assert(distance(p[1], p[1].spec_at(i * (n * 4) + b)) == Some(i * (n * 4) + b));
    lemma_one_command(k, m, c, ok, 0);
}

/// `n` values are copied, from their place in the source to that in the destination.
pub proof fn law_copy_rows(
    acc: Q4Acc,
    k: Kernels,
    m: spec_fn(Ptr) -> u8,
    ok: spec_fn(int) -> bool,
    c: Seq<Cmd>,
    src: u64,
    dst: u64,
    src_off: usize,
    dst_off: usize,
    n: usize,
    b: int,
)
    requires
        is_program(acc, (FrameOp::CopyRows { src, dst, src_off, dst_off, n }), c),
        n <= i32::MAX,
        src_off <= i32::MAX,
        dst_off <= i32::MAX,
        reaches(acc, dst, (dst_off + n) * 4),
        0 <= b < n * 4,
    ensures
        ran(k, m, c, ok, 0)(frame(acc, dst).spec_at(dst_off * 4 + b)) == m(frame(acc, src).spec_at(src_off * 4 + b)),
{
    let op = (FrameOp::CopyRows { src, dst, src_off, dst_off, n });
    let p = lemma_op(acc, op, c);
    let hs = op_handles(op);
    assert(forall|i: int| 0 <= i < p.len() ==> #[trigger] p[i] == frame(acc, hs[i]));
    lemma_blocks(n as int, 128);
    assert(distance(p[1].spec_at(dst_off * 4), p[1].spec_at(dst_off * 4 + b)) == Some(b));
    lemma_one_command(k, m, c, ok, 0);
}

/// Value `i` of token `s` comes from the values at `i` of its own streams and gates.
pub proof fn law_hc_gate_mean(
    acc: Q4Acc,
    k: Kernels,
    m: spec_fn(Ptr) -> u8,
    ok: spec_fn(int) -> bool,
    c: Seq<Cmd>,
    xn: u64,
    gate: u64,
    out: u64,
    hc: usize,
    n: usize,
    s: int,
    i: int,
    b: int,
)
    requires
        is_program(acc, (FrameOp::HcGateMean { xn, gate, out, hc, n }), c),
        hc <= i32::MAX,
        n <= i32::MAX,
        n * acc.spec_t() <= i32::MAX,
        reaches(acc, out, n * acc.spec_t() * 4),
        0 <= s < acc.spec_t(),
        0 <= i < n,
        0 <= b < 4,
    ensures
        ran(k, m, c, ok, 0)(frame(acc, out).spec_at((s * n + i) * 4 + b)) == (k.op)(
            Op::GateMean,
            seq![hc as int],
            seq![
                column(m, frame(acc, xn), s * hc * n + i, n as int, hc as int),
                column(m, frame(acc, gate), s * hc * n + i, n as int, hc as int),
            ],
            none(),
        )[b],
{
    let op = (FrameOp::HcGateMean { xn, gate, out, hc, n });
    let p = lemma_op(acc, op, c);
    let hs = op_handles(op);
    assert(forall|i: int| 0 <= i < p.len() ==> #[trigger] p[i] == frame(acc, hs[i]));
    let t = acc.spec_t();
    lemma_in_row(s, i, n as int, t);
    assert(t * n == n * t) by (nonlinear_arith);
    lemma_blocks(n * t, 128);
    let j = (s * n + i) * 4 + b;
    assert(j / 4 == s * n + i && j % 4 == b);
    assert(distance(p[2], p[2].spec_at(j)) == Some(j));
    lemma_one_command(k, m, c, ok, 0);
}

/// Value `i` of stream `h` of token `s` takes up the output of its token, by the weight of
/// its stream.
pub proof fn law_hc_combine(
    acc: Q4Acc,
    k: Kernels,
    m: spec_fn(Ptr) -> u8,
    ok: spec_fn(int) -> bool,
    c: Seq<Cmd>,
    res: u64,
    out: u64,
    inj: u64,
    hc: usize,
    n: usize,
    s: int,
    h: int,
    i: int,
    b: int,
)
    requires
        is_program(acc, (FrameOp::HcCombine { res, out, inj, hc, n }), c),
        hc <= i32::MAX,
        n <= i32::MAX,
        n * acc.spec_t() <= i32::MAX,
        reaches(acc, res, acc.spec_t() * (hc * n) * 4),
        0 <= s < acc.spec_t(),
        0 <= h < hc,
        0 <= i < n,
        0 <= b < 4,
    ensures
        ran(k, m, c, ok, 0)(frame(acc, res).spec_at((s * (hc * n) + (h * n + i)) * 4 + b)) == (k.op)(
            Op::HcAdd,
            seq![hc as int],
            seq![
                value_at(m, frame(acc, res), s * (hc * n) + (h * n + i)),
                value_at(m, frame(acc, out), s * n + i),
                value_at(m, frame(acc, inj), s * hc + h),
            ],
            none(),
        )[b],
{
    let op = (FrameOp::HcCombine { res, out, inj, hc, n });
    let p = lemma_op(acc, op, c);
    let hs = op_handles(op);
    assert(forall|i: int| 0 <= i < p.len() ==> #[trigger] p[i] == frame(acc, hs[i]));
    let t = acc.spec_t();
    lemma_in_row(h, i, n as int, hc as int);
    lemma_in_row(s, h * n + i, hc * n, t);
    lemma_in_row(s, i, n as int, t);
    assert(t * n == n * t) by (nonlinear_arith);
    lemma_blocks(n * t, 128);
    let x = s * (hc * n) + (h * n + i);
    assert(x == (s * hc + h) * n + i) by (nonlinear_arith)
        requires
            x == s * (hc * n) + (h * n + i),
    ;
    lemma_in_row(s, h, hc as int, t);
    assert(0 <= s * hc + h) by (nonlinear_arith)
        requires
            0 <= s,
            0 <= hc,
            0 <= h,
    ;
    vstd::arithmetic::div_mod::lemma_fundamental_div_mod_converse(x, n as int, s * hc + h, i);
    let j = x * 4 + b;
    assert(j / 4 == x && j % 4 == b);
    assert(distance(p[0], p[0].spec_at(j)) == Some(j));
    lemma_one_command(k, m, c, ok, 0);
}

/// The parts of every row go to their own frames. (The last block may run on for less
/// than a block's worth of values, so the frames lie that far apart.)
#[verifier::rlimit(60)]
pub proof fn law_split3(
    acc: Q4Acc,
    k: Kernels,
    m: spec_fn(Ptr) -> u8,
    ok: spec_fn(int) -> bool,
    c: Seq<Cmd>,
    src: u64,
    d0: u64,
    d1: u64,
    d2: u64,
    n0: usize,
    n1: usize,
    n2: usize,
    s: int,
    b: int,
)
    requires
        is_program(acc, (FrameOp::Split3 { src, d0, d1, d2, n0, n1, n2 }), c),
        n0 <= i32::MAX,
        n1 <= i32::MAX,
        n2 <= i32::MAX,
        (n0 + n1 + n2) * acc.spec_t() <= i32::MAX,
        reaches(acc, d0, acc.spec_t() * (n0 * 4)),
        reaches(acc, d1, acc.spec_t() * (n1 * 4)),
        reaches(acc, d2, acc.spec_t() * (n2 * 4)),
        distance(frame(acc, d0), frame(acc, d1)) is None,
        distance(frame(acc, d0), frame(acc, d2)) is None,
        distance(frame(acc, d1), frame(acc, d2)) is None,
        0 <= s < acc.spec_t(),
    ensures
        ({
            let after = ran(k, m, c, ok, 0);
            let w = (n0 + n1 + n2) * 4;
            &&& 0 <= b < n0 * 4 ==> after(frame(acc, d0).spec_at(s * (n0 * 4) + b)) == m(
                frame(acc, src).spec_at(s * w + b),
            )
            &&& 0 <= b < n1 * 4 ==> after(frame(acc, d1).spec_at(s * (n1 * 4) + b)) == m(
                frame(acc, src).spec_at(s * w + n0 * 4 + b),
            )
            &&& 0 <= b < n2 * 4 ==> after(frame(acc, d2).spec_at(s * (n2 * 4) + b)) == m(
                frame(acc, src).spec_at(s * w + n0 * 4 + n1 * 4 + b),
            )
        }),
{
    let op = (FrameOp::Split3 { src, d0, d1, d2, n0, n1, n2 });
    let p = lemma_op(acc, op, c);
    let hs = op_handles(op);
    assert(forall|i: int| 0 <= i < p.len() ==> #[trigger] p[i] == frame(acc, hs[i]));
    let t = acc.spec_t();
    let w = (n0 + n1 + n2) * 4;
    lemma_blocks((n0 + n1 + n2) * t, 128);
    lemma_one_command(k, m, c, ok, 0);
    let all = spec_blocks((n0 + n1 + n2) * t, 128) * 128 * 4;
    assert(t * w <= all) by (nonlinear_arith)
        requires
            w == (n0 + n1 + n2) * 4,
            all >= (n0 + n1 + n2) * t * 4,
    ;
    assert(n0 <= (n0 + n1 + n2) * t && n1 <= (n0 + n1 + n2) * t && n2 <= (n0 + n1 + n2) * t)
        by (nonlinear_arith)
        requires
            t >= 1,
            n0 >= 0,
            n1 >= 0,
            n2 >= 0,
    ;
    let (a0, a1, a2) = (n0 * 4, n1 * 4, n2 * 4);
    let after = ran(k, m, c, ok, 0);
    assert(after == performed(k, m, c[0]));
    if 0 <= b < a0 {
        lemma_in_row(s, b, a0, t);
        lemma_in_row(s, b, w, t);
        let q = p[1].spec_at(s * a0 + b);
        assert(distance(p[1], q) == Some(s * a0 + b));
        assert(distance(p[2], q) is None && distance(p[3], q) is None);
        assert(after(q) == m(p[0].spec_at(s * w + b)));
    }
    if 0 <= b < a1 {
        lemma_in_row(s, b, a1, t);
        lemma_in_row(s, a0 + b, w, t);
        let q = p[2].spec_at(s * a1 + b);
        assert(distance(p[2], q) == Some(s * a1 + b));
        assert(distance(p[3], q) is None);
        assert(after(q) == m(p[0].spec_at(s * w + a0 + b)));
    }
    if 0 <= b < a2 {
        lemma_in_row(s, b, a2, t);
        lemma_in_row(s, a0 + a1 + b, w, t);
        let q = p[3].spec_at(s * a2 + b);
        assert(distance(p[3], q) == Some(s * a2 + b));
        assert(after(q) == m(p[0].spec_at(s * w + a0 + a1 + b)));
    }
}

/// Both gates of every head of every token come from its own inputs and from the
/// parameters of its head; `n_h` counts the heads of all tokens.
pub proof fn law_gdn_beta_g(
    acc: Q4Acc,
    k: Kernels,
    m: spec_fn(Ptr) -> u8,
    ok: spec_fn(int) -> bool,
    c: Seq<Cmd>,
    b: u64,
    a: u64,
    dtb: u64,
    sa: u64,
    bg: u64,
    n_h: usize,
    j: int,
)
    requires
        is_program(acc, (FrameOp::GdnBetaG { b, a, dtb, sa, bg, n_h }), c),
        n_h <= i32::MAX,
        reaches(acc, bg, n_h * 8),
        0 <= j < n_h * 8,
    ensures
        ran(k, m, c, ok, 0)(frame(acc, bg).spec_at(j)) == (k.op)(
            Op::BetaG,
            Seq::empty(),
            seq![
                value_at(m, frame(acc, b), j / 8),
                value_at(m, frame(acc, a), j / 8),
                value_at(m, frame(acc, dtb), j / 8 % (n_h as int / acc.spec_t())),
                value_at(m, frame(acc, sa), j / 8 % (n_h as int / acc.spec_t())),
            ],
            none(),
        )[j % 8],
{
    let op = (FrameOp::GdnBetaG { b, a, dtb, sa, bg, n_h });
    let p = lemma_op(acc, op, c);
    let hs = op_handles(op);
    assert(forall|i: int| 0 <= i < p.len() ==> #[trigger] p[i] == frame(acc, hs[i]));
    lemma_blocks(n_h as int, 128);
    let t = acc.spec_t();
    assert(0 <= n_h as int / t <= n_h) by (nonlinear_arith)
        requires
            t >= 1,
            n_h >= 0,
    ;
    assert(distance(p[4], p[4].spec_at(j)) == Some(j));
    lemma_one_command(k, m, c, ok, 0);
}

/// Every token gets its own ids and weights, from its own row of the router.
pub proof fn law_moe_top10(
    acc: Q4Acc,
    k: Kernels,
    m: spec_fn(Ptr) -> u8,
    ok: spec_fn(int) -> bool,
    c: Seq<Cmd>,
    route: u64,
    ids: u64,
    wt: u64,
    n_exp: usize,
    k_sel: usize,
    s: int,
    b: int,
)
    requires
        is_program(acc, (FrameOp::MoeTop10 { route, ids, wt, n_exp, k_sel }), c),
        n_exp <= i32::MAX,
        k_sel <= i32::MAX / 4,
        acc.spec_t() <= i32::MAX,
        reaches(acc, ids, acc.spec_t() * (k_sel * 4)),
        reaches(acc, wt, acc.spec_t() * (k_sel * 4)),
        are_apart(frame(acc, wt), acc.spec_t() * (k_sel * 4), frame(acc, ids), acc.spec_t() * (k_sel * 4)),
        0 <= s < acc.spec_t(),
        0 <= b < k_sel * 4,
    ensures
        ran(k, m, c, ok, 0)(frame(acc, ids).spec_at(s * (k_sel * 4) + b)) == (k.op)(
            Op::TopIds,
            seq![n_exp as int, k_sel as int],
            seq![row_at(m, frame(acc, route), n_exp * 4, s)],
            none(),
        )[b],
        ran(k, m, c, ok, 0)(frame(acc, wt).spec_at(s * (k_sel * 4) + b)) == (k.op)(
            Op::TopWeights,
            seq![n_exp as int, k_sel as int],
            seq![row_at(m, frame(acc, route), n_exp * 4, s)],
            none(),
        )[b],
{
    let op = (FrameOp::MoeTop10 { route, ids, wt, n_exp, k_sel });
    let p = lemma_op(acc, op, c);
    let hs = op_handles(op);
    assert(forall|i: int| 0 <= i < p.len() ==> #[trigger] p[i] == frame(acc, hs[i]));
    let x = s * (k_sel * 4) + b;
    lemma_in_row(s, b, k_sel * 4, acc.spec_t());
    assert(distance(p[1], p[1].spec_at(x)) == Some(x));
    assert(distance(p[2], p[2].spec_at(x)) == Some(x));
    assert(!is_inside(p[2], acc.spec_t() * (k_sel * 4), p[1].spec_at(x)));
    lemma_one_command(k, m, c, ok, 0);
}

/// Value `i` of every token of the step is the weighted sum of its experts' values.
pub proof fn law_moe_weighted_sum(
    acc: Q4Acc,
    k: Kernels,
    m: spec_fn(Ptr) -> u8,
    ok: spec_fn(int) -> bool,
    c: Seq<Cmd>,
    ys: u64,
    wt: u64,
    out: u64,
    kk: usize,
    n: usize,
    s: int,
    i: int,
    b: int,
)
    requires
        is_program(acc, (FrameOp::MoeWeightedSum { ys, wt, out, k: kk, n }), c),
        kk <= i32::MAX,
        n * acc.spec_t() <= i32::MAX,
        reaches(acc, out, n * acc.spec_t() * 4),
        0 <= s < acc.spec_t(),
        0 <= i < n,
        0 <= b < 4,
    ensures
        ran(k, m, c, ok, 0)(frame(acc, out).spec_at((s * n + i) * 4 + b)) == (k.op)(
            Op::WeightedSum,
            seq![kk as int, n * acc.spec_t(), s * n + i],
            Seq::empty(),
            seq![view(m, frame(acc, ys)), view(m, frame(acc, wt))],
        )[b],
{
    let op = (FrameOp::MoeWeightedSum { ys, wt, out, k: kk, n });
    let p = lemma_op(acc, op, c);
    let hs = op_handles(op);
    assert(forall|i: int| 0 <= i < p.len() ==> #[trigger] p[i] == frame(acc, hs[i]));
    let t = acc.spec_t();
    lemma_in_row(s, i, n as int, t);
    assert(t * n == n * t) by (nonlinear_arith);
    lemma_blocks(n * t, 128);
    let j = (s * n + i) * 4 + b;
    assert(j / 4 == s * n + i && j % 4 == b);
    assert(distance(p[2], p[2].spec_at(j)) == Some(j));
    lemma_one_command(k, m, c, ok, 0);
}

/// Every value of `y` takes up that of `x` at its place, scaled by the factor of its token.
pub proof fn law_axpy_scaled(
    acc: Q4Acc,
    k: Kernels,
    m: spec_fn(Ptr) -> u8,
    ok: spec_fn(int) -> bool,
    c: Seq<Cmd>,
    y: u64,
    x: u64,
    s: u64,
    n: usize,
    j: int,
)
    requires
        is_program(acc, (FrameOp::AxpyScaled { y, x, s, n }), c),
        n <= i32::MAX,
        reaches(acc, y, n * 4),
        0 <= j < n * 4,
    ensures
        ran(k, m, c, ok, 0)(frame(acc, y).spec_at(j)) == (k.op)(
            Op::Axpy,
            Seq::empty(),
            seq![
                value_at(m, frame(acc, y), j / 4),
                value_at(m, frame(acc, x), j / 4),
                value_at(m, frame(acc, s), j / 4 / (n as int / acc.spec_t())),
            ],
            none(),
        )[j % 4],
{
    let op = (FrameOp::AxpyScaled { y, x, s, n });
    let p = lemma_op(acc, op, c);
    let hs = op_handles(op);
    assert(forall|i: int| 0 <= i < p.len() ==> #[trigger] p[i] == frame(acc, hs[i]));
    let t = acc.spec_t();
    lemma_blocks(n as int, 128);
    assert(0 <= n as int / t <= n) by (nonlinear_arith)
        requires
            t >= 1,
            n >= 0,
    ;
    if t <= 1 {
        assert(n as int / t == n);
        assert(j / 4 / n as int == 0) by (nonlinear_arith)
            requires
                0 <= j / 4 < n,
        ;
    }
    assert(distance(p[0], p[0].spec_at(j)) == Some(j));
    lemma_one_command(k, m, c, ok, 0);
}

} // verus!
