//! What the kernels read and write.
//!
//! Which function a kernel computes is a parameter; which values go into it, and where
//! the result goes, is stated here. A kernel reads the memory as it was before its
//! launch.

use vstd::prelude::*;
use crate::device::{Launch, Ptr};
use crate::ggml::spec_xq_words;
use crate::group::{group_off, group_rank, pad_off, pad_rank, pad_rows, TILE};
use crate::kernels::Call;
use crate::memory::{distance, written};
use crate::product_runs::{row_at, Kernels};
use crate::recurrence_laws::bytes_at;

verus! {

/// The functions that the kernels compute, other than products.
pub enum Op {
    SiluDiv,
    SiluMul,
    Sigmoid,
    Scale,
    Rms,
    RmsPart,
    RmsFinish,
    NormGated,
    L2,
    GateMean,
    HcAdd,
    BetaG,
    TopIds,
    TopWeights,
    WeightedSum,
    WeightedRows,
    Axpy,
    SplitSum,
    GateUp,
    DownAdd,
    PleGated,
    PleGate,
    PleConv,
    PleRing,
    PleResidual,
    Attention,
    AttentionParts,
    AttentionMerge,
    MaskedAttention,
    BlockKey,
    QueryRope,
    Score,
    Recurrence,
    RecurrenceState,
    RecurrenceStep,
    ConvStep,
    RopeQ,
    RopeK,
    MaxPart,
    MaxOf,
    VitProduct,
    LayerNorm,
    VitRope,
    VitAttention,
    Gelu,
    Sum,
}

/// What lies at an address, as far as anyone reads on.
pub open spec fn view(m: spec_fn(Ptr) -> u8, p: Ptr) -> spec_fn(int) -> u8 {
    |i: int| m(p.spec_at(i))
}

/// Value `i` of an array of 32-bit values.
pub open spec fn value_at(m: spec_fn(Ptr) -> u8, p: Ptr, i: int) -> Seq<u8> {
    row_at(m, p, 4, i)
}

/// The little-endian number at an address.
pub open spec fn word_at(m: spec_fn(Ptr) -> u8, p: Ptr) -> int {
    m(p) + 256 * m(p.spec_at(1)) + 65536 * m(p.spec_at(2)) + 16777216 * m(p.spec_at(3))
}

/// Entry `i` of a table.
pub open spec fn entry(m: spec_fn(Ptr) -> u8, p: Ptr, i: int) -> int {
    word_at(m, p.spec_at(4 * i))
}

/// The memory after bytes were written at some distances from `dst`.
pub open spec fn scattered(
    m: spec_fn(Ptr) -> u8,
    dst: Ptr,
    hit: spec_fn(int) -> bool,
    data: spec_fn(int) -> u8,
) -> spec_fn(Ptr) -> u8 {
    |p: Ptr|
        match distance(dst, p) {
            Some(d) => if hit(d) {
                data(d)
            } else {
                m(p)
            },
            None => m(p),
        }
}

/// `count` values, `stride` values apart, from value `first` on.
pub open spec fn column(
    m: spec_fn(Ptr) -> u8,
    p: Ptr,
    first: int,
    stride: int,
    count: int,
) -> Seq<u8> {
    Seq::new(
        (count * 4) as nat,
        |b: int| m(p.spec_at(4 * (first + (b / 4) * stride) + b % 4)),
    )
}

/// No tables.
pub open spec fn none() -> Seq<spec_fn(int) -> u8> {
    Seq::empty()
}

/// The memory after `n` values at `out`, value `i` from the rows `ins(i)`.
pub open spec fn each_value(
    k: Kernels,
    m: spec_fn(Ptr) -> u8,
    op: Op,
    out: Ptr,
    n: int,
    nums: Seq<int>,
    ins: spec_fn(int) -> Seq<Seq<u8>>,
) -> spec_fn(Ptr) -> u8 {
    written(m, out, n * 4, |j: int| (k.op)(op, nums, ins(j / 4), none())[j % 4])
}

/// The positions of token `s` in a list, in their order.
pub open spec fn list_of(m: spec_fn(Ptr) -> u8, idx: Ptr, off: Ptr, s: int) -> Seq<int> {
    let (lo, hi) = (entry(m, off, s), entry(m, off, s + 1));
    Seq::new((hi - lo) as nat, |i: int| entry(m, idx, lo + i))
}

/// The rows of a cache at the positions of a list.
pub open spec fn rows_of(m: spec_fn(Ptr) -> u8, p: Ptr, len: int, list: Seq<int>) -> Seq<Seq<u8>> {
    Seq::new(list.len(), |i: int| row_at(m, p, len, list[i]))
}

/// A query row with the keys and values at the positions of its list.
pub open spec fn attended(
    m: spec_fn(Ptr) -> u8,
    q: Ptr,
    key: Ptr,
    value: Ptr,
    idx: Ptr,
    off: Ptr,
    n_head: int,
    n_kv: int,
    hd: int,
    s: int,
) -> Seq<Seq<u8>> {
    let list = list_of(m, idx, off, s);
    seq![row_at(m, q, n_head * 2 * hd * 4, s)] + rows_of(m, key, n_kv * hd * 4, list) + rows_of(
        m,
        value,
        n_kv * hd * 4,
        list,
    )
}

/// Attention over lists for `t` tokens.
pub open spec fn list_attention(
    k: Kernels,
    m: spec_fn(Ptr) -> u8,
    q: Ptr,
    key: Ptr,
    value: Ptr,
    idx: Ptr,
    off: Ptr,
    out: Ptr,
    scale: u32,
    n_head: int,
    n_kv: int,
    hd: int,
    t: int,
) -> spec_fn(Ptr) -> u8 {
    let len = n_head * hd * 4;
    written(
        m,
        out,
        t * len,
        |j: int|
            (k.op)(
                Op::Attention,
                seq![scale as int, n_head, n_kv, hd],
                attended(m, q, key, value, idx, off, n_head, n_kv, hd, j / len),
                none(),
            )[j % len],
    )
}

/// Bytes of the partial results of `n` splits.
pub open spec fn parts_len(n_head: int, n: int) -> int {
    n_head * n * 32 * 10 * 4
}

/// The products of rows with their own experts: row `i` with expert `expert(i)`.
pub open spec fn expert_rows(
    k: Kernels,
    m: spec_fn(Ptr) -> u8,
    x: Ptr,
    stride: int,
    w: Ptr,
    per_expert: int,
    expert: spec_fn(int) -> int,
    out: Ptr,
    n_in: int,
    n_out: int,
    rows: int,
) -> spec_fn(Ptr) -> u8 {
    let len = n_out * 4;
    written(
        m,
        out,
        rows * len,
        |j: int|
            (k.row)(
                w.spec_at(expert(j / len) * per_expert),
                n_in,
                n_out,
                bytes_at(m, x.spec_at(j / len * stride), spec_xq_words(n_in) * 4),
            )[j % len],
    )
}

/// The memory after a kernel other than a product with one weight.
pub open spec fn worked(k: Kernels, m: spec_fn(Ptr) -> u8, l: Launch) -> spec_fn(Ptr) -> u8 {
    match l.call {
        Call::SiluDiv { t, div, n } => each_value(
            k,
            m,
            Op::SiluDiv,
            t,
            n as int,
            seq![div as int],
            |i: int| seq![value_at(m, t, i)],
        ),
        Call::SiluMul { g, u, out, n } => each_value(
            k,
            m,
            Op::SiluMul,
            out,
            n as int,
            Seq::empty(),
            |i: int| seq![value_at(m, g, i), value_at(m, u, i)],
        ),
        Call::Sigmoid { t, n } => each_value(
            k,
            m,
            Op::Sigmoid,
            t,
            n as int,
            Seq::empty(),
            |i: int| seq![value_at(m, t, i)],
        ),
        Call::Scale { t, s, n } => each_value(
            k,
            m,
            Op::Scale,
            t,
            n as int,
            seq![s as int],
            |i: int| seq![value_at(m, t, i)],
        ),
        Call::RmsSmall { x, w, out, eps, n, rows, w_reps } => {
            let len = n * 4;
            written(
                m,
                out,
                rows * len,
                |j: int|
                    (k.op)(
                        Op::Rms,
                        seq![eps as int, n as int, (j / len) % (w_reps as int)],
                        seq![row_at(m, x, len, j / len), bytes_at(m, w, w_reps * len)],
                        none(),
                    )[j % len],
            )
        },
        Call::RmsPart { x, part, n } => written(
            m,
            part,
            l.gx * 256,
            |j: int|
                (k.op)(
                    Op::RmsPart,
                    seq![n as int],
                    seq![row_at(m, x, n * 4, j / 256)],
                    none(),
                )[j % 256],
        ),
        Call::RmsFinish { x, w, part, out, eps, n, w_reps } => {
            let len = n * 4;
            written(
                m,
                out,
                l.gx * len,
                |j: int|
                    (k.op)(
                        Op::RmsFinish,
                        seq![eps as int, n as int, (j / len) % (w_reps as int)],
                        seq![
                            row_at(m, x, len, j / len),
                            bytes_at(m, w, w_reps * len),
                            row_at(m, part, 256, j / len),
                        ],
                        none(),
                    )[j % len],
            )
        },
        Call::NormGated { o, z, w, out, eps, d, n_h } => {
            let len = d * 4;
            written(
                m,
                out,
                l.gy * n_h * len,
                |j: int|
                    (k.op)(
                        Op::NormGated,
                        seq![eps as int, d as int],
                        seq![
                            row_at(m, o, len, j / len),
                            row_at(m, z, len, j / len),
                            bytes_at(m, w, len),
                        ],
                        none(),
                    )[j % len],
            )
        },
        Call::L2Rows { x, eps, d } => {
            let len = d * 4;
            written(
                m,
                x,
                l.gx * len,
                |j: int|
                    (k.op)(
                        Op::L2,
                        seq![eps as int, d as int],
                        seq![row_at(m, x, len, j / len)],
                        none(),
                    )[j % len],
            )
        },
        Call::BcastRows { src, dst, n, rows } => written(
            m,
            dst,
            rows * (n * 4),
            |j: int| m(src.spec_at(j % (n * 4))),
        ),
        Call::CopyRows { src, dst, src_off, dst_off, n } => written(
            m,
            dst.spec_at(dst_off * 4),
            n * 4,
            |j: int| m(src.spec_at(src_off * 4 + j)),
        ),
        Call::HcGateMean { xn, gate, out, hc, n, total } => each_value(
            k,
            m,
            Op::GateMean,
            out,
            total as int,
            seq![hc as int],
            |e: int|
                seq![
                    column(m, xn, e / n as int * hc * n + e % (n as int), n as int, hc as int),
                    column(m, gate, e / n as int * hc * n + e % (n as int), n as int, hc as int),
                ],
        ),
        Call::HcCombine { res, out, inj, hc, n, total } => scattered(
            m,
            res,
            |d: int|
                {
                    let x = d / 4;
                    d >= 0 && x / (hc * n) * n + x % (n as int) < total
                },
            |d: int|
                {
                    let x = d / 4;
                    let (s, h) = (x / (hc * n), x / n as int % hc as int);
                    (k.op)(
                        Op::HcAdd,
                        seq![hc as int],
                        seq![
                            value_at(m, res, x),
                            value_at(m, out, s * n + x % (n as int)),
                            value_at(m, inj, s * hc + h),
                        ],
                        none(),
                    )[d % 4]
                },
        ),
        Call::Split3 { src, d0, d1, d2, n0, n1, n2 } => {
            let (a, b, c) = (n0 * 4, n1 * 4, n2 * 4);
            let (w, all) = (a + b + c, l.gx * l.block * 4);
            let first = scattered(
                m,
                d0,
                |d: int| d >= 0 && d / a * w + d % a < all,
                |d: int| m(src.spec_at(d / a * w + d % a)),
            );
            let second = scattered(
                first,
                d1,
                |d: int| d >= 0 && d / b * w + a + d % b < all,
                |d: int| m(src.spec_at(d / b * w + a + d % b)),
            );
            scattered(
                second,
                d2,
                |d: int| d >= 0 && d / c * w + a + b + d % c < all,
                |d: int| m(src.spec_at(d / c * w + a + b + d % c)),
            )
        },
        Call::GdnBetaG { b, a, dtb, sa, bg, n_h, dt_rank } => written(
            m,
            bg,
            n_h * 8,
            |j: int|
                (k.op)(
                    Op::BetaG,
                    Seq::empty(),
                    seq![
                        value_at(m, b, j / 8),
                        value_at(m, a, j / 8),
                        value_at(m, dtb, j / 8 % dt_rank as int),
                        value_at(m, sa, j / 8 % dt_rank as int),
                    ],
                    none(),
                )[j % 8],
        ),
        Call::MoeTop10 { route, ids, wt, n_exp, k_sel } => {
            let len = k_sel * 4;
            written(
                written(
                    m,
                    ids,
                    l.gx * len,
                    |j: int|
                        (k.op)(
                            Op::TopIds,
                            seq![n_exp as int, k_sel as int],
                            seq![row_at(m, route, n_exp * 4, j / len)],
                            none(),
                        )[j % len],
                ),
                wt,
                l.gx * len,
                |j: int|
                    (k.op)(
                        Op::TopWeights,
                        seq![n_exp as int, k_sel as int],
                        seq![row_at(m, route, n_exp * 4, j / len)],
                        none(),
                    )[j % len],
            )
        },
        Call::MoeWeightedSum { ys, wt, out, k: kk, n } => written(
            m,
            out,
            n * 4,
            |j: int|
                (k.op)(
                    Op::WeightedSum,
                    seq![kk as int, n as int, j / 4],
                    Seq::empty(),
                    seq![view(m, ys), view(m, wt)],
                )[j % 4],
        ),
        Call::AxpyScaled { y, x, s, n } => each_value(
            k,
            m,
            Op::Axpy,
            y,
            n as int,
            Seq::empty(),
            |i: int| seq![value_at(m, y, i), value_at(m, x, i), value_at(m, s, 0)],
        ),
        Call::AxpyScaledT { y, x, s, n, per } => each_value(
            k,
            m,
            Op::Axpy,
            y,
            n as int,
            Seq::empty(),
            |i: int| seq![value_at(m, y, i), value_at(m, x, i), value_at(m, s, i / per as int)],
        ),
        Call::MoeGather { mix, xsel, n, k_sel, t } => {
            let len = n * 4;
            written(
                m,
                xsel,
                t * k_sel * len,
                |j: int| m(mix.spec_at(j / len / k_sel as int * len + j % len)),
            )
        },
        Call::MoeScatter { ys, wt, out, k_sel, n, t } => each_value(
            k,
            m,
            Op::WeightedRows,
            out,
            t * n,
            seq![k_sel as int],
            |e: int|
                seq![
                    column(m, ys, e / n as int * k_sel * n + e % (n as int), n as int, k_sel as int),
                    row_at(m, wt, k_sel * 4, e / n as int),
                ],
        ),
        Call::RowsPermute { src, perm, dst, row_words, n } => {
            let len = row_words * 4;
            written(
                m,
                dst,
                n * len,
                |j: int| m(src.spec_at(entry(m, perm, j / len) * len + j % len)),
            )
        },
        Call::MoeQ4kIds { xq, w, part, out, ids, n_in, n_out, xq_w, t, expert_bytes, rows_pad } => {
            if l.gz == 1 {
                expert_rows(
                    k,
                    m,
                    xq,
                    xq_w * 4,
                    w,
                    expert_bytes as int,
                    |i: int| entry(m, ids, i),
                    out,
                    n_in as int,
                    n_out as int,
                    t as int,
                )
            } else {
                written(
                    m,
                    part,
                    t * n_out * l.gz * 8,
                    |j: int|
                        {
                            let e = j / 8 / l.gz as int;
                            let row = e / n_out as int;
                            (k.split)(
                                j / 8 % l.gz as int,
                                l.gz as int,
                                w.spec_at(entry(m, ids, row) * expert_bytes),
                                n_in as int,
                                n_out as int,
                                bytes_at(
                                    m,
                                    xq.spec_at(row * (xq_w * 4)),
                                    spec_xq_words(n_in as int) * 4,
                                ),
                                e % n_out as int,
                            )[j % 8]
                        },
                )
            }
        },
        Call::MoeQ4kReduce { part, out, n, ksplit } => written(
            m,
            out,
            n * 4,
            |j: int|
                (k.op)(
                    Op::SplitSum,
                    seq![ksplit as int],
                    Seq::new(ksplit as nat, |s: int| row_at(m, part, 8, j / 4 * ksplit + s)),
                    none(),
                )[j % 4],
        ),
        Call::MoeQ51WIds { xq, w, out, ids, n_in, n_out, xq_w, t, expert_words, .. } => expert_rows(
            k,
            m,
            xq,
            xq_w * 4,
            w,
            expert_words * 4,
            |i: int| entry(m, ids, i),
            out,
            n_in as int,
            n_out as int,
            t as int,
        ),
        Call::MoeQ51GmIds { xq, w, out, ids, n_in, n_out, xq_w, t, expert_words, .. } => expert_rows(
            k,
            m,
            xq,
            xq_w * 4,
            w,
            expert_words * 4,
            |i: int| entry(m, ids, i),
            out,
            n_in as int,
            n_out as int,
            t as int,
        ),
        Call::MoeQ8Ids { xq, w, out, ids, n_in, n_out, xq_w, t, expert_bytes, .. } => expert_rows(
            k,
            m,
            xq,
            xq_w * 4,
            w,
            expert_bytes as int,
            |i: int| entry(m, ids, i),
            out,
            n_in as int,
            n_out as int,
            t as int,
        ),
        Call::MoeQ51Gm { xq, w, out, tilexp, n_in, n_out, xq_w, t, expert_words, .. } => expert_rows(
            k,
            m,
            xq,
            xq_w * 4,
            w,
            expert_words * 4,
            |q: int| entry(m, tilexp, q / 16),
            out,
            n_in as int,
            n_out as int,
            t as int,
        ),
        Call::MoeQ4kGe { xq, w, out, rowexp, n_in, n_out, xq_w, t, expert_bytes, rows_pad, .. } => {
            let told = if rows_pad == Ptr::Null {
                t as int
            } else {
                word_at(m, rows_pad)
            };
            expert_rows(
                k,
                m,
                xq,
                xq_w * 4,
                w,
                expert_bytes as int,
                |q: int| entry(m, rowexp, q),
                out,
                n_in as int,
                n_out as int,
                vstd::math::min(told, l.gy * 16),
            )
        },
        Call::QsaSel { q, k: kp, v, sel_idx, sel_off, out, scale, n_head, n_kv, hd, t } => list_attention(
            k,
            m,
            q,
            kp,
            v,
            sel_idx,
            sel_off,
            out,
            scale,
            n_head as int,
            n_kv as int,
            hd as int,
            t as int,
        ),
        Call::QsaSel4 { q, k: kp, v, sel_idx, sel_off, out, scale, n_head, n_kv, hd, t } => list_attention(
            k,
            m,
            q,
            kp,
            v,
            sel_idx,
            sel_off,
            out,
            scale,
            n_head as int,
            n_kv as int,
            hd as int,
            t as int,
        ),
        Call::QsaSel6 { q, k: kp, v, sel_idx, sel_off, out, scale, n_head, n_kv, hd, t } => list_attention(
            k,
            m,
            q,
            kp,
            v,
            sel_idx,
            sel_off,
            out,
            scale,
            n_head as int,
            n_kv as int,
            hd as int,
            t as int,
        ),
        Call::QsaSplit { q, k: kp, v, sel_idx, sel_off, part, n_splits, scale, n_head, n_kv, hd } => written(
            m,
            part,
            parts_len(n_head as int, n_splits as int),
            |j: int|
                (k.op)(
                    Op::AttentionParts,
                    seq![n_splits as int, scale as int, n_head as int, n_kv as int, hd as int],
                    attended(
                        m,
                        q,
                        kp,
                        v,
                        sel_idx,
                        sel_off,
                        n_head as int,
                        n_kv as int,
                        hd as int,
                        0,
                    ),
                    none(),
                )[j],
        ),
        Call::QsaMerge { part, q, out, n_splits, n_head, hd } => written(
            m,
            out,
            n_head * hd * 4,
            |j: int|
                (k.op)(
                    Op::AttentionMerge,
                    seq![n_splits as int, n_head as int, hd as int],
                    seq![
                        bytes_at(m, part, parts_len(n_head as int, n_splits as int)),
                        bytes_at(m, q, n_head * 2 * hd * 4),
                    ],
                    none(),
                )[j],
        ),
        Call::QsaMasked { q, k: kp, v, mask, out, scale, n_past, n_head, n_kv, hd, t } => {
            let len = n_head * hd * 4;
            written(
                m,
                out,
                t * len,
                |j: int|
                    (k.op)(
                        Op::MaskedAttention,
                        seq![scale as int, n_past as int, n_head as int, n_kv as int, hd as int],
                        seq![
                            row_at(m, q, n_head * 2 * hd * 4, j / len),
                            bytes_at(m, kp, n_past * n_kv * hd * 4),
                            bytes_at(m, v, n_past * n_kv * hd * 4),
                            row_at(m, mask, n_past * 4, j / len),
                        ],
                        none(),
                    )[j % len],
            )
        },
        Call::IdxBlockKeys { idx_k, block_k, norm, cs, eps, b0, r, dim } => {
            let len = dim * 4;
            written(
                m,
                block_k.spec_at(b0 * len),
                l.gx * len,
                |j: int|
                    (k.op)(
                        Op::BlockKey,
                        seq![eps as int, b0 + j / len, r as int, dim as int],
                        seq![
                            bytes_at(m, idx_k.spec_at((b0 + j / len) * r * len), r * len),
                            bytes_at(m, norm, len),
                        ],
                        seq![view(m, cs)],
                    )[j % len],
            )
        },
        Call::IdxQRope { q, out, norm, cs, eps, pos0, t, heads, dim } => {
            let len = heads * dim * 4;
            written(
                m,
                out,
                t * len,
                |j: int|
                    (k.op)(
                        Op::QueryRope,
                        seq![eps as int, pos0 + j / len, heads as int, dim as int],
                        seq![row_at(m, q, len, j / len), bytes_at(m, norm, dim * 4)],
                        seq![view(m, cs)],
                    )[j % len],
            )
        },
        Call::IdxScore { q, block_k, scores, n_blocks, heads, dim } => each_value(
            k,
            m,
            Op::Score,
            scores,
            n_blocks as int,
            seq![heads as int, dim as int],
            |b: int| seq![bytes_at(m, q, heads * dim * 4), row_at(m, block_k, dim * 4, b)],
        ),
        Call::GdnArSwap { state, q, k: kp, v, beta_g, out, d, k_stride, v_stride, h_v, h_k, scale, t } => {
            let nums = seq![
                d as int,
                k_stride as int,
                v_stride as int,
                h_v as int,
                h_k as int,
                scale as int,
                t as int,
            ];
            let ins = seq![
                bytes_at(m, state, h_v * d * d * 4),
                bytes_at(m, q, t * (k_stride * 4)),
                bytes_at(m, kp, t * (k_stride * 4)),
                bytes_at(m, v, t * (v_stride * 4)),
                bytes_at(m, beta_g, t * (h_v * 8)),
            ];
            written(
                written(
                    m,
                    out,
                    t * (v_stride * 4),
                    |j: int| (k.op)(Op::Recurrence, nums, ins, none())[j],
                ),
                state,
                h_v * d * d * 4,
                |j: int| (k.op)(Op::RecurrenceState, nums, ins, none())[j],
            )
        },
        Call::GdnArNp { state, q, k: kp, v, beta_g, out, d, k_stride, v_stride, h_v, h_k, scale, t } => {
            let (kl, vl) = (k_stride * 4, v_stride * 4);
            written(
                m,
                out,
                t * vl,
                |j: int|
                    (k.op)(
                        Op::RecurrenceStep,
                        seq![d as int, h_v as int, h_k as int, scale as int],
                        seq![
                            row_at(m, state, 8, j / vl),
                            row_at(m, q, kl, j / vl),
                            row_at(m, kp, kl, j / vl),
                            row_at(m, v, vl, j / vl),
                            row_at(m, beta_g, h_v * 8, j / vl),
                        ],
                        none(),
                    )[j % vl],
            )
        },
        Call::GdnConvNp { qkv, cw, states, out, ch, k: kk, t } => {
            let len = ch * 4;
            written(
                m,
                out,
                t * len,
                |j: int|
                    (k.op)(
                        Op::ConvStep,
                        seq![ch as int, kk as int],
                        seq![
                            row_at(m, qkv, len, j / len),
                            bytes_at(m, cw, kk * len),
                            row_at(m, states, 8, j / len),
                        ],
                        none(),
                    )[j % len],
            )
        },
        Call::QkNormRope { q, k: kp, q_norm, k_norm, cs, eps, kq_scale, pos0, n_head, n_kv, hd, n_rot } => {
            let (ql, kl) = (n_head * 2 * hd * 4, n_kv * hd * 4);
            written(
                written(
                    m,
                    q,
                    l.gy * ql,
                    |j: int|
                        (k.op)(
                            Op::RopeQ,
                            seq![
                                eps as int,
                                kq_scale as int,
                                pos0 + j / ql,
                                n_head as int,
                                hd as int,
                                n_rot as int,
                            ],
                            seq![row_at(m, q, ql, j / ql), bytes_at(m, q_norm, hd * 4)],
                            seq![view(m, cs)],
                        )[j % ql],
                ),
                kp,
                l.gy * kl,
                |j: int|
                    (k.op)(
                        Op::RopeK,
                        seq![eps as int, pos0 + j / kl, n_kv as int, hd as int, n_rot as int],
                        seq![row_at(m, kp, kl, j / kl), bytes_at(m, k_norm, hd * 4)],
                        seq![view(m, cs)],
                    )[j % kl],
            )
        },
        Call::ArgmaxS1 { x, vocab, part, nblk } => {
            let len = nblk * 8;
            written(
                m,
                part,
                l.gy * len,
                |j: int|
                    (k.op)(
                        Op::MaxPart,
                        seq![vocab as int, nblk as int],
                        seq![row_at(m, x, vocab * 4, j / len)],
                        none(),
                    )[j % len],
            )
        },
        Call::ArgmaxS2 { part, out, nblk } => written(
            m,
            out,
            l.gx * 8,
            |j: int|
                (k.op)(
                    Op::MaxOf,
                    seq![nblk as int],
                    seq![row_at(m, part, nblk * 8, j / 8)],
                    none(),
                )[j % 8],
        ),
        Call::ShexpGu { x, wg, wu, h, n_in, n_hidden } => written(
            m,
            h,
            n_hidden * 4,
            |j: int|
                (k.op)(
                    Op::GateUp,
                    seq![n_in as int, j / 4],
                    seq![bytes_at(m, x, n_in * 4)],
                    seq![view(m, wg), view(m, wu)],
                )[j % 4],
        ),
        Call::ShexpDa { h, wd, s, out, n_in, n_hidden } => written(
            m,
            out,
            n_in * 4,
            |j: int|
                (k.op)(
                    Op::DownAdd,
                    seq![n_hidden as int, j / 4],
                    seq![
                        value_at(m, out, j / 4),
                        bytes_at(m, h, n_hidden * 4),
                        value_at(m, s, 0),
                    ],
                    seq![view(m, wd)],
                )[j % 4],
        ),
        Call::PleGate { res, key, value, nk, nq, nc, gated, gate_out, eps, n_embd, hc, t } => {
            let (len, gl) = (hc * n_embd * 4, hc * 4);
            let ins = |s: int|
                seq![
                    row_at(m, res, len, s),
                    row_at(m, key, len, s),
                    row_at(m, value, n_embd * 4, s),
                    bytes_at(m, nk, len),
                    bytes_at(m, nq, len),
                    bytes_at(m, nc, len),
                ];
            let nums = seq![eps as int, n_embd as int, hc as int];
            written(
                written(
                    m,
                    gated,
                    t * len,
                    |j: int| (k.op)(Op::PleGated, nums, ins(j / len), none())[j % len],
                ),
                gate_out,
                t * gl,
                |j: int| (k.op)(Op::PleGate, nums, ins(j / gl), none())[j % gl],
            )
        },
        Call::PleConv { gated, conv_w, ring, conv_out, hc_dim, t, kern, dil, hist } => {
            let (len, rl) = (hc_dim * 4, hist * (hc_dim * 4));
            let ins = seq![
                bytes_at(m, gated, t * len),
                bytes_at(m, conv_w, kern * len),
                bytes_at(m, ring, rl),
            ];
            let nums = seq![hc_dim as int, t as int, kern as int, dil as int, hist as int];
            written(
                written(
                    m,
                    conv_out,
                    t * len,
                    |j: int| (k.op)(Op::PleConv, nums, ins, none())[j],
                ),
                ring,
                rl,
                |j: int| (k.op)(Op::PleRing, nums, ins, none())[j],
            )
        },
        Call::PleResidual { res, value, gate_out, conv_out, n_embd, hc, t } => {
            let len = hc * n_embd * 4;
            written(
                m,
                res,
                t * len,
                |j: int|
                    (k.op)(
                        Op::PleResidual,
                        seq![n_embd as int, hc as int],
                        seq![
                            row_at(m, res, len, j / len),
                            row_at(m, value, n_embd * 4, j / len),
                            row_at(m, gate_out, hc * 4, j / len),
                            row_at(m, conv_out, len, j / len),
                        ],
                        none(),
                    )[j % len],
            )
        },
        Call::PackStrided { src, dst, n, stride, t } => {
            let len = n * 4;
            written(
                m,
                dst,
                t * len,
                |j: int| m(src.spec_at(j / len * (stride * 4) + j % len)),
            )
        },
        Call::VitGemm { x, w, bias, out, n_in, n_out, t } => {
            let len = n_out * 4;
            written(
                m,
                out,
                t * len,
                |j: int|
                    (k.op)(
                        Op::VitProduct,
                        seq![n_in as int, n_out as int],
                        seq![row_at(m, x, n_in * 4, j / len)],
                        seq![view(m, w), view(m, bias)],
                    )[j % len],
            )
        },
        Call::LayerNorm { x, w, bias, n, eps, t } => {
            let len = n * 4;
            written(
                m,
                x,
                t * len,
                |j: int|
                    (k.op)(
                        Op::LayerNorm,
                        seq![eps as int, n as int],
                        seq![row_at(m, x, len, j / len)],
                        seq![view(m, w), view(m, bias)],
                    )[j % len],
            )
        },
        Call::VitRope { q, yx, n_head, d_head, t, stride } => {
            let (len, st) = (n_head * d_head * 4, stride * 4);
            scattered(
                m,
                q,
                |d: int| d >= 0 && d / st < t && d % st < len,
                |d: int|
                    (k.op)(
                        Op::VitRope,
                        seq![n_head as int, d_head as int],
                        seq![bytes_at(m, q.spec_at(d / st * st), len), row_at(m, yx, 8, d / st)],
                        none(),
                    )[d % st],
            )
        },
        Call::FlashVit { q, k: kp, v, out, t, n_head, d_head, scale } => {
            let len = n_head * d_head * 4;
            written(
                m,
                out,
                t * len,
                |j: int|
                    (k.op)(
                        Op::VitAttention,
                        seq![scale as int, t as int, n_head as int, d_head as int],
                        seq![
                            row_at(m, q, len, j / len),
                            bytes_at(m, kp, t * len),
                            bytes_at(m, v, t * len),
                        ],
                        none(),
                    )[j % len],
            )
        },
        Call::GeluT { x, n } => each_value(
            k,
            m,
            Op::Gelu,
            x,
            n as int,
            Seq::empty(),
            |i: int| seq![value_at(m, x, i)],
        ),
        Call::AddF32 { y, x, n } => each_value(
            k,
            m,
            Op::Sum,
            y,
            n as int,
            Seq::empty(),
            |i: int| seq![value_at(m, y, i), value_at(m, x, i)],
        ),
        Call::MoeGroup { ids, ne, rows, off, perm, inv, rowexp, perm_pad, inv_pad, tilexp, rows_pad, bound } => {
            let all = Seq::new(rows as nat, |i: int| entry(m, ids, i) as u32);
            grouped(m, all, ne as int, off, perm, inv, rowexp, perm_pad, inv_pad, tilexp, rows_pad)
        },
        _ => m,
    }
}

/// Byte `b` of a number.
pub open spec fn byte_of(n: int, b: int) -> u8 {
    (if b == 0 {
        n % 256
    } else if b == 1 {
        n / 256 % 256
    } else if b == 2 {
        n / 65536 % 256
    } else {
        n / 16777216 % 256
    }) as u8
}

/// The memory after a table of numbers was written.
pub open spec fn table_written(
    m: spec_fn(Ptr) -> u8,
    dst: Ptr,
    n: int,
    data: spec_fn(int) -> int,
) -> spec_fn(Ptr) -> u8 {
    written(m, dst, n * 4, |j: int| byte_of(data(j / 4), j % 4))
}

/// Some row that the padded layout puts at `q`, or none.
pub open spec fn padded_row(ids: Seq<u32>, ne: int, q: int) -> int {
    if exists|i: int| 0 <= i < ids.len() && #[trigger] pad_rank(ids, ne, i) == q {
        choose|i: int| 0 <= i < ids.len() && #[trigger] pad_rank(ids, ne, i) == q
    } else {
        0
    }
}

/// The expert whose rows of the padded layout begin at or before row `q`.
pub open spec fn padded_expert(ids: Seq<u32>, ne: int, q: int) -> int {
    if exists|e: int| 0 <= e < ne && #[trigger] pad_off(ids, ne, e) <= q < pad_off(ids, ne, e + 1) {
        choose|e: int| 0 <= e < ne && #[trigger] pad_off(ids, ne, e) <= q < pad_off(ids, ne, e + 1)
    } else {
        0
    }
}

/// The row that the grouping puts at `g`.
pub open spec fn grouped_row(ids: Seq<u32>, ne: int, g: int) -> int {
    choose|i: int| 0 <= i < ids.len() && #[trigger] group_rank(ids, ne, i) == g
}

/// The memory after the grouping tables of `ids` were built: both permutations with
/// their inverses, the expert of every padded row and tile, the offsets, and the number
/// of padded rows.
pub open spec fn grouped(
    m: spec_fn(Ptr) -> u8,
    ids: Seq<u32>,
    ne: int,
    off: Ptr,
    perm: Ptr,
    inv: Ptr,
    rowexp: Ptr,
    perm_pad: Ptr,
    inv_pad: Ptr,
    tilexp: Ptr,
    rows_pad: Ptr,
) -> spec_fn(Ptr) -> u8 {
    let (rows, pad) = (ids.len() as int, pad_rows(ids, ne));
    let m1 = table_written(m, off, ne + 1, |e: int| group_off(ids, ne, e));
    let m2 = table_written(m1, rows_pad, 1, |e: int| pad);
    let m3 = table_written(m2, perm, rows, |g: int| grouped_row(ids, ne, g));
    let m4 = table_written(m3, inv, rows, |i: int| group_rank(ids, ne, i));
    let m5 = table_written(m4, rowexp, pad, |q: int| padded_expert(ids, ne, q));
    let m6 = table_written(m5, perm_pad, pad, |q: int| padded_row(ids, ne, q));
    let m7 = table_written(m6, inv_pad, rows, |i: int| pad_rank(ids, ne, i));
    table_written(m7, tilexp, pad / TILE as int, |t: int| padded_expert(ids, ne, t * TILE))
}

} // verus!
