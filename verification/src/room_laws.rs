//! Programs make room for what they write to the library's own buffers.

use vstd::prelude::*;
use crate::acc::{MoeGroup, Q4Acc};
use crate::device::{spec_buf, Cmd, Ptr, Slot};
use crate::kernel_effects::parts_len;
use crate::kernels::Call;
use crate::moe::{quant_program, MoeReq};
use crate::moe_grouped::{gather_program, pad_layout, spec_row_words, tables_program};
use crate::ops::{op_cmds, FrameOp};
use crate::qsa_attn::AttnShape;
use crate::qsa_sel::{law_selection_bounds, SelReq};
use crate::recurrent::spec_argmax_blocks;
use crate::value::upload_rows;

verus! {

/// Where a command writes, and how many bytes.
pub open spec fn writes(c: Cmd) -> Seq<(Ptr, int)> {
    match c {
        Cmd::H2d { dst, bytes, .. } => seq![(dst, bytes as int)],
        Cmd::D2d { dst, bytes, .. } => seq![(dst, bytes as int)],
        Cmd::Quant { xq, xq_w, t, .. } => seq![(xq, t * xq_w * 4)],
        Cmd::Launch(l) => match l.call {
            Call::RmsPart { part, .. } => seq![(part, l.gx * 256)],
            Call::RowsPermute { dst, row_words, n, .. } => seq![(dst, n * row_words * 4)],
            Call::MoeQ51Gm { out, n_out, t, .. } => seq![(out, t * n_out * 4)],
            Call::QsaSplit { part, n_splits, n_head, .. } => seq![
                (part, parts_len(n_head as int, n_splits as int)),
            ],
            Call::IdxBlockKeys { block_k, b0, dim, .. } => seq![(block_k, (b0 + l.gx) * dim * 4)],
            Call::IdxQRope { out, t, heads, dim, .. } => seq![(out, t * heads * dim * 4)],
            Call::IdxScore { scores, n_blocks, .. } => seq![(scores, n_blocks * 4)],
            Call::IdxRank { flags, n_blocks, .. } => seq![(flags, n_blocks * 4)],
            Call::IdxTopk { sel_idx, sel_off, n_blocks, n_sel, r, n_past, .. } => seq![
                (sel_idx, (n_sel * r + (n_past - n_blocks * r)) * 4),
                (sel_off, 8),
            ],
            Call::IdxExpand { sel_idx, sel_off, n_blocks, n_sel, r, n_past, .. } => seq![
                (sel_idx, (n_sel * r + (n_past - n_blocks * r)) * 4),
                (sel_off, 8),
            ],
            Call::ArgmaxS1 { part, nblk, .. } => seq![(part, l.gy * nblk * 8)],
            Call::ArgmaxS2 { out, .. } => seq![(out, l.gx * 8)],
            _ => Seq::empty(),
        },
        _ => Seq::empty(),
    }
}

/// Some command of the program makes room for the bytes, unless there are none.
pub open spec fn has_room(c: Seq<Cmd>, w: (Ptr, int)) -> bool {
    match w.0 {
        Ptr::Buf { slot, off } => w.1 <= 0 || exists|i: int|
            0 <= i < c.len() && (#[trigger] c[i] matches Cmd::Ensure { slot: s, bytes } && s == slot
                && off + w.1 <= bytes),
        _ => true,
    }
}

/// The program makes room for everything that it writes.
pub open spec fn makes_room(c: Seq<Cmd>) -> bool {
    forall|i: int, j: int|
        0 <= i < c.len() && 0 <= j < writes(c[i]).len() ==> has_room(c, #[trigger] writes(c[i])[j])
}

/// The two norms of an operation on rows find room for their sums.
pub proof fn law_norm_makes_room(small: bool, x: u64, w: u64, out: u64, n: usize, rows: usize, eps: u32, t: int, p: Seq<Ptr>)
    requires
        p.len() == 3,
        p[0] is Dev,
        p[1] is Dev,
        p[2] is Dev,
        1 <= t,
        rows * t * 256 <= u32::MAX,
    ensures
        makes_room(op_cmds(small, FrameOp::RmsRows { x, w, out, n, w_reps: rows, eps }, t, p)),
{
    let c = op_cmds(small, FrameOp::RmsRows { x, w, out, n, w_reps: rows, eps }, t, p);
    assert(c.len() >= 1);
    assert(0 <= rows * t) by (nonlinear_arith)
        requires
            0 <= rows,
            1 <= t,
    ;
    if c.len() == 3 {
        assert(c[0] is Ensure);
    }
}

/// The choice of a token finds room for its records.
pub proof fn law_argmax_makes_room(x: Ptr, t: int, vocab: int)
    requires
        x is Dev,
        0 <= t <= i32::MAX,
        (t + 1) * 520 <= usize::MAX,
    ensures
        makes_room(Q4Acc::argmax_program(x, t, vocab)),
{
    let c = Q4Acc::argmax_program(x, t, vocab);
    let rows = vstd::math::max(t, 1);
    let n = spec_argmax_blocks(vocab);
    assert(rows * n * 8 == 8 * n * rows && 0 <= rows * n * 8 <= rows * 512) by (nonlinear_arith)
        requires
            1 <= n <= 64,
            1 <= rows,
    ;
    assert(c[0] is Ensure && c[1] is Ensure);
}

/// Rows that are quantised find room.
pub proof fn law_quantisation_makes_room(x: Ptr, n_in: usize, t: usize)
    requires
        t * crate::ggml::spec_xq_words(n_in as int) * 4 <= usize::MAX,
    ensures
        makes_room(quant_program(x, n_in, t as int)),
{
    let c = quant_program(x, n_in, t as int);
    assert(c[0] is Ensure);
}

/// Rows that are uploaded find room, plain and quantised.
pub proof fn law_upload_makes_room(t: usize, n_in: usize, plain: bool)
    requires
        t * n_in * 4 <= usize::MAX,
        t * crate::ggml::spec_xq_words(n_in as int) * 4 <= usize::MAX,
    ensures
        makes_room(upload_rows(t as int, n_in, plain)),
{
    let c = upload_rows(t as int, n_in, plain);
    assert(c[0] is Ensure);
    if !plain {
        assert(c[2] is Ensure);
    }
}

/// The tables of a routing find room.
pub proof fn law_tables_make_room(rows: int, pad: int)
    requires
        0 <= rows * 4 <= usize::MAX,
        0 <= pad * 4 <= usize::MAX,
    ensures
        makes_room(tables_program(rows, pad)),
{
    let c = tables_program(rows, pad);
    assert(c[0] is Ensure && c[1] is Ensure && c[2] is Ensure && c[6] is Ensure && c[7] is Ensure
        && c[8] is Ensure);
}

/// The gathered rows of a request find room, and so do the results by place.
pub proof fn law_gather_makes_room(acc: Q4Acc, rq: MoeReq, g: MoeGroup, x: Ptr)
    requires
        acc.moe_fits(rq),
        acc.moe_prepared(rq),
        acc.moe_bound(rq) <= i32::MAX,
        spec_row_words(&acc, rq) <= i32::MAX,
    ensures
        makes_room(gather_program(&acc, rq, g, x)),
        has_room(
            gather_program(&acc, rq, g, x),
            (
                spec_buf(Slot::Yperm),
                if pad_layout(&acc, g) {
                    acc.moe_bound(rq)
                } else {
                    acc.moe_rows(rq)
                } * rq.spec_n_out() * 4,
            ),
        ),
{
    let c = gather_program(&acc, rq, g, x);
    let (rows, bound, words, no) = (
        acc.moe_rows(rq),
        acc.moe_bound(rq),
        spec_row_words(&acc, rq),
        rq.spec_n_out(),
    );
    assert(rows >= 1) by (nonlinear_arith)
        requires
            rows == acc.spec_t() * vstd::math::max(rq.k_sel as int, 1),
            acc.spec_t() >= 1,
            vstd::math::max(rq.k_sel as int, 1) >= 1,
    ;
    assert(words == crate::ggml::spec_xq_words(rq.w.n_in as int) || words == rq.w.n_in);
    vstd::arithmetic::div_mod::lemma_div_pos_is_pos(rq.w.n_out as int, rq.spec_ne());
    assert(0 <= rows * words * 4 <= bound * words * 4 && 0 <= rows * no * 4 <= bound * no * 4 && bound
        * no * 4 <= bound * no * 64) by (nonlinear_arith)
        requires
            1 <= rows <= bound,
            0 <= words,
            0 <= no,
    ;
    assert(c[0] is Ensure && c[1] is Ensure);
}

/// Split attention finds room for its parts.
pub proof fn law_split_makes_room(
    s: AttnShape,
    splits: int,
    q: Ptr,
    k: Ptr,
    v: Ptr,
    idx: Ptr,
    off: Ptr,
    out: Ptr,
)
    requires
        s.n_head <= i32::MAX,
        0 <= splits <= 512,
        s.n_head * splits * 32 * 10 * 4 <= usize::MAX,
    ensures
        makes_room(
            seq![Q4Acc::split_room(s, splits)] + crate::qsa_attn::split_launches(
                s,
                splits,
                q,
                k,
                v,
                idx,
                off,
                out,
            ),
        ),
{
    let c = seq![Q4Acc::split_room(s, splits)] + crate::qsa_attn::split_launches(
        s,
        splits,
        q,
        k,
        v,
        idx,
        off,
        out,
    );
    assert(c[0] == Q4Acc::split_room(s, splits));
    assert(0 <= s.n_head * splits * 32 * 10 * 4) by (nonlinear_arith)
        requires
            0 <= s.n_head,
            0 <= splits,
    ;
}

/// The choice of blocks finds room for scores, flags, list and offsets.
pub proof fn law_choice_makes_room(acc: Q4Acc, rq: SelReq)
    requires
        acc.sel_fits(rq),
        acc.sel_error(rq) is None,
        rq.n_past() <= i32::MAX,
        rq.idx.r <= i32::MAX,
    ensures
        makes_room(acc.choose_program(rq)),
{
    let c = acc.choose_program(rq);
    let (n, r) = (rq.n_past(), rq.idx.r as int);
    law_selection_bounds(n, r, rq.top_k as int);
    vstd::arithmetic::div_mod::lemma_fundamental_div_mod(n, r);
    vstd::arithmetic::div_mod::lemma_mod_bound(n, r);
    vstd::arithmetic::div_mod::lemma_div_pos_is_pos(n, r);
    let nb = n / r;
    assert(nb * r == r * nb) by (nonlinear_arith);
    assert(nb <= n) by (nonlinear_arith)
        requires
            r * nb <= n,
            1 <= r,
            0 <= nb,
    ;
    assert(c[0] is Ensure && c[1] is Ensure);
    if !(0 < nb <= crate::qsa_sel::TOPK_BLOCKS && !acc.tuning.idx_topk_off) {
        assert(c[2] is Ensure);
    }
}

} // verus!
