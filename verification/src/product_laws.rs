//! What groups of products have in common with single products.

use vstd::prelude::*;
use crate::acc::Q4Acc;
use crate::device::{spec_buf, Attempt, Cmd, Ptr, Slot};
use crate::error::AccError;
use crate::frame_mm::{mmq_mm, quantised_mm, spec_wptr, Pairing};
use crate::gemm::gemm_program;
use crate::ggml::{spec_f32_family, GgmlType};
use crate::kernels::Call;
use crate::moe::quant_program;
use crate::upload::Weight;
use crate::value::{row_error, upload_rows};

verus! {

/// One of the products that share a launch.
pub struct Product {
    pub x: Ptr,
    pub w: Ptr,
    pub out: Ptr,
    pub n_in: i32,
    pub n_out: i32,
}

/// The product of the rows at `x` with a weight.
pub open spec fn product_of(x: Ptr, w: Weight, out: Ptr) -> Product {
    Product { x, w: spec_wptr(w), out, n_in: w.n_in as i32, n_out: w.n_out as i32 }
}

/// The two products of a launch that serves two weights.
pub open spec fn dual_products(c: Cmd) -> Seq<Product> {
    match c {
        Cmd::Launch(l) => match l.call {
            Call::GemmQ8Dual { xq, w1, w2, out1, out2, n_in, n_out1, n_out2, .. } => seq![
                Product { x: xq, w: w1, out: out1, n_in, n_out: n_out1 },
                Product { x: xq, w: w2, out: out2, n_in, n_out: n_out2 },
            ],
            Call::GemmF32Dual { x, w1, out1, w2, out2, n_in, n_out1, n_out2 } => seq![
                Product { x, w: w1, out: out1, n_in, n_out: n_out1 },
                Product { x, w: w2, out: out2, n_in, n_out: n_out2 },
            ],
            Call::GemmMixDual { xq, w8, out8, n_out8, x, w4, out4, n_out4, n_in, .. } => seq![
                Product { x: xq, w: w8, out: out8, n_in, n_out: n_out8 },
                Product { x, w: w4, out: out4, n_in, n_out: n_out4 },
            ],
            _ => Seq::empty(),
        },
        _ => Seq::empty(),
    }
}

impl Q4Acc {
    /// Entries that the products at entry `i` of a group serve.
    pub open spec fn group_width(&self, ws: Seq<Weight>, t: int, i: int) -> int {
        if Q4Acc::shares_quant(ws) {
            self.uniform_width(ws, t, i)
        } else {
            self.mixed_width(ws, t, i)
        }
    }

    /// How often the products of a group from entry `from` on serve entry `k`.
    pub open spec fn times_served(&self, ws: Seq<Weight>, t: int, from: int, k: int) -> int
        decreases ws.len() - from,
    {
        if from >= ws.len() {
            0
        } else {
            (if from <= k < from + self.group_width(ws, t, from) {
                1int
            } else {
                0int
            }) + self.times_served(ws, t, from + self.group_width(ws, t, from), k)
        }
    }

    /// What a product of a group reads: the rows themselves for a plain `f32` weight,
    /// else the quantised rows.
    pub open spec fn rows_for(&self, x: Ptr, w: Weight) -> Ptr {
        if spec_f32_family(w.ty) {
            x
        } else {
            spec_buf(Slot::Fxq)
        }
    }
}

proof fn lemma_served_once(acc: Q4Acc, ws: Seq<Weight>, t: int, from: int, k: int)
    requires
        0 <= from <= ws.len(),
        0 <= k < ws.len(),
    ensures
        acc.times_served(ws, t, from, k) == if from <= k {
            1int
        } else {
            0int
        },
    decreases ws.len() - from,
{
    if from < ws.len() {
        let w = acc.group_width(ws, t, from);
        assert(1 <= w <= 2 && from + w <= ws.len());
        lemma_served_once(acc, ws, t, from + w, k);
    }
}

proof fn lemma_uniform_runs_through(
    acc: Q4Acc,
    x: Ptr,
    ws: Seq<Weight>,
    outs: Seq<u64>,
    t: usize,
    i: int,
)
    requires
        0 <= i <= ws.len(),
        ws.len() == outs.len(),
        forall|k: int| 0 <= k < outs.len() ==> acc.frames.spec_ptr(#[trigger] outs[k]) is Ok,
    ensures
        acc.uniform_from(x, ws, outs, t, i).1 is None,
    decreases ws.len() - i,
{
    if i < ws.len() {
        assert(acc.frames.spec_ptr(outs[i]) is Ok);
        if acc.pairs_q8(ws, t as int, i) {
            assert(acc.frames.spec_ptr(outs[i + 1]) is Ok);
        }
        lemma_uniform_runs_through(acc, x, ws, outs, t, i + acc.uniform_width(ws, t as int, i));
    }
}

proof fn lemma_mixed_runs_through(
    acc: Q4Acc,
    x: Ptr,
    ws: Seq<Weight>,
    outs: Seq<u64>,
    t: usize,
    i: int,
)
    requires
        0 <= i <= ws.len(),
        ws.len() == outs.len(),
        forall|k: int| 0 <= k < outs.len() ==> acc.frames.spec_ptr(#[trigger] outs[k]) is Ok,
    ensures
        acc.mixed_from(x, ws, outs, t, i).1 is None,
    decreases ws.len() - i,
{
    if i < ws.len() {
        assert(acc.frames.spec_ptr(outs[i]) is Ok);
        if acc.pairing(ws, t as int, i) != Pairing::Alone {
            assert(acc.frames.spec_ptr(outs[i + 1]) is Ok);
        }
        lemma_mixed_runs_through(acc, x, ws, outs, t, i + acc.mixed_width(ws, t as int, i));
    }
}

/// A group of products over the same rows multiplies every weight exactly once, into
/// its own output, as single products would. A weight that has a launch for itself gets
/// the product that `frame_mm` plans for it; where one quantisation serves the group,
/// that product lacks its own, which is the same as the one at the start of the group. A
/// q8_0 weight of a mixed group goes to the self-quantising product where that is asked
/// for. Two weights that share a launch are both named in it, each with its own rows,
/// sizes and output. With valid frames nothing ends the group early.
pub proof fn law_group_serves_every_weight_once(
    acc: Q4Acc,
    x: Ptr,
    ws: Seq<Weight>,
    outs: Seq<u64>,
    t: usize,
    i: int,
    o1: Ptr,
    o2: Ptr,
)
    requires
        0 <= i < ws.len(),
        ws.len() == outs.len(),
        forall|k: int| 0 <= k < outs.len() ==> acc.frames.spec_ptr(#[trigger] outs[k]) is Ok,
        acc.frames.spec_ptr(outs[i]) == Ok::<Ptr, AccError>(o1),
        i + 1 < ws.len() ==> acc.frames.spec_ptr(outs[i + 1]) == Ok::<Ptr, AccError>(o2),
        acc.weight_f32(ws[i]) == spec_f32_family(ws[i].ty),
    ensures
        acc.group_of(x, ws, outs, t).1 is None,
        acc.times_served(ws, t as int, 0, i) == 1,
        ({
            let shared = Q4Acc::shares_quant(ws) && !acc.mmq_on(t as int);
            let quant = quant_program(x, ws[i].n_in, t as int);
            let gemm = gemm_program(acc.tuning, quantised_mm(ws[i], o1, t));
            let part = if Q4Acc::shares_quant(ws) {
                acc.uniform_at(x, ws, outs, t, i)
            } else {
                acc.mixed_at(x, ws, outs, t, i)
            };
            &&& part.1 is None
            &&& if acc.group_width(ws, t as int, i) == 2 {
                &&& i + 1 < ws.len()
                &&& dual_products(part.0.last()) == seq![
                    product_of(acc.rows_for(x, ws[i]), ws[i], o1),
                    product_of(acc.rows_for(x, ws[i + 1]), ws[i + 1], o2),
                ]
            } else if shared {
                &&& quant.is_prefix_of(acc.group_of(x, ws, outs, t).0)
                &&& part.0 == seq![Cmd::Weight { key: ws[i].key }] + gemm
                &&& acc.gemm_of(x, ws[i], o1, t) == seq![Cmd::Weight { key: ws[i].key }] + (quant
                    + gemm)
            } else if !Q4Acc::shares_quant(ws) && ws[i].ty == GgmlType::Q8_0 && t >= 32
                && acc.tuning.q8_mmq {
                part.0 == seq![
                    Cmd::Weight { key: ws[i].key },
                    Cmd::Must(Attempt::Mmq(mmq_mm(8, x, ws[i], o1, t))),
                ]
            } else {
                part.0 == acc.gemm_of(x, ws[i], o1, t)
            }
        }),
{
    lemma_served_once(acc, ws, t as int, 0, i);
    lemma_uniform_runs_through(acc, x, ws, outs, t, 0);
    lemma_mixed_runs_through(acc, x, ws, outs, t, 0);
    if Q4Acc::shares_quant(ws) {
        assert(ws[i].n_in == ws[0].n_in && !spec_f32_family(ws[i].ty));
        if acc.pairs_q8(ws, t as int, i) {
            assert(ws[i + 1].n_in == ws[0].n_in && !spec_f32_family(ws[i + 1].ty));
        } else {
            let g = gemm_program(acc.tuning, quantised_mm(ws[i], o1, t));
            assert(Seq::<Cmd>::empty() + g =~= g);
        }
    }
}

/// The first `n` steps of a list of requests are those that were planned, up to the
/// first refusal.
proof fn lemma_single_steps(acc: Q4Acc, xs: Seq<Vec<u32>>, ws: Seq<Weight>, n: int, i: int)
    requires
        0 <= n <= ws.len(),
        0 <= i,
    ensures
        ({
            let (steps, stop) = acc.single_steps(xs, ws, n);
            &&& steps.len() <= n
            &&& i < steps.len() ==> acc.batch_program(xs, ws[i], 0) == Ok::<Seq<Cmd>, AccError>(
                steps[i],
            )
            &&& match stop {
                Some(e) => steps.len() < n && acc.batch_program(xs, ws[steps.len() as int], 0)
                    == Err::<Seq<Cmd>, AccError>(e),
                None => steps.len() == n,
            }
        }),
    decreases n,
{
    if n > 0 {
        lemma_single_steps(acc, xs, ws, n - 1, i);
    }
}

/// A group of weights over host rows gives what single batches give: step `i` is the
/// batch of weight `i`, or, where one upload serves all, that batch without the upload
/// that the first step made with the same content and shape. A refused weight ends the
/// group with the error of its own batch.
pub proof fn law_group_steps_are_batches(
    acc: Q4Acc,
    xs: Seq<Vec<u32>>,
    ws: Seq<Weight>,
    steps: Seq<Seq<Cmd>>,
    stop: Option<AccError>,
    i: int,
)
    requires
        0 < xs.len() <= usize::MAX,
        0 <= i < ws.len(),
        acc.value_group(xs, ws, ws.len() as int) == Ok::<
            (Seq<Seq<Cmd>>, Option<AccError>),
            AccError,
        >((steps, stop)),
    ensures
        match stop {
            None => steps.len() == ws.len(),
            Some(e) => steps.len() < ws.len() && acc.batch_program(xs, ws[steps.len() as int], 0)
                == Err::<Seq<Cmd>, AccError>(e),
        },
        i < steps.len() ==> (acc.batch_program(xs, ws[i], 0) matches Ok(batch) && if i > 0
            && Q4Acc::shares_rows(ws) {
            let up = upload_rows(xs.len() as int, ws[0].n_in, spec_f32_family(ws[0].ty));
            &&& batch == up + steps[i]
            &&& up.is_prefix_of(steps[0])
        } else {
            steps[i] == batch
        }),
{
    if Q4Acc::shares_rows(ws) {
        assert(ws[i].n_in == ws[0].n_in && spec_f32_family(ws[i].ty) == spec_f32_family(ws[0].ty));
        let t = xs.len() as usize;
        let f = spec_f32_family(ws[0].ty);
        let up = upload_rows(t as int, ws[0].n_in, f);
        assert(steps[i] == acc.shared_step(ws, t, i));
        assert(steps[0] == acc.shared_step(ws, t, 0));
        let run = acc.run_program(ws[i], 0, t, !f);
        assert(Seq::<Cmd>::empty() + run =~= run);
        assert(row_error(xs, ws[i].n_in) is None);
    } else {
        lemma_single_steps(acc, xs, ws, ws.len() as int, i);
    }
}

/// Paired products run in order up to the first that is refused: each step is the
/// product of its own row and weight, and the refusal is the one of the pair behind
/// the last step.
pub proof fn law_pairs_run_until_a_refusal(
    acc: Q4Acc,
    xs: Seq<Vec<u32>>,
    ws: Seq<Weight>,
    n: int,
    i: int,
)
    requires
        0 <= n <= ws.len(),
        0 <= i,
    ensures
        ({
            let (steps, stop) = acc.paired_steps(xs, ws, n);
            &&& steps.len() <= n
            &&& i < steps.len() ==> acc.batch_program(seq![xs[i]], ws[i], 0) == Ok::<
                Seq<Cmd>,
                AccError,
            >(steps[i])
            &&& match stop {
                Some(e) => steps.len() < n && acc.batch_program(
                    seq![xs[steps.len() as int]],
                    ws[steps.len() as int],
                    0,
                ) == Err::<Seq<Cmd>, AccError>(e),
                None => steps.len() == n,
            }
        }),
    decreases n,
{
    if n > 0 {
        law_pairs_run_until_a_refusal(acc, xs, ws, n - 1, i);
    }
}

} // verus!
