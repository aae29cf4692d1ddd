//! The grids of the products reach every output of every row.

use vstd::prelude::*;
use crate::arith::{lemma_ceil_div, spec_ceil_div};
use crate::device::{Cmd, MatMul, Ptr};
use crate::gemm::{
    f32_dual_launch, gemm_f32_launch, gemm_program, mix_dual_launch, q8_dual_launch, GRID_Y,
};
use crate::gemm_laws::law_grid_covers_blocks;
use crate::grids::covers;
use crate::tuning::Tuning;

verus! {

/// The grid of a command reaches all of its work.
pub open spec fn is_covered(c: Cmd) -> bool {
    c matches Cmd::Launch(l) ==> covers(l)
}

/// The tile shapes of the tuning can be told to a kernel.
pub open spec fn shapes_fit(tun: Tuning) -> bool {
    &&& tun.usable()
    &&& tun.spec_y_rows() <= i32::MAX
    &&& match tun.spec_shape() {
        Some((outs, rows)) => outs <= i32::MAX && rows <= i32::MAX && outs * rows <= u32::MAX,
        None => true,
    }
}

/// The sizes of a product can be told to a kernel. The q5_1 kernel of whole tiles has
/// its outputs in one dimension of the grid, and a row of each tile in shared memory.
pub open spec fn sizes_fit(tun: Tuning, m: MatMul) -> bool {
    &&& m.n_in <= i32::MAX
    &&& m.n_out <= i32::MAX
    &&& m.t <= i32::MAX
    &&& m.ty == 7 ==> m.n_out <= 16 * GRID_Y && (m.n_in / 32) * 384 <= u32::MAX
    &&& m.ty == 12 ==> shapes_fit(tun)
}

proof fn lemma_reach(n: int, d: int)
    requires
        0 <= n <= u32::MAX,
        d >= 1,
    ensures
        0 <= spec_ceil_div(n, d) <= n,
        (spec_ceil_div(n, d) as u32) * d >= n,
{
    lemma_ceil_div(n, d);
    let c = spec_ceil_div(n, d);
    assert(c <= n) by (nonlinear_arith)
        requires
            c * d < n + d,
            d >= 1,
            n >= 0,
    ;
    assert(c >= 0) by (nonlinear_arith)
        requires
            c * d >= n,
            d >= 1,
            n >= 0,
    ;
}

/// Every launch of a product reaches all outputs of all rows.
pub proof fn law_product_grids_cover(tun: Tuning, m: MatMul, i: int)
    requires
        sizes_fit(tun, m),
        0 <= i < gemm_program(tun, m).len(),
    ensures
        is_covered(gemm_program(tun, m)[i]),
{
    let (no, t) = (m.n_out as int, m.t as int);
    lemma_reach(no, 256);
    lemma_reach(no, 16);
    lemma_reach(no, 4);
    lemma_reach(t, 16);
    if m.ty == 12 {
        lemma_reach(t, tun.spec_y_rows() as int);
        match tun.spec_shape() {
            Some((outs, rows)) => {
                lemma_reach(no, outs as int);
                lemma_reach(t, rows as int);
            },
            None => {},
        }
    }
    law_grid_covers_blocks(spec_ceil_div(no, 4));
    assert(16 * (m.n_in / 32) * 24 == (m.n_in / 32) * 384);
}

/// So does every launch of a product over plain rows. The kernel of one block per row
/// takes the rows from the grid: there are as many as in the batch.
pub proof fn law_plain_product_grids_cover(
    x: Ptr,
    w: Ptr,
    n_in: usize,
    n_out: usize,
    t: usize,
    out: Ptr,
)
    requires
        n_in <= i32::MAX,
        n_out <= i32::MAX,
        t <= i32::MAX,
    ensures
        is_covered(gemm_f32_launch(x, w, n_in, n_out, t, out)),
        gemm_f32_launch(x, w, n_in, n_out, t, out) matches Cmd::Launch(l) && (l.call is GemmF32
            ==> l.gx == t),
{
    lemma_reach(n_out as int, 16);
    lemma_reach(n_out as int, 8);
    lemma_reach(t as int, 16);
    law_grid_covers_blocks(n_out as int);
}

/// A launch that serves two weights reaches the outputs of both.
pub proof fn law_dual_grids_cover(
    xq: Ptr,
    x: Ptr,
    w1: Ptr,
    n1: usize,
    out1: Ptr,
    w2: Ptr,
    n2: usize,
    out2: Ptr,
    n_in: usize,
)
    requires
        n_in <= i32::MAX,
        n1 <= i32::MAX,
        n2 <= i32::MAX,
    ensures
        is_covered(q8_dual_launch(xq, w1, n1, out1, w2, n2, out2, n_in)),
        is_covered(f32_dual_launch(x, w1, n1, out1, w2, n2, out2, n_in)),
        is_covered(mix_dual_launch(xq, w1, n1, out1, x, w2, n2, out2, n_in)),
{
    lemma_reach(n1 + n2, 8);
    lemma_reach(n2 as int, 8);
    law_grid_covers_blocks(n1 + n2);
}

} // verus!
