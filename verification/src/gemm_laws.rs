//! What holds of the programs of matrix products.

use vstd::prelude::*;
use crate::arith::{lemma_ceil_div, spec_ceil_div};
use crate::device::{Cmd, MatMul};
use crate::gemm::{
    gemm_program, grid_y, grid_z, tile_call, tile_count, tile_program, tile_takes_all, GRID_Y,
    TILE_ROWS,
};
use crate::tuning::Tuning;

verus! {

/// The commands that take effect when a program runs from `pc` on, where `ok` says
/// which commands the device accepts.
pub open spec fn effects(prog: Seq<Cmd>, pc: int, ok: spec_fn(int) -> bool) -> Seq<Cmd>
    decreases prog.len() - pc,
{
    if 0 <= pc < prog.len() {
        let here = if ok(pc) {
            seq![prog[pc]]
        } else {
            Seq::empty()
        };
        match prog[pc].spec_advance(pc, ok(pc)) {
            Some(next) => if pc < next < prog.len() {
                here + effects(prog, next, ok)
            } else {
                here
            },
            None => here,
        }
    } else {
        Seq::empty()
    }
}

/// Every jump of a product's program leads forward, and not past its end.
pub proof fn law_jumps_stay_inside(tun: Tuning, m: MatMul, pc: int, ok: bool)
    requires
        m.fits(),
        0 <= pc < gemm_program(tun, m).len(),
    ensures
        gemm_program(tun, m)[pc].spec_advance(pc, ok) matches Some(n) ==> pc < n
            <= gemm_program(tun, m).len(),
{
    if !tile_takes_all(m.ty) {
        lemma_ceil_div(m.t as int, TILE_ROWS as int);
    }
}

/// The effect of the tile path from call `c` on, where no call before `refused` is
/// refused.
proof fn lemma_tiles_from(m: MatMul, ok: spec_fn(int) -> bool, c: int, refused: int)
    requires
        m.fits(),
        0 <= c <= refused <= tile_count(m),
        c < tile_count(m),
        forall|d: int| c <= d < refused ==> #[trigger] ok(d),
        refused < tile_count(m) ==> !ok(refused),
    ensures
        effects(tile_program(m), c, ok) == if refused < tile_count(m) {
            tile_program(m).subrange(c, refused) + effects(tile_program(m), tile_count(m), ok)
        } else {
            tile_program(m).subrange(c, tile_count(m))
        },
    decreases refused - c,
{
    let (prog, n) = (tile_program(m), tile_count(m));
    if !tile_takes_all(m.ty) {
        lemma_ceil_div(m.t as int, TILE_ROWS as int);
    }
    assert(prog.len() == n + 1);
    if c == refused {
        assert(prog[c].spec_advance(c, false) == Some(n));
        assert(prog.subrange(c, c) =~= Seq::empty());
        assert(effects(prog, c, ok) =~= Seq::empty() + effects(prog, n, ok));
    } else if c + 1 == n {
        assert(prog[c].spec_advance(c, true) == Some(n + 1));
        assert(effects(prog, n + 1, ok) =~= Seq::empty());
        assert(prog.subrange(c, n) =~= seq![prog[c]]);
        assert(effects(prog, c, ok) =~= seq![prog[c]] + effects(prog, n + 1, ok));
    } else {
        assert(prog[c].spec_advance(c, true) == Some(c + 1));
        lemma_tiles_from(m, ok, c + 1, refused);
        let rest = if refused < n {
            prog.subrange(c + 1, refused) + effects(prog, n, ok)
        } else {
            prog.subrange(c + 1, n)
        };
        assert(effects(prog, c, ok) =~= seq![prog[c]] + rest);
        if refused < n {
            assert(prog.subrange(c, refused) =~= seq![prog[c]] + prog.subrange(c + 1, refused));
        } else {
            assert(prog.subrange(c, n) =~= seq![prog[c]] + prog.subrange(c + 1, n));
        }
    }
}

/// Where every tile call is accepted, exactly the tile calls take effect; the
/// row-wise kernel does not run.
pub proof fn law_tiles_suffice(m: MatMul, ok: spec_fn(int) -> bool)
    requires
        m.fits(),
        tile_count(m) > 0,
        forall|c: int| 0 <= c < tile_count(m) ==> #[trigger] ok(c),
    ensures
        effects(tile_program(m), 0, ok) == tile_program(m).drop_last(),
{
    lemma_tiles_from(m, ok, 0, tile_count(m));
    if !tile_takes_all(m.ty) {
        lemma_ceil_div(m.t as int, TILE_ROWS as int);
    }
    assert(tile_program(m).subrange(0, tile_count(m)) =~= tile_program(m).drop_last());
}

/// The first refused tile call ends the tile path: the row-wise kernel then computes
/// the whole product, as the last effect of the program.
pub proof fn law_refusal_falls_back(m: MatMul, ok: spec_fn(int) -> bool, refused: int)
    requires
        m.fits(),
        0 <= refused < tile_count(m),
        !ok(refused),
        forall|c: int| 0 <= c < refused ==> #[trigger] ok(c),
        ok(tile_count(m)),
    ensures
        effects(tile_program(m), 0, ok) == tile_program(m).take(refused).push(Cmd::Gemv(m)),
{
    let (prog, n) = (tile_program(m), tile_count(m));
    lemma_tiles_from(m, ok, 0, refused);
    if !tile_takes_all(m.ty) {
        lemma_ceil_div(m.t as int, TILE_ROWS as int);
    }
    assert(prog[n] == Cmd::Gemv(m));
    assert(effects(prog, n + 1, ok) =~= Seq::empty());
    assert(effects(prog, n, ok) =~= seq![Cmd::Gemv(m)]);
    assert(prog.subrange(0, refused) =~= prog.take(refused));
    assert(effects(prog, 0, ok) =~= prog.take(refused).push(Cmd::Gemv(m)));
}

/// The tile calls cover the rows of the batch: each begins where the one before it
/// ended, the last ends with the batch, and none takes more rows than a tile.
pub proof fn law_tile_calls_cover_rows(m: MatMul, c: int)
    requires
        m.fits(),
        0 <= c < tile_count(m),
        !tile_takes_all(m.ty),
    ensures
        tile_call(m, c).x == m.x.spec_at(c * TILE_ROWS * m.xq_w * 4),
        tile_call(m, c).out == m.out.spec_at(c * TILE_ROWS * m.n_out * 4),
        1 <= tile_call(m, c).t <= TILE_ROWS,
        c + 1 < tile_count(m) ==> c * TILE_ROWS + tile_call(m, c).t == (c + 1) * TILE_ROWS,
        c + 1 == tile_count(m) ==> c * TILE_ROWS + tile_call(m, c).t == m.t,
{
    lemma_ceil_div(m.t as int, TILE_ROWS as int);
}

/// A grid of `n` blocks, laid out over y and z, has at least `n` blocks and keeps
/// within the limit in y.
pub proof fn law_grid_covers_blocks(n: int)
    requires
        0 <= n <= GRID_Y * u32::MAX,
    ensures
        grid_y(n) <= GRID_Y,
        grid_y(n) * grid_z(n) >= n,
{
    lemma_ceil_div(n, GRID_Y as int);
    let z = spec_ceil_div(n, GRID_Y as int);
    assert(z <= u32::MAX) by (nonlinear_arith)
        requires
            n <= 65535 * 0xffff_ffff,
            z * 65535 < n + 65535,
    ;
    if n == 0 {
        assert(0 * z == 0) by (nonlinear_arith);
    } else if n <= GRID_Y {
        assert(z == 1) by (nonlinear_arith)
            requires
                0 < n <= 65535,
                z * 65535 < n + 65535,
                n <= z * 65535,
        ;
        assert(n * 1 == n) by (nonlinear_arith);
    } else {
        assert(65535 * z == z * 65535) by (nonlinear_arith);
    }
}

} // verus!
