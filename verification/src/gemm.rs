//! Choice of kernel and grid for one matrix product.

use vstd::prelude::*;
use crate::arith::{ceil_div, min_usize, spec_ceil_div};
use crate::device::{buf, launch, spec_buf, spec_launch, Attempt, Cmd, Launch, MatMul, Ptr, Slot};
use crate::kernels::Call;
use crate::tuning::Tuning;

verus! {

/// Largest grid dimension in y.
pub const GRID_Y: usize = 65535;

/// Rows per call of the tile kernels that handle one quadrant only.
pub const TILE_ROWS: usize = 128;

impl MatMul {
    /// The sizes and addresses that a product leads to can be counted.
    pub open spec fn fits(&self) -> bool {
        &&& self.x.offset() + self.t * self.xq_w * 4 <= usize::MAX
        &&& self.out.offset() + self.t * self.n_out * 4 <= usize::MAX
        &&& self.n_out * 512 <= usize::MAX
        &&& (self.n_in / 32) * 384 <= usize::MAX
    }
}

/// Blocks in y and z for `n` blocks in all, at most `GRID_Y` of them in y.
pub open spec fn grid_y(n: int) -> u32 {
    (if n <= GRID_Y {
        n
    } else {
        GRID_Y as int
    }) as u32
}

pub open spec fn grid_z(n: int) -> u32 {
    spec_ceil_div(n, GRID_Y as int) as u32
}

/// The batched q4_K kernels, selected by the tuning.
pub open spec fn q4k_program(tun: Tuning, m: MatMul) -> Seq<Cmd> {
    let part = spec_buf(Slot::Scratch);
    let (ni, no, xw, t) = (m.n_in as i32, m.n_out as i32, m.xq_w as i32, m.t as i32);
    let scratch = Cmd::Ensure { slot: Slot::Scratch, bytes: 4 };
    if tun.q4k_y {
        let rpt = tun.spec_y_rows();
        seq![
            Cmd::Zero { dst: m.out, words: (m.t * m.n_out) as usize },
            scratch,
            spec_launch(
                Call::GemmQ4kY {
                    xq: m.x,
                    w: m.w,
                    part,
                    out: m.out,
                    n_in: ni,
                    n_out: no,
                    xq_w: xw,
                    t,
                    rpt: rpt as i32,
                },
                spec_ceil_div(m.n_out as int, 256) as u32,
                spec_ceil_div(m.t as int, rpt as int) as u32,
                1,
                256,
            ),
        ]
    } else if tun.q4k_x {
        seq![
            scratch,
            spec_launch(
                Call::GemmQ4kX { xq: m.x, w: m.w, part, out: m.out, n_in: ni, n_out: no, xq_w: xw, t },
                spec_ceil_div(m.n_out as int, 16) as u32,
                spec_ceil_div(m.t as int, 16) as u32,
                1,
                256,
            ),
        ]
    } else {
        match tun.spec_shape() {
            Some((outs, rows)) => seq![
                scratch,
                spec_launch(
                    Call::GemmQ4kG {
                        xq: m.x,
                        w: m.w,
                        part,
                        out: m.out,
                        n_in: ni,
                        n_out: no,
                        xq_w: xw,
                        t,
                        outs: outs as i32,
                        rows: rows as i32,
                    },
                    spec_ceil_div(m.n_out as int, outs as int) as u32,
                    spec_ceil_div(m.t as int, rows as int) as u32,
                    1,
                    (outs * rows) as u32,
                ),
            ],
            None => seq![
                scratch,
                spec_launch(
                    Call::GemmQ4kM { xq: m.x, w: m.w, part, out: m.out, n_in: ni, n_out: no, xq_w: xw, t },
                    spec_ceil_div(m.n_out as int, 16) as u32,
                    spec_ceil_div(m.t as int, 16) as u32,
                    1,
                    256,
                ),
            ],
        }
    }
}

/// The q5_1 kernels: the batched one from 16 rows on, unless exact sums are
/// asked for; else the one with four outputs per block.
pub open spec fn q51_program(tun: Tuning, m: MatMul) -> Seq<Cmd> {
    let part = spec_buf(Slot::Scratch);
    let (ni, no, xw, t) = (m.n_in as i32, m.n_out as i32, m.xq_w as i32, m.t as i32);
    let nblk = spec_ceil_div(m.n_out as int, 4);
    seq![
        Cmd::Ensure { slot: Slot::Scratch, bytes: (m.n_out * 64 * 8) as usize },
        if m.t >= 16 && !tun.q51_exact {
            Cmd::Launch(
                Launch {
                    call: Call::GemmQ51M { xq: m.x, w: m.w, part, out: m.out, n_in: ni, n_out: no, xq_w: xw, t },
                    gx: grid_y(spec_ceil_div(m.n_out as int, 16)),
                    gy: spec_ceil_div(m.t as int, 16) as u32,
                    gz: 1,
                    block: 256,
                    smem: (16 * (m.n_in / 32) * 24) as u32,
                },
            )
        } else {
            spec_launch(
                Call::GemmQ51T { xq: m.x, w: m.w, part, out: m.out, n_in: ni, n_out: no, xq_w: xw, t },
                spec_ceil_div(m.t as int, 16) as u32,
                grid_y(nblk),
                grid_z(nblk),
                256,
            )
        },
    ]
}

/// The types whose tile kernel takes any number of rows in one call: q8_0,
/// q4_K, q5_K, q6_K and iq4_xs.
pub open spec fn tile_takes_all(ty: u32) -> bool {
    ty == 8 || ty == 12 || ty == 13 || ty == 14 || ty == 23
}

/// Calls that the tile path needs.
pub open spec fn tile_count(m: MatMul) -> int {
    if tile_takes_all(m.ty) {
        1
    } else {
        spec_ceil_div(m.t as int, TILE_ROWS as int)
    }
}

/// The `c`-th call of the tile path.
pub open spec fn tile_call(m: MatMul, c: int) -> MatMul {
    let t0 = c * TILE_ROWS;
    MatMul {
        x: m.x.spec_at(t0 * m.xq_w * 4),
        out: m.out.spec_at(t0 * m.n_out * 4),
        t: if tile_takes_all(m.ty) {
            m.t
        } else {
            vstd::math::min(TILE_ROWS as int, m.t - t0) as usize
        },
        ..m
    }
}

/// The tile calls one after the other; the first that is refused hands the
/// whole product to the row-wise kernel.
pub open spec fn tile_program(m: MatMul) -> Seq<Cmd> {
    let n = tile_count(m);
    if n == 0 {
        Seq::empty()
    } else {
        Seq::new(
            n as nat,
            |c: int|
                Cmd::Try {
                    call: Attempt::Tile(tile_call(m, c)),
                    on_ok: if c + 1 == n {
                        1
                    } else {
                        0
                    },
                    on_err: (n - 1 - c) as usize,
                },
        ).push(Cmd::Gemv(m))
    }
}

/// The program of one product over quantised activations.
pub open spec fn gemm_program(tun: Tuning, m: MatMul) -> Seq<Cmd> {
    if m.ty == 12 && m.t >= 16 && (tun.q4k_mmq || tun.q4k_outs) {
        q4k_program(tun, m)
    } else if m.ty == 7 {
        q51_program(tun, m)
    } else if (m.t >= 16 || tun.prefill_pin) && !tun.no_tile {
        tile_program(m)
    } else {
        seq![Cmd::Gemv(m)]
    }
}

fn grid_y_of(n: usize) -> (r: u32)
    ensures
        r == grid_y(n as int),
{
    min_usize(n, GRID_Y) as u32
}

fn grid_z_of(n: usize) -> (r: u32)
    ensures
        r == grid_z(n as int),
{
    ceil_div(n, GRID_Y) as u32
}

fn q4k_cmds(tun: &Tuning, m: MatMul) -> (r: Vec<Cmd>)
    requires
        tun.usable(),
        m.fits(),
    ensures
        r@ == q4k_program(*tun, m),
{
    let part = buf(Slot::Scratch);
    let (ni, no, xw, t): (i32, i32, i32, i32) = (
        m.n_in as i32,
        m.n_out as i32,
        m.xq_w as i32,
        m.t as i32,
    );
    let scratch = Cmd::Ensure { slot: Slot::Scratch, bytes: 4 };
    if tun.q4k_y {
        let rpt: usize = tun.y_rows();
        assert(m.t * m.n_out <= m.t * m.n_out * 4) by (nonlinear_arith);
        return vec![
            Cmd::Zero { dst: m.out, words: m.t * m.n_out },
            scratch,
            launch(
                Call::GemmQ4kY {
                    xq: m.x,
                    w: m.w,
                    part,
                    out: m.out,
                    n_in: ni,
                    n_out: no,
                    xq_w: xw,
                    t,
                    rpt: rpt as i32,
                },
                ceil_div(m.n_out, 256) as u32,
                ceil_div(m.t, rpt) as u32,
                1,
                256,
            ),
        ];
    }
    if tun.q4k_x {
        return vec![
            scratch,
            launch(
                Call::GemmQ4kX { xq: m.x, w: m.w, part, out: m.out, n_in: ni, n_out: no, xq_w: xw, t },
                ceil_div(m.n_out, 16) as u32,
                ceil_div(m.t, 16) as u32,
                1,
                256,
            ),
        ];
    }
    match tun.shape() {
        Some((outs, rows)) => vec![
            scratch,
            launch(
                Call::GemmQ4kG {
                    xq: m.x,
                    w: m.w,
                    part,
                    out: m.out,
                    n_in: ni,
                    n_out: no,
                    xq_w: xw,
                    t,
                    outs: outs as i32,
                    rows: rows as i32,
                },
                ceil_div(m.n_out, outs) as u32,
                ceil_div(m.t, rows) as u32,
                1,
                (outs * rows) as u32,
            ),
        ],
        None => vec![
            scratch,
            launch(
                Call::GemmQ4kM { xq: m.x, w: m.w, part, out: m.out, n_in: ni, n_out: no, xq_w: xw, t },
                ceil_div(m.n_out, 16) as u32,
                ceil_div(m.t, 16) as u32,
                1,
                256,
            ),
        ],
    }
}

fn q51_cmds(tun: &Tuning, m: MatMul) -> (r: Vec<Cmd>)
    requires
        m.fits(),
    ensures
        r@ == q51_program(*tun, m),
{
    let part = buf(Slot::Scratch);
    let (ni, no, xw, t): (i32, i32, i32, i32) = (
        m.n_in as i32,
        m.n_out as i32,
        m.xq_w as i32,
        m.t as i32,
    );
    let nblk: usize = ceil_div(m.n_out, 4);
    let run = if m.t >= 16 && !tun.q51_exact {
        Cmd::Launch(
            Launch {
                call: Call::GemmQ51M { xq: m.x, w: m.w, part, out: m.out, n_in: ni, n_out: no, xq_w: xw, t },
                gx: grid_y_of(ceil_div(m.n_out, 16)),
                gy: ceil_div(m.t, 16) as u32,
                gz: 1,
                block: 256,
                smem: (16 * (m.n_in / 32) * 24) as u32,
            },
        )
    } else {
        launch(
            Call::GemmQ51T { xq: m.x, w: m.w, part, out: m.out, n_in: ni, n_out: no, xq_w: xw, t },
            ceil_div(m.t, 16) as u32,
            grid_y_of(nblk),
            grid_z_of(nblk),
            256,
        )
    };
    vec![Cmd::Ensure { slot: Slot::Scratch, bytes: m.n_out * 64 * 8 }, run]
}

fn takes_all(ty: u32) -> (r: bool)
    ensures
        r == tile_takes_all(ty),
{
    matches!(ty, 8 | 12 | 13 | 14 | 23)
}

/// Rows before chunk `c` do not go past the batch.
proof fn lemma_chunk_start(t: int, c: int)
    requires
        t >= 0,
        0 <= c < spec_ceil_div(t, 128),
    ensures
        0 <= c * 128 < t,
{
    crate::arith::lemma_ceil_div(t, 128);
}

fn tile_cmds(m: MatMul) -> (r: Vec<Cmd>)
    requires
        m.fits(),
    ensures
        r@ == tile_program(m),
{
    let all = takes_all(m.ty);
    let n: usize = if all {
        1
    } else {
        ceil_div(m.t, TILE_ROWS)
    };
    let mut r: Vec<Cmd> = Vec::new();
    if n == 0 {
        return r;
    }
    let mut c: usize = 0;
    while c < n
        invariant
            m.fits(),
            all == tile_takes_all(m.ty),
            n == tile_count(m),
            c <= n,
            r@.len() == c,
            forall|d: int| 0 <= d < c ==> #[trigger] r@[d] == tile_program(m)[d],
        decreases n - c,
    {
        let ghost t0 = c * 128;
        proof {
            if !all {
                lemma_chunk_start(m.t as int, c as int);
            }
            assert(t0 * m.xq_w * 4 <= m.t * m.xq_w * 4) by (nonlinear_arith)
                requires
                    0 <= t0 <= m.t,
            ;
            assert(t0 * m.n_out * 4 <= m.t * m.n_out * 4) by (nonlinear_arith)
                requires
                    0 <= t0 <= m.t,
            ;
            assert(0 <= t0 * m.xq_w <= t0 * m.xq_w * 4 && 0 <= t0 * m.n_out <= t0 * m.n_out * 4)
                by (nonlinear_arith)
                requires
                    0 <= t0,
            ;
        }
        let t0: usize = c * TILE_ROWS;
        let call = MatMul {
            ty: m.ty,
            x: m.x.at(t0 * m.xq_w * 4),
            w: m.w,
            n_in: m.n_in,
            n_out: m.n_out,
            xq_w: m.xq_w,
            t: if all {
                m.t
            } else {
                min_usize(TILE_ROWS, m.t - t0)
            },
            out: m.out.at(t0 * m.n_out * 4),
        };
        r.push(
            Cmd::Try {
                call: Attempt::Tile(call),
                on_ok: if c + 1 == n {
                    1
                } else {
                    0
                },
                on_err: n - 1 - c,
            },
        );
        c = c + 1;
    }
    r.push(Cmd::Gemv(m));
    r
}

/// Plans one product over activations that are already quantised.
pub fn launch_gemm(tun: &Tuning, m: MatMul) -> (r: Vec<Cmd>)
    requires
        tun.usable(),
        m.fits(),
    ensures
        r@ == gemm_program(*tun, m),
{
    if m.ty == 12 && m.t >= 16 && (tun.q4k_mmq || tun.q4k_outs) {
        return q4k_cmds(tun, m);
    }
    if m.ty == 7 {
        return q51_cmds(tun, m);
    }
    if (m.t >= 16 || tun.prefill_pin) && !tun.no_tile {
        return tile_cmds(m);
    }
    vec![Cmd::Gemv(m)]
}

/// The launch of one product over plain `f32` activations and weights.
pub open spec fn gemm_f32_launch(
    x: Ptr,
    w: Ptr,
    n_in: usize,
    n_out: usize,
    t: usize,
    out: Ptr,
) -> Cmd {
    let (ni, no) = (n_in as i32, n_out as i32);
    let warps = spec_ceil_div(n_out as int, 8) as u32;
    if t >= 16 {
        spec_launch(
            Call::GemmF32M { x, w, out, n_in: ni, n_out: no, stride: ni, t: t as i32 },
            spec_ceil_div(n_out as int, 16) as u32,
            spec_ceil_div(t as int, 16) as u32,
            1,
            256,
        )
    } else if t == 1 && n_in % 4 == 0 {
        spec_launch(Call::GemmF32W { x, w, out, n_in: ni, n_out: no }, warps, 1, 1, 256)
    } else if 2 <= t <= 8 && n_in % 4 == 0 {
        spec_launch(
            Call::GemmF32Mt { x, w, out, n_in: ni, n_out: no, t: t as i32 },
            warps,
            1,
            1,
            256,
        )
    } else {
        spec_launch(
            Call::GemmF32 { x, w, out, n_in: ni, n_out: no, stride: ni },
            t as u32,
            grid_y(n_out as int),
            grid_z(n_out as int),
            64,
        )
    }
}

/// Plans one product over plain `f32` activations and weights.
pub fn launch_gemm_f32(x: Ptr, w: Ptr, n_in: usize, n_out: usize, t: usize, out: Ptr) -> (r: Cmd)
    ensures
        r == gemm_f32_launch(x, w, n_in, n_out, t, out),
{
    let (ni, no): (i32, i32) = (n_in as i32, n_out as i32);
    if t >= 16 {
        return launch(
            Call::GemmF32M { x, w, out, n_in: ni, n_out: no, stride: ni, t: t as i32 },
            ceil_div(n_out, 16) as u32,
            ceil_div(t, 16) as u32,
            1,
            256,
        );
    }
    let warps: u32 = ceil_div(n_out, 8) as u32;
    if t == 1 && n_in % 4 == 0 {
        return launch(Call::GemmF32W { x, w, out, n_in: ni, n_out: no }, warps, 1, 1, 256);
    }
    if 2 <= t && t <= 8 && n_in % 4 == 0 {
        return launch(
            Call::GemmF32Mt { x, w, out, n_in: ni, n_out: no, t: t as i32 },
            warps,
            1,
            1,
            256,
        );
    }
    launch(
        Call::GemmF32 { x, w, out, n_in: ni, n_out: no, stride: ni },
        t as u32,
        grid_y_of(n_out),
        grid_z_of(n_out),
        64,
    )
}

/// One launch for two neighbouring q8_0 products over the same quantised row.
pub open spec fn q8_dual_launch(
    xq: Ptr,
    w1: Ptr,
    no1: usize,
    out1: Ptr,
    w2: Ptr,
    no2: usize,
    out2: Ptr,
    ni: usize,
) -> Cmd {
    spec_launch(
        Call::GemmQ8Dual {
            xq,
            w1,
            w2,
            out1,
            out2,
            n_in: ni as i32,
            n_out1: no1 as i32,
            n_out2: no2 as i32,
            xq_w: crate::ggml::spec_xq_words(ni as int) as i32,
        },
        1,
        grid_y(no1 + no2),
        grid_z(no1 + no2),
        64,
    )
}

pub fn gemm_q8_dual(
    xq: Ptr,
    w1: Ptr,
    no1: usize,
    out1: Ptr,
    w2: Ptr,
    no2: usize,
    out2: Ptr,
    ni: usize,
) -> (r: Cmd)
    requires
        no1 + no2 <= usize::MAX,
    ensures
        r == q8_dual_launch(xq, w1, no1, out1, w2, no2, out2, ni),
{
    launch(
        Call::GemmQ8Dual {
            xq,
            w1,
            w2,
            out1,
            out2,
            n_in: ni as i32,
            n_out1: no1 as i32,
            n_out2: no2 as i32,
            xq_w: crate::ggml::xq_words(ni) as i32,
        },
        1,
        grid_y_of(no1 + no2),
        grid_z_of(no1 + no2),
        64,
    )
}

/// One launch for two neighbouring `f32` products over the same row.
pub open spec fn f32_dual_launch(
    x: Ptr,
    w1: Ptr,
    no1: usize,
    out1: Ptr,
    w2: Ptr,
    no2: usize,
    out2: Ptr,
    ni: usize,
) -> Cmd {
    spec_launch(
        Call::GemmF32Dual {
            x,
            w1,
            out1,
            w2,
            out2,
            n_in: ni as i32,
            n_out1: no1 as i32,
            n_out2: no2 as i32,
        },
        spec_ceil_div(no1 + no2, 8) as u32,
        1,
        1,
        256,
    )
}

pub fn gemm_f32_dual(
    x: Ptr,
    w1: Ptr,
    no1: usize,
    out1: Ptr,
    w2: Ptr,
    no2: usize,
    out2: Ptr,
    ni: usize,
) -> (r: Cmd)
    requires
        no1 + no2 <= usize::MAX,
    ensures
        r == f32_dual_launch(x, w1, no1, out1, w2, no2, out2, ni),
{
    launch(
        Call::GemmF32Dual {
            x,
            w1,
            out1,
            w2,
            out2,
            n_in: ni as i32,
            n_out1: no1 as i32,
            n_out2: no2 as i32,
        },
        ceil_div(no1 + no2, 8) as u32,
        1,
        1,
        256,
    )
}

/// One launch for a q8_0 product and the `f32` product behind it: one block per
/// q8_0 output, then one per eight `f32` outputs.
pub open spec fn mix_dual_launch(
    xq: Ptr,
    w8: Ptr,
    no8: usize,
    out8: Ptr,
    x: Ptr,
    w4: Ptr,
    no4: usize,
    out4: Ptr,
    ni: usize,
) -> Cmd {
    spec_launch(
        Call::GemmMixDual {
            xq,
            w8,
            out8,
            n_out8: no8 as i32,
            x,
            w4,
            out4,
            n_out4: no4 as i32,
            n_in: ni as i32,
            xq_w: crate::ggml::spec_xq_words(ni as int) as i32,
        },
        (no8 + spec_ceil_div(no4 as int, 8)) as u32,
        1,
        1,
        256,
    )
}

pub fn gemm_mix_dual(
    xq: Ptr,
    w8: Ptr,
    no8: usize,
    out8: Ptr,
    x: Ptr,
    w4: Ptr,
    no4: usize,
    out4: Ptr,
    ni: usize,
) -> (r: Cmd)
    requires
        no8 + no4 <= usize::MAX,
    ensures
        r == mix_dual_launch(xq, w8, no8, out8, x, w4, no4, out4, ni),
{
    launch(
        Call::GemmMixDual {
            xq,
            w8,
            out8,
            n_out8: no8 as i32,
            x,
            w4,
            out4,
            n_out4: no4 as i32,
            n_in: ni as i32,
            xq_w: crate::ggml::xq_words(ni) as i32,
        },
        (no8 + ceil_div(no4, 8)) as u32,
        1,
        1,
        256,
    )
}

} // verus!
