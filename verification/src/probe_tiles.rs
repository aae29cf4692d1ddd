//! Checks and benchmarks of the tile kernels, and of the cost of a launch.

use vstd::prelude::*;
use crate::arith::{ceil_div, max_usize, min_usize, spec_ceil_div};
use crate::checks::{
    pbuf, pget, proom, pput, spec_pbuf, spec_pget, spec_proom, spec_pput, EPS_6,
};
use crate::device::{launch, spec_launch, Cmd};
use crate::error::ProbeError;
use crate::families::{FlashKernel, TileKernel};
use crate::gemm::GRID_Y;
use crate::ggml::{spec_xq_words, xq_words, GgmlType};
use crate::kernels::Call;
use crate::probe_gemm::{Bench, Timed, LUT_BYTES};

verus! {

/// Tokens of the cache check: between 1 and 64.
pub open spec fn wc_tokens(t: int) -> int {
    vstd::math::min(vstd::math::max(t, 1), 64)
}

/// Why a tensor cannot be checked.
pub open spec fn wc_error(ty: GgmlType, n_in: usize) -> Option<ProbeError> {
    if ty != GgmlType::Q5K && ty != GgmlType::Iq4Xs {
        Some(ProbeError::Type { ty })
    } else if n_in % 256 != 0 {
        Some(ProbeError::RowLength { n_in })
    } else {
        None
    }
}

/// Words per quantised row without half sums.
pub open spec fn short_words(n_in: int) -> int {
    n_in / 4 + n_in / 32
}

/// Quantises the first `t` rows of buffer 3 into buffer 4, one by one.
pub open spec fn wc_quant(n_in: usize, t: int) -> Seq<Cmd> {
    Seq::new(
        t as nat,
        |i: int|
            Cmd::QuantRow {
                x: spec_pbuf(3).spec_at(i * n_in * 4),
                xq: spec_pbuf(4).spec_at(i * short_words(n_in as int) * 4),
                n_in,
            },
    )
}

/// The kernel that dequantises inline: q5_K, or iq4_xs with its lookup table.
pub open spec fn wc_inline(xs: bool, n_in: usize, n_out: usize, t: int) -> Cmd {
    let (xq, w, out) = (spec_pbuf(4), spec_pbuf(0), spec_pbuf(5));
    let (ni, no, xq_w, tt) = (
        n_in as i32,
        n_out as i32,
        short_words(n_in as int) as i32,
        t as i32,
    );
    spec_launch(
        if xs {
            Call::TileGemmLut {
                kern: TileKernel::XsWm,
                xq,
                w,
                out,
                lut: spec_pbuf(2),
                n_in: ni,
                n_out: no,
                xq_w,
                t: tt,
            }
        } else {
            Call::TileGemm { kern: TileKernel::Q5kWm, xq, w, out, n_in: ni, n_out: no, xq_w, t: tt }
        },
        spec_ceil_div(n_out as int, 64) as u32,
        1,
        1,
        256,
    )
}

/// The kernel that reads the half-precision copy.
pub open spec fn wc_cached(xs: bool, n_in: usize, n_out: usize, t: int) -> Cmd {
    spec_launch(
        Call::TileGemm {
            kern: if xs {
                TileKernel::XsWc
            } else {
                TileKernel::Q5kWc
            },
            xq: spec_pbuf(4),
            w: spec_pbuf(1),
            out: spec_pbuf(6),
            n_in: n_in as i32,
            n_out: n_out as i32,
            xq_w: short_words(n_in as int) as i32,
            t: t as i32,
        },
        spec_ceil_div(n_out as int, 64) as u32,
        1,
        1,
        256,
    )
}

/// Room for the weights and their half-precision copy, and the lookup table where
/// the type has one.
pub open spec fn wc_rooms(xs: bool, n_in: usize, n_out: usize, w_len: int) -> Seq<Cmd> {
    seq![
        spec_proom(0, w_len),
        spec_pput(0, w_len),
        spec_proom(1, n_out * n_in * 2),
    ] + if xs {
        seq![spec_proom(2, 1024), spec_pput(2, 1024)]
    } else {
        Seq::empty()
    }
}

/// The weights, their half-precision copy, and the launch that fills it.
pub open spec fn wc_weights(xs: bool, n_in: usize, n_out: usize, w_len: int) -> Seq<Cmd> {
    let (ni, no) = (n_in as i32, n_out as i32);
    wc_rooms(xs, n_in, n_out, w_len) + seq![
        spec_launch(
            if xs {
                Call::DequantXs {
                    w: spec_pbuf(0),
                    lut: spec_pbuf(2),
                    out: spec_pbuf(1),
                    n_in: ni,
                    n_out: no,
                }
            } else {
                Call::DequantQ5k { w: spec_pbuf(0), out: spec_pbuf(1), n_in: ni, n_out: no }
            },
            n_out as u32,
            1,
            1,
            256,
        ),
    ]
}

/// The debug kernel on the half-precision copy, and the first 256 values that it
/// wrote.
pub open spec fn wc_debug_program(xs: bool, n_in: usize, n_out: usize, w_len: int) -> Seq<Cmd> {
    wc_rooms(xs, n_in, n_out, w_len) + seq![
        spec_launch(
            Call::DequantXsDebug { out: spec_pbuf(1), n_in: n_in as i32, n_out: n_out as i32 },
            n_out as u32,
            1,
            1,
            256,
        ),
        Cmd::Sync,
        spec_pget(1, 512),
    ]
}

/// The program of the cache check.
pub open spec fn wc_program(xs: bool, n_in: usize, n_out: usize, w_len: int, t: int) -> Seq<Cmd> {
    wc_weights(xs, n_in, n_out, w_len) + seq![
        spec_proom(3, t * n_in * 4),
        spec_pput(3, t * n_in * 4),
        spec_proom(4, t * short_words(n_in as int) * 4),
    ] + wc_quant(n_in, t) + seq![
        spec_proom(5, t * n_out * 4),
        spec_proom(6, t * n_out * 4),
        wc_inline(xs, n_in, n_out, t),
        wc_cached(xs, n_in, n_out, t),
        Cmd::Sync,
        spec_pget(5, t * n_out * 4),
        spec_pget(6, t * n_out * 4),
    ]
}

fn wc_quant_cmds(n_in: usize, t: usize) -> (r: Vec<Cmd>)
    requires
        t * n_in * 4 <= usize::MAX,
    ensures
        r@ == wc_quant(n_in, t as int),
{
    let xq_w: usize = n_in / 4 + n_in / 32;
    let mut r: Vec<Cmd> = Vec::new();
    let mut i: usize = 0;
    while i < t
        invariant
            t * n_in * 4 <= usize::MAX,
            xq_w == short_words(n_in as int),
            i <= t,
            r@ == wc_quant(n_in, t as int).take(i as int),
        decreases t - i,
    {
        proof {
            assert(0 <= i * n_in <= i * n_in * 4 <= t * n_in * 4) by (nonlinear_arith)
                requires
                    0 <= i <= t,
                    0 <= n_in,
            ;
            assert(0 <= i * xq_w <= i * xq_w * 4 <= i * n_in * 4) by (nonlinear_arith)
                requires
                    0 <= i,
                    0 <= xq_w <= n_in,
            ;
        }
        r.push(
            Cmd::QuantRow { x: pbuf(3).at(i * n_in * 4), xq: pbuf(4).at(i * xq_w * 4), n_in },
        );
        proof {
            assert(r@ =~= wc_quant(n_in, t as int).take(i + 1));
        }
        i = i + 1;
    }
    assert(wc_quant(n_in, t as int).take(t as int) =~= wc_quant(n_in, t as int));
    r
}

fn wc_room_cmds(xs: bool, n_in: usize, n_out: usize, w_len: usize) -> (r: Vec<Cmd>)
    requires
        n_out * n_in * 2 <= usize::MAX,
    ensures
        r@ == wc_rooms(xs, n_in, n_out, w_len as int),
{
    assert(0 <= n_out * n_in <= n_out * n_in * 2) by (nonlinear_arith)
        requires
            0 <= n_out,
            0 <= n_in,
    ;
    let mut r: Vec<Cmd> = vec![proom(0, w_len), pput(0, w_len), proom(1, n_out * n_in * 2)];
    if xs {
        r.push(proom(2, LUT_BYTES));
        r.push(pput(2, LUT_BYTES));
    }
    assert(r@ =~= wc_rooms(xs, n_in, n_out, w_len as int));
    r
}

fn wc_weight_cmds(xs: bool, n_in: usize, n_out: usize, w_len: usize) -> (r: Vec<Cmd>)
    requires
        n_out * n_in * 2 <= usize::MAX,
    ensures
        r@ == wc_weights(xs, n_in, n_out, w_len as int),
{
    let (ni, no): (i32, i32) = (n_in as i32, n_out as i32);
    let mut r = wc_room_cmds(xs, n_in, n_out, w_len);
    let call = if xs {
        Call::DequantXs { w: pbuf(0), lut: pbuf(2), out: pbuf(1), n_in: ni, n_out: no }
    } else {
        Call::DequantQ5k { w: pbuf(0), out: pbuf(1), n_in: ni, n_out: no }
    };
    r.push(launch(call, n_out as u32, 1, 1, 256));
    assert(r@ =~= wc_weights(xs, n_in, n_out, w_len as int));
    r
}

/// Runs the debug kernel in place of the check: it writes counting values, which
/// shows whether a kernel reaches the half-precision copy at all.
pub fn wc_debug(ty: GgmlType, n_in: usize, n_out: usize, w_len: usize) -> (r: Result<
    Vec<Cmd>,
    ProbeError,
>)
    requires
        n_out * n_in * 2 <= usize::MAX,
    ensures
        match wc_error(ty, n_in) {
            Some(e) => r == Err::<Vec<Cmd>, ProbeError>(e),
            None => r matches Ok(c) && c@ == wc_debug_program(
                ty == GgmlType::Iq4Xs,
                n_in,
                n_out,
                w_len as int,
            ),
        },
{
    let xs = matches!(ty, GgmlType::Iq4Xs);
    if !matches!(ty, GgmlType::Q5K) && !xs {
        return Err(ProbeError::Type { ty });
    }
    if n_in % 256 != 0 {
        return Err(ProbeError::RowLength { n_in });
    }
    let mut r = wc_room_cmds(xs, n_in, n_out, w_len);
    r.push(
        launch(
            Call::DequantXsDebug { out: pbuf(1), n_in: n_in as i32, n_out: n_out as i32 },
            n_out as u32,
            1,
            1,
            256,
        ),
    );
    r.push(Cmd::Sync);
    r.push(pget(1, 512));
    assert(r@ =~= wc_debug_program(xs, n_in, n_out, w_len as int));
    Ok(r)
}

/// Holds the product over a half-precision copy of the weights against the one
/// that dequantises inline, and times both. Buffers: weights, copy, lookup table,
/// activations (draws of the digit seed), quantised activations and the two
/// results.
pub fn wc_check(ty: GgmlType, n_in: usize, n_out: usize, w_len: usize, t: usize) -> (r: Result<
    Bench,
    ProbeError,
>)
    requires
        n_out * n_in * 2 <= usize::MAX,
        64 * n_in * 4 <= usize::MAX,
        64 * n_out * 4 <= usize::MAX,
    ensures
        match wc_error(ty, n_in) {
            Some(e) => r == Err::<Bench, ProbeError>(e),
            None => {
                let xs = ty == GgmlType::Iq4Xs;
                let tt = wc_tokens(t as int);
                r matches Ok(b) && {
                    &&& b.setup@ == wc_program(xs, n_in, n_out, w_len as int, tt)
                    &&& b.timed@ == seq![
                        Timed {
                            warmup: 0,
                            reps: 20,
                            must: true,
                            cmd: wc_inline(xs, n_in, n_out, tt),
                        },
                        Timed {
                            warmup: 0,
                            reps: 20,
                            must: true,
                            cmd: wc_cached(xs, n_in, n_out, tt),
                        },
                    ]
                    &&& b.read@.len() == 0
                }
            },
        },
{
    let xs = matches!(ty, GgmlType::Iq4Xs);
    if !matches!(ty, GgmlType::Q5K) && !xs {
        return Err(ProbeError::Type { ty });
    }
    if n_in % 256 != 0 {
        return Err(ProbeError::RowLength { n_in });
    }
    let tt: usize = min_usize(max_usize(t, 1), 64);
    let xq_w: usize = n_in / 4 + n_in / 32;
    proof {
        assert(0 <= tt * n_in <= tt * n_in * 4 <= 64 * n_in * 4) by (nonlinear_arith)
            requires
                0 <= tt <= 64,
                0 <= n_in,
        ;
        assert(0 <= tt * n_out <= tt * n_out * 4 <= 64 * n_out * 4) by (nonlinear_arith)
            requires
                0 <= tt <= 64,
                0 <= n_out,
        ;
        assert(0 <= tt * xq_w <= tt * xq_w * 4 <= tt * n_in * 4) by (nonlinear_arith)
            requires
                0 <= tt,
                0 <= xq_w <= n_in,
        ;
    }
    let gx: u32 = ceil_div(n_out, 64) as u32;
    let (ni, no, xw, t32): (i32, i32, i32, i32) = (
        n_in as i32,
        n_out as i32,
        xq_w as i32,
        tt as i32,
    );
    let inline = launch(
        if xs {
            Call::TileGemmLut {
                kern: TileKernel::XsWm,
                xq: pbuf(4),
                w: pbuf(0),
                out: pbuf(5),
                lut: pbuf(2),
                n_in: ni,
                n_out: no,
                xq_w: xw,
                t: t32,
            }
        } else {
            Call::TileGemm {
                kern: TileKernel::Q5kWm,
                xq: pbuf(4),
                w: pbuf(0),
                out: pbuf(5),
                n_in: ni,
                n_out: no,
                xq_w: xw,
                t: t32,
            }
        },
        gx,
        1,
        1,
        256,
    );
    let cached = launch(
        Call::TileGemm {
            kern: if xs {
                TileKernel::XsWc
            } else {
                TileKernel::Q5kWc
            },
            xq: pbuf(4),
            w: pbuf(1),
            out: pbuf(6),
            n_in: ni,
            n_out: no,
            xq_w: xw,
            t: t32,
        },
        gx,
        1,
        1,
        256,
    );
    let mut setup = wc_weight_cmds(xs, n_in, n_out, w_len);
    let ghost s0 = setup@;
    setup.push(proom(3, tt * n_in * 4));
    setup.push(pput(3, tt * n_in * 4));
    setup.push(proom(4, tt * xq_w * 4));
    let mut q = wc_quant_cmds(n_in, tt);
    let ghost qs = q@;
    setup.append(&mut q);
    setup.push(proom(5, tt * n_out * 4));
    setup.push(proom(6, tt * n_out * 4));
    setup.push(inline);
    setup.push(cached);
    setup.push(Cmd::Sync);
    setup.push(pget(5, tt * n_out * 4));
    setup.push(pget(6, tt * n_out * 4));
    assert(setup@ =~= wc_program(xs, n_in, n_out, w_len as int, tt as int));
    let timed: Vec<Timed> = vec![
        Timed { warmup: 0, reps: 20, must: true, cmd: inline },
        Timed { warmup: 0, reps: 20, must: true, cmd: cached },
    ];
    Ok(Bench { setup, timed, read: Vec::new() })
}

/// A sample of an iq4_xs super block: the block scale as a half-precision
/// pattern, the scale of the sample's group, and the looked-up value.
#[derive(Clone, Copy, PartialEq, Eq, Structural, Debug)]
pub struct XsSample {
    pub d: u16,
    pub scale: i32,
    pub value: i32,
}

/// The six-bit scale of group `g`: four bits from a nibble, two from the upper
/// half of the first word.
pub open spec fn xs_scale(w: Seq<u8>, g: int) -> int {
    let nibble = if g % 2 == 0 {
        w[4 + g / 2] % 16
    } else {
        w[4 + g / 2] / 16
    };
    let upper = (w[2] + 256 * w[3]) / four_to(g) % 4;
    nibble + 16 * upper
}

/// Powers of four.
pub open spec fn four_to(g: int) -> int
    decreases g,
{
    if g <= 0 {
        1
    } else {
        4 * four_to(g - 1)
    }
}

/// The value at place `4 g` of group `g`: looked up by a byte, the low value of
/// the entry for the first half of a group, the high one for the second.
pub open spec fn xs_value(w: Seq<u8>, lut: Seq<u32>, g: int) -> int {
    let k = 4 * g;
    let entry = lut[w[8 + 16 * g + k % 16 / 4 * 4] as int];
    let b = if k < 16 {
        entry % 256
    } else {
        entry / 256 % 256
    };
    if b >= 128 {
        b - 256
    } else {
        b as int
    }
}

/// Decodes the first of four samples of group `g` of a super block.
pub fn xs_sample(w: &[u8], lut: &[u32], g: usize) -> (r: XsSample)
    requires
        w@.len() >= 136,
        lut@.len() == 256,
        g < 8,
    ensures
        r.d == w@[0] + 256 * w@[1],
        r.scale == xs_scale(w@, g as int) - 32,
        r.value == xs_value(w@, lut@, g as int),
{
    let d: u16 = w[0] as u16 + 256 * w[1] as u16;
    let b: u8 = w[4 + g / 2];
    let nibble: u8 = if g % 2 == 0 {
        b % 16
    } else {
        b / 16
    };
    let mut upper: u32 = w[2] as u32 + 256 * w[3] as u32;
    let mut i: usize = 0;
    let ghost start = upper as int;
    proof {
        vstd::arithmetic::div_mod::lemma_div_basics(start);
    }
    while i < g
        invariant
            i <= g,
            g < 8,
            start >= 0,
            upper == start / four_to(i as int),
            four_to(i as int) > 0,
        decreases g - i,
    {
        proof {
            vstd::arithmetic::div_mod::lemma_div_denominator(start, four_to(i as int), 4);
            assert(four_to(i as int) * 4 == four_to(i + 1));
        }
        upper = upper / 4;
        i = i + 1;
    }
    let ls: i32 = nibble as i32 + 16 * (upper % 4) as i32;
    let k: usize = 4 * g;
    let entry: u32 = lut[w[8 + 16 * g + k % 16 / 4 * 4] as usize];
    let v: u32 = if k < 16 {
        entry % 256
    } else {
        entry / 256 % 256
    };
    let value: i32 = if v >= 128 {
        v as i32 - 256
    } else {
        v as i32
    };
    XsSample { d, scale: ls - 32, value }
}

/// The families of kernels that a driver may have loaded.
#[derive(Clone, Copy, PartialEq, Eq, Structural, Debug)]
pub struct Loaded {
    pub v4: bool,
    pub j128: bool,
    pub odd: bool,
    /// Exact kernels are asked for.
    pub exact: bool,
}

/// Whether a type has a kernel for more than 64 rows.
pub open spec fn spec_big_ok(ty: GgmlType, l: Loaded) -> bool {
    match ty {
        GgmlType::Q5K => l.v4 || l.j128,
        GgmlType::Q4K => l.v4 || l.j128,
        GgmlType::Iq4Xs => l.v4 || l.j128,
        GgmlType::Q6K => l.j128,
        GgmlType::Q8_0 => l.j128,
        GgmlType::Iq4Nl => l.odd,
        GgmlType::Q3K => l.odd,
        GgmlType::Iq3S => l.odd,
        _ => true,
    }
}

/// The kernel that a type is measured with.
pub open spec fn spec_tile_kernel(ty: GgmlType, l: Loaded) -> Result<TileKernel, ProbeError> {
    match ty {
        GgmlType::Q5K => Ok(
            if l.v4 {
                TileKernel::Q5kV4
            } else if l.j128 {
                TileKernel::Q5kJ128
            } else if !l.exact {
                TileKernel::Q5kWm
            } else {
                TileKernel::Q5kMm
            },
        ),
        GgmlType::Q4K => Ok(
            if l.v4 {
                TileKernel::Q4kV4
            } else if l.j128 {
                TileKernel::Q4kJ128
            } else if !l.exact {
                TileKernel::Q4kWm
            } else {
                TileKernel::Q4kMm
            },
        ),
        GgmlType::Q6K => Ok(
            if l.j128 {
                TileKernel::Q6kJ128
            } else if !l.exact {
                TileKernel::Q6kWm
            } else {
                TileKernel::Q6kMm
            },
        ),
        GgmlType::Q8_0 => if l.j128 {
            Ok(TileKernel::Q8J128)
        } else {
            Err(ProbeError::Kernels { ty })
        },
        GgmlType::Iq4Xs => Ok(
            if l.v4 {
                TileKernel::XsV4
            } else if l.j128 {
                TileKernel::XsJ128
            } else if !l.exact {
                TileKernel::XsWm
            } else {
                TileKernel::XsMm
            },
        ),
        GgmlType::Iq4Nl => if l.odd {
            Ok(TileKernel::NlV4)
        } else {
            Err(ProbeError::Kernels { ty })
        },
        GgmlType::Q3K => if l.odd {
            Ok(TileKernel::Q3kV4)
        } else {
            Err(ProbeError::Kernels { ty })
        },
        GgmlType::Iq3S => if l.odd {
            Ok(TileKernel::Iq3sV4)
        } else {
            Err(ProbeError::Kernels { ty })
        },
        _ => Ok(TileKernel::XsMm),
    }
}

/// The kernel takes the lookup table.
pub open spec fn spec_takes_lut(k: TileKernel) -> bool {
    k == TileKernel::XsMm || k == TileKernel::XsWm || k == TileKernel::XsJ128 || k
        == TileKernel::XsV4 || k == TileKernel::NlV4
}

/// Output rows per block: 128 for quadrant tiles, else 64.
pub open spec fn spec_rows_per_block(k: TileKernel) -> int {
    match k {
        TileKernel::Q5kV4 => 128,
        TileKernel::Q5kJ128 => 128,
        TileKernel::Q4kV4 => 128,
        TileKernel::Q4kJ128 => 128,
        TileKernel::Q6kJ128 => 128,
        TileKernel::Q8J128 => 128,
        TileKernel::XsV4 => 128,
        TileKernel::XsJ128 => 128,
        TileKernel::NlV4 => 128,
        TileKernel::Q3kV4 => 128,
        TileKernel::Iq3sV4 => 128,
        TileKernel::F16V4 => 128,
        _ => 64,
    }
}

fn rows_per_block(k: TileKernel) -> (r: usize)
    ensures
        r == spec_rows_per_block(k),
{
    match k {
        TileKernel::Q5kV4 => 128,
        TileKernel::Q5kJ128 => 128,
        TileKernel::Q4kV4 => 128,
        TileKernel::Q4kJ128 => 128,
        TileKernel::Q6kJ128 => 128,
        TileKernel::Q8J128 => 128,
        TileKernel::XsV4 => 128,
        TileKernel::XsJ128 => 128,
        TileKernel::NlV4 => 128,
        TileKernel::Q3kV4 => 128,
        TileKernel::Iq3sV4 => 128,
        TileKernel::F16V4 => 128,
        _ => 64,
    }
}

/// The result of a kernel is compared bit by bit; that of a quadrant or warp tile
/// within a tolerance.
pub open spec fn spec_exact(k: TileKernel) -> bool {
    !(spec_rows_per_block(k) == 128 || k == TileKernel::Q5kWm || k == TileKernel::Q4kWm || k
        == TileKernel::Q6kWm || k == TileKernel::XsWm)
}

/// Whether a kernel's result is compared bit by bit.
pub fn is_exact(k: TileKernel) -> (r: bool)
    ensures
        r == spec_exact(k),
{
    !(rows_per_block(k) == 128 || matches!(
        k,
        TileKernel::Q5kWm | TileKernel::Q4kWm | TileKernel::Q6kWm | TileKernel::XsWm
    ))
}

fn tile_kernel(ty: GgmlType, l: Loaded) -> (r: Result<TileKernel, ProbeError>)
    ensures
        r == spec_tile_kernel(ty, l),
{
    match ty {
        GgmlType::Q5K => Ok(
            if l.v4 {
                TileKernel::Q5kV4
            } else if l.j128 {
                TileKernel::Q5kJ128
            } else if !l.exact {
                TileKernel::Q5kWm
            } else {
                TileKernel::Q5kMm
            },
        ),
        GgmlType::Q4K => Ok(
            if l.v4 {
                TileKernel::Q4kV4
            } else if l.j128 {
                TileKernel::Q4kJ128
            } else if !l.exact {
                TileKernel::Q4kWm
            } else {
                TileKernel::Q4kMm
            },
        ),
        GgmlType::Q6K => Ok(
            if l.j128 {
                TileKernel::Q6kJ128
            } else if !l.exact {
                TileKernel::Q6kWm
            } else {
                TileKernel::Q6kMm
            },
        ),
        GgmlType::Q8_0 => if l.j128 {
            Ok(TileKernel::Q8J128)
        } else {
            Err(ProbeError::Kernels { ty })
        },
        GgmlType::Iq4Xs => Ok(
            if l.v4 {
                TileKernel::XsV4
            } else if l.j128 {
                TileKernel::XsJ128
            } else if !l.exact {
                TileKernel::XsWm
            } else {
                TileKernel::XsMm
            },
        ),
        GgmlType::Iq4Nl => if l.odd {
            Ok(TileKernel::NlV4)
        } else {
            Err(ProbeError::Kernels { ty })
        },
        GgmlType::Q3K => if l.odd {
            Ok(TileKernel::Q3kV4)
        } else {
            Err(ProbeError::Kernels { ty })
        },
        GgmlType::Iq3S => if l.odd {
            Ok(TileKernel::Iq3sV4)
        } else {
            Err(ProbeError::Kernels { ty })
        },
        _ => Ok(TileKernel::XsMm),
    }
}

fn big_ok(ty: GgmlType, l: Loaded) -> (r: bool)
    ensures
        r == spec_big_ok(ty, l),
{
    match ty {
        GgmlType::Q5K => l.v4 || l.j128,
        GgmlType::Q4K => l.v4 || l.j128,
        GgmlType::Iq4Xs => l.v4 || l.j128,
        GgmlType::Q6K => l.j128,
        GgmlType::Q8_0 => l.j128,
        GgmlType::Iq4Nl => l.odd,
        GgmlType::Q3K => l.odd,
        GgmlType::Iq3S => l.odd,
        _ => true,
    }
}

/// The bare call of a tile kernel over the buffers of the benchmark.
pub open spec fn mm_call(k: TileKernel, n_in: usize, n_out: usize, t: usize) -> Call {
    Call::TileGemm {
        kern: k,
        xq: spec_pbuf(2),
        w: spec_pbuf(0),
        out: spec_pbuf(3),
        n_in: n_in as i32,
        n_out: n_out as i32,
        xq_w: spec_xq_words(n_in as int) as i32,
        t: t as i32,
    }
}

/// The launch of a tile kernel, with the lookup table where it takes one.
pub open spec fn mm_launch(k: TileKernel, n_in: usize, n_out: usize, t: usize) -> Cmd {
    let call = if spec_takes_lut(k) {
        Call::TileGemmLut {
            kern: k,
            xq: spec_pbuf(2),
            w: spec_pbuf(0),
            out: spec_pbuf(3),
            lut: spec_pbuf(1),
            n_in: n_in as i32,
            n_out: n_out as i32,
            xq_w: spec_xq_words(n_in as int) as i32,
            t: t as i32,
        }
    } else {
        mm_call(k, n_in, n_out, t)
    };
    spec_launch(
        call,
        vstd::math::min(
            spec_ceil_div(n_out as int, spec_rows_per_block(k)),
            GRID_Y as int,
        ) as u32,
        1,
        spec_ceil_div(spec_ceil_div(n_out as int, 64), GRID_Y as int) as u32,
        256,
    )
}

/// A benchmark with the kernel that it measures.
pub struct MmBench {
    pub kern: TileKernel,
    pub bench: Bench,
}

/// Checks and times the tile kernel of a type over `t` rows of `words` packed
/// words in all, and the bare cost of its launch. Buffers: weights, lookup table,
/// packed activations, results.
pub fn mm_bench(
    ty: GgmlType,
    loaded: Loaded,
    n_in: usize,
    n_out: usize,
    w_len: usize,
    t: usize,
    words: usize,
) -> (r: Result<MmBench, ProbeError>)
    requires
        words * 4 <= usize::MAX,
        n_out * 4 <= usize::MAX,
        n_out * 4 * t <= usize::MAX,
    ensures
        if t > 64 && !spec_big_ok(ty, loaded) {
            r == Err::<MmBench, ProbeError>(ProbeError::Batch { t })
        } else {
            match spec_tile_kernel(ty, loaded) {
                Err(e) => r == Err::<MmBench, ProbeError>(e),
                Ok(k) => r matches Ok(m) && {
                    &&& m.kern == k
                    &&& m.bench.setup@ == seq![
                        spec_proom(0, w_len as int),
                        spec_pput(0, w_len as int),
                        spec_proom(1, 1024),
                        spec_pput(1, 1024),
                        spec_proom(2, words * 4),
                        spec_pput(2, words * 4),
                        spec_proom(3, n_out * 4 * t),
                        mm_launch(k, n_in, n_out, t),
                        Cmd::Sync,
                        spec_pget(3, n_out * 4 * t),
                    ]
                    &&& m.bench.timed@ == seq![
                        Timed {
                            warmup: 0,
                            reps: 20,
                            must: true,
                            cmd: mm_launch(k, n_in, n_out, t),
                        },
                        Timed {
                            warmup: 0,
                            reps: 100,
                            must: false,
                            cmd: spec_launch(mm_call(k, n_in, n_out, t), 1, 1, 1, 64),
                        },
                    ]
                    &&& m.bench.read@.len() == 0
                },
            }
        },
{
    if t > 64 && !big_ok(ty, loaded) {
        return Err(ProbeError::Batch { t });
    }
    let k = match tile_kernel(ty, loaded) {
        Ok(k) => k,
        Err(e) => {
            return Err(e);
        },
    };
    let (ni, no, xw, t32): (i32, i32, i32, i32) = (
        n_in as i32,
        n_out as i32,
        xq_words(n_in) as i32,
        t as i32,
    );
    let bare = Call::TileGemm {
        kern: k,
        xq: pbuf(2),
        w: pbuf(0),
        out: pbuf(3),
        n_in: ni,
        n_out: no,
        xq_w: xw,
        t: t32,
    };
    let call = if matches!(
        k,
        TileKernel::XsMm | TileKernel::XsWm | TileKernel::XsJ128 | TileKernel::XsV4
            | TileKernel::NlV4
    ) {
        Call::TileGemmLut {
            kern: k,
            xq: pbuf(2),
            w: pbuf(0),
            out: pbuf(3),
            lut: pbuf(1),
            n_in: ni,
            n_out: no,
            xq_w: xw,
            t: t32,
        }
    } else {
        bare
    };
    let run = launch(
        call,
        min_usize(ceil_div(n_out, rows_per_block(k)), GRID_Y) as u32,
        1,
        ceil_div(ceil_div(n_out, 64), GRID_Y) as u32,
        256,
    );
    let setup: Vec<Cmd> = vec![
        proom(0, w_len),
        pput(0, w_len),
        proom(1, LUT_BYTES),
        pput(1, LUT_BYTES),
        proom(2, words * 4),
        pput(2, words * 4),
        proom(3, n_out * 4 * t),
        run,
        Cmd::Sync,
        pget(3, n_out * 4 * t),
    ];
    let timed: Vec<Timed> = vec![
        Timed { warmup: 0, reps: 20, must: true, cmd: run },
        Timed { warmup: 0, reps: 100, must: false, cmd: launch(bare, 1, 1, 1, 64) },
    ];
    Ok(MmBench { kern: k, bench: Bench { setup, timed, read: Vec::new() } })
}

/// The sum of products of the first `n` of 32 signed weights and activations.
pub open spec fn dot(w: Seq<i8>, q: Seq<i8>, n: int) -> int
    decreases n,
{
    if n <= 0 {
        0
    } else {
        dot(w, q, n - 1) + w[n - 1] * q[n - 1]
    }
}

/// The exact integer dot product of a q8_0 block and a block of activations.
pub fn q8_dot(w: &[i8; 32], q: &[i8; 32]) -> (r: i64)
    ensures
        r == dot(w@, q@, 32),
{
    let mut s: i64 = 0;
    let mut n: usize = 0;
    while n < 32
        invariant
            n <= 32,
            s == dot(w@, q@, n as int),
            -16384 * n <= s <= 16384 * n,
        decreases 32 - n,
    {
        let (a, b): (i64, i64) = (w[n] as i64, q[n] as i64);
        assert(-16384 <= a * b <= 16384) by (nonlinear_arith)
            requires
                -128 <= a <= 127,
                -128 <= b <= 127,
        ;
        s = s + a * b;
        n = n + 1;
    }
    s
}

/// A launch of the row norm over `n` values with `threads` threads.
pub open spec fn rmsq_case(n: i32, threads: u32) -> Timed {
    Timed {
        warmup: 20,
        reps: 2000,
        must: false,
        cmd: spec_launch(
            Call::Rmsq { x: spec_pbuf(0), w: spec_pbuf(1), xq: spec_pbuf(2), eps: EPS_6, n },
            1,
            1,
            1,
            threads,
        ),
    }
}

/// A launch of the scaled addition over `n` values in `gx` blocks.
pub open spec fn axpy_case(n: i32, gx: u32) -> Timed {
    Timed {
        warmup: 20,
        reps: 2000,
        must: false,
        cmd: spec_launch(
            Call::AxpyScaled { y: spec_pbuf(3), x: spec_pbuf(4), s: spec_pbuf(5), n },
            gx,
            1,
            1,
            64,
        ),
    }
}

/// A launch of the gated norm with `gx` blocks of `threads` threads.
pub open spec fn gated_case(gx: u32, threads: u32) -> Timed {
    Timed {
        warmup: 20,
        reps: 2000,
        must: false,
        cmd: spec_launch(
            Call::Gatedq {
                o: spec_pbuf(6),
                z: spec_pbuf(7),
                w: spec_pbuf(8),
                xq: spec_pbuf(9),
                eps: EPS_6,
                d: 128,
                n_h: 32,
                n_tot: 4096,
            },
            gx,
            1,
            1,
            threads,
        ),
    }
}

/// A launch of the grouped attention with segments of `seg` positions.
pub open spec fn flash_case(seg: i32, gz: u32) -> Timed {
    Timed {
        warmup: 20,
        reps: 2000,
        must: false,
        cmd: spec_launch(
            Call::Flash {
                kern: FlashKernel::Gqa,
                q: spec_pbuf(10),
                k: spec_pbuf(11),
                v: spec_pbuf(12),
                mask: spec_pbuf(13),
                part: spec_pbuf(14),
                n_past: 128,
                n_head: 24,
                n_kv: 4,
                hd: 256,
                t: 1,
                stride: 4096,
                pos0: 0,
                seg,
            },
            1,
            4,
            gz,
            256,
        ),
    }
}

/// Bytes of the launch probe's buffers.
pub open spec fn launch_rooms() -> Seq<int> {
    seq![
        20480int,
        20480int,
        1824int,
        20480int,
        20480int,
        20480int,
        16384int,
        16384int,
        16384int,
        1472int,
        49152int,
        16777216int,
        16777216int,
        16384int,
        99072int,
        256int,
        256int,
        256int,
    ]
}

/// Measures what launches cost: small kernels of the decoder in several sizes,
/// and at last two hundred launches of a kernel that finishes at once.
pub fn launch_probe() -> (r: Bench)
    ensures
        r.setup@ == Seq::new(18, |i: int| spec_proom(i as usize, launch_rooms()[i])),
        r.timed@ == seq![
            rmsq_case(512, 160),
            rmsq_case(5120, 512),
            rmsq_case(20480, 640),
            axpy_case(64, 1),
            axpy_case(5120, 80),
            gated_case(1, 32),
            gated_case(8, 32),
            gated_case(32, 32),
            gated_case(32, 128),
            flash_case(4, 1),
            flash_case(8, 1),
            flash_case(32, 1),
            flash_case(32, 4),
            Timed {
                warmup: 10,
                reps: 0,
                must: true,
                cmd: spec_launch(
                    Call::AxpyScaled { y: spec_pbuf(16), x: spec_pbuf(15), s: spec_pbuf(17), n: 64 },
                    1,
                    1,
                    1,
                    64,
                ),
            },
            Timed {
                warmup: 0,
                reps: 200,
                must: true,
                cmd: spec_launch(
                    Call::GemmXsBare { y: spec_pbuf(16), x: spec_pbuf(15), s: spec_pbuf(17), n: 64 },
                    1,
                    1,
                    1,
                    64,
                ),
            },
        ],
        r.read@.len() == 0,
{
    let rooms: Vec<usize> = vec![
        20480, 20480, 1824, 20480, 20480, 20480, 16384, 16384, 16384, 1472, 49152, 16777216,
        16777216, 16384, 99072, 256, 256, 256,
    ];
    let mut setup: Vec<Cmd> = Vec::new();
    let mut i: usize = 0;
    while i < 18
        invariant
            i <= 18,
            rooms@.len() == 18,
            forall|k: int| 0 <= k < 18 ==> #[trigger] rooms@[k] == launch_rooms()[k],
            setup@.len() == i,
            forall|k: int|
                0 <= k < i ==> #[trigger] setup@[k] == spec_proom(k as usize, launch_rooms()[k]),
        decreases 18 - i,
    {
        setup.push(proom(i, rooms[i]));
        i = i + 1;
    }
    assert(setup@ =~= Seq::new(18, |i: int| spec_proom(i as usize, launch_rooms()[i])));
    let timed: Vec<Timed> = vec![
        rmsq_timed(512, 160),
        rmsq_timed(5120, 512),
        rmsq_timed(20480, 640),
        axpy_timed(64, 1),
        axpy_timed(5120, 80),
        gated_timed(1, 32),
        gated_timed(8, 32),
        gated_timed(32, 32),
        gated_timed(32, 128),
        flash_timed(4, 1),
        flash_timed(8, 1),
        flash_timed(32, 1),
        flash_timed(32, 4),
        Timed {
            warmup: 10,
            reps: 0,
            must: true,
            cmd: launch(
                Call::AxpyScaled { y: pbuf(16), x: pbuf(15), s: pbuf(17), n: 64 },
                1,
                1,
                1,
                64,
            ),
        },
        Timed {
            warmup: 0,
            reps: 200,
            must: true,
            cmd: launch(
                Call::GemmXsBare { y: pbuf(16), x: pbuf(15), s: pbuf(17), n: 64 },
                1,
                1,
                1,
                64,
            ),
        },
    ];
    Bench { setup, timed, read: Vec::new() }
}

fn small(cmd: Cmd) -> (r: Timed)
    ensures
        r == (Timed { warmup: 20, reps: 2000, must: false, cmd }),
{
    Timed { warmup: 20, reps: 2000, must: false, cmd }
}

fn rmsq_timed(n: i32, threads: u32) -> (r: Timed)
    ensures
        r == rmsq_case(n, threads),
{
    small(
        launch(
            Call::Rmsq { x: pbuf(0), w: pbuf(1), xq: pbuf(2), eps: EPS_6, n },
            1,
            1,
            1,
            threads,
        ),
    )
}

fn axpy_timed(n: i32, gx: u32) -> (r: Timed)
    ensures
        r == axpy_case(n, gx),
{
    small(launch(Call::AxpyScaled { y: pbuf(3), x: pbuf(4), s: pbuf(5), n }, gx, 1, 1, 64))
}

fn gated_timed(gx: u32, threads: u32) -> (r: Timed)
    ensures
        r == gated_case(gx, threads),
{
    small(
        launch(
            Call::Gatedq {
                o: pbuf(6),
                z: pbuf(7),
                w: pbuf(8),
                xq: pbuf(9),
                eps: EPS_6,
                d: 128,
                n_h: 32,
                n_tot: 4096,
            },
            gx,
            1,
            1,
            threads,
        ),
    )
}

fn flash_timed(seg: i32, gz: u32) -> (r: Timed)
    ensures
        r == flash_case(seg, gz),
{
    small(
        launch(
            Call::Flash {
                kern: FlashKernel::Gqa,
                q: pbuf(10),
                k: pbuf(11),
                v: pbuf(12),
                mask: pbuf(13),
                part: pbuf(14),
                n_past: 128,
                n_head: 24,
                n_kv: 4,
                hd: 256,
                t: 1,
                stride: 4096,
                pos0: 0,
                seg,
            },
            1,
            4,
            gz,
            256,
        ),
    )
}

} // verus!
