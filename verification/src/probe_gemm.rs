//! Benchmarks and checks of the matrix product kernels.

use vstd::prelude::*;
use crate::arith::{ceil_div, max_usize, min_usize, spec_ceil_div};
use crate::blocks::{q4k_blocks, q4k_byte, q4k_check_byte, q4k_check_rows};
use crate::checks::{
    pbuf, pget, proom, pput, spec_pbuf, spec_pget, spec_proom, spec_pput, token_draws, Mirror,
};
use crate::device::{launch, spec_launch, Attempt, Cmd, Host, MatMul, Ptr};
use crate::families::TileKernel;
use crate::gemm::{grid_y, grid_z, GRID_Y};
use crate::ggml::{ggml_id, spec_ggml_id, spec_xq_words, xq_words, GgmlType};
use crate::kernels::Call;
use crate::synth::draws_from;

verus! {

/// A command to time: `warmup` runs that do not count, then `reps` that do. Where
/// `must` is not set, a refused launch is not an error.
#[derive(Clone, Copy, PartialEq, Eq, Structural, Debug)]
pub struct Timed {
    pub warmup: usize,
    pub reps: usize,
    pub must: bool,
    pub cmd: Cmd,
}

/// A benchmark: buffers and inputs, the timed commands, and what is read back.
pub struct Bench {
    pub setup: Vec<Cmd>,
    pub timed: Vec<Timed>,
    pub read: Vec<Cmd>,
}

/// Bytes of the lookup table.
pub const LUT_BYTES: usize = 1024;

/// Seed of the q4_K benchmark.
pub const SEED_PI: u64 = 0x243F_6A88_85A3_08D3;

/// The row-wise product of `t` rows in buffer 3 with the weights in buffer 0.
pub open spec fn batch_gemv(ty: GgmlType, n_in: usize, n_out: usize, t: usize) -> Cmd {
    Cmd::Gemv(
        MatMul {
            ty: spec_ggml_id(ty),
            x: spec_pbuf(3),
            w: spec_pbuf(0),
            n_in,
            n_out,
            xq_w: spec_xq_words(n_in as int) as usize,
            t,
            out: spec_pbuf(4),
        },
    )
}

/// Compares the cost of 1, 8 and 64 rows. Buffers: weights, lookup table,
/// activations (draws of the short seed), quantised activations, results.
pub fn mm_batch_bench(ty: GgmlType, n_in: usize, n_out: usize, w_len: usize) -> (r: Bench)
    requires
        n_in * 256 <= usize::MAX,
        n_out * 256 <= usize::MAX,
    ensures
        r.setup@ == seq![
            spec_proom(0, w_len as int),
            spec_pput(0, w_len as int),
            spec_proom(1, 1024),
            spec_pput(1, 1024),
            spec_proom(2, n_in * 256),
            spec_pput(2, n_in * 256),
            spec_proom(3, spec_xq_words(n_in as int) * 256),
            Cmd::Quant {
                x: spec_pbuf(2),
                xq: spec_pbuf(3),
                n_in,
                xq_w: spec_xq_words(n_in as int) as usize,
                t: 64,
            },
            spec_proom(4, n_out * 256),
        ],
        r.timed@ == seq![
            Timed { warmup: 1, reps: 5, must: true, cmd: batch_gemv(ty, n_in, n_out, 1) },
            Timed { warmup: 1, reps: 5, must: true, cmd: batch_gemv(ty, n_in, n_out, 8) },
            Timed { warmup: 1, reps: 5, must: true, cmd: batch_gemv(ty, n_in, n_out, 64) },
        ],
        r.read@.len() == 0,
{
    let xq_w: usize = xq_words(n_in);
    let setup: Vec<Cmd> = vec![
        proom(0, w_len),
        pput(0, w_len),
        proom(1, LUT_BYTES),
        pput(1, LUT_BYTES),
        proom(2, n_in * 256),
        pput(2, n_in * 256),
        proom(3, xq_w * 256),
        Cmd::Quant { x: pbuf(2), xq: pbuf(3), n_in, xq_w, t: 64 },
        proom(4, n_out * 256),
    ];
    let m = MatMul {
        ty: ggml_id(ty),
        x: pbuf(3),
        w: pbuf(0),
        n_in,
        n_out,
        xq_w,
        t: 1,
        out: pbuf(4),
    };
    let timed: Vec<Timed> = vec![
        Timed { warmup: 1, reps: 5, must: true, cmd: Cmd::Gemv(m) },
        Timed { warmup: 1, reps: 5, must: true, cmd: Cmd::Gemv(MatMul { t: 8, ..m }) },
        Timed { warmup: 1, reps: 5, must: true, cmd: Cmd::Gemv(MatMul { t: 64, ..m }) },
    ];
    Bench { setup, timed, read: Vec::new() }
}

/// The host mirror of a tile kernel: q5_K, q4_K and q6_K have their own, all
/// others are read as iq4_xs.
pub open spec fn spec_tile_mirror(ty: GgmlType) -> Mirror {
    match ty {
        GgmlType::Q5K => Mirror::Q5k,
        GgmlType::Q4K => Mirror::Q4k,
        GgmlType::Q6K => Mirror::Q6k,
        _ => Mirror::Iq4Xs,
    }
}

pub fn tile_mirror(ty: GgmlType) -> (r: Mirror)
    ensures
        r == spec_tile_mirror(ty),
{
    match ty {
        GgmlType::Q5K => Mirror::Q5k,
        GgmlType::Q4K => Mirror::Q4k,
        GgmlType::Q6K => Mirror::Q6k,
        _ => Mirror::Iq4Xs,
    }
}

/// Checks and times the tile kernel over `t` rows of `words` packed words in all.
/// Buffers: weights, lookup table, packed activations, results.
pub fn mm_tile_bench(
    ty: GgmlType,
    n_in: usize,
    n_out: usize,
    w_len: usize,
    t: usize,
    words: usize,
) -> (r: Bench)
    requires
        words * 4 <= usize::MAX,
        n_out * 4 <= usize::MAX,
        n_out * 4 * t <= usize::MAX,
    ensures
        ({
            let call = Cmd::Must(
                Attempt::Tile(
                    MatMul {
                        ty: spec_ggml_id(ty),
                        x: spec_pbuf(2),
                        w: spec_pbuf(0),
                        n_in,
                        n_out,
                        xq_w: spec_xq_words(n_in as int) as usize,
                        t,
                        out: spec_pbuf(3),
                    },
                ),
            );
            &&& r.setup@ == seq![
                spec_proom(0, w_len as int),
                spec_pput(0, w_len as int),
                spec_proom(1, 1024),
                spec_pput(1, 1024),
                spec_proom(2, words * 4),
                spec_pput(2, words * 4),
                spec_proom(3, n_out * 4 * t),
                call,
                Cmd::Sync,
                spec_pget(3, n_out * 4 * t),
            ]
            &&& r.timed@ == seq![Timed { warmup: 0, reps: 10, must: true, cmd: call }]
            &&& r.read@.len() == 0
        }),
{
    let call = Cmd::Must(
        Attempt::Tile(
            MatMul {
                ty: ggml_id(ty),
                x: pbuf(2),
                w: pbuf(0),
                n_in,
                n_out,
                xq_w: xq_words(n_in),
                t,
                out: pbuf(3),
            },
        ),
    );
    let setup: Vec<Cmd> = vec![
        proom(0, w_len),
        pput(0, w_len),
        proom(1, LUT_BYTES),
        pput(1, LUT_BYTES),
        proom(2, words * 4),
        pput(2, words * 4),
        proom(3, n_out * 4 * t),
        call,
        Cmd::Sync,
        pget(3, n_out * 4 * t),
    ];
    Bench { setup, timed: vec![Timed { warmup: 0, reps: 10, must: true, cmd: call }], read: Vec::new() }
}

/// Where a checked value stands: token and output.
#[derive(Clone, Copy, PartialEq, Eq, Structural, Debug)]
pub struct Place {
    pub token: usize,
    pub output: usize,
}

/// Mismatches between a host mirror and a device result, and the first of them.
#[derive(Clone, Copy, PartialEq, Eq, Structural, Debug)]
pub struct Mismatch {
    pub count: usize,
    pub first: Option<Place>,
}

/// Output rows that a tile check covers.
pub open spec fn checked_rows(n_out: int) -> int {
    vstd::math::min(n_out, 256)
}

/// The mirror differs from the result at checked place `i`.
pub open spec fn differs_at(cpu: Seq<u32>, gpu: Seq<u32>, n_out: int, i: int) -> bool {
    let m = checked_rows(n_out);
    cpu[i] != gpu[i / m * n_out + i % m]
}

/// Mismatches among the first `n` checked places.
pub open spec fn mismatch_count(cpu: Seq<u32>, gpu: Seq<u32>, n_out: int, n: int) -> int
    decreases n,
{
    if n <= 0 {
        0
    } else {
        mismatch_count(cpu, gpu, n_out, n - 1) + if differs_at(cpu, gpu, n_out, n - 1) {
            1int
        } else {
            0int
        }
    }
}

/// Compares the mirror of the first 256 outputs of each token with the results.
pub fn tile_mismatches(cpu: &Vec<u32>, gpu: &Vec<u32>, t: usize, n_out: usize) -> (r: Mismatch)
    requires
        cpu@.len() == t * checked_rows(n_out as int),
        gpu@.len() == t * n_out,
    ensures
        r.count == mismatch_count(cpu@, gpu@, n_out as int, cpu@.len() as int),
        match r.first {
            None => forall|i: int|
                0 <= i < cpu@.len() ==> !differs_at(cpu@, gpu@, n_out as int, i),
            Some(p) => {
                let m = checked_rows(n_out as int);
                let i = p.token * m + p.output;
                &&& p.output < m
                &&& 0 <= i < cpu@.len()
                &&& differs_at(cpu@, gpu@, n_out as int, i)
                &&& forall|j: int| 0 <= j < i ==> !differs_at(cpu@, gpu@, n_out as int, j)
            },
        },
{
    let m: usize = min_usize(n_out, 256);
    let n: usize = cpu.len();
    let glen: usize = gpu.len();
    let mut count: usize = 0;
    let mut first: Option<Place> = None;
    let mut i: usize = 0;
    while i < n
        invariant
            m == checked_rows(n_out as int),
            n == cpu@.len(),
            n == t * m,
            glen == gpu@.len(),
            glen == t * n_out,
            i <= n,
            count == mismatch_count(cpu@, gpu@, n_out as int, i as int),
            count <= i,
            match first {
                None => forall|j: int|
                    0 <= j < i ==> !differs_at(cpu@, gpu@, n_out as int, j),
                Some(p) => {
                    let k = p.token * m + p.output;
                    &&& p.output < m
                    &&& 0 <= k < i
                    &&& differs_at(cpu@, gpu@, n_out as int, k)
                    &&& forall|j: int| 0 <= j < k ==> !differs_at(cpu@, gpu@, n_out as int, j)
                },
            },
        decreases n - i,
    {
        proof {
            assert(m > 0) by (nonlinear_arith)
                requires
                    i < t * m,
                    i >= 0,
                    m >= 0,
            ;
            vstd::arithmetic::div_mod::lemma_fundamental_div_mod(i as int, m as int);
            vstd::arithmetic::div_mod::lemma_mod_bound(i as int, m as int);
            let (q, o) = (i as int / m as int, i as int % m as int);
            assert(q < t) by (nonlinear_arith)
                requires
                    i == m * q + o,
                    o >= 0,
                    i < t * m,
                    m > 0,
            ;
            assert(0 <= q * n_out && q * n_out + n_out <= t * n_out) by (nonlinear_arith)
                requires
                    0 <= q < t,
                    0 <= n_out,
            ;
            assert(q * m == m * q) by (nonlinear_arith);
        }
        let token: usize = i / m;
        let output: usize = i % m;
        if cpu[i] != gpu[token * n_out + output] {
            count = count + 1;
            if first.is_none() {
                first = Some(Place { token, output });
            }
        }
        i = i + 1;
    }
    Mismatch { count, first }
}

/// Times the half-precision tile kernel over repeated bytes. Buffers:
/// activations, weights, results.
pub fn f16_bench(rows: usize, n_in: usize, n_out: usize, reps: usize) -> (r: Bench)
    requires
        spec_xq_words(n_in as int) * rows * 4 <= usize::MAX,
        n_out * n_in * 2 <= usize::MAX,
        n_out * rows * 4 <= usize::MAX,
    ensures
        ({
            let xq_w = spec_xq_words(n_in as int);
            let xb = (xq_w * rows * 4) as usize;
            let wb = (n_out * n_in * 2) as usize;
            &&& r.setup@ == seq![
                spec_proom(0, xb as int),
                spec_proom(1, wb as int),
                spec_proom(2, n_out * rows * 4),
                Cmd::H2d {
                    dst: spec_pbuf(0),
                    src: Host::Fill { byte: 0x11, bytes: xb },
                    bytes: xb,
                },
                Cmd::H2d {
                    dst: spec_pbuf(1),
                    src: Host::Fill { byte: 0x22, bytes: wb },
                    bytes: wb,
                },
            ]
            &&& r.timed@ == seq![
                Timed {
                    warmup: 1,
                    reps,
                    must: true,
                    cmd: spec_launch(
                        Call::TileGemm {
                            kern: TileKernel::F16V4,
                            xq: spec_pbuf(0),
                            w: spec_pbuf(1),
                            out: spec_pbuf(2),
                            n_in: n_in as i32,
                            n_out: n_out as i32,
                            xq_w: xq_w as i32,
                            t: vstd::math::min(rows as int, 128) as i32,
                        },
                        spec_ceil_div(n_out as int, 128) as u32,
                        1,
                        spec_ceil_div(rows as int, 128) as u32,
                        256,
                    ),
                },
            ]
            &&& r.read@.len() == 0
        }),
{
    let xq_w: usize = xq_words(n_in);
    proof {
        assert(0 <= xq_w * rows <= xq_w * rows * 4 && 0 <= n_out * n_in <= n_out * n_in * 2 && 0
            <= n_out * rows <= n_out * rows * 4) by (nonlinear_arith)
            requires
                0 <= xq_w,
                0 <= rows,
                0 <= n_out,
                0 <= n_in,
        ;
    }
    let xb: usize = xq_w * rows * 4;
    let wb: usize = n_out * n_in * 2;
    let setup: Vec<Cmd> = vec![
        proom(0, xb),
        proom(1, wb),
        proom(2, n_out * rows * 4),
        Cmd::H2d { dst: pbuf(0), src: Host::Fill { byte: 0x11, bytes: xb }, bytes: xb },
        Cmd::H2d { dst: pbuf(1), src: Host::Fill { byte: 0x22, bytes: wb }, bytes: wb },
    ];
    let cmd = launch(
        Call::TileGemm {
            kern: TileKernel::F16V4,
            xq: pbuf(0),
            w: pbuf(1),
            out: pbuf(2),
            n_in: n_in as i32,
            n_out: n_out as i32,
            xq_w: xq_w as i32,
            t: min_usize(rows, 128) as i32,
        },
        ceil_div(n_out, 128) as u32,
        1,
        ceil_div(rows, 128) as u32,
        256,
    );
    Bench { setup, timed: vec![Timed { warmup: 1, reps, must: true, cmd }], read: Vec::new() }
}

/// Synthetic q4_K weights, and one run of draws per row.
pub struct Q4kBench {
    pub w: Vec<u8>,
    pub xs: Vec<Vec<u32>>,
}

/// The inputs of the q4_K benchmark: a super block for every 256 values of every
/// output.
pub fn q4k_bench(rows: usize, n_in: usize, n_out: usize) -> (r: Q4kBench)
    requires
        n_out * (n_in / 256) * 144 <= usize::MAX,
    ensures
        r.w@.len() == n_out * (n_in as int / 256) * 144,
        forall|k: int| 0 <= k < r.w@.len() ==> #[trigger] r.w@[k] == q4k_byte(k / 144, k % 144),
        r.xs@.len() == rows,
        forall|i: int|
            0 <= i < rows ==> (#[trigger] r.xs@[i])@ == draws_from(SEED_PI, i * n_in, n_in as int),
{
    let n_super: usize = n_in / 256;
    assert(n_out * n_super <= n_out * n_super * 144) by (nonlinear_arith);
    let nblk: usize = n_out * n_super;
    Q4kBench { w: q4k_blocks(nblk), xs: token_draws(SEED_PI, rows, n_in) }
}

/// The check of the q4_K kernel on one super block per row.
pub struct Q4kMicro {
    pub w: Vec<u8>,
    /// Thousandths, 16 rows of 256; a number `v` stands for `v / 500 - 1`.
    pub xs: Vec<Vec<u32>>,
}

/// Value `i` of row `row` of the q4_K check.
pub open spec fn micro_value(row: int, i: int) -> u32 {
    ((row * 31 + i) * 2654435761 % 1000) as u32
}

pub fn q4k_micro() -> (r: Q4kMicro)
    ensures
        r.w@.len() == 16 * 144,
        forall|k: int|
            0 <= k < r.w@.len() ==> #[trigger] r.w@[k] == q4k_check_byte(k / 144, k % 144),
        r.xs@.len() == 16,
        forall|row: int, i: int|
            0 <= row < 16 && 0 <= i < 256 ==> (#[trigger] r.xs@[row]@[i]) == micro_value(row, i),
        forall|row: int| 0 <= row < 16 ==> (#[trigger] r.xs@[row])@.len() == 256,
{
    let w = q4k_check_rows(16);
    let mut xs: Vec<Vec<u32>> = Vec::new();
    let mut row: usize = 0;
    while row < 16
        invariant
            row <= 16,
            xs@.len() == row,
            forall|q: int, i: int|
                0 <= q < row && 0 <= i < 256 ==> (#[trigger] xs@[q]@[i]) == micro_value(q, i),
            forall|q: int| 0 <= q < row ==> (#[trigger] xs@[q])@.len() == 256,
        decreases 16 - row,
    {
        let mut x: Vec<u32> = Vec::new();
        let mut i: usize = 0;
        while i < 256
            invariant
                row < 16,
                i <= 256,
                x@.len() == i,
                forall|j: int| 0 <= j < i ==> #[trigger] x@[j] == micro_value(row as int, j),
            decreases 256 - i,
        {
            let v: u64 = (row as u64 * 31 + i as u64) * 2654435761 % 1000;
            x.push(v as u32);
            i = i + 1;
        }
        xs.push(x);
        row = row + 1;
    }
    Q4kMicro { w, xs }
}

/// A q5_1 launch of the benchmark: the row-wise kernel or the tiled one.
pub open spec fn q51_launch(rows: usize, n_in: usize, n_out: usize, tiled: bool) -> Cmd {
    let (xq, w, part, out) = (
        spec_pbuf(1),
        spec_pbuf(0),
        crate::device::spec_buf(crate::device::Slot::Scratch),
        spec_pbuf(2),
    );
    let (ni, no, xq_w, t) = (
        n_in as i32,
        n_out as i32,
        spec_xq_words(n_in as int) as i32,
        rows as i32,
    );
    if tiled {
        let nb = spec_ceil_div(n_out as int, 4);
        spec_launch(
            Call::GemmQ51T { xq, w, part, out, n_in: ni, n_out: no, xq_w, t },
            spec_ceil_div(rows as int, 16) as u32,
            grid_y(nb),
            grid_z(nb),
            256,
        )
    } else {
        spec_launch(
            Call::GemmQ51 { xq, w, part, out, n_in: ni, n_out: no, xq_w, t },
            rows as u32,
            grid_y(n_out as int),
            grid_z(n_out as int),
            64,
        )
    }
}

/// Times the two q5_1 kernels over repeated bytes. Buffers: weights, activations,
/// results; at least four bytes each.
pub fn q5_1_bench(rows: usize, n_in: usize, n_out: usize, reps: usize) -> (r: Bench)
    requires
        n_out * (n_in / 32 * 24) <= usize::MAX,
        rows * spec_xq_words(n_in as int) * 4 <= usize::MAX,
        rows * n_out * 4 <= usize::MAX,
        n_out * 512 <= usize::MAX,
    ensures
        ({
            let wb = n_out * (n_in as int / 32 * 24);
            let xb = rows * spec_xq_words(n_in as int) * 4;
            &&& r.setup@ == seq![
                spec_proom(0, vstd::math::max(wb, 4)),
                spec_proom(1, vstd::math::max(xb, 4)),
                spec_proom(2, vstd::math::max(rows * n_out * 4, 4)),
                Cmd::Ensure {
                    slot: crate::device::Slot::Scratch,
                    bytes: (n_out * 64 * 8) as usize,
                },
                Cmd::H2d {
                    dst: spec_pbuf(0),
                    src: Host::Fill { byte: 0x3c, bytes: wb as usize },
                    bytes: wb as usize,
                },
                Cmd::H2d {
                    dst: spec_pbuf(1),
                    src: Host::Fill { byte: 0x01, bytes: xb as usize },
                    bytes: xb as usize,
                },
            ]
            &&& r.timed@ == seq![
                Timed { warmup: 2, reps, must: true, cmd: q51_launch(rows, n_in, n_out, false) },
                Timed { warmup: 2, reps, must: true, cmd: q51_launch(rows, n_in, n_out, true) },
            ]
            &&& r.read@.len() == 0
        }),
{
    let xq_w: usize = xq_words(n_in);
    proof {
        assert(0 <= rows * xq_w <= rows * xq_w * 4 && 0 <= rows * n_out <= rows * n_out * 4)
            by (nonlinear_arith)
            requires
                0 <= rows,
                0 <= xq_w,
                0 <= n_out,
        ;
    }
    let wrow: usize = n_in / 32 * 24;
    let wb: usize = n_out * wrow;
    let xb: usize = rows * xq_w * 4;
    let ob: usize = rows * n_out * 4;
    let part = crate::device::buf(crate::device::Slot::Scratch);
    let setup: Vec<Cmd> = vec![
        proom(0, max_usize(wb, 4)),
        proom(1, max_usize(xb, 4)),
        proom(2, max_usize(ob, 4)),
        Cmd::Ensure { slot: crate::device::Slot::Scratch, bytes: n_out * 64 * 8 },
        Cmd::H2d { dst: pbuf(0), src: Host::Fill { byte: 0x3c, bytes: wb }, bytes: wb },
        Cmd::H2d { dst: pbuf(1), src: Host::Fill { byte: 0x01, bytes: xb }, bytes: xb },
    ];
    let (xq, w, out): (Ptr, Ptr, Ptr) = (pbuf(1), pbuf(0), pbuf(2));
    let (ni, no, xw, t): (i32, i32, i32, i32) = (
        n_in as i32,
        n_out as i32,
        xq_w as i32,
        rows as i32,
    );
    let nb: usize = ceil_div(n_out, 4);
    let plain = launch(
        Call::GemmQ51 { xq, w, part, out, n_in: ni, n_out: no, xq_w: xw, t },
        rows as u32,
        min_usize(n_out, GRID_Y) as u32,
        ceil_div(n_out, GRID_Y) as u32,
        64,
    );
    let tiled = launch(
        Call::GemmQ51T { xq, w, part, out, n_in: ni, n_out: no, xq_w: xw, t },
        ceil_div(rows, 16) as u32,
        min_usize(nb, GRID_Y) as u32,
        ceil_div(nb, GRID_Y) as u32,
        256,
    );
    let timed: Vec<Timed> = vec![
        Timed { warmup: 2, reps, must: true, cmd: plain },
        Timed { warmup: 2, reps, must: true, cmd: tiled },
    ];
    Bench { setup, timed, read: Vec::new() }
}

/// A measured download: its size in bytes and in kibibytes, the downloads that do
/// not count, those that do, and how often the scratch area is asked for.
#[derive(Clone, Copy, PartialEq, Eq, Structural, Debug)]
pub struct D2hCase {
    pub bytes: usize,
    pub kib: usize,
    pub warmup: usize,
    pub reps: usize,
    pub scratch_reps: usize,
}

/// The downloads to measure: 20 KiB, 1 MiB and 8 MiB, five times each after two
/// that do not count.
pub fn d2h_bench() -> (r: Vec<D2hCase>)
    ensures
        r@ == seq![
            D2hCase { bytes: 20480, kib: 20, warmup: 2, reps: 5, scratch_reps: 5 },
            D2hCase { bytes: 1048576, kib: 1024, warmup: 2, reps: 5, scratch_reps: 5 },
            D2hCase { bytes: 8388608, kib: 8192, warmup: 2, reps: 5, scratch_reps: 5 },
        ],
{
    let sizes: Vec<usize> = vec![20480, 1048576, 8388608];
    let mut r: Vec<D2hCase> = Vec::new();
    let mut i: usize = 0;
    while i < 3
        invariant
            i <= 3,
            sizes@ == seq![20480usize, 1048576, 8388608],
            r@.len() == i,
            forall|k: int|
                0 <= k < i ==> #[trigger] r@[k] == (D2hCase {
                    bytes: sizes@[k],
                    kib: (sizes@[k] / 1024) as usize,
                    warmup: 2,
                    reps: 5,
                    scratch_reps: 5,
                }),
        decreases 3 - i,
    {
        let n: usize = sizes[i];
        r.push(D2hCase { bytes: n, kib: n / 1024, warmup: 2, reps: 5, scratch_reps: 5 });
        i = i + 1;
    }
    r
}

} // verus!
