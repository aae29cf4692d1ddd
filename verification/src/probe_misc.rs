//! Device probes: launch rates, bandwidth and single kernels.

use vstd::prelude::*;
use crate::arith::{ceil_div, min_usize};
use crate::blocks::{iq3s_blocks, iq3s_byte, sevens};
use crate::checks::{
    draw_runs, lens_of, pbuf, pget, proom, pput, runs, spec_pbuf, spec_pget, spec_proom, spec_pput,
    EPS_5, SEED_SHORT,
};
use crate::compare::value_eq;
use crate::device::{buf, launch, spec_buf, spec_launch, Cmd, Host, Slot};
use crate::error::ProbeError;
use crate::gemm::{grid_y, grid_z, GRID_Y};
use crate::ggml::{spec_xq_words, xq_words, GgmlType};
use crate::kernels::Call;
use crate::ops::{blocks, spec_blocks, ONE};
use crate::probe_gemm::{Bench, Timed};
use crate::synth::{affine, affine_numbers, draws_from, unit_sum, Lcg};

verus! {

/// The bit pattern of one half.
pub const HALF: u32 = 0x3f00_0000;

/// The quantising launch over 65536 values, 64 blocks of 32 values per thread
/// block.
pub open spec fn raw_launch() -> Cmd {
    spec_launch(Call::QuantQ8 { x: spec_pbuf(0), xq: spec_pbuf(1), n: 65536 }, 32, 1, 1, 64)
}

/// Measures the cost of a bare launch, `iters` times.
pub fn raw_probe(iters: usize) -> (r: Bench)
    ensures
        r.setup@ == seq![
            spec_proom(0, 262144),
            Cmd::H2d {
                dst: spec_pbuf(0),
                src: Host::Repeat { word: HALF, n: 65536 },
                bytes: 262144,
            },
            spec_proom(1, 90112),
        ],
        r.timed@ == seq![Timed { warmup: 1, reps: iters, must: true, cmd: raw_launch() }],
        r.read@.len() == 0,
{
    let n: usize = 65536;
    let nblk: usize = n / 32;
    let gx: u32 = ceil_div(nblk, 64) as u32;
    let setup: Vec<Cmd> = vec![
        proom(0, n * 4),
        Cmd::H2d { dst: pbuf(0), src: Host::Repeat { word: HALF, n }, bytes: n * 4 },
        proom(1, xq_words(n) * 4),
    ];
    let cmd = launch(Call::QuantQ8 { x: pbuf(0), xq: pbuf(1), n: n as i32 }, gx, 1, 1, 64);
    Bench { setup, timed: vec![Timed { warmup: 1, reps: iters, must: true, cmd }], read: Vec::new() }
}

/// The scaling launch over 256 values on a grid.
pub open spec fn rate_case(gx: u32, gy: u32, warmup: usize, reps: usize) -> Timed {
    Timed {
        warmup,
        reps,
        must: true,
        cmd: spec_launch(Call::Scale { t: spec_pbuf(0), s: ONE, n: 256 }, gx, gy, 1, 128),
    }
}

fn rate_timed(gx: u32, gy: u32, warmup: usize, reps: usize) -> (r: Timed)
    ensures
        r == rate_case(gx, gy, warmup, reps),
{
    Timed {
        warmup,
        reps,
        must: true,
        cmd: launch(Call::Scale { t: pbuf(0), s: ONE, n: 256 }, gx, gy, 1, 128),
    }
}

/// Measures launches per second for four grids; blocks past the values return at
/// once.
pub fn launch_rate(iters: usize) -> (r: Bench)
    ensures
        r.setup@ == seq![
            spec_proom(0, 1024),
            Cmd::H2d { dst: spec_pbuf(0), src: Host::Ones { n: 256 }, bytes: 1024 },
            Cmd::Sync,
        ],
        r.timed@ == seq![
            rate_case(1, 1, 64, 0),
            rate_case(1, 1, 32, iters),
            rate_case(64, 2560, 32, iters),
            rate_case(2048, 1, 32, iters),
            rate_case(65535, 1, 32, iters),
        ],
        r.read@.len() == 0,
{
    let setup: Vec<Cmd> = vec![
        proom(0, 1024),
        Cmd::H2d { dst: pbuf(0), src: Host::Ones { n: 256 }, bytes: 1024 },
        Cmd::Sync,
    ];
    let timed: Vec<Timed> = vec![
        rate_timed(1, 1, 64, 0),
        rate_timed(1, 1, 32, iters),
        rate_timed(64, 2560, 32, iters),
        rate_timed(2048, 1, 32, iters),
        rate_timed(65535, 1, 32, iters),
    ];
    Bench { setup, timed, read: Vec::new() }
}

/// The check of the iq3_s kernel: weights, activations as numbers `v` that stand
/// for `(v - 8) / 4`, and the program over weights, packed activations and lane
/// sums.
pub struct Iq3sProbe {
    pub w: Vec<u8>,
    pub x: Vec<u32>,
    pub cmds: Vec<Cmd>,
}

pub fn iq3s_probe() -> (r: Iq3sProbe)
    ensures
        r.w@.len() == 7480,
        forall|k: int| 0 <= k < 7480 ==> #[trigger] r.w@[k] == iq3s_byte(k / 110, k % 110),
        r.x@ == affine(17408, 1, 0, 17),
        r.cmds@ == seq![
            spec_proom(0, 7480),
            spec_pput(0, 7480),
            spec_proom(1, 19584),
            spec_pput(1, 19584),
            spec_proom(2, 512),
            spec_launch(
                Call::GemmIq3s {
                    xq: spec_pbuf(1),
                    w: spec_pbuf(0),
                    part: spec_pbuf(2),
                    n_in: 17408,
                    n_out: 1,
                },
                1,
                1,
                1,
                64,
            ),
            Cmd::Sync,
            spec_pget(2, 512),
        ],
{
    let k: usize = 17408;
    let nblk: usize = k / 256;
    let w = iq3s_blocks(nblk);
    let x = affine_numbers(k, 1, 0, 17);
    let cmds: Vec<Cmd> = vec![
        proom(0, 110 * nblk),
        pput(0, 110 * nblk),
        proom(1, (k / 4 + k / 32) * 4),
        pput(1, (k / 4 + k / 32) * 4),
        proom(2, 512),
        launch(
            Call::GemmIq3s {
                xq: pbuf(1),
                w: pbuf(0),
                part: pbuf(2),
                n_in: k as i32,
                n_out: 1,
            },
            1,
            1,
            1,
            64,
        ),
        Cmd::Sync,
        pget(2, 512),
    ];
    Iq3sProbe { w, x, cmds }
}

/// The places below `n` where two arrays of double-precision patterns differ.
pub open spec fn lanes_off(a: Seq<u64>, b: Seq<u64>, n: int) -> Seq<usize>
    decreases n,
{
    if n <= 0 {
        Seq::empty()
    } else if a[n - 1] != b[n - 1] {
        lanes_off(a, b, n - 1).push((n - 1) as usize)
    } else {
        lanes_off(a, b, n - 1)
    }
}

/// Lists the lanes whose sums differ.
pub fn differing_lanes(a: &Vec<u64>, b: &Vec<u64>) -> (r: Vec<usize>)
    requires
        a@.len() == b@.len(),
    ensures
        r@ == lanes_off(a@, b@, a@.len() as int),
{
    let mut r: Vec<usize> = Vec::new();
    let mut i: usize = 0;
    while i < a.len()
        invariant
            a@.len() == b@.len(),
            i <= a@.len(),
            r@ == lanes_off(a@, b@, i as int),
        decreases a@.len() - i,
    {
        if a[i] != b[i] {
            r.push(i);
        }
        i = i + 1;
    }
    r
}

/// A probe with words to upload to buffer 0, a program, and the words expected in
/// buffer 1.
pub struct WordProbe {
    pub x: Vec<u32>,
    pub cmds: Vec<Cmd>,
    pub expected: Vec<i32>,
}

/// The probe of the packed dot product instructions.
pub fn dp4a_test() -> (r: WordProbe)
    ensures
        r.x@ == seq![0x12u32, 0x11, 0x0001_0000, 0x0005_0000],
        r.cmds@ == seq![
            spec_proom(0, 16),
            spec_proom(1, 32),
            spec_pput(0, 16),
            spec_launch(Call::Dp4aProbe { x: spec_pbuf(0), out: spec_pbuf(1) }, 1, 1, 1, 1),
            Cmd::Sync,
            spec_pget(1, 32),
        ],
        r.expected@ == seq![3i32, 5i32, 204i32, 204i32, -4i32, -538i32, -538i32, 462i32],
{
    let cmds: Vec<Cmd> = vec![
        proom(0, 16),
        proom(1, 32),
        pput(0, 16),
        launch(Call::Dp4aProbe { x: pbuf(0), out: pbuf(1) }, 1, 1, 1, 1),
        Cmd::Sync,
        pget(1, 32),
    ];
    WordProbe {
        x: vec![0x12, 0x11, 0x0001_0000, 0x0005_0000],
        cmds,
        expected: vec![3, 5, 204, 204, -4, -538, -538, 462],
    }
}

/// The reading launch over weights of 17408 rows of 5120 values.
pub open spec fn bw_launch() -> Cmd {
    spec_launch(
        Call::BwProbe {
            w: spec_pbuf(0),
            part: spec_buf(Slot::Scratch),
            n_in: 5120,
            n_out: 17408,
            block_bytes: 176,
        },
        17408,
        1,
        1,
        64,
    )
}

/// Measures reading bandwidth over the shape of a q5_K feed-forward weight.
pub fn bw_test() -> (r: Bench)
    ensures
        r.setup@ == seq![
            spec_proom(0, 61276160),
            Cmd::Ensure { slot: Slot::Scratch, bytes: 8912896 },
        ],
        r.timed@ == seq![Timed { warmup: 1, reps: 30, must: true, cmd: bw_launch() }],
        r.read@ == seq![
            Cmd::D2h { dst: Host::Probe { id: 0 }, src: spec_buf(Slot::Scratch), bytes: 512 },
        ],
{
    let (n_in, n_out, bsize): (usize, usize, usize) = (5120, 17408, 176);
    let setup: Vec<Cmd> = vec![
        proom(0, n_out * (n_in / 256) * bsize),
        Cmd::Ensure { slot: Slot::Scratch, bytes: n_out * 64 * 8 },
    ];
    let cmd = launch(
        Call::BwProbe {
            w: pbuf(0),
            part: buf(Slot::Scratch),
            n_in: n_in as i32,
            n_out: n_out as i32,
            block_bytes: bsize as i32,
        },
        17408,
        1,
        1,
        64,
    );
    Bench {
        setup,
        timed: vec![Timed { warmup: 1, reps: 30, must: true, cmd }],
        read: vec![
            Cmd::D2h { dst: Host::Probe { id: 0 }, src: buf(Slot::Scratch), bytes: 512 },
        ],
    }
}

/// Bytes of the buffer whose placement is measured.
pub const PLACE_BYTES: u64 = 2108456960;

/// Bytes per filler allocation, and memory that stays free beside two of them.
pub const FILLER: u64 = 1073741824;

pub const FILLER_MARGIN: u64 = 2147483648;

/// Most filler allocations.
pub const FILLER_MAX: u64 = 64;

/// The streaming launch over a buffer.
pub open spec fn stream_launch(id: usize) -> Cmd {
    spec_launch(
        Call::BwStream {
            w: spec_pbuf(id),
            part: spec_buf(Slot::Scratch),
            words: (PLACE_BYTES / 8) as u64,
        },
        4096,
        1,
        1,
        256,
    )
}

/// Measures streaming bandwidth over buffer `id`, wherever it was placed.
pub fn bw_place_test(id: usize) -> (r: Timed)
    ensures
        r == (Timed { warmup: 1, reps: 5, must: true, cmd: stream_launch(id) }),
{
    Timed {
        warmup: 1,
        reps: 5,
        must: true,
        cmd: launch(
            Call::BwStream {
                w: pbuf(id),
                part: buf(Slot::Scratch),
                words: PLACE_BYTES / 8,
            },
            4096,
            1,
            1,
            256,
        ),
    }
}

/// Whether another filler is allocated, with `free` bytes free at the start and
/// `done` fillers so far: only while two more and the margin would fit, and never
/// more than the most.
pub fn wants_filler(free: u64, done: u64) -> (r: bool)
    ensures
        r == (free > (done + 2) * FILLER + FILLER_MARGIN && done < FILLER_MAX),
{
    done < FILLER_MAX && free > (done + 2) * FILLER + FILLER_MARGIN
}

/// Fillers never take what was free: each leaves more than another one and the
/// margin.
pub proof fn law_fillers_leave_room(free: int, done: int)
    requires
        free > (done + 2) * FILLER + FILLER_MARGIN,
        0 <= done,
    ensures
        free - (done + 1) * FILLER > FILLER + FILLER_MARGIN,
{
}

/// The index of the first tensor with each wanted name.
pub open spec fn named(names: Seq<Vec<u8>>, want: Seq<u8>, r: Option<usize>) -> bool {
    match r {
        Some(i) => i < names.len() && names[i as int]@ == want && forall|j: int|
            0 <= j < i ==> (#[trigger] names[j])@ != want,
        None => forall|j: int| 0 <= j < names.len() ==> (#[trigger] names[j])@ != want,
    }
}

fn find_name(names: &Vec<Vec<u8>>, want: &Vec<u8>) -> (r: Option<usize>)
    ensures
        named(names@, want@, r),
{
    let mut i: usize = 0;
    while i < names.len()
        invariant
            i <= names@.len(),
            forall|j: int| 0 <= j < i ==> (#[trigger] names@[j])@ != want@,
        decreases names@.len() - i,
    {
        if crate::vit::same_bytes(&names[i], want) {
            return Some(i);
        }
        i = i + 1;
    }
    None
}

/// Looks the wanted tensors up by name; a name that occurs nowhere has no entry.
pub fn dims_of(names: &Vec<Vec<u8>>, wanted: &Vec<Vec<u8>>) -> (r: Vec<Option<usize>>)
    ensures
        r@.len() == wanted@.len(),
        forall|k: int|
            0 <= k < wanted@.len() ==> named(names@, (#[trigger] wanted@[k])@, r@[k]),
{
    let mut r: Vec<Option<usize>> = Vec::new();
    let mut k: usize = 0;
    while k < wanted.len()
        invariant
            k <= wanted@.len(),
            r@.len() == k,
            forall|j: int| 0 <= j < k ==> named(names@, (#[trigger] wanted@[j])@, r@[j]),
        decreases wanted@.len() - k,
    {
        r.push(find_name(names, &wanted[k]));
        k = k + 1;
    }
    r
}

/// The check of the q6_K product: activations, then the commands up to the
/// quantised row, then those behind it.
pub struct Q6kRef {
    /// Draws, or unit values where columns were named.
    pub x: Vec<u32>,
    pub named: bool,
    pub before: Vec<Cmd>,
    pub after: Vec<Cmd>,
}

/// The commands that bring weights and activations to the device and read the
/// quantised row back.
pub open spec fn q6k_before(n_in: usize, w_len: int) -> Seq<Cmd> {
    let xq_w = spec_xq_words(n_in as int);
    seq![
        spec_proom(0, w_len),
        spec_pput(0, w_len),
        spec_proom(1, n_in * 4),
        spec_pput(1, n_in * 4),
        spec_proom(2, xq_w * 4),
        Cmd::QuantRow { x: spec_pbuf(1), xq: spec_pbuf(2), n_in },
        Cmd::Sync,
        spec_pget(2, xq_w * 4),
    ]
}

/// The commands that run the product and the scalar reference over the same
/// activations.
pub open spec fn q6k_after(n_in: usize, n_out: usize) -> Seq<Cmd> {
    let (ni, no) = (n_in as i32, n_out as i32);
    seq![
        spec_proom(3, n_in * 4),
        spec_pput(3, n_in * 4),
        spec_proom(4, n_out * 4),
        spec_proom(5, n_out * 4),
        spec_proom(6, n_out * 64 * 8),
        spec_launch(
            Call::GemmQ6k {
                xq: spec_pbuf(2),
                w: spec_pbuf(0),
                part: spec_pbuf(6),
                out: spec_pbuf(4),
                n_in: ni,
                n_out: no,
                xq_w: spec_xq_words(n_in as int) as i32,
            },
            1,
            grid_y(n_out as int),
            grid_z(n_out as int),
            64,
        ),
        spec_launch(
            Call::Q6kScalar {
                y: spec_pbuf(3),
                w: spec_pbuf(0),
                out: spec_pbuf(5),
                n_in: ni,
                n_out: no,
            },
            spec_blocks(n_out as int, 64),
            1,
            1,
            64,
        ),
        Cmd::Sync,
        spec_pget(4, n_out * 4),
        spec_pget(5, n_out * 4),
    ]
}

/// Named columns have to be there, and inside the row.
pub open spec fn bad_columns(columns: Option<Vec<usize>>, n_in: usize) -> bool {
    match columns {
        Some(ks) => ks@.len() == 0 || exists|j: int|
            0 <= j < ks@.len() && (#[trigger] ks@[j]) >= n_in,
        None => false,
    }
}

/// Holds the q6_K product against a scalar reference on the device. With named
/// columns the activations are a sum of unit vectors, else draws.
pub fn q6k_ref_probe(
    ty: GgmlType,
    n_in: usize,
    n_out: usize,
    w_len: usize,
    columns: Option<Vec<usize>>,
) -> (r: Result<Q6kRef, ProbeError>)
    requires
        n_in * 4 <= usize::MAX,
        n_out * 512 <= usize::MAX,
    ensures
        if ty != GgmlType::Q6K {
            r == Err::<Q6kRef, ProbeError>(ProbeError::Type { ty })
        } else {
            &&& bad_columns(columns, n_in) <==> r is Err
            &&& r matches Err(e) ==> e == ProbeError::Index
            &&& r matches Ok(p) ==> {
                &&& p.named == columns.is_some()
                &&& p.x@.len() == n_in
                &&& match columns {
                    None => p.x@ == draws_from(SEED_SHORT, 0, n_in as int),
                    Some(ks) => forall|i: int|
                        0 <= i < n_in ==> #[trigger] p.x@[i] == if ks@.contains(i as usize) {
                            ONE
                        } else {
                            0u32
                        },
                }
                &&& p.before@ == q6k_before(n_in, w_len as int)
                &&& p.after@ == q6k_after(n_in, n_out)
            }
        },
{
    if !matches!(ty, GgmlType::Q6K) {
        return Err(ProbeError::Type { ty });
    }
    let xq_w: usize = xq_words(n_in);
    let mut named = false;
    let x: Vec<u32> = match &columns {
        Some(ks) => {
            named = true;
            if ks.len() == 0 {
                return Err(ProbeError::Index);
            }
            let mut j: usize = 0;
            while j < ks.len()
                invariant
                    j <= ks@.len(),
                    columns == Some(*ks),
                    ty == GgmlType::Q6K,
                    forall|i: int| 0 <= i < j ==> (#[trigger] ks@[i]) < n_in,
                decreases ks@.len() - j,
            {
                if ks[j] >= n_in {
                    assert(ks@[j as int] >= n_in);
                    return Err(ProbeError::Index);
                }
                j = j + 1;
            }
            unit_sum(n_in, ks)
        },
        None => {
            let mut g = Lcg::new(SEED_SHORT);
            g.draws(n_in)
        },
    };
    let before: Vec<Cmd> = vec![
        proom(0, w_len),
        pput(0, w_len),
        proom(1, n_in * 4),
        pput(1, n_in * 4),
        proom(2, xq_w * 4),
        Cmd::QuantRow { x: pbuf(1), xq: pbuf(2), n_in },
        Cmd::Sync,
        pget(2, xq_w * 4),
    ];
    let (ni, no): (i32, i32) = (n_in as i32, n_out as i32);
    let after: Vec<Cmd> = vec![
        proom(3, n_in * 4),
        pput(3, n_in * 4),
        proom(4, n_out * 4),
        proom(5, n_out * 4),
        proom(6, n_out * 64 * 8),
        launch(
            Call::GemmQ6k {
                xq: pbuf(2),
                w: pbuf(0),
                part: pbuf(6),
                out: pbuf(4),
                n_in: ni,
                n_out: no,
                xq_w: xq_w as i32,
            },
            1,
            min_usize(n_out, GRID_Y) as u32,
            ceil_div(n_out, GRID_Y) as u32,
            64,
        ),
        launch(
            Call::Q6kScalar {
                y: pbuf(3),
                w: pbuf(0),
                out: pbuf(5),
                n_in: ni,
                n_out: no,
            },
            blocks(n_out, 64),
            1,
            1,
            64,
        ),
        Cmd::Sync,
        pget(4, n_out * 4),
        pget(5, n_out * 4),
    ];
    Ok(Q6kRef { x, named, before, after })
}

/// Lengths of the drawn inputs of the stream kernel's reproduction: residual,
/// norm and injection.
pub open spec fn hca_lens() -> Seq<int> {
    seq![10240int, 10240int, 40960int]
}

/// The reproduction of the fused stream kernel: drawn inputs, the bytes of the
/// down projection, what is set up, the launch that runs eight times, and what is
/// read.
pub struct HcaRepro {
    pub inputs: Vec<Vec<u32>>,
    pub w_down: Vec<u8>,
    pub setup: Vec<Cmd>,
    pub run: Cmd,
    pub rounds: usize,
    pub read: Cmd,
}

/// Buffers: residual, norm, down projection with 4 KiB to spare, injection, the
/// two low outputs and the normed streams. One block per low row, per stream and
/// per 64 values.
pub fn hca_repro() -> (r: HcaRepro)
    ensures
        r.inputs@.len() == 3,
        forall|i: int| 0 <= i < 3 ==> (#[trigger] r.inputs@[i])@ == runs(SEED_SHORT, hca_lens(), i),
        r.w_down@.len() == 3481600,
        forall|i: int| 0 <= i < 3481600 ==> #[trigger] r.w_down@[i] == i % 256 * 7 % 256,
        r.setup@ == seq![
            spec_proom(0, 40960),
            spec_proom(1, 40960),
            spec_proom(2, 3485696),
            spec_proom(3, 163840),
            spec_proom(4, 1280),
            spec_proom(5, 16),
            spec_proom(6, 40960),
            spec_pput(0, 40960),
            spec_pput(1, 40960),
            spec_pput(2, 3481600),
            spec_pput(3, 163840),
        ],
        r.run == spec_launch(
            Call::HcaRepro {
                res: spec_pbuf(0),
                norm: spec_pbuf(1),
                w_down: spec_pbuf(2),
                w_inj: spec_pbuf(3),
                low: spec_pbuf(4),
                inj: spec_pbuf(5),
                xn: spec_pbuf(6),
                n: 2560,
                hc: 4,
                r: 320,
                eps: EPS_5,
            },
            484,
            1,
            1,
            64,
        ),
        r.rounds == 8,
        r.read == spec_pget(4, 1280),
{
    let (n, hc, rank): (usize, usize, usize) = (2560, 4, 320);
    let total: usize = hc * n;
    let n_sub: usize = total / 32;
    let lens: Vec<usize> = vec![total, total, hc * total];
    assert(lens_of(lens@) =~= hca_lens());
    let inputs = draw_runs(SEED_SHORT, &lens);
    let down: usize = rank * n_sub * 34;
    let w_down = sevens(down);
    let setup: Vec<Cmd> = vec![
        proom(0, total * 4),
        proom(1, total * 4),
        proom(2, down + 4096),
        proom(3, hc * total * 4),
        proom(4, rank * 4),
        proom(5, hc * 4),
        proom(6, total * 4),
        pput(0, total * 4),
        pput(1, total * 4),
        pput(2, down),
        pput(3, hc * total * 4),
    ];
    let run = launch(
        Call::HcaRepro {
            res: pbuf(0),
            norm: pbuf(1),
            w_down: pbuf(2),
            w_inj: pbuf(3),
            low: pbuf(4),
            inj: pbuf(5),
            xn: pbuf(6),
            n: n as i32,
            hc: hc as i32,
            r: rank as i32,
            eps: EPS_5,
        },
        (rank + hc + total / 64) as u32,
        1,
        1,
        64,
    );
    HcaRepro { inputs, w_down, setup, run, rounds: 8, read: pget(4, rank * 4) }
}

/// How many of the first `n` values differ from zero.
pub open spec fn nonzero(x: Seq<u32>, n: int) -> int
    decreases n,
{
    if n <= 0 {
        0
    } else {
        nonzero(x, n - 1) + if crate::compare::values_equal(x[n - 1], 0) {
            0int
        } else {
            1int
        }
    }
}

/// Counts the values that differ from zero.
pub fn count_nonzero(x: &[u32]) -> (r: usize)
    ensures
        r == nonzero(x@, x@.len() as int),
{
    let mut c: usize = 0;
    let mut i: usize = 0;
    while i < x.len()
        invariant
            i <= x@.len(),
            c == nonzero(x@, i as int),
            c <= i,
        decreases x@.len() - i,
    {
        if !value_eq(x[i], 0) {
            c = c + 1;
        }
        i = i + 1;
    }
    c
}

} // verus!
