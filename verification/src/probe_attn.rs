//! Checks and benchmarks of the attention kernels.

use vstd::prelude::*;
use crate::arith::{ceil_div, spec_ceil_div};
use crate::checks::{
    pbuf, pget, proom, pput, spec_pbuf, spec_pget, spec_proom, spec_pput, EPS_5,
};
use crate::device::{launch, spec_launch, Cmd, Host};
use crate::families::FlashKernel;
use crate::kernels::Call;
use crate::probe_gemm::Timed;
use crate::synth::{affine, affine_numbers, causal, causal_mask};

verus! {

/// The bit pattern of 0.05.
pub const TWENTIETH: u32 = 0x3d4c_cccd;

/// Numbers to upload, array `i` to buffer `i`, and the program.
pub struct NumberProbe {
    pub inputs: Vec<Vec<u32>>,
    pub cmds: Vec<Cmd>,
}

/// The program of the rotary check.
pub open spec fn qk_program() -> Seq<Cmd> {
    seq![
        spec_proom(0, 49152),
        spec_proom(1, 4096),
        spec_proom(2, 24576),
        spec_proom(3, 4096),
        spec_pput(2, 24576),
        spec_pput(3, 4096),
        spec_pput(0, 49152),
        spec_pput(1, 4096),
        spec_proom(4, 524288),
        spec_pput(4, 524288),
        spec_launch(
            Call::QkNormRope {
                q: spec_pbuf(0),
                k: spec_pbuf(1),
                q_norm: spec_pbuf(2),
                k_norm: spec_pbuf(3),
                cs: spec_pbuf(4),
                eps: EPS_5,
                kq_scale: TWENTIETH,
                pos0: 2,
                n_head: 24,
                n_kv: 4,
                hd: 256,
                n_rot: 64,
            },
            28,
            1,
            1,
            32,
        ),
        Cmd::Sync,
        spec_pget(0, 49152),
        spec_pget(1, 4096),
    ]
}

/// The check of the rotary embedding at position 2, for 24 query and 4 key heads
/// of 256 values. The numbers stand for: queries `(v - 5) / 10`, keys
/// `(v - 6) / 10`, norms `1 + v / 100`, rotations `(v - 4) / 10`.
pub fn qk_check() -> (r: NumberProbe)
    ensures
        r.inputs@.len() == 5,
        r.inputs@[0]@ == affine(12288, 1, 0, 11),
        r.inputs@[1]@ == affine(1024, 1, 0, 13),
        r.inputs@[2]@ == affine(6144, 1, 0, 7),
        r.inputs@[3]@ == affine(1024, 1, 0, 5),
        r.inputs@[4]@ == affine(131072, 1, 0, 9),
        r.cmds@ == qk_program(),
{
    let (n_head, n_kv, hd, n_rot): (usize, usize, usize, usize) = (24, 4, 256, 64);
    let (q, k, qw): (usize, usize, usize) = (n_head * 2 * hd, n_kv * hd, n_head * hd);
    let cs: usize = 2048 * (n_rot / 2) * 2;
    let inputs: Vec<Vec<u32>> = vec![
        affine_numbers(q, 1, 0, 11),
        affine_numbers(k, 1, 0, 13),
        affine_numbers(qw, 1, 0, 7),
        affine_numbers(k, 1, 0, 5),
        affine_numbers(cs, 1, 0, 9),
    ];
    let cmds: Vec<Cmd> = vec![
        proom(0, q * 4),
        proom(1, k * 4),
        proom(2, qw * 4),
        proom(3, k * 4),
        pput(2, qw * 4),
        pput(3, k * 4),
        pput(0, q * 4),
        pput(1, k * 4),
        proom(4, cs * 4),
        pput(4, cs * 4),
        launch(
            Call::QkNormRope {
                q: pbuf(0),
                k: pbuf(1),
                q_norm: pbuf(2),
                k_norm: pbuf(3),
                cs: pbuf(4),
                eps: EPS_5,
                kq_scale: TWENTIETH,
                pos0: 2,
                n_head: 24,
                n_kv: 4,
                hd: 256,
                n_rot: 64,
            },
            (n_head + n_kv) as u32,
            1,
            1,
            32,
        ),
        Cmd::Sync,
        pget(0, q * 4),
        pget(1, k * 4),
    ];
    NumberProbe { inputs, cmds }
}

/// Positions of the longest cache that is measured, and of one segment.
pub const GQA_MAX: usize = 3314;

pub const GQA_SEG: usize = 32;

/// Words of the keys, of the values, and of the partial sums.
pub const GQA_KV: usize = 3393536;

pub const GQA_PART: usize = 643968;

/// A measured kernel over `n_past` positions; keys, values and partial sums are
/// in the given buffers.
pub open spec fn gqa_case(
    kern: FlashKernel,
    n_past: int,
    k: usize,
    v: usize,
    part: usize,
) -> Timed {
    Timed {
        warmup: 20,
        reps: 200,
        must: false,
        cmd: spec_launch(
            Call::Flash {
                kern,
                q: spec_pbuf(0),
                k: spec_pbuf(k),
                v: spec_pbuf(v),
                mask: spec_pbuf(3),
                part: spec_pbuf(part),
                n_past: n_past as i32,
                n_head: 24,
                n_kv: 4,
                hd: 256,
                t: 1,
                stride: 4096,
                pos0: 0,
                seg: 32,
            },
            1,
            4,
            spec_ceil_div(n_past, 32) as u32,
            256,
        ),
    }
}

fn gqa_timed(kern: FlashKernel, n_past: usize, k: usize, v: usize, part: usize) -> (r: Timed)
    ensures
        r == gqa_case(kern, n_past as int, k, v, part),
{
    Timed {
        warmup: 20,
        reps: 200,
        must: false,
        cmd: launch(
            Call::Flash {
                kern,
                q: pbuf(0),
                k: pbuf(k),
                v: pbuf(v),
                mask: pbuf(3),
                part: pbuf(part),
                n_past: n_past as i32,
                n_head: 24,
                n_kv: 4,
                hd: 256,
                t: 1,
                stride: 4096,
                pos0: 0,
                seg: 32,
            },
            1,
            4,
            ceil_div(n_past, GQA_SEG) as u32,
            256,
        ),
    }
}

/// One cache length: the half-precision copies it gets for itself, the four
/// kernels, and the words of the partial sums that were written.
pub struct GqaStage {
    pub n_past: usize,
    pub prepare: Vec<Cmd>,
    /// The first kernel, the second, the second over half-precision keys and
    /// values, and its dot product variant.
    pub timed: Vec<Timed>,
    pub written: usize,
}

/// Buffer `k` that stage `i` gets for itself.
pub open spec fn stage_buf(i: int, k: int) -> usize {
    (6 + 4 * i + k) as usize
}

/// The launch that narrows keys or values to half precision.
pub open spec fn narrow(src: usize, dst: usize) -> Cmd {
    spec_launch(
        Call::KvF16 { src: spec_pbuf(src), dst: spec_pbuf(dst), n: 3393536 },
        3314,
        1,
        1,
        256,
    )
}

fn narrow_cmd(src: usize, dst: usize) -> (r: Cmd)
    ensures
        r == narrow(src, dst),
{
    launch(
        Call::KvF16 { src: pbuf(src), dst: pbuf(dst), n: GQA_KV as i32 },
        ceil_div(GQA_KV, 1024) as u32,
        1,
        1,
        256,
    )
}

impl GqaStage {
    /// The stage is number `i` of the benchmark, over `n_past` positions.
    pub open spec fn is(&self, i: int, n_past: int) -> bool {
        let (p3, p4, k16, v16) = (
            stage_buf(i, 0),
            stage_buf(i, 1),
            stage_buf(i, 2),
            stage_buf(i, 3),
        );
        &&& self.n_past == n_past
        &&& self.prepare@ == seq![
            spec_proom(p3, GQA_PART * 4),
            spec_proom(p4, GQA_PART * 4),
            spec_proom(k16, GQA_KV * 2),
            spec_proom(v16, GQA_KV * 2),
            narrow(1, k16),
            narrow(2, v16),
            Cmd::Sync,
            spec_pget(k16, 16),
        ]
        &&& self.timed@ == seq![
            gqa_case(FlashKernel::Gqa, n_past, 1, 2, 4),
            gqa_case(FlashKernel::Gqa2, n_past, 1, 2, 5),
            gqa_case(FlashKernel::Gqa2h, n_past, k16, v16, p3),
            gqa_case(FlashKernel::Gqa2d, n_past, k16, v16, p4),
        ]
        &&& self.written == 24 * spec_ceil_div(n_past, 32) * 258
    }
}

fn gqa_stage(i: usize, n_past: usize) -> (r: GqaStage)
    requires
        i < 4,
        n_past <= 3314,
    ensures
        r.is(i as int, n_past as int),
{
    let p3: usize = 6 + 4 * i;
    let prepare: Vec<Cmd> = vec![
        proom(p3, GQA_PART * 4),
        proom(p3 + 1, GQA_PART * 4),
        proom(p3 + 2, GQA_KV * 2),
        proom(p3 + 3, GQA_KV * 2),
        narrow_cmd(1, p3 + 2),
        narrow_cmd(2, p3 + 3),
        Cmd::Sync,
        pget(p3 + 2, 16),
    ];
    let timed: Vec<Timed> = vec![
        gqa_timed(FlashKernel::Gqa, n_past, 1, 2, 4),
        gqa_timed(FlashKernel::Gqa2, n_past, 1, 2, 5),
        gqa_timed(FlashKernel::Gqa2h, n_past, p3 + 2, p3 + 3, p3),
        gqa_timed(FlashKernel::Gqa2d, n_past, p3 + 2, p3 + 3, p3 + 1),
    ];
    proof {
        crate::arith::lemma_ceil_div(n_past as int, 32);
    }
    let nseg: usize = ceil_div(n_past, GQA_SEG);
    let r = GqaStage { n_past, prepare, timed, written: 24 * nseg * 258 };
    assert(r.prepare@ =~= seq![
        spec_proom(stage_buf(i as int, 0), GQA_PART * 4),
        spec_proom(stage_buf(i as int, 1), GQA_PART * 4),
        spec_proom(stage_buf(i as int, 2), GQA_KV * 2),
        spec_proom(stage_buf(i as int, 3), GQA_KV * 2),
        narrow(1, stage_buf(i as int, 2)),
        narrow(2, stage_buf(i as int, 3)),
        Cmd::Sync,
        spec_pget(stage_buf(i as int, 2), 16),
    ]);
    r
}

/// The benchmark of the single-token attention kernels.
pub struct GqaBench {
    /// Queries, keys and values; a number `v` stands for `(v - 100) / 200`.
    pub inputs: Vec<Vec<u32>>,
    pub setup: Vec<Cmd>,
    pub stages: Vec<GqaStage>,
}

/// Buffers: queries, keys, values, a mask of ones, and two buffers of partial
/// sums; each stage adds four of its own.
pub fn gqa_bench() -> (r: GqaBench)
    ensures
        r.inputs@.len() == 3,
        r.inputs@[0]@ == affine(12288, 1103515245, 12345, 200),
        r.inputs@[1]@ == affine(3393536, 214013, 2531011, 200),
        r.inputs@[2]@ == affine(3393536, 1260231, 999983, 200),
        r.setup@ == seq![
            spec_proom(0, 49152),
            spec_proom(1, GQA_KV * 4),
            spec_proom(2, GQA_KV * 4),
            spec_proom(3, 16384),
            spec_proom(4, GQA_PART * 4),
            spec_proom(5, GQA_PART * 4),
            spec_pput(0, 49152),
            spec_pput(1, GQA_KV * 4),
            spec_pput(2, GQA_KV * 4),
            Cmd::H2d {
                dst: spec_pbuf(3),
                src: Host::Repeat { word: 1, n: 4096 },
                bytes: 16384,
            },
        ],
        r.stages@.len() == 4,
        r.stages@[0].is(0, 512),
        r.stages@[1].is(1, 1024),
        r.stages@[2].is(2, 2048),
        r.stages@[3].is(3, 3314),
{
    let inputs: Vec<Vec<u32>> = vec![
        affine_numbers(12288, 1103515245, 12345, 200),
        affine_numbers(GQA_KV, 214013, 2531011, 200),
        affine_numbers(GQA_KV, 1260231, 999983, 200),
    ];
    let setup: Vec<Cmd> = vec![
        proom(0, 49152),
        proom(1, GQA_KV * 4),
        proom(2, GQA_KV * 4),
        proom(3, 16384),
        proom(4, GQA_PART * 4),
        proom(5, GQA_PART * 4),
        pput(0, 49152),
        pput(1, GQA_KV * 4),
        pput(2, GQA_KV * 4),
        Cmd::H2d { dst: pbuf(3), src: Host::Repeat { word: 1, n: 4096 }, bytes: 16384 },
    ];
    let stages: Vec<GqaStage> = vec![
        gqa_stage(0, 512),
        gqa_stage(1, 1024),
        gqa_stage(2, 2048),
        gqa_stage(3, GQA_MAX),
    ];
    GqaBench { inputs, setup, stages }
}

/// Sizes of a prefill attention check.
#[derive(Clone, Copy, PartialEq, Eq, Structural, Debug)]
pub struct Prefill {
    pub n_kv: usize,
    pub t: usize,
    pub pos0: usize,
    pub seg: usize,
    pub stride: usize,
    pub n_past: usize,
}

/// Which sizes the half-precision attention is checked with.
#[derive(Clone, Copy, PartialEq, Eq, Structural, Debug)]
pub enum WmmaSize {
    Mini,
    Production,
    Default,
}

pub open spec fn spec_wmma_sizes(size: WmmaSize) -> Prefill {
    match size {
        WmmaSize::Mini => Prefill { n_kv: 8, t: 16, pos0: 0, seg: 16, stride: 256, n_past: 16 },
        WmmaSize::Production => Prefill {
            n_kv: 8,
            t: 512,
            pos0: 1024,
            seg: 1024,
            stride: 2048,
            n_past: 1536,
        },
        WmmaSize::Default => Prefill { n_kv: 8, t: 64, pos0: 32, seg: 16, stride: 256, n_past: 96 },
    }
}

/// A prefill attention check: queries, keys and values as numbers, the mask, the
/// program, and the words of the partial sums.
pub struct PrefillCheck {
    pub sizes: Prefill,
    pub inputs: Vec<Vec<u32>>,
    pub cmds: Vec<Cmd>,
    pub part_words: usize,
}

impl Prefill {
    /// The sizes are those of a check.
    pub open spec fn sane(&self) -> bool {
        &&& 0 < self.seg
        &&& self.n_kv <= 8
        &&& self.t <= 512
        &&& self.pos0 <= 1536
        &&& self.stride <= 2048
        &&& 0 < self.n_past <= self.stride
        &&& self.part() * 4 <= 0xffff_ffff
    }

    pub open spec fn nseg(&self) -> int {
        spec_ceil_div(self.n_past as int, self.seg as int)
    }

    /// Words of the partial sums: per token, head and segment the sum, its
    /// maximum and its weight.
    pub open spec fn part(&self) -> int {
        self.t * 24 * self.nseg() * 258
    }

    pub open spec fn q_words(&self) -> int {
        self.t * 24 * 2 * 256
    }

    pub open spec fn kv_words(&self) -> int {
        self.n_past * self.n_kv * 256
    }

    pub open spec fn mask_words(&self) -> int {
        (self.pos0 + self.t) * self.stride
    }
}

/// A launch of a prefill kernel over the buffers of a check.
pub open spec fn prefill_launch(
    kern: FlashKernel,
    s: Prefill,
    k: usize,
    v: usize,
    rows: int,
    threads: u32,
) -> Cmd {
    spec_launch(
        Call::Flash {
            kern,
            q: spec_pbuf(0),
            k: spec_pbuf(k),
            v: spec_pbuf(v),
            mask: spec_pbuf(3),
            part: spec_pbuf(4),
            n_past: s.n_past as i32,
            n_head: 24,
            n_kv: s.n_kv as i32,
            hd: 256,
            t: s.t as i32,
            stride: s.stride as i32,
            pos0: s.pos0 as i32,
            seg: s.seg as i32,
        },
        spec_ceil_div(s.t as int, rows) as u32,
        24,
        s.nseg() as u32,
        threads,
    )
}

fn prefill_cmd(
    kern: FlashKernel,
    s: Prefill,
    k: usize,
    v: usize,
    rows: usize,
    threads: u32,
) -> (r: Cmd)
    requires
        s.seg > 0,
        rows > 0,
    ensures
        r == prefill_launch(kern, s, k, v, rows as int, threads),
{
    launch(
        Call::Flash {
            kern,
            q: pbuf(0),
            k: pbuf(k),
            v: pbuf(v),
            mask: pbuf(3),
            part: pbuf(4),
            n_past: s.n_past as i32,
            n_head: 24,
            n_kv: s.n_kv as i32,
            hd: 256,
            t: s.t as i32,
            stride: s.stride as i32,
            pos0: s.pos0 as i32,
            seg: s.seg as i32,
        },
        ceil_div(s.t, rows) as u32,
        24,
        ceil_div(s.n_past, s.seg) as u32,
        threads,
    )
}

/// Room for and upload of queries, keys, values, mask, and room for the partial
/// sums.
pub open spec fn prefill_setup(s: Prefill) -> Seq<Cmd> {
    seq![
        spec_proom(0, s.q_words() * 4),
        spec_proom(1, s.kv_words() * 4),
        spec_proom(2, s.kv_words() * 4),
        spec_proom(3, s.mask_words() * 4),
        spec_proom(4, s.part() * 4),
        spec_pput(0, s.q_words() * 4),
        spec_pput(1, s.kv_words() * 4),
        spec_pput(2, s.kv_words() * 4),
        spec_pput(3, s.mask_words() * 4),
    ]
}

/// Word counts of a check: queries, keys or values, mask and partial sums.
#[derive(Clone, Copy, PartialEq, Eq, Structural, Debug)]
pub struct PrefillWords {
    pub q: usize,
    pub kv: usize,
    pub mask: usize,
    pub part: usize,
}

fn prefill_words(s: Prefill) -> (r: PrefillWords)
    requires
        s.sane(),
    ensures
        r.q == s.q_words(),
        r.kv == s.kv_words(),
        r.mask == s.mask_words(),
        r.part == s.part(),
        r.q <= 6291456,
        r.kv <= 4194304,
        r.mask <= 4194304,
        r.part * 4 <= usize::MAX,
{
    let nseg: usize = ceil_div(s.n_past, s.seg);
    proof {
        crate::arith::lemma_ceil_div(s.n_past as int, s.seg as int);
        assert(nseg <= s.n_past) by (nonlinear_arith)
            requires
                nseg * s.seg < s.n_past + s.seg,
                s.seg >= 1,
                nseg >= 0,
                s.n_past >= 1,
        ;
        assert(0 <= s.n_past * s.n_kv <= 16384) by (nonlinear_arith)
            requires
                0 <= s.n_past <= 2048,
                0 <= s.n_kv <= 8,
        ;
        assert(0 <= (s.pos0 + s.t) * s.stride <= 4194304) by (nonlinear_arith)
            requires
                0 <= s.pos0 + s.t <= 2048,
                0 <= s.stride <= 2048,
        ;
    }
    PrefillWords {
        q: s.t * 24 * 2 * 256,
        kv: s.n_past * s.n_kv * 256,
        mask: (s.pos0 + s.t) * s.stride,
        part: part_words(s.t, nseg),
    }
}

fn part_words(t: usize, nseg: usize) -> (r: usize)
    requires
        t * 24 * nseg * 258 <= usize::MAX,
    ensures
        r == t * 24 * nseg * 258,
{
    assert(0 <= t * 24 * nseg <= t * 24 * nseg * 258) by (nonlinear_arith)
        requires
            0 <= t,
            0 <= nseg,
    ;
    assert(t * 24 <= t * 24 * nseg || nseg == 0) by (nonlinear_arith)
        requires
            0 <= t,
            0 <= nseg,
    ;
    if nseg == 0 {
        assert(t * 24 * nseg * 258 == 0) by (nonlinear_arith)
            requires
                nseg == 0,
        ;
        return 0;
    }
    t * 24 * nseg * 258
}

/// The program of the half-precision attention check: keys and values are
/// narrowed, the kernel runs with 16 rows per block, the partial sums come back.
pub open spec fn wmma_program(s: Prefill) -> Seq<Cmd> {
    let kv = s.kv_words();
    let n = kv as i32;
    let gx = spec_ceil_div(kv, 1024) as u32;
    prefill_setup(s) + seq![
        spec_proom(5, kv * 2),
        spec_proom(6, kv * 2),
        spec_launch(Call::KvF16 { src: spec_pbuf(1), dst: spec_pbuf(5), n }, gx, 1, 1, 256),
        spec_launch(Call::KvF16 { src: spec_pbuf(2), dst: spec_pbuf(6), n }, gx, 1, 1, 256),
        prefill_launch(FlashKernel::Wmma2, s, 5, 6, 16, 64),
        Cmd::Sync,
        spec_pget(4, s.part() * 4),
    ]
}

fn prefill_setup_cmds(s: Prefill) -> (r: Vec<Cmd>)
    requires
        s.sane(),
    ensures
        r@ == prefill_setup(s),
{
    let w = prefill_words(s);
    vec![
        proom(0, w.q * 4),
        proom(1, w.kv * 4),
        proom(2, w.kv * 4),
        proom(3, w.mask * 4),
        proom(4, w.part * 4),
        pput(0, w.q * 4),
        pput(1, w.kv * 4),
        pput(2, w.kv * 4),
        pput(3, w.mask * 4),
    ]
}

/// Queries, keys and values of a check modulo `m`, and its mask.
pub open spec fn prefill_inputs(s: Prefill, m: int, limit: int, v: Seq<Vec<u32>>) -> bool {
    &&& v.len() == 4
    &&& v[0]@ == affine(s.q_words(), 1103515245, 12345, m)
    &&& v[1]@ == affine(s.kv_words(), 214013, 2531011, m)
    &&& v[2]@ == affine(s.kv_words(), 1260231, 999983, m)
    &&& v[3]@ == causal(s.pos0 + s.t, s.stride as int, limit)
}

fn prefill_numbers(s: Prefill, m: u64, limit: usize) -> (r: Vec<Vec<u32>>)
    requires
        s.sane(),
        0 < m <= 2000,
        0 < limit <= s.stride,
    ensures
        prefill_inputs(s, m as int, limit as int, r@),
{
    let w = prefill_words(s);
    vec![
        affine_numbers(w.q, 1103515245, 12345, m),
        affine_numbers(w.kv, 214013, 2531011, m),
        affine_numbers(w.kv, 1260231, 999983, m),
        causal_mask(s.pos0 + s.t, s.stride, limit),
    ]
}

/// The check of the half-precision prefill attention. A number `v` stands for
/// `(v - 100) / 200`.
pub fn wmma2_attn_check(size: WmmaSize) -> (r: PrefillCheck)
    ensures
        r.sizes == spec_wmma_sizes(size),
        prefill_inputs(r.sizes, 200, r.sizes.n_past as int, r.inputs@),
        r.cmds@ == wmma_program(r.sizes),
        r.part_words == r.sizes.part(),
{
    let s = match size {
        WmmaSize::Mini => Prefill { n_kv: 8, t: 16, pos0: 0, seg: 16, stride: 256, n_past: 16 },
        WmmaSize::Production => Prefill {
            n_kv: 8,
            t: 512,
            pos0: 1024,
            seg: 1024,
            stride: 2048,
            n_past: 1536,
        },
        WmmaSize::Default => Prefill { n_kv: 8, t: 64, pos0: 32, seg: 16, stride: 256, n_past: 96 },
    };
    proof {
        match size {
            WmmaSize::Mini => {
                assert(s.nseg() == 1);
            },
            WmmaSize::Production => {
                assert(s.nseg() == 2);
            },
            WmmaSize::Default => {
                assert(s.nseg() == 6);
            },
        }
        assert(s.sane());
    }
    let w = prefill_words(s);
    let inputs = prefill_numbers(s, 200, s.n_past);
    let gx: u32 = ceil_div(w.kv, 1024) as u32;
    let n: i32 = w.kv as i32;
    let mut cmds = prefill_setup_cmds(s);
    cmds.push(proom(5, w.kv * 2));
    cmds.push(proom(6, w.kv * 2));
    cmds.push(launch(Call::KvF16 { src: pbuf(1), dst: pbuf(5), n }, gx, 1, 1, 256));
    cmds.push(launch(Call::KvF16 { src: pbuf(2), dst: pbuf(6), n }, gx, 1, 1, 256));
    cmds.push(prefill_cmd(FlashKernel::Wmma2, s, 5, 6, 16, 64));
    cmds.push(Cmd::Sync);
    cmds.push(pget(4, w.part * 4));
    assert(cmds@ =~= wmma_program(s));
    PrefillCheck { sizes: s, inputs, cmds, part_words: w.part }
}

/// The sizes of the comparison of the two prefill kernels.
pub open spec fn attn_sizes() -> Prefill {
    Prefill { n_kv: 4, t: 512, pos0: 1536, seg: 128, stride: 2048, n_past: 2048 }
}

/// The program of the comparison: both kernels leave their partial sums in the
/// same buffer, which is read after each.
pub open spec fn attn_program() -> Seq<Cmd> {
    let s = attn_sizes();
    prefill_setup(s) + seq![
        prefill_launch(FlashKernel::Wk16, s, 1, 2, 16, 256),
        Cmd::Sync,
        spec_pget(4, s.part() * 4),
        prefill_launch(FlashKernel::Wk8, s, 1, 2, 32, 256),
        Cmd::Sync,
        spec_pget(4, s.part() * 4),
    ]
}

/// The comparison of the two prefill kernels on the same inputs. A number `v`
/// stands for `(v - 1000) / 1000`.
pub fn attn_check() -> (r: PrefillCheck)
    ensures
        r.sizes == attn_sizes(),
        prefill_inputs(r.sizes, 2000, 2048, r.inputs@),
        r.cmds@ == attn_program(),
        r.part_words == r.sizes.part(),
{
    let s = Prefill { n_kv: 4, t: 512, pos0: 1536, seg: 128, stride: 2048, n_past: 2048 };
    proof {
        assert(s.nseg() == 16);
        assert(s.sane());
    }
    let w = prefill_words(s);
    let inputs = prefill_numbers(s, 2000, 2048);
    let mut cmds = prefill_setup_cmds(s);
    cmds.push(prefill_cmd(FlashKernel::Wk16, s, 1, 2, 16, 256));
    cmds.push(Cmd::Sync);
    cmds.push(pget(4, w.part * 4));
    cmds.push(prefill_cmd(FlashKernel::Wk8, s, 1, 2, 32, 256));
    cmds.push(Cmd::Sync);
    cmds.push(pget(4, w.part * 4));
    assert(cmds@ =~= attn_program());
    PrefillCheck { sizes: s, inputs, cmds, part_words: w.part }
}

/// Whether word `i` of the partial sums belongs to a sum, not to its maximum or
/// weight.
pub fn is_sum_word(i: usize) -> (r: bool)
    ensures
        r == (i % 258 < 256),
{
    i % 258 < 256
}

} // verus!
