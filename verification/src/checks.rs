//! Inputs and plans of the checks that hold the device against the host.

use vstd::prelude::*;
use crate::acc::Q4Acc;
use crate::arith::{max_usize, min_usize};
use crate::blocks::{q51_counting, q51_value, Q51Block};
use crate::device::{buf, launch, spec_buf, spec_launch, Cmd, Host, Slot};
use crate::error::{AccError, ProbeError};
use crate::ggml::GgmlType;
use crate::kernels::Call;
use crate::qsa_attn::AttnShape;
use crate::synth::{
    draws_from, lemma_draws_shift, lists, seed_after, select_positions, sparse, sparse_mask, Lcg,
    Selection,
};

verus! {

/// Seeds of the generators.
pub const SEED_GOLDEN: u64 = 0x9E37_79B9_7F4A_7C15;

pub const SEED_SHORT: u64 = 0x9e37_79b9;

pub const SEED_DIGITS: u64 = 0x1234_5678;

/// The bit patterns of 1e-6 and 1e-5.
pub const EPS_6: u32 = 0x3586_37bd;

pub const EPS_5: u32 = 0x3727_c5ac;

/// Heads, ranks and head size of the recurrence check.
pub const AR_GROUPS: usize = 16;

pub const AR_RANK: usize = 48;

pub const AR_DIM: usize = 128;

/// The block by which the q5_1 kernel is checked: the values 0 .. 31.
pub fn micro_check() -> (r: Q51Block)
    ensures
        r.bytes@.len() == 24,
        r.bytes@[0] == 0 && r.bytes@[1] == 0x3C,
        r.bytes@[2] == 0 && r.bytes@[3] == 0xB8,
        r.qh == 0xFFFF_0000,
        forall|i: int| 0 <= i < 32 ==> q51_value(r.bytes@, i) == i,
{
    q51_counting()
}

/// Draws in consecutive runs of the given lengths.
pub open spec fn runs(seed: u64, lens: Seq<int>, i: int) -> Seq<u32> {
    draws_from(seed, sum_to(lens, i), lens[i])
}

/// The sum of the first `i` lengths.
pub open spec fn sum_to(lens: Seq<int>, i: int) -> int
    decreases i,
{
    if i <= 0 {
        0
    } else {
        sum_to(lens, i - 1) + lens[i - 1]
    }
}

/// Draws one run per length, each behind the one before.
pub fn draw_runs(seed: u64, lens: &Vec<usize>) -> (r: Vec<Vec<u32>>)
    ensures
        r@.len() == lens@.len(),
        forall|i: int|
            0 <= i < lens@.len() ==> (#[trigger] r@[i])@ == runs(seed, lens_of(lens@), i),
{
    let mut g = Lcg::new(seed);
    let mut r: Vec<Vec<u32>> = Vec::new();
    let ghost ls = lens_of(lens@);
    let mut i: usize = 0;
    while i < lens.len()
        invariant
            ls == lens_of(lens@),
            i <= lens@.len(),
            r@.len() == i,
            sum_to(ls, i as int) >= 0,
            g.seed == seed_after(seed, sum_to(ls, i as int)),
            forall|k: int| 0 <= k < i ==> (#[trigger] r@[k])@ == runs(seed, ls, k),
        decreases lens@.len() - i,
    {
        let n: usize = lens[i];
        let v = g.draws(n);
        proof {
            let from = sum_to(ls, i as int);
            lemma_draws_shift(seed, from, n as int);
            crate::synth::law_draws_continue(seed, from, n as int);
            assert(ls[i as int] == n);
        }
        r.push(v);
        i = i + 1;
    }
    r
}

/// Lengths as numbers.
pub open spec fn lens_of(lens: Seq<usize>) -> Seq<int> {
    Seq::new(lens.len(), |i: int| lens[i] as int)
}

/// The recurrence check: `run_ar_check` plans it as one step of `t` tokens over
/// frames that hold the inputs.
pub struct ArCheck {
    /// Tokens of the step.
    pub t: usize,
    pub n_group: usize,
    pub dt_rank: usize,
    pub d: usize,
    /// Queries, keys, values, beta, g and the state.
    pub inputs: Vec<Vec<u32>>,
    /// Lengths of the frames for queries, keys, values, gates, state and output.
    pub frames: Vec<usize>,
}

/// Lengths of the inputs of the recurrence check.
pub open spec fn ar_input_lens(t: int) -> Seq<int> {
    seq![16 * 128 * t, 16 * 128 * t, 48 * 128 * t, 48 * t, 48 * t, 786432int]
}

/// Lengths of the frames of the recurrence check.
pub open spec fn ar_frame_lens(t: int) -> Seq<int> {
    seq![16 * 128 * t, 16 * 128 * t, 48 * 128 * t, 48 * 2 * t, 786432int, 48 * 128 * t]
}

impl ArCheck {
    /// The check is the one for `t` tokens.
    pub open spec fn checks(&self, t: int) -> bool {
        &&& self.t == t
        &&& self.n_group == AR_GROUPS
        &&& self.dt_rank == AR_RANK
        &&& self.d == AR_DIM
        &&& self.inputs@.len() == 6
        &&& forall|i: int|
            0 <= i < 6 ==> (#[trigger] self.inputs@[i])@ == runs(
                SEED_GOLDEN,
                ar_input_lens(t),
                i,
            )
        &&& lens_of(self.frames@) == ar_frame_lens(t)
    }
}

/// The recurrence check for `t` tokens.
pub fn ar_check_t(t: usize) -> (r: ArCheck)
    requires
        48 * 128 * t <= usize::MAX,
    ensures
        r.checks(t as int),
{
    // Key and value lengths are 16 and 48 heads of 128 values.
    let (k, v): (usize, usize) = (2048 * t, 6144 * t);
    let lens: Vec<usize> = vec![k, k, v, 48 * t, 48 * t, 786432];
    assert(lens_of(lens@) =~= ar_input_lens(t as int));
    let inputs = draw_runs(SEED_GOLDEN, &lens);
    let frames: Vec<usize> = vec![k, k, v, 96 * t, 786432, v];
    assert(lens_of(frames@) =~= ar_frame_lens(t as int));
    ArCheck { t, n_group: AR_GROUPS, dt_rank: AR_RANK, d: AR_DIM, inputs, frames }
}

impl Q4Acc {
    /// Begins a step of the check's tokens and plans the recurrence over all of
    /// them. The handles are those of queries, keys, values, gates, state and output.
    pub fn run_ar_check(&mut self, c: &ArCheck, h: &[u64; 6]) -> (r: Result<Vec<Cmd>, AccError>)
        requires
            c.checks(c.t as int),
        ensures
            *final(self) == (Q4Acc {
                cur_t: vstd::math::max(c.t as int, 1) as usize,
                ..*old(self)
            }),
            match final(self).frame_ptrs(seq![h@[4], h@[0], h@[1], h@[2], h@[3], h@[5]]) {
                Err(e) => r matches Err(f) && f == e,
                Ok(p) => r matches Ok(cs) && cs@ == seq![
                    spec_launch(
                        Call::GdnArSwap {
                            state: p[0],
                            q: p[1],
                            k: p[2],
                            v: p[3],
                            beta_g: p[4],
                            out: p[5],
                            d: 128,
                            k_stride: 2048,
                            v_stride: 6144,
                            h_v: 48,
                            h_k: 16,
                            scale: crate::ops::ONE,
                            t: vstd::math::max(c.t as int, 1) as i32,
                        },
                        128,
                        48,
                        1,
                        32,
                    ),
                ],
            },
    {
        self.frame_begin(c.t);
        self.frame_gdn_ar(h[0], h[1], h[2], h[3], h[4], h[5], 1, c.n_group, c.dt_rank, c.d)
    }
}

/// The recurrence check for one token.
pub fn ar_check() -> (r: ArCheck)
    ensures
        r.checks(1),
{
    ar_check_t(1)
}

/// Two arrays of equal length, element by element in turn.
pub fn interleave(a: &[u32], b: &[u32]) -> (r: Vec<u32>)
    requires
        a@.len() == b@.len(),
        a@.len() * 2 <= usize::MAX,
    ensures
        r@.len() == 2 * a@.len(),
        forall|i: int|
            0 <= i < a@.len() ==> r@[2 * i] == #[trigger] a@[i] && r@[2 * i + 1] == b@[i],
{
    let mut r: Vec<u32> = Vec::new();
    let mut i: usize = 0;
    while i < a.len()
        invariant
            a@.len() == b@.len(),
            i <= a@.len(),
            r@.len() == 2 * i,
            forall|j: int|
                0 <= j < i ==> r@[2 * j] == #[trigger] a@[j] && r@[2 * j + 1] == b@[j],
        decreases a@.len() - i,
    {
        let ghost r0 = r@;
        r.push(a[i]);
        r.push(b[i]);
        proof {
            assert forall|j: int| 0 <= j < i + 1 implies r@[2 * j] == #[trigger] a@[j] && r@[2 * j
                + 1] == b@[j] by {
                if j < i {
                    assert(r@[2 * j] == r0[2 * j] && r@[2 * j + 1] == r0[2 * j + 1]);
                }
            }
        }
        i = i + 1;
    }
    r
}

/// A check with a program over its own buffers; array `i` goes to buffer `i`.
pub struct Scripted {
    pub inputs: Vec<Vec<u32>>,
    pub cmds: Vec<Cmd>,
}

/// Buffer `id` of a probe.
pub open spec fn spec_pbuf(id: usize) -> crate::device::Ptr {
    spec_buf(Slot::Probe { id })
}

pub fn pbuf(id: usize) -> (r: crate::device::Ptr)
    ensures
        r == spec_pbuf(id),
{
    buf(Slot::Probe { id })
}

/// Room of `bytes` in buffer `id`.
pub open spec fn spec_proom(id: usize, bytes: int) -> Cmd {
    Cmd::Ensure { slot: Slot::Probe { id }, bytes: bytes as usize }
}

pub fn proom(id: usize, bytes: usize) -> (r: Cmd)
    ensures
        r == spec_proom(id, bytes as int),
{
    Cmd::Ensure { slot: Slot::Probe { id }, bytes }
}

/// Upload of array `id` to buffer `id`.
pub open spec fn spec_pput(id: usize, bytes: int) -> Cmd {
    Cmd::H2d { dst: spec_pbuf(id), src: Host::Probe { id }, bytes: bytes as usize }
}

pub fn pput(id: usize, bytes: usize) -> (r: Cmd)
    ensures
        r == spec_pput(id, bytes as int),
{
    Cmd::H2d { dst: pbuf(id), src: Host::Probe { id }, bytes }
}

/// Download of buffer `id` to array `id`.
pub open spec fn spec_pget(id: usize, bytes: int) -> Cmd {
    Cmd::D2h { dst: Host::Probe { id }, src: spec_pbuf(id), bytes: bytes as usize }
}

pub fn pget(id: usize, bytes: usize) -> (r: Cmd)
    ensures
        r == spec_pget(id, bytes as int),
{
    Cmd::D2h { dst: Host::Probe { id }, src: pbuf(id), bytes }
}

/// Inputs of the gating kernel, by length: residual, key, value and the three
/// norms.
pub open spec fn gate_lens() -> Seq<int> {
    seq![10240int, 10240int, 2560int, 10240int, 10240int, 10240int]
}

/// The program that runs the gating kernel once.
pub open spec fn gate_program() -> Seq<Cmd> {
    seq![
        spec_proom(0, 40960),
        spec_proom(1, 40960),
        spec_proom(2, 10240),
        spec_proom(3, 40960),
        spec_proom(4, 40960),
        spec_proom(5, 40960),
        spec_proom(6, 40960),
        spec_proom(7, 16),
        spec_pput(0, 40960),
        spec_pput(1, 40960),
        spec_pput(2, 10240),
        spec_pput(3, 40960),
        spec_pput(4, 40960),
        spec_pput(5, 40960),
        spec_launch(
            Call::PleGate {
                res: spec_pbuf(0),
                key: spec_pbuf(1),
                value: spec_pbuf(2),
                nk: spec_pbuf(3),
                nq: spec_pbuf(4),
                nc: spec_pbuf(5),
                gated: spec_pbuf(6),
                gate_out: spec_pbuf(7),
                eps: EPS_6,
                n_embd: 2560,
                hc: 4,
                t: 1,
            },
            1,
            1,
            1,
            256,
        ),
        spec_pget(7, 16),
        spec_pget(6, 40960),
    ]
}

/// Compares the gating kernel over 2560 values and four streams. The norms are
/// 0.8 plus the magnitude of their draws.
pub fn ple_gate_check() -> (r: Scripted)
    ensures
        r.inputs@.len() == 6,
        forall|i: int|
            0 <= i < 6 ==> (#[trigger] r.inputs@[i])@ == runs(SEED_GOLDEN, gate_lens(), i),
        r.cmds@ == gate_program(),
{
    let (n_embd, hc): (usize, usize) = (2560, 4);
    let hc_dim: usize = hc * n_embd;
    let lens: Vec<usize> = vec![hc_dim, hc_dim, n_embd, hc_dim, hc_dim, hc_dim];
    assert(lens_of(lens@) =~= gate_lens());
    let inputs = draw_runs(SEED_GOLDEN, &lens);
    let cmds: Vec<Cmd> = vec![
        proom(0, hc_dim * 4),
        proom(1, hc_dim * 4),
        proom(2, n_embd * 4),
        proom(3, hc_dim * 4),
        proom(4, hc_dim * 4),
        proom(5, hc_dim * 4),
        proom(6, hc_dim * 4),
        proom(7, hc * 4),
        pput(0, hc_dim * 4),
        pput(1, hc_dim * 4),
        pput(2, n_embd * 4),
        pput(3, hc_dim * 4),
        pput(4, hc_dim * 4),
        pput(5, hc_dim * 4),
        launch(
            Call::PleGate {
                res: pbuf(0),
                key: pbuf(1),
                value: pbuf(2),
                nk: pbuf(3),
                nq: pbuf(4),
                nc: pbuf(5),
                gated: pbuf(6),
                gate_out: pbuf(7),
                eps: EPS_6,
                n_embd: 2560,
                hc: 4,
                t: 1,
            },
            1,
            1,
            1,
            256,
        ),
        pget(7, hc * 4),
        pget(6, hc_dim * 4),
    ];
    Scripted { inputs, cmds }
}

/// The inputs of the attention check: queries, keys and values as draws, the
/// mask, and the same mask as lists.
pub struct QsaCheck {
    pub shape: AttnShape,
    pub inputs: Vec<Vec<u32>>,
    pub mask: Vec<u32>,
    pub sel: Selection,
}

/// Lengths of the inputs of the attention check.
pub open spec fn qsa_lens(t: int, n_past: int) -> Seq<int> {
    seq![t * 24 * 2 * 256, n_past * 2 * 256, n_past * 2 * 256]
}

/// The attention check for `t` tokens over `n_past` positions.
pub fn qsa_check(t: usize, n_past: usize) -> (r: QsaCheck)
    requires
        t <= n_past,
        n_past * 12288 <= usize::MAX,
        t * n_past <= u32::MAX,
    ensures
        r.shape == (AttnShape { scale: crate::ops::ONE, n_head: 24, n_kv: 2, hd: 256, t }),
        r.inputs@.len() == 3,
        forall|i: int|
            0 <= i < 3 ==> (#[trigger] r.inputs@[i])@ == runs(
                SEED_SHORT,
                qsa_lens(t as int, n_past as int),
                i,
            ),
        r.mask@ == sparse(t as int, n_past as int),
        r.sel.idx@ == lists(r.mask@, n_past as int, t as int),
        r.sel.off@.len() == t + 1,
        forall|tok: int|
            0 <= tok <= t ==> #[trigger] r.sel.off@[tok] == lists(
                r.mask@,
                n_past as int,
                tok,
            ).len(),
{
    let (n_head, n_kv, hd): (usize, usize, usize) = (24, 2, 256);
    let lens: Vec<usize> = vec![t * n_head * 2 * hd, n_past * n_kv * hd, n_past * n_kv * hd];
    assert(lens_of(lens@) =~= qsa_lens(t as int, n_past as int));
    let inputs = draw_runs(SEED_SHORT, &lens);
    let mask = sparse_mask(t, n_past);
    let sel = select_positions(&mask, t, n_past);
    QsaCheck {
        shape: AttnShape { scale: crate::ops::ONE, n_head, n_kv, hd, t },
        inputs,
        mask,
        sel,
    }
}

/// The inputs of the stream check: frame lengths and draws.
pub struct HcCheck {
    /// Tokens of the step.
    pub t: usize,
    /// Lengths of the frames: normed streams, gates, mix, residual, output and
    /// injection.
    pub frames: Vec<usize>,
    /// Normed streams, gates, residual, output and injection.
    pub inputs: Vec<Vec<u32>>,
}

pub open spec fn hc_input_lens(t: int, n: int, hc: int) -> Seq<int> {
    seq![t * hc * n, t * hc * n, t * hc * n, t * n, t * hc]
}

pub open spec fn hc_frame_lens(t: int, n: int, hc: int) -> Seq<int> {
    seq![t * hc * n, t * hc * n, t * n, t * hc * n, t * n, t * hc]
}

/// The stream check for `t` tokens of `hc` streams of `n` values.
pub fn hc_check(t: usize, n: usize, hc: usize) -> (r: HcCheck)
    requires
        t * hc <= usize::MAX,
        t * n <= usize::MAX,
        t * hc * n <= usize::MAX,
    ensures
        r.t == t,
        lens_of(r.frames@) == hc_frame_lens(t as int, n as int, hc as int),
        r.inputs@.len() == 5,
        forall|i: int|
            0 <= i < 5 ==> (#[trigger] r.inputs@[i])@ == runs(
                SEED_DIGITS,
                hc_input_lens(t as int, n as int, hc as int),
                i,
            ),
{
    let all: usize = t * hc * n;
    let lens: Vec<usize> = vec![all, all, all, t * n, t * hc];
    assert(lens_of(lens@) =~= hc_input_lens(t as int, n as int, hc as int));
    let inputs = draw_runs(SEED_DIGITS, &lens);
    let frames: Vec<usize> = vec![all, all, t * n, all, t * n, t * hc];
    assert(lens_of(frames@) =~= hc_frame_lens(t as int, n as int, hc as int));
    HcCheck { t, frames, inputs }
}

/// The host computation that mirrors a type's kernel.
#[derive(Clone, Copy, PartialEq, Eq, Structural, Debug)]
pub enum Mirror {
    /// A double-precision dot product over the widened row.
    Dequantised,
    Q4k,
    Q5k,
    Q6k,
    Q3k,
    Q8,
    Q51,
    Iq4Nl,
    Iq3S,
    Iq4Xs,
}

/// The mirror of a type, where there is one.
pub open spec fn spec_mirror(ty: GgmlType) -> Option<Mirror> {
    match ty {
        GgmlType::F32 => Some(Mirror::Dequantised),
        GgmlType::Bf16 => Some(Mirror::Dequantised),
        GgmlType::F16 => Some(Mirror::Dequantised),
        GgmlType::Q4K => Some(Mirror::Q4k),
        GgmlType::Q5K => Some(Mirror::Q5k),
        GgmlType::Q6K => Some(Mirror::Q6k),
        GgmlType::Q3K => Some(Mirror::Q3k),
        GgmlType::Q8_0 => Some(Mirror::Q8),
        GgmlType::Q5_1 => Some(Mirror::Q51),
        GgmlType::Iq4Nl => Some(Mirror::Iq4Nl),
        GgmlType::Iq3S => Some(Mirror::Iq3S),
        GgmlType::Iq4Xs => Some(Mirror::Iq4Xs),
        GgmlType::Other(_) => None,
    }
}

fn mirror_of(ty: GgmlType) -> (r: Option<Mirror>)
    ensures
        r == spec_mirror(ty),
{
    match ty {
        GgmlType::F32 => Some(Mirror::Dequantised),
        GgmlType::Bf16 => Some(Mirror::Dequantised),
        GgmlType::F16 => Some(Mirror::Dequantised),
        GgmlType::Q4K => Some(Mirror::Q4k),
        GgmlType::Q5K => Some(Mirror::Q5k),
        GgmlType::Q6K => Some(Mirror::Q6k),
        GgmlType::Q3K => Some(Mirror::Q3k),
        GgmlType::Q8_0 => Some(Mirror::Q8),
        GgmlType::Q5_1 => Some(Mirror::Q51),
        GgmlType::Iq4Nl => Some(Mirror::Iq4Nl),
        GgmlType::Iq3S => Some(Mirror::Iq3S),
        GgmlType::Iq4Xs => Some(Mirror::Iq4Xs),
        GgmlType::Other(_) => None,
    }
}

/// A slice of a tensor to check: bytes per row, rows, the mirror, and one run of
/// draws per token.
pub struct CheckTensor {
    pub row_bytes: usize,
    pub n_out: usize,
    pub mirror: Option<Mirror>,
    pub xs: Vec<Vec<u32>>,
}

/// The check of the first `rows_max` rows of a tensor whose type packs `blck`
/// values into `bsize` bytes, over `t` tokens. A type without a mirror is
/// refused where there is a row to compare.
pub fn check_tensor(
    ty: GgmlType,
    n_in: usize,
    n_out: usize,
    blck: usize,
    bsize: usize,
    t: usize,
    rows_max: usize,
) -> (r: Result<CheckTensor, ProbeError>)
    requires
        blck > 0,
        n_in / blck * bsize <= usize::MAX,
    ensures
        if spec_mirror(ty) is None && t > 0 && n_out > 0 {
            r == Err::<CheckTensor, ProbeError>(ProbeError::Type { ty })
        } else {
            r matches Ok(c) && {
                &&& c.row_bytes == n_in / blck * bsize
                &&& c.n_out == vstd::math::min(n_out as int, vstd::math::max(rows_max as int, 1))
                &&& c.mirror == spec_mirror(ty)
                &&& c.xs@.len() == t
                &&& forall|i: int|
                    0 <= i < t ==> (#[trigger] c.xs@[i])@ == draws_from(
                        SEED_DIGITS,
                        i * n_in,
                        n_in as int,
                    )
            }
        },
{
    let mirror = mirror_of(ty);
    if mirror.is_none() && t > 0 && n_out > 0 {
        return Err(ProbeError::Type { ty });
    }
    let xs = token_draws(SEED_DIGITS, t, n_in);
    Ok(
        CheckTensor {
            row_bytes: n_in / blck * bsize,
            n_out: min_usize(n_out, max_usize(rows_max, 1)),
            mirror,
            xs,
        },
    )
}

/// One run of `n` draws for each of `t` tokens.
pub fn token_draws(seed: u64, t: usize, n: usize) -> (r: Vec<Vec<u32>>)
    ensures
        r@.len() == t,
        forall|i: int| 0 <= i < t ==> (#[trigger] r@[i])@ == draws_from(seed, i * n, n as int),
{
    let mut g = Lcg::new(seed);
    let mut r: Vec<Vec<u32>> = Vec::new();
    let mut i: usize = 0;
    while i < t
        invariant
            i <= t,
            r@.len() == i,
            g.seed == seed_after(seed, i * n),
            forall|k: int| 0 <= k < i ==> (#[trigger] r@[k])@ == draws_from(seed, k * n, n as int),
        decreases t - i,
    {
        let v = g.draws(n);
        proof {
            assert(0 <= i * n && (i + 1) * n == i * n + n) by (nonlinear_arith)
                requires
                    0 <= i,
                    0 <= n,
            ;
            lemma_draws_shift(seed, i * n, n as int);
            crate::synth::law_draws_continue(seed, i * n, n as int);
        }
        r.push(v);
        i = i + 1;
    }
    r
}

} // verus!
