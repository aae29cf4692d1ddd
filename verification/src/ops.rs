//! Elementwise, recurrent and routing operations on frames.

use vstd::prelude::*;
use crate::acc::Q4Acc;
use crate::arith::{ceil_div, max_usize, spec_ceil_div};
use crate::device::{buf, launch, spec_buf, spec_launch, Cmd, Ptr, Slot};
use crate::error::AccError;
use crate::kernels::Call;

verus! {

/// The bit pattern of 1.0.
pub const ONE: u32 = 0x3f80_0000;

/// An operation on frames; frames are given by their handles.
#[allow(inconsistent_fields)]
#[derive(Clone, Copy, PartialEq, Eq, Structural, Debug)]
pub enum FrameOp {
    SiluDiv { t: u64, div: u32, n: usize },
    SiluMul { g: u64, u: u64, out: u64, n: usize },
    Sigmoid { t: u64, n: usize },
    RmsRows { x: u64, w: u64, out: u64, eps: u32, n: usize, w_reps: usize },
    NormGated { o: u64, z: u64, w: u64, out: u64, eps: u32, d: usize, n_h: usize },
    L2Rows { x: u64, eps: u32, d: usize, n: usize },
    Scale { t: u64, s: u32, n: usize },
    BcastRows { src: u64, dst: u64, n: usize, rows: usize },
    CopyRows { src: u64, dst: u64, src_off: usize, dst_off: usize, n: usize },
    HcGateMean { xn: u64, gate: u64, out: u64, hc: usize, n: usize },
    HcCombine { res: u64, out: u64, inj: u64, hc: usize, n: usize },
    Split3 { src: u64, d0: u64, d1: u64, d2: u64, n0: usize, n1: usize, n2: usize },
    GdnBetaG { b: u64, a: u64, dtb: u64, sa: u64, bg: u64, n_h: usize },
    GdnConv { qkv: u64, cw: u64, state: u64, out: u64, ch: usize, k: usize, t_len: usize },
    MoeTop10 { route: u64, ids: u64, wt: u64, n_exp: usize, k_sel: usize },
    MoeWeightedSum { ys: u64, wt: u64, out: u64, k: usize, n: usize },
    AxpyScaled { y: u64, x: u64, s: u64, n: usize },
    /// Any other operation.
    Other,
}

/// Blocks of `per` threads over `n` elements, counted in 32 bits.
pub open spec fn spec_blocks(n: int, per: int) -> u32 {
    spec_ceil_div(n as u32 as int, per) as u32
}

pub fn blocks(n: usize, per: u32) -> (r: u32)
    requires
        per > 0,
    ensures
        r == spec_blocks(n as int, per as int),
{
    let low: u32 = n as u32;
    ceil_div(low as usize, per as usize) as u32
}

/// The frames of an operation, in the order in which they are looked up.
pub open spec fn op_handles(op: FrameOp) -> Seq<u64> {
    match op {
        FrameOp::SiluDiv { t, .. } => seq![t],
        FrameOp::SiluMul { g, u, out, .. } => seq![g, u, out],
        FrameOp::Sigmoid { t, .. } => seq![t],
        FrameOp::RmsRows { x, w, out, .. } => seq![x, w, out],
        FrameOp::NormGated { o, z, w, out, .. } => seq![o, z, w, out],
        FrameOp::L2Rows { x, .. } => seq![x],
        FrameOp::Scale { t, .. } => seq![t],
        FrameOp::BcastRows { src, dst, .. } => seq![src, dst],
        FrameOp::CopyRows { src, dst, .. } => seq![src, dst],
        FrameOp::HcGateMean { xn, gate, out, .. } => seq![xn, gate, out],
        FrameOp::HcCombine { res, out, inj, .. } => seq![res, out, inj],
        FrameOp::Split3 { src, d0, d1, d2, .. } => seq![src, d0, d1, d2],
        FrameOp::GdnBetaG { b, a, dtb, sa, bg, .. } => seq![b, a, dtb, sa, bg],
        FrameOp::GdnConv { qkv, cw, state, out, .. } => seq![qkv, cw, state, out],
        FrameOp::MoeTop10 { route, ids, wt, .. } => seq![route, ids, wt],
        FrameOp::MoeWeightedSum { ys, wt, out, .. } => seq![ys, wt, out],
        FrameOp::AxpyScaled { y, x, s, .. } => seq![y, x, s],
        FrameOp::Other => Seq::empty(),
    }
}

fn handles_of(op: &FrameOp) -> (r: Vec<u64>)
    ensures
        r@ == op_handles(*op),
{
    match *op {
        FrameOp::SiluDiv { t, .. } => vec![t],
        FrameOp::SiluMul { g, u, out, .. } => vec![g, u, out],
        FrameOp::Sigmoid { t, .. } => vec![t],
        FrameOp::RmsRows { x, w, out, .. } => vec![x, w, out],
        FrameOp::NormGated { o, z, w, out, .. } => vec![o, z, w, out],
        FrameOp::L2Rows { x, .. } => vec![x],
        FrameOp::Scale { t, .. } => vec![t],
        FrameOp::BcastRows { src, dst, .. } => vec![src, dst],
        FrameOp::CopyRows { src, dst, .. } => vec![src, dst],
        FrameOp::HcGateMean { xn, gate, out, .. } => vec![xn, gate, out],
        FrameOp::HcCombine { res, out, inj, .. } => vec![res, out, inj],
        FrameOp::Split3 { src, d0, d1, d2, .. } => vec![src, d0, d1, d2],
        FrameOp::GdnBetaG { b, a, dtb, sa, bg, .. } => vec![b, a, dtb, sa, bg],
        FrameOp::GdnConv { qkv, cw, state, out, .. } => vec![qkv, cw, state, out],
        FrameOp::MoeTop10 { route, ids, wt, .. } => vec![route, ids, wt],
        FrameOp::MoeWeightedSum { ys, wt, out, .. } => vec![ys, wt, out],
        FrameOp::AxpyScaled { y, x, s, .. } => vec![y, x, s],
        FrameOp::Other => Vec::new(),
    }
}

/// The numbers of an operation for `t` tokens can be counted, and it divides by
/// no zero.
pub open spec fn op_fits(op: FrameOp, t: int, p: Seq<Ptr>) -> bool {
    match op {
        FrameOp::RmsRows { w_reps, .. } => w_reps * t * 256 <= usize::MAX,
        FrameOp::NormGated { n_h, .. } => n_h * t <= usize::MAX,
        FrameOp::L2Rows { d, .. } => d > 0,
        FrameOp::HcGateMean { n, .. } => n * t <= usize::MAX,
        FrameOp::HcCombine { n, .. } => n * t <= usize::MAX,
        FrameOp::Split3 { n0, n1, n2, .. } => n0 + n1 + n2 <= usize::MAX && (n0 + n1 + n2) * t
            <= usize::MAX,
        FrameOp::GdnConv { ch, k, t_len, .. } => t_len == 1 || k >= 1 && p[0].offset() + t_len * ch
            * 4 <= usize::MAX && p[3].offset() + t_len * ch * 4 <= usize::MAX,
        FrameOp::MoeWeightedSum { n, .. } => n * t <= usize::MAX,
        _ => true,
    }
}

/// One step of the token-by-token convolution: token `i` of a short tail.
pub open spec fn conv_step(q: Ptr, c: Ptr, s: Ptr, o: Ptr, ch: usize, k: usize, i: int) -> Cmd {
    spec_launch(
        Call::GdnConv {
            qkv: q.spec_at(i * ch * 4),
            cw: c,
            state: s,
            out: o.spec_at(i * ch * 4),
            ch: ch as i32,
            k: k as i32,
        },
        spec_blocks(ch as int, 64),
        1,
        1,
        64,
    )
}

/// The commands of an operation for `t` tokens, over the addresses of its
/// frames.
pub open spec fn op_cmds(rms_small: bool, op: FrameOp, t: int, p: Seq<Ptr>) -> Seq<Cmd> {
    match op {
        FrameOp::SiluDiv { t: _, div, n } => seq![
            spec_launch(Call::SiluDiv { t: p[0], div, n: n as i32 }, spec_blocks(n as int, 128), 1, 1, 128),
        ],
        FrameOp::SiluMul { n, .. } => seq![
            spec_launch(
                Call::SiluMul { g: p[0], u: p[1], out: p[2], n: n as i32 },
                spec_blocks(n as int, 128),
                1,
                1,
                128,
            ),
        ],
        FrameOp::Sigmoid { t: _, n } => seq![
            spec_launch(Call::Sigmoid { t: p[0], n: n as i32 }, spec_blocks(n as int, 128), 1, 1, 128),
        ],
        FrameOp::RmsRows { eps, n, w_reps, .. } => {
            let rows = w_reps * t;
            if rows <= 32 && rms_small {
                seq![
                    spec_launch(
                        Call::RmsSmall {
                            x: p[0],
                            w: p[1],
                            out: p[2],
                            eps,
                            n: n as i32,
                            rows: rows as i32,
                            w_reps: w_reps as i32,
                        },
                        spec_ceil_div(rows, 8) as u32,
                        1,
                        1,
                        256,
                    ),
                ]
            } else {
                let part = spec_buf(Slot::Fpart);
                seq![
                    Cmd::Ensure { slot: Slot::Fpart, bytes: (rows * 32 * 8) as usize },
                    spec_launch(Call::RmsPart { x: p[0], part, n: n as i32 }, rows as u32, 1, 1, 32),
                    spec_launch(
                        Call::RmsFinish {
                            x: p[0],
                            w: p[1],
                            part,
                            out: p[2],
                            eps,
                            n: n as i32,
                            w_reps: w_reps as i32,
                        },
                        rows as u32,
                        1,
                        1,
                        256,
                    ),
                ]
            }
        },
        FrameOp::NormGated { eps, d, n_h, .. } => seq![
            spec_launch(
                Call::NormGated {
                    o: p[0],
                    z: p[1],
                    w: p[2],
                    out: p[3],
                    eps,
                    d: d as i32,
                    n_h: n_h as i32,
                },
                n_h as u32,
                (n_h * t / vstd::math::max(n_h as int, 1)) as u32,
                1,
                32,
            ),
        ],
        FrameOp::L2Rows { x: _, eps, d, n } => seq![
            spec_launch(
                Call::L2Rows { x: p[0], eps, d: d as i32 },
                vstd::math::max(n as int / d as int, 1) as u32,
                1,
                1,
                32,
            ),
        ],
        FrameOp::Scale { t: _, s, n } => seq![
            spec_launch(Call::Scale { t: p[0], s, n: n as i32 }, spec_blocks(n as int, 128), 1, 1, 128),
        ],
        FrameOp::BcastRows { n, rows, .. } => seq![
            spec_launch(
                Call::BcastRows { src: p[0], dst: p[1], n: n as i32, rows: rows as i32 },
                spec_blocks(n as int, 128),
                rows as u32,
                1,
                128,
            ),
        ],
        FrameOp::CopyRows { src_off, dst_off, n, .. } => seq![
            spec_launch(
                Call::CopyRows {
                    src: p[0],
                    dst: p[1],
                    src_off: src_off as i32,
                    dst_off: dst_off as i32,
                    n: n as i32,
                },
                spec_blocks(n as int, 128),
                1,
                1,
                128,
            ),
        ],
        FrameOp::HcGateMean { hc, n, .. } => seq![
            spec_launch(
                Call::HcGateMean {
                    xn: p[0],
                    gate: p[1],
                    out: p[2],
                    hc: hc as i32,
                    n: n as i32,
                    total: (n * t) as i32,
                },
                spec_blocks(n * t, 128),
                1,
                1,
                128,
            ),
        ],
        FrameOp::HcCombine { hc, n, .. } => seq![
            spec_launch(
                Call::HcCombine {
                    res: p[0],
                    out: p[1],
                    inj: p[2],
                    hc: hc as i32,
                    n: n as i32,
                    total: (n * t) as i32,
                },
                spec_blocks(n * t, 128),
                1,
                1,
                128,
            ),
        ],
        FrameOp::Split3 { n0, n1, n2, .. } => seq![
            spec_launch(
                Call::Split3 {
                    src: p[0],
                    d0: p[1],
                    d1: p[2],
                    d2: p[3],
                    n0: n0 as i32,
                    n1: n1 as i32,
                    n2: n2 as i32,
                },
                spec_blocks((n0 + n1 + n2) * t, 128),
                1,
                1,
                128,
            ),
        ],
        FrameOp::GdnBetaG { n_h, .. } => seq![
            spec_launch(
                Call::GdnBetaG {
                    b: p[0],
                    a: p[1],
                    dtb: p[2],
                    sa: p[3],
                    bg: p[4],
                    n_h: n_h as i32,
                    dt_rank: (n_h as int / t) as i32,
                },
                spec_blocks(n_h as int, 128),
                1,
                1,
                128,
            ),
        ],
        FrameOp::GdnConv { ch, k, t_len, .. } => if t_len == 1 {
            seq![
                spec_launch(
                    Call::GdnConv {
                        qkv: p[0],
                        cw: p[1],
                        state: p[2],
                        out: p[3],
                        ch: ch as i32,
                        k: k as i32,
                    },
                    spec_blocks(ch as int, 64),
                    1,
                    1,
                    64,
                ),
            ]
        } else if t_len >= k - 1 {
            seq![
                spec_launch(
                    Call::GdnConvT2 {
                        qkv: p[0],
                        cw: p[1],
                        state: p[2],
                        out: p[3],
                        ch: ch as i32,
                        k: k as i32,
                        t: t_len as i32,
                    },
                    spec_blocks(ch as int, 64),
                    t_len as u32,
                    1,
                    64,
                ),
                spec_launch(
                    Call::GdnConvState {
                        qkv: p[0],
                        state: p[2],
                        ch: ch as i32,
                        k: k as i32,
                        t: t_len as i32,
                    },
                    (k - 1) as u32,
                    spec_blocks(ch as int, 64),
                    1,
                    64,
                ),
            ]
        } else {
            Seq::new(t_len as nat, |i: int| conv_step(p[0], p[1], p[2], p[3], ch, k, i))
        },
        FrameOp::MoeTop10 { n_exp, k_sel, .. } => seq![
            spec_launch(
                Call::MoeTop10 {
                    route: p[0],
                    ids: p[1],
                    wt: p[2],
                    n_exp: n_exp as i32,
                    k_sel: k_sel as i32,
                },
                t as u32,
                1,
                1,
                32,
            ),
        ],
        FrameOp::MoeWeightedSum { k, n, .. } => seq![
            spec_launch(
                Call::MoeWeightedSum {
                    ys: p[0],
                    wt: p[1],
                    out: p[2],
                    k: k as i32,
                    n: (n * t) as i32,
                },
                spec_blocks(n * t, 128),
                1,
                1,
                128,
            ),
        ],
        FrameOp::AxpyScaled { n, .. } => if t <= 1 {
            seq![
                spec_launch(
                    Call::AxpyScaled { y: p[0], x: p[1], s: p[2], n: n as i32 },
                    spec_blocks(n as int, 128),
                    1,
                    1,
                    128,
                ),
            ]
        } else {
            seq![
                spec_launch(
                    Call::AxpyScaledT {
                        y: p[0],
                        x: p[1],
                        s: p[2],
                        n: n as i32,
                        per: (n as int / t) as i32,
                    },
                    spec_blocks(n as int, 128),
                    1,
                    1,
                    128,
                ),
            ]
        },
        FrameOp::Other => Seq::empty(),
    }
}

/// A program of one command.
pub fn one(c: Cmd) -> (r: Vec<Cmd>)
    ensures
        r@ == seq![c],
{
    vec![c]
}

/// Row norms: one fused launch for few rows where asked for, else two.
fn rms_cmds(rms_small: bool, eps: u32, n: usize, w_reps: usize, rows: usize, p: &Vec<Ptr>) -> (r:
    Vec<Cmd>)
    requires
        p@.len() == 3,
        rows * 256 <= usize::MAX,
    ensures
        forall|op: FrameOp, t: int|
            op matches FrameOp::RmsRows { eps: e, n: m, w_reps: w, .. } && e == eps && m == n && w
                == w_reps && rows == w_reps * t ==> r@ == #[trigger] op_cmds(
                rms_small,
                op,
                t,
                p@,
            ),
{
    if rows <= 32 && rms_small {
        return one(
            launch(
                Call::RmsSmall {
                    x: p[0],
                    w: p[1],
                    out: p[2],
                    eps,
                    n: n as i32,
                    rows: rows as i32,
                    w_reps: w_reps as i32,
                },
                ceil_div(rows, 8) as u32,
                1,
                1,
                256,
            ),
        );
    }
    let part = buf(Slot::Fpart);
    vec![
        Cmd::Ensure { slot: Slot::Fpart, bytes: rows * 32 * 8 },
        launch(Call::RmsPart { x: p[0], part, n: n as i32 }, rows as u32, 1, 1, 32),
        launch(
            Call::RmsFinish {
                x: p[0],
                w: p[1],
                part,
                out: p[2],
                eps,
                n: n as i32,
                w_reps: w_reps as i32,
            },
            rows as u32,
            1,
            1,
            256,
        ),
    ]
}

/// The convolution over time: one token, a whole chunk, or a short tail token
/// by token.
fn conv_cmds(ch: usize, k: usize, t_len: usize, p: &Vec<Ptr>) -> (r: Vec<Cmd>)
    requires
        p@.len() == 4,
        t_len == 1 || k >= 1 && p@[0].offset() + t_len * ch * 4 <= usize::MAX && p@[3].offset()
            + t_len * ch * 4 <= usize::MAX,
    ensures
        forall|op: FrameOp, s: bool, t: int|
            op matches FrameOp::GdnConv { ch: c, k: m, t_len: l, .. } && c == ch && m == k && l
                == t_len ==> r@ == #[trigger] op_cmds(s, op, t, p@),
{
    let (q, c, s, o): (Ptr, Ptr, Ptr, Ptr) = (p[0], p[1], p[2], p[3]);
    let gx: u32 = blocks(ch, 64);
    if t_len == 1 {
        return one(
            launch(
                Call::GdnConv { qkv: q, cw: c, state: s, out: o, ch: ch as i32, k: k as i32 },
                gx,
                1,
                1,
                64,
            ),
        );
    }
    if t_len >= k - 1 {
        return vec![
            launch(
                Call::GdnConvT2 {
                    qkv: q,
                    cw: c,
                    state: s,
                    out: o,
                    ch: ch as i32,
                    k: k as i32,
                    t: t_len as i32,
                },
                gx,
                t_len as u32,
                1,
                64,
            ),
            launch(
                Call::GdnConvState { qkv: q, state: s, ch: ch as i32, k: k as i32, t: t_len as i32 },
                (k - 1) as u32,
                gx,
                1,
                64,
            ),
        ];
    }
    let mut r: Vec<Cmd> = Vec::new();
    let mut i: usize = 0;
    while i < t_len
        invariant
            i <= t_len,
            q.offset() + t_len * ch * 4 <= usize::MAX,
            o.offset() + t_len * ch * 4 <= usize::MAX,
            gx == spec_blocks(ch as int, 64),
            r@.len() == i,
            forall|j: int| 0 <= j < i ==> #[trigger] r@[j] == conv_step(q, c, s, o, ch, k, j),
        decreases t_len - i,
    {
        assert(0 <= i * ch <= i * ch * 4 <= t_len * ch * 4) by (nonlinear_arith)
            requires
                0 <= i <= t_len,
                0 <= ch,
        ;
        let off: usize = i * ch * 4;
        r.push(
            launch(
                Call::GdnConv {
                    qkv: q.at(off),
                    cw: c,
                    state: s,
                    out: o.at(off),
                    ch: ch as i32,
                    k: k as i32,
                },
                gx,
                1,
                1,
                64,
            ),
        );
        i = i + 1;
    }
    assert(r@ =~= Seq::new(t_len as nat, |i: int| conv_step(p@[0], p@[1], p@[2], p@[3], ch, k, i)));
    r
}

impl Q4Acc {
    /// The program of an operation, or why there is none.
    pub open spec fn op_program(&self, op: FrameOp) -> Result<Seq<Cmd>, AccError> {
        match self.frame_ptrs(op_handles(op)) {
            Err(e) => Err(e),
            Ok(p) => if op is Other {
                Err(AccError::UnsupportedOp)
            } else {
                Ok(op_cmds(self.tuning.rms_small, op, self.spec_t(), p))
            },
        }
    }

    /// Plans an operation on frames. A new routing starts a new generation, which
    /// outdates grouping tables and shared activations.
    pub fn frame_op(&mut self, op: &FrameOp) -> (r: Result<Vec<Cmd>, AccError>)
        requires
            old(self).frame_ptrs(op_handles(*op)) matches Ok(p) ==> op_fits(
                *op,
                old(self).spec_t(),
                p,
            ),
        ensures
            *final(self) == (if op is MoeTop10 {
                Q4Acc { moe_gen: old(self).moe_gen.wrapping_add(1), ..*old(self) }
            } else {
                *old(self)
            }),
            match old(self).op_program(*op) {
                Ok(c) => r matches Ok(v) && v@ == c,
                Err(e) => r matches Err(f) && f == e,
            },
    {
        let hs = handles_of(op);
        let ptrs = self.fptrs(&hs);
        match *op {
            FrameOp::MoeTop10 { .. } => {
                self.moe_gen = self.moe_gen.wrapping_add(1);
            },
            _ => {},
        }
        let p = match ptrs {
            Ok(v) => v,
            Err(e) => {
                return Err(e);
            },
        };
        let t: usize = self.t_cur();
        let cmds = match *op {
            FrameOp::SiluDiv { t: _, div, n } => one(
                launch(Call::SiluDiv { t: p[0], div, n: n as i32 }, blocks(n, 128), 1, 1, 128),
            ),
            FrameOp::SiluMul { n, .. } => one(
                launch(
                    Call::SiluMul { g: p[0], u: p[1], out: p[2], n: n as i32 },
                    blocks(n, 128),
                    1,
                    1,
                    128,
                ),
            ),
            FrameOp::Sigmoid { t: _, n } => one(
                launch(Call::Sigmoid { t: p[0], n: n as i32 }, blocks(n, 128), 1, 1, 128),
            ),
            FrameOp::RmsRows { eps, n, w_reps, .. } => {
                assert(w_reps * t <= w_reps * t * 256) by (nonlinear_arith);
                rms_cmds(self.tuning.rms_small, eps, n, w_reps, w_reps * t, &p)
            },
            FrameOp::NormGated { eps, d, n_h, .. } => one(
                launch(
                    Call::NormGated {
                        o: p[0],
                        z: p[1],
                        w: p[2],
                        out: p[3],
                        eps,
                        d: d as i32,
                        n_h: n_h as i32,
                    },
                    n_h as u32,
                    (n_h * t / max_usize(n_h, 1)) as u32,
                    1,
                    32,
                ),
            ),
            FrameOp::L2Rows { x: _, eps, d, n } => one(
                launch(
                    Call::L2Rows { x: p[0], eps, d: d as i32 },
                    max_usize(n / d, 1) as u32,
                    1,
                    1,
                    32,
                ),
            ),
            FrameOp::Scale { t: _, s, n } => one(
                launch(Call::Scale { t: p[0], s, n: n as i32 }, blocks(n, 128), 1, 1, 128),
            ),
            FrameOp::BcastRows { n, rows, .. } => one(
                launch(
                    Call::BcastRows { src: p[0], dst: p[1], n: n as i32, rows: rows as i32 },
                    blocks(n, 128),
                    rows as u32,
                    1,
                    128,
                ),
            ),
            FrameOp::CopyRows { src_off, dst_off, n, .. } => one(
                launch(
                    Call::CopyRows {
                        src: p[0],
                        dst: p[1],
                        src_off: src_off as i32,
                        dst_off: dst_off as i32,
                        n: n as i32,
                    },
                    blocks(n, 128),
                    1,
                    1,
                    128,
                ),
            ),
            FrameOp::HcGateMean { hc, n, .. } => one(
                launch(
                    Call::HcGateMean {
                        xn: p[0],
                        gate: p[1],
                        out: p[2],
                        hc: hc as i32,
                        n: n as i32,
                        total: (n * t) as i32,
                    },
                    blocks(n * t, 128),
                    1,
                    1,
                    128,
                ),
            ),
            FrameOp::HcCombine { hc, n, .. } => one(
                launch(
                    Call::HcCombine {
                        res: p[0],
                        out: p[1],
                        inj: p[2],
                        hc: hc as i32,
                        n: n as i32,
                        total: (n * t) as i32,
                    },
                    blocks(n * t, 128),
                    1,
                    1,
                    128,
                ),
            ),
            FrameOp::Split3 { n0, n1, n2, .. } => one(
                launch(
                    Call::Split3 {
                        src: p[0],
                        d0: p[1],
                        d1: p[2],
                        d2: p[3],
                        n0: n0 as i32,
                        n1: n1 as i32,
                        n2: n2 as i32,
                    },
                    blocks((n0 + n1 + n2) * t, 128),
                    1,
                    1,
                    128,
                ),
            ),
            FrameOp::GdnBetaG { n_h, .. } => one(
                launch(
                    Call::GdnBetaG {
                        b: p[0],
                        a: p[1],
                        dtb: p[2],
                        sa: p[3],
                        bg: p[4],
                        n_h: n_h as i32,
                        dt_rank: (n_h / t) as i32,
                    },
                    blocks(n_h, 128),
                    1,
                    1,
                    128,
                ),
            ),
            FrameOp::GdnConv { ch, k, t_len, .. } => conv_cmds(ch, k, t_len, &p),
            FrameOp::MoeTop10 { n_exp, k_sel, .. } => one(
                launch(
                    Call::MoeTop10 {
                        route: p[0],
                        ids: p[1],
                        wt: p[2],
                        n_exp: n_exp as i32,
                        k_sel: k_sel as i32,
                    },
                    t as u32,
                    1,
                    1,
                    32,
                ),
            ),
            FrameOp::MoeWeightedSum { k, n, .. } => one(
                launch(
                    Call::MoeWeightedSum {
                        ys: p[0],
                        wt: p[1],
                        out: p[2],
                        k: k as i32,
                        n: (n * t) as i32,
                    },
                    blocks(n * t, 128),
                    1,
                    1,
                    128,
                ),
            ),
            FrameOp::AxpyScaled { n, .. } => if t <= 1 {
                one(
                    launch(
                        Call::AxpyScaled { y: p[0], x: p[1], s: p[2], n: n as i32 },
                        blocks(n, 128),
                        1,
                        1,
                        128,
                    ),
                )
            } else {
                one(
                    launch(
                        Call::AxpyScaledT {
                            y: p[0],
                            x: p[1],
                            s: p[2],
                            n: n as i32,
                            per: (n / t) as i32,
                        },
                        blocks(n, 128),
                        1,
                        1,
                        128,
                    ),
                )
            },
            FrameOp::Other => {
                return Err(AccError::UnsupportedOp);
            },
        };
        Ok(cmds)
    }
}

} // verus!
