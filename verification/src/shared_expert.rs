//! The shared expert and the per-layer embedding of the decoder.

use vstd::prelude::*;
use crate::acc::Q4Acc;
use crate::arith::{ceil_div, spec_ceil_div};
use crate::consts::{const_program, const_slot, spec_const_slot, upload_map, ContentKey};
use crate::device::{buf, launch, spec_buf, spec_launch, Cmd, ConstMap, Host, Ptr, Slot};
use crate::error::AccError;
use crate::frame_mm::{spec_wptr, wptr};
use crate::hash::{content_key, spec_content_key};
use crate::kernels::Call;
use crate::layer_laws::embeds_token;
use crate::op_laws::{frame, lemma_frames};
use crate::step_laws::{adds_down, gates_row};
use crate::upload::Weight;

verus! {

/// Frames, sequence and shape of a per-layer embedding step.
#[derive(Clone, Copy, PartialEq, Eq, Structural, Debug)]
pub struct PleReq {
    pub res: u64,
    pub key: u64,
    pub value: u64,
    pub gated: u64,
    pub conv_out: u64,
    pub gate_out: u64,
    pub seq: usize,
    pub t: usize,
    /// Position of the first token of the step in its sequence.
    pub pos: usize,
    pub eps: u32,
    pub n_embd: usize,
    pub hc: usize,
    pub kern: usize,
    pub dil: usize,
    pub hist: usize,
    /// Words of the ring that the host holds.
    pub host_ring: usize,
}

/// Content keys of the norms and of the convolution weights.
#[derive(Clone, Copy, PartialEq, Eq, Structural, Debug)]
pub struct PleKeys {
    pub nk: ContentKey,
    pub nq: ContentKey,
    pub nc: ContentKey,
    pub conv_w: ContentKey,
}

/// The frames of a step in the order in which they are looked up.
pub open spec fn ple_handles(rq: PleReq) -> Seq<u64> {
    seq![rq.res, rq.key, rq.value, rq.gated, rq.conv_out, rq.gate_out]
}

/// Sizes of a step can be counted.
pub open spec fn ple_fits(rq: PleReq, keys: PleKeys) -> bool {
    &&& rq.pos + rq.t <= usize::MAX
    &&& rq.hc * rq.n_embd <= usize::MAX
    &&& rq.hist * (rq.hc * rq.n_embd) * 4 <= usize::MAX
    &&& rq.host_ring * 4 <= usize::MAX
    &&& keys.nk.len * 4 <= usize::MAX
    &&& keys.nq.len * 4 <= usize::MAX
    &&& keys.nc.len * 4 <= usize::MAX
    &&& keys.conv_w.len * 4 <= usize::MAX
}

impl Q4Acc {
    /// Plans gate and up projection of the shared expert in one launch, a row of
    /// the hidden layer per warp.
    pub fn shexp_gu(
        &self,
        x: u64,
        wg: &Weight,
        wu: &Weight,
        h: u64,
        n_in: usize,
        n_hidden: usize,
    ) -> (r: Result<Vec<Cmd>, AccError>)
        ensures
            match self.frame_ptrs(seq![x, h]) {
                Err(e) => r matches Err(f) && f == e,
                Ok(p) => r matches Ok(c) && c@ == seq![
                    Cmd::Weight { key: wg.key },
                    Cmd::Weight { key: wu.key },
                    spec_launch(
                        Call::ShexpGu {
                            x: p[0],
                            wg: spec_wptr(*wg),
                            wu: spec_wptr(*wu),
                            h: p[1],
                            n_in: n_in as i32,
                            n_hidden: n_hidden as i32,
                        },
                        spec_ceil_div(n_hidden as int, 8) as u32,
                        1,
                        1,
                        256,
                    ),
                ],
            },
            r matches Ok(c) ==> gates_row(
                *self,
                x,
                *wg,
                *wu,
                h,
                n_in as int,
                n_hidden as int,
                c@,
            ),
    {
        let hs: Vec<u64> = vec![x, h];
        assert(hs@ =~= seq![x, h]);
        let p = match self.fptrs(&hs) {
            Ok(p) => p,
            Err(e) => {
                return Err(e);
            },
        };
        let cmds: Vec<Cmd> = vec![
            Cmd::Weight { key: wg.key },
            Cmd::Weight { key: wu.key },
            launch(
                Call::ShexpGu {
                    x: p[0],
                    wg: wptr(wg),
                    wu: wptr(wu),
                    h: p[1],
                    n_in: n_in as i32,
                    n_hidden: n_hidden as i32,
                },
                ceil_div(n_hidden, 8) as u32,
                1,
                1,
                256,
            ),
        ];
        proof {
            lemma_frames(*self, hs@, p@);
            self.law_gate_and_up(x, *wg, *wu, h, n_in, n_hidden, cmds@);
        }
        Ok(cmds)
    }

    /// Plans the down projection of the shared expert, scaled and added to the
    /// output, a row per warp.
    pub fn shexp_da(
        &self,
        h: u64,
        wd: &Weight,
        s: u64,
        mout: u64,
        n_in: usize,
        n_hidden: usize,
    ) -> (r: Result<Vec<Cmd>, AccError>)
        ensures
            match self.frame_ptrs(seq![h, s, mout]) {
                Err(e) => r matches Err(f) && f == e,
                Ok(p) => r matches Ok(c) && c@ == seq![
                    Cmd::Weight { key: wd.key },
                    spec_launch(
                        Call::ShexpDa {
                            h: p[0],
                            wd: spec_wptr(*wd),
                            s: p[1],
                            out: p[2],
                            n_in: n_in as i32,
                            n_hidden: n_hidden as i32,
                        },
                        spec_ceil_div(n_in as int, 8) as u32,
                        1,
                        1,
                        256,
                    ),
                ],
            },
            r matches Ok(c) ==> adds_down(
                *self,
                h,
                *wd,
                s,
                mout,
                n_in as int,
                n_hidden as int,
                c@,
            ),
    {
        let hs: Vec<u64> = vec![h, s, mout];
        assert(hs@ =~= seq![h, s, mout]);
        let p = match self.fptrs(&hs) {
            Ok(p) => p,
            Err(e) => {
                return Err(e);
            },
        };
        let cmds: Vec<Cmd> = vec![
            Cmd::Weight { key: wd.key },
            launch(
                Call::ShexpDa {
                    h: p[0],
                    wd: wptr(wd),
                    s: p[1],
                    out: p[2],
                    n_in: n_in as i32,
                    n_hidden: n_hidden as i32,
                },
                ceil_div(n_in, 8) as u32,
                1,
                1,
                256,
            ),
        ];
        proof {
            lemma_frames(*self, hs@, p@);
            self.law_down_and_add(h, *wd, s, mout, n_in, n_hidden, cmds@);
        }
        Ok(cmds)
    }

    /// The ring of a sequence has to be taken over from the host: it is new, or it
    /// has seen this position already and the sequence was rewound.
    pub open spec fn ring_stale(&self, rq: PleReq) -> bool {
        self.pool.ptr_of(Slot::PleRing { seq: rq.seq }) == 0 || self.ring_pos@.dom().contains(
            rq.seq,
        ) && self.ring_pos@[rq.seq] > rq.pos
    }

    /// The program of a step: the ring, the constants, then gate, convolution and
    /// residual.
    pub open spec fn ple_program(&self, rq: PleReq, keys: PleKeys, p: Seq<Ptr>) -> Seq<Cmd> {
        let hc_dim = rq.hc * rq.n_embd;
        let slot = Slot::PleRing { seq: rq.seq };
        let (res, key, value, gated, conv_out, gate_out) = (p[0], p[1], p[2], p[3], p[4], p[5]);
        seq![Cmd::Ensure { slot, bytes: (rq.hist * hc_dim * 4) as usize }] + (if self.ring_stale(
            rq,
        ) {
            seq![
                Cmd::H2d {
                    dst: spec_buf(slot),
                    src: Host::Ring,
                    bytes: (rq.host_ring * 4) as usize,
                },
            ]
        } else {
            Seq::empty()
        }) + const_program(self.ple_nk.keys@, ConstMap::PleNk, keys.nk, Host::Nk) + const_program(
            self.ple_nq.keys@,
            ConstMap::PleNq,
            keys.nq,
            Host::Nq,
        ) + const_program(self.ple_nc.keys@, ConstMap::PleNc, keys.nc, Host::Nc) + const_program(
            self.ple_cw.keys@,
            ConstMap::PleConvW,
            keys.conv_w,
            Host::ConvW,
        ) + seq![
            spec_launch(
                Call::PleGate {
                    res,
                    key,
                    value,
                    nk: spec_buf(spec_const_slot(ConstMap::PleNk, keys.nk)),
                    nq: spec_buf(spec_const_slot(ConstMap::PleNq, keys.nq)),
                    nc: spec_buf(spec_const_slot(ConstMap::PleNc, keys.nc)),
                    gated,
                    gate_out,
                    eps: rq.eps,
                    n_embd: rq.n_embd as i32,
                    hc: rq.hc as i32,
                    t: rq.t as i32,
                },
                spec_ceil_div(rq.hc as int, 8) as u32,
                rq.t as u32,
                1,
                256,
            ),
            spec_launch(
                Call::PleConv {
                    gated,
                    conv_w: spec_buf(spec_const_slot(ConstMap::PleConvW, keys.conv_w)),
                    ring: spec_buf(slot),
                    conv_out,
                    hc_dim: hc_dim as i32,
                    t: rq.t as i32,
                    kern: rq.kern as i32,
                    dil: rq.dil as i32,
                    hist: rq.hist as i32,
                },
                spec_ceil_div(hc_dim, 256) as u32,
                1,
                1,
                256,
            ),
            spec_launch(
                Call::PleResidual {
                    res,
                    value,
                    gate_out,
                    conv_out,
                    n_embd: rq.n_embd as i32,
                    hc: rq.hc as i32,
                    t: rq.t as i32,
                },
                spec_ceil_div(rq.n_embd as int, 256) as u32,
                1,
                1,
                256,
            ),
        ]
    }

    /// Plans a per-layer embedding step whose constants are known by their
    /// content keys. One token at a time; the watermark moves behind it even where a
    /// frame turns out to be invalid.
    pub fn ple_math_keyed(&mut self, rq: &PleReq, keys: &PleKeys) -> (r: Result<Vec<Cmd>, AccError>)
        requires
            old(self).wf(),
            ple_fits(*rq, *keys),
        ensures
            final(self).wf(),
            if rq.t != 1 {
                *final(self) == *old(self) && r == Err::<Vec<Cmd>, AccError>(
                    AccError::PleTokens { t: rq.t },
                )
            } else {
                &&& final(self).ring_pos@ == old(self).ring_pos@.insert(
                    rq.seq,
                    (rq.pos + rq.t) as usize,
                )
                &&& *final(self) == (Q4Acc { ring_pos: final(self).ring_pos, ..*old(self) })
                &&& match old(self).frame_ptrs(ple_handles(*rq)) {
                    Err(e) => r matches Err(f) && f == e,
                    Ok(p) => r matches Ok(c) && c@ == old(self).ple_program(*rq, *keys, p),
                }
            },
            r matches Ok(c) ==> embeds_token(*old(self), *rq, *keys, c@),
    {
        if rq.t != 1 {
            return Err(AccError::PleTokens { t: rq.t });
        }
        let hc_dim: usize = rq.hc * rq.n_embd;
        let slot = Slot::PleRing { seq: rq.seq };
        let rewind = match self.ring_pos.get(rq.seq) {
            Some(w) => w > rq.pos,
            None => false,
        };
        let stale = self.pool.ptr(slot) == 0 || rewind;
        let hs: Vec<u64> = vec![rq.res, rq.key, rq.value, rq.gated, rq.conv_out, rq.gate_out];
        assert(hs@ =~= ple_handles(*rq));
        let ptrs = self.fptrs(&hs);
        self.ring_pos.insert(rq.seq, rq.pos + rq.t);
        let p = match ptrs {
            Ok(p) => p,
            Err(e) => {
                return Err(e);
            },
        };
        proof {
            lemma_frames(*old(self), hs@, p@);
            assert(p@ =~= seq![
                frame(*old(self), rq.res),
                frame(*old(self), rq.key),
                frame(*old(self), rq.value),
                frame(*old(self), rq.gated),
                frame(*old(self), rq.conv_out),
                frame(*old(self), rq.gate_out),
            ]);
            old(self).law_ple_embeds_its_token(*rq, *keys);
        }
        assert(rq.hist * hc_dim <= rq.hist * hc_dim * 4) by (nonlinear_arith);
        let mut r: Vec<Cmd> = vec![Cmd::Ensure { slot, bytes: rq.hist * hc_dim * 4 }];
        if stale {
            r.push(Cmd::H2d { dst: buf(slot), src: Host::Ring, bytes: rq.host_ring * 4 });
        }
        let mut a = upload_map(&self.ple_nk, ConstMap::PleNk, keys.nk, Host::Nk);
        let mut b = upload_map(&self.ple_nq, ConstMap::PleNq, keys.nq, Host::Nq);
        let mut c = upload_map(&self.ple_nc, ConstMap::PleNc, keys.nc, Host::Nc);
        let mut d = upload_map(&self.ple_cw, ConstMap::PleConvW, keys.conv_w, Host::ConvW);
        r.append(&mut a);
        r.append(&mut b);
        r.append(&mut c);
        r.append(&mut d);
        r.push(
            launch(
                Call::PleGate {
                    res: p[0],
                    key: p[1],
                    value: p[2],
                    nk: buf(const_slot(ConstMap::PleNk, keys.nk)),
                    nq: buf(const_slot(ConstMap::PleNq, keys.nq)),
                    nc: buf(const_slot(ConstMap::PleNc, keys.nc)),
                    gated: p[3],
                    gate_out: p[5],
                    eps: rq.eps,
                    n_embd: rq.n_embd as i32,
                    hc: rq.hc as i32,
                    t: rq.t as i32,
                },
                ceil_div(rq.hc, 8) as u32,
                rq.t as u32,
                1,
                256,
            ),
        );
        r.push(
            launch(
                Call::PleConv {
                    gated: p[3],
                    conv_w: buf(const_slot(ConstMap::PleConvW, keys.conv_w)),
                    ring: buf(slot),
                    conv_out: p[4],
                    hc_dim: hc_dim as i32,
                    t: rq.t as i32,
                    kern: rq.kern as i32,
                    dil: rq.dil as i32,
                    hist: rq.hist as i32,
                },
                ceil_div(hc_dim, 256) as u32,
                1,
                1,
                256,
            ),
        );
        r.push(
            launch(
                Call::PleResidual {
                    res: p[0],
                    value: p[2],
                    gate_out: p[5],
                    conv_out: p[4],
                    n_embd: rq.n_embd as i32,
                    hc: rq.hc as i32,
                    t: rq.t as i32,
                },
                ceil_div(rq.n_embd, 256) as u32,
                1,
                1,
                256,
            ),
        );
        assert(r@ =~= old(self).ple_program(*rq, *keys, p@));
        Ok(r)
    }

    /// Plans a per-layer embedding step with the given constants.
    pub fn ple_math_dev(
        &mut self,
        rq: &PleReq,
        nk: &[u32],
        nq: &[u32],
        nc: &[u32],
        conv_w: &[u32],
    ) -> (r: Result<Vec<Cmd>, AccError>)
        requires
            old(self).wf(),
            ple_fits(
                *rq,
                PleKeys {
                    nk: ContentKey { hash: 0, len: nk@.len() as usize },
                    nq: ContentKey { hash: 0, len: nq@.len() as usize },
                    nc: ContentKey { hash: 0, len: nc@.len() as usize },
                    conv_w: ContentKey { hash: 0, len: conv_w@.len() as usize },
                },
            ),
        ensures
            final(self).wf(),
            if rq.t != 1 {
                *final(self) == *old(self) && r == Err::<Vec<Cmd>, AccError>(
                    AccError::PleTokens { t: rq.t },
                )
            } else {
                &&& final(self).ring_pos@ == old(self).ring_pos@.insert(
                    rq.seq,
                    (rq.pos + rq.t) as usize,
                )
                &&& *final(self) == (Q4Acc { ring_pos: final(self).ring_pos, ..*old(self) })
                &&& match old(self).frame_ptrs(ple_handles(*rq)) {
                    Err(e) => r matches Err(f) && f == e,
                    Ok(p) => exists|keys: PleKeys|
                        {
                            &&& #[trigger] keys_of(keys, nk@, nq@, nc@, conv_w@)
                            &&& r matches Ok(c) && c@ == old(self).ple_program(*rq, keys, p)
                        },
                }
            },
            r matches Ok(c) ==> exists|keys: PleKeys| #[trigger]
                keys_of(keys, nk@, nq@, nc@, conv_w@) && embeds_token(*old(self), *rq, keys, c@),
    {
        let keys = PleKeys {
            nk: ContentKey { hash: content_key(nk), len: nk.len() },
            nq: ContentKey { hash: content_key(nq), len: nq.len() },
            nc: ContentKey { hash: content_key(nc), len: nc.len() },
            conv_w: ContentKey { hash: content_key(conv_w), len: conv_w.len() },
        };
        assert(keys_of(keys, nk@, nq@, nc@, conv_w@));
        self.ple_math_keyed(rq, &keys)
    }
}

/// A content key of an array, in one of the two byte orders.
pub open spec fn key_of(k: ContentKey, data: Seq<u32>) -> bool {
    &&& k.len == data.len()
    &&& k.hash == spec_content_key(data, false) || k.hash == spec_content_key(data, true)
}

/// The keys are those of the given constants.
pub open spec fn keys_of(
    k: PleKeys,
    nk: Seq<u32>,
    nq: Seq<u32>,
    nc: Seq<u32>,
    conv_w: Seq<u32>,
) -> bool {
    key_of(k.nk, nk) && key_of(k.nq, nq) && key_of(k.nc, nc) && key_of(k.conv_w, conv_w)
}

/// A returned sequence slot starts over: whatever its ring and watermark were,
/// the next step takes the ring over from the host.
pub proof fn law_reset_forgets_ring(before: Q4Acc, after: Q4Acc, rq: PleReq)
    requires
        after.pool.bufs@ == before.pool.bufs@.remove(Slot::PleRing { seq: rq.seq }),
        after.ring_pos@ == before.ring_pos@.remove(rq.seq),
    ensures
        after.ring_stale(rq),
{
}

/// After a step the ring stands behind its token: a step that goes on from there
/// keeps the ring, one that was rewound takes the ring over from the host again, and
/// other sequences are not affected.
pub proof fn law_ring_follows_its_sequence(
    before: Q4Acc,
    after: Q4Acc,
    rq: PleReq,
    next: PleReq,
    other: PleReq,
)
    requires
        rq.pos + rq.t <= usize::MAX,
        after.ring_pos@ == before.ring_pos@.insert(rq.seq, (rq.pos + rq.t) as usize),
        after.pool.ptr_of(Slot::PleRing { seq: rq.seq }) != 0,
        after.pool.ptr_of(Slot::PleRing { seq: other.seq }) == before.pool.ptr_of(
            Slot::PleRing { seq: other.seq },
        ),
        next.seq == rq.seq,
        other.seq != rq.seq,
    ensures
        after.ring_stale(next) <==> next.pos < rq.pos + rq.t,
        after.ring_stale(other) <==> before.ring_stale(other),
{
}

/// The command writes the ring of a sequence, or makes room for it.
pub open spec fn touches_ring(c: Cmd, seq: usize) -> bool {
    match c {
        Cmd::Ensure { slot, .. } => slot == Slot::PleRing { seq },
        Cmd::H2d { dst, .. } => dst == spec_buf(Slot::PleRing { seq }),
        Cmd::Launch(l) => l.call matches Call::PleConv { ring, .. } && ring == spec_buf(
            Slot::PleRing { seq },
        ),
        _ => false,
    }
}

/// The command reads the ring that the host holds.
pub open spec fn reads_host_ring(c: Cmd) -> bool {
    c matches Cmd::H2d { src, .. } && src == Host::Ring
}

/// A ring that is not there yet is stale. A stale ring is loaded from the host before
/// the convolution; a ring that is up to date is used as it is, whatever the host holds.
/// No step touches the ring of another sequence.
pub proof fn law_ring_is_loaded_only_when_stale(
    acc: Q4Acc,
    rq: PleReq,
    keys: PleKeys,
    p: Seq<Ptr>,
    j: int,
    other: usize,
)
    requires
        0 <= j < acc.ple_program(rq, keys, p).len(),
        other != rq.seq,
    ensures
        !acc.pool.bufs@.dom().contains(Slot::PleRing { seq: rq.seq }) ==> acc.ring_stale(rq),
        ({
            let prog = acc.ple_program(rq, keys, p);
            let n = prog.len() as int;
            &&& n >= 4
            &&& prog[n - 2] matches Cmd::Launch(l) && l.call is PleConv && touches_ring(
                prog[n - 2],
                rq.seq,
            )
            &&& reads_host_ring(prog[j]) <==> acc.ring_stale(rq) && j == 1
            &&& acc.ring_stale(rq) ==> touches_ring(prog[1], rq.seq) && 1 < n - 2
            &&& !touches_ring(prog[j], other)
        }),
{
    let prog = acc.ple_program(rq, keys, p);
    let n = prog.len() as int;
    let slot = Slot::PleRing { seq: rq.seq };
    let head = seq![Cmd::Ensure { slot, bytes: (rq.hist * (rq.hc * rq.n_embd) * 4) as usize }] + (
    if acc.ring_stale(rq) {
        seq![
            Cmd::H2d { dst: spec_buf(slot), src: Host::Ring, bytes: (rq.host_ring * 4) as usize },
        ]
    } else {
        Seq::empty()
    });
    let a = const_program(acc.ple_nk.keys@, ConstMap::PleNk, keys.nk, Host::Nk);
    let b = const_program(acc.ple_nq.keys@, ConstMap::PleNq, keys.nq, Host::Nq);
    let c = const_program(acc.ple_nc.keys@, ConstMap::PleNc, keys.nc, Host::Nc);
    let d = const_program(acc.ple_cw.keys@, ConstMap::PleConvW, keys.conv_w, Host::ConvW);
    let tail = prog.skip(n - 3);
    let (n1, n2, n3, n4, n5) = (
        head.len() as int,
        (head + a).len() as int,
        (head + a + b).len() as int,
        (head + a + b + c).len() as int,
        (head + a + b + c + d).len() as int,
    );
    assert(n == n5 + 3);
    assert(prog =~= head + a + b + c + d + tail);
    if j < n1 {
        assert(prog[j] == head[j]);
    } else if j < n2 {
        assert(prog[j] == a[j - n1]);
    } else if j < n3 {
        assert(prog[j] == b[j - n2]);
    } else if j < n4 {
        assert(prog[j] == c[j - n3]);
    } else if j < n5 {
        assert(prog[j] == d[j - n4]);
    } else {
        assert(prog[j] == tail[j - n5]);
    }
    if acc.ring_stale(rq) {
        assert(prog[1] == head[1]);
    }
}

} // verus!
