//! What the rotary embedding and the per-layer embedding leave in memory.
//!
//! The kernels are parameters, as in `kernel_effects`.

use vstd::prelude::*;
use crate::acc::Q4Acc;
use crate::arith::lemma_ceil_div;
use crate::consts::{const_program, keyed_program, spec_const_slot, ContentKey, HostKey};
use crate::device::{spec_buf, Cmd, ConstMap, Host, Ptr, Slot};
use crate::kernel_effects::{none, view, Op};
use crate::memory::{distance, is_inside};
use crate::op_laws::{frame, lemma_in_row, lemma_one_command, reaches};
use crate::ops::ONE;
use crate::product_runs::{
    jumps_inside, lemma_jumps_of_both, lemma_ran_behind, performed, ran, row_at, Kernels,
};
use crate::recurrence_laws::{are_apart, bytes_at};
use crate::recurrent::RopeReq;
use crate::score_laws::{array, brought, is_current, lemma_brought, lemma_norm_row};
use crate::shared_expert::{PleKeys, PleReq};
use crate::step_laws::lemma_row_had;
use crate::table_laws::{is_quiet, lemma_quiet};

verus! {

/// A constant that the accelerator takes for known is on the device.
pub open spec fn const_current(
    k: Kernels,
    m: spec_fn(Ptr) -> u8,
    keys: Seq<ContentKey>,
    map: ConstMap,
    key: ContentKey,
    src: Host,
) -> bool {
    keys.contains(key) ==> is_current(k, m, spec_const_slot(map, key), src, key.len as int)
}

/// Whether a constant has to be copied or not, it is in its slot behind the copy.
proof fn lemma_const(
    k: Kernels,
    m: spec_fn(Ptr) -> u8,
    keys: Seq<ContentKey>,
    map: ConstMap,
    key: ContentKey,
    src: Host,
    ok: spec_fn(int) -> bool,
    at: int,
)
    requires
        const_current(k, m, keys, map, key, src),
        key.len * 4 <= usize::MAX,
    ensures
        jumps_inside(const_program(keys, map, key, src)),
        ran(k, m, const_program(keys, map, key, src), ok, at) == brought(
            k,
            m,
            spec_const_slot(map, key),
            src,
            key.len as int,
        ),
{
    let c = const_program(keys, map, key, src);
    let slot = spec_const_slot(map, key);
    if keys.contains(key) {
        lemma_brought(k, m, c, ok, at, slot, src, key.len as int);
    } else {
        let n = c.len() - 3;
        let (head, rest) = (c.take(n), c.skip(n));
        assert(c =~= head + rest);
        assert forall|i: int| 0 <= i < head.len() implies #[trigger] is_quiet(head[i]) by {
            assert(head[i] == c[i]);
        }
        lemma_quiet(k, m, head, ok, at);
        lemma_ran_behind(k, m, head, rest, ok, at);
        lemma_brought(k, m, rest, ok, at + n, slot, src, key.len as int);
        lemma_jumps_of_both(head, rest);
    }
}

/// The rotation table of a request, and behind it what lay there.
pub open spec fn rope_table(k: Kernels, m: spec_fn(Ptr) -> u8, cs: HostKey) -> spec_fn(int) -> u8 {
    view(brought(k, m, Slot::Cst, Host::Cs, cs.len as int), spec_buf(Slot::Cst))
}

/// Byte `b` of query and key row of token `s` are those of the normed and rotated rows, at
/// the token's own position.
pub open spec fn leaves_rotated(
    acc: Q4Acc,
    k: Kernels,
    m: spec_fn(Ptr) -> u8,
    after: spec_fn(Ptr) -> u8,
    rq: RopeReq,
    cs: HostKey,
    s: int,
    b: int,
) -> bool {
    let (ql, kl) = (rq.n_head * 2 * rq.hd * 4, rq.n_kv * rq.hd * 4);
    &&& 0 <= s < rq.t && 0 <= b < ql ==> after(frame(acc, rq.q).spec_at(s * ql + b)) == (k.op)(
        Op::RopeQ,
        seq![
            rq.eps as int,
            ONE as int,
            rq.pos0 + s,
            rq.n_head as int,
            rq.hd as int,
            rq.n_rot as int,
        ],
        seq![row_at(m, frame(acc, rq.q), ql, s), array(k, Host::QNorm, rq.hd as int)],
        seq![rope_table(k, m, cs)],
    )[b]
    &&& 0 <= s < rq.t && 0 <= b < kl ==> after(frame(acc, rq.k).spec_at(s * kl + b)) == (k.op)(
        Op::RopeK,
        seq![rq.eps as int, rq.pos0 + s, rq.n_kv as int, rq.hd as int, rq.n_rot as int],
        seq![row_at(m, frame(acc, rq.k), kl, s), array(k, Host::KNorm, rq.hd as int)],
        seq![rope_table(k, m, cs)],
    )[b]
}

/// What the accelerator takes for up to date on the device is.
pub open spec fn rope_current(
    acc: Q4Acc,
    k: Kernels,
    m: spec_fn(Ptr) -> u8,
    qn: ContentKey,
    kn: ContentKey,
    cs: HostKey,
) -> bool {
    &&& const_current(k, m, acc.q_norm.keys@, ConstMap::QNorm, qn, Host::QNorm)
    &&& const_current(k, m, acc.k_norm.keys@, ConstMap::KNorm, kn, Host::KNorm)
    &&& acc.cst_key == cs && acc.pool.ptr_of(Slot::Cst) != 0 ==> is_current(
        k,
        m,
        Slot::Cst,
        Host::Cs,
        cs.len as int,
    )
}

/// The sizes of a request can be told to the kernel, the norms have a value for every value
/// of a head, and queries and keys lie apart.
pub open spec fn rope_fits(acc: Q4Acc, rq: RopeReq, qn: ContentKey, kn: ContentKey, cs: HostKey) -> bool {
    let (ql, kl) = (rq.n_head * 2 * rq.hd * 4, rq.n_kv * rq.hd * 4);
    &&& rq.n_head + rq.n_kv <= i32::MAX
    &&& rq.hd <= i32::MAX
    &&& rq.n_rot <= i32::MAX
    &&& rq.pos0 <= i32::MAX
    &&& rq.t <= i32::MAX
    &&& rq.hd <= qn.len
    &&& rq.hd <= kn.len
    &&& qn.len * 4 <= usize::MAX
    &&& kn.len * 4 <= usize::MAX
    &&& cs.len * 4 <= usize::MAX
    &&& frame(acc, rq.q) is Dev
    &&& frame(acc, rq.k) is Dev
    &&& reaches(acc, rq.q, rq.t * ql)
    &&& reaches(acc, rq.k, rq.t * kl)
    &&& are_apart(frame(acc, rq.k), rq.t * kl, frame(acc, rq.q), rq.t * ql)
    &&& are_apart(frame(acc, rq.q), rq.t * ql, frame(acc, rq.k), rq.t * kl)
}

/// The program norms and rotates the queries and keys of every token.
pub open spec fn rotates_rows(
    acc: Q4Acc,
    rq: RopeReq,
    qn: ContentKey,
    kn: ContentKey,
    cs: HostKey,
    c: Seq<Cmd>,
) -> bool {
    rope_fits(acc, rq, qn, kn, cs) ==> forall|
        k: Kernels,
        m: spec_fn(Ptr) -> u8,
        ok: spec_fn(int) -> bool,
        s: int,
        b: int,
    |
        rope_current(acc, k, m, qn, kn, cs) ==> #[trigger] leaves_rotated(
            acc,
            k,
            m,
            ran(k, m, c, ok, 0),
            rq,
            cs,
            s,
            b,
        )
}

/// Norms brought to a slot are its first values.
proof fn lemma_norm(
    k: Kernels,
    m: spec_fn(Ptr) -> u8,
    now: spec_fn(Ptr) -> u8,
    slot: Slot,
    src: Host,
    d: int,
    n: int,
)
    requires
        0 <= d <= n,
        n * 4 <= usize::MAX,
        forall|p: Ptr|
            distance(spec_buf(slot), p) is Some ==> #[trigger] now(p) == brought(k, m, slot, src, n)(
                p,
            ),
    ensures
        bytes_at(now, spec_buf(slot), d * 4) == array(k, src, d),
{
    let had = brought(k, m, slot, src, n);
    assert forall|j: int| 0 <= j < n * 4 implies had(#[trigger] spec_buf(slot).spec_at(j)) == (
    k.host)(src, j) by {
        assert(distance(spec_buf(slot), spec_buf(slot).spec_at(j)) == Some(j));
    }
    assert(is_current(k, had, slot, src, n));
    lemma_norm_row(k, had, now, slot, src, d, n);
}

impl Q4Acc {
    /// Queries and keys of every token are normed with their own norms and rotated to their
    /// own positions; only queries are scaled.
    pub proof fn law_rope_rotates_every_row(
        &self,
        rq: RopeReq,
        qn: ContentKey,
        kn: ContentKey,
        cs: HostKey,
    )
        ensures
            rotates_rows(
                *self,
                rq,
                qn,
                kn,
                cs,
                self.rope_program(
                    rq,
                    qn,
                    kn,
                    cs,
                    seq![frame(*self, rq.q), frame(*self, rq.k)],
                ),
            ),
    {
        let c = self.rope_program(rq, qn, kn, cs, seq![frame(*self, rq.q), frame(*self, rq.k)]);
        if rope_fits(*self, rq, qn, kn, cs) {
            assert forall|k: Kernels, m: spec_fn(Ptr) -> u8, ok: spec_fn(int) -> bool, s: int, b: int|
                rope_current(*self, k, m, qn, kn, cs) implies #[trigger] leaves_rotated(
                *self,
                k,
                m,
                ran(k, m, c, ok, 0),
                rq,
                cs,
                s,
                b,
            ) by {
                self.lemma_rotated(rq, qn, kn, cs, k, m, ok, s, b);
            }
        }
    }

    #[verifier::rlimit(40)]
    proof fn lemma_rotated(
        &self,
        rq: RopeReq,
        qn: ContentKey,
        kn: ContentKey,
        cs: HostKey,
        k: Kernels,
        m: spec_fn(Ptr) -> u8,
        ok: spec_fn(int) -> bool,
        s: int,
        b: int,
    )
        requires
            rope_fits(*self, rq, qn, kn, cs),
            rope_current(*self, k, m, qn, kn, cs),
        ensures
            leaves_rotated(
                *self,
                k,
                m,
                ran(
                    k,
                    m,
                    self.rope_program(
                        rq,
                        qn,
                        kn,
                        cs,
                        seq![frame(*self, rq.q), frame(*self, rq.k)],
                    ),
                    ok,
                    0,
                ),
                rq,
                cs,
                s,
                b,
            ),
    {
        let c = self.rope_program(rq, qn, kn, cs, seq![frame(*self, rq.q), frame(*self, rq.k)]);
        let p1 = const_program(self.q_norm.keys@, ConstMap::QNorm, qn, Host::QNorm);
        let p2 = const_program(self.k_norm.keys@, ConstMap::KNorm, kn, Host::KNorm);
        let p3 = keyed_program(
            self.cst_key,
            self.pool.ptr_of(Slot::Cst),
            Slot::Cst,
            cs,
            Host::Cs,
        );
        let l = seq![c.last()];
        assert(c =~= p1 + (p2 + (p3 + l)));
        let (s1, s2) = (spec_const_slot(ConstMap::QNorm, qn), spec_const_slot(ConstMap::KNorm, kn));
        let m1 = brought(k, m, s1, Host::QNorm, qn.len as int);
        let m2 = brought(k, m1, s2, Host::KNorm, kn.len as int);
        let m3 = brought(k, m2, Slot::Cst, Host::Cs, cs.len as int);
        let (a1, a2) = (p1.len() as int, p1.len() as int + p2.len() as int);
        let a3 = a2 + p3.len() as int;
        lemma_const(k, m, self.q_norm.keys@, ConstMap::QNorm, qn, Host::QNorm, ok, 0);
        lemma_ran_behind(k, m, p1, p2 + (p3 + l), ok, 0);
        assert(const_current(k, m1, self.k_norm.keys@, ConstMap::KNorm, kn, Host::KNorm));
        lemma_const(k, m1, self.k_norm.keys@, ConstMap::KNorm, kn, Host::KNorm, ok, a1);
        lemma_ran_behind(k, m1, p2, p3 + l, ok, a1);
        assert(p3.len() == 0 ==> is_current(k, m2, Slot::Cst, Host::Cs, cs.len as int));
        lemma_brought(k, m2, p3, ok, a2, Slot::Cst, Host::Cs, cs.len as int);
        lemma_ran_behind(k, m2, p3, l, ok, a2);
        lemma_one_command(k, m3, l, ok, a3);
        let after = performed(k, m3, l[0]);
        let (ql, kl) = (rq.n_head * 2 * rq.hd * 4, rq.n_kv * rq.hd * 4);
        let (q, kp) = (frame(*self, rq.q), frame(*self, rq.k));
        lemma_norm(k, m, m3, s1, Host::QNorm, rq.hd as int, qn.len as int);
        lemma_norm(k, m1, m3, s2, Host::KNorm, rq.hd as int, kn.len as int);
        assert(view(m3, spec_buf(Slot::Cst)) =~= rope_table(k, m, cs));
        if 0 <= s < rq.t && 0 <= b < ql {
            lemma_in_row(s, b, ql, rq.t as int);
            let d = s * ql + b;
            assert(distance(q, q.spec_at(d)) == Some(d));
            assert(!is_inside(kp, rq.t * kl, q.spec_at(d)));
            lemma_row_had(m3, m, q, ql, s);
        }
        if 0 <= s < rq.t && 0 <= b < kl {
            lemma_in_row(s, b, kl, rq.t as int);
            let d = s * kl + b;
            assert(distance(kp, kp.spec_at(d)) == Some(d));
            lemma_row_had(m3, m, kp, kl, s);
        }
    }
}

/// The values of a per-layer embedding step: gated values, gates, convolved values, and the
/// ring and the residual behind them.
pub struct Ple {
    pub gated: Seq<u8>,
    pub gate: Seq<u8>,
    pub conv: Seq<u8>,
    pub ring: Seq<u8>,
    pub res: Seq<u8>,
}

/// The first `n` values.
pub open spec fn cut(s: Seq<u8>, n: int) -> Seq<u8> {
    Seq::new(n as nat, |i: int| s[i])
}

/// The ring of the sequence before a step: that of the host where the device's is stale.
pub open spec fn ring_before(acc: Q4Acc, k: Kernels, m: spec_fn(Ptr) -> u8, rq: PleReq) -> Seq<u8> {
    let slot = Slot::PleRing { seq: rq.seq };
    let had = if acc.ring_stale(rq) {
        brought(k, m, slot, Host::Ring, rq.host_ring as int)
    } else {
        m
    };
    bytes_at(had, spec_buf(slot), rq.hist * (rq.hc * rq.n_embd * 4))
}

/// What a step computes for its token.
pub open spec fn ple_of(acc: Q4Acc, k: Kernels, m: spec_fn(Ptr) -> u8, rq: PleReq) -> Ple {
    let dim = rq.hc * rq.n_embd;
    let (len, gl) = (dim * 4, rq.hc * 4);
    let ins = seq![
        row_at(m, frame(acc, rq.res), len, 0),
        row_at(m, frame(acc, rq.key), len, 0),
        row_at(m, frame(acc, rq.value), rq.n_embd * 4, 0),
        array(k, Host::Nk, dim),
        array(k, Host::Nq, dim),
        array(k, Host::Nc, dim),
    ];
    let nums = seq![rq.eps as int, rq.n_embd as int, rq.hc as int];
    let gated = cut((k.op)(Op::PleGated, nums, ins, none()), len);
    let gate = cut((k.op)(Op::PleGate, nums, ins, none()), gl);
    let conv_ins = seq![gated, array(k, Host::ConvW, rq.kern * dim), ring_before(acc, k, m, rq)];
    let conv_nums = seq![dim, 1, rq.kern as int, rq.dil as int, rq.hist as int];
    let conv = cut((k.op)(Op::PleConv, conv_nums, conv_ins, none()), len);
    let ring = cut((k.op)(Op::PleRing, conv_nums, conv_ins, none()), rq.hist * len);
    let res = cut(
        (k.op)(
            Op::PleResidual,
            seq![rq.n_embd as int, rq.hc as int],
            seq![ins[0], ins[2], gate, conv],
            none(),
        ),
        len,
    );
    Ple { gated, gate, conv, ring, res }
}

/// Byte `b` of the residual, of the convolved values and of the ring.
pub open spec fn leaves_ple(
    acc: Q4Acc,
    k: Kernels,
    m: spec_fn(Ptr) -> u8,
    after: spec_fn(Ptr) -> u8,
    rq: PleReq,
    b: int,
) -> bool {
    let p = ple_of(acc, k, m, rq);
    let ring = spec_buf(Slot::PleRing { seq: rq.seq });
    &&& 0 <= b < p.res.len() ==> after(frame(acc, rq.res).spec_at(b)) == p.res[b]
    &&& 0 <= b < p.conv.len() ==> after(frame(acc, rq.conv_out).spec_at(b)) == p.conv[b]
    &&& 0 <= b < p.gate.len() ==> after(frame(acc, rq.gate_out).spec_at(b)) == p.gate[b]
    &&& 0 <= b < p.ring.len() ==> after(ring.spec_at(b)) == p.ring[b]
}

/// The six frames lie apart and can be addressed, and the sizes can be told to the kernels.
pub open spec fn ple_runs(acc: Q4Acc, rq: PleReq, keys: PleKeys) -> bool {
    let dim = rq.hc * rq.n_embd;
    let (len, gl) = (dim * 4, rq.hc * 4);
    let (res, value, gated, conv, gate) = (
        frame(acc, rq.res),
        frame(acc, rq.value),
        frame(acc, rq.gated),
        frame(acc, rq.conv_out),
        frame(acc, rq.gate_out),
    );
    &&& rq.t == 1
    &&& dim <= i32::MAX && rq.n_embd <= i32::MAX && rq.hc <= i32::MAX
    &&& rq.kern <= i32::MAX && rq.dil <= i32::MAX && rq.hist <= i32::MAX
    &&& rq.hist * len <= usize::MAX
    &&& dim <= keys.nk.len && dim <= keys.nq.len && dim <= keys.nc.len
    &&& rq.kern * dim <= keys.conv_w.len
    &&& keys.nk.len * 4 <= usize::MAX && keys.nq.len * 4 <= usize::MAX
    &&& keys.nc.len * 4 <= usize::MAX && keys.conv_w.len * 4 <= usize::MAX
    &&& rq.host_ring * 4 <= usize::MAX
    &&& res is Dev && frame(acc, rq.key) is Dev && value is Dev && gated is Dev && conv is Dev
        && gate is Dev
    &&& reaches(acc, rq.res, len) && reaches(acc, rq.gated, len) && reaches(acc, rq.conv_out, len)
    &&& reaches(acc, rq.gate_out, gl) && reaches(acc, rq.value, rq.n_embd * 4)
    &&& are_apart(gated, len, res, len) && are_apart(gated, len, value, rq.n_embd * 4)
    &&& are_apart(gate, gl, res, len) && are_apart(gate, gl, value, rq.n_embd * 4) && are_apart(
        gate,
        gl,
        gated,
        len,
    )
    &&& are_apart(conv, len, res, len) && are_apart(conv, len, value, rq.n_embd * 4) && are_apart(
        conv,
        len,
        gate,
        gl,
    )
    &&& are_apart(res, len, conv, len) && are_apart(res, len, gate, gl)
}

/// What the accelerator takes for up to date on the device is.
pub open spec fn ple_current(acc: Q4Acc, k: Kernels, m: spec_fn(Ptr) -> u8, keys: PleKeys) -> bool {
    &&& const_current(k, m, acc.ple_nk.keys@, ConstMap::PleNk, keys.nk, Host::Nk)
    &&& const_current(k, m, acc.ple_nq.keys@, ConstMap::PleNq, keys.nq, Host::Nq)
    &&& const_current(k, m, acc.ple_nc.keys@, ConstMap::PleNc, keys.nc, Host::Nc)
    &&& const_current(k, m, acc.ple_cw.keys@, ConstMap::PleConvW, keys.conv_w, Host::ConvW)
}

/// The program runs the step: gate, convolution over the ring of the sequence, residual.
pub open spec fn embeds_token(acc: Q4Acc, rq: PleReq, keys: PleKeys, c: Seq<Cmd>) -> bool {
    ple_runs(acc, rq, keys) ==> forall|
        k: Kernels,
        m: spec_fn(Ptr) -> u8,
        ok: spec_fn(int) -> bool,
        b: int,
    |
        ple_current(acc, k, m, keys) ==> #[trigger] leaves_ple(acc, k, m, ran(k, m, c, ok, 0), rq, b)
}

/// The memory behind the uploads of a step.
spec fn ple_ready(acc: Q4Acc, k: Kernels, m: spec_fn(Ptr) -> u8, rq: PleReq, keys: PleKeys) -> spec_fn(
    Ptr,
) -> u8 {
    let m1 = if acc.ring_stale(rq) {
        brought(k, m, Slot::PleRing { seq: rq.seq }, Host::Ring, rq.host_ring as int)
    } else {
        m
    };
    let m2 = brought(k, m1, spec_const_slot(ConstMap::PleNk, keys.nk), Host::Nk, keys.nk.len as int);
    let m3 = brought(k, m2, spec_const_slot(ConstMap::PleNq, keys.nq), Host::Nq, keys.nq.len as int);
    let m4 = brought(k, m3, spec_const_slot(ConstMap::PleNc, keys.nc), Host::Nc, keys.nc.len as int);
    brought(
        k,
        m4,
        spec_const_slot(ConstMap::PleConvW, keys.conv_w),
        Host::ConvW,
        keys.conv_w.len as int,
    )
}

impl Q4Acc {
    proof fn lemma_ple_uploads(
        &self,
        rq: PleReq,
        keys: PleKeys,
        k: Kernels,
        m: spec_fn(Ptr) -> u8,
        ok: spec_fn(int) -> bool,
    )
        requires
            ple_runs(*self, rq, keys),
            ple_current(*self, k, m, keys),
        ensures
            ({
                let p = seq![
                    frame(*self, rq.res),
                    frame(*self, rq.key),
                    frame(*self, rq.value),
                    frame(*self, rq.gated),
                    frame(*self, rq.conv_out),
                    frame(*self, rq.gate_out),
                ];
                let c = self.ple_program(rq, keys, p);
                let n = c.len() - 3;
                &&& n >= 0
                &&& jumps_inside(c.take(n))
                &&& ran(k, m, c.take(n), ok, 0) == ple_ready(*self, k, m, rq, keys)
            }),
    {
        let p = seq![
            frame(*self, rq.res),
            frame(*self, rq.key),
            frame(*self, rq.value),
            frame(*self, rq.gated),
            frame(*self, rq.conv_out),
            frame(*self, rq.gate_out),
        ];
        let c = self.ple_program(rq, keys, p);
        let n = c.len() - 3;
        let slot = Slot::PleRing { seq: rq.seq };
        let stale = self.ring_stale(rq);
        let head = c.take(
            if stale {
                2
            } else {
                1
            },
        );
        let a = const_program(self.ple_nk.keys@, ConstMap::PleNk, keys.nk, Host::Nk);
        let b = const_program(self.ple_nq.keys@, ConstMap::PleNq, keys.nq, Host::Nq);
        let d = const_program(self.ple_nc.keys@, ConstMap::PleNc, keys.nc, Host::Nc);
        let e = const_program(self.ple_cw.keys@, ConstMap::PleConvW, keys.conv_w, Host::ConvW);
        assert(c.take(n) =~= head + (a + (b + (d + e))));
        let m1 = if stale {
            brought(k, m, slot, Host::Ring, rq.host_ring as int)
        } else {
            m
        };
        reveal_with_fuel(ran, 3);
        if stale {
            assert(head.skip(1)[0] == c[1]);
            assert(head.skip(1).skip(1) =~= Seq::<Cmd>::empty());
            assert(ran(k, m, head, ok, 0) == m1);
        } else {
            assert(head.skip(1) =~= Seq::<Cmd>::empty());
        }
        assert(jumps_inside(head));
        let (s1, s2, s3) = (
            spec_const_slot(ConstMap::PleNk, keys.nk),
            spec_const_slot(ConstMap::PleNq, keys.nq),
            spec_const_slot(ConstMap::PleNc, keys.nc),
        );
        let m2 = brought(k, m1, s1, Host::Nk, keys.nk.len as int);
        let m3 = brought(k, m2, s2, Host::Nq, keys.nq.len as int);
        let m4 = brought(k, m3, s3, Host::Nc, keys.nc.len as int);
        let n1 = head.len() as int;
        let n2 = n1 + a.len() as int;
        let n3 = n2 + b.len() as int;
        let n4 = n3 + d.len() as int;
        lemma_ran_behind(k, m, head, a + (b + (d + e)), ok, 0);
        lemma_const(k, m1, self.ple_nk.keys@, ConstMap::PleNk, keys.nk, Host::Nk, ok, n1);
        lemma_ran_behind(k, m1, a, b + (d + e), ok, n1);
        lemma_const(k, m2, self.ple_nq.keys@, ConstMap::PleNq, keys.nq, Host::Nq, ok, n2);
        lemma_ran_behind(k, m2, b, d + e, ok, n2);
        lemma_const(k, m3, self.ple_nc.keys@, ConstMap::PleNc, keys.nc, Host::Nc, ok, n3);
        lemma_ran_behind(k, m3, d, e, ok, n3);
        lemma_const(k, m4, self.ple_cw.keys@, ConstMap::PleConvW, keys.conv_w, Host::ConvW, ok, n4);
        lemma_jumps_of_both(d, e);
        lemma_jumps_of_both(b, d + e);
        lemma_jumps_of_both(a, b + (d + e));
        lemma_jumps_of_both(head, a + (b + (d + e)));
    }

    /// A step of the per-layer embedding reads and writes its own frames, the constants of
    /// its layer and the ring of its sequence.
    pub proof fn law_ple_embeds_its_token(&self, rq: PleReq, keys: PleKeys)
        ensures
            embeds_token(
                *self,
                rq,
                keys,
                self.ple_program(
                    rq,
                    keys,
                    seq![
                        frame(*self, rq.res),
                        frame(*self, rq.key),
                        frame(*self, rq.value),
                        frame(*self, rq.gated),
                        frame(*self, rq.conv_out),
                        frame(*self, rq.gate_out),
                    ],
                ),
            ),
    {
        let p = seq![
            frame(*self, rq.res),
            frame(*self, rq.key),
            frame(*self, rq.value),
            frame(*self, rq.gated),
            frame(*self, rq.conv_out),
            frame(*self, rq.gate_out),
        ];
        let c = self.ple_program(rq, keys, p);
        if ple_runs(*self, rq, keys) {
            assert forall|k: Kernels, m: spec_fn(Ptr) -> u8, ok: spec_fn(int) -> bool, b: int|
                ple_current(*self, k, m, keys) implies #[trigger] leaves_ple(
                *self,
                k,
                m,
                ran(k, m, c, ok, 0),
                rq,
                b,
            ) by {
                let n = c.len() - 3;
                self.lemma_ple_uploads(rq, keys, k, m, ok);
                let m0 = ple_ready(*self, k, m, rq, keys);
                let rest = c.skip(n);
                assert(c =~= c.take(n) + rest);
                lemma_ran_behind(k, m, c.take(n), rest, ok, 0);
                let m1 = performed(k, m0, c[n]);
                let m2 = performed(k, m1, c[n + 1]);
                let m3 = performed(k, m2, c[n + 2]);
                reveal_with_fuel(ran, 4);
                assert(rest.skip(1)[0] == c[n + 1]);
                assert(rest.skip(1).skip(1)[0] == c[n + 2]);
                assert(rest.skip(1).skip(1).skip(1) =~= Seq::<Cmd>::empty());
                assert(ran(k, m, c, ok, 0) == m3);
                self.lemma_ple_left(rq, keys, k, m, b);
            }
        }
    }

    #[verifier::rlimit(80)]
    proof fn lemma_ple_left(&self, rq: PleReq, keys: PleKeys, k: Kernels, m: spec_fn(Ptr) -> u8, b: int)
        requires
            ple_runs(*self, rq, keys),
            ple_current(*self, k, m, keys),
        ensures
            ({
                let p = seq![
                    frame(*self, rq.res),
                    frame(*self, rq.key),
                    frame(*self, rq.value),
                    frame(*self, rq.gated),
                    frame(*self, rq.conv_out),
                    frame(*self, rq.gate_out),
                ];
                let c = self.ple_program(rq, keys, p);
                let n = c.len() - 3;
                let m0 = ple_ready(*self, k, m, rq, keys);
                let m1 = performed(k, m0, c[n]);
                let m2 = performed(k, m1, c[n + 1]);
                let m3 = performed(k, m2, c[n + 2]);
                leaves_ple(*self, k, m, m3, rq, b)
            }),
    {
        let p = seq![
            frame(*self, rq.res),
            frame(*self, rq.key),
            frame(*self, rq.value),
            frame(*self, rq.gated),
            frame(*self, rq.conv_out),
            frame(*self, rq.gate_out),
        ];
        let c = self.ple_program(rq, keys, p);
        let n = c.len() - 3;
        let m0 = ple_ready(*self, k, m, rq, keys);
        let m1 = performed(k, m0, c[n]);
        let m2 = performed(k, m1, c[n + 1]);
        let m3 = performed(k, m2, c[n + 2]);
        let dim = rq.hc * rq.n_embd;
        let (len, gl, vl) = (dim * 4, rq.hc * 4, rq.n_embd * 4);
        assert(0 <= dim && 0 <= rq.hist * len && 0 <= rq.kern * dim && rq.kern * len == rq.kern * dim
            * 4 && 1 * len == len && 1 * gl == gl && rq.hc * rq.n_embd * 4 == len)
            by (nonlinear_arith)
            requires
                dim == rq.hc * rq.n_embd,
                len == dim * 4,
        ;
        lemma_ceil_div(rq.hc as int, 8);
        lemma_ceil_div(dim, 256);
        lemma_ceil_div(rq.n_embd as int, 256);
        let (res, key, value, gated, conv, gate) = (p[0], p[1], p[2], p[3], p[4], p[5]);
        let ring = spec_buf(Slot::PleRing { seq: rq.seq });
        let want = ple_of(*self, k, m, rq);
        // The norms and the weights as the kernels read them.
        let r0 = if self.ring_stale(rq) {
            brought(k, m, Slot::PleRing { seq: rq.seq }, Host::Ring, rq.host_ring as int)
        } else {
            m
        };
        let (s1, s2, s3, s4) = (
            spec_const_slot(ConstMap::PleNk, keys.nk),
            spec_const_slot(ConstMap::PleNq, keys.nq),
            spec_const_slot(ConstMap::PleNc, keys.nc),
            spec_const_slot(ConstMap::PleConvW, keys.conv_w),
        );
        let c2 = brought(k, r0, s1, Host::Nk, keys.nk.len as int);
        let c3 = brought(k, c2, s2, Host::Nq, keys.nq.len as int);
        let c4 = brought(k, c3, s3, Host::Nc, keys.nc.len as int);
        lemma_norm(k, r0, m0, s1, Host::Nk, dim, keys.nk.len as int);
        lemma_norm(k, c2, m0, s2, Host::Nq, dim, keys.nq.len as int);
        lemma_norm(k, c3, m0, s3, Host::Nc, dim, keys.nc.len as int);
        lemma_norm(k, c4, m1, s4, Host::ConvW, rq.kern * dim, keys.conv_w.len as int);
        lemma_row_had(m0, m, res, len, 0);
        lemma_row_had(m0, m, key, len, 0);
        lemma_row_had(m0, m, value, vl, 0);
        assert(0 * len == 0 && 0 * vl == 0 && 0 * gl == 0);
        // Behind the first launch.
        assert forall|x: int| 0 <= x < gl implies m1(#[trigger] gate.spec_at(x)) == want.gate[x] by {
            assert(distance(gate, gate.spec_at(x)) == Some(x));
            lemma_in_row(0, x, gl, 1);
        }
        assert forall|x: int| 0 <= x < len implies m1(#[trigger] gated.spec_at(x)) == want.gated[x] by {
            assert(distance(gated, gated.spec_at(x)) == Some(x));
            assert(!is_inside(gate, gl, gated.spec_at(x)));
            lemma_in_row(0, x, len, 1);
        }
        assert(bytes_at(m1, gated, len) =~= want.gated);
        assert(bytes_at(m1, ring, rq.hist * len) =~= ring_before(*self, k, m, rq));
        // Behind the convolution.
        assert forall|x: int| 0 <= x < len implies m2(#[trigger] conv.spec_at(x)) == want.conv[x] by {
            assert(distance(conv, conv.spec_at(x)) == Some(x));
        }
        assert forall|x: int| 0 <= x < gl implies m2(#[trigger] gate.spec_at(x)) == want.gate[x] by {
            assert(!is_inside(conv, len, gate.spec_at(x)));
        }
        assert forall|x: int| 0 <= x < len implies m2(#[trigger] res.spec_at(x)) == m(
            res.spec_at(x),
        ) by {
            assert(!is_inside(conv, len, res.spec_at(x)));
            assert(!is_inside(gate, gl, res.spec_at(x)));
            assert(!is_inside(gated, len, res.spec_at(x)));
        }
        assert forall|x: int| 0 <= x < vl implies m2(#[trigger] value.spec_at(x)) == m(
            value.spec_at(x),
        ) by {
            assert(!is_inside(conv, len, value.spec_at(x)));
            assert(!is_inside(gate, gl, value.spec_at(x)));
            assert(!is_inside(gated, len, value.spec_at(x)));
        }
        assert(res.spec_at(0) == res && value.spec_at(0) == value && gate.spec_at(0) == gate
            && conv.spec_at(0) == conv);
        assert(row_at(m2, res, len, 0) =~= row_at(m, res, len, 0));
        assert(row_at(m2, value, vl, 0) =~= row_at(m, value, vl, 0));
        assert(row_at(m2, gate, gl, 0) =~= want.gate);
        assert(row_at(m2, conv, len, 0) =~= want.conv);
        // Behind the residual.
        if 0 <= b < len {
            assert(distance(res, res.spec_at(b)) == Some(b));
            lemma_in_row(0, b, len, 1);
            assert(!is_inside(res, len, conv.spec_at(b)));
            assert(m3(conv.spec_at(b)) == m2(conv.spec_at(b)));
        }
        if 0 <= b < gl {
            assert(!is_inside(res, len, gate.spec_at(b)));
        }
        if 0 <= b < rq.hist * len {
            assert(distance(ring, ring.spec_at(b)) == Some(b));
        }
    }
}

} // verus!
