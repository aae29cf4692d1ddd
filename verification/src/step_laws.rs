//! What single steps of a layer leave in memory: routing copies, recurrences, the choice of
//! a token, the shared expert.
//!
//! The kernels are parameters, as in `kernel_effects`. Each statement is about the frames
//! that the caller names.

use vstd::prelude::*;
use crate::acc::Q4Acc;
use crate::arith::lemma_ceil_div;
use crate::device::{spec_buf, spec_launch, Cmd, Host, Ptr, Slot};
use crate::frame_mm::spec_wptr;
use crate::kernel_effects::{column, none, value_at, view, Op};
use crate::kernels::Call;
use crate::memory::{distance, is_inside, written};
use crate::op_laws::{frame, lemma_blocks, lemma_in_row, lemma_one_command, reaches};
use crate::ops::{spec_blocks, ONE};
use crate::product_runs::{performed, ran, row_at, Kernels};
use crate::recurrence_laws::{are_apart, bytes_at};
use crate::recurrent::spec_argmax_blocks;
use crate::upload::Weight;

verus! {

/// Byte `b` of copy `j` of token `s` is that of the token.
pub open spec fn token_copied(
    acc: Q4Acc,
    m: spec_fn(Ptr) -> u8,
    after: spec_fn(Ptr) -> u8,
    mix: u64,
    xsel: u64,
    n: int,
    k_sel: int,
    t: int,
    s: int,
    j: int,
    b: int,
) -> bool {
    0 <= s < t && 0 <= j < k_sel && 0 <= b < n * 4 ==> after(
        frame(acc, xsel).spec_at((s * k_sel + j) * (n * 4) + b),
    ) == m(frame(acc, mix).spec_at(s * (n * 4) + b))
}

/// The program copies every token to each of its expert rows.
pub open spec fn copies_tokens(
    acc: Q4Acc,
    mix: u64,
    xsel: u64,
    n: int,
    k_sel: int,
    t: int,
    c: Seq<Cmd>,
) -> bool {
    n <= i32::MAX && k_sel <= i32::MAX && t <= i32::MAX && t * k_sel * n <= u32::MAX && reaches(
        acc,
        xsel,
        t * k_sel * (n * 4),
    ) ==> forall|
        k: Kernels,
        m: spec_fn(Ptr) -> u8,
        ok: spec_fn(int) -> bool,
        s: int,
        j: int,
        b: int,
    | #[trigger]
        token_copied(acc, m, ran(k, m, c, ok, 0), mix, xsel, n, k_sel, t, s, j, b)
}

/// Byte `b` of value `e` of token `s` is that of the weighted sum of the token's expert
/// rows.
pub open spec fn token_summed(
    acc: Q4Acc,
    k: Kernels,
    m: spec_fn(Ptr) -> u8,
    after: spec_fn(Ptr) -> u8,
    ys: u64,
    wt: u64,
    out: u64,
    k_sel: int,
    n: int,
    t: int,
    s: int,
    e: int,
    b: int,
) -> bool {
    0 <= s < t && 0 <= e < n && 0 <= b < 4 ==> after(
        frame(acc, out).spec_at((s * n + e) * 4 + b),
    ) == (k.op)(
        Op::WeightedRows,
        seq![k_sel],
        seq![
            column(m, frame(acc, ys), s * k_sel * n + e, n, k_sel),
            row_at(m, frame(acc, wt), k_sel * 4, s),
        ],
        none(),
    )[b]
}

/// The program sums the expert rows of every token by the token's weights.
pub open spec fn sums_tokens(
    acc: Q4Acc,
    ys: u64,
    wt: u64,
    out: u64,
    k_sel: int,
    n: int,
    t: int,
    c: Seq<Cmd>,
) -> bool {
    n <= i32::MAX && k_sel <= i32::MAX && t <= i32::MAX && t * n <= u32::MAX && reaches(
        acc,
        out,
        t * n * 4,
    ) ==> forall|
        k: Kernels,
        m: spec_fn(Ptr) -> u8,
        ok: spec_fn(int) -> bool,
        s: int,
        e: int,
        b: int,
    | #[trigger]
        token_summed(acc, k, m, ran(k, m, c, ok, 0), ys, wt, out, k_sel, n, t, s, e, b)
}

/// What a recurrence reads: its state, then queries, keys, values and gates of all tokens.
pub open spec fn recurrence_inputs(
    acc: Q4Acc,
    m: spec_fn(Ptr) -> u8,
    q: u64,
    k: u64,
    v: u64,
    beta_g: u64,
    states: u64,
    h_k: int,
    h_v: int,
    d: int,
) -> Seq<Seq<u8>> {
    let t = acc.spec_t();
    seq![
        bytes_at(m, frame(acc, states), h_v * d * d * 4),
        bytes_at(m, frame(acc, q), t * (h_k * d * 4)),
        bytes_at(m, frame(acc, k), t * (h_k * d * 4)),
        bytes_at(m, frame(acc, v), t * (h_v * d * 4)),
        bytes_at(m, frame(acc, beta_g), t * (h_v * 8)),
    ]
}

/// Byte `j` of the results and of the state are those of the recurrence.
pub open spec fn leaves_recurrence(
    acc: Q4Acc,
    kn: Kernels,
    m: spec_fn(Ptr) -> u8,
    after: spec_fn(Ptr) -> u8,
    q: u64,
    k: u64,
    v: u64,
    beta_g: u64,
    states: u64,
    out: u64,
    h_k: int,
    h_v: int,
    d: int,
    j: int,
) -> bool {
    let t = acc.spec_t();
    let ins = recurrence_inputs(acc, m, q, k, v, beta_g, states, h_k, h_v, d);
    let nums = seq![d, h_k * d, h_v * d, h_v, h_k, ONE as int, t];
    &&& 0 <= j < t * (h_v * d * 4) ==> after(frame(acc, out).spec_at(j)) == (kn.op)(
        Op::Recurrence,
        nums,
        ins,
        none(),
    )[j]
    &&& 0 <= j < h_v * d * d * 4 ==> after(frame(acc, states).spec_at(j)) == (kn.op)(
        Op::RecurrenceState,
        nums,
        ins,
        none(),
    )[j]
}

/// The program runs the recurrence over all tokens of the step.
pub open spec fn runs_recurrence(
    acc: Q4Acc,
    q: u64,
    k: u64,
    v: u64,
    beta_g: u64,
    states: u64,
    out: u64,
    h_k: int,
    h_v: int,
    d: int,
    c: Seq<Cmd>,
) -> bool {
    let t = acc.spec_t();
    h_k * d <= i32::MAX && h_v * d <= i32::MAX && h_k <= i32::MAX && h_v <= i32::MAX && d <= i32::MAX
        && t <= i32::MAX && reaches(acc, out, t * (h_v * d * 4)) && reaches(
        acc,
        states,
        h_v * d * d * 4,
    ) && are_apart(frame(acc, states), h_v * d * d * 4, frame(acc, out), t * (h_v * d * 4))
        ==> forall|kn: Kernels, m: spec_fn(Ptr) -> u8, ok: spec_fn(int) -> bool, j: int| #[trigger]
        leaves_recurrence(
            acc,
            kn,
            m,
            ran(kn, m, c, ok, 0),
            q,
            k,
            v,
            beta_g,
            states,
            out,
            h_k,
            h_v,
            d,
            j,
        )
}

/// The records that the last command of a program brings to the host.
pub open spec fn records_of(k: Kernels, m: spec_fn(Ptr) -> u8, c: Seq<Cmd>, ok: spec_fn(int) -> bool) -> Seq<
    u8,
> {
    match c.last() {
        Cmd::D2h { dst: Host::Records, src, bytes } => bytes_at(
            ran(k, m, c.drop_last(), ok, 0),
            src,
            bytes as int,
        ),
        _ => Seq::empty(),
    }
}

/// The record that comes back of row `s`: the largest of the largest of each block.
pub open spec fn record_brought(
    acc: Q4Acc,
    k: Kernels,
    m: spec_fn(Ptr) -> u8,
    c: Seq<Cmd>,
    ok: spec_fn(int) -> bool,
    logits: u64,
    t: int,
    vocab: int,
    s: int,
    b: int,
) -> bool {
    let n = spec_argmax_blocks(vocab);
    let y = records_of(k, m, c, ok);
    let part = (k.op)(
        Op::MaxPart,
        seq![vocab, n],
        seq![row_at(m, frame(acc, logits), vocab * 4, s)],
        none(),
    );
    &&& y.len() == t * 8
    &&& 0 <= s < t && 0 <= b < 8 ==> y[s * 8 + b] == (k.op)(
        Op::MaxOf,
        seq![n],
        seq![Seq::new((n * 8) as nat, |i: int| part[i])],
        none(),
    )[b]
}

/// The program brings a record of every row to the host.
pub open spec fn brings_records(acc: Q4Acc, logits: u64, t: int, vocab: int, c: Seq<Cmd>) -> bool {
    vocab <= i32::MAX && t <= i32::MAX && (t + 1) * 520 <= usize::MAX ==> forall|
        k: Kernels,
        m: spec_fn(Ptr) -> u8,
        ok: spec_fn(int) -> bool,
        s: int,
        b: int,
    | #[trigger]
        record_brought(acc, k, m, c, ok, logits, t, vocab, s, b)
}

/// Byte `b` of value `o` of the hidden layer.
pub open spec fn leaves_hidden(
    acc: Q4Acc,
    k: Kernels,
    m: spec_fn(Ptr) -> u8,
    after: spec_fn(Ptr) -> u8,
    x: u64,
    wg: Weight,
    wu: Weight,
    h: u64,
    n_in: int,
    n_hidden: int,
    o: int,
    b: int,
) -> bool {
    0 <= o < n_hidden && 0 <= b < 4 ==> after(frame(acc, h).spec_at(o * 4 + b)) == (k.op)(
        Op::GateUp,
        seq![n_in, o],
        seq![bytes_at(m, frame(acc, x), n_in * 4)],
        seq![view(m, spec_wptr(wg)), view(m, spec_wptr(wu))],
    )[b]
}

/// The program computes every value of the hidden layer from the row and the weights of
/// gate and up projection.
pub open spec fn gates_row(
    acc: Q4Acc,
    x: u64,
    wg: Weight,
    wu: Weight,
    h: u64,
    n_in: int,
    n_hidden: int,
    c: Seq<Cmd>,
) -> bool {
    n_in <= i32::MAX && n_hidden <= i32::MAX && reaches(acc, h, n_hidden * 4) ==> forall|
        k: Kernels,
        m: spec_fn(Ptr) -> u8,
        ok: spec_fn(int) -> bool,
        o: int,
        b: int,
    | #[trigger]
        leaves_hidden(acc, k, m, ran(k, m, c, ok, 0), x, wg, wu, h, n_in, n_hidden, o, b)
}

/// Byte `b` of value `o` of the output.
pub open spec fn leaves_added(
    acc: Q4Acc,
    k: Kernels,
    m: spec_fn(Ptr) -> u8,
    after: spec_fn(Ptr) -> u8,
    h: u64,
    wd: Weight,
    s: u64,
    mout: u64,
    n_in: int,
    n_hidden: int,
    o: int,
    b: int,
) -> bool {
    0 <= o < n_in && 0 <= b < 4 ==> after(frame(acc, mout).spec_at(o * 4 + b)) == (k.op)(
        Op::DownAdd,
        seq![n_hidden, o],
        seq![
            value_at(m, frame(acc, mout), o),
            bytes_at(m, frame(acc, h), n_hidden * 4),
            value_at(m, frame(acc, s), 0),
        ],
        seq![view(m, spec_wptr(wd))],
    )[b]
}

/// The program adds to every value of the output the down projection of the hidden layer,
/// scaled.
pub open spec fn adds_down(
    acc: Q4Acc,
    h: u64,
    wd: Weight,
    s: u64,
    mout: u64,
    n_in: int,
    n_hidden: int,
    c: Seq<Cmd>,
) -> bool {
    n_in <= i32::MAX && n_hidden <= i32::MAX && reaches(acc, mout, n_in * 4) ==> forall|
        k: Kernels,
        m: spec_fn(Ptr) -> u8,
        ok: spec_fn(int) -> bool,
        o: int,
        b: int,
    | #[trigger]
        leaves_added(acc, k, m, ran(k, m, c, ok, 0), h, wd, s, mout, n_in, n_hidden, o, b)
}

/// Byte `b` of the output row of sequence `s`, which goes by its own entry of the table of
/// states.
pub open spec fn leaves_conv_step(
    acc: Q4Acc,
    k: Kernels,
    m: spec_fn(Ptr) -> u8,
    after: spec_fn(Ptr) -> u8,
    qkv: u64,
    out: u64,
    cw: u64,
    ch: int,
    kk: int,
    t: int,
    s: int,
    b: int,
) -> bool {
    let len = ch * 4;
    0 <= s < t && 0 <= b < len ==> after(frame(acc, out).spec_at(s * len + b)) == (k.op)(
        Op::ConvStep,
        seq![ch, kk],
        seq![
            row_at(m, frame(acc, qkv), len, s),
            bytes_at(m, frame(acc, cw), kk * len),
            state_entry(k, s),
        ],
        none(),
    )[b]
}

/// Entry `s` of the table of states.
pub open spec fn state_entry(k: Kernels, s: int) -> Seq<u8> {
    Seq::new(8, |b: int| (k.host)(Host::States, s * 8 + b))
}

/// The program runs one step of the convolution for every sequence.
pub open spec fn steps_conv(
    acc: Q4Acc,
    qkv: u64,
    out: u64,
    cw: u64,
    ch: int,
    kk: int,
    t: int,
    c: Seq<Cmd>,
) -> bool {
    ch <= i32::MAX && kk <= i32::MAX && t <= i32::MAX && t * 8 <= usize::MAX && reaches(
        acc,
        out,
        t * (ch * 4),
    ) ==> forall|
        k: Kernels,
        m: spec_fn(Ptr) -> u8,
        ok: spec_fn(int) -> bool,
        s: int,
        b: int,
    | #[trigger]
        leaves_conv_step(acc, k, m, ran(k, m, c, ok, 0), qkv, out, cw, ch, kk, t, s, b)
}

/// Byte `b` of the output row of sequence `s`.
pub open spec fn leaves_ar_step(
    acc: Q4Acc,
    kn: Kernels,
    m: spec_fn(Ptr) -> u8,
    after: spec_fn(Ptr) -> u8,
    q: u64,
    k: u64,
    v: u64,
    beta_g: u64,
    out: u64,
    h_k: int,
    h_v: int,
    d: int,
    t: int,
    s: int,
    b: int,
) -> bool {
    let (kl, vl) = (h_k * d * 4, h_v * d * 4);
    0 <= s < t && 0 <= b < vl ==> after(frame(acc, out).spec_at(s * vl + b)) == (kn.op)(
        Op::RecurrenceStep,
        seq![d, h_v, h_k, ONE as int],
        seq![
            state_entry(kn, s),
            row_at(m, frame(acc, q), kl, s),
            row_at(m, frame(acc, k), kl, s),
            row_at(m, frame(acc, v), vl, s),
            row_at(m, frame(acc, beta_g), h_v * 8, s),
        ],
        none(),
    )[b]
}

/// The program runs one step of the recurrence for every sequence.
pub open spec fn steps_ar(
    acc: Q4Acc,
    q: u64,
    k: u64,
    v: u64,
    beta_g: u64,
    out: u64,
    h_k: int,
    h_v: int,
    d: int,
    t: int,
    c: Seq<Cmd>,
) -> bool {
    h_k * d <= i32::MAX && h_v * d <= i32::MAX && h_k <= i32::MAX && h_v <= i32::MAX && d <= i32::MAX
        && t <= i32::MAX && t * 8 <= usize::MAX && reaches(acc, out, t * (h_v * d * 4)) ==> forall|
        kn: Kernels,
        m: spec_fn(Ptr) -> u8,
        ok: spec_fn(int) -> bool,
        s: int,
        b: int,
    | #[trigger]
        leaves_ar_step(
            acc,
            kn,
            m,
            ran(kn, m, c, ok, 0),
            q,
            k,
            v,
            beta_g,
            out,
            h_k,
            h_v,
            d,
            t,
            s,
            b,
        )
}

impl Q4Acc {
    /// Every token is copied to each of its expert rows.
    pub proof fn law_gather_copies_tokens(
        &self,
        mix: u64,
        xsel: u64,
        n: usize,
        k_sel: usize,
        t: usize,
    )
        requires
            frame(*self, xsel) is Dev,
        ensures
            copies_tokens(
                *self,
                mix,
                xsel,
                n as int,
                k_sel as int,
                t as int,
                seq![
                    spec_launch(
                        Call::MoeGather {
                            mix: frame(*self, mix),
                            xsel: frame(*self, xsel),
                            n: n as i32,
                            k_sel: k_sel as i32,
                            t: t as i32,
                        },
                        spec_blocks(t * k_sel * n, 128),
                        1,
                        1,
                        128,
                    ),
                ],
            ),
    {
        let (nn, ks, tt) = (n as int, k_sel as int, t as int);
        let c = seq![
            spec_launch(
                Call::MoeGather {
                    mix: frame(*self, mix),
                    xsel: frame(*self, xsel),
                    n: n as i32,
                    k_sel: k_sel as i32,
                    t: t as i32,
                },
                spec_blocks(t * k_sel * n, 128),
                1,
                1,
                128,
            ),
        ];
        if nn <= i32::MAX && ks <= i32::MAX && tt <= i32::MAX && tt * ks * nn <= u32::MAX && reaches(
            *self,
            xsel,
            tt * ks * (nn * 4),
        ) {
            assert forall|
                k: Kernels,
                m: spec_fn(Ptr) -> u8,
                ok: spec_fn(int) -> bool,
                s: int,
                j: int,
                b: int,
            | #[trigger]
                token_copied(*self, m, ran(k, m, c, ok, 0), mix, xsel, nn, ks, tt, s, j, b) by {
                lemma_one_command(k, m, c, ok, 0);
                let len = nn * 4;
                if 0 <= s < tt && 0 <= j < ks && 0 <= b < len {
                    assert(0 <= tt * ks && 0 <= tt * ks * nn) by (nonlinear_arith)
                        requires
                            0 <= tt,
                            0 <= ks,
                            0 <= nn,
                    ;
                    lemma_blocks(tt * ks * nn, 128);
                    lemma_in_row(s, j, ks, tt);
                    lemma_in_row(s * ks + j, b, len, tt * ks);
                    let out = frame(*self, xsel);
                    let d = (s * ks + j) * len + b;
                    assert(distance(out, out.spec_at(d)) == Some(d));
                }
            }
        }
    }

    /// Every value of every token is the weighted sum of the token's expert rows.
    pub proof fn law_scatter_sums_tokens(
        &self,
        ys: u64,
        wt: u64,
        out: u64,
        k_sel: usize,
        n: usize,
        t: usize,
    )
        requires
            frame(*self, out) is Dev,
        ensures
            sums_tokens(
                *self,
                ys,
                wt,
                out,
                k_sel as int,
                n as int,
                t as int,
                seq![
                    spec_launch(
                        Call::MoeScatter {
                            ys: frame(*self, ys),
                            wt: frame(*self, wt),
                            out: frame(*self, out),
                            k_sel: k_sel as i32,
                            n: n as i32,
                            t: t as i32,
                        },
                        spec_blocks(t * n, 128),
                        1,
                        1,
                        128,
                    ),
                ],
            ),
    {
        let (nn, ks, tt) = (n as int, k_sel as int, t as int);
        let c = seq![
            spec_launch(
                Call::MoeScatter {
                    ys: frame(*self, ys),
                    wt: frame(*self, wt),
                    out: frame(*self, out),
                    k_sel: k_sel as i32,
                    n: n as i32,
                    t: t as i32,
                },
                spec_blocks(t * n, 128),
                1,
                1,
                128,
            ),
        ];
        if nn <= i32::MAX && ks <= i32::MAX && tt <= i32::MAX && tt * nn <= u32::MAX && reaches(
            *self,
            out,
            tt * nn * 4,
        ) {
            assert forall|
                k: Kernels,
                m: spec_fn(Ptr) -> u8,
                ok: spec_fn(int) -> bool,
                s: int,
                e: int,
                b: int,
            | #[trigger]
                token_summed(*self, k, m, ran(k, m, c, ok, 0), ys, wt, out, ks, nn, tt, s, e, b) by {
                lemma_one_command(k, m, c, ok, 0);
                if 0 <= s < tt && 0 <= e < nn && 0 <= b < 4 {
                    lemma_in_row(s, e, nn, tt);
                    lemma_blocks(tt * nn, 128);
                    let o = frame(*self, out);
                    let d = (s * nn + e) * 4 + b;
                    assert(d / 4 == s * nn + e && d % 4 == b);
                    assert(distance(o, o.spec_at(d)) == Some(d));
                }
            }
        }
    }

    /// The step of the recurrence takes every argument from its own frame.
    pub proof fn law_step_runs_recurrence(
        &self,
        q: u64,
        k: u64,
        v: u64,
        beta_g: u64,
        states: u64,
        out: u64,
        h_k: usize,
        h_v: usize,
        d: usize,
    )
        requires
            frame(*self, states) is Dev,
            frame(*self, out) is Dev,
            self.spec_t() <= usize::MAX,
        ensures
            runs_recurrence(
                *self,
                q,
                k,
                v,
                beta_g,
                states,
                out,
                h_k as int,
                h_v as int,
                d as int,
                seq![
                    self.gdn_ar_launch(
                        seq![
                            frame(*self, states),
                            frame(*self, q),
                            frame(*self, k),
                            frame(*self, v),
                            frame(*self, beta_g),
                            frame(*self, out),
                        ],
                        h_k,
                        h_v,
                        d,
                    ),
                ],
            ),
    {
        let p = seq![
            frame(*self, states),
            frame(*self, q),
            frame(*self, k),
            frame(*self, v),
            frame(*self, beta_g),
            frame(*self, out),
        ];
        let c = seq![self.gdn_ar_launch(p, h_k, h_v, d)];
        let (hk, hv, dd, t) = (h_k as int, h_v as int, d as int, self.spec_t());
        let (st, o) = (frame(*self, states), frame(*self, out));
        if hk * dd <= i32::MAX && hv * dd <= i32::MAX && hk <= i32::MAX && hv <= i32::MAX && dd
            <= i32::MAX && t <= i32::MAX && reaches(*self, out, t * (hv * dd * 4)) && reaches(
            *self,
            states,
            hv * dd * dd * 4,
        ) && are_apart(st, hv * dd * dd * 4, o, t * (hv * dd * 4)) {
            assert forall|kn: Kernels, m: spec_fn(Ptr) -> u8, ok: spec_fn(int) -> bool, j: int| #[trigger]
                leaves_recurrence(
                    *self,
                    kn,
                    m,
                    ran(kn, m, c, ok, 0),
                    q,
                    k,
                    v,
                    beta_g,
                    states,
                    out,
                    hk,
                    hv,
                    dd,
                    j,
                ) by {
                lemma_one_command(kn, m, c, ok, 0);
                assert(0 <= hk * dd && 0 <= hv * dd) by (nonlinear_arith)
                    requires
                        0 <= hk,
                        0 <= hv,
                        0 <= dd,
                ;
                if 0 <= j < t * (hv * dd * 4) {
                    assert(distance(o, o.spec_at(j)) == Some(j));
                    assert(!is_inside(st, hv * dd * dd * 4, o.spec_at(j)));
                }
                if 0 <= j < hv * dd * dd * 4 {
                    assert(distance(st, st.spec_at(j)) == Some(j));
                }
            }
        }
    }

    /// The record of every row is that of its own logits.
    pub proof fn law_argmax_brings_records(&self, logits: u64, t: usize, vocab: usize)
        requires
            frame(*self, logits) is Dev,
        ensures
            brings_records(
                *self,
                logits,
                t as int,
                vocab as int,
                Q4Acc::argmax_program(frame(*self, logits), t as int, vocab as int),
            ),
    {
        let (tt, vv) = (t as int, vocab as int);
        let x = frame(*self, logits);
        let c = Q4Acc::argmax_program(x, tt, vv);
        if vv <= i32::MAX && tt <= i32::MAX && (tt + 1) * 520 <= usize::MAX {
            assert forall|k: Kernels, m: spec_fn(Ptr) -> u8, ok: spec_fn(int) -> bool, s: int, b: int| #[trigger]
                record_brought(*self, k, m, c, ok, logits, tt, vv, s, b) by {
                let rows = vstd::math::max(tt, 1);
                let n = spec_argmax_blocks(vv);
                let len = n * 8;
                let part = spec_buf(Slot::Scratch);
                assert(rows * n * 8 == rows * len && 0 <= rows * len <= rows * 512 && 0 <= tt * 8)
                    by (nonlinear_arith)
                    requires
                        len == n * 8,
                        1 <= n <= 64,
                        1 <= rows,
                        0 <= tt,
                ;
                let out = part.spec_at(rows * len);
                let d = c.drop_last();
                reveal_with_fuel(ran, 5);
                assert(d.skip(1)[0] == c[1]);
                assert(d.skip(1).skip(1)[0] == c[2]);
                assert(d.skip(1).skip(1).skip(1)[0] == c[3]);
                assert(d.skip(1).skip(1).skip(1).skip(1) =~= Seq::<Cmd>::empty());
                let m1 = performed(k, m, c[2]);
                let m2 = performed(k, m1, c[3]);
                assert(ran(k, m, d, ok, 0) == m2);
                if 0 <= s < tt && 0 <= b < 8 {
                    lemma_in_row(s, b, 8, rows);
                    assert(distance(out, out.spec_at(s * 8 + b)) == Some(s * 8 + b));
                    let have = row_at(m1, part, len, s);
                    let made = (k.op)(
                        Op::MaxPart,
                        seq![vv, n],
                        seq![row_at(m, x, vv * 4, s)],
                        none(),
                    );
                    assert forall|i: int| 0 <= i < len implies have[i] == made[i] by {
                        lemma_in_row(s, i, len, rows);
                        assert(part.spec_at(s * len).spec_at(i) == part.spec_at(s * len + i));
                        assert(distance(part, part.spec_at(s * len + i)) == Some(s * len + i));
                    }
                    assert(have =~= Seq::new(len as nat, |i: int| made[i]));
                    let y = records_of(k, m, c, ok);
                    assert(y[s * 8 + b] == m2(out.spec_at(s * 8 + b)));
                    assert(m2(out.spec_at(s * 8 + b)) == (k.op)(
                        Op::MaxOf,
                        seq![n],
                        seq![have],
                        none(),
                    )[b]);
                }
            }
        }
    }
}

/// Behind commands that change nothing, the last one is a launch.
pub proof fn lemma_last_launch(
    k: Kernels,
    m: spec_fn(Ptr) -> u8,
    c: Seq<Cmd>,
    ok: spec_fn(int) -> bool,
    at: int,
)
    requires
        c.len() >= 1,
        forall|i: int| 0 <= i < c.len() - 1 ==> #[trigger] c[i] is Weight,
        c.last() is Launch,
    ensures
        ran(k, m, c, ok, at) == performed(k, m, c.last()),
    decreases c.len(),
{
    if c.len() == 1 {
        lemma_one_command(k, m, c, ok, at);
    } else {
        assert(c[0] is Weight);
        assert forall|i: int| 0 <= i < c.skip(1).len() - 1 implies #[trigger] c.skip(1)[i] is Weight by {
            assert(c[i + 1] is Weight);
        }
        assert(c.skip(1).last() == c.last());
        lemma_last_launch(k, m, c.skip(1), ok, at + 1);
    }
}

impl Q4Acc {
    /// Gating and up projection make every value of the hidden layer.
    pub proof fn law_gate_and_up(
        &self,
        x: u64,
        wg: Weight,
        wu: Weight,
        h: u64,
        n_in: usize,
        n_hidden: usize,
        c: Seq<Cmd>,
    )
        requires
            frame(*self, h) is Dev,
            c.len() >= 1,
            forall|i: int| 0 <= i < c.len() - 1 ==> #[trigger] c[i] is Weight,
            c.last() == spec_launch(
                Call::ShexpGu {
                    x: frame(*self, x),
                    wg: spec_wptr(wg),
                    wu: spec_wptr(wu),
                    h: frame(*self, h),
                    n_in: n_in as i32,
                    n_hidden: n_hidden as i32,
                },
                crate::arith::spec_ceil_div(n_hidden as int, 8) as u32,
                1,
                1,
                256,
            ),
        ensures
            gates_row(*self, x, wg, wu, h, n_in as int, n_hidden as int, c),
    {
        let (ni, nh) = (n_in as int, n_hidden as int);
        if ni <= i32::MAX && nh <= i32::MAX && reaches(*self, h, nh * 4) {
            assert forall|k: Kernels, m: spec_fn(Ptr) -> u8, ok: spec_fn(int) -> bool, o: int, b: int| #[trigger]
                leaves_hidden(*self, k, m, ran(k, m, c, ok, 0), x, wg, wu, h, ni, nh, o, b) by {
                lemma_last_launch(k, m, c, ok, 0);
                lemma_ceil_div(nh, 8);
                if 0 <= o < nh && 0 <= b < 4 {
                    let p = frame(*self, h);
                    assert((o * 4 + b) / 4 == o && (o * 4 + b) % 4 == b);
                    assert(distance(p, p.spec_at(o * 4 + b)) == Some(o * 4 + b));
                }
            }
        }
    }

    /// The down projection is added to every value of the output.
    pub proof fn law_down_and_add(
        &self,
        h: u64,
        wd: Weight,
        s: u64,
        mout: u64,
        n_in: usize,
        n_hidden: usize,
        c: Seq<Cmd>,
    )
        requires
            frame(*self, mout) is Dev,
            c.len() >= 1,
            forall|i: int| 0 <= i < c.len() - 1 ==> #[trigger] c[i] is Weight,
            c.last() == spec_launch(
                Call::ShexpDa {
                    h: frame(*self, h),
                    wd: spec_wptr(wd),
                    s: frame(*self, s),
                    out: frame(*self, mout),
                    n_in: n_in as i32,
                    n_hidden: n_hidden as i32,
                },
                crate::arith::spec_ceil_div(n_in as int, 8) as u32,
                1,
                1,
                256,
            ),
        ensures
            adds_down(*self, h, wd, s, mout, n_in as int, n_hidden as int, c),
    {
        let (ni, nh) = (n_in as int, n_hidden as int);
        if ni <= i32::MAX && nh <= i32::MAX && reaches(*self, mout, ni * 4) {
            assert forall|k: Kernels, m: spec_fn(Ptr) -> u8, ok: spec_fn(int) -> bool, o: int, b: int| #[trigger]
                leaves_added(*self, k, m, ran(k, m, c, ok, 0), h, wd, s, mout, ni, nh, o, b) by {
                lemma_last_launch(k, m, c, ok, 0);
                lemma_ceil_div(ni, 8);
                if 0 <= o < ni && 0 <= b < 4 {
                    let p = frame(*self, mout);
                    assert((o * 4 + b) / 4 == o && (o * 4 + b) % 4 == b);
                    assert(distance(p, p.spec_at(o * 4 + b)) == Some(o * 4 + b));
                }
            }
        }
    }
}

/// The table of states arrives, and then the launch runs.
proof fn lemma_states(k: Kernels, m: spec_fn(Ptr) -> u8, t: int, l: Cmd, ok: spec_fn(int) -> bool)
    requires
        0 <= t * 8 <= usize::MAX,
        l is Launch,
    ensures
        ({
            let had = written(
                m,
                spec_buf(Slot::Scratch),
                t * 8,
                |j: int| (k.host)(Host::States, j),
            );
            &&& ran(k, m, Q4Acc::states_program(t).push(l), ok, 0) == performed(k, had, l)
            &&& forall|s: int|
                0 <= s < t ==> #[trigger] row_at(had, spec_buf(Slot::Scratch), 8, s)
                    == state_entry(k, s)
        }),
{
    let c = Q4Acc::states_program(t).push(l);
    let part = spec_buf(Slot::Scratch);
    let had = written(m, part, t * 8, |j: int| (k.host)(Host::States, j));
    reveal_with_fuel(ran, 4);
    assert(c.skip(1)[0] == c[1]);
    assert(c.skip(1).skip(1)[0] == l);
    assert(c.skip(1).skip(1).skip(1) =~= Seq::<Cmd>::empty());
    assert forall|s: int| 0 <= s < t implies #[trigger] row_at(had, part, 8, s) == state_entry(
        k,
        s,
    ) by {
        assert forall|b: int| 0 <= b < 8 implies row_at(had, part, 8, s)[b] == state_entry(k, s)[b] by {
            assert(part.spec_at(s * 8).spec_at(b) == part.spec_at(s * 8 + b));
            assert(distance(part, part.spec_at(s * 8 + b)) == Some(s * 8 + b));
        }
        assert(row_at(had, part, 8, s) =~= state_entry(k, s));
    }
}

impl Q4Acc {
    /// Every sequence takes its own row and its own state.
    pub proof fn law_conv_steps_by_sequence(
        &self,
        qkv: u64,
        out: u64,
        cw: u64,
        ch: usize,
        kk: usize,
        t: usize,
    )
        requires
            frame(*self, qkv) is Dev,
            frame(*self, cw) is Dev,
            frame(*self, out) is Dev,
        ensures
            steps_conv(
                *self,
                qkv,
                out,
                cw,
                ch as int,
                kk as int,
                t as int,
                Q4Acc::states_program(t as int).push(
                    spec_launch(
                        Call::GdnConvNp {
                            qkv: frame(*self, qkv),
                            cw: frame(*self, cw),
                            states: spec_buf(Slot::Scratch),
                            out: frame(*self, out),
                            ch: ch as i32,
                            k: kk as i32,
                            t: t as i32,
                        },
                        spec_blocks(ch as int, 64),
                        t as u32,
                        1,
                        64,
                    ),
                ),
            ),
    {
        let (hh, ks, tt) = (ch as int, kk as int, t as int);
        let l = spec_launch(
            Call::GdnConvNp {
                qkv: frame(*self, qkv),
                cw: frame(*self, cw),
                states: spec_buf(Slot::Scratch),
                out: frame(*self, out),
                ch: ch as i32,
                k: kk as i32,
                t: t as i32,
            },
            spec_blocks(ch as int, 64),
            t as u32,
            1,
            64,
        );
        let c = Q4Acc::states_program(tt).push(l);
        if hh <= i32::MAX && ks <= i32::MAX && tt <= i32::MAX && tt * 8 <= usize::MAX && reaches(
            *self,
            out,
            tt * (hh * 4),
        ) {
            assert forall|k: Kernels, m: spec_fn(Ptr) -> u8, ok: spec_fn(int) -> bool, s: int, b: int| #[trigger]
                leaves_conv_step(*self, k, m, ran(k, m, c, ok, 0), qkv, out, cw, hh, ks, tt, s, b) by {
                lemma_states(k, m, tt, l, ok);
                let had = written(
                    m,
                    spec_buf(Slot::Scratch),
                    tt * 8,
                    |j: int| (k.host)(Host::States, j),
                );
                let len = hh * 4;
                lemma_blocks(hh, 64);
                if 0 <= s < tt && 0 <= b < len {
                    lemma_in_row(s, b, len, tt);
                    let o = frame(*self, out);
                    assert(distance(o, o.spec_at(s * len + b)) == Some(s * len + b));
                    assert(row_at(had, frame(*self, qkv), len, s) =~= row_at(
                        m,
                        frame(*self, qkv),
                        len,
                        s,
                    ));
                    assert(bytes_at(had, frame(*self, cw), ks * len) =~= bytes_at(
                        m,
                        frame(*self, cw),
                        ks * len,
                    ));
                }
            }
        }
    }

    /// Every sequence takes its own rows and its own state.
    pub proof fn law_ar_steps_by_sequence(
        &self,
        q: u64,
        k: u64,
        v: u64,
        beta_g: u64,
        out: u64,
        h_k: usize,
        h_v: usize,
        d: usize,
        t: usize,
    )
        requires
            frame(*self, q) is Dev,
            frame(*self, k) is Dev,
            frame(*self, v) is Dev,
            frame(*self, beta_g) is Dev,
            frame(*self, out) is Dev,
        ensures
            steps_ar(
                *self,
                q,
                k,
                v,
                beta_g,
                out,
                h_k as int,
                h_v as int,
                d as int,
                t as int,
                Q4Acc::states_program(t as int).push(
                    spec_launch(
                        Call::GdnArNp {
                            state: spec_buf(Slot::Scratch),
                            q: frame(*self, q),
                            k: frame(*self, k),
                            v: frame(*self, v),
                            beta_g: frame(*self, beta_g),
                            out: frame(*self, out),
                            d: d as i32,
                            k_stride: (h_k * d) as i32,
                            v_stride: (h_v * d) as i32,
                            h_v: h_v as i32,
                            h_k: h_k as i32,
                            scale: ONE,
                            t: t as i32,
                        },
                        h_v as u32,
                        d as u32,
                        1,
                        32,
                    ),
                ),
            ),
    {
        let (hk, hv, dd, tt) = (h_k as int, h_v as int, d as int, t as int);
        let l = spec_launch(
            Call::GdnArNp {
                state: spec_buf(Slot::Scratch),
                q: frame(*self, q),
                k: frame(*self, k),
                v: frame(*self, v),
                beta_g: frame(*self, beta_g),
                out: frame(*self, out),
                d: d as i32,
                k_stride: (h_k * d) as i32,
                v_stride: (h_v * d) as i32,
                h_v: h_v as i32,
                h_k: h_k as i32,
                scale: ONE,
                t: t as i32,
            },
            h_v as u32,
            d as u32,
            1,
            32,
        );
        let c = Q4Acc::states_program(tt).push(l);
        if hk * dd <= i32::MAX && hv * dd <= i32::MAX && hk <= i32::MAX && hv <= i32::MAX && dd
            <= i32::MAX && tt <= i32::MAX && tt * 8 <= usize::MAX && reaches(
            *self,
            out,
            tt * (hv * dd * 4),
        ) {
            assert forall|kn: Kernels, m: spec_fn(Ptr) -> u8, ok: spec_fn(int) -> bool, s: int, b: int| #[trigger]
                leaves_ar_step(
                    *self,
                    kn,
                    m,
                    ran(kn, m, c, ok, 0),
                    q,
                    k,
                    v,
                    beta_g,
                    out,
                    hk,
                    hv,
                    dd,
                    tt,
                    s,
                    b,
                ) by {
                lemma_states(kn, m, tt, l, ok);
                let had = written(
                    m,
                    spec_buf(Slot::Scratch),
                    tt * 8,
                    |j: int| (kn.host)(Host::States, j),
                );
                let (kl, vl) = (hk * dd * 4, hv * dd * 4);
                assert(0 <= hk * dd && 0 <= hv * dd) by (nonlinear_arith)
                    requires
                        0 <= hk,
                        0 <= hv,
                        0 <= dd,
                ;
                if 0 <= s < tt && 0 <= b < vl {
                    lemma_in_row(s, b, vl, tt);
                    let o = frame(*self, out);
                    assert(distance(o, o.spec_at(s * vl + b)) == Some(s * vl + b));
                    lemma_row_had(had, m, frame(*self, q), kl, s);
                    lemma_row_had(had, m, frame(*self, k), kl, s);
                    lemma_row_had(had, m, frame(*self, v), vl, s);
                    lemma_row_had(had, m, frame(*self, beta_g), hv * 8, s);
                }
            }
        }
    }
}

/// A row of a frame is untouched by what goes to the library's own buffers.
pub proof fn lemma_row_had(had: spec_fn(Ptr) -> u8, m: spec_fn(Ptr) -> u8, p: Ptr, len: int, s: int)
    requires
        p is Dev,
        forall|q: Ptr| q is Dev ==> #[trigger] had(q) == m(q),
    ensures
        row_at(had, p, len, s) == row_at(m, p, len, s),
{
    assert(row_at(had, p, len, s) =~= row_at(m, p, len, s));
}

} // verus!
