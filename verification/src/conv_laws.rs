//! The convolution in one step and in bands.
//!
//! The kernels appear as parameters: one function moves the ring on by a row, another
//! gives a row of output from the ring, the weights and a row of input. Memory is
//! modelled byte by byte.

use vstd::prelude::*;
use crate::arith::lemma_ceil_div;
use crate::device::{Cmd, Ptr};
use crate::grids::covers;
use crate::kernels::Call;
use crate::acc::Q4Acc;
use crate::op_laws::{frame, is_program, lemma_frames};
use crate::memory::{distance, is_inside, written};
use crate::ops::{conv_step, op_cmds, spec_blocks, FrameOp};
use crate::probe_gdn::band;
use crate::recurrence_laws::{are_apart, bytes_at, is_range};

verus! {

/// What the kernels compute.
pub struct ConvKernel {
    /// The ring behind a row.
    pub shift: spec_fn(Seq<u8>, Seq<u8>) -> Seq<u8>,
    /// The output of a row, from the ring before it and the weights.
    pub mix: spec_fn(Seq<u8>, Seq<u8>, Seq<u8>) -> Seq<u8>,
}

impl ConvKernel {
    /// The ring keeps its size.
    pub open spec fn keeps_size(&self) -> bool {
        forall|s: Seq<u8>, r: Seq<u8>| (#[trigger] (self.shift)(s, r)).len() == s.len()
    }
}

/// A convolution of `t` rows with `k` taps: its addresses and sizes.
pub struct Conv {
    pub qkv: Ptr,
    pub cw: Ptr,
    pub ring: Ptr,
    pub out: Ptr,
    pub ch: int,
    pub k: int,
    pub t: int,
}

impl Conv {
    /// Bytes of a row of input or output.
    pub open spec fn row_len(&self) -> int {
        self.ch * 4
    }

    pub open spec fn ring_len(&self) -> int {
        (self.k - 1) * self.ch * 4
    }

    pub open spec fn weights_len(&self) -> int {
        self.ch * self.k * 4
    }

    /// Row `i` of the input.
    pub open spec fn row(&self, m: spec_fn(Ptr) -> u8, i: int) -> Seq<u8> {
        bytes_at(m, self.qkv.spec_at(i * self.row_len()), self.row_len())
    }

    /// The ring after the first `i` rows.
    pub open spec fn ring_after(&self, m: spec_fn(Ptr) -> u8, f: ConvKernel, i: int) -> Seq<u8>
        decreases i,
    {
        if i <= 0 {
            bytes_at(m, self.ring, self.ring_len())
        } else {
            (f.shift)(self.ring_after(m, f, i - 1), self.row(m, i - 1))
        }
    }

    /// Row `i` of the output.
    pub open spec fn out_row(&self, m: spec_fn(Ptr) -> u8, f: ConvKernel, i: int) -> Seq<u8> {
        let cw = bytes_at(m, self.cw, self.weights_len());
        (f.mix)(self.ring_after(m, f, i), cw, self.row(m, i))
    }

    /// The memory after the rows of output were written.
    pub open spec fn mixed(&self, m: spec_fn(Ptr) -> u8, f: ConvKernel) -> spec_fn(Ptr) -> u8 {
        written(
            m,
            self.out,
            self.t * self.row_len(),
            |j: int| self.out_row(m, f, j / self.row_len())[j % self.row_len()],
        )
    }

    /// The memory `to` after the ring that memory `from` leads to was written.
    pub open spec fn shifted(
        &self,
        from: spec_fn(Ptr) -> u8,
        to: spec_fn(Ptr) -> u8,
        f: ConvKernel,
    ) -> spec_fn(Ptr) -> u8 {
        written(to, self.ring, self.ring_len(), |j: int| self.ring_after(from, f, self.t)[j])
    }

    /// The memory after all rows, one after the other.
    pub open spec fn run(&self, m: spec_fn(Ptr) -> u8, f: ConvKernel) -> spec_fn(Ptr) -> u8 {
        self.shifted(m, self.mixed(m, f), f)
    }

    /// Everything can be addressed, no result overwrites an input, and the results do
    /// not overwrite each other.
    pub open spec fn is_sound(&self) -> bool {
        let (n, r, w) = (self.t * self.row_len(), self.ring_len(), self.weights_len());
        &&& self.ch >= 0 && self.k >= 1 && self.t >= 0
        &&& is_range(self.qkv, n) && is_range(self.out, n)
        &&& is_range(self.ring, r) && is_range(self.cw, w)
        &&& are_apart(self.out, n, self.qkv, n) && are_apart(self.out, n, self.cw, w)
        &&& are_apart(self.ring, r, self.qkv, n) && are_apart(self.ring, r, self.cw, w)
        &&& are_apart(self.out, n, self.ring, r) && are_apart(self.ring, r, self.out, n)
    }

    /// Both have the same inputs and sizes; rings and outputs may lie elsewhere.
    pub open spec fn same_inputs(&self, y: Conv) -> bool {
        y == (Conv { ring: y.ring, out: y.out, ..*self })
    }

    /// Rows `c * per .. (c + 1) * per`.
    pub open spec fn banded(&self, per: int, c: int) -> Conv {
        Conv {
            qkv: self.qkv.spec_at(c * per * self.row_len()),
            out: self.out.spec_at(c * per * self.row_len()),
            t: per,
            ..*self
        }
    }

    /// The memory after the first `n` bands.
    pub open spec fn bands_run(
        &self,
        m: spec_fn(Ptr) -> u8,
        f: ConvKernel,
        per: int,
        n: int,
    ) -> spec_fn(Ptr) -> u8
        decreases n,
    {
        if n <= 0 {
            m
        } else {
            self.banded(per, n - 1).run(self.bands_run(m, f, per, n - 1), f)
        }
    }

    /// Two memories agree on the inputs.
    pub open spec fn agrees(&self, m: spec_fn(Ptr) -> u8, n: spec_fn(Ptr) -> u8) -> bool {
        &&& forall|j: int|
            0 <= j < self.t * self.row_len() ==> #[trigger] n(self.qkv.spec_at(j)) == m(
                self.qkv.spec_at(j),
            )
        &&& forall|j: int|
            0 <= j < self.weights_len() ==> #[trigger] n(self.cw.spec_at(j)) == m(
                self.cw.spec_at(j),
            )
    }

    proof fn lemma_sizes(&self)
        requires
            self.ch >= 0,
            self.k >= 1,
        ensures
            self.row_len() >= 0,
            self.ring_len() >= 0,
            self.weights_len() >= 0,
    {
        assert((self.k - 1) * self.ch * 4 >= 0 && self.ch * self.k * 4 >= 0) by (nonlinear_arith)
            requires
                self.ch >= 0,
                self.k >= 1,
        ;
    }

    proof fn lemma_ring_len(&self, m: spec_fn(Ptr) -> u8, f: ConvKernel, i: int)
        requires
            f.keeps_size(),
            self.ring_len() >= 0,
        ensures
            self.ring_after(m, f, i).len() == self.ring_len(),
        decreases i,
    {
        if i > 0 {
            self.lemma_ring_len(m, f, i - 1);
        }
    }

    /// A row of a band is a row of the whole.
    proof fn lemma_row_of_band(
        &self,
        y: Conv,
        m: spec_fn(Ptr) -> u8,
        n: spec_fn(Ptr) -> u8,
        per: int,
        c: int,
        i: int,
    )
        requires
            self.is_sound(),
            self.same_inputs(y),
            0 <= c,
            0 <= i < per,
            (c + 1) * per <= self.t,
            self.agrees(m, n),
        ensures
            y.banded(per, c).row(n, i) == self.row(m, c * per + i),
    {
        let (f, rl, t) = (c * per, self.row_len(), self.t);
        assert(0 <= f && f + per == (c + 1) * per) by (nonlinear_arith)
            requires
                f == c * per,
                0 <= c,
                0 < per,
        ;
        assert(f * rl + i * rl == (f + i) * rl && 0 <= f * rl && 0 <= i * rl && (f + i) * rl + rl
            <= t * rl) by (nonlinear_arith)
            requires
                0 <= f,
                0 <= i,
                0 <= rl,
                f + i + 1 <= t,
        ;
        let a = y.banded(per, c).qkv.spec_at(i * rl);
        let b = self.qkv.spec_at((f + i) * rl);
        assert(a == b);
        assert forall|j: int| 0 <= j < rl implies n(#[trigger] a.spec_at(j)) == m(b.spec_at(j)) by {
            assert(a.spec_at(j) == self.qkv.spec_at((f + i) * rl + j));
            assert(n(self.qkv.spec_at((f + i) * rl + j)) == m(self.qkv.spec_at((f + i) * rl + j)));
        }
        assert(bytes_at(n, a, rl) =~= bytes_at(m, b, rl));
    }

    /// From a memory that agrees with `m` on the inputs and holds the ring that `self`
    /// has reached after `c` bands, a band goes on as `self` does.
    proof fn lemma_band_goes_on(
        &self,
        y: Conv,
        m: spec_fn(Ptr) -> u8,
        n: spec_fn(Ptr) -> u8,
        f: ConvKernel,
        per: int,
        c: int,
        i: int,
    )
        requires
            self.is_sound(),
            self.same_inputs(y),
            0 <= c,
            0 < per,
            (c + 1) * per <= self.t,
            0 <= i <= per,
            self.agrees(m, n),
            bytes_at(n, y.ring, y.ring_len()) == self.ring_after(m, f, c * per),
        ensures
            y.banded(per, c).ring_after(n, f, i) == self.ring_after(m, f, c * per + i),
            i < per ==> y.banded(per, c).out_row(n, f, i) == self.out_row(m, f, c * per + i),
        decreases i,
    {
        assert(0 <= c * per) by (nonlinear_arith)
            requires
                0 <= c,
                0 < per,
        ;
        if i > 0 {
            self.lemma_band_goes_on(y, m, n, f, per, c, i - 1);
            self.lemma_row_of_band(y, m, n, per, c, i - 1);
        }
        if i < per {
            self.lemma_row_of_band(y, m, n, per, c, i);
            assert(bytes_at(n, self.cw, self.weights_len()) =~= bytes_at(
                m,
                self.cw,
                self.weights_len(),
            ));
        }
    }

    /// What the first `c` bands leave: the ring and the rows of the whole, and all other
    /// memory as it was.
    proof fn lemma_bands(
        &self,
        y: Conv,
        m: spec_fn(Ptr) -> u8,
        f: ConvKernel,
        per: int,
        c: int,
    )
        requires
            self.is_sound(),
            y.is_sound(),
            self.same_inputs(y),
            f.keeps_size(),
            bytes_at(m, self.ring, self.ring_len()) == bytes_at(m, y.ring, y.ring_len()),
            0 < per,
            0 <= c,
            c * per <= self.t,
        ensures
            ({
                let n = y.bands_run(m, f, per, c);
                &&& bytes_at(n, y.ring, y.ring_len()) == self.ring_after(m, f, c * per)
                &&& forall|j: int|
                    0 <= j < c * per * self.row_len() ==> #[trigger] n(y.out.spec_at(j))
                        == self.out_row(m, f, j / self.row_len())[j % self.row_len()]
                &&& forall|p: Ptr|
                    !is_inside(y.out, y.t * y.row_len(), p) && !is_inside(y.ring, y.ring_len(), p)
                        ==> #[trigger] n(p) == m(p)
            }),
        decreases c,
    {
        let rb = self.row_len();
        self.lemma_sizes();
        if c == 0 {
            assert(0 * per == 0 && 0 * per * rb == 0) by (nonlinear_arith);
        } else {
            let b0 = c - 1;
            let g = b0 * per;
            assert(g + per == c * per && 0 <= g && g * rb + per * rb == c * per * rb && 0 <= g * rb
                && 0 <= per * rb && c * per * rb <= self.t * rb) by (nonlinear_arith)
                requires
                    g == (c - 1) * per,
                    0 < c,
                    0 < per,
                    0 <= rb,
                    c * per <= self.t,
            ;
            self.lemma_bands(y, m, f, per, b0);
            let n = y.bands_run(m, f, per, b0);
            let b = y.banded(per, b0);
            let after = y.bands_run(m, f, per, c);
            self.lemma_inputs_kept(y, m, n);
            self.lemma_band_goes_on(y, m, n, f, per, b0, per);
            self.lemma_ring_len(m, f, c * per);
            assert forall|j: int| 0 <= j < y.ring_len() implies #[trigger] after(y.ring.spec_at(j))
                == self.ring_after(m, f, c * per)[j] by {
                assert(distance(y.ring, y.ring.spec_at(j)) == Some(j));
            }
            assert(bytes_at(after, y.ring, y.ring_len()) =~= self.ring_after(m, f, c * per));
            assert forall|j: int| 0 <= j < c * per * rb implies #[trigger] after(y.out.spec_at(j))
                == self.out_row(m, f, j / rb)[j % rb] by {
                let p = y.out.spec_at(j);
                assert(!is_inside(y.ring, y.ring_len(), p));
                assert(distance(b.out, p) == Some(j - g * rb));
                if j < g * rb {
                    assert(!is_inside(b.out, b.t * b.row_len(), p));
                    assert(n(p) == self.out_row(m, f, j / rb)[j % rb]);
                } else {
                    let o = j - g * rb;
                    assert(rb > 0) by (nonlinear_arith)
                        requires
                            0 <= o < per * rb,
                            0 < per,
                            0 <= rb,
                    ;
                    vstd::arithmetic::div_mod::lemma_hoist_over_denominator(o, g, rb as nat);
                    vstd::arithmetic::div_mod::lemma_mod_multiples_vanish(g, o, rb);
                    assert(rb * g == g * rb) by (nonlinear_arith);
                    vstd::arithmetic::div_mod::lemma_div_pos_is_pos(o, rb);
                    assert(o / rb < per) by (nonlinear_arith)
                        requires
                            0 <= o < per * rb,
                            0 < rb,
                    ;
                    self.lemma_band_goes_on(y, m, n, f, per, b0, o / rb);
                }
            }
            assert forall|p: Ptr|
                !is_inside(y.out, y.t * y.row_len(), p) && !is_inside(
                    y.ring,
                    y.ring_len(),
                    p,
                ) implies #[trigger] after(p) == m(p) by {
                assert(n(p) == m(p));
                if is_inside(b.out, b.t * b.row_len(), p) {
                    assert(is_inside(y.out, y.t * y.row_len(), p));
                }
            }
        }
    }

    /// A memory that changed in rings and outputs only agrees on the inputs.
    proof fn lemma_inputs_kept(&self, y: Conv, m: spec_fn(Ptr) -> u8, n: spec_fn(Ptr) -> u8)
        requires
            y.is_sound(),
            self.same_inputs(y),
            forall|p: Ptr|
                !is_inside(y.out, y.t * y.row_len(), p) && !is_inside(y.ring, y.ring_len(), p)
                    ==> #[trigger] n(p) == m(p),
        ensures
            self.agrees(m, n),
    {
        assert forall|j: int| 0 <= j < self.t * self.row_len() implies #[trigger] n(
            self.qkv.spec_at(j),
        ) == m(self.qkv.spec_at(j)) by {
            assert(!is_inside(y.out, y.t * y.row_len(), y.qkv.spec_at(j)));
            assert(!is_inside(y.ring, y.ring_len(), y.qkv.spec_at(j)));
        }
        assert forall|j: int| 0 <= j < self.weights_len() implies #[trigger] n(self.cw.spec_at(j))
            == m(self.cw.spec_at(j)) by {
            assert(!is_inside(y.out, y.t * y.row_len(), y.cw.spec_at(j)));
            assert(!is_inside(y.ring, y.ring_len(), y.cw.spec_at(j)));
        }
    }

    /// Bands that make up the whole leave what the whole leaves.
    proof fn lemma_bands_are_the_whole(&self, m: spec_fn(Ptr) -> u8, f: ConvKernel, per: int, c: int)
        requires
            self.is_sound(),
            f.keeps_size(),
            0 < per,
            0 <= c,
            c * per == self.t,
        ensures
            self.bands_run(m, f, per, c) =~= self.run(m, f),
    {
        self.lemma_bands(*self, m, f, per, c);
        self.lemma_sizes();
        let n = self.bands_run(m, f, per, c);
        assert forall|p: Ptr| #[trigger] n(p) == self.run(m, f)(p) by {
            if is_inside(self.ring, self.ring_len(), p) {
                let j = distance(self.ring, p).unwrap();
                assert(p == self.ring.spec_at(j));
                assert(bytes_at(n, self.ring, self.ring_len())[j] == n(p));
            } else if is_inside(self.out, self.t * self.row_len(), p) {
                let j = distance(self.out, p).unwrap();
                assert(p == self.out.spec_at(j));
            }
        }
    }
}

/// The memory after a command of the convolution. A launch whose grid leaves part of the
/// work out counts as none.
pub open spec fn convolved(m: spec_fn(Ptr) -> u8, f: ConvKernel, c: Cmd) -> spec_fn(Ptr) -> u8 {
    match c {
        Cmd::Launch(l) => if covers(l) {
            convolved_by(m, f, l.call)
        } else {
            m
        },
        _ => m,
    }
}

/// The memory after a kernel of the convolution.
pub open spec fn convolved_by(m: spec_fn(Ptr) -> u8, f: ConvKernel, c: Call) -> spec_fn(Ptr) -> u8 {
    match c {
            Call::GdnConv { qkv, cw, state, out, ch, k } => (Conv {
                qkv,
                cw,
                ring: state,
                out,
                ch: ch as int,
                k: k as int,
                t: 1,
            }).run(m, f),
            Call::GdnConvT2 { qkv, cw, state, out, ch, k, t } => (Conv {
                qkv,
                cw,
                ring: state,
                out,
                ch: ch as int,
                k: k as int,
                t: t as int,
            }).mixed(m, f),
            Call::GdnConvState { qkv, state, ch, k, t } => (Conv {
                qkv,
                cw: Ptr::Null,
                ring: state,
                out: Ptr::Null,
                ch: ch as int,
                k: k as int,
                t: t as int,
            }).shifted(m, m, f),
            _ => m,
    }
}

/// The memory after commands of the convolution, one after the other.
pub open spec fn all_convolved(m: spec_fn(Ptr) -> u8, f: ConvKernel, cmds: Seq<Cmd>) -> spec_fn(
    Ptr,
) -> u8
    decreases cmds.len(),
{
    if cmds.len() == 0 {
        m
    } else {
        convolved(all_convolved(m, f, cmds.drop_last()), f, cmds.last())
    }
}

/// The convolution of `t` tokens with input, weights, ring and output at the addresses
/// `p`.
pub open spec fn conv_of(p: Seq<Ptr>, ch: usize, k: usize, t: int) -> Conv {
    Conv { qkv: p[0], cw: p[1], ring: p[2], out: p[3], ch: ch as int, k: k as int, t }
}

/// The commands of the convolution of `t_len` tokens at the addresses `p`.
pub open spec fn conv_cmds(p: Seq<Ptr>, ch: usize, k: usize, t_len: usize) -> Seq<Cmd> {
    op_cmds(
        false,
        FrameOp::GdnConv { qkv: 0, cw: 0, state: 0, out: 0, ch, k, t_len },
        t_len as int,
        p,
    )
}

/// Blocks of 64 threads reach all channels.
proof fn lemma_channels_reach(ch: usize)
    requires
        ch <= i32::MAX,
    ensures
        spec_blocks(ch as int, 64) * 64 >= ch,
{
    lemma_ceil_div(ch as int, 64);
}

/// The ring depends on the rows and on the ring before them alone.
proof fn lemma_ring_same(
    a: Conv,
    b: Conv,
    m: spec_fn(Ptr) -> u8,
    n: spec_fn(Ptr) -> u8,
    f: ConvKernel,
    i: int,
)
    requires
        a.qkv == b.qkv,
        a.ring == b.ring,
        a.ch == b.ch,
        a.k == b.k,
        bytes_at(m, a.ring, a.ring_len()) == bytes_at(n, a.ring, a.ring_len()),
        forall|e: int| 0 <= e < i ==> a.row(m, e) == #[trigger] b.row(n, e),
    ensures
        a.ring_after(m, f, i) == b.ring_after(n, f, i),
    decreases i,
{
    if i > 0 {
        lemma_ring_same(a, b, m, n, f, i - 1);
        assert(a.row(m, i - 1) == b.row(n, i - 1));
    }
}

/// The commands of the short tail are bands of one token.
proof fn lemma_tail_is_bands(
    p: Seq<Ptr>,
    ch: usize,
    k: usize,
    t: int,
    m: spec_fn(Ptr) -> u8,
    f: ConvKernel,
    n: int,
)
    requires
        ch <= i32::MAX,
        k <= i32::MAX,
        0 <= n,
    ensures
        all_convolved(
            m,
            f,
            Seq::new(n as nat, |i: int| conv_step(p[0], p[1], p[2], p[3], ch, k, i)),
        ) == conv_of(p, ch, k, t).bands_run(m, f, 1, n),
    decreases n,
{
    let cmds = Seq::new(n as nat, |i: int| conv_step(p[0], p[1], p[2], p[3], ch, k, i));
    lemma_channels_reach(ch);
    if n > 0 {
        let less = Seq::new((n - 1) as nat, |i: int| conv_step(p[0], p[1], p[2], p[3], ch, k, i));
        assert(cmds.drop_last() =~= less);
        lemma_tail_is_bands(p, ch, k, t, m, f, n - 1);
        assert((n - 1) * 1 * (ch * 4) == (n - 1) * ch * 4) by (nonlinear_arith);
    }
}

/// The operation leaves what the rows one after the other leave, whichever kernels it
/// takes for its number of tokens.
proof fn lemma_op_completes(
    p: Seq<Ptr>,
    ch: usize,
    k: usize,
    t: usize,
    m: spec_fn(Ptr) -> u8,
    f: ConvKernel,
)
    requires
        conv_of(p, ch, k, t as int).is_sound(),
        ch <= i32::MAX,
        k <= i32::MAX,
        t <= i32::MAX,
        f.keeps_size(),
    ensures
        all_convolved(m, f, conv_cmds(p, ch, k, t)) == conv_of(p, ch, k, t as int).run(m, f),
{
    let x = conv_of(p, ch, k, t as int);
    let cmds = conv_cmds(p, ch, k, t);
    reveal_with_fuel(all_convolved, 3);
    x.lemma_sizes();
    lemma_channels_reach(ch);
    if t == 1 {
        assert(cmds.drop_last() =~= Seq::<Cmd>::empty());
    } else if t >= k - 1 {
        assert(cmds.drop_last().drop_last() =~= Seq::<Cmd>::empty());
        assert(cmds.drop_last().last() == cmds[0]);
        let mid = x.mixed(m, f);
        let s = Conv { cw: Ptr::Null, out: Ptr::Null, ..x };
        assert(all_convolved(m, f, cmds) == s.shifted(mid, mid, f));
        assert(bytes_at(mid, x.ring, x.ring_len()) =~= bytes_at(m, x.ring, x.ring_len()));
        assert forall|e: int| 0 <= e < t implies x.row(m, e) == #[trigger] s.row(mid, e) by {
            let rl = x.row_len();
            assert(0 <= e * rl && e * rl + rl <= t * rl) by (nonlinear_arith)
                requires
                    0 <= e < t,
                    0 <= rl,
            ;
            assert forall|b: int| 0 <= b < rl implies x.row(m, e)[b] == #[trigger] s.row(mid, e)[b] by {
                assert(x.qkv.spec_at(e * rl).spec_at(b) == x.qkv.spec_at(e * rl + b));
                assert(!is_inside(x.out, x.t * rl, x.qkv.spec_at(e * rl + b)));
            }
            assert(x.row(m, e) =~= s.row(mid, e));
        }
        lemma_ring_same(x, s, m, mid, f, t as int);
        assert(all_convolved(m, f, cmds) =~= x.run(m, f));
    } else {
        lemma_tail_is_bands(p, ch, k, t as int, m, f, t as int);
        x.lemma_bands_are_the_whole(m, f, 1, t as int);
    }
}

/// The addresses of a band: its own slices of the input and of the output.
pub open spec fn conv_band_ptrs(p: Seq<Ptr>, per: int, ch: int, c: int) -> Seq<Ptr> {
    seq![
        p[0].spec_at(band(per, ch, c).off * 4),
        p[1],
        p[2],
        p[3].spec_at(band(per, ch, c).off * 4),
    ]
}

/// The memory after `n` operations on `per` tokens each, on consecutive slices.
pub open spec fn conv_steps_run(
    p: Seq<Ptr>,
    ch: usize,
    k: usize,
    per: usize,
    m: spec_fn(Ptr) -> u8,
    f: ConvKernel,
    n: int,
) -> spec_fn(Ptr) -> u8
    decreases n,
{
    if n <= 0 {
        m
    } else {
        all_convolved(
            conv_steps_run(p, ch, k, per, m, f, n - 1),
            f,
            conv_cmds(conv_band_ptrs(p, per as int, ch as int, n - 1), ch, k, per),
        )
    }
}

proof fn lemma_conv_steps_are_bands(
    p: Seq<Ptr>,
    ch: usize,
    k: usize,
    per: usize,
    t: int,
    m: spec_fn(Ptr) -> u8,
    f: ConvKernel,
    n: int,
)
    requires
        conv_of(p, ch, k, t).is_sound(),
        ch <= i32::MAX,
        k <= i32::MAX,
        0 < per <= i32::MAX,
        f.keeps_size(),
        0 <= n,
        n * per <= t,
    ensures
        conv_steps_run(p, ch, k, per, m, f, n) == conv_of(p, ch, k, t).bands_run(
            m,
            f,
            per as int,
            n,
        ),
    decreases n,
{
    if n > 0 {
        let (c, q, x) = (n - 1, per as int, conv_of(p, ch, k, t));
        let rl = x.row_len();
        assert(c * q <= n * q && c * q + q == n * q) by (nonlinear_arith)
            requires
                0 < q,
                c == n - 1,
        ;
        lemma_conv_steps_are_bands(p, ch, k, per, t, m, f, c);
        assert(c * q * ch * 4 == c * q * rl && 0 <= c * q * ch && 0 <= c * q * rl && c * q * rl + q
            * rl <= t * rl && 0 <= q * rl) by (nonlinear_arith)
            requires
                0 <= c,
                0 < q,
                c * q + q <= t,
                rl == ch * 4,
                0 <= ch,
        ;
        let ptrs = conv_band_ptrs(p, q, ch as int, c);
        let b = x.banded(q, c);
        assert(conv_of(ptrs, ch, k, q) == b);
        x.lemma_band_is_sound(q, c);
        lemma_op_completes(ptrs, ch, k, per, conv_steps_run(p, ch, k, per, m, f, c), f);
    }
}

impl Conv {
    /// A band reads and writes inside what the whole reads and writes.
    proof fn lemma_band_is_sound(&self, per: int, c: int)
        requires
            self.is_sound(),
            0 <= c,
            0 < per,
            (c + 1) * per <= self.t,
        ensures
            self.banded(per, c).is_sound(),
    {
        let b = self.banded(per, c);
        let (rl, o, n) = (self.row_len(), c * per * self.row_len(), self.t * self.row_len());
        assert(0 <= o && 0 <= per * rl && o + per * rl <= n) by (nonlinear_arith)
            requires
                o == c * per * rl,
                n == self.t * rl,
                0 <= c,
                0 < per,
                0 <= rl,
                (c + 1) * per <= self.t,
        ;
        let (r, w) = (self.ring_len(), self.weights_len());
        assert forall|i: int| 0 <= i < per * rl implies !#[trigger] is_inside(
            b.out,
            per * rl,
            b.qkv.spec_at(i),
        ) by {
            assert(b.qkv.spec_at(i) == self.qkv.spec_at(o + i));
            assert(!is_inside(self.out, n, self.qkv.spec_at(o + i)));
        }
        assert forall|i: int| 0 <= i < w implies !#[trigger] is_inside(
            b.out,
            per * rl,
            b.cw.spec_at(i),
        ) by {
            assert(!is_inside(self.out, n, self.cw.spec_at(i)));
        }
        assert forall|i: int| 0 <= i < per * rl implies !#[trigger] is_inside(
            b.ring,
            r,
            b.qkv.spec_at(i),
        ) by {
            assert(b.qkv.spec_at(i) == self.qkv.spec_at(o + i));
            assert(!is_inside(self.ring, r, self.qkv.spec_at(o + i)));
        }
        assert forall|i: int| 0 <= i < r implies !#[trigger] is_inside(
            b.out,
            per * rl,
            b.ring.spec_at(i),
        ) by {
            assert(!is_inside(self.out, n, self.ring.spec_at(i)));
        }
        assert forall|i: int| 0 <= i < per * rl implies !#[trigger] is_inside(
            b.ring,
            r,
            b.out.spec_at(i),
        ) by {
            assert(b.out.spec_at(i) == self.out.spec_at(o + i));
            assert(!is_inside(self.ring, r, self.out.spec_at(o + i)));
        }
    }
}

/// The convolution does not depend on how a batch is cut: one operation on `t` tokens
/// leaves, byte for byte, the output rows and the ring that `t / per` operations on
/// `per` tokens leave on consecutive slices with the ring carried on, whatever the
/// kernels compute from the ring and one row, and whether an operation takes the kernel
/// of one token, that of many with a ring update behind it, or one token after the other.
/// The run in bands has a ring and an output of its own, with the same initial ring.
pub proof fn law_convolution_in_bands(
    p: Seq<Ptr>,
    ring: Ptr,
    out: Ptr,
    t: usize,
    per: usize,
    ch: usize,
    k: usize,
    m: spec_fn(Ptr) -> u8,
    f: ConvKernel,
    j: int,
)
    requires
        p.len() == 4,
        0 < per <= t <= i32::MAX,
        t as int % per as int == 0,
        ch <= i32::MAX,
        1 <= k <= i32::MAX,
        conv_of(p, ch, k, t as int).is_sound(),
        conv_of(p.update(2, ring).update(3, out), ch, k, t as int).is_sound(),
        bytes_at(m, p[2], (k - 1) * ch * 4) == bytes_at(m, ring, (k - 1) * ch * 4),
        f.keeps_size(),
    ensures
        ({
            let banded = p.update(2, ring).update(3, out);
            let one = all_convolved(m, f, conv_cmds(p, ch, k, t));
            let many = conv_steps_run(banded, ch, k, per, m, f, t as int / per as int);
            &&& 0 <= j < t * (ch * 4) ==> one(p[3].spec_at(j)) == many(out.spec_at(j))
            &&& 0 <= j < (k - 1) * ch * 4 ==> one(p[2].spec_at(j)) == many(ring.spec_at(j))
        }),
{
    let x = conv_of(p, ch, k, t as int);
    let b = p.update(2, ring).update(3, out);
    let y = conv_of(b, ch, k, t as int);
    let (tt, q, n) = (t as int, per as int, t as int / per as int);
    vstd::arithmetic::div_mod::lemma_fundamental_div_mod(tt, q);
    assert(n * q == tt) by (nonlinear_arith)
        requires
            tt == q * n,
    ;
    vstd::arithmetic::div_mod::lemma_div_pos_is_pos(tt, q);
    x.lemma_sizes();
    assert(x.same_inputs(y));
    lemma_op_completes(p, ch, k, t, m, f);
    lemma_conv_steps_are_bands(b, ch, k, per, tt, m, f, n);
    x.lemma_bands(y, m, f, q, n);
    let one = x.run(m, f);
    let many = y.bands_run(m, f, q, n);
    if 0 <= j < t * (ch * 4) {
        assert(distance(x.out, x.out.spec_at(j)) == Some(j));
        assert(!is_inside(x.ring, x.ring_len(), x.out.spec_at(j)));
        assert(one(x.out.spec_at(j)) == x.out_row(m, f, j / x.row_len())[j % x.row_len()]);
        assert(many(y.out.spec_at(j)) == x.out_row(m, f, j / x.row_len())[j % x.row_len()]);
    }
    if 0 <= j < (k - 1) * ch * 4 {
        assert(distance(x.ring, x.ring.spec_at(j)) == Some(j));
        assert(bytes_at(many, y.ring, y.ring_len())[j] == many(y.ring.spec_at(j)));
    }
}

/// The convolution takes rows, weights and ring from the frames that the caller names, and
/// leaves the outputs and the ring in theirs.
pub proof fn law_convolution_keeps_to_its_frames(
    acc: Q4Acc,
    c: Seq<Cmd>,
    qkv: u64,
    cw: u64,
    state: u64,
    out: u64,
    ch: usize,
    k: usize,
    t_len: usize,
    m: spec_fn(Ptr) -> u8,
    f: ConvKernel,
    j: int,
)
    requires
        is_program(acc, (FrameOp::GdnConv { qkv, cw, state, out, ch, k, t_len }), c),
        ch <= i32::MAX,
        1 <= k <= i32::MAX,
        t_len <= i32::MAX,
        frames_conv(acc, qkv, cw, state, out, ch, k, t_len).is_sound(),
        f.keeps_size(),
    ensures
        ({
            let x = frames_conv(acc, qkv, cw, state, out, ch, k, t_len);
            let after = all_convolved(m, f, c);
            let len = x.row_len();
            &&& 0 <= j < t_len * len ==> after(frame(acc, out).spec_at(j)) == x.out_row(
                m,
                f,
                j / len,
            )[j % len]
            &&& 0 <= j < (k - 1) * ch * 4 ==> after(frame(acc, state).spec_at(j)) == x.ring_after(
                m,
                f,
                t_len as int,
            )[j]
        }),
{
    let p = acc.frame_ptrs(seq![qkv, cw, state, out]).unwrap();
    lemma_frames(acc, seq![qkv, cw, state, out], p);
    let x = conv_of(p, ch, k, t_len as int);
    assert(x == frames_conv(acc, qkv, cw, state, out, ch, k, t_len));
    assert(c == conv_cmds(p, ch, k, t_len));
    x.lemma_sizes();
    lemma_op_completes(p, ch, k, t_len, m, f);
    if 0 <= j < t_len * (ch * 4) {
        assert(distance(x.out, x.out.spec_at(j)) == Some(j));
        assert(!is_inside(x.ring, x.ring_len(), x.out.spec_at(j)));
    }
    if 0 <= j < (k - 1) * ch * 4 {
        assert(distance(x.ring, x.ring.spec_at(j)) == Some(j));
    }
}

/// The convolution of the frames that an operation names.
pub open spec fn frames_conv(
    acc: Q4Acc,
    qkv: u64,
    cw: u64,
    state: u64,
    out: u64,
    ch: usize,
    k: usize,
    t_len: usize,
) -> Conv {
    Conv {
        qkv: frame(acc, qkv),
        cw: frame(acc, cw),
        ring: frame(acc, state),
        out: frame(acc, out),
        ch: ch as int,
        k: k as int,
        t: t_len as int,
    }
}

} // verus!
