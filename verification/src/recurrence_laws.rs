//! The recurrence in one step and in bands.
//!
//! The kernel appears as a parameter: a function from the state and one row of inputs to
//! the next state and one row of output. Memory is modelled byte by byte.

use vstd::prelude::*;
use crate::acc::Q4Acc;
use crate::device::{Cmd, Ptr};
use crate::grids::covers;
use crate::kernels::Call;
use crate::memory::{distance, is_inside, written};
use crate::probe_gdn::band;

verus! {

/// The `n` bytes at `p`.
pub open spec fn bytes_at(m: spec_fn(Ptr) -> u8, p: Ptr, n: int) -> Seq<u8> {
    Seq::new(n as nat, |i: int| m(p.spec_at(i)))
}

/// The `n` bytes at `q` lie apart from the `k` bytes at `p`.
pub open spec fn are_apart(p: Ptr, k: int, q: Ptr, n: int) -> bool {
    forall|i: int| 0 <= i < n ==> !#[trigger] is_inside(p, k, q.spec_at(i))
}

/// A range of bytes that can be addressed.
pub open spec fn is_range(p: Ptr, n: int) -> bool {
    p is Dev && 0 <= n && p.offset() + n <= usize::MAX
}

/// The inputs of one token, with the sizes that the kernel is told.
pub struct ArRow {
    pub d: i32,
    pub h_k: i32,
    pub h_v: i32,
    pub scale: u32,
    pub q: Seq<u8>,
    pub k: Seq<u8>,
    pub v: Seq<u8>,
    pub gates: Seq<u8>,
}

/// A launch of the recurrence: its addresses, the bytes of a row of queries and keys, of
/// values and outputs, of gates, and of the state.
pub struct Recurrence {
    pub state: Ptr,
    pub q: Ptr,
    pub k: Ptr,
    pub v: Ptr,
    pub gates: Ptr,
    pub out: Ptr,
    pub k_row: int,
    pub v_row: int,
    pub g_row: int,
    pub s_len: int,
    pub t: int,
    pub d: i32,
    pub h_k: i32,
    pub h_v: i32,
    pub scale: u32,
}

/// The recurrence that a command launches, where its grid reaches all of it.
pub open spec fn recurrence_of(c: Cmd) -> Option<Recurrence> {
    match c {
        Cmd::Launch(l) => if !covers(l) {
            None
        } else {
            match l.call {
            Call::GdnArSwap {
                state,
                q,
                k,
                v,
                beta_g,
                out,
                d,
                k_stride,
                v_stride,
                h_v,
                h_k,
                scale,
                t,
            } => Some(
                Recurrence {
                    state,
                    q,
                    k,
                    v,
                    gates: beta_g,
                    out,
                    k_row: k_stride * 4,
                    v_row: v_stride * 4,
                    g_row: h_v * 8,
                    s_len: h_v * d * d * 4,
                    t: t as int,
                    d,
                    h_k,
                    h_v,
                    scale,
                },
            ),
            _ => None,
            }
        },
        _ => None,
    }
}

impl Recurrence {
    /// The inputs of token `i`.
    pub open spec fn row(&self, m: spec_fn(Ptr) -> u8, i: int) -> ArRow {
        ArRow {
            d: self.d,
            h_k: self.h_k,
            h_v: self.h_v,
            scale: self.scale,
            q: bytes_at(m, self.q.spec_at(i * self.k_row), self.k_row),
            k: bytes_at(m, self.k.spec_at(i * self.k_row), self.k_row),
            v: bytes_at(m, self.v.spec_at(i * self.v_row), self.v_row),
            gates: bytes_at(m, self.gates.spec_at(i * self.g_row), self.g_row),
        }
    }

    /// The state after the first `i` tokens.
    pub open spec fn state_after(
        &self,
        m: spec_fn(Ptr) -> u8,
        step: spec_fn(Seq<u8>, ArRow) -> (Seq<u8>, Seq<u8>),
        i: int,
    ) -> Seq<u8>
        decreases i,
    {
        if i <= 0 {
            bytes_at(m, self.state, self.s_len)
        } else {
            step(self.state_after(m, step, i - 1), self.row(m, i - 1)).0
        }
    }

    /// The output of token `i`.
    pub open spec fn out_row(
        &self,
        m: spec_fn(Ptr) -> u8,
        step: spec_fn(Seq<u8>, ArRow) -> (Seq<u8>, Seq<u8>),
        i: int,
    ) -> Seq<u8> {
        step(self.state_after(m, step, i), self.row(m, i)).1
    }

    /// The memory after the launch: the tokens one after the other, with the state
    /// carried on.
    pub open spec fn run(
        &self,
        m: spec_fn(Ptr) -> u8,
        step: spec_fn(Seq<u8>, ArRow) -> (Seq<u8>, Seq<u8>),
    ) -> spec_fn(Ptr) -> u8 {
        written(
            written(
                m,
                self.out,
                self.t * self.v_row,
                |j: int| self.out_row(m, step, j / self.v_row)[j % self.v_row],
            ),
            self.state,
            self.s_len,
            |j: int| self.state_after(m, step, self.t)[j],
        )
    }

    /// The rows of all inputs can be addressed and are overwritten by no result, nor do
    /// the results overwrite each other.
    pub open spec fn is_sound(&self) -> bool {
        let (n, s) = (self.t * self.v_row, self.s_len);
        &&& self.k_row >= 0 && self.v_row >= 0 && self.g_row >= 0 && self.s_len >= 0 && self.t >= 0
        &&& is_range(self.q, self.t * self.k_row) && is_range(self.k, self.t * self.k_row)
        &&& is_range(self.v, n) && is_range(self.gates, self.t * self.g_row)
        &&& is_range(self.out, n) && is_range(self.state, s)
        &&& are_apart(self.out, n, self.q, self.t * self.k_row)
        &&& are_apart(self.out, n, self.k, self.t * self.k_row)
        &&& are_apart(self.out, n, self.v, n)
        &&& are_apart(self.out, n, self.gates, self.t * self.g_row)
        &&& are_apart(self.state, s, self.q, self.t * self.k_row)
        &&& are_apart(self.state, s, self.k, self.t * self.k_row)
        &&& are_apart(self.state, s, self.v, n)
        &&& are_apart(self.state, s, self.gates, self.t * self.g_row)
        &&& are_apart(self.state, s, self.out, n)
        &&& are_apart(self.out, n, self.state, s)
    }

    /// Tokens `c * per .. (c + 1) * per` of the recurrence.
    pub open spec fn banded(&self, per: int, c: int) -> Recurrence {
        Recurrence {
            q: self.q.spec_at(c * per * self.k_row),
            k: self.k.spec_at(c * per * self.k_row),
            v: self.v.spec_at(c * per * self.v_row),
            gates: self.gates.spec_at(c * per * self.g_row),
            out: self.out.spec_at(c * per * self.v_row),
            t: per,
            ..*self
        }
    }

    /// The memory after the first `n` bands.
    pub open spec fn bands_run(
        &self,
        m: spec_fn(Ptr) -> u8,
        step: spec_fn(Seq<u8>, ArRow) -> (Seq<u8>, Seq<u8>),
        per: int,
        n: int,
    ) -> spec_fn(Ptr) -> u8
        decreases n,
    {
        if n <= 0 {
            m
        } else {
            self.banded(per, n - 1).run(self.bands_run(m, step, per, n - 1), step)
        }
    }
}

/// The state keeps its size.
pub open spec fn keeps_size(step: spec_fn(Seq<u8>, ArRow) -> (Seq<u8>, Seq<u8>)) -> bool {
    forall|s: Seq<u8>, r: ArRow| (#[trigger] step(s, r)).0.len() == s.len()
}

proof fn lemma_state_len(
    x: Recurrence,
    m: spec_fn(Ptr) -> u8,
    step: spec_fn(Seq<u8>, ArRow) -> (Seq<u8>, Seq<u8>),
    i: int,
)
    requires
        keeps_size(step),
        x.s_len >= 0,
    ensures
        x.state_after(m, step, i).len() == x.s_len,
    decreases i,
{
    if i > 0 {
        lemma_state_len(x, m, step, i - 1);
    }
}

/// A row of a range is read the same from two memories that agree on the range.
proof fn lemma_row_same(
    m: spec_fn(Ptr) -> u8,
    n: spec_fn(Ptr) -> u8,
    p: Ptr,
    row: int,
    t: int,
    first: int,
    i: int,
)
    requires
        is_range(p, t * row),
        row >= 0,
        0 <= first,
        0 <= i,
        first + i < t,
        forall|j: int| 0 <= j < t * row ==> #[trigger] n(p.spec_at(j)) == m(p.spec_at(j)),
    ensures
        bytes_at(n, p.spec_at(first * row).spec_at(i * row), row) == bytes_at(
            m,
            p.spec_at((first + i) * row),
            row,
        ),
{
    assert(first * row + i * row == (first + i) * row && 0 <= first * row && 0 <= i * row && (first
        + i) * row + row <= t * row) by (nonlinear_arith)
        requires
            0 <= first,
            0 <= i,
            0 <= row,
            first + i + 1 <= t,
    ;
    let (a, b) = (p.spec_at(first * row).spec_at(i * row), p.spec_at((first + i) * row));
    assert(a == b);
    assert forall|j: int| 0 <= j < row implies n(#[trigger] a.spec_at(j)) == m(b.spec_at(j)) by {
        assert(a.spec_at(j) == p.spec_at((first + i) * row + j));
        assert(n(p.spec_at((first + i) * row + j)) == m(p.spec_at((first + i) * row + j)));
    }
    assert(bytes_at(n, a, row) =~= bytes_at(m, b, row));
}

/// From a memory that agrees with `m` on the inputs and holds the state that `x` has
/// reached after `first` tokens, a band goes on as `x` does.
proof fn lemma_band_goes_on(
    x: Recurrence,
    y: Recurrence,
    m: spec_fn(Ptr) -> u8,
    n: spec_fn(Ptr) -> u8,
    step: spec_fn(Seq<u8>, ArRow) -> (Seq<u8>, Seq<u8>),
    per: int,
    c: int,
    i: int,
)
    requires
        x.is_sound(),
        x.same_inputs(y),
        0 <= c,
        0 < per,
        (c + 1) * per <= x.t,
        0 <= i <= per,
        x.agrees(m, n),
        bytes_at(n, y.state, y.s_len) == x.state_after(m, step, c * per),
    ensures
        y.banded(per, c).state_after(n, step, i) == x.state_after(m, step, c * per + i),
        i < per ==> y.banded(per, c).out_row(n, step, i) == x.out_row(m, step, c * per + i),
    decreases i,
{
    let b = y.banded(per, c);
    assert(0 <= c * per && c * per + per == (c + 1) * per) by (nonlinear_arith)
        requires
            0 <= c,
            0 < per,
    ;
    if i > 0 {
        lemma_band_goes_on(x, y, m, n, step, per, c, i - 1);
        lemma_inputs_same(x, y, m, n, per, c, i - 1);
    }
    if i < per {
        lemma_inputs_same(x, y, m, n, per, c, i);
    }
}

impl Recurrence {
    /// Both have the same inputs and sizes; states and outputs may lie elsewhere.
    pub open spec fn same_inputs(&self, y: Recurrence) -> bool {
        y == (Recurrence { state: y.state, out: y.out, ..*self })
    }

    /// Two memories agree on the inputs.
    pub open spec fn agrees(&self, m: spec_fn(Ptr) -> u8, n: spec_fn(Ptr) -> u8) -> bool {
        &&& forall|j: int|
            0 <= j < self.t * self.k_row ==> #[trigger] n(self.q.spec_at(j)) == m(self.q.spec_at(j))
        &&& forall|j: int|
            0 <= j < self.t * self.k_row ==> #[trigger] n(self.k.spec_at(j)) == m(self.k.spec_at(j))
        &&& forall|j: int|
            0 <= j < self.t * self.v_row ==> #[trigger] n(self.v.spec_at(j)) == m(self.v.spec_at(j))
        &&& forall|j: int|
            0 <= j < self.t * self.g_row ==> #[trigger] n(self.gates.spec_at(j)) == m(
                self.gates.spec_at(j),
            )
    }
}

proof fn lemma_inputs_same(
    x: Recurrence,
    y: Recurrence,
    m: spec_fn(Ptr) -> u8,
    n: spec_fn(Ptr) -> u8,
    per: int,
    c: int,
    i: int,
)
    requires
        x.is_sound(),
        x.same_inputs(y),
        0 <= c * per,
        0 <= i < per,
        c * per + per <= x.t,
        x.agrees(m, n),
    ensures
        y.banded(per, c).row(n, i) == x.row(m, c * per + i),
{
    let f = c * per;
    lemma_row_same(m, n, x.q, x.k_row, x.t, f, i);
    lemma_row_same(m, n, x.k, x.k_row, x.t, f, i);
    lemma_row_same(m, n, x.v, x.v_row, x.t, f, i);
    lemma_row_same(m, n, x.gates, x.g_row, x.t, f, i);
}

/// What the first `c` bands leave: the state and the rows of the one launch, and all
/// other memory as it was.
proof fn lemma_bands(
    x: Recurrence,
    y: Recurrence,
    m: spec_fn(Ptr) -> u8,
    step: spec_fn(Seq<u8>, ArRow) -> (Seq<u8>, Seq<u8>),
    per: int,
    c: int,
)
    requires
        x.is_sound(),
        y.is_sound(),
        x.same_inputs(y),
        keeps_size(step),
        bytes_at(m, x.state, x.s_len) == bytes_at(m, y.state, y.s_len),
        0 < per,
        0 <= c,
        c * per <= x.t,
    ensures
        ({
            let n = y.bands_run(m, step, per, c);
            &&& bytes_at(n, y.state, y.s_len) == x.state_after(m, step, c * per)
            &&& forall|j: int|
                0 <= j < c * per * x.v_row ==> #[trigger] n(y.out.spec_at(j)) == x.out_row(
                    m,
                    step,
                    j / x.v_row,
                )[j % x.v_row]
            &&& forall|p: Ptr|
                !is_inside(y.out, y.t * y.v_row, p) && !is_inside(y.state, y.s_len, p)
                    ==> #[trigger] n(p) == m(p)
        }),
    decreases c,
{
    let rb = x.v_row;
    if c == 0 {
        assert(0 * per == 0 && 0 * per * rb == 0) by (nonlinear_arith);
    } else {
        let b0 = c - 1;
        let f = b0 * per;
        assert(f + per == c * per && 0 <= f && f * rb + per * rb == c * per * rb && 0 <= f * rb && 0
            <= per * rb && c * per * rb <= x.t * rb) by (nonlinear_arith)
            requires
                f == (c - 1) * per,
                0 < c,
                0 < per,
                0 <= rb,
                c * per <= x.t,
        ;
        lemma_bands(x, y, m, step, per, b0);
        let n = y.bands_run(m, step, per, b0);
        let b = y.banded(per, b0);
        let after = y.bands_run(m, step, per, c);
        assert(x.agrees(m, n)) by {
            assert forall|j: int| 0 <= j < x.t * x.k_row implies #[trigger] n(x.q.spec_at(j)) == m(
                x.q.spec_at(j),
            ) by {
                assert(!is_inside(y.out, y.t * y.v_row, y.q.spec_at(j)));
                assert(!is_inside(y.state, y.s_len, y.q.spec_at(j)));
            }
            assert forall|j: int| 0 <= j < x.t * x.k_row implies #[trigger] n(x.k.spec_at(j)) == m(
                x.k.spec_at(j),
            ) by {
                assert(!is_inside(y.out, y.t * y.v_row, y.k.spec_at(j)));
                assert(!is_inside(y.state, y.s_len, y.k.spec_at(j)));
            }
            assert forall|j: int| 0 <= j < x.t * x.v_row implies #[trigger] n(x.v.spec_at(j)) == m(
                x.v.spec_at(j),
            ) by {
                assert(!is_inside(y.out, y.t * y.v_row, y.v.spec_at(j)));
                assert(!is_inside(y.state, y.s_len, y.v.spec_at(j)));
            }
            assert forall|j: int| 0 <= j < x.t * x.g_row implies #[trigger] n(x.gates.spec_at(j))
                == m(x.gates.spec_at(j)) by {
                assert(!is_inside(y.out, y.t * y.v_row, y.gates.spec_at(j)));
                assert(!is_inside(y.state, y.s_len, y.gates.spec_at(j)));
            }
        }
        lemma_band_goes_on(x, y, m, n, step, per, b0, per);
        lemma_state_len(x, m, step, c * per);
        assert forall|j: int| 0 <= j < y.s_len implies #[trigger] after(y.state.spec_at(j))
            == x.state_after(m, step, c * per)[j] by {
            assert(distance(y.state, y.state.spec_at(j)) == Some(j));
        }
        assert(bytes_at(after, y.state, y.s_len) =~= x.state_after(m, step, c * per));
        assert forall|j: int| 0 <= j < c * per * rb implies #[trigger] after(y.out.spec_at(j))
            == x.out_row(m, step, j / rb)[j % rb] by {
            let p = y.out.spec_at(j);
            assert(!is_inside(y.state, y.s_len, p));
            assert(distance(b.out, p) == Some(j - f * rb));
            if j < f * rb {
                assert(!is_inside(b.out, b.t * b.v_row, p));
                assert(n(p) == x.out_row(m, step, j / rb)[j % rb]);
            } else {
                let o = j - f * rb;
                assert(rb > 0) by (nonlinear_arith)
                    requires
                        0 <= o < per * rb,
                        0 < per,
                        0 <= rb,
                ;
                vstd::arithmetic::div_mod::lemma_hoist_over_denominator(o, f, rb as nat);
                vstd::arithmetic::div_mod::lemma_mod_multiples_vanish(f, o, rb);
                assert(rb * f == f * rb) by (nonlinear_arith);
                vstd::arithmetic::div_mod::lemma_div_pos_is_pos(o, rb);
                assert(o / rb < per) by (nonlinear_arith)
                    requires
                        0 <= o < per * rb,
                        0 < rb,
                ;
                lemma_band_goes_on(x, y, m, n, step, per, b0, o / rb);
            }
        }
        assert forall|p: Ptr|
            !is_inside(y.out, y.t * y.v_row, p) && !is_inside(
                y.state,
                y.s_len,
                p,
            ) implies #[trigger] after(p) == m(p) by {
            assert(n(p) == m(p));
            if is_inside(b.out, b.t * b.v_row, p) {
                assert(is_inside(y.out, y.t * y.v_row, p));
            }
        }
    }
}

/// The addresses of a band: its own slices of the inputs and of the output.
pub open spec fn band_ptrs(p: Seq<Ptr>, per: int, h_k: int, h_v: int, d: int, c: int) -> Seq<Ptr> {
    seq![
        p[0],
        p[1].spec_at(band(per, h_k * d, c).off * 4),
        p[2].spec_at(band(per, h_k * d, c).off * 4),
        p[3].spec_at(band(per, h_v * d, c).off * 4),
        p[4].spec_at(band(per, h_v * 2, c).off * 4),
        p[5].spec_at(band(per, h_v * d, c).off * 4),
    ]
}

/// The memory after `n` steps of `per` tokens each, on consecutive slices.
pub open spec fn steps_run(
    acc: Q4Acc,
    p: Seq<Ptr>,
    per: usize,
    h_k: usize,
    h_v: usize,
    d: usize,
    m: spec_fn(Ptr) -> u8,
    step: spec_fn(Seq<u8>, ArRow) -> (Seq<u8>, Seq<u8>),
    n: int,
) -> spec_fn(Ptr) -> u8
    decreases n,
{
    if n <= 0 {
        m
    } else {
        let before = steps_run(acc, p, per, h_k, h_v, d, m, step, n - 1);
        let ptrs = band_ptrs(p, per as int, h_k as int, h_v as int, d as int, n - 1);
        let c = (Q4Acc { cur_t: per, ..acc }).gdn_ar_launch(ptrs, h_k, h_v, d);
        match recurrence_of(c) {
            Some(r) => r.run(before, step),
            None => before,
        }
    }
}

proof fn lemma_steps_are_bands(
    acc: Q4Acc,
    p: Seq<Ptr>,
    y: Recurrence,
    per: usize,
    h_k: usize,
    h_v: usize,
    d: usize,
    m: spec_fn(Ptr) -> u8,
    step: spec_fn(Seq<u8>, ArRow) -> (Seq<u8>, Seq<u8>),
    n: int,
)
    requires
        p.len() == 6,
        0 < per <= i32::MAX,
        h_k * d <= i32::MAX,
        h_v * d <= i32::MAX,
        h_v <= i32::MAX,
        h_k <= i32::MAX,
        d <= i32::MAX,
        y == ar_full(acc, p, h_k, h_v, d, y.t),
        0 <= n,
        n * per <= y.t,
        y.t * (h_k * d) * 4 <= usize::MAX,
        y.t * (h_v * d) * 4 <= usize::MAX,
        y.t * (h_v * 2) * 4 <= usize::MAX,
    ensures
        steps_run(acc, p, per, h_k, h_v, d, m, step, n) == y.bands_run(m, step, per as int, n),
    decreases n,
{
    if n > 0 {
        assert((n - 1) * per <= n * per) by (nonlinear_arith)
            requires
                0 < per,
        ;
        lemma_steps_are_bands(acc, p, y, per, h_k, h_v, d, m, step, n - 1);
        let c = n - 1;
        let q = per as int;
        let (a, b, g) = (h_k * d, h_v * d, h_v * 2);
        assert(c * q * a * 4 == c * q * (a * 4) && c * q * b * 4 == c * q * (b * 4) && c * q * g * 4
            == c * q * (g * 4) && 0 <= c * q * a <= y.t * a && 0 <= c * q * b <= y.t * b && 0 <= c
            * q * g <= y.t * g) by (nonlinear_arith)
            requires
                0 <= c,
                0 < q,
                c * q <= y.t,
                0 <= a,
                0 <= b,
                0 <= g,
        ;
        let ptrs = band_ptrs(p, q, h_k as int, h_v as int, d as int, c);
        let l = (Q4Acc { cur_t: per, ..acc }).gdn_ar_launch(ptrs, h_k, h_v, d);
        assert(recurrence_of(l) == Some(y.banded(q, c)));
    }
}

/// The recurrence over `t` tokens at the addresses `p`.
pub open spec fn ar_full(acc: Q4Acc, p: Seq<Ptr>, h_k: usize, h_v: usize, d: usize, t: int) -> Recurrence {
    recurrence_of((Q4Acc { cur_t: t as usize, ..acc }).gdn_ar_launch(p, h_k, h_v, d)).unwrap()
}

/// The recurrence does not depend on how a batch is cut: one step of `t` tokens leaves,
/// byte for byte, the output rows and the final state that `t / per` steps of `per`
/// tokens leave on consecutive slices with the state carried on, whatever the kernel
/// computes from the state and one row. The row count is that of the step. The run in
/// bands has a state and an output of its own, with the same initial state.
pub proof fn law_recurrence_in_bands(
    acc: Q4Acc,
    p: Seq<Ptr>,
    state: Ptr,
    out: Ptr,
    t: usize,
    per: usize,
    h_k: usize,
    h_v: usize,
    d: usize,
    m: spec_fn(Ptr) -> u8,
    step: spec_fn(Seq<u8>, ArRow) -> (Seq<u8>, Seq<u8>),
    j: int,
)
    requires
        p.len() == 6,
        0 < per < t <= i32::MAX,
        t as int % per as int == 0,
        h_k * d <= i32::MAX,
        h_v * d <= i32::MAX,
        h_v <= i32::MAX,
        h_k <= i32::MAX,
        d <= i32::MAX,
        ar_full(acc, p, h_k, h_v, d, t as int).is_sound(),
        ar_full(acc, p.update(0, state).update(5, out), h_k, h_v, d, t as int).is_sound(),
        bytes_at(m, p[0], h_v * d * d * 4) == bytes_at(m, state, h_v * d * d * 4),
        keeps_size(step),
    ensures
        ({
            let banded = p.update(0, state).update(5, out);
            let one = ar_full(acc, p, h_k, h_v, d, t as int).run(m, step);
            let many = steps_run(acc, banded, per, h_k, h_v, d, m, step, t as int / per as int);
            &&& recurrence_of(
                (Q4Acc { cur_t: t, ..acc }).gdn_ar_launch(p, h_k, h_v, d),
            ) is Some
            &&& ar_full(acc, p, h_k, h_v, d, t as int).t == t
            &&& 0 <= j < t * (h_v * d) * 4 ==> one(p[5].spec_at(j)) == many(out.spec_at(j))
            &&& 0 <= j < h_v * d * d * 4 ==> one(p[0].spec_at(j)) == many(state.spec_at(j))
        }),
{
    let x = ar_full(acc, p, h_k, h_v, d, t as int);
    let b = p.update(0, state).update(5, out);
    let y = ar_full(acc, b, h_k, h_v, d, t as int);
    let (tt, q, n) = (t as int, per as int, t as int / per as int);
    vstd::arithmetic::div_mod::lemma_fundamental_div_mod(tt, q);
    assert(n * q == tt) by (nonlinear_arith)
        requires
            tt == q * n,
    ;
    vstd::arithmetic::div_mod::lemma_div_pos_is_pos(tt, q);
    let (aa, bb, gg) = (h_k * d, h_v * d, h_v * 2);
    assert(tt * (aa * 4) == tt * aa * 4 && tt * (bb * 4) == tt * bb * 4 && tt * (gg * 4) == tt * gg
        * 4) by (nonlinear_arith);
    assert(h_v * 8 == gg * 4);
    assert(x.same_inputs(y));
    lemma_steps_are_bands(acc, b, y, per, h_k, h_v, d, m, step, n);
    lemma_bands(x, y, m, step, q, n);
    let one = x.run(m, step);
    if 0 <= j < t * (h_v * d) * 4 {
        let r = p[5].spec_at(j);
        assert(distance(x.out, x.out.spec_at(j)) == Some(j));
        assert(!is_inside(x.state, x.s_len, x.out.spec_at(j)));
        assert(one(r) == x.out_row(m, step, j / x.v_row)[j % x.v_row]);
        let many = y.bands_run(m, step, q, n);
        assert(many(y.out.spec_at(j)) == x.out_row(m, step, j / x.v_row)[j % x.v_row]);
    }
    if 0 <= j < h_v * d * d * 4 {
        assert(distance(x.state, x.state.spec_at(j)) == Some(j));
        let many = y.bands_run(m, step, q, n);
        assert(bytes_at(many, y.state, y.s_len)[j] == many(y.state.spec_at(j)));
    }
}

} // verus!
