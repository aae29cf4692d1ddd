//! Products over activations that come from the host and go back to it.

use vstd::prelude::*;
use crate::acc::Q4Acc;
use crate::arith::{ceil_div, spec_ceil_div};
use crate::device::{buf, spec_buf, Attempt, Cmd, Host, MatMul, Ptr, Slot};
use crate::error::AccError;
use crate::frame_mm::{spec_wptr, try_else, wptr};
use crate::gemm::{gemm_f32_launch, gemm_program, launch_gemm, launch_gemm_f32};
use crate::ggml::{
    f32_family, ggml_id, spec_f32_family, spec_ggml_id, spec_xq_words, xq_words,
};
use crate::host_laws::{law_batch_returns_every_product, returns_products};
use crate::upload::Weight;

verus! {

/// Every row has `n_in` values.
pub open spec fn rows_have(xs: Seq<Vec<u32>>, n_in: int) -> bool {
    forall|i: int| 0 <= i < xs.len() ==> (#[trigger] xs[i])@.len() == n_in
}

/// The error for the first row of another length than `n_in`.
pub open spec fn row_error(xs: Seq<Vec<u32>>, n_in: usize) -> Option<AccError>
    decreases xs.len(),
{
    if xs.len() == 0 {
        None
    } else {
        match row_error(xs.drop_last(), n_in) {
            Some(e) => Some(e),
            None => if xs.last()@.len() != n_in {
                Some(AccError::RowLength { len: xs.last()@.len() as usize, n_in })
            } else {
                None
            },
        }
    }
}

proof fn lemma_row_error_prefix(xs: Seq<Vec<u32>>, n_in: usize, n: int)
    requires
        0 <= n <= xs.len(),
        row_error(xs.take(n), n_in) is Some,
    ensures
        row_error(xs, n_in) == row_error(xs.take(n), n_in),
    decreases xs.len() - n,
{
    if n < xs.len() {
        assert(xs.take(n + 1).drop_last() =~= xs.take(n));
        lemma_row_error_prefix(xs, n_in, n + 1);
    } else {
        assert(xs.take(n) =~= xs);
    }
}

/// Rows are accepted exactly where all of them have `n_in` values.
pub proof fn law_rows_accepted_iff_all_fit(xs: Seq<Vec<u32>>, n_in: usize)
    ensures
        row_error(xs, n_in) is None <==> rows_have(xs, n_in as int),
    decreases xs.len(),
{
    if xs.len() > 0 {
        law_rows_accepted_iff_all_fit(xs.drop_last(), n_in);
        if rows_have(xs, n_in as int) {
            assert forall|i: int| 0 <= i < xs.len() - 1 implies (#[trigger] xs.drop_last()[i])@.len()
                == n_in by {
                assert(xs[i]@.len() == n_in);
            }
        }
        if row_error(xs, n_in) is None {
            assert forall|i: int| 0 <= i < xs.len() implies (#[trigger] xs[i])@.len() == n_in by {
                if i < xs.len() - 1 {
                    assert(xs.drop_last()[i]@.len() == n_in);
                }
            }
        }
    }
}

/// The rows one after the other, as they are uploaded.
pub fn flatten_rows(xs: &Vec<Vec<u32>>, n_in: usize) -> (r: Result<Vec<u32>, AccError>)
    requires
        xs@.len() * n_in <= usize::MAX,
    ensures
        match row_error(xs@, n_in) {
            Some(e) => r matches Err(f) && f == e,
            None => r matches Ok(v) && v@.len() == xs@.len() * n_in && forall|i: int, j: int|
                #![trigger xs@[i]@[j]]
                0 <= i < xs@.len() && 0 <= j < n_in ==> v@[i * n_in + j] == xs@[i]@[j],
        },
{
    let mut v: Vec<u32> = Vec::new();
    let mut i: usize = 0;
    while i < xs.len()
        invariant
            i <= xs@.len(),
            xs@.len() * n_in <= usize::MAX,
            row_error(xs@.take(i as int), n_in) is None,
            v@.len() == i * n_in,
            forall|k: int, j: int|
                #![trigger xs@[k]@[j]]
                0 <= k < i && 0 <= j < n_in ==> v@[k * n_in + j] == xs@[k]@[j],
        decreases xs@.len() - i,
    {
        assert(xs@.take(i + 1).drop_last() =~= xs@.take(i as int));
        if xs[i].len() != n_in {
            proof {
                lemma_row_error_prefix(xs@, n_in, i + 1);
            }
            return Err(AccError::RowLength { len: xs[i].len(), n_in });
        }
        let ghost v0 = v@;
        v.extend_from_slice(xs[i].as_slice());
        proof {
            assert((i + 1) * n_in == i * n_in + n_in) by (nonlinear_arith);
            assert(v@ =~= v0 + xs@[i as int]@);
            assert forall|k: int, j: int|
                #![trigger xs@[k]@[j]]
                0 <= k < i + 1 && 0 <= j < n_in implies v@[k * n_in + j] == xs@[k]@[j] by {
                if k < i {
                    assert(0 <= k * n_in && k * n_in + j < i * n_in) by (nonlinear_arith)
                        requires
                            0 <= k < i,
                            0 <= j < n_in,
                    ;
                }
            }
        }
        i = i + 1;
    }
    assert(xs@.take(i as int) =~= xs@);
    Ok(v)
}

/// The rows of `n_out` values that a flat result holds.
pub fn split_rows(flat: &Vec<u32>, n_out: usize) -> (r: Vec<Vec<u32>>)
    requires
        n_out > 0,
    ensures
        r@.len() == flat@.len() as int / n_out as int,
        forall|i: int|
            0 <= i < r@.len() ==> (#[trigger] r@[i])@ == flat@.subrange(
                i * n_out,
                i * n_out + n_out,
            ),
{
    let n: usize = flat.len() / n_out;
    let mut r: Vec<Vec<u32>> = Vec::new();
    let mut i: usize = 0;
    proof {
        vstd::arithmetic::div_mod::lemma_fundamental_div_mod(flat@.len() as int, n_out as int);
        vstd::arithmetic::div_mod::lemma_mod_bound(flat@.len() as int, n_out as int);
        assert(n * n_out == n_out * n) by (nonlinear_arith);
    }
    while i < n
        invariant
            n_out > 0,
            n * n_out <= flat@.len(),
            flat@.len() <= usize::MAX,
            i <= n,
            r@.len() == i,
            forall|k: int|
                0 <= k < i ==> (#[trigger] r@[k])@ == flat@.subrange(
                    k * n_out,
                    k * n_out + n_out,
                ),
        decreases n - i,
    {
        assert(i * n_out + n_out <= n * n_out && 0 <= i * n_out) by (nonlinear_arith)
            requires
                0 <= i < n,
                0 < n_out,
        ;
        let base: usize = i * n_out;
        let mut row: Vec<u32> = Vec::new();
        let mut j: usize = 0;
        while j < n_out
            invariant
                base + n_out <= flat@.len(),
                flat@.len() <= usize::MAX,
                j <= n_out,
                row@ == flat@.subrange(base as int, base + j),
            decreases n_out - j,
        {
            row.push(flat[base + j]);
            proof {
                assert(row@ =~= flat@.subrange(base as int, base + j + 1));
            }
            j = j + 1;
        }
        r.push(row);
        i = i + 1;
    }
    r
}

/// Uploads `t` rows, and quantises them unless the weight is plain `f32`.
pub open spec fn upload_rows(t: int, n_in: usize, w_f32: bool) -> Seq<Cmd> {
    let bytes = (t * n_in * 4) as usize;
    let xq_w = spec_xq_words(n_in as int);
    seq![
        Cmd::Ensure { slot: Slot::Xf, bytes },
        Cmd::H2d { dst: spec_buf(Slot::Xf), src: Host::X, bytes },
    ] + if w_f32 {
        Seq::empty()
    } else {
        seq![
            Cmd::Ensure { slot: Slot::Xq, bytes: (t * xq_w * 4) as usize },
            Cmd::Quant {
                x: spec_buf(Slot::Xf),
                xq: spec_buf(Slot::Xq),
                n_in,
                xq_w: xq_w as usize,
                t: t as usize,
            },
        ]
    }
}

/// Plans the upload of `t` rows.
pub fn prepare_x(t: usize, n_in: usize, w_f32: bool) -> (r: Vec<Cmd>)
    requires
        t * n_in * 4 <= usize::MAX,
        t * spec_xq_words(n_in as int) * 4 <= usize::MAX,
    ensures
        r@ == upload_rows(t as int, n_in, w_f32),
{
    let xq_w: usize = xq_words(n_in);
    assert(t * n_in <= t * n_in * 4 && t * xq_w <= t * xq_w * 4) by (nonlinear_arith);
    let bytes: usize = t * n_in * 4;
    let mut r: Vec<Cmd> = vec![
        Cmd::Ensure { slot: Slot::Xf, bytes },
        Cmd::H2d { dst: buf(Slot::Xf), src: Host::X, bytes },
    ];
    if !w_f32 {
        r.push(Cmd::Ensure { slot: Slot::Xq, bytes: t * xq_w * 4 });
        r.push(Cmd::Quant { x: buf(Slot::Xf), xq: buf(Slot::Xq), n_in, xq_w, t });
    }
    assert(r@ =~= upload_rows(t as int, n_in, w_f32));
    r
}

/// Sizes of a product of `t` uploaded rows can be counted.
pub open spec fn value_fits(w: Weight, t: int) -> bool {
    &&& t * w.n_in * 4 <= usize::MAX
    &&& t * spec_xq_words(w.n_in as int) * 4 <= usize::MAX
    &&& spec_ceil_div(t, 128) * 128 * w.n_out * 4 <= usize::MAX
    &&& w.n_out * 512 <= usize::MAX
    &&& (w.n_in / 32) * 384 <= usize::MAX
}

proof fn lemma_value_fits(w: Weight, t: int)
    requires
        0 <= t,
        value_fits(w, t),
    ensures
        0 <= t * w.n_out <= t * w.n_out * 4 <= usize::MAX,
        0 <= spec_ceil_div(t, 128) * 128 * w.n_out <= usize::MAX,
        spec_ceil_div(t, 128) * 128 <= usize::MAX || w.n_out == 0,
{
    crate::arith::lemma_ceil_div(t, 128);
    let c = spec_ceil_div(t, 128) * 128;
    let n = w.n_out as int;
    assert(0 <= t * n <= t * n * 4 <= c * n * 4 && 0 <= c * n <= c * n * 4) by (nonlinear_arith)
        requires
            0 <= t <= c,
            0 <= n,
    ;
    assert(n > 0 ==> c <= c * n * 4) by (nonlinear_arith)
        requires
            0 <= c,
            0 <= n,
    ;
}

/// Programs to run one after the other, and the error that ends the request behind
/// them.
pub struct Steps {
    pub steps: Vec<Vec<Cmd>>,
    pub stop: Option<AccError>,
}

impl Steps {
    /// The steps and the error of the plan.
    pub open spec fn is(&self, p: (Seq<Seq<Cmd>>, Option<AccError>)) -> bool {
        steps_are(self.steps@, self.stop, p)
    }
}

pub open spec fn steps_are(
    steps: Seq<Vec<Cmd>>,
    stop: Option<AccError>,
    p: (Seq<Seq<Cmd>>, Option<AccError>),
) -> bool {
    &&& steps.len() == p.0.len()
    &&& forall|i: int| 0 <= i < steps.len() ==> (#[trigger] steps[i])@ == p.0[i]
    &&& stop == p.1
}

/// One step more, unless the request has ended; a refused one ends it.
pub open spec fn and_then_step(
    p: (Seq<Seq<Cmd>>, Option<AccError>),
    q: Result<Seq<Cmd>, AccError>,
) -> (Seq<Seq<Cmd>>, Option<AccError>) {
    if p.1 is Some {
        p
    } else {
        match q {
            Ok(c) => (p.0.push(c), None),
            Err(e) => (p.0, Some(e)),
        }
    }
}

impl Q4Acc {
    /// The product of uploaded rows with a weight, and the way back of its result.
    /// `quantised` tells whether the rows were quantised. The half-precision
    /// path writes whole groups of 128 rows.
    pub open spec fn run_program(&self, w: Weight, w_off: int, t: usize, quantised: bool) -> Seq<
        Cmd,
    > {
        let y = spec_buf(Slot::Yf);
        let xf = spec_buf(Slot::Xf);
        let wp = spec_wptr(w).spec_at(w_off);
        let need = if self.tuning.f16_acc {
            spec_ceil_div(t as int, 128) * 128 * w.n_out * 4
        } else {
            t * w.n_out * 4
        };
        let ty = spec_ggml_id(w.ty);
        let rest = gemm_program(
            self.tuning,
            MatMul {
                ty,
                x: if quantised {
                    spec_buf(Slot::Xq)
                } else {
                    Ptr::Null
                },
                w: wp,
                n_in: w.n_in,
                n_out: w.n_out,
                xq_w: if quantised {
                    spec_xq_words(w.n_in as int) as usize
                } else {
                    0
                },
                t,
                out: y,
            },
        );
        seq![
            Cmd::Weight { key: w.key },
            Cmd::Ensure { slot: Slot::Yf, bytes: need as usize },
        ] + (if self.weight_f32(w) {
            seq![gemm_f32_launch(xf, wp, w.n_in, w.n_out, t, y)]
        } else if t >= 32 && ty == 8 && self.tuning.f16_acc {
            try_else(
                Attempt::F16Deq(
                    MatMul { ty, x: xf, w: wp, n_in: w.n_in, n_out: w.n_out, xq_w: 0, t, out: y },
                ),
                rest,
            )
        } else {
            rest
        }) + seq![Cmd::D2h { dst: Host::Y, src: y, bytes: (t * w.n_out * 4) as usize }]
    }

    /// Plans the product of uploaded rows with a weight.
    pub fn run_prepared(&self, w: &Weight, w_off: usize, t: usize, quantised: bool) -> (r: Vec<Cmd>)
        requires
            self.tuning.usable(),
            value_fits(*w, t as int),
        ensures
            r@ == self.run_program(*w, w_off as int, t, quantised),
    {
        proof {
            lemma_value_fits(*w, t as int);
        }
        let y = buf(Slot::Yf);
        let xf = buf(Slot::Xf);
        let wp = wptr(w).at(w_off);
        let full: usize = t * w.n_out * 4;
        let need: usize = if self.tuning.f16_acc {
            if w.n_out == 0 {
                assert(spec_ceil_div(t as int, 128) * 128 * w.n_out * 4 == 0) by (nonlinear_arith)
                    requires
                        w.n_out == 0,
                ;
                0
            } else {
                ceil_div(t, 128) * 128 * w.n_out * 4
            }
        } else {
            full
        };
        let ty: u32 = ggml_id(w.ty);
        let mut r: Vec<Cmd> = vec![
            Cmd::Weight { key: w.key },
            Cmd::Ensure { slot: Slot::Yf, bytes: need },
        ];
        if self.is_f32(w) {
            r.push(launch_gemm_f32(xf, wp, w.n_in, w.n_out, t, y));
        } else {
            let m = MatMul {
                ty,
                x: if quantised {
                    buf(Slot::Xq)
                } else {
                    Ptr::Null
                },
                w: wp,
                n_in: w.n_in,
                n_out: w.n_out,
                xq_w: if quantised {
                    xq_words(w.n_in)
                } else {
                    0
                },
                t,
                out: y,
            };
            let mut rest = launch_gemm(&self.tuning, m);
            if t >= 32 && ty == 8 && self.tuning.f16_acc {
                r.push(
                    Cmd::Try {
                        call: Attempt::F16Deq(
                            MatMul {
                                ty,
                                x: xf,
                                w: wp,
                                n_in: w.n_in,
                                n_out: w.n_out,
                                xq_w: 0,
                                t,
                                out: y,
                            },
                        ),
                        on_ok: rest.len(),
                        on_err: 0,
                    },
                );
            }
            r.append(&mut rest);
        }
        r.push(Cmd::D2h { dst: Host::Y, src: y, bytes: full });
        assert(r@ =~= self.run_program(*w, w_off as int, t, quantised));
        r
    }

    /// The program of a batch of rows with one weight: nothing for no rows.
    pub open spec fn batch_program(&self, xs: Seq<Vec<u32>>, w: Weight, w_off: int) -> Result<
        Seq<Cmd>,
        AccError,
    > {
        let f = spec_f32_family(w.ty);
        if xs.len() == 0 {
            Ok(Seq::empty())
        } else {
            match row_error(xs, w.n_in) {
                Some(e) => Err(e),
                None => Ok(
                    upload_rows(xs.len() as int, w.n_in, f) + self.run_program(
                        w,
                        w_off,
                        xs.len() as usize,
                        !f,
                    ),
                ),
            }
        }
    }

    /// Plans a batch of rows with one weight; the rows travel as `flatten_rows`
    /// gives them.
    pub fn batch_into(&self, xs: &Vec<Vec<u32>>, w: &Weight, w_off: usize) -> (r: Result<
        Vec<Cmd>,
        AccError,
    >)
        requires
            self.tuning.usable(),
            value_fits(*w, xs@.len() as int),
        ensures
            match self.batch_program(xs@, *w, w_off as int) {
                Ok(p) => r matches Ok(c) && c@ == p,
                Err(e) => r matches Err(f) && f == e,
            },
            r matches Ok(c) ==> returns_products(
                *self,
                *w,
                w_off as int,
                xs@.len() as usize,
                c@,
            ),
    {
        if xs.len() == 0 {
            return Ok(Vec::new());
        }
        match check_rows(xs, w.n_in) {
            Ok(()) => {},
            Err(e) => {
                return Err(e);
            },
        }
        proof {
            law_batch_returns_every_product(*self, *w, w_off as int, xs@.len() as usize);
        }
        let f = f32_family(w.ty);
        let mut r = prepare_x(xs.len(), w.n_in, f);
        let mut p = self.run_prepared(w, w_off, xs.len(), !f);
        r.append(&mut p);
        Ok(r)
    }

    /// Plans one row with one weight.
    pub fn matmul(&self, x: Vec<u32>, w: &Weight) -> (r: Result<Vec<Cmd>, AccError>)
        requires
            self.tuning.usable(),
            value_fits(*w, 1),
        ensures
            match self.batch_program(seq![x], *w, 0) {
                Ok(p) => r matches Ok(c) && c@ == p,
                Err(e) => r matches Err(f) && f == e,
            },
            r matches Ok(c) ==> returns_products(*self, *w, 0, 1, c@),
    {
        let xs: Vec<Vec<u32>> = vec![x];
        assert(xs@ =~= seq![x]);
        self.batch_into(&xs, w, 0)
    }

    /// Plans a batch of rows with one weight.
    pub fn matmul_batch(&self, xs: &Vec<Vec<u32>>, w: &Weight) -> (r: Result<Vec<Cmd>, AccError>)
        requires
            self.tuning.usable(),
            value_fits(*w, xs@.len() as int),
        ensures
            match self.batch_program(xs@, *w, 0) {
                Ok(p) => r matches Ok(c) && c@ == p,
                Err(e) => r matches Err(f) && f == e,
            },
            r matches Ok(c) ==> returns_products(*self, *w, 0, xs@.len() as usize, c@),
    {
        self.batch_into(xs, w, 0)
    }

    /// All weights agree on the row length and on whether it is quantised.
    pub open spec fn shares_rows(ws: Seq<Weight>) -> bool {
        forall|i: int|
            0 <= i < ws.len() ==> (#[trigger] ws[i]).n_in == ws[0].n_in && spec_f32_family(
                ws[i].ty,
            ) == spec_f32_family(ws[0].ty)
    }

    /// The step of weight `i` of a group whose rows are uploaded once, in its first
    /// step.
    pub open spec fn shared_step(&self, ws: Seq<Weight>, t: usize, i: int) -> Seq<Cmd> {
        let f = spec_f32_family(ws[0].ty);
        (if i == 0 {
            upload_rows(t as int, ws[0].n_in, f)
        } else {
            Seq::empty()
        }) + self.run_program(ws[i], 0, t, !f)
    }

    /// The steps of the first `n` weights, each over its own upload. The first that
    /// is refused ends the request.
    pub open spec fn single_steps(&self, xs: Seq<Vec<u32>>, ws: Seq<Weight>, n: int) -> (
        Seq<Seq<Cmd>>,
        Option<AccError>,
    )
        decreases n,
    {
        if n <= 0 {
            (Seq::empty(), None)
        } else {
            and_then_step(
                self.single_steps(xs, ws, n - 1),
                self.batch_program(xs, ws[n - 1], 0),
            )
        }
    }

    /// The steps of several weights over the same rows, one step per weight.
    pub open spec fn value_group(&self, xs: Seq<Vec<u32>>, ws: Seq<Weight>, outs: int) -> Result<
        (Seq<Seq<Cmd>>, Option<AccError>),
        AccError,
    > {
        if ws.len() != outs {
            Err(AccError::GroupLength { ws: ws.len() as usize, outs: outs as usize })
        } else if ws.len() == 0 || xs.len() == 0 {
            Ok((Seq::empty(), None))
        } else if !Q4Acc::shares_rows(ws) {
            Ok(self.single_steps(xs, ws, ws.len() as int))
        } else {
            match row_error(xs, ws[0].n_in) {
                Some(e) => Err(e),
                None => Ok(
                    (
                        Seq::new(
                            ws.len(),
                            |i: int| self.shared_step(ws, xs.len() as usize, i),
                        ),
                        None,
                    ),
                ),
            }
        }
    }

    /// Plans several weights over the same rows: one upload for all, unless
    /// lengths or type families differ. Step `i` brings the results of weight `i`.
    pub fn matmul_group(&self, xs: &Vec<Vec<u32>>, ws: &Vec<Weight>, outs: usize) -> (r: Result<
        Steps,
        AccError,
    >)
        requires
            self.tuning.usable(),
            forall|i: int|
                0 <= i < ws@.len() ==> value_fits(#[trigger] ws@[i], xs@.len() as int),
        ensures
            match self.value_group(xs@, ws@, outs as int) {
                Ok(p) => r matches Ok(c) && c.is(p),
                Err(e) => r matches Err(f) && f == e,
            },
    {
        if ws.len() != outs {
            return Err(AccError::GroupLength { ws: ws.len(), outs });
        }
        let mut r: Vec<Vec<Cmd>> = Vec::new();
        if ws.len() == 0 || xs.len() == 0 {
            return Ok(Steps { steps: r, stop: None });
        }
        if !Q4Acc::rows_shared(ws) {
            let mut i: usize = 0;
            while i < ws.len()
                invariant
                    self.tuning.usable(),
                    forall|i: int|
                        0 <= i < ws@.len() ==> value_fits(#[trigger] ws@[i], xs@.len() as int),
                    i <= ws@.len(),
                    ws@.len() == outs,
                    ws@.len() > 0,
                    xs@.len() > 0,
                    !Q4Acc::shares_rows(ws@),
                    steps_are(r@, None, self.single_steps(xs@, ws@, i as int)),
                decreases ws@.len() - i,
            {
                assert(value_fits(ws@[i as int], xs@.len() as int));
                match self.batch_into(xs, &ws[i], 0) {
                    Ok(c) => {
                        r.push(c);
                    },
                    Err(e) => {
                        proof {
                            self.lemma_single_steps_end(xs@, ws@, i + 1, ws@.len() as int);
                        }
                        return Ok(Steps { steps: r, stop: Some(e) });
                    },
                }
                i = i + 1;
            }
            return Ok(Steps { steps: r, stop: None });
        }
        match check_rows(xs, ws[0].n_in) {
            Ok(()) => {},
            Err(e) => {
                return Err(e);
            },
        }
        let f = f32_family(ws[0].ty);
        let t: usize = xs.len();
        assert(value_fits(ws@[0], xs@.len() as int));
        let mut i: usize = 0;
        while i < ws.len()
            invariant
                self.tuning.usable(),
                t == xs@.len(),
                f == spec_f32_family(ws@[0].ty),
                forall|i: int|
                    0 <= i < ws@.len() ==> value_fits(#[trigger] ws@[i], xs@.len() as int),
                i <= ws@.len(),
                r@.len() == i,
                forall|k: int|
                    0 <= k < i ==> (#[trigger] r@[k])@ == self.shared_step(ws@, t, k),
            decreases ws@.len() - i,
        {
            assert(value_fits(ws@[i as int], xs@.len() as int));
            let mut c: Vec<Cmd> = Vec::new();
            if i == 0 {
                c = prepare_x(t, ws[0].n_in, f);
            }
            let mut p = self.run_prepared(&ws[i], 0, t, !f);
            c.append(&mut p);
            r.push(c);
            i = i + 1;
        }
        Ok(Steps { steps: r, stop: None })
    }

    proof fn lemma_single_steps_end(&self, xs: Seq<Vec<u32>>, ws: Seq<Weight>, n: int, m: int)
        requires
            0 <= n <= m,
            self.single_steps(xs, ws, n).1 is Some,
        ensures
            self.single_steps(xs, ws, m) == self.single_steps(xs, ws, n),
        decreases m - n,
    {
        if n < m {
            self.lemma_single_steps_end(xs, ws, n, m - 1);
        }
    }

    fn rows_shared(ws: &Vec<Weight>) -> (r: bool)
        requires
            ws@.len() > 0,
        ensures
            r == Q4Acc::shares_rows(ws@),
    {
        let n_in: usize = ws[0].n_in;
        let f = f32_family(ws[0].ty);
        let mut i: usize = 0;
        while i < ws.len()
            invariant
                ws@.len() > 0,
                n_in == ws@[0].n_in,
                f == spec_f32_family(ws@[0].ty),
                i <= ws@.len(),
                forall|j: int|
                    0 <= j < i ==> (#[trigger] ws@[j]).n_in == n_in && spec_f32_family(ws@[j].ty)
                        == f,
            decreases ws@.len() - i,
        {
            if ws[i].n_in != n_in || f32_family(ws[i].ty) != f {
                assert(!(ws@[i as int].n_in == n_in && spec_f32_family(ws@[i as int].ty) == f));
                return false;
            }
            i = i + 1;
        }
        true
    }

    /// The steps of the first `n` pairs of a row and a weight. The first that is
    /// refused ends the request.
    pub open spec fn paired_steps(&self, xs: Seq<Vec<u32>>, ws: Seq<Weight>, n: int) -> (
        Seq<Seq<Cmd>>,
        Option<AccError>,
    )
        decreases n,
    {
        if n <= 0 {
            (Seq::empty(), None)
        } else {
            and_then_step(
                self.paired_steps(xs, ws, n - 1),
                self.batch_program(seq![xs[n - 1]], ws[n - 1], 0),
            )
        }
    }

    proof fn lemma_paired_steps_end(&self, xs: Seq<Vec<u32>>, ws: Seq<Weight>, n: int, m: int)
        requires
            0 <= n <= m,
            self.paired_steps(xs, ws, n).1 is Some,
        ensures
            self.paired_steps(xs, ws, m) == self.paired_steps(xs, ws, n),
        decreases m - n,
    {
        if n < m {
            self.lemma_paired_steps_end(xs, ws, n, m - 1);
        }
    }

    /// Plans row `i` with weight `i`, for each `i`: step `i` brings its results, which
    /// `settle_paired` hands out. A pair that is refused ends the plan; the pairs
    /// before it still run.
    pub fn matmul_paired(&self, xs: Vec<Vec<u32>>, ws: &Vec<Weight>, outs: usize) -> (r: Result<
        Steps,
        AccError,
    >)
        requires
            self.tuning.usable(),
            forall|i: int| 0 <= i < ws@.len() ==> value_fits(#[trigger] ws@[i], 1),
        ensures
            if ws@.len() != xs@.len() || ws@.len() != outs {
                r matches Err(f) && f == (AccError::PairedLength {
                    ws: ws@.len() as usize,
                    xs: xs@.len() as usize,
                    outs,
                })
            } else {
                r matches Ok(c) && c.is(self.paired_steps(xs@, ws@, ws@.len() as int))
            },
    {
        if ws.len() != xs.len() || ws.len() != outs {
            return Err(AccError::PairedLength { ws: ws.len(), xs: xs.len(), outs });
        }
        let mut r: Vec<Vec<Cmd>> = Vec::new();
        let mut i: usize = 0;
        while i < ws.len()
            invariant
                self.tuning.usable(),
                ws@.len() == xs@.len(),
                ws@.len() == outs,
                forall|i: int| 0 <= i < ws@.len() ==> value_fits(#[trigger] ws@[i], 1),
                i <= ws@.len(),
                steps_are(r@, None, self.paired_steps(xs@, ws@, i as int)),
            decreases ws@.len() - i,
        {
            assert(value_fits(ws@[i as int], 1));
            match self.one_row(&xs[i], &ws[i]) {
                Ok(c) => {
                    r.push(c);
                },
                Err(e) => {
                    proof {
                        self.lemma_paired_steps_end(xs@, ws@, i + 1, ws@.len() as int);
                    }
                    return Ok(Steps { steps: r, stop: Some(e) });
                },
            }
            i = i + 1;
        }
        Ok(Steps { steps: r, stop: None })
    }

    fn one_row(&self, x: &Vec<u32>, w: &Weight) -> (r: Result<Vec<Cmd>, AccError>)
        requires
            self.tuning.usable(),
            value_fits(*w, 1),
        ensures
            match self.batch_program(seq![*x], *w, 0) {
                Ok(p) => r matches Ok(c) && c@ == p,
                Err(e) => r matches Err(f) && f == e,
            },
    {
        proof {
            reveal_with_fuel(row_error, 2);
            assert(seq![*x].drop_last() =~= Seq::<Vec<u32>>::empty());
        }
        if x.len() != w.n_in {
            return Err(AccError::RowLength { len: x.len(), n_in: w.n_in });
        }
        let f = f32_family(w.ty);
        let mut r = prepare_x(1, w.n_in, f);
        let mut p = self.run_prepared(w, 0, 1, !f);
        r.append(&mut p);
        Ok(r)
    }
}

/// Refuses rows of another length than `n_in`.
pub fn check_rows(xs: &Vec<Vec<u32>>, n_in: usize) -> (r: Result<(), AccError>)
    ensures
        match row_error(xs@, n_in) {
            Some(e) => r == Err::<(), AccError>(e),
            None => r == Ok::<(), AccError>(()),
        },
{
    let mut i: usize = 0;
    while i < xs.len()
        invariant
            i <= xs@.len(),
            row_error(xs@.take(i as int), n_in) is None,
        decreases xs@.len() - i,
    {
        assert(xs@.take(i + 1).drop_last() =~= xs@.take(i as int));
        if xs[i].len() != n_in {
            proof {
                lemma_row_error_prefix(xs@, n_in, i + 1);
            }
            return Err(AccError::RowLength { len: xs[i].len(), n_in });
        }
        i = i + 1;
    }
    assert(xs@.take(i as int) =~= xs@);
    Ok(())
}

/// Hands out the results of paired products, in the order of the pairs. Where a pair
/// failed, its output is left empty; the outputs behind it stay as they are.
pub fn settle_paired<T>(outs: &mut Vec<Vec<T>>, done: Vec<Vec<T>>, failed: bool)
    requires
        done@.len() <= old(outs)@.len(),
        failed ==> done@.len() < old(outs)@.len(),
    ensures
        final(outs)@.len() == old(outs)@.len(),
        forall|i: int| 0 <= i < done@.len() ==> #[trigger] final(outs)@[i] == done@[i],
        failed ==> final(outs)@[done@.len() as int]@ == Seq::<T>::empty(),
        forall|i: int|
            done@.len() + (if failed {
                1int
            } else {
                0int
            }) <= i < old(outs)@.len() ==> #[trigger] final(outs)@[i] == old(outs)@[i],
{
    let ghost before = outs@;
    let ghost all = done@;
    let mut left = done;
    if failed {
        outs.set(left.len(), Vec::new());
    }
    let ghost mid = outs@;
    while left.len() > 0
        invariant
            left@.len() <= all.len() <= outs@.len(),
            left@ == all.take(left@.len() as int),
            outs@.len() == mid.len(),
            forall|i: int|
                left@.len() <= i < all.len() ==> #[trigger] outs@[i] == all[i],
            forall|i: int| all.len() <= i < mid.len() ==> #[trigger] outs@[i] == mid[i],
        decreases left@.len(),
    {
        match left.pop() {
            Some(row) => {
                outs.set(left.len(), row);
            },
            None => {},
        }
        assert(left@ =~= all.take(left@.len() as int));
    }
}

} // verus!
