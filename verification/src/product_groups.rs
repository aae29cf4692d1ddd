//! What a group of products leaves in memory, and what the single products leave.
//!
//! The kernels are parameters, as in `product_runs`.

use vstd::prelude::*;
use crate::acc::Q4Acc;
use crate::device::{spec_buf, Cmd, Ptr, Slot};
use crate::error::AccError;
use crate::frame_mm::{both_weights, mm_fits, mmq_type, quantised_mm, spec_wptr, Pairing};
use crate::gemm::{
    f32_dual_launch, gemm_f32_launch, gemm_program, mix_dual_launch, q8_dual_launch,
};
use crate::ggml::{spec_f32_family, spec_ggml_id, spec_xq_words, GgmlType};
use crate::grid_laws::{
    law_dual_grids_cover, law_plain_product_grids_cover, sizes_fit,
};
use crate::memory::{distance, is_inside, written};
use crate::moe::quant_program;
use crate::product_runs::{
    is_plain, jumps_inside, lemma_gemm_completes, lemma_jumps_of_both, lemma_ran_behind,
    performed, quantised_row, ran, row_at, Kernels,
};
use crate::recurrence_laws::{are_apart, is_range};
use crate::upload::Weight;

verus! {

/// Byte `j` of the product of the rows at `x` with a weight.
pub open spec fn product_byte(k: Kernels, m: spec_fn(Ptr) -> u8, x: Ptr, w: Weight, j: int) -> u8 {
    let rb = w.n_out * 4;
    let row = row_at(m, x, w.n_in * 4, j / rb);
    let input = if spec_f32_family(w.ty) {
        row
    } else {
        quantised_row(k, row, w.n_in as int)
    };
    (k.row)(spec_wptr(w), w.n_in as int, w.n_out as int, input)[j % rb]
}

/// Between two memories the product of the rows at `x` with a weight was written to
/// `out`, and nothing else changed but for the library's own buffers.
pub open spec fn has_product(
    k: Kernels,
    now: spec_fn(Ptr) -> u8,
    next: spec_fn(Ptr) -> u8,
    x: Ptr,
    w: Weight,
    out: Ptr,
    t: int,
) -> bool {
    forall|p: Ptr|
        !(p is Buf) ==> #[trigger] next(p) == if is_inside(out, t * w.n_out * 4, p) {
            product_byte(k, now, x, w, distance(out, p).unwrap())
        } else {
            now(p)
        }
}

/// Two memories agree on the library's own buffers.
pub open spec fn keeps_buffers(now: spec_fn(Ptr) -> u8, next: spec_fn(Ptr) -> u8) -> bool {
    forall|p: Ptr| p is Buf ==> #[trigger] next(p) == now(p)
}

/// The rows at `x` lie quantised in `Slot::Fxq`.
pub open spec fn is_quantised(
    k: Kernels,
    now: spec_fn(Ptr) -> u8,
    x: Ptr,
    n_in: usize,
    t: int,
) -> bool {
    forall|i: int|
        0 <= i < t ==> #[trigger] row_at(
            now,
            spec_buf(Slot::Fxq),
            spec_xq_words(n_in as int) * 4,
            i,
        ) == quantised_row(k, row_at(now, x, n_in * 4, i), n_in as int)
}

/// A product that a kernel can be told.
pub open spec fn can_run(acc: &Q4Acc, x: Ptr, w: Weight, out: Ptr, t: usize) -> bool {
    &&& mm_fits(w, out, t as int)
    &&& sizes_fit(acc.tuning, quantised_mm(w, out, t))
    &&& x is Dev
    &&& out is Dev
    &&& acc.weight_f32(w) == spec_f32_family(w.ty)
}

/// Row and column of byte `i * d + b` of rows of `d` bytes.
proof fn lemma_row_of(i: int, b: int, d: int)
    requires
        0 <= b < d,
    ensures
        (i * d + b) / d == i,
        (i * d + b) % d == b,
{
    vstd::arithmetic::div_mod::lemma_fundamental_div_mod_converse(i * d + b, d, i, b);
}

/// Byte `j` of `t` rows of `d` bytes lies in one of the rows.
proof fn lemma_row_below(j: int, d: int, t: int)
    requires
        0 <= j < t * d,
        0 <= t,
        0 <= d,
    ensures
        0 < d,
        0 <= j / d < t,
{
    assert(d > 0) by (nonlinear_arith)
        requires
            0 <= j < t * d,
            0 <= t,
            0 <= d,
    ;
    assert(0 <= j / d < t) by (nonlinear_arith)
        requires
            0 <= j < t * d,
            0 < d,
    ;
}

/// What the quantisation of the rows at `x` leaves.
proof fn lemma_quant_completes(
    k: Kernels,
    m: spec_fn(Ptr) -> u8,
    x: Ptr,
    n_in: usize,
    t: usize,
    ok: spec_fn(int) -> bool,
    at: int,
)
    requires
        t * spec_xq_words(n_in as int) * 4 <= usize::MAX,
        x is Dev,
    ensures
        jumps_inside(quant_program(x, n_in, t as int)),
        is_quantised(k, ran(k, m, quant_program(x, n_in, t as int), ok, at), x, n_in, t as int),
        forall|p: Ptr|
            !(p is Buf) ==> #[trigger] ran(k, m, quant_program(x, n_in, t as int), ok, at)(p) == m(
                p,
            ),
{
    let prog = quant_program(x, n_in, t as int);
    reveal_with_fuel(ran, 3);
    assert(prog.skip(1) =~= seq![prog[1]]);
    assert(seq![prog[1]].skip(1) =~= Seq::<Cmd>::empty());
    let next = performed(k, m, prog[1]);
    assert(ran(k, m, prog, ok, at) == next);
    let xq = spec_buf(Slot::Fxq);
    let d = spec_xq_words(n_in as int) * 4;
    assert forall|i: int| 0 <= i < t implies #[trigger] row_at(next, xq, d, i) == quantised_row(
        k,
        row_at(next, x, n_in * 4, i),
        n_in as int,
    ) by {
        assert(row_at(next, x, n_in * 4, i) =~= row_at(m, x, n_in * 4, i));
        assert(0 <= i * d && i * d + d <= t * spec_xq_words(n_in as int) * 4) by (nonlinear_arith)
            requires
                0 <= i < t,
                d == spec_xq_words(n_in as int) * 4,
                0 <= d,
        ;
        assert forall|b: int| 0 <= b < d implies #[trigger] row_at(next, xq, d, i)[b]
            == quantised_row(k, row_at(m, x, n_in * 4, i), n_in as int)[b] by {
            lemma_row_of(i, b, d);
        }
        assert(row_at(next, xq, d, i) =~= quantised_row(
            k,
            row_at(m, x, n_in * 4, i),
            n_in as int,
        ));
    }
}

/// A product over quantised rows writes the product.
proof fn lemma_quantised_completes(
    k: Kernels,
    acc: &Q4Acc,
    m: spec_fn(Ptr) -> u8,
    x: Ptr,
    w: Weight,
    out: Ptr,
    t: usize,
    ok: spec_fn(int) -> bool,
    at: int,
)
    requires
        can_run(acc, x, w, out, t),
        !spec_f32_family(w.ty),
        is_quantised(k, m, x, w.n_in, t as int),
    ensures
        jumps_inside(gemm_program(acc.tuning, quantised_mm(w, out, t))),
        ({
            let next = ran(k, m, gemm_program(acc.tuning, quantised_mm(w, out, t)), ok, at);
            has_product(k, m, next, x, w, out, t as int) && keeps_buffers(m, next)
        }),
{
    let mm = quantised_mm(w, out, t);
    let next = ran(k, m, gemm_program(acc.tuning, mm), ok, at);
    assert(is_plain(acc.tuning, mm));
    lemma_gemm_completes(k, m, acc.tuning, mm, ok, at, out);
    assert forall|p: Ptr| !(p is Buf) implies #[trigger] next(p) == if is_inside(
        out,
        t * w.n_out * 4,
        p,
    ) {
        product_byte(k, m, x, w, distance(out, p).unwrap())
    } else {
        m(p)
    } by {
        lemma_gemm_completes(k, m, acc.tuning, mm, ok, at, p);
        if is_inside(out, t * w.n_out * 4, p) {
            let j = distance(out, p).unwrap();
            assert(t * w.n_out * 4 == t * (w.n_out * 4)) by (nonlinear_arith);
            lemma_row_below(j, w.n_out * 4, t as int);
            assert(row_at(m, mm.x, spec_xq_words(w.n_in as int) * 4, j / (w.n_out * 4))
                == quantised_row(k, row_at(m, x, w.n_in * 4, j / (w.n_out * 4)), w.n_in as int));
        }
    }
    assert forall|p: Ptr| p is Buf implies #[trigger] next(p) == m(p) by {
        lemma_gemm_completes(k, m, acc.tuning, mm, ok, at, p);
    }
}

/// A product behind commands that change the library's own buffers only.
proof fn lemma_product_after(
    k: Kernels,
    m: spec_fn(Ptr) -> u8,
    mid: spec_fn(Ptr) -> u8,
    next: spec_fn(Ptr) -> u8,
    x: Ptr,
    w: Weight,
    out: Ptr,
    t: int,
)
    requires
        x is Dev,
        forall|p: Ptr| !(p is Buf) ==> #[trigger] mid(p) == m(p),
        has_product(k, mid, next, x, w, out, t),
    ensures
        has_product(k, m, next, x, w, out, t),
{
    assert forall|p: Ptr| !(p is Buf) implies #[trigger] next(p) == if is_inside(
        out,
        t * w.n_out * 4,
        p,
    ) {
        product_byte(k, m, x, w, distance(out, p).unwrap())
    } else {
        m(p)
    } by {
        if is_inside(out, t * w.n_out * 4, p) {
            let i = distance(out, p).unwrap() / (w.n_out * 4);
            assert(row_at(mid, x, w.n_in * 4, i) =~= row_at(m, x, w.n_in * 4, i));
        }
    }
}

/// The program of a single product writes the product.
proof fn lemma_single_completes(
    k: Kernels,
    acc: &Q4Acc,
    m: spec_fn(Ptr) -> u8,
    x: Ptr,
    w: Weight,
    out: Ptr,
    t: usize,
    ok: spec_fn(int) -> bool,
    at: int,
)
    requires
        can_run(acc, x, w, out, t),
    ensures
        jumps_inside(acc.gemm_of(x, w, out, t)),
        has_product(k, m, ran(k, m, acc.gemm_of(x, w, out, t), ok, at), x, w, out, t as int),
{
    let prog = acc.gemm_of(x, w, out, t);
    let body = prog.skip(1);
    assert(ran(k, m, prog, ok, at) == ran(k, m, body, ok, at + 1));
    if spec_f32_family(w.ty) {
        let l = gemm_f32_launch(x, spec_wptr(w), w.n_in, w.n_out, t, out);
        assert(body =~= seq![l]);
        assert(seq![l].skip(1) =~= Seq::<Cmd>::empty());
        let next = performed(k, m, l);
        law_plain_product_grids_cover(x, spec_wptr(w), w.n_in, w.n_out, t, out);
        assert(ran(k, m, seq![l], ok, at + 1) == next) by {
            reveal_with_fuel(ran, 2);
        }
    } else {
        let quant = quant_program(x, w.n_in, t as int);
        let gemm = gemm_program(acc.tuning, quantised_mm(w, out, t));
        let rest = quant + gemm;
        let tried = t >= 32 && mmq_type(spec_ggml_id(w.ty)) && acc.tuning.q4_mmq;
        let from = at + if tried {
            2int
        } else {
            1
        };
        lemma_quant_completes(k, m, x, w.n_in, t, ok, from);
        let mid = ran(k, m, quant, ok, from);
        lemma_ran_behind(k, m, quant, gemm, ok, from);
        lemma_quantised_completes(k, acc, mid, x, w, out, t, ok, from + quant.len());
        lemma_product_after(k, m, mid, ran(k, m, rest, ok, from), x, w, out, t as int);
        lemma_jumps_of_both(quant, gemm);
        if tried {
            assert(body.skip(1) =~= rest);
            assert(body[0] == prog[1]);
            assert forall|i: int| 0 <= i < prog.len() implies (#[trigger] prog[i] matches Cmd::Try {
                on_ok,
                on_err,
                ..
            } ==> i + 1 + on_ok <= prog.len() && i + 1 + on_err <= prog.len()) by {
                if i >= 2 {
                    assert(prog[i] == rest[i - 2]);
                }
            }
        } else {
            assert(body =~= rest);
            assert(prog =~= seq![Cmd::Weight { key: w.key }] + rest);
            lemma_jumps_of_both(seq![Cmd::Weight { key: w.key }], rest);
        }
    }
}

/// A product of a mixed group writes the product, also where it quantises itself.
proof fn lemma_mixed_single_completes(
    k: Kernels,
    acc: &Q4Acc,
    m: spec_fn(Ptr) -> u8,
    x: Ptr,
    w: Weight,
    out: Ptr,
    t: usize,
    ok: spec_fn(int) -> bool,
    at: int,
)
    requires
        can_run(acc, x, w, out, t),
    ensures
        jumps_inside(acc.mixed_single(x, w, out, t)),
        has_product(k, m, ran(k, m, acc.mixed_single(x, w, out, t), ok, at), x, w, out, t as int),
{
    let prog = acc.mixed_single(x, w, out, t);
    if w.ty == GgmlType::Q8_0 && t >= 32 && acc.tuning.q8_mmq {
        reveal_with_fuel(ran, 3);
        assert(prog.skip(1) =~= seq![prog[1]]);
        assert(seq![prog[1]].skip(1) =~= Seq::<Cmd>::empty());
    } else {
        lemma_single_completes(k, acc, m, x, w, out, t, ok, at);
    }
}

/// A product of a uniform group writes the product.
proof fn lemma_uniform_single_completes(
    k: Kernels,
    acc: &Q4Acc,
    m: spec_fn(Ptr) -> u8,
    x: Ptr,
    w: Weight,
    out: Ptr,
    t: usize,
    ok: spec_fn(int) -> bool,
    at: int,
)
    requires
        can_run(acc, x, w, out, t),
        !spec_f32_family(w.ty),
        !acc.mmq_on(t as int) ==> is_quantised(k, m, x, w.n_in, t as int),
    ensures
        jumps_inside(acc.uniform_single(x, w, out, t)),
        ({
            let next = ran(k, m, acc.uniform_single(x, w, out, t), ok, at);
            &&& has_product(k, m, next, x, w, out, t as int)
            &&& !acc.mmq_on(t as int) ==> keeps_buffers(m, next)
        }),
{
    let prog = acc.uniform_single(x, w, out, t);
    if acc.mmq_on(t as int) {
        assert(prog =~= acc.gemm_of(x, w, out, t));
        lemma_single_completes(k, acc, m, x, w, out, t, ok, at);
    } else {
        let gemm = gemm_program(acc.tuning, quantised_mm(w, out, t));
        let first = seq![Cmd::Weight { key: w.key }];
        assert(prog =~= first + gemm);
        assert(prog.skip(1) =~= gemm);
        lemma_quantised_completes(k, acc, m, x, w, out, t, ok, at + 1);
        lemma_jumps_of_both(first, gemm);
    }
}

/// A group of products over the rows at `x`: the memory before it, the bytes that the
/// rows take, the weights, and the addresses of the outputs.
pub struct ProductGroup {
    pub k: Kernels,
    pub m: spec_fn(Ptr) -> u8,
    pub x: Ptr,
    pub x_len: int,
    pub ws: Seq<Weight>,
    pub outs: Seq<Ptr>,
    pub t: usize,
}

impl ProductGroup {
    /// Bytes of the results of weight `i`.
    pub open spec fn len_of(&self, i: int) -> int {
        self.t * self.ws[i].n_out * 4
    }

    /// Every product can be told to a kernel, and every output lies apart from the rows
    /// and from the other outputs.
    pub open spec fn is_sound(&self, acc: &Q4Acc) -> bool {
        &&& self.ws.len() == self.outs.len()
        &&& is_range(self.x, self.x_len)
        &&& forall|i: int|
            0 <= i < self.ws.len() ==> {
                &&& can_run(acc, self.x, #[trigger] self.ws[i], self.outs[i], self.t)
                &&& self.t * self.ws[i].n_in * 4 <= self.x_len
                &&& are_apart(self.outs[i], self.len_of(i), self.x, self.x_len)
            }
        &&& forall|i: int, j: int|
            0 <= i < self.ws.len() && 0 <= j < self.ws.len() && i != j ==> are_apart(
                #[trigger] self.outs[i],
                self.len_of(i),
                #[trigger] self.outs[j],
                self.len_of(j),
            )
    }

    /// The address belongs to one of the first `n` outputs.
    pub open spec fn is_output(&self, n: int, p: Ptr) -> bool {
        exists|e: int| 0 <= e < n && #[trigger] is_inside(self.outs[e], self.len_of(e), p)
    }

    /// The first `n` outputs hold their products, and nothing else changed but for the
    /// library's own buffers.
    pub open spec fn has_products(&self, now: spec_fn(Ptr) -> u8, n: int) -> bool {
        &&& forall|e: int, j: int|
            0 <= e < n && 0 <= j < self.len_of(e) ==> now(#[trigger] self.outs[e].spec_at(j))
                == product_byte(self.k, self.m, self.x, self.ws[e], j)
        &&& forall|p: Ptr| !(p is Buf) && !self.is_output(n, p) ==> #[trigger] now(p) == (self.m)(p)
    }

    /// The rows are as they were.
    proof fn lemma_rows_kept(&self, acc: &Q4Acc, now: spec_fn(Ptr) -> u8, n: int, e: int, i: int)
        requires
            self.is_sound(acc),
            0 <= n <= self.ws.len(),
            self.has_products(now, n),
            0 <= e < self.ws.len(),
            0 <= i < self.t,
        ensures
            row_at(now, self.x, self.ws[e].n_in * 4, i) == row_at(
                self.m,
                self.x,
                self.ws[e].n_in * 4,
                i,
            ),
    {
        let d = self.ws[e].n_in * 4;
        assert(self.t * self.ws[e].n_in * 4 <= self.x_len);
        assert(0 <= i * d && i * d + d <= self.t * self.ws[e].n_in * 4) by (nonlinear_arith)
            requires
                0 <= i < self.t,
                d == self.ws[e].n_in * 4,
                0 <= d,
        ;
        assert forall|b: int| 0 <= b < d implies #[trigger] row_at(now, self.x, d, i)[b] == row_at(
            self.m,
            self.x,
            d,
            i,
        )[b] by {
            let p = self.x.spec_at(i * d + b);
            assert(self.x.spec_at(i * d).spec_at(b) == p);
            if self.is_output(n, p) {
                let o = choose|o: int| 0 <= o < n && #[trigger] is_inside(
                    self.outs[o],
                    self.len_of(o),
                    p,
                );
                assert(can_run(acc, self.x, self.ws[o], self.outs[o], self.t));
                assert(false);
            }
        }
        assert(row_at(now, self.x, d, i) =~= row_at(self.m, self.x, d, i));
    }

    /// One more product.
    proof fn lemma_one_more(
        &self,
        acc: &Q4Acc,
        now: spec_fn(Ptr) -> u8,
        next: spec_fn(Ptr) -> u8,
        n: int,
    )
        requires
            self.is_sound(acc),
            0 <= n < self.ws.len(),
            self.has_products(now, n),
            has_product(self.k, now, next, self.x, self.ws[n], self.outs[n], self.t as int),
        ensures
            self.has_products(next, n + 1),
    {
        let (w, out) = (self.ws[n], self.outs[n]);
        let rb = w.n_out * 4;
        assert(can_run(acc, self.x, w, out, self.t));
        assert(self.len_of(n) == self.t * rb) by (nonlinear_arith)
            requires
                self.len_of(n) == self.t * w.n_out * 4,
                rb == w.n_out * 4,
        ;
        assert forall|e: int, j: int| 0 <= e < n + 1 && 0 <= j < self.len_of(e) implies next(
            #[trigger] self.outs[e].spec_at(j),
        ) == product_byte(self.k, self.m, self.x, self.ws[e], j) by {
            assert(can_run(acc, self.x, self.ws[e], self.outs[e], self.t));
            let p = self.outs[e].spec_at(j);
            if e < n {
                assert(are_apart(out, self.len_of(n), self.outs[e], self.len_of(e)));
                assert(!is_inside(out, self.len_of(n), p));
                assert(now(p) == product_byte(self.k, self.m, self.x, self.ws[e], j));
            } else {
                assert(distance(out, p) == Some(j));
                lemma_row_below(j, rb, self.t as int);
                self.lemma_rows_kept(acc, now, n, n, j / rb);
            }
        }
        assert forall|p: Ptr| !(p is Buf) && !self.is_output(n + 1, p) implies #[trigger] next(p)
            == (self.m)(p) by {
            assert(!is_inside(self.outs[n], self.len_of(n), p));
            if self.is_output(n, p) {
                let o = choose|o: int| 0 <= o < n && #[trigger] is_inside(
                    self.outs[o],
                    self.len_of(o),
                    p,
                );
                assert(is_inside(self.outs[o], self.len_of(o), p));
            }
        }
    }

    /// Two more products of one launch, which read the memory before it.
    proof fn lemma_two_more(
        &self,
        acc: &Q4Acc,
        now: spec_fn(Ptr) -> u8,
        next: spec_fn(Ptr) -> u8,
        n: int,
    )
        requires
            self.is_sound(acc),
            0 <= n && n + 1 < self.ws.len(),
            self.has_products(now, n),
            forall|p: Ptr|
                !(p is Buf) ==> #[trigger] next(p) == if is_inside(
                    self.outs[n + 1],
                    self.len_of(n + 1),
                    p,
                ) {
                    product_byte(
                        self.k,
                        now,
                        self.x,
                        self.ws[n + 1],
                        distance(self.outs[n + 1], p).unwrap(),
                    )
                } else if is_inside(self.outs[n], self.len_of(n), p) {
                    product_byte(self.k, now, self.x, self.ws[n], distance(self.outs[n], p).unwrap())
                } else {
                    now(p)
                },
        ensures
            self.has_products(next, n + 2),
    {
        let (w, out) = (self.ws[n + 1], self.outs[n + 1]);
        let rb = w.n_out * 4;
        let mid = written(
            now,
            self.outs[n],
            self.len_of(n),
            |j: int| product_byte(self.k, now, self.x, self.ws[n], j),
        );
        assert(can_run(acc, self.x, self.ws[n], self.outs[n], self.t));
        assert(can_run(acc, self.x, w, out, self.t));
        self.lemma_one_more(acc, now, mid, n);
        assert(self.len_of(n + 1) == self.t * rb) by (nonlinear_arith)
            requires
                self.len_of(n + 1) == self.t * w.n_out * 4,
                rb == w.n_out * 4,
        ;
        assert forall|p: Ptr| !(p is Buf) implies #[trigger] next(p) == if is_inside(
            out,
            self.t * w.n_out * 4,
            p,
        ) {
            product_byte(self.k, mid, self.x, w, distance(out, p).unwrap())
        } else {
            mid(p)
        } by {
            if is_inside(out, self.len_of(n + 1), p) {
                let j = distance(out, p).unwrap();
                lemma_row_below(j, rb, self.t as int);
                self.lemma_rows_kept(acc, now, n, n + 1, j / rb);
                self.lemma_rows_kept(acc, mid, n + 1, n + 1, j / rb);
            }
        }
        self.lemma_one_more(acc, mid, next, n + 1);
    }

    /// The output frames have these handles.
    pub open spec fn has_handles(&self, acc: &Q4Acc, hs: Seq<u64>) -> bool {
        &&& hs.len() == self.outs.len()
        &&& forall|i: int|
            0 <= i < hs.len() ==> acc.frames.spec_ptr(#[trigger] hs[i]) == Ok::<Ptr, AccError>(
                self.outs[i],
            )
    }

    /// Where one quantisation serves the group, it is kept until the end.
    proof fn lemma_quantised_kept(
        &self,
        acc: &Q4Acc,
        now: spec_fn(Ptr) -> u8,
        next: spec_fn(Ptr) -> u8,
        n: int,
        l: int,
    )
        requires
            self.is_sound(acc),
            0 <= n <= self.ws.len(),
            0 <= l <= self.ws.len(),
            0 < self.ws.len(),
            self.has_products(now, n),
            self.has_products(next, l),
            keeps_buffers(now, next),
            is_quantised(self.k, now, self.x, self.ws[0].n_in, self.t as int),
        ensures
            is_quantised(self.k, next, self.x, self.ws[0].n_in, self.t as int),
    {
        let xq = spec_buf(Slot::Fxq);
        let n_in = self.ws[0].n_in;
        let d = spec_xq_words(n_in as int) * 4;
        assert forall|i: int| 0 <= i < self.t implies #[trigger] row_at(next, xq, d, i)
            == quantised_row(self.k, row_at(next, self.x, n_in * 4, i), n_in as int) by {
            self.lemma_rows_kept(acc, now, n, 0, i);
            self.lemma_rows_kept(acc, next, l, 0, i);
            assert(row_at(next, xq, d, i) =~= row_at(now, xq, d, i));
        }
    }

    /// A launch that serves two weights.
    proof fn lemma_pair_launch(
        &self,
        acc: &Q4Acc,
        now: spec_fn(Ptr) -> u8,
        mid: spec_fn(Ptr) -> u8,
        kind: Pairing,
        c: Cmd,
        n: int,
    )
        requires
            self.is_sound(acc),
            self.t == 1,
            0 <= n && n + 1 < self.ws.len(),
            self.ws[n].n_in == self.ws[n + 1].n_in,
            self.has_products(now, n),
            forall|p: Ptr| !(p is Buf) ==> #[trigger] mid(p) == now(p),
            kind != Pairing::F32 ==> is_quantised(self.k, mid, self.x, self.ws[n].n_in, 1),
            spec_f32_family(self.ws[n].ty) == (kind == Pairing::F32),
            spec_f32_family(self.ws[n + 1].ty) == (kind == Pairing::F32 || kind == Pairing::Mixed),
            ({
                let (a, b, o1, o2) = (self.ws[n], self.ws[n + 1], self.outs[n], self.outs[n + 1]);
                let (w1, w2) = (spec_wptr(a), spec_wptr(b));
                let xq = spec_buf(Slot::Fxq);
                c == match kind {
                    Pairing::F32 => f32_dual_launch(
                        self.x,
                        w1,
                        a.n_out,
                        o1,
                        w2,
                        b.n_out,
                        o2,
                        a.n_in,
                    ),
                    Pairing::Mixed => mix_dual_launch(
                        xq,
                        w1,
                        a.n_out,
                        o1,
                        self.x,
                        w2,
                        b.n_out,
                        o2,
                        a.n_in,
                    ),
                    _ => q8_dual_launch(xq, w1, a.n_out, o1, w2, b.n_out, o2, a.n_in),
                }
            }),
        ensures
            self.has_products(performed(self.k, mid, c), n + 2),
            keeps_buffers(mid, performed(self.k, mid, c)),
    {
        let next = performed(self.k, mid, c);
        let (a, b, o1, o2) = (self.ws[n], self.ws[n + 1], self.outs[n], self.outs[n + 1]);
        assert(can_run(acc, self.x, a, o1, self.t));
        assert(can_run(acc, self.x, b, o2, self.t));
        let (r1, r2) = (a.n_out * 4, b.n_out * 4);
        assert(self.len_of(n) == r1 && self.len_of(n + 1) == r2);
        let d = spec_xq_words(a.n_in as int) * 4;
        law_dual_grids_cover(
            spec_buf(Slot::Fxq),
            self.x,
            spec_wptr(a),
            a.n_out,
            o1,
            spec_wptr(b),
            b.n_out,
            o2,
            a.n_in,
        );
        assert(kind != Pairing::F32 ==> row_at(mid, spec_buf(Slot::Fxq), d, 0) == quantised_row(
            self.k,
            row_at(mid, self.x, a.n_in * 4, 0),
            a.n_in as int,
        ));
        assert(row_at(mid, self.x, a.n_in * 4, 0) =~= row_at(now, self.x, a.n_in * 4, 0));
        assert forall|p: Ptr| !(p is Buf) implies #[trigger] next(p) == if is_inside(
            o2,
            self.len_of(n + 1),
            p,
        ) {
            product_byte(self.k, now, self.x, b, distance(o2, p).unwrap())
        } else if is_inside(o1, self.len_of(n), p) {
            product_byte(self.k, now, self.x, a, distance(o1, p).unwrap())
        } else {
            now(p)
        } by {
            if is_inside(o2, r2, p) {
                lemma_row_below(distance(o2, p).unwrap(), r2, 1);
            } else if is_inside(o1, r1, p) {
                lemma_row_below(distance(o1, p).unwrap(), r1, 1);
            }
        }
        self.lemma_two_more(acc, now, next, n);
    }

    /// The products of a uniform group from entry `n` on.
    proof fn lemma_uniform_completes(
        &self,
        acc: &Q4Acc,
        hs: Seq<u64>,
        now: spec_fn(Ptr) -> u8,
        ok: spec_fn(int) -> bool,
        at: int,
        n: int,
    )
        requires
            self.is_sound(acc),
            self.has_handles(acc, hs),
            Q4Acc::shares_quant(self.ws),
            0 <= n <= self.ws.len(),
            self.has_products(now, n),
            self.ws.len() > 0 && !acc.mmq_on(self.t as int) ==> is_quantised(
                self.k,
                now,
                self.x,
                self.ws[0].n_in,
                self.t as int,
            ),
        ensures
            acc.uniform_from(self.x, self.ws, hs, self.t, n).1 is None,
            self.has_products(
                ran(self.k, now, acc.uniform_from(self.x, self.ws, hs, self.t, n).0, ok, at),
                self.ws.len() as int,
            ),
        decreases self.ws.len() - n,
    {
        if n < self.ws.len() {
            let (w, out) = (self.ws[n], self.outs[n]);
            let part = acc.uniform_at(self.x, self.ws, hs, self.t, n);
            let width = acc.uniform_width(self.ws, self.t as int, n);
            let rest = acc.uniform_from(self.x, self.ws, hs, self.t, n + width);
            assert(can_run(acc, self.x, w, out, self.t));
            assert(acc.frames.spec_ptr(hs[n]) == Ok::<Ptr, AccError>(out));
            assert(w.n_in == self.ws[0].n_in && !spec_f32_family(w.ty));
            let next = ran(self.k, now, part.0, ok, at);
            if acc.pairs_q8(self.ws, self.t as int, n) {
                let b = self.ws[n + 1];
                assert(acc.frames.spec_ptr(hs[n + 1]) == Ok::<Ptr, AccError>(self.outs[n + 1]));
                assert(b.n_in == self.ws[0].n_in && !spec_f32_family(b.ty));
                let l = part.0[2];
                assert(part.0 =~= seq![part.0[0], part.0[1], l]);
                lemma_three(self.k, now, part.0, ok, at);
                self.lemma_pair_launch(acc, now, now, Pairing::Q8, l, n);
            } else {
                lemma_uniform_single_completes(
                    self.k,
                    acc,
                    now,
                    self.x,
                    w,
                    out,
                    self.t,
                    ok,
                    at,
                );
                self.lemma_one_more(acc, now, next, n);
            }
            if !acc.mmq_on(self.t as int) {
                self.lemma_quantised_kept(acc, now, next, n, n + width);
            }
            lemma_ran_behind(self.k, now, part.0, rest.0, ok, at);
            self.lemma_uniform_completes(acc, hs, next, ok, at + part.0.len(), n + width);
        }
    }

    /// The products of a mixed group from entry `n` on.
    proof fn lemma_mixed_completes(
        &self,
        acc: &Q4Acc,
        hs: Seq<u64>,
        now: spec_fn(Ptr) -> u8,
        ok: spec_fn(int) -> bool,
        at: int,
        n: int,
    )
        requires
            self.is_sound(acc),
            self.has_handles(acc, hs),
            0 <= n <= self.ws.len(),
            self.has_products(now, n),
        ensures
            acc.mixed_from(self.x, self.ws, hs, self.t, n).1 is None,
            self.has_products(
                ran(self.k, now, acc.mixed_from(self.x, self.ws, hs, self.t, n).0, ok, at),
                self.ws.len() as int,
            ),
        decreases self.ws.len() - n,
    {
        if n < self.ws.len() {
            let (w, out) = (self.ws[n], self.outs[n]);
            let kind = acc.pairing(self.ws, self.t as int, n);
            let part = acc.mixed_at(self.x, self.ws, hs, self.t, n);
            let width = acc.mixed_width(self.ws, self.t as int, n);
            let rest = acc.mixed_from(self.x, self.ws, hs, self.t, n + width);
            assert(can_run(acc, self.x, w, out, self.t));
            assert(acc.frames.spec_ptr(hs[n]) == Ok::<Ptr, AccError>(out));
            let next = ran(self.k, now, part.0, ok, at);
            if kind == Pairing::Alone {
                lemma_mixed_single_completes(
                    self.k,
                    acc,
                    now,
                    self.x,
                    w,
                    out,
                    self.t,
                    ok,
                    at,
                );
                self.lemma_one_more(acc, now, next, n);
            } else {
                let b = self.ws[n + 1];
                assert(acc.frames.spec_ptr(hs[n + 1]) == Ok::<Ptr, AccError>(self.outs[n + 1]));
                let first = both_weights(w, b);
                let l = part.0.last();
                if kind == Pairing::F32 {
                    lemma_three(self.k, now, part.0, ok, at);
                    self.lemma_pair_launch(acc, now, now, kind, l, n);
                } else {
                    let quant = quant_program(self.x, w.n_in, self.t as int);
                    let tail = quant + seq![l];
                    assert(part.0 =~= first + tail);
                    assert(first.skip(1) =~= seq![first[1]]);
                    assert(seq![first[1]].skip(1) =~= Seq::<Cmd>::empty());
                    assert(ran(self.k, now, first, ok, at) == now) by {
                        reveal_with_fuel(ran, 3);
                    }
                    lemma_ran_behind(self.k, now, first, tail, ok, at);
                    lemma_quant_completes(self.k, now, self.x, w.n_in, self.t, ok, at + 2);
                    lemma_ran_behind(self.k, now, quant, seq![l], ok, at + 2);
                    let mid = ran(self.k, now, quant, ok, at + 2);
                    assert(seq![l].skip(1) =~= Seq::<Cmd>::empty());
                    assert(ran(self.k, mid, seq![l], ok, at + 4) == performed(self.k, mid, l)) by {
                        reveal_with_fuel(ran, 2);
                    }
                    self.lemma_pair_launch(acc, now, mid, kind, l, n);
                }
            }
            lemma_ran_behind(self.k, now, part.0, rest.0, ok, at);
            self.lemma_mixed_completes(acc, hs, next, ok, at + part.0.len(), n + width);
        }
    }
}

/// Two commands that make weights resident, and a launch.
proof fn lemma_three(
    k: Kernels,
    now: spec_fn(Ptr) -> u8,
    cmds: Seq<Cmd>,
    ok: spec_fn(int) -> bool,
    at: int,
)
    requires
        cmds.len() == 3,
        cmds[0] is Weight,
        cmds[1] is Weight,
        cmds[2] is Launch,
    ensures
        ran(k, now, cmds, ok, at) == performed(k, now, cmds[2]),
        jumps_inside(cmds),
{
    reveal_with_fuel(ran, 4);
    assert(cmds.skip(1)[0] == cmds[1]);
    assert(cmds.skip(1).skip(1) =~= seq![cmds[2]]);
    assert(seq![cmds[2]].skip(1) =~= Seq::<Cmd>::empty());
}

/// However a group of products is planned (one quantisation for all, two weights in one
/// launch, a kernel that quantises for itself), it leaves in every output frame what the
/// single product of its weight leaves there, whatever the kernels compute and whichever
/// attempts the device refuses. Nothing else changes but for the library's own buffers.
pub proof fn law_group_leaves_the_single_products(
    acc: Q4Acc,
    g: ProductGroup,
    hs: Seq<u64>,
    ok: spec_fn(int) -> bool,
    ok_single: spec_fn(int) -> bool,
    i: int,
    j: int,
    p: Ptr,
)
    requires
        g.is_sound(&acc),
        g.has_handles(&acc, hs),
        0 <= i < g.ws.len(),
        0 <= j < g.len_of(i),
    ensures
        acc.group_of(g.x, g.ws, hs, g.t).1 is None,
        ({
            let group = ran(g.k, g.m, acc.group_of(g.x, g.ws, hs, g.t).0, ok, 0);
            let single = ran(
                g.k,
                g.m,
                acc.gemm_of(g.x, g.ws[i], g.outs[i], g.t),
                ok_single,
                0,
            );
            &&& group(g.outs[i].spec_at(j)) == single(g.outs[i].spec_at(j))
            &&& group(g.outs[i].spec_at(j)) == product_byte(g.k, g.m, g.x, g.ws[i], j)
            &&& !(p is Buf) && !g.is_output(g.ws.len() as int, p) ==> group(p) == (g.m)(p)
        }),
{
    let w = g.ws[i];
    assert(can_run(&acc, g.x, w, g.outs[i], g.t));
    lemma_single_completes(g.k, &acc, g.m, g.x, w, g.outs[i], g.t, ok_single, 0);
    assert(distance(g.outs[i], g.outs[i].spec_at(j)) == Some(j));
    assert(g.has_products(g.m, 0));
    if Q4Acc::shares_quant(g.ws) {
        let quant = quant_program(g.x, g.ws[0].n_in, g.t as int);
        let from = acc.uniform_from(g.x, g.ws, hs, g.t, 0);
        if acc.mmq_on(g.t as int) {
            assert(Seq::<Cmd>::empty() + from.0 =~= from.0);
            g.lemma_uniform_completes(&acc, hs, g.m, ok, 0, 0);
        } else {
            assert(can_run(&acc, g.x, g.ws[0], g.outs[0], g.t));
            lemma_quant_completes(g.k, g.m, g.x, g.ws[0].n_in, g.t, ok, 0);
            lemma_ran_behind(g.k, g.m, quant, from.0, ok, 0);
            let mid = ran(g.k, g.m, quant, ok, 0);
            g.lemma_uniform_completes(&acc, hs, mid, ok, quant.len() as int, 0);
        }
    } else {
        g.lemma_mixed_completes(&acc, hs, g.m, ok, 0, 0);
    }
}

/// Whatever the kernels compute and whichever attempts are refused, the program leaves at
/// `out` the product of every row at `x`.
pub open spec fn multiplies(acc: Q4Acc, x: Ptr, w: Weight, out: Ptr, t: usize, c: Seq<Cmd>) -> bool {
    can_run(&acc, x, w, out, t) ==> forall|
        k: Kernels,
        m: spec_fn(Ptr) -> u8,
        ok: spec_fn(int) -> bool,
    | #[trigger]
        has_product(k, m, ran(k, m, c, ok, 0), x, w, out, t as int)
}

/// The product over a frame is that of its rows.
pub proof fn law_product_of_every_row(acc: Q4Acc, x: Ptr, w: Weight, out: Ptr, t: usize)
    ensures
        multiplies(acc, x, w, out, t, acc.gemm_of(x, w, out, t)),
{
    if can_run(&acc, x, w, out, t) {
        assert forall|k: Kernels, m: spec_fn(Ptr) -> u8, ok: spec_fn(int) -> bool| #[trigger]
            has_product(
                k,
                m,
                ran(k, m, acc.gemm_of(x, w, out, t), ok, 0),
                x,
                w,
                out,
                t as int,
            ) by {
            lemma_single_completes(k, &acc, m, x, w, out, t, ok, 0);
        }
    }
}

/// The program leaves in every output the product of the rows at `x` with its own weight.
pub open spec fn multiplies_all(acc: Q4Acc, x: Ptr, ws: Seq<Weight>, hs: Seq<u64>, t: usize, c: Seq<Cmd>) -> bool {
    forall|g: ProductGroup, ok: spec_fn(int) -> bool, i: int, j: int|
        g.is_sound(&acc) && g.has_handles(&acc, hs) && g.x == x && g.ws == ws && g.t == t && 0 <= i
            < ws.len() && 0 <= j < g.len_of(i) ==> #[trigger] ran(g.k, g.m, c, ok, 0)(
            #[trigger] g.outs[i].spec_at(j),
        ) == product_byte(g.k, g.m, x, ws[i], j)
}

/// A group of products is that of every row with every weight.
pub proof fn law_group_multiplies_all(acc: Q4Acc, x: Ptr, ws: Seq<Weight>, hs: Seq<u64>, t: usize)
    ensures
        multiplies_all(acc, x, ws, hs, t, acc.group_of(x, ws, hs, t).0),
{
    let c = acc.group_of(x, ws, hs, t).0;
    assert forall|g: ProductGroup, ok: spec_fn(int) -> bool, i: int, j: int|
        g.is_sound(&acc) && g.has_handles(&acc, hs) && g.x == x && g.ws == ws && g.t == t && 0 <= i
            < ws.len() && 0 <= j < g.len_of(i) implies #[trigger] ran(g.k, g.m, c, ok, 0)(
        #[trigger] g.outs[i].spec_at(j),
    ) == product_byte(g.k, g.m, x, ws[i], j) by {
        law_group_leaves_the_single_products(acc, g, hs, ok, ok, i, j, Ptr::Null);
    }
}

} // verus!
