//! What the vision tower computes for every token.
//!
//! The kernels are parameters, as in `kernel_effects`. The tower is described row by row:
//! what each block makes of the rows of its tokens.

use vstd::prelude::*;
use crate::arith::{lemma_ceil_div, spec_ceil_div};
use crate::attn_laws::fetched;
use crate::device::{Cmd, Host, Ptr};
use crate::error::AccError;
use crate::gemm_laws::law_grid_covers_blocks;
use crate::host_laws::host_row;
use crate::kernel_effects::{none, view, Op};
use crate::layer_laws::cut;
use crate::memory::{distance, is_inside, written};
use crate::op_laws::{lemma_in_row, lemma_one_command};
use crate::product_runs::{
    jumps_inside, lemma_ran_behind, performed, ran, row_at, Kernels,
};
use crate::recurrence_laws::bytes_at;
use crate::vit::{
    block_ids, spec_dev, tail_ids, vit_add, vit_gelu, vit_gemm, Tensor, Vit, VitTemps, VIT_OUT,
};
use crate::vit_names::{VitPart, VitWeight};

verus! {

/// A product with a tensor and its bias.
pub open spec fn product(k: Kernels, m: spec_fn(Ptr) -> u8, w: Tensor, bias: Tensor, row: Seq<u8>) -> Seq<
    u8,
> {
    cut(
        (k.op)(
            Op::VitProduct,
            seq![w.ni as int, w.rows as int],
            seq![row],
            seq![view(m, w.ptr), view(m, bias.ptr)],
        ),
        w.rows * 4,
    )
}

/// A normed row.
pub open spec fn layer_normed(
    k: Kernels,
    m: spec_fn(Ptr) -> u8,
    v: Vit,
    w: Tensor,
    bias: Tensor,
    row: Seq<u8>,
) -> Seq<u8> {
    cut(
        (k.op)(
            Op::LayerNorm,
            seq![v.shape.eps as int, v.shape.n_embd as int],
            seq![row],
            seq![view(m, w.ptr), view(m, bias.ptr)],
        ),
        v.shape.n_embd * 4,
    )
}

/// A row that was rotated to the position of its token.
pub open spec fn rotated(k: Kernels, v: Vit, row: Seq<u8>, yx: Seq<u8>) -> Seq<u8> {
    cut(
        (k.op)(
            Op::VitRope,
            seq![v.shape.n_head as int, v.d_head as int],
            seq![row, yx],
            none(),
        ),
        v.shape.n_embd * 4,
    )
}

/// Part `i` of a row of parts of `len` bytes.
pub open spec fn part_of(row: Seq<u8>, i: int, len: int) -> Seq<u8> {
    Seq::new(len as nat, |b: int| row[i * len + b])
}

/// Value `i` of a row.
pub open spec fn value_of(row: Seq<u8>, i: int) -> Seq<u8> {
    Seq::new(4, |b: int| row[i * 4 + b])
}

/// The sum of two rows of `len` bytes, value by value.
pub open spec fn added(k: Kernels, a: Seq<u8>, b: Seq<u8>, len: int) -> Seq<u8> {
    Seq::new(
        len as nat,
        |j: int|
            (k.op)(
                Op::Sum,
                Seq::empty(),
                seq![value_of(a, j / 4), value_of(b, j / 4)],
                none(),
            )[j % 4],
    )
}

/// The activation of a row of `len` bytes, value by value.
pub open spec fn activated(k: Kernels, a: Seq<u8>, len: int) -> Seq<u8> {
    Seq::new(
        len as nat,
        |j: int| (k.op)(Op::Gelu, Seq::empty(), seq![value_of(a, j / 4)], none())[j % 4],
    )
}

/// The rows of `t` tokens one after the other.
pub open spec fn joined(rows: spec_fn(int) -> Seq<u8>, t: int, len: int) -> Seq<u8> {
    Seq::new((t * len) as nat, |j: int| rows(j / len)[j % len])
}

/// The tensors of a block.
pub struct BlockTensors {
    pub ln1_w: Tensor,
    pub ln1_b: Tensor,
    pub qkv_w: Tensor,
    pub qkv_b: Tensor,
    pub out_w: Tensor,
    pub out_b: Tensor,
    pub ln2_w: Tensor,
    pub ln2_b: Tensor,
    pub up_w: Tensor,
    pub up_b: Tensor,
    pub down_w: Tensor,
    pub down_b: Tensor,
}

/// A tensor of a block, by its part.
pub open spec fn block_tensor(v: Vit, il: usize, part: VitPart) -> Tensor {
    v.lookup(VitWeight::Block { il, part })->Ok_0
}

/// The tensors of block `il`.
pub open spec fn tensors_of(v: Vit, il: usize) -> BlockTensors {
    BlockTensors {
        ln1_w: block_tensor(v, il, VitPart::Ln1W),
        ln1_b: block_tensor(v, il, VitPart::Ln1B),
        qkv_w: block_tensor(v, il, VitPart::QkvW),
        qkv_b: block_tensor(v, il, VitPart::QkvB),
        out_w: block_tensor(v, il, VitPart::OutW),
        out_b: block_tensor(v, il, VitPart::OutB),
        ln2_w: block_tensor(v, il, VitPart::Ln2W),
        ln2_b: block_tensor(v, il, VitPart::Ln2B),
        up_w: block_tensor(v, il, VitPart::UpW),
        up_b: block_tensor(v, il, VitPart::UpB),
        down_w: block_tensor(v, il, VitPart::DownW),
        down_b: block_tensor(v, il, VitPart::DownB),
    }
}

/// Queries, keys and values of a token in one row.
pub open spec fn projected(k: Kernels, m: spec_fn(Ptr) -> u8, v: Vit, b: BlockTensors, x: Seq<u8>) -> Seq<
    u8,
> {
    product(k, m, b.qkv_w, b.qkv_b, layer_normed(k, m, v, b.ln1_w, b.ln1_b, x))
}

/// The result of attention for token `s`.
pub open spec fn attended_row(
    k: Kernels,
    m: spec_fn(Ptr) -> u8,
    v: Vit,
    b: BlockTensors,
    x: spec_fn(int) -> Seq<u8>,
    yx: spec_fn(int) -> Seq<u8>,
    t: int,
    scale: u32,
    s: int,
) -> Seq<u8> {
    let len = v.shape.n_embd * 4;
    let q = rotated(k, v, part_of(projected(k, m, v, b, x(s)), 0, len), yx(s));
    let keys = |i: int| rotated(k, v, part_of(projected(k, m, v, b, x(i)), 1, len), yx(i));
    let values = |i: int| part_of(projected(k, m, v, b, x(i)), 2, len);
    cut(
        (k.op)(
            Op::VitAttention,
            seq![scale as int, t, v.shape.n_head as int, v.d_head as int],
            seq![q, joined(keys, t, len), joined(values, t, len)],
            none(),
        ),
        len,
    )
}

/// The row of token `s` behind the attention of a block, and its residual.
pub open spec fn mixed_row(
    k: Kernels,
    m: spec_fn(Ptr) -> u8,
    v: Vit,
    b: BlockTensors,
    x: spec_fn(int) -> Seq<u8>,
    yx: spec_fn(int) -> Seq<u8>,
    t: int,
    scale: u32,
    s: int,
) -> Seq<u8> {
    added(
        k,
        x(s),
        product(k, m, b.out_w, b.out_b, attended_row(k, m, v, b, x, yx, t, scale, s)),
        v.shape.n_embd * 4,
    )
}

/// A row behind the feed-forward part of a block, and its residual.
pub open spec fn fed_row(k: Kernels, m: spec_fn(Ptr) -> u8, v: Vit, b: BlockTensors, x: Seq<u8>) -> Seq<u8> {
    let up = product(k, m, b.up_w, b.up_b, layer_normed(k, m, v, b.ln2_w, b.ln2_b, x));
    added(
        k,
        x,
        product(k, m, b.down_w, b.down_b, activated(k, up, v.shape.n_ff * 4)),
        v.shape.n_embd * 4,
    )
}

/// The row of token `s` behind a block.
pub open spec fn block_row(
    k: Kernels,
    m: spec_fn(Ptr) -> u8,
    v: Vit,
    b: BlockTensors,
    x: spec_fn(int) -> Seq<u8>,
    yx: spec_fn(int) -> Seq<u8>,
    t: int,
    scale: u32,
    s: int,
) -> Seq<u8> {
    fed_row(k, m, v, b, mixed_row(k, m, v, b, x, yx, t, scale, s))
}

/// The address lies in the memory that begins at `base`.
pub open spec fn is_at(p: Ptr, base: u64) -> bool {
    p matches Ptr::Dev { base: b, .. } && b == base
}

/// The two memories differ at most in the one that begins at `base`.
pub open spec fn only(m: spec_fn(Ptr) -> u8, n: spec_fn(Ptr) -> u8, base: u64) -> bool {
    forall|p: Ptr| !is_at(p, base) ==> #[trigger] n(p) == m(p)
}

/// The address lies in one of the working buffers.
pub open spec fn is_work(v: Vit, p: Ptr) -> bool {
    is_at(p, v.bufs.yx) || is_at(p, v.bufs.x) || is_at(p, v.bufs.xn) || is_at(p, v.bufs.qkv) || is_at(p, v.bufs.attn)
        || is_at(p, v.bufs.proj) || is_at(p, v.bufs.mid) || is_at(p, v.bufs.kvs)
}

/// The two memories agree outside the working buffers.
pub open spec fn same_rest(v: Vit, m: spec_fn(Ptr) -> u8, n: spec_fn(Ptr) -> u8) -> bool {
    forall|p: Ptr| !is_work(v, p) ==> #[trigger] n(p) == m(p)
}

/// The positions of the tokens are as they were.
pub open spec fn places_kept(v: Vit, m: spec_fn(Ptr) -> u8, n: spec_fn(Ptr) -> u8) -> bool {
    forall|p: Ptr| is_at(p, v.bufs.yx) ==> #[trigger] n(p) == m(p)
}

/// Every working buffer has memory of its own.
pub open spec fn bufs_apart(v: Vit) -> bool {
    let b = v.bufs;
    &&& b.x != b.xn && b.x != b.qkv && b.x != b.attn && b.x != b.proj && b.x != b.mid && b.x != b.yx
        && b.x != b.kvs
    &&& b.xn != b.qkv && b.xn != b.attn && b.xn != b.proj && b.xn != b.mid && b.xn != b.yx && b.xn
        != b.kvs
    &&& b.qkv != b.attn && b.qkv != b.proj && b.qkv != b.mid && b.qkv != b.yx && b.qkv != b.kvs
    &&& b.attn != b.proj && b.attn != b.mid && b.attn != b.yx && b.attn != b.kvs
    &&& b.proj != b.mid && b.proj != b.yx && b.proj != b.kvs
    &&& b.mid != b.yx && b.mid != b.kvs
    &&& b.yx != b.kvs
}

/// A tensor of `rows` rows of `ni` values, outside the working buffers.
pub open spec fn is_tensor(v: Vit, w: Tensor, rows: int, ni: int) -> bool {
    &&& w.rows == rows
    &&& w.ni == ni
    &&& is_foreign(v, w)
}

/// A tensor outside the working buffers.
pub open spec fn is_foreign(v: Vit, w: Tensor) -> bool {
    w.ptr is Dev && !is_work(v, w.ptr)
}

/// The tensors of a block have the shapes of the tower.
pub open spec fn block_fits(v: Vit, b: BlockTensors) -> bool {
    let (n, f) = (v.shape.n_embd as int, v.shape.n_ff as int);
    &&& is_foreign(v, b.ln1_w) && is_foreign(v, b.ln1_b) && is_foreign(v, b.ln2_w) && is_foreign(
        v,
        b.ln2_b,
    )
    &&& is_tensor(v, b.qkv_w, 3 * n, n) && is_foreign(v, b.qkv_b)
    &&& is_tensor(v, b.out_w, n, n) && is_foreign(v, b.out_b)
    &&& is_tensor(v, b.up_w, f, n) && is_foreign(v, b.up_b)
    &&& is_tensor(v, b.down_w, n, f) && is_foreign(v, b.down_b)
}

/// The sizes of the tower for `t` tokens can be told to the kernels.
pub open spec fn tower_fits(v: Vit, t: int) -> bool {
    let (n, f) = (v.shape.n_embd as int, v.shape.n_ff as int);
    &&& v.wf()
    &&& bufs_apart(v)
    &&& 0 <= t <= v.shape.t_max
    &&& t <= i32::MAX
    &&& v.shape.n_head <= i32::MAX
    &&& v.d_head <= i32::MAX
    &&& v.shape.n_head * v.d_head == n
    &&& 1 <= n
    &&& 3 * n <= i32::MAX
    &&& 1 <= f <= i32::MAX
    &&& t * n <= i32::MAX
    &&& f * t <= i32::MAX
}

/// Rows that a launch wrote.
proof fn lemma_rows_written(
    m: spec_fn(Ptr) -> u8,
    after: spec_fn(Ptr) -> u8,
    dst: Ptr,
    t: int,
    len: int,
    g: spec_fn(int) -> Seq<u8>,
    s: int,
)
    requires
        after == written(m, dst, t * len, |j: int| g(j / len)[j % len]),
        dst is Dev,
        dst.offset() + t * len <= usize::MAX,
        0 <= s < t,
        0 <= len,
    ensures
        row_at(after, dst, len, s) == cut(g(s), len),
{
    assert forall|b: int| 0 <= b < len implies row_at(after, dst, len, s)[b] == g(s)[b] by {
        lemma_in_row(s, b, len, t);
        assert(dst.spec_at(s * len).spec_at(b) == dst.spec_at(s * len + b));
        assert(distance(dst, dst.spec_at(s * len + b)) == Some(s * len + b));
    }
    assert(row_at(after, dst, len, s) =~= cut(g(s), len));
}

/// A row outside what changed.
proof fn lemma_row_same(m: spec_fn(Ptr) -> u8, n: spec_fn(Ptr) -> u8, base: u64, p: Ptr, len: int, s: int)
    requires
        only(m, n, base),
        p is Dev,
        !is_at(p, base),
    ensures
        row_at(n, p, len, s) == row_at(m, p, len, s),
        view(n, p) == view(m, p),
        bytes_at(n, p, len) == bytes_at(m, p, len),
{
    assert(row_at(n, p, len, s) =~= row_at(m, p, len, s));
    assert(bytes_at(n, p, len) =~= bytes_at(m, p, len));
    assert(view(n, p) =~= view(m, p));
}

/// A tensor reads the same in memories that agree outside the working buffers.
proof fn lemma_tensor_same(v: Vit, m: spec_fn(Ptr) -> u8, n: spec_fn(Ptr) -> u8, w: Tensor)
    requires
        same_rest(v, m, n),
        is_foreign(v, w),
    ensures
        view(n, w.ptr) == view(m, w.ptr),
{
    assert(view(n, w.ptr) =~= view(m, w.ptr));
}

/// A product of all rows.
proof fn lemma_gemm(
    k: Kernels,
    m0: spec_fn(Ptr) -> u8,
    m: spec_fn(Ptr) -> u8,
    v: Vit,
    x: u64,
    w: Tensor,
    bias: Tensor,
    out: u64,
    t: usize,
    s: int,
)
    requires
        same_rest(v, m0, m),
        is_foreign(v, w),
        is_foreign(v, bias),
        w.rows <= i32::MAX,
        w.ni <= i32::MAX,
        t <= i32::MAX,
        t * (w.rows * 4) <= usize::MAX,
    ensures
        ({
            let after = performed(k, m, vit_gemm(spec_dev(x), w, bias, spec_dev(out), t));
            &&& only(m, after, out)
            &&& 0 <= s < t ==> row_at(after, spec_dev(out), w.rows * 4, s) == product(
                k,
                m0,
                w,
                bias,
                row_at(m, spec_dev(x), w.ni * 4, s),
            )
        }),
{
    lemma_tensor_same(v, m0, m, w);
    lemma_tensor_same(v, m0, m, bias);
    lemma_product_rows(k, m0, m, x, w, bias, out, t, s);
}

/// A norm of all rows, in place.
proof fn lemma_norm(
    k: Kernels,
    m0: spec_fn(Ptr) -> u8,
    m: spec_fn(Ptr) -> u8,
    v: Vit,
    x: u64,
    w: Tensor,
    bias: Tensor,
    t: usize,
    s: int,
)
    requires
        tower_fits(v, t as int),
        same_rest(v, m0, m),
        is_foreign(v, w),
        is_foreign(v, bias),
    ensures
        ({
            let after = performed(k, m, v.norm(spec_dev(x), w, bias, t));
            let len = v.shape.n_embd * 4;
            &&& only(m, after, x)
            &&& 0 <= s < t ==> row_at(after, spec_dev(x), len, s) == layer_normed(
                k,
                m0,
                v,
                w,
                bias,
                row_at(m, spec_dev(x), len, s),
            )
        }),
{
    let after = performed(k, m, v.norm(spec_dev(x), w, bias, t));
    let len = v.shape.n_embd * 4;
    lemma_room(v, t as int);
    lemma_tensor_same(v, m0, m, w);
    lemma_tensor_same(v, m0, m, bias);
    let g = |i: int|
        (k.op)(
            Op::LayerNorm,
            seq![v.shape.eps as int, v.shape.n_embd as int],
            seq![row_at(m, spec_dev(x), len, i)],
            seq![view(m, w.ptr), view(m, bias.ptr)],
        );
    assert(after =~= written(m, spec_dev(x), t * len, |j: int| g(j / len)[j % len]));
    if 0 <= s < t {
        lemma_rows_written(m, after, spec_dev(x), t as int, len, g, s);
    }
}

/// The rows of all buffers can be addressed.
proof fn lemma_room(v: Vit, t: int)
    requires
        tower_fits(v, t),
    ensures
        ({
            let len = v.shape.n_embd * 4;
            &&& 0 <= t * len
            &&& t * len * 4 <= usize::MAX
            &&& t * (3 * len) <= usize::MAX
            &&& t * (v.shape.n_ff * 4) <= usize::MAX
            &&& t * v.shape.n_embd * 4 == t * len
            &&& t * v.shape.n_embd >= 0
            &&& 0 <= v.shape.n_ff * t
            &&& v.shape.n_ff * t * 4 == t * (v.shape.n_ff * 4)
        }),
{
    let (n, f, x) = (v.shape.n_embd as int, v.shape.n_ff as int, v.shape.t_max as int);
    let len = n * 4;
    assert(0 <= t * len && t * len * 4 <= x * n * 16 && t * (3 * len) <= x * n * 16 && t * (f * 4)
        <= x * f * 4 && t * n * 4 == t * len && t * n >= 0 && 0 <= f * t && f * t * 4 == t * (f * 4))
        by (nonlinear_arith)
        requires
            0 <= t <= x,
            0 <= n,
            0 <= f,
            len == n * 4,
    ;
}

/// Rows packed out of longer rows.
proof fn lemma_pack(
    k: Kernels,
    m: spec_fn(Ptr) -> u8,
    v: Vit,
    src: u64,
    i: int,
    parts: int,
    dst: u64,
    at: int,
    t: usize,
    s: int,
)
    requires
        tower_fits(v, t as int),
        0 <= i < parts <= 3,
        0 <= at <= t * (v.shape.n_embd * 4),
    ensures
        ({
            let n = v.shape.n_embd as int;
            let len = n * 4;
            let to = spec_dev(dst).spec_at(at);
            let after = performed(k, m, v.pack(spec_dev(src), i * n, parts * n, to, t));
            &&& only(m, after, dst)
            &&& 0 <= s < t ==> row_at(after, to, len, s) == part_of(
                row_at(m, spec_dev(src), parts * len, s),
                i,
                len,
            )
            &&& forall|p: Ptr|
                !is_inside(to, t * len, p) ==> #[trigger] after(p) == m(p)
        }),
{
    let n = v.shape.n_embd as int;
    let len = n * 4;
    let to = spec_dev(dst).spec_at(at);
    let from = spec_dev(src);
    let after = performed(k, m, v.pack(from, i * n, parts * n, to, t));
    lemma_room(v, t as int);
    lemma_ceil_div(n, 64);
    assert(0 <= i * n <= 3 * n && 0 <= parts * n <= 3 * n && parts * n * 4 == parts * len && i * n * 4
        == i * len && i * len + len <= parts * len) by (nonlinear_arith)
        requires
            0 <= i < parts <= 3,
            1 <= n,
            len == n * 4,
    ;
    let g = |r: int|
        Seq::new(
            len as nat,
            |b: int| m(from.spec_at(i * len).spec_at(r * (parts * len) + b)),
        );
    let want = written(m, to, t * len, |j: int| g(j / len)[j % len]);
    assert forall|p: Ptr| #[trigger] after(p) == want(p) by {
        if is_inside(to, t * len, p) {
            let d = distance(to, p).unwrap();
            vstd::arithmetic::div_mod::lemma_mod_bound(d, len);
        }
    }
    assert(after =~= want);
    if 0 <= s < t {
        lemma_rows_written(m, after, to, t as int, len, g, s);
        let row = row_at(m, from, parts * len, s);
        let whole = parts * len;
        lemma_in_row(s, 0, whole, t as int);
        assert(t * whole <= t * (3 * len)) by (nonlinear_arith)
            requires
                whole == parts * len,
                parts <= 3,
                0 <= len,
                0 <= t,
        ;
        assert forall|b: int| 0 <= b < len implies cut(g(s), len)[b] == part_of(row, i, len)[b] by {
            assert(from.spec_at(i * len).spec_at(s * whole + b) == from.spec_at(
                s * whole,
            ).spec_at(i * len + b));
        }
        assert(cut(g(s), len) =~= part_of(row, i, len));
    }
}

/// Two rows added, value by value, in place.
proof fn lemma_added(
    k: Kernels,
    m: spec_fn(Ptr) -> u8,
    v: Vit,
    y: u64,
    x: u64,
    t: usize,
    s: int,
)
    requires
        tower_fits(v, t as int),
    ensures
        ({
            let len = v.shape.n_embd * 4;
            let after = performed(k, m, vit_add(spec_dev(y), spec_dev(x), t * v.shape.n_embd));
            &&& only(m, after, y)
            &&& 0 <= s < t ==> row_at(after, spec_dev(y), len, s) == added(
                k,
                row_at(m, spec_dev(y), len, s),
                row_at(m, spec_dev(x), len, s),
                len,
            )
        }),
{
    let n = v.shape.n_embd as int;
    let len = n * 4;
    let (py, px) = (spec_dev(y), spec_dev(x));
    let after = performed(k, m, vit_add(py, px, t * n));
    lemma_room(v, t as int);
    lemma_ceil_div(t * n, 64);
    if 0 <= s < t {
        let (a, b) = (row_at(m, py, len, s), row_at(m, px, len, s));
        assert forall|i: int| 0 <= i < len implies row_at(after, py, len, s)[i] == added(k, a, b, len)[i] by {
            lemma_in_row(s, i, len, t as int);
            let d = s * len + i;
            assert(py.spec_at(s * len).spec_at(i) == py.spec_at(d));
            assert(distance(py, py.spec_at(d)) == Some(d));
            assert(s * len == 4 * (s * n)) by (nonlinear_arith)
                requires
                    len == n * 4,
            ;
            assert(d / 4 == s * n + i / 4 && d % 4 == i % 4);
            lemma_value(m, py, len, t as int, s, i / 4);
            lemma_value(m, px, len, t as int, s, i / 4);
            assert((s * n + i / 4) * 4 == s * len + i / 4 * 4);
        }
        assert(row_at(after, py, len, s) =~= added(k, a, b, len));
    }
}

/// A value of a row.
proof fn lemma_value(m: spec_fn(Ptr) -> u8, p: Ptr, len: int, t: int, s: int, i: int)
    requires
        p is Dev,
        p.offset() + t * len <= usize::MAX,
        0 <= s < t,
        0 <= i,
        i * 4 + 4 <= len,
    ensures
        bytes_at(m, p.spec_at(s * len + i * 4), 4) == value_of(row_at(m, p, len, s), i),
{
    lemma_in_row(s, i * 4, len, t);
    let have = bytes_at(m, p.spec_at(s * len + i * 4), 4);
    let want = value_of(row_at(m, p, len, s), i);
    assert forall|b: int| 0 <= b < 4 implies have[b] == want[b] by {
        assert(p.spec_at(s * len + i * 4).spec_at(b) == p.spec_at(s * len).spec_at(i * 4 + b));
    }
    assert(have =~= want);
}

/// The activation of all values, in place.
proof fn lemma_activated(k: Kernels, m: spec_fn(Ptr) -> u8, x: u64, f: int, t: int, s: int)
    requires
        1 <= f,
        0 <= t,
        0 <= f * t <= i32::MAX,
        t * (f * 4) <= usize::MAX,
    ensures
        ({
            let len = f * 4;
            let after = performed(k, m, vit_gelu(spec_dev(x), f * t));
            &&& only(m, after, x)
            &&& 0 <= s < t ==> row_at(after, spec_dev(x), len, s) == activated(
                k,
                row_at(m, spec_dev(x), len, s),
                len,
            )
        }),
{
    let len = f * 4;
    let p = spec_dev(x);
    let after = performed(k, m, vit_gelu(p, f * t));
    lemma_ceil_div(f * t, 64);
    if 0 <= s < t {
        let a = row_at(m, p, len, s);
        assert forall|i: int| 0 <= i < len implies row_at(after, p, len, s)[i] == activated(k, a, len)[i] by {
            lemma_in_row(s, i, len, t);
            let d = s * len + i;
            assert(f * t * 4 == t * len) by (nonlinear_arith)
                requires
                    len == f * 4,
            ;
            assert(p.spec_at(s * len).spec_at(i) == p.spec_at(d));
            assert(distance(p, p.spec_at(d)) == Some(d));
            assert(s * len == 4 * (s * f)) by (nonlinear_arith)
                requires
                    len == f * 4,
            ;
            assert(d / 4 == s * f + i / 4 && d % 4 == i % 4);
            lemma_value(m, p, len, t, s, i / 4);
            assert((s * f + i / 4) * 4 == s * len + i / 4 * 4);
        }
        assert(row_at(after, p, len, s) =~= activated(k, a, len));
    }
}

/// Part `i` of every row rotated, the rest left alone.
proof fn lemma_rope(k: Kernels, m: spec_fn(Ptr) -> u8, v: Vit, i: int, t: usize, s: int)
    requires
        tower_fits(v, t as int),
        0 <= i < 2,
    ensures
        ({
            let n = v.shape.n_embd as int;
            let len = n * 4;
            let qkv = spec_dev(v.bufs.qkv);
            let after = performed(k, m, v.rope(i * n, t));
            let (was, is) = (row_at(m, qkv, 3 * len, s), row_at(after, qkv, 3 * len, s));
            &&& only(m, after, v.bufs.qkv)
            &&& 0 <= s < t ==> part_of(is, i, len) == rotated(
                k,
                v,
                part_of(was, i, len),
                row_at(m, spec_dev(v.bufs.yx), 8, s),
            )
            &&& 0 <= s < t ==> forall|j: int|
                0 <= j < 3 && j != i ==> #[trigger] part_of(is, j, len) == part_of(was, j, len)
        }),
{
    let n = v.shape.n_embd as int;
    let (len, st) = (n * 4, 3 * (n * 4));
    let qkv = spec_dev(v.bufs.qkv);
    let q = qkv.spec_at(i * len);
    let after = performed(k, m, v.rope(i * n, t));
    lemma_room(v, t as int);
    assert(i * n * 4 == i * len && 0 <= i * len <= len && v.shape.n_head * v.d_head * 4 == len)
        by (nonlinear_arith)
        requires
            0 <= i < 2,
            len == n * 4,
            1 <= n,
            v.shape.n_head * v.d_head == n,
    ;
    if 0 <= s < t {
        let (was, is) = (row_at(m, qkv, st, s), row_at(after, qkv, st, s));
        let yx = row_at(m, spec_dev(v.bufs.yx), 8, s);
        let want = rotated(k, v, part_of(was, i, len), yx);
        lemma_in_row(s, 0, st, t as int);
        assert(bytes_at(m, q.spec_at(s * st), len) =~= part_of(was, i, len)) by {
            assert forall|b: int| 0 <= b < len implies bytes_at(m, q.spec_at(s * st), len)[b]
                == part_of(was, i, len)[b] by {
                assert(q.spec_at(s * st).spec_at(b) == qkv.spec_at(s * st).spec_at(i * len + b));
            }
        }
        assert forall|b: int| 0 <= b < len implies part_of(is, i, len)[b] == want[b] by {
            lemma_in_row(s, b, st, t as int);
            let p = qkv.spec_at(s * st).spec_at(i * len + b);
            assert(p == q.spec_at(s * st + b));
            assert(distance(q, p) == Some(s * st + b));
        }
        assert(part_of(is, i, len) =~= want);
        assert forall|j: int| 0 <= j < 3 && j != i implies #[trigger] part_of(is, j, len) == part_of(
            was,
            j,
            len,
        ) by {
            assert(0 <= j * len && j * len + len <= st) by (nonlinear_arith)
                requires
                    0 <= j < 3,
                    st == 3 * len,
                    1 <= len,
            ;
            assert forall|b: int| 0 <= b < len implies part_of(is, j, len)[b] == part_of(was, j, len)[b] by {
                let p = qkv.spec_at(s * st).spec_at(j * len + b);
                let d = s * st + (j - i) * len + b;
                assert((j - i) * len == j * len - i * len) by (nonlinear_arith);
                assert(distance(q, p) == Some(d));
                if j > i {
                    assert((j - i) * len >= len) by (nonlinear_arith)
                        requires
                            j - i >= 1,
                            len >= 1,
                    ;
                    lemma_in_row(s, (j - i) * len + b, st, t as int);
                } else {
                    assert(j == 0 && i == 1);
                    assert((j - i) * len == -len) by (nonlinear_arith)
                        requires
                            j - i == -1,
                    ;
                    if s > 0 {
                        lemma_in_row(s - 1, st - len + b, st, t as int);
                        assert((s - 1) * st == s * st - st) by (nonlinear_arith);
                    } else {
                        assert(0 * st == 0);
                        assert(d < 0);
                    }
                }
            }
            assert(part_of(is, j, len) =~= part_of(was, j, len));
        }
    }
}

/// The memory after the first `n` commands of a program without attempts.
pub open spec fn after_first(k: Kernels, m: spec_fn(Ptr) -> u8, c: Seq<Cmd>, n: int) -> spec_fn(Ptr) -> u8
    decreases n,
{
    if n <= 0 {
        m
    } else {
        performed(k, after_first(k, m, c, n - 1), c[n - 1])
    }
}

/// A program without attempts runs command by command.
proof fn lemma_after_all(k: Kernels, m: spec_fn(Ptr) -> u8, c: Seq<Cmd>, ok: spec_fn(int) -> bool, at: int)
    requires
        forall|i: int| 0 <= i < c.len() ==> !(#[trigger] c[i] is Try),
    ensures
        jumps_inside(c),
        ran(k, m, c, ok, at) == after_first(k, m, c, c.len() as int),
    decreases c.len(),
{
    if c.len() > 0 {
        let d = c.drop_last();
        assert forall|i: int| 0 <= i < d.len() implies !(#[trigger] d[i] is Try) by {
            assert(d[i] == c[i]);
        }
        lemma_after_all(k, m, d, ok, at);
        let l = seq![c.last()];
        assert(c =~= d + l);
        lemma_ran_behind(k, m, d, l, ok, at);
        assert(!(c[c.len() - 1] is Try));
        lemma_one_command(k, ran(k, m, d, ok, at), l, ok, at + d.len());
        lemma_after_prefix(k, m, c, d, d.len() as int);
    }
}

/// Only the first `n` commands matter for what they leave.
proof fn lemma_after_prefix(k: Kernels, m: spec_fn(Ptr) -> u8, c: Seq<Cmd>, d: Seq<Cmd>, n: int)
    requires
        0 <= n <= d.len() <= c.len(),
        forall|i: int| 0 <= i < d.len() ==> #[trigger] d[i] == c[i],
    ensures
        after_first(k, m, d, n) == after_first(k, m, c, n),
    decreases n,
{
    if n > 0 {
        lemma_after_prefix(k, m, c, d, n - 1);
    }
}

/// The rows of the tokens.
pub open spec fn token_rows(v: Vit, m: spec_fn(Ptr) -> u8) -> spec_fn(int) -> Seq<u8> {
    |s: int| row_at(m, spec_dev(v.bufs.x), v.shape.n_embd * 4, s)
}

/// The positions of the tokens.
pub open spec fn token_places(v: Vit, m: spec_fn(Ptr) -> u8) -> spec_fn(int) -> Seq<u8> {
    |s: int| row_at(m, spec_dev(v.bufs.yx), 8, s)
}

/// The tensors of a block in the order of its launches.
pub open spec fn are_tensors(ts: Seq<Tensor>, b: BlockTensors) -> bool {
    &&& ts.len() == 12
    &&& ts[0] == b.ln1_w && ts[1] == b.ln1_b && ts[2] == b.qkv_w && ts[3] == b.qkv_b
    &&& ts[4] == b.out_w && ts[5] == b.out_b && ts[6] == b.ln2_w && ts[7] == b.ln2_b
    &&& ts[8] == b.up_w && ts[9] == b.up_b && ts[10] == b.down_w && ts[11] == b.down_b
}

/// Up to the joint projection.
proof fn lemma_first_part(
    k: Kernels,
    m0: spec_fn(Ptr) -> u8,
    m: spec_fn(Ptr) -> u8,
    v: Vit,
    ts: Seq<Tensor>,
    b: BlockTensors,
    t: usize,
    scale: u32,
    s: int,
)
    requires
        tower_fits(v, t as int),
        block_fits(v, b),
        are_tensors(ts, b),
        same_rest(v, m0, m),
    ensures
        ({
            let c = v.block_cmds(ts, t, scale);
            let n = after_first(k, m, c, 3);
            let len = v.shape.n_embd * 4;
            &&& same_rest(v, m0, n)
            &&& only_two(m, n, v.bufs.xn, v.bufs.qkv)
            &&& 0 <= s < t ==> row_at(n, spec_dev(v.bufs.qkv), 3 * len, s) == projected(
                k,
                m0,
                v,
                b,
                token_rows(v, m)(s),
            )
        }),
{
    reveal_with_fuel(after_first, 4);
    let c = v.block_cmds(ts, t, scale);
    let n = v.shape.n_embd as int;
    let len = n * 4;
    lemma_room(v, t as int);
    let m1 = after_first(k, m, c, 1);
    let m2 = after_first(k, m, c, 2);
    assert(0 * n == 0 && 1 * n == n && 1 * len == len && 0 * len == 0);
    let xn = spec_dev(v.bufs.xn);
    assert(xn.spec_at(0) == xn);
    lemma_pack(k, m, v, v.bufs.x, 0, 1, v.bufs.xn, 0, t, s);
    lemma_norm(k, m0, m1, v, v.bufs.xn, ts[0], ts[1], t, s);
    lemma_gemm(k, m0, m2, v, v.bufs.xn, ts[2], ts[3], v.bufs.qkv, t, s);
    if 0 <= s < t {
        let row = row_at(m, spec_dev(v.bufs.x), len, s);
        assert(part_of(row, 0, len) =~= row);
    }
}

/// The two memories differ at most in the two that begin at `a` and at `b`.
pub open spec fn only_two(m: spec_fn(Ptr) -> u8, n: spec_fn(Ptr) -> u8, a: u64, b: u64) -> bool {
    forall|p: Ptr| !is_at(p, a) && !is_at(p, b) ==> #[trigger] n(p) == m(p)
}

/// Queries, keys and values of all tokens where the attention reads them.
#[verifier::rlimit(60)]
proof fn lemma_second_part(
    k: Kernels,
    m: spec_fn(Ptr) -> u8,
    v: Vit,
    ts: Seq<Tensor>,
    t: usize,
    scale: u32,
    s: int,
)
    requires
        tower_fits(v, t as int),
        0 <= s < t,
    ensures
        ({
            let c = v.block_cmds(ts, t, scale);
            let a = after_first(k, m, c, 3);
            let n = after_first(k, m, c, 8);
            let len = v.shape.n_embd * 4;
            let row = row_at(a, spec_dev(v.bufs.qkv), 3 * len, s);
            let yx = row_at(a, spec_dev(v.bufs.yx), 8, s);
            let ks = spec_dev(v.bufs.kvs);
            &&& row_at(n, spec_dev(v.bufs.xn), len, s) == rotated(k, v, part_of(row, 0, len), yx)
            &&& row_at(n, ks, len, s) == rotated(k, v, part_of(row, 1, len), yx)
            &&& row_at(n, ks.spec_at(t * len), len, s) == part_of(row, 2, len)
            &&& forall|p: Ptr|
                !is_at(p, v.bufs.qkv) && !is_at(p, v.bufs.xn) && !is_at(p, v.bufs.kvs)
                    ==> #[trigger] n(p) == a(p)
        }),
{
    let c = v.block_cmds(ts, t, scale);
    let n = v.shape.n_embd as int;
    let len = n * 4;
    lemma_room(v, t as int);
    let (a3, a4, a5, a6, a7, a8) = (
        after_first(k, m, c, 3),
        after_first(k, m, c, 4),
        after_first(k, m, c, 5),
        after_first(k, m, c, 6),
        after_first(k, m, c, 7),
        after_first(k, m, c, 8),
    );
    assert(a4 == performed(k, a3, c[3]));
    assert(a5 == performed(k, a4, c[4]));
    assert(a6 == performed(k, a5, c[5]));
    assert(a7 == performed(k, a6, c[6]));
    assert(a8 == performed(k, a7, c[7]));
    assert(0 * n == 0 && 1 * n == n && 2 * n == n * 2 && 0 * len == 0);
    let (qkv, yx, xn, ks) = (
        spec_dev(v.bufs.qkv),
        spec_dev(v.bufs.yx),
        spec_dev(v.bufs.xn),
        spec_dev(v.bufs.kvs),
    );
    let vs = ks.spec_at(t * len);
    assert(xn.spec_at(0) == xn && ks.spec_at(0) == ks);
    lemma_rope(k, a3, v, 0, t, s);
    lemma_rope(k, a4, v, 1, t, s);
    lemma_row_same(a3, a4, v.bufs.qkv, yx, 8, s);
    lemma_pack(k, a5, v, v.bufs.qkv, 0, 3, v.bufs.xn, 0, t, s);
    lemma_pack(k, a6, v, v.bufs.qkv, 1, 3, v.bufs.kvs, 0, t, s);
    lemma_pack(k, a7, v, v.bufs.qkv, 2, 3, v.bufs.kvs, t * len, t, s);
    let row = row_at(a3, qkv, 3 * len, s);
    let row4 = row_at(a4, qkv, 3 * len, s);
    let row5 = row_at(a5, qkv, 3 * len, s);
    let place = row_at(a3, yx, 8, s);
    assert(part_of(row5, 0, len) == part_of(row4, 0, len));
    assert(part_of(row5, 0, len) == rotated(k, v, part_of(row, 0, len), place));
    assert(part_of(row4, 1, len) == part_of(row, 1, len));
    assert(part_of(row5, 1, len) == rotated(k, v, part_of(row, 1, len), place));
    assert(part_of(row5, 2, len) == part_of(row4, 2, len));
    assert(part_of(row4, 2, len) == part_of(row, 2, len));
    lemma_row_same(a5, a6, v.bufs.xn, qkv, 3 * len, s);
    lemma_row_same(a6, a7, v.bufs.kvs, qkv, 3 * len, s);
    lemma_row_same(a6, a7, v.bufs.kvs, xn, len, s);
    lemma_row_same(a7, a8, v.bufs.kvs, xn, len, s);
    assert(row_at(a8, ks, len, s) =~= row_at(a7, ks, len, s)) by {
        assert forall|b: int| 0 <= b < len implies row_at(a8, ks, len, s)[b] == row_at(a7, ks, len, s)[b] by {
            lemma_in_row(s, b, len, t as int);
            let p = ks.spec_at(s * len).spec_at(b);
            assert(distance(vs, p) == Some(s * len + b - t * len));
            assert(!is_inside(vs, t * len, p));
        }
    }
}

/// Rows that are in their places, joined.
proof fn lemma_joined(m: spec_fn(Ptr) -> u8, p: Ptr, t: int, len: int, rows: spec_fn(int) -> Seq<u8>)
    requires
        p is Dev,
        p.offset() + t * len <= usize::MAX,
        0 <= t,
        1 <= len,
        forall|s: int| 0 <= s < t ==> #[trigger] row_at(m, p, len, s) == rows(s),
    ensures
        bytes_at(m, p, t * len) == joined(rows, t, len),
{
    assert(0 <= t * len) by (nonlinear_arith)
        requires
            0 <= t,
            1 <= len,
    ;
    assert forall|j: int| 0 <= j < t * len implies bytes_at(m, p, t * len)[j] == joined(rows, t, len)[j] by {
        let (s, b) = (j / len, j % len);
        vstd::arithmetic::div_mod::lemma_fundamental_div_mod(j, len);
        vstd::arithmetic::div_mod::lemma_mod_bound(j, len);
        vstd::arithmetic::div_mod::lemma_div_pos_is_pos(j, len);
        assert(s < t) by (nonlinear_arith)
            requires
                j == len * s + b,
                0 <= b,
                j < t * len,
                1 <= len,
        ;
        assert(s * len == len * s) by (nonlinear_arith);
        assert(row_at(m, p, len, s) == rows(s));
        assert(p.spec_at(s * len).spec_at(b) == p.spec_at(j));
        assert(row_at(m, p, len, s)[b] == m(p.spec_at(j)));
    }
    assert(bytes_at(m, p, t * len) =~= joined(rows, t, len));
}

/// A block makes of the rows of the tokens what it is to make of them, and leaves the
/// tensors and the positions.
#[verifier::rlimit(60)]
proof fn lemma_block(
    k: Kernels,
    m0: spec_fn(Ptr) -> u8,
    m: spec_fn(Ptr) -> u8,
    v: Vit,
    ts: Seq<Tensor>,
    b: BlockTensors,
    t: usize,
    scale: u32,
    s: int,
)
    requires
        tower_fits(v, t as int),
        block_fits(v, b),
        are_tensors(ts, b),
        same_rest(v, m0, m),
    ensures
        ({
            let c = v.block_cmds(ts, t, scale);
            let n = after_first(k, m, c, 17);
            &&& same_rest(v, m0, n)
            &&& places_kept(v, m, n)
            &&& 0 <= s < t ==> token_rows(v, n)(s) == block_row(
                k,
                m0,
                v,
                b,
                token_rows(v, m),
                token_places(v, m),
                t as int,
                scale,
                s,
            )
        }),
{
    let c = v.block_cmds(ts, t, scale);
    let n = v.shape.n_embd as int;
    let len = n * 4;
    lemma_room(v, t as int);
    let x = spec_dev(v.bufs.x);
    let m3 = after_first(k, m, c, 3);
    let m8 = after_first(k, m, c, 8);
    let m9 = after_first(k, m, c, 9);
    let m10 = after_first(k, m, c, 10);
    let m11 = after_first(k, m, c, 11);
    assert(m9 == performed(k, m8, c[8]));
    assert(m10 == performed(k, m9, c[9]));
    assert(m11 == performed(k, m10, c[10]));
    lemma_first_part(k, m0, m, v, ts, b, t, scale, s);
    let (rows, places) = (token_rows(v, m), token_places(v, m));
    let (q, ks) = (spec_dev(v.bufs.xn), spec_dev(v.bufs.kvs));
    let vs = ks.spec_at(t * len);
    let keys = |i: int|
        rotated(k, v, part_of(projected(k, m0, v, b, rows(i)), 1, len), places(i));
    let values = |i: int| part_of(projected(k, m0, v, b, rows(i)), 2, len);
    assert forall|i: int| 0 <= i < t implies #[trigger] row_at(m8, ks, len, i) == keys(i) && row_at(
        m8,
        vs,
        len,
        i,
    ) == values(i) && row_at(m8, q, len, i) == rotated(
        k,
        v,
        part_of(projected(k, m0, v, b, rows(i)), 0, len),
        places(i),
    ) by {
        lemma_first_part(k, m0, m, v, ts, b, t, scale, i);
        lemma_second_part(k, m, v, ts, t, scale, i);
        assert(row_at(m3, spec_dev(v.bufs.yx), 8, i) =~= places(i));
    }
    assert forall|i: int| 0 <= i < t implies #[trigger] row_at(m8, vs, len, i) == values(i) by {
        assert(row_at(m8, ks, len, i) == keys(i));
    }
    if t > 0 {
        lemma_second_part(k, m, v, ts, t, scale, 0);
    } else {
        lemma_no_tokens(k, m, v, ts, t, scale);
    }
    assert(same_rest(v, m0, m8));
    lemma_joined(m8, ks, t as int, len, keys);
    lemma_joined(m8, vs, t as int, len, values);
    let g = |i: int|
        (k.op)(
            Op::VitAttention,
            seq![scale as int, t as int, v.shape.n_head as int, v.d_head as int],
            seq![row_at(m8, q, len, i), bytes_at(m8, ks, t * len), bytes_at(m8, vs, t * len)],
            none(),
        );
    assert(v.shape.n_head * v.d_head * 4 == len);
    assert(m9 =~= written(m8, spec_dev(v.bufs.attn), t * len, |j: int| g(j / len)[j % len]));
    lemma_gemm(k, m0, m9, v, v.bufs.attn, ts[4], ts[5], v.bufs.proj, t, s);
    lemma_added(k, m10, v, v.bufs.x, v.bufs.proj, t, s);
    let want = mixed_row(k, m0, v, b, rows, places, t as int, scale, s);
    if 0 <= s < t {
        lemma_rows_written(m8, m9, spec_dev(v.bufs.attn), t as int, len, g, s);
        assert(row_at(m8, ks, len, s) == keys(s));
        assert(row_at(m10, x, len, s) =~= rows(s));
        assert(row_at(m11, x, len, s) == want);
    }
    assert(same_rest(v, m0, m11));
    lemma_last_part(k, m0, m, v, ts, b, t, scale, s);
}

/// Without tokens nothing but working buffers changes either.
proof fn lemma_no_tokens(k: Kernels, m: spec_fn(Ptr) -> u8, v: Vit, ts: Seq<Tensor>, t: usize, scale: u32)
    requires
        tower_fits(v, t as int),
    ensures
        ({
            let c = v.block_cmds(ts, t, scale);
            let a = after_first(k, m, c, 3);
            let n = after_first(k, m, c, 8);
            forall|p: Ptr|
                !is_at(p, v.bufs.qkv) && !is_at(p, v.bufs.xn) && !is_at(p, v.bufs.kvs)
                    ==> #[trigger] n(p) == a(p)
        }),
{
    let c = v.block_cmds(ts, t, scale);
    let n = v.shape.n_embd as int;
    let len = n * 4;
    lemma_room(v, t as int);
    let (a3, a4, a5, a6, a7, a8) = (
        after_first(k, m, c, 3),
        after_first(k, m, c, 4),
        after_first(k, m, c, 5),
        after_first(k, m, c, 6),
        after_first(k, m, c, 7),
        after_first(k, m, c, 8),
    );
    assert(a4 == performed(k, a3, c[3]));
    assert(a5 == performed(k, a4, c[4]));
    assert(a6 == performed(k, a5, c[5]));
    assert(a7 == performed(k, a6, c[6]));
    assert(a8 == performed(k, a7, c[7]));
    assert(0 * n == 0 && 1 * n == n && 2 * n == n * 2 && 0 * len == 0);
    let (xn, ks) = (spec_dev(v.bufs.xn), spec_dev(v.bufs.kvs));
    assert(xn.spec_at(0) == xn && ks.spec_at(0) == ks);
    lemma_rope(k, a3, v, 0, t, 0);
    lemma_rope(k, a4, v, 1, t, 0);
    lemma_pack(k, a5, v, v.bufs.qkv, 0, 3, v.bufs.xn, 0, t, 0);
    lemma_pack(k, a6, v, v.bufs.qkv, 1, 3, v.bufs.kvs, 0, t, 0);
    lemma_pack(k, a7, v, v.bufs.qkv, 2, 3, v.bufs.kvs, t * len, t, 0);
}

/// The feed-forward part.
proof fn lemma_last_part(
    k: Kernels,
    m0: spec_fn(Ptr) -> u8,
    m: spec_fn(Ptr) -> u8,
    v: Vit,
    ts: Seq<Tensor>,
    b: BlockTensors,
    t: usize,
    scale: u32,
    s: int,
)
    requires
        tower_fits(v, t as int),
        block_fits(v, b),
        are_tensors(ts, b),
        same_rest(v, m0, after_first(k, m, v.block_cmds(ts, t, scale), 11)),
    ensures
        ({
            let c = v.block_cmds(ts, t, scale);
            let a = after_first(k, m, c, 11);
            let n = after_first(k, m, c, 17);
            &&& same_rest(v, m0, n)
            &&& places_kept(v, a, n)
            &&& 0 <= s < t ==> token_rows(v, n)(s) == fed_row(k, m0, v, b, token_rows(v, a)(s))
        }),
{
    let c = v.block_cmds(ts, t, scale);
    let n = v.shape.n_embd as int;
    let len = n * 4;
    lemma_room(v, t as int);
    let (a11, a12, a13, a14, a15, a16, a17) = (
        after_first(k, m, c, 11),
        after_first(k, m, c, 12),
        after_first(k, m, c, 13),
        after_first(k, m, c, 14),
        after_first(k, m, c, 15),
        after_first(k, m, c, 16),
        after_first(k, m, c, 17),
    );
    assert(a12 == performed(k, a11, c[11]));
    assert(a13 == performed(k, a12, c[12]));
    assert(a14 == performed(k, a13, c[13]));
    assert(a15 == performed(k, a14, c[14]));
    assert(a16 == performed(k, a15, c[15]));
    assert(a17 == performed(k, a16, c[16]));
    assert(0 * n == 0 && 1 * n == n && 1 * len == len && 0 * len == 0);
    let (x, xn) = (spec_dev(v.bufs.x), spec_dev(v.bufs.xn));
    assert(xn.spec_at(0) == xn);
    lemma_pack(k, a11, v, v.bufs.x, 0, 1, v.bufs.xn, 0, t, s);
    lemma_norm(k, m0, a12, v, v.bufs.xn, ts[6], ts[7], t, s);
    lemma_gemm(k, m0, a13, v, v.bufs.xn, ts[8], ts[9], v.bufs.mid, t, s);
    lemma_activated(k, a14, v.bufs.mid, v.shape.n_ff as int, t as int, s);
    lemma_gemm(k, m0, a15, v, v.bufs.mid, ts[10], ts[11], v.bufs.proj, t, s);
    lemma_added(k, a16, v, v.bufs.x, v.bufs.proj, t, s);
    if 0 <= s < t {
        let row = row_at(a11, x, len, s);
        assert(part_of(row, 0, len) =~= row);
        lemma_row_same(a11, a12, v.bufs.xn, x, len, s);
        lemma_row_same(a12, a13, v.bufs.xn, x, len, s);
        lemma_row_same(a13, a14, v.bufs.mid, x, len, s);
        lemma_row_same(a14, a15, v.bufs.mid, x, len, s);
        lemma_row_same(a15, a16, v.bufs.proj, x, len, s);
    }
}

/// The rows of the tokens behind the first `il` blocks: at first those of the host.
pub open spec fn tower_rows(
    k: Kernels,
    m: spec_fn(Ptr) -> u8,
    v: Vit,
    t: int,
    scale: u32,
    il: int,
) -> spec_fn(int) -> Seq<u8>
    decreases il,
{
    if il <= 0 {
        |s: int| host_row(k, v.shape.n_embd as int, s)
    } else {
        let rows = tower_rows(k, m, v, t, scale, il - 1);
        |s: int|
            block_row(
                k,
                m,
                v,
                tensors_of(v, (il - 1) as usize),
                rows,
                host_places(k),
                t,
                scale,
                s,
            )
    }
}

/// The positions of the tokens, as the host has them.
pub open spec fn host_places(k: Kernels) -> spec_fn(int) -> Seq<u8> {
    |s: int| Seq::new(8, |b: int| (k.host)(Host::Mask, s * 8 + b))
}

/// Tensors are looked up one by one.
proof fn lemma_looked_up(v: Vit, ids: Seq<VitWeight>, ts: Seq<Tensor>)
    requires
        v.lookup_all(ids) == Ok::<Seq<Tensor>, AccError>(ts),
    ensures
        ts.len() == ids.len(),
        forall|i: int|
            0 <= i < ids.len() ==> v.lookup(#[trigger] ids[i]) == Ok::<Tensor, AccError>(ts[i]),
    decreases ids.len(),
{
    if ids.len() > 0 {
        let init = v.lookup_all(ids.drop_last());
        assert(init is Ok);
        lemma_looked_up(v, ids.drop_last(), init->Ok_0);
        assert forall|i: int| 0 <= i < ids.len() implies v.lookup(#[trigger] ids[i]) == Ok::<
            Tensor,
            AccError,
        >(ts[i]) by {
            if i < ids.len() - 1 {
                assert(ids.drop_last()[i] == ids[i]);
            }
        }
    }
}

/// A block looks only at the rows and positions of its tokens.
proof fn lemma_block_row_same(
    k: Kernels,
    m: spec_fn(Ptr) -> u8,
    v: Vit,
    b: BlockTensors,
    x: spec_fn(int) -> Seq<u8>,
    y: spec_fn(int) -> Seq<u8>,
    yx: spec_fn(int) -> Seq<u8>,
    yy: spec_fn(int) -> Seq<u8>,
    t: int,
    scale: u32,
    s: int,
)
    requires
        0 <= s < t,
        1 <= v.shape.n_embd,
        forall|i: int| 0 <= i < t ==> #[trigger] x(i) == y(i),
        forall|i: int| 0 <= i < t ==> #[trigger] yx(i) == yy(i),
    ensures
        block_row(k, m, v, b, x, yx, t, scale, s) == block_row(k, m, v, b, y, yy, t, scale, s),
{
    let len = v.shape.n_embd * 4;
    let keys = |i: int| rotated(k, v, part_of(projected(k, m, v, b, x(i)), 1, len), yx(i));
    let keys2 = |i: int| rotated(k, v, part_of(projected(k, m, v, b, y(i)), 1, len), yy(i));
    let values = |i: int| part_of(projected(k, m, v, b, x(i)), 2, len);
    let values2 = |i: int| part_of(projected(k, m, v, b, y(i)), 2, len);
    assert forall|j: int| 0 <= j < t * len implies 0 <= #[trigger] (j / len) < t by {
        vstd::arithmetic::div_mod::lemma_fundamental_div_mod(j, len);
        vstd::arithmetic::div_mod::lemma_mod_bound(j, len);
        vstd::arithmetic::div_mod::lemma_div_pos_is_pos(j, len);
        let q = j / len;
        assert(q < t) by (nonlinear_arith)
            requires
                len * q <= j,
                j < t * len,
                1 <= len,
        ;
    }
    assert(joined(keys, t, len) =~= joined(keys2, t, len)) by {
        assert forall|j: int| 0 <= j < t * len implies joined(keys, t, len)[j] == joined(keys2, t, len)[j] by {
            assert(x(j / len) == y(j / len));
            assert(yx(j / len) == yy(j / len));
        }
    }
    assert(joined(values, t, len) =~= joined(values2, t, len)) by {
        assert forall|j: int| 0 <= j < t * len implies joined(values, t, len)[j] == joined(values2, t, len)[j] by {
            assert(x(j / len) == y(j / len));
        }
    }
    assert(x(s) == y(s) && yx(s) == yy(s));
}

/// The tensors of all blocks have the shapes of the tower.
pub open spec fn tensors_fit(v: Vit) -> bool {
    forall|il: int| 0 <= il < v.shape.n_blk ==> #[trigger] block_fits(v, tensors_of(v, il as usize))
}

/// The first `n` blocks make of the rows what they are to make of them.
proof fn lemma_blocks(
    k: Kernels,
    m0: spec_fn(Ptr) -> u8,
    m: spec_fn(Ptr) -> u8,
    v: Vit,
    t: usize,
    scale: u32,
    n: int,
    p: Seq<Cmd>,
    ok: spec_fn(int) -> bool,
    at: int,
)
    requires
        tower_fits(v, t as int),
        tensors_fit(v),
        0 <= n <= v.shape.n_blk,
        v.blocks_program(t, scale, n) == Ok::<Seq<Cmd>, AccError>(p),
        same_rest(v, m0, m),
        forall|s: int|
            0 <= s < t ==> #[trigger] token_rows(v, m)(s) == host_row(k, v.shape.n_embd as int, s),
        forall|s: int| 0 <= s < t ==> #[trigger] token_places(v, m)(s) == host_places(k)(s),
    ensures
        ({
            let after = ran(k, m, p, ok, at);
            &&& jumps_inside(p)
            &&& same_rest(v, m0, after)
            &&& places_kept(v, m, after)
            &&& forall|s: int|
                0 <= s < t ==> #[trigger] token_rows(v, after)(s) == tower_rows(
                    k,
                    m0,
                    v,
                    t as int,
                    scale,
                    n,
                )(s)
        }),
    decreases n,
{
    if n > 0 {
        let p0 = v.blocks_program(t, scale, n - 1)->Ok_0;
        let il = (n - 1) as usize;
        let ts = v.lookup_all(block_ids(il))->Ok_0;
        let c = v.block_cmds(ts, t, scale);
        assert(p == p0 + c);
        lemma_blocks(k, m0, m, v, t, scale, n - 1, p0, ok, at);
        lemma_looked_up(v, block_ids(il), ts);
        let b = tensors_of(v, il);
        let ids = block_ids(il);
        assert(v.lookup(ids[0]) is Ok && v.lookup(ids[1]) is Ok && v.lookup(ids[2]) is Ok
            && v.lookup(ids[3]) is Ok && v.lookup(ids[4]) is Ok && v.lookup(ids[5]) is Ok
            && v.lookup(ids[6]) is Ok && v.lookup(ids[7]) is Ok && v.lookup(ids[8]) is Ok
            && v.lookup(ids[9]) is Ok && v.lookup(ids[10]) is Ok && v.lookup(ids[11]) is Ok);
        assert(are_tensors(ts, b));
        assert(block_fits(v, tensors_of(v, (n - 1) as usize)));
        let mid = ran(k, m, p0, ok, at);
        lemma_after_all(k, mid, c, ok, at + p0.len());
        lemma_ran_behind(k, m, p0, c, ok, at);
        crate::product_runs::lemma_jumps_of_both(p0, c);
        let after = ran(k, m, p, ok, at);
        lemma_block(k, m0, mid, v, ts, b, t, scale, 0);
        assert forall|s: int| 0 <= s < t implies #[trigger] token_places(v, mid)(s) == host_places(k)(s) by {
            assert(token_places(v, mid)(s) =~= token_places(v, m)(s));
        }
        assert forall|s: int| 0 <= s < t implies #[trigger] token_rows(v, after)(s) == tower_rows(
            k,
            m0,
            v,
            t as int,
            scale,
            n,
        )(s) by {
            lemma_block(k, m0, mid, v, ts, b, t, scale, s);
            lemma_block_row_same(
                k,
                m0,
                v,
                b,
                token_rows(v, mid),
                tower_rows(k, m0, v, t as int, scale, n - 1),
                token_places(v, mid),
                host_places(k),
                t as int,
                scale,
                s,
            );
        }
    } else {
        assert(p =~= Seq::<Cmd>::empty());
    }
}

/// Byte `b` of token `s` of what comes back is that of the token's row behind all blocks,
/// normed.
pub open spec fn token_brought(
    k: Kernels,
    m: spec_fn(Ptr) -> u8,
    c: Seq<Cmd>,
    ok: spec_fn(int) -> bool,
    v: Vit,
    t: int,
    scale: u32,
    s: int,
    b: int,
) -> bool {
    let y = fetched(k, m, c, ok);
    let len = v.shape.n_embd * 4;
    &&& y.len() == t * len
    &&& 0 <= s < t && 0 <= b < len ==> y[s * len + b] == layer_normed(
        k,
        m,
        v,
        v.lookup(VitWeight::PostLnW)->Ok_0,
        v.lookup(VitWeight::PostLnB)->Ok_0,
        tower_rows(k, m, v, t, scale, v.shape.n_blk as int)(s),
    )[b]
}

/// The program takes the tokens of the host through all blocks and brings them back normed.
pub open spec fn runs_tower(v: Vit, toks: int, yx: int, scale: u32, c: Seq<Cmd>) -> bool {
    let t = yx / 2;
    tower_fits(v, t) && tensors_fit(v) && is_foreign(v, v.lookup(VitWeight::PostLnW)->Ok_0)
        && is_foreign(v, v.lookup(VitWeight::PostLnB)->Ok_0) && t * v.shape.n_embd <= toks && toks
        * 4 <= usize::MAX && yx * 4 <= usize::MAX ==> forall|
        k: Kernels,
        m: spec_fn(Ptr) -> u8,
        ok: spec_fn(int) -> bool,
        s: int,
        b: int,
    | #[trigger]
        token_brought(k, m, c, ok, v, t, scale, s, b)
}

impl Vit {
    /// The tower takes every token through every block, in their order, with the tensors of
    /// that block.
    pub proof fn law_tower_carries_every_token(&self, toks: int, yx: int, scale: u32, c: Seq<Cmd>)
        requires
            self.tower_program(toks, yx, scale) == Ok::<Seq<Cmd>, AccError>(c),
            0 <= toks,
            0 <= yx <= usize::MAX,
        ensures
            runs_tower(*self, toks, yx, scale, c),
    {
        let v = *self;
        let t = yx / 2;
        if tower_fits(v, t) && tensors_fit(v) && is_foreign(v, v.lookup(VitWeight::PostLnW)->Ok_0)
            && is_foreign(v, v.lookup(VitWeight::PostLnB)->Ok_0) && t * v.shape.n_embd <= toks
            && toks * 4 <= usize::MAX && yx * 4 <= usize::MAX {
            assert forall|k: Kernels, m: spec_fn(Ptr) -> u8, ok: spec_fn(int) -> bool, s: int, b: int| #[trigger]
                token_brought(k, m, c, ok, v, t, scale, s, b) by {
                self.lemma_token_brought(toks, yx, scale, c, k, m, ok, s, b);
            }
        }
    }

    #[verifier::rlimit(60)]
    proof fn lemma_token_brought(
        &self,
        toks: int,
        yx: int,
        scale: u32,
        c: Seq<Cmd>,
        k: Kernels,
        m: spec_fn(Ptr) -> u8,
        ok: spec_fn(int) -> bool,
        s: int,
        b: int,
    )
        requires
            self.tower_program(toks, yx, scale) == Ok::<Seq<Cmd>, AccError>(c),
            tower_fits(*self, yx / 2),
            tensors_fit(*self),
            is_foreign(*self, self.lookup(VitWeight::PostLnW)->Ok_0),
            is_foreign(*self, self.lookup(VitWeight::PostLnB)->Ok_0),
            yx / 2 * self.shape.n_embd <= toks,
            0 <= toks,
            toks * 4 <= usize::MAX,
            0 <= yx,
            yx * 4 <= usize::MAX,
        ensures
            token_brought(k, m, c, ok, *self, yx / 2, scale, s, b),
    {
        let v = *self;
        let t = (yx / 2) as usize;
        let n = v.shape.n_embd as int;
        let len = n * 4;
        lemma_room(v, t as int);
        let p = v.blocks_program(t, scale, v.shape.n_blk as int)->Ok_0;
        let ids = seq![VitWeight::PostLnW, VitWeight::PostLnB];
        let ts = v.lookup_all(ids)->Ok_0;
        lemma_looked_up(v, ids, ts);
        assert(v.lookup(ids[0]) is Ok && v.lookup(ids[1]) is Ok);
        let (x, xn, py) = (spec_dev(v.bufs.x), spec_dev(v.bufs.xn), spec_dev(v.bufs.yx));
        let head = c.take(3);
        let last = seq![v.norm(x, ts[0], ts[1], t)];
        assert(c.drop_last() =~= head + (p + last));
        lemma_after_all(k, m, head, ok, 0);
        reveal_with_fuel(after_first, 4);
        let m1 = written(m, x, toks * 4, |j: int| (k.host)(Host::X, j));
        let m2 = written(m1, py, yx * 4, |j: int| (k.host)(Host::Mask, j));
        let m3 = ran(k, m, head, ok, 0);
        assert(0 * n == 0 && 1 * n == n && 1 * len == len && 0 * len == 0);
        assert(xn.spec_at(0) == xn);
        lemma_pack(k, m2, v, v.bufs.x, 0, 1, v.bufs.xn, 0, t, 0);
        assert(m3 == performed(k, m2, v.pack(x, 0, n, xn, t)));
        assert(same_rest(v, m, m3));
        assert forall|i: int| 0 <= i < t implies #[trigger] token_rows(v, m3)(i) == host_row(k, n, i) by {
            assert forall|j: int| 0 <= j < len implies row_at(m3, x, len, i)[j] == host_row(k, n, i)[j] by {
                lemma_in_row(i, j, len, t as int);
                let q = x.spec_at(i * len).spec_at(j);
                assert(q == x.spec_at(i * len + j));
                assert(distance(x, q) == Some(i * len + j));
                assert(m3(q) == m2(q));
            }
            assert(row_at(m3, x, len, i) =~= host_row(k, n, i));
        }
        assert forall|i: int| 0 <= i < t implies #[trigger] token_places(v, m3)(i) == host_places(k)(i) by {
            assert forall|j: int| 0 <= j < 8 implies row_at(m3, py, 8, i)[j] == host_places(k)(i)[j] by {
                let q = py.spec_at(i * 8).spec_at(j);
                assert(q == py.spec_at(i * 8 + j));
                assert(distance(py, q) == Some(i * 8 + j));
                assert(m3(q) == m2(q));
            }
            assert(row_at(m3, py, 8, i) =~= host_places(k)(i));
        }
        lemma_ran_behind(k, m, head, p + last, ok, 0);
        lemma_blocks(k, m, m3, v, t, scale, v.shape.n_blk as int, p, ok, 3);
        let m4 = ran(k, m3, p, ok, 3);
        lemma_ran_behind(k, m3, p, last, ok, 3);
        lemma_one_command(k, m4, last, ok, 3 + p.len() as int);
        lemma_norm(k, m, m4, v, v.bufs.x, ts[0], ts[1], t, s);
        let after = ran(k, m, c.drop_last(), ok, 0);
        if 0 <= s < t && 0 <= b < len {
            lemma_in_row(s, b, len, t as int);
            assert(token_rows(v, m4)(s) == tower_rows(k, m, v, t as int, scale, v.shape.n_blk as int)(s));
            assert(x.spec_at(s * len).spec_at(b) == x.spec_at(s * len + b));
            assert(row_at(after, x, len, s)[b] == after(x.spec_at(s * len + b)));
        }
    }
}

/// Byte `b` of row `s` of the projector's output.
pub open spec fn projection_brought(
    k: Kernels,
    m: spec_fn(Ptr) -> u8,
    c: Seq<Cmd>,
    ok: spec_fn(int) -> bool,
    v: Vit,
    rows: int,
    s: int,
    b: int,
) -> bool {
    let y = fetched(k, m, c, ok);
    let (len, out) = (4 * v.shape.n_embd * 4, VIT_OUT * 4);
    let hidden = product(
        k,
        m,
        v.lookup(VitWeight::Mm0W)->Ok_0,
        v.lookup(VitWeight::Mm0B)->Ok_0,
        host_row(k, 4 * v.shape.n_embd, s),
    );
    &&& y.len() == rows * out
    &&& 0 <= s < rows && 0 <= b < out ==> y[s * out + b] == product(
        k,
        m,
        v.lookup(VitWeight::Mm2W)->Ok_0,
        v.lookup(VitWeight::Mm2B)->Ok_0,
        activated(k, hidden, len),
    )[b]
}

/// The temporary buffers have memory of their own, and a tensor lies outside of them.
pub open spec fn is_beyond(tmp: VitTemps, w: Tensor) -> bool {
    w.ptr is Dev && !is_at(w.ptr, tmp.merger) && !is_at(w.ptr, tmp.mid) && !is_at(w.ptr, tmp.out)
}

/// The sizes of the projector can be told to the kernels.
pub open spec fn projector_fits(v: Vit, t: int, tmp: VitTemps) -> bool {
    let (w0, b0, w2, b2) = (
        v.lookup(VitWeight::Mm0W)->Ok_0,
        v.lookup(VitWeight::Mm0B)->Ok_0,
        v.lookup(VitWeight::Mm2W)->Ok_0,
        v.lookup(VitWeight::Mm2B)->Ok_0,
    );
    let n = 4 * v.shape.n_embd;
    &&& v.wf()
    &&& 0 <= t <= v.shape.t_max
    &&& 1 <= n <= i32::MAX
    &&& t / 4 <= i32::MAX
    &&& t / 4 * n <= i32::MAX
    &&& tmp.merger != tmp.mid && tmp.merger != tmp.out && tmp.mid != tmp.out
    &&& is_beyond(tmp, w0) && is_beyond(tmp, b0) && is_beyond(tmp, w2) && is_beyond(tmp, b2)
    &&& w0.ni == n && w0.rows == n && w2.ni == n && w2.rows == VIT_OUT
}

/// The program brings back the projection of every merged row.
pub open spec fn projects_rows(v: Vit, t: int, tmp: VitTemps, c: Seq<Cmd>) -> bool {
    projector_fits(v, t, tmp) ==> forall|
        k: Kernels,
        m: spec_fn(Ptr) -> u8,
        ok: spec_fn(int) -> bool,
        s: int,
        b: int,
    | #[trigger]
        projection_brought(k, m, c, ok, v, t / 4, s, b)
}

/// A product of all rows, with tensors that memory keeps.
proof fn lemma_product_rows(
    k: Kernels,
    m0: spec_fn(Ptr) -> u8,
    m: spec_fn(Ptr) -> u8,
    x: u64,
    w: Tensor,
    bias: Tensor,
    out: u64,
    t: usize,
    s: int,
)
    requires
        view(m, w.ptr) == view(m0, w.ptr),
        view(m, bias.ptr) == view(m0, bias.ptr),
        w.rows <= i32::MAX,
        w.ni <= i32::MAX,
        t <= i32::MAX,
        t * (w.rows * 4) <= usize::MAX,
    ensures
        ({
            let after = performed(k, m, vit_gemm(spec_dev(x), w, bias, spec_dev(out), t));
            &&& only(m, after, out)
            &&& 0 <= s < t ==> row_at(after, spec_dev(out), w.rows * 4, s) == product(
                k,
                m0,
                w,
                bias,
                row_at(m, spec_dev(x), w.ni * 4, s),
            )
        }),
{
    let after = performed(k, m, vit_gemm(spec_dev(x), w, bias, spec_dev(out), t));
    let len = w.rows * 4;
    lemma_ceil_div(t as int, 32);
    lemma_ceil_div(w.rows as int, 8);
    law_grid_covers_blocks(spec_ceil_div(w.rows as int, 8));
    let g = |i: int|
        (k.op)(
            Op::VitProduct,
            seq![w.ni as int, w.rows as int],
            seq![row_at(m, spec_dev(x), w.ni * 4, i)],
            seq![view(m, w.ptr), view(m, bias.ptr)],
        );
    assert(after =~= written(m, spec_dev(out), t * len, |j: int| g(j / len)[j % len]));
    if 0 <= s < t {
        lemma_rows_written(m, after, spec_dev(out), t as int, len, g, s);
    }
}

impl Vit {
    /// The projector takes every merged row through both of its layers.
    #[verifier::rlimit(40)]
    pub proof fn law_projector_takes_every_row(&self, t: int, tmp: VitTemps, c: Seq<Cmd>)
        requires
            self.projector_program(t, tmp) == Ok::<Seq<Cmd>, AccError>(c),
        ensures
            projects_rows(*self, t, tmp, c),
    {
        let v = *self;
        if projector_fits(v, t, tmp) {
            let ts = v.lookup_all(tail_ids())->Ok_0;
            lemma_looked_up(v, tail_ids(), ts);
            let ids = tail_ids();
            assert(v.lookup(ids[0]) is Ok && v.lookup(ids[1]) is Ok && v.lookup(ids[2]) is Ok
                && v.lookup(ids[3]) is Ok);
            let rows = t / 4;
            let mm = rows as usize;
            let n = 4 * v.shape.n_embd;
            let (len, ol) = (n * 4, VIT_OUT * 4);
            let x = v.shape.t_max as int;
            assert(rows * 4 * v.shape.n_embd == rows * n && rows * n * 4 == rows * len && 0 <= rows * len
                <= x * v.shape.n_embd * 16 && n * rows == rows * n && 0 <= rows * n)
                by (nonlinear_arith)
                requires
                    n == 4 * v.shape.n_embd,
                    len == n * 4,
                    0 <= rows * 4 <= x,
            ;
            assert(rows <= v.shape.t_max / 4);
            assert(rows * ol <= (v.shape.t_max / 4) * VIT_OUT * 4);
            let (pm, ph, po) = (spec_dev(tmp.mid), spec_dev(tmp.merger), spec_dev(tmp.out));
            assert forall|k: Kernels, m: spec_fn(Ptr) -> u8, ok: spec_fn(int) -> bool, s: int, b: int| #[trigger]
                projection_brought(k, m, c, ok, v, rows, s, b) by {
                let d = c.drop_last();
                lemma_after_all(k, m, d, ok, 0);
                reveal_with_fuel(after_first, 5);
                let m1 = after_first(k, m, d, 1);
                let m2 = after_first(k, m, d, 2);
                let m3 = after_first(k, m, d, 3);
                let m4 = after_first(k, m, d, 4);
                assert(only(m, m1, tmp.mid));
                lemma_row_same(m, m1, tmp.mid, ts[0].ptr, 0, 0);
                lemma_row_same(m, m1, tmp.mid, ts[1].ptr, 0, 0);
                lemma_row_same(m, m1, tmp.mid, ts[2].ptr, 0, 0);
                lemma_row_same(m, m1, tmp.mid, ts[3].ptr, 0, 0);
                lemma_product_rows(k, m, m1, tmp.mid, ts[0], ts[1], tmp.merger, mm, s);
                lemma_row_same(m1, m2, tmp.merger, ts[2].ptr, 0, 0);
                lemma_row_same(m1, m2, tmp.merger, ts[3].ptr, 0, 0);
                lemma_activated(k, m2, tmp.merger, n, rows, s);
                lemma_row_same(m2, m3, tmp.merger, ts[2].ptr, 0, 0);
                lemma_row_same(m2, m3, tmp.merger, ts[3].ptr, 0, 0);
                lemma_product_rows(k, m, m3, tmp.merger, ts[2], ts[3], tmp.out, mm, s);
                if 0 <= s < rows && 0 <= b < ol {
                    assert(row_at(m1, pm, len, s) =~= host_row(k, n, s)) by {
                        assert forall|j: int| 0 <= j < len implies row_at(m1, pm, len, s)[j] == host_row(k, n, s)[j] by {
                            lemma_in_row(s, j, len, rows);
                            let q = pm.spec_at(s * len).spec_at(j);
                            assert(q == pm.spec_at(s * len + j));
                            assert(distance(pm, q) == Some(s * len + j));
                        }
                    }
                    lemma_in_row(s, b, ol, rows);
                    assert(po.spec_at(s * ol).spec_at(b) == po.spec_at(s * ol + b));
                    assert(row_at(m4, po, ol, s)[b] == m4(po.spec_at(s * ol + b)));
                }
            }
        }
    }
}

} // verus!
