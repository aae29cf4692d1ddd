//! The vision tower: a pipeline of launches over plain `f32` tensors.

use vstd::prelude::*;
use crate::arith::{ceil_div, max_usize, min_usize, spec_ceil_div};
use crate::device::{launch, spec_launch, Cmd, Host, Ptr};
use crate::error::AccError;
use crate::gemm::GRID_Y;
use crate::kernels::Call;
use crate::vit_laws::{projects_rows, runs_tower};
use crate::vit_names::{weight_name, VitPart, VitWeight};

verus! {

/// Most tokens that the attention kernel's shared memory holds.
pub const VIT_TOKENS: usize = 2304;

/// Width of the projector's output.
pub const VIT_OUT: usize = 5120;

/// A tensor on the device: its name, its address, its rows and their length.
pub struct VitTensor {
    pub name: Vec<u8>,
    pub ptr: u64,
    pub rows: usize,
    pub ni: usize,
}

/// Address and shape of a tensor.
#[derive(Clone, Copy, PartialEq, Eq, Structural, Debug)]
pub struct Tensor {
    pub ptr: Ptr,
    pub rows: usize,
    pub ni: usize,
}

/// Shape of the tower.
#[derive(Clone, Copy, PartialEq, Eq, Structural, Debug)]
pub struct VitShape {
    pub n_embd: usize,
    pub n_head: usize,
    pub n_ff: usize,
    pub n_blk: usize,
    pub eps: u32,
    pub patch: usize,
    pub t_max: usize,
}

/// Addresses of the working buffers.
#[derive(Clone, Copy, PartialEq, Eq, Structural, Debug)]
pub struct VitBufs {
    pub x: u64,
    pub xn: u64,
    pub qkv: u64,
    pub attn: u64,
    pub proj: u64,
    pub mid: u64,
    pub yx: u64,
    pub kvs: u64,
}

/// The tower: shape, tensors and buffers.
pub struct Vit {
    pub shape: VitShape,
    pub d_head: usize,
    pub w: Vec<VitTensor>,
    pub bufs: VitBufs,
}

/// Word counts of the working buffers, in the order of `VitBufs`; none is empty.
pub open spec fn spec_buffer_words(s: VitShape) -> Seq<int> {
    let tn = s.t_max * s.n_embd;
    Seq::new(
        8,
        |i: int|
            vstd::math::max(
                if i == 2 {
                    3 * tn
                } else if i == 5 {
                    s.t_max * s.n_ff
                } else if i == 6 {
                    s.t_max * 2
                } else if i == 7 {
                    2 * tn
                } else {
                    tn
                },
                1,
            ),
    )
}

/// Sizes of the buffers can be counted.
pub open spec fn vit_fits(s: VitShape) -> bool {
    &&& s.n_head > 0
    &&& s.t_max * s.n_embd * 16 <= usize::MAX
    &&& s.t_max * s.n_ff * 4 <= usize::MAX
    &&& s.t_max * 8 <= usize::MAX
    &&& s.n_embd * 16 <= usize::MAX
    &&& (s.t_max / 4) * VIT_OUT * 4 <= usize::MAX
}

/// Word counts of the working buffers to allocate.
pub fn buffer_words(s: &VitShape) -> (r: Vec<usize>)
    requires
        vit_fits(*s),
    ensures
        r@.len() == 8,
        forall|i: int| 0 <= i < 8 ==> #[trigger] r@[i] == spec_buffer_words(*s)[i],
{
    proof {
        let tn = s.t_max * s.n_embd;
        assert(0 <= tn && tn <= tn * 16 && s.t_max * 3 * s.n_embd == 3 * tn) by (nonlinear_arith)
            requires
                tn == s.t_max * s.n_embd,
                0 <= s.t_max,
                0 <= s.n_embd,
        ;
        assert(s.t_max * s.n_ff <= s.t_max * s.n_ff * 4) by (nonlinear_arith);
    }
    let tn: usize = s.t_max * s.n_embd;
    let one: usize = max_usize(tn, 1);
    vec![
        one,
        one,
        max_usize(3 * tn, 1),
        one,
        one,
        max_usize(s.t_max * s.n_ff, 1),
        max_usize(s.t_max * 2, 1),
        max_usize(2 * tn, 1),
    ]
}

fn dev(base: u64) -> (r: Ptr)
    ensures
        r == spec_dev(base),
{
    Ptr::Dev { base, off: 0 }
}

/// The address that the device handed out.
pub open spec fn spec_dev(base: u64) -> Ptr {
    Ptr::Dev { base, off: 0 }
}

/// The tensor with a name: the last one where several share it.
pub open spec fn find_tensor(w: Seq<VitTensor>, name: Seq<u8>) -> Option<Tensor>
    decreases w.len(),
{
    if w.len() == 0 {
        None
    } else if w.last().name@ == name {
        Some(Tensor { ptr: spec_dev(w.last().ptr), rows: w.last().rows, ni: w.last().ni })
    } else {
        find_tensor(w.drop_last(), name)
    }
}

pub fn same_bytes(a: &Vec<u8>, b: &Vec<u8>) -> (r: bool)
    ensures
        r == (a@ == b@),
{
    if a.len() != b.len() {
        return false;
    }
    let mut i: usize = 0;
    while i < a.len()
        invariant
            a@.len() == b@.len(),
            i <= a@.len(),
            forall|j: int| 0 <= j < i ==> a@[j] == b@[j],
        decreases a@.len() - i,
    {
        if a[i] != b[i] {
            return false;
        }
        i = i + 1;
    }
    assert(a@ =~= b@);
    true
}

/// The product of `t` rows with a tensor and its bias.
pub open spec fn vit_gemm(x: Ptr, w: Tensor, bias: Tensor, out: Ptr, t: usize) -> Cmd {
    let gy = spec_ceil_div(w.rows as int, 8) as u32;
    spec_launch(
        Call::VitGemm {
            x,
            w: w.ptr,
            bias: bias.ptr,
            out,
            n_in: w.ni as i32,
            n_out: w.rows as i32,
            t: t as i32,
        },
        spec_ceil_div(t as int, 32) as u32,
        vstd::math::min(gy as int, GRID_Y as int) as u32,
        spec_ceil_div(gy as int, GRID_Y as int) as u32,
        256,
    )
}

fn gemm(x: Ptr, w: Tensor, bias: Tensor, out: Ptr, t: usize) -> (r: Cmd)
    ensures
        r == vit_gemm(x, w, bias, out, t),
{
    let gy: u32 = ceil_div(w.rows, 8) as u32;
    launch(
        Call::VitGemm {
            x,
            w: w.ptr,
            bias: bias.ptr,
            out,
            n_in: w.ni as i32,
            n_out: w.rows as i32,
            t: t as i32,
        },
        ceil_div(t, 32) as u32,
        min_usize(gy as usize, GRID_Y) as u32,
        ceil_div(gy as usize, GRID_Y) as u32,
        256,
    )
}

/// `y += x` over `n` values.
pub open spec fn vit_add(y: Ptr, x: Ptr, n: int) -> Cmd {
    spec_launch(Call::AddF32 { y, x, n: n as i32 }, spec_ceil_div(n, 64) as u32, 1, 1, 64)
}

fn axpy(y: Ptr, x: Ptr, n: usize) -> (r: Cmd)
    ensures
        r == vit_add(y, x, n as int),
{
    launch(Call::AddF32 { y, x, n: n as i32 }, ceil_div(n, 64) as u32, 1, 1, 64)
}

/// Activation function over `n` values.
pub open spec fn vit_gelu(x: Ptr, n: int) -> Cmd {
    spec_launch(Call::GeluT { x, n: n as i32 }, spec_ceil_div(n, 64) as u32, 1, 1, 64)
}

fn gelu(x: Ptr, n: usize) -> (r: Cmd)
    ensures
        r == vit_gelu(x, n as int),
{
    launch(Call::GeluT { x, n: n as i32 }, ceil_div(n, 64) as u32, 1, 1, 64)
}

/// The tensors of block `il` in the order in which they are looked up.
pub open spec fn block_ids(il: usize) -> Seq<VitWeight> {
    seq![
        VitWeight::Block { il, part: VitPart::Ln1W },
        VitWeight::Block { il, part: VitPart::Ln1B },
        VitWeight::Block { il, part: VitPart::QkvW },
        VitWeight::Block { il, part: VitPart::QkvB },
        VitWeight::Block { il, part: VitPart::OutW },
        VitWeight::Block { il, part: VitPart::OutB },
        VitWeight::Block { il, part: VitPart::Ln2W },
        VitWeight::Block { il, part: VitPart::Ln2B },
        VitWeight::Block { il, part: VitPart::UpW },
        VitWeight::Block { il, part: VitPart::UpB },
        VitWeight::Block { il, part: VitPart::DownW },
        VitWeight::Block { il, part: VitPart::DownB },
    ]
}

/// The tensors behind the blocks.
pub open spec fn tail_ids() -> Seq<VitWeight> {
    seq![VitWeight::Mm0W, VitWeight::Mm0B, VitWeight::Mm2W, VitWeight::Mm2B]
}

/// Temporary buffers of the projector.
#[derive(Clone, Copy, PartialEq, Eq, Structural, Debug)]
pub struct VitTemps {
    pub merger: u64,
    pub mid: u64,
    pub out: u64,
}

impl Vit {
    pub open spec fn wf(&self) -> bool {
        vit_fits(self.shape) && self.d_head == self.shape.n_embd / self.shape.n_head
    }

    /// A tower over uploaded tensors and allocated buffers.
    pub fn new(shape: VitShape, w: Vec<VitTensor>, bufs: VitBufs) -> (r: Vit)
        requires
            vit_fits(shape),
        ensures
            r.wf(),
            r.shape == shape,
            r.w == w,
            r.bufs == bufs,
            r.d_head == shape.n_embd / shape.n_head,
    {
        Vit { shape, d_head: shape.n_embd / shape.n_head, w, bufs }
    }

    /// Looks a tensor up.
    pub open spec fn lookup(&self, id: VitWeight) -> Result<Tensor, AccError> {
        match find_tensor(self.w@, weight_name(id)) {
            Some(t) => Ok(t),
            None => Err(AccError::VitWeightMissing { w: id }),
        }
    }

    pub fn wt(&self, id: VitWeight) -> (r: Result<Tensor, AccError>)
        ensures
            r == self.lookup(id),
    {
        let name = id.name();
        let mut i: usize = self.w.len();
        assert(self.w@.take(i as int) =~= self.w@);
        while i > 0
            invariant
                i <= self.w@.len(),
                name@ == weight_name(id),
                find_tensor(self.w@, name@) == find_tensor(self.w@.take(i as int), name@),
            decreases i,
        {
            assert(self.w@.take(i as int).drop_last() =~= self.w@.take(i - 1));
            if same_bytes(&self.w[i - 1].name, &name) {
                let t = Tensor {
                    ptr: dev(self.w[i - 1].ptr),
                    rows: self.w[i - 1].rows,
                    ni: self.w[i - 1].ni,
                };
                return Ok(t);
            }
            i = i - 1;
        }
        Err(AccError::VitWeightMissing { w: id })
    }

    /// Looks several tensors up; the first that is missing is the error.
    pub open spec fn lookup_all(&self, ids: Seq<VitWeight>) -> Result<Seq<Tensor>, AccError>
        decreases ids.len(),
    {
        if ids.len() == 0 {
            Ok(Seq::empty())
        } else {
            match self.lookup_all(ids.drop_last()) {
                Err(e) => Err(e),
                Ok(ts) => match self.lookup(ids.last()) {
                    Err(e) => Err(e),
                    Ok(t) => Ok(ts.push(t)),
                },
            }
        }
    }

    proof fn lemma_lookup_prefix(&self, ids: Seq<VitWeight>, n: int)
        requires
            0 <= n <= ids.len(),
            self.lookup_all(ids.take(n)) is Err,
        ensures
            self.lookup_all(ids) == self.lookup_all(ids.take(n)),
        decreases ids.len() - n,
    {
        if n < ids.len() {
            assert(ids.take(n + 1).drop_last() =~= ids.take(n));
            self.lemma_lookup_prefix(ids, n + 1);
        } else {
            assert(ids.take(n) =~= ids);
        }
    }

    fn tensors(&self, ids: &Vec<VitWeight>) -> (r: Result<Vec<Tensor>, AccError>)
        ensures
            match self.lookup_all(ids@) {
                Ok(ts) => r matches Ok(v) && v@ == ts && ts.len() == ids@.len(),
                Err(e) => r matches Err(f) && f == e,
            },
    {
        let mut v: Vec<Tensor> = Vec::new();
        let mut i: usize = 0;
        while i < ids.len()
            invariant
                i <= ids@.len(),
                v@.len() == i,
                self.lookup_all(ids@.take(i as int)) == Ok::<Seq<Tensor>, AccError>(v@),
            decreases ids@.len() - i,
        {
            assert(ids@.take(i + 1).drop_last() =~= ids@.take(i as int));
            match self.wt(ids[i]) {
                Ok(t) => {
                    v.push(t);
                },
                Err(e) => {
                    proof {
                        self.lemma_lookup_prefix(ids@, i + 1);
                    }
                    return Err(e);
                },
            }
            i = i + 1;
        }
        assert(ids@.take(i as int) =~= ids@);
        Ok(v)
    }

    /// Packs `t` rows of `n_embd` values out of rows of `stride` values.
    pub open spec fn pack(&self, src: Ptr, off: int, stride: int, dst: Ptr, t: usize) -> Cmd {
        spec_launch(
            Call::PackStrided {
                src: src.spec_at(off * 4),
                dst,
                n: self.shape.n_embd as i32,
                stride: stride as i32,
                t: t as i32,
            },
            spec_ceil_div(self.shape.n_embd as int, 64) as u32,
            t as u32,
            1,
            64,
        )
    }

    fn pack_strided(&self, src: Ptr, off: usize, stride: usize, dst: Ptr, t: usize) -> (r: Cmd)
        requires
            src.offset() + off * 4 <= usize::MAX,
        ensures
            r == self.pack(src, off as int, stride as int, dst, t),
    {
        launch(
            Call::PackStrided {
                src: src.at(off * 4),
                dst,
                n: self.shape.n_embd as i32,
                stride: stride as i32,
                t: t as i32,
            },
            ceil_div(self.shape.n_embd, 64) as u32,
            t as u32,
            1,
            64,
        )
    }

    /// Layer norm in place.
    pub open spec fn norm(&self, x: Ptr, w: Tensor, bias: Tensor, t: usize) -> Cmd {
        spec_launch(
            Call::LayerNorm {
                x,
                w: w.ptr,
                bias: bias.ptr,
                n: self.shape.n_embd as i32,
                eps: self.shape.eps,
                t: t as i32,
            },
            t as u32,
            1,
            1,
            32,
        )
    }

    fn ln(&self, x: Ptr, w: Tensor, bias: Tensor, t: usize) -> (r: Cmd)
        ensures
            r == self.norm(x, w, bias, t),
    {
        launch(
            Call::LayerNorm {
                x,
                w: w.ptr,
                bias: bias.ptr,
                n: self.shape.n_embd as i32,
                eps: self.shape.eps,
                t: t as i32,
            },
            t as u32,
            1,
            1,
            32,
        )
    }

    /// Rotates the queries or keys inside the joint projection.
    pub open spec fn rope(&self, off: int, t: usize) -> Cmd {
        spec_launch(
            Call::VitRope {
                q: spec_dev(self.bufs.qkv).spec_at(off * 4),
                yx: spec_dev(self.bufs.yx),
                n_head: self.shape.n_head as i32,
                d_head: self.d_head as i32,
                t: t as i32,
                stride: (3 * self.shape.n_embd) as i32,
            },
            t as u32,
            self.shape.n_head as u32,
            1,
            32,
        )
    }

    fn rope_at(&self, off: usize, t: usize) -> (r: Cmd)
        requires
            self.wf(),
            off <= self.shape.n_embd,
        ensures
            r == self.rope(off as int, t),
    {
        launch(
            Call::VitRope {
                q: dev(self.bufs.qkv).at(off * 4),
                yx: dev(self.bufs.yx),
                n_head: self.shape.n_head as i32,
                d_head: self.d_head as i32,
                t: t as i32,
                stride: (3 * self.shape.n_embd) as i32,
            },
            t as u32,
            self.shape.n_head as u32,
            1,
            32,
        )
    }

    /// The launches of one block: attention with its residual, then the
    /// feed-forward part with its own.
    pub open spec fn block_cmds(&self, ts: Seq<Tensor>, t: usize, scale: u32) -> Seq<Cmd> {
        let n = self.shape.n_embd as int;
        let (x, xn, qkv) = (spec_dev(self.bufs.x), spec_dev(self.bufs.xn), spec_dev(self.bufs.qkv));
        let (attn, proj, mid) = (
            spec_dev(self.bufs.attn),
            spec_dev(self.bufs.proj),
            spec_dev(self.bufs.mid),
        );
        let ks = spec_dev(self.bufs.kvs);
        let vs = ks.spec_at(t * n * 4);
        seq![
            self.pack(x, 0, n, xn, t),
            self.norm(xn, ts[0], ts[1], t),
            vit_gemm(xn, ts[2], ts[3], qkv, t),
            self.rope(0, t),
            self.rope(n, t),
            self.pack(qkv, 0, 3 * n, xn, t),
            self.pack(qkv, n, 3 * n, ks, t),
            self.pack(qkv, 2 * n, 3 * n, vs, t),
            spec_launch(
                Call::FlashVit {
                    q: xn,
                    k: ks,
                    v: vs,
                    out: attn,
                    t: t as i32,
                    n_head: self.shape.n_head as i32,
                    d_head: self.d_head as i32,
                    scale,
                },
                t as u32,
                self.shape.n_head as u32,
                1,
                256,
            ),
            vit_gemm(attn, ts[4], ts[5], proj, t),
            vit_add(x, proj, t * n),
            self.pack(x, 0, n, xn, t),
            self.norm(xn, ts[6], ts[7], t),
            vit_gemm(xn, ts[8], ts[9], mid, t),
            vit_gelu(mid, self.shape.n_ff * t),
            vit_gemm(mid, ts[10], ts[11], proj, t),
            vit_add(x, proj, t * n),
        ]
    }

    /// The launches of the first `n` blocks.
    pub open spec fn blocks_program(&self, t: usize, scale: u32, n: int) -> Result<
        Seq<Cmd>,
        AccError,
    >
        decreases n,
    {
        if n <= 0 {
            Ok(Seq::empty())
        } else {
            match self.blocks_program(t, scale, n - 1) {
                Err(e) => Err(e),
                Ok(p) => match self.lookup_all(block_ids((n - 1) as usize)) {
                    Err(e) => Err(e),
                    Ok(ts) => Ok(p + self.block_cmds(ts, t, scale)),
                },
            }
        }
    }

    proof fn lemma_blocks_error(&self, t: usize, scale: u32, n: int, m: int)
        requires
            0 <= n <= m,
            self.blocks_program(t, scale, n) is Err,
        ensures
            self.blocks_program(t, scale, m) == self.blocks_program(t, scale, n),
        decreases m - n,
    {
        if n < m {
            self.lemma_blocks_error(t, scale, n, m - 1);
        }
    }

    fn block(&self, ts: &Vec<Tensor>, t: usize, scale: u32) -> (r: Vec<Cmd>)
        requires
            self.wf(),
            ts@.len() == 12,
            t <= self.shape.t_max,
        ensures
            r@ == self.block_cmds(ts@, t, scale),
    {
        let n: usize = self.shape.n_embd;
        proof {
            let (tt, nn, m, f) = (t as int, n as int, self.shape.t_max as int, self.shape.n_ff as int);
            assert(0 <= tt * nn <= tt * nn * 4 <= m * nn * 16) by (nonlinear_arith)
                requires
                    0 <= tt <= m,
                    0 <= nn,
            ;
            assert(0 <= f * tt <= m * f * 4) by (nonlinear_arith)
                requires
                    0 <= tt <= m,
                    0 <= f,
            ;
        }
        let (x, xn, qkv): (Ptr, Ptr, Ptr) = (
            dev(self.bufs.x),
            dev(self.bufs.xn),
            dev(self.bufs.qkv),
        );
        let (attn, proj, mid): (Ptr, Ptr, Ptr) = (
            dev(self.bufs.attn),
            dev(self.bufs.proj),
            dev(self.bufs.mid),
        );
        let ks = dev(self.bufs.kvs);
        let vs = ks.at(t * n * 4);
        let mut r: Vec<Cmd> = Vec::new();
        r.push(self.pack_strided(x, 0, n, xn, t));
        r.push(self.ln(xn, ts[0], ts[1], t));
        r.push(gemm(xn, ts[2], ts[3], qkv, t));
        r.push(self.rope_at(0, t));
        r.push(self.rope_at(n, t));
        r.push(self.pack_strided(qkv, 0, 3 * n, xn, t));
        r.push(self.pack_strided(qkv, n, 3 * n, ks, t));
        r.push(self.pack_strided(qkv, 2 * n, 3 * n, vs, t));
        r.push(
            launch(
                Call::FlashVit {
                    q: xn,
                    k: ks,
                    v: vs,
                    out: attn,
                    t: t as i32,
                    n_head: self.shape.n_head as i32,
                    d_head: self.d_head as i32,
                    scale,
                },
                t as u32,
                self.shape.n_head as u32,
                1,
                256,
            ),
        );
        r.push(gemm(attn, ts[4], ts[5], proj, t));
        r.push(axpy(x, proj, t * n));
        r.push(self.pack_strided(x, 0, n, xn, t));
        r.push(self.ln(xn, ts[6], ts[7], t));
        r.push(gemm(xn, ts[8], ts[9], mid, t));
        r.push(gelu(mid, self.shape.n_ff * t));
        r.push(gemm(mid, ts[10], ts[11], proj, t));
        r.push(axpy(x, proj, t * n));
        assert(r@ =~= self.block_cmds(ts@, t, scale));
        r
    }

    /// The tower up to its normalised tokens, which go to the host.
    pub open spec fn tower_program(&self, toks: int, yx: int, scale: u32) -> Result<
        Seq<Cmd>,
        AccError,
    > {
        let t = (yx / 2) as usize;
        let n = self.shape.n_embd as int;
        let (x, xn) = (spec_dev(self.bufs.x), spec_dev(self.bufs.xn));
        if t > VIT_TOKENS {
            Err(AccError::VitTokens { t })
        } else {
            match self.blocks_program(t, scale, self.shape.n_blk as int) {
                Err(e) => Err(e),
                Ok(p) => match self.lookup_all(seq![VitWeight::PostLnW, VitWeight::PostLnB]) {
                    Err(e) => Err(e),
                    Ok(ts) => Ok(
                        seq![
                            Cmd::H2d { dst: x, src: Host::X, bytes: (toks * 4) as usize },
                            Cmd::H2d {
                                dst: spec_dev(self.bufs.yx),
                                src: Host::Mask,
                                bytes: (yx * 4) as usize,
                            },
                            self.pack(x, 0, n, xn, t),
                        ] + p + seq![
                            self.norm(x, ts[0], ts[1], t),
                            Cmd::D2h { dst: Host::Y, src: x, bytes: (t * n * 4) as usize },
                        ],
                    ),
                },
            }
        }
    }

    /// Plans the tower over `toks` token values and `yx` position values, two per
    /// token. `scale` is the scale of the attention scores, one over the root of
    /// the head size. The normalised tokens come back for `merge_tokens`.
    pub fn forward(&self, toks: usize, yx: usize, scale: u32) -> (r: Result<Vec<Cmd>, AccError>)
        requires
            self.wf(),
            yx / 2 <= self.shape.t_max,
            toks * 4 <= usize::MAX,
            yx * 4 <= usize::MAX,
        ensures
            match self.tower_program(toks as int, yx as int, scale) {
                Ok(p) => r matches Ok(c) && c@ == p,
                Err(e) => r matches Err(f) && f == e,
            },
            r matches Ok(c) ==> runs_tower(*self, toks as int, yx as int, scale, c@),
    {
        let t: usize = yx / 2;
        if t > VIT_TOKENS {
            return Err(AccError::VitTokens { t });
        }
        let n: usize = self.shape.n_embd;
        let (x, xn): (Ptr, Ptr) = (dev(self.bufs.x), dev(self.bufs.xn));
        let mut r: Vec<Cmd> = vec![
            Cmd::H2d { dst: x, src: Host::X, bytes: toks * 4 },
            Cmd::H2d { dst: dev(self.bufs.yx), src: Host::Mask, bytes: yx * 4 },
            self.pack_strided(x, 0, n, xn, t),
        ];
        let ghost head = r@;
        let mut p: Vec<Cmd> = Vec::new();
        let mut il: usize = 0;
        while il < self.shape.n_blk
            invariant
                self.wf(),
                t == yx / 2,
                t <= self.shape.t_max,
                t <= VIT_TOKENS,
                il <= self.shape.n_blk,
                self.blocks_program(t, scale, il as int) == Ok::<Seq<Cmd>, AccError>(p@),
            decreases self.shape.n_blk - il,
        {
            let ids: Vec<VitWeight> = vec![
                VitWeight::Block { il, part: VitPart::Ln1W },
                VitWeight::Block { il, part: VitPart::Ln1B },
                VitWeight::Block { il, part: VitPart::QkvW },
                VitWeight::Block { il, part: VitPart::QkvB },
                VitWeight::Block { il, part: VitPart::OutW },
                VitWeight::Block { il, part: VitPart::OutB },
                VitWeight::Block { il, part: VitPart::Ln2W },
                VitWeight::Block { il, part: VitPart::Ln2B },
                VitWeight::Block { il, part: VitPart::UpW },
                VitWeight::Block { il, part: VitPart::UpB },
                VitWeight::Block { il, part: VitPart::DownW },
                VitWeight::Block { il, part: VitPart::DownB },
            ];
            assert(ids@ =~= block_ids(il));
            match self.tensors(&ids) {
                Ok(ts) => {
                    let mut b = self.block(&ts, t, scale);
                    p.append(&mut b);
                },
                Err(e) => {
                    proof {
                        self.lemma_blocks_error(t, scale, il + 1, self.shape.n_blk as int);
                    }
                    return Err(e);
                },
            }
            il = il + 1;
        }
        let ids: Vec<VitWeight> = vec![VitWeight::PostLnW, VitWeight::PostLnB];
        assert(ids@ =~= seq![VitWeight::PostLnW, VitWeight::PostLnB]);
        let ts = match self.tensors(&ids) {
            Ok(ts) => ts,
            Err(e) => {
                return Err(e);
            },
        };
        let ghost body = p@;
        r.append(&mut p);
        r.push(self.ln(x, ts[0], ts[1], t));
        proof {
            let (tt, nn, m) = (t as int, n as int, self.shape.t_max as int);
            assert(0 <= tt * nn <= tt * nn * 4 <= m * nn * 16) by (nonlinear_arith)
                requires
                    0 <= tt <= m,
                    0 <= nn,
            ;
        }
        r.push(Cmd::D2h { dst: Host::Y, src: x, bytes: t * n * 4 });
        assert(r@ =~= head + body + seq![
            self.norm(x, ts@[0], ts@[1], t),
            Cmd::D2h { dst: Host::Y, src: x, bytes: (t * n * 4) as usize },
        ]);
        proof {
            self.law_tower_carries_every_token(toks as int, yx as int, scale, r@);
        }
        Ok(r)
    }

    /// Bytes of the projector's temporary buffers for `t` tokens: merged rows,
    /// hidden rows and output rows.
    pub fn temp_bytes(&self, t: usize) -> (r: (usize, usize, usize))
        requires
            self.wf(),
            t <= self.shape.t_max,
        ensures
            r.0 == t as int / 4 * 4 * self.shape.n_embd * 4,
            r.1 == r.0,
            r.2 == t as int / 4 * VIT_OUT * 4,
    {
        let m: usize = t / 4;
        let n: usize = self.shape.n_embd;
        proof {
            let (mm, nn, mx) = (m as int, n as int, self.shape.t_max as int);
            assert(0 <= mm * 4 * nn <= mm * 4 * nn * 4 <= mx * nn * 16) by (nonlinear_arith)
                requires
                    0 <= mm * 4 <= mx,
                    0 <= nn,
            ;
            assert(m <= self.shape.t_max / 4);
        }
        let merged: usize = m * 4 * n * 4;
        (merged, merged, m * VIT_OUT * 4)
    }

    /// The projector over merged rows.
    pub open spec fn projector_program(&self, t: int, tmp: VitTemps) -> Result<Seq<Cmd>, AccError> {
        let m = (t / 4) as usize;
        let words = t / 4 * 4 * self.shape.n_embd;
        match self.lookup_all(tail_ids()) {
            Err(e) => Err(e),
            Ok(ts) => Ok(
                seq![
                    Cmd::H2d {
                        dst: spec_dev(tmp.mid),
                        src: Host::X,
                        bytes: (words * 4) as usize,
                    },
                    vit_gemm(spec_dev(tmp.mid), ts[0], ts[1], spec_dev(tmp.merger), m),
                    vit_gelu(spec_dev(tmp.merger), words),
                    vit_gemm(spec_dev(tmp.merger), ts[2], ts[3], spec_dev(tmp.out), m),
                    Cmd::D2h {
                        dst: Host::Y,
                        src: spec_dev(tmp.out),
                        bytes: (t / 4 * VIT_OUT * 4) as usize,
                    },
                ],
            ),
        }
    }

    /// Plans the projector over the merged rows of `t` tokens.
    pub fn project(&self, t: usize, tmp: VitTemps) -> (r: Result<Vec<Cmd>, AccError>)
        requires
            self.wf(),
            t <= self.shape.t_max,
        ensures
            match self.projector_program(t as int, tmp) {
                Ok(p) => r matches Ok(c) && c@ == p,
                Err(e) => r matches Err(f) && f == e,
            },
            r matches Ok(c) ==> projects_rows(*self, t as int, tmp, c@),
    {
        let m: usize = t / 4;
        let (merged, _, out): (usize, usize, usize) = self.temp_bytes(t);
        proof {
            let (mm, nn) = (m as int, self.shape.n_embd as int);
            assert(0 <= mm * 4 * nn <= mm * 4 * nn * 4) by (nonlinear_arith)
                requires
                    0 <= mm,
                    0 <= nn,
            ;
        }
        let words: usize = m * 4 * self.shape.n_embd;
        let ids: Vec<VitWeight> = vec![
            VitWeight::Mm0W,
            VitWeight::Mm0B,
            VitWeight::Mm2W,
            VitWeight::Mm2B,
        ];
        assert(ids@ =~= tail_ids());
        let ts = match self.tensors(&ids) {
            Ok(ts) => ts,
            Err(e) => {
                return Err(e);
            },
        };
        let cmds: Vec<Cmd> = vec![
            Cmd::H2d { dst: dev(tmp.mid), src: Host::X, bytes: merged },
            gemm(dev(tmp.mid), ts[0], ts[1], dev(tmp.merger), m),
            gelu(dev(tmp.merger), words),
            gemm(dev(tmp.merger), ts[2], ts[3], dev(tmp.out), m),
            Cmd::D2h { dst: Host::Y, src: dev(tmp.out), bytes: out },
        ];
        proof {
            assert(Ok::<Seq<Cmd>, AccError>(cmds@) == self.projector_program(t as int, tmp));
            self.law_projector_takes_every_row(t as int, tmp, cmds@);
        }
        Ok(cmds)
    }
}

/// Joins every four consecutive tokens of `n` values into one row; up to three
/// tokens at the end are left out.
pub fn merge_tokens(tokens: &Vec<u32>, n: usize, t: usize) -> (r: Vec<u32>)
    requires
        tokens@.len() == t * n,
    ensures
        r@.len() == t as int / 4 * (4 * n),
        forall|m: int, j: int, i: int|
            #![trigger tokens@[(m * 4 + j) * n + i]]
            0 <= m < t / 4 && 0 <= j < 4 && 0 <= i < n ==> r@[m * (4 * n) + j * n + i]
                == tokens@[(m * 4 + j) * n + i],
{
    let len: usize = tokens.len();
    let ghost rows = t as int / 4;
    let left: usize = t % 4;
    proof {
        let (tt, nn, rest) = (t as int, n as int, left as int);
        assert(0 <= rest * nn <= tt * nn && tt * nn - rest * nn == rows * 4 * nn && rows * 4 * nn
            == rows * (4 * nn)) by (nonlinear_arith)
            requires
                tt == rows * 4 + rest,
                0 <= rest <= tt,
                0 <= nn,
        ;
    }
    let mut r: Vec<u32> = Vec::new();
    let total: usize = len - left * n;
    let mut k: usize = 0;
    while k < total
        invariant
            total <= tokens@.len(),
            k <= total,
            r@ == tokens@.take(k as int),
        decreases total - k,
    {
        r.push(tokens[k]);
        proof {
            assert(r@ =~= tokens@.take(k + 1));
        }
        k = k + 1;
    }
    proof {
        assert forall|m: int, j: int, i: int|
            #![trigger tokens@[(m * 4 + j) * n + i]]
            0 <= m < t / 4 && 0 <= j < 4 && 0 <= i < n implies r@[m * (4 * n) + j * n + i]
            == tokens@[(m * 4 + j) * n + i] by {
            let nn = n as int;
            assert(m * (4 * nn) + j * nn + i == (m * 4 + j) * nn + i) by (nonlinear_arith);
            assert(0 <= (m * 4 + j) * nn + i < rows * 4 * nn) by (nonlinear_arith)
                requires
                    0 <= m < rows,
                    0 <= j < 4,
                    0 <= i < nn,
            ;
        }
    }
    r
}

} // verus!
