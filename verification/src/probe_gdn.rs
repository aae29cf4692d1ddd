//! Whether the recurrent kernels give the same result for one long batch as for
//! several short ones.

use vstd::prelude::*;
use crate::checks::{draw_runs, lens_of, runs, SEED_GOLDEN};
use crate::error::ProbeError;
use crate::probe_gemm::SEED_PI;

verus! {

/// A view of a frame: first element and length.
#[derive(Clone, Copy, PartialEq, Eq, Structural, Debug)]
pub struct Rows {
    pub off: usize,
    pub len: usize,
}

/// Rows `per * c .. per * (c + 1)` of rows of `width` values.
pub open spec fn band(per: int, width: int, c: int) -> Rows {
    Rows { off: (c * per * width) as usize, len: (per * width) as usize }
}

/// The bands of `t` rows follow each other without gap, from the first row to the
/// last.
pub proof fn law_bands_partition(t: int, per: int, width: int, c: int)
    requires
        per > 0,
        width >= 0,
        t >= 0,
        t % per == 0,
        t * width <= usize::MAX,
        0 <= c < t / per,
    ensures
        band(per, width, 0).off == 0,
        band(per, width, c).off + band(per, width, c).len == (c + 1) * per * width,
        (t / per) * per * width == t * width,
        band(per, width, c).off + band(per, width, c).len <= t * width,
{
    vstd::arithmetic::div_mod::lemma_fundamental_div_mod(t, per);
    let n = t / per;
    assert(n * per == t) by (nonlinear_arith)
        requires
            t == per * n,
    ;
    assert(0 * per * width == 0) by (nonlinear_arith);
    assert(c * per * width + per * width == (c + 1) * per * width) by (nonlinear_arith);
    assert(0 <= c * per * width && 0 <= per * width && (c + 1) * per * width <= n * per * width)
        by (nonlinear_arith)
        requires
            0 <= c,
            c + 1 <= n,
            per > 0,
            width >= 0,
    ;
}

/// One band of the recurrence: views of queries, keys, values, gates and output.
#[derive(Clone, Copy, PartialEq, Eq, Structural, Debug)]
pub struct ArBand {
    pub q: Rows,
    pub k: Rows,
    pub v: Rows,
    pub gates: Rows,
    pub out: Rows,
}

/// The probe of the recurrence: frame lengths, draws, and the bands.
pub struct ArInvariance {
    /// Queries, keys, values, gates, the two states and the two outputs.
    pub frames: Vec<usize>,
    /// Queries, keys, values and gates.
    pub inputs: Vec<Vec<u32>>,
    pub bands: Vec<ArBand>,
}

/// The band length is refused: it has to divide the batch, and properly.
pub open spec fn bad_bands(t: int, per: int) -> bool {
    per == 0 || t % per != 0 || t == per
}

pub open spec fn ar_frames(t: int, h_k: int, h_v: int, d: int) -> Seq<int> {
    let (k, v) = (t * (h_k * d), t * (h_v * d));
    seq![k, k, v, t * h_v * 2, h_v * d * d, h_v * d * d, v, v]
}

pub open spec fn ar_inputs(t: int, h_k: int, h_v: int, d: int) -> Seq<int> {
    let (k, v) = (t * (h_k * d), t * (h_v * d));
    seq![k, k, v, t * h_v * 2]
}

/// Sizes of the probe can be counted.
pub open spec fn ar_fits(t: int, h_k: int, h_v: int, d: int) -> bool {
    &&& h_k * d <= usize::MAX
    &&& h_v * d <= usize::MAX
    &&& h_v * d * d <= usize::MAX
    &&& t * (h_k * d) <= usize::MAX
    &&& t * (h_v * d) <= usize::MAX
    &&& t * h_v * 2 <= usize::MAX
    &&& h_v * 2 <= usize::MAX
}

fn view(per: usize, width: usize, c: usize, t: usize) -> (r: Rows)
    requires
        per > 0,
        t % per == 0,
        c < t / per,
        t * width <= usize::MAX,
    ensures
        r == band(per as int, width as int, c as int),
{
    proof {
        law_bands_partition(t as int, per as int, width as int, c as int);
        assert(c * per <= t) by (nonlinear_arith)
            requires
                c < t as int / per as int,
                per > 0,
                c >= 0,
                t >= 0,
        ;
        assert(0 <= c * per * width && 0 <= per * width <= (c + 1) * per * width)
            by (nonlinear_arith)
            requires
                0 <= c,
                0 < per,
                0 <= width,
        ;
        assert(c * per * width <= (c + 1) * per * width) by (nonlinear_arith)
            requires
                0 <= c,
                0 < per,
                0 <= width,
        ;
    }
    Rows { off: c * per * width, len: per * width }
}

/// Plans the probe of the gated delta recurrence.
pub fn gdn_ar_invariance(t: usize, per: usize, h_k: usize, h_v: usize, d: usize) -> (r: Result<
    ArInvariance,
    ProbeError,
>)
    requires
        ar_fits(t as int, h_k as int, h_v as int, d as int),
    ensures
        if bad_bands(t as int, per as int) {
            r == Err::<ArInvariance, ProbeError>(ProbeError::Bands { t, per })
        } else {
            r matches Ok(p) && {
                &&& lens_of(p.frames@) == ar_frames(t as int, h_k as int, h_v as int, d as int)
                &&& p.inputs@.len() == 4
                &&& forall|i: int|
                    0 <= i < 4 ==> (#[trigger] p.inputs@[i])@ == runs(
                        SEED_GOLDEN,
                        ar_inputs(t as int, h_k as int, h_v as int, d as int),
                        i,
                    )
                &&& p.bands@.len() == t as int / per as int
                &&& forall|c: int|
                    0 <= c < p.bands@.len() ==> #[trigger] p.bands@[c] == (ArBand {
                        q: band(per as int, h_k * d, c),
                        k: band(per as int, h_k * d, c),
                        v: band(per as int, h_v * d, c),
                        gates: band(per as int, h_v * 2, c),
                        out: band(per as int, h_v * d, c),
                    })
            }
        },
{
    if per == 0 || t % per != 0 || t == per {
        return Err(ProbeError::Bands { t, per });
    }
    let (k_len, v_len): (usize, usize) = (h_k * d, h_v * d);
    proof {
        assert(0 <= t * h_v <= t * h_v * 2 && t * (h_v * 2) == t * h_v * 2) by (nonlinear_arith)
            requires
                0 <= t,
                0 <= h_v,
        ;
    }
    let gates: usize = t * h_v * 2;
    let (k, v): (usize, usize) = (t * k_len, t * v_len);
    let state: usize = h_v * d * d;
    let lens: Vec<usize> = vec![k, k, v, gates];
    assert(lens_of(lens@) =~= ar_inputs(t as int, h_k as int, h_v as int, d as int));
    let inputs = draw_runs(SEED_GOLDEN, &lens);
    let frames: Vec<usize> = vec![k, k, v, gates, state, state, v, v];
    assert(lens_of(frames@) =~= ar_frames(t as int, h_k as int, h_v as int, d as int));
    let n: usize = t / per;
    let mut bands: Vec<ArBand> = Vec::new();
    let mut c: usize = 0;
    while c < n
        invariant
            per > 0,
            t % per == 0,
            n == t / per,
            k_len == h_k * d,
            v_len == h_v * d,
            t * k_len <= usize::MAX,
            t * v_len <= usize::MAX,
            t * (h_v * 2) <= usize::MAX,
            h_v * 2 <= usize::MAX,
            c <= n,
            bands@.len() == c,
            forall|i: int|
                0 <= i < c ==> #[trigger] bands@[i] == (ArBand {
                    q: band(per as int, h_k * d, i),
                    k: band(per as int, h_k * d, i),
                    v: band(per as int, h_v * d, i),
                    gates: band(per as int, h_v * 2, i),
                    out: band(per as int, h_v * d, i),
                }),
        decreases n - c,
    {
        bands.push(
            ArBand {
                q: view(per, k_len, c, t),
                k: view(per, k_len, c, t),
                v: view(per, v_len, c, t),
                gates: view(per, h_v * 2, c, t),
                out: view(per, v_len, c, t),
            },
        );
        c = c + 1;
    }
    Ok(ArInvariance { frames, inputs, bands })
}

/// One band of the convolution: views of input and output.
#[derive(Clone, Copy, PartialEq, Eq, Structural, Debug)]
pub struct ConvBand {
    pub qkv: Rows,
    pub out: Rows,
}

/// The probe of the convolution: frame lengths, draws, and the bands.
pub struct ConvInvariance {
    /// Input, weights, the two ring states and the two outputs.
    pub frames: Vec<usize>,
    /// Input and weights.
    pub inputs: Vec<Vec<u32>>,
    pub bands: Vec<ConvBand>,
}

pub open spec fn conv_frames(t: int, ch: int, k: int) -> Seq<int> {
    seq![t * ch, ch * k, (k - 1) * ch, (k - 1) * ch, t * ch, t * ch]
}

/// Plans the probe of the convolution with `k` taps. A band shorter than the ring
/// is refused too.
pub fn gdn_conv_invariance(t: usize, per: usize, ch: usize, k: usize) -> (r: Result<
    ConvInvariance,
    ProbeError,
>)
    requires
        k >= 1,
        t * ch <= usize::MAX,
        ch * k <= usize::MAX,
    ensures
        if bad_bands(t as int, per as int) || per < k - 1 {
            r == Err::<ConvInvariance, ProbeError>(ProbeError::Bands { t, per })
        } else {
            r matches Ok(p) && {
                &&& lens_of(p.frames@) == conv_frames(t as int, ch as int, k as int)
                &&& p.inputs@.len() == 2
                &&& forall|i: int|
                    0 <= i < 2 ==> (#[trigger] p.inputs@[i])@ == runs(
                        SEED_PI,
                        seq![t * ch, ch * k],
                        i,
                    )
                &&& p.bands@.len() == t as int / per as int
                &&& forall|c: int|
                    0 <= c < p.bands@.len() ==> #[trigger] p.bands@[c] == (ConvBand {
                        qkv: band(per as int, ch as int, c),
                        out: band(per as int, ch as int, c),
                    })
            }
        },
{
    if per == 0 || t % per != 0 || t == per || per < k - 1 {
        return Err(ProbeError::Bands { t, per });
    }
    proof {
        assert(0 <= (k - 1) * ch <= ch * k) by (nonlinear_arith)
            requires
                1 <= k,
                0 <= ch,
        ;
    }
    let x: usize = t * ch;
    let ring: usize = (k - 1) * ch;
    let lens: Vec<usize> = vec![x, ch * k];
    assert(lens_of(lens@) =~= seq![t * ch, ch * k]);
    let inputs = draw_runs(SEED_PI, &lens);
    let frames: Vec<usize> = vec![x, ch * k, ring, ring, x, x];
    assert(lens_of(frames@) =~= conv_frames(t as int, ch as int, k as int));
    let n: usize = t / per;
    let mut bands: Vec<ConvBand> = Vec::new();
    let mut c: usize = 0;
    while c < n
        invariant
            per > 0,
            t % per == 0,
            n == t / per,
            t * ch <= usize::MAX,
            c <= n,
            bands@.len() == c,
            forall|i: int|
                0 <= i < c ==> #[trigger] bands@[i] == (ConvBand {
                    qkv: band(per as int, ch as int, i),
                    out: band(per as int, ch as int, i),
                }),
        decreases n - c,
    {
        bands.push(ConvBand { qkv: view(per, ch, c, t), out: view(per, ch, c, t) });
        c = c + 1;
    }
    Ok(ConvInvariance { frames, inputs, bands })
}

} // verus!
