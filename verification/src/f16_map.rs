//! The probe that finds out which column of a half-precision product meets which
//! value of the activations.

use vstd::prelude::*;
use crate::arith::max_usize;
use crate::blocks::Pattern;
use crate::checks::{pbuf, proom, spec_pbuf, spec_proom};
use crate::compare::{find_large, large_places, value_exceeds, exceeds};
use crate::device::{Attempt, Cmd, Host, MatMul, Ptr};
use crate::synth::unit_sum;

verus! {

/// Output rows of the probe.
pub const MAP_ROWS: usize = 256;

/// Block columns that are probed.
pub const MAP_BLOCKS: usize = 8;

/// The bit pattern of one quarter: results above it count as set.
pub const QUARTER: u32 = 0x3e80_0000;

/// Row length of the probe.
pub open spec fn spec_map_len(arg: int) -> int {
    vstd::math::max(arg, 128)
}

/// Sizes of the probe can be counted.
pub open spec fn map_fits(n_in: int) -> bool {
    n_in * 2048 + 2048 <= usize::MAX
}

/// Buffer `k` that block column `b` gets for itself.
pub open spec fn own_buf(b: int, k: int) -> usize {
    (3 + 10 * b + k) as usize
}

/// A product through a half-precision copy, and the way back of its result.
pub open spec fn run_f16(x: Ptr, w: Ptr, n_in: usize, n_out: usize, t: usize, out: usize) -> Seq<
    Cmd,
> {
    seq![
        Cmd::Must(
            Attempt::F16Deq(
                MatMul { ty: 8, x, w, n_in, n_out, xq_w: 0, t, out: spec_pbuf(out) },
            ),
        ),
        Cmd::Sync,
        Cmd::D2h { dst: Host::Y, src: spec_pbuf(out), bytes: (t * n_out * 4) as usize },
    ]
}

/// The products of the first `n` unit vectors with the weights in buffer `w`.
pub open spec fn unit_scan(w: usize, n_in: usize, n: int) -> Seq<Cmd>
    decreases n,
{
    if n <= 0 {
        Seq::empty()
    } else {
        unit_scan(w, n_in, n - 1) + one_unit(w, n_in, n - 1)
    }
}

/// The product of unit vector `k` with the weights in buffer `w`.
pub open spec fn one_unit(w: usize, n_in: usize, k: int) -> Seq<Cmd> {
    seq![
        Cmd::H2d {
            dst: spec_pbuf(1),
            src: Host::Unit { n: n_in, k: k as usize },
            bytes: (n_in * 4) as usize,
        },
    ] + run_f16(spec_pbuf(1), spec_pbuf(w), n_in, MAP_ROWS, 1, 2)
}

/// Activations of all ones in buffer 1.
pub open spec fn load_ones(n_in: usize) -> Cmd {
    Cmd::H2d { dst: spec_pbuf(1), src: Host::Ones { n: n_in }, bytes: (n_in * 4) as usize }
}

/// Fresh weights of a pattern in a buffer of their own, and their product with
/// the activations as they are.
pub open spec fn fresh_weights(id: usize, p: Pattern, n_in: usize) -> Seq<Cmd> {
    let n_sub = n_in / 32;
    let bytes = MAP_ROWS * n_sub * 34;
    seq![
        spec_proom(id, bytes),
        Cmd::H2d {
            dst: spec_pbuf(id),
            src: Host::Q8 { p, rows: MAP_ROWS, n_sub },
            bytes: bytes as usize,
        },
    ]
}

/// Single-element weights: for each of the first `n` columns a row of its own
/// with a one there, each multiplied by the activations as they are.
pub open spec fn coverage_scan(id: usize, n_in: usize, n: int) -> Seq<Cmd>
    decreases n,
{
    if n <= 0 {
        Seq::empty()
    } else {
        coverage_scan(id, n_in, n - 1) + one_cover(id, n_in, n - 1)
    }
}

/// The single-element weight of column `j`.
pub open spec fn one_cover(id: usize, n_in: usize, j: int) -> Seq<Cmd> {
    let row = n_in / 32 * 34;
    seq![
        Cmd::H2d {
            dst: spec_pbuf(id).spec_at(j * row + j / 32 * 34),
            src: Host::Q8Single { l: (j % 32) as usize },
            bytes: 34,
        },
    ] + run_f16(spec_pbuf(1), spec_pbuf(id).spec_at(j * row), n_in, 1, 1, 2)
}

/// Columns whose label is read back.
pub open spec fn label_columns() -> Seq<usize> {
    seq![0usize, 1, 2, 5, 16, 31, 32, 33, 63, 64, 127, 128, 200, 255]
}

/// The columns whose label is read back.
pub fn labels() -> (r: Vec<usize>)
    ensures
        r@ == label_columns(),
{
    let r: Vec<usize> = vec![0, 1, 2, 5, 16, 31, 32, 33, 63, 64, 127, 128, 200, 255];
    assert(r@ =~= label_columns());
    r
}

/// The products of the first `n` label columns that exist.
pub open spec fn label_scan(n_in: usize, n: int) -> Seq<Cmd>
    decreases n,
{
    if n <= 0 {
        Seq::empty()
    } else {
        label_scan(n_in, n - 1) + if label_columns()[n - 1] < n_in {
            one_unit(0, n_in, label_columns()[n - 1] as int)
        } else {
            Seq::empty()
        }
    }
}

/// Weights of a pattern in a buffer of their own, and their product with the
/// activations as they are.
pub open spec fn try_pattern(id: usize, p: Pattern, n_in: usize) -> Seq<Cmd> {
    fresh_weights(id, p, n_in) + run_f16(spec_pbuf(1), spec_pbuf(id), n_in, MAP_ROWS, 1, 2)
}

/// Weights of a pattern in buffer 0.
pub open spec fn load_pattern(p: Pattern, n_in: usize) -> Seq<Cmd> {
    let n_sub = n_in / 32;
    seq![
        Cmd::H2d {
            dst: spec_pbuf(0),
            src: Host::Q8 { p, rows: MAP_ROWS, n_sub },
            bytes: (MAP_ROWS * n_sub * 34) as usize,
        },
    ]
}

/// Weights of all ones in a buffer of their own, and their product with
/// activations of all ones.
pub open spec fn try_ones(id: usize, n_in: usize) -> Seq<Cmd> {
    fresh_weights(id, Pattern::Ones, n_in) + seq![load_ones(n_in)] + run_f16(spec_pbuf(1), spec_pbuf(id), n_in, MAP_ROWS, 1, 2)
}

/// Single-element weights for every column, out of a buffer of zeros.
pub open spec fn cover_all(id: usize, n_in: usize) -> Seq<Cmd> {
    let bytes = (n_in + 1) * (n_in / 32 * 34);
    seq![
        spec_proom(id, bytes),
        Cmd::H2d {
            dst: spec_pbuf(id),
            src: Host::Zeros { bytes: bytes as usize },
            bytes: bytes as usize,
        },
    ] + coverage_scan(id, n_in, n_in as int)
}

/// A batch of 256 rows, some with a one, times weights of all ones.
pub open spec fn try_batch(xt: usize, ones: usize, ot: usize, n_in: usize) -> Seq<Cmd> {
    seq![
        spec_proom(xt, 256 * n_in * 4),
        Cmd::H2d {
            dst: spec_pbuf(xt),
            src: Host::UnitRows { n: n_in },
            bytes: (256 * n_in * 4) as usize,
        },
        spec_proom(ot, 262144),
    ] + run_f16(spec_pbuf(xt), spec_pbuf(ones), n_in, MAP_ROWS, 256, ot)
}

/// The program of block column `b`: where each unit vector meets the block; the
/// values of all-one products; which columns the all-one weights reach; the ramps
/// and the single elements over activations of all ones; the labels; the batch.
pub open spec fn map_program(n_in: usize, b: int) -> Seq<Cmd> {
    load_pattern(Pattern::Identity { b: b as usize }, n_in) + unit_scan(0, n_in, n_in as int)
        + try_ones(own_buf(b, 0), n_in) + try_pattern(own_buf(b, 1), Pattern::Twos, n_in)
        + unit_scan(own_buf(b, 0), n_in, n_in as int) + seq![load_ones(n_in)] + try_pattern(
        own_buf(b, 2),
        Pattern::RampFirst { nb: 1 },
        n_in,
    ) + try_pattern(own_buf(b, 3), Pattern::RampFirst { nb: 2 }, n_in) + try_pattern(
        own_buf(b, 4),
        Pattern::RampFirst { nb: 8 },
        n_in,
    ) + try_pattern(own_buf(b, 5), Pattern::Ramp, n_in) + try_pattern(
        own_buf(b, 6),
        Pattern::RampFirst { nb: 1 },
        n_in,
    ) + cover_all(own_buf(b, 7), n_in) + load_pattern(Pattern::Labels, n_in) + label_scan(
        n_in,
        label_columns().len() as int,
    ) + try_batch(own_buf(b, 8), own_buf(b, 0), own_buf(b, 9), n_in)
}

/// Room for weights, activations and results.
pub open spec fn map_setup(n_in: usize) -> Seq<Cmd> {
    seq![
        spec_proom(0, MAP_ROWS * (n_in / 32) * 34),
        spec_proom(1, n_in * 4 * 8),
        spec_proom(2, 524288),
    ]
}

fn f16_cmds(x: Ptr, w: Ptr, n_in: usize, n_out: usize, t: usize, out: usize) -> (r: Vec<Cmd>)
    requires
        n_out <= 256,
        t <= 256,
    ensures
        r@ == run_f16(x, w, n_in, n_out, t, out),
{
    assert(t * n_out <= 65536) by (nonlinear_arith)
        requires
            0 <= t <= 256,
            0 <= n_out <= 256,
    ;
    vec![
        Cmd::Must(
            Attempt::F16Deq(MatMul { ty: 8, x, w, n_in, n_out, xq_w: 0, t, out: pbuf(out) }),
        ),
        Cmd::Sync,
        Cmd::D2h { dst: Host::Y, src: pbuf(out), bytes: t * n_out * 4 },
    ]
}

fn unit_cmds(w: usize, n_in: usize, k: usize) -> (r: Vec<Cmd>)
    requires
        map_fits(n_in as int),
    ensures
        r@ == one_unit(w, n_in, k as int),
{
    let mut r: Vec<Cmd> = vec![
        Cmd::H2d { dst: pbuf(1), src: Host::Unit { n: n_in, k }, bytes: n_in * 4 },
    ];
    let mut f = f16_cmds(pbuf(1), pbuf(w), n_in, MAP_ROWS, 1, 2);
    r.append(&mut f);
    r
}

fn unit_scan_cmds(w: usize, n_in: usize) -> (r: Vec<Cmd>)
    requires
        map_fits(n_in as int),
    ensures
        r@ == unit_scan(w, n_in, n_in as int),
{
    let mut r: Vec<Cmd> = Vec::new();
    let mut k: usize = 0;
    while k < n_in
        invariant
            map_fits(n_in as int),
            k <= n_in,
            r@ == unit_scan(w, n_in, k as int),
        decreases n_in - k,
    {
        let mut c = unit_cmds(w, n_in, k);
        r.append(&mut c);
        k = k + 1;
    }
    r
}

fn fresh_cmds(id: usize, p: Pattern, n_in: usize) -> (r: Vec<Cmd>)
    requires
        map_fits(n_in as int),
    ensures
        r@ == try_pattern(id, p, n_in),
{
    let n_sub: usize = n_in / 32;
    let bytes: usize = MAP_ROWS * n_sub * 34;
    let mut r: Vec<Cmd> = vec![
        proom(id, bytes),
        Cmd::H2d { dst: pbuf(id), src: Host::Q8 { p, rows: MAP_ROWS, n_sub }, bytes },
    ];
    let mut f = f16_cmds(pbuf(1), pbuf(id), n_in, MAP_ROWS, 1, 2);
    r.append(&mut f);
    r
}

fn coverage_cmds(id: usize, n_in: usize) -> (r: Vec<Cmd>)
    requires
        map_fits(n_in as int),
        (n_in + 1) * (n_in / 32 * 34) <= usize::MAX,
    ensures
        r@ == coverage_scan(id, n_in, n_in as int),
{
    let row: usize = n_in / 32 * 34;
    let mut r: Vec<Cmd> = Vec::new();
    let mut j: usize = 0;
    while j < n_in
        invariant
            map_fits(n_in as int),
            (n_in + 1) * (n_in / 32 * 34) <= usize::MAX,
            row == n_in / 32 * 34,
            j <= n_in,
            r@ == coverage_scan(id, n_in, j as int),
        decreases n_in - j,
    {
        proof {
            assert(0 <= j * row && j * row + row <= (n_in + 1) * row) by (nonlinear_arith)
                requires
                    0 <= j < n_in,
                    0 <= row,
            ;
            assert(j / 32 * 34 <= row);
        }
        r.push(
            Cmd::H2d {
                dst: pbuf(id).at(j * row + j / 32 * 34),
                src: Host::Q8Single { l: j % 32 },
                bytes: 34,
            },
        );
        let mut f = f16_cmds(pbuf(1), pbuf(id).at(j * row), n_in, 1, 1, 2);
        r.append(&mut f);
        proof {
            assert(r@ =~= coverage_scan(id, n_in, j as int) + one_cover(id, n_in, j as int));
        }
        j = j + 1;
    }
    r
}

fn label_cmds(n_in: usize) -> (r: Vec<Cmd>)
    requires
        map_fits(n_in as int),
    ensures
        r@ == label_scan(n_in, label_columns().len() as int),
{
    let cols = labels();
    let mut r: Vec<Cmd> = Vec::new();
    let mut i: usize = 0;
    while i < cols.len()
        invariant
            map_fits(n_in as int),
            cols@ == label_columns(),
            i <= cols@.len(),
            r@ == label_scan(n_in, i as int),
        decreases cols@.len() - i,
    {
        let j: usize = cols[i];
        let ghost r0 = r@;
        if j < n_in {
            let mut c = unit_cmds(0, n_in, j);
            r.append(&mut c);
        }
        proof {
            assert(r@ =~= label_scan(n_in, i + 1));
        }
        i = i + 1;
    }
    r
}

/// A probe over rows of `n_in` values: the buffers to set up, then one program
/// per block column.
pub struct F16Map {
    pub n_in: usize,
    pub setup: Vec<Cmd>,
    pub blocks: Vec<Vec<Cmd>>,
}

fn load_cmds(p: Pattern, n_in: usize) -> (r: Vec<Cmd>)
    requires
        map_fits(n_in as int),
    ensures
        r@ == load_pattern(p, n_in),
{
    let n_sub: usize = n_in / 32;
    let bytes: usize = MAP_ROWS * n_sub * 34;
    vec![Cmd::H2d { dst: pbuf(0), src: Host::Q8 { p, rows: MAP_ROWS, n_sub }, bytes }]
}

fn ones(n_in: usize) -> (r: Cmd)
    requires
        map_fits(n_in as int),
    ensures
        r == load_ones(n_in),
{
    Cmd::H2d { dst: pbuf(1), src: Host::Ones { n: n_in }, bytes: n_in * 4 }
}

fn ones_cmds(id: usize, n_in: usize) -> (r: Vec<Cmd>)
    requires
        map_fits(n_in as int),
    ensures
        r@ == try_ones(id, n_in),
{
    let n_sub: usize = n_in / 32;
    let bytes: usize = MAP_ROWS * n_sub * 34;
    let mut r: Vec<Cmd> = vec![
        proom(id, bytes),
        Cmd::H2d {
            dst: pbuf(id),
            src: Host::Q8 { p: Pattern::Ones, rows: MAP_ROWS, n_sub },
            bytes,
        },
        ones(n_in),
    ];
    let mut f = f16_cmds(pbuf(1), pbuf(id), n_in, MAP_ROWS, 1, 2);
    r.append(&mut f);
    assert(r@ =~= try_ones(id, n_in));
    r
}

fn cover_cmds(id: usize, n_in: usize) -> (r: Vec<Cmd>)
    requires
        map_fits(n_in as int),
        (n_in + 1) * (n_in / 32 * 34) <= usize::MAX,
    ensures
        r@ == cover_all(id, n_in),
{
    let row: usize = n_in / 32 * 34;
    let bytes: usize = (n_in + 1) * row;
    let mut r: Vec<Cmd> = vec![
        proom(id, bytes),
        Cmd::H2d { dst: pbuf(id), src: Host::Zeros { bytes }, bytes },
    ];
    let mut c = coverage_cmds(id, n_in);
    r.append(&mut c);
    r
}

fn batch_cmds(xt: usize, ones: usize, ot: usize, n_in: usize) -> (r: Vec<Cmd>)
    requires
        map_fits(n_in as int),
    ensures
        r@ == try_batch(xt, ones, ot, n_in),
{
    let mut r: Vec<Cmd> = vec![
        proom(xt, 256 * n_in * 4),
        Cmd::H2d { dst: pbuf(xt), src: Host::UnitRows { n: n_in }, bytes: 256 * n_in * 4 },
        proom(ot, 262144),
    ];
    let mut f = f16_cmds(pbuf(xt), pbuf(ones), n_in, MAP_ROWS, 256, ot);
    r.append(&mut f);
    r
}

fn block_cmds(n_in: usize, b: usize) -> (r: Vec<Cmd>)
    requires
        map_fits(n_in as int),
        (n_in + 1) * (n_in / 32 * 34) <= usize::MAX,
        b < MAP_BLOCKS,
    ensures
        r@ == map_program(n_in, b as int),
{
    let at: usize = 3 + 10 * b;
    let mut r = load_cmds(Pattern::Identity { b }, n_in);
    let mut p1 = unit_scan_cmds(0, n_in);
    r.append(&mut p1);
    let mut p2 = ones_cmds(at, n_in);
    r.append(&mut p2);
    let mut p3 = fresh_cmds(at + 1, Pattern::Twos, n_in);
    r.append(&mut p3);
    let mut p4 = unit_scan_cmds(at, n_in);
    r.append(&mut p4);
    r.push(ones(n_in));
    let mut p5 = fresh_cmds(at + 2, Pattern::RampFirst { nb: 1 }, n_in);
    r.append(&mut p5);
    let mut p6 = fresh_cmds(at + 3, Pattern::RampFirst { nb: 2 }, n_in);
    r.append(&mut p6);
    let mut p7 = fresh_cmds(at + 4, Pattern::RampFirst { nb: 8 }, n_in);
    r.append(&mut p7);
    let mut p8 = fresh_cmds(at + 5, Pattern::Ramp, n_in);
    r.append(&mut p8);
    let mut p9 = fresh_cmds(at + 6, Pattern::RampFirst { nb: 1 }, n_in);
    r.append(&mut p9);
    let mut p10 = cover_cmds(at + 7, n_in);
    r.append(&mut p10);
    let mut p11 = load_cmds(Pattern::Labels, n_in);
    r.append(&mut p11);
    let mut p12 = label_cmds(n_in);
    r.append(&mut p12);
    let mut p13 = batch_cmds(at + 8, at, at + 9, n_in);
    r.append(&mut p13);
    r
}

/// Plans the probe. Rows are at least 128 values long.
pub fn f16_map(arg: usize) -> (r: F16Map)
    requires
        map_fits(spec_map_len(arg as int)),
        (spec_map_len(arg as int) + 1) * (spec_map_len(arg as int) / 32 * 34) <= usize::MAX,
    ensures
        r.n_in == spec_map_len(arg as int),
        r.setup@ == map_setup(r.n_in),
        r.blocks@.len() == MAP_BLOCKS,
        forall|b: int|
            0 <= b < MAP_BLOCKS ==> (#[trigger] r.blocks@[b])@ == map_program(r.n_in, b),
{
    let n_in: usize = max_usize(arg, 128);
    let setup: Vec<Cmd> = vec![
        proom(0, MAP_ROWS * (n_in / 32) * 34),
        proom(1, n_in * 4 * 8),
        proom(2, 256 * 4 * 512),
    ];
    let mut blocks: Vec<Vec<Cmd>> = Vec::new();
    let mut b: usize = 0;
    while b < MAP_BLOCKS
        invariant
            map_fits(n_in as int),
            (n_in + 1) * (n_in / 32 * 34) <= usize::MAX,
            b <= MAP_BLOCKS,
            blocks@.len() == b,
            forall|k: int| 0 <= k < b ==> (#[trigger] blocks@[k])@ == map_program(n_in, k),
        decreases MAP_BLOCKS - b,
    {
        blocks.push(block_cmds(n_in, b));
        b = b + 1;
    }
    F16Map { n_in, setup, blocks }
}

/// Rows of the batch that carry a one.
pub open spec fn batch_rows() -> Seq<usize> {
    seq![0usize, 1, 127, 128, 129, 255]
}

/// The rows of the batch that carry a one.
pub fn marked_rows() -> (r: Vec<usize>)
    ensures
        r@ == batch_rows(),
{
    let r: Vec<usize> = vec![0, 1, 127, 128, 129, 255];
    assert(r@ =~= batch_rows());
    r
}

/// The activations of the batch: row `r` of `batch_rows` has a one at column
/// `r mod 7 + 3`.
pub fn unit_rows(n_in: usize) -> (x: Vec<u32>)
    requires
        n_in >= 10,
        256 * n_in <= usize::MAX,
    ensures
        x@.len() == 256 * n_in,
        forall|i: int|
            0 <= i < 256 * n_in ==> #[trigger] x@[i] == if exists|k: int|
                0 <= k < 6 && i == #[trigger] batch_rows()[k] * n_in + (batch_rows()[k] % 7 + 3) {
                crate::ops::ONE
            } else {
                0u32
            },
{
    let rows = marked_rows();
    let mut ks: Vec<usize> = Vec::new();
    let mut i: usize = 0;
    while i < 6
        invariant
            n_in >= 10,
            256 * n_in <= usize::MAX,
            rows@ == batch_rows(),
            i <= 6,
            ks@.len() == i,
            forall|k: int|
                0 <= k < i ==> #[trigger] ks@[k] == batch_rows()[k] * n_in + (batch_rows()[k] % 7
                    + 3) && ks@[k] < 256 * n_in,
        decreases 6 - i,
    {
        let r: usize = rows[i];
        proof {
            assert(r <= 255);
            assert(0 <= r * n_in && r * n_in + n_in <= 256 * n_in) by (nonlinear_arith)
                requires
                    0 <= r <= 255,
                    0 <= n_in,
            ;
        }
        ks.push(r * n_in + (r % 7 + 3));
        i = i + 1;
    }
    let x = unit_sum(256 * n_in, &ks);
    proof {
        assert forall|i: int| 0 <= i < 256 * n_in implies #[trigger] x@[i] == if exists|k: int|
            0 <= k < 6 && i == #[trigger] batch_rows()[k] * n_in + (batch_rows()[k] % 7 + 3) {
            crate::ops::ONE
        } else {
            0u32
        } by {
            if ks@.contains(i as usize) {
                let k = choose|k: int| 0 <= k < ks@.len() && ks@[k] == i as usize;
                assert(i == batch_rows()[k] * n_in + (batch_rows()[k] % 7 + 3));
            }
            if exists|k: int|
                0 <= k < 6 && i == #[trigger] batch_rows()[k] * n_in + (batch_rows()[k] % 7 + 3) {
                let k = choose|k: int|
                    0 <= k < 6 && i == #[trigger] batch_rows()[k] * n_in + (batch_rows()[k] % 7
                        + 3);
                assert(ks@[k] == i as usize);
            }
        }
    }
    x
}

/// Where a unit vector came out.
#[derive(Clone, Copy, PartialEq, Eq, Structural, Debug)]
pub enum Hit {
    One { at: usize },
    Nowhere,
    Several { first: usize },
}

pub open spec fn spec_hit(out: Seq<u32>) -> Hit {
    let p = large_places(out, QUARTER, out.len() as int);
    if p.len() == 1 {
        Hit::One { at: p[0] }
    } else if p.len() == 0 {
        Hit::Nowhere
    } else {
        Hit::Several { first: p[0] }
    }
}

/// Reads where a unit vector came out.
pub fn hit_of(out: &[u32]) -> (r: Hit)
    ensures
        r == spec_hit(out@),
{
    let p = find_large(out, QUARTER);
    if p.len() == 1 {
        Hit::One { at: p[0] }
    } else if p.len() == 0 {
        Hit::Nowhere
    } else {
        Hit::Several { first: p[0] }
    }
}

/// How many unit vectors came out in one place, and how many nowhere or in
/// several.
#[derive(Clone, Copy, PartialEq, Eq, Structural, Debug)]
pub struct HitCount {
    pub one: usize,
    pub nowhere: usize,
    /// Counts those that came out nowhere too.
    pub not_one: usize,
}

pub open spec fn spec_count(hits: Seq<Hit>) -> HitCount
    decreases hits.len(),
{
    if hits.len() == 0 {
        HitCount { one: 0, nowhere: 0, not_one: 0 }
    } else {
        let c = spec_count(hits.drop_last());
        match hits.last() {
            Hit::One { .. } => HitCount { one: (c.one + 1) as usize, ..c },
            Hit::Nowhere => HitCount {
                nowhere: (c.nowhere + 1) as usize,
                not_one: (c.not_one + 1) as usize,
                ..c
            },
            Hit::Several { .. } => HitCount { not_one: (c.not_one + 1) as usize, ..c },
        }
    }
}

/// Counts the hits of a scan.
pub fn count_hits(hits: &Vec<Hit>) -> (r: HitCount)
    ensures
        r == spec_count(hits@),
{
    let mut c = HitCount { one: 0, nowhere: 0, not_one: 0 };
    let mut i: usize = 0;
    while i < hits.len()
        invariant
            i <= hits@.len(),
            c == spec_count(hits@.take(i as int)),
            c.one <= i,
            c.nowhere <= i,
            c.not_one <= i,
        decreases hits@.len() - i,
    {
        assert(hits@.take(i + 1).drop_last() =~= hits@.take(i as int));
        match hits[i] {
            Hit::One { .. } => {
                c.one = c.one + 1;
            },
            Hit::Nowhere => {
                c.nowhere = c.nowhere + 1;
                c.not_one = c.not_one + 1;
            },
            Hit::Several { .. } => {
                c.not_one = c.not_one + 1;
            },
        }
        i = i + 1;
    }
    assert(hits@.take(i as int) =~= hits@);
    c
}

/// The columns of a scan whose first output is set, and the others.
pub struct Split {
    pub set: Vec<usize>,
    pub unset: Vec<usize>,
}

/// The columns below `n` whose first output is set (`want`) or not.
pub open spec fn columns_where(first: Seq<u32>, want: bool, n: int) -> Seq<usize>
    decreases n,
{
    if n <= 0 {
        Seq::empty()
    } else if exceeds(first[n - 1], QUARTER) == want {
        columns_where(first, want, n - 1).push((n - 1) as usize)
    } else {
        columns_where(first, want, n - 1)
    }
}

/// Splits the columns of a scan by their first output.
pub fn split_columns(first: &[u32]) -> (r: Split)
    ensures
        r.set@ == columns_where(first@, true, first@.len() as int),
        r.unset@ == columns_where(first@, false, first@.len() as int),
{
    let mut set: Vec<usize> = Vec::new();
    let mut unset: Vec<usize> = Vec::new();
    let mut j: usize = 0;
    while j < first.len()
        invariant
            j <= first@.len(),
            set@ == columns_where(first@, true, j as int),
            unset@ == columns_where(first@, false, j as int),
        decreases first@.len() - j,
    {
        if value_exceeds(first[j], QUARTER) {
            set.push(j);
        } else {
            unset.push(j);
        }
        j = j + 1;
    }
    Split { set, unset }
}

} // verus!
