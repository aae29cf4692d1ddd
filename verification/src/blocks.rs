//! Synthetic weight blocks for checks and probes.

use vstd::prelude::*;

verus! {

/// Bytes of a q8_0 block: a half-precision scale and 32 signed values.
pub const Q8_BYTES: usize = 34;

/// Bytes of a q4_K super block of 256 values.
pub const Q4K_BYTES: usize = 144;

/// Bytes of an iq3_s super block of 256 values.
pub const IQ3S_BYTES: usize = 110;

/// Contents of a synthetic q8_0 matrix.
#[derive(Clone, Copy, PartialEq, Eq, Structural, Debug)]
pub enum Pattern {
    /// Only block column `b` is set: row `32 b + l` has a one at value `l`.
    Identity { b: usize },
    /// Scale 1, all values 1.
    Ones,
    /// Scale 1/2, all values 2.
    Twos,
    /// Block column `s` has scale `(s mod 16 + 1) / 16` and the values -16 .. 15.
    Ramp,
    /// The first `nb` block columns have scale 1/16 and the values -16 .. 15, the
    /// rest is zero.
    RampFirst { nb: usize },
    /// Row 0 has scale 1 and the column number modulo 127, plus one; the rest is
    /// zero.
    Labels,
}

/// The half-precision pattern of `k / 16` for `k` from 1 to 16: exponent and
/// fraction of the number by its highest bit.
pub open spec fn sixteenths(k: int) -> int {
    if k >= 16 {
        0x3C00
    } else if k >= 8 {
        0x3800 + (k - 8) * 128
    } else if k >= 4 {
        0x3400 + (k - 4) * 256
    } else if k >= 2 {
        0x3000 + (k - 2) * 512
    } else {
        0x2C00
    }
}

/// The patterns of the sixteenths stand for those numbers.
pub proof fn law_sixteenths(k: int)
    requires
        1 <= k <= 16,
    ensures
        crate::half::half_units(sixteenths(k) as u16) == k * 0x10_0000,
{
    vstd::arithmetic::power2::lemma2_to64();
    let h = sixteenths(k) as u16;
    let e = h / 1024 % 32;
    let m = (h % 1024) as int;
    let q = vstd::arithmetic::power2::pow2((e - 1) as nat) as int;
    assert(h / 0x8000 == 0);
    if k >= 16 {
        assert(e == 15 && m == 0);
        assert(q == 0x4000);
        assert((m + 1024) * q == (m + 1024) * 0x4000) by (nonlinear_arith)
            requires
                q == 0x4000,
        ;
    } else if k >= 8 {
        assert(e == 14 && m == (k - 8) * 128);
        assert(q == 0x2000);
        assert((m + 1024) * q == (m + 1024) * 0x2000) by (nonlinear_arith)
            requires
                q == 0x2000,
        ;
    } else if k >= 4 {
        assert(e == 13 && m == (k - 4) * 256);
        assert(q == 0x1000);
        assert((m + 1024) * q == (m + 1024) * 0x1000) by (nonlinear_arith)
            requires
                q == 0x1000,
        ;
    } else if k >= 2 {
        assert(e == 12 && m == (k - 2) * 512);
        assert(q == 0x800);
        assert((m + 1024) * q == (m + 1024) * 0x800) by (nonlinear_arith)
            requires
                q == 0x800,
        ;
    } else {
        assert(e == 11 && m == 0);
        assert(q == 0x400);
        assert((m + 1024) * q == (m + 1024) * 0x400) by (nonlinear_arith)
            requires
                q == 0x400,
        ;
    }
}

/// The scale of block column `s` in row `o`, as a half-precision pattern.
pub open spec fn pattern_scale(p: Pattern, o: int, s: int) -> int {
    match p {
        Pattern::Identity { b } => if s == b {
            0x3C00
        } else {
            0
        },
        Pattern::Ones => 0x3C00,
        Pattern::Twos => 0x3800,
        Pattern::Ramp => sixteenths(s % 16 + 1),
        Pattern::RampFirst { nb } => if s < nb {
            sixteenths(1)
        } else {
            0
        },
        Pattern::Labels => if o == 0 {
            0x3C00
        } else {
            0
        },
    }
}

/// Value `l` of block column `s` in row `o`.
pub open spec fn pattern_value(p: Pattern, o: int, s: int, l: int) -> int {
    match p {
        Pattern::Identity { b } => if s == b && o == b * 32 + l {
            1
        } else {
            0
        },
        Pattern::Ones => 1,
        Pattern::Twos => 2,
        Pattern::Ramp => l - 16,
        Pattern::RampFirst { nb } => if s < nb {
            l - 16
        } else {
            0
        },
        Pattern::Labels => if o == 0 {
            (s * 32 + l) % 127 + 1
        } else {
            0
        },
    }
}

/// Byte `i` of a block: the scale, low byte first, then the values.
pub open spec fn pattern_byte(p: Pattern, o: int, s: int, i: int) -> u8 {
    if i == 0 {
        (pattern_scale(p, o, s) % 256) as u8
    } else if i == 1 {
        (pattern_scale(p, o, s) / 256) as u8
    } else {
        let v = pattern_value(p, o, s, i - 2);
        (if v < 0 {
            v + 256
        } else {
            v
        }) as u8
    }
}

/// The matrix of `rows` rows of `n_sub` blocks.
pub open spec fn pattern_matrix(p: Pattern, rows: int, n_sub: int) -> Seq<u8> {
    Seq::new(
        (rows * n_sub * 34) as nat,
        |i: int| pattern_byte(p, i / 34 / n_sub, i / 34 % n_sub, i % 34),
    )
}

fn scale_of(p: Pattern, o: usize, s: usize) -> (r: u16)
    ensures
        r == pattern_scale(p, o as int, s as int),
{
    match p {
        Pattern::Identity { b } => if s == b {
            0x3C00
        } else {
            0
        },
        Pattern::Ones => 0x3C00,
        Pattern::Twos => 0x3800,
        Pattern::Ramp => {
            let k: u16 = (s % 16) as u16 + 1;
            if k >= 16 {
                0x3C00
            } else if k >= 8 {
                0x3800 + (k - 8) * 128
            } else if k >= 4 {
                0x3400 + (k - 4) * 256
            } else if k >= 2 {
                0x3000 + (k - 2) * 512
            } else {
                0x2C00
            }
        },
        Pattern::RampFirst { nb } => if s < nb {
            0x2C00
        } else {
            0
        },
        Pattern::Labels => if o == 0 {
            0x3C00
        } else {
            0
        },
    }
}

fn byte_of(p: Pattern, o: usize, s: usize, i: usize) -> (r: u8)
    requires
        i < 34,
        s * 32 + 32 <= usize::MAX,
        p matches Pattern::Identity { b } ==> b * 32 + 32 <= usize::MAX,
    ensures
        r == pattern_byte(p, o as int, s as int, i as int),
{
    if i == 0 {
        return (scale_of(p, o, s) % 256) as u8;
    }
    if i == 1 {
        return (scale_of(p, o, s) / 256) as u8;
    }
    let l: usize = i - 2;
    let ramp: u8 = if l < 16 {
        (l + 240) as u8
    } else {
        (l - 16) as u8
    };
    match p {
        Pattern::Identity { b } => if s == b && o == b * 32 + l {
            1
        } else {
            0
        },
        Pattern::Ones => 1,
        Pattern::Twos => 2,
        Pattern::Ramp => ramp,
        Pattern::RampFirst { nb } => if s < nb {
            ramp
        } else {
            0
        },
        Pattern::Labels => if o == 0 {
            ((s * 32 + l) % 127 + 1) as u8
        } else {
            0
        },
    }
}

/// Builds a synthetic q8_0 matrix.
pub fn q8_matrix(p: Pattern, rows: usize, n_sub: usize) -> (r: Vec<u8>)
    requires
        rows * n_sub * 34 <= usize::MAX,
        n_sub * 32 + 32 <= usize::MAX,
        p matches Pattern::Identity { b } ==> b * 32 + 32 <= usize::MAX,
    ensures
        r@ == pattern_matrix(p, rows as int, n_sub as int),
{
    proof {
        assert(rows * n_sub <= rows * n_sub * 34) by (nonlinear_arith);
    }
    let n: usize = rows * n_sub * 34;
    let mut r: Vec<u8> = Vec::new();
    let mut i: usize = 0;
    while i < n
        invariant
            n == rows * n_sub * 34,
            n_sub * 32 + 32 <= usize::MAX,
            p matches Pattern::Identity { b } ==> b * 32 + 32 <= usize::MAX,
            i <= n,
            r@ == pattern_matrix(p, rows as int, n_sub as int).take(i as int),
        decreases n - i,
    {
        proof {
            assert(n_sub > 0) by (nonlinear_arith)
                requires
                    rows * n_sub * 34 > 0,
                    n_sub >= 0,
            ;
        }
        let blk: usize = i / 34;
        r.push(byte_of(p, blk / n_sub, blk % n_sub, i % 34));
        proof {
            assert(r@ =~= pattern_matrix(p, rows as int, n_sub as int).take(i + 1));
        }
        i = i + 1;
    }
    assert(r@ =~= pattern_matrix(p, rows as int, n_sub as int));
    r
}

/// The sum of a row of a pattern over `n` block columns, times the scales: what a
/// product with a vector of ones gives.
pub open spec fn row_sum16(p: Pattern, n: int) -> int
    decreases n,
{
    if n <= 0 {
        0
    } else {
        row_sum16(p, n - 1) + match p {
            Pattern::Ramp => ((n - 1) % 16 + 1) * values_sum(p, n - 1, 32),
            Pattern::RampFirst { nb } => if n - 1 < nb {
                values_sum(p, n - 1, 32)
            } else {
                0
            },
            _ => 0,
        }
    }
}

/// The sum of the first `l` values of block column `s`.
pub open spec fn values_sum(p: Pattern, s: int, l: int) -> int
    decreases l,
{
    if l <= 0 {
        0
    } else {
        values_sum(p, s, l - 1) + pattern_value(p, 0, s, l - 1)
    }
}

proof fn lemma_ramp_sum(p: Pattern, s: int, l: int)
    requires
        0 <= l <= 32,
        p is Ramp || (p matches Pattern::RampFirst { nb } && s < nb),
    ensures
        2 * values_sum(p, s, l) == l * (l - 33),
    decreases l,
{
    if l > 0 {
        lemma_ramp_sum(p, s, l - 1);
        assert((l - 1) * (l - 1 - 33) + 2 * (l - 1 - 16) == l * (l - 33)) by (nonlinear_arith);
        assert(pattern_value(p, 0, s, l - 1) == l - 1 - 16);
    } else {
        assert(l * (l - 33) == 0) by (nonlinear_arith)
            requires
                l == 0,
        ;
    }
}

/// What the product of a ramp row with a vector of ones gives: each block column
/// adds minus sixteen times its scale. The result is exact, since the scales are
/// sixteenths.
pub fn ramp_expected(p: Pattern, n_sub: usize) -> (r: i64)
    requires
        p is Ramp || p is RampFirst,
        n_sub <= 0x1000_0000,
    ensures
        r * 16 == row_sum16(p, n_sub as int),
{
    let mut r: i64 = 0;
    let mut s: usize = 0;
    while s < n_sub
        invariant
            p is Ramp || p is RampFirst,
            n_sub <= 0x1000_0000,
            s <= n_sub,
            r * 16 == row_sum16(p, s as int),
            -16 * s <= r <= 0,
        decreases n_sub - s,
    {
        match p {
            Pattern::Ramp => {
                proof {
                    lemma_ramp_sum(p, s as int, 32);
                    let v = values_sum(p, s as int, 32);
                    assert(v == -16);
                    assert((s as int % 16 + 1) * v == -16 * (s as int % 16 + 1)) by (nonlinear_arith)
                        requires
                            v == -16,
                    ;
                }
                r = r - ((s % 16) as i64 + 1);
            },
            Pattern::RampFirst { nb } => {
                if s < nb {
                    proof {
                        lemma_ramp_sum(p, s as int, 32);
                    }
                    r = r - 1;
                }
            },
            _ => {},
        }
        s = s + 1;
    }
    r
}

/// A q8_0 block whose only nonzero value is a one at `l`, with scale 1.
pub fn q8_single(l: usize) -> (r: Vec<u8>)
    requires
        l < 32,
    ensures
        r@.len() == 34,
        r@[0] == 0,
        r@[1] == 0x3C,
        forall|i: int|
            2 <= i < 34 ==> #[trigger] r@[i] == if i == 2 + l {
                1u8
            } else {
                0u8
            },
{
    let mut r: Vec<u8> = vec![0; 34];
    r.set(1, 0x3C);
    r.set(2 + l, 1);
    r
}

/// Byte `i` of synthetic q4_K block `b`: scale 1/2, minimum scale 1/4, then
/// packed six-bit scales and nibbles from the block number.
pub open spec fn q4k_byte(b: int, i: int) -> u8 {
    (if i == 0 || i == 2 {
        0
    } else if i == 1 {
        0x38
    } else if i == 3 {
        0x30
    } else if i < 16 {
        (b * 7 + (i - 4) * 13) % 64
    } else {
        (b * 31 + (i - 16) * 37) % 256
    }) as u8
}

/// `nblk` synthetic q4_K blocks.
pub fn q4k_blocks(nblk: usize) -> (r: Vec<u8>)
    requires
        nblk * 144 <= usize::MAX,
    ensures
        r@.len() == nblk * 144,
        forall|k: int| 0 <= k < nblk * 144 ==> #[trigger] r@[k] == q4k_byte(k / 144, k % 144),
{
    let n: usize = nblk * 144;
    let mut r: Vec<u8> = Vec::new();
    let mut k: usize = 0;
    while k < n
        invariant
            n == nblk * 144,
            k <= n,
            r@.len() == k,
            forall|j: int| 0 <= j < k ==> #[trigger] r@[j] == q4k_byte(j / 144, j % 144),
        decreases n - k,
    {
        let b: usize = k / 144;
        let i: usize = k % 144;
        let (b6, b8): (usize, usize) = (b % 64, b % 256);
        proof {
            vstd::arithmetic::div_mod::lemma_fundamental_div_mod(b as int, 64);
            vstd::arithmetic::div_mod::lemma_fundamental_div_mod(b as int, 256);
            if 4 <= i < 16 {
                let c = (i - 4) * 13;
                assert(b * 7 + c == b6 * 7 + c + 64 * (b as int / 64 * 7));
                vstd::arithmetic::div_mod::lemma_mod_multiples_vanish(
                    b as int / 64 * 7,
                    b6 * 7 + c,
                    64,
                );
            }
            if i >= 16 {
                let c = (i - 16) * 37;
                assert(b * 31 + c == b8 * 31 + c + 256 * (b as int / 256 * 31));
                vstd::arithmetic::div_mod::lemma_mod_multiples_vanish(
                    b as int / 256 * 31,
                    b8 * 31 + c,
                    256,
                );
            }
        }
        let v: u8 = if i == 0 || i == 2 {
            0
        } else if i == 1 {
            0x38
        } else if i == 3 {
            0x30
        } else if i < 16 {
            ((b6 * 7 + (i - 4) * 13) % 64) as u8
        } else {
            ((b8 * 31 + (i - 16) * 37) % 256) as u8
        };
        r.push(v);
        k = k + 1;
    }
    r
}

/// Byte `i` of row `o` of the q4_K check matrix: scale 1, minimum scale 1/2, and
/// a first packed scale that moves with the row.
pub open spec fn q4k_check_byte(o: int, i: int) -> u8 {
    (if i == 0 || i == 2 {
        0
    } else if i == 1 {
        0x3C
    } else if i == 3 {
        0x38
    } else if i == 4 {
        (21 + o) % 64
    } else if i < 16 {
        21 * (i - 3) % 64
    } else {
        ((i - 16) * 37 + 11) % 256
    }) as u8
}

/// The q4_K check matrix of `rows` one-block rows.
pub fn q4k_check_rows(rows: usize) -> (r: Vec<u8>)
    requires
        rows <= 256,
    ensures
        r@.len() == rows * 144,
        forall|k: int|
            0 <= k < rows * 144 ==> #[trigger] r@[k] == q4k_check_byte(k / 144, k % 144),
{
    let n: usize = rows * 144;
    let mut r: Vec<u8> = Vec::new();
    let mut k: usize = 0;
    while k < n
        invariant
            n == rows * 144,
            rows <= 256,
            k <= n,
            r@.len() == k,
            forall|j: int| 0 <= j < k ==> #[trigger] r@[j] == q4k_check_byte(j / 144, j % 144),
        decreases n - k,
    {
        let o: usize = k / 144;
        let i: usize = k % 144;
        let v: u8 = if i == 0 || i == 2 {
            0
        } else if i == 1 {
            0x3C
        } else if i == 3 {
            0x38
        } else if i == 4 {
            ((21 + o) % 64) as u8
        } else if i < 16 {
            (21 * (i - 3) % 64) as u8
        } else {
            (((i - 16) * 37 + 11) % 256) as u8
        };
        r.push(v);
        k = k + 1;
    }
    r
}

/// Byte `i` of synthetic iq3_s block `b`; every third block has a negative scale.
pub open spec fn iq3s_byte(b: int, i: int) -> u8 {
    let v = (i * 37 + 11 + b * 13) % 251;
    (if b == 0 && i == 0 {
        0x38
    } else if b == 0 && i == 1 {
        0x53
    } else if i == 1 && b % 3 == 1 && v < 128 {
        v + 128
    } else {
        v
    }) as u8
}

/// `nblk` synthetic iq3_s blocks.
pub fn iq3s_blocks(nblk: usize) -> (r: Vec<u8>)
    requires
        nblk <= 0x10_0000,
    ensures
        r@.len() == nblk * 110,
        forall|k: int| 0 <= k < nblk * 110 ==> #[trigger] r@[k] == iq3s_byte(k / 110, k % 110),
{
    let n: usize = nblk * 110;
    let mut r: Vec<u8> = Vec::new();
    let mut k: usize = 0;
    while k < n
        invariant
            n == nblk * 110,
            nblk <= 0x10_0000,
            k <= n,
            r@.len() == k,
            forall|j: int| 0 <= j < k ==> #[trigger] r@[j] == iq3s_byte(j / 110, j % 110),
        decreases n - k,
    {
        let b: usize = k / 110;
        let i: usize = k % 110;
        let v: usize = (i * 37 + 11 + b * 13) % 251;
        let x: usize = if b == 0 && i == 0 {
            0x38
        } else if b == 0 && i == 1 {
            0x53
        } else if i == 1 && b % 3 == 1 && v < 128 {
            v + 128
        } else {
            v
        };
        r.push(x as u8);
        k = k + 1;
    }
    r
}

/// The bytes `7 i mod 256` for `i` below `n`.
pub fn sevens(n: usize) -> (r: Vec<u8>)
    ensures
        r@.len() == n,
        forall|i: int| 0 <= i < n ==> #[trigger] r@[i] == i % 256 * 7 % 256,
{
    let mut r: Vec<u8> = Vec::new();
    let mut i: usize = 0;
    while i < n
        invariant
            i <= n,
            r@.len() == i,
            forall|j: int| 0 <= j < i ==> #[trigger] r@[j] == j % 256 * 7 % 256,
        decreases n - i,
    {
        r.push((i % 256 * 7 % 256) as u8);
        i = i + 1;
    }
    r
}

/// A q5_1 block with scale 1, minimum -1/2 and the values 0 .. 31, and its word
/// of fifth bits.
pub struct Q51Block {
    pub bytes: Vec<u8>,
    pub qh: u32,
}

/// The five-bit value at place `i` of a q5_1 block: a nibble, and a fifth bit out
/// of the word behind the two scales.
pub open spec fn q51_value(bytes: Seq<u8>, i: int) -> int {
    let nibble = if i < 16 {
        bytes[8 + i] % 16
    } else {
        bytes[8 + i - 16] / 16
    };
    let bits = bytes[4 + i / 8];
    let fifth = bits as int / vstd::arithmetic::power2::pow2((i % 8) as nat) as int % 2;
    nibble + 16 * fifth
}

/// Every bit of the byte 255 is set.
proof fn lemma_full_byte_bit(p: int)
    requires
        0 <= p < 8,
    ensures
        255int / (vstd::arithmetic::power2::pow2(p as nat) as int) % 2 == 1,
{
    vstd::arithmetic::power2::lemma2_to64();
    let d = vstd::arithmetic::power2::pow2(p as nat) as int;
    if p == 0 {
        assert(d == 1);
        assert(255int / 1 == 255);
    } else if p == 1 {
        assert(d == 2);
        assert(255int / 2 == 127);
    } else if p == 2 {
        assert(d == 4);
        assert(255int / 4 == 63);
    } else if p == 3 {
        assert(d == 8);
        assert(255int / 8 == 31);
    } else if p == 4 {
        assert(d == 16);
        assert(255int / 16 == 15);
    } else if p == 5 {
        assert(d == 32);
        assert(255int / 32 == 7);
    } else if p == 6 {
        assert(d == 64);
        assert(255int / 64 == 3);
    } else {
        assert(d == 128);
        assert(255int / 128 == 1);
    }
}

/// The block whose value at place `i` is `i`.
pub fn q51_counting() -> (r: Q51Block)
    ensures
        r.bytes@.len() == 24,
        r.bytes@[0] == 0 && r.bytes@[1] == 0x3C,
        r.bytes@[2] == 0 && r.bytes@[3] == 0xB8,
        r.qh == 0xFFFF_0000,
        forall|i: int| 0 <= i < 32 ==> q51_value(r.bytes@, i) == i,
{
    let mut bytes: Vec<u8> = vec![0; 24];
    bytes.set(1, 0x3C);
    bytes.set(3, 0xB8);
    bytes.set(6, 0xFF);
    bytes.set(7, 0xFF);
    let mut j: usize = 0;
    while j < 16
        invariant
            j <= 16,
            bytes@.len() == 24,
            bytes@[0] == 0,
            bytes@[1] == 0x3C,
            bytes@[2] == 0,
            bytes@[3] == 0xB8,
            bytes@[4] == 0,
            bytes@[5] == 0,
            bytes@[6] == 0xFF,
            bytes@[7] == 0xFF,
            forall|k: int| 0 <= k < j ==> #[trigger] bytes@[8 + k] == k * 17,
        decreases 16 - j,
    {
        bytes.set(8 + j, (j * 17) as u8);
        j = j + 1;
    }
    proof {
        vstd::arithmetic::power2::lemma2_to64();
        assert forall|i: int| 0 <= i < 32 implies q51_value(bytes@, i) == i by {
            let b = i / 8;
            let p = i % 8;
            if i < 16 {
                assert(bytes@[8 + i] == i * 17);
                assert(bytes@[4 + b] == 0);
                assert(0int / (vstd::arithmetic::power2::pow2(p as nat) as int) == 0) by {
                    vstd::arithmetic::power2::lemma_pow2_pos(p as nat);
                    vstd::arithmetic::div_mod::lemma_basic_div(
                        0,
                        vstd::arithmetic::power2::pow2(p as nat) as int,
                    );
                }
            } else {
                assert(bytes@[8 + (i - 16)] == (i - 16) * 17);
                assert(bytes@[4 + b] == 0xFF);
                lemma_full_byte_bit(p);
            }
        }
    }
    Q51Block { bytes, qh: 0xFFFF_0000 }
}

} // verus!
