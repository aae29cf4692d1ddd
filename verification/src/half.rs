//! Half-precision numbers as bit patterns.

use vstd::prelude::*;
use vstd::arithmetic::power2::{lemma2_to64, lemma_pow2_adds, pow2};

verus! {

/// The value of a finite single-precision pattern in units of 2^-149.
pub open spec fn f32_units(x: u32) -> int {
    let s = x / 0x8000_0000;
    let e = x / 0x80_0000 % 256;
    let m = (x % 0x80_0000) as int;
    let mag = if e == 0 {
        m
    } else {
        (m + 0x80_0000) * pow2((e - 1) as nat)
    };
    if s == 1 {
        -mag
    } else {
        mag
    }
}

/// The value of a half-precision pattern in units of 2^-24; the largest exponent
/// counts as an ordinary one.
pub open spec fn half_units(h: u16) -> int {
    let s = h / 0x8000;
    let e = h / 1024 % 32;
    let m = (h % 1024) as int;
    let mag = if e == 0 {
        m
    } else {
        (m + 1024) * pow2((e - 1) as nat)
    };
    if s == 1 {
        -mag
    } else {
        mag
    }
}

/// Narrowing by cutting: the sign, the rebiased exponent and the upper fraction
/// bits. What is too small becomes zero, what is too large infinity.
pub open spec fn spec_half_bits(x: u32) -> u16 {
    let s = x as int / 0x8000_0000;
    let e = x as int / 0x80_0000 % 256;
    let f = x as int / 0x2000 % 1024;
    (s * 0x8000 + if e <= 112 {
        0
    } else if e >= 143 {
        0x7C00
    } else {
        (e - 112) * 1024 + f
    }) as u16
}

/// Narrows a single-precision pattern to half precision by cutting.
pub fn half_bits(x: u32) -> (r: u16)
    ensures
        r == spec_half_bits(x),
{
    let s: u16 = (x / 0x8000_0000) as u16;
    let e: u32 = x / 0x80_0000 % 256;
    let f: u32 = x / 0x2000 % 1024;
    if e <= 112 {
        return s * 0x8000;
    }
    if e >= 143 {
        return s * 0x8000 + 0x7C00;
    }
    s * 0x8000 + ((e - 112) * 1024 + f) as u16
}

/// The position of the highest set bit of a ten-bit number.
fn high_bit(m: u16) -> (r: (u32, u32))
    requires
        0 < m < 1024,
    ensures
        r.0 < 10,
        r.1 == pow2(r.0 as nat),
        r.1 <= m < 2 * r.1,
{
    let mut p: u32 = 0;
    let mut b: u32 = 1;
    proof {
        lemma2_to64();
    }
    while 2 * b <= m as u32
        invariant
            0 < m < 1024,
            p <= 9,
            b == pow2(p as nat),
            1 <= b <= m,
        decreases m - b,
    {
        proof {
            lemma2_to64();
            lemma_pow2_adds(1, p as nat);
            if p == 9 {
                assert(b == 512);
            }
        }
        b = 2 * b;
        p = p + 1;
    }
    (p, b)
}

/// Widens a half-precision pattern; the value stays the same.
pub fn half_f32(h: u16) -> (r: u32)
    ensures
        f32_units(r) == half_units(h) * pow2(125),
        r / 0x8000_0000 == h / 0x8000,
        r / 0x80_0000 % 256 < 255,
{
    let s: u32 = (h / 0x8000) as u32;
    let e: u32 = (h / 1024 % 32) as u32;
    let m: u16 = h % 1024;
    if e == 0 {
        if m == 0 {
            return s * 0x8000_0000;
        }
        let (p, b): (u32, u32) = high_bit(m);
        let ghost k = pow2((23 - p) as nat) as int;
        proof {
            lemma_scale(p as int);
            assert(b * k == 0x80_0000);
            vstd::arithmetic::div_mod::lemma_fundamental_div_mod_converse(
                0x80_0000,
                b as int,
                k,
                0,
            );
            assert((m - b) * k < 0x80_0000 && 0 <= (m - b) * k) by (nonlinear_arith)
                requires
                    0 <= m - b < b,
                    b * k == 0x80_0000,
                    k > 0,
            ;
        }
        let scale: u32 = 0x80_0000 / b;
        let frac: u32 = (m as u32 - b) * scale;
        let r: u32 = s * 0x8000_0000 + ((p + 103) * 0x80_0000 + frac);
        proof {
            assert(frac == (m - b) * k);
            assert(frac + 0x80_0000 == m * k) by (nonlinear_arith)
                requires
                    frac == (m - b) * k,
                    b * k == 0x80_0000,
            ;
            assert(r % 0x80_0000 == frac);
            assert(r / 0x80_0000 % 256 == p + 103);
            assert(r / 0x8000_0000 == s);
            lemma_pow2_adds((23 - p) as nat, (p + 102) as nat);
            assert((m * k) * pow2((p + 102) as nat) == m * pow2(125)) by (nonlinear_arith)
                requires
                    k * pow2((p + 102) as nat) == pow2(125),
            ;
            assert(f32_units(r) == half_units(h) * pow2(125)) by (nonlinear_arith)
                requires
                    s == 0 ==> f32_units(r) == m * pow2(125) && half_units(h) == m,
                    s == 1 ==> f32_units(r) == -(m * pow2(125)) && half_units(h) == -m,
                    s == 0 || s == 1,
            ;
        }
        r
    } else {
        let r: u32 = s * 0x8000_0000 + (e + 112) * 0x80_0000 + m as u32 * 0x2000;
        proof {
            assert(r % 0x80_0000 == m * 0x2000);
            assert(r / 0x80_0000 % 256 == e + 112);
            assert(r / 0x8000_0000 == s);
            lemma2_to64();
            lemma_pow2_adds(13, (e + 111) as nat);
            lemma_pow2_adds((e - 1) as nat, 125);
            let a = pow2((e + 111) as nat) as int;
            let b = pow2((e - 1) as nat) as int;
            let c = pow2(125) as int;
            assert(0x2000 * a == b * c);
            assert((m * 0x2000 + 0x80_0000) * a == (m + 1024) * b * c) by (nonlinear_arith)
                requires
                    0x2000 * a == b * c,
            ;
            assert(-((m + 1024) * b) * c == -((m + 1024) * b * c)) by (nonlinear_arith);
        }
        r
    }
}

proof fn lemma_scale(p: int)
    requires
        0 <= p < 10,
    ensures
        pow2(p as nat) * pow2((23 - p) as nat) == 0x80_0000,
        pow2((23 - p) as nat) > 0,
        pow2(p as nat) > 0,
{
    lemma2_to64();
    lemma_pow2_adds(p as nat, (23 - p) as nat);
    vstd::arithmetic::power2::lemma_pow2_pos(p as nat);
    vstd::arithmetic::power2::lemma_pow2_pos((23 - p) as nat);
}

/// Two single-precision patterns of the same sign and the same finite value are
/// the same pattern.
proof fn lemma_units_injective(x: u32, y: u32)
    requires
        f32_units(x) == f32_units(y),
        x / 0x8000_0000 == y / 0x8000_0000,
        1 <= x / 0x80_0000 % 256 <= y / 0x80_0000 % 256,
    ensures
        x == y,
{
    let (ex, ey) = (x / 0x80_0000 % 256, y / 0x80_0000 % 256);
    let (mx, my) = ((x % 0x80_0000) as int, (y % 0x80_0000) as int);
    let a = pow2((ex - 1) as nat) as int;
    vstd::arithmetic::power2::lemma_pow2_pos((ex - 1) as nat);
    if ex < ey {
        lemma_pow2_adds((ex - 1) as nat, (ey - ex) as nat);
        let k = pow2((ey - ex) as nat) as int;
        assert(k >= 2) by {
            lemma_pow2_adds(1, (ey - ex - 1) as nat);
            vstd::arithmetic::power2::lemma_pow2_pos((ey - ex - 1) as nat);
            lemma2_to64();
        }
        assert((mx + 0x80_0000) * a < (my + 0x80_0000) * (a * k)) by (nonlinear_arith)
            requires
                0 <= mx < 0x80_0000,
                0 <= my,
                a > 0,
                k >= 2,
        ;
    } else {
        assert(mx == my) by (nonlinear_arith)
            requires
                (mx + 0x80_0000) * a == (my + 0x80_0000) * a,
                a > 0,
        ;
    }
}

/// Narrowing what was widened gives every ordinary half-precision number back.
pub proof fn law_half_round_trip(h: u16, x: u32)
    requires
        1 <= h / 1024 % 32 <= 30,
        f32_units(x) == half_units(h) * pow2(125),
        x / 0x8000_0000 == h / 0x8000,
        x / 0x80_0000 % 256 >= 1,
    ensures
        spec_half_bits(x) == h,
{
    let (s, e, m) = ((h / 0x8000) as int, (h / 1024 % 32) as int, (h % 1024) as int);
    let y = (s * 0x8000_0000 + (e + 112) * 0x80_0000 + m * 0x2000) as u32;
    assert(y % 0x80_0000 == m * 0x2000);
    assert(y / 0x80_0000 % 256 == e + 112);
    assert(y / 0x8000_0000 == s);
    lemma2_to64();
    lemma_pow2_adds(13, (e + 111) as nat);
    lemma_pow2_adds((e - 1) as nat, 125);
    let a = pow2((e + 111) as nat) as int;
    let b = pow2((e - 1) as nat) as int;
    let c = pow2(125) as int;
    assert((m * 0x2000 + 0x80_0000) * a == (m + 1024) * b * c) by (nonlinear_arith)
        requires
            0x2000 * a == b * c,
    ;
    assert(-((m + 1024) * b) * c == -((m + 1024) * b * c)) by (nonlinear_arith);
    assert(f32_units(y) == half_units(h) * pow2(125));
    if x / 0x80_0000 % 256 <= y / 0x80_0000 % 256 {
        lemma_units_injective(x, y);
    } else {
        lemma_units_injective(y, x);
    }
    assert(x == y);
    assert(x / 0x2000 % 1024 == m);
}

} // verus!
