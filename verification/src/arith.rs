use vstd::prelude::*;

verus! {

/// `a / b`, rounded up.
pub open spec fn spec_ceil_div(a: int, b: int) -> int {
    (a + b - 1) / b
}

/// `a` rounded up to a multiple of `b`.
pub open spec fn round_up(a: int, b: int) -> int {
    spec_ceil_div(a, b) * b
}

/// The number of blocks of `b` elements that cover `a` elements.
pub fn ceil_div(a: usize, b: usize) -> (r: usize)
    requires
        b > 0,
    ensures
        r == spec_ceil_div(a as int, b as int),
{
    let q: usize = a / b;
    let m: usize = a % b;
    proof {
        lemma_ceil_div(a as int, b as int);
        vstd::arithmetic::div_mod::lemma_fundamental_div_mod(a as int, b as int);
        if m == 0 {
            vstd::arithmetic::div_mod::lemma_fundamental_div_mod_converse(
                a + b - 1, b as int, q as int, b - 1);
        } else {
            assert(a + b - 1 == b * (q + 1) + (m - 1)) by (nonlinear_arith)
                requires a == b * q + m;
            vstd::arithmetic::div_mod::lemma_fundamental_div_mod_converse(
                a + b - 1, b as int, q + 1, m - 1);
            assert(q < a) by (nonlinear_arith)
                requires a == b * q + m, m > 0, b > 0, q >= 0;
        }
    }
    if m == 0 {
        q
    } else {
        q + 1
    }
}

/// The covering is exact up to one block: `b * ceil` reaches `a`, and one
/// block less does not.
pub proof fn lemma_ceil_div(a: int, b: int)
    requires
        a >= 0,
        b > 0,
    ensures
        spec_ceil_div(a, b) >= 0,
        a <= spec_ceil_div(a, b) * b < a + b,
{
    let n: int = a + b - 1;
    let c: int = spec_ceil_div(a, b);
    vstd::arithmetic::div_mod::lemma_fundamental_div_mod(n, b);
    vstd::arithmetic::div_mod::lemma_mod_bound(n, b);
    assert(b * c == c * b) by (nonlinear_arith);
    assert(c >= 0) by {
        vstd::arithmetic::div_mod::lemma_div_pos_is_pos(n, b);
    }
}

/// The smaller of two sizes.
pub fn min_usize(a: usize, b: usize) -> (r: usize)
    ensures
        r == vstd::math::min(a as int, b as int),
{
    if a <= b {
        a
    } else {
        b
    }
}

/// The larger of two sizes.
pub fn max_usize(a: usize, b: usize) -> (r: usize)
    ensures
        r == vstd::math::max(a as int, b as int),
{
    if a >= b {
        a
    } else {
        b
    }
}

} // verus!
