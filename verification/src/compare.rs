//! Comparison of results bit by bit, over single-precision patterns.

use vstd::prelude::*;

verus! {

/// The pattern without its sign.
pub open spec fn magnitude(x: u32) -> u32 {
    (x % 0x8000_0000) as u32
}

/// Not a number.
pub open spec fn is_nan(x: u32) -> bool {
    magnitude(x) > 0x7f80_0000
}

/// Equality of the values that two patterns stand for: no NaN equals anything,
/// and the two zeros are equal.
pub open spec fn values_equal(a: u32, b: u32) -> bool {
    !is_nan(a) && !is_nan(b) && (a == b || magnitude(a) == 0 && magnitude(b) == 0)
}

/// The value is larger in magnitude than the positive value `limit`.
pub open spec fn exceeds(x: u32, limit: u32) -> bool {
    !is_nan(x) && magnitude(x) > limit
}

/// Neither infinite nor NaN.
pub open spec fn is_finite(x: u32) -> bool {
    magnitude(x) < 0x7f80_0000
}

pub fn value_eq(a: u32, b: u32) -> (r: bool)
    ensures
        r == values_equal(a, b),
{
    let (x, y): (u32, u32) = (a % 0x8000_0000, b % 0x8000_0000);
    x <= 0x7f80_0000 && y <= 0x7f80_0000 && (a == b || x == 0 && y == 0)
}

pub fn value_exceeds(x: u32, limit: u32) -> (r: bool)
    ensures
        r == exceeds(x, limit),
{
    let m: u32 = x % 0x8000_0000;
    m <= 0x7f80_0000 && m > limit
}

/// How many of the first `n` places of two arrays hold the same pattern.
pub open spec fn same_bits(a: Seq<u32>, b: Seq<u32>, n: int) -> int
    decreases n,
{
    if n <= 0 {
        0
    } else {
        same_bits(a, b, n - 1) + if a[n - 1] == b[n - 1] {
            1int
        } else {
            0int
        }
    }
}

/// Counts the places where two arrays hold the same pattern.
pub fn count_same_bits(a: &[u32], b: &[u32]) -> (r: usize)
    requires
        a@.len() == b@.len(),
    ensures
        r == same_bits(a@, b@, a@.len() as int),
        r <= a@.len(),
{
    let mut n: usize = 0;
    let mut i: usize = 0;
    while i < a.len()
        invariant
            a@.len() == b@.len(),
            i <= a@.len(),
            n == same_bits(a@, b@, i as int),
            n <= i,
        decreases a@.len() - i,
    {
        if a[i] == b[i] {
            n = n + 1;
        }
        i = i + 1;
    }
    n
}

/// Arrays agree in all places exactly where they are equal.
pub proof fn law_all_bits_same_iff_equal(a: Seq<u32>, b: Seq<u32>)
    requires
        a.len() == b.len(),
    ensures
        same_bits(a, b, a.len() as int) == a.len() <==> a == b,
{
    lemma_same_bits(a, b, a.len() as int);
    if same_bits(a, b, a.len() as int) == a.len() {
        assert(a =~= b);
    }
}

proof fn lemma_same_bits(a: Seq<u32>, b: Seq<u32>, n: int)
    requires
        0 <= n <= a.len(),
        a.len() == b.len(),
    ensures
        0 <= same_bits(a, b, n) <= n,
        same_bits(a, b, n) == n <==> (forall|i: int| 0 <= i < n ==> a[i] == b[i]),
    decreases n,
{
    if n > 0 {
        lemma_same_bits(a, b, n - 1);
    }
}

/// How many of the first `n` places of two arrays hold different values.
pub open spec fn different_values(a: Seq<u32>, b: Seq<u32>, n: int) -> int
    decreases n,
{
    if n <= 0 {
        0
    } else {
        different_values(a, b, n - 1) + if values_equal(a[n - 1], b[n - 1]) {
            0int
        } else {
            1int
        }
    }
}

/// Counts the places where two arrays hold different values.
pub fn count_different_values(a: &[u32], b: &[u32]) -> (r: usize)
    requires
        a@.len() == b@.len(),
    ensures
        r == different_values(a@, b@, a@.len() as int),
{
    let mut n: usize = 0;
    let mut i: usize = 0;
    while i < a.len()
        invariant
            a@.len() == b@.len(),
            i <= a@.len(),
            n == different_values(a@, b@, i as int),
            n <= i,
        decreases a@.len() - i,
    {
        if !value_eq(a[i], b[i]) {
            n = n + 1;
        }
        i = i + 1;
    }
    n
}

/// The first place where two arrays hold different patterns.
pub fn first_difference(a: &[u32], b: &[u32]) -> (r: Option<usize>)
    requires
        a@.len() == b@.len(),
    ensures
        match r {
            Some(i) => i < a@.len() && a@[i as int] != b@[i as int] && forall|j: int|
                0 <= j < i ==> a@[j] == b@[j],
            None => a@ == b@,
        },
{
    let mut i: usize = 0;
    while i < a.len()
        invariant
            a@.len() == b@.len(),
            i <= a@.len(),
            forall|j: int| 0 <= j < i ==> a@[j] == b@[j],
        decreases a@.len() - i,
    {
        if a[i] != b[i] {
            return Some(i);
        }
        i = i + 1;
    }
    assert(a@ =~= b@);
    None
}

/// The places below `n` whose value exceeds `limit` in magnitude.
pub open spec fn large_places(x: Seq<u32>, limit: u32, n: int) -> Seq<usize>
    decreases n,
{
    if n <= 0 {
        Seq::empty()
    } else if exceeds(x[n - 1], limit) {
        large_places(x, limit, n - 1).push((n - 1) as usize)
    } else {
        large_places(x, limit, n - 1)
    }
}

/// Lists the places whose value exceeds `limit` in magnitude.
pub fn find_large(x: &[u32], limit: u32) -> (r: Vec<usize>)
    ensures
        r@ == large_places(x@, limit, x@.len() as int),
{
    let mut r: Vec<usize> = Vec::new();
    let mut i: usize = 0;
    while i < x.len()
        invariant
            i <= x@.len(),
            r@ == large_places(x@, limit, i as int),
        decreases x@.len() - i,
    {
        if value_exceeds(x[i], limit) {
            r.push(i);
        }
        i = i + 1;
    }
    r
}

/// How many of the first `n` places hold an infinite value or a NaN.
pub open spec fn non_finite(x: Seq<u32>, n: int) -> int
    decreases n,
{
    if n <= 0 {
        0
    } else {
        non_finite(x, n - 1) + if is_finite(x[n - 1]) {
            0int
        } else {
            1int
        }
    }
}

/// Counts infinite values and NaNs.
pub fn count_non_finite(x: &[u32]) -> (r: usize)
    ensures
        r == non_finite(x@, x@.len() as int),
{
    let mut n: usize = 0;
    let mut i: usize = 0;
    while i < x.len()
        invariant
            i <= x@.len(),
            n == non_finite(x@, i as int),
            n <= i,
        decreases x@.len() - i,
    {
        if x[i] % 0x8000_0000 >= 0x7f80_0000 {
            n = n + 1;
        }
        i = i + 1;
    }
    n
}

} // verus!
