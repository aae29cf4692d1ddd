//! Deterministic inputs for checks and probes.

use vstd::prelude::*;

verus! {

/// Factor and increment of the 64-bit linear congruential generator.
pub const LCG_MUL: u64 = 6364136223846793005;

pub const LCG_ADD: u64 = 1442695040888963407;

/// One step of the generator.
#[verifier::opaque]
pub open spec fn lcg_step(seed: u64) -> u64 {
    seed.wrapping_mul(LCG_MUL).wrapping_add(LCG_ADD)
}

/// The state after `n` steps.
pub open spec fn seed_after(seed: u64, n: int) -> u64
    decreases n,
{
    if n <= 0 {
        seed
    } else {
        lcg_step(seed_after(seed, n - 1))
    }
}

/// The `i`-th draw: the upper 31 bits of the state after `i + 1` steps.
pub open spec fn draw_at(seed: u64, i: int) -> u32 {
    (seed_after(seed, i + 1) / 0x2_0000_0000) as u32
}

/// The draws `from .. from + n` of a generator.
pub open spec fn draws_from(seed: u64, from: int, n: int) -> Seq<u32> {
    Seq::new(n as nat, |i: int| draw_at(seed, from + i))
}

/// The generator. A draw `d` stands for the value `d / 2^31 - 1/2`.
pub struct Lcg {
    pub seed: u64,
}

impl Lcg {
    pub fn new(seed: u64) -> (r: Lcg)
        ensures
            r.seed == seed,
    {
        Lcg { seed }
    }

    /// Steps once and gives the upper 31 bits.
    pub fn draw(&mut self) -> (r: u32)
        ensures
            final(self).seed == lcg_step(old(self).seed),
            r == draw_at(old(self).seed, 0),
    {
        proof {
            reveal(lcg_step);
            reveal_with_fuel(seed_after, 2);
        }
        self.seed = self.seed.wrapping_mul(LCG_MUL).wrapping_add(LCG_ADD);
        (self.seed / 0x2_0000_0000) as u32
    }

    /// `n` draws.
    pub fn draws(&mut self, n: usize) -> (r: Vec<u32>)
        ensures
            final(self).seed == seed_after(old(self).seed, n as int),
            r@ == draws_from(old(self).seed, 0, n as int),
    {
        let mut r: Vec<u32> = Vec::new();
        let mut i: usize = 0;
        while i < n
            invariant
                i <= n,
                self.seed == seed_after(old(self).seed, i as int),
                r@ == draws_from(old(self).seed, 0, i as int),
            decreases n - i,
        {
            proof {
                reveal_with_fuel(seed_after, 2);
            }
            let d: u32 = self.draw();
            r.push(d);
            proof {
                assert(d == draw_at(old(self).seed, i as int));
                assert(r@ =~= draws_from(old(self).seed, 0, i + 1));
            }
            i = i + 1;
        }
        r
    }
}

/// Drawing goes on where the draws before ended.
pub proof fn law_draws_continue(seed: u64, from: int, i: int)
    requires
        from >= 0,
        i >= 0,
    ensures
        draw_at(seed_after(seed, from), i) == draw_at(seed, from + i),
        seed_after(seed_after(seed, from), i) == seed_after(seed, from + i),
    decreases i,
{
    if i > 0 {
        law_draws_continue(seed, from, i - 1);
        assert(seed_after(seed, from + i) == lcg_step(seed_after(seed, from + i - 1)));
    } else {
        assert(seed_after(seed, from + 1) == lcg_step(seed_after(seed, from)));
        reveal_with_fuel(seed_after, 2);
    }
    assert(seed_after(seed_after(seed, from), i + 1) == lcg_step(
        seed_after(seed_after(seed, from), i),
    ));
}

/// Draws that follow others of the same generator.
pub proof fn lemma_draws_shift(seed: u64, from: int, n: int)
    requires
        from >= 0,
    ensures
        draws_from(seed_after(seed, from), 0, n) == draws_from(seed, from, n),
{
    let a = draws_from(seed_after(seed, from), 0, n);
    let b = draws_from(seed, from, n);
    assert forall|i: int| 0 <= i < a.len() implies #[trigger] a[i] == b[i] by {
        law_draws_continue(seed, from, i);
        assert(a[i] == draw_at(seed_after(seed, from), 0 + i));
        assert(b[i] == draw_at(seed, from + i));
    }
    assert(a =~= b);
}

/// The numbers `(i * a + c) mod m` for `i` below `n`.
pub open spec fn affine(n: int, a: int, c: int, m: int) -> Seq<u32> {
    Seq::new(n as nat, |i: int| ((i * a + c) % m) as u32)
}

pub fn affine_numbers(n: usize, a: u64, c: u64, m: u64) -> (r: Vec<u32>)
    requires
        0 < m <= u32::MAX,
        n * a + c <= u64::MAX,
    ensures
        r@ == affine(n as int, a as int, c as int, m as int),
{
    let mut r: Vec<u32> = Vec::new();
    let mut i: usize = 0;
    while i < n
        invariant
            0 < m <= u32::MAX,
            n * a + c <= u64::MAX,
            i <= n,
            r@ == affine(i as int, a as int, c as int, m as int),
        decreases n - i,
    {
        proof {
            assert(0 <= i * a <= n * a) by (nonlinear_arith)
                requires
                    0 <= i <= n,
                    0 <= a,
            ;
            assert(i <= n * a + c || a == 0) by (nonlinear_arith)
                requires
                    0 <= i <= n,
                    0 <= a,
                    0 <= c,
            ;
        }
        let v: u64 = if a == 0 {
            assert(i * a == 0) by (nonlinear_arith)
                requires
                    a == 0,
            ;
            c % m
        } else {
            (i as u64 * a + c) % m
        };
        r.push(v as u32);
        proof {
            assert(r@ =~= affine(i + 1, a as int, c as int, m as int));
        }
        i = i + 1;
    }
    r
}

/// A vector of zeros with a one at `k`, as single-precision patterns.
pub open spec fn unit(n: int, k: int) -> Seq<u32> {
    Seq::new(
        n as nat,
        |i: int|
            if i == k {
                crate::ops::ONE
            } else {
                0
            },
    )
}

pub fn unit_vector(n: usize, k: usize) -> (r: Vec<u32>)
    requires
        k < n,
    ensures
        r@ == unit(n as int, k as int),
{
    let mut r: Vec<u32> = vec![0; n];
    r.set(k, crate::ops::ONE);
    assert(r@ =~= unit(n as int, k as int));
    r
}

/// A sum of unit vectors: a one at each of `ks`.
pub fn unit_sum(n: usize, ks: &Vec<usize>) -> (r: Vec<u32>)
    requires
        forall|j: int| 0 <= j < ks@.len() ==> (#[trigger] ks@[j]) < n,
    ensures
        r@.len() == n,
        forall|i: int|
            0 <= i < n ==> #[trigger] r@[i] == if ks@.contains(i as usize) {
                crate::ops::ONE
            } else {
                0u32
            },
{
    let mut r: Vec<u32> = vec![0; n];
    let mut j: usize = 0;
    while j < ks.len()
        invariant
            j <= ks@.len(),
            r@.len() == n,
            forall|j: int| 0 <= j < ks@.len() ==> (#[trigger] ks@[j]) < n,
            forall|i: int|
                0 <= i < n ==> #[trigger] r@[i] == if ks@.take(j as int).contains(i as usize) {
                    crate::ops::ONE
                } else {
                    0u32
                },
        decreases ks@.len() - j,
    {
        let k: usize = ks[j];
        r.set(k, crate::ops::ONE);
        proof {
            let a = ks@.take(j as int);
            let b = ks@.take(j + 1);
            assert(b =~= a.push(k));
            assert forall|i: int| 0 <= i < n implies #[trigger] r@[i] == if b.contains(i as usize) {
                crate::ops::ONE
            } else {
                0u32
            } by {
                if i == k {
                    assert(b[j as int] == k);
                } else {
                    if b.contains(i as usize) {
                        let q = choose|q: int| 0 <= q < b.len() && b[q] == i as usize;
                        assert(a[q] == i as usize);
                    }
                    if a.contains(i as usize) {
                        let q = choose|q: int| 0 <= q < a.len() && a[q] == i as usize;
                        assert(b[q] == i as usize);
                    }
                }
            }
        }
        j = j + 1;
    }
    assert(ks@.take(j as int) =~= ks@);
    r
}

/// Token `tok` of a batch of `t` sees position `p`: none of the future, and only
/// the last two blocks of four.
pub open spec fn sparse_sees(t: int, n_past: int, tok: int, p: int) -> bool {
    let now = n_past - t + tok;
    p <= now && p / 4 + 2 > now / 4
}

pub open spec fn sparse(t: int, n_past: int) -> Seq<u32> {
    Seq::new(
        (t * n_past) as nat,
        |i: int|
            if sparse_sees(t, n_past, i / n_past, i % n_past) {
                1
            } else {
                0
            },
    )
}

/// A causal mask that keeps the two latest blocks of four positions.
pub fn sparse_mask(t: usize, n_past: usize) -> (r: Vec<u32>)
    requires
        t <= n_past,
        t * n_past <= usize::MAX,
        n_past + 8 <= usize::MAX,
    ensures
        r@ == sparse(t as int, n_past as int),
{
    let base: usize = n_past - t;
    let mut r: Vec<u32> = Vec::new();
    let mut tok: usize = 0;
    while tok < t
        invariant
            t <= n_past,
            base == n_past - t,
            n_past + 8 <= usize::MAX,
            tok <= t,
            r@ == sparse(t as int, n_past as int).take((tok * n_past) as int),
        decreases t - tok,
    {
        let mut p: usize = 0;
        proof {
            assert(tok * n_past + n_past <= t * n_past && 0 <= tok * n_past) by (nonlinear_arith)
                requires
                    0 <= tok < t,
                    0 <= n_past,
            ;
        }
        while p < n_past
            invariant
                t <= n_past,
                base == n_past - t,
                n_past + 8 <= usize::MAX,
                tok < t,
                p <= n_past,
                0 <= tok * n_past,
                tok * n_past + n_past <= t * n_past,
                r@ == sparse(t as int, n_past as int).take(tok * n_past + p),
            decreases n_past - p,
        {
            let now: usize = base + tok;
            let v: u32 = if p <= now && p / 4 + 2 > now / 4 {
                1
            } else {
                0
            };
            r.push(v);
            proof {
                let i = tok * n_past + p;
                vstd::arithmetic::div_mod::lemma_fundamental_div_mod_converse(
                    i,
                    n_past as int,
                    tok as int,
                    p as int,
                );
                assert(r@ =~= sparse(t as int, n_past as int).take(i + 1));
            }
            p = p + 1;
        }
        proof {
            assert((tok + 1) * n_past == tok * n_past + n_past) by (nonlinear_arith);
        }
        tok = tok + 1;
    }
    assert(r@ =~= sparse(t as int, n_past as int));
    r
}

/// Row `row` of a causal mask over `stride` columns, of which `limit` count.
pub open spec fn causal(rows: int, stride: int, limit: int) -> Seq<u32> {
    Seq::new(
        (rows * stride) as nat,
        |i: int|
            if i % stride <= vstd::math::min(i / stride, limit - 1) {
                1
            } else {
                0
            },
    )
}

/// A causal mask: row `r` sees the columns up to `r`, none past `limit`.
pub fn causal_mask(rows: usize, stride: usize, limit: usize) -> (r: Vec<u32>)
    requires
        0 < limit <= stride,
        rows * stride <= usize::MAX,
    ensures
        r@ == causal(rows as int, stride as int, limit as int),
{
    let mut r: Vec<u32> = Vec::new();
    let mut row: usize = 0;
    while row < rows
        invariant
            0 < limit <= stride,
            row <= rows,
            r@ == causal(rows as int, stride as int, limit as int).take((row * stride) as int),
        decreases rows - row,
    {
        proof {
            assert(row * stride + stride <= rows * stride && 0 <= row * stride)
                by (nonlinear_arith)
                requires
                    0 <= row < rows,
                    0 <= stride,
            ;
        }
        let mut k: usize = 0;
        while k < stride
            invariant
                0 < limit <= stride,
                row < rows,
                k <= stride,
                0 <= row * stride,
                row * stride + stride <= rows * stride,
                r@ == causal(rows as int, stride as int, limit as int).take(row * stride + k),
            decreases stride - k,
        {
            let v: u32 = if k <= row && k < limit {
                1
            } else {
                0
            };
            r.push(v);
            proof {
                let i = row * stride + k;
                vstd::arithmetic::div_mod::lemma_fundamental_div_mod_converse(
                    i,
                    stride as int,
                    row as int,
                    k as int,
                );
                assert(r@ =~= causal(rows as int, stride as int, limit as int).take(i + 1));
            }
            k = k + 1;
        }
        proof {
            assert((row + 1) * stride == row * stride + stride) by (nonlinear_arith);
        }
        row = row + 1;
    }
    assert(r@ =~= causal(rows as int, stride as int, limit as int));
    r
}

/// The positions below `n` that a mask row marks, in ascending order.
pub open spec fn marked(row: Seq<u32>, n: int) -> Seq<u32>
    decreases n,
{
    if n <= 0 {
        Seq::empty()
    } else if row[n - 1] != 0 {
        marked(row, n - 1).push((n - 1) as u32)
    } else {
        marked(row, n - 1)
    }
}

/// Row `tok` of a mask.
pub open spec fn mask_row(mask: Seq<u32>, n_past: int, tok: int) -> Seq<u32> {
    mask.subrange(tok * n_past, tok * n_past + n_past)
}

/// The lists of the first `n` tokens, one after the other.
pub open spec fn lists(mask: Seq<u32>, n_past: int, n: int) -> Seq<u32>
    decreases n,
{
    if n <= 0 {
        Seq::empty()
    } else {
        lists(mask, n_past, n - 1) + marked(mask_row(mask, n_past, n - 1), n_past)
    }
}

/// The marked positions of a mask, listed token by token, and where the list of
/// each token starts.
pub struct Selection {
    pub idx: Vec<u32>,
    pub off: Vec<u32>,
}

/// Turns a mask into lists.
pub fn select_positions(mask: &Vec<u32>, t: usize, n_past: usize) -> (r: Selection)
    requires
        mask@.len() == t * n_past,
        t * n_past <= u32::MAX,
    ensures
        r.idx@ == lists(mask@, n_past as int, t as int),
        r.off@.len() == t + 1,
        forall|tok: int|
            0 <= tok <= t ==> #[trigger] r.off@[tok] == lists(mask@, n_past as int, tok).len(),
{
    let mut idx: Vec<u32> = Vec::new();
    let mut off: Vec<u32> = Vec::new();
    off.push(0);
    let mut tok: usize = 0;
    while tok < t
        invariant
            mask@.len() == t * n_past,
            t * n_past <= u32::MAX,
            tok <= t,
            idx@ == lists(mask@, n_past as int, tok as int),
            idx@.len() <= tok * n_past,
            off@.len() == tok + 1,
            forall|k: int|
                0 <= k <= tok ==> #[trigger] off@[k] == lists(mask@, n_past as int, k).len(),
        decreases t - tok,
    {
        let ghost row = mask_row(mask@, n_past as int, tok as int);
        let ghost before = idx@;
        proof {
            assert(tok * n_past + n_past <= t * n_past && 0 <= tok * n_past) by (nonlinear_arith)
                requires
                    0 <= tok < t,
                    0 <= n_past,
            ;
            assert(n_past > 0 ==> n_past <= t * n_past) by (nonlinear_arith)
                requires
                    t >= 1,
                    n_past >= 0,
            ;
            assert(before + marked(row, 0) =~= before);
        }
        let mut p: usize = 0;
        while p < n_past
            invariant
                mask@.len() == t * n_past,
                t * n_past <= u32::MAX,
                n_past <= u32::MAX,
                tok < t,
                p <= n_past,
                0 <= tok * n_past,
                tok * n_past + n_past <= t * n_past,
                row == mask_row(mask@, n_past as int, tok as int),
                idx@ == before + marked(row, p as int),
                before.len() <= tok * n_past,
                marked(row, p as int).len() <= p,
            decreases n_past - p,
        {
            assert(row[p as int] == mask@[tok * n_past + p]);
            if mask[tok * n_past + p] != 0 {
                idx.push(p as u32);
            }
            proof {
                assert(idx@ =~= before + marked(row, p + 1));
            }
            p = p + 1;
        }
        proof {
            assert((tok + 1) * n_past == tok * n_past + n_past) by (nonlinear_arith);
        }
        off.push(idx.len() as u32);
        tok = tok + 1;
    }
    Selection { idx, off }
}

/// A list names exactly the marked positions, each once, in ascending order.
pub proof fn law_lists_are_masks(row: Seq<u32>, n: int)
    requires
        0 <= n <= row.len(),
        n <= u32::MAX,
    ensures
        forall|p: int|
            0 <= p < n ==> (#[trigger] marked(row, n).contains(p as u32) <==> row[p] != 0),
        forall|i: int, j: int|
            0 <= i < j < marked(row, n).len() ==> (#[trigger] marked(row, n)[i]) < (
            #[trigger] marked(row, n)[j]),
        forall|i: int| 0 <= i < marked(row, n).len() ==> (#[trigger] marked(row, n)[i]) < n,
    decreases n,
{
    if n > 0 {
        law_lists_are_masks(row, n - 1);
        let a = marked(row, n - 1);
        let b = marked(row, n);
        assert forall|p: int| 0 <= p < n implies (#[trigger] b.contains(p as u32) <==> row[p] != 0) by {
            if p < n - 1 {
                assert(a.contains(p as u32) <==> row[p] != 0);
                if a.contains(p as u32) {
                    let k = choose|k: int| 0 <= k < a.len() && a[k] == p as u32;
                    assert(b[k] == p as u32);
                }
                if b.contains(p as u32) {
                    let k = choose|k: int| 0 <= k < b.len() && b[k] == p as u32;
                    assert(k < a.len());
                    assert(a[k] == p as u32);
                }
            } else {
                if row[p] != 0 {
                    assert(b[b.len() - 1] == p as u32);
                } else if b.contains(p as u32) {
                    let k = choose|k: int| 0 <= k < b.len() && b[k] == p as u32;
                    assert(a[k] < n - 1);
                }
            }
        }
    }
}

} // verus!
