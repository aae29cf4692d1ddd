//! Activations quantised to q8, packed into words.

use vstd::prelude::*;
use crate::ggml::spec_xq_words;

verus! {

/// 32 quantised values and their scale, a single-precision pattern.
#[derive(Clone, Copy)]
pub struct Q8Block {
    pub qs: [i8; 32],
    pub d: u32,
}

/// A signed byte as it stands in memory.
pub open spec fn raw_byte(q: i8) -> int {
    if q < 0 {
        q + 256
    } else {
        q as int
    }
}

fn raw(q: i8) -> (r: u32)
    ensures
        r == raw_byte(q),
        r < 256,
{
    if q < 0 {
        (q as i32 + 256) as u32
    } else {
        q as u32
    }
}

/// Values `4c .. 4c + 4` of a block in one word, the first in the lowest byte.
pub open spec fn packed_word(b: Q8Block, c: int) -> u32 {
    (raw_byte(b.qs@[4 * c]) + 256 * raw_byte(b.qs@[4 * c + 1]) + 65536 * raw_byte(
        b.qs@[4 * c + 2],
    ) + 16777216 * raw_byte(b.qs@[4 * c + 3])) as u32
}

/// The sum of the first `n` values of half `h` of a block.
pub open spec fn half_sum(b: Q8Block, h: int, n: int) -> int
    decreases n,
{
    if n <= 0 {
        0
    } else {
        half_sum(b, h, n - 1) + b.qs@[16 * h + n - 1]
    }
}

/// A signed sum as a word.
pub open spec fn sum_word(s: int) -> u32 {
    (if s < 0 {
        s + 0x1_0000_0000
    } else {
        s
    }) as u32
}

/// A row: the values, eight words per block, then the scales, then, where asked
/// for, the two half sums of each block.
pub open spec fn packed_row(bs: Seq<Q8Block>, sums: bool) -> Seq<u32> {
    Seq::new(8 * bs.len(), |i: int| packed_word(bs[i / 8], i % 8)) + Seq::new(
        bs.len(),
        |i: int| bs[i].d,
    ) + if sums {
        Seq::new(2 * bs.len(), |i: int| sum_word(half_sum(bs[i / 2], i % 2, 16)))
    } else {
        Seq::empty()
    }
}

/// A packed row with sums is exactly as long as the row stride of quantised
/// activations.
pub proof fn law_packed_row_length(bs: Seq<Q8Block>)
    ensures
        packed_row(bs, true).len() == spec_xq_words(32 * bs.len() as int),
        packed_row(bs, false).len() == 32 * bs.len() as int / 4 + 32 * bs.len() as int / 32,
{
}

proof fn lemma_half_sum_bounds(b: Q8Block, h: int, n: int)
    requires
        0 <= h < 2,
        0 <= n <= 16,
    ensures
        -128 * n <= half_sum(b, h, n) <= 127 * n,
    decreases n,
{
    if n > 0 {
        lemma_half_sum_bounds(b, h, n - 1);
    }
}

fn half_sum_of(b: &Q8Block, h: usize) -> (r: u32)
    requires
        h < 2,
    ensures
        r == sum_word(half_sum(*b, h as int, 16)),
{
    let mut s: i32 = 0;
    let mut n: usize = 0;
    while n < 16
        invariant
            h < 2,
            n <= 16,
            s == half_sum(*b, h as int, n as int),
            -128 * n <= s <= 127 * n,
        decreases 16 - n,
    {
        s = s + b.qs[16 * h + n] as i32;
        n = n + 1;
    }
    if s < 0 {
        (s as i64 + 0x1_0000_0000) as u32
    } else {
        s as u32
    }
}

fn word_of(b: &Q8Block, c: usize) -> (r: u32)
    requires
        c < 8,
    ensures
        r == packed_word(*b, c as int),
{
    raw(b.qs[4 * c]) + 256 * raw(b.qs[4 * c + 1]) + 65536 * raw(b.qs[4 * c + 2]) + 16777216 * raw(
        b.qs[4 * c + 3],
    )
}

/// Packs a row.
pub fn pack_row(bs: &Vec<Q8Block>, sums: bool) -> (r: Vec<u32>)
    requires
        bs@.len() * 8 <= usize::MAX,
    ensures
        r@ == packed_row(bs@, sums),
{
    let mut r: Vec<u32> = Vec::new();
    let n: usize = bs.len();
    let ghost a = Seq::new(8 * bs@.len(), |i: int| packed_word(bs@[i / 8], i % 8));
    let ghost b = Seq::new(bs@.len(), |i: int| bs@[i].d);
    let ghost c = Seq::new(2 * bs@.len(), |i: int| sum_word(half_sum(bs@[i / 2], i % 2, 16)));
    let mut i: usize = 0;
    while i < 8 * n
        invariant
            n == bs@.len(),
            n * 8 <= usize::MAX,
            i <= 8 * n,
            a == Seq::new(8 * bs@.len(), |i: int| packed_word(bs@[i / 8], i % 8)),
            r@ == a.take(i as int),
        decreases 8 * n - i,
    {
        r.push(word_of(&bs[i / 8], i % 8));
        proof {
            assert(r@ =~= a.take(i + 1));
        }
        i = i + 1;
    }
    assert(r@ =~= a + b.take(0));
    let mut j: usize = 0;
    while j < n
        invariant
            n == bs@.len(),
            j <= n,
            b == Seq::new(bs@.len(), |i: int| bs@[i].d),
            r@ == a + b.take(j as int),
        decreases n - j,
    {
        r.push(bs[j].d);
        proof {
            assert(r@ =~= a + b.take(j + 1));
        }
        j = j + 1;
    }
    assert(b.take(n as int) =~= b);
    assert(r@ =~= a + b + c.take(0));
    if sums {
        let mut k: usize = 0;
        while k < 2 * n
            invariant
                n == bs@.len(),
                n * 8 <= usize::MAX,
                k <= 2 * n,
                c == Seq::new(2 * bs@.len(), |i: int| sum_word(half_sum(bs@[i / 2], i % 2, 16))),
                r@ == a + b + c.take(k as int),
            decreases 2 * n - k,
        {
            r.push(half_sum_of(&bs[k / 2], k % 2));
            proof {
                assert(r@ =~= a + b + c.take(k + 1));
            }
            k = k + 1;
        }
        assert(c.take(2 * n) =~= c);
    }
    assert(r@ =~= packed_row(bs@, sums));
    r
}

/// The packed rows of several tokens, one after the other.
pub open spec fn packed_rows(rows: Seq<Vec<Q8Block>>, sums: bool) -> Seq<u32>
    decreases rows.len(),
{
    if rows.len() == 0 {
        Seq::empty()
    } else {
        packed_rows(rows.drop_last(), sums) + packed_row(rows.last()@, sums)
    }
}

/// Packs the rows of several tokens.
pub fn pack_rows(rows: &Vec<Vec<Q8Block>>, sums: bool) -> (r: Vec<u32>)
    requires
        forall|i: int| 0 <= i < rows@.len() ==> (#[trigger] rows@[i])@.len() * 8 <= usize::MAX,
    ensures
        r@ == packed_rows(rows@, sums),
{
    let mut r: Vec<u32> = Vec::new();
    let mut i: usize = 0;
    while i < rows.len()
        invariant
            i <= rows@.len(),
            forall|i: int|
                0 <= i < rows@.len() ==> (#[trigger] rows@[i])@.len() * 8 <= usize::MAX,
            r@ == packed_rows(rows@.take(i as int), sums),
        decreases rows@.len() - i,
    {
        assert(rows@.take(i + 1).drop_last() =~= rows@.take(i as int));
        assert(rows@[i as int]@.len() * 8 <= usize::MAX);
        let mut p = pack_row(&rows[i], sums);
        r.append(&mut p);
        i = i + 1;
    }
    assert(rows@.take(i as int) =~= rows@);
    r
}

/// Byte `k` of a word, read as a signed number.
pub open spec fn signed_byte(w: u32, k: int) -> int {
    let b = crate::hash::byte_of(w, k) as int;
    if b >= 128 {
        b - 256
    } else {
        b
    }
}

fn byte_at(w: u32, k: usize) -> (r: i8)
    requires
        k < 4,
    ensures
        r == signed_byte(w, k as int),
{
    let b: u32 = if k == 0 {
        w % 256
    } else if k == 1 {
        w / 256 % 256
    } else if k == 2 {
        w / 65536 % 256
    } else {
        w / 16777216
    };
    if b >= 128 {
        (b as i32 - 256) as i8
    } else {
        b as i8
    }
}

/// A quantised value and the scale of its block.
#[derive(Clone, Copy, PartialEq, Eq, Structural, Debug)]
pub struct Scaled {
    pub q: i8,
    pub d: u32,
}

/// Value `i` of a packed row of `n_in` values, and its scale. Values behind the last
/// whole block were not packed, and read as zero.
pub open spec fn unpacked(words: Seq<u32>, n_in: int, i: int) -> Scaled {
    if i / 32 < n_in / 32 {
        Scaled { q: signed_byte(words[i / 4], i % 4) as i8, d: words[n_in / 4 + i / 32] }
    } else {
        Scaled { q: 0, d: 0 }
    }
}

/// Reads the values of a packed row back.
pub fn unpack_row(words: &Vec<u32>, n_in: usize) -> (r: Vec<Scaled>)
    requires
        words@.len() >= n_in / 4 + n_in / 32,
    ensures
        r@ == Seq::new(n_in as nat, |i: int| unpacked(words@, n_in as int, i)),
{
    let mut r: Vec<Scaled> = Vec::new();
    let mut i: usize = 0;
    while i < n_in
        invariant
            words@.len() >= n_in / 4 + n_in / 32,
            i <= n_in,
            r@ == Seq::new(i as nat, |j: int| unpacked(words@, n_in as int, j)),
        decreases n_in - i,
    {
        let s = if i / 32 < n_in / 32 {
            Scaled { q: byte_at(words[i / 4], i % 4), d: words[n_in / 4 + i / 32] }
        } else {
            Scaled { q: 0, d: 0 }
        };
        r.push(s);
        i = i + 1;
        assert(r@ =~= Seq::new(i as nat, |j: int| unpacked(words@, n_in as int, j)));
    }
    r
}

/// What was packed reads back: value `i` of a row is value `i mod 32` of its
/// block, with that block's scale.
pub proof fn law_packing_reads_back(bs: Seq<Q8Block>, sums: bool, i: int)
    requires
        0 <= i < 32 * bs.len(),
    ensures
        signed_byte(packed_row(bs, sums)[i / 4], i % 4) == bs[i / 32].qs@[i % 32],
        packed_row(bs, sums)[32 * bs.len() as int / 4 + i / 32] == bs[i / 32].d,
{
    let b = bs[i / 32];
    let c = i / 4 % 8;
    assert(i / 4 / 8 == i / 32);
    assert(packed_row(bs, sums)[i / 4] == packed_word(b, c));
    assert(i % 32 == 4 * c + i % 4);
    let (x0, x1, x2, x3) = (
        raw_byte(b.qs@[4 * c]),
        raw_byte(b.qs@[4 * c + 1]),
        raw_byte(b.qs@[4 * c + 2]),
        raw_byte(b.qs@[4 * c + 3]),
    );
    let w = packed_word(b, c);
    assert(w == x0 + 256 * x1 + 65536 * x2 + 16777216 * x3);
    assert(w % 256 == x0);
    assert(w / 256 == x1 + 256 * x2 + 65536 * x3);
    assert(w / 256 % 256 == x1);
    assert(w / 65536 == x2 + 256 * x3);
    assert(w / 65536 % 256 == x2);
    assert(w / 16777216 == x3);
}

} // verus!
