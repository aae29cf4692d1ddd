//! Content hashes by which uploaded constants are known.

use vstd::prelude::*;

verus! {

/// Start value and factor of the 64-bit FNV-1a hash.
pub const FNV_START: u64 = 0xcbf29ce484222325;

pub const FNV_PRIME: u64 = 0x100000001b3;

/// One step: fold in a value, then multiply.
pub open spec fn fnv_step(h: u64, v: u64) -> u64 {
    (h ^ v).wrapping_mul(FNV_PRIME)
}

/// The hash of 32-bit words, one step per word.
pub open spec fn fnv_words(s: Seq<u32>) -> u64
    decreases s.len(),
{
    if s.len() == 0 {
        FNV_START
    } else {
        fnv_step(fnv_words(s.drop_last()), s.last() as u64)
    }
}

/// The hash of bytes, one step per byte.
pub open spec fn fnv_bytes(s: Seq<u8>) -> u64
    decreases s.len(),
{
    if s.len() == 0 {
        FNV_START
    } else {
        fnv_step(fnv_bytes(s.drop_last()), s.last() as u64)
    }
}

/// Hash of an array of single-precision values, given as bit patterns.
pub fn fnv_hash(data: &[u32]) -> (h: u64)
    ensures
        h == fnv_words(data@),
{
    let mut h: u64 = FNV_START;
    let mut i: usize = 0;
    while i < data.len()
        invariant
            i <= data@.len(),
            h == fnv_words(data@.take(i as int)),
        decreases data@.len() - i,
    {
        assert(data@.take(i + 1).drop_last() =~= data@.take(i as int));
        h = (h ^ data[i] as u64).wrapping_mul(FNV_PRIME);
        i = i + 1;
    }
    assert(data@.take(i as int) =~= data@);
    h
}

/// Hash of an array of bytes.
pub fn fnv_hash_bytes(data: &[u8]) -> (h: u64)
    ensures
        h == fnv_bytes(data@),
{
    let mut h: u64 = FNV_START;
    let mut i: usize = 0;
    while i < data.len()
        invariant
            i <= data@.len(),
            h == fnv_bytes(data@.take(i as int)),
        decreases data@.len() - i,
    {
        assert(data@.take(i + 1).drop_last() =~= data@.take(i as int));
        h = (h ^ data[i] as u64).wrapping_mul(FNV_PRIME);
        i = i + 1;
    }
    assert(data@.take(i as int) =~= data@);
    h
}

/// Byte `k` of a word, counted from the least significant one.
pub open spec fn byte_of(w: u32, k: int) -> u8 {
    (if k == 0 {
        w % 256
    } else if k == 1 {
        w / 256 % 256
    } else if k == 2 {
        w / 65536 % 256
    } else {
        w / 16777216
    }) as u8
}

/// The bytes of words in memory, on a machine that stores the most significant
/// byte first (`big`) or last.
pub open spec fn memory_bytes(words: Seq<u32>, big: bool) -> Seq<u8> {
    Seq::new(
        4 * words.len(),
        |i: int|
            byte_of(
                words[i / 4],
                if big {
                    3 - i % 4
                } else {
                    i % 4
                },
            ),
    )
}

/// `bytemuck::cast_slice::<u32, u8>`: the same memory, read byte by byte. The
/// bytes of each word stand in the machine's order, which is one of the two for
/// all words alike; which of them it is depends on the machine and is left open.
/// The cast cannot fail: bytes have no alignment, and four of them make a word.
#[verifier::external_body]
fn word_bytes(words: &[u32]) -> (r: &[u8])
    ensures
        r@ == memory_bytes(words@, false) || r@ == memory_bytes(words@, true),
{
    bytemuck::cast_slice::<u32, u8>(words)
}

/// The key of a constant: the hash of its bytes in memory.
pub open spec fn spec_content_key(data: Seq<u32>, big: bool) -> u64 {
    fnv_bytes(memory_bytes(data, big))
}

/// Hash by which an uploaded constant is found again. It depends on the byte
/// order of the machine.
pub fn content_key(data: &[u32]) -> (h: u64)
    ensures
        h == spec_content_key(data@, false) || h == spec_content_key(data@, true),
{
    fnv_hash_bytes(word_bytes(data))
}

/// The number that undoes the factor: `FNV_PRIME * FNV_INVERSE` is 1 modulo 2^64.
pub const FNV_INVERSE: u64 = 0xce965057aff6957b;

/// A step keeps different states apart, and different values.
proof fn lemma_step_injective(h1: u64, v1: u64, h2: u64, v2: u64)
    requires
        fnv_step(h1, v1) == fnv_step(h2, v2),
    ensures
        h1 ^ v1 == h2 ^ v2,
        v1 == v2 ==> h1 == h2,
        h1 == h2 ==> v1 == v2,
{
    let (x, y) = (h1 ^ v1, h2 ^ v2);
    lemma_factor_undone(x);
    lemma_factor_undone(y);
    assert(h1 ^ v1 == h2 ^ v2);
    assert(h1 ^ v1 == h2 ^ v2 && v1 == v2 ==> h1 == h2) by (bit_vector);
    assert(h1 ^ v1 == h2 ^ v2 && h1 == h2 ==> v1 == v2) by (bit_vector);
}

proof fn lemma_factor_undone(x: u64)
    ensures
        x.wrapping_mul(FNV_PRIME) as int * FNV_INVERSE as int % 0x1_0000_0000_0000_0000 == x,
{
    let m: int = 0x1_0000_0000_0000_0000;
    let (p, q) = (FNV_PRIME as int, FNV_INVERSE as int);
    vstd::arithmetic::div_mod::lemma_mul_mod_noop_left(x * p, q, m);
    assert(x * p * q == x * (p * q)) by (nonlinear_arith);
    let k: int = 0xce9650590f;
    assert(p * q == k * m + 1);
    assert(x * (k * m + 1) == m * (x * k) + x) by (nonlinear_arith);
    vstd::arithmetic::div_mod::lemma_mod_multiples_vanish(x * k, x as int, m);
    vstd::arithmetic::div_mod::lemma_small_mod(x as nat, m as nat);
}

/// Arrays that differ in one word have different hashes.
pub proof fn law_one_word_changes_the_hash(a: Seq<u32>, b: Seq<u32>, i: int)
    requires
        a.len() == b.len(),
        0 <= i < a.len(),
        a[i] != b[i],
        forall|j: int| 0 <= j < a.len() && j != i ==> a[j] == b[j],
    ensures
        fnv_words(a) != fnv_words(b),
    decreases a.len(),
{
    let n = a.len() - 1;
    if fnv_words(a) == fnv_words(b) {
        lemma_step_injective(
            fnv_words(a.drop_last()),
            a.last() as u64,
            fnv_words(b.drop_last()),
            b.last() as u64,
        );
    }
    if i == n {
        assert(a.drop_last() =~= b.drop_last());
    } else {
        assert(a[n] == b[n]);
        law_one_word_changes_the_hash(a.drop_last(), b.drop_last(), i);
    }
}

/// Arrays that differ in one byte have different hashes.
pub proof fn law_one_byte_changes_the_hash(a: Seq<u8>, b: Seq<u8>, i: int)
    requires
        a.len() == b.len(),
        0 <= i < a.len(),
        a[i] != b[i],
        forall|j: int| 0 <= j < a.len() && j != i ==> a[j] == b[j],
    ensures
        fnv_bytes(a) != fnv_bytes(b),
    decreases a.len(),
{
    let n = a.len() - 1;
    if fnv_bytes(a) == fnv_bytes(b) {
        lemma_step_injective(
            fnv_bytes(a.drop_last()),
            a.last() as u64,
            fnv_bytes(b.drop_last()),
            b.last() as u64,
        );
    }
    if i == n {
        assert(a.drop_last() =~= b.drop_last());
    } else {
        assert(a[n] == b[n]);
        law_one_byte_changes_the_hash(a.drop_last(), b.drop_last(), i);
    }
}

} // verus!
