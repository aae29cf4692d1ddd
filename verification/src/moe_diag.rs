//! Diagnostics of device-built grouping tables.

use vstd::prelude::*;
use crate::group::{expert_of, group_off, group_rank, group_rows};
use crate::hash::{FNV_PRIME, FNV_START};

verus! {

/// A place where the tables of the device differ from those that the ids give.
#[allow(inconsistent_fields)]
#[derive(Clone, Copy, PartialEq, Eq, Structural, Debug)]
pub enum Mismatch {
    /// The offset of expert `at`.
    Off { at: usize, dev: i32, host: usize },
    /// The row at grouped place `at`.
    Perm { at: usize, dev: u32, host: usize },
    /// The expert of the row at grouped place `at`.
    RowExp { at: usize, dev: u32, host: usize },
}

/// Mismatches that are collected before the comparison stops.
pub const MAX_MISMATCHES: usize = 5;

/// Differences among the first `n` offsets, until the comparison stops.
pub open spec fn off_mismatches(ids: Seq<u32>, ne: int, dev: Seq<i32>, n: int) -> Seq<Mismatch>
    decreases n,
{
    if n <= 0 {
        Seq::empty()
    } else {
        let prev = off_mismatches(ids, ne, dev, n - 1);
        let host = group_off(ids, ne, n - 1);
        if prev.len() >= MAX_MISMATCHES || dev[n - 1] == host {
            prev
        } else {
            prev.push(Mismatch::Off { at: (n - 1) as usize, dev: dev[n - 1], host: host as usize })
        }
    }
}

/// Differences in the places of the first `n` rows, until the comparison stops.
pub open spec fn row_mismatches(
    ids: Seq<u32>,
    ne: int,
    perm: Seq<u32>,
    rowexp: Seq<u32>,
    n: int,
) -> Seq<Mismatch>
    decreases n,
{
    if n <= 0 {
        Seq::empty()
    } else {
        let prev = row_mismatches(ids, ne, perm, rowexp, n - 1);
        let at = group_rank(ids, ne, n - 1);
        let e = expert_of(ids[n - 1], ne);
        let moved = if prev.len() >= MAX_MISMATCHES || perm[at] == n - 1 {
            prev
        } else {
            prev.push(Mismatch::Perm { at: at as usize, dev: perm[at], host: (n - 1) as usize })
        };
        if moved.len() >= MAX_MISMATCHES || rowexp[at] == e {
            moved
        } else {
            moved.push(Mismatch::RowExp { at: at as usize, dev: rowexp[at], host: e as usize })
        }
    }
}

/// Compares the tables of the device with those that the ids give: the offsets, and
/// where these agree, the places and experts of the rows.
pub fn group_check(
    ids: &[u32],
    ne: usize,
    dev_off: &Vec<i32>,
    dev_perm: &Vec<u32>,
    dev_rowexp: &Vec<u32>,
) -> (r: Vec<Mismatch>)
    requires
        1 <= ne < usize::MAX,
        ids@.len() <= u32::MAX,
        dev_off@.len() > ne,
        dev_perm@.len() >= ids@.len(),
        dev_rowexp@.len() >= ids@.len(),
    ensures
        r@ == ({
            let off = off_mismatches(ids@, ne as int, dev_off@, ne + 1);
            if off.len() > 0 {
                off
            } else {
                row_mismatches(
                    ids@,
                    ne as int,
                    dev_perm@,
                    dev_rowexp@,
                    ids@.len() as int,
                )
            }
        }),
{
    let g = group_rows(ids, ne);
    let mut bad: Vec<Mismatch> = Vec::new();
    let mut e: usize = 0;
    while e < ne + 1
        invariant
            1 <= ne < usize::MAX,
            g.groups(ids@, ne as int),
            dev_off@.len() > ne,
            e <= ne + 1,
            bad@ == off_mismatches(ids@, ne as int, dev_off@, e as int),
        decreases ne + 1 - e,
    {
        assert(g.off@[e as int] == group_off(ids@, ne as int, e as int));
        let (dev, host): (i32, usize) = (dev_off[e], g.off[e]);
        let same = dev >= 0 && dev as usize == host;
        if bad.len() < MAX_MISMATCHES && !same {
            bad.push(Mismatch::Off { at: e, dev, host });
        }
        e = e + 1;
    }
    if bad.len() > 0 {
        return bad;
    }
    let rows: usize = ids.len();
    let mut i: usize = 0;
    while i < rows
        invariant
            1 <= ne < usize::MAX,
            rows == ids@.len(),
            rows <= u32::MAX,
            g.groups(ids@, ne as int),
            dev_perm@.len() >= rows,
            dev_rowexp@.len() >= rows,
            i <= rows,
            bad@ == row_mismatches(ids@, ne as int, dev_perm@, dev_rowexp@, i as int),
        decreases rows - i,
    {
        proof {
            crate::group::lemma_rank_in_group(ids@, ne as int, i as int);
            let x = expert_of(ids@[i as int], ne as int);
            crate::group::lemma_off_mono(ids@, ne as int, x + 1, ne as int);
            crate::group::lemma_off_total(ids@, ne as int);
            crate::group::lemma_off_mono(ids@, ne as int, 0, x);
        }
        let at: usize = g.inv[i] as usize;
        let last: usize = ne - 1;
        let host: usize = if (ids[i] as usize) < last {
            ids[i] as usize
        } else {
            last
        };
        if bad.len() < MAX_MISMATCHES && dev_perm[at] as usize != i {
            bad.push(Mismatch::Perm { at, dev: dev_perm[at], host: i });
        }
        if bad.len() < MAX_MISMATCHES && dev_rowexp[at] as usize != host {
            bad.push(Mismatch::RowExp { at, dev: dev_rowexp[at], host });
        }
        i = i + 1;
    }
    bad
}

/// The offsets and the row tables agree with the ids exactly where nothing is
/// reported.
pub proof fn law_no_mismatch_iff_tables_agree(
    ids: Seq<u32>,
    ne: int,
    off: Seq<i32>,
    perm: Seq<u32>,
    rowexp: Seq<u32>,
)
    requires
        ne >= 1,
    ensures
        off_mismatches(ids, ne, off, ne + 1).len() == 0 <==> (forall|e: int|
            0 <= e <= ne ==> (#[trigger] off[e]) == group_off(ids, ne, e)),
        row_mismatches(ids, ne, perm, rowexp, ids.len() as int).len() == 0 <==> (forall|i: int|
            #![trigger group_rank(ids, ne, i)]
            0 <= i < ids.len() ==> perm[group_rank(ids, ne, i)] == i && rowexp[group_rank(
                ids,
                ne,
                i,
            )] == expert_of(ids[i], ne)),
{
    lemma_off_agree(ids, ne, off, ne + 1);
    lemma_rows_agree(ids, ne, perm, rowexp, ids.len() as int);
}

proof fn lemma_off_agree(ids: Seq<u32>, ne: int, off: Seq<i32>, n: int)
    requires
        n >= 0,
    ensures
        off_mismatches(ids, ne, off, n).len() == 0 <==> (forall|e: int|
            0 <= e < n ==> (#[trigger] off[e]) == group_off(ids, ne, e)),
    decreases n,
{
    if n > 0 {
        lemma_off_agree(ids, ne, off, n - 1);
        assert(off_mismatches(ids, ne, off, n).len() == 0 ==> off[n - 1] == group_off(
            ids,
            ne,
            n - 1,
        ));
    }
}

proof fn lemma_rows_agree(ids: Seq<u32>, ne: int, perm: Seq<u32>, rowexp: Seq<u32>, n: int)
    requires
        n >= 0,
    ensures
        row_mismatches(ids, ne, perm, rowexp, n).len() == 0 <==> (forall|i: int|
            #![trigger group_rank(ids, ne, i)]
            0 <= i < n ==> perm[group_rank(ids, ne, i)] == i && rowexp[group_rank(ids, ne, i)]
                == expert_of(ids[i], ne)),
    decreases n,
{
    if n > 0 {
        lemma_rows_agree(ids, ne, perm, rowexp, n - 1);
        let at = group_rank(ids, ne, n - 1);
        assert(row_mismatches(ids, ne, perm, rowexp, n).len() == 0 ==> perm[at] == n - 1
            && rowexp[at] == expert_of(ids[n - 1], ne));
    }
}

/// Offsets from the device that cannot be right: they fall, end outside the
/// buffers, or one of the first eight is negative.
pub open spec fn offsets_suspect(b: Seq<i32>, ne: int, bound: int) -> bool {
    ||| exists|e: int| 0 <= e < ne && (#[trigger] b[e]) > b[e + 1]
    ||| b[ne] < 0
    ||| b[ne] > bound
    ||| exists|e: int| 0 <= e < ne && e < 8 && (#[trigger] b[e]) < 0
}

/// Whether offsets from the device cannot be right.
pub fn are_offsets_suspect(b: &Vec<i32>, ne: usize, bound: usize) -> (r: bool)
    requires
        b@.len() > ne,
    ensures
        r == offsets_suspect(b@, ne as int, bound as int),
{
    let mut e: usize = 0;
    while e < ne
        invariant
            b@.len() > ne,
            e <= ne,
            forall|f: int| 0 <= f < e ==> (#[trigger] b@[f]) <= b@[f + 1],
            forall|f: int| 0 <= f < e && f < 8 ==> (#[trigger] b@[f]) >= 0,
        decreases ne - e,
    {
        if b[e] > b[e + 1] {
            assert(b@[e as int] > b@[e + 1]);
            return true;
        }
        if e < 8 && b[e] < 0 {
            assert(b@[e as int] < 0);
            return true;
        }
        e = e + 1;
    }
    let total: i32 = b[ne];
    total < 0 || total as usize > bound
}

/// The hash by which inputs of a product are compared between runs: per word a
/// multiplication, then the word.
pub open spec fn spec_input_hash(s: Seq<u32>) -> u64
    decreases s.len(),
{
    if s.len() == 0 {
        FNV_START
    } else {
        spec_input_hash(s.drop_last()).wrapping_mul(FNV_PRIME) ^ (s.last() as u64)
    }
}

pub fn input_hash(words: &[u32]) -> (h: u64)
    ensures
        h == spec_input_hash(words@),
{
    let mut h: u64 = FNV_START;
    let mut i: usize = 0;
    while i < words.len()
        invariant
            i <= words@.len(),
            h == spec_input_hash(words@.take(i as int)),
        decreases words@.len() - i,
    {
        assert(words@.take(i + 1).drop_last() =~= words@.take(i as int));
        h = h.wrapping_mul(FNV_PRIME) ^ (words[i] as u64);
        i = i + 1;
    }
    assert(words@.take(i as int) =~= words@);
    h
}

} // verus!
