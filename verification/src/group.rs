//! Grouping of routed rows by expert.
//!
//! A mixture-of-experts layer hands over one expert id per row, in order of
//! probability. A stable counting sort brings the rows of each expert together,
//! so that one launch per expert (or one launch over expert-aligned tiles)
//! suffices, and the inverse permutation restores the row order afterwards.

use vstd::prelude::*;
use crate::arith::{ceil_div, lemma_ceil_div, round_up};

verus! {

/// Rows of one tile of the grouped kernels.
pub const TILE: usize = 16;

/// The expert that serves a row: its id, where ids past the last expert fall
/// back to the last one.
pub open spec fn expert_of(id: u32, ne: int) -> int {
    if id < ne {
        id as int
    } else {
        ne - 1
    }
}

/// How many of `ids` are served by expert `e`.
pub open spec fn count_of(ids: Seq<u32>, ne: int, e: int) -> int
    decreases ids.len(),
{
    if ids.len() == 0 {
        0
    } else {
        count_of(ids.drop_last(), ne, e) + if expert_of(ids.last(), ne) == e {
            1int
        } else {
            0int
        }
    }
}

/// The first grouped row of expert `e`: the number of rows served by the
/// experts before it.
pub open spec fn group_off(ids: Seq<u32>, ne: int, e: int) -> int
    decreases e,
{
    if e <= 0 {
        0
    } else {
        group_off(ids, ne, e - 1) + count_of(ids, ne, e - 1)
    }
}

/// Where row `i` goes: behind the rows of earlier experts and behind the
/// earlier rows of its own expert.
pub open spec fn group_rank(ids: Seq<u32>, ne: int, i: int) -> int {
    group_off(ids, ne, expert_of(ids[i], ne)) + count_of(
        ids.take(i),
        ne,
        expert_of(ids[i], ne),
    )
}

/// The first row of expert `e` in the layout where each expert starts on a tile.
pub open spec fn pad_off(ids: Seq<u32>, ne: int, e: int) -> int
    decreases e,
{
    if e <= 0 {
        0
    } else {
        pad_off(ids, ne, e - 1) + round_up(count_of(ids, ne, e - 1), TILE as int)
    }
}

/// Where row `i` goes in the padded layout.
pub open spec fn pad_rank(ids: Seq<u32>, ne: int, i: int) -> int {
    pad_off(ids, ne, expert_of(ids[i], ne)) + count_of(
        ids.take(i),
        ne,
        expert_of(ids[i], ne),
    )
}

/// Rows of the padded layout: never less than one tile.
pub open spec fn pad_rows(ids: Seq<u32>, ne: int) -> int {
    vstd::math::max(pad_off(ids, ne, ne), TILE as int)
}

pub proof fn lemma_count_bounds(ids: Seq<u32>, ne: int, e: int)
    ensures
        0 <= count_of(ids, ne, e) <= ids.len(),
    decreases ids.len(),
{
    if ids.len() > 0 {
        lemma_count_bounds(ids.drop_last(), ne, e);
    }
}

/// Counting one row further.
pub proof fn lemma_count_step(ids: Seq<u32>, ne: int, e: int, i: int)
    requires
        0 <= i < ids.len(),
    ensures
        count_of(ids.take(i + 1), ne, e) == count_of(ids.take(i), ne, e) + if expert_of(
            ids[i],
            ne,
        ) == e {
            1int
        } else {
            0int
        },
{
    assert(ids.take(i + 1).drop_last() =~= ids.take(i));
}

pub proof fn lemma_count_mono(ids: Seq<u32>, ne: int, e: int, i: int, j: int)
    requires
        0 <= i <= j <= ids.len(),
    ensures
        count_of(ids.take(i), ne, e) <= count_of(ids.take(j), ne, e),
    decreases j - i,
{
    if i < j {
        lemma_count_mono(ids, ne, e, i, j - 1);
        lemma_count_step(ids, ne, e, j - 1);
    }
}

pub proof fn lemma_off_mono(ids: Seq<u32>, ne: int, a: int, b: int)
    requires
        0 <= a <= b,
    ensures
        0 <= group_off(ids, ne, a) <= group_off(ids, ne, b),
        0 <= pad_off(ids, ne, a) <= pad_off(ids, ne, b),
    decreases b,
{
    if b > 0 {
        lemma_count_bounds(ids, ne, b - 1);
        lemma_ceil_div(count_of(ids, ne, b - 1), TILE as int);
        if a < b {
            lemma_off_mono(ids, ne, a, b - 1);
        } else {
            lemma_off_mono(ids, ne, a - 1, a - 1);
        }
    }
}

/// One more row raises by one the offsets of the experts behind its own.
proof fn lemma_off_push(ids: Seq<u32>, ne: int, e: int)
    requires
        ids.len() > 0,
        0 <= e,
    ensures
        group_off(ids, ne, e) == group_off(ids.drop_last(), ne, e) + if expert_of(ids.last(), ne)
            < e && expert_of(ids.last(), ne) >= 0 {
            1int
        } else {
            0int
        },
    decreases e,
{
    if e > 0 {
        lemma_off_push(ids, ne, e - 1);
    }
}

/// The groups together hold every row.
pub proof fn lemma_off_total(ids: Seq<u32>, ne: int)
    requires
        ne >= 1,
    ensures
        group_off(ids, ne, ne) == ids.len(),
    decreases ids.len(),
{
    if ids.len() > 0 {
        lemma_off_push(ids, ne, ne);
        lemma_off_total(ids.drop_last(), ne);
    } else {
        lemma_off_empty(ids, ne, ne);
    }
}

proof fn lemma_off_empty(ids: Seq<u32>, ne: int, e: int)
    requires
        ids.len() == 0,
        0 <= e,
    ensures
        group_off(ids, ne, e) == 0,
    decreases e,
{
    if e > 0 {
        lemma_off_empty(ids, ne, e - 1);
    }
}

/// A row's place lies inside its expert's range, in both layouts.
pub proof fn lemma_rank_in_group(ids: Seq<u32>, ne: int, i: int)
    requires
        ne >= 1,
        0 <= i < ids.len(),
    ensures
        0 <= expert_of(ids[i], ne) < ne,
        count_of(ids.take(i), ne, expert_of(ids[i], ne)) < count_of(ids, ne, expert_of(ids[i], ne)),
        group_off(ids, ne, expert_of(ids[i], ne)) <= group_rank(ids, ne, i),
        group_rank(ids, ne, i) < group_off(ids, ne, expert_of(ids[i], ne) + 1),
        group_rank(ids, ne, i) < ids.len(),
        pad_off(ids, ne, expert_of(ids[i], ne)) <= pad_rank(ids, ne, i),
        pad_rank(ids, ne, i) < pad_off(ids, ne, expert_of(ids[i], ne) + 1),
        pad_rank(ids, ne, i) < pad_rows(ids, ne),
{
    let e: int = expert_of(ids[i], ne);
    lemma_count_bounds(ids.take(i), ne, e);
    lemma_count_step(ids, ne, e, i);
    lemma_count_mono(ids, ne, e, i + 1, ids.len() as int);
    assert(ids.take(ids.len() as int) =~= ids);
    lemma_off_mono(ids, ne, e + 1, ne);
    lemma_off_total(ids, ne);
    lemma_count_bounds(ids, ne, e);
    lemma_ceil_div(count_of(ids, ne, e), TILE as int);
}

/// No two rows share a place, in either layout.
pub proof fn lemma_rank_injective(ids: Seq<u32>, ne: int, i: int, j: int)
    requires
        ne >= 1,
        0 <= i < j < ids.len(),
    ensures
        group_rank(ids, ne, i) != group_rank(ids, ne, j),
        pad_rank(ids, ne, i) != pad_rank(ids, ne, j),
        expert_of(ids[i], ne) == expert_of(ids[j], ne) ==> group_rank(ids, ne, i) < group_rank(
            ids,
            ne,
            j,
        ),
        expert_of(ids[i], ne) < expert_of(ids[j], ne) ==> group_rank(ids, ne, i) < group_rank(
            ids,
            ne,
            j,
        ),
        expert_of(ids[i], ne) > expert_of(ids[j], ne) ==> group_rank(ids, ne, i) > group_rank(
            ids,
            ne,
            j,
        ),
{
    let a: int = expert_of(ids[i], ne);
    let b: int = expert_of(ids[j], ne);
    lemma_rank_in_group(ids, ne, i);
    lemma_rank_in_group(ids, ne, j);
    if a == b {
        lemma_count_step(ids, ne, a, i);
        lemma_count_mono(ids, ne, a, i + 1, j);
    } else if a < b {
        lemma_off_mono(ids, ne, a + 1, b);
    } else {
        lemma_off_mono(ids, ne, b + 1, a);
    }
}

/// Every grouped row belongs to some expert's range.
pub proof fn lemma_find_group(ids: Seq<u32>, ne: int, p: int, hi: int) -> (e: int)
    requires
        ne >= 1,
        0 <= hi <= ne,
        0 <= p < group_off(ids, ne, hi),
    ensures
        0 <= e < hi,
        group_off(ids, ne, e) <= p < group_off(ids, ne, e + 1),
    decreases hi,
{
    if p >= group_off(ids, ne, hi - 1) {
        hi - 1
    } else {
        lemma_find_group(ids, ne, p, hi - 1)
    }
}

/// The permutation that groups the rows, its inverse, and the range of each
/// expert.
pub struct ExpertGroups {
    pub off: Vec<usize>,
    pub perm: Vec<u32>,
    pub inv: Vec<u32>,
}

impl ExpertGroups {
    /// The tables are those of `ids` over `ne` experts.
    pub open spec fn groups(&self, ids: Seq<u32>, ne: int) -> bool {
        &&& self.off@.len() == ne + 1
        &&& self.perm@.len() == ids.len()
        &&& self.inv@.len() == ids.len()
        &&& forall|e: int| 0 <= e <= ne ==> #[trigger] self.off@[e] == group_off(ids, ne, e)
        &&& forall|i: int|
            0 <= i < ids.len() ==> #[trigger] self.inv@[i] == group_rank(ids, ne, i)
        &&& forall|p: int|
            0 <= p < ids.len() ==> (#[trigger] self.perm@[p]) < ids.len() && group_rank(
                ids,
                ne,
                self.perm@[p] as int,
            ) == p
    }
}

impl ExpertGroups {
    /// The two tables over `rows` rows undo each other.
    pub open spec fn undoes(&self, rows: int) -> bool {
        &&& self.perm@.len() == rows
        &&& self.inv@.len() == rows
        &&& forall|i: int|
            0 <= i < rows ==> (#[trigger] self.inv@[i]) < rows && self.perm@[self.inv@[i] as int]
                == i
        &&& forall|p: int|
            0 <= p < rows ==> (#[trigger] self.perm@[p]) < rows && self.inv@[self.perm@[p] as int]
                == p
    }
}

/// Index of the expert that serves `id`.
pub fn clamp_expert(id: u32, ne: usize) -> (e: usize)
    requires
        ne >= 1,
    ensures
        e == expert_of(id, ne as int),
        e < ne,
{
    if (id as usize) < ne {
        id as usize
    } else {
        ne - 1
    }
}

/// Stable counting sort of the rows by expert.
pub fn group_rows(ids: &[u32], ne: usize) -> (g: ExpertGroups)
    requires
        1 <= ne < usize::MAX,
        ids@.len() <= u32::MAX,
    ensures
        g.groups(ids@, ne as int),
{
    let rows: usize = ids.len();
    let mut off: Vec<usize> = vec![0; ne + 1];
    let mut i: usize = 0;
    while i < rows
        invariant
            1 <= ne < usize::MAX,
            rows == ids@.len(),
            i <= rows,
            off@.len() == ne + 1,
            off@[0] == 0,
            forall|e: int|
                0 <= e < ne ==> #[trigger] off@[e + 1] == count_of(ids@.take(i as int), ne as int, e),
        decreases rows - i,
    {
        let e: usize = clamp_expert(ids[i], ne);
        proof {
            lemma_count_bounds(ids@.take(i as int), ne as int, e as int);
            assert forall|f: int| 0 <= f < ne implies count_of(ids@.take(i + 1), ne as int, f)
                == count_of(ids@.take(i as int), ne as int, f) + if f == e { 1int } else { 0int } by {
                lemma_count_step(ids@, ne as int, f, i as int);
            }
            assert(off@[e + 1] <= rows);
        }
        let n: usize = off[e + 1] + 1;
        off.set(e + 1, n);
        i = i + 1;
    }
    proof {
        assert(ids@.take(rows as int) =~= ids@);
        assert forall|f: int| 0 < f <= ne implies #[trigger] off@[f] == count_of(
            ids@,
            ne as int,
            f - 1,
        ) by {
            assert(off@[(f - 1) + 1] == count_of(ids@, ne as int, f - 1));
        }
    }
    let mut e: usize = 0;
    while e < ne
        invariant
            1 <= ne < usize::MAX,
            rows == ids@.len(),
            e <= ne,
            off@.len() == ne + 1,
            forall|f: int| 0 <= f <= e ==> #[trigger] off@[f] == group_off(ids@, ne as int, f),
            forall|f: int| e < f <= ne ==> #[trigger] off@[f] == count_of(ids@, ne as int, f - 1),
        decreases ne - e,
    {
        proof {
            lemma_off_mono(ids@, ne as int, e + 1, ne as int);
            lemma_off_total(ids@, ne as int);
            assert(off@[e + 1] == count_of(ids@, ne as int, e as int));
        }
        let n: usize = off[e + 1] + off[e];
        off.set(e + 1, n);
        e = e + 1;
    }
    let mut cur: Vec<usize> = Vec::new();
    let mut f: usize = 0;
    while f < ne
        invariant
            f <= ne,
            cur@.len() == f,
            off@.len() == ne + 1,
            forall|d: int| 0 <= d < f ==> #[trigger] cur@[d] == off@[d],
        decreases ne - f,
    {
        let n: usize = off[f];
        cur.push(n);
        f = f + 1;
    }
    let mut perm: Vec<u32> = vec![0; rows];
    let mut inv: Vec<u32> = vec![0; rows];
    let mut j: usize = 0;
    while j < rows
        invariant
            1 <= ne < usize::MAX,
            rows == ids@.len(),
            rows <= u32::MAX,
            j <= rows,
            cur@.len() == ne,
            perm@.len() == rows,
            inv@.len() == rows,
            forall|d: int|
                0 <= d < ne ==> #[trigger] cur@[d] == group_off(ids@, ne as int, d) + count_of(
                    ids@.take(j as int),
                    ne as int,
                    d,
                ),
            forall|i: int|
                0 <= i < j ==> #[trigger] inv@[i] == group_rank(ids@, ne as int, i) && perm@[inv@[i] as int]
                    == i,
            forall|d: int, p: int|
                #![trigger cur@[d], perm@[p]]
                0 <= d < ne && group_off(ids@, ne as int, d) <= p < cur@[d] ==> perm@[p] < j
                    && group_rank(ids@, ne as int, perm@[p] as int) == p,
        decreases rows - j,
    {
        let e: usize = clamp_expert(ids[j], ne);
        let p: usize = cur[e];
        proof {
            lemma_rank_in_group(ids@, ne as int, j as int);
            assert forall|i: int| 0 <= i < j implies group_rank(ids@, ne as int, i) != p by {
                lemma_rank_injective(ids@, ne as int, i, j as int);
            }
            assert forall|d: int| 0 <= d < ne implies count_of(ids@.take(j + 1), ne as int, d)
                == count_of(ids@.take(j as int), ne as int, d) + if d == e { 1int } else { 0int } by {
                lemma_count_step(ids@, ne as int, d, j as int);
            }
            assert forall|i: int| 0 <= i < j implies 0 <= #[trigger] inv@[i] < rows by {
                lemma_rank_in_group(ids@, ne as int, i);
            }
            assert forall|d: int| 0 <= d < ne implies 0 <= group_off(ids@, ne as int, d)
                && #[trigger] cur@[d] <= rows by {
                lemma_count_mono(ids@, ne as int, d, j as int, rows as int);
                assert(ids@.take(rows as int) =~= ids@);
                lemma_off_mono(ids@, ne as int, d, d + 1);
                lemma_off_mono(ids@, ne as int, d + 1, ne as int);
                lemma_off_total(ids@, ne as int);
            }
        }
        let ghost cur0 = cur@;
        let ghost perm0 = perm@;
        perm.set(p, j as u32);
        inv.set(j, p as u32);
        cur.set(e, p + 1);
        proof {
            assert forall|d: int, q: int|
                #![trigger cur@[d], perm@[q]]
                0 <= d < ne && group_off(ids@, ne as int, d) <= q < cur@[d] implies perm@[q] < j + 1
                && group_rank(ids@, ne as int, perm@[q] as int) == q by {
                if q != p {
                    assert(q < cur0[d]);
                    assert(perm@[q] == perm0[q]);
                }
            }
        }
        j = j + 1;
    }
    let g = ExpertGroups { off, perm, inv };
    proof {
        assert(ids@.take(rows as int) =~= ids@);
        lemma_off_total(ids@, ne as int);
        assert forall|p: int| 0 <= p < ids@.len() implies (#[trigger] g.perm@[p]) < ids@.len()
            && group_rank(ids@, ne as int, g.perm@[p] as int) == p by {
            let e = lemma_find_group(ids@, ne as int, p, ne as int);
            assert(cur@[e] == group_off(ids@, ne as int, e + 1));
        }
    }
    g
}

/// The expert of each grouped row.
pub fn row_experts(ids: &[u32], perm: &[u32], ne: usize) -> (r: Vec<u32>)
    requires
        1 <= ne <= u32::MAX,
        perm@.len() == ids@.len(),
        forall|p: int| 0 <= p < perm@.len() ==> (#[trigger] perm@[p]) < ids@.len(),
    ensures
        r@.len() == ids@.len(),
        forall|p: int|
            0 <= p < r@.len() ==> #[trigger] r@[p] == expert_of(ids@[perm@[p] as int], ne as int),
{
    let mut r: Vec<u32> = Vec::new();
    let mut p: usize = 0;
    while p < ids.len()
        invariant
            1 <= ne <= u32::MAX,
            p <= ids@.len(),
            r@.len() == p,
            perm@.len() == ids@.len(),
            forall|q: int| 0 <= q < perm@.len() ==> (#[trigger] perm@[q]) < ids@.len(),
            forall|q: int|
                0 <= q < p ==> #[trigger] r@[q] == expert_of(ids@[perm@[q] as int], ne as int),
        decreases ids.len() - p,
    {
        let e: usize = clamp_expert(ids[perm[p] as usize], ne);
        r.push(e as u32);
        p = p + 1;
    }
    r
}

/// The layout in which every expert starts on a tile boundary, so that each
/// tile belongs to one expert.
pub struct PaddedGroups {
    pub rows_pad: usize,
    pub perm_pad: Vec<u32>,
    pub inv_pad: Vec<u32>,
    pub tilexp: Vec<u32>,
}

impl PaddedGroups {
    /// The tables are the padded ones of `ids` over `ne` experts; a padding row
    /// repeats row 0.
    pub open spec fn pads(&self, ids: Seq<u32>, ne: int) -> bool {
        &&& self.rows_pad == pad_rows(ids, ne)
        &&& self.perm_pad@.len() == self.rows_pad
        &&& self.inv_pad@.len() == ids.len()
        &&& self.tilexp@.len() == self.rows_pad / TILE
        &&& forall|i: int|
            0 <= i < ids.len() ==> #[trigger] self.inv_pad@[i] == pad_rank(ids, ne, i)
        &&& forall|i: int|
            0 <= i < ids.len() ==> self.perm_pad@[#[trigger] pad_rank(ids, ne, i)] == i
        &&& forall|q: int|
            0 <= q < self.rows_pad && (forall|i: int|
                0 <= i < ids.len() ==> #[trigger] pad_rank(ids, ne, i) != q)
                ==> #[trigger] self.perm_pad@[q] == 0
        &&& forall|e: int, g: int|
            #![trigger pad_off(ids, ne, e), self.tilexp@[g]]
            0 <= e < ne && pad_off(ids, ne, e) <= g * TILE < pad_off(ids, ne, e + 1)
                ==> self.tilexp@[g] == e
        &&& pad_off(ids, ne, ne) == 0 ==> self.tilexp@[0] == 0
    }
}

/// Expert boundaries of the padded layout are tile boundaries.
pub proof fn lemma_pad_off_aligned(ids: Seq<u32>, ne: int, e: int)
    requires
        0 <= e,
    ensures
        pad_off(ids, ne, e) % (TILE as int) == 0,
    decreases e,
{
    if e > 0 {
        lemma_pad_off_aligned(ids, ne, e - 1);
        let c: int = crate::arith::spec_ceil_div(count_of(ids, ne, e - 1), TILE as int);
        assert((c * 16) % 16 == 0) by {
            vstd::arithmetic::div_mod::lemma_mod_multiples_basic(c, 16);
        }
        assert((pad_off(ids, ne, e - 1) + c * 16) % 16 == 0);
    }
}

/// Each expert adds at most one tile less one row of padding.
pub proof fn lemma_pad_off_bound(ids: Seq<u32>, ne: int, e: int)
    requires
        0 <= e,
    ensures
        group_off(ids, ne, e) <= pad_off(ids, ne, e) <= group_off(ids, ne, e) + 15 * e,
    decreases e,
{
    if e > 0 {
        lemma_pad_off_bound(ids, ne, e - 1);
        lemma_count_bounds(ids, ne, e - 1);
        lemma_ceil_div(count_of(ids, ne, e - 1), TILE as int);
    }
}

/// The padded tables of a grouping.
pub fn pad_groups(ids: &[u32], ne: usize, g: &ExpertGroups) -> (r: PaddedGroups)
    requires
        1 <= ne,
        ids@.len() + 16 * ne <= u32::MAX,
        g.groups(ids@, ne as int),
    ensures
        r.pads(ids@, ne as int),
{
    let rows: usize = ids.len();
    let ghost sids = ids@;
    let ghost n = ne as int;
    proof {
        lemma_off_total(sids, n);
        lemma_pad_off_bound(sids, n, n);
    }
    let mut off_pad: Vec<usize> = vec![0; ne + 1];
    let mut e: usize = 0;
    while e < ne
        invariant
            1 <= ne,
            rows == sids.len(),
            n == ne,
            rows + 16 * ne <= u32::MAX,
            e <= ne,
            g.groups(sids, n),
            off_pad@.len() == ne + 1,
            pad_off(sids, n, n) <= rows + 15 * ne,
            forall|f: int| 0 <= f <= e ==> #[trigger] off_pad@[f] == pad_off(sids, n, f),
        decreases ne - e,
    {
        proof {
            lemma_count_bounds(sids, n, e as int);
            lemma_ceil_div(count_of(sids, n, e as int), 16);
            lemma_off_mono(sids, n, e as int, e + 1);
            lemma_off_mono(sids, n, e + 1, n);
            assert(g.off@[e as int] == group_off(sids, n, e as int));
            assert(g.off@[e + 1] == group_off(sids, n, e + 1));
        }
        let cnt: usize = g.off[e + 1] - g.off[e];
        let tiles: usize = ceil_div(cnt, TILE);
        let next: usize = off_pad[e] + tiles * TILE;
        off_pad.set(e + 1, next);
        e = e + 1;
    }
    let total: usize = off_pad[ne];
    let rows_pad: usize = crate::arith::max_usize(total, TILE);
    let mut perm_pad: Vec<u32> = vec![0; rows_pad];
    let mut inv_pad: Vec<u32> = vec![0; rows];
    proof {
        assert forall|i: int| 0 <= i < rows implies 0 <= #[trigger] group_rank(sids, n, i) < rows by {
            lemma_rank_in_group(sids, n, i);
            lemma_off_mono(sids, n, 0, expert_of(sids[i], n));
        }
    }
    let mut p: usize = 0;
    while p < rows
        invariant
            1 <= ne,
            ids@ == sids,
            rows == sids.len(),
            n == ne,
            rows + 16 * ne <= u32::MAX,
            p <= rows,
            g.groups(sids, n),
            off_pad@.len() == ne + 1,
            rows_pad == pad_rows(sids, n),
            rows_pad <= rows + 16 * ne,
            perm_pad@.len() == rows_pad,
            inv_pad@.len() == rows,
            forall|f: int| 0 <= f <= ne ==> #[trigger] off_pad@[f] == pad_off(sids, n, f),
            forall|i: int|
                0 <= i < rows && group_rank(sids, n, i) < p ==> #[trigger] inv_pad@[i] == pad_rank(sids, n, i),
            forall|i: int|
                0 <= i < rows && group_rank(sids, n, i) < p ==> perm_pad@[#[trigger] pad_rank(sids, n, i)]
                    == i,
            forall|q: int|
                0 <= q < rows_pad && (forall|i: int|
                    0 <= i < rows ==> #[trigger] pad_rank(sids, n, i) != q)
                    ==> #[trigger] perm_pad@[q] == 0,
        decreases rows - p,
    {
        let i: usize = g.perm[p] as usize;
        let e: usize = clamp_expert(ids[i], ne);
        proof {
            lemma_rank_in_group(sids, n, i as int);
            assert(g.off@[e as int] == group_off(sids, n, e as int));
            assert(off_pad@[e as int] == pad_off(sids, n, e as int));
        }
        let q: usize = off_pad[e] + (p - g.off[e]);
        proof {
            assert(q == pad_rank(sids, n, i as int));
            assert forall|k: int| 0 <= k < rows && k != i implies group_rank(sids, n, k) != p
                && pad_rank(sids, n, k) != q by {
                if k < i {
                    lemma_rank_injective(sids, n, k, i as int);
                } else {
                    lemma_rank_injective(sids, n, i as int, k);
                }
            }
            assert forall|k: int| 0 <= k < rows implies 0 <= #[trigger] pad_rank(sids, n, k) < rows_pad by {
                lemma_rank_in_group(sids, n, k);
                lemma_off_mono(sids, n, 0, expert_of(sids[k], n));
            }
        }
        let ghost perm0 = perm_pad@;
        perm_pad.set(q, i as u32);
        inv_pad.set(i, q as u32);
        proof {
            assert forall|k: int| 0 <= k < rows && group_rank(sids, n, k) < p + 1 implies
                perm_pad@[#[trigger] pad_rank(sids, n, k)] == k by {
                if k != i {
                    assert(group_rank(sids, n, k) != p);
                    assert(perm_pad@[pad_rank(sids, n, k)] == perm0[pad_rank(sids, n, k)]);
                }
            }
            assert forall|k: int| 0 <= k < rows && group_rank(sids, n, k) < p + 1 implies
                #[trigger] inv_pad@[k] == pad_rank(sids, n, k) by {
                if k != i {
                    assert(group_rank(sids, n, k) != p);
                }
            }
            assert forall|z: int|
                0 <= z < rows_pad && (forall|k: int|
                    0 <= k < rows ==> #[trigger] pad_rank(sids, n, k) != z)
                implies #[trigger] perm_pad@[z] == 0 by {
                assert(pad_rank(sids, n, i as int) != z);
                assert(perm_pad@[z] == perm0[z]);
            }
        }
        p = p + 1;
    }
    let mut tilexp: Vec<u32> = vec![0; rows_pad / TILE];
    let mut d: usize = 0;
    while d < ne
        invariant
            1 <= ne <= u32::MAX,
            n == ne,
            d <= ne,
            off_pad@.len() == ne + 1,
            rows_pad == pad_rows(sids, n),
            tilexp@.len() == rows_pad / TILE,
            forall|f: int| 0 <= f <= ne ==> #[trigger] off_pad@[f] == pad_off(sids, n, f),
            forall|f: int, t: int|
                #![trigger pad_off(sids, n, f), tilexp@[t]]
                0 <= f < d && pad_off(sids, n, f) <= t * TILE < pad_off(sids, n, f + 1)
                    ==> tilexp@[t] == f,
            pad_off(sids, n, n) == 0 ==> tilexp@[0] == 0,
        decreases ne - d,
    {
        proof {
            lemma_pad_off_aligned(sids, n, d as int);
            lemma_pad_off_aligned(sids, n, d + 1);
            lemma_off_mono(sids, n, d as int, d + 1);
            lemma_off_mono(sids, n, d + 1, n);
            assert(off_pad@[d as int] == pad_off(sids, n, d as int));
            assert(off_pad@[d + 1] == pad_off(sids, n, d + 1));
        }
        let lo: usize = off_pad[d] / TILE;
        let hi: usize = off_pad[d + 1] / TILE;
        let mut t: usize = lo;
        while t < hi
            invariant
                1 <= ne <= u32::MAX,
                n == ne,
                d < ne,
                lo <= t <= hi,
                lo * TILE == pad_off(sids, n, d as int),
                hi * TILE == pad_off(sids, n, d + 1),
                hi <= rows_pad / TILE,
                pad_off(sids, n, d + 1) <= pad_off(sids, n, n),
                tilexp@.len() == rows_pad / TILE,
                forall|f: int, u: int|
                    #![trigger pad_off(sids, n, f), tilexp@[u]]
                    0 <= f < d && pad_off(sids, n, f) <= u * TILE < pad_off(sids, n, f + 1)
                        ==> tilexp@[u] == f,
                forall|u: int| lo <= u < t ==> #[trigger] tilexp@[u] == d,
                pad_off(sids, n, n) == 0 ==> tilexp@[0] == 0,
            decreases hi - t,
        {
            proof {
                assert forall|f: int| 0 <= f < d implies (#[trigger] pad_off(sids, n, f)) <= pad_off(sids, n, f + 1)
                    <= pad_off(sids, n, d as int) by {
                    lemma_off_mono(sids, n, f, f + 1);
                    lemma_off_mono(sids, n, f + 1, d as int);
                }
            }
            let ghost tile0 = tilexp@;
            tilexp.set(t, d as u32);
            proof {
                assert forall|f: int, u: int|
                    #![trigger pad_off(sids, n, f), tilexp@[u]]
                    0 <= f < d && pad_off(sids, n, f) <= u * TILE < pad_off(sids, n, f + 1)
                    implies tilexp@[u] == f by {
                    assert(u != t);
                    lemma_off_mono(sids, n, 0, f);
                    assert(tilexp@[u] == tile0[u]);
                }
            }
            t = t + 1;
        }
        proof {
            assert forall|f: int, u: int|
                #![trigger pad_off(sids, n, f), tilexp@[u]]
                0 <= f < d + 1 && pad_off(sids, n, f) <= u * TILE < pad_off(sids, n, f + 1)
                implies tilexp@[u] == f by {
                if f == d {
                    assert(lo <= u < hi);
                }
            }
        }
        d = d + 1;
    }
    PaddedGroups { rows_pad, perm_pad, inv_pad, tilexp }
}

} // verus!
