//! What grouping by expert guarantees as a whole.

use vstd::prelude::*;
use crate::group::{
    count_of, expert_of, group_off, group_rank, lemma_off_mono, lemma_off_total,
    lemma_pad_off_aligned, lemma_pad_off_bound, lemma_rank_in_group, lemma_rank_injective, pad_off,
    pad_rank, pad_rows, ExpertGroups, PaddedGroups, TILE,
};

verus! {

/// Rows picked by a table of row numbers: row `g` of the result is row
/// `table[g]` of `src`.
pub open spec fn permute_rows<T>(src: Seq<T>, table: Seq<u32>) -> Seq<T> {
    Seq::new(table.len(), |g: int| src[table[g] as int])
}

/// The two tables of a grouping undo each other.
pub proof fn law_grouping_inverse(ids: Seq<u32>, ne: int, g: ExpertGroups)
    requires
        ne >= 1,
        g.groups(ids, ne),
    ensures
        g.undoes(ids.len() as int),
{
    assert forall|i: int| 0 <= i < ids.len() implies (#[trigger] g.inv@[i]) < ids.len()
        && g.perm@[g.inv@[i] as int] == i by {
        lemma_rank_in_group(ids, ne, i);
        lemma_off_mono(ids, ne, 0, expert_of(ids[i], ne));
        let k: int = g.perm@[g.inv@[i] as int] as int;
        if k < i {
            lemma_rank_injective(ids, ne, k, i);
        } else if i < k {
            lemma_rank_injective(ids, ne, i, k);
        }
    }
}

/// The rows between two neighbouring offsets are exactly those of one expert,
/// in their original order.
pub proof fn law_groups_are_contiguous_and_stable(ids: Seq<u32>, ne: int, g: ExpertGroups, e: int)
    requires
        ne >= 1,
        0 <= e < ne,
        g.groups(ids, ne),
    ensures
        g.off@[0] == 0,
        g.off@[e] <= g.off@[e + 1] <= g.off@[ne],
        g.off@[ne] == ids.len(),
        g.off@[e + 1] - g.off@[e] == count_of(ids, ne, e),
        forall|p: int|
            0 <= p < ids.len() ==> (g.off@[e] <= p < g.off@[e + 1] <==> expert_of(
                ids[(#[trigger] g.perm@[p]) as int],
                ne,
            ) == e),
        forall|p: int, q: int|
            g.off@[e] <= p < q < g.off@[e + 1] ==> (#[trigger] g.perm@[p]) < (
            #[trigger] g.perm@[q]),
{
    lemma_off_mono(ids, ne, e, e + 1);
    lemma_off_mono(ids, ne, e + 1, ne);
    lemma_off_total(ids, ne);
    assert(g.off@[e] == group_off(ids, ne, e));
    assert(g.off@[e + 1] == group_off(ids, ne, e + 1));
    assert(g.off@[ne] == group_off(ids, ne, ne));
    assert(g.off@[0] == group_off(ids, ne, 0));
    assert forall|p: int| 0 <= p < ids.len() implies (g.off@[e] <= p < g.off@[e + 1]
        <==> expert_of(ids[(#[trigger] g.perm@[p]) as int], ne) == e) by {
        let i: int = g.perm@[p] as int;
        let d: int = expert_of(ids[i], ne);
        lemma_rank_in_group(ids, ne, i);
        if d < e {
            lemma_off_mono(ids, ne, d + 1, e);
        } else if d > e {
            lemma_off_mono(ids, ne, e + 1, d);
        }
    }
    assert forall|p: int, q: int| g.off@[e] <= p < q < g.off@[e + 1] implies (
    #[trigger] g.perm@[p]) < (#[trigger] g.perm@[q]) by {
        let i: int = g.perm@[p] as int;
        let k: int = g.perm@[q] as int;
        assert(expert_of(ids[i], ne) == e);
        assert(expert_of(ids[k], ne) == e);
        if k < i {
            lemma_rank_injective(ids, ne, k, i);
        }
    }
}

/// Gathering by the permutation and scattering by its inverse leaves the rows
/// as they were.
pub proof fn law_gather_scatter_identity<T>(ids: Seq<u32>, ne: int, g: ExpertGroups, x: Seq<T>)
    requires
        ne >= 1,
        g.groups(ids, ne),
        x.len() == ids.len(),
    ensures
        permute_rows(permute_rows(x, g.perm@), g.inv@) == x,
{
    law_grouping_inverse(ids, ne, g);
    let y = permute_rows(permute_rows(x, g.perm@), g.inv@);
    assert forall|i: int| 0 <= i < x.len() implies y[i] == x[i] by {
        assert(g.inv@[i] < ids.len());
    }
    assert(y =~= x);
}

/// The padded tables undo each other on real rows, and gathering and scattering
/// through them leaves the rows as they were.
pub proof fn law_padded_gather_scatter_identity<T>(
    ids: Seq<u32>,
    ne: int,
    pg: PaddedGroups,
    x: Seq<T>,
)
    requires
        ne >= 1,
        pg.pads(ids, ne),
        x.len() == ids.len(),
    ensures
        forall|i: int|
            0 <= i < ids.len() ==> (#[trigger] pg.inv_pad@[i]) < pg.rows_pad
                && pg.perm_pad@[pg.inv_pad@[i] as int] == i,
        permute_rows(permute_rows(x, pg.perm_pad@), pg.inv_pad@) == x,
{
    assert forall|i: int| 0 <= i < ids.len() implies (#[trigger] pg.inv_pad@[i]) < pg.rows_pad
        && pg.perm_pad@[pg.inv_pad@[i] as int] == i by {
        lemma_rank_in_group(ids, ne, i);
        lemma_off_mono(ids, ne, 0, expert_of(ids[i], ne));
        assert(pg.inv_pad@[i] == pad_rank(ids, ne, i));
        assert(pg.perm_pad@[pad_rank(ids, ne, i)] == i);
    }
    let y = permute_rows(permute_rows(x, pg.perm_pad@), pg.inv_pad@);
    assert forall|i: int| 0 <= i < x.len() implies y[i] == x[i] by {
        assert(pg.inv_pad@[i] < pg.rows_pad);
    }
    assert(y =~= x);
}

/// Applying each expert to its own contiguous range of grouped rows and
/// scattering back gives every row the result of its own expert.
pub proof fn law_grouped_experts_serve_their_rows<T, U>(
    ids: Seq<u32>,
    ne: int,
    g: ExpertGroups,
    x: Seq<T>,
    y: Seq<U>,
    f: spec_fn(int, T) -> U,
)
    requires
        ne >= 1,
        g.groups(ids, ne),
        x.len() == ids.len(),
        y.len() == ids.len(),
        forall|e: int, p: int|
            #![trigger g.off@[e], y[p]]
            0 <= e < ne && g.off@[e] <= p < g.off@[e + 1] ==> y[p] == f(
                e,
                permute_rows(x, g.perm@)[p],
            ),
    ensures
        permute_rows(y, g.inv@) == Seq::new(ids.len(), |i: int| f(expert_of(ids[i], ne), x[i])),
{
    law_grouping_inverse(ids, ne, g);
    let out = permute_rows(y, g.inv@);
    let want = Seq::new(ids.len(), |i: int| f(expert_of(ids[i], ne), x[i]));
    assert forall|i: int| 0 <= i < ids.len() implies out[i] == want[i] by {
        let e: int = expert_of(ids[i], ne);
        let p: int = g.inv@[i] as int;
        lemma_rank_in_group(ids, ne, i);
        assert(p == group_rank(ids, ne, i));
        assert(g.off@[e] == group_off(ids, ne, e));
        assert(g.off@[e + 1] == group_off(ids, ne, e + 1));
        assert(y[p] == f(e, permute_rows(x, g.perm@)[p]));
        assert(g.perm@[p] == i);
    }
    assert(out =~= want);
}

/// With expert-aligned tiles, one launch that applies to each row the expert of
/// its tile gives every row the result of its own expert.
pub proof fn law_tiles_serve_their_rows<T, U>(
    ids: Seq<u32>,
    ne: int,
    pg: PaddedGroups,
    x: Seq<T>,
    y: Seq<U>,
    f: spec_fn(int, T) -> U,
)
    requires
        ne >= 1,
        pg.pads(ids, ne),
        x.len() == ids.len(),
        y.len() == pg.rows_pad,
        forall|q: int|
            0 <= q < pg.rows_pad ==> #[trigger] y[q] == f(
                pg.tilexp@[q / 16] as int,
                x[pg.perm_pad@[q] as int],
            ),
    ensures
        permute_rows(y, pg.inv_pad@) == Seq::new(ids.len(), |i: int| f(expert_of(ids[i], ne), x[i])),
{
    let out = permute_rows(y, pg.inv_pad@);
    let want = Seq::new(ids.len(), |i: int| f(expert_of(ids[i], ne), x[i]));
    assert forall|i: int| 0 <= i < ids.len() implies out[i] == want[i] by {
        let e: int = expert_of(ids[i], ne);
        let q: int = pg.inv_pad@[i] as int;
        lemma_rank_in_group(ids, ne, i);
        lemma_off_mono(ids, ne, 0, e);
        assert(q == pad_rank(ids, ne, i));
        assert(pg.perm_pad@[pad_rank(ids, ne, i)] == i);
        lemma_pad_off_aligned(ids, ne, e);
        lemma_pad_off_aligned(ids, ne, e + 1);
        let t: int = q / 16;
        assert(pad_off(ids, ne, e) <= t * TILE < pad_off(ids, ne, e + 1));
        assert(pg.tilexp@[t] == e);
        assert(y[q] == f(e, x[i]));
    }
    assert(out =~= want);
}

/// The padded layout is a whole number of tiles, holds every row, and stays
/// under the bound by which every buffer is sized.
pub proof fn law_padding_bound(ids: Seq<u32>, ne: int)
    requires
        ne >= 1,
    ensures
        pad_rows(ids, ne) % 16 == 0,
        ids.len() <= pad_rows(ids, ne) <= ids.len() + 16 * ne,
{
    lemma_off_total(ids, ne);
    lemma_pad_off_bound(ids, ne, ne);
    lemma_pad_off_aligned(ids, ne, ne);
}

} // verus!
