//! What the list of chosen positions looks like, however the device chooses.
//!
//! The kernels appear as a parameter: a choice of blocks from their scores. Memory is
//! modelled word by word, with every buffer apart from all others.

use vstd::prelude::*;
use crate::acc::Q4Acc;
use crate::arith::lemma_ceil_div;
use crate::device::{spec_buf, Cmd, Ptr, Slot};
use crate::grids::covers;
use crate::kernels::Call;
use crate::memory::distance;
use crate::qsa_sel::{
    chosen_blocks, chosen_len, law_selection_bounds, readback_program, tail_len, SelReq,
};

verus! {

/// The position is in the list: its block is chosen, or it stands behind the last
/// complete block.
pub open spec fn is_listed(chosen: Seq<bool>, r: int, p: int) -> bool {
    p / r >= chosen.len() || chosen[p / r]
}

/// The positions below `n` that are in the list, in their order.
pub open spec fn expanded(chosen: Seq<bool>, r: int, n: int) -> Seq<int>
    decreases n,
{
    if n <= 0 {
        Seq::empty()
    } else if is_listed(chosen, r, n - 1) {
        expanded(chosen, r, n - 1).push(n - 1)
    } else {
        expanded(chosen, r, n - 1)
    }
}

/// Number of chosen blocks.
pub open spec fn count_chosen(chosen: Seq<bool>) -> int
    decreases chosen.len(),
{
    if chosen.len() == 0 {
        0
    } else {
        count_chosen(chosen.drop_last()) + if chosen.last() {
            1int
        } else {
            0int
        }
    }
}

proof fn lemma_expanded(chosen: Seq<bool>, r: int, n: int)
    requires
        r >= 1,
        n >= 0,
    ensures
        ({
            let l = expanded(chosen, r, n);
            &&& forall|i: int| 0 <= i < l.len() ==> 0 <= #[trigger] l[i] < n
            &&& forall|i: int, j: int| 0 <= i < j < l.len() ==> #[trigger] l[i] < #[trigger] l[j]
            &&& forall|p: int|
                #[trigger] l.contains(p) <==> 0 <= p < n && is_listed(chosen, r, p)
        }),
    decreases n,
{
    if n > 0 {
        lemma_expanded(chosen, r, n - 1);
        let (a, l) = (expanded(chosen, r, n - 1), expanded(chosen, r, n));
        assert forall|p: int| #[trigger] l.contains(p) <==> 0 <= p < n && is_listed(
            chosen,
            r,
            p,
        ) by {
            if is_listed(chosen, r, n - 1) {
                assert(l[a.len() as int] == n - 1);
                if a.contains(p) {
                    let k = choose|k: int| 0 <= k < a.len() && a[k] == p;
                    assert(l[k] == p);
                }
                if l.contains(p) && p != n - 1 {
                    let k = choose|k: int| 0 <= k < l.len() && l[k] == p;
                    assert(a[k] == p);
                }
            }
            assert(a.contains(p) <==> 0 <= p < n - 1 && is_listed(chosen, r, p));
        }
    }
}

/// Positions of the first `b` blocks and `o` more that are in the list.
proof fn lemma_expanded_len(chosen: Seq<bool>, r: int, b: int, o: int)
    requires
        r >= 1,
        0 <= b <= chosen.len(),
        0 <= o <= r,
    ensures
        expanded(chosen, r, b * r + o).len() == count_chosen(chosen.take(b)) * r + if b
            >= chosen.len() || chosen[b] {
            o
        } else {
            0
        },
    decreases b, o,
{
    if o == 0 {
        if b == 0 {
            assert(0 * r == 0);
            assert(chosen.take(0).len() == 0);
            assert(count_chosen(chosen.take(0)) * r == 0);
        } else {
            lemma_expanded_len(chosen, r, b - 1, r);
            let (c, d) = (count_chosen(chosen.take(b - 1)), count_chosen(chosen.take(b)));
            assert(chosen.take(b).drop_last() =~= chosen.take(b - 1));
            assert(chosen.take(b).last() == chosen[b - 1]);
            assert((b - 1) * r + r == b * r) by (nonlinear_arith);
            assert((c + 1) * r == c * r + r) by (nonlinear_arith);
        }
    } else {
        lemma_expanded_len(chosen, r, b, o - 1);
        let n = b * r + o;
        assert(0 <= b * r) by (nonlinear_arith)
            requires
                0 <= b,
                1 <= r,
        ;
        vstd::arithmetic::div_mod::lemma_fundamental_div_mod_converse(n - 1, r, b, o - 1);
        assert(b * r == r * b) by (nonlinear_arith);
    }
}

/// Whatever blocks are chosen, the list of their positions and of those behind the last
/// complete block is strictly increasing and stays below the context length. It holds
/// the whole tail, and two positions of one block both or neither. Its length is that of
/// the chosen blocks and the tail.
pub proof fn law_list_of_chosen_blocks(chosen: Seq<bool>, r: int, n_past: int, p: int, q: int)
    requires
        r >= 1,
        n_past >= 0,
        chosen.len() == n_past / r,
    ensures
        ({
            let l = expanded(chosen, r, n_past);
            &&& l.len() == count_chosen(chosen) * r + tail_len(n_past, r)
            &&& forall|i: int| 0 <= i < l.len() ==> 0 <= #[trigger] l[i] < n_past
            &&& forall|i: int, j: int| 0 <= i < j < l.len() ==> #[trigger] l[i] < #[trigger] l[j]
            &&& n_past / r * r <= p < n_past ==> l.contains(p)
            &&& 0 <= p < n_past && 0 <= q < n_past && p / r == q / r ==> (l.contains(p)
                <==> l.contains(q))
            &&& 0 <= p < n_past && p / r < chosen.len() ==> (l.contains(p) <==> chosen[p / r])
        }),
{
    let nb = n_past / r;
    lemma_expanded(chosen, r, n_past);
    vstd::arithmetic::div_mod::lemma_fundamental_div_mod(n_past, r);
    vstd::arithmetic::div_mod::lemma_mod_bound(n_past, r);
    assert(nb * r == r * nb) by (nonlinear_arith);
    lemma_expanded_len(chosen, r, nb, n_past - nb * r);
    assert(chosen.take(nb) =~= chosen);
    let l = expanded(chosen, r, n_past);
    if nb * r <= p < n_past {
        vstd::arithmetic::div_mod::lemma_div_is_ordered(nb * r, p, r);
        vstd::arithmetic::div_mod::lemma_div_by_multiple(nb, r);
        assert(l.contains(p) <==> is_listed(chosen, r, p));
    }
    assert(l.contains(p) <==> 0 <= p < n_past && is_listed(chosen, r, p));
    assert(l.contains(q) <==> 0 <= q < n_past && is_listed(chosen, r, q));
}

/// A choice of `n` blocks by their scores.
pub open spec fn picks(pick: spec_fn(Seq<u32>, int) -> Seq<bool>) -> bool {
    forall|s: Seq<u32>, n: int|
        0 <= n <= s.len() ==> (#[trigger] pick(s, n)).len() == s.len() && count_chosen(pick(s, n))
            == n
}

/// The `n` words at `p`.
pub open spec fn read_words(m: spec_fn(Ptr) -> u32, p: Ptr, n: int) -> Seq<u32> {
    Seq::new(n as nat, |i: int| m(p.spec_at(4 * i)))
}

/// The memory after `n` words were written at `dst`.
pub open spec fn words_written(
    m: spec_fn(Ptr) -> u32,
    dst: Ptr,
    n: int,
    data: spec_fn(int) -> u32,
) -> spec_fn(Ptr) -> u32 {
    |p: Ptr|
        match distance(dst, p) {
            Some(d) => if d % 4 == 0 && 0 <= d / 4 < n {
                data(d / 4)
            } else {
                m(p)
            },
            None => m(p),
        }
}

/// The memory after a list and its two offsets were written.
pub open spec fn list_written(m: spec_fn(Ptr) -> u32, idx: Ptr, off: Ptr, l: Seq<int>) -> spec_fn(
    Ptr,
) -> u32 {
    words_written(
        words_written(m, idx, l.len() as int, |i: int| l[i] as u32),
        off,
        2,
        |i: int|
            if i == 0 {
                0u32
            } else {
                l.len() as u32
            },
    )
}

/// What a command of the choice does to the memory, where the kernels choose by `pick`. A
/// launch whose grid leaves part of the work out counts as none.
pub open spec fn selected(
    m: spec_fn(Ptr) -> u32,
    pick: spec_fn(Seq<u32>, int) -> Seq<bool>,
    c: Cmd,
) -> spec_fn(Ptr) -> u32 {
    match c {
        Cmd::Launch(l) => if covers(l) {
            match l.call {
                Call::IdxTopk { scores, sel_idx, sel_off, n_blocks, n_sel, r, n_past } => list_written(
                    m,
                    sel_idx,
                    sel_off,
                    expanded(
                        pick(read_words(m, scores, n_blocks as int), n_sel as int),
                        r as int,
                        n_past as int,
                    ),
                ),
                Call::IdxRank { scores, flags, n_blocks, n_sel } => {
                    let chosen = pick(read_words(m, scores, n_blocks as int), n_sel as int);
                    words_written(
                        m,
                        flags,
                        n_blocks as int,
                        |i: int|
                            if chosen[i] {
                                1u32
                            } else {
                                0u32
                            },
                    )
                },
                Call::IdxExpand { flags, sel_idx, sel_off, n_blocks, r, n_past, .. } => list_written(
                    m,
                    sel_idx,
                    sel_off,
                    expanded(
                        Seq::new(n_blocks as nat, |i: int| m(flags.spec_at(4 * i)) != 0),
                        r as int,
                        n_past as int,
                    ),
                ),
                _ => m,
            }
        } else {
            m
        },
        _ => m,
    }
}

/// What the commands of the choice do to the memory, one after the other.
pub open spec fn all_selected(
    m: spec_fn(Ptr) -> u32,
    pick: spec_fn(Seq<u32>, int) -> Seq<bool>,
    cmds: Seq<Cmd>,
) -> spec_fn(Ptr) -> u32
    decreases cmds.len(),
{
    if cmds.len() == 0 {
        m
    } else {
        selected(all_selected(m, pick, cmds.drop_last()), pick, cmds.last())
    }
}

/// What a copy to the host brings.
pub open spec fn copied(m: spec_fn(Ptr) -> u32, c: Cmd) -> Seq<u32> {
    match c {
        Cmd::D2h { src, bytes, .. } => read_words(m, src, bytes as int / 4),
        _ => Seq::empty(),
    }
}

proof fn lemma_list_reads_back(m: spec_fn(Ptr) -> u32, l: Seq<int>)
    requires
        4 * l.len() + 4 <= usize::MAX,
        l.len() <= u32::MAX,
    ensures
        ({
            let after = list_written(m, spec_buf(Slot::Msk), spec_buf(Slot::Soff), l);
            &&& read_words(after, spec_buf(Slot::Msk), l.len() as int) == Seq::new(
                l.len(),
                |i: int| l[i] as u32,
            )
            &&& read_words(after, spec_buf(Slot::Soff), 2) == seq![0u32, l.len() as u32]
        }),
{
    let after = list_written(m, spec_buf(Slot::Msk), spec_buf(Slot::Soff), l);
    let (a, b) = (spec_buf(Slot::Msk), spec_buf(Slot::Soff));
    assert forall|i: int| 0 <= i < l.len() implies after(a.spec_at(4 * i)) == l[i] as u32 by {
        assert(distance(a, a.spec_at(4 * i)) == Some(4 * i));
        assert((4 * i) % 4 == 0 && (4 * i) / 4 == i);
        assert(distance(b, a.spec_at(4 * i)) is None);
    }
    assert(distance(b, b.spec_at(0)) == Some(0int));
    assert(distance(b, b.spec_at(4)) == Some(4int));
    assert(read_words(after, a, l.len() as int) =~= Seq::new(l.len(), |i: int| l[i] as u32));
    assert(read_words(after, b, 2) =~= seq![0u32, l.len() as u32]);
}

/// A position of a complete block lies before the tail.
proof fn lemma_block_below(p: int, nb: int, r: int, n: int)
    requires
        r >= 1,
        n >= 0,
        nb == n / r,
        0 <= p < nb * r,
    ensures
        0 <= p / r < nb,
        p < n,
{
    vstd::arithmetic::div_mod::lemma_fundamental_div_mod(n, r);
    vstd::arithmetic::div_mod::lemma_mod_bound(n, r);
    vstd::arithmetic::div_mod::lemma_fundamental_div_mod(p, r);
    vstd::arithmetic::div_mod::lemma_mod_bound(p, r);
    vstd::arithmetic::div_mod::lemma_div_pos_is_pos(p, r);
    let q = p / r;
    assert(nb * r == r * nb) by (nonlinear_arith);
    assert(q < nb) by (nonlinear_arith)
        requires
            r * q <= p,
            p < r * nb,
            r >= 1,
    ;
}

/// However the device chooses blocks by their scores, the list that is read back has the
/// planned length and the offsets 0 and that length. It is strictly increasing, stays
/// below the context length, holds the whole tail, and holds two positions of one block
/// both or neither. A position of a complete block is in it exactly where its block is
/// chosen by the scores.
#[verifier::rlimit(40)]
pub proof fn law_selected_list_reads_back(
    acc: Q4Acc,
    rq: SelReq,
    m: spec_fn(Ptr) -> u32,
    pick: spec_fn(Seq<u32>, int) -> Seq<bool>,
    p: int,
    q: int,
)
    requires
        acc.sel_fits(rq),
        acc.sel_error(rq) is None,
        rq.n_past() <= i32::MAX,
        rq.idx.r <= i32::MAX,
        picks(pick),
    ensures
        ({
            let (n_past, r) = (rq.n_past(), rq.idx.r as int);
            let n = chosen_len(n_past, r, rq.top_k as int);
            let after = all_selected(m, pick, acc.choose_program(rq));
            let back = readback_program(spec_buf(Slot::Msk), spec_buf(Slot::Soff), n);
            let (idx, off) = (copied(after, back[0]), copied(after, back[1]));
            &&& idx.len() == n
            &&& off == seq![0u32, n as u32]
            &&& forall|i: int| 0 <= i < n ==> #[trigger] idx[i] < n_past
            &&& forall|i: int, j: int| 0 <= i < j < n ==> #[trigger] idx[i] < #[trigger] idx[j]
            &&& n_past / r * r <= p < n_past ==> idx.contains(p as u32)
            &&& 0 <= p < n_past && 0 <= q < n_past && p / r == q / r ==> (idx.contains(p as u32)
                <==> idx.contains(q as u32))
            &&& 0 <= p < n_past / r * r ==> (idx.contains(p as u32) <==> pick(
                read_words(m, spec_buf(Slot::QsaScr), n_past / r),
                chosen_blocks(n_past, r, rq.top_k as int),
            )[p / r])
        }),
{
    let (n_past, r) = (rq.n_past(), rq.idx.r as int);
    let nb = n_past / r;
    let ns = chosen_blocks(n_past, r, rq.top_k as int);
    let n = chosen_len(n_past, r, rq.top_k as int);
    law_selection_bounds(n_past, r, rq.top_k as int);
    lemma_ceil_div(nb, 256);
    let prog = acc.choose_program(rq);
    let last = prog.last();
    let before = all_selected(m, pick, prog.drop_last());
    let scores = read_words(m, spec_buf(Slot::QsaScr), nb);
    let chosen = pick(scores, ns);
    reveal_with_fuel(all_selected, 6);
    assert(prog.drop_last().drop_last().len() == prog.len() - 2);
    if 0 < nb <= crate::qsa_sel::TOPK_BLOCKS && !acc.tuning.idx_topk_off {
        assert(prog.len() == 3);
        assert(prog.drop_last().drop_last().drop_last() =~= Seq::<Cmd>::empty());
        assert(prog.drop_last().last() == prog[1]);
        assert(prog.drop_last().drop_last().last() == prog[0]);
        assert(before == m);
    } else if nb > 0 {
        assert(prog.len() == 5);
        let a = prog.drop_last();
        let b = a.drop_last();
        let c = b.drop_last();
        assert(c.drop_last().drop_last().len() == 0);
        assert(c.last() == prog[1]);
        assert(c.drop_last().last() == prog[0]);
        assert(b.last() == prog[2]);
        assert(a.last() == prog[3]);
        assert(all_selected(m, pick, b) == m);
        let flags = spec_buf(Slot::QsaSelflag);
        let read = Seq::new(nb as nat, |i: int| before(flags.spec_at(4 * i)) != 0);
        assert forall|i: int| 0 <= i < nb implies read[i] == chosen[i] by {
            assert(distance(flags, flags.spec_at(4 * i)) == Some(4 * i));
            assert((4 * i) % 4 == 0 && (4 * i) / 4 == i);
        }
        assert(read =~= chosen);
    } else {
        assert(prog.len() == 4);
        assert(prog[3] == last);
        assert(chosen.len() == 0);
        let read = Seq::new(nb as nat, |i: int| before(spec_buf(Slot::QsaSelflag).spec_at(4 * i)) != 0);
        assert(read =~= chosen);
    }
    let l = expanded(chosen, r, n_past);
    law_list_of_chosen_blocks(chosen, r, n_past, p, q);
    assert(l.len() == n);
    assert(all_selected(m, pick, prog) == list_written(
        before,
        spec_buf(Slot::Msk),
        spec_buf(Slot::Soff),
        l,
    ));
    lemma_list_reads_back(before, l);
    if 0 <= p < nb * r {
        lemma_block_below(p, nb, r, n_past);
    }
    let idx = Seq::new(l.len(), |i: int| l[i] as u32);
    assert forall|s: int| 0 <= s < n_past implies (idx.contains(s as u32) <==> l.contains(s)) by {
        if l.contains(s) {
            let k = choose|k: int| 0 <= k < l.len() && l[k] == s;
            assert(idx[k] == s as u32);
        }
        if idx.contains(s as u32) {
            let k = choose|k: int| 0 <= k < idx.len() && idx[k] == s as u32;
            assert(l[k] == s);
        }
    }
}

} // verus!
