//! What expert products guarantee as a whole.

use vstd::prelude::*;
use crate::acc::Q4Acc;
use crate::device::{Cmd, Mark, Ptr};
use crate::error::AccError;
use crate::experts::{law_expert_ranges_partition, ranges_of};
use crate::ggml::spec_xq_words;
use crate::group::{expert_of, ExpertGroups};
use crate::group_laws::{law_grouped_experts_serve_their_rows, permute_rows};
use crate::kernels::Call;
use crate::moe::{Direct, MoeReq};
use crate::moe_down::stack_of;
use crate::moe_steps::{MoeStage, MoeStep};
use crate::upload::{uploaded_len, Weight};

verus! {

/// Words from one routed row to the next, as a direct kernel is told.
pub open spec fn direct_stride(c: Cmd) -> int {
    match c {
        Cmd::Launch(l) => match l.call {
            Call::MoeQ4kIds { xq_w, .. } => xq_w as int,
            Call::MoeQ51WIds { xq_w, .. } => xq_w as int,
            Call::MoeQ8Ids { xq_w, .. } => xq_w as int,
            _ => -1,
        },
        _ => -1,
    }
}

/// The `n` words of a buffer from word `at` on.
pub open spec fn words_at(words: spec_fn(int) -> u32, at: int, n: int) -> Seq<u32> {
    Seq::new(n as nat, |j: int| words(at + j))
}

/// Without tables, routed row `i` is multiplied from its own activations: what the
/// kernel reads for it, by the stride it is told, are the words of quantised row `i`.
/// (The routed rows of a single token are all the same vector.)
pub proof fn law_direct_rows_read_their_activations(
    acc: Q4Acc,
    rq: MoeReq,
    kind: Direct,
    ids: Ptr,
    out: Ptr,
    words: spec_fn(int) -> u32,
    i: int,
)
    requires
        acc.moe_prepared(rq),
        acc.spec_direct(rq) == Some(kind),
        0 <= i < acc.moe_rows(rq),
        spec_xq_words(rq.w.n_in as int) <= i32::MAX,
        acc.spec_t() == 1 ==> forall|k: int|
            0 <= k < acc.moe_rows(rq) ==> #[trigger] words_at(
                words,
                k * spec_xq_words(rq.w.n_in as int),
                spec_xq_words(rq.w.n_in as int),
            ) == words_at(words, 0, spec_xq_words(rq.w.n_in as int)),
    ensures
        ({
            let n = spec_xq_words(rq.w.n_in as int);
            let launch = acc.direct_program(rq, kind, ids, out)[1];
            let stride = direct_stride(launch);
            &&& acc.spec_t() > 1 ==> stride == n
            &&& words_at(words, i * stride, n) == words_at(words, i * n, n)
        }),
{
    let n = spec_xq_words(rq.w.n_in as int);
    let stride = direct_stride(acc.direct_program(rq, kind, ids, out)[1]);
    assert(acc.spec_moe_xq(rq).1 == n);
    assert(stride == n || acc.spec_t() == 1 && stride == 0);
    if stride == 0 {
        assert(i * stride == 0) by (nonlinear_arith)
            requires
                stride == 0,
        ;
    }
}

/// An expert product over host rows gives every row the result of its own expert, in
/// the order of the caller: the rows are gathered by the grouping, expert `e` serves
/// the rows of its range with its own slice of the device copy, and the results return
/// by the inverse.
pub proof fn law_moe_down_serves_every_row<T, U>(
    acc: Q4Acc,
    w: Weight,
    n_expert: usize,
    ids: Seq<u32>,
    g: ExpertGroups,
    x: Seq<T>,
    y: Seq<U>,
    f: spec_fn(int, T) -> U,
    e: int,
)
    requires
        g.groups(ids, stack_of(w, n_expert).0),
        x.len() == ids.len(),
        y.len() == ids.len(),
        w.len <= usize::MAX / 2,
        0 <= e < stack_of(w, n_expert).0,
        forall|d: int, p: int|
            #![trigger ranges_of(g.off@)[d], y[p]]
            0 <= d < stack_of(w, n_expert).0 && ranges_of(g.off@)[d].start <= p < ranges_of(
                g.off@,
            )[d].start + ranges_of(g.off@)[d].len ==> y[p] == f(d, permute_rows(x, g.perm@)[p]),
    ensures
        permute_rows(y, g.inv@) == Seq::new(
            ids.len(),
            |i: int| f(expert_of(ids[i], stack_of(w, n_expert).0), x[i]),
        ),
        ({
            let job = acc.down_job(w, n_expert);
            let ne = stack_of(w, n_expert).0;
            &&& job.per_expert == uploaded_len(w) / ne
            &&& job.w.spec_at(e * job.per_expert) == (Ptr::Weight {
                key: w.key,
                off: (e * (uploaded_len(w) / ne)) as usize,
            })
            &&& (e + 1) * job.per_expert <= uploaded_len(w)
        }),
{
    let ne = stack_of(w, n_expert).0;
    law_expert_ranges_partition(ids, ne, g);
    assert forall|d: int, p: int|
        #![trigger g.off@[d], y[p]]
        0 <= d < ne && g.off@[d] <= p < g.off@[d + 1] implies y[p] == f(
        d,
        permute_rows(x, g.perm@)[p],
    ) by {
        let r = ranges_of(g.off@)[d];
        assert(g.off@[d] <= g.off@[d + 1]);
        assert(r.start == g.off@[d] && r.len == g.off@[d + 1] - g.off@[d]);
    }
    law_grouped_experts_serve_their_rows(ids, ne, g, x, y, f);
    let (len, per) = (uploaded_len(w), uploaded_len(w) / ne);
    vstd::arithmetic::div_mod::lemma_div_pos_is_pos(len, ne);
    assert((e + 1) * per <= len && 0 <= e * per && per <= len) by (nonlinear_arith)
        requires
            0 <= e < ne,
            per == len / ne,
            0 <= len,
            0 <= per,
    ;
}

/// The tables of a routing serve all projections of a layer: once they are there, a
/// further request over as many rows reads no ids and builds no tables, whether its own
/// rows were already quantised or had to be. The next routing makes every request group
/// again, from the ids as they then are.
pub proof fn law_tables_are_reused_until_rerouted(
    acc: Q4Acc,
    after: Q4Acc,
    next: MoeReq,
    mark: Mark,
    ids: Ptr,
    r: Result<MoeStep, AccError>,
    s: Result<MoeStep, AccError>,
)
    requires
        acc.group_hit(next),
        acc.spec_direct(next) is None,
        acc.frames.spec_ptr(next.ids) == Ok::<Ptr, AccError>(ids),
        after == acc || mark is Quantised && after.remembers(&acc, mark),
        after.prepared_step(next, r),
        after.rerouted().prepared_step(next, s),
    ensures
        r matches Ok(MoeStep::Run { cmds, then }) && cmds@ == Seq::<Cmd>::empty() && then
            == MoeStage::Grouped,
        if after.rerouted().groups_on_device(next) {
            s matches Ok(MoeStep::Run { cmds, then }) && cmds@ == after.rerouted().group_program(
                next,
                ids,
            ) && then == MoeStage::Grouped
        } else {
            s matches Ok(MoeStep::ReadIds { src, rows }) && src == ids && rows == acc.moe_rows(next)
        },
{
    assert(after.group_hit(next));
    assert(after.spec_direct(next) is None);
    assert(!after.rerouted().group_hit(next));
    assert(after.rerouted().spec_direct(next) is None);
}

} // verus!
