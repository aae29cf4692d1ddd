//! Shared activations and grouping tables live for one routing.

use vstd::prelude::*;
use crate::acc::Q4Acc;
use crate::device::Mark;
use crate::moe::MoeReq;

verus! {

impl Q4Acc {
    /// What is cached belongs to the current routing or to an earlier one.
    pub open spec fn caches_are_past(&self) -> bool {
        &&& match self.quant_cache {
            Some(q) => q.generation <= self.moe_gen,
            None => true,
        }
        &&& match self.moe_group {
            Some(g) => g.generation <= self.moe_gen,
            None => true,
        }
    }

    /// The state after one more routing.
    pub open spec fn rerouted(&self) -> Q4Acc {
        Q4Acc { moe_gen: self.moe_gen.wrapping_add(1), ..*self }
    }
}

/// A new routing outdates the shared activations and the grouping tables, for every
/// request. (The counter of routings is taken not to have come round.)
pub proof fn law_new_routing_outdates_caches(acc: Q4Acc, rq: MoeReq)
    requires
        acc.caches_are_past(),
        acc.moe_gen < u64::MAX,
    ensures
        !acc.rerouted().quant_hit(rq),
        !acc.rerouted().group_hit(rq),
        acc.rerouted().caches_are_past(),
{
}

/// An accelerator starts without caches, and a mark of the current routing leaves
/// them no newer than the routing.
pub proof fn law_caches_never_run_ahead(acc: Q4Acc, after: Q4Acc, mark: Mark)
    requires
        acc.caches_are_past(),
        after.remembers(&acc, mark),
        match mark {
            Mark::Quantised { generation, .. } => generation == acc.moe_gen,
            Mark::GroupedOnDevice { generation, .. } => generation == acc.moe_gen,
            _ => true,
        },
    ensures
        after.caches_are_past(),
        after.moe_gen == acc.moe_gen,
{
}

/// Once the rows of a request are quantised, they are shared by every later request
/// of the same routing for the same rows, and for no other rows.
pub proof fn law_quantised_rows_are_shared(acc: Q4Acc, after: Q4Acc, rq: MoeReq, other: MoeReq)
    requires
        acc.frames.spec_ptr(rq.x) is Ok,
        acc.moe_rows(rq) <= usize::MAX,
        after.remembers(
            &acc,
            Mark::Quantised {
                x: acc.frames.spec_ptr(rq.x)->Ok_0,
                rows: acc.moe_rows(rq) as usize,
                generation: acc.moe_gen,
                xq_w: crate::ggml::spec_xq_words(rq.w.n_in as int) as usize,
            },
        ),
    ensures
        after.quant_hit(rq),
        after.quant_hit(other) <==> acc.frames.spec_ptr(other.x) == acc.frames.spec_ptr(rq.x)
            && acc.moe_rows(other) == acc.moe_rows(rq),
{
    assert(acc.moe_rows(rq) >= 0) by (nonlinear_arith)
        requires
            acc.moe_rows(rq) == acc.spec_t() * vstd::math::max(rq.k_sel as int, 1),
            acc.spec_t() >= 0,
            vstd::math::max(rq.k_sel as int, 1) >= 0,
    ;
}

} // verus!
