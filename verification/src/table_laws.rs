//! The grouping tables in memory are those of the routing, whether the host built them or
//! the device.

use vstd::prelude::*;
use crate::acc::{MoeGroup, Q4Acc};
use crate::device::{spec_buf, Cmd, Host, Ptr, Slot};
use crate::expert_runs::{row_routed, tables_in};
use crate::ggml::spec_xq_words;
use crate::group::{
    expert_of, group_rank, lemma_off_mono, lemma_pad_off_aligned, lemma_rank_in_group,
    lemma_rank_injective, pad_off, pad_rank, pad_rows, TILE,
};
use crate::group_laws::{law_grouping_inverse, law_padded_gather_scatter_identity};
use crate::kernel_effects::{
    byte_of, entry, grouped, grouped_row, padded_expert, padded_row, table_written, word_at,
};
use crate::memory::distance;
use crate::moe::MoeReq;
use crate::moe_grouped::{tables_program, HostTables};
use crate::op_laws::{frame, lemma_in_row, lemma_one_command};
use crate::product_runs::{
    jumps_inside, lemma_ran_behind, performed, quantised_row, ran, row_at, Kernels,
};
use crate::upload_runs::{copies, lemma_uploads};

verus! {

/// Entry `i` of an array of the host.
pub open spec fn host_entry(k: Kernels, src: Host, i: int) -> int {
    (k.host)(src, 4 * i) + 256 * (k.host)(src, 4 * i + 1) + 65536 * (k.host)(src, 4 * i + 2)
        + 16777216 * (k.host)(src, 4 * i + 3)
}

/// The array of the host is the table.
pub open spec fn is_table(k: Kernels, src: Host, t: Seq<u32>) -> bool {
    forall|i: int| 0 <= i < t.len() ==> #[trigger] host_entry(k, src, i) == t[i]
}

/// The arrays of the host are the tables of a routing.
pub open spec fn are_tables(k: Kernels, t: HostTables) -> bool {
    &&& is_table(k, Host::Perm, t.groups.perm@)
    &&& is_table(k, Host::Inv, t.groups.inv@)
    &&& is_table(k, Host::RowExp, t.rowexp@)
    &&& is_table(k, Host::PermPad, t.padded.perm_pad@)
    &&& is_table(k, Host::InvPad, t.padded.inv_pad@)
    &&& is_table(k, Host::TileExp, t.padded.tilexp@)
}

/// The group has each table at the place of its slot.
pub open spec fn tables_at(at: spec_fn(Slot) -> Ptr, g: MoeGroup) -> bool {
    &&& g.perm == at(Slot::Rperm)
    &&& g.inv == at(Slot::Rperm2)
    &&& g.rowexp == at(Slot::Rexp)
    &&& g.perm_pad == at(Slot::Gp)
    &&& g.inv_pad == at(Slot::Gi)
    &&& g.tilexp == at(Slot::Texp)
}

/// The group names the buffers of the tables.
pub open spec fn names_tables(g: MoeGroup) -> bool {
    tables_at(|slot: Slot| spec_buf(slot), g)
}

/// The present addresses of the slots.
pub open spec fn present(acc: Q4Acc) -> spec_fn(Slot) -> Ptr {
    |slot: Slot| acc.table(slot, 0)
}

/// Behind the program the buffers hold the tables of `ids`, where the host's arrays do.
pub open spec fn brings_tables(t: HostTables, ids: Seq<u32>, ne: int, c: Seq<Cmd>) -> bool {
    forall|k: Kernels, m: spec_fn(Ptr) -> u8, ok: spec_fn(int) -> bool, g: MoeGroup|
        are_tables(k, t) && names_tables(g) && g.rows_pad == t.padded.rows_pad && g.rows_pad_d
            == Ptr::Null ==> #[trigger] tables_in(ran(k, m, c, ok, 0), g, ids, ne)
}

/// An uploaded table has the entries of its array.
proof fn lemma_table_arrives(
    k: Kernels,
    m: spec_fn(Ptr) -> u8,
    c: Seq<Cmd>,
    ok: spec_fn(int) -> bool,
    at: int,
    slot: Slot,
    src: Host,
    n: int,
    t: Seq<u32>,
    i: int,
)
    requires
        forall|j: int, bytes: int|
            #[trigger] copies(c, at, slot, src, bytes) && 0 <= j < bytes ==> ran(k, m, c, ok, 0)(
                #[trigger] spec_buf(slot).spec_at(j),
            ) == (k.host)(src, j),
        copies(c, at, slot, src, n * 4),
        is_table(k, src, t),
        t.len() == n,
        0 <= i < n,
        n * 4 <= usize::MAX,
    ensures
        entry(ran(k, m, c, ok, 0), spec_buf(slot), i) == t[i],
{
    let after = ran(k, m, c, ok, 0);
    let p = spec_buf(slot);
    assert(copies(c, at, slot, src, n * 4));
    assert(p.spec_at(4 * i).spec_at(1) == p.spec_at(4 * i + 1));
    assert(p.spec_at(4 * i).spec_at(2) == p.spec_at(4 * i + 2));
    assert(p.spec_at(4 * i).spec_at(3) == p.spec_at(4 * i + 3));
    assert(after(p.spec_at(4 * i)) == (k.host)(src, 4 * i));
    assert(after(p.spec_at(4 * i + 1)) == (k.host)(src, 4 * i + 1));
    assert(after(p.spec_at(4 * i + 2)) == (k.host)(src, 4 * i + 2));
    assert(after(p.spec_at(4 * i + 3)) == (k.host)(src, 4 * i + 3));
    assert(host_entry(k, src, i) == t[i]);
}

/// The upload brings every table of the host to its own buffer.
#[verifier::spinoff_prover]
#[verifier::rlimit(60)]
pub proof fn law_uploaded_tables_route_every_row(t: HostTables, ids: Seq<u32>, ne: int)
    requires
        ne >= 1,
        t.tables(ids, ne),
        t.padded.rows_pad * 4 <= usize::MAX,
        ids.len() * 4 <= usize::MAX,
    ensures
        brings_tables(
            t,
            ids,
            ne,
            tables_program(ids.len() as int, t.padded.rows_pad as int),
        ),
{
    let (rows, pad) = (ids.len() as int, t.padded.rows_pad as int);
    let c = tables_program(rows, pad);
    law_grouping_inverse(ids, ne, t.groups);
    crate::group_laws::law_padding_bound(ids, ne);
    law_padded_gather_scatter_identity(ids, ne, t.padded, ids);
    assert forall|k: Kernels, m: spec_fn(Ptr) -> u8, ok: spec_fn(int) -> bool, g: MoeGroup|
        are_tables(k, t) && names_tables(g) && g.rows_pad == t.padded.rows_pad && g.rows_pad_d
            == Ptr::Null implies #[trigger] tables_in(ran(k, m, c, ok, 0), g, ids, ne) by {
        lemma_uploads(k, m, c, ok, 0);
        let after = ran(k, m, c, ok, 0);
        assert(copies(c, 3, Slot::Rperm, Host::Perm, rows * 4));
        assert(copies(c, 4, Slot::Rperm2, Host::Inv, rows * 4));
        assert(copies(c, 5, Slot::Rexp, Host::RowExp, rows * 4));
        assert(copies(c, 9, Slot::Gp, Host::PermPad, pad * 4));
        assert(copies(c, 10, Slot::Gi, Host::InvPad, rows * 4));
        assert(copies(c, 11, Slot::Texp, Host::TileExp, pad / 16 * 4));
        assert forall|i: int| 0 <= i < ids.len() implies #[trigger] row_routed(
            after,
            g,
            ids,
            ne,
            i,
        ) by {
            let (p, q, e) = (group_rank(ids, ne, i), pad_rank(ids, ne, i), expert_of(ids[i], ne));
            lemma_rank_in_group(ids, ne, i);
            lemma_off_mono(ids, ne, 0, e);
            assert(t.groups.inv@[i] == p);
            assert(t.padded.inv_pad@[i] == q);
            assert(t.padded.perm_pad@[pad_rank(ids, ne, i)] == i);
            lemma_pad_off_aligned(ids, ne, e);
            lemma_pad_off_aligned(ids, ne, e + 1);
            let tile = q / 16;
            assert(pad_off(ids, ne, e) <= tile * TILE < pad_off(ids, ne, e + 1));
            assert(t.padded.tilexp@[tile] == e);
            assert(t.rowexp@[p] == expert_of(ids[t.groups.perm@[p] as int], ne));
            lemma_table_arrives(k, m, c, ok, 3, Slot::Rperm, Host::Perm, rows, t.groups.perm@, p);
            lemma_table_arrives(k, m, c, ok, 4, Slot::Rperm2, Host::Inv, rows, t.groups.inv@, i);
            lemma_table_arrives(k, m, c, ok, 5, Slot::Rexp, Host::RowExp, rows, t.rowexp@, p);
            lemma_table_arrives(k, m, c, ok, 9, Slot::Gp, Host::PermPad, pad, t.padded.perm_pad@, q);
            lemma_table_arrives(k, m, c, ok, 10, Slot::Gi, Host::InvPad, rows, t.padded.inv_pad@, i);
            lemma_table_arrives(
                k,
                m,
                c,
                ok,
                11,
                Slot::Texp,
                Host::TileExp,
                pad / 16,
                t.padded.tilexp@,
                tile,
            );
        }
    }
}

/// A number is made of its four bytes.
proof fn lemma_number_of_bytes(v: int)
    requires
        0 <= v <= u32::MAX,
    ensures
        v == byte_of(v, 0) + 256 * byte_of(v, 1) + 65536 * byte_of(v, 2) + 16777216 * byte_of(v, 3),
{
    let a = v / 256;
    let b = a / 256;
    let c = b / 256;
    assert(v / 65536 == b);
    assert(v / 16777216 == c);
    assert(c % 256 == c);
}

/// A written table reads back.
#[verifier::spinoff_prover]
proof fn lemma_table_reads(m: spec_fn(Ptr) -> u8, dst: Ptr, n: int, data: spec_fn(int) -> int, i: int)
    requires
        0 <= i < n,
        dst is Buf,
        dst.offset() + n * 4 <= usize::MAX,
        0 <= data(i) <= u32::MAX,
    ensures
        entry(table_written(m, dst, n, data), dst, i) == data(i),
{
    let after = table_written(m, dst, n, data);
    let v = data(i);
    let p = dst.spec_at(4 * i);
    assert forall|b: int| 0 <= b < 4 implies after(#[trigger] p.spec_at(b)) == byte_of(v, b) by {
        assert(p.spec_at(b) == dst.spec_at(4 * i + b));
        assert(distance(dst, dst.spec_at(4 * i + b)) == Some(4 * i + b));
        assert((4 * i + b) / 4 == i && (4 * i + b) % 4 == b);
    }
    assert(p.spec_at(0) == p);
    assert(after(p.spec_at(1)) == byte_of(v, 1));
    assert(after(p.spec_at(2)) == byte_of(v, 2));
    assert(after(p.spec_at(3)) == byte_of(v, 3));
    assert(after(p.spec_at(0)) == byte_of(v, 0));
    lemma_number_of_bytes(v);
}

/// A table in another buffer reads as before.
proof fn lemma_table_kept(m: spec_fn(Ptr) -> u8, dst: Ptr, n: int, data: spec_fn(int) -> int, p: Ptr, i: int)
    requires
        distance(dst, p) is None,
    ensures
        entry(table_written(m, dst, n, data), p, i) == entry(m, p, i),
{
}

/// Behind the program the buffers hold the tables of the ids in their frame.
pub open spec fn builds_tables(acc: Q4Acc, rq: MoeReq, c: Seq<Cmd>) -> bool {
    let ne = rq.spec_ne();
    frame(acc, rq.ids) is Dev && acc.moe_bound(rq) <= i32::MAX && acc.moe_fits(rq) ==> forall|
        k: Kernels,
        m: spec_fn(Ptr) -> u8,
        ok: spec_fn(int) -> bool,
        g: MoeGroup,
        ids: Seq<u32>,
    |
        ids.len() == acc.moe_rows(rq) && holds_ids(acc, rq, m, ids) && names_tables(g)
            && g.rows_pad == acc.moe_bound(rq) && g.rows_pad_d == spec_buf(Slot::Gyp).spec_at(
            (ne + 1) * 4,
        ) ==> #[trigger] tables_in(ran(k, m, c, ok, 0), g, ids, ne)
}

/// The ids of the rows are in their frame.
pub open spec fn holds_ids(acc: Q4Acc, rq: MoeReq, m: spec_fn(Ptr) -> u8, ids: Seq<u32>) -> bool {
    forall|i: int| 0 <= i < ids.len() ==> #[trigger] entry(m, frame(acc, rq.ids), i) == ids[i]
}

proof fn lemma_grouped_rows(ids: Seq<u32>, ne: int, i: int)
    requires
        ne >= 1,
        0 <= i < ids.len(),
    ensures
        ({
            let (p, q, e) = (group_rank(ids, ne, i), pad_rank(ids, ne, i), expert_of(ids[i], ne));
            &&& grouped_row(ids, ne, p) == i
            &&& padded_row(ids, ne, q) == i
            &&& padded_expert(ids, ne, q) == e
            &&& padded_expert(ids, ne, q / 16 * 16) == e
        }),
{
    let (p, q, e) = (group_rank(ids, ne, i), pad_rank(ids, ne, i), expert_of(ids[i], ne));
    lemma_rank_in_group(ids, ne, i);
    lemma_off_mono(ids, ne, 0, e);
    let a = grouped_row(ids, ne, p);
    assert(0 <= a < ids.len() && group_rank(ids, ne, a) == p);
    if a < i {
        lemma_rank_injective(ids, ne, a, i);
    } else if i < a {
        lemma_rank_injective(ids, ne, i, a);
    }
    let b = padded_row(ids, ne, q);
    assert(0 <= b < ids.len() && pad_rank(ids, ne, b) == q);
    if b < i {
        lemma_rank_injective(ids, ne, b, i);
    } else if i < b {
        lemma_rank_injective(ids, ne, i, b);
    }
    lemma_pad_off_aligned(ids, ne, e);
    lemma_pad_off_aligned(ids, ne, e + 1);
    lemma_expert_found(ids, ne, e, q);
    lemma_expert_found(ids, ne, e, q / 16 * 16);
}

proof fn lemma_expert_found(ids: Seq<u32>, ne: int, e: int, q: int)
    requires
        0 <= e < ne,
        pad_off(ids, ne, e) <= q < pad_off(ids, ne, e + 1),
    ensures
        padded_expert(ids, ne, q) == e,
{
    let f = padded_expert(ids, ne, q);
    assert(0 <= f < ne && pad_off(ids, ne, f) <= q < pad_off(ids, ne, f + 1));
    if f < e {
        lemma_off_mono(ids, ne, f + 1, e);
    } else if e < f {
        lemma_off_mono(ids, ne, e + 1, f);
    }
}

/// The tables that the kernel builds, read back.
#[verifier::rlimit(60)]
proof fn lemma_grouped_reads(m: spec_fn(Ptr) -> u8, g: MoeGroup, ids: Seq<u32>, ne: int, bound: int)
    requires
        ne >= 1,
        names_tables(g),
        g.rows_pad_d == spec_buf(Slot::Gyp).spec_at((ne + 1) * 4),
        pad_rows(ids, ne) <= g.rows_pad <= u32::MAX,
        g.rows_pad * 4 + 4 <= usize::MAX,
        (ne + 2) * 4 <= usize::MAX,
        ids.len() <= pad_rows(ids, ne),
        ne <= u32::MAX,
    ensures
        tables_in(
            grouped(
                m,
                ids,
                ne,
                spec_buf(Slot::Gyp),
                g.perm,
                g.inv,
                g.rowexp,
                g.perm_pad,
                g.inv_pad,
                g.tilexp,
                g.rows_pad_d,
            ),
            g,
            ids,
            ne,
        ),
{
    let (rows, pad) = (ids.len() as int, pad_rows(ids, ne));
    let off = |e: int| crate::group::group_off(ids, ne, e);
    let all = |e: int| pad;
    let d3 = |p: int| grouped_row(ids, ne, p);
    let d4 = |i: int| group_rank(ids, ne, i);
    let d5 = |q: int| padded_expert(ids, ne, q);
    let d6 = |q: int| padded_row(ids, ne, q);
    let d7 = |i: int| pad_rank(ids, ne, i);
    let d8 = |t: int| padded_expert(ids, ne, t * TILE);
    let m1 = table_written(m, spec_buf(Slot::Gyp), ne + 1, off);
    let m2 = table_written(m1, g.rows_pad_d, 1, all);
    let m3 = table_written(m2, g.perm, rows, d3);
    let m4 = table_written(m3, g.inv, rows, d4);
    let m5 = table_written(m4, g.rowexp, pad, d5);
    let m6 = table_written(m5, g.perm_pad, pad, d6);
    let m7 = table_written(m6, g.inv_pad, rows, d7);
    let m8 = table_written(m7, g.tilexp, pad / TILE as int, d8);
    let after = grouped(
        m,
        ids,
        ne,
        spec_buf(Slot::Gyp),
        g.perm,
        g.inv,
        g.rowexp,
        g.perm_pad,
        g.inv_pad,
        g.tilexp,
        g.rows_pad_d,
    );
    assert(after == m8);
    let count = g.rows_pad_d;
    lemma_table_reads(m1, count, 1, all, 0);
    lemma_table_kept(m2, g.perm, rows, d3, count, 0);
    lemma_table_kept(m3, g.inv, rows, d4, count, 0);
    lemma_table_kept(m4, g.rowexp, pad, d5, count, 0);
    lemma_table_kept(m5, g.perm_pad, pad, d6, count, 0);
    lemma_table_kept(m6, g.inv_pad, rows, d7, count, 0);
    lemma_table_kept(m7, g.tilexp, pad / TILE as int, d8, count, 0);
    assert(count.spec_at(0) == count);
    assert(word_at(after, count) == pad);
    assert forall|i: int| 0 <= i < ids.len() implies #[trigger] row_routed(after, g, ids, ne, i) by {
        let (p, q, e) = (group_rank(ids, ne, i), pad_rank(ids, ne, i), expert_of(ids[i], ne));
        lemma_rank_in_group(ids, ne, i);
        lemma_off_mono(ids, ne, 0, e);
        lemma_grouped_rows(ids, ne, i);
        crate::group_laws::law_padding_bound(ids, ne);
        let t = q / 16;
        lemma_table_reads(m2, g.perm, rows, d3, p);
        lemma_table_kept(m3, g.inv, rows, d4, g.perm, p);
        lemma_table_kept(m4, g.rowexp, pad, d5, g.perm, p);
        lemma_table_kept(m5, g.perm_pad, pad, d6, g.perm, p);
        lemma_table_kept(m6, g.inv_pad, rows, d7, g.perm, p);
        lemma_table_kept(m7, g.tilexp, pad / TILE as int, d8, g.perm, p);
        lemma_table_reads(m3, g.inv, rows, d4, i);
        lemma_table_kept(m4, g.rowexp, pad, d5, g.inv, i);
        lemma_table_kept(m5, g.perm_pad, pad, d6, g.inv, i);
        lemma_table_kept(m6, g.inv_pad, rows, d7, g.inv, i);
        lemma_table_kept(m7, g.tilexp, pad / TILE as int, d8, g.inv, i);
        lemma_table_reads(m4, g.rowexp, pad, d5, q);
        lemma_table_kept(m5, g.perm_pad, pad, d6, g.rowexp, q);
        lemma_table_kept(m6, g.inv_pad, rows, d7, g.rowexp, q);
        lemma_table_kept(m7, g.tilexp, pad / TILE as int, d8, g.rowexp, q);
        lemma_table_reads(m5, g.perm_pad, pad, d6, q);
        lemma_table_kept(m6, g.inv_pad, rows, d7, g.perm_pad, q);
        lemma_table_kept(m7, g.tilexp, pad / TILE as int, d8, g.perm_pad, q);
        lemma_table_reads(m6, g.inv_pad, rows, d7, i);
        lemma_table_kept(m7, g.tilexp, pad / TILE as int, d8, g.inv_pad, i);
        lemma_table_reads(m7, g.tilexp, pad / TILE as int, d8, t);
    }
}

impl Q4Acc {
    /// The kernel that groups on the device builds the tables of the ids in their frame.
    pub proof fn law_device_tables_route_every_row(&self, rq: MoeReq)
        ensures
            builds_tables(*self, rq, self.group_program(rq, frame(*self, rq.ids))),
    {
        let ne = rq.spec_ne();
        let c = self.group_program(rq, frame(*self, rq.ids));
        if frame(*self, rq.ids) is Dev && self.moe_bound(rq) <= i32::MAX && self.moe_fits(rq) {
            assert forall|
                k: Kernels,
                m: spec_fn(Ptr) -> u8,
                ok: spec_fn(int) -> bool,
                g: MoeGroup,
                ids: Seq<u32>,
            |
                ids.len() == self.moe_rows(rq) && holds_ids(*self, rq, m, ids) && names_tables(g)
                    && g.rows_pad == self.moe_bound(rq) && g.rows_pad_d == spec_buf(
                    Slot::Gyp,
                ).spec_at((ne + 1) * 4) implies #[trigger] tables_in(
                ran(k, m, c, ok, 0),
                g,
                ids,
                ne,
            ) by {
                let (head, rest) = (c.take(7), c.skip(8));
                let work = seq![c[7]];
                assert(c =~= head + (work + rest));
                lemma_quiet(k, m, head, ok, 0);
                lemma_ran_behind(k, m, head, work + rest, ok, 0);
                lemma_one_command(k, m, work, ok, 7);
                lemma_ran_behind(k, m, work, rest, ok, 7);
                let after = performed(k, m, c[7]);
                lemma_quiet(k, after, rest, ok, 8);
                let read = Seq::new(
                    self.moe_rows(rq) as nat,
                    |i: int| entry(m, frame(*self, rq.ids), i) as u32,
                );
                assert forall|i: int| 0 <= i < ids.len() implies read[i] == ids[i] by {
                    assert(entry(m, frame(*self, rq.ids), i) == ids[i]);
                }
                assert(read =~= ids);
                crate::group_laws::law_padding_bound(ids, ne);
                lemma_grouped_reads(m, g, ids, ne, self.moe_bound(rq));
            }
        }
    }
}

/// The command changes nothing in memory.
pub open spec fn is_quiet(c: Cmd) -> bool {
    match c {
        Cmd::Ensure { .. } => true,
        Cmd::Weight { .. } => true,
        Cmd::Mark(_) => true,
        Cmd::D2hIssue { .. } => true,
        Cmd::D2hWait => true,
        _ => false,
    }
}

pub proof fn lemma_quiet(k: Kernels, m: spec_fn(Ptr) -> u8, c: Seq<Cmd>, ok: spec_fn(int) -> bool, at: int)
    requires
        forall|i: int| 0 <= i < c.len() ==> #[trigger] is_quiet(c[i]),
    ensures
        jumps_inside(c),
        ran(k, m, c, ok, at) == m,
    decreases c.len(),
{
    assert forall|i: int| 0 <= i < c.len() implies !(#[trigger] c[i] is Try) by {
        assert(is_quiet(c[i]));
    }
    if c.len() > 0 {
        assert(is_quiet(c[0]));
        assert forall|i: int| 0 <= i < c.skip(1).len() implies #[trigger] is_quiet(c.skip(1)[i]) by {
            assert(is_quiet(c[i + 1]));
        }
        lemma_quiet(k, m, c.skip(1), ok, at + 1);
    }
}

/// Byte `b` of row `i` of the quantised rows is that of the quantised row.
pub open spec fn leaves_quantised(
    acc: Q4Acc,
    rq: MoeReq,
    k: Kernels,
    m: spec_fn(Ptr) -> u8,
    after: spec_fn(Ptr) -> u8,
    i: int,
) -> bool {
    let (n_in, len) = (rq.w.n_in as int, spec_xq_words(rq.w.n_in as int) * 4);
    0 <= i < acc.moe_rows(rq) ==> row_at(after, spec_buf(Slot::Fxq), len, i) == quantised_row(
        k,
        row_at(m, frame(acc, rq.x), n_in * 4, i),
        n_in,
    )
}

/// The program quantises every row of the request, unless the rows are shared already or
/// the weight takes plain rows.
pub open spec fn prepares_rows(acc: Q4Acc, rq: MoeReq, c: Seq<Cmd>) -> bool {
    acc.moe_fits(rq) && !acc.weight_f32(rq.w) && !acc.quant_hit(rq) ==> forall|
        k: Kernels,
        m: spec_fn(Ptr) -> u8,
        ok: spec_fn(int) -> bool,
        i: int,
    | #[trigger] leaves_quantised(acc, rq, k, m, ran(k, m, c, ok, 0), i)
}

impl Q4Acc {
    /// The preparation quantises every routed row.
    pub proof fn law_preparation_quantises_every_row(&self, rq: MoeReq)
        ensures
            prepares_rows(*self, rq, self.prepare_program(rq, frame(*self, rq.x))),
    {
        let c = self.prepare_program(rq, frame(*self, rq.x));
        if self.moe_fits(rq) && !self.weight_f32(rq.w) && !self.quant_hit(rq) {
            assert forall|k: Kernels, m: spec_fn(Ptr) -> u8, ok: spec_fn(int) -> bool, i: int| #[trigger]
                leaves_quantised(*self, rq, k, m, ran(k, m, c, ok, 0), i) by {
                let (rows, xq_w) = (self.moe_rows(rq), spec_xq_words(rq.w.n_in as int));
                let len = xq_w * 4;
                let (head, work, rest) = (c.take(2), seq![c[2]], c.skip(3));
                assert(c =~= head + (work + rest));
                lemma_quiet(k, m, head, ok, 0);
                lemma_ran_behind(k, m, head, work + rest, ok, 0);
                lemma_one_command(k, m, work, ok, 2);
                lemma_ran_behind(k, m, work, rest, ok, 2);
                let after = performed(k, m, c[2]);
                lemma_quiet(k, after, rest, ok, 3);
                if 0 <= i < rows {
                    let q = spec_buf(Slot::Fxq);
                    let b = self.moe_bound(rq);
                    assert(rows * xq_w * 4 == rows * len && rows * len <= b * xq_w * 4 && 0 <= len)
                        by (nonlinear_arith)
                        requires
                            0 <= rows <= b,
                            0 <= xq_w,
                            len == xq_w * 4,
                    ;
                    let want = quantised_row(
                        k,
                        row_at(m, frame(*self, rq.x), rq.w.n_in * 4, i),
                        rq.w.n_in as int,
                    );
                    assert forall|x: int| 0 <= x < len implies row_at(after, q, len, i)[x]
                        == want[x] by {
                        lemma_in_row(i, x, len, rows);
                        assert(q.spec_at(i * len).spec_at(x) == q.spec_at(i * len + x));
                        assert(distance(q, q.spec_at(i * len + x)) == Some(i * len + x));
                    }
                    assert(row_at(after, q, len, i) =~= want);
                }
            }
        }
    }
}

/// Quantised rows are remembered where the quantisation puts them.
pub proof fn law_quantised_rows_are_found(acc: Q4Acc, after: Q4Acc, rq: MoeReq, x: Ptr, generation: u64)
    requires
        after.remembers(
            &acc,
            crate::device::Mark::Quantised {
                x,
                rows: acc.moe_rows(rq) as usize,
                generation,
                xq_w: spec_xq_words(rq.w.n_in as int) as usize,
            },
        ),
        !after.weight_f32(rq.w),
    ensures
        crate::moe::quant_program(x, rq.w.n_in, acc.moe_rows(rq))[1] matches Cmd::Quant {
            xq: Ptr::Buf { slot, off },
            xq_w,
            ..
        } && off == 0 && after.spec_moe_xq(rq).0 == present(acc)(slot) && after.spec_moe_xq(rq).1
            == xq_w,
{
}

} // verus!
