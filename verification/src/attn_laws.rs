//! What the attention plans compute.
//!
//! The kernels are parameters, as in `kernel_effects`: attention is a function of a
//! query row and of the keys and values at the positions of its list. Whichever plan is
//! taken, keys come from the keys and values from the values.

use vstd::prelude::*;
use crate::acc::Q4Acc;
use crate::arith::lemma_ceil_div;
use crate::device::{spec_buf, Cmd, Host, Ptr, Slot};
use crate::kernel_effects::{attended, entry, list_of, none, parts_len, rows_of, Op};
use crate::memory::distance;
use crate::op_laws::{lemma_in_row, lemma_one_command};
use crate::product_runs::{
    jumps_inside, lemma_jumps_of_both, lemma_ran_behind, performed, ran, row_at, Kernels,
};
use crate::qsa_attn::{
    fetch, law_splits_bounded, list_launch, max1, put, room, spec_list_len, spec_splits,
    split_launches, AttnShape, ListKernel,
};
use crate::recurrence_laws::bytes_at;
use crate::upload_runs::{are_uploads, copies, fills, lemma_uploads};

verus! {

/// Where an input comes from: memory of the device, or an array of the host.
pub enum Source {
    Mem(Ptr),
    Array(Host),
}

/// Row `i` of rows of `len` bytes.
pub open spec fn source_row(
    k: Kernels,
    m: spec_fn(Ptr) -> u8,
    src: Source,
    len: int,
    i: int,
) -> Seq<u8> {
    match src {
        Source::Mem(p) => row_at(m, p, len, i),
        Source::Array(h) => Seq::new(len as nat, |b: int| (k.host)(h, i * len + b)),
    }
}

/// Number `i` of a list of numbers.
pub open spec fn source_entry(k: Kernels, m: spec_fn(Ptr) -> u8, src: Source, i: int) -> int {
    match src {
        Source::Mem(p) => entry(m, p, i),
        Source::Array(h) => (k.host)(h, 4 * i) + 256 * (k.host)(h, 4 * i + 1) + 65536 * (k.host)(
            h,
            4 * i + 2,
        ) + 16777216 * (k.host)(h, 4 * i + 3),
    }
}

/// Queries, keys, values, positions and the offsets of each token's positions.
pub struct Inputs {
    pub q: Source,
    pub key: Source,
    pub value: Source,
    pub idx: Source,
    pub off: Source,
}

impl Inputs {
    /// The first and the last position of token `i`, as places in the list.
    pub open spec fn from(&self, k: Kernels, m: spec_fn(Ptr) -> u8, i: int) -> int {
        source_entry(k, m, self.off, i)
    }

    /// The positions that token `i` attends to.
    pub open spec fn list(&self, k: Kernels, m: spec_fn(Ptr) -> u8, i: int) -> Seq<int> {
        let (lo, hi) = (self.from(k, m, i), self.from(k, m, i + 1));
        Seq::new((hi - lo) as nat, |e: int| source_entry(k, m, self.idx, lo + e))
    }

    /// The query of token `i`, and the keys and values at its positions.
    pub open spec fn of(&self, k: Kernels, m: spec_fn(Ptr) -> u8, s: AttnShape, i: int) -> Seq<
        Seq<u8>,
    > {
        let list = self.list(k, m, i);
        let len = s.n_kv * s.hd * 4;
        seq![source_row(k, m, self.q, s.n_head * 2 * s.hd * 4, i)] + Seq::new(
            list.len(),
            |e: int| source_row(k, m, self.key, len, list[e]),
        ) + Seq::new(list.len(), |e: int| source_row(k, m, self.value, len, list[e]))
    }
}

/// Attention of one query row.
pub open spec fn attention(k: Kernels, s: AttnShape, ins: Seq<Seq<u8>>) -> Seq<u8> {
    (k.op)(
        Op::Attention,
        seq![s.scale as int, s.n_head as int, s.n_kv as int, s.hd as int],
        ins,
        none(),
    )
}

/// The merged parts of any number of splits are the attention over the whole list.
pub open spec fn splits_merge(k: Kernels, s: AttnShape) -> bool {
    forall|n: int, ins: Seq<Seq<u8>>|
        n >= 1 && ins.len() > 0 ==> #[trigger] merged(k, s, n, ins) == attention(k, s, ins)
}

/// What the merge makes of the parts of `n` splits.
pub open spec fn merged(k: Kernels, s: AttnShape, n: int, ins: Seq<Seq<u8>>) -> Seq<u8> {
    (k.op)(
        Op::AttentionMerge,
        seq![n, s.n_head as int, s.hd as int],
        seq![
            Seq::new(
                parts_len(s.n_head as int, n) as nat,
                |j: int|
                    (k.op)(
                        Op::AttentionParts,
                        seq![n, s.scale as int, s.n_head as int, s.n_kv as int, s.hd as int],
                        ins,
                        none(),
                    )[j],
            ),
            ins[0],
        ],
        none(),
    )
}

/// The shape can be told to a kernel.
pub open spec fn shape_fits(s: AttnShape) -> bool {
    &&& s.n_head <= i32::MAX
    &&& s.n_kv <= i32::MAX
    &&& s.hd <= i32::MAX
    &&& s.t <= i32::MAX
    &&& parts_len(s.n_head as int, 512) <= usize::MAX
}

/// The heads come in the groups that a kernel takes.
pub open spec fn heads_fit(kind: ListKernel, s: AttnShape) -> bool {
    match kind {
        ListKernel::PerHead => true,
        ListKernel::Four => s.n_head % 8 == 0,
        ListKernel::Six => s.n_head % 12 == 0,
    }
}

/// The memory of an address and of all others in its buffer is as it was.
pub open spec fn is_kept(m: spec_fn(Ptr) -> u8, mid: spec_fn(Ptr) -> u8, p: Ptr) -> bool {
    forall|r: Ptr| distance(p, r) is Some ==> #[trigger] mid(r) == m(r)
}

/// Memory `mid` holds at `p` the first `n` bytes of what the source has in memory `m`.
pub open spec fn holds(
    k: Kernels,
    m: spec_fn(Ptr) -> u8,
    mid: spec_fn(Ptr) -> u8,
    p: Ptr,
    src: Source,
    n: int,
) -> bool {
    match src {
        Source::Mem(q) => q == p && p != Ptr::Null && is_kept(m, mid, p),
        Source::Array(h) => {
            &&& p is Buf && p.offset() == 0 && n <= usize::MAX
            &&& forall|j: int| 0 <= j < n ==> mid(#[trigger] p.spec_at(j)) == (k.host)(h, j)
        },
    }
}

proof fn lemma_row_held(
    k: Kernels,
    m: spec_fn(Ptr) -> u8,
    mid: spec_fn(Ptr) -> u8,
    p: Ptr,
    src: Source,
    n: int,
    len: int,
    i: int,
)
    requires
        holds(k, m, mid, p, src, n),
        0 <= i,
        0 <= len,
        src is Array ==> (i + 1) * len <= n,
    ensures
        row_at(mid, p, len, i) == source_row(k, m, src, len, i),
{
    assert(0 <= i * len && i * len + len == (i + 1) * len) by (nonlinear_arith)
        requires
            0 <= i,
            0 <= len,
    ;
    assert forall|b: int| 0 <= b < len implies #[trigger] row_at(mid, p, len, i)[b] == source_row(
        k,
        m,
        src,
        len,
        i,
    )[b] by {
        if src is Array {
            assert(p.spec_at(i * len).spec_at(b) == p.spec_at(i * len + b));
        } else {
            assert(distance(p, p.spec_at(i * len).spec_at(b)) is Some);
        }
    }
    assert(row_at(mid, p, len, i) =~= source_row(k, m, src, len, i));
}

proof fn lemma_entry_held(
    k: Kernels,
    m: spec_fn(Ptr) -> u8,
    mid: spec_fn(Ptr) -> u8,
    p: Ptr,
    src: Source,
    n: int,
    i: int,
)
    requires
        holds(k, m, mid, p, src, n * 4),
        0 <= i,
        src is Array ==> i < n,
    ensures
        entry(mid, p, i) == source_entry(k, m, src, i),
{
    let a = p.spec_at(4 * i);
    if src is Array {
        assert(a.spec_at(1) == p.spec_at(4 * i + 1));
        assert(a.spec_at(2) == p.spec_at(4 * i + 2));
        assert(a.spec_at(3) == p.spec_at(4 * i + 3));
        assert(mid(p.spec_at(4 * i)) == (k.host)(src->Array_0, 4 * i));
    } else {
        assert(distance(p, a) is Some);
        assert(distance(p, a.spec_at(1)) is Some);
        assert(distance(p, a.spec_at(2)) is Some);
        assert(distance(p, a.spec_at(3)) is Some);
    }
}

/// Sizes of what is uploaded, in values: queries, keys, values, positions, offsets.
pub struct Lens {
    pub q: int,
    pub key: int,
    pub value: int,
    pub idx: int,
    pub off: int,
}

/// What a token reads of an uploaded array is part of what was uploaded.
pub open spec fn is_uploaded(
    k: Kernels,
    m: spec_fn(Ptr) -> u8,
    x: Inputs,
    n: Lens,
    s: AttnShape,
    i: int,
) -> bool {
    let list = x.list(k, m, i);
    &&& 0 <= x.from(k, m, i) <= x.from(k, m, i + 1)
    &&& x.q is Array ==> (i + 1) * (s.n_head * 2 * s.hd * 4) <= n.q * 4
    &&& x.off is Array ==> i + 1 < n.off
    &&& x.idx is Array ==> x.from(k, m, i + 1) <= n.idx
    &&& forall|e: int|
        0 <= e < list.len() ==> {
            &&& 0 <= #[trigger] list[e]
            &&& x.key is Array ==> (list[e] + 1) * (s.n_kv * s.hd * 4) <= n.key * 4
            &&& x.value is Array ==> (list[e] + 1) * (s.n_kv * s.hd * 4) <= n.value * 4
        }
}

/// The addresses that a kernel is told.
pub struct Places {
    pub q: Ptr,
    pub key: Ptr,
    pub value: Ptr,
    pub idx: Ptr,
    pub off: Ptr,
}

/// The memory holds the inputs where the kernel is told.
pub open spec fn are_placed(
    k: Kernels,
    m: spec_fn(Ptr) -> u8,
    mid: spec_fn(Ptr) -> u8,
    x: Inputs,
    n: Lens,
    a: Places,
) -> bool {
    &&& holds(k, m, mid, a.q, x.q, n.q * 4)
    &&& holds(k, m, mid, a.key, x.key, n.key * 4)
    &&& holds(k, m, mid, a.value, x.value, n.value * 4)
    &&& holds(k, m, mid, a.idx, x.idx, n.idx * 4)
    &&& holds(k, m, mid, a.off, x.off, n.off * 4)
}

proof fn lemma_attended(
    k: Kernels,
    m: spec_fn(Ptr) -> u8,
    mid: spec_fn(Ptr) -> u8,
    x: Inputs,
    n: Lens,
    a: Places,
    s: AttnShape,
    i: int,
)
    requires
        are_placed(k, m, mid, x, n, a),
        is_uploaded(k, m, x, n, s, i),
        0 <= i,
    ensures
        attended(
            mid,
            a.q,
            a.key,
            a.value,
            a.idx,
            a.off,
            s.n_head as int,
            s.n_kv as int,
            s.hd as int,
            i,
        ) == x.of(k, m, s, i),
{
    let (ql, len) = (s.n_head * 2 * s.hd * 4, s.n_kv * s.hd * 4);
    assert(0 <= ql && 0 <= len) by (nonlinear_arith)
        requires
            ql == s.n_head * 2 * s.hd * 4,
            len == s.n_kv * s.hd * 4,
            s.n_head >= 0,
            s.hd >= 0,
            s.n_kv >= 0,
    ;
    lemma_row_held(k, m, mid, a.q, x.q, n.q * 4, ql, i);
    lemma_entry_held(k, m, mid, a.off, x.off, n.off, i);
    lemma_entry_held(k, m, mid, a.off, x.off, n.off, i + 1);
    let (lo, hi) = (x.from(k, m, i), x.from(k, m, i + 1));
    let list = x.list(k, m, i);
    assert forall|e: int| 0 <= e < hi - lo implies #[trigger] list_of(mid, a.idx, a.off, i)[e]
        == list[e] by {
        lemma_entry_held(k, m, mid, a.idx, x.idx, n.idx, lo + e);
    }
    assert(list_of(mid, a.idx, a.off, i) =~= list);
    let keys = Seq::new(list.len(), |e: int| source_row(k, m, x.key, len, list[e]));
    let values = Seq::new(list.len(), |e: int| source_row(k, m, x.value, len, list[e]));
    assert forall|e: int| 0 <= e < list.len() implies #[trigger] rows_of(mid, a.key, len, list)[e]
        == keys[e] by {
        lemma_row_held(k, m, mid, a.key, x.key, n.key * 4, len, list[e]);
    }
    assert forall|e: int| 0 <= e < list.len() implies #[trigger] rows_of(mid, a.value, len, list)[e]
        == values[e] by {
        lemma_row_held(k, m, mid, a.value, x.value, n.value * 4, len, list[e]);
    }
    assert(rows_of(mid, a.key, len, list) =~= keys);
    assert(rows_of(mid, a.value, len, list) =~= values);
}

/// A kernel that runs through whole lists.
proof fn lemma_list_launch(
    k: Kernels,
    m: spec_fn(Ptr) -> u8,
    mid: spec_fn(Ptr) -> u8,
    kind: ListKernel,
    x: Inputs,
    n: Lens,
    a: Places,
    s: AttnShape,
    out: Ptr,
    i: int,
    b: int,
)
    requires
        are_placed(k, m, mid, x, n, a),
        is_uploaded(k, m, x, n, s, i),
        shape_fits(s),
        heads_fit(kind, s),
        out is Dev || out is Buf,
        out.offset() + s.t * (s.n_head * s.hd * 4) <= usize::MAX,
        0 <= i < s.t,
        0 <= b < s.n_head * s.hd * 4,
    ensures
        performed(k, mid, list_launch(kind, s, a.q, a.key, a.value, a.idx, a.off, out))(
            out.spec_at(i * (s.n_head * s.hd * 4) + b),
        ) == attention(k, s, x.of(k, m, s, i))[b],
{
    let len = s.n_head * s.hd * 4;
    lemma_in_row(i, b, len, s.t as int);
    lemma_ceil_div(s.t as int, 16);
    lemma_ceil_div(s.t as int, 4);
    lemma_attended(k, m, mid, x, n, a, s, i);
    assert(distance(out, out.spec_at(i * len + b)) == Some(i * len + b));
    assert(s.n_head % 8 == 0 ==> (s.n_head / 8) * 8 == s.n_head);
    assert(s.n_head % 12 == 0 ==> (s.n_head / 12) * 12 == s.n_head);
}

/// A list in splits, and their merge.
proof fn lemma_split_launches(
    k: Kernels,
    m: spec_fn(Ptr) -> u8,
    mid: spec_fn(Ptr) -> u8,
    splits: int,
    x: Inputs,
    n: Lens,
    a: Places,
    s: AttnShape,
    out: Ptr,
    ok: spec_fn(int) -> bool,
    at: int,
    b: int,
)
    requires
        are_placed(k, m, mid, x, n, a),
        is_uploaded(k, m, x, n, s, 0),
        shape_fits(s),
        s.n_head % 12 == 0,
        splits_merge(k, s),
        1 <= splits <= 512,
        distance(spec_buf(Slot::Qsp), a.q) is None,
        out is Dev || out is Buf,
        out.offset() + s.n_head * s.hd * 4 <= usize::MAX,
        0 <= b < s.n_head * s.hd * 4,
    ensures
        jumps_inside(split_launches(s, splits, a.q, a.key, a.value, a.idx, a.off, out)),
        ran(
            k,
            mid,
            split_launches(s, splits, a.q, a.key, a.value, a.idx, a.off, out),
            ok,
            at,
        )(out.spec_at(b)) == attention(k, s, x.of(k, m, s, 0))[b],
{
    let c = split_launches(s, splits, a.q, a.key, a.value, a.idx, a.off, out);
    let (h, ql) = (s.n_head as int, s.n_head * 2 * s.hd * 4);
    let part = spec_buf(Slot::Qsp);
    let len = parts_len(h, splits);
    assert(0 <= len <= parts_len(h, 512)) by (nonlinear_arith)
        requires
            len == h * splits * 32 * 10 * 4,
            parts_len(h, 512) == h * 512 * 32 * 10 * 4,
            0 <= h,
            1 <= splits <= 512,
    ;
    assert(0 <= ql) by (nonlinear_arith)
        requires
            ql == s.n_head * 2 * s.hd * 4,
            s.n_head >= 0,
            s.hd >= 0,
    ;
    lemma_ceil_div(splits, 4);
    lemma_ceil_div(h, 8);
    assert((s.n_head / 12) * 12 == s.n_head);
    lemma_attended(k, m, mid, x, n, a, s, 0);
    let ins = x.of(k, m, s, 0);
    reveal_with_fuel(ran, 3);
    assert(c.skip(1) =~= seq![c[1]]);
    assert(seq![c[1]].skip(1) =~= Seq::<Cmd>::empty());
    let parts = performed(k, mid, c[0]);
    assert(ran(k, mid, c, ok, at) == performed(k, parts, c[1]));
    assert(distance(out, out.spec_at(b)) == Some(b));
    let told = Seq::new(
        len as nat,
        |j: int|
            (k.op)(
                Op::AttentionParts,
                seq![splits, s.scale as int, h, s.n_kv as int, s.hd as int],
                ins,
                none(),
            )[j],
    );
    assert forall|j: int| 0 <= j < len implies #[trigger] bytes_at(parts, part, len)[j]
        == told[j] by {
        assert(distance(part, part.spec_at(j)) == Some(j));
    }
    assert(bytes_at(parts, part, len) =~= told);
    assert forall|j: int| 0 <= j < ql implies #[trigger] bytes_at(parts, a.q, ql)[j] == ins[0][j] by {
        assert(0 * ql == 0);
        assert(a.q.spec_at(0).spec_at(j) == a.q.spec_at(j));
        assert(row_at(mid, a.q, ql, 0)[j] == mid(a.q.spec_at(j)));
        assert(distance(part, a.q.spec_at(j)) is None);
    }
    assert(bytes_at(parts, a.q, ql) =~= ins[0]);
    assert(merged(k, s, splits, ins) == attention(k, s, ins));
}

/// The slots that the plans use for themselves.
pub open spec fn is_own(slot: Slot) -> bool {
    slot == Slot::Qs || slot == Slot::Ckv || slot == Slot::Cvv || slot == Slot::Msk || slot
        == Slot::Soff || slot == Slot::Qsp || slot == Slot::Atn
}

/// An input on the device lies outside of what the plans use for themselves. A list that
/// is there already lies where the choice of blocks puts it.
pub open spec fn is_outside(src: Source) -> bool {
    match src {
        Source::Mem(Ptr::Null) => false,
        Source::Mem(Ptr::Buf { slot, .. }) => !is_own(slot),
        _ => true,
    }
}

/// Shapes and addresses for which a plan works: a single token is split over groups of
/// twelve heads, and more than three go in groups of eight.
pub open spec fn can_attend(x: Inputs, s: AttnShape, out: Ptr) -> bool {
    &&& shape_fits(s)
    &&& s.t == 1 ==> s.n_head % 12 == 0
    &&& s.t > 3 ==> s.n_head % 8 == 0
    &&& is_outside(x.q) && is_outside(x.key) && is_outside(x.value)
    &&& out.offset() + s.t * (s.n_head * s.hd * 4) <= usize::MAX
}

/// Byte `b` of the result of token `i` is that of the attention over its own list.
pub open spec fn attends(
    k: Kernels,
    m: spec_fn(Ptr) -> u8,
    c: Seq<Cmd>,
    ok: spec_fn(int) -> bool,
    x: Inputs,
    n: Lens,
    s: AttnShape,
    out: Ptr,
    i: int,
    b: int,
) -> bool {
    let len = s.n_head * s.hd * 4;
    splits_merge(k, s) && is_uploaded(k, m, x, n, s, i) && 0 <= i < s.t && 0 <= b < len ==> ran(
        k,
        m,
        c,
        ok,
        0,
    )(out.spec_at(i * len + b)) == attention(k, s, x.of(k, m, s, i))[b]
}

/// Whatever attention computes, the plan leaves in `out` the attention of every token
/// over the keys and values at the positions of its list.
pub open spec fn is_attention(c: Seq<Cmd>, x: Inputs, n: Lens, s: AttnShape, out: Ptr) -> bool {
    can_attend(x, s, out) ==> forall|
        k: Kernels,
        m: spec_fn(Ptr) -> u8,
        ok: spec_fn(int) -> bool,
        i: int,
        b: int,
    | #[trigger]
        attends(k, m, c, ok, x, n, s, out, i, b)
}

/// What the last command of a program brings to the host as its result.
pub open spec fn fetched(k: Kernels, m: spec_fn(Ptr) -> u8, c: Seq<Cmd>, ok: spec_fn(int) -> bool) -> Seq<
    u8,
> {
    match c.last() {
        Cmd::D2h { dst: Host::Y, src, bytes } => bytes_at(
            ran(k, m, c.drop_last(), ok, 0),
            src,
            bytes as int,
        ),
        _ => Seq::empty(),
    }
}

/// The same for what comes back to the host.
pub open spec fn brings(
    k: Kernels,
    m: spec_fn(Ptr) -> u8,
    c: Seq<Cmd>,
    ok: spec_fn(int) -> bool,
    x: Inputs,
    n: Lens,
    s: AttnShape,
    i: int,
    b: int,
) -> bool {
    let len = s.n_head * s.hd * 4;
    let y = fetched(k, m, c, ok);
    &&& y.len() == s.t * len
    &&& splits_merge(k, s) && is_uploaded(k, m, x, n, s, i) && 0 <= i < s.t && 0 <= b < len ==> y[i
        * len + b] == attention(k, s, x.of(k, m, s, i))[b]
}

/// Whatever attention computes, the plan brings the attention of every token to the host.
pub open spec fn is_host_attention(c: Seq<Cmd>, x: Inputs, n: Lens, s: AttnShape) -> bool {
    can_attend(x, s, spec_buf(Slot::Atn)) ==> forall|
        k: Kernels,
        m: spec_fn(Ptr) -> u8,
        ok: spec_fn(int) -> bool,
        i: int,
        b: int,
    | #[trigger]
        brings(k, m, c, ok, x, n, s, i, b)
}

/// Queries on the device, everything else from the host.
pub open spec fn device_inputs(q: Ptr) -> Inputs {
    Inputs {
        q: Source::Mem(q),
        key: Source::Array(Host::K),
        value: Source::Array(Host::V),
        idx: Source::Array(Host::SelIdx),
        off: Source::Array(Host::SelOff),
    }
}

/// Queries, keys and values on the device, the list from the host.
pub open spec fn resident_inputs(q: Ptr, key: Ptr, value: Ptr) -> Inputs {
    Inputs {
        q: Source::Mem(q),
        key: Source::Mem(key),
        value: Source::Mem(value),
        idx: Source::Array(Host::SelIdx),
        off: Source::Array(Host::SelOff),
    }
}

/// Everything on the device.
pub open spec fn listed_inputs(q: Ptr, key: Ptr, value: Ptr, idx: Ptr, off: Ptr) -> Inputs {
    Inputs {
        q: Source::Mem(q),
        key: Source::Mem(key),
        value: Source::Mem(value),
        idx: Source::Mem(idx),
        off: Source::Mem(off),
    }
}

/// Everything from the host.
pub open spec fn host_inputs() -> Inputs {
    Inputs {
        q: Source::Array(Host::Q),
        key: Source::Array(Host::K),
        value: Source::Array(Host::V),
        idx: Source::Array(Host::SelIdx),
        off: Source::Array(Host::SelOff),
    }
}

/// An array that an upload put into a slot.
proof fn lemma_held(
    k: Kernels,
    m: spec_fn(Ptr) -> u8,
    pre: Seq<Cmd>,
    ok: spec_fn(int) -> bool,
    i: int,
    slot: Slot,
    h: Host,
    n: int,
)
    requires
        are_uploads(pre),
        copies(pre, i, slot, h, n * 4),
    ensures
        holds(k, m, ran(k, m, pre, ok, 0), spec_buf(slot), Source::Array(h), n * 4),
{
    lemma_uploads(k, m, pre, ok, 0);
}

/// Memory outside of the slots that uploads fill.
proof fn lemma_kept(
    k: Kernels,
    m: spec_fn(Ptr) -> u8,
    pre: Seq<Cmd>,
    ok: spec_fn(int) -> bool,
    p: Ptr,
    n: int,
)
    requires
        are_uploads(pre),
        p != Ptr::Null,
        p matches Ptr::Buf { slot, .. } ==> !fills(pre, slot),
    ensures
        holds(k, m, ran(k, m, pre, ok, 0), p, Source::Mem(p), n),
{
    lemma_uploads(k, m, pre, ok, 0);
    let mid = ran(k, m, pre, ok, 0);
    assert forall|r: Ptr| distance(p, r) is Some implies #[trigger] mid(r) == m(r) by {}
}

/// The two programs that follow the uploads.
pub open spec fn tail_of(
    split: bool,
    splits: int,
    kind: ListKernel,
    s: AttnShape,
    a: Places,
    out: Ptr,
) -> Seq<Cmd> {
    if split {
        split_launches(s, splits, a.q, a.key, a.value, a.idx, a.off, out)
    } else {
        seq![list_launch(kind, s, a.q, a.key, a.value, a.idx, a.off, out)]
    }
}

/// Uploads, then attention by one of the kernels.
proof fn lemma_plan_attends(
    k: Kernels,
    m: spec_fn(Ptr) -> u8,
    pre: Seq<Cmd>,
    split: bool,
    splits: int,
    kind: ListKernel,
    x: Inputs,
    n: Lens,
    a: Places,
    s: AttnShape,
    out: Ptr,
    ok: spec_fn(int) -> bool,
    i: int,
    b: int,
)
    requires
        are_uploads(pre),
        are_placed(k, m, ran(k, m, pre, ok, 0), x, n, a),
        can_attend(x, s, out),
        split ==> s.t == 1,
        !split ==> heads_fit(kind, s),
        1 <= splits <= 512,
        out is Dev || out is Buf,
        distance(spec_buf(Slot::Qsp), a.q) is None,
    ensures
        attends(k, m, pre + tail_of(split, splits, kind, s, a, out), ok, x, n, s, out, i, b),
        jumps_inside(pre + tail_of(split, splits, kind, s, a, out)),
{
    let tail = tail_of(split, splits, kind, s, a, out);
    let mid = ran(k, m, pre, ok, 0);
    let len = s.n_head * s.hd * 4;
    lemma_uploads(k, m, pre, ok, 0);
    assert(jumps_inside(tail));
    lemma_jumps_of_both(pre, tail);
    lemma_ran_behind(k, m, pre, tail, ok, 0);
    if splits_merge(k, s) && is_uploaded(k, m, x, n, s, i) && 0 <= i < s.t && 0 <= b < len {
        if split {
            assert(1 * len == len && 0 * len == 0);
            lemma_split_launches(
                k,
                m,
                mid,
                splits,
                x,
                n,
                a,
                s,
                out,
                ok,
                pre.len() as int,
                b,
            );
        } else {
            lemma_one_command(k, mid, tail, ok, pre.len() as int);
            lemma_list_launch(k, m, mid, kind, x, n, a, s, out, i, b);
        }
    }
}

impl Q4Acc {
    /// Attention over the resident cache reads the keys from where the keys are and the
    /// values from where the values are.
    pub proof fn law_resident_attention(
        &self,
        s: AttnShape,
        key: Ptr,
        value: Ptr,
        si: int,
        sel_off: Seq<u32>,
        q: Ptr,
        out: Ptr,
    )
        requires
            q is Dev,
            out is Dev,
            0 <= si * 4 <= usize::MAX,
            sel_off.len() * 4 <= usize::MAX,
        ensures
            is_attention(
                self.resident_program(s, key, value, si, sel_off, q, out),
                resident_inputs(q, key, value),
                Lens { q: 0, key: 0, value: 0, idx: si, off: sel_off.len() as int },
                s,
                out,
            ),
    {
        let c = self.resident_program(s, key, value, si, sel_off, q, out);
        let x = resident_inputs(q, key, value);
        let so = sel_off.len() as int;
        let n = Lens { q: 0, key: 0, value: 0, idx: si, off: so };
        let split = s.t == 1 && !self.tuning.qsa_split_off;
        let list = spec_list_len(sel_off);
        law_splits_bounded(list, self.tuning.qsa_split_cap);
        let splits = if split {
            spec_splits(list, self.tuning.qsa_split_cap)
        } else {
            1
        };
        let pre = seq![
            room(Slot::Msk, max1(si)),
            room(Slot::Soff, max1(so)),
            Q4Acc::split_room(s, splits),
            put(Slot::Msk, Host::SelIdx, si),
            put(Slot::Soff, Host::SelOff, so),
        ];
        let kind = if s.t > 3 {
            ListKernel::Four
        } else {
            ListKernel::PerHead
        };
        let a = Places { q, key, value, idx: spec_buf(Slot::Msk), off: spec_buf(Slot::Soff) };
        assert(c =~= pre + tail_of(split, splits, kind, s, a, out));
        assert(copies(pre, 3, Slot::Msk, Host::SelIdx, si * 4));
        assert(copies(pre, 4, Slot::Soff, Host::SelOff, so * 4));
        if can_attend(x, s, out) {
            assert forall|
                k: Kernels,
                m: spec_fn(Ptr) -> u8,
                ok: spec_fn(int) -> bool,
                i: int,
                b: int,
            | #[trigger] attends(k, m, c, ok, x, n, s, out, i, b) by {
                lemma_held(k, m, pre, ok, 3, Slot::Msk, Host::SelIdx, si);
                lemma_held(k, m, pre, ok, 4, Slot::Soff, Host::SelOff, so);
                lemma_kept(k, m, pre, ok, q, 0);
                lemma_kept(k, m, pre, ok, key, 0);
                lemma_kept(k, m, pre, ok, value, 0);
                lemma_plan_attends(k, m, pre, split, splits, kind, x, n, a, s, out, ok, i, b);
            }
        }
    }

    /// Attention with queries and results in frames reads keys and values from the arrays
    /// of the host, in splits or in whole lists.
    pub proof fn law_device_attention(
        &self,
        s: AttnShape,
        ck: int,
        cv: int,
        si: int,
        sel_off: Seq<u32>,
        q: Ptr,
        out: Ptr,
    )
        requires
            q is Dev,
            out is Dev,
            0 <= ck * 4 <= usize::MAX,
            0 <= cv * 4 <= usize::MAX,
            0 <= si * 4 <= usize::MAX,
            sel_off.len() * 4 <= usize::MAX,
        ensures
            ({
                let n = Lens { q: 0, key: ck, value: cv, idx: si, off: sel_off.len() as int };
                let x = device_inputs(q);
                &&& s.t == 1 ==> is_attention(
                    self.split_dev_program(s, ck, cv, si, sel_off, q, out),
                    x,
                    n,
                    s,
                    out,
                )
                &&& is_attention(
                    Q4Acc::dev_program(s, ck, cv, si, sel_off.len() as int, q, out),
                    x,
                    n,
                    s,
                    out,
                )
            }),
    {
        let x = device_inputs(q);
        let so = sel_off.len() as int;
        let n = Lens { q: 0, key: ck, value: cv, idx: si, off: so };
        let list = spec_list_len(sel_off);
        law_splits_bounded(list, self.tuning.qsa_split_cap);
        let splits = spec_splits(list, self.tuning.qsa_split_cap);
        let kind = if s.t > 3 {
            ListKernel::Four
        } else {
            ListKernel::PerHead
        };
        let a = Places {
            q,
            key: spec_buf(Slot::Ckv),
            value: spec_buf(Slot::Cvv),
            idx: spec_buf(Slot::Msk),
            off: spec_buf(Slot::Soff),
        };
        let puts = seq![
            put(Slot::Ckv, Host::K, ck),
            put(Slot::Cvv, Host::V, cv),
            put(Slot::Msk, Host::SelIdx, si),
            put(Slot::Soff, Host::SelOff, so),
        ];
        let rooms = self.kv_room(s, ck, cv) + seq![
            room(Slot::Msk, max1(si)),
            room(Slot::Soff, max1(so)),
            Q4Acc::split_room(s, splits),
        ];
        let pre = rooms + puts;
        let c = self.split_dev_program(s, ck, cv, si, sel_off, q, out);
        assert(c =~= pre + tail_of(true, splits, kind, s, a, out));
        assert(pre.len() == 9);
        assert(copies(pre, 5, Slot::Ckv, Host::K, ck * 4));
        assert(copies(pre, 6, Slot::Cvv, Host::V, cv * 4));
        assert(copies(pre, 7, Slot::Msk, Host::SelIdx, si * 4));
        assert(copies(pre, 8, Slot::Soff, Host::SelOff, so * 4));
        if can_attend(x, s, out) && s.t == 1 {
            assert forall|
                k: Kernels,
                m: spec_fn(Ptr) -> u8,
                ok: spec_fn(int) -> bool,
                i: int,
                b: int,
            | #[trigger] attends(k, m, c, ok, x, n, s, out, i, b) by {
                lemma_held(k, m, pre, ok, 5, Slot::Ckv, Host::K, ck);
                lemma_held(k, m, pre, ok, 6, Slot::Cvv, Host::V, cv);
                lemma_held(k, m, pre, ok, 7, Slot::Msk, Host::SelIdx, si);
                lemma_held(k, m, pre, ok, 8, Slot::Soff, Host::SelOff, so);
                lemma_kept(k, m, pre, ok, q, 0);
                lemma_plan_attends(k, m, pre, true, splits, kind, x, n, a, s, out, ok, i, b);
            }
        }
        let d = Q4Acc::dev_program(s, ck, cv, si, so, q, out);
        let pre2 = d.drop_last();
        assert(d =~= pre2 + tail_of(false, 1, kind, s, a, out));
        assert(copies(pre2, 6, Slot::Ckv, Host::K, ck * 4));
        assert(copies(pre2, 7, Slot::Cvv, Host::V, cv * 4));
        assert(copies(pre2, 8, Slot::Msk, Host::SelIdx, si * 4));
        assert(copies(pre2, 9, Slot::Soff, Host::SelOff, so * 4));
        if can_attend(x, s, out) {
            assert forall|
                k: Kernels,
                m: spec_fn(Ptr) -> u8,
                ok: spec_fn(int) -> bool,
                i: int,
                b: int,
            | #[trigger] attends(k, m, d, ok, x, n, s, out, i, b) by {
                lemma_held(k, m, pre2, ok, 6, Slot::Ckv, Host::K, ck);
                lemma_held(k, m, pre2, ok, 7, Slot::Cvv, Host::V, cv);
                lemma_held(k, m, pre2, ok, 8, Slot::Msk, Host::SelIdx, si);
                lemma_held(k, m, pre2, ok, 9, Slot::Soff, Host::SelOff, so);
                lemma_kept(k, m, pre2, ok, q, 0);
                lemma_plan_attends(k, m, pre2, false, 1, kind, x, n, a, s, out, ok, i, b);
            }
        }
    }

    /// Split attention over a list that is on the device already.
    pub proof fn law_listed_attention(
        &self,
        s: AttnShape,
        key: Ptr,
        value: Ptr,
        idx: Ptr,
        off: Ptr,
        splits: int,
        q: Ptr,
        out: Ptr,
    )
        requires
            q is Dev,
            out is Dev,
            s.t == 1,
            1 <= splits <= 512,
        ensures
            distance(spec_buf(Slot::Qsp), idx) is None && distance(spec_buf(Slot::Qsp), off) is None
                && idx != Ptr::Null && off != Ptr::Null ==> is_attention(
                seq![Q4Acc::split_room(s, splits)] + split_launches(
                    s,
                    splits,
                    q,
                    key,
                    value,
                    idx,
                    off,
                    out,
                ),
                listed_inputs(q, key, value, idx, off),
                Lens { q: 0, key: 0, value: 0, idx: 0, off: 0 },
                s,
                out,
            ),
    {
        let x = listed_inputs(q, key, value, idx, off);
        let n = Lens { q: 0, key: 0, value: 0, idx: 0, off: 0 };
        let a = Places { q, key, value, idx, off };
        let pre = seq![Q4Acc::split_room(s, splits)];
        let c = pre + split_launches(s, splits, q, key, value, idx, off, out);
        assert(c =~= pre + tail_of(true, splits, ListKernel::PerHead, s, a, out));
        if can_attend(x, s, out) && idx != Ptr::Null && off != Ptr::Null {
            assert forall|
                k: Kernels,
                m: spec_fn(Ptr) -> u8,
                ok: spec_fn(int) -> bool,
                i: int,
                b: int,
            | #[trigger] attends(k, m, c, ok, x, n, s, out, i, b) by {
                lemma_kept(k, m, pre, ok, q, 0);
                lemma_kept(k, m, pre, ok, key, 0);
                lemma_kept(k, m, pre, ok, value, 0);
                lemma_kept(k, m, pre, ok, idx, 0);
                lemma_kept(k, m, pre, ok, off, 0);
                lemma_plan_attends(
                    k,
                    m,
                    pre,
                    true,
                    splits,
                    ListKernel::PerHead,
                    x,
                    n,
                    a,
                    s,
                    out,
                    ok,
                    i,
                    b,
                );
            }
        }
    }

    /// Attention over host arrays, in whole lists or in splits, with the result back on
    /// the host.
    pub proof fn law_host_attention(
        &self,
        kind: ListKernel,
        s: AttnShape,
        nq: int,
        ck: int,
        cv: int,
        si: int,
        sel_off: Seq<u32>,
    )
        requires
            0 <= nq * 4 <= usize::MAX,
            0 <= ck * 4 <= usize::MAX,
            0 <= cv * 4 <= usize::MAX,
            0 <= si * 4 <= usize::MAX,
            sel_off.len() * 4 <= usize::MAX,
            s.t * s.n_head * s.hd * 4 <= usize::MAX,
        ensures
            ({
                let n = Lens { q: nq, key: ck, value: cv, idx: si, off: sel_off.len() as int };
                &&& heads_fit(kind, s) ==> is_host_attention(
                    self.sel_program(kind, s, nq, ck, cv, si, sel_off.len() as int),
                    host_inputs(),
                    n,
                    s,
                )
                &&& s.t == 1 ==> is_host_attention(
                    self.split_program(s, nq, ck, cv, si, sel_off),
                    host_inputs(),
                    n,
                    s,
                )
            }),
    {
        let x = host_inputs();
        let so = sel_off.len() as int;
        let n = Lens { q: nq, key: ck, value: cv, idx: si, off: so };
        let list = spec_list_len(sel_off);
        law_splits_bounded(list, self.tuning.qsa_split_cap);
        let splits = spec_splits(list, self.tuning.qsa_split_cap);
        let a = Places {
            q: spec_buf(Slot::Qs),
            key: spec_buf(Slot::Ckv),
            value: spec_buf(Slot::Cvv),
            idx: spec_buf(Slot::Msk),
            off: spec_buf(Slot::Soff),
        };
        let out = spec_buf(Slot::Atn);
        let puts = seq![
            put(Slot::Qs, Host::Q, nq),
            put(Slot::Ckv, Host::K, ck),
            put(Slot::Cvv, Host::V, cv),
            put(Slot::Msk, Host::SelIdx, si),
            put(Slot::Soff, Host::SelOff, so),
        ];
        let c = self.sel_program(kind, s, nq, ck, cv, si, so);
        let pre = seq![room(Slot::Qs, nq)] + self.kv_room(s, ck, cv) + seq![
            room(Slot::Msk, max1(si)),
            room(Slot::Soff, max1(so)),
            room(Slot::Atn, s.t * s.n_head * s.hd),
        ] + puts;
        assert(c.drop_last() =~= pre + tail_of(false, 1, kind, s, a, out));
        if heads_fit(kind, s) {
            lemma_host_plan(c, pre, 6, false, 1, kind, x, n, a, s);
        }
        let d = self.split_program(s, nq, ck, cv, si, sel_off);
        let pre2 = seq![room(Slot::Qs, max1(nq))] + self.kv_room(s, ck, cv) + seq![
            room(Slot::Msk, max1(si)),
            room(Slot::Soff, max1(so)),
            Q4Acc::split_room(s, splits),
            room(Slot::Atn, s.t * s.n_head * s.hd),
        ] + puts;
        assert(d.drop_last() =~= pre2 + tail_of(true, splits, kind, s, a, out));
        if s.t == 1 {
            lemma_host_plan(d, pre2, 7, true, splits, kind, x, n, a, s);
        }
    }
}

/// Five uploads from command `at` on, attention, and the way back.
proof fn lemma_host_plan(
    c: Seq<Cmd>,
    pre: Seq<Cmd>,
    at: int,
    split: bool,
    splits: int,
    kind: ListKernel,
    x: Inputs,
    n: Lens,
    a: Places,
    s: AttnShape,
)
    requires
        x == host_inputs(),
        a == (Places {
            q: spec_buf(Slot::Qs),
            key: spec_buf(Slot::Ckv),
            value: spec_buf(Slot::Cvv),
            idx: spec_buf(Slot::Msk),
            off: spec_buf(Slot::Soff),
        }),
        c.len() > 0,
        c.drop_last() == pre + tail_of(split, splits, kind, s, a, spec_buf(Slot::Atn)),
        c.last() == fetch(s),
        are_uploads(pre),
        copies(pre, at, Slot::Qs, Host::Q, n.q * 4),
        copies(pre, at + 1, Slot::Ckv, Host::K, n.key * 4),
        copies(pre, at + 2, Slot::Cvv, Host::V, n.value * 4),
        copies(pre, at + 3, Slot::Msk, Host::SelIdx, n.idx * 4),
        copies(pre, at + 4, Slot::Soff, Host::SelOff, n.off * 4),
        split ==> s.t == 1,
        !split ==> heads_fit(kind, s),
        1 <= splits <= 512,
        s.t * s.n_head * s.hd * 4 <= usize::MAX,
    ensures
        is_host_attention(c, x, n, s),
{
    let out = spec_buf(Slot::Atn);
    let len = s.n_head * s.hd * 4;
    assert(s.t * s.n_head * s.hd * 4 == s.t * len && 0 <= s.t * len) by (nonlinear_arith)
        requires
            len == s.n_head * s.hd * 4,
            s.t >= 0,
            s.n_head >= 0,
            s.hd >= 0,
    ;
    if can_attend(x, s, out) {
        assert forall|
            k: Kernels,
            m: spec_fn(Ptr) -> u8,
            ok: spec_fn(int) -> bool,
            i: int,
            b: int,
        | #[trigger] brings(k, m, c, ok, x, n, s, i, b) by {
            lemma_held(k, m, pre, ok, at, Slot::Qs, Host::Q, n.q);
            lemma_held(k, m, pre, ok, at + 1, Slot::Ckv, Host::K, n.key);
            lemma_held(k, m, pre, ok, at + 2, Slot::Cvv, Host::V, n.value);
            lemma_held(k, m, pre, ok, at + 3, Slot::Msk, Host::SelIdx, n.idx);
            lemma_held(k, m, pre, ok, at + 4, Slot::Soff, Host::SelOff, n.off);
            lemma_plan_attends(k, m, pre, split, splits, kind, x, n, a, s, out, ok, i, b);
            if 0 <= i < s.t && 0 <= b < len {
                lemma_in_row(i, b, len, s.t as int);
            }
        }
    }
}

/// Byte `b` of the result of token `i` is that of the attention of its query over the
/// first `n_past` keys and values, under its own row of the mask.
pub open spec fn brings_masked(
    k: Kernels,
    m: spec_fn(Ptr) -> u8,
    c: Seq<Cmd>,
    ok: spec_fn(int) -> bool,
    s: AttnShape,
    n_past: int,
    i: int,
    b: int,
) -> bool {
    let (len, ql, kl) = (s.n_head * s.hd * 4, s.n_head * 2 * s.hd * 4, n_past * s.n_kv * s.hd * 4);
    let y = fetched(k, m, c, ok);
    &&& y.len() == s.t * len
    &&& 0 <= i < s.t && 0 <= b < len ==> y[i * len + b] == (k.op)(
        Op::MaskedAttention,
        seq![s.scale as int, n_past, s.n_head as int, s.n_kv as int, s.hd as int],
        seq![
            source_row(k, m, Source::Array(Host::Q), ql, i),
            source_row(k, m, Source::Array(Host::K), kl, 0),
            source_row(k, m, Source::Array(Host::V), kl, 0),
            source_row(k, m, Source::Array(Host::Mask), n_past * 4, i),
        ],
        none(),
    )[b]
}

/// Whatever attention computes, the plan brings it to the host for every token, where the
/// arrays hold all that it reads.
pub open spec fn is_masked_attention(
    c: Seq<Cmd>,
    s: AttnShape,
    n_past: int,
    nq: int,
    ck: int,
    cv: int,
    mask: int,
) -> bool {
    masked_fits(s, n_past, nq, ck, cv, mask) ==> forall|
        k: Kernels,
        m: spec_fn(Ptr) -> u8,
        ok: spec_fn(int) -> bool,
        i: int,
        b: int,
    | #[trigger]
        brings_masked(k, m, c, ok, s, n_past, i, b)
}

/// The arrays hold all that the kernel reads, and the shape can be told.
pub open spec fn masked_fits(s: AttnShape, n_past: int, nq: int, ck: int, cv: int, mask: int) -> bool {
    &&& shape_fits(s)
    &&& 0 <= n_past <= i32::MAX
    &&& s.t * (s.n_head * 2 * s.hd) <= nq
    &&& n_past * s.n_kv * s.hd <= ck
    &&& n_past * s.n_kv * s.hd <= cv
    &&& s.t * n_past <= mask
}

impl Q4Acc {
    /// Attention under a mask reads queries, keys, values and mask from their own arrays.
    pub proof fn law_masked_attention(
        &self,
        s: AttnShape,
        n_past: usize,
        nq: int,
        ck: int,
        cv: int,
        mask: int,
    )
        requires
            0 <= nq * 4 <= usize::MAX,
            0 <= ck * 4 <= usize::MAX,
            0 <= cv * 4 <= usize::MAX,
            0 <= mask * 4 <= usize::MAX,
            s.t * s.n_head * s.hd * 4 <= usize::MAX,
        ensures
            is_masked_attention(
                self.masked_program(s, n_past, nq, ck, cv, mask),
                s,
                n_past as int,
                nq,
                ck,
                cv,
                mask,
            ),
    {
        let c = self.masked_program(s, n_past, nq, ck, cv, mask);
        let np = n_past as int;
        let (len, ql, kl) = (s.n_head * s.hd * 4, s.n_head * 2 * s.hd * 4, np * s.n_kv * s.hd * 4);
        let pre = c.drop_last().drop_last();
        let l = c[c.len() - 2];
        let out = spec_buf(Slot::Atn);
        assert(pre.len() == 9);
        assert(copies(pre, 5, Slot::Qs, Host::Q, nq * 4));
        assert(copies(pre, 6, Slot::Ckv, Host::K, ck * 4));
        assert(copies(pre, 7, Slot::Cvv, Host::V, cv * 4));
        assert(copies(pre, 8, Slot::Msk, Host::Mask, mask * 4));
        assert(c.drop_last() =~= pre + seq![l]);
        assert(s.t * s.n_head * s.hd * 4 == s.t * len && 0 <= s.t * len && 0 <= ql && 0 <= kl)
            by (nonlinear_arith)
            requires
                len == s.n_head * s.hd * 4,
                ql == s.n_head * 2 * s.hd * 4,
                kl == np * s.n_kv * s.hd * 4,
                s.t >= 0,
                s.n_head >= 0,
                s.n_kv >= 0,
                s.hd >= 0,
                np >= 0,
        ;
        if masked_fits(s, np, nq, ck, cv, mask) {
            assert forall|
                k: Kernels,
                m: spec_fn(Ptr) -> u8,
                ok: spec_fn(int) -> bool,
                i: int,
                b: int,
            | #[trigger] brings_masked(k, m, c, ok, s, np, i, b) by {
                lemma_held(k, m, pre, ok, 5, Slot::Qs, Host::Q, nq);
                lemma_held(k, m, pre, ok, 6, Slot::Ckv, Host::K, ck);
                lemma_held(k, m, pre, ok, 7, Slot::Cvv, Host::V, cv);
                lemma_held(k, m, pre, ok, 8, Slot::Msk, Host::Mask, mask);
                lemma_uploads(k, m, pre, ok, 0);
                let mid = ran(k, m, pre, ok, 0);
                lemma_ran_behind(k, m, pre, seq![l], ok, 0);
                lemma_one_command(k, mid, seq![l], ok, 9);
                if 0 <= i < s.t && 0 <= b < len {
                    lemma_in_row(i, b, len, s.t as int);
                    lemma_ceil_div(s.t as int, 16);
                    assert((i + 1) * ql <= nq * 4 && (i + 1) * (np * 4) <= mask * 4)
                        by (nonlinear_arith)
                        requires
                            0 <= i < s.t,
                            ql == (s.n_head * 2 * s.hd) * 4,
                            0 <= ql,
                            s.t * (s.n_head * 2 * s.hd) <= nq,
                            s.t * np <= mask,
                            0 <= np,
                    ;
                    lemma_row_held(k, m, mid, spec_buf(Slot::Qs), Source::Array(Host::Q), nq * 4, ql, i);
                    lemma_row_held(k, m, mid, spec_buf(Slot::Ckv), Source::Array(Host::K), ck * 4, kl, 0);
                    lemma_row_held(k, m, mid, spec_buf(Slot::Cvv), Source::Array(Host::V), cv * 4, kl, 0);
                    lemma_row_held(
                        k,
                        m,
                        mid,
                        spec_buf(Slot::Msk),
                        Source::Array(Host::Mask),
                        mask * 4,
                        np * 4,
                        i,
                    );
                    assert(0 * kl == 0);
                    assert(bytes_at(mid, spec_buf(Slot::Ckv), kl) =~= row_at(
                        mid,
                        spec_buf(Slot::Ckv),
                        kl,
                        0,
                    ));
                    assert(bytes_at(mid, spec_buf(Slot::Cvv), kl) =~= row_at(
                        mid,
                        spec_buf(Slot::Cvv),
                        kl,
                        0,
                    ));
                    assert(distance(out, out.spec_at(i * len + b)) == Some(i * len + b));
                    assert(fetched(k, m, c, ok)[i * len + b] == performed(k, mid, l)(
                        out.spec_at(i * len + b),
                    ));
                }
            }
        }
    }
}

} // verus!
