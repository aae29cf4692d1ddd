//! What transfers leave in device memory.
//!
//! Memory is modelled byte by byte, with every buffer apart from all others. Kernels
//! are not modelled: the statements here are about the transfers of a program.

use vstd::prelude::*;
use crate::acc::Q4Acc;
use crate::device::{spec_buf, Cmd, Host, Ptr, Slot};
use crate::error::Transfer;
use crate::key_map::LayerSeq;
use crate::qsa_pool::{kv_fits, Append, IdxReq, IdxSource};

verus! {

/// Bytes from one address to another in the same buffer.
pub open spec fn distance(base: Ptr, p: Ptr) -> Option<int> {
    match (base, p) {
        (Ptr::Dev { base: b, off: o }, Ptr::Dev { base: c, off: q }) => if b == c {
            Some(q - o)
        } else {
            None
        },
        (Ptr::Buf { slot: b, off: o }, Ptr::Buf { slot: c, off: q }) => if b == c {
            Some(q - o)
        } else {
            None
        },
        (Ptr::Weight { key: b, off: o }, Ptr::Weight { key: c, off: q }) => if b == c {
            Some(q - o)
        } else {
            None
        },
        _ => None,
    }
}

/// The address is one of the `n` bytes at `base`.
pub open spec fn is_inside(base: Ptr, n: int, p: Ptr) -> bool {
    distance(base, p) matches Some(i) && 0 <= i < n
}

/// The memory after `n` bytes were written at `dst`.
pub open spec fn written(m: spec_fn(Ptr) -> u8, dst: Ptr, n: int, data: spec_fn(int) -> u8) -> spec_fn(
    Ptr,
) -> u8 {
    |p: Ptr|
        if is_inside(dst, n, p) {
            data(distance(dst, p).unwrap())
        } else {
            m(p)
        }
}

/// The memory after the transfers of a program. Byte `i` of a host array is
/// `host(array, i)`.
pub open spec fn transferred(
    m: spec_fn(Ptr) -> u8,
    host: spec_fn(Host, int) -> u8,
    cmds: Seq<Cmd>,
) -> spec_fn(Ptr) -> u8
    decreases cmds.len(),
{
    if cmds.len() == 0 {
        m
    } else {
        let b = transferred(m, host, cmds.drop_last());
        match cmds.last() {
            Cmd::H2d { dst, src, bytes } => written(b, dst, bytes as int, |i: int| host(src, i)),
            Cmd::D2d { dst, src, bytes } => written(
                b,
                dst,
                bytes as int,
                |i: int| b(src.spec_at(i)),
            ),
            _ => b,
        }
    }
}

/// A frame keeps what was written to it: a read of a handle takes its bytes from
/// where a write of the same handle put them, in their order, and a write to a handle
/// leaves all memory outside its frame as it was.
pub proof fn law_read_returns_write(
    acc: Q4Acc,
    h: u64,
    words: int,
    more: int,
    m: spec_fn(Ptr) -> u8,
    host: spec_fn(Host, int) -> u8,
    what: Transfer,
    i: int,
    p: Ptr,
)
    requires
        0 <= words <= more,
        more * 4 <= usize::MAX,
        what != Transfer::Read,
        acc.transfer(h, more, what) is Ok,
        acc.frames.wf(),
    ensures
        acc.transfer(h, words, Transfer::Read) matches Ok(Cmd::D2h { src, bytes, .. }) && {
            let after = transferred(m, host, seq![acc.transfer(h, more, what)->Ok_0]);
            &&& bytes == words * 4
            &&& 0 <= i < bytes ==> after(src.spec_at(i)) == host(Host::X, i)
            &&& !is_inside(src, more * 4, p) ==> after(p) == m(p)
        },
{
    let c = acc.transfer(h, more, what)->Ok_0;
    reveal_with_fuel(transferred, 2);
    assert(seq![c].drop_last() =~= Seq::<Cmd>::empty());
    assert(seq![c].last() == c);
}

/// An append to the key and value pools of a layer and sequence puts the first `t` rows
/// of its sources into rows `pos0 .. pos0 + t`, and transfers nothing to other memory.
pub proof fn law_append_fills_its_rows(
    acc: Q4Acc,
    a: Append,
    n_kv: usize,
    hd: usize,
    k: Ptr,
    v: Ptr,
    m: spec_fn(Ptr) -> u8,
    host: spec_fn(Host, int) -> u8,
    i: int,
    p: Ptr,
)
    requires
        kv_fits(acc.ctx_len as int, a, n_kv, hd),
        k is Dev,
        v is Dev,
        k.offset() + a.t * n_kv * hd * 4 <= usize::MAX,
        v.offset() + a.t * n_kv * hd * 4 <= usize::MAX,
    ensures
        ({
            let ks = spec_buf(Slot::KvK { layer: a.at.layer, seq: a.at.seq });
            let vs = spec_buf(Slot::KvV { layer: a.at.layer, seq: a.at.seq });
            let after = transferred(m, host, acc.kv_program(a, n_kv, hd, k, v));
            let (first, n) = (a.pos0 * n_kv * hd * 4, a.t * n_kv * hd * 4);
            &&& 0 <= i < n ==> after(ks.spec_at(first + i)) == m(k.spec_at(i)) && after(
                vs.spec_at(first + i),
            ) == m(v.spec_at(i))
            &&& !is_inside(ks.spec_at(first), n, p) && !is_inside(vs.spec_at(first), n, p)
                ==> after(p) == m(p)
        }),
{
    let (pp, t, n, h) = (a.pos0 as int, a.t as int, n_kv as int, hd as int);
    assert(pp * n * h * 4 + t * n * h * 4 == (pp + t) * n * h * 4 && 0 <= pp * n * h * 4 && 0 <= t
        * n * h * 4) by (nonlinear_arith)
        requires
            0 <= pp,
            0 <= t,
            0 <= n,
            0 <= h,
    ;
    let prog = acc.kv_program(a, n_kv, hd, k, v);
    let last = prog.len() as int;
    reveal_with_fuel(transferred, 5);
    let head = prog.drop_last().drop_last();
    assert(prog.last() == prog[last - 1]);
    assert(prog.drop_last().last() == prog[last - 2]);
    if last == 4 {
        assert(head.last() == prog[1]);
        assert(head.drop_last().last() == prog[0]);
        assert(head.drop_last().drop_last() =~= Seq::<Cmd>::empty());
    } else {
        assert(head =~= Seq::<Cmd>::empty());
    }
}

/// An append to the indexer pool of a layer and sequence puts the first `t` keys of
/// its source into rows `pos0 .. pos0 + t` of that pool, and transfers nothing to other
/// memory but the norm and the rotation table.
pub proof fn law_indexer_append_fills_its_rows(
    acc: Q4Acc,
    rq: IdxReq,
    src: IdxSource,
    ikw: Seq<u32>,
    m: spec_fn(Ptr) -> u8,
    host: spec_fn(Host, int) -> u8,
    i: int,
    p: Ptr,
)
    requires
        acc.idx_fits(rq),
        src matches IdxSource::Device(p) ==> p is Dev,
    ensures
        ({
            let is = spec_buf(Slot::IdxK { layer: rq.add.at.layer, seq: rq.add.at.seq });
            let after = transferred(m, host, acc.idx_program(rq, src, ikw));
            let (first, n) = (rq.add.pos0 * rq.idx_dim * 4, rq.add.t * rq.idx_dim * 4);
            &&& 0 <= i < n ==> after(is.spec_at(first + i)) == match src {
                IdxSource::Device(p) => m(p.spec_at(i)),
                IdxSource::Host => host(Host::K, i),
            }
            &&& !is_inside(is.spec_at(first), n, p) && distance(spec_buf(Slot::QsaIkw), p) is None
                && distance(spec_buf(Slot::QsaCsidx), p) is None ==> after(p) == m(p)
        }),
{
    let a = rq.add;
    let is = spec_buf(Slot::IdxK { layer: a.at.layer, seq: a.at.seq });
    let prog = acc.idx_program(rq, src, ikw);
    let (pp, t, d) = (a.pos0 as int, a.t as int, rq.idx_dim as int);
    assert(pp * d * 4 + t * d * 4 == (pp + t) * d * 4 && 0 <= pp * d * 4 && 0 <= t * d * 4)
        by (nonlinear_arith)
        requires
            0 <= pp,
            0 <= t,
            0 <= d,
    ;
    let at = is.spec_at(pp * d * 4 + i);
    let head = prog.take(3);
    reveal_with_fuel(transferred, 4);
    assert(head.drop_last().drop_last().drop_last() =~= Seq::<Cmd>::empty());
    assert(head.last() == prog[2]);
    assert(head.drop_last().last() == prog[1]);
    assert(head.drop_last().drop_last().last() == prog[0]);
    assert(prog.take(prog.len() as int) =~= prog);
    lemma_slot_kept(m, host, prog, 3, prog.len() as int, at);
    if distance(spec_buf(Slot::QsaIkw), p) is None && distance(spec_buf(Slot::QsaCsidx), p) is None {
        lemma_slot_kept(m, host, prog, 3, prog.len() as int, p);
    }
}

/// Rows `pos0 .. pos0 + t` of the pools hold the first `t` rows of `k` and `v`, and
/// nothing else changed.
pub open spec fn rows_filled(
    m: spec_fn(Ptr) -> u8,
    after: spec_fn(Ptr) -> u8,
    a: Append,
    row: int,
    k: Ptr,
    v: Ptr,
    i: int,
    p: Ptr,
) -> bool {
    let ks = spec_buf(Slot::KvK { layer: a.at.layer, seq: a.at.seq });
    let vs = spec_buf(Slot::KvV { layer: a.at.layer, seq: a.at.seq });
    let (first, n) = (a.pos0 * row * 4, a.t * row * 4);
    &&& 0 <= i < n ==> after(ks.spec_at(first + i)) == m(k.spec_at(i)) && after(
        vs.spec_at(first + i),
    ) == m(v.spec_at(i))
    &&& !is_inside(ks.spec_at(first), n, p) && !is_inside(vs.spec_at(first), n, p) ==> after(p)
        == m(p)
}

/// The program appends the rows of `k` and `v`.
pub open spec fn appends_rows(
    acc: Q4Acc,
    a: Append,
    n_kv: usize,
    hd: usize,
    k: Ptr,
    v: Ptr,
    c: Seq<Cmd>,
) -> bool {
    kv_fits(acc.ctx_len as int, a, n_kv, hd) && k is Dev && v is Dev && k.offset() + a.t * n_kv * hd
        * 4 <= usize::MAX && v.offset() + a.t * n_kv * hd * 4 <= usize::MAX ==> forall|
        m: spec_fn(Ptr) -> u8,
        host: spec_fn(Host, int) -> u8,
        i: int,
        p: Ptr,
    | #[trigger]
        rows_filled(m, transferred(m, host, c), a, n_kv * hd, k, v, i, p)
}

/// An append is of the rows that it names.
pub proof fn law_append_takes_its_rows(acc: Q4Acc, a: Append, n_kv: usize, hd: usize, k: Ptr, v: Ptr)
    ensures
        appends_rows(acc, a, n_kv, hd, k, v, acc.kv_program(a, n_kv, hd, k, v)),
{
    let c = acc.kv_program(a, n_kv, hd, k, v);
    if kv_fits(acc.ctx_len as int, a, n_kv, hd) && k is Dev && v is Dev && k.offset() + a.t * n_kv
        * hd * 4 <= usize::MAX && v.offset() + a.t * n_kv * hd * 4 <= usize::MAX {
        assert forall|m: spec_fn(Ptr) -> u8, host: spec_fn(Host, int) -> u8, i: int, p: Ptr| #[trigger]
            rows_filled(m, transferred(m, host, c), a, n_kv * hd, k, v, i, p) by {
            law_append_fills_its_rows(acc, a, n_kv, hd, k, v, m, host, i, p);
            let (pp, t, n, h) = (a.pos0 as int, a.t as int, n_kv as int, hd as int);
            assert(pp * n * h * 4 == pp * (n * h) * 4 && t * n * h * 4 == t * (n * h) * 4)
                by (nonlinear_arith);
        }
    }
}

/// Byte `i` of the array that a program brings to the host, if it does.
pub open spec fn host_byte(m: spec_fn(Ptr) -> u8, c: Seq<Cmd>, dst: Host, i: int) -> Option<u8>
    decreases c.len(),
{
    if c.len() == 0 {
        None
    } else {
        match c.last() {
            Cmd::D2h { dst: d, src, bytes } => if d == dst && 0 <= i < bytes {
                Some(m(src.spec_at(i)))
            } else {
                host_byte(m, c.drop_last(), dst, i)
            },
            _ => host_byte(m, c.drop_last(), dst, i),
        }
    }
}

/// Keys that the program brings to the host are those of the pool of keys, and values those
/// of the pool of values.
pub open spec fn reads_pools(at: LayerSeq, c: Seq<Cmd>) -> bool {
    forall|m: spec_fn(Ptr) -> u8, i: int|
        #![trigger host_byte(m, c, Host::K, i)]
        #![trigger host_byte(m, c, Host::V, i)]
        {
            &&& host_byte(m, c, Host::K, i) matches Some(b) ==> b == m(
                spec_buf(Slot::KvK { layer: at.layer, seq: at.seq }).spec_at(i),
            )
            &&& host_byte(m, c, Host::V, i) matches Some(b) ==> b == m(
                spec_buf(Slot::KvV { layer: at.layer, seq: at.seq }).spec_at(i),
            )
        }
}

/// Two copies, of keys and of values, read the pools.
pub proof fn law_copies_read_pools(at: LayerSeq, nk: usize, nv: usize)
    ensures
        reads_pools(
            at,
            seq![
                Cmd::D2h {
                    dst: Host::K,
                    src: spec_buf(Slot::KvK { layer: at.layer, seq: at.seq }),
                    bytes: nk,
                },
                Cmd::D2h {
                    dst: Host::V,
                    src: spec_buf(Slot::KvV { layer: at.layer, seq: at.seq }),
                    bytes: nv,
                },
            ],
        ),
{
    let c = seq![
        Cmd::D2h {
            dst: Host::K,
            src: spec_buf(Slot::KvK { layer: at.layer, seq: at.seq }),
            bytes: nk,
        },
        Cmd::D2h {
            dst: Host::V,
            src: spec_buf(Slot::KvV { layer: at.layer, seq: at.seq }),
            bytes: nv,
        },
    ];
    reveal_with_fuel(host_byte, 3);
    assert(c.drop_last().last() == c[0]);
    assert(c.drop_last().drop_last() =~= Seq::<Cmd>::empty());
}

/// A rebuild brings back what was appended: of every token before `pos` its key and its
/// value, in the rows where the append put them.
pub proof fn law_rebuild_returns_appended_rows(
    acc: Q4Acc,
    a: Append,
    n_kv: usize,
    hd: usize,
    k: Ptr,
    v: Ptr,
    pos: int,
    r: int,
    dim: int,
    m: spec_fn(Ptr) -> u8,
    host: spec_fn(Host, int) -> u8,
    i: int,
)
    requires
        kv_fits(acc.ctx_len as int, a, n_kv, hd),
        k is Dev,
        v is Dev,
        k.offset() + a.t * n_kv * hd * 4 <= usize::MAX,
        v.offset() + a.t * n_kv * hd * 4 <= usize::MAX,
        a.pos0 + a.t <= pos,
        pos * (n_kv * hd) * 4 <= usize::MAX,
        0 <= i < a.t * n_kv * hd * 4,
    ensures
        ({
            let after = transferred(m, host, acc.kv_program(a, n_kv, hd, k, v));
            let c = Q4Acc::rebuild_program(a.at, pos, n_kv * hd, r, dim);
            let first = a.pos0 * n_kv * hd * 4;
            &&& host_byte(after, c, Host::K, first + i) == Some(m(k.spec_at(i)))
            &&& host_byte(after, c, Host::V, first + i) == Some(m(v.spec_at(i)))
        }),
{
    let after = transferred(m, host, acc.kv_program(a, n_kv, hd, k, v));
    let c = Q4Acc::rebuild_program(a.at, pos, n_kv * hd, r, dim);
    law_append_fills_its_rows(acc, a, n_kv, hd, k, v, m, host, i, k);
    let (pp, t, n, h) = (a.pos0 as int, a.t as int, n_kv as int, hd as int);
    assert(0 <= pp * n * h * 4 && pp * n * h * 4 + t * n * h * 4 <= pos * (n * h) * 4)
        by (nonlinear_arith)
        requires
            0 <= pp,
            0 <= t,
            pp + t <= pos,
            0 <= n,
            0 <= h,
    ;
    reveal_with_fuel(host_byte, 5);
    let (c3, c2) = (c.drop_last(), c.drop_last().drop_last());
    assert(c3.last() == c[2]);
    assert(c2.last() == c[1]);
    assert(c2.drop_last().last() == c[0]);
}

/// A rebuild brings back the indexer's keys as they were appended, and the block keys as
/// they lie in their pool.
pub proof fn law_rebuild_returns_indexer_rows(
    acc: Q4Acc,
    rq: IdxReq,
    src: IdxSource,
    ikw: Seq<u32>,
    pos: int,
    kv_row: int,
    m: spec_fn(Ptr) -> u8,
    host: spec_fn(Host, int) -> u8,
    i: int,
    b: int,
)
    requires
        acc.idx_fits(rq),
        src matches IdxSource::Device(p) ==> p is Dev,
        rq.r >= 1,
        rq.add.pos0 + rq.add.t <= pos,
        pos * rq.idx_dim * 4 <= usize::MAX,
        0 <= i < rq.add.t * rq.idx_dim * 4,
        0 <= b < pos / rq.r as int * rq.idx_dim * 4,
    ensures
        ({
            let after = transferred(m, host, acc.idx_program(rq, src, ikw));
            let c = Q4Acc::rebuild_program(rq.add.at, pos, kv_row, rq.r as int, rq.idx_dim as int);
            let first = rq.add.pos0 * rq.idx_dim * 4;
            let bs = spec_buf(Slot::BlockK { layer: rq.add.at.layer, seq: rq.add.at.seq });
            &&& host_byte(after, c, Host::X, first + i) == Some(
                match src {
                    IdxSource::Device(p) => m(p.spec_at(i)),
                    IdxSource::Host => host(Host::K, i),
                },
            )
            &&& host_byte(after, c, Host::Y, b) == Some(after(bs.spec_at(b)))
        }),
{
    let after = transferred(m, host, acc.idx_program(rq, src, ikw));
    let c = Q4Acc::rebuild_program(rq.add.at, pos, kv_row, rq.r as int, rq.idx_dim as int);
    law_indexer_append_fills_its_rows(acc, rq, src, ikw, m, host, i, spec_buf(Slot::Xf));
    let (pp, t, d) = (rq.add.pos0 as int, rq.add.t as int, rq.idx_dim as int);
    assert(0 <= pp * d * 4 && pp * d * 4 + t * d * 4 <= pos * d * 4) by (nonlinear_arith)
        requires
            0 <= pp,
            0 <= t,
            pp + t <= pos,
            0 <= d,
    ;
    let nb = pos / rq.r as int;
    assert(nb <= pos) by (nonlinear_arith)
        requires
            nb == pos / (rq.r as int),
            rq.r >= 1,
            pos >= 0,
    ;
    assert(nb * d * 4 <= pos * d * 4) by (nonlinear_arith)
        requires
            nb <= pos,
            0 <= d,
    ;
    reveal_with_fuel(host_byte, 5);
    assert(c.drop_last().last() == c[2]);
}

/// A run of appends to the indexer pool of a layer and sequence.
pub struct AppendRun {
    pub accs: Seq<Q4Acc>,
    pub rqs: Seq<IdxReq>,
    pub srcs: Seq<IdxSource>,
    pub ikws: Seq<Seq<u32>>,
    /// The memory before each append, and behind the last.
    pub mems: Seq<spec_fn(Ptr) -> u8>,
}

impl AppendRun {
    /// Append `s` runs over the memory that the one before it left, goes to the pool of
    /// `at`, and goes on at the row behind the one before it.
    pub open spec fn goes_on(&self, host: spec_fn(Host, int) -> u8, at: LayerSeq, dim: usize, s: int) -> bool {
        let rq = self.rqs[s];
        &&& self.accs[s].idx_fits(rq)
        &&& rq.add.at == at
        &&& rq.idx_dim == dim
        &&& self.srcs[s] matches IdxSource::Device(p) ==> p is Dev
        &&& s > 0 ==> rq.add.pos0 == self.rqs[s - 1].add.pos0 + self.rqs[s - 1].add.t
        &&& self.mems[s + 1] == transferred(
            self.mems[s],
            host,
            self.accs[s].idx_program(rq, self.srcs[s], self.ikws[s]),
        )
    }
}

/// Over a run of appends to the indexer pool, each going on at the row behind the one
/// before it, the pool holds every row as it was appended: the rows of append `k` are
/// still there behind `n` appends.
pub proof fn law_appended_indexer_rows_stay(
    run: AppendRun,
    host: spec_fn(Host, int) -> u8,
    at: LayerSeq,
    dim: usize,
    n: int,
    k: int,
    i: int,
)
    requires
        0 <= k < n,
        forall|s: int| 0 <= s < n ==> #[trigger] run.goes_on(host, at, dim, s),
        0 <= i < run.rqs[k].add.t * dim * 4,
    ensures
        ({
            let is = spec_buf(Slot::IdxK { layer: at.layer, seq: at.seq });
            (run.mems[n])(is.spec_at(run.rqs[k].add.pos0 * dim * 4 + i)) == match run.srcs[k] {
                IdxSource::Device(p) => (run.mems[k])(p.spec_at(i)),
                IdxSource::Host => host(Host::K, i),
            }
        }),
    decreases n,
{
    let s = n - 1;
    let r = run.rqs[s];
    let is = spec_buf(Slot::IdxK { layer: at.layer, seq: at.seq });
    let d = dim as int;
    let p = is.spec_at(run.rqs[k].add.pos0 * d * 4 + i);
    assert(run.goes_on(host, at, dim, s));
    assert(run.goes_on(host, at, dim, k));
    law_indexer_append_fills_its_rows(run.accs[s], r, run.srcs[s], run.ikws[s], run.mems[s], host, i, p);
    if k < s {
        law_appended_indexer_rows_stay(run, host, at, dim, s, k, i);
        lemma_positions_ascend(run, host, at, dim, k, s);
        let (p0, t0, p1, t1) = (
            run.rqs[k].add.pos0 as int,
            run.rqs[k].add.t as int,
            r.add.pos0 as int,
            r.add.t as int,
        );
        assert(p0 * d * 4 + i < p1 * d * 4 && 0 <= p0 * d * 4 && p1 * d * 4 <= (p1 + t1) * d * 4)
            by (nonlinear_arith)
            requires
                0 <= p0,
                0 <= t1,
                p0 + t0 <= p1,
                0 <= d,
                0 <= i < t0 * d * 4,
        ;
    }
}

proof fn lemma_positions_ascend(
    run: AppendRun,
    host: spec_fn(Host, int) -> u8,
    at: LayerSeq,
    dim: usize,
    k: int,
    s: int,
)
    requires
        0 <= k < s,
        forall|j: int| 0 <= j <= s ==> #[trigger] run.goes_on(host, at, dim, j),
    ensures
        run.rqs[k].add.pos0 + run.rqs[k].add.t <= run.rqs[s].add.pos0,
    decreases s - k,
{
    assert(run.goes_on(host, at, dim, k + 1));
    if k + 1 < s {
        lemma_positions_ascend(run, host, at, dim, k + 1, s);
    }
}

/// Transfers to other slots leave an address of a slot as it was.
proof fn lemma_slot_kept(
    m: spec_fn(Ptr) -> u8,
    host: spec_fn(Host, int) -> u8,
    prog: Seq<Cmd>,
    from: int,
    n: int,
    p: Ptr,
)
    requires
        0 <= from <= n <= prog.len(),
        forall|j: int|
            from <= j < n ==> match #[trigger] prog[j] {
                Cmd::H2d { dst, .. } => distance(dst, p) is None,
                Cmd::D2d { dst, .. } => distance(dst, p) is None,
                _ => true,
            },
    ensures
        transferred(m, host, prog.take(n))(p) == transferred(m, host, prog.take(from))(p),
    decreases n - from,
{
    if n > from {
        lemma_slot_kept(m, host, prog, from, n - 1, p);
        assert(prog.take(n).drop_last() =~= prog.take(n - 1));
        assert(prog.take(n).last() == prog[n - 1]);
    }
}

} // verus!
