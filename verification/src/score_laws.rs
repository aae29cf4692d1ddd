//! What the indexer leaves in memory: keys of blocks, and the scores of a query.
//!
//! The kernels are parameters, as in `kernel_effects`.

use vstd::prelude::*;
use crate::acc::Q4Acc;
use crate::arith::lemma_ceil_div;
use crate::consts::{hashed_program, keyed_program};
use crate::device::{spec_buf, Cmd, Host, Ptr, Slot};
use crate::hash::fnv_words;
use crate::kernel_effects::{none, view, Op};
use crate::kernels::Call;
use crate::memory::{distance, is_inside, written};
use crate::op_laws::{lemma_in_row, lemma_one_command};
use crate::product_runs::{jumps_inside, lemma_ran_behind, performed, ran, row_at, Kernels};
use crate::qsa_pool::{IdxReq, IdxSource};
use crate::qsa_sel::SelReq;
use crate::recurrence_laws::bytes_at;

verus! {

/// The memory after an array of the host was copied to a slot.
pub open spec fn brought(k: Kernels, m: spec_fn(Ptr) -> u8, slot: Slot, src: Host, n: int) -> spec_fn(
    Ptr,
) -> u8 {
    written(m, spec_buf(slot), n * 4, |j: int| (k.host)(src, j))
}

/// The slot holds the array.
pub open spec fn is_current(k: Kernels, m: spec_fn(Ptr) -> u8, slot: Slot, src: Host, n: int) -> bool {
    forall|j: int|
        0 <= j < n * 4 ==> m(#[trigger] spec_buf(slot).spec_at(j)) == (k.host)(src, j)
}

/// The first `n` values of an array of the host.
pub open spec fn array(k: Kernels, src: Host, n: int) -> Seq<u8> {
    Seq::new((n * 4) as nat, |j: int| (k.host)(src, j))
}

/// What the accelerator takes for up to date on the device is.
pub open spec fn keys_current(
    acc: Q4Acc,
    k: Kernels,
    m: spec_fn(Ptr) -> u8,
    rq: IdxReq,
    ikw: Seq<u32>,
) -> bool {
    &&& acc.ikw_hash == fnv_words(ikw) && acc.pool.ptr_of(Slot::QsaIkw) != 0 ==> is_current(
        k,
        m,
        Slot::QsaIkw,
        Host::KNorm,
        ikw.len() as int,
    )
    &&& acc.csidx_key == rq.cs && acc.pool.ptr_of(Slot::QsaCsidx) != 0 ==> is_current(
        k,
        m,
        Slot::QsaCsidx,
        Host::Cs,
        rq.cs.len as int,
    )
}

/// The pool of indexer keys of a request.
pub open spec fn key_pool(rq: IdxReq) -> Ptr {
    spec_buf(Slot::IdxK { layer: rq.add.at.layer, seq: rq.add.at.seq })
}

/// The pool of block keys of a request.
pub open spec fn block_pool(rq: IdxReq) -> Ptr {
    spec_buf(Slot::BlockK { layer: rq.add.at.layer, seq: rq.add.at.seq })
}

/// Bytes of a key.
pub open spec fn key_len(rq: IdxReq) -> int {
    rq.idx_dim * 4
}

/// The memory with the keys of the new tokens in their rows of the pool.
pub open spec fn with_keys(k: Kernels, m: spec_fn(Ptr) -> u8, rq: IdxReq, src: IdxSource) -> spec_fn(
    Ptr,
) -> u8 {
    written(
        m,
        key_pool(rq).spec_at(rq.add.pos0 * key_len(rq)),
        rq.add.t * key_len(rq),
        |j: int|
            match src {
                IdxSource::Device(p) => m(p.spec_at(j)),
                IdxSource::Host => (k.host)(Host::K, j),
            },
    )
}

/// The rotation table of a request, and behind it what lay there.
pub open spec fn rotation(k: Kernels, m: spec_fn(Ptr) -> u8, rq: IdxReq) -> spec_fn(int) -> u8 {
    view(
        brought(k, m, Slot::QsaCsidx, Host::Cs, rq.cs.len as int),
        spec_buf(Slot::QsaCsidx),
    )
}

/// The key of block `b`: one that was complete before is in its row; a new one is made of
/// the keys of its `r` tokens.
pub open spec fn block_key(
    k: Kernels,
    m: spec_fn(Ptr) -> u8,
    rq: IdxReq,
    src: IdxSource,
    b: int,
) -> Seq<u8> {
    let (r, len) = (rq.r as int, key_len(rq));
    if (b + 1) * r <= rq.add.pos0 {
        row_at(m, block_pool(rq), len, b)
    } else {
        let made = (k.op)(
            Op::BlockKey,
            seq![rq.eps as int, b, r, rq.idx_dim as int],
            seq![
                bytes_at(with_keys(k, m, rq, src), key_pool(rq).spec_at(b * r * len), r * len),
                array(k, Host::KNorm, rq.idx_dim as int),
            ],
            seq![rotation(k, m, rq)],
        );
        Seq::new(len as nat, |x: int| made[x])
    }
}

/// Byte `x` of the key of block `b` is in its place.
pub open spec fn leaves_key(
    k: Kernels,
    m: spec_fn(Ptr) -> u8,
    after: spec_fn(Ptr) -> u8,
    rq: IdxReq,
    src: IdxSource,
    b: int,
    x: int,
) -> bool {
    let len = key_len(rq);
    0 <= b < (rq.add.pos0 + rq.add.t) / rq.r as int && 0 <= x < len ==> after(
        block_pool(rq).spec_at(b * len + x),
    ) == block_key(k, m, rq, src, b)[x]
}

/// The sizes of a request can be told to the kernels, and the norm has a value for every
/// value of a key.
pub open spec fn keys_fit(acc: Q4Acc, rq: IdxReq, src: IdxSource, ikw: Seq<u32>) -> bool {
    &&& acc.idx_fits(rq)
    &&& 1 <= rq.r <= i32::MAX
    &&& rq.add.pos0 + rq.add.t <= i32::MAX
    &&& 1 <= rq.idx_dim <= i32::MAX
    &&& rq.idx_dim <= ikw.len()
    &&& ikw.len() * 4 <= usize::MAX
    &&& src matches IdxSource::Device(p) ==> p is Dev
}

/// Behind the program every complete block has its key: the old ones theirs, and the new
/// ones one that is made of their own tokens.
pub open spec fn keys_blocks(acc: Q4Acc, rq: IdxReq, src: IdxSource, ikw: Seq<u32>, c: Seq<Cmd>) -> bool {
    keys_fit(acc, rq, src, ikw) ==> forall|
        k: Kernels,
        m: spec_fn(Ptr) -> u8,
        ok: spec_fn(int) -> bool,
        b: int,
        x: int,
    |
        keys_current(acc, k, m, rq, ikw) ==> #[trigger] leaves_key(
            k,
            m,
            ran(k, m, c, ok, 0),
            rq,
            src,
            b,
            x,
        )
}

/// Whether an array has to be copied or not, it is in its slot behind the copy, and
/// nothing else changes.
pub proof fn lemma_brought(
    k: Kernels,
    m: spec_fn(Ptr) -> u8,
    c: Seq<Cmd>,
    ok: spec_fn(int) -> bool,
    at: int,
    slot: Slot,
    src: Host,
    n: int,
)
    requires
        0 <= n * 4 <= usize::MAX,
        c.len() == 0 ==> is_current(k, m, slot, src, n),
        c.len() != 0 ==> c.len() == 3 && c[0] is Ensure && c[2] is Mark && c[1] == (Cmd::H2d {
            dst: spec_buf(slot),
            src,
            bytes: (n * 4) as usize,
        }),
    ensures
        jumps_inside(c),
        ran(k, m, c, ok, at) == brought(k, m, slot, src, n),
{
    reveal_with_fuel(ran, 4);
    if c.len() == 0 {
        assert forall|p: Ptr| m(p) == #[trigger] brought(k, m, slot, src, n)(p) by {
            if is_inside(spec_buf(slot), n * 4, p) {
                let d = distance(spec_buf(slot), p).unwrap();
                assert(p == spec_buf(slot).spec_at(d));
            }
        }
        assert(m =~= brought(k, m, slot, src, n));
    } else {
        assert(c.skip(1)[0] == c[1]);
        assert(c.skip(1).skip(1)[0] == c[2]);
        assert(c.skip(1).skip(1).skip(1) =~= Seq::<Cmd>::empty());
    }
}

/// The memory behind the indexer's append.
pub open spec fn indexed(k: Kernels, m: spec_fn(Ptr) -> u8, rq: IdxReq, src: IdxSource, nk: int) -> spec_fn(
    Ptr,
) -> u8 {
    let m1 = with_keys(k, m, rq, src);
    if Q4Acc::completes_block(rq) {
        let m2 = brought(k, m1, Slot::QsaIkw, Host::KNorm, nk);
        let m3 = brought(k, m2, Slot::QsaCsidx, Host::Cs, rq.cs.len as int);
        let (len, r, b0) = (key_len(rq), rq.r as int, rq.add.pos0 as int / rq.r as int);
        written(
            m3,
            block_pool(rq).spec_at(b0 * len),
            ((rq.add.pos0 + rq.add.t) / r - b0) * len,
            |j: int|
                (k.op)(
                    Op::BlockKey,
                    seq![rq.eps as int, b0 + j / len, r, rq.idx_dim as int],
                    seq![
                        bytes_at(m3, key_pool(rq).spec_at((b0 + j / len) * r * len), r * len),
                        bytes_at(m3, spec_buf(Slot::QsaIkw), len),
                    ],
                    seq![view(m3, spec_buf(Slot::QsaCsidx))],
                )[j % len],
        )
    } else {
        m1
    }
}

proof fn lemma_indexed(
    acc: Q4Acc,
    rq: IdxReq,
    src: IdxSource,
    ikw: Seq<u32>,
    k: Kernels,
    m: spec_fn(Ptr) -> u8,
    ok: spec_fn(int) -> bool,
)
    requires
        keys_fit(acc, rq, src, ikw),
        keys_current(acc, k, m, rq, ikw),
    ensures
        jumps_inside(acc.idx_program(rq, src, ikw)),
        ran(k, m, acc.idx_program(rq, src, ikw), ok, 0) == indexed(k, m, rq, src, ikw.len() as int),
{
    let c = acc.idx_program(rq, src, ikw);
    let (p, t, r, d) = (rq.add.pos0 as int, rq.add.t as int, rq.r as int, rq.idx_dim as int);
    let len = key_len(rq);
    assert(p * d * 4 == p * len && t * d * 4 == t * len && 0 <= p * len && 0 <= t * len && (p + t) * d
        * 4 == p * len + t * len) by (nonlinear_arith)
        requires
            len == d * 4,
            0 <= p,
            0 <= t,
            0 <= d,
    ;
    let head = c.take(3);
    let m1 = with_keys(k, m, rq, src);
    reveal_with_fuel(ran, 4);
    assert(head.skip(1)[0] == c[1]);
    assert(head.skip(1).skip(1)[0] == c[2]);
    assert(head.skip(1).skip(1).skip(1) =~= Seq::<Cmd>::empty());
    assert(ran(k, m, head, ok, 0) =~= m1);
    assert(jumps_inside(head));
    if Q4Acc::completes_block(rq) {
        let x = hashed_program(
            acc.ikw_hash,
            acc.pool.ptr_of(Slot::QsaIkw),
            Slot::QsaIkw,
            fnv_words(ikw),
            ikw.len() as usize,
            Host::KNorm,
        );
        let y = keyed_program(
            acc.csidx_key,
            acc.pool.ptr_of(Slot::QsaCsidx),
            Slot::QsaCsidx,
            rq.cs,
            Host::Cs,
        );
        let z = c.skip(c.len() - 1);
        assert(c =~= head + (x + (y + z)));
        let nk = ikw.len() as int;
        let (n1, n2) = (3 + x.len() as int, 3 + x.len() as int + y.len() as int);
        lemma_brought(k, m1, x, ok, 3, Slot::QsaIkw, Host::KNorm, nk);
        let m2 = brought(k, m1, Slot::QsaIkw, Host::KNorm, nk);
        lemma_brought(k, m2, y, ok, n1, Slot::QsaCsidx, Host::Cs, rq.cs.len as int);
        let m3 = brought(k, m2, Slot::QsaCsidx, Host::Cs, rq.cs.len as int);
        lemma_ran_behind(k, m, head, x + (y + z), ok, 0);
        lemma_ran_behind(k, m1, x, y + z, ok, 3);
        lemma_ran_behind(k, m2, y, z, ok, n1);
        lemma_one_command(k, m3, z, ok, n2);
        lemma_blocks_counted(p, t, r);
        assert(z[0] is Launch);
        assert(performed(k, m3, z[0]) =~= indexed(k, m, rq, src, nk));
    } else {
        assert(c =~= head);
    }
}

proof fn lemma_blocks_counted(p: int, t: int, r: int)
    requires
        0 <= p,
        0 <= t,
        1 <= r,
    ensures
        0 <= p / r <= (p + t) / r <= p + t,
        p / r * r <= p < (p / r + 1) * r,
        (p + t) / r * r <= p + t,
{
    vstd::arithmetic::div_mod::lemma_fundamental_div_mod(p, r);
    vstd::arithmetic::div_mod::lemma_mod_bound(p, r);
    vstd::arithmetic::div_mod::lemma_fundamental_div_mod(p + t, r);
    vstd::arithmetic::div_mod::lemma_mod_bound(p + t, r);
    vstd::arithmetic::div_mod::lemma_div_pos_is_pos(p, r);
    vstd::arithmetic::div_mod::lemma_div_is_ordered(p, p + t, r);
    let (a, b) = (p / r, (p + t) / r);
    assert(a * r == r * a && b * r == r * b && (a + 1) * r == r * a + r) by (nonlinear_arith);
    assert(b <= b * r) by (nonlinear_arith)
        requires
            0 <= b,
            1 <= r,
    ;
}

proof fn lemma_key_left(
    acc: Q4Acc,
    rq: IdxReq,
    src: IdxSource,
    ikw: Seq<u32>,
    k: Kernels,
    m: spec_fn(Ptr) -> u8,
    b: int,
    x: int,
)
    requires
        keys_fit(acc, rq, src, ikw),
        keys_current(acc, k, m, rq, ikw),
    ensures
        leaves_key(k, m, indexed(k, m, rq, src, ikw.len() as int), rq, src, b, x),
{
    let nk = ikw.len() as int;
    let after = indexed(k, m, rq, src, nk);
    let (p, t, r, d) = (rq.add.pos0 as int, rq.add.t as int, rq.r as int, rq.idx_dim as int);
    let len = key_len(rq);
    let (b0, b1) = (p / r, (p + t) / r);
    lemma_blocks_counted(p, t, r);
    if 0 <= b < b1 && 0 <= x < len {
        let q = block_pool(rq).spec_at(b * len + x);
        assert(0 <= b * len && (b + 1) * len <= (p + t) * d * 4 && 0 <= b0 * len <= (p + t) * d * 4
            && b * len + len == (b + 1) * len) by (nonlinear_arith)
            requires
                0 <= b < b1 <= p + t,
                0 <= b0 <= p + t,
                len == d * 4,
                1 <= d,
        ;
        assert((b + 1) * r <= p <==> b < b0) by {
            if b < b0 {
                assert((b + 1) * r <= b0 * r) by (nonlinear_arith)
                    requires
                        b + 1 <= b0,
                        1 <= r,
                ;
            } else {
                assert((b + 1) * r >= (b0 + 1) * r) by (nonlinear_arith)
                    requires
                        b >= b0,
                        1 <= r,
                ;
            }
        }
        if b < b0 {
            assert(b * len + len <= b0 * len) by (nonlinear_arith)
                requires
                    b + 1 <= b0,
                    1 <= len,
            ;
            assert(after(q) == m(q));
            assert(block_pool(rq).spec_at(b * len).spec_at(x) == q);
        } else {
            assert(Q4Acc::completes_block(rq));
            let m1 = with_keys(k, m, rq, src);
            let m2 = brought(k, m1, Slot::QsaIkw, Host::KNorm, nk);
            let m3 = brought(k, m2, Slot::QsaCsidx, Host::Cs, rq.cs.len as int);
            let j = (b - b0) * len + x;
            lemma_in_row(b - b0, x, len, b1 - b0);
            assert(b0 * len + j == b * len + x) by (nonlinear_arith)
                requires
                    j == (b - b0) * len + x,
            ;
            assert(distance(block_pool(rq).spec_at(b0 * len), q) == Some(j));
            assert(bytes_at(m3, key_pool(rq).spec_at(b * r * len), r * len) =~= bytes_at(
                m1,
                key_pool(rq).spec_at(b * r * len),
                r * len,
            ));
            lemma_norm_row(k, m2, m3, Slot::QsaIkw, Host::KNorm, d, nk);
            assert(view(m3, spec_buf(Slot::QsaCsidx)) =~= rotation(k, m, rq));
        }
    }
}

/// A slot to which a norm was brought, and left alone since, begins with it.
pub proof fn lemma_norm_row(
    k: Kernels,
    had: spec_fn(Ptr) -> u8,
    m: spec_fn(Ptr) -> u8,
    slot: Slot,
    src: Host,
    d: int,
    n: int,
)
    requires
        0 <= d <= n,
        n * 4 <= usize::MAX,
        is_current(k, had, slot, src, n),
        forall|p: Ptr| distance(spec_buf(slot), p) is Some ==> #[trigger] m(p) == had(p),
    ensures
        bytes_at(m, spec_buf(slot), d * 4) == array(k, src, d),
{
    assert forall|j: int| 0 <= j < d * 4 implies bytes_at(m, spec_buf(slot), d * 4)[j] == array(
        k,
        src,
        d,
    )[j] by {
        assert(distance(spec_buf(slot), spec_buf(slot).spec_at(j)) == Some(j));
    }
    assert(bytes_at(m, spec_buf(slot), d * 4) =~= array(k, src, d));
}

impl Q4Acc {
    /// An append to the indexer keys every block that it completes, from the keys of the
    /// block's own tokens, and leaves the keys of all other blocks.
    pub proof fn law_append_keys_its_blocks(&self, rq: IdxReq, src: IdxSource, ikw: Seq<u32>)
        ensures
            keys_blocks(*self, rq, src, ikw, self.idx_program(rq, src, ikw)),
    {
        let c = self.idx_program(rq, src, ikw);
        if keys_fit(*self, rq, src, ikw) {
            assert forall|
                k: Kernels,
                m: spec_fn(Ptr) -> u8,
                ok: spec_fn(int) -> bool,
                b: int,
                x: int,
            |
                keys_current(*self, k, m, rq, ikw) implies #[trigger] leaves_key(
                k,
                m,
                ran(k, m, c, ok, 0),
                rq,
                src,
                b,
                x,
            ) by {
                lemma_indexed(*self, rq, src, ikw, k, m, ok);
                lemma_key_left(*self, rq, src, ikw, k, m, b, x);
            }
        }
    }
}

/// The rotated query of the token.
pub open spec fn rotated_query(k: Kernels, m: spec_fn(Ptr) -> u8, rq: SelReq, iq: Ptr) -> Seq<u8> {
    let len = rq.heads * rq.idx.idx_dim * 4;
    let made = (k.op)(
        Op::QueryRope,
        seq![
            rq.idx.eps as int,
            rq.idx.add.pos0 as int,
            rq.heads as int,
            rq.idx.idx_dim as int,
        ],
        seq![row_at(m, iq, len, 0), array(k, Host::QNorm, rq.idx.idx_dim as int)],
        seq![rotation(k, m, rq.idx)],
    );
    Seq::new(len as nat, |x: int| made[x])
}

/// Byte `x` of the score of block `b` is that of the rotated query and the block's key.
pub open spec fn leaves_score(
    k: Kernels,
    m: spec_fn(Ptr) -> u8,
    after: spec_fn(Ptr) -> u8,
    rq: SelReq,
    iq: Ptr,
    ik: Ptr,
    b: int,
    x: int,
) -> bool {
    0 <= b < rq.n_past() / rq.idx.r as int && 0 <= x < 4 ==> after(
        spec_buf(Slot::QsaScr).spec_at(b * 4 + x),
    ) == (k.op)(
        Op::Score,
        seq![rq.heads as int, rq.idx.idx_dim as int],
        seq![
            rotated_query(k, m, rq, iq),
            block_key(k, m, rq.idx, IdxSource::Device(ik), b),
        ],
        none(),
    )[x]
}

/// The sizes of a request can be told to the kernels, and the norms have a value for every
/// value of a head.
pub open spec fn query_fits(acc: Q4Acc, rq: SelReq, ik: Ptr, iqw: Seq<u32>, ikw: Seq<u32>) -> bool {
    &&& keys_fit(acc, rq.idx, IdxSource::Device(ik), ikw)
    &&& acc.sel_fits(rq)
    &&& acc.sel_error(rq) is None
    &&& rq.heads <= i32::MAX
    &&& rq.idx.idx_dim <= iqw.len()
    &&& iqw.len() * 4 <= usize::MAX
}

/// What the accelerator takes for up to date on the device is.
pub open spec fn query_current(
    acc: Q4Acc,
    k: Kernels,
    m: spec_fn(Ptr) -> u8,
    rq: SelReq,
    iqw: Seq<u32>,
    ikw: Seq<u32>,
) -> bool {
    &&& keys_current(acc, k, m, rq.idx, ikw)
    &&& acc.iqw_hash == fnv_words(iqw) && acc.pool.ptr_of(Slot::QsaIqw) != 0 ==> is_current(
        k,
        m,
        Slot::QsaIqw,
        Host::QNorm,
        iqw.len() as int,
    )
}

/// Behind the program the score of every complete block is that of the token's rotated
/// query and the block's key, and the keys are in their places.
pub open spec fn scores_blocks(
    acc: Q4Acc,
    rq: SelReq,
    iq: Ptr,
    ik: Ptr,
    iqw: Seq<u32>,
    ikw: Seq<u32>,
    c: Seq<Cmd>,
) -> bool {
    query_fits(acc, rq, ik, iqw, ikw) && iq is Dev ==> forall|
        k: Kernels,
        m: spec_fn(Ptr) -> u8,
        ok: spec_fn(int) -> bool,
        b: int,
        x: int,
    |
        query_current(acc, k, m, rq, iqw, ikw) ==> #[trigger] leaves_score(
            k,
            m,
            ran(k, m, c, ok, 0),
            rq,
            iq,
            ik,
            b,
            x,
        ) && leaves_key(k, m, ran(k, m, c, ok, 0), rq.idx, IdxSource::Device(ik), b, x)
}

/// Commands that make room, or choose from scores, write none of the modelled bytes.
proof fn lemma_choice_writes_nothing(
    k: Kernels,
    m: spec_fn(Ptr) -> u8,
    c: Seq<Cmd>,
    ok: spec_fn(int) -> bool,
    at: int,
)
    requires
        forall|i: int| 0 <= i < c.len() ==> #[trigger] is_choice(c[i]),
    ensures
        ran(k, m, c, ok, at) == m,
    decreases c.len(),
{
    if c.len() > 0 {
        assert(is_choice(c[0]));
        assert forall|i: int| 0 <= i < c.skip(1).len() implies #[trigger] is_choice(c.skip(1)[i]) by {
            assert(is_choice(c[i + 1]));
        }
        lemma_choice_writes_nothing(k, m, c.skip(1), ok, at + 1);
        assert(performed(k, m, c[0]) == m);
    }
}

spec fn is_choice(c: Cmd) -> bool {
    match c {
        Cmd::Ensure { .. } => true,
        Cmd::Launch(l) => match l.call {
            Call::IdxTopk { .. } => true,
            Call::IdxRank { .. } => true,
            Call::IdxExpand { .. } => true,
            _ => false,
        },
        _ => false,
    }
}

/// The memory behind the rotation of the query, and behind the scores.
spec fn turned(k: Kernels, m: spec_fn(Ptr) -> u8, rq: SelReq, iq: Ptr) -> spec_fn(Ptr) -> u8 {
    let len = rq.heads * rq.idx.idx_dim * 4;
    written(
        m,
        spec_buf(Slot::QsaIqr),
        len,
        |j: int|
            (k.op)(
                Op::QueryRope,
                seq![
                    rq.idx.eps as int,
                    rq.idx.add.pos0 + j / len,
                    rq.heads as int,
                    rq.idx.idx_dim as int,
                ],
                seq![
                    row_at(m, iq, len, j / len),
                    bytes_at(m, spec_buf(Slot::QsaIqw), rq.idx.idx_dim * 4),
                ],
                seq![view(m, spec_buf(Slot::QsaCsidx))],
            )[j % len],
    )
}

proof fn lemma_scored(
    acc: Q4Acc,
    rq: SelReq,
    iq: Ptr,
    ik: Ptr,
    iqw: Seq<u32>,
    ikw: Seq<u32>,
    k: Kernels,
    m: spec_fn(Ptr) -> u8,
    ok: spec_fn(int) -> bool,
    at: int,
) -> (read: spec_fn(Ptr) -> u8)
    requires
        query_fits(acc, rq, ik, iqw, ikw),
        query_current(acc, k, m, rq, iqw, ikw),
        iq is Dev,
    ensures
        jumps_inside(acc.score_program(rq, iq, iqw)),
        ({
            let src = IdxSource::Device(ik);
            let had = indexed(k, m, rq.idx, src, ikw.len() as int);
            let nb = rq.n_past() / rq.idx.r as int;
            let m1 = brought(k, had, Slot::QsaIqw, Host::QNorm, iqw.len() as int);
            let m2 = if Q4Acc::completes_block(rq.idx) {
                m1
            } else {
                brought(k, m1, Slot::QsaCsidx, Host::Cs, rq.idx.cs.len as int)
            };
            let m3 = turned(k, m2, rq, iq);
            &&& read == m3
            &&& ran(k, had, acc.score_program(rq, iq, iqw), ok, at) == if nb > 0 {
                written(
                    m3,
                    spec_buf(Slot::QsaScr),
                    nb * 4,
                    |j: int|
                        (k.op)(
                            Op::Score,
                            seq![rq.heads as int, rq.idx.idx_dim as int],
                            seq![
                                bytes_at(
                                    m3,
                                    spec_buf(Slot::QsaIqr),
                                    rq.heads * rq.idx.idx_dim * 4,
                                ),
                                row_at(m3, block_pool(rq.idx), rq.idx.idx_dim * 4, j / 4),
                            ],
                            none(),
                        )[j % 4],
                )
            } else {
                m3
            }
        }),
{
    let src = IdxSource::Device(ik);
    let had = indexed(k, m, rq.idx, src, ikw.len() as int);
    let a = rq.idx.add;
    let (nb, dim, h) = (rq.n_past() / rq.idx.r as int, rq.idx.idx_dim as int, rq.heads as int);
    let len = h * dim * 4;
    let x = hashed_program(
        acc.iqw_hash,
        acc.pool.ptr_of(Slot::QsaIqw),
        Slot::QsaIqw,
        fnv_words(iqw),
        iqw.len() as usize,
        Host::QNorm,
    );
    let fresh = Q4Acc::completes_block(rq.idx);
    let y = if fresh {
        Seq::empty()
    } else {
        keyed_program(
            acc.csidx_key,
            acc.pool.ptr_of(Slot::QsaCsidx),
            Slot::QsaCsidx,
            rq.idx.cs,
            Host::Cs,
        )
    };
    let c = acc.score_program(rq, iq, iqw);
    let n = (1 + x.len() + y.len()) as int;
    let (room, rope, more, last) = (c.take(1), seq![c[n]], seq![c[n + 1]], c.skip(n + 2));
    assert(c =~= room + (x + (y + (rope + (more + last)))));
    let m1 = brought(k, had, Slot::QsaIqw, Host::QNorm, iqw.len() as int);
    let m2 = if fresh {
        m1
    } else {
        brought(k, m1, Slot::QsaCsidx, Host::Cs, rq.idx.cs.len as int)
    };
    let m3 = turned(k, m2, rq, iq);
    lemma_ran_behind(k, had, room, x + (y + (rope + (more + last))), ok, at);
    lemma_one_command(k, had, room, ok, at);
    let a1 = at + 1;
    lemma_brought(k, had, x, ok, a1, Slot::QsaIqw, Host::QNorm, iqw.len() as int);
    lemma_ran_behind(k, had, x, y + (rope + (more + last)), ok, a1);
    let a2 = a1 + x.len() as int;
    if fresh {
        assert(y + (rope + (more + last)) =~= rope + (more + last));
    } else {
        lemma_brought(k, m1, y, ok, a2, Slot::QsaCsidx, Host::Cs, rq.idx.cs.len as int);
        lemma_ran_behind(k, m1, y, rope + (more + last), ok, a2);
    }
    let a3 = a2 + y.len() as int;
    lemma_ran_behind(k, m2, rope, more + last, ok, a3);
    lemma_one_command(k, m2, rope, ok, a3);
    assert(a.t * (h * dim * 4) == len && a.t as int * len == len) by (nonlinear_arith)
        requires
            a.t == 1,
            len == h * dim * 4,
    ;
    assert(performed(k, m2, c[n]) =~= m3);
    lemma_ran_behind(k, m3, more, last, ok, a3 + 1);
    lemma_one_command(k, m3, more, ok, a3 + 1);
    reveal_with_fuel(ran, 2);
    if nb > 0 {
        lemma_one_command(k, m3, last, ok, a3 + 2);
        lemma_ceil_div(nb, 256);
    }
    m3
}

impl Q4Acc {
    /// The plan of a choice scores every complete block: the score is that of the rotated
    /// query and of the block's key, of this layer and sequence.
    pub proof fn law_choice_scores_every_block(
        &self,
        rq: SelReq,
        iq: Ptr,
        ik: Ptr,
        iqw: Seq<u32>,
        ikw: Seq<u32>,
    )
        ensures
            scores_blocks(
                *self,
                rq,
                iq,
                ik,
                iqw,
                ikw,
                self.idx_program(rq.idx, IdxSource::Device(ik), ikw) + self.score_program(
                    rq,
                    iq,
                    iqw,
                ) + self.choose_program(rq),
            ),
    {
        let src = IdxSource::Device(ik);
        let (p1, p2, p3) = (
            self.idx_program(rq.idx, src, ikw),
            self.score_program(rq, iq, iqw),
            self.choose_program(rq),
        );
        let c = p1 + p2 + p3;
        if query_fits(*self, rq, ik, iqw, ikw) && iq is Dev {
            assert forall|
                k: Kernels,
                m: spec_fn(Ptr) -> u8,
                ok: spec_fn(int) -> bool,
                b: int,
                x: int,
            |
                query_current(*self, k, m, rq, iqw, ikw) implies #[trigger] leaves_score(
                k,
                m,
                ran(k, m, c, ok, 0),
                rq,
                iq,
                ik,
                b,
                x,
            ) && leaves_key(k, m, ran(k, m, c, ok, 0), rq.idx, src, b, x) by {
                let had = indexed(k, m, rq.idx, src, ikw.len() as int);
                lemma_indexed(*self, rq.idx, src, ikw, k, m, ok);
                let m3 = lemma_scored(*self, rq, iq, ik, iqw, ikw, k, m, ok, p1.len() as int);
                let scored = ran(k, had, p2, ok, p1.len() as int);
                assert(c =~= p1 + (p2 + p3));
                lemma_ran_behind(k, m, p1, p2 + p3, ok, 0);
                lemma_ran_behind(k, had, p2, p3, ok, p1.len() as int);
                lemma_choice_writes_nothing(k, scored, p3, ok, p1.len() + p2.len() as int);
                let after = ran(k, m, c, ok, 0);
                assert(after == scored);
                let (len, dim) = (key_len(rq.idx), rq.idx.idx_dim as int);
                let nb = rq.n_past() / rq.idx.r as int;
                lemma_key_left(*self, rq.idx, src, ikw, k, m, b, x);
                lemma_blocks_counted(
                    rq.idx.add.pos0 as int,
                    rq.idx.add.t as int,
                    rq.idx.r as int,
                );
                if 0 <= b < nb {
                    assert(0 <= b * len && (b + 1) * len <= rq.n_past() * dim * 4 && b * len + len
                        == (b + 1) * len) by (nonlinear_arith)
                        requires
                            0 <= b < nb <= rq.n_past(),
                            len == dim * 4,
                            1 <= dim,
                    ;
                    if 0 <= x < len {
                        assert(after(block_pool(rq.idx).spec_at(b * len + x)) == had(
                            block_pool(rq.idx).spec_at(b * len + x),
                        ));
                    }
                    if 0 <= x < 4 {
                        let out = spec_buf(Slot::QsaScr);
                        assert(distance(out, out.spec_at(b * 4 + x)) == Some(b * 4 + x));
                        self.lemma_query_read(rq, iq, ik, iqw, ikw, k, m, m3);
                        assert forall|y: int| 0 <= y < len implies row_at(
                            m3,
                            block_pool(rq.idx),
                            len,
                            b,
                        )[y] == block_key(k, m, rq.idx, src, b)[y] by {
                            lemma_key_left(*self, rq.idx, src, ikw, k, m, b, y);
                            let q = block_pool(rq.idx).spec_at(b * len + y);
                            assert(block_pool(rq.idx).spec_at(b * len).spec_at(y) == q);
                            assert(m3(q) == had(q));
                        }
                        assert(row_at(m3, block_pool(rq.idx), len, b) =~= block_key(
                            k,
                            m,
                            rq.idx,
                            src,
                            b,
                        ));
                    }
                }
            }
        }
    }

    /// The scores read the query as it was rotated.
    proof fn lemma_query_read(
        &self,
        rq: SelReq,
        iq: Ptr,
        ik: Ptr,
        iqw: Seq<u32>,
        ikw: Seq<u32>,
        k: Kernels,
        m: spec_fn(Ptr) -> u8,
        m3: spec_fn(Ptr) -> u8,
    )
        requires
            query_fits(*self, rq, ik, iqw, ikw),
            iq is Dev,
            ({
                let had = indexed(k, m, rq.idx, IdxSource::Device(ik), ikw.len() as int);
                let m1 = brought(k, had, Slot::QsaIqw, Host::QNorm, iqw.len() as int);
                let m2 = if Q4Acc::completes_block(rq.idx) {
                    m1
                } else {
                    brought(k, m1, Slot::QsaCsidx, Host::Cs, rq.idx.cs.len as int)
                };
                m3 == turned(k, m2, rq, iq)
            }),
        ensures
            bytes_at(m3, spec_buf(Slot::QsaIqr), rq.heads * rq.idx.idx_dim * 4) == rotated_query(
                k,
                m,
                rq,
                iq,
            ),
    {
        let src = IdxSource::Device(ik);
        let (h, dim) = (rq.heads as int, rq.idx.idx_dim as int);
        let len = h * dim * 4;
        let had = indexed(k, m, rq.idx, src, ikw.len() as int);
        let m1 = brought(k, had, Slot::QsaIqw, Host::QNorm, iqw.len() as int);
        let m2 = if Q4Acc::completes_block(rq.idx) {
            m1
        } else {
            brought(k, m1, Slot::QsaCsidx, Host::Cs, rq.idx.cs.len as int)
        };
        let out = spec_buf(Slot::QsaIqr);
        assert(0 <= len) by (nonlinear_arith)
            requires
                len == h * dim * 4,
                0 <= h,
                0 <= dim,
        ;
        assert(is_current(k, m1, Slot::QsaIqw, Host::QNorm, iqw.len() as int)) by {
            assert forall|j: int| 0 <= j < iqw.len() * 4 implies m1(
                #[trigger] spec_buf(Slot::QsaIqw).spec_at(j),
            ) == (k.host)(Host::QNorm, j) by {
                assert(distance(spec_buf(Slot::QsaIqw), spec_buf(Slot::QsaIqw).spec_at(j)) == Some(
                    j,
                ));
            }
        }
        lemma_norm_row(k, m1, m2, Slot::QsaIqw, Host::QNorm, dim, iqw.len() as int);
        assert(view(m2, spec_buf(Slot::QsaCsidx)) =~= rotation(k, m, rq.idx));
        assert(row_at(m2, iq, len, 0) =~= row_at(m, iq, len, 0));
        assert forall|j: int| 0 <= j < len implies bytes_at(m3, out, len)[j] == rotated_query(
            k,
            m,
            rq,
            iq,
        )[j] by {
            assert(distance(out, out.spec_at(j)) == Some(j));
            lemma_in_row(0, j, len, 1);
        }
        assert(bytes_at(m3, out, len) =~= rotated_query(k, m, rq, iq));
    }
}

} // verus!
