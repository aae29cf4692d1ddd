//! Uploads of weights: which way a tensor takes to the device, and in which
//! pieces.

use vstd::prelude::*;
use crate::arith::{min_usize, max_usize};
use crate::ggml::GgmlType;

verus! {

/// Bytes per piece of a long upload.
pub const CHUNK: usize = 8388608;

/// Mappings shorter than this are uploaded in one piece.
pub const PIPELINE_MIN: usize = 4194304;

/// Bytes per page of a mapping.
pub const PAGE: usize = 4096;

/// A weight tensor: the host address and length of its data, its type and its
/// shape.
#[derive(Clone, Copy, PartialEq, Eq, Structural, Debug)]
pub struct Weight {
    pub key: usize,
    pub len: usize,
    pub ty: GgmlType,
    pub n_in: usize,
    pub n_out: usize,
}

/// A part file of the model: the address range at which it is mapped.
#[derive(Clone, Copy, PartialEq, Eq, Structural, Debug)]
pub struct Source {
    pub base: usize,
    pub len: usize,
}

impl Source {
    /// The part holds the `len` bytes at address `ptr`.
    pub open spec fn covers(&self, ptr: int, len: int) -> bool {
        self.base <= ptr && ptr + len <= self.base + self.len
    }
}

/// A piece of an upload: bytes `off .. off + len`.
#[derive(Clone, Copy, PartialEq, Eq, Structural, Debug)]
pub struct Chunk {
    pub off: usize,
    pub len: usize,
}

/// The pieces of `n` bytes: each starts where the one before ends, none but
/// the last is shorter than `CHUNK`.
pub open spec fn chunks_of(n: int, from: int) -> Seq<Chunk>
    decreases n - from,
{
    if from >= n {
        Seq::empty()
    } else {
        let len = vstd::math::min(CHUNK as int, n - from);
        seq![Chunk { off: from as usize, len: len as usize }] + chunks_of(n, from + len)
    }
}

/// The pieces in which a file range is read and copied.
pub fn staged_chunks(n: usize) -> (r: Vec<Chunk>)
    ensures
        r@ == chunks_of(n as int, 0),
{
    let mut r: Vec<Chunk> = Vec::new();
    let mut done: usize = 0;
    while done < n
        invariant
            done <= n,
            r@ + chunks_of(n as int, done as int) == chunks_of(n as int, 0),
        decreases n - done,
    {
        let len: usize = min_usize(CHUNK, n - done);
        proof {
            assert(r@.push(Chunk { off: done, len }) + chunks_of(n as int, done + len) =~= r@
                + chunks_of(n as int, done as int));
        }
        r.push(Chunk { off: done, len });
        done = done + len;
    }
    proof {
        assert(chunks_of(n as int, done as int) =~= Seq::<Chunk>::empty());
        assert(r@ + Seq::<Chunk>::empty() =~= r@);
    }
    r
}

/// The part that holds an address range, the first of several.
pub open spec fn source_of(sources: Seq<Source>, ptr: int, len: int) -> Option<int>
    decreases sources.len(),
{
    if sources.len() == 0 {
        None
    } else {
        match source_of(sources.drop_last(), ptr, len) {
            Some(i) => Some(i),
            None => if ptr + len <= usize::MAX && sources.last().covers(ptr, len) {
                Some(sources.len() - 1)
            } else {
                None
            },
        }
    }
}

/// A part file can stage a range only where it holds all of it.
pub proof fn law_staged_range_inside_source(sources: Seq<Source>, ptr: int, len: int)
    ensures
        match source_of(sources, ptr, len) {
            Some(i) => 0 <= i < sources.len() && sources[i].covers(ptr, len) && (forall|j: int|
                0 <= j < i ==> !(#[trigger] sources[j]).covers(ptr, len)),
            None => ptr + len <= usize::MAX ==> forall|j: int|
                0 <= j < sources.len() ==> !(#[trigger] sources[j]).covers(ptr, len),
        },
    decreases sources.len(),
{
    if sources.len() > 0 {
        law_staged_range_inside_source(sources.drop_last(), ptr, len);
        assert forall|j: int| 0 <= j < sources.len() - 1 implies sources.drop_last()[j]
            == #[trigger] sources[j] by {}
    }
}

/// Finds the part file that a range can be staged from.
pub fn find_source(sources: &Vec<Source>, ptr: usize, len: usize) -> (r: Option<usize>)
    requires
        forall|i: int|
            0 <= i < sources@.len() ==> (#[trigger] sources@[i]).base + sources@[i].len
                <= usize::MAX,
    ensures
        match r {
            Some(i) => source_of(sources@, ptr as int, len as int) == Some(i as int),
            None => source_of(sources@, ptr as int, len as int) is None,
        },
{
    let mut i: usize = 0;
    while i < sources.len()
        invariant
            i <= sources@.len(),
            source_of(sources@.take(i as int), ptr as int, len as int) is None,
            forall|i: int|
                0 <= i < sources@.len() ==> (#[trigger] sources@[i]).base + sources@[i].len
                    <= usize::MAX,
        decreases sources@.len() - i,
    {
        let s = sources[i];
        proof {
            assert(sources@.take(i + 1).drop_last() =~= sources@.take(i as int));
        }
        let inside = ptr >= s.base && match ptr.checked_add(len) {
            Some(e) => e <= s.base + s.len,
            None => false,
        };
        if inside {
            proof {
                lemma_source_of_prefix(sources@, ptr as int, len as int, i + 1);
            }
            return Some(i);
        }
        i = i + 1;
    }
    proof {
        assert(sources@.take(i as int) =~= sources@);
    }
    None
}

proof fn lemma_source_of_prefix(sources: Seq<Source>, ptr: int, len: int, n: int)
    requires
        0 <= n <= sources.len(),
        source_of(sources.take(n), ptr, len) is Some,
    ensures
        source_of(sources, ptr, len) == source_of(sources.take(n), ptr, len),
    decreases sources.len() - n,
{
    if n < sources.len() {
        assert(sources.take(n + 1).drop_last() =~= sources.take(n));
        lemma_source_of_prefix(sources, ptr, len, n + 1);
    } else {
        assert(sources.take(n) =~= sources);
    }
}

/// Hints about the pages of a mapping.
#[derive(Clone, Copy, PartialEq, Eq, Structural, Debug)]
pub enum Advice {
    WillNeed,
    WillNeedSequential,
    DontNeed,
}

/// A step of an upload from a mapping.
#[derive(Clone, Copy, PartialEq, Eq, Structural, Debug)]
pub enum UploadStep {
    Advise { addr: usize, len: usize, advice: Advice },
    Copy { off: usize, len: usize },
}

/// The start of the page that holds `addr`.
pub open spec fn page_start(addr: int) -> int {
    addr - addr % (PAGE as int)
}

/// `n` rounded up to whole pages.
pub open spec fn page_round(n: int) -> int {
    page_start(n + PAGE - 1)
}

/// A hint over no bytes is not given.
pub open spec fn advise(addr: int, len: int, advice: Advice) -> Seq<UploadStep> {
    if len == 0 {
        Seq::empty()
    } else {
        seq![UploadStep::Advise { addr: addr as usize, len: len as usize, advice }]
    }
}

/// From offset `off` on: prefetch the next piece, copy this one, give its pages
/// back.
pub open spec fn pipeline(base: int, n: int, off: int) -> Seq<UploadStep>
    decreases n - off,
{
    if off >= n {
        Seq::empty()
    } else {
        let len = vstd::math::min(CHUNK as int, n - off);
        let next = off + len;
        advise(
            base + next,
            vstd::math::min(CHUNK as int, n - next),
            Advice::WillNeedSequential,
        ) + seq![UploadStep::Copy { off: off as usize, len: len as usize }] + advise(
            base + off,
            len,
            Advice::DontNeed,
        ) + pipeline(base, n, next)
    }
}

/// How `n` bytes mapped at `base` are uploaded: in one piece where they do not
/// start on a page or are few, else piece by piece, one prefetch ahead.
pub open spec fn mapped_upload(base: int, n: int) -> Seq<UploadStep> {
    if base % (PAGE as int) != 0 || n < PIPELINE_MIN {
        advise(page_start(base), page_round(base % (PAGE as int) + n), Advice::WillNeed).push(
            UploadStep::Copy { off: 0, len: n as usize },
        )
    } else {
        advise(base, vstd::math::min(CHUNK as int, n), Advice::WillNeedSequential) + pipeline(
            base,
            n,
            0,
        )
    }
}

fn push_advice(steps: &mut Vec<UploadStep>, addr: usize, len: usize, advice: Advice)
    ensures
        final(steps)@ == old(steps)@ + advise(addr as int, len as int, advice),
{
    if len != 0 {
        steps.push(UploadStep::Advise { addr, len, advice });
    }
    assert(len == 0 ==> steps@ =~= old(steps)@ + advise(addr as int, len as int, advice));
}

/// Plans the upload of `n` bytes mapped at `base`.
pub fn upload_pipelined(base: usize, n: usize) -> (r: Vec<UploadStep>)
    requires
        base + n + PAGE <= usize::MAX,
    ensures
        r@ == mapped_upload(base as int, n as int),
{
    let mut r: Vec<UploadStep> = Vec::new();
    if base % PAGE != 0 || n < PIPELINE_MIN {
        let over: usize = base % PAGE + n + (PAGE - 1);
        push_advice(&mut r, base - base % PAGE, over - over % PAGE, Advice::WillNeed);
        r.push(UploadStep::Copy { off: 0, len: n });
        assert(r@ =~= mapped_upload(base as int, n as int));
        return r;
    }
    push_advice(&mut r, base, min_usize(CHUNK, n), Advice::WillNeedSequential);
    let mut off: usize = 0;
    while off < n
        invariant
            base + n + PAGE <= usize::MAX,
            off <= n,
            base % PAGE == 0 && n >= PIPELINE_MIN,
            r@ + pipeline(base as int, n as int, off as int) == mapped_upload(
                base as int,
                n as int,
            ),
        decreases n - off,
    {
        let ghost r0 = r@;
        let len: usize = min_usize(CHUNK, n - off);
        let next: usize = off + len;
        push_advice(&mut r, base + next, min_usize(CHUNK, n - next), Advice::WillNeedSequential);
        r.push(UploadStep::Copy { off, len });
        push_advice(&mut r, base + off, len, Advice::DontNeed);
        proof {
            assert(r@ + pipeline(base as int, n as int, next as int) =~= r0 + pipeline(
                base as int,
                n as int,
                off as int,
            ));
        }
        off = next;
    }
    proof {
        assert(pipeline(base as int, n as int, off as int) =~= Seq::<UploadStep>::empty());
        assert(r@ + Seq::<UploadStep>::empty() =~= r@);
    }
    r
}

/// The bytes that a sequence of steps copies, in order.
pub open spec fn copied(steps: Seq<UploadStep>) -> Seq<Chunk>
    decreases steps.len(),
{
    if steps.len() == 0 {
        Seq::empty()
    } else {
        match steps.last() {
            UploadStep::Copy { off, len } => copied(steps.drop_last()).push(Chunk { off, len }),
            UploadStep::Advise { .. } => copied(steps.drop_last()),
        }
    }
}

proof fn lemma_copied_concat(a: Seq<UploadStep>, b: Seq<UploadStep>)
    ensures
        copied(a + b) == copied(a) + copied(b),
    decreases b.len(),
{
    if b.len() == 0 {
        assert(a + b =~= a);
        assert(copied(a) + copied(b) =~= copied(a));
    } else {
        assert((a + b).drop_last() =~= a + b.drop_last());
        lemma_copied_concat(a, b.drop_last());
        assert((a + b).last() == b.last());
        assert(copied(a + b) =~= copied(a) + copied(b));
    }
}

proof fn lemma_copied_advise(addr: int, len: int, advice: Advice)
    ensures
        copied(advise(addr, len, advice)) == Seq::<Chunk>::empty(),
{
    let a = advise(addr, len, advice);
    reveal_with_fuel(copied, 2);
    if len != 0 {
        assert(a.last() is Advise);
        assert(a.drop_last() =~= Seq::<UploadStep>::empty());
    }
    assert(copied(a) =~= Seq::<Chunk>::empty());
}

proof fn lemma_copied_one(off: usize, len: usize)
    ensures
        copied(seq![UploadStep::Copy { off, len }]) == seq![Chunk { off, len }],
{
    let s = seq![UploadStep::Copy { off, len }];
    reveal_with_fuel(copied, 2);
    assert(s.drop_last() =~= Seq::<UploadStep>::empty());
    assert(copied(s) =~= seq![Chunk { off, len }]);
}

proof fn lemma_copied_pipeline(base: int, n: int, off: int)
    requires
        0 <= off <= n,
    ensures
        copied(pipeline(base, n, off)) == chunks_of(n, off),
    decreases n - off,
{
    if off < n {
        let len = vstd::math::min(CHUNK as int, n - off);
        let next = off + len;
        let a = advise(base + next, vstd::math::min(CHUNK as int, n - next), Advice::WillNeedSequential);
        let c = seq![UploadStep::Copy { off: off as usize, len: len as usize }];
        let d = advise(base + off, len, Advice::DontNeed);
        let rest = pipeline(base, n, next);
        lemma_copied_pipeline(base, n, next);
        lemma_copied_concat(a + c + d, rest);
        lemma_copied_concat(a + c, d);
        lemma_copied_concat(a, c);
        lemma_copied_advise(base + next, vstd::math::min(CHUNK as int, n - next), Advice::WillNeedSequential);
        lemma_copied_advise(base + off, len, Advice::DontNeed);
        lemma_copied_one(off as usize, len as usize);
        assert(copied(pipeline(base, n, off)) =~= chunks_of(n, off));
    }
}

/// A list of pieces runs through `from .. n` without gap or overlap.
pub open spec fn partitions(c: Seq<Chunk>, from: int, n: int) -> bool
    decreases c.len(),
{
    if c.len() == 0 {
        from == n
    } else {
        c[0].off == from && c[0].len > 0 && from + c[0].len <= n && partitions(
            c.skip(1),
            from + c[0].len,
            n,
        )
    }
}

proof fn lemma_chunks_partition(n: int, from: int)
    requires
        0 <= from <= n <= usize::MAX,
    ensures
        partitions(chunks_of(n, from), from, n),
    decreases n - from,
{
    if from < n {
        let len = vstd::math::min(CHUNK as int, n - from);
        lemma_chunks_partition(n, from + len);
        assert(chunks_of(n, from).skip(1) =~= chunks_of(n, from + len));
    }
}

/// Staged and mapped uploads alike copy every byte of the tensor exactly once,
/// in order; a tensor of no bytes copies nothing, or nothing but an empty piece.
pub proof fn law_uploads_copy_every_byte_once(base: int, n: int)
    requires
        0 <= n <= usize::MAX,
    ensures
        partitions(chunks_of(n, 0), 0, n),
        n > 0 ==> partitions(copied(mapped_upload(base, n)), 0, n),
        n == 0 ==> copied(mapped_upload(base, n)) == seq![Chunk { off: 0, len: 0 }],
{
    lemma_chunks_partition(n, 0);
    if base % (PAGE as int) != 0 || n < PIPELINE_MIN {
        let a = advise(page_start(base), page_round(base % (PAGE as int) + n), Advice::WillNeed);
        let c = seq![UploadStep::Copy { off: 0, len: n as usize }];
        assert(mapped_upload(base, n) =~= a + c);
        lemma_copied_concat(a, c);
        lemma_copied_advise(page_start(base), page_round(base % (PAGE as int) + n), Advice::WillNeed);
        lemma_copied_one(0, n as usize);
        let one = seq![Chunk { off: 0, len: n as usize }];
        assert(copied(mapped_upload(base, n)) =~= one);
        assert(one.skip(1) =~= Seq::<Chunk>::empty());
        reveal_with_fuel(partitions, 2);
        assert(n > 0 ==> partitions(one, 0, n));
    } else {
        let a = advise(base, vstd::math::min(CHUNK as int, n), Advice::WillNeedSequential);
        lemma_copied_concat(a, pipeline(base, n, 0));
        lemma_copied_advise(base, vstd::math::min(CHUNK as int, n), Advice::WillNeedSequential);
        lemma_copied_pipeline(base, n, 0);
        assert(copied(mapped_upload(base, n)) =~= chunks_of(n, 0));
    }
}

/// A resident weight: its device address, and whether it is laid out as `f32`.
#[derive(Clone, Copy, PartialEq, Eq, Structural, Debug)]
pub struct Resident {
    pub ptr: u64,
    pub is_f32: bool,
}

/// What a weight needs before a product can use it.
#[derive(Clone, Copy, PartialEq, Eq, Structural, Debug)]
pub enum WeightPlan {
    /// Nothing: it is on the device.
    Resident(Resident),
    /// Allocate `alloc` bytes and copy `halves` two-byte values, each widened to
    /// four bytes.
    Expand { alloc: usize, halves: usize },
    /// Allocate, and read the file of a part from this offset on, in pieces.
    Staged { alloc: usize, source: usize, off: usize },
    /// Allocate, and copy from the mapping.
    Mapped { alloc: usize },
}

/// Bytes that the device copy of a weight holds.
pub open spec fn uploaded_len(w: Weight) -> int {
    if w.ty == GgmlType::Bf16 || w.ty == GgmlType::F16 {
        w.len / 2 * 4
    } else {
        w.len as int
    }
}

/// Bytes of a weight on the device.
pub fn device_len(w: &Weight) -> (r: usize)
    requires
        w.len <= usize::MAX / 2,
    ensures
        r == uploaded_len(*w),
{
    if matches!(w.ty, GgmlType::Bf16 | GgmlType::F16) {
        w.len / 2 * 4
    } else {
        w.len
    }
}

/// The way of a weight that is not resident yet.
pub open spec fn fresh_plan(sources: Seq<Source>, w: Weight) -> WeightPlan {
    let alloc = vstd::math::max(uploaded_len(w), 1) as usize;
    if w.ty == GgmlType::Bf16 || w.ty == GgmlType::F16 {
        WeightPlan::Expand { alloc, halves: w.len / 2 }
    } else {
        match source_of(sources, w.key as int, w.len as int) {
            Some(i) => WeightPlan::Staged {
                alloc,
                source: i as usize,
                off: (w.key - sources[i].base) as usize,
            },
            None => WeightPlan::Mapped { alloc },
        }
    }
}

/// Plans the upload of a weight that is not resident yet.
pub fn plan_upload(sources: &Vec<Source>, w: &Weight) -> (r: WeightPlan)
    requires
        w.len <= usize::MAX / 2,
        forall|i: int|
            0 <= i < sources@.len() ==> (#[trigger] sources@[i]).base + sources@[i].len
                <= usize::MAX,
    ensures
        r == fresh_plan(sources@, *w),
{
    if matches!(w.ty, GgmlType::Bf16 | GgmlType::F16) {
        let halves: usize = w.len / 2;
        return WeightPlan::Expand { alloc: max_usize(halves * 4, 1), halves };
    }
    let alloc: usize = max_usize(w.len, 1);
    match find_source(sources, w.key, w.len) {
        Some(i) => {
            proof {
                law_staged_range_inside_source(sources@, w.key as int, w.len as int);
            }
            WeightPlan::Staged { alloc, source: i, off: w.key - sources[i].base }
        },
        None => WeightPlan::Mapped { alloc },
    }
}

/// The `i`-th two-byte value of a tensor, low byte first.
pub open spec fn half_at(data: Seq<u8>, i: int) -> u16 {
    (data[2 * i] + 256 * data[2 * i + 1]) as u16
}

/// The two-byte values of a half-precision tensor; an odd last byte is left out.
pub fn halves_of(data: &[u8]) -> (r: Vec<u16>)
    ensures
        r@.len() == data@.len() / 2,
        forall|i: int| 0 <= i < r@.len() ==> #[trigger] r@[i] == half_at(data@, i),
{
    let len: usize = data.len();
    let n: usize = len / 2;
    let mut r: Vec<u16> = Vec::new();
    let mut i: usize = 0;
    while i < n
        invariant
            i <= n,
            len == data@.len(),
            n == len / 2,
            r@.len() == i,
            forall|j: int| 0 <= j < i ==> #[trigger] r@[j] == half_at(data@, j),
        decreases n - i,
    {
        r.push(data[2 * i] as u16 + 256 * data[2 * i + 1] as u16);
        i = i + 1;
    }
    r
}

} // verus!
