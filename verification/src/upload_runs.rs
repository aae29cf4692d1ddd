//! Programs that only make room and copy arrays of the host to the device.

use vstd::prelude::*;
use crate::device::{spec_buf, Cmd, Host, Ptr, Slot};
use crate::memory::distance;
use crate::product_runs::{jumps_inside, performed, ran, Kernels};

verus! {

/// The slot that a command fills from its start, if it is such a copy.
pub open spec fn filled(c: Cmd) -> Option<Slot> {
    match c {
        Cmd::H2d { dst: Ptr::Buf { slot, off: 0 }, .. } => Some(slot),
        _ => None,
    }
}

/// The command makes room, fills a slot, or changes nothing on the device.
pub open spec fn is_upload(c: Cmd) -> bool {
    match c {
        Cmd::Ensure { .. } => true,
        Cmd::Weight { .. } => true,
        Cmd::Mark(_) => true,
        Cmd::H2d { .. } => filled(c) is Some,
        _ => false,
    }
}

/// Uploads, none of which fills a slot that another one fills.
pub open spec fn are_uploads(c: Seq<Cmd>) -> bool {
    &&& forall|i: int| 0 <= i < c.len() ==> is_upload(#[trigger] c[i])
    &&& forall|i: int, j: int|
        0 <= i < j < c.len() && filled(#[trigger] c[i]) is Some ==> filled(#[trigger] c[j])
            != filled(c[i])
}

/// The program fills the slot.
pub open spec fn fills(c: Seq<Cmd>, slot: Slot) -> bool {
    exists|i: int| 0 <= i < c.len() && filled(#[trigger] c[i]) == Some(slot)
}

/// Command `i` of the program fills the slot with so many bytes of an array.
pub open spec fn copies(c: Seq<Cmd>, i: int, slot: Slot, src: Host, bytes: int) -> bool {
    &&& 0 <= i < c.len()
    &&& c[i] matches Cmd::H2d { dst, src: s, bytes: n } && dst == spec_buf(slot) && s == src && n
        == bytes
}

/// What uploads leave: every slot that is filled holds its array, and nothing else
/// changes.
pub proof fn lemma_uploads(k: Kernels, m: spec_fn(Ptr) -> u8, c: Seq<Cmd>, ok: spec_fn(int) -> bool, at: int)
    requires
        are_uploads(c),
    ensures
        jumps_inside(c),
        forall|i: int, slot: Slot, src: Host, bytes: int, j: int|
            #[trigger] copies(c, i, slot, src, bytes) && 0 <= j < bytes ==> ran(k, m, c, ok, at)(
                #[trigger] spec_buf(slot).spec_at(j),
            ) == (k.host)(src, j),
        forall|p: Ptr|
            (p matches Ptr::Buf { slot, .. } ==> !fills(c, slot)) ==> #[trigger] ran(
                k,
                m,
                c,
                ok,
                at,
            )(p) == m(p),
    decreases c.len(),
{
    if c.len() > 0 {
        let rest = c.skip(1);
        assert forall|i: int| 0 <= i < rest.len() implies is_upload(#[trigger] rest[i]) by {
            assert(rest[i] == c[i + 1]);
        }
        assert forall|i: int, j: int|
            0 <= i < j < rest.len() && filled(#[trigger] rest[i]) is Some implies filled(
            #[trigger] rest[j],
        ) != filled(rest[i]) by {
            assert(rest[i] == c[i + 1] && rest[j] == c[j + 1]);
        }
        assert(is_upload(c[0]));
        let mid = performed(k, m, c[0]);
        lemma_uploads(k, mid, rest, ok, at + 1);
        let after = ran(k, m, c, ok, at);
        assert(after == ran(k, mid, rest, ok, at + 1));
        assert forall|i: int, slot: Slot, src: Host, bytes: int, j: int|
            #[trigger] copies(c, i, slot, src, bytes) && 0 <= j < bytes implies after(
            #[trigger] spec_buf(slot).spec_at(j),
        ) == (k.host)(src, j) by {
            if i > 0 {
                assert(rest[i - 1] == c[i]);
                assert(copies(rest, i - 1, slot, src, bytes));
            } else {
                let p = spec_buf(slot).spec_at(j);
                if fills(rest, slot) {
                    let e = choose|e: int| 0 <= e < rest.len() && filled(#[trigger] rest[e])
                        == Some(slot);
                    assert(c[e + 1] == rest[e]);
                    assert(filled(c[0]) is Some);
                }
                assert(distance(spec_buf(slot), p) == Some(j));
                assert(mid(p) == (k.host)(src, j));
            }
        }
        assert forall|p: Ptr|
            (p matches Ptr::Buf { slot, .. } ==> !fills(c, slot)) implies #[trigger] after(p) == m(
            p,
        ) by {
            if let Ptr::Buf { slot, off } = p {
                if fills(rest, slot) {
                    let e = choose|e: int| 0 <= e < rest.len() && filled(#[trigger] rest[e])
                        == Some(slot);
                    assert(filled(c[e + 1]) == Some(slot));
                }
                assert(filled(c[0]) != Some(slot));
            }
            assert(mid(p) == m(p));
        }
    }
}

} // verus!
