//! Constants that are uploaded once per content.

use vstd::prelude::*;
use crate::arith::max_usize;
use crate::device::{buf, spec_buf, Cmd, ConstMap, Host, Mark, Slot};

verus! {

/// Entries after which a family of constants starts over.
pub const CONST_LIMIT: usize = 64;

/// Hash and length of a constant.
#[derive(Clone, Copy, PartialEq, Eq, Structural, Debug)]
pub struct ContentKey {
    pub hash: u64,
    pub len: usize,
}

/// The constants of one family that are on the device.
pub struct ConstCache {
    pub keys: Vec<ContentKey>,
}

impl ConstCache {
    /// The family keeps to its limit.
    pub open spec fn wf(&self) -> bool {
        self.keys@.len() <= CONST_LIMIT
    }

    pub fn new() -> (r: ConstCache)
        ensures
            r.keys@ == Seq::<ContentKey>::empty(),
    {
        ConstCache { keys: Vec::new() }
    }

    pub fn has(&self, key: ContentKey) -> (r: bool)
        ensures
            r == self.keys@.contains(key),
    {
        let mut i: usize = 0;
        while i < self.keys.len()
            invariant
                i <= self.keys@.len(),
                forall|j: int| 0 <= j < i ==> self.keys@[j] != key,
            decreases self.keys@.len() - i,
        {
            if self.keys[i] == key {
                assert(self.keys@[i as int] == key);
                return true;
            }
            i = i + 1;
        }
        false
    }
}

/// The slot of a constant.
pub open spec fn spec_const_slot(map: ConstMap, key: ContentKey) -> Slot {
    Slot::Const { map, hash: key.hash, len: key.len }
}

pub fn const_slot(map: ConstMap, key: ContentKey) -> (r: Slot)
    ensures
        r == spec_const_slot(map, key),
{
    Slot::Const { map, hash: key.hash, len: key.len }
}

/// What brings a constant to the device: nothing where its content is there;
/// else room for it, the copy and a note of it. A full family starts over.
pub open spec fn const_program(
    keys: Seq<ContentKey>,
    map: ConstMap,
    key: ContentKey,
    src: Host,
) -> Seq<Cmd> {
    let slot = spec_const_slot(map, key);
    if keys.contains(key) {
        Seq::empty()
    } else {
        (if keys.len() >= CONST_LIMIT {
            seq![Cmd::Mark(Mark::ConstClear { map })]
        } else {
            Seq::empty()
        }) + seq![
            Cmd::Mark(Mark::ConstFresh { map, hash: key.hash, len: key.len }),
            Cmd::Ensure { slot, bytes: (vstd::math::max(key.len as int, 1) * 4) as usize },
            Cmd::H2d { dst: spec_buf(slot), src, bytes: (key.len * 4) as usize },
            Cmd::Mark(Mark::Const { map, hash: key.hash, len: key.len }),
        ]
    }
}

/// Plans the upload of a constant known by its content.
pub fn upload_map(cache: &ConstCache, map: ConstMap, key: ContentKey, src: Host) -> (r: Vec<Cmd>)
    requires
        key.len * 4 <= usize::MAX,
    ensures
        r@ == const_program(cache.keys@, map, key, src),
{
    let mut r: Vec<Cmd> = Vec::new();
    if cache.has(key) {
        return r;
    }
    if cache.keys.len() >= CONST_LIMIT {
        r.push(Cmd::Mark(Mark::ConstClear { map }));
    }
    let slot = const_slot(map, key);
    r.push(Cmd::Mark(Mark::ConstFresh { map, hash: key.hash, len: key.len }));
    r.push(Cmd::Ensure { slot, bytes: max_usize(key.len, 1) * 4 });
    r.push(Cmd::H2d { dst: buf(slot), src, bytes: key.len * 4 });
    r.push(Cmd::Mark(Mark::Const { map, hash: key.hash, len: key.len }));
    assert(r@ =~= const_program(cache.keys@, map, key, src));
    r
}

/// The keys of a family after the notes of a program.
pub open spec fn keys_after(keys: Seq<ContentKey>, map: ConstMap, cmds: Seq<Cmd>) -> Seq<
    ContentKey,
>
    decreases cmds.len(),
{
    if cmds.len() == 0 {
        keys
    } else {
        let k = keys_after(keys, map, cmds.drop_last());
        match cmds.last() {
            Cmd::Mark(Mark::ConstClear { map: m }) => if m == map {
                Seq::empty()
            } else {
                k
            },
            Cmd::Mark(Mark::Const { map: m, hash, len }) => if m == map {
                k.push(ContentKey { hash, len })
            } else {
                k
            },
            _ => k,
        }
    }
}

/// After its upload a constant is known, a second upload of the same content
/// plans nothing, and there is room for the note: a family within its limit stays
/// within it.
pub proof fn law_constants_are_uploaded_once(
    keys: Seq<ContentKey>,
    map: ConstMap,
    key: ContentKey,
    src: Host,
)
    requires
        keys.len() <= CONST_LIMIT,
    ensures
        ({
            let after = keys_after(keys, map, const_program(keys, map, key, src));
            let p = const_program(keys, map, key, src);
            &&& after.contains(key)
            &&& after.len() <= CONST_LIMIT
            &&& p.len() > 0 ==> keys_after(keys, map, p.drop_last()).len() < CONST_LIMIT
            &&& const_program(after, map, key, src) == Seq::<Cmd>::empty()
        }),
{
    let p = const_program(keys, map, key, src);
    if keys.contains(key) {
        assert(keys_after(keys, map, p) == keys);
    } else {
        let a = p.drop_last();
        let b = a.drop_last();
        let c = b.drop_last();
        let d = c.drop_last();
        reveal_with_fuel(keys_after, 6);
        if keys.len() >= CONST_LIMIT {
            assert(d.len() == 1);
            assert(keys_after(keys, map, d) =~= Seq::<ContentKey>::empty());
        } else {
            assert(d.len() == 0);
            assert(keys_after(keys, map, d) == keys);
        }
        assert(keys_after(keys, map, c) == keys_after(keys, map, d));
        assert(keys_after(keys, map, a) == keys_after(keys, map, d));
        let after = keys_after(keys, map, p);
        assert(after == keys_after(keys, map, d).push(key));
        assert(after.last() == key);
        assert(after.contains(key));
    }
}

/// What brings an array to a slot whose content is known by one hash. A slot
/// without a buffer counts as unknown.
pub open spec fn hashed_program(
    known: u64,
    ptr: u64,
    slot: Slot,
    hash: u64,
    len: usize,
    src: Host,
) -> Seq<Cmd> {
    if known != hash || ptr == 0 {
        seq![
            Cmd::Ensure { slot, bytes: (vstd::math::max(len as int, 1) * 4) as usize },
            Cmd::H2d { dst: spec_buf(slot), src, bytes: (len * 4) as usize },
            Cmd::Mark(Mark::Hashed { slot, hash }),
        ]
    } else {
        Seq::empty()
    }
}

pub fn upload_hashed(known: u64, ptr: u64, slot: Slot, hash: u64, len: usize, src: Host) -> (r: Vec<
    Cmd,
>)
    requires
        len * 4 <= usize::MAX,
    ensures
        r@ == hashed_program(known, ptr, slot, hash, len, src),
{
    if known != hash || ptr == 0 {
        vec![
            Cmd::Ensure { slot, bytes: max_usize(len, 1) * 4 },
            Cmd::H2d { dst: buf(slot), src, bytes: len * 4 },
            Cmd::Mark(Mark::Hashed { slot, hash }),
        ]
    } else {
        Vec::new()
    }
}

/// A host array, known by its address and length.
#[derive(Clone, Copy, PartialEq, Eq, Structural, Debug)]
pub struct HostKey {
    pub ptr: usize,
    pub len: usize,
}

/// What brings an array to a slot whose content is known by the array's address
/// and length.
pub open spec fn keyed_program(
    known: HostKey,
    ptr: u64,
    slot: Slot,
    key: HostKey,
    src: Host,
) -> Seq<Cmd> {
    if known != key || ptr == 0 {
        seq![
            Cmd::Ensure { slot, bytes: (vstd::math::max(key.len as int, 1) * 4) as usize },
            Cmd::H2d { dst: spec_buf(slot), src, bytes: (key.len * 4) as usize },
            Cmd::Mark(Mark::Keyed { slot, ptr: key.ptr, len: key.len }),
        ]
    } else {
        Seq::empty()
    }
}

pub fn upload_by_ptr(known: HostKey, ptr: u64, slot: Slot, key: HostKey, src: Host) -> (r: Vec<Cmd>)
    requires
        key.len * 4 <= usize::MAX,
    ensures
        r@ == keyed_program(known, ptr, slot, key, src),
{
    if known != key || ptr == 0 {
        vec![
            Cmd::Ensure { slot, bytes: max_usize(key.len, 1) * 4 },
            Cmd::H2d { dst: buf(slot), src, bytes: key.len * 4 },
            Cmd::Mark(Mark::Keyed { slot, ptr: key.ptr, len: key.len }),
        ]
    } else {
        Vec::new()
    }
}

} // verus!
