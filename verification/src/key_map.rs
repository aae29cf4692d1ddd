//! A small map that keeps its entries in the order in which the keys came.

use vstd::prelude::*;
use crate::device::Slot;

verus! {

/// Keys that can be compared.
pub trait Key: Copy {
    fn same(&self, other: &Self) -> (r: bool)
        ensures
            r == (*self == *other),
    ;
}

impl Key for usize {
    fn same(&self, other: &usize) -> (r: bool) {
        *self == *other
    }
}

/// A layer and a sequence.
#[derive(Clone, Copy, PartialEq, Eq, Structural, Debug)]
pub struct LayerSeq {
    pub layer: usize,
    pub seq: usize,
}

impl Key for LayerSeq {
    fn same(&self, other: &LayerSeq) -> (r: bool) {
        *self == *other
    }
}

impl Key for Slot {
    fn same(&self, other: &Slot) -> (r: bool) {
        *self == *other
    }
}

/// One value per key.
pub struct KeyMap<K, V> {
    entries: Vec<(K, V)>,
}

impl<K: Key, V: Copy> KeyMap<K, V> {
    spec fn holds(&self, i: int, k: K) -> bool {
        0 <= i < self.entries@.len() && self.entries@[i].0 == k
    }

    /// What the map holds.
    pub closed spec fn view(&self) -> Map<K, V> {
        Map::new(
            |k: K| exists|i: int| self.holds(i, k),
            |k: K|
                {
                    let i = choose|i: int| self.holds(i, k);
                    self.entries@[i].1
                },
        )
    }

    /// No key occurs twice.
    pub closed spec fn wf(&self) -> bool {
        forall|i: int, j: int|
            0 <= i < j < self.entries@.len() ==> self.entries@[i].0 != self.entries@[j].0
    }

    pub fn new() -> (r: KeyMap<K, V>)
        ensures
            r.wf(),
            r@ == Map::<K, V>::empty(),
    {
        let r = KeyMap { entries: Vec::new() };
        proof {
            assert(r@ =~= Map::<K, V>::empty());
        }
        r
    }

    fn find(&self, k: K) -> (r: Option<usize>)
        ensures
            match r {
                Some(i) => self.holds(i as int, k),
                None => forall|i: int| !self.holds(i, k),
            },
    {
        let mut i: usize = 0;
        while i < self.entries.len()
            invariant
                i <= self.entries@.len(),
                forall|j: int| 0 <= j < i ==> !self.holds(j, k),
            decreases self.entries@.len() - i,
        {
            if self.entries[i].0.same(&k) {
                return Some(i);
            }
            i = i + 1;
        }
        None
    }

    /// The value of a key.
    pub fn get(&self, k: K) -> (r: Option<V>)
        requires
            self.wf(),
        ensures
            match r {
                Some(v) => self@.dom().contains(k) && self@[k] == v,
                None => !self@.dom().contains(k),
            },
    {
        match self.find(k) {
            Some(i) => {
                proof {
                    lemma_lookup(*self, i as int, k);
                }
                Some(self.entries[i].1)
            },
            None => None,
        }
    }

    /// Sets the value of a key.
    pub fn insert(&mut self, k: K, v: V)
        requires
            old(self).wf(),
        ensures
            final(self).wf(),
            final(self)@ == old(self)@.insert(k, v),
    {
        let ghost m0 = *self;
        match self.find(k) {
            Some(i) => {
                self.entries.set(i, (k, v));
                proof {
                    lemma_set(m0, *self, k, v, i as int);
                }
            },
            None => {
                proof {
                    assert forall|i: int| 0 <= i < self.entries@.len() implies self.entries@[i].0
                        != k by {
                        assert(!m0.holds(i, k));
                    }
                }
                self.entries.push((k, v));
                proof {
                    lemma_push(m0, *self, k, v);
                }
            },
        }
    }

    /// Forgets a key.
    pub fn remove(&mut self, k: K)
        requires
            old(self).wf(),
        ensures
            final(self).wf(),
            final(self)@ == old(self)@.remove(k),
    {
        let ghost m0 = *self;
        match self.find(k) {
            Some(i) => {
                let _gone = self.entries.remove(i);
                proof {
                    lemma_remove(m0, *self, k, i as int);
                }
            },
            None => {
                proof {
                    assert(self@ =~= m0@.remove(k));
                }
            },
        }
    }
}

proof fn lemma_lookup<K: Key, V: Copy>(m: KeyMap<K, V>, i: int, k: K)
    requires
        m.wf(),
        m.holds(i, k),
    ensures
        m@.dom().contains(k),
        m@[k] == m.entries@[i].1,
{
    let c = choose|c: int| m.holds(c, k);
    assert(m.holds(i, k));
    if c < i {
        assert(!(m.entries@[c].0 != m.entries@[i].0));
    } else if c > i {
        assert(!(m.entries@[i].0 != m.entries@[c].0));
    }
}

proof fn lemma_set<K: Key, V: Copy>(m: KeyMap<K, V>, n: KeyMap<K, V>, k0: K, v: V, i: int)
    requires
        m.wf(),
        n.wf(),
        m.holds(i, k0),
        n.entries@ == m.entries@.update(i, (k0, v)),
    ensures
        n@ == m@.insert(k0, v),
{
    assert forall|k: K| n@.dom().contains(k) <==> #[trigger] m@.insert(k0, v).dom().contains(k) by {
        if n@.dom().contains(k) {
            let c = choose|c: int| n.holds(c, k);
            assert(m.holds(c, k));
        }
        if m@.dom().contains(k) {
            let c = choose|c: int| m.holds(c, k);
            assert(n.holds(c, k));
        }
        assert(n.holds(i, k0));
    }
    assert forall|k: K| n@.dom().contains(k) implies #[trigger] n@[k] == m@.insert(k0, v)[k] by {
        let c = choose|c: int| n.holds(c, k);
        lemma_lookup(n, c, k);
        assert(m.holds(c, k));
        lemma_lookup(m, c, k);
        if c != i && k == k0 {
            lemma_lookup(n, i, k);
            if c < i {
                assert(!(n.entries@[c].0 != n.entries@[i].0));
            } else {
                assert(!(n.entries@[i].0 != n.entries@[c].0));
            }
        }
    }
    assert(n@ =~= m@.insert(k0, v));
}

proof fn lemma_push<K: Key, V: Copy>(m: KeyMap<K, V>, n: KeyMap<K, V>, k0: K, v: V)
    requires
        m.wf(),
        n.wf(),
        forall|i: int| !m.holds(i, k0),
        n.entries@ == m.entries@.push((k0, v)),
    ensures
        n@ == m@.insert(k0, v),
{
    let last = m.entries@.len() as int;
    assert(n.holds(last, k0));
    lemma_lookup(n, last, k0);
    assert forall|k: K| n@.dom().contains(k) <==> #[trigger] m@.insert(k0, v).dom().contains(k) by {
        if n@.dom().contains(k) && k != k0 {
            let c = choose|c: int| n.holds(c, k);
            assert(m.holds(c, k));
        }
        if m@.dom().contains(k) {
            let c = choose|c: int| m.holds(c, k);
            assert(n.holds(c, k));
        }
    }
    assert forall|k: K| n@.dom().contains(k) implies #[trigger] n@[k] == m@.insert(k0, v)[k] by {
        if k != k0 {
            let c = choose|c: int| n.holds(c, k);
            lemma_lookup(n, c, k);
            assert(m.holds(c, k));
            lemma_lookup(m, c, k);
        }
    }
    assert(n@ =~= m@.insert(k0, v));
}

proof fn lemma_remove<K: Key, V: Copy>(m: KeyMap<K, V>, n: KeyMap<K, V>, k0: K, i: int)
    requires
        m.wf(),
        n.wf(),
        m.holds(i, k0),
        n.entries@ == m.entries@.remove(i),
    ensures
        n@ == m@.remove(k0),
{
    assert forall|k: K| n@.dom().contains(k) <==> #[trigger] m@.remove(k0).dom().contains(k) by {
        if n@.dom().contains(k) {
            let c = choose|c: int| n.holds(c, k);
            let d: int = if c < i { c } else { c + 1 };
            assert(m.holds(d, k));
            if k == k0 {
                if d < i {
                    assert(!(m.entries@[d].0 != m.entries@[i].0));
                } else {
                    assert(!(m.entries@[i].0 != m.entries@[d].0));
                }
            }
        }
        if m@.dom().contains(k) && k != k0 {
            let c = choose|c: int| m.holds(c, k);
            let d: int = if c < i { c } else { c - 1 };
            assert(n.holds(d, k));
        }
    }
    assert forall|k: K| n@.dom().contains(k) implies #[trigger] n@[k] == m@.remove(k0)[k] by {
        let c = choose|c: int| n.holds(c, k);
        lemma_lookup(n, c, k);
        let d: int = if c < i { c } else { c + 1 };
        assert(m.holds(d, k));
        lemma_lookup(m, d, k);
    }
    assert(n@ =~= m@.remove(k0));
}

} // verus!
