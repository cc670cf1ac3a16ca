//! The session registry: the single authority mapping 32-bit *our-index*
//! session identifiers to peer handles.  Indices are globally unique; every
//! insertion is refused on collision.

use vstd::prelude::*;

verus! {

/// Maps each live *our-index* to the handle of the peer that owns the session.
pub struct SessionRegistry {
    entries: Vec<(u32, usize)>,
}

impl SessionRegistry {
    /// No index occurs twice.
    pub closed spec fn wf(self) -> bool {
        forall|a: int, b: int|
            0 <= a < b < self.entries@.len() ==> (#[trigger] self.entries@[a]).0 != (
            #[trigger] self.entries@[b]).0
    }

    /// The registry links index `idx` to peer handle `p`.
    pub closed spec fn maps(self, idx: u32, p: usize) -> bool {
        exists|i: int| 0 <= i < self.entries@.len() && #[trigger] self.entries@[i] == (idx, p)
    }

    /// The registry holds index `idx`.
    pub closed spec fn contains(self, idx: u32) -> bool {
        exists|i: int| 0 <= i < self.entries@.len() && (#[trigger] self.entries@[i]).0 == idx
    }

    /// A held index is linked to exactly one peer.
    pub proof fn lemma_maps_unique(self, idx: u32, p: usize, q: usize)
        requires
            self.wf(),
            self.maps(idx, p),
            self.maps(idx, q),
        ensures
            p == q,
    {
        let i = choose|i: int| 0 <= i < self.entries@.len() && self.entries@[i] == (idx, p);
        let j = choose|j: int| 0 <= j < self.entries@.len() && self.entries@[j] == (idx, q);
        assert(i == j);
    }

    /// Linking implies holding.
    pub proof fn lemma_maps_contains(self, idx: u32, p: usize)
        requires
            self.maps(idx, p),
        ensures
            self.contains(idx),
    {
        let i = choose|i: int| 0 <= i < self.entries@.len() && self.entries@[i] == (idx, p);
        assert((self.entries@[i]).0 == idx);
    }

    /// An empty registry.
    pub fn new() -> (r: SessionRegistry)
        ensures
            r.wf(),
            forall|idx: u32| !r.contains(idx),
            forall|idx: u32, p: usize| !r.maps(idx, p),
    {
        SessionRegistry { entries: Vec::new() }
    }

    /// Links `idx` to `p` unless `idx` is already held; reports success.
    pub fn insert(&mut self, idx: u32, p: usize) -> (r: bool)
        requires
            old(self).wf(),
        ensures
            final(self).wf(),
            r == !old(self).contains(idx),
            !r ==> *final(self) == *old(self),
            r ==> final(self).maps(idx, p),
            r ==> final(self).contains(idx),
            forall|idx2: u32, q: usize|
                idx2 != idx ==> (final(self).maps(idx2, q) == old(self).maps(idx2, q)),
            forall|idx2: u32| idx2 != idx ==> (final(self).contains(idx2) == old(self).contains(idx2)),
    {
        if self.lookup(idx).is_some() {
            return false;
        }
        let n = self.entries.len();
        self.entries.push((idx, p));
        proof {
            assert(self.entries@[n as int] == (idx, p));
            assert forall|idx2: u32, q: usize|
                idx2 != idx && old(self).maps(idx2, q) implies self.maps(idx2, q) by {
                let i = choose|i: int|
                    0 <= i < old(self).entries@.len() && old(self).entries@[i] == (idx2, q);
                assert(self.entries@[i] == (idx2, q));
            }
            assert forall|idx2: u32| idx2 != idx && old(self).contains(idx2) implies self.contains(
                idx2,
            ) by {
                let i = choose|i: int|
                    0 <= i < old(self).entries@.len() && (old(self).entries@[i]).0 == idx2;
                assert((self.entries@[i]).0 == idx2);
            }
            assert forall|idx2: u32, q: usize|
                idx2 != idx && self.maps(idx2, q) implies old(self).maps(idx2, q) by {
                let i = choose|i: int| 0 <= i < self.entries@.len() && self.entries@[i] == (idx2, q);
                assert(i < n);
                assert(old(self).entries@[i] == (idx2, q));
            }
            assert forall|idx2: u32| idx2 != idx && self.contains(idx2) implies old(self).contains(
                idx2,
            ) by {
                let i = choose|i: int| 0 <= i < self.entries@.len() && (self.entries@[i]).0 == idx2;
                assert(i < n);
                assert((old(self).entries@[i]).0 == idx2);
            }
        }
        true
    }

    /// The peer handle that `idx` is linked to, if the registry holds it.
    pub fn lookup(&self, idx: u32) -> (r: Option<usize>)
        ensures
            r is Some == self.contains(idx),
            r matches Some(p) ==> self.maps(idx, p),
    {
        let n = self.entries.len();
        let mut i: usize = 0;
        while i < n
            invariant
                n == self.entries@.len(),
                i <= n,
                forall|j: int| 0 <= j < i ==> (#[trigger] self.entries@[j]).0 != idx,
            decreases n - i,
        {
            let (k, p) = self.entries[i];
            if k == idx {
                proof {
                    assert(self.entries@[i as int] == (idx, p));
                }
                return Some(p);
            }
            i = i + 1;
        }
        None
    }

    /// Forgets every index at once.
    pub fn clear(&mut self)
        ensures
            final(self).wf(),
            forall|idx: u32| !final(self).contains(idx),
            forall|idx: u32, p: usize| !final(self).maps(idx, p),
    {
        self.entries = Vec::new();
    }

    /// Unlinks `idx`; afterwards the registry does not hold it.
    pub fn remove(&mut self, idx: u32)
        requires
            old(self).wf(),
        ensures
            final(self).wf(),
            !final(self).contains(idx),
            forall|idx2: u32, q: usize|
                idx2 != idx ==> (final(self).maps(idx2, q) == old(self).maps(idx2, q)),
            forall|idx2: u32| idx2 != idx ==> (final(self).contains(idx2) == old(self).contains(idx2)),
    {
        let n = self.entries.len();
        let mut i: usize = 0;
        while i < n
            invariant
                old(self).wf(),
                self.entries@ == old(self).entries@,
                n == self.entries@.len(),
                i <= n,
                forall|j: int| 0 <= j < i ==> (#[trigger] self.entries@[j]).0 != idx,
            decreases n - i,
        {
            let (k, _p) = self.entries[i];
            if k == idx {
                self.entries.remove(i);
                proof {
                    let oldseq = old(self).entries@;
                    assert(self.entries@ == oldseq.remove(i as int));
                    assert forall|a: int, b: int|
                        0 <= a < b < self.entries@.len() implies (#[trigger] self.entries@[a]).0 != (
                        #[trigger] self.entries@[b]).0 by {
                        let a0 = if a < i { a } else { a + 1 };
                        let b0 = if b < i { b } else { b + 1 };
                        assert(self.entries@[a] == oldseq[a0]);
                        assert(self.entries@[b] == oldseq[b0]);
                    }
                    assert forall|j: int|
                        0 <= j < self.entries@.len() implies (#[trigger] self.entries@[j]).0
                        != idx by {
                        let j0 = if j < i { j } else { j + 1 };
                        assert(self.entries@[j] == oldseq[j0]);
                        if j0 != i {
                            assert(oldseq[j0].0 != idx || j0 >= i);
                        }
                        if j >= i {
                            assert(oldseq[i as int].0 == idx);
                            assert(j0 > i);
                            assert(oldseq[j0].0 != oldseq[i as int].0);
                        }
                    }
                    assert forall|idx2: u32, q: usize|
                        idx2 != idx && old(self).maps(idx2, q) implies self.maps(idx2, q) by {
                        let j = choose|j: int| 0 <= j < oldseq.len() && oldseq[j] == (idx2, q);
                        let j1 = if j < i { j } else { j - 1 };
                        assert(j != i);
                        assert(self.entries@[j1] == oldseq[j]);
                    }
                    assert forall|idx2: u32, q: usize|
                        idx2 != idx && self.maps(idx2, q) implies old(self).maps(idx2, q) by {
                        let j = choose|j: int|
                            0 <= j < self.entries@.len() && self.entries@[j] == (idx2, q);
                        let j0 = if j < i { j } else { j + 1 };
                        assert(oldseq[j0] == (idx2, q));
                    }
                    assert forall|idx2: u32|
                        idx2 != idx && old(self).contains(idx2) implies self.contains(idx2) by {
                        let j = choose|j: int| 0 <= j < oldseq.len() && oldseq[j].0 == idx2;
                        let j1 = if j < i { j } else { j - 1 };
                        assert(j != i);
                        assert(self.entries@[j1] == oldseq[j]);
                    }
                    assert forall|idx2: u32|
                        idx2 != idx && self.contains(idx2) implies old(self).contains(idx2) by {
                        let j = choose|j: int|
                            0 <= j < self.entries@.len() && (self.entries@[j]).0 == idx2;
                        let j0 = if j < i { j } else { j + 1 };
                        assert(oldseq[j0] == self.entries@[j]);
                    }
                }
                return ;
            }
            i = i + 1;
        }
    }
}

} // verus!
