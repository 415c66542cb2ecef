//! A set of account keys, kept as a vector without duplicates. Each
//! transaction records here which keys it has locked.

use vstd::prelude::*;

use crate::account::keys_equal;

verus! {

/// A duplicate-free collection of 32-byte account keys.
pub struct KeySet {
    keys: Vec<[u8; 32]>,
}

impl KeySet {
    /// No two stored keys are byte-equal.
    pub closed spec fn wf(self) -> bool {
        forall|i: int, j: int|
            0 <= i < j < self.keys@.len() ==> self.keys@[i]@ != self.keys@[j]@
    }

    pub closed spec fn spec_len(self) -> nat {
        self.keys@.len()
    }

    pub closed spec fn spec_at(self, i: int) -> Seq<u8> {
        self.keys@[i]@
    }

    pub closed spec fn spec_contains(self, k: Seq<u8>) -> bool {
        exists|i: int| 0 <= i < self.keys@.len() && (#[trigger] self.keys@[i])@ == k
    }

    /// Membership is exactly having some index; within bounds, `spec_at`
    /// never repeats a key.
    pub proof fn lemma_model(self)
        requires
            self.wf(),
        ensures
            forall|k: Seq<u8>|
                #[trigger] self.spec_contains(k) <==> exists|i: int|
                    0 <= i < self.spec_len() && self.spec_at(i) == k,
            forall|i: int| 0 <= i < self.spec_len() ==> self.spec_contains(#[trigger] self.spec_at(i)),
            forall|i: int, j: int|
                0 <= i < j < self.spec_len() ==> self.spec_at(i) != self.spec_at(j),
    {
        assert forall|k: Seq<u8>| #[trigger] self.spec_contains(k) implies exists|i: int|
            0 <= i < self.spec_len() && self.spec_at(i) == k by {
            let i = choose|i: int| 0 <= i < self.keys@.len() && (#[trigger] self.keys@[i])@ == k;
            assert(self.spec_at(i) == k);
        }
        assert forall|k: Seq<u8>|
            (exists|i: int| 0 <= i < self.spec_len() && self.spec_at(i) == k) implies
            self.spec_contains(k) by {
            let i = choose|i: int| 0 <= i < self.spec_len() && self.spec_at(i) == k;
            assert((self.keys@[i])@ == k);
        }
    }

    /// An empty set.
    pub fn new() -> (r: Self)
        ensures
            r.wf(),
            r.spec_len() == 0,
            forall|k: Seq<u8>| !r.spec_contains(k),
    {
        KeySet { keys: Vec::new() }
    }

    pub fn len(&self) -> (n: usize)
        ensures
            n == self.spec_len(),
    {
        self.keys.len()
    }

    /// The key stored at position `i`.
    pub fn at(&self, i: usize) -> (k: [u8; 32])
        requires
            i < self.spec_len(),
        ensures
            k@ == self.spec_at(i as int),
            self.spec_contains(k@),
    {
        let k = self.keys[i];
        proof {
            assert((self.keys@[i as int])@ == k@);
        }
        k
    }

    pub fn contains(&self, key: &[u8; 32]) -> (r: bool)
        ensures
            r == self.spec_contains(key@),
    {
        let mut i: usize = 0;
        while i < self.keys.len()
            invariant
                i <= self.keys@.len(),
                forall|j: int| 0 <= j < i ==> (#[trigger] self.keys@[j])@ != key@,
            decreases self.keys@.len() - i,
        {
            if keys_equal(&self.keys[i], key) {
                proof {
                    assert((self.keys@[i as int])@ == key@);
                }
                return true;
            }
            i = i + 1;
        }
        false
    }

    /// Adds `key` if it is not yet present; the set is unchanged otherwise.
    pub fn insert(&mut self, key: [u8; 32])
        requires
            old(self).wf(),
        ensures
            final(self).wf(),
            forall|k: Seq<u8>|
                #[trigger] final(self).spec_contains(k) == (k == key@ || old(self).spec_contains(k)),
            final(self).spec_len() == if old(self).spec_contains(key@) {
                old(self).spec_len()
            } else {
                old(self).spec_len() + 1
            },
    {
        if !self.contains(&key) {
            self.keys.push(key);
            proof {
                let n = self.keys@.len() - 1;
                assert((self.keys@[n])@ == key@);
                assert forall|k: Seq<u8>|
                    #[trigger] self.spec_contains(k) == (k == key@ || old(self).spec_contains(k)) by {
                    if self.spec_contains(k) {
                        let i = choose|i: int|
                            0 <= i < self.keys@.len() && (#[trigger] self.keys@[i])@ == k;
                        if i < n {
                            assert((old(self).keys@[i])@ == k);
                        }
                    }
                    if old(self).spec_contains(k) {
                        let i = choose|i: int|
                            0 <= i < old(self).keys@.len() && (#[trigger] old(self).keys@[i])@ == k;
                        assert((self.keys@[i])@ == k);
                    }
                }
            }
        }
    }

    /// A copy of the whole set: same keys, position for position.
    pub fn duplicate(&self) -> (r: Self)
        requires
            self.wf(),
        ensures
            r.wf(),
            r.spec_len() == self.spec_len(),
            forall|i: int| 0 <= i < r.spec_len() ==> #[trigger] r.spec_at(i) == self.spec_at(i),
            forall|k: Seq<u8>| #[trigger] r.spec_contains(k) == self.spec_contains(k),
    {
        let mut keys: Vec<[u8; 32]> = Vec::new();
        let mut i: usize = 0;
        while i < self.keys.len()
            invariant
                i <= self.keys@.len(),
                keys@.len() == i as int,
                forall|j: int| 0 <= j < i ==> #[trigger] keys@[j] == self.keys@[j],
            decreases self.keys@.len() - i,
        {
            keys.push(self.keys[i]);
            i = i + 1;
        }
        proof {
            assert(keys@ =~= self.keys@);
        }
        KeySet { keys }
    }
}

} // verus!
