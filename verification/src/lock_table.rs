//! The lock table: which transaction, if any, currently has each account
//! key checked out for writing. Absence of an entry means the key is free.

use vstd::prelude::*;

use crate::account::keys_equal;

verus! {

/// A map from account key to the id of the transaction holding it, kept as
/// a vector of pairs without duplicate keys.
pub struct LockTable {
    entries: Vec<([u8; 32], u64)>,
}

impl LockTable {
    /// No two entries share a key.
    pub closed spec fn wf(self) -> bool {
        forall|i: int, j: int|
            0 <= i < j < self.entries@.len() ==> (self.entries@[i].0)@ != (self.entries@[j].0)@
    }

    spec fn spec_has(self, k: Seq<u8>) -> bool {
        exists|i: int| 0 <= i < self.entries@.len() && (#[trigger] self.entries@[i]).0@ == k
    }

    spec fn spec_index_of(self, k: Seq<u8>) -> int {
        choose|i: int| 0 <= i < self.entries@.len() && (#[trigger] self.entries@[i]).0@ == k
    }

    /// The transaction holding `k`, or `None` if `k` is free.
    pub closed spec fn spec_holder(self, k: Seq<u8>) -> Option<u64> {
        if self.spec_has(k) {
            Some(self.entries@[self.spec_index_of(k)].1)
        } else {
            None
        }
    }

    /// An empty table: every key is free.
    pub fn new() -> (r: Self)
        ensures
            r.wf(),
            forall|k: Seq<u8>| r.spec_holder(k) is None,
    {
        LockTable { entries: Vec::new() }
    }

    /// Searches for the entry of `key`.
    fn position_of(&self, key: &[u8; 32]) -> (r: Option<usize>)
        requires
            self.wf(),
        ensures
            match r {
                Some(i) => i < self.entries@.len() && (self.entries@[i as int].0)@ == key@
                    && self.spec_holder(key@) == Some(self.entries@[i as int].1),
                None => self.spec_holder(key@) is None,
            },
    {
        let mut i: usize = 0;
        while i < self.entries.len()
            invariant
                self.wf(),
                i <= self.entries@.len(),
                forall|j: int| 0 <= j < i ==> (#[trigger] self.entries@[j]).0@ != key@,
            decreases self.entries@.len() - i,
        {
            if keys_equal(&self.entries[i].0, key) {
                proof {
                    assert((self.entries@[i as int]).0@ == key@);
                    let w = self.spec_index_of(key@);
                    assert(w == i as int);
                }
                return Some(i);
            }
            i = i + 1;
        }
        None
    }

    /// The transaction currently holding `key`, if any.
    pub fn holder(&self, key: &[u8; 32]) -> (r: Option<u64>)
        requires
            self.wf(),
        ensures
            r == self.spec_holder(key@),
    {
        match self.position_of(key) {
            Some(i) => Some(self.entries[i].1),
            None => None,
        }
    }

    /// Records `tx_id` as the holder of `key` if `key` is free or already
    /// held by `tx_id` (re-entry by the same transaction is idempotent);
    /// refuses, changing nothing, if another transaction holds it.
    pub fn try_acquire(&mut self, key: [u8; 32], tx_id: u64) -> (ok: bool)
        requires
            old(self).wf(),
        ensures
            final(self).wf(),
            ok == (old(self).spec_holder(key@) is None
                || old(self).spec_holder(key@) == Some(tx_id)),
            ok ==> final(self).spec_holder(key@) == Some(tx_id),
            !ok ==> *final(self) == *old(self),
            forall|k: Seq<u8>|
                k != key@ ==> #[trigger] final(self).spec_holder(k) == old(self).spec_holder(k),
    {
        match self.position_of(&key) {
            Some(i) => self.entries[i].1 == tx_id,
            None => {
                self.entries.push((key, tx_id));
                proof {
                    let n = self.entries@.len() - 1;
                    assert((self.entries@[n]).0@ == key@);
                    assert forall|j: int| 0 <= j < n implies (#[trigger] self.entries@[j]).0@
                        != key@ by {
                        assert(self.entries@[j] == old(self).entries@[j]);
                    }
                    assert(self.spec_index_of(key@) == n);
                    assert forall|k: Seq<u8>| k != key@ implies #[trigger] self.spec_holder(k)
                        == old(self).spec_holder(k) by {
                        if self.spec_has(k) {
                            let i = choose|i: int|
                                0 <= i < self.entries@.len() && (#[trigger] self.entries@[i]).0@
                                    == k;
                            assert(i < n);
                            assert((old(self).entries@[i]).0@ == k);
                            assert(old(self).spec_index_of(k) == i);
                            assert(self.spec_index_of(k) == i);
                        }
                        if old(self).spec_has(k) {
                            let i = choose|i: int|
                                0 <= i < old(self).entries@.len()
                                    && (#[trigger] old(self).entries@[i]).0@ == k;
                            assert((self.entries@[i]).0@ == k);
                        }
                    }
                }
                true
            },
        }
    }

    /// Frees `key` unconditionally; every other key keeps its holder.
    pub fn release(&mut self, key: &[u8; 32])
        requires
            old(self).wf(),
        ensures
            final(self).wf(),
            final(self).spec_holder(key@) is None,
            forall|k: Seq<u8>|
                k != key@ ==> #[trigger] final(self).spec_holder(k) == old(self).spec_holder(k),
    {
        match self.position_of(key) {
            Some(i) => {
                self.entries.remove(i);
                proof {
                    let n = old(self).entries@.len();
                    assert forall|j: int| 0 <= j < n - 1 implies #[trigger] self.entries@[j]
                        == (if j < i as int {
                        old(self).entries@[j]
                    } else {
                        old(self).entries@[j + 1]
                    }) by {}
                    assert forall|k: Seq<u8>| k != key@ implies #[trigger] self.spec_holder(k)
                        == old(self).spec_holder(k) by {
                        if self.spec_has(k) {
                            let a = choose|a: int|
                                0 <= a < self.entries@.len() && (#[trigger] self.entries@[a]).0@
                                    == k;
                            let b = if a < i as int { a } else { a + 1 };
                            assert((old(self).entries@[b]).0@ == k);
                            assert(old(self).spec_index_of(k) == b);
                            assert(self.spec_index_of(k) == a);
                        }
                        if old(self).spec_has(k) {
                            let b = choose|b: int|
                                0 <= b < old(self).entries@.len()
                                    && (#[trigger] old(self).entries@[b]).0@ == k;
                            assert(b != i as int);
                            let a = if b < i as int { b } else { b - 1 };
                            assert((self.entries@[a]).0@ == k);
                        }
                    }
                    if self.spec_has(key@) {
                        let a = choose|a: int|
                            0 <= a < self.entries@.len() && (#[trigger] self.entries@[a]).0@
                                == key@;
                        let b = if a < i as int { a } else { a + 1 };
                        assert((old(self).entries@[b]).0@ == key@);
                        assert(b != i as int);
                        assert((old(self).entries@[i as int]).0@ == key@);
                    }
                }
            },
            None => {},
        }
    }
}

} // verus!
