//! A map from account key to account state, kept as a vector of pairs
//! without duplicate keys. It serves three roles: the committed account
//! table, and each transaction's pre-images and pending writes.

use vstd::prelude::*;

use crate::account::AccountState;
use crate::account::AccountView;
use crate::account::keys_equal;

verus! {

/// A map from 32-byte account key to `AccountState`.
pub struct AccountMap {
    entries: Vec<([u8; 32], AccountState)>,
}

impl AccountMap {
    /// No two entries share a key.
    pub closed spec fn wf(self) -> bool {
        forall|i: int, j: int|
            0 <= i < j < self.entries@.len() ==> (self.entries@[i].0)@ != (self.entries@[j].0)@
    }

    pub closed spec fn spec_len(self) -> nat {
        self.entries@.len()
    }

    /// The key of the entry at position `i`.
    pub closed spec fn spec_key_at(self, i: int) -> Seq<u8> {
        (self.entries@[i].0)@
    }

    /// The value of the entry at position `i`.
    pub closed spec fn spec_value_at(self, i: int) -> AccountView {
        (self.entries@[i].1)@
    }

    pub closed spec fn spec_has(self, k: Seq<u8>) -> bool {
        exists|i: int| 0 <= i < self.entries@.len() && (#[trigger] self.entries@[i]).0@ == k
    }

    spec fn spec_index_of(self, k: Seq<u8>) -> int {
        choose|i: int| 0 <= i < self.entries@.len() && (#[trigger] self.entries@[i]).0@ == k
    }

    /// The value stored under `k`, if any.
    pub closed spec fn spec_get(self, k: Seq<u8>) -> Option<AccountView> {
        if self.spec_has(k) {
            Some((self.entries@[self.spec_index_of(k)].1)@)
        } else {
            None
        }
    }

    /// A key is present exactly when some position carries it; each
    /// position's key maps to that position's value; positions never repeat
    /// a key.
    pub proof fn lemma_model(self)
        requires
            self.wf(),
        ensures
            forall|k: Seq<u8>|
                #[trigger] self.spec_has(k) <==> exists|i: int|
                    0 <= i < self.spec_len() && self.spec_key_at(i) == k,
            forall|i: int|
                0 <= i < self.spec_len() ==> self.spec_get(#[trigger] self.spec_key_at(i))
                    == Some(self.spec_value_at(i)),
            forall|k: Seq<u8>| self.spec_has(k) == (#[trigger] self.spec_get(k) is Some),
            forall|i: int, j: int|
                0 <= i < j < self.spec_len() ==> self.spec_key_at(i) != self.spec_key_at(j),
    {
        assert forall|k: Seq<u8>| #[trigger] self.spec_has(k) implies exists|i: int|
            0 <= i < self.spec_len() && self.spec_key_at(i) == k by {
            let i = choose|i: int|
                0 <= i < self.entries@.len() && (#[trigger] self.entries@[i]).0@ == k;
            assert(self.spec_key_at(i) == k);
        }
        assert forall|k: Seq<u8>|
            (exists|i: int| 0 <= i < self.spec_len() && self.spec_key_at(i) == k) implies
            self.spec_has(k) by {
            let i = choose|i: int| 0 <= i < self.spec_len() && self.spec_key_at(i) == k;
            assert((self.entries@[i]).0@ == k);
        }
        assert forall|i: int| 0 <= i < self.spec_len() implies self.spec_get(
            #[trigger] self.spec_key_at(i),
        ) == Some(self.spec_value_at(i)) by {
            let k = self.spec_key_at(i);
            assert((self.entries@[i]).0@ == k);
            let w = self.spec_index_of(k);
            assert(w == i);
        }
    }

    /// An empty map.
    pub fn new() -> (r: Self)
        ensures
            r.wf(),
            r.spec_len() == 0,
            forall|k: Seq<u8>| r.spec_get(k) is None,
            forall|k: Seq<u8>| !r.spec_has(k),
    {
        AccountMap { entries: Vec::new() }
    }

    pub fn len(&self) -> (n: usize)
        ensures
            n == self.spec_len(),
    {
        self.entries.len()
    }

    /// A copy of the entry at position `i`.
    pub fn entry_at(&self, i: usize) -> (kv: ([u8; 32], AccountState))
        requires
            self.wf(),
            i < self.spec_len(),
        ensures
            kv.0@ == self.spec_key_at(i as int),
            kv.1@ == self.spec_value_at(i as int),
            self.spec_get(kv.0@) == Some(kv.1@),
    {
        proof {
            self.lemma_model();
        }
        let kv = &self.entries[i];
        (kv.0, kv.1.clone())
    }

    /// Searches for the entry of `key`.
    fn position_of(&self, key: &[u8; 32]) -> (r: Option<usize>)
        requires
            self.wf(),
        ensures
            match r {
                Some(i) => i < self.entries@.len() && (self.entries@[i as int].0)@ == key@
                    && self.spec_get(key@) == Some((self.entries@[i as int].1)@),
                None => self.spec_get(key@) is None && !self.spec_has(key@),
            },
    {
        let mut i: usize = 0;
        while i < self.entries.len()
            invariant
                self.wf(),
                i <= self.entries@.len(),
                forall|j: int| 0 <= j < i ==> (#[trigger] self.entries@[j]).0@ != key@,
            decreases self.entries@.len() - i,
        {
            if keys_equal(&self.entries[i].0, key) {
                proof {
                    assert((self.entries@[i as int]).0@ == key@);
                    let w = self.spec_index_of(key@);
                    assert(w == i as int);
                }
                return Some(i);
            }
            i = i + 1;
        }
        None
    }

    /// A borrow of the value stored under `key`, if any.
    pub fn get(&self, key: &[u8; 32]) -> (r: Option<&AccountState>)
        requires
            self.wf(),
        ensures
            match r {
                Some(a) => self.spec_get(key@) == Some(a@),
                None => self.spec_get(key@) is None,
            },
            (r is Some) == self.spec_has(key@),
    {
        match self.position_of(key) {
            Some(i) => Some(&self.entries[i].1),
            None => None,
        }
    }

    /// Stores `value` under `key`, inserting or overwriting.
    pub fn set(&mut self, key: [u8; 32], value: AccountState)
        requires
            old(self).wf(),
        ensures
            final(self).wf(),
            final(self).spec_get(key@) == Some(value@),
            final(self).spec_has(key@),
            forall|k: Seq<u8>|
                k != key@ ==> #[trigger] final(self).spec_get(k) == old(self).spec_get(k),
            forall|k: Seq<u8>|
                k != key@ ==> #[trigger] final(self).spec_has(k) == old(self).spec_has(k),
            final(self).spec_len() == if old(self).spec_has(key@) {
                old(self).spec_len()
            } else {
                old(self).spec_len() + 1
            },
    {
        match self.position_of(&key) {
            Some(i) => {
                self.entries.set(i, (key, value));
                proof {
                    self.lemma_set_frame(*old(self), key, i as int);
                }
            },
            None => {
                self.entries.push((key, value));
                proof {
                    self.lemma_push_frame(*old(self), key);
                }
            },
        }
    }

    /// Stores `value` under `key` only if `key` is absent; an existing
    /// entry is never overwritten.
    pub fn set_if_absent(&mut self, key: [u8; 32], value: AccountState)
        requires
            old(self).wf(),
        ensures
            final(self).wf(),
            final(self).spec_get(key@) == if old(self).spec_has(key@) {
                old(self).spec_get(key@)
            } else {
                Some(value@)
            },
            final(self).spec_has(key@),
            forall|k: Seq<u8>|
                k != key@ ==> #[trigger] final(self).spec_get(k) == old(self).spec_get(k),
            forall|k: Seq<u8>|
                k != key@ ==> #[trigger] final(self).spec_has(k) == old(self).spec_has(k),
    {
        match self.position_of(&key) {
            Some(_) => {},
            None => {
                self.entries.push((key, value));
                proof {
                    self.lemma_push_frame(*old(self), key);
                }
            },
        }
    }

    /// After `entries.set(i, (key, value))` where position `i` already
    /// carried `key`: lookups of `key` find the new value, all others are
    /// untouched.
    proof fn lemma_set_frame(self, prev: AccountMap, key: [u8; 32], i: int)
        requires
            prev.wf(),
            0 <= i < prev.entries@.len(),
            (prev.entries@[i].0)@ == key@,
            self.entries@ == prev.entries@.update(i, (key, self.entries@[i].1)),
        ensures
            self.wf(),
            self.spec_get(key@) == Some((self.entries@[i].1)@),
            forall|k: Seq<u8>| k != key@ ==> #[trigger] self.spec_get(k) == prev.spec_get(k),
            forall|k: Seq<u8>| k != key@ ==> #[trigger] self.spec_has(k) == prev.spec_has(k),
            self.spec_len() == prev.spec_len(),
    {
        assert forall|a: int, b: int| 0 <= a < b < self.entries@.len() implies (self.entries@[a].0)@
            != (self.entries@[b].0)@ by {
            assert((self.entries@[a].0)@ == (prev.entries@[a].0)@);
            assert((self.entries@[b].0)@ == (prev.entries@[b].0)@);
        }
        assert((self.entries@[i]).0@ == key@);
        assert(self.spec_index_of(key@) == i);
        assert forall|k: Seq<u8>| k != key@ implies #[trigger] self.spec_get(k)
            == prev.spec_get(k) by {
            if self.spec_has(k) {
                let a = choose|a: int|
                    0 <= a < self.entries@.len() && (#[trigger] self.entries@[a]).0@ == k;
                assert(a != i);
                assert((prev.entries@[a]).0@ == k);
                assert(prev.spec_index_of(k) == a);
                assert(self.spec_index_of(k) == a);
            }
            if prev.spec_has(k) {
                let a = choose|a: int|
                    0 <= a < prev.entries@.len() && (#[trigger] prev.entries@[a]).0@ == k;
                assert(a != i);
                assert((self.entries@[a]).0@ == k);
            }
        }
        assert forall|k: Seq<u8>| k != key@ implies #[trigger] self.spec_has(k)
            == prev.spec_has(k) by {
            assert(self.spec_get(k) == prev.spec_get(k));
        }
    }

    /// After `entries.push((key, value))` where `key` was absent: lookups
    /// of `key` find the new value, all others are untouched.
    proof fn lemma_push_frame(self, prev: AccountMap, key: [u8; 32])
        requires
            prev.wf(),
            !prev.spec_has(key@),
            self.entries@ == prev.entries@.push(
                (key, self.entries@[self.entries@.len() - 1].1),
            ),
        ensures
            self.wf(),
            self.spec_get(key@) == Some((self.entries@[self.entries@.len() - 1].1)@),
            forall|k: Seq<u8>| k != key@ ==> #[trigger] self.spec_get(k) == prev.spec_get(k),
            forall|k: Seq<u8>| k != key@ ==> #[trigger] self.spec_has(k) == prev.spec_has(k),
            self.spec_len() == prev.spec_len() + 1,
    {
        let n = self.entries@.len() - 1;
        assert((self.entries@[n]).0@ == key@);
        assert forall|j: int| 0 <= j < n implies (#[trigger] self.entries@[j]).0@ != key@ by {
            assert(self.entries@[j] == prev.entries@[j]);
            assert((prev.entries@[j]).0@ != key@);
        }
        assert forall|a: int, b: int| 0 <= a < b < self.entries@.len() implies (self.entries@[a].0)@
            != (self.entries@[b].0)@ by {
            if b < n {
                assert((self.entries@[a].0)@ == (prev.entries@[a].0)@);
                assert((self.entries@[b].0)@ == (prev.entries@[b].0)@);
            }
        }
        assert(self.spec_index_of(key@) == n);
        assert forall|k: Seq<u8>| k != key@ implies #[trigger] self.spec_get(k)
            == prev.spec_get(k) by {
            if self.spec_has(k) {
                let a = choose|a: int|
                    0 <= a < self.entries@.len() && (#[trigger] self.entries@[a]).0@ == k;
                assert(a < n);
                assert((prev.entries@[a]).0@ == k);
                assert(prev.spec_index_of(k) == a);
                assert(self.spec_index_of(k) == a);
            }
            if prev.spec_has(k) {
                let a = choose|a: int|
                    0 <= a < prev.entries@.len() && (#[trigger] prev.entries@[a]).0@ == k;
                assert((self.entries@[a]).0@ == k);
            }
        }
        assert forall|k: Seq<u8>| k != key@ implies #[trigger] self.spec_has(k)
            == prev.spec_has(k) by {
            assert(self.spec_get(k) == prev.spec_get(k));
        }
    }

    /// A copy of the whole map: same keys, same values, entry for entry.
    pub fn duplicate(&self) -> (r: Self)
        requires
            self.wf(),
        ensures
            r.wf(),
            r.spec_len() == self.spec_len(),
            forall|k: Seq<u8>| #[trigger] r.spec_get(k) == self.spec_get(k),
            forall|k: Seq<u8>| #[trigger] r.spec_has(k) == self.spec_has(k),
            forall|i: int| 0 <= i < r.spec_len() ==> #[trigger] r.spec_key_at(i) == self.spec_key_at(i),
            forall|i: int|
                0 <= i < r.spec_len() ==> #[trigger] r.spec_value_at(i) == self.spec_value_at(i),
    {
        let mut entries: Vec<([u8; 32], AccountState)> = Vec::new();
        let mut i: usize = 0;
        while i < self.entries.len()
            invariant
                self.wf(),
                i <= self.entries@.len(),
                entries@.len() == i as int,
                forall|j: int|
                    0 <= j < i ==> (#[trigger] entries@[j]).0@ == (self.entries@[j].0)@
                        && (entries@[j]).1@ == (self.entries@[j].1)@,
            decreases self.entries@.len() - i,
        {
            let kv = &self.entries[i];
            entries.push((kv.0, kv.1.clone()));
            i = i + 1;
        }
        let r = AccountMap { entries };
        proof {
            assert forall|a: int, b: int| 0 <= a < b < r.entries@.len() implies (r.entries@[a].0)@
                != (r.entries@[b].0)@ by {
                assert((r.entries@[a].0)@ == (self.entries@[a].0)@);
                assert((r.entries@[b].0)@ == (self.entries@[b].0)@);
            }
            assert forall|k: Seq<u8>| #[trigger] r.spec_has(k) == self.spec_has(k)
                && r.spec_get(k) == self.spec_get(k) by {
                if r.spec_has(k) {
                    let a = choose|a: int|
                        0 <= a < r.entries@.len() && (#[trigger] r.entries@[a]).0@ == k;
                    assert((self.entries@[a]).0@ == k);
                    assert(self.spec_index_of(k) == a);
                    assert(r.spec_index_of(k) == a);
                }
                if self.spec_has(k) {
                    let a = choose|a: int|
                        0 <= a < self.entries@.len() && (#[trigger] self.entries@[a]).0@ == k;
                    assert((r.entries@[a]).0@ == k);
                }
            }
        }
        r
    }
}

} // verus!
