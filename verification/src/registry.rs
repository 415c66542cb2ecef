//! The transaction registry: the single owner of every transaction's
//! canonical record — its lifecycle status, the keys it has locked, the
//! pre-images it must restore on rollback, and the writes it has staged
//! for commit.

use vstd::prelude::*;

use crate::account::AccountError;
use crate::account::AccountState;
use crate::account::TransactionStatus;
use crate::account_map::AccountMap;
use crate::key_set::KeySet;

verus! {

/// The record of one transaction.
///
/// `pre_images[k]` holds the value account `k` had when this transaction
/// first locked `k`; it is written at most once and is the rollback
/// target. `pending_writes[k]` holds the value to publish for `k` on
/// commit; it is overwritten freely. The two are kept strictly apart.
pub struct Transaction {
    pub id: u64,
    pub block: u32,
    pub slot: u32,
    pub status: TransactionStatus,
    pub created_at: u64,
    pub locked_accounts: KeySet,
    pub pre_images: AccountMap,
    pub pending_writes: AccountMap,
}

impl Transaction {
    pub open spec fn wf(self) -> bool {
        self.locked_accounts.wf() && self.pre_images.wf() && self.pending_writes.wf()
    }

    /// `other` carries the same record: equal scalar fields, and the same
    /// contents in all three collections.
    pub open spec fn equivalent(self, other: Transaction) -> bool {
        &&& other.id == self.id
        &&& other.block == self.block
        &&& other.slot == self.slot
        &&& other.status == self.status
        &&& other.created_at == self.created_at
        &&& other.locked_accounts.spec_len() == self.locked_accounts.spec_len()
        &&& forall|k: Seq<u8>|
            #[trigger] other.locked_accounts.spec_contains(k)
                == self.locked_accounts.spec_contains(k)
        &&& forall|k: Seq<u8>| #[trigger] other.pre_images.spec_get(k) == self.pre_images.spec_get(k)
        &&& forall|k: Seq<u8>|
            #[trigger] other.pending_writes.spec_get(k) == self.pending_writes.spec_get(k)
    }

    /// A copy of the whole record.
    pub fn duplicate(&self) -> (r: Self)
        requires
            self.wf(),
        ensures
            r.wf(),
            self.equivalent(r),
    {
        Transaction {
            id: self.id,
            block: self.block,
            slot: self.slot,
            status: self.status,
            created_at: self.created_at,
            locked_accounts: self.locked_accounts.duplicate(),
            pre_images: self.pre_images.duplicate(),
            pending_writes: self.pending_writes.duplicate(),
        }
    }
}

/// All transaction records, keyed by id. Ids start at 1 and are handed out
/// in order, one per `begin`, and are never reused; the record of id `i`
/// sits at position `i - 1`.
pub struct TransactionRegistry {
    txs: Vec<Transaction>,
}

impl TransactionRegistry {
    /// How many transactions have ever been begun.
    pub closed spec fn spec_count(self) -> nat {
        self.txs@.len()
    }

    /// Whether `id` was ever issued.
    pub open spec fn spec_has(self, id: u64) -> bool {
        1 <= id <= self.spec_count()
    }

    /// The current record of transaction `id`.
    pub closed spec fn spec_tx(self, id: u64) -> Transaction {
        self.txs@[id - 1]
    }

    pub closed spec fn wf(self) -> bool {
        forall|i: int|
            0 <= i < self.txs@.len() ==> (#[trigger] self.txs@[i]).id == i + 1
                && self.txs@[i].wf()
    }

    /// Every issued record is well formed and carries its own id.
    pub proof fn lemma_wf_tx(self, id: u64)
        requires
            self.wf(),
            self.spec_has(id),
        ensures
            self.spec_tx(id).wf(),
            self.spec_tx(id).id == id,
    {
        assert(self.txs@[id - 1].id == id);
    }

    /// The position of the record of `id`.
    fn index_of_tx(&self, id: u64) -> (i: usize)
        requires
            self.spec_has(id),
        ensures
            i == id - 1,
            i < self.txs@.len(),
    {
        let n = self.txs.len();
        (id - 1) as usize
    }

    /// An empty registry.
    pub fn new() -> (r: Self)
        ensures
            r.wf(),
            r.spec_count() == 0,
    {
        TransactionRegistry { txs: Vec::new() }
    }

    /// How many transactions have ever been begun.
    pub fn count(&self) -> (n: u64)
        ensures
            n == self.spec_count(),
    {
        self.txs.len() as u64
    }

    pub fn contains(&self, id: u64) -> (b: bool)
        ensures
            b == self.spec_has(id),
    {
        1 <= id && id <= self.txs.len() as u64
    }

    pub fn status_of(&self, id: u64) -> (s: TransactionStatus)
        requires
            self.spec_has(id),
        ensures
            s == self.spec_tx(id).status,
    {
        let i = self.index_of_tx(id);
        self.txs[i].status
    }

    /// Allocates the next id and stores a fresh `Active` record with empty
    /// lock, pre-image, and pending sets, stamped `created_at`.
    pub fn begin(&mut self, block: u32, slot: u32, created_at: u64) -> (id: u64)
        requires
            old(self).wf(),
            old(self).spec_count() < u64::MAX,
        ensures
            final(self).wf(),
            id == old(self).spec_count() + 1,
            final(self).spec_count() == old(self).spec_count() + 1,
            final(self).spec_has(id),
            forall|t: u64|
                old(self).spec_has(t) ==> #[trigger] final(self).spec_tx(t) == old(self).spec_tx(t),
            ({
                let t = final(self).spec_tx(id);
                &&& t.id == id
                &&& t.block == block
                &&& t.slot == slot
                &&& t.status == TransactionStatus::Active
                &&& t.created_at == created_at
                &&& t.wf()
                &&& t.locked_accounts.spec_len() == 0
                &&& forall|k: Seq<u8>| !(#[trigger] t.locked_accounts.spec_contains(k))
                &&& forall|k: Seq<u8>| #[trigger] t.pre_images.spec_get(k) is None
                &&& forall|k: Seq<u8>| !(#[trigger] t.pre_images.spec_has(k))
                &&& forall|k: Seq<u8>| #[trigger] t.pending_writes.spec_get(k) is None
                &&& forall|k: Seq<u8>| !(#[trigger] t.pending_writes.spec_has(k))
            }),
    {
        let id = self.txs.len() as u64 + 1;
        let tx = Transaction {
            id,
            block,
            slot,
            status: TransactionStatus::Active,
            created_at,
            locked_accounts: KeySet::new(),
            pre_images: AccountMap::new(),
            pending_writes: AccountMap::new(),
        };
        self.txs.push(tx);
        id
    }

    /// A copy of the current record of `id`, or `TransactionNotFound`.
    pub fn fetch(&self, id: u64) -> (r: Result<Transaction, AccountError>)
        requires
            self.wf(),
        ensures
            (r is Ok) == self.spec_has(id),
            r matches Ok(t) ==> self.spec_tx(id).equivalent(t) && t.wf(),
            r matches Err(e) ==> e == AccountError::TransactionNotFound,
    {
        if !self.contains(id) {
            return Err(AccountError::TransactionNotFound);
        }
        let i = self.index_of_tx(id);
        Ok(self.txs[i].duplicate())
    }

    /// Stores `state` as the pre-image of `key` — only if none is recorded
    /// yet: the first observation wins and is never clobbered.
    pub fn record_pre_image(&mut self, id: u64, key: [u8; 32], state: AccountState)
        requires
            old(self).wf(),
            old(self).spec_has(id),
        ensures
            final(self).wf(),
            final(self).spec_count() == old(self).spec_count(),
            forall|t: u64|
                old(self).spec_has(t) && t != id ==> #[trigger] final(self).spec_tx(t)
                    == old(self).spec_tx(t),
            ({
                let t0 = old(self).spec_tx(id);
                let t1 = final(self).spec_tx(id);
                &&& t1.id == t0.id
                &&& t1.block == t0.block
                &&& t1.slot == t0.slot
                &&& t1.status == t0.status
                &&& t1.created_at == t0.created_at
                &&& t1.locked_accounts == t0.locked_accounts
                &&& t1.pending_writes == t0.pending_writes
                &&& t1.pre_images.spec_get(key@) == (if t0.pre_images.spec_has(key@) {
                    t0.pre_images.spec_get(key@)
                } else {
                    Some(state@)
                })
                &&& t1.pre_images.spec_has(key@)
                &&& forall|k: Seq<u8>|
                    k != key@ ==> #[trigger] t1.pre_images.spec_get(k)
                        == t0.pre_images.spec_get(k)
                &&& forall|k: Seq<u8>|
                    k != key@ ==> #[trigger] t1.pre_images.spec_has(k)
                        == t0.pre_images.spec_has(k)
            }),
    {
        let i = self.index_of_tx(id);
        let mut tx = self.txs.remove(i);
        tx.pre_images.set_if_absent(key, state);
        self.txs.insert(i, tx);
        proof {
            self.lemma_put_back(*old(self), i as int);
        }
    }

    /// Stores `state` as the pending write of `key`, overwriting any
    /// earlier staged value.
    pub fn stage_write(&mut self, id: u64, key: [u8; 32], state: AccountState)
        requires
            old(self).wf(),
            old(self).spec_has(id),
        ensures
            final(self).wf(),
            final(self).spec_count() == old(self).spec_count(),
            forall|t: u64|
                old(self).spec_has(t) && t != id ==> #[trigger] final(self).spec_tx(t)
                    == old(self).spec_tx(t),
            ({
                let t0 = old(self).spec_tx(id);
                let t1 = final(self).spec_tx(id);
                &&& t1.id == t0.id
                &&& t1.block == t0.block
                &&& t1.slot == t0.slot
                &&& t1.status == t0.status
                &&& t1.created_at == t0.created_at
                &&& t1.locked_accounts == t0.locked_accounts
                &&& t1.pre_images == t0.pre_images
                &&& t1.pending_writes.spec_get(key@) == Some(state@)
                &&& t1.pending_writes.spec_has(key@)
                &&& forall|k: Seq<u8>|
                    k != key@ ==> #[trigger] t1.pending_writes.spec_get(k)
                        == t0.pending_writes.spec_get(k)
                &&& forall|k: Seq<u8>|
                    k != key@ ==> #[trigger] t1.pending_writes.spec_has(k)
                        == t0.pending_writes.spec_has(k)
            }),
    {
        let i = self.index_of_tx(id);
        let mut tx = self.txs.remove(i);
        tx.pending_writes.set(key, state);
        self.txs.insert(i, tx);
        proof {
            self.lemma_put_back(*old(self), i as int);
        }
    }

    /// Adds `key` to the set of accounts this transaction has locked.
    pub fn mark_locked(&mut self, id: u64, key: [u8; 32])
        requires
            old(self).wf(),
            old(self).spec_has(id),
        ensures
            final(self).wf(),
            final(self).spec_count() == old(self).spec_count(),
            forall|t: u64|
                old(self).spec_has(t) && t != id ==> #[trigger] final(self).spec_tx(t)
                    == old(self).spec_tx(t),
            ({
                let t0 = old(self).spec_tx(id);
                let t1 = final(self).spec_tx(id);
                &&& t1.id == t0.id
                &&& t1.block == t0.block
                &&& t1.slot == t0.slot
                &&& t1.status == t0.status
                &&& t1.created_at == t0.created_at
                &&& t1.pre_images == t0.pre_images
                &&& t1.pending_writes == t0.pending_writes
                &&& forall|k: Seq<u8>|
                    #[trigger] t1.locked_accounts.spec_contains(k) == (k == key@
                        || t0.locked_accounts.spec_contains(k))
            }),
    {
        let i = self.index_of_tx(id);
        let mut tx = self.txs.remove(i);
        tx.locked_accounts.insert(key);
        self.txs.insert(i, tx);
        proof {
            self.lemma_put_back(*old(self), i as int);
        }
    }

    /// Moves an `Active` transaction to `new_status`; both possible moves,
    /// to `Committed` and to `Aborted`, are terminal. Fails with
    /// `InvalidTransaction` if the transaction is no longer `Active`.
    pub fn transition(&mut self, id: u64, new_status: TransactionStatus) -> (r: Result<
        (),
        AccountError,
    >)
        requires
            old(self).wf(),
        ensures
            final(self).wf(),
            (r is Ok) == (old(self).spec_has(id) && old(self).spec_tx(id).status
                == TransactionStatus::Active),
            r == Err::<(), AccountError>(AccountError::TransactionNotFound) <==> !old(
                self,
            ).spec_has(id),
            r == Err::<(), AccountError>(AccountError::InvalidTransaction) <==> (old(
                self,
            ).spec_has(id) && old(self).spec_tx(id).status != TransactionStatus::Active),
            r is Err ==> *final(self) == *old(self),
            final(self).spec_count() == old(self).spec_count(),
            forall|t: u64|
                old(self).spec_has(t) && t != id ==> #[trigger] final(self).spec_tx(t)
                    == old(self).spec_tx(t),
            r is Ok ==> ({
                let t0 = old(self).spec_tx(id);
                let t1 = final(self).spec_tx(id);
                &&& t1.id == t0.id
                &&& t1.block == t0.block
                &&& t1.slot == t0.slot
                &&& t1.status == new_status
                &&& t1.created_at == t0.created_at
                &&& t1.locked_accounts == t0.locked_accounts
                &&& t1.pre_images == t0.pre_images
                &&& t1.pending_writes == t0.pending_writes
            }),
    {
        if !self.contains(id) {
            return Err(AccountError::TransactionNotFound);
        }
        let i = self.index_of_tx(id);
        match self.txs[i].status {
            TransactionStatus::Active => {
                let mut tx = self.txs.remove(i);
                tx.status = new_status;
                self.txs.insert(i, tx);
                proof {
                    self.lemma_put_back(*old(self), i as int);
                }
                Ok(())
            },
            _ => Err(AccountError::InvalidTransaction),
        }
    }

    /// How many pending writes transaction `id` has staged.
    pub fn pending_len(&self, id: u64) -> (n: usize)
        requires
            self.spec_has(id),
        ensures
            n == self.spec_tx(id).pending_writes.spec_len(),
    {
        let i = self.index_of_tx(id);
        self.txs[i].pending_writes.len()
    }

    /// A copy of the `i`-th staged write of transaction `id`.
    pub fn pending_entry(&self, id: u64, i: usize) -> (kv: ([u8; 32], AccountState))
        requires
            self.wf(),
            self.spec_has(id),
            i < self.spec_tx(id).pending_writes.spec_len(),
        ensures
            kv.0@ == self.spec_tx(id).pending_writes.spec_key_at(i as int),
            kv.1@ == self.spec_tx(id).pending_writes.spec_value_at(i as int),
            self.spec_tx(id).pending_writes.spec_get(kv.0@) == Some(kv.1@),
    {
        proof {
            self.lemma_wf_tx(id);
        }
        let j = self.index_of_tx(id);
        self.txs[j].pending_writes.entry_at(i)
    }

    /// How many pre-images transaction `id` has recorded.
    pub fn pre_image_len(&self, id: u64) -> (n: usize)
        requires
            self.spec_has(id),
        ensures
            n == self.spec_tx(id).pre_images.spec_len(),
    {
        let i = self.index_of_tx(id);
        self.txs[i].pre_images.len()
    }

    /// A copy of the `i`-th recorded pre-image of transaction `id`.
    pub fn pre_image_entry(&self, id: u64, i: usize) -> (kv: ([u8; 32], AccountState))
        requires
            self.wf(),
            self.spec_has(id),
            i < self.spec_tx(id).pre_images.spec_len(),
        ensures
            kv.0@ == self.spec_tx(id).pre_images.spec_key_at(i as int),
            kv.1@ == self.spec_tx(id).pre_images.spec_value_at(i as int),
            self.spec_tx(id).pre_images.spec_get(kv.0@) == Some(kv.1@),
    {
        proof {
            self.lemma_wf_tx(id);
        }
        let j = self.index_of_tx(id);
        self.txs[j].pre_images.entry_at(i)
    }

    /// How many keys transaction `id` has locked.
    pub fn locked_len(&self, id: u64) -> (n: usize)
        requires
            self.spec_has(id),
        ensures
            n == self.spec_tx(id).locked_accounts.spec_len(),
    {
        let i = self.index_of_tx(id);
        self.txs[i].locked_accounts.len()
    }

    /// The `i`-th key transaction `id` has locked.
    pub fn locked_at(&self, id: u64, i: usize) -> (k: [u8; 32])
        requires
            self.spec_has(id),
            i < self.spec_tx(id).locked_accounts.spec_len(),
        ensures
            k@ == self.spec_tx(id).locked_accounts.spec_at(i as int),
            self.spec_tx(id).locked_accounts.spec_contains(k@),
    {
        let j = self.index_of_tx(id);
        self.txs[j].locked_accounts.at(i)
    }

    /// After removing the record at position `i` and re-inserting its
    /// replacement at the same position, only that position changed.
    proof fn lemma_put_back(self, prev: TransactionRegistry, i: int)
        requires
            prev.wf(),
            0 <= i < prev.txs@.len(),
            self.txs@ == prev.txs@.remove(i).insert(i, self.txs@[i]),
            self.txs@[i].id == prev.txs@[i].id,
            self.txs@[i].wf(),
        ensures
            self.wf(),
            self.spec_count() == prev.spec_count(),
            forall|t: u64|
                prev.spec_has(t) && t != i + 1 ==> #[trigger] self.spec_tx(t) == prev.spec_tx(t),
    {
        assert(self.txs@ =~= prev.txs@.update(i, self.txs@[i]));
        assert forall|j: int| 0 <= j < self.txs@.len() implies (#[trigger] self.txs@[j]).id == j + 1
            && self.txs@[j].wf() by {
            if j != i {
                assert(self.txs@[j] == prev.txs@[j]);
            }
        }
    }
}

} // verus!
