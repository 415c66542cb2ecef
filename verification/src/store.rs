//! The store facade: begin, commit, and roll back transactions, hand out
//! write guards under pessimistic locking, read committed state, and seed
//! accounts.
//!
//! A lock is owned by the transaction, not by the guard: releasing a guard
//! only stages its value; every lock is freed when its transaction commits
//! or rolls back.

use vstd::prelude::*;

use crate::account::AccountError;
use crate::account::AccountState;
use crate::account::AccountView;
use crate::account::TransactionStatus;
use crate::account::zero_account;
use crate::account::zero_account_view;
use crate::account_map::AccountMap;
use crate::lock_table::LockTable;
use crate::registry::Transaction;
use crate::registry::TransactionRegistry;

verus! {

/// Relies on std::time::SystemTime: whole seconds between the Unix epoch
/// and now, as the system clock reports them. Nothing is assumed of the
/// value; it only stamps new transaction records.
#[verifier::external_body]
fn unix_now_seconds() -> u64 {
    match std::time::SystemTime::now().duration_since(std::time::UNIX_EPOCH) {
        Ok(d) => d.as_secs(),
        Err(_) => 0,
    }
}

/// Exclusive write access to one account within one transaction. The guard
/// holds a private copy of the account; every mutation acts on that copy
/// alone, and nothing reaches shared state until the guard is released and
/// the transaction commits.
pub struct AccountWriteGuard {
    pubkey: [u8; 32],
    transaction_id: u64,
    account: AccountState,
}

impl View for AccountWriteGuard {
    type V = AccountView;

    /// The guard's buffered account value.
    closed spec fn view(&self) -> AccountView {
        self.account@
    }
}

impl AccountWriteGuard {
    /// The key this guard was issued for.
    pub closed spec fn spec_key(self) -> Seq<u8> {
        self.pubkey@
    }

    /// The transaction this guard belongs to.
    pub closed spec fn spec_tx_id(self) -> u64 {
        self.transaction_id
    }

    pub fn key(&self) -> (k: [u8; 32])
        ensures
            k@ == self.spec_key(),
    {
        self.pubkey
    }

    pub fn transaction_id(&self) -> (t: u64)
        ensures
            t == self.spec_tx_id(),
    {
        self.transaction_id
    }

    pub fn get_lamports(&self) -> (r: u64)
        ensures
            r == self@.lamports,
    {
        self.account.lamports
    }

    pub fn set_lamports(&mut self, lamports: u64)
        ensures
            final(self)@ == (AccountView { lamports, ..old(self)@ }),
            final(self).spec_key() == old(self).spec_key(),
            final(self).spec_tx_id() == old(self).spec_tx_id(),
    {
        self.account.lamports = lamports;
    }

    pub fn get_data(&self) -> (r: &[u8])
        ensures
            r@ == self@.data,
    {
        self.account.data.as_slice()
    }

    pub fn set_data(&mut self, data: Vec<u8>)
        ensures
            final(self)@ == (AccountView { data: data@, ..old(self)@ }),
            final(self).spec_key() == old(self).spec_key(),
            final(self).spec_tx_id() == old(self).spec_tx_id(),
    {
        self.account.data = data;
    }

    pub fn get_owner(&self) -> (r: [u8; 32])
        ensures
            r@ == self@.owner,
    {
        self.account.owner
    }

    pub fn set_owner(&mut self, owner: [u8; 32])
        ensures
            final(self)@ == (AccountView { owner: owner@, ..old(self)@ }),
            final(self).spec_key() == old(self).spec_key(),
            final(self).spec_tx_id() == old(self).spec_tx_id(),
    {
        self.account.owner = owner;
    }

    /// Debits `amount` from the buffered balance. Fails with
    /// `InsufficientFunds`, leaving the buffer untouched, exactly when
    /// `amount` exceeds the buffered balance.
    pub fn transfer_lamports(&mut self, amount: u64) -> (r: Result<(), AccountError>)
        ensures
            (r is Ok) == (amount <= old(self)@.lamports),
            r is Ok ==> final(self)@ == (AccountView {
                lamports: (old(self)@.lamports - amount) as u64,
                ..old(self)@
            }),
            r is Err ==> r == Err::<(), AccountError>(AccountError::InsufficientFunds)
                && *final(self) == *old(self),
            final(self).spec_key() == old(self).spec_key(),
            final(self).spec_tx_id() == old(self).spec_tx_id(),
    {
        if self.account.lamports < amount {
            return Err(AccountError::InsufficientFunds);
        }
        self.account.lamports = self.account.lamports - amount;
        Ok(())
    }

    /// Credits `amount` to the buffered balance, saturating at `u64::MAX`
    /// instead of overflowing.
    pub fn add_lamports(&mut self, amount: u64)
        ensures
            final(self)@ == (AccountView {
                lamports: if old(self)@.lamports + amount > u64::MAX {
                    u64::MAX
                } else {
                    (old(self)@.lamports + amount) as u64
                },
                ..old(self)@
            }),
            final(self).spec_key() == old(self).spec_key(),
            final(self).spec_tx_id() == old(self).spec_tx_id(),
    {
        if amount > u64::MAX - self.account.lamports {
            self.account.lamports = u64::MAX;
        } else {
            self.account.lamports = self.account.lamports + amount;
        }
    }
}

/// The store: the committed account table, the lock table, and the
/// transaction registry, coordinated behind one interface.
pub struct AccountsDb {
    accounts: AccountMap,
    locks: LockTable,
    registry: TransactionRegistry,
}

impl AccountsDb {
    /// The committed state of account `k`, if the account exists.
    pub closed spec fn spec_account(self, k: Seq<u8>) -> Option<AccountView> {
        self.accounts.spec_get(k)
    }

    /// The transaction currently holding the write lock on `k`, if any.
    pub closed spec fn spec_holder(self, k: Seq<u8>) -> Option<u64> {
        self.locks.spec_holder(k)
    }

    /// How many transactions have ever been begun.
    pub closed spec fn spec_tx_count(self) -> nat {
        self.registry.spec_count()
    }

    /// Whether transaction `id` was ever issued.
    pub open spec fn spec_has_tx(self, id: u64) -> bool {
        1 <= id <= self.spec_tx_count()
    }

    /// The current registry record of transaction `id`.
    pub closed spec fn spec_tx(self, id: u64) -> Transaction {
        self.registry.spec_tx(id)
    }

    /// Whether transaction `id` exists and is still `Active`.
    pub open spec fn spec_tx_active(self, id: u64) -> bool {
        self.spec_has_tx(id) && self.spec_tx(id).status == TransactionStatus::Active
    }

    /// The system invariant: the three tables are well formed, and the
    /// lock table and the registry agree — `k` is held by `t` exactly when
    /// `t` is an `Active` transaction that has `k` among its locked
    /// accounts.
    pub closed spec fn wf(self) -> bool {
        &&& self.accounts.wf()
        &&& self.locks.wf()
        &&& self.registry.wf()
        &&& forall|k: Seq<u8>|
            (#[trigger] self.locks.spec_holder(k)) matches Some(t)
                ==> self.registry.spec_has(t) && self.registry.spec_tx(t).status
                == TransactionStatus::Active && self.registry.spec_tx(t).locked_accounts
                .spec_contains(k)
        &&& forall|t: u64, k: Seq<u8>|
            self.registry.spec_has(t) && self.registry.spec_tx(t).status
                == TransactionStatus::Active && (#[trigger] self.registry.spec_tx(
                t,
            ).locked_accounts.spec_contains(k)) ==> self.locks.spec_holder(k) == Some(t)
    }

    /// If some transaction holds the lock on `k`, that transaction exists,
    /// is `Active`, and counts `k` among its locked accounts.
    pub proof fn lemma_holder_is_active_owner(self, k: Seq<u8>, t: u64)
        requires
            self.wf(),
            self.spec_holder(k) == Some(t),
        ensures
            self.spec_tx_active(t),
            self.spec_tx(t).locked_accounts.spec_contains(k),
    {
    }

    /// If an `Active` transaction counts `k` among its locked accounts, it
    /// holds the lock on `k`.
    pub proof fn lemma_active_owner_holds(self, t: u64, k: Seq<u8>)
        requires
            self.wf(),
            self.spec_tx_active(t),
            self.spec_tx(t).locked_accounts.spec_contains(k),
        ensures
            self.spec_holder(k) == Some(t),
    {
    }

    /// An empty store: no accounts, no locks, no transactions.
    pub fn new() -> (db: Self)
        ensures
            db.wf(),
            db.spec_tx_count() == 0,
            forall|k: Seq<u8>| #[trigger] db.spec_account(k) is None,
            forall|k: Seq<u8>| #[trigger] db.spec_holder(k) is None,
    {
        AccountsDb {
            accounts: AccountMap::new(),
            locks: LockTable::new(),
            registry: TransactionRegistry::new(),
        }
    }

    /// How many transactions have ever been begun; the next `begin` hands
    /// out this number plus one.
    pub fn transaction_count(&self) -> (n: u64)
        ensures
            n == self.spec_tx_count(),
    {
        self.registry.count()
    }

    /// Inserts or overwrites the committed state of `pubkey`. For initial
    /// seeding and administrative fixes, outside any transaction.
    pub fn create_account(&mut self, pubkey: [u8; 32], account: AccountState)
        requires
            old(self).wf(),
        ensures
            final(self).wf(),
            final(self).spec_account(pubkey@) == Some(account@),
            forall|k: Seq<u8>|
                k != pubkey@ ==> #[trigger] final(self).spec_account(k) == old(self).spec_account(
                    k,
                ),
            forall|k: Seq<u8>| #[trigger] final(self).spec_holder(k) == old(self).spec_holder(k),
            final(self).spec_tx_count() == old(self).spec_tx_count(),
            forall|t: u64|
                old(self).spec_has_tx(t) ==> #[trigger] final(self).spec_tx(t) == old(self).spec_tx(
                    t,
                ),
    {
        self.accounts.set(pubkey, account);
    }

    /// The committed state of `pubkey`, or `None` if the account does not
    /// exist. A point read, independent of any transaction.
    pub fn get_account(&self, pubkey: &[u8; 32]) -> (r: Option<AccountState>)
        requires
            self.wf(),
        ensures
            match r {
                Some(a) => self.spec_account(pubkey@) == Some(a@),
                None => self.spec_account(pubkey@) is None,
            },
    {
        match self.accounts.get(pubkey) {
            Some(a) => Some(a.clone()),
            None => None,
        }
    }

    /// A copy of the current registry record of `tx_id`, or
    /// `TransactionNotFound`.
    pub fn get_transaction(&self, tx_id: u64) -> (r: Result<Transaction, AccountError>)
        requires
            self.wf(),
        ensures
            (r is Ok) == self.spec_has_tx(tx_id),
            r matches Ok(t) ==> self.spec_tx(tx_id).equivalent(t) && t.wf(),
            r matches Err(e) ==> e == AccountError::TransactionNotFound,
    {
        self.registry.fetch(tx_id)
    }

    /// Begins a transaction: allocates the next id and registers a fresh
    /// `Active` record with empty lock, pre-image, and pending sets,
    /// stamped with the current time.
    pub fn begin_transaction(&mut self, block: u32, slot: u32) -> (id: u64)
        requires
            old(self).wf(),
            old(self).spec_tx_count() < u64::MAX,
        ensures
            final(self).wf(),
            id == old(self).spec_tx_count() + 1,
            final(self).spec_tx_count() == old(self).spec_tx_count() + 1,
            final(self).spec_tx_active(id),
            ({
                let t = final(self).spec_tx(id);
                &&& t.id == id
                &&& t.block == block
                &&& t.slot == slot
                &&& t.status == TransactionStatus::Active
                &&& forall|k: Seq<u8>| !(#[trigger] t.locked_accounts.spec_contains(k))
                &&& forall|k: Seq<u8>| !(#[trigger] t.pre_images.spec_has(k))
                &&& forall|k: Seq<u8>| #[trigger] t.pre_images.spec_get(k) is None
                &&& forall|k: Seq<u8>| !(#[trigger] t.pending_writes.spec_has(k))
                &&& forall|k: Seq<u8>| #[trigger] t.pending_writes.spec_get(k) is None
            }),
            forall|k: Seq<u8>| #[trigger] final(self).spec_account(k) == old(self).spec_account(k),
            forall|k: Seq<u8>| #[trigger] final(self).spec_holder(k) == old(self).spec_holder(k),
            forall|t: u64|
                old(self).spec_has_tx(t) ==> #[trigger] final(self).spec_tx(t) == old(self).spec_tx(
                    t,
                ),
    {
        let created_at = unix_now_seconds();
        let id = self.registry.begin(block, slot, created_at);
        proof {
            assert forall|k: Seq<u8>|
                ((#[trigger] self.locks.spec_holder(k)) matches Some(t)
                    ==> self.registry.spec_has(t) && self.registry.spec_tx(t).status
                    == TransactionStatus::Active && self.registry.spec_tx(t).locked_accounts
                    .spec_contains(k)) by {
                if self.locks.spec_holder(k) is Some {
                    let t = self.locks.spec_holder(k)->Some_0;
                    assert(old(self).locks.spec_holder(k) == Some(t));
                    assert(old(self).registry.spec_has(t));
                }
            }
            assert forall|t: u64, k: Seq<u8>|
                self.registry.spec_has(t) && self.registry.spec_tx(t).status
                    == TransactionStatus::Active && (#[trigger] self.registry.spec_tx(
                    t,
                ).locked_accounts.spec_contains(k)) implies self.locks.spec_holder(k) == Some(
                t,
            ) by {
                if t != id {
                    assert(old(self).registry.spec_has(t));
                    assert(old(self).registry.spec_tx(t) == self.registry.spec_tx(t));
                }
            }
        }
        id
    }
    /// Acquires a write guard for `pubkey` under transaction `tx_id`.
    ///
    /// Checks, in order: the transaction must exist
    /// (`TransactionNotFound`), must still be `Active`
    /// (`InvalidTransaction`), and `pubkey` must not be locked by another
    /// transaction (`AccountLocked`; re-entry by the same transaction is
    /// allowed). On success the lock is taken, the observed committed
    /// value — the zero account if `pubkey` does not exist — is recorded
    /// as the pre-image if this transaction has none for `pubkey` yet, the
    /// key is marked locked, and the guard holds a private copy of the
    /// observed value. On failure nothing changes.
    pub fn load_account_for_write(&mut self, pubkey: &[u8; 32], tx_id: u64) -> (r: Result<
        AccountWriteGuard,
        AccountError,
    >)
        requires
            old(self).wf(),
        ensures
            final(self).wf(),
            (r is Ok) == (old(self).spec_tx_active(tx_id) && !acquire_denied(
                *old(self),
                pubkey@,
                tx_id,
            )),
            r matches Ok(g) ==> acquire_grants(*old(self), *final(self), pubkey@, tx_id, g),
            (r == Err::<AccountWriteGuard, AccountError>(AccountError::TransactionNotFound))
                <==> !old(self).spec_has_tx(tx_id),
            (r == Err::<AccountWriteGuard, AccountError>(AccountError::InvalidTransaction))
                <==> (old(self).spec_has_tx(tx_id) && old(self).spec_tx(tx_id).status
                != TransactionStatus::Active),
            (r == Err::<AccountWriteGuard, AccountError>(AccountError::AccountLocked)) <==> (old(
                self,
            ).spec_tx_active(tx_id) && acquire_denied(*old(self), pubkey@, tx_id)),
            r is Err ==> *final(self) == *old(self),
    {
        if !self.registry.contains(tx_id) {
            return Err(AccountError::TransactionNotFound);
        }
        match self.registry.status_of(tx_id) {
            TransactionStatus::Active => {},
            _ => {
                return Err(AccountError::InvalidTransaction);
            },
        }
        let ok = self.locks.try_acquire(*pubkey, tx_id);
        if !ok {
            return Err(AccountError::AccountLocked);
        }
        let current = match self.accounts.get(pubkey) {
            Some(a) => a.clone(),
            None => zero_account(),
        };
        self.registry.record_pre_image(tx_id, *pubkey, current.clone());
        self.registry.mark_locked(tx_id, *pubkey);
        let guard = AccountWriteGuard {
            pubkey: *pubkey,
            transaction_id: tx_id,
            account: current,
        };
        proof {
            let pre = *old(self);
            let key = pubkey@;
            assert(guard@ == observed_account(pre, key));
            assert forall|k: Seq<u8>|
                ((#[trigger] self.locks.spec_holder(k)) matches Some(t)
                    ==> self.registry.spec_has(t) && self.registry.spec_tx(t).status
                    == TransactionStatus::Active && self.registry.spec_tx(t).locked_accounts
                    .spec_contains(k)) by {
                if self.locks.spec_holder(k) is Some {
                    let t = self.locks.spec_holder(k)->Some_0;
                    if k == key {
                        assert(t == tx_id);
                        assert(self.registry.spec_tx(tx_id).locked_accounts.spec_contains(key));
                    } else {
                        assert(pre.locks.spec_holder(k) == Some(t));
                        if t == tx_id {
                            assert(pre.registry.spec_tx(t).locked_accounts.spec_contains(k));
                            assert(self.registry.spec_tx(t).locked_accounts.spec_contains(k));
                        } else {
                            assert(self.registry.spec_tx(t) == pre.registry.spec_tx(t));
                        }
                    }
                }
            }
            assert forall|t: u64, k: Seq<u8>|
                self.registry.spec_has(t) && self.registry.spec_tx(t).status
                    == TransactionStatus::Active && (#[trigger] self.registry.spec_tx(
                    t,
                ).locked_accounts.spec_contains(k)) implies self.locks.spec_holder(k) == Some(
                t,
            ) by {
                if t == tx_id {
                    if k == key {
                        assert(self.locks.spec_holder(k) == Some(tx_id));
                    } else {
                        assert(pre.registry.spec_tx(t).locked_accounts.spec_contains(k));
                        assert(pre.locks.spec_holder(k) == Some(t));
                        assert(self.locks.spec_holder(k) == Some(t));
                    }
                } else {
                    assert(self.registry.spec_tx(t) == pre.registry.spec_tx(t));
                    assert(pre.locks.spec_holder(k) == Some(t));
                    if k == key {
                        assert(pre.locks.spec_holder(key) is None || pre.locks.spec_holder(key)
                            == Some(tx_id));
                        assert(false);
                    }
                }
            }
        }
        Ok(guard)
    }

    /// Releases `guard`: stages its buffered value as the pending write of
    /// its key in its transaction's record, to be published if the
    /// transaction commits. The lock on the key is not freed here — it
    /// belongs to the transaction and falls only at commit or rollback.
    pub fn release_guard(&mut self, guard: AccountWriteGuard)
        requires
            old(self).wf(),
        ensures
            final(self).wf(),
            old(self).spec_has_tx(guard.spec_tx_id()) ==> release_stages(
                *old(self),
                *final(self),
                guard,
            ),
            !old(self).spec_has_tx(guard.spec_tx_id()) ==> *final(self) == *old(self),
    {
        let tx_id = guard.transaction_id;
        if self.registry.contains(tx_id) {
            self.registry.stage_write(tx_id, guard.pubkey, guard.account);
            proof {
                let pre = *old(self);
                assert forall|k: Seq<u8>|
                    ((#[trigger] self.locks.spec_holder(k)) matches Some(t)
                        ==> self.registry.spec_has(t) && self.registry.spec_tx(t).status
                        == TransactionStatus::Active && self.registry.spec_tx(t).locked_accounts
                        .spec_contains(k)) by {
                    if self.locks.spec_holder(k) is Some {
                        let t = self.locks.spec_holder(k)->Some_0;
                        assert(pre.locks.spec_holder(k) == Some(t));
                        if t != tx_id {
                            assert(self.registry.spec_tx(t) == pre.registry.spec_tx(t));
                        }
                    }
                }
                assert forall|t: u64, k: Seq<u8>|
                    self.registry.spec_has(t) && self.registry.spec_tx(t).status
                        == TransactionStatus::Active && (#[trigger] self.registry.spec_tx(
                        t,
                    ).locked_accounts.spec_contains(k)) implies self.locks.spec_holder(k) == Some(
                    t,
                ) by {
                    if t != tx_id {
                        assert(self.registry.spec_tx(t) == pre.registry.spec_tx(t));
                    } else {
                        assert(pre.registry.spec_tx(t).locked_accounts.spec_contains(k));
                    }
                }
            }
        }
    }
    /// Commits `tx_id`: re-reads the transaction's current record from the
    /// registry, publishes every staged pending write to the account
    /// table, frees every lock the transaction holds, and marks the record
    /// `Committed`. Fails, changing nothing, with `TransactionNotFound`
    /// for an unknown id and `InvalidTransaction` for one no longer
    /// `Active`.
    pub fn commit_transaction(&mut self, tx_id: u64) -> (r: Result<(), AccountError>)
        requires
            old(self).wf(),
        ensures
            final(self).wf(),
            (r is Ok) == old(self).spec_tx_active(tx_id),
            (r == Err::<(), AccountError>(AccountError::TransactionNotFound)) <==> !old(
                self,
            ).spec_has_tx(tx_id),
            (r == Err::<(), AccountError>(AccountError::InvalidTransaction)) <==> (old(
                self,
            ).spec_has_tx(tx_id) && old(self).spec_tx(tx_id).status != TransactionStatus::Active),
            r is Ok ==> commit_applies(*old(self), *final(self), tx_id),
            r is Err ==> *final(self) == *old(self),
    {
        if !self.registry.contains(tx_id) {
            return Err(AccountError::TransactionNotFound);
        }
        match self.registry.status_of(tx_id) {
            TransactionStatus::Active => {},
            _ => {
                return Err(AccountError::InvalidTransaction);
            },
        }
        let ghost pre = *old(self);
        let ghost t = pre.spec_tx(tx_id);
        proof {
            pre.registry.lemma_wf_tx(tx_id);
            t.pending_writes.lemma_model();
            t.locked_accounts.lemma_model();
        }
        // Publish every staged write into the account table.
        let n = self.registry.pending_len(tx_id);
        let mut i: usize = 0;
        while i < n
            invariant
                pre.wf(),
                pre.spec_has_tx(tx_id),
                t == pre.spec_tx(tx_id),
                t.wf(),
                self.registry == pre.registry,
                self.locks == pre.locks,
                self.accounts.wf(),
                n == t.pending_writes.spec_len(),
                i <= n,
                forall|k: Seq<u8>|
                    #[trigger] self.accounts.spec_get(k) == (if (exists|j: int|
                        0 <= j < i && t.pending_writes.spec_key_at(j) == k) {
                        t.pending_writes.spec_get(k)
                    } else {
                        pre.spec_account(k)
                    }),
            decreases n - i,
        {
            let (key, state) = self.registry.pending_entry(tx_id, i);
            self.accounts.set(key, state);
            proof {
                assert forall|k: Seq<u8>|
                    #[trigger] self.accounts.spec_get(k) == (if (exists|j: int|
                        0 <= j < i + 1 && t.pending_writes.spec_key_at(j) == k) {
                        t.pending_writes.spec_get(k)
                    } else {
                        pre.spec_account(k)
                    }) by {
                    if k == key@ {
                        assert(t.pending_writes.spec_key_at(i as int) == k);
                        assert(exists|j: int| 0 <= j < i + 1 && t.pending_writes.spec_key_at(j)
                            == k);
                        assert(self.accounts.spec_get(k) == Some(state@));
                        assert(t.pending_writes.spec_get(k) == Some(state@));
                    } else {
                        if exists|j: int| 0 <= j < i + 1 && t.pending_writes.spec_key_at(j) == k {
                            let j = choose|j: int|
                                0 <= j < i + 1 && t.pending_writes.spec_key_at(j) == k;
                            assert(j != i);
                            assert(exists|j2: int|
                                0 <= j2 < i && t.pending_writes.spec_key_at(j2) == k);
                        }
                    }
                }
            }
            i = i + 1;
        }
        // Free every lock the transaction holds.
        let m = self.registry.locked_len(tx_id);
        let mut li: usize = 0;
        while li < m
            invariant
                pre.wf(),
                pre.spec_has_tx(tx_id),
                t == pre.spec_tx(tx_id),
                t.wf(),
                self.registry == pre.registry,
                self.accounts.wf(),
                self.locks.wf(),
                m == t.locked_accounts.spec_len(),
                li <= m,
                forall|k: Seq<u8>|
                    #[trigger] self.accounts.spec_get(k) == (if t.pending_writes.spec_has(k) {
                        t.pending_writes.spec_get(k)
                    } else {
                        pre.spec_account(k)
                    }),
                forall|k: Seq<u8>|
                    #[trigger] self.locks.spec_holder(k) == (if (exists|a: int|
                        0 <= a < li && t.locked_accounts.spec_at(a) == k) {
                        None::<u64>
                    } else {
                        pre.spec_holder(k)
                    }),
            decreases m - li,
        {
            let key = self.registry.locked_at(tx_id, li);
            self.locks.release(&key);
            proof {
                assert forall|k: Seq<u8>|
                    #[trigger] self.locks.spec_holder(k) == (if (exists|a: int|
                        0 <= a < li + 1 && t.locked_accounts.spec_at(a) == k) {
                        None::<u64>
                    } else {
                        pre.spec_holder(k)
                    }) by {
                    if k == key@ {
                        assert(t.locked_accounts.spec_at(li as int) == k);
                        assert(exists|a: int| 0 <= a < li + 1 && t.locked_accounts.spec_at(a)
                            == k);
                    } else {
                        if exists|a: int| 0 <= a < li + 1 && t.locked_accounts.spec_at(a) == k {
                            let a = choose|a: int|
                                0 <= a < li + 1 && t.locked_accounts.spec_at(a) == k;
                            assert(a != li);
                            assert(exists|a2: int|
                                0 <= a2 < li && t.locked_accounts.spec_at(a2) == k);
                        }
                    }
                }
            }
            li = li + 1;
        }
        // Mark the record committed; both checks above still hold, so this
        // cannot fail.
        let moved = self.registry.transition(tx_id, TransactionStatus::Committed);
        proof {
            assert(moved is Ok);
            self.lemma_finish_restores_wf(pre, tx_id);
        }
        Ok(())
    }

    /// Rolls back `tx_id`: re-reads the transaction's current record from
    /// the registry, restores every recorded pre-image into the account
    /// table — exactly the value each account had when the transaction
    /// first locked it — frees every lock the transaction holds, and marks
    /// the record `Aborted`. Fails, changing nothing, with
    /// `TransactionNotFound` for an unknown id and `InvalidTransaction`
    /// for one no longer `Active`.
    pub fn rollback_transaction(&mut self, tx_id: u64) -> (r: Result<(), AccountError>)
        requires
            old(self).wf(),
        ensures
            final(self).wf(),
            (r is Ok) == old(self).spec_tx_active(tx_id),
            (r == Err::<(), AccountError>(AccountError::TransactionNotFound)) <==> !old(
                self,
            ).spec_has_tx(tx_id),
            (r == Err::<(), AccountError>(AccountError::InvalidTransaction)) <==> (old(
                self,
            ).spec_has_tx(tx_id) && old(self).spec_tx(tx_id).status != TransactionStatus::Active),
            r is Ok ==> rollback_applies(*old(self), *final(self), tx_id),
            r is Err ==> *final(self) == *old(self),
    {
        if !self.registry.contains(tx_id) {
            return Err(AccountError::TransactionNotFound);
        }
        match self.registry.status_of(tx_id) {
            TransactionStatus::Active => {},
            _ => {
                return Err(AccountError::InvalidTransaction);
            },
        }
        let ghost pre = *old(self);
        let ghost t = pre.spec_tx(tx_id);
        proof {
            pre.registry.lemma_wf_tx(tx_id);
            t.pre_images.lemma_model();
            t.locked_accounts.lemma_model();
        }
        // Restore every recorded pre-image into the account table.
        let n = self.registry.pre_image_len(tx_id);
        let mut i: usize = 0;
        while i < n
            invariant
                pre.wf(),
                pre.spec_has_tx(tx_id),
                t == pre.spec_tx(tx_id),
                t.wf(),
                self.registry == pre.registry,
                self.locks == pre.locks,
                self.accounts.wf(),
                n == t.pre_images.spec_len(),
                i <= n,
                forall|k: Seq<u8>|
                    #[trigger] self.accounts.spec_get(k) == (if (exists|j: int|
                        0 <= j < i && t.pre_images.spec_key_at(j) == k) {
                        t.pre_images.spec_get(k)
                    } else {
                        pre.spec_account(k)
                    }),
            decreases n - i,
        {
            let (key, state) = self.registry.pre_image_entry(tx_id, i);
            self.accounts.set(key, state);
            proof {
                assert forall|k: Seq<u8>|
                    #[trigger] self.accounts.spec_get(k) == (if (exists|j: int|
                        0 <= j < i + 1 && t.pre_images.spec_key_at(j) == k) {
                        t.pre_images.spec_get(k)
                    } else {
                        pre.spec_account(k)
                    }) by {
                    if k == key@ {
                        assert(t.pre_images.spec_key_at(i as int) == k);
                        assert(exists|j: int| 0 <= j < i + 1 && t.pre_images.spec_key_at(j) == k);
                        assert(self.accounts.spec_get(k) == Some(state@));
                        assert(t.pre_images.spec_get(k) == Some(state@));
                    } else {
                        if exists|j: int| 0 <= j < i + 1 && t.pre_images.spec_key_at(j) == k {
                            let j = choose|j: int|
                                0 <= j < i + 1 && t.pre_images.spec_key_at(j) == k;
                            assert(j != i);
                            assert(exists|j2: int| 0 <= j2 < i && t.pre_images.spec_key_at(j2)
                                == k);
                        }
                    }
                }
            }
            i = i + 1;
        }
        // Free every lock the transaction holds.
        let m = self.registry.locked_len(tx_id);
        let mut li: usize = 0;
        while li < m
            invariant
                pre.wf(),
                pre.spec_has_tx(tx_id),
                t == pre.spec_tx(tx_id),
                t.wf(),
                self.registry == pre.registry,
                self.accounts.wf(),
                self.locks.wf(),
                m == t.locked_accounts.spec_len(),
                li <= m,
                forall|k: Seq<u8>|
                    #[trigger] self.accounts.spec_get(k) == (if t.pre_images.spec_has(k) {
                        t.pre_images.spec_get(k)
                    } else {
                        pre.spec_account(k)
                    }),
                forall|k: Seq<u8>|
                    #[trigger] self.locks.spec_holder(k) == (if (exists|a: int|
                        0 <= a < li && t.locked_accounts.spec_at(a) == k) {
                        None::<u64>
                    } else {
                        pre.spec_holder(k)
                    }),
            decreases m - li,
        {
            let key = self.registry.locked_at(tx_id, li);
            self.locks.release(&key);
            proof {
                assert forall|k: Seq<u8>|
                    #[trigger] self.locks.spec_holder(k) == (if (exists|a: int|
                        0 <= a < li + 1 && t.locked_accounts.spec_at(a) == k) {
                        None::<u64>
                    } else {
                        pre.spec_holder(k)
                    }) by {
                    if k == key@ {
                        assert(t.locked_accounts.spec_at(li as int) == k);
                        assert(exists|a: int| 0 <= a < li + 1 && t.locked_accounts.spec_at(a)
                            == k);
                    } else {
                        if exists|a: int| 0 <= a < li + 1 && t.locked_accounts.spec_at(a) == k {
                            let a = choose|a: int|
                                0 <= a < li + 1 && t.locked_accounts.spec_at(a) == k;
                            assert(a != li);
                            assert(exists|a2: int|
                                0 <= a2 < li && t.locked_accounts.spec_at(a2) == k);
                        }
                    }
                }
            }
            li = li + 1;
        }
        // Mark the record aborted; both checks above still hold, so this
        // cannot fail.
        let moved = self.registry.transition(tx_id, TransactionStatus::Aborted);
        proof {
            assert(moved is Ok);
            self.lemma_finish_restores_wf(pre, tx_id);
        }
        Ok(())
    }

    /// After a commit or rollback — locks of `tx_id` all freed, its record
    /// moved to a terminal status, everything else untouched — the system
    /// invariant holds again.
    proof fn lemma_finish_restores_wf(self, pre: AccountsDb, tx_id: u64)
        requires
            pre.wf(),
            pre.spec_has_tx(tx_id),
            pre.spec_tx(tx_id).status == TransactionStatus::Active,
            self.accounts.wf(),
            self.locks.wf(),
            self.registry.wf(),
            self.registry.spec_count() == pre.registry.spec_count(),
            forall|t2: u64|
                pre.registry.spec_has(t2) && t2 != tx_id ==> #[trigger] self.registry.spec_tx(t2)
                    == pre.registry.spec_tx(t2),
            self.registry.spec_tx(tx_id).status != TransactionStatus::Active,
            forall|k: Seq<u8>|
                #[trigger] self.locks.spec_holder(k) == (if pre.spec_tx(
                    tx_id,
                ).locked_accounts.spec_contains(k) {
                    None::<u64>
                } else {
                    pre.spec_holder(k)
                }),
        ensures
            self.wf(),
    {
        let t = pre.spec_tx(tx_id);
        assert forall|k: Seq<u8>|
            ((#[trigger] self.locks.spec_holder(k)) matches Some(t2)
                ==> self.registry.spec_has(t2) && self.registry.spec_tx(t2).status
                == TransactionStatus::Active && self.registry.spec_tx(t2).locked_accounts
                .spec_contains(k)) by {
            if self.locks.spec_holder(k) is Some {
                let t2 = self.locks.spec_holder(k)->Some_0;
                assert(!t.locked_accounts.spec_contains(k));
                assert(pre.locks.spec_holder(k) == Some(t2));
                assert(pre.registry.spec_has(t2));
                assert(pre.registry.spec_tx(t2).locked_accounts.spec_contains(k));
                if t2 == tx_id {
                    assert(t.locked_accounts.spec_contains(k));
                    assert(false);
                }
                assert(self.registry.spec_tx(t2) == pre.registry.spec_tx(t2));
            }
        }
        assert forall|t2: u64, k: Seq<u8>|
            self.registry.spec_has(t2) && self.registry.spec_tx(t2).status
                == TransactionStatus::Active && (#[trigger] self.registry.spec_tx(
                t2,
            ).locked_accounts.spec_contains(k)) implies self.locks.spec_holder(k) == Some(
            t2,
        ) by {
            assert(t2 != tx_id);
            assert(self.registry.spec_tx(t2) == pre.registry.spec_tx(t2));
            assert(pre.locks.spec_holder(k) == Some(t2));
            if t.locked_accounts.spec_contains(k) {
                assert(pre.registry.spec_tx(tx_id).status == TransactionStatus::Active);
                assert(pre.locks.spec_holder(k) == Some(tx_id));
                assert(false);
            }
        }
    }
}

/// The committed value of `key` in `db`, defaulting to the zero account if
/// the account does not exist — exactly what a write guard for `key`
/// observes when it is acquired.
pub open spec fn observed_account(db: AccountsDb, key: Seq<u8>) -> AccountView {
    match db.spec_account(key) {
        Some(a) => a,
        None => zero_account_view(),
    }
}

/// A guard acquisition for `key` by `tx_id` would be refused: another
/// transaction holds the lock.
pub open spec fn acquire_denied(db: AccountsDb, key: Seq<u8>, tx_id: u64) -> bool {
    match db.spec_holder(key) {
        Some(t) => t != tx_id,
        None => false,
    }
}

/// What a successful guard acquisition does: `post` is `pre` with the lock
/// on `key` given to `tx_id`, the observed value recorded as pre-image if
/// none was yet, and `key` marked locked in the record of `tx_id`; the
/// guard carries the observed value. Nothing else changes.
pub open spec fn acquire_grants(
    pre: AccountsDb,
    post: AccountsDb,
    key: Seq<u8>,
    tx_id: u64,
    g: AccountWriteGuard,
) -> bool {
    &&& pre.spec_tx_active(tx_id)
    &&& !acquire_denied(pre, key, tx_id)
    &&& g.spec_key() == key
    &&& g.spec_tx_id() == tx_id
    &&& g@ == observed_account(pre, key)
    &&& post.spec_holder(key) == Some(tx_id)
    &&& forall|k: Seq<u8>| k != key ==> #[trigger] post.spec_holder(k) == pre.spec_holder(k)
    &&& forall|k: Seq<u8>| #[trigger] post.spec_account(k) == pre.spec_account(k)
    &&& post.spec_tx_count() == pre.spec_tx_count()
    &&& forall|t: u64|
        pre.spec_has_tx(t) && t != tx_id ==> #[trigger] post.spec_tx(t) == pre.spec_tx(t)
    &&& ({
        let t0 = pre.spec_tx(tx_id);
        let t1 = post.spec_tx(tx_id);
        &&& t1.id == t0.id
        &&& t1.block == t0.block
        &&& t1.slot == t0.slot
        &&& t1.status == t0.status
        &&& t1.created_at == t0.created_at
        &&& t1.pending_writes == t0.pending_writes
        &&& forall|k: Seq<u8>|
            #[trigger] t1.locked_accounts.spec_contains(k) == (k == key
                || t0.locked_accounts.spec_contains(k))
        &&& t1.pre_images.spec_get(key) == (if t0.pre_images.spec_has(key) {
            t0.pre_images.spec_get(key)
        } else {
            Some(observed_account(pre, key))
        })
        &&& t1.pre_images.spec_has(key)
        &&& forall|k: Seq<u8>|
            k != key ==> #[trigger] t1.pre_images.spec_get(k) == t0.pre_images.spec_get(k)
        &&& forall|k: Seq<u8>|
            k != key ==> #[trigger] t1.pre_images.spec_has(k) == t0.pre_images.spec_has(k)
    })
}

/// What releasing guard `g` does: `post` is `pre` with the guard's
/// buffered value staged as the pending write of its key in its
/// transaction's record. Accounts, locks, and everything else are
/// untouched — in particular the lock on the key stays with the
/// transaction until commit or rollback.
pub open spec fn release_stages(pre: AccountsDb, post: AccountsDb, g: AccountWriteGuard) -> bool {
    &&& forall|k: Seq<u8>| #[trigger] post.spec_account(k) == pre.spec_account(k)
    &&& forall|k: Seq<u8>| #[trigger] post.spec_holder(k) == pre.spec_holder(k)
    &&& post.spec_tx_count() == pre.spec_tx_count()
    &&& forall|t: u64|
        pre.spec_has_tx(t) && t != g.spec_tx_id() ==> #[trigger] post.spec_tx(t) == pre.spec_tx(t)
    &&& ({
        let t0 = pre.spec_tx(g.spec_tx_id());
        let t1 = post.spec_tx(g.spec_tx_id());
        &&& t1.id == t0.id
        &&& t1.block == t0.block
        &&& t1.slot == t0.slot
        &&& t1.status == t0.status
        &&& t1.created_at == t0.created_at
        &&& t1.locked_accounts == t0.locked_accounts
        &&& t1.pre_images == t0.pre_images
        &&& t1.pending_writes.spec_get(g.spec_key()) == Some(g@)
        &&& t1.pending_writes.spec_has(g.spec_key())
        &&& forall|k: Seq<u8>|
            k != g.spec_key() ==> #[trigger] t1.pending_writes.spec_get(k)
                == t0.pending_writes.spec_get(k)
        &&& forall|k: Seq<u8>|
            k != g.spec_key() ==> #[trigger] t1.pending_writes.spec_has(k)
                == t0.pending_writes.spec_has(k)
    })
}

/// What a successful commit does: every pending write of the transaction
/// is published to the account table, every lock it holds is freed, and
/// the record moves to `Committed`; everything else is untouched.
pub open spec fn commit_applies(pre: AccountsDb, post: AccountsDb, tx_id: u64) -> bool {
    let t = pre.spec_tx(tx_id);
    &&& pre.spec_tx_active(tx_id)
    &&& forall|k: Seq<u8>|
        #[trigger] post.spec_account(k) == (if t.pending_writes.spec_has(k) {
            t.pending_writes.spec_get(k)
        } else {
            pre.spec_account(k)
        })
    &&& forall|k: Seq<u8>|
        #[trigger] post.spec_holder(k) == (if t.locked_accounts.spec_contains(k) {
            None::<u64>
        } else {
            pre.spec_holder(k)
        })
    &&& post.spec_tx_count() == pre.spec_tx_count()
    &&& forall|t2: u64|
        pre.spec_has_tx(t2) && t2 != tx_id ==> #[trigger] post.spec_tx(t2) == pre.spec_tx(t2)
    &&& ({
        let t1 = post.spec_tx(tx_id);
        &&& t1.id == t.id
        &&& t1.block == t.block
        &&& t1.slot == t.slot
        &&& t1.status == TransactionStatus::Committed
        &&& t1.created_at == t.created_at
        &&& t1.locked_accounts == t.locked_accounts
        &&& t1.pre_images == t.pre_images
        &&& t1.pending_writes == t.pending_writes
    })
}

/// What a successful rollback does: every recorded pre-image of the
/// transaction is restored to the account table, every lock it holds is
/// freed, and the record moves to `Aborted`; everything else is untouched.
pub open spec fn rollback_applies(pre: AccountsDb, post: AccountsDb, tx_id: u64) -> bool {
    let t = pre.spec_tx(tx_id);
    &&& pre.spec_tx_active(tx_id)
    &&& forall|k: Seq<u8>|
        #[trigger] post.spec_account(k) == (if t.pre_images.spec_has(k) {
            t.pre_images.spec_get(k)
        } else {
            pre.spec_account(k)
        })
    &&& forall|k: Seq<u8>|
        #[trigger] post.spec_holder(k) == (if t.locked_accounts.spec_contains(k) {
            None::<u64>
        } else {
            pre.spec_holder(k)
        })
    &&& post.spec_tx_count() == pre.spec_tx_count()
    &&& forall|t2: u64|
        pre.spec_has_tx(t2) && t2 != tx_id ==> #[trigger] post.spec_tx(t2) == pre.spec_tx(t2)
    &&& ({
        let t1 = post.spec_tx(tx_id);
        &&& t1.id == t.id
        &&& t1.block == t.block
        &&& t1.slot == t.slot
        &&& t1.status == TransactionStatus::Aborted
        &&& t1.created_at == t.created_at
        &&& t1.locked_accounts == t.locked_accounts
        &&& t1.pre_images == t.pre_images
        &&& t1.pending_writes == t.pending_writes
    })
}

} // verus!
