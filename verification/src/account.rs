//! The account value type, its mathematical view, and the error and status
//! enums shared by every component of the store.

use vstd::prelude::*;

verus! {

/// Mathematical view of an account: the same fields as `AccountState`, with
/// the byte vectors abstracted to sequences.
#[verifier::ext_equal]
pub struct AccountView {
    pub lamports: u64,
    pub data: Seq<u8>,
    pub owner: Seq<u8>,
    pub executable: bool,
    pub rent_epoch: u64,
}

/// The state of one account: a balance in lamports, opaque data bytes, a
/// 32-byte owner id, an executable flag, and a rent epoch. A value type,
/// copied on read and replaced whole on write.
#[derive(Debug, PartialEq)]
pub struct AccountState {
    pub lamports: u64,
    pub data: Vec<u8>,
    pub owner: [u8; 32],
    pub executable: bool,
    pub rent_epoch: u64,
}

impl View for AccountState {
    type V = AccountView;

    open spec fn view(&self) -> AccountView {
        AccountView {
            lamports: self.lamports,
            data: self.data@,
            owner: self.owner@,
            executable: self.executable,
            rent_epoch: self.rent_epoch,
        }
    }
}

impl Clone for AccountState {
    fn clone(&self) -> (r: Self)
        ensures
            r@ == self@,
    {
        let data = self.data.clone();
        proof {
            assert(data@ =~= self.data@);
        }
        AccountState {
            lamports: self.lamports,
            data,
            owner: self.owner,
            executable: self.executable,
            rent_epoch: self.rent_epoch,
        }
    }
}

impl AccountState {
    /// A fresh account with the given balance, data, and owner; not
    /// executable, rent epoch zero.
    pub fn new(lamports: u64, data: Vec<u8>, owner: [u8; 32]) -> (r: Self)
        ensures
            r@ == (AccountView {
                lamports,
                data: data@,
                owner: owner@,
                executable: false,
                rent_epoch: 0,
            }),
    {
        Self { lamports, data, owner, executable: false, rent_epoch: 0 }
    }
}

/// The view of the account an absent key defaults to when first locked for
/// writing: zero balance, no data, the all-zero owner.
pub open spec fn zero_account_view() -> AccountView {
    AccountView {
        lamports: 0,
        data: Seq::<u8>::empty(),
        owner: Seq::new(32, |i: int| 0u8),
        executable: false,
        rent_epoch: 0,
    }
}

/// The account an absent key defaults to when first locked for writing.
pub fn zero_account() -> (r: AccountState)
    ensures
        r@ == zero_account_view(),
{
    let r = AccountState::new(0, Vec::new(), [0u8; 32]);
    proof {
        assert(r.owner@ =~= Seq::new(32, |i: int| 0u8));
        assert(r@ =~= zero_account_view());
    }
    r
}

/// Byte-exact equality of two 32-byte account keys.
pub fn keys_equal(a: &[u8; 32], b: &[u8; 32]) -> (r: bool)
    ensures
        r == (a@ == b@),
{
    let mut i: usize = 0;
    while i < 32
        invariant
            i <= 32,
            forall|j: int| 0 <= j < i ==> a@[j] == b@[j],
        decreases 32 - i,
    {
        if a[i] != b[i] {
            proof {
                assert(a@[i as int] != b@[i as int]);
            }
            return false;
        }
        i = i + 1;
    }
    proof {
        assert(a@ =~= b@);
    }
    true
}

/// Lifecycle of a transaction: `Active` until it is committed or rolled
/// back; `Committed` and `Aborted` are terminal.
#[derive(Clone, Copy, Debug, PartialEq, Eq)]
pub enum TransactionStatus {
    Active,
    Committed,
    Aborted,
}

/// Every way an operation on the store can fail. Errors are returned as
/// values; no operation panics.
#[derive(Clone, Copy, Debug, PartialEq, Eq)]
pub enum AccountError {
    /// The key is checked out for writing by a different transaction.
    AccountLocked,
    /// The transaction id was never issued.
    TransactionNotFound,
    /// The operation needs an `Active` transaction, but this one is not.
    InvalidTransaction,
    /// A debit asked for more than the account's balance.
    InsufficientFunds,
    /// Reserved for a detected inconsistency between the registry and the
    /// lock table; never produced under correct locking.
    ConcurrentModification,
}

impl AccountError {
    /// A human-readable description of the error.
    pub fn message(&self) -> (r: &'static str)
        ensures
            r@ == match self {
                AccountError::AccountLocked => "Account is locked by another transaction"@,
                AccountError::TransactionNotFound => "Transaction not found"@,
                AccountError::InvalidTransaction => "Invalid transaction state"@,
                AccountError::InsufficientFunds => "Insufficient funds"@,
                AccountError::ConcurrentModification => "Concurrent modification detected"@,
            },
    {
        match self {
            AccountError::AccountLocked => "Account is locked by another transaction",
            AccountError::TransactionNotFound => "Transaction not found",
            AccountError::InvalidTransaction => "Invalid transaction state",
            AccountError::InsufficientFunds => "Insufficient funds",
            AccountError::ConcurrentModification => "Concurrent modification detected",
        }
    }
}

} // verus!
