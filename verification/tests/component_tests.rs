use account_store::account::AccountError;
use account_store::account::AccountState;
use account_store::account::keys_equal;
use account_store::account::zero_account;
use account_store::account_map::AccountMap;
use account_store::key_set::KeySet;
use account_store::lock_table::LockTable;

#[test]
fn keys_compare_byte_for_byte() {
    let mut a = [0u8; 32];
    let b = [0u8; 32];
    assert!(keys_equal(&a, &b));
    a[31] = 1;
    assert!(!keys_equal(&a, &b));
}

#[test]
fn zero_account_is_all_zero() {
    let z = zero_account();
    assert_eq!(z.lamports, 0);
    assert!(z.data.is_empty());
    assert_eq!(z.owner, [0u8; 32]);
    assert!(!z.executable);
    assert_eq!(z.rent_epoch, 0);
}

#[test]
fn error_messages_name_the_failure() {
    assert_eq!(
        AccountError::AccountLocked.message(),
        "Account is locked by another transaction"
    );
    assert_eq!(AccountError::TransactionNotFound.message(), "Transaction not found");
    assert_eq!(AccountError::InvalidTransaction.message(), "Invalid transaction state");
    assert_eq!(AccountError::InsufficientFunds.message(), "Insufficient funds");
    assert_eq!(
        AccountError::ConcurrentModification.message(),
        "Concurrent modification detected"
    );
}

#[test]
fn account_map_overwrites_and_frames() {
    let mut m = AccountMap::new();
    let k1 = [1u8; 32];
    let k2 = [2u8; 32];
    m.set(k1, AccountState::new(10, vec![], [0u8; 32]));
    m.set(k2, AccountState::new(20, vec![], [0u8; 32]));
    m.set(k1, AccountState::new(11, vec![], [0u8; 32]));
    assert_eq!(m.len(), 2);
    assert_eq!(m.get(&k1).unwrap().lamports, 11);
    assert_eq!(m.get(&k2).unwrap().lamports, 20);
    assert!(m.get(&[3u8; 32]).is_none());
}

#[test]
fn account_map_first_write_wins_when_asked() {
    let mut m = AccountMap::new();
    let k = [4u8; 32];
    m.set_if_absent(k, AccountState::new(1, vec![], [0u8; 32]));
    m.set_if_absent(k, AccountState::new(2, vec![], [0u8; 32]));
    assert_eq!(m.get(&k).unwrap().lamports, 1);
}

#[test]
fn lock_table_acquire_is_idempotent_per_transaction() {
    let mut t = LockTable::new();
    let k = [7u8; 32];
    assert_eq!(t.holder(&k), None);
    assert!(t.try_acquire(k, 1));
    assert!(t.try_acquire(k, 1));
    assert!(!t.try_acquire(k, 2));
    assert_eq!(t.holder(&k), Some(1));
    t.release(&k);
    assert_eq!(t.holder(&k), None);
    assert!(t.try_acquire(k, 2));
    assert_eq!(t.holder(&k), Some(2));
}

#[test]
fn key_set_ignores_duplicates() {
    let mut s = KeySet::new();
    let k1 = [1u8; 32];
    let k2 = [2u8; 32];
    s.insert(k1);
    s.insert(k1);
    s.insert(k2);
    assert_eq!(s.len(), 2);
    assert!(s.contains(&k1));
    assert!(s.contains(&k2));
    assert!(!s.contains(&[3u8; 32]));
    assert_eq!(s.at(0), k1);
    assert_eq!(s.at(1), k2);
}
