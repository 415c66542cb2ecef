use account_store::account::AccountError;
use account_store::account::AccountState;
use account_store::store::AccountsDb;

fn seeded(balance: u64) -> (AccountsDb, [u8; 32], u64) {
    let mut db = AccountsDb::new();
    let k = [1u8; 32];
    db.create_account(k, AccountState::new(balance, vec![9, 9], [3u8; 32]));
    let tx = db.begin_transaction(1, 1);
    (db, k, tx)
}

#[test]
fn guard_exposes_the_observed_account() {
    let (mut db, k, tx) = seeded(77);
    let guard = db.load_account_for_write(&k, tx).unwrap();
    assert_eq!(guard.get_lamports(), 77);
    assert_eq!(guard.get_data(), &[9, 9]);
    assert_eq!(guard.get_owner(), [3u8; 32]);
    assert_eq!(guard.key(), k);
    assert_eq!(guard.transaction_id(), tx);
}

#[test]
fn setters_act_on_the_private_copy_only() {
    let (mut db, k, tx) = seeded(77);
    let mut guard = db.load_account_for_write(&k, tx).unwrap();
    guard.set_lamports(123);
    guard.set_data(vec![4, 5, 6]);
    guard.set_owner([8u8; 32]);
    assert_eq!(guard.get_lamports(), 123);
    assert_eq!(guard.get_data(), &[4, 5, 6]);
    assert_eq!(guard.get_owner(), [8u8; 32]);
    // Until release and commit, the committed table is untouched.
    let committed = db.get_account(&k).unwrap();
    assert_eq!(committed.lamports, 77);
    assert_eq!(committed.data, vec![9, 9]);
}

#[test]
fn overdraft_fails_and_leaves_the_buffer_unchanged() {
    let (mut db, k, tx) = seeded(100);
    let mut guard = db.load_account_for_write(&k, tx).unwrap();
    assert!(matches!(
        guard.transfer_lamports(101),
        Err(AccountError::InsufficientFunds)
    ));
    assert_eq!(guard.get_lamports(), 100);
    assert_eq!(guard.get_data(), &[9, 9]);
    // The transaction is still usable afterwards.
    assert!(guard.transfer_lamports(100).is_ok());
    assert_eq!(guard.get_lamports(), 0);
    db.release_guard(guard);
    db.commit_transaction(tx).unwrap();
    assert_eq!(db.get_account(&k).unwrap().lamports, 0);
}

#[test]
fn debit_of_exactly_the_balance_succeeds() {
    let (mut db, k, tx) = seeded(55);
    let mut guard = db.load_account_for_write(&k, tx).unwrap();
    assert!(guard.transfer_lamports(55).is_ok());
    assert_eq!(guard.get_lamports(), 0);
}

#[test]
fn credit_saturates_at_the_maximum() {
    let (mut db, k, tx) = seeded(u64::MAX - 1);
    let mut guard = db.load_account_for_write(&k, tx).unwrap();
    guard.add_lamports(1);
    assert_eq!(guard.get_lamports(), u64::MAX);
    guard.add_lamports(1);
    assert_eq!(guard.get_lamports(), u64::MAX);
    guard.add_lamports(u64::MAX);
    assert_eq!(guard.get_lamports(), u64::MAX);
}

#[test]
fn new_account_state_has_expected_defaults() {
    let a = AccountState::new(5, vec![1, 2], [6u8; 32]);
    assert_eq!(a.lamports, 5);
    assert_eq!(a.data, vec![1, 2]);
    assert_eq!(a.owner, [6u8; 32]);
    assert!(!a.executable);
    assert_eq!(a.rent_epoch, 0);
}
