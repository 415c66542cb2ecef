use account_store::account::AccountError;
use account_store::account::AccountState;
use account_store::account::TransactionStatus;
use account_store::store::AccountsDb;

fn key(b: u8) -> [u8; 32] {
    [b; 32]
}

#[test]
fn debit_and_commit_publishes_new_balance() {
    let mut db = AccountsDb::new();
    let alice = key(1);
    db.create_account(alice, AccountState::new(1000, b"Alice's data".to_vec(), [0u8; 32]));

    let tx1 = db.begin_transaction(1, 100);
    let mut guard = db.load_account_for_write(&alice, tx1).unwrap();
    guard.transfer_lamports(100).unwrap();
    db.release_guard(guard);
    db.commit_transaction(tx1).unwrap();

    assert_eq!(db.get_account(&alice).unwrap().lamports, 900);
}

#[test]
fn debit_and_rollback_restores_old_balance() {
    let mut db = AccountsDb::new();
    let charlie = key(3);
    db.create_account(charlie, AccountState::new(200, b"Charlie's data".to_vec(), [0u8; 32]));

    let tx2 = db.begin_transaction(2, 101);
    let mut guard = db.load_account_for_write(&charlie, tx2).unwrap();
    guard.transfer_lamports(50).unwrap();
    db.release_guard(guard);
    db.rollback_transaction(tx2).unwrap();

    assert_eq!(db.get_account(&charlie).unwrap().lamports, 200);
}

#[test]
fn rollback_restores_data_byte_for_byte() {
    let mut db = AccountsDb::new();
    let k = key(9);
    let original = vec![0xDE, 0xAD, 0xBE, 0xEF];
    db.create_account(k, AccountState::new(7, original.clone(), [4u8; 32]));

    let tx = db.begin_transaction(1, 1);
    let mut guard = db.load_account_for_write(&k, tx).unwrap();
    guard.set_data(vec![1, 2, 3]);
    guard.set_lamports(99);
    guard.set_owner([5u8; 32]);
    db.release_guard(guard);
    db.rollback_transaction(tx).unwrap();

    let restored = db.get_account(&k).unwrap();
    assert_eq!(restored.data, original);
    assert_eq!(restored.lamports, 7);
    assert_eq!(restored.owner, [4u8; 32]);
}

#[test]
fn commit_publishes_data_and_owner() {
    let mut db = AccountsDb::new();
    let k = key(8);
    db.create_account(k, AccountState::new(1, vec![0], [0u8; 32]));

    let tx = db.begin_transaction(1, 2);
    let mut guard = db.load_account_for_write(&k, tx).unwrap();
    guard.set_data(vec![10, 20]);
    guard.set_owner([7u8; 32]);
    guard.add_lamports(41);
    db.release_guard(guard);
    db.commit_transaction(tx).unwrap();

    let committed = db.get_account(&k).unwrap();
    assert_eq!(committed.data, vec![10, 20]);
    assert_eq!(committed.owner, [7u8; 32]);
    assert_eq!(committed.lamports, 42);
}

#[test]
fn rollback_without_guards_changes_nothing() {
    let mut db = AccountsDb::new();
    let a = key(1);
    let b = key(2);
    db.create_account(a, AccountState::new(11, vec![1], [0u8; 32]));
    db.create_account(b, AccountState::new(22, vec![2], [0u8; 32]));

    let tx = db.begin_transaction(5, 50);
    db.rollback_transaction(tx).unwrap();

    assert_eq!(db.get_account(&a).unwrap().lamports, 11);
    assert_eq!(db.get_account(&b).unwrap().lamports, 22);
    assert!(db.get_account(&key(3)).is_none());
}

#[test]
fn locked_key_denied_to_other_transaction_until_finished() {
    let mut db = AccountsDb::new();
    let alice = key(1);
    db.create_account(alice, AccountState::new(1000, Vec::new(), [0u8; 32]));

    let tx3 = db.begin_transaction(3, 102);
    let tx4 = db.begin_transaction(4, 103);

    let guard = db.load_account_for_write(&alice, tx3).unwrap();
    assert!(matches!(
        db.load_account_for_write(&alice, tx4),
        Err(AccountError::AccountLocked)
    ));

    // Releasing the guard stages the write but the lock stays with the
    // transaction: the key is still denied.
    db.release_guard(guard);
    assert!(matches!(
        db.load_account_for_write(&alice, tx4),
        Err(AccountError::AccountLocked)
    ));

    // Once the holder finishes, the retry succeeds.
    db.rollback_transaction(tx3).unwrap();
    assert!(db.load_account_for_write(&alice, tx4).is_ok());
    db.rollback_transaction(tx4).unwrap();
}

#[test]
fn lock_freed_by_commit() {
    let mut db = AccountsDb::new();
    let k = key(6);
    db.create_account(k, AccountState::new(10, Vec::new(), [0u8; 32]));

    let tx1 = db.begin_transaction(1, 1);
    let guard = db.load_account_for_write(&k, tx1).unwrap();
    db.release_guard(guard);
    db.commit_transaction(tx1).unwrap();

    let tx2 = db.begin_transaction(1, 2);
    assert!(db.load_account_for_write(&k, tx2).is_ok());
}

#[test]
fn same_transaction_may_reacquire_its_own_key() {
    let mut db = AccountsDb::new();
    let k = key(5);
    db.create_account(k, AccountState::new(33, Vec::new(), [0u8; 32]));

    let tx = db.begin_transaction(1, 1);
    let guard1 = db.load_account_for_write(&k, tx).unwrap();
    db.release_guard(guard1);
    let guard2 = db.load_account_for_write(&k, tx).unwrap();
    assert_eq!(guard2.get_lamports(), 33);
    db.release_guard(guard2);
    db.rollback_transaction(tx).unwrap();
}

#[test]
fn pre_image_survives_two_guard_rounds() {
    // The pre-image is written once, at the first acquisition; a second
    // acquire-release round within the same transaction must not clobber
    // it with the staged value.
    let mut db = AccountsDb::new();
    let k = key(4);
    db.create_account(k, AccountState::new(500, Vec::new(), [0u8; 32]));

    let tx = db.begin_transaction(1, 1);
    let mut g1 = db.load_account_for_write(&k, tx).unwrap();
    g1.set_lamports(400);
    db.release_guard(g1);
    let mut g2 = db.load_account_for_write(&k, tx).unwrap();
    g2.set_lamports(300);
    db.release_guard(g2);
    db.rollback_transaction(tx).unwrap();

    assert_eq!(db.get_account(&k).unwrap().lamports, 500);
}

#[test]
fn record_keeps_pre_image_and_pending_write_apart() {
    let mut db = AccountsDb::new();
    let k = key(4);
    db.create_account(k, AccountState::new(500, Vec::new(), [0u8; 32]));

    let tx = db.begin_transaction(1, 1);
    let mut guard = db.load_account_for_write(&k, tx).unwrap();
    guard.set_lamports(300);
    db.release_guard(guard);

    let record = db.get_transaction(tx).unwrap();
    assert_eq!(record.pre_images.get(&k).unwrap().lamports, 500);
    assert_eq!(record.pending_writes.get(&k).unwrap().lamports, 300);
    assert!(record.locked_accounts.contains(&k));
    assert_eq!(record.status, TransactionStatus::Active);
}

#[test]
fn missing_account_defaults_to_zero_and_rollback_restores_it() {
    let mut db = AccountsDb::new();
    let ghost_key = key(7);

    let tx = db.begin_transaction(1, 1);
    let mut guard = db.load_account_for_write(&ghost_key, tx).unwrap();
    assert_eq!(guard.get_lamports(), 0);
    assert_eq!(guard.get_data().len(), 0);
    assert_eq!(guard.get_owner(), [0u8; 32]);
    guard.add_lamports(5);
    db.release_guard(guard);
    db.rollback_transaction(tx).unwrap();

    // The pre-image of an absent account is the zero account.
    let restored = db.get_account(&ghost_key).unwrap();
    assert_eq!(restored.lamports, 0);
    assert_eq!(restored.data, Vec::<u8>::new());
    assert_eq!(restored.owner, [0u8; 32]);
}

#[test]
fn commit_of_unknown_transaction_fails() {
    let mut db = AccountsDb::new();
    assert!(matches!(
        db.commit_transaction(99),
        Err(AccountError::TransactionNotFound)
    ));
    assert!(matches!(
        db.rollback_transaction(99),
        Err(AccountError::TransactionNotFound)
    ));
    assert!(matches!(
        db.load_account_for_write(&key(1), 99),
        Err(AccountError::TransactionNotFound)
    ));
    assert!(matches!(
        db.get_transaction(99),
        Err(AccountError::TransactionNotFound)
    ));
}

#[test]
fn finished_transaction_refuses_further_work() {
    let mut db = AccountsDb::new();
    let k = key(2);
    db.create_account(k, AccountState::new(10, Vec::new(), [0u8; 32]));

    let tx = db.begin_transaction(1, 1);
    db.commit_transaction(tx).unwrap();

    assert!(matches!(
        db.commit_transaction(tx),
        Err(AccountError::InvalidTransaction)
    ));
    assert!(matches!(
        db.rollback_transaction(tx),
        Err(AccountError::InvalidTransaction)
    ));
    assert!(matches!(
        db.load_account_for_write(&k, tx),
        Err(AccountError::InvalidTransaction)
    ));
}

#[test]
fn statuses_move_to_their_terminal_values() {
    let mut db = AccountsDb::new();
    let tx1 = db.begin_transaction(1, 1);
    let tx2 = db.begin_transaction(1, 2);

    assert_eq!(db.get_transaction(tx1).unwrap().status, TransactionStatus::Active);
    db.commit_transaction(tx1).unwrap();
    db.rollback_transaction(tx2).unwrap();
    assert_eq!(db.get_transaction(tx1).unwrap().status, TransactionStatus::Committed);
    assert_eq!(db.get_transaction(tx2).unwrap().status, TransactionStatus::Aborted);
}

#[test]
fn transaction_ids_count_up_from_one() {
    let mut db = AccountsDb::new();
    let tx1 = db.begin_transaction(1, 100);
    let tx2 = db.begin_transaction(2, 101);
    let tx3 = db.begin_transaction(3, 102);
    assert_eq!(tx1, 1);
    assert_eq!(tx2, 2);
    assert_eq!(tx3, 3);
    let rec = db.get_transaction(tx2).unwrap();
    assert_eq!(rec.id, 2);
    assert_eq!(rec.block, 2);
    assert_eq!(rec.slot, 101);
}

#[test]
fn create_account_overwrites() {
    let mut db = AccountsDb::new();
    let k = key(1);
    db.create_account(k, AccountState::new(1, vec![1], [1u8; 32]));
    db.create_account(k, AccountState::new(2, vec![2], [2u8; 32]));
    let a = db.get_account(&k).unwrap();
    assert_eq!(a.lamports, 2);
    assert_eq!(a.data, vec![2]);
    assert_eq!(a.owner, [2u8; 32]);
}

#[test]
fn multi_key_commit_is_applied_whole() {
    let mut db = AccountsDb::new();
    let alice = key(1);
    let bob = key(2);
    db.create_account(alice, AccountState::new(1000, Vec::new(), [0u8; 32]));
    db.create_account(bob, AccountState::new(500, Vec::new(), [0u8; 32]));

    let tx = db.begin_transaction(1, 100);
    let mut ga = db.load_account_for_write(&alice, tx).unwrap();
    let mut gb = db.load_account_for_write(&bob, tx).unwrap();
    ga.transfer_lamports(100).unwrap();
    gb.add_lamports(100);
    db.release_guard(ga);
    db.release_guard(gb);
    db.commit_transaction(tx).unwrap();

    assert_eq!(db.get_account(&alice).unwrap().lamports, 900);
    assert_eq!(db.get_account(&bob).unwrap().lamports, 600);
}
