//! System-wide guarantees of the store, each proved from the public
//! contracts of the facade: mutual exclusion of write access, that commit
//! publishes exactly what a guard staged, that rollback restores exactly
//! what a guard first observed, that rollback of an idle transaction
//! touches nothing, and that a contended key becomes free once its holder
//! finishes.

use vstd::prelude::*;

use crate::store::AccountWriteGuard;
use crate::store::AccountsDb;
use crate::store::acquire_denied;
use crate::store::acquire_grants;
use crate::store::commit_applies;
use crate::store::observed_account;
use crate::store::release_stages;
use crate::store::rollback_applies;

verus! {

/// Mutual exclusion: at most one transaction can have write access to a
/// key at any instant. A write guard for `key` is issued only to a
/// transaction that holds the lock on `key`, and `key` stays among its
/// locked accounts while it is `Active`; two `Active` transactions that
/// both count `key` as locked are therefore the same transaction.
pub proof fn lemma_write_access_exclusive(db: AccountsDb, t1: u64, t2: u64, key: Seq<u8>)
    requires
        db.wf(),
        db.spec_tx_active(t1),
        db.spec_tx(t1).locked_accounts.spec_contains(key),
        db.spec_tx_active(t2),
        db.spec_tx(t2).locked_accounts.spec_contains(key),
    ensures
        t1 == t2,
{
    db.lemma_active_owner_holds(t1, key);
    db.lemma_active_owner_holds(t2, key);
}

/// Two freshly issued guards for the same key belong to the same
/// transaction: issuing a guard takes the lock, so a second acquisition of
/// the key by a different transaction is refused while the first holder is
/// still `Active`.
pub proof fn lemma_guards_share_transaction(
    pre1: AccountsDb,
    post1: AccountsDb,
    pre2: AccountsDb,
    post2: AccountsDb,
    key: Seq<u8>,
    t1: u64,
    t2: u64,
    g1: AccountWriteGuard,
    g2: AccountWriteGuard,
)
    requires
        acquire_grants(pre1, post1, key, t1, g1),
        pre2 == post1,
        acquire_grants(pre2, post2, key, t2, g2),
    ensures
        t2 == t1,
{
    assert(post1.spec_holder(key) == Some(t1));
    assert(!acquire_denied(pre2, key, t2));
}

/// After a guard for `key` is released and its transaction commits, the
/// committed table holds exactly the guard's final staged value, and the
/// lock on `key` is gone.
pub proof fn lemma_commit_publishes_staged_value(
    db0: AccountsDb,
    db1: AccountsDb,
    db2: AccountsDb,
    db3: AccountsDb,
    key: Seq<u8>,
    tx_id: u64,
    g0: AccountWriteGuard,
    g1: AccountWriteGuard,
)
    requires
        acquire_grants(db0, db1, key, tx_id, g0),
        // `g1` is the same guard as released, after any edits to its
        // private buffer.
        g1.spec_key() == key,
        g1.spec_tx_id() == tx_id,
        release_stages(db1, db2, g1),
        commit_applies(db2, db3, tx_id),
    ensures
        db3.spec_account(key) == Some(g1@),
        db3.spec_holder(key) is None,
{
    let t2 = db2.spec_tx(tx_id);
    assert(t2.pending_writes.spec_get(key) == Some(g1@));
    assert(t2.pending_writes.spec_has(key));
    assert(db1.spec_tx(tx_id).locked_accounts.spec_contains(key));
    assert(t2.locked_accounts.spec_contains(key));
}

/// After a guard for `key` is released and its transaction rolls back,
/// the committed table holds exactly the value observed when the guard
/// was acquired — the recorded pre-image — whatever was staged meanwhile,
/// and the lock on `key` is gone. Holds for the transaction's first
/// acquisition of `key`, the one that records the pre-image.
pub proof fn lemma_rollback_restores_pre_image(
    db0: AccountsDb,
    db1: AccountsDb,
    db2: AccountsDb,
    db3: AccountsDb,
    key: Seq<u8>,
    tx_id: u64,
    g0: AccountWriteGuard,
    g1: AccountWriteGuard,
)
    requires
        !db0.spec_tx(tx_id).pre_images.spec_has(key),
        acquire_grants(db0, db1, key, tx_id, g0),
        g1.spec_key() == key,
        g1.spec_tx_id() == tx_id,
        release_stages(db1, db2, g1),
        rollback_applies(db2, db3, tx_id),
    ensures
        db3.spec_account(key) == Some(observed_account(db0, key)),
        db3.spec_account(key) == Some(g0@),
        db3.spec_holder(key) is None,
{
    let t2 = db2.spec_tx(tx_id);
    assert(db1.spec_tx(tx_id).pre_images.spec_get(key) == Some(observed_account(db0, key)));
    assert(t2.pre_images.spec_get(key) == Some(observed_account(db0, key)));
    assert(t2.pre_images.spec_has(key));
    assert(db1.spec_tx(tx_id).locked_accounts.spec_contains(key));
    assert(t2.locked_accounts.spec_contains(key));
}

/// Rollback of a transaction that never acquired any guard — so it has no
/// recorded pre-image — leaves every account exactly as it was.
pub proof fn lemma_rollback_without_guards_is_noop(pre: AccountsDb, post: AccountsDb, tx_id: u64)
    requires
        rollback_applies(pre, post, tx_id),
        forall|k: Seq<u8>| !(#[trigger] pre.spec_tx(tx_id).pre_images.spec_has(k)),
    ensures
        forall|k: Seq<u8>| #[trigger] post.spec_account(k) == pre.spec_account(k),
{
}

/// A key locked by one `Active` transaction is denied to every other
/// transaction; once the holder commits, the key is free and the other
/// transaction, still `Active`, is granted its retry of the same
/// acquisition.
pub proof fn lemma_denied_until_commit(
    pre: AccountsDb,
    post: AccountsDb,
    key: Seq<u8>,
    t1: u64,
    t2: u64,
)
    requires
        pre.wf(),
        pre.spec_holder(key) == Some(t1),
        t2 != t1,
        pre.spec_tx_active(t2),
        commit_applies(pre, post, t1),
    ensures
        acquire_denied(pre, key, t2),
        !acquire_denied(post, key, t2),
        post.spec_tx_active(t2),
{
    pre.lemma_holder_is_active_owner(key, t1);
}

/// A key locked by one `Active` transaction is denied to every other
/// transaction; once the holder rolls back, the key is free and the
/// other transaction, still `Active`, is granted its retry of the same
/// acquisition.
pub proof fn lemma_denied_until_rollback(
    pre: AccountsDb,
    post: AccountsDb,
    key: Seq<u8>,
    t1: u64,
    t2: u64,
)
    requires
        pre.wf(),
        pre.spec_holder(key) == Some(t1),
        t2 != t1,
        pre.spec_tx_active(t2),
        rollback_applies(pre, post, t1),
    ensures
        acquire_denied(pre, key, t2),
        !acquire_denied(post, key, t2),
        post.spec_tx_active(t2),
{
    pre.lemma_holder_is_active_owner(key, t1);
}

} // verus!
