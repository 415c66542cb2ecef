//! An in-memory key-value store of account records with pessimistic-locking
//! transactions, atomic commit, and rollback.
//!
//! A caller begins a transaction, acquires a write guard for each account it
//! wants to change, mutates through the guard, releases the guard (which
//! stages the new value), and finally commits (publishing every staged value
//! at once) or rolls back (restoring every account to the value it had when
//! the transaction first locked it).

pub mod account;
pub mod account_map;
pub mod key_set;
pub mod laws;
pub mod lock_table;
pub mod registry;
pub mod store;

pub use account::AccountError;
pub use account::AccountState;
pub use account::AccountView;
pub use account::TransactionStatus;
pub use registry::Transaction;
pub use store::AccountWriteGuard;
pub use store::AccountsDb;
