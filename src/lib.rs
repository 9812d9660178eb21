//! An in-memory ledger: one bank holding accounts, each with a balance and
//! an append-only history, with deposit, withdrawal, queries and transfer.
//!
//! Balances and amounts are whole numbers of the currency's smallest unit.
//! Account creation refuses an identifier already in use and a negative
//! initial balance, so identifiers stay unique and no balance is ever negative.
mod account;
mod bank;

pub use account::{AccountId, AccountState, Amount, Entry};
pub use bank::{Bank, BankError, TransferReceipt};
