//! A content-addressed ledger: a hash-chained sequence of blocks of value
//! transfers, with the account balances and nonces that replaying them yields.

pub mod account;
pub mod address;
pub mod block;
pub mod encoding;
pub mod hash;
pub mod ledger;
pub mod transaction;
