//! Bid ledger of an asset marketplace.
//!
//! For every listed item the ledger keeps, per currency, a stack of offers
//! with strictly increasing prices and a bounded history. Every operation
//! returns the refunds that it owes as plain transfer instructions; sending
//! them is left to the caller. The clock and the caller's identity come in
//! as arguments.
//!
//! Beside the ledger stands the one rule on the royalties of a token
//! series: that they stay within a maximum.

pub mod bid;
pub mod error;
pub mod transfer;
pub mod stack;
pub mod assoc;
pub mod bids;
pub mod sale;
pub mod market;
pub mod laws;
pub mod royalty;
