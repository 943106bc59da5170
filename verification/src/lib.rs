//! Batch matching of confidential trade intents.
//!
//! Intents are admitted into an order book, paired by an all-or-nothing
//! first-fit scan, settled into a ledger of net balances, and the outcome of
//! a batch is bound to a recoverable signature.

pub mod attest;
pub mod book;
pub mod engine;
pub mod ledger;
pub mod matcher;
pub mod model;
