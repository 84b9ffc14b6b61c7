//! Transactional core of a two-sided limit order-book exchange for one
//! trading pair: price-time ordered books, matching, per-participant
//! ledgers, cancellation and settlement.
pub mod error;
pub mod state;
pub mod ledger;
pub mod order_book;
pub mod engine;
pub mod instructions;
pub mod laws;
