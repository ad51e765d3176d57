//! A verified core for a small per-account financial ledger.
//!
//! Each account carries a balance and a credit limit, and keeps the ten most
//! recent accepted transactions. The crate provides the domain rules
//! (credit-limit validation), a fixed-layout binary codec for account and
//! transaction records, two per-account lock protocols (a token-guarded lock
//! with expiry and a plain lock-word table), a repository contract with two
//! interchangeable backends — a byte-region store that persists records
//! through the codec, and an in-memory cache mirror — and the service that
//! ties them together. All of it is specified with contracts and verified.

pub mod account;
pub mod adapters;
pub mod cache;
pub mod codec;
pub mod errors;
pub mod lock;
pub mod repositories;
pub mod server;
pub mod service;
pub mod store;
pub mod transaction;
