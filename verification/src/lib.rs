//! A deposit ledger over an indexed, height-versioned keyed store.
//!
//! The crate records custody of three asset classes — native value units,
//! fungible token balances, and non-fungible token holdings — on behalf of
//! depositing owners, and releases them under withdraw rules, one of which
//! is time-locked. It is built on a small storage engine: a compound-key
//! record store with prefix scans, a secondary index kept consistent with
//! the primary records, and a height-versioned changelog that lets callers
//! reconstruct past values.

pub mod contract;
pub mod error;
pub mod index;
pub mod keys;
pub mod laws;
pub mod msg;
pub mod snapshot;
pub mod state;
pub mod store;
