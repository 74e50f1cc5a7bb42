//! An in-memory, single-process proof-of-work ledger.
//!
//! Pending value-transfer records accumulate in a [`blockchain::Chain`] and
//! are periodically sealed into hash-linked blocks by a brute-force nonce
//! search; each sealed block rewards one configured participant.

pub mod amount;
pub mod digest;
pub mod blockchain;


