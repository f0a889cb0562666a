//! A tamper-evident attestation ledger: one Merkle-root commitment per
//! (owner, period) key, a one-way revocation status per key, a write-once
//! administrator, and a bounded, filterable pagination query.

pub mod bytes;
pub mod ledger;
pub mod page;
