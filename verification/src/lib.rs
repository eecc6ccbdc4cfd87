//! Ordering cache for encrypted message-queue events, together with the
//! attestation report formats the surrounding node exchanges.

pub mod accounting;
pub mod attestation;
pub mod backup;
pub mod cache;
pub mod contract;
pub mod decode;
pub mod enclave;
pub mod error;
pub mod guarantees;
pub mod key_schedule;
pub mod ordering;
pub mod payload;
pub mod pool;
pub mod quote;
pub mod report;
pub mod terminal;
pub mod types;
