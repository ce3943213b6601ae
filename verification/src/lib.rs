//! A verified "name registry" ledger contract: callers claim storage slots
//! derived from an ownership flag, an account identity and a key, write a
//! value there, and may lock the slot permanently.
//!
//! The contract is split into four host-driven phases: `init_contract` sets
//! up the entries table, `get_metadata` packages the public inputs for the
//! proof verifier, `process_instruction` stages a validated update without
//! touching state, and `process_update` commits a staged update.

pub mod codec;
pub mod contract;
pub mod error;
pub mod field;
pub mod laws;
pub mod model;
pub mod store;
