//! Time-locked commitments with non-fungible ownership tokens, an
//! attestation log and derived compliance metrics.
//!
//! - `nft`: the token registry (mint, transfer, settle, ownership queries).
//! - `ledger`: the commitment ledger and its state machine, kept coupled to
//!   the registry and to the asset custody.
//! - `attestation`: verifier whitelist, append-only attestation log, health
//!   metrics and the compliance decision.
//! - `asset`: fungible balances the ledger debits and credits.
//! - `math`: overflow-free percentage arithmetic.
//! - `pausable`: the emergency stop.
//!
//! Components keep their state in memory. Each operation takes the caller
//! and the current time as plain arguments, and either applies all of its
//! writes or returns an error and leaves every component as it was.

pub mod types;
pub mod pausable;
pub mod math;
pub mod asset;
pub mod nft;
pub mod ledger;
pub mod attestation;
