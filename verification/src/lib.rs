//! Merkle airdrop with piecewise-linear vesting.
//!
//! An administrator commits to a set of `(recipient, amount)` pairs through a Merkle
//! root. A recipient proves its allotment once with an inclusion proof, and the
//! allotment is then released over a distribution schedule. The crate holds the
//! proof check, the vesting arithmetic and the ledger transitions; every ledger
//! record is passed in and handed back as a plain value.

pub mod decimal;
pub mod entrypoints;
pub mod error;
pub mod executions;
pub mod merkle;
pub mod msg;
pub mod queries;
pub mod schedule;
pub mod state;
pub mod vesting;

pub use crate::error::ContractError;
