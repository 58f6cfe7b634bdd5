//! The messages that reach the ledger, and what it answers.

use vstd::prelude::*;
use crate::decimal::Decimal;
use crate::state::{Config, State};

verus! {

/// What a configuration is created from.
#[derive(Clone, Debug, PartialEq, Eq)]
pub struct InstantiateMsg {
    /// The administrator; the sender where none is given.
    pub admin: Option<String>,
    pub cw20_token_address: String,
    /// The expiry, in seconds.
    pub expired: u64,
    /// The schedule as `(start, end, ratio)` triples.
    pub distribution_schedule: Vec<(u64, u64, Decimal)>,
}

/// The operations that change the ledger.
#[derive(Clone, Debug, PartialEq, Eq)]
pub enum ExecuteMsg {
    /// Replaces what is given of the configuration. For the administrator only.
    UpdateConfig {
        admin: Option<String>,
        expired: Option<u64>,
        distribution_schedule: Option<Vec<(u64, u64, Decimal)>>,
    },
    /// Makes a root the active one. For the administrator only.
    RegisterMerkleRoot {
        /// The Merkle root in hex.
        merkle_root: String,
        total_amount: u128,
    },
    /// Proves the sender's allotment.
    Participate {
        amount: u128,
        /// The sibling hashes from the leaf upwards, each in hex.
        proof: Vec<String>,
    },
    /// Pays out what has vested of the sender's allotment.
    Claim {},
    /// Hands what was assigned and not claimed to `address`, once the airdrop has
    /// expired. For the administrator only.
    Withdraw { address: String },
}

/// The questions that the ledger answers.
#[derive(Clone, Debug, PartialEq, Eq)]
pub enum QueryMsg {
    Config {},
    State {},
    UserState { address: String },
    MerkleRoot {},
}

/// An account, and what it could claim when it was asked for.
#[derive(Clone, Debug, PartialEq, Eq)]
pub struct UserStateResponse {
    pub user: String,
    pub assigned_amount: u128,
    pub claimed_amount: u128,
    pub claimable_amount: u128,
    pub last_claimed_time: u64,
}

/// A migration carries no data.
#[derive(Clone, Copy, Debug, PartialEq, Eq)]
pub struct MigrateMsg {}

/// An instruction to the token contract: pay `amount` to `recipient`.
#[derive(Clone, Debug, PartialEq, Eq)]
pub struct Transfer {
    pub recipient: String,
    pub amount: u128,
}

/// The answer to a query, one variant for each kind of query.
#[derive(Clone, Debug, PartialEq, Eq)]
pub enum QueryResponse {
    Config(Config),
    State(State),
    UserState(UserStateResponse),
    MerkleRoot(String),
}

} // verus!
