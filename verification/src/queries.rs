//! What the ledger reports of an account and of the active root.

use vstd::prelude::*;
use crate::error::ContractError;
use crate::msg::UserStateResponse;
use crate::state::{Config, UserState};
use crate::vesting::{claimable_amount, claimable_representable};

verus! {

/// What is reported of an account at `now`: its fields and what it could claim.
pub open spec fn user_state_answer(config: Config, account: UserState, now: u64) -> Result<
    UserStateResponse,
    ContractError,
> {
    if claimable_representable(
        config.distribution_schedule@,
        account.assigned_amount as int,
        account.claimed_amount as int,
        account.last_claimed_time as int,
        now as int,
    ) {
        Ok(
            UserStateResponse {
                user: account.user,
                assigned_amount: account.assigned_amount,
                claimed_amount: account.claimed_amount,
                claimable_amount: claimable_amount(
                    config.distribution_schedule@,
                    account.assigned_amount as int,
                    account.claimed_amount as int,
                    account.last_claimed_time as int,
                    now as int,
                ) as u128,
                last_claimed_time: account.last_claimed_time,
            },
        )
    } else {
        Err(ContractError::Overflow)
    }
}

/// Reports an account and what it could claim at `now`.
pub fn query_user_state(config: &Config, account: &UserState, now: u64) -> (res: Result<
    UserStateResponse,
    ContractError,
>)
    ensures
        res == user_state_answer(*config, *account, now),
{
    let claimable_amount: u128 = match account.calc_claimable_amount(config, now) {
        Ok(amount) => amount,
        Err(error) => {
            return Err(error);
        },
    };
    Ok(
        UserStateResponse {
            user: account.user.clone(),
            assigned_amount: account.assigned_amount,
            claimed_amount: account.claimed_amount,
            claimable_amount,
            last_claimed_time: account.last_claimed_time,
        },
    )
}

/// The active Merkle root, in hex.
pub fn query_merkle_root(active_root: Option<String>) -> (res: Result<String, ContractError>)
    ensures
        res == (match active_root {
            Some(root) => Ok(root),
            None => Err(ContractError::MerkleRootNotFound),
        }),
{
    match active_root {
        Some(root) => Ok(root),
        None => Err(ContractError::MerkleRootNotFound),
    }
}

} // verus!
