//! One entry for all messages that change the ledger, one for all queries, and the
//! check that guards a migration.

use vstd::prelude::*;
use vstd::string::StringExecFns;
use crate::error::ContractError;
use crate::executions::{
    claim, claiming, config_updated, participate, participation, register_merkle_root,
    register_merkle_root_check, update_config, update_config_check, withdraw, withdrawal,
};
use crate::msg::{ExecuteMsg, MigrateMsg, QueryMsg, QueryResponse, Transfer};
use crate::queries::{query_merkle_root, query_user_state, user_state_answer};
use crate::state::{Config, State, UserState};

verus! {

/// The name under which this contract stores its version.
pub const CONTRACT_NAME: &'static str = "crates.io:cw20-merkle-airdrop";

/// Carries out the operation that `msg` names on behalf of the holder of
/// `account`, at time `now`, and hands back the payment to make, if the operation
/// asks for one. What each operation does to the records, and when it is turned
/// down, is what the operation itself states; an operation that is turned down
/// changes no record.
pub fn execute(
    config: &mut Config,
    state: &mut State,
    active_root: &mut Option<String>,
    account: &mut UserState,
    now: u64,
    msg: ExecuteMsg,
) -> (res: Result<Option<Transfer>, ContractError>)
    ensures
        res is Err ==> {
            &&& *final(config) == *old(config)
            &&& *final(state) == *old(state)
            &&& *final(active_root) == *old(active_root)
            &&& *final(account) == *old(account)
        },
        match msg {
            ExecuteMsg::UpdateConfig { admin, expired, distribution_schedule } => {
                &&& update_config_check(*old(config), old(account).user@, distribution_schedule)
                    == (match res {
                    Ok(_) => Ok(()),
                    Err(error) => Err(error),
                })
                &&& res matches Ok(payment) ==> {
                    &&& payment is None
                    &&& config_updated(
                        *old(config),
                        *final(config),
                        admin,
                        expired,
                        distribution_schedule,
                    )
                    &&& *final(state) == *old(state)
                    &&& *final(active_root) == *old(active_root)
                    &&& *final(account) == *old(account)
                }
            },
            ExecuteMsg::RegisterMerkleRoot { merkle_root, total_amount } => {
                &&& register_merkle_root_check(*old(config), old(account).user@, merkle_root@)
                    == (match res {
                    Ok(_) => Ok(()),
                    Err(error) => Err(error),
                })
                &&& res matches Ok(payment) ==> {
                    &&& payment is None
                    &&& *final(active_root) == Some(merkle_root)
                    &&& *final(state) == (State {
                        total_airdrop_amount: total_amount,
                        ..*old(state)
                    })
                    &&& *final(config) == *old(config)
                    &&& *final(account) == *old(account)
                }
            },
            ExecuteMsg::Participate { amount, proof } => {
                &&& participation(
                    *old(config),
                    *old(active_root),
                    *old(state),
                    *old(account),
                    now,
                    amount,
                    proof@,
                ) == (match res {
                    Ok(_) => Ok((*final(state), *final(account))),
                    Err(error) => Err(error),
                })
                &&& res matches Ok(payment) ==> {
                    &&& payment is None
                    &&& *final(config) == *old(config)
                    &&& *final(active_root) == *old(active_root)
                }
            },
            ExecuteMsg::Claim {  } => {
                &&& res matches Ok(payment) ==> {
                    &&& payment matches Some(transfer)
                    &&& claiming(*old(config), *old(state), *old(account), now) == Ok::<
                        (State, UserState, Transfer),
                        ContractError,
                    >((*final(state), *final(account), transfer))
                    &&& *final(config) == *old(config)
                    &&& *final(active_root) == *old(active_root)
                }
                &&& res matches Err(error) ==> claiming(
                    *old(config),
                    *old(state),
                    *old(account),
                    now,
                ) == Err::<(State, UserState, Transfer), ContractError>(error)
            },
            ExecuteMsg::Withdraw { address } => {
                &&& res matches Err(error) ==> withdrawal(
                    *old(config),
                    *old(state),
                    old(account).user@,
                    now,
                    address,
                ) == Err::<Transfer, ContractError>(error)
                &&& res matches Ok(payment) ==> {
                    &&& payment matches Some(transfer)
                    &&& withdrawal(*old(config), *old(state), old(account).user@, now, address)
                        == Ok::<Transfer, ContractError>(transfer)
                    &&& *final(config) == *old(config)
                    &&& *final(state) == *old(state)
                    &&& *final(active_root) == *old(active_root)
                    &&& *final(account) == *old(account)
                }
            },
        },
{
    match msg {
        ExecuteMsg::UpdateConfig { admin, expired, distribution_schedule } => {
            match update_config(config, &account.user, admin, expired, distribution_schedule) {
                Ok(()) => Ok(None),
                Err(error) => Err(error),
            }
        },
        ExecuteMsg::RegisterMerkleRoot { merkle_root, total_amount } => {
            match register_merkle_root(
                config,
                state,
                active_root,
                &account.user,
                merkle_root,
                total_amount,
            ) {
                Ok(()) => Ok(None),
                Err(error) => Err(error),
            }
        },
        ExecuteMsg::Participate { amount, proof } => {
            match participate(config, active_root, state, account, now, amount, proof) {
                Ok(()) => Ok(None),
                Err(error) => Err(error),
            }
        },
        ExecuteMsg::Claim {  } => {
            match claim(config, state, account, now) {
                Ok(transfer) => Ok(Some(transfer)),
                Err(error) => Err(error),
            }
        },
        ExecuteMsg::Withdraw { address } => {
            match withdraw(config, state, &account.user, now, address) {
                Ok(transfer) => Ok(Some(transfer)),
                Err(error) => Err(error),
            }
        },
    }
}

/// The answer to each kind of query.
pub open spec fn answer(
    config: Config,
    state: State,
    active_root: Option<String>,
    account: UserState,
    now: u64,
    msg: QueryMsg,
) -> Result<QueryResponse, ContractError> {
    match msg {
        QueryMsg::Config {  } => Ok(QueryResponse::Config(config)),
        QueryMsg::State {  } => Ok(QueryResponse::State(state)),
        QueryMsg::UserState { .. } => match user_state_answer(config, account, now) {
            Ok(response) => Ok(QueryResponse::UserState(response)),
            Err(error) => Err(error),
        },
        QueryMsg::MerkleRoot {  } => match active_root {
            Some(root) => Ok(QueryResponse::MerkleRoot(root)),
            None => Err(ContractError::MerkleRootNotFound),
        },
    }
}

/// Answers a query from the ledger's records as they stand at `now`. `account` is
/// the account of the address that a query for a user names.
pub fn query(
    config: Config,
    state: State,
    active_root: Option<String>,
    account: UserState,
    now: u64,
    msg: QueryMsg,
) -> (res: Result<QueryResponse, ContractError>)
    ensures
        res == answer(config, state, active_root, account, now, msg),
{
    match msg {
        QueryMsg::Config {  } => Ok(QueryResponse::Config(config)),
        QueryMsg::State {  } => Ok(QueryResponse::State(state)),
        QueryMsg::UserState { .. } => match query_user_state(&config, &account, now) {
            Ok(response) => Ok(QueryResponse::UserState(response)),
            Err(error) => Err(error),
        },
        QueryMsg::MerkleRoot {  } => match query_merkle_root(active_root) {
            Ok(root) => Ok(QueryResponse::MerkleRoot(root)),
            Err(error) => Err(error),
        },
    }
}

/// Lets a migration pass where the stored contract name is this contract's.
pub fn migrate(stored_contract: String, _msg: MigrateMsg) -> (res: Result<(), ContractError>)
    ensures
        res == (if stored_contract@ == CONTRACT_NAME@ {
            Ok(())
        } else {
            Err(ContractError::CannotMigrate { previous_contract: stored_contract })
        }),
{
    let name: String = String::from_str(CONTRACT_NAME);
    if stored_contract != name {
        return Err(ContractError::CannotMigrate { previous_contract: stored_contract });
    }
    Ok(())
}

} // verus!
