//! The ledger's transitions. Each takes the records it reads and writes as plain
//! values; one that is turned down leaves every record as it was.

use vstd::prelude::*;
use crate::decimal::Decimal;
use crate::error::{ContractError, HexError};
use crate::merkle::{
    bytes_of_strings, decode_hash, decode_hex, proof_outcome, verify_proof, HASH_SIZE,
};
use crate::msg::{InstantiateMsg, Transfer};
use crate::schedule::{schedule_check, segments_of, validate_distribution_schedule};
use crate::state::{Config, DistributionSchedule, State, UserState};
use crate::vesting::{
    claimable_amount, claimable_representable, lemma_settled_account_is_representable, schedule_end,
};
use vstd::utf8::encode_utf8;

verus! {

/// The segments for a list of `(start, end, ratio)` triples.
fn to_segments(raw: &Vec<(u64, u64, Decimal)>) -> (segments: Vec<DistributionSchedule>)
    ensures
        segments@ == segments_of(raw@),
{
    let n: usize = raw.len();
    let mut segments: Vec<DistributionSchedule> = Vec::new();
    let mut i: usize = 0;
    while i < n
        invariant
            i <= n,
            n == raw@.len(),
            segments@ == segments_of(raw@).take(i as int),
        decreases n - i,
    {
        let (start, end, percent) = raw[i];
        segments.push(DistributionSchedule { start, end, percent });
        assert(segments@ == segments_of(raw@).take(i + 1));
        i += 1;
    }
    assert(segments_of(raw@).take(n as int) == segments_of(raw@));
    segments
}

/// Why a configuration cannot be created, if it cannot: because one exists, or
/// because of its schedule.
pub open spec fn instantiate_check(configured: bool, msg: InstantiateMsg) -> Result<
    (),
    ContractError,
> {
    if configured {
        Err(ContractError::AlreadyConfigured)
    } else {
        match schedule_check(segments_of(msg.distribution_schedule@)) {
            Err(error) => Err(ContractError::InvalidSchedule(error)),
            Ok(()) => Ok(()),
        }
    }
}

/// Creates the configuration, once. `current` is the configuration that exists, if
/// one does; the administrator is the one the message names, else the sender.
pub fn instantiate(current: &Option<Config>, sender: String, msg: InstantiateMsg) -> (res: Result<
    Config,
    ContractError,
>)
    ensures
        match res {
            Ok(config) => {
                &&& instantiate_check(current is Some, msg) is Ok
                &&& config.admin == (match msg.admin {
                    Some(admin) => admin,
                    None => sender,
                })
                &&& config.cw20_token_address == msg.cw20_token_address
                &&& config.expired == msg.expired
                &&& config.distribution_schedule@ == segments_of(msg.distribution_schedule@)
                &&& config.wf()
            },
            Err(error) => instantiate_check(current is Some, msg) == Err::<(), ContractError>(
                error,
            ),
        },
{
    if current.is_some() {
        return Err(ContractError::AlreadyConfigured);
    }
    if let Err(error) = validate_distribution_schedule(&msg.distribution_schedule) {
        return Err(ContractError::InvalidSchedule(error));
    }
    let distribution_schedule = to_segments(&msg.distribution_schedule);
    let admin: String = match msg.admin {
        Some(admin) => admin,
        None => sender,
    };
    Ok(
        Config {
            admin,
            cw20_token_address: msg.cw20_token_address,
            expired: msg.expired,
            distribution_schedule,
        },
    )
}

/// Why a configuration cannot be changed, if it cannot: because the sender is not
/// the administrator, or because of the new schedule.
pub open spec fn update_config_check(
    config: Config,
    sender: Seq<char>,
    distribution_schedule: Option<Vec<(u64, u64, Decimal)>>,
) -> Result<(), ContractError> {
    if sender != config.admin@ {
        Err(ContractError::Unauthorized)
    } else {
        match distribution_schedule {
            None => Ok(()),
            Some(raw) => match schedule_check(segments_of(raw@)) {
                Err(error) => Err(ContractError::InvalidSchedule(error)),
                Ok(()) => Ok(()),
            },
        }
    }
}

/// `after` is `before` with the administrator, the expiry and the schedule
/// replaced, each where one is given.
pub open spec fn config_updated(
    before: Config,
    after: Config,
    admin: Option<String>,
    expired: Option<u64>,
    distribution_schedule: Option<Vec<(u64, u64, Decimal)>>,
) -> bool {
    &&& after.admin == (match admin {
        Some(admin) => admin,
        None => before.admin,
    })
    &&& after.cw20_token_address == before.cw20_token_address
    &&& after.expired == (match expired {
        Some(expired) => expired,
        None => before.expired,
    })
    &&& after.distribution_schedule@ == (match distribution_schedule {
        Some(raw) => segments_of(raw@),
        None => before.distribution_schedule@,
    })
}

/// Replaces the administrator, the expiry and the schedule, each where one is
/// given. For the administrator only.
pub fn update_config(
    config: &mut Config,
    sender: &String,
    admin: Option<String>,
    expired: Option<u64>,
    distribution_schedule: Option<Vec<(u64, u64, Decimal)>>,
) -> (res: Result<(), ContractError>)
    ensures
        res == update_config_check(*old(config), sender@, distribution_schedule),
        res is Err ==> *final(config) == *old(config),
        res is Ok ==> config_updated(
            *old(config),
            *final(config),
            admin,
            expired,
            distribution_schedule,
        ),
        old(config).wf() && res is Ok ==> final(config).wf(),
{
    if *sender != config.admin {
        return Err(ContractError::Unauthorized);
    }
    let mut segments: Option<Vec<DistributionSchedule>> = None;
    if let Some(raw) = &distribution_schedule {
        if let Err(error) = validate_distribution_schedule(raw) {
            return Err(ContractError::InvalidSchedule(error));
        }
        segments = Some(to_segments(raw));
    }
    if let Some(admin) = admin {
        config.admin = admin;
    }
    if let Some(expired) = expired {
        config.expired = expired;
    }
    if let Some(segments) = segments {
        config.distribution_schedule = segments;
    }
    Ok(())
}

/// Why a root cannot be registered, if it cannot: because the sender is not the
/// administrator, or because the root is not the hex form of a hash.
pub open spec fn register_merkle_root_check(
    config: Config,
    sender: Seq<char>,
    merkle_root: Seq<char>,
) -> Result<(), ContractError> {
    if sender != config.admin@ {
        Err(ContractError::Unauthorized)
    } else {
        match decode_hex(encode_utf8(merkle_root), HASH_SIZE as int) {
            Err(error) => Err(ContractError::Hex(error)),
            Ok(_) => Ok(()),
        }
    }
}

/// Makes `merkle_root` the active root, in place of any earlier one, and records
/// the total that it attests. For the administrator only.
pub fn register_merkle_root(
    config: &Config,
    state: &mut State,
    active_root: &mut Option<String>,
    sender: &String,
    merkle_root: String,
    total_amount: u128,
) -> (res: Result<(), ContractError>)
    ensures
        res == register_merkle_root_check(*config, sender@, merkle_root@),
        res is Err ==> *final(state) == *old(state) && *final(active_root) == *old(active_root),
        res is Ok ==> {
            &&& *final(active_root) == Some(merkle_root)
            &&& *final(state) == (State { total_airdrop_amount: total_amount, ..*old(state) })
        },
{
    if *sender != config.admin {
        return Err(ContractError::Unauthorized);
    }
    if let Err(error) = decode_hash(merkle_root.as_str()) {
        return Err(ContractError::Hex(error));
    }
    *active_root = Some(merkle_root);
    state.total_airdrop_amount = total_amount;
    Ok(())
}

/// What becomes of a participation once its proof has been checked, `verified`
/// being the outcome of that check: the totals and the account after it, or why it
/// is turned down.
pub open spec fn assignment(
    state: State,
    account: UserState,
    amount: u128,
    verified: Result<bool, HexError>,
) -> Result<(State, UserState), ContractError> {
    match verified {
        Err(error) => Err(ContractError::Hex(error)),
        Ok(false) => Err(ContractError::VerificationFailed),
        Ok(true) => if state.total_assigned_amount + amount > u128::MAX {
            Err(ContractError::Overflow)
        } else {
            Ok(
                (
                    State {
                        total_assigned_amount: (state.total_assigned_amount + amount) as u128,
                        ..state
                    },
                    UserState { assigned_amount: amount, ..account },
                ),
            )
        },
    }
}

/// Records an assignment of `amount` to `account`, given the outcome `verified` of
/// the proof check.
pub fn assign(
    state: &mut State,
    account: &mut UserState,
    amount: u128,
    verified: Result<bool, HexError>,
) -> (res: Result<(), ContractError>)
    ensures
        match res {
            Ok(()) => assignment(*old(state), *old(account), amount, verified) == Ok::<
                (State, UserState),
                ContractError,
            >((*final(state), *final(account))),
            Err(error) => {
                &&& assignment(*old(state), *old(account), amount, verified) == Err::<
                    (State, UserState),
                    ContractError,
                >(error)
                &&& *final(state) == *old(state)
                &&& *final(account) == *old(account)
            },
        },
{
    match verified {
        Err(error) => Err(ContractError::Hex(error)),
        Ok(false) => Err(ContractError::VerificationFailed),
        Ok(true) => match state.total_assigned_amount.checked_add(amount) {
            None => Err(ContractError::Overflow),
            Some(total) => {
                state.total_assigned_amount = total;
                account.assigned_amount = amount;
                Ok(())
            },
        },
    }
}

/// What a participation leads to: the totals and the account after it, or why it
/// is turned down. The checks come in this order: the expiry, an earlier
/// assignment, a registered root, the proof, the total.
pub open spec fn participation(
    config: Config,
    active_root: Option<String>,
    state: State,
    account: UserState,
    now: u64,
    amount: u128,
    proof: Seq<String>,
) -> Result<(State, UserState), ContractError> {
    if now >= config.expired {
        Err(ContractError::Expired { expiration: config.expired })
    } else if account.assigned_amount != 0 {
        Err(ContractError::Claimed)
    } else {
        match active_root {
            None => Err(ContractError::MerkleRootNotFound),
            Some(root) => assignment(
                state,
                account,
                amount,
                proof_outcome(
                    account.user@,
                    amount as nat,
                    bytes_of_strings(proof),
                    encode_utf8(root@),
                ),
            ),
        }
    }
}

/// Assigns `amount` to `account`, the sender's, if `proof` shows that the active
/// root commits to the pair of the sender and `amount`, the airdrop has not
/// expired at `now`, and the account holds no assignment yet.
pub fn participate(
    config: &Config,
    active_root: &Option<String>,
    state: &mut State,
    account: &mut UserState,
    now: u64,
    amount: u128,
    proof: Vec<String>,
) -> (res: Result<(), ContractError>)
    ensures
        match res {
            Ok(()) => participation(
                *config,
                *active_root,
                *old(state),
                *old(account),
                now,
                amount,
                proof@,
            ) == Ok::<(State, UserState), ContractError>((*final(state), *final(account))),
            Err(error) => {
                &&& participation(
                    *config,
                    *active_root,
                    *old(state),
                    *old(account),
                    now,
                    amount,
                    proof@,
                ) == Err::<(State, UserState), ContractError>(error)
                &&& *final(state) == *old(state)
                &&& *final(account) == *old(account)
            },
        },
{
    if now >= config.expired {
        return Err(ContractError::Expired { expiration: config.expired });
    }
    if account.assigned_amount != 0 {
        return Err(ContractError::Claimed);
    }
    let root: &String = match active_root {
        None => {
            return Err(ContractError::MerkleRootNotFound);
        },
        Some(root) => root,
    };
    let verified = verify_proof(account.user.as_str(), amount, &proof, root.as_str());
    assign(state, account, amount, verified)
}

/// What a claim at `now` leads to: the totals and the account after it and the
/// payment to make, or `Overflow` where an amount does not fit.
pub open spec fn claiming(config: Config, state: State, account: UserState, now: u64) -> Result<
    (State, UserState, Transfer),
    ContractError,
> {
    let amount = claimable_amount(
        config.distribution_schedule@,
        account.assigned_amount as int,
        account.claimed_amount as int,
        account.last_claimed_time as int,
        now as int,
    );
    if !claimable_representable(
        config.distribution_schedule@,
        account.assigned_amount as int,
        account.claimed_amount as int,
        account.last_claimed_time as int,
        now as int,
    ) || state.total_claimed_amount + amount > u128::MAX || account.claimed_amount + amount
        > u128::MAX {
        Err(ContractError::Overflow)
    } else {
        Ok(
            (
                State { total_claimed_amount: (state.total_claimed_amount + amount) as u128, ..state },
                UserState {
                    claimed_amount: (account.claimed_amount + amount) as u128,
                    last_claimed_time: now,
                    ..account
                },
                Transfer { recipient: account.user, amount: amount as u128 },
            ),
        )
    }
}

/// Pays out what `account`, the sender's, can claim at `now`: the amount is added
/// to what the account and the ledger have released, the time of the claim is
/// recorded, and the payment is handed back. An amount of zero is paid like any
/// other.
pub fn claim(config: &Config, state: &mut State, account: &mut UserState, now: u64) -> (res: Result<
    Transfer,
    ContractError,
>)
    ensures
        match res {
            Ok(transfer) => claiming(*config, *old(state), *old(account), now) == Ok::<
                (State, UserState, Transfer),
                ContractError,
            >((*final(state), *final(account), transfer)),
            Err(error) => {
                &&& claiming(*config, *old(state), *old(account), now) == Err::<
                    (State, UserState, Transfer),
                    ContractError,
                >(error)
                &&& *final(state) == *old(state)
                &&& *final(account) == *old(account)
            },
        },
{
    let amount: u128 = match account.calc_claimable_amount(config, now) {
        Ok(amount) => amount,
        Err(error) => {
            return Err(error);
        },
    };
    let total_claimed: u128 = match state.total_claimed_amount.checked_add(amount) {
        Some(total) => total,
        None => {
            return Err(ContractError::Overflow);
        },
    };
    let claimed: u128 = match account.claimed_amount.checked_add(amount) {
        Some(claimed) => claimed,
        None => {
            return Err(ContractError::Overflow);
        },
    };
    state.total_claimed_amount = total_claimed;
    account.claimed_amount = claimed;
    account.last_claimed_time = now;
    Ok(Transfer { recipient: account.user.clone(), amount })
}

/// What a withdrawal at `now` leads to: the payment of all that was assigned and
/// not claimed, or why it is turned down.
pub open spec fn withdrawal(
    config: Config,
    state: State,
    sender: Seq<char>,
    now: u64,
    address: String,
) -> Result<Transfer, ContractError> {
    if sender != config.admin@ {
        Err(ContractError::Unauthorized)
    } else if now < config.expired {
        Err(ContractError::NotExpired { expiration: config.expired })
    } else if state.total_claimed_amount > state.total_assigned_amount {
        Err(ContractError::Unauthorized)
    } else {
        Ok(
            Transfer {
                recipient: address,
                amount: (state.total_assigned_amount - state.total_claimed_amount) as u128,
            },
        )
    }
}

/// Hands what was assigned and not claimed to `address`, once the airdrop has
/// expired. For the administrator only. No record changes, so a second withdrawal
/// with no claim in between asks for the same payment again.
pub fn withdraw(config: &Config, state: &State, sender: &String, now: u64, address: String) -> (res:
    Result<Transfer, ContractError>)
    ensures
        res == withdrawal(*config, *state, sender@, now, address),
{
    if *sender != config.admin {
        return Err(ContractError::Unauthorized);
    }
    if now < config.expired {
        return Err(ContractError::NotExpired { expiration: config.expired });
    }
    if state.total_claimed_amount > state.total_assigned_amount {
        return Err(ContractError::Unauthorized);
    }
    Ok(
        Transfer {
            recipient: address,
            amount: state.total_assigned_amount - state.total_claimed_amount,
        },
    )
}

/// An assignment is written once: an account that holds one is turned down with
/// `Claimed` as long as the airdrop has not expired, whatever amount, proof and
/// root come with the request.
pub proof fn lemma_assignment_is_write_once(
    config: Config,
    active_root: Option<String>,
    state: State,
    account: UserState,
    now: u64,
    amount: u128,
    proof: Seq<String>,
)
    requires
        account.assigned_amount != 0,
        now < config.expired,
    ensures
        participation(config, active_root, state, account, now, amount, proof) == Err::<
            (State, UserState),
            ContractError,
        >(ContractError::Claimed),
{
}

/// A second participation is turned down: after one that was accepted for an
/// amount other than zero, the same account is refused with `Claimed` as long as
/// the airdrop has not expired, even with a valid proof.
pub proof fn lemma_second_participation_is_refused(
    config: Config,
    active_root: Option<String>,
    state: State,
    account: UserState,
    now: u64,
    amount: u128,
    proof: Seq<String>,
    later_root: Option<String>,
    later: u64,
    later_amount: u128,
    later_proof: Seq<String>,
)
    requires
        participation(config, active_root, state, account, now, amount, proof) is Ok,
        amount != 0,
        later < config.expired,
    ensures
        ({
            let (state_after, account_after) = participation(
                config,
                active_root,
                state,
                account,
                now,
                amount,
                proof,
            )->Ok_0;
            &&& account_after.assigned_amount == amount
            &&& participation(
                config,
                later_root,
                state_after,
                account_after,
                later,
                later_amount,
                later_proof,
            ) == Err::<(State, UserState), ContractError>(ContractError::Claimed)
        }),
{
}

/// Once the schedule has ended, one claim brings the claimed amount to exactly the
/// assigned amount, whatever the segments' rounding lost before. Every later claim
/// is accepted, pays nothing and leaves the amounts as they are.
pub proof fn lemma_claim_after_end_settles(
    config: Config,
    state: State,
    account: UserState,
    now: u64,
    later: u64,
)
    requires
        config.wf(),
        account.last_claimed_time <= now <= later,
        schedule_end(config.distribution_schedule@) <= now,
        claiming(config, state, account, now) is Ok,
    ensures
        ({
            let (state_after, account_after, transfer) = claiming(config, state, account, now)->Ok_0;
            &&& account_after.claimed_amount == account.assigned_amount
            &&& transfer.amount == account.assigned_amount - account.claimed_amount
            &&& claiming(config, state_after, account_after, later) == Ok::<
                (State, UserState, Transfer),
                ContractError,
            >(
                (
                    state_after,
                    UserState { last_claimed_time: later, ..account_after },
                    Transfer { recipient: account.user, amount: 0 },
                ),
            )
        }),
{
    lemma_settled_account_is_representable(
        config.distribution_schedule@,
        account.assigned_amount,
        account.claimed_amount,
        account.last_claimed_time,
        now,
        later,
    );
}

} // verus!
