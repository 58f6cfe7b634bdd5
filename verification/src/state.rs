//! The ledger records: the configuration, the global totals and one account per
//! recipient.

use vstd::prelude::*;
use crate::decimal::{checked_from_ratio, checked_mul_floor, Decimal};
use crate::error::ContractError;
use crate::schedule::valid_schedule;
use crate::vesting::{
    claimable_amount, claimable_representable, schedule_end, step_representable, vested_sum,
};

verus! {

/// One segment of the distribution schedule: between `start` and `end`, in seconds,
/// the fraction `percent` of an allotment is released linearly. A segment with
/// `start == end` releases its fraction at once.
#[derive(Clone, Copy, Debug, PartialEq, Eq, Structural)]
pub struct DistributionSchedule {
    pub start: u64,
    pub end: u64,
    pub percent: Decimal,
}

/// The configuration of the airdrop, which only the administrator changes.
#[derive(Clone, Debug, PartialEq, Eq)]
pub struct Config {
    pub admin: String,
    /// The token contract that pays out.
    pub cw20_token_address: String,
    /// The expiry, in seconds.
    pub expired: u64,
    pub distribution_schedule: Vec<DistributionSchedule>,
}

/// The totals of the whole ledger.
#[derive(Clone, Copy, Debug, PartialEq, Eq, Structural)]
pub struct State {
    /// The total that the registered Merkle root attests.
    pub total_airdrop_amount: u128,
    /// The sum of all accepted participations.
    pub total_assigned_amount: u128,
    /// The sum of all executed claims.
    pub total_claimed_amount: u128,
}

/// The account of one recipient. It exists from the first time it is asked for,
/// with nothing assigned and nothing claimed.
#[derive(Clone, Debug, PartialEq, Eq)]
pub struct UserState {
    pub user: String,
    /// The allotment; zero until a proof has been accepted, and written once.
    pub assigned_amount: u128,
    /// What has been paid out of the allotment so far.
    pub claimed_amount: u128,
    /// The time of the last claim, in seconds.
    pub last_claimed_time: u64,
}

impl Config {
    /// The schedule is valid. Every configuration that the ledger's operations hand
    /// out is well formed.
    pub open spec fn wf(&self) -> bool {
        valid_schedule(self.distribution_schedule@)
    }
}

impl State {
    /// The totals of a ledger on which nothing has happened yet.
    pub fn new() -> (state: State)
        ensures
            state == (State {
                total_airdrop_amount: 0,
                total_assigned_amount: 0,
                total_claimed_amount: 0,
            }),
    {
        State { total_airdrop_amount: 0, total_assigned_amount: 0, total_claimed_amount: 0 }
    }

    /// The stored totals, or those of a fresh ledger where none are stored.
    pub fn load(stored: Option<State>) -> (state: State)
        ensures
            state == (match stored {
                Some(found) => found,
                None => State {
                    total_airdrop_amount: 0,
                    total_assigned_amount: 0,
                    total_claimed_amount: 0,
                },
            }),
    {
        match stored {
            Some(found) => found,
            None => State::new(),
        }
    }
}

impl UserState {
    /// The account of a recipient that has not participated yet.
    pub fn new(user: String) -> (account: UserState)
        ensures
            account == (UserState {
                user,
                assigned_amount: 0,
                claimed_amount: 0,
                last_claimed_time: 0,
            }),
    {
        UserState { user, assigned_amount: 0, claimed_amount: 0, last_claimed_time: 0 }
    }

    /// The stored account of `user`, or a fresh one where none is stored.
    pub fn load(stored: Option<UserState>, user: String) -> (account: UserState)
        ensures
            account == (match stored {
                Some(found) => found,
                None => UserState {
                    user,
                    assigned_amount: 0,
                    claimed_amount: 0,
                    last_claimed_time: 0,
                },
            }),
    {
        match stored {
            Some(found) => found,
            None => UserState::new(user),
        }
    }

    /// The amount that can be claimed at `now`, in seconds, under `config`'s schedule.
    ///
    /// It is computed in 128 bits; where a step of the computation does not
    /// fit, the answer is `ContractError::Overflow`.
    pub fn calc_claimable_amount(&self, config: &Config, now: u64) -> (res: Result<
        u128,
        ContractError,
    >)
        ensures
            match res {
                Ok(amount) => {
                    &&& claimable_representable(
                        config.distribution_schedule@,
                        self.assigned_amount as int,
                        self.claimed_amount as int,
                        self.last_claimed_time as int,
                        now as int,
                    )
                    &&& amount == claimable_amount(
                        config.distribution_schedule@,
                        self.assigned_amount as int,
                        self.claimed_amount as int,
                        self.last_claimed_time as int,
                        now as int,
                    )
                },
                Err(e) => {
                    &&& !claimable_representable(
                        config.distribution_schedule@,
                        self.assigned_amount as int,
                        self.claimed_amount as int,
                        self.last_claimed_time as int,
                        now as int,
                    )
                    &&& e == ContractError::Overflow
                },
            },
    {
        let schedule = &config.distribution_schedule;
        let ghost assigned = self.assigned_amount as int;
        let ghost last = self.last_claimed_time as int;
        let n: usize = schedule.len();
        let mut claimable: u128 = 0;
        let mut last_end: u64 = 0;
        let mut i: usize = 0;
        while i < n
            invariant
                i <= n,
                n == schedule@.len(),
                schedule@ == config.distribution_schedule@,
                assigned == self.assigned_amount,
                last == self.last_claimed_time,
                claimable == vested_sum(schedule@.take(i as int), assigned, last, now as int),
                last_end == schedule_end(schedule@.take(i as int)),
                forall|j: int|
                    0 <= j < i ==> #[trigger] step_representable(
                        schedule@,
                        j,
                        assigned,
                        last,
                        now as int,
                    ),
            decreases n - i,
        {
            let seg = schedule[i];
            assert(schedule@.take(i + 1).drop_last() == schedule@.take(i as int));
            assert(schedule@.take(i + 1).last() == seg);
            let mut vested: u128 = 0;
            if seg.start <= now && seg.end >= self.last_claimed_time {
                let total: u128 = match checked_mul_floor(self.assigned_amount, seg.percent) {
                    Some(total) => total,
                    None => {
                        assert(!step_representable(schedule@, i as int, assigned, last, now as int));
                        return Err(ContractError::Overflow);
                    },
                };
                if seg.start == seg.end {
                    vested = total;
                } else {
                    let upper: u64 = if seg.end <= now { seg.end } else { now };
                    let lower: u64 = if seg.start >= self.last_claimed_time {
                        seg.start
                    } else {
                        self.last_claimed_time
                    };
                    if upper < lower || seg.end < seg.start {
                        assert(!step_representable(schedule@, i as int, assigned, last, now as int));
                        return Err(ContractError::Overflow);
                    }
                    let passed: u64 = upper - lower;
                    let rate: Decimal = match checked_from_ratio(total, seg.end - seg.start) {
                        Some(rate) => rate,
                        None => {
                            assert(!step_representable(
                                schedule@,
                                i as int,
                                assigned,
                                last,
                                now as int,
                            ));
                            return Err(ContractError::Overflow);
                        },
                    };
                    vested = match checked_mul_floor(passed as u128, rate) {
                        Some(vested) => vested,
                        None => {
                            assert(!step_representable(
                                schedule@,
                                i as int,
                                assigned,
                                last,
                                now as int,
                            ));
                            return Err(ContractError::Overflow);
                        },
                    };
                }
            }
            claimable = match claimable.checked_add(vested) {
                Some(sum) => sum,
                None => {
                    assert(!step_representable(schedule@, i as int, assigned, last, now as int));
                    return Err(ContractError::Overflow);
                },
            };
            assert(step_representable(schedule@, i as int, assigned, last, now as int));
            last_end = seg.end;
            i += 1;
        }
        assert(schedule@.take(n as int) == schedule@);
        if last_end <= now {
            if self.claimed_amount > self.assigned_amount {
                Err(ContractError::Overflow)
            } else {
                Ok(self.assigned_amount - self.claimed_amount)
            }
        } else {
            Ok(claimable)
        }
    }
}

} // verus!
