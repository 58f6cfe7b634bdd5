use cw20_merkle_airdrop::decimal::Decimal;
use cw20_merkle_airdrop::error::ContractError;
use cw20_merkle_airdrop::state::{Config, DistributionSchedule, State, UserState};

fn config_with(segments: Vec<(u64, u64, Decimal)>) -> Config {
    Config {
        admin: String::from("admin"),
        cw20_token_address: String::from("token"),
        expired: 1_000,
        distribution_schedule: segments
            .into_iter()
            .map(|(start, end, percent)| DistributionSchedule { start, end, percent })
            .collect(),
    }
}

fn half_at_once_half_linear() -> Config {
    config_with(vec![(0, 0, Decimal::percent(50)), (100, 200, Decimal::percent(50))])
}

fn account(assigned: u128, claimed: u128, last_claimed_time: u64) -> UserState {
    UserState {
        user: String::from("alice"),
        assigned_amount: assigned,
        claimed_amount: claimed,
        last_claimed_time,
    }
}

#[test]
fn fresh_records_start_at_zero() {
    assert_eq!(
        State::new(),
        State { total_airdrop_amount: 0, total_assigned_amount: 0, total_claimed_amount: 0 }
    );
    assert_eq!(State::load(None), State::new());
    let stored =
        State { total_airdrop_amount: 9, total_assigned_amount: 5, total_claimed_amount: 2 };
    assert_eq!(State::load(Some(stored)), stored);
    assert_eq!(UserState::new(String::from("alice")), account(0, 0, 0));
    assert_eq!(UserState::load(None, String::from("alice")), account(0, 0, 0));
    assert_eq!(
        UserState::load(Some(account(10, 4, 7)), String::from("alice")),
        account(10, 4, 7)
    );
}

#[test]
fn instant_segment_is_claimable_at_its_time() {
    let config = half_at_once_half_linear();
    assert_eq!(account(1000, 0, 0).calc_claimable_amount(&config, 0), Ok(500));
}

#[test]
fn linear_segment_vests_in_proportion() {
    let config = half_at_once_half_linear();
    assert_eq!(account(1000, 0, 0).calc_claimable_amount(&config, 150), Ok(750));
}

#[test]
fn everything_is_claimable_after_the_schedule() {
    let config = half_at_once_half_linear();
    assert_eq!(account(1000, 0, 0).calc_claimable_amount(&config, 300), Ok(1000));
    assert_eq!(account(1000, 0, 0).calc_claimable_amount(&config, 200), Ok(1000));
}

#[test]
fn linear_segment_just_before_its_end() {
    let config = half_at_once_half_linear();
    // 500 at once, then 99 of 100 seconds at 5 per second.
    assert_eq!(account(1000, 0, 0).calc_claimable_amount(&config, 199), Ok(995));
}

#[test]
fn what_is_left_is_claimable_after_the_schedule() {
    let config = half_at_once_half_linear();
    assert_eq!(account(1000, 400, 150).calc_claimable_amount(&config, 250), Ok(600));
    assert_eq!(account(1000, 1000, 250).calc_claimable_amount(&config, 260), Ok(0));
}

#[test]
fn segment_that_has_not_started_contributes_nothing() {
    let config = config_with(vec![(100, 200, Decimal::one())]);
    assert_eq!(account(1000, 0, 0).calc_claimable_amount(&config, 99), Ok(0));
    assert_eq!(account(1000, 0, 0).calc_claimable_amount(&config, 100), Ok(0));
    assert_eq!(account(1000, 0, 0).calc_claimable_amount(&config, 101), Ok(10));
}

#[test]
fn segment_that_ended_before_the_last_claim_contributes_nothing() {
    let config = config_with(vec![
        (0, 100, Decimal::percent(50)),
        (200, 300, Decimal::percent(50)),
    ]);
    // Only the second segment counts: 50 of 100 seconds of 500.
    assert_eq!(account(1000, 500, 150).calc_claimable_amount(&config, 250), Ok(250));
}

#[test]
fn only_the_time_since_the_last_claim_counts() {
    let config = config_with(vec![(0, 100, Decimal::one())]);
    assert_eq!(account(1000, 300, 30).calc_claimable_amount(&config, 70), Ok(400));
}

#[test]
fn segment_that_ends_at_the_last_claim_still_counts() {
    let config = half_at_once_half_linear();
    // The instant segment at 0 counts again for a last claim at 0.
    assert_eq!(account(1000, 500, 0).calc_claimable_amount(&config, 50), Ok(500));
}

#[test]
fn rate_per_second_is_rounded_down() {
    let config = config_with(vec![(0, 3, Decimal::one())]);
    assert_eq!(account(1000, 0, 0).calc_claimable_amount(&config, 1), Ok(333));
    assert_eq!(account(1000, 0, 0).calc_claimable_amount(&config, 2), Ok(666));
    assert_eq!(account(1000, 0, 0).calc_claimable_amount(&config, 3), Ok(1000));
}

#[test]
fn share_of_a_segment_is_rounded_down() {
    let third = Decimal::raw(333_333_333_333_333_333);
    let rest = Decimal::raw(666_666_666_666_666_667);
    let config = config_with(vec![(0, 0, third), (10, 10, rest), (20, 30, Decimal::raw(0))]);
    // A third of 7 is 2; the schedule has not ended at 5, so the sum counts.
    assert_eq!(account(7, 0, 0).calc_claimable_amount(&config, 5), Ok(2));
}

#[test]
fn end_of_the_last_segment_decides_even_where_it_does_not_contribute() {
    let config = config_with(vec![(0, 0, Decimal::percent(50)), (100, 200, Decimal::percent(50))]);
    // The last claim was after the end: no segment overlaps, the remainder is due.
    assert_eq!(account(1000, 990, 250).calc_claimable_amount(&config, 260), Ok(10));
}

#[test]
fn schedule_without_segments_has_ended() {
    let config = config_with(vec![]);
    assert_eq!(account(1000, 250, 0).calc_claimable_amount(&config, 0), Ok(750));
}

#[test]
fn claimable_amount_does_not_shrink_with_time() {
    let config = half_at_once_half_linear();
    let mut previous = 0;
    for now in 0..=400u64 {
        let amount = account(1000, 0, 0).calc_claimable_amount(&config, now).unwrap();
        assert!(amount >= previous);
        previous = amount;
    }
    assert_eq!(previous, 1000);
}

#[test]
fn claimable_amount_can_shrink_where_more_was_released_than_is_left() {
    let config = config_with(vec![(0, 100, Decimal::one())]);
    assert_eq!(account(1000, 900, 0).calc_claimable_amount(&config, 99), Ok(990));
    assert_eq!(account(1000, 900, 0).calc_claimable_amount(&config, 100), Ok(100));
}

#[test]
fn rate_that_does_not_fit_is_an_overflow() {
    let config = config_with(vec![(0, 100, Decimal::one())]);
    assert_eq!(
        account(u128::MAX, 0, 0).calc_claimable_amount(&config, 50),
        Err(ContractError::Overflow)
    );
    // The rate is checked although the schedule has ended.
    assert_eq!(
        account(u128::MAX, 0, 0).calc_claimable_amount(&config, 500),
        Err(ContractError::Overflow)
    );
}

#[test]
fn largest_rate_that_fits() {
    // 34 * 10^19 * 10^18 / 1 is just below 2^128.
    let config = config_with(vec![(0, 1, Decimal::one()), (5, 5, Decimal::one())]);
    assert_eq!(
        account(340_000_000_000_000_000_000, 0, 0).calc_claimable_amount(&config, 1),
        Ok(340_000_000_000_000_000_000)
    );
    assert_eq!(
        account(341_000_000_000_000_000_000, 0, 0).calc_claimable_amount(&config, 1),
        Err(ContractError::Overflow)
    );
}

#[test]
fn instant_segment_of_the_largest_allotment_fits() {
    let config = config_with(vec![(0, 0, Decimal::one()), (10, 10, Decimal::one())]);
    assert_eq!(account(u128::MAX, 0, 0).calc_claimable_amount(&config, 5), Ok(u128::MAX));
}

#[test]
fn share_that_does_not_fit_is_an_overflow() {
    let config = config_with(vec![(0, 0, Decimal::percent(200)), (10, 10, Decimal::one())]);
    assert_eq!(
        account(u128::MAX, 0, 0).calc_claimable_amount(&config, 5),
        Err(ContractError::Overflow)
    );
}

#[test]
fn sum_that_does_not_fit_is_an_overflow() {
    let config = config_with(vec![
        (0, 0, Decimal::one()),
        (1, 1, Decimal::one()),
        (10, 10, Decimal::one()),
    ]);
    assert_eq!(
        account(u128::MAX, 0, 0).calc_claimable_amount(&config, 5),
        Err(ContractError::Overflow)
    );
}

#[test]
fn time_before_the_last_claim_is_an_overflow() {
    let config = config_with(vec![(0, 100, Decimal::one())]);
    assert_eq!(
        account(1000, 0, 60).calc_claimable_amount(&config, 50),
        Err(ContractError::Overflow)
    );
}

#[test]
fn segment_that_runs_backwards_is_an_overflow() {
    let config = config_with(vec![(100, 50, Decimal::one()), (300, 300, Decimal::one())]);
    assert_eq!(
        account(1000, 0, 0).calc_claimable_amount(&config, 200),
        Err(ContractError::Overflow)
    );
}

#[test]
fn more_claimed_than_assigned_is_an_overflow_after_the_schedule() {
    let config = half_at_once_half_linear();
    assert_eq!(
        account(1000, 1001, 0).calc_claimable_amount(&config, 300),
        Err(ContractError::Overflow)
    );
    assert_eq!(account(1000, 1001, 0).calc_claimable_amount(&config, 150), Ok(750));
}
