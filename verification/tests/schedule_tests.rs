use cw20_merkle_airdrop::decimal::{Decimal, DECIMAL_FRACTIONAL};
use cw20_merkle_airdrop::error::ScheduleError;
use cw20_merkle_airdrop::schedule::validate_distribution_schedule;

#[test]
fn decimal_constructors_hold_atomic_units() {
    assert_eq!(Decimal::zero().atomics(), 0);
    assert_eq!(Decimal::one().atomics(), 1_000_000_000_000_000_000);
    assert_eq!(Decimal::one().atomics(), DECIMAL_FRACTIONAL);
    assert_eq!(Decimal::percent(50).atomics(), 500_000_000_000_000_000);
    assert_eq!(Decimal::percent(100), Decimal::one());
    assert_eq!(Decimal::raw(7).atomics(), 7);
    assert!(Decimal::zero().is_zero());
    assert!(!Decimal::raw(1).is_zero());
}

#[test]
fn decimal_percent_takes_the_largest_input() {
    assert_eq!(
        Decimal::percent(u64::MAX).atomics(),
        (u64::MAX as u128) * 10_000_000_000_000_000
    );
}

#[test]
fn decimal_checked_add_adds_or_gives_none() {
    assert_eq!(
        Decimal::percent(30).checked_add(Decimal::percent(70)),
        Some(Decimal::one())
    );
    assert_eq!(Decimal::raw(u128::MAX).checked_add(Decimal::raw(1)), None);
    assert_eq!(
        Decimal::raw(u128::MAX).checked_add(Decimal::zero()),
        Some(Decimal::raw(u128::MAX))
    );
}

#[test]
fn schedule_with_instant_and_linear_segment_is_valid() {
    let schedule = vec![(0, 0, Decimal::percent(50)), (100, 200, Decimal::percent(50))];
    assert_eq!(validate_distribution_schedule(&schedule), Ok(()));
}

#[test]
fn schedule_of_one_whole_segment_is_valid() {
    let schedule = vec![(10, 20, Decimal::one())];
    assert_eq!(validate_distribution_schedule(&schedule), Ok(()));
}

#[test]
fn schedule_whose_segments_touch_is_valid() {
    let schedule = vec![
        (0, 100, Decimal::percent(25)),
        (100, 100, Decimal::percent(25)),
        (100, 300, Decimal::percent(50)),
    ];
    assert_eq!(validate_distribution_schedule(&schedule), Ok(()));
}

#[test]
fn empty_schedule_is_refused() {
    let schedule: Vec<(u64, u64, Decimal)> = vec![];
    assert_eq!(validate_distribution_schedule(&schedule), Err(ScheduleError::Empty));
}

#[test]
fn segment_that_starts_after_its_end_is_refused() {
    let schedule = vec![(0, 10, Decimal::percent(50)), (30, 20, Decimal::percent(50))];
    assert_eq!(
        validate_distribution_schedule(&schedule),
        Err(ScheduleError::StartAfterEnd { index: 1 })
    );
}

#[test]
fn segment_with_zero_ratio_is_refused() {
    let schedule = vec![(0, 10, Decimal::zero()), (10, 20, Decimal::one())];
    assert_eq!(
        validate_distribution_schedule(&schedule),
        Err(ScheduleError::ZeroRatio { index: 0 })
    );
}

#[test]
fn segment_that_starts_before_the_previous_end_is_refused() {
    let schedule = vec![(0, 100, Decimal::percent(50)), (99, 200, Decimal::percent(50))];
    assert_eq!(
        validate_distribution_schedule(&schedule),
        Err(ScheduleError::Overlap { index: 1 })
    );
}

#[test]
fn first_segment_is_never_an_overlap() {
    let schedule = vec![(u64::MAX, u64::MAX, Decimal::one())];
    assert_eq!(validate_distribution_schedule(&schedule), Ok(()));
}

#[test]
fn ratios_below_one_are_refused() {
    let schedule = vec![(0, 10, Decimal::percent(50)), (10, 20, Decimal::percent(40))];
    assert_eq!(validate_distribution_schedule(&schedule), Err(ScheduleError::SumNotOne));
}

#[test]
fn ratios_above_one_are_refused() {
    let schedule = vec![(0, 10, Decimal::percent(50)), (10, 20, Decimal::percent(60))];
    assert_eq!(validate_distribution_schedule(&schedule), Err(ScheduleError::SumNotOne));
}

#[test]
fn ratios_one_atomic_unit_off_are_refused() {
    let schedule = vec![
        (0, 10, Decimal::percent(50)),
        (10, 20, Decimal::raw(500_000_000_000_000_001)),
    ];
    assert_eq!(validate_distribution_schedule(&schedule), Err(ScheduleError::SumNotOne));
    let schedule = vec![
        (0, 10, Decimal::percent(50)),
        (10, 20, Decimal::raw(499_999_999_999_999_999)),
    ];
    assert_eq!(validate_distribution_schedule(&schedule), Err(ScheduleError::SumNotOne));
}

#[test]
fn ratios_that_exceed_128_bits_are_refused() {
    let schedule = vec![
        (0, 10, Decimal::raw(u128::MAX)),
        (10, 20, Decimal::raw(u128::MAX)),
        (20, 30, Decimal::raw(3)),
    ];
    assert_eq!(validate_distribution_schedule(&schedule), Err(ScheduleError::SumNotOne));
}

#[test]
fn ratios_that_wrap_around_to_one_are_refused() {
    // u128::MAX + (10^18 + 1) is 10^18 modulo 2^128.
    let schedule = vec![
        (0, 10, Decimal::raw(u128::MAX)),
        (10, 20, Decimal::raw(1_000_000_000_000_000_001)),
    ];
    assert_eq!(validate_distribution_schedule(&schedule), Err(ScheduleError::SumNotOne));
}

#[test]
fn earliest_segment_violation_is_reported() {
    let schedule = vec![
        (0, 10, Decimal::percent(50)),
        (5, 20, Decimal::percent(10)),
        (30, 25, Decimal::zero()),
    ];
    assert_eq!(
        validate_distribution_schedule(&schedule),
        Err(ScheduleError::Overlap { index: 1 })
    );
}

#[test]
fn within_a_segment_the_order_of_start_and_end_counts_first() {
    let schedule = vec![(0, 10, Decimal::one()), (9, 8, Decimal::zero())];
    assert_eq!(
        validate_distribution_schedule(&schedule),
        Err(ScheduleError::StartAfterEnd { index: 1 })
    );
    let schedule = vec![(0, 10, Decimal::one()), (9, 12, Decimal::zero())];
    assert_eq!(
        validate_distribution_schedule(&schedule),
        Err(ScheduleError::ZeroRatio { index: 1 })
    );
}

#[test]
fn segment_violation_counts_before_the_sum() {
    let schedule = vec![(0, 10, Decimal::percent(50)), (20, 15, Decimal::percent(10))];
    assert_eq!(
        validate_distribution_schedule(&schedule),
        Err(ScheduleError::StartAfterEnd { index: 1 })
    );
}
