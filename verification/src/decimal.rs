//! Fixed-point ratios with 18 fractional digits, and the two rounded operations
//! the vesting arithmetic needs. The rounding itself is done by `cosmwasm_std`
//! on a 256-bit intermediate.

use vstd::prelude::*;

verus! {

/// Atomic units in one whole: 10^18.
pub const DECIMAL_FRACTIONAL: u128 = 1_000_000_000_000_000_000;

/// A non-negative ratio, held as a count of atomic units of 10^-18.
#[derive(Clone, Copy, Debug, PartialEq, Eq, Structural)]
pub struct Decimal {
    pub atomics: u128,
}

/// `amount * ratio`, rounded down to a whole number.
pub open spec fn mul_floor(amount: int, ratio: Decimal) -> int {
    amount * ratio.atomics / (DECIMAL_FRACTIONAL as int)
}

/// The atomic units of `numerator / denominator`, rounded down.
pub open spec fn ratio_atomics(numerator: int, denominator: int) -> int {
    numerator * DECIMAL_FRACTIONAL / denominator
}

impl Decimal {
    /// The ratio that holds exactly `atomics` atomic units.
    pub fn raw(atomics: u128) -> (d: Decimal)
        ensures
            d.atomics == atomics,
    {
        Decimal { atomics }
    }

    /// The ratio 0.
    pub fn zero() -> (d: Decimal)
        ensures
            d.atomics == 0,
    {
        Decimal { atomics: 0 }
    }

    /// The ratio 1.
    pub fn one() -> (d: Decimal)
        ensures
            d.atomics == DECIMAL_FRACTIONAL,
    {
        Decimal { atomics: DECIMAL_FRACTIONAL }
    }

    /// `x` hundredths.
    pub fn percent(x: u64) -> (d: Decimal)
        ensures
            d.atomics == x * 10_000_000_000_000_000,
    {
        let wide: u128 = x as u128;
        Decimal { atomics: wide * 10_000_000_000_000_000 }
    }

    /// The number of atomic units.
    pub fn atomics(&self) -> (a: u128)
        ensures
            a == self.atomics,
    {
        self.atomics
    }

    /// Whether the ratio is 0.
    pub fn is_zero(&self) -> (z: bool)
        ensures
            z == (self.atomics == 0),
    {
        self.atomics == 0
    }

    /// The sum of two ratios, or `None` where it has more atomic units than fit.
    pub fn checked_add(self, other: Decimal) -> (sum: Option<Decimal>)
        ensures
            sum == if self.atomics + other.atomics <= u128::MAX {
                Some((Decimal { atomics: (self.atomics + other.atomics) as u128 }))
            } else {
                None::<Decimal>
            },
    {
        match self.atomics.checked_add(other.atomics) {
            Some(atomics) => Some(Decimal { atomics }),
            None => None,
        }
    }
}

/// Calls `cosmwasm_std::Uint128::checked_mul_floor` with a `cosmwasm_std::Decimal`
/// of the same atomic units. That function multiplies in 256 bits, divides by
/// 10^18 rounding down, and fails exactly when the quotient exceeds `u128::MAX`.
#[verifier::external_body]
pub(crate) fn checked_mul_floor(amount: u128, ratio: Decimal) -> (product: Option<u128>)
    ensures
        product == (if mul_floor(amount as int, ratio) <= u128::MAX {
            Some(mul_floor(amount as int, ratio) as u128)
        } else {
            None::<u128>
        }),
{
    let fraction = cosmwasm_std::Decimal::raw(ratio.atomics);
    match cosmwasm_std::Uint128::new(amount).checked_mul_floor(fraction) {
        Ok(value) => Some(value.u128()),
        Err(_) => None,
    }
}

/// Calls `cosmwasm_std::Decimal::checked_from_ratio`. That function fails on a zero
/// denominator; otherwise it computes `numerator * 10^18 / denominator` in 256 bits,
/// rounding down, and fails exactly when that exceeds `u128::MAX`.
#[verifier::external_body]
pub(crate) fn checked_from_ratio(numerator: u128, denominator: u64) -> (quotient: Option<Decimal>)
    ensures
        quotient == (if denominator != 0 && ratio_atomics(numerator as int, denominator as int)
            <= u128::MAX {
            Some((Decimal { atomics: ratio_atomics(numerator as int, denominator as int) as u128 }))
        } else {
            None::<Decimal>
        }),
{
    match cosmwasm_std::Decimal::checked_from_ratio(numerator, denominator) {
        Ok(value) => Some(Decimal { atomics: value.atomics().u128() }),
        Err(_) => None,
    }
}

} // verus!
