//! Fixed-point fractions with 18 decimal places, and the share of an amount
//! that such a fraction stands for.

use crate::error::ContractError;
use vstd::prelude::*;

verus! {

/// The atomic units in one whole: ten to the eighteenth.
pub const DECIMAL_FRACTIONAL: u128 = 1_000_000_000_000_000_000;

/// The atomic units in one percent.
pub const DECIMAL_PERCENT: u128 = 10_000_000_000_000_000;

/// A non-negative fraction; `atomics` counts units of `1 / DECIMAL_FRACTIONAL`.
#[derive(Clone, Copy, Debug, PartialEq, Eq)]
pub struct Decimal {
    pub atomics: u128,
}

/// `amount` times `portion`, rounded down.
pub open spec fn portion_of(amount: u128, portion: Decimal) -> int {
    (amount * portion.atomics) / (DECIMAL_FRACTIONAL as int)
}

/// A portion of at most one takes at most the whole amount, nothing of it
/// when it is zero and all of it when it is one.
pub proof fn lemma_portion_bounds(amount: u128, portion: Decimal)
    requires
        portion.atomics <= DECIMAL_FRACTIONAL,
    ensures
        0 <= portion_of(amount, portion) <= amount,
        portion.atomics == 0 ==> portion_of(amount, portion) == 0,
        portion.atomics == DECIMAL_FRACTIONAL ==> portion_of(amount, portion) == amount,
{
    let a = amount as int;
    let p = portion.atomics as int;
    let f = DECIMAL_FRACTIONAL as int;
    assert(0 <= a * p <= a * f) by (nonlinear_arith)
        requires
            0 <= a,
            0 <= p <= f,
    ;
    assert((a * p) / f <= a) by (nonlinear_arith)
        requires
            0 <= a * p <= a * f,
            f > 0,
    ;
    assert(0 <= (a * p) / f) by (nonlinear_arith)
        requires
            0 <= a * p,
            f > 0,
    ;
    if p == 0 {
        assert(a * p == 0) by (nonlinear_arith)
            requires
                p == 0,
        ;
    }
    if p == f {
        assert((a * f) / f == a) by (nonlinear_arith)
            requires
                f > 0,
        ;
    }
}

/// `Uint128 * Decimal` of cosmwasm_std: the product of the amount and the
/// fraction's atomic units, divided by `DECIMAL_FRACTIONAL` and rounded down.
/// The outside function panics where that does not fit in 128 bits.
#[verifier::external_body]
fn mul_ratio(amount: u128, portion: Decimal) -> (r: u128)
    requires
        portion_of(amount, portion) <= u128::MAX,
    ensures
        r == portion_of(amount, portion),
{
    (cosmwasm_std::Uint128::new(amount) * cosmwasm_std::Decimal::raw(portion.atomics)).u128()
}

impl Decimal {
    pub fn zero() -> (d: Decimal)
        ensures
            d.atomics == 0,
    {
        Decimal { atomics: 0 }
    }

    pub fn one() -> (d: Decimal)
        ensures
            d.atomics == DECIMAL_FRACTIONAL,
    {
        Decimal { atomics: DECIMAL_FRACTIONAL }
    }

    /// `x` hundredths.
    pub fn percent(x: u64) -> (d: Decimal)
        ensures
            d.atomics == x * DECIMAL_PERCENT,
    {
        assert(x * DECIMAL_PERCENT <= u128::MAX) by (nonlinear_arith)
            requires
                x <= u64::MAX,
                DECIMAL_PERCENT == 10_000_000_000_000_000,
        ;
        Decimal { atomics: (x as u128) * DECIMAL_PERCENT }
    }

    /// The fraction of `atomics` atomic units.
    pub fn raw(atomics: u128) -> (d: Decimal)
        ensures
            d.atomics == atomics,
    {
        Decimal { atomics }
    }

    pub fn is_zero(&self) -> (r: bool)
        ensures
            r == (self.atomics == 0),
    {
        self.atomics == 0
    }

    /// Whether the fraction is at most one.
    pub fn is_portion(&self) -> (r: bool)
        ensures
            r == (self.atomics <= DECIMAL_FRACTIONAL),
    {
        self.atomics <= DECIMAL_FRACTIONAL
    }
}

/// The part of `amount` that `portion` stands for, rounded down.
pub fn share_of(amount: u128, portion: Decimal) -> (r: u128)
    requires
        portion.atomics <= DECIMAL_FRACTIONAL,
    ensures
        r == portion_of(amount, portion),
        r <= amount,
{
    proof {
        lemma_portion_bounds(amount, portion);
    }
    mul_ratio(amount, portion)
}

/// Accepts a portion between zero and one, both included.
pub fn validate_portion(portion: Decimal) -> (r: Result<(), ContractError>)
    ensures
        r.is_ok() <==> portion.atomics <= DECIMAL_FRACTIONAL,
        r.is_err() ==> r == Err::<(), ContractError>(ContractError::InvalidPortion),
{
    if portion.is_portion() {
        Ok(())
    } else {
        Err(ContractError::InvalidPortion)
    }
}

} // verus!
