//! Liquidity arithmetic: signed deltas, and liquidity from token amounts.
use crate::error::AmmError;
use crate::math::full_math::{mul_div_result, FullMath};
use crate::wide::{base128, checked_sub, low_u128, lt, q96, U256};
use vstd::prelude::*;

verus! {

/// Liquidity arithmetic.
pub struct LiquidityMath;

/// Liquidity after applying a signed delta.
pub open spec fn add_delta_result(liquidity: nat, delta: int) -> Result<nat, AmmError> {
    if liquidity + delta < 0 {
        Err(AmmError::LiquidityUnderflow)
    } else if liquidity + delta >= base128() {
        Err(AmmError::LiquidityOverflow)
    } else {
        Ok((liquidity + delta) as nat)
    }
}

pub open spec fn min_nat(a: nat, b: nat) -> nat {
    if a <= b {
        a
    } else {
        b
    }
}

pub open spec fn max_nat(a: nat, b: nat) -> nat {
    if a <= b {
        b
    } else {
        a
    }
}

/// A liquidity value, if it fits 128 bits.
pub open spec fn fit_liquidity(l: nat) -> Result<nat, AmmError> {
    if l >= base128() {
        Err(AmmError::LiquidityOverflow)
    } else {
        Ok(l)
    }
}

/// Liquidity that `amount0` of token0 buys over the prices `a`..`b`:
/// `amount0 * (lo * hi / 2^96) / (hi - lo)`.
pub open spec fn liquidity0_result(a: nat, b: nat, amount0: nat) -> Result<nat, AmmError> {
    let lo = min_nat(a, b);
    let hi = max_nat(a, b);
    match mul_div_result(lo, hi, q96()) {
        Err(e) => Err(e),
        Ok(intermediate) => match mul_div_result(amount0, intermediate, (hi - lo) as nat) {
            Err(e) => Err(e),
            Ok(l) => fit_liquidity(l),
        },
    }
}

/// Liquidity that `amount1` of token1 buys over the prices `a`..`b`:
/// `amount1 * 2^96 / (hi - lo)`.
pub open spec fn liquidity1_result(a: nat, b: nat, amount1: nat) -> Result<nat, AmmError> {
    let lo = min_nat(a, b);
    let hi = max_nat(a, b);
    match mul_div_result(amount1, q96(), (hi - lo) as nat) {
        Err(e) => Err(e),
        Ok(l) => fit_liquidity(l),
    }
}

/// The greatest liquidity that the two amounts pay for at price `p` over the
/// range `a`..`b`.
pub open spec fn liquidity_for_amounts_result(
    p: nat,
    a: nat,
    b: nat,
    amount0: nat,
    amount1: nat,
) -> Result<nat, AmmError> {
    let lo = min_nat(a, b);
    let hi = max_nat(a, b);
    if p <= lo {
        liquidity0_result(lo, hi, amount0)
    } else if p < hi {
        match liquidity0_result(p, hi, amount0) {
            Err(e) => Err(e),
            Ok(l0) => match liquidity1_result(lo, p, amount1) {
                Err(e) => Err(e),
                Ok(l1) => Ok(min_nat(l0, l1)),
            },
        }
    } else {
        liquidity1_result(lo, hi, amount1)
    }
}

/// Whether a result of liquidity arithmetic is the given one.
pub open spec fn same_liquidity(r: Result<u128, AmmError>, s: Result<nat, AmmError>) -> bool {
    match (r, s) {
        (Ok(x), Ok(y)) => x == y,
        (Err(e), Err(f)) => e == f,
        _ => false,
    }
}

/// The two prices in ascending order.
pub fn sort_prices(a: U256, b: U256) -> (r: (U256, U256))
    ensures
        r.0.value() == min_nat(a.value(), b.value()),
        r.1.value() == max_nat(a.value(), b.value()),
{
    if lt(&b, &a) {
        (b, a)
    } else {
        (a, b)
    }
}

/// A 256-bit liquidity value as 128 bits, when it fits.
fn to_liquidity(l: U256) -> (r: Result<u128, AmmError>)
    ensures
        same_liquidity(r, fit_liquidity(l.value())),
{
    let max = U256 { l0: 0xffff_ffff_ffff_ffff, l1: 0xffff_ffff_ffff_ffff, l2: 0, l3: 0 };
    if lt(&max, &l) {
        Err(AmmError::LiquidityOverflow)
    } else {
        let x = low_u128(&l);
        proof {
            vstd::arithmetic::div_mod::lemma_small_mod(l.value(), base128());
        }
        Ok(x)
    }
}

impl LiquidityMath {
    /// Applies a signed delta to a liquidity amount, failing on underflow or
    /// overflow of the 128-bit width.
    pub fn add_delta(liquidity: u128, liquidity_delta: i128) -> (r: Result<u128, AmmError>)
        ensures
            same_liquidity(r, add_delta_result(liquidity as nat, liquidity_delta as int)),
    {
        if liquidity_delta < 0 {
            let delta_abs: u128 = (-(liquidity_delta + 1)) as u128 + 1;
            if liquidity < delta_abs {
                Err(AmmError::LiquidityUnderflow)
            } else {
                Ok(liquidity - delta_abs)
            }
        } else {
            let delta_abs = liquidity_delta as u128;
            match liquidity.checked_add(delta_abs) {
                Some(x) => Ok(x),
                None => Err(AmmError::LiquidityOverflow),
            }
        }
    }

    /// Liquidity bought by `amount0` of token0 over the price range, rounded down.
    pub fn get_liquidity_for_amount0(
        sqrt_ratio_a_x96: U256,
        sqrt_ratio_b_x96: U256,
        amount0: U256,
    ) -> (r: Result<u128, AmmError>)
        ensures
            same_liquidity(
                r,
                liquidity0_result(sqrt_ratio_a_x96.value(), sqrt_ratio_b_x96.value(), amount0.value()),
            ),
    {
        let (lo, hi) = sort_prices(sqrt_ratio_a_x96, sqrt_ratio_b_x96);
        let intermediate = match FullMath::mul_div(lo, hi, U256::q96()) {
            Ok(x) => x,
            Err(e) => {
                return Err(e);
            },
        };
        let width = checked_sub(&hi, &lo).unwrap();
        match FullMath::mul_div(amount0, intermediate, width) {
            Ok(l) => to_liquidity(l),
            Err(e) => Err(e),
        }
    }

    /// Liquidity bought by `amount1` of token1 over the price range, rounded down.
    pub fn get_liquidity_for_amount1(
        sqrt_ratio_a_x96: U256,
        sqrt_ratio_b_x96: U256,
        amount1: U256,
    ) -> (r: Result<u128, AmmError>)
        ensures
            same_liquidity(
                r,
                liquidity1_result(sqrt_ratio_a_x96.value(), sqrt_ratio_b_x96.value(), amount1.value()),
            ),
    {
        let (lo, hi) = sort_prices(sqrt_ratio_a_x96, sqrt_ratio_b_x96);
        let width = checked_sub(&hi, &lo).unwrap();
        match FullMath::mul_div(amount1, U256::q96(), width) {
            Ok(l) => to_liquidity(l),
            Err(e) => Err(e),
        }
    }

    /// The greatest liquidity that both amounts pay for: token0 alone below the
    /// range, token1 alone above it, and the smaller of the two inside it.
    pub fn get_liquidity_for_amounts(
        sqrt_ratio_x96: U256,
        sqrt_ratio_a_x96: U256,
        sqrt_ratio_b_x96: U256,
        amount0: U256,
        amount1: U256,
    ) -> (r: Result<u128, AmmError>)
        ensures
            same_liquidity(
                r,
                liquidity_for_amounts_result(
                    sqrt_ratio_x96.value(),
                    sqrt_ratio_a_x96.value(),
                    sqrt_ratio_b_x96.value(),
                    amount0.value(),
                    amount1.value(),
                ),
            ),
    {
        let (lo, hi) = sort_prices(sqrt_ratio_a_x96, sqrt_ratio_b_x96);
        if !lt(&lo, &sqrt_ratio_x96) {
            Self::get_liquidity_for_amount0(lo, hi, amount0)
        } else if lt(&sqrt_ratio_x96, &hi) {
            let liquidity0 = match Self::get_liquidity_for_amount0(sqrt_ratio_x96, hi, amount0) {
                Ok(l) => l,
                Err(e) => {
                    return Err(e);
                },
            };
            let liquidity1 = match Self::get_liquidity_for_amount1(lo, sqrt_ratio_x96, amount1) {
                Ok(l) => l,
                Err(e) => {
                    return Err(e);
                },
            };
            if liquidity0 <= liquidity1 {
                Ok(liquidity0)
            } else {
                Ok(liquidity1)
            }
        } else {
            Self::get_liquidity_for_amount1(lo, hi, amount1)
        }
    }
}

} // verus!
