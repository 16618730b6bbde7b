//! Price movement and token amounts for a given liquidity.
use crate::error::AmmError;
use crate::math::full_math::{ceil_div, mul_div_result, mul_div_up_result, same_result, FullMath};
use crate::math::liquidity_math::{max_nat, min_nat, sort_prices};
use crate::wide::{
    base128, checked_add, checked_div, checked_mul, checked_sub, from_u128, lemma_pow2_values, lt,
    modulus256, q96, shl, U256,
};
use vstd::prelude::*;

verus! {

/// Price movement and token amounts.
pub struct SqrtPriceMath;

/// The price after adding (`add`) or removing `amount` of token0 at price `p`
/// with liquidity `l`: `l * p / (l ± amount * p)` in Q64.96, rounded up.
pub open spec fn next_price_from_amount0_result(p: nat, l: nat, amount: nat, add: bool) -> Result<
    nat,
    AmmError,
> {
    let num1 = l * q96();
    if amount == 0 {
        Ok(p)
    } else if add {
        if amount * p < modulus256() && num1 + amount * p < modulus256() {
            mul_div_up_result(num1, p, num1 + amount * p)
        } else if num1 / p + amount < modulus256() {
            mul_div_up_result(num1, 1, num1 / p + amount)
        } else {
            Err(AmmError::Overflow)
        }
    } else {
        if amount * p >= modulus256() {
            Err(AmmError::Overflow)
        } else if num1 <= amount * p {
            Err(AmmError::InsufficientLiquidity)
        } else {
            mul_div_up_result(num1, p, (num1 - amount * p) as nat)
        }
    }
}

/// The price after adding (`add`) or removing `amount` of token1 at price `p`
/// with liquidity `l`: `p ± amount * 2^96 / l`, the quotient rounded down when
/// adding and up when removing.
pub open spec fn next_price_from_amount1_result(p: nat, l: nat, amount: nat, add: bool) -> Result<
    nat,
    AmmError,
> {
    if add {
        match mul_div_result(amount, q96(), l) {
            Err(e) => Err(e),
            Ok(q) => if p + q < modulus256() {
                Ok(p + q)
            } else {
                Err(AmmError::Overflow)
            },
        }
    } else {
        match mul_div_up_result(amount, q96(), l) {
            Err(e) => Err(e),
            Ok(q) => if q < p {
                Ok((p - q) as nat)
            } else {
                Err(AmmError::PriceUnderflow)
            },
        }
    }
}

/// The price after a swap step that puts `amount` into the pool.
pub open spec fn next_price_from_input_result(p: nat, l: nat, amount: nat, zero_for_one: bool) -> Result<
    nat,
    AmmError,
> {
    if p == 0 {
        Err(AmmError::ZeroPrice)
    } else if l == 0 {
        Err(AmmError::ZeroLiquidity)
    } else if zero_for_one {
        next_price_from_amount0_result(p, l, amount, true)
    } else {
        next_price_from_amount1_result(p, l, amount, true)
    }
}

/// The price after a swap step that takes `amount` out of the pool.
pub open spec fn next_price_from_output_result(p: nat, l: nat, amount: nat, zero_for_one: bool) -> Result<
    nat,
    AmmError,
> {
    if p == 0 {
        Err(AmmError::ZeroPrice)
    } else if l == 0 {
        Err(AmmError::ZeroLiquidity)
    } else if zero_for_one {
        next_price_from_amount1_result(p, l, amount, false)
    } else {
        next_price_from_amount0_result(p, l, amount, false)
    }
}

/// Token0 needed to move liquidity `l` between the prices `a` and `b`:
/// `l * 2^96 * (hi - lo) / hi / lo`, each division rounded up or down.
pub open spec fn amount0_delta_result(a: nat, b: nat, l: nat, round_up: bool) -> Result<
    nat,
    AmmError,
> {
    let lo = min_nat(a, b);
    let hi = max_nat(a, b);
    let n = l * q96() * (hi - lo) as nat;
    if lo == 0 {
        Err(AmmError::ZeroPrice)
    } else if round_up {
        Ok(ceil_div(ceil_div(n, hi), lo))
    } else {
        Ok(n / hi / lo)
    }
}

/// Token1 needed to move liquidity `l` between the prices `a` and `b`:
/// `l * (hi - lo) / 2^96`, rounded up or down.
pub open spec fn amount1_delta_result(a: nat, b: nat, l: nat, round_up: bool) -> Result<
    nat,
    AmmError,
> {
    let lo = min_nat(a, b);
    let hi = max_nat(a, b);
    if round_up {
        mul_div_up_result(l, (hi - lo) as nat, q96())
    } else {
        mul_div_result(l, (hi - lo) as nat, q96())
    }
}

/// A quotient of `x * y` by `d` with `y <= d` is at most `x`, rounded either way.
pub proof fn lemma_scaled_quotient_le(x: nat, y: nat, d: nat)
    requires
        y <= d,
        d > 0,
    ensures
        x * y / d <= x,
        ceil_div(x * y, d) <= x,
{
    let q = x * y / d;
    let r = (x * y) % d;
    vstd::arithmetic::div_mod::lemma_fundamental_div_mod((x * y) as int, d as int);
    assert(x * y <= x * d) by (nonlinear_arith)
        requires
            y <= d,
    ;
    assert(q <= x) by (nonlinear_arith)
        requires
            x * y == d * q + r,
            r >= 0,
            x * y <= x * d,
            d > 0,
    ;
    if r != 0 {
        assert(q < x) by (nonlinear_arith)
            requires
                x * y == d * q + r,
                r > 0,
                x * y <= x * d,
                d > 0,
        ;
    }
}

/// `l << 96` for a 128-bit liquidity.
fn liquidity_q96(liquidity: u128) -> (r: U256)
    ensures
        r.value() == liquidity as nat * q96(),
        r.value() < base128() * q96(),
{
    proof {
        lemma_pow2_values();
        assert(liquidity as nat * q96() < base128() * q96()) by (nonlinear_arith)
            requires
                liquidity < base128(),
        ;
        vstd::arithmetic::div_mod::lemma_small_mod(liquidity as nat * q96(), modulus256());
    }
    shl(&from_u128(liquidity), 96)
}

impl SqrtPriceMath {
    /// The price after adding or removing `amount` of token0, rounded up.
    pub fn get_next_sqrt_price_from_amount0_rounding_up(
        sqrt_price_x96: U256,
        liquidity: u128,
        amount: U256,
        add: bool,
    ) -> (r: Result<U256, AmmError>)
        requires
            sqrt_price_x96.value() > 0,
        ensures
            same_result(
                r,
                next_price_from_amount0_result(
                    sqrt_price_x96.value(),
                    liquidity as nat,
                    amount.value(),
                    add,
                ),
            ),
    {
        if amount.is_zero() {
            return Ok(sqrt_price_x96);
        }
        let numerator1 = liquidity_q96(liquidity);
        if add {
            if let Some(product) = checked_mul(&amount, &sqrt_price_x96) {
                if let Some(denominator) = checked_add(&numerator1, &product) {
                    return FullMath::mul_div_rounding_up(numerator1, sqrt_price_x96, denominator);
                }
            }
            let quotient = checked_div(&numerator1, &sqrt_price_x96).unwrap();
            match checked_add(&quotient, &amount) {
                Some(denominator) => FullMath::mul_div_rounding_up(
                    numerator1,
                    U256::one(),
                    denominator,
                ),
                None => Err(AmmError::Overflow),
            }
        } else {
            let product = match checked_mul(&amount, &sqrt_price_x96) {
                Some(x) => x,
                None => {
                    return Err(AmmError::Overflow);
                },
            };
            if !lt(&product, &numerator1) {
                return Err(AmmError::InsufficientLiquidity);
            }
            let denominator = checked_sub(&numerator1, &product).unwrap();
            FullMath::mul_div_rounding_up(numerator1, sqrt_price_x96, denominator)
        }
    }

    /// The price after adding or removing `amount` of token1, moved by a
    /// quotient rounded down when adding and up when removing.
    pub fn get_next_sqrt_price_from_amount1_rounding_down(
        sqrt_price_x96: U256,
        liquidity: u128,
        amount: U256,
        add: bool,
    ) -> (r: Result<U256, AmmError>)
        requires
            liquidity > 0,
        ensures
            same_result(
                r,
                next_price_from_amount1_result(
                    sqrt_price_x96.value(),
                    liquidity as nat,
                    amount.value(),
                    add,
                ),
            ),
    {
        let l = from_u128(liquidity);
        if add {
            let quotient = match FullMath::mul_div(amount, U256::q96(), l) {
                Ok(q) => q,
                Err(e) => {
                    return Err(e);
                },
            };
            match checked_add(&sqrt_price_x96, &quotient) {
                Some(x) => Ok(x),
                None => Err(AmmError::Overflow),
            }
        } else {
            let quotient = match FullMath::mul_div_rounding_up(amount, U256::q96(), l) {
                Ok(q) => q,
                Err(e) => {
                    return Err(e);
                },
            };
            if !lt(&quotient, &sqrt_price_x96) {
                return Err(AmmError::PriceUnderflow);
            }
            Ok(checked_sub(&sqrt_price_x96, &quotient).unwrap())
        }
    }

    /// The price after `amount_in` enters the pool: token0 when `zero_for_one`,
    /// else token1.
    pub fn get_next_sqrt_price_from_input(
        sqrt_price_x96: U256,
        liquidity: u128,
        amount_in: U256,
        zero_for_one: bool,
    ) -> (r: Result<U256, AmmError>)
        ensures
            same_result(
                r,
                next_price_from_input_result(
                    sqrt_price_x96.value(),
                    liquidity as nat,
                    amount_in.value(),
                    zero_for_one,
                ),
            ),
    {
        if sqrt_price_x96.is_zero() {
            return Err(AmmError::ZeroPrice);
        }
        if liquidity == 0 {
            return Err(AmmError::ZeroLiquidity);
        }
        if zero_for_one {
            Self::get_next_sqrt_price_from_amount0_rounding_up(
                sqrt_price_x96,
                liquidity,
                amount_in,
                true,
            )
        } else {
            Self::get_next_sqrt_price_from_amount1_rounding_down(
                sqrt_price_x96,
                liquidity,
                amount_in,
                true,
            )
        }
    }

    /// The price after `amount_out` leaves the pool: token1 when `zero_for_one`,
    /// else token0.
    pub fn get_next_sqrt_price_from_output(
        sqrt_price_x96: U256,
        liquidity: u128,
        amount_out: U256,
        zero_for_one: bool,
    ) -> (r: Result<U256, AmmError>)
        ensures
            same_result(
                r,
                next_price_from_output_result(
                    sqrt_price_x96.value(),
                    liquidity as nat,
                    amount_out.value(),
                    zero_for_one,
                ),
            ),
    {
        if sqrt_price_x96.is_zero() {
            return Err(AmmError::ZeroPrice);
        }
        if liquidity == 0 {
            return Err(AmmError::ZeroLiquidity);
        }
        if zero_for_one {
            Self::get_next_sqrt_price_from_amount1_rounding_down(
                sqrt_price_x96,
                liquidity,
                amount_out,
                false,
            )
        } else {
            Self::get_next_sqrt_price_from_amount0_rounding_up(
                sqrt_price_x96,
                liquidity,
                amount_out,
                false,
            )
        }
    }

    /// Token0 that moves liquidity between two prices, in either order.
    pub fn get_amount0_delta(
        sqrt_ratio_ax96: U256,
        sqrt_ratio_bx96: U256,
        liquidity: u128,
        round_up: bool,
    ) -> (r: Result<U256, AmmError>)
        ensures
            same_result(
                r,
                amount0_delta_result(
                    sqrt_ratio_ax96.value(),
                    sqrt_ratio_bx96.value(),
                    liquidity as nat,
                    round_up,
                ),
            ),
    {
        let (lo, hi) = sort_prices(sqrt_ratio_ax96, sqrt_ratio_bx96);
        if lo.is_zero() {
            return Err(AmmError::ZeroPrice);
        }
        let numerator1 = liquidity_q96(liquidity);
        let numerator2 = checked_sub(&hi, &lo).unwrap();
        let ghost n1 = numerator1.value();
        let ghost n2 = numerator2.value();
        proof {
            lemma_scaled_quotient_le(n1, n2, hi.value());
            numerator1.lemma_bounds();
        }
        if round_up {
            let t = FullMath::mul_div_rounding_up(numerator1, numerator2, hi).unwrap();
            proof {
                lemma_scaled_quotient_le(t.value(), 1, lo.value());
            }
            FullMath::mul_div_rounding_up(t, U256::one(), lo)
        } else {
            let t = FullMath::mul_div(numerator1, numerator2, hi).unwrap();
            proof {
                lemma_scaled_quotient_le(t.value(), 1, lo.value());
            }
            FullMath::mul_div(t, U256::one(), lo)
        }
    }

    /// Token1 that moves liquidity between two prices, in either order.
    pub fn get_amount1_delta(
        sqrt_ratio_ax96: U256,
        sqrt_ratio_bx96: U256,
        liquidity: u128,
        round_up: bool,
    ) -> (r: Result<U256, AmmError>)
        ensures
            same_result(
                r,
                amount1_delta_result(
                    sqrt_ratio_ax96.value(),
                    sqrt_ratio_bx96.value(),
                    liquidity as nat,
                    round_up,
                ),
            ),
    {
        let (lo, hi) = sort_prices(sqrt_ratio_ax96, sqrt_ratio_bx96);
        let diff = checked_sub(&hi, &lo).unwrap();
        if round_up {
            FullMath::mul_div_rounding_up(from_u128(liquidity), diff, U256::q96())
        } else {
            FullMath::mul_div(from_u128(liquidity), diff, U256::q96())
        }
    }
}

} // verus!
