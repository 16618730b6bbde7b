use concentrated_amm::constants::{MAX_TICK, MIN_SQRT_RATIO, MIN_TICK, Q96};
use concentrated_amm::math::tick_math::max_sqrt_ratio;
use concentrated_amm::{AmmError, FullMath, LiquidityMath, SqrtPriceMath, TickMath, U256};

fn u(x: u128) -> U256 {
    U256::from_u128(x)
}

#[test]
fn test_mul_div_basic() {
    let result = FullMath::mul_div(u(10), u(20), u(5)).unwrap();
    assert_eq!(result, u(40));
}

#[test]
fn test_mul_div_floor() {
    let result = FullMath::mul_div(u(10), u(7), u(3)).unwrap();
    assert_eq!(result, u(23));
}

#[test]
fn test_mul_div_rounding_up() {
    let result = FullMath::mul_div_rounding_up(u(10), u(7), u(3)).unwrap();
    assert_eq!(result, u(24));
}

#[test]
fn test_mul_div_no_rounding() {
    let result = FullMath::mul_div_rounding_up(u(10), u(6), u(3)).unwrap();
    assert_eq!(result, u(20));
}

#[test]
fn test_mul_div_zero_denominator() {
    let result = FullMath::mul_div(u(10), u(20), U256::zero());
    assert_eq!(result, Err(AmmError::DivisionByZero));
}

#[test]
fn mul_div_keeps_the_wide_product() {
    // (2^200 * 2^100) / 2^150 = 2^150, although the product needs 300 bits.
    let two_200 = U256 { l0: 0, l1: 0, l2: 0, l3: 1 << 8 };
    let two_100 = U256 { l0: 0, l1: 1 << 36, l2: 0, l3: 0 };
    let two_150 = U256 { l0: 0, l1: 0, l2: 1 << 22, l3: 0 };
    assert_eq!(FullMath::mul_div(two_200, two_100, two_150).unwrap(), two_150);
}

#[test]
fn mul_div_overflow_is_refused() {
    let max = U256::max_value();
    assert_eq!(FullMath::mul_div(max, u(2), u(1)), Err(AmmError::Overflow));
    assert_eq!(FullMath::mul_div_rounding_up(max, u(1), u(1)).unwrap(), max);
    assert_eq!(FullMath::mul_div_rounding_up(max, u(3), u(2)), Err(AmmError::Overflow));
    assert_eq!(FullMath::mul_div_rounding_up(u(1), u(1), U256::zero()), Err(AmmError::DivisionByZero));
}

#[test]
fn test_add_delta_positive() {
    assert_eq!(LiquidityMath::add_delta(1000, 500), Ok(1500));
}

#[test]
fn test_add_delta_negative() {
    assert_eq!(LiquidityMath::add_delta(1000, -500), Ok(500));
}

#[test]
fn test_add_delta_zero() {
    assert_eq!(LiquidityMath::add_delta(1000, 0), Ok(1000));
}

#[test]
fn test_add_delta_underflow() {
    assert_eq!(LiquidityMath::add_delta(100, -500), Err(AmmError::LiquidityUnderflow));
}

#[test]
fn add_delta_overflow() {
    assert_eq!(LiquidityMath::add_delta(u128::MAX, 1), Err(AmmError::LiquidityOverflow));
    assert_eq!(LiquidityMath::add_delta(u128::MAX, i128::MIN), Ok(u128::MAX - (1u128 << 127)));
}

#[test]
fn test_get_liquidity_for_amount0() {
    let liquidity =
        LiquidityMath::get_liquidity_for_amount0(u(Q96), u(Q96 * 2), u(1000000)).unwrap();
    assert!(liquidity > 0);
    // 1_000_000 * (2^96 * 2^97 / 2^96) / 2^96 = 2_000_000.
    assert_eq!(liquidity, 2000000);
}

#[test]
fn test_get_liquidity_for_amount1() {
    let liquidity =
        LiquidityMath::get_liquidity_for_amount1(u(Q96), u(Q96 * 2), u(1000000)).unwrap();
    assert!(liquidity > 0);
    assert_eq!(liquidity, 1000000);
}

#[test]
fn liquidity_for_equal_prices_is_refused() {
    assert_eq!(
        LiquidityMath::get_liquidity_for_amount1(u(Q96), u(Q96), u(1)),
        Err(AmmError::DivisionByZero)
    );
}

#[test]
fn test_get_liquidity_for_amounts_below_range() {
    let liquidity = LiquidityMath::get_liquidity_for_amounts(
        u(Q96 / 2),
        u(Q96),
        u(Q96 * 2),
        u(1000000),
        u(1000000),
    )
    .unwrap();
    assert!(liquidity > 0);
    assert_eq!(liquidity, 2000000);
}

#[test]
fn test_get_liquidity_for_amounts_in_range() {
    let liquidity = LiquidityMath::get_liquidity_for_amounts(
        u(Q96),
        u(Q96 / 2),
        u(Q96 * 2),
        u(1000000),
        u(1000000),
    )
    .unwrap();
    assert!(liquidity > 0);
    // token0 buys 2_000_000 over [1, 2], token1 buys 2_000_000 over [1/2, 1].
    assert_eq!(liquidity, 2000000);
}

#[test]
fn test_get_liquidity_for_amounts_above_range() {
    let liquidity = LiquidityMath::get_liquidity_for_amounts(
        u(Q96 * 4),
        u(Q96),
        u(Q96 * 2),
        u(1000000),
        u(1000000),
    )
    .unwrap();
    assert!(liquidity > 0);
    assert_eq!(liquidity, 1000000);
}

#[test]
fn liquidity_for_amounts_does_not_overspend() {
    let (lo, hi, p) = (u(Q96 / 2), u(Q96 * 2), u(Q96 + 12345));
    let (a0, a1) = (u(777_777), u(1_234_567));
    let l = LiquidityMath::get_liquidity_for_amounts(p, lo, hi, a0, a1).unwrap();
    let need0 = SqrtPriceMath::get_amount0_delta(p, hi, l, true).unwrap();
    let need1 = SqrtPriceMath::get_amount1_delta(lo, p, l, true).unwrap();
    assert!(!a0.less_than(&need0));
    assert!(!a1.less_than(&need1));
}

#[test]
fn test_get_amount0_delta() {
    let amount = SqrtPriceMath::get_amount0_delta(u(Q96), u(Q96 * 2), 1000000, false).unwrap();
    assert!(amount != U256::zero());
    // 1_000_000 * (2 - 1) / (2 * 1) = 500_000.
    assert_eq!(amount, u(500000));
}

#[test]
fn test_get_amount1_delta() {
    let amount = SqrtPriceMath::get_amount1_delta(u(Q96), u(Q96 * 2), 1000000, false).unwrap();
    assert!(amount != U256::zero());
    assert_eq!(amount, u(1000000));
}

#[test]
fn amount_deltas_round_in_the_pool_favour() {
    let down = SqrtPriceMath::get_amount0_delta(u(Q96), u(Q96 * 3), 1000001, false).unwrap();
    let up = SqrtPriceMath::get_amount0_delta(u(Q96 * 3), u(Q96), 1000001, true).unwrap();
    assert_eq!(down, u(666667));
    assert_eq!(up, u(666668));
    assert_eq!(
        SqrtPriceMath::get_amount0_delta(U256::zero(), u(Q96), 1, true),
        Err(AmmError::ZeroPrice)
    );
}

#[test]
fn test_get_next_sqrt_price_from_input_zero_for_one() {
    let sqrt_price = u(Q96);
    let new_price =
        SqrtPriceMath::get_next_sqrt_price_from_input(sqrt_price, 1000000, u(1000), true).unwrap();
    assert!(new_price.less_than(&sqrt_price));
}

#[test]
fn test_get_next_sqrt_price_from_input_one_for_zero() {
    let sqrt_price = u(Q96);
    let new_price =
        SqrtPriceMath::get_next_sqrt_price_from_input(sqrt_price, 1000000, u(1000), false).unwrap();
    assert!(sqrt_price.less_than(&new_price));
    // 2^96 + 1000 * 2^96 / 1_000_000
    assert_eq!(new_price, u(Q96 + Q96 / 1000));
}

#[test]
fn test_get_next_sqrt_price_zero_price() {
    let r = SqrtPriceMath::get_next_sqrt_price_from_input(U256::zero(), 1000000, u(1000), true);
    assert_eq!(r, Err(AmmError::ZeroPrice));
}

#[test]
fn test_get_next_sqrt_price_zero_liquidity() {
    let r = SqrtPriceMath::get_next_sqrt_price_from_input(u(Q96), 0, u(1000), true);
    assert_eq!(r, Err(AmmError::ZeroLiquidity));
}

#[test]
fn next_price_from_output_moves_away() {
    // Taking token0 out raises the price: L * P / (L - amount * P / 2^96).
    let p = SqrtPriceMath::get_next_sqrt_price_from_output(u(Q96), 1000000, u(1000), false).unwrap();
    assert!(u(Q96).less_than(&p));
    // Taking token1 out lowers it.
    let q = SqrtPriceMath::get_next_sqrt_price_from_output(u(Q96), 1000000, u(1000), true).unwrap();
    assert!(q.less_than(&u(Q96)));
    // Taking out all the token0 there is fails.
    assert_eq!(
        SqrtPriceMath::get_next_sqrt_price_from_output(u(Q96), 1000, u(1000), false),
        Err(AmmError::InsufficientLiquidity)
    );
    assert_eq!(
        SqrtPriceMath::get_next_sqrt_price_from_output(u(Q96), 1000, u(1000), true),
        Err(AmmError::PriceUnderflow)
    );
}

#[test]
fn test_get_sqrt_ratio_at_tick_min() {
    let sqrt_price = TickMath::get_sqrt_ratio_at_tick(MIN_TICK).unwrap();
    assert_eq!(sqrt_price, U256::from_u64(MIN_SQRT_RATIO));
}

#[test]
fn test_get_sqrt_ratio_at_tick_max() {
    let sqrt_price = TickMath::get_sqrt_ratio_at_tick(MAX_TICK).unwrap();
    assert_eq!(sqrt_price, max_sqrt_ratio());
}

#[test]
fn test_get_sqrt_ratio_at_tick_zero() {
    let sqrt_price = TickMath::get_sqrt_ratio_at_tick(0).unwrap();
    assert_eq!(sqrt_price, u(1u128 << 96));
}

#[test]
fn test_tick_roundtrip() {
    let test_ticks = vec![MIN_TICK, -100, 0, 100, MAX_TICK - 1];
    for tick in test_ticks {
        let sqrt_price = TickMath::get_sqrt_ratio_at_tick(tick).unwrap();
        let recovered_tick = TickMath::get_tick_at_sqrt_ratio(sqrt_price).unwrap();
        assert!(
            (recovered_tick - tick).abs() <= 1,
            "Roundtrip failed for tick {}: got {}",
            tick,
            recovered_tick
        );
    }
}

#[test]
fn tick_roundtrip_is_exact_on_a_sample() {
    for tick in [-887271, -50000, -1, 1, 7, 60, 887000] {
        let sqrt_price = TickMath::get_sqrt_ratio_at_tick(tick).unwrap();
        assert_eq!(TickMath::get_tick_at_sqrt_ratio(sqrt_price).unwrap(), tick);
        let above = sqrt_price.checked_add(&U256::one()).unwrap();
        assert_eq!(TickMath::get_tick_at_sqrt_ratio(above).unwrap(), tick);
    }
}

#[test]
fn test_tick_too_low() {
    assert_eq!(TickMath::get_sqrt_ratio_at_tick(MIN_TICK - 1), Err(AmmError::TickOutOfBounds));
}

#[test]
fn test_tick_too_high() {
    assert_eq!(TickMath::get_sqrt_ratio_at_tick(MAX_TICK + 1), Err(AmmError::TickOutOfBounds));
}

#[test]
fn price_out_of_bounds_is_refused() {
    assert_eq!(
        TickMath::get_tick_at_sqrt_ratio(U256::from_u64(MIN_SQRT_RATIO - 1)),
        Err(AmmError::PriceOutOfBounds)
    );
    assert_eq!(TickMath::get_tick_at_sqrt_ratio(max_sqrt_ratio()), Err(AmmError::PriceOutOfBounds));
    assert_eq!(TickMath::get_tick_at_sqrt_ratio(U256::from_u64(MIN_SQRT_RATIO)), Ok(MIN_TICK));
}
