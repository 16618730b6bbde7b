use concentrated_amm::constants::{MAX_TICK, MIN_TICK, Q96};
use concentrated_amm::{AmmError, Pool, TickMath, U256};

fn pool_at_price_one() -> Pool {
    let mut pool = Pool::new(1, 2, 3000, 60).unwrap();
    pool.initialize(U256::from_u128(Q96), 1_000).unwrap();
    pool
}

#[test]
fn test_pool_initialization() {
    let mut pool = Pool::new(11, 10, 3000, 60).unwrap();
    assert_eq!(pool.get_token0(), 10);
    assert_eq!(pool.get_token1(), 11);
    assert_eq!(pool.get_fee(), 3000);
    let sqrt_price = U256::from_u128(Q96);
    pool.initialize(sqrt_price, 0).unwrap();
    assert_eq!(pool.get_sqrt_price_x96(), sqrt_price);
    assert_eq!(pool.get_tick(), 0);
    assert_eq!(pool.initialize(sqrt_price, 0), Err(AmmError::AlreadyInitialized));
}

#[test]
fn pool_configuration_is_checked() {
    assert!(Pool::new(1, 1, 3000, 60).is_err());
    assert!(Pool::new(1, 2, 1_000_000, 60).is_err());
    assert!(Pool::new(1, 2, 3000, 0).is_err());
    let pool = Pool::new(1, 2, 500, 10).unwrap();
    assert_eq!(pool.max_liquidity_per_tick, u128::MAX / 10);
    let mut fresh = Pool::new(1, 2, 500, 10).unwrap();
    assert_eq!(fresh.initialize(U256::one(), 0), Err(AmmError::PriceOutOfBounds));
}

#[test]
fn mint_refuses_bad_ranges() {
    let mut uninit = Pool::new(1, 2, 3000, 60).unwrap();
    let zero = U256::zero();
    assert_eq!(uninit.mint(7, -60, 60, 10, zero, zero, 0), Err(AmmError::NotInitialized));
    let mut pool = pool_at_price_one();
    assert_eq!(pool.mint(7, -60, 60, 0, zero, zero, 0), Err(AmmError::ZeroAmount));
    assert_eq!(pool.mint(7, 60, -60, 10, zero, zero, 0), Err(AmmError::InvalidTickRange));
    assert_eq!(pool.mint(7, MIN_TICK - 60, 60, 10, zero, zero, 0), Err(AmmError::TickOutOfBounds));
    assert_eq!(pool.mint(7, -50, 60, 10, zero, zero, 0), Err(AmmError::MisalignedTick));
    let huge = U256::from_u128(u128::MAX);
    assert_eq!(pool.mint(7, -60, 60, 10, huge, zero, 0), Err(AmmError::SlippageExceeded));
    assert_eq!(pool.mint(7, -60, 60, u128::MAX / 60 + 1, zero, zero, 0), Err(AmmError::TickLiquidityExceeded));
    assert_eq!(pool.get_liquidity(), 0);
}

#[test]
fn mint_amounts_depend_on_the_range_side() {
    let mut pool = pool_at_price_one();
    let zero = U256::zero();
    // Above the price: token0 only.
    let (a0, a1) = pool.mint(7, 60, 120, 1_000_000, zero, zero, 1_001).unwrap();
    assert!(a0 != zero);
    assert_eq!(a1, zero);
    assert_eq!(pool.get_liquidity(), 0);
    // Below the price: token1 only.
    let (b0, b1) = pool.mint(7, -120, -60, 1_000_000, zero, zero, 1_002).unwrap();
    assert_eq!(b0, zero);
    assert!(b1 != zero);
    // Around the price: both, and the active liquidity grows.
    let (c0, c1) = pool.mint(7, -60, 60, 1_000_000, zero, zero, 1_003).unwrap();
    assert!(c0 != zero && c1 != zero);
    assert_eq!(pool.get_liquidity(), 1_000_000);
}

#[test]
fn liquidity_net_sums_to_zero_after_mints_and_burns() {
    let mut pool = pool_at_price_one();
    let zero = U256::zero();
    pool.mint(7, -600, 600, 5_000, zero, zero, 1_001).unwrap();
    pool.mint(8, -60, 120, 7_000, zero, zero, 1_002).unwrap();
    pool.burn(7, -600, 600, 2_000, 1_003).unwrap();
    let mut total: i128 = 0;
    for t in [-600, -60, 120, 600] {
        total += pool.ticks[&t].liquidity_net;
    }
    assert_eq!(total, 0);
    assert_eq!(pool.ticks[&-600].liquidity_net, 3_000);
    assert_eq!(pool.ticks[&600].liquidity_net, -3_000);
    assert_eq!(pool.get_liquidity(), 10_000);
}

#[test]
fn burn_more_than_held_is_refused() {
    let mut pool = pool_at_price_one();
    let zero = U256::zero();
    pool.mint(7, -60, 60, 100, zero, zero, 1_001).unwrap();
    assert_eq!(pool.burn(7, -60, 60, 101, 1_002), Err(AmmError::LiquidityUnderflow));
    assert_eq!(pool.burn(8, -60, 60, 1, 1_002), Err(AmmError::LiquidityUnderflow));
    assert_eq!(pool.get_position(7, -60, 60).liquidity, 100);
}

#[test]
fn swap_refuses_bad_requests() {
    let mut uninit = Pool::new(1, 2, 3000, 60).unwrap();
    assert_eq!(uninit.swap(true, 10, U256::zero(), 0), Err(AmmError::NotInitialized));
    let mut pool = pool_at_price_one();
    assert_eq!(pool.swap(true, 0, U256::zero(), 0), Err(AmmError::ZeroAmount));
    assert_eq!(pool.swap(true, 10, U256::from_u128(Q96 + 1), 0), Err(AmmError::PriceLimitInvalid));
    assert_eq!(pool.swap(false, 10, U256::from_u128(Q96 - 1), 0), Err(AmmError::PriceLimitInvalid));
}

#[test]
fn swap_stops_at_the_price_limit() {
    let mut pool = pool_at_price_one();
    let zero = U256::zero();
    pool.mint(7, -600, 600, 10_000_000, zero, zero, 1_001).unwrap();
    let limit = U256::from_u128(Q96 - Q96 / 100_000);
    let (amount0, amount1) = pool.swap(true, 1_000_000_000, limit, 1_002).unwrap();
    assert_eq!(pool.get_sqrt_price_x96(), limit);
    assert!(amount0 > 0 && amount0 < 1_000_000_000);
    assert!(amount1 < 0);
    // And the other way.
    let up = U256::from_u128(Q96 + Q96 / 100_000);
    let (b0, b1) = pool.swap(false, 1_000_000_000, up, 1_003).unwrap();
    assert_eq!(pool.get_sqrt_price_x96(), up);
    assert!(b0 < 0 && b1 > 0);
}

#[test]
fn swap_exact_output_pays_out_the_amount() {
    let mut pool = pool_at_price_one();
    let zero = U256::zero();
    pool.mint(7, -600, 600, 10_000_000, zero, zero, 1_001).unwrap();
    let (amount0, amount1) = pool.swap(true, -1_000, U256::zero(), 1_002).unwrap();
    assert_eq!(amount1, -1_000);
    assert!(amount0 > 1_000);
}

#[test]
fn end_to_end_mint_swap_burn_collect() {
    let mut pool = pool_at_price_one();
    assert_eq!(pool.get_tick(), 0);
    let zero = U256::zero();
    let (m0, m1) = pool.mint(7, -600, 600, 10_000_000, zero, zero, 1_001).unwrap();
    assert!(m0 != zero && m1 != zero);
    let (amount0, amount1) = pool.swap(true, 1_000, U256::zero(), 1_002).unwrap();
    assert_eq!(amount0, 1_000);
    assert!(amount1 < 0, "the swapper receives token1");
    assert!(pool.get_tick() < 0);
    assert!(pool.get_sqrt_price_x96().less_than(&U256::from_u128(Q96)));
    let (b0, b1) = pool.burn(7, -600, 600, 5_000_000, 1_003).unwrap();
    let position = pool.get_position(7, -600, 600);
    assert_eq!(position.liquidity, 5_000_000);
    let b0 = b0.low_u128();
    let b1 = b1.low_u128();
    assert!(b0 > 0 && b1 > 0);
    assert!(position.tokens_owed_0 >= b0);
    assert!(position.tokens_owed_1 >= b1);
    let fees0 = position.tokens_owed_0 - b0;
    assert!(fees0 > 0, "the swap's fee went to the position");
    let (c0, c1) = pool.collect(7, -600, 600, u128::MAX, u128::MAX);
    assert_eq!((c0, c1), (position.tokens_owed_0, position.tokens_owed_1));
    let after = pool.get_position(7, -600, 600);
    assert_eq!((after.tokens_owed_0, after.tokens_owed_1), (0, 0));
    assert_eq!(pool.collect(7, -600, 600, 5, 5), (0, 0));
}

#[test]
fn collect_pays_at_most_what_is_owed() {
    let mut pool = pool_at_price_one();
    let zero = U256::zero();
    pool.mint(7, -60, 60, 1_000_000, zero, zero, 1_001).unwrap();
    pool.burn(7, -60, 60, 1_000_000, 1_002).unwrap();
    let owed = pool.get_position(7, -60, 60);
    let (c0, _c1) = pool.collect(7, -60, 60, 1, 0);
    assert_eq!(c0, 1);
    assert_eq!(pool.get_position(7, -60, 60).tokens_owed_0, owed.tokens_owed_0 - 1);
}

#[test]
fn swap_crosses_an_initialized_tick() {
    let mut pool = pool_at_price_one();
    let zero = U256::zero();
    pool.mint(7, -60, 60, 1_000_000, zero, zero, 1_001).unwrap();
    pool.mint(8, -6000, 6000, 1_000_000, zero, zero, 1_001).unwrap();
    assert_eq!(pool.get_liquidity(), 2_000_000);
    let limit = TickMath::get_sqrt_ratio_at_tick(-1000).unwrap();
    pool.swap(true, 20_000, limit, 1_002).unwrap();
    assert!(pool.get_tick() < -60);
    assert_eq!(pool.get_liquidity(), 1_000_000);
    // Back up across -60 and 60: the first range comes back, then leaves again.
    pool.swap(false, 60_000, U256::zero(), 1_003).unwrap();
    assert!(pool.get_tick() >= 60);
    assert_eq!(pool.get_liquidity(), 1_000_000);
}

#[test]
fn quote_and_price_queries() {
    let mut pool = pool_at_price_one();
    assert!(pool.quote_exact_input_single(true, U256::from_u128(1000)).is_none());
    assert_eq!(pool.get_price(), Some(U256::one()));
    let zero = U256::zero();
    pool.mint(7, -600, 600, 10_000_000, zero, zero, 1_001).unwrap();
    let q = pool.quote_exact_input_single(true, U256::from_u128(1000)).unwrap();
    assert_eq!(q.fee_amount, U256::from_u128(3));
    assert!(q.amount_out != zero);
    assert!(q.tick_after < 0);
    let uninit = Pool::new(1, 2, 3000, 60).unwrap();
    assert_eq!(uninit.get_price(), None);
}

#[test]
fn twap_over_a_constant_tick() {
    let mut pool = pool_at_price_one();
    pool.increase_observation_cardinality(10).unwrap();
    assert_eq!(pool.increase_observation_cardinality(1), Err(AmmError::InvalidCardinality));
    let zero = U256::zero();
    pool.mint(7, -600, 600, 10_000_000, zero, zero, 1_100).unwrap();
    pool.mint(7, -600, 600, 10_000_000, zero, zero, 1_400).unwrap();
    assert_eq!(pool.get_twap(1_400, 300, 0), Ok(0));
    assert!(pool.check_price_manipulation(1_400, 0));
    assert_eq!(pool.get_twap(1_400, 100_000, 0), Err(AmmError::ObservationUnavailable));
    assert!(pool.get_observation(1).unwrap().initialized);
    assert!(pool.get_observation(100).is_none());
    assert_eq!(MAX_TICK, 887272);
}
