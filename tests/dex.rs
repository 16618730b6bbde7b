use concentrated_amm::constants::Q96;
use concentrated_amm::{AmmError, UnifiedDex, U256};

#[test]
fn create_pool_sorts_tokens_and_checks_tiers() {
    let mut dex = UnifiedDex::init();
    assert_eq!(dex.create_pool(5, 5, 3000), Err(AmmError::IdenticalTokens));
    assert_eq!(dex.create_pool(9, 4, 1234), Err(AmmError::FeeNotEnabled));
    let id = dex.create_pool(9, 4, 3000).unwrap();
    assert_eq!(id, 0);
    assert_eq!(dex.get_pool(4, 9, 3000), Some(0));
    assert_eq!(dex.pools[0].tick_spacing, 60);
    assert_eq!(dex.create_pool(4, 9, 3000), Err(AmmError::PoolExists));
    assert_eq!(dex.create_pool(4, 9, 500).unwrap(), 1);
    assert_eq!(dex.pools[1].tick_spacing, 10);
}

#[test]
fn enable_fee_amount_adds_a_tier_once() {
    let mut dex = UnifiedDex::init();
    assert_eq!(dex.enable_fee_amount(1_000_000, 10), Err(AmmError::InvalidConfig));
    assert_eq!(dex.enable_fee_amount(100, 0), Err(AmmError::InvalidConfig));
    assert_eq!(dex.enable_fee_amount(100, 16384), Err(AmmError::InvalidConfig));
    assert_eq!(dex.enable_fee_amount(3000, 20), Err(AmmError::FeeAlreadyEnabled));
    dex.enable_fee_amount(100, 1).unwrap();
    assert_eq!(dex.create_pool(1, 2, 100).unwrap(), 0);
    assert_eq!(dex.pools[0].tick_spacing, 1);
}

#[test]
fn dex_routes_calls_to_the_pool() {
    let mut dex = UnifiedDex::init();
    let zero = U256::zero();
    assert_eq!(dex.initialize_pool(1, 2, 3000, U256::from_u128(Q96), 0), Err(AmmError::PoolNotFound));
    dex.create_pool(1, 2, 3000).unwrap();
    assert_eq!(dex.get_price(1, 2, 3000), None);
    dex.initialize_pool(1, 2, 3000, U256::from_u128(Q96), 1_000).unwrap();
    assert_eq!(dex.get_price(1, 2, 3000), Some(U256::one()));
    let (a0, a1) = dex.mint(1, 2, 3000, 7, -600, 600, 10_000_000, zero, zero, 1_001).unwrap();
    assert!(a0 != zero && a1 != zero);
    assert_eq!(dex.mint(1, 2, 500, 7, -600, 600, 1, zero, zero, 1_001), Err(AmmError::PoolNotFound));
    let quote = dex.quote_exact_input_single(1, 2, 3000, U256::from_u128(1_000)).unwrap();
    let (s0, s1) = dex.swap(1, 2, 3000, true, 1_000, zero, 1_002).unwrap();
    assert_eq!(s0, 1_000);
    assert_eq!(U256::from_u128((-s1) as u128), quote.amount_out);
    let (b0, b1) = dex.burn(1, 2, 3000, 7, -600, 600, 5_000_000, 1_003).unwrap();
    assert!(b0 != zero && b1 != zero);
    let position = dex.get_position_with_fees(1, 2, 3000, 7, -600, 600).unwrap();
    assert_eq!(position.liquidity, 5_000_000);
    let (c0, c1) = dex.collect(1, 2, 3000, 7, -600, 600, u128::MAX, u128::MAX).unwrap();
    assert_eq!((c0, c1), (position.tokens_owed_0, position.tokens_owed_1));
    assert!(dex.get_observation(1, 2, 3000, 0).unwrap().initialized);
    dex.increase_observation_cardinality(1, 2, 3000, 8).unwrap();
    assert_eq!(dex.pools[0].oracle.cardinality_next, 8);
    assert_eq!(dex.get_twap(1, 2, 3000, 1_003, 0, 0), Ok(dex.pools[0].tick));
    assert!(!dex.check_price_manipulation(3, 4, 3000, 1_003, 10));
}
