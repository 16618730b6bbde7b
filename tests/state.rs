use concentrated_amm::state::oracle::Observation;
use concentrated_amm::{AmmError, Oracle, Position, PositionKey, Tick, TickBitmap, U256};

#[test]
fn test_position() {
    assert_eq!(TickBitmap::position(0), (0, 0));
    assert_eq!(TickBitmap::position(255), (0, 255));
    assert_eq!(TickBitmap::position(256), (1, 0));
    assert_eq!(TickBitmap::position(-256), (-1, 0));
    assert_eq!(TickBitmap::position(-1), (-1, 255));
}

#[test]
fn test_flip_tick() {
    let mut bitmap = TickBitmap::new();
    bitmap.flip_tick(0, 1).unwrap();
    let (word_pos, _bit_pos) = TickBitmap::position(0);
    assert_eq!(bitmap.get_word(word_pos), U256::one());
    bitmap.flip_tick(0, 1).unwrap();
    assert_eq!(bitmap.get_word(word_pos), U256::zero());
}

#[test]
fn flip_tick_refuses_misaligned_ticks() {
    let mut bitmap = TickBitmap::new();
    assert_eq!(bitmap.flip_tick(61, 60), Err(AmmError::MisalignedTick));
    assert_eq!(bitmap.flip_tick(-61, 60), Err(AmmError::MisalignedTick));
    bitmap.flip_tick(-120, 60).unwrap();
    // -120 / 60 = -2: word -1, bit 254.
    assert_eq!(bitmap.get_word(-1), U256 { l0: 0, l1: 0, l2: 0, l3: 1 << 62 });
}

#[test]
fn test_most_significant_bit() {
    assert_eq!(TickBitmap::most_significant_bit(U256::one()), 0);
    assert_eq!(TickBitmap::most_significant_bit(U256::from_u128(2)), 1);
    assert_eq!(TickBitmap::most_significant_bit(U256::from_u128(4)), 2);
    assert_eq!(TickBitmap::most_significant_bit(U256::from_u128(128)), 7);
    assert_eq!(TickBitmap::most_significant_bit(U256::from_u128(255)), 7);
    assert_eq!(TickBitmap::most_significant_bit(U256::max_value()), 255);
}

#[test]
fn test_least_significant_bit() {
    assert_eq!(TickBitmap::least_significant_bit(U256::one()), 0);
    assert_eq!(TickBitmap::least_significant_bit(U256::from_u128(2)), 1);
    assert_eq!(TickBitmap::least_significant_bit(U256::from_u128(4)), 2);
    assert_eq!(TickBitmap::least_significant_bit(U256::from_u128(128)), 7);
    assert_eq!(TickBitmap::least_significant_bit(U256::from_u128(3)), 0);
    let top = U256 { l0: 0, l1: 0, l2: 0, l3: 1 << 63 };
    assert_eq!(TickBitmap::least_significant_bit(top), 255);
}

#[test]
fn next_initialized_tick_within_one_word_finds_marks() {
    let mut bitmap = TickBitmap::new();
    for t in [-200, -55, 78, 84, 139, 240, 535] {
        bitmap.flip_tick(t, 1).unwrap();
    }
    assert_eq!(bitmap.next_initialized_tick_within_one_word(78, 1, true), (78, true));
    assert_eq!(bitmap.next_initialized_tick_within_one_word(79, 1, true), (78, true));
    assert_eq!(bitmap.next_initialized_tick_within_one_word(77, 1, true), (0, false));
    assert_eq!(bitmap.next_initialized_tick_within_one_word(-56, 1, true), (-200, true));
    assert_eq!(bitmap.next_initialized_tick_within_one_word(78, 1, false), (84, true));
    assert_eq!(bitmap.next_initialized_tick_within_one_word(-55, 1, false), (-1, false));
    assert_eq!(bitmap.next_initialized_tick_within_one_word(255, 1, false), (511, false));
    assert_eq!(bitmap.next_initialized_tick_within_one_word(256, 1, false), (511, false));
    assert_eq!(bitmap.next_initialized_tick_within_one_word(300, 1, false), (511, false));
    assert_eq!(bitmap.next_initialized_tick_within_one_word(500, 1, false), (511, false));
    assert_eq!(bitmap.next_initialized_tick_within_one_word(512, 1, false), (535, true));
}

#[test]
fn test_position_key_new() {
    let key = PositionKey::new(1, -100, 100);
    assert_eq!(key.owner, 1);
    assert_eq!(key.tick_lower, -100);
    assert_eq!(key.tick_upper, 100);
}

#[test]
fn test_position_update_add_liquidity() {
    let mut position = Position::empty();
    position.update(1000, U256::zero(), U256::zero()).unwrap();
    assert_eq!(position.liquidity, 1000);
}

#[test]
fn test_position_update_remove_liquidity() {
    let mut position = Position::empty();
    position.liquidity = 1000;
    position.update(-500, U256::zero(), U256::zero()).unwrap();
    assert_eq!(position.liquidity, 500);
}

#[test]
fn test_position_calculate_fees() {
    let mut position = Position::empty();
    position.liquidity = 1000;
    let fee_growth = U256 { l0: 0, l1: 0, l2: 1, l3: 0 };
    position.update(0, fee_growth, fee_growth).unwrap();
    assert_eq!(position.tokens_owed_0, 1000);
    assert_eq!(position.tokens_owed_1, 1000);
}

#[test]
fn position_fees_use_wrapping_differences() {
    let mut position = Position::empty();
    position.liquidity = 1000;
    // The last snapshot sits 2^128 below the top: growth to 2^128 past zero wraps.
    position.fee_growth_inside_0_last_x128 = U256 {
        l0: 0,
        l1: 0,
        l2: u64::MAX,
        l3: u64::MAX,
    };
    let current = U256 { l0: 0, l1: 0, l2: 1, l3: 0 };
    position.update(0, current, U256::zero()).unwrap();
    assert_eq!(position.tokens_owed_0, 2000);
    assert_eq!(position.tokens_owed_1, 0);
}

#[test]
fn empty_position_poke_is_refused() {
    let mut position = Position::empty();
    assert_eq!(position.update(0, U256::zero(), U256::zero()), Err(AmmError::EmptyPositionPoke));
    assert_eq!(position.update(-1, U256::zero(), U256::zero()), Err(AmmError::LiquidityUnderflow));
}

#[test]
fn tick_update_tracks_gross_and_net() {
    let mut tick = Tick::empty();
    let g = U256::from_u128(5);
    let flipped = tick.update(0, 10, 100, g, g, g, 7, 3, false, 1000).unwrap();
    assert!(flipped);
    assert_eq!(tick.liquidity_gross, 100);
    assert_eq!(tick.liquidity_net, 100);
    assert!(tick.initialized);
    assert_eq!(tick.fee_growth_outside_0_x128, g);
    let flipped = tick.update(0, 10, 50, g, g, g, 7, 3, true, 1000).unwrap();
    assert!(!flipped);
    assert_eq!(tick.liquidity_net, 50);
    assert_eq!(tick.update(0, 10, 900, g, g, g, 7, 3, false, 1000), Err(AmmError::TickLiquidityExceeded));
    let flipped = tick.update(0, 10, -150, g, g, g, 7, 3, false, 1000).unwrap();
    assert!(flipped);
    assert!(!tick.initialized);
}

#[test]
fn tick_cross_turns_snapshots_over() {
    let mut tick = Tick::empty();
    tick.liquidity_net = -42;
    tick.fee_growth_outside_0_x128 = U256::from_u128(10);
    let net = tick.cross(U256::from_u128(3), U256::from_u128(8), U256::zero(), 100, 20);
    assert_eq!(net, -42);
    // 3 - 10 wraps to 2^256 - 7.
    let expected = U256::zero().wrapping_sub(&U256::from_u128(7));
    assert_eq!(tick.fee_growth_outside_0_x128, expected);
    assert_eq!(tick.fee_growth_outside_1_x128, U256::from_u128(8));
    assert_eq!(tick.tick_cumulative_outside, 100);
    assert_eq!(tick.seconds_outside, 20);
}

#[test]
fn oracle_cumulative_tick_grows_by_tick_times_seconds() {
    let first = Observation {
        block_timestamp: 1000,
        tick_cumulative: 500,
        seconds_per_liquidity_cumulative_x128: U256::zero(),
        initialized: true,
    };
    let next = Observation::transform(&first, 1060, -25, 4);
    assert_eq!(next.tick_cumulative - first.tick_cumulative, -25 * 60);
    // 60 << 128 / 4 = 15 << 128
    assert_eq!(next.seconds_per_liquidity_cumulative_x128, U256 { l0: 0, l1: 0, l2: 15, l3: 0 });
    let zero_liquidity = Observation::transform(&first, 1001, 1, 0);
    assert_eq!(zero_liquidity.seconds_per_liquidity_cumulative_x128, U256 { l0: 0, l1: 0, l2: 1, l3: 0 });
}

#[test]
fn oracle_writes_once_per_second_and_interpolates() {
    let mut oracle = Oracle::new(100);
    oracle.write(100, 5, 10);
    assert_eq!(oracle.index, 0);
    oracle.write(110, 5, 10);
    assert_eq!(oracle.index, 0);
    assert_eq!(oracle.observations[0].tick_cumulative, 50);
    oracle.grow(4).unwrap();
    assert_eq!(oracle.grow(1), Err(AmmError::InvalidCardinality));
    oracle.write(120, 7, 10);
    assert_eq!(oracle.index, 1);
    assert_eq!(oracle.cardinality, 4);
    assert_eq!(oracle.observe(120, 0), Ok(120));
    assert_eq!(oracle.observe(125, 10), Ok(85));
    assert_eq!(oracle.observe(125, 100), Err(AmmError::ObservationUnavailable));
    assert_eq!(oracle.twap(120, 7, 10, 0), Ok(7));
    assert_eq!(oracle.twap(120, 7, 5, 5), Ok(7));
}
