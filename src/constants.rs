//! Bounds and fixed-point units of the engine.
use vstd::prelude::*;

verus! {

/// The smallest tick, `log_1.0001(2^-128)` rounded.
pub const MIN_TICK: i32 = -887272;

/// The largest tick, `log_1.0001(2^128)` rounded.
pub const MAX_TICK: i32 = 887272;

/// The square-root price of `MIN_TICK`, the smallest allowed.
pub const MIN_SQRT_RATIO: u64 = 4295128739;

/// 2^96, one in Q64.96.
pub const Q96: u128 = 79228162514264337593543950336;

/// The largest tick spacing a fee tier may have.
pub const MAX_TICK_SPACING: i32 = 16383;

/// Fees are counted in millionths.
pub const FEE_DENOMINATOR: u32 = 1_000_000;

/// Fee tier of 0.05%.
pub const FEE_TIER_LOW: u32 = 500;

/// Fee tier of 0.30%.
pub const FEE_TIER_MEDIUM: u32 = 3000;

/// Fee tier of 1.00%.
pub const FEE_TIER_HIGH: u32 = 10000;

/// Tick spacing of the 0.05% tier.
pub const TICK_SPACING_LOW: i32 = 10;

/// Tick spacing of the 0.30% tier.
pub const TICK_SPACING_MEDIUM: i32 = 60;

/// Tick spacing of the 1.00% tier.
pub const TICK_SPACING_HIGH: i32 = 200;

} // verus!
