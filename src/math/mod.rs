pub mod full_math;
pub mod liquidity_math;
pub mod sqrt_price_math;
pub mod tick_math;
