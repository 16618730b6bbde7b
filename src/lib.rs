//! A concentrated-liquidity market maker: fixed-point price and tick math,
//! per-tick liquidity with a bitmap index, position fee accounting, a price
//! oracle, and pools that mint, burn, collect and swap, each step verified.
pub mod constants;
pub mod dex;
pub mod error;
pub mod math;
pub mod pool;
pub mod state;
pub mod wide;

pub use dex::UnifiedDex;
pub use error::AmmError;
pub use math::full_math::FullMath;
pub use math::liquidity_math::LiquidityMath;
pub use math::sqrt_price_math::SqrtPriceMath;
pub use math::tick_math::TickMath;
pub use pool::Pool;
pub use state::oracle::{Observation, Oracle};
pub use state::position::{Position, PositionKey};
pub use state::tick::Tick;
pub use state::tick_bitmap::TickBitmap;
pub use wide::{U256, U512};
