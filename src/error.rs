//! The reasons an operation of the engine is refused.
use vstd::prelude::*;

verus! {

#[derive(Clone, Copy, Debug, PartialEq, Eq, Structural)]
pub enum AmmError {
    /// A multiply-divide with a zero denominator.
    DivisionByZero,
    /// A result does not fit its integer width.
    Overflow,
    /// A tick outside `[MIN_TICK, MAX_TICK]`.
    TickOutOfBounds,
    /// A square-root price outside `[MIN_SQRT_RATIO, MAX_SQRT_RATIO)`.
    PriceOutOfBounds,
    /// A price computation was given a zero price.
    ZeroPrice,
    /// A price computation was given zero liquidity.
    ZeroLiquidity,
    /// Removing more liquidity than there is.
    LiquidityUnderflow,
    /// Adding liquidity past the width of the liquidity type.
    LiquidityOverflow,
    /// A price moved below zero.
    PriceUnderflow,
    /// A tick that is not a multiple of the tick spacing.
    MisalignedTick,
    /// A fee-only update of a position that holds no liquidity.
    EmptyPositionPoke,
    /// The pool already has a price.
    AlreadyInitialized,
    /// The pool has no price yet.
    NotInitialized,
    /// A zero amount where a nonzero one is needed.
    ZeroAmount,
    /// A swap price limit on the wrong side of the price or past the bounds.
    PriceLimitInvalid,
    /// A position range whose lower tick is not below its upper tick.
    InvalidTickRange,
    /// A tick would hold more gross liquidity than the pool allows per tick.
    TickLiquidityExceeded,
    /// The target time of an oracle query lies outside the retained observations.
    ObservationUnavailable,
    /// Liquidity runs out before a price or amount is reached.
    InsufficientLiquidity,
    /// A requested amount is below the caller's minimum.
    SlippageExceeded,
    /// A pool configuration with identical tokens, a fee of 100% or more, or a
    /// tick spacing outside `1..=MAX_TICK_SPACING`.
    InvalidConfig,
    /// No pool exists for the token pair and fee.
    PoolNotFound,
    /// A pool already exists for the token pair and fee.
    PoolExists,
    /// The fee has no tick spacing enabled.
    FeeNotEnabled,
    /// The fee already has a tick spacing.
    FeeAlreadyEnabled,
    /// A pool of a token with itself.
    IdenticalTokens,
    /// An oracle cardinality that does not grow, or is too large.
    InvalidCardinality,
}

} // verus!
