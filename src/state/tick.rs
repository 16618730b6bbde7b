//! Per-tick liquidity and fee-growth snapshots.
use crate::error::AmmError;
use crate::math::liquidity_math::{add_delta_result, LiquidityMath};
use crate::wide::{modulus256, wrapping_sub, U256};
use vstd::prelude::*;

verus! {

/// What the pool records at a tick that bounds some position. An absent tick
/// behaves as `Tick::empty()`.
#[derive(Clone, Copy, Debug)]
pub struct Tick {
    /// Total liquidity of the positions that use this tick as a bound.
    pub liquidity_gross: u128,
    /// Liquidity added when the price crosses this tick upward.
    pub liquidity_net: i128,
    pub fee_growth_outside_0_x128: U256,
    pub fee_growth_outside_1_x128: U256,
    pub tick_cumulative_outside: i64,
    pub seconds_per_liquidity_outside_x128: U256,
    pub seconds_outside: u32,
    pub initialized: bool,
}

/// The difference of two wide accumulators modulo 2^256.
pub open spec fn wrapped_diff(a: nat, b: nat) -> nat {
    ((a + modulus256() - b) as nat) % modulus256()
}

impl Tick {
    pub open spec fn is_empty(&self) -> bool {
        &&& self.liquidity_gross == 0
        &&& self.liquidity_net == 0
        &&& self.fee_growth_outside_0_x128.value() == 0
        &&& self.fee_growth_outside_1_x128.value() == 0
        &&& self.tick_cumulative_outside == 0
        &&& self.seconds_per_liquidity_outside_x128.value() == 0
        &&& self.seconds_outside == 0
        &&& !self.initialized
    }

    pub open spec fn empty_spec() -> Tick {
        Tick {
            liquidity_gross: 0,
            liquidity_net: 0,
            fee_growth_outside_0_x128: U256 { l0: 0, l1: 0, l2: 0, l3: 0 },
            fee_growth_outside_1_x128: U256 { l0: 0, l1: 0, l2: 0, l3: 0 },
            tick_cumulative_outside: 0,
            seconds_per_liquidity_outside_x128: U256 { l0: 0, l1: 0, l2: 0, l3: 0 },
            seconds_outside: 0,
            initialized: false,
        }
    }

    /// A tick that no position uses.
    pub fn empty() -> (r: Tick)
        ensures
            r.is_empty(),
            r == Tick::empty_spec(),
    {
        Tick {
            liquidity_gross: 0,
            liquidity_net: 0,
            fee_growth_outside_0_x128: U256 { l0: 0, l1: 0, l2: 0, l3: 0 },
            fee_growth_outside_1_x128: U256 { l0: 0, l1: 0, l2: 0, l3: 0 },
            tick_cumulative_outside: 0,
            seconds_per_liquidity_outside_x128: U256 { l0: 0, l1: 0, l2: 0, l3: 0 },
            seconds_outside: 0,
            initialized: false,
        }
    }

    /// The gross liquidity after `update`, if it succeeds.
    pub open spec fn update_error(
        &self,
        liquidity_delta: int,
        upper: bool,
        max_liquidity: nat,
    ) -> Option<AmmError> {
        let net = if upper {
            self.liquidity_net - liquidity_delta
        } else {
            self.liquidity_net + liquidity_delta
        };
        match add_delta_result(self.liquidity_gross as nat, liquidity_delta) {
            Err(e) => Some(e),
            Ok(g) => if g > max_liquidity {
                Some(AmmError::TickLiquidityExceeded)
            } else if net < i128::MIN || net > i128::MAX {
                Some(AmmError::LiquidityOverflow)
            } else {
                None
            },
        }
    }

    /// The tick after a successful `update`.
    pub open spec fn updated(
        &self,
        tick: i32,
        tick_current: i32,
        liquidity_delta: int,
        fee_growth_global_0_x128: U256,
        fee_growth_global_1_x128: U256,
        seconds_per_liquidity_cumulative_x128: U256,
        tick_cumulative: i64,
        time: u32,
        upper: bool,
    ) -> Tick {
        let below = self.liquidity_gross == 0 && tick <= tick_current;
        let gross = self.liquidity_gross + liquidity_delta;
        Tick {
            liquidity_gross: gross as u128,
            liquidity_net: (if upper {
                self.liquidity_net - liquidity_delta
            } else {
                self.liquidity_net + liquidity_delta
            }) as i128,
            fee_growth_outside_0_x128: if below {
                fee_growth_global_0_x128
            } else {
                self.fee_growth_outside_0_x128
            },
            fee_growth_outside_1_x128: if below {
                fee_growth_global_1_x128
            } else {
                self.fee_growth_outside_1_x128
            },
            tick_cumulative_outside: if below {
                tick_cumulative
            } else {
                self.tick_cumulative_outside
            },
            seconds_per_liquidity_outside_x128: if below {
                seconds_per_liquidity_cumulative_x128
            } else {
                self.seconds_per_liquidity_outside_x128
            },
            seconds_outside: if below {
                time
            } else {
                self.seconds_outside
            },
            initialized: gross != 0,
        }
    }

    /// Adds `liquidity_delta` of a position bounded by this tick (`upper` when it
    /// is the position's upper bound) and returns whether the tick went from
    /// unused to used or back. A tick used for the first time takes the global
    /// accumulators as its outside snapshots when it lies at or below the
    /// current tick. On an error the tick is unchanged.
    pub fn update(
        &mut self,
        tick: i32,
        tick_current: i32,
        liquidity_delta: i128,
        fee_growth_global_0_x128: U256,
        fee_growth_global_1_x128: U256,
        seconds_per_liquidity_cumulative_x128: U256,
        tick_cumulative: i64,
        time: u32,
        upper: bool,
        max_liquidity: u128,
    ) -> (r: Result<bool, AmmError>)
        ensures
            match old(self).update_error(liquidity_delta as int, upper, max_liquidity as nat) {
                Some(e) => r == Err::<bool, AmmError>(e) && *final(self) == *old(self),
                None => {
                    let fresh = old(self).liquidity_gross == 0;
                    let below = fresh && tick <= tick_current;
                    &&& *final(self) == old(self).updated(
                        tick,
                        tick_current,
                        liquidity_delta as int,
                        fee_growth_global_0_x128,
                        fee_growth_global_1_x128,
                        seconds_per_liquidity_cumulative_x128,
                        tick_cumulative,
                        time,
                        upper,
                    )
                    &&& final(self).liquidity_gross == old(self).liquidity_gross + liquidity_delta
                    &&& final(self).liquidity_net == if upper {
                        old(self).liquidity_net - liquidity_delta
                    } else {
                        old(self).liquidity_net + liquidity_delta
                    }
                    &&& final(self).initialized == (final(self).liquidity_gross != 0)
                    &&& r == Ok::<bool, AmmError>(
                        (final(self).liquidity_gross == 0) != (old(self).liquidity_gross == 0),
                    )
                    &&& final(self).fee_growth_outside_0_x128 == if below {
                        fee_growth_global_0_x128
                    } else {
                        old(self).fee_growth_outside_0_x128
                    }
                    &&& final(self).fee_growth_outside_1_x128 == if below {
                        fee_growth_global_1_x128
                    } else {
                        old(self).fee_growth_outside_1_x128
                    }
                    &&& final(self).seconds_per_liquidity_outside_x128 == if below {
                        seconds_per_liquidity_cumulative_x128
                    } else {
                        old(self).seconds_per_liquidity_outside_x128
                    }
                    &&& final(self).tick_cumulative_outside == if below {
                        tick_cumulative
                    } else {
                        old(self).tick_cumulative_outside
                    }
                    &&& final(self).seconds_outside == if below {
                        time
                    } else {
                        old(self).seconds_outside
                    }
                },
            },
    {
        let liquidity_gross_before = self.liquidity_gross;
        let liquidity_gross_after = match LiquidityMath::add_delta(
            liquidity_gross_before,
            liquidity_delta,
        ) {
            Ok(g) => g,
            Err(e) => {
                return Err(e);
            },
        };
        if liquidity_gross_after > max_liquidity {
            return Err(AmmError::TickLiquidityExceeded);
        }
        let new_net = if upper {
            self.liquidity_net.checked_sub(liquidity_delta)
        } else {
            self.liquidity_net.checked_add(liquidity_delta)
        };
        let new_net = match new_net {
            Some(n) => n,
            None => {
                return Err(AmmError::LiquidityOverflow);
            },
        };
        let flipped = (liquidity_gross_after == 0) != (liquidity_gross_before == 0);
        if liquidity_gross_before == 0 && tick <= tick_current {
            self.fee_growth_outside_0_x128 = fee_growth_global_0_x128;
            self.fee_growth_outside_1_x128 = fee_growth_global_1_x128;
            self.seconds_per_liquidity_outside_x128 = seconds_per_liquidity_cumulative_x128;
            self.tick_cumulative_outside = tick_cumulative;
            self.seconds_outside = time;
        }
        self.liquidity_gross = liquidity_gross_after;
        self.liquidity_net = new_net;
        self.initialized = liquidity_gross_after != 0;
        Ok(flipped)
    }

    /// Forgets everything recorded at the tick.
    pub fn clear(&mut self)
        ensures
            final(self).is_empty(),
    {
        *self = Tick::empty();
    }

    /// Turns the outside snapshots over when the price crosses the tick, each
    /// becoming the global value minus the old snapshot with wrapping, and
    /// returns the tick's net liquidity.
    pub fn cross(
        &mut self,
        fee_growth_global_0_x128: U256,
        fee_growth_global_1_x128: U256,
        seconds_per_liquidity_cumulative_x128: U256,
        tick_cumulative: i64,
        time: u32,
    ) -> (r: i128)
        ensures
            r == old(self).liquidity_net,
            final(self).liquidity_gross == old(self).liquidity_gross,
            final(self).liquidity_net == old(self).liquidity_net,
            final(self).initialized == old(self).initialized,
            final(self).fee_growth_outside_0_x128.value() == wrapped_diff(
                fee_growth_global_0_x128.value(),
                old(self).fee_growth_outside_0_x128.value(),
            ),
            final(self).fee_growth_outside_1_x128.value() == wrapped_diff(
                fee_growth_global_1_x128.value(),
                old(self).fee_growth_outside_1_x128.value(),
            ),
            final(self).seconds_per_liquidity_outside_x128.value() == wrapped_diff(
                seconds_per_liquidity_cumulative_x128.value(),
                old(self).seconds_per_liquidity_outside_x128.value(),
            ),
            final(self).tick_cumulative_outside == tick_cumulative.wrapping_sub(
                old(self).tick_cumulative_outside,
            ),
            final(self).seconds_outside == time.wrapping_sub(old(self).seconds_outside),
    {
        self.fee_growth_outside_0_x128 = wrapping_sub(
            &fee_growth_global_0_x128,
            &self.fee_growth_outside_0_x128,
        );
        self.fee_growth_outside_1_x128 = wrapping_sub(
            &fee_growth_global_1_x128,
            &self.fee_growth_outside_1_x128,
        );
        self.seconds_per_liquidity_outside_x128 = wrapping_sub(
            &seconds_per_liquidity_cumulative_x128,
            &self.seconds_per_liquidity_outside_x128,
        );
        self.tick_cumulative_outside = tick_cumulative.wrapping_sub(self.tick_cumulative_outside);
        self.seconds_outside = time.wrapping_sub(self.seconds_outside);
        self.liquidity_net
    }
}

} // verus!
