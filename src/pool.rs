//! One pool's state and its entry points: initialize, mint, burn, collect and swap.
use crate::constants::{FEE_DENOMINATOR, MAX_TICK, MAX_TICK_SPACING, MIN_TICK};
use crate::error::AmmError;
use crate::math::full_math::{ceil_div, mul_div_up_result, FullMath};
use crate::math::liquidity_math::{
    add_delta_result, liquidity0_result, liquidity1_result, liquidity_for_amounts_result, max_nat, min_nat,
    LiquidityMath,
};
use crate::math::sqrt_price_math::{
    amount0_delta_result, amount1_delta_result, next_price_from_input_result,
    next_price_from_output_result, SqrtPriceMath,
};
use crate::math::tick_math::{
    is_tick_of_price, max_sqrt_ratio, max_sqrt_ratio_spec, sqrt_ratio_at_tick_spec, tick_search,
    TickMath,
};
use crate::state::oracle::{Observation, Oracle, MAX_CARDINALITY};
use crate::state::position::{owed_after, Position, PositionKey};
use crate::state::tick::{wrapped_diff, Tick};
use crate::state::tick_bitmap::{bit_of, floor_div_i32, word_of, TickBitmap};
use crate::wide::{
    base128, checked_div, checked_mul, checked_sub, from_u128, modulus256, q96, low_u128, lt, shl, wrapping_add, wrapping_sub, U256,
};
use crate::constants::MIN_SQRT_RATIO;
use std::collections::HashMap;
use vstd::prelude::*;

verus! {

broadcast use vstd::std_specs::hash::group_hash_axioms;

/// The net liquidity recorded at tick `t`, zero where none is.
pub open spec fn net_at(ticks: Map<i32, Tick>, t: int) -> int {
    if i32::MIN <= t <= i32::MAX && ticks.contains_key(t as i32) {
        ticks[t as i32].liquidity_net as int
    } else {
        0
    }
}

/// The sum of the net liquidity of the ticks in `[lo, hi)`.
pub open spec fn net_sum(ticks: Map<i32, Tick>, lo: int, hi: int) -> int
    decreases hi - lo,
{
    if hi <= lo {
        0
    } else {
        net_sum(ticks, lo, hi - 1) + net_at(ticks, hi - 1)
    }
}

/// The sum of the net liquidity over every tick of the pool's range.
pub open spec fn total_net(ticks: Map<i32, Tick>) -> int {
    net_sum(ticks, MIN_TICK as int, MAX_TICK as int + 1)
}

/// Changing the net liquidity at one tick of a range by `d` changes the
/// range's sum by `d`.
pub proof fn lemma_net_sum_update(m1: Map<i32, Tick>, m2: Map<i32, Tick>, t: int, d: int, lo: int, hi: int)
    requires
        lo <= t < hi,
        net_at(m2, t) == net_at(m1, t) + d,
        forall|u: int| u != t ==> #[trigger] net_at(m2, u) == net_at(m1, u),
    ensures
        net_sum(m2, lo, hi) == net_sum(m1, lo, hi) + d,
    decreases hi - lo,
{
    if hi - 1 > t {
        lemma_net_sum_update(m1, m2, t, d, lo, hi - 1);
    } else {
        lemma_net_sum_unchanged(m1, m2, t, lo, hi - 1);
    }
}

/// A range that avoids `t` has the same sum in two maps that differ only at `t`.
pub proof fn lemma_net_sum_unchanged(m1: Map<i32, Tick>, m2: Map<i32, Tick>, t: int, lo: int, hi: int)
    requires
        hi <= t,
        forall|u: int| u != t ==> #[trigger] net_at(m2, u) == net_at(m1, u),
    ensures
        net_sum(m2, lo, hi) == net_sum(m1, lo, hi),
    decreases hi - lo,
{
    if hi > lo {
        lemma_net_sum_unchanged(m1, m2, t, lo, hi - 1);
    }
}

/// A position key packed into one integer: owner, then the two ticks shifted
/// to be non-negative.
pub open spec fn packed_key(owner: u64, tick_lower: i32, tick_upper: i32) -> u128 {
    (owner as int * 0x1_0000_0000_0000_0000 + (tick_lower as int + 0x8000_0000) * 0x1_0000_0000
        + (tick_upper as int + 0x8000_0000)) as u128
}

/// Packs a position key; distinct keys give distinct integers.
pub fn pack_key(key: &PositionKey) -> (r: u128)
    ensures
        r == packed_key(key.owner, key.tick_lower, key.tick_upper),
{
    let lower = (key.tick_lower as i64 + 0x8000_0000) as u128;
    let upper = (key.tick_upper as i64 + 0x8000_0000) as u128;
    assert(key.owner as int * 0x1_0000_0000_0000_0000 <= 0xffff_ffff_ffff_ffff_0000_0000_0000_0000)
        by (nonlinear_arith)
        requires
            key.owner <= 0xffff_ffff_ffff_ffff,
    ;
    assert(lower * 0x1_0000_0000 <= 0xffff_ffff_0000_0000) by (nonlinear_arith)
        requires
            lower <= 0xffff_ffff,
    ;
    key.owner as u128 * 0x1_0000_0000_0000_0000 + lower * 0x1_0000_0000 + upper
}

/// One pool: its fixed configuration, its price state, and the tick,
/// bitmap, position and oracle records behind it.
pub struct Pool {
    pub token0: u64,
    pub token1: u64,
    /// Fee in millionths of the input amount.
    pub fee: u32,
    pub tick_spacing: i32,
    pub max_liquidity_per_tick: u128,
    /// Zero until the pool is initialized.
    pub sqrt_price_x96: U256,
    pub tick: i32,
    /// The liquidity of the positions whose range holds the current tick.
    pub liquidity: u128,
    pub fee_growth_global_0_x128: U256,
    pub fee_growth_global_1_x128: U256,
    pub protocol_fees_token0: u128,
    pub protocol_fees_token1: u128,
    pub ticks: HashMap<i32, Tick>,
    pub bitmap: TickBitmap,
    pub positions: HashMap<u128, Position>,
    pub oracle: Oracle,
}

impl Pool {
    /// The pool's invariant.
    pub open spec fn wf(&self) -> bool {
        &&& self.token0 < self.token1
        &&& self.fee < FEE_DENOMINATOR
        &&& 0 < self.tick_spacing <= MAX_TICK_SPACING
        &&& self.oracle.wf()
        &&& total_net(self.ticks@) == 0
        &&& forall|t: i32| #[trigger]
            self.ticks@.contains_key(t) ==> MIN_TICK <= t <= MAX_TICK
        &&& forall|t: i32| #[trigger]
            self.ticks@.contains_key(t) ==> self.ticks@[t].initialized == (
            self.ticks@[t].liquidity_gross != 0)
        &&& forall|c: int| #[trigger] self.bitmap.is_marked(c) == self.marks_tick(c)
        &&& self.is_initialized() ==> {
            &&& MIN_SQRT_RATIO <= self.sqrt_price_x96.value() < max_sqrt_ratio_spec()
            &&& is_tick_of_price(self.tick as int, self.sqrt_price_x96.value())
        }
    }

    /// Whether the compressed tick `c` stands for a tick of the pool's range
    /// that some position uses.
    pub open spec fn marks_tick(&self, c: int) -> bool {
        &&& MIN_TICK <= c * self.tick_spacing <= MAX_TICK
        &&& self.tick_at((c * self.tick_spacing) as i32).initialized
    }

    pub open spec fn is_initialized(&self) -> bool {
        self.sqrt_price_x96.value() != 0
    }

    /// The recorded tick `t`, or an empty one.
    pub open spec fn tick_at(&self, t: i32) -> Tick {
        if self.ticks@.contains_key(t) {
            self.ticks@[t]
        } else {
            Tick::empty_spec()
        }
    }

    /// The position of `owner` over `[tick_lower, tick_upper)`, or an empty one.
    pub open spec fn position_at(&self, owner: u64, tick_lower: i32, tick_upper: i32) -> Position {
        let k = packed_key(owner, tick_lower, tick_upper);
        if self.positions@.contains_key(k) {
            self.positions@[k]
        } else {
            Position::empty_spec()
        }
    }

    /// A pool of `token_a` and `token_b` (in either order) with the given fee and
    /// tick spacing, not yet initialized. Each tick may hold at most
    /// `u128::MAX / tick_spacing` gross liquidity.
    pub fn new(token_a: u64, token_b: u64, fee: u32, tick_spacing: i32) -> (r: Result<Pool, AmmError>)
        ensures
            r is Ok <==> (token_a != token_b && fee < FEE_DENOMINATOR && 0 < tick_spacing
                <= MAX_TICK_SPACING),
            r matches Ok(p) ==> {
                &&& p.wf()
                &&& !p.is_initialized()
                &&& p.token0 == if token_a < token_b {
                    token_a
                } else {
                    token_b
                }
                &&& p.token1 == if token_a < token_b {
                    token_b
                } else {
                    token_a
                }
                &&& p.fee == fee
                &&& p.tick_spacing == tick_spacing
                &&& p.max_liquidity_per_tick == u128::MAX / tick_spacing as u128
                &&& p.liquidity == 0
                &&& p.ticks@ == Map::<i32, Tick>::empty()
                &&& p.positions@ == Map::<u128, Position>::empty()
            },
    {
        if token_a == token_b || fee >= FEE_DENOMINATOR || tick_spacing <= 0 || tick_spacing
            > MAX_TICK_SPACING {
            return Err(AmmError::InvalidConfig);
        }
        let (token0, token1) = if token_a < token_b {
            (token_a, token_b)
        } else {
            (token_b, token_a)
        };
        let ticks: HashMap<i32, Tick> = HashMap::new();
        proof {
            lemma_net_sum_empty(ticks@, MIN_TICK as int, MAX_TICK as int + 1);
        }
        let bitmap = TickBitmap::new();
        proof {
            assert forall|c: int| !#[trigger] bitmap.is_marked(c) by {
                vstd::arithmetic::power2::lemma_pow2_pos(bit_of(c) as nat);
                assert(bitmap.word_value(word_of(c)) == 0);
            }
        }
        Ok(
            Pool {
                token0,
                token1,
                fee,
                tick_spacing,
                max_liquidity_per_tick: u128::MAX / tick_spacing as u128,
                sqrt_price_x96: U256::zero(),
                tick: 0,
                liquidity: 0,
                fee_growth_global_0_x128: U256::zero(),
                fee_growth_global_1_x128: U256::zero(),
                protocol_fees_token0: 0,
                protocol_fees_token1: 0,
                ticks,
                bitmap,
                positions: HashMap::new(),
                oracle: Oracle::new(0),
            },
        )
    }

    /// Sets the starting price and the tick it lies in, and takes the first
    /// oracle observation at `time`. Allowed once.
    pub fn initialize(&mut self, sqrt_price_x96: U256, time: u32) -> (r: Result<(), AmmError>)
        requires
            old(self).wf(),
        ensures
            Pool::initialize_post(*old(self), *final(self), sqrt_price_x96, time, r),
    {
        if !self.sqrt_price_x96.is_zero() {
            return Err(AmmError::AlreadyInitialized);
        }
        let tick = match TickMath::get_tick_at_sqrt_ratio(sqrt_price_x96) {
            Ok(t) => t,
            Err(e) => {
                return Err(e);
            },
        };
        self.sqrt_price_x96 = sqrt_price_x96;
        self.tick = tick;
        self.oracle = Oracle::new(time);
        Ok(())
    }

    /// A tick of a liquidity change after its update.
    pub open spec fn planned_tick(&self, t: i32, liquidity_delta: int, time: u32, upper: bool) -> Tick {
        let latest = self.oracle.latest();
        self.tick_at(t).updated(
            t,
            self.tick,
            liquidity_delta,
            self.fee_growth_global_0_x128,
            self.fee_growth_global_1_x128,
            latest.seconds_per_liquidity_cumulative_x128,
            latest.tick_cumulative,
            time,
            upper,
        )
    }

    /// Fee growth inside the range of a liquidity change, for each token, once
    /// its ticks are updated.
    pub open spec fn planned_inside(
        &self,
        tick_lower: i32,
        tick_upper: i32,
        liquidity_delta: int,
        time: u32,
    ) -> (nat, nat) {
        let lt = self.planned_tick(tick_lower, liquidity_delta, time, false);
        let ut = self.planned_tick(tick_upper, liquidity_delta, time, true);
        (
            fee_growth_inside_spec(
                lt.fee_growth_outside_0_x128.value(),
                ut.fee_growth_outside_0_x128.value(),
                tick_lower as int,
                tick_upper as int,
                self.tick as int,
                self.fee_growth_global_0_x128.value(),
            ),
            fee_growth_inside_spec(
                lt.fee_growth_outside_1_x128.value(),
                ut.fee_growth_outside_1_x128.value(),
                tick_lower as int,
                tick_upper as int,
                self.tick as int,
                self.fee_growth_global_1_x128.value(),
            ),
        )
    }

    /// Token amounts of a liquidity change: rounded up when adding, down when
    /// removing.
    pub open spec fn planned_amounts(&self, tick_lower: i32, tick_upper: i32, liquidity_delta: int) -> Result<
        (nat, nat),
        AmmError,
    > {
        position_amounts_result(
            self.sqrt_price_x96.value(),
            sqrt_ratio_at_tick_spec(tick_lower as int),
            sqrt_ratio_at_tick_spec(tick_upper as int),
            (if liquidity_delta < 0 {
                -liquidity_delta
            } else {
                liquidity_delta
            }) as nat,
            liquidity_delta > 0,
        )
    }

    /// Why a liquidity change of `liquidity_delta` to `owner`'s position is
    /// refused, if it is: a bad range, a tick whose gross liquidity would go
    /// below zero or over the cap, a position short of liquidity or whose fees
    /// overflow, token amounts that overflow, or active liquidity out of range.
    pub open spec fn plan_error(
        &self,
        owner: u64,
        tick_lower: i32,
        tick_upper: i32,
        liquidity_delta: int,
        time: u32,
    ) -> Option<AmmError> {
        let (i0, i1) = self.planned_inside(tick_lower, tick_upper, liquidity_delta, time);
        if self.range_error(tick_lower, tick_upper) is Some {
            self.range_error(tick_lower, tick_upper)
        } else if liquidity_delta == i128::MIN {
            Some(AmmError::LiquidityUnderflow)
        } else if self.tick_at(tick_lower).update_error(
            liquidity_delta,
            false,
            self.max_liquidity_per_tick as nat,
        ) is Some {
            self.tick_at(tick_lower).update_error(
                liquidity_delta,
                false,
                self.max_liquidity_per_tick as nat,
            )
        } else if self.tick_at(tick_upper).update_error(
            liquidity_delta,
            true,
            self.max_liquidity_per_tick as nat,
        ) is Some {
            self.tick_at(tick_upper).update_error(
                liquidity_delta,
                true,
                self.max_liquidity_per_tick as nat,
            )
        } else if self.position_at(owner, tick_lower, tick_upper).update_error(
            liquidity_delta,
            i0,
            i1,
        ) is Some {
            self.position_at(owner, tick_lower, tick_upper).update_error(liquidity_delta, i0, i1)
        } else if self.planned_amounts(tick_lower, tick_upper, liquidity_delta) is Err {
            Some(self.planned_amounts(tick_lower, tick_upper, liquidity_delta)->Err_0)
        } else if tick_lower <= self.tick < tick_upper && add_delta_result(
            self.liquidity as nat,
            liquidity_delta,
        ) is Err {
            Some(add_delta_result(self.liquidity as nat, liquidity_delta)->Err_0)
        } else {
            None
        }
    }

    /// Why `mint` is refused, if it is.
    pub open spec fn mint_error(
        &self,
        recipient: u64,
        tick_lower: i32,
        tick_upper: i32,
        amount: u128,
        amount0_min: nat,
        amount1_min: nat,
        time: u32,
    ) -> Option<AmmError> {
        if amount == 0 {
            Some(AmmError::ZeroAmount)
        } else if self.range_error(tick_lower, tick_upper) is Some {
            self.range_error(tick_lower, tick_upper)
        } else if amount > i128::MAX {
            Some(AmmError::LiquidityOverflow)
        } else if self.plan_error(recipient, tick_lower, tick_upper, amount as int, time) is Some {
            self.plan_error(recipient, tick_lower, tick_upper, amount as int, time)
        } else {
            let (a0, a1) = self.planned_amounts(tick_lower, tick_upper, amount as int)->Ok_0;
            if a0 < amount0_min || a1 < amount1_min {
                Some(AmmError::SlippageExceeded)
            } else {
                None
            }
        }
    }

    /// What `owner`'s position is owed of each token after a liquidity change,
    /// fees settled, before any freed amount is added.
    pub open spec fn planned_owed(
        &self,
        owner: u64,
        tick_lower: i32,
        tick_upper: i32,
        liquidity_delta: int,
        time: u32,
    ) -> (nat, nat) {
        let pos = self.position_at(owner, tick_lower, tick_upper);
        let (i0, i1) = self.planned_inside(tick_lower, tick_upper, liquidity_delta, time);
        let l = (pos.liquidity + liquidity_delta) as nat;
        (
            owed_after(pos.tokens_owed_0 as nat, l, i0, pos.fee_growth_inside_0_last_x128.value())->Some_0,
            owed_after(pos.tokens_owed_1 as nat, l, i1, pos.fee_growth_inside_1_last_x128.value())->Some_0,
        )
    }

    /// Why `burn` is refused, if it is.
    pub open spec fn burn_error(
        &self,
        owner: u64,
        tick_lower: i32,
        tick_upper: i32,
        amount: u128,
        time: u32,
    ) -> Option<AmmError> {
        let d = -(amount as int);
        if self.range_error(tick_lower, tick_upper) is Some {
            self.range_error(tick_lower, tick_upper)
        } else if amount > i128::MAX {
            Some(AmmError::LiquidityUnderflow)
        } else if self.plan_error(owner, tick_lower, tick_upper, d, time) is Some {
            self.plan_error(owner, tick_lower, tick_upper, d, time)
        } else {
            let (a0, a1) = self.planned_amounts(tick_lower, tick_upper, d)->Ok_0;
            let (o0, o1) = self.planned_owed(owner, tick_lower, tick_upper, d, time);
            if o0 + a0 >= base128() || o1 + a1 >= base128() {
                Some(AmmError::Overflow)
            } else {
                None
            }
        }
    }

    /// Whether compressed tick `g` is the first marked tick that the price meets
    /// moving from tick `current` toward tick `to`: downward, the greatest one
    /// at or below `current` and above `to`; upward, the least one above
    /// `current` and at or below `to`.
    pub open spec fn is_next_crossing(&self, g: int, current: int, to: int, zero_for_one: bool) -> bool {
        let s = self.tick_spacing as int;
        &&& self.bitmap.is_marked(g)
        &&& if zero_for_one {
            &&& to < g * s <= current
            &&& forall|c: int| g * s < c * s <= current ==> !#[trigger] self.bitmap.is_marked(c)
        } else {
            &&& current < g * s <= to
            &&& forall|c: int| current < c * s < g * s ==> !#[trigger] self.bitmap.is_marked(c)
        }
    }

    /// The active liquidity after the price moves from tick `current` to tick
    /// `to`, crossing each marked tick on the way: one crossed downward takes
    /// its net liquidity off (the lowest tick is never crossed downward), one
    /// crossed upward adds it.
    pub open spec fn cross_result(&self, current: int, to: int, l: nat, zero_for_one: bool) -> Result<
        nat,
        AmmError,
    >
        decreases (if zero_for_one {
            current - to
        } else {
            to - current
        }),
    {
        let s = self.tick_spacing as int;
        if (zero_for_one && to >= current) || (!zero_for_one && current >= to) {
            Ok(l)
        } else if exists|g: int| self.is_next_crossing(g, current, to, zero_for_one) {
            let g = choose|g: int| self.is_next_crossing(g, current, to, zero_for_one);
            let t = g * s;
            let net = net_at(self.ticks@, t);
            if zero_for_one {
                if t <= MIN_TICK {
                    Ok(l)
                } else if net == i128::MIN {
                    Err(AmmError::LiquidityOverflow)
                } else {
                    match add_delta_result(l, -net) {
                        Err(e) => Err(e),
                        Ok(l2) => self.cross_result(t - 1, to, l2, zero_for_one),
                    }
                }
            } else {
                match add_delta_result(l, net) {
                    Err(e) => Err(e),
                    Ok(l2) => self.cross_result(t, to, l2, zero_for_one),
                }
            }
        } else {
            Ok(l)
        }
    }

    /// At most one compressed tick is the next crossing.
    proof fn lemma_next_crossing_unique(&self, g1: int, g2: int, current: int, to: int, zero_for_one: bool)
        requires
            self.tick_spacing > 0,
            self.is_next_crossing(g1, current, to, zero_for_one),
            self.is_next_crossing(g2, current, to, zero_for_one),
        ensures
            g1 == g2,
    {
        let s = self.tick_spacing as int;
        if g1 < g2 {
            assert(g1 * s < g2 * s) by (nonlinear_arith)
                requires
                    g1 < g2,
                    s > 0,
            ;
            assert(self.bitmap.is_marked(g2));
        } else if g2 < g1 {
            assert(g2 * s < g1 * s) by (nonlinear_arith)
                requires
                    g2 < g1,
                    s > 0,
            ;
            assert(self.bitmap.is_marked(g1));
        }
    }

    /// Where a swap's loop ends from a given state: the price, the active
    /// liquidity, the amount left, the amount calculated on the other side,
    /// and the fee growth of the input token. Each round makes one swap step;
    /// it stops once the amount is used, the limit or a step that cannot move
    /// the price is reached, or no liquidity is active; after a step short of
    /// the limit it crosses the marked ticks between the old and the new tick.
    pub open spec fn swap_run(
        &self,
        zero_for_one: bool,
        exact_input: bool,
        limit: nat,
        price: nat,
        l: nat,
        tick: int,
        remaining: nat,
        calculated: nat,
        fee_growth: nat,
    ) -> Result<(nat, nat, nat, nat, nat), AmmError>
        decreases (if zero_for_one {
            price - limit
        } else {
            limit - price
        }),
    {
        let done = Ok::<(nat, nat, nat, nat, nat), AmmError>(
            (price, l, remaining, calculated, fee_growth),
        );
        if remaining == 0 || price == limit || l == 0 || (zero_for_one && price < limit) || (
        !zero_for_one && limit < price) {
            done
        } else {
            match swap_step_result(
                price,
                limit,
                l,
                remaining,
                self.fee as nat,
                zero_for_one,
                exact_input,
            ) {
                Err(e) => Err(e),
                Ok((p2, hit, i, o, f)) => if p2 == price {
                    done
                } else {
                    let consumed = if exact_input {
                        if hit {
                            i + f
                        } else {
                            remaining
                        }
                    } else {
                        o
                    };
                    let rem2 = if consumed >= remaining {
                        0
                    } else {
                        (remaining - consumed) as nat
                    };
                    let add = if exact_input {
                        o
                    } else {
                        i + f
                    };
                    if ((exact_input && hit) || !exact_input) && i + f >= base128() {
                        Err(AmmError::Overflow)
                    } else if calculated + add >= base128() {
                        Err(AmmError::Overflow)
                    } else {
                        let fg2 = if f > 0 {
                            (fee_growth + ((f * base128()) % modulus256()) / l) % modulus256()
                        } else {
                            fee_growth
                        };
                        let calc2 = calculated + add;
                        if hit || !((zero_for_one && limit <= p2 < price) || (!zero_for_one && price
                            < p2 <= limit)) {
                            Ok((p2, l, rem2, calc2, fg2))
                        } else {
                            let t2 = tick_search(p2, MIN_TICK as int, MAX_TICK as int);
                            match self.cross_result(tick, t2, l, zero_for_one) {
                                Err(e) => Err(e),
                                Ok(l2) => self.swap_run(
                                    zero_for_one,
                                    exact_input,
                                    limit,
                                    p2,
                                    l2,
                                    t2,
                                    rem2,
                                    calc2,
                                    fg2,
                                ),
                            }
                        }
                    }
                },
            }
        }
    }

    /// Where the loop of a valid swap from this pool ends.
    pub open spec fn swap_result_run(&self, zero_for_one: bool, amount_specified: i64, limit: nat) -> Result<
        (nat, nat, nat, nat, nat),
        AmmError,
    > {
        self.swap_run(
            zero_for_one,
            amount_specified > 0,
            resolved_limit(zero_for_one, limit),
            self.sqrt_price_x96.value(),
            self.liquidity as nat,
            self.tick as int,
            (if amount_specified < 0 {
                -amount_specified
            } else {
                amount_specified as int
            }) as nat,
            0,
            if zero_for_one {
                self.fee_growth_global_0_x128.value()
            } else {
                self.fee_growth_global_1_x128.value()
            },
        )
    }

    /// What a valid swap returns: the signed amounts of token0 and token1 (the
    /// part of the specified amount used, and the amount calculated), then the
    /// final price, active liquidity and fee growth of the input token.
    pub open spec fn swap_result(&self, zero_for_one: bool, amount_specified: i64, limit: nat) -> Result<
        (i64, i64, nat, nat, nat),
        AmmError,
    > {
        let exact_input = amount_specified > 0;
        let magnitude = (if amount_specified < 0 {
            -amount_specified
        } else {
            amount_specified as int
        }) as nat;
        match self.swap_result_run(zero_for_one, amount_specified, limit) {
            Err(e) => Err(e),
            Ok((p, l, rem, calc, fg)) => {
                let used = magnitude - rem;
                if used > i64::MAX || calc > i64::MAX {
                    Err(AmmError::Overflow)
                } else {
                    let u = used as int;
                    let c = calc as int;
                    let (a0, a1) = if zero_for_one {
                        if exact_input {
                            (u, -c)
                        } else {
                            (c, -u)
                        }
                    } else {
                        if exact_input {
                            (-c, u)
                        } else {
                            (-u, c)
                        }
                    };
                    Ok((a0 as i64, a1 as i64, p, l, fg))
                }
            },
        }
    }

    /// What `swap` guarantees, from the pool before the call to the pool after it.
    pub open spec fn swap_post(
        pre: Pool,
        post: Pool,
        zero_for_one: bool,
        amount_specified: i64,
        sqrt_price_limit_x96: U256,
        r: Result<(i64, i64), AmmError>,
    ) -> bool {
        let err = pre.swap_error(zero_for_one, amount_specified, sqrt_price_limit_x96.value());
        &&& post.wf()
        &&& (err matches Some(e) ==> r == Err::<(i64, i64), AmmError>(e))
        &&& (r is Err ==> post == pre)
        &&& (err is None && pre.liquidity == 0 ==> r == Ok::<(i64, i64), AmmError>((0, 0))
            && post.sqrt_price_x96 == pre.sqrt_price_x96)
        &&& (err is None ==> match pre.swap_result(
            zero_for_one,
            amount_specified,
            sqrt_price_limit_x96.value(),
        ) {
            Err(e) => r == Err::<(i64, i64), AmmError>(e),
            Ok((a0, a1, p, l, fg)) => {
                &&& r == Ok::<(i64, i64), AmmError>((a0, a1))
                &&& post.sqrt_price_x96.value() == p
                &&& post.liquidity == l
                &&& post.tick == tick_search(p, MIN_TICK as int, MAX_TICK as int)
                &&& (if zero_for_one {
                    post.fee_growth_global_0_x128.value()
                } else {
                    post.fee_growth_global_1_x128.value()
                }) == fg
            },
        })
        &&& (r matches Ok((amount0, amount1)) ==> {
            let limit = resolved_limit(zero_for_one, sqrt_price_limit_x96.value());
            let before = pre.sqrt_price_x96.value();
            let after = post.sqrt_price_x96.value();
            &&& zero_for_one ==> limit <= after <= before && amount0 >= 0 && amount1 <= 0
            &&& !zero_for_one ==> before <= after <= limit && amount0 <= 0 && amount1 >= 0
            &&& amount_specified > 0 ==> (if zero_for_one {
                amount0
            } else {
                amount1
            }) <= amount_specified
            &&& amount_specified < 0 ==> (if zero_for_one {
                amount1
            } else {
                amount0
            }) >= amount_specified
            &&& forall|t: int| #[trigger] net_at(post.ticks@, t) == net_at(pre.ticks@, t)
            &&& post.positions@ == pre.positions@
        })
    }

    /// What `collect` guarantees, from the pool before the call to the pool after it.
    pub open spec fn collect_post(pre: Pool, post: Pool, owner: u64, tick_lower: i32, tick_upper: i32, amount0_requested: u128, amount1_requested: u128, r: (u128, u128)) -> bool {
        &&& (post.wf())
        &&& (({
            let before = pre.position_at(owner, tick_lower, tick_upper);
            let after = post.position_at(owner, tick_lower, tick_upper);
            &&& r.0 == if amount0_requested <= before.tokens_owed_0 {
                amount0_requested
            } else {
                before.tokens_owed_0
            }
            &&& r.1 == if amount1_requested <= before.tokens_owed_1 {
                amount1_requested
            } else {
                before.tokens_owed_1
            }
            &&& after.tokens_owed_0 == before.tokens_owed_0 - r.0
            &&& after.tokens_owed_1 == before.tokens_owed_1 - r.1
            &&& after.liquidity == before.liquidity
        }))
        &&& (post.ticks@ == pre.ticks@)
        &&& (post.liquidity == pre.liquidity)
        &&& (post.sqrt_price_x96 == pre.sqrt_price_x96)
        &&& (post.tick == pre.tick)
        &&& (post.positions@.remove(packed_key(owner, tick_lower, tick_upper)) == pre.positions@.remove(packed_key(owner, tick_lower, tick_upper)))
    }

    /// What `initialize` guarantees, from the pool before the call to the pool after it.
    pub open spec fn initialize_post(pre: Pool, post: Pool, sqrt_price_x96: U256, time: u32, r: Result<(), AmmError>) -> bool {
        &&& (post.wf())
        &&& (pre.is_initialized() ==> r == Err::<(), AmmError>(AmmError::AlreadyInitialized))
        &&& (!pre.is_initialized() && !(MIN_SQRT_RATIO <= sqrt_price_x96.value()
            < max_sqrt_ratio_spec()) ==> r == Err::<(), AmmError>(AmmError::PriceOutOfBounds))
        &&& (r is Err ==> post == pre)
        &&& (r is Ok ==> {
            &&& post.sqrt_price_x96 == sqrt_price_x96
            &&& is_tick_of_price(post.tick as int, sqrt_price_x96.value())
            &&& post.oracle.latest().block_timestamp == time
            &&& post.oracle.cardinality == 1
            &&& post.ticks@ == pre.ticks@
            &&& post.positions@ == pre.positions@
            &&& post.liquidity == pre.liquidity
        })
        &&& (r is Ok <==> !pre.is_initialized() && MIN_SQRT_RATIO <= sqrt_price_x96.value()
            < max_sqrt_ratio_spec())
    }

    /// What `increase_observation_cardinality` guarantees.
    pub open spec fn grow_post(pre: Pool, post: Pool, cardinality_next: u32, r: Result<(), AmmError>) -> bool {
        &&& (post.wf())
        &&& (r is Ok <==> (pre.oracle.cardinality < cardinality_next <= MAX_CARDINALITY))
        &&& (r is Ok ==> post.oracle.cardinality_next == cardinality_next)
        &&& (r is Err ==> post == pre)
    }

    /// What `quote_exact_input_single` returns: `None` unless the pool is
    /// initialized, has active liquidity, and every step of the quote succeeds
    /// with a price inside the tick range.
    pub open spec fn quote_post(pool: Pool, zero_for_one: bool, amount_in: U256, r: Option<QuoteResult>) -> bool {
        let p = pool.sqrt_price_x96.value();
        let l = pool.liquidity as nat;
        let fee_amount = amount_in.value() * pool.fee as nat / FEE_DENOMINATOR as nat;
        let next = next_price_from_input_result(
            p,
            l,
            (amount_in.value() - fee_amount) as nat,
            zero_for_one,
        );
        let out = match next {
            Ok(n) => if zero_for_one {
                amount1_delta_result(n, p, l, false)
            } else {
                amount0_delta_result(p, n, l, false)
            },
            Err(e) => Err(e),
        };
        &&& (r is Some <==> (pool.is_initialized() && l > 0 && (amount_in.value() * pool.fee as nat)
            < modulus256() && next is Ok && out is Ok && MIN_SQRT_RATIO <= (next->Ok_0)
            < max_sqrt_ratio_spec()))
        &&& (r matches Some(q) ==> {
            &&& q.fee_amount.value() == fee_amount
            &&& next == Ok::<nat, AmmError>(q.sqrt_price_x96_after.value())
            &&& out == Ok::<nat, AmmError>(q.amount_out.value())
            &&& is_tick_of_price(q.tick_after as int, q.sqrt_price_x96_after.value())
        })
    }

    /// What `mint` guarantees, from the pool before the call to the pool after it.
    pub open spec fn mint_post(
        pre: Pool,
        post: Pool,
        recipient: u64,
        tick_lower: i32,
        tick_upper: i32,
        amount: u128,
        amount0_min: U256,
        amount1_min: U256,
        time: u32,
        r: Result<(U256, U256), AmmError>,
    ) -> bool {
        let err = pre.mint_error(
            recipient,
            tick_lower,
            tick_upper,
            amount,
            amount0_min.value(),
            amount1_min.value(),
            time,
        );
        let d = amount as int;
        &&& post.wf()
        &&& (r is Ok <==> err is None)
        &&& (r matches Err(e) ==> err == Some(e) && post == pre)
        &&& (r matches Ok((a0, a1)) ==> {
            &&& amount0_min.value() <= a0.value() && amount1_min.value() <= a1.value()
            &&& pre.planned_amounts(tick_lower, tick_upper, d) == Ok::<(nat, nat), AmmError>(
                (a0.value(), a1.value()),
            )
            &&& post.tick_at(tick_lower).liquidity_net == pre.tick_at(tick_lower).liquidity_net + d
            &&& post.tick_at(tick_upper).liquidity_net == pre.tick_at(tick_upper).liquidity_net - d
            &&& post.tick_at(tick_lower).liquidity_gross == pre.tick_at(tick_lower).liquidity_gross
                + d
            &&& post.tick_at(tick_upper).liquidity_gross == pre.tick_at(tick_upper).liquidity_gross
                + d
            &&& forall|t: i32|
                t != tick_lower && t != tick_upper ==> #[trigger] post.tick_at(t) == pre.tick_at(t)
            &&& post.position_at(recipient, tick_lower, tick_upper).liquidity == pre.position_at(
                recipient,
                tick_lower,
                tick_upper,
            ).liquidity + d
            &&& post.liquidity == if tick_lower <= pre.tick < tick_upper {
                pre.liquidity + d
            } else {
                pre.liquidity as int
            }
            &&& post.sqrt_price_x96 == pre.sqrt_price_x96
            &&& post.tick == pre.tick
        })
    }

    /// What `burn` guarantees, from the pool before the call to the pool after it.
    pub open spec fn burn_post(
        pre: Pool,
        post: Pool,
        owner: u64,
        tick_lower: i32,
        tick_upper: i32,
        amount: u128,
        time: u32,
        r: Result<(U256, U256), AmmError>,
    ) -> bool {
        let err = pre.burn_error(owner, tick_lower, tick_upper, amount, time);
        let d = amount as int;
        &&& post.wf()
        &&& (r is Ok <==> err is None)
        &&& (r matches Err(e) ==> err == Some(e) && post == pre)
        &&& (r matches Ok((a0, a1)) ==> {
            let before = pre.position_at(owner, tick_lower, tick_upper);
            let after = post.position_at(owner, tick_lower, tick_upper);
            let (o0, o1) = pre.planned_owed(owner, tick_lower, tick_upper, -d, time);
            &&& pre.planned_amounts(tick_lower, tick_upper, -d) == Ok::<(nat, nat), AmmError>(
                (a0.value(), a1.value()),
            )
            &&& post.tick_at(tick_lower).liquidity_net == pre.tick_at(tick_lower).liquidity_net - d
            &&& post.tick_at(tick_upper).liquidity_net == pre.tick_at(tick_upper).liquidity_net + d
            &&& forall|t: i32|
                t != tick_lower && t != tick_upper ==> #[trigger] post.tick_at(t) == pre.tick_at(t)
            &&& after.liquidity == before.liquidity - d
            &&& after.tokens_owed_0 == o0 + a0.value()
            &&& after.tokens_owed_1 == o1 + a1.value()
            &&& post.liquidity == if tick_lower <= pre.tick < tick_upper {
                pre.liquidity - d
            } else {
                pre.liquidity as int
            }
            &&& post.sqrt_price_x96 == pre.sqrt_price_x96
            &&& post.tick == pre.tick
        })
    }

    /// Why a liquidity change over `[tick_lower, tick_upper)` is refused
    /// before any arithmetic, if it is.
    pub open spec fn range_error(&self, tick_lower: i32, tick_upper: i32) -> Option<AmmError> {
        if !self.is_initialized() {
            Some(AmmError::NotInitialized)
        } else if tick_lower >= tick_upper {
            Some(AmmError::InvalidTickRange)
        } else if tick_lower < MIN_TICK || tick_upper > MAX_TICK {
            Some(AmmError::TickOutOfBounds)
        } else if (tick_lower as int) % (self.tick_spacing as int) != 0 || (tick_upper as int) % (
        self.tick_spacing as int) != 0 {
            Some(AmmError::MisalignedTick)
        } else {
            None
        }
    }

    /// Refuses a range as `range_error` says.
    fn check_range(&self, tick_lower: i32, tick_upper: i32) -> (r: Result<(), AmmError>)
        requires
            self.wf(),
        ensures
            match self.range_error(tick_lower, tick_upper) {
                Some(e) => r == Err::<(), AmmError>(e),
                None => r is Ok,
            },
    {
        if self.sqrt_price_x96.is_zero() {
            return Err(AmmError::NotInitialized);
        }
        if tick_lower >= tick_upper {
            return Err(AmmError::InvalidTickRange);
        }
        if tick_lower < MIN_TICK || tick_upper > MAX_TICK {
            return Err(AmmError::TickOutOfBounds);
        }
        if !self.is_aligned(tick_lower) || !self.is_aligned(tick_upper) {
            return Err(AmmError::MisalignedTick);
        }
        Ok(())
    }

    /// Whether `tick` is a multiple of the tick spacing.
    fn is_aligned(&self, tick: i32) -> (r: bool)
        requires
            self.wf(),
        ensures
            r == ((tick as int) % (self.tick_spacing as int) == 0),
    {
        let c = floor_div_i32(tick, self.tick_spacing);
        proof {
            vstd::arithmetic::div_mod::lemma_fundamental_div_mod(tick as int, self.tick_spacing as int);
        }
        assert(-0x4000_0000_0000_0000 <= c as int * self.tick_spacing as int <= 0x4000_0000_0000_0000)
            by (nonlinear_arith)
            requires
                i32::MIN <= c <= i32::MAX,
                0 < self.tick_spacing <= MAX_TICK_SPACING,
        ;
        let r = c as i64 * self.tick_spacing as i64 == tick as i64;
        proof {
            let s = self.tick_spacing as int;
            let t = tick as int;
            if t % s == 0 {
                assert(c as int * s == t) by (nonlinear_arith)
                    requires
                        t == s * (t / s) + t % s,
                        t % s == 0,
                        c as int == t / s,
                ;
            }
            if c as int * s == t {
                assert(t % s == 0) by (nonlinear_arith)
                    requires
                        t == s * (t / s) + t % s,
                        c as int * s == t,
                        c as int == t / s,
                        0 <= t % s < s,
                ;
            }
        }
        r
    }

    /// The recorded tick `t`, or an empty one.
    fn get_tick_info(&self, t: i32) -> (r: Tick)
        ensures
            r == self.tick_at(t),
    {
        match self.ticks.get(&t) {
            Some(info) => *info,
            None => Tick::empty(),
        }
    }

    /// The position of `owner` over the range, or an empty one.
    pub fn get_position(&self, owner: u64, tick_lower: i32, tick_upper: i32) -> (r: Position)
        ensures
            r == self.position_at(owner, tick_lower, tick_upper),
    {
        let key = pack_key(&PositionKey::new(owner, tick_lower, tick_upper));
        match self.positions.get(&key) {
            Some(p) => *p,
            None => Position::empty(),
        }
    }

    /// Computes a liquidity change of `liquidity_delta` to `owner`'s position
    /// over `[tick_lower, tick_upper)` without writing it.
    fn plan_modify(
        &self,
        owner: u64,
        tick_lower: i32,
        tick_upper: i32,
        liquidity_delta: i128,
        time: u32,
    ) -> (r: Result<ModifyPlan, AmmError>)
        requires
            self.wf(),
        ensures
            r is Ok <==> self.plan_error(owner, tick_lower, tick_upper, liquidity_delta as int, time)
                is None,
            r matches Err(e) ==> self.plan_error(
                owner,
                tick_lower,
                tick_upper,
                liquidity_delta as int,
                time,
            ) == Some(e),
            r matches Ok(plan) ==> {
                &&& self.range_error(tick_lower, tick_upper) is None
                &&& (plan.position.tokens_owed_0 as nat, plan.position.tokens_owed_1 as nat)
                    == self.planned_owed(owner, tick_lower, tick_upper, liquidity_delta as int, time)
                &&& plan.lower_tick.liquidity_net == self.tick_at(tick_lower).liquidity_net
                    + liquidity_delta
                &&& plan.upper_tick.liquidity_net == self.tick_at(tick_upper).liquidity_net
                    - liquidity_delta
                &&& plan.lower_tick.liquidity_gross == self.tick_at(tick_lower).liquidity_gross
                    + liquidity_delta
                &&& plan.upper_tick.liquidity_gross == self.tick_at(tick_upper).liquidity_gross
                    + liquidity_delta
                &&& plan.lower_tick.initialized == (plan.lower_tick.liquidity_gross != 0)
                &&& plan.upper_tick.initialized == (plan.upper_tick.liquidity_gross != 0)
                &&& plan.flip_lower == ((plan.lower_tick.liquidity_gross == 0) != (self.tick_at(
                    tick_lower,
                ).liquidity_gross == 0))
                &&& plan.flip_upper == ((plan.upper_tick.liquidity_gross == 0) != (self.tick_at(
                    tick_upper,
                ).liquidity_gross == 0))
                &&& plan.position.liquidity == self.position_at(
                    owner,
                    tick_lower,
                    tick_upper,
                ).liquidity + liquidity_delta
                &&& plan.liquidity == if tick_lower <= self.tick < tick_upper {
                    self.liquidity + liquidity_delta
                } else {
                    self.liquidity as int
                }
                &&& position_amounts_result(
                    self.sqrt_price_x96.value(),
                    sqrt_ratio_at_tick_spec(tick_lower as int),
                    sqrt_ratio_at_tick_spec(tick_upper as int),
                    if liquidity_delta < 0 {
                        -liquidity_delta
                    } else {
                        liquidity_delta as int
                    } as nat,
                    liquidity_delta > 0,
                ) == Ok::<(nat, nat), AmmError>((plan.amount0.value(), plan.amount1.value()))
            },
    {
        if let Err(e) = self.check_range(tick_lower, tick_upper) {
            return Err(e);
        }
        if liquidity_delta == i128::MIN {
            return Err(AmmError::LiquidityUnderflow);
        }
        let latest = self.oracle.observations[self.oracle.index as usize];
        let mut lower_tick = self.get_tick_info(tick_lower);
        let flip_lower = match lower_tick.update(
            tick_lower,
            self.tick,
            liquidity_delta,
            self.fee_growth_global_0_x128,
            self.fee_growth_global_1_x128,
            latest.seconds_per_liquidity_cumulative_x128,
            latest.tick_cumulative,
            time,
            false,
            self.max_liquidity_per_tick,
        ) {
            Ok(f) => f,
            Err(e) => {
                return Err(e);
            },
        };
        let mut upper_tick = self.get_tick_info(tick_upper);
        let flip_upper = match upper_tick.update(
            tick_upper,
            self.tick,
            liquidity_delta,
            self.fee_growth_global_0_x128,
            self.fee_growth_global_1_x128,
            latest.seconds_per_liquidity_cumulative_x128,
            latest.tick_cumulative,
            time,
            true,
            self.max_liquidity_per_tick,
        ) {
            Ok(f) => f,
            Err(e) => {
                return Err(e);
            },
        };
        let inside0 = fee_growth_inside(
            lower_tick.fee_growth_outside_0_x128,
            upper_tick.fee_growth_outside_0_x128,
            tick_lower,
            tick_upper,
            self.tick,
            self.fee_growth_global_0_x128,
        );
        let inside1 = fee_growth_inside(
            lower_tick.fee_growth_outside_1_x128,
            upper_tick.fee_growth_outside_1_x128,
            tick_lower,
            tick_upper,
            self.tick,
            self.fee_growth_global_1_x128,
        );
        let mut position = self.get_position(owner, tick_lower, tick_upper);
        match position.update(liquidity_delta, inside0, inside1) {
            Ok(()) => {},
            Err(e) => {
                return Err(e);
            },
        }
        let sqrt_lower = TickMath::get_sqrt_ratio_at_tick(tick_lower).unwrap();
        let sqrt_upper = TickMath::get_sqrt_ratio_at_tick(tick_upper).unwrap();
        let magnitude: u128 = if liquidity_delta < 0 {
            (-liquidity_delta) as u128
        } else {
            liquidity_delta as u128
        };
        let (amount0, amount1) = match position_amounts(
            self.sqrt_price_x96,
            sqrt_lower,
            sqrt_upper,
            magnitude,
            liquidity_delta > 0,
        ) {
            Ok(a) => a,
            Err(e) => {
                return Err(e);
            },
        };
        let liquidity = if tick_lower <= self.tick && self.tick < tick_upper {
            match LiquidityMath::add_delta(self.liquidity, liquidity_delta) {
                Ok(l) => l,
                Err(e) => {
                    return Err(e);
                },
            }
        } else {
            self.liquidity
        };
        Ok(
            ModifyPlan {
                lower_tick,
                upper_tick,
                flip_lower,
                flip_upper,
                position,
                liquidity,
                amount0,
                amount1,
            },
        )
    }

    /// Writes a planned liquidity change: both ticks, their bitmap marks where
    /// they went from unused to used or back, the position, the active
    /// liquidity, and an oracle observation at `time`.
    fn apply_modify(
        &mut self,
        owner: u64,
        tick_lower: i32,
        tick_upper: i32,
        liquidity_delta: i128,
        plan: ModifyPlan,
        time: u32,
    )
        requires
            old(self).wf(),
            old(self).range_error(tick_lower, tick_upper) is None,
            plan.lower_tick.liquidity_net == old(self).tick_at(tick_lower).liquidity_net
                + liquidity_delta,
            plan.upper_tick.liquidity_net == old(self).tick_at(tick_upper).liquidity_net
                - liquidity_delta,
            plan.lower_tick.initialized == (plan.lower_tick.liquidity_gross != 0),
            plan.upper_tick.initialized == (plan.upper_tick.liquidity_gross != 0),
            plan.flip_lower == ((plan.lower_tick.liquidity_gross == 0) != (old(self).tick_at(
                tick_lower,
            ).liquidity_gross == 0)),
            plan.flip_upper == ((plan.upper_tick.liquidity_gross == 0) != (old(self).tick_at(
                tick_upper,
            ).liquidity_gross == 0)),
        ensures
            final(self).wf(),
            final(self).ticks@ == old(self).ticks@.insert(tick_lower, plan.lower_tick).insert(
                tick_upper,
                plan.upper_tick,
            ),
            final(self).positions@ == old(self).positions@.insert(
                packed_key(owner, tick_lower, tick_upper),
                plan.position,
            ),
            final(self).liquidity == plan.liquidity,
            final(self).sqrt_price_x96 == old(self).sqrt_price_x96,
            final(self).tick == old(self).tick,
            final(self).fee_growth_global_0_x128 == old(self).fee_growth_global_0_x128,
            final(self).fee_growth_global_1_x128 == old(self).fee_growth_global_1_x128,
            final(self).token0 == old(self).token0,
            final(self).token1 == old(self).token1,
            final(self).fee == old(self).fee,
            final(self).tick_spacing == old(self).tick_spacing,
            final(self).max_liquidity_per_tick == old(self).max_liquidity_per_tick,
    {
        let ghost m0 = self.ticks@;
        self.ticks.insert(tick_lower, plan.lower_tick);
        let ghost m1 = self.ticks@;
        self.ticks.insert(tick_upper, plan.upper_tick);
        proof {
            let d = liquidity_delta as int;
            assert(net_at(m1, tick_lower as int) == net_at(m0, tick_lower as int) + d);
            assert forall|u: int| u != tick_lower as int implies #[trigger] net_at(m1, u) == net_at(
                m0,
                u,
            ) by {}
            lemma_net_sum_update(m0, m1, tick_lower as int, d, MIN_TICK as int, MAX_TICK as int + 1);
            assert(net_at(self.ticks@, tick_upper as int) == net_at(m1, tick_upper as int) - d);
            assert forall|u: int| u != tick_upper as int implies #[trigger] net_at(self.ticks@, u)
                == net_at(m1, u) by {}
            lemma_net_sum_update(
                m1,
                self.ticks@,
                tick_upper as int,
                -d,
                MIN_TICK as int,
                MAX_TICK as int + 1,
            );
        }
        let ghost b0 = self.bitmap;
        if plan.flip_lower {
            let _ = self.bitmap.flip_tick(tick_lower, self.tick_spacing);
        }
        let ghost b1 = self.bitmap;
        if plan.flip_upper {
            let _ = self.bitmap.flip_tick(tick_upper, self.tick_spacing);
        }
        proof {
            let s = self.tick_spacing as int;
            let cl = tick_lower as int / s;
            let cu = tick_upper as int / s;
            vstd::arithmetic::div_mod::lemma_fundamental_div_mod(tick_lower as int, s);
            vstd::arithmetic::div_mod::lemma_fundamental_div_mod(tick_upper as int, s);
            assert(cl * s == tick_lower as int) by (nonlinear_arith)
                requires
                    tick_lower as int == s * cl + (tick_lower as int) % s,
                    (tick_lower as int) % s == 0,
            ;
            assert(cu * s == tick_upper as int) by (nonlinear_arith)
                requires
                    tick_upper as int == s * cu + (tick_upper as int) % s,
                    (tick_upper as int) % s == 0,
            ;
            assert(cl < cu) by (nonlinear_arith)
                requires
                    cl * s == tick_lower as int,
                    cu * s == tick_upper as int,
                    tick_lower < tick_upper,
                    s > 0,
            ;
            assert forall|c: int| #[trigger] self.bitmap.is_marked(c) == self.marks_tick(c) by {
                assert(b1.is_marked(c) == if c == cl && plan.flip_lower {
                    !b0.is_marked(c)
                } else {
                    b0.is_marked(c)
                });
                assert(self.bitmap.is_marked(c) == if c == cu && plan.flip_upper {
                    !b1.is_marked(c)
                } else {
                    b1.is_marked(c)
                });
                assert(b0.is_marked(c) == old(self).marks_tick(c));
                if c != cl && c != cu {
                    assert(c * s != tick_lower as int && c * s != tick_upper as int) by (
                    nonlinear_arith)
                        requires
                            c != cl,
                            c != cu,
                            cl * s == tick_lower as int,
                            cu * s == tick_upper as int,
                            s > 0,
                    ;
                    if MIN_TICK <= c * s <= MAX_TICK {
                        assert(self.tick_at((c * s) as i32) == old(self).tick_at((c * s) as i32));
                    }
                } else if c == cl {
                    assert(c * s == tick_lower as int);
                } else {
                    assert(c * s == tick_upper as int);
                }
            }
        }
        let key = pack_key(&PositionKey::new(owner, tick_lower, tick_upper));
        self.positions.insert(key, plan.position);
        self.liquidity = plan.liquidity;
        self.oracle.write(time, self.tick, plan.liquidity);
    }

    /// Adds `amount` liquidity to `recipient`'s position over
    /// `[tick_lower, tick_upper)` and returns the token amounts it costs,
    /// rounded up. Refused, with no change, for a zero amount, an uninitialized
    /// pool, a bad range, a tick over its liquidity cap, an overflow, or amounts
    /// below the given minimums.
    pub fn mint(
        &mut self,
        recipient: u64,
        tick_lower: i32,
        tick_upper: i32,
        amount: u128,
        amount0_min: U256,
        amount1_min: U256,
        time: u32,
    ) -> (r: Result<(U256, U256), AmmError>)
        requires
            old(self).wf(),
        ensures
            Pool::mint_post(
                *old(self),
                *final(self),
                recipient,
                tick_lower,
                tick_upper,
                amount,
                amount0_min,
                amount1_min,
                time,
                r,
            ),
    {
        if amount == 0 {
            return Err(AmmError::ZeroAmount);
        }
        if let Err(e) = self.check_range(tick_lower, tick_upper) {
            return Err(e);
        }
        if amount > i128::MAX as u128 {
            return Err(AmmError::LiquidityOverflow);
        }
        let delta = amount as i128;
        let plan = match self.plan_modify(recipient, tick_lower, tick_upper, delta, time) {
            Ok(p) => p,
            Err(e) => {
                return Err(e);
            },
        };
        if lt(&plan.amount0, &amount0_min) || lt(&plan.amount1, &amount1_min) {
            return Err(AmmError::SlippageExceeded);
        }
        let amounts = (plan.amount0, plan.amount1);
        self.apply_modify(recipient, tick_lower, tick_upper, delta, plan, time);
        Ok(amounts)
    }

    /// Removes `amount` liquidity from `owner`'s position over
    /// `[tick_lower, tick_upper)` and credits the token amounts it frees,
    /// rounded down, to the position's owed tokens; they leave the pool only
    /// through `collect`. Refused, with no change, for an uninitialized pool, a
    /// bad range, more liquidity than the position or its ticks hold, or an
    /// overflow of the owed amounts.
    #[verifier::rlimit(100)]
    pub fn burn(&mut self, owner: u64, tick_lower: i32, tick_upper: i32, amount: u128, time: u32) -> (r:
        Result<(U256, U256), AmmError>)
        requires
            old(self).wf(),
        ensures
            Pool::burn_post(*old(self), *final(self), owner, tick_lower, tick_upper, amount, time, r),
    {
        if let Err(e) = self.check_range(tick_lower, tick_upper) {
            return Err(e);
        }
        if amount > i128::MAX as u128 {
            return Err(AmmError::LiquidityUnderflow);
        }
        let delta = -(amount as i128);
        let mut plan = match self.plan_modify(owner, tick_lower, tick_upper, delta, time) {
            Ok(p) => p,
            Err(e) => {
                return Err(e);
            },
        };
        let owed0 = match to_owed(&plan.amount0, plan.position.tokens_owed_0) {
            Some(o) => o,
            None => {
                return Err(AmmError::Overflow);
            },
        };
        let owed1 = match to_owed(&plan.amount1, plan.position.tokens_owed_1) {
            Some(o) => o,
            None => {
                return Err(AmmError::Overflow);
            },
        };
        plan.position.tokens_owed_0 = owed0;
        plan.position.tokens_owed_1 = owed1;
        let amounts = (plan.amount0, plan.amount1);
        self.apply_modify(owner, tick_lower, tick_upper, delta, plan, time);
        Ok(amounts)
    }

    /// Pays out up to the requested amounts of what `owner`'s position over the
    /// range is owed, and takes them off what it is owed.
    pub fn collect(
        &mut self,
        owner: u64,
        tick_lower: i32,
        tick_upper: i32,
        amount0_requested: u128,
        amount1_requested: u128,
    ) -> (r: (u128, u128))
        requires
            old(self).wf(),
        ensures
            Pool::collect_post(*old(self), *final(self), owner, tick_lower, tick_upper, amount0_requested, amount1_requested, r),
    {
        let key = pack_key(&PositionKey::new(owner, tick_lower, tick_upper));
        let mut position = self.get_position(owner, tick_lower, tick_upper);
        let amount0 = if amount0_requested <= position.tokens_owed_0 {
            amount0_requested
        } else {
            position.tokens_owed_0
        };
        let amount1 = if amount1_requested <= position.tokens_owed_1 {
            amount1_requested
        } else {
            position.tokens_owed_1
        };
        if amount0 == 0 && amount1 == 0 {
            return (0, 0);
        }
        position.tokens_owed_0 = position.tokens_owed_0 - amount0;
        position.tokens_owed_1 = position.tokens_owed_1 - amount1;
        self.positions.insert(key, position);
        proof {
            assert(self.positions@.remove(key) =~= old(self).positions@.remove(key));
        }
        (amount0, amount1)
    }

    /// Why a swap is refused before it starts, if it is.
    pub open spec fn swap_error(&self, zero_for_one: bool, amount_specified: i64, limit: nat) -> Option<
        AmmError,
    > {
        if !self.is_initialized() {
            Some(AmmError::NotInitialized)
        } else if amount_specified == 0 {
            Some(AmmError::ZeroAmount)
        } else if !limit_is_valid(
            zero_for_one,
            resolved_limit(zero_for_one, limit),
            self.sqrt_price_x96.value(),
        ) {
            Some(AmmError::PriceLimitInvalid)
        } else {
            None
        }
    }

    /// Swaps token0 for token1 (`zero_for_one`) or back. A positive
    /// `amount_specified` is an exact input, a negative one an exact output.
    /// The price moves toward `sqrt_price_limit_x96` (or the extreme price when
    /// it is zero), crossing initialized ticks as it goes, until the amount is
    /// used, the limit is reached, the active liquidity runs out, or a step
    /// can no longer move the price. Returns the signed amounts of token0 and
    /// token1: positive is owed to the pool by the caller, negative by the pool
    /// to the caller. On an error nothing changes.
    #[verifier::rlimit(100)]
    pub fn swap(
        &mut self,
        zero_for_one: bool,
        amount_specified: i64,
        sqrt_price_limit_x96: U256,
        time: u32,
    ) -> (r: Result<(i64, i64), AmmError>)
        requires
            old(self).wf(),
        ensures
            Pool::swap_post(
                *old(self),
                *final(self),
                zero_for_one,
                amount_specified,
                sqrt_price_limit_x96,
                r,
            ),
    {
        if self.sqrt_price_x96.is_zero() {
            return Err(AmmError::NotInitialized);
        }
        if amount_specified == 0 {
            return Err(AmmError::ZeroAmount);
        }
        let max_price = max_sqrt_ratio();
        let min_price = U256::from_u64(MIN_SQRT_RATIO);
        let limit = if sqrt_price_limit_x96.is_zero() {
            if zero_for_one {
                U256::from_u64(MIN_SQRT_RATIO + 1)
            } else {
                checked_sub(&max_price, &U256::one()).unwrap()
            }
        } else {
            sqrt_price_limit_x96
        };
        let limit_ok = if zero_for_one {
            lt(&limit, &self.sqrt_price_x96) && lt(&min_price, &limit)
        } else {
            lt(&self.sqrt_price_x96, &limit) && lt(&limit, &max_price)
        };
        if !limit_ok {
            return Err(AmmError::PriceLimitInvalid);
        }
        let exact_input = amount_specified > 0;
        let magnitude: u128 = if amount_specified < 0 {
            (-(amount_specified as i128)) as u128
        } else {
            amount_specified as u128
        };
        let (price, liquidity, _tick, remaining, calculated, fee_growth, crossed) = match self.run_swap_loop(
            zero_for_one,
            amount_specified,
            sqrt_price_limit_x96,
            limit,
        ) {
            Ok(x) => x,
            Err(e) => {
                return Err(e);
            },
        };
        let used = magnitude - remaining;
        let (used, calculated) = if used <= i64::MAX as u128 && calculated <= i64::MAX as u128 {
            (used as i64, calculated as i64)
        } else {
            return Err(AmmError::Overflow);
        };
        let amounts = if zero_for_one {
            if exact_input {
                (used, -calculated)
            } else {
                (calculated, -used)
            }
        } else {
            if exact_input {
                (-calculated, used)
            } else {
                (-used, calculated)
            }
        };
        let final_tick = TickMath::get_tick_at_sqrt_ratio(price).unwrap();
        if zero_for_one {
            self.fee_growth_global_0_x128 = fee_growth;
        } else {
            self.fee_growth_global_1_x128 = fee_growth;
        }
        self.cross_ticks(&crossed, time);
        self.sqrt_price_x96 = price;
        self.tick = final_tick;
        self.liquidity = liquidity;
        self.oracle.write(time, final_tick, liquidity);
        Ok(amounts)
    }

    /// Runs a valid swap's loop from the pool's state, without changing the
    /// pool: the final price, active liquidity, amount left, amount calculated,
    /// fee growth of the input token, and the ticks crossed.
    fn run_swap_loop(
        &self,
        zero_for_one: bool,
        amount_specified: i64,
        sqrt_price_limit_x96: U256,
        limit: U256,
    ) -> (r: Result<(U256, u128, i32, u128, u128, U256, Vec<i32>), AmmError>)
        requires
            self.wf(),
            self.swap_error(zero_for_one, amount_specified, sqrt_price_limit_x96.value()) is None,
            limit.value() == resolved_limit(zero_for_one, sqrt_price_limit_x96.value()),
            MIN_SQRT_RATIO < limit.value() < max_sqrt_ratio_spec(),
        ensures
            match r {
                Err(e) => self.swap_result_run(
                    zero_for_one,
                    amount_specified,
                    sqrt_price_limit_x96.value(),
                ) == Err::<(nat, nat, nat, nat, nat), AmmError>(e),
                Ok((price, liquidity, tick, remaining, calculated, fee_growth, crossed)) => {
                    let magnitude = if amount_specified < 0 {
                        -amount_specified
                    } else {
                        amount_specified as int
                    };
                    &&& self.swap_result_run(
                        zero_for_one,
                        amount_specified,
                        sqrt_price_limit_x96.value(),
                    ) == Ok::<(nat, nat, nat, nat, nat), AmmError>(
                        (
                            price.value(),
                            liquidity as nat,
                            remaining as nat,
                            calculated as nat,
                            fee_growth.value(),
                        ),
                    )
                    &&& zero_for_one ==> limit.value() <= price.value()
                        <= self.sqrt_price_x96.value()
                    &&& !zero_for_one ==> self.sqrt_price_x96.value() <= price.value()
                        <= limit.value()
                    &&& remaining <= magnitude
                    &&& forall|i: int|
                        0 <= i < crossed@.len() ==> MIN_TICK <= #[trigger] crossed@[i] <= MAX_TICK
                    &&& self.liquidity == 0 ==> remaining == magnitude && calculated == 0
                        && price == self.sqrt_price_x96
                }
            },
    {
        let exact_input = amount_specified > 0;
        let magnitude: u128 = if amount_specified < 0 {
            (-(amount_specified as i128)) as u128
        } else {
            amount_specified as u128
        };
        let mut remaining: u128 = magnitude;
        let mut calculated: u128 = 0;
        let mut price = self.sqrt_price_x96;
        let mut liquidity = self.liquidity;
        let mut current_tick = self.tick;
        let mut fee_growth = if zero_for_one {
            self.fee_growth_global_0_x128
        } else {
            self.fee_growth_global_1_x128
        };
        let mut crossed: Vec<i32> = Vec::new();
        let ghost start = self.sqrt_price_x96.value();
        while remaining > 0 && !price.equals(&limit)
            invariant
                self.wf(),
                self.swap_error(zero_for_one, amount_specified, sqrt_price_limit_x96.value())
                    is None,
                limit.value() == resolved_limit(zero_for_one, sqrt_price_limit_x96.value()),
                start == self.sqrt_price_x96.value(),
                MIN_SQRT_RATIO < limit.value() < max_sqrt_ratio_spec(),
                zero_for_one ==> limit.value() <= price.value() <= start,
                !zero_for_one ==> start <= price.value() <= limit.value(),
                MIN_TICK <= current_tick <= MAX_TICK,
                remaining <= magnitude <= 0x8000_0000_0000_0000,
                forall|i: int|
                    0 <= i < crossed@.len() ==> MIN_TICK <= #[trigger] crossed@[i] <= MAX_TICK,
                self.liquidity == 0 ==> liquidity == 0 && price == self.sqrt_price_x96
                    && remaining == magnitude && calculated == 0 && crossed@.len() == 0,
                exact_input == (amount_specified > 0),
                magnitude == (if amount_specified < 0 {
                    -amount_specified
                } else {
                    amount_specified as int
                }),
                self.swap_run(
                    zero_for_one,
                    exact_input,
                    limit.value(),
                    price.value(),
                    liquidity as nat,
                    current_tick as int,
                    remaining as nat,
                    calculated as nat,
                    fee_growth.value(),
                ) == self.swap_result_run(zero_for_one, amount_specified, sqrt_price_limit_x96.value()),
            ensures
                self.wf(),
                MIN_SQRT_RATIO < limit.value() < max_sqrt_ratio_spec(),
                zero_for_one ==> limit.value() <= price.value() <= start,
                !zero_for_one ==> start <= price.value() <= limit.value(),
                remaining <= magnitude <= 0x8000_0000_0000_0000,
                forall|i: int|
                    0 <= i < crossed@.len() ==> MIN_TICK <= #[trigger] crossed@[i] <= MAX_TICK,
                self.liquidity == 0 ==> liquidity == 0 && price == self.sqrt_price_x96
                    && remaining == magnitude && calculated == 0 && crossed@.len() == 0,
                self.swap_result_run(zero_for_one, amount_specified, sqrt_price_limit_x96.value())
                    == Ok::<(nat, nat, nat, nat, nat), AmmError>(
                    (
                        price.value(),
                        liquidity as nat,
                        remaining as nat,
                        calculated as nat,
                        fee_growth.value(),
                    ),
                ),
            decreases (if zero_for_one {
                price.value() - limit.value()
            } else {
                limit.value() - price.value()
            }),
        {
            if liquidity == 0 {
                break;
            }
            let (p2, l2, t2, r2, c2, f2, stop) = match self.swap_round(
                zero_for_one,
                exact_input,
                limit,
                price,
                liquidity,
                current_tick,
                remaining,
                calculated,
                fee_growth,
                &mut crossed,
            ) {
                Ok(x) => x,
                Err(e) => {
                    return Err(e);
                },
            };
            price = p2;
            liquidity = l2;
            current_tick = t2;
            remaining = r2;
            calculated = c2;
            fee_growth = f2;
            if stop {
                break;
            }
        }
        Ok((price, liquidity, current_tick, remaining, calculated, fee_growth, crossed))
    }

    /// One round of a swap's loop from the given state: a swap step, then the
    /// crossings up to the new tick unless the step stopped at the limit.
    /// Returns the new state and whether the loop ends there.
    #[verifier::rlimit(100)]
    fn swap_round(
        &self,
        zero_for_one: bool,
        exact_input: bool,
        limit: U256,
        price: U256,
        liquidity: u128,
        current_tick: i32,
        remaining: u128,
        calculated: u128,
        fee_growth: U256,
        crossed: &mut Vec<i32>,
    ) -> (r: Result<(U256, u128, i32, u128, u128, U256, bool), AmmError>)
        requires
            self.wf(),
            MIN_SQRT_RATIO < limit.value() < max_sqrt_ratio_spec(),
            zero_for_one ==> limit.value() <= price.value(),
            !zero_for_one ==> price.value() <= limit.value(),
            price.value() != limit.value(),
            MIN_SQRT_RATIO <= price.value() < max_sqrt_ratio_spec(),
            MIN_TICK <= current_tick <= MAX_TICK,
            0 < remaining <= 0x8000_0000_0000_0000,
            liquidity > 0,
            forall|i: int|
                0 <= i < old(crossed)@.len() ==> MIN_TICK <= #[trigger] old(crossed)@[i] <= MAX_TICK,
        ensures
            forall|i: int|
                0 <= i < final(crossed)@.len() ==> MIN_TICK <= #[trigger] final(crossed)@[i]
                    <= MAX_TICK,
            ({
                let run = self.swap_run(
                    zero_for_one,
                    exact_input,
                    limit.value(),
                    price.value(),
                    liquidity as nat,
                    current_tick as int,
                    remaining as nat,
                    calculated as nat,
                    fee_growth.value(),
                );
                match r {
                    Err(e) => run == Err::<(nat, nat, nat, nat, nat), AmmError>(e),
                    Ok((p2, l2, t2, r2, c2, f2, stop)) => {
                        let run2 = self.swap_run(
                            zero_for_one,
                            exact_input,
                            limit.value(),
                            p2.value(),
                            l2 as nat,
                            t2 as int,
                            r2 as nat,
                            c2 as nat,
                            f2.value(),
                        );
                        &&& run == run2
                        &&& stop ==> run2 == Ok::<(nat, nat, nat, nat, nat), AmmError>(
                            (p2.value(), l2 as nat, r2 as nat, c2 as nat, f2.value()),
                        )
                        &&& zero_for_one ==> limit.value() <= p2.value() <= price.value()
                        &&& !zero_for_one ==> price.value() <= p2.value() <= limit.value()
                        &&& !stop ==> p2.value() != price.value()
                        &&& MIN_TICK <= t2 <= MAX_TICK
                        &&& r2 <= remaining
                    },
                }
            }),
    {
        let step = match compute_swap_step(
            price,
            limit,
            liquidity,
            remaining,
            self.fee,
            zero_for_one,
            exact_input,
        ) {
            Ok(st) => st,
            Err(e) => {
                return Err(e);
            },
        };
        if step.price.equals(&price) {
            return Ok((price, liquidity, current_tick, remaining, calculated, fee_growth, true));
        }
        let mut remaining = remaining;
        let mut calculated = calculated;
        if exact_input {
            let consumed = if step.hit_limit {
                match step.amount_in.checked_add(step.fee_amount) {
                    Some(c) => c,
                    None => {
                        return Err(AmmError::Overflow);
                    },
                }
            } else {
                remaining
            };
            calculated = match calculated.checked_add(step.amount_out) {
                Some(c) => c,
                None => {
                    return Err(AmmError::Overflow);
                },
            };
            remaining = if consumed >= remaining {
                0
            } else {
                remaining - consumed
            };
        } else {
            let paid = match step.amount_in.checked_add(step.fee_amount) {
                Some(c) => c,
                None => {
                    return Err(AmmError::Overflow);
                },
            };
            calculated = match calculated.checked_add(paid) {
                Some(c) => c,
                None => {
                    return Err(AmmError::Overflow);
                },
            };
            remaining = if step.amount_out >= remaining {
                0
            } else {
                remaining - step.amount_out
            };
        }
        let mut fee_growth = fee_growth;
        if step.fee_amount > 0 {
            proof {
                crate::wide::lemma_pow2_values();
            }
            let scaled = shl(&from_u128(step.fee_amount), 128);
            let growth = checked_div(&scaled, &from_u128(liquidity)).unwrap();
            fee_growth = wrapping_add(&fee_growth, &growth);
        }
        if step.hit_limit {
            return Ok((step.price, liquidity, current_tick, remaining, calculated, fee_growth, true));
        }
        let tick_new = TickMath::get_tick_at_sqrt_ratio(step.price).unwrap();
        let liquidity = match self.cross_to(current_tick, tick_new, liquidity, zero_for_one, crossed) {
            Ok(l) => l,
            Err(e) => {
                return Err(e);
            },
        };
        Ok((step.price, liquidity, tick_new, remaining, calculated, fee_growth, false))
    }

    /// Applies the net liquidity of each marked tick that the price passed in
    /// moving from `from` to `to`, recording the ticks in `crossed`: a tick
    /// crossed downward takes its net liquidity off, one crossed upward adds it.
    fn cross_to(
        &self,
        from: i32,
        to: i32,
        liquidity: u128,
        zero_for_one: bool,
        crossed: &mut Vec<i32>,
    ) -> (r: Result<u128, AmmError>)
        requires
            self.wf(),
            MIN_TICK <= from <= MAX_TICK,
            MIN_TICK <= to <= MAX_TICK,
            forall|i: int|
                0 <= i < old(crossed)@.len() ==> MIN_TICK <= #[trigger] old(crossed)@[i] <= MAX_TICK,
        ensures
            forall|i: int|
                0 <= i < final(crossed)@.len() ==> MIN_TICK <= #[trigger] final(crossed)@[i]
                    <= MAX_TICK,
            match (r, self.cross_result(from as int, to as int, liquidity as nat, zero_for_one)) {
                (Ok(a), Ok(b)) => a == b,
                (Err(e), Err(f)) => e == f,
                _ => false,
            },
    {
        let ghost l0 = liquidity;
        let mut current = from;
        let mut active = liquidity;
        if zero_for_one {
            while to < current
                invariant
                    self.wf(),
                    MIN_TICK <= to <= MAX_TICK,
                    MIN_TICK <= current <= MAX_TICK,
                    forall|i: int|
                        0 <= i < crossed@.len() ==> MIN_TICK <= #[trigger] crossed@[i] <= MAX_TICK,
                    self.cross_result(current as int, to as int, active as nat, zero_for_one)
                        == self.cross_result(from as int, to as int, l0 as nat, zero_for_one),
                    l0 == liquidity,
                    zero_for_one,
                decreases current - to,
            {
                let (next, initialized) = self.bitmap.next_initialized_tick(
                    current,
                    self.tick_spacing,
                    true,
                    to,
                );
                proof {
                    let sp = self.tick_spacing as int;
                    let g = next as int / sp;
                    vstd::arithmetic::div_mod::lemma_fundamental_div_mod(next as int, sp);
                    if initialized && to < next {
                        assert(g * sp == next as int);
                        assert(self.is_next_crossing(g, current as int, to as int, true));
                        assert forall|g2: int| self.is_next_crossing(g2, current as int, to as int, true)
                            implies g2 == g by {
                            self.lemma_next_crossing_unique(g, g2, current as int, to as int, true);
                        }
                    } else {
                        assert(!exists|g2: int| self.is_next_crossing(g2, current as int, to as int, true));
                    }
                }
                if initialized && to < next && MIN_TICK < next {
                    let net = self.get_tick_info(next).liquidity_net;
                    proof {
                        let sp = self.tick_spacing as int;
                        let g = choose|g: int| self.is_next_crossing(g, current as int, to as int, true);
                        assert(g == next as int / sp);
                        assert(g * sp == next as int);
                        assert(net_at(self.ticks@, g * sp) == net as int);
                    }
                    if net == i128::MIN {
                        return Err(AmmError::LiquidityOverflow);
                    }
                    active = match LiquidityMath::add_delta(active, -net) {
                        Ok(l) => l,
                        Err(e) => {
                            return Err(e);
                        },
                    };
                    crossed.push(next);
                    current = next - 1;
                } else {
                    current = to;
                }
            }
        } else {
            while current < to
                invariant
                    self.wf(),
                    MIN_TICK <= to <= MAX_TICK,
                    MIN_TICK <= current <= MAX_TICK,
                    forall|i: int|
                        0 <= i < crossed@.len() ==> MIN_TICK <= #[trigger] crossed@[i] <= MAX_TICK,
                    self.cross_result(current as int, to as int, active as nat, zero_for_one)
                        == self.cross_result(from as int, to as int, l0 as nat, zero_for_one),
                    l0 == liquidity,
                    !zero_for_one,
                decreases to - current,
            {
                let (next, initialized) = self.bitmap.next_initialized_tick(
                    current,
                    self.tick_spacing,
                    false,
                    to,
                );
                proof {
                    let sp = self.tick_spacing as int;
                    let g = next as int / sp;
                    vstd::arithmetic::div_mod::lemma_fundamental_div_mod(next as int, sp);
                    if initialized && next <= to {
                        assert(g * sp == next as int);
                        assert(self.is_next_crossing(g, current as int, to as int, false));
                        assert forall|g2: int| self.is_next_crossing(g2, current as int, to as int, false)
                            implies g2 == g by {
                            self.lemma_next_crossing_unique(g, g2, current as int, to as int, false);
                        }
                    } else {
                        assert(!exists|g2: int| self.is_next_crossing(g2, current as int, to as int, false));
                    }
                }
                if initialized && next <= to {
                    let net = self.get_tick_info(next).liquidity_net;
                    proof {
                        let sp = self.tick_spacing as int;
                        let g = choose|g: int| self.is_next_crossing(g, current as int, to as int, false);
                        assert(g == next as int / sp);
                        assert(g * sp == next as int);
                        assert(net_at(self.ticks@, g * sp) == net as int);
                    }
                    active = match LiquidityMath::add_delta(active, net) {
                        Ok(l) => l,
                        Err(e) => {
                            return Err(e);
                        },
                    };
                    crossed.push(next);
                    current = next;
                } else {
                    current = to;
                }
            }
        }
        Ok(active)
    }

    /// Turns over the outside snapshots of each crossed tick.
    fn cross_ticks(&mut self, crossed: &Vec<i32>, time: u32)
        requires
            old(self).wf(),
            forall|i: int| 0 <= i < crossed@.len() ==> MIN_TICK <= #[trigger] crossed@[i] <= MAX_TICK,
        ensures
            final(self).wf(),
            forall|t: int| #[trigger] net_at(final(self).ticks@, t) == net_at(old(self).ticks@, t),
            final(self).positions@ == old(self).positions@,
            final(self).sqrt_price_x96 == old(self).sqrt_price_x96,
            final(self).tick == old(self).tick,
            final(self).liquidity == old(self).liquidity,
            final(self).oracle == old(self).oracle,
            final(self).fee_growth_global_0_x128 == old(self).fee_growth_global_0_x128,
            final(self).fee_growth_global_1_x128 == old(self).fee_growth_global_1_x128,
            final(self).token0 == old(self).token0,
            final(self).token1 == old(self).token1,
            final(self).fee == old(self).fee,
            final(self).tick_spacing == old(self).tick_spacing,
    {
        let latest = self.oracle.observations[self.oracle.index as usize];
        let mut i: usize = 0;
        while i < crossed.len()
            invariant
                self.wf(),
                forall|j: int|
                    0 <= j < crossed@.len() ==> MIN_TICK <= #[trigger] crossed@[j] <= MAX_TICK,
                forall|t: int| #[trigger] net_at(self.ticks@, t) == net_at(old(self).ticks@, t),
                forall|t: i32| #[trigger]
                    self.tick_at(t).initialized == old(self).tick_at(t).initialized,
                self.bitmap == old(self).bitmap,
                self.positions@ == old(self).positions@,
                self.sqrt_price_x96 == old(self).sqrt_price_x96,
                self.tick == old(self).tick,
                self.liquidity == old(self).liquidity,
                self.oracle == old(self).oracle,
                self.fee_growth_global_0_x128 == old(self).fee_growth_global_0_x128,
                self.fee_growth_global_1_x128 == old(self).fee_growth_global_1_x128,
                self.token0 == old(self).token0,
                self.token1 == old(self).token1,
                self.fee == old(self).fee,
                self.tick_spacing == old(self).tick_spacing,
            decreases crossed@.len() - i,
        {
            let t = crossed[i];
            let ghost pre = *self;
            let mut info = self.get_tick_info(t);
            info.cross(
                self.fee_growth_global_0_x128,
                self.fee_growth_global_1_x128,
                latest.seconds_per_liquidity_cumulative_x128,
                latest.tick_cumulative,
                time,
            );
            let ghost m0 = self.ticks@;
            self.ticks.insert(t, info);
            proof {
                assert forall|u: int| u != t as int implies #[trigger] net_at(self.ticks@, u)
                    == net_at(m0, u) by {}
                assert(net_at(self.ticks@, t as int) == net_at(m0, t as int) + 0);
                lemma_net_sum_update(m0, self.ticks@, t as int, 0, MIN_TICK as int, MAX_TICK as int + 1);
                assert forall|u: i32| #[trigger]
                    self.tick_at(u).initialized == old(self).tick_at(u).initialized by {
                    if u == t {
                        assert(self.tick_at(u).initialized == pre.tick_at(u).initialized);
                    } else {
                        assert(self.tick_at(u) == pre.tick_at(u));
                    }
                }
                assert forall|c: int| #[trigger]
                    self.bitmap.is_marked(c) == self.marks_tick(c) by {
                    assert(pre.bitmap.is_marked(c) == pre.marks_tick(c));
                    if MIN_TICK <= c * self.tick_spacing <= MAX_TICK {
                        let u = (c * self.tick_spacing) as i32;
                        assert(self.tick_at(u).initialized == old(self).tick_at(u).initialized);
                        assert(pre.tick_at(u).initialized == old(self).tick_at(u).initialized);
                    }
                }
            }
            i = i + 1;
        }
    }

    /// What a swap of `amount_in` would pay out in one step at the current
    /// liquidity, without changing the pool. `None` for an uninitialized pool,
    /// a pool without active liquidity, or a computation that fails.
    pub fn quote_exact_input_single(&self, zero_for_one: bool, amount_in: U256) -> (r: Option<
        QuoteResult,
    >)
        requires
            self.wf(),
        ensures
            Pool::quote_post(*self, zero_for_one, amount_in, r),
    {
        if self.sqrt_price_x96.is_zero() || self.liquidity == 0 {
            return None;
        }
        let scaled_fee = match checked_mul(&amount_in, &U256::from_u64(self.fee as u64)) {
            Some(x) => x,
            None => {
                return None;
            },
        };
        let fee_amount = checked_div(&scaled_fee, &U256::from_u64(FEE_DENOMINATOR as u64)).unwrap();
        proof {
            assert(fee_amount.value() <= amount_in.value()) by (nonlinear_arith)
                requires
                    fee_amount.value() == amount_in.value() * self.fee as nat / 1_000_000,
                    self.fee < 1_000_000,
            ;
        }
        let amount_in_after_fee = checked_sub(&amount_in, &fee_amount).unwrap();
        let sqrt_price_after = match SqrtPriceMath::get_next_sqrt_price_from_input(
            self.sqrt_price_x96,
            self.liquidity,
            amount_in_after_fee,
            zero_for_one,
        ) {
            Ok(p) => p,
            Err(_) => {
                return None;
            },
        };
        let amount_out = if zero_for_one {
            SqrtPriceMath::get_amount1_delta(
                sqrt_price_after,
                self.sqrt_price_x96,
                self.liquidity,
                false,
            )
        } else {
            SqrtPriceMath::get_amount0_delta(
                self.sqrt_price_x96,
                sqrt_price_after,
                self.liquidity,
                false,
            )
        };
        let amount_out = match amount_out {
            Ok(a) => a,
            Err(_) => {
                return None;
            },
        };
        let tick_after = match TickMath::get_tick_at_sqrt_ratio(sqrt_price_after) {
            Ok(t) => t,
            Err(_) => {
                return None;
            },
        };
        Some(QuoteResult { amount_out, sqrt_price_x96_after: sqrt_price_after, tick_after, fee_amount })
    }

    /// The price of token0 in token1, `sqrt_price^2 / 2^192` rounded down;
    /// `None` before initialization.
    pub fn get_price(&self) -> (r: Option<U256>)
        requires
            self.wf(),
        ensures
            !self.is_initialized() ==> r is None,
            self.is_initialized() ==> (r matches Some(x) && x.value() == self.sqrt_price_x96.value()
                * self.sqrt_price_x96.value() / (q96() * q96())),
    {
        if self.sqrt_price_x96.is_zero() {
            return None;
        }
        let q192 = U256 { l0: 0, l1: 0, l2: 0, l3: 1 };
        proof {
            let p = self.sqrt_price_x96.value();
            assert(q96() * q96() == base128() * 0x1_0000_0000_0000_0000)
                by (nonlinear_arith)
                requires
                    q96() == 0x1_0000_0000_0000_0000_0000_0000,
                    base128() == 0x1_0000_0000_0000_0000 * 0x1_0000_0000_0000_0000,
            ;
            assert(q192.value() == q96() * q96());
            assert(q96() * q96() * 0x1_0000_0000_0000_0000 == base128() * base128())
                by (nonlinear_arith)
                requires
                    q96() == 0x1_0000_0000_0000_0000_0000_0000,
                    base128() == 0x1_0000_0000_0000_0000 * 0x1_0000_0000_0000_0000,
            ;
            assert(p * p / (q96() * q96()) < modulus256()) by (nonlinear_arith)
                requires
                    p < max_sqrt_ratio_spec(),
                    max_sqrt_ratio_spec() < 0x1_0000_0000 * base128(),
                    modulus256() == base128() * base128(),
                    q96() * q96() * 0x1_0000_0000_0000_0000 == base128() * base128(),
                    base128() == 0x1_0000_0000_0000_0000 * 0x1_0000_0000_0000_0000,
            ;
        }
        match FullMath::mul_div(self.sqrt_price_x96, self.sqrt_price_x96, q192) {
            Ok(x) => Some(x),
            Err(_) => None,
        }
    }

    /// The time-weighted average tick between `seconds_ago_start` and
    /// `seconds_ago_end` before `now`.
    pub fn get_twap(&self, now: u32, seconds_ago_start: u32, seconds_ago_end: u32) -> (r: Result<
        i32,
        AmmError,
    >)
        requires
            self.wf(),
        ensures
            !self.is_initialized() ==> r == Err::<i32, AmmError>(AmmError::NotInitialized),
            self.is_initialized() ==> r == self.oracle.twap_spec(
                now,
                self.tick,
                seconds_ago_start,
                seconds_ago_end,
            ),
    {
        if self.sqrt_price_x96.is_zero() {
            return Err(AmmError::NotInitialized);
        }
        self.oracle.twap(now, self.tick, seconds_ago_start, seconds_ago_end)
    }

    /// The observation in slot `index`, if there is such a slot.
    pub fn get_observation(&self, index: u32) -> (r: Option<Observation>)
        ensures
            index < self.oracle.observations@.len() ==> r == Some(
                self.oracle.observations@[index as int],
            ),
            index >= self.oracle.observations@.len() ==> r is None,
    {
        if (index as usize) < self.oracle.observations.len() {
            Some(self.oracle.observations[index as usize])
        } else {
            None
        }
    }

    /// Lets the oracle keep up to `cardinality_next` observations.
    pub fn increase_observation_cardinality(&mut self, cardinality_next: u32) -> (r: Result<
        (),
        AmmError,
    >)
        requires
            old(self).wf(),
        ensures
            Pool::grow_post(*old(self), *final(self), cardinality_next, r),
    {
        self.oracle.grow(cardinality_next)
    }

    /// Whether the current tick is within `max_deviation_ticks` of the average
    /// tick over the last five minutes; true when that average is unavailable.
    pub fn check_price_manipulation(&self, now: u32, max_deviation_ticks: u32) -> (r: bool)
        requires
            self.wf(),
        ensures
            match self.get_twap_spec(now, 300, 0) {
                Ok(avg) => r == ((self.tick - avg) <= max_deviation_ticks && (avg - self.tick)
                    <= max_deviation_ticks),
                Err(_) => r,
            },
    {
        let twap_tick = match self.get_twap(now, 300, 0) {
            Ok(t) => t,
            Err(_) => {
                return true;
            },
        };
        let diff: i64 = self.tick as i64 - twap_tick as i64;
        let magnitude: i64 = if diff < 0 {
            -diff
        } else {
            diff
        };
        magnitude <= max_deviation_ticks as i64
    }

    pub open spec fn get_twap_spec(&self, now: u32, seconds_ago_start: u32, seconds_ago_end: u32) -> Result<
        i32,
        AmmError,
    > {
        if !self.is_initialized() {
            Err(AmmError::NotInitialized)
        } else {
            self.oracle.twap_spec(now, self.tick, seconds_ago_start, seconds_ago_end)
        }
    }

    pub fn get_sqrt_price_x96(&self) -> (r: U256)
        ensures
            r == self.sqrt_price_x96,
    {
        self.sqrt_price_x96
    }

    pub fn get_tick(&self) -> (r: i32)
        ensures
            r == self.tick,
    {
        self.tick
    }

    pub fn get_liquidity(&self) -> (r: u128)
        ensures
            r == self.liquidity,
    {
        self.liquidity
    }

    pub fn get_token0(&self) -> (r: u64)
        ensures
            r == self.token0,
    {
        self.token0
    }

    pub fn get_token1(&self) -> (r: u64)
        ensures
            r == self.token1,
    {
        self.token1
    }

    pub fn get_fee(&self) -> (r: u32)
        ensures
            r == self.fee,
    {
        self.fee
    }
}

/// Fee growth per unit of liquidity inside `[tick_lower, tick_upper)`: the
/// global growth minus the growth below the lower tick and above the upper
/// one, all modulo 2^256.
pub open spec fn fee_growth_inside_spec(
    outside_lower: nat,
    outside_upper: nat,
    tick_lower: int,
    tick_upper: int,
    tick_current: int,
    global: nat,
) -> nat {
    let below = if tick_current >= tick_lower {
        outside_lower
    } else {
        wrapped_diff(global, outside_lower)
    };
    let above = if tick_current < tick_upper {
        outside_upper
    } else {
        wrapped_diff(global, outside_upper)
    };
    wrapped_diff(wrapped_diff(global, below), above)
}

/// See `fee_growth_inside_spec`.
pub fn fee_growth_inside(
    outside_lower: U256,
    outside_upper: U256,
    tick_lower: i32,
    tick_upper: i32,
    tick_current: i32,
    global: U256,
) -> (r: U256)
    ensures
        r.value() == fee_growth_inside_spec(
            outside_lower.value(),
            outside_upper.value(),
            tick_lower as int,
            tick_upper as int,
            tick_current as int,
            global.value(),
        ),
{
    let below = if tick_current >= tick_lower {
        outside_lower
    } else {
        wrapping_sub(&global, &outside_lower)
    };
    let above = if tick_current < tick_upper {
        outside_upper
    } else {
        wrapping_sub(&global, &outside_upper)
    };
    wrapping_sub(&wrapping_sub(&global, &below), &above)
}

/// Token amounts for a liquidity change of magnitude `l` over the prices
/// `lower`..`upper` with the pool at `price`: token0 alone below the range,
/// token1 alone above it, both inside it; rounded up when `round_up`.
pub open spec fn position_amounts_result(
    price: nat,
    lower: nat,
    upper: nat,
    l: nat,
    round_up: bool,
) -> Result<(nat, nat), AmmError> {
    if price < lower {
        match amount0_delta_result(lower, upper, l, round_up) {
            Ok(a0) => Ok((a0, 0)),
            Err(e) => Err(e),
        }
    } else if price < upper {
        match (amount0_delta_result(price, upper, l, round_up), amount1_delta_result(lower, price, l, round_up)) {
            (Ok(a0), Ok(a1)) => Ok((a0, a1)),
            (Err(e), _) => Err(e),
            (_, Err(e)) => Err(e),
        }
    } else {
        match amount1_delta_result(lower, upper, l, round_up) {
            Ok(a1) => Ok((0, a1)),
            Err(e) => Err(e),
        }
    }
}

/// See `position_amounts_result`.
pub fn position_amounts(price: U256, lower: U256, upper: U256, l: u128, round_up: bool) -> (r: Result<
    (U256, U256),
    AmmError,
>)
    ensures
        match (r, position_amounts_result(price.value(), lower.value(), upper.value(), l as nat, round_up)) {
            (Ok((a0, a1)), Ok((b0, b1))) => a0.value() == b0 && a1.value() == b1,
            (Err(e), Err(f)) => e == f,
            _ => false,
        },
{
    if lt(&price, &lower) {
        match SqrtPriceMath::get_amount0_delta(lower, upper, l, round_up) {
            Ok(a0) => Ok((a0, U256::zero())),
            Err(e) => Err(e),
        }
    } else if lt(&price, &upper) {
        let a0 = SqrtPriceMath::get_amount0_delta(price, upper, l, round_up);
        let a1 = SqrtPriceMath::get_amount1_delta(lower, price, l, round_up);
        match (a0, a1) {
            (Ok(a0), Ok(a1)) => Ok((a0, a1)),
            (Err(e), _) => Err(e),
            (_, Err(e)) => Err(e),
        }
    } else {
        match SqrtPriceMath::get_amount1_delta(lower, upper, l, round_up) {
            Ok(a1) => Ok((U256::zero(), a1)),
            Err(e) => Err(e),
        }
    }
}

/// An owed amount plus a freed amount, when both fit 128 bits.
pub fn to_owed(amount: &U256, owed: u128) -> (r: Option<u128>)
    ensures
        r is Some <==> owed + amount.value() < base128(),
        r matches Some(x) ==> x == owed + amount.value(),
{
    let max = U256 { l0: 0xffff_ffff_ffff_ffff, l1: 0xffff_ffff_ffff_ffff, l2: 0, l3: 0 };
    if lt(&max, amount) {
        return None;
    }
    proof {
        vstd::arithmetic::div_mod::lemma_small_mod(amount.value(), base128());
    }
    owed.checked_add(low_u128(amount))
}

/// The price limit a swap runs to: the given one, or when it is zero the
/// extreme price in the swap's direction.
pub open spec fn resolved_limit(zero_for_one: bool, limit: nat) -> nat {
    if limit != 0 {
        limit
    } else if zero_for_one {
        MIN_SQRT_RATIO as nat + 1
    } else {
        (max_sqrt_ratio_spec() - 1) as nat
    }
}

/// Whether a resolved limit lies strictly between the price and the extreme
/// price in the swap's direction.
pub open spec fn limit_is_valid(zero_for_one: bool, limit: nat, price: nat) -> bool {
    if zero_for_one {
        MIN_SQRT_RATIO < limit < price
    } else {
        price < limit < max_sqrt_ratio_spec()
    }
}

/// A wide value as 128 bits, when it fits.
fn narrow_u128(x: &U256) -> (r: Option<u128>)
    ensures
        r is Some <==> x.value() < base128(),
        r matches Some(v) ==> v == x.value(),
{
    to_owed(x, 0)
}

/// One swap step from `price` toward `limit` with liquidity `l`: the next
/// price of the remaining amount (after the fee for an exact input), kept
/// between the start and the limit; the input rounded up and the output rounded
/// down over that move; and the fee, which for an exact input that stops short
/// of the limit is the whole fee of the remaining amount, else the fee rate
/// applied to the input. Amounts must fit 128 bits.
pub open spec fn swap_step_result(
    price: nat,
    limit: nat,
    l: nat,
    remaining: nat,
    fee: nat,
    zero_for_one: bool,
    exact_input: bool,
) -> Result<(nat, bool, nat, nat, nat), AmmError> {
    let fee_amount = remaining * fee / FEE_DENOMINATOR as nat;
    let next = if exact_input {
        next_price_from_input_result(price, l, (remaining - fee_amount) as nat, zero_for_one)
    } else {
        next_price_from_output_result(price, l, remaining, zero_for_one)
    };
    match next {
        Err(e) => Err(e),
        Ok(n) => {
            let (p2, hit) = if zero_for_one {
                if n < limit {
                    (limit, true)
                } else if price < n {
                    (price, false)
                } else {
                    (n, false)
                }
            } else {
                if limit < n {
                    (limit, true)
                } else if n < price {
                    (price, false)
                } else {
                    (n, false)
                }
            };
            let amount_in = if zero_for_one {
                amount0_delta_result(p2, price, l, true)
            } else {
                amount1_delta_result(price, p2, l, true)
            };
            let amount_out = if zero_for_one {
                amount1_delta_result(p2, price, l, false)
            } else {
                amount0_delta_result(price, p2, l, false)
            };
            match (amount_in, amount_out) {
                (Err(e), _) => Err(e),
                (_, Err(e)) => Err(e),
                (Ok(i), Ok(o)) => if i >= base128() || o >= base128() {
                    Err(AmmError::Overflow)
                } else if exact_input && !hit {
                    Ok((p2, hit, i, o, fee_amount))
                } else if i * fee >= base128() {
                    Err(AmmError::Overflow)
                } else {
                    Ok((p2, hit, i, o, i * fee / FEE_DENOMINATOR as nat))
                },
            }
        },
    }
}

/// One step of a swap toward `limit` at constant liquidity.
pub struct SwapStep {
    /// The price after the step, never past `limit` nor behind the start.
    pub price: U256,
    /// Whether the step stopped at `limit`.
    pub hit_limit: bool,
    pub amount_in: u128,
    pub amount_out: u128,
    pub fee_amount: u128,
}

/// Computes one step of a swap from `price` toward `limit` with `liquidity`,
/// for an exact input of `remaining` (after the fee) or an exact output of it.
pub fn compute_swap_step(
    price: U256,
    limit: U256,
    liquidity: u128,
    remaining: u128,
    fee: u32,
    zero_for_one: bool,
    exact_input: bool,
) -> (r: Result<SwapStep, AmmError>)
    requires
        fee < FEE_DENOMINATOR,
        0 < remaining <= 0x8000_0000_0000_0000,
        liquidity > 0,
        zero_for_one ==> limit.value() <= price.value(),
        !zero_for_one ==> price.value() <= limit.value(),
    ensures
        match (
            r,
            swap_step_result(
                price.value(),
                limit.value(),
                liquidity as nat,
                remaining as nat,
                fee as nat,
                zero_for_one,
                exact_input,
            ),
        ) {
            (Ok(step), Ok((p, h, i, o, f))) => step.price.value() == p && step.hit_limit == h
                && step.amount_in == i && step.amount_out == o && step.fee_amount == f,
            (Err(e), Err(g)) => e == g,
            _ => false,
        },
        r matches Ok(step) ==> {
            &&& zero_for_one ==> limit.value() <= step.price.value() <= price.value()
            &&& !zero_for_one ==> price.value() <= step.price.value() <= limit.value()
            &&& step.hit_limit ==> step.price.value() == limit.value()
            &&& (exact_input && !step.hit_limit) ==> step.fee_amount == remaining as int * fee as int
                / FEE_DENOMINATOR as int
        },
{
    assert(remaining as int * fee as int <= 0x8000_0000_0000_0000 * 1_000_000) by (nonlinear_arith)
        requires
            remaining <= 0x8000_0000_0000_0000,
            fee < 1_000_000,
    ;
    let fee_amount: u128 = remaining * fee as u128 / FEE_DENOMINATOR as u128;
    assert(fee_amount <= remaining) by (nonlinear_arith)
        requires
            fee_amount == remaining as int * fee as int / 1_000_000,
            0 <= fee < 1_000_000,
    ;
    let next = if exact_input {
        SqrtPriceMath::get_next_sqrt_price_from_input(
            price,
            liquidity,
            from_u128(remaining - fee_amount),
            zero_for_one,
        )
    } else {
        SqrtPriceMath::get_next_sqrt_price_from_output(
            price,
            liquidity,
            from_u128(remaining),
            zero_for_one,
        )
    };
    let next = match next {
        Ok(p) => p,
        Err(e) => {
            return Err(e);
        },
    };
    let (next, hit_limit) = if zero_for_one {
        if lt(&next, &limit) {
            (limit, true)
        } else if lt(&price, &next) {
            (price, false)
        } else {
            (next, false)
        }
    } else {
        if lt(&limit, &next) {
            (limit, true)
        } else if lt(&next, &price) {
            (price, false)
        } else {
            (next, false)
        }
    };
    let (amount_in, amount_out) = if zero_for_one {
        (
            SqrtPriceMath::get_amount0_delta(next, price, liquidity, true),
            SqrtPriceMath::get_amount1_delta(next, price, liquidity, false),
        )
    } else {
        (
            SqrtPriceMath::get_amount1_delta(price, next, liquidity, true),
            SqrtPriceMath::get_amount0_delta(price, next, liquidity, false),
        )
    };
    let (amount_in, amount_out) = match (amount_in, amount_out) {
        (Ok(a), Ok(b)) => (a, b),
        (Err(e), _) => {
            return Err(e);
        },
        (_, Err(e)) => {
            return Err(e);
        },
    };
    let (amount_in, amount_out) = match (narrow_u128(&amount_in), narrow_u128(&amount_out)) {
        (Some(a), Some(b)) => (a, b),
        _ => {
            return Err(AmmError::Overflow);
        },
    };
    let fee_amount = if exact_input && !hit_limit {
        fee_amount
    } else {
        match amount_in.checked_mul(fee as u128) {
            Some(x) => x / FEE_DENOMINATOR as u128,
            None => {
                return Err(AmmError::Overflow);
            },
        }
    };
    Ok(SwapStep { price: next, hit_limit, amount_in, amount_out, fee_amount })
}

/// What `quote_exact_input_single` returns.
#[derive(Clone, Copy, Debug)]
pub struct QuoteResult {
    pub amount_out: U256,
    pub sqrt_price_x96_after: U256,
    pub tick_after: i32,
    pub fee_amount: U256,
}

/// What a liquidity change does to a pool, computed before anything is
/// written.
pub struct ModifyPlan {
    pub lower_tick: Tick,
    pub upper_tick: Tick,
    pub flip_lower: bool,
    pub flip_upper: bool,
    pub position: Position,
    pub liquidity: u128,
    pub amount0: U256,
    pub amount1: U256,
}

/// A quotient rounded up stays at most `k` when the dividend is at most `k` times
/// the divisor.
proof fn lemma_ceil_div_le(x: nat, d: nat, k: nat)
    requires
        d > 0,
        x <= k * d,
    ensures
        ceil_div(x, d) <= k,
{
    vstd::arithmetic::div_mod::lemma_fundamental_div_mod(x as int, d as int);
    let q = x / d;
    let m = x % d;
    assert(q <= k) by (nonlinear_arith)
        requires
            x == d * q + m,
            0 <= m,
            x <= k * d,
            d > 0,
    ;
    if m != 0 {
        assert(q < k) by (nonlinear_arith)
            requires
                x == d * q + m,
                0 < m,
                x <= k * d,
                d > 0,
        ;
    }
}

/// Token0 for liquidity `l` over `lo..hi` is at most `amount0` when `l` is at
/// most what `amount0` buys there.
proof fn lemma_amount0_covered(lo: nat, hi: nat, amount0: nat, l: nat)
    requires
        0 < lo < hi,
        l * (hi - lo) as nat <= amount0 * (lo * hi / q96()),
    ensures
        amount0_delta_result(lo, hi, l, true) matches Ok(a) && a <= amount0,
{
    let w = (hi - lo) as nat;
    let i = lo * hi / q96();
    vstd::arithmetic::div_mod::lemma_fundamental_div_mod((lo * hi) as int, q96() as int);
    assert(i * q96() <= lo * hi) by (nonlinear_arith)
        requires
            lo * hi == q96() * i + (lo * hi) % q96(),
            (lo * hi) % q96() >= 0,
    ;
    let n = l * q96() * w;
    assert(n <= (amount0 * lo) * hi) by (nonlinear_arith)
        requires
            n == l * q96() * w,
            l * w <= amount0 * i,
            i * q96() <= lo * hi,
            q96() > 0,
    ;
    lemma_ceil_div_le(n, hi, amount0 * lo);
    let c = ceil_div(n, hi);
    assert(c <= amount0 * lo);
    lemma_ceil_div_le(c, lo, amount0);
}

/// Token1 for liquidity `l` over `lo..hi` is at most `amount1` when `l` is at
/// most what `amount1` buys there.
proof fn lemma_amount1_covered(lo: nat, hi: nat, amount1: nat, l: nat)
    requires
        lo <= hi,
        l * (hi - lo) as nat <= amount1 * q96(),
        amount1 < modulus256(),
    ensures
        amount1_delta_result(lo, hi, l, true) matches Ok(a) && a <= amount1,
{
    lemma_ceil_div_le(l * (hi - lo) as nat, q96(), amount1);
}

/// What `l` buys of a dividend divided by `w`, times `w`, stays within the dividend.
proof fn lemma_floor_times(x: nat, w: nat, l: nat, l2: nat)
    requires
        w > 0,
        l == x / w,
        l2 <= l,
    ensures
        l2 * w <= x,
{
    vstd::arithmetic::div_mod::lemma_fundamental_div_mod(x as int, w as int);
    assert(l2 * w <= x) by (nonlinear_arith)
        requires
            x == w * l + x % w,
            x % w >= 0,
            l2 <= l,
            w > 0,
    ;
}

/// Liquidity computed from token amounts never costs more than those amounts:
/// minting it at the same price over the same range asks, rounding up, at most
/// `amount0` of token0 and at most `amount1` of token1.
pub proof fn lemma_liquidity_for_amounts_covered(
    price: nat,
    a: nat,
    b: nat,
    amount0: nat,
    amount1: nat,
    l: nat,
)
    requires
        min_nat(a, b) > 0,
        amount1 < modulus256(),
        liquidity_for_amounts_result(price, a, b, amount0, amount1) == Ok::<nat, AmmError>(l),
    ensures
        position_amounts_result(price, min_nat(a, b), max_nat(a, b), l, true) matches Ok((x0, x1))
            && x0 <= amount0 && x1 <= amount1,
{
    let lo = min_nat(a, b);
    let hi = max_nat(a, b);
    assert(min_nat(lo, hi) == lo && max_nat(lo, hi) == hi);
    if price <= lo {
        let i = lo * hi / q96();
        lemma_floor_times(amount0 * i, (hi - lo) as nat, l, l);
        lemma_amount0_covered(lo, hi, amount0, l);
        if price == lo {
            assert(min_nat(lo, price) == lo && max_nat(lo, price) == lo);
            assert(min_nat(price, hi) == lo && max_nat(price, hi) == hi);
            assert(amount1_delta_result(lo, price, l, true) == mul_div_up_result(l, 0, q96()));
            assert(l * 0 == 0);
        }
    } else if price < hi {
        assert(min_nat(price, hi) == price && max_nat(price, hi) == hi);
        assert(min_nat(lo, price) == lo && max_nat(lo, price) == price);
        let l0 = match liquidity0_result(price, hi, amount0) {
            Ok(x) => x,
            Err(_) => 0,
        };
        let l1 = match liquidity1_result(lo, price, amount1) {
            Ok(x) => x,
            Err(_) => 0,
        };
        let i = price * hi / q96();
        lemma_floor_times(amount0 * i, (hi - price) as nat, l0, l);
        lemma_amount0_covered(price, hi, amount0, l);
        lemma_floor_times(amount1 * q96(), (price - lo) as nat, l1, l);
        lemma_amount1_covered(lo, price, amount1, l);
    } else {
        lemma_floor_times(amount1 * q96(), (hi - lo) as nat, l, l);
        lemma_amount1_covered(lo, hi, amount1, l);
    }
}

/// An empty map sums to zero over any range.
pub proof fn lemma_net_sum_empty(m: Map<i32, Tick>, lo: int, hi: int)
    requires
        forall|t: i32| !m.contains_key(t),
    ensures
        net_sum(m, lo, hi) == 0,
    decreases hi - lo,
{
    if hi > lo {
        lemma_net_sum_empty(m, lo, hi - 1);
    }
}

/// Liquidity is conserved: in a well-formed pool, whatever sequence of mints
/// and burns made it, the net liquidity of all ticks sums to zero.
pub proof fn lemma_liquidity_conservation(pool: &Pool)
    requires
        pool.wf(),
    ensures
        net_sum(pool.ticks@, MIN_TICK as int, MAX_TICK as int + 1) == 0,
{
}

} // verus!
