//! Time-weighted price observations in a ring buffer.
use crate::error::AmmError;
use crate::wide::{base128, checked_div, from_u128, modulus256, shl, wrapping_add, U256};
use vstd::prelude::*;

verus! {

/// The largest number of observations a pool keeps.
pub const MAX_CARDINALITY: u32 = 65535;

/// Cumulative tick and seconds-per-liquidity at a moment.
#[derive(Clone, Copy, Debug)]
pub struct Observation {
    pub block_timestamp: u32,
    pub tick_cumulative: i64,
    pub seconds_per_liquidity_cumulative_x128: U256,
    pub initialized: bool,
}

/// Seconds per unit of liquidity over `elapsed` seconds, in Q128.128; zero
/// liquidity counts as one unit.
pub open spec fn seconds_per_liquidity(elapsed: nat, liquidity: nat) -> nat {
    elapsed * base128() / if liquidity == 0 {
        1
    } else {
        liquidity
    }
}

/// The quotient of `n` by `d` rounded toward zero.
pub open spec fn trunc_div(n: int, d: int) -> int {
    if n >= 0 {
        n / d
    } else {
        -((-n) / d)
    }
}

/// The quotient of `n` by a positive `d`, rounded toward zero.
fn trunc_div_i128(n: i128, d: i128) -> (r: i128)
    requires
        d > 0,
        n > i128::MIN,
    ensures
        r == trunc_div(n as int, d as int),
{
    if n >= 0 {
        n / d
    } else {
        -((-n) / d)
    }
}

impl Observation {
    /// An observation at `block_timestamp`, extrapolated from `last` with the tick and
    /// liquidity that held since: the cumulative tick grows by `tick` per second
    /// and the seconds-per-liquidity accumulator by `2^128 / max(liquidity, 1)`,
    /// both wrapping.
    pub fn transform(last: &Observation, block_timestamp: u32, tick: i32, liquidity: u128) -> (r:
        Observation)
        ensures
            r.block_timestamp == block_timestamp,
            r.initialized,
            r.tick_cumulative == last.tick_cumulative.wrapping_add(
                (tick as int * block_timestamp.wrapping_sub(last.block_timestamp) as int) as i64,
            ),
            r.seconds_per_liquidity_cumulative_x128.value() == (
            last.seconds_per_liquidity_cumulative_x128.value() + seconds_per_liquidity(
                block_timestamp.wrapping_sub(last.block_timestamp) as nat,
                liquidity as nat,
            )) % modulus256(),
    {
        let delta: u32 = block_timestamp.wrapping_sub(last.block_timestamp);
        assert(tick as int * delta as int <= i64::MAX) by (nonlinear_arith)
            requires
                tick <= i32::MAX,
                tick >= i32::MIN,
                delta <= u32::MAX,
        ;
        assert(tick as int * delta as int >= i64::MIN) by (nonlinear_arith)
            requires
                tick <= i32::MAX,
                tick >= i32::MIN,
                delta <= u32::MAX,
        ;
        let growth: i64 = tick as i64 * delta as i64;
        let divisor = if liquidity == 0 {
            U256::one()
        } else {
            from_u128(liquidity)
        };
        proof {
            crate::wide::lemma_pow2_values();
            assert(delta as nat * base128() < modulus256()) by (nonlinear_arith)
                requires
                    delta < 0x1_0000_0000_0000_0000,
                    modulus256() == base128() * base128(),
                    base128() == 0x1_0000_0000_0000_0000 * 0x1_0000_0000_0000_0000,
            ;
            vstd::arithmetic::div_mod::lemma_small_mod(delta as nat * base128(), modulus256());
        }
        let scaled = shl(&U256::from_u64(delta as u64), 128);
        let per_liquidity = checked_div(&scaled, &divisor).unwrap();
        Observation {
            block_timestamp,
            tick_cumulative: last.tick_cumulative.wrapping_add(growth),
            seconds_per_liquidity_cumulative_x128: wrapping_add(
                &last.seconds_per_liquidity_cumulative_x128,
                &per_liquidity,
            ),
            initialized: true,
        }
    }
}

/// Over a stretch of constant tick `k`, the cumulative ticks of two
/// observations differ, modulo 2^64, by `k` times the seconds between them.
pub proof fn lemma_tick_cumulative_difference(
    last: Observation,
    next: Observation,
    k: i32,
    liquidity: u128,
)
    requires
        last.block_timestamp < next.block_timestamp,
        next.tick_cumulative == last.tick_cumulative.wrapping_add(
            (k as int * next.block_timestamp.wrapping_sub(last.block_timestamp) as int) as i64,
        ),
    ensures
        next.tick_cumulative.wrapping_sub(last.tick_cumulative) as int == k as int * (
        next.block_timestamp - last.block_timestamp),
{
    let dt = next.block_timestamp - last.block_timestamp;
    assert(next.block_timestamp.wrapping_sub(last.block_timestamp) == dt);
    assert(k as int * dt <= i64::MAX) by (nonlinear_arith)
        requires
            k <= i32::MAX,
            k >= i32::MIN,
            0 <= dt <= u32::MAX,
    ;
    assert(k as int * dt >= i64::MIN) by (nonlinear_arith)
        requires
            k <= i32::MAX,
            k >= i32::MIN,
            0 <= dt <= u32::MAX,
    ;
}

/// The observations of one pool: a ring buffer of `cardinality` slots in use,
/// growing to `cardinality_next` once the buffer is full, with the latest
/// observation at `index`.
pub struct Oracle {
    pub observations: Vec<Observation>,
    pub index: u32,
    pub cardinality: u32,
    pub cardinality_next: u32,
}

impl Oracle {
    pub open spec fn wf(&self) -> bool {
        &&& 1 <= self.cardinality <= self.cardinality_next <= MAX_CARDINALITY
        &&& self.observations@.len() >= self.cardinality_next
        &&& self.index < self.cardinality
        &&& self.observations@[self.index as int].initialized
    }

    pub open spec fn latest(&self) -> Observation {
        self.observations@[self.index as int]
    }

    /// A buffer of one slot holding the first observation, taken at `time`.
    pub fn new(time: u32) -> (r: Oracle)
        ensures
            r.wf(),
            r.cardinality == 1,
            r.cardinality_next == 1,
            r.index == 0,
            r.latest().block_timestamp == time,
            r.latest().tick_cumulative == 0,
            r.latest().seconds_per_liquidity_cumulative_x128.value() == 0,
    {
        let mut observations: Vec<Observation> = Vec::new();
        observations.push(
            Observation {
                block_timestamp: time,
                tick_cumulative: 0,
                seconds_per_liquidity_cumulative_x128: U256::zero(),
                initialized: true,
            },
        );
        Oracle { observations, index: 0, cardinality: 1, cardinality_next: 1 }
    }

    /// Records an observation at `time` with the tick and liquidity that held
    /// since the latest one, unless the latest is not older than `time`.
    pub fn write(&mut self, time: u32, tick: i32, liquidity: u128)
        requires
            old(self).wf(),
        ensures
            final(self).wf(),
            final(self).cardinality_next == old(self).cardinality_next,
            old(self).latest().block_timestamp >= time ==> *final(self) == *old(self),
            old(self).latest().block_timestamp < time ==> {
                let next = ((old(self).index + 1) % (old(self).cardinality_next as int)) as u32;
                &&& final(self).index == next
                &&& final(self).cardinality == if next == old(self).cardinality {
                    old(self).cardinality_next
                } else {
                    old(self).cardinality
                }
                &&& final(self).observations@ == old(self).observations@.update(
                    next as int,
                    final(self).latest(),
                )
                &&& final(self).latest().block_timestamp == time
                &&& final(self).latest().tick_cumulative == old(
                    self,
                ).latest().tick_cumulative.wrapping_add(
                    (tick as int * (time - old(self).latest().block_timestamp)) as i64,
                )
                &&& final(self).latest().seconds_per_liquidity_cumulative_x128.value() == (old(
                    self,
                ).latest().seconds_per_liquidity_cumulative_x128.value() + seconds_per_liquidity(
                    (time - old(self).latest().block_timestamp) as nat,
                    liquidity as nat,
                )) % modulus256()
            },
    {
        let last = self.observations[self.index as usize];
        if last.block_timestamp >= time {
            return;
        }
        let observation = Observation::transform(&last, time, tick, liquidity);
        assert(time.wrapping_sub(last.block_timestamp) == time - last.block_timestamp);
        let next_index = (self.index + 1) % self.cardinality_next;
        proof {
            if self.index + 1 < self.cardinality_next {
                vstd::arithmetic::div_mod::lemma_small_mod(
                    (self.index + 1) as nat,
                    self.cardinality_next as nat,
                );
            } else {
                vstd::arithmetic::div_mod::lemma_mod_self_0(self.cardinality_next as int);
            }
        }
        if next_index == self.cardinality {
            self.cardinality = self.cardinality_next;
        }
        self.index = next_index;
        self.observations.set(next_index as usize, observation);
    }

    /// Lets the buffer grow to `cardinality_next` slots once it is full.
    pub fn grow(&mut self, cardinality_next: u32) -> (r: Result<(), AmmError>)
        requires
            old(self).wf(),
        ensures
            final(self).wf(),
            r is Ok <==> (old(self).cardinality < cardinality_next <= MAX_CARDINALITY),
            r is Ok ==> final(self).cardinality_next == cardinality_next,
            r is Err ==> r == Err::<(), AmmError>(AmmError::InvalidCardinality) && *final(self)
                == *old(self),
            final(self).index == old(self).index,
            final(self).cardinality == old(self).cardinality,
            final(self).latest() == old(self).latest(),
            forall|i: int|
                0 <= i < old(self).observations@.len() ==> final(self).observations@[i] == old(
                    self,
                ).observations@[i],
    {
        if cardinality_next <= self.cardinality || cardinality_next > MAX_CARDINALITY {
            return Err(AmmError::InvalidCardinality);
        }
        while self.observations.len() < cardinality_next as usize
            invariant
                old(self).wf(),
                self.observations@.len() >= old(self).observations@.len(),
                self.index == old(self).index,
                self.cardinality == old(self).cardinality,
                self.cardinality_next == old(self).cardinality_next,
                forall|i: int|
                    0 <= i < old(self).observations@.len() ==> self.observations@[i] == old(
                        self,
                    ).observations@[i],
            decreases cardinality_next - self.observations@.len(),
        {
            self.observations.push(
                Observation {
                    block_timestamp: 0,
                    tick_cumulative: 0,
                    seconds_per_liquidity_cumulative_x128: U256::zero(),
                    initialized: false,
                },
            );
        }
        self.cardinality_next = cardinality_next;
        Ok(())
    }

    /// The observation before the latest in the ring.
    pub open spec fn previous_index(&self) -> int {
        if self.index == 0 {
            self.cardinality - 1
        } else {
            self.index - 1
        }
    }

    /// The cumulative tick `seconds_ago` seconds before `now`: the latest
    /// observation's when `seconds_ago` is zero or names its moment, else
    /// interpolated between the two latest observations.
    pub open spec fn observe_spec(&self, now: u32, seconds_ago: u32) -> Result<i64, AmmError> {
        let current = self.latest();
        let prev = self.observations@[self.previous_index()];
        let target = now - seconds_ago;
        if seconds_ago == 0 {
            Ok(current.tick_cumulative)
        } else if target < 0 {
            Err(AmmError::ObservationUnavailable)
        } else if current.block_timestamp == target {
            Ok(current.tick_cumulative)
        } else if !prev.initialized || target < prev.block_timestamp || target
            > current.block_timestamp {
            Err(AmmError::ObservationUnavailable)
        } else if current.block_timestamp == prev.block_timestamp {
            Ok(current.tick_cumulative)
        } else {
            Ok(
                prev.tick_cumulative.wrapping_add(
                    trunc_div(
                        current.tick_cumulative.wrapping_sub(prev.tick_cumulative) * (target
                            - prev.block_timestamp),
                        current.block_timestamp - prev.block_timestamp,
                    ) as i64,
                ),
            )
        }
    }

    /// See `observe_spec`.
    pub fn observe(&self, now: u32, seconds_ago: u32) -> (r: Result<i64, AmmError>)
        requires
            self.wf(),
        ensures
            r == self.observe_spec(now, seconds_ago),
    {
        let current = self.observations[self.index as usize];
        if seconds_ago == 0 {
            return Ok(current.tick_cumulative);
        }
        let target = match now.checked_sub(seconds_ago) {
            Some(t) => t,
            None => {
                return Err(AmmError::ObservationUnavailable);
            },
        };
        if current.block_timestamp == target {
            return Ok(current.tick_cumulative);
        }
        let prev_index = if self.index == 0 {
            self.cardinality - 1
        } else {
            self.index - 1
        };
        let prev = self.observations[prev_index as usize];
        if !prev.initialized || target < prev.block_timestamp || target > current.block_timestamp {
            return Err(AmmError::ObservationUnavailable);
        }
        let total_delta = current.block_timestamp - prev.block_timestamp;
        if total_delta == 0 {
            return Ok(current.tick_cumulative);
        }
        let delta = target - prev.block_timestamp;
        let tick_delta = current.tick_cumulative.wrapping_sub(prev.tick_cumulative);
        assert(tick_delta as int * delta as int >= -0x1_0000_0000_0000_0000_0000_0000)
            by (nonlinear_arith)
            requires
                tick_delta >= i64::MIN,
                0 <= delta <= u32::MAX,
        ;
        assert(tick_delta as int * delta as int <= 0x1_0000_0000_0000_0000_0000_0000)
            by (nonlinear_arith)
            requires
                tick_delta <= i64::MAX,
                0 <= delta <= u32::MAX,
        ;
        let scaled: i128 = tick_delta as i128 * delta as i128;
        assert(scaled > i128::MIN) by (nonlinear_arith)
            requires
                scaled == tick_delta as int * delta as int,
                tick_delta >= i64::MIN,
                tick_delta <= i64::MAX,
                0 <= delta <= u32::MAX,
        ;
        let step = trunc_div_i128(scaled, total_delta as i128);
        assert(-(i64::MAX as int) - 1 <= step <= i64::MAX) by (nonlinear_arith)
            requires
                step == trunc_div(scaled as int, total_delta as int),
                scaled == tick_delta as int * delta as int,
                i64::MIN <= tick_delta <= i64::MAX,
                0 <= delta <= total_delta,
                total_delta > 0,
        ;
        Ok(prev.tick_cumulative.wrapping_add(step as i64))
    }

    /// What `twap` returns.
    pub open spec fn twap_spec(
        &self,
        now: u32,
        current_tick: i32,
        seconds_ago_start: u32,
        seconds_ago_end: u32,
    ) -> Result<i32, AmmError> {
        match (self.observe_spec(now, seconds_ago_start), self.observe_spec(now, seconds_ago_end)) {
            (Ok(old_c), Ok(new_c)) => if seconds_ago_start < seconds_ago_end {
                Err(AmmError::ObservationUnavailable)
            } else if seconds_ago_start == seconds_ago_end {
                Ok(current_tick)
            } else {
                let avg = trunc_div(
                    new_c.wrapping_sub(old_c) as int,
                    seconds_ago_start - seconds_ago_end,
                );
                if i32::MIN <= avg <= i32::MAX {
                    Ok(avg as i32)
                } else {
                    Err(AmmError::Overflow)
                }
            },
            (Err(e), _) => Err(e),
            (_, Err(e)) => Err(e),
        }
    }

    /// The average tick between `seconds_ago_start` and `seconds_ago_end`
    /// before `now`: the difference of the cumulative ticks over the seconds
    /// between, rounded toward zero; `current_tick` when the window is empty.
    pub fn twap(&self, now: u32, current_tick: i32, seconds_ago_start: u32, seconds_ago_end: u32) -> (r:
        Result<i32, AmmError>)
        requires
            self.wf(),
        ensures
            r == self.twap_spec(now, current_tick, seconds_ago_start, seconds_ago_end),
    {
        let old_cumulative = match self.observe(now, seconds_ago_start) {
            Ok(c) => c,
            Err(e) => {
                return Err(e);
            },
        };
        let new_cumulative = match self.observe(now, seconds_ago_end) {
            Ok(c) => c,
            Err(e) => {
                return Err(e);
            },
        };
        if seconds_ago_start < seconds_ago_end {
            return Err(AmmError::ObservationUnavailable);
        }
        let time_delta = seconds_ago_start - seconds_ago_end;
        if time_delta == 0 {
            return Ok(current_tick);
        }
        let tick_delta = new_cumulative.wrapping_sub(old_cumulative);
        let average = trunc_div_i128(tick_delta as i128, time_delta as i128);
        if average < i32::MIN as i128 || average > i32::MAX as i128 {
            return Err(AmmError::Overflow);
        }
        Ok(average as i32)
    }
}

} // verus!
