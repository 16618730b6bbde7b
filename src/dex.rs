//! Many pools, one per token pair and fee tier, and the fee tiers allowed.
use crate::constants::{
    FEE_DENOMINATOR, FEE_TIER_HIGH, FEE_TIER_LOW, FEE_TIER_MEDIUM, MAX_TICK_SPACING,
    TICK_SPACING_HIGH, TICK_SPACING_LOW, TICK_SPACING_MEDIUM,
};
use crate::error::AmmError;
use crate::pool::{Pool, QuoteResult};
use crate::state::oracle::Observation;
use crate::state::position::Position;
use crate::wide::{q96, U256};
use std::collections::HashMap;
use vstd::prelude::*;

verus! {

broadcast use vstd::std_specs::hash::group_hash_axioms;

/// The pools of a venue and the tick spacing of each enabled fee.
pub struct UnifiedDex {
    pub fee_amount_tick_spacing: HashMap<u32, i32>,
    pub pools: Vec<Pool>,
}

/// A pool that keeps its invariant; opaque here so that the venue's proofs
/// carry it without looking inside.
#[verifier::opaque]
pub open spec fn pool_ready(p: Pool) -> bool {
    p.wf()
}

impl UnifiedDex {
    pub open spec fn wf(&self) -> bool {
        &&& forall|i: int| 0 <= i < self.pools@.len() ==> #[trigger] pool_ready(self.pools@[i])
        &&& forall|f: u32| #[trigger]
            self.fee_amount_tick_spacing@.contains_key(f) ==> f < FEE_DENOMINATOR && 0
                < self.fee_amount_tick_spacing@[f] <= MAX_TICK_SPACING
    }

    /// Whether pool `i` is the one of `token0`, `token1` and `fee`.
    pub open spec fn is_pool(&self, i: int, token0: u64, token1: u64, fee: u32) -> bool {
        &&& self.pools@[i].token0 == token0
        &&& self.pools@[i].token1 == token1
        &&& self.pools@[i].fee == fee
    }

    /// The first pool of `token0`, `token1` and `fee`, if any.
    pub open spec fn pool_index(&self, token0: u64, token1: u64, fee: u32) -> Option<int> {
        if exists|i: int| 0 <= i < self.pools@.len() && self.is_pool(i, token0, token1, fee) {
            Some(
                choose|i: int|
                    0 <= i < self.pools@.len() && self.is_pool(i, token0, token1, fee) && forall|
                        j: int,
                    |
                        0 <= j < i ==> !self.is_pool(j, token0, token1, fee),
            )
        } else {
            None
        }
    }

    proof fn lemma_pool_wf(&self, i: int)
        requires
            self.wf(),
            0 <= i < self.pools@.len(),
        ensures
            self.pools@[i].wf(),
    {
        assert(pool_ready(self.pools@[i]));
        reveal(pool_ready);
    }

    /// Takes pool `i` out of the list.
    fn take_pool(&mut self, i: usize) -> (p: Pool)
        requires
            old(self).wf(),
            i < old(self).pools@.len(),
        ensures
            p == old(self).pools@[i as int],
            p.wf(),
            final(self).pools@ == old(self).pools@.remove(i as int),
            final(self).fee_amount_tick_spacing == old(self).fee_amount_tick_spacing,
    {
        proof {
            old(self).lemma_pool_wf(i as int);
        }
        self.pools.remove(i)
    }

    /// Puts a pool back at position `i`.
    fn put_pool(&mut self, i: usize, p: Pool)
        requires
            i <= old(self).pools@.len(),
            p.wf(),
            forall|j: int|
                0 <= j < old(self).pools@.len() ==> #[trigger] pool_ready(old(self).pools@[j]),
            forall|f: u32| #[trigger]
                old(self).fee_amount_tick_spacing@.contains_key(f) ==> f < FEE_DENOMINATOR && 0
                    < old(self).fee_amount_tick_spacing@[f] <= MAX_TICK_SPACING,
        ensures
            final(self).wf(),
            final(self).pools@ == old(self).pools@.insert(i as int, p),
            final(self).fee_amount_tick_spacing == old(self).fee_amount_tick_spacing,
    {
        assert(pool_ready(p)) by {
            reveal(pool_ready);
        }
        self.pools.insert(i, p);
        assert forall|j: int| 0 <= j < self.pools@.len() implies #[trigger] pool_ready(
            self.pools@[j],
        ) by {
            if j < i {
                assert(self.pools@[j] == old(self).pools@[j]);
            } else if j > i {
                assert(self.pools@[j] == old(self).pools@[j - 1]);
            }
        }
    }

    /// A venue with the three standard fee tiers and no pools.
    pub fn init() -> (r: UnifiedDex)
        ensures
            r.wf(),
            r.pools@.len() == 0,
            r.fee_amount_tick_spacing@ == Map::<u32, i32>::empty().insert(
                FEE_TIER_LOW,
                TICK_SPACING_LOW,
            ).insert(FEE_TIER_MEDIUM, TICK_SPACING_MEDIUM).insert(FEE_TIER_HIGH, TICK_SPACING_HIGH),
    {
        let mut tiers: HashMap<u32, i32> = HashMap::new();
        tiers.insert(FEE_TIER_LOW, TICK_SPACING_LOW);
        tiers.insert(FEE_TIER_MEDIUM, TICK_SPACING_MEDIUM);
        tiers.insert(FEE_TIER_HIGH, TICK_SPACING_HIGH);
        UnifiedDex { fee_amount_tick_spacing: tiers, pools: Vec::new() }
    }

    /// Allows pools with `fee`, spaced by `tick_spacing`.
    pub fn enable_fee_amount(&mut self, fee: u32, tick_spacing: i32) -> (r: Result<(), AmmError>)
        requires
            old(self).wf(),
        ensures
            final(self).wf(),
            !(fee < FEE_DENOMINATOR && 0 < tick_spacing <= MAX_TICK_SPACING) ==> r == Err::<
                (),
                AmmError,
            >(AmmError::InvalidConfig),
            (fee < FEE_DENOMINATOR && 0 < tick_spacing <= MAX_TICK_SPACING
                && old(self).fee_amount_tick_spacing@.contains_key(fee)) ==> r == Err::<
                (),
                AmmError,
            >(AmmError::FeeAlreadyEnabled),
            r is Err ==> *final(self) == *old(self),
            r is Ok ==> final(self).fee_amount_tick_spacing@ == old(
                self,
            ).fee_amount_tick_spacing@.insert(fee, tick_spacing) && final(self).pools@ == old(
                self,
            ).pools@,
    {
        if fee >= FEE_DENOMINATOR || tick_spacing <= 0 || tick_spacing > MAX_TICK_SPACING {
            return Err(AmmError::InvalidConfig);
        }
        if self.fee_amount_tick_spacing.contains_key(&fee) {
            return Err(AmmError::FeeAlreadyEnabled);
        }
        self.fee_amount_tick_spacing.insert(fee, tick_spacing);
        Ok(())
    }

    /// The index of the pool of `token0`, `token1` and `fee`.
    pub fn get_pool(&self, token0: u64, token1: u64, fee: u32) -> (r: Option<usize>)
        ensures
            r is None <==> self.pool_index(token0, token1, fee) is None,
            r matches Some(i) ==> self.pool_index(token0, token1, fee) == Some(i as int) && i
                < self.pools@.len() && self.is_pool(i as int, token0, token1, fee),
    {
        let mut i: usize = 0;
        while i < self.pools.len()
            invariant
                0 <= i <= self.pools@.len(),
                forall|j: int| 0 <= j < i ==> !self.is_pool(j, token0, token1, fee),
            decreases self.pools@.len() - i,
        {
            let p = &self.pools[i];
            if p.token0 == token0 && p.token1 == token1 && p.fee == fee {
                proof {
                    assert(self.is_pool(i as int, token0, token1, fee));
                    let k = self.pool_index(token0, token1, fee).unwrap();
                    assert(0 <= k < self.pools@.len() && self.is_pool(k, token0, token1, fee));
                    assert(k == i as int);
                }
                return Some(i);
            }
            i = i + 1;
        }
        proof {
            assert(!(exists|j: int|
                0 <= j < self.pools@.len() && self.is_pool(j, token0, token1, fee)));
        }
        None
    }

    /// Creates the pool of `token_a` and `token_b` (in either order) at an
    /// enabled fee, uninitialized, and returns its index.
    pub fn create_pool(&mut self, token_a: u64, token_b: u64, fee: u32) -> (r: Result<usize, AmmError>)
        requires
            old(self).wf(),
        ensures
            final(self).wf(),
            token_a == token_b ==> r == Err::<usize, AmmError>(AmmError::IdenticalTokens),
            token_a != token_b && !old(self).fee_amount_tick_spacing@.contains_key(fee) ==> r
                == Err::<usize, AmmError>(AmmError::FeeNotEnabled),
            ({
                let (t0, t1) = if token_a < token_b {
                    (token_a, token_b)
                } else {
                    (token_b, token_a)
                };
                &&& (token_a != token_b && old(self).fee_amount_tick_spacing@.contains_key(fee)
                    && old(self).pool_index(t0, t1, fee) is Some) ==> r == Err::<usize, AmmError>(
                    AmmError::PoolExists,
                )
                &&& (token_a != token_b && old(self).fee_amount_tick_spacing@.contains_key(fee)
                    && old(self).pool_index(t0, t1, fee) is None) ==> r is Ok
            }),
            r is Err ==> *final(self) == *old(self),
            r matches Ok(i) ==> {
                let (t0, t1) = if token_a < token_b {
                    (token_a, token_b)
                } else {
                    (token_b, token_a)
                };
                &&& old(self).pool_index(t0, t1, fee) is None
                &&& i == old(self).pools@.len()
                &&& final(self).pools@.len() == i + 1
                &&& final(self).pools@.take(i as int) == old(self).pools@
                &&& final(self).is_pool(i as int, t0, t1, fee)
                &&& final(self).pools@[i as int].tick_spacing
                    == old(self).fee_amount_tick_spacing@[fee]
                &&& !final(self).pools@[i as int].is_initialized()
            },
    {
        if token_a == token_b {
            return Err(AmmError::IdenticalTokens);
        }
        let (token0, token1) = if token_a < token_b {
            (token_a, token_b)
        } else {
            (token_b, token_a)
        };
        let tick_spacing = match self.fee_amount_tick_spacing.get(&fee) {
            Some(s) => *s,
            None => {
                return Err(AmmError::FeeNotEnabled);
            },
        };
        if self.get_pool(token0, token1, fee).is_some() {
            return Err(AmmError::PoolExists);
        }
        let pool = match Pool::new(token0, token1, fee, tick_spacing) {
            Ok(p) => p,
            Err(e) => {
                return Err(e);
            },
        };
        let i = self.pools.len();
        proof {
            assert(pool_ready(pool)) by {
                reveal(pool_ready);
            }
        }
        self.pools.push(pool);
        proof {
            assert forall|j: int| 0 <= j < self.pools@.len() implies #[trigger] pool_ready(
                self.pools@[j],
            ) by {
                if j < i {
                    assert(self.pools@[j] == old(self).pools@[j]);
                }
            }
        }
        proof {
            assert(self.pools@.take(i as int) =~= old(self).pools@);
        }
        Ok(i)
    }

    /// Sets the starting price of an existing pool.
    #[verifier::rlimit(60)]
    pub fn initialize_pool(
        &mut self,
        token0: u64,
        token1: u64,
        fee: u32,
        sqrt_price_x96: U256,
        time: u32,
    ) -> (r: Result<(), AmmError>)
        requires
            old(self).wf(),
        ensures
            final(self).wf(),
            old(self).pool_index(token0, token1, fee) is None ==> r == Err::<(), AmmError>(
                AmmError::PoolNotFound,
            ) && final(self).pools@ == old(self).pools@,
            old(self).pool_index(token0, token1, fee) matches Some(i) ==> {
                &&& Pool::initialize_post(old(self).pools@[i], final(self).pools@[i], sqrt_price_x96, time, r)
                &&& final(self).pools@ == old(self).pools@.update(i, final(self).pools@[i])
            },
            final(self).fee_amount_tick_spacing == old(self).fee_amount_tick_spacing,
            r is Err ==> final(self).pools@ == old(self).pools@,
    {
        let i = match self.get_pool(token0, token1, fee) {
            Some(i) => i,
            None => {
                return Err(AmmError::PoolNotFound);
            },
        };
        let mut pool = self.take_pool(i);
        let r = pool.initialize(sqrt_price_x96, time);
        self.put_pool(i, pool);
        proof {
            assert(old(self).pools@.remove(i as int).insert(i as int, pool) =~= old(self).pools@.update(
                i as int,
                pool,
            ));
            if pool == old(self).pools@[i as int] {
                assert(self.pools@ =~= old(self).pools@);
            }
        }
        r
    }

    /// Adds liquidity to a position of an existing pool; see `Pool::mint`.
    #[verifier::rlimit(100)]
    pub fn mint(
        &mut self,
        token0: u64,
        token1: u64,
        fee: u32,
        recipient: u64,
        tick_lower: i32,
        tick_upper: i32,
        amount: u128,
        amount0_min: U256,
        amount1_min: U256,
        time: u32,
    ) -> (r: Result<(U256, U256), AmmError>)
        requires
            old(self).wf(),
        ensures
            final(self).wf(),
            old(self).pool_index(token0, token1, fee) is None ==> r == Err::<(U256, U256), AmmError>(
                AmmError::PoolNotFound,
            ) && final(self).pools@ == old(self).pools@,
            old(self).pool_index(token0, token1, fee) matches Some(i) ==> {
                &&& Pool::mint_post(old(self).pools@[i], final(self).pools@[i], recipient,
                    tick_lower,
                    tick_upper,
                    amount,
                    amount0_min,
                    amount1_min,
                    time,
                    r,
                )
                &&& final(self).pools@ == old(self).pools@.update(i, final(self).pools@[i])
            },
            final(self).fee_amount_tick_spacing == old(self).fee_amount_tick_spacing,
            r is Err ==> final(self).pools@ == old(self).pools@,
    {
        let i = match self.get_pool(token0, token1, fee) {
            Some(i) => i,
            None => {
                return Err(AmmError::PoolNotFound);
            },
        };
        let mut pool = self.take_pool(i);
        let r = pool.mint(
            recipient,
            tick_lower,
            tick_upper,
            amount,
            amount0_min,
            amount1_min,
            time,
        );
        self.put_pool(i, pool);
        proof {
            assert(old(self).pools@.remove(i as int).insert(i as int, pool) =~= old(self).pools@.update(
                i as int,
                pool,
            ));
            if pool == old(self).pools@[i as int] {
                assert(self.pools@ =~= old(self).pools@);
            }
        }
        r
    }

    /// Removes liquidity from a position of an existing pool; see `Pool::burn`.
    #[verifier::rlimit(60)]
    pub fn burn(
        &mut self,
        token0: u64,
        token1: u64,
        fee: u32,
        owner: u64,
        tick_lower: i32,
        tick_upper: i32,
        amount: u128,
        time: u32,
    ) -> (r: Result<(U256, U256), AmmError>)
        requires
            old(self).wf(),
        ensures
            final(self).wf(),
            old(self).pool_index(token0, token1, fee) is None ==> r == Err::<(U256, U256), AmmError>(
                AmmError::PoolNotFound,
            ) && final(self).pools@ == old(self).pools@,
            old(self).pool_index(token0, token1, fee) matches Some(i) ==> {
                &&& Pool::burn_post(old(self).pools@[i], final(self).pools@[i], owner, tick_lower, tick_upper, amount, time, r)
                &&& final(self).pools@ == old(self).pools@.update(i, final(self).pools@[i])
            },
            final(self).fee_amount_tick_spacing == old(self).fee_amount_tick_spacing,
            r is Err ==> final(self).pools@ == old(self).pools@,
    {
        let i = match self.get_pool(token0, token1, fee) {
            Some(i) => i,
            None => {
                return Err(AmmError::PoolNotFound);
            },
        };
        let mut pool = self.take_pool(i);
        let r = pool.burn(owner, tick_lower, tick_upper, amount, time);
        self.put_pool(i, pool);
        proof {
            assert(old(self).pools@.remove(i as int).insert(i as int, pool) =~= old(self).pools@.update(
                i as int,
                pool,
            ));
            if pool == old(self).pools@[i as int] {
                assert(self.pools@ =~= old(self).pools@);
            }
        }
        r
    }

    /// Pays out owed tokens of a position of an existing pool; see `Pool::collect`.
    pub fn collect(
        &mut self,
        token0: u64,
        token1: u64,
        fee: u32,
        owner: u64,
        tick_lower: i32,
        tick_upper: i32,
        amount0_requested: u128,
        amount1_requested: u128,
    ) -> (r: Result<(u128, u128), AmmError>)
        requires
            old(self).wf(),
        ensures
            final(self).wf(),
            old(self).pool_index(token0, token1, fee) is None ==> r == Err::<(u128, u128), AmmError>(
                AmmError::PoolNotFound,
            ) && final(self).pools@ == old(self).pools@,
            old(self).pool_index(token0, token1, fee) matches Some(i) ==> {
                &&& r is Ok
                &&& Pool::collect_post(
                    old(self).pools@[i],
                    final(self).pools@[i],
                    owner,
                    tick_lower,
                    tick_upper,
                    amount0_requested,
                    amount1_requested,
                    r->Ok_0,
                )
                &&& final(self).pools@ == old(self).pools@.update(i, final(self).pools@[i])
            },
            final(self).fee_amount_tick_spacing == old(self).fee_amount_tick_spacing,
            r is Err ==> final(self).pools@ == old(self).pools@,
    {
        let i = match self.get_pool(token0, token1, fee) {
            Some(i) => i,
            None => {
                return Err(AmmError::PoolNotFound);
            },
        };
        let mut pool = self.take_pool(i);
        let r = pool.collect(owner, tick_lower, tick_upper, amount0_requested, amount1_requested);
        self.put_pool(i, pool);
        proof {
            assert(old(self).pools@.remove(i as int).insert(i as int, pool) =~= old(self).pools@.update(
                i as int,
                pool,
            ));
            if pool == old(self).pools@[i as int] {
                assert(self.pools@ =~= old(self).pools@);
            }
        }
        Ok(r)
    }

    /// Swaps in an existing pool; see `Pool::swap`.
    #[verifier::rlimit(60)]
    pub fn swap(
        &mut self,
        token0: u64,
        token1: u64,
        fee: u32,
        zero_for_one: bool,
        amount_specified: i64,
        sqrt_price_limit_x96: U256,
        time: u32,
    ) -> (r: Result<(i64, i64), AmmError>)
        requires
            old(self).wf(),
        ensures
            final(self).wf(),
            old(self).pool_index(token0, token1, fee) is None ==> r == Err::<(i64, i64), AmmError>(
                AmmError::PoolNotFound,
            ) && final(self).pools@ == old(self).pools@,
            old(self).pool_index(token0, token1, fee) matches Some(i) ==> {
                &&& Pool::swap_post(old(self).pools@[i], final(self).pools@[i], zero_for_one, amount_specified, sqrt_price_limit_x96, r)
                &&& final(self).pools@ == old(self).pools@.update(i, final(self).pools@[i])
            },
            final(self).fee_amount_tick_spacing == old(self).fee_amount_tick_spacing,
            r is Err ==> final(self).pools@ == old(self).pools@,
    {
        let i = match self.get_pool(token0, token1, fee) {
            Some(i) => i,
            None => {
                return Err(AmmError::PoolNotFound);
            },
        };
        let mut pool = self.take_pool(i);
        let r = pool.swap(zero_for_one, amount_specified, sqrt_price_limit_x96, time);
        self.put_pool(i, pool);
        proof {
            assert(old(self).pools@.remove(i as int).insert(i as int, pool) =~= old(self).pools@.update(
                i as int,
                pool,
            ));
            if pool == old(self).pools@[i as int] {
                assert(self.pools@ =~= old(self).pools@);
            }
        }
        r
    }

    /// Quotes a swap of `amount_in` of `token_in` for `token_out`; `None` when
    /// there is no such pool or `Pool::quote_exact_input_single` gives none.
    pub fn quote_exact_input_single(
        &self,
        token_in: u64,
        token_out: u64,
        fee: u32,
        amount_in: U256,
    ) -> (r: Option<QuoteResult>)
        requires
            self.wf(),
        ensures
            ({
                let (t0, t1) = if token_in < token_out {
                    (token_in, token_out)
                } else {
                    (token_out, token_in)
                };
                &&& self.pool_index(t0, t1, fee) is None ==> r is None
                &&& self.pool_index(t0, t1, fee) matches Some(i) ==> Pool::quote_post(
                    self.pools@[i],
                    token_in == t0,
                    amount_in,
                    r,
                )
            }),
    {
        let (token0, token1) = if token_in < token_out {
            (token_in, token_out)
        } else {
            (token_out, token_in)
        };
        let zero_for_one = token_in == token0;
        match self.get_pool(token0, token1, fee) {
            Some(i) => {
                proof {
                    self.lemma_pool_wf(i as int);
                }
                self.pools[i].quote_exact_input_single(zero_for_one, amount_in)
            },
            None => None,
        }
    }

    /// The price of an existing, initialized pool.
    pub fn get_price(&self, token0: u64, token1: u64, fee: u32) -> (r: Option<U256>)
        requires
            self.wf(),
        ensures
            self.pool_index(token0, token1, fee) is None ==> r is None,
            self.pool_index(token0, token1, fee) matches Some(i) ==> {
                let p = self.pools@[i];
                &&& !p.is_initialized() ==> r is None
                &&& p.is_initialized() ==> (r matches Some(x) && x.value() == p.sqrt_price_x96.value()
                    * p.sqrt_price_x96.value() / (q96() * q96()))
            },
    {
        match self.get_pool(token0, token1, fee) {
            Some(i) => {
                proof {
                    self.lemma_pool_wf(i as int);
                }
                self.pools[i].get_price()
            },
            None => None,
        }
    }

    /// A position of an existing pool.
    pub fn get_position_with_fees(
        &self,
        token0: u64,
        token1: u64,
        fee: u32,
        owner: u64,
        tick_lower: i32,
        tick_upper: i32,
    ) -> (r: Option<Position>)
        ensures
            self.pool_index(token0, token1, fee) is None ==> r is None,
            self.pool_index(token0, token1, fee) matches Some(i) ==> r == Some(
                self.pools@[i].position_at(owner, tick_lower, tick_upper),
            ),
    {
        match self.get_pool(token0, token1, fee) {
            Some(i) => Some(self.pools[i].get_position(owner, tick_lower, tick_upper)),
            None => None,
        }
    }

    /// The average tick of an existing pool over a window before `now`.
    pub fn get_twap(
        &self,
        token0: u64,
        token1: u64,
        fee: u32,
        now: u32,
        seconds_ago_start: u32,
        seconds_ago_end: u32,
    ) -> (r: Result<i32, AmmError>)
        requires
            self.wf(),
        ensures
            self.pool_index(token0, token1, fee) is None ==> r == Err::<i32, AmmError>(
                AmmError::PoolNotFound,
            ),
            self.pool_index(token0, token1, fee) matches Some(i) ==> r == self.pools@[i].get_twap_spec(
                now,
                seconds_ago_start,
                seconds_ago_end,
            ),
    {
        match self.get_pool(token0, token1, fee) {
            Some(i) => {
                proof {
                    self.lemma_pool_wf(i as int);
                }
                self.pools[i].get_twap(now, seconds_ago_start, seconds_ago_end)
            },
            None => Err(AmmError::PoolNotFound),
        }
    }

    /// An oracle slot of an existing pool.
    pub fn get_observation(&self, token0: u64, token1: u64, fee: u32, index: u32) -> (r: Option<
        Observation,
    >)
        ensures
            self.pool_index(token0, token1, fee) is None ==> r is None,
            self.pool_index(token0, token1, fee) matches Some(i) ==> {
                let obs = self.pools@[i].oracle.observations@;
                &&& index < obs.len() ==> r == Some(obs[index as int])
                &&& index >= obs.len() ==> r is None
            },
    {
        match self.get_pool(token0, token1, fee) {
            Some(i) => self.pools[i].get_observation(index),
            None => None,
        }
    }

    /// Lets the oracle of an existing pool keep more observations.
    pub fn increase_observation_cardinality(
        &mut self,
        token0: u64,
        token1: u64,
        fee: u32,
        cardinality_next: u32,
    ) -> (r: Result<(), AmmError>)
        requires
            old(self).wf(),
        ensures
            final(self).wf(),
            old(self).pool_index(token0, token1, fee) is None ==> r == Err::<(), AmmError>(
                AmmError::PoolNotFound,
            ) && final(self).pools@ == old(self).pools@,
            old(self).pool_index(token0, token1, fee) matches Some(i) ==> {
                &&& Pool::grow_post(old(self).pools@[i], final(self).pools@[i], cardinality_next, r)
                &&& final(self).pools@ == old(self).pools@.update(i, final(self).pools@[i])
            },
            final(self).fee_amount_tick_spacing == old(self).fee_amount_tick_spacing,
            r is Err ==> final(self).pools@ == old(self).pools@,
    {
        let i = match self.get_pool(token0, token1, fee) {
            Some(i) => i,
            None => {
                return Err(AmmError::PoolNotFound);
            },
        };
        let mut pool = self.take_pool(i);
        let r = pool.increase_observation_cardinality(cardinality_next);
        self.put_pool(i, pool);
        proof {
            assert(old(self).pools@.remove(i as int).insert(i as int, pool) =~= old(self).pools@.update(
                i as int,
                pool,
            ));
            if pool == old(self).pools@[i as int] {
                assert(self.pools@ =~= old(self).pools@);
            }
        }
        r
    }

    /// Whether an existing pool's tick is near its five-minute average;
    /// false when there is no such pool.
    pub fn check_price_manipulation(
        &self,
        token0: u64,
        token1: u64,
        fee: u32,
        now: u32,
        max_deviation_ticks: u32,
    ) -> (r: bool)
        requires
            self.wf(),
        ensures
            self.pool_index(token0, token1, fee) is None ==> !r,
            self.pool_index(token0, token1, fee) matches Some(i) ==> {
                let p = self.pools@[i];
                match p.get_twap_spec(now, 300, 0) {
                    Ok(avg) => r == ((p.tick - avg) <= max_deviation_ticks && (avg - p.tick)
                        <= max_deviation_ticks),
                    Err(_) => r,
                }
            },
    {
        match self.get_pool(token0, token1, fee) {
            Some(i) => {
                proof {
                    self.lemma_pool_wf(i as int);
                }
                self.pools[i].check_price_manipulation(now, max_deviation_ticks)
            },
            None => false,
        }
    }
}

} // verus!
