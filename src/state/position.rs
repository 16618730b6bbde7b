//! Liquidity and fee accounting of one owner's position over one tick range.
use crate::error::AmmError;
use crate::math::full_math::FullMath;
use crate::math::liquidity_math::{add_delta_result, LiquidityMath};
use crate::state::tick::wrapped_diff;
use crate::wide::{base128, low_u128, lt, modulus256, wrapping_sub, U256};
use vstd::prelude::*;

verus! {

/// A position: its liquidity, the fee growth inside its range when it was last
/// settled, and the fees it is owed.
#[derive(Clone, Copy, Debug)]
pub struct Position {
    pub liquidity: u128,
    pub fee_growth_inside_0_last_x128: U256,
    pub fee_growth_inside_1_last_x128: U256,
    pub tokens_owed_0: u128,
    pub tokens_owed_1: u128,
}

/// Which position: its owner and its range.
#[derive(Clone, Copy, Debug, PartialEq, Eq, Structural)]
pub struct PositionKey {
    pub owner: u64,
    pub tick_lower: i32,
    pub tick_upper: i32,
}

impl PositionKey {
    pub fn new(owner: u64, tick_lower: i32, tick_upper: i32) -> (r: PositionKey)
        ensures
            r == (PositionKey { owner, tick_lower, tick_upper }),
    {
        PositionKey { owner, tick_lower, tick_upper }
    }
}

/// Fees earned by `liquidity` while the fee growth went from `last` to
/// `current`: `liquidity * (current - last) / 2^128`, the difference taken
/// modulo 2^256.
pub open spec fn fees_earned(liquidity: nat, current: nat, last: nat) -> nat {
    liquidity * wrapped_diff(current, last) / base128()
}

/// The owed amount plus new fees, when both fit 128 bits.
pub open spec fn owed_after(owed: nat, liquidity: nat, current: nat, last: nat) -> Option<nat> {
    if owed + fees_earned(liquidity, current, last) < base128() {
        Some(owed + fees_earned(liquidity, current, last))
    } else {
        None
    }
}

impl Position {
    pub open spec fn is_empty(&self) -> bool {
        &&& self.liquidity == 0
        &&& self.fee_growth_inside_0_last_x128.value() == 0
        &&& self.fee_growth_inside_1_last_x128.value() == 0
        &&& self.tokens_owed_0 == 0
        &&& self.tokens_owed_1 == 0
    }

    pub open spec fn empty_spec() -> Position {
        Position {
            liquidity: 0,
            fee_growth_inside_0_last_x128: U256 { l0: 0, l1: 0, l2: 0, l3: 0 },
            fee_growth_inside_1_last_x128: U256 { l0: 0, l1: 0, l2: 0, l3: 0 },
            tokens_owed_0: 0,
            tokens_owed_1: 0,
        }
    }

    /// A position that holds nothing.
    pub fn empty() -> (r: Position)
        ensures
            r.is_empty(),
            r == Position::empty_spec(),
    {
        Position {
            liquidity: 0,
            fee_growth_inside_0_last_x128: U256 { l0: 0, l1: 0, l2: 0, l3: 0 },
            fee_growth_inside_1_last_x128: U256 { l0: 0, l1: 0, l2: 0, l3: 0 },
            tokens_owed_0: 0,
            tokens_owed_1: 0,
        }
    }

    /// Why `update` refuses, if it does.
    pub open spec fn update_error(&self, liquidity_delta: int, fg0: nat, fg1: nat) -> Option<
        AmmError,
    > {
        if liquidity_delta == 0 && self.liquidity == 0 {
            Some(AmmError::EmptyPositionPoke)
        } else {
            match add_delta_result(self.liquidity as nat, liquidity_delta) {
                Err(e) => Some(e),
                Ok(l) => if owed_after(
                    self.tokens_owed_0 as nat,
                    l,
                    fg0,
                    self.fee_growth_inside_0_last_x128.value(),
                ) is None || owed_after(
                    self.tokens_owed_1 as nat,
                    l,
                    fg1,
                    self.fee_growth_inside_1_last_x128.value(),
                ) is None {
                    Some(AmmError::Overflow)
                } else {
                    None
                },
            }
        }
    }

    /// Fees earned on one token, when they fit 128 bits.
    fn calculate_fees_owed(liquidity: u128, fee_growth_inside: U256, fee_growth_inside_last: U256) -> (r:
        Result<u128, AmmError>)
        ensures
            match r {
                Ok(f) => f == fees_earned(
                    liquidity as nat,
                    fee_growth_inside.value(),
                    fee_growth_inside_last.value(),
                ),
                Err(e) => e == AmmError::Overflow && fees_earned(
                    liquidity as nat,
                    fee_growth_inside.value(),
                    fee_growth_inside_last.value(),
                ) >= base128(),
            },
    {
        let fee_growth_delta = wrapping_sub(&fee_growth_inside, &fee_growth_inside_last);
        let one_q128 = U256 { l0: 0, l1: 0, l2: 1, l3: 0 };
        let fees = match FullMath::mul_div(
            crate::wide::from_u128(liquidity),
            fee_growth_delta,
            one_q128,
        ) {
            Ok(f) => f,
            Err(e) => {
                proof {
                    assert(liquidity as nat * fee_growth_delta.value() / base128() >= modulus256());
                    assert(modulus256() >= base128()) by (nonlinear_arith)
                        requires
                            modulus256() == base128() * base128(),
                            base128() > 1,
                    ;
                }
                return Err(AmmError::Overflow);
            },
        };
        let max = U256 { l0: 0xffff_ffff_ffff_ffff, l1: 0xffff_ffff_ffff_ffff, l2: 0, l3: 0 };
        if lt(&max, &fees) {
            return Err(AmmError::Overflow);
        }
        proof {
            vstd::arithmetic::div_mod::lemma_small_mod(fees.value(), base128());
        }
        Ok(low_u128(&fees))
    }

    /// Applies a liquidity change and settles the fees earned since the last
    /// settlement at the new liquidity. A change of zero on an empty position
    /// is refused. On an error the position is unchanged.
    pub fn update(
        &mut self,
        liquidity_delta: i128,
        fee_growth_inside_0_x128: U256,
        fee_growth_inside_1_x128: U256,
    ) -> (r: Result<(), AmmError>)
        ensures
            match old(self).update_error(
                liquidity_delta as int,
                fee_growth_inside_0_x128.value(),
                fee_growth_inside_1_x128.value(),
            ) {
                Some(e) => r == Err::<(), AmmError>(e) && *final(self) == *old(self),
                None => {
                    let l = old(self).liquidity + liquidity_delta;
                    &&& r is Ok
                    &&& final(self).liquidity == l
                    &&& Some(final(self).tokens_owed_0 as nat) == owed_after(
                        old(self).tokens_owed_0 as nat,
                        l as nat,
                        fee_growth_inside_0_x128.value(),
                        old(self).fee_growth_inside_0_last_x128.value(),
                    )
                    &&& Some(final(self).tokens_owed_1 as nat) == owed_after(
                        old(self).tokens_owed_1 as nat,
                        l as nat,
                        fee_growth_inside_1_x128.value(),
                        old(self).fee_growth_inside_1_last_x128.value(),
                    )
                    &&& final(self).fee_growth_inside_0_last_x128 == fee_growth_inside_0_x128
                    &&& final(self).fee_growth_inside_1_last_x128 == fee_growth_inside_1_x128
                },
            },
    {
        if liquidity_delta == 0 && self.liquidity == 0 {
            return Err(AmmError::EmptyPositionPoke);
        }
        let liquidity = match LiquidityMath::add_delta(self.liquidity, liquidity_delta) {
            Ok(l) => l,
            Err(e) => {
                return Err(e);
            },
        };
        let fees0 = Self::calculate_fees_owed(
            liquidity,
            fee_growth_inside_0_x128,
            self.fee_growth_inside_0_last_x128,
        );
        let fees1 = Self::calculate_fees_owed(
            liquidity,
            fee_growth_inside_1_x128,
            self.fee_growth_inside_1_last_x128,
        );
        let (owed0, owed1) = match (fees0, fees1) {
            (Ok(f0), Ok(f1)) => match (
                self.tokens_owed_0.checked_add(f0),
                self.tokens_owed_1.checked_add(f1),
            ) {
                (Some(o0), Some(o1)) => (o0, o1),
                _ => {
                    return Err(AmmError::Overflow);
                },
            },
            _ => {
                return Err(AmmError::Overflow);
            },
        };
        self.liquidity = liquidity;
        self.tokens_owed_0 = owed0;
        self.tokens_owed_1 = owed1;
        self.fee_growth_inside_0_last_x128 = fee_growth_inside_0_x128;
        self.fee_growth_inside_1_last_x128 = fee_growth_inside_1_x128;
        Ok(())
    }

    /// The owed amounts with the fees earned since the last settlement added,
    /// without changing the position.
    pub fn get_fees_owed(&self, fee_growth_inside_0_x128: U256, fee_growth_inside_1_x128: U256) -> (r:
        Result<(u128, u128), AmmError>)
        ensures
            match (
                owed_after(
                    self.tokens_owed_0 as nat,
                    self.liquidity as nat,
                    fee_growth_inside_0_x128.value(),
                    self.fee_growth_inside_0_last_x128.value(),
                ),
                owed_after(
                    self.tokens_owed_1 as nat,
                    self.liquidity as nat,
                    fee_growth_inside_1_x128.value(),
                    self.fee_growth_inside_1_last_x128.value(),
                ),
            ) {
                (Some(a), Some(b)) => r == Ok::<(u128, u128), AmmError>((a as u128, b as u128)),
                _ => r == Err::<(u128, u128), AmmError>(AmmError::Overflow),
            },
    {
        let fees0 = Self::calculate_fees_owed(
            self.liquidity,
            fee_growth_inside_0_x128,
            self.fee_growth_inside_0_last_x128,
        );
        let fees1 = Self::calculate_fees_owed(
            self.liquidity,
            fee_growth_inside_1_x128,
            self.fee_growth_inside_1_last_x128,
        );
        match (fees0, fees1) {
            (Ok(f0), Ok(f1)) => match (
                self.tokens_owed_0.checked_add(f0),
                self.tokens_owed_1.checked_add(f1),
            ) {
                (Some(o0), Some(o1)) => Ok((o0, o1)),
                _ => Err(AmmError::Overflow),
            },
            _ => Err(AmmError::Overflow),
        }
    }
}

} // verus!
