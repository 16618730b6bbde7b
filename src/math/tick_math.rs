//! Conversion between ticks and square-root prices.
use crate::constants::{MAX_TICK, MIN_SQRT_RATIO, MIN_TICK};
use crate::error::AmmError;
use crate::math::full_math::{ceil_div, FullMath};
use crate::math::sqrt_price_math::lemma_scaled_quotient_le;
use crate::wide::{
    base128, base64, bitand, checked_add, checked_div, lemma_pow2_values, lt, modulus256, shr, U256,
};
use vstd::arithmetic::power2::pow2;
use vstd::prelude::*;

verus! {

/// Conversion between ticks and square-root prices.
pub struct TickMath;

/// `sqrt(1.0001^-(2^i))` as a Q128.128 number, for the bits `i` of a tick.
pub open spec fn tick_factor(i: nat) -> nat {
    if i == 0 {
        0xfffcb933bd6fad37aa2d162d1a594001
    } else 
    if i == 1 {
        0xfff97272373d413259a46990580e213a
    } else 
    if i == 2 {
        0xfff2e50f5f656932ef12357cf3c7fdcc
    } else 
    if i == 3 {
        0xffe5caca7e10e4e61c3624eaa0941cd0
    } else 
    if i == 4 {
        0xffcb9843d60f6159c9db58835c926644
    } else 
    if i == 5 {
        0xff973b41fa98c081472e6896dfb254c0
    } else 
    if i == 6 {
        0xff2ea16466c96a3843ec78b326b52861
    } else 
    if i == 7 {
        0xfe5dee046a99a2a811c461f1969c3053
    } else 
    if i == 8 {
        0xfcbe86c7900a88aedcffc83b479aa3a4
    } else 
    if i == 9 {
        0xf987a7253ac413176f2b074cf7815e54
    } else 
    if i == 10 {
        0xf3392b0822b70005940c7a398e4b70f3
    } else 
    if i == 11 {
        0xe7159475a2c29b7443b29c7fa6e889d9
    } else 
    if i == 12 {
        0xd097f3bdfd2022b8845ad8f792aa5825
    } else 
    if i == 13 {
        0xa9f746462d870fdf8a65dc1f90e061e5
    } else 
    if i == 14 {
        0x70d869a156d2a1b890bb3df62baf32f7
    } else 
    if i == 15 {
        0x31be135f97d08fd981231505542fcfa6
    } else 
    if i == 16 {
        0x9aa508b5b7a84e1c677de54f3e99bc9
    } else 
    if i == 17 {
        0x5d6af8dedb81196699c329225ee604
    } else 
    if i == 18 {
        0x2216e584f5fa1ea926041bedfe98
    } else 
    if i == 19 {
        0x48a170391f7dc42444e8fa2
    } else {
        0
    }
}

/// The mask of bit `i`.
pub open spec fn tick_mask(i: nat) -> u32 {
    if i == 0 {
        0x1
    } else 
    if i == 1 {
        0x2
    } else 
    if i == 2 {
        0x4
    } else 
    if i == 3 {
        0x8
    } else 
    if i == 4 {
        0x10
    } else 
    if i == 5 {
        0x20
    } else 
    if i == 6 {
        0x40
    } else 
    if i == 7 {
        0x80
    } else 
    if i == 8 {
        0x100
    } else 
    if i == 9 {
        0x200
    } else 
    if i == 10 {
        0x400
    } else 
    if i == 11 {
        0x800
    } else 
    if i == 12 {
        0x1000
    } else 
    if i == 13 {
        0x2000
    } else 
    if i == 14 {
        0x4000
    } else 
    if i == 15 {
        0x8000
    } else 
    if i == 16 {
        0x10000
    } else 
    if i == 17 {
        0x20000
    } else 
    if i == 18 {
        0x40000
    } else 
    if i == 19 {
        0x80000
    } else {
        0
    }
}

/// A lower bound of the running ratio after the first `i` bits, whatever they are.
pub open spec fn ratio_lower_bound(i: nat) -> nat {
    if i == 0 {
        base128()
    } else     if i == 1 {
        340265354078544963557816517032075149313
    } else 
    if i == 2 {
        340231330945450418515964920540021147198
    } else 
    if i == 3 {
        340163294884840501567246455576441303173
    } else 
    if i == 4 {
        340027263576413978334042125129128142263
    } else 
    if i == 5 {
        339755364134575681238502878529008278326
    } else 
    if i == 6 {
        339212217342146842559531600927033253847
    } else 
    if i == 7 {
        338128527259088467778511436198880488164
    } else 
    if i == 8 {
        335971522311117552149334092109581418674
    } else 
    if i == 9 {
        331698704829854243503582989311158516586
    } else 
    if i == 10 {
        323315401242583425022802937239550140918
    } else 
    if i == 11 {
        307179074178916392659402722612948179612
    } else 
    if i == 12 {
        277282266700509388632609933215391170106
    } else 
    if i == 13 {
        225934749830749445986089663015556949343
    } else 
    if i == 14 {
        150004713758184102711002566140788444796
    } else 
    if i == 15 {
        66122407008436832627027740713496573148
    } else 
    if i == 16 {
        12848018414553970828728179856918040433
    } else 
    if i == 17 {
        485077512873820763967752669154895175
    } else 
    if i == 18 {
        691450548841240133896843047535567
    } else 
    if i == 19 {
        1404950724947776134837143967
    } else 
    if i == 20 {
        5800441176149320
    } else {
        0
    }
}

/// The Q128.128 ratio after the factors of the set bits among the first `n`
/// bits of `abs`, each product rounded down.
pub open spec fn ratio_after_bits(abs: u32, n: nat) -> nat
    decreases n,
{
    if n == 0 {
        base128()
    } else {
        let prev = ratio_after_bits(abs, (n - 1) as nat);
        if abs & tick_mask((n - 1) as nat) != 0 {
            prev * tick_factor((n - 1) as nat) / base128()
        } else {
            prev
        }
    }
}

/// The magnitude of a tick.
pub open spec fn abs_tick(tick: int) -> u32 {
    (if tick < 0 {
        -tick
    } else {
        tick
    }) as u32
}

pub open spec fn tick_in_range(tick: int) -> bool {
    MIN_TICK <= tick <= MAX_TICK
}

/// `sqrt(1.0001^tick) * 2^96`: the product of the bit factors, inverted for
/// positive ticks, then taken from Q128.128 to Q64.96 rounding up.
pub open spec fn sqrt_ratio_at_tick_spec(tick: int) -> nat {
    let r = ratio_after_bits(abs_tick(tick), 20);
    let r2 = if tick > 0 {
        ((modulus256() - 1) as nat) / r
    } else {
        r
    };
    ceil_div(r2, pow2(32))
}

/// The largest square-root price, one past the price of `MAX_TICK`'s range.
pub open spec fn max_sqrt_ratio_spec() -> nat {
    0x5d951d5263988d26 + 0xefd1fc6a50648849 * base64() + 0xfffd8963 * base128()
}

/// Whether `tick` is the greatest tick whose price is at most `price`: its own
/// price is at most `price` (or it is `MIN_TICK`), and the next tick's is above
/// `price` (or it is `MAX_TICK`).
pub open spec fn is_tick_of_price(tick: int, price: nat) -> bool {
    &&& tick_in_range(tick)
    &&& (tick == MIN_TICK || sqrt_ratio_at_tick_spec(tick) <= price)
    &&& (tick == MAX_TICK || price < sqrt_ratio_at_tick_spec(tick + 1))
}

/// The binary search for the tick of `price` over `[lo, hi]`: the midpoint
/// rounded up moves the lower end when its price is at most `price`, else the
/// upper end below it.
pub open spec fn tick_search(price: nat, lo: int, hi: int) -> int
    decreases hi - lo,
{
    if lo >= hi {
        lo
    } else {
        let mid = (lo + hi + 1) / 2;
        if sqrt_ratio_at_tick_spec(mid) <= price {
            tick_search(price, mid, hi)
        } else {
            tick_search(price, lo, mid - 1)
        }
    }
}

/// The largest square-root price, exclusive.
pub fn max_sqrt_ratio() -> (r: U256)
    ensures
        r.value() == max_sqrt_ratio_spec(),
{
    U256 { l0: 0x5d951d5263988d26, l1: 0xefd1fc6a50648849, l2: 0xfffd8963, l3: 0 }
}

impl TickMath {
    /// `a * b / 2^128`, rounded down.
    fn mul_shift(a: U256, b: U256) -> (r: U256)
        requires
            a.value() <= base128(),
            b.value() < base128(),
        ensures
            r.value() == a.value() * b.value() / base128(),
    {
        proof {
            lemma_scaled_quotient_le(a.value(), b.value(), base128());
            a.lemma_bounds();
        }
        let one_q128 = U256 { l0: 0, l1: 0, l2: 1, l3: 0 };
        FullMath::mul_div(a, b, one_q128).unwrap()
    }

    /// Applies the factor of bit `n` when `abs` has that bit.
    fn apply_factor(ratio: U256, abs: u32, n: u32, mask: u32, factor: U256) -> (r: U256)
        requires
            n < 20,
            mask == tick_mask(n as nat),
            factor.value() == tick_factor(n as nat),
            factor.value() < base128(),
            ratio.value() == ratio_after_bits(abs, n as nat),
            ratio_lower_bound(n as nat) <= ratio.value() <= base128(),
            ratio_lower_bound(n as nat + 1) == ratio_lower_bound(n as nat) * tick_factor(n as nat)
                / base128(),
        ensures
            r.value() == ratio_after_bits(abs, n as nat + 1),
            ratio_lower_bound(n as nat + 1) <= r.value() <= base128(),
    {
        let ghost lb = ratio_lower_bound(n as nat);
        proof {
            lemma_scaled_quotient_le(lb, factor.value(), base128());
            lemma_scaled_quotient_le(ratio.value(), factor.value(), base128());
            assert(lb * factor.value() <= ratio.value() * factor.value()) by (nonlinear_arith)
                requires
                    lb <= ratio.value(),
            ;
            vstd::arithmetic::div_mod::lemma_div_is_ordered(
                (lb * factor.value()) as int,
                (ratio.value() * factor.value()) as int,
                base128() as int,
            );
        }
        if abs & mask != 0 {
            Self::mul_shift(ratio, factor)
        } else {
            ratio
        }
    }

    /// `sqrt(1.0001^tick) * 2^96` as a Q64.96 number, for ticks in
    /// `[MIN_TICK, MAX_TICK]`.
    pub fn get_sqrt_ratio_at_tick(tick: i32) -> (r: Result<U256, AmmError>)
        ensures
            r is Ok <==> tick_in_range(tick as int),
            r matches Ok(x) ==> x.value() == sqrt_ratio_at_tick_spec(tick as int),
            r matches Err(e) ==> e == AmmError::TickOutOfBounds,
    {
        if tick < MIN_TICK || tick > MAX_TICK {
            return Err(AmmError::TickOutOfBounds);
        }
        let abs: u32 = if tick < 0 {
            (-(tick as i64)) as u32
        } else {
            tick as u32
        };
        assert(abs == abs_tick(tick as int));
        let ratio = U256 { l0: 0, l1: 0, l2: 1, l3: 0 };
        proof {
            vstd::arithmetic::div_mod::lemma_div_multiples_vanish(
                tick_factor(0) as int,
                base128() as int,
            );
        }
        let ratio = Self::apply_factor(ratio, abs, 0, 0x1, U256::from_parts(0xaa2d162d1a594001, 0xfffcb933bd6fad37));
        let ratio = Self::apply_factor(ratio, abs, 1, 0x2, U256::from_parts(0x59a46990580e213a, 0xfff97272373d4132));
        let ratio = Self::apply_factor(ratio, abs, 2, 0x4, U256::from_parts(0xef12357cf3c7fdcc, 0xfff2e50f5f656932));
        let ratio = Self::apply_factor(ratio, abs, 3, 0x8, U256::from_parts(0x1c3624eaa0941cd0, 0xffe5caca7e10e4e6));
        let ratio = Self::apply_factor(ratio, abs, 4, 0x10, U256::from_parts(0xc9db58835c926644, 0xffcb9843d60f6159));
        let ratio = Self::apply_factor(ratio, abs, 5, 0x20, U256::from_parts(0x472e6896dfb254c0, 0xff973b41fa98c081));
        let ratio = Self::apply_factor(ratio, abs, 6, 0x40, U256::from_parts(0x43ec78b326b52861, 0xff2ea16466c96a38));
        let ratio = Self::apply_factor(ratio, abs, 7, 0x80, U256::from_parts(0x11c461f1969c3053, 0xfe5dee046a99a2a8));
        let ratio = Self::apply_factor(ratio, abs, 8, 0x100, U256::from_parts(0xdcffc83b479aa3a4, 0xfcbe86c7900a88ae));
        let ratio = Self::apply_factor(ratio, abs, 9, 0x200, U256::from_parts(0x6f2b074cf7815e54, 0xf987a7253ac41317));
        let ratio = Self::apply_factor(ratio, abs, 10, 0x400, U256::from_parts(0x940c7a398e4b70f3, 0xf3392b0822b70005));
        let ratio = Self::apply_factor(ratio, abs, 11, 0x800, U256::from_parts(0x43b29c7fa6e889d9, 0xe7159475a2c29b74));
        let ratio = Self::apply_factor(ratio, abs, 12, 0x1000, U256::from_parts(0x845ad8f792aa5825, 0xd097f3bdfd2022b8));
        let ratio = Self::apply_factor(ratio, abs, 13, 0x2000, U256::from_parts(0x8a65dc1f90e061e5, 0xa9f746462d870fdf));
        let ratio = Self::apply_factor(ratio, abs, 14, 0x4000, U256::from_parts(0x90bb3df62baf32f7, 0x70d869a156d2a1b8));
        let ratio = Self::apply_factor(ratio, abs, 15, 0x8000, U256::from_parts(0x81231505542fcfa6, 0x31be135f97d08fd9));
        let ratio = Self::apply_factor(ratio, abs, 16, 0x10000, U256::from_parts(0xc677de54f3e99bc9, 0x9aa508b5b7a84e1));
        let ratio = Self::apply_factor(ratio, abs, 17, 0x20000, U256::from_parts(0x6699c329225ee604, 0x5d6af8dedb8119));
        let ratio = Self::apply_factor(ratio, abs, 18, 0x40000, U256::from_parts(0x1ea926041bedfe98, 0x2216e584f5fa));
        let ratio = Self::apply_factor(ratio, abs, 19, 0x80000, U256::from_parts(0x91f7dc42444e8fa2, 0x48a1703));
        assert(ratio_lower_bound(20) > 0);
        let ratio = if tick > 0 {
            checked_div(&U256::max_value(), &ratio).unwrap()
        } else {
            ratio
        };
        proof {
            lemma_pow2_values();
            ratio.lemma_bounds();
        }
        let shifted = shr(&ratio, 32);
        let low_mask = U256::from_u64(0xffff_ffff);
        assert(pow2(32) == low_mask.value() + 1);
        let remainder = bitand(&ratio, &low_mask);
        if remainder.is_zero() {
            Ok(shifted)
        } else {
            proof {
                vstd::arithmetic::div_mod::lemma_div_is_ordered_by_denominator(
                    ratio.value() as int,
                    1,
                    pow2(32) as int,
                );
            }
            Ok(checked_add(&shifted, &U256::one()).unwrap())
        }
    }

    /// The greatest tick whose square-root price is at most `sqrt_price_x96`,
    /// found by binary search over `get_sqrt_ratio_at_tick`. Prices outside
    /// `[MIN_SQRT_RATIO, MAX_SQRT_RATIO)` are refused.
    pub fn get_tick_at_sqrt_ratio(sqrt_price_x96: U256) -> (r: Result<i32, AmmError>)
        ensures
            r is Ok <==> (MIN_SQRT_RATIO <= sqrt_price_x96.value() < max_sqrt_ratio_spec()),
            r matches Ok(t) ==> is_tick_of_price(t as int, sqrt_price_x96.value()) && t
                == tick_search(sqrt_price_x96.value(), MIN_TICK as int, MAX_TICK as int),
            r matches Err(e) ==> e == AmmError::PriceOutOfBounds,
    {
        if lt(&sqrt_price_x96, &U256::from_u64(MIN_SQRT_RATIO)) || !lt(
            &sqrt_price_x96,
            &max_sqrt_ratio(),
        ) {
            return Err(AmmError::PriceOutOfBounds);
        }
        let mut tick_low: i32 = MIN_TICK;
        let mut tick_high: i32 = MAX_TICK;
        while tick_low < tick_high
            invariant
                MIN_TICK <= tick_low <= tick_high <= MAX_TICK,
                tick_low == MIN_TICK || sqrt_ratio_at_tick_spec(tick_low as int)
                    <= sqrt_price_x96.value(),
                tick_high == MAX_TICK || sqrt_price_x96.value() < sqrt_ratio_at_tick_spec(
                    tick_high as int + 1,
                ),
                tick_search(sqrt_price_x96.value(), tick_low as int, tick_high as int)
                    == tick_search(sqrt_price_x96.value(), MIN_TICK as int, MAX_TICK as int),
            decreases tick_high - tick_low,
        {
            let tick_mid: i32 = crate::state::tick_bitmap::floor_div_i32(tick_low + tick_high + 1, 2);
            let sqrt_ratio = Self::get_sqrt_ratio_at_tick(tick_mid).unwrap();
            if !lt(&sqrt_price_x96, &sqrt_ratio) {
                tick_low = tick_mid;
            } else {
                tick_high = tick_mid - 1;
            }
        }
        Ok(tick_low)
    }
}

} // verus!
