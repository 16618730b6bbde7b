//! Multiply-then-divide at double width.
use crate::error::AmmError;
use crate::wide::{checked_add, checked_div512, checked_mul512, checked_rem512, modulus256, U256, U512};
use vstd::prelude::*;

verus! {

/// Multiply-divide helpers that keep the full 512-bit product.
pub struct FullMath;

/// The quotient rounded up.
pub open spec fn ceil_div(n: nat, d: nat) -> nat {
    if n % d == 0 {
        n / d
    } else {
        n / d + 1
    }
}

/// What `mul_div` returns on `a`, `b`, `d`.
pub open spec fn mul_div_result(a: nat, b: nat, d: nat) -> Result<nat, AmmError> {
    if d == 0 {
        Err(AmmError::DivisionByZero)
    } else if a * b / d >= modulus256() {
        Err(AmmError::Overflow)
    } else {
        Ok(a * b / d)
    }
}

/// What `mul_div_rounding_up` returns on `a`, `b`, `d`.
pub open spec fn mul_div_up_result(a: nat, b: nat, d: nat) -> Result<nat, AmmError> {
    if d == 0 {
        Err(AmmError::DivisionByZero)
    } else if ceil_div(a * b, d) >= modulus256() {
        Err(AmmError::Overflow)
    } else {
        Ok(ceil_div(a * b, d))
    }
}

/// Whether a result of the library's wide arithmetic is the given one.
pub open spec fn same_result(r: Result<U256, AmmError>, s: Result<nat, AmmError>) -> bool {
    match (r, s) {
        (Ok(x), Ok(y)) => x.value() == y,
        (Err(e), Err(f)) => e == f,
        _ => false,
    }
}

proof fn lemma_product_fits(a: nat, b: nat)
    requires
        a < modulus256(),
        b < modulus256(),
    ensures
        a * b < modulus256() * modulus256(),
{
    assert(a * b < modulus256() * modulus256()) by (nonlinear_arith)
        requires
            a < modulus256(),
            b < modulus256(),
    ;
}

impl FullMath {
    /// Zero-extends a 256-bit value to 512 bits.
    pub fn u256_to_u512(value: U256) -> (r: U512)
        ensures
            r.value() == value.value(),
    {
        value.widen()
    }

    /// The low 256 bits of a 512-bit value.
    pub fn u512_to_u256(value: U512) -> (r: U256)
        ensures
            r.value() == value.value() % modulus256(),
    {
        let r = U256 { l0: value.l0, l1: value.l1, l2: value.l2, l3: value.l3 };
        proof {
            r.lemma_bounds();
            vstd::arithmetic::div_mod::lemma_fundamental_div_mod_converse(
                value.value() as int,
                modulus256() as int,
                value.high_value() as int,
                r.value() as int,
            );
        }
        r
    }

    /// The full product `a * b` divided by `denominator`, rounded down.
    pub fn mul_div(a: U256, b: U256, denominator: U256) -> (r: Result<U256, AmmError>)
        ensures
            same_result(r, mul_div_result(a.value(), b.value(), denominator.value())),
    {
        if denominator.is_zero() {
            return Err(AmmError::DivisionByZero);
        }
        proof {
            a.lemma_bounds();
            b.lemma_bounds();
            lemma_product_fits(a.value(), b.value());
        }
        let product = match checked_mul512(&a.widen(), &b.widen()) {
            Some(p) => p,
            None => {
                return Err(AmmError::Overflow);
            },
        };
        let quotient = match checked_div512(&product, &denominator.widen()) {
            Some(q) => q,
            None => {
                return Err(AmmError::DivisionByZero);
            },
        };
        match quotient.narrow() {
            Some(q) => Ok(q),
            None => Err(AmmError::Overflow),
        }
    }

    /// The full product `a * b` divided by `denominator`, rounded up.
    pub fn mul_div_rounding_up(a: U256, b: U256, denominator: U256) -> (r: Result<
        U256,
        AmmError,
    >)
        ensures
            same_result(r, mul_div_up_result(a.value(), b.value(), denominator.value())),
    {
        let result = match Self::mul_div(a, b, denominator) {
            Ok(q) => q,
            Err(e) => {
                assert(ceil_div(a.value() * b.value(), denominator.value()) >= a.value()
                    * b.value() / denominator.value());
                return Err(e);
            },
        };
        let remainder = Self::mul_mod(a, b, denominator);
        if remainder.is_zero() {
            Ok(result)
        } else {
            match checked_add(&result, &U256::one()) {
                Some(x) => Ok(x),
                None => Err(AmmError::Overflow),
            }
        }
    }

    /// The remainder of the full product `a * b` divided by `denominator`.
    fn mul_mod(a: U256, b: U256, denominator: U256) -> (r: U256)
        requires
            denominator.value() != 0,
        ensures
            r.value() == (a.value() * b.value()) % denominator.value(),
    {
        proof {
            a.lemma_bounds();
            b.lemma_bounds();
            denominator.lemma_bounds();
            lemma_product_fits(a.value(), b.value());
        }
        let product = checked_mul512(&a.widen(), &b.widen()).unwrap();
        let rem = checked_rem512(&product, &denominator.widen()).unwrap();
        let r = Self::u512_to_u256(rem);
        proof {
            vstd::arithmetic::div_mod::lemma_small_mod(rem.value(), modulus256());
        }
        r
    }
}

} // verus!
