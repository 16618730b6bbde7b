//! Fixed-width unsigned integers of 256 and 512 bits.
//!
//! The library keeps its wide values as little-endian 64-bit limbs
//! and reads them through `value()`, a natural number. Arithmetic on them is
//! done by `casper_types`' `U256` and `U512`, which hold the same limbs.
use vstd::arithmetic::power2::pow2;
use vstd::prelude::*;

verus! {

/// 2^64.
pub open spec fn base64() -> nat {
    0x1_0000_0000_0000_0000
}

/// 2^128.
pub open spec fn base128() -> nat {
    base64() * base64()
}

/// 2^192.
pub open spec fn base192() -> nat {
    base128() * base64()
}

/// 2^256, one more than the largest `U256`.
pub open spec fn modulus256() -> nat {
    base128() * base128()
}

/// Whether bit `i` of `v` is set.
pub open spec fn bit_set(v: nat, i: nat) -> bool {
    (v / pow2(i)) % 2 == 1
}

/// An unsigned 256-bit integer, least significant limb first.
#[derive(Clone, Copy, Debug)]
pub struct U256 {
    pub l0: u64,
    pub l1: u64,
    pub l2: u64,
    pub l3: u64,
}

/// An unsigned 512-bit integer, least significant limb first.
#[derive(Clone, Copy, Debug)]
pub struct U512 {
    pub l0: u64,
    pub l1: u64,
    pub l2: u64,
    pub l3: u64,
    pub l4: u64,
    pub l5: u64,
    pub l6: u64,
    pub l7: u64,
}

/// 2^96, the unit of a Q64.96 price.
pub open spec fn q96() -> nat {
    0x1_0000_0000_0000_0000_0000_0000
}

/// The powers of two that the fixed-point formats use.
pub proof fn lemma_pow2_values()
    ensures
        pow2(32) == 0x1_0000_0000,
        pow2(64) == base64(),
        pow2(96) == q96(),
        pow2(128) == base128(),
        pow2(256) == modulus256(),
{
    vstd::arithmetic::power2::lemma2_to64();
    vstd::arithmetic::power2::lemma2_to64_rest();
    vstd::arithmetic::power2::lemma_pow2_adds(64, 32);
    vstd::arithmetic::power2::lemma_pow2_adds(64, 64);
    vstd::arithmetic::power2::lemma_pow2_adds(128, 128);
}

/// The value of four limbs is below 2^256 and is zero only when every limb is.
pub proof fn lemma_limbs4(l0: u64, l1: u64, l2: u64, l3: u64)
    ensures
        l0 as nat + l1 as nat * base64() + l2 as nat * base128() + l3 as nat * base192()
            < modulus256(),
        l0 as nat + l1 as nat * base64() + l2 as nat * base128() + l3 as nat * base192() == 0
            <==> (l0 == 0 && l1 == 0 && l2 == 0 && l3 == 0),
{
    let b = base64();
    assert(base128() == b * b);
    assert(base192() == b * b * b);
    assert(modulus256() == b * b * b * b) by (nonlinear_arith)
        requires
            modulus256() == base128() * base128(),
            base128() == b * b,
    ;
    assert(l0 as nat + l1 as nat * b + l2 as nat * (b * b) + l3 as nat * (b * b * b) < b * b * b
        * b) by (nonlinear_arith)
        requires
            l0 < b,
            l1 < b,
            l2 < b,
            l3 < b,
            b > 0,
    ;
    assert(l0 as nat + l1 as nat * b + l2 as nat * (b * b) + l3 as nat * (b * b * b) == 0 ==> (l0
        == 0 && l1 == 0 && l2 == 0 && l3 == 0)) by (nonlinear_arith)
        requires
            b > 0,
    ;
}

impl U256 {
    pub proof fn lemma_bounds(&self)
        ensures
            self.value() < modulus256(),
            self.value() == 0 <==> (self.l0 == 0 && self.l1 == 0 && self.l2 == 0 && self.l3 == 0),
    {
        lemma_limbs4(self.l0, self.l1, self.l2, self.l3);
    }

    pub open spec fn value(&self) -> nat {
        self.l0 as nat + self.l1 as nat * base64() + self.l2 as nat
            * base128() + self.l3 as nat * base192()
    }

    pub fn zero() -> (r: U256)
        ensures
            r.value() == 0,
    {
        U256 { l0: 0, l1: 0, l2: 0, l3: 0 }
    }

    pub fn one() -> (r: U256)
        ensures
            r.value() == 1,
    {
        U256 { l0: 1, l1: 0, l2: 0, l3: 0 }
    }

    /// The largest value, 2^256 - 1.
    pub fn max_value() -> (r: U256)
        ensures
            r.value() == modulus256() - 1,
    {
        let m: u64 = 0xffff_ffff_ffff_ffff;
        U256 { l0: m, l1: m, l2: m, l3: m }
    }

    /// The value `lo + hi * 2^64`.
    pub fn from_parts(lo: u64, hi: u64) -> (r: U256)
        ensures
            r.value() == lo as nat + hi as nat * base64(),
    {
        U256 { l0: lo, l1: hi, l2: 0, l3: 0 }
    }

    /// 2^96.
    pub fn q96() -> (r: U256)
        ensures
            r.value() == q96(),
    {
        U256 { l0: 0, l1: 0x1_0000_0000, l2: 0, l3: 0 }
    }

    /// The same number as a 256-bit value.
    pub fn from_u128(x: u128) -> (r: U256)
        ensures
            r.value() == x,
    {
        from_u128(x)
    }

    /// The low 128 bits.
    pub fn low_u128(&self) -> (r: u128)
        ensures
            r == self.value() % base128(),
    {
        low_u128(self)
    }

    pub fn less_than(&self, other: &U256) -> (r: bool)
        ensures
            r == (self.value() < other.value()),
    {
        lt(self, other)
    }

    /// The sum, when it stays below 2^256.
    pub fn checked_add(&self, other: &U256) -> (r: Option<U256>)
        ensures
            r is Some <==> self.value() + other.value() < modulus256(),
            r matches Some(x) ==> x.value() == self.value() + other.value(),
    {
        checked_add(self, other)
    }

    /// The difference modulo 2^256.
    pub fn wrapping_sub(&self, other: &U256) -> (r: U256)
        ensures
            r.value() == ((self.value() + modulus256() - other.value()) as nat) % modulus256(),
    {
        wrapping_sub(self, other)
    }

    pub fn is_zero(&self) -> (r: bool)
        ensures
            r == (self.value() == 0),
    {
        proof {
            self.lemma_bounds();
        }
        self.l0 == 0 && self.l1 == 0 && self.l2 == 0 && self.l3 == 0
    }

    pub fn equals(&self, other: &U256) -> (r: bool)
        ensures
            r == (self.value() == other.value()),
    {
        !lt(self, other) && !lt(other, self)
    }

    pub fn from_u64(x: u64) -> (r: U256)
        ensures
            r.value() == x,
    {
        U256 { l0: x, l1: 0, l2: 0, l3: 0 }
    }

    /// Zero-extends to 512 bits.
    pub fn widen(&self) -> (r: U512)
        ensures
            r.value() == self.value(),
    {
        let r = U512 {
            l0: self.l0,
            l1: self.l1,
            l2: self.l2,
            l3: self.l3,
            l4: 0,
            l5: 0,
            l6: 0,
            l7: 0,
        };
        assert(r.high_value() == 0);
        assert(r.high_value() * modulus256() == 0);
        r
    }
}

impl PartialEq for U256 {
    fn eq(&self, other: &U256) -> (r: bool) {
        self.equals(other)
    }
}

impl vstd::std_specs::cmp::PartialEqSpecImpl for U256 {
    open spec fn obeys_eq_spec() -> bool {
        true
    }

    open spec fn eq_spec(&self, other: &U256) -> bool {
        self.value() == other.value()
    }
}

impl U512 {
    pub open spec fn value(&self) -> nat {
        self.low_value() + self.high_value() * modulus256()
    }

    pub open spec fn low_value(&self) -> nat {
        self.l0 as nat + self.l1 as nat * base64() + self.l2 as nat
            * base128() + self.l3 as nat * base192()
    }

    pub open spec fn high_value(&self) -> nat {
        self.l4 as nat + self.l5 as nat * base64() + self.l6 as nat
            * base128() + self.l7 as nat * base192()
    }

    /// The value, when it fits in 256 bits.
    pub fn narrow(&self) -> (r: Option<U256>)
        ensures
            r is Some <==> self.value() < modulus256(),
            r matches Some(x) ==> x.value() == self.value(),
    {
        proof {
            lemma_limbs4(self.l0, self.l1, self.l2, self.l3);
            lemma_limbs4(self.l4, self.l5, self.l6, self.l7);
        }
        if self.l4 == 0 && self.l5 == 0 && self.l6 == 0 && self.l7 == 0 {
            assert(self.high_value() * modulus256() == 0);
            Some(U256 { l0: self.l0, l1: self.l1, l2: self.l2, l3: self.l3 })
        } else {
            assert(self.value() >= modulus256()) by (nonlinear_arith)
                requires
                    self.value() == self.low_value() + self.high_value() * modulus256(),
                    self.high_value() >= 1,
            ;
            None
        }
    }
}

/// Relies on `From<u128>` for casper_types' `U256`: the same number.
#[verifier::external_body]
pub(crate) fn from_u128(x: u128) -> (r: U256)
    ensures
        r.value() == x,
{
    let z = casper_types::U256::from(x);
    U256 { l0: z.0[0], l1: z.0[1], l2: z.0[2], l3: z.0[3] }
}

/// Relies on `U256::low_u128`: the low 128 bits.
#[verifier::external_body]
pub(crate) fn low_u128(a: &U256) -> (r: u128)
    ensures
        r == a.value() % base128(),
{
    casper_types::U256([a.l0, a.l1, a.l2, a.l3]).low_u128()
}

/// Relies on `Ord` for `U256`, which compares limbs from the most significant.
#[verifier::external_body]
pub(crate) fn lt(a: &U256, b: &U256) -> (r: bool)
    ensures
        r == (a.value() < b.value()),
{
    casper_types::U256([a.l0, a.l1, a.l2, a.l3]) < casper_types::U256([b.l0, b.l1, b.l2, b.l3])
}

/// Relies on `U256::checked_add`: `None` exactly when the sum reaches 2^256.
#[verifier::external_body]
pub(crate) fn checked_add(a: &U256, b: &U256) -> (r: Option<U256>)
    ensures
        r is Some <==> a.value() + b.value() < modulus256(),
        r matches Some(x) ==> x.value() == a.value() + b.value(),
{
    match casper_types::U256([a.l0, a.l1, a.l2, a.l3]).checked_add(casper_types::U256([b.l0, b.l1, b.l2, b.l3])) {
        Some(z) => Some(U256 { l0: z.0[0], l1: z.0[1], l2: z.0[2], l3: z.0[3] }),
        None => None,
    }
}

/// Relies on `U256::checked_sub`: `None` exactly when `b > a`.
#[verifier::external_body]
pub(crate) fn checked_sub(a: &U256, b: &U256) -> (r: Option<U256>)
    ensures
        r is Some <==> b.value() <= a.value(),
        r matches Some(x) ==> x.value() == (a.value() - b.value()) as nat,
{
    match casper_types::U256([a.l0, a.l1, a.l2, a.l3]).checked_sub(casper_types::U256([b.l0, b.l1, b.l2, b.l3])) {
        Some(z) => Some(U256 { l0: z.0[0], l1: z.0[1], l2: z.0[2], l3: z.0[3] }),
        None => None,
    }
}

/// Relies on `U256::overflowing_add`: the sum modulo 2^256.
#[verifier::external_body]
pub(crate) fn wrapping_add(a: &U256, b: &U256) -> (r: U256)
    ensures
        r.value() == (a.value() + b.value()) % modulus256(),
{
    let z = casper_types::U256([a.l0, a.l1, a.l2, a.l3]).overflowing_add(casper_types::U256([b.l0, b.l1, b.l2, b.l3])).0;
    U256 { l0: z.0[0], l1: z.0[1], l2: z.0[2], l3: z.0[3] }
}

/// Relies on `U256::overflowing_sub`: the difference modulo 2^256.
#[verifier::external_body]
pub(crate) fn wrapping_sub(a: &U256, b: &U256) -> (r: U256)
    ensures
        r.value() == ((a.value() + modulus256() - b.value()) as nat) % modulus256(),
{
    let z = casper_types::U256([a.l0, a.l1, a.l2, a.l3]).overflowing_sub(casper_types::U256([b.l0, b.l1, b.l2, b.l3])).0;
    U256 { l0: z.0[0], l1: z.0[1], l2: z.0[2], l3: z.0[3] }
}

/// Relies on `U256::checked_mul`: `None` exactly when the product reaches 2^256.
#[verifier::external_body]
pub(crate) fn checked_mul(a: &U256, b: &U256) -> (r: Option<U256>)
    ensures
        r is Some <==> a.value() * b.value() < modulus256(),
        r matches Some(x) ==> x.value() == a.value() * b.value(),
{
    match casper_types::U256([a.l0, a.l1, a.l2, a.l3]).checked_mul(casper_types::U256([b.l0, b.l1, b.l2, b.l3])) {
        Some(z) => Some(U256 { l0: z.0[0], l1: z.0[1], l2: z.0[2], l3: z.0[3] }),
        None => None,
    }
}

/// Relies on `U256::checked_div`: `None` exactly when `b` is zero, else the floor.
#[verifier::external_body]
pub(crate) fn checked_div(a: &U256, b: &U256) -> (r: Option<U256>)
    ensures
        r is Some <==> b.value() != 0,
        r matches Some(x) ==> x.value() == a.value() / b.value(),
{
    match casper_types::U256([a.l0, a.l1, a.l2, a.l3]).checked_div(casper_types::U256([b.l0, b.l1, b.l2, b.l3])) {
        Some(z) => Some(U256 { l0: z.0[0], l1: z.0[1], l2: z.0[2], l3: z.0[3] }),
        None => None,
    }
}

/// Relies on `Shl<u32>` for `U256`: bits shifted past the top are dropped.
#[verifier::external_body]
pub(crate) fn shl(a: &U256, n: u32) -> (r: U256)
    requires
        n < 256,
    ensures
        r.value() == (a.value() * pow2(n as nat)) % modulus256(),
{
    let z = casper_types::U256([a.l0, a.l1, a.l2, a.l3]) << n;
    U256 { l0: z.0[0], l1: z.0[1], l2: z.0[2], l3: z.0[3] }
}

/// Relies on `Shr<u32>` for `U256`: the floor of the quotient by 2^n.
#[verifier::external_body]
pub(crate) fn shr(a: &U256, n: u32) -> (r: U256)
    requires
        n < 256,
    ensures
        r.value() == a.value() / pow2(n as nat),
{
    let z = casper_types::U256([a.l0, a.l1, a.l2, a.l3]) >> n;
    U256 { l0: z.0[0], l1: z.0[1], l2: z.0[2], l3: z.0[3] }
}

/// Relies on `BitAnd` for `U256`, limb by limb. With a mask of the low `k`
/// bits the result is the value modulo 2^k; with a mask of the bits from `k`
/// up it is the value with its low `k` bits cleared.
#[verifier::external_body]
pub(crate) fn bitand(a: &U256, m: &U256) -> (r: U256)
    ensures
        forall|k: nat|
            k <= 256 && #[trigger] pow2(k) == m.value() + 1 ==> r.value() == a.value() % pow2(k),
        forall|k: nat|
            k <= 256 && m.value() + #[trigger] pow2(k) == modulus256() ==> r.value() == (a.value()
                / pow2(k)) * pow2(k),
{
    let z = casper_types::U256([a.l0, a.l1, a.l2, a.l3]) & casper_types::U256([m.l0, m.l1, m.l2, m.l3]);
    U256 { l0: z.0[0], l1: z.0[1], l2: z.0[2], l3: z.0[3] }
}

/// Relies on `BitXor` for `U256`, limb by limb. With a mask of a single bit
/// `k` the result has that bit flipped.
#[verifier::external_body]
pub(crate) fn bitxor(a: &U256, m: &U256) -> (r: U256)
    ensures
        forall|k: nat|
            k < 256 && #[trigger] pow2(k) == m.value() ==> r.value() == if bit_set(a.value(), k) {
                (a.value() - pow2(k)) as nat
            } else {
                a.value() + pow2(k)
            },
{
    let z = casper_types::U256([a.l0, a.l1, a.l2, a.l3]) ^ casper_types::U256([m.l0, m.l1, m.l2, m.l3]);
    U256 { l0: z.0[0], l1: z.0[1], l2: z.0[2], l3: z.0[3] }
}

/// Relies on `U512::checked_mul`: `None` exactly when the product reaches 2^512.
#[verifier::external_body]
pub(crate) fn checked_mul512(a: &U512, b: &U512) -> (r: Option<U512>)
    ensures
        r is Some <==> a.value() * b.value() < modulus256() * modulus256(),
        r matches Some(x) ==> x.value() == a.value() * b.value(),
{
    match casper_types::U512([a.l0, a.l1, a.l2, a.l3, a.l4, a.l5, a.l6, a.l7]).checked_mul(casper_types::U512([b.l0, b.l1, b.l2, b.l3, b.l4, b.l5, b.l6, b.l7])) {
        Some(z) => Some(U512 {
            l0: z.0[0],
            l1: z.0[1],
            l2: z.0[2],
            l3: z.0[3],
            l4: z.0[4],
            l5: z.0[5],
            l6: z.0[6],
            l7: z.0[7],
        }),
        None => None,
    }
}

/// Relies on `U512::checked_div`: `None` exactly when `b` is zero, else the floor.
#[verifier::external_body]
pub(crate) fn checked_div512(a: &U512, b: &U512) -> (r: Option<U512>)
    ensures
        r is Some <==> b.value() != 0,
        r matches Some(x) ==> x.value() == a.value() / b.value(),
{
    match casper_types::U512([a.l0, a.l1, a.l2, a.l3, a.l4, a.l5, a.l6, a.l7]).checked_div(casper_types::U512([b.l0, b.l1, b.l2, b.l3, b.l4, b.l5, b.l6, b.l7])) {
        Some(z) => Some(U512 {
            l0: z.0[0],
            l1: z.0[1],
            l2: z.0[2],
            l3: z.0[3],
            l4: z.0[4],
            l5: z.0[5],
            l6: z.0[6],
            l7: z.0[7],
        }),
        None => None,
    }
}

/// Relies on `U512::checked_rem`: `None` exactly when `b` is zero, else the remainder.
#[verifier::external_body]
pub(crate) fn checked_rem512(a: &U512, b: &U512) -> (r: Option<U512>)
    ensures
        r is Some <==> b.value() != 0,
        r matches Some(x) ==> x.value() == a.value() % b.value(),
{
    match casper_types::U512([a.l0, a.l1, a.l2, a.l3, a.l4, a.l5, a.l6, a.l7]).checked_rem(casper_types::U512([b.l0, b.l1, b.l2, b.l3, b.l4, b.l5, b.l6, b.l7])) {
        Some(z) => Some(U512 {
            l0: z.0[0],
            l1: z.0[1],
            l2: z.0[2],
            l3: z.0[3],
            l4: z.0[4],
            l5: z.0[5],
            l6: z.0[6],
            l7: z.0[7],
        }),
        None => None,
    }
}

} // verus!
