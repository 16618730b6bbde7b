//! A sparse bitmap over compressed ticks, one 256-bit word per key.
use crate::constants::{MAX_TICK, MAX_TICK_SPACING, MIN_TICK};
use crate::error::AmmError;
use crate::wide::{bit_set, bitand, bitxor, checked_sub, lemma_pow2_values, lt, modulus256, shl, shr, U256};
use std::collections::HashMap;
use vstd::arithmetic::div_mod::{lemma_div_denominator, lemma_fundamental_div_mod, lemma_multiply_divide_lt};
use vstd::arithmetic::power2::{lemma_pow2_adds, lemma_pow2_pos, pow2};
use vstd::prelude::*;

verus! {

broadcast use vstd::std_specs::hash::group_hash_axioms;

/// The word and bit of a compressed tick: `tick / 256` rounded down, and the
/// remainder in `0..256`.
pub open spec fn word_of(tick: int) -> int {
    tick / 256
}

pub open spec fn bit_of(tick: int) -> int {
    tick % 256
}

/// `a / b` rounded down, for a positive `b`.
pub open spec fn floor_div(a: int, b: int) -> int {
    a / b
}

/// `a / b` rounded down, for a positive `b`.
pub fn floor_div_i32(a: i32, b: i32) -> (r: i32)
    requires
        b > 0,
    ensures
        r == floor_div(a as int, b as int),
{
    if a >= 0 {
        a / b
    } else {
        let q = (-(a as i64) - 1) / (b as i64);
        proof {
            let n = -(a as int) - 1;
            lemma_fundamental_div_mod(n, b as int);
            lemma_fundamental_div_mod(a as int, b as int);
            assert(a as int / b as int == -q - 1) by (nonlinear_arith)
                requires
                    n == -(a as int) - 1,
                    n == b * q + n % (b as int),
                    0 <= n % (b as int) < b,
                    a as int == b * (a as int / b as int) + (a as int) % (b as int),
                    0 <= (a as int) % (b as int) < b,
                    b > 0,
            ;
        }
        (-q - 1) as i32
    }
}

/// The position of the least significant set bit of a nonzero value.
pub open spec fn is_lowest_bit(x: nat, m: nat) -> bool {
    &&& m < 256
    &&& x % pow2(m) == 0
    &&& bit_set(x, m)
}

/// The position of the most significant set bit of a nonzero value.
pub open spec fn is_highest_bit(x: nat, m: nat) -> bool {
    &&& m < 256
    &&& pow2(m) <= x < pow2(m + 1)
}

/// Which compressed ticks are initialized, 256 to a word; absent words are zero.
pub struct TickBitmap {
    pub words: HashMap<i32, U256>,
}

proof fn lemma_div_pow2_twice(x: nat, a: nat, b: nat)
    ensures
        x / pow2(a) / pow2(b) == x / pow2(a + b),
{
    lemma_pow2_pos(a);
    lemma_pow2_pos(b);
    lemma_pow2_adds(a, b);
    lemma_div_denominator(x as int, pow2(a) as int, pow2(b) as int);
}

/// A multiple of 2^b has no set bit below b.
proof fn lemma_no_bit_below(v: nat, b: nat, m: nat)
    requires
        m < b,
    ensures
        !bit_set((v / pow2(b)) * pow2(b), m),
{
    let q = v / pow2(b);
    let d = (b - m) as nat;
    lemma_pow2_adds(m, d);
    lemma_pow2_pos(m);
    lemma_pow2_pos(d);
    assert(d >= 1);
    vstd::arithmetic::power2::lemma_pow2_unfold(d);
    let e = pow2((d - 1) as nat);
    assert(q * pow2(b) == (q * 2 * e) * pow2(m)) by (nonlinear_arith)
        requires
            pow2(b) == pow2(m) * pow2(d),
            pow2(d) == 2 * e,
    ;
    let k = q * e;
    assert(q * 2 * e == k * 2) by (nonlinear_arith)
        requires
            k == q * e,
    ;
    vstd::arithmetic::div_mod::lemma_div_multiples_vanish((k * 2) as int, pow2(m) as int);
    assert((v / pow2(b)) * pow2(b) == pow2(m) * (k * 2));
    assert((v / pow2(b)) * pow2(b) / pow2(m) == k * 2);
    vstd::arithmetic::div_mod::lemma_mod_multiples_basic(k as int, 2);
    assert((k * 2) % 2 == 0);
}

/// Below bit `k`, a value and its remainder modulo 2^k have the same bits.
proof fn lemma_bit_of_low_part(v: nat, k: nat, m: nat)
    requires
        m < k,
    ensures
        bit_set(v % pow2(k), m) == bit_set(v, m),
{
    let d = (k - m) as nat;
    lemma_pow2_adds(m, d);
    lemma_pow2_pos(m);
    lemma_pow2_pos(k);
    vstd::arithmetic::power2::lemma_pow2_unfold(d);
    let e = pow2((d - 1) as nat);
    let q = v / pow2(k);
    let r = v % pow2(k);
    lemma_fundamental_div_mod(v as int, pow2(k) as int);
    let a = r / pow2(m);
    let c = r % pow2(m);
    lemma_fundamental_div_mod(r as int, pow2(m) as int);
    vstd::arithmetic::div_mod::lemma_mod_bound(r as int, pow2(m) as int);
    assert(v == pow2(m) * (2 * (q * e) + a) + c) by (nonlinear_arith)
        requires
            v == pow2(k) * q + r,
            r == pow2(m) * a + c,
            pow2(k) == pow2(m) * pow2(d),
            pow2(d) == 2 * e,
    ;
    vstd::arithmetic::div_mod::lemma_fundamental_div_mod_converse(
        v as int,
        pow2(m) as int,
        (2 * (q * e) + a) as int,
        c as int,
    );
    vstd::arithmetic::div_mod::lemma_mod_multiples_vanish((q * e) as int, a as int, 2);
}

/// From bit `b` up, a value and the value with its low `b` bits cleared have
/// the same bits.
proof fn lemma_bit_of_high_part(v: nat, b: nat, m: nat)
    requires
        b <= m,
    ensures
        bit_set((v / pow2(b)) * pow2(b), m) == bit_set(v, m),
{
    let d = (m - b) as nat;
    lemma_pow2_adds(b, d);
    lemma_pow2_pos(b);
    lemma_pow2_pos(d);
    let w = (v / pow2(b)) * pow2(b);
    vstd::arithmetic::div_mod::lemma_div_multiples_vanish((v / pow2(b)) as int, pow2(b) as int);
    lemma_div_denominator(w as int, pow2(b) as int, pow2(d) as int);
    lemma_div_denominator(v as int, pow2(b) as int, pow2(d) as int);
}

/// The highest set bit of a value is set.
proof fn lemma_highest_bit_is_set(x: nat, m: nat)
    requires
        pow2(m) <= x < pow2(m + 1),
    ensures
        bit_set(x, m),
{
    lemma_pow2_pos(m);
    vstd::arithmetic::power2::lemma_pow2_unfold(m + 1);
    vstd::arithmetic::div_mod::lemma_fundamental_div_mod_converse(
        x as int,
        pow2(m) as int,
        1,
        (x - pow2(m)) as int,
    );
}

/// The compressed tick `(start - b + m)`, for the word start `start - b` and a
/// bit `m`, lies in the word of `start` at bit `m`.
proof fn lemma_word_and_bit(start: int, m: int)
    requires
        0 <= m < 256,
    ensures
        word_of(start - bit_of(start) + m) == word_of(start),
        bit_of(start - bit_of(start) + m) == m,
{
    lemma_fundamental_div_mod(start, 256);
    vstd::arithmetic::div_mod::lemma_fundamental_div_mod_converse(
        start - bit_of(start) + m,
        256,
        word_of(start),
        m,
    );
}

/// Adding or taking away 2^b to flip bit `b` leaves every other bit as it was.
pub proof fn lemma_flip_bit(v: nat, b: nat, i: nat)
    ensures
        bit_set(
            if bit_set(v, b) {
                (v - pow2(b)) as nat
            } else {
                v + pow2(b)
            },
            i,
        ) == if i == b {
            !bit_set(v, b)
        } else {
            bit_set(v, i)
        },
{
    let w = if bit_set(v, b) {
        (v - pow2(b)) as nat
    } else {
        v + pow2(b)
    };
    lemma_pow2_pos(b);
    lemma_pow2_pos(b + 1);
    vstd::arithmetic::power2::lemma_pow2_unfold(b + 1);
    let hi = v / pow2(b + 1);
    let rest = v % pow2(b + 1);
    lemma_fundamental_div_mod(v as int, pow2(b + 1) as int);
    let bit = rest / pow2(b);
    let lo = rest % pow2(b);
    lemma_fundamental_div_mod(rest as int, pow2(b) as int);
    vstd::arithmetic::div_mod::lemma_mod_bound(rest as int, pow2(b + 1) as int);
    vstd::arithmetic::div_mod::lemma_mod_bound(rest as int, pow2(b) as int);
    assert(bit < 2) by (nonlinear_arith)
        requires
            rest == pow2(b) * bit + lo,
            rest < pow2(b + 1),
            pow2(b + 1) == 2 * pow2(b),
            lo >= 0,
            pow2(b) > 0,
    ;
    // v = hi * 2^(b+1) + bit * 2^b + lo, so bit b of v is `bit`.
    assert(v == pow2(b) * (2 * hi + bit) + lo) by (nonlinear_arith)
        requires
            v == pow2(b + 1) * hi + rest,
            rest == pow2(b) * bit + lo,
            pow2(b + 1) == 2 * pow2(b),
    ;
    vstd::arithmetic::div_mod::lemma_fundamental_div_mod_converse(
        v as int,
        pow2(b) as int,
        (2 * hi + bit) as int,
        lo as int,
    );
    vstd::arithmetic::div_mod::lemma_mod_multiples_vanish(hi as int, bit as int, 2);
    assert(bit_set(v, b) == (bit == 1));
    let nbit: nat = if bit == 1 {
        0
    } else {
        1
    };
    assert(w == pow2(b) * (2 * hi + nbit) + lo) by (nonlinear_arith)
        requires
            v == pow2(b) * (2 * hi + bit) + lo,
            bit == 1 ==> w == v - pow2(b) && nbit == 0,
            bit != 1 ==> w == v + pow2(b) && nbit == 1,
            bit < 2,
    ;
    vstd::arithmetic::div_mod::lemma_fundamental_div_mod_converse(
        w as int,
        pow2(b) as int,
        (2 * hi + nbit) as int,
        lo as int,
    );
    vstd::arithmetic::div_mod::lemma_mod_multiples_vanish(hi as int, nbit as int, 2);
    if i < b {
        // Both share the low part `lo`.
        vstd::arithmetic::div_mod::lemma_fundamental_div_mod_converse(
            v as int,
            pow2(b) as int,
            (2 * hi + bit) as int,
            lo as int,
        );
        lemma_bit_of_low_part(v, b, i);
        lemma_bit_of_low_part(w, b, i);
    } else if i > b {
        // Both share the high part `hi`.
        let d = (i - (b + 1)) as nat;
        lemma_pow2_adds(b + 1, d);
        lemma_pow2_pos(d);
        assert(v == pow2(b + 1) * hi + (pow2(b) * bit + lo)) by (nonlinear_arith)
            requires
                v == pow2(b) * (2 * hi + bit) + lo,
                pow2(b + 1) == 2 * pow2(b),
        ;
        assert(w == pow2(b + 1) * hi + (pow2(b) * nbit + lo)) by (nonlinear_arith)
            requires
                w == pow2(b) * (2 * hi + nbit) + lo,
                pow2(b + 1) == 2 * pow2(b),
        ;
        assert(pow2(b) * nbit + lo < pow2(b + 1)) by (nonlinear_arith)
            requires
                nbit <= 1,
                lo < pow2(b),
                pow2(b + 1) == 2 * pow2(b),
        ;
        vstd::arithmetic::div_mod::lemma_fundamental_div_mod_converse(
            v as int,
            pow2(b + 1) as int,
            hi as int,
            (pow2(b) * bit + lo) as int,
        );
        vstd::arithmetic::div_mod::lemma_fundamental_div_mod_converse(
            w as int,
            pow2(b + 1) as int,
            hi as int,
            (pow2(b) * nbit + lo) as int,
        );
        lemma_div_denominator(v as int, pow2(b + 1) as int, pow2(d) as int);
        lemma_div_denominator(w as int, pow2(b + 1) as int, pow2(d) as int);
    }
}

impl TickBitmap {
    /// The word stored under `w`, zero when absent.
    pub open spec fn word_value(&self, w: int) -> nat {
        if w >= i32::MIN && w <= i32::MAX && self.words@.contains_key(w as i32) {
            self.words@[w as i32].value()
        } else {
            0
        }
    }

    /// Whether the compressed tick `c` is marked.
    pub open spec fn is_marked(&self, c: int) -> bool {
        bit_set(self.word_value(word_of(c)), bit_of(c) as nat)
    }

    pub fn new() -> (r: TickBitmap)
        ensures
            forall|w: int| #[trigger] r.word_value(w) == 0,
    {
        TickBitmap { words: HashMap::new() }
    }

    /// The word and bit of a compressed tick.
    pub fn position(tick: i32) -> (r: (i32, u8))
        ensures
            r.0 == word_of(tick as int),
            r.1 == bit_of(tick as int),
    {
        let word = floor_div_i32(tick, 256);
        proof {
            lemma_fundamental_div_mod(tick as int, 256);
        }
        let bit = (tick as i64 - word as i64 * 256) as u8;
        (word, bit)
    }

    /// The word stored under `word_pos`, zero when absent.
    pub fn get_word(&self, word_pos: i32) -> (r: U256)
        ensures
            r.value() == self.word_value(word_pos as int),
    {
        match self.words.get(&word_pos) {
            Some(w) => *w,
            None => U256::zero(),
        }
    }

    /// Flips the mark of `tick`, which must be a multiple of `tick_spacing`.
    pub fn flip_tick(&mut self, tick: i32, tick_spacing: i32) -> (r: Result<(), AmmError>)
        requires
            tick_spacing > 0,
        ensures
            (tick as int) % (tick_spacing as int) != 0 ==> r == Err::<(), AmmError>(
                AmmError::MisalignedTick,
            ) && final(self).words@ == old(self).words@,
            (tick as int) % (tick_spacing as int) == 0 ==> {
                let c = tick as int / tick_spacing as int;
                let w = word_of(c);
                let b = bit_of(c) as nat;
                let v = old(self).word_value(w);
                &&& r is Ok
                &&& final(self).word_value(w) == if bit_set(v, b) {
                    (v - pow2(b)) as nat
                } else {
                    v + pow2(b)
                }
                &&& forall|w2: int| w2 != w ==> #[trigger] final(self).word_value(w2) == old(
                    self,
                ).word_value(w2)
                &&& forall|c2: int| #[trigger]
                    final(self).is_marked(c2) == if c2 == c {
                        !old(self).is_marked(c2)
                    } else {
                        old(self).is_marked(c2)
                    }
            },
    {
        let compressed = floor_div_i32(tick, tick_spacing);
        assert(-0x4000_0000_0000_0000 <= compressed as int * tick_spacing as int
            <= 0x4000_0000_0000_0000) by (nonlinear_arith)
            requires
                i32::MIN <= compressed <= i32::MAX,
                0 < tick_spacing <= i32::MAX,
        ;
        if compressed as i64 * tick_spacing as i64 != tick as i64 {
            proof {
                lemma_fundamental_div_mod(tick as int, tick_spacing as int);
            }
            return Err(AmmError::MisalignedTick);
        }
        proof {
            lemma_fundamental_div_mod(tick as int, tick_spacing as int);
            assert((tick as int) % (tick_spacing as int) == 0) by (nonlinear_arith)
                requires
                    tick as int == tick_spacing * (tick as int / tick_spacing as int) + (tick as int)
                        % (tick_spacing as int),
                    compressed as int * tick_spacing as int == tick as int,
                    compressed as int == tick as int / tick_spacing as int,
                    0 <= (tick as int) % (tick_spacing as int) < tick_spacing,
            ;
        }
        let (word_pos, bit_pos) = Self::position(compressed);
        proof {
            lemma_pow2_values();
            vstd::arithmetic::power2::lemma_pow2_strictly_increases(bit_pos as nat, 256);
            vstd::arithmetic::div_mod::lemma_small_mod(pow2(bit_pos as nat), modulus256());
        }
        let mask = shl(&U256::one(), bit_pos as u32);
        let word = self.get_word(word_pos);
        let flipped = bitxor(&word, &mask);
        self.words.insert(word_pos, flipped);
        proof {
            let c = compressed as int;
            assert forall|c2: int| #[trigger]
                self.is_marked(c2) == if c2 == c {
                    !old(self).is_marked(c2)
                } else {
                    old(self).is_marked(c2)
                } by {
                lemma_fundamental_div_mod(c2, 256);
                lemma_fundamental_div_mod(c, 256);
                if word_of(c2) == word_of(c) {
                    lemma_flip_bit(word.value(), bit_pos as nat, bit_of(c2) as nat);
                }
            }
        }
        Ok(())
    }

    /// 2^k as a wide value.
    fn power_of_two(k: u32) -> (r: U256)
        requires
            k < 256,
        ensures
            r.value() == pow2(k as nat),
    {
        proof {
            lemma_pow2_values();
            vstd::arithmetic::power2::lemma_pow2_strictly_increases(k as nat, 256);
            vstd::arithmetic::div_mod::lemma_small_mod(pow2(k as nat), modulus256());
        }
        shl(&U256::one(), k)
    }

    /// The position of the most significant set bit of a nonzero value.
    pub fn most_significant_bit(x: U256) -> (r: u8)
        requires
            x.value() != 0,
        ensures
            is_highest_bit(x.value(), r as nat),
    {
        let ghost x0 = x.value();
        let mut y = x;
        let mut r: u32 = 0;
        let mut k: u32 = 128;
        proof {
            lemma_pow2_values();
            x.lemma_bounds();
            assert(x0 / pow2(0) == x0) by {
                vstd::arithmetic::power2::lemma2_to64();
            }
        }
        while k > 0
            invariant
                k == 128 || k == 64 || k == 32 || k == 16 || k == 8 || k == 4 || k == 2 || k == 1
                    || k == 0,
                r + 2 * k <= 256 || (k == 0 && r < 256),
                x0 / pow2(r as nat) == y.value(),
                1 <= y.value(),
                k > 0 ==> y.value() < pow2(2 * k as nat),
                k == 0 ==> y.value() < 2,
            decreases k,
        {
            let threshold = Self::power_of_two(k);
            if !lt(&y, &threshold) {
                proof {
                    lemma_pow2_pos(k as nat);
                    lemma_pow2_adds(k as nat, k as nat);
                    lemma_multiply_divide_lt(y.value() as int, pow2(k as nat) as int, pow2(k as nat) as int);
                    lemma_div_pow2_twice(x0, r as nat, k as nat);
                    vstd::arithmetic::div_mod::lemma_div_is_ordered(
                        pow2(k as nat) as int,
                        y.value() as int,
                        pow2(k as nat) as int,
                    );
                    vstd::arithmetic::div_mod::lemma_div_by_self(pow2(k as nat) as int);
                }
                y = shr(&y, k);
                r = r + k;
            }
            proof {
                if k > 1 {
                    lemma_pow2_adds((k / 2) as nat, (k / 2) as nat);
                    assert(2 * (k / 2) == k);
                    lemma_pow2_adds(k as nat, 0);
                }
                if k == 1 {
                    vstd::arithmetic::power2::lemma2_to64();
                }
            }
            k = k / 2;
        }
        proof {
            assert(y.value() == 1);
            lemma_pow2_pos(r as nat);
            lemma_fundamental_div_mod(x0 as int, pow2(r as nat) as int);
            vstd::arithmetic::power2::lemma_pow2_unfold((r + 1) as nat);
        }
        r as u8
    }

    /// The position of the least significant set bit of a nonzero value.
    pub fn least_significant_bit(x: U256) -> (r: u8)
        requires
            x.value() != 0,
        ensures
            is_lowest_bit(x.value(), r as nat),
    {
        let ghost x0 = x.value();
        let ghost mut s: nat = 0;
        let mut y = x;
        let mut r: u32 = 255;
        let mut k: u32 = 128;
        proof {
            lemma_pow2_values();
            x.lemma_bounds();
            vstd::arithmetic::power2::lemma2_to64();
            vstd::arithmetic::div_mod::lemma_small_mod(x0, modulus256());
        }
        while k > 1
            invariant
                k == 128 || k == 64 || k == 32 || k == 16 || k == 8 || k == 4 || k == 2 || k == 1,
                r == s + 2 * k - 1,
                r <= 255,
                x0 == y.value() * pow2(s),
                y.value() % pow2(2 * k as nat) != 0,
                y.value() < modulus256(),
            decreases k,
        {
            proof {
                lemma_pow2_pos(k as nat);
            }
            let mask = checked_sub(&Self::power_of_two(k), &U256::one()).unwrap();
            proof {
                lemma_pow2_adds(k as nat, k as nat);
                lemma_pow2_pos(k as nat);
                vstd::arithmetic::div_mod::lemma_mod_breakdown(
                    y.value() as int,
                    pow2(k as nat) as int,
                    pow2(k as nat) as int,
                );
                lemma_fundamental_div_mod(y.value() as int, pow2(k as nat) as int);
                assert(2 * (k / 2) == k);
            }
            let low = bitand(&y, &mask);
            if !low.is_zero() {
                r = r - k;
            } else {
                proof {
                    lemma_pow2_adds(s, k as nat);
                    assert(x0 == (y.value() / pow2(k as nat)) * pow2(s + k as nat)) by (
                    nonlinear_arith)
                        requires
                            x0 == y.value() * pow2(s),
                            y.value() == pow2(k as nat) * (y.value() / pow2(k as nat)),
                            pow2(s + k as nat) == pow2(s) * pow2(k as nat),
                    ;
                    vstd::arithmetic::div_mod::lemma_div_is_ordered_by_denominator(
                        y.value() as int,
                        1,
                        pow2(k as nat) as int,
                    );
                    s = s + k as nat;
                }
                y = shr(&y, k);
            }
            k = k / 2;
        }
        proof {
            vstd::arithmetic::power2::lemma2_to64();
            lemma_pow2_pos(s);
            vstd::arithmetic::div_mod::lemma_mod_multiples_basic(y.value() as int, pow2(s) as int);
            vstd::arithmetic::div_mod::lemma_div_multiples_vanish(y.value() as int, pow2(s) as int);
        }
        let one = U256::one();
        let last = bitand(&y, &one);
        if !last.is_zero() {
            r = r - 1;
        } else {
            proof {
                lemma_pow2_adds(s, 1);
                vstd::arithmetic::div_mod::lemma_mod_breakdown(y.value() as int, 2, 2);
                lemma_fundamental_div_mod(y.value() as int, 2);
                assert(x0 == (y.value() / 2) * pow2(s + 1)) by (nonlinear_arith)
                    requires
                        x0 == y.value() * pow2(s),
                        y.value() == 2 * (y.value() / 2),
                        pow2(s + 1) == pow2(s) * 2,
                ;
                lemma_pow2_pos(s + 1);
                vstd::arithmetic::div_mod::lemma_mod_multiples_basic(
                    (y.value() / 2) as int,
                    pow2(s + 1) as int,
                );
                vstd::arithmetic::div_mod::lemma_div_multiples_vanish(
                    (y.value() / 2) as int,
                    pow2(s + 1) as int,
                );
            }
        }
        r as u8
    }

    /// The compressed tick a one-word search starts from: the compressed
    /// `tick` itself when searching downward, the one above it when upward.
    pub open spec fn search_start(&self, tick: i32, tick_spacing: i32, lte: bool) -> int {
        let c = floor_div(tick as int, tick_spacing as int);
        if lte {
            c
        } else {
            c + 1
        }
    }

    pub open spec fn search_bit(&self, tick: i32, tick_spacing: i32, lte: bool) -> int {
        bit_of(self.search_start(tick, tick_spacing, lte))
    }

    /// The word of the search start with the bits on the far side of the start
    /// cleared: those above it when searching downward, those below it when upward.
    pub open spec fn masked_word(&self, tick: i32, tick_spacing: i32, lte: bool) -> nat {
        let v = self.word_value(word_of(self.search_start(tick, tick_spacing, lte)));
        let b = self.search_bit(tick, tick_spacing, lte);
        if lte {
            v % pow2((b + 1) as nat)
        } else {
            (v / pow2(b as nat)) * pow2(b as nat)
        }
    }

    /// The next marked tick at or below `tick` (`lte`) or above it, looking
    /// only within the word of the compressed start: the nearest mark in that
    /// direction with `true`, else the last tick of the word in that direction
    /// with `false`.
    pub fn next_initialized_tick_within_one_word(&self, tick: i32, tick_spacing: i32, lte: bool) -> (r:
        (i32, bool))
        requires
            MIN_TICK <= tick <= MAX_TICK,
            0 < tick_spacing <= MAX_TICK_SPACING,
        ensures
            r.1 == (self.masked_word(tick, tick_spacing, lte) != 0),
            (r.1 && lte) ==> exists|m: nat|
                is_highest_bit(self.masked_word(tick, tick_spacing, lte), m) && r.0 == (
                self.search_start(tick, tick_spacing, lte) - self.search_bit(tick, tick_spacing, lte)
                    + m) * tick_spacing,
            (r.1 && !lte) ==> exists|m: nat|
                is_lowest_bit(self.masked_word(tick, tick_spacing, lte), m) && r.0 == (
                self.search_start(tick, tick_spacing, lte) - self.search_bit(tick, tick_spacing, lte)
                    + m) * tick_spacing,
            (!r.1 && lte) ==> r.0 == (self.search_start(tick, tick_spacing, lte) - self.search_bit(
                tick,
                tick_spacing,
                lte,
            )) * tick_spacing,
            (!r.1 && !lte) ==> r.0 == (self.search_start(tick, tick_spacing, lte) - self.search_bit(
                tick,
                tick_spacing,
                lte,
            ) + 255) * tick_spacing,
            lte ==> r.0 <= tick,
            !lte ==> r.0 > tick,
            MIN_TICK - 256 * MAX_TICK_SPACING <= r.0 <= MAX_TICK + 256 * MAX_TICK_SPACING,
            r.1 ==> r.0 as int % tick_spacing as int == 0 && self.is_marked(
                floor_div(r.0 as int, tick_spacing as int),
            ),
            self.none_marked_between(tick, tick_spacing, lte, r),
    {
        let compressed = Self::compress(tick, tick_spacing);
        let start: i32 = if lte {
            compressed
        } else {
            compressed + 1
        };
        let (word_pos, bit_pos) = Self::position(start);
        let word = self.get_word(word_pos);
        let mask = Self::search_mask(bit_pos, lte);
        let masked = bitand(&word, &mask);
        let initialized = !masked.is_zero();
        let offset: u8 = if initialized {
            if lte {
                Self::most_significant_bit(masked)
            } else {
                Self::least_significant_bit(masked)
            }
        } else if lte {
            0
        } else {
            255
        };
        proof {
            let m = offset as nat;
            let b = bit_pos as nat;
            if initialized && lte {
                assert(is_highest_bit(masked.value(), m));
                assert(masked.value() < pow2(b + 1)) by {
                    lemma_pow2_pos(b + 1);
                    vstd::arithmetic::div_mod::lemma_mod_bound(word.value() as int, pow2(b + 1) as int);
                }
                if m > b {
                    vstd::arithmetic::power2::lemma_pow2_strictly_increases(b + 1, m);
                }
            }
            if initialized && !lte {
                assert(is_lowest_bit(masked.value(), m));
                if m < b {
                    lemma_no_bit_below(word.value(), b, m);
                }
            }
            if initialized {
                if lte {
                    lemma_highest_bit_is_set(masked.value(), m);
                    lemma_bit_of_low_part(word.value(), b + 1, m);
                } else {
                    lemma_bit_of_high_part(word.value(), b, m);
                }
                assert(bit_set(word.value(), m));
                lemma_word_and_bit(start as int, m as int);
                let k = start as int - b as int + m as int;
                vstd::arithmetic::div_mod::lemma_mod_multiples_basic(k, tick_spacing as int);
                vstd::arithmetic::div_mod::lemma_div_multiples_vanish(k, tick_spacing as int);
                assert(k * tick_spacing as int == tick_spacing as int * k);
            }
        }
        let next = Self::scaled_tick(tick, tick_spacing, compressed, start, bit_pos, offset);
        proof {
            self.lemma_one_word_complete(
                tick,
                tick_spacing,
                lte,
                compressed as int,
                start as int,
                bit_pos as int,
                offset as int,
                word.value(),
                masked.value(),
                initialized,
                next,
            );
        }
        (next, initialized)
    }

    /// No marked tick lies between `tick` and the search result `r` in the
    /// search direction: strictly between for a mark found, up to and
    /// including the result for none.
    pub open spec fn none_marked_between(&self, tick: i32, tick_spacing: i32, lte: bool, r: (i32, bool)) -> bool {
        let s = tick_spacing as int;
        if lte {
            forall|c: int|
                (if r.1 {
                    r.0 < c * s
                } else {
                    r.0 <= c * s
                }) && c * s <= tick ==> !#[trigger] self.is_marked(c)
        } else {
            forall|c: int|
                tick < c * s && (if r.1 {
                    c * s < r.0
                } else {
                    c * s <= r.0
                }) ==> !#[trigger] self.is_marked(c)
        }
    }

    proof fn lemma_one_word_complete(
        &self,
        tick: i32,
        tick_spacing: i32,
        lte: bool,
        compressed: int,
        start: int,
        b: int,
        m: int,
        v: nat,
        masked: nat,
        initialized: bool,
        next: i32,
    )
        requires
            0 < tick_spacing,
            tick - tick_spacing < compressed * tick_spacing <= tick,
            start == if lte {
                compressed
            } else {
                compressed + 1
            },
            b == bit_of(start),
            v == self.word_value(word_of(start)),
            0 <= m <= 255,
            lte ==> masked == v % pow2((b + 1) as nat),
            !lte ==> masked == (v / pow2(b as nat)) * pow2(b as nat),
            initialized == (masked != 0),
            initialized && lte ==> is_highest_bit(masked, m as nat),
            initialized && !lte ==> is_lowest_bit(masked, m as nat),
            !initialized ==> m == if lte {
                0int
            } else {
                255int
            },
            next == (start - b + m) * tick_spacing,
        ensures
            self.none_marked_between(tick, tick_spacing, lte, (next, initialized)),
    {
        let s = tick_spacing as int;
        let base = start - b;
        lemma_fundamental_div_mod(start, 256);
        assert(0 <= b < 256);
        if lte {
            assert forall|c: int|
                (if initialized {
                    next < c * s
                } else {
                    next <= c * s
                }) && c * s <= tick implies !#[trigger] self.is_marked(c) by {
                assert(c <= start) by (nonlinear_arith)
                    requires
                        c * s <= tick,
                        tick < compressed * s + s,
                        start == compressed,
                        s > 0,
                ;
                assert(c > base + m || !initialized) by (nonlinear_arith)
                    requires
                        initialized ==> (base + m) * s < c * s,
                        next == (base + m) * s,
                        s > 0,
                ;
                assert(c >= base) by (nonlinear_arith)
                    requires
                        (base + m) * s <= c * s,
                        m >= 0,
                        s > 0,
                ;
                let i = c - base;
                lemma_word_and_bit(start, i);
                lemma_bit_of_low_part(v, (b + 1) as nat, i as nat);
                lemma_pow2_pos(i as nat);
                if initialized {
                    if m + 1 < i {
                        vstd::arithmetic::power2::lemma_pow2_strictly_increases((m + 1) as nat, i as nat);
                    }
                    vstd::arithmetic::div_mod::lemma_basic_div(masked as int, pow2(i as nat) as int);
                } else {
                    vstd::arithmetic::div_mod::lemma_basic_div(0, pow2(i as nat) as int);
                }
            }
        } else {
            assert forall|c: int|
                tick < c * s && (if initialized {
                    c * s < next
                } else {
                    c * s <= next
                }) implies !#[trigger] self.is_marked(c) by {
                assert(c >= start) by (nonlinear_arith)
                    requires
                        tick < c * s,
                        compressed * s <= tick,
                        start == compressed + 1,
                        s > 0,
                ;
                assert(initialized ==> c < base + m) by (nonlinear_arith)
                    requires
                        initialized ==> c * s < (base + m) * s,
                        s > 0,
                ;
                assert(c <= base + m) by (nonlinear_arith)
                    requires
                        c * s <= (base + m) * s,
                        s > 0,
                ;
                let i = c - base;
                lemma_word_and_bit(start, i);
                lemma_bit_of_high_part(v, b as nat, i as nat);
                lemma_pow2_pos(i as nat);
                if initialized {
                    lemma_pow2_pos(m as nat);
                    lemma_fundamental_div_mod(masked as int, pow2(m as nat) as int);
                    assert(masked == (masked / pow2(m as nat)) * pow2(m as nat));
                    lemma_no_bit_below(masked, m as nat, i as nat);
                } else {
                    vstd::arithmetic::div_mod::lemma_basic_div(0, pow2(i as nat) as int);
                }
            }
        }
    }

    /// The next marked tick from `tick` in the search direction, looking word
    /// after word until a mark is found or the search passes `bound`: a tick
    /// at or below `tick` when `lte`, above it otherwise, with whether it is
    /// marked; an unmarked result lies at or past `bound`.
    pub fn next_initialized_tick(&self, tick: i32, tick_spacing: i32, lte: bool, bound: i32) -> (r: (
        i32,
        bool,
    ))
        requires
            MIN_TICK <= tick <= MAX_TICK,
            MIN_TICK <= bound <= MAX_TICK,
            0 < tick_spacing <= MAX_TICK_SPACING,
            lte ==> bound <= tick,
            !lte ==> tick <= bound,
        ensures
            lte ==> r.0 <= tick && (!r.1 ==> r.0 <= bound),
            !lte ==> r.0 > tick && (!r.1 ==> r.0 >= bound),
            r.1 ==> r.0 as int % tick_spacing as int == 0 && self.is_marked(
                floor_div(r.0 as int, tick_spacing as int),
            ),
            self.none_marked_between(tick, tick_spacing, lte, r),
    {
        let mut t = tick;
        loop
            invariant
                MIN_TICK <= t <= MAX_TICK,
                MIN_TICK <= bound <= MAX_TICK,
                0 < tick_spacing <= MAX_TICK_SPACING,
                lte ==> bound <= t <= tick,
                !lte ==> tick <= t <= bound,
                lte ==> forall|c: int|
                    t < c * tick_spacing <= tick ==> !#[trigger] self.is_marked(c),
                !lte ==> forall|c: int|
                    tick < c * tick_spacing <= t ==> !#[trigger] self.is_marked(c),
            decreases (if lte {
                t - bound
            } else {
                bound - t
            }),
        {
            let (next, initialized) = self.next_initialized_tick_within_one_word(
                t,
                tick_spacing,
                lte,
            );
            if initialized {
                return (next, true);
            }
            if lte {
                if next <= bound {
                    return (next, false);
                }
                t = next - 1;
            } else {
                if next >= bound {
                    return (next, false);
                }
                t = next;
            }
        }
    }

    /// The compressed tick, with the bounds that keep the search in range.
    fn compress(tick: i32, tick_spacing: i32) -> (c: i32)
        requires
            MIN_TICK <= tick <= MAX_TICK,
            0 < tick_spacing <= MAX_TICK_SPACING,
        ensures
            c == floor_div(tick as int, tick_spacing as int),
            tick - tick_spacing < c as int * tick_spacing as int <= tick,
            -1000000 <= c <= 1000000,
    {
        let compressed = floor_div_i32(tick, tick_spacing);
        proof {
            lemma_fundamental_div_mod(tick as int, tick_spacing as int);
        }
        let ghost cs = compressed as int * tick_spacing as int;
        assert(tick - tick_spacing < cs <= tick) by (nonlinear_arith)
            requires
                tick as int == tick_spacing * (tick as int / tick_spacing as int) + (tick as int)
                    % (tick_spacing as int),
                compressed as int == tick as int / tick_spacing as int,
                cs == compressed as int * tick_spacing as int,
                0 <= (tick as int) % (tick_spacing as int) < tick_spacing,
        ;
        assert(-1000000 <= compressed <= 1000000) by (nonlinear_arith)
            requires
                tick - tick_spacing < cs <= tick,
                cs == compressed as int * tick_spacing as int,
                MIN_TICK <= tick <= MAX_TICK,
                0 < tick_spacing,
        ;
        compressed
    }

    /// The mask of the bits at or below `bit_pos` (`lte`), or at or above it.
    fn search_mask(bit_pos: u8, lte: bool) -> (r: U256)
        ensures
            lte ==> pow2((bit_pos + 1) as nat) == r.value() + 1,
            !lte ==> r.value() + pow2(bit_pos as nat) == modulus256(),
    {
        proof {
            lemma_pow2_values();
            lemma_pow2_pos(bit_pos as nat);
            lemma_pow2_pos((bit_pos + 1) as nat);
            vstd::arithmetic::power2::lemma_pow2_strictly_increases(bit_pos as nat, 256);
        }
        if lte {
            if bit_pos == 255 {
                U256::max_value()
            } else {
                checked_sub(&Self::power_of_two(bit_pos as u32 + 1), &U256::one()).unwrap()
            }
        } else {
            let below = checked_sub(&Self::power_of_two(bit_pos as u32), &U256::one()).unwrap();
            checked_sub(&U256::max_value(), &below).unwrap()
        }
    }

    /// `(start - bit_pos + offset) * tick_spacing`, which stays within `i32`.
    fn scaled_tick(
        tick: i32,
        tick_spacing: i32,
        compressed: i32,
        start: i32,
        bit_pos: u8,
        offset: u8,
    ) -> (r: i32)
        requires
            MIN_TICK <= tick <= MAX_TICK,
            0 < tick_spacing <= MAX_TICK_SPACING,
            tick - tick_spacing < compressed as int * tick_spacing as int <= tick,
            start == compressed || start == compressed + 1,
        ensures
            r == (start as int - bit_pos as int + offset as int) * tick_spacing as int,
            (start == compressed && offset <= bit_pos) ==> r <= tick,
            (start == compressed + 1 && offset >= bit_pos) ==> r > tick,
            MIN_TICK - 256 * MAX_TICK_SPACING <= r <= MAX_TICK + 256 * MAX_TICK_SPACING,
    {
        let ghost total = (start as int - bit_pos as int + offset as int) * tick_spacing as int;
        assert(i32::MIN <= total <= i32::MAX) by (nonlinear_arith)
            requires
                total == (start as int - bit_pos as int + offset as int) * tick_spacing as int,
                start == compressed || start == compressed + 1,
                0 <= bit_pos <= 255,
                0 <= offset <= 255,
                tick - tick_spacing < compressed as int * tick_spacing as int <= tick,
                MIN_TICK <= tick <= MAX_TICK,
                0 < tick_spacing <= MAX_TICK_SPACING,
        ;
        assert((start == compressed && offset <= bit_pos) ==> total <= tick) by (nonlinear_arith)
            requires
                total == (start as int - bit_pos as int + offset as int) * tick_spacing as int,
                compressed as int * tick_spacing as int <= tick,
                tick_spacing > 0,
        ;
        assert((start == compressed + 1 && offset >= bit_pos) ==> total > tick) by (nonlinear_arith)
            requires
                total == (start as int - bit_pos as int + offset as int) * tick_spacing as int,
                tick - tick_spacing < compressed as int * tick_spacing as int,
                tick_spacing > 0,
        ;
        assert(MIN_TICK - 256 * MAX_TICK_SPACING <= total <= MAX_TICK + 256 * MAX_TICK_SPACING)
            by (nonlinear_arith)
            requires
                total == (start as int - bit_pos as int + offset as int) * tick_spacing as int,
                start == compressed || start == compressed + 1,
                0 <= bit_pos <= 255,
                0 <= offset <= 255,
                tick - tick_spacing < compressed as int * tick_spacing as int <= tick,
                MIN_TICK <= tick <= MAX_TICK,
                0 < tick_spacing <= MAX_TICK_SPACING,
        ;
        ((start as i64 - bit_pos as i64 + offset as i64) * tick_spacing as i64) as i32
    }
}

} // verus!
