//! Word arithmetic with two's-complement signed readings, as the EVM's
//! signed and modular opcodes define it.
use crate::uint::{
    bit, bit_not, compare, div, from_big_endian, rem, shr, to_big_endian, to_big_endian512,
    wrapping_add, wrapping_mul,
};
use crate::word::{
    be_bytes, be_value, lemma_be_bytes_len, lemma_be_bytes_suffix, lemma_be_value_bound,
    lemma_be_value_lead, lemma_be_value_of_bytes, lemma_be_value_zero_prefix, lemma_pow2_values,
    lemma_word_bound, limb_base, sign_bound, signed_value, word_modulus, wrap, U256, U512,
};
use std::cmp::Ordering;
use vstd::arithmetic::div_mod::{lemma_mul_mod_noop_left, lemma_mul_mod_noop_right};
use vstd::arithmetic::power::{
    lemma_pow0, lemma_pow1, lemma_pow_adds, lemma_pow_mod_noop, lemma_pow_multiplies,
    lemma_square_is_pow2, pow,
};
use vstd::arithmetic::power2::pow2;
use vstd::prelude::*;

verus! {

/// The absolute value of an integer.
pub open spec fn abs(x: int) -> nat {
    if x < 0 {
        (-x) as nat
    } else {
        x as nat
    }
}

/// The word 1 for true, 0 for false.
pub fn bool_to_u256(value: bool) -> (r: U256)
    ensures
        r@ == (if value {
            1nat
        } else {
            0nat
        }),
{
    if value {
        U256::one()
    } else {
        U256::zero()
    }
}

/// Whether `a < b`.
pub fn lt(a: U256, b: U256) -> (r: bool)
    ensures
        r == (a@ < b@),
{
    match compare(a, b) {
        Ordering::Less => true,
        _ => false,
    }
}

/// The word's value, capped at `u64::MAX`.
pub fn u256_to_u64(value: U256) -> (r: u64)
    ensures
        r == (if value@ > u64::MAX {
            u64::MAX as nat
        } else {
            value@
        }),
{
    let max = U256::from_u64(u64::MAX);
    if lt(max, value) {
        u64::MAX
    } else {
        let r = value.low_u64();
        proof {
            vstd::arithmetic::div_mod::lemma_small_mod(value@, limb_base());
        }
        r
    }
}

/// The word's value, capped at `usize::MAX`.
pub fn u256_to_usize(value: U256) -> (r: usize)
    ensures
        r == (if value@ > usize::MAX {
            usize::MAX as nat
        } else {
            value@
        }),
{
    let max = U256::from_u64(usize::MAX as u64);
    if lt(max, value) {
        usize::MAX
    } else {
        let r = value.low_u64();
        proof {
            vstd::arithmetic::div_mod::lemma_small_mod(value@, limb_base());
        }
        r as usize
    }
}

/// Whether the word is negative in two's complement, that is, whether its
/// top bit is set.
pub fn is_negative(value: U256) -> (r: bool)
    ensures
        r == (value@ >= sign_bound()),
        r == (signed_value(value@) < 0),
{
    proof {
        lemma_pow2_values();
        lemma_word_bound(value);
        if value@ >= sign_bound() {
            vstd::arithmetic::div_mod::lemma_fundamental_div_mod(value@ as int, sign_bound() as int);
            assert(value@ / sign_bound() == 1) by (nonlinear_arith)
                requires
                    value@ >= sign_bound(),
                    value@ < 2 * sign_bound(),
                    sign_bound() > 0,
            ;
        } else {
            assert(value@ / sign_bound() == 0) by (nonlinear_arith)
                requires
                    value@ < sign_bound(),
            ;
        }
    }
    bit(value, 255)
}

/// The complement of a word has value `2^256 - 1 - x`.
pub proof fn lemma_not_value(x: U256, r: U256)
    requires
        r.l0 == !x.l0,
        r.l1 == !x.l1,
        r.l2 == !x.l2,
        r.l3 == !x.l3,
    ensures
        r@ == word_modulus() - 1 - x@,
{
    assert(forall|a: u64| #[trigger] !a == 0xffff_ffff_ffff_ffffu64 - a) by (bit_vector);
}

/// The two's-complement negation: `2^256 - x` modulo `2^256`.
pub fn twos_complement(value: U256) -> (r: U256)
    ensures
        r@ == wrap(-(value@ as int)),
{
    let n = bit_not(value);
    proof {
        lemma_not_value(value, n);
        lemma_word_bound(value);
    }
    let r = wrapping_add(n, U256::one());
    proof {
        assert(n@ + 1 == word_modulus() - value@);
        vstd::arithmetic::div_mod::lemma_mod_add_multiples_vanish(
            -(value@ as int),
            word_modulus() as int,
        );
    }
    r
}

/// The magnitude of the word's signed reading.
pub fn signed_abs(value: U256) -> (r: U256)
    ensures
        r@ == abs(signed_value(value@)),
{
    proof {
        lemma_word_bound(value);
    }
    if is_negative(value) {
        let r = twos_complement(value);
        proof {
            vstd::arithmetic::div_mod::lemma_mod_add_multiples_vanish(
                -(value@ as int),
                word_modulus() as int,
            );
            vstd::arithmetic::div_mod::lemma_small_mod(
                (word_modulus() - value@) as nat,
                word_modulus(),
            );
        }
        r
    } else {
        value
    }
}

/// The order of the words' signed readings.
pub fn signed_cmp(lhs: U256, rhs: U256) -> (r: Ordering)
    ensures
        (r == Ordering::Less) == (signed_value(lhs@) < signed_value(rhs@)),
        (r == Ordering::Equal) == (signed_value(lhs@) == signed_value(rhs@)),
        (r == Ordering::Greater) == (signed_value(lhs@) > signed_value(rhs@)),
{
    let lhs_neg = is_negative(lhs);
    let rhs_neg = is_negative(rhs);
    proof {
        lemma_word_bound(lhs);
        lemma_word_bound(rhs);
    }
    match (lhs_neg, rhs_neg) {
        (true, false) => Ordering::Less,
        (false, true) => Ordering::Greater,
        (false, false) => compare(lhs, rhs),
        (true, true) => compare(signed_abs(rhs), signed_abs(lhs)),
    }
}

/// Whether the signed reading of `lhs` is below that of `rhs`.
pub fn signed_less(lhs: U256, rhs: U256) -> (r: bool)
    ensures
        r == (signed_value(lhs@) < signed_value(rhs@)),
{
    match signed_cmp(lhs, rhs) {
        Ordering::Less => true,
        _ => false,
    }
}

/// Whether the signed reading of `lhs` is above that of `rhs`.
pub fn signed_greater(lhs: U256, rhs: U256) -> (r: bool)
    ensures
        r == (signed_value(lhs@) > signed_value(rhs@)),
{
    match signed_cmp(lhs, rhs) {
        Ordering::Greater => true,
        _ => false,
    }
}

/// The `SDIV` result: the quotient of the signed readings rounded toward zero,
/// as a word; zero for a zero divisor.
pub open spec fn spec_sdiv(dividend: nat, divisor: nat) -> nat {
    if divisor == 0 {
        0
    } else {
        let q = abs(signed_value(dividend)) / abs(signed_value(divisor));
        if (signed_value(dividend) < 0) != (signed_value(divisor) < 0) {
            wrap(-(q as int))
        } else {
            wrap(q as int)
        }
    }
}

/// Signed division, rounding toward zero (`SDIV`).
pub fn sdiv(dividend: U256, divisor: U256) -> (r: U256)
    ensures
        r@ == spec_sdiv(dividend@, divisor@),
{
    if divisor.is_zero() {
        return U256::zero();
    }
    let result_negative = is_negative(dividend) != is_negative(divisor);
    let abs_dividend = signed_abs(dividend);
    let abs_divisor = signed_abs(divisor);
    let quotient = div(abs_dividend, abs_divisor);
    proof {
        lemma_word_bound(quotient);
        vstd::arithmetic::div_mod::lemma_small_mod(quotient@, word_modulus());
    }
    if quotient.is_zero() {
        U256::zero()
    } else if result_negative {
        twos_complement(quotient)
    } else {
        quotient
    }
}

/// The `SMOD` result: the remainder of the magnitudes, carrying the dividend's
/// sign, as a word; zero for a zero divisor.
pub open spec fn spec_smod(dividend: nat, divisor: nat) -> nat {
    if divisor == 0 {
        0
    } else {
        let m = abs(signed_value(dividend)) % abs(signed_value(divisor));
        if signed_value(dividend) < 0 {
            wrap(-(m as int))
        } else {
            wrap(m as int)
        }
    }
}

/// Signed remainder, taking the sign of the dividend (`SMOD`).
pub fn smod(dividend: U256, divisor: U256) -> (r: U256)
    ensures
        r@ == spec_smod(dividend@, divisor@),
{
    if divisor.is_zero() {
        return U256::zero();
    }
    let abs_dividend = signed_abs(dividend);
    let abs_divisor = signed_abs(divisor);
    let remainder = rem(abs_dividend, abs_divisor);
    proof {
        lemma_word_bound(remainder);
        vstd::arithmetic::div_mod::lemma_small_mod(remainder@, word_modulus());
    }
    if remainder.is_zero() {
        U256::zero()
    } else if is_negative(dividend) {
        twos_complement(remainder)
    } else {
        remainder
    }
}

/// One step of square-and-multiply keeps `result * base^e` fixed modulo `m`.
proof fn lemma_exp_step(r: int, b: int, e: nat, m: int)
    requires
        m > 0,
        r >= 0,
        b >= 0,
    ensures
        ((if e % 2 == 1 {
            (r * b) % m
        } else {
            r
        }) * pow((b * b) % m, e / 2)) % m == (r * pow(b, e)) % m,
{
    let k = e / 2;
    let bit = e % 2;
    assert(e == 2 * k + bit);
    lemma_pow_adds(b, 2 * k, bit);
    lemma_pow_multiplies(b, 2, k);
    lemma_square_is_pow2(b);
    assert(pow(b, e) == pow(b * b, k) * pow(b, bit));
    lemma_pow_mod_noop(b * b, k, m);
    lemma_mul_mod_noop_right(r * pow(b, bit), pow((b * b) % m, k), m);
    lemma_mul_mod_noop_right(r * pow(b, bit), pow(b * b, k), m);
    if bit == 1 {
        lemma_pow1(b);
        lemma_mul_mod_noop_left(r * b, pow((b * b) % m, k), m);
        assert(r * b * pow(b * b, k) == r * (pow(b * b, k) * b)) by (nonlinear_arith);
    } else {
        lemma_pow0(b);
        assert(r * 1 * pow(b * b, k) == r * (pow(b * b, k) * 1)) by (nonlinear_arith);
    }
}

/// `base` to the power `exponent`, modulo `2^256` (`EXP`).
pub fn exp(base: U256, exponent: U256) -> (r: U256)
    ensures
        r@ == pow(base@ as int, exponent@) % (word_modulus() as int),
{
    let ghost m = word_modulus() as int;
    let mut result = U256::one();
    let mut running_base = base;
    let mut e = exponent;
    proof {
        lemma_pow2_values();
        vstd::arithmetic::power2::lemma2_to64();
        lemma_pow1(0);
    }
    while !e.is_zero()
        invariant
            m == word_modulus(),
            pow2(1) == 2,
            pow2(0) == 1,
            (result@ * pow(running_base@ as int, e@)) % m == pow(base@ as int, exponent@) % m,
        decreases e@,
    {
        let ghost (r0, b0, e0) = (result@ as int, running_base@ as int, e@);
        let odd = bit(e, 0);
        if odd {
            result = wrapping_mul(result, running_base);
        }
        e = shr(e, 1);
        if !e.is_zero() {
            running_base = wrapping_mul(running_base, running_base);
        }
        proof {
            lemma_exp_step(r0, b0, e0, m);
            assert(result@ == (if e0 % 2 == 1 { (r0 * b0) % m } else { r0 }));
            if e@ == 0 {
                lemma_pow0(running_base@ as int);
                lemma_pow0((b0 * b0) % m);
            }
        }
    }
    proof {
        lemma_pow0(running_base@ as int);
        lemma_word_bound(result);
        vstd::arithmetic::div_mod::lemma_small_mod(result@, word_modulus());
    }
    result
}

/// The low 256 bits of a 512-bit value.
pub fn u512_to_u256(value: U512) -> (r: U256)
    ensures
        r@ == value@ % word_modulus(),
{
    let bytes = to_big_endian512(value);
    let mut low: Vec<u8> = Vec::new();
    let mut i: usize = 32;
    proof {
        lemma_be_bytes_len(value@, 64);
    }
    while i < 64
        invariant
            32 <= i <= 64,
            bytes@ == be_bytes(value@, 64),
            bytes@.len() == 64,
            low@ == bytes@.subrange(32, i as int),
        decreases 64 - i,
    {
        low.push(bytes[i]);
        i = i + 1;
        assert(low@ =~= bytes@.subrange(32, i as int));
    }
    proof {
        lemma_be_bytes_suffix(value@, 64, 32);
        lemma_be_value_of_bytes(value@, 32);
        lemma_pow2_values();
        assert(8 * 32nat == 256);
    }
    from_big_endian(low.as_slice())
}

/// The number of bytes the exponent's value needs: the least `k` with
/// `exponent < 2^(8k)`.
pub fn exponent_byte_size(exponent: U256) -> (r: usize)
    ensures
        r <= 32,
        exponent@ < pow2(8 * r as nat),
        r > 0 ==> exponent@ >= pow2(8 * (r - 1) as nat),
{
    if exponent.is_zero() {
        proof {
            vstd::arithmetic::power2::lemma2_to64();
        }
        return 0;
    }
    let bytes = to_big_endian(exponent);
    proof {
        lemma_be_bytes_len(exponent@, 32);
        lemma_be_value_of_bytes(exponent@, 32);
        lemma_pow2_values();
        lemma_word_bound(exponent);
        assert(8 * 32nat == 256);
        vstd::arithmetic::div_mod::lemma_small_mod(exponent@, word_modulus());
        assert(be_value(bytes@) == exponent@);
    }
    let mut i: usize = 0;
    while i < 32 && bytes[i] == 0
        invariant
            i <= 32,
            bytes@.len() == 32,
            forall|j: int| 0 <= j < i ==> bytes@[j] == 0,
        decreases 32 - i,
    {
        i = i + 1;
    }
    proof {
        lemma_be_value_zero_prefix(bytes@, i as int);
        let t = bytes@.subrange(i as int, 32);
        lemma_be_value_bound(t);
        if i == 32 {
            vstd::arithmetic::power2::lemma2_to64();
            assert(t.len() == 0);
        } else {
            lemma_be_value_lead(t);
        }
    }
    let first_non_zero = if i == 32 {
        31
    } else {
        i
    };
    32 - first_non_zero
}

} // verus!
