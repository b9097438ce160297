//! Facts relating the limb-wise bitwise operations on words to arithmetic,
//! and the opcodes built from them: `BYTE`, `SHL`, `SHR`, `SAR`,
//! `SIGNEXTEND`.
use crate::arith::{is_negative, lemma_not_value, lt};
use crate::uint::{bit, bit_and, bit_or, shl, shr, wrapping_sub};
use crate::word::{
    lemma_pow2_values, lemma_view_injective, lemma_word_bound, limb_base,
    limb_base2, limb_base3, sign_bound, signed_value, word_modulus, wrap, U256,
};
use vstd::arithmetic::power2::{lemma_pow2_adds, lemma_pow2_pos, pow2};
use vstd::bits::{low_bits_mask, lemma_u64_low_bits_mask_is_mod};
use vstd::prelude::*;

verus! {

/// `x = lo + P*t + P*D*hi` with `lo < P` leaves `lo + P*(t mod D)` modulo `P*D`.
proof fn lemma_mod_split(x: int, lo: int, p: int, t: int, d: int, hi: int)
    requires
        0 <= lo < p,
        d > 0,
        t >= 0,
        hi >= 0,
        x == lo + p * t + p * d * hi,
    ensures
        x % (p * d) == lo + p * (t % d),
{
    let tq = t / d;
    let tr = t % d;
    vstd::arithmetic::div_mod::lemma_fundamental_div_mod(t, d);
    assert(0 <= tr < d);
    assert(x == (tq + hi) * (p * d) + (lo + p * tr)) by (nonlinear_arith)
        requires
            x == lo + p * t + p * d * hi,
            t == d * tq + tr,
    ;
    assert(lo + p * tr < p * d) by (nonlinear_arith)
        requires
            0 <= lo < p,
            0 <= tr <= d - 1,
    ;
    assert(p * d > 0) by (nonlinear_arith)
        requires
            p > 0,
            d > 0,
    ;
    assert(p * tr >= 0) by (nonlinear_arith)
        requires
            p > 0,
            tr >= 0,
    ;
    vstd::arithmetic::div_mod::lemma_fundamental_div_mod_converse(
        x,
        p * d,
        tq + hi,
        lo + p * tr,
    );
}

/// The limbs of a mask of the `k` low bits, `k = 64q + j`.
pub open spec fn low_mask_limbs(q: nat, j: nat) -> U256 {
    let part = (pow2(j) - 1) as u64;
    if q == 0 {
        U256 { l0: part, l1: 0, l2: 0, l3: 0 }
    } else if q == 1 {
        U256 { l0: u64::MAX, l1: part, l2: 0, l3: 0 }
    } else if q == 2 {
        U256 { l0: u64::MAX, l1: u64::MAX, l2: part, l3: 0 }
    } else if q == 3 {
        U256 { l0: u64::MAX, l1: u64::MAX, l2: u64::MAX, l3: part }
    } else {
        U256 { l0: u64::MAX, l1: u64::MAX, l2: u64::MAX, l3: u64::MAX }
    }
}

/// A word worth `2^k - 1` has the limbs `low_mask_limbs(k / 64, k % 64)`.
proof fn lemma_low_mask_limbs(m: U256, k: nat)
    requires
        k <= 256,
        m@ == pow2(k) - 1,
    ensures
        m == low_mask_limbs(k / 64, k % 64),
{
    let q = k / 64;
    let j = k % 64;
    let e = low_mask_limbs(q, j);
    lemma_pow2_values();
    vstd::arithmetic::power2::lemma2_to64();
    vstd::arithmetic::power2::lemma2_to64_rest();
    vstd::bits::lemma_u64_pow2_no_overflow(j);
    lemma_pow2_pos(j);
    let pj = pow2(j);
    if q == 0 {
        assert(k == j);
    } else if q == 1 {
        lemma_pow2_adds(64, j);
        assert(k == 64 + j);
        assert(e@ == (limb_base() - 1) + (pj - 1) * limb_base());
        assert(pow2(k) == limb_base() * pj);
    } else if q == 2 {
        lemma_pow2_adds(128, j);
        assert(k == 128 + j);
        assert(e@ == (limb_base2() - 1) + (pj - 1) * limb_base2());
        assert(pow2(k) == limb_base2() * pj);
    } else if q == 3 {
        lemma_pow2_adds(192, j);
        assert(k == 192 + j);
        assert(e@ == (limb_base3() - 1) + (pj - 1) * limb_base3());
        assert(pow2(k) == limb_base3() * pj);
    } else {
        assert(k == 256);
        assert(e@ == word_modulus() - 1);
    }
    lemma_view_injective(m, e);
}

/// Conjunction with a mask of the `k` low bits keeps the value modulo `2^k`.
pub proof fn lemma_and_low_mask(x: U256, m: U256, r: U256, k: nat)
    requires
        k <= 256,
        m@ == pow2(k) - 1,
        r.l0 == x.l0 & m.l0,
        r.l1 == x.l1 & m.l1,
        r.l2 == x.l2 & m.l2,
        r.l3 == x.l3 & m.l3,
    ensures
        r@ == x@ % pow2(k),
{
    lemma_low_mask_limbs(m, k);
    let q = k / 64;
    let j = k % 64;
    lemma_pow2_values();
    vstd::arithmetic::power2::lemma2_to64();
    lemma_pow2_pos(j);
    lemma_pow2_pos((64 - j) as nat);
    lemma_pow2_adds(j, (64 - j) as nat);
    assert(j + (64 - j) as nat == 64);
    let pj = pow2(j);
    let rest = pow2((64 - j) as nat);
    assert(limb_base() == pj * rest);
    assert(forall|a: u64| #[trigger] (a & 0xffff_ffff_ffff_ffffu64) == a) by (bit_vector);
    assert(forall|a: u64| #[trigger] (a & 0u64) == 0) by (bit_vector);
    assert(low_bits_mask(j) == pj - 1);
    let b = limb_base() as int;
    if q < 4 {
        let xq = if q == 0 {
            x.l0
        } else if q == 1 {
            x.l1
        } else if q == 2 {
            x.l2
        } else {
            x.l3
        };
        lemma_u64_low_bits_mask_is_mod(xq, j);
        vstd::bits::lemma_u64_pow2_no_overflow(j);
        assert((pj as u64) as nat == pj);
        if q == 0 {
            assert(k == j);
            assert(x@ == x.l0 + b * (x.l1 + x.l2 * b + x.l3 * b * b)) by (nonlinear_arith)
                requires
                    x@ == x.l0 + x.l1 * b + x.l2 * limb_base2() + x.l3 * limb_base3(),
                    limb_base2() == b * b,
                    limb_base3() == b * b * b,
            ;
            assert(x@ == 0 + 1 * x.l0 + 1 * pj * (rest * (x.l1 + x.l2 * b + x.l3 * b * b)))
                by (nonlinear_arith)
                requires
                    x@ == x.l0 + b * (x.l1 + x.l2 * b + x.l3 * b * b),
                    b == pj * rest,
            ;
            assert(rest * (x.l1 + x.l2 * b + x.l3 * b * b) >= 0) by (nonlinear_arith)
                requires
                    rest > 0,
                    b > 0,
            ;
            lemma_mod_split(
                x@ as int,
                0,
                1,
                x.l0 as int,
                pj as int,
                rest * (x.l1 + x.l2 * b + x.l3 * b * b),
            );
        } else if q == 1 {
            lemma_pow2_adds(64, j);
            assert(k == 64 + j);
            assert(pow2(k) == b * pj);
            assert(x@ == x.l0 + b * x.l1 + b * pj * (rest * (x.l2 + x.l3 * b)))
                by (nonlinear_arith)
                requires
                    x@ == x.l0 + x.l1 * b + x.l2 * limb_base2() + x.l3 * limb_base3(),
                    limb_base2() == b * b,
                    limb_base3() == b * b * b,
                    b == pj * rest,
            ;
            assert(rest * (x.l2 + x.l3 * b) >= 0) by (nonlinear_arith)
                requires
                    rest > 0,
                    b > 0,
            ;
            lemma_mod_split(
                x@ as int,
                x.l0 as int,
                b,
                x.l1 as int,
                pj as int,
                rest * (x.l2 + x.l3 * b),
            );
        } else if q == 2 {
            lemma_pow2_adds(128, j);
            assert(k == 128 + j);
            assert(pow2(k) == (b * b) * pj);
            assert(x@ == (x.l0 + x.l1 * b) + (b * b) * x.l2 + (b * b) * pj * (rest * x.l3))
                by (nonlinear_arith)
                requires
                    x@ == x.l0 + x.l1 * b + x.l2 * limb_base2() + x.l3 * limb_base3(),
                    limb_base2() == b * b,
                    limb_base3() == b * b * b,
                    b == pj * rest,
            ;
            assert(x.l0 + x.l1 * b < b * b) by (nonlinear_arith)
                requires
                    x.l0 < b,
                    x.l1 < b,
            ;
            assert(rest * x.l3 >= 0) by (nonlinear_arith)
                requires
                    rest > 0,
            ;
            lemma_mod_split(
                x@ as int,
                x.l0 + x.l1 * b,
                b * b,
                x.l2 as int,
                pj as int,
                rest * x.l3,
            );
        } else {
            lemma_pow2_adds(192, j);
            assert(k == 192 + j);
            assert(pow2(k) == (b * b * b) * pj);
            assert(x@ == (x.l0 + x.l1 * b + x.l2 * b * b) + (b * b * b) * x.l3 + (b * b * b)
                * pj * 0) by (nonlinear_arith)
                requires
                    x@ == x.l0 + x.l1 * b + x.l2 * limb_base2() + x.l3 * limb_base3(),
                    limb_base2() == b * b,
                    limb_base3() == b * b * b,
            ;
            assert(x.l0 + x.l1 * b + x.l2 * b * b < b * b * b) by (nonlinear_arith)
                requires
                    x.l0 < b,
                    x.l1 < b,
                    x.l2 < b,
            ;
            lemma_mod_split(
                x@ as int,
                x.l0 + x.l1 * b + x.l2 * b * b,
                b * b * b,
                x.l3 as int,
                pj as int,
                0,
            );
        }
    } else {
        assert(k == 256);
        lemma_word_bound(x);
        vstd::arithmetic::div_mod::lemma_small_mod(x@, word_modulus());
    }
}

/// Disjunction with the complement of a mask of the `k` low bits keeps the
/// value modulo `2^k` and sets every bit from `k` up.
pub proof fn lemma_or_high_mask(x: U256, h: U256, r: U256, k: nat)
    requires
        k <= 256,
        h@ == word_modulus() - pow2(k),
        r.l0 == x.l0 | h.l0,
        r.l1 == x.l1 | h.l1,
        r.l2 == x.l2 | h.l2,
        r.l3 == x.l3 | h.l3,
    ensures
        r@ == x@ % pow2(k) + (word_modulus() - pow2(k)),
{
    lemma_pow2_values();
    lemma_pow2_pos(k);
    if k < 256 {
        vstd::arithmetic::power2::lemma_pow2_strictly_increases(k, 256);
    }
    let m = U256 { l0: !h.l0, l1: !h.l1, l2: !h.l2, l3: !h.l3 };
    lemma_not_value(h, m);
    assert(forall|a: u64| #[trigger] !(!a) == a) by (bit_vector);
    let a = U256 { l0: x.l0 & m.l0, l1: x.l1 & m.l1, l2: x.l2 & m.l2, l3: x.l3 & m.l3 };
    lemma_and_low_mask(x, m, a, k);
    assert(forall|u: u64, v: u64|
        #![trigger u | v]
        (u | v) == ((u & !v) as int) + (v as int)) by (bit_vector);
}

/// All ones shifted left by `t` is worth `2^256 - 2^t`.
proof fn lemma_shifted_ones(t: nat)
    requires
        t <= 256,
    ensures
        wrap(((word_modulus() - 1) * pow2(t)) as int) == word_modulus() - pow2(t),
{
    lemma_pow2_values();
    lemma_pow2_pos(t);
    let m = word_modulus() as int;
    let p = pow2(t) as int;
    if t < 256 {
        vstd::arithmetic::power2::lemma_pow2_strictly_increases(t, 256);
        assert((m - 1) * p == (p - 1) * m + (m - p)) by (nonlinear_arith);
        vstd::arithmetic::div_mod::lemma_fundamental_div_mod_converse((m - 1) * p, m, p - 1, m - p);
    } else {
        assert((m - 1) * p == (p - 1) * m + 0) by (nonlinear_arith)
            requires
                p == m,
        ;
        vstd::arithmetic::div_mod::lemma_fundamental_div_mod_converse((m - 1) * p, m, p - 1, 0);
    }
}

/// Byte `index` of the word, counting from the most significant (`BYTE`);
/// zero past the word.
pub fn byte_at(index: U256, value: U256) -> (r: U256)
    ensures
        index@ >= 32 ==> r@ == 0,
        index@ < 32 ==> r@ == (value@ / pow2((8 * (31 - index@)) as nat)) % 256,
{
    if !lt(index, U256::from_u64(32)) {
        return U256::zero();
    }
    proof {
        lemma_pow2_values();
        vstd::arithmetic::div_mod::lemma_small_mod(index@, limb_base());
    }
    let shift = (31usize - index.low_u64() as usize) * 8;
    let shifted = shr(value, shift);
    let mask = U256::from_u64(0xff);
    let r = bit_and(shifted, mask);
    proof {
        lemma_and_low_mask(shifted, mask, r, 8);
    }
    r
}

/// The word shifted left by `shift` bits (`SHL`); zero from 256 on.
pub fn shift_left(shift: U256, value: U256) -> (r: U256)
    ensures
        shift@ >= 256 ==> r@ == 0,
        shift@ < 256 ==> r@ == wrap((value@ * pow2(shift@)) as int),
{
    if !lt(shift, U256::from_u64(256)) {
        return U256::zero();
    }
    proof {
        lemma_pow2_values();
        vstd::arithmetic::div_mod::lemma_small_mod(shift@, limb_base());
    }
    shl(value, shift.low_u64() as usize)
}

/// The word shifted right by `shift` bits (`SHR`); zero from 256 on.
pub fn shift_right(shift: U256, value: U256) -> (r: U256)
    ensures
        shift@ >= 256 ==> r@ == 0,
        shift@ < 256 ==> r@ == value@ / pow2(shift@),
{
    if !lt(shift, U256::from_u64(256)) {
        return U256::zero();
    }
    proof {
        lemma_pow2_values();
        vstd::arithmetic::div_mod::lemma_small_mod(shift@, limb_base());
    }
    shr(value, shift.low_u64() as usize)
}

/// The signed reading of the word shifted right by `shift` bits, rounding
/// toward negative infinity, as a word (`SAR`).
pub fn arithmetic_shift_right(value: U256, shift: usize) -> (r: U256)
    ensures
        r@ == wrap(signed_value(value@) / (pow2(shift as nat) as int)),
{
    proof {
        lemma_pow2_values();
        lemma_word_bound(value);
        lemma_pow2_pos(shift as nat);
    }
    let ghost m = word_modulus() as int;
    let ghost p = pow2(shift as nat) as int;
    let ghost v = value@ as int;
    if shift == 0 {
        proof {
            vstd::arithmetic::power2::lemma2_to64();
            if v >= sign_bound() {
                vstd::arithmetic::div_mod::lemma_mod_add_multiples_vanish(v - m, m);
            }
            vstd::arithmetic::div_mod::lemma_small_mod(value@, word_modulus());
        }
        return value;
    }
    let negative = is_negative(value);
    if shift >= 256 {
        proof {
            if shift > 256 {
                vstd::arithmetic::power2::lemma_pow2_strictly_increases(256, shift as nat);
            }
            if negative {
                assert((v - m) / p == -1) by {
                    vstd::arithmetic::div_mod::lemma_fundamental_div_mod_converse(v - m, p, -1, v - m + p);
                }
                vstd::arithmetic::div_mod::lemma_mod_add_multiples_vanish(-1, m);
                vstd::arithmetic::div_mod::lemma_small_mod((m - 1) as nat, m as nat);
            } else {
                vstd::arithmetic::div_mod::lemma_fundamental_div_mod_converse(v, p, 0, v);
            }
        }
        return if negative {
            U256::max_value()
        } else {
            U256::zero()
        };
    }
    if !negative {
        let r = shr(value, shift);
        proof {
            vstd::arithmetic::div_mod::lemma_div_pos_is_pos(v, p);
            vstd::arithmetic::div_mod::lemma_div_is_ordered(v, m, p);
            lemma_word_bound(r);
            vstd::arithmetic::div_mod::lemma_small_mod(r@, word_modulus());
        }
        return r;
    }
    let shifted = shr(value, shift);
    let fill_mask = shl(U256::max_value(), 256 - shift);
    let r = bit_or(shifted, fill_mask);
    proof {
        let t = (256 - shift) as nat;
        lemma_shifted_ones(t);
        lemma_or_high_mask(shifted, fill_mask, r, t);
        lemma_pow2_adds(shift as nat, t);
        assert(shift as nat + t == 256);
        let pt = pow2(t) as int;
        assert(m == p * pt);
        vstd::arithmetic::div_mod::lemma_fundamental_div_mod(v, p);
        let qv = v / p;
        assert(0 <= qv < pt) by {
            vstd::arithmetic::div_mod::lemma_div_pos_is_pos(v, p);
            vstd::arithmetic::div_mod::lemma_div_by_multiple_is_strongly_ordered(v, m, pt, p);
            vstd::arithmetic::div_mod::lemma_div_by_multiple(pt, p);
            vstd::arithmetic::mul::lemma_mul_is_commutative(p, pt);
        }
        vstd::arithmetic::div_mod::lemma_small_mod(qv as nat, pt as nat);
        assert(v - m == (qv - pt) * p + v % p) by (nonlinear_arith)
            requires
                v == p * qv + v % p,
                m == p * pt,
        ;
        vstd::arithmetic::div_mod::lemma_fundamental_div_mod_converse(v - m, p, qv - pt, v % p);
        vstd::arithmetic::div_mod::lemma_mod_add_multiples_vanish(qv - pt, m);
        vstd::arithmetic::div_mod::lemma_small_mod((qv - pt + m) as nat, m as nat);
    }
    r
}

/// The two's-complement value of the low `b` bits of `x` (for `b >= 1`).
pub open spec fn sign_extended(x: nat, b: nat) -> int {
    let low = x % pow2(b);
    if low >= pow2((b - 1) as nat) {
        low - pow2(b)
    } else {
        low as int
    }
}

/// The word with byte `byte_index` and all below it kept and every higher bit
/// set to that byte's top bit (`SIGNEXTEND`); the word itself once the index
/// reaches 31.
pub fn signextend(byte_index: U256, value: U256) -> (r: U256)
    ensures
        byte_index@ >= 31 ==> r == value,
        byte_index@ < 31 ==> r@ == wrap(sign_extended(value@, (8 * byte_index@ + 8) as nat)),
{
    if !lt(byte_index, U256::from_u64(32)) {
        return value;
    }
    proof {
        lemma_pow2_values();
        vstd::arithmetic::div_mod::lemma_small_mod(byte_index@, limb_base());
    }
    let bit_index = (byte_index.low_u64() as usize) * 8 + 7;
    if bit_index >= 255 {
        return value;
    }
    let b = bit_index + 1;
    let ghost pb = pow2(b as nat) as int;
    let ghost ph = pow2(bit_index as nat) as int;
    let ghost m = word_modulus() as int;
    let ghost v = value@ as int;
    proof {
        lemma_word_bound(value);
        lemma_pow2_pos(bit_index as nat);
        vstd::arithmetic::power2::lemma2_to64();
        lemma_pow2_adds(bit_index as nat, 1);
        assert(pb == ph * 2);
        vstd::arithmetic::div_mod::lemma_mod_breakdown(v, ph, 2);
        vstd::arithmetic::power2::lemma_pow2_strictly_increases(b as nat, 256);
        vstd::arithmetic::div_mod::lemma_mod_bound(v, pb);
    }
    if bit(value, bit_index) {
        let mask = shl(U256::max_value(), b);
        let r = bit_or(value, mask);
        proof {
            lemma_shifted_ones(b as nat);
            lemma_or_high_mask(value, mask, r, b as nat);
            assert(v % pb >= ph);
            vstd::arithmetic::div_mod::lemma_mod_add_multiples_vanish(v % pb - pb, m);
            vstd::arithmetic::div_mod::lemma_small_mod((v % pb - pb + m) as nat, m as nat);
        }
        r
    } else {
        let one_shifted = shl(U256::one(), b);
        proof {
            vstd::arithmetic::div_mod::lemma_small_mod(pb as nat, m as nat);
        }
        let mask = wrapping_sub(one_shifted, U256::one());
        proof {
            vstd::arithmetic::div_mod::lemma_small_mod((pb - 1) as nat, m as nat);
        }
        let r = bit_and(value, mask);
        proof {
            lemma_and_low_mask(value, mask, r, b as nat);
            assert(v % pb < ph);
            vstd::arithmetic::div_mod::lemma_small_mod((v % pb) as nat, m as nat);
        }
        r
    }
}

} // verus!
