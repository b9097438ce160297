//! Arithmetic on words, computed by the `primitive-types` crate.
//!
//! Each function here converts the library's words to the crate's `U256` or
//! `U512`, makes one call, and converts the result back. Their contracts state
//! what the crate's source computes; Verus takes them on trust.
use crate::word::{be_bytes, be_value, word_modulus, wrap, U256, U512};
use std::cmp::Ordering;
use vstd::arithmetic::power2::pow2;
use vstd::prelude::*;

verus! {

/// `primitive_types::U256::overflowing_add`, keeping the wrapped sum:
/// the sum modulo `2^256`.
#[verifier::external_body]
pub(crate) fn wrapping_add(a: U256, b: U256) -> (r: U256)
    ensures
        r@ == wrap((a@ + b@) as int),
{
    let x = primitive_types::U256([a.l0, a.l1, a.l2, a.l3]);
    let y = primitive_types::U256([b.l0, b.l1, b.l2, b.l3]);
    let (s, _) = x.overflowing_add(y);
    U256 { l0: s.0[0], l1: s.0[1], l2: s.0[2], l3: s.0[3] }
}

/// `primitive_types::U256::overflowing_sub`, keeping the wrapped difference:
/// the difference modulo `2^256`.
#[verifier::external_body]
pub(crate) fn wrapping_sub(a: U256, b: U256) -> (r: U256)
    ensures
        r@ == wrap(a@ - b@),
{
    let x = primitive_types::U256([a.l0, a.l1, a.l2, a.l3]);
    let y = primitive_types::U256([b.l0, b.l1, b.l2, b.l3]);
    let (s, _) = x.overflowing_sub(y);
    U256 { l0: s.0[0], l1: s.0[1], l2: s.0[2], l3: s.0[3] }
}

/// `primitive_types::U256::overflowing_mul`, keeping the wrapped product:
/// the product modulo `2^256`.
#[verifier::external_body]
pub(crate) fn wrapping_mul(a: U256, b: U256) -> (r: U256)
    ensures
        r@ == wrap((a@ * b@) as int),
{
    let x = primitive_types::U256([a.l0, a.l1, a.l2, a.l3]);
    let y = primitive_types::U256([b.l0, b.l1, b.l2, b.l3]);
    let (s, _) = x.overflowing_mul(y);
    U256 { l0: s.0[0], l1: s.0[1], l2: s.0[2], l3: s.0[3] }
}

/// `Div` on `primitive_types::U256`: the floor quotient. The crate panics on a
/// zero divisor, which `requires` rules out.
#[verifier::external_body]
pub(crate) fn div(a: U256, b: U256) -> (r: U256)
    requires
        b@ != 0,
    ensures
        r@ == a@ / b@,
{
    let x = primitive_types::U256([a.l0, a.l1, a.l2, a.l3]);
    let y = primitive_types::U256([b.l0, b.l1, b.l2, b.l3]);
    let s = x / y;
    U256 { l0: s.0[0], l1: s.0[1], l2: s.0[2], l3: s.0[3] }
}

/// `Rem` on `primitive_types::U256`: the remainder of floor division. The
/// crate panics on a zero divisor, which `requires` rules out.
#[verifier::external_body]
pub(crate) fn rem(a: U256, b: U256) -> (r: U256)
    requires
        b@ != 0,
    ensures
        r@ == a@ % b@,
{
    let x = primitive_types::U256([a.l0, a.l1, a.l2, a.l3]);
    let y = primitive_types::U256([b.l0, b.l1, b.l2, b.l3]);
    let s = x % y;
    U256 { l0: s.0[0], l1: s.0[1], l2: s.0[2], l3: s.0[3] }
}

/// `BitAnd` on `primitive_types::U256`: the conjunction of each pair of limbs.
#[verifier::external_body]
pub(crate) fn bit_and(a: U256, b: U256) -> (r: U256)
    ensures
        r.l0 == a.l0 & b.l0,
        r.l1 == a.l1 & b.l1,
        r.l2 == a.l2 & b.l2,
        r.l3 == a.l3 & b.l3,
{
    let x = primitive_types::U256([a.l0, a.l1, a.l2, a.l3]);
    let y = primitive_types::U256([b.l0, b.l1, b.l2, b.l3]);
    let s = x & y;
    U256 { l0: s.0[0], l1: s.0[1], l2: s.0[2], l3: s.0[3] }
}

/// `BitOr` on `primitive_types::U256`: the disjunction of each pair of limbs.
#[verifier::external_body]
pub(crate) fn bit_or(a: U256, b: U256) -> (r: U256)
    ensures
        r.l0 == a.l0 | b.l0,
        r.l1 == a.l1 | b.l1,
        r.l2 == a.l2 | b.l2,
        r.l3 == a.l3 | b.l3,
{
    let x = primitive_types::U256([a.l0, a.l1, a.l2, a.l3]);
    let y = primitive_types::U256([b.l0, b.l1, b.l2, b.l3]);
    let s = x | y;
    U256 { l0: s.0[0], l1: s.0[1], l2: s.0[2], l3: s.0[3] }
}

/// `BitXor` on `primitive_types::U256`: the exclusive or of each pair of limbs.
#[verifier::external_body]
pub(crate) fn bit_xor(a: U256, b: U256) -> (r: U256)
    ensures
        r.l0 == a.l0 ^ b.l0,
        r.l1 == a.l1 ^ b.l1,
        r.l2 == a.l2 ^ b.l2,
        r.l3 == a.l3 ^ b.l3,
{
    let x = primitive_types::U256([a.l0, a.l1, a.l2, a.l3]);
    let y = primitive_types::U256([b.l0, b.l1, b.l2, b.l3]);
    let s = x ^ y;
    U256 { l0: s.0[0], l1: s.0[1], l2: s.0[2], l3: s.0[3] }
}

/// `Not` on `primitive_types::U256`: the complement of each limb.
#[verifier::external_body]
pub(crate) fn bit_not(a: U256) -> (r: U256)
    ensures
        r.l0 == !a.l0,
        r.l1 == !a.l1,
        r.l2 == !a.l2,
        r.l3 == !a.l3,
{
    let x = primitive_types::U256([a.l0, a.l1, a.l2, a.l3]);
    let s = !x;
    U256 { l0: s.0[0], l1: s.0[1], l2: s.0[2], l3: s.0[3] }
}

/// `Shl<usize>` on `primitive_types::U256`: multiplication by `2^shift`,
/// modulo `2^256` (so zero once the shift reaches 256).
#[verifier::external_body]
pub(crate) fn shl(a: U256, shift: usize) -> (r: U256)
    ensures
        r@ == wrap((a@ * pow2(shift as nat)) as int),
{
    let x = primitive_types::U256([a.l0, a.l1, a.l2, a.l3]);
    let s = x << shift;
    U256 { l0: s.0[0], l1: s.0[1], l2: s.0[2], l3: s.0[3] }
}

/// `Shr<usize>` on `primitive_types::U256`: floor division by `2^shift`.
#[verifier::external_body]
pub(crate) fn shr(a: U256, shift: usize) -> (r: U256)
    ensures
        r@ == a@ / pow2(shift as nat),
{
    let x = primitive_types::U256([a.l0, a.l1, a.l2, a.l3]);
    let s = x >> shift;
    U256 { l0: s.0[0], l1: s.0[1], l2: s.0[2], l3: s.0[3] }
}

/// `primitive_types::U256::bit`: whether bit `index` is set. The crate panics
/// for an index past the word, which `requires` rules out.
#[verifier::external_body]
pub(crate) fn bit(a: U256, index: usize) -> (r: bool)
    requires
        index < 256,
    ensures
        r == ((a@ / pow2(index as nat)) % 2 == 1),
{
    let x = primitive_types::U256([a.l0, a.l1, a.l2, a.l3]);
    x.bit(index)
}

/// `Ord::cmp` on `primitive_types::U256`: the numeric order of the values.
#[verifier::external_body]
pub(crate) fn compare(a: U256, b: U256) -> (r: Ordering)
    ensures
        (r == Ordering::Less) == (a@ < b@),
        (r == Ordering::Equal) == (a@ == b@),
        (r == Ordering::Greater) == (a@ > b@),
{
    let x = primitive_types::U256([a.l0, a.l1, a.l2, a.l3]);
    let y = primitive_types::U256([b.l0, b.l1, b.l2, b.l3]);
    x.cmp(&y)
}

/// `primitive_types::U256::from_big_endian`: the value of at most 32
/// big-endian bytes. The crate panics on a longer slice, which `requires`
/// rules out.
#[verifier::external_body]
pub(crate) fn from_big_endian(bytes: &[u8]) -> (r: U256)
    requires
        bytes@.len() <= 32,
    ensures
        r@ == be_value(bytes@),
{
    let s = primitive_types::U256::from_big_endian(bytes);
    U256 { l0: s.0[0], l1: s.0[1], l2: s.0[2], l3: s.0[3] }
}

/// `primitive_types::U256::to_big_endian`: the 32 big-endian bytes of a word.
#[verifier::external_body]
pub(crate) fn to_big_endian(a: U256) -> (r: [u8; 32])
    ensures
        r@ == be_bytes(a@, 32),
{
    let x = primitive_types::U256([a.l0, a.l1, a.l2, a.l3]);
    x.to_big_endian()
}

/// `From<U256> for U512`: the same value at twice the width.
#[verifier::external_body]
pub(crate) fn widen(a: U256) -> (r: U512)
    ensures
        r@ == a@,
{
    let s = primitive_types::U512::from(primitive_types::U256([a.l0, a.l1, a.l2, a.l3]));
    U512 { limbs: s.0 }
}

/// `Add` on `primitive_types::U512`: the sum. The crate panics when the sum
/// overflows 512 bits, which `requires` rules out.
#[verifier::external_body]
pub(crate) fn add512(a: U512, b: U512) -> (r: U512)
    requires
        a@ + b@ < word_modulus() * word_modulus(),
    ensures
        r@ == a@ + b@,
{
    U512 { limbs: (primitive_types::U512(a.limbs) + primitive_types::U512(b.limbs)).0 }
}

/// `Mul` on `primitive_types::U512`: the product. The crate panics when the
/// product overflows 512 bits, which `requires` rules out.
#[verifier::external_body]
pub(crate) fn mul512(a: U512, b: U512) -> (r: U512)
    requires
        a@ * b@ < word_modulus() * word_modulus(),
    ensures
        r@ == a@ * b@,
{
    U512 { limbs: (primitive_types::U512(a.limbs) * primitive_types::U512(b.limbs)).0 }
}

/// `Rem` on `primitive_types::U512`: the remainder of floor division. The
/// crate panics on a zero divisor, which `requires` rules out.
#[verifier::external_body]
pub(crate) fn rem512(a: U512, b: U512) -> (r: U512)
    requires
        b@ != 0,
    ensures
        r@ == a@ % b@,
{
    U512 { limbs: (primitive_types::U512(a.limbs) % primitive_types::U512(b.limbs)).0 }
}

/// `primitive_types::U512::to_big_endian`: the 64 big-endian bytes.
#[verifier::external_body]
pub(crate) fn to_big_endian512(a: U512) -> (r: [u8; 64])
    ensures
        r@ == be_bytes(a@, 64),
{
    primitive_types::U512(a.limbs).to_big_endian()
}

} // verus!
