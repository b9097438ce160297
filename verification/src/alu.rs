//! The values of the arithmetic, comparison and bitwise instructions.
use crate::arith::{
    bool_to_u256, exp, lemma_not_value, lt, sdiv, signed_greater, signed_less, smod,
    u256_to_usize, u512_to_u256,
};
use crate::bitwise::{arithmetic_shift_right, byte_at, shift_left, shift_right, signextend};
use crate::evm::{is_word_op, word_op_value};
use crate::uint::{
    add512, bit_and, bit_not, bit_or, bit_xor, div, mul512, rem, rem512, widen, wrapping_add,
    wrapping_mul, wrapping_sub,
};
use crate::word::{lemma_word_bound, word_modulus, U256};
use vstd::prelude::*;

verus! {

/// The sum or product of two words, reduced modulo `n`, as `ADDMOD` and
/// `MULMOD` compute it at 512 bits.
fn mod_combine(a: U256, b: U256, n: U256, multiply: bool) -> (r: U256)
    requires
        n@ != 0,
    ensures
        multiply ==> r@ == (a@ * b@) % n@,
        !multiply ==> r@ == (a@ + b@) % n@,
{
    proof {
        lemma_word_bound(a);
        lemma_word_bound(b);
        lemma_word_bound(n);
    }
    let ghost m = word_modulus();
    let wa = widen(a);
    let wb = widen(b);
    let wn = widen(n);
    let combined = if multiply {
        proof {
            assert(a@ * b@ < m * m) by (nonlinear_arith)
                requires
                    a@ < m,
                    b@ < m,
            ;
        }
        mul512(wa, wb)
    } else {
        proof {
            assert(a@ + b@ < m * m) by (nonlinear_arith)
                requires
                    a@ < m,
                    b@ < m,
                    m > 2,
            ;
        }
        add512(wa, wb)
    };
    let reduced = rem512(combined, wn);
    proof {
        assert(reduced@ < n@);
        vstd::arithmetic::div_mod::lemma_small_mod(reduced@, m);
    }
    u512_to_u256(reduced)
}

/// The value an arithmetic, comparison or bitwise instruction pushes, given
/// the top three stack words `a` (the top), `b` and `c`.
pub fn word_op_compute(op: u8, a: U256, b: U256, c: U256) -> (r: U256)
    requires
        is_word_op(op),
    ensures
        r@ == word_op_value(op, a, b, c),
{
    match op {
        0x01 => wrapping_add(b, a),
        0x02 => wrapping_mul(b, a),
        0x03 => wrapping_sub(b, a),
        0x04 => {
            if a.is_zero() {
                U256::zero()
            } else {
                div(b, a)
            }
        },
        0x05 => sdiv(b, a),
        0x06 => {
            if a.is_zero() {
                U256::zero()
            } else {
                rem(b, a)
            }
        },
        0x07 => smod(b, a),
        0x08 => {
            if c.is_zero() {
                U256::zero()
            } else {
                mod_combine(a, b, c, false)
            }
        },
        0x09 => {
            if c.is_zero() {
                U256::zero()
            } else {
                mod_combine(a, b, c, true)
            }
        },
        0x0a => exp(b, a),
        0x0b => signextend(a, b),
        0x10 => bool_to_u256(lt(b, a)),
        0x11 => bool_to_u256(lt(a, b)),
        0x12 => bool_to_u256(signed_less(b, a)),
        0x13 => bool_to_u256(signed_greater(b, a)),
        0x14 => bool_to_u256(a.equals(&b)),
        0x15 => bool_to_u256(a.is_zero()),
        0x16 => bit_and(b, a),
        0x17 => bit_or(b, a),
        0x18 => bit_xor(b, a),
        0x19 => {
            let r = bit_not(a);
            proof {
                lemma_not_value(a, r);
            }
            r
        },
        0x1a => byte_at(a, b),
        0x1b => shift_left(a, b),
        0x1c => shift_right(a, b),
        _ => arithmetic_shift_right(b, u256_to_usize(a)),
    }
}

} // verus!
