//! Gas schedule constants and the formulas for dynamic charges.
use vstd::prelude::*;

verus! {

/// Gas per word of memory.
pub const G_MEMORY: u64 = 3;

/// Gas per word copied.
pub const G_COPY: u64 = 3;

/// Gas per word hashed by `SHA3`.
pub const G_SHA3WORD: u64 = 6;

/// Gas per byte of log data.
pub const G_LOGDATA: u64 = 8;

/// Gas per byte of an `EXP` exponent.
pub const G_EXPBYTE: u64 = 50;

/// Cost of touching an already warm account or slot.
pub const WARM_STORAGE_READ_COST: u64 = 100;

/// Cost of the first touch of a storage slot.
pub const COLD_SLOAD_COST: u64 = 2100;

/// Cost of the first touch of an account.
pub const COLD_ACCOUNT_ACCESS_COST: u64 = 2600;

/// Extra cost of a call that transfers value.
pub const G_CALLVALUE: u64 = 9000;

/// Extra cost of a value call to an account that does not exist.
pub const G_NEWACCOUNT: u64 = 25000;

/// Gas granted to the callee of a value call on top of what is forwarded.
pub const G_CALLSTIPEND: u64 = 2300;

/// Gas per byte of deployed code.
pub const G_CREATE_CODE_DEPOSIT: u64 = 200;

/// Gas per word of init code.
pub const G_INITCODE_WORD: u64 = 2;

/// The largest init code a create may run.
pub const MAX_INITCODE_SIZE: usize = 49152;

/// Cost of setting a zero slot to a nonzero value.
pub const SSTORE_SET_GAS: u64 = 20000;

/// Cost of changing a nonzero slot.
pub const SSTORE_RESET_GAS: u64 = 2900;

/// Cost of a store that is no first change of its slot.
pub const SLOAD_GAS: u64 = 100;

/// `SSTORE` fails when no more gas than this remains.
pub const SSTORE_STIPEND: u64 = 2300;

/// Refund for clearing a slot.
pub const SSTORE_CLEARS_SCHEDULE: i64 = 4800;

/// The refund is capped at the gas used divided by this.
pub const MAX_REFUND_QUOTIENT: u64 = 5;

/// An integer clamped to the range of `u64` from above.
pub open spec fn sat(n: int) -> int {
    if n > u64::MAX {
        u64::MAX as int
    } else {
        n
    }
}

/// Multiplication that saturates at `u64::MAX`.
pub fn saturating_mul(a: u64, b: u64) -> (r: u64)
    ensures
        r == sat(a * b),
{
    match a.checked_mul(b) {
        Some(p) => p,
        None => u64::MAX,
    }
}

/// The number of 32-byte words that `size` bytes occupy, computed in `u64`
/// with the rounding addition saturating.
pub open spec fn spec_words_for_size(size: nat) -> nat {
    (sat((size + 31) as int) / 32) as nat
}

/// The number of 32-byte words that `size` bytes occupy.
pub fn words_for_size(size: usize) -> (r: u64)
    ensures
        r == spec_words_for_size(size as nat),
        size + 31 <= u64::MAX ==> r == (size + 31) / 32,
{
    if size == 0 {
        return 0;
    }
    (size as u64).saturating_add(31) / 32
}

/// The number of words that memory must hold for `size` bytes at `offset`
/// to be in bounds: none for an empty range.
pub open spec fn spec_words_for_range(offset: nat, size: nat) -> nat {
    if size == 0 {
        0
    } else {
        spec_words_for_size(sat_usize(offset + size))
    }
}

/// An integer clamped to the range of `usize` from above.
pub open spec fn sat_usize(n: nat) -> nat {
    if n > usize::MAX {
        usize::MAX as nat
    } else {
        n
    }
}

/// The number of words that memory must hold for `size` bytes at `offset`.
pub fn words_for_range(offset: usize, size: usize) -> (r: u64)
    ensures
        r == spec_words_for_range(offset as nat, size as nat),
{
    if size == 0 {
        return 0;
    }
    let end = offset.saturating_add(size);
    words_for_size(end)
}

/// The total memory charge for `words` words, `3a + a^2 / 512` with each
/// step saturating in `u64`.
pub open spec fn spec_memory_cost(words: nat) -> int {
    sat(sat((3 * words) as int) + sat((words * words) as int) / 512)
}

/// The total memory charge for `words` words.
pub fn memory_cost(words: u64) -> (r: u64)
    ensures
        r == spec_memory_cost(words as nat),
        words < 0x1_0000_0000 ==> r == 3 * words + (words * words) / 512,
{
    proof {
        if words < 0x1_0000_0000 {
            assert(words * words < 0x1_0000_0000_0000_0000) by (nonlinear_arith)
                requires
                    words < 0x1_0000_0000,
            ;
        }
    }
    saturating_mul(G_MEMORY, words).saturating_add(saturating_mul(words, words) / 512)
}

/// The charge for copying `size` bytes: three gas per word.
pub open spec fn spec_copy_cost(size: nat) -> int {
    sat((spec_words_for_size(size) * 3) as int)
}

/// The charge for copying `size` bytes.
pub fn copy_cost(size: usize) -> (r: u64)
    ensures
        r == spec_copy_cost(size as nat),
{
    saturating_mul(words_for_size(size), G_COPY)
}

/// All but one 64th of the available gas, the most a call may forward.
pub fn max_call_gas(gas: u64) -> (r: u64)
    ensures
        r == gas - gas / 64,
{
    gas.saturating_sub(gas / 64)
}


/// More words never cost less.
pub proof fn lemma_memory_cost_monotonic(w1: nat, w2: nat)
    requires
        w1 <= w2,
    ensures
        spec_memory_cost(w1) <= spec_memory_cost(w2),
{
    assert(w1 * w1 <= w2 * w2) by (nonlinear_arith)
        requires
            w1 <= w2,
    ;
    let a1 = sat((w1 * w1) as int);
    let a2 = sat((w2 * w2) as int);
    assert(a1 <= a2);
    assert(a1 / 512 <= a2 / 512) by (nonlinear_arith)
        requires
            a1 <= a2,
    ;
}

/// More bytes never take fewer words.
pub proof fn lemma_words_monotonic(s1: nat, s2: nat)
    requires
        s1 <= s2,
    ensures
        spec_words_for_size(s1) <= spec_words_for_size(s2),
{
    let a = sat((s1 + 31) as int);
    let b = sat((s2 + 31) as int);
    assert(a <= b);
    assert(a / 32 <= b / 32) by (nonlinear_arith)
        requires
            a <= b,
    ;
}


} // verus!
