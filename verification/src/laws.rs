//! Properties that relate several operations of the machine.
use crate::evm::{applied_refund, jumpdests_from, sstore_base_cost, sstore_refund_delta};
use crate::gas::{
    spec_memory_cost, spec_words_for_size, COLD_ACCOUNT_ACCESS_COST, COLD_SLOAD_COST, G_CALLSTIPEND, G_CALLVALUE,
    G_COPY, G_CREATE_CODE_DEPOSIT, G_EXPBYTE, G_INITCODE_WORD, G_LOGDATA, G_MEMORY, G_NEWACCOUNT,
    G_SHA3WORD, MAX_INITCODE_SIZE, MAX_REFUND_QUOTIENT, SLOAD_GAS, SSTORE_CLEARS_SCHEDULE,
    SSTORE_RESET_GAS, SSTORE_SET_GAS, SSTORE_STIPEND, WARM_STORAGE_READ_COST,
};
use crate::memory::{expanded, overwritten};
use crate::opcodes::{spec_is_push, spec_static_gas_cost};
use crate::storage::spec_load;
use crate::word::{
    be_bytes, be_value, lemma_be_bytes_len, lemma_be_value_of_bytes, lemma_pow2_values,
    lemma_word_bound, word_modulus, wrap, zero_word, U256,
};
use vstd::prelude::*;

verus! {

/// Storage gives back what was last written to a slot, and a write leaves
/// every other slot as it was; a slot never written reads as zero.
pub proof fn law_storage_read_after_write(m: Map<U256, U256>, key: U256, value: U256, other: U256)
    ensures
        spec_load(m.insert(key, value), key) == value,
        other != key ==> spec_load(m.insert(key, value), other) == spec_load(m, other),
        !m.dom().contains(other) ==> spec_load(m, other) == zero_word(),
{
}

/// A word stored in memory with `MSTORE` is the word `MLOAD` reads back at
/// the same offset.
pub proof fn law_memory_load_after_store(mem: Seq<u8>, offset: nat, value: U256)
    ensures
        be_value(
            overwritten(mem, offset, be_bytes(value@, 32)).subrange(offset as int, (offset + 32) as int),
        ) == value@,
{
    let bytes = be_bytes(value@, 32);
    lemma_be_bytes_len(value@, 32);
    let m2 = overwritten(mem, offset, bytes);
    assert(m2.subrange(offset as int, (offset + 32) as int) =~= bytes);
    lemma_be_value_of_bytes(value@, 32);
    lemma_pow2_values();
    lemma_word_bound(value);
    assert(8 * 32nat == 256);
    vstd::arithmetic::div_mod::lemma_small_mod(value@, word_modulus());
}

/// Memory grows with zero bytes: growing keeps every byte already there and
/// every new byte reads as zero.
pub proof fn law_memory_grows_with_zeros(mem: Seq<u8>, end: nat, i: int)
    requires
        0 <= i < expanded(mem, end).len(),
    ensures
        expanded(mem, end).len() == (if end > mem.len() {
            end
        } else {
            mem.len()
        }),
        i < mem.len() ==> expanded(mem, end)[i] == mem[i],
        i >= mem.len() ==> expanded(mem, end)[i] == 0,
{
}

/// Every jump destination found by the scan from `start` holds a
/// `JUMPDEST` byte within the code.
pub proof fn law_jumpdests_are_jumpdest_bytes(code: Seq<u8>, start: nat, p: nat)
    ensures
        jumpdests_from(code, start).contains(p) ==> start <= p < code.len() && code[p as int]
            == 0x5b,
    decreases code.len() + 33 - start,
{
    if start < code.len() {
        let op = code[start as int];
        let next = if spec_is_push(op) {
            start + 1 + (op - 0x5f) as nat
        } else {
            start + 1
        };
        law_jumpdests_are_jumpdest_bytes(code, next, p);
        let rest = jumpdests_from(code, next);
        assert(jumpdests_from(code, start) == (if op == 0x5b {
            rest.insert(start)
        } else {
            rest
        }));
    }
}

/// The bytes a push carries are skipped: nothing between a push at `q` and
/// the end of its data is a jump destination.
pub proof fn law_push_data_is_no_jumpdest(code: Seq<u8>, q: nat, p: nat)
    requires
        q < code.len(),
        spec_is_push(code[q as int]),
        q < p <= q + (code[q as int] - 0x5f),
    ensures
        !jumpdests_from(code, q).contains(p),
{
    let next = q + 1 + (code[q as int] - 0x5f) as nat;
    assert(jumpdests_from(code, q) == jumpdests_from(code, next));
    law_jumpdests_are_jumpdest_bytes(code, next, p);
}

/// The scan for jump destinations from an instruction at `p`: a
/// `JUMPDEST` there is a destination; a push there hides exactly its `n`
/// data bytes, the scan going on right after them; any other instruction
/// hides nothing, the scan going on at the next byte.
pub proof fn law_jumpdest_scan(code: Seq<u8>, p: nat)
    requires
        p < code.len(),
    ensures
        code[p as int] == 0x5b ==> jumpdests_from(code, p).contains(p),
        spec_is_push(code[p as int]) ==> jumpdests_from(code, p) == jumpdests_from(
            code,
            p + 1 + (code[p as int] - 0x5f) as nat,
        ),
        !spec_is_push(code[p as int]) ==> forall|q: nat|
            q != p ==> (#[trigger] jumpdests_from(code, p).contains(q) <==> jumpdests_from(
                code,
                p + 1,
            ).contains(q)),
{
}

/// `size` bytes fill `ceil(size / 32)` words of memory (while that fits in
/// 64 bits).
pub proof fn law_words_for_size(size: nat)
    requires
        size + 31 <= u64::MAX,
    ensures
        spec_words_for_size(size) == (size + 31) / 32,
{
}

/// Memory of `a` words costs `3a + floor(a^2 / 512)` gas in all, while
/// `a^2` fits in 64 bits (past that the charge is held at the largest
/// 64-bit value).
pub proof fn law_memory_cost_formula(a: nat)
    requires
        a * a <= u64::MAX,
    ensures
        spec_memory_cost(a) == 3 * a + a * a / 512,
{
    assert(a < 0x1_0000_0000) by (nonlinear_arith)
        requires
            a * a <= u64::MAX,
    {
        if a >= 0x1_0000_0000 {
            assert(a * a >= 0x1_0000_0000 * 0x1_0000_0000);
        }
    }
    assert(a * a / 512 <= u64::MAX / 512) by (nonlinear_arith)
        requires
            a * a <= u64::MAX,
    ;
}

/// `SSTORE` charges and refunds by the slot's original value (at the start
/// of the transaction), its current value and the new one: writing the
/// current value again costs 100 and refunds nothing; the first change of a
/// clean slot costs 20000 from zero and 2900 otherwise, refunding 4800 when
/// it clears a slot that was set; a further change of a dirty slot costs 100
/// and moves the refund by -4800 if it revives a cleared slot, by 4800 if it
/// clears it again, and by 19900 (from zero) or 2800 (otherwise) if it puts
/// the original value back.
pub proof fn law_sstore_schedule(original: U256, current: U256, new_value: U256)
    ensures
        new_value == current ==> sstore_base_cost(original, current, new_value) == 100
            && sstore_refund_delta(original, current, new_value) == 0,
        new_value != current && original == current ==> {
            &&& sstore_base_cost(original, current, new_value) == (if original@ == 0 {
                20000u64
            } else {
                2900
            })
            &&& sstore_refund_delta(original, current, new_value) == (if original@ != 0
                && new_value@ == 0 {
                4800int
            } else {
                0
            })
        },
        new_value != current && original != current ==> {
            &&& sstore_base_cost(original, current, new_value) == 100
            &&& sstore_refund_delta(original, current, new_value) == (if original@ != 0
                && current@ == 0 {
                -4800int
            } else {
                0
            }) + (if original@ != 0 && new_value@ == 0 {
                4800int
            } else {
                0
            }) + (if new_value == original {
                if original@ == 0 {
                    19900int
                } else {
                    2800
                }
            } else {
                0
            })
        },
{
}

/// The static gas of each instruction, by the schedule's tiers: nothing for
/// `STOP`, `RETURN`, `REVERT` and `SSTORE` (which charges by itself); 1 for
/// `JUMPDEST`; 2 for reads of the frame, the transaction and the block,
/// `POP`, `PC`, `MSIZE` and `GAS`; 3 for `ADD`, `SUB`, comparisons, bitwise
/// logic and shifts, input loads, copies, memory loads and stores, pushes,
/// duplications and exchanges; 5 for `MUL`, the divisions and remainders and
/// `SIGNEXTEND`; 8 for `ADDMOD`, `MULMOD` and `JUMP`; 10 for `EXP` and
/// `JUMPI`; 20 for `BLOCKHASH`; 30 for `SHA3`; 100 for the warm reads of
/// other accounts and of storage; 375 per topic and one more for logs;
/// 700 for calls; 5000 for `SELFDESTRUCT`; 32000 for creates.
pub proof fn law_static_gas_tiers(op: u8)
    ensures
        op == 0x00 || op == 0xf3 || op == 0xfd || op == 0x55 ==> spec_static_gas_cost(op) == 0,
        op == 0x5b ==> spec_static_gas_cost(op) == 1,
        op == 0x30 || op == 0x32 || op == 0x33 || op == 0x34 || op == 0x36 || op == 0x38 || op
            == 0x3a || op == 0x3d || (0x41 <= op <= 0x48) || op == 0x50 || op == 0x58 || op == 0x59
            || op == 0x5a ==> spec_static_gas_cost(op) == 2,
        op == 0x01 || op == 0x03 || (0x10 <= op <= 0x1d) || op == 0x35 || op == 0x37 || op == 0x39
            || op == 0x3e || op == 0x51 || op == 0x52 || op == 0x53 || op == 0x5e || (0x60 <= op
            <= 0x9f) ==> spec_static_gas_cost(op) == 3,
        op == 0x02 || (0x04 <= op <= 0x07) || op == 0x0b ==> spec_static_gas_cost(op) == 5,
        op == 0x08 || op == 0x09 || op == 0x56 ==> spec_static_gas_cost(op) == 8,
        op == 0x0a || op == 0x57 ==> spec_static_gas_cost(op) == 10,
        op == 0x40 ==> spec_static_gas_cost(op) == 20,
        op == 0x20 ==> spec_static_gas_cost(op) == 30,
        op == 0x31 || op == 0x3b || op == 0x3c || op == 0x3f || op == 0x54 ==> spec_static_gas_cost(
            op,
        ) == 100,
        0xa0 <= op <= 0xa4 ==> spec_static_gas_cost(op) == 375 * (op - 0xa0 + 1),
        op == 0xf1 || op == 0xf2 || op == 0xf4 || op == 0xfa ==> spec_static_gas_cost(op) == 700,
        op == 0xff ==> spec_static_gas_cost(op) == 5000,
        op == 0xf0 || op == 0xf5 ==> spec_static_gas_cost(op) == 32000,
{
}

/// The schedule's constants: memory 3 a word, copies 3 a word, hashing 6 a
/// word, log data 8 a byte, 50 an exponent byte; warm reads 100, cold
/// storage reads 2100, cold account reads 2600; a value transfer 9000, a
/// new account 25000, the stipend 2300; the code deposit 200 a byte, init
/// code 2 a word and at most 49152 bytes; setting a slot 20000, resetting
/// it 2900, clearing it refunds 4800; `SSTORE` needs more than 2300 gas
/// left; refunds are capped at a fifth of the gas used.
pub proof fn law_gas_constants()
    ensures
        G_MEMORY == 3 && G_COPY == 3 && G_SHA3WORD == 6 && G_LOGDATA == 8 && G_EXPBYTE == 50,
        WARM_STORAGE_READ_COST == 100 && COLD_SLOAD_COST == 2100 && COLD_ACCOUNT_ACCESS_COST
            == 2600,
        G_CALLVALUE == 9000 && G_NEWACCOUNT == 25000 && G_CALLSTIPEND == 2300,
        G_CREATE_CODE_DEPOSIT == 200 && G_INITCODE_WORD == 2 && MAX_INITCODE_SIZE == 49152,
        SSTORE_SET_GAS == 20000 && SSTORE_RESET_GAS == 2900 && SLOAD_GAS == 100
            && SSTORE_CLEARS_SCHEDULE == 4800 && SSTORE_STIPEND == 2300,
        MAX_REFUND_QUOTIENT == 5,
{
}

/// Adding a word and then subtracting it again gives back the first word,
/// modulo `2^256`.
pub proof fn law_add_then_sub(a: U256, b: U256)
    ensures
        wrap(wrap((a@ + b@) as int) - b@) == a@,
{
    lemma_word_bound(a);
    lemma_word_bound(b);
    let m = word_modulus() as int;
    let s = wrap((a@ + b@) as int) as int;
    let t = (a@ + b@) as int;
    vstd::arithmetic::div_mod::lemma_fundamental_div_mod(t, m);
    let q = t / m;
    assert(s == a@ + b@ - m * q);
    assert(s - b@ == a@ + (-q) * m);
    vstd::arithmetic::div_mod::lemma_mod_multiples_vanish(-q, a@ as int, m);
    vstd::arithmetic::div_mod::lemma_small_mod(a@, m as nat);
}

/// Negating a word twice gives it back.
pub proof fn law_negate_twice(x: U256)
    ensures
        wrap(-(wrap(-(x@ as int)) as int)) == x@,
{
    lemma_word_bound(x);
    let m = word_modulus() as int;
    let n = wrap(-(x@ as int)) as int;
    vstd::arithmetic::div_mod::lemma_fundamental_div_mod(-(x@ as int), m);
    let q = (-(x@ as int)) / m;
    assert(n == -(x@ as int) - m * q);
    assert(-n == x@ + q * m);
    vstd::arithmetic::div_mod::lemma_mod_multiples_vanish(q, x@ as int, m);
    vstd::arithmetic::div_mod::lemma_small_mod(x@, m as nat);
}

/// The refund a successful transaction gets back is never negative, never
/// more than a fifth of the gas used, and is the whole counter when that
/// fits under the cap.
pub proof fn law_refund_cap(refund: i128, used: int)
    requires
        used >= 0,
    ensures
        0 <= applied_refund(refund, used) <= used / 5,
        0 <= refund <= used / 5 ==> applied_refund(refund, used) == refund,
        refund > used / 5 ==> applied_refund(refund, used) == used / 5,
{
}

} // verus!
