//! Laws of single instructions, each stated over the frame's accessors and
//! the operands on its stack: what a read of the context pushes, what an
//! arithmetic instruction computes, what a copy writes, whom a call runs as
//! and with how much gas, and what address a create pushes.
use super::{byte_len, goes_on, is_word_op, usize_of, CallKind, Evm, ExitStatus, MAX_CALL_DEPTH};
use super::context::{is_account_op, is_env_op};
use super::mem_ops::{after_write, is_copy_op, read_bytes};
use crate::address::{keccak256_digest, spec_create2_address, spec_create_address};
use crate::evm::padded;
use crate::gas::spec_words_for_size;
use crate::word::{be_value, signed_value, word_modulus, U256};
use vstd::arithmetic::power::pow;
use vstd::arithmetic::power2::pow2;
use vstd::prelude::*;

verus! {

impl Evm {
    /// An instruction that reads the frame, the transaction or the block,
    /// when it goes on, pushes the one value it names: `ADDRESS` the running
    /// account, `ORIGIN` the sender, `CALLER` and `CALLVALUE` those of the
    /// frame, `CALLDATASIZE`, `CODESIZE` and `RETURNDATASIZE` the lengths of
    /// the input, the code and the last output, `GASPRICE`, `COINBASE`,
    /// `TIMESTAMP`, `NUMBER`, `PREVRANDAO`, `GASLIMIT`, `CHAINID` and
    /// `BASEFEE` the environment's fields of those names, `SELFBALANCE` the
    /// running account's balance, `PC` the instruction's position, `MSIZE`
    /// the memory's size in whole words, and `GAS` the gas left after its
    /// own charge of 2.
    pub proof fn law_context_reads(pre: Evm, post: Evm, r: Result<Option<ExitStatus>, ExitStatus>)
        requires
            Self::machine_step(pre, post, r),
            is_env_op(pre.next_opcode()),
            r == goes_on(),
        ensures
            post.spec_stack().len() == pre.spec_stack().len() + 1,
            post.spec_stack().drop_last() == pre.spec_stack(),
            ({
                let op = pre.next_opcode();
                let v = post.spec_stack().last()@;
                let env = pre.spec_env();
                &&& op == 0x30 ==> v == pre.spec_address()@
                &&& op == 0x32 ==> v == env.origin@
                &&& op == 0x33 ==> v == pre.spec_caller()@
                &&& op == 0x34 ==> v == pre.spec_callvalue()@
                &&& op == 0x36 ==> v == pre.spec_calldata().len()
                &&& op == 0x38 ==> v == pre.spec_code().len()
                &&& op == 0x3a ==> v == env.gas_price@
                &&& op == 0x3d ==> v == pre.spec_last_return_data().len()
                &&& op == 0x41 ==> v == env.coinbase@
                &&& op == 0x42 ==> v == env.timestamp@
                &&& op == 0x43 ==> v == env.block_number@
                &&& op == 0x44 ==> v == env.prevrandao@
                &&& op == 0x45 ==> v == env.block_gas_limit@
                &&& op == 0x46 ==> v == env.chain_id@
                &&& op == 0x47 ==> v == pre.spec_world().balance(pre.spec_address())@
                &&& op == 0x48 ==> v == env.base_fee@
                &&& op == 0x58 ==> v == pre.spec_pc()
                &&& op == 0x59 ==> v == 32 * spec_words_for_size(pre.spec_memory().len())
                &&& op == 0x5a ==> v == pre.spec_gas_remaining() - 2
            }),
    {
        Self::lemma_step_env(pre, post, r);
    }

    /// `BALANCE`, `EXTCODESIZE` and `EXTCODEHASH`, when they go on, push for
    /// the popped address its balance, the length of its code, and the
    /// Keccak-256 digest of its code (zero for an account with none).
    pub proof fn law_account_reads(pre: Evm, post: Evm, r: Result<Option<ExitStatus>, ExitStatus>)
        requires
            Self::machine_step(pre, post, r),
            is_account_op(pre.next_opcode()),
            r == goes_on(),
        ensures
            post.spec_stack().len() == pre.spec_stack().len(),
            post.spec_stack().drop_last() == pre.spec_stack().drop_last(),
            ({
                let op = pre.next_opcode();
                let a = pre.spec_stack().last();
                let v = post.spec_stack().last()@;
                let w = pre.spec_world();
                &&& op == 0x31 ==> v == w.balance(a)@
                &&& op == 0x3b ==> v == w.code(a).len()
                &&& op == 0x3f && w.code(a).len() == 0 ==> v == 0
                &&& op == 0x3f && w.code(a).len() != 0 ==> v == be_value(keccak256_digest(w.code(a)))
            }),
    {
        Self::lemma_step_account(pre, post, r);
    }

    /// `CALLDATACOPY`, `CODECOPY` and `RETURNDATACOPY` pop a destination, a
    /// source offset and a size, and, when they go on, write at the
    /// destination `size` bytes from the source offset of the input or the
    /// code (zero past their end) or of the last output; `RETURNDATACOPY`
    /// reaching past the last output fails.
    pub proof fn law_copies(pre: Evm, post: Evm, r: Result<Option<ExitStatus>, ExitStatus>)
        requires
            Self::machine_step(pre, post, r),
            is_copy_op(pre.next_opcode()),
        ensures
            ({
                let op = pre.next_opcode();
                let s = pre.spec_stack();
                let n = s.len() as int;
                let m = pre.spec_memory();
                let dst = usize_of(s[n - 1]);
                let src = usize_of(s[n - 2]);
                let size = usize_of(s[n - 3]);
                let ret = pre.spec_last_return_data();
                &&& r == goes_on() ==> n >= 3 && post.spec_stack() == s.subrange(0, n - 3)
                &&& r == goes_on() && op == 0x37 ==> post.spec_memory() == after_write(
                    m,
                    dst,
                    padded(pre.spec_calldata(), src as nat, size as nat),
                )
                &&& r == goes_on() && op == 0x39 ==> post.spec_memory() == after_write(
                    m,
                    dst,
                    padded(pre.spec_code(), src as nat, size as nat),
                )
                &&& r == goes_on() && op == 0x3e ==> src + size <= ret.len()
                    && post.spec_memory() == after_write(
                    m,
                    dst,
                    ret.subrange(src as int, src + size),
                )
                &&& op == 0x3e && n >= 3 && src + size > ret.len() ==> r is Err
            }),
    {
        Self::lemma_step_copy(pre, post, r);
    }

    /// A call that goes on and is neither too deep nor sends more value than
    /// the account holds runs the code of the called account, one level
    /// deeper, from its first byte with an empty stack, on the input range
    /// of memory: `CALL` as the called account, for this account, with the
    /// value sent; `CALLCODE` as this account, for this account, with the
    /// value sent; `DELEGATECALL` as this account, for this frame's own
    /// caller, with this frame's own value; `STATICCALL` as the called
    /// account, for this account, with no value and static.
    pub proof fn law_call_runs_as(pre: Evm, post: Evm, r: Result<Option<ExitStatus>, ExitStatus>)
        requires
            Self::machine_step(pre, post, r),
            pre.next_opcode() == 0xf1 || pre.next_opcode() == 0xf2 || pre.next_opcode() == 0xf4
                || pre.next_opcode() == 0xfa,
            r == goes_on(),
            pre.spec_depth() + 1 < MAX_CALL_DEPTH,
            pre.next_opcode() == 0xf1 || pre.next_opcode() == 0xf2 ==> {
                let s = pre.spec_stack();
                let value = s[s.len() - 3];
                !(value@ != 0 && pre.spec_world().balance(pre.spec_address())@ < value@)
            },
        ensures
            exists|start: Evm, end: Evm, status: ExitStatus|
                {
                    let op = pre.next_opcode();
                    let s = pre.spec_stack();
                    let n = s.len() as int;
                    let to = s[n - 2];
                    let k: int = if op == 0xf1 || op == 0xf2 { 7 } else { 6 };
                    &&& #[trigger] Self::runs_to(start, end, status)
                    &&& start.spec_code() == pre.spec_world().code(to)
                    &&& start.spec_calldata() == read_bytes(
                        pre.spec_memory(),
                        usize_of(s[n - k + 3]),
                        usize_of(s[n - k + 2]),
                    )
                    &&& start.spec_depth() == pre.spec_depth() + 1
                    &&& start.spec_pc() == 0
                    &&& start.spec_stack().len() == 0
                    &&& op == 0xf1 ==> start.spec_address() == to && start.spec_caller()
                        == pre.spec_address() && start.spec_callvalue()@ == s[n - 3]@
                        && start.spec_is_static() == pre.spec_is_static()
                    &&& op == 0xf2 ==> start.spec_address() == pre.spec_address()
                        && start.spec_caller() == pre.spec_address() && start.spec_callvalue()@
                        == s[n - 3]@ && start.spec_is_static() == pre.spec_is_static()
                    &&& op == 0xf4 ==> start.spec_address() == pre.spec_address()
                        && start.spec_caller() == pre.spec_caller() && start.spec_callvalue()@
                        == pre.spec_callvalue()@ && start.spec_is_static()
                        == pre.spec_is_static()
                    &&& op == 0xfa ==> start.spec_address() == to && start.spec_caller()
                        == pre.spec_address() && start.spec_callvalue()@ == 0
                        && start.spec_is_static()
                },
    {
        let op = pre.next_opcode();
        let mid = Self::charged_frame(pre, post);
        let kind = Self::call_kind_of(op);
        Self::lemma_call_ran(pre, post, r);
        Self::lemma_callee_context(mid, post, kind, op);
    }

    /// Frame `pre` with its position moved past the instruction there, its
    /// static gas paid, and the trace of `post`.
    spec fn charged_frame(pre: Evm, post: Evm) -> Evm {
        Evm {
            pc: (pre.pc + 1) as usize,
            gas_remaining: (pre.gas_remaining - crate::opcodes::spec_static_gas_cost(
                pre.next_opcode(),
            )) as u64,
            trace_steps: post.trace_steps,
            ..pre
        }
    }

    /// The kind of call that opcode `op` makes.
    spec fn call_kind_of(op: u8) -> CallKind {
        if op == 0xf1 {
            CallKind::Call
        } else if op == 0xf2 {
            CallKind::CallCode
        } else if op == 0xf4 {
            CallKind::DelegateCall
        } else {
            CallKind::StaticCall
        }
    }

    /// A call step that goes on, neither too deep nor too poor, ran its
    /// callee.
    proof fn lemma_call_ran(pre: Evm, post: Evm, r: Result<Option<ExitStatus>, ExitStatus>)
        requires
            Self::machine_step(pre, post, r),
            pre.next_opcode() == 0xf1 || pre.next_opcode() == 0xf2 || pre.next_opcode() == 0xf4
                || pre.next_opcode() == 0xfa,
            r == goes_on(),
            pre.spec_depth() + 1 < MAX_CALL_DEPTH,
            pre.next_opcode() == 0xf1 || pre.next_opcode() == 0xf2 ==> {
                let s = pre.spec_stack();
                let value = s[s.len() - 3];
                !(value@ != 0 && pre.spec_world().balance(pre.spec_address())@ < value@)
            },
        ensures
            Self::callee_ran(
                Self::charged_frame(pre, post),
                post,
                Self::call_kind_of(pre.next_opcode()),
            ),
    {
        let mid = Self::charged_frame(pre, post);
        let op = pre.next_opcode();
        let kind = Self::call_kind_of(op);
        assert(Self::call_step(mid, post, kind, Ok(())));
        Self::lemma_call_step_ran(mid, post, kind);
    }

    /// A call step of `kind` that succeeded, neither too deep nor sending
    /// more value than the account holds, ran its callee.
    proof fn lemma_call_step_ran(mid: Evm, post: Evm, kind: CallKind)
        requires
            Self::call_step(mid, post, kind, Ok(())),
            mid.context.depth + 1 < MAX_CALL_DEPTH,
            !((kind == CallKind::Call || kind == CallKind::CallCode)
                && mid.stack@[mid.stack@.len() - 3]@ != 0 && mid.world.balance(
                mid.context.address,
            )@ < mid.stack@[mid.stack@.len() - 3]@),
        ensures
            Self::callee_ran(mid, post, kind),
    {
        reveal(Evm::callee_ran);
    }

    /// The callee of a call of `kind` made by opcode `op` that ran its
    /// callee started as the call's kind says.
    #[verifier::rlimit(30)]
    proof fn lemma_callee_context(mid: Evm, post: Evm, kind: CallKind, op: u8)
        requires
            Self::callee_ran(mid, post, kind),
            kind == Self::call_kind_of(op),
            op == 0xf1 || op == 0xf2 || op == 0xf4 || op == 0xfa,
        ensures
            exists|start: Evm, end: Evm, status: ExitStatus|
                {
                    let pre = mid;
                    let s = pre.spec_stack();
                    let n = s.len() as int;
                    let to = s[n - 2];
                    let k: int = if op == 0xf1 || op == 0xf2 { 7 } else { 6 };
                    &&& #[trigger] Self::runs_to(start, end, status)
                    &&& start.spec_code() == pre.spec_world().code(to)
                    &&& start.spec_calldata() == read_bytes(
                        pre.spec_memory(),
                        usize_of(s[n - k + 3]),
                        usize_of(s[n - k + 2]),
                    )
                    &&& start.spec_depth() == pre.spec_depth() + 1
                    &&& start.spec_pc() == 0
                    &&& start.spec_stack().len() == 0
                    &&& op == 0xf1 ==> start.spec_address() == to && start.spec_caller()
                        == pre.spec_address() && start.spec_callvalue()@ == s[n - 3]@
                        && start.spec_is_static() == pre.spec_is_static()
                    &&& op == 0xf2 ==> start.spec_address() == pre.spec_address()
                        && start.spec_caller() == pre.spec_address() && start.spec_callvalue()@
                        == s[n - 3]@ && start.spec_is_static() == pre.spec_is_static()
                    &&& op == 0xf4 ==> start.spec_address() == pre.spec_address()
                        && start.spec_caller() == pre.spec_caller() && start.spec_callvalue()@
                        == pre.spec_callvalue()@ && start.spec_is_static()
                        == pre.spec_is_static()
                    &&& op == 0xfa ==> start.spec_address() == to && start.spec_caller()
                        == pre.spec_address() && start.spec_callvalue()@ == 0
                        && start.spec_is_static()
                },
    {
        reveal(Evm::callee_ran);
    }

    /// `CREATE` and `CREATE2`, when they go on, push either 0 or the address
    /// of the new contract: for `CREATE` the one derived from this account
    /// and its nonce, for `CREATE2` the one derived from this account, the
    /// salt (the fourth word popped) and the init code (the memory range the
    /// second and third words name).
    pub proof fn law_create_address(pre: Evm, post: Evm, r: Result<Option<ExitStatus>, ExitStatus>)
        requires
            Self::machine_step(pre, post, r),
            pre.next_opcode() == 0xf0 || pre.next_opcode() == 0xf5,
            r == goes_on(),
        ensures
            ({
                let s = pre.spec_stack();
                let n = s.len() as int;
                let made = post.spec_stack().last()@;
                let creator = pre.spec_address();
                let init = read_bytes(pre.spec_memory(), usize_of(s[n - 2]), usize_of(s[n - 3]));
                &&& pre.next_opcode() == 0xf0 && made != 0 ==> made == spec_create_address(
                    creator@,
                    pre.spec_world().nonce(creator),
                )
                &&& pre.next_opcode() == 0xf5 && made != 0 ==> made == spec_create2_address(
                    creator@,
                    s[n - 4]@,
                    init,
                )
            }),
    {
        let op = pre.next_opcode();
        let is2 = op == 0xf5;
        let cost = crate::opcodes::spec_static_gas_cost(op);
        let mid = Evm {
            pc: (pre.pc + 1) as usize,
            gas_remaining: (pre.gas_remaining - cost) as u64,
            trace_steps: post.trace_steps,
            ..pre
        };
        assert(Self::create_step(mid, post, is2, Ok(())));
        reveal(Evm::create_ran);
        if mid.context.depth + 1 < MAX_CALL_DEPTH && !Self::create_poor(mid) && !Self::create_taken(
            mid,
            is2,
        ) {
            assert(Self::create_ran(mid, post, is2));
        }
    }

    /// The arithmetic, comparison and shift instructions, when they go on,
    /// push their value computed from the top word `x`, the one under it
    /// `y` and the third `z`, modulo `2^256`: `ADD` x + y, `MUL` x * y,
    /// `SUB` y - x, `EXP` y to the power x (paying 10 and 50 per byte of x),
    /// `DIV` y / x and `MOD` y mod x (0 when x is 0), `ADDMOD` and `MULMOD`
    /// (x + y) and (x * y) mod z (0 when z is 0), `LT` and `GT` whether
    /// y < x and y > x, `SLT` and `SGT` the same read as signed, `EQ`
    /// whether x = y, `ISZERO` whether x = 0, `NOT` all bits flipped, `BYTE`
    /// byte x of y counted from the most significant (0 past 31), `SHL` and
    /// `SHR` y shifted by x bits (0 from 256 on).
    pub proof fn law_word_values(pre: Evm, post: Evm, r: Result<Option<ExitStatus>, ExitStatus>)
        requires
            Self::machine_step(pre, post, r),
            is_word_op(pre.next_opcode()),
            r == goes_on(),
        ensures
            ({
                let op = pre.next_opcode();
                let s = pre.spec_stack();
                let n = s.len() as int;
                let x = s[n - 1]@;
                let y = s[n - 2]@;
                let z = s[n - 3]@;
                let m = word_modulus() as int;
                let v = post.spec_stack().last()@;
                &&& op == 0x0a ==> v == pow(y as int, x) % m && post.spec_gas_remaining()
                    == pre.spec_gas_remaining() - 10 - 50 * byte_len(x)
                &&& op == 0x12 ==> v == (if signed_value(y) < signed_value(x) { 1int } else { 0 })
                &&& op == 0x13 ==> v == (if signed_value(y) > signed_value(x) { 1int } else { 0 })
                &&& op == 0x01 ==> v == (x + y) as int % m
                &&& op == 0x02 ==> v == (x * y) as int % m
                &&& op == 0x03 ==> v == (y - x) % m
                &&& op == 0x04 ==> v == (if x == 0 { 0nat } else { y / x })
                &&& op == 0x06 ==> v == (if x == 0 { 0nat } else { y % x })
                &&& op == 0x08 ==> v == (if z == 0 { 0 } else { (x + y) % z })
                &&& op == 0x09 ==> v == (if z == 0 { 0 } else { (x * y) % z })
                &&& op == 0x10 ==> v == (if y < x { 1int } else { 0 })
                &&& op == 0x11 ==> v == (if y > x { 1int } else { 0 })
                &&& op == 0x14 ==> v == (if x == y { 1int } else { 0 })
                &&& op == 0x15 ==> v == (if x == 0 { 1int } else { 0 })
                &&& op == 0x19 ==> v == m - 1 - x
                &&& op == 0x1a ==> v == (if x >= 32 {
                    0
                } else {
                    (y / pow2((8 * (31 - x)) as nat)) % 256
                })
                &&& op == 0x1b ==> v == (if x >= 256 { 0int } else { (y * pow2(x)) as int % m })
                &&& op == 0x1c ==> v == (if x >= 256 { 0nat } else { y / pow2(x) })
            }),
    {
        Self::lemma_step_word(pre, post, r);
    }

    /// A call that goes on and runs its callee hands it no more gas than the
    /// top word asks for and no more than all but a 64th of the gas left
    /// after the call's static charge, besides the 2300 stipend that a
    /// `CALL` or `CALLCODE` sending value adds.
    pub proof fn law_call_gas_cap(pre: Evm, post: Evm, r: Result<Option<ExitStatus>, ExitStatus>)
        requires
            Self::machine_step(pre, post, r),
            pre.next_opcode() == 0xf1 || pre.next_opcode() == 0xf2 || pre.next_opcode() == 0xf4
                || pre.next_opcode() == 0xfa,
            r == goes_on(),
            pre.spec_depth() + 1 < MAX_CALL_DEPTH,
            pre.next_opcode() == 0xf1 || pre.next_opcode() == 0xf2 ==> {
                let s = pre.spec_stack();
                let value = s[s.len() - 3];
                !(value@ != 0 && pre.spec_world().balance(pre.spec_address())@ < value@)
            },
        ensures
            exists|start: Evm, end: Evm, status: ExitStatus|
                {
                    let op = pre.next_opcode();
                    let s = pre.spec_stack();
                    let n = s.len() as int;
                    let g = pre.spec_gas_remaining() - 700;
                    let stipend: int = if (op == 0xf1 || op == 0xf2) && s[n - 3]@ != 0 {
                        2300
                    } else {
                        0
                    };
                    &&& #[trigger] Self::runs_to(start, end, status)
                    &&& start.spec_gas_limit() <= s[n - 1]@ + stipend
                    &&& start.spec_gas_limit() <= g - g / 64 + stipend
                },
    {
        let op = pre.next_opcode();
        let mid = Self::charged_frame(pre, post);
        let kind = Self::call_kind_of(op);
        Self::lemma_call_ran(pre, post, r);
        Self::lemma_callee_gas(mid, post, kind);
        Self::lemma_call_gas_bounds(mid, kind);
    }

    /// The callee of a call that ran its callee started with `call_gas`.
    proof fn lemma_callee_gas(mid: Evm, post: Evm, kind: CallKind)
        requires
            Self::callee_ran(mid, post, kind),
        ensures
            exists|start: Evm, end: Evm, status: ExitStatus|
                #[trigger] Self::runs_to(start, end, status) && start.gas_limit == Self::call_gas(
                    mid,
                    kind,
                ),
    {
        reveal(Evm::callee_ran);
    }

    /// `call_gas` is at most the gas asked for and at most all but a 64th
    /// of the gas left, besides the stipend.
    proof fn lemma_call_gas_bounds(mid: Evm, kind: CallKind)
        requires
            mid.gas_remaining >= Self::call_charge(mid, kind),
        ensures
            Self::call_gas(mid, kind) - Self::call_stipend(mid, kind) <= mid.stack@[mid.stack@.len()
                - 1]@,
            Self::call_gas(mid, kind) - Self::call_stipend(mid, kind) <= mid.gas_remaining
                - mid.gas_remaining / 64,
    {
        reveal(Evm::call_gas);
        reveal(Evm::call_charge);
        let n = mid.stack@.len();
        let k: int = if kind == CallKind::Call || kind == CallKind::CallCode { 7 } else { 6 };
        let ranges = seq![
            (usize_of(mid.stack@[n - k + 3]), usize_of(mid.stack@[n - k + 2])),
            (usize_of(mid.stack@[n - k + 1]), usize_of(mid.stack@[n - k])),
        ];
        super::lemma_expansion_cost_nonneg(mid.memory@.len(), ranges);
        let g = mid.gas_remaining as int;
        let left = g - Self::call_charge(mid, kind);
        assert(0 <= left <= g);
        assert(left - left / 64 <= g - g / 64) by (nonlinear_arith)
            requires
                0 <= left <= g,
        ;
    }
}

} // verus!
