//! What a run is made of, stated over the frame's accessors: how a run
//! goes on from its first step, and what one step does for the
//! instructions that work on the stack alone, for jumps, for memory loads,
//! stores and returns, for storage reads and writes, for input loads, for
//! logs, hashing and copies, for the reads of the frame, the transaction,
//! the block and other accounts, for `SELFDESTRUCT`, and for bytes that
//! are no instruction.
use super::{
    failed_with, goes_on, is_word_op, padded, spec_expansion_cost, sstore_base_cost,
    sstore_refund_delta, stopped_with, usize_of, word_op_arity, word_op_done, Evm, ExitStatus,
};
use crate::assoc::SlotKey;
use crate::gas::{
    sat, spec_copy_cost, spec_words_for_size, COLD_ACCOUNT_ACCESS_COST, COLD_SLOAD_COST,
    SSTORE_STIPEND, WARM_STORAGE_READ_COST,
};
use crate::storage::spec_load;
use super::context::{is_account_op, is_env_op};
use super::mem_ops::{after_read, after_write, is_copy_op, read_bytes};
use crate::address::keccak256_digest;
use crate::memory::overwritten;
use super::ops::exp_gas;
use crate::opcodes::{
    spec_is_dup, spec_is_push, spec_is_swap, spec_log_topics, spec_static_gas_cost,
};
use crate::stack::STACK_LIMIT;
use crate::word::{be_bytes, be_value, U256};
use vstd::prelude::*;

verus! {

impl Evm {
    /// The two frames agree in what no instruction changes: the code and its
    /// jump targets, the gas limit, the input, the depth, the account,
    /// tracing, whether the frame is static, and the environment.
    pub open spec fn agrees_in_context(&self, other: &Evm) -> bool {
        &&& self.spec_code() == other.spec_code()
        &&& self.spec_jumpdests() == other.spec_jumpdests()
        &&& self.spec_gas_limit() == other.spec_gas_limit()
        &&& self.spec_calldata() == other.spec_calldata()
        &&& self.spec_depth() == other.spec_depth()
        &&& self.spec_address() == other.spec_address()
        &&& self.spec_trace() == other.spec_trace()
        &&& self.spec_is_static() == other.spec_is_static()
        &&& self.spec_env() == other.spec_env()
    }

    /// The two frames agree in all but their stack, position, gas, trace,
    /// memory and output.
    pub open spec fn agrees_outside_output(&self, other: &Evm) -> bool {
        &&& self.agrees_in_context(other)
        &&& self.spec_refund() == other.spec_refund()
        &&& self.spec_last_return_data() == other.spec_last_return_data()
        &&& self.spec_logs() == other.spec_logs()
        &&& self.spec_world() == other.spec_world()
        &&& self.spec_accessed_addresses() == other.spec_accessed_addresses()
        &&& self.spec_accessed_slots() == other.spec_accessed_slots()
    }

    /// The two frames agree in all but their stack, position, gas, trace and
    /// memory.
    pub open spec fn agrees_outside_memory(&self, other: &Evm) -> bool {
        &&& self.agrees_outside_output(other)
        &&& self.spec_return_data() == other.spec_return_data()
    }

    /// The two frames agree in all but their stack, position, gas and trace.
    pub open spec fn agrees_outside_stack(&self, other: &Evm) -> bool {
        &&& self.agrees_outside_memory(other)
        &&& self.spec_memory() == other.spec_memory()
    }

    /// The two frames agree in their machine: position, stack, memory, code,
    /// refund counter, depth, outputs, logs, account and access lists.
    pub open spec fn agrees_in_machine(&self, other: &Evm) -> bool {
        &&& self.spec_pc() == other.spec_pc()
        &&& self.spec_stack() == other.spec_stack()
        &&& self.spec_memory() == other.spec_memory()
        &&& self.spec_code() == other.spec_code()
        &&& self.spec_jumpdests() == other.spec_jumpdests()
        &&& self.spec_refund() == other.spec_refund()
        &&& self.spec_depth() == other.spec_depth()
        &&& self.spec_return_data() == other.spec_return_data()
        &&& self.spec_last_return_data() == other.spec_last_return_data()
        &&& self.spec_logs() == other.spec_logs()
        &&& self.spec_address() == other.spec_address()
        &&& self.spec_is_static() == other.spec_is_static()
        &&& self.spec_accessed_addresses() == other.spec_accessed_addresses()
        &&& self.spec_accessed_slots() == other.spec_accessed_slots()
        &&& self.spec_trace_steps() == other.spec_trace_steps()
    }

    /// What the builders keep: frames that differ only in their input,
    /// their tracing, their gas or their world agree in their machine and in
    /// each of the other three.
    pub proof fn lemma_differs_only(a: Evm, b: Evm)
        ensures
            a.differs_only_in_calldata(&b) || a.differs_only_in_trace(&b) || a.differs_only_in_gas(&b)
                || a.differs_only_in_world(&b) ==> a.agrees_in_machine(&b) && a.spec_env()
                == b.spec_env(),
            a.differs_only_in_calldata(&b) || a.differs_only_in_trace(&b)
                || a.differs_only_in_world(&b) ==> a.spec_gas_remaining() == b.spec_gas_remaining()
                && a.spec_gas_limit() == b.spec_gas_limit(),
            a.differs_only_in_calldata(&b) || a.differs_only_in_gas(&b)
                || a.differs_only_in_world(&b) ==> a.spec_trace() == b.spec_trace(),
            a.differs_only_in_trace(&b) || a.differs_only_in_gas(&b) || a.differs_only_in_world(&b)
                ==> a.spec_calldata() == b.spec_calldata(),
            a.differs_only_in_calldata(&b) || a.differs_only_in_trace(&b) || a.differs_only_in_gas(&b)
                ==> a.spec_world() == b.spec_world(),
    {
    }

    /// The word that an instruction reading the frame, the transaction or
    /// the block (`ADDRESS`, `ORIGIN`, `CALLER`, `CALLVALUE`, `CALLDATASIZE`,
    /// `CODESIZE`, `GASPRICE`, `RETURNDATASIZE`, the block's fields,
    /// `SELFBALANCE`, `BASEFEE`, `PC`, `MSIZE` or `GAS`) pushes when the
    /// frame stands at it: `GAS` gives what is left after its own charge.
    pub open spec fn env_word(&self, op: u8) -> nat {
        let env = self.spec_env();
        if op == 0x30 {
            self.spec_address()@
        } else if op == 0x32 {
            env.origin@
        } else if op == 0x33 {
            self.spec_caller()@
        } else if op == 0x34 {
            self.spec_callvalue()@
        } else if op == 0x36 {
            self.spec_calldata().len()
        } else if op == 0x38 {
            self.spec_code().len()
        } else if op == 0x3a {
            env.gas_price@
        } else if op == 0x3d {
            self.spec_last_return_data().len()
        } else if op == 0x41 {
            env.coinbase@
        } else if op == 0x42 {
            env.timestamp@
        } else if op == 0x43 {
            env.block_number@
        } else if op == 0x44 {
            env.prevrandao@
        } else if op == 0x45 {
            env.block_gas_limit@
        } else if op == 0x46 {
            env.chain_id@
        } else if op == 0x47 {
            self.spec_world().balance(self.spec_address())@
        } else if op == 0x48 {
            env.base_fee@
        } else if op == 0x58 {
            self.spec_pc() as nat
        } else if op == 0x59 {
            32 * spec_words_for_size(self.spec_memory().len())
        } else {
            (self.spec_gas_remaining() - 2) as nat
        }
    }

    /// The bytes `CALLDATACOPY` (`0x37`), `CODECOPY` (`0x39`) or
    /// `RETURNDATACOPY` copy from `offset` on: input and code read as padded
    /// with zeros; the last output only where it reaches, else `None`.
    pub open spec fn copied_bytes(&self, op: u8, offset: usize, size: usize) -> Option<Seq<u8>> {
        if op == 0x37 {
            Some(padded(self.spec_calldata(), offset as nat, size as nat))
        } else if op == 0x39 {
            Some(padded(self.spec_code(), offset as nat, size as nat))
        } else if offset + size > self.spec_last_return_data().len() {
            None
        } else {
            Some(self.spec_last_return_data().subrange(offset as int, offset + size))
        }
    }

    /// The word `BALANCE` (`0x31`), `EXTCODESIZE` (`0x3b`) or `EXTCODEHASH`
    /// pushes for account `a`: its balance, its code's length, or the
    /// Keccak-256 digest of its code, zero where it has none.
    pub open spec fn account_word(&self, op: u8, a: U256) -> nat {
        let w = self.spec_world();
        if op == 0x31 {
            w.balance(a)@
        } else if op == 0x3b {
            w.code(a).len()
        } else if w.code(a).len() == 0 {
            0
        } else {
            be_value(keccak256_digest(w.code(a)))
        }
    }

    /// Whether the machine has an instruction for `op`.
    pub open spec fn is_defined_opcode(op: u8) -> bool {
        ||| op == 0x00 || op == 0x20 || op == 0x35 || op == 0x3c || op == 0x40
        ||| spec_is_push(op) || spec_is_dup(op) || spec_is_swap(op)
        ||| is_word_op(op) || is_env_op(op) || is_account_op(op) || is_copy_op(op)
        ||| 0x50 <= op <= 0x57 || op == 0x5b || op == 0x5e
        ||| spec_log_topics(op) is Some
        ||| op == 0xf0 || op == 0xf1 || op == 0xf2 || op == 0xf3 || op == 0xf4 || op == 0xf5
        ||| op == 0xfa || op == 0xfd || op == 0xff
    }

    /// The opcode at the frame's position.
    pub open spec fn next_opcode(&self) -> u8 {
        self.spec_code()[self.spec_pc() as int]
    }

    /// The code fits in memory, so every position in it has a successor.
    proof fn lemma_code_len(e: Evm)
        ensures
            e.spec_code().len() <= usize::MAX,
    {
        assert(e.code@.len() == e.code.len());
    }

    /// Every frame of `states` after the first follows from the one before
    /// by a step that lets the frame go on, all at one depth.
    proof fn lemma_steps_ok_tail(states: Seq<Evm>)
        requires
            states.len() >= 2,
            Self::steps_ok(states),
        ensures
            Self::machine_step(states[0], states[1], Ok(None)),
            Self::steps_ok(states.drop_first()),
            forall|i: int|
                0 <= i < states.len() - 1 ==> #[trigger] states[i].context.depth
                    == states[0].context.depth,
        decreases states.len(),
    {
        let n = states.len();
        assert(states.drop_last()[0] == states[0]);
        if n > 2 {
            let d = states.drop_last();
            Self::lemma_steps_ok_tail(d);
            assert(d[1] == states[1]);
            let t = states.drop_first();
            assert(t.drop_last() =~= d.drop_first());
            assert(t[0] == states[1]);
            assert(t.drop_last()[0] == t[0]);
            assert(t[t.len() - 2] == states[n - 2]);
            assert(t[t.len() - 1] == states[n - 1]);
            assert(states[1].context.depth == states[0].context.depth) by {
                assert(d[1].context.depth == d[0].context.depth);
            }
            assert forall|i: int| 0 <= i < n - 1 implies #[trigger] states[i].context.depth
                == states[0].context.depth by {
                if i < n - 2 {
                    assert(d[i] == states[i]);
                    assert(d[i].context.depth == d[0].context.depth);
                }
            }
        }
    }

    /// A run from `start` that ends in `end` with `status`: it stops at once
    /// where the code has run out, or, with `OutOfGas` and no gas left, where
    /// the next instruction's static gas cannot be paid; otherwise its first
    /// step either lets the frame go on, and the rest of the run follows from
    /// there, or it stops the frame, or it fails and the gas is gone.
    pub proof fn lemma_runs_to_cases(start: Evm, end: Evm, status: ExitStatus)
        requires
            Self::runs_to(start, end, status),
        ensures
            start.spec_pc() >= start.spec_code().len() ==> end == start && status
                == ExitStatus::Stop,
            start.spec_pc() < start.spec_code().len() && start.spec_gas_remaining()
                < spec_static_gas_cost(start.next_opcode()) ==> {
                &&& status == ExitStatus::OutOfGas
                &&& end.spec_gas_remaining() == 0
                &&& end.spec_pc() == start.spec_pc() + 1
                &&& end.spec_stack() == start.spec_stack()
                &&& end.agrees_outside_stack(&start)
            },
            start.spec_pc() < start.spec_code().len() && start.spec_gas_remaining()
                >= spec_static_gas_cost(start.next_opcode()) ==> {
                ||| exists|mid: Evm|
                    #[trigger] Self::machine_step(start, mid, Ok(None)) && Self::runs_to(
                        mid,
                        end,
                        status,
                    )
                ||| Self::machine_step(start, end, Ok(Some(status)))
                ||| exists|x: Evm|
                    #[trigger] Self::machine_step(start, x, Err(status))
                        && end.spec_gas_remaining() == 0 && end.spec_pc() == x.spec_pc()
                        && end.spec_stack() == x.spec_stack() && end.agrees_outside_stack(&x)
            },
    {
        Self::lemma_code_len(start);
        reveal_with_fuel(Evm::runs_to, 2);
        let states = choose|states: Seq<Evm>|
            #![trigger states.last()]
            states.len() >= 1 && states[0] == start && states.last().context.depth
                == start.context.depth && Self::steps_ok(states) && Self::ends_with(
                states.last(),
                end,
                status,
            );
        if states.len() == 1 {
            assert(states.last() == start);
            if exists|x: Evm| Self::machine_step(start, x, Err(status)) && end == #[trigger] Self::without_gas(x) {
                let x = choose|x: Evm|
                    Self::machine_step(start, x, Err(status)) && end == #[trigger] Self::without_gas(x);
                assert(Self::machine_step(start, x, Err(status)));
            }
        } else {
            Self::lemma_steps_ok_tail(states);
            let mid = states[1];
            let t = states.drop_first();
            assert(t.last() == states.last());
            assert(t[0] == mid);
            if states.len() > 2 {
                assert(states[1].context.depth == states[0].context.depth);
            }
            assert(t.len() >= 1 && t[0] == mid && t.last().context.depth == mid.context.depth
                && Self::steps_ok(t) && Self::ends_with(t.last(), end, status));
            assert(Self::runs_to(mid, end, status));
            assert(Self::machine_step(start, mid, Ok(None)));
        }
    }

    /// A step at `STOP` stops the frame, past the instruction, with its
    /// stack and gas as they were.
    pub proof fn lemma_step_stop(pre: Evm, post: Evm, r: Result<Option<ExitStatus>, ExitStatus>)
        requires
            Self::machine_step(pre, post, r),
            pre.next_opcode() == 0x00,
        ensures
            r == Ok::<Option<ExitStatus>, ExitStatus>(Some(ExitStatus::Stop)),
            post.spec_pc() == pre.spec_pc() + 1,
            post.spec_gas_remaining() == pre.spec_gas_remaining(),
            post.spec_stack() == pre.spec_stack(),
            post.agrees_outside_stack(&pre),
    {
        Self::lemma_code_len(pre);
    }

    /// A step at `JUMPDEST` goes on past the instruction, its gas paid.
    pub proof fn lemma_step_jumpdest(pre: Evm, post: Evm, r: Result<Option<ExitStatus>, ExitStatus>)
        requires
            Self::machine_step(pre, post, r),
            pre.next_opcode() == 0x5b,
        ensures
            r == goes_on(),
            post.spec_pc() == pre.spec_pc() + 1,
            post.spec_gas_remaining() == pre.spec_gas_remaining() - 1,
            post.spec_stack() == pre.spec_stack(),
            post.agrees_outside_stack(&pre),
    {
        Self::lemma_code_len(pre);
    }

    /// A step at `PUSHn` moves past the instruction and its `n` bytes and
    /// pushes their value, the code read as padded with zeros; on a full
    /// stack it fails with `StackOverflow`.
    pub proof fn lemma_step_push(pre: Evm, post: Evm, r: Result<Option<ExitStatus>, ExitStatus>)
        requires
            Self::machine_step(pre, post, r),
            spec_is_push(pre.next_opcode()),
        ensures
            pre.spec_pc() + 1 + (pre.next_opcode() - 0x5f) <= usize::MAX ==> post.spec_pc()
                == pre.spec_pc() + 1 + (pre.next_opcode() - 0x5f),
            post.spec_gas_remaining() == pre.spec_gas_remaining() - 3,
            post.agrees_outside_stack(&pre),
            pre.spec_stack().len() >= STACK_LIMIT ==> r == failed_with(ExitStatus::StackOverflow)
                && post.spec_stack() == pre.spec_stack(),
            pre.spec_stack().len() < STACK_LIMIT ==> {
                &&& r == goes_on()
                &&& post.spec_stack().len() == pre.spec_stack().len() + 1
                &&& post.spec_stack().drop_last() == pre.spec_stack()
                &&& post.spec_stack().last()@ == be_value(
                    padded(
                        pre.spec_code(),
                        (pre.spec_pc() + 1) as nat,
                        (pre.next_opcode() - 0x5f) as nat,
                    ),
                )
            },
    {
        Self::lemma_code_len(pre);
    }

    /// A step at `POP` drops the top word, or fails with `StackUnderflow` on
    /// an empty stack.
    pub proof fn lemma_step_pop(pre: Evm, post: Evm, r: Result<Option<ExitStatus>, ExitStatus>)
        requires
            Self::machine_step(pre, post, r),
            pre.next_opcode() == 0x50,
        ensures
            post.spec_pc() == pre.spec_pc() + 1,
            post.spec_gas_remaining() == pre.spec_gas_remaining() - 2,
            post.agrees_outside_stack(&pre),
            pre.spec_stack().len() == 0 ==> r == failed_with(ExitStatus::StackUnderflow)
                && post.spec_stack() == pre.spec_stack(),
            pre.spec_stack().len() > 0 ==> r == goes_on() && post.spec_stack()
                == pre.spec_stack().drop_last(),
    {
        Self::lemma_code_len(pre);
    }

    /// A step at `DUPn` pushes a copy of the `n`-th word from the top.
    pub proof fn lemma_step_dup(pre: Evm, post: Evm, r: Result<Option<ExitStatus>, ExitStatus>)
        requires
            Self::machine_step(pre, post, r),
            spec_is_dup(pre.next_opcode()),
        ensures
            post.spec_pc() == pre.spec_pc() + 1,
            post.spec_gas_remaining() == pre.spec_gas_remaining() - 3,
            post.agrees_outside_stack(&pre),
            pre.spec_stack().len() < pre.next_opcode() - 0x7f ==> r == failed_with(
                ExitStatus::StackUnderflow,
            ) && post.spec_stack() == pre.spec_stack(),
            pre.next_opcode() - 0x7f <= pre.spec_stack().len() && pre.spec_stack().len()
                >= STACK_LIMIT ==> r == failed_with(ExitStatus::StackOverflow) && post.spec_stack()
                == pre.spec_stack(),
            pre.next_opcode() - 0x7f <= pre.spec_stack().len() < STACK_LIMIT ==> r == goes_on()
                && post.spec_stack() == pre.spec_stack().push(
                pre.spec_stack()[pre.spec_stack().len() - (pre.next_opcode() - 0x7f)],
            ),
    {
        Self::lemma_code_len(pre);
    }

    /// A step at `SWAPn` exchanges the top word with the one `n` below it.
    pub proof fn lemma_step_swap(pre: Evm, post: Evm, r: Result<Option<ExitStatus>, ExitStatus>)
        requires
            Self::machine_step(pre, post, r),
            spec_is_swap(pre.next_opcode()),
        ensures
            post.spec_pc() == pre.spec_pc() + 1,
            post.spec_gas_remaining() == pre.spec_gas_remaining() - 3,
            post.agrees_outside_stack(&pre),
            pre.spec_stack().len() <= pre.next_opcode() - 0x8f ==> r == failed_with(
                ExitStatus::StackUnderflow,
            ) && post.spec_stack() == pre.spec_stack(),
            pre.next_opcode() - 0x8f < pre.spec_stack().len() ==> {
                let s = pre.spec_stack();
                let k = s.len() - 1 - (pre.next_opcode() - 0x8f);
                &&& r == goes_on()
                &&& post.spec_stack() == s.update(s.len() - 1, s[k]).update(k, s.last())
            },
    {
        Self::lemma_code_len(pre);
    }

    /// A step at an arithmetic, comparison or bitwise instruction takes its
    /// operands and pushes its value, `EXP` paying for its exponent's bytes
    /// besides; too few words fail with `StackUnderflow` and an empty stack,
    /// an unpaid `EXP` with `OutOfGas`.
    pub proof fn lemma_step_word(pre: Evm, post: Evm, r: Result<Option<ExitStatus>, ExitStatus>)
        requires
            Self::machine_step(pre, post, r),
            is_word_op(pre.next_opcode()),
        ensures
            post.spec_pc() == pre.spec_pc() + 1,
            post.agrees_outside_stack(&pre),
            ({
                let op = pre.next_opcode();
                let s = pre.spec_stack();
                let g = pre.spec_gas_remaining() - spec_static_gas_cost(op);
                &&& s.len() < word_op_arity(op) ==> r == failed_with(ExitStatus::StackUnderflow)
                    && post.spec_stack() == Seq::<U256>::empty()
                &&& s.len() >= word_op_arity(op) && op == 0x0a && g < exp_gas(s.last()) ==> r
                    == failed_with(ExitStatus::OutOfGas)
                &&& s.len() >= word_op_arity(op) && !(op == 0x0a && g < exp_gas(s.last())) ==> {
                    &&& r == goes_on()
                    &&& word_op_done(op, s, post.spec_stack())
                    &&& post.spec_gas_remaining() == g - (if op == 0x0a {
                        exp_gas(s.last())
                    } else {
                        0
                    })
                }
            }),
    {
        Self::lemma_code_len(pre);
    }

    /// A step at `JUMP` or `JUMPI` takes the destination (and, for `JUMPI`,
    /// the condition) from the stack; a jump that is not taken goes on past
    /// the instruction, one that is taken goes to the destination if a
    /// `JUMPDEST` stands there and fails with `BadJumpDestination` if not;
    /// too few words fail with `StackUnderflow` and an empty stack.
    pub proof fn lemma_step_jump(pre: Evm, post: Evm, r: Result<Option<ExitStatus>, ExitStatus>)
        requires
            Self::machine_step(pre, post, r),
            pre.next_opcode() == 0x56 || pre.next_opcode() == 0x57,
        ensures
            post.spec_gas_remaining() == pre.spec_gas_remaining() - spec_static_gas_cost(
                pre.next_opcode(),
            ),
            post.agrees_outside_stack(&pre),
            ({
                let conditional = pre.next_opcode() == 0x57;
                let k: int = if conditional { 2 } else { 1 };
                let s = pre.spec_stack();
                let n = s.len() as int;
                let dest = usize_of(s[n - 1]);
                let taken = !conditional || s[n - 2]@ != 0;
                &&& n < k ==> r == failed_with(ExitStatus::StackUnderflow) && post.spec_stack()
                    == Seq::<U256>::empty()
                &&& n >= k ==> post.spec_stack() == s.subrange(0, n - k)
                &&& n >= k && !taken ==> r == goes_on() && post.spec_pc() == pre.spec_pc() + 1
                &&& n >= k && taken && !pre.spec_jumpdests().contains(dest) ==> r == failed_with(
                    ExitStatus::BadJumpDestination(dest),
                )
                &&& n >= k && taken && pre.spec_jumpdests().contains(dest) ==> r == goes_on()
                    && post.spec_pc() == dest
            }),
    {
        Self::lemma_code_len(pre);
    }

    /// A step at `MLOAD` takes an offset and pushes the word read there,
    /// memory grown to cover it and the growth paid; on too little gas it
    /// fails with `OutOfGas`, on an empty stack with `StackUnderflow`.
    pub proof fn lemma_step_mload(pre: Evm, post: Evm, r: Result<Option<ExitStatus>, ExitStatus>)
        requires
            Self::machine_step(pre, post, r),
            pre.next_opcode() == 0x51,
        ensures
            post.spec_pc() == pre.spec_pc() + 1,
            post.agrees_outside_memory(&pre),
            ({
                let s = pre.spec_stack();
                let g = pre.spec_gas_remaining() - 3;
                let m = pre.spec_memory();
                let offset = usize_of(s.last());
                let cost = spec_expansion_cost(m.len(), seq![(offset, 32usize)]);
                &&& s.len() == 0 ==> r == failed_with(ExitStatus::StackUnderflow)
                    && post.spec_stack() == s
                &&& s.len() > 0 && g < cost ==> r == failed_with(ExitStatus::OutOfGas)
                &&& s.len() > 0 && g >= cost ==> {
                    &&& r == goes_on()
                    &&& post.spec_gas_remaining() == g - cost
                    &&& post.spec_memory() == after_read(m, offset, 32)
                    &&& post.spec_stack().len() == s.len()
                    &&& post.spec_stack().drop_last() == s.drop_last()
                    &&& post.spec_stack().last()@ == be_value(read_bytes(m, offset, 32))
                }
            }),
    {
        Self::lemma_code_len(pre);
    }

    /// A step at `MSTORE` (or `MSTORE8`) takes an offset and a value and
    /// writes the value's 32 bytes (or its low byte) there, memory grown to
    /// cover them and the growth paid; on too little gas it fails with
    /// `OutOfGas`, on fewer than two words with `StackUnderflow`.
    pub proof fn lemma_step_mstore(pre: Evm, post: Evm, r: Result<Option<ExitStatus>, ExitStatus>)
        requires
            Self::machine_step(pre, post, r),
            pre.next_opcode() == 0x52 || pre.next_opcode() == 0x53,
        ensures
            post.spec_pc() == pre.spec_pc() + 1,
            post.agrees_outside_memory(&pre),
            ({
                let whole = pre.next_opcode() == 0x52;
                let s = pre.spec_stack();
                let n = s.len() as int;
                let g = pre.spec_gas_remaining() - 3;
                let m = pre.spec_memory();
                let offset = usize_of(s[n - 1]);
                let value = s[n - 2];
                let size: usize = if whole { 32 } else { 1 };
                let bytes = if whole { be_bytes(value@, 32) } else { seq![(value@ % 256) as u8] };
                let cost = spec_expansion_cost(m.len(), seq![(offset, size)]);
                &&& n < 2 ==> r == failed_with(ExitStatus::StackUnderflow) && post.spec_stack()
                    == Seq::<U256>::empty()
                &&& n >= 2 ==> post.spec_stack() == s.subrange(0, n - 2)
                &&& n >= 2 && g < cost ==> r == failed_with(ExitStatus::OutOfGas)
                &&& n >= 2 && g >= cost ==> {
                    &&& r == goes_on()
                    &&& post.spec_gas_remaining() == g - cost
                    &&& post.spec_memory() == overwritten(m, offset as nat, bytes)
                }
            }),
    {
        Self::lemma_code_len(pre);
    }

    /// A step at `RETURN` (or `REVERT`) takes an offset and a size and stops
    /// the frame with `Return` (or `Revert`), the bytes there as its output,
    /// memory grown to cover them and the growth paid; on too little gas it
    /// fails with `OutOfGas`, on fewer than two words with `StackUnderflow`.
    pub proof fn lemma_step_return(pre: Evm, post: Evm, r: Result<Option<ExitStatus>, ExitStatus>)
        requires
            Self::machine_step(pre, post, r),
            pre.next_opcode() == 0xf3 || pre.next_opcode() == 0xfd,
        ensures
            post.spec_pc() == pre.spec_pc() + 1,
            post.agrees_outside_output(&pre),
            ({
                let status = if pre.next_opcode() == 0xfd {
                    ExitStatus::Revert
                } else {
                    ExitStatus::Return
                };
                let s = pre.spec_stack();
                let n = s.len() as int;
                let g = pre.spec_gas_remaining();
                let m = pre.spec_memory();
                let offset = usize_of(s[n - 1]);
                let size = usize_of(s[n - 2]);
                let cost = spec_expansion_cost(m.len(), seq![(offset, size)]);
                &&& n < 2 ==> r == failed_with(ExitStatus::StackUnderflow) && post.spec_stack()
                    == Seq::<U256>::empty() && post.spec_return_data() == pre.spec_return_data()
                &&& n >= 2 ==> post.spec_stack() == s.subrange(0, n - 2)
                &&& n >= 2 && (g < cost || cost == u64::MAX) ==> r == failed_with(
                    ExitStatus::OutOfGas,
                ) && post.spec_return_data() == pre.spec_return_data()
                &&& n >= 2 && g >= cost && cost < u64::MAX ==> {
                    &&& r == stopped_with(status)
                    &&& post.spec_gas_remaining() == g - cost
                    &&& post.spec_memory() == after_read(m, offset, size)
                    &&& post.spec_return_data() == read_bytes(m, offset, size)
                }
            }),
    {
        Self::lemma_code_len(pre);
        assert(pre.next_opcode() == 0xf3 ==> spec_static_gas_cost(pre.next_opcode()) == 0);
    }

    /// A step at `SLOAD` takes a key and pushes the value of that slot of the
    /// running account, the slot warmed; a cold slot costs 2000 more, and
    /// without that gas the step fails with `OutOfGas`.
    pub proof fn lemma_step_sload(pre: Evm, post: Evm, r: Result<Option<ExitStatus>, ExitStatus>)
        requires
            Self::machine_step(pre, post, r),
            pre.next_opcode() == 0x54,
        ensures
            post.spec_pc() == pre.spec_pc() + 1,
            post.agrees_in_context(&pre),
            post.spec_memory() == pre.spec_memory(),
            post.spec_refund() == pre.spec_refund(),
            post.spec_world() == pre.spec_world(),
            post.spec_return_data() == pre.spec_return_data(),
            post.spec_last_return_data() == pre.spec_last_return_data(),
            post.spec_logs() == pre.spec_logs(),
            post.spec_accessed_addresses() == pre.spec_accessed_addresses(),
            ({
                let s = pre.spec_stack();
                let g = pre.spec_gas_remaining() - 100;
                let slot = SlotKey { address: pre.spec_address(), key: s.last() };
                let cost: int = if pre.spec_accessed_slots().contains(slot) {
                    0
                } else {
                    COLD_SLOAD_COST - WARM_STORAGE_READ_COST
                };
                &&& s.len() == 0 ==> r == failed_with(ExitStatus::StackUnderflow)
                    && post.spec_stack() == s
                &&& s.len() > 0 ==> post.spec_accessed_slots() == pre.spec_accessed_slots().insert(
                    slot,
                )
                &&& s.len() > 0 && g < cost ==> r == failed_with(ExitStatus::OutOfGas)
                &&& s.len() > 0 && g >= cost ==> {
                    &&& r == goes_on()
                    &&& post.spec_gas_remaining() == g - cost
                    &&& post.spec_stack() == s.drop_last().push(
                        spec_load(pre.spec_world().storage(pre.spec_address()), s.last()),
                    )
                }
            }),
    {
        Self::lemma_code_len(pre);
    }

    /// A step at `SSTORE` takes a key and a value and writes the value to
    /// that slot of the running account, charging by the slot's original,
    /// current and new value and moving the refund counter accordingly, a
    /// cold slot 2100 more; it fails with `OutOfGas` with no more than the
    /// 2300 stipend left or too little gas, and with `StaticModeViolation`
    /// in a static frame.
    pub proof fn lemma_step_sstore(pre: Evm, post: Evm, r: Result<Option<ExitStatus>, ExitStatus>)
        requires
            Self::machine_step(pre, post, r),
            pre.next_opcode() == 0x55,
        ensures
            post.spec_pc() == pre.spec_pc() + 1,
            post.agrees_in_context(&pre),
            post.spec_memory() == pre.spec_memory(),
            post.spec_return_data() == pre.spec_return_data(),
            post.spec_last_return_data() == pre.spec_last_return_data(),
            post.spec_logs() == pre.spec_logs(),
            post.spec_accessed_addresses() == pre.spec_accessed_addresses(),
            pre.spec_is_static() ==> r == failed_with(ExitStatus::StaticModeViolation)
                && post.spec_stack() == pre.spec_stack() && post.spec_world()
                == pre.spec_world() && post.spec_refund() == pre.spec_refund(),
            !pre.spec_is_static() ==> ({
                let s = pre.spec_stack();
                let n = s.len() as int;
                let g = pre.spec_gas_remaining();
                let address = pre.spec_address();
                let key = s[n - 1];
                let value = s[n - 2];
                let slot = SlotKey { address, key };
                let original = pre.spec_original_value(slot);
                let current = spec_load(pre.spec_world().storage(address), key);
                let cost = sstore_base_cost(original, current, value) + (if pre.spec_accessed_slots().contains(slot) {
                    0
                } else {
                    COLD_SLOAD_COST
                });
                &&& n < 2 ==> r == failed_with(ExitStatus::StackUnderflow) && post.spec_stack()
                    == Seq::<U256>::empty()
                &&& n >= 2 ==> post.spec_stack() == s.subrange(0, n - 2)
                &&& n >= 2 && (g <= SSTORE_STIPEND || g < cost) ==> r == failed_with(
                    ExitStatus::OutOfGas,
                )
                &&& n >= 2 && g > SSTORE_STIPEND && g >= cost ==> {
                    &&& r == goes_on()
                    &&& post.spec_gas_remaining() == g - cost
                    &&& post.spec_refund() == pre.spec_refund() + sstore_refund_delta(
                        original,
                        current,
                        value,
                    )
                    &&& post.spec_world().storage(address) == pre.spec_world().storage(
                        address,
                    ).insert(key, value)
                    &&& post.spec_world().same_except(&pre.spec_world(), address)
                    &&& post.spec_accessed_slots() == pre.spec_accessed_slots().insert(slot)
                }
            }),
    {
        Self::lemma_code_len(pre);
    }

    /// A step at `CALLDATALOAD` takes an offset and pushes the 32 bytes of
    /// input there, read as padded with zeros.
    pub proof fn lemma_step_calldataload(pre: Evm, post: Evm, r: Result<Option<ExitStatus>, ExitStatus>)
        requires
            Self::machine_step(pre, post, r),
            pre.next_opcode() == 0x35,
        ensures
            post.spec_pc() == pre.spec_pc() + 1,
            post.spec_gas_remaining() == pre.spec_gas_remaining() - 3,
            post.agrees_outside_stack(&pre),
            pre.spec_stack().len() == 0 ==> r == failed_with(ExitStatus::StackUnderflow)
                && post.spec_stack() == pre.spec_stack(),
            pre.spec_stack().len() > 0 ==> {
                &&& r == goes_on()
                &&& post.spec_stack().len() == pre.spec_stack().len()
                &&& post.spec_stack().drop_last() == pre.spec_stack().drop_last()
                &&& post.spec_stack().last()@ == be_value(
                    padded(pre.spec_calldata(), usize_of(pre.spec_stack().last()) as nat, 32),
                )
            },
    {
        Self::lemma_code_len(pre);
    }

    /// A step at `LOGk` takes an offset, a size and `k` topics and appends a
    /// log of the running account with those topics, first popped first, and
    /// the bytes there as its data, memory grown to cover them; it pays the
    /// growth and 8 gas a byte, and fails with `OutOfGas` without them, with
    /// `StackUnderflow` on too few words, and with `StaticModeViolation` in a
    /// static frame.
    pub proof fn lemma_step_log(pre: Evm, post: Evm, r: Result<Option<ExitStatus>, ExitStatus>)
        requires
            Self::machine_step(pre, post, r),
            spec_log_topics(pre.next_opcode()) is Some,
        ensures
            post.spec_pc() == pre.spec_pc() + 1,
            post.agrees_in_context(&pre),
            post.spec_refund() == pre.spec_refund(),
            post.spec_world() == pre.spec_world(),
            post.spec_return_data() == pre.spec_return_data(),
            post.spec_last_return_data() == pre.spec_last_return_data(),
            post.spec_accessed_addresses() == pre.spec_accessed_addresses(),
            post.spec_accessed_slots() == pre.spec_accessed_slots(),
            pre.spec_is_static() ==> r == failed_with(ExitStatus::StaticModeViolation)
                && post.spec_stack() == pre.spec_stack() && post.spec_logs() == pre.spec_logs(),
            !pre.spec_is_static() ==> ({
                let s = pre.spec_stack();
                let n = s.len() as int;
                let k = spec_log_topics(pre.next_opcode()).unwrap() as int;
                let g = pre.spec_gas_remaining() - spec_static_gas_cost(pre.next_opcode());
                let m = pre.spec_memory();
                let offset = usize_of(s[n - 1]);
                let size = usize_of(s[n - 2]);
                let cost = sat(spec_expansion_cost(m.len(), seq![(offset, size)]) + sat(size * 8));
                &&& n < 2 ==> r == failed_with(ExitStatus::StackUnderflow) && post.spec_stack()
                    == Seq::<U256>::empty() && post.spec_logs() == pre.spec_logs()
                &&& n >= 2 && g < cost ==> r == failed_with(ExitStatus::OutOfGas)
                    && post.spec_logs() == pre.spec_logs()
                &&& n >= 2 && g >= cost && n < 2 + k ==> r == failed_with(
                    ExitStatus::StackUnderflow,
                ) && post.spec_stack() == Seq::<U256>::empty() && post.spec_logs()
                    == pre.spec_logs()
                &&& n >= 2 + k && g >= cost ==> {
                    let entry = post.spec_logs().last();
                    &&& r == goes_on()
                    &&& post.spec_gas_remaining() == g - cost
                    &&& post.spec_stack() == s.subrange(0, n - 2 - k)
                    &&& post.spec_memory() == after_read(m, offset, size)
                    &&& post.spec_logs().len() == pre.spec_logs().len() + 1
                    &&& post.spec_logs().drop_last() == pre.spec_logs()
                    &&& entry.address == pre.spec_address()
                    &&& entry.topics@ == Seq::new(k as nat, |i: int| s[n - 3 - i])
                    &&& entry.data@ == read_bytes(m, offset, size)
                }
            }),
    {
        Self::lemma_code_len(pre);
    }

    /// A step at an instruction that reads the frame, the transaction or the
    /// block pushes the word `env_word` names, or fails with
    /// `StackOverflow` on a full stack.
    pub proof fn lemma_step_env(pre: Evm, post: Evm, r: Result<Option<ExitStatus>, ExitStatus>)
        requires
            Self::machine_step(pre, post, r),
            is_env_op(pre.next_opcode()),
        ensures
            post.spec_pc() == pre.spec_pc() + 1,
            post.spec_gas_remaining() == pre.spec_gas_remaining() - spec_static_gas_cost(
                pre.next_opcode(),
            ),
            post.agrees_outside_stack(&pre),
            pre.spec_stack().len() >= STACK_LIMIT ==> r == failed_with(ExitStatus::StackOverflow)
                && post.spec_stack() == pre.spec_stack(),
            pre.spec_stack().len() < STACK_LIMIT ==> {
                &&& r == goes_on()
                &&& post.spec_stack().len() == pre.spec_stack().len() + 1
                &&& post.spec_stack().drop_last() == pre.spec_stack()
                &&& post.spec_stack().last()@ == pre.env_word(pre.next_opcode())
            },
    {
        Self::lemma_code_len(pre);
    }

    /// A step at a byte the machine has no instruction for fails with
    /// `InvalidOpcode`, the frame past it and otherwise as it was.
    pub proof fn lemma_step_invalid(pre: Evm, post: Evm, r: Result<Option<ExitStatus>, ExitStatus>)
        requires
            Self::machine_step(pre, post, r),
            !Self::is_defined_opcode(pre.next_opcode()),
        ensures
            r == Err::<Option<ExitStatus>, ExitStatus>(ExitStatus::InvalidOpcode(pre.next_opcode())),
            post.spec_pc() == pre.spec_pc() + 1,
            post.spec_gas_remaining() == pre.spec_gas_remaining() - spec_static_gas_cost(
                pre.next_opcode(),
            ),
            post.spec_stack() == pre.spec_stack(),
            post.agrees_outside_stack(&pre),
    {
        Self::lemma_code_len(pre);
    }

    /// A step at `SHA3` takes an offset and a size and pushes the Keccak-256
    /// digest of the bytes there, memory grown to cover them; it pays the
    /// growth and 6 gas a word, and fails with `OutOfGas` without them and
    /// with `StackUnderflow` on fewer than two words.
    pub proof fn lemma_step_sha3(pre: Evm, post: Evm, r: Result<Option<ExitStatus>, ExitStatus>)
        requires
            Self::machine_step(pre, post, r),
            pre.next_opcode() == 0x20,
        ensures
            post.spec_pc() == pre.spec_pc() + 1,
            post.agrees_outside_memory(&pre),
            ({
                let s = pre.spec_stack();
                let n = s.len() as int;
                let g = pre.spec_gas_remaining() - 30;
                let m = pre.spec_memory();
                let offset = usize_of(s[n - 1]);
                let size = usize_of(s[n - 2]);
                let cost = sat(spec_expansion_cost(m.len(), seq![(offset, size)]) + sat(
                    (spec_words_for_size(size as nat) * 6) as int,
                ));
                &&& n < 2 ==> r == failed_with(ExitStatus::StackUnderflow) && post.spec_stack()
                    == Seq::<U256>::empty()
                &&& n >= 2 && g < cost ==> r == failed_with(ExitStatus::OutOfGas)
                &&& n >= 2 && g >= cost ==> {
                    &&& r == goes_on()
                    &&& post.spec_gas_remaining() == g - cost
                    &&& post.spec_memory() == after_read(m, offset, size)
                    &&& post.spec_stack().len() == n - 1
                    &&& post.spec_stack().drop_last() == s.subrange(0, n - 2)
                    &&& post.spec_stack().last()@ == be_value(
                        keccak256_digest(read_bytes(m, offset, size)),
                    )
                }
            }),
    {
        Self::lemma_code_len(pre);
        let s = pre.spec_stack();
        let n = s.len() as int;
        if n >= 2 && r == goes_on() {
            assert(post.spec_stack().drop_last() =~= post.spec_stack().subrange(0, n - 2));
        }
    }

    /// A step at `MCOPY` takes a destination, a source and a length and
    /// copies that many bytes of memory, memory grown to cover both ranges;
    /// it pays the growth and 3 gas a word, and fails with `OutOfGas`
    /// without them and with `StackUnderflow` on fewer than three words.
    pub proof fn lemma_step_mcopy(pre: Evm, post: Evm, r: Result<Option<ExitStatus>, ExitStatus>)
        requires
            Self::machine_step(pre, post, r),
            pre.next_opcode() == 0x5e,
        ensures
            post.spec_pc() == pre.spec_pc() + 1,
            post.agrees_outside_memory(&pre),
            ({
                let s = pre.spec_stack();
                let n = s.len() as int;
                let g = pre.spec_gas_remaining() - 3;
                let m = pre.spec_memory();
                let dst = usize_of(s[n - 1]);
                let src = usize_of(s[n - 2]);
                let len = usize_of(s[n - 3]);
                let cost = sat(spec_expansion_cost(m.len(), seq![(dst, len), (src, len)])
                    + spec_copy_cost(len as nat));
                &&& n < 3 ==> r == failed_with(ExitStatus::StackUnderflow) && post.spec_stack()
                    == Seq::<U256>::empty()
                &&& n >= 3 ==> post.spec_stack() == s.subrange(0, n - 3)
                &&& n >= 3 && g < cost ==> r == failed_with(ExitStatus::OutOfGas)
                &&& n >= 3 && g >= cost ==> {
                    &&& r == goes_on()
                    &&& post.spec_gas_remaining() == g - cost
                    &&& post.spec_memory() == after_write(
                        after_read(m, src, len),
                        dst,
                        read_bytes(m, src, len),
                    )
                }
            }),
    {
        Self::lemma_code_len(pre);
    }

    /// A step at `CALLDATACOPY`, `CODECOPY` or `RETURNDATACOPY` takes a
    /// destination, a source offset and a size and writes `copied_bytes` at
    /// the destination, memory grown to cover them; it pays the growth and
    /// 3 gas a word, and fails with `OutOfGas` without them, with
    /// `ReturnDataOutOfBounds` where `copied_bytes` has none, and with
    /// `StackUnderflow` on fewer than three words.
    pub proof fn lemma_step_copy(pre: Evm, post: Evm, r: Result<Option<ExitStatus>, ExitStatus>)
        requires
            Self::machine_step(pre, post, r),
            is_copy_op(pre.next_opcode()),
        ensures
            post.spec_pc() == pre.spec_pc() + 1,
            post.agrees_outside_memory(&pre),
            ({
                let op = pre.next_opcode();
                let s = pre.spec_stack();
                let n = s.len() as int;
                let g = pre.spec_gas_remaining() - 3;
                let m = pre.spec_memory();
                let dst = usize_of(s[n - 1]);
                let src = usize_of(s[n - 2]);
                let size = usize_of(s[n - 3]);
                let cost = sat(spec_expansion_cost(m.len(), seq![(dst, size)]) + spec_copy_cost(
                    size as nat,
                ));
                &&& n < 3 ==> r == failed_with(ExitStatus::StackUnderflow) && post.spec_stack()
                    == Seq::<U256>::empty()
                &&& n >= 3 ==> post.spec_stack() == s.subrange(0, n - 3)
                &&& n >= 3 && g < cost ==> r == failed_with(ExitStatus::OutOfGas)
                &&& n >= 3 && g >= cost ==> post.spec_gas_remaining() == g - cost && match pre.copied_bytes(op, src, size) {
                    None => r == failed_with(ExitStatus::ReturnDataOutOfBounds),
                    Some(bytes) => r == goes_on() && post.spec_memory() == after_write(
                        m,
                        dst,
                        bytes,
                    ),
                }
            }),
    {
        Self::lemma_code_len(pre);
    }

    /// A step at `BALANCE`, `EXTCODESIZE` or `EXTCODEHASH` takes an address,
    /// warms it and pushes `account_word` for it; a cold account costs 2500
    /// more, and without that gas the step fails with `OutOfGas`.
    pub proof fn lemma_step_account(pre: Evm, post: Evm, r: Result<Option<ExitStatus>, ExitStatus>)
        requires
            Self::machine_step(pre, post, r),
            is_account_op(pre.next_opcode()),
        ensures
            post.spec_pc() == pre.spec_pc() + 1,
            post.agrees_in_context(&pre),
            post.spec_memory() == pre.spec_memory(),
            post.spec_refund() == pre.spec_refund(),
            post.spec_world() == pre.spec_world(),
            post.spec_return_data() == pre.spec_return_data(),
            post.spec_last_return_data() == pre.spec_last_return_data(),
            post.spec_logs() == pre.spec_logs(),
            post.spec_accessed_slots() == pre.spec_accessed_slots(),
            ({
                let op = pre.next_opcode();
                let s = pre.spec_stack();
                let g = pre.spec_gas_remaining() - 100;
                let a = s.last();
                let cost: int = if pre.spec_accessed_addresses().contains(a) {
                    0
                } else {
                    COLD_ACCOUNT_ACCESS_COST - WARM_STORAGE_READ_COST
                };
                &&& s.len() == 0 ==> r == failed_with(ExitStatus::StackUnderflow)
                    && post.spec_stack() == s
                &&& s.len() > 0 ==> post.spec_accessed_addresses()
                    == pre.spec_accessed_addresses().insert(a)
                &&& s.len() > 0 && g < cost ==> r == failed_with(ExitStatus::OutOfGas)
                &&& s.len() > 0 && g >= cost ==> {
                    &&& r == goes_on()
                    &&& post.spec_gas_remaining() == g - cost
                    &&& post.spec_stack().len() == s.len()
                    &&& post.spec_stack().drop_last() == s.drop_last()
                    &&& post.spec_stack().last()@ == pre.account_word(op, a)
                }
            }),
    {
        Self::lemma_code_len(pre);
    }

    /// A step at `BLOCKHASH` takes a block number and pushes that block's
    /// hash from the environment, zero where it has none.
    pub proof fn lemma_step_blockhash(pre: Evm, post: Evm, r: Result<Option<ExitStatus>, ExitStatus>)
        requires
            Self::machine_step(pre, post, r),
            pre.next_opcode() == 0x40,
        ensures
            post.spec_pc() == pre.spec_pc() + 1,
            post.spec_gas_remaining() == pre.spec_gas_remaining() - 20,
            post.agrees_outside_stack(&pre),
            ({
                let s = pre.spec_stack();
                let hashes = pre.spec_env().block_hashes.view();
                &&& s.len() == 0 ==> r == failed_with(ExitStatus::StackUnderflow)
                    && post.spec_stack() == s
                &&& s.len() > 0 ==> r == goes_on() && post.spec_stack() == s.drop_last().push(
                    if hashes.dom().contains(s.last()) {
                        hashes[s.last()]
                    } else {
                        U256 { l0: 0, l1: 0, l2: 0, l3: 0 }
                    },
                )
            }),
    {
        Self::lemma_code_len(pre);
    }

    /// A step at `SELFDESTRUCT` takes a beneficiary, warms it, and stops the
    /// frame with `SelfDestruct`, the world changed as `selfdestructed`
    /// says; beyond the static charge a warm beneficiary costs 100 and a
    /// cold one 2600, and without that gas the step fails with `OutOfGas`;
    /// it fails with `StaticModeViolation` in a static frame and with
    /// `StackUnderflow` on an empty stack.
    pub proof fn lemma_step_selfdestruct(pre: Evm, post: Evm, r: Result<Option<ExitStatus>, ExitStatus>)
        requires
            Self::machine_step(pre, post, r),
            pre.next_opcode() == 0xff,
        ensures
            post.spec_pc() == pre.spec_pc() + 1,
            post.agrees_in_context(&pre),
            post.spec_memory() == pre.spec_memory(),
            post.spec_refund() == pre.spec_refund(),
            post.spec_return_data() == pre.spec_return_data(),
            post.spec_last_return_data() == pre.spec_last_return_data(),
            post.spec_logs() == pre.spec_logs(),
            post.spec_accessed_slots() == pre.spec_accessed_slots(),
            pre.spec_is_static() ==> r == failed_with(ExitStatus::StaticModeViolation)
                && post.spec_stack() == pre.spec_stack() && post.spec_world()
                == pre.spec_world(),
            !pre.spec_is_static() ==> ({
                let s = pre.spec_stack();
                let g = pre.spec_gas_remaining() - spec_static_gas_cost(0xff);
                let b = s.last();
                let cost: int = if pre.spec_accessed_addresses().contains(b) {
                    WARM_STORAGE_READ_COST as int
                } else {
                    COLD_ACCOUNT_ACCESS_COST as int
                };
                &&& s.len() == 0 ==> r == failed_with(ExitStatus::StackUnderflow)
                &&& s.len() > 0 ==> post.spec_stack() == s.drop_last()
                    && post.spec_accessed_addresses() == pre.spec_accessed_addresses().insert(b)
                &&& s.len() > 0 && g < cost ==> r == failed_with(ExitStatus::OutOfGas)
                    && post.spec_world() == pre.spec_world()
                &&& s.len() > 0 && g >= cost ==> {
                    &&& r == stopped_with(ExitStatus::SelfDestruct)
                    &&& post.spec_gas_remaining() == g - cost
                    &&& post.spec_world().selfdestructed(&pre.spec_world(), pre.spec_address(), b)
                }
            }),
    {
        Self::lemma_code_len(pre);
    }

    /// A step at `EXTCODECOPY` takes an address, a destination, a source
    /// offset and a size, warms the address and writes that account's code
    /// there, read as padded with zeros, memory grown to cover it; it pays
    /// the growth, 3 gas a word and, for a cold account, 2500 more, and
    /// fails without them; on too few words it fails with `StackUnderflow`.
    pub proof fn lemma_step_extcodecopy(pre: Evm, post: Evm, r: Result<Option<ExitStatus>, ExitStatus>)
        requires
            Self::machine_step(pre, post, r),
            pre.next_opcode() == 0x3c,
        ensures
            post.spec_pc() == pre.spec_pc() + 1,
            post.agrees_in_context(&pre),
            post.spec_refund() == pre.spec_refund(),
            post.spec_world() == pre.spec_world(),
            post.spec_return_data() == pre.spec_return_data(),
            post.spec_last_return_data() == pre.spec_last_return_data(),
            post.spec_logs() == pre.spec_logs(),
            post.spec_accessed_slots() == pre.spec_accessed_slots(),
            ({
                let s = pre.spec_stack();
                let n = s.len() as int;
                let g = pre.spec_gas_remaining() - 100;
                let m = pre.spec_memory();
                let a = s[n - 1];
                let access: int = if pre.spec_accessed_addresses().contains(a) {
                    0
                } else {
                    2500
                };
                let dst = usize_of(s[n - 2]);
                let src = usize_of(s[n - 3]);
                let size = usize_of(s[n - 4]);
                let cost = sat(spec_expansion_cost(m.len(), seq![(dst, size)]) + spec_copy_cost(
                    size as nat,
                ));
                &&& n == 0 ==> r == failed_with(ExitStatus::StackUnderflow) && post.spec_stack()
                    == s && post.spec_memory() == m
                &&& n > 0 ==> post.spec_accessed_addresses() == pre.spec_accessed_addresses().insert(
                    s.last(),
                )
                &&& n >= 4 && g < access + cost ==> r is Err && post.spec_memory() == m
                &&& n >= 4 && g >= access + cost ==> {
                    &&& r == goes_on()
                    &&& post.spec_stack() == s.subrange(0, n - 4)
                    &&& post.spec_gas_remaining() == g - access - cost
                    &&& post.spec_memory() == after_write(
                        m,
                        dst,
                        padded(pre.spec_world().code(a), src as nat, size as nat),
                    )
                }
            }),
    {
        Self::lemma_code_len(pre);
    }
}

} // verus!
