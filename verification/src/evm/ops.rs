//! The instructions that work on the stack alone: arithmetic, comparison,
//! bitwise logic, pushes, duplications and exchanges.
use super::{failed_with, goes_on, stopped_with, 
    byte_len, is_word_op, lemma_byte_len_unique, word_op_arity, word_op_done, word_op_value,
    Evm, ExitStatus,
};
use super::{padded, read_padded};
use crate::alu::word_op_compute;
use crate::arith::exponent_byte_size;
use crate::gas::G_EXPBYTE;
use crate::opcodes::{dup_index, push_size, spec_is_dup, spec_is_push, spec_is_swap, swap_index};
use crate::stack::STACK_LIMIT;
use crate::uint::from_big_endian;
use crate::word::{be_value, U256};
use vstd::prelude::*;

verus! {

/// The gas `EXP` charges beyond its static cost for exponent `e`.
pub open spec fn exp_gas(e: U256) -> nat {
    50 * byte_len(e@)
}

impl Evm {
    /// What `op_word` does, from frame `pre` to frame `post` with outcome `r`.
    pub(super) open spec fn word_step(
        pre: Evm,
        post: Evm,
        op: u8,
        r: Result<Option<ExitStatus>, ExitStatus>,
    ) -> bool {
        &&& (post == (Evm { stack: post.stack, gas_remaining: post.gas_remaining, ..pre }))
        &&& (
            pre.stack@.len() < word_op_arity(op) ==> r == failed_with(ExitStatus::StackUnderflow)
                && post.stack@ =~= Seq::<U256>::empty()
        )
        &&& (
            pre.stack@.len() >= word_op_arity(op) && op == 0x0a
                && pre.gas_remaining < exp_gas(pre.stack@.last())
                ==> r == failed_with(ExitStatus::OutOfGas)
                && post.stack@ =~= pre.stack@.subrange(0, pre.stack@.len() - 2)
        )
        &&& (
            pre.stack@.len() >= word_op_arity(op) && !(op == 0x0a
                && pre.gas_remaining < exp_gas(pre.stack@.last()))
                ==> r == goes_on() && word_op_done(op, pre.stack@,
                    post.stack@)
                && post.gas_remaining == pre.gas_remaining - (if op
                    == 0x0a { exp_gas(pre.stack@.last()) } else { 0 })
        )
    }

    /// What `op_push` does, from frame `pre` to frame `post` with outcome `r`.
    pub(super) open spec fn push_step(
        pre: Evm,
        post: Evm,
        op: u8,
        r: Result<Option<ExitStatus>, ExitStatus>,
    ) -> bool {
        &&& (post == (Evm { stack: post.stack, pc: post.pc, ..pre }))
        &&& (
            post.pc == (if pre.pc + (op - 0x5f) > usize::MAX { usize::MAX as int } else { pre.pc + (op - 0x5f) })
        )
        &&& (
            pre.stack@.len() >= STACK_LIMIT ==> r == failed_with(ExitStatus::StackOverflow)
                && post.stack@ =~= pre.stack@
        )
        &&& (
            pre.stack@.len() < STACK_LIMIT ==> r == goes_on()
                && post.stack@.drop_last() =~= pre.stack@ && post.stack@.len()
                    == pre.stack@.len() + 1
                && post.stack@.last()@ == be_value(padded(pre.code@, pre.pc as nat,
                    (op - 0x5f) as nat))
        )
    }

    /// What `op_pop` does, from frame `pre` to frame `post` with outcome `r`.
    pub(super) open spec fn pop_step(
        pre: Evm,
        post: Evm,
        r: Result<Option<ExitStatus>, ExitStatus>,
    ) -> bool {
        &&& (post == (Evm { stack: post.stack, ..pre }))
        &&& (
            pre.stack@.len() == 0 ==> r == failed_with(ExitStatus::StackUnderflow)
                && post.stack@ =~= pre.stack@
        )
        &&& (
            pre.stack@.len() > 0 ==> r == goes_on()
                && post.stack@ =~= pre.stack@.drop_last()
        )
    }

    /// What `op_dup` does, from frame `pre` to frame `post` with outcome `r`.
    pub(super) open spec fn dup_step(
        pre: Evm,
        post: Evm,
        op: u8,
        r: Result<Option<ExitStatus>, ExitStatus>,
    ) -> bool {
        &&& (post == (Evm { stack: post.stack, ..pre }))
        &&& (
            pre.stack@.len() < op - 0x7f ==> r == failed_with(ExitStatus::StackUnderflow)
                && post.stack@ =~= pre.stack@
        )
        &&& (
            op - 0x7f <= pre.stack@.len() && pre.stack@.len() >= STACK_LIMIT
                ==> r == failed_with(ExitStatus::StackOverflow)
                && post.stack@ =~= pre.stack@
        )
        &&& (
            op - 0x7f <= pre.stack@.len() < STACK_LIMIT ==> r == goes_on()
                && post.stack@ =~= pre.stack@.push(pre.stack@[pre.stack@.len() - (op - 0x7f)])
        )
    }

    /// What `op_swap` does, from frame `pre` to frame `post` with outcome `r`.
    pub(super) open spec fn swap_step(
        pre: Evm,
        post: Evm,
        op: u8,
        r: Result<Option<ExitStatus>, ExitStatus>,
    ) -> bool {
        &&& (post == (Evm { stack: post.stack, ..pre }))
        &&& (
            pre.stack@.len() <= op - 0x8f ==> r == failed_with(ExitStatus::StackUnderflow)
                && post.stack@ =~= pre.stack@
        )
        &&& (
            op - 0x8f < pre.stack@.len() ==> r == goes_on()
                && post.stack@ =~= pre.stack@.update(pre.stack@.len() - 1,
                    pre.stack@[pre.stack@.len() - 1 - (op - 0x8f)]).update(pre.stack@.len() - 1 - (op - 0x8f), pre.stack@.last())
        )
    }

    /// An arithmetic, comparison or bitwise instruction: pops its operands,
    /// charges `EXP`'s exponent bytes, pushes the value.
    #[verifier::rlimit(30)]
    pub(super) fn op_word(&mut self, op: u8) -> (r: Result<Option<ExitStatus>, ExitStatus>)
        requires
            old(self).inv(),
            is_word_op(op),
        ensures
            final(self).stepped(old(self), r),
            Self::word_step(*old(self), *final(self), op, r),
    {
        let ghost s0 = self.stack@;
        let arity: usize = if op == 0x08 || op == 0x09 {
            3
        } else if op == 0x15 || op == 0x19 {
            1
        } else {
            2
        };
        assert(arity == word_op_arity(op));
        let a = self.pop_stack()?;
        let b = if arity >= 2 {
            self.pop_stack()?
        } else {
            U256::zero()
        };
        let c = if arity == 3 {
            self.pop_stack()?
        } else {
            U256::zero()
        };
        if op == 0x0a {
            let n = exponent_byte_size(a);
            proof {
                lemma_byte_len_unique(a@, n as nat);
            }
            if n > 0 {
                self.charge_gas(G_EXPBYTE * (n as u64))?;
            }
        }
        let v = word_op_compute(op, a, b, c);
        proof {
            let n = s0.len();
            assert(v@ == word_op_value(op, s0[n - 1], s0[n - 2], s0[n - 3]));
        }
        self.push_stack(v)?;
        proof {
            let n = s0.len();
            assert(self.stack@.subrange(0, n - arity) =~= s0.subrange(0, n - arity));
        }
        Ok(None)
    }
    /// `PUSH1`..`PUSH32`: pushes the immediate bytes after the opcode, read
    /// big-endian and zero past the end of the code, and moves past them.
    #[verifier::rlimit(30)]
    pub(super) fn op_push(&mut self, op: u8) -> (r: Result<Option<ExitStatus>, ExitStatus>)
        requires
            old(self).inv(),
            spec_is_push(op),
        ensures
            final(self).stepped(old(self), r),
            Self::push_step(*old(self), *final(self), op, r),
    {
        let size = push_size(op);
        let start = self.pc;
        self.pc = self.pc.saturating_add(size);
        let bytes = read_padded(self.code.as_slice(), start, size);
        let value = from_big_endian(bytes.as_slice());
        self.push_stack(value)?;
        Ok(None)
    }

    /// `POP`: drops the top word.
    #[verifier::rlimit(30)]
    pub(super) fn op_pop(&mut self) -> (r: Result<Option<ExitStatus>, ExitStatus>)
        requires
            old(self).inv(),
        ensures
            final(self).stepped(old(self), r),
            Self::pop_step(*old(self), *final(self), r),
    {
        let _ = self.pop_stack()?;
        Ok(None)
    }

    /// `DUP1`..`DUP16`: pushes a copy of the `n`-th word from the top.
    #[verifier::rlimit(30)]
    pub(super) fn op_dup(&mut self, op: u8) -> (r: Result<Option<ExitStatus>, ExitStatus>)
        requires
            old(self).inv(),
            spec_is_dup(op),
        ensures
            final(self).stepped(old(self), r),
            Self::dup_step(*old(self), *final(self), op, r),
    {
        let depth = dup_index(op);
        match self.stack.dup(depth) {
            Ok(()) => Ok(None),
            Err(e) => Err(Self::map_stack_error(e)),
        }
    }

    /// `SWAP1`..`SWAP16`: exchanges the top word with the one `n` below it.
    #[verifier::rlimit(30)]
    pub(super) fn op_swap(&mut self, op: u8) -> (r: Result<Option<ExitStatus>, ExitStatus>)
        requires
            old(self).inv(),
            spec_is_swap(op),
        ensures
            final(self).stepped(old(self), r),
            Self::swap_step(*old(self), *final(self), op, r),
    {
        let depth = swap_index(op);
        match self.stack.swap(depth) {
            Ok(()) => Ok(None),
            Err(e) => Err(Self::map_stack_error(e)),
        }
    }
}

} // verus!
