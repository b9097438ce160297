//! The instructions that read the frame, the transaction, the block and
//! other accounts.
use super::{failed_with, goes_on, stopped_with, padded, read_padded, usize_of, Evm, ExitStatus};
use crate::address::{keccak256_digest, keccak_u256};
use crate::gas::{spec_words_for_size, COLD_ACCOUNT_ACCESS_COST, WARM_STORAGE_READ_COST};
use crate::stack::STACK_LIMIT;
use crate::uint::{from_big_endian, wrapping_mul};
use crate::word::{be_value, U256};
use vstd::prelude::*;

verus! {

/// Whether `op` pushes one value of the frame, the transaction or the block
/// and takes nothing from the stack.
pub open spec fn is_env_op(op: u8) -> bool {
    op == 0x30 || op == 0x32 || op == 0x33 || op == 0x34 || op == 0x36 || op == 0x38 || op == 0x3a
        || op == 0x3d || (0x41 <= op <= 0x48) || op == 0x58 || op == 0x59 || op == 0x5a
}

/// Whether `op` reads another account: `BALANCE`, `EXTCODESIZE` or
/// `EXTCODEHASH`.
pub open spec fn is_account_op(op: u8) -> bool {
    op == 0x31 || op == 0x3b || op == 0x3f
}

impl Evm {
    /// What `op_env` does, from frame `pre` to frame `post` with outcome `r`.
    pub(super) open spec fn env_step(
        pre: Evm,
        post: Evm,
        op: u8,
        pc_before: usize,
        r: Result<Option<ExitStatus>, ExitStatus>,
    ) -> bool {
        &&& (post == (Evm { stack: post.stack, ..pre }))
        &&& (
            pre.stack@.len() >= STACK_LIMIT ==> r == failed_with(ExitStatus::StackOverflow)
                && post.stack@ =~= pre.stack@
        )
        &&& (
            pre.stack@.len() < STACK_LIMIT ==> r == goes_on()
                && post.stack@.drop_last() =~= pre.stack@ && post.stack@.len()
                    == pre.stack@.len() + 1
                && post.stack@.last()@ == pre.env_value(op, pc_before)
        )
    }

    /// What `op_account` does, from frame `pre` to frame `post` with outcome `r`.
    pub(super) open spec fn account_step(
        pre: Evm,
        post: Evm,
        op: u8,
        r: Result<Option<ExitStatus>, ExitStatus>,
    ) -> bool {
        &&& (
            post == (Evm { stack: post.stack, gas_remaining: post.gas_remaining,
                accessed_addresses: post.accessed_addresses, ..pre })
        )
        &&& (
            pre.stack@.len() == 0 ==> r == failed_with(ExitStatus::StackUnderflow)
                && post.stack@ =~= pre.stack@
        )
        &&& (
            pre.stack@.len() > 0 ==> {
                let a = pre.stack@.last();
                let cost = if pre.accessed_addresses.view().dom().contains(a) { 0 } else { COLD_ACCOUNT_ACCESS_COST - WARM_STORAGE_READ_COST };
                &&& post.accessed_addresses.view().dom()
                    =~= pre.accessed_addresses.view().dom().insert(a)
                &&& pre.gas_remaining < cost ==> r == failed_with(ExitStatus::OutOfGas)
                    && post.stack@ =~= pre.stack@.drop_last()
                &&& pre.gas_remaining >= cost ==> r == goes_on()
                    && post.gas_remaining == pre.gas_remaining - cost
                        && post.stack@.drop_last() =~= pre.stack@.drop_last()
                    && post.stack@.len() == pre.stack@.len() && post.stack@.last()@
                        == pre.account_value(op, a)
            }
        )
    }

    /// What `op_blockhash` does, from frame `pre` to frame `post` with outcome `r`.
    pub(super) open spec fn blockhash_step(
        pre: Evm,
        post: Evm,
        r: Result<Option<ExitStatus>, ExitStatus>,
    ) -> bool {
        &&& (post == (Evm { stack: post.stack, ..pre }))
        &&& (
            pre.stack@.len() == 0 ==> r == failed_with(ExitStatus::StackUnderflow)
                && post.stack@ =~= pre.stack@
        )
        &&& (
            pre.stack@.len() > 0 ==> r == goes_on()
                && post.stack@ =~= pre.stack@.drop_last().push(if pre.env.block_hashes.view().dom().contains(pre.stack@.last()) { pre.env.block_hashes.view()[pre.stack@.last()] } else { U256 { l0: 0, l1: 0, l2: 0, l3: 0 } })
        )
    }

    /// What `op_calldataload` does, from frame `pre` to frame `post` with outcome `r`.
    pub(super) open spec fn calldataload_step(
        pre: Evm,
        post: Evm,
        r: Result<Option<ExitStatus>, ExitStatus>,
    ) -> bool {
        &&& (post == (Evm { stack: post.stack, ..pre }))
        &&& (
            pre.stack@.len() == 0 ==> r == failed_with(ExitStatus::StackUnderflow)
                && post.stack@ =~= pre.stack@
        )
        &&& (
            pre.stack@.len() > 0 ==> r == goes_on()
                && post.stack@.drop_last() =~= pre.stack@.drop_last() && post.stack@.len()
                    == pre.stack@.len()
                && post.stack@.last()@ == be_value(padded(pre.calldata@,
                    usize_of(pre.stack@.last()) as nat, 32))
        )
    }

    /// The value such an instruction pushes, `pc_before` being its position.
    pub(super) open spec fn env_value(&self, op: u8, pc_before: usize) -> nat {
        if op == 0x30 {
            self.context.address@
        } else if op == 0x32 {
            self.env.origin@
        } else if op == 0x33 {
            self.context.caller@
        } else if op == 0x34 {
            self.context.callvalue@
        } else if op == 0x36 {
            self.calldata@.len()
        } else if op == 0x38 {
            self.code@.len()
        } else if op == 0x3a {
            self.env.gas_price@
        } else if op == 0x3d {
            self.last_return_data@.len()
        } else if op == 0x41 {
            self.env.coinbase@
        } else if op == 0x42 {
            self.env.timestamp@
        } else if op == 0x43 {
            self.env.block_number@
        } else if op == 0x44 {
            self.env.prevrandao@
        } else if op == 0x45 {
            self.env.block_gas_limit@
        } else if op == 0x46 {
            self.env.chain_id@
        } else if op == 0x47 {
            self.world.balance(self.context.address)@
        } else if op == 0x48 {
            self.env.base_fee@
        } else if op == 0x58 {
            pc_before as nat
        } else if op == 0x59 {
            32 * spec_words_for_size(self.memory@.len())
        } else {
            self.gas_remaining as nat
        }
    }



    /// The value `BALANCE`, `EXTCODESIZE` or `EXTCODEHASH` pushes for `a`.
    pub(super) open spec fn account_value(&self, op: u8, a: U256) -> nat {
        if op == 0x31 {
            self.world.balance(a)@
        } else if op == 0x3b {
            self.world.code(a).len()
        } else if self.world.code(a).len() == 0 {
            0
        } else {
            be_value(keccak256_digest(self.world.code(a)))
        }
    }

    /// Pushes one value of the frame, the transaction or the block.
    #[verifier::rlimit(30)]
    pub(super) fn op_env(&mut self, op: u8, pc_before: usize) -> (r: Result<
        Option<ExitStatus>,
        ExitStatus,
    >)
        requires
            old(self).inv(),
            is_env_op(op),
        ensures
            final(self).stepped(old(self), r),
            Self::env_step(*old(self), *final(self), op, pc_before, r),
    {
        let value = match op {
            0x30 => self.context.address,
            0x32 => self.env.origin,
            0x33 => self.context.caller,
            0x34 => self.context.callvalue,
            0x36 => U256::from_usize(self.calldata.len()),
            0x38 => U256::from_usize(self.code.len()),
            0x3a => self.env.gas_price,
            0x3d => U256::from_usize(self.last_return_data.len()),
            0x41 => self.env.coinbase,
            0x42 => self.env.timestamp,
            0x43 => self.env.block_number,
            0x44 => self.env.prevrandao,
            0x45 => self.env.block_gas_limit,
            0x46 => self.env.chain_id,
            0x47 => self.world.balance_of(self.context.address),
            0x48 => self.env.base_fee,
            0x58 => U256::from_usize(pc_before),
            0x59 => {
                let words = self.memory_word_size();
                let size = wrapping_mul(U256::from_u64(words), U256::from_u64(32));
                proof {
                    vstd::arithmetic::div_mod::lemma_small_mod(
                        (words * 32) as nat,
                        crate::word::word_modulus(),
                    );
                }
                size
            },
            _ => U256::from_u64(self.gas_remaining),
        };
        self.push_stack(value)?;
        Ok(None)
    }

    /// `BALANCE`, `EXTCODESIZE` or `EXTCODEHASH`: pops an address, warms it
    /// and charges the cold surcharge if it was cold, pushes what it reads.
    #[verifier::rlimit(30)]
    pub(super) fn op_account(&mut self, op: u8) -> (r: Result<Option<ExitStatus>, ExitStatus>)
        requires
            old(self).inv(),
            is_account_op(op),
        ensures
            final(self).stepped(old(self), r),
            Self::account_step(*old(self), *final(self), op, r),
    {
        let address = self.pop_stack()?;
        let access_cost = self.account_access_additional_cost(address);
        self.charge_gas(access_cost)?;
        let value = if op == 0x31 {
            self.world.balance_of(address)
        } else {
            let ext_code = self.world.code_of(address);
            if op == 0x3b {
                U256::from_usize(ext_code.len())
            } else if ext_code.len() == 0 {
                U256::zero()
            } else {
                keccak_u256(ext_code.as_slice())
            }
        };
        self.push_stack(value)?;
        Ok(None)
    }

    /// `BLOCKHASH`: pops a block number, pushes its hash if the environment
    /// lists one, zero otherwise.
    #[verifier::rlimit(30)]
    pub(super) fn op_blockhash(&mut self) -> (r: Result<Option<ExitStatus>, ExitStatus>)
        requires
            old(self).inv(),
        ensures
            final(self).stepped(old(self), r),
            Self::blockhash_step(*old(self), *final(self), r),
    {
        let number = self.pop_stack()?;
        let value = match self.env.block_hashes.get(&number) {
            Some(h) => *h,
            None => U256::zero(),
        };
        self.push_stack(value)?;
        Ok(None)
    }

    /// `CALLDATALOAD`: pops an offset, pushes the 32 input bytes there,
    /// zero past the end of the input.
    #[verifier::rlimit(30)]
    pub(super) fn op_calldataload(&mut self) -> (r: Result<Option<ExitStatus>, ExitStatus>)
        requires
            old(self).inv(),
        ensures
            final(self).stepped(old(self), r),
            Self::calldataload_step(*old(self), *final(self), r),
    {
        let offset = self.pop_usize()?;
        let chunk = read_padded(self.calldata.as_slice(), offset, 32);
        let value = from_big_endian(chunk.as_slice());
        self.push_stack(value)?;
        Ok(None)
    }
}

} // verus!
