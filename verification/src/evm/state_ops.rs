//! The instructions that read or change storage, jump, log, or destroy the
//! account.
use super::mem_ops::{after_read, lemma_paid, read_bytes};
use super::{failed_with, goes_on, stopped_with, 
    refund_per_gas, sstore_base_cost, sstore_refund_delta, spec_expansion_cost,
    usize_of, Evm, ExitStatus, LogEntry,
};
use crate::arith::abs;
use crate::assoc::SlotKey;
use crate::gas::{
    saturating_mul, sat, COLD_ACCOUNT_ACCESS_COST, COLD_SLOAD_COST, G_LOGDATA,
    SSTORE_STIPEND, WARM_STORAGE_READ_COST,
};
use crate::opcodes::spec_log_topics;
use crate::storage::spec_load;
use crate::word::U256;
use vstd::prelude::*;

verus! {

/// An `SSTORE` moves the refund counter by at most 247 gas per gas it costs.
proof fn lemma_sstore_refund_bounded(original: U256, current: U256, new_value: U256)
    ensures
        sstore_base_cost(original, current, new_value) >= 100,
        abs(sstore_refund_delta(original, current, new_value)) <= refund_per_gas()
            * sstore_base_cost(original, current, new_value),
        abs(sstore_refund_delta(original, current, new_value)) <= 19900,
{
}

impl Evm {
    /// What `op_sload` does, from frame `pre` to frame `post` with outcome `r`.
    pub(super) open spec fn sload_step(
        pre: Evm,
        post: Evm,
        r: Result<Option<ExitStatus>, ExitStatus>,
    ) -> bool {
        &&& (
            post == (Evm { stack: post.stack, gas_remaining: post.gas_remaining,
                accessed_storage_keys: post.accessed_storage_keys, ..pre })
        )
        &&& (
            pre.stack@.len() == 0 ==> r == failed_with(ExitStatus::StackUnderflow)
                && post.stack@ =~= pre.stack@
        )
        &&& (
            pre.stack@.len() > 0 ==> {
                let key = pre.stack@.last();
                let slot = SlotKey { address: pre.context.address, key };
                let cost = if pre.accessed_storage_keys.view().dom().contains(slot) { 0 } else { COLD_SLOAD_COST - WARM_STORAGE_READ_COST };
                &&& post.accessed_storage_keys.view().dom()
                    =~= pre.accessed_storage_keys.view().dom().insert(slot)
                &&& pre.gas_remaining < cost ==> r == failed_with(ExitStatus::OutOfGas)
                    && post.stack@ =~= pre.stack@.drop_last()
                &&& pre.gas_remaining >= cost ==> r == goes_on()
                    && post.gas_remaining == pre.gas_remaining - cost && post.stack@
                        =~= pre.stack@.drop_last().push(spec_load(pre.world.storage(pre.context.address), key))
            }
        )
    }

    /// What `op_sstore` does, from frame `pre` to frame `post` with outcome `r`.
    pub(super) open spec fn sstore_step(
        pre: Evm,
        post: Evm,
        r: Result<Option<ExitStatus>, ExitStatus>,
    ) -> bool {
        &&& (post == (Evm {
            stack: post.stack,
            gas_remaining: post.gas_remaining,
            gas_refund: post.gas_refund,
            world: post.world,
            original_storage: post.original_storage,
            accessed_storage_keys: post.accessed_storage_keys,
            ..pre
        }))
        &&& (
            pre.context.is_static ==> r == failed_with(ExitStatus::StaticModeViolation)
                && post == pre
        )
        &&& (
            !pre.context.is_static && pre.stack@.len() < 2 ==> r == failed_with(ExitStatus::StackUnderflow)
                && post.stack@ =~= Seq::<U256>::empty()
        )
        &&& (
            !pre.context.is_static && pre.stack@.len() >= 2 ==> {
                let n = pre.stack@.len();
                let address = pre.context.address;
                let key = pre.stack@[n - 1];
                let value = pre.stack@[n - 2];
                let slot = SlotKey { address, key };
                let original = pre.spec_original_value(slot);
                let current = spec_load(pre.world.storage(address), key);
                let cost = sstore_base_cost(original, current,
                    value) + (if pre.accessed_storage_keys.view().dom().contains(slot) { 0 } else { COLD_SLOAD_COST });
                &&& post.stack@ =~= pre.stack@.subrange(0, n - 2)
                &&& pre.gas_remaining <= SSTORE_STIPEND ==> r == failed_with(ExitStatus::OutOfGas)
                &&& SSTORE_STIPEND < pre.gas_remaining < cost ==> r == failed_with(ExitStatus::OutOfGas)
                &&& pre.gas_remaining > SSTORE_STIPEND && pre.gas_remaining >= cost
                    ==> {
                    &&& r == goes_on()
                    &&& post.gas_remaining == pre.gas_remaining - cost
                    &&& post.gas_refund == pre.gas_refund + sstore_refund_delta(original, current,
                        value)
                    &&& post.world.storage(address) =~= pre.world.storage(address).insert(key,
                        value)
                    &&& post.world.same_except(&pre.world, address)
                    &&& post.accessed_storage_keys.view().dom()
                        =~= pre.accessed_storage_keys.view().dom().insert(slot)
                }
            }
        )
    }

    /// What `op_jump` does, from frame `pre` to frame `post` with outcome `r`.
    pub(super) open spec fn jump_step(
        pre: Evm,
        post: Evm,
        conditional: bool,
        r: Result<Option<ExitStatus>, ExitStatus>,
    ) -> bool {
        &&& (post == (Evm { stack: post.stack, pc: post.pc, ..pre }))
        &&& (
            pre.stack@.len() < (if conditional { 2int } else { 1 }) ==> r
                == failed_with(ExitStatus::StackUnderflow) && post.stack@ =~= Seq::<U256>::empty()
        )
        &&& (
            pre.stack@.len() >= (if conditional { 2int } else { 1 }) ==> {
                let n = pre.stack@.len();
                let dest = usize_of(pre.stack@[n - 1]);
                let taken = !conditional || pre.stack@[n - 2]@ != 0;
                &&& post.stack@ =~= pre.stack@.subrange(0, n - (if conditional { 2int } else { 1 }))
                &&& !taken ==> r == goes_on() && post.pc == pre.pc
                &&& taken && !pre.jumpdests@.contains(dest) ==> r == failed_with(ExitStatus::BadJumpDestination(dest))
                &&& taken && pre.jumpdests@.contains(dest) ==> r == goes_on()
                    && post.pc == dest
            }
        )
    }

    /// What `op_log` does, from frame `pre` to frame `post` with outcome `r`.
    pub(super) open spec fn log_step(
        pre: Evm,
        post: Evm,
        op: u8,
        r: Result<Option<ExitStatus>, ExitStatus>,
    ) -> bool {
        &&& (
            post == (Evm { stack: post.stack, memory: post.memory,
                gas_remaining: post.gas_remaining, logs: post.logs, ..pre })
        )
        &&& (
            pre.context.is_static ==> r == failed_with(ExitStatus::StaticModeViolation)
                && post == pre
        )
        &&& (
            !pre.context.is_static && pre.stack@.len() < 2 ==> r == failed_with(ExitStatus::StackUnderflow)
                && post.logs@ =~= pre.logs@ && post.stack@ =~= Seq::<U256>::empty()
        )
        &&& (
            !pre.context.is_static && pre.stack@.len() >= 2 ==> {
                let n = pre.stack@.len();
                let k = spec_log_topics(op).unwrap() as int;
                let offset = usize_of(pre.stack@[n - 1]);
                let size = usize_of(pre.stack@[n - 2]);
                let cost = sat(spec_expansion_cost(pre.memory@.len(), seq![(offset,
                    size)]) + sat(size * 8));
                &&& pre.gas_remaining < cost ==> r == failed_with(ExitStatus::OutOfGas)
                    && post.logs@ =~= pre.logs@
                &&& pre.gas_remaining >= cost && n < 2 + k ==> r == failed_with(ExitStatus::StackUnderflow)
                    && post.logs@ =~= pre.logs@ && post.stack@ =~= Seq::<U256>::empty()
                &&& pre.gas_remaining >= cost && n >= 2 + k ==> {
                    let entry = post.logs@.last();
                    &&& r == goes_on()
                    &&& post.gas_remaining == pre.gas_remaining - cost
                    &&& post.stack@ =~= pre.stack@.subrange(0, n - 2 - k)
                    &&& post.memory@ =~= after_read(pre.memory@, offset, size)
                    &&& post.logs@.drop_last() =~= pre.logs@
                    &&& post.logs@.len() == pre.logs@.len() + 1
                    &&& entry.address == pre.context.address
                    &&& entry.topics@ =~= Seq::new(k as nat, |i: int| pre.stack@[n - 3 - i])
                    &&& entry.data@ =~= read_bytes(pre.memory@, offset, size)
                }
            }
        )
    }

    /// What `op_selfdestruct` does, from frame `pre` to frame `post` with outcome `r`.
    pub(super) open spec fn selfdestruct_step(
        pre: Evm,
        post: Evm,
        r: Result<Option<ExitStatus>, ExitStatus>,
    ) -> bool {
        &&& (
            post == (Evm { stack: post.stack, gas_remaining: post.gas_remaining,
                accessed_addresses: post.accessed_addresses, world: post.world, ..pre })
        )
        &&& (
            pre.context.is_static ==> r == failed_with(ExitStatus::StaticModeViolation)
                && post == pre
        )
        &&& (
            !pre.context.is_static && pre.stack@.len() == 0 ==> r == failed_with(ExitStatus::StackUnderflow)
        )
        &&& (
            !pre.context.is_static && pre.stack@.len() > 0 ==> {
                let b = pre.stack@.last();
                let cost = if pre.accessed_addresses.view().dom().contains(b) { WARM_STORAGE_READ_COST } else { COLD_ACCOUNT_ACCESS_COST };
                &&& post.stack@ =~= pre.stack@.drop_last()
                &&& pre.gas_remaining < cost ==> r == failed_with(ExitStatus::OutOfGas)
                    && post.world == pre.world
                &&& post.accessed_addresses.view().dom() =~= pre.accessed_addresses.view().dom().insert(b)
                &&& pre.gas_remaining >= cost ==> r == stopped_with(ExitStatus::SelfDestruct)
                    && post.gas_remaining == pre.gas_remaining - cost
                    && post.world.selfdestructed(&pre.world, pre.context.address, b)
            }
        )
    }

    /// `SLOAD`: pops a slot, warms it and charges the cold surcharge, pushes
    /// the slot's value in the executing account's storage.
    #[verifier::rlimit(30)]
    pub(super) fn op_sload(&mut self) -> (r: Result<Option<ExitStatus>, ExitStatus>)
        requires
            old(self).inv(),
        ensures
            final(self).stepped(old(self), r),
            Self::sload_step(*old(self), *final(self), r),
    {
        let key = self.pop_stack()?;
        let access_cost = self.storage_access_additional_cost(self.context.address, key);
        self.charge_gas(access_cost)?;
        let value = self.world.storage_load(self.context.address, key);
        self.push_stack(value)?;
        Ok(None)
    }

    /// `SSTORE`: refused in a static frame; pops a slot and a value, charges
    /// and refunds as EIP-2200 and EIP-3529 say, then writes the slot.
    #[verifier::rlimit(30)]
    pub(super) fn op_sstore(&mut self) -> (r: Result<Option<ExitStatus>, ExitStatus>)
        requires
            old(self).inv(),
        ensures
            final(self).stepped(old(self), r),
            r is Ok ==> final(self).gas_remaining < old(self).gas_remaining,
            Self::sstore_step(*old(self), *final(self), r),
    {
        if self.context.is_static {
            return Err(ExitStatus::StaticModeViolation);
        }
        let ghost s0 = self.stack@;
        let key = self.pop_stack()?;
        let value = self.pop_stack()?;
        proof {
            assert(self.stack@ =~= s0.subrange(0, s0.len() - 2));
        }
        let ghost before = *self;
        let address = self.context.address;
        let cost = self.sstore_dynamic_gas(address, key, value)?;
        proof {
            let slot = SlotKey { address, key };
            lemma_sstore_refund_bounded(
                before.spec_original_value(slot),
                spec_load(before.world.storage(address), key),
                value,
            );
            vstd::arithmetic::mul::lemma_mul_inequality(
                SSTORE_STIPEND as int,
                before.gas_remaining as int,
                refund_per_gas(),
            );
        }
        self.charge_gas(cost)?;
        proof {
            let slot = SlotKey { address, key };
            let base = sstore_base_cost(
                before.spec_original_value(slot),
                spec_load(before.world.storage(address), key),
                value,
            );
            vstd::arithmetic::mul::lemma_mul_inequality(base as int, cost as int, refund_per_gas());
            vstd::arithmetic::mul::lemma_mul_is_distributive_sub(
                refund_per_gas(),
                before.gas_remaining as int,
                cost as int,
            );
        }
        self.world.storage_store(address, key, value);
        Ok(None)
    }

    /// `JUMP` and `JUMPI`: pop a destination (and, for `JUMPI`, a condition)
    /// and move there if the jump is taken and the destination is a
    /// `JUMPDEST`; a taken jump elsewhere fails.
    #[verifier::rlimit(30)]
    pub(super) fn op_jump(&mut self, conditional: bool) -> (r: Result<
        Option<ExitStatus>,
        ExitStatus,
    >)
        requires
            old(self).inv(),
        ensures
            final(self).stepped(old(self), r),
            Self::jump_step(*old(self), *final(self), conditional, r),
    {
        let ghost s0 = self.stack@;
        let dest = self.pop_usize()?;
        let taken = if conditional {
            let cond = self.pop_stack()?;
            !cond.is_zero()
        } else {
            true
        };
        proof {
            let k: int = if conditional {
                2
            } else {
                1
            };
            assert(self.stack@ =~= s0.subrange(0, s0.len() - k));
        }
        if taken {
            if !self.jumpdests.contains(&dest) {
                return Err(ExitStatus::BadJumpDestination(dest));
            }
            self.pc = dest;
        }
        Ok(None)
    }

    /// `LOG0`..`LOG4`: refused in a static frame; pops offset and size,
    /// charges memory growth and the data bytes, pops the topics and records
    /// them with the data.
    #[verifier::rlimit(30)]
    pub(super) fn op_log(&mut self, op: u8) -> (r: Result<Option<ExitStatus>, ExitStatus>)
        requires
            old(self).gas_remaining < u64::MAX,
            old(self).inv(),
            spec_log_topics(op) is Some,
        ensures
            final(self).stepped(old(self), r),
            Self::log_step(*old(self), *final(self), op, r),
    {
        if self.context.is_static {
            return Err(ExitStatus::StaticModeViolation);
        }
        let k = match crate::opcodes::log_topics(op) {
            Some(k) => k,
            None => 0,
        };
        let ghost s0 = self.stack@;
        let offset = self.pop_usize()?;
        let size = self.pop_usize()?;
        let cost = self.memory_expansion_cost(offset, size).saturating_add(
            saturating_mul(size as u64, G_LOGDATA),
        );
        let ghost spent = self.spent();
        self.charge_gas(cost)?;
        if size > 0 {
            proof {
                lemma_paid(self.memory@.len(), offset, size, spent, cost as int, self.gas_limit as int);
            }
        }
        let ghost pre = *self;
        let ghost n1 = self.stack@.len();
        proof {
            assert(pre.stack@ =~= s0.subrange(0, n1 as int));
        }
        let mut topics: Vec<U256> = Vec::new();
        let mut i: usize = 0;
        while i < k
            invariant
                k <= 4,
                i <= k,
                i <= n1,
                n1 == pre.stack@.len(),
                self.stack@ == pre.stack@.subrange(0, n1 - i),
                topics@ == Seq::new(i as nat, |j: int| pre.stack@[n1 - 1 - j]),
                *self == (Evm { stack: self.stack, ..pre }),
                pre.kept(old(self)),
                pre.halted_ok(),
                !old(self).context.is_static,
                k == spec_log_topics(op).unwrap(),
                old(self).stack@.len() >= 2,
                n1 == old(self).stack@.len() - 2,
                pre.stack@ == old(self).stack@.subrange(0, n1 as int),
                offset == usize_of(old(self).stack@[n1 + 1int]),
                size == usize_of(old(self).stack@[n1 as int]),
                cost == sat(
                    spec_expansion_cost(old(self).memory@.len(), seq![(offset, size)]) + sat(
                        size * 8,
                    ),
                ),
                pre.gas_remaining + cost == old(self).gas_remaining,
                pre == (Evm {
                    stack: pre.stack,
                    memory: pre.memory,
                    gas_remaining: pre.gas_remaining,
                    ..*old(self)
                }),
            decreases k - i,
        {
            let t = self.pop_stack()?;
            topics.push(t);
            i = i + 1;
            proof {
                assert(self.stack@ =~= pre.stack@.subrange(0, n1 - i));
                assert(topics@ =~= Seq::new(i as nat, |j: int| pre.stack@[n1 - 1 - j]));
            }
        }
        let data = self.memory.read_slice(offset, size);
        self.logs.push(LogEntry { address: self.context.address, topics, data });
        proof {
            assert(self.stack@ =~= s0.subrange(0, s0.len() - 2 - k));
        }
        Ok(None)
    }

    /// `SELFDESTRUCT`: refused in a static frame; pops a beneficiary, warms
    /// it and charges its access, hands over the balance and stops.
    #[verifier::rlimit(30)]
    pub(super) fn op_selfdestruct(&mut self) -> (r: Result<Option<ExitStatus>, ExitStatus>)
        requires
            old(self).inv(),
        ensures
            final(self).stepped(old(self), r),
            Self::selfdestruct_step(*old(self), *final(self), r),
    {
        if self.context.is_static {
            return Err(ExitStatus::StaticModeViolation);
        }
        let beneficiary = self.pop_stack()?;
        let access_cost = self.account_access_cost(beneficiary);
        self.charge_gas(access_cost)?;
        self.world.selfdestruct(self.context.address, beneficiary);
        Ok(Some(ExitStatus::SelfDestruct))
    }
}

} // verus!
