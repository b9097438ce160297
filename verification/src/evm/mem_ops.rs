//! The instructions that read and write memory: loads and stores, copies
//! into memory, hashing, returning and logging.
use super::{failed_with, goes_on, stopped_with, 
    lemma_expansion_cost_nonneg, lemma_range_paid, mem_cost_of_len, padded, read_padded,
    spec_expansion_cost, usize_of, Evm, ExitStatus,
};
use crate::address::{keccak256_digest, keccak_u256};
use crate::gas::{
    copy_cost, saturating_mul, spec_copy_cost, words_for_size, G_SHA3WORD,
    sat, spec_words_for_size,
};
use crate::memory::{expanded, overwritten};
use crate::word::{be_bytes, be_value, U256};
use vstd::prelude::*;

verus! {

/// Memory after a read of `size` bytes at `offset`: grown to cover them.
pub open spec fn after_read(mem: Seq<u8>, offset: usize, size: usize) -> Seq<u8> {
    if size == 0 {
        mem
    } else {
        expanded(mem, (offset + size) as nat)
    }
}

/// The `size` bytes at `offset` of memory after such a read.
pub open spec fn read_bytes(mem: Seq<u8>, offset: usize, size: usize) -> Seq<u8> {
    if size == 0 {
        Seq::empty()
    } else {
        after_read(mem, offset, size).subrange(offset as int, offset + size)
    }
}

/// Memory after `bytes` are written at `offset`.
pub open spec fn after_write(mem: Seq<u8>, offset: usize, bytes: Seq<u8>) -> Seq<u8> {
    if bytes.len() == 0 {
        mem
    } else {
        overwritten(mem, offset as nat, bytes)
    }
}

/// A charge of at least the expansion cost of one nonempty range, taken from
/// gas that already paid for the current memory, pays for memory covering
/// the range, and the range is addressable.
pub(super) proof fn lemma_paid(len: nat, offset: usize, size: usize, spent: int, charged: int, limit: int)
    requires
        size > 0,
        mem_cost_of_len(len) <= spent,
        charged >= spec_expansion_cost(len, seq![(offset, size)]),
        spent + charged <= limit,
        charged < u64::MAX,
        charged >= 0,
    ensures
        offset + size <= usize::MAX,
        mem_cost_of_len(
            if len > offset + size {
                len
            } else {
                (offset + size) as nat
            },
        ) <= spent + charged,
{
    lemma_range_paid(len, seq![(offset, size)], 0, spent, charged, limit);
}

/// The copy instructions' data sources.
pub open spec fn is_copy_op(op: u8) -> bool {
    op == 0x37 || op == 0x39 || op == 0x3e
}

impl Evm {
    /// What `op_mload` does, from frame `pre` to frame `post` with outcome `r`.
    pub(super) open spec fn mload_step(
        pre: Evm,
        post: Evm,
        r: Result<Option<ExitStatus>, ExitStatus>,
    ) -> bool {
        &&& (
            post == (Evm { stack: post.stack, memory: post.memory,
                gas_remaining: post.gas_remaining, ..pre })
        )
        &&& (
            pre.stack@.len() == 0 ==> r == failed_with(ExitStatus::StackUnderflow)
                && post.stack@ =~= pre.stack@ && post.memory@ =~= pre.memory@
                    && post.gas_remaining == pre.gas_remaining
        )
        &&& (
            pre.stack@.len() > 0 ==> {
                let offset = usize_of(pre.stack@.last());
                let cost = spec_expansion_cost(pre.memory@.len(), seq![(offset, 32usize)]);
                &&& pre.gas_remaining < cost ==> r == failed_with(ExitStatus::OutOfGas)
                    && post.stack@ =~= pre.stack@.drop_last() && post.memory@ =~= pre.memory@
                &&& pre.gas_remaining >= cost ==> r == goes_on()
                    && post.gas_remaining == pre.gas_remaining - cost && post.memory@
                        =~= after_read(pre.memory@, offset, 32)
                    && post.stack@.drop_last() =~= pre.stack@.drop_last() && post.stack@.len()
                        == pre.stack@.len()
                    && post.stack@.last()@ == be_value(read_bytes(pre.memory@, offset, 32))
            }
        )
    }

    /// What `op_mstore` does, from frame `pre` to frame `post` with outcome `r`.
    pub(super) open spec fn mstore_step(
        pre: Evm,
        post: Evm,
        whole: bool,
        r: Result<Option<ExitStatus>, ExitStatus>,
    ) -> bool {
        &&& (
            post == (Evm { stack: post.stack, memory: post.memory,
                gas_remaining: post.gas_remaining, ..pre })
        )
        &&& (
            pre.stack@.len() < 2 ==> r == failed_with(ExitStatus::StackUnderflow)
                && post.stack@ =~= Seq::<U256>::empty() && post.memory@ =~= pre.memory@
                && post.gas_remaining == pre.gas_remaining
        )
        &&& (
            pre.stack@.len() >= 2 ==> {
                let n = pre.stack@.len();
                let offset = usize_of(pre.stack@[n - 1]);
                let value = pre.stack@[n - 2];
                let size: usize = if whole { 32 } else { 1 };
                let bytes = if whole { be_bytes(value@, 32) } else { seq![(value@ % 256) as u8] };
                let cost = spec_expansion_cost(pre.memory@.len(), seq![(offset, size)]);
                &&& post.stack@ =~= pre.stack@.subrange(0, n - 2)
                &&& pre.gas_remaining < cost ==> r == failed_with(ExitStatus::OutOfGas)
                    && post.memory@ =~= pre.memory@
                &&& pre.gas_remaining >= cost ==> r == goes_on()
                    && post.gas_remaining == pre.gas_remaining - cost && post.memory@
                        =~= overwritten(pre.memory@, offset as nat, bytes)
            }
        )
    }

    /// What `op_mcopy` does, from frame `pre` to frame `post` with outcome `r`.
    pub(super) open spec fn mcopy_step(
        pre: Evm,
        post: Evm,
        r: Result<Option<ExitStatus>, ExitStatus>,
    ) -> bool {
        &&& (
            post == (Evm { stack: post.stack, memory: post.memory,
                gas_remaining: post.gas_remaining, ..pre })
        )
        &&& (
            pre.stack@.len() < 3 ==> r == failed_with(ExitStatus::StackUnderflow)
                && post.stack@ =~= Seq::<U256>::empty() && post.memory@ =~= pre.memory@
                && post.gas_remaining == pre.gas_remaining
        )
        &&& (
            pre.stack@.len() >= 3 ==> {
                let n = pre.stack@.len();
                let dst = usize_of(pre.stack@[n - 1]);
                let src = usize_of(pre.stack@[n - 2]);
                let len = usize_of(pre.stack@[n - 3]);
                let cost = sat(spec_expansion_cost(pre.memory@.len(), seq![(dst, len), (src,
                    len)]) + spec_copy_cost(len as nat));
                &&& post.stack@ =~= pre.stack@.subrange(0, n - 3)
                &&& pre.gas_remaining < cost ==> r == failed_with(ExitStatus::OutOfGas)
                    && post.memory@ =~= pre.memory@
                &&& pre.gas_remaining >= cost ==> r == goes_on()
                    && post.gas_remaining == pre.gas_remaining - cost && post.memory@
                        =~= after_write(after_read(pre.memory@, src, len), dst,
                        read_bytes(pre.memory@, src, len))
            }
        )
    }

    /// What `op_sha3` does, from frame `pre` to frame `post` with outcome `r`.
    pub(super) open spec fn sha3_step(
        pre: Evm,
        post: Evm,
        r: Result<Option<ExitStatus>, ExitStatus>,
    ) -> bool {
        &&& (
            post == (Evm { stack: post.stack, memory: post.memory,
                gas_remaining: post.gas_remaining, ..pre })
        )
        &&& (
            pre.stack@.len() < 2 ==> r == failed_with(ExitStatus::StackUnderflow)
                && post.stack@ =~= Seq::<U256>::empty() && post.memory@ =~= pre.memory@
                && post.gas_remaining == pre.gas_remaining
        )
        &&& (
            pre.stack@.len() >= 2 ==> {
                let n = pre.stack@.len();
                let offset = usize_of(pre.stack@[n - 1]);
                let size = usize_of(pre.stack@[n - 2]);
                let cost = sat(spec_expansion_cost(pre.memory@.len(), seq![(offset,
                    size)]) + sat((spec_words_for_size(size as nat) * 6) as int));
                &&& pre.gas_remaining < cost ==> r == failed_with(ExitStatus::OutOfGas)
                    && post.memory@ =~= pre.memory@ && post.stack@ =~= pre.stack@.subrange(0, n - 2)
                &&& pre.gas_remaining >= cost ==> r == goes_on()
                    && post.gas_remaining == pre.gas_remaining - cost && post.memory@
                        =~= after_read(pre.memory@, offset, size)
                    && post.stack@.subrange(0, n - 2) =~= pre.stack@.subrange(0, n - 2)
                    && post.stack@.len() == n - 1 && post.stack@.last()@
                        == be_value(keccak256_digest(read_bytes(pre.memory@, offset, size)))
            }
        )
    }

    /// What `op_copy` does, from frame `pre` to frame `post` with outcome `r`.
    pub(super) open spec fn copy_step(
        pre: Evm,
        post: Evm,
        op: u8,
        r: Result<Option<ExitStatus>, ExitStatus>,
    ) -> bool {
        &&& (
            post == (Evm { stack: post.stack, memory: post.memory,
                gas_remaining: post.gas_remaining, ..pre })
        )
        &&& (
            pre.stack@.len() < 3 ==> r == failed_with(ExitStatus::StackUnderflow)
                && post.stack@ =~= Seq::<U256>::empty() && post.memory@ =~= pre.memory@
                && post.gas_remaining == pre.gas_remaining
        )
        &&& (
            pre.stack@.len() >= 3 ==> {
                let n = pre.stack@.len();
                let dst = usize_of(pre.stack@[n - 1]);
                let src = usize_of(pre.stack@[n - 2]);
                let size = usize_of(pre.stack@[n - 3]);
                let cost = sat(spec_expansion_cost(pre.memory@.len(), seq![(dst,
                    size)]) + spec_copy_cost(size as nat));
                &&& post.stack@ =~= pre.stack@.subrange(0, n - 3)
                &&& pre.gas_remaining < cost ==> r == failed_with(ExitStatus::OutOfGas)
                    && post.memory@ =~= pre.memory@
                &&& pre.gas_remaining >= cost ==> post.gas_remaining == pre.gas_remaining - cost
                    && match pre.copy_source(op, src, size) { None => r
                        == failed_with(ExitStatus::ReturnDataOutOfBounds)
                    && post.memory@ =~= pre.memory@, Some(bytes) => r == goes_on()
                    && post.memory@ =~= after_write(pre.memory@, dst, bytes), }
            }
        )
    }

    /// What `op_extcodecopy` does, from frame `pre` to frame `post` with outcome `r`.
    pub(super) open spec fn extcodecopy_step(
        pre: Evm,
        post: Evm,
        r: Result<Option<ExitStatus>, ExitStatus>,
    ) -> bool {
        &&& (
            post == (Evm { stack: post.stack, memory: post.memory,
                gas_remaining: post.gas_remaining, accessed_addresses: post.accessed_addresses,
                ..pre })
        )
        &&& (
            pre.stack@.len() == 0 ==> r == failed_with(ExitStatus::StackUnderflow)
                && post.stack@ =~= pre.stack@ && post.memory@ =~= pre.memory@
                    && post.gas_remaining == pre.gas_remaining
        )
        &&& (
            pre.stack@.len() > 0 ==> post.accessed_addresses.view().dom()
                =~= pre.accessed_addresses.view().dom().insert(pre.stack@.last())
        )
        &&& (
            pre.stack@.len() >= 4 ==> {
                let n = pre.stack@.len();
                let a = pre.stack@[n - 1];
                let access = if pre.accessed_addresses.view().dom().contains(a) { 0 } else { 2500int };
                let dst = usize_of(pre.stack@[n - 2]);
                let src = usize_of(pre.stack@[n - 3]);
                let size = usize_of(pre.stack@[n - 4]);
                let cost = sat(spec_expansion_cost(pre.memory@.len(), seq![(dst,
                    size)]) + spec_copy_cost(size as nat));
                &&& pre.gas_remaining < access + cost ==> r is Err && post.memory@ =~= pre.memory@
                &&& pre.gas_remaining >= access + cost ==> r == goes_on()
                    && post.stack@ =~= pre.stack@.subrange(0, n - 4) && post.gas_remaining
                        == pre.gas_remaining - access - cost
                    && post.memory@ =~= after_write(pre.memory@, dst, padded(pre.world.code(a),
                        src as nat, size as nat))
            }
        )
    }

    /// What `op_return` does, from frame `pre` to frame `post` with outcome `r`.
    pub(super) open spec fn return_step(
        pre: Evm,
        post: Evm,
        revert: bool,
        r: Result<Option<ExitStatus>, ExitStatus>,
    ) -> bool {
        &&& (
            post == (Evm { stack: post.stack, memory: post.memory,
                gas_remaining: post.gas_remaining, return_data: post.return_data, ..pre })
        )
        &&& (
            pre.stack@.len() < 2 ==> r == failed_with(ExitStatus::StackUnderflow)
                && post.return_data == pre.return_data && post.stack@ =~= Seq::<U256>::empty()
        )
        &&& (
            pre.stack@.len() >= 2 ==> {
                let n = pre.stack@.len();
                let offset = usize_of(pre.stack@[n - 1]);
                let size = usize_of(pre.stack@[n - 2]);
                let cost = spec_expansion_cost(pre.memory@.len(), seq![(offset, size)]);
                &&& post.stack@ =~= pre.stack@.subrange(0, n - 2)
                &&& pre.gas_remaining < cost || cost == u64::MAX ==> r == failed_with(
                    ExitStatus::OutOfGas,
                ) && post.return_data == pre.return_data
                &&& pre.gas_remaining >= cost && cost < u64::MAX ==> r == stopped_with(if revert { ExitStatus::Revert } else { ExitStatus::Return })
                    && post.gas_remaining == pre.gas_remaining - cost && post.memory@
                        =~= after_read(pre.memory@, offset, size)
                    && post.return_data@ =~= read_bytes(pre.memory@, offset, size)
            }
        )
    }

    /// The gas left once `amount` is taken, as a spec value.
    pub(super) open spec fn spent(&self) -> int {
        self.gas_limit - self.gas_remaining
    }

    /// `MLOAD`: pops an offset, charges memory growth, pushes the word there.
    #[verifier::rlimit(30)]
    pub(super) fn op_mload(&mut self) -> (r: Result<Option<ExitStatus>, ExitStatus>)
        requires
            old(self).gas_remaining < u64::MAX,
            old(self).inv(),
        ensures
            final(self).stepped(old(self), r),
            Self::mload_step(*old(self), *final(self), r),
    {
        let offset = self.pop_usize()?;
        let cost = self.memory_expansion_cost(offset, 32);
        let ghost spent = self.spent();
        self.charge_gas(cost)?;
        proof {
            lemma_paid(self.memory@.len(), offset, 32, spent, cost as int, self.gas_limit as int);
        }
        let value = self.memory.mload(offset);
        self.push_stack(value)?;
        Ok(None)
    }

    /// `MSTORE` and `MSTORE8`: pop an offset and a value, charge memory
    /// growth, store the word, or its low byte.
    #[verifier::rlimit(30)]
    pub(super) fn op_mstore(&mut self, whole: bool) -> (r: Result<Option<ExitStatus>, ExitStatus>)
        requires
            old(self).gas_remaining < u64::MAX,
            old(self).inv(),
        ensures
            final(self).stepped(old(self), r),
            Self::mstore_step(*old(self), *final(self), whole, r),
    {
        let ghost s0 = self.stack@;
        let offset = self.pop_usize()?;
        let value = self.pop_stack()?;
        proof {
            assert(self.stack@ =~= s0.subrange(0, s0.len() - 2));
        }
        let size: usize = if whole {
            32
        } else {
            1
        };
        let cost = self.memory_expansion_cost(offset, size);
        let ghost spent = self.spent();
        self.charge_gas(cost)?;
        proof {
            lemma_paid(self.memory@.len(), offset, size, spent, cost as int, self.gas_limit as int);
            crate::word::lemma_be_bytes_len(value@, 32);
        }
        if whole {
            self.memory.mstore(offset, value);
        } else {
            self.memory.mstore8(offset, value);
        }
        Ok(None)
    }

    /// `MCOPY`: pops destination, source and length, charges memory growth
    /// for both ranges and the copy, copies.
    #[verifier::rlimit(30)]
    pub(super) fn op_mcopy(&mut self) -> (r: Result<Option<ExitStatus>, ExitStatus>)
        requires
            old(self).gas_remaining < u64::MAX,
            old(self).inv(),
        ensures
            final(self).stepped(old(self), r),
            Self::mcopy_step(*old(self), *final(self), r),
    {
        let ghost s0 = self.stack@;
        let dst = self.pop_usize()?;
        let src = self.pop_usize()?;
        let len = self.pop_usize()?;
        proof {
            assert(self.stack@ =~= s0.subrange(0, s0.len() - 3));
        }
        let cost = self.memory_expansion_cost_two(dst, len, src, len).saturating_add(copy_cost(len));
        let ghost spent = self.spent();
        let ghost mem0 = self.memory@;
        self.charge_gas(cost)?;
        if len > 0 {
            proof {
                let ranges = seq![(dst, len), (src, len)];
                lemma_range_paid(mem0.len(), ranges, 0, spent, cost as int, self.gas_limit as int);
                lemma_range_paid(mem0.len(), ranges, 1, spent, cost as int, self.gas_limit as int);
            }
        }
        self.memory.mcopy(dst, src, len);
        Ok(None)
    }

    /// `KECCAK256`: pops offset and size, charges memory growth and the
    /// words hashed, pushes the digest of those bytes.
    #[verifier::rlimit(30)]
    pub(super) fn op_sha3(&mut self) -> (r: Result<Option<ExitStatus>, ExitStatus>)
        requires
            old(self).gas_remaining < u64::MAX,
            old(self).inv(),
        ensures
            final(self).stepped(old(self), r),
            Self::sha3_step(*old(self), *final(self), r),
    {
        let ghost s0 = self.stack@;
        let offset = self.pop_usize()?;
        let size = self.pop_usize()?;
        proof {
            assert(self.stack@ =~= s0.subrange(0, s0.len() - 2));
        }
        let memory_cost = self.memory_expansion_cost(offset, size);
        let word_cost = saturating_mul(words_for_size(size), G_SHA3WORD);
        let cost = memory_cost.saturating_add(word_cost);
        let ghost spent = self.spent();
        self.charge_gas(cost)?;
        if size > 0 {
            proof {
                lemma_paid(self.memory@.len(), offset, size, spent, cost as int, self.gas_limit as int);
            }
        }
        let bytes = self.memory.read_slice(offset, size);
        let digest = keccak_u256(bytes.as_slice());
        self.push_stack(digest)?;
        proof {
            assert(self.stack@.subrange(0, s0.len() - 2) =~= s0.subrange(0, s0.len() - 2));
        }
        Ok(None)
    }

    /// The bytes a copy instruction takes from its source, or `None` when
    /// `RETURNDATACOPY` reaches past the return data.
    pub(super) open spec fn copy_source(&self, op: u8, offset: usize, size: usize) -> Option<
        Seq<u8>,
    > {
        if op == 0x37 {
            Some(padded(self.calldata@, offset as nat, size as nat))
        } else if op == 0x39 {
            Some(padded(self.code@, offset as nat, size as nat))
        } else if offset + size > self.last_return_data@.len() {
            None
        } else {
            Some(self.last_return_data@.subrange(offset as int, offset + size))
        }
    }

    /// `CALLDATACOPY`, `CODECOPY` and `RETURNDATACOPY`: pop destination,
    /// source offset and size, charge memory growth and the copy, copy.
    #[verifier::rlimit(40)]
    pub(super) fn op_copy(&mut self, op: u8) -> (r: Result<Option<ExitStatus>, ExitStatus>)
        requires
            old(self).gas_remaining < u64::MAX,
            old(self).inv(),
            is_copy_op(op),
        ensures
            final(self).stepped(old(self), r),
            Self::copy_step(*old(self), *final(self), op, r),
    {
        let ghost s0 = self.stack@;
        let dst = self.pop_usize()?;
        let src = self.pop_usize()?;
        let size = self.pop_usize()?;
        proof {
            assert(self.stack@ =~= s0.subrange(0, s0.len() - 3));
        }
        let cost = self.memory_expansion_cost(dst, size).saturating_add(copy_cost(size));
        let ghost spent = self.spent();
        self.charge_gas(cost)?;
        if size > 0 {
            proof {
                lemma_paid(self.memory@.len(), dst, size, spent, cost as int, self.gas_limit as int);
            }
        }
        let chunk = if op == 0x37 {
            read_padded(self.calldata.as_slice(), src, size)
        } else if op == 0x39 {
            read_padded(self.code.as_slice(), src, size)
        } else {
            let available = self.last_return_data.len();
            if src > available || size > available - src {
                return Err(ExitStatus::ReturnDataOutOfBounds);
            }
            let c = read_padded(self.last_return_data.as_slice(), src, size);
            proof {
                assert(c@ =~= self.last_return_data@.subrange(src as int, src + size));
            }
            c
        };
        self.memory.write_slice(dst, chunk.as_slice());
        Ok(None)
    }

    /// `EXTCODECOPY`: pops an address, warms it and charges the cold
    /// surcharge, then copies its code as `CODECOPY` copies the frame's.
    #[verifier::rlimit(40)]
    pub(super) fn op_extcodecopy(&mut self) -> (r: Result<Option<ExitStatus>, ExitStatus>)
        requires
            old(self).gas_remaining < u64::MAX,
            old(self).inv(),
        ensures
            final(self).stepped(old(self), r),
            Self::extcodecopy_step(*old(self), *final(self), r),
    {
        proof {
            let n = self.stack@.len();
            if n >= 4 {
                lemma_expansion_cost_nonneg(
                    self.memory@.len(),
                    seq![(usize_of(self.stack@[n - 2]), usize_of(self.stack@[n - 4]))],
                );
            }
        }
        let address = self.pop_stack()?;
        let access_cost = self.account_access_additional_cost(address);
        self.charge_gas(access_cost)?;
        let dst = self.pop_usize()?;
        let src = self.pop_usize()?;
        let size = self.pop_usize()?;
        let cost = self.memory_expansion_cost(dst, size).saturating_add(copy_cost(size));
        let ghost spent = self.spent();
        self.charge_gas(cost)?;
        if size > 0 {
            proof {
                lemma_paid(self.memory@.len(), dst, size, spent, cost as int, self.gas_limit as int);
            }
        }
        let ext_code = self.world.code_of(address);
        let chunk = read_padded(ext_code.as_slice(), src, size);
        self.memory.write_slice(dst, chunk.as_slice());
        Ok(None)
    }

    /// `RETURN` and `REVERT`: pop offset and size, charge memory growth,
    /// keep those bytes as the frame's output and stop.
    #[verifier::rlimit(30)]
    pub(super) fn op_return(&mut self, revert: bool) -> (r: Result<
        Option<ExitStatus>,
        ExitStatus,
    >)
        requires
            old(self).inv(),
        ensures
            final(self).stepped(old(self), r),
            Self::return_step(*old(self), *final(self), revert, r),
    {
        let ghost s0 = self.stack@;
        let offset = self.pop_usize()?;
        let size = self.pop_usize()?;
        proof {
            assert(self.stack@ =~= s0.subrange(0, s0.len() - 2));
        }
        let cost = self.memory_expansion_cost(offset, size);
        if cost == u64::MAX {
            return Err(ExitStatus::OutOfGas);
        }
        let ghost spent = self.spent();
        self.charge_gas(cost)?;
        if size > 0 {
            proof {
                lemma_paid(self.memory@.len(), offset, size, spent, cost as int, self.gas_limit as int);
            }
        }
        self.return_data = self.memory.read_slice(offset, size);
        if revert {
            Ok(Some(ExitStatus::Revert))
        } else {
            Ok(Some(ExitStatus::Return))
        }
    }
}

} // verus!
