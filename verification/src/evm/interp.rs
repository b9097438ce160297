//! Decoding one instruction and handing it to the code that runs it.
use super::context::{is_account_op, is_env_op};
use super::mem_ops::is_copy_op;
use crate::world::WorldState;
use super::{
    is_exceptional, is_word_op, logs_extend, trace_extends, CallKind, Evm, ExitStatus,
    MAX_CALL_DEPTH,
};
use crate::opcodes::{
    is_dup, is_push, is_swap, spec_is_dup, spec_is_push, spec_is_swap, spec_log_topics,
    spec_static_gas_cost,
};
use vstd::prelude::*;

verus! {

/// Whether `op` calls another account's code or creates a contract.
pub open spec fn is_frame_op(op: u8) -> bool {
    op == 0xf0 || op == 0xf1 || op == 0xf2 || op == 0xf4 || op == 0xf5 || op == 0xfa
}

/// An instruction's outcome with the stopping status left out.
pub open spec fn as_unit(r: Result<Option<ExitStatus>, ExitStatus>) -> Result<(), ExitStatus> {
    match r {
        Ok(_) => Ok(()),
        Err(e) => Err(e),
    }
}

impl Evm {
    /// What the instruction `op` found at `pc_before` does, its static gas
    /// paid, from frame `pre` to frame `post` with outcome `r`. Of calls and
    /// creates it says what does not depend on the code they run.
    pub(super) open spec fn instr_step(
        op: u8,
        pc_before: usize,
        pre: Evm,
        post: Evm,
        r: Result<Option<ExitStatus>, ExitStatus>,
    ) -> bool
        decreases MAX_CALL_DEPTH - pre.spec_depth(), 2int, 0nat,
    {
        if op == 0x00 {
            r == Ok::<Option<ExitStatus>, ExitStatus>(Some(ExitStatus::Stop)) && post == pre
        } else if spec_is_push(op) {
            Self::push_step(pre, post, op, r)
        } else if op == 0x50 {
            Self::pop_step(pre, post, r)
        } else if spec_is_dup(op) {
            Self::dup_step(pre, post, op, r)
        } else if spec_is_swap(op) {
            Self::swap_step(pre, post, op, r)
        } else if is_word_op(op) {
            Self::word_step(pre, post, op, r)
        } else if op == 0x20 {
            Self::sha3_step(pre, post, r)
        } else if is_env_op(op) {
            Self::env_step(pre, post, op, pc_before, r)
        } else if is_account_op(op) {
            Self::account_step(pre, post, op, r)
        } else if op == 0x35 {
            Self::calldataload_step(pre, post, r)
        } else if is_copy_op(op) {
            Self::copy_step(pre, post, op, r)
        } else if op == 0x3c {
            Self::extcodecopy_step(pre, post, r)
        } else if op == 0x40 {
            Self::blockhash_step(pre, post, r)
        } else if op == 0x51 {
            Self::mload_step(pre, post, r)
        } else if op == 0x52 {
            Self::mstore_step(pre, post, true, r)
        } else if op == 0x53 {
            Self::mstore_step(pre, post, false, r)
        } else if op == 0x54 {
            Self::sload_step(pre, post, r)
        } else if op == 0x55 {
            Self::sstore_step(pre, post, r)
        } else if op == 0x56 {
            Self::jump_step(pre, post, false, r)
        } else if op == 0x57 {
            Self::jump_step(pre, post, true, r)
        } else if op == 0x5b {
            r == Ok::<Option<ExitStatus>, ExitStatus>(None) && post == pre
        } else if op == 0x5e {
            Self::mcopy_step(pre, post, r)
        } else if spec_log_topics(op) is Some {
            Self::log_step(pre, post, op, r)
        } else if op == 0xf3 {
            Self::return_step(pre, post, false, r)
        } else if op == 0xfd {
            Self::return_step(pre, post, true, r)
        } else if op == 0xff {
            Self::selfdestruct_step(pre, post, r)
        } else if op == 0xf0 || op == 0xf5 {
            !(r matches Ok(Some(_))) && Self::create_step(pre, post, op == 0xf5, as_unit(r))
        } else if op == 0xf1 {
            !(r matches Ok(Some(_))) && Self::call_step(pre, post, CallKind::Call, as_unit(r))
        } else if op == 0xf2 {
            !(r matches Ok(Some(_))) && Self::call_step(pre, post, CallKind::CallCode, as_unit(r))
        } else if op == 0xf4 {
            !(r matches Ok(Some(_))) && Self::call_step(pre, post, CallKind::DelegateCall, as_unit(r))
        } else if op == 0xfa {
            !(r matches Ok(Some(_))) && Self::call_step(pre, post, CallKind::StaticCall, as_unit(r))
        } else {
            r == Err::<Option<ExitStatus>, ExitStatus>(ExitStatus::InvalidOpcode(op)) && post == pre
        }
    }

    /// Runs the instruction `opcode` found at `pc_before`, its static gas
    /// already paid: `Ok(None)` to go on, `Ok(Some(status))` when it stops the
    /// frame, `Err(status)` when it fails. An instruction with no static cost
    /// that lets the frame go on uses gas of its own.
    pub(super) fn execute_opcode(&mut self, opcode: u8, pc_before: usize) -> (r: Result<
        Option<ExitStatus>,
        ExitStatus,
    >)
        requires
            old(self).inv(),
            old(self).gas_remaining + spec_static_gas_cost(opcode) <= u64::MAX,
        ensures
            final(self).stepped(old(self), r),
            r == Ok::<Option<ExitStatus>, ExitStatus>(None) ==> final(self).gas_remaining < old(self).gas_remaining || spec_static_gas_cost(opcode) > 0,
            r matches Ok(Some(s)) ==> !is_exceptional(s),
            Self::instr_step(
                opcode,
                pc_before,
                (Evm { trace_steps: final(self).trace_steps, ..*old(self) }),
                *final(self),
                r,
            ),
            !is_frame_op(opcode) ==> final(self).trace_steps == old(self).trace_steps,
            old(self).context.is_static ==> final(self).world.same(&old(self).world),
            logs_extend(old(self).logs@, final(self).logs@),
            !old(self).trace ==> final(self).trace_steps@ == old(self).trace_steps@,
            trace_extends(old(self).trace_steps@, final(self).trace_steps@),
        decreases MAX_CALL_DEPTH - old(self).spec_depth(), 3int,
    {
        proof {
            WorldState::lemma_same_equivalence(self.world, self.world, self.world);
            assert(self.logs@.subrange(0, self.logs@.len() as int) =~= self.logs@);
            assert(self.trace_steps@.subrange(0, self.trace_steps@.len() as int) =~= self.trace_steps@);
        }
        if opcode == 0x00 {
            return Ok(Some(ExitStatus::Stop));
        }
        if is_push(opcode) {
            return self.op_push(opcode);
        }
        if opcode == 0x50 {
            return self.op_pop();
        }
        if is_dup(opcode) {
            return self.op_dup(opcode);
        }
        if is_swap(opcode) {
            return self.op_swap(opcode);
        }
        if (0x01 <= opcode && opcode <= 0x0b) || (0x10 <= opcode && opcode <= 0x1d) {
            return self.op_word(opcode);
        }
        match opcode {
            0x20 => self.op_sha3(),
            0x30 | 0x32 | 0x33 | 0x34 | 0x36 | 0x38 | 0x3a | 0x3d | 0x41 | 0x42 | 0x43 | 0x44
            | 0x45 | 0x46 | 0x47 | 0x48 | 0x58 | 0x59 | 0x5a => self.op_env(opcode, pc_before),
            0x31 | 0x3b | 0x3f => self.op_account(opcode),
            0x35 => self.op_calldataload(),
            0x37 | 0x39 | 0x3e => self.op_copy(opcode),
            0x3c => self.op_extcodecopy(),
            0x40 => self.op_blockhash(),
            0x51 => self.op_mload(),
            0x52 => self.op_mstore(true),
            0x53 => self.op_mstore(false),
            0x54 => self.op_sload(),
            0x55 => self.op_sstore(),
            0x56 => self.op_jump(false),
            0x57 => self.op_jump(true),
            0x5b => Ok(None),
            0x5e => self.op_mcopy(),
            0xa0 | 0xa1 | 0xa2 | 0xa3 | 0xa4 => self.op_log(opcode),
            0xf0 => {
                self.execute_create(false)?;
                Ok(None)
            },
            0xf1 => {
                self.execute_call(CallKind::Call)?;
                Ok(None)
            },
            0xf2 => {
                self.execute_call(CallKind::CallCode)?;
                Ok(None)
            },
            0xf3 => self.op_return(false),
            0xf4 => {
                self.execute_call(CallKind::DelegateCall)?;
                Ok(None)
            },
            0xf5 => {
                self.execute_create(true)?;
                Ok(None)
            },
            0xfa => {
                self.execute_call(CallKind::StaticCall)?;
                Ok(None)
            },
            0xfd => self.op_return(true),
            0xff => self.op_selfdestruct(),
            _ => Err(ExitStatus::InvalidOpcode(opcode)),
        }
    }
}

} // verus!
