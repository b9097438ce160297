//! The interpreter: execution frames, gas accounting, opcode dispatch and
//! nested calls and creates.
use crate::arith::{abs, spec_sdiv, spec_smod, u256_to_usize};
use crate::assoc::{AssocMap, SlotKey};
use crate::bitwise::sign_extended;
use crate::gas::{
    lemma_memory_cost_monotonic, memory_cost, spec_memory_cost,
    spec_words_for_range, spec_words_for_size, words_for_range, words_for_size,
    COLD_ACCOUNT_ACCESS_COST, COLD_SLOAD_COST, MAX_REFUND_QUOTIENT, SLOAD_GAS,
    SSTORE_CLEARS_SCHEDULE, SSTORE_RESET_GAS, SSTORE_SET_GAS, SSTORE_STIPEND,
    WARM_STORAGE_READ_COST,
};
use crate::memory::{overwritten, Memory};
use crate::opcodes::{is_push, push_size, spec_is_push, spec_static_gas_cost, static_gas_cost};
use crate::stack::{Stack, StackError, STACK_LIMIT};
use crate::storage::spec_load;
use crate::word::{signed_value, word_modulus, wrap, zero_word, U256};
use crate::world::{copy_bytes, WorldState};
use interp::is_frame_op;
pub use crate::text::{format_stack, format_u256};
pub use mem_ops::{after_read, after_write, is_copy_op, read_bytes};
pub use ops::exp_gas;
pub use context::{is_account_op, is_env_op};
use std::collections::HashSet;
use vstd::arithmetic::power::pow;
use vstd::arithmetic::power2::pow2;
use vstd::prelude::*;

mod ops;
mod context;
mod mem_ops;
mod state_ops;
mod interp;
mod frames;
mod steps;
mod step_laws;

verus! {

broadcast use vstd::std_specs::hash::group_hash_axioms;

/// The deepest nesting of calls and creates.
pub const MAX_CALL_DEPTH: usize = 1024;

/// How a frame ended, or why it could not go on.
#[derive(Debug, Clone, Copy, PartialEq, Eq, Structural)]
pub enum ExitStatus {
    /// `STOP`, or the end of the code.
    Stop,
    /// `RETURN`.
    Return,
    /// `REVERT`.
    Revert,
    /// `SELFDESTRUCT`.
    SelfDestruct,
    /// Not enough gas for the next charge.
    OutOfGas,
    /// A push onto a full stack.
    StackOverflow,
    /// A read below the bottom of the stack.
    StackUnderflow,
    /// A jump to a position that is no `JUMPDEST`.
    BadJumpDestination(usize),
    /// A byte that is no instruction, or `INVALID`.
    InvalidOpcode(u8),
    /// `RETURNDATACOPY` past the end of the return data.
    ReturnDataOutOfBounds,
    /// A state change inside a static call.
    StaticModeViolation,
}

/// Whether a frame that ended so keeps its effects.
pub open spec fn spec_is_success(status: ExitStatus) -> bool {
    status == ExitStatus::Stop || status == ExitStatus::Return || status == ExitStatus::SelfDestruct
}

/// The outcome of an instruction that failed with `status`.
pub open spec fn failed_with(status: ExitStatus) -> Result<Option<ExitStatus>, ExitStatus> {
    Err(status)
}

/// The outcome of an instruction after which the frame goes on.
pub open spec fn goes_on() -> Result<Option<ExitStatus>, ExitStatus> {
    Ok(None)
}

/// The outcome of an instruction that stopped the frame with `status`.
pub open spec fn stopped_with(status: ExitStatus) -> Result<Option<ExitStatus>, ExitStatus> {
    Ok(Some(status))
}

/// Whether a frame ended in an exceptional halt: neither success nor `REVERT`.
pub open spec fn is_exceptional(status: ExitStatus) -> bool {
    !spec_is_success(status) && status != ExitStatus::Revert
}

/// Whether a frame that ended so keeps its effects.
pub fn is_success_status(status: &ExitStatus) -> (r: bool)
    ensures
        r == spec_is_success(*status),
{
    match status {
        ExitStatus::Stop | ExitStatus::Return | ExitStatus::SelfDestruct => true,
        _ => false,
    }
}

/// A log record.
#[derive(Debug, Clone)]
pub struct LogEntry {
    /// The account that logged.
    pub address: U256,
    /// The topics, first popped first.
    pub topics: Vec<U256>,
    /// The data from memory.
    pub data: Vec<u8>,
}

/// A copy of a vector of words.
pub fn copy_words(v: &[U256]) -> (r: Vec<U256>)
    ensures
        r@ == v@,
{
    let mut out: Vec<U256> = Vec::new();
    let mut i: usize = 0;
    while i < v.len()
        invariant
            i <= v@.len(),
            out@ == v@.subrange(0, i as int),
        decreases v@.len() - i,
    {
        out.push(v[i]);
        i = i + 1;
        assert(out@ =~= v@.subrange(0, i as int));
    }
    assert(out@ =~= v@);
    out
}

impl LogEntry {
    /// A copy of the record.
    pub fn duplicate(&self) -> (r: LogEntry)
        ensures
            r.address == self.address,
            r.topics@ == self.topics@,
            r.data@ == self.data@,
    {
        LogEntry {
            address: self.address,
            topics: copy_words(self.topics.as_slice()),
            data: copy_bytes(&self.data),
        }
    }
}

impl Default for LogEntry {
    fn default() -> (r: LogEntry)
        ensures
            r.address == zero_word(),
            r.topics@ == Seq::<U256>::empty(),
            r.data@ == Seq::<u8>::empty(),
    {
        LogEntry { address: U256::zero(), topics: Vec::new(), data: Vec::new() }
    }
}

/// Two log records hold the same data.
pub open spec fn same_log(a: LogEntry, b: LogEntry) -> bool {
    a.address == b.address && a.topics@ == b.topics@ && a.data@ == b.data@
}

/// Two lists of log records hold the same data.
pub open spec fn same_logs(a: Seq<LogEntry>, b: Seq<LogEntry>) -> bool {
    a.len() == b.len() && forall|i: int| 0 <= i < a.len() ==> same_log(#[trigger] a[i], b[i])
}

/// `after` holds the records of `before`, in order, and perhaps more after
/// them.
pub open spec fn logs_extend(before: Seq<LogEntry>, after: Seq<LogEntry>) -> bool {
    after.len() >= before.len() && after.subrange(0, before.len() as int) == before
}

/// `after` holds the trace records of `before`, in order, and perhaps more
/// after them.
pub open spec fn trace_extends(before: Seq<TraceStep>, after: Seq<TraceStep>) -> bool {
    after.len() >= before.len() && after.subrange(0, before.len() as int) == before
}

/// A copy of a list of log records.
pub fn copy_logs(v: &Vec<LogEntry>) -> (r: Vec<LogEntry>)
    ensures
        same_logs(r@, v@),
{
    let mut out: Vec<LogEntry> = Vec::new();
    let mut i: usize = 0;
    while i < v.len()
        invariant
            i <= v@.len(),
            out@.len() == i,
            forall|j: int| 0 <= j < i ==> same_log(#[trigger] out@[j], v@[j]),
        decreases v@.len() - i,
    {
        out.push(v[i].duplicate());
        i = i + 1;
    }
    out
}

/// The block and transaction an execution runs in.
#[derive(Debug, Clone)]
pub struct Env {
    /// The executing account.
    pub address: U256,
    /// The transaction's sender.
    pub origin: U256,
    /// The caller of the outermost frame.
    pub caller: U256,
    /// The value sent to the outermost frame.
    pub callvalue: U256,
    /// The gas price.
    pub gas_price: U256,
    /// The block's beneficiary.
    pub coinbase: U256,
    /// The block's timestamp.
    pub timestamp: U256,
    /// The block's number.
    pub block_number: U256,
    /// The block's randomness.
    pub prevrandao: U256,
    /// The block's gas limit.
    pub block_gas_limit: U256,
    /// The chain identifier.
    pub chain_id: U256,
    /// The executing account's balance.
    pub self_balance: U256,
    /// The block's base fee.
    pub base_fee: U256,
    /// Hashes of earlier blocks, by number.
    pub block_hashes: AssocMap<U256, U256>,
    /// Balances of other accounts.
    pub account_balances: AssocMap<U256, U256>,
}

impl Env {
    /// The maps are sound.
    pub open spec fn wf(&self) -> bool {
        self.block_hashes.wf() && self.account_balances.wf()
    }
}

impl Default for Env {
    /// Everything zero, but a block gas limit of 30,000,000 and chain 1.
    fn default() -> (r: Env)
        ensures
            r.wf(),
            r.address@ == 0,
            r.origin@ == 0,
            r.caller@ == 0,
            r.callvalue@ == 0,
            r.gas_price@ == 0,
            r.coinbase@ == 0,
            r.timestamp@ == 0,
            r.block_number@ == 0,
            r.prevrandao@ == 0,
            r.block_gas_limit@ == 30_000_000,
            r.chain_id@ == 1,
            r.self_balance@ == 0,
            r.base_fee@ == 0,
            r.block_hashes.view() == Map::<U256, U256>::empty(),
            r.account_balances.view() == Map::<U256, U256>::empty(),
    {
        Env {
            address: U256::zero(),
            origin: U256::zero(),
            caller: U256::zero(),
            callvalue: U256::zero(),
            gas_price: U256::zero(),
            coinbase: U256::zero(),
            timestamp: U256::zero(),
            block_number: U256::zero(),
            prevrandao: U256::zero(),
            block_gas_limit: U256::from_u64(30_000_000),
            chain_id: U256::one(),
            self_balance: U256::zero(),
            base_fee: U256::zero(),
            block_hashes: AssocMap::new(),
            account_balances: AssocMap::new(),
        }
    }
}

impl Env {
    /// Both environments hold the same values.
    pub open spec fn same(&self, other: &Env) -> bool {
        &&& self.address == other.address
        &&& self.origin == other.origin
        &&& self.caller == other.caller
        &&& self.callvalue == other.callvalue
        &&& self.gas_price == other.gas_price
        &&& self.coinbase == other.coinbase
        &&& self.timestamp == other.timestamp
        &&& self.block_number == other.block_number
        &&& self.prevrandao == other.prevrandao
        &&& self.block_gas_limit == other.block_gas_limit
        &&& self.chain_id == other.chain_id
        &&& self.self_balance == other.self_balance
        &&& self.base_fee == other.base_fee
        &&& self.block_hashes.view() == other.block_hashes.view()
        &&& self.account_balances.view() == other.account_balances.view()
    }

    /// A copy of the environment.
    pub fn duplicate(&self) -> (r: Env)
        requires
            self.wf(),
        ensures
            r.wf(),
            r.address == self.address,
            r.origin == self.origin,
            r.caller == self.caller,
            r.callvalue == self.callvalue,
            r.gas_price == self.gas_price,
            r.coinbase == self.coinbase,
            r.timestamp == self.timestamp,
            r.block_number == self.block_number,
            r.prevrandao == self.prevrandao,
            r.block_gas_limit == self.block_gas_limit,
            r.chain_id == self.chain_id,
            r.self_balance == self.self_balance,
            r.base_fee == self.base_fee,
            r.block_hashes.view() == self.block_hashes.view(),
            r.account_balances.view() == self.account_balances.view(),
    {
        Env {
            address: self.address,
            origin: self.origin,
            caller: self.caller,
            callvalue: self.callvalue,
            gas_price: self.gas_price,
            coinbase: self.coinbase,
            timestamp: self.timestamp,
            block_number: self.block_number,
            prevrandao: self.prevrandao,
            block_gas_limit: self.block_gas_limit,
            chain_id: self.chain_id,
            self_balance: self.self_balance,
            base_fee: self.base_fee,
            block_hashes: self.block_hashes.duplicate(),
            account_balances: self.account_balances.duplicate(),
        }
    }
}

/// What a frame's execution produced.
#[derive(Debug, Clone)]
pub struct ExecutionResult {
    /// How it ended.
    pub status: ExitStatus,
    /// The stack at the end, bottom first.
    pub stack: Vec<U256>,
    /// The data of `RETURN` or `REVERT`.
    pub return_data: Vec<u8>,
    /// The gas used, net of any refund.
    pub gas_used: u64,
    /// The gas left, with any refund added.
    pub gas_remaining: u64,
    /// The logs, oldest first.
    pub logs: Vec<LogEntry>,
}

/// The state of one step of execution, recorded when tracing is on.
#[derive(Debug, Clone)]
pub struct TraceStep {
    /// The call depth of the frame.
    pub depth: usize,
    /// The position of the instruction.
    pub pc: usize,
    /// The instruction.
    pub opcode: u8,
    /// The gas left after its static charge.
    pub gas_remaining: u64,
    /// The stack before it runs, bottom first.
    pub stack: Vec<U256>,
}

/// Who runs, for whom, and under which restrictions.
#[derive(Debug, Clone, Copy)]
struct FrameContext {
    address: U256,
    caller: U256,
    callvalue: U256,
    is_static: bool,
    depth: usize,
}

/// The four ways to call another account's code.
#[derive(Debug, Clone, Copy, PartialEq, Eq, Structural)]
enum CallKind {
    Call,
    CallCode,
    DelegateCall,
    StaticCall,
}

/// The refund counter moves by at most this much per unit of gas spent.
pub open spec fn refund_per_gas() -> int {
    247
}

/// The refund a successful outermost frame gets back: the positive part of
/// its refund counter, capped at a fifth of the gas it used.
pub open spec fn applied_refund(refund: i128, used: int) -> int {
    let r: int = if refund > 0 {
        refund as int
    } else {
        0
    };
    let cap = used / 5;
    if r < cap {
        r
    } else {
        cap
    }
}

/// The memory charge for memory of `len` bytes.
pub open spec fn mem_cost_of_len(len: nat) -> int {
    spec_memory_cost(spec_words_for_size(len))
}

/// An execution frame.
pub struct Evm {
    code: Vec<u8>,
    pc: usize,
    stack: Stack,
    memory: Memory,
    calldata: Vec<u8>,
    gas_limit: u64,
    gas_remaining: u64,
    return_data: Vec<u8>,
    last_return_data: Vec<u8>,
    jumpdests: HashSet<usize>,
    /// The block and transaction context.
    pub env: Env,
    world: WorldState,
    original_storage: AssocMap<SlotKey, U256>,
    accessed_addresses: AssocMap<U256, ()>,
    accessed_storage_keys: AssocMap<SlotKey, ()>,
    gas_refund: i128,
    refund_budget: Ghost<int>,
    logs: Vec<LogEntry>,
    trace: bool,
    trace_steps: Vec<TraceStep>,
    context: FrameContext,
}

/// The largest number of words any of `ranges` needs, and at least `init`.
pub open spec fn max_range_words(ranges: Seq<(usize, usize)>, init: nat) -> nat
    decreases ranges.len(),
{
    if ranges.len() == 0 {
        init
    } else {
        let w = spec_words_for_range(ranges.last().0 as nat, ranges.last().1 as nat);
        let m = max_range_words(ranges.drop_last(), init);
        if w > m {
            w
        } else {
            m
        }
    }
}

/// Each range, and `init`, needs at most `max_range_words` words.
proof fn lemma_max_range_words(ranges: Seq<(usize, usize)>, init: nat)
    ensures
        max_range_words(ranges, init) >= init,
        forall|j: int|
            0 <= j < ranges.len() ==> max_range_words(ranges, init) >= spec_words_for_range(
                #[trigger] ranges[j].0 as nat,
                ranges[j].1 as nat,
            ),
    decreases ranges.len(),
{
    if ranges.len() > 0 {
        lemma_max_range_words(ranges.drop_last(), init);
        assert forall|j: int| 0 <= j < ranges.len() implies max_range_words(ranges, init)
            >= spec_words_for_range(#[trigger] ranges[j].0 as nat, ranges[j].1 as nat) by {
            if j < ranges.len() - 1 {
                assert(ranges.drop_last()[j] == ranges[j]);
            }
        }
    }
}

/// Every nonempty range ends within reach of an address.
pub open spec fn addressable(ranges: Seq<(usize, usize)>) -> bool {
    forall|j: int| 0 <= j < ranges.len() && #[trigger] ranges[j].1 > 0 ==> ranges[j].0
        + ranges[j].1 <= usize::MAX
}

/// The charge for growing memory of `len` bytes to cover every range. A
/// range that ends beyond the reach of an address can never be paid for: its
/// charge is the largest 64-bit value, which no frame can pay once an
/// instruction's static gas is taken.
pub open spec fn spec_expansion_cost(len: nat, ranges: Seq<(usize, usize)>) -> int {
    let current = spec_words_for_size(len);
    let new_words = max_range_words(ranges, current);
    if !addressable(ranges) {
        u64::MAX as int
    } else if new_words <= current {
        0
    } else {
        spec_memory_cost(new_words) - spec_memory_cost(current)
    }
}

/// Growing memory never pays back gas.
proof fn lemma_expansion_cost_nonneg(len: nat, ranges: Seq<(usize, usize)>)
    ensures
        spec_expansion_cost(len, ranges) >= 0,
{
    let current = spec_words_for_size(len);
    let w = max_range_words(ranges, current);
    if w > current {
        lemma_memory_cost_monotonic(current, w);
    }
}

/// A charge of at least the expansion cost, taken from gas that already paid
/// for the current memory, pays for memory covering a nonempty range; and the
/// range lies within reach of an address.
proof fn lemma_range_paid(
    len: nat,
    ranges: Seq<(usize, usize)>,
    j: int,
    spent_before: int,
    charged: int,
    limit: int,
)
    requires
        0 <= j < ranges.len(),
        ranges[j].1 > 0,
        mem_cost_of_len(len) <= spent_before,
        charged >= spec_expansion_cost(len, ranges),
        spent_before + charged <= limit,
        charged < u64::MAX,
        charged >= 0,
    ensures
        ranges[j].0 + ranges[j].1 <= usize::MAX,
        mem_cost_of_len(
            if len > ranges[j].0 + ranges[j].1 {
                len
            } else {
                (ranges[j].0 + ranges[j].1) as nat
            },
        ) <= spent_before + charged,
{
    let current = spec_words_for_size(len);
    let w = max_range_words(ranges, current);
    lemma_max_range_words(ranges, current);
    let (o, s) = ranges[j];
    if o + s > usize::MAX {
        assert(!addressable(ranges));
        assert(false);
    }
    assert(spec_memory_cost(w) <= spent_before + charged) by {
        if w <= current {
            assert(w == current);
        }
    }
    let end = if len > o + s {
        len
    } else {
        (o + s) as nat
    };
    if len > o + s {
        lemma_memory_cost_monotonic(current, w);
    } else {
        lemma_memory_cost_monotonic(spec_words_for_size(end), w);
    }
}

impl Evm {
    /// The maps are sound and the frame is within the depth limit.
    pub closed spec fn maps_wf(&self) -> bool {
        &&& self.world.wf()
        &&& self.env.wf()
        &&& self.original_storage.wf()
        &&& self.accessed_addresses.wf()
        &&& self.accessed_storage_keys.wf()
        &&& self.context.depth < MAX_CALL_DEPTH
    }

    /// The refund counter is within its budget once the remaining gas is
    /// counted against it.
    pub closed spec fn refund_ok(&self) -> bool {
        &&& abs(self.gas_refund as int) + refund_per_gas() * self.gas_remaining
            <= self.refund_budget@
        &&& self.refund_budget@ <= refund_per_gas() * u64::MAX
    }

    /// The frame's invariant: sound maps, gas within the limit, memory paid
    /// for by the gas spent, and the refund counter within its budget.
    pub closed spec fn inv(&self) -> bool {
        &&& self.maps_wf()
        &&& self.gas_remaining <= self.gas_limit
        &&& mem_cost_of_len(self.memory@.len()) <= self.gas_limit - self.gas_remaining
        &&& self.refund_ok()
        &&& self.stack@.len() <= STACK_LIMIT
    }

    /// What holds of a frame that stopped with an error, once its gas is gone.
    pub closed spec fn halted_ok(&self) -> bool {
        &&& self.maps_wf()
        &&& self.gas_remaining <= self.gas_limit
        &&& abs(self.gas_refund as int) <= self.refund_budget@
        &&& self.refund_budget@ <= refund_per_gas() * u64::MAX
        &&& self.stack@.len() <= STACK_LIMIT
    }

    /// The parts of a frame that no instruction changes.
    pub closed spec fn kept(&self, before: &Evm) -> bool {
        &&& self.code == before.code
        &&& self.jumpdests == before.jumpdests
        &&& self.context == before.context
        &&& self.gas_limit == before.gas_limit
        &&& self.refund_budget == before.refund_budget
        &&& self.trace == before.trace
        &&& self.calldata == before.calldata
        &&& self.env == before.env
    }

    /// After an instruction: the fixed parts kept and, unless it failed, the
    /// invariant with no more gas than before; after a failure, what a halted
    /// frame keeps.
    pub closed spec fn stepped(&self, before: &Evm, r: Result<Option<ExitStatus>, ExitStatus>) -> bool {
        &&& self.kept(before)
        &&& (r matches Ok(Some(s)) ==> !is_exceptional(s))
        &&& match r {
            Ok(_) => self.inv() && self.gas_remaining <= before.gas_remaining,
            Err(_) => self.halted_ok(),
        }
    }

    /// The environment.
    pub closed spec fn spec_env(&self) -> Env {
        self.env
    }

    /// The frames agree but for their input.
    pub closed spec fn differs_only_in_calldata(&self, other: &Evm) -> bool {
        *self == (Evm { calldata: self.calldata, ..*other })
    }

    /// The frames agree but for tracing.
    pub closed spec fn differs_only_in_trace(&self, other: &Evm) -> bool {
        *self == (Evm { trace: self.trace, ..*other })
    }

    /// The frames agree but for their gas.
    pub closed spec fn differs_only_in_gas(&self, other: &Evm) -> bool {
        *self == (Evm {
            gas_limit: self.gas_limit,
            gas_remaining: self.gas_remaining,
            refund_budget: self.refund_budget,
            ..*other
        })
    }

    /// The frames agree but for their world.
    pub closed spec fn differs_only_in_world(&self, other: &Evm) -> bool {
        *self == (Evm { world: self.world, ..*other })
    }

    /// The stack, bottom first.
    pub closed spec fn spec_stack(&self) -> Seq<U256> {
        self.stack@
    }

    /// The memory.
    pub closed spec fn spec_memory(&self) -> Seq<u8> {
        self.memory@
    }

    /// The gas left.
    pub closed spec fn spec_gas_remaining(&self) -> u64 {
        self.gas_remaining
    }

    /// The gas the frame started with.
    pub closed spec fn spec_gas_limit(&self) -> u64 {
        self.gas_limit
    }

    /// The refund counter.
    pub closed spec fn spec_refund(&self) -> i128 {
        self.gas_refund
    }

    /// The position of the next instruction.
    pub closed spec fn spec_pc(&self) -> usize {
        self.pc
    }

    /// The code being run.
    pub closed spec fn spec_code(&self) -> Seq<u8> {
        self.code@
    }

    /// The positions of the code's `JUMPDEST` instructions.
    pub closed spec fn spec_jumpdests(&self) -> Set<usize> {
        self.jumpdests@
    }

    /// The input data.
    pub closed spec fn spec_calldata(&self) -> Seq<u8> {
        self.calldata@
    }

    /// The data of the frame's own `RETURN` or `REVERT`.
    pub closed spec fn spec_return_data(&self) -> Seq<u8> {
        self.return_data@
    }

    /// The output of the last call or create this frame made.
    pub closed spec fn spec_last_return_data(&self) -> Seq<u8> {
        self.last_return_data@
    }

    /// The call depth.
    pub closed spec fn spec_depth(&self) -> usize {
        self.context.depth
    }

    /// The logs, oldest first.
    pub closed spec fn spec_logs(&self) -> Seq<LogEntry> {
        self.logs@
    }

    /// The state of all accounts.
    pub closed spec fn spec_world(&self) -> WorldState {
        self.world
    }

    /// The account whose code runs.
    pub closed spec fn spec_address(&self) -> U256 {
        self.context.address
    }

    /// The account whose call started the frame.
    pub closed spec fn spec_caller(&self) -> U256 {
        self.context.caller
    }

    /// The value sent with that call.
    pub closed spec fn spec_callvalue(&self) -> U256 {
        self.context.callvalue
    }

    /// Whether tracing is on.
    pub closed spec fn spec_trace(&self) -> bool {
        self.trace
    }

    /// Whether the frame runs under `STATICCALL`, where no state may change.
    pub closed spec fn spec_is_static(&self) -> bool {
        self.context.is_static
    }

    /// The steps recorded while tracing, in the order they ran, those of
    /// nested frames included.
    pub closed spec fn spec_trace_steps(&self) -> Seq<TraceStep> {
        self.trace_steps@
    }

    /// The steps recorded while tracing, in the order they ran, those of
    /// nested frames included.
    pub fn trace_steps(&self) -> (r: &[TraceStep])
        ensures
            r@ == self.spec_trace_steps(),
    {
        self.trace_steps.as_slice()
    }

    /// The accounts touched so far.
    pub closed spec fn spec_accessed_addresses(&self) -> Set<U256> {
        self.accessed_addresses.view().dom()
    }

    /// The storage slots touched so far.
    pub closed spec fn spec_accessed_slots(&self) -> Set<SlotKey> {
        self.accessed_storage_keys.view().dom()
    }

    /// Takes `amount` gas, failing with `OutOfGas` (and taking nothing) when
    /// less is left.
    fn charge_gas(&mut self, amount: u64) -> (r: Result<(), ExitStatus>)
        ensures
            old(self).gas_remaining < amount ==> r == Err::<(), ExitStatus>(ExitStatus::OutOfGas)
                && *final(self) == *old(self),
            old(self).gas_remaining >= amount ==> r is Ok && *final(self) == (Evm {
                gas_remaining: (old(self).gas_remaining - amount) as u64,
                ..*old(self)
            }),
    {
        if self.gas_remaining < amount {
            return Err(ExitStatus::OutOfGas);
        }
        self.gas_remaining = self.gas_remaining - amount;
        Ok(())
    }

    /// The exit status for a refused stack operation.
    fn map_stack_error(err: StackError) -> (r: ExitStatus)
        ensures
            err == StackError::Overflow ==> r == ExitStatus::StackOverflow,
            err != StackError::Overflow ==> r == ExitStatus::StackUnderflow,
    {
        match err {
            StackError::Overflow => ExitStatus::StackOverflow,
            StackError::Underflow | StackError::InvalidDepth => ExitStatus::StackUnderflow,
        }
    }

    /// Pushes `value`, failing with `StackOverflow` on a full stack.
    fn push_stack(&mut self, value: U256) -> (r: Result<(), ExitStatus>)
        ensures
            old(self).stack@.len() >= STACK_LIMIT ==> r == Err::<(), ExitStatus>(
                ExitStatus::StackOverflow,
            ) && final(self).stack@ == old(self).stack@,
            old(self).stack@.len() < STACK_LIMIT ==> r is Ok && final(self).stack@ == old(self).stack@.push(value),
            *final(self) == (Evm { stack: final(self).stack, ..*old(self) }),
    {
        self.stack.push(value).map_err(|e: StackError| -> (r: ExitStatus)
            ensures
                e == StackError::Overflow ==> r == ExitStatus::StackOverflow,
            { Self::map_stack_error(e) })
    }

    /// Pops the top word, failing with `StackUnderflow` on an empty stack.
    fn pop_stack(&mut self) -> (r: Result<U256, ExitStatus>)
        ensures
            old(self).stack@.len() == 0 ==> r == Err::<U256, ExitStatus>(
                ExitStatus::StackUnderflow,
            ) && final(self).stack@ == old(self).stack@,
            old(self).stack@.len() > 0 ==> r == Ok::<U256, ExitStatus>(old(self).stack@.last())
                && final(self).stack@ == old(self).stack@.drop_last(),
            *final(self) == (Evm { stack: final(self).stack, ..*old(self) }),
    {
        match self.stack.pop() {
            Ok(v) => Ok(v),
            Err(_) => Err(ExitStatus::StackUnderflow),
        }
    }

    /// Pops the top word as an offset or size, capped at `usize::MAX`.
    fn pop_usize(&mut self) -> (r: Result<usize, ExitStatus>)
        ensures
            old(self).stack@.len() == 0 ==> r == Err::<usize, ExitStatus>(
                ExitStatus::StackUnderflow,
            ) && final(self).stack@ == old(self).stack@,
            old(self).stack@.len() > 0 ==> r == Ok::<usize, ExitStatus>(
                usize_of(old(self).stack@.last()),
            ) && final(self).stack@ == old(self).stack@.drop_last(),
            *final(self) == (Evm { stack: final(self).stack, ..*old(self) }),
    {
        let value = self.pop_stack()?;
        Ok(u256_to_usize(value))
    }

    /// The gas an account access costs: cold the first time, warm after;
    /// the account counts as accessed afterwards.
    fn account_access_cost(&mut self, address: U256) -> (r: u64)
        requires
            old(self).accessed_addresses.wf(),
        ensures
            final(self).accessed_addresses.wf(),
            r == (if old(self).accessed_addresses.view().dom().contains(address) {
                WARM_STORAGE_READ_COST
            } else {
                COLD_ACCOUNT_ACCESS_COST
            }),
            final(self).accessed_addresses.view().dom() == old(self).accessed_addresses.view().dom().insert(address),
            *final(self) == (Evm { accessed_addresses: final(self).accessed_addresses, ..*old(self) }),
    {
        let fresh = !self.accessed_addresses.contains_key(&address);
        self.accessed_addresses.insert(address, ());
        if fresh {
            COLD_ACCOUNT_ACCESS_COST
        } else {
            WARM_STORAGE_READ_COST
        }
    }

    /// The account access cost beyond the warm cost already in the static gas.
    fn account_access_additional_cost(&mut self, address: U256) -> (r: u64)
        requires
            old(self).accessed_addresses.wf(),
        ensures
            final(self).accessed_addresses.wf(),
            r == (if old(self).accessed_addresses.view().dom().contains(address) {
                0u64
            } else {
                (COLD_ACCOUNT_ACCESS_COST - WARM_STORAGE_READ_COST) as u64
            }),
            final(self).accessed_addresses.view().dom() == old(self).accessed_addresses.view().dom().insert(address),
            *final(self) == (Evm { accessed_addresses: final(self).accessed_addresses, ..*old(self) }),
    {
        self.account_access_cost(address).saturating_sub(WARM_STORAGE_READ_COST)
    }

    /// The gas a storage slot access costs: cold the first time, warm after.
    fn storage_access_cost(&mut self, address: U256, key: U256) -> (r: u64)
        requires
            old(self).accessed_storage_keys.wf(),
        ensures
            final(self).accessed_storage_keys.wf(),
            r == (if old(self).accessed_storage_keys.view().dom().contains(
                SlotKey { address, key },
            ) {
                WARM_STORAGE_READ_COST
            } else {
                COLD_SLOAD_COST
            }),
            final(self).accessed_storage_keys.view().dom() == old(self).accessed_storage_keys.view().dom().insert(SlotKey { address, key }),
            *final(self) == (Evm {
                accessed_storage_keys: final(self).accessed_storage_keys,
                ..*old(self)
            }),
    {
        let slot = SlotKey { address, key };
        let fresh = !self.accessed_storage_keys.contains_key(&slot);
        self.accessed_storage_keys.insert(slot, ());
        if fresh {
            COLD_SLOAD_COST
        } else {
            WARM_STORAGE_READ_COST
        }
    }

    /// The storage access cost beyond the warm cost already in the static gas.
    fn storage_access_additional_cost(&mut self, address: U256, key: U256) -> (r: u64)
        requires
            old(self).accessed_storage_keys.wf(),
        ensures
            final(self).accessed_storage_keys.wf(),
            r == (if old(self).accessed_storage_keys.view().dom().contains(
                SlotKey { address, key },
            ) {
                0u64
            } else {
                (COLD_SLOAD_COST - WARM_STORAGE_READ_COST) as u64
            }),
            final(self).accessed_storage_keys.view().dom() == old(self).accessed_storage_keys.view().dom().insert(SlotKey { address, key }),
            *final(self) == (Evm {
                accessed_storage_keys: final(self).accessed_storage_keys,
                ..*old(self)
            }),
    {
        self.storage_access_cost(address, key).saturating_sub(WARM_STORAGE_READ_COST)
    }

    /// The number of words memory occupies.
    fn memory_word_size(&self) -> (r: u64)
        ensures
            r == spec_words_for_size(self.memory@.len()),
    {
        words_for_size(self.memory.len())
    }

    /// The charge for growing memory to cover every range.
    fn memory_expansion_cost_many(&self, ranges: &[(usize, usize)]) -> (r: u64)
        ensures
            r == spec_expansion_cost(self.memory@.len(), ranges@),
    {
        let mut j: usize = 0;
        while j < ranges.len()
            invariant
                j <= ranges@.len(),
                forall|q: int| 0 <= q < j && #[trigger] ranges@[q].1 > 0 ==> ranges@[q].0
                    + ranges@[q].1 <= usize::MAX,
            decreases ranges@.len() - j,
        {
            let (offset, size) = ranges[j];
            if size > 0 && offset > usize::MAX - size {
                return u64::MAX;
            }
            j = j + 1;
        }
        let current_words = self.memory_word_size();
        let mut new_words = current_words;
        let mut i: usize = 0;
        while i < ranges.len()
            invariant
                i <= ranges@.len(),
                current_words == spec_words_for_size(self.memory@.len()),
                new_words == max_range_words(ranges@.subrange(0, i as int), current_words as nat),
            decreases ranges@.len() - i,
        {
            let (offset, size) = ranges[i];
            let words = words_for_range(offset, size);
            proof {
                assert(ranges@.subrange(0, i + 1).drop_last() =~= ranges@.subrange(0, i as int));
            }
            if words > new_words {
                new_words = words;
            }
            i = i + 1;
        }
        proof {
            assert(ranges@.subrange(0, i as int) =~= ranges@);
        }
        if new_words <= current_words {
            return 0;
        }
        proof {
            lemma_memory_cost_monotonic(current_words as nat, new_words as nat);
        }
        memory_cost(new_words).saturating_sub(memory_cost(current_words))
    }

    /// The charge for growing memory to cover `size` bytes at `offset`.
    fn memory_expansion_cost(&self, offset: usize, size: usize) -> (r: u64)
        ensures
            r == spec_expansion_cost(self.memory@.len(), seq![(offset, size)]),
    {
        let ranges = [(offset, size)];
        assert(ranges@ =~= seq![(offset, size)]);
        self.memory_expansion_cost_many(&ranges)
    }

    /// The value a slot had when the transaction first touched it.
    pub closed spec fn spec_original_value(&self, slot: SlotKey) -> U256 {
        if self.original_storage.view().dom().contains(slot) {
            self.original_storage.view()[slot]
        } else {
            spec_load(self.world.storage(slot.address), slot.key)
        }
    }

    /// The gas of an `SSTORE` of `new_value` to `slot` of `address`, with its
    /// effect on the refund counter, on the record of original values and on
    /// the warm slots. It fails when no more than the call stipend is left.
    fn sstore_dynamic_gas(&mut self, address: U256, slot: U256, new_value: U256) -> (r: Result<
        u64,
        ExitStatus,
    >)
        requires
            old(self).maps_wf(),
            abs(old(self).gas_refund as int) <= refund_per_gas() * u64::MAX,
        ensures
            old(self).gas_remaining <= SSTORE_STIPEND ==> r == Err::<u64, ExitStatus>(
                ExitStatus::OutOfGas,
            ) && *final(self) == *old(self),
            old(self).gas_remaining > SSTORE_STIPEND ==> {
                let key = SlotKey { address, key: slot };
                let original = old(self).spec_original_value(key);
                let current = spec_load(old(self).world.storage(address), slot);
                &&& r == Ok::<u64, ExitStatus>(
                    (sstore_base_cost(original, current, new_value) + (if old(self).accessed_storage_keys.view().dom().contains(key) {
                        0u64
                    } else {
                        COLD_SLOAD_COST
                    })) as u64,
                )
                &&& final(self).gas_refund == old(self).gas_refund + sstore_refund_delta(
                    original,
                    current,
                    new_value,
                )
                &&& final(self).accessed_storage_keys.view().dom() == old(self).accessed_storage_keys.view().dom().insert(key)
                &&& final(self).original_storage.view() == (if old(self).original_storage.view().dom().contains(key) {
                    old(self).original_storage.view()
                } else {
                    old(self).original_storage.view().insert(key, current)
                })
                &&& final(self).maps_wf()
                &&& *final(self) == (Evm {
                    gas_refund: final(self).gas_refund,
                    original_storage: final(self).original_storage,
                    accessed_storage_keys: final(self).accessed_storage_keys,
                    ..*old(self)
                })
            },
    {
        if self.gas_remaining <= SSTORE_STIPEND {
            return Err(ExitStatus::OutOfGas);
        }
        let is_cold = self.storage_access_cost(address, slot) == COLD_SLOAD_COST;
        let key = SlotKey { address, key: slot };
        let original_value = match self.original_storage.get(&key) {
            Some(v) => *v,
            None => {
                let v = self.world.storage_load(address, slot);
                self.original_storage.insert(key, v);
                v
            },
        };
        let current_value = self.world.storage_load(address, slot);
        let mut gas_cost: u64;
        if new_value == current_value {
            gas_cost = SLOAD_GAS;
        } else if original_value == current_value {
            if original_value.is_zero() {
                gas_cost = SSTORE_SET_GAS;
            } else {
                gas_cost = SSTORE_RESET_GAS;
                if new_value.is_zero() {
                    self.gas_refund = self.gas_refund + SSTORE_CLEARS_SCHEDULE as i128;
                }
            }
        } else {
            gas_cost = SLOAD_GAS;
            if !original_value.is_zero() {
                if current_value.is_zero() {
                    self.gas_refund = self.gas_refund - SSTORE_CLEARS_SCHEDULE as i128;
                }
                if new_value.is_zero() {
                    self.gas_refund = self.gas_refund + SSTORE_CLEARS_SCHEDULE as i128;
                }
            }
            if new_value == original_value {
                if original_value.is_zero() {
                    self.gas_refund = self.gas_refund + (SSTORE_SET_GAS - SLOAD_GAS) as i128;
                } else {
                    self.gas_refund = self.gas_refund + (SSTORE_RESET_GAS - SLOAD_GAS) as i128;
                }
            }
        }
        if is_cold {
            gas_cost = gas_cost.saturating_add(COLD_SLOAD_COST);
        }
        Ok(gas_cost)
    }

    /// A frame that has not run: the invariant holds, with no memory, no
    /// stack, no refund, all its gas left, at the first instruction and at
    /// depth zero.
    pub closed spec fn ready(&self) -> bool {
        &&& self.inv()
        &&& self.memory@.len() == 0
        &&& self.stack@.len() == 0
        &&& self.gas_refund == 0
        &&& self.refund_budget@ == refund_per_gas() * self.gas_limit
        &&& self.gas_remaining == self.gas_limit
        &&& self.pc == 0
        &&& self.context.depth == 0
        &&& forall|p: usize| #[trigger]
            self.jumpdests@.contains(p) <==> jumpdests_from(self.code@, 0).contains(p as nat)
    }

    /// A frame that has not run satisfies the invariant that `run` asks for;
    /// it stands at the first instruction at depth zero with an empty stack
    /// and memory, no refund and all its gas.
    pub proof fn lemma_ready_is_valid(e: Evm)
        requires
            e.ready(),
        ensures
            e.inv(),
            e.maps_wf(),
            e.spec_pc() == 0,
            e.spec_depth() == 0,
            e.spec_stack().len() == 0,
            e.spec_memory().len() == 0,
            e.spec_refund() == 0,
            e.spec_gas_remaining() == e.spec_gas_limit(),
            forall|p: usize| #[trigger]
                e.spec_jumpdests().contains(p) <==> jumpdests_from(e.spec_code(), 0).contains(
                    p as nat,
                ),
    {
    }

    /// A frame that holds the invariant, or that has halted, has sound maps.
    pub proof fn lemma_maps_wf(e: Evm)
        requires
            e.inv() || e.halted_ok(),
        ensures
            e.maps_wf(),
    {
    }

    /// What `kept` keeps: the code, the gas limit, the input, the
    /// environment, the depth, whether the frame is static, and tracing.
    pub proof fn lemma_kept_fixed(after: Evm, before: Evm)
        requires
            after.kept(&before),
        ensures
            after.spec_code() == before.spec_code(),
            after.spec_gas_limit() == before.spec_gas_limit(),
            after.spec_calldata() == before.spec_calldata(),
            after.spec_env() == before.spec_env(),
            after.spec_depth() == before.spec_depth(),
            after.spec_is_static() == before.spec_is_static(),
            after.spec_address() == before.spec_address(),
            after.spec_trace() == before.spec_trace(),
    {
    }

    /// A frame running `code` at address zero in the default environment,
    /// with 10,000,000 gas, no input, tracing off; the world holds `code` at
    /// address zero and nothing else.
    pub fn new(code: Vec<u8>) -> (r: Self)
        ensures
            r.ready(),
            r.spec_code() == code@,
            r.spec_gas_limit() == 10_000_000,
            r.spec_calldata() == Seq::<u8>::empty(),
            !r.spec_trace(),
            r.spec_address() == zero_word(),
            r.spec_env().address == zero_word(),
            r.spec_env().origin@ == 0,
            r.spec_env().caller@ == 0,
            r.spec_env().block_gas_limit@ == 30_000_000,
            r.spec_env().chain_id@ == 1,
            r.spec_world().code(zero_word()) == code@,
            r.spec_world().balance(zero_word())@ == 0,
            r.spec_world().nonce(zero_word()) == 0,
            r.spec_world().storage(zero_word()) == Map::<U256, U256>::empty(),
            !r.spec_world().created(zero_word()),
            forall|a: U256| a != zero_word() ==> #[trigger] r.spec_world().is_fresh(a),
            r.spec_accessed_addresses() == Self::precompiles().insert(zero_word()),
            r.spec_accessed_slots() == Set::<SlotKey>::empty(),
            r.spec_logs().len() == 0,
            r.spec_return_data().len() == 0,
            r.spec_last_return_data().len() == 0,
            r.spec_trace_steps().len() == 0,
    {
        let env = Env::default();
        let mut world = WorldState::new();
        let ghost w0 = world;
        world.set_code(env.address, copy_bytes(&code));
        let ghost w1 = world;
        world.set_balance(env.address, env.self_balance);
        let ghost w2 = world;
        apply_balances(&mut world, &env.account_balances);
        proof {
            assert forall|a: U256| a != zero_word() implies #[trigger] world.is_fresh(a) by {
                assert(world.nonce(a) == w2.nonce(a));
                assert(world.balance(a) == w2.balance(a));
                assert(w2.same_at(&w1, a));
                assert(w1.same_at(&w0, a));
                assert(w0.is_fresh(a));
            }
            assert(world.nonce(zero_word()) == w2.nonce(zero_word()));
            assert(world.balance(zero_word()) == w2.balance(zero_word()));
        }
        let jumpdests = collect_jumpdests(code.as_slice());
        let gas_limit = 10_000_000u64;
        let mut vm = Evm {
            code,
            pc: 0,
            stack: Stack::new(),
            memory: Memory::new(),
            calldata: Vec::new(),
            gas_limit,
            gas_remaining: gas_limit,
            return_data: Vec::new(),
            last_return_data: Vec::new(),
            jumpdests,
            env,
            world,
            original_storage: AssocMap::new(),
            accessed_addresses: AssocMap::new(),
            accessed_storage_keys: AssocMap::new(),
            gas_refund: 0,
            refund_budget: Ghost(refund_per_gas() * gas_limit),
            logs: Vec::new(),
            trace: false,
            trace_steps: Vec::new(),
            context: FrameContext {
                address: U256::zero(),
                caller: U256::zero(),
                callvalue: U256::zero(),
                is_static: false,
                depth: 0,
            },
        };
        proof {
            vstd::arithmetic::mul::lemma_mul_inequality(
                gas_limit as int,
                u64::MAX as int,
                refund_per_gas(),
            );
            assert(spec_words_for_size(0) == 0);
            assert(spec_memory_cost(0) == 0);
        }
        vm.reset_access_lists();
        proof {
            assert(vm.accessed_addresses.view().dom() =~= Self::precompiles().insert(zero_word()));
        }
        vm
    }

    /// The frame with `calldata` as its input.
    pub fn with_calldata(self, calldata: Vec<u8>) -> (r: Self)
        ensures
            r.spec_calldata() == calldata@,
            r.differs_only_in_calldata(&self),
            self.ready() ==> r.ready(),
    {
        let mut vm = self;
        vm.calldata = calldata;
        vm
    }

    /// The frame with tracing switched on or off.
    pub fn with_trace(self, trace: bool) -> (r: Self)
        ensures
            r.spec_trace() == trace,
            r.differs_only_in_trace(&self),
            self.ready() ==> r.ready(),
    {
        let mut vm = self;
        vm.trace = trace;
        vm
    }

    /// The frame with `gas_limit` gas.
    pub fn with_gas_limit(self, gas_limit: u64) -> (r: Self)
        requires
            self.ready(),
        ensures
            r.ready(),
            r.spec_gas_limit() == gas_limit,
            r.spec_gas_remaining() == gas_limit,
            r.differs_only_in_gas(&self),
    {
        let mut vm = self;
        vm.gas_limit = gas_limit;
        vm.gas_remaining = gas_limit;
        vm.refund_budget = Ghost(refund_per_gas() * gas_limit);
        proof {
            vstd::arithmetic::mul::lemma_mul_inequality(
                gas_limit as int,
                u64::MAX as int,
                refund_per_gas(),
            );
            assert(spec_words_for_size(0) == 0);
            assert(spec_memory_cost(0) == 0);
        }
        vm
    }

    /// The frame running in `env`: as its account, for its caller, with its
    /// value; the world gets this frame's code at the account, the
    /// environment's own balance there and the environment's other balances;
    /// access lists and refunds start over.
    pub fn with_env(self, env: Env) -> (r: Self)
        requires
            self.maps_wf(),
            env.wf(),
        ensures
            r.maps_wf(),
            self.ready() ==> r.ready(),
            r.spec_address() == env.address,
            r.spec_env() == env,
            r.spec_world().code(env.address) == self.spec_code(),
            !r.spec_world().created(env.address),
            forall|a: U256|
                #[trigger] r.spec_world().balance(a) == (if env.account_balances.view().dom().contains(
                    a,
                ) {
                    env.account_balances.view()[a]
                } else if a == env.address {
                    env.self_balance
                } else {
                    self.spec_world().balance(a)
                }),
            forall|a: U256|
                #![trigger r.spec_world().nonce(a)]
                r.spec_world().nonce(a) == self.spec_world().nonce(a) && r.spec_world().storage(a)
                    == self.spec_world().storage(a),
            forall|a: U256|
                a != env.address ==> #[trigger] r.spec_world().code(a) == self.spec_world().code(a),
            forall|a: U256|
                a != env.address ==> #[trigger] r.spec_world().created(a) == self.spec_world().created(
                    a,
                ),
            r.spec_accessed_addresses() == Self::precompiles().insert(env.address).insert(
                env.caller,
            ).insert(env.origin),
            r.spec_accessed_slots() == Set::<SlotKey>::empty(),
            r.spec_calldata() == self.spec_calldata(),
            r.spec_gas_limit() == self.spec_gas_limit(),
            r.spec_trace() == self.spec_trace(),
    {
        let mut vm = self;
        vm.context.address = env.address;
        vm.context.caller = env.caller;
        vm.context.callvalue = env.callvalue;
        vm.context.is_static = false;
        vm.context.depth = 0;
        let ghost w0 = vm.world;
        vm.world.set_code(env.address, copy_bytes(&vm.code));
        let ghost w1 = vm.world;
        vm.world.set_balance(env.address, env.self_balance);
        let ghost w2 = vm.world;
        apply_balances(&mut vm.world, &env.account_balances);
        proof {
            assert(vm.world.nonce(env.address) == w2.nonce(env.address));
            assert forall|a: U256| a != env.address implies #[trigger] w2.same_at(&w0, a) by {
                assert(w2.same_at(&w1, a));
                assert(w1.same_at(&w0, a));
            }
            assert forall|a: U256|
                #[trigger] vm.world.balance(a) == (if env.account_balances.view().dom().contains(a) {
                    env.account_balances.view()[a]
                } else if a == env.address {
                    env.self_balance
                } else {
                    w0.balance(a)
                }) by {
                if a != env.address {
                    assert(w2.same_at(&w0, a));
                }
            }
            assert forall|a: U256|
                #![trigger vm.world.nonce(a)]
                vm.world.nonce(a) == w0.nonce(a) && vm.world.storage(a) == w0.storage(a) by {
                assert(vm.world.nonce(a) == w2.nonce(a));
                if a != env.address {
                    assert(w2.same_at(&w0, a));
                }
            }
            assert forall|a: U256| a != env.address implies #[trigger] vm.world.code(a) == w0.code(a)
                by {
                assert(vm.world.nonce(a) == w2.nonce(a));
                assert(w2.same_at(&w0, a));
            }
            assert forall|a: U256| a != env.address implies #[trigger] vm.world.created(a)
                == w0.created(a) by {
                assert(vm.world.nonce(a) == w2.nonce(a));
                assert(w2.same_at(&w0, a));
            }
        }
        vm.env = env;
        vm.reset_access_lists();
        vm
    }

    /// The frame with `code` installed at `address` as existing code.
    pub fn with_external_code(self, address: U256, code: Vec<u8>) -> (r: Self)
        requires
            self.maps_wf(),
        ensures
            r.maps_wf(),
            self.ready() ==> r.ready(),
            self.inv() ==> r.inv(),
            r.spec_world().code(address) == code@,
            !r.spec_world().created(address),
            r.spec_world().balance(address) == self.spec_world().balance(address),
            r.spec_world().nonce(address) == self.spec_world().nonce(address),
            r.spec_world().storage(address) == self.spec_world().storage(address),
            r.spec_world().same_except(&self.spec_world(), address),
            r.differs_only_in_world(&self),
    {
        let mut vm = self;
        vm.world.set_code(address, code);
        vm
    }

    /// The frame with `balance` as the balance of `address`.
    pub fn with_account_balance(self, address: U256, balance: U256) -> (r: Self)
        requires
            self.maps_wf(),
        ensures
            r.maps_wf(),
            self.ready() ==> r.ready(),
            self.inv() ==> r.inv(),
            r.spec_world().balance(address) == balance,
            r.spec_world().nonce(address) == self.spec_world().nonce(address),
            r.spec_world().code(address) == self.spec_world().code(address),
            r.spec_world().storage(address) == self.spec_world().storage(address),
            r.spec_world().created(address) == self.spec_world().created(address),
            r.spec_world().same_except(&self.spec_world(), address),
            r.differs_only_in_world(&self),
    {
        let mut vm = self;
        vm.world.set_balance(address, balance);
        vm
    }

    /// The addresses of the precompiled contracts, 1 to 9.
    pub open spec fn precompiles() -> Set<U256> {
        Set::new(|a: U256| 1 <= a@ <= 9)
    }

    /// Forgets every access, refund and original value, then warms the
    /// executing account, its caller, the origin and the precompiles.
    fn reset_access_lists(&mut self)
        ensures
            final(self).accessed_addresses.wf(),
            final(self).accessed_storage_keys.wf(),
            final(self).original_storage.wf(),
            final(self).accessed_addresses.view().dom() == Self::precompiles().insert(
                old(self).context.address,
            ).insert(old(self).context.caller).insert(old(self).env.origin),
            final(self).accessed_storage_keys.view().dom() == Set::<SlotKey>::empty(),
            final(self).original_storage.view() == Map::<SlotKey, U256>::empty(),
            final(self).gas_refund == 0,
            *final(self) == (Evm {
                accessed_addresses: final(self).accessed_addresses,
                accessed_storage_keys: final(self).accessed_storage_keys,
                original_storage: final(self).original_storage,
                gas_refund: 0,
                ..*old(self)
            }),
    {
        let mut accessed: AssocMap<U256, ()> = AssocMap::new();
        self.accessed_storage_keys = AssocMap::new();
        self.gas_refund = 0;
        self.original_storage = AssocMap::new();
        assert(self.accessed_storage_keys.view().dom() =~= Set::<SlotKey>::empty());
        accessed.insert(self.context.address, ());
        accessed.insert(self.context.caller, ());
        accessed.insert(self.env.origin, ());
        let ghost base = Set::<U256>::empty().insert(self.context.address).insert(
            self.context.caller,
        ).insert(self.env.origin);
        assert(accessed.view().dom() =~= base);
        let mut p: u64 = 1;
        while p <= 9
            invariant
                1 <= p <= 10,
                accessed.wf(),
                accessed.view().dom() =~= base.union(Set::new(|a: U256| 1 <= a@ < p)),
            decreases 10 - p,
        {
            let w = U256::from_u64(p);
            accessed.insert(w, ());
            proof {
                assert forall|a: U256| a@ == p implies a == w by {
                    crate::word::lemma_view_injective(a, w);
                }
                assert(accessed.view().dom() =~= base.union(Set::new(|a: U256| 1 <= a@ < p + 1)));
            }
            p = p + 1;
        }
        proof {
            let target = Self::precompiles().insert(self.context.address).insert(
                self.context.caller,
            ).insert(self.env.origin);
            assert forall|a: U256| accessed.view().dom().contains(a) == target.contains(a) by {}
            assert(accessed.view().dom() =~= target);
        }
        self.accessed_addresses = accessed;
    }

    /// A new frame for a call or create from this one: `code` runs on
    /// `calldata` with `gas_limit` gas in `context` against `world`, with this
    /// frame's environment, access lists, original values, refund counter and
    /// tracing; `budget` bounds its refund counter as the invariant says.
    fn spawn_child(
        &self,
        code: Vec<u8>,
        calldata: Vec<u8>,
        gas_limit: u64,
        context: FrameContext,
        world: WorldState,
        Ghost(budget): Ghost<int>,
    ) -> (r: Evm)
        requires
            self.maps_wf(),
            world.wf(),
            context.depth < MAX_CALL_DEPTH,
            abs(self.gas_refund as int) + refund_per_gas() * gas_limit <= budget,
            budget <= refund_per_gas() * u64::MAX,
        ensures
            r.inv(),
            r.code@ == code@,
            r.calldata@ == calldata@,
            r.gas_limit == gas_limit,
            r.gas_remaining == gas_limit,
            r.context == context,
            r.world == world,
            r.refund_budget@ == budget,
            r.gas_refund == self.gas_refund,
            r.trace == self.trace,
            r.accessed_addresses.view() == self.accessed_addresses.view(),
            r.accessed_storage_keys.view() == self.accessed_storage_keys.view(),
            r.original_storage.view() == self.original_storage.view(),
            r.logs@.len() == 0,
            r.trace_steps@.len() == 0,
            r.stack@.len() == 0,
            r.memory@.len() == 0,
            r.pc == 0,
            forall|p: usize| #[trigger]
                r.jumpdests@.contains(p) <==> jumpdests_from(code@, 0).contains(p as nat),
            r.env.same(&self.env),
            r.return_data@.len() == 0,
            r.last_return_data@.len() == 0,
    {
        let jumpdests = collect_jumpdests(code.as_slice());
        let child = Evm {
            code,
            pc: 0,
            stack: Stack::new(),
            memory: Memory::new(),
            calldata,
            gas_limit,
            gas_remaining: gas_limit,
            return_data: Vec::new(),
            last_return_data: Vec::new(),
            jumpdests,
            env: self.env.duplicate(),
            world,
            original_storage: self.original_storage.duplicate(),
            accessed_addresses: self.accessed_addresses.duplicate(),
            accessed_storage_keys: self.accessed_storage_keys.duplicate(),
            gas_refund: self.gas_refund,
            refund_budget: Ghost(budget),
            logs: Vec::new(),
            trace: self.trace,
            trace_steps: Vec::new(),
            context,
        };
        proof {
            assert(spec_words_for_size(0) == 0);
            assert(spec_memory_cost(0) == 0);
        }
        child
    }

    /// Writes as much of the last return data as fits in `out_size` bytes at
    /// `out_offset`.
    fn copy_last_return_data_to_memory(&mut self, out_offset: usize, out_size: usize)
        requires
            out_size == 0 || old(self).last_return_data@.len() == 0 || out_offset + out_size
                <= usize::MAX,
        ensures
            *final(self) == (Evm { memory: final(self).memory, ..*old(self) }),
            out_size == 0 || old(self).last_return_data@.len() == 0 ==> final(self).memory@ == old(self).memory@,
            out_size > 0 && old(self).last_return_data@.len() > 0 ==> final(self).memory@
                == overwritten(
                old(self).memory@,
                out_offset as nat,
                old(self).last_return_data@.subrange(
                    0,
                    if out_size < old(self).last_return_data@.len() {
                        out_size as int
                    } else {
                        old(self).last_return_data@.len() as int
                    },
                ),
            ),
    {
        if out_size == 0 || self.last_return_data.len() == 0 {
            return;
        }
        let copy_len = if out_size < self.last_return_data.len() {
            out_size
        } else {
            self.last_return_data.len()
        };
        let chunk = read_padded(self.last_return_data.as_slice(), 0, copy_len);
        assert(chunk@ =~= self.last_return_data@.subrange(0, copy_len as int));
        self.memory.write_slice(out_offset, chunk.as_slice());
    }

    /// Records each original value the child frame learned that this frame
    /// had not: values already known stay.
    fn merge_original_storage(&mut self, child: &AssocMap<SlotKey, U256>)
        requires
            old(self).original_storage.wf(),
            child.wf(),
        ensures
            *final(self) == (Evm { original_storage: final(self).original_storage, ..*old(self) }),
            final(self).original_storage.wf(),
            forall|k: SlotKey|
                #[trigger] final(self).original_storage.view().dom().contains(k) == (old(self).original_storage.view().dom().contains(k) || child.view().dom().contains(k)),
            forall|k: SlotKey|
                #[trigger] old(self).original_storage.view().dom().contains(k) ==> final(self).original_storage.view()[k] == old(self).original_storage.view()[k],
            forall|k: SlotKey|
                !old(self).original_storage.view().dom().contains(k) && #[trigger] child.view().dom().contains(k)
                    ==> final(self).original_storage.view()[k] == child.view()[k],
    {
        let ghost start = self.original_storage.view();
        let n = child.len();
        proof {
            child.lemma_entries();
        }
        let mut i: usize = 0;
        while i < n
            invariant
                n == child.entry_seq().len(),
                child.wf(),
                i <= n,
                self.original_storage.wf(),
                forall|j: int|
                    0 <= j < n ==> #[trigger] child.view().dom().contains(child.entry_seq()[j].0)
                        && child.view()[child.entry_seq()[j].0] == child.entry_seq()[j].1,
                forall|k: SlotKey|
                    #[trigger] self.original_storage.view().dom().contains(k) == (start.dom().contains(k)
                        || exists|j: int| 0 <= j < i && #[trigger] child.entry_seq()[j].0 == k),
                forall|k: SlotKey|
                    #[trigger] start.dom().contains(k) ==> self.original_storage.view()[k] == start[k],
                forall|k: SlotKey|
                    !start.dom().contains(k) && #[trigger] self.original_storage.view().dom().contains(k)
                        ==> self.original_storage.view()[k] == child.view()[k],
                *self == (Evm { original_storage: self.original_storage, ..*old(self) }),
                start == old(self).original_storage.view(),
            decreases n - i,
        {
            let (key, value) = child.entry_at(i);
            if !self.original_storage.contains_key(key) {
                self.original_storage.insert(*key, *value);
            }
            proof {
                assert(child.entry_seq()[i as int].0 == *key);
                assert(child.view().dom().contains(child.entry_seq()[i as int].0));
                assert(child.view()[*key] == *value);
                assert forall|k: SlotKey|
                    #[trigger] self.original_storage.view().dom().contains(k) == (start.dom().contains(k)
                        || exists|j: int| 0 <= j < i + 1 && #[trigger] child.entry_seq()[j].0 == k) by {
                    if k == *key {
                        assert(child.entry_seq()[i as int].0 == k);
                    }
                    if exists|j: int| 0 <= j < i + 1 && #[trigger] child.entry_seq()[j].0 == k {
                        let j = choose|j: int| 0 <= j < i + 1 && #[trigger] child.entry_seq()[j].0 == k;
                        if j < i {
                            assert(exists|j: int| 0 <= j < i && #[trigger] child.entry_seq()[j].0 == k);
                        }
                    }
                }
            }
            i = i + 1;
        }
        proof {
            assert forall|k: SlotKey|
                #[trigger] self.original_storage.view().dom().contains(k) == (start.dom().contains(k)
                    || child.view().dom().contains(k)) by {
                if child.view().dom().contains(k) {
                    let j = choose|j: int| 0 <= j < child.entry_seq().len() && #[trigger] child.entry_seq()[j].0 == k;
                    assert(child.entry_seq()[j].0 == k);
                }
                if exists|j: int| 0 <= j < n && #[trigger] child.entry_seq()[j].0 == k {
                    let j = choose|j: int| 0 <= j < n && #[trigger] child.entry_seq()[j].0 == k;
                    assert(child.view().dom().contains(child.entry_seq()[j].0));
                }
            }
            assert forall|k: SlotKey|
                !start.dom().contains(k) && #[trigger] child.view().dom().contains(k)
                    implies self.original_storage.view()[k] == child.view()[k] by {
                assert(self.original_storage.view().dom().contains(k));
            }
        }
    }

    /// The trace of `post` holds that of `pre` and then a record of
    /// instruction `op` at `pre`'s position and depth, with the gas left
    /// after its static charge and `pre`'s stack.
    pub closed spec fn records_step(pre: Evm, post: Evm, op: u8) -> bool {
        let n = pre.trace_steps@.len();
        let step = post.trace_steps@[n as int];
        &&& post.trace_steps@.len() > n
        &&& post.trace_steps@.subrange(0, n as int) == pre.trace_steps@
        &&& step.depth == pre.context.depth
        &&& step.pc == pre.pc
        &&& step.opcode == op
        &&& step.gas_remaining == pre.gas_remaining - spec_static_gas_cost(op)
        &&& step.stack@ == pre.stack@
    }

    /// One step of the machine from frame `pre` to frame `post`: the
    /// instruction at the position is fetched, its static gas paid, and it
    /// runs with outcome `r`. When tracing, a record of it is added first
    /// (and, for calls and creates, the callee's records after it); when not,
    /// the trace stays as it was.
    pub closed spec fn machine_step(pre: Evm, post: Evm, r: Result<Option<ExitStatus>, ExitStatus>) -> bool
        decreases MAX_CALL_DEPTH - pre.spec_depth(), 3int, 0nat,
    {
        let op = pre.code@[pre.pc as int];
        let cost = spec_static_gas_cost(op);
        &&& pre.pc < pre.code@.len()
        &&& pre.gas_remaining >= cost
        &&& pre.trace ==> Self::records_step(pre, post, op) && (!is_frame_op(op)
            ==> post.trace_steps@.len() == pre.trace_steps@.len() + 1)
        &&& !pre.trace ==> post.trace_steps@ == pre.trace_steps@
        &&& Self::instr_step(
            op,
            pre.pc,
            Evm {
                pc: (pre.pc + 1) as usize,
                gas_remaining: (pre.gas_remaining - cost) as u64,
                trace_steps: post.trace_steps,
                ..pre
            },
            post,
            r,
        )
    }

    /// Each frame of `states` follows from the one before by a step that
    /// lets the frame go on, at the depth of the first.
    pub closed spec fn steps_ok(states: Seq<Evm>) -> bool
        decreases MAX_CALL_DEPTH - states[0].spec_depth(), 4int, states.len(),
    {
        if states.len() <= 1 {
            true
        } else {
            proof {
                assert(states.drop_last()[0] == states[0]);
            }
            &&& Self::steps_ok(states.drop_last())
            &&& states[states.len() - 2].context.depth == states[0].context.depth
            &&& Self::machine_step(states[states.len() - 2], states[states.len() - 1], Ok(None))
        }
    }

    /// Frame `x` with its gas gone.
    pub closed spec fn without_gas(x: Evm) -> Evm {
        Evm { gas_remaining: 0, ..x }
    }

    /// How a run whose last running frame is `last` ends in frame `end` with
    /// `status`: the code ran out; the static gas of the next instruction
    /// could not be paid, and all gas is gone; the next instruction stopped
    /// the frame; or it failed, and all gas is gone.
    pub closed spec fn ends_with(last: Evm, end: Evm, status: ExitStatus) -> bool
        decreases MAX_CALL_DEPTH - last.spec_depth(), 4int, 0nat,
    {
        ||| last.pc >= last.code@.len() && end == last && status == ExitStatus::Stop
        ||| last.pc < last.code@.len() && last.gas_remaining < spec_static_gas_cost(
            last.code@[last.pc as int],
        ) && end == (Evm { pc: (last.pc + 1) as usize, gas_remaining: 0, ..last }) && status
            == ExitStatus::OutOfGas
        ||| Self::machine_step(last, end, Ok(Some(status)))
        ||| exists|x: Evm|
            Self::machine_step(last, x, Err(status)) && end == #[trigger] Self::without_gas(x)
    }

    /// Running frame `start` ends in frame `end` with `status`: it goes
    /// through steps that each let it go on, and then stops as `ends_with`
    /// says.
    #[verifier::opaque]
    pub closed spec fn runs_to(start: Evm, end: Evm, status: ExitStatus) -> bool
        decreases MAX_CALL_DEPTH - start.spec_depth(), 5int, 0nat,
    {
        exists|states: Seq<Evm>|
            #![trigger states.last()]
            states.len() >= 1 && states[0] == start && states.last().context.depth
                == start.context.depth && Self::steps_ok(states) && Self::ends_with(
                states.last(),
                end,
                status,
            )
    }

    /// Runs the frame from its current position until it stops, and reports
    /// how it ended: its stack, its output, its gas and its logs. An
    /// exceptional halt uses up all the frame's gas; the outermost frame, when
    /// it succeeds, gets back its positive refund counter, capped at a fifth
    /// of the gas it used.
    pub fn run(&mut self) -> (result: ExecutionResult)
        requires
            old(self).inv(),
        ensures
            final(self).kept(old(self)),
            final(self).halted_ok(),
            final(self).refund_ok(),
            final(self).spec_gas_remaining() <= old(self).spec_gas_remaining(),
            result.stack@ == final(self).spec_stack(),
            result.stack@.len() <= STACK_LIMIT,
            result.return_data@ == final(self).spec_return_data(),
            same_logs(result.logs@, final(self).spec_logs()),
            is_exceptional(result.status) ==> final(self).spec_gas_remaining() == 0,
            result.gas_remaining == final(self).spec_gas_remaining() + (if old(self).spec_depth()
                == 0 && spec_is_success(result.status) {
                applied_refund(
                    final(self).spec_refund(),
                    final(self).spec_gas_limit() - final(self).spec_gas_remaining(),
                )
            } else {
                0
            }),
            result.gas_remaining <= final(self).spec_gas_limit(),
            result.gas_used == final(self).spec_gas_limit() - result.gas_remaining,
            Self::runs_to(*old(self), *final(self), result.status),
            old(self).spec_is_static() ==> final(self).spec_world().same(&old(self).spec_world()),
            logs_extend(old(self).spec_logs(), final(self).spec_logs()),
            !old(self).spec_trace() ==> final(self).spec_trace_steps() == old(self).spec_trace_steps(),
        decreases MAX_CALL_DEPTH - old(self).spec_depth(), 4int,
    {
        let mut status = ExitStatus::Stop;
        let ghost start = *self;
        let ghost mut states: Seq<Evm> = seq![*self];
        proof {
            WorldState::lemma_same_equivalence(self.world, self.world, self.world);
            assert(self.logs@.subrange(0, self.logs@.len() as int) =~= self.logs@);
        }
        while self.pc < self.code.len()
            invariant_except_break
                self.inv(),
                self.kept(old(self)),
                status == ExitStatus::Stop,
                self.gas_remaining <= old(self).gas_remaining,
                Self::steps_ok(states),
                states.len() >= 1,
                states[0] == start,
                states.last() == *self,
                start == *old(self),
                start.context.is_static ==> self.world.same(&start.world),
                logs_extend(start.logs@, self.logs@),
                !start.trace ==> self.trace_steps@ == start.trace_steps@,
            ensures
                self.kept(old(self)),
                self.halted_ok(),
                self.refund_ok(),
                self.gas_remaining <= old(self).gas_remaining,
                is_exceptional(status) ==> self.gas_remaining == 0,
                Self::steps_ok(states),
                states.len() >= 1,
                states[0] == start,
                states.last().context == start.context,
                Self::ends_with(states.last(), *self, status),
                start.context.is_static ==> self.world.same(&start.world),
                logs_extend(start.logs@, self.logs@),
                !start.trace ==> self.trace_steps@ == start.trace_steps@,
            decreases self.gas_remaining,
        {
            let ghost pre = *self;
            let pc_before = self.pc;
            let opcode = self.code[self.pc];
            self.pc = self.pc + 1;
            let cost = static_gas_cost(opcode);
            if self.gas_remaining < cost {
                status = ExitStatus::OutOfGas;
                self.gas_remaining = 0;
                break;
            }
            self.gas_remaining = self.gas_remaining - cost;
            if self.trace {
                let step = TraceStep {
                    depth: self.context.depth,
                    pc: pc_before,
                    opcode,
                    gas_remaining: self.gas_remaining,
                    stack: copy_words(self.stack.as_slice()),
                };
                self.trace_steps.push(step);
            }
            let ghost before_op = *self;
            let outcome = self.execute_opcode(opcode, pc_before);
            proof {
                let mid = Evm {
                    pc: (pre.pc + 1) as usize,
                    gas_remaining: (pre.gas_remaining - spec_static_gas_cost(opcode)) as u64,
                    trace_steps: self.trace_steps,
                    ..pre
                };
                assert(mid == Evm { trace_steps: self.trace_steps, ..before_op });
                assert(Self::instr_step(opcode, pc_before, mid, *self, outcome));
                if self.trace {
                    let n = pre.trace_steps@.len();
                    assert(before_op.trace_steps@.subrange(0, n as int) =~= pre.trace_steps@);
                    assert(self.trace_steps@.subrange(0, n as int) =~= pre.trace_steps@) by {
                        assert(self.trace_steps@.subrange(0, n + 1int) == before_op.trace_steps@);
                        assert(self.trace_steps@.subrange(0, n as int)
                            =~= self.trace_steps@.subrange(0, n + 1int).subrange(0, n as int));
                    }
                    assert(self.trace_steps@[n as int] == before_op.trace_steps@[n as int]);
                    assert(Self::records_step(pre, *self, opcode));
                }
                assert(Self::machine_step(pre, *self, outcome));
                WorldState::lemma_same_equivalence(self.world, pre.world, start.world);
                assert(self.logs@.subrange(0, start.logs@.len() as int) =~= start.logs@) by {
                    assert(self.logs@.subrange(0, pre.logs@.len() as int) == pre.logs@);
                    assert(pre.logs@.subrange(0, start.logs@.len() as int) == start.logs@);
                }
            }
            match outcome {
                Ok(Some(halt_status)) => {
                    status = halt_status;
                    break;
                },
                Ok(None) => {
                    proof {
                        let before = states;
                        states = states.push(*self);
                        assert(states.drop_last() =~= before);
                    }
                },
                Err(fault) => {
                    let ghost failed = *self;
                    status = fault;
                    self.gas_remaining = 0;
                    proof {
                        reveal_with_fuel(Evm::ends_with, 2);
                        assert(Self::machine_step(pre, failed, Err(fault)));
                        assert(*self == Evm { gas_remaining: 0, ..failed });
                        assert(*self == Self::without_gas(failed));
                        assert(Self::ends_with(pre, *self, status));
                    }
                    break;
                },
            }
        }
        proof {
            reveal_with_fuel(Evm::runs_to, 2);
            assert(states.len() >= 1 && states[0] == *old(self));
            assert(states.last().context.depth == old(self).context.depth);
            assert(Self::steps_ok(states));
            assert(Self::ends_with(states.last(), *self, status));
            assert(states.len() >= 1 && states[0] == *old(self) && states.last().context.depth
                == old(self).context.depth && Self::steps_ok(states) && Self::ends_with(
                states.last(),
                *self,
                status,
            ));
        }
        let mut gas_remaining = self.gas_remaining;
        if self.context.depth == 0 && is_success_status(&status) {
            let gas_used = self.gas_limit - gas_remaining;
            let refund_cap = gas_used / MAX_REFUND_QUOTIENT;
            let applied: u64 = if self.gas_refund <= 0 {
                0
            } else if self.gas_refund < refund_cap as i128 {
                self.gas_refund as u64
            } else {
                refund_cap
            };
            gas_remaining = gas_remaining + applied;
        }
        ExecutionResult {
            status,
            stack: copy_words(self.stack.as_slice()),
            return_data: copy_bytes(&self.return_data),
            gas_used: self.gas_limit - gas_remaining,
            gas_remaining,
            logs: copy_logs(&self.logs),
        }
    }

    /// The charge for growing memory to cover two ranges.
    fn memory_expansion_cost_two(
        &self,
        first_offset: usize,
        first_size: usize,
        second_offset: usize,
        second_size: usize,
    ) -> (r: u64)
        ensures
            r == spec_expansion_cost(
                self.memory@.len(),
                seq![(first_offset, first_size), (second_offset, second_size)],
            ),
    {
        let ranges = [(first_offset, first_size), (second_offset, second_size)];
        assert(ranges@ =~= seq![(first_offset, first_size), (second_offset, second_size)]);
        self.memory_expansion_cost_many(&ranges)
    }
}

/// The positions of `JUMPDEST` instructions from position `p` on, skipping
/// the immediate bytes of pushes.
pub open spec fn jumpdests_from(code: Seq<u8>, p: nat) -> Set<nat>
    decreases code.len() + 33 - p,
{
    if p >= code.len() {
        Set::empty()
    } else {
        let op = code[p as int];
        let next = if spec_is_push(op) {
            p + 1 + (op - 0x5f) as nat
        } else {
            p + 1
        };
        let rest = jumpdests_from(code, next);
        if op == 0x5b {
            rest.insert(p)
        } else {
            rest
        }
    }
}

/// Every position found from `p` on lies in `p..code.len()`.
proof fn lemma_jumpdests_range(code: Seq<u8>, p: nat)
    ensures
        forall|q: nat| #[trigger] jumpdests_from(code, p).contains(q) ==> p <= q < code.len(),
    decreases code.len() + 33 - p,
{
    if p < code.len() {
        let op = code[p as int];
        let next = if spec_is_push(op) {
            p + 1 + (op - 0x5f) as nat
        } else {
            p + 1
        };
        lemma_jumpdests_range(code, next);
        let rest = jumpdests_from(code, next);
        assert(jumpdests_from(code, p) == (if op == 0x5b {
            rest.insert(p)
        } else {
            rest
        }));
    }
}

/// The positions that jumps may target: every `JUMPDEST` that is an
/// instruction rather than push data.
pub fn collect_jumpdests(code: &[u8]) -> (r: HashSet<usize>)
    ensures
        forall|p: usize| #[trigger] r@.contains(p) <==> jumpdests_from(code@, 0).contains(p as nat),
{
    let mut destinations: HashSet<usize> = HashSet::new();
    let mut pc: usize = 0;
    let ghost mut acc: Set<nat> = Set::empty();
    while pc < code.len()
        invariant
            forall|p: usize| #[trigger] destinations@.contains(p) <==> acc.contains(p as nat),
            forall|q: nat| #[trigger] acc.contains(q) ==> q < pc,
            jumpdests_from(code@, 0) == acc.union(jumpdests_from(code@, pc as nat)),
        decreases code@.len() + 33 - pc,
    {
        let opcode = code[pc];
        let ghost old_acc = acc;
        if opcode == 0x5b {
            destinations.insert(pc);
            proof {
                acc = acc.insert(pc as nat);
            }
        }
        let ghost next_spec: nat = if spec_is_push(opcode) {
            (pc + 1 + (opcode - 0x5f)) as nat
        } else {
            (pc + 1) as nat
        };
        if is_push(opcode) {
            pc = pc.saturating_add(1 + push_size(opcode));
        } else {
            pc = pc.saturating_add(1);
        }
        proof {
            lemma_jumpdests_range(code@, next_spec);
            lemma_jumpdests_range(code@, pc as nat);
            if pc as nat != next_spec {
                assert(jumpdests_from(code@, pc as nat) =~= Set::empty());
                assert(jumpdests_from(code@, next_spec) =~= Set::empty());
            }
            assert(jumpdests_from(code@, 0) =~= acc.union(jumpdests_from(code@, pc as nat)));
        }
    }
    proof {
        assert(jumpdests_from(code@, pc as nat) =~= Set::empty());
    }
    destinations
}

/// `size` bytes of `source` from `offset`, zero past its end.
pub open spec fn padded(source: Seq<u8>, offset: nat, size: nat) -> Seq<u8> {
    Seq::new(size, |i: int| if offset + i < source.len() { source[offset + i] } else { 0u8 })
}

/// `size` bytes of `source` from `offset`, zero past its end.
pub fn read_padded(source: &[u8], offset: usize, size: usize) -> (r: Vec<u8>)
    ensures
        r@ == padded(source@, offset as nat, size as nat),
{
    let mut out: Vec<u8> = Vec::new();
    if size == 0 {
        assert(out@ =~= padded(source@, offset as nat, size as nat));
        return out;
    }
    let mut i: usize = 0;
    while i < size
        invariant
            i <= size,
            out@.len() == i,
            forall|j: int| 0 <= j < i ==> #[trigger] out@[j] == 0u8,
        decreases size - i,
    {
        out.push(0u8);
        i = i + 1;
    }
    if offset >= source.len() {
        assert(out@ =~= padded(source@, offset as nat, size as nat));
        return out;
    }
    let n = source.len();
    let available = n - offset;
    let to_copy = if available < size {
        available
    } else {
        size
    };
    let mut k: usize = 0;
    while k < to_copy
        invariant
            k <= to_copy,
            to_copy <= size,
            to_copy == (if source@.len() - offset < size {
                source@.len() - offset
            } else {
                size as int
            }),
            offset < source@.len(),
            offset + to_copy <= n,
            n == source@.len(),
            out@.len() == size,
            forall|j: int|
                0 <= j < size ==> #[trigger] out@[j] == (if j < k {
                    source@[offset + j]
                } else {
                    0u8
                }),
        decreases to_copy - k,
    {
        out.set(k, source[offset + k]);
        k = k + 1;
    }
    assert(out@ =~= padded(source@, offset as nat, size as nat));
    out
}

/// The gas an `SSTORE` costs before any cold-slot surcharge, given the slot's
/// value at the start of the transaction, now, and the value stored.
pub open spec fn sstore_base_cost(original: U256, current: U256, new_value: U256) -> u64 {
    if new_value == current {
        SLOAD_GAS
    } else if original == current {
        if original@ == 0 {
            SSTORE_SET_GAS
        } else {
            SSTORE_RESET_GAS
        }
    } else {
        SLOAD_GAS
    }
}

/// How an `SSTORE` moves the refund counter.
pub open spec fn sstore_refund_delta(original: U256, current: U256, new_value: U256) -> int {
    if new_value == current {
        0
    } else if original == current {
        if original@ != 0 && new_value@ == 0 {
            SSTORE_CLEARS_SCHEDULE as int
        } else {
            0
        }
    } else {
        (if original@ != 0 {
            (if current@ == 0 {
                -(SSTORE_CLEARS_SCHEDULE as int)
            } else {
                0
            }) + (if new_value@ == 0 {
                SSTORE_CLEARS_SCHEDULE as int
            } else {
                0
            })
        } else {
            0
        }) + (if new_value == original {
            if original@ == 0 {
                (SSTORE_SET_GAS - SLOAD_GAS) as int
            } else {
                (SSTORE_RESET_GAS - SLOAD_GAS) as int
            }
        } else {
            0
        })
    }
}

/// Sets every balance that `balances` lists.
fn apply_balances(world: &mut WorldState, balances: &AssocMap<U256, U256>)
    requires
        old(world).wf(),
        balances.wf(),
    ensures
        final(world).wf(),
        forall|a: U256|
            #[trigger] final(world).balance(a) == (if balances.view().dom().contains(a) {
                balances.view()[a]
            } else {
                old(world).balance(a)
            }),
        forall|a: U256|
            #![trigger final(world).nonce(a)]
            final(world).nonce(a) == old(world).nonce(a) && final(world).code(a) == old(
                world,
            ).code(a) && final(world).storage(a) == old(world).storage(a) && final(world).created(a)
                == old(world).created(a),
{
    let n = balances.len();
    let ghost start = *world;
    proof {
        balances.lemma_entries();
    }
    let mut i: usize = 0;
    while i < n
        invariant
            n == balances.entry_seq().len(),
            balances.wf(),
            world.wf(),
            i <= n,
            forall|k: int|
                0 <= k < n ==> #[trigger] balances.view().dom().contains(balances.entry_seq()[k].0)
                    && balances.view()[balances.entry_seq()[k].0] == balances.entry_seq()[k].1,
            forall|a: U256|
                #[trigger] world.balance(a) == (if exists|k: int|
                    0 <= k < i && #[trigger] balances.entry_seq()[k].0 == a {
                    balances.view()[a]
                } else {
                    start.balance(a)
                }),
            forall|a: U256|
                #![trigger world.nonce(a)]
                world.nonce(a) == start.nonce(a) && world.code(a) == start.code(a)
                    && world.storage(a) == start.storage(a) && world.created(a) == start.created(a),
        decreases n - i,
    {
        let (address, balance) = balances.entry_at(i);
        let ghost before = *world;
        world.set_balance(*address, *balance);
        proof {
            assert forall|a: U256| #[trigger] world.balance(a) == (if exists|k: int|
                0 <= k < i + 1 && #[trigger] balances.entry_seq()[k].0 == a {
                balances.view()[a]
            } else {
                start.balance(a)
            }) by {
                if a == *address {
                    assert(balances.entry_seq()[i as int].0 == a);
                    assert(balances.view().dom().contains(balances.entry_seq()[i as int].0));
                } else {
                    assert(world.same_at(&before, a));
                    if exists|k: int| 0 <= k < i + 1 && #[trigger] balances.entry_seq()[k].0 == a {
                        let k = choose|k: int|
                            0 <= k < i + 1 && #[trigger] balances.entry_seq()[k].0 == a;
                        assert(k != i);
                        assert(exists|k: int| 0 <= k < i && #[trigger] balances.entry_seq()[k].0 == a);
                    }
                }
            }
            assert forall|a: U256|
                #![trigger world.nonce(a)]
                world.nonce(a) == start.nonce(a) && world.code(a) == start.code(a)
                    && world.storage(a) == start.storage(a) && world.created(a) == start.created(
                    a,
                ) by {
                if a != *address {
                    assert(world.same_at(&before, a));
                }
            }
        }
        i = i + 1;
    }
    proof {
        balances.lemma_entries();
        assert forall|a: U256| #[trigger] world.balance(a) == (if balances.view().dom().contains(a) {
            balances.view()[a]
        } else {
            start.balance(a)
        }) by {
            if balances.view().dom().contains(a) {
                let k = choose|k: int|
                    0 <= k < balances.entry_seq().len() && #[trigger] balances.entry_seq()[k].0 == a;
                assert(balances.entry_seq()[k].0 == a);
            } else {
                if exists|k: int| 0 <= k < n && #[trigger] balances.entry_seq()[k].0 == a {
                    let k = choose|k: int| 0 <= k < n && #[trigger] balances.entry_seq()[k].0 == a;
                    assert(balances.view().dom().contains(balances.entry_seq()[k].0));
                }
            }
        }
        assert forall|a: U256|
            #![trigger world.nonce(a)]
            world.nonce(a) == start.nonce(a) && world.code(a) == start.code(a)
                && world.storage(a) == start.storage(a) && world.created(a) == start.created(a) by {
        }
    }
}

/// Whether `op` is an arithmetic, comparison or bitwise opcode.
pub open spec fn is_word_op(op: u8) -> bool {
    (0x01 <= op <= 0x0b) || (0x10 <= op <= 0x1d)
}

/// How many words such an opcode takes from the stack.
pub open spec fn word_op_arity(op: u8) -> nat {
    if op == 0x08 || op == 0x09 {
        3
    } else if op == 0x15 || op == 0x19 {
        1
    } else {
        2
    }
}

/// The word of three limb-wise results.
pub open spec fn limbwise(l0: u64, l1: u64, l2: u64, l3: u64) -> nat {
    U256 { l0, l1, l2, l3 }@
}

/// 1 for true, 0 for false.
pub open spec fn flag(b: bool) -> nat {
    if b {
        1
    } else {
        0
    }
}

/// The value an arithmetic, comparison or bitwise opcode pushes, given the
/// top three stack words `a` (the top), `b` and `c`.
pub open spec fn word_op_value(op: u8, a: U256, b: U256, c: U256) -> nat {
    let m = word_modulus();
    if op == 0x01 {
        wrap((b@ + a@) as int)
    } else if op == 0x02 {
        wrap((b@ * a@) as int)
    } else if op == 0x03 {
        wrap(b@ - a@)
    } else if op == 0x04 {
        if a@ == 0 {
            0
        } else {
            b@ / a@
        }
    } else if op == 0x05 {
        spec_sdiv(b@, a@)
    } else if op == 0x06 {
        if a@ == 0 {
            0
        } else {
            b@ % a@
        }
    } else if op == 0x07 {
        spec_smod(b@, a@)
    } else if op == 0x08 {
        if c@ == 0 {
            0
        } else {
            (a@ + b@) % c@
        }
    } else if op == 0x09 {
        if c@ == 0 {
            0
        } else {
            (a@ * b@) % c@
        }
    } else if op == 0x0a {
        (pow(b@ as int, a@) % (m as int)) as nat
    } else if op == 0x0b {
        if a@ >= 31 {
            b@
        } else {
            wrap(sign_extended(b@, (8 * a@ + 8) as nat))
        }
    } else if op == 0x10 {
        flag(b@ < a@)
    } else if op == 0x11 {
        flag(b@ > a@)
    } else if op == 0x12 {
        flag(signed_value(b@) < signed_value(a@))
    } else if op == 0x13 {
        flag(signed_value(b@) > signed_value(a@))
    } else if op == 0x14 {
        flag(a@ == b@)
    } else if op == 0x15 {
        flag(a@ == 0)
    } else if op == 0x16 {
        limbwise(b.l0 & a.l0, b.l1 & a.l1, b.l2 & a.l2, b.l3 & a.l3)
    } else if op == 0x17 {
        limbwise(b.l0 | a.l0, b.l1 | a.l1, b.l2 | a.l2, b.l3 | a.l3)
    } else if op == 0x18 {
        limbwise(b.l0 ^ a.l0, b.l1 ^ a.l1, b.l2 ^ a.l2, b.l3 ^ a.l3)
    } else if op == 0x19 {
        (m - 1 - a@) as nat
    } else if op == 0x1a {
        if a@ >= 32 {
            0
        } else {
            (b@ / pow2((8 * (31 - a@)) as nat)) % 256
        }
    } else if op == 0x1b {
        if a@ >= 256 {
            0
        } else {
            wrap((b@ * pow2(a@)) as int)
        }
    } else if op == 0x1c {
        if a@ >= 256 {
            0
        } else {
            b@ / pow2(a@)
        }
    } else {
        wrap(signed_value(b@) / (pow2(usize_of(a) as nat) as int))
    }
}

/// The stack after a word opcode took its operands and pushed its value.
pub open spec fn word_op_done(op: u8, before: Seq<U256>, after: Seq<U256>) -> bool {
    let n = before.len();
    let k = word_op_arity(op);
    &&& after.len() == n - k + 1
    &&& after.subrange(0, n - k) == before.subrange(0, n - k)
    &&& after.last()@ == word_op_value(op, before[n - 1], before[n - 2], before[n - 3])
}

/// The number of bytes a value needs: the least `r` with `x < 2^(8r)`.
pub open spec fn byte_len(x: nat) -> nat {
    choose|r: nat| #[trigger] needs_bytes(x, r)
}

/// `x` needs exactly `r <= 32` bytes.
pub open spec fn needs_bytes(x: nat, r: nat) -> bool {
    r <= 32 && x < pow2(8 * r) && (r > 0 ==> x >= pow2((8 * (r - 1)) as nat))
}

/// At most one count of bytes fits a value.
proof fn lemma_byte_len_unique(x: nat, r: nat)
    requires
        r <= 32,
        x < pow2(8 * r),
        r > 0 ==> x >= pow2((8 * (r - 1)) as nat),
    ensures
        byte_len(x) == r,
{
    assert(needs_bytes(x, r));
    let q = byte_len(x);
    assert(needs_bytes(x, q));
    if q < r {
        if 8 * q < 8 * (r - 1) {
            vstd::arithmetic::power2::lemma_pow2_strictly_increases(8 * q, (8 * (r - 1)) as nat);
        }
    } else if r < q {
        if 8 * r < 8 * (q - 1) {
            vstd::arithmetic::power2::lemma_pow2_strictly_increases(8 * r, (8 * (q - 1)) as nat);
        }
    }
}

/// A word as an offset or size: its value, capped at `usize::MAX`.
pub open spec fn usize_of(x: U256) -> usize {
    if x@ > usize::MAX {
        usize::MAX
    } else {
        x@ as usize
    }
}

} // verus!
