//! Calls into other accounts' code and the creation of contracts, each run
//! in a frame of its own.
use super::{
    is_success_status, spec_is_success, same_log, same_logs, lemma_range_paid, logs_extend,
    trace_extends, jumpdests_from, mem_cost_of_len, refund_per_gas, spec_expansion_cost, CallKind, Evm,
    ExitStatus, FrameContext, MAX_CALL_DEPTH,
};
use super::mem_ops::{after_read, after_write, read_bytes};
use super::usize_of;
use crate::address::{create2_address, create_address, spec_create2_address, spec_create_address};
use crate::arith::{abs, bool_to_u256, lt, u256_to_u64};
use crate::gas::{
    lemma_memory_cost_monotonic, lemma_words_monotonic, max_call_gas, saturating_mul,
    spec_words_for_size, words_for_size, G_CALLSTIPEND, G_CALLVALUE, G_CREATE_CODE_DEPOSIT,
    G_INITCODE_WORD, G_NEWACCOUNT, G_SHA3WORD, MAX_INITCODE_SIZE, WARM_STORAGE_READ_COST,
    COLD_ACCOUNT_ACCESS_COST, sat,
};
use crate::word::{wrap, U256};
use crate::world::WorldState;
use vstd::prelude::*;

verus! {

/// Longer memory never costs less.
proof fn lemma_mem_cost_len_monotonic(a: nat, b: nat)
    requires
        a <= b,
    ensures
        mem_cost_of_len(a) <= mem_cost_of_len(b),
{
    lemma_words_monotonic(a, b);
    lemma_memory_cost_monotonic(spec_words_for_size(a), spec_words_for_size(b));
}

impl Evm {
    /// The callee's first frame `start`: `code` runs on `input` in `context`
    /// with all of `gas`, from an empty stack, memory, log and output, with
    /// the jump destinations of `code` and the environment of `pre`, against the
    /// accounts of frame `pre`, or, if value `moved`, those accounts with the
    /// context's value moved from this account to the called one; with the
    /// accounts in `warm` and the storage slots of `pre` counting as
    /// accessed.
    pub(super) open spec fn callee_start(
        pre: Evm,
        start: Evm,
        code: Seq<u8>,
        input: Seq<u8>,
        context: FrameContext,
        gas: u64,
        moved: bool,
        warm: Set<U256>,
    ) -> bool {
        &&& start.code@ == code
        &&& start.calldata@ == input
        &&& start.context == context
        &&& start.gas_limit == gas
        &&& start.gas_remaining == gas
        &&& start.pc == 0
        &&& start.stack@.len() == 0
        &&& start.memory@.len() == 0
        &&& start.logs@.len() == 0
        &&& start.return_data@.len() == 0
        &&& start.last_return_data@.len() == 0
        &&& start.env.same(&pre.env)
        &&& forall|p: usize| #[trigger]
            start.jumpdests@.contains(p) <==> jumpdests_from(code, 0).contains(p as nat)
        &&& !moved ==> start.world.same(&pre.world)
        &&& moved ==> if pre.context.address == context.address {
            start.world.same(&pre.world)
        } else {
            start.world.moved(&pre.world, pre.context.address, context.address, context.callvalue)
        }
        &&& start.accessed_addresses.view().dom() == warm
        &&& start.accessed_storage_keys.view() == pre.accessed_storage_keys.view()
    }

    /// What a call from frame `pre` leaves in frame `post` once its callee
    /// went from frame `start` to frame `end` with `status`: if the callee
    /// succeeded, 1 on the stack and the callee's accounts, refund counter,
    /// logs and access lists kept; if not, 0 on the stack, those as they were
    /// in `pre` and the access lists as the callee got them; and the callee's
    /// output as the last return data if it returned or reverted, else none.
    pub(super) open spec fn call_outcome(
        pre: Evm,
        post: Evm,
        start: Evm,
        end: Evm,
        status: ExitStatus,
    ) -> bool {
        &&& post.stack@.last()@ == (if spec_is_success(status) {
            1nat
        } else {
            0nat
        })
        &&& spec_is_success(status) ==> post.world == end.world && post.gas_refund
            == end.gas_refund && same_logs(post.logs@, pre.logs@ + end.logs@)
        &&& !spec_is_success(status) ==> post.world.same(&pre.world) && post.gas_refund
            == pre.gas_refund && post.logs@ == pre.logs@
        &&& spec_is_success(status) ==> post.accessed_addresses.view()
            == end.accessed_addresses.view() && post.accessed_storage_keys.view()
            == end.accessed_storage_keys.view()
        &&& !spec_is_success(status) ==> post.accessed_addresses.view()
            == start.accessed_addresses.view() && post.accessed_storage_keys.view()
            == start.accessed_storage_keys.view()
        &&& post.original_storage.view() == end.original_storage.view().union_prefer_right(
            pre.original_storage.view(),
        )
        &&& post.last_return_data@ == (if status == ExitStatus::Return || status
            == ExitStatus::Revert {
            end.return_data@
        } else {
            Seq::<u8>::empty()
        })
    }

    /// A call from frame `pre` to frame `post` whose callee never ran: 0 on
    /// the stack, no return data, and the accounts, refund counter, logs and
    /// memory as they were.
    pub(super) open spec fn call_skipped(pre: Evm, post: Evm) -> bool {
        &&& post.stack@.last()@ == 0
        &&& post.world.same(&pre.world)
        &&& post.gas_refund == pre.gas_refund
        &&& post.logs@ == pre.logs@
        &&& post.last_return_data@.len() == 0
        &&& post.memory@ == pre.memory@
        &&& post.original_storage.view() == pre.original_storage.view()
    }

    /// A call from frame `pre` to frame `post` whose callee ran from `start`
    /// to `end` with `status`, as `callee_start` and `call_outcome` say; of
    /// `gas_before`, the caller lost what it handed the callee but the
    /// `stipend` and got back what the callee did not use; its memory is
    /// `mem` with the start of the returned data written over the output
    /// range, as far as both reach.
    pub(super) open spec fn call_ran(
        pre: Evm,
        post: Evm,
        start: Evm,
        end: Evm,
        status: ExitStatus,
        code: Seq<u8>,
        input: Seq<u8>,
        context: FrameContext,
        gas: u64,
        moved: bool,
        warm: Set<U256>,
        gas_before: int,
        stipend: int,
        mem: Seq<u8>,
        out_offset: usize,
        out_size: usize,
    ) -> bool {
        let copied = post.last_return_data@.subrange(
            0,
            if out_size < post.last_return_data@.len() {
                out_size as int
            } else {
                post.last_return_data@.len() as int
            },
        );
        &&& Self::callee_start(pre, start, code, input, context, gas, moved, warm)
        &&& Self::call_outcome(pre, post, start, end, status)
        &&& post.gas_remaining + start.gas_limit == gas_before + stipend + end.gas_remaining
        &&& post.memory@ == after_write(mem, out_offset, copied)
    }

    /// The gas a call of `kind` from frame `pre` charges before its callee
    /// runs: the access to the called account (warm or cold), the memory both
    /// ranges need, a value transfer, and, for `CALL` with value to an empty
    /// account, the new account.
    #[verifier::opaque]
    pub(super) open spec fn call_charge(pre: Evm, kind: CallKind) -> int {
        let n = pre.stack@.len();
        let with_value = kind == CallKind::Call || kind == CallKind::CallCode;
        let k: int = if with_value {
            7
        } else {
            6
        };
        let to = pre.stack@[n - 2];
        let value = pre.stack@[n - 3];
        let ranges = seq![
            (usize_of(pre.stack@[n - k + 3]), usize_of(pre.stack@[n - k + 2])),
            (usize_of(pre.stack@[n - k + 1]), usize_of(pre.stack@[n - k])),
        ];
        let access: int = if pre.accessed_addresses.view().dom().contains(to) {
            WARM_STORAGE_READ_COST as int
        } else {
            COLD_ACCOUNT_ACCESS_COST as int
        };
        let transfer: int = if with_value && value@ != 0 {
            G_CALLVALUE as int
        } else {
            0
        };
        let w = pre.world;
        let empty = w.nonce(to) == 0 && w.balance(to)@ == 0 && w.code(to).len() == 0 && w.storage(
            to,
        ) == Map::<U256, U256>::empty();
        let new_account: int = if kind == CallKind::Call && value@ != 0 && empty {
            G_NEWACCOUNT as int
        } else {
            0
        };
        access + spec_expansion_cost(pre.memory@.len(), ranges) + transfer + new_account
    }

    /// Whether a call of `kind` sends a value operand.
    pub(super) open spec fn with_value(kind: CallKind) -> bool {
        kind == CallKind::Call || kind == CallKind::CallCode
    }

    /// The stipend a call of `kind` from frame `pre` adds to the gas it
    /// hands its callee, free of charge to the caller: 2300 when value moves.
    pub(super) open spec fn call_stipend(pre: Evm, kind: CallKind) -> int {
        let n = pre.stack@.len();
        if (kind == CallKind::Call || kind == CallKind::CallCode) && pre.stack@[n - 3]@ != 0 {
            G_CALLSTIPEND as int
        } else {
            0
        }
    }

    /// The gas a call of `kind` from frame `pre` hands its callee: what it
    /// asks for, but no more than all but a 64th of what is left after
    /// `call_charge`, plus the stipend when value moves.
    #[verifier::opaque]
    pub(super) open spec fn call_gas(pre: Evm, kind: CallKind) -> int {
        let n = pre.stack@.len();
        let with_value = kind == CallKind::Call || kind == CallKind::CallCode;
        let requested: int = if pre.stack@[n - 1]@ > u64::MAX {
            u64::MAX as int
        } else {
            pre.stack@[n - 1]@ as int
        };
        let left = pre.gas_remaining - Self::call_charge(pre, kind);
        let cap = left - left / 64;
        (if requested < cap {
            requested
        } else {
            cap
        }) + Self::call_stipend(pre, kind)
    }

    /// `call_charge` and `call_gas` do not look at the trace.
    proof fn lemma_call_gas_ignores_trace(a: Evm, b: Evm, kind: CallKind)
        requires
            a == (Evm { trace_steps: a.trace_steps, ..b }),
        ensures
            Self::call_charge(a, kind) == Self::call_charge(b, kind),
            Self::call_gas(a, kind) == Self::call_gas(b, kind),
    {
        reveal(Evm::call_charge);
        reveal(Evm::call_gas);
    }

    /// What `call_charge` adds up to, given its three parts, for the
    /// operands `to`, `value` and the two ranges of a call of `kind`.
    proof fn lemma_call_charge_parts(
        pre: Evm,
        kind: CallKind,
        to: U256,
        value: U256,
        ranges: Seq<(usize, usize)>,
        access: int,
        memory: int,
        extra: int,
    )
        requires
            pre.stack@.len() >= (if kind == CallKind::Call || kind == CallKind::CallCode {
                7int
            } else {
                6int
            }),
            to == pre.stack@[pre.stack@.len() - 2],
            kind == CallKind::Call || kind == CallKind::CallCode ==> value == pre.stack@[pre.stack@.len() - 3],
            ranges == (if kind == CallKind::Call || kind == CallKind::CallCode {
                seq![
                    (usize_of(pre.stack@[pre.stack@.len() - 4]), usize_of(pre.stack@[pre.stack@.len() - 5])),
                    (usize_of(pre.stack@[pre.stack@.len() - 6]), usize_of(pre.stack@[pre.stack@.len() - 7])),
                ]
            } else {
                seq![
                    (usize_of(pre.stack@[pre.stack@.len() - 3]), usize_of(pre.stack@[pre.stack@.len() - 4])),
                    (usize_of(pre.stack@[pre.stack@.len() - 5]), usize_of(pre.stack@[pre.stack@.len() - 6])),
                ]
            }),
            access == (if pre.accessed_addresses.view().dom().contains(to) {
                WARM_STORAGE_READ_COST as int
            } else {
                COLD_ACCOUNT_ACCESS_COST as int
            }),
            memory == spec_expansion_cost(pre.memory@.len(), ranges),
            extra == (if (kind == CallKind::Call || kind == CallKind::CallCode) && value@ != 0 {
                G_CALLVALUE as int
            } else {
                0
            }) + (if kind == CallKind::Call && value@ != 0 && !(pre.world.nonce(to) != 0
                || pre.world.balance(to)@ != 0 || pre.world.code(to).len() != 0 || pre.world.storage(
                to,
            ) != Map::<U256, U256>::empty()) {
                G_NEWACCOUNT as int
            } else {
                0
            }),
        ensures
            Self::call_charge(pre, kind) == access + memory + extra,
    {
        reveal(Evm::call_charge);
        let n = pre.stack@.len();
        let k: int = if kind == CallKind::Call || kind == CallKind::CallCode {
            7
        } else {
            6
        };
        assert(ranges =~= seq![
            (usize_of(pre.stack@[n - k + 3]), usize_of(pre.stack@[n - k + 2])),
            (usize_of(pre.stack@[n - k + 1]), usize_of(pre.stack@[n - k])),
        ]);
    }

    /// Whether a callee started in `context` with `gas` fits a call of
    /// `kind` from frame `pre`: it runs one level deeper, as the called
    /// account (or, for `CALLCODE` and `DELEGATECALL`, as this one), for this
    /// account (or, for `DELEGATECALL`, for this frame's caller), with the
    /// value sent (or this frame's, or none for `STATICCALL`), static if this
    /// frame is or the call is `STATICCALL`; and with the gas `call_gas`
    /// says.
    pub(super) open spec fn callee_fits(
        pre: Evm,
        kind: CallKind,
        context: FrameContext,
        gas: u64,
    ) -> bool {
        let n = pre.stack@.len();
        let to = pre.stack@[n - 2];
        let value = pre.stack@[n - 3];
        &&& context.address == (if kind == CallKind::Call || kind == CallKind::StaticCall {
            to
        } else {
            pre.context.address
        })
        &&& context.caller == (if kind == CallKind::DelegateCall {
            pre.context.caller
        } else {
            pre.context.address
        })
        &&& context.callvalue@ == (if kind == CallKind::DelegateCall {
            pre.context.callvalue@
        } else if kind == CallKind::StaticCall {
            0
        } else {
            value@
        })
        &&& context.is_static == (kind == CallKind::StaticCall || pre.context.is_static)
        &&& context.depth == pre.context.depth + 1
        &&& gas == Self::call_gas(pre, kind)
    }

    /// A call of `kind` from frame `pre` to frame `post` ran its callee: the
    /// callee started as `callee_start` and `callee_fits` say, with the code
    /// of the called account and the input range of memory, ran to some end,
    /// and the call left what `call_outcome` says.
    #[verifier::opaque]
    pub(super) open spec fn callee_ran(pre: Evm, post: Evm, kind: CallKind) -> bool
        decreases MAX_CALL_DEPTH - pre.spec_depth(), 0int, 0nat,
    {
        let n = pre.stack@.len();
        let k: int = if kind == CallKind::Call || kind == CallKind::CallCode {
            7
        } else {
            6
        };
        let to = pre.stack@[n - 2];
        let moved = kind == CallKind::Call && pre.stack@[n - 3]@ != 0;
        let input = read_bytes(
            pre.memory@,
            usize_of(pre.stack@[n - k + 3]),
            usize_of(pre.stack@[n - k + 2]),
        );
        &&& pre.context.depth + 1 < MAX_CALL_DEPTH
        &&& exists|start: Evm, end: Evm, status: ExitStatus|
            #![trigger Self::callee_fits(pre, kind, start.context, start.gas_limit), Self::call_outcome(pre, post, start, end, status)]
            Self::call_ran(
                pre,
                post,
                start,
                end,
                status,
                pre.world.code(to),
                input,
                start.context,
                start.gas_limit,
                moved,
                pre.accessed_addresses.view().dom().insert(to),
                pre.gas_remaining - Self::call_charge(pre, kind),
                Self::call_stipend(pre, kind),
                after_read(pre.memory@, usize_of(pre.stack@[n - k + 3]), usize_of(pre.stack@[n - k + 2])),
                usize_of(pre.stack@[n - k + 1]),
                usize_of(pre.stack@[n - k]),
            ) && Self::callee_fits(pre, kind, start.context, start.gas_limit)
                && start.context.depth == pre.context.depth + 1 && Self::runs_to(
                start,
                end,
                status,
            )
    }

    /// What a call of `kind` does to the frame, from `pre` to `post` with
    /// outcome `r`: too few operands fail; gas that cannot pay `call_charge`
    /// runs out; a `CALL` with value from a static frame that is not too deep
    /// is refused; every other call succeeds. Then the operands give way to
    /// 1 or 0: too deep, or sending more value than the account holds, the
    /// callee never runs, `call_charge` is paid and nothing else changes
    /// (`call_skipped`); otherwise the callee runs as `callee_ran` says. After
    /// `STATICCALL` the accounts are as they were in any case; the output
    /// range of memory starts with the returned data, as far as both reach.
    pub(super) open spec fn call_step(
        pre: Evm,
        post: Evm,
        kind: CallKind,
        r: Result<(), ExitStatus>,
    ) -> bool
        decreases MAX_CALL_DEPTH - pre.spec_depth(), 1int, 0nat,
    {
        let n = pre.stack@.len();
        let k: int = if kind == CallKind::Call || kind == CallKind::CallCode {
            7
        } else {
            6
        };
        let out_offset = usize_of(pre.stack@[n - k + 1]);
        let out_size = usize_of(pre.stack@[n - k]);
        let value = pre.stack@[n - 3];
        let charged = n >= k && pre.gas_remaining >= Self::call_charge(pre, kind);
        let deep = pre.context.depth + 1 >= MAX_CALL_DEPTH;
        let refused = kind == CallKind::Call && pre.context.is_static && value@ != 0;
        let poor = (kind == CallKind::Call || kind == CallKind::CallCode) && value@ != 0
            && pre.world.balance(pre.context.address)@ < value@;
        &&& n < k ==> r == Err::<(), ExitStatus>(ExitStatus::StackUnderflow)
        &&& n >= k && !charged ==> r == Err::<(), ExitStatus>(ExitStatus::OutOfGas)
        &&& charged && !deep && refused ==> r == Err::<(), ExitStatus>(
            ExitStatus::StaticModeViolation,
        )
        &&& charged && (deep || !refused) ==> r is Ok
        &&& r is Ok ==> {
            &&& n >= k
            &&& post.stack@.len() == n - k + 1
            &&& post.stack@.subrange(0, n - k) =~= pre.stack@.subrange(0, n - k)
            &&& kind == CallKind::StaticCall ==> post.world.same(&pre.world)
            &&& forall|i: int|
                0 <= i < out_size && i < post.last_return_data@.len()
                    ==> post.memory@[out_offset + i] == #[trigger] post.last_return_data@[i]
            &&& deep || poor ==> Self::call_skipped(pre, post) && post.gas_remaining
                == pre.gas_remaining - Self::call_charge(pre, kind)
                && post.accessed_addresses.view().dom() == pre.accessed_addresses.view().dom().insert(
                pre.stack@[n - 2],
            ) && post.accessed_storage_keys.view() == pre.accessed_storage_keys.view()
            &&& !deep && !poor ==> Self::callee_ran(pre, post, kind)
        }
    }


    /// The gas a create from frame `pre` charges before its init code runs:
    /// the memory its range needs, a word of init-code cost per 32 bytes,
    /// and, for `CREATE2`, a word of hashing per 32 bytes.
    #[verifier::opaque]
    pub(super) open spec fn create_charge(pre: Evm, is_create2: bool) -> int {
        let n = pre.stack@.len();
        let offset = usize_of(pre.stack@[n - 2]);
        let size = usize_of(pre.stack@[n - 3]);
        let words = spec_words_for_size(size as nat);
        spec_expansion_cost(pre.memory@.len(), seq![(offset, size)]) + (if is_create2 {
            words * G_SHA3WORD
        } else {
            0
        }) + words * G_INITCODE_WORD
    }

    /// The gas left to a create from frame `pre` once `create_charge` is
    /// paid.
    pub(super) open spec fn create_gas_left(pre: Evm, is_create2: bool) -> int {
        pre.gas_remaining - Self::create_charge(pre, is_create2)
    }

    /// `create_charge` does not look at the trace.
    proof fn lemma_create_charge_ignores_trace(a: Evm, b: Evm, is_create2: bool)
        requires
            a == (Evm { trace_steps: a.trace_steps, ..b }),
        ensures
            Self::create_charge(a, is_create2) == Self::create_charge(b, is_create2),
    {
        reveal(Evm::create_charge);
    }

    /// The charge a create computes from the parts of `create_charge`, each
    /// held at the largest 64-bit value, is `create_charge` held there too.
    proof fn lemma_create_charge_parts(
        pre: Evm,
        is_create2: bool,
        offset: usize,
        size: usize,
        memory: int,
        hashing: int,
        words: int,
        cost: int,
    )
        requires
            pre.stack@.len() >= 3,
            offset == usize_of(pre.stack@[pre.stack@.len() - 2]),
            size == usize_of(pre.stack@[pre.stack@.len() - 3]),
            memory == spec_expansion_cost(pre.memory@.len(), seq![(offset, size)]),
            0 <= memory <= u64::MAX,
            hashing == (if is_create2 {
                sat(spec_words_for_size(size as nat) * G_SHA3WORD)
            } else {
                0
            }),
            words == sat(spec_words_for_size(size as nat) * G_INITCODE_WORD),
            cost == sat(sat(memory + hashing) + words),
        ensures
            cost == sat(Self::create_charge(pre, is_create2)),
    {
        reveal(Evm::create_charge);
    }


    /// The address a create from frame `pre` derives: from this account and
    /// its nonce, or, for `CREATE2`, from this account, the salt and the init
    /// code.
    pub(super) open spec fn create_target(pre: Evm, is_create2: bool) -> nat {
        let n = pre.stack@.len();
        let creator = pre.context.address;
        if is_create2 {
            spec_create2_address(creator@, pre.stack@[n - 4]@, Self::create_init(pre))
        } else {
            spec_create_address(creator@, pre.world.nonce(creator))
        }
    }

    /// The init code of a create from frame `pre`: the memory range its
    /// operands name.
    pub(super) open spec fn create_init(pre: Evm) -> Seq<u8> {
        let n = pre.stack@.len();
        read_bytes(pre.memory@, usize_of(pre.stack@[n - 2]), usize_of(pre.stack@[n - 3]))
    }

    /// The address a create derives from `creator` and its `nonce`, or,
    /// for `CREATE2`, from `creator`, `salt` and `init_code`.
    pub(super) open spec fn new_address(
        creator: U256,
        nonce: u64,
        salt: U256,
        init_code: Seq<u8>,
        is_create2: bool,
    ) -> nat {
        if is_create2 {
            spec_create2_address(creator@, salt@, init_code)
        } else {
            spec_create_address(creator@, nonce)
        }
    }

    /// The accounts `w` the init code of a contract at `address` made by
    /// `creator` starts with, from the accounts `p` before: as they were but
    /// for the creator's nonce and, unless `value` is 0 or the creator makes
    /// itself, `value` moved from the creator to the new address.
    pub(super) open spec fn init_world(
        p: WorldState,
        w: WorldState,
        creator: U256,
        address: U256,
        value: U256,
    ) -> bool {
        &&& forall|x: U256| x != creator && x != address ==> #[trigger] w.same_at(&p, x)
        &&& w.code(creator) == p.code(creator)
        &&& w.storage(creator) == p.storage(creator)
        &&& w.created(creator) == p.created(creator)
        &&& address != creator ==> {
            &&& w.nonce(address) == p.nonce(address)
            &&& w.code(address) == p.code(address)
            &&& w.storage(address) == p.storage(address)
            &&& w.created(address) == p.created(address)
        }
        &&& if value@ != 0 && address != creator {
            &&& w.balance(creator)@ == p.balance(creator)@ - value@
            &&& w.balance(address)@ == wrap((p.balance(address)@ + value@) as int)
        } else {
            &&& w.balance(creator) == p.balance(creator)
            &&& w.balance(address) == p.balance(address)
        }
    }

    /// `init_world` holds of the accounts left by bumping the creator's
    /// nonce (`w1`), then moving the value (`w2`), and of any copy `w` of
    /// those.
    proof fn lemma_init_world_steps(
        p: WorldState,
        w1: WorldState,
        w2: WorldState,
        w: WorldState,
        creator: U256,
        address: U256,
        value: U256,
    )
        requires
            w1.same_except(&p, creator),
            w1.balance(creator) == p.balance(creator),
            w1.code(creator) == p.code(creator),
            w1.storage(creator) == p.storage(creator),
            w1.created(creator) == p.created(creator),
            value@ != 0 && creator != address ==> w2.moved(&w1, creator, address, value),
            !(value@ != 0 && creator != address) ==> w2.same(&w1),
            w.same(&w2),
        ensures
            Self::init_world(p, w, creator, address, value),
    {
        assert(w.same_at(&w2, creator));
        assert(w.same_at(&w2, address));
        if !(value@ != 0 && creator != address) {
            assert(w2.same_at(&w1, creator));
            assert(w2.same_at(&w1, address));
        }
        if address != creator {
            assert(w1.same_at(&p, address));
        }
        assert forall|x: U256| x != creator && x != address implies #[trigger] w.same_at(&p, x) by {
            assert(w.same_at(&w2, x));
            assert(w2.same_at(&w1, x));
            assert(w1.same_at(&p, x));
        }
    }

    /// `init_world` carries over to accounts `p` that hold the same as `q`.
    proof fn lemma_init_world_same(
        p: WorldState,
        q: WorldState,
        w: WorldState,
        creator: U256,
        address: U256,
        value: U256,
    )
        requires
            Self::init_world(q, w, creator, address, value),
            q.same(&p),
        ensures
            Self::init_world(p, w, creator, address, value),
    {
        assert(q.same_at(&p, creator));
        assert(q.same_at(&p, address));
        assert forall|x: U256| x != creator && x != address implies #[trigger] w.same_at(&p, x) by {
            assert(w.same_at(&q, x));
            assert(q.same_at(&p, x));
        }
    }

    /// The first frame `start` of init code made by a create from frame
    /// `pre`: `init_code` runs with no input, as the account at `address`,
    /// for this account, with `value`, not static, one level deeper, with all
    /// of `gas`, from an empty stack, memory, log and output, with the jump
    /// destinations of `init_code` and the environment of `pre`, against accounts in
    /// which this account's nonce went up and the value moved as
    /// `init_world` says, and with the new address counting as accessed.
    pub(super) open spec fn init_start(
        pre: Evm,
        start: Evm,
        address: nat,
        init_code: Seq<u8>,
        value: U256,
        gas: u64,
    ) -> bool {
        let creator = pre.context.address;
        let nonce = pre.world.nonce(creator);
        &&& start.code@ == init_code
        &&& start.calldata@.len() == 0
        &&& start.context.address@ == address
        &&& start.context.caller == creator
        &&& start.context.callvalue == value
        &&& !start.context.is_static
        &&& start.context.depth == pre.context.depth + 1
        &&& start.gas_limit == gas
        &&& start.gas_remaining == gas
        &&& start.pc == 0
        &&& start.stack@.len() == 0
        &&& start.memory@.len() == 0
        &&& start.logs@.len() == 0
        &&& start.return_data@.len() == 0
        &&& start.last_return_data@.len() == 0
        &&& start.env.same(&pre.env)
        &&& forall|p: usize| #[trigger]
            start.jumpdests@.contains(p) <==> jumpdests_from(init_code, 0).contains(p as nat)
        &&& start.world.nonce(creator) == (if nonce == u64::MAX {
            0
        } else {
            (nonce + 1) as u64
        })
        &&& Self::init_world(pre.world, start.world, creator, start.context.address, value)
        &&& start.accessed_addresses.view().dom() == pre.accessed_addresses.view().dom().insert(
            start.context.address,
        )
        &&& start.accessed_storage_keys.view() == pre.accessed_storage_keys.view()
    }

    /// What a create from frame `pre` leaves in frame `post` once its init
    /// code went from frame `start` to frame `end` with `status`: if it
    /// succeeded, either the new contract at `address`, holding the returned
    /// code, on the stack, with the init code's accounts, refund counter, logs
    /// and access lists kept and the code deposit paid, or, when the gas left
    /// could not pay it, 0 and no gas left; if it failed, 0, with its output as
    /// the last return data if it reverted. Of `gas_before`, the creator loses
    /// what it handed the init code and gets back what that did not use. With
    /// 0 the refund counter and logs are as they were, the accounts as they
    /// were but for the creator's nonce, which stays raised, and the access
    /// lists as the init code got them.
    pub(super) open spec fn create_outcome(
        pre: Evm,
        post: Evm,
        start: Evm,
        end: Evm,
        status: ExitStatus,
        address: nat,
        gas_before: int,
    ) -> bool {
        let code = if status == ExitStatus::Return {
            end.return_data@
        } else {
            Seq::<u8>::empty()
        };
        let left = gas_before - start.gas_limit + end.gas_remaining;
        let deposit = G_CREATE_CODE_DEPOSIT * code.len();
        let rolled_back = Self::nonce_bumped(pre.world, post.world, pre.context.address)
            && post.gas_refund == pre.gas_refund
            && post.logs@ == pre.logs@ && post.accessed_addresses.view()
            == start.accessed_addresses.view() && post.accessed_storage_keys.view()
            == start.accessed_storage_keys.view();
        let made = post.stack@.last();
        &&& post.original_storage.view() == end.original_storage.view().union_prefer_right(
            pre.original_storage.view(),
        )
        &&& {
        ||| spec_is_success(status) && made@ == address && post.world.code(made) == code
            && post.gas_remaining == left - deposit
            && post.world.same_except(&end.world, made) && post.gas_refund == end.gas_refund
            && post.accessed_addresses.view() == end.accessed_addresses.view()
            && post.accessed_storage_keys.view() == end.accessed_storage_keys.view()
            && same_logs(post.logs@, pre.logs@ + end.logs@) && post.last_return_data@.len() == 0
        ||| spec_is_success(status) && made@ == 0 && post.gas_remaining == 0 && left < deposit
            && rolled_back
            && post.last_return_data@.len() == 0
        ||| !spec_is_success(status) && made@ == 0 && post.gas_remaining == left && rolled_back
            && post.last_return_data@ == (
        if status == ExitStatus::Revert {
            end.return_data@
        } else {
            Seq::<u8>::empty()
        })
        }
    }

    /// Accounts `w` are accounts `p` with the nonce of `creator` gone up by
    /// one (wrapping to 0 past the largest nonce) and nothing else changed.
    pub(super) open spec fn nonce_bumped(p: WorldState, w: WorldState, creator: U256) -> bool {
        let nonce = p.nonce(creator);
        &&& w.same_except(&p, creator)
        &&& w.nonce(creator) == (if nonce == u64::MAX {
            0
        } else {
            (nonce + 1) as u64
        })
        &&& w.balance(creator) == p.balance(creator)
        &&& w.code(creator) == p.code(creator)
        &&& w.storage(creator) == p.storage(creator)
        &&& w.created(creator) == p.created(creator)
    }

    /// A nonce bump carries over to worlds that hold the same accounts as
    /// either side.
    proof fn lemma_nonce_bumped_same(p: WorldState, q: WorldState, w: WorldState, v: WorldState, creator: U256)
        requires
            Self::nonce_bumped(q, v, creator),
            q.same(&p),
            w.same(&v),
        ensures
            Self::nonce_bumped(p, w, creator),
    {
        assert(q.same_at(&p, creator));
        assert(w.same_at(&v, creator));
        assert forall|x: U256| x != creator implies #[trigger] w.same_at(&p, x) by {
            assert(w.same_at(&v, x));
            assert(v.same_at(&q, x));
            assert(q.same_at(&p, x));
        }
    }

    /// The word whose value is `n`, for `n` below 2^256.
    pub(super) open spec fn word_of(n: nat) -> U256 {
        choose|w: U256| w@ == n
    }

    /// A create from frame `pre` to frame `post` that never ran init code: 0
    /// on the stack, no return data, the refund counter and logs as they were,
    /// and the accounts as they were but, if the creator's nonce was
    /// `bumped`, for that nonce.
    pub(super) open spec fn create_skipped(pre: Evm, post: Evm, bumped: bool) -> bool {
        &&& post.stack@.last()@ == 0
        &&& if bumped {
            Self::nonce_bumped(pre.world, post.world, pre.context.address)
        } else {
            post.world.same(&pre.world)
        }
        &&& post.gas_refund == pre.gas_refund
        &&& post.logs@ == pre.logs@
        &&& post.last_return_data@.len() == 0
        &&& post.original_storage.view() == pre.original_storage.view()
    }

    /// A create from frame `pre` to frame `post` ran its init code: it
    /// started as `init_start` says, at the derived address, with the value
    /// sent and all but a 64th of the gas left after `create_charge`, ran to
    /// some end, and the create left what `create_outcome` says.
    #[verifier::opaque]
    pub(super) open spec fn create_ran(pre: Evm, post: Evm, is_create2: bool) -> bool
        decreases MAX_CALL_DEPTH - pre.spec_depth(), 0int, 0nat,
    {
        &&& pre.context.depth + 1 < MAX_CALL_DEPTH
        &&& exists|start: Evm, end: Evm, status: ExitStatus|
            #![trigger Self::init_start(pre, start, Self::create_target(pre, is_create2), Self::create_init(pre), pre.stack@.last(), start.gas_limit), Self::create_outcome(pre, post, start, end, status, Self::create_target(pre, is_create2), Self::create_gas_left(pre, is_create2))]
            Self::init_start(
                pre,
                start,
                Self::create_target(pre, is_create2),
                Self::create_init(pre),
                pre.stack@.last(),
                start.gas_limit,
            ) && start.gas_limit == Self::create_gas_left(pre, is_create2) - Self::create_gas_left(
                pre,
                is_create2,
            ) / 64 && Self::create_outcome(
                pre,
                post,
                start,
                end,
                status,
                Self::create_target(pre, is_create2),
                Self::create_gas_left(pre, is_create2),
            ) && start.context.depth == pre.context.depth + 1 && Self::runs_to(
                start,
                end,
                status,
            )
    }

    /// Whether a create from frame `pre` sends value its account does not
    /// hold.
    pub(super) open spec fn create_poor(pre: Evm) -> bool {
        let value = pre.stack@.last();
        value@ != 0 && pre.world.balance(pre.context.address)@ < value@
    }

    /// Whether code already stands at the address a create from frame `pre`
    /// derives.
    pub(super) open spec fn create_taken(pre: Evm, is_create2: bool) -> bool {
        pre.world.code(Self::word_of(Self::create_target(pre, is_create2))).len() != 0
    }

    /// What `CREATE` or `CREATE2` does to the frame, from `pre` to `post` with
    /// outcome `r`: refused in a static frame; too few operands fail; too
    /// deep, it pushes 0 and changes nothing else; otherwise, if the gas left
    /// cannot pay `create_charge` or the init code is longer than the limit,
    /// it runs out of gas, and else it succeeds. Then the operands give way
    /// to one word, and: with more value than the account holds, 0 and
    /// nothing else changed but the charge paid; with code already at the
    /// derived address, the same but the creator's nonce raised; else the
    /// init code ran as `create_ran` says.
    pub(super) open spec fn create_step(
        pre: Evm,
        post: Evm,
        is_create2: bool,
        r: Result<(), ExitStatus>,
    ) -> bool
        decreases MAX_CALL_DEPTH - pre.spec_depth(), 1int, 0nat,
    {
        let n = pre.stack@.len();
        let k: int = if is_create2 {
            4
        } else {
            3
        };
        let live = !pre.context.is_static && n >= k;
        let deep = pre.context.depth + 1 >= MAX_CALL_DEPTH;
        let charge = Self::create_charge(pre, is_create2);
        let size = usize_of(pre.stack@[n - 3]);
        &&& pre.context.is_static ==> r == Err::<(), ExitStatus>(ExitStatus::StaticModeViolation)
            && post == pre
        &&& !pre.context.is_static && n < k ==> r == Err::<(), ExitStatus>(
            ExitStatus::StackUnderflow,
        )
        &&& live && !deep && (pre.gas_remaining < charge || size > MAX_INITCODE_SIZE) ==> r
            == Err::<(), ExitStatus>(ExitStatus::OutOfGas)
        &&& live && (deep || (pre.gas_remaining >= charge && size <= MAX_INITCODE_SIZE)) ==> r is Ok
        &&& r is Ok ==> {
            &&& n >= k
            &&& post.stack@.len() == n - k + 1
            &&& post.stack@.subrange(0, n - k) =~= pre.stack@.subrange(0, n - k)
            &&& deep ==> Self::create_skipped(pre, post, false) && post.gas_remaining
                == pre.gas_remaining && post.accessed_addresses.view()
                == pre.accessed_addresses.view()
            &&& !deep && Self::create_poor(pre) ==> Self::create_skipped(pre, post, false)
                && post.gas_remaining == pre.gas_remaining - charge
                && post.accessed_addresses.view() == pre.accessed_addresses.view()
            &&& !deep && !Self::create_poor(pre) && Self::create_taken(pre, is_create2)
                ==> Self::create_skipped(pre, post, true) && post.gas_remaining
                == pre.gas_remaining - charge && post.accessed_addresses.view().dom()
                == pre.accessed_addresses.view().dom().insert(
                Self::word_of(Self::create_target(pre, is_create2)),
            )
            &&& !deep && !Self::create_poor(pre) && !Self::create_taken(pre, is_create2)
                ==> Self::create_ran(pre, post, is_create2)
        }
    }


    /// `CALL`, `CALLCODE`, `DELEGATECALL` and `STATICCALL`: pop the operands,
    /// charge the access, memory and value costs, then either push 0 at once
    /// (too deep, or too little balance, or a failed transfer) or run the
    /// callee in a child frame with at most all but a 64th of the gas left,
    /// keep its effects if it succeeded, copy its output and push 1 or 0.
    #[verifier::rlimit(100)]
    #[verifier::spinoff_prover]
    pub(super) fn execute_call(&mut self, kind: CallKind) -> (r: Result<(), ExitStatus>)
        requires
            old(self).inv(),
        ensures
            final(self).kept(old(self)),
            r is Ok ==> final(self).inv() && final(self).gas_remaining < old(self).gas_remaining,
            r is Err ==> final(self).halted_ok(),
            Self::call_step(
                (Evm { trace_steps: final(self).trace_steps, ..*old(self) }),
                *final(self),
                kind,
                r,
            ),
            old(self).context.is_static ==> final(self).world.same(&old(self).world),
            logs_extend(old(self).logs@, final(self).logs@),
            !old(self).trace ==> final(self).trace_steps@ == old(self).trace_steps@,
            trace_extends(old(self).trace_steps@, final(self).trace_steps@),
        decreases MAX_CALL_DEPTH - old(self).spec_depth(), 2int,
    {
        proof {
            WorldState::lemma_same_equivalence(self.world, self.world, self.world);
            assert(self.logs@.subrange(0, self.logs@.len() as int) =~= self.logs@);
            assert(self.trace_steps@.subrange(0, self.trace_steps@.len() as int) =~= self.trace_steps@);
        }
        let ghost s0 = self.stack@;
        let ghost w0 = self.world;
        let gas = self.pop_stack()?;
        let to = self.pop_stack()?;
        let with_value = kind == CallKind::Call || kind == CallKind::CallCode;
        let value = if with_value {
            self.pop_stack()?
        } else {
            U256::zero()
        };
        let in_offset = self.pop_usize()?;
        let in_size = self.pop_usize()?;
        let out_offset = self.pop_usize()?;
        let out_size = self.pop_usize()?;
        proof {
            let k: int = if with_value {
                7
            } else {
                6
            };
            assert(self.stack@ =~= s0.subrange(0, s0.len() - k));
        }
        let access_cost = self.account_access_cost(to);
        let memory_cost = self.memory_expansion_cost_two(in_offset, in_size, out_offset, out_size);
        let has_value = !value.is_zero() && with_value;
        let mut extra_cost: u64 = 0;
        if has_value {
            extra_cost = G_CALLVALUE;
        }
        if kind == CallKind::Call && !value.is_zero() && !self.world.account_exists(to) {
            extra_cost = extra_cost + G_NEWACCOUNT;
        }
        proof {
            Self::lemma_call_charge_parts(
                *old(self),
                kind,
                to,
                value,
                seq![(in_offset, in_size), (out_offset, out_size)],
                access_cost as int,
                memory_cost as int,
                extra_cost as int,
            );
            Self::lemma_call_gas_ignores_trace(
                Evm { trace_steps: self.trace_steps, ..*old(self) },
                *old(self),
                kind,
            );
        }
        self.charge_gas(access_cost)?;
        let ghost spent0 = self.gas_limit - self.gas_remaining;
        let ghost len0 = self.memory@.len();
        self.charge_gas(memory_cost)?;
        proof {
            let ranges = seq![(in_offset, in_size), (out_offset, out_size)];
            if in_size > 0 {
                lemma_range_paid(len0, ranges, 0, spent0, memory_cost as int, self.gas_limit as int);
            }
            if out_size > 0 {
                lemma_range_paid(len0, ranges, 1, spent0, memory_cost as int, self.gas_limit as int);
            }
        }
        self.charge_gas(extra_cost)?;
        let r = self.call_with_operands(
            kind,
            gas,
            to,
            value,
            in_offset,
            in_size,
            out_offset,
            out_size,
            Ghost(*old(self)),
        );
        proof {
            Self::lemma_call_gas_ignores_trace(
                Evm { trace_steps: self.trace_steps, ..*old(self) },
                *old(self),
                kind,
            );
        }
        r
    }

    /// The part of a call after its operands are popped and its access,
    /// memory and value costs paid, from frame `orig` before the call: push 0
    /// at once (too deep, or too little balance), fail (value from a static
    /// frame), or run the callee with its share of the gas through
    /// `call_child`.
    #[verifier::rlimit(100)]
    #[verifier::spinoff_prover]
    fn call_with_operands(
        &mut self,
        kind: CallKind,
        gas: U256,
        to: U256,
        value: U256,
        in_offset: usize,
        in_size: usize,
        out_offset: usize,
        out_size: usize,
        Ghost(orig): Ghost<Evm>,
    ) -> (r: Result<(), ExitStatus>)
        requires
            old(self).inv(),
            old(self).kept(&orig),
            orig.stack@.len() <= crate::stack::STACK_LIMIT,
            orig.stack@.len() >= (if kind == CallKind::Call || kind == CallKind::CallCode {
                7int
            } else {
                6int
            }),
            old(self).stack@ == orig.stack@.subrange(
                0,
                orig.stack@.len() - (if kind == CallKind::Call || kind == CallKind::CallCode {
                    7int
                } else {
                    6int
                }),
            ),
            gas == orig.stack@[orig.stack@.len() - 1],
            to == orig.stack@[orig.stack@.len() - 2],
            kind == CallKind::Call || kind == CallKind::CallCode ==> value == orig.stack@[orig.stack@.len() - 3],
            !(kind == CallKind::Call || kind == CallKind::CallCode) ==> value@ == 0,
            in_offset == usize_of(
                orig.stack@[orig.stack@.len() - (if kind == CallKind::Call || kind
                    == CallKind::CallCode {
                    4int
                } else {
                    3int
                })],
            ),
            in_size == usize_of(
                orig.stack@[orig.stack@.len() - (if kind == CallKind::Call || kind
                    == CallKind::CallCode {
                    5int
                } else {
                    4int
                })],
            ),
            out_offset == usize_of(
                orig.stack@[orig.stack@.len() - (if kind == CallKind::Call || kind
                    == CallKind::CallCode {
                    6int
                } else {
                    5int
                })],
            ),
            out_size == usize_of(
                orig.stack@[orig.stack@.len() - (if kind == CallKind::Call || kind
                    == CallKind::CallCode {
                    7int
                } else {
                    6int
                })],
            ),
            old(self).world == orig.world,
            old(self).memory@ == orig.memory@,
            old(self).gas_remaining + Self::call_stipend(orig, kind) <= old(self).gas_limit,
            abs(old(self).gas_refund as int) + refund_per_gas() * (old(self).gas_remaining
                + Self::call_stipend(orig, kind)) <= old(self).refund_budget@,
            mem_cost_of_len(old(self).memory@.len()) <= old(self).gas_limit - old(self).gas_remaining
                - Self::call_stipend(orig, kind),
            old(self).logs@ == orig.logs@,
            old(self).gas_refund == orig.gas_refund,
            old(self).gas_remaining == orig.gas_remaining - Self::call_charge(orig, kind),
            old(self).world.same(&orig.world),
            old(self).accessed_addresses.view().dom() == orig.accessed_addresses.view().dom().insert(
                to,
            ),
            old(self).accessed_storage_keys.view() == orig.accessed_storage_keys.view(),
            old(self).original_storage.view() == orig.original_storage.view(),
            in_size > 0 ==> in_offset + in_size <= usize::MAX && mem_cost_of_len(
                if old(self).memory@.len() > in_offset + in_size {
                    old(self).memory@.len()
                } else {
                    (in_offset + in_size) as nat
                },
            ) <= old(self).gas_limit - old(self).gas_remaining - Self::call_stipend(orig, kind),
            out_size > 0 ==> out_offset + out_size <= usize::MAX && mem_cost_of_len(
                if old(self).memory@.len() > out_offset + out_size {
                    old(self).memory@.len()
                } else {
                    (out_offset + out_size) as nat
                },
            ) <= old(self).gas_limit - old(self).gas_remaining - Self::call_stipend(orig, kind),
        ensures
            final(self).kept(old(self)),
            r is Ok ==> final(self).inv() && final(self).gas_remaining <= old(self).gas_remaining
                + Self::call_stipend(orig, kind),
            r is Err ==> final(self).halted_ok(),
            r is Ok ==> {
                &&& final(self).stack@.drop_last() =~= old(self).stack@
                &&& final(self).stack@.len() == old(self).stack@.len() + 1
                &&& forall|i: int|
                    0 <= i < out_size && i < final(self).last_return_data@.len()
                        ==> final(self).memory@[out_offset + i]
                        == #[trigger] final(self).last_return_data@[i]
                &&& orig.context.depth + 1 >= MAX_CALL_DEPTH || (Self::with_value(kind) && value@ != 0
                    && orig.world.balance(orig.context.address)@ < value@) ==> Self::call_skipped(
                    (Evm { trace_steps: final(self).trace_steps, ..orig }),
                    *final(self),
                ) && final(self).gas_remaining == old(self).gas_remaining
                    && final(self).accessed_addresses.view().dom()
                    == orig.accessed_addresses.view().dom().insert(orig.stack@[orig.stack@.len() - 2])
                    && final(self).accessed_storage_keys.view()
                    == orig.accessed_storage_keys.view()
                &&& !(orig.context.depth + 1 >= MAX_CALL_DEPTH || (Self::with_value(kind) && value@ != 0
                    && orig.world.balance(orig.context.address)@ < value@)) ==> Self::callee_ran(
                    (Evm { trace_steps: final(self).trace_steps, ..orig }),
                    *final(self),
                    kind,
                )
            },
            kind == CallKind::Call && orig.context.is_static && value@ != 0 && orig.context.depth + 1
                < MAX_CALL_DEPTH ==> r == Err::<(), ExitStatus>(ExitStatus::StaticModeViolation),
            !(kind == CallKind::Call && orig.context.is_static && value@ != 0 && orig.context.depth + 1
                < MAX_CALL_DEPTH) ==> r is Ok,
            kind == CallKind::StaticCall || old(self).context.is_static ==> final(self).world.same(
                &old(self).world,
            ),
            logs_extend(old(self).logs@, final(self).logs@),
            !old(self).trace ==> final(self).trace_steps@ == old(self).trace_steps@,
            trace_extends(old(self).trace_steps@, final(self).trace_steps@),
        decreases MAX_CALL_DEPTH - old(self).spec_depth(), 1int,
    {
        proof {
            WorldState::lemma_same_equivalence(self.world, self.world, self.world);
            assert(self.logs@.subrange(0, self.logs@.len() as int) =~= self.logs@);
            assert(self.trace_steps@.subrange(0, self.trace_steps@.len() as int) =~= self.trace_steps@);
        }
        let with_value = kind == CallKind::Call || kind == CallKind::CallCode;
        let has_value = !value.is_zero() && with_value;
        if self.context.depth + 1 >= MAX_CALL_DEPTH {
            self.last_return_data = Vec::new();
            self.push_stack(U256::zero())?;
            return Ok(());
        }
        if self.context.is_static && kind == CallKind::Call && !value.is_zero() {
            return Err(ExitStatus::StaticModeViolation);
        }
        let caller_address = self.context.address;
        if has_value && lt(self.world.balance_of(caller_address), value) {
            self.last_return_data = Vec::new();
            self.push_stack(U256::zero())?;
            return Ok(());
        }
        let (context_address, context_caller, context_callvalue, code_address, child_is_static) =
            match kind {
            CallKind::Call => (to, caller_address, value, to, self.context.is_static),
            CallKind::CallCode => (
                caller_address,
                caller_address,
                value,
                to,
                self.context.is_static,
            ),
            CallKind::DelegateCall => (
                caller_address,
                self.context.caller,
                self.context.callvalue,
                to,
                self.context.is_static,
            ),
            CallKind::StaticCall => (to, caller_address, U256::zero(), to, true),
        };
        let requested_gas = u256_to_u64(gas);
        let gas_cap = max_call_gas(self.gas_remaining);
        let mut forwarded_gas = if requested_gas < gas_cap {
            requested_gas
        } else {
            gas_cap
        };
        let stipend: u64 = if has_value {
            G_CALLSTIPEND
        } else {
            0
        };
        let child_context = FrameContext {
            address: context_address,
            caller: context_caller,
            callvalue: context_callvalue,
            is_static: child_is_static,
            depth: self.context.depth + 1,
        };
        let should_transfer = kind == CallKind::Call && !value.is_zero();
        let ghost mid = *self;
        proof {
            assert(Self::callee_fits(orig, kind, child_context, (forwarded_gas + stipend) as u64))
                by {
                reveal(Evm::call_gas);
            }
        }
        let r = self.call_child(
            should_transfer,
            to,
            value,
            code_address,
            child_context,
            forwarded_gas,
            stipend,
            in_offset,
            in_size,
            out_offset,
            out_size,
        );
        proof {
            WorldState::lemma_same_equivalence(self.world, mid.world, orig.world);
            Self::lemma_callee_ran(
                orig,
                mid,
                *self,
                kind,
                code_address,
                child_context,
                (forwarded_gas + stipend) as u64,
                in_offset,
                in_size,
                out_offset,
                out_size,
                should_transfer,
                stipend as int,
            );
        }
        r
    }

    /// What `call_child` says of the frame it started from holds of the
    /// frame before the call's operands were popped and its costs paid,
    /// which had the same accounts, memory, logs and refund counter, no more
    /// than the called account added to its accessed accounts, and no less
    /// gas.
    proof fn lemma_callee_ran(
        orig: Evm,
        mid: Evm,
        post: Evm,
        kind: CallKind,
        code_address: U256,
        context: FrameContext,
        gas: u64,
        in_offset: usize,
        in_size: usize,
        out_offset: usize,
        out_size: usize,
        moved: bool,
        stipend: int,
    )
        requires
            orig.stack@.len() >= (if kind == CallKind::Call || kind == CallKind::CallCode {
                7int
            } else {
                6int
            }),
            code_address == orig.stack@[orig.stack@.len() - 2],
            in_offset == usize_of(
                orig.stack@[orig.stack@.len() - (if kind == CallKind::Call || kind
                    == CallKind::CallCode {
                    4int
                } else {
                    3int
                })],
            ),
            in_size == usize_of(
                orig.stack@[orig.stack@.len() - (if kind == CallKind::Call || kind
                    == CallKind::CallCode {
                    5int
                } else {
                    4int
                })],
            ),
            out_offset == usize_of(
                orig.stack@[orig.stack@.len() - (if kind == CallKind::Call || kind
                    == CallKind::CallCode {
                    6int
                } else {
                    5int
                })],
            ),
            out_size == usize_of(
                orig.stack@[orig.stack@.len() - (if kind == CallKind::Call || kind
                    == CallKind::CallCode {
                    7int
                } else {
                    6int
                })],
            ),
            stipend == Self::call_stipend(orig, kind),
            moved == (kind == CallKind::Call && orig.stack@[orig.stack@.len() - 3]@ != 0),
            mid.world.same(&orig.world),
            mid.context == orig.context,
            mid.env == orig.env,
            mid.memory@ == orig.memory@,
            mid.logs@ == orig.logs@,
            mid.gas_refund == orig.gas_refund,
            mid.gas_remaining == orig.gas_remaining - Self::call_charge(orig, kind),
            mid.accessed_addresses.view().dom() == orig.accessed_addresses.view().dom().insert(
                code_address,
            ),
            mid.accessed_storage_keys.view() == orig.accessed_storage_keys.view(),
            mid.original_storage.view() == orig.original_storage.view(),
            orig.context.depth + 1 < MAX_CALL_DEPTH,
            Self::callee_fits(orig, kind, context, gas),
            exists|start: Evm, end: Evm, status: ExitStatus|
                #[trigger] Self::call_ran(
                    mid,
                    post,
                    start,
                    end,
                    status,
                    mid.world.code(code_address),
                    read_bytes(mid.memory@, in_offset, in_size),
                    context,
                    gas,
                    moved,
                    mid.accessed_addresses.view().dom(),
                    mid.gas_remaining as int,
                    stipend,
                    after_read(mid.memory@, in_offset, in_size),
                    out_offset,
                    out_size,
                ) && Self::runs_to(start, end, status),
        ensures
            Self::callee_ran((Evm { trace_steps: post.trace_steps, ..orig }), post, kind),
    {
        reveal_with_fuel(Evm::callee_ran, 1);
        let pre = Evm { trace_steps: post.trace_steps, ..orig };
        Self::lemma_call_gas_ignores_trace(pre, orig, kind);
        assert(Self::callee_fits(pre, kind, context, gas));
        let (start, end, status) = choose|start: Evm, end: Evm, status: ExitStatus|
            #[trigger] Self::call_ran(
                mid,
                post,
                start,
                end,
                status,
                mid.world.code(code_address),
                read_bytes(mid.memory@, in_offset, in_size),
                context,
                gas,
                moved,
                mid.accessed_addresses.view().dom(),
                mid.gas_remaining as int,
                stipend,
                after_read(mid.memory@, in_offset, in_size),
                out_offset,
                out_size,
            ) && Self::runs_to(start, end, status);
        WorldState::lemma_same_equivalence(start.world, mid.world, pre.world);
        WorldState::lemma_same_equivalence(post.world, mid.world, pre.world);
        WorldState::lemma_moved_same(
            start.world,
            mid.world,
            pre.world,
            pre.context.address,
            context.address,
            context.callvalue,
        );
        assert(mid.world.same_at(&pre.world, code_address));
        assert(Self::call_outcome(pre, post, start, end, status));
        assert(Self::callee_fits(pre, kind, start.context, start.gas_limit));
        assert(Self::call_ran(
            pre,
            post,
            start,
            end,
            status,
            pre.world.code(code_address),
            read_bytes(pre.memory@, in_offset, in_size),
            start.context,
            start.gas_limit,
            moved,
            pre.accessed_addresses.view().dom().insert(code_address),
            pre.gas_remaining - Self::call_charge(pre, kind),
            Self::call_stipend(pre, kind),
            after_read(pre.memory@, in_offset, in_size),
            out_offset,
            out_size,
        ));
        assert(start.context.depth == pre.context.depth + 1);
    }

    /// The second half of a call: moves the value, charges the forwarded
    /// gas and hands the callee that plus the free `stipend`, runs the
    /// callee's code in a child frame and takes back what it leaves;
    /// keeps its effects only if it succeeded, copies its output into the
    /// output range and pushes 1 or 0. Memory for both ranges is paid for.
    #[verifier::rlimit(100)]
    #[verifier::spinoff_prover]
    fn call_child(
        &mut self,
        should_transfer: bool,
        to: U256,
        value: U256,
        code_address: U256,
        child_context: FrameContext,
        forwarded_gas: u64,
        stipend: u64,
        in_offset: usize,
        in_size: usize,
        out_offset: usize,
        out_size: usize,
    ) -> (r: Result<(), ExitStatus>)
        requires
            old(self).inv(),
            child_context.depth == old(self).context.depth + 1,
            child_context.depth < MAX_CALL_DEPTH,
            old(self).stack@.len() < crate::stack::STACK_LIMIT,
            old(self).context.is_static ==> child_context.is_static && !should_transfer,
            should_transfer ==> child_context.address == to && child_context.callvalue == value
                && value@ != 0 && old(self).world.balance(old(self).context.address)@ >= value@,
            stipend <= G_CALLSTIPEND,
            forwarded_gas <= old(self).gas_remaining,
            old(self).gas_remaining + stipend <= old(self).gas_limit,
            abs(old(self).gas_refund as int) + refund_per_gas() * (old(self).gas_remaining + stipend)
                <= old(self).refund_budget@,
            mem_cost_of_len(old(self).memory@.len()) <= old(self).gas_limit - old(self).gas_remaining
                - stipend,
            in_size > 0 ==> in_offset + in_size <= usize::MAX && mem_cost_of_len(
                if old(self).memory@.len() > in_offset + in_size {
                    old(self).memory@.len()
                } else {
                    (in_offset + in_size) as nat
                },
            ) <= old(self).gas_limit - old(self).gas_remaining - stipend,
            out_size > 0 ==> out_offset + out_size <= usize::MAX && mem_cost_of_len(
                if old(self).memory@.len() > out_offset + out_size {
                    old(self).memory@.len()
                } else {
                    (out_offset + out_size) as nat
                },
            ) <= old(self).gas_limit - old(self).gas_remaining - stipend,
        ensures
            final(self).kept(old(self)),
            r is Ok,
            final(self).inv(),
            final(self).gas_remaining <= old(self).gas_remaining + stipend,
            r is Ok ==> {
                &&& final(self).stack@.drop_last() =~= old(self).stack@
                &&& final(self).stack@.len() == old(self).stack@.len() + 1
            },
            child_context.is_static && !should_transfer ==> final(self).world.same(
                &old(self).world,
            ),
            r is Ok ==> forall|i: int|
                0 <= i < out_size && i < final(self).last_return_data@.len()
                    ==> final(self).memory@[out_offset + i]
                    == #[trigger] final(self).last_return_data@[i],
            exists|
                start: Evm,
                end: Evm,
                status: ExitStatus,
            |
                #[trigger] Self::call_ran(
                    *old(self),
                    *final(self),
                    start,
                    end,
                    status,
                    old(self).world.code(code_address),
                    read_bytes(old(self).memory@, in_offset, in_size),
                    child_context,
                    (forwarded_gas + stipend) as u64,
                    should_transfer,
                    old(self).accessed_addresses.view().dom(),
                    old(self).gas_remaining as int,
                    stipend as int,
                    after_read(old(self).memory@, in_offset, in_size),
                    out_offset,
                    out_size,
                ) && Self::runs_to(start, end, status),
            logs_extend(old(self).logs@, final(self).logs@),
            !old(self).trace ==> final(self).trace_steps@ == old(self).trace_steps@,
            trace_extends(old(self).trace_steps@, final(self).trace_steps@),
        decreases MAX_CALL_DEPTH - old(self).spec_depth(), 0int,
    {
        proof {
            assert(self.logs@.subrange(0, self.logs@.len() as int) =~= self.logs@);
            assert(self.trace_steps@.subrange(0, self.trace_steps@.len() as int) =~= self.trace_steps@);
        }
        let ghost len0 = self.memory@.len();
        let ghost paid = self.gas_limit - self.gas_remaining;
        let ghost logs0 = self.logs@;
        let caller_address = self.context.address;
        let snapshot = self.world.duplicate();
        if should_transfer && !self.world.transfer(caller_address, to, value) {
            self.world = snapshot;
            self.last_return_data = Vec::new();
            self.push_stack(U256::zero())?;
            return Ok(());
        }
        self.charge_gas(forwarded_gas)?;
        let snapshot_accessed_addresses = self.accessed_addresses.duplicate();
        let snapshot_accessed_storage_keys = self.accessed_storage_keys.duplicate();
        let snapshot_refund = self.gas_refund;
        let input = self.memory.read_slice(in_offset, in_size);
        let child_code = self.world.code_of(code_address);
        let child_world = self.world.duplicate();
        let ghost budget = self.refund_budget@ - refund_per_gas() * self.gas_remaining;
        let child_gas = forwarded_gas + stipend;
        let mut child = self.spawn_child(
            child_code,
            input,
            child_gas,
            child_context,
            child_world,
            Ghost(budget),
        );
        let ghost start = child;
        proof {
            assert(start.code@ == old(self).world.code(code_address)) by {
                if should_transfer {
                    assert(self.world.same_at(&old(self).world, code_address) || code_address == to
                        || code_address == caller_address);
                }
            }
            assert(start.calldata@ == read_bytes(old(self).memory@, in_offset, in_size));
            if !should_transfer {
                assert(start.world.same(&old(self).world));
            } else if caller_address == to {
                WorldState::lemma_same_equivalence(start.world, self.world, old(self).world);
            } else {
                WorldState::lemma_moved_same(
                    start.world,
                    self.world,
                    old(self).world,
                    caller_address,
                    to,
                    value,
                );
            }
        }
        let child_result = child.run();
        let ghost end = child;
        proof {
            WorldState::lemma_same_equivalence(child.world, start.world, self.world);
        }
        self.gas_remaining = self.gas_remaining + child_result.gas_remaining;
        let success = is_success_status(&child_result.status);
        let ghost orig0 = self.original_storage.view();
        proof {
            assert(orig0 == old(self).original_storage.view());
        }
        self.merge_original_storage(&child.original_storage);
        proof {
            assert(self.original_storage.view() =~= end.original_storage.view().union_prefer_right(
                old(self).original_storage.view(),
            ));
        }
        let ghost steps0 = self.trace_steps@;
        self.trace_steps.append(&mut child.trace_steps);
        proof {
            if !self.trace {
                assert(self.trace_steps@ =~= steps0);
            }
            assert(self.trace_steps@.subrange(0, steps0.len() as int) =~= steps0);
        }
        let mut child_logs = child_result.logs;
        if success {
            self.world = child.world;
            self.accessed_addresses = child.accessed_addresses;
            self.accessed_storage_keys = child.accessed_storage_keys;
            self.gas_refund = child.gas_refund;
            let ghost result_logs = child_logs@;
            self.logs.append(&mut child_logs);
            proof {
                assert(self.logs@.subrange(0, logs0.len() as int) =~= logs0);
                assert forall|i: int| 0 <= i < self.logs@.len() implies same_log(
                    #[trigger] self.logs@[i],
                    (logs0 + end.logs@)[i],
                ) by {
                    if i >= logs0.len() {
                        assert(self.logs@[i] == result_logs[i - logs0.len()]);
                    }
                }
            }
        } else {
            self.world = snapshot;
            self.accessed_addresses = snapshot_accessed_addresses;
            self.accessed_storage_keys = snapshot_accessed_storage_keys;
            self.gas_refund = snapshot_refund;
        }
        self.last_return_data = match child_result.status {
            ExitStatus::Return | ExitStatus::Revert => child_result.return_data,
            _ => Vec::new(),
        };
        let ghost len2 = self.memory@.len();
        self.copy_last_return_data_to_memory(out_offset, out_size);
        proof {
            let len3 = self.memory@.len();
            if len3 > len2 {
                let out_end = (out_offset + out_size) as nat;
                lemma_mem_cost_len_monotonic(
                    len3,
                    if len0 > out_end {
                        len0
                    } else {
                        out_end
                    },
                );
            }
        }
        self.push_stack(bool_to_u256(success))?;
        proof {
            assert(Self::callee_start(
                *old(self),
                start,
                old(self).world.code(code_address),
                read_bytes(old(self).memory@, in_offset, in_size),
                child_context,
                child_gas,
                should_transfer,
                old(self).accessed_addresses.view().dom(),
            ));
            assert(Self::call_outcome(*old(self), *self, start, end, child_result.status));
            assert(Self::runs_to(start, end, child_result.status));
            assert(Self::call_ran(
                *old(self),
                *self,
                start,
                end,
                child_result.status,
                old(self).world.code(code_address),
                read_bytes(old(self).memory@, in_offset, in_size),
                child_context,
                child_gas,
                should_transfer,
                old(self).accessed_addresses.view().dom(),
                old(self).gas_remaining as int,
                stipend as int,
                after_read(old(self).memory@, in_offset, in_size),
                out_offset,
                out_size,
            ));
        }
        Ok(())
    }

    /// `CREATE` and `CREATE2`: refused in a static frame; pop value, offset,
    /// size (and salt), charge memory growth, hashing and init-code words,
    /// derive the new address, run the init code in a child frame and, if it
    /// succeeds and its code deposit can be paid, install the returned code
    /// there and push the address; otherwise push 0.
    #[verifier::rlimit(100)]
    #[verifier::spinoff_prover]
    pub(super) fn execute_create(&mut self, is_create2: bool) -> (r: Result<(), ExitStatus>)
        requires
            old(self).gas_remaining < u64::MAX,
            old(self).inv(),
        ensures
            final(self).kept(old(self)),
            r is Ok ==> final(self).inv() && final(self).gas_remaining <= old(self).gas_remaining,
            r is Err ==> final(self).halted_ok(),
            Self::create_step(
                (Evm { trace_steps: final(self).trace_steps, ..*old(self) }),
                *final(self),
                is_create2,
                r,
            ),
            logs_extend(old(self).logs@, final(self).logs@),
            !old(self).trace ==> final(self).trace_steps@ == old(self).trace_steps@,
            trace_extends(old(self).trace_steps@, final(self).trace_steps@),
        decreases MAX_CALL_DEPTH - old(self).spec_depth(), 1int,
    {
        proof {
            assert(self.logs@.subrange(0, self.logs@.len() as int) =~= self.logs@);
            assert(self.trace_steps@.subrange(0, self.trace_steps@.len() as int) =~= self.trace_steps@);
        }
        let ghost s0 = self.stack@;
        if self.context.is_static {
            return Err(ExitStatus::StaticModeViolation);
        }
        let value = self.pop_stack()?;
        let offset = self.pop_usize()?;
        let size = self.pop_usize()?;
        let salt = if is_create2 {
            self.pop_stack()?
        } else {
            U256::zero()
        };
        proof {
            let k: int = if is_create2 {
                4
            } else {
                3
            };
            assert(self.stack@ =~= s0.subrange(0, s0.len() - k));
        }
        if self.context.depth + 1 >= MAX_CALL_DEPTH {
            self.last_return_data = Vec::new();
            self.push_stack(U256::zero())?;
            return Ok(());
        }
        let memory_cost = self.memory_expansion_cost(offset, size);
        let create2_hash_cost = if is_create2 {
            saturating_mul(words_for_size(size), G_SHA3WORD)
        } else {
            0
        };
        let initcode_word_cost = saturating_mul(words_for_size(size), G_INITCODE_WORD);
        let ghost spent0 = self.gas_limit - self.gas_remaining;
        let ghost len0 = self.memory@.len();
        let cost = memory_cost.saturating_add(create2_hash_cost).saturating_add(initcode_word_cost);
        proof {
            Self::lemma_create_charge_parts(
                *old(self),
                is_create2,
                offset,
                size,
                memory_cost as int,
                create2_hash_cost as int,
                initcode_word_cost as int,
                cost as int,
            );
        }
        self.charge_gas(cost)?;
        proof {
            if size > 0 {
                lemma_range_paid(
                    len0,
                    seq![(offset, size)],
                    0,
                    spent0,
                    cost as int,
                    self.gas_limit as int,
                );
            }
        }
        if size > MAX_INITCODE_SIZE {
            return Err(ExitStatus::OutOfGas);
        }
        let init_code = self.memory.read_slice(offset, size);
        let creator = self.context.address;
        if !value.is_zero() && lt(self.world.balance_of(creator), value) {
            self.last_return_data = Vec::new();
            self.push_stack(U256::zero())?;
            return Ok(());
        }
        let ghost mid = *self;
        let ghost init = init_code@;
        proof {
            Self::lemma_new_address_is_target(*old(self), mid, is_create2, salt, init);
            assert(mid.world.same_at(
                &old(self).world,
                Self::word_of(Self::create_target(*old(self), is_create2)),
            ));
        }
        let r = self.create_child(creator, value, salt, init_code, is_create2);
        proof {
            WorldState::lemma_same_equivalence(self.world, mid.world, old(self).world);
            WorldState::lemma_same_equivalence(self.world, self.world, self.world);
            if Self::create_taken(*old(self), is_create2) {
                Self::lemma_nonce_bumped_same(
                    old(self).world,
                    mid.world,
                    self.world,
                    self.world,
                    creator,
                );
            } else {
                Self::lemma_create_ran(*old(self), mid, *self, is_create2, salt, init, value);
            }
            Self::lemma_create_charge_ignores_trace(
                Evm { trace_steps: self.trace_steps, ..*old(self) },
                *old(self),
                is_create2,
            );
        }
        r
    }

    /// The address `create_child` derives from the frame it starts from is
    /// the one `create_target` names for the frame before the create.
    proof fn lemma_new_address_is_target(
        orig: Evm,
        mid: Evm,
        is_create2: bool,
        salt: U256,
        init_code: Seq<u8>,
    )
        requires
            orig.stack@.len() >= (if is_create2 {
                4int
            } else {
                3int
            }),
            is_create2 ==> salt == orig.stack@[orig.stack@.len() - 4],
            init_code == Self::create_init(orig),
            mid.context == orig.context,
            mid.world.same(&orig.world),
        ensures
            Self::new_address(
                orig.context.address,
                mid.world.nonce(orig.context.address),
                salt,
                init_code,
                is_create2,
            ) == Self::create_target(orig, is_create2),
    {
        assert(mid.world.same_at(&orig.world, orig.context.address));
    }

    /// What `create_child` says of the frame it started from holds of the
    /// frame before the create's operands were popped and its costs paid,
    /// which had the same context, accounts, logs, refund counter and access
    /// lists and no less gas.
    proof fn lemma_create_ran(
        orig: Evm,
        mid: Evm,
        post: Evm,
        is_create2: bool,
        salt: U256,
        init_code: Seq<u8>,
        value: U256,
    )
        requires
            orig.stack@.len() >= (if is_create2 {
                4int
            } else {
                3int
            }),
            value == orig.stack@.last(),
            is_create2 ==> salt == orig.stack@[orig.stack@.len() - 4],
            init_code == Self::create_init(orig),
            mid.context == orig.context,
            mid.env == orig.env,
            mid.world.same(&orig.world),
            mid.logs@ == orig.logs@,
            mid.gas_refund == orig.gas_refund,
            mid.gas_remaining == Self::create_gas_left(orig, is_create2),
            mid.accessed_addresses.view() == orig.accessed_addresses.view(),
            mid.accessed_storage_keys.view() == orig.accessed_storage_keys.view(),
            mid.original_storage.view() == orig.original_storage.view(),
            orig.context.depth + 1 < MAX_CALL_DEPTH,
            exists|start: Evm, end: Evm, status: ExitStatus|
                #![trigger Self::init_start(mid, start, Self::new_address(orig.context.address, mid.world.nonce(orig.context.address), salt, init_code, is_create2), init_code, value, start.gas_limit), Self::create_outcome(mid, post, start, end, status, Self::new_address(orig.context.address, mid.world.nonce(orig.context.address), salt, init_code, is_create2), mid.gas_remaining as int)]
                Self::init_start(
                    mid,
                    start,
                    Self::new_address(orig.context.address, mid.world.nonce(orig.context.address), salt, init_code, is_create2),
                    init_code,
                    value,
                    start.gas_limit,
                ) && start.gas_limit == mid.gas_remaining - mid.gas_remaining / 64
                    && Self::create_outcome(
                    mid,
                    post,
                    start,
                    end,
                    status,
                    Self::new_address(orig.context.address, mid.world.nonce(orig.context.address), salt, init_code, is_create2),
                    mid.gas_remaining as int,
                ) && Self::runs_to(start, end, status),
        ensures
            Self::create_ran((Evm { trace_steps: post.trace_steps, ..orig }), post, is_create2),
    {
        reveal_with_fuel(Evm::create_ran, 1);
        let pre = Evm { trace_steps: post.trace_steps, ..orig };
        Self::lemma_create_charge_ignores_trace(pre, orig, is_create2);
        let creator = orig.context.address;
        let address = Self::new_address(creator, mid.world.nonce(creator), salt, init_code, is_create2);
        let (start, end, status) = choose|start: Evm, end: Evm, status: ExitStatus|
            #![trigger Self::init_start(mid, start, address, init_code, value, start.gas_limit), Self::create_outcome(mid, post, start, end, status, address, mid.gas_remaining as int)]
            Self::init_start(mid, start, address, init_code, value, start.gas_limit)
                && start.gas_limit == mid.gas_remaining - mid.gas_remaining / 64
                && Self::create_outcome(mid, post, start, end, status, address, mid.gas_remaining as int)
                && Self::runs_to(start, end, status);
        WorldState::lemma_same_equivalence(post.world, mid.world, orig.world);
        WorldState::lemma_same_equivalence(post.world, post.world, post.world);
        assert(mid.world.same_at(&orig.world, creator));
        if Self::nonce_bumped(mid.world, post.world, creator) {
            Self::lemma_nonce_bumped_same(orig.world, mid.world, post.world, post.world, creator);
        }
        Self::lemma_init_world_same(
            pre.world,
            mid.world,
            start.world,
            creator,
            start.context.address,
            value,
        );
        assert(address == Self::create_target(pre, is_create2));
        assert(Self::init_start(
            pre,
            start,
            Self::create_target(pre, is_create2),
            Self::create_init(pre),
            pre.stack@.last(),
            start.gas_limit,
        ));
        assert(Self::create_outcome(
            pre,
            post,
            start,
            end,
            status,
            Self::create_target(pre, is_create2),
            Self::create_gas_left(pre, is_create2),
        ));
    }


    /// The second half of a create: bumps the creator's nonce, derives the
    /// new address and warms it, refuses an address that holds code, moves
    /// the value, runs the init code in a child frame with all but a 64th of
    /// the gas left, and, if it succeeds and the code deposit can be paid,
    /// installs the returned code and pushes the address; otherwise the
    /// accounts (but for the raised nonce), the refund counter and the logs
    /// are rolled back and 0 is pushed.
    #[verifier::rlimit(100)]
    #[verifier::spinoff_prover]
    fn create_child(
        &mut self,
        creator: U256,
        value: U256,
        salt: U256,
        init_code: Vec<u8>,
        is_create2: bool,
    ) -> (r: Result<(), ExitStatus>)
        requires
            old(self).inv(),
            creator == old(self).context.address,
            old(self).context.depth + 1 < MAX_CALL_DEPTH,
            old(self).stack@.len() < crate::stack::STACK_LIMIT,
            value@ == 0 || old(self).world.balance(creator)@ >= value@,
            old(self).gas_remaining < u64::MAX,
        ensures
            final(self).kept(old(self)),
            r is Ok ==> final(self).inv() && final(self).gas_remaining <= old(self).gas_remaining,
            r is Err ==> final(self).halted_ok(),
            r is Ok ==> final(self).stack@.drop_last() =~= old(self).stack@
                && final(self).stack@.len() == old(self).stack@.len() + 1,
            r is Ok,
            old(self).world.code(
                Self::word_of(Self::new_address(creator, old(self).world.nonce(creator), salt, init_code@, is_create2)),
            ).len() != 0 ==> Self::create_skipped(*old(self), *final(self), true)
                && final(self).gas_remaining == old(self).gas_remaining
                && final(self).accessed_addresses.view().dom()
                == old(self).accessed_addresses.view().dom().insert(
                Self::word_of(Self::new_address(creator, old(self).world.nonce(creator), salt, init_code@, is_create2)),
            ),
            old(self).world.code(
                Self::word_of(Self::new_address(creator, old(self).world.nonce(creator), salt, init_code@, is_create2)),
            ).len() == 0 ==> exists|start: Evm, end: Evm, status: ExitStatus|
                #![trigger Self::init_start(*old(self), start, Self::new_address(creator, old(self).world.nonce(creator), salt, init_code@, is_create2), init_code@, value, start.gas_limit), Self::create_outcome(*old(self), *final(self), start, end, status, Self::new_address(creator, old(self).world.nonce(creator), salt, init_code@, is_create2), old(self).gas_remaining as int)]
                Self::init_start(
                    *old(self),
                    start,
                    Self::new_address(creator, old(self).world.nonce(creator), salt, init_code@, is_create2),
                    init_code@,
                    value,
                    start.gas_limit,
                ) && start.gas_limit == old(self).gas_remaining - old(self).gas_remaining / 64
                    && Self::create_outcome(
                    *old(self),
                    *final(self),
                    start,
                    end,
                    status,
                    Self::new_address(creator, old(self).world.nonce(creator), salt, init_code@, is_create2),
                    old(self).gas_remaining as int,
                ) && Self::runs_to(start, end, status),
            logs_extend(old(self).logs@, final(self).logs@),
            !old(self).trace ==> final(self).trace_steps@ == old(self).trace_steps@,
            trace_extends(old(self).trace_steps@, final(self).trace_steps@),
        decreases MAX_CALL_DEPTH - old(self).spec_depth(), 0int,
    {
        let ghost logs0 = self.logs@;
        let ghost address = Self::new_address(
            creator,
            old(self).world.nonce(creator),
            salt,
            init_code@,
            is_create2,
        );
        proof {
            assert(self.logs@.subrange(0, self.logs@.len() as int) =~= self.logs@);
            assert(self.trace_steps@.subrange(0, self.trace_steps@.len() as int) =~= self.trace_steps@);
        }
        let nonce = self.world.increment_nonce(creator);
        let ghost w1 = self.world;
        let snapshot = self.world.duplicate();
        proof {
            WorldState::lemma_same_equivalence(old(self).world, old(self).world, old(self).world);
            Self::lemma_nonce_bumped_same(old(self).world, old(self).world, snapshot, w1, creator);
        }
        let new_address = if is_create2 {
            create2_address(creator, salt, init_code.as_slice())
        } else {
            create_address(creator, nonce)
        };
        proof {
            assert(new_address@ == address);
            assert(exists|w: U256| w@ == address);
            crate::word::lemma_view_injective(Self::word_of(address), new_address);
            assert(Self::word_of(address) == new_address);
            assert(w1.same_at(&old(self).world, new_address) || new_address == creator);
        }
        self.accessed_addresses.insert(new_address, ());
        let existing = self.world.code_of(new_address);
        if existing.len() != 0 {
            self.world = snapshot;
            self.last_return_data = Vec::new();
            self.push_stack(U256::zero())?;
            return Ok(());
        }
        if !value.is_zero() && !self.world.transfer(creator, new_address, value) {
            self.world = snapshot;
            self.last_return_data = Vec::new();
            self.push_stack(U256::zero())?;
            return Ok(());
        }
        let forwarded_gas = max_call_gas(self.gas_remaining);
        self.charge_gas(forwarded_gas)?;
        let snapshot_accessed_addresses = self.accessed_addresses.duplicate();
        let snapshot_accessed_storage_keys = self.accessed_storage_keys.duplicate();
        let snapshot_refund = self.gas_refund;
        let child_context = FrameContext {
            address: new_address,
            caller: creator,
            callvalue: value,
            is_static: false,
            depth: self.context.depth + 1,
        };
        let child_world = self.world.duplicate();
        proof {
            if value@ != 0 && creator != new_address {
                assert(self.world.nonce(creator) == w1.nonce(creator));
            } else {
                assert(self.world.same_at(&w1, creator));
            }
            assert(child_world.same_at(&self.world, creator));
            Self::lemma_init_world_steps(
                old(self).world,
                w1,
                self.world,
                child_world,
                creator,
                new_address,
                value,
            );
        }
        let ghost budget = self.refund_budget@ - refund_per_gas() * self.gas_remaining;
        let mut child = self.spawn_child(
            init_code,
            Vec::new(),
            forwarded_gas,
            child_context,
            child_world,
            Ghost(budget),
        );
        let ghost start = child;
        proof {
            assert(start.world.nonce(creator) == (if old(self).world.nonce(creator) == u64::MAX {
                0
            } else {
                (old(self).world.nonce(creator) + 1) as u64
            }));
            assert(Self::init_start(*old(self), start, address, init_code@, value, forwarded_gas));
        }
        let child_result = child.run();
        let ghost end = child;
        self.gas_remaining = self.gas_remaining + child_result.gas_remaining;
        let success = is_success_status(&child_result.status);
        let ghost orig0 = self.original_storage.view();
        proof {
            assert(orig0 == old(self).original_storage.view());
        }
        self.merge_original_storage(&child.original_storage);
        proof {
            assert(self.original_storage.view() =~= end.original_storage.view().union_prefer_right(
                old(self).original_storage.view(),
            ));
        }
        let ghost steps0 = self.trace_steps@;
        self.trace_steps.append(&mut child.trace_steps);
        proof {
            if !self.trace {
                assert(self.trace_steps@ =~= steps0);
            }
            assert(self.trace_steps@.subrange(0, steps0.len() as int) =~= steps0);
        }
        let mut child_logs = child_result.logs;
        if success {
            let returned = child_result.status == ExitStatus::Return;
            let runtime_code = if returned {
                child_result.return_data
            } else {
                Vec::new()
            };
            let code_deposit_cost = saturating_mul(runtime_code.len() as u64, G_CREATE_CODE_DEPOSIT);
            if self.gas_remaining < code_deposit_cost {
                self.world = snapshot;
                self.accessed_addresses = snapshot_accessed_addresses;
                self.accessed_storage_keys = snapshot_accessed_storage_keys;
                self.gas_refund = snapshot_refund;
                self.gas_remaining = 0;
                self.last_return_data = Vec::new();
                self.push_stack(U256::zero())?;
                proof {
                    assert(Self::create_outcome(
                        *old(self),
                        *self,
                        start,
                        end,
                        child_result.status,
                        address,
                        old(self).gas_remaining as int,
                    ));
                    assert(Self::runs_to(start, end, child_result.status));
                }
                return Ok(());
            }
            self.charge_gas(code_deposit_cost)?;
            self.world = child.world;
            self.accessed_addresses = child.accessed_addresses;
            self.accessed_storage_keys = child.accessed_storage_keys;
            self.gas_refund = child.gas_refund;
            let ghost runtime = runtime_code@;
            self.world.deploy_code(new_address, runtime_code);
            let ghost result_logs = child_logs@;
            self.logs.append(&mut child_logs);
            proof {
                assert(self.logs@.subrange(0, logs0.len() as int) =~= logs0);
                assert forall|i: int| 0 <= i < self.logs@.len() implies same_log(
                    #[trigger] self.logs@[i],
                    (logs0 + end.logs@)[i],
                ) by {
                    if i >= logs0.len() {
                        assert(self.logs@[i] == result_logs[i - logs0.len()]);
                    }
                }
            }
            self.last_return_data = Vec::new();
            self.push_stack(new_address)?;
        } else {
            self.world = snapshot;
            self.accessed_addresses = snapshot_accessed_addresses;
            self.accessed_storage_keys = snapshot_accessed_storage_keys;
            self.gas_refund = snapshot_refund;
            self.last_return_data = if child_result.status == ExitStatus::Revert {
                child_result.return_data
            } else {
                Vec::new()
            };
            self.push_stack(U256::zero())?;
        }
        proof {
            assert(Self::create_outcome(
                        *old(self),
                        *self,
                        start,
                        end,
                        child_result.status,
                        address,
                        old(self).gas_remaining as int,
                    ));
            assert(Self::runs_to(start, end, child_result.status));
        }
        Ok(())
    }
}

} // verus!
