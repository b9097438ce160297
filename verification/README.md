# evm

An interpreter for Ethereum Virtual Machine bytecode whose behaviour is stated
in Verus contracts and proved: 256-bit arithmetic, the stack, memory, storage,
gas accounting with warm and cold accesses and refunds, jumps, logs, calls and
contract creation in nested frames, and the command-line input and output.

## Layout

- `src/word.rs`, `src/uint.rs`: words as four 64-bit limbs with their value as
  a natural number; `uint.rs` holds the calls into `primitive-types`.
- `src/arith.rs`, `src/bitwise.rs`, `src/alu.rs`: signed arithmetic, `EXP`,
  shifts, `BYTE`, `SIGNEXTEND`, and the value of every arithmetic, comparison
  and bitwise instruction.
- `src/stack.rs`, `src/memory.rs`, `src/storage.rs`, `src/assoc.rs`,
  `src/world.rs`: the machine's state and the accounts.
- `src/gas.rs`, `src/opcodes.rs`: gas constants and formulas, the static gas
  table, mnemonics.
- `src/rlp.rs`, `src/address.rs`: RLP encoding, Keccak-256 through
  `tiny-keccak`, `CREATE` and `CREATE2` addresses.
- `src/evm.rs` and `src/evm/`: frames, the instructions by family, calls and
  creates, and `Evm::run`, whose contract describes a run step by step; a
  call or create is described through the run of the frame it starts.
  `src/evm/steps.rs` states, over the frame's accessors, how a run goes on
  from its first step and what a step does for the stack instructions, jumps,
  memory loads, stores and copies, `SHA3`, `RETURN`/`REVERT`, `SLOAD`,
  `SSTORE`, `CALLDATALOAD`, the logs, the reads of the frame, the
  transaction, the block and other accounts, `SELFDESTRUCT`, and bytes that
  are no instruction, so that the outcome of such code can be derived
  outside the crate. The steps of calls and creates, which run the callee,
  are stated inside the crate only.
- `src/text.rs`: hexadecimal output and input, status labels.
- `src/laws.rs`: properties that relate several operations.
- `app/main.rs`: the `evm run` command line.
- `tests/`: scenarios from the instruction set, gas schedule and encodings.

Any 64-bit gas limit is accepted. Memory that would reach past the largest
address cannot be paid for: such an expansion runs out of gas.
