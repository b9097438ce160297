use evm::address::{create2_address, create_address, keccak_u256};
use evm::arith::{exp, sdiv, smod, twos_complement};
use evm::bitwise::{arithmetic_shift_right, byte_at, shift_left, shift_right, signextend};
use evm::evm::{Env, Evm, ExecutionResult, ExitStatus};
use evm::gas::{copy_cost, max_call_gas, memory_cost, words_for_range, words_for_size};
use evm::memory::Memory;
use evm::opcodes::{log_topics, opcode_name, static_gas_cost};
use evm::rlp::{rlp_encode_bytes, rlp_encode_list, rlp_encode_u64};
use evm::stack::{Stack, StackError};
use evm::storage::Storage;
use evm::text::{
    code_from_file, format_stack, format_u256, parse_hex, parse_hex_bytes, status_label, HexError,
};
use evm::word::U256;

fn word(hex: &str) -> U256 {
    let bytes = parse_hex(hex).unwrap();
    U256::from_big_endian(&bytes)
}

fn run_code(code: Vec<u8>, gas: u64) -> ExecutionResult {
    let mut vm = Evm::new(code).with_gas_limit(gas);
    vm.run()
}

fn push32(code: &mut Vec<u8>, value: U256) {
    code.push(0x7f);
    code.extend(value.to_big_endian());
}

#[test]
fn readme_example_uses_nine_gas() {
    let result = run_code(parse_hex("0x600160020100").unwrap(), 1_000_000);
    assert_eq!(result.status, ExitStatus::Stop);
    assert_eq!(result.stack, vec![U256::from_u64(3)]);
    assert_eq!(result.gas_used, 9);
    assert_eq!(result.gas_remaining, 1_000_000 - 9);
    let without_stop = run_code(parse_hex("0x6001600201").unwrap(), 1_000_000);
    assert_eq!(without_stop.status, ExitStatus::Stop);
    assert_eq!(without_stop.gas_used, 9);
}

#[test]
fn gas_used_and_remaining_add_up_to_the_limit() {
    for code in [
        vec![0x60, 0x01, 0x60, 0x02, 0x01, 0x00],
        vec![0x60, 0x00, 0x56],
        vec![0x60, 0x2a, 0x60, 0x00, 0x52, 0x60, 0x20, 0x60, 0x00, 0xfd],
    ] {
        let result = run_code(code, 50_000);
        assert_eq!(result.gas_used + result.gas_remaining, 50_000);
    }
}

#[test]
fn exceptional_halt_uses_all_gas() {
    let result = run_code(vec![0x60, 0x03, 0x56, 0x00], 10_000);
    assert_eq!(result.status, ExitStatus::BadJumpDestination(3));
    assert_eq!(result.gas_remaining, 0);
    assert_eq!(result.gas_used, 10_000);

    let underflow = run_code(vec![0x01], 10_000);
    assert_eq!(underflow.status, ExitStatus::StackUnderflow);
    assert_eq!(underflow.gas_remaining, 0);
    assert!(underflow.stack.is_empty());
}

#[test]
fn revert_keeps_unused_gas() {
    let result = run_code(vec![0x60, 0x00, 0x60, 0x00, 0xfd], 10_000);
    assert_eq!(result.status, ExitStatus::Revert);
    assert_eq!(result.gas_used, 6);
    assert!(result.return_data.is_empty());
}

#[test]
fn sstore_without_change_earns_no_refund() {
    let code = vec![
        0x60, 0x01, 0x60, 0x00, 0x55, // slot 0 = 1 (cold, fresh)
        0x60, 0x01, 0x60, 0x00, 0x55, // slot 0 = 1 again (warm, no change)
        0x00,
    ];
    let result = run_code(code, 100_000);
    assert_eq!(result.status, ExitStatus::Stop);
    assert_eq!(result.gas_used, 22_100 + 100 + 12);
}

#[test]
fn sstore_needs_more_than_the_stipend() {
    let code = vec![0x60, 0x01, 0x60, 0x00, 0x55, 0x00];
    let result = run_code(code, 2_306);
    assert_eq!(result.status, ExitStatus::OutOfGas);
    assert_eq!(result.gas_remaining, 0);
}

#[test]
fn word_instructions_compute_modulo_two_to_the_256() {
    // ADDMOD (10 + 10) % 8, MULMOD (10 * 10) % 7, EXP 2 ** 10, LT, SLT.
    let code = vec![
        0x60, 0x08, 0x60, 0x0a, 0x60, 0x0a, 0x08, // ADDMOD
        0x60, 0x07, 0x60, 0x0a, 0x60, 0x0a, 0x09, // MULMOD
        0x60, 0x02, 0x60, 0x0a, 0x0a, // EXP
        0x60, 0x01, 0x60, 0x02, 0x10, // 1 < 2
        0x00,
    ];
    let result = run_code(code, 100_000);
    assert_eq!(result.status, ExitStatus::Stop);
    assert_eq!(
        result.stack,
        vec![
            U256::from_u64(4),
            U256::from_u64(2),
            U256::from_u64(1024),
            U256::one()
        ]
    );
}

#[test]
fn mulmod_uses_the_full_product() {
    let mut code = Vec::new();
    code.extend([0x60, 0x07]);
    push32(&mut code, U256::max_value());
    push32(&mut code, U256::max_value());
    code.extend([0x09, 0x00]);
    let result = run_code(code, 100_000);
    // (2^256 - 1)^2 mod 7: 2^256 mod 7 = 2, so (2 - 1)^2 = 1.
    assert_eq!(result.stack, vec![U256::one()]);
}

#[test]
fn signed_comparison_reads_twos_complement() {
    let minus_one = U256::max_value();
    let mut code = Vec::new();
    push32(&mut code, minus_one);
    code.extend([0x60, 0x01, 0x12, 0x00]); // -1 < 1
    let result = run_code(code, 100_000);
    assert_eq!(result.stack, vec![U256::one()]);
}

#[test]
fn exp_charges_fifty_per_exponent_byte() {
    // 256 ** 2 with a one-byte exponent: PUSH2 3, PUSH1 3, EXP 10 + 50.
    let code = vec![0x61, 0x01, 0x00, 0x60, 0x02, 0x0a, 0x00];
    let result = run_code(code, 100_000);
    assert_eq!(result.stack, vec![U256::from_u64(65_536)]);
    assert_eq!(result.gas_used, 3 + 3 + 10 + 50);
    // 2 ** 256 wraps to zero, with a two-byte exponent.
    let code = vec![0x60, 0x02, 0x61, 0x01, 0x00, 0x0a, 0x00];
    let result = run_code(code, 100_000);
    assert_eq!(result.stack, vec![U256::zero()]);
    assert_eq!(result.gas_used, 3 + 3 + 10 + 100);
}

#[test]
fn memory_size_counts_words_touched() {
    let code = vec![0x60, 0xff, 0x60, 0x00, 0x53, 0x59, 0x00];
    let result = run_code(code, 100_000);
    assert_eq!(result.stack, vec![U256::from_u64(32)]);
    // PUSH1 3, PUSH1 3, MSTORE8 3 + 3 (one word), MSIZE 2.
    assert_eq!(result.gas_used, 14);
}

#[test]
fn mstore_then_mload_reads_the_word_back() {
    let value = word("0x0102030405060708090a0b0c0d0e0f101112131415161718191a1b1c1d1e1f20");
    let mut code = Vec::new();
    push32(&mut code, value);
    code.extend([0x60, 0x05, 0x52, 0x60, 0x05, 0x51, 0x00]);
    let result = run_code(code, 100_000);
    assert_eq!(result.stack, vec![value]);
}

#[test]
fn calldataload_pads_with_zeros() {
    let code = vec![0x60, 0x01, 0x35, 0x00];
    let mut vm = Evm::new(code)
        .with_gas_limit(100_000)
        .with_calldata(vec![0x11, 0x22, 0x33]);
    let result = vm.run();
    let bytes = result.stack[0].to_big_endian();
    assert_eq!(bytes[0], 0x22);
    assert_eq!(bytes[1], 0x33);
    assert!(bytes[2..].iter().all(|b| *b == 0));
}

#[test]
fn sha3_hashes_memory() {
    // KECCAK256 of no bytes.
    let code = vec![0x60, 0x00, 0x60, 0x00, 0x20, 0x00];
    let result = run_code(code, 100_000);
    assert_eq!(
        result.stack,
        vec![word("0xc5d2460186f7233c927e7db2dcc703c0e500b653ca82273b7bfad8045d85a470")]
    );
    assert_eq!(result.gas_used, 3 + 3 + 30);
}

#[test]
fn keccak_of_empty_input() {
    assert_eq!(
        keccak_u256(&[]),
        word("0xc5d2460186f7233c927e7db2dcc703c0e500b653ca82273b7bfad8045d85a470")
    );
}

#[test]
fn create_address_follows_rlp_of_sender_and_nonce() {
    let sender = word("0x6ac7ea33f8831ea9dcc53393aaa88b25a785dbf0");
    assert_eq!(
        create_address(sender, 0),
        word("0xcd234a471b72ba2f1ccf0a70fcaba648a5eecd8d")
    );
    assert_eq!(
        create_address(sender, 1),
        word("0x343c43a37d37dff08ae8c4a11544c718abb4fcf8")
    );
    assert_eq!(
        create_address(sender, 2),
        word("0xf778b86fa74e846c4f0a1fbd1335fe81c00a0c91")
    );
}

#[test]
fn create2_address_follows_eip_1014() {
    assert_eq!(
        create2_address(U256::zero(), U256::zero(), &[0x00]),
        word("0x4d1a2e2bb4f88f0250f26ffff098b0b30b26bf38")
    );
    assert_eq!(
        create2_address(
            word("0xdeadbeef00000000000000000000000000000000"),
            U256::zero(),
            &[0x00]
        ),
        word("0xb928f69bb1d91cd65274e3c79d8986362984fda3")
    );
}

#[test]
fn log_records_topics_and_data() {
    let code = vec![
        0x60, 0xab, 0x60, 0x00, 0x53, // MSTORE8(0, 0xab)
        0x60, 0x07, // topic
        0x60, 0x01, 0x60, 0x00, // size 1, offset 0
        0xa1, // LOG1
        0x00,
    ];
    let result = run_code(code, 100_000);
    assert_eq!(result.status, ExitStatus::Stop);
    assert_eq!(result.logs.len(), 1);
    assert_eq!(result.logs[0].address, U256::zero());
    assert_eq!(result.logs[0].topics, vec![U256::from_u64(7)]);
    assert_eq!(result.logs[0].data, vec![0xab]);
}

#[test]
fn staticcall_refuses_state_changes() {
    let callee = vec![0x60, 0x01, 0x60, 0x00, 0x55, 0x00];
    let caller = vec![
        0x60, 0x00, 0x60, 0x00, 0x60, 0x00, 0x60, 0x00, // out, in
        0x60, 0x01, // to
        0x61, 0xff, 0xff, // gas
        0xfa, // STATICCALL
        0x00,
    ];
    let mut vm = Evm::new(caller)
        .with_gas_limit(200_000)
        .with_external_code(U256::from_u64(1), callee);
    let result = vm.run();
    assert_eq!(result.status, ExitStatus::Stop);
    assert_eq!(result.stack, vec![U256::zero()]);
}

#[test]
fn call_with_value_beyond_balance_pushes_zero() {
    let caller = vec![
        0x60, 0x00, 0x60, 0x00, 0x60, 0x00, 0x60, 0x00, // out, in
        0x60, 0x05, // value
        0x60, 0x01, // to
        0x61, 0xff, 0xff, // gas
        0xf1, // CALL
        0x00,
    ];
    let result = run_code(caller, 200_000);
    assert_eq!(result.status, ExitStatus::Stop);
    assert_eq!(result.stack, vec![U256::zero()]);
}

#[test]
fn call_moves_value_to_the_callee() {
    let callee = vec![0x47, 0x60, 0x00, 0x52, 0x60, 0x20, 0x60, 0x00, 0xf3]; // SELFBALANCE
    let caller = vec![
        0x60, 0x20, 0x60, 0x00, 0x60, 0x00, 0x60, 0x00, // out 32 at 0, no input
        0x60, 0x05, // value
        0x60, 0x01, // to
        0x61, 0xff, 0xff, // gas
        0xf1, // CALL
        0x60, 0x00, 0x51, // MLOAD(0)
        0x47, // SELFBALANCE
        0x00,
    ];
    let mut vm = Evm::new(caller)
        .with_gas_limit(500_000)
        .with_account_balance(U256::zero(), U256::from_u64(100))
        .with_external_code(U256::from_u64(1), callee);
    let result = vm.run();
    assert_eq!(result.status, ExitStatus::Stop);
    assert_eq!(
        result.stack,
        vec![U256::one(), U256::from_u64(5), U256::from_u64(95)]
    );
}

#[test]
fn environment_values_are_pushed() {
    let mut env = Env::default();
    env.address = U256::from_u64(0x1234);
    env.caller = U256::from_u64(0x99);
    env.origin = U256::from_u64(0x77);
    env.chain_id = U256::from_u64(5);
    env.block_hashes.insert(U256::from_u64(7), U256::from_u64(0xbeef));
    let code = vec![
        0x30, // ADDRESS
        0x33, // CALLER
        0x32, // ORIGIN
        0x46, // CHAINID
        0x60, 0x07, 0x40, // BLOCKHASH(7)
        0x60, 0x08, 0x40, // BLOCKHASH(8)
        0x00,
    ];
    let mut vm = Evm::new(code).with_gas_limit(100_000).with_env(env);
    let result = vm.run();
    assert_eq!(result.status, ExitStatus::Stop);
    assert_eq!(
        result.stack,
        vec![
            U256::from_u64(0x1234),
            U256::from_u64(0x99),
            U256::from_u64(0x77),
            U256::from_u64(5),
            U256::from_u64(0xbeef),
            U256::zero()
        ]
    );
}

#[test]
fn balance_reads_the_world() {
    let code = vec![0x60, 0x0a, 0x31, 0x00];
    let mut vm = Evm::new(code)
        .with_gas_limit(100_000)
        .with_account_balance(U256::from_u64(10), U256::from_u64(12345));
    let result = vm.run();
    assert_eq!(result.stack, vec![U256::from_u64(12345)]);
    // PUSH1 3, BALANCE 100 + 2500 cold.
    assert_eq!(result.gas_used, 2_603);
}

#[test]
fn selfdestruct_stops_the_frame() {
    let result = run_code(vec![0x60, 0x01, 0xff], 100_000);
    assert_eq!(result.status, ExitStatus::SelfDestruct);
    // PUSH1 3, SELFDESTRUCT 5000 + 100 for the warm precompile.
    assert_eq!(result.gas_used, 5_103);
}

#[test]
fn unknown_byte_is_an_invalid_opcode() {
    let result = run_code(vec![0x0c], 100);
    assert_eq!(result.status, ExitStatus::InvalidOpcode(0x0c));
    assert_eq!(result.gas_remaining, 0);
}

#[test]
fn jump_into_push_data_fails() {
    // The data byte of the first push (position 1) is 0x5b but no destination.
    let code = vec![0x60, 0x5b, 0x60, 0x01, 0x56];
    let result = run_code(code, 100_000);
    assert_eq!(result.status, ExitStatus::BadJumpDestination(1));
}

#[test]
fn trace_records_every_step() {
    let mut vm = Evm::new(vec![0x60, 0x01, 0x60, 0x02, 0x01, 0x00])
        .with_gas_limit(1_000)
        .with_trace(true);
    let result = vm.run();
    assert_eq!(result.status, ExitStatus::Stop);
    let steps = vm.trace_steps();
    assert_eq!(steps.len(), 4);
    assert_eq!(steps[0].pc, 0);
    assert_eq!(steps[0].opcode, 0x60);
    assert_eq!(steps[0].gas_remaining, 997);
    assert_eq!(steps[2].pc, 4);
    assert_eq!(steps[2].stack, vec![U256::from_u64(1), U256::from_u64(2)]);
    assert_eq!(steps[3].depth, 0);
}

#[test]
fn trace_is_off_by_default() {
    let mut vm = Evm::new(vec![0x60, 0x01, 0x00]);
    let _ = vm.run();
    assert!(vm.trace_steps().is_empty());
}

#[test]
fn create2_then_call_deployed_code() {
    // Init code returns the runtime code 0x602a60005260206000f3 (returns 42).
    let runtime = [0x60, 0x2a, 0x60, 0x00, 0x52, 0x60, 0x20, 0x60, 0x00, 0xf3];
    let mut init = vec![0x69];
    init.extend(runtime);
    init.extend([0x60, 0x00, 0x52, 0x60, 0x0a, 0x60, 0x16, 0xf3]);
    let mut code = Vec::new();
    // Store the init code at memory 0 byte by byte.
    for (i, b) in init.iter().enumerate() {
        code.extend([0x60, *b, 0x60, i as u8, 0x53]);
    }
    code.extend([
        0x60, 0x00, // salt
        0x60, init.len() as u8, // size
        0x60, 0x00, // offset
        0x60, 0x00, // value
        0xf5, // CREATE2
        0x80, 0x3b, // EXTCODESIZE of the new account
        0x00,
    ]);
    let result = run_code(code, 1_000_000);
    assert_eq!(result.status, ExitStatus::Stop);
    assert_eq!(result.stack.len(), 2);
    assert_eq!(
        result.stack[0],
        create2_address(U256::zero(), U256::zero(), &init)
    );
    assert_eq!(result.stack[1], U256::from_u64(10));
}

#[test]
fn arithmetic_helpers_match_the_yellow_paper() {
    let minus = |n: u64| twos_complement(U256::from_u64(n));
    assert_eq!(sdiv(minus(7), U256::from_u64(2)), minus(3));
    assert_eq!(smod(minus(7), U256::from_u64(3)), minus(1));
    assert_eq!(sdiv(U256::from_u64(7), U256::zero()), U256::zero());
    let min = shift_left(U256::from_u64(255), U256::one());
    assert_eq!(sdiv(min, U256::max_value()), min);
    assert_eq!(exp(U256::from_u64(3), U256::from_u64(5)), U256::from_u64(243));
    assert_eq!(exp(U256::from_u64(2), U256::from_u64(256)), U256::zero());
    assert_eq!(signextend(U256::zero(), U256::from_u64(0xff)), U256::max_value());
    assert_eq!(signextend(U256::zero(), U256::from_u64(0x7f)), U256::from_u64(0x7f));
    assert_eq!(byte_at(U256::from_u64(31), U256::from_u64(0x1234)), U256::from_u64(0x34));
    assert_eq!(byte_at(U256::from_u64(32), U256::from_u64(0x1234)), U256::zero());
    assert_eq!(shift_right(U256::from_u64(4), U256::from_u64(0x100)), U256::from_u64(0x10));
    assert_eq!(shift_left(U256::from_u64(256), U256::one()), U256::zero());
    assert_eq!(arithmetic_shift_right(minus(16), 2), minus(4));
    assert_eq!(arithmetic_shift_right(U256::from_u64(16), 300), U256::zero());
    assert_eq!(arithmetic_shift_right(minus(16), 300), U256::max_value());
}

#[test]
fn gas_formulas() {
    assert_eq!(words_for_size(0), 0);
    assert_eq!(words_for_size(1), 1);
    assert_eq!(words_for_size(33), 2);
    assert_eq!(words_for_range(10, 0), 0);
    assert_eq!(words_for_range(30, 4), 2);
    assert_eq!(memory_cost(1), 3);
    assert_eq!(memory_cost(32), 98);
    assert_eq!(memory_cost(1024), 3 * 1024 + 2048);
    assert_eq!(copy_cost(64), 6);
    assert_eq!(max_call_gas(6_400), 6_300);
    assert_eq!(max_call_gas(63), 63);
}

#[test]
fn opcode_tables() {
    assert_eq!(opcode_name(0x01), "ADD");
    assert_eq!(opcode_name(0x60), "PUSH1");
    assert_eq!(opcode_name(0x7f), "PUSH32");
    assert_eq!(opcode_name(0x80), "DUP1");
    assert_eq!(opcode_name(0x9f), "SWAP16");
    assert_eq!(opcode_name(0x20), "SHA3");
    assert_eq!(opcode_name(0x0c), "UNKNOWN(0x0c)");
    assert_eq!(opcode_name(0xa0), "LOG0");
    assert_eq!(opcode_name(0xa4), "LOG4");
    assert_eq!(static_gas_cost(0x00), 0);
    assert_eq!(static_gas_cost(0x01), 3);
    assert_eq!(static_gas_cost(0xa2), 1125);
    assert_eq!(static_gas_cost(0xf1), 700);
    assert_eq!(log_topics(0xa3), Some(3));
    assert_eq!(log_topics(0xa5), None);
}

#[test]
fn rlp_encodings() {
    assert_eq!(rlp_encode_bytes(&[0x7f]), vec![0x7f]);
    assert_eq!(rlp_encode_bytes(&[0x80]), vec![0x81, 0x80]);
    assert_eq!(rlp_encode_bytes(&[]), vec![0x80]);
    assert_eq!(rlp_encode_u64(0), vec![0x80]);
    assert_eq!(rlp_encode_u64(15), vec![0x0f]);
    assert_eq!(rlp_encode_u64(1024), vec![0x82, 0x04, 0x00]);
    assert_eq!(rlp_encode_list(&[vec![0x80], vec![0x01]]), vec![0xc2, 0x80, 0x01]);
    let long = vec![0xaa; 56];
    let encoded = rlp_encode_bytes(&long);
    assert_eq!(&encoded[0..2], &[0xb8, 56]);
    assert_eq!(encoded.len(), 58);
}

#[test]
fn words_format_without_leading_zeros() {
    assert_eq!(format_u256(U256::zero()), "0x0");
    assert_eq!(format_u256(U256::from_u64(3)), "0x3");
    assert_eq!(format_u256(U256::from_u64(0x2a)), "0x2a");
    assert_eq!(format_u256(U256::from_u64(0x100)), "0x100");
    assert_eq!(format_u256(U256::max_value()), format!("0x{}", "f".repeat(64)));
    assert_eq!(format_stack(&[]), "[]");
    assert_eq!(
        format_stack(&[U256::one(), U256::from_u64(0x2a)]),
        "[0x1, 0x2a]"
    );
}

#[test]
fn status_labels() {
    assert_eq!(status_label(&ExitStatus::Stop), "STOP");
    assert_eq!(status_label(&ExitStatus::Return), "RETURN");
    assert_eq!(status_label(&ExitStatus::Revert), "REVERT");
    assert_eq!(status_label(&ExitStatus::SelfDestruct), "SELFDESTRUCT");
    assert_eq!(status_label(&ExitStatus::OutOfGas), "OUT_OF_GAS");
    assert_eq!(status_label(&ExitStatus::StackOverflow), "STACK_OVERFLOW");
    assert_eq!(status_label(&ExitStatus::StackUnderflow), "STACK_UNDERFLOW");
    assert_eq!(
        status_label(&ExitStatus::BadJumpDestination(4)),
        "BAD_JUMP_DESTINATION"
    );
    assert_eq!(status_label(&ExitStatus::InvalidOpcode(0xfe)), "INVALID_OPCODE");
    assert_eq!(status_label(&ExitStatus::ReturnDataOutOfBounds), "RETURNDATA_OOB");
    assert_eq!(
        status_label(&ExitStatus::StaticModeViolation),
        "STATIC_MODE_VIOLATION"
    );
}

#[test]
fn hex_input_is_parsed() {
    assert_eq!(parse_hex("0x"), Ok(vec![]));
    assert_eq!(parse_hex(""), Ok(vec![]));
    assert_eq!(parse_hex("  0x0a0B \n"), Ok(vec![0x0a, 0x0b]));
    assert_eq!(parse_hex("0Xff"), Ok(vec![0xff]));
    assert_eq!(parse_hex("abc"), Ok(vec![0x0a, 0xbc]));
    assert_eq!(parse_hex("\u{a0}6001\u{3000}"), Ok(vec![0x60, 0x01]));
    assert_eq!(
        parse_hex("0xzz"),
        Err(HexError::InvalidHexCharacter { c: 'z', index: 0 })
    );
    assert_eq!(
        parse_hex("0x12g4"),
        Err(HexError::InvalidHexCharacter { c: 'g', index: 2 })
    );
    assert_eq!(
        parse_hex("123g"),
        Err(HexError::InvalidHexCharacter { c: 'g', index: 3 })
    );
    assert_eq!(parse_hex_bytes(b"0x1"), Ok(vec![0x01]));
    assert_eq!(
        parse_hex_bytes(b" 1"),
        Err(HexError::InvalidHexCharacter { c: ' ', index: 0 })
    );
}

#[test]
fn file_contents_are_hex_text_or_raw_bytes() {
    assert_eq!(
        code_from_file(b"60 01\n60 02\t01\n".to_vec()),
        Ok(vec![0x60, 0x01, 0x60, 0x02, 0x01])
    );
    assert_eq!(code_from_file(b"0x600100".to_vec()), Ok(vec![0x60, 0x01, 0x00]));
    assert_eq!(code_from_file(vec![0x60, 0x01, 0x00]), Ok(vec![0x60, 0x01, 0x00]));
    assert_eq!(code_from_file(vec![0xff, 0xfe]), Ok(vec![0xff, 0xfe]));
    assert_eq!(code_from_file(b" \n".to_vec()), Ok(b" \n".to_vec()));
    assert_eq!(
        code_from_file(b"0x6x".to_vec()),
        Err(HexError::InvalidHexCharacter { c: 'x', index: 1 })
    );
}

#[test]
fn memory_reads_what_was_written() {
    let mut memory = Memory::new();
    assert!(memory.is_empty());
    memory.write_slice(3, &[1, 2, 3]);
    assert_eq!(memory.len(), 6);
    assert_eq!(memory.read_slice(2, 5), vec![0, 1, 2, 3, 0]);
    assert_eq!(memory.len(), 7);
    assert_eq!(memory.read_slice(100, 0), Vec::<u8>::new());
    assert_eq!(memory.len(), 7);
    let value = U256::from_u64(0xdead_beef);
    memory.mstore(40, value);
    assert_eq!(memory.mload(40), value);
    assert_eq!(memory.len(), 72);
    memory.mstore8(0, U256::from_u64(0x1ff));
    assert_eq!(memory.read_slice(0, 1), vec![0xff]);
    memory.mcopy(1, 3, 3);
    assert_eq!(memory.read_slice(0, 6), vec![0xff, 1, 2, 3, 2, 3]);
}

#[test]
fn stack_limits_and_errors() {
    let mut stack = Stack::new();
    assert!(stack.is_empty());
    assert_eq!(stack.pop(), Err(StackError::Underflow));
    for i in 0..1024u64 {
        assert_eq!(stack.push(U256::from_u64(i)), Ok(()));
    }
    assert_eq!(stack.push(U256::zero()), Err(StackError::Overflow));
    assert_eq!(stack.len(), 1024);
    assert_eq!(stack.peek(0), Ok(U256::from_u64(1023)));
    assert_eq!(stack.dup(1), Err(StackError::Overflow));
    assert_eq!(stack.pop(), Ok(U256::from_u64(1023)));
    assert_eq!(stack.dup(2), Ok(()));
    assert_eq!(stack.peek(0), Ok(U256::from_u64(1021)));
    assert_eq!(stack.swap(1), Ok(()));
    assert_eq!(stack.peek(0), Ok(U256::from_u64(1022)));
    assert_eq!(stack.peek(1), Ok(U256::from_u64(1021)));
    assert_eq!(stack.dup(0), Err(StackError::InvalidDepth));
    assert_eq!(stack.swap(17), Err(StackError::InvalidDepth));
    let mut small = Stack::new();
    small.push(U256::one()).unwrap();
    assert_eq!(small.swap(1), Err(StackError::Underflow));
    assert_eq!(small.dup(2), Err(StackError::Underflow));
    assert_eq!(small.as_slice(), &[U256::one()]);
}

#[test]
fn storage_reads_back_writes() {
    let mut storage = Storage::new();
    assert!(storage.is_empty());
    assert_eq!(storage.load(U256::one()), U256::zero());
    storage.store(U256::one(), U256::from_u64(9));
    storage.store(U256::from_u64(2), U256::from_u64(8));
    storage.store(U256::one(), U256::from_u64(7));
    assert_eq!(storage.load(U256::one()), U256::from_u64(7));
    assert_eq!(storage.load(U256::from_u64(2)), U256::from_u64(8));
    assert!(!storage.is_empty());
}

#[test]
fn adding_then_subtracting_restores_the_word() {
    let mut code = Vec::new();
    push32(&mut code, U256::max_value());
    code.extend([0x60, 0x05, 0x01]); // MAX + 5 wraps to 4
    code.extend([0x60, 0x05, 0x03, 0x00]); // 4 - 5 wraps back to MAX
    let result = run_code(code, 100_000);
    assert_eq!(result.stack, vec![U256::max_value()]);
}

#[test]
fn negating_twice_restores_the_word() {
    for n in [0u64, 1, 2, 0x8000_0000_0000_0000, u64::MAX] {
        let x = U256::from_u64(n);
        assert_eq!(twos_complement(twos_complement(x)), x);
    }
    assert_eq!(twos_complement(U256::zero()), U256::zero());
    assert_eq!(twos_complement(U256::one()), U256::max_value());
}

#[test]
fn refund_below_the_cap_is_paid_in_full() {
    let code = vec![
        0x60, 0x01, 0x60, 0x00, 0x55, // slot 0 = 1: 22_100
        0x60, 0x00, 0x60, 0x00, 0x55, // slot 0 = 0 again: 100, refund 19_900
        0x60, 0x00, 0x62, 0x04, 0x00, 0x00, 0x52, // MSTORE at 0x40000: 3 + 155_683
        0x00,
    ];
    let result = run_code(code, 1_000_000);
    assert_eq!(result.status, ExitStatus::Stop);
    assert_eq!(result.gas_used, 177_904 - 19_900);
    assert_eq!(result.gas_used + result.gas_remaining, 1_000_000);
}

#[test]
fn failed_call_rolls_back_its_writes() {
    // The callee writes slot 0 and then reverts.
    let callee = vec![0x60, 0x07, 0x60, 0x00, 0x55, 0x60, 0x00, 0x60, 0x00, 0xfd];
    let caller = vec![
        0x60, 0x00, 0x60, 0x00, 0x60, 0x00, 0x60, 0x00, // out, in
        0x60, 0x00, // value
        0x60, 0x01, // to
        0x62, 0x01, 0x00, 0x00, // gas
        0xf2, // CALLCODE: the callee runs on this account's storage
        0x60, 0x00, 0x54, // SLOAD(0)
        0x00,
    ];
    let mut vm = Evm::new(caller)
        .with_gas_limit(500_000)
        .with_external_code(U256::from_u64(1), callee);
    let result = vm.run();
    assert_eq!(result.status, ExitStatus::Stop);
    assert_eq!(result.stack, vec![U256::zero(), U256::zero()]);
}

#[test]
fn successful_callcode_keeps_its_writes() {
    let callee = vec![0x60, 0x07, 0x60, 0x00, 0x55, 0x00];
    let caller = vec![
        0x60, 0x00, 0x60, 0x00, 0x60, 0x00, 0x60, 0x00, // out, in
        0x60, 0x00, // value
        0x60, 0x01, // to
        0x62, 0x01, 0x00, 0x00, // gas
        0xf2, // CALLCODE
        0x60, 0x00, 0x54, // SLOAD(0)
        0x00,
    ];
    let mut vm = Evm::new(caller)
        .with_gas_limit(500_000)
        .with_external_code(U256::from_u64(1), callee);
    let result = vm.run();
    assert_eq!(result.status, ExitStatus::Stop);
    assert_eq!(result.stack, vec![U256::one(), U256::from_u64(7)]);
}

#[test]
fn create_in_a_static_frame_is_refused() {
    // STATICCALL into code that runs CREATE: the child fails, the call pushes 0.
    let callee = vec![0x60, 0x00, 0x60, 0x00, 0x60, 0x00, 0xf0, 0x00];
    let caller = vec![
        0x60, 0x00, 0x60, 0x00, 0x60, 0x00, 0x60, 0x00, // out, in
        0x60, 0x01, // to
        0x62, 0x01, 0x00, 0x00, // gas
        0xfa, // STATICCALL
        0x00,
    ];
    let mut vm = Evm::new(caller)
        .with_gas_limit(500_000)
        .with_external_code(U256::from_u64(1), callee);
    let result = vm.run();
    assert_eq!(result.stack, vec![U256::zero()]);
}

#[test]
fn call_charges_access_and_returns_unused_gas() {
    // A call to a cold account without code: 700 static, 2600 for the cold
    // access, and the forwarded gas comes back untouched.
    let caller = vec![
        0x60, 0x00, 0x60, 0x00, 0x60, 0x00, 0x60, 0x00, // out, in
        0x60, 0x00, // value
        0x60, 0x42, // to
        0x61, 0xff, 0xff, // gas
        0xf1, // CALL
        0x00,
    ];
    let result = run_code(caller, 500_000);
    assert_eq!(result.status, ExitStatus::Stop);
    assert_eq!(result.stack, vec![U256::one()]);
    assert_eq!(result.gas_used, 18 + 3 + 700 + 2600);
}

#[test]
fn call_to_failing_code_loses_the_forwarded_gas() {
    let caller = vec![
        0x60, 0x00, 0x60, 0x00, 0x60, 0x00, 0x60, 0x00, // out, in
        0x60, 0x00, // value
        0x60, 0x42, // to
        0x61, 0xff, 0xff, // gas
        0xf1, // CALL
        0x00,
    ];
    let mut vm = Evm::new(caller)
        .with_gas_limit(500_000)
        .with_external_code(U256::from_u64(0x42), vec![0xfe]);
    let result = vm.run();
    assert_eq!(result.status, ExitStatus::Stop);
    assert_eq!(result.stack, vec![U256::zero()]);
    assert_eq!(result.gas_used, 3321 + 0xffff);
}

#[test]
fn call_forwards_at_most_all_but_a_64th() {
    let caller = vec![
        0x60, 0x00, 0x60, 0x00, 0x60, 0x00, 0x60, 0x00, // out, in
        0x60, 0x00, // value
        0x60, 0x42, // to
        0x62, 0xff, 0xff, 0xff, // gas: more than is left
        0xf1, // CALL
        0x00,
    ];
    let mut vm = Evm::new(caller)
        .with_gas_limit(100_000)
        .with_external_code(U256::from_u64(0x42), vec![0xfe]);
    let result = vm.run();
    assert_eq!(result.stack, vec![U256::zero()]);
    // 96679 gas left at the call; the callee gets all but 1510 of it.
    assert_eq!(result.gas_remaining, 96_679 / 64);
    assert_eq!(result.gas_used, 100_000 - 96_679 / 64);
}

#[test]
fn create_charges_init_code_words_and_code_deposit() {
    // Init code: MSTORE8(0, 0) then RETURN(0, 1), deploying one byte.
    let init = [0x60, 0x00, 0x60, 0x00, 0x53, 0x60, 0x01, 0x60, 0x00, 0xf3];
    let mut caller = vec![0x69];
    caller.extend_from_slice(&init); // PUSH10 init
    caller.extend_from_slice(&[0x60, 0x00, 0x52]); // MSTORE at 0: bytes 22..32
    caller.extend_from_slice(&[0x60, 0x0a, 0x60, 0x16, 0x60, 0x00, 0xf0]); // CREATE
    caller.push(0x3b); // EXTCODESIZE of the new contract
    caller.push(0x00);
    let result = run_code(caller, 1_000_000);
    assert_eq!(result.status, ExitStatus::Stop);
    assert_eq!(result.stack, vec![U256::one()]);
    // 12 to store the init code, 9 for the operands, 32000 + 2 for CREATE,
    // 18 for the init code, 200 to deposit one byte, and EXTCODESIZE of an
    // account the create made warm.
    let extcodesize = 100;
    assert_eq!(result.gas_used, 12 + 9 + 32_000 + 2 + 18 + 200 + extcodesize);
}

#[test]
fn unicode_white_space_is_skipped_in_hex_text() {
    // U+00A0 and U+3000 have the White_Space property, as `char::is_whitespace` says.
    let text = "60\u{a0}01\u{3000}00";
    assert!('\u{a0}'.is_whitespace() && '\u{3000}'.is_whitespace());
    assert_eq!(code_from_file(text.as_bytes().to_vec()), Ok(vec![0x60, 0x01, 0x00]));
}

#[test]
fn call_stipend_is_free_to_the_caller() {
    // CALL with value 5 to an empty account: 700 static, 2600 cold access,
    // 9000 for the value, 25000 for the new account; the callee gets the
    // 2300 stipend on top of its share, and, running no code, hands it all
    // back.
    let caller = vec![
        0x60, 0x00, 0x60, 0x00, 0x60, 0x00, 0x60, 0x00, // out, in
        0x60, 0x05, // value
        0x60, 0x42, // to
        0x61, 0x03, 0xe8, // gas 1000
        0xf1, // CALL
        0x00,
    ];
    let mut vm = Evm::new(caller)
        .with_gas_limit(500_000)
        .with_account_balance(U256::zero(), U256::from_u64(100));
    let result = vm.run();
    assert_eq!(result.status, ExitStatus::Stop);
    assert_eq!(result.stack, vec![U256::one()]);
    assert_eq!(result.gas_used, 21 + 700 + 2600 + 9000 + 25000 - 2300);
}

#[test]
fn failed_create_keeps_the_raised_nonce() {
    let code = vec![
        0x60, 0xfe, 0x60, 0x00, 0x53, // MSTORE8(0, INVALID)
        0x60, 0x01, 0x60, 0x00, 0x60, 0x00, 0xf0, // CREATE with init code INVALID
        0x60, 0x00, 0x60, 0x00, 0x60, 0x00, 0xf0, // CREATE with no init code
        0x00,
    ];
    // The failed init code burns all it was handed; keep enough for the second create.
    let result = run_code(code, 5_000_000);
    assert_eq!(result.status, ExitStatus::Stop);
    assert_eq!(result.stack, vec![U256::zero(), create_address(U256::zero(), 1)]);
}

#[test]
fn memory_size_is_a_whole_number_of_words() {
    // CALLDATACOPY of 3 bytes to offset 0, then MSIZE.
    let code = vec![0x60, 0x03, 0x60, 0x00, 0x60, 0x00, 0x37, 0x59, 0x00];
    let result = run_code(code, 100_000);
    assert_eq!(result.stack, vec![U256::from_u64(32)]);
}

#[test]
fn any_gas_limit_is_accepted() {
    for gas in [9u64, 1 << 50, u64::MAX] {
        let result = run_code(vec![0x60, 0x01, 0x60, 0x02, 0x01, 0x00], gas);
        assert_eq!(result.status, ExitStatus::Stop);
        assert_eq!(result.stack, vec![U256::from_u64(3)]);
        assert_eq!(result.gas_used, 9);
        assert_eq!(result.gas_remaining, gas - 9);
    }
}

#[test]
fn memory_beyond_any_address_runs_out_of_gas() {
    // MSTORE at offset 2^64 - 1 with all the gas there is.
    let mut code = vec![0x60, 0x01, 0x67, 0xff, 0xff, 0xff, 0xff, 0xff, 0xff, 0xff, 0xff, 0x52];
    code.push(0x00);
    let result = run_code(code, u64::MAX);
    assert_eq!(result.status, ExitStatus::OutOfGas);
    assert_eq!(result.gas_remaining, 0);
    // RETURN, whose static gas is zero, at the same offset.
    let code = vec![0x60, 0x01, 0x67, 0xff, 0xff, 0xff, 0xff, 0xff, 0xff, 0xff, 0xff, 0xf3];
    let result = run_code(code, u64::MAX);
    assert_eq!(result.status, ExitStatus::OutOfGas);
}
