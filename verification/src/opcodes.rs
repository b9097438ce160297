//! Opcode classification, mnemonics and the static gas table.
use vstd::prelude::*;

verus! {

/// Whether `opcode` is one of `PUSH1`..`PUSH32`.
pub open spec fn spec_is_push(opcode: u8) -> bool {
    0x60 <= opcode <= 0x7f
}

/// Whether `opcode` is one of `DUP1`..`DUP16`.
pub open spec fn spec_is_dup(opcode: u8) -> bool {
    0x80 <= opcode <= 0x8f
}

/// Whether `opcode` is one of `SWAP1`..`SWAP16`.
pub open spec fn spec_is_swap(opcode: u8) -> bool {
    0x90 <= opcode <= 0x9f
}

/// Whether `opcode` is one of `PUSH1`..`PUSH32`.
pub fn is_push(opcode: u8) -> (r: bool)
    ensures
        r == spec_is_push(opcode),
{
    0x60 <= opcode && opcode <= 0x7f
}

/// The number of immediate bytes of a push opcode.
pub fn push_size(opcode: u8) -> (r: usize)
    requires
        opcode >= 0x5f,
    ensures
        r == opcode - 0x5f,
        spec_is_push(opcode) ==> 1 <= r <= 32,
{
    (opcode - 0x5f) as usize
}

/// Whether `opcode` is one of `DUP1`..`DUP16`.
pub fn is_dup(opcode: u8) -> (r: bool)
    ensures
        r == spec_is_dup(opcode),
{
    0x80 <= opcode && opcode <= 0x8f
}

/// Which stack item a dup opcode copies, counting the top as 1.
pub fn dup_index(opcode: u8) -> (r: usize)
    requires
        opcode >= 0x7f,
    ensures
        r == opcode - 0x7f,
        spec_is_dup(opcode) ==> 1 <= r <= 16,
{
    (opcode - 0x7f) as usize
}

/// Whether `opcode` is one of `SWAP1`..`SWAP16`.
pub fn is_swap(opcode: u8) -> (r: bool)
    ensures
        r == spec_is_swap(opcode),
{
    0x90 <= opcode && opcode <= 0x9f
}

/// How deep below the top a swap opcode reaches.
pub fn swap_index(opcode: u8) -> (r: usize)
    requires
        opcode >= 0x8f,
    ensures
        r == opcode - 0x8f,
        spec_is_swap(opcode) ==> 1 <= r <= 16,
{
    (opcode - 0x8f) as usize
}

/// The number of topics of a log opcode, if `opcode` is `LOG0`..`LOG4`.
pub open spec fn spec_log_topics(opcode: u8) -> Option<usize> {
    if 0xa0 <= opcode <= 0xa4 {
        Some((opcode - 0xa0) as usize)
    } else {
        None
    }
}

/// The number of topics of a log opcode, if `opcode` is `LOG0`..`LOG4`.
pub fn log_topics(opcode: u8) -> (r: Option<usize>)
    ensures
        r == spec_log_topics(opcode),
{
    match opcode {
        0xa0 => Some(0),
        0xa1 => Some(1),
        0xa2 => Some(2),
        0xa3 => Some(3),
        0xa4 => Some(4),
        _ => None,
    }
}

/// The gas every execution of `opcode` costs before any dynamic charge.
pub open spec fn spec_static_gas_cost(opcode: u8) -> u64 {
    if opcode == 0x00 || opcode == 0xf3 || opcode == 0xfd || opcode == 0x55 {
        0
    } else if opcode == 0x01 || opcode == 0x03 || (0x10 <= opcode <= 0x1d) || opcode == 0x35
        || opcode == 0x37 || opcode == 0x39 || opcode == 0x3e || opcode == 0x51 || opcode == 0x52
        || opcode == 0x53 || opcode == 0x5e || (0x60 <= opcode <= 0x9f) {
        3
    } else if opcode == 0x02 || (0x04 <= opcode <= 0x07) || opcode == 0x0b {
        5
    } else if opcode == 0x08 || opcode == 0x09 || opcode == 0x56 {
        8
    } else if opcode == 0x0a || opcode == 0x57 {
        10
    } else if opcode == 0x20 {
        30
    } else if opcode == 0x30 || opcode == 0x32 || opcode == 0x33 || opcode == 0x34 || opcode
        == 0x36 || opcode == 0x38 || opcode == 0x3a || opcode == 0x3d || (0x41 <= opcode <= 0x48)
        || opcode == 0x50 || (0x58 <= opcode <= 0x5a) {
        2
    } else if opcode == 0x31 || opcode == 0x3b || opcode == 0x3c || opcode == 0x3f || opcode
        == 0x54 {
        100
    } else if opcode == 0x40 {
        20
    } else if opcode == 0x5b {
        1
    } else if 0xa0 <= opcode <= 0xa4 {
        (375 * (opcode - 0x9f)) as u64
    } else if opcode == 0xf0 || opcode == 0xf5 {
        32000
    } else if opcode == 0xf1 || opcode == 0xf2 || opcode == 0xf4 || opcode == 0xfa {
        700
    } else if opcode == 0xff {
        5000
    } else {
        0
    }
}

/// The gas every execution of `opcode` costs before any dynamic charge.
pub fn static_gas_cost(opcode: u8) -> (r: u64)
    ensures
        r == spec_static_gas_cost(opcode),
{
    match opcode {
        0x00 | 0xf3 | 0xfd => 0,
        0x01 | 0x03 | 0x10 | 0x11 | 0x12 | 0x13 | 0x14 | 0x15 | 0x16 | 0x17 | 0x18 | 0x19 | 0x1a
        | 0x1b | 0x1c | 0x1d | 0x35 | 0x37 | 0x39 | 0x3e | 0x51 | 0x52 | 0x53 | 0x5e => 3,
        0x02 | 0x04 | 0x05 | 0x06 | 0x07 | 0x0b => 5,
        0x08 | 0x09 => 8,
        0x0a => 10,
        0x20 => 30,
        0x30 | 0x32 | 0x33 | 0x34 | 0x36 | 0x38 | 0x3a | 0x3d | 0x41 | 0x42 | 0x43 | 0x44 | 0x45
        | 0x46 | 0x47 | 0x48 | 0x50 | 0x58 | 0x59 | 0x5a => 2,
        0x31 | 0x3b | 0x3c | 0x3f | 0x54 => 100,
        0x55 => 0,
        0x40 => 20,
        0x56 => 8,
        0x57 => 10,
        0x5b => 1,
        0x60..=0x9f => 3,
        0xa0 => 375,
        0xa1 => 750,
        0xa2 => 1125,
        0xa3 => 1500,
        0xa4 => 1875,
        0xf0 | 0xf5 => 32000,
        0xf1 | 0xf2 | 0xf4 | 0xfa => 700,
        0xff => 5000,
        _ => 0,
    }
}

/// The fixed mnemonic of an opcode that has one.
pub open spec fn spec_fixed_mnemonic(opcode: u8) -> Option<Seq<char>> {
    match opcode {
        0x00 => Some("STOP"@),
        0x01 => Some("ADD"@),
        0x02 => Some("MUL"@),
        0x03 => Some("SUB"@),
        0x04 => Some("DIV"@),
        0x05 => Some("SDIV"@),
        0x06 => Some("MOD"@),
        0x07 => Some("SMOD"@),
        0x08 => Some("ADDMOD"@),
        0x09 => Some("MULMOD"@),
        0x0a => Some("EXP"@),
        0x0b => Some("SIGNEXTEND"@),
        0x10 => Some("LT"@),
        0x11 => Some("GT"@),
        0x12 => Some("SLT"@),
        0x13 => Some("SGT"@),
        0x14 => Some("EQ"@),
        0x15 => Some("ISZERO"@),
        0x16 => Some("AND"@),
        0x17 => Some("OR"@),
        0x18 => Some("XOR"@),
        0x19 => Some("NOT"@),
        0x1a => Some("BYTE"@),
        0x1b => Some("SHL"@),
        0x1c => Some("SHR"@),
        0x1d => Some("SAR"@),
        0x20 => Some("SHA3"@),
        0x30 => Some("ADDRESS"@),
        0x31 => Some("BALANCE"@),
        0x32 => Some("ORIGIN"@),
        0x33 => Some("CALLER"@),
        0x34 => Some("CALLVALUE"@),
        0x35 => Some("CALLDATALOAD"@),
        0x36 => Some("CALLDATASIZE"@),
        0x37 => Some("CALLDATACOPY"@),
        0x38 => Some("CODESIZE"@),
        0x39 => Some("CODECOPY"@),
        0x3a => Some("GASPRICE"@),
        0x3b => Some("EXTCODESIZE"@),
        0x3c => Some("EXTCODECOPY"@),
        0x3d => Some("RETURNDATASIZE"@),
        0x3e => Some("RETURNDATACOPY"@),
        0x3f => Some("EXTCODEHASH"@),
        0x40 => Some("BLOCKHASH"@),
        0x41 => Some("COINBASE"@),
        0x42 => Some("TIMESTAMP"@),
        0x43 => Some("NUMBER"@),
        0x44 => Some("PREVRANDAO"@),
        0x45 => Some("GASLIMIT"@),
        0x46 => Some("CHAINID"@),
        0x47 => Some("SELFBALANCE"@),
        0x48 => Some("BASEFEE"@),
        0x50 => Some("POP"@),
        0x51 => Some("MLOAD"@),
        0x52 => Some("MSTORE"@),
        0x53 => Some("MSTORE8"@),
        0x54 => Some("SLOAD"@),
        0x55 => Some("SSTORE"@),
        0x56 => Some("JUMP"@),
        0x57 => Some("JUMPI"@),
        0x58 => Some("PC"@),
        0x59 => Some("MSIZE"@),
        0x5a => Some("GAS"@),
        0x5b => Some("JUMPDEST"@),
        0x5e => Some("MCOPY"@),
        0xa0 => Some("LOG0"@),
        0xa1 => Some("LOG1"@),
        0xa2 => Some("LOG2"@),
        0xa3 => Some("LOG3"@),
        0xa4 => Some("LOG4"@),
        0xf0 => Some("CREATE"@),
        0xf1 => Some("CALL"@),
        0xf2 => Some("CALLCODE"@),
        0xf3 => Some("RETURN"@),
        0xf4 => Some("DELEGATECALL"@),
        0xf5 => Some("CREATE2"@),
        0xfa => Some("STATICCALL"@),
        0xfd => Some("REVERT"@),
        0xfe => Some("INVALID"@),
        0xff => Some("SELFDESTRUCT"@),
        _ => None,
    }
}

/// The fixed mnemonic of an opcode that has one.
fn fixed_mnemonic(opcode: u8) -> (r: Option<&'static str>)
    ensures
        r is Some == spec_fixed_mnemonic(opcode) is Some,
        r matches Some(s) ==> s@ == spec_fixed_mnemonic(opcode)->0,
{
    match opcode {
        0x00 => Some("STOP"),
        0x01 => Some("ADD"),
        0x02 => Some("MUL"),
        0x03 => Some("SUB"),
        0x04 => Some("DIV"),
        0x05 => Some("SDIV"),
        0x06 => Some("MOD"),
        0x07 => Some("SMOD"),
        0x08 => Some("ADDMOD"),
        0x09 => Some("MULMOD"),
        0x0a => Some("EXP"),
        0x0b => Some("SIGNEXTEND"),
        0x10 => Some("LT"),
        0x11 => Some("GT"),
        0x12 => Some("SLT"),
        0x13 => Some("SGT"),
        0x14 => Some("EQ"),
        0x15 => Some("ISZERO"),
        0x16 => Some("AND"),
        0x17 => Some("OR"),
        0x18 => Some("XOR"),
        0x19 => Some("NOT"),
        0x1a => Some("BYTE"),
        0x1b => Some("SHL"),
        0x1c => Some("SHR"),
        0x1d => Some("SAR"),
        0x20 => Some("SHA3"),
        0x30 => Some("ADDRESS"),
        0x31 => Some("BALANCE"),
        0x32 => Some("ORIGIN"),
        0x33 => Some("CALLER"),
        0x34 => Some("CALLVALUE"),
        0x35 => Some("CALLDATALOAD"),
        0x36 => Some("CALLDATASIZE"),
        0x37 => Some("CALLDATACOPY"),
        0x38 => Some("CODESIZE"),
        0x39 => Some("CODECOPY"),
        0x3a => Some("GASPRICE"),
        0x3b => Some("EXTCODESIZE"),
        0x3c => Some("EXTCODECOPY"),
        0x3d => Some("RETURNDATASIZE"),
        0x3e => Some("RETURNDATACOPY"),
        0x3f => Some("EXTCODEHASH"),
        0x40 => Some("BLOCKHASH"),
        0x41 => Some("COINBASE"),
        0x42 => Some("TIMESTAMP"),
        0x43 => Some("NUMBER"),
        0x44 => Some("PREVRANDAO"),
        0x45 => Some("GASLIMIT"),
        0x46 => Some("CHAINID"),
        0x47 => Some("SELFBALANCE"),
        0x48 => Some("BASEFEE"),
        0x50 => Some("POP"),
        0x51 => Some("MLOAD"),
        0x52 => Some("MSTORE"),
        0x53 => Some("MSTORE8"),
        0x54 => Some("SLOAD"),
        0x55 => Some("SSTORE"),
        0x56 => Some("JUMP"),
        0x57 => Some("JUMPI"),
        0x58 => Some("PC"),
        0x59 => Some("MSIZE"),
        0x5a => Some("GAS"),
        0x5b => Some("JUMPDEST"),
        0x5e => Some("MCOPY"),
        0xa0 => Some("LOG0"),
        0xa1 => Some("LOG1"),
        0xa2 => Some("LOG2"),
        0xa3 => Some("LOG3"),
        0xa4 => Some("LOG4"),
        0xf0 => Some("CREATE"),
        0xf1 => Some("CALL"),
        0xf2 => Some("CALLCODE"),
        0xf3 => Some("RETURN"),
        0xf4 => Some("DELEGATECALL"),
        0xf5 => Some("CREATE2"),
        0xfa => Some("STATICCALL"),
        0xfd => Some("REVERT"),
        0xfe => Some("INVALID"),
        0xff => Some("SELFDESTRUCT"),
        _ => None,
    }
}

/// The lowercase hexadecimal digit for `d < 16`.
pub open spec fn digit_char(d: nat) -> char {
    if d < 10 {
        (48 + d) as char
    } else {
        (87 + d) as char
    }
}

/// The decimal numeral of `n`.
pub open spec fn decimal_text(n: nat) -> Seq<char>
    decreases n,
{
    if n < 10 {
        seq![digit_char(n)]
    } else {
        decimal_text(n / 10) + seq![digit_char(n % 10)]
    }
}

/// The two lowercase hexadecimal digits of a byte.
pub open spec fn byte_hex_text(b: u8) -> Seq<char> {
    seq![digit_char(b as nat / 16), digit_char(b as nat % 16)]
}

/// The mnemonic of an opcode: its fixed name, `PUSHn`, `DUPn`, `SWAPn`, or
/// `UNKNOWN(0xhh)` for a byte with no instruction.
pub open spec fn spec_opcode_name(opcode: u8) -> Seq<char> {
    if spec_fixed_mnemonic(opcode) is Some {
        spec_fixed_mnemonic(opcode)->0
    } else if spec_is_push(opcode) {
        "PUSH"@ + decimal_text((opcode - 0x5f) as nat)
    } else if spec_is_dup(opcode) {
        "DUP"@ + decimal_text((opcode - 0x7f) as nat)
    } else if spec_is_swap(opcode) {
        "SWAP"@ + decimal_text((opcode - 0x8f) as nat)
    } else {
        "UNKNOWN(0x"@ + byte_hex_text(opcode) + ")"@
    }
}

/// The text of one lowercase hexadecimal digit.
fn digit_text(d: u8) -> (r: &'static str)
    requires
        d < 16,
    ensures
        r@ == seq![digit_char(d as nat)],
{
    proof {
        reveal_strlit("0");
        reveal_strlit("1");
        reveal_strlit("2");
        reveal_strlit("3");
        reveal_strlit("4");
        reveal_strlit("5");
        reveal_strlit("6");
        reveal_strlit("7");
        reveal_strlit("8");
        reveal_strlit("9");
        reveal_strlit("a");
        reveal_strlit("b");
        reveal_strlit("c");
        reveal_strlit("d");
        reveal_strlit("e");
        reveal_strlit("f");
    }
    match d {
        0 => "0",
        1 => "1",
        2 => "2",
        3 => "3",
        4 => "4",
        5 => "5",
        6 => "6",
        7 => "7",
        8 => "8",
        9 => "9",
        10 => "a",
        11 => "b",
        12 => "c",
        13 => "d",
        14 => "e",
        15 => "f",
        _ => "f",
    }
}

/// Appends the decimal numeral of `n < 100` to `s`.
fn append_decimal(s: &mut String, n: usize)
    requires
        n < 100,
    ensures
        final(s)@ == old(s)@ + decimal_text(n as nat),
{
    if n < 10 {
        s.append(digit_text(n as u8));
    } else {
        s.append(digit_text((n / 10) as u8));
        s.append(digit_text((n % 10) as u8));
        assert(decimal_text((n / 10) as nat) == seq![digit_char((n / 10) as nat)]);
    }
}

/// The mnemonic of an opcode, as trace output shows it.
pub fn opcode_name(opcode: u8) -> (r: String)
    ensures
        r@ == spec_opcode_name(opcode),
{
    if let Some(name) = fixed_mnemonic(opcode) {
        return String::from_str(name);
    }
    let mut s;
    if is_push(opcode) {
        s = String::from_str("PUSH");
        append_decimal(&mut s, push_size(opcode));
    } else if is_dup(opcode) {
        s = String::from_str("DUP");
        append_decimal(&mut s, dup_index(opcode));
    } else if is_swap(opcode) {
        s = String::from_str("SWAP");
        append_decimal(&mut s, swap_index(opcode));
    } else {
        s = String::from_str("UNKNOWN(0x");
        s.append(digit_text(opcode / 16));
        s.append(digit_text(opcode % 16));
        s.append(")");
        assert(s@ =~= "UNKNOWN(0x"@ + byte_hex_text(opcode) + ")"@);
    }
    s
}

} // verus!
