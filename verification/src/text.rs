//! Text in and out: words and stacks in hexadecimal, status labels, and the
//! reading of hexadecimal bytecode and input.
use crate::evm::ExitStatus;
use crate::opcodes::byte_hex_text;
use crate::uint::to_big_endian;
use crate::word::{be_bytes, U256};
use vstd::prelude::*;
use vstd::utf8::encode_utf8;

verus! {

/// The lowercase hexadecimal text of a byte string, two digits per byte.
pub open spec fn hex_text(bytes: Seq<u8>) -> Seq<char>
    decreases bytes.len(),
{
    if bytes.len() == 0 {
        Seq::empty()
    } else {
        hex_text(bytes.drop_last()) + byte_hex_text(bytes.last())
    }
}

/// `s` without its leading `'0'` characters.
pub open spec fn strip_zeros(s: Seq<char>) -> Seq<char>
    decreases s.len(),
{
    if s.len() > 0 && s[0] == '0' {
        strip_zeros(s.drop_first())
    } else {
        s
    }
}

/// A word as `0x` and its hexadecimal digits without leading zeros; zero is
/// `0x0`.
pub open spec fn spec_format_u256(value: U256) -> Seq<char> {
    if value@ == 0 {
        seq!['0', 'x', '0']
    } else {
        seq!['0', 'x'] + strip_zeros(hex_text(be_bytes(value@, 32)))
    }
}

/// The words of `s`, formatted and separated by `", "`.
pub open spec fn joined_words(s: Seq<U256>) -> Seq<char>
    decreases s.len(),
{
    if s.len() == 0 {
        Seq::empty()
    } else if s.len() == 1 {
        spec_format_u256(s[0])
    } else {
        joined_words(s.drop_last()) + seq![',', ' '] + spec_format_u256(s.last())
    }
}

/// A stack as its formatted words, bottom first, in brackets.
pub open spec fn spec_format_stack(s: Seq<U256>) -> Seq<char> {
    seq!['['] + joined_words(s) + seq![']']
}

/// `hex::encode`: the lowercase hexadecimal text of `bytes`, two digits per
/// byte, most significant nibble first. The contract states that text.
#[verifier::external_body]
fn hex_encode(bytes: &[u8]) -> (r: String)
    ensures
        r@ == hex_text(bytes@),
{
    hex::encode(bytes)
}

/// Skipping leading zeros of a text does not change its stripped form.
proof fn lemma_strip_step(s: Seq<char>, i: int)
    requires
        0 <= i < s.len(),
        s[i] == '0',
    ensures
        strip_zeros(s.subrange(i, s.len() as int)) == strip_zeros(s.subrange(i + 1, s.len() as int)),
{
    let t = s.subrange(i, s.len() as int);
    assert(t.drop_first() =~= s.subrange(i + 1, s.len() as int));
}

/// A word in hexadecimal: `0x` and its digits without leading zeros, `0x0`
/// for zero.
pub fn format_u256(value: U256) -> (r: String)
    ensures
        r@ == spec_format_u256(value),
{
    if value.is_zero() {
        let s = String::from_str("0x0");
        proof {
            reveal_strlit("0x0");
        }
        return s;
    }
    let bytes = to_big_endian(value);
    let encoded = hex_encode(&bytes);
    let e = encoded.as_str();
    let n = e.unicode_len();
    let mut i: usize = 0;
    proof {
        assert(e@.subrange(0, n as int) =~= e@);
    }
    while i < n && e.get_char(i) == '0'
        invariant
            i <= n,
            n == e@.len(),
            strip_zeros(e@) == strip_zeros(e@.subrange(i as int, n as int)),
        decreases n - i,
    {
        proof {
            lemma_strip_step(e@, i as int);
        }
        i = i + 1;
    }
    let trimmed = e.substring_char(i, n);
    proof {
        if i < n {
            assert(trimmed@[0] == e@[i as int]);
        }
    }
    let mut out = String::from_str("0x");
    out.append(trimmed);
    proof {
        reveal_strlit("0x");
        assert(out@ =~= seq!['0', 'x'] + strip_zeros(hex_text(be_bytes(value@, 32))));
    }
    out
}

/// A stack in brackets, its words bottom first in hexadecimal, separated by
/// `", "`.
pub fn format_stack(stack: &[U256]) -> (r: String)
    ensures
        r@ == spec_format_stack(stack@),
{
    let mut out = String::from_str("[");
    proof {
        reveal_strlit("[");
        reveal_strlit(", ");
        reveal_strlit("]");
        assert(stack@.subrange(0, 0) =~= Seq::<U256>::empty());
    }
    let mut i: usize = 0;
    while i < stack.len()
        invariant
            i <= stack@.len(),
            out@ == seq!['['] + joined_words(stack@.subrange(0, i as int)),
        decreases stack@.len() - i,
    {
        if i > 0 {
            out.append(", ");
        }
        let f = format_u256(stack[i]);
        out.append(f.as_str());
        proof {
            reveal_strlit(", ");
            let s = stack@.subrange(0, i + 1);
            assert(s.drop_last() =~= stack@.subrange(0, i as int));
            assert(s.last() == stack@[i as int]);
            if i == 0 {
                assert(joined_words(s) == spec_format_u256(s[0]));
                assert(out@ =~= seq!['['] + joined_words(s));
            } else {
                assert(joined_words(s) == joined_words(s.drop_last()) + seq![',', ' ']
                    + spec_format_u256(s.last()));
                assert(out@ =~= seq!['['] + joined_words(s));
            }
        }
        i = i + 1;
    }
    out.append("]");
    proof {
        assert(stack@.subrange(0, stack@.len() as int) =~= stack@);
    }
    out
}

/// The label a status is shown with.
pub open spec fn spec_status_label(status: ExitStatus) -> Seq<char> {
    match status {
        ExitStatus::Stop => "STOP"@,
        ExitStatus::Return => "RETURN"@,
        ExitStatus::Revert => "REVERT"@,
        ExitStatus::SelfDestruct => "SELFDESTRUCT"@,
        ExitStatus::OutOfGas => "OUT_OF_GAS"@,
        ExitStatus::StackOverflow => "STACK_OVERFLOW"@,
        ExitStatus::StackUnderflow => "STACK_UNDERFLOW"@,
        ExitStatus::BadJumpDestination(_) => "BAD_JUMP_DESTINATION"@,
        ExitStatus::InvalidOpcode(_) => "INVALID_OPCODE"@,
        ExitStatus::ReturnDataOutOfBounds => "RETURNDATA_OOB"@,
        ExitStatus::StaticModeViolation => "STATIC_MODE_VIOLATION"@,
    }
}

/// The label a status is shown with.
pub fn status_label(status: &ExitStatus) -> (r: &'static str)
    ensures
        r@ == spec_status_label(*status),
{
    match status {
        ExitStatus::Stop => "STOP",
        ExitStatus::Return => "RETURN",
        ExitStatus::Revert => "REVERT",
        ExitStatus::SelfDestruct => "SELFDESTRUCT",
        ExitStatus::OutOfGas => "OUT_OF_GAS",
        ExitStatus::StackOverflow => "STACK_OVERFLOW",
        ExitStatus::StackUnderflow => "STACK_UNDERFLOW",
        ExitStatus::BadJumpDestination(_) => "BAD_JUMP_DESTINATION",
        ExitStatus::InvalidOpcode(_) => "INVALID_OPCODE",
        ExitStatus::ReturnDataOutOfBounds => "RETURNDATA_OOB",
        ExitStatus::StaticModeViolation => "STATIC_MODE_VIOLATION",
    }
}

/// Why hexadecimal text could not be decoded.
#[derive(Debug, Clone, Copy, PartialEq, Eq, Structural)]
pub enum HexError {
    /// A byte that is no hexadecimal digit, read as a character, and its
    /// position.
    InvalidHexCharacter { c: char, index: usize },
    /// An odd number of digits.
    OddLength,
    /// A length that does not fit the output.
    InvalidStringLength,
}

/// The value of a hexadecimal digit byte, either case.
pub open spec fn hex_value(b: u8) -> Option<u8> {
    if 0x30 <= b <= 0x39 {
        Some((b - 0x30) as u8)
    } else if 0x41 <= b <= 0x46 {
        Some((b - 0x41 + 10) as u8)
    } else if 0x61 <= b <= 0x66 {
        Some((b - 0x61 + 10) as u8)
    } else {
        None
    }
}

/// Whether `i` is the first position of `d` that holds no digit.
pub open spec fn first_non_digit(d: Seq<u8>, i: int) -> bool {
    &&& 0 <= i < d.len()
    &&& hex_value(d[i]) is None
    &&& forall|j: int| 0 <= j < i ==> #[trigger] hex_value(d[j]) is Some
}

/// What decoding hexadecimal text gives: an odd length is refused, then the
/// first byte that is no digit, read as a character, with its position;
/// otherwise one byte per two digits, high nibble first.
pub open spec fn spec_hex_decode(d: Seq<u8>) -> Result<Seq<u8>, HexError> {
    if d.len() % 2 != 0 {
        Err(HexError::OddLength)
    } else if exists|i: int| first_non_digit(d, i) {
        let i = choose|i: int| first_non_digit(d, i);
        Err(HexError::InvalidHexCharacter { c: d[i] as char, index: i as usize })
    } else {
        Ok(
            Seq::new(
                d.len() / 2,
                |k: int| (hex_value(d[2 * k]).unwrap() * 16 + hex_value(d[2 * k + 1]).unwrap()) as u8,
            ),
        )
    }
}

/// `hex::decode`: refuses an odd length, then reports the first byte that
/// is no hexadecimal digit (either case) as a character with its position,
/// and otherwise gives one byte per two digits. The crate's error type is
/// carried over variant by variant.
#[verifier::external_body]
fn hex_decode(data: &[u8]) -> (r: Result<Vec<u8>, HexError>)
    ensures
        match r {
            Ok(v) => spec_hex_decode(data@) == Ok::<Seq<u8>, HexError>(v@),
            Err(e) => spec_hex_decode(data@) == Err::<Seq<u8>, HexError>(e),
        },
{
    match hex::decode(data) {
        Ok(v) => Ok(v),
        Err(hex::FromHexError::InvalidHexCharacter { c, index }) => Err(
            HexError::InvalidHexCharacter { c, index },
        ),
        Err(hex::FromHexError::OddLength) => Err(HexError::OddLength),
        Err(hex::FromHexError::InvalidStringLength) => Err(HexError::InvalidStringLength),
    }
}

/// `b` without a leading `0x` or `0X`.
pub open spec fn without_prefix(b: Seq<u8>) -> Seq<u8> {
    if b.len() >= 2 && b[0] == 0x30 && (b[1] == 0x78 || b[1] == 0x58) {
        b.subrange(2, b.len() as int)
    } else {
        b
    }
}

/// What hexadecimal text, already trimmed, decodes to: an optional `0x` or
/// `0X` prefix is dropped, nothing left gives no bytes, and an odd number of
/// digits gets a leading `0`.
pub open spec fn spec_parse_hex_bytes(b: Seq<u8>) -> Result<Seq<u8>, HexError> {
    let rest = without_prefix(b);
    if rest.len() == 0 {
        Ok(Seq::empty())
    } else if rest.len() % 2 == 1 {
        spec_hex_decode(seq![0x30u8] + rest)
    } else {
        spec_hex_decode(rest)
    }
}

/// Decodes hexadecimal text, already trimmed: an optional `0x` or `0X`
/// prefix, then digits, an odd number of them read with a leading `0`.
pub fn parse_hex_bytes(b: &[u8]) -> (r: Result<Vec<u8>, HexError>)
    ensures
        match r {
            Ok(v) => spec_parse_hex_bytes(b@) == Ok::<Seq<u8>, HexError>(v@),
            Err(e) => spec_parse_hex_bytes(b@) == Err::<Seq<u8>, HexError>(e),
        },
{
    let start: usize = if b.len() >= 2 && b[0] == 0x30 && (b[1] == 0x78 || b[1] == 0x58) {
        2
    } else {
        0
    };
    let mut normalized: Vec<u8> = Vec::new();
    let rest_len = b.len() - start;
    if rest_len == 0 {
        return Ok(Vec::new());
    }
    if rest_len % 2 == 1 {
        normalized.push(0x30);
    }
    let first = normalized.len();
    let mut i: usize = start;
    while i < b.len()
        invariant
            start <= i <= b@.len(),
            first <= 1,
            normalized@.len() == first + (i - start),
            first == 1 ==> normalized@[0] == 0x30u8,
            forall|k: int|
                first <= k < normalized@.len() ==> #[trigger] normalized@[k] == b@[k - first + start],
        decreases b@.len() - i,
    {
        normalized.push(b[i]);
        i = i + 1;
    }
    proof {
        let rest = without_prefix(b@);
        assert(rest =~= b@.subrange(start as int, b@.len() as int));
        if first == 1 {
            assert(normalized@ =~= seq![0x30u8] + rest);
        } else {
            assert(normalized@ =~= rest);
        }
    }
    hex_decode(normalized.as_slice())
}

/// How many whitespace characters `s` starts with.
pub open spec fn leading_white(s: Seq<char>) -> nat
    decreases s.len(),
{
    if s.len() == 0 || !white_space(s[0]) {
        0
    } else {
        1 + leading_white(s.drop_first())
    }
}

/// How many whitespace characters `s` ends with.
pub open spec fn trailing_white(s: Seq<char>) -> nat
    decreases s.len(),
{
    if s.len() == 0 || !white_space(s.last()) {
        0
    } else {
        1 + trailing_white(s.drop_last())
    }
}

/// `s` without its leading and trailing whitespace.
pub open spec fn trim_white(s: Seq<char>) -> Seq<char> {
    let rest = s.subrange(leading_white(s) as int, s.len() as int);
    rest.subrange(0, rest.len() - trailing_white(rest))
}

/// `str::trim`, then its bytes: the UTF-8 encoding of `s` with leading and
/// trailing whitespace (the Unicode `White_Space` characters) removed.
#[verifier::external_body]
fn trimmed_bytes(s: &str) -> (r: Vec<u8>)
    ensures
        r@ == encode_utf8(trim_white(s@)),
{
    s.trim().as_bytes().to_vec()
}

/// Decodes hexadecimal text: trims whitespace, drops an optional `0x` or
/// `0X` prefix, and reads the digits, an odd number of them with a leading
/// `0`; no digits give no bytes.
pub fn parse_hex(input: &str) -> (r: Result<Vec<u8>, HexError>)
    ensures
        match r {
            Ok(v) => spec_parse_hex_bytes(encode_utf8(trim_white(input@))) == Ok::<Seq<u8>, HexError>(v@),
            Err(e) => spec_parse_hex_bytes(encode_utf8(trim_white(input@))) == Err::<Seq<u8>, HexError>(e),
        },
{
    let bytes = trimmed_bytes(input);
    parse_hex_bytes(bytes.as_slice())
}

/// Whether a character has the Unicode `White_Space` property: the 25
/// code points U+0009 to U+000D, U+0020, U+0085, U+00A0, U+1680, U+2000 to
/// U+200A, U+2028, U+2029, U+202F, U+205F and U+3000.
pub open spec fn white_space(c: char) -> bool {
    let u = c as u32;
    ||| 0x09 <= u <= 0x0d
    ||| u == 0x20
    ||| u == 0x85
    ||| u == 0xa0
    ||| u == 0x1680
    ||| 0x2000 <= u <= 0x200a
    ||| u == 0x2028
    ||| u == 0x2029
    ||| u == 0x202f
    ||| u == 0x205f
    ||| u == 0x3000
}

/// Whether `c` has the Unicode `White_Space` property, as
/// `char::is_whitespace` answers.
fn is_whitespace(c: char) -> (r: bool)
    ensures
        r == white_space(c),
{
    let u = c as u32;
    (0x09 <= u && u <= 0x0d) || u == 0x20 || u == 0x85 || u == 0xa0 || u == 0x1680 || (0x2000
        <= u && u <= 0x200a) || u == 0x2028 || u == 0x2029 || u == 0x202f || u == 0x205f || u
        == 0x3000
}

/// The characters of a byte string read as UTF-8, each invalid sequence
/// replaced by U+FFFD.
pub uninterp spec fn utf8_lossy(bytes: Seq<u8>) -> Seq<char>;

/// `String::from_utf8_lossy`: the characters of `bytes` read as UTF-8, each
/// invalid sequence replaced by U+FFFD. The contract names the result and
/// says no more of it.
#[verifier::external_body]
fn lossy_chars(bytes: &[u8]) -> (r: Vec<char>)
    ensures
        r@ == utf8_lossy(bytes@),
{
    String::from_utf8_lossy(bytes).chars().collect()
}

/// `s` without its whitespace characters.
pub open spec fn without_white_space(s: Seq<char>) -> Seq<char>
    decreases s.len(),
{
    if s.len() == 0 {
        Seq::empty()
    } else if white_space(s.last()) {
        without_white_space(s.drop_last())
    } else {
        without_white_space(s.drop_last()).push(s.last())
    }
}

/// A character that may stand in hexadecimal bytecode: a digit, or `x` or
/// `X`.
pub open spec fn is_hex_code_char(c: char) -> bool {
    ('0' <= c <= '9') || ('a' <= c <= 'f') || ('A' <= c <= 'F') || c == 'x' || c == 'X'
}

/// The code in a file's bytes: if, read as text without whitespace, it is
/// nonempty and made of hexadecimal digits, `x` and `X` alone, the bytes
/// that text decodes to; otherwise the bytes themselves.
pub open spec fn spec_code_from_file(bytes: Seq<u8>) -> Result<Seq<u8>, HexError> {
    let s = without_white_space(utf8_lossy(bytes));
    if s.len() > 0 && forall|i: int| 0 <= i < s.len() ==> #[trigger] is_hex_code_char(s[i]) {
        spec_parse_hex_bytes(Seq::new(s.len(), |i: int| s[i] as u8))
    } else {
        Ok(bytes)
    }
}

/// The code in a file's bytes: hexadecimal text, whitespace ignored, when
/// that is all the file holds; the raw bytes otherwise.
pub fn code_from_file(bytes: Vec<u8>) -> (r: Result<Vec<u8>, HexError>)
    ensures
        match r {
            Ok(v) => spec_code_from_file(bytes@) == Ok::<Seq<u8>, HexError>(v@),
            Err(e) => spec_code_from_file(bytes@) == Err::<Seq<u8>, HexError>(e),
        },
{
    let text = lossy_chars(bytes.as_slice());
    let mut stripped: Vec<u8> = Vec::new();
    let mut all_hex = true;
    let mut count: usize = 0;
    let ghost mut kept: Seq<char> = Seq::empty();
    let mut i: usize = 0;
    while i < text.len()
        invariant
            i <= text@.len(),
            kept == without_white_space(text@.subrange(0, i as int)),
            count == kept.len(),
            count <= i,
            all_hex == (forall|j: int| 0 <= j < kept.len() ==> #[trigger] is_hex_code_char(kept[j])),
            all_hex ==> stripped@ == Seq::new(kept.len(), |j: int| kept[j] as u8),
        decreases text@.len() - i,
    {
        let c = text[i];
        proof {
            assert(text@.subrange(0, i + 1).drop_last() =~= text@.subrange(0, i as int));
        }
        if !is_whitespace(c) {
            let hexish = ('0' <= c && c <= '9') || ('a' <= c && c <= 'f') || ('A' <= c && c <= 'F')
                || c == 'x' || c == 'X';
            if hexish && all_hex {
                stripped.push(c as u8);
            } else {
                all_hex = false;
            }
            count = count + 1;
            proof {
                let old_kept = kept;
                kept = kept.push(c);
                if all_hex {
                    assert(stripped@ =~= Seq::new(kept.len(), |j: int| kept[j] as u8));
                }
                if !hexish {
                    assert(!is_hex_code_char(kept[kept.len() - 1]));
                }
                assert forall|j: int| 0 <= j < old_kept.len() implies kept[j] == old_kept[j] by {}
            }
        }
        i = i + 1;
    }
    proof {
        assert(text@.subrange(0, text@.len() as int) =~= text@);
    }
    if count > 0 && all_hex {
        parse_hex_bytes(stripped.as_slice())
    } else {
        Ok(bytes)
    }
}

} // verus!
