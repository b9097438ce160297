//! Recursive-length-prefix encoding, as used to derive contract addresses.
use vstd::prelude::*;
use vstd::seq_lib::lemma_flatten_concat;
use crate::word::{be_bytes, lemma_be_bytes_len};
use vstd::arithmetic::power2::pow2;

verus! {

/// A big-endian byte string without its leading zero bytes, keeping at least
/// one byte.
pub open spec fn spec_trim_be(s: Seq<u8>) -> Seq<u8>
    decreases s.len(),
{
    if s.len() <= 1 {
        s
    } else if s[0] == 0 {
        spec_trim_be(s.drop_first())
    } else {
        s
    }
}

/// Trimming keeps a suffix of at least one byte.
proof fn lemma_trim_suffix(s: Seq<u8>, p: int)
    requires
        s.len() >= 1,
        0 <= p < s.len(),
        forall|j: int| 0 <= j < p ==> s[j] == 0,
        s[p] != 0 || p == s.len() - 1,
    ensures
        spec_trim_be(s) == s.subrange(p, s.len() as int),
    decreases s.len(),
{
    if s.len() <= 1 {
        assert(s.subrange(p, s.len() as int) =~= s);
    } else if s[0] == 0 {
        assert(p > 0);
        lemma_trim_suffix(s.drop_first(), p - 1);
        assert(s.drop_first().subrange(p - 1, s.len() - 1) =~= s.subrange(p, s.len() as int));
    } else {
        assert(p == 0);
        assert(s.subrange(p, s.len() as int) =~= s);
    }
}

/// The bytes from the first nonzero one on; the last byte if all are zero.
pub fn trim_be(bytes: &[u8]) -> (r: Vec<u8>)
    requires
        bytes@.len() > 0,
    ensures
        r@ == spec_trim_be(bytes@),
{
    let n = bytes.len();
    let mut p: usize = 0;
    while p < n && bytes[p] == 0
        invariant
            n == bytes@.len(),
            p <= n,
            forall|j: int| 0 <= j < p ==> bytes@[j] == 0,
        decreases n - p,
    {
        p = p + 1;
    }
    let first_non_zero = if p == n {
        n - 1
    } else {
        p
    };
    proof {
        lemma_trim_suffix(bytes@, first_non_zero as int);
    }
    let mut out: Vec<u8> = Vec::new();
    let mut i = first_non_zero;
    while i < n
        invariant
            n == bytes@.len(),
            first_non_zero <= i <= n,
            out@ == bytes@.subrange(first_non_zero as int, i as int),
        decreases n - i,
    {
        out.push(bytes[i]);
        i = i + 1;
        assert(out@ =~= bytes@.subrange(first_non_zero as int, i as int));
    }
    out
}

/// The eight big-endian bytes of a `u64`.
pub fn u64_to_be_bytes(value: u64) -> (r: Vec<u8>)
    ensures
        r@ == be_bytes(value as nat, 8),
{
    let mut out: Vec<u8> = Vec::new();
    let mut k: usize = 0;
    while k < 8
        invariant
            k <= 8,
            out@ == be_bytes(value as nat / pow256(8 - k), k as nat),
        decreases 8 - k,
    {
        let shift = (7 - k) * 8;
        let b = ((value >> (shift as u64)) & 0xff) as u8;
        proof {
            lemma_pow256_values();
            assert(value >> (shift as u64) == value as nat / pow256(7 - k)) by {
                vstd::bits::lemma_u64_shr_is_div(value, shift as u64);
                vstd::arithmetic::power2::lemma2_to64();
                vstd::arithmetic::power2::lemma2_to64_rest();
            }
            let q = value >> (shift as u64);
            assert(q & 0xff == q % 256) by (bit_vector);
            assert(value as nat / pow256(8 - k) == (value as nat / pow256(7 - k)) / 256) by {
                vstd::arithmetic::div_mod::lemma_div_denominator(value as int, pow256(7 - k) as int, 256);
            }
        }
        out.push(b);
        k = k + 1;
    }
    out
}

/// `256^n` for `n <= 8`.
pub open spec fn pow256(n: int) -> nat {
    if n <= 0 {
        1
    } else if n == 1 {
        0x100
    } else if n == 2 {
        0x1_0000
    } else if n == 3 {
        0x100_0000
    } else if n == 4 {
        0x1_0000_0000
    } else if n == 5 {
        0x100_0000_0000
    } else if n == 6 {
        0x1_0000_0000_0000
    } else if n == 7 {
        0x100_0000_0000_0000
    } else {
        0x1_0000_0000_0000_0000
    }
}

/// Consecutive powers of 256 differ by a factor of 256, and shifting by
/// eight bits is division by 256.
proof fn lemma_pow256_values()
    ensures
        forall|n: int| 0 <= n < 8 ==> #[trigger] pow256(n + 1) == pow256(n) * 256,
        forall|n: int| 0 <= n < 8 ==> #[trigger] pow2((8 * n) as nat) == pow256(n),
{
    vstd::arithmetic::power2::lemma2_to64();
    vstd::arithmetic::power2::lemma2_to64_rest();
    assert forall|n: int| 0 <= n < 8 implies #[trigger] pow2((8 * n) as nat) == pow256(n) by {
        if n == 0 {
        } else if n == 1 {
        } else if n == 2 {
        } else if n == 3 {
        } else if n == 4 {
        } else if n == 5 {
        } else if n == 6 {
        } else {
        }
    }
}

/// The RLP encoding of a byte string.
pub open spec fn spec_rlp_bytes(b: Seq<u8>) -> Seq<u8> {
    if b.len() == 1 && b[0] < 0x80 {
        b
    } else if b.len() <= 55 {
        seq![(0x80 + b.len()) as u8] + b
    } else {
        let len_bytes = spec_trim_be(be_bytes(b.len(), 8));
        seq![(0xb7 + len_bytes.len()) as u8] + len_bytes + b
    }
}

/// The RLP encoding of a byte string.
pub fn rlp_encode_bytes(bytes: &[u8]) -> (r: Vec<u8>)
    ensures
        r@ == spec_rlp_bytes(bytes@),
        bytes@.len() <= 55 ==> r@.len() <= bytes@.len() + 1,
{
    if bytes.len() == 1 && bytes[0] < 0x80 {
        let mut out = Vec::new();
        out.push(bytes[0]);
        assert(out@ =~= bytes@);
        return out;
    }
    if bytes.len() <= 55 {
        let mut out = Vec::new();
        out.push(0x80 + bytes.len() as u8);
        append_bytes(&mut out, bytes);
        assert(out@ =~= spec_rlp_bytes(bytes@));
        return out;
    }
    let be = u64_to_be_bytes(bytes.len() as u64);
    proof {
        lemma_be_bytes_len(bytes.len() as nat, 8);
    }
    let len_bytes = trim_be(be.as_slice());
    proof {
        lemma_trim_len(be@);
    }
    let mut out = Vec::new();
    out.push(0xb7 + len_bytes.len() as u8);
    append_bytes(&mut out, len_bytes.as_slice());
    append_bytes(&mut out, bytes);
    assert(out@ =~= spec_rlp_bytes(bytes@));
    out
}

/// Trimming never lengthens.
proof fn lemma_trim_len(s: Seq<u8>)
    ensures
        spec_trim_be(s).len() <= s.len(),
    decreases s.len(),
{
    if s.len() > 1 && s[0] == 0 {
        lemma_trim_len(s.drop_first());
    }
}

/// Appends `bytes` to `out`.
fn append_bytes(out: &mut Vec<u8>, bytes: &[u8])
    ensures
        final(out)@ == old(out)@ + bytes@,
{
    let ghost start = out@;
    let mut i: usize = 0;
    while i < bytes.len()
        invariant
            i <= bytes@.len(),
            out@ == start + bytes@.subrange(0, i as int),
        decreases bytes@.len() - i,
    {
        out.push(bytes[i]);
        i = i + 1;
        assert(out@ =~= start + bytes@.subrange(0, i as int));
    }
    assert(bytes@.subrange(0, i as int) =~= bytes@);
}

/// The RLP encoding of an unsigned integer: its trimmed big-endian bytes as
/// a string, with zero as the empty string.
pub open spec fn spec_rlp_u64(value: u64) -> Seq<u8> {
    if value == 0 {
        seq![0x80u8]
    } else {
        spec_rlp_bytes(spec_trim_be(be_bytes(value as nat, 8)))
    }
}

/// The RLP encoding of an unsigned integer.
pub fn rlp_encode_u64(value: u64) -> (r: Vec<u8>)
    ensures
        r@ == spec_rlp_u64(value),
        r@.len() <= 9,
{
    if value == 0 {
        let mut out = Vec::new();
        out.push(0x80u8);
        assert(out@ =~= seq![0x80u8]);
        return out;
    }
    let be = u64_to_be_bytes(value);
    proof {
        lemma_be_bytes_len(value as nat, 8);
    }
    let trimmed = trim_be(be.as_slice());
    proof {
        lemma_trim_len(be@);
    }
    rlp_encode_bytes(trimmed.as_slice())
}

/// The RLP encoding of a list whose items are already encoded.
pub open spec fn spec_rlp_list(items: Seq<Seq<u8>>) -> Seq<u8> {
    let payload = items.flatten();
    if payload.len() <= 55 {
        seq![(0xc0 + payload.len()) as u8] + payload
    } else {
        let len_bytes = spec_trim_be(be_bytes(payload.len(), 8));
        seq![(0xf7 + len_bytes.len()) as u8] + len_bytes + payload
    }
}

/// The views of a list of byte vectors.
pub open spec fn byte_views(items: Seq<Vec<u8>>) -> Seq<Seq<u8>> {
    items.map_values(|v: Vec<u8>| v@)
}

/// The RLP encoding of a list whose items are already encoded.
pub fn rlp_encode_list(items: &[Vec<u8>]) -> (r: Vec<u8>)
    requires
        byte_views(items@).flatten().len() <= usize::MAX,
    ensures
        r@ == spec_rlp_list(byte_views(items@)),
{
    let ghost views = byte_views(items@);
    let mut payload: Vec<u8> = Vec::new();
    let mut i: usize = 0;
    while i < items.len()
        invariant
            i <= items@.len(),
            views == byte_views(items@),
            payload@ == views.subrange(0, i as int).flatten(),
        decreases items@.len() - i,
    {
        append_bytes(&mut payload, items[i].as_slice());
        proof {
            lemma_flatten_concat(views.subrange(0, i as int), seq![views[i as int]]);
            assert(views.subrange(0, i + 1) =~= views.subrange(0, i as int) + seq![views[i as int]]);
            assert(seq![views[i as int]].drop_first() =~= Seq::<Seq<u8>>::empty());
            let single = seq![views[i as int]];
            assert(single.drop_first().flatten() =~= Seq::<u8>::empty());
            assert(single.flatten() == single.first() + single.drop_first().flatten());
            assert(single.flatten() =~= views[i as int]);
            assert(views[i as int] == items@[i as int]@);
        }
        i = i + 1;
    }
    assert(views.subrange(0, i as int) =~= views);
    let payload_len = payload.len();
    if payload_len <= 55 {
        let mut out = Vec::new();
        out.push(0xc0 + payload_len as u8);
        append_bytes(&mut out, payload.as_slice());
        return out;
    }
    let be = u64_to_be_bytes(payload_len as u64);
    proof {
        lemma_be_bytes_len(payload_len as nat, 8);
    }
    let len_bytes = trim_be(be.as_slice());
    proof {
        lemma_trim_len(be@);
    }
    let mut out = Vec::new();
    out.push(0xf7 + len_bytes.len() as u8);
    append_bytes(&mut out, len_bytes.as_slice());
    append_bytes(&mut out, payload.as_slice());
    out
}

} // verus!
