//! Keccak-256 hashing and the derivation of contract addresses.
use crate::rlp::{rlp_encode_bytes, rlp_encode_list, rlp_encode_u64, spec_rlp_bytes, spec_rlp_list, spec_rlp_u64, byte_views};
use crate::uint::{from_big_endian, to_big_endian};
use crate::word::{
    be_bytes, be_value, lemma_be_bytes_len, lemma_be_bytes_suffix, lemma_be_value_zero_prefix,
    U256,
};
use vstd::prelude::*;

verus! {

/// The Keccak-256 digest of a byte string.
pub uninterp spec fn keccak256_digest(data: Seq<u8>) -> Seq<u8>;

/// The Keccak-256 digest of `data`, computed by `tiny_keccak`: a `Keccak::v256`
/// hasher fed `data` by `Hasher::update` and read out by `Hasher::finalize`
/// into 32 bytes. The contract names the digest and says no more of it.
#[verifier::external_body]
pub(crate) fn keccak256(data: &[u8]) -> (r: [u8; 32])
    ensures
        r@ == keccak256_digest(data@),
{
    let mut digest = [0u8; 32];
    let mut hasher = tiny_keccak::Keccak::v256();
    tiny_keccak::Hasher::update(&mut hasher, data);
    tiny_keccak::Hasher::finalize(hasher, &mut digest);
    digest
}

/// The digest of `data` read as a big-endian word.
pub fn keccak_u256(data: &[u8]) -> (r: U256)
    ensures
        r@ == be_value(keccak256_digest(data@)),
{
    let digest = keccak256(data);
    from_big_endian(&digest)
}

/// Copies `bytes[from..to]` into a new vector.
fn copy_range(bytes: &[u8], from: usize, to: usize) -> (r: Vec<u8>)
    requires
        from <= to <= bytes@.len(),
    ensures
        r@ == bytes@.subrange(from as int, to as int),
{
    let mut out: Vec<u8> = Vec::new();
    let mut i = from;
    while i < to
        invariant
            from <= i <= to,
            to <= bytes@.len(),
            out@ == bytes@.subrange(from as int, i as int),
        decreases to - i,
    {
        out.push(bytes[i]);
        i = i + 1;
        assert(out@ =~= bytes@.subrange(from as int, i as int));
    }
    out
}

/// The 20 low-order bytes of a word, as an account address.
pub fn address20(value: U256) -> (r: Vec<u8>)
    ensures
        r@ == be_bytes(value@, 20),
{
    let full = to_big_endian(value);
    proof {
        lemma_be_bytes_len(value@, 32);
        lemma_be_bytes_suffix(value@, 32, 20);
    }
    copy_range(&full, 12, 32)
}

/// The word whose low-order 20 bytes are `bytes` and whose others are zero.
pub fn u256_from_address20(bytes: &[u8]) -> (r: U256)
    requires
        bytes@.len() == 20,
    ensures
        r@ == be_value(bytes@),
{
    let mut full: Vec<u8> = Vec::new();
    let mut i: usize = 0;
    while i < 12
        invariant
            i <= 12,
            full@ == Seq::new(i as nat, |j: int| 0u8),
        decreases 12 - i,
    {
        full.push(0u8);
        i = i + 1;
        assert(full@ =~= Seq::new(i as nat, |j: int| 0u8));
    }
    let mut k: usize = 0;
    while k < 20
        invariant
            k <= 20,
            bytes@.len() == 20,
            full@ == Seq::new(12, |j: int| 0u8) + bytes@.subrange(0, k as int),
        decreases 20 - k,
    {
        full.push(bytes[k]);
        k = k + 1;
        assert(full@ =~= Seq::new(12, |j: int| 0u8) + bytes@.subrange(0, k as int));
    }
    proof {
        assert(bytes@.subrange(0, 20) =~= bytes@);
        lemma_be_value_zero_prefix(full@, 12);
        assert(full@.subrange(12, 32) =~= bytes@);
    }
    from_big_endian(full.as_slice())
}

/// The address `CREATE` gives the contract made by `creator` with `nonce`:
/// the last 20 bytes of the hash of the RLP list of the creator's address
/// and the nonce.
pub open spec fn spec_create_address(creator: nat, nonce: u64) -> nat {
    be_value(
        keccak256_digest(
            spec_rlp_list(seq![spec_rlp_bytes(be_bytes(creator, 20)), spec_rlp_u64(nonce)]),
        ).subrange(12, 32),
    )
}

/// The address `CREATE` gives the contract made by `creator` with `nonce`.
pub fn create_address(creator: U256, nonce: u64) -> (r: U256)
    ensures
        r@ == spec_create_address(creator@, nonce),
{
    let creator_bytes = address20(creator);
    let encoded_sender = rlp_encode_bytes(creator_bytes.as_slice());
    let encoded_nonce = rlp_encode_u64(nonce);
    let ghost a = encoded_sender@;
    let ghost b = encoded_nonce@;
    let items = vec![encoded_sender, encoded_nonce];
    proof {
        assert(byte_views(items@) =~= seq![a, b]);
        let v = seq![a, b];
        assert(v.drop_first() =~= seq![b]);
        assert(v.drop_first().drop_first() =~= Seq::<Seq<u8>>::empty());
        assert(seq![b].drop_first() =~= Seq::<Seq<u8>>::empty());
        assert(seq![b].flatten() == b + seq![b].drop_first().flatten());
        assert(seq![b].flatten() =~= b);
        assert(v.flatten() == a + v.drop_first().flatten());
        assert(v.flatten() =~= a + b);
        lemma_be_bytes_len(creator@, 20);
    }
    let list = rlp_encode_list(items.as_slice());
    let digest = keccak256(list.as_slice());
    let tail = copy_range(&digest, 12, 32);
    u256_from_address20(tail.as_slice())
}

/// The address `CREATE2` gives the contract made by `creator` with `salt` and
/// `init_code`: the last 20 bytes of the hash of `0xff`, the creator's
/// address, the salt and the init code's hash.
pub open spec fn spec_create2_address(creator: nat, salt: nat, init_code: Seq<u8>) -> nat {
    be_value(
        keccak256_digest(
            seq![0xffu8] + be_bytes(creator, 20) + be_bytes(salt, 32) + keccak256_digest(
                init_code,
            ),
        ).subrange(12, 32),
    )
}

/// The address `CREATE2` gives the contract made by `creator` with `salt`
/// and `init_code`.
pub fn create2_address(creator: U256, salt: U256, init_code: &[u8]) -> (r: U256)
    ensures
        r@ == spec_create2_address(creator@, salt@, init_code@),
{
    let creator_bytes = address20(creator);
    let init_hash = keccak256(init_code);
    let salt_bytes = to_big_endian(salt);
    let mut payload: Vec<u8> = Vec::new();
    payload.push(0xffu8);
    extend(&mut payload, creator_bytes.as_slice());
    extend(&mut payload, &salt_bytes);
    extend(&mut payload, &init_hash);
    assert(payload@ =~= seq![0xffu8] + be_bytes(creator@, 20) + be_bytes(salt@, 32)
        + keccak256_digest(init_code@));
    let digest = keccak256(payload.as_slice());
    let tail = copy_range(&digest, 12, 32);
    u256_from_address20(tail.as_slice())
}

/// Appends `bytes` to `out`.
fn extend(out: &mut Vec<u8>, bytes: &[u8])
    ensures
        final(out)@ == old(out)@ + bytes@,
{
    let ghost start = out@;
    let mut i: usize = 0;
    while i < bytes.len()
        invariant
            i <= bytes@.len(),
            out@ == start + bytes@.subrange(0, i as int),
        decreases bytes@.len() - i,
    {
        out.push(bytes[i]);
        i = i + 1;
        assert(out@ =~= start + bytes@.subrange(0, i as int));
    }
    assert(bytes@.subrange(0, i as int) =~= bytes@);
}

} // verus!
