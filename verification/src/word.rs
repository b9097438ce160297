//! The 256-bit machine word and its mathematical model.
//!
//! A word is held as four little-endian 64-bit limbs; its view is the natural
//! number those limbs spell, always below `2^256`.
use vstd::arithmetic::power2::{lemma2_to64, lemma2_to64_rest, lemma_pow2_adds, lemma_pow2_pos, pow2};
use vstd::prelude::*;

verus! {

/// `2^64`, the weight of one limb.
pub open spec fn limb_base() -> nat {
    0x1_0000_0000_0000_0000nat
}

/// `2^128`.
pub open spec fn limb_base2() -> nat {
    0x1_0000_0000_0000_0000_0000_0000_0000_0000nat
}

/// `2^192`.
pub open spec fn limb_base3() -> nat {
    0x1_0000_0000_0000_0000_0000_0000_0000_0000_0000_0000_0000_0000nat
}

/// `2^256`, the number of distinct words.
pub open spec fn word_modulus() -> nat {
    0x1_0000_0000_0000_0000_0000_0000_0000_0000_0000_0000_0000_0000_0000_0000_0000_0000nat
}

/// `2^255`: words at or above it are negative in two's complement.
pub open spec fn sign_bound() -> nat {
    0x8000_0000_0000_0000_0000_0000_0000_0000_0000_0000_0000_0000_0000_0000_0000_0000nat
}

/// A 256-bit unsigned machine word.
#[derive(Debug, Clone, Copy, PartialEq, Eq, Structural)]
pub struct U256 {
    /// Bits 0..64.
    pub l0: u64,
    /// Bits 64..128.
    pub l1: u64,
    /// Bits 128..192.
    pub l2: u64,
    /// Bits 192..256.
    pub l3: u64,
}

/// The number that four little-endian limbs spell.
pub open spec fn limbs_value(l0: u64, l1: u64, l2: u64, l3: u64) -> nat {
    l0 as nat + l1 as nat * limb_base() + l2 as nat * limb_base2() + l3 as nat * limb_base3()
}

impl View for U256 {
    type V = nat;

    open spec fn view(&self) -> nat {
        limbs_value(self.l0, self.l1, self.l2, self.l3)
    }
}

/// The word whose value is `n mod 2^256`.
pub open spec fn wrap(n: int) -> nat {
    (n % (word_modulus() as int)) as nat
}

/// The two's-complement reading of a word.
pub open spec fn signed_value(x: nat) -> int {
    if x >= sign_bound() {
        x - word_modulus()
    } else {
        x as int
    }
}

/// The powers of two at limb boundaries, at the sign bit and at the word's end.
pub proof fn lemma_pow2_values()
    ensures
        pow2(8) == 256,
        pow2(63) == 0x8000_0000_0000_0000,
        pow2(64) == limb_base(),
        pow2(128) == limb_base2(),
        pow2(192) == limb_base3(),
        pow2(255) == sign_bound(),
        pow2(256) == word_modulus(),
{
    lemma2_to64();
    lemma2_to64_rest();
    lemma_pow2_adds(64, 64);
    lemma_pow2_adds(128, 64);
    lemma_pow2_adds(192, 63);
    lemma_pow2_adds(192, 64);
}

/// Every word lies below `2^256`.
pub proof fn lemma_word_bound(x: U256)
    ensures
        x@ < word_modulus(),
{
    assert(x@ < word_modulus()) by (nonlinear_arith)
        requires
            x.l0 < limb_base(),
            x.l1 < limb_base(),
            x.l2 < limb_base(),
            x.l3 < limb_base(),
            x@ == x.l0 as nat + x.l1 as nat * limb_base() + x.l2 as nat * limb_base2() + x.l3 as nat
                * limb_base3(),
            limb_base() == 0x1_0000_0000_0000_0000nat,
            limb_base2() == 0x1_0000_0000_0000_0000_0000_0000_0000_0000nat,
            limb_base3() == 0x1_0000_0000_0000_0000_0000_0000_0000_0000_0000_0000_0000_0000nat,
            word_modulus()
                == 0x1_0000_0000_0000_0000_0000_0000_0000_0000_0000_0000_0000_0000_0000_0000_0000_0000nat,
    ;
}

/// The limbs of a word are the base-`2^64` digits of its value.
pub proof fn lemma_limbs_of_value(x: U256)
    ensures
        x.l0 == x@ % limb_base(),
        x.l1 == (x@ / limb_base()) % limb_base(),
        x.l2 == (x@ / limb_base2()) % limb_base(),
        x.l3 == x@ / limb_base3(),
{
    let b = limb_base() as int;
    let hi1 = x.l1 as int + x.l2 as int * b + x.l3 as int * (b * b);
    let hi2 = x.l2 as int + x.l3 as int * b;
    assert(x@ == x.l0 + hi1 * b) by (nonlinear_arith)
        requires
            x@ == x.l0 as nat + x.l1 as nat * limb_base() + x.l2 as nat * limb_base2() + x.l3 as nat
                * limb_base3(),
            b == limb_base(),
            limb_base2() == b * b,
            limb_base3() == b * b * b,
            hi1 == x.l1 as int + x.l2 as int * b + x.l3 as int * (b * b),
    ;
    assert(limb_base2() == b * b);
    assert(limb_base3() == b * b * b);
    vstd::arithmetic::div_mod::lemma_fundamental_div_mod_converse(x@ as int, b, hi1, x.l0 as int);
    assert(hi1 == hi2 * b + x.l1) by (nonlinear_arith)
        requires
            hi1 == x.l1 as int + x.l2 as int * b + x.l3 as int * (b * b),
            hi2 == x.l2 as int + x.l3 as int * b,
    ;
    vstd::arithmetic::div_mod::lemma_fundamental_div_mod_converse(hi1, b, hi2, x.l1 as int);
    vstd::arithmetic::div_mod::lemma_fundamental_div_mod_converse(hi2, b, x.l3 as int, x.l2 as int);
    vstd::arithmetic::div_mod::lemma_div_denominator(x@ as int, b, b);
    vstd::arithmetic::div_mod::lemma_div_denominator(x@ as int, b * b, b);
}

/// Two words are equal exactly when their values are.
pub proof fn lemma_view_injective(x: U256, y: U256)
    ensures
        x@ == y@ <==> x == y,
{
    if x@ == y@ {
        lemma_limbs_of_value(x);
        lemma_limbs_of_value(y);
    }
}

/// The word zero.
pub open spec fn zero_word() -> U256 {
    U256 { l0: 0, l1: 0, l2: 0, l3: 0 }
}

impl U256 {
    /// The word zero.
    pub fn zero() -> (r: U256)
        ensures
            r@ == 0,
            r == zero_word(),
    {
        U256 { l0: 0, l1: 0, l2: 0, l3: 0 }
    }

    /// The word one.
    pub fn one() -> (r: U256)
        ensures
            r@ == 1,
    {
        U256 { l0: 1, l1: 0, l2: 0, l3: 0 }
    }

    /// The largest word, `2^256 - 1`.
    pub fn max_value() -> (r: U256)
        ensures
            r@ == word_modulus() - 1,
    {
        U256 { l0: u64::MAX, l1: u64::MAX, l2: u64::MAX, l3: u64::MAX }
    }

    /// The word holding a 64-bit value.
    pub fn from_u64(value: u64) -> (r: U256)
        ensures
            r@ == value,
    {
        U256 { l0: value, l1: 0, l2: 0, l3: 0 }
    }

    /// The word holding a `usize` value.
    pub fn from_usize(value: usize) -> (r: U256)
        ensures
            r@ == value,
    {
        U256 { l0: value as u64, l1: 0, l2: 0, l3: 0 }
    }

    /// Whether the word is zero.
    pub fn is_zero(&self) -> (r: bool)
        ensures
            r == (self@ == 0),
    {
        self.l0 == 0 && self.l1 == 0 && self.l2 == 0 && self.l3 == 0
    }

    /// The low 64 bits of the word.
    pub fn low_u64(&self) -> (r: u64)
        ensures
            r == self@ % limb_base(),
    {
        proof {
            lemma_limbs_of_value(*self);
        }
        self.l0
    }

    /// Equality of words, decided on their values.
    /// The 32 big-endian bytes of the word.
    pub fn to_big_endian(&self) -> (r: [u8; 32])
        ensures
            r@ == be_bytes(self@, 32),
    {
        crate::uint::to_big_endian(*self)
    }

    /// The word whose big-endian bytes, zero-extended on the left, are
    /// `bytes`.
    pub fn from_big_endian(bytes: &[u8]) -> (r: U256)
        requires
            bytes@.len() <= 32,
        ensures
            r@ == be_value(bytes@),
    {
        crate::uint::from_big_endian(bytes)
    }

    pub fn equals(&self, other: &U256) -> (r: bool)
        ensures
            r == (self@ == other@),
    {
        proof {
            lemma_view_injective(*self, *other);
        }
        *self == *other
    }
}

/// A 512-bit unsigned integer, used for intermediate results that need
/// twice the width of a word.
#[derive(Debug, Clone, Copy)]
pub struct U512 {
    /// The eight 64-bit limbs, least significant first.
    pub limbs: [u64; 8],
}

impl View for U512 {
    type V = nat;

    open spec fn view(&self) -> nat {
        limbs_value(self.limbs[0], self.limbs[1], self.limbs[2], self.limbs[3]) + limbs_value(
            self.limbs[4],
            self.limbs[5],
            self.limbs[6],
            self.limbs[7],
        ) * word_modulus()
    }
}

/// The value of a big-endian byte string.
pub open spec fn be_value(s: Seq<u8>) -> nat
    decreases s.len(),
{
    if s.len() == 0 {
        0
    } else {
        be_value(s.drop_last()) * 256 + s.last() as nat
    }
}

/// The `n` low-order bytes of `v`, most significant first.
pub open spec fn be_bytes(v: nat, n: nat) -> Seq<u8>
    decreases n,
{
    if n == 0 {
        Seq::empty()
    } else {
        be_bytes(v / 256, (n - 1) as nat).push((v % 256) as u8)
    }
}

/// `be_bytes(v, n)` has `n` bytes.
pub proof fn lemma_be_bytes_len(v: nat, n: nat)
    ensures
        be_bytes(v, n).len() == n,
    decreases n,
{
    if n > 0 {
        lemma_be_bytes_len(v / 256, (n - 1) as nat);
    }
}

/// `2^(8(n+1)) = 2^(8n) * 256`.
pub proof fn lemma_pow2_byte_step(n: nat)
    ensures
        pow2(8 * (n + 1)) == pow2(8 * n) * 256,
        pow2(8 * n) > 0,
{
    lemma2_to64();
    lemma_pow2_adds(8 * n, 8);
    assert(8 * (n + 1) == 8 * n + 8);
    lemma_pow2_pos(8 * n);
}

/// The bytes `be_bytes(v, n)` spell `v` modulo `2^(8n)`.
pub proof fn lemma_be_value_of_bytes(v: nat, n: nat)
    ensures
        be_value(be_bytes(v, n)) == v % pow2(8 * n),
    decreases n,
{
    if n == 0 {
        lemma2_to64();
    } else {
        let m = (n - 1) as nat;
        lemma_be_value_of_bytes(v / 256, m);
        lemma_be_bytes_len(v / 256, m);
        let s = be_bytes(v, n);
        assert(s.drop_last() == be_bytes(v / 256, m));
        lemma_pow2_byte_step(m);
        vstd::arithmetic::div_mod::lemma_mod_breakdown(v as int, 256, pow2(8 * m) as int);
        assert(pow2(8 * n) == 256 * pow2(8 * m)) by (nonlinear_arith)
            requires
                n == m + 1,
                pow2(8 * (m + 1)) == pow2(8 * m) * 256,
        ;
        assert(((v % 256) as u8) as nat == v % 256);
    }
}

/// The last `m` of the `n` bytes of `v` are the `m` bytes of `v`.
pub proof fn lemma_be_bytes_suffix(v: nat, n: nat, m: nat)
    requires
        m <= n,
    ensures
        be_bytes(v, n).subrange(n - m, n as int) == be_bytes(v, m),
    decreases m,
{
    lemma_be_bytes_len(v, n);
    lemma_be_bytes_len(v, m);
    if m == 0 {
        assert(be_bytes(v, n).subrange(n as int, n as int) =~= be_bytes(v, 0));
    } else {
        lemma_be_bytes_suffix(v / 256, (n - 1) as nat, (m - 1) as nat);
        lemma_be_bytes_len(v / 256, (n - 1) as nat);
        assert(be_bytes(v, n).subrange(n - m, n as int) =~= be_bytes(v / 256, (n - 1) as nat).subrange(
            n - m,
            n - 1,
        ).push((v % 256) as u8));
    }
}

/// A byte string's value is below `2^(8 * length)`.
pub proof fn lemma_be_value_bound(s: Seq<u8>)
    ensures
        be_value(s) < pow2(8 * s.len()),
    decreases s.len(),
{
    if s.len() == 0 {
        lemma2_to64();
    } else {
        let t = s.drop_last();
        lemma_be_value_bound(t);
        lemma_pow2_byte_step(t.len());
        assert(be_value(t) * 256 + s.last() < pow2(8 * t.len()) * 256) by (nonlinear_arith)
            requires
                be_value(t) < pow2(8 * t.len()),
                s.last() < 256,
        ;
        assert(8 * s.len() == 8 * (t.len() + 1));
    }
}

/// Splitting a byte string splits its value.
pub proof fn lemma_be_value_split(s: Seq<u8>, k: int)
    requires
        0 <= k <= s.len(),
    ensures
        be_value(s) == be_value(s.subrange(0, k)) * pow2(8 * (s.len() - k) as nat) + be_value(
            s.subrange(k, s.len() as int),
        ),
    decreases s.len(),
{
    if k == s.len() {
        lemma2_to64();
        assert(s.subrange(0, k) =~= s);
        assert(s.subrange(k, s.len() as int) =~= Seq::<u8>::empty());
        assert(be_value(Seq::<u8>::empty()) == 0);
        assert(8 * (s.len() - k) as nat == 0);
    } else {
        let t = s.drop_last();
        lemma_be_value_split(t, k);
        let j = (t.len() - k) as nat;
        lemma_pow2_byte_step(j);
        assert(s.subrange(0, k) =~= t.subrange(0, k));
        assert(s.subrange(k, s.len() as int).drop_last() =~= t.subrange(k, t.len() as int));
        assert((s.len() - k) as nat == j + 1);
        let a = be_value(s.subrange(0, k));
        let b = be_value(t.subrange(k, t.len() as int));
        let u = s.subrange(k, s.len() as int);
        assert(u.last() == s.last());
        assert(be_value(u) == b * 256 + s.last());
        assert(be_value(s) == be_value(t) * 256 + s.last());
        assert(be_value(t) == a * pow2(8 * j) + b);
        assert(pow2(8 * (s.len() - k) as nat) == pow2(8 * j) * 256);
        assert((a * pow2(8 * j) + b) * 256 + s.last() == a * (pow2(8 * j) * 256) + (b * 256
            + s.last())) by (nonlinear_arith);
    }
}

/// A byte string whose first byte is nonzero is worth at least `2^(8(len-1))`.
pub proof fn lemma_be_value_lead(s: Seq<u8>)
    requires
        s.len() > 0,
        s[0] != 0,
    ensures
        be_value(s) >= pow2(8 * (s.len() - 1) as nat),
{
    lemma_be_value_split(s, 1);
    let first = s.subrange(0, 1);
    assert(first.drop_last() =~= Seq::<u8>::empty());
    assert(first.last() == s[0]);
    assert(be_value(Seq::<u8>::empty()) == 0);
    assert(be_value(first) == s[0]);
    assert(be_value(first) * pow2(8 * (s.len() - 1) as nat) >= pow2(8 * (s.len() - 1) as nat))
        by (nonlinear_arith)
        requires
            be_value(first) >= 1,
    ;
}

/// A byte string that starts with zeros is worth what the rest is worth.
pub proof fn lemma_be_value_zero_prefix(s: Seq<u8>, k: int)
    requires
        0 <= k <= s.len(),
        forall|j: int| 0 <= j < k ==> s[j] == 0,
    ensures
        be_value(s) == be_value(s.subrange(k, s.len() as int)),
{
    lemma_be_value_split(s, k);
    lemma_be_value_zeros(s.subrange(0, k));
}

/// An all-zero byte string is worth zero.
pub proof fn lemma_be_value_zeros(s: Seq<u8>)
    requires
        forall|j: int| 0 <= j < s.len() ==> s[j] == 0,
    ensures
        be_value(s) == 0,
    decreases s.len(),
{
    if s.len() > 0 {
        lemma_be_value_zeros(s.drop_last());
    }
}

} // verus!
