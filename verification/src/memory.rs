//! Byte-addressed memory that grows, zero-filled, to cover every access.
use crate::uint::{from_big_endian, to_big_endian};
use crate::word::{be_bytes, be_value, U256};
use vstd::prelude::*;

verus! {

/// `s` grown with zero bytes to length `end`, if it is shorter.
pub open spec fn expanded(s: Seq<u8>, end: nat) -> Seq<u8> {
    if end > s.len() {
        s + Seq::new((end - s.len()) as nat, |i: int| 0u8)
    } else {
        s
    }
}

/// The end of the range of `size` bytes at `offset`, clamped to `usize::MAX`.
pub open spec fn range_end(offset: nat, size: nat) -> nat {
    if offset + size > usize::MAX {
        usize::MAX as nat
    } else {
        offset + size
    }
}

/// `s` grown to cover `offset + bytes.len()` and then overwritten there by `bytes`.
pub open spec fn overwritten(s: Seq<u8>, offset: nat, bytes: Seq<u8>) -> Seq<u8> {
    let e = expanded(s, offset + bytes.len());
    Seq::new(
        e.len(),
        |i: int|
            if offset <= i < offset + bytes.len() {
                bytes[i - offset]
            } else {
                e[i]
            },
    )
}

/// The memory of one execution frame.
#[derive(Debug, Clone, Default)]
pub struct Memory {
    data: Vec<u8>,
}

impl View for Memory {
    type V = Seq<u8>;

    closed spec fn view(&self) -> Seq<u8> {
        self.data@
    }
}

impl Memory {
    /// An empty memory.
    pub fn new() -> (r: Self)
        ensures
            r@ == Seq::<u8>::empty(),
    {
        Memory { data: Vec::new() }
    }

    /// The number of bytes in use.
    pub fn len(&self) -> (r: usize)
        ensures
            r == self@.len(),
    {
        self.data.len()
    }

    /// Whether no byte is in use.
    pub fn is_empty(&self) -> (r: bool)
        ensures
            r == (self@.len() == 0),
    {
        self.data.len() == 0
    }

    /// Grows the memory with zero bytes to `end` bytes.
    pub fn ensure_size(&mut self, end: usize)
        ensures
            final(self)@ == expanded(old(self)@, end as nat),
    {
        let ghost start = self.data@;
        while self.data.len() < end
            invariant
                start.len() <= self.data@.len(),
                self.data@.len() <= end || self.data@.len() == start.len(),
                self.data@ == expanded(start, self.data@.len() as nat),
            decreases end - self.data@.len(),
        {
            self.data.push(0u8);
            assert(self.data@ =~= expanded(start, self.data@.len() as nat));
        }
        assert(self.data@ =~= expanded(start, end as nat));
    }

    /// The `size` bytes at `offset`, growing memory to cover them first.
    pub fn read_slice(&mut self, offset: usize, size: usize) -> (r: Vec<u8>)
        ensures
            size == 0 ==> r@ == Seq::<u8>::empty() && final(self)@ == old(self)@,
            size > 0 ==> final(self)@ == expanded(old(self)@, range_end(offset as nat, size as nat))
                && r@ == final(self)@.subrange(
                offset as int,
                range_end(offset as nat, size as nat) as int,
            ),
    {
        if size == 0 {
            return Vec::new();
        }
        let end = offset.saturating_add(size);
        self.ensure_size(end);
        let mut out: Vec<u8> = Vec::new();
        let mut i = offset;
        while i < end
            invariant
                offset <= i <= end,
                end <= self.data@.len(),
                out@ == self.data@.subrange(offset as int, i as int),
            decreases end - i,
        {
            out.push(self.data[i]);
            i = i + 1;
            assert(out@ =~= self.data@.subrange(offset as int, i as int));
        }
        out
    }

    /// Writes `bytes` at `offset`, growing memory to cover them first.
    pub fn write_slice(&mut self, offset: usize, bytes: &[u8])
        requires
            offset + bytes@.len() <= usize::MAX,
        ensures
            bytes@.len() == 0 ==> final(self)@ == old(self)@,
            bytes@.len() > 0 ==> final(self)@ == overwritten(old(self)@, offset as nat, bytes@),
    {
        if bytes.len() == 0 {
            return;
        }
        let ghost start = self.data@;
        let end = offset + bytes.len();
        self.ensure_size(end);
        let ghost e = self.data@;
        let mut i: usize = 0;
        while i < bytes.len()
            invariant
                offset + bytes@.len() == end,
                i <= bytes@.len(),
                self.data@.len() == e.len(),
                end <= e.len(),
                forall|j: int|
                    0 <= j < e.len() ==> #[trigger] self.data@[j] == (if offset <= j < offset + i {
                        bytes@[j - offset]
                    } else {
                        e[j]
                    }),
            decreases bytes@.len() - i,
        {
            self.data.set(offset + i, bytes[i]);
            i = i + 1;
        }
        assert(e == expanded(start, (offset + bytes@.len()) as nat));
        assert forall|j: int| 0 <= j < e.len() implies #[trigger] self.data@[j] == overwritten(
            start,
            offset as nat,
            bytes@,
        )[j] by {}
        assert(self.data@ =~= overwritten(start, offset as nat, bytes@));
    }

    /// The word stored big-endian in the 32 bytes at `offset`.
    pub fn mload(&mut self, offset: usize) -> (r: U256)
        ensures
            final(self)@ == expanded(old(self)@, range_end(offset as nat, 32)),
            r@ == be_value(final(self)@.subrange(offset as int, range_end(offset as nat, 32) as int)),
    {
        let bytes = self.read_slice(offset, 32);
        from_big_endian(bytes.as_slice())
    }

    /// Stores `value` big-endian in the 32 bytes at `offset`.
    pub fn mstore(&mut self, offset: usize, value: U256)
        requires
            offset + 32 <= usize::MAX,
        ensures
            final(self)@ == overwritten(old(self)@, offset as nat, be_bytes(value@, 32)),
    {
        let bytes = to_big_endian(value);
        self.write_slice(offset, &bytes);
    }

    /// Stores the low byte of `value` at `offset`.
    pub fn mstore8(&mut self, offset: usize, value: U256)
        requires
            offset + 1 <= usize::MAX,
        ensures
            final(self)@ == overwritten(old(self)@, offset as nat, seq![(value@ % 256) as u8]),
    {
        let low = value.low_u64();
        let byte = (low % 256) as u8;
        proof {
            vstd::arithmetic::div_mod::lemma_mod_mod(value@ as int, 256, 0x1_0000_0000_0000_0000int / 256);
        }
        let buf = [byte];
        assert(buf@ =~= seq![(value@ % 256) as u8]);
        self.write_slice(offset, &buf);
    }

    /// Copies `len` bytes from `src` to `dst`, as `MCOPY` does.
    pub fn mcopy(&mut self, dst: usize, src: usize, len: usize)
        requires
            dst + len <= usize::MAX,
            src + len <= usize::MAX,
        ensures
            len == 0 ==> final(self)@ == old(self)@,
            len > 0 ==> final(self)@ == overwritten(
                expanded(old(self)@, (src + len) as nat),
                dst as nat,
                expanded(old(self)@, (src + len) as nat).subrange(src as int, (src + len) as int),
            ),
    {
        if len == 0 {
            return;
        }
        let copied = self.read_slice(src, len);
        self.write_slice(dst, copied.as_slice());
    }
}

} // verus!
