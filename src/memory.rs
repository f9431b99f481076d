use crate::word::{be_bytes, be_value, padded, read_padded, Word};
use vstd::prelude::*;

verus! {

#[derive(Clone, Copy, Debug, PartialEq, Eq, Structural)]
pub enum MemoryError {
    /// The written range would end past the largest `usize`.
    MemoryOverflow,
    MemoryAccessError,
}

/// `mem` extended with zero bytes to at least `end` bytes.
pub open spec fn grown(mem: Seq<u8>, end: nat) -> Seq<u8> {
    if end <= mem.len() {
        mem
    } else {
        mem + Seq::new((end - mem.len()) as nat, |i: int| 0u8)
    }
}

/// `mem` after `bs` is written at `offset`, grown as far as the write reaches.
pub open spec fn written(mem: Seq<u8>, offset: nat, bs: Seq<u8>) -> Seq<u8> {
    let g = grown(mem, offset + bs.len());
    Seq::new(
        g.len(),
        |i: int| if offset <= i < offset + bs.len() { bs[i - offset] } else { g[i] },
    )
}

/// The word that a 32-byte read at `offset` gives: zero unless all 32 bytes lie inside.
pub open spec fn word_at(mem: Seq<u8>, offset: nat) -> nat {
    if offset + 32 <= mem.len() {
        be_value(mem.subrange(offset as int, offset + 32int))
    } else {
        0
    }
}

/// Linear, zero-initialised memory that grows as it is written.
pub struct Memory {
    memory: Vec<u8>,
}

impl View for Memory {
    type V = Seq<u8>;

    /// The bytes written so far; the length is `msize`.
    closed spec fn view(&self) -> Seq<u8> {
        self.memory@
    }
}

impl Memory {
    pub fn new() -> (r: Memory)
        ensures
            r@ == Seq::<u8>::empty(),
    {
        Memory { memory: Vec::new() }
    }

    /// `msize`: the number of bytes the memory holds.
    pub fn size(&self) -> (r: usize)
        ensures
            r == self@.len(),
    {
        self.memory.len()
    }

    /// Writes `bs` at `offset`, first growing the memory with zeros to reach it.
    pub fn store_bytes(&mut self, offset: usize, bs: &[u8]) -> (r: Result<(), MemoryError>)
        ensures
            offset + bs@.len() > usize::MAX ==> r == Err::<(), MemoryError>(
                MemoryError::MemoryOverflow,
            ) && final(self)@ == old(self)@,
            offset + bs@.len() <= usize::MAX ==> r is Ok && final(self)@ == written(
                old(self)@,
                offset as nat,
                bs@,
            ),
    {
        if offset > usize::MAX - bs.len() {
            return Err(MemoryError::MemoryOverflow);
        }
        let end = offset + bs.len();
        let ghost g = grown(old(self)@, end as nat);
        while self.memory.len() < end
            invariant
                old(self)@.len() <= self.memory@.len() <= g.len(),
                g == grown(old(self)@, end as nat),
                forall|j: int| old(self)@.len() <= j < g.len() ==> g[j] == 0,
                g.len() == if end <= old(self)@.len() { old(self)@.len() } else { end as nat },
                forall|j: int| 0 <= j < self.memory@.len() ==> self.memory@[j] == g[j],
            decreases end - self.memory.len(),
        {
            self.memory.push(0);
        }
        assert(self.memory@ =~= g);
        let mut i: usize = 0;
        while i < bs.len()
            invariant
                end == offset + bs@.len(),
                i <= bs@.len(),
                self.memory@.len() == g.len(),
                g.len() >= end,
                forall|j: int|
                    0 <= j < g.len() ==> self.memory@[j] == if offset <= j < offset + i {
                        bs@[j - offset]
                    } else {
                        g[j]
                    },
            decreases bs.len() - i,
        {
            self.memory.set(offset + i, bs[i]);
            i = i + 1;
        }
        assert(self.memory@ =~= written(old(self)@, offset as nat, bs@));
        Ok(())
    }

    /// MSTORE: writes the 32 big-endian bytes of `value` at `offset`.
    pub fn store(&mut self, offset: usize, value: Word) -> (r: Result<(), MemoryError>)
        ensures
            offset + 32 > usize::MAX ==> r == Err::<(), MemoryError>(MemoryError::MemoryOverflow)
                && final(self)@ == old(self)@,
            offset + 32 <= usize::MAX ==> r is Ok && final(self)@ == written(
                old(self)@,
                offset as nat,
                be_bytes(value.value(), 32),
            ),
    {
        let bytes = value.to_be_bytes();
        self.store_bytes(offset, bytes.as_slice())
    }

    /// MSTORE8: writes the single byte `b` at `offset`.
    pub fn store_byte(&mut self, offset: usize, b: u8) -> (r: Result<(), MemoryError>)
        ensures
            offset + 1 > usize::MAX ==> r == Err::<(), MemoryError>(MemoryError::MemoryOverflow)
                && final(self)@ == old(self)@,
            offset + 1 <= usize::MAX ==> r is Ok && final(self)@ == written(
                old(self)@,
                offset as nat,
                seq![b],
            ),
    {
        let mut bs: Vec<u8> = Vec::new();
        bs.push(b);
        assert(bs@ =~= seq![b]);
        self.store_bytes(offset, bs.as_slice())
    }

    /// MLOAD: the word at `offset`, or zero where the 32 bytes do not all lie inside;
    /// the memory does not grow.
    pub fn load(&self, offset: usize) -> (r: Result<Word, MemoryError>)
        ensures
            r is Ok,
            r->Ok_0.value() == word_at(self@, offset as nat),
    {
        if self.memory.len() < 32 || offset > self.memory.len() - 32 {
            return Ok(Word::zero());
        }
        let bytes = read_padded(self.memory.as_slice(), offset, 32);
        assert(bytes@ =~= self@.subrange(offset as int, offset + 32));
        Ok(Word::from_be_bytes(bytes.as_slice()))
    }

    /// `length` bytes from `offset` on, zero past `msize`; the memory does not grow.
    pub fn load_range(&self, offset: usize, length: usize) -> (r: Vec<u8>)
        ensures
            r@ == padded(self@, offset as nat, length as nat),
    {
        read_padded(self.memory.as_slice(), offset, length)
    }
}

/// A read at or past `msize` gives only zero bytes.
pub proof fn lemma_load_range_zero_fill(mem: Seq<u8>, offset: nat, length: nat)
    requires
        offset >= mem.len(),
    ensures
        padded(mem, offset, length) == Seq::new(length, |i: int| 0u8),
{
    assert(padded(mem, offset, length) =~= Seq::new(length, |i: int| 0u8));
}

/// A write of `bs` at `offset` leaves `msize` at least `offset + bs.len()`, and never
/// shrinks it.
pub proof fn lemma_store_grows(mem: Seq<u8>, offset: nat, bs: Seq<u8>)
    ensures
        written(mem, offset, bs).len() >= offset + bs.len(),
        written(mem, offset, bs).len() >= mem.len(),
{
}

} // verus!
