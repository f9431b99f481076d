use crate::memory::{written, Memory};
use crate::word::{be_value, padded, read_padded, Word};
use vstd::prelude::*;

verus! {

/// The read-only input bytes of one execution.
pub struct Calldata {
    data: Vec<u8>,
}

#[derive(Clone, Copy, Debug, PartialEq, Eq, Structural)]
pub enum CalldataError {
    /// The destination range in memory would end past the largest `usize`.
    InvalidCalldataAccess,
}

impl View for Calldata {
    type V = Seq<u8>;

    closed spec fn view(&self) -> Seq<u8> {
        self.data@
    }
}

impl Calldata {
    pub fn new(data: Vec<u8>) -> (r: Calldata)
        ensures
            r@ == data@,
    {
        Calldata { data }
    }

    pub fn size(&self) -> (r: usize)
        ensures
            r == self@.len(),
    {
        self.data.len()
    }

    /// The byte at `offset`, or zero past the end.
    pub fn read_byte(&self, offset: usize) -> (r: Result<u8, CalldataError>)
        ensures
            r is Ok,
            offset < self@.len() ==> r->Ok_0 == self@[offset as int],
            offset >= self@.len() ==> r->Ok_0 == 0,
    {
        if offset >= self.data.len() {
            return Ok(0);
        }
        Ok(self.data[offset])
    }

    /// CALLDATALOAD: the big-endian word of the 32 bytes from `offset` on, zero past the end.
    pub fn load(&self, offset: usize) -> (r: Word)
        ensures
            r.value() == be_value(padded(self@, offset as nat, 32)),
    {
        let bytes = read_padded(self.data.as_slice(), offset, 32);
        Word::from_be_bytes(bytes.as_slice())
    }

    /// CALLDATACOPY: writes `length` bytes from `calldata_offset` on (zero past the end)
    /// into `memory` at `memory_offset`.
    pub fn copy_to_memory(
        &self,
        calldata_offset: usize,
        memory_offset: usize,
        length: usize,
        memory: &mut Memory,
    ) -> (r: Result<(), CalldataError>)
        ensures
            memory_offset + length > usize::MAX ==> r == Err::<(), CalldataError>(
                CalldataError::InvalidCalldataAccess,
            ) && final(memory)@ == old(memory)@,
            memory_offset + length <= usize::MAX ==> r is Ok && final(memory)@ == written(
                old(memory)@,
                memory_offset as nat,
                padded(self@, calldata_offset as nat, length as nat),
            ),
    {
        if memory_offset > usize::MAX - length {
            return Err(CalldataError::InvalidCalldataAccess);
        }
        let bytes = read_padded(self.data.as_slice(), calldata_offset, length);
        match memory.store_bytes(memory_offset, bytes.as_slice()) {
            Ok(()) => Ok(()),
            Err(_) => Err(CalldataError::InvalidCalldataAccess),
        }
    }
}

} // verus!
