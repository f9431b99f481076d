use crate::calldata::Calldata;
use crate::memory::Memory;
use crate::opcodes::initial_state;
use crate::stack::{Stack, MAX_DEPTH};
use crate::word::{padded, read_padded};
use vstd::prelude::*;

verus! {

/// The 20-byte identifier of the executing contract.
pub type Address = [u8; 20];

/// The abstract state of one execution.
pub struct EvmState {
    pub code: Seq<u8>,
    pub stack: Seq<nat>,
    pub memory: Seq<u8>,
    pub calldata: Seq<u8>,
    pub address: Seq<u8>,
    pub pc: nat,
    pub halted: bool,
    pub return_data: Seq<u8>,
}

/// Everything one execution owns: its code, stack, memory, call data and address, the
/// program counter, whether it has halted, and the data it returned.
pub struct ExecutionContext {
    code: Vec<u8>,
    stack: Stack,
    memory: Memory,
    calldata: Calldata,
    contract_address: Address,
    pc: usize,
    stopped: bool,
    return_data: Vec<u8>,
}

impl View for ExecutionContext {
    type V = EvmState;

    closed spec fn view(&self) -> EvmState {
        EvmState {
            code: self.code@,
            stack: self.stack@,
            memory: self.memory@,
            calldata: self.calldata@,
            address: self.contract_address@,
            pc: self.pc as nat,
            halted: self.stopped,
            return_data: self.return_data@,
        }
    }
}

/// The longest code an execution accepts: short enough that the program counter, which
/// runs at most 33 bytes past the end, never nears the largest `usize`.
pub open spec fn code_fits(len: nat) -> bool {
    len + 66 <= usize::MAX
}

impl EvmState {
    /// The stack holds at most `MAX_DEPTH` words; the program counter stays within 32 bytes
    /// past the code while running (a PUSH at the last byte), and one more once halted.
    pub open spec fn wf(self) -> bool {
        &&& self.stack.len() <= MAX_DEPTH
        &&& code_fits(self.code.len())
        &&& self.pc <= self.code.len() + 33
        &&& !self.halted ==> self.pc <= self.code.len() + 32
    }
}

impl ExecutionContext {
    pub open spec fn wf(&self) -> bool {
        self@.wf()
    }

    pub fn new(contract_address: Address, code: Vec<u8>, calldata: Vec<u8>) -> (r:
        ExecutionContext)
        requires
            code_fits(code@.len()),
        ensures
            r.wf(),
            r@ == initial_state(contract_address@, code@, calldata@),
    {
        ExecutionContext {
            code,
            stack: Stack::new(),
            memory: Memory::new(),
            calldata: Calldata::new(calldata),
            contract_address,
            pc: 0,
            stopped: false,
            return_data: Vec::new(),
        }
    }

    pub fn stack_mut(&mut self) -> (r: &mut Stack)
        ensures
            r@ == old(self)@.stack,
            final(self)@ == (EvmState { stack: final(r)@, ..old(self)@ }),
    {
        &mut self.stack
    }

    pub fn stack(&self) -> (r: &Stack)
        ensures
            r@ == self@.stack,
    {
        &self.stack
    }

    pub fn memory_mut(&mut self) -> (r: &mut Memory)
        ensures
            r@ == old(self)@.memory,
            final(self)@ == (EvmState { memory: final(r)@, ..old(self)@ }),
    {
        &mut self.memory
    }

    pub fn memory(&self) -> (r: &Memory)
        ensures
            r@ == self@.memory,
    {
        &self.memory
    }

    /// The call data, beside the memory it is copied into.
    pub fn calldata_and_memory_mut(&mut self) -> ((calldata, memory): (&Calldata, &mut Memory))
        ensures
            calldata@ == old(self)@.calldata,
            memory@ == old(self)@.memory,
            final(self)@ == (EvmState { memory: final(memory)@, ..old(self)@ }),
    {
        (&self.calldata, &mut self.memory)
    }

    pub fn calldata(&self) -> (r: &Calldata)
        ensures
            r@ == self@.calldata,
    {
        &self.calldata
    }

    pub fn pc(&self) -> (r: usize)
        ensures
            r == self@.pc,
    {
        self.pc
    }

    pub fn increment_pc(&mut self)
        requires
            old(self)@.pc < usize::MAX,
        ensures
            final(self)@ == (EvmState { pc: old(self)@.pc + 1, ..old(self)@ }),
    {
        self.pc = self.pc + 1;
    }

    pub fn set_pc(&mut self, pc: usize)
        ensures
            final(self)@ == (EvmState { pc: pc as nat, ..old(self)@ }),
    {
        self.pc = pc;
    }

    /// `num_bytes` bytes of code from the program counter on, zero past the end.
    pub fn read_code(&self, num_bytes: usize) -> (r: Vec<u8>)
        ensures
            r@ == padded(self@.code, self@.pc, num_bytes as nat),
    {
        read_padded(self.code.as_slice(), self.pc, num_bytes)
    }

    pub fn code(&self) -> (r: &Vec<u8>)
        ensures
            r@ == self@.code,
    {
        &self.code
    }

    pub fn stopped(&self) -> (r: bool)
        ensures
            r == self@.halted,
    {
        self.stopped
    }

    pub fn stop(&mut self)
        ensures
            final(self)@ == (EvmState { halted: true, ..old(self)@ }),
    {
        self.stopped = true;
    }

    /// RETURN: halts, keeping `length` bytes of memory from `offset` on (zero past `msize`)
    /// as the return data.
    pub fn set_return_data(&mut self, offset: usize, length: usize)
        ensures
            final(self)@ == (EvmState {
                halted: true,
                return_data: padded(old(self)@.memory, offset as nat, length as nat),
                ..old(self)@
            }),
    {
        self.stopped = true;
        self.return_data = self.memory.load_range(offset, length);
    }

    /// Drops any return data: an execution that fails returns nothing.
    pub fn clear_return_data(&mut self)
        ensures
            final(self)@ == (EvmState { return_data: Seq::empty(), ..old(self)@ }),
    {
        self.return_data = Vec::new();
    }

    pub fn return_data(&self) -> (r: &Vec<u8>)
        ensures
            r@ == self@.return_data,
    {
        &self.return_data
    }

    pub fn contract_address(&self) -> (r: &Address)
        ensures
            r@ == self@.address,
    {
        &self.contract_address
    }
}

} // verus!
