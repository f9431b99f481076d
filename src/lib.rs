//! A stack-based interpreter for contract bytecode in the style of the Ethereum
//! virtual machine: 256-bit words, a bounded operand stack, a byte-addressed
//! memory, read-only call data, and the per-opcode handlers that drive them.
pub mod calldata;
pub mod context;
pub mod memory;
pub mod opcodes;
pub mod stack;
pub mod storage;
pub mod word;
