//! An interpreter for Ethereum Virtual Machine bytecode, with its arithmetic,
//! gas accounting and state handling proved against mathematical models.
pub mod word;
pub mod uint;
pub mod opcodes;
pub mod gas;
pub mod assoc;
pub mod stack;
pub mod memory;
pub mod storage;
pub mod arith;
pub mod bitwise;
pub mod rlp;
pub mod address;
pub mod world;
pub mod evm;
pub mod alu;
pub mod text;
pub mod laws;
