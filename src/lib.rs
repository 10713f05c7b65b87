//! A stack-based bytecode virtual machine: a loader that turns assembly-like
//! text into instructions, a pre-scan that records labels and classes, a typed
//! heap of numbers, strings, arrays and objects, and an execution engine over
//! 64-bit slots.
pub mod hash;
pub mod heap;
pub mod laws;
pub mod loader;
pub mod numbers;
pub mod opcodes;
pub mod semantics;
pub mod table;
pub mod text;
pub mod vm;
