//! A bytecode pipeline for a small Lox-family scripting language: a single-pass
//! compiler, a stack virtual machine with closures, and a mark-and-sweep heap.
//!
//! Numbers are IEEE 754 doubles carried as their 64-bit patterns. Arithmetic on
//! them, their decimal notation, wall-clock time and output belong to the
//! embedding program: the machine hands such work out as a [`vm::Signal`].

pub mod token;
pub mod op_code;
pub mod utils;
pub mod trace;
pub mod gc;
pub mod lec;
pub mod value;
pub mod stack;
pub mod chunk;
pub mod objects;
pub mod hashtable;
pub mod vm;
pub mod scanner;
pub mod compiler;
pub mod parsing;
