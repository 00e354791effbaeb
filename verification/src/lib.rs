//! A compiler from a structured, typed description of spending conditions to
//! an optimized program for a stack-based target machine with a fixed opcode
//! alphabet. The input is an abstract syntax tree of typed witness-stack
//! parameters and statements; the output is a byte-exact instruction sequence
//! together with hexadecimal and disassembly renderings.

pub mod ast;
pub mod error;
pub mod instr;
pub mod optimize;
pub mod table;
pub mod stack;
pub mod encode;
pub mod compile;
pub mod terminal;
