//! An assembler and interpreter for a small register machine.
//!
//! Programs are read as text (`.co`) or as 32-bit big-endian words (`.bin`),
//! assembled into the binary form, or executed on a machine with four
//! registers, a stack and a word-addressed memory.

pub mod error;
pub mod bits;
pub mod text;
pub mod pattern;
pub mod enums;
pub mod instruction;
pub mod parse;
pub mod file;
pub mod memory;
pub mod program;
