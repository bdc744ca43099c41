//! The ways in which reading, assembling or running a program can fail.

use vstd::prelude::*;

verus! {

/// Every failure is final: the loader stops at the first one, and so does the machine.
#[derive(Clone, Copy, Debug, PartialEq, Eq, Hash, Structural)]
pub enum Error {
    /// A file name that ends neither in `.co` nor in `.bin`.
    InvalidExtension,
    /// A text file whose bytes are not UTF-8.
    InvalidText,
    /// A binary file whose length is no multiple of four, or a word with an
    /// unknown opcode, operand tag or section tag.
    MalformedBinary,
    /// A line of text in none of the recognised forms.
    SyntaxError,
    /// A line that comes before any section marker.
    MissingSection,
    /// A name that is already in the symbol table.
    DuplicateName,
    /// A variable name that is not alphanumeric, or that names a register.
    InvalidName,
    /// A symbol index, or an array length, that does not fit its field.
    Overflow,
    /// A variable or a label that was never defined.
    Undefined,
    /// A program whose branches name a label that no line defines.
    UnresolvedLabel,
    /// A read of a register that was never written.
    UninitRegister,
    /// A pop from the empty stack.
    StackUnderflow,
    /// A division or a remainder by zero.
    DivByZero,
    /// An input instruction whose operand is a constant.
    InvalidTarget,
}

} // verus!
