use vstd::prelude::*;
use crate::data_types::ChunkSize;

verus! {

/// Arithmetic on the two topmost values.
#[derive(Debug, Clone, Copy, PartialEq, Eq, Structural)]
pub enum Calculation {
    Addition,
    Subtraction,
    Division,
    Multiplication,
}

/// Relation between the two topmost values.
#[derive(Debug, Clone, Copy, PartialEq, Eq, Structural)]
pub enum Comparison {
    Equals,
    GreaterOrEqual,
    GreaterThan,
    LessOrEqual,
    LessThan,
    NotEquals,
}

/// Number of arguments that a system call can have: one for each register
/// that the platform takes arguments in.
pub const SYSCALL_ARGUMENTS: u8 = 6;

/// Built-in word of the language.
#[derive(Debug, Clone, Copy, PartialEq, Eq, Structural)]
pub enum Intrinsic {
    /// Pushes a copy of the top value.
    Dup,
    /// Removes the top value.
    Drop,
    /// Exchanges the two topmost values.
    Swap,
    /// Brings the third value to the top.
    Rot,
    /// Pushes a copy of the second value.
    Over,
    /// Reads an integer of the given size from an address.
    Load(ChunkSize),
    /// Writes an integer of the given size to an address.
    Store(ChunkSize),
    /// Shifts bits to the left.
    Shl,
    /// Shifts bits to the right.
    Shr,
    /// Calls the operating system with the given number of arguments, which
    /// are no more than `SYSCALL_ARGUMENTS`.
    Syscall(u8),
    /// Prints an integer.
    Print,
}

} // verus!
