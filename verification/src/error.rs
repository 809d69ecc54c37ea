//! Error types reported by compilation and execution.

use vstd::prelude::*;

verus! {

/// An error that may occur when parsing brainfuck code.
#[derive(Debug, PartialEq, Eq, Structural)]
#[non_exhaustive]
pub enum ParseError {
    /// The bracket at this byte index is missing a matching bracket.
    MissingBracket(usize),
    /// A run of `<`/`>` characters folded to a pointer displacement that
    /// does not fit in `isize`; tape addressing is not modular, so the
    /// compiler fails fast instead of wrapping. Carries the byte index of
    /// the character whose accumulation overflowed.
    MoveOverflow(usize),
}

/// An error that may occur when executing brainfuck.
#[derive(Debug, PartialEq, Eq, Structural)]
#[non_exhaustive]
pub enum RunError {
    /// The memory limit defined in [`RunOptions`](crate::RunOptions) was
    /// reached. Carries the limit value, in tape cells (bytes).
    MemoryLimit(usize),
    /// The step limit defined in [`RunOptions`](crate::RunOptions) was
    /// reached. Carries the limit value.
    StepLimit(usize),
}

} // verus!
