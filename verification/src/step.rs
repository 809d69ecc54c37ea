//! The compiled instruction set.

use crate::mem::{spec_cell, Memory};
use vstd::prelude::*;

verus! {

/// Whether a loop instruction of kind `kind` transfers control when the
/// current cell holds `cell`.
pub open spec fn jump_on(kind: LoopKind, cell: u8) -> bool {
    match kind {
        LoopKind::Begin => cell == 0,
        LoopKind::End => cell != 0,
    }
}

/// Which side of a loop a [`Step::Loop`] instruction is.
#[derive(Debug, Clone, Copy, PartialEq, Eq, Structural)]
pub enum LoopKind {
    /// A `[`: skips past its partner when the current cell is zero.
    Begin,
    /// A `]`: jumps back past its partner when the current cell is non-zero.
    End,
}

/// One compiled instruction.
///
/// Runs of `+`/`-` and of `<`/`>` are folded into a single `Add` or `Move`
/// with an accumulated delta; each `Loop` carries the instruction index of
/// its matching partner, resolved at compile time.
#[derive(Debug, Clone, Copy, PartialEq, Eq, Structural)]
pub enum Step {
    /// Net increment of the current cell, applied modulo 256.
    Add(i8),
    /// Net displacement of the tape pointer.
    Move(isize),
    /// A resolved bracket; the `usize` is the index of its partner.
    Loop(LoopKind, usize),
    /// Write the current cell to the output.
    Output,
    /// Read one byte into the current cell; end of input yields zero.
    Input,
    /// Emit the pointer's logical address and the current cell as text.
    Debug,
}

impl LoopKind {
    /// Whether this loop instruction transfers control, given the tape's
    /// current cell: a begin jumps on zero, an end jumps on non-zero.
    pub fn should_jump(self, mem: &Memory) -> (r: bool)
        requires
            mem.inv(),
        ensures
            r == jump_on(self, spec_cell(mem@)),
    {
        let c = mem.get_cell() == 0;
        match self {
            Self::Begin => c,
            Self::End => !c,
        }
    }
}

} // verus!
