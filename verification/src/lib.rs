//! A brainfuck compiler and interpreter.
//!
//! [`Brainfuck::parse_ascii`] compiles source bytes into an immutable
//! [`Brainfuck`] program: a flat instruction sequence in which runs of
//! like instructions are folded and every bracket carries the index of its
//! resolved partner. [`Brainfuck::run_with`] then executes the program
//! against an input byte slice and an output byte buffer, under
//! caller-supplied ceilings on tape size and step count.

pub mod digits;
pub mod error;
pub mod laws;
pub mod mem;
pub mod parse;
pub mod run;
pub mod step;

pub use crate::error::{ParseError, RunError};
pub use crate::mem::Memory;
pub use crate::run::RunOptions;
pub use crate::step::{LoopKind, Step};

use vstd::prelude::*;

verus! {

/// A precompiled brainfuck program.
#[derive(Debug, Clone, PartialEq, Eq)]
pub struct Brainfuck {
    steps: Vec<Step>,
}

impl View for Brainfuck {
    type V = Seq<Step>;

    closed spec fn view(&self) -> Seq<Step> {
        self.steps@
    }
}

/// Bracket symmetry: every loop instruction carries the index of a partner
/// of the opposite kind whose own index points back at it, with the begin
/// side strictly before the end side.
pub open spec fn wf_steps(steps: Seq<Step>) -> bool {
    forall|i: int|
        0 <= i < steps.len() ==> match #[trigger] steps[i] {
            Step::Loop(LoopKind::Begin, j) => i < j < steps.len() && steps[j as int]
                == Step::Loop(LoopKind::End, i as usize),
            Step::Loop(LoopKind::End, j) => j < i && steps[j as int] == Step::Loop(
                LoopKind::Begin,
                i as usize,
            ),
            _ => true,
        }
}

impl Brainfuck {
    /// The bracket-symmetry invariant, guaranteed for every program that
    /// compilation returns.
    pub open spec fn wf(&self) -> bool {
        wf_steps(self@)
    }

    /// Wrap a finished instruction sequence.
    pub(crate) fn from_steps(steps: Vec<Step>) -> (b: Brainfuck)
        ensures
            b@ == steps@,
    {
        Brainfuck { steps }
    }

    /// The instruction at `index`.
    pub(crate) fn step_at(&self, index: usize) -> (s: Step)
        requires
            index < self@.len(),
        ensures
            s == self@[index as int],
    {
        self.steps[index]
    }

    /// The number of compiled instructions.
    pub fn step_count(&self) -> (n: usize)
        ensures
            n == self@.len(),
    {
        self.steps.len()
    }

    /// The index of the loop instruction matching the one at `index`, or
    /// `None` when `index` is out of range or not a loop instruction.
    pub fn loop_target(&self, index: usize) -> (r: Option<usize>)
        ensures
            index < self@.len() ==> (self@[index as int] matches Step::Loop(_, j) ==> r == Some(
                j,
            )),
            !(index < self@.len() && self@[index as int] matches Step::Loop(_, _)) ==> r is None,
    {
        if index < self.steps.len() {
            match self.steps[index] {
                Step::Loop(_, j) => Some(j),
                _ => None,
            }
        } else {
            None
        }
    }
}

} // verus!
