//! The execution engine.
//!
//! A compiled program is immutable; each call to [`Brainfuck::run_with`]
//! owns its tape, input cursor and step counter, so one program may be run
//! any number of times, concurrently or not, without recompilation. The
//! whole behaviour of a run is pinned by [`spec_run`], a fuel-bounded
//! recursive interpreter over the mathematical tape model.

use crate::error::RunError;
use crate::mem::{debug_bytes, init_mem, spec_add, spec_cell, spec_move, spec_set, MemModel, Memory};
use crate::step::{jump_on, Step};
use crate::Brainfuck;
use vstd::prelude::*;

verus! {

/// Options for [`Brainfuck::run_with`](crate::Brainfuck::run_with).
#[derive(Debug, Clone)]
#[non_exhaustive]
pub struct RunOptions {
    /// The maximum allowed size of the memory tape, in cells.
    ///
    /// Defaults to [`usize::MAX`].
    pub max_mem_bytes: usize,
    /// The maximum number of steps to run, where a step is one dispatch of
    /// the interpreter loop (which may cover several folded source
    /// characters). Its main purpose is to bound infinite loops in
    /// user-provided code.
    ///
    /// Defaults to [`usize::MAX`].
    pub max_step_count: usize,
}

impl Default for RunOptions {
    /// Both ceilings effectively unbounded.
    fn default() -> (r: Self)
        ensures
            r.max_mem_bytes == usize::MAX,
            r.max_step_count == usize::MAX,
    {
        Self { max_mem_bytes: usize::MAX, max_step_count: usize::MAX }
    }
}

impl RunOptions {
    /// Create the default [`RunOptions`].
    pub fn new() -> (r: Self)
        ensures
            r.max_mem_bytes == usize::MAX,
            r.max_step_count == usize::MAX,
    {
        Self::default()
    }

    /// Builder pattern for [`max_mem_bytes`](RunOptions::max_mem_bytes).
    pub fn max_mem_bytes(self, max_mem_bytes: usize) -> (r: Self)
        ensures
            r.max_mem_bytes == max_mem_bytes,
            r.max_step_count == self.max_step_count,
    {
        let mut r = self;
        r.max_mem_bytes = max_mem_bytes;
        r
    }

    /// Builder pattern for [`max_step_count`](RunOptions::max_step_count).
    pub fn max_step_count(self, max_step_count: usize) -> (r: Self)
        ensures
            r.max_mem_bytes == self.max_mem_bytes,
            r.max_step_count == max_step_count,
    {
        let mut r = self;
        r.max_step_count = max_step_count;
        r
    }
}

/// The options [`RunOptions::new`] and [`RunOptions::default`] yield: both
/// ceilings effectively unbounded.
pub open spec fn default_options() -> RunOptions {
    RunOptions { max_mem_bytes: usize::MAX, max_step_count: usize::MAX }
}

/// The state of one execution between steps: the tape, how much of the
/// input has been consumed, the output produced so far, and the
/// instruction pointer.
pub struct ExecState {
    /// The tape.
    pub mem: MemModel,
    /// How many input bytes have been consumed.
    pub inp: int,
    /// The output produced so far.
    pub out: Seq<u8>,
    /// The instruction pointer.
    pub ip: int,
}

/// The state a run starts in.
pub open spec fn init_exec() -> ExecState {
    ExecState { mem: init_mem(), inp: 0, out: Seq::empty(), ip: 0 }
}

/// The rest of a run from state `st` with `fuel` steps of budget left:
/// the whole output of the run, and its verdict. A run succeeds exactly
/// when the instruction pointer leaves the program; an instruction found
/// with no fuel left is the step-limit error, and a move that would grow
/// the tape past the ceiling is the memory-limit error. Jumps land just
/// past the partner bracket; reading exhausted input yields zero.
pub open spec fn run_from(
    steps: Seq<Step>,
    input: Seq<u8>,
    opts: RunOptions,
    st: ExecState,
    fuel: nat,
) -> (Seq<u8>, Result<(), RunError>)
    decreases fuel,
{
    if !(0 <= st.ip < steps.len()) {
        (st.out, Ok(()))
    } else if fuel == 0 {
        (st.out, Err(RunError::StepLimit(opts.max_step_count)))
    } else {
        let f2 = (fuel - 1) as nat;
        match steps[st.ip] {
            Step::Add(d) => run_from(
                steps,
                input,
                opts,
                ExecState { mem: spec_add(st.mem, d), ip: st.ip + 1, ..st },
                f2,
            ),
            Step::Move(d) => match spec_move(st.mem, d as int, opts.max_mem_bytes as int) {
                Some(m) => run_from(steps, input, opts, ExecState { mem: m, ip: st.ip + 1, ..st }, f2),
                None => (st.out, Err(RunError::MemoryLimit(opts.max_mem_bytes))),
            },
            Step::Loop(kind, target) => run_from(
                steps,
                input,
                opts,
                ExecState {
                    ip: if jump_on(kind, spec_cell(st.mem)) {
                        target + 1
                    } else {
                        st.ip + 1
                    },
                    ..st
                },
                f2,
            ),
            Step::Output => run_from(
                steps,
                input,
                opts,
                ExecState { out: st.out.push(spec_cell(st.mem)), ip: st.ip + 1, ..st },
                f2,
            ),
            Step::Input => run_from(
                steps,
                input,
                opts,
                ExecState {
                    mem: spec_set(
                        st.mem,
                        if 0 <= st.inp < input.len() {
                            input[st.inp]
                        } else {
                            0u8
                        },
                    ),
                    inp: st.inp + 1,
                    ip: st.ip + 1,
                    ..st
                },
                f2,
            ),
            Step::Debug => run_from(
                steps,
                input,
                opts,
                ExecState { out: st.out + debug_bytes(st.mem), ip: st.ip + 1, ..st },
                f2,
            ),
        }
    }
}

/// The whole output and the verdict of running `steps` on `input` under
/// the ceilings in `opts`, starting from a fresh tape with a step budget
/// of `opts.max_step_count`.
pub open spec fn spec_run(steps: Seq<Step>, input: Seq<u8>, opts: RunOptions) -> (
    Seq<u8>,
    Result<(), RunError>,
) {
    run_from(steps, input, opts, init_exec(), opts.max_step_count as nat)
}

impl Brainfuck {
    /// Execute this brainfuck program with the default [`RunOptions`],
    /// reading input from `input` and appending all output to `output`.
    ///
    /// See [`run_with`](Brainfuck::run_with) for more information.
    pub fn run(&self, input: &[u8], output: &mut Vec<u8>) -> (r: Result<(), RunError>)
        requires
            self.wf(),
        ensures
            final(output)@ == old(output)@ + spec_run(self@, input@, default_options()).0,
            r == spec_run(self@, input@, default_options()).1,
    {
        self.run_with(RunOptions::new(), input, output)
    }

    /// Execute this brainfuck program with custom [`RunOptions`].
    ///
    /// Input is consumed from the front of `input`; once it is exhausted,
    /// further reads yield zero. Output is appended to `output`, and
    /// whatever was produced before a failure stays there: partial output
    /// is preserved, not discarded.
    pub fn run_with(&self, options: RunOptions, input: &[u8], output: &mut Vec<u8>) -> (r: Result<
        (),
        RunError,
    >)
        requires
            self.wf(),
        ensures
            final(output)@ == old(output)@ + spec_run(self@, input@, options).0,
            r == spec_run(self@, input@, options).1,
    {
        let ghost opts = options;
        let ghost base = output@;
        let max_steps = options.max_step_count;
        let max_mem = options.max_mem_bytes;
        let mut mem = Memory::new();
        let mut ip: usize = 0;
        let mut inp: usize = 0;
        let mut steps_done: usize = 0;
        let n = self.step_count();
        proof {
            assert(output@.skip(base.len() as int) =~= Seq::<u8>::empty());
            assert(ExecState {
                mem: mem@,
                inp: 0int,
                out: output@.skip(base.len() as int),
                ip: 0int,
            } == init_exec());
        }
        while ip < n
            invariant
                self.wf(),
                n == self@.len(),
                base == old(output)@,
                opts == options,
                max_steps == opts.max_step_count,
                max_mem == opts.max_mem_bytes,
                mem.inv(),
                steps_done <= max_steps,
                inp <= steps_done,
                base.len() <= output@.len(),
                output@.subrange(0, base.len() as int) == base,
                run_from(
                    self@,
                    input@,
                    opts,
                    ExecState {
                        mem: mem@,
                        inp: inp as int,
                        out: output@.skip(base.len() as int),
                        ip: ip as int,
                    },
                    (max_steps - steps_done) as nat,
                ) == spec_run(self@, input@, opts),
            decreases max_steps - steps_done,
        {
            let ghost st0 = ExecState {
                mem: mem@,
                inp: inp as int,
                out: output@.skip(base.len() as int),
                ip: ip as int,
            };
            let ghost fuel0 = (max_steps - steps_done) as nat;
            let ghost out0 = output@;
            let step = self.step_at(ip);
            if steps_done == max_steps {
                proof {
                    assert(run_from(self@, input@, opts, st0, 0) == (
                        st0.out,
                        Err::<(), RunError>(RunError::StepLimit(opts.max_step_count)),
                    ));
                    assert(output@ =~= base + output@.skip(base.len() as int));
                }
                return Err(RunError::StepLimit(max_steps));
            }
            steps_done = steps_done + 1;
            match step {
                Step::Add(d) => {
                    mem.add(d);
                    ip = ip + 1;
                },
                Step::Move(d) => {
                    let moved = mem.try_move(d, max_mem);
                    if !moved {
                        proof {
                            assert(run_from(self@, input@, opts, st0, fuel0) == (
                                st0.out,
                                Err::<(), RunError>(RunError::MemoryLimit(opts.max_mem_bytes)),
                            ));
                            assert(output@ =~= base + output@.skip(base.len() as int));
                        }
                        return Err(RunError::MemoryLimit(max_mem));
                    }
                    ip = ip + 1;
                },
                Step::Loop(kind, target) => {
                    proof {
                        assert(self@[ip as int] == Step::Loop(kind, target));
                        assert(target < n);
                    }
                    if kind.should_jump(&mem) {
                        ip = target + 1;
                    } else {
                        ip = ip + 1;
                    }
                },
                Step::Output => {
                    let c = mem.get_cell();
                    output.push(c);
                    ip = ip + 1;
                    proof {
                        assert(output@.skip(base.len() as int) =~= st0.out.push(c));
                        assert(output@.subrange(0, base.len() as int) =~= base);
                    }
                },
                Step::Input => {
                    let v: u8 = if inp < input.len() {
                        input[inp]
                    } else {
                        0
                    };
                    mem.set_cell(v);
                    inp = inp + 1;
                    ip = ip + 1;
                },
                Step::Debug => {
                    mem.append_debug(output);
                    ip = ip + 1;
                    proof {
                        assert(output@.skip(base.len() as int) =~= st0.out + debug_bytes(st0.mem));
                        assert(output@.subrange(0, base.len() as int) =~= base);
                    }
                },
            }
            proof {
                let st1 = ExecState {
                    mem: mem@,
                    inp: inp as int,
                    out: output@.skip(base.len() as int),
                    ip: ip as int,
                };
                assert(run_from(self@, input@, opts, st0, fuel0) == run_from(
                    self@,
                    input@,
                    opts,
                    st1,
                    (max_steps - steps_done) as nat,
                ));
            }
        }
        proof {
            assert(run_from(
                self@,
                input@,
                opts,
                ExecState {
                    mem: mem@,
                    inp: inp as int,
                    out: output@.skip(base.len() as int),
                    ip: ip as int,
                },
                (max_steps - steps_done) as nat,
            ) == (output@.skip(base.len() as int), Ok::<(), RunError>(())));
            assert(output@ =~= base + output@.skip(base.len() as int));
        }
        Ok(())
    }
}

} // verus!
