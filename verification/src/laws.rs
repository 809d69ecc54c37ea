//! Library-wide laws, stated and proved over the same spec functions the
//! executable contracts use.

use crate::mem::{spec_add, spec_cell, spec_move, MemModel};
use crate::parse::{
    init_parse, lemma_closed_inv_is_wf, lemma_parse_byte_preserves, parse_byte, parse_from,
    parse_inv, spec_parse, ParseState,
};
use crate::run::{init_exec, run_from, spec_run, ExecState, RunOptions};
use crate::step::{LoopKind, Step};
use crate::{wf_steps, RunError};
use vstd::prelude::*;

verus! {

/// Compilation keeps the structural invariant all the way to the end of
/// the source, so what it returns is bracket-symmetric.
proof fn lemma_parse_from_wf(code: Seq<u8>, i: int, st: ParseState)
    requires
        0 <= i <= code.len(),
        code.len() <= usize::MAX,
        parse_inv(st.steps, st.stack),
        st.steps.len() <= i,
    ensures
        parse_from(code, i, st) matches Ok(s) ==> wf_steps(s),
    decreases code.len() - i,
{
    if i >= code.len() {
        if st.stack.len() == 0 {
            lemma_closed_inv_is_wf(st.steps, st.stack);
        }
    } else {
        match parse_byte(st, code[i], i as usize) {
            Ok(st2) => {
                lemma_parse_byte_preserves(st, code[i], i as usize);
                assert(st2.steps.len() <= st.steps.len() + 1);
                lemma_parse_from_wf(code, i + 1, st2);
            },
            Err(_) => {},
        }
    }
}

/// Bracket symmetry: every program that compilation returns pairs its
/// loop instructions both ways — a begin at `i` with target `j` has
/// `i < j`, the instruction at `j` is an end with target `i`, and vice
/// versa.
pub proof fn lemma_compiled_brackets_symmetric(code: Seq<u8>)
    requires
        code.len() <= usize::MAX,
    ensures
        spec_parse(code) matches Ok(s) ==> wf_steps(s),
{
    lemma_parse_from_wf(code, 0, init_parse());
}

/// Running one compiled program is deterministic: the same program, the
/// same ceilings and the same input always yield the same output and the
/// same verdict, however often the run is repeated.
pub proof fn lemma_run_deterministic(
    steps1: Seq<Step>,
    input1: Seq<u8>,
    opts1: RunOptions,
    steps2: Seq<Step>,
    input2: Seq<u8>,
    opts2: RunOptions,
)
    requires
        steps1 == steps2,
        input1 == input2,
        opts1 == opts2,
    ensures
        spec_run(steps1, input1, opts1) == spec_run(steps2, input2, opts2),
{
}

/// The tape after `n` unit increments of the current cell.
pub open spec fn iter_inc(m: MemModel, n: nat) -> MemModel
    decreases n,
{
    if n == 0 {
        m
    } else {
        spec_add(iter_inc(m, (n - 1) as nat), 1i8)
    }
}

/// After `n` unit increments, only the current cell has changed, and it
/// holds its original value plus `n`, modulo 256.
proof fn lemma_iter_inc_cell(m: MemModel, n: nat)
    requires
        m.inv(),
    ensures
        iter_inc(m, n).ptr == m.ptr,
        iter_inc(m, n).off == m.off,
        iter_inc(m, n).cells == m.cells.update(m.ptr, (((spec_cell(m) + n) % 256) as u8)),
    decreases n,
{
    if n == 0 {
        assert(m.cells.update(m.ptr, ((spec_cell(m) + 0) % 256) as u8) =~= m.cells);
    } else {
        lemma_iter_inc_cell(m, (n - 1) as nat);
        let prev = iter_inc(m, (n - 1) as nat);
        assert(spec_cell(prev) == ((spec_cell(m) + (n - 1)) % 256) as u8);
        assert((((spec_cell(m) + (n - 1)) % 256) + 1) % 256 == (spec_cell(m) + n) % 256) by {
            vstd::arithmetic::div_mod::lemma_add_mod_noop(spec_cell(m) + (n - 1), 1, 256);
        }
        assert(iter_inc(m, n).cells =~= m.cells.update(
            m.ptr,
            (((spec_cell(m) + n) % 256) as u8),
        ));
    }
}

/// Cell arithmetic wraps: 256 consecutive unit increments return the tape,
/// cell for cell, to exactly the state it started in.
pub proof fn lemma_increment_cycle(m: MemModel)
    requires
        m.inv(),
    ensures
        iter_inc(m, 256) == m,
{
    lemma_iter_inc_cell(m, 256);
    assert((spec_cell(m) + 256) % 256 == spec_cell(m)) by {
        vstd::arithmetic::div_mod::lemma_mod_add_multiples_vanish(spec_cell(m) as int, 256);
    }
    assert(iter_inc(m, 256).cells =~= m.cells);
    assert(iter_inc(m, 256) =~= m);
}

/// Cell arithmetic wraps below zero: one decrement of a zero cell yields
/// 255.
pub proof fn lemma_decrement_wraps(m: MemModel)
    requires
        m.inv(),
        spec_cell(m) == 0,
    ensures
        spec_cell(spec_add(m, -1i8)) == 255,
{
}

/// The tape after the pointer moves in `ds`, applied left to right under
/// the ceiling `max_len`; `None` as soon as one of them exceeds it.
pub open spec fn apply_moves(m: MemModel, ds: Seq<int>, max_len: int) -> Option<MemModel>
    decreases ds.len(),
{
    if ds.len() == 0 {
        Some(m)
    } else {
        match spec_move(m, ds[0], max_len) {
            Some(m2) => apply_moves(m2, ds.drop_first(), max_len),
            None => None,
        }
    }
}

/// The sum of a sequence of deltas.
pub open spec fn sum_of(ds: Seq<int>) -> int
    decreases ds.len(),
{
    if ds.len() == 0 {
        0
    } else {
        ds[0] + sum_of(ds.drop_first())
    }
}

/// One move keeps the tape well formed and shifts the logical address by
/// exactly the delta.
proof fn lemma_move_logical(m: MemModel, d: int, max_len: int)
    requires
        m.inv(),
    ensures
        spec_move(m, d, max_len) matches Some(m2) ==> m2.inv() && m2.logical() == m.logical() + d,
{
}

/// The tape-growth invariant: after any sequence of pointer moves that
/// stays under the memory ceiling, the logical address implied by the
/// internal index and the offset equals the exact signed sum of all the
/// deltas applied, and the tape stays well formed.
pub proof fn lemma_tape_growth(m: MemModel, ds: Seq<int>, max_len: int)
    requires
        m.inv(),
    ensures
        apply_moves(m, ds, max_len) matches Some(m2) ==> m2.inv() && m2.logical() == m.logical()
            + sum_of(ds),
    decreases ds.len(),
{
    if ds.len() > 0 {
        match spec_move(m, ds[0], max_len) {
            Some(m2) => {
                lemma_move_logical(m, ds[0], max_len);
                lemma_tape_growth(m2, ds.drop_first(), max_len);
            },
            None => {},
        }
    }
}

/// The canonical infinite loop with no I/O: set the cell to one, then spin
/// between the brackets forever.
pub open spec fn busy_loop() -> Seq<Step> {
    seq![
        Step::Add(1i8),
        Step::Loop(LoopKind::Begin, 2),
        Step::Loop(LoopKind::End, 1),
    ]
}

/// Spinning on the closing bracket with a non-zero cell consumes the whole
/// budget and then fails, producing nothing further.
proof fn lemma_spin(input: Seq<u8>, opts: RunOptions, st: ExecState, fuel: nat)
    requires
        st.ip == 2,
        spec_cell(st.mem) != 0,
    ensures
        run_from(busy_loop(), input, opts, st, fuel) == (
            st.out,
            Err::<(), RunError>(RunError::StepLimit(opts.max_step_count)),
        ),
    decreases fuel,
{
    if fuel > 0 {
        lemma_spin(input, opts, ExecState { ip: 2, ..st }, (fuel - 1) as nat);
    }
}

/// Limit enforcement: the infinite loop, run under any step ceiling `N`,
/// always fails with the step-limit error carrying `N` — it executes
/// exactly its budget of `N` steps, never succeeds, and emits no output,
/// whatever the input and the memory ceiling.
pub proof fn lemma_step_limit_exact(input: Seq<u8>, opts: RunOptions)
    ensures
        spec_run(busy_loop(), input, opts) == (
            Seq::<u8>::empty(),
            Err::<(), RunError>(RunError::StepLimit(opts.max_step_count)),
        ),
{
    let n = opts.max_step_count as nat;
    let st0 = init_exec();
    if n == 0 {
        assert(run_from(busy_loop(), input, opts, st0, 0) == (
            Seq::<u8>::empty(),
            Err::<(), RunError>(RunError::StepLimit(opts.max_step_count)),
        ));
    } else {
        let st1 = ExecState { mem: spec_add(st0.mem, 1i8), ip: 1, ..st0 };
        assert(busy_loop()[0] == Step::Add(1i8));
        assert(run_from(busy_loop(), input, opts, st0, n) == run_from(
            busy_loop(),
            input,
            opts,
            st1,
            (n - 1) as nat,
        ));
        assert(spec_cell(st1.mem) == 1);
        if n == 1 {
            assert(run_from(busy_loop(), input, opts, st1, 0) == (
                Seq::<u8>::empty(),
                Err::<(), RunError>(RunError::StepLimit(opts.max_step_count)),
            ));
        } else {
            let st2 = ExecState { ip: 2, ..st1 };
            assert(busy_loop()[1] == Step::Loop(LoopKind::Begin, 2));
            assert(run_from(busy_loop(), input, opts, st1, (n - 1) as nat) == run_from(
                busy_loop(),
                input,
                opts,
                st2,
                (n - 2) as nat,
            ));
            lemma_spin(input, opts, st2, (n - 2) as nat);
        }
    }
}

} // verus!
