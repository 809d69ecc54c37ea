//! Compilation of source bytes into a [`Brainfuck`] program.
//!
//! The compiler walks the source once, folding runs of `+`/`-` and of
//! `<`/`>` into single instructions, and resolves brackets with an explicit
//! stack of open positions, so that every surviving loop instruction
//! carries the index of its partner.

use crate::error::ParseError;
use crate::step::{LoopKind, Step};
use crate::{wf_steps, Brainfuck};
use vstd::prelude::*;

verus! {

/// The compiler's state after some prefix of the source: the instructions
/// emitted so far, and the stack of still-open brackets as pairs of
/// (instruction index, source byte index).
pub struct ParseState {
    /// The instructions emitted so far.
    pub steps: Seq<Step>,
    /// The still-open brackets, innermost last.
    pub stack: Seq<(usize, usize)>,
}

/// The compiler's starting state.
pub open spec fn init_parse() -> ParseState {
    ParseState { steps: Seq::empty(), stack: Seq::empty() }
}

/// The compiler's transition on one source byte at byte index `i`.
pub open spec fn parse_byte(st: ParseState, b: u8, i: usize) -> Result<ParseState, ParseError> {
    if b == 43 || b == 45 {  // '+' '-'
        let d: i8 = if b == 43 {
            1i8
        } else {
            -1i8
        };
        if st.steps.len() > 0 && (st.steps.last() matches Step::Add(_)) {
            match st.steps.last() {
                Step::Add(prev) => Ok(
                    ParseState {
                        steps: st.steps.update(
                            st.steps.len() - 1,
                            Step::Add(vstd::wrapping::i8_specs::wrapping_add(prev, d)),
                        ),
                        ..st
                    },
                ),
                _ => Ok(st),
            }
        } else {
            Ok(ParseState { steps: st.steps.push(Step::Add(d)), ..st })
        }
    } else if b == 62 || b == 60 {  // '>' '<'
        let d: int = if b == 62 {
            1
        } else {
            -1
        };
        if st.steps.len() > 0 && (st.steps.last() matches Step::Move(_)) {
            match st.steps.last() {
                Step::Move(prev) => if isize::MIN <= prev + d <= isize::MAX {
                    Ok(
                        ParseState {
                            steps: st.steps.update(
                                st.steps.len() - 1,
                                Step::Move((prev + d) as isize),
                            ),
                            ..st
                        },
                    )
                } else {
                    Err(ParseError::MoveOverflow(i))
                },
                _ => Ok(st),
            }
        } else {
            Ok(ParseState { steps: st.steps.push(Step::Move(d as isize)), ..st })
        }
    } else if b == 91 {  // '['
        Ok(
            ParseState {
                steps: st.steps.push(Step::Loop(LoopKind::Begin, 0)),
                stack: st.stack.push((st.steps.len() as usize, i)),
            },
        )
    } else if b == 93 {  // ']'
        if st.stack.len() == 0 {
            Err(ParseError::MissingBracket(i))
        } else {
            let s = st.stack.last().0;
            let e = st.steps.len() as usize;
            Ok(
                ParseState {
                    steps: st.steps.update(s as int, Step::Loop(LoopKind::Begin, e)).push(
                        Step::Loop(LoopKind::End, s),
                    ),
                    stack: st.stack.drop_last(),
                },
            )
        }
    } else if b == 46 {  // '.'
        Ok(ParseState { steps: st.steps.push(Step::Output), ..st })
    } else if b == 44 {  // ','
        Ok(ParseState { steps: st.steps.push(Step::Input), ..st })
    } else if b == 63 {  // '?'
        Ok(ParseState { steps: st.steps.push(Step::Debug), ..st })
    } else {
        Ok(st)
    }
}

/// The compiler's result on the rest of the source from byte index `i`
/// onward, started in state `st`: the finished instruction sequence, or
/// the first error. At the end of the source a non-empty stack reports the
/// earliest still-open bracket.
pub open spec fn parse_from(code: Seq<u8>, i: int, st: ParseState) -> Result<Seq<Step>, ParseError>
    decreases code.len() - i,
{
    if i < 0 || i >= code.len() {
        if st.stack.len() == 0 {
            Ok(st.steps)
        } else {
            Err(ParseError::MissingBracket(st.stack[0].1))
        }
    } else {
        match parse_byte(st, code[i], i as usize) {
            Ok(st2) => parse_from(code, i + 1, st2),
            Err(e) => Err(e),
        }
    }
}

/// What compiling `code` yields.
pub open spec fn spec_parse(code: Seq<u8>) -> Result<Seq<Step>, ParseError> {
    parse_from(code, 0, init_parse())
}

/// Whether some open bracket on `stack` is at instruction index `x`.
pub open spec fn stack_has(stack: Seq<(usize, usize)>, x: usize) -> bool {
    exists|a: int| 0 <= a < stack.len() && (#[trigger] stack[a]).0 == x
}

/// A loop-end at `k` is fully paired: its target is an earlier begin that
/// points back at it and is no longer open.
pub open spec fn end_ok(steps: Seq<Step>, stack: Seq<(usize, usize)>, k: int) -> bool {
    steps[k] matches Step::Loop(LoopKind::End, t) ==> t < k && steps[t as int] == Step::Loop(
        LoopKind::Begin,
        k as usize,
    ) && !stack_has(stack, t)
}

/// A loop-begin at `k` is either still open on the stack or fully paired
/// with a later end that points back at it.
pub open spec fn begin_ok(steps: Seq<Step>, stack: Seq<(usize, usize)>, k: int) -> bool {
    steps[k] matches Step::Loop(LoopKind::Begin, t) ==> (stack_has(stack, k as usize) || (k < t
        < steps.len() && steps[t as int] == Step::Loop(LoopKind::End, k as usize)))
}

/// The compiler's structural invariant: stack entries index loop-begins in
/// strictly increasing order, and every emitted loop instruction is either
/// open on the stack or symmetrically paired.
pub open spec fn parse_inv(steps: Seq<Step>, stack: Seq<(usize, usize)>) -> bool {
    &&& forall|a: int|
        0 <= a < stack.len() ==> (#[trigger] stack[a]).0 < steps.len() && (
        steps[stack[a].0 as int] matches Step::Loop(LoopKind::Begin, _))
    &&& forall|a: int, b: int|
        0 <= a < b < stack.len() ==> (#[trigger] stack[a]).0 < (#[trigger] stack[b]).0
    &&& forall|k: int| 0 <= k < steps.len() ==> #[trigger] end_ok(steps, stack, k)
    &&& forall|k: int| 0 <= k < steps.len() ==> #[trigger] begin_ok(steps, stack, k)
}

/// One compiler transition keeps the structural invariant.
pub(crate) proof fn lemma_parse_byte_preserves(st: ParseState, b: u8, i: usize)
    requires
        parse_inv(st.steps, st.stack),
        st.steps.len() < usize::MAX,
    ensures
        parse_byte(st, b, i) matches Ok(st2) ==> parse_inv(st2.steps, st2.stack),
{
    let steps = st.steps;
    let stack = st.stack;
    if parse_byte(st, b, i) is Ok {
        let st2 = parse_byte(st, b, i)->Ok_0;
        let steps2 = st2.steps;
        let stack2 = st2.stack;
        if b == 91 {
            // a new open begin is pushed on both sequences
            let n = steps.len() as int;
            assert forall|k: int| 0 <= k < steps2.len() implies #[trigger] end_ok(
                steps2,
                stack2,
                k,
            ) by {
                if k < n {
                    assert(end_ok(steps, stack, k));
                    assert(steps2[k] == steps[k]);
                    match steps2[k] {
                        Step::Loop(LoopKind::End, t) => {
                            assert(t < k);
                            assert(!stack_has(stack, t));
                            if stack_has(stack2, t) {
                                let a = choose|a: int|
                                    0 <= a < stack2.len() && (#[trigger] stack2[a]).0 == t;
                                if a < stack.len() {
                                    assert((stack[a]).0 == t);
                                    assert(false);
                                } else {
                                    assert((stack2[a]).0 == steps.len() as usize);
                                    assert(false);
                                }
                            }
                            assert(steps2[t as int] == steps[t as int]);
                        },
                        _ => {},
                    }
                }
            }
            assert forall|k: int| 0 <= k < steps2.len() implies #[trigger] begin_ok(
                steps2,
                stack2,
                k,
            ) by {
                if k < n {
                    assert(begin_ok(steps, stack, k));
                    if stack_has(stack, k as usize) {
                        let a = choose|a: int|
                            0 <= a < stack.len() && (#[trigger] stack[a]).0 == k as usize;
                        assert((stack2[a]).0 == k as usize);
                    }
                } else {
                    assert(stack2[stack2.len() - 1].0 == k as usize);
                }
            }
        } else if b == 93 && stack.len() > 0 {
            let s = stack.last().0;
            let e = steps.len() as usize;
            let n = steps.len() as int;
            assert(s < steps.len() && (steps[s as int] matches Step::Loop(LoopKind::Begin, _)));
            assert(stack_has(stack, s)) by {
                assert((stack[stack.len() - 1]).0 == s);
            }
            assert forall|k: int| 0 <= k < steps2.len() implies #[trigger] end_ok(
                steps2,
                stack2,
                k,
            ) by {
                match steps2[k] {
                    Step::Loop(LoopKind::End, t) => {
                        if k == n {
                            // the new end pairs with the begin just patched
                            assert(t == s);
                            assert(steps2[s as int] == Step::Loop(LoopKind::Begin, e));
                            assert forall|a: int| 0 <= a < stack2.len() implies (
                            #[trigger] stack2[a]).0 != s by {
                                assert(stack[a].0 < stack[stack.len() - 1].0);
                            }
                        } else if k == s {
                            // now a begin, nothing to show
                            assert(steps2[k] matches Step::Loop(LoopKind::Begin, _));
                        } else {
                            assert(end_ok(steps, stack, k));
                            assert(steps[k] matches Step::Loop(LoopKind::End, t));
                            // t is fully paired, hence distinct from the open s
                            assert(t != s);
                            assert(steps2[t as int] == steps[t as int]);
                            assert(!stack_has(stack2, t)) by {
                                if stack_has(stack2, t) {
                                    let a = choose|a: int|
                                        0 <= a < stack2.len() && (#[trigger] stack2[a]).0 == t;
                                    assert((stack[a]).0 == t);
                                    assert(stack_has(stack, t));
                                }
                            }
                        }
                    },
                    _ => {},
                }
            }
            assert forall|k: int| 0 <= k < steps2.len() implies #[trigger] begin_ok(
                steps2,
                stack2,
                k,
            ) by {
                match steps2[k] {
                    Step::Loop(LoopKind::Begin, t) => {
                        if k == s as int {
                            assert(t == e);
                            assert(steps2[e as int] == Step::Loop(LoopKind::End, s));
                        } else if k < n {
                            assert(begin_ok(steps, stack, k));
                            assert(steps[k] == Step::Loop(LoopKind::Begin, t));
                            if stack_has(stack, k as usize) {
                                let a = choose|a: int|
                                    0 <= a < stack.len() && (#[trigger] stack[a]).0 == k as usize;
                                assert(a < stack.len() - 1) by {
                                    if a == stack.len() - 1 {
                                        assert((stack[a]).0 == s);
                                        assert(k == s as int);
                                    }
                                }
                                assert((stack2[a]).0 == k as usize);
                                assert(stack_has(stack2, k as usize));
                            } else {
                                assert(steps[t as int] == Step::Loop(LoopKind::End, k as usize));
                                assert(t != s);
                                assert(steps2[t as int] == steps[t as int]);
                            }
                        }
                    },
                    _ => {},
                }
            }
        } else if steps2 != steps {
            // a push of a non-loop instruction, or an in-place refolding of
            // the trailing add or move; the stack is unchanged
            assert(stack2 == stack);
            assert forall|k: int| 0 <= k < steps2.len() implies #[trigger] end_ok(
                steps2,
                stack2,
                k,
            ) by {
                if k < steps.len() && steps2[k] == steps[k] {
                    assert(end_ok(steps, stack, k));
                    match steps2[k] {
                        Step::Loop(LoopKind::End, t) => {
                            assert(steps2[t as int] == steps[t as int]);
                        },
                        _ => {},
                    }
                }
            }
            assert forall|k: int| 0 <= k < steps2.len() implies #[trigger] begin_ok(
                steps2,
                stack2,
                k,
            ) by {
                if k < steps.len() && steps2[k] == steps[k] {
                    assert(begin_ok(steps, stack, k));
                    match steps2[k] {
                        Step::Loop(LoopKind::Begin, t) => {
                            if !stack_has(stack, k as usize) {
                                assert(steps2[t as int] == steps[t as int]);
                            }
                        },
                        _ => {},
                    }
                }
            }
        }
    }
}

/// Once no bracket is left open, the structural invariant is exactly
/// bracket symmetry.
pub(crate) proof fn lemma_closed_inv_is_wf(steps: Seq<Step>, stack: Seq<(usize, usize)>)
    requires
        parse_inv(steps, stack),
        stack.len() == 0,
    ensures
        wf_steps(steps),
{
    assert forall|k: int| #![trigger steps[k]] 0 <= k < steps.len() implies match steps[k] {
        Step::Loop(LoopKind::Begin, j) => k < j < steps.len() && steps[j as int] == Step::Loop(
            LoopKind::End,
            k as usize,
        ),
        Step::Loop(LoopKind::End, j) => j < k && steps[j as int] == Step::Loop(
            LoopKind::Begin,
            k as usize,
        ),
        _ => true,
    } by {
        assert(end_ok(steps, stack, k));
        assert(begin_ok(steps, stack, k));
    }
}

impl Brainfuck {
    /// Parse and compile an ASCII brainfuck program.
    ///
    /// Only the eight significant characters (and `?`, the debug
    /// instruction) produce code; every other byte is inert. An unmatched
    /// `]` fails at once at its byte index; at the end of the source a
    /// still-open `[` fails at the byte index of the earliest one.
    pub fn parse_ascii(code: &[u8]) -> (r: Result<Brainfuck, ParseError>)
        ensures
            spec_parse(code@) matches Ok(s) ==> (r matches Ok(bf) && bf@ == s && bf.wf()),
            spec_parse(code@) matches Err(e) ==> r == Result::<Brainfuck, ParseError>::Err(e),
    {
        let mut steps: Vec<Step> = Vec::new();
        let mut stack: Vec<(usize, usize)> = Vec::new();
        let n = code.len();
        let mut i: usize = 0;
        while i < n
            invariant
                n == code@.len(),
                i <= n,
                steps@.len() <= i,
                parse_inv(steps@, stack@),
                parse_from(code@, i as int, ParseState { steps: steps@, stack: stack@ })
                    == spec_parse(code@),
            decreases n - i,
        {
            let ghost cur = ParseState { steps: steps@, stack: stack@ };
            let b = code[i];
            proof {
                lemma_parse_byte_preserves(cur, b, i);
            }
            if b == 43 || b == 45 {
                let d: i8 = if b == 43 {
                    1
                } else {
                    -1
                };
                let len_s = steps.len();
                let mut merged = false;
                if len_s > 0 {
                    match steps[len_s - 1] {
                        Step::Add(prev) => {
                            steps[len_s - 1] = Step::Add(prev.wrapping_add(d));
                            merged = true;
                        },
                        _ => {},
                    }
                }
                if !merged {
                    steps.push(Step::Add(d));
                }
            } else if b == 62 || b == 60 {
                let d: isize = if b == 62 {
                    1
                } else {
                    -1
                };
                let len_s = steps.len();
                let mut merged = false;
                if len_s > 0 {
                    match steps[len_s - 1] {
                        Step::Move(prev) => {
                            match prev.checked_add(d) {
                                Some(nv) => {
                                    steps[len_s - 1] = Step::Move(nv);
                                    merged = true;
                                },
                                None => {
                                    return Err(ParseError::MoveOverflow(i));
                                },
                            }
                        },
                        _ => {},
                    }
                }
                if !merged {
                    steps.push(Step::Move(d));
                }
            } else if b == 91 {
                stack.push((steps.len(), i));
                steps.push(Step::Loop(LoopKind::Begin, 0));
            } else if b == 93 {
                match stack.pop() {
                    Some(entry) => {
                        let e = steps.len();
                        steps[entry.0] = Step::Loop(LoopKind::Begin, e);
                        steps.push(Step::Loop(LoopKind::End, entry.0));
                    },
                    None => {
                        return Err(ParseError::MissingBracket(i));
                    },
                }
            } else if b == 46 {
                steps.push(Step::Output);
            } else if b == 44 {
                steps.push(Step::Input);
            } else if b == 63 {
                steps.push(Step::Debug);
            }
            proof {
                assert(parse_byte(cur, b, i) == Ok::<ParseState, ParseError>(
                    ParseState { steps: steps@, stack: stack@ },
                ));
            }
            i = i + 1;
        }
        if stack.len() > 0 {
            return Err(ParseError::MissingBracket(stack[0].1));
        }
        proof {
            lemma_closed_inv_is_wf(steps@, stack@);
        }
        Ok(Brainfuck::from_steps(steps))
    }
}

} // verus!
