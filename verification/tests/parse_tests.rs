use brainfrick::{Brainfuck, LoopKind, Memory, ParseError, RunOptions};

#[test]
fn matched_brackets() {
    let code: &[u8] =
        b"++++[>++++++<-]>[>+++++>+++++++<<-]>>++++<[[>[[>>+<<-]<]>>>-]>-[>+>+<<-]>]+++++[>+++++++<<++>-]>.<<.";
    let bf = Brainfuck::parse_ascii(code).unwrap();
    for k in 0..bf.step_count() {
        if let Some(v) = bf.loop_target(k) {
            assert_eq!(bf.loop_target(k), Some(v));
            assert_eq!(bf.loop_target(v), Some(k));
        }
    }
}

#[test]
fn bracket_position() {
    let bf = Brainfuck::parse_ascii("[>>>[><+_]][]".as_bytes()).unwrap();

    assert_eq!(bf.loop_target(0), Some(6));
    assert!(bf.loop_target(1).is_none());
    assert_eq!(bf.loop_target(2), Some(5));
    assert!(bf.loop_target(3).is_none());
    assert!(bf.loop_target(4).is_none());
    assert_eq!(bf.loop_target(5), Some(2));
    assert_eq!(bf.loop_target(6), Some(0));
    assert_eq!(bf.loop_target(7), Some(8));
    assert_eq!(bf.loop_target(8), Some(7));
}

#[test]
fn folding_collapses_runs() {
    // +-+ folds to a single add of one
    let bf = Brainfuck::parse_ascii(b"+-+").unwrap();
    assert_eq!(bf.step_count(), 1);
    // a cancelled move still occupies one instruction
    let bf = Brainfuck::parse_ascii(b"><").unwrap();
    assert_eq!(bf.step_count(), 1);
    // folding does not cross a bracket
    let bf = Brainfuck::parse_ascii(b"++[++]++").unwrap();
    assert_eq!(bf.step_count(), 5);
}

#[test]
fn inert_characters_are_skipped() {
    let bf = Brainfuck::parse_ascii(b"hello + world -\n!").unwrap();
    assert_eq!(bf.step_count(), 1);
}

#[test]
fn unmatched_close_bracket_position() {
    let result = Brainfuck::parse_ascii(b"++]");
    assert_eq!(result.unwrap_err(), ParseError::MissingBracket(2));
}

#[test]
fn earliest_open_bracket_reported() {
    // two brackets stay open; the earliest one is the diagnostic
    let result = Brainfuck::parse_ascii(b".[+[");
    assert_eq!(result.unwrap_err(), ParseError::MissingBracket(1));
}

#[test]
fn memory_tape_operations() {
    let mut mem = Memory::new();
    assert_eq!(mem.get_cell(), 0);
    mem.set_cell(7);
    assert_eq!(mem.get_cell(), 7);
    mem.add(-8);
    assert_eq!(mem.get_cell(), 255);
    mem.move_pointer(3);
    assert_eq!(mem.get_cell(), 0);
    mem.move_pointer(-3);
    assert_eq!(mem.get_cell(), 255);
}

#[test]
fn memory_grows_leftward() {
    let mut mem = Memory::new();
    mem.move_pointer(-2);
    assert_eq!(mem.get_cell(), 0);
    mem.set_cell(9);
    let mut out = Vec::new();
    mem.append_debug(&mut out);
    assert_eq!(out, b"[-2,9]".to_vec());
    // the original cell is still reachable two moves to the right
    mem.move_pointer(2);
    assert_eq!(mem.get_cell(), 0);
}

#[test]
fn memory_try_move_respects_ceiling() {
    let mut mem = Memory::new();
    assert!(mem.try_move(3, 4));
    // the tape now holds four cells; five would exceed the ceiling
    assert!(!mem.try_move(1, 4));
    let mut out = Vec::new();
    mem.append_debug(&mut out);
    assert_eq!(out, b"[3,0]".to_vec());
    assert!(!mem.try_move(-5, 4));
    assert!(mem.try_move(-3, 4));
    let mut out = Vec::new();
    mem.append_debug(&mut out);
    assert_eq!(out, b"[0,0]".to_vec());
}

#[test]
fn should_jump_follows_cell() {
    let mut mem = Memory::new();
    assert!(LoopKind::Begin.should_jump(&mem));
    assert!(!LoopKind::End.should_jump(&mem));
    mem.set_cell(1);
    assert!(!LoopKind::Begin.should_jump(&mem));
    assert!(LoopKind::End.should_jump(&mem));
}

#[test]
fn run_options_builders() {
    let options = RunOptions::new();
    assert_eq!(options.max_mem_bytes, usize::MAX);
    assert_eq!(options.max_step_count, usize::MAX);
    let options = RunOptions::default().max_mem_bytes(123).max_step_count(456);
    assert_eq!(options.max_mem_bytes, 123);
    assert_eq!(options.max_step_count, 456);
}
