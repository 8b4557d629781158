use emojy::machine::Machine;
use emojy::machine::Status;
use emojy::machine::StepError;
use emojy::machine::SyntaxError;
use emojy::mapping::load_translation;
use emojy::mapping::translate;

/// Drive a machine to the halted state, feeding `inputs` to the input
/// instructions in order and collecting every emitted byte.
fn run_machine(code: &str, inputs: &[u8]) -> (Machine, Vec<u8>) {
    let mut machine = Machine::new(code.to_string()).expect("program must be well formed");
    let mut outputs = Vec::new();
    let mut next_input = 0;
    let mut steps = 0u64;
    while machine.status() == Status::Running {
        assert!(steps < 1_000_000, "step budget exceeded");
        let input = if machine.needs_input() {
            let v = inputs[next_input];
            next_input += 1;
            v
        } else {
            0
        };
        match machine.step(input) {
            Ok(Some(byte)) => outputs.push(byte),
            Ok(None) => {}
            Err(e) => panic!("unexpected runtime fault: {:?}", e),
        }
        steps += 1;
    }
    (machine, outputs)
}

#[test]
fn unmatched_backward_jump_never_starts_executing() {
    match Machine::new("]".to_string()) {
        Err(e) => assert_eq!(e, SyntaxError::UnmatchedBackwardJump),
        Ok(_) => panic!("a stray backward jump must be a syntax error"),
    }
    assert!(Machine::new("+[]]".to_string()).is_err());
}

#[test]
fn empty_program_halts_immediately() {
    let t = load_translation("");
    let code = translate("these glyphs are all unmapped", &t);
    assert_eq!(code, "");
    let machine = Machine::new(code).expect("empty program is well formed");
    assert_eq!(machine.status(), Status::Halted);
    assert_eq!(machine.tape_len(), 0);
    assert_eq!(machine.cursor_pos(), 0);
    let (machine, outputs) = run_machine("", &[]);
    assert_eq!(outputs, Vec::<u8>::new());
    assert_eq!(machine.tape_len(), 0);
}

#[test]
fn two_increments_output_value_two() {
    let t = load_translation("+\n.");
    let code = translate("++.", &t);
    assert_eq!(code, "++.");
    let (_, outputs) = run_machine(&code, &[]);
    assert_eq!(outputs, vec![2]);
}

#[test]
fn balanced_loop_moves_three_across_cells() {
    let t = load_translation("+\n-\n[\n]\n<\n>\n");
    let code = translate("+++[->+<]", &t);
    assert_eq!(code, "+++[->+<]");
    let (machine, outputs) = run_machine(&code, &[]);
    assert_eq!(outputs, Vec::<u8>::new());
    assert_eq!(machine.cell_at(0), 0);
    assert_eq!(machine.cell_at(1), 3);
}

#[test]
fn increment_then_decrement_restores_every_value() {
    for v in 0..=255u8 {
        let (machine, _) = run_machine(",+-", &[v]);
        assert_eq!(machine.cell_at(0), v, "value {} must survive + then -", v);
        let (machine, _) = run_machine(",-+", &[v]);
        assert_eq!(machine.cell_at(0), v, "value {} must survive - then +", v);
    }
}

#[test]
fn increment_wraps_at_255() {
    let (machine, _) = run_machine(",+", &[255]);
    assert_eq!(machine.cell_at(0), 0);
}

#[test]
fn decrement_wraps_at_0() {
    let (machine, _) = run_machine("-", &[]);
    assert_eq!(machine.cell_at(0), 255);
}

#[test]
fn input_stores_one_byte() {
    let (machine, _) = run_machine(",", &[7]);
    assert_eq!(machine.cell_at(0), 7);
}

#[test]
fn output_emits_only_single_unit_encodable_bytes() {
    let (_, outputs) = run_machine(",.", &[65]);
    assert_eq!(outputs, vec![65]);
    let (_, outputs) = run_machine(",.", &[200]);
    assert_eq!(outputs, Vec::<u8>::new(), "bytes above 127 are silently dropped");
}

#[test]
fn moving_right_grows_the_tape_by_need() {
    let (machine, _) = run_machine(">", &[]);
    assert_eq!(machine.cursor_pos(), 1);
    assert_eq!(machine.tape_len(), 1);
    let (machine, _) = run_machine(">>+", &[]);
    assert_eq!(machine.tape_len(), 3);
    assert_eq!(machine.cell_at(2), 1);
    assert_eq!(machine.cell_at(0), 0);
}

#[test]
fn jump_if_zero_skips_the_loop_body() {
    let (machine, _) = run_machine("[+++]", &[]);
    assert_eq!(machine.cell_at(0), 0);
}

#[test]
fn cursor_underflow_is_a_runtime_fault() {
    let mut machine = Machine::new("<".to_string()).expect("well formed");
    assert_eq!(machine.step(0), Err(StepError::CursorUnderflow));
    assert_eq!(machine.status(), Status::Running, "a fault leaves the machine unchanged");
    assert_eq!(machine.cursor_pos(), 0);
}

#[test]
fn unmatched_forward_jump_taken_is_a_runtime_fault() {
    let mut machine = Machine::new("[".to_string()).expect("builds without a table entry");
    assert_eq!(machine.step(0), Err(StepError::UnmatchedForwardJump));
}

#[test]
fn unmatched_forward_jump_not_taken_runs_past() {
    let (machine, _) = run_machine("+[", &[]);
    assert_eq!(machine.cell_at(0), 1);
    assert_eq!(machine.status(), Status::Halted);
}

#[test]
fn unknown_characters_are_ignored_by_the_engine() {
    let (machine, outputs) = run_machine("+x+y.", &[]);
    assert_eq!(machine.cell_at(0), 2);
    assert_eq!(outputs, vec![2]);
}
