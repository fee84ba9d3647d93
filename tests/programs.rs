use leds::assembler::assemble;
use leds::instruction::Instruction;
use leds::machine::{run, Machine};

fn outputs(lines: &[&str], max_steps: usize) -> Vec<String> {
    let a = assemble(lines);
    run(&a.instructions, max_steps).outputs
}

#[test]
fn end_to_end_shift_right() {
    let lines = ["ld a,128", "ld b,3", "loop:", "out (0),a", "rrca", "djnz loop"];
    let a = assemble(&lines);
    assert!(a.diagnostics.is_empty());
    assert_eq!(
        a.instructions,
        vec![
            Instruction::LoadA(128),
            Instruction::LoadB(3),
            Instruction::Out,
            Instruction::Rrca,
            Instruction::Djnz { index: 2 },
        ]
    );
    let e = run(&a.instructions, 1000);
    assert_eq!(e.outputs, vec!["*.......", ".*......", "..*....."]);
    assert_eq!(e.machine, Machine { register_a: 0x10, register_b: 0, pc: 5 });
}

#[test]
fn forward_label_resolves() {
    let lines = ["ld b,2", "djnz later", "out (0),a", "later:", "rlca"];
    let a = assemble(&lines);
    assert!(a.diagnostics.is_empty());
    assert_eq!(a.labels.get("later"), Some(3));
    assert_eq!(a.instructions[1], Instruction::Djnz { index: 3 });
    assert_eq!(a.instructions.len(), 4);
}

#[test]
fn forward_label_after_unknown_jump() {
    // the unknown jump is dropped, so the later label counts one instruction fewer
    let lines = ["djnz nowhere", "djnz end", "out (0),a", "end:"];
    let a = assemble(&lines);
    assert_eq!(a.diagnostics.len(), 1);
    assert_eq!(a.diagnostics[0].line_number, 1);
    assert_eq!(a.labels.get("end"), Some(2));
    assert_eq!(a.instructions, vec![Instruction::Djnz { index: 2 }, Instruction::Out]);
}

#[test]
fn duplicate_label_reported() {
    let lines = ["foo:", "rlca", "foo:", "djnz foo"];
    let a = assemble(&lines);
    assert_eq!(a.diagnostics.len(), 1);
    assert_eq!(a.diagnostics[0].line_number, 3);
    assert_eq!(a.diagnostics[0].text, "foo:");
    assert_eq!(a.labels.get("foo"), Some(0));
    assert_eq!(a.instructions, vec![Instruction::Rlca, Instruction::Djnz { index: 0 }]);
}

#[test]
fn unknown_target_reported() {
    let lines = ["ld a,1", "  djnz missing ", "out (0),a"];
    let a = assemble(&lines);
    assert_eq!(a.diagnostics.len(), 1);
    assert_eq!(a.diagnostics[0].line_number, 2);
    assert_eq!(a.diagnostics[0].text, "  djnz missing ");
    assert_eq!(a.instructions, vec![Instruction::LoadA(1), Instruction::Out]);
    assert_eq!(run(&a.instructions, 10).outputs, vec![".......*"]);
}

#[test]
fn malformed_literals_add_nothing() {
    let lines = ["ld a,256", "ld a,abc", "ld a,", "out (0),a"];
    let a = assemble(&lines);
    assert_eq!(a.instructions, vec![Instruction::Out]);
    let numbers: Vec<usize> = a.diagnostics.iter().map(|d| d.line_number).collect();
    assert_eq!(numbers, vec![1, 2, 3]);
    assert_eq!(run(&a.instructions, 10).outputs, vec!["........"]);
}

#[test]
fn empty_program() {
    let a = assemble(&[]);
    assert!(a.instructions.is_empty());
    assert!(a.diagnostics.is_empty());
    let e = run(&a.instructions, 10);
    assert!(e.outputs.is_empty());
    assert_eq!(e.machine, Machine::new());
}

#[test]
fn djnz_with_zero_counter_falls_through() {
    let lines = ["top:", "djnz top", "out (0),a"];
    let e = run(&assemble(&lines).instructions, 100);
    assert_eq!(e.outputs, vec!["........"]);
    assert_eq!(e.machine.register_b, 0);
    assert_eq!(e.machine.pc, 2);
}

#[test]
fn label_at_end_points_past_last() {
    let lines = ["ld b,5", "djnz end", "out (0),a", "end:"];
    let a = assemble(&lines);
    assert_eq!(a.labels.get("end"), Some(3));
    let e = run(&a.instructions, 100);
    assert!(e.outputs.is_empty());
    assert_eq!(e.machine.pc, 3);
    assert_eq!(e.machine.register_b, 4);
}

#[test]
fn step_budget_stops_endless_loop() {
    let lines = ["again:", "ld b,2", "out (0),a", "djnz again"];
    let e = run(&assemble(&lines).instructions, 7);
    assert_eq!(e.outputs.len(), 2);
    assert_eq!(e.machine.pc, 1);
}

#[test]
fn rotate_left_program() {
    assert_eq!(
        outputs(&["ld a,1", "rlca", "out (0),a", "rlca", "out (0),a"], 100),
        vec!["......*.", ".....*.."]
    );
}

#[test]
fn stepping_by_hand() {
    let program = vec![Instruction::LoadA(0x0F), Instruction::Out, Instruction::Rrca];
    let mut m = Machine::new();
    assert_eq!(m.step(&program), None);
    assert_eq!(m.step(&program), Some("....****".to_string()));
    assert!(!m.is_halted(&program));
    assert_eq!(m.step(&program), None);
    assert_eq!(m.register_a, 0x87);
    assert!(m.is_halted(&program));
}
