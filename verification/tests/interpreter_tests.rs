use membrane::instruction::Instruction;
use membrane::interpreter::{interpret, Memory, TapeSize};
use membrane::optimizer::optimize;
use membrane::parser::parse_string;

const FUEL: usize = 1_000_000;

fn run_raw(source: &str, input: &[u8], tape: TapeSize) -> Vec<u8> {
    let instructions = parse_string(source).expect("valid BF given");
    let (output, _executed) = interpret(&instructions, input, tape, FUEL).expect("enough fuel");
    output
}

fn run_optimized(source: &str, input: &[u8], tape: TapeSize) -> Vec<u8> {
    let mut instructions = parse_string(source).expect("valid BF given");
    optimize(&mut instructions, tape);
    let (output, _executed) = interpret(&instructions, input, tape, FUEL).expect("enough fuel");
    output
}

// Interpreting a program and interpreting its optimized form must produce
// byte-identical output.
#[test]
fn optimization_preserves_output_add_loop() {
    let source = "++>+++[<+>-]<.";
    let raw = run_raw(source, &[], TapeSize::Infinite);
    assert_eq!(raw, vec![5]);
    assert_eq!(run_optimized(source, &[], TapeSize::Infinite), raw);
    let finite = run_raw(source, &[], TapeSize::Finite(100));
    assert_eq!(finite, raw);
    assert_eq!(run_optimized(source, &[], TapeSize::Finite(100)), raw);
}

#[test]
fn optimization_preserves_output_echo() {
    let source = ",.,.";
    let raw = run_raw(source, &[65, 66], TapeSize::Infinite);
    assert_eq!(raw, vec![65, 66]);
    assert_eq!(run_optimized(source, &[65, 66], TapeSize::Infinite), raw);
}

#[test]
fn optimization_preserves_output_copy_loop() {
    let source = "+++[->+<]>.";
    let raw = run_raw(source, &[], TapeSize::Infinite);
    assert_eq!(raw, vec![3]);
    assert_eq!(run_optimized(source, &[], TapeSize::Infinite), raw);
}

// A cell at 255 plus one wraps to 0; a cell at 0 minus one wraps to 255.
#[test]
fn cell_arithmetic_wraps() {
    let program = [
        Instruction::SetValue(-1),
        Instruction::Add(1),
        Instruction::Write(1),
    ];
    let (output, _) = interpret(&program, &[], TapeSize::Infinite, FUEL).expect("enough fuel");
    assert_eq!(output, vec![0]);

    let program = [Instruction::Add(-1), Instruction::Write(1)];
    let (output, _) = interpret(&program, &[], TapeSize::Infinite, FUEL).expect("enough fuel");
    assert_eq!(output, vec![255]);

    let program = [
        Instruction::SetValue(100),
        Instruction::Add(100),
        Instruction::Write(1),
    ];
    let (output, _) = interpret(&program, &[], TapeSize::Infinite, FUEL).expect("enough fuel");
    assert_eq!(output, vec![200]);
}

// Under Finite(n), a move of n cells returns the pointer to its origin.
#[test]
fn finite_tape_wraps_fully() {
    let program = [
        Instruction::Add(7),
        Instruction::Move(5),
        Instruction::Write(1),
    ];
    let (output, _) = interpret(&program, &[], TapeSize::Finite(5), FUEL).expect("enough fuel");
    assert_eq!(output, vec![7]);

    let mut memory = Memory::new(TapeSize::Finite(5));
    memory.move_head_right(2);
    memory.move_head_right(5);
    assert_eq!(memory.head, 2);
}

// Under Infinite, a move that would take the pointer negative clamps to 0.
#[test]
fn infinite_tape_clamps_left() {
    let program = [
        Instruction::Add(9),
        Instruction::Move(-100),
        Instruction::Write(1),
    ];
    let (output, _) = interpret(&program, &[], TapeSize::Infinite, FUEL).expect("enough fuel");
    assert_eq!(output, vec![9]);

    let mut memory = Memory::new(TapeSize::Infinite);
    memory.move_head(-3);
    assert_eq!(memory.head, 0);
    memory.move_head(7);
    memory.move_head(-100);
    assert_eq!(memory.head, 0);
}

// A merged Read consumes all its bytes and keeps only the last; missing
// bytes read as zero.
#[test]
fn read_keeps_last_byte() {
    let program = [Instruction::Read(3), Instruction::Write(1)];
    let (output, _) = interpret(&program, &[1, 2, 3], TapeSize::Infinite, FUEL)
        .expect("enough fuel");
    assert_eq!(output, vec![3]);

    let program = [Instruction::Read(2), Instruction::Write(1)];
    let (output, _) = interpret(&program, &[7], TapeSize::Infinite, FUEL).expect("enough fuel");
    assert_eq!(output, vec![0]);
}

// A Write repeats the current cell per its count.
#[test]
fn write_repeats_cell() {
    let program = [Instruction::Add(1), Instruction::Write(2)];
    let (output, executed) =
        interpret(&program, &[], TapeSize::Infinite, FUEL).expect("enough fuel");
    assert_eq!(output, vec![1, 1]);
    assert_eq!(executed, 2);
}

// A move-to-zero instruction counts as one executed instruction however
// many iterations it runs.
#[test]
fn move_to_zero_counts_once() {
    let program = [
        Instruction::Add(2),
        Instruction::MoveRightToZero {
            increment: -1,
            stride: 0,
        },
    ];
    let (output, executed) =
        interpret(&program, &[], TapeSize::Infinite, FUEL).expect("enough fuel");
    assert_eq!(output, vec![]);
    assert_eq!(executed, 2);
}

// A program that never ends exhausts its step budget.
#[test]
fn step_budget_runs_out() {
    let instructions = parse_string("+[]").expect("valid BF given");
    assert!(interpret(&instructions, &[], TapeSize::Infinite, 1000).is_none());
}
