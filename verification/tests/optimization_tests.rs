use membrane::instruction::Instruction;
use membrane::interpreter::TapeSize;
use membrane::optimizer::optimize;
use membrane::parser::parse_string;

// Trivial runs of certain instructions should get squashed together.
#[test]
fn trivial_run_squash() {
    let mut instructions = parse_string("+++++-->>><<<<<,....,,").expect("valid BF given");
    optimize(&mut instructions, TapeSize::Infinite);

    assert!(instructions.len() <= 5);
}

// Loops should be removed if we can trivially prove their zero-test
// always fails (the relevant cell is always zero).
#[test]
fn trivial_loop_removal() {
    let mut instructions = parse_string("[.][[[>]]][[]]").expect("valid BF given");
    optimize(&mut instructions, TapeSize::Infinite);

    assert!(instructions.is_empty());
}

// We want to squash certain patterns of instructions into a primitive one,
// such as AddRelative. Make sure some recognition and substitution happens.
#[test]
fn simple_pattern_recognition() {
    let mut instructions = Vec::new();

    // [+]
    {
        instructions.extend_from_slice(&[
            Instruction::JumpIfZero { location: 0 },
            Instruction::Add(1),
            Instruction::JumpIfNotZero { location: 0 },
        ]);

        optimize(&mut instructions, TapeSize::Infinite);
        assert_eq!(instructions.len(), 1);
        assert_eq!(instructions[0], Instruction::SetValue(0));
        instructions.clear();
    }

    // [-]
    {
        instructions.extend_from_slice(&[
            Instruction::JumpIfZero { location: 0 },
            Instruction::Add(-1),
            Instruction::JumpIfNotZero { location: 0 },
        ]);

        optimize(&mut instructions, TapeSize::Infinite);
        assert_eq!(instructions.len(), 1);
        assert_eq!(instructions[0], Instruction::SetValue(0));
        instructions.clear();
    }

    // >>>-----<<<
    {
        instructions.extend_from_slice(&[
            Instruction::Move(3),
            Instruction::Add(-5),
            Instruction::Move(-3),
        ]);

        optimize(&mut instructions, TapeSize::Infinite);
        assert_eq!(instructions.len(), 1);
        assert_eq!(
            instructions[0],
            Instruction::AddRelative {
                offset: 3,
                amount: -5
            }
        );
        instructions.clear();
    }

    // <<<+++++>>>
    {
        instructions.extend_from_slice(&[
            Instruction::Move(-3),
            Instruction::Add(5),
            Instruction::Move(3),
        ]);

        optimize(&mut instructions, TapeSize::Infinite);
        assert_eq!(instructions.len(), 1);
        assert_eq!(
            instructions[0],
            Instruction::AddRelative {
                offset: -3,
                amount: 5
            }
        );
        instructions.clear();
    }

    // +++>++>>
    {
        instructions.extend_from_slice(&[
            Instruction::Add(3),
            Instruction::Move(1),
            Instruction::Add(2),
            Instruction::Move(2),
        ]);

        optimize(&mut instructions, TapeSize::Infinite);
        assert_eq!(instructions.len(), 1);
        assert_eq!(
            instructions[0],
            Instruction::AddVectorMove {
                stride: 3,
                vector: [3, 2, 0, 0],
            }
        );
        instructions.clear();
    }

    // [++>>>]
    {
        instructions.extend_from_slice(&[
            Instruction::JumpIfZero { location: 0 },
            Instruction::Add(2),
            Instruction::Move(3),
            Instruction::JumpIfNotZero { location: 0 },
        ]);

        optimize(&mut instructions, TapeSize::Infinite);
        assert_eq!(instructions.len(), 1);
        assert_eq!(
            instructions[0],
            Instruction::MoveRightToZero {
                increment: 2,
                stride: 3,
            }
        );
        instructions.clear();
    }

    // [++<<<]
    {
        instructions.extend_from_slice(&[
            Instruction::JumpIfZero { location: 0 },
            Instruction::Add(2),
            Instruction::Move(-3),
            Instruction::JumpIfNotZero { location: 0 },
        ]);

        optimize(&mut instructions, TapeSize::Infinite);
        assert_eq!(instructions.len(), 1);
        assert_eq!(
            instructions[0],
            Instruction::MoveLeftToZero {
                increment: 2,
                stride: 3,
            }
        );
        instructions.clear();
    }
}

// Optimizing a second time must not change an already-optimized program.
#[test]
fn optimize_twice_is_stable() {
    let mut first = parse_string("+++++-->>><<<<<,....,,").expect("valid BF given");
    optimize(&mut first, TapeSize::Infinite);

    let mut second = first.clone();
    optimize(&mut second, TapeSize::Infinite);

    assert_eq!(first.len(), second.len());
    assert_eq!(first, second);
}

// A SetValue followed by an Add fuses, accumulating modulo 256.
#[test]
fn set_then_add_accumulates() {
    let mut instructions = vec![Instruction::SetValue(100), Instruction::Add(100)];
    optimize(&mut instructions, TapeSize::Infinite);
    assert_eq!(instructions, vec![Instruction::SetValue(-56)]);
}

// Every clear loop collapses to a single SetValue(0).
#[test]
fn clear_loops_become_set_zero() {
    let mut instructions = parse_string("[-]>[-]").expect("valid BF given");
    optimize(&mut instructions, TapeSize::Infinite);
    assert_eq!(
        instructions,
        vec![
            Instruction::SetValue(0),
            Instruction::Move(1),
            Instruction::SetValue(0),
        ]
    );
}

// Finalization points each loop-open at its loop-close and vice versa.
#[test]
fn fix_loops_recomputes_targets() {
    let mut instructions = vec![
        Instruction::JumpIfZero { location: 99 },
        Instruction::Add(5),
        Instruction::JumpIfNotZero { location: 99 },
    ];
    membrane::optimizer::fix_loops(&mut instructions);
    assert_eq!(
        instructions,
        vec![
            Instruction::JumpIfZero { location: 2 },
            Instruction::Add(5),
            Instruction::JumpIfNotZero { location: 0 },
        ]
    );
}
