use membrane::instruction::Instruction;
use membrane::parser::parse_string;

// A matched pair of brackets points at each other: the open at the close,
// the close at the open.
#[test]
fn brackets_point_at_each_other() {
    let instructions = parse_string("[-]").expect("valid BF given");
    assert_eq!(
        instructions,
        vec![
            Instruction::JumpIfZero { location: 2 },
            Instruction::Add(-1),
            Instruction::JumpIfNotZero { location: 0 },
        ]
    );
}

// A stray loop-close is a syntax error, surfaced as a value.
#[test]
fn stray_close_is_an_error() {
    let result = parse_string("]");
    assert!(result.is_err());
    assert_eq!(result.unwrap_err(), "ERROR");

    assert!(parse_string("+-[.]]").is_err());
}

// A loop-open still unclosed at the end of the source is a syntax error
// too: parsing guarantees well-bracketed output.
#[test]
fn unclosed_open_is_an_error() {
    let result = parse_string("[");
    assert!(result.is_err());
    assert_eq!(result.unwrap_err(), "ERROR");

    assert!(parse_string("[[]").is_err());
    assert!(parse_string("+[-").is_err());
    assert!(parse_string("[]").is_ok());
}

// Characters that are not commands are ignored.
#[test]
fn other_characters_are_ignored() {
    let instructions = parse_string("a + b\n").expect("valid BF given");
    assert_eq!(instructions, vec![Instruction::Add(1)]);
}

// Each command byte parses to its instruction.
#[test]
fn commands_parse_one_to_one() {
    let instructions = parse_string("+-><.,").expect("valid BF given");
    assert_eq!(
        instructions,
        vec![
            Instruction::Add(1),
            Instruction::Add(-1),
            Instruction::Move(1),
            Instruction::Move(-1),
            Instruction::Write(1),
            Instruction::Read(1),
        ]
    );
}

// The two derived predicates of the instruction representation.
#[test]
fn instruction_predicates() {
    assert!(Instruction::Add(1).is_stable());
    assert!(Instruction::SetValue(0).is_stable());
    assert!(Instruction::AddRelative { offset: 2, amount: 1 }.is_stable());
    assert!(!Instruction::Move(1).is_stable());
    assert!(!Instruction::AddVector { vector: [1, 0, 0, 0] }.is_stable());

    assert!(Instruction::Add(1).preserves_tape_head());
    assert!(Instruction::JumpIfZero { location: 0 }.preserves_tape_head());
    assert!(!Instruction::Move(1).preserves_tape_head());
    assert!(!Instruction::MoveRightToZero {
        increment: 0,
        stride: 1
    }
    .preserves_tape_head());
}
