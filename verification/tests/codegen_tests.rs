use membrane::bytecode::compile_to_bytecode;
use membrane::compilers::CompileFormat;
use membrane::instruction::Instruction;
use membrane::interpreter::TapeSize;
use membrane::parser::parse_string;
use membrane::rustgen::compile_to_rust;

// The bytecode format: header 'B' 'F' 'C' and version, then one
// (opcode, operand) pair per encodable instruction; a negative move is
// truncated to one byte and everything else is dropped.
#[test]
fn bytecode_format() {
    let program = [
        Instruction::Add(3),
        Instruction::Move(-2),
        Instruction::Write(1),
    ];
    let bytes = compile_to_bytecode(&program, TapeSize::Infinite);
    assert_eq!(bytes, vec![b'B', b'F', b'C', 1, 1, 3, 2, 254]);
}

#[test]
fn bytecode_empty_program_is_header_only() {
    let bytes = compile_to_bytecode(&[], TapeSize::Finite(10));
    assert_eq!(bytes, vec![b'B', b'F', b'C', 1]);
}

// The generated Rust for a single Add on a small finite tape.
#[test]
fn rust_codegen_add() {
    let program = [Instruction::Add(2)];
    let text = compile_to_rust(&program, TapeSize::Finite(10));
    assert_eq!(
        text,
        "\nfn main() -> Result<(), ()> {\n    let mut head = 0;\n    let mut tape = [0u8; 10];\n\n    tape[head] = tape[head].wrapping_add(2);\n\n    Ok(())\n}\n"
    );
}

// The generated Rust for a clear loop, with the loop body indented.
#[test]
fn rust_codegen_loop() {
    let program = parse_string("[-]").expect("valid BF given");
    let text = compile_to_rust(&program, TapeSize::Infinite);
    assert_eq!(
        text,
        "\nfn main() -> Result<(), ()> {\n    let mut head = 0;\n    let mut tape = vec![0u8; 30000];\n\n    while tape[head] != 0 {\n        tape[head] = tape[head].wrapping_sub(1);\n    }\n\n    Ok(())\n}\n"
    );
}

#[test]
fn default_compile_format_is_bytecode() {
    assert_eq!(CompileFormat::default(), CompileFormat::Bytecode);
}

// The generated C for a small program: labels per jump index, a goto per
// jump, and one statement per cell operation.
#[test]
fn c_codegen_loop() {
    let program = parse_string("[-]").expect("valid BF given");
    let text = membrane::cgen::compile_to_c(&program);
    assert_eq!(
        text,
        "#include <stdio.h>\n\nint head = 0;\nunsigned char tape[30000] = {0};\n\nint main(int argc, const char **argv) {\njump_0:\n    if (tape[head] == 0) {\n        goto jump_2;\n    }\n    tape[head] += -1;\njump_2:\n    if (tape[head] != 0) {\n        goto jump_0;\n    }\n    return 0;\n}\n"
    );
}
