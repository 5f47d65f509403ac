//! Source parsing: byte-stream tokenization and bracket matching into the
//! initial instruction sequence, with jump targets resolved as the brackets
//! close. Every command is a single ASCII byte and every non-command byte
//! is ignored, so the source is scanned byte by byte.

use vstd::prelude::*;

use crate::instruction::Instruction;
use crate::optimizer::{
    lemma_scan_brackets_concat, lemma_scan_brackets_single, lemma_scan_brackets_update_open,
    scan_brackets,
};
use vstd::string::StringSliceAdditionalSpecFns;

verus! {

/// What parsing a source text does to an instruction sequence and a stack
/// of pending loop-open positions. The first component is false when a
/// stray loop-close was found; the other two are the sequence and stack as
/// they stood at that point.
pub open spec fn spec_parse(
    src: Seq<u8>,
    instrs: Seq<Instruction>,
    stack: Seq<usize>,
) -> (bool, Seq<Instruction>, Seq<usize>)
    decreases src.len(),
{
    if src.len() == 0 {
        (true, instrs, stack)
    } else {
        let c = src[0];
        if c == 43u8 {  // '+'
            spec_parse(src.skip(1), instrs.push(Instruction::Add(1i8)), stack)
        } else if c == 45u8 {  // '-'
            spec_parse(src.skip(1), instrs.push(Instruction::Add(-1i8)), stack)
        } else if c == 62u8 {  // '>'
            spec_parse(src.skip(1), instrs.push(Instruction::Move(1isize)), stack)
        } else if c == 60u8 {  // '<'
            spec_parse(src.skip(1), instrs.push(Instruction::Move(-1isize)), stack)
        } else if c == 46u8 {  // '.'
            spec_parse(src.skip(1), instrs.push(Instruction::Write(1usize)), stack)
        } else if c == 44u8 {  // ','
            spec_parse(src.skip(1), instrs.push(Instruction::Read(1usize)), stack)
        } else if c == 91u8 {  // '['
            spec_parse(
                src.skip(1),
                instrs.push(Instruction::JumpIfZero { location: 0 }),
                stack.push(instrs.len() as usize),
            )
        } else if c == 93u8 {  // ']'
            if stack.len() == 0 {
                (false, instrs, stack)
            } else {
                let j = stack.last();
                if j < instrs.len() && instrs[j as int] is JumpIfZero {
                    spec_parse(
                        src.skip(1),
                        instrs.update(
                            j as int,
                            Instruction::JumpIfZero { location: instrs.len() as usize },
                        ).push(Instruction::JumpIfNotZero { location: j }),
                        stack.drop_last(),
                    )
                } else {
                    (false, instrs, stack.drop_last())
                }
            }
        } else {
            spec_parse(src.skip(1), instrs, stack)
        }
    }
}

/// Parsing keeps the instruction sequence's bracket scan in step with the
/// stack of pending opens: each pending open is one unmatched bracket.
proof fn lemma_parse_preserves_brackets(
    src: Seq<u8>,
    instrs: Seq<Instruction>,
    stack: Seq<usize>,
)
    requires
        scan_brackets(instrs, 0) == Some(stack.len() as int),
    ensures
        ({
            let t = spec_parse(src, instrs, stack);
            t.0 ==> scan_brackets(t.1, 0) == Some(t.2.len() as int)
        }),
    decreases src.len(),
{
    if src.len() == 0 {
    } else {
        let c = src[0];
        let depth = stack.len() as int;
        if c == 43u8 {
            let x = Instruction::Add(1i8);
            assert(instrs.push(x) =~= instrs + seq![x]);
            lemma_scan_brackets_concat(instrs, seq![x], 0);
            lemma_scan_brackets_single(x, depth);
            lemma_parse_preserves_brackets(src.skip(1), instrs.push(x), stack);
        } else if c == 45u8 {
            let x = Instruction::Add(-1i8);
            assert(instrs.push(x) =~= instrs + seq![x]);
            lemma_scan_brackets_concat(instrs, seq![x], 0);
            lemma_scan_brackets_single(x, depth);
            lemma_parse_preserves_brackets(src.skip(1), instrs.push(x), stack);
        } else if c == 62u8 {
            let x = Instruction::Move(1isize);
            assert(instrs.push(x) =~= instrs + seq![x]);
            lemma_scan_brackets_concat(instrs, seq![x], 0);
            lemma_scan_brackets_single(x, depth);
            lemma_parse_preserves_brackets(src.skip(1), instrs.push(x), stack);
        } else if c == 60u8 {
            let x = Instruction::Move(-1isize);
            assert(instrs.push(x) =~= instrs + seq![x]);
            lemma_scan_brackets_concat(instrs, seq![x], 0);
            lemma_scan_brackets_single(x, depth);
            lemma_parse_preserves_brackets(src.skip(1), instrs.push(x), stack);
        } else if c == 46u8 {
            let x = Instruction::Write(1usize);
            assert(instrs.push(x) =~= instrs + seq![x]);
            lemma_scan_brackets_concat(instrs, seq![x], 0);
            lemma_scan_brackets_single(x, depth);
            lemma_parse_preserves_brackets(src.skip(1), instrs.push(x), stack);
        } else if c == 44u8 {
            let x = Instruction::Read(1usize);
            assert(instrs.push(x) =~= instrs + seq![x]);
            lemma_scan_brackets_concat(instrs, seq![x], 0);
            lemma_scan_brackets_single(x, depth);
            lemma_parse_preserves_brackets(src.skip(1), instrs.push(x), stack);
        } else if c == 91u8 {
            let x = Instruction::JumpIfZero { location: 0 };
            assert(instrs.push(x) =~= instrs + seq![x]);
            lemma_scan_brackets_concat(instrs, seq![x], 0);
            lemma_scan_brackets_single(x, depth);
            lemma_parse_preserves_brackets(
                src.skip(1),
                instrs.push(x),
                stack.push(instrs.len() as usize),
            );
        } else if c == 93u8 {
            if stack.len() > 0 {
                let j = stack.last();
                if j < instrs.len() && instrs[j as int] is JumpIfZero {
                    let u = instrs.update(
                        j as int,
                        Instruction::JumpIfZero { location: instrs.len() as usize },
                    );
                    let x = Instruction::JumpIfNotZero { location: j };
                    lemma_scan_brackets_update_open(
                        instrs,
                        j as int,
                        instrs.len() as usize,
                        0,
                    );
                    assert(u.push(x) =~= u + seq![x]);
                    lemma_scan_brackets_concat(u, seq![x], 0);
                    lemma_scan_brackets_single(x, depth);
                    lemma_parse_preserves_brackets(src.skip(1), u.push(x), stack.drop_last());
                }
            }
        } else {
            lemma_parse_preserves_brackets(src.skip(1), instrs, stack);
        }
    }
}

/// Parsing guarantees well-bracketed output: in a successfully parsed
/// program every loop-close pops a pending loop-open and none stays
/// pending, so the program meets the rewriter's bracket precondition.
pub proof fn lemma_parse_string_well_bracketed(src: Seq<u8>)
    ensures
        ({
            let t = spec_parse(src, Seq::empty(), Seq::empty());
            t.0 && t.2.len() == 0 ==> scan_brackets(t.1, 0) == Some(0int)
        }),
{
    assert(scan_brackets(Seq::<Instruction>::empty(), 0) == Some(0int));
    lemma_parse_preserves_brackets(src, Seq::empty(), Seq::empty());
}

/// Parses one piece of source text into `instructions`, matching each
/// loop-close against the pending loop-open on `jump_stack` and pointing
/// the two at each other. A stray loop-close is a syntax error, returned
/// as a value; an unclosed loop-open stays on the stack.
pub fn parse(
    instructions: &mut Vec<Instruction>,
    jump_stack: &mut Vec<usize>,
    string: &str,
) -> (r: Result<(), String>)
    ensures
        ({
            let t = spec_parse(string.spec_bytes(), old(instructions)@, old(jump_stack)@);
            &&& final(instructions)@ == t.1
            &&& final(jump_stack)@ == t.2
            &&& (r is Ok <==> t.0)
            &&& (r matches Err(e) ==> e@ == "ERROR"@)
        }),
{
    let bytes = string.as_bytes();
    let ghost inp = string.spec_bytes();
    let ghost i0 = instructions@;
    let ghost s0 = jump_stack@;
    let n = bytes.len();
    let mut i: usize = 0;
    proof {
        assert(inp.skip(0) =~= inp);
    }
    while i < n
        invariant
            n == inp.len(),
            bytes@ == inp,
            inp == string.spec_bytes(),
            i0 == old(instructions)@,
            s0 == old(jump_stack)@,
            i <= n,
            spec_parse(inp, i0, s0) == spec_parse(inp.skip(i as int), instructions@, jump_stack@),
        decreases n - i,
    {
        let c = bytes[i];
        let ghost icur = instructions@;
        let ghost scur = jump_stack@;
        proof {
            assert(inp.skip(i as int)[0] == inp[i as int]);
            assert(inp.skip(i as int).skip(1) =~= inp.skip(i as int + 1));
        }
        match c {
            43u8 => instructions.push(Instruction::Add(1)),
            45u8 => instructions.push(Instruction::Add(-1)),
            62u8 => instructions.push(Instruction::Move(1)),
            60u8 => instructions.push(Instruction::Move(-1)),
            46u8 => instructions.push(Instruction::Write(1)),
            44u8 => instructions.push(Instruction::Read(1)),
            91u8 => {
                jump_stack.push(instructions.len());
                instructions.push(Instruction::JumpIfZero { location: 0 });
            },
            93u8 => {
                match jump_stack.pop() {
                    Some(loop_start) => {
                        let instruction_count = instructions.len();
                        let mut matched = false;
                        if loop_start < instruction_count {
                            if let Instruction::JumpIfZero { .. } = instructions[loop_start] {
                                instructions[loop_start] = Instruction::JumpIfZero {
                                    location: instruction_count,
                                };
                                instructions.push(
                                    Instruction::JumpIfNotZero { location: loop_start },
                                );
                                matched = true;
                            }
                        }
                        if !matched {
                            proof {
                                assert(jump_stack@ =~= scur.drop_last());
                                assert(spec_parse(inp.skip(i as int), icur, scur) == (
                                    false,
                                    instructions@,
                                    jump_stack@,
                                ));
                            }
                            return Err("ERROR".to_owned());
                        }
                    },
                    None => {
                        proof {
                            assert(spec_parse(inp.skip(i as int), icur, scur) == (
                                false,
                                instructions@,
                                jump_stack@,
                            ));
                        }
                        return Err("ERROR".to_owned());
                    },
                }
            },
            _ => {},
        }
        i += 1;
    }
    proof {
        assert(inp.skip(n as int).len() == 0);
    }
    Ok(())
}

/// Parses a whole source string into a fresh instruction sequence.
/// Unbalanced loop brackets are a syntax error, returned as a value: a
/// stray loop-close as well as a loop-open still unclosed at the end of
/// the source.
pub fn parse_string(string: &str) -> (r: Result<Vec<Instruction>, String>)
    ensures
        ({
            let t = spec_parse(string.spec_bytes(), Seq::empty(), Seq::empty());
            &&& (r is Ok <==> t.0 && t.2.len() == 0)
            &&& (r matches Ok(v) ==> v@ == t.1)
            &&& (r matches Err(e) ==> e@ == "ERROR"@)
        }),
{
    let mut instructions: Vec<Instruction> = Vec::new();
    let mut jump_stack: Vec<usize> = Vec::new();
    match parse(&mut instructions, &mut jump_stack, string) {
        Ok(_) => {
            if jump_stack.is_empty() {
                Ok(instructions)
            } else {
                Err("ERROR".to_owned())
            }
        },
        Err(e) => Err(e),
    }
}

} // verus!
