//! The compact bytecode emitter: a four-byte header followed by a flat
//! stream of opcode and operand byte pairs. Only the two accumulator
//! instructions are encodable; every other variant is silently dropped, a
//! known limitation of the format.

use vstd::prelude::*;

use crate::instruction::Instruction;
use crate::interpreter::TapeSize;

verus! {

/// The format version written into the header.
pub const BYTECODE_VERSION: u8 = 1;

/// The opcode of an encoded `Add`.
pub const OPCODE_ADD: u8 = 1;

/// The opcode of an encoded `Move`.
pub const OPCODE_MOVE: u8 = 2;

/// The encoded instruction stream: an `Add` is its opcode and its amount
/// as a byte; a `Move` is its opcode and its delta truncated to one byte
/// (an explicit limitation of the format); everything else is dropped.
pub open spec fn spec_bytecode_body(s: Seq<Instruction>) -> Seq<u8>
    decreases s.len(),
{
    if s.len() == 0 {
        seq![]
    } else {
        (match s[0] {
            Instruction::Add(amount) => seq![OPCODE_ADD, amount as u8],
            Instruction::Move(amount) => seq![OPCODE_MOVE, amount as u8],
            _ => seq![],
        }) + spec_bytecode_body(s.skip(1))
    }
}

/// A whole bytecode file: the header `B` `F` `C`, the version byte, then
/// the encoded stream.
pub open spec fn spec_bytecode(s: Seq<Instruction>) -> Seq<u8> {
    seq![66u8, 70u8, 67u8, BYTECODE_VERSION] + spec_bytecode_body(s)
}

/// Encodes a program into the bytecode format. The tape-size policy is
/// part of the generator interface but does not affect this format.
pub fn compile_to_bytecode(instructions: &[Instruction], _tape_size: TapeSize) -> (r: Vec<u8>)
    ensures
        r@ == spec_bytecode(instructions@),
{
    let ghost prog = instructions@;
    let mut out: Vec<u8> = Vec::new();
    out.push(66);
    out.push(70);
    out.push(67);
    out.push(BYTECODE_VERSION);
    proof {
        assert(out@ =~= seq![66u8, 70u8, 67u8, BYTECODE_VERSION]);
        assert(prog.skip(0) =~= prog);
        assert(spec_bytecode(prog) =~= out@ + spec_bytecode_body(prog));
    }
    let n = instructions.len();
    let mut i: usize = 0;
    while i < n
        invariant
            n == prog.len(),
            instructions@ == prog,
            i <= n,
            spec_bytecode(prog) == out@ + spec_bytecode_body(prog.skip(i as int)),
        decreases n - i,
    {
        let ghost out0 = out@;
        let ghost rest = prog.skip(i as int);
        proof {
            assert(rest[0] == prog[i as int]);
            assert(rest.skip(1) =~= prog.skip(i as int + 1));
        }
        match instructions[i] {
            Instruction::Add(amount) => {
                out.push(OPCODE_ADD);
                out.push(#[verifier::truncate] (amount as u8));
                proof {
                    assert(out@ =~= out0 + seq![OPCODE_ADD, amount as u8]);
                }
            },
            Instruction::Move(amount) => {
                out.push(OPCODE_MOVE);
                out.push(#[verifier::truncate] (amount as u8));
                proof {
                    assert(out@ =~= out0 + seq![OPCODE_MOVE, amount as u8]);
                }
            },
            _ => {},
        }
        proof {
            assert(out@ + spec_bytecode_body(prog.skip(i as int + 1)) =~= out0
                + spec_bytecode_body(rest));
        }
        i += 1;
    }
    proof {
        assert(prog.skip(n as int).len() == 0);
        assert(out@ + spec_bytecode_body(prog.skip(n as int)) =~= out@);
    }
    out
}

} // verus!
