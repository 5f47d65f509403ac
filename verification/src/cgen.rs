//! The native-code emitter: a pure, stateless translation of a finalized
//! program into C source text. This generator is an early example; its
//! output is not expected to compile cleanly.

use vstd::prelude::*;

use crate::decimal::{append_dec_i8, append_dec_isize, append_dec_usize, spec_dec, spec_dec_signed};
use crate::instruction::Instruction;
use crate::rustgen::rep;

verus! {

/// The statement that adds a signed amount to the current cell.
pub open spec fn c_add_line(amount: int) -> Seq<char> {
    "    tape[head] += "@ + spec_dec_signed(amount) + ";\n"@
}

/// A jump label and its conditional goto; `eq` chooses the zero test.
pub open spec fn c_jump_text(index: int, location: int, eq: bool) -> Seq<char> {
    "jump_"@ + spec_dec(index) + ":\n"@ + (if eq {
        "    if (tape[head] == 0) {\n"@
    } else {
        "    if (tape[head] != 0) {\n"@
    }) + "        goto jump_"@ + spec_dec(location) + ";\n"@ + "    }\n"@
}

/// One lane of a vector add: the cell at `head + lane` (the current cell
/// for lane 0) gains a signed amount.
pub open spec fn c_lane_line(lane: int, amount: int) -> Seq<char> {
    if lane == 0 {
        c_add_line(amount)
    } else {
        "    tape[head + "@ + spec_dec(lane) + "] += "@ + spec_dec_signed(amount) + ";\n"@
    }
}

/// The four lanes of a vector add.
pub open spec fn c_vector_text(v: [i8; 4]) -> Seq<char> {
    c_lane_line(0, v[0] as int) + c_lane_line(1, v[1] as int) + c_lane_line(2, v[2] as int)
        + c_lane_line(3, v[3] as int)
}

/// A move-to-zero loop; `right` chooses the pointer direction.
pub open spec fn c_mtz_text(increment: int, stride: int, right: bool) -> Seq<char> {
    "    while (tape[head] != 0) {\n"@ + (if increment != 0 {
        "        tape[head] += "@ + spec_dec_signed(increment) + ";\n"@
    } else {
        Seq::empty()
    }) + (if right {
        "        head += "@
    } else {
        "        head -= "@
    }) + spec_dec(stride) + ";\n"@ + "    }\n"@
}

/// The text of one instruction; `index` is its position, used for jump
/// labels.
pub open spec fn spec_c_one(inst: Instruction, index: int) -> Seq<char> {
    match inst {
        Instruction::Add(amount) => c_add_line(amount as int),
        Instruction::Move(amount) => if amount >= 0 {
            "    head += "@ + spec_dec(amount as int) + ";\n"@
        } else {
            "    head -= "@ + spec_dec_signed(amount as int) + ";\n"@
        },
        Instruction::Write(amount) => rep(
            "    printf(\"%c\", tape[head]);\n"@,
            amount as int - 1,
        ),
        Instruction::Read(amount) => rep("    tape[head] = getchar();\n"@, amount as int - 1),
        Instruction::JumpIfZero { location } => c_jump_text(index, location as int, true),
        Instruction::JumpIfNotZero { location } => c_jump_text(index, location as int, false),
        Instruction::SetValue(value) => "    tape[head] = "@ + spec_dec_signed(value as int)
            + ";\n"@,
        Instruction::AddRelative { offset, amount } => "    tape[head + "@ + spec_dec_signed(
            offset as int,
        ) + "] += "@ + spec_dec_signed(amount as int) + ";\n"@,
        Instruction::AddVector { vector } => c_vector_text(vector),
        Instruction::AddVectorMove { stride, vector } => c_vector_text(vector) + "    head += "@
            + spec_dec_signed(stride as int) + ";\n"@,
        Instruction::MoveRightToZero { increment, stride } => c_mtz_text(
            increment as int,
            stride as int,
            true,
        ),
        Instruction::MoveLeftToZero { increment, stride } => c_mtz_text(
            increment as int,
            stride as int,
            false,
        ),
    }
}

/// The text of a whole instruction sequence, starting at position `index`.
pub open spec fn spec_c_instrs(s: Seq<Instruction>, index: int) -> Seq<char>
    decreases s.len(),
{
    if s.len() == 0 {
        Seq::empty()
    } else {
        spec_c_one(s[0], index) + spec_c_instrs(s.skip(1), index + 1)
    }
}

/// The program preamble: includes, globals, and the `main` header.
pub open spec fn spec_c_header() -> Seq<char> {
    "#include <stdio.h>\n"@ + "\n"@ + "int head = 0;\n"@ + "unsigned char tape[30000] = {0};\n"@
        + "\n"@ + "int main(int argc, const char **argv) {\n"@
}

/// The program epilogue.
pub open spec fn spec_c_footer() -> Seq<char> {
    "    return 0;\n"@ + "}\n"@
}

/// The whole generated program.
pub open spec fn spec_c(s: Seq<Instruction>) -> Seq<char> {
    spec_c_header() + spec_c_instrs(s, 0) + spec_c_footer()
}

/// Appends the statement that adds a signed amount to the current cell.
fn append_c_add(s: &mut String, amount: i8)
    ensures
        final(s)@ == old(s)@ + c_add_line(amount as int),
{
    s.append("    tape[head] += ");
    append_dec_i8(s, amount);
    s.append(";\n");
    proof {
        assert(s@ =~= old(s)@ + c_add_line(amount as int));
    }
}

/// Appends a jump label and its conditional goto.
fn append_c_jump(s: &mut String, index: usize, location: usize, eq: bool)
    ensures
        final(s)@ == old(s)@ + c_jump_text(index as int, location as int, eq),
{
    s.append("jump_");
    append_dec_usize(s, index);
    s.append(":\n");
    if eq {
        s.append("    if (tape[head] == 0) {\n");
    } else {
        s.append("    if (tape[head] != 0) {\n");
    }
    s.append("        goto jump_");
    append_dec_usize(s, location);
    s.append(";\n");
    s.append("    }\n");
    proof {
        assert(s@ =~= old(s)@ + c_jump_text(index as int, location as int, eq));
    }
}

/// Appends one lane of a vector add.
fn append_c_lane(s: &mut String, lane: usize, amount: i8)
    requires
        lane < 4,
    ensures
        final(s)@ == old(s)@ + c_lane_line(lane as int, amount as int),
{
    if lane == 0 {
        append_c_add(s, amount);
    } else {
        s.append("    tape[head + ");
        append_dec_usize(s, lane);
        s.append("] += ");
        append_dec_i8(s, amount);
        s.append(";\n");
        proof {
            assert(s@ =~= old(s)@ + c_lane_line(lane as int, amount as int));
        }
    }
}

/// Appends a move-to-zero loop.
fn append_c_mtz(s: &mut String, increment: i8, stride: usize, right: bool)
    ensures
        final(s)@ == old(s)@ + c_mtz_text(increment as int, stride as int, right),
{
    s.append("    while (tape[head] != 0) {\n");
    if increment != 0 {
        s.append("        tape[head] += ");
        append_dec_i8(s, increment);
        s.append(";\n");
    }
    if right {
        s.append("        head += ");
    } else {
        s.append("        head -= ");
    }
    append_dec_usize(s, stride);
    s.append(";\n");
    s.append("    }\n");
    proof {
        assert(s@ =~= old(s)@ + c_mtz_text(increment as int, stride as int, right));
    }
}

/// Appends a repeated statement, as many times as the count exceeds one.
fn append_c_repeat(s: &mut String, line: &str, count: usize)
    ensures
        final(s)@ == old(s)@ + rep(line@, count as int - 1),
{
    let mut w: usize = 1;
    proof {
        assert(rep(line@, 0) =~= Seq::<char>::empty());
    }
    while w < count
        invariant
            1 <= w,
            count > 0 ==> w <= count,
            count == 0 ==> w == 1,
            s@ == old(s)@ + rep(line@, w as int - 1),
        decreases count - w,
    {
        s.append(line);
        proof {
            assert(s@ =~= old(s)@ + rep(line@, w as int));
        }
        w += 1;
    }
    proof {
        assert(rep(line@, -1) =~= rep(line@, 0));
        assert(s@ =~= old(s)@ + rep(line@, count as int - 1));
    }
}

/// Appends the text of one instruction.
fn emit_c_one(s: &mut String, inst: Instruction, index: usize)
    ensures
        final(s)@ == old(s)@ + spec_c_one(inst, index as int),
{
    match inst {
        Instruction::Add(amount) => {
            append_c_add(s, amount);
        },
        Instruction::Move(amount) => {
            if amount >= 0 {
                s.append("    head += ");
                append_dec_isize(s, amount);
                s.append(";\n");
            } else {
                s.append("    head -= ");
                append_dec_isize(s, amount);
                s.append(";\n");
            }
            proof {
                assert(s@ =~= old(s)@ + spec_c_one(inst, index as int));
            }
        },
        Instruction::Write(amount) => {
            append_c_repeat(s, "    printf(\"%c\", tape[head]);\n", amount);
        },
        Instruction::Read(amount) => {
            append_c_repeat(s, "    tape[head] = getchar();\n", amount);
        },
        Instruction::JumpIfZero { location } => {
            append_c_jump(s, index, location, true);
        },
        Instruction::JumpIfNotZero { location } => {
            append_c_jump(s, index, location, false);
        },
        Instruction::SetValue(value) => {
            s.append("    tape[head] = ");
            append_dec_i8(s, value);
            s.append(";\n");
            proof {
                assert(s@ =~= old(s)@ + spec_c_one(inst, index as int));
            }
        },
        Instruction::AddRelative { offset, amount } => {
            s.append("    tape[head + ");
            append_dec_isize(s, offset);
            s.append("] += ");
            append_dec_i8(s, amount);
            s.append(";\n");
            proof {
                assert(s@ =~= old(s)@ + spec_c_one(inst, index as int));
            }
        },
        Instruction::AddVector { vector } => {
            append_c_lane(s, 0, vector[0]);
            append_c_lane(s, 1, vector[1]);
            append_c_lane(s, 2, vector[2]);
            append_c_lane(s, 3, vector[3]);
            proof {
                assert(s@ =~= old(s)@ + spec_c_one(inst, index as int));
            }
        },
        Instruction::AddVectorMove { stride, vector } => {
            append_c_lane(s, 0, vector[0]);
            append_c_lane(s, 1, vector[1]);
            append_c_lane(s, 2, vector[2]);
            append_c_lane(s, 3, vector[3]);
            s.append("    head += ");
            append_dec_isize(s, stride);
            s.append(";\n");
            proof {
                assert(s@ =~= old(s)@ + spec_c_one(inst, index as int));
            }
        },
        Instruction::MoveRightToZero { increment, stride } => {
            append_c_mtz(s, increment, stride, true);
        },
        Instruction::MoveLeftToZero { increment, stride } => {
            append_c_mtz(s, increment, stride, false);
        },
    }
}

/// Translates a finalized program into C source text.
pub fn compile_to_c(instructions: &[Instruction]) -> (r: String)
    ensures
        r@ == spec_c(instructions@),
{
    let ghost prog = instructions@;
    let mut s = String::new();
    s.append("#include <stdio.h>\n");
    s.append("\n");
    s.append("int head = 0;\n");
    s.append("unsigned char tape[30000] = {0};\n");
    s.append("\n");
    s.append("int main(int argc, const char **argv) {\n");
    proof {
        assert(s@ =~= spec_c_header());
        assert(prog.skip(0) =~= prog);
    }
    let ghost whole = spec_c_header() + spec_c_instrs(prog, 0);
    let n = instructions.len();
    let mut i: usize = 0;
    while i < n
        invariant
            n == prog.len(),
            instructions@ == prog,
            i <= n,
            whole == spec_c_header() + spec_c_instrs(prog, 0),
            whole == s@ + spec_c_instrs(prog.skip(i as int), i as int),
        decreases n - i,
    {
        let ghost rest = prog.skip(i as int);
        proof {
            assert(rest[0] == prog[i as int]);
            assert(rest.skip(1) =~= prog.skip(i as int + 1));
        }
        emit_c_one(&mut s, instructions[i], i);
        proof {
            assert(whole =~= s@ + spec_c_instrs(prog.skip(i as int + 1), i as int + 1));
        }
        i += 1;
    }
    proof {
        assert(prog.skip(n as int).len() == 0);
    }
    s.append("    return 0;\n");
    s.append("}\n");
    proof {
        assert(s@ =~= spec_c(prog));
    }
    s
}

} // verus!
