//! The managed-language emitter: a pure, stateless translation of a
//! finalized program into standalone Rust source text that reproduces the
//! numeric semantics of direct interpretation.

use vstd::prelude::*;

use crate::decimal::{
    append_dec_i8, append_dec_mag_i8, append_dec_mag_isize_bare, append_dec_isize,
    append_dec_usize, spec_dec, spec_dec_signed,
};
use crate::instruction::Instruction;
use crate::interpreter::TapeSize;

verus! {

/// A run of spaces.
pub open spec fn indent(k: int) -> Seq<char>
    decreases k,
{
    if k <= 0 {
        Seq::empty()
    } else {
        indent(k - 1).push(' ')
    }
}

/// A line repeated `k` times.
pub open spec fn rep(line: Seq<char>, k: int) -> Seq<char>
    decreases k,
{
    if k <= 0 {
        Seq::empty()
    } else {
        rep(line, k - 1) + line
    }
}

/// The statement that prints the current cell.
pub open spec fn line_print(p: int) -> Seq<char> {
    indent(p) + "print!(\"{}\", tape[head] as char);\n"@
}

/// The statement that adds a signed amount to one cell named by `place`.
pub open spec fn cell_add_text(place: Seq<char>, amount: int) -> Seq<char> {
    if amount >= 0 {
        place + " = "@ + place + ".wrapping_add("@ + spec_dec(amount) + ");\n"@
    } else {
        place + " = "@ + place + ".wrapping_sub("@ + spec_dec(-amount) + ");\n"@
    }
}

/// The text `tape[head + o]` or `tape[head - o]` naming a relative cell.
pub open spec fn rel_place_text(offset: int) -> Seq<char> {
    if offset >= 0 {
        "tape[head + "@ + spec_dec(offset) + "]"@
    } else {
        "tape[head - "@ + spec_dec(-offset) + "]"@
    }
}

/// The statements for a pointer move.
pub open spec fn move_text(m: int, size: TapeSize, p: int) -> Seq<char> {
    match size {
        TapeSize::Finite(_) => if m >= 0 {
            indent(p) + "head = (head + "@ + spec_dec(m) + ") % tape.len();\n"@
        } else {
            indent(p) + "head = (head - "@ + spec_dec(-m) + ") % tape.len();\n"@
        },
        TapeSize::Infinite => if m >= 0 {
            indent(p) + "head += "@ + spec_dec(m) + ";\n"@ + indent(p)
                + "if head + 3 >= tape.len() {\n"@ + indent(p)
                + "    tape.extend(std::iter::repeat(0).take(head + 5 - tape.len()));\n"@ + indent(
                p,
            ) + "}\n"@
        } else {
            indent(p) + "head -= "@ + spec_dec(-m) + ";\n"@
        },
    }
}

/// The four statements of a vector add, one per lane.
pub open spec fn vector_text(v: [i8; 4], p: int) -> Seq<char> {
    (indent(p) + cell_add_text(rel_place_text(0), v[0] as int)) + (indent(p) + cell_add_text(
        rel_place_text(1),
        v[1] as int,
    )) + (indent(p) + cell_add_text(rel_place_text(2), v[2] as int)) + (indent(p) + cell_add_text(
        rel_place_text(3),
        v[3] as int,
    ))
}

/// The statements of a move-to-zero loop; `dir` is `+` text when moving
/// right.
pub open spec fn mtz_text(increment: int, stride: int, right: bool, p: int) -> Seq<char> {
    indent(p) + "while tape[head] != 0 {\n"@ + (if increment > 0 {
        indent(p) + "    tape[head] = tape[head].wrapping_add("@ + spec_dec(increment) + ");\n"@
    } else if increment < 0 {
        indent(p) + "    tape[head] = tape[head].wrapping_sub("@ + spec_dec(-increment) + ");\n"@
    } else {
        Seq::empty()
    }) + indent(p) + (if right {
        "    head = (head + "@
    } else {
        "    head = (head - "@
    }) + spec_dec(stride) + ") % tape.len();\n"@ + indent(p) + "}\n"@
}

/// The text of one instruction that neither opens nor closes a loop, at
/// indentation `p`. A `Read` has no encoding in this generator.
pub open spec fn spec_rust_one(inst: Instruction, size: TapeSize, p: int) -> Seq<char> {
    match inst {
        Instruction::Add(amount) => indent(p) + cell_add_text("tape[head]"@, amount as int),
        Instruction::Move(amount) => move_text(amount as int, size, p),
        Instruction::Write(amount) => if amount <= 4 {
            rep(line_print(p), amount as int)
        } else {
            indent(p) + "for _ in 0.."@ + spec_dec(amount as int) + " {\n"@ + indent(p)
                + "    print!(\"{}\", tape[head] as char);\n"@ + indent(p) + "}\n"@
        },
        Instruction::SetValue(value) => indent(p) + "tape[head] = "@ + spec_dec_signed(value as int)
            + ";\n"@,
        Instruction::AddRelative { offset, amount } => indent(p) + cell_add_text(
            rel_place_text(offset as int),
            amount as int,
        ),
        Instruction::AddVector { vector } => vector_text(vector, p),
        Instruction::AddVectorMove { stride, vector } => vector_text(vector, p) + move_text(
            stride as int,
            size,
            p,
        ),
        Instruction::MoveRightToZero { increment, stride } => mtz_text(
            increment as int,
            stride as int,
            true,
            p,
        ),
        Instruction::MoveLeftToZero { increment, stride } => mtz_text(
            increment as int,
            stride as int,
            false,
            p,
        ),
        _ => Seq::empty(),
    }
}

/// The text of a whole instruction sequence: a loop-open emits its `while`
/// header and indents what follows; a loop-close outdents and closes the
/// block; everything else is one statement group.
pub open spec fn spec_rust_instrs(s: Seq<Instruction>, size: TapeSize, p: usize) -> Seq<char>
    decreases s.len(),
{
    if s.len() == 0 {
        Seq::empty()
    } else {
        match s[0] {
            Instruction::JumpIfZero { .. } => (indent(p as int) + "while tape[head] != 0 {\n"@)
                + spec_rust_instrs(s.skip(1), size, p.saturating_add(4)),
            Instruction::JumpIfNotZero { .. } => (indent(p.saturating_sub(4) as int) + "}\n"@)
                + spec_rust_instrs(s.skip(1), size, p.saturating_sub(4)),
            _ => spec_rust_one(s[0], size, p as int) + spec_rust_instrs(s.skip(1), size, p),
        }
    }
}

/// The program preamble: the `main` header, the pointer, and a tape fitted
/// to the policy.
pub open spec fn spec_rust_header(size: TapeSize) -> Seq<char> {
    "\n"@ + "fn main() -> Result<(), ()> {\n"@ + "    let mut head = 0;\n"@ + (match size {
        TapeSize::Finite(length) => if length >= 256 {
            "    let mut tape = vec![0u8; "@ + spec_dec(length as int) + "];\n"@
        } else {
            "    let mut tape = [0u8; "@ + spec_dec(length as int) + "];\n"@
        },
        TapeSize::Infinite => "    let mut tape = vec![0u8; 30000];\n"@,
    }) + "\n"@
}

/// The program epilogue.
pub open spec fn spec_rust_footer() -> Seq<char> {
    "\n"@ + "    Ok(())\n"@ + "}\n"@
}

/// The whole generated program.
pub open spec fn spec_rust(s: Seq<Instruction>, size: TapeSize) -> Seq<char> {
    spec_rust_header(size) + spec_rust_instrs(s, size, 4) + spec_rust_footer()
}

/// Appends a run of spaces.
fn append_spaces(s: &mut String, count: usize)
    ensures
        final(s)@ == old(s)@ + indent(count as int),
{
    let mut w: usize = 0;
    while w < count
        invariant
            w <= count,
            s@ == old(s)@ + indent(w as int),
        decreases count - w,
    {
        proof {
            reveal_strlit(" ");
        }
        s.append(" ");
        proof {
            assert(s@ =~= old(s)@ + indent(w as int + 1));
        }
        w += 1;
    }
}

/// Appends one cell-add statement for the given place text.
fn append_cell_add(s: &mut String, place: &str, amount: i8)
    ensures
        final(s)@ == old(s)@ + cell_add_text(place@, amount as int),
{
    s.append(place);
    s.append(" = ");
    s.append(place);
    if amount >= 0 {
        s.append(".wrapping_add(");
        append_dec_i8(s, amount);
    } else {
        s.append(".wrapping_sub(");
        append_dec_mag_i8(s, amount);
    }
    s.append(");\n");
    proof {
        assert(s@ =~= old(s)@ + cell_add_text(place@, amount as int));
    }
}

/// Appends one relative cell-add statement.
fn append_rel_add(s: &mut String, offset: isize, amount: i8, p: usize)
    ensures
        final(s)@ == old(s)@ + indent(p as int) + cell_add_text(
            rel_place_text(offset as int),
            amount as int,
        ),
{
    append_spaces(s, p);
    let ghost mid = s@;
    if offset >= 0 {
        s.append("tape[head + ");
        append_dec_isize(s, offset);
        s.append("]");
        s.append(" = ");
        s.append("tape[head + ");
        append_dec_isize(s, offset);
        s.append("]");
    } else {
        s.append("tape[head - ");
        append_dec_mag_isize_bare(s, offset);
        s.append("]");
        s.append(" = ");
        s.append("tape[head - ");
        append_dec_mag_isize_bare(s, offset);
        s.append("]");
    }
    if amount >= 0 {
        s.append(".wrapping_add(");
        append_dec_i8(s, amount);
    } else {
        s.append(".wrapping_sub(");
        append_dec_mag_i8(s, amount);
    }
    s.append(");\n");
    proof {
        assert(s@ =~= old(s)@ + indent(p as int) + cell_add_text(
            rel_place_text(offset as int),
            amount as int,
        ));
    }
}

/// Appends the statements for a pointer move.
fn append_move(s: &mut String, m: isize, size: TapeSize, p: usize)
    ensures
        final(s)@ == old(s)@ + move_text(m as int, size, p as int),
{
    match size {
        TapeSize::Finite(_) => {
            append_spaces(s, p);
            if m >= 0 {
                s.append("head = (head + ");
                append_dec_isize(s, m);
            } else {
                s.append("head = (head - ");
                append_dec_mag_isize_bare(s, m);
            }
            s.append(") % tape.len();\n");
        },
        TapeSize::Infinite => {
            if m >= 0 {
                append_spaces(s, p);
                s.append("head += ");
                append_dec_isize(s, m);
                s.append(";\n");
                append_spaces(s, p);
                s.append("if head + 3 >= tape.len() {\n");
                append_spaces(s, p);
                s.append("    tape.extend(std::iter::repeat(0).take(head + 5 - tape.len()));\n");
                append_spaces(s, p);
                s.append("}\n");
            } else {
                append_spaces(s, p);
                s.append("head -= ");
                append_dec_mag_isize_bare(s, m);
                s.append(";\n");
            }
        },
    }
    proof {
        assert(s@ =~= old(s)@ + move_text(m as int, size, p as int));
    }
}

/// Appends the four lane statements of a vector add.
fn append_vector(s: &mut String, v: [i8; 4], p: usize)
    ensures
        final(s)@ == old(s)@ + vector_text(v, p as int),
{
    append_rel_add(s, 0, v[0], p);
    append_rel_add(s, 1, v[1], p);
    append_rel_add(s, 2, v[2], p);
    append_rel_add(s, 3, v[3], p);
    proof {
        assert(s@ =~= old(s)@ + vector_text(v, p as int));
    }
}

/// Appends the statements of a move-to-zero loop.
#[verifier::rlimit(50)]
fn append_mtz(s: &mut String, increment: i8, stride: usize, right: bool, p: usize)
    ensures
        final(s)@ == old(s)@ + mtz_text(increment as int, stride as int, right, p as int),
{
    append_spaces(s, p);
    s.append("while tape[head] != 0 {\n");
    if increment > 0 {
        append_spaces(s, p);
        s.append("    tape[head] = tape[head].wrapping_add(");
        append_dec_i8(s, increment);
        s.append(");\n");
    } else if increment < 0 {
        append_spaces(s, p);
        s.append("    tape[head] = tape[head].wrapping_sub(");
        append_dec_mag_i8(s, increment);
        s.append(");\n");
    }
    append_spaces(s, p);
    if right {
        s.append("    head = (head + ");
    } else {
        s.append("    head = (head - ");
    }
    append_dec_usize(s, stride);
    s.append(") % tape.len();\n");
    append_spaces(s, p);
    s.append("}\n");
    proof {
        assert(s@ =~= old(s)@ + mtz_text(increment as int, stride as int, right, p as int));
    }
}

/// Appends the text of one instruction that neither opens nor closes a
/// loop.
fn emit_one(s: &mut String, inst: Instruction, size: TapeSize, p: usize)
    ensures
        final(s)@ == old(s)@ + spec_rust_one(inst, size, p as int),
{
    match inst {
        Instruction::Add(amount) => {
            append_spaces(s, p);
            append_cell_add(s, "tape[head]", amount);
            proof {
                assert(s@ =~= old(s)@ + spec_rust_one(inst, size, p as int));
            }
        },
        Instruction::Move(amount) => {
            append_move(s, amount, size, p);
        },
        Instruction::Write(amount) => {
            if amount <= 4 {
                let mut w: usize = 0;
                while w < amount
                    invariant
                        w <= amount,
                        s@ == old(s)@ + rep(line_print(p as int), w as int),
                    decreases amount - w,
                {
                    append_spaces(s, p);
                    s.append("print!(\"{}\", tape[head] as char);\n");
                    proof {
                        assert(s@ =~= old(s)@ + rep(line_print(p as int), w as int + 1));
                    }
                    w += 1;
                }
            } else {
                append_spaces(s, p);
                s.append("for _ in 0..");
                append_dec_usize(s, amount);
                s.append(" {\n");
                append_spaces(s, p);
                s.append("    print!(\"{}\", tape[head] as char);\n");
                append_spaces(s, p);
                s.append("}\n");
                proof {
                    assert(s@ =~= old(s)@ + spec_rust_one(inst, size, p as int));
                }
            }
        },
        Instruction::SetValue(value) => {
            append_spaces(s, p);
            s.append("tape[head] = ");
            append_dec_i8(s, value);
            s.append(";\n");
            proof {
                assert(s@ =~= old(s)@ + spec_rust_one(inst, size, p as int));
            }
        },
        Instruction::AddRelative { offset, amount } => {
            append_rel_add(s, offset, amount, p);
        },
        Instruction::AddVector { vector } => {
            append_vector(s, vector, p);
        },
        Instruction::AddVectorMove { stride, vector } => {
            append_vector(s, vector, p);
            append_move(s, stride, size, p);
            proof {
                assert(s@ =~= old(s)@ + spec_rust_one(inst, size, p as int));
            }
        },
        Instruction::MoveRightToZero { increment, stride } => {
            append_mtz(s, increment, stride, true, p);
        },
        Instruction::MoveLeftToZero { increment, stride } => {
            append_mtz(s, increment, stride, false, p);
        },
        _ => {},
    }
}

/// Translates a finalized program into standalone Rust source text. A
/// `Read` instruction has no encoding in this generator, so the program
/// may not contain one.
pub fn compile_to_rust(instructions: &[Instruction], tape_size: TapeSize) -> (r: String)
    requires
        forall|i: int|
            0 <= i < instructions@.len() ==> !(#[trigger] instructions@[i] is Read),
    ensures
        r@ == spec_rust(instructions@, tape_size),
{
    let ghost prog = instructions@;
    let mut s = String::new();
    s.append("\n");
    s.append("fn main() -> Result<(), ()> {\n");
    s.append("    let mut head = 0;\n");
    match tape_size {
        TapeSize::Finite(length) => {
            if length >= 256 {
                s.append("    let mut tape = vec![0u8; ");
                append_dec_usize(&mut s, length);
                s.append("];\n");
            } else {
                s.append("    let mut tape = [0u8; ");
                append_dec_usize(&mut s, length);
                s.append("];\n");
            }
        },
        TapeSize::Infinite => {
            s.append("    let mut tape = vec![0u8; 30000];\n");
        },
    }
    s.append("\n");
    proof {
        assert(s@ =~= spec_rust_header(tape_size));
        assert(prog.skip(0) =~= prog);
    }
    let ghost whole = spec_rust_header(tape_size) + spec_rust_instrs(prog, tape_size, 4);
    let n = instructions.len();
    let mut i: usize = 0;
    let mut p: usize = 4;
    while i < n
        invariant
            n == prog.len(),
            instructions@ == prog,
            i <= n,
            whole == spec_rust_header(tape_size) + spec_rust_instrs(prog, tape_size, 4),
            whole == s@ + spec_rust_instrs(prog.skip(i as int), tape_size, p),
        decreases n - i,
    {
        let inst = instructions[i];
        let ghost s0 = s@;
        let ghost rest = prog.skip(i as int);
        proof {
            assert(rest[0] == prog[i as int]);
            assert(rest.skip(1) =~= prog.skip(i as int + 1));
        }
        match inst {
            Instruction::JumpIfZero { .. } => {
                append_spaces(&mut s, p);
                s.append("while tape[head] != 0 {\n");
                p = p.saturating_add(4);
            },
            Instruction::JumpIfNotZero { .. } => {
                p = p.saturating_sub(4);
                append_spaces(&mut s, p);
                s.append("}\n");
            },
            _ => {
                emit_one(&mut s, inst, tape_size, p);
            },
        }
        proof {
            assert(whole =~= s@ + spec_rust_instrs(prog.skip(i as int + 1), tape_size, p));
        }
        i += 1;
    }
    proof {
        assert(prog.skip(n as int).len() == 0);
    }
    s.append("\n");
    s.append("    Ok(())\n");
    s.append("}\n");
    proof {
        assert(s@ =~= spec_rust(prog, tape_size));
    }
    s
}

} // verus!
