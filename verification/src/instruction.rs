//! The instruction representation: a closed set of tagged operation
//! variants, pure data plus two derived predicates used by the optimizer.

use vstd::prelude::*;

verus! {

/// One operation of the intermediate representation.
///
/// A program is an ordered sequence of instructions; order is semantically
/// significant, since the two jump variants address other instructions by
/// index. Cell arithmetic is always performed modulo 256 on byte-sized
/// cells, with signed amounts.
#[derive(Copy, Clone, PartialEq, Eq, Debug)]
#[allow(inconsistent_fields)]
pub enum Instruction {
    /// Add the amount to the current cell, wrapping modulo 256.
    Add(i8),
    /// Shift the tape pointer by the delta.
    Move(isize),
    /// Emit the current cell's value, count times.
    Write(usize),
    /// Consume count input bytes, keeping only the last one.
    Read(usize),
    /// If the current cell is 0, jump to the target index.
    JumpIfZero { location: usize },
    /// If the current cell is not 0, jump to the target index.
    JumpIfNotZero { location: usize },
    /// Unconditionally set the current cell to the value.
    SetValue(i8),
    /// Add the amount to the cell at pointer + offset, without moving
    /// the pointer.
    AddRelative { offset: isize, amount: i8 },
    /// Add the four amounts to the cells at pointer + 0..4, without
    /// moving the pointer.
    AddVector { vector: [i8; 4] },
    /// An `AddVector` followed by a `Move` of the stride.
    AddVectorMove { stride: isize, vector: [i8; 4] },
    /// While the current cell is not 0, add the increment to it and
    /// advance the pointer by the stride.
    MoveRightToZero { increment: i8, stride: usize },
    /// While the current cell is not 0, add the increment to it and
    /// retreat the pointer by the stride.
    MoveLeftToZero { increment: i8, stride: usize },
}

impl Instruction {
    /// An instruction is stable when it neither moves the tape pointer nor
    /// touches any cell besides the single cell it declares. The optimizer
    /// may hoist an `AddRelative` across a stable instruction at a
    /// different offset without changing meaning.
    pub open spec fn spec_is_stable(self) -> bool {
        match self {
            Instruction::Add(_)
            | Instruction::Write(_)
            | Instruction::Read(_)
            | Instruction::SetValue(_)
            | Instruction::AddRelative { .. } => true,
            _ => false,
        }
    }

    /// Executable form of `spec_is_stable`.
    pub fn is_stable(&self) -> (r: bool)
        ensures
            r == self.spec_is_stable(),
    {
        match self {
            Instruction::Add(_)
            | Instruction::Write(_)
            | Instruction::Read(_)
            | Instruction::SetValue(_)
            | Instruction::AddRelative { .. } => true,
            _ => false,
        }
    }

    /// An instruction preserves the tape head unless it is a `Move` or one
    /// of the move-to-zero forms.
    pub open spec fn spec_preserves_tape_head(self) -> bool {
        match self {
            Instruction::Move(_)
            | Instruction::MoveRightToZero { .. }
            | Instruction::MoveLeftToZero { .. } => false,
            _ => true,
        }
    }

    /// Executable form of `spec_preserves_tape_head`.
    pub fn preserves_tape_head(&self) -> (r: bool)
        ensures
            r == self.spec_preserves_tape_head(),
    {
        match self {
            Instruction::Move(_)
            | Instruction::MoveRightToZero { .. }
            | Instruction::MoveLeftToZero { .. } => false,
            _ => true,
        }
    }
}

} // verus!
