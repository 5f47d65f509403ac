//! The abstract machine: a small-step semantics for instruction sequences,
//! against which the execution engine is verified. One step executes one
//! instruction, except that a move-to-zero instruction takes one step per
//! iteration and keeps the program counter in place until its cell is zero.

use vstd::prelude::*;

use crate::instruction::Instruction;
use crate::interpreter::{TapeSize, HEAD_LIMIT};

verus! {

/// The Euclidean remainder: the representative of `a` modulo `n` in
/// `[0, n)`, for `n > 0`.
pub open spec fn euc_mod(a: int, n: int) -> int {
    let r = a % n;
    if r < 0 {
        r + n
    } else {
        r
    }
}

/// The tape slot that position `i` addresses. A finite tape of length `n`
/// wraps modulo `n`; the unbounded tape saturates at zero on the left and
/// at the highest addressable index on the right.
pub open spec fn slot(size: TapeSize, i: int) -> int {
    match size {
        TapeSize::Finite(n) => euc_mod(i, n as int),
        TapeSize::Infinite => if i < 0 {
            0
        } else if i > HEAD_LIMIT as int {
            HEAD_LIMIT as int
        } else {
            i
        },
    }
}

/// The whole state of one execution.
pub ghost struct MachineState {
    /// The program counter.
    pub pc: nat,
    /// The tape pointer, always a canonical slot.
    pub head: nat,
    /// The tape contents by slot; an absent key reads as zero.
    pub cells: Map<int, u8>,
    /// How many input bytes have been consumed.
    pub in_pos: nat,
    /// The bytes emitted so far.
    pub out: Seq<u8>,
    /// How many instructions have been dispatched.
    pub fetched: nat,
}

/// Reads one cell; cells never written hold zero.
pub open spec fn cell(cells: Map<int, u8>, i: int) -> u8 {
    if cells.dom().contains(i) {
        cells[i]
    } else {
        0
    }
}

/// Adds `amount`, wrapping modulo 256, to the cell that position `pos`
/// addresses.
pub open spec fn bump_cell(size: TapeSize, cells: Map<int, u8>, pos: int, amount: i8) -> Map<
    int,
    u8,
> {
    let k = slot(size, pos);
    cells.insert(k, cell(cells, k).wrapping_add_signed(amount))
}

/// Overwrites the cell that position `pos` addresses.
pub open spec fn store_cell(size: TapeSize, cells: Map<int, u8>, pos: int, value: u8) -> Map<
    int,
    u8,
> {
    cells.insert(slot(size, pos), value)
}

/// Adds the four lanes to the cells at the pointer and its three right
/// neighbours, in lane order.
pub open spec fn add_vector_cells(
    size: TapeSize,
    cells: Map<int, u8>,
    head: int,
    v: [i8; 4],
) -> Map<int, u8> {
    bump_cell(
        size,
        bump_cell(size, bump_cell(size, bump_cell(size, cells, head, v[0]), head + 1, v[1]), head + 2, v[2]),
        head + 3,
        v[3],
    )
}

/// The value of the cell under the tape pointer.
pub open spec fn cur_cell(size: TapeSize, s: MachineState) -> u8 {
    cell(s.cells, slot(size, s.head as int))
}

/// The byte with the same bit pattern as a signed amount.
pub open spec fn byte_of(v: i8) -> u8 {
    0u8.wrapping_add_signed(v)
}

/// One input byte; reading past the available input yields zero.
pub open spec fn read_byte(input: Seq<u8>, idx: int) -> u8 {
    if 0 <= idx < input.len() {
        input[idx]
    } else {
        0
    }
}

/// The initial state: everything zero, nothing consumed or emitted.
pub open spec fn init_state() -> MachineState {
    MachineState { pc: 0, head: 0, cells: Map::empty(), in_pos: 0, out: seq![], fetched: 0 }
}

/// Execution has ended when the program counter runs off the end.
pub open spec fn halted(prog: Seq<Instruction>, s: MachineState) -> bool {
    s.pc >= prog.len()
}

/// One step of execution. A halted state steps to itself.
pub open spec fn step(
    prog: Seq<Instruction>,
    size: TapeSize,
    input: Seq<u8>,
    s: MachineState,
) -> MachineState {
    if s.pc >= prog.len() {
        s
    } else {
        match prog[s.pc as int] {
            Instruction::Add(a) => MachineState {
                pc: s.pc + 1,
                fetched: s.fetched + 1,
                cells: bump_cell(size, s.cells, s.head as int, a),
                ..s
            },
            Instruction::Move(m) => MachineState {
                pc: s.pc + 1,
                fetched: s.fetched + 1,
                head: slot(size, s.head + m) as nat,
                ..s
            },
            Instruction::Write(c) => MachineState {
                pc: s.pc + 1,
                fetched: s.fetched + 1,
                out: s.out + Seq::new(c as nat, |i: int| cur_cell(size, s)),
                ..s
            },
            Instruction::Read(c) => if c == 0 {
                MachineState { pc: s.pc + 1, fetched: s.fetched + 1, ..s }
            } else {
                MachineState {
                    pc: s.pc + 1,
                    fetched: s.fetched + 1,
                    in_pos: (s.in_pos + c) as nat,
                    cells: store_cell(
                        size,
                        s.cells,
                        s.head as int,
                        read_byte(input, s.in_pos + c - 1),
                    ),
                    ..s
                }
            },
            Instruction::JumpIfZero { location } => if cur_cell(size, s) == 0 {
                MachineState { pc: location as nat, fetched: s.fetched + 1, ..s }
            } else {
                MachineState { pc: s.pc + 1, fetched: s.fetched + 1, ..s }
            },
            Instruction::JumpIfNotZero { location } => if cur_cell(size, s) != 0 {
                MachineState { pc: location as nat, fetched: s.fetched + 1, ..s }
            } else {
                MachineState { pc: s.pc + 1, fetched: s.fetched + 1, ..s }
            },
            Instruction::SetValue(v) => MachineState {
                pc: s.pc + 1,
                fetched: s.fetched + 1,
                cells: store_cell(size, s.cells, s.head as int, byte_of(v)),
                ..s
            },
            Instruction::AddRelative { offset, amount } => MachineState {
                pc: s.pc + 1,
                fetched: s.fetched + 1,
                cells: bump_cell(size, s.cells, s.head + offset, amount),
                ..s
            },
            Instruction::AddVector { vector } => MachineState {
                pc: s.pc + 1,
                fetched: s.fetched + 1,
                cells: add_vector_cells(size, s.cells, s.head as int, vector),
                ..s
            },
            Instruction::AddVectorMove { stride, vector } => MachineState {
                pc: s.pc + 1,
                fetched: s.fetched + 1,
                cells: add_vector_cells(size, s.cells, s.head as int, vector),
                head: slot(size, s.head + stride) as nat,
                ..s
            },
            Instruction::MoveRightToZero { increment, stride } => if cur_cell(size, s) != 0 {
                MachineState {
                    cells: bump_cell(size, s.cells, s.head as int, increment),
                    head: slot(size, s.head + stride) as nat,
                    ..s
                }
            } else {
                MachineState { pc: s.pc + 1, fetched: s.fetched + 1, ..s }
            },
            Instruction::MoveLeftToZero { increment, stride } => if cur_cell(size, s) != 0 {
                MachineState {
                    cells: bump_cell(size, s.cells, s.head as int, increment),
                    head: slot(size, s.head - stride) as nat,
                    ..s
                }
            } else {
                MachineState { pc: s.pc + 1, fetched: s.fetched + 1, ..s }
            },
        }
    }
}

/// The state after `k` steps from the initial state.
pub open spec fn run(prog: Seq<Instruction>, size: TapeSize, input: Seq<u8>, k: nat) -> MachineState
    decreases k,
{
    if k == 0 {
        init_state()
    } else {
        step(prog, size, input, run(prog, size, input, (k - 1) as nat))
    }
}

/// The state after `k` steps from an arbitrary state.
pub open spec fn step_n(
    prog: Seq<Instruction>,
    size: TapeSize,
    input: Seq<u8>,
    s: MachineState,
    k: nat,
) -> MachineState
    decreases k,
{
    if k == 0 {
        s
    } else {
        step(prog, size, input, step_n(prog, size, input, s, (k - 1) as nat))
    }
}

/// Stepping composes: `k1` steps and then `k2` more are `k1 + k2` steps.
pub proof fn lemma_step_n_compose(
    prog: Seq<Instruction>,
    size: TapeSize,
    input: Seq<u8>,
    s: MachineState,
    k1: nat,
    k2: nat,
)
    ensures
        step_n(prog, size, input, s, k1 + k2) == step_n(
            prog,
            size,
            input,
            step_n(prog, size, input, s, k1),
            k2,
        ),
    decreases k2,
{
    if k2 > 0 {
        lemma_step_n_compose(prog, size, input, s, k1, (k2 - 1) as nat);
    }
}

/// A halted state never changes again.
pub proof fn lemma_halted_stable(prog: Seq<Instruction>, size: TapeSize, input: Seq<u8>, k: nat, m: nat)
    requires
        k <= m,
        halted(prog, run(prog, size, input, k)),
    ensures
        run(prog, size, input, m) == run(prog, size, input, k),
    decreases m,
{
    if m > k {
        lemma_halted_stable(prog, size, input, k, (m - 1) as nat);
    }
}

/// Each step dispatches at most one instruction.
pub proof fn lemma_fetched_le(prog: Seq<Instruction>, size: TapeSize, input: Seq<u8>, k: nat)
    ensures
        run(prog, size, input, k).fetched <= k,
    decreases k,
{
    if k > 0 {
        lemma_fetched_le(prog, size, input, (k - 1) as nat);
    }
}

} // verus!
