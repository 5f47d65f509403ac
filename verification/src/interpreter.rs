//! The execution engine: an abstract tape plus a fetch-decode-execute loop
//! over a finalized instruction sequence, verified against the small-step
//! machine of `semantics`.

use vstd::prelude::*;
use vstd::arithmetic::div_mod::{
    lemma_fundamental_div_mod, lemma_mod_bound, lemma_mod_multiples_vanish, lemma_small_mod,
};

use crate::instruction::Instruction;
use crate::semantics::{
    cell, cur_cell, euc_mod, halted, init_state, lemma_fetched_le, read_byte, run, slot, step,
    MachineState,
};

verus! {

/// How many spare cells a growing tape adds beyond a write.
pub const TAPE_GROW_AMOUNT: usize = 50;

/// The initial length of the unbounded tape.
pub const STANDARD_TAPE_SIZE: usize = 30_000;

/// The highest cell index the unbounded tape can address: far beyond any
/// buffer a machine can hold, and low enough that growing past a write
/// never overflows the index arithmetic.
pub const HEAD_LIMIT: usize = usize::MAX - TAPE_GROW_AMOUNT;

/// The tape-size policy: a fixed-length buffer whose pointer arithmetic
/// wraps modulo its length, or an unbounded buffer that grows rightward on
/// demand and whose pointer saturates at zero on the left.
#[derive(Copy, Clone, PartialEq, Eq, Debug)]
pub enum TapeSize {
    Finite(usize),
    Infinite,
}

/// How many distinct slots a policy addresses: a finite tape has one per
/// cell, the unbounded tape everything up to the highest addressable index.
pub open spec fn canon_range(size: TapeSize) -> int {
    match size {
        TapeSize::Finite(n) => n as int,
        TapeSize::Infinite => HEAD_LIMIT as int + 1,
    }
}

/// Every position in the canonical range is its own slot.
pub proof fn lemma_slot_canon(size: TapeSize)
    ensures
        forall|i: int| 0 <= i < canon_range(size) ==> #[trigger] slot(size, i) == i,
{
    match size {
        TapeSize::Finite(n) => {
            assert forall|i: int| 0 <= i < canon_range(size) implies #[trigger] slot(size, i)
                == i by {
                lemma_small_mod(i as nat, n as nat);
            }
        },
        TapeSize::Infinite => {},
    }
}

/// Every slot lies in the canonical range.
pub proof fn lemma_slot_in_range(size: TapeSize, i: int)
    requires
        size matches TapeSize::Finite(n) ==> n >= 1,
    ensures
        0 <= slot(size, i) < canon_range(size),
{
    match size {
        TapeSize::Finite(n) => {
            lemma_mod_bound(i, n as int);
        },
        TapeSize::Infinite => {},
    }
}

/// Wrapping index arithmetic for the finite tape: the slot `amount` cells
/// to the right of `head`.
fn wrap_add_index(n: usize, head: usize, amount: usize) -> (r: usize)
    requires
        1 <= n,
        head < n,
    ensures
        r == euc_mod(head + amount, n as int),
        r < n,
{
    let a = amount % n;
    let r = if a <= n - 1 - head {
        head + a
    } else {
        head - (n - a)
    };
    proof {
        lemma_fundamental_div_mod(amount as int, n as int);
        lemma_mod_multiples_vanish(amount as int / n as int, head + a, n as int);
        if head + a < n {
            lemma_small_mod((head + a) as nat, n as nat);
        } else {
            lemma_mod_multiples_vanish(1, head + a - n, n as int);
            lemma_small_mod((head + a - n) as nat, n as nat);
        }
    }
    r
}

/// Wrapping index arithmetic for the finite tape: the slot `amount` cells
/// to the left of `head`.
fn wrap_sub_index(n: usize, head: usize, amount: usize) -> (r: usize)
    requires
        1 <= n,
        head < n,
    ensures
        r == euc_mod(head - amount, n as int),
        r < n,
{
    let a = amount % n;
    let r = if a <= head {
        head - a
    } else {
        head + (n - a)
    };
    proof {
        let q = amount as int / n as int;
        lemma_fundamental_div_mod(amount as int, n as int);
        assert(amount == n as int * q + a);
        assert(n as int * -q == -(n as int * q)) by (nonlinear_arith);
        assert(head - amount == n as int * -q + (head - a));
        lemma_mod_multiples_vanish(-q, head - a, n as int);
        assert((head - amount) % (n as int) == (head - a) % (n as int));
        if a <= head {
            lemma_small_mod((head - a) as nat, n as nat);
        } else {
            assert(head - a == n as int * -1 + (head - a + n));
            lemma_mod_multiples_vanish(-1, head - a + n, n as int);
            lemma_small_mod((head - a + n) as nat, n as nat);
        }
    }
    r
}

/// The unbounded tape's pointer saturates at the highest addressable index.
fn clamp_limit(h: usize) -> (r: usize)
    ensures
        r == if h > HEAD_LIMIT {
            HEAD_LIMIT as int
        } else {
            h as int
        },
{
    if h > HEAD_LIMIT {
        HEAD_LIMIT
    } else {
        h
    }
}

/// The magnitude of a negative delta.
fn neg_magnitude(s: isize) -> (r: usize)
    requires
        s < 0,
    ensures
        r == -(s as int),
{
    if s == isize::MIN {
        (isize::MAX as usize) + 1
    } else {
        (-s) as usize
    }
}

/// The tape owned by one execution: a byte buffer, a pointer, and the
/// size policy that fixes the index arithmetic.
pub struct Memory {
    /// The tape pointer, always a canonical slot.
    pub head: usize,
    /// The byte buffer.
    pub tape: Vec<u8>,
    /// The size policy.
    pub size: TapeSize,
}

impl Memory {
    /// Well-formedness: a finite tape is exactly its declared length and
    /// the pointer stays inside it; the unbounded tape's pointer stays at
    /// or below the highest addressable index.
    pub open spec fn wf(self) -> bool {
        match self.size {
            TapeSize::Finite(n) => 1 <= n && self.tape@.len() == n && self.head < n,
            TapeSize::Infinite => self.head <= HEAD_LIMIT,
        }
    }

    /// What any position reads: a finite tape wraps, the unbounded tape
    /// reads zero beyond what has been allocated.
    pub open spec fn read_cell(self, i: int) -> u8 {
        match self.size {
            TapeSize::Finite(n) => self.tape@[euc_mod(i, n as int)],
            TapeSize::Infinite => if 0 <= i < self.tape@.len() {
                self.tape@[i]
            } else {
                0
            },
        }
    }

    /// A fresh, all-zero tape with the pointer at the origin.
    pub fn new(size: TapeSize) -> (r: Memory)
        requires
            size matches TapeSize::Finite(n) ==> n >= 1,
        ensures
            r.wf(),
            r.size == size,
            r.head == 0,
            forall|i: int| #[trigger] r.read_cell(i) == 0,
    {
        let length = if let TapeSize::Finite(tape_size) = size {
            tape_size
        } else {
            STANDARD_TAPE_SIZE
        };
        let tape = vec![0u8; length];
        let r = Memory { head: 0, tape, size };
        proof {
            assert forall|i: int| #[trigger] r.read_cell(i) == 0 by {
                if let TapeSize::Finite(n) = size {
                    lemma_mod_bound(i, n as int);
                }
            }
        }
        r
    }

    /// Moves the pointer right by an unsigned amount.
    pub fn move_head_right(&mut self, amount: usize)
        requires
            old(self).wf(),
        ensures
            final(self).wf(),
            final(self).size == old(self).size,
            final(self).tape@ == old(self).tape@,
            final(self).head == slot(old(self).size, old(self).head + amount),
    {
        match self.size {
            TapeSize::Finite(tape_size) => {
                self.head = wrap_add_index(tape_size, self.head, amount);
            },
            TapeSize::Infinite => {
                self.head = clamp_limit(self.head.saturating_add(amount));
            },
        }
    }

    /// Moves the pointer left by an unsigned amount.
    pub fn move_head_left(&mut self, amount: usize)
        requires
            old(self).wf(),
        ensures
            final(self).wf(),
            final(self).size == old(self).size,
            final(self).tape@ == old(self).tape@,
            final(self).head == slot(old(self).size, old(self).head - amount),
    {
        match self.size {
            TapeSize::Finite(tape_size) => {
                self.head = wrap_sub_index(tape_size, self.head, amount);
            },
            TapeSize::Infinite => {
                self.head = self.head.saturating_sub(amount);
            },
        }
    }

    /// Moves the pointer by a signed delta.
    pub fn move_head(&mut self, amount: isize)
        requires
            old(self).wf(),
        ensures
            final(self).wf(),
            final(self).size == old(self).size,
            final(self).tape@ == old(self).tape@,
            final(self).head == slot(old(self).size, old(self).head + amount),
    {
        if amount >= 0 {
            self.move_head_right(amount as usize);
        } else {
            let m = neg_magnitude(amount);
            self.move_head_left(m);
        }
    }

    /// The slot that the cell at `pointer + offset` occupies.
    pub fn rel_index(&self, offset: isize) -> (idx: usize)
        requires
            self.wf(),
        ensures
            idx == slot(self.size, self.head + offset),
            idx < canon_range(self.size),
    {
        if offset >= 0 {
            match self.size {
                TapeSize::Finite(tape_size) => wrap_add_index(
                    tape_size,
                    self.head,
                    offset as usize,
                ),
                TapeSize::Infinite => clamp_limit(self.head.saturating_add(offset as usize)),
            }
        } else {
            let m = neg_magnitude(offset);
            match self.size {
                TapeSize::Finite(tape_size) => wrap_sub_index(tape_size, self.head, m),
                TapeSize::Infinite => self.head.saturating_sub(m),
            }
        }
    }

    /// Reads the cell at an arbitrary index, wrapping or defaulting per
    /// the policy.
    pub fn get_cell_value(&self, index: usize) -> (r: u8)
        requires
            self.wf(),
        ensures
            r == self.read_cell(index as int),
    {
        match self.size {
            TapeSize::Finite(tape_size) => {
                let i = index % tape_size;
                proof {
                    lemma_mod_bound(index as int, tape_size as int);
                }
                self.tape[i]
            },
            TapeSize::Infinite => {
                if index < self.tape.len() {
                    self.tape[index]
                } else {
                    0
                }
            },
        }
    }

    /// Reads the cell under the pointer.
    pub fn current_cell_value(&self) -> (r: u8)
        requires
            self.wf(),
        ensures
            r == self.read_cell(self.head as int),
    {
        proof {
            if let TapeSize::Finite(n) = self.size {
                lemma_small_mod(self.head as nat, n as nat);
            }
        }
        self.get_cell_value(self.head)
    }

    /// Writes the cell at an index, growing the unbounded tape first when
    /// the write lands beyond it.
    pub fn set_cell(&mut self, index: usize, value: u8)
        requires
            old(self).wf(),
            old(self).size is Infinite ==> index <= HEAD_LIMIT,
        ensures
            final(self).wf(),
            final(self).size == old(self).size,
            final(self).head == old(self).head,
            forall|i: int|
                0 <= i < canon_range(old(self).size) ==> #[trigger] final(self).read_cell(i) == (
                if slot(old(self).size, i) == slot(old(self).size, index as int) {
                    value
                } else {
                    old(self).read_cell(i)
                }),
    {
        let ghost pre = *self;
        match self.size {
            TapeSize::Finite(tape_size) => {
                let i = index % tape_size;
                proof {
                    lemma_mod_bound(index as int, tape_size as int);
                }
                self.tape[i] = value;
                proof {
                    lemma_slot_canon(pre.size);
                    assert forall|k: int| 0 <= k < canon_range(pre.size) implies #[trigger] self
                        .read_cell(k) == (if slot(pre.size, k) == slot(pre.size, index as int) {
                        value
                    } else {
                        pre.read_cell(k)
                    }) by {
                        lemma_small_mod(k as nat, tape_size as nat);
                    }
                }
            },
            TapeSize::Infinite => {
                if index >= self.tape.len() {
                    let target = index + TAPE_GROW_AMOUNT;
                    let ghost len0 = self.tape@.len();
                    while self.tape.len() < target
                        invariant
                            self.size == pre.size,
                            self.head == pre.head,
                            pre.size is Infinite,
                            len0 <= self.tape@.len() <= target,
                            forall|i: int|
                                0 <= i < len0 ==> #[trigger] self.tape@[i] == pre.tape@[i],
                            forall|i: int|
                                len0 <= i < self.tape@.len() ==> #[trigger] self.tape@[i] == 0,
                        decreases target - self.tape@.len(),
                    {
                        self.tape.push(0);
                    }
                }
                self.tape[index] = value;
                proof {
                    lemma_slot_canon(pre.size);
                    assert forall|k: int| 0 <= k < canon_range(pre.size) implies #[trigger] self
                        .read_cell(k) == (if slot(pre.size, k) == slot(pre.size, index as int) {
                        value
                    } else {
                        pre.read_cell(k)
                    }) by {
                        assert(slot(pre.size, k) == k);
                        assert(slot(pre.size, index as int) == index as int);
                    }
                }
            },
        }
    }

    /// Writes the cell under the pointer.
    pub fn set_current_cell(&mut self, value: u8)
        requires
            old(self).wf(),
        ensures
            final(self).wf(),
            final(self).size == old(self).size,
            final(self).head == old(self).head,
            forall|i: int|
                0 <= i < canon_range(old(self).size) ==> #[trigger] final(self).read_cell(i) == (
                if slot(old(self).size, i) == slot(old(self).size, old(self).head as int) {
                    value
                } else {
                    old(self).read_cell(i)
                }),
    {
        proof {
            if let TapeSize::Finite(n) = self.size {
                lemma_small_mod(self.head as nat, n as nat);
            }
        }
        self.set_cell(self.head, value);
    }
}

/// A memory write under the pointer realizes a `bump_cell` of the abstract
/// tape.
proof fn lemma_bump_match(
    size: TapeSize,
    cells: Map<int, u8>,
    m0: Memory,
    m1: Memory,
    pos: int,
    amount: i8,
)
    requires
        size matches TapeSize::Finite(n) ==> n >= 1,
        forall|i: int| 0 <= i < canon_range(size) ==> #[trigger] cell(cells, i) == m0.read_cell(i),
        forall|i: int|
            0 <= i < canon_range(size) ==> #[trigger] m1.read_cell(i) == (if slot(size, i) == slot(
                size,
                pos,
            ) {
                m0.read_cell(slot(size, pos)).wrapping_add_signed(amount)
            } else {
                m0.read_cell(i)
            }),
    ensures
        forall|i: int|
            0 <= i < canon_range(size) ==> #[trigger] cell(
                crate::semantics::bump_cell(size, cells, pos, amount),
                i,
            ) == m1.read_cell(i),
{
    lemma_slot_canon(size);
    lemma_slot_in_range(size, pos);
    assert forall|i: int| 0 <= i < canon_range(size) implies #[trigger] cell(
        crate::semantics::bump_cell(size, cells, pos, amount),
        i,
    ) == m1.read_cell(i) by {
        assert(slot(size, i) == i);
        assert(cell(cells, i) == m0.read_cell(i));
        assert(cell(cells, slot(size, pos)) == m0.read_cell(slot(size, pos)));
    }
}

/// A memory write under the pointer realizes a `store_cell` of the
/// abstract tape.
proof fn lemma_store_match(
    size: TapeSize,
    cells: Map<int, u8>,
    m0: Memory,
    m1: Memory,
    pos: int,
    value: u8,
)
    requires
        size matches TapeSize::Finite(n) ==> n >= 1,
        forall|i: int| 0 <= i < canon_range(size) ==> #[trigger] cell(cells, i) == m0.read_cell(i),
        forall|i: int|
            0 <= i < canon_range(size) ==> #[trigger] m1.read_cell(i) == (if slot(size, i) == slot(
                size,
                pos,
            ) {
                value
            } else {
                m0.read_cell(i)
            }),
    ensures
        forall|i: int|
            0 <= i < canon_range(size) ==> #[trigger] cell(
                crate::semantics::store_cell(size, cells, pos, value),
                i,
            ) == m1.read_cell(i),
{
    lemma_slot_canon(size);
    lemma_slot_in_range(size, pos);
    assert forall|i: int| 0 <= i < canon_range(size) implies #[trigger] cell(
        crate::semantics::store_cell(size, cells, pos, value),
        i,
    ) == m1.read_cell(i) by {
        assert(slot(size, i) == i);
        assert(cell(cells, i) == m0.read_cell(i));
    }
}

/// The correspondence between the abstract machine after `steps` steps and
/// the engine's concrete state.
pub open spec fn corresponds(
    prog: Seq<Instruction>,
    size: TapeSize,
    input: Seq<u8>,
    steps: nat,
    mem: Memory,
    pc: usize,
    in_pos: usize,
    out: Seq<u8>,
    executed: usize,
) -> bool {
    let s = run(prog, size, input, steps);
    &&& mem.wf()
    &&& mem.size == size
    &&& s.pc == pc
    &&& s.head == mem.head
    &&& (forall|i: int|
        0 <= i < canon_range(size) ==> #[trigger] cell(s.cells, i) == mem.read_cell(i))
    &&& s.out == out
    &&& (s.in_pos <= usize::MAX ==> in_pos == s.in_pos)
    &&& (s.in_pos > usize::MAX ==> in_pos == usize::MAX)
    &&& executed == s.fetched
}

/// Executes a finalized program against the given input bytes and tape
/// policy, from instruction 0 until the program counter runs off the end,
/// for at most `max_steps` machine steps (each instruction costs one step,
/// and each iteration of a move-to-zero instruction costs one more).
///
/// Returns the bytes written and the count of instructions executed, or
/// `None` when the step budget ran out first.
#[verifier::rlimit(100)]
pub fn interpret(
    instructions: &[Instruction],
    input: &[u8],
    tape_size: TapeSize,
    max_steps: usize,
) -> (r: Option<(Vec<u8>, usize)>)
    requires
        tape_size matches TapeSize::Finite(n) ==> n >= 1,
    ensures
        r matches Some(p) ==> exists|k: nat|
            k <= max_steps && halted(instructions@, #[trigger] run(instructions@, tape_size, input@, k))
                && p.0@ == run(instructions@, tape_size, input@, k).out && p.1 == run(
                instructions@,
                tape_size,
                input@,
                k,
            ).fetched,
        r is None ==> !halted(
            instructions@,
            run(instructions@, tape_size, input@, max_steps as nat),
        ),
{
    let ghost prog = instructions@;
    let ghost inp = input@;
    let mut memory = Memory::new(tape_size);
    let mut output: Vec<u8> = Vec::new();
    let mut program_counter: usize = 0;
    let mut in_pos: usize = 0;
    let mut instructions_executed: usize = 0;
    let mut fuel = max_steps;
    let ghost mut steps: nat = 0nat;
    let n = instructions.len();
    proof {
        assert(run(prog, tape_size, inp, 0) == init_state());
        assert(corresponds(prog, tape_size, inp, 0, memory, 0, 0, output@, 0));
    }
    while program_counter < n
        invariant
            n == prog.len(),
            instructions@ == prog,
            input@ == inp,
            tape_size matches TapeSize::Finite(nn) ==> nn >= 1,
            steps + fuel == max_steps,
            corresponds(
                prog,
                tape_size,
                inp,
                steps,
                memory,
                program_counter,
                in_pos,
                output@,
                instructions_executed,
            ),
        decreases fuel,
    {
        let ghost s0 = run(prog, tape_size, inp, steps);
        if fuel == 0 {
            return None;
        }
        let inst = instructions[program_counter];
        proof {
            lemma_fetched_le(prog, tape_size, inp, steps);
            lemma_slot_canon(tape_size);
            lemma_slot_in_range(tape_size, s0.head as int);
            assert(run(prog, tape_size, inp, steps + 1) == step(prog, tape_size, inp, s0));
        }
        match inst {
            Instruction::Add(amount) => {
                let ghost mpre = memory;
                let cur = memory.current_cell_value();
                memory.set_current_cell(cur.wrapping_add_signed(amount));
                program_counter += 1;
                instructions_executed += 1;
                fuel -= 1;
                proof {
                    lemma_bump_match(tape_size, s0.cells, mpre, memory, s0.head as int, amount);
                    steps = steps + 1;
                }
            },
            Instruction::Move(amount) => {
                memory.move_head(amount);
                program_counter += 1;
                instructions_executed += 1;
                fuel -= 1;
                proof {
                    steps = steps + 1;
                }
            },
            Instruction::Write(amount) => {
                let cur = memory.current_cell_value();
                let ghost out0 = output@;
                let mut w: usize = 0;
                while w < amount
                    invariant
                        w <= amount,
                        output@ == out0 + Seq::new(w as nat, |i: int| cur),
                    decreases amount - w,
                {
                    output.push(cur);
                    proof {
                        assert(output@ =~= out0 + Seq::new((w + 1) as nat, |i: int| cur));
                    }
                    w += 1;
                }
                program_counter += 1;
                instructions_executed += 1;
                fuel -= 1;
                proof {
                    steps = steps + 1;
                    assert(Seq::new(amount as nat, |i: int| cur) =~= Seq::new(
                        amount as nat,
                        |i: int| cur_cell(tape_size, s0),
                    ));
                }
            },
            Instruction::Read(amount) => {
                if amount > 0 {
                    let ghost mpre = memory;
                    let byte: u8 = if in_pos < input.len() && amount <= input.len() - in_pos {
                        input[in_pos + amount - 1]
                    } else {
                        0
                    };
                    memory.set_current_cell(byte);
                    in_pos = in_pos.saturating_add(amount);
                    proof {
                        assert(byte == read_byte(inp, s0.in_pos + amount - 1));
                        lemma_store_match(tape_size, s0.cells, mpre, memory, s0.head as int, byte);
                    }
                }
                program_counter += 1;
                instructions_executed += 1;
                fuel -= 1;
                proof {
                    steps = steps + 1;
                }
            },
            Instruction::JumpIfZero { location } => {
                let cur = memory.current_cell_value();
                if cur == 0 {
                    program_counter = location;
                } else {
                    program_counter += 1;
                }
                instructions_executed += 1;
                fuel -= 1;
                proof {
                    steps = steps + 1;
                }
            },
            Instruction::JumpIfNotZero { location } => {
                let cur = memory.current_cell_value();
                if cur != 0 {
                    program_counter = location;
                } else {
                    program_counter += 1;
                }
                instructions_executed += 1;
                fuel -= 1;
                proof {
                    steps = steps + 1;
                }
            },
            Instruction::SetValue(value) => {
                let ghost mpre = memory;
                memory.set_current_cell(0u8.wrapping_add_signed(value));
                program_counter += 1;
                instructions_executed += 1;
                fuel -= 1;
                proof {
                    lemma_store_match(
                        tape_size,
                        s0.cells,
                        mpre,
                        memory,
                        s0.head as int,
                        crate::semantics::byte_of(value),
                    );
                    steps = steps + 1;
                }
            },
            Instruction::AddRelative { offset, amount } => {
                let ghost mpre = memory;
                proof {
                    lemma_slot_in_range(tape_size, s0.head + offset);
                }
                let idx = memory.rel_index(offset);
                let cur = memory.get_cell_value(idx);
                memory.set_cell(idx, cur.wrapping_add_signed(amount));
                program_counter += 1;
                instructions_executed += 1;
                fuel -= 1;
                proof {
                    lemma_bump_match(tape_size, s0.cells, mpre, memory, s0.head + offset, amount);
                    steps = steps + 1;
                }
            },
            Instruction::AddVector { vector } => {
                add_vector_exec(&mut memory, vector, Ghost(s0.cells));
                program_counter += 1;
                instructions_executed += 1;
                fuel -= 1;
                proof {
                    steps = steps + 1;
                }
            },
            Instruction::AddVectorMove { stride, vector } => {
                add_vector_exec(&mut memory, vector, Ghost(s0.cells));
                memory.move_head(stride);
                program_counter += 1;
                instructions_executed += 1;
                fuel -= 1;
                proof {
                    steps = steps + 1;
                }
            },
            Instruction::MoveRightToZero { increment, stride } => {
                let ghost fuel_at = fuel;
                let mut cur = memory.current_cell_value();
                while cur != 0 && fuel > 0
                    invariant
                        n == prog.len(),
                        instructions@ == prog,
                        input@ == inp,
                        tape_size matches TapeSize::Finite(nn) ==> nn >= 1,
                        steps + fuel == max_steps,
                        fuel <= fuel_at,
                        program_counter < n,
                        prog[program_counter as int] == (Instruction::MoveRightToZero {
                            increment,
                            stride,
                        }),
                        cur == memory.read_cell(memory.head as int),
                        corresponds(
                            prog,
                            tape_size,
                            inp,
                            steps,
                            memory,
                            program_counter,
                            in_pos,
                            output@,
                            instructions_executed,
                        ),
                    decreases fuel,
                {
                    let ghost si = run(prog, tape_size, inp, steps);
                    let ghost mpre = memory;
                    proof {
                        lemma_slot_canon(tape_size);
                        lemma_slot_in_range(tape_size, si.head as int);
                        assert(cur == cur_cell(tape_size, si));
                        assert(run(prog, tape_size, inp, steps + 1) == step(
                            prog,
                            tape_size,
                            inp,
                            si,
                        ));
                    }
                    memory.set_current_cell(cur.wrapping_add_signed(increment));
                    let ghost mmid = memory;
                    memory.move_head_right(stride);
                    cur = memory.current_cell_value();
                    fuel -= 1;
                    proof {
                        lemma_bump_match(
                            tape_size,
                            si.cells,
                            mpre,
                            mmid,
                            si.head as int,
                            increment,
                        );
                        assert(forall|i: int|
                            0 <= i < canon_range(tape_size) ==> #[trigger] memory.read_cell(i)
                                == mmid.read_cell(i));
                        steps = steps + 1;
                    }
                }
                if fuel == 0 {
                    return None;
                }
                let ghost sx = run(prog, tape_size, inp, steps);
                proof {
                    lemma_slot_canon(tape_size);
                    lemma_slot_in_range(tape_size, sx.head as int);
                    assert(cur == cur_cell(tape_size, sx));
                    assert(run(prog, tape_size, inp, steps + 1) == step(prog, tape_size, inp, sx));
                }
                program_counter += 1;
                instructions_executed += 1;
                fuel -= 1;
                proof {
                    lemma_fetched_le(prog, tape_size, inp, steps);
                    steps = steps + 1;
                }
            },
            Instruction::MoveLeftToZero { increment, stride } => {
                let ghost fuel_at = fuel;
                let mut cur = memory.current_cell_value();
                while cur != 0 && fuel > 0
                    invariant
                        n == prog.len(),
                        instructions@ == prog,
                        input@ == inp,
                        tape_size matches TapeSize::Finite(nn) ==> nn >= 1,
                        steps + fuel == max_steps,
                        fuel <= fuel_at,
                        program_counter < n,
                        prog[program_counter as int] == (Instruction::MoveLeftToZero {
                            increment,
                            stride,
                        }),
                        cur == memory.read_cell(memory.head as int),
                        corresponds(
                            prog,
                            tape_size,
                            inp,
                            steps,
                            memory,
                            program_counter,
                            in_pos,
                            output@,
                            instructions_executed,
                        ),
                    decreases fuel,
                {
                    let ghost si = run(prog, tape_size, inp, steps);
                    let ghost mpre = memory;
                    proof {
                        lemma_slot_canon(tape_size);
                        lemma_slot_in_range(tape_size, si.head as int);
                        assert(cur == cur_cell(tape_size, si));
                        assert(run(prog, tape_size, inp, steps + 1) == step(
                            prog,
                            tape_size,
                            inp,
                            si,
                        ));
                    }
                    memory.set_current_cell(cur.wrapping_add_signed(increment));
                    let ghost mmid = memory;
                    memory.move_head_left(stride);
                    cur = memory.current_cell_value();
                    fuel -= 1;
                    proof {
                        lemma_bump_match(
                            tape_size,
                            si.cells,
                            mpre,
                            mmid,
                            si.head as int,
                            increment,
                        );
                        assert(forall|i: int|
                            0 <= i < canon_range(tape_size) ==> #[trigger] memory.read_cell(i)
                                == mmid.read_cell(i));
                        steps = steps + 1;
                    }
                }
                if fuel == 0 {
                    return None;
                }
                let ghost sx = run(prog, tape_size, inp, steps);
                proof {
                    lemma_slot_canon(tape_size);
                    lemma_slot_in_range(tape_size, sx.head as int);
                    assert(cur == cur_cell(tape_size, sx));
                    assert(run(prog, tape_size, inp, steps + 1) == step(prog, tape_size, inp, sx));
                }
                program_counter += 1;
                instructions_executed += 1;
                fuel -= 1;
                proof {
                    lemma_fetched_le(prog, tape_size, inp, steps);
                    steps = steps + 1;
                }
            },
        }
    }
    proof {
        assert(halted(prog, run(prog, tape_size, inp, steps)));
    }
    Some((output, instructions_executed))
}

/// Adds the four lanes to the cells at the pointer and its three right
/// neighbours, in lane order. The ghost map is the abstract tape the
/// memory currently realizes.
fn add_vector_exec(memory: &mut Memory, vector: [i8; 4], Ghost(c): Ghost<Map<int, u8>>)
    requires
        old(memory).wf(),
        old(memory).size matches TapeSize::Finite(n) ==> n >= 1,
        forall|i: int|
            0 <= i < canon_range(old(memory).size) ==> #[trigger] cell(c, i) == old(
                memory,
            ).read_cell(i),
    ensures
        final(memory).wf(),
        final(memory).size == old(memory).size,
        final(memory).head == old(memory).head,
        forall|i: int|
            0 <= i < canon_range(old(memory).size) ==> #[trigger] cell(
                crate::semantics::add_vector_cells(
                    old(memory).size,
                    c,
                    old(memory).head as int,
                    vector,
                ),
                i,
            ) == final(memory).read_cell(i),
{
    let ghost size = memory.size;
    let ghost head0 = memory.head as int;
    proof {
        lemma_slot_canon(size);
        lemma_slot_in_range(size, head0);
        lemma_slot_in_range(size, head0 + 1);
        lemma_slot_in_range(size, head0 + 2);
        lemma_slot_in_range(size, head0 + 3);
    }
    let ghost m0 = *memory;
    let ghost c1 = crate::semantics::bump_cell(size, c, head0, vector[0]);
    let idx0 = memory.rel_index(0);
    let v0 = memory.get_cell_value(idx0);
    memory.set_cell(idx0, v0.wrapping_add_signed(vector[0]));
    proof {
        assert forall|i: int| 0 <= i < canon_range(size) implies #[trigger] cell(c1, i)
            == memory.read_cell(i) by {
            assert(slot(size, i) == i);
            assert(cell(c, i) == m0.read_cell(i));
            assert(cell(c, idx0 as int) == m0.read_cell(idx0 as int));
        }
    }
    let ghost m1 = *memory;
    let ghost c2 = crate::semantics::bump_cell(size, c1, head0 + 1, vector[1]);
    let idx1 = memory.rel_index(1);
    let v1 = memory.get_cell_value(idx1);
    memory.set_cell(idx1, v1.wrapping_add_signed(vector[1]));
    proof {
        assert forall|i: int| 0 <= i < canon_range(size) implies #[trigger] cell(c2, i)
            == memory.read_cell(i) by {
            assert(slot(size, i) == i);
            assert(cell(c1, i) == m1.read_cell(i));
            assert(cell(c1, idx1 as int) == m1.read_cell(idx1 as int));
        }
    }
    let ghost m2 = *memory;
    let ghost c3 = crate::semantics::bump_cell(size, c2, head0 + 2, vector[2]);
    let idx2 = memory.rel_index(2);
    let v2 = memory.get_cell_value(idx2);
    memory.set_cell(idx2, v2.wrapping_add_signed(vector[2]));
    proof {
        assert forall|i: int| 0 <= i < canon_range(size) implies #[trigger] cell(c3, i)
            == memory.read_cell(i) by {
            assert(slot(size, i) == i);
            assert(cell(c2, i) == m2.read_cell(i));
            assert(cell(c2, idx2 as int) == m2.read_cell(idx2 as int));
        }
    }
    let ghost m3 = *memory;
    let ghost c4 = crate::semantics::bump_cell(size, c3, head0 + 3, vector[3]);
    let idx3 = memory.rel_index(3);
    let v3 = memory.get_cell_value(idx3);
    memory.set_cell(idx3, v3.wrapping_add_signed(vector[3]));
    proof {
        assert forall|i: int| 0 <= i < canon_range(size) implies #[trigger] cell(c4, i)
            == memory.read_cell(i) by {
            assert(slot(size, i) == i);
            assert(cell(c3, i) == m3.read_cell(i));
            assert(cell(c3, idx3 as int) == m3.read_cell(idx3 as int));
        }
        assert(c4 == crate::semantics::add_vector_cells(size, c, head0, vector));
    }
}

} // verus!
