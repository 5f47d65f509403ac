//! Laws of the toolchain: properties that relate several functions, stated
//! and proved over the same specifications their contracts use.

use vstd::prelude::*;
use vstd::arithmetic::div_mod::{
    lemma_fundamental_div_mod, lemma_mod_bound, lemma_mod_multiples_vanish, lemma_small_mod,
};

use crate::instruction::Instruction;
use crate::interpreter::TapeSize;
use crate::optimizer::{lemma_optimize_fix_stable, spec_cycle, spec_optimize};
use crate::semantics::{
    byte_of, cell, cur_cell, euc_mod, lemma_step_n_compose, slot, step, step_n, store_cell,
    MachineState,
};

verus! {

/// Idempotence: optimizing an already-optimized program yields the same
/// instruction sequence, of the same length. The optimizer stops as soon
/// as one cycle of the passes stops shrinking the program, which is not
/// always a cycle that leaves it unchanged; the law therefore asks that
/// the optimized program be a true fixed point of the passes. Its jump
/// targets need no such assumption: finalization is idempotent.
pub proof fn lemma_optimize_idempotent(p: Seq<Instruction>)
    requires
        spec_cycle(spec_optimize(p)) == spec_optimize(p),
    ensures
        spec_optimize(spec_optimize(p)) == spec_optimize(p),
{
    lemma_optimize_fix_stable(p);
}

/// Wraparound: cell arithmetic is always modulo 256. Adding a signed
/// amount to a cell yields the representative of their sum in 0..256; in
/// particular a cell at 255 plus one is 0.
pub proof fn lemma_add_wraps(c: u8, a: i8)
    ensures
        c.wrapping_add_signed(a) == euc_mod(c as int + a as int, 256),
        c == 255 && a == 1 ==> c.wrapping_add_signed(a) == 0,
{
    let x = c as int + a as int;
    if x < 0 {
        assert(x + 256 == 256 * 1 + x);
        lemma_mod_multiples_vanish(1, x, 256);
        lemma_small_mod((x + 256) as nat, 256);
    } else if x > 255 {
        assert(x == 256 * 1 + (x - 256));
        lemma_mod_multiples_vanish(1, x - 256, 256);
        lemma_small_mod((x - 256) as nat, 256);
    } else {
        lemma_small_mod(x as nat, 256);
    }
}

/// Wraparound: a `SetValue` followed by an `Add` accumulates modulo 256.
/// After the two instructions run, the current cell holds the sum of the
/// set value and the added amount, reduced modulo 256.
pub proof fn lemma_set_then_add(
    prog: Seq<Instruction>,
    size: TapeSize,
    input: Seq<u8>,
    s: MachineState,
    v: i8,
    a: i8,
)
    requires
        size matches TapeSize::Finite(n) ==> n >= 1,
        s.pc + 1 < prog.len(),
        prog[s.pc as int] == Instruction::SetValue(v),
        prog[s.pc as int + 1] == Instruction::Add(a),
    ensures
        cur_cell(size, step(prog, size, input, step(prog, size, input, s))) == euc_mod(
            v as int + a as int,
            256,
        ),
{
    let s1 = step(prog, size, input, s);
    let s2 = step(prog, size, input, s1);
    let k = slot(size, s.head as int);
    assert(cur_cell(size, s1) == byte_of(v));
    lemma_add_wraps(0, v);
    lemma_add_wraps(byte_of(v), a);
    // euc_mod(euc_mod(v, 256) + a, 256) == euc_mod(v + a, 256)
    let b = byte_of(v) as int;
    lemma_mod_bound(v as int, 256);
    if v < 0 {
        assert(b == v + 256);
        assert(b + a == 256 * 1 + (v + a));
        lemma_mod_multiples_vanish(1, v as int + a as int, 256);
    } else {
        assert(b == v);
    }
}

/// Wrapping cell additions compose: adding `a` and then `b` to a cell is
/// adding their wrapping sum once.
pub proof fn lemma_wrapping_adds_compose(c: u8, a: i8, b: i8)
    ensures
        c.wrapping_add_signed(a).wrapping_add_signed(b) == c.wrapping_add_signed(
            a.wrapping_add(b),
        ),
{
    let c1 = c.wrapping_add_signed(a);
    let ab = a.wrapping_add(b);
    lemma_add_wraps(c, a);
    lemma_add_wraps(c1, b);
    lemma_add_wraps(c, ab);
    // c1 == (c + a) - 256k for some k in {-1, 0, 1}, and ab == (a + b) - 256m,
    // so both sides are the representative of c + a + b modulo 256.
    let x = c as int + a as int + b as int;
    if c1 == c + a {
        assert(c1 as int + b as int == x);
    } else if c1 as int == c + a - 256 {
        assert(c1 as int + b as int == 256 * (-1) + x);
        lemma_mod_multiples_vanish(-1, x, 256);
    } else {
        assert(c1 as int + b as int == 256 * 1 + x);
        lemma_mod_multiples_vanish(1, x, 256);
    }
    let y = c as int + ab as int;
    if ab == a + b {
    } else if ab as int == a as int + b as int - 256 {
        assert(y == 256 * (-1) + x);
        lemma_mod_multiples_vanish(-1, x, 256);
    } else {
        assert(y == 256 * 1 + x);
        lemma_mod_multiples_vanish(1, x, 256);
    }
}

/// Behavior preservation for the innermost squash rewrite: two adjacent
/// `Add` instructions act on the tape, the input, and the output exactly
/// as the single `Add` of their wrapping sum that the squash pass puts in
/// their place.
pub proof fn lemma_add_pair_fuses(
    p1: Seq<Instruction>,
    p2: Seq<Instruction>,
    size: TapeSize,
    input: Seq<u8>,
    s: MachineState,
    a: i8,
    b: i8,
)
    requires
        s.pc + 1 < p1.len(),
        p1[s.pc as int] == Instruction::Add(a),
        p1[s.pc as int + 1] == Instruction::Add(b),
        s.pc < p2.len(),
        p2[s.pc as int] == Instruction::Add(a.wrapping_add(b)),
    ensures
        ({
            let two = step(p1, size, input, step(p1, size, input, s));
            let one = step(p2, size, input, s);
            &&& two.cells == one.cells
            &&& two.head == one.head
            &&& two.out == one.out
            &&& two.in_pos == one.in_pos
        }),
{
    let k = slot(size, s.head as int);
    let c = cell(s.cells, k);
    lemma_wrapping_adds_compose(c, a, b);
    let two = step(p1, size, input, step(p1, size, input, s));
    let one = step(p2, size, input, s);
    assert(two.cells =~= one.cells);
}

/// Behavior preservation for the dead-add rewrite: an `Add` immediately
/// before a `SetValue` leaves no trace, so the pair acts on the machine
/// exactly as the `SetValue` alone.
pub proof fn lemma_dead_add_before_set(
    p1: Seq<Instruction>,
    p2: Seq<Instruction>,
    size: TapeSize,
    input: Seq<u8>,
    s: MachineState,
    a: i8,
    v: i8,
)
    requires
        s.pc + 1 < p1.len(),
        p1[s.pc as int] == Instruction::Add(a),
        p1[s.pc as int + 1] == Instruction::SetValue(v),
        s.pc < p2.len(),
        p2[s.pc as int] == Instruction::SetValue(v),
    ensures
        ({
            let two = step(p1, size, input, step(p1, size, input, s));
            let one = step(p2, size, input, s);
            &&& two.cells == one.cells
            &&& two.head == one.head
            &&& two.out == one.out
            &&& two.in_pos == one.in_pos
        }),
{
    let two = step(p1, size, input, step(p1, size, input, s));
    let one = step(p2, size, input, s);
    assert(two.cells =~= one.cells);
}

/// Behavior preservation for the vacuous-loop rewrite: a move-to-zero
/// instruction reached with the current cell already zero is a single
/// step that changes nothing but the program counter, which is why it may
/// be dropped behind a `SetValue(0)`.
pub proof fn lemma_move_to_zero_on_zero_is_no_op(
    prog: Seq<Instruction>,
    size: TapeSize,
    input: Seq<u8>,
    s: MachineState,
)
    requires
        s.pc < prog.len(),
        prog[s.pc as int] is MoveRightToZero || prog[s.pc as int] is MoveLeftToZero,
        cur_cell(size, s) == 0,
    ensures
        step(prog, size, input, s) == (MachineState {
            pc: s.pc + 1,
            fetched: s.fetched + 1,
            ..s
        }),
{
}

/// Behavior preservation for the clear-loop rewrite: a loop that adds one
/// or subtracts one per iteration runs until its cell is zero, whatever
/// value the cell starts from, and changes nothing else. That is exactly
/// what the `SetValue(0)` the substitution pass puts in its place does.
pub proof fn lemma_clear_loop_behaves_like_set_zero(
    prog: Seq<Instruction>,
    size: TapeSize,
    input: Seq<u8>,
    s: MachineState,
    a: i8,
)
    requires
        s.pc + 2 < prog.len(),
        prog[s.pc as int] == (Instruction::JumpIfZero { location: (s.pc + 2) as usize }),
        prog[s.pc as int + 1] == Instruction::Add(a),
        prog[s.pc as int + 2] == (Instruction::JumpIfNotZero { location: s.pc as usize }),
        a == 1 || a == -1,
        s.pc + 2 <= usize::MAX,
    ensures
        exists|k: nat|
            {
                let t = #[trigger] step_n(prog, size, input, s, k);
                &&& t.pc == s.pc + 3
                &&& t.head == s.head
                &&& t.out == s.out
                &&& t.in_pos == s.in_pos
                &&& forall|q: int|
                    #[trigger] cell(t.cells, q) == cell(
                        store_cell(size, s.cells, s.head as int, 0),
                        q,
                    )
            },
    decreases (if a == 1 {
        (256 - cur_cell(size, s)) % 256
    } else {
        cur_cell(size, s) as int
    }),
{
    let k0 = slot(size, s.head as int);
    let c = cur_cell(size, s);
    let s1 = step(prog, size, input, s);
    assert(step_n(prog, size, input, s, 0) == s);
    assert(step_n(prog, size, input, s, 1) == s1);
    if c == 0 {
        // The guard jumps to the loop-close, which falls through.
        let s2 = step(prog, size, input, s1);
        assert(step_n(prog, size, input, s, 2) == s2);
        assert(s2.pc == s.pc + 3);
        assert(forall|q: int|
            #[trigger] cell(s2.cells, q) == cell(
                store_cell(size, s.cells, s.head as int, 0),
                q,
            ));
    } else {
        // One iteration: fall through the guard, add, jump back or leave.
        let s2 = step(prog, size, input, s1);
        assert(step_n(prog, size, input, s, 2) == s2);
        let c2 = c.wrapping_add_signed(a);
        assert(cur_cell(size, s2) == c2);
        lemma_add_wraps(c, a);
        let s3 = step(prog, size, input, s2);
        assert(step_n(prog, size, input, s, 3) == s3);
        if c2 == 0 {
            assert(s3.pc == s.pc + 3);
            assert(forall|q: int|
                #[trigger] cell(s3.cells, q) == cell(
                    store_cell(size, s.cells, s.head as int, 0),
                    q,
                ));
        } else {
            assert(s3.pc == s.pc);
            assert(s3.head == s.head);
            assert(cur_cell(size, s3) == c2);
            lemma_clear_loop_behaves_like_set_zero(prog, size, input, s3, a);
            let k2 = choose|k2: nat|
                {
                    let t = #[trigger] step_n(prog, size, input, s3, k2);
                    &&& t.pc == s3.pc + 3
                    &&& t.head == s3.head
                    &&& t.out == s3.out
                    &&& t.in_pos == s3.in_pos
                    &&& forall|q: int|
                        #[trigger] cell(t.cells, q) == cell(
                            store_cell(size, s3.cells, s3.head as int, 0),
                            q,
                        )
                };
            lemma_step_n_compose(prog, size, input, s, 3, k2);
            let t = step_n(prog, size, input, s, 3 + k2);
            assert(t == step_n(prog, size, input, s3, k2));
            assert(forall|q: int|
                #[trigger] cell(t.cells, q) == cell(
                    store_cell(size, s.cells, s.head as int, 0),
                    q,
                ));
        }
    }
}

/// Two states agree on everything the outside can observe: the tape, the
/// pointer, and both byte streams.
pub open spec fn same_tape_and_streams(a: MachineState, b: MachineState) -> bool {
    &&& a.head == b.head
    &&& a.out == b.out
    &&& a.in_pos == b.in_pos
    &&& forall|q: int| #[trigger] cell(a.cells, q) == cell(b.cells, q)
}

/// Behavior preservation for the scan-loop rewrite, one iteration at a
/// time: while the cell is not zero, the three instructions of a bracketed
/// add-and-move iteration reach the same tape, pointer, and streams as one
/// step of the `MoveRightToZero` that replaces the loop, with both loops
/// still open.
pub proof fn lemma_scan_loop_iteration_fuses(
    p1: Seq<Instruction>,
    p2: Seq<Instruction>,
    size: TapeSize,
    input: Seq<u8>,
    s1: MachineState,
    s2: MachineState,
    d: i8,
    m: isize,
)
    requires
        s1.pc + 3 < p1.len(),
        p1[s1.pc as int] == (Instruction::JumpIfZero { location: (s1.pc + 3) as usize }),
        p1[s1.pc as int + 1] == Instruction::Add(d),
        p1[s1.pc as int + 2] == Instruction::Move(m),
        p1[s1.pc as int + 3] == (Instruction::JumpIfNotZero { location: s1.pc as usize }),
        m > 0,
        s2.pc < p2.len(),
        p2[s2.pc as int] == (Instruction::MoveRightToZero { increment: d, stride: m as usize }),
        same_tape_and_streams(s1, s2),
        cur_cell(size, s1) != 0,
        s1.pc + 3 <= usize::MAX,
    ensures
        same_tape_and_streams(step_n(p1, size, input, s1, 3), step(p2, size, input, s2)),
        step_n(p1, size, input, s1, 3).pc == s1.pc + 3,
        step(p2, size, input, s2).pc == s2.pc,
{
    let k = slot(size, s1.head as int);
    assert(cur_cell(size, s2) == cur_cell(size, s1));
    let a1 = step(p1, size, input, s1);
    assert(step_n(p1, size, input, s1, 0) == s1);
    assert(step_n(p1, size, input, s1, 1) == a1);
    let a2 = step(p1, size, input, a1);
    assert(step_n(p1, size, input, s1, 2) == a2);
    let a3 = step(p1, size, input, a2);
    assert(step_n(p1, size, input, s1, 3) == a3);
    let b1 = step(p2, size, input, s2);
    assert forall|q: int| #[trigger] cell(a3.cells, q) == cell(b1.cells, q) by {
        assert(cell(s1.cells, q) == cell(s2.cells, q));
        assert(cell(s1.cells, k) == cell(s2.cells, k));
    }
}

/// Behavior preservation for the scan-loop rewrite, leaving the loop: when
/// the cell is zero, the bracketed form jumps over its body and falls out,
/// and the `MoveRightToZero` that replaces it steps past itself, with the
/// tape, the pointer, and both streams untouched either way.
pub proof fn lemma_scan_loop_exit_fuses(
    p1: Seq<Instruction>,
    p2: Seq<Instruction>,
    size: TapeSize,
    input: Seq<u8>,
    s1: MachineState,
    s2: MachineState,
    d: i8,
    m: isize,
)
    requires
        s1.pc + 3 < p1.len(),
        p1[s1.pc as int] == (Instruction::JumpIfZero { location: (s1.pc + 3) as usize }),
        p1[s1.pc as int + 1] == Instruction::Add(d),
        p1[s1.pc as int + 2] == Instruction::Move(m),
        p1[s1.pc as int + 3] == (Instruction::JumpIfNotZero { location: s1.pc as usize }),
        m > 0,
        s2.pc < p2.len(),
        p2[s2.pc as int] == (Instruction::MoveRightToZero { increment: d, stride: m as usize }),
        same_tape_and_streams(s1, s2),
        cur_cell(size, s1) == 0,
        s1.pc + 3 <= usize::MAX,
    ensures
        same_tape_and_streams(step_n(p1, size, input, s1, 2), step(p2, size, input, s2)),
        step_n(p1, size, input, s1, 2).pc == s1.pc + 4,
        step(p2, size, input, s2).pc == s2.pc + 1,
{
    assert(cur_cell(size, s2) == cur_cell(size, s1));
    let a1 = step(p1, size, input, s1);
    assert(step_n(p1, size, input, s1, 0) == s1);
    assert(step_n(p1, size, input, s1, 1) == a1);
    assert(cur_cell(size, a1) == 0);
    let a2 = step(p1, size, input, a1);
    assert(step_n(p1, size, input, s1, 2) == a2);
}

/// Behavior preservation for merged moves holds on the finite, wrapping
/// tape: moving by `m1` and then by `m2` lands on the same slot as one
/// move by their sum. On the unbounded tape the left edge saturates, so
/// two moves that cross it need not equal their merged form; the squash
/// pass merges them regardless, a deliberate limitation of the design.
pub proof fn lemma_move_pair_fuses_finite(n: usize, h: int, m1: int, m2: int)
    requires
        1 <= n,
    ensures
        slot(TapeSize::Finite(n), slot(TapeSize::Finite(n), h + m1) + m2) == slot(
            TapeSize::Finite(n),
            h + m1 + m2,
        ),
{
    let nn = n as int;
    let r = euc_mod(h + m1, nn);
    lemma_mod_bound(h + m1, nn);
    lemma_fundamental_div_mod(h + m1, nn);
    let d = (h + m1) / nn;
    assert(h + m1 == nn * d + r);
    assert(r + m2 == nn * -d + (h + m1 + m2)) by {
        assert(nn * -d == -(nn * d)) by (nonlinear_arith);
    }
    lemma_mod_multiples_vanish(-d, h + m1 + m2, nn);
}

/// Tape policy boundary: under a finite policy of length `n`, a move of
/// exactly `n` cells returns the pointer to its original position. The
/// pointer after any move is `slot` of the old position plus the delta, so
/// this pins a full wraparound.
pub proof fn lemma_finite_full_wrap(n: usize, head: usize)
    requires
        1 <= n,
        head < n,
    ensures
        slot(TapeSize::Finite(n), head + n) == head,
{
    assert(head + n == n * 1 + head);
    lemma_mod_multiples_vanish(1, head as int, n as int);
    lemma_small_mod(head as nat, n as nat);
}

/// Tape policy boundary: under the unbounded policy, a move that would
/// take the pointer left of the origin clamps it to the origin; it never
/// wraps around to a large index.
pub proof fn lemma_infinite_left_clamp(pos: int)
    requires
        pos < 0,
    ensures
        slot(TapeSize::Infinite, pos) == 0,
{
}

} // verus!
