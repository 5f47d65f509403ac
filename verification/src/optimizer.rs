//! The optimizing rewriter: five passes run to a fixed point, followed by a
//! finalization pass that recomputes jump targets.
//!
//! Each pass is specified as a pure function from one instruction sequence
//! to a new one; the executable passes rewrite a vector in place and are
//! proved to compute exactly the specified sequence, never growing it.

use vstd::prelude::*;

use crate::instruction::Instruction;

verus! {

// ---------------------------------------------------------------------------
// Lane helpers for the four-cell vector instructions.
// ---------------------------------------------------------------------------

/// The vector whose four lanes are all zero.
pub open spec fn lanes_zero() -> [i8; 4] {
    [0i8, 0i8, 0i8, 0i8]
}

/// The vector `v` with lane `k` replaced by `x`.
pub open spec fn lane_set(v: [i8; 4], k: int, x: i8) -> [i8; 4] {
    [
        if k == 0 { x } else { v[0] },
        if k == 1 { x } else { v[1] },
        if k == 2 { x } else { v[2] },
        if k == 3 { x } else { v[3] },
    ]
}

/// The vector `v` with `x` added (wrapping) into lane `k`.
pub open spec fn lane_bump(v: [i8; 4], k: int, x: i8) -> [i8; 4] {
    lane_set(v, k, v[k].wrapping_add(x))
}

/// The lanewise wrapping sum of two vectors.
pub open spec fn lanes_sum(a: [i8; 4], b: [i8; 4]) -> [i8; 4] {
    [
        a[0].wrapping_add(b[0]),
        a[1].wrapping_add(b[1]),
        a[2].wrapping_add(b[2]),
        a[3].wrapping_add(b[3]),
    ]
}

fn lane_set_exec(v: [i8; 4], k: usize, x: i8) -> (r: [i8; 4])
    requires
        k < 4,
    ensures
        r == lane_set(v, k as int, x),
{
    match k {
        0 => [x, v[1], v[2], v[3]],
        1 => [v[0], x, v[2], v[3]],
        2 => [v[0], v[1], x, v[3]],
        _ => [v[0], v[1], v[2], x],
    }
}

fn lane_bump_exec(v: [i8; 4], k: usize, x: i8) -> (r: [i8; 4])
    requires
        k < 4,
    ensures
        r == lane_bump(v, k as int, x),
{
    lane_set_exec(v, k, v[k].wrapping_add(x))
}

fn lanes_sum_exec(a: [i8; 4], b: [i8; 4]) -> (r: [i8; 4])
    ensures
        r == lanes_sum(a, b),
{
    [
        a[0].wrapping_add(b[0]),
        a[1].wrapping_add(b[1]),
        a[2].wrapping_add(b[2]),
        a[3].wrapping_add(b[3]),
    ]
}

// ---------------------------------------------------------------------------
// Run scans: how far a maximal run of one accumulator variant extends, and
// what it accumulates to. Each scan returns the number of further
// instructions consumed and the accumulated value.
// ---------------------------------------------------------------------------

/// Extent and wrapping sum of a run of `Add` instructions.
pub open spec fn scan_add(s: Seq<Instruction>, acc: i8) -> (nat, i8)
    decreases s.len(),
{
    if s.len() > 0 {
        match s[0] {
            Instruction::Add(m) => {
                let r = scan_add(s.skip(1), acc.wrapping_add(m));
                ((r.0 + 1) as nat, r.1)
            },
            _ => (0nat, acc),
        }
    } else {
        (0nat, acc)
    }
}

/// Extent and checked sum of a run of `Move` instructions; the run stops
/// early rather than overflow.
pub open spec fn scan_move(s: Seq<Instruction>, acc: isize) -> (nat, isize)
    decreases s.len(),
{
    if s.len() > 0 {
        match s[0] {
            Instruction::Move(m) => {
                if isize::MIN <= acc + m <= isize::MAX {
                    let r = scan_move(s.skip(1), (acc + m) as isize);
                    ((r.0 + 1) as nat, r.1)
                } else {
                    (0nat, acc)
                }
            },
            _ => (0nat, acc),
        }
    } else {
        (0nat, acc)
    }
}

/// Extent and checked sum of a run of `Write` instructions.
pub open spec fn scan_write(s: Seq<Instruction>, acc: usize) -> (nat, usize)
    decreases s.len(),
{
    if s.len() > 0 {
        match s[0] {
            Instruction::Write(m) => {
                if acc + m <= usize::MAX {
                    let r = scan_write(s.skip(1), (acc + m) as usize);
                    ((r.0 + 1) as nat, r.1)
                } else {
                    (0nat, acc)
                }
            },
            _ => (0nat, acc),
        }
    } else {
        (0nat, acc)
    }
}

/// Extent and checked sum of a run of `Read` instructions.
pub open spec fn scan_read(s: Seq<Instruction>, acc: usize) -> (nat, usize)
    decreases s.len(),
{
    if s.len() > 0 {
        match s[0] {
            Instruction::Read(m) => {
                if acc + m <= usize::MAX {
                    let r = scan_read(s.skip(1), (acc + m) as usize);
                    ((r.0 + 1) as nat, r.1)
                } else {
                    (0nat, acc)
                }
            },
            _ => (0nat, acc),
        }
    } else {
        (0nat, acc)
    }
}

/// Extent and last value of a run of `SetValue` instructions: a later
/// `SetValue` shadows every earlier one.
pub open spec fn scan_set(s: Seq<Instruction>, cur: i8) -> (nat, i8)
    decreases s.len(),
{
    if s.len() > 0 {
        match s[0] {
            Instruction::SetValue(v) => {
                let r = scan_set(s.skip(1), v);
                ((r.0 + 1) as nat, r.1)
            },
            _ => (0nat, cur),
        }
    } else {
        (0nat, cur)
    }
}

/// Extent and wrapping sum of a run of `AddRelative` instructions that all
/// share one offset.
pub open spec fn scan_addrel(s: Seq<Instruction>, off: isize, acc: i8) -> (nat, i8)
    decreases s.len(),
{
    if s.len() > 0 {
        match s[0] {
            Instruction::AddRelative { offset, amount } => {
                if offset == off {
                    let r = scan_addrel(s.skip(1), off, acc.wrapping_add(amount));
                    ((r.0 + 1) as nat, r.1)
                } else {
                    (0nat, acc)
                }
            },
            _ => (0nat, acc),
        }
    } else {
        (0nat, acc)
    }
}

/// Extent and lanewise wrapping sum of a run of `AddVector` instructions.
pub open spec fn scan_addvec(s: Seq<Instruction>, acc: [i8; 4]) -> (nat, [i8; 4])
    decreases s.len(),
{
    if s.len() > 0 {
        match s[0] {
            Instruction::AddVector { vector } => {
                let r = scan_addvec(s.skip(1), lanes_sum(acc, vector));
                ((r.0 + 1) as nat, r.1)
            },
            _ => (0nat, acc),
        }
    } else {
        (0nat, acc)
    }
}

/// Extent of a run of move-to-zero instructions: once the first one has
/// run, the cell is zero and the rest are no-ops.
pub open spec fn scan_mtz(s: Seq<Instruction>) -> nat
    decreases s.len(),
{
    if s.len() > 0 {
        match s[0] {
            Instruction::MoveRightToZero { .. } | Instruction::MoveLeftToZero { .. } => (scan_mtz(
                s.skip(1),
            ) + 1) as nat,
            _ => 0nat,
        }
    } else {
        0nat
    }
}

// ---------------------------------------------------------------------------
// What a squashed run turns into.
// ---------------------------------------------------------------------------

/// An accumulated `Add` that sums to zero vanishes.
pub open spec fn emit_add(t: i8) -> Seq<Instruction> {
    if t == 0 {
        seq![]
    } else {
        seq![Instruction::Add(t)]
    }
}

/// An accumulated `Move` that sums to zero vanishes.
pub open spec fn emit_move(t: isize) -> Seq<Instruction> {
    if t == 0 {
        seq![]
    } else {
        seq![Instruction::Move(t)]
    }
}

/// An accumulated `Write` with count zero vanishes.
pub open spec fn emit_write(t: usize) -> Seq<Instruction> {
    if t == 0 {
        seq![]
    } else {
        seq![Instruction::Write(t)]
    }
}

/// An accumulated `Read` with count zero vanishes.
pub open spec fn emit_read(t: usize) -> Seq<Instruction> {
    if t == 0 {
        seq![]
    } else {
        seq![Instruction::Read(t)]
    }
}

/// An accumulated `AddRelative` that sums to zero vanishes; one at offset
/// zero is a plain `Add`.
pub open spec fn emit_addrel(off: isize, t: i8) -> Seq<Instruction> {
    if t == 0 {
        seq![]
    } else if off == 0 {
        seq![Instruction::Add(t)]
    } else {
        seq![Instruction::AddRelative { offset: off, amount: t }]
    }
}

/// An accumulated `AddVector` demotes when at most one lane is left:
/// all-zero lanes vanish, a single nonzero lane becomes an `Add` (lane 0)
/// or an `AddRelative` (lanes 1 to 3).
pub open spec fn emit_addvec(v: [i8; 4]) -> Seq<Instruction> {
    if v[1] == 0 && v[2] == 0 && v[3] == 0 {
        emit_add(v[0])
    } else if v[0] == 0 && v[2] == 0 && v[3] == 0 {
        seq![Instruction::AddRelative { offset: 1, amount: v[1] }]
    } else if v[0] == 0 && v[1] == 0 && v[3] == 0 {
        seq![Instruction::AddRelative { offset: 2, amount: v[2] }]
    } else if v[0] == 0 && v[1] == 0 && v[2] == 0 {
        seq![Instruction::AddRelative { offset: 3, amount: v[3] }]
    } else {
        seq![Instruction::AddVector { vector: v }]
    }
}

/// An `AddVectorMove` whose lanes are all zero is a plain `Move` of its
/// stride.
pub open spec fn emit_avm(stride: isize, v: [i8; 4]) -> Seq<Instruction> {
    if v[0] == 0 && v[1] == 0 && v[2] == 0 && v[3] == 0 {
        emit_move(stride)
    } else {
        seq![Instruction::AddVectorMove { stride, vector: v }]
    }
}

// ---------------------------------------------------------------------------
// The squash-and-clean pass.
// ---------------------------------------------------------------------------

/// One left-to-right pass that merges maximal adjacent runs of the same
/// accumulator variant and drops the runs that accumulate to a no-op.
pub open spec fn spec_squash(s: Seq<Instruction>) -> Seq<Instruction>
    decreases s.len(),
    via spec_squash_decreases
{
    if s.len() == 0 {
        seq![]
    } else {
        match s[0] {
            Instruction::Add(a) => {
                let r = scan_add(s.skip(1), a);
                emit_add(r.1) + spec_squash(s.skip(1 + r.0 as int))
            },
            Instruction::Move(m) => {
                let r = scan_move(s.skip(1), m);
                emit_move(r.1) + spec_squash(s.skip(1 + r.0 as int))
            },
            Instruction::Write(c) => {
                let r = scan_write(s.skip(1), c);
                emit_write(r.1) + spec_squash(s.skip(1 + r.0 as int))
            },
            Instruction::Read(c) => {
                let r = scan_read(s.skip(1), c);
                emit_read(r.1) + spec_squash(s.skip(1 + r.0 as int))
            },
            Instruction::SetValue(v) => {
                let r = scan_set(s.skip(1), v);
                seq![Instruction::SetValue(r.1)] + spec_squash(s.skip(1 + r.0 as int))
            },
            Instruction::AddRelative { offset, amount } => {
                let r = scan_addrel(s.skip(1), offset, amount);
                emit_addrel(offset, r.1) + spec_squash(s.skip(1 + r.0 as int))
            },
            Instruction::AddVector { vector } => {
                let r = scan_addvec(s.skip(1), vector);
                emit_addvec(r.1) + spec_squash(s.skip(1 + r.0 as int))
            },
            Instruction::AddVectorMove { stride, vector } => {
                emit_avm(stride, vector) + spec_squash(s.skip(1))
            },
            Instruction::MoveRightToZero { .. } | Instruction::MoveLeftToZero { .. } => {
                let k = scan_mtz(s.skip(1));
                seq![s[0]] + spec_squash(s.skip(1 + k as int))
            },
            _ => seq![s[0]] + spec_squash(s.skip(1)),
        }
    }
}

proof fn lemma_scan_add_le(s: Seq<Instruction>, acc: i8)
    ensures
        scan_add(s, acc).0 <= s.len(),
    decreases s.len(),
{
    if s.len() > 0 {
        match s[0] {
            Instruction::Add(m) => lemma_scan_add_le(s.skip(1), acc.wrapping_add(m)),
            _ => {},
        }
    }
}

proof fn lemma_scan_move_le(s: Seq<Instruction>, acc: isize)
    ensures
        scan_move(s, acc).0 <= s.len(),
    decreases s.len(),
{
    if s.len() > 0 {
        match s[0] {
            Instruction::Move(m) => {
                if isize::MIN <= acc + m <= isize::MAX {
                    lemma_scan_move_le(s.skip(1), (acc + m) as isize);
                }
            },
            _ => {},
        }
    }
}

proof fn lemma_scan_write_le(s: Seq<Instruction>, acc: usize)
    ensures
        scan_write(s, acc).0 <= s.len(),
    decreases s.len(),
{
    if s.len() > 0 {
        match s[0] {
            Instruction::Write(m) => {
                if acc + m <= usize::MAX {
                    lemma_scan_write_le(s.skip(1), (acc + m) as usize);
                }
            },
            _ => {},
        }
    }
}

proof fn lemma_scan_read_le(s: Seq<Instruction>, acc: usize)
    ensures
        scan_read(s, acc).0 <= s.len(),
    decreases s.len(),
{
    if s.len() > 0 {
        match s[0] {
            Instruction::Read(m) => {
                if acc + m <= usize::MAX {
                    lemma_scan_read_le(s.skip(1), (acc + m) as usize);
                }
            },
            _ => {},
        }
    }
}

proof fn lemma_scan_set_le(s: Seq<Instruction>, cur: i8)
    ensures
        scan_set(s, cur).0 <= s.len(),
    decreases s.len(),
{
    if s.len() > 0 {
        match s[0] {
            Instruction::SetValue(v) => lemma_scan_set_le(s.skip(1), v),
            _ => {},
        }
    }
}

proof fn lemma_scan_addrel_le(s: Seq<Instruction>, off: isize, acc: i8)
    ensures
        scan_addrel(s, off, acc).0 <= s.len(),
    decreases s.len(),
{
    if s.len() > 0 {
        match s[0] {
            Instruction::AddRelative { offset, amount } => {
                if offset == off {
                    lemma_scan_addrel_le(s.skip(1), off, acc.wrapping_add(amount));
                }
            },
            _ => {},
        }
    }
}

proof fn lemma_scan_addvec_le(s: Seq<Instruction>, acc: [i8; 4])
    ensures
        scan_addvec(s, acc).0 <= s.len(),
    decreases s.len(),
{
    if s.len() > 0 {
        match s[0] {
            Instruction::AddVector { vector } => {
                lemma_scan_addvec_le(s.skip(1), lanes_sum(acc, vector));
            },
            _ => {},
        }
    }
}

proof fn lemma_scan_mtz_le(s: Seq<Instruction>)
    ensures
        scan_mtz(s) <= s.len(),
    decreases s.len(),
{
    if s.len() > 0 {
        match s[0] {
            Instruction::MoveRightToZero { .. } | Instruction::MoveLeftToZero { .. } => {
                lemma_scan_mtz_le(s.skip(1));
            },
            _ => {},
        }
    }
}

#[via_fn]
proof fn spec_squash_decreases(s: Seq<Instruction>) {
    if s.len() > 0 {
        match s[0] {
            Instruction::Add(a) => lemma_scan_add_le(s.skip(1), a),
            Instruction::Move(m) => lemma_scan_move_le(s.skip(1), m),
            Instruction::Write(c) => lemma_scan_write_le(s.skip(1), c),
            Instruction::Read(c) => lemma_scan_read_le(s.skip(1), c),
            Instruction::SetValue(v) => lemma_scan_set_le(s.skip(1), v),
            Instruction::AddRelative { offset, amount } => lemma_scan_addrel_le(
                s.skip(1),
                offset,
                amount,
            ),
            Instruction::AddVector { vector } => lemma_scan_addvec_le(s.skip(1), vector),
            Instruction::MoveRightToZero { .. } | Instruction::MoveLeftToZero { .. } => {
                lemma_scan_mtz_le(s.skip(1));
            },
            _ => {},
        }
    }
}

fn scan_add_exec(v: &Vec<Instruction>, j0: usize, acc0: i8) -> (r: (usize, i8))
    requires
        j0 <= v@.len(),
    ensures
        j0 <= r.0 <= v@.len(),
        scan_add(v@.skip(j0 as int), acc0) == (((r.0 - j0) as nat, r.1)),
{
    let n = v.len();
    let mut j = j0;
    let mut acc = acc0;
    loop
        invariant_except_break
            j0 <= j <= n,
            n == v@.len(),
            scan_add(v@.skip(j0 as int), acc0) == (
                ((scan_add(v@.skip(j as int), acc).0 + j - j0) as nat, scan_add(
                    v@.skip(j as int),
                    acc,
                ).1)
            ),
        ensures
            j0 <= j <= n,
            n == v@.len(),
            scan_add(v@.skip(j0 as int), acc0) == (((j - j0) as nat, acc)),
        decreases n - j,
    {
        if j == n {
            proof {
                assert(v@.skip(j as int).len() == 0);
            }
            break ;
        }
        let inst = v[j];
        proof {
            assert(v@.skip(j as int)[0] == v@[j as int]);
        }
        match inst {
            Instruction::Add(m) => {
                proof {
                    assert(v@.skip(j as int).skip(1) =~= v@.skip(j as int + 1));
                }
                acc = acc.wrapping_add(m);
                j += 1;
            },
            _ => {
                break ;
            },
        }
    }
    (j, acc)
}

fn scan_move_exec(v: &Vec<Instruction>, j0: usize, acc0: isize) -> (r: (usize, isize))
    requires
        j0 <= v@.len(),
    ensures
        j0 <= r.0 <= v@.len(),
        scan_move(v@.skip(j0 as int), acc0) == (((r.0 - j0) as nat, r.1)),
{
    let n = v.len();
    let mut j = j0;
    let mut acc = acc0;
    loop
        invariant_except_break
            j0 <= j <= n,
            n == v@.len(),
            scan_move(v@.skip(j0 as int), acc0) == (
                ((scan_move(v@.skip(j as int), acc).0 + j - j0) as nat, scan_move(
                    v@.skip(j as int),
                    acc,
                ).1)
            ),
        ensures
            j0 <= j <= n,
            n == v@.len(),
            scan_move(v@.skip(j0 as int), acc0) == (((j - j0) as nat, acc)),
        decreases n - j,
    {
        if j == n {
            proof {
                assert(v@.skip(j as int).len() == 0);
            }
            break ;
        }
        let inst = v[j];
        proof {
            assert(v@.skip(j as int)[0] == v@[j as int]);
        }
        match inst {
            Instruction::Move(m) => {
                match acc.checked_add(m) {
                    Some(a2) => {
                        proof {
                            assert(v@.skip(j as int).skip(1) =~= v@.skip(j as int + 1));
                        }
                        acc = a2;
                        j += 1;
                    },
                    None => {
                        break ;
                    },
                }
            },
            _ => {
                break ;
            },
        }
    }
    (j, acc)
}

fn scan_write_exec(v: &Vec<Instruction>, j0: usize, acc0: usize) -> (r: (usize, usize))
    requires
        j0 <= v@.len(),
    ensures
        j0 <= r.0 <= v@.len(),
        scan_write(v@.skip(j0 as int), acc0) == (((r.0 - j0) as nat, r.1)),
{
    let n = v.len();
    let mut j = j0;
    let mut acc = acc0;
    loop
        invariant_except_break
            j0 <= j <= n,
            n == v@.len(),
            scan_write(v@.skip(j0 as int), acc0) == (
                ((scan_write(v@.skip(j as int), acc).0 + j - j0) as nat, scan_write(
                    v@.skip(j as int),
                    acc,
                ).1)
            ),
        ensures
            j0 <= j <= n,
            n == v@.len(),
            scan_write(v@.skip(j0 as int), acc0) == (((j - j0) as nat, acc)),
        decreases n - j,
    {
        if j == n {
            proof {
                assert(v@.skip(j as int).len() == 0);
            }
            break ;
        }
        let inst = v[j];
        proof {
            assert(v@.skip(j as int)[0] == v@[j as int]);
        }
        match inst {
            Instruction::Write(m) => {
                match acc.checked_add(m) {
                    Some(a2) => {
                        proof {
                            assert(v@.skip(j as int).skip(1) =~= v@.skip(j as int + 1));
                        }
                        acc = a2;
                        j += 1;
                    },
                    None => {
                        break ;
                    },
                }
            },
            _ => {
                break ;
            },
        }
    }
    (j, acc)
}

fn scan_read_exec(v: &Vec<Instruction>, j0: usize, acc0: usize) -> (r: (usize, usize))
    requires
        j0 <= v@.len(),
    ensures
        j0 <= r.0 <= v@.len(),
        scan_read(v@.skip(j0 as int), acc0) == (((r.0 - j0) as nat, r.1)),
{
    let n = v.len();
    let mut j = j0;
    let mut acc = acc0;
    loop
        invariant_except_break
            j0 <= j <= n,
            n == v@.len(),
            scan_read(v@.skip(j0 as int), acc0) == (
                ((scan_read(v@.skip(j as int), acc).0 + j - j0) as nat, scan_read(
                    v@.skip(j as int),
                    acc,
                ).1)
            ),
        ensures
            j0 <= j <= n,
            n == v@.len(),
            scan_read(v@.skip(j0 as int), acc0) == (((j - j0) as nat, acc)),
        decreases n - j,
    {
        if j == n {
            proof {
                assert(v@.skip(j as int).len() == 0);
            }
            break ;
        }
        let inst = v[j];
        proof {
            assert(v@.skip(j as int)[0] == v@[j as int]);
        }
        match inst {
            Instruction::Read(m) => {
                match acc.checked_add(m) {
                    Some(a2) => {
                        proof {
                            assert(v@.skip(j as int).skip(1) =~= v@.skip(j as int + 1));
                        }
                        acc = a2;
                        j += 1;
                    },
                    None => {
                        break ;
                    },
                }
            },
            _ => {
                break ;
            },
        }
    }
    (j, acc)
}

fn scan_set_exec(v: &Vec<Instruction>, j0: usize, cur0: i8) -> (r: (usize, i8))
    requires
        j0 <= v@.len(),
    ensures
        j0 <= r.0 <= v@.len(),
        scan_set(v@.skip(j0 as int), cur0) == (((r.0 - j0) as nat, r.1)),
{
    let n = v.len();
    let mut j = j0;
    let mut cur = cur0;
    loop
        invariant_except_break
            j0 <= j <= n,
            n == v@.len(),
            scan_set(v@.skip(j0 as int), cur0) == (
                ((scan_set(v@.skip(j as int), cur).0 + j - j0) as nat, scan_set(
                    v@.skip(j as int),
                    cur,
                ).1)
            ),
        ensures
            j0 <= j <= n,
            n == v@.len(),
            scan_set(v@.skip(j0 as int), cur0) == (((j - j0) as nat, cur)),
        decreases n - j,
    {
        if j == n {
            proof {
                assert(v@.skip(j as int).len() == 0);
            }
            break ;
        }
        let inst = v[j];
        proof {
            assert(v@.skip(j as int)[0] == v@[j as int]);
        }
        match inst {
            Instruction::SetValue(x) => {
                proof {
                    assert(v@.skip(j as int).skip(1) =~= v@.skip(j as int + 1));
                }
                cur = x;
                j += 1;
            },
            _ => {
                break ;
            },
        }
    }
    (j, cur)
}

fn scan_addrel_exec(v: &Vec<Instruction>, j0: usize, off: isize, acc0: i8) -> (r: (usize, i8))
    requires
        j0 <= v@.len(),
    ensures
        j0 <= r.0 <= v@.len(),
        scan_addrel(v@.skip(j0 as int), off, acc0) == (((r.0 - j0) as nat, r.1)),
{
    let n = v.len();
    let mut j = j0;
    let mut acc = acc0;
    loop
        invariant_except_break
            j0 <= j <= n,
            n == v@.len(),
            scan_addrel(v@.skip(j0 as int), off, acc0) == (
                ((scan_addrel(v@.skip(j as int), off, acc).0 + j - j0) as nat, scan_addrel(
                    v@.skip(j as int),
                    off,
                    acc,
                ).1)
            ),
        ensures
            j0 <= j <= n,
            n == v@.len(),
            scan_addrel(v@.skip(j0 as int), off, acc0) == (((j - j0) as nat, acc)),
        decreases n - j,
    {
        if j == n {
            proof {
                assert(v@.skip(j as int).len() == 0);
            }
            break ;
        }
        let inst = v[j];
        proof {
            assert(v@.skip(j as int)[0] == v@[j as int]);
        }
        match inst {
            Instruction::AddRelative { offset, amount } => {
                if offset == off {
                    proof {
                        assert(v@.skip(j as int).skip(1) =~= v@.skip(j as int + 1));
                    }
                    acc = acc.wrapping_add(amount);
                    j += 1;
                } else {
                    break ;
                }
            },
            _ => {
                break ;
            },
        }
    }
    (j, acc)
}

fn scan_addvec_exec(v: &Vec<Instruction>, j0: usize, acc0: [i8; 4]) -> (r: (usize, [i8; 4]))
    requires
        j0 <= v@.len(),
    ensures
        j0 <= r.0 <= v@.len(),
        scan_addvec(v@.skip(j0 as int), acc0) == (((r.0 - j0) as nat, r.1)),
{
    let n = v.len();
    let mut j = j0;
    let mut acc = acc0;
    loop
        invariant_except_break
            j0 <= j <= n,
            n == v@.len(),
            scan_addvec(v@.skip(j0 as int), acc0) == (
                ((scan_addvec(v@.skip(j as int), acc).0 + j - j0) as nat, scan_addvec(
                    v@.skip(j as int),
                    acc,
                ).1)
            ),
        ensures
            j0 <= j <= n,
            n == v@.len(),
            scan_addvec(v@.skip(j0 as int), acc0) == (((j - j0) as nat, acc)),
        decreases n - j,
    {
        if j == n {
            proof {
                assert(v@.skip(j as int).len() == 0);
            }
            break ;
        }
        let inst = v[j];
        proof {
            assert(v@.skip(j as int)[0] == v@[j as int]);
        }
        match inst {
            Instruction::AddVector { vector } => {
                proof {
                    assert(v@.skip(j as int).skip(1) =~= v@.skip(j as int + 1));
                }
                acc = lanes_sum_exec(acc, vector);
                j += 1;
            },
            _ => {
                break ;
            },
        }
    }
    (j, acc)
}

fn scan_mtz_exec(v: &Vec<Instruction>, j0: usize) -> (r: usize)
    requires
        j0 <= v@.len(),
    ensures
        j0 <= r <= v@.len(),
        scan_mtz(v@.skip(j0 as int)) == (r - j0) as nat,
{
    let n = v.len();
    let mut j = j0;
    loop
        invariant_except_break
            j0 <= j <= n,
            n == v@.len(),
            scan_mtz(v@.skip(j0 as int)) == (scan_mtz(v@.skip(j as int)) + j - j0) as nat,
        ensures
            j0 <= j <= n,
            n == v@.len(),
            scan_mtz(v@.skip(j0 as int)) == (j - j0) as nat,
        decreases n - j,
    {
        if j == n {
            proof {
                assert(v@.skip(j as int).len() == 0);
            }
            break ;
        }
        let inst = v[j];
        proof {
            assert(v@.skip(j as int)[0] == v@[j as int]);
        }
        match inst {
            Instruction::MoveRightToZero { .. } | Instruction::MoveLeftToZero { .. } => {
                proof {
                    assert(v@.skip(j as int).skip(1) =~= v@.skip(j as int + 1));
                }
                j += 1;
            },
            _ => {
                break ;
            },
        }
    }
    j
}

/// Pushes the squashed form of an accumulated `AddVector`, demoting it when
/// at most one lane is nonzero.
fn push_addvec(out: &mut Vec<Instruction>, v: [i8; 4])
    ensures
        final(out)@ == old(out)@ + emit_addvec(v),
{
    if v[1] == 0 && v[2] == 0 && v[3] == 0 {
        if v[0] != 0 {
            out.push(Instruction::Add(v[0]));
        }
    } else if v[0] == 0 && v[2] == 0 && v[3] == 0 {
        out.push(Instruction::AddRelative { offset: 1, amount: v[1] });
    } else if v[0] == 0 && v[1] == 0 && v[3] == 0 {
        out.push(Instruction::AddRelative { offset: 2, amount: v[2] });
    } else if v[0] == 0 && v[1] == 0 && v[2] == 0 {
        out.push(Instruction::AddRelative { offset: 3, amount: v[3] });
    } else {
        out.push(Instruction::AddVector { vector: v });
    }
    proof {
        assert(final(out)@ =~= old(out)@ + emit_addvec(v));
    }
}

/// The squash-and-clean pass: merges maximal adjacent runs of the same
/// accumulator variant into one instruction, drops accumulated no-ops, and
/// demotes vector instructions whose lanes have mostly cancelled.
#[verifier::rlimit(100)]
pub fn squash_and_clean(instructions: &mut Vec<Instruction>)
    ensures
        final(instructions)@ == spec_squash(old(instructions)@),
        final(instructions)@.len() <= old(instructions)@.len(),
{
    let ghost orig = instructions@;
    let mut out: Vec<Instruction> = Vec::new();
    let n = instructions.len();
    let mut i: usize = 0;
    proof {
        assert(orig.skip(0) =~= orig);
        assert(out@ + spec_squash(orig) =~= spec_squash(orig));
    }
    while i < n
        invariant
            instructions@ == orig,
            n == orig.len(),
            i <= n,
            spec_squash(orig) == out@ + spec_squash(orig.skip(i as int)),
            out@.len() <= i,
        decreases n - i,
    {
        let inst = instructions[i];
        let ghost rest = orig.skip(i as int);
        let ghost out0 = out@;
        proof {
            assert(rest[0] == orig[i as int]);
            assert(rest.skip(1) =~= orig.skip(i as int + 1));
        }
        match inst {
            Instruction::Add(a0) => {
                let (j, t) = scan_add_exec(instructions, i + 1, a0);
                if t != 0 {
                    out.push(Instruction::Add(t));
                }
                proof {
                    let k = scan_add(orig.skip(i as int + 1), a0);
                    assert(rest.skip(1 + k.0 as int) =~= orig.skip(j as int));
                    assert(out@ =~= out0 + emit_add(t));
                    assert(out0 + (emit_add(t) + spec_squash(orig.skip(j as int))) =~= (out0
                        + emit_add(t)) + spec_squash(orig.skip(j as int)));
                }
                i = j;
            },
            Instruction::Move(m0) => {
                let (j, t) = scan_move_exec(instructions, i + 1, m0);
                if t != 0 {
                    out.push(Instruction::Move(t));
                }
                proof {
                    let k = scan_move(orig.skip(i as int + 1), m0);
                    assert(rest.skip(1 + k.0 as int) =~= orig.skip(j as int));
                    assert(out@ =~= out0 + emit_move(t));
                    assert(out0 + (emit_move(t) + spec_squash(orig.skip(j as int))) =~= (out0
                        + emit_move(t)) + spec_squash(orig.skip(j as int)));
                }
                i = j;
            },
            Instruction::Write(c0) => {
                let (j, t) = scan_write_exec(instructions, i + 1, c0);
                if t != 0 {
                    out.push(Instruction::Write(t));
                }
                proof {
                    let k = scan_write(orig.skip(i as int + 1), c0);
                    assert(rest.skip(1 + k.0 as int) =~= orig.skip(j as int));
                    assert(out@ =~= out0 + emit_write(t));
                    assert(out0 + (emit_write(t) + spec_squash(orig.skip(j as int))) =~= (out0
                        + emit_write(t)) + spec_squash(orig.skip(j as int)));
                }
                i = j;
            },
            Instruction::Read(c0) => {
                let (j, t) = scan_read_exec(instructions, i + 1, c0);
                if t != 0 {
                    out.push(Instruction::Read(t));
                }
                proof {
                    let k = scan_read(orig.skip(i as int + 1), c0);
                    assert(rest.skip(1 + k.0 as int) =~= orig.skip(j as int));
                    assert(out@ =~= out0 + emit_read(t));
                    assert(out0 + (emit_read(t) + spec_squash(orig.skip(j as int))) =~= (out0
                        + emit_read(t)) + spec_squash(orig.skip(j as int)));
                }
                i = j;
            },
            Instruction::SetValue(v0) => {
                let (j, last) = scan_set_exec(instructions, i + 1, v0);
                out.push(Instruction::SetValue(last));
                proof {
                    let k = scan_set(orig.skip(i as int + 1), v0);
                    assert(rest.skip(1 + k.0 as int) =~= orig.skip(j as int));
                    assert(out@ =~= out0 + seq![Instruction::SetValue(last)]);
                    assert(out0 + (seq![Instruction::SetValue(last)] + spec_squash(
                        orig.skip(j as int),
                    )) =~= (out0 + seq![Instruction::SetValue(last)]) + spec_squash(
                        orig.skip(j as int),
                    ));
                }
                i = j;
            },
            Instruction::AddRelative { offset, amount } => {
                let (j, t) = scan_addrel_exec(instructions, i + 1, offset, amount);
                if t != 0 {
                    if offset != 0 {
                        out.push(Instruction::AddRelative { offset, amount: t });
                    } else {
                        out.push(Instruction::Add(t));
                    }
                }
                proof {
                    let k = scan_addrel(orig.skip(i as int + 1), offset, amount);
                    assert(rest.skip(1 + k.0 as int) =~= orig.skip(j as int));
                    assert(out@ =~= out0 + emit_addrel(offset, t));
                    assert(out0 + (emit_addrel(offset, t) + spec_squash(orig.skip(j as int))) =~= (
                    out0 + emit_addrel(offset, t)) + spec_squash(orig.skip(j as int)));
                }
                i = j;
            },
            Instruction::AddVector { vector } => {
                let (j, t) = scan_addvec_exec(instructions, i + 1, vector);
                push_addvec(&mut out, t);
                proof {
                    let k = scan_addvec(orig.skip(i as int + 1), vector);
                    assert(rest.skip(1 + k.0 as int) =~= orig.skip(j as int));
                    assert(out0 + (emit_addvec(t) + spec_squash(orig.skip(j as int))) =~= (out0
                        + emit_addvec(t)) + spec_squash(orig.skip(j as int)));
                }
                i = j;
            },
            Instruction::AddVectorMove { stride, vector } => {
                if vector[0] == 0 && vector[1] == 0 && vector[2] == 0 && vector[3] == 0 {
                    if stride != 0 {
                        out.push(Instruction::Move(stride));
                    }
                } else {
                    out.push(Instruction::AddVectorMove { stride, vector });
                }
                proof {
                    assert(out@ =~= out0 + emit_avm(stride, vector));
                    assert(out0 + (emit_avm(stride, vector) + spec_squash(
                        orig.skip(i as int + 1),
                    )) =~= (out0 + emit_avm(stride, vector)) + spec_squash(orig.skip(i as int + 1)));
                }
                i += 1;
            },
            Instruction::MoveRightToZero { .. } | Instruction::MoveLeftToZero { .. } => {
                let j = scan_mtz_exec(instructions, i + 1);
                out.push(inst);
                proof {
                    let k = scan_mtz(orig.skip(i as int + 1));
                    assert(rest.skip(1 + k as int) =~= orig.skip(j as int));
                    assert(out@ =~= out0 + seq![inst]);
                    assert(out0 + (seq![inst] + spec_squash(orig.skip(j as int))) =~= (out0
                        + seq![inst]) + spec_squash(orig.skip(j as int)));
                }
                i = j;
            },
            Instruction::JumpIfZero { .. } | Instruction::JumpIfNotZero { .. } => {
                out.push(inst);
                proof {
                    assert(out@ =~= out0 + seq![inst]);
                    assert(out0 + (seq![inst] + spec_squash(orig.skip(i as int + 1))) =~= (out0
                        + seq![inst]) + spec_squash(orig.skip(i as int + 1)));
                }
                i += 1;
            },
        }
    }
    proof {
        assert(orig.skip(n as int).len() == 0);
        assert(out@ + spec_squash(orig.skip(n as int)) =~= out@);
    }
    *instructions = out;
}

// ---------------------------------------------------------------------------
// Window substitution passes.
// ---------------------------------------------------------------------------

/// The magnitude of a negative pointer delta.
fn neg_abs(s: isize) -> (r: usize)
    requires
        s < 0,
    ensures
        r == -(s as int),
{
    if s == isize::MIN {
        (isize::MAX as usize) + 1
    } else {
        (-s) as usize
    }
}

/// What a matched two-instruction window is replaced by, if anything.
pub open spec fn spec_match2(a: Instruction, b: Instruction) -> Option<Seq<Instruction>> {
    match (a, b) {
        (Instruction::Add(_), Instruction::SetValue(v)) => Some(seq![Instruction::SetValue(v)]),
        (Instruction::Add(x), Instruction::AddRelative { offset, amount }) => if 0 < offset < 4 {
            Some(
                seq![
                    Instruction::AddVector {
                        vector: lane_set(lane_set(lanes_zero(), 0, x), offset as int, amount),
                    },
                ],
            )
        } else {
            None
        },
        (Instruction::AddRelative { offset, amount }, Instruction::Add(x)) => if 0 < offset < 4 {
            Some(
                seq![
                    Instruction::AddVector {
                        vector: lane_set(lane_set(lanes_zero(), 0, x), offset as int, amount),
                    },
                ],
            )
        } else {
            None
        },
        (Instruction::Add(x), Instruction::AddVector { vector }) => Some(
            seq![Instruction::AddVector { vector: lane_bump(vector, 0, x) }],
        ),
        (Instruction::SetValue(v), Instruction::Add(x)) => Some(
            seq![Instruction::SetValue(v.wrapping_add(x))],
        ),
        (Instruction::SetValue(v), Instruction::MoveRightToZero { .. }) => if v == 0 {
            Some(seq![Instruction::SetValue(0)])
        } else {
            None
        },
        (Instruction::SetValue(v), Instruction::MoveLeftToZero { .. }) => if v == 0 {
            Some(seq![Instruction::SetValue(0)])
        } else {
            None
        },
        (Instruction::AddRelative { offset, amount }, Instruction::AddVector { vector }) => if 0
            <= offset < 4 {
            Some(seq![Instruction::AddVector { vector: lane_bump(vector, offset as int, amount) }])
        } else {
            None
        },
        (Instruction::AddVector { vector }, Instruction::Add(x)) => Some(
            seq![Instruction::AddVector { vector: lane_bump(vector, 0, x) }],
        ),
        (Instruction::MoveRightToZero { .. }, Instruction::Add(x)) => Some(
            seq![a, Instruction::SetValue(x)],
        ),
        (Instruction::MoveLeftToZero { .. }, Instruction::Add(x)) => Some(
            seq![a, Instruction::SetValue(x)],
        ),
        (Instruction::Move(s), Instruction::Add(x)) => if 0 < s < 4 {
            Some(
                seq![
                    Instruction::AddVectorMove {
                        stride: s,
                        vector: lane_set(lanes_zero(), s as int, x),
                    },
                ],
            )
        } else {
            None
        },
        _ => None,
    }
}

fn try_match2(a: Instruction, b: Instruction) -> (r: Option<Vec<Instruction>>)
    ensures
        r matches Some(v) ==> spec_match2(a, b) == Some(v@),
        r is None ==> spec_match2(a, b) is None,
{
    match (a, b) {
        (Instruction::Add(_), Instruction::SetValue(v)) => {
            let out = vec![Instruction::SetValue(v)];
            proof {
                assert(out@ =~= seq![Instruction::SetValue(v)]);
            }
            Some(out)
        },
        (Instruction::Add(x), Instruction::AddRelative { offset, amount }) => {
            if 0 < offset && offset < 4 {
                let vector = lane_set_exec(lane_set_exec([0, 0, 0, 0], 0, x), offset as usize, amount);
                let out = vec![Instruction::AddVector { vector }];
                proof {
                    assert(out@ =~= seq![Instruction::AddVector { vector }]);
                }
                Some(out)
            } else {
                None
            }
        },
        (Instruction::AddRelative { offset, amount }, Instruction::Add(x)) => {
            if 0 < offset && offset < 4 {
                let vector = lane_set_exec(lane_set_exec([0, 0, 0, 0], 0, x), offset as usize, amount);
                let out = vec![Instruction::AddVector { vector }];
                proof {
                    assert(out@ =~= seq![Instruction::AddVector { vector }]);
                }
                Some(out)
            } else {
                None
            }
        },
        (Instruction::Add(x), Instruction::AddVector { vector }) => {
            let vector = lane_bump_exec(vector, 0, x);
            let out = vec![Instruction::AddVector { vector }];
            proof {
                assert(out@ =~= seq![Instruction::AddVector { vector }]);
            }
            Some(out)
        },
        (Instruction::SetValue(v), Instruction::Add(x)) => {
            let out = vec![Instruction::SetValue(v.wrapping_add(x))];
            proof {
                assert(out@ =~= seq![Instruction::SetValue(v.wrapping_add(x))]);
            }
            Some(out)
        },
        (Instruction::SetValue(v), Instruction::MoveRightToZero { .. })
        | (Instruction::SetValue(v), Instruction::MoveLeftToZero { .. }) => {
            if v == 0 {
                let out = vec![Instruction::SetValue(0)];
                proof {
                    assert(out@ =~= seq![Instruction::SetValue(0i8)]);
                }
                Some(out)
            } else {
                None
            }
        },
        (Instruction::AddRelative { offset, amount }, Instruction::AddVector { vector }) => {
            if 0 <= offset && offset < 4 {
                let vector = lane_bump_exec(vector, offset as usize, amount);
                let out = vec![Instruction::AddVector { vector }];
                proof {
                    assert(out@ =~= seq![Instruction::AddVector { vector }]);
                }
                Some(out)
            } else {
                None
            }
        },
        (Instruction::AddVector { vector }, Instruction::Add(x)) => {
            let vector = lane_bump_exec(vector, 0, x);
            let out = vec![Instruction::AddVector { vector }];
            proof {
                assert(out@ =~= seq![Instruction::AddVector { vector }]);
            }
            Some(out)
        },
        (Instruction::MoveRightToZero { .. }, Instruction::Add(x))
        | (Instruction::MoveLeftToZero { .. }, Instruction::Add(x)) => {
            let out = vec![a, Instruction::SetValue(x)];
            proof {
                assert(out@ =~= seq![a, Instruction::SetValue(x)]);
            }
            Some(out)
        },
        (Instruction::Move(s), Instruction::Add(x)) => {
            if 0 < s && s < 4 {
                let vector = lane_set_exec([0, 0, 0, 0], s as usize, x);
                let out = vec![Instruction::AddVectorMove { stride: s, vector }];
                proof {
                    assert(out@ =~= seq![Instruction::AddVectorMove { stride: s, vector }]);
                }
                Some(out)
            } else {
                None
            }
        },
        _ => None,
    }
}

/// What a matched three-instruction window is replaced by, if anything.
pub open spec fn spec_match3(a: Instruction, b: Instruction, c: Instruction) -> Option<
    Seq<Instruction>,
> {
    match (a, b, c) {
        (Instruction::Add(x), Instruction::Move(s), Instruction::Add(y)) => if 0 < s < 4 {
            Some(
                seq![
                    Instruction::AddVectorMove {
                        stride: s,
                        vector: lane_set(lane_set(lanes_zero(), 0, x), s as int, y),
                    },
                ],
            )
        } else if -4 < s < 0 {
            Some(
                seq![
                    Instruction::Move(s),
                    Instruction::AddVector {
                        vector: lane_set(lane_set(lanes_zero(), 0, y), -(s as int), x),
                    },
                ],
            )
        } else {
            None
        },
        (Instruction::Move(m1), Instruction::Add(x), Instruction::Move(m2)) => if m1 + m2 == 0 {
            Some(seq![Instruction::AddRelative { offset: m1, amount: x }])
        } else if isize::MIN <= m1 + m2 <= isize::MAX {
            Some(
                seq![
                    Instruction::AddRelative { offset: m1, amount: x },
                    Instruction::Move((m1 + m2) as isize),
                ],
            )
        } else {
            None
        },
        (
            Instruction::JumpIfZero { .. },
            Instruction::Add(d),
            Instruction::JumpIfNotZero { .. },
        ) => if d == 1 || d == -1 {
            Some(seq![Instruction::SetValue(0)])
        } else {
            None
        },
        (
            Instruction::JumpIfZero { .. },
            Instruction::Move(s),
            Instruction::JumpIfNotZero { .. },
        ) => if s > 0 {
            Some(seq![Instruction::MoveRightToZero { increment: 0, stride: s as usize }])
        } else if s < 0 {
            Some(seq![Instruction::MoveLeftToZero { increment: 0, stride: (-(s as int)) as usize }])
        } else {
            Some(seq![])
        },
        (
            Instruction::AddRelative { offset: o1, amount: a1 },
            mid,
            Instruction::AddRelative { offset: o2, amount: a2 },
        ) => if o1 == o2 && mid.spec_is_stable() {
            Some(seq![Instruction::AddRelative { offset: o1, amount: a1.wrapping_add(a2) }, mid])
        } else {
            None
        },
        _ => None,
    }
}

fn try_match3(a: Instruction, b: Instruction, c: Instruction) -> (r: Option<Vec<Instruction>>)
    ensures
        r matches Some(v) ==> spec_match3(a, b, c) == Some(v@),
        r is None ==> spec_match3(a, b, c) is None,
{
    match (a, b, c) {
        (Instruction::Add(x), Instruction::Move(s), Instruction::Add(y)) => {
            if 0 < s && s < 4 {
                let vector = lane_set_exec(lane_set_exec([0, 0, 0, 0], 0, x), s as usize, y);
                let out = vec![Instruction::AddVectorMove { stride: s, vector }];
                proof {
                    assert(out@ =~= seq![Instruction::AddVectorMove { stride: s, vector }]);
                }
                Some(out)
            } else if -4 < s && s < 0 {
                let vector = lane_set_exec(lane_set_exec([0, 0, 0, 0], 0, y), neg_abs(s), x);
                let out = vec![Instruction::Move(s), Instruction::AddVector { vector }];
                proof {
                    assert(out@ =~= seq![
                        Instruction::Move(s),
                        Instruction::AddVector { vector },
                    ]);
                }
                Some(out)
            } else {
                None
            }
        },
        (Instruction::Move(m1), Instruction::Add(x), Instruction::Move(m2)) => {
            match m1.checked_add(m2) {
                Some(t) => {
                    if t == 0 {
                        let out = vec![Instruction::AddRelative { offset: m1, amount: x }];
                        proof {
                            assert(out@ =~= seq![
                                Instruction::AddRelative { offset: m1, amount: x },
                            ]);
                        }
                        Some(out)
                    } else {
                        let out = vec![
                            Instruction::AddRelative { offset: m1, amount: x },
                            Instruction::Move(t),
                        ];
                        proof {
                            assert(out@ =~= seq![
                                Instruction::AddRelative { offset: m1, amount: x },
                                Instruction::Move(t),
                            ]);
                        }
                        Some(out)
                    }
                },
                None => None,
            }
        },
        (
            Instruction::JumpIfZero { .. },
            Instruction::Add(d),
            Instruction::JumpIfNotZero { .. },
        ) => {
            if d == 1 || d == -1 {
                let out = vec![Instruction::SetValue(0)];
                proof {
                    assert(out@ =~= seq![Instruction::SetValue(0i8)]);
                }
                Some(out)
            } else {
                None
            }
        },
        (
            Instruction::JumpIfZero { .. },
            Instruction::Move(s),
            Instruction::JumpIfNotZero { .. },
        ) => {
            if s > 0 {
                let out = vec![Instruction::MoveRightToZero { increment: 0, stride: s as usize }];
                proof {
                    assert(out@ =~= seq![
                        Instruction::MoveRightToZero { increment: 0i8, stride: s as usize },
                    ]);
                }
                Some(out)
            } else if s < 0 {
                let stride = neg_abs(s);
                let out = vec![Instruction::MoveLeftToZero { increment: 0, stride }];
                proof {
                    assert(out@ =~= seq![
                        Instruction::MoveLeftToZero { increment: 0i8, stride },
                    ]);
                }
                Some(out)
            } else {
                let out: Vec<Instruction> = Vec::new();
                proof {
                    assert(out@ =~= Seq::<Instruction>::empty());
                }
                Some(out)
            }
        },
        (
            Instruction::AddRelative { offset: o1, amount: a1 },
            mid,
            Instruction::AddRelative { offset: o2, amount: a2 },
        ) => {
            if o1 == o2 && mid.is_stable() {
                let out = vec![
                    Instruction::AddRelative { offset: o1, amount: a1.wrapping_add(a2) },
                    mid,
                ];
                proof {
                    assert(out@ =~= seq![
                        Instruction::AddRelative { offset: o1, amount: a1.wrapping_add(a2) },
                        mid,
                    ]);
                }
                Some(out)
            } else {
                None
            }
        },
        _ => None,
    }
}

/// What a matched four-instruction window is replaced by, if anything.
pub open spec fn spec_match4(
    a: Instruction,
    b: Instruction,
    c: Instruction,
    d: Instruction,
) -> Option<Seq<Instruction>> {
    match (a, b, c, d) {
        (
            Instruction::Add(x),
            Instruction::Move(m1),
            Instruction::Add(y),
            Instruction::Move(m2),
        ) => if m1 > 0 && m2 > 0 && m1 + m2 < 4 {
            Some(
                seq![
                    Instruction::AddVectorMove {
                        stride: (m1 + m2) as isize,
                        vector: lane_set(lane_set(lanes_zero(), 0, x), m1 as int, y),
                    },
                ],
            )
        } else if m1 < 0 && m2 < 0 && m1 + m2 > -4 {
            Some(
                seq![
                    Instruction::Move((m1 + m2) as isize),
                    Instruction::AddVector {
                        vector: lane_set(
                            lane_set(lanes_zero(), -(m2 as int), y),
                            -(m1 as int) - (m2 as int),
                            x,
                        ),
                    },
                ],
            )
        } else {
            None
        },
        (
            Instruction::Move(m1),
            Instruction::Add(x),
            Instruction::Move(m2),
            Instruction::Add(y),
        ) => if m1 > 0 && m2 > 0 && m1 + m2 < 4 {
            Some(
                seq![
                    Instruction::AddVectorMove {
                        stride: (m1 + m2) as isize,
                        vector: lane_set(
                            lane_set(lanes_zero(), m1 as int, x),
                            (m1 as int) + (m2 as int),
                            y,
                        ),
                    },
                ],
            )
        } else if m1 < 0 && m2 < 0 && m1 + m2 > -4 {
            Some(
                seq![
                    Instruction::Move((m1 + m2) as isize),
                    Instruction::AddVector {
                        vector: lane_set(lane_set(lanes_zero(), 0, y), -(m2 as int), x),
                    },
                ],
            )
        } else {
            None
        },
        (
            Instruction::JumpIfZero { .. },
            Instruction::Add(inc),
            Instruction::Move(s),
            Instruction::JumpIfNotZero { .. },
        ) => if s > 0 {
            Some(seq![Instruction::MoveRightToZero { increment: inc, stride: s as usize }])
        } else if s < 0 {
            Some(
                seq![
                    Instruction::MoveLeftToZero { increment: inc, stride: (-(s as int)) as usize },
                ],
            )
        } else {
            Some(seq![])
        },
        (
            Instruction::AddRelative { offset: o1, amount: a1 },
            mid1,
            mid2,
            Instruction::AddRelative { offset: o2, amount: a2 },
        ) => if o1 == o2 && mid1.spec_is_stable() && mid2.spec_is_stable() {
            Some(
                seq![
                    Instruction::AddRelative { offset: o1, amount: a1.wrapping_add(a2) },
                    mid1,
                    mid2,
                ],
            )
        } else {
            None
        },
        _ => None,
    }
}

fn try_match4(a: Instruction, b: Instruction, c: Instruction, d: Instruction) -> (r: Option<
    Vec<Instruction>,
>)
    ensures
        r matches Some(v) ==> spec_match4(a, b, c, d) == Some(v@),
        r is None ==> spec_match4(a, b, c, d) is None,
{
    match (a, b, c, d) {
        (
            Instruction::Add(x),
            Instruction::Move(m1),
            Instruction::Add(y),
            Instruction::Move(m2),
        ) => {
            if m1 > 0 && m2 > 0 && m2 < 4 && m1 < 4 && m1 + m2 < 4 {
                let vector = lane_set_exec(lane_set_exec([0, 0, 0, 0], 0, x), m1 as usize, y);
                let out = vec![Instruction::AddVectorMove { stride: m1 + m2, vector }];
                proof {
                    assert(out@ =~= seq![
                        Instruction::AddVectorMove { stride: (m1 + m2) as isize, vector },
                    ]);
                }
                Some(out)
            } else if m1 < 0 && m2 < 0 && m1 > -4 && m2 > -4 && m1 + m2 > -4 {
                let vector = lane_set_exec(
                    lane_set_exec([0, 0, 0, 0], neg_abs(m2), y),
                    neg_abs(m1 + m2),
                    x,
                );
                let out = vec![Instruction::Move(m1 + m2), Instruction::AddVector { vector }];
                proof {
                    assert(out@ =~= seq![
                        Instruction::Move((m1 + m2) as isize),
                        Instruction::AddVector { vector },
                    ]);
                }
                Some(out)
            } else {
                proof {
                    assert(spec_match4(a, b, c, d) is None);
                }
                None
            }
        },
        (
            Instruction::Move(m1),
            Instruction::Add(x),
            Instruction::Move(m2),
            Instruction::Add(y),
        ) => {
            if m1 > 0 && m2 > 0 && m2 < 4 && m1 < 4 && m1 + m2 < 4 {
                let vector = lane_set_exec(
                    lane_set_exec([0, 0, 0, 0], m1 as usize, x),
                    (m1 + m2) as usize,
                    y,
                );
                let out = vec![Instruction::AddVectorMove { stride: m1 + m2, vector }];
                proof {
                    assert(out@ =~= seq![
                        Instruction::AddVectorMove { stride: (m1 + m2) as isize, vector },
                    ]);
                }
                Some(out)
            } else if m1 < 0 && m2 < 0 && m1 > -4 && m2 > -4 && m1 + m2 > -4 {
                let vector = lane_set_exec(lane_set_exec([0, 0, 0, 0], 0, y), neg_abs(m2), x);
                let out = vec![Instruction::Move(m1 + m2), Instruction::AddVector { vector }];
                proof {
                    assert(out@ =~= seq![
                        Instruction::Move((m1 + m2) as isize),
                        Instruction::AddVector { vector },
                    ]);
                }
                Some(out)
            } else {
                proof {
                    assert(spec_match4(a, b, c, d) is None);
                }
                None
            }
        },
        (
            Instruction::JumpIfZero { .. },
            Instruction::Add(inc),
            Instruction::Move(s),
            Instruction::JumpIfNotZero { .. },
        ) => {
            if s > 0 {
                let out = vec![Instruction::MoveRightToZero { increment: inc, stride: s as usize }];
                proof {
                    assert(out@ =~= seq![
                        Instruction::MoveRightToZero { increment: inc, stride: s as usize },
                    ]);
                }
                Some(out)
            } else if s < 0 {
                let stride = neg_abs(s);
                let out = vec![Instruction::MoveLeftToZero { increment: inc, stride }];
                proof {
                    assert(out@ =~= seq![
                        Instruction::MoveLeftToZero { increment: inc, stride },
                    ]);
                }
                Some(out)
            } else {
                let out: Vec<Instruction> = Vec::new();
                proof {
                    assert(out@ =~= Seq::<Instruction>::empty());
                }
                Some(out)
            }
        },
        (
            Instruction::AddRelative { offset: o1, amount: a1 },
            mid1,
            mid2,
            Instruction::AddRelative { offset: o2, amount: a2 },
        ) => {
            if o1 == o2 && mid1.is_stable() && mid2.is_stable() {
                let out = vec![
                    Instruction::AddRelative { offset: o1, amount: a1.wrapping_add(a2) },
                    mid1,
                    mid2,
                ];
                proof {
                    assert(out@ =~= seq![
                        Instruction::AddRelative { offset: o1, amount: a1.wrapping_add(a2) },
                        mid1,
                        mid2,
                    ]);
                }
                Some(out)
            } else {
                None
            }
        },
        _ => None,
    }
}

/// One sliding pass of the two-instruction window: a match is replaced by
/// its fused form and the window skips past what it consumed; otherwise the
/// first instruction is kept and the window advances by one.
pub open spec fn spec_sub2(s: Seq<Instruction>) -> Seq<Instruction>
    decreases s.len(),
{
    if s.len() < 2 {
        s
    } else {
        match spec_match2(s[0], s[1]) {
            Some(r) => r + spec_sub2(s.skip(2)),
            None => seq![s[0]] + spec_sub2(s.skip(1)),
        }
    }
}

/// One sliding pass of the three-instruction window.
pub open spec fn spec_sub3(s: Seq<Instruction>) -> Seq<Instruction>
    decreases s.len(),
{
    if s.len() < 3 {
        s
    } else {
        match spec_match3(s[0], s[1], s[2]) {
            Some(r) => r + spec_sub3(s.skip(3)),
            None => seq![s[0]] + spec_sub3(s.skip(1)),
        }
    }
}

/// One sliding pass of the four-instruction window.
pub open spec fn spec_sub4(s: Seq<Instruction>) -> Seq<Instruction>
    decreases s.len(),
{
    if s.len() < 4 {
        s
    } else {
        match spec_match4(s[0], s[1], s[2], s[3]) {
            Some(r) => r + spec_sub4(s.skip(4)),
            None => seq![s[0]] + spec_sub4(s.skip(1)),
        }
    }
}

/// The two-instruction window substitution pass.
#[verifier::rlimit(50)]
pub fn substitute_patterns_2(instructions: &mut Vec<Instruction>)
    ensures
        final(instructions)@ == spec_sub2(old(instructions)@),
        final(instructions)@.len() <= old(instructions)@.len(),
{
    let n = instructions.len();
    if n < 2 {
        return ;
    }
    let ghost orig = instructions@;
    let mut out: Vec<Instruction> = Vec::new();
    let mut i: usize = 0;
    proof {
        assert(orig.skip(0) =~= orig);
        assert(out@ + spec_sub2(orig) =~= spec_sub2(orig));
    }
    while i < n
        invariant
            instructions@ == orig,
            n == orig.len(),
            i <= n,
            spec_sub2(orig) == out@ + spec_sub2(orig.skip(i as int)),
            out@.len() <= i,
        decreases n - i,
    {
        let ghost rest = orig.skip(i as int);
        let ghost out0 = out@;
        proof {
            assert(rest[0] == orig[i as int]);
            assert(rest.skip(1) =~= orig.skip(i as int + 1));
        }
        if i + 1 < n {
            proof {
                assert(rest[1] == orig[i as int + 1]);
                assert(rest.skip(2) =~= orig.skip(i as int + 2));
            }
            match try_match2(instructions[i], instructions[i + 1]) {
                Some(mut v) => {
                    let ghost emitted = v@;
                    out.append(&mut v);
                    proof {
                        assert(out@ =~= out0 + emitted);
                        assert(out0 + (emitted + spec_sub2(orig.skip(i as int + 2))) =~= (out0
                            + emitted) + spec_sub2(orig.skip(i as int + 2)));
                    }
                    i += 2;
                },
                None => {
                    out.push(instructions[i]);
                    proof {
                        assert(out@ =~= out0 + seq![orig[i as int]]);
                        assert(out0 + (seq![orig[i as int]] + spec_sub2(orig.skip(i as int + 1)))
                            =~= (out0 + seq![orig[i as int]]) + spec_sub2(orig.skip(i as int + 1)));
                    }
                    i += 1;
                },
            }
        } else {
            out.push(instructions[i]);
            proof {
                assert(rest.len() == 1);
                assert(rest =~= seq![orig[i as int]]);
                assert(out0 + rest =~= (out0 + seq![orig[i as int]]) + spec_sub2(
                    orig.skip(i as int + 1),
                ));
            }
            i += 1;
        }
    }
    proof {
        assert(orig.skip(n as int).len() == 0);
        assert(out@ + spec_sub2(orig.skip(n as int)) =~= out@);
    }
    *instructions = out;
}

/// The three-instruction window substitution pass.
#[verifier::rlimit(50)]
pub fn substitute_patterns_3(instructions: &mut Vec<Instruction>)
    ensures
        final(instructions)@ == spec_sub3(old(instructions)@),
        final(instructions)@.len() <= old(instructions)@.len(),
{
    let n = instructions.len();
    if n < 3 {
        return ;
    }
    let ghost orig = instructions@;
    let mut out: Vec<Instruction> = Vec::new();
    let mut i: usize = 0;
    proof {
        assert(orig.skip(0) =~= orig);
        assert(out@ + spec_sub3(orig) =~= spec_sub3(orig));
    }
    while i < n
        invariant
            instructions@ == orig,
            n == orig.len(),
            i <= n,
            spec_sub3(orig) == out@ + spec_sub3(orig.skip(i as int)),
            out@.len() <= i,
        decreases n - i,
    {
        let ghost rest = orig.skip(i as int);
        let ghost out0 = out@;
        proof {
            assert(rest[0] == orig[i as int]);
            assert(rest.skip(1) =~= orig.skip(i as int + 1));
        }
        if n - i > 2 {
            proof {
                assert(rest[1] == orig[i as int + 1]);
                assert(rest[2] == orig[i as int + 2]);
                assert(rest.skip(3) =~= orig.skip(i as int + 3));
            }
            match try_match3(instructions[i], instructions[i + 1], instructions[i + 2]) {
                Some(mut v) => {
                    let ghost emitted = v@;
                    out.append(&mut v);
                    proof {
                        assert(out@ =~= out0 + emitted);
                        assert(out0 + (emitted + spec_sub3(orig.skip(i as int + 3))) =~= (out0
                            + emitted) + spec_sub3(orig.skip(i as int + 3)));
                    }
                    i += 3;
                },
                None => {
                    out.push(instructions[i]);
                    proof {
                        assert(out@ =~= out0 + seq![orig[i as int]]);
                        assert(out0 + (seq![orig[i as int]] + spec_sub3(orig.skip(i as int + 1)))
                            =~= (out0 + seq![orig[i as int]]) + spec_sub3(orig.skip(i as int + 1)));
                    }
                    i += 1;
                },
            }
        } else {
            out.push(instructions[i]);
            proof {
                assert(rest.len() < 3);
                assert(orig.skip(i as int + 1).len() < 3);
                assert(rest =~= seq![orig[i as int]] + orig.skip(i as int + 1));
                assert(out0 + rest =~= (out0 + seq![orig[i as int]]) + spec_sub3(
                    orig.skip(i as int + 1),
                ));
            }
            i += 1;
        }
    }
    proof {
        assert(orig.skip(n as int).len() == 0);
        assert(out@ + spec_sub3(orig.skip(n as int)) =~= out@);
    }
    *instructions = out;
}

/// The four-instruction window substitution pass.
#[verifier::rlimit(50)]
pub fn substitute_patterns_4(instructions: &mut Vec<Instruction>)
    ensures
        final(instructions)@ == spec_sub4(old(instructions)@),
        final(instructions)@.len() <= old(instructions)@.len(),
{
    let n = instructions.len();
    if n < 4 {
        return ;
    }
    let ghost orig = instructions@;
    let mut out: Vec<Instruction> = Vec::new();
    let mut i: usize = 0;
    proof {
        assert(orig.skip(0) =~= orig);
        assert(out@ + spec_sub4(orig) =~= spec_sub4(orig));
    }
    while i < n
        invariant
            instructions@ == orig,
            n == orig.len(),
            i <= n,
            spec_sub4(orig) == out@ + spec_sub4(orig.skip(i as int)),
            out@.len() <= i,
        decreases n - i,
    {
        let ghost rest = orig.skip(i as int);
        let ghost out0 = out@;
        proof {
            assert(rest[0] == orig[i as int]);
            assert(rest.skip(1) =~= orig.skip(i as int + 1));
        }
        if n - i > 3 {
            proof {
                assert(rest[1] == orig[i as int + 1]);
                assert(rest[2] == orig[i as int + 2]);
                assert(rest[3] == orig[i as int + 3]);
                assert(rest.skip(4) =~= orig.skip(i as int + 4));
            }
            match try_match4(
                instructions[i],
                instructions[i + 1],
                instructions[i + 2],
                instructions[i + 3],
            ) {
                Some(mut v) => {
                    let ghost emitted = v@;
                    out.append(&mut v);
                    proof {
                        assert(out@ =~= out0 + emitted);
                        assert(out0 + (emitted + spec_sub4(orig.skip(i as int + 4))) =~= (out0
                            + emitted) + spec_sub4(orig.skip(i as int + 4)));
                    }
                    i += 4;
                },
                None => {
                    out.push(instructions[i]);
                    proof {
                        assert(out@ =~= out0 + seq![orig[i as int]]);
                        assert(out0 + (seq![orig[i as int]] + spec_sub4(orig.skip(i as int + 1)))
                            =~= (out0 + seq![orig[i as int]]) + spec_sub4(orig.skip(i as int + 1)));
                    }
                    i += 1;
                },
            }
        } else {
            out.push(instructions[i]);
            proof {
                assert(rest.len() < 4);
                assert(orig.skip(i as int + 1).len() < 4);
                assert(rest =~= seq![orig[i as int]] + orig.skip(i as int + 1));
                assert(out0 + rest =~= (out0 + seq![orig[i as int]]) + spec_sub4(
                    orig.skip(i as int + 1),
                ));
            }
            i += 1;
        }
    }
    proof {
        assert(orig.skip(n as int).len() == 0);
        assert(out@ + spec_sub4(orig.skip(n as int)) =~= out@);
    }
    *instructions = out;
}

// ---------------------------------------------------------------------------
// Dead-loop elimination.
// ---------------------------------------------------------------------------

/// The index of the loop-close that matches an open at nesting `depth`,
/// scanning from `from`; `None` when the sequence ends first.
pub open spec fn close_idx(s: Seq<Instruction>, from: int, depth: int) -> Option<int>
    decreases s.len() - from,
{
    if from < 0 || from >= s.len() {
        None
    } else {
        match s[from] {
            Instruction::JumpIfZero { .. } => close_idx(s, from + 1, depth + 1),
            Instruction::JumpIfNotZero { .. } => if depth == 0 {
                Some(from)
            } else {
                close_idx(s, from + 1, depth - 1)
            },
            _ => close_idx(s, from + 1, depth),
        }
    }
}

proof fn lemma_close_idx_bounds(s: Seq<Instruction>, from: int, depth: int)
    ensures
        close_idx(s, from, depth) matches Some(j) ==> from <= j < s.len(),
    decreases s.len() - from,
{
    if 0 <= from < s.len() {
        match s[from] {
            Instruction::JumpIfZero { .. } => lemma_close_idx_bounds(s, from + 1, depth + 1),
            Instruction::JumpIfNotZero { .. } => {
                if depth != 0 {
                    lemma_close_idx_bounds(s, from + 1, depth - 1);
                }
            },
            _ => lemma_close_idx_bounds(s, from + 1, depth),
        }
    }
}

/// One linear pass that tracks whether the current cell is statically known
/// to be zero and drops every loop whose guard is reached with that
/// knowledge: such a loop is never entered.
pub open spec fn spec_rsl(s: Seq<Instruction>, zero: bool) -> Seq<Instruction>
    decreases s.len(),
    via spec_rsl_decreases
{
    if s.len() == 0 {
        seq![]
    } else {
        match s[0] {
            Instruction::JumpIfZero { .. } => {
                if zero {
                    match close_idx(s, 1, 0) {
                        Some(j) => spec_rsl(s.skip(j + 1), true),
                        None => seq![],
                    }
                } else {
                    seq![s[0]] + spec_rsl(s.skip(1), false)
                }
            },
            Instruction::Write(_) => seq![s[0]] + spec_rsl(s.skip(1), zero),
            Instruction::JumpIfNotZero { .. }
            | Instruction::MoveRightToZero { .. }
            | Instruction::MoveLeftToZero { .. } => seq![s[0]] + spec_rsl(s.skip(1), true),
            Instruction::SetValue(v) => seq![s[0]] + spec_rsl(s.skip(1), v == 0),
            _ => seq![s[0]] + spec_rsl(s.skip(1), false),
        }
    }
}

#[via_fn]
proof fn spec_rsl_decreases(s: Seq<Instruction>, zero: bool) {
    if s.len() > 0 {
        match s[0] {
            Instruction::JumpIfZero { .. } => {
                if zero {
                    lemma_close_idx_bounds(s, 1, 0);
                }
            },
            _ => {},
        }
    }
}

/// Finds the matching loop-close for the open at `i0`, scanning right.
fn find_close(v: &Vec<Instruction>, i0: usize) -> (r: Option<usize>)
    requires
        i0 < v@.len(),
    ensures
        r matches Some(j) ==> i0 < j < v@.len() && close_idx(v@.skip(i0 as int), 1, 0) == Some(
            j - i0,
        ),
        r is None ==> close_idx(v@.skip(i0 as int), 1, 0) is None,
{
    let ghost rest = v@.skip(i0 as int);
    let n = v.len();
    let mut j = i0 + 1;
    let mut depth: usize = 0;
    let mut found: Option<usize> = None;
    loop
        invariant_except_break
            i0 + 1 <= j <= n,
            n == v@.len(),
            rest == v@.skip(i0 as int),
            depth <= j,
            close_idx(rest, 1, 0) == close_idx(rest, j - i0, depth as int),
        ensures
            n == v@.len(),
            found matches Some(jj) ==> i0 < jj < n && close_idx(rest, 1, 0) == Some(jj - i0),
            found is None ==> close_idx(rest, 1, 0) is None,
        decreases n - j,
    {
        if j == n {
            proof {
                assert(rest.len() == n - i0);
                assert(close_idx(rest, j - i0, depth as int) is None);
            }
            found = None;
            break ;
        }
        let inst = v[j];
        proof {
            assert(rest[j - i0] == v@[j as int]);
        }
        match inst {
            Instruction::JumpIfZero { .. } => {
                depth += 1;
                j += 1;
            },
            Instruction::JumpIfNotZero { .. } => {
                if depth == 0 {
                    found = Some(j);
                    break ;
                } else {
                    depth -= 1;
                    j += 1;
                }
            },
            _ => {
                j += 1;
            },
        }
    }
    found
}

/// The dead-loop elimination pass.
#[verifier::rlimit(50)]
pub fn remove_spurious_loops(instructions: &mut Vec<Instruction>)
    ensures
        final(instructions)@ == spec_rsl(old(instructions)@, true),
        final(instructions)@.len() <= old(instructions)@.len(),
{
    let ghost orig = instructions@;
    let mut out: Vec<Instruction> = Vec::new();
    let n = instructions.len();
    let mut i: usize = 0;
    let mut zero: bool = true;
    proof {
        assert(orig.skip(0) =~= orig);
        assert(out@ + spec_rsl(orig, true) =~= spec_rsl(orig, true));
    }
    while i < n
        invariant
            instructions@ == orig,
            n == orig.len(),
            i <= n,
            spec_rsl(orig, true) == out@ + spec_rsl(orig.skip(i as int), zero),
            out@.len() <= i,
        decreases n - i,
    {
        let inst = instructions[i];
        let ghost rest = orig.skip(i as int);
        let ghost out0 = out@;
        proof {
            assert(rest[0] == orig[i as int]);
            assert(rest.skip(1) =~= orig.skip(i as int + 1));
        }
        match inst {
            Instruction::JumpIfZero { .. } => {
                if zero {
                    match find_close(instructions, i) {
                        Some(j) => {
                            proof {
                                assert(rest.skip(j - i + 1) =~= orig.skip(j as int + 1));
                            }
                            i = j + 1;
                        },
                        None => {
                            proof {
                                assert(spec_rsl(rest, true) =~= Seq::<Instruction>::empty());
                                assert(orig.skip(n as int).len() == 0);
                                assert(out@ + spec_rsl(orig.skip(n as int), true) =~= out@);
                            }
                            i = n;
                            zero = true;
                        },
                    }
                } else {
                    out.push(inst);
                    proof {
                        assert(out@ =~= out0 + seq![orig[i as int]]);
                        assert(out0 + (seq![orig[i as int]] + spec_rsl(
                            orig.skip(i as int + 1),
                            false,
                        )) =~= (out0 + seq![orig[i as int]]) + spec_rsl(
                            orig.skip(i as int + 1),
                            false,
                        ));
                    }
                    i += 1;
                }
            },
            Instruction::Write(_) => {
                out.push(inst);
                proof {
                    assert(out@ =~= out0 + seq![orig[i as int]]);
                    assert(out0 + (seq![orig[i as int]] + spec_rsl(orig.skip(i as int + 1), zero))
                        =~= (out0 + seq![orig[i as int]]) + spec_rsl(orig.skip(i as int + 1), zero));
                }
                i += 1;
            },
            Instruction::JumpIfNotZero { .. }
            | Instruction::MoveRightToZero { .. }
            | Instruction::MoveLeftToZero { .. } => {
                out.push(inst);
                zero = true;
                proof {
                    assert(out@ =~= out0 + seq![orig[i as int]]);
                    assert(out0 + (seq![orig[i as int]] + spec_rsl(orig.skip(i as int + 1), true))
                        =~= (out0 + seq![orig[i as int]]) + spec_rsl(orig.skip(i as int + 1), true));
                }
                i += 1;
            },
            Instruction::SetValue(v) => {
                out.push(inst);
                zero = v == 0;
                proof {
                    assert(out@ =~= out0 + seq![orig[i as int]]);
                    assert(out0 + (seq![orig[i as int]] + spec_rsl(
                        orig.skip(i as int + 1),
                        v == 0,
                    )) =~= (out0 + seq![orig[i as int]]) + spec_rsl(orig.skip(i as int + 1), v == 0));
                }
                i += 1;
            },
            _ => {
                out.push(inst);
                zero = false;
                proof {
                    assert(out@ =~= out0 + seq![orig[i as int]]);
                    assert(out0 + (seq![orig[i as int]] + spec_rsl(orig.skip(i as int + 1), false))
                        =~= (out0 + seq![orig[i as int]]) + spec_rsl(
                        orig.skip(i as int + 1),
                        false,
                    ));
                }
                i += 1;
            },
        }
    }
    proof {
        assert(orig.skip(n as int).len() == 0);
        assert(out@ + spec_rsl(orig.skip(n as int), zero) =~= out@);
    }
    *instructions = out;
}

// ---------------------------------------------------------------------------
// Finalization: recomputing jump targets.
// ---------------------------------------------------------------------------

/// Bracket matching over the whole sequence with an explicit stack of
/// pending loop-open positions: each close pops its open and the two point
/// at each other. The branches for a close with nothing to pop keep the
/// function total; the executable pass excludes such input outright and
/// never reaches them.
pub open spec fn spec_fix_from(s: Seq<Instruction>, i: int, stack: Seq<int>) -> Seq<Instruction>
    decreases s.len() - i,
{
    if i < 0 || i >= s.len() {
        s
    } else {
        match s[i] {
            Instruction::JumpIfZero { .. } => spec_fix_from(
                s.update(i, Instruction::JumpIfZero { location: i as usize }),
                i + 1,
                stack.push(i),
            ),
            Instruction::JumpIfNotZero { .. } => {
                if stack.len() > 0 {
                    let j = stack.last();
                    if 0 <= j < s.len() {
                        spec_fix_from(
                            s.update(j, Instruction::JumpIfZero { location: i as usize }).update(
                                i,
                                Instruction::JumpIfNotZero { location: j as usize },
                            ),
                            i + 1,
                            stack.drop_last(),
                        )
                    } else {
                        spec_fix_from(s, i + 1, stack.drop_last())
                    }
                } else {
                    spec_fix_from(s, i + 1, stack)
                }
            },
            _ => spec_fix_from(s, i + 1, stack),
        }
    }
}

/// The finalization pass as a whole.
pub open spec fn spec_fix(s: Seq<Instruction>) -> Seq<Instruction> {
    spec_fix_from(s, 0, seq![])
}

// ---------------------------------------------------------------------------
// Bracket discipline. Finalization pops a pending loop-open for every
// loop-close; a close with no open pending is an internal-consistency
// violation that parsed input can never produce and that every rewriting
// pass is proved to preserve the absence of.
// ---------------------------------------------------------------------------

/// Scans the loop brackets of a sequence, starting with `depth` opens
/// pending: `None` when some close arrives with no open pending, else
/// `Some` of the count still pending at the end.
pub open spec fn scan_brackets(s: Seq<Instruction>, depth: int) -> Option<int>
    decreases s.len(),
{
    if s.len() == 0 {
        Some(depth)
    } else {
        match s[0] {
            Instruction::JumpIfZero { .. } => scan_brackets(s.skip(1), depth + 1),
            Instruction::JumpIfNotZero { .. } => if depth > 0 {
                scan_brackets(s.skip(1), depth - 1)
            } else {
                None
            },
            _ => scan_brackets(s.skip(1), depth),
        }
    }
}

/// Every loop-close has a pending loop-open. The parser only produces such
/// sequences, and each rewriting pass preserves the property.
pub open spec fn no_stray_close(s: Seq<Instruction>) -> bool {
    scan_brackets(s, 0) is Some
}

/// Bracket scans compose over concatenation.
pub proof fn lemma_scan_brackets_concat(a: Seq<Instruction>, b: Seq<Instruction>, depth: int)
    ensures
        scan_brackets(a + b, depth) == (match scan_brackets(a, depth) {
            Some(e) => scan_brackets(b, e),
            None => None::<int>,
        }),
    decreases a.len(),
{
    if a.len() == 0 {
        assert(a + b =~= b);
    } else {
        assert((a + b)[0] == a[0]);
        assert((a + b).skip(1) =~= a.skip(1) + b);
        match a[0] {
            Instruction::JumpIfZero { .. } => {
                lemma_scan_brackets_concat(a.skip(1), b, depth + 1);
            },
            Instruction::JumpIfNotZero { .. } => {
                if depth > 0 {
                    lemma_scan_brackets_concat(a.skip(1), b, depth - 1);
                }
            },
            _ => {
                lemma_scan_brackets_concat(a.skip(1), b, depth);
            },
        }
    }
}

/// Re-targeting a loop-open does not change the bracket scan: the scan
/// reads only which instructions open and close loops.
pub proof fn lemma_scan_brackets_update_open(s: Seq<Instruction>, x: int, loc: usize, depth: int)
    requires
        0 <= x < s.len(),
        s[x] is JumpIfZero,
    ensures
        scan_brackets(s.update(x, Instruction::JumpIfZero { location: loc }), depth)
            == scan_brackets(s, depth),
    decreases s.len(),
{
    let u = s.update(x, Instruction::JumpIfZero { location: loc });
    if x == 0 {
        assert(u.skip(1) =~= s.skip(1));
    } else {
        assert(u[0] == s[0]);
        assert(u.skip(1) =~= s.skip(1).update(x - 1, Instruction::JumpIfZero { location: loc }));
        match s[0] {
            Instruction::JumpIfZero { .. } => {
                lemma_scan_brackets_update_open(s.skip(1), x - 1, loc, depth + 1);
            },
            Instruction::JumpIfNotZero { .. } => {
                if depth > 0 {
                    lemma_scan_brackets_update_open(s.skip(1), x - 1, loc, depth - 1);
                }
            },
            _ => {
                lemma_scan_brackets_update_open(s.skip(1), x - 1, loc, depth);
            },
        }
    }
}

/// A sequence without jumps leaves the pending count unchanged.
proof fn lemma_scan_brackets_neutral(e: Seq<Instruction>, depth: int)
    requires
        forall|i: int|
            0 <= i < e.len() ==> !((#[trigger] e[i]) is JumpIfZero) && !(e[i] is JumpIfNotZero),
    ensures
        scan_brackets(e, depth) == Some(depth),
    decreases e.len(),
{
    if e.len() > 0 {
        assert(!(e[0] is JumpIfZero) && !(e[0] is JumpIfNotZero));
        lemma_scan_brackets_neutral(e.skip(1), depth);
    }
}

/// A merged run consists of one accumulator variant only, so skipping it
/// does not change the bracket scan.
proof fn lemma_scan_add_brackets(s: Seq<Instruction>, acc: i8, depth: int)
    ensures
        scan_brackets(s.skip(scan_add(s, acc).0 as int), depth) == scan_brackets(s, depth),
    decreases s.len(),
{
    if s.len() > 0 && s[0] is Add {
        match s[0] {
            Instruction::Add(m) => {
                lemma_scan_add_le(s.skip(1), acc.wrapping_add(m));
                lemma_scan_add_brackets(s.skip(1), acc.wrapping_add(m), depth);
                assert(s.skip(1).skip(scan_add(s.skip(1), acc.wrapping_add(m)).0 as int) =~= s.skip(
                    scan_add(s, acc).0 as int,
                ));
            },
            _ => {},
        }
    } else {
        assert(s.skip(0) =~= s);
    }
}

proof fn lemma_scan_move_brackets(s: Seq<Instruction>, acc: isize, depth: int)
    ensures
        scan_brackets(s.skip(scan_move(s, acc).0 as int), depth) == scan_brackets(s, depth),
    decreases s.len(),
{
    if s.len() > 0 && s[0] is Move {
        match s[0] {
            Instruction::Move(m) => {
                if isize::MIN <= acc + m <= isize::MAX {
                    lemma_scan_move_le(s.skip(1), (acc + m) as isize);
                    lemma_scan_move_brackets(s.skip(1), (acc + m) as isize, depth);
                    assert(s.skip(1).skip(scan_move(s.skip(1), (acc + m) as isize).0 as int)
                        =~= s.skip(scan_move(s, acc).0 as int));
                } else {
                    assert(s.skip(0) =~= s);
                }
            },
            _ => {},
        }
    } else {
        assert(s.skip(0) =~= s);
    }
}

proof fn lemma_scan_write_brackets(s: Seq<Instruction>, acc: usize, depth: int)
    ensures
        scan_brackets(s.skip(scan_write(s, acc).0 as int), depth) == scan_brackets(s, depth),
    decreases s.len(),
{
    if s.len() > 0 && s[0] is Write {
        match s[0] {
            Instruction::Write(m) => {
                if acc + m <= usize::MAX {
                    lemma_scan_write_le(s.skip(1), (acc + m) as usize);
                    lemma_scan_write_brackets(s.skip(1), (acc + m) as usize, depth);
                    assert(s.skip(1).skip(scan_write(s.skip(1), (acc + m) as usize).0 as int)
                        =~= s.skip(scan_write(s, acc).0 as int));
                } else {
                    assert(s.skip(0) =~= s);
                }
            },
            _ => {},
        }
    } else {
        assert(s.skip(0) =~= s);
    }
}

proof fn lemma_scan_read_brackets(s: Seq<Instruction>, acc: usize, depth: int)
    ensures
        scan_brackets(s.skip(scan_read(s, acc).0 as int), depth) == scan_brackets(s, depth),
    decreases s.len(),
{
    if s.len() > 0 && s[0] is Read {
        match s[0] {
            Instruction::Read(m) => {
                if acc + m <= usize::MAX {
                    lemma_scan_read_le(s.skip(1), (acc + m) as usize);
                    lemma_scan_read_brackets(s.skip(1), (acc + m) as usize, depth);
                    assert(s.skip(1).skip(scan_read(s.skip(1), (acc + m) as usize).0 as int)
                        =~= s.skip(scan_read(s, acc).0 as int));
                } else {
                    assert(s.skip(0) =~= s);
                }
            },
            _ => {},
        }
    } else {
        assert(s.skip(0) =~= s);
    }
}

proof fn lemma_scan_set_brackets(s: Seq<Instruction>, cur: i8, depth: int)
    ensures
        scan_brackets(s.skip(scan_set(s, cur).0 as int), depth) == scan_brackets(s, depth),
    decreases s.len(),
{
    if s.len() > 0 && s[0] is SetValue {
        match s[0] {
            Instruction::SetValue(v) => {
                lemma_scan_set_le(s.skip(1), v);
                lemma_scan_set_brackets(s.skip(1), v, depth);
                assert(s.skip(1).skip(scan_set(s.skip(1), v).0 as int) =~= s.skip(
                    scan_set(s, cur).0 as int,
                ));
            },
            _ => {},
        }
    } else {
        assert(s.skip(0) =~= s);
    }
}

proof fn lemma_scan_addrel_brackets(s: Seq<Instruction>, off: isize, acc: i8, depth: int)
    ensures
        scan_brackets(s.skip(scan_addrel(s, off, acc).0 as int), depth) == scan_brackets(s, depth),
    decreases s.len(),
{
    if s.len() > 0 && s[0] is AddRelative {
        match s[0] {
            Instruction::AddRelative { offset, amount } => {
                if offset == off {
                    lemma_scan_addrel_le(s.skip(1), off, acc.wrapping_add(amount));
                    lemma_scan_addrel_brackets(s.skip(1), off, acc.wrapping_add(amount), depth);
                    assert(s.skip(1).skip(
                        scan_addrel(s.skip(1), off, acc.wrapping_add(amount)).0 as int,
                    ) =~= s.skip(scan_addrel(s, off, acc).0 as int));
                } else {
                    assert(s.skip(0) =~= s);
                }
            },
            _ => {},
        }
    } else {
        assert(s.skip(0) =~= s);
    }
}

proof fn lemma_scan_addvec_brackets(s: Seq<Instruction>, acc: [i8; 4], depth: int)
    ensures
        scan_brackets(s.skip(scan_addvec(s, acc).0 as int), depth) == scan_brackets(s, depth),
    decreases s.len(),
{
    if s.len() > 0 && s[0] is AddVector {
        match s[0] {
            Instruction::AddVector { vector } => {
                lemma_scan_addvec_le(s.skip(1), lanes_sum(acc, vector));
                lemma_scan_addvec_brackets(s.skip(1), lanes_sum(acc, vector), depth);
                assert(s.skip(1).skip(scan_addvec(s.skip(1), lanes_sum(acc, vector)).0 as int)
                    =~= s.skip(scan_addvec(s, acc).0 as int));
            },
            _ => {},
        }
    } else {
        assert(s.skip(0) =~= s);
    }
}

proof fn lemma_scan_mtz_brackets(s: Seq<Instruction>, depth: int)
    ensures
        scan_brackets(s.skip(scan_mtz(s) as int), depth) == scan_brackets(s, depth),
    decreases s.len(),
{
    if s.len() > 0 && (s[0] is MoveRightToZero || s[0] is MoveLeftToZero) {
        lemma_scan_mtz_le(s.skip(1));
        lemma_scan_mtz_brackets(s.skip(1), depth);
        assert(s.skip(1).skip(scan_mtz(s.skip(1)) as int) =~= s.skip(scan_mtz(s) as int));
    } else {
        assert(s.skip(0) =~= s);
    }
}

/// The squash pass leaves the bracket scan unchanged: jumps pass through
/// it untouched and merged runs hold no jumps.
proof fn lemma_squash_brackets(s: Seq<Instruction>, depth: int)
    ensures
        scan_brackets(spec_squash(s), depth) == scan_brackets(s, depth),
    decreases s.len(),
{
    if s.len() == 0 {
    } else {
        match s[0] {
            Instruction::Add(a) => {
                let r = scan_add(s.skip(1), a);
                lemma_scan_add_le(s.skip(1), a);
                lemma_scan_add_brackets(s.skip(1), a, depth);
                assert(s.skip(1).skip(r.0 as int) =~= s.skip(1 + r.0 as int));
                lemma_squash_brackets(s.skip(1 + r.0 as int), depth);
                lemma_scan_brackets_neutral(emit_add(r.1), depth);
                lemma_scan_brackets_concat(emit_add(r.1), spec_squash(s.skip(1 + r.0 as int)), depth);
            },
            Instruction::Move(m) => {
                let r = scan_move(s.skip(1), m);
                lemma_scan_move_le(s.skip(1), m);
                lemma_scan_move_brackets(s.skip(1), m, depth);
                assert(s.skip(1).skip(r.0 as int) =~= s.skip(1 + r.0 as int));
                lemma_squash_brackets(s.skip(1 + r.0 as int), depth);
                lemma_scan_brackets_neutral(emit_move(r.1), depth);
                lemma_scan_brackets_concat(
                    emit_move(r.1),
                    spec_squash(s.skip(1 + r.0 as int)),
                    depth,
                );
            },
            Instruction::Write(c) => {
                let r = scan_write(s.skip(1), c);
                lemma_scan_write_le(s.skip(1), c);
                lemma_scan_write_brackets(s.skip(1), c, depth);
                assert(s.skip(1).skip(r.0 as int) =~= s.skip(1 + r.0 as int));
                lemma_squash_brackets(s.skip(1 + r.0 as int), depth);
                lemma_scan_brackets_neutral(emit_write(r.1), depth);
                lemma_scan_brackets_concat(
                    emit_write(r.1),
                    spec_squash(s.skip(1 + r.0 as int)),
                    depth,
                );
            },
            Instruction::Read(c) => {
                let r = scan_read(s.skip(1), c);
                lemma_scan_read_le(s.skip(1), c);
                lemma_scan_read_brackets(s.skip(1), c, depth);
                assert(s.skip(1).skip(r.0 as int) =~= s.skip(1 + r.0 as int));
                lemma_squash_brackets(s.skip(1 + r.0 as int), depth);
                lemma_scan_brackets_neutral(emit_read(r.1), depth);
                lemma_scan_brackets_concat(
                    emit_read(r.1),
                    spec_squash(s.skip(1 + r.0 as int)),
                    depth,
                );
            },
            Instruction::SetValue(v) => {
                let r = scan_set(s.skip(1), v);
                lemma_scan_set_le(s.skip(1), v);
                lemma_scan_set_brackets(s.skip(1), v, depth);
                assert(s.skip(1).skip(r.0 as int) =~= s.skip(1 + r.0 as int));
                lemma_squash_brackets(s.skip(1 + r.0 as int), depth);
                lemma_scan_brackets_neutral(seq![Instruction::SetValue(r.1)], depth);
                lemma_scan_brackets_concat(
                    seq![Instruction::SetValue(r.1)],
                    spec_squash(s.skip(1 + r.0 as int)),
                    depth,
                );
            },
            Instruction::AddRelative { offset, amount } => {
                let r = scan_addrel(s.skip(1), offset, amount);
                lemma_scan_addrel_le(s.skip(1), offset, amount);
                lemma_scan_addrel_brackets(s.skip(1), offset, amount, depth);
                assert(s.skip(1).skip(r.0 as int) =~= s.skip(1 + r.0 as int));
                lemma_squash_brackets(s.skip(1 + r.0 as int), depth);
                lemma_scan_brackets_neutral(emit_addrel(offset, r.1), depth);
                lemma_scan_brackets_concat(
                    emit_addrel(offset, r.1),
                    spec_squash(s.skip(1 + r.0 as int)),
                    depth,
                );
            },
            Instruction::AddVector { vector } => {
                let r = scan_addvec(s.skip(1), vector);
                lemma_scan_addvec_le(s.skip(1), vector);
                lemma_scan_addvec_brackets(s.skip(1), vector, depth);
                assert(s.skip(1).skip(r.0 as int) =~= s.skip(1 + r.0 as int));
                lemma_squash_brackets(s.skip(1 + r.0 as int), depth);
                lemma_scan_brackets_neutral(emit_addvec(r.1), depth);
                lemma_scan_brackets_concat(
                    emit_addvec(r.1),
                    spec_squash(s.skip(1 + r.0 as int)),
                    depth,
                );
            },
            Instruction::AddVectorMove { stride, vector } => {
                lemma_squash_brackets(s.skip(1), depth);
                lemma_scan_brackets_neutral(emit_avm(stride, vector), depth);
                lemma_scan_brackets_concat(emit_avm(stride, vector), spec_squash(s.skip(1)), depth);
            },
            Instruction::MoveRightToZero { .. } | Instruction::MoveLeftToZero { .. } => {
                let k = scan_mtz(s.skip(1));
                lemma_scan_mtz_le(s.skip(1));
                lemma_scan_mtz_brackets(s.skip(1), depth);
                assert(s.skip(1).skip(k as int) =~= s.skip(1 + k as int));
                lemma_squash_brackets(s.skip(1 + k as int), depth);
                lemma_scan_brackets_neutral(seq![s[0]], depth);
                lemma_scan_brackets_concat(seq![s[0]], spec_squash(s.skip(1 + k as int)), depth);
            },
            Instruction::JumpIfZero { .. } => {
                lemma_squash_brackets(s.skip(1), depth + 1);
                assert(seq![s[0]].skip(1) =~= Seq::<Instruction>::empty());
                assert(scan_brackets(Seq::<Instruction>::empty(), depth + 1) == Some(depth + 1));
                assert(scan_brackets(seq![s[0]], depth) == Some(depth + 1));
                lemma_scan_brackets_concat(seq![s[0]], spec_squash(s.skip(1)), depth);
            },
            Instruction::JumpIfNotZero { .. } => {
                assert(seq![s[0]].skip(1) =~= Seq::<Instruction>::empty());
                if depth > 0 {
                    assert(scan_brackets(Seq::<Instruction>::empty(), depth - 1) == Some(
                        depth - 1,
                    ));
                    assert(scan_brackets(seq![s[0]], depth) == Some(depth - 1));
                    lemma_squash_brackets(s.skip(1), depth - 1);
                } else {
                    assert(scan_brackets(seq![s[0]], depth) == None::<int>);
                }
                lemma_scan_brackets_concat(seq![s[0]], spec_squash(s.skip(1)), depth);
            },
        }
    }
}

/// The bracket effect of one instruction.
pub proof fn lemma_scan_brackets_single(x: Instruction, depth: int)
    ensures
        scan_brackets(seq![x], depth) == (match x {
            Instruction::JumpIfZero { .. } => Some(depth + 1),
            Instruction::JumpIfNotZero { .. } => if depth > 0 {
                Some(depth - 1)
            } else {
                None::<int>
            },
            _ => Some(depth),
        }),
{
    assert(seq![x].skip(1) =~= Seq::<Instruction>::empty());
    assert(scan_brackets(Seq::<Instruction>::empty(), depth + 1) == Some(depth + 1));
    assert(scan_brackets(Seq::<Instruction>::empty(), depth - 1) == Some(depth - 1));
    assert(scan_brackets(Seq::<Instruction>::empty(), depth) == Some(depth));
}

/// A whole bracketed loop of one body instruction is bracket-neutral.
proof fn lemma_scan_brackets_loop3(a: Instruction, b: Instruction, c: Instruction, depth: int)
    requires
        depth >= 0,
        a is JumpIfZero,
        c is JumpIfNotZero,
        !(b is JumpIfZero),
        !(b is JumpIfNotZero),
    ensures
        scan_brackets(seq![a, b, c], depth) == Some(depth),
{
    assert(seq![a, b, c].skip(1) =~= seq![b, c]);
    assert(seq![b, c].skip(1) =~= seq![c]);
    assert(seq![c].skip(1) =~= Seq::<Instruction>::empty());
    assert(scan_brackets(Seq::<Instruction>::empty(), depth) == Some(depth));
    assert(scan_brackets(seq![c], depth + 1) == Some(depth));
    assert(scan_brackets(seq![b, c], depth + 1) == Some(depth));
}

/// A whole bracketed loop of two body instructions is bracket-neutral.
proof fn lemma_scan_brackets_loop4(
    a: Instruction,
    b: Instruction,
    c: Instruction,
    d: Instruction,
    depth: int,
)
    requires
        depth >= 0,
        a is JumpIfZero,
        d is JumpIfNotZero,
        !(b is JumpIfZero),
        !(b is JumpIfNotZero),
        !(c is JumpIfZero),
        !(c is JumpIfNotZero),
    ensures
        scan_brackets(seq![a, b, c, d], depth) == Some(depth),
{
    assert(seq![a, b, c, d].skip(1) =~= seq![b, c, d]);
    assert(seq![b, c, d].skip(1) =~= seq![c, d]);
    assert(seq![c, d].skip(1) =~= seq![d]);
    assert(seq![d].skip(1) =~= Seq::<Instruction>::empty());
    assert(scan_brackets(Seq::<Instruction>::empty(), depth) == Some(depth));
    assert(scan_brackets(seq![d], depth + 1) == Some(depth));
    assert(scan_brackets(seq![c, d], depth + 1) == Some(depth));
    assert(scan_brackets(seq![b, c, d], depth + 1) == Some(depth));
}

/// A two-instruction match and its replacement are both bracket-neutral.
proof fn lemma_match2_brackets(a: Instruction, b: Instruction, r: Seq<Instruction>, depth: int)
    requires
        spec_match2(a, b) == Some(r),
    ensures
        scan_brackets(seq![a, b], depth) == Some(depth),
        scan_brackets(r, depth) == Some(depth),
{
    lemma_scan_brackets_neutral(seq![a, b], depth);
    lemma_scan_brackets_neutral(r, depth);
}

/// A three-instruction match and its replacement are both bracket-neutral.
proof fn lemma_match3_brackets(
    a: Instruction,
    b: Instruction,
    c: Instruction,
    r: Seq<Instruction>,
    depth: int,
)
    requires
        depth >= 0,
        spec_match3(a, b, c) == Some(r),
    ensures
        scan_brackets(seq![a, b, c], depth) == Some(depth),
        scan_brackets(r, depth) == Some(depth),
{
    lemma_scan_brackets_neutral(r, depth);
    if a is JumpIfZero {
        lemma_scan_brackets_loop3(a, b, c, depth);
    } else {
        lemma_scan_brackets_neutral(seq![a, b, c], depth);
    }
}

/// A four-instruction match and its replacement are both bracket-neutral.
proof fn lemma_match4_brackets(
    a: Instruction,
    b: Instruction,
    c: Instruction,
    d: Instruction,
    r: Seq<Instruction>,
    depth: int,
)
    requires
        depth >= 0,
        spec_match4(a, b, c, d) == Some(r),
    ensures
        scan_brackets(seq![a, b, c, d], depth) == Some(depth),
        scan_brackets(r, depth) == Some(depth),
{
    lemma_scan_brackets_neutral(r, depth);
    if a is JumpIfZero {
        lemma_scan_brackets_loop4(a, b, c, d, depth);
    } else {
        lemma_scan_brackets_neutral(seq![a, b, c, d], depth);
    }
}

/// The two-instruction window pass leaves the bracket scan unchanged.
proof fn lemma_sub2_brackets(s: Seq<Instruction>, depth: int)
    requires
        depth >= 0,
    ensures
        scan_brackets(spec_sub2(s), depth) == scan_brackets(s, depth),
    decreases s.len(),
{
    if s.len() < 2 {
    } else {
        match spec_match2(s[0], s[1]) {
            Some(r) => {
                lemma_match2_brackets(s[0], s[1], r, depth);
                assert(s =~= seq![s[0], s[1]] + s.skip(2));
                lemma_scan_brackets_concat(seq![s[0], s[1]], s.skip(2), depth);
                lemma_sub2_brackets(s.skip(2), depth);
                lemma_scan_brackets_concat(r, spec_sub2(s.skip(2)), depth);
            },
            None => {
                lemma_scan_brackets_single(s[0], depth);
                match s[0] {
                    Instruction::JumpIfZero { .. } => {
                        lemma_sub2_brackets(s.skip(1), depth + 1);
                    },
                    Instruction::JumpIfNotZero { .. } => {
                        if depth > 0 {
                            lemma_sub2_brackets(s.skip(1), depth - 1);
                        }
                    },
                    _ => {
                        lemma_sub2_brackets(s.skip(1), depth);
                    },
                }
                lemma_scan_brackets_concat(seq![s[0]], spec_sub2(s.skip(1)), depth);
            },
        }
    }
}

/// The three-instruction window pass leaves the bracket scan unchanged.
proof fn lemma_sub3_brackets(s: Seq<Instruction>, depth: int)
    requires
        depth >= 0,
    ensures
        scan_brackets(spec_sub3(s), depth) == scan_brackets(s, depth),
    decreases s.len(),
{
    if s.len() < 3 {
    } else {
        match spec_match3(s[0], s[1], s[2]) {
            Some(r) => {
                lemma_match3_brackets(s[0], s[1], s[2], r, depth);
                assert(s =~= seq![s[0], s[1], s[2]] + s.skip(3));
                lemma_scan_brackets_concat(seq![s[0], s[1], s[2]], s.skip(3), depth);
                lemma_sub3_brackets(s.skip(3), depth);
                lemma_scan_brackets_concat(r, spec_sub3(s.skip(3)), depth);
            },
            None => {
                lemma_scan_brackets_single(s[0], depth);
                match s[0] {
                    Instruction::JumpIfZero { .. } => {
                        lemma_sub3_brackets(s.skip(1), depth + 1);
                    },
                    Instruction::JumpIfNotZero { .. } => {
                        if depth > 0 {
                            lemma_sub3_brackets(s.skip(1), depth - 1);
                        }
                    },
                    _ => {
                        lemma_sub3_brackets(s.skip(1), depth);
                    },
                }
                lemma_scan_brackets_concat(seq![s[0]], spec_sub3(s.skip(1)), depth);
            },
        }
    }
}

/// The four-instruction window pass leaves the bracket scan unchanged.
proof fn lemma_sub4_brackets(s: Seq<Instruction>, depth: int)
    requires
        depth >= 0,
    ensures
        scan_brackets(spec_sub4(s), depth) == scan_brackets(s, depth),
    decreases s.len(),
{
    if s.len() < 4 {
    } else {
        match spec_match4(s[0], s[1], s[2], s[3]) {
            Some(r) => {
                lemma_match4_brackets(s[0], s[1], s[2], s[3], r, depth);
                assert(s =~= seq![s[0], s[1], s[2], s[3]] + s.skip(4));
                lemma_scan_brackets_concat(seq![s[0], s[1], s[2], s[3]], s.skip(4), depth);
                lemma_sub4_brackets(s.skip(4), depth);
                lemma_scan_brackets_concat(r, spec_sub4(s.skip(4)), depth);
            },
            None => {
                lemma_scan_brackets_single(s[0], depth);
                match s[0] {
                    Instruction::JumpIfZero { .. } => {
                        lemma_sub4_brackets(s.skip(1), depth + 1);
                    },
                    Instruction::JumpIfNotZero { .. } => {
                        if depth > 0 {
                            lemma_sub4_brackets(s.skip(1), depth - 1);
                        }
                    },
                    _ => {
                        lemma_sub4_brackets(s.skip(1), depth);
                    },
                }
                lemma_scan_brackets_concat(seq![s[0]], spec_sub4(s.skip(1)), depth);
            },
        }
    }
}

/// The span from `from` up to and including the close that matches nesting
/// `depth` closes exactly `depth + 1` pending opens.
proof fn lemma_close_span_brackets(s: Seq<Instruction>, from: int, dep: int, j: int, d: int)
    requires
        close_idx(s, from, dep) == Some(j),
        0 <= dep,
        d >= dep + 1,
        0 <= from,
    ensures
        scan_brackets(s.subrange(from, j + 1), d) == Some(d - dep - 1),
    decreases s.len() - from,
{
    lemma_close_idx_bounds(s, from, dep);
    let seg = s.subrange(from, j + 1);
    assert(seg[0] == s[from]);
    assert(seg.skip(1) =~= s.subrange(from + 1, j + 1));
    match s[from] {
        Instruction::JumpIfZero { .. } => {
            lemma_close_span_brackets(s, from + 1, dep + 1, j, d + 1);
            assert(scan_brackets(seg, d) == Some(d - dep - 1));
        },
        Instruction::JumpIfNotZero { .. } => {
            if dep == 0 {
                assert(seg.len() == 1);
                assert(s.subrange(from + 1, j + 1) =~= Seq::<Instruction>::empty());
                assert(scan_brackets(Seq::<Instruction>::empty(), d - 1) == Some(d - 1));
                assert(scan_brackets(seg, d) == Some(d - dep - 1));
            } else {
                lemma_close_span_brackets(s, from + 1, dep - 1, j, d - 1);
                assert(scan_brackets(seg, d) == Some(d - dep - 1));
            }
        },
        _ => {
            lemma_close_span_brackets(s, from + 1, dep, j, d);
            assert(scan_brackets(seg, d) == Some(d - dep - 1));
        },
    }
}

/// Dead-loop elimination keeps every loop-close matched: it drops whole
/// loops, which are bracket-neutral, and copies everything else.
proof fn lemma_rsl_brackets(s: Seq<Instruction>, z: bool, depth: int)
    requires
        depth >= 0,
        scan_brackets(s, depth) is Some,
    ensures
        scan_brackets(spec_rsl(s, z), depth) is Some,
    decreases s.len(),
{
    if s.len() == 0 {
    } else {
        lemma_scan_brackets_single(s[0], depth);
        match s[0] {
            Instruction::JumpIfZero { .. } => {
                if z {
                    match close_idx(s, 1, 0) {
                        Some(j) => {
                            lemma_close_idx_bounds(s, 1, 0);
                            assert(s.skip(1) =~= s.subrange(1, j + 1) + s.skip(j + 1));
                            lemma_scan_brackets_concat(
                                s.subrange(1, j + 1),
                                s.skip(j + 1),
                                depth + 1,
                            );
                            lemma_close_span_brackets(s, 1, 0, j, depth + 1);
                            lemma_rsl_brackets(s.skip(j + 1), true, depth);
                        },
                        None => {
                            assert(scan_brackets(Seq::<Instruction>::empty(), depth) == Some(
                                depth,
                            ));
                        },
                    }
                } else {
                    lemma_rsl_brackets(s.skip(1), false, depth + 1);
                    lemma_scan_brackets_concat(seq![s[0]], spec_rsl(s.skip(1), false), depth);
                }
            },
            Instruction::Write(_) => {
                lemma_rsl_brackets(s.skip(1), z, depth);
                lemma_scan_brackets_concat(seq![s[0]], spec_rsl(s.skip(1), z), depth);
            },
            Instruction::JumpIfNotZero { .. } => {
                lemma_rsl_brackets(s.skip(1), true, depth - 1);
                lemma_scan_brackets_concat(seq![s[0]], spec_rsl(s.skip(1), true), depth);
            },
            Instruction::MoveRightToZero { .. } | Instruction::MoveLeftToZero { .. } => {
                lemma_rsl_brackets(s.skip(1), true, depth);
                lemma_scan_brackets_concat(seq![s[0]], spec_rsl(s.skip(1), true), depth);
            },
            Instruction::SetValue(v) => {
                lemma_rsl_brackets(s.skip(1), v == 0, depth);
                lemma_scan_brackets_concat(seq![s[0]], spec_rsl(s.skip(1), v == 0), depth);
            },
            _ => {
                lemma_rsl_brackets(s.skip(1), false, depth);
                lemma_scan_brackets_concat(seq![s[0]], spec_rsl(s.skip(1), false), depth);
            },
        }
    }
}

/// One full cycle of the five passes keeps every loop-close matched.
pub proof fn lemma_cycle_no_stray_close(s: Seq<Instruction>)
    requires
        no_stray_close(s),
    ensures
        no_stray_close(spec_cycle(s)),
{
    lemma_squash_brackets(s, 0);
    lemma_sub4_brackets(spec_squash(s), 0);
    lemma_sub3_brackets(spec_sub4(spec_squash(s)), 0);
    lemma_sub2_brackets(spec_sub3(spec_sub4(spec_squash(s))), 0);
    lemma_rsl_brackets(spec_sub2(spec_sub3(spec_sub4(spec_squash(s)))), true, 0);
}

/// A well-formed pending-open stack at position `i`: every entry is an
/// earlier position holding a loop-open that points at itself, and the
/// entries grow strictly.
pub open spec fn stack_ok(s: Seq<Instruction>, i: int, st: Seq<int>) -> bool {
    &&& (forall|k: int| 0 <= k < st.len() ==> 0 <= #[trigger] st[k] < i)
    &&& (forall|k: int|
        0 <= k < st.len() ==> s[#[trigger] st[k]] == (Instruction::JumpIfZero {
            location: st[k] as usize,
        }))
    &&& (forall|k1: int, k2: int| 0 <= k1 < k2 < st.len() ==> #[trigger] st[k1] < #[trigger] st[k2])
}

/// Two sequences have the same bracket shape: equal length, loop-opens and
/// loop-closes in the same places.
pub open spec fn same_shape(a: Seq<Instruction>, b: Seq<Instruction>) -> bool {
    &&& a.len() == b.len()
    &&& (forall|q: int|
        0 <= q < a.len() ==> ((#[trigger] a[q]) is JumpIfZero <==> (#[trigger] b[q]) is JumpIfZero))
    &&& (forall|q: int|
        0 <= q < a.len() ==> ((#[trigger] a[q]) is JumpIfNotZero <==> (
        #[trigger] b[q]) is JumpIfNotZero))
}

/// Finalization preserves the length.
proof fn lemma_fix_len(s: Seq<Instruction>, i: int, st: Seq<int>)
    ensures
        spec_fix_from(s, i, st).len() == s.len(),
    decreases s.len() - i,
{
    if 0 <= i < s.len() {
        match s[i] {
            Instruction::JumpIfZero { .. } => {
                lemma_fix_len(
                    s.update(i, Instruction::JumpIfZero { location: i as usize }),
                    i + 1,
                    st.push(i),
                );
            },
            Instruction::JumpIfNotZero { .. } => {
                if st.len() > 0 {
                    let j = st.last();
                    if 0 <= j < s.len() {
                        lemma_fix_len(
                            s.update(j, Instruction::JumpIfZero { location: i as usize }).update(
                                i,
                                Instruction::JumpIfNotZero { location: j as usize },
                            ),
                            i + 1,
                            st.drop_last(),
                        );
                    } else {
                        lemma_fix_len(s, i + 1, st.drop_last());
                    }
                } else {
                    lemma_fix_len(s, i + 1, st);
                }
            },
            _ => {
                lemma_fix_len(s, i + 1, st);
            },
        }
    }
}

/// The matching-close scan never looks at positions before its start.
proof fn lemma_close_idx_update_below(s: Seq<Instruction>, x: int, v: Instruction, from: int, depth: int)
    requires
        0 <= x < s.len(),
        x < from,
    ensures
        close_idx(s.update(x, v), from, depth) == close_idx(s, from, depth),
    decreases s.len() - from,
{
    if 0 <= from < s.len() {
        match s[from] {
            Instruction::JumpIfZero { .. } => {
                lemma_close_idx_update_below(s, x, v, from + 1, depth + 1);
            },
            Instruction::JumpIfNotZero { .. } => {
                if depth != 0 {
                    lemma_close_idx_update_below(s, x, v, from + 1, depth - 1);
                }
            },
            _ => {
                lemma_close_idx_update_below(s, x, v, from + 1, depth);
            },
        }
    }
}

/// The matching-close scan reads only the bracket shape.
proof fn lemma_close_idx_shape(a: Seq<Instruction>, b: Seq<Instruction>, from: int, depth: int)
    requires
        same_shape(a, b),
    ensures
        close_idx(a, from, depth) == close_idx(b, from, depth),
    decreases a.len() - from,
{
    if 0 <= from < a.len() {
        match a[from] {
            Instruction::JumpIfZero { .. } => {
                lemma_close_idx_shape(a, b, from + 1, depth + 1);
            },
            Instruction::JumpIfNotZero { .. } => {
                if depth != 0 {
                    lemma_close_idx_shape(a, b, from + 1, depth - 1);
                }
            },
            _ => {
                lemma_close_idx_shape(a, b, from + 1, depth);
            },
        }
    }
}

/// Bracket shape is transitive.
proof fn lemma_shape_trans(a: Seq<Instruction>, b: Seq<Instruction>, c: Seq<Instruction>)
    requires
        same_shape(a, b),
        same_shape(b, c),
    ensures
        same_shape(a, c),
{
    assert forall|q: int| 0 <= q < a.len() implies ((#[trigger] a[q]) is JumpIfZero <==> (
    #[trigger] c[q]) is JumpIfZero) by {
        assert((b[q] is JumpIfZero <==> a[q] is JumpIfZero));
    }
    assert forall|q: int| 0 <= q < a.len() implies ((#[trigger] a[q]) is JumpIfNotZero <==> (
    #[trigger] c[q]) is JumpIfNotZero) by {
        assert((b[q] is JumpIfNotZero <==> a[q] is JumpIfNotZero));
    }
}

/// Finalization preserves the bracket shape, provided every stack entry
/// names a loop-open.
proof fn lemma_fix_shape(s: Seq<Instruction>, i: int, st: Seq<int>)
    requires
        forall|k: int| 0 <= k < st.len() ==> 0 <= #[trigger] st[k] < s.len(),
        forall|k: int| 0 <= k < st.len() ==> s[#[trigger] st[k]] is JumpIfZero,
    ensures
        same_shape(s, spec_fix_from(s, i, st)),
    decreases s.len() - i,
{
    if !(0 <= i < s.len()) {
    } else {
        match s[i] {
            Instruction::JumpIfZero { .. } => {
                let s1 = s.update(i, Instruction::JumpIfZero { location: i as usize });
                lemma_fix_shape(s1, i + 1, st.push(i));
                assert(same_shape(s, s1));
                lemma_shape_trans(s, s1, spec_fix_from(s1, i + 1, st.push(i)));
            },
            Instruction::JumpIfNotZero { .. } => {
                if st.len() > 0 {
                    let j = st.last();
                    if 0 <= j < s.len() {
                        let s2 = s.update(j, Instruction::JumpIfZero { location: i as usize })
                            .update(i, Instruction::JumpIfNotZero { location: j as usize });
                        lemma_fix_shape(s2, i + 1, st.drop_last());
                        assert(same_shape(s, s2));
                        lemma_shape_trans(s, s2, spec_fix_from(s2, i + 1, st.drop_last()));
                    } else {
                        lemma_fix_shape(s, i + 1, st.drop_last());
                    }
                } else {
                    lemma_fix_shape(s, i + 1, st);
                }
            },
            _ => {
                lemma_fix_shape(s, i + 1, st);
            },
        }
    }
}

/// Finalization touches only positions at or after `i` and positions on
/// the stack.
proof fn lemma_fix_untouched(s: Seq<Instruction>, i: int, st: Seq<int>, q: int)
    requires
        0 <= q < s.len(),
        q < i,
        forall|k: int| 0 <= k < st.len() ==> #[trigger] st[k] != q,
    ensures
        spec_fix_from(s, i, st)[q] == s[q],
    decreases s.len() - i,
{
    if 0 <= i < s.len() {
        match s[i] {
            Instruction::JumpIfZero { .. } => {
                let s1 = s.update(i, Instruction::JumpIfZero { location: i as usize });
                lemma_fix_untouched(s1, i + 1, st.push(i), q);
            },
            Instruction::JumpIfNotZero { .. } => {
                if st.len() > 0 {
                    let j = st.last();
                    if 0 <= j < s.len() {
                        let s2 = s.update(j, Instruction::JumpIfZero { location: i as usize })
                            .update(i, Instruction::JumpIfNotZero { location: j as usize });
                        lemma_fix_untouched(s2, i + 1, st.drop_last(), q);
                    } else {
                        lemma_fix_untouched(s, i + 1, st.drop_last(), q);
                    }
                } else {
                    lemma_fix_untouched(s, i + 1, st, q);
                }
            },
            _ => {
                lemma_fix_untouched(s, i + 1, st, q);
            },
        }
    }
}

/// A stack entry whose matching close never comes keeps its value.
proof fn lemma_fix_unpopped(s: Seq<Instruction>, i: int, st: Seq<int>, d: int)
    requires
        0 <= i <= s.len(),
        stack_ok(s, i, st),
        0 <= d < st.len(),
        close_idx(s, i, d) is None,
    ensures
        spec_fix_from(s, i, st)[st[st.len() - 1 - d]] == s[st[st.len() - 1 - d]],
    decreases s.len() - i,
{
    let p = st[st.len() - 1 - d];
    if i >= s.len() {
    } else {
        match s[i] {
            Instruction::JumpIfZero { .. } => {
                let s1 = s.update(i, Instruction::JumpIfZero { location: i as usize });
                let st1 = st.push(i);
                assert(st1[st1.len() - 1 - (d + 1)] == p);
                assert(stack_ok(s1, i + 1, st1));
                lemma_close_idx_update_below(s, i, Instruction::JumpIfZero { location: i as usize }, i + 1, d + 1);
                lemma_fix_unpopped(s1, i + 1, st1, d + 1);
            },
            Instruction::JumpIfNotZero { .. } => {
                if st.len() > 0 {
                    let j = st.last();
                    assert(0 <= j < s.len());
                    if d == 0 {
                        assert(close_idx(s, i, d) == Some(i));
                    } else {
                        let s2 = s.update(j, Instruction::JumpIfZero { location: i as usize })
                            .update(i, Instruction::JumpIfNotZero { location: j as usize });
                        let st2 = st.drop_last();
                        assert(st2[st2.len() - 1 - (d - 1)] == p);
                        assert(p != j);
                        assert(stack_ok(s2, i + 1, st2));
                        lemma_close_idx_update_below(
                            s,
                            j,
                            Instruction::JumpIfZero { location: i as usize },
                            i + 1,
                            d - 1,
                        );
                        lemma_close_idx_update_below(
                            s.update(j, Instruction::JumpIfZero { location: i as usize }),
                            i,
                            Instruction::JumpIfNotZero { location: j as usize },
                            i + 1,
                            d - 1,
                        );
                        lemma_fix_unpopped(s2, i + 1, st2, d - 1);
                    }
                } else {
                    assert(stack_ok(s, i + 1, st));
                    lemma_fix_unpopped(s, i + 1, st, d);
                }
            },
            _ => {
                assert(stack_ok(s, i + 1, st));
                lemma_fix_unpopped(s, i + 1, st, d);
            },
        }
    }
}

/// Changing the target stored in a pending loop-open does not change the
/// finalized result, except that an entry that never pops keeps the
/// changed value.
proof fn lemma_fix_stack_entry_update(
    s: Seq<Instruction>,
    i: int,
    st: Seq<int>,
    d: int,
    loc: usize,
)
    requires
        0 <= i <= s.len(),
        0 <= d < st.len(),
        forall|k: int| 0 <= k < st.len() ==> 0 <= #[trigger] st[k] < i,
        forall|k1: int, k2: int| 0 <= k1 < k2 < st.len() ==> #[trigger] st[k1] < #[trigger] st[k2],
    ensures
        close_idx(s, i, d) is Some ==> spec_fix_from(
            s.update(st[st.len() - 1 - d], Instruction::JumpIfZero { location: loc }),
            i,
            st,
        ) == spec_fix_from(s, i, st),
        close_idx(s, i, d) is None ==> spec_fix_from(
            s.update(st[st.len() - 1 - d], Instruction::JumpIfZero { location: loc }),
            i,
            st,
        ) == spec_fix_from(s, i, st).update(
            st[st.len() - 1 - d],
            Instruction::JumpIfZero { location: loc },
        ),
    decreases s.len() - i,
{
    let p = st[st.len() - 1 - d];
    let v = Instruction::JumpIfZero { location: loc };
    let su = s.update(p, v);
    if i >= s.len() {
    } else {
        assert(su[i] == s[i]);
        match s[i] {
            Instruction::JumpIfZero { .. } => {
                let s1 = s.update(i, Instruction::JumpIfZero { location: i as usize });
                let st1 = st.push(i);
                assert(st1[st1.len() - 1 - (d + 1)] == p);
                assert(su.update(i, Instruction::JumpIfZero { location: i as usize }) =~= s1.update(
                    p,
                    v,
                ));
                lemma_close_idx_update_below(
                    s,
                    i,
                    Instruction::JumpIfZero { location: i as usize },
                    i + 1,
                    d + 1,
                );
                lemma_fix_stack_entry_update(s1, i + 1, st1, d + 1, loc);
            },
            Instruction::JumpIfNotZero { .. } => {
                if st.len() > 0 {
                    let j = st.last();
                    assert(0 <= j < s.len());
                    if d == 0 {
                        assert(j == p);
                        assert(su.update(j, Instruction::JumpIfZero { location: i as usize })
                            =~= s.update(j, Instruction::JumpIfZero { location: i as usize }));
                        assert(close_idx(s, i, d) == Some(i));
                    } else {
                        assert(p != j);
                        let sj = s.update(j, Instruction::JumpIfZero { location: i as usize });
                        let s2 = sj.update(i, Instruction::JumpIfNotZero { location: j as usize });
                        let st2 = st.drop_last();
                        assert(st2[st2.len() - 1 - (d - 1)] == p);
                        assert(su.update(j, Instruction::JumpIfZero { location: i as usize }).update(
                            i,
                            Instruction::JumpIfNotZero { location: j as usize },
                        ) =~= s2.update(p, v));
                        lemma_close_idx_update_below(
                            s,
                            j,
                            Instruction::JumpIfZero { location: i as usize },
                            i + 1,
                            d - 1,
                        );
                        lemma_close_idx_update_below(
                            sj,
                            i,
                            Instruction::JumpIfNotZero { location: j as usize },
                            i + 1,
                            d - 1,
                        );
                        lemma_fix_stack_entry_update(s2, i + 1, st2, d - 1, loc);
                        if close_idx(s, i, d) is None {
                            lemma_fix_len(s2, i + 1, st2);
                        }
                    }
                }
            },
            _ => {
                lemma_fix_stack_entry_update(s, i + 1, st, d, loc);
            },
        }
    }
}

/// Finalizing twice is the same as finalizing once.
proof fn lemma_fix_from_idempotent(s: Seq<Instruction>, i: int, st: Seq<int>)
    requires
        0 <= i <= s.len(),
        stack_ok(s, i, st),
    ensures
        spec_fix_from(spec_fix_from(s, i, st), i, st) == spec_fix_from(s, i, st),
    decreases s.len() - i,
{
    if i >= s.len() {
    } else {
        match s[i] {
            Instruction::JumpIfZero { .. } => {
                let s1 = s.update(i, Instruction::JumpIfZero { location: i as usize });
                let st1 = st.push(i);
                assert(st1[st1.len() - 1] == i);
                assert(stack_ok(s1, i + 1, st1));
                let r = spec_fix_from(s1, i + 1, st1);
                lemma_fix_from_idempotent(s1, i + 1, st1);
                lemma_fix_len(s1, i + 1, st1);
                lemma_fix_shape(s1, i + 1, st1);
                assert(r[i] is JumpIfZero);
                lemma_fix_stack_entry_update(r, i + 1, st1, 0, i as usize);
                lemma_close_idx_shape(s1, r, i + 1, 0);
                if close_idx(s1, i + 1, 0) is None {
                    lemma_fix_unpopped(s1, i + 1, st1, 0);
                    assert(r[i] == s1[i]);
                    assert(r.update(i, Instruction::JumpIfZero { location: i as usize }) =~= r);
                } else {
                    assert(r.update(i, Instruction::JumpIfZero { location: i as usize }).update(
                        i,
                        r[i],
                    ) =~= r);
                }
            },
            Instruction::JumpIfNotZero { .. } => {
                if st.len() > 0 {
                    let j = st.last();
                    assert(0 <= j < s.len());
                    let sj = s.update(j, Instruction::JumpIfZero { location: i as usize });
                    let s2 = sj.update(i, Instruction::JumpIfNotZero { location: j as usize });
                    let st2 = st.drop_last();
                    assert(stack_ok(s2, i + 1, st2));
                    let r = spec_fix_from(s2, i + 1, st2);
                    lemma_fix_from_idempotent(s2, i + 1, st2);
                    lemma_fix_len(s2, i + 1, st2);
                    lemma_fix_untouched(s2, i + 1, st2, i);
                    lemma_fix_untouched(s2, i + 1, st2, j);
                    assert(r[i] == s2[i]);
                    assert(r[j] == s2[j]);
                    assert(r.update(j, Instruction::JumpIfZero { location: i as usize }).update(
                        i,
                        Instruction::JumpIfNotZero { location: j as usize },
                    ) =~= r);
                } else {
                    assert(stack_ok(s, i + 1, st));
                    let r = spec_fix_from(s, i + 1, st);
                    lemma_fix_from_idempotent(s, i + 1, st);
                    lemma_fix_len(s, i + 1, st);
                    lemma_fix_untouched(s, i + 1, st, i);
                    assert(r[i] == s[i]);
                }
            },
            _ => {
                assert(stack_ok(s, i + 1, st));
                let r = spec_fix_from(s, i + 1, st);
                lemma_fix_from_idempotent(s, i + 1, st);
                lemma_fix_len(s, i + 1, st);
                lemma_fix_untouched(s, i + 1, st, i);
                assert(r[i] == s[i]);
            },
        }
    }
}

/// Finalization is idempotent: jump targets are a function of the bracket
/// structure alone.
pub proof fn lemma_fix_idempotent(s: Seq<Instruction>)
    ensures
        spec_fix(spec_fix(s)) == spec_fix(s),
{
    lemma_fix_from_idempotent(s, 0, seq![]);
}

/// Whatever the optimizer returns already has final jump targets.
pub proof fn lemma_optimize_fix_stable(p: Seq<Instruction>)
    ensures
        spec_fix(spec_optimize(p)) == spec_optimize(p),
    decreases p.len(),
{
    let t = spec_cycle(p);
    if t.len() < p.len() {
        lemma_optimize_fix_stable(t);
    } else {
        lemma_fix_idempotent(t);
    }
}

/// The finalization pass: recomputes every jump target in place. A
/// loop-close with no pending loop-open would be an internal-consistency
/// violation, not a user error; such input is excluded outright, and the
/// parser and every rewriting pass are proved never to produce it.
pub fn fix_loops(instructions: &mut Vec<Instruction>)
    requires
        no_stray_close(old(instructions)@),
    ensures
        final(instructions)@ == spec_fix(old(instructions)@),
        final(instructions)@.len() == old(instructions)@.len(),
{
    let ghost orig = instructions@;
    let n = instructions.len();
    let mut stack: Vec<usize> = Vec::new();
    let mut i: usize = 0;
    proof {
        assert(stack@.map_values(|x: usize| x as int) =~= Seq::<int>::empty());
        assert(instructions@.skip(0) =~= instructions@);
    }
    while i < n
        invariant
            i <= n,
            n == instructions@.len(),
            spec_fix(orig) == spec_fix_from(
                instructions@,
                i as int,
                stack@.map_values(|x: usize| x as int),
            ),
            forall|k: int| 0 <= k < stack@.len() ==> #[trigger] stack@[k] < i,
            scan_brackets(instructions@.skip(i as int), stack@.len() as int) is Some,
        decreases n - i,
    {
        let inst = instructions[i];
        let ghost st = stack@.map_values(|x: usize| x as int);
        let ghost pre = instructions@;
        proof {
            assert(pre.skip(i as int)[0] == pre[i as int]);
            assert(pre.skip(i as int).skip(1) =~= pre.skip(i as int + 1));
        }
        match inst {
            Instruction::JumpIfZero { .. } => {
                instructions[i] = Instruction::JumpIfZero { location: i };
                stack.push(i);
                proof {
                    assert(stack@.map_values(|x: usize| x as int) =~= st.push(i as int));
                    assert(instructions@.skip(i as int + 1) =~= pre.skip(i as int + 1));
                }
            },
            Instruction::JumpIfNotZero { .. } => {
                match stack.pop() {
                    Some(j) => {
                        instructions[j] = Instruction::JumpIfZero { location: i };
                        instructions[i] = Instruction::JumpIfNotZero { location: j };
                        proof {
                            assert(st.last() == j as int);
                            assert(stack@.map_values(|x: usize| x as int) =~= st.drop_last());
                            assert(instructions@.skip(i as int + 1) =~= pre.skip(i as int + 1));
                        }
                    },
                    None => {
                        // A close with an empty stack is ruled out: the
                        // bracket scan of the remaining instructions would
                        // have failed here.
                        proof {
                            assert(scan_brackets(pre.skip(i as int), 0) is None);
                        }
                    },
                }
            },
            _ => {},
        }
        i += 1;
    }
    proof {
        assert(spec_fix_from(
            instructions@,
            n as int,
            stack@.map_values(|x: usize| x as int),
        ) == instructions@);
    }
}

// ---------------------------------------------------------------------------
// The driver.
// ---------------------------------------------------------------------------

/// One full cycle of the five rewriting passes.
pub open spec fn spec_cycle(s: Seq<Instruction>) -> Seq<Instruction> {
    spec_rsl(spec_sub2(spec_sub3(spec_sub4(spec_squash(s)))), true)
}

/// The whole optimizer: cycles of the five passes until a cycle stops
/// shrinking the program, then finalization.
pub open spec fn spec_optimize(s: Seq<Instruction>) -> Seq<Instruction>
    decreases s.len(),
{
    let t = spec_cycle(s);
    if t.len() < s.len() {
        spec_optimize(t)
    } else {
        spec_fix(t)
    }
}

/// Rewrites the program in place to an equivalent, typically shorter one,
/// then recomputes jump targets. The tape-size policy is accepted as a
/// hint; the rewrites do not depend on it. Every loop-close must have a
/// matching open, as parsing guarantees; each pass is proved to keep it
/// that way, so finalization never meets an unmatched close.
pub fn optimize(instructions: &mut Vec<Instruction>, _tape_size: crate::interpreter::TapeSize)
    requires
        no_stray_close(old(instructions)@),
    ensures
        final(instructions)@ == spec_optimize(old(instructions)@),
        final(instructions)@.len() <= old(instructions)@.len(),
{
    let ghost orig = instructions@;
    loop
        invariant_except_break
            spec_optimize(orig) == spec_optimize(instructions@),
            instructions@.len() <= orig.len(),
            no_stray_close(instructions@),
        ensures
            spec_optimize(orig) == spec_fix(instructions@),
            instructions@.len() <= orig.len(),
            no_stray_close(instructions@),
        decreases instructions@.len(),
    {
        let ghost before = instructions@;
        let start_instruction_count = instructions.len();
        squash_and_clean(instructions);
        substitute_patterns_4(instructions);
        substitute_patterns_3(instructions);
        substitute_patterns_2(instructions);
        remove_spurious_loops(instructions);
        let end_instruction_count = instructions.len();
        proof {
            assert(instructions@ == spec_cycle(before));
            lemma_cycle_no_stray_close(before);
        }
        if end_instruction_count >= start_instruction_count {
            break ;
        }
    }
    fix_loops(instructions);
}

} // verus!
