//! The programs that the instructions emit, what they do to the tape, and
//! that they end.

use crate::instructions::{div_quot, div_rest};
use crate::memory::{wrap, CellSize};
use crate::tape::{
    lemma_countdown_ends, lemma_loop_ends, lemma_run_add, lemma_run_incs, lemma_run_moves, lemma_run_one,
    lemma_step_lasts, lemma_wrap_sum, moves, run, step, times, Machine, Op,
};
use vstd::prelude::*;

verus! {

/// The loop that empties the cell under the head.
pub open spec fn zero_loop() -> Op {
    Op::Loop(seq![Op::Dec])
}

/// The program of `Clear(cell)` for a head on `from`.
pub open spec fn clear_code(cell: usize, from: usize) -> Seq<Op> {
    moves(from, cell) + seq![zero_loop()]
}

/// The program of `SetCell(cell, value)` for a head on `from`.
pub open spec fn set_code(cell: usize, value: CellSize, from: usize) -> Seq<Op> {
    moves(from, cell) + clear_code(cell, cell) + times(Op::Inc, value as nat)
}

/// The loop that drains the cell under the head, `b`, into `a`, applying
/// `op` to `a` once per unit.
pub open spec fn drain_loop(a: usize, b: usize, op: Op) -> Op {
    Op::Loop(seq![Op::Dec] + moves(b, a) + seq![op] + moves(a, b))
}

/// The program of `Add(a, b)` for a head on `from`.
pub open spec fn add_code(a: usize, b: usize, from: usize) -> Seq<Op> {
    moves(from, b) + seq![drain_loop(a, b, Op::Inc)]
}

/// The program of `Sub(a, b)` for a head on `from`.
pub open spec fn sub_code(a: usize, b: usize, from: usize) -> Seq<Op> {
    moves(from, b) + seq![drain_loop(a, b, Op::Dec)]
}

/// The program of `Move(a, b)` for a head on `from`.
pub open spec fn move_code(a: usize, b: usize, from: usize) -> Seq<Op> {
    clear_code(a, from) + moves(a, b) + seq![drain_loop(a, b, Op::Inc)]
}

/// The loop that drains `tmp`, the cell under the head, into both `a` and
/// `b`.
pub open spec fn refill_loop(a: usize, tmp: usize, b: usize) -> Op {
    Op::Loop(seq![Op::Dec] + moves(tmp, a) + seq![Op::Inc] + moves(a, b) + seq![Op::Inc] + moves(b, tmp))
}

/// The program of `Copy(a, tmp, b)` for a head on `from`.
pub open spec fn copy_code(a: usize, tmp: usize, b: usize, from: usize) -> Seq<Op> {
    clear_code(a, from) + move_code(tmp, b, a) + moves(b, tmp) + seq![refill_loop(a, tmp, b)] + moves(
        tmp,
        a,
    )
}

/// The loop that, with the head on a cell `a` that is not zero, empties
/// `a` and takes one from `tmp`.
pub open spec fn unset_loop(a: usize, tmp: usize) -> Op {
    Op::Loop(seq![zero_loop()] + moves(a, tmp) + seq![Op::Dec] + moves(tmp, a))
}

/// The program of `BoolNegate(a, tmp)` for a head on `from`.
pub open spec fn negate_code(a: usize, tmp: usize, from: usize) -> Seq<Op> {
    moves(from, tmp) + seq![zero_loop(), Op::Inc] + moves(tmp, a) + seq![unset_loop(a, tmp)] + moves(a, tmp)
        + seq![drain_loop(a, tmp, Op::Inc)] + moves(tmp, a)
}

/// The emptying loop leaves zero under the head and everything else as it
/// was.
pub proof fn lemma_zero_loop(m: Machine, fuel: nat)
    requires
        m.wf(),
        step(zero_loop(), m, fuel) is Some,
    ensures
        step(zero_loop(), m, fuel) == Some(m.put(m.head, 0)),
    decreases fuel,
{
    if m.cur() == 0 {
        assert(m.put(m.head, 0).tape =~= m.tape);
    } else {
        let f = (fuel - 1) as nat;
        lemma_run_one(Op::Dec, m, f);
        let next = m.put(m.head, wrap(m.cur() - 1));
        assert(run(seq![Op::Dec], m, f) == Some(next));
        lemma_zero_loop(next, f);
        assert(next.put(next.head, 0).tape =~= m.put(m.head, 0).tape);
    }
}

/// `Clear` leaves zero in its cell and the head on it.
pub proof fn lemma_clear_runs(cell: usize, from: usize, m: Machine, fuel: nat)
    requires
        m.wf(),
        m.head == from,
        run(clear_code(cell, from), m, fuel) is Some,
    ensures
        run(clear_code(cell, from), m, fuel) == Some(m.put(cell as int, 0).seek(cell as int)),
{
    lemma_run_add(moves(from, cell), seq![zero_loop()], m, fuel);
    lemma_run_moves(from, cell, m, fuel);
    let at = m.seek(cell as int);
    lemma_run_one(zero_loop(), at, fuel);
    lemma_zero_loop(at, fuel);
}

/// `SetCell` leaves its value in its cell and the head on it.
pub proof fn lemma_set_runs(cell: usize, value: CellSize, from: usize, m: Machine, fuel: nat)
    requires
        m.wf(),
        m.head == from,
        run(set_code(cell, value, from), m, fuel) is Some,
    ensures
        run(set_code(cell, value, from), m, fuel) == Some(m.put(cell as int, value).seek(cell as int)),
{
    let go = moves(from, cell);
    let clear = clear_code(cell, cell);
    let plus = times(Op::Inc, value as nat);
    lemma_run_add(go + clear, plus, m, fuel);
    lemma_run_add(go, clear, m, fuel);
    lemma_run_moves(from, cell, m, fuel);
    let at = m.seek(cell as int);
    lemma_clear_runs(cell, cell, at, fuel);
    let zeroed = at.put(cell as int, 0).seek(cell as int);
    lemma_run_incs(value as nat, zeroed, fuel);
    assert(zeroed.put(zeroed.head, wrap(zeroed.cur() + value)).tape =~= m.put(cell as int, value).tape);
}

/// What one unit of draining does to `a`.
pub open spec fn bump(op: Op, v: CellSize) -> CellSize {
    if op == Op::Inc {
        wrap(v + 1)
    } else {
        wrap(v - 1)
    }
}

/// What draining `n` units does to `a`.
pub open spec fn shift(op: Op, v: CellSize, n: int) -> CellSize {
    if op == Op::Inc {
        wrap(v + n)
    } else {
        wrap(v - n)
    }
}

/// One round of the draining loop takes one from `b` and gives one to `a`.
pub proof fn lemma_drain_round(a: usize, b: usize, op: Op, m: Machine, fuel: nat)
    requires
        m.wf(),
        m.head == b,
        a != b,
        op == Op::Inc || op == Op::Dec,
    ensures
        run(drain_loop(a, b, op)->Loop_0, m, fuel) == Some(
            m.put(b as int, wrap(m.at(b as int) - 1)).put(a as int, bump(op, m.at(a as int))),
        ),
{
    let first = seq![Op::Dec];
    let there = moves(b, a);
    let act = seq![op];
    let back = moves(a, b);
    lemma_run_add(first + there + act, back, m, fuel);
    lemma_run_add(first + there, act, m, fuel);
    lemma_run_add(first, there, m, fuel);
    lemma_run_one(Op::Dec, m, fuel);
    let m1 = m.put(b as int, wrap(m.at(b as int) - 1));
    lemma_run_moves(b, a, m1, fuel);
    let m2 = m1.seek(a as int);
    lemma_run_one(op, m2, fuel);
    let m3 = m2.put(a as int, bump(op, m.at(a as int)));
    assert(step(op, m2, fuel) == Some(m3));
    lemma_run_moves(a, b, m3, fuel);
    assert(m3.seek(b as int) == m.put(b as int, wrap(m.at(b as int) - 1)).put(
        a as int,
        bump(op, m.at(a as int)),
    ));
}

/// The draining loop leaves `b` at zero and `a` shifted by what `b` held.
pub proof fn lemma_drain_loop(a: usize, b: usize, op: Op, m: Machine, fuel: nat)
    requires
        m.wf(),
        m.head == b,
        a != b,
        op == Op::Inc || op == Op::Dec,
        step(drain_loop(a, b, op), m, fuel) is Some,
    ensures
        step(drain_loop(a, b, op), m, fuel) == Some(
            m.put(a as int, shift(op, m.at(a as int), m.at(b as int) as int)).put(b as int, 0),
        ),
    decreases fuel,
{
    let v = m.at(a as int);
    let n = m.at(b as int);
    if n == 0 {
        assert(m.put(a as int, shift(op, v, 0)).put(b as int, 0).tape =~= m.tape);
    } else {
        let f = (fuel - 1) as nat;
        lemma_drain_round(a, b, op, m, f);
        let next = m.put(b as int, wrap(n - 1)).put(a as int, bump(op, v));
        lemma_drain_loop(a, b, op, next, f);
        assert(shift(op, bump(op, v), n - 1) == shift(op, v, n as int)) by {
            if op == Op::Inc {
                lemma_wrap_sum(v + 1, n - 1);
            } else {
                lemma_wrap_sum(v - 1, -(n - 1));
            }
        }
        assert(next.put(a as int, shift(op, next.at(a as int), next.at(b as int) as int)).put(b as int, 0).tape
            =~= m.put(a as int, shift(op, v, n as int)).put(b as int, 0).tape);
    }
}

/// `Add` and `Sub` leave `b` at zero, `a` shifted by what `b` held, and
/// the head on `b`.
pub proof fn lemma_fold_runs(a: usize, b: usize, op: Op, from: usize, m: Machine, fuel: nat)
    requires
        m.wf(),
        m.head == from,
        a != b,
        op == Op::Inc || op == Op::Dec,
        run(moves(from, b) + seq![drain_loop(a, b, op)], m, fuel) is Some,
    ensures
        run(moves(from, b) + seq![drain_loop(a, b, op)], m, fuel) == Some(
            m.put(a as int, shift(op, m.at(a as int), m.at(b as int) as int)).put(b as int, 0).seek(b as int),
        ),
{
    lemma_run_add(moves(from, b), seq![drain_loop(a, b, op)], m, fuel);
    lemma_run_moves(from, b, m, fuel);
    let at = m.seek(b as int);
    lemma_run_one(drain_loop(a, b, op), at, fuel);
    lemma_drain_loop(a, b, op, at, fuel);
}

/// `Move` leaves in `a` what `b` held, `b` at zero, and the head on `b`.
pub proof fn lemma_move_runs(a: usize, b: usize, from: usize, m: Machine, fuel: nat)
    requires
        m.wf(),
        m.head == from,
        a != b,
        run(move_code(a, b, from), m, fuel) is Some,
    ensures
        run(move_code(a, b, from), m, fuel) == Some(
            m.put(a as int, m.at(b as int)).put(b as int, 0).seek(b as int),
        ),
{
    let clear = clear_code(a, from);
    let rest = moves(a, b) + seq![drain_loop(a, b, Op::Inc)];
    assert(move_code(a, b, from) =~= clear + rest);
    lemma_run_add(clear, rest, m, fuel);
    lemma_clear_runs(a, from, m, fuel);
    let cleared = m.put(a as int, 0).seek(a as int);
    lemma_fold_runs(a, b, Op::Inc, a, cleared, fuel);
    assert(cleared.put(a as int, shift(Op::Inc, 0, cleared.at(b as int) as int)).put(b as int, 0).tape
        =~= m.put(a as int, m.at(b as int)).put(b as int, 0).tape);
}

/// One round of the refilling loop takes one from `tmp` and gives one to
/// each of `a` and `b`.
pub proof fn lemma_refill_round(a: usize, tmp: usize, b: usize, m: Machine, fuel: nat)
    requires
        m.wf(),
        m.head == tmp,
        a != b,
        a != tmp,
        b != tmp,
    ensures
        run(refill_loop(a, tmp, b)->Loop_0, m, fuel) == Some(
            m.put(tmp as int, wrap(m.at(tmp as int) - 1)).put(a as int, wrap(m.at(a as int) + 1)).put(
                b as int,
                wrap(m.at(b as int) + 1),
            ),
        ),
{
    let leg1 = seq![Op::Dec];
    let leg2 = moves(tmp, a);
    let leg3 = seq![Op::Inc];
    let leg4 = moves(a, b);
    let leg5 = seq![Op::Inc];
    let leg6 = moves(b, tmp);
    lemma_run_add(leg1 + leg2 + leg3 + leg4 + leg5, leg6, m, fuel);
    lemma_run_add(leg1 + leg2 + leg3 + leg4, leg5, m, fuel);
    lemma_run_add(leg1 + leg2 + leg3, leg4, m, fuel);
    lemma_run_add(leg1 + leg2, leg3, m, fuel);
    lemma_run_add(leg1, leg2, m, fuel);
    lemma_run_one(Op::Dec, m, fuel);
    let m1 = m.put(tmp as int, wrap(m.at(tmp as int) - 1));
    lemma_run_moves(tmp, a, m1, fuel);
    let m2 = m1.seek(a as int);
    lemma_run_one(Op::Inc, m2, fuel);
    let m3 = m2.put(a as int, wrap(m.at(a as int) + 1));
    lemma_run_moves(a, b, m3, fuel);
    let m4 = m3.seek(b as int);
    lemma_run_one(Op::Inc, m4, fuel);
    let m5 = m4.put(b as int, wrap(m.at(b as int) + 1));
    lemma_run_moves(b, tmp, m5, fuel);
    assert(m5.seek(tmp as int) == m.put(tmp as int, wrap(m.at(tmp as int) - 1)).put(
        a as int,
        wrap(m.at(a as int) + 1),
    ).put(b as int, wrap(m.at(b as int) + 1)));
}

/// The refilling loop leaves `tmp` at zero and both `a` and `b` grown by
/// what `tmp` held.
#[verifier::rlimit(40)]
pub proof fn lemma_refill_loop(a: usize, tmp: usize, b: usize, m: Machine, fuel: nat)
    requires
        m.wf(),
        m.head == tmp,
        a != b,
        a != tmp,
        b != tmp,
        step(refill_loop(a, tmp, b), m, fuel) is Some,
    ensures
        step(refill_loop(a, tmp, b), m, fuel) == Some(
            m.put(a as int, wrap(m.at(a as int) + m.at(tmp as int))).put(
                b as int,
                wrap(m.at(b as int) + m.at(tmp as int)),
            ).put(tmp as int, 0),
        ),
    decreases fuel,
{
    let n = m.at(tmp as int);
    if n == 0 {
        assert(m.put(a as int, wrap(m.at(a as int) + 0)).put(b as int, wrap(m.at(b as int) + 0)).put(
            tmp as int,
            0,
        ).tape =~= m.tape);
    } else {
        let f = (fuel - 1) as nat;
        lemma_refill_round(a, tmp, b, m, f);
        let next = m.put(tmp as int, wrap(n - 1)).put(a as int, wrap(m.at(a as int) + 1)).put(
            b as int,
            wrap(m.at(b as int) + 1),
        );
        lemma_refill_loop(a, tmp, b, next, f);
        lemma_wrap_sum(m.at(a as int) + 1, n - 1);
        lemma_wrap_sum(m.at(b as int) + 1, n - 1);
        assert(next.put(a as int, wrap(next.at(a as int) + next.at(tmp as int))).put(
            b as int,
            wrap(next.at(b as int) + next.at(tmp as int)),
        ).put(tmp as int, 0).tape =~= m.put(a as int, wrap(m.at(a as int) + n)).put(
            b as int,
            wrap(m.at(b as int) + n),
        ).put(tmp as int, 0).tape);
    }
}

/// `Copy` leaves in `a` what `b` holds, `b` as it was, `tmp` at zero, and
/// the head on `a`.
pub proof fn lemma_copy_runs(a: usize, tmp: usize, b: usize, from: usize, m: Machine, fuel: nat)
    requires
        m.wf(),
        m.head == from,
        a != b,
        a != tmp,
        b != tmp,
        run(copy_code(a, tmp, b, from), m, fuel) is Some,
    ensures
        run(copy_code(a, tmp, b, from), m, fuel) == Some(
            m.put(a as int, m.at(b as int)).put(tmp as int, 0).seek(a as int),
        ),
{
    let leg1 = clear_code(a, from);
    let leg2 = move_code(tmp, b, a);
    let leg3 = moves(b, tmp);
    let leg4 = seq![refill_loop(a, tmp, b)];
    let leg5 = moves(tmp, a);
    lemma_run_add(leg1 + leg2 + leg3 + leg4, leg5, m, fuel);
    lemma_run_add(leg1 + leg2 + leg3, leg4, m, fuel);
    lemma_run_add(leg1 + leg2, leg3, m, fuel);
    lemma_run_add(leg1, leg2, m, fuel);
    lemma_clear_runs(a, from, m, fuel);
    let m1 = m.put(a as int, 0).seek(a as int);
    lemma_move_runs(tmp, b, a, m1, fuel);
    let m2 = m1.put(tmp as int, m1.at(b as int)).put(b as int, 0).seek(b as int);
    lemma_run_moves(b, tmp, m2, fuel);
    let m3 = m2.seek(tmp as int);
    lemma_run_one(refill_loop(a, tmp, b), m3, fuel);
    lemma_refill_loop(a, tmp, b, m3, fuel);
    let m4 = m3.put(a as int, wrap(m3.at(a as int) + m3.at(tmp as int))).put(
        b as int,
        wrap(m3.at(b as int) + m3.at(tmp as int)),
    ).put(tmp as int, 0);
    lemma_run_moves(tmp, a, m4, fuel);
    assert(m4.seek(a as int).tape =~= m.put(a as int, m.at(b as int)).put(tmp as int, 0).tape);
}

/// The negated truth value of a cell.
pub open spec fn negated(v: CellSize) -> CellSize {
    if v == 0 {
        1
    } else {
        0
    }
}

/// `BoolNegate` leaves in `a` one if it held zero and zero otherwise, `tmp`
/// at zero, and the head on `a`.
pub proof fn lemma_negate_runs(a: usize, tmp: usize, from: usize, m: Machine, fuel: nat)
    requires
        m.wf(),
        m.head == from,
        a != tmp,
        run(negate_code(a, tmp, from), m, fuel) is Some,
    ensures
        run(negate_code(a, tmp, from), m, fuel) == Some(
            m.put(a as int, negated(m.at(a as int))).put(tmp as int, 0).seek(a as int),
        ),
{
    let leg1 = moves(from, tmp);
    let leg2 = seq![zero_loop(), Op::Inc];
    let leg3 = moves(tmp, a);
    let leg4 = seq![unset_loop(a, tmp)];
    let leg5 = moves(a, tmp);
    let leg6 = seq![drain_loop(a, tmp, Op::Inc)];
    let leg7 = moves(tmp, a);
    lemma_run_add(leg1 + leg2 + leg3 + leg4 + leg5 + leg6, leg7, m, fuel);
    lemma_run_add(leg1 + leg2 + leg3 + leg4 + leg5, leg6, m, fuel);
    lemma_run_add(leg1 + leg2 + leg3 + leg4, leg5, m, fuel);
    lemma_run_add(leg1 + leg2 + leg3, leg4, m, fuel);
    lemma_run_add(leg1 + leg2, leg3, m, fuel);
    lemma_run_add(leg1, leg2, m, fuel);
    lemma_run_moves(from, tmp, m, fuel);
    let m1 = m.seek(tmp as int);
    assert(leg2 =~= seq![zero_loop()] + seq![Op::Inc]);
    lemma_run_add(seq![zero_loop()], seq![Op::Inc], m1, fuel);
    lemma_run_one(zero_loop(), m1, fuel);
    lemma_zero_loop(m1, fuel);
    let m1z = m1.put(tmp as int, 0);
    lemma_run_one(Op::Inc, m1z, fuel);
    let m2 = m1z.put(tmp as int, 1);
    assert(step(Op::Inc, m1z, fuel) == Some(m2));
    lemma_run_moves(tmp, a, m2, fuel);
    let m3 = m2.seek(a as int);
    lemma_run_one(unset_loop(a, tmp), m3, fuel);
    lemma_unset_loop(a, tmp, m3, fuel);
    let m4 = if m.at(a as int) == 0 {
        m3
    } else {
        m3.put(a as int, 0).put(tmp as int, 0)
    };
    lemma_run_moves(a, tmp, m4, fuel);
    let m5 = m4.seek(tmp as int);
    lemma_run_one(drain_loop(a, tmp, Op::Inc), m5, fuel);
    lemma_drain_loop(a, tmp, Op::Inc, m5, fuel);
    let m6 = m5.put(a as int, shift(Op::Inc, m5.at(a as int), m5.at(tmp as int) as int)).put(tmp as int, 0);
    lemma_run_moves(tmp, a, m6, fuel);
    assert(m6.seek(a as int).tape =~= m.put(a as int, negated(m.at(a as int))).put(tmp as int, 0).tape);
}

/// The unsetting loop, entered with one in `tmp`, leaves a cell `a` that
/// holds zero alone, and otherwise empties both `a` and `tmp`.
pub proof fn lemma_unset_loop(a: usize, tmp: usize, m: Machine, fuel: nat)
    requires
        m.wf(),
        m.head == a,
        a != tmp,
        m.at(tmp as int) == 1,
        step(unset_loop(a, tmp), m, fuel) is Some,
    ensures
        step(unset_loop(a, tmp), m, fuel) == Some(
            if m.at(a as int) == 0 {
                m
            } else {
                m.put(a as int, 0).put(tmp as int, 0)
            },
        ),
{
    if m.at(a as int) != 0 {
        let f = (fuel - 1) as nat;
        let leg1 = seq![zero_loop()];
        let leg2 = moves(a, tmp);
        let leg3 = seq![Op::Dec];
        let leg4 = moves(tmp, a);
        lemma_run_add(leg1 + leg2 + leg3, leg4, m, f);
        lemma_run_add(leg1 + leg2, leg3, m, f);
        lemma_run_add(leg1, leg2, m, f);
        lemma_run_one(zero_loop(), m, f);
        lemma_zero_loop(m, f);
        let m1 = m.put(a as int, 0);
        lemma_run_moves(a, tmp, m1, f);
        let m2 = m1.seek(tmp as int);
        lemma_run_one(Op::Dec, m2, f);
        let m3 = m2.put(tmp as int, 0);
        assert(step(Op::Dec, m2, f) == Some(m3));
        lemma_run_moves(tmp, a, m3, f);
        let m4 = m3.seek(a as int);
        assert(m4 == m.put(a as int, 0).put(tmp as int, 0));
        assert(m4.cur() == 0);
        if f > 0 {
            assert(step(unset_loop(a, tmp), m4, f) == Some(m4));
        }
    }
}


/// The body of the multiplication loop over the block at `base`: the
/// second cell is added to the third and the fourth, restored from the
/// third, and one is taken from the first.
pub open spec fn mul_round(base: usize) -> Seq<Op> {
    moves(base, (base + 1) as usize) + seq![
        refill_loop((base + 2) as usize, (base + 1) as usize, (base + 3) as usize),
    ] + moves((base + 1) as usize, (base + 2) as usize) + seq![
        drain_loop((base + 1) as usize, (base + 2) as usize, Op::Inc),
    ] + moves((base + 2) as usize, base) + seq![Op::Dec]
}

/// The multiplication loop over the block at `base`.
pub open spec fn mul_loop(base: usize) -> Op {
    Op::Loop(mul_round(base))
}

/// The program of `Mul` over the block at `base` for a head on `from`.
pub open spec fn mul_code(a: usize, b: usize, base: usize, from: usize) -> Seq<Op> {
    move_code(base, a, from) + move_code((base + 1) as usize, b, a) + moves(b, base) + seq![mul_loop(base)]
}

/// One round of the multiplication loop.
pub proof fn lemma_mul_round(base: usize, m: Machine, fuel: nat)
    requires
        m.wf(),
        m.head == base,
        base + 3 <= usize::MAX,
        run(mul_round(base), m, fuel) is Some,
    ensures
        run(mul_round(base), m, fuel) == Some(
            m.put(base + 1, wrap(m.at(base + 1) + m.at(base + 2))).put(base + 2, 0).put(
                base + 3,
                wrap(m.at(base + 3) + m.at(base + 1)),
            ).put(base as int, wrap(m.at(base as int) - 1)),
        ),
{
    let b0 = base;
    let b1 = (base + 1) as usize;
    let b2 = (base + 2) as usize;
    let b3 = (base + 3) as usize;
    let leg1 = moves(b0, b1);
    let leg2 = seq![refill_loop(b2, b1, b3)];
    let leg3 = moves(b1, b2);
    let leg4 = seq![drain_loop(b1, b2, Op::Inc)];
    let leg5 = moves(b2, b0);
    let leg6 = seq![Op::Dec];
    lemma_run_add(leg1 + leg2 + leg3 + leg4 + leg5, leg6, m, fuel);
    lemma_run_add(leg1 + leg2 + leg3 + leg4, leg5, m, fuel);
    lemma_run_add(leg1 + leg2 + leg3, leg4, m, fuel);
    lemma_run_add(leg1 + leg2, leg3, m, fuel);
    lemma_run_add(leg1, leg2, m, fuel);
    lemma_run_moves(b0, b1, m, fuel);
    let m1 = m.seek(b1 as int);
    lemma_run_one(refill_loop(b2, b1, b3), m1, fuel);
    lemma_refill_loop(b2, b1, b3, m1, fuel);
    let x = m.at(b1 as int);
    let m2 = m1.put(b2 as int, wrap(m.at(b2 as int) + x)).put(b3 as int, wrap(m.at(b3 as int) + x)).put(
        b1 as int,
        0,
    );
    lemma_run_moves(b1, b2, m2, fuel);
    let m3 = m2.seek(b2 as int);
    lemma_run_one(drain_loop(b1, b2, Op::Inc), m3, fuel);
    lemma_drain_loop(b1, b2, Op::Inc, m3, fuel);
    let m4 = m3.put(b1 as int, shift(Op::Inc, 0, m3.at(b2 as int) as int)).put(b2 as int, 0);
    lemma_run_moves(b2, b0, m4, fuel);
    let m5 = m4.seek(b0 as int);
    lemma_run_one(Op::Dec, m5, fuel);
    let m6 = m5.put(b0 as int, wrap(m.at(b0 as int) - 1));
    assert(step(Op::Dec, m5, fuel) == Some(m6));
    assert(m6.tape =~= m.put(base + 1, wrap(m.at(base + 1) + m.at(base + 2))).put(base + 2, 0).put(
        base + 3,
        wrap(m.at(base + 3) + m.at(base + 1)),
    ).put(base as int, wrap(m.at(base as int) - 1)).tape);
}

/// The multiplication loop, entered with zero in the third cell of the
/// block, adds the product of the first two cells to the fourth and leaves
/// the first at zero.
pub proof fn lemma_mul_loop(base: usize, m: Machine, fuel: nat)
    requires
        m.wf(),
        m.head == base,
        base + 3 <= usize::MAX,
        m.at(base + 2) == 0,
        step(mul_loop(base), m, fuel) is Some,
    ensures
        step(mul_loop(base), m, fuel) == Some(
            m.put(base + 3, wrap(m.at(base + 3) + m.at(base as int) * m.at(base + 1))).put(base as int, 0),
        ),
    decreases fuel,
{
    let n = m.at(base as int);
    let x = m.at(base + 1);
    let r = m.at(base + 3);
    if n == 0 {
        assert(n * x == 0);
        assert(m.put(base + 3, wrap(r + n * x)).put(base as int, 0).tape =~= m.tape);
    } else {
        let f = (fuel - 1) as nat;
        lemma_mul_round(base, m, f);
        let next = m.put(base + 1, wrap(x + 0)).put(base + 2, 0).put(base + 3, wrap(r + x)).put(
            base as int,
            wrap(n - 1),
        );
        lemma_mul_loop(base, next, f);
        assert((n - 1) * x + x == n * x) by (nonlinear_arith);
        lemma_wrap_sum(r + x, (n - 1) * x);
        assert(next.put(base + 3, wrap(next.at(base + 3) + next.at(base as int) * next.at(base + 1))).put(
            base as int,
            0,
        ).tape =~= m.put(base + 3, wrap(r + n * x)).put(base as int, 0).tape);
    }
}

/// What the multiplication loop leaves in the fourth cell of its block:
/// the product, if the third cell was zero.
pub open spec fn mul_sum(n: CellSize, x: CellSize, t: CellSize, r: CellSize) -> CellSize {
    if n == 0 {
        r
    } else {
        wrap(r + x + (n - 1) * wrap(x + t))
    }
}

/// The multiplication loop from any state of its block.
pub proof fn lemma_mul_loop_any(base: usize, m: Machine, fuel: nat)
    requires
        m.wf(),
        m.head == base,
        base + 3 <= usize::MAX,
        step(mul_loop(base), m, fuel) is Some,
    ensures
        step(mul_loop(base), m, fuel) == Some(
            if m.at(base as int) == 0 {
                m
            } else {
                m.put(base + 1, wrap(m.at(base + 1) + m.at(base + 2))).put(base + 2, 0).put(
                    base + 3,
                    mul_sum(m.at(base as int), m.at(base + 1), m.at(base + 2), m.at(base + 3)),
                ).put(base as int, 0)
            },
        ),
{
    let n = m.at(base as int);
    let x = m.at(base + 1);
    let t = m.at(base + 2);
    let r = m.at(base + 3);
    if n != 0 {
        let f = (fuel - 1) as nat;
        lemma_mul_round(base, m, f);
        let next = m.put(base + 1, wrap(x + t)).put(base + 2, 0).put(base + 3, wrap(r + x)).put(
            base as int,
            wrap(n - 1),
        );
        lemma_mul_loop(base, next, f);
        lemma_wrap_sum(r + x, (n - 1) * wrap(x + t));
        assert(next.put(base + 3, wrap(next.at(base + 3) + next.at(base as int) * next.at(base + 1))).put(
            base as int,
            0,
        ).tape =~= m.put(base + 1, wrap(x + t)).put(base + 2, 0).put(base + 3, mul_sum(n, x, t, r)).put(
            base as int,
            0,
        ).tape);
    }
}

/// What `Mul` over the block at `base` does to the tape.
pub open spec fn mul_effect(a: usize, b: usize, base: usize, m: Machine) -> Machine {
    let n = m.at(a as int);
    let x = m.at(b as int);
    let t = m.at(base + 2);
    let r = m.at(base + 3);
    let moved = m.put(a as int, 0).put(b as int, 0).put(base as int, 0).seek(base as int);
    if n == 0 {
        moved.put(base + 1, x)
    } else {
        moved.put(base + 1, wrap(x + t)).put(base + 2, 0).put(base + 3, mul_sum(n, x, t, r))
    }
}

/// `Mul` moves its operands into its block and multiplies them there.
pub proof fn lemma_mul_runs(a: usize, b: usize, base: usize, from: usize, m: Machine, fuel: nat)
    requires
        m.wf(),
        m.head == from,
        base + 3 <= usize::MAX,
        a != b,
        !(base <= a <= base + 3),
        !(base <= b <= base + 3),
        run(mul_code(a, b, base, from), m, fuel) is Some,
    ensures
        run(mul_code(a, b, base, from), m, fuel) == Some(mul_effect(a, b, base, m)),
{
    let b1 = (base + 1) as usize;
    let leg1 = move_code(base, a, from);
    let leg2 = move_code(b1, b, a);
    let leg3 = moves(b, base);
    let leg4 = seq![mul_loop(base)];
    lemma_run_add(leg1 + leg2 + leg3, leg4, m, fuel);
    lemma_run_add(leg1 + leg2, leg3, m, fuel);
    lemma_run_add(leg1, leg2, m, fuel);
    lemma_move_runs(base, a, from, m, fuel);
    let m1 = m.put(base as int, m.at(a as int)).put(a as int, 0).seek(a as int);
    lemma_move_runs(b1, b, a, m1, fuel);
    let m2 = m1.put(b1 as int, m1.at(b as int)).put(b as int, 0).seek(b as int);
    lemma_run_moves(b, base, m2, fuel);
    let m3 = m2.seek(base as int);
    lemma_run_one(mul_loop(base), m3, fuel);
    lemma_mul_loop_any(base, m3, fuel);
    let done = run(mul_code(a, b, base, from), m, fuel)->0;
    assert(done.tape =~= mul_effect(a, b, base, m).tape);
}


/// The first half of a round of the division loop over the block at
/// `base`: one is taken from the dividend, the remainder grows by one, a
/// mark is set, and one is taken from the countdown.
pub open spec fn div_front(base: usize) -> Seq<Op> {
    seq![Op::Dec] + moves(base, (base + 1) as usize) + seq![Op::Inc] + moves(
        (base + 1) as usize,
        (base + 3) as usize,
    ) + seq![Op::Inc] + moves((base + 3) as usize, (base + 4) as usize) + seq![Op::Dec]
}

/// The loop that, with the head on a countdown that has not run out, takes
/// the mark away again.
pub open spec fn unmark_loop() -> Op {
    Op::Loop(seq![Op::Left, Op::Dec])
}

/// The loop that, with the head on a mark that still stands, starts the
/// countdown again from the remainder, counts one quotient, and takes the
/// mark away.
pub open spec fn carry_loop(base: usize) -> Op {
    Op::Loop(
        moves((base + 3) as usize, (base + 1) as usize) + seq![
            drain_loop((base + 4) as usize, (base + 1) as usize, Op::Inc),
        ] + moves((base + 1) as usize, (base + 5) as usize) + seq![Op::Inc] + moves(
            (base + 5) as usize,
            (base + 3) as usize,
        ) + seq![Op::Dec] + moves((base + 3) as usize, (base + 2) as usize),
    )
}

/// The body of the division loop over the block at `base`.
pub open spec fn div_round(base: usize) -> Seq<Op> {
    div_front(base) + seq![unmark_loop()] + seq![Op::Left] + seq![carry_loop(base)] + moves(
        (base + 2) as usize,
        base,
    )
}

/// The division loop over the block at `base`.
pub open spec fn div_loop(base: usize) -> Op {
    Op::Loop(div_round(base))
}

/// The program of `Div` over the block at `base` for a head on `from`.
pub open spec fn div_code(a: usize, b: usize, base: usize, from: usize) -> Seq<Op> {
    move_code(base, a, from) + move_code((base + 4) as usize, b, a) + set_code((base + 1) as usize, 0, b)
        + set_code((base + 2) as usize, 0, (base + 1) as usize) + set_code(
        (base + 3) as usize,
        0,
        (base + 2) as usize,
    ) + set_code((base + 5) as usize, 0, (base + 3) as usize) + moves((base + 5) as usize, base) + seq![
        div_loop(base),
    ]
}

/// Remainder, countdown and quotient of the division loop.
pub struct DivState {
    pub rest: CellSize,
    pub count: CellSize,
    pub quot: CellSize,
}

/// One round of the division loop on its three counters.
pub open spec fn div_next(s: DivState) -> DivState {
    if wrap(s.count - 1) != 0 {
        DivState { rest: wrap(s.rest + 1), count: wrap(s.count - 1), quot: s.quot }
    } else {
        DivState { rest: 0, count: wrap(s.rest + 1), quot: wrap(s.quot + 1) }
    }
}

/// `n` rounds of the division loop on its three counters.
pub open spec fn div_walk(n: CellSize, s: DivState) -> DivState
    decreases n,
{
    if n == 0 {
        s
    } else {
        div_walk((n - 1) as CellSize, div_next(s))
    }
}

/// The machine with the three counters of the division loop in their cells.
pub open spec fn div_put(m: Machine, base: usize, s: DivState) -> Machine {
    m.put(base + 1, s.rest).put(base + 4, s.count).put(base + 5, s.quot)
}

/// The first half of a round.
pub proof fn lemma_div_front(base: usize, m: Machine, fuel: nat)
    requires
        m.wf(),
        m.head == base,
        base + 5 <= usize::MAX,
    ensures
        run(div_front(base), m, fuel) == Some(
            m.put(base as int, wrap(m.at(base as int) - 1)).put(base + 1, wrap(m.at(base + 1) + 1)).put(
                base + 3,
                wrap(m.at(base + 3) + 1),
            ).put(base + 4, wrap(m.at(base + 4) - 1)).seek(base + 4),
        ),
{
    let b1 = (base + 1) as usize;
    let b3 = (base + 3) as usize;
    let b4 = (base + 4) as usize;
    let leg1 = seq![Op::Dec];
    let leg2 = moves(base, b1);
    let leg3 = seq![Op::Inc];
    let leg4 = moves(b1, b3);
    let leg5 = seq![Op::Inc];
    let leg6 = moves(b3, b4);
    let leg7 = seq![Op::Dec];
    lemma_run_add(leg1 + leg2 + leg3 + leg4 + leg5 + leg6, leg7, m, fuel);
    lemma_run_add(leg1 + leg2 + leg3 + leg4 + leg5, leg6, m, fuel);
    lemma_run_add(leg1 + leg2 + leg3 + leg4, leg5, m, fuel);
    lemma_run_add(leg1 + leg2 + leg3, leg4, m, fuel);
    lemma_run_add(leg1 + leg2, leg3, m, fuel);
    lemma_run_add(leg1, leg2, m, fuel);
    lemma_run_one(Op::Dec, m, fuel);
    let m1 = m.put(base as int, wrap(m.at(base as int) - 1));
    lemma_run_moves(base, b1, m1, fuel);
    let m2 = m1.seek(b1 as int);
    lemma_run_one(Op::Inc, m2, fuel);
    let m3 = m2.put(b1 as int, wrap(m.at(b1 as int) + 1));
    assert(step(Op::Inc, m2, fuel) == Some(m3));
    lemma_run_moves(b1, b3, m3, fuel);
    let m4 = m3.seek(b3 as int);
    lemma_run_one(Op::Inc, m4, fuel);
    let m5 = m4.put(b3 as int, wrap(m.at(b3 as int) + 1));
    assert(step(Op::Inc, m4, fuel) == Some(m5));
    lemma_run_moves(b3, b4, m5, fuel);
    let m6 = m5.seek(b4 as int);
    lemma_run_one(Op::Dec, m6, fuel);
    let m7 = m6.put(b4 as int, wrap(m.at(b4 as int) - 1));
    assert(step(Op::Dec, m6, fuel) == Some(m7));
}

/// The unmarking loop: a countdown that has not run out costs the mark to
/// its left, and the head ends on the mark's cell; one that has run out
/// leaves everything as it is.
pub proof fn lemma_unmark_loop(m: Machine, fuel: nat)
    requires
        m.wf(),
        m.at(m.head - 1) == 1,
        step(unmark_loop(), m, fuel) is Some,
    ensures
        step(unmark_loop(), m, fuel) == Some(
            if m.cur() == 0 {
                m
            } else {
                m.put(m.head - 1, 0).seek(m.head - 1)
            },
        ),
{
    if m.cur() != 0 {
        let f = (fuel - 1) as nat;
        assert(seq![Op::Left, Op::Dec] =~= seq![Op::Left] + seq![Op::Dec]);
        lemma_run_add(seq![Op::Left], seq![Op::Dec], m, f);
        lemma_run_one(Op::Left, m, f);
        let m1 = m.seek(m.head - 1);
        lemma_run_one(Op::Dec, m1, f);
        let m2 = m1.put(m.head - 1, 0);
        assert(step(Op::Dec, m1, f) == Some(m2));
        assert(m2.cur() == 0);
        if f > 0 {
            assert(step(unmark_loop(), m2, f) == Some(m2));
        }
    }
}

/// The carrying loop with the head on a standing mark, over an empty
/// countdown.
pub proof fn lemma_carry_loop(base: usize, m: Machine, fuel: nat)
    requires
        m.wf(),
        m.head == base + 3,
        base + 5 <= usize::MAX,
        m.at(base + 3) == 1,
        m.at(base + 2) == 0,
        m.at(base + 4) == 0,
        step(carry_loop(base), m, fuel) is Some,
    ensures
        step(carry_loop(base), m, fuel) == Some(
            m.put(base + 4, m.at(base + 1)).put(base + 1, 0).put(base + 5, wrap(m.at(base + 5) + 1)).put(
                base + 3,
                0,
            ).seek(base + 2),
        ),
{
    let f = (fuel - 1) as nat;
    let b1 = (base + 1) as usize;
    let b2 = (base + 2) as usize;
    let b3 = (base + 3) as usize;
    let b4 = (base + 4) as usize;
    let b5 = (base + 5) as usize;
    let leg1 = moves(b3, b1);
    let leg2 = seq![drain_loop(b4, b1, Op::Inc)];
    let leg3 = moves(b1, b5);
    let leg4 = seq![Op::Inc];
    let leg5 = moves(b5, b3);
    let leg6 = seq![Op::Dec];
    let leg7 = moves(b3, b2);
    lemma_run_add(leg1 + leg2 + leg3 + leg4 + leg5 + leg6, leg7, m, f);
    lemma_run_add(leg1 + leg2 + leg3 + leg4 + leg5, leg6, m, f);
    lemma_run_add(leg1 + leg2 + leg3 + leg4, leg5, m, f);
    lemma_run_add(leg1 + leg2 + leg3, leg4, m, f);
    lemma_run_add(leg1 + leg2, leg3, m, f);
    lemma_run_add(leg1, leg2, m, f);
    lemma_run_moves(b3, b1, m, f);
    let m1 = m.seek(b1 as int);
    lemma_run_one(drain_loop(b4, b1, Op::Inc), m1, f);
    lemma_drain_loop(b4, b1, Op::Inc, m1, f);
    let m2 = m1.put(b4 as int, shift(Op::Inc, 0, m.at(b1 as int) as int)).put(b1 as int, 0);
    lemma_run_moves(b1, b5, m2, f);
    let m3 = m2.seek(b5 as int);
    lemma_run_one(Op::Inc, m3, f);
    let m4 = m3.put(b5 as int, wrap(m.at(b5 as int) + 1));
    assert(step(Op::Inc, m3, f) == Some(m4));
    lemma_run_moves(b5, b3, m4, f);
    let m5 = m4.seek(b3 as int);
    lemma_run_one(Op::Dec, m5, f);
    let m6 = m5.put(b3 as int, 0);
    assert(step(Op::Dec, m5, f) == Some(m6));
    lemma_run_moves(b3, b2, m6, f);
    let m7 = m6.seek(b2 as int);
    assert(m7.cur() == 0);
    if f > 0 {
        assert(step(carry_loop(base), m7, f) == Some(m7));
    }
    assert(m7.tape =~= m.put(base + 4, m.at(base + 1)).put(base + 1, 0).put(
        base + 5,
        wrap(m.at(base + 5) + 1),
    ).put(base + 3, 0).tape);
}

/// The three counters of the division loop as the block holds them.
pub open spec fn div_read(m: Machine, base: usize) -> DivState {
    DivState { rest: m.at(base + 1), count: m.at(base + 4), quot: m.at(base + 5) }
}

/// One round of the division loop: one is taken from the dividend and the
/// counters make one step.
pub proof fn lemma_div_round(base: usize, m: Machine, fuel: nat)
    requires
        m.wf(),
        m.head == base,
        base + 5 <= usize::MAX,
        m.at(base + 2) == 0,
        m.at(base + 3) == 0,
        run(div_round(base), m, fuel) is Some,
    ensures
        run(div_round(base), m, fuel) == Some(
            div_put(m.put(base as int, wrap(m.at(base as int) - 1)), base, div_next(div_read(m, base))),
        ),
{
    let b2 = (base + 2) as usize;
    let leg1 = div_front(base);
    let leg2 = seq![unmark_loop()];
    let leg3 = seq![Op::Left];
    let leg4 = seq![carry_loop(base)];
    let leg5 = moves(b2, base);
    lemma_run_add(leg1 + leg2 + leg3 + leg4, leg5, m, fuel);
    lemma_run_add(leg1 + leg2 + leg3, leg4, m, fuel);
    lemma_run_add(leg1 + leg2, leg3, m, fuel);
    lemma_run_add(leg1, leg2, m, fuel);
    lemma_div_front(base, m, fuel);
    let s = div_read(m, base);
    let m1 = m.put(base as int, wrap(m.at(base as int) - 1)).put(base + 1, wrap(s.rest + 1)).put(
        base + 3,
        1,
    ).put(base + 4, wrap(s.count - 1)).seek(base + 4);
    lemma_run_one(unmark_loop(), m1, fuel);
    lemma_unmark_loop(m1, fuel);
    let want = div_put(m.put(base as int, wrap(m.at(base as int) - 1)), base, div_next(s));
    if wrap(s.count - 1) != 0 {
        let m2 = m1.put(base + 3, 0).seek(base + 3);
        lemma_run_one(Op::Left, m2, fuel);
        let m3 = m2.seek(base + 2);
        lemma_run_one(carry_loop(base), m3, fuel);
        assert(m3.cur() == 0);
        assert(step(carry_loop(base), m3, fuel) == Some(m3));
        lemma_run_moves(b2, base, m3, fuel);
        assert(m3.seek(base as int).tape =~= want.tape);
    } else {
        lemma_run_one(Op::Left, m1, fuel);
        let m3 = m1.seek(base + 3);
        lemma_run_one(carry_loop(base), m3, fuel);
        lemma_carry_loop(base, m3, fuel);
        let m4 = m3.put(base + 4, m3.at(base + 1)).put(base + 1, 0).put(
            base + 5,
            wrap(m3.at(base + 5) + 1),
        ).put(base + 3, 0).seek(base + 2);
        lemma_run_moves(b2, base, m4, fuel);
        assert(m4.seek(base as int).tape =~= want.tape);
    }
}

/// The division loop leaves the dividend at zero and the counters where
/// as many rounds as the dividend held take them.
pub proof fn lemma_div_loop(base: usize, m: Machine, fuel: nat)
    requires
        m.wf(),
        m.head == base,
        base + 5 <= usize::MAX,
        m.at(base + 2) == 0,
        m.at(base + 3) == 0,
        step(div_loop(base), m, fuel) is Some,
    ensures
        step(div_loop(base), m, fuel) == Some(
            div_put(m.put(base as int, 0), base, div_walk(m.at(base as int), div_read(m, base))),
        ),
    decreases fuel,
{
    let n = m.at(base as int);
    let s = div_read(m, base);
    if n == 0 {
        assert(div_put(m.put(base as int, 0), base, s).tape =~= m.tape);
    } else {
        let f = (fuel - 1) as nat;
        lemma_div_round(base, m, f);
        let next = div_put(m.put(base as int, wrap(n - 1)), base, div_next(s));
        lemma_div_loop(base, next, f);
        assert(div_read(next, base) == div_next(s));
        assert(div_put(next.put(base as int, 0), base, div_walk(next.at(base as int), div_read(next, base))).tape
            =~= div_put(m.put(base as int, 0), base, div_walk(n, s)).tape);
    }
}

/// With a divisor that is not zero, the counters follow the division of
/// what has been counted so far.
pub proof fn lemma_div_walk(n: CellSize, d: CellSize, s: DivState)
    requires
        d > 0,
        s.rest + s.count == d,
        s.count >= 1,
        s.quot + n <= 0xff,
    ensures
        div_walk(n, s).rest == (s.rest + n) % (d as int),
        div_walk(n, s).count == d - (s.rest + n) % (d as int),
        div_walk(n, s).quot == s.quot + (s.rest + n) / (d as int),
    decreases n,
{
    if n == 0 {
        assert(s.rest < d);
        assert(s.rest as int % d as int == s.rest) by {
            vstd::arithmetic::div_mod::lemma_small_mod(s.rest as nat, d as nat);
        }
        assert(s.rest as int / d as int == 0) by {
            vstd::arithmetic::div_mod::lemma_basic_div(s.rest as int, d as int);
        }
    } else {
        let next = div_next(s);
        if s.count >= 2 {
            lemma_div_walk((n - 1) as CellSize, d, next);
        } else {
            assert(next == DivState { rest: 0, count: d, quot: (s.quot + 1) as CellSize });
            lemma_div_walk((n - 1) as CellSize, d, next);
            vstd::arithmetic::div_mod::lemma_mod_add_multiples_vanish(n - 1, d as int);
            vstd::arithmetic::div_mod::lemma_div_plus_one(n - 1, d as int);
        }
    }
}

/// With a divisor of zero the countdown never runs out: the remainder
/// takes everything and the quotient stays.
pub proof fn lemma_div_walk_zero(n: CellSize, s: DivState)
    requires
        s.count == wrap(0 - s.rest),
        s.rest + n <= 0xff,
    ensures
        div_walk(n, s).rest == s.rest + n,
        div_walk(n, s).count == wrap(0 - (s.rest + n)),
        div_walk(n, s).quot == s.quot,
    decreases n,
{
    if n > 0 {
        lemma_div_walk_zero((n - 1) as CellSize, div_next(s));
    }
}

/// The counters end at the remainder, what the countdown lacks of the
/// divisor, and the quotient.
pub proof fn lemma_div_result(n: CellSize, d: CellSize)
    ensures
        div_walk(n, DivState { rest: 0, count: d, quot: 0 }) == (DivState {
            rest: div_rest(n, d),
            count: wrap(d - div_rest(n, d)),
            quot: div_quot(n, d),
        }),
{
    let s = DivState { rest: 0, count: d, quot: 0 };
    if d == 0 {
        lemma_div_walk_zero(n, s);
    } else {
        lemma_div_walk(n, d, s);
        assert(0 <= (n as int) % (d as int) < d) by {
            vstd::arithmetic::div_mod::lemma_mod_bound(n as int, d as int);
        }
    }
}

/// What `Div` over the block at `base` does to the tape.
pub open spec fn div_effect(a: usize, b: usize, base: usize, m: Machine) -> Machine {
    let n = m.at(a as int);
    let d = m.at(b as int);
    m.put(a as int, 0).put(b as int, 0).put(base as int, 0).put(base + 1, div_rest(n, d)).put(base + 2, 0).put(
        base + 3,
        0,
    ).put(base + 4, wrap(d - div_rest(n, d))).put(base + 5, div_quot(n, d)).seek(base as int)
}

/// `Div` moves its operands into its block and divides them there.
pub proof fn lemma_div_runs(a: usize, b: usize, base: usize, from: usize, m: Machine, fuel: nat)
    requires
        m.wf(),
        m.head == from,
        base + 5 <= usize::MAX,
        a != b,
        !(base <= a <= base + 5),
        !(base <= b <= base + 5),
        run(div_code(a, b, base, from), m, fuel) is Some,
    ensures
        run(div_code(a, b, base, from), m, fuel) == Some(div_effect(a, b, base, m)),
{
    let b1 = (base + 1) as usize;
    let b2 = (base + 2) as usize;
    let b3 = (base + 3) as usize;
    let b4 = (base + 4) as usize;
    let b5 = (base + 5) as usize;
    let leg1 = move_code(base, a, from);
    let leg2 = move_code(b4, b, a);
    let leg3 = set_code(b1, 0, b);
    let leg4 = set_code(b2, 0, b1);
    let leg5 = set_code(b3, 0, b2);
    let leg6 = set_code(b5, 0, b3);
    let leg7 = moves(b5, base);
    let leg8 = seq![div_loop(base)];
    lemma_run_add(leg1 + leg2 + leg3 + leg4 + leg5 + leg6 + leg7, leg8, m, fuel);
    lemma_run_add(leg1 + leg2 + leg3 + leg4 + leg5 + leg6, leg7, m, fuel);
    lemma_run_add(leg1 + leg2 + leg3 + leg4 + leg5, leg6, m, fuel);
    lemma_run_add(leg1 + leg2 + leg3 + leg4, leg5, m, fuel);
    lemma_run_add(leg1 + leg2 + leg3, leg4, m, fuel);
    lemma_run_add(leg1 + leg2, leg3, m, fuel);
    lemma_run_add(leg1, leg2, m, fuel);
    let n = m.at(a as int);
    let d = m.at(b as int);
    lemma_move_runs(base, a, from, m, fuel);
    let m1 = m.put(base as int, n).put(a as int, 0).seek(a as int);
    lemma_move_runs(b4, b, a, m1, fuel);
    let m2 = m1.put(b4 as int, d).put(b as int, 0).seek(b as int);
    lemma_set_runs(b1, 0, b, m2, fuel);
    let m3 = m2.put(b1 as int, 0).seek(b1 as int);
    lemma_set_runs(b2, 0, b1, m3, fuel);
    let m4 = m3.put(b2 as int, 0).seek(b2 as int);
    lemma_set_runs(b3, 0, b2, m4, fuel);
    let m5 = m4.put(b3 as int, 0).seek(b3 as int);
    lemma_set_runs(b5, 0, b3, m5, fuel);
    let m6 = m5.put(b5 as int, 0).seek(b5 as int);
    lemma_run_moves(b5, base, m6, fuel);
    let m7 = m6.seek(base as int);
    lemma_run_one(div_loop(base), m7, fuel);
    lemma_div_loop(base, m7, fuel);
    lemma_div_result(n, d);
    assert(div_read(m7, base) == DivState { rest: 0, count: d, quot: 0 });
    let done = run(div_code(a, b, base, from), m, fuel)->0;
    assert(done.tape =~= div_effect(a, b, base, m).tape);
}


/// The program that zeroes the first `count` cells of the block at `base`,
/// one after the other, for a head on `from`.
pub open spec fn wipe_code(base: usize, count: nat, from: usize) -> Seq<Op>
    decreases count,
{
    if count == 0 {
        Seq::empty()
    } else {
        wipe_code(base, (count - 1) as nat, from) + set_code(
            (base + count - 1) as usize,
            0,
            if count == 1 {
                from
            } else {
                (base + count - 2) as usize
            },
        )
    }
}

/// The loop that walks the head left to the next cell that holds zero.
pub open spec fn left_loop() -> Op {
    Op::Loop(seq![Op::Left])
}

/// The loop that walks the head right to the next cell that holds zero.
pub open spec fn right_loop() -> Op {
    Op::Loop(seq![Op::Right])
}

/// The loop that takes one from the cell under the head, if there is one
/// to take, and steps left if more are left.
pub open spec fn take_loop() -> Op {
    Op::Loop(seq![Op::Dec, left_loop()])
}

/// The body of the comparison loop: one is taken from the first operand,
/// and one from the second if it has one.
pub open spec fn distance_round() -> Seq<Op> {
    seq![Op::Dec, Op::Right, Op::Right, take_loop(), Op::Left]
}

/// The comparison loop.
pub open spec fn distance_loop() -> Op {
    Op::Loop(distance_round())
}

/// The program of `Distance` over the block at `base` for a head on
/// `from`.
pub open spec fn distance_code(a: usize, b: usize, base: usize, from: usize) -> Seq<Op> {
    wipe_code(base, 6, from) + set_code(base, 1, (base + 5) as usize) + set_code(
        (base + 1) as usize,
        1,
        base,
    ) + move_code((base + 3) as usize, a, (base + 1) as usize) + move_code((base + 5) as usize, b, a)
        + moves(b, (base + 3) as usize) + seq![distance_loop()] + seq![Op::Left, Op::Left, Op::Left]
        + seq![right_loop()]
}

/// Zeroing the first cells of a block leaves them at zero, the head on
/// the last of them, and everything else as it was.
pub proof fn lemma_wipe_runs(base: usize, count: nat, from: usize, m: Machine, fuel: nat)
    requires
        m.wf(),
        m.head == from,
        base + count <= usize::MAX,
        run(wipe_code(base, count, from), m, fuel) is Some,
    ensures
        run(wipe_code(base, count, from), m, fuel) is Some,
        ({
            let done = run(wipe_code(base, count, from), m, fuel)->0;
            &&& done.wf()
            &&& done.head == (if count == 0 {
                from as int
            } else {
                base + count - 1
            })
            &&& done.input == m.input
            &&& done.answers == m.answers
            &&& done.output == m.output
            &&& forall|j: int| base <= j < base + count ==> #[trigger] done.tape[j] == 0
            &&& forall|j: int| !(base <= j < base + count) ==> #[trigger] done.tape[j] == m.tape[j]
        }),
    decreases count,
{
    if count == 0 {
        assert(run(wipe_code(base, count, from), m, fuel) == Some(m));
    } else {
        let before = wipe_code(base, (count - 1) as nat, from);
        let prev = if count == 1 {
            from
        } else {
            (base + count - 2) as usize
        };
        let last = set_code((base + count - 1) as usize, 0, prev);
        lemma_run_add(before, last, m, fuel);
        lemma_wipe_runs(base, (count - 1) as nat, from, m, fuel);
        let mid = run(before, m, fuel)->0;
        lemma_set_runs((base + count - 1) as usize, 0, prev, mid, fuel);
        let done = mid.put(base + count - 1, 0).seek(base + count - 1);
        assert(run(wipe_code(base, count, from), m, fuel) == Some(done));
        assert forall|j: int| base <= j < base + count implies #[trigger] done.tape[j] == 0 by {
            if j < base + count - 1 {
                assert(mid.tape[j] == 0);
            }
        }
        assert forall|j: int| !(base <= j < base + count) implies #[trigger] done.tape[j] == m.tape[j] by {
            assert(mid.tape[j] == m.tape[j]);
        }
    }
}

/// The loop that walks left, entered on a cell whose left neighbour holds
/// zero, steps onto that neighbour unless it stands on zero itself.
pub proof fn lemma_left_loop(m: Machine, fuel: nat)
    requires
        m.wf(),
        m.at(m.head - 1) == 0,
        step(left_loop(), m, fuel) is Some,
    ensures
        step(left_loop(), m, fuel) == Some(
            if m.cur() == 0 {
                m
            } else {
                m.seek(m.head - 1)
            },
        ),
{
    if m.cur() != 0 {
        let f = (fuel - 1) as nat;
        lemma_run_one(Op::Left, m, f);
        let m1 = m.seek(m.head - 1);
        if f > 0 {
            assert(step(left_loop(), m1, f) == Some(m1));
        }
    }
}

/// The taking loop, entered on a cell whose left neighbour holds zero.
pub proof fn lemma_take_loop(m: Machine, fuel: nat)
    requires
        m.wf(),
        m.at(m.head - 1) == 0,
        step(take_loop(), m, fuel) is Some,
    ensures
        step(take_loop(), m, fuel) == Some(
            if m.cur() == 0 {
                m
            } else if m.cur() == 1 {
                m.put(m.head, 0)
            } else {
                m.put(m.head, (m.cur() - 1) as CellSize).seek(m.head - 1)
            },
        ),
{
    if m.cur() != 0 {
        let f = (fuel - 1) as nat;
        assert(seq![Op::Dec, left_loop()] =~= seq![Op::Dec] + seq![left_loop()]);
        lemma_run_add(seq![Op::Dec], seq![left_loop()], m, f);
        lemma_run_one(Op::Dec, m, f);
        let m1 = m.put(m.head, wrap(m.cur() - 1));
        lemma_run_one(left_loop(), m1, f);
        lemma_left_loop(m1, f);
        let m2 = if m1.cur() == 0 {
            m1
        } else {
            m1.seek(m1.head - 1)
        };
        assert(m2.cur() == 0);
        if f > 0 {
            assert(step(take_loop(), m2, f) == Some(m2));
        }
    }
}

/// The two counters of the comparison loop and where it stops: on the gap
/// behind the first operand, or on the first operand itself.
pub struct DistState {
    pub gt: CellSize,
    pub lt: CellSize,
    pub gap: bool,
}

/// The counters after the comparison loop.
pub open spec fn dist_walk(a: CellSize, b: CellSize) -> DistState
    decreases a,
{
    if a == 0 {
        DistState { gt: 0, lt: b, gap: false }
    } else if b >= 2 {
        dist_walk((a - 1) as CellSize, (b - 1) as CellSize)
    } else {
        DistState { gt: (a - 1) as CellSize, lt: 0, gap: true }
    }
}

/// By how much the first operand exceeds the second, as the comparison
/// idiom counts it: one less against a second operand of zero.
pub open spec fn gt_of(a: CellSize, b: CellSize) -> CellSize {
    if a > b {
        if b == 0 {
            (a - 1) as CellSize
        } else {
            (a - b) as CellSize
        }
    } else {
        0
    }
}

/// By how much the second operand exceeds the first.
pub open spec fn lt_of(a: CellSize, b: CellSize) -> CellSize {
    if a < b {
        (b - a) as CellSize
    } else {
        0
    }
}

/// The counters end at the two excesses.
pub proof fn lemma_dist_walk(a: CellSize, b: CellSize)
    ensures
        dist_walk(a, b).gt == gt_of(a, b),
        dist_walk(a, b).lt == lt_of(a, b),
    decreases a,
{
    if a != 0 && b >= 2 {
        lemma_dist_walk((a - 1) as CellSize, (b - 1) as CellSize);
    }
}

/// One round of the comparison loop over the block at `base`.
pub proof fn lemma_distance_round(base: usize, m: Machine, fuel: nat)
    requires
        m.wf(),
        m.head == base + 3,
        base + 5 <= usize::MAX,
        m.at(base + 4) == 0,
        m.at(base + 3) != 0,
        run(distance_round(), m, fuel) is Some,
    ensures
        run(distance_round(), m, fuel) == Some(
            if m.at(base + 5) >= 2 {
                m.put(base + 3, (m.at(base + 3) - 1) as CellSize).put(
                    base + 5,
                    (m.at(base + 5) - 1) as CellSize,
                )
            } else {
                m.put(base + 3, (m.at(base + 3) - 1) as CellSize).put(base + 5, 0).seek(base + 4)
            },
        ),
{
    let leg1 = seq![Op::Dec];
    let leg2 = seq![Op::Right];
    let leg3 = seq![Op::Right];
    let leg4 = seq![take_loop()];
    let leg5 = seq![Op::Left];
    assert(distance_round() =~= leg1 + leg2 + leg3 + leg4 + leg5);
    lemma_run_add(leg1 + leg2 + leg3 + leg4, leg5, m, fuel);
    lemma_run_add(leg1 + leg2 + leg3, leg4, m, fuel);
    lemma_run_add(leg1 + leg2, leg3, m, fuel);
    lemma_run_add(leg1, leg2, m, fuel);
    lemma_run_one(Op::Dec, m, fuel);
    let m1 = m.put(base + 3, (m.at(base + 3) - 1) as CellSize);
    assert(step(Op::Dec, m, fuel) == Some(m1));
    lemma_run_one(Op::Right, m1, fuel);
    let m2 = m1.seek(base + 4);
    lemma_run_one(Op::Right, m2, fuel);
    let m3 = m2.seek(base + 5);
    lemma_run_one(take_loop(), m3, fuel);
    lemma_take_loop(m3, fuel);
    let m4 = step(take_loop(), m3, fuel)->0;
    lemma_run_one(Op::Left, m4, fuel);
    let want = if m.at(base + 5) >= 2 {
        m.put(base + 3, (m.at(base + 3) - 1) as CellSize).put(base + 5, (m.at(base + 5) - 1) as CellSize)
    } else {
        m.put(base + 3, (m.at(base + 3) - 1) as CellSize).put(base + 5, 0).seek(base + 4)
    };
    assert(m4.seek(m4.head - 1).tape =~= want.tape);
}

/// The comparison loop leaves the two excesses in the fourth and sixth
/// cell of its block, and the head on the fourth cell or on the gap behind
/// it.
pub proof fn lemma_distance_loop(base: usize, m: Machine, fuel: nat)
    requires
        m.wf(),
        m.head == base + 3,
        base + 5 <= usize::MAX,
        m.at(base + 4) == 0,
        step(distance_loop(), m, fuel) is Some,
    ensures
        ({
            let w = dist_walk(m.at(base + 3), m.at(base + 5));
            step(distance_loop(), m, fuel) == Some(
                m.put(base + 3, w.gt).put(base + 5, w.lt).seek(
                    if w.gap {
                        base + 4
                    } else {
                        base + 3
                    },
                ),
            )
        }),
    decreases fuel,
{
    let a = m.at(base + 3);
    let b = m.at(base + 5);
    let w = dist_walk(a, b);
    if a == 0 {
        assert(m.put(base + 3, w.gt).put(base + 5, w.lt).tape =~= m.tape);
    } else {
        let f = (fuel - 1) as nat;
        lemma_distance_round(base, m, f);
        let next = run(distance_round(), m, f)->0;
        if b >= 2 {
            lemma_distance_loop(base, next, f);
            assert(next.put(base + 3, w.gt).put(base + 5, w.lt).tape =~= m.put(base + 3, w.gt).put(
                base + 5,
                w.lt,
            ).tape);
        } else {
            assert(next.cur() == 0);
            if f > 0 {
                assert(step(distance_loop(), next, f) == Some(next));
            }
        }
    }
}

/// The loop that walks right, entered on the first or the second of two
/// cells that hold one before a cell that holds zero, stops on that cell.
pub proof fn lemma_right_loop(base: usize, m: Machine, fuel: nat)
    requires
        m.wf(),
        m.head == base || m.head == base + 1,
        m.at(base as int) == 1,
        m.at(base + 1) == 1,
        m.at(base + 2) == 0,
        step(right_loop(), m, fuel) is Some,
    ensures
        step(right_loop(), m, fuel) == Some(m.seek(base + 2)),
{
    let f = (fuel - 1) as nat;
    lemma_run_one(Op::Right, m, f);
    let m1 = m.seek(m.head + 1);
    if m.head == base {
        let g = (f - 1) as nat;
        lemma_run_one(Op::Right, m1, g);
        let m2 = m1.seek(base + 2);
        if g > 0 {
            assert(step(right_loop(), m2, g) == Some(m2));
        }
    } else {
        if f > 0 {
            assert(step(right_loop(), m1, f) == Some(m1));
        }
    }
}

/// What `Distance` over the block at `base` does to the tape.
pub open spec fn distance_effect(a: usize, b: usize, base: usize, m: Machine) -> Machine {
    let n = m.at(a as int);
    let d = m.at(b as int);
    m.put(a as int, 0).put(b as int, 0).put(base as int, 1).put(base + 1, 1).put(base + 2, 0).put(
        base + 3,
        gt_of(n, d),
    ).put(base + 4, 0).put(base + 5, lt_of(n, d)).seek(base + 2)
}

/// `Distance` sets up its block, moves its operands into it and compares
/// them there.
pub proof fn lemma_distance_runs(a: usize, b: usize, base: usize, from: usize, m: Machine, fuel: nat)
    requires
        m.wf(),
        m.head == from,
        base + 6 <= usize::MAX,
        a != b,
        !(base <= a <= base + 6),
        !(base <= b <= base + 6),
        run(distance_code(a, b, base, from), m, fuel) is Some,
    ensures
        run(distance_code(a, b, base, from), m, fuel) == Some(distance_effect(a, b, base, m)),
{
    let b1 = (base + 1) as usize;
    let b3 = (base + 3) as usize;
    let b5 = (base + 5) as usize;
    let leg1 = wipe_code(base, 6, from);
    let leg2 = set_code(base, 1, b5);
    let leg3 = set_code(b1, 1, base);
    let leg4 = move_code(b3, a, b1);
    let leg5 = move_code(b5, b, a);
    let leg6 = moves(b, b3);
    let leg7 = seq![distance_loop()];
    let leg8 = seq![Op::Left, Op::Left, Op::Left];
    let leg9 = seq![right_loop()];
    lemma_run_add(leg1 + leg2 + leg3 + leg4 + leg5 + leg6 + leg7 + leg8, leg9, m, fuel);
    lemma_run_add(leg1 + leg2 + leg3 + leg4 + leg5 + leg6 + leg7, leg8, m, fuel);
    lemma_run_add(leg1 + leg2 + leg3 + leg4 + leg5 + leg6, leg7, m, fuel);
    lemma_run_add(leg1 + leg2 + leg3 + leg4 + leg5, leg6, m, fuel);
    lemma_run_add(leg1 + leg2 + leg3 + leg4, leg5, m, fuel);
    lemma_run_add(leg1 + leg2 + leg3, leg4, m, fuel);
    lemma_run_add(leg1 + leg2, leg3, m, fuel);
    lemma_run_add(leg1, leg2, m, fuel);
    let n = m.at(a as int);
    let d = m.at(b as int);
    lemma_wipe_runs(base, 6, from, m, fuel);
    let m1 = run(leg1, m, fuel)->0;
    assert(m1.tape[base + 2] == 0 && m1.tape[base + 4] == 0 && m1.tape[base + 3] == 0 && m1.tape[base + 5]
        == 0);
    assert(m1.tape[a as int] == n && m1.tape[b as int] == d);
    lemma_set_runs(base, 1, b5, m1, fuel);
    let m2 = m1.put(base as int, 1).seek(base as int);
    lemma_set_runs(b1, 1, base, m2, fuel);
    let m3 = m2.put(b1 as int, 1).seek(b1 as int);
    lemma_move_runs(b3, a, b1, m3, fuel);
    let m4 = m3.put(b3 as int, n).put(a as int, 0).seek(a as int);
    lemma_move_runs(b5, b, a, m4, fuel);
    let m5 = m4.put(b5 as int, d).put(b as int, 0).seek(b as int);
    lemma_run_moves(b, b3, m5, fuel);
    let m6 = m5.seek(b3 as int);
    lemma_run_one(distance_loop(), m6, fuel);
    lemma_distance_loop(base, m6, fuel);
    lemma_dist_walk(n, d);
    let w = dist_walk(n, d);
    let m7 = m6.put(base + 3, w.gt).put(base + 5, w.lt).seek(
        if w.gap {
            base + 4
        } else {
            base + 3
        },
    );
    assert(leg8 =~= seq![Op::Left] + seq![Op::Left] + seq![Op::Left]);
    lemma_run_add(seq![Op::Left] + seq![Op::Left], seq![Op::Left], m7, fuel);
    lemma_run_add(seq![Op::Left], seq![Op::Left], m7, fuel);
    lemma_run_one(Op::Left, m7, fuel);
    lemma_run_one(Op::Left, m7.seek(m7.head - 1), fuel);
    lemma_run_one(Op::Left, m7.seek(m7.head - 2), fuel);
    let m8 = m7.seek(m7.head - 3);
    lemma_run_one(right_loop(), m8, fuel);
    lemma_right_loop(base, m8, fuel);
    let done = run(distance_code(a, b, base, from), m, fuel)->0;
    assert(done.tape =~= distance_effect(a, b, base, m).tape);
}

/// The number of rounds that is enough for every loop that counts one
/// cell down to zero and holds no other loop.
pub open spec fn round_count() -> nat {
    256
}

/// The number of loop rounds that is enough for the program of every
/// instruction without a block.
pub open spec fn full_count() -> nat {
    1024
}

/// The emptying loop ends, whatever the cell under the head holds.
pub proof fn lemma_zero_loop_ends(m: Machine, fuel: nat)
    requires
        fuel >= round_count(),
        m.wf(),
    ensures
        step(zero_loop(), m, fuel) == Some(m.put(m.head, 0)),
{
    assert forall|s: Machine| s.head == m.head && s.cur() != 0 implies {
        &&& (#[trigger] run(seq![Op::Dec], s, 0)) is Some
        &&& run(seq![Op::Dec], s, 0)->0.head == m.head
        &&& run(seq![Op::Dec], s, 0)->0.cur() == s.cur() - 1
    } by {
        lemma_run_one(Op::Dec, s, 0);
    }
    lemma_countdown_ends(seq![Op::Dec], m, 0);
    lemma_step_lasts(zero_loop(), m, (m.cur() as nat) + 1, fuel);
    lemma_zero_loop(m, fuel);
}

/// The program of `Clear` ends.
pub proof fn lemma_clear_ends(cell: usize, from: usize, m: Machine, fuel: nat)
    requires
        fuel >= round_count(),
        m.wf(),
        m.head == from,
    ensures
        run(clear_code(cell, from), m, fuel) is Some,
{
    lemma_run_add(moves(from, cell), seq![zero_loop()], m, fuel);
    lemma_run_moves(from, cell, m, fuel);
    let at = m.seek(cell as int);
    lemma_run_one(zero_loop(), at, fuel);
    lemma_zero_loop_ends(at, fuel);
}

/// The program of `SetCell` ends.
pub proof fn lemma_set_ends(cell: usize, value: CellSize, from: usize, m: Machine, fuel: nat)
    requires
        fuel >= round_count(),
        m.wf(),
        m.head == from,
    ensures
        run(set_code(cell, value, from), m, fuel) is Some,
{
    let go = moves(from, cell);
    let clear = clear_code(cell, cell);
    let plus = times(Op::Inc, value as nat);
    lemma_run_add(go + clear, plus, m, fuel);
    lemma_run_add(go, clear, m, fuel);
    lemma_run_moves(from, cell, m, fuel);
    let at = m.seek(cell as int);
    lemma_clear_ends(cell, cell, at, fuel);
    lemma_clear_runs(cell, cell, at, fuel);
    let zeroed = at.put(cell as int, 0).seek(cell as int);
    lemma_run_incs(value as nat, zeroed, fuel);
}

/// The draining loop ends, whatever `b` holds.
pub proof fn lemma_drain_loop_ends(a: usize, b: usize, op: Op, m: Machine, fuel: nat)
    requires
        fuel >= round_count(),
        m.wf(),
        m.head == b,
        a != b,
        op == Op::Inc || op == Op::Dec,
    ensures
        step(drain_loop(a, b, op), m, fuel) is Some,
{
    let body = drain_loop(a, b, op)->Loop_0;
    let kind = |s: Machine| s.wf() && s.head == b;
    let measure = |s: Machine| s.cur() as nat;
    assert forall|s: Machine| kind(s) && s.cur() != 0 implies {
        &&& (#[trigger] run(body, s, 0)) is Some
        &&& kind(run(body, s, 0)->0)
        &&& measure(run(body, s, 0)->0) < measure(s)
    } by {
        lemma_drain_round(a, b, op, s, 0);
    }
    lemma_loop_ends(body, m, 0, kind, measure);
    lemma_step_lasts(drain_loop(a, b, op), m, measure(m) + 1, fuel);
}

/// The programs of `Add` and `Sub` end.
pub proof fn lemma_fold_ends(a: usize, b: usize, op: Op, from: usize, m: Machine, fuel: nat)
    requires
        fuel >= round_count(),
        m.wf(),
        m.head == from,
        a != b,
        op == Op::Inc || op == Op::Dec,
    ensures
        run(moves(from, b) + seq![drain_loop(a, b, op)], m, fuel) is Some,
{
    lemma_run_add(moves(from, b), seq![drain_loop(a, b, op)], m, fuel);
    lemma_run_moves(from, b, m, fuel);
    let at = m.seek(b as int);
    lemma_run_one(drain_loop(a, b, op), at, fuel);
    lemma_drain_loop_ends(a, b, op, at, fuel);
}

/// The program of `Move` ends.
pub proof fn lemma_move_ends(a: usize, b: usize, from: usize, m: Machine, fuel: nat)
    requires
        fuel >= round_count(),
        m.wf(),
        m.head == from,
        a != b,
    ensures
        run(move_code(a, b, from), m, fuel) is Some,
{
    let clear = clear_code(a, from);
    let rest = moves(a, b) + seq![drain_loop(a, b, Op::Inc)];
    assert(move_code(a, b, from) =~= clear + rest);
    lemma_run_add(clear, rest, m, fuel);
    lemma_clear_ends(a, from, m, fuel);
    lemma_clear_runs(a, from, m, fuel);
    let cleared = m.put(a as int, 0).seek(a as int);
    lemma_fold_ends(a, b, Op::Inc, a, cleared, fuel);
}

/// The refilling loop ends, whatever `tmp` holds.
pub proof fn lemma_refill_loop_ends(a: usize, tmp: usize, b: usize, m: Machine, fuel: nat)
    requires
        fuel >= round_count(),
        m.wf(),
        m.head == tmp,
        a != b,
        a != tmp,
        b != tmp,
    ensures
        step(refill_loop(a, tmp, b), m, fuel) is Some,
{
    let body = refill_loop(a, tmp, b)->Loop_0;
    let kind = |s: Machine| s.wf() && s.head == tmp;
    let measure = |s: Machine| s.cur() as nat;
    assert forall|s: Machine| kind(s) && s.cur() != 0 implies {
        &&& (#[trigger] run(body, s, 0)) is Some
        &&& kind(run(body, s, 0)->0)
        &&& measure(run(body, s, 0)->0) < measure(s)
    } by {
        lemma_refill_round(a, tmp, b, s, 0);
    }
    lemma_loop_ends(body, m, 0, kind, measure);
    lemma_step_lasts(refill_loop(a, tmp, b), m, measure(m) + 1, fuel);
}

/// The program of `Copy` ends.
pub proof fn lemma_copy_ends(a: usize, tmp: usize, b: usize, from: usize, m: Machine, fuel: nat)
    requires
        fuel >= round_count(),
        m.wf(),
        m.head == from,
        a != b,
        a != tmp,
        b != tmp,
    ensures
        run(copy_code(a, tmp, b, from), m, fuel) is Some,
{
    let leg1 = clear_code(a, from);
    let leg2 = move_code(tmp, b, a);
    let leg3 = moves(b, tmp);
    let leg4 = seq![refill_loop(a, tmp, b)];
    let leg5 = moves(tmp, a);
    lemma_run_add(leg1 + leg2 + leg3 + leg4, leg5, m, fuel);
    lemma_run_add(leg1 + leg2 + leg3, leg4, m, fuel);
    lemma_run_add(leg1 + leg2, leg3, m, fuel);
    lemma_run_add(leg1, leg2, m, fuel);
    lemma_clear_ends(a, from, m, fuel);
    lemma_clear_runs(a, from, m, fuel);
    let m1 = m.put(a as int, 0).seek(a as int);
    lemma_move_ends(tmp, b, a, m1, fuel);
    lemma_move_runs(tmp, b, a, m1, fuel);
    let m2 = m1.put(tmp as int, m1.at(b as int)).put(b as int, 0).seek(b as int);
    lemma_run_moves(b, tmp, m2, fuel);
    let m3 = m2.seek(tmp as int);
    lemma_run_one(refill_loop(a, tmp, b), m3, fuel);
    lemma_refill_loop_ends(a, tmp, b, m3, fuel);
    lemma_refill_loop(a, tmp, b, m3, fuel);
    let m4 = m3.put(a as int, wrap(m3.at(a as int) + m3.at(tmp as int))).put(
        b as int,
        wrap(m3.at(b as int) + m3.at(tmp as int)),
    ).put(tmp as int, 0);
    lemma_run_moves(tmp, a, m4, fuel);
}

/// One round of the unsetting loop ends with `a` at zero and one taken
/// from `tmp`.
pub proof fn lemma_unset_round(a: usize, tmp: usize, m: Machine, fuel: nat)
    requires
        fuel >= round_count(),
        m.wf(),
        m.head == a,
        a != tmp,
    ensures
        run(unset_loop(a, tmp)->Loop_0, m, fuel) == Some(
            m.put(a as int, 0).put(tmp as int, wrap(m.at(tmp as int) - 1)),
        ),
{
    let leg1 = seq![zero_loop()];
    let leg2 = moves(a, tmp);
    let leg3 = seq![Op::Dec];
    let leg4 = moves(tmp, a);
    lemma_run_add(leg1 + leg2 + leg3, leg4, m, fuel);
    lemma_run_add(leg1 + leg2, leg3, m, fuel);
    lemma_run_add(leg1, leg2, m, fuel);
    lemma_run_one(zero_loop(), m, fuel);
    lemma_zero_loop_ends(m, fuel);
    let m1 = m.put(a as int, 0);
    lemma_run_moves(a, tmp, m1, fuel);
    let m2 = m1.seek(tmp as int);
    lemma_run_one(Op::Dec, m2, fuel);
    let m3 = m2.put(tmp as int, wrap(m.at(tmp as int) - 1));
    assert(step(Op::Dec, m2, fuel) == Some(m3));
    lemma_run_moves(tmp, a, m3, fuel);
    assert(m3.seek(a as int) == m.put(a as int, 0).put(tmp as int, wrap(m.at(tmp as int) - 1)));
}

/// The unsetting loop ends after one round at most.
pub proof fn lemma_unset_loop_ends(a: usize, tmp: usize, m: Machine, fuel: nat)
    requires
        fuel >= full_count(),
        m.wf(),
        m.head == a,
        a != tmp,
    ensures
        step(unset_loop(a, tmp), m, fuel) is Some,
{
    let body = unset_loop(a, tmp)->Loop_0;
    let kind = |s: Machine| s.wf() && s.head == a;
    let measure = |s: Machine| s.cur() as nat;
    assert forall|s: Machine| kind(s) && s.cur() != 0 implies {
        &&& (#[trigger] run(body, s, round_count())) is Some
        &&& kind(run(body, s, round_count())->0)
        &&& measure(run(body, s, round_count())->0) < measure(s)
    } by {
        lemma_unset_round(a, tmp, s, round_count());
    }
    lemma_loop_ends(body, m, round_count(), kind, measure);
    lemma_step_lasts(unset_loop(a, tmp), m, round_count() + measure(m) + 1, fuel);
}

/// The program of `BoolNegate` ends.
pub proof fn lemma_negate_ends(a: usize, tmp: usize, from: usize, m: Machine, fuel: nat)
    requires
        fuel >= full_count(),
        m.wf(),
        m.head == from,
        a != tmp,
    ensures
        run(negate_code(a, tmp, from), m, fuel) is Some,
{
    let leg1 = moves(from, tmp);
    let leg2 = seq![zero_loop(), Op::Inc];
    let leg3 = moves(tmp, a);
    let leg4 = seq![unset_loop(a, tmp)];
    let leg5 = moves(a, tmp);
    let leg6 = seq![drain_loop(a, tmp, Op::Inc)];
    let leg7 = moves(tmp, a);
    lemma_run_add(leg1 + leg2 + leg3 + leg4 + leg5 + leg6, leg7, m, fuel);
    lemma_run_add(leg1 + leg2 + leg3 + leg4 + leg5, leg6, m, fuel);
    lemma_run_add(leg1 + leg2 + leg3 + leg4, leg5, m, fuel);
    lemma_run_add(leg1 + leg2 + leg3, leg4, m, fuel);
    lemma_run_add(leg1 + leg2, leg3, m, fuel);
    lemma_run_add(leg1, leg2, m, fuel);
    lemma_run_moves(from, tmp, m, fuel);
    let m1 = m.seek(tmp as int);
    assert(leg2 =~= seq![zero_loop()] + seq![Op::Inc]);
    lemma_run_add(seq![zero_loop()], seq![Op::Inc], m1, fuel);
    lemma_run_one(zero_loop(), m1, fuel);
    lemma_zero_loop_ends(m1, fuel);
    let m1z = m1.put(tmp as int, 0);
    lemma_run_one(Op::Inc, m1z, fuel);
    let m2 = m1z.put(tmp as int, 1);
    assert(step(Op::Inc, m1z, fuel) == Some(m2));
    lemma_run_moves(tmp, a, m2, fuel);
    let m3 = m2.seek(a as int);
    lemma_run_one(unset_loop(a, tmp), m3, fuel);
    lemma_unset_loop_ends(a, tmp, m3, fuel);
    lemma_unset_loop(a, tmp, m3, fuel);
    let m4 = if m.at(a as int) == 0 {
        m3
    } else {
        m3.put(a as int, 0).put(tmp as int, 0)
    };
    lemma_run_moves(a, tmp, m4, fuel);
    let m5 = m4.seek(tmp as int);
    lemma_run_one(drain_loop(a, tmp, Op::Inc), m5, fuel);
    lemma_drain_loop_ends(a, tmp, Op::Inc, m5, fuel);
    lemma_drain_loop(a, tmp, Op::Inc, m5, fuel);
    let m6 = m5.put(a as int, shift(Op::Inc, m5.at(a as int), m5.at(tmp as int) as int)).put(tmp as int, 0);
    lemma_run_moves(tmp, a, m6, fuel);
}

/// One round of the multiplication loop ends.
pub proof fn lemma_mul_round_ends(base: usize, m: Machine, fuel: nat)
    requires
        fuel >= round_count(),
        m.wf(),
        m.head == base,
        base + 3 <= usize::MAX,
    ensures
        run(mul_round(base), m, fuel) is Some,
{
    let b0 = base;
    let b1 = (base + 1) as usize;
    let b2 = (base + 2) as usize;
    let b3 = (base + 3) as usize;
    let leg1 = moves(b0, b1);
    let leg2 = seq![refill_loop(b2, b1, b3)];
    let leg3 = moves(b1, b2);
    let leg4 = seq![drain_loop(b1, b2, Op::Inc)];
    let leg5 = moves(b2, b0);
    let leg6 = seq![Op::Dec];
    lemma_run_add(leg1 + leg2 + leg3 + leg4 + leg5, leg6, m, fuel);
    lemma_run_add(leg1 + leg2 + leg3 + leg4, leg5, m, fuel);
    lemma_run_add(leg1 + leg2 + leg3, leg4, m, fuel);
    lemma_run_add(leg1 + leg2, leg3, m, fuel);
    lemma_run_add(leg1, leg2, m, fuel);
    lemma_run_moves(b0, b1, m, fuel);
    let m1 = m.seek(b1 as int);
    lemma_run_one(refill_loop(b2, b1, b3), m1, fuel);
    lemma_refill_loop_ends(b2, b1, b3, m1, fuel);
    lemma_refill_loop(b2, b1, b3, m1, fuel);
    let x = m.at(b1 as int);
    let m2 = m1.put(b2 as int, wrap(m.at(b2 as int) + x)).put(b3 as int, wrap(m.at(b3 as int) + x)).put(
        b1 as int,
        0,
    );
    lemma_run_moves(b1, b2, m2, fuel);
    let m3 = m2.seek(b2 as int);
    lemma_run_one(drain_loop(b1, b2, Op::Inc), m3, fuel);
    lemma_drain_loop_ends(b1, b2, Op::Inc, m3, fuel);
    lemma_drain_loop(b1, b2, Op::Inc, m3, fuel);
    let m4 = m3.put(b1 as int, shift(Op::Inc, 0, m3.at(b2 as int) as int)).put(b2 as int, 0);
    lemma_run_moves(b2, b0, m4, fuel);
    let m5 = m4.seek(b0 as int);
    lemma_run_one(Op::Dec, m5, fuel);
}

/// The multiplication loop ends, whatever its block holds.
pub proof fn lemma_mul_loop_ends(base: usize, m: Machine, fuel: nat)
    requires
        fuel >= full_count(),
        m.wf(),
        m.head == base,
        base + 3 <= usize::MAX,
    ensures
        step(mul_loop(base), m, fuel) is Some,
{
    let body = mul_round(base);
    let kind = |s: Machine| s.wf() && s.head == base;
    let measure = |s: Machine| s.cur() as nat;
    assert forall|s: Machine| kind(s) && s.cur() != 0 implies {
        &&& (#[trigger] run(body, s, round_count())) is Some
        &&& kind(run(body, s, round_count())->0)
        &&& measure(run(body, s, round_count())->0) < measure(s)
    } by {
        lemma_mul_round_ends(base, s, round_count());
        lemma_mul_round(base, s, round_count());
    }
    lemma_loop_ends(body, m, round_count(), kind, measure);
    lemma_step_lasts(mul_loop(base), m, round_count() + measure(m) + 1, fuel);
}

/// The program of `Mul` ends.
pub proof fn lemma_mul_ends(a: usize, b: usize, base: usize, from: usize, m: Machine, fuel: nat)
    requires
        fuel >= full_count(),
        m.wf(),
        m.head == from,
        base + 3 <= usize::MAX,
        a != b,
        !(base <= a <= base + 3),
        !(base <= b <= base + 3),
    ensures
        run(mul_code(a, b, base, from), m, fuel) is Some,
{
    let b1 = (base + 1) as usize;
    let leg1 = move_code(base, a, from);
    let leg2 = move_code(b1, b, a);
    let leg3 = moves(b, base);
    let leg4 = seq![mul_loop(base)];
    lemma_run_add(leg1 + leg2 + leg3, leg4, m, fuel);
    lemma_run_add(leg1 + leg2, leg3, m, fuel);
    lemma_run_add(leg1, leg2, m, fuel);
    lemma_move_ends(base, a, from, m, fuel);
    lemma_move_runs(base, a, from, m, fuel);
    let m1 = m.put(base as int, m.at(a as int)).put(a as int, 0).seek(a as int);
    lemma_move_ends(b1, b, a, m1, fuel);
    lemma_move_runs(b1, b, a, m1, fuel);
    let m2 = m1.put(b1 as int, m1.at(b as int)).put(b as int, 0).seek(b as int);
    lemma_run_moves(b, base, m2, fuel);
    let m3 = m2.seek(base as int);
    lemma_run_one(mul_loop(base), m3, fuel);
    lemma_mul_loop_ends(base, m3, fuel);
}

/// The unmarking loop ends after one round at most.
pub proof fn lemma_unmark_loop_ends(m: Machine, fuel: nat)
    requires
        fuel >= round_count(),
        m.wf(),
        m.at(m.head - 1) == 1,
    ensures
        step(unmark_loop(), m, fuel) is Some,
{
    if m.cur() != 0 {
        let f = (fuel - 1) as nat;
        assert(seq![Op::Left, Op::Dec] =~= seq![Op::Left] + seq![Op::Dec]);
        lemma_run_add(seq![Op::Left], seq![Op::Dec], m, f);
        lemma_run_one(Op::Left, m, f);
        let m1 = m.seek(m.head - 1);
        lemma_run_one(Op::Dec, m1, f);
        let m2 = m1.put(m.head - 1, 0);
        assert(step(Op::Dec, m1, f) == Some(m2));
        assert(m2.cur() == 0);
        assert(step(unmark_loop(), m2, f) == Some(m2));
    }
}

/// The carrying loop ends after one round at most.
pub proof fn lemma_carry_loop_ends(base: usize, m: Machine, fuel: nat)
    requires
        fuel >= round_count() + 2,
        m.wf(),
        m.head == base + 3,
        base + 5 <= usize::MAX,
        m.at(base + 3) == 1,
        m.at(base + 2) == 0,
        m.at(base + 4) == 0,
    ensures
        step(carry_loop(base), m, fuel) is Some,
{
    let f = (fuel - 1) as nat;
    let b1 = (base + 1) as usize;
    let b2 = (base + 2) as usize;
    let b3 = (base + 3) as usize;
    let b4 = (base + 4) as usize;
    let b5 = (base + 5) as usize;
    let leg1 = moves(b3, b1);
    let leg2 = seq![drain_loop(b4, b1, Op::Inc)];
    let leg3 = moves(b1, b5);
    let leg4 = seq![Op::Inc];
    let leg5 = moves(b5, b3);
    let leg6 = seq![Op::Dec];
    let leg7 = moves(b3, b2);
    lemma_run_add(leg1 + leg2 + leg3 + leg4 + leg5 + leg6, leg7, m, f);
    lemma_run_add(leg1 + leg2 + leg3 + leg4 + leg5, leg6, m, f);
    lemma_run_add(leg1 + leg2 + leg3 + leg4, leg5, m, f);
    lemma_run_add(leg1 + leg2 + leg3, leg4, m, f);
    lemma_run_add(leg1 + leg2, leg3, m, f);
    lemma_run_add(leg1, leg2, m, f);
    lemma_run_moves(b3, b1, m, f);
    let m1 = m.seek(b1 as int);
    lemma_run_one(drain_loop(b4, b1, Op::Inc), m1, f);
    lemma_drain_loop_ends(b4, b1, Op::Inc, m1, f);
    lemma_drain_loop(b4, b1, Op::Inc, m1, f);
    let m2 = m1.put(b4 as int, shift(Op::Inc, 0, m.at(b1 as int) as int)).put(b1 as int, 0);
    lemma_run_moves(b1, b5, m2, f);
    let m3 = m2.seek(b5 as int);
    lemma_run_one(Op::Inc, m3, f);
    let m4 = m3.put(b5 as int, wrap(m.at(b5 as int) + 1));
    assert(step(Op::Inc, m3, f) == Some(m4));
    lemma_run_moves(b5, b3, m4, f);
    let m5 = m4.seek(b3 as int);
    lemma_run_one(Op::Dec, m5, f);
    let m6 = m5.put(b3 as int, 0);
    assert(step(Op::Dec, m5, f) == Some(m6));
    lemma_run_moves(b3, b2, m6, f);
    let m7 = m6.seek(b2 as int);
    assert(m7.cur() == 0);
    assert(step(carry_loop(base), m7, f) == Some(m7));
}

/// One round of the division loop ends.
pub proof fn lemma_div_round_ends(base: usize, m: Machine, fuel: nat)
    requires
        fuel >= round_count() + 2,
        m.wf(),
        m.head == base,
        base + 5 <= usize::MAX,
        m.at(base + 2) == 0,
        m.at(base + 3) == 0,
    ensures
        run(div_round(base), m, fuel) is Some,
{
    let b2 = (base + 2) as usize;
    let leg1 = div_front(base);
    let leg2 = seq![unmark_loop()];
    let leg3 = seq![Op::Left];
    let leg4 = seq![carry_loop(base)];
    let leg5 = moves(b2, base);
    lemma_run_add(leg1 + leg2 + leg3 + leg4, leg5, m, fuel);
    lemma_run_add(leg1 + leg2 + leg3, leg4, m, fuel);
    lemma_run_add(leg1 + leg2, leg3, m, fuel);
    lemma_run_add(leg1, leg2, m, fuel);
    lemma_div_front(base, m, fuel);
    let s = div_read(m, base);
    let m1 = m.put(base as int, wrap(m.at(base as int) - 1)).put(base + 1, wrap(s.rest + 1)).put(
        base + 3,
        1,
    ).put(base + 4, wrap(s.count - 1)).seek(base + 4);
    lemma_run_one(unmark_loop(), m1, fuel);
    lemma_unmark_loop_ends(m1, fuel);
    lemma_unmark_loop(m1, fuel);
    if wrap(s.count - 1) != 0 {
        let m2 = m1.put(base + 3, 0).seek(base + 3);
        lemma_run_one(Op::Left, m2, fuel);
        let m3 = m2.seek(base + 2);
        lemma_run_one(carry_loop(base), m3, fuel);
        assert(m3.cur() == 0);
        assert(step(carry_loop(base), m3, fuel) == Some(m3));
        lemma_run_moves(b2, base, m3, fuel);
    } else {
        lemma_run_one(Op::Left, m1, fuel);
        let m3 = m1.seek(base + 3);
        lemma_run_one(carry_loop(base), m3, fuel);
        lemma_carry_loop_ends(base, m3, fuel);
        lemma_carry_loop(base, m3, fuel);
        let m4 = m3.put(base + 4, m3.at(base + 1)).put(base + 1, 0).put(
            base + 5,
            wrap(m3.at(base + 5) + 1),
        ).put(base + 3, 0).seek(base + 2);
        lemma_run_moves(b2, base, m4, fuel);
    }
}

/// The division loop ends, whatever the dividend and the divisor are.
pub proof fn lemma_div_loop_ends(base: usize, m: Machine, fuel: nat)
    requires
        fuel >= full_count(),
        m.wf(),
        m.head == base,
        base + 5 <= usize::MAX,
        m.at(base + 2) == 0,
        m.at(base + 3) == 0,
    ensures
        step(div_loop(base), m, fuel) is Some,
{
    let body = div_round(base);
    let inner = round_count() + 2;
    let kind = |s: Machine| s.wf() && s.head == base && s.at(base + 2) == 0 && s.at(base + 3) == 0;
    let measure = |s: Machine| s.cur() as nat;
    assert forall|s: Machine| kind(s) && s.cur() != 0 implies {
        &&& (#[trigger] run(body, s, inner)) is Some
        &&& kind(run(body, s, inner)->0)
        &&& measure(run(body, s, inner)->0) < measure(s)
    } by {
        lemma_div_round_ends(base, s, inner);
        lemma_div_round(base, s, inner);
    }
    lemma_loop_ends(body, m, inner, kind, measure);
    lemma_step_lasts(div_loop(base), m, inner + measure(m) + 1, fuel);
}

/// The program of `Div` ends, whatever the dividend and the divisor are.
pub proof fn lemma_div_ends(a: usize, b: usize, base: usize, from: usize, m: Machine, fuel: nat)
    requires
        fuel >= full_count(),
        m.wf(),
        m.head == from,
        base + 5 <= usize::MAX,
        a != b,
        !(base <= a <= base + 5),
        !(base <= b <= base + 5),
    ensures
        run(div_code(a, b, base, from), m, fuel) is Some,
{
    let b1 = (base + 1) as usize;
    let b2 = (base + 2) as usize;
    let b3 = (base + 3) as usize;
    let b4 = (base + 4) as usize;
    let b5 = (base + 5) as usize;
    let leg1 = move_code(base, a, from);
    let leg2 = move_code(b4, b, a);
    let leg3 = set_code(b1, 0, b);
    let leg4 = set_code(b2, 0, b1);
    let leg5 = set_code(b3, 0, b2);
    let leg6 = set_code(b5, 0, b3);
    let leg7 = moves(b5, base);
    let leg8 = seq![div_loop(base)];
    lemma_run_add(leg1 + leg2 + leg3 + leg4 + leg5 + leg6 + leg7, leg8, m, fuel);
    lemma_run_add(leg1 + leg2 + leg3 + leg4 + leg5 + leg6, leg7, m, fuel);
    lemma_run_add(leg1 + leg2 + leg3 + leg4 + leg5, leg6, m, fuel);
    lemma_run_add(leg1 + leg2 + leg3 + leg4, leg5, m, fuel);
    lemma_run_add(leg1 + leg2 + leg3, leg4, m, fuel);
    lemma_run_add(leg1 + leg2, leg3, m, fuel);
    lemma_run_add(leg1, leg2, m, fuel);
    let n = m.at(a as int);
    let d = m.at(b as int);
    lemma_move_ends(base, a, from, m, fuel);
    lemma_move_runs(base, a, from, m, fuel);
    let m1 = m.put(base as int, n).put(a as int, 0).seek(a as int);
    lemma_move_ends(b4, b, a, m1, fuel);
    lemma_move_runs(b4, b, a, m1, fuel);
    let m2 = m1.put(b4 as int, d).put(b as int, 0).seek(b as int);
    lemma_set_ends(b1, 0, b, m2, fuel);
    lemma_set_runs(b1, 0, b, m2, fuel);
    let m3 = m2.put(b1 as int, 0).seek(b1 as int);
    lemma_set_ends(b2, 0, b1, m3, fuel);
    lemma_set_runs(b2, 0, b1, m3, fuel);
    let m4 = m3.put(b2 as int, 0).seek(b2 as int);
    lemma_set_ends(b3, 0, b2, m4, fuel);
    lemma_set_runs(b3, 0, b2, m4, fuel);
    let m5 = m4.put(b3 as int, 0).seek(b3 as int);
    lemma_set_ends(b5, 0, b3, m5, fuel);
    lemma_set_runs(b5, 0, b3, m5, fuel);
    let m6 = m5.put(b5 as int, 0).seek(b5 as int);
    lemma_run_moves(b5, base, m6, fuel);
    let m7 = m6.seek(base as int);
    lemma_run_one(div_loop(base), m7, fuel);
    lemma_div_loop_ends(base, m7, fuel);
}

/// The program that zeroes the first cells of a block ends.
pub proof fn lemma_wipe_ends(base: usize, count: nat, from: usize, m: Machine, fuel: nat)
    requires
        fuel >= round_count(),
        m.wf(),
        m.head == from,
        base + count <= usize::MAX,
    ensures
        run(wipe_code(base, count, from), m, fuel) is Some,
    decreases count,
{
    if count > 0 {
        let before = wipe_code(base, (count - 1) as nat, from);
        let prev = if count == 1 {
            from
        } else {
            (base + count - 2) as usize
        };
        let last = set_code((base + count - 1) as usize, 0, prev);
        lemma_run_add(before, last, m, fuel);
        lemma_wipe_ends(base, (count - 1) as nat, from, m, fuel);
        lemma_wipe_runs(base, (count - 1) as nat, from, m, fuel);
        let mid = run(before, m, fuel)->0;
        lemma_set_ends((base + count - 1) as usize, 0, prev, mid, fuel);
    }
}

/// The loop that walks left ends after one round at most, entered on a
/// cell whose left neighbour holds zero.
pub proof fn lemma_left_loop_ends(m: Machine, fuel: nat)
    requires
        fuel >= 2,
        m.wf(),
        m.at(m.head - 1) == 0,
    ensures
        step(left_loop(), m, fuel) is Some,
{
    if m.cur() != 0 {
        let f = (fuel - 1) as nat;
        lemma_run_one(Op::Left, m, f);
        let m1 = m.seek(m.head - 1);
        assert(step(left_loop(), m1, f) == Some(m1));
    }
}

/// The taking loop ends after one round at most, entered on a cell whose
/// left neighbour holds zero.
pub proof fn lemma_take_loop_ends(m: Machine, fuel: nat)
    requires
        fuel >= 3,
        m.wf(),
        m.at(m.head - 1) == 0,
    ensures
        step(take_loop(), m, fuel) is Some,
{
    if m.cur() != 0 {
        let f = (fuel - 1) as nat;
        assert(seq![Op::Dec, left_loop()] =~= seq![Op::Dec] + seq![left_loop()]);
        lemma_run_add(seq![Op::Dec], seq![left_loop()], m, f);
        lemma_run_one(Op::Dec, m, f);
        let m1 = m.put(m.head, wrap(m.cur() - 1));
        lemma_run_one(left_loop(), m1, f);
        lemma_left_loop_ends(m1, f);
        lemma_left_loop(m1, f);
        let m2 = if m1.cur() == 0 {
            m1
        } else {
            m1.seek(m1.head - 1)
        };
        assert(m2.cur() == 0);
        assert(step(take_loop(), m2, f) == Some(m2));
    }
}

/// One round of the comparison loop ends.
pub proof fn lemma_distance_round_ends(base: usize, m: Machine, fuel: nat)
    requires
        fuel >= 3,
        m.wf(),
        m.head == base + 3,
        base + 5 <= usize::MAX,
        m.at(base + 4) == 0,
        m.at(base + 3) != 0,
    ensures
        run(distance_round(), m, fuel) is Some,
{
    let leg1 = seq![Op::Dec];
    let leg2 = seq![Op::Right];
    let leg3 = seq![Op::Right];
    let leg4 = seq![take_loop()];
    let leg5 = seq![Op::Left];
    assert(distance_round() =~= leg1 + leg2 + leg3 + leg4 + leg5);
    lemma_run_add(leg1 + leg2 + leg3 + leg4, leg5, m, fuel);
    lemma_run_add(leg1 + leg2 + leg3, leg4, m, fuel);
    lemma_run_add(leg1 + leg2, leg3, m, fuel);
    lemma_run_add(leg1, leg2, m, fuel);
    lemma_run_one(Op::Dec, m, fuel);
    let m1 = m.put(base + 3, (m.at(base + 3) - 1) as CellSize);
    assert(step(Op::Dec, m, fuel) == Some(m1));
    lemma_run_one(Op::Right, m1, fuel);
    let m2 = m1.seek(base + 4);
    lemma_run_one(Op::Right, m2, fuel);
    let m3 = m2.seek(base + 5);
    lemma_run_one(take_loop(), m3, fuel);
    lemma_take_loop_ends(m3, fuel);
    let m4 = step(take_loop(), m3, fuel)->0;
    lemma_run_one(Op::Left, m4, fuel);
}

/// The comparison loop ends, whatever its operands are.
pub proof fn lemma_distance_loop_ends(base: usize, m: Machine, fuel: nat)
    requires
        fuel >= full_count(),
        m.wf(),
        m.head == base + 3,
        base + 5 <= usize::MAX,
        m.at(base + 4) == 0,
    ensures
        step(distance_loop(), m, fuel) is Some,
{
    let body = distance_round();
    let kind = |s: Machine| s.wf() && s.at(base + 4) == 0 && (s.head == base + 3 || s.head == base + 4);
    let measure = |s: Machine| s.at(base + 3) as nat;
    assert forall|s: Machine| kind(s) && s.cur() != 0 implies {
        &&& (#[trigger] run(body, s, round_count())) is Some
        &&& kind(run(body, s, round_count())->0)
        &&& measure(run(body, s, round_count())->0) < measure(s)
    } by {
        lemma_distance_round_ends(base, s, round_count());
        lemma_distance_round(base, s, round_count());
    }
    lemma_loop_ends(body, m, round_count(), kind, measure);
    lemma_step_lasts(distance_loop(), m, round_count() + measure(m) + 1, fuel);
}

/// The loop that walks right ends after two rounds at most, entered on
/// the first or the second of two cells that hold one before a cell that
/// holds zero.
pub proof fn lemma_right_loop_ends(base: usize, m: Machine, fuel: nat)
    requires
        fuel >= 3,
        m.wf(),
        m.head == base || m.head == base + 1,
        m.at(base as int) == 1,
        m.at(base + 1) == 1,
        m.at(base + 2) == 0,
    ensures
        step(right_loop(), m, fuel) is Some,
{
    let f = (fuel - 1) as nat;
    lemma_run_one(Op::Right, m, f);
    let m1 = m.seek(m.head + 1);
    if m.head == base {
        let g = (f - 1) as nat;
        lemma_run_one(Op::Right, m1, g);
        let m2 = m1.seek(base + 2);
        assert(step(right_loop(), m2, g) == Some(m2));
    } else {
        assert(step(right_loop(), m1, f) == Some(m1));
    }
}

/// The program of `Distance` ends, whatever its operands are.
pub proof fn lemma_distance_ends(a: usize, b: usize, base: usize, from: usize, m: Machine, fuel: nat)
    requires
        fuel >= full_count(),
        m.wf(),
        m.head == from,
        base + 6 <= usize::MAX,
        a != b,
        !(base <= a <= base + 6),
        !(base <= b <= base + 6),
    ensures
        run(distance_code(a, b, base, from), m, fuel) is Some,
{
    let b1 = (base + 1) as usize;
    let b3 = (base + 3) as usize;
    let b5 = (base + 5) as usize;
    let leg1 = wipe_code(base, 6, from);
    let leg2 = set_code(base, 1, b5);
    let leg3 = set_code(b1, 1, base);
    let leg4 = move_code(b3, a, b1);
    let leg5 = move_code(b5, b, a);
    let leg6 = moves(b, b3);
    let leg7 = seq![distance_loop()];
    let leg8 = seq![Op::Left, Op::Left, Op::Left];
    let leg9 = seq![right_loop()];
    lemma_run_add(leg1 + leg2 + leg3 + leg4 + leg5 + leg6 + leg7 + leg8, leg9, m, fuel);
    lemma_run_add(leg1 + leg2 + leg3 + leg4 + leg5 + leg6 + leg7, leg8, m, fuel);
    lemma_run_add(leg1 + leg2 + leg3 + leg4 + leg5 + leg6, leg7, m, fuel);
    lemma_run_add(leg1 + leg2 + leg3 + leg4 + leg5, leg6, m, fuel);
    lemma_run_add(leg1 + leg2 + leg3 + leg4, leg5, m, fuel);
    lemma_run_add(leg1 + leg2 + leg3, leg4, m, fuel);
    lemma_run_add(leg1 + leg2, leg3, m, fuel);
    lemma_run_add(leg1, leg2, m, fuel);
    let n = m.at(a as int);
    let d = m.at(b as int);
    lemma_wipe_ends(base, 6, from, m, fuel);
    lemma_wipe_runs(base, 6, from, m, fuel);
    let m1 = run(leg1, m, fuel)->0;
    assert(m1.tape[base + 2] == 0 && m1.tape[base + 4] == 0 && m1.tape[base + 3] == 0 && m1.tape[base + 5]
        == 0);
    assert(m1.tape[a as int] == n && m1.tape[b as int] == d);
    lemma_set_ends(base, 1, b5, m1, fuel);
    lemma_set_runs(base, 1, b5, m1, fuel);
    let m2 = m1.put(base as int, 1).seek(base as int);
    lemma_set_ends(b1, 1, base, m2, fuel);
    lemma_set_runs(b1, 1, base, m2, fuel);
    let m3 = m2.put(b1 as int, 1).seek(b1 as int);
    lemma_move_ends(b3, a, b1, m3, fuel);
    lemma_move_runs(b3, a, b1, m3, fuel);
    let m4 = m3.put(b3 as int, n).put(a as int, 0).seek(a as int);
    lemma_move_ends(b5, b, a, m4, fuel);
    lemma_move_runs(b5, b, a, m4, fuel);
    let m5 = m4.put(b5 as int, d).put(b as int, 0).seek(b as int);
    lemma_run_moves(b, b3, m5, fuel);
    let m6 = m5.seek(b3 as int);
    lemma_run_one(distance_loop(), m6, fuel);
    lemma_distance_loop_ends(base, m6, fuel);
    lemma_distance_loop(base, m6, fuel);
    lemma_dist_walk(n, d);
    let w = dist_walk(n, d);
    let m7 = m6.put(base + 3, w.gt).put(base + 5, w.lt).seek(
        if w.gap {
            base + 4
        } else {
            base + 3
        },
    );
    assert(leg8 =~= seq![Op::Left] + seq![Op::Left] + seq![Op::Left]);
    lemma_run_add(seq![Op::Left] + seq![Op::Left], seq![Op::Left], m7, fuel);
    lemma_run_add(seq![Op::Left], seq![Op::Left], m7, fuel);
    lemma_run_one(Op::Left, m7, fuel);
    lemma_run_one(Op::Left, m7.seek(m7.head - 1), fuel);
    lemma_run_one(Op::Left, m7.seek(m7.head - 2), fuel);
    let m8 = m7.seek(m7.head - 3);
    lemma_run_one(right_loop(), m8, fuel);
    lemma_right_loop_ends(base, m8, fuel);
}

} // verus!
