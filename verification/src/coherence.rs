//! The central property of the backend: what an instruction records in the
//! compile-time model is what its emitted program does on the tape.

use crate::block::{block_valid, instr_exit, instr_pool, instr_valid, merge, prefix_exit, prefix_pool, Step};
use crate::idioms::{
    add_code, clear_code, copy_code, distance_code, distance_effect, div_code, div_effect, full_count,
    lemma_clear_ends, lemma_clear_runs, lemma_copy_ends, lemma_copy_runs, lemma_distance_ends,
    lemma_distance_runs, lemma_div_ends, lemma_div_runs, lemma_fold_ends, lemma_fold_runs, lemma_move_ends,
    lemma_move_runs, lemma_mul_ends, lemma_mul_runs, lemma_negate_ends, lemma_negate_runs, lemma_set_ends,
    lemma_set_runs, move_code, mul_code, mul_effect, negate_code, negated, set_code, sub_code,
};
use crate::memory::{wrap, CellSize, PoolModel};
use crate::tape::{
    lemma_loop_ends, lemma_run_add, lemma_run_lasts, lemma_run_moves, lemma_run_one, moves, run, step, Machine, Op,
};
use vstd::prelude::*;

verus! {

/// The program that an instruction emits for a head on `from`.
pub open spec fn step_code(i: Step, from: usize) -> Seq<Op>
    decreases i, 0nat,
{
    match i {
        Step::Goto(x) => moves(from, x.cell),
        Step::Clear(x) => clear_code(x.cell, from),
        Step::SetCell(x) => set_code(x.cell, x.value, from),
        Step::Add(x) => add_code(x.a, x.b, from),
        Step::Sub(x) => sub_code(x.a, x.b, from),
        Step::Move(x) => move_code(x.a, x.b, from),
        Step::BoolNegate(x) => negate_code(x.a, x.tmp, from),
        Step::Copy(x) => copy_code(x.a, x.tmp, x.b, from),
        Step::Mul(x) => mul_code(x.a, x.b, x.block->0, from),
        Step::Div(x) => div_code(x.a, x.b, x.block->0, from),
        Step::Distance(x) => distance_code(x.a, x.b, x.block->0, from),
        Step::Input(x) => moves(from, x.cell) + seq![Op::Read],
        Step::Output(x) => moves(from, x.cell) + seq![Op::Write],
        Step::Command(x) => moves(from, x.cell) + seq![Op::Host],
        Step::If(condition, body) => moves(from, condition) + seq![Op::Loop(if_round(condition, body))],
        Step::While(condition, body) => moves(from, condition) + seq![
            Op::Loop(while_round(condition, body)),
        ],
    }
}

/// The body of the loop of an `If`: the block, the way back to the
/// condition cell, and the clearing of it.
pub open spec fn if_round(condition: usize, body: Seq<Step>) -> Seq<Op>
    decreases body, body.len() + 1,
{
    block_code(body, body.len() as int, condition) + moves(
        prefix_exit(body, body.len() as int, condition),
        condition,
    ) + clear_code(condition, condition)
}

/// The body of the loop of a `While`: the block and the way back to the
/// condition cell.
pub open spec fn while_round(condition: usize, body: Seq<Step>) -> Seq<Op>
    decreases body, body.len() + 1,
{
    block_code(body, body.len() as int, condition) + moves(
        prefix_exit(body, body.len() as int, condition),
        condition,
    )
}

/// The program of the first `k` instructions of a block for a head on
/// `from`.
pub open spec fn block_code(s: Seq<Step>, k: int, from: usize) -> Seq<Op>
    decreases s, k,
{
    if 0 < k <= s.len() {
        block_code(s, k - 1, from) + step_code(s[k - 1], prefix_exit(s, k - 1, from))
    } else {
        Seq::empty()
    }
}

/// Whether the instruction owns no block of instructions.
pub open spec fn plain(i: Step) -> bool {
    !(i is If) && !(i is While)
}

/// What an instruction without a block does to the tape, provided that
/// its program ends.
pub open spec fn effect(i: Step, m: Machine) -> Machine {
    match i {
        Step::Goto(x) => m.seek(x.cell as int),
        Step::Clear(x) => m.put(x.cell as int, 0).seek(x.cell as int),
        Step::SetCell(x) => m.put(x.cell as int, x.value).seek(x.cell as int),
        Step::Add(x) => m.put(x.a as int, wrap(m.at(x.a as int) + m.at(x.b as int))).put(x.b as int, 0).seek(
            x.b as int,
        ),
        Step::Sub(x) => m.put(x.a as int, wrap(m.at(x.a as int) - m.at(x.b as int))).put(x.b as int, 0).seek(
            x.b as int,
        ),
        Step::Move(x) => m.put(x.a as int, m.at(x.b as int)).put(x.b as int, 0).seek(x.b as int),
        Step::BoolNegate(x) => m.put(x.a as int, negated(m.at(x.a as int))).put(x.tmp as int, 0).seek(
            x.a as int,
        ),
        Step::Copy(x) => m.put(x.a as int, m.at(x.b as int)).put(x.tmp as int, 0).seek(x.a as int),
        Step::Mul(x) => mul_effect(x.a, x.b, x.block->0, m),
        Step::Div(x) => div_effect(x.a, x.b, x.block->0, m),
        Step::Distance(x) => distance_effect(x.a, x.b, x.block->0, m),
        Step::Input(x) => Machine {
            input: m.input.drop_first(),
            ..m.put(x.cell as int, m.input[0]).seek(x.cell as int)
        },
        Step::Output(x) => Machine { output: m.output.push(m.at(x.cell as int)), ..m.seek(x.cell as int) },
        Step::Command(x) => Machine {
            answers: m.answers.drop_first(),
            ..m.put(x.cell as int, m.answers[0]).seek(x.cell as int)
        },
        _ => m,
    }
}

/// The program of an instruction without a block, run to its end, does
/// to the tape what `effect` says.
pub proof fn lemma_effect(i: Step, limit: int, m: Machine, fuel: nat)
    requires
        plain(i),
        instr_valid(i, limit),
        limit <= usize::MAX,
        m.wf(),
        0 <= m.head <= usize::MAX,
        run(step_code(i, m.head as usize), m, fuel) is Some,
    ensures
        run(step_code(i, m.head as usize), m, fuel) == Some(effect(i, m)),
        effect(i, m).wf(),
        effect(i, m).head == instr_exit(i),
{
    let from = m.head as usize;
    match i {
        Step::Goto(x) => {
            lemma_run_moves(from, x.cell, m, fuel);
        },
        Step::Clear(x) => {
            lemma_clear_runs(x.cell, from, m, fuel);
        },
        Step::SetCell(x) => {
            lemma_set_runs(x.cell, x.value, from, m, fuel);
        },
        Step::Add(x) => {
            lemma_fold_runs(x.a, x.b, Op::Inc, from, m, fuel);
        },
        Step::Sub(x) => {
            lemma_fold_runs(x.a, x.b, Op::Dec, from, m, fuel);
        },
        Step::Move(x) => {
            lemma_move_runs(x.a, x.b, from, m, fuel);
        },
        Step::BoolNegate(x) => {
            lemma_negate_runs(x.a, x.tmp, from, m, fuel);
        },
        Step::Copy(x) => {
            lemma_copy_runs(x.a, x.tmp, x.b, from, m, fuel);
        },
        Step::Mul(x) => {
            lemma_mul_runs(x.a, x.b, x.block->0, from, m, fuel);
        },
        Step::Div(x) => {
            lemma_div_runs(x.a, x.b, x.block->0, from, m, fuel);
        },
        Step::Distance(x) => {
            lemma_distance_runs(x.a, x.b, x.block->0, from, m, fuel);
        },
        Step::Input(x) => {
            lemma_run_add(moves(from, x.cell), seq![Op::Read], m, fuel);
            lemma_run_moves(from, x.cell, m, fuel);
            lemma_run_one(Op::Read, m.seek(x.cell as int), fuel);
        },
        Step::Output(x) => {
            lemma_run_add(moves(from, x.cell), seq![Op::Write], m, fuel);
            lemma_run_moves(from, x.cell, m, fuel);
            lemma_run_one(Op::Write, m.seek(x.cell as int), fuel);
        },
        Step::Command(x) => {
            lemma_run_add(moves(from, x.cell), seq![Op::Host], m, fuel);
            lemma_run_moves(from, x.cell, m, fuel);
            lemma_run_one(Op::Host, m.seek(x.cell as int), fuel);
        },
        _ => {},
    }
}

/// **Cursor coherence.** Wherever the program of a valid instruction
/// ends, the head stands on the cell that `compile` and `simulate` record.
pub proof fn lemma_cursor_coherence(i: Step, limit: int, m: Machine, fuel: nat)
    requires
        instr_valid(i, limit),
        limit <= usize::MAX,
        m.wf(),
        0 <= m.head <= usize::MAX,
        run(step_code(i, m.head as usize), m, fuel) is Some,
    ensures
        run(step_code(i, m.head as usize), m, fuel)->0.head == instr_exit(i),
        run(step_code(i, m.head as usize), m, fuel)->0.wf(),
    decreases i, 0nat, 0nat,
{
    let from = m.head as usize;
    match i {
        Step::If(condition, body) => {
            let lp = Op::Loop(if_round(condition, body));
            lemma_run_add(moves(from, condition), seq![lp], m, fuel);
            lemma_run_moves(from, condition, m, fuel);
            let at = m.seek(condition as int);
            lemma_run_one(lp, at, fuel);
            lemma_loop_head(condition, body, true, limit, at, fuel);
        },
        Step::While(condition, body) => {
            let lp = Op::Loop(while_round(condition, body));
            lemma_run_add(moves(from, condition), seq![lp], m, fuel);
            lemma_run_moves(from, condition, m, fuel);
            let at = m.seek(condition as int);
            lemma_run_one(lp, at, fuel);
            lemma_loop_head(condition, body, false, limit, at, fuel);
        },
        _ => {
            lemma_effect(i, limit, m, fuel);
        },
    }
}

/// The loop of an `If` or a `While`, entered with the head on the
/// condition cell, ends with the head on the condition cell.
pub proof fn lemma_loop_head(condition: usize, body: Seq<Step>, once: bool, limit: int, m: Machine, fuel: nat)
    requires
        block_valid(body, limit),
        condition < limit <= usize::MAX,
        m.wf(),
        m.head == condition,
        step(
            Op::Loop(
                if once {
                    if_round(condition, body)
                } else {
                    while_round(condition, body)
                },
            ),
            m,
            fuel,
        ) is Some,
    ensures
        ({
            let done = step(
                Op::Loop(
                    if once {
                        if_round(condition, body)
                    } else {
                        while_round(condition, body)
                    },
                ),
                m,
                fuel,
            )->0;
            done.head == condition && done.wf()
        }),
    decreases body, body.len() + 1, fuel,
{
    if m.cur() != 0 {
        let f = (fuel - 1) as nat;
        let inner = block_code(body, body.len() as int, condition);
        let back = moves(prefix_exit(body, body.len() as int, condition), condition);
        if once {
            let clear = clear_code(condition, condition);
            lemma_run_add(inner + back, clear, m, f);
            lemma_run_add(inner, back, m, f);
            lemma_block_head(body, body.len() as int, limit, m, f);
            let m1 = run(inner, m, f)->0;
            lemma_run_moves(prefix_exit(body, body.len() as int, condition), condition, m1, f);
            let m2 = m1.seek(condition as int);
            lemma_clear_runs(condition, condition, m2, f);
            let m3 = m2.put(condition as int, 0).seek(condition as int);
            lemma_loop_head(condition, body, once, limit, m3, f);
        } else {
            lemma_run_add(inner, back, m, f);
            lemma_block_head(body, body.len() as int, limit, m, f);
            let m1 = run(inner, m, f)->0;
            lemma_run_moves(prefix_exit(body, body.len() as int, condition), condition, m1, f);
            let m2 = m1.seek(condition as int);
            lemma_loop_head(condition, body, once, limit, m2, f);
        }
    }
}

/// Wherever the program of the first `k` instructions of a valid block
/// ends, the head stands on the cell on which the last of them leaves it.
pub proof fn lemma_block_head(s: Seq<Step>, k: int, limit: int, m: Machine, fuel: nat)
    requires
        block_valid(s, limit),
        limit <= usize::MAX,
        0 <= k <= s.len(),
        m.wf(),
        0 <= m.head <= usize::MAX,
        run(block_code(s, k, m.head as usize), m, fuel) is Some,
    ensures
        run(block_code(s, k, m.head as usize), m, fuel)->0.head == prefix_exit(s, k, m.head as usize),
        run(block_code(s, k, m.head as usize), m, fuel)->0.wf(),
    decreases s, k, 0nat,
{
    let from = m.head as usize;
    if k > 0 {
        let before = block_code(s, k - 1, from);
        let last = step_code(s[k - 1], prefix_exit(s, k - 1, from));
        lemma_run_add(before, last, m, fuel);
        lemma_block_head(s, k - 1, limit, m, fuel);
        let mid = run(before, m, fuel)->0;
        lemma_cursor_coherence(s[k - 1], limit, mid, fuel);
    }
}


/// Whether the instruction asks nothing of the outside and holds no
/// `While`, in its block either.
pub open spec fn bounded(i: Step) -> bool
    decreases i,
{
    match i {
        Step::Input(x) => false,
        Step::Command(x) => false,
        Step::While(condition, body) => false,
        Step::If(condition, body) => bounded_block(body),
        _ => true,
    }
}

/// Whether every instruction of the sequence is bounded.
pub open spec fn bounded_block(s: Seq<Step>) -> bool
    decreases s,
{
    forall|k: int| 0 <= k < s.len() ==> bounded(#[trigger] s[k])
}

/// The number of loop rounds within which the program of a bounded
/// instruction ends.
pub open spec fn need(i: Step) -> nat
    decreases i, 0nat,
{
    match i {
        Step::If(condition, body) => block_need(body, body.len() as int) + 1,
        _ => full_count(),
    }
}

/// The number of loop rounds within which the program of the first `k`
/// instructions of a bounded block ends.
pub open spec fn block_need(s: Seq<Step>, k: int) -> nat
    decreases s, k,
{
    if 0 < k <= s.len() {
        if block_need(s, k - 1) >= need(s[k - 1]) {
            block_need(s, k - 1)
        } else {
            need(s[k - 1])
        }
    } else {
        full_count()
    }
}

/// **Halting.** The program of a valid instruction that asks nothing of
/// the outside and holds no `While` ends, whatever the tape holds.
pub proof fn lemma_instr_ends(i: Step, limit: int, m: Machine)
    requires
        bounded(i),
        instr_valid(i, limit),
        limit <= usize::MAX,
        m.wf(),
        0 <= m.head <= usize::MAX,
    ensures
        run(step_code(i, m.head as usize), m, need(i)) is Some,
    decreases i, 0nat,
{
    let from = m.head as usize;
    let fuel = need(i);
    match i {
        Step::Goto(x) => {
            lemma_run_moves(from, x.cell, m, fuel);
        },
        Step::Clear(x) => {
            lemma_clear_ends(x.cell, from, m, fuel);
        },
        Step::SetCell(x) => {
            lemma_set_ends(x.cell, x.value, from, m, fuel);
        },
        Step::Add(x) => {
            lemma_fold_ends(x.a, x.b, Op::Inc, from, m, fuel);
        },
        Step::Sub(x) => {
            lemma_fold_ends(x.a, x.b, Op::Dec, from, m, fuel);
        },
        Step::Move(x) => {
            lemma_move_ends(x.a, x.b, from, m, fuel);
        },
        Step::BoolNegate(x) => {
            lemma_negate_ends(x.a, x.tmp, from, m, fuel);
        },
        Step::Copy(x) => {
            lemma_copy_ends(x.a, x.tmp, x.b, from, m, fuel);
        },
        Step::Mul(x) => {
            lemma_mul_ends(x.a, x.b, x.block->0, from, m, fuel);
        },
        Step::Div(x) => {
            lemma_div_ends(x.a, x.b, x.block->0, from, m, fuel);
        },
        Step::Distance(x) => {
            lemma_distance_ends(x.a, x.b, x.block->0, from, m, fuel);
        },
        Step::Output(x) => {
            lemma_run_add(moves(from, x.cell), seq![Op::Write], m, fuel);
            lemma_run_moves(from, x.cell, m, fuel);
            lemma_run_one(Op::Write, m.seek(x.cell as int), fuel);
        },
        Step::If(condition, body) => {
            let lp = Op::Loop(if_round(condition, body));
            lemma_run_add(moves(from, condition), seq![lp], m, fuel);
            lemma_run_moves(from, condition, m, fuel);
            let at = m.seek(condition as int);
            lemma_run_one(lp, at, fuel);
            if at.cur() != 0 {
                let f = (fuel - 1) as nat;
                lemma_round_ends(condition, body, true, limit, at);
                lemma_block_need(body, body.len() as int);
                let done = run(if_round(condition, body), at, f)->0;
                assert(step(lp, done, f) == Some(done));
            }
        },
        _ => {},
    }
}

/// The need of a block is no less than what the emptying loop needs.
pub proof fn lemma_block_need(s: Seq<Step>, k: int)
    ensures
        block_need(s, k) >= full_count(),
    decreases s, k,
{
    if 0 < k <= s.len() {
        lemma_block_need(s, k - 1);
    }
}

/// One round of the loop of an `If` or a `While` over a bounded block ends
/// with the head on the condition cell, and for an `If` with zero in it.
pub proof fn lemma_round_ends(condition: usize, body: Seq<Step>, once: bool, limit: int, m: Machine)
    requires
        bounded_block(body),
        block_valid(body, limit),
        condition < limit <= usize::MAX,
        m.wf(),
        m.head == condition,
    ensures
        ({
            let round = if once {
                if_round(condition, body)
            } else {
                while_round(condition, body)
            };
            let fuel = block_need(body, body.len() as int);
            &&& run(round, m, fuel) is Some
            &&& run(round, m, fuel)->0.wf()
            &&& run(round, m, fuel)->0.head == condition
            &&& once ==> run(round, m, fuel)->0.cur() == 0
        }),
    decreases body, body.len() + 1,
{
    let fuel = block_need(body, body.len() as int);
    let inner = block_code(body, body.len() as int, condition);
    let back = moves(prefix_exit(body, body.len() as int, condition), condition);
    lemma_block_need(body, body.len() as int);
    lemma_block_ends(body, body.len() as int, limit, m);
    lemma_block_head(body, body.len() as int, limit, m, fuel);
    let m1 = run(inner, m, fuel)->0;
    lemma_run_moves(prefix_exit(body, body.len() as int, condition), condition, m1, fuel);
    let m2 = m1.seek(condition as int);
    lemma_run_add(inner, back, m, fuel);
    if once {
        let clear = clear_code(condition, condition);
        lemma_run_add(inner + back, clear, m, fuel);
        lemma_clear_ends(condition, condition, m2, fuel);
        lemma_clear_runs(condition, condition, m2, fuel);
    }
}

/// The program of the first `k` instructions of a valid block that asks
/// nothing of the outside and holds no `While` ends, whatever the tape
/// holds.
pub proof fn lemma_block_ends(s: Seq<Step>, k: int, limit: int, m: Machine)
    requires
        bounded_block(s),
        block_valid(s, limit),
        limit <= usize::MAX,
        0 <= k <= s.len(),
        m.wf(),
        0 <= m.head <= usize::MAX,
    ensures
        run(block_code(s, k, m.head as usize), m, block_need(s, k)) is Some,
    decreases s, k,
{
    let from = m.head as usize;
    if k > 0 {
        let before = block_code(s, k - 1, from);
        let last = step_code(s[k - 1], prefix_exit(s, k - 1, from));
        let fuel = block_need(s, k);
        lemma_block_ends(s, k - 1, limit, m);
        lemma_run_lasts(before, m, block_need(s, k - 1), fuel);
        lemma_block_head(s, k - 1, limit, m, fuel);
        let mid = run(before, m, fuel)->0;
        lemma_instr_ends(s[k - 1], limit, mid);
        lemma_run_lasts(last, mid, need(s[k - 1]), fuel);
        lemma_run_add(before, last, m, fuel);
    }
}

/// **A `While` that counts down ends.** Let the block of a `While` ask
/// nothing of the outside and hold no `While`, and let every round that
/// starts on a condition cell that is not zero bring a measure down. Then
/// the loop ends, with zero in the condition cell and the head on it.
pub proof fn lemma_while_ends(
    condition: usize,
    body: Seq<Step>,
    limit: int,
    m: Machine,
    measure: spec_fn(Machine) -> nat,
)
    requires
        bounded_block(body),
        block_valid(body, limit),
        condition < limit <= usize::MAX,
        m.wf(),
        m.head == condition,
        forall|s: Machine|
            s.wf() && s.head == condition && s.cur() != 0 ==> measure(
                (#[trigger] run(while_round(condition, body), s, block_need(body, body.len() as int)))->0,
            ) < measure(s),
    ensures
        ({
            let fuel = block_need(body, body.len() as int) + measure(m) + 1;
            let lp = Op::Loop(while_round(condition, body));
            &&& step(lp, m, fuel) is Some
            &&& step(lp, m, fuel)->0.head == condition
            &&& step(lp, m, fuel)->0.cur() == 0
        }),
{
    let round = while_round(condition, body);
    let fuel = block_need(body, body.len() as int);
    let kind = |s: Machine| s.wf() && s.head == condition;
    assert forall|s: Machine| kind(s) && s.cur() != 0 implies {
        &&& (#[trigger] run(round, s, fuel)) is Some
        &&& kind(run(round, s, fuel)->0)
        &&& measure(run(round, s, fuel)->0) < measure(s)
    } by {
        lemma_round_ends(condition, body, false, limit, s);
    }
    lemma_loop_ends(round, m, fuel, kind, measure);
}

/// The tape holds, in every allocated cell whose value the pool claims to
/// know, the value that the pool records.
pub open spec fn consistent(m: Machine, p: PoolModel) -> bool {
    forall|j: int| 0 <= j < p.cells.len() && p.used[j] && !p.runtime[j] ==> #[trigger] m.tape[j] == p.cells[j]
}

/// The cells whose recorded values the simulation of the instruction
/// relies on are allocated.
pub open spec fn reads_live(i: Step, p: PoolModel) -> bool {
    match i {
        Step::Add(x) => p.is_used(x.a as int) && p.is_used(x.b as int),
        Step::Sub(x) => p.is_used(x.a as int) && p.is_used(x.b as int),
        Step::Move(x) => p.is_used(x.b as int),
        Step::BoolNegate(x) => p.is_used(x.a as int),
        Step::Copy(x) => p.is_used(x.b as int),
        Step::Mul(x) => p.is_used(x.a as int) && p.is_used(x.b as int) && p.is_used(x.block->0 + 2)
            && p.is_used(x.block->0 + 3),
        Step::Div(x) => p.is_used(x.a as int) && p.is_used(x.b as int),
        Step::Distance(x) => p.is_used(x.a as int) && p.is_used(x.b as int),
        _ => true,
    }
}

/// The one case in which the pool records something else than the tape
/// holds: a comparison of two known operands of which the first is the
/// greater, for which the pool records the wrapped difference of the
/// second and the first.
pub open spec fn misjudged(i: Step, p: PoolModel) -> bool {
    match i {
        Step::Distance(x) => !p.is_dirty(x.a as int) && !p.is_dirty(x.b as int) && p.cells[x.a as int]
            > p.cells[x.b as int],
        _ => false,
    }
}

/// **Dirty soundness.** If the tape agrees with the pool before an
/// instruction without a block, and the program of the instruction ends,
/// the tape agrees with what `simulate` records: every allocated cell
/// that is not marked as unknown holds the recorded value.
pub proof fn lemma_dirty_soundness(i: Step, p: PoolModel, m: Machine, fuel: nat)
    requires
        plain(i),
        instr_valid(i, p.cells.len() as int),
        p.wf(),
        m.wf(),
        0 <= m.head <= usize::MAX,
        consistent(m, p),
        reads_live(i, p),
        !misjudged(i, p),
        run(step_code(i, m.head as usize), m, fuel) is Some,
    ensures
        run(step_code(i, m.head as usize), m, fuel) == Some(effect(i, m)),
        consistent(effect(i, m), instr_pool(i, p)),
        effect(i, m).head == instr_exit(i),
        instr_pool(i, p).wf(),
{
    lemma_effect(i, p.cells.len() as int, m, fuel);
    lemma_pool_wf(i, p);
    let after = effect(i, m);
    let q = instr_pool(i, p);
    match i {
        Step::Add(x) => {
            assert(m.tape[x.a as int] == m.at(x.a as int));
            assert forall|j: int| 0 <= j < q.cells.len() && q.used[j] && !q.runtime[j] implies #[trigger] after.tape[j]
                == q.cells[j] by {
                assert(p.used[j]);
                if j != x.a && j != x.b {
                    assert(!p.runtime[j]);
                }
            }
        },
        Step::Sub(x) => {
            assert forall|j: int| 0 <= j < q.cells.len() && q.used[j] && !q.runtime[j] implies #[trigger] after.tape[j]
                == q.cells[j] by {
                assert(p.used[j]);
                if j != x.a && j != x.b {
                    assert(!p.runtime[j]);
                }
            }
        },
        Step::Move(x) => {
            assert forall|j: int| 0 <= j < q.cells.len() && q.used[j] && !q.runtime[j] implies #[trigger] after.tape[j]
                == q.cells[j] by {
                assert(p.used[j]);
                if j != x.a && j != x.b {
                    assert(!p.runtime[j]);
                }
            }
        },
        Step::BoolNegate(x) => {
            assert forall|j: int| 0 <= j < q.cells.len() && q.used[j] && !q.runtime[j] implies #[trigger] after.tape[j]
                == q.cells[j] by {
                assert(p.used[j]);
                if j != x.a && j != x.tmp {
                    assert(!p.runtime[j]);
                }
            }
        },
        Step::Copy(x) => {
            assert forall|j: int| 0 <= j < q.cells.len() && q.used[j] && !q.runtime[j] implies #[trigger] after.tape[j]
                == q.cells[j] by {
                assert(p.used[j]);
                if j != x.a && j != x.tmp {
                    assert(!p.runtime[j]);
                }
            }
        },
        Step::Mul(x) => {
            lemma_mul_sound(x.a, x.b, x.block->0, p, m);
        },
        Step::Div(x) => {
            lemma_div_sound(x.a, x.b, x.block->0, p, m);
        },
        Step::Distance(x) => {
            lemma_distance_sound(x.a, x.b, x.block->0, p, m);
        },
        _ => {
            assert forall|j: int| 0 <= j < q.cells.len() && q.used[j] && !q.runtime[j] implies #[trigger] after.tape[j]
                == q.cells[j] by {
                assert(p.used[j]);
            }
        },
    }
}

/// No cell whose recorded value the simulation of the instruction relies
/// on is marked as unknown.
pub open spec fn reads_known(i: Step, p: PoolModel) -> bool {
    match i {
        Step::Add(x) => !p.is_dirty(x.a as int) && !p.is_dirty(x.b as int),
        Step::Sub(x) => !p.is_dirty(x.a as int) && !p.is_dirty(x.b as int),
        Step::Move(x) => !p.is_dirty(x.b as int),
        Step::BoolNegate(x) => !p.is_dirty(x.a as int),
        Step::Copy(x) => !p.is_dirty(x.b as int),
        Step::Mul(x) => !p.is_dirty(x.a as int) && !p.is_dirty(x.b as int) && p.blank(x.block->0 + 2)
            && p.blank(x.block->0 + 3),
        Step::Div(x) => !p.is_dirty(x.a as int) && !p.is_dirty(x.b as int),
        Step::Distance(x) => !p.is_dirty(x.a as int) && !p.is_dirty(x.b as int),
        _ => true,
    }
}

/// Whether the instruction computes the content of cell `j` from the
/// tape: reading from outside leaves a cell unknown by its nature.
pub open spec fn computes(i: Step, j: int) -> bool {
    match i {
        Step::Clear(x) => j == x.cell,
        Step::SetCell(x) => j == x.cell,
        Step::Add(x) => j == x.a || j == x.b,
        Step::Sub(x) => j == x.a || j == x.b,
        Step::Move(x) => j == x.a || j == x.b,
        Step::BoolNegate(x) => j == x.a || j == x.tmp,
        Step::Copy(x) => j == x.a || j == x.tmp || j == x.b,
        Step::Mul(x) => j == x.a || j == x.b || x.block->0 <= j < x.block->0 + 4,
        Step::Div(x) => j == x.a || j == x.b || x.block->0 <= j < x.block->0 + 6,
        Step::Distance(x) => j == x.a || j == x.b || x.block->0 <= j < x.block->0 + 6,
        _ => false,
    }
}

/// **Value coherence.** When no operand of an instruction without a block
/// is marked as unknown, every cell that the instruction computes is known
/// afterwards, and the tape holds in it exactly the value that `simulate`
/// records.
pub proof fn lemma_value_coherence(i: Step, p: PoolModel, m: Machine, fuel: nat, j: int)
    requires
        plain(i),
        instr_valid(i, p.cells.len() as int),
        p.wf(),
        m.wf(),
        0 <= m.head <= usize::MAX,
        consistent(m, p),
        reads_live(i, p),
        reads_known(i, p),
        !misjudged(i, p),
        run(step_code(i, m.head as usize), m, fuel) is Some,
        computes(i, j),
    ensures
        run(step_code(i, m.head as usize), m, fuel) == Some(effect(i, m)),
        instr_pool(i, p).known(j),
        instr_pool(i, p).is_used(j) ==> effect(i, m).tape[j] == instr_pool(i, p).cells[j],
{
    lemma_dirty_soundness(i, p, m, fuel);
    lemma_pool_wf(i, p);
    let q = instr_pool(i, p);
    match i {
        Step::Copy(x) => {
            let c = p.store(x.tmp as int, 0);
            lemma_store_at(p, x.tmp as int, 0, j);
            lemma_store_at(c, x.a as int, p.cells[x.b as int], j);
        },
        Step::Mul(x) => {
            let base = x.block->0;
            let m1 = p.store(base as int, 0);
            let m2 = m1.store(base + 1, p.cells[x.b as int]);
            let m3 = m2.store(base + 2, 0);
            let m4 = m3.store(base + 3, wrap(p.cells[x.a as int] * p.cells[x.b as int]));
            let m5 = m4.store(x.a as int, 0);
            lemma_store_at(p, base as int, 0, j);
            lemma_store_at(m1, base + 1, p.cells[x.b as int], j);
            lemma_store_at(m2, base + 2, 0, j);
            lemma_store_at(m3, base + 3, wrap(p.cells[x.a as int] * p.cells[x.b as int]), j);
            lemma_store_at(m4, x.a as int, 0, j);
            lemma_store_at(m5, x.b as int, 0, j);
        },
        Step::Div(x) => {
            let base = x.block->0;
            let n = p.cells[x.a as int];
            let d = p.cells[x.b as int];
            let r = crate::instructions::div_rest(n, d);
            let s1 = p.store(x.a as int, 0);
            let s2 = s1.store(x.b as int, 0);
            let s3 = s2.store(base as int, 0);
            let s4 = s3.store(base + 2, 0);
            let s5 = s4.store(base + 3, 0);
            let t1 = s5.store(base + 1, r);
            let t2 = t1.store(base + 4, wrap(d - r));
            lemma_store_at(p, x.a as int, 0, j);
            lemma_store_at(s1, x.b as int, 0, j);
            lemma_store_at(s2, base as int, 0, j);
            lemma_store_at(s3, base + 2, 0, j);
            lemma_store_at(s4, base + 3, 0, j);
            lemma_store_at(s5, base + 1, r, j);
            lemma_store_at(t1, base + 4, wrap(d - r), j);
            lemma_store_at(t2, base + 5, crate::instructions::div_quot(n, d), j);
        },
        Step::Distance(x) => {
            let base = x.block->0;
            let n = p.cells[x.a as int];
            let d = p.cells[x.b as int];
            let s1 = p.store(base as int, 1);
            let s2 = s1.store(base + 1, 1);
            let s3 = s2.store(base + 2, 0);
            let s4 = s3.store(base + 4, 0);
            let s5 = s4.store(x.a as int, 0);
            let s6 = s5.store(x.b as int, 0);
            let t1 = s6.store(base + 3, 0);
            lemma_store_at(p, base as int, 1, j);
            lemma_store_at(s1, base + 1, 1, j);
            lemma_store_at(s2, base + 2, 0, j);
            lemma_store_at(s3, base + 4, 0, j);
            lemma_store_at(s4, x.a as int, 0, j);
            lemma_store_at(s5, x.b as int, 0, j);
            lemma_store_at(s6, base + 3, 0, j);
            lemma_store_at(t1, base + 5, (d - n) as CellSize, j);
        },
        _ => {},
    }
    if q.is_used(j) {
        assert(effect(i, m).tape[j] == q.cells[j]);
    }
}

/// What a valid instruction without a block records is a well-formed pool
/// of the same size.
pub proof fn lemma_pool_wf(i: Step, p: PoolModel)
    requires
        plain(i),
        instr_valid(i, p.cells.len() as int),
        p.wf(),
    ensures
        instr_pool(i, p).wf(),
        instr_pool(i, p).cells.len() == p.cells.len(),
        instr_pool(i, p).used == p.used,
{
    match i {
        Step::Clear(x) => {
            p.lemma_store_wf(x.cell as int, 0);
        },
        Step::SetCell(x) => {
            p.lemma_store_wf(x.cell as int, x.value);
        },
        Step::Add(x) => {
            lemma_stores_wf(p.taint(x.a as int), x.b as int, 0, x.b as int, 0);
            p.lemma_taint_wf(x.a as int);
            lemma_stores_wf(p, x.a as int, wrap(p.cells[x.a as int] + p.cells[x.b as int]), x.b as int, 0);
        },
        Step::Sub(x) => {
            lemma_stores_wf(p.taint(x.a as int), x.b as int, 0, x.b as int, 0);
            p.lemma_taint_wf(x.a as int);
            lemma_stores_wf(p, x.a as int, wrap(p.cells[x.a as int] - p.cells[x.b as int]), x.b as int, 0);
        },
        Step::Move(x) => {
            p.lemma_taint_wf(x.a as int);
            lemma_stores_wf(p.taint(x.a as int), x.b as int, 0, x.b as int, 0);
            lemma_stores_wf(p, x.a as int, p.cells[x.b as int], x.b as int, 0);
        },
        Step::BoolNegate(x) => {
            p.lemma_taint_wf(x.tmp as int);
            lemma_stores_wf(p, x.a as int, negated(p.cells[x.a as int]), x.tmp as int, 0);
        },
        Step::Copy(x) => {
            p.lemma_store_wf(x.tmp as int, 0);
            let c = p.store(x.tmp as int, 0);
            c.lemma_taint_wf(x.a as int);
            c.lemma_store_wf(x.a as int, p.cells[x.b as int]);
        },
        Step::Mul(x) => {
            lemma_mul_pool(x.a, x.b, x.block->0, p);
        },
        Step::Div(x) => {
            lemma_div_pool(x.a, x.b, x.block->0, p);
        },
        Step::Distance(x) => {
            lemma_distance_pool(x.a, x.b, x.block->0, p);
        },
        Step::Input(x) => {
            p.lemma_taint_wf(x.cell as int);
        },
        Step::Command(x) => {
            p.lemma_taint_wf(x.cell as int);
        },
        _ => {},
    }
}

/// Two writes to materialized cells leave a well-formed pool of the same
/// size.
pub proof fn lemma_stores_wf(p: PoolModel, a: int, v: CellSize, b: int, w: CellSize)
    requires
        p.wf(),
        0 <= a < p.cells.len(),
        0 <= b < p.cells.len(),
    ensures
        p.store(a, v).store(b, w).wf(),
        p.store(a, v).store(b, w).cells.len() == p.cells.len(),
        p.store(a, v).store(b, w).used == p.used,
{
    p.lemma_store_wf(a, v);
    p.store(a, v).lemma_store_wf(b, w);
}

/// A cell of a pool after a write.
pub proof fn lemma_store_at(p: PoolModel, i: int, v: CellSize, j: int)
    requires
        0 <= i < p.cells.len(),
        p.runtime.len() == p.cells.len(),
        0 <= j < p.cells.len(),
    ensures
        p.store(i, v).cells.len() == p.cells.len(),
        p.store(i, v).used == p.used,
        p.store(i, v).free == p.free,
        p.store(i, v).cells[j] == (if j == i {
            v
        } else {
            p.cells[j]
        }),
        p.store(i, v).runtime[j] == (if j == i {
            false
        } else {
            p.runtime[j]
        }),
        p.store(i, v).runtime.len() == p.cells.len(),
{
}

/// A cell of a pool after a cell was marked as unknown.
pub proof fn lemma_cloud_at(p: PoolModel, i: int, j: int)
    requires
        0 <= i < p.cells.len(),
        p.runtime.len() == p.cells.len(),
        p.used.len() == p.cells.len(),
        0 <= j < p.cells.len(),
    ensures
        p.cloud(i).cells == p.cells,
        p.cloud(i).used == p.used,
        p.cloud(i).free == p.free,
        p.cloud(i).runtime.len() == p.cells.len(),
        p.cloud(i).runtime[j] == (if j == i && p.used[i] {
            true
        } else {
            p.runtime[j]
        }),
{
}

/// What `Mul` records is a well-formed pool of the same size.
pub proof fn lemma_mul_pool(a: usize, b: usize, base: usize, p: PoolModel)
    requires
        p.wf(),
        base + 4 <= p.cells.len(),
        a < p.cells.len(),
        b < p.cells.len(),
    ensures
        crate::instructions::mul_pool(p, a, b, base).wf(),
        crate::instructions::mul_pool(p, a, b, base).cells.len() == p.cells.len(),
        crate::instructions::mul_pool(p, a, b, base).used == p.used,
{
    let m1 = p.store(base as int, 0);
    p.lemma_store_wf(base as int, 0);
    m1.lemma_store_wf(base + 1, p.cells[b as int]);
    m1.lemma_cloud_wf(base + 1);
    let fresh = p.blank(base + 2) && p.blank(base + 3);
    let m2 = if !p.is_dirty(b as int) && fresh {
        m1.store(base + 1, p.cells[b as int])
    } else {
        m1.cloud(base + 1)
    };
    m2.lemma_store_wf(base + 2, 0);
    m2.lemma_cloud_wf(base + 2);
    let m3 = if fresh {
        m2.store(base + 2, 0)
    } else {
        m2.cloud(base + 2)
    };
    m3.lemma_store_wf(base + 3, wrap(p.cells[a as int] * p.cells[b as int]));
    m3.lemma_cloud_wf(base + 3);
    let m4 = if !p.is_dirty(a as int) && !p.is_dirty(b as int) && fresh {
        m3.store(base + 3, wrap(p.cells[a as int] * p.cells[b as int]))
    } else {
        m3.cloud(base + 3)
    };
    lemma_stores_wf(m4, a as int, 0, b as int, 0);
}

/// What `Div` records is a well-formed pool of the same size.
pub proof fn lemma_div_pool(a: usize, b: usize, base: usize, p: PoolModel)
    requires
        p.wf(),
        base + 6 <= p.cells.len(),
        a < p.cells.len(),
        b < p.cells.len(),
    ensures
        crate::instructions::div_pool(p, a, b, base).wf(),
        crate::instructions::div_pool(p, a, b, base).cells.len() == p.cells.len(),
        crate::instructions::div_pool(p, a, b, base).used == p.used,
{
    let n = p.cells[a as int];
    let d = p.cells[b as int];
    lemma_stores_wf(p, a as int, 0, b as int, 0);
    let s1 = p.store(a as int, 0).store(b as int, 0);
    lemma_stores_wf(s1, base as int, 0, base + 2, 0);
    let s2 = s1.store(base as int, 0).store(base + 2, 0);
    s2.lemma_store_wf(base + 3, 0);
    let m1 = s2.store(base + 3, 0);
    m1.lemma_cloud_wf(base + 1);
    m1.cloud(base + 1).lemma_cloud_wf(base + 4);
    m1.cloud(base + 1).cloud(base + 4).lemma_cloud_wf(base + 5);
    let r = crate::instructions::div_rest(n, d);
    lemma_stores_wf(m1, base + 1, r, base + 4, wrap(d - r));
    m1.store(base + 1, r).store(base + 4, wrap(d - r)).lemma_store_wf(
        base + 5,
        crate::instructions::div_quot(n, d),
    );
}

/// What `Distance` records is a well-formed pool of the same size.
pub proof fn lemma_distance_pool(a: usize, b: usize, base: usize, p: PoolModel)
    requires
        p.wf(),
        base + 7 <= p.cells.len(),
        a < p.cells.len(),
        b < p.cells.len(),
    ensures
        crate::instructions::distance_pool(p, a, b, base).wf(),
        crate::instructions::distance_pool(p, a, b, base).cells.len() == p.cells.len(),
        crate::instructions::distance_pool(p, a, b, base).used == p.used,
{
    let n = p.cells[a as int];
    let d = p.cells[b as int];
    lemma_stores_wf(p, base as int, 1, base + 1, 1);
    let s1 = p.store(base as int, 1).store(base + 1, 1);
    lemma_stores_wf(s1, base + 2, 0, base + 4, 0);
    let s2 = s1.store(base + 2, 0).store(base + 4, 0);
    lemma_stores_wf(s2, a as int, 0, b as int, 0);
    let m1 = s2.store(a as int, 0).store(b as int, 0);
    m1.lemma_cloud_wf(base + 3);
    m1.cloud(base + 3).lemma_cloud_wf(base + 5);
    lemma_stores_wf(m1, base + 3, wrap(d - n), base + 5, 0);
    lemma_stores_wf(m1, base + 3, 0, base + 5, (d - n) as CellSize);
}

/// The tape after `Mul` agrees with what `Mul` records.
pub proof fn lemma_mul_sound(a: usize, b: usize, base: usize, p: PoolModel, m: Machine)
    requires
        p.wf(),
        m.wf(),
        consistent(m, p),
        base + 4 <= p.cells.len(),
        a < p.cells.len(),
        b < p.cells.len(),
        a != b,
        !(base <= a < base + 4),
        !(base <= b < base + 4),
        p.is_used(a as int),
        p.is_used(b as int),
        p.is_used(base + 2),
        p.is_used(base + 3),
    ensures
        consistent(mul_effect(a, b, base, m), crate::instructions::mul_pool(p, a, b, base)),
{
    let after = mul_effect(a, b, base, m);
    let q = crate::instructions::mul_pool(p, a, b, base);
    lemma_mul_pool(a, b, base, p);
    let fresh = p.blank(base + 2) && p.blank(base + 3);
    let ka = !p.is_dirty(a as int);
    let kb = !p.is_dirty(b as int);
    let m1 = p.store(base as int, 0);
    p.lemma_store_wf(base as int, 0);
    let m2 = if kb && fresh {
        m1.store(base + 1, p.cells[b as int])
    } else {
        m1.cloud(base + 1)
    };
    m1.lemma_store_wf(base + 1, p.cells[b as int]);
    m1.lemma_cloud_wf(base + 1);
    let m3 = if fresh {
        m2.store(base + 2, 0)
    } else {
        m2.cloud(base + 2)
    };
    m2.lemma_store_wf(base + 2, 0);
    m2.lemma_cloud_wf(base + 2);
    let m4 = if ka && kb && fresh {
        m3.store(base + 3, wrap(p.cells[a as int] * p.cells[b as int]))
    } else {
        m3.cloud(base + 3)
    };
    m3.lemma_store_wf(base + 3, wrap(p.cells[a as int] * p.cells[b as int]));
    m3.lemma_cloud_wf(base + 3);
    m4.lemma_store_wf(a as int, 0);
    if fresh {
        assert(m.tape[base + 2] == 0);
        assert(m.tape[base + 3] == 0);
    }
    if ka {
        assert(m.tape[a as int] == p.cells[a as int]);
    }
    if kb {
        assert(m.tape[b as int] == p.cells[b as int]);
    }
    assert forall|j: int| 0 <= j < q.cells.len() && q.used[j] && !q.runtime[j] implies #[trigger] after.tape[j]
        == q.cells[j] by {
        lemma_store_at(p, base as int, 0, j);
        lemma_store_at(m1, base + 1, p.cells[b as int], j);
        lemma_cloud_at(m1, base + 1, j);
        lemma_store_at(m2, base + 2, 0, j);
        lemma_cloud_at(m2, base + 2, j);
        lemma_store_at(m3, base + 3, wrap(p.cells[a as int] * p.cells[b as int]), j);
        lemma_cloud_at(m3, base + 3, j);
        lemma_store_at(m4, a as int, 0, j);
        lemma_store_at(m4.store(a as int, 0), b as int, 0, j);
        assert(p.used[j]);
        if j != a && j != b && !(base <= j < base + 4) {
            assert(!p.runtime[j]);
            assert(m.tape[j] == p.cells[j]);
        }
        if fresh && m.tape[a as int] != 0 {
            assert(wrap(m.tape[b as int] + 0) == m.tape[b as int]);
            assert(crate::idioms::mul_sum(m.tape[a as int], m.tape[b as int], 0, 0) == wrap(
                m.tape[a as int] * m.tape[b as int],
            )) by {
                let n = m.tape[a as int] as int;
                let x = m.tape[b as int] as int;
                assert(x + (n - 1) * x == n * x) by (nonlinear_arith);
            }
        }
        if fresh && m.tape[a as int] == 0 {
            assert(m.tape[a as int] * m.tape[b as int] == 0) by (nonlinear_arith)
                requires
                    m.tape[a as int] == 0,
            ;
        }
    }
}

/// The tape after `Div` agrees with what `Div` records.
pub proof fn lemma_div_sound(a: usize, b: usize, base: usize, p: PoolModel, m: Machine)
    requires
        p.wf(),
        m.wf(),
        consistent(m, p),
        base + 6 <= p.cells.len(),
        a < p.cells.len(),
        b < p.cells.len(),
        a != b,
        !(base <= a < base + 6),
        !(base <= b < base + 6),
        p.is_used(a as int),
        p.is_used(b as int),
    ensures
        consistent(div_effect(a, b, base, m), crate::instructions::div_pool(p, a, b, base)),
{
    let after = div_effect(a, b, base, m);
    let q = crate::instructions::div_pool(p, a, b, base);
    lemma_div_pool(a, b, base, p);
    let n = p.cells[a as int];
    let d = p.cells[b as int];
    let s1 = p.store(a as int, 0);
    let s2 = s1.store(b as int, 0);
    let s3 = s2.store(base as int, 0);
    let s4 = s3.store(base + 2, 0);
    let s5 = s4.store(base + 3, 0);
    p.lemma_store_wf(a as int, 0);
    s1.lemma_store_wf(b as int, 0);
    s2.lemma_store_wf(base as int, 0);
    s3.lemma_store_wf(base + 2, 0);
    s4.lemma_store_wf(base + 3, 0);
    let r = crate::instructions::div_rest(n, d);
    let k = crate::instructions::div_quot(n, d);
    let c1 = s5.cloud(base + 1);
    let c2 = c1.cloud(base + 4);
    s5.lemma_cloud_wf(base + 1);
    c1.lemma_cloud_wf(base + 4);
    let t1 = s5.store(base + 1, r);
    let t2 = t1.store(base + 4, wrap(d - r));
    s5.lemma_store_wf(base + 1, r);
    t1.lemma_store_wf(base + 4, wrap(d - r));
    let known = !p.is_dirty(a as int) && !p.is_dirty(b as int);
    if known {
        assert(m.tape[a as int] == n);
        assert(m.tape[b as int] == d);
    }
    assert forall|j: int| 0 <= j < q.cells.len() && q.used[j] && !q.runtime[j] implies #[trigger] after.tape[j]
        == q.cells[j] by {
        lemma_store_at(p, a as int, 0, j);
        lemma_store_at(s1, b as int, 0, j);
        lemma_store_at(s2, base as int, 0, j);
        lemma_store_at(s3, base + 2, 0, j);
        lemma_store_at(s4, base + 3, 0, j);
        lemma_cloud_at(s5, base + 1, j);
        lemma_cloud_at(c1, base + 4, j);
        lemma_cloud_at(c2, base + 5, j);
        lemma_store_at(s5, base + 1, r, j);
        lemma_store_at(t1, base + 4, wrap(d - r), j);
        lemma_store_at(t2, base + 5, k, j);
        assert(p.used[j]);
        if j != a && j != b && !(base <= j < base + 6) {
            assert(!p.runtime[j]);
            assert(m.tape[j] == p.cells[j]);
        }
    }
}

/// The tape after `Distance` agrees with what `Distance` records, unless
/// the comparison is of two known operands of which the first is the
/// greater.
pub proof fn lemma_distance_sound(a: usize, b: usize, base: usize, p: PoolModel, m: Machine)
    requires
        p.wf(),
        m.wf(),
        consistent(m, p),
        base + 7 <= p.cells.len(),
        a < p.cells.len(),
        b < p.cells.len(),
        a != b,
        !(base <= a < base + 7),
        !(base <= b < base + 7),
        p.is_used(a as int),
        p.is_used(b as int),
        !(!p.is_dirty(a as int) && !p.is_dirty(b as int) && p.cells[a as int] > p.cells[b as int]),
    ensures
        consistent(distance_effect(a, b, base, m), crate::instructions::distance_pool(p, a, b, base)),
{
    let after = distance_effect(a, b, base, m);
    let q = crate::instructions::distance_pool(p, a, b, base);
    lemma_distance_pool(a, b, base, p);
    let n = p.cells[a as int];
    let d = p.cells[b as int];
    let s1 = p.store(base as int, 1);
    let s2 = s1.store(base + 1, 1);
    let s3 = s2.store(base + 2, 0);
    let s4 = s3.store(base + 4, 0);
    let s5 = s4.store(a as int, 0);
    let s6 = s5.store(b as int, 0);
    p.lemma_store_wf(base as int, 1);
    s1.lemma_store_wf(base + 1, 1);
    s2.lemma_store_wf(base + 2, 0);
    s3.lemma_store_wf(base + 4, 0);
    s4.lemma_store_wf(a as int, 0);
    s5.lemma_store_wf(b as int, 0);
    let c1 = s6.cloud(base + 3);
    s6.lemma_cloud_wf(base + 3);
    let t1 = s6.store(base + 3, 0);
    s6.lemma_store_wf(base + 3, 0);
    let known = !p.is_dirty(a as int) && !p.is_dirty(b as int);
    if known {
        assert(m.tape[a as int] == n);
        assert(m.tape[b as int] == d);
    }
    assert forall|j: int| 0 <= j < q.cells.len() && q.used[j] && !q.runtime[j] implies #[trigger] after.tape[j]
        == q.cells[j] by {
        lemma_store_at(p, base as int, 1, j);
        lemma_store_at(s1, base + 1, 1, j);
        lemma_store_at(s2, base + 2, 0, j);
        lemma_store_at(s3, base + 4, 0, j);
        lemma_store_at(s4, a as int, 0, j);
        lemma_store_at(s5, b as int, 0, j);
        lemma_cloud_at(s6, base + 3, j);
        lemma_cloud_at(c1, base + 5, j);
        lemma_store_at(s6, base + 3, 0, j);
        lemma_store_at(t1, base + 5, (d - n) as CellSize, j);
        assert(p.used[j]);
        if j != a && j != b && !(base <= j < base + 6) {
            assert(!p.runtime[j]);
            assert(m.tape[j] == p.cells[j]);
        }
    }
}


/// The conditions under which what `simulate` records of an instruction
/// can be held against the tape: the cells it relies on are allocated, no
/// comparison is misjudged, and the same holds of the body of every `If`
/// that may run. A `While` never meets them: what it records after one
/// round need not hold after more.
pub open spec fn fair(i: Step, p: PoolModel) -> bool
    decreases i, 0nat,
{
    match i {
        Step::If(condition, body) => p.is_used(condition as int) && (p.is_dirty(condition as int)
            || p.cells[condition as int] != 0 ==> fair_block(body, body.len() as int, p)),
        Step::While(_, _) => false,
        _ => reads_live(i, p) && !misjudged(i, p),
    }
}

/// Each of the first `k` instructions of a block is fair in the pool that
/// its predecessors leave.
pub open spec fn fair_block(s: Seq<Step>, k: int, p: PoolModel) -> bool
    decreases s, k,
{
    if 0 < k <= s.len() {
        fair_block(s, k - 1, p) && fair(s[k - 1], prefix_pool(s, k - 1, p))
    } else {
        true
    }
}

/// What a valid instruction records is a well-formed pool with the same
/// cells allocated.
pub proof fn lemma_pool_keeps(i: Step, p: PoolModel)
    requires
        instr_valid(i, p.cells.len() as int),
        p.wf(),
    ensures
        instr_pool(i, p).wf(),
        instr_pool(i, p).cells.len() == p.cells.len(),
        instr_pool(i, p).used == p.used,
    decreases i, 0nat,
{
    match i {
        Step::If(condition, body) => {
            lemma_block_keeps(body, body.len() as int, p);
            let after = prefix_pool(body, body.len() as int, p);
            lemma_merge_wf(p, after);
            p.lemma_store_wf(condition as int, 0);
            after.lemma_store_wf(condition as int, 0);
            merge(p, after).lemma_store_wf(condition as int, 0);
        },
        Step::While(condition, body) => {
            lemma_block_keeps(body, body.len() as int, p);
            let after = prefix_pool(body, body.len() as int, p);
            lemma_merge_wf(p, after);
            p.lemma_store_wf(condition as int, 0);
            merge(p, after).lemma_store_wf(condition as int, 0);
        },
        _ => {
            lemma_pool_wf(i, p);
        },
    }
}

/// What the first instructions of a valid block record is a well-formed
/// pool with the same cells allocated.
pub proof fn lemma_block_keeps(s: Seq<Step>, k: int, p: PoolModel)
    requires
        block_valid(s, p.cells.len() as int),
        p.wf(),
        0 <= k <= s.len(),
    ensures
        prefix_pool(s, k, p).wf(),
        prefix_pool(s, k, p).cells.len() == p.cells.len(),
        prefix_pool(s, k, p).used == p.used,
    decreases s, k,
{
    if k > 0 {
        lemma_block_keeps(s, k - 1, p);
        lemma_pool_keeps(s[k - 1], prefix_pool(s, k - 1, p));
    }
}

/// Merging two well-formed pools with the same cells allocated gives a
/// well-formed pool that knows no more than either.
pub proof fn lemma_merge_wf(before: PoolModel, after: PoolModel)
    requires
        before.wf(),
        after.wf(),
        after.cells.len() == before.cells.len(),
        after.used == before.used,
    ensures
        merge(before, after).wf(),
        merge(before, after).cells == after.cells,
        merge(before, after).used == after.used,
{
}

/// A tape that agrees with either of two pools agrees with their merge.
pub proof fn lemma_merge_sound(before: PoolModel, after: PoolModel, m: Machine)
    requires
        before.wf(),
        after.wf(),
        after.cells.len() == before.cells.len(),
        after.used == before.used,
        consistent(m, before) || consistent(m, after),
    ensures
        consistent(m, merge(before, after)),
{
    let q = merge(before, after);
    assert forall|j: int| 0 <= j < q.cells.len() && q.used[j] && !q.runtime[j] implies #[trigger] m.tape[j]
        == q.cells[j] by {
        assert(after.used[j] && !after.runtime[j] && !before.runtime[j] && before.cells[j] == after.cells[j]);
    }
}

/// A tape that agrees with a pool, with zero written to a cell, agrees
/// with the pool in which zero is recorded for that cell.
pub proof fn lemma_zeroed_sound(p: PoolModel, m: Machine, cell: usize)
    requires
        p.wf(),
        cell < p.cells.len(),
        consistent(m, p),
    ensures
        consistent(m.put(cell as int, 0), p.store(cell as int, 0)),
        consistent(m.put(cell as int, 0).seek(cell as int), p.store(cell as int, 0)),
{
    let q = p.store(cell as int, 0);
    assert forall|j: int| 0 <= j < q.cells.len() && q.used[j] && !q.runtime[j] implies #[trigger] m.put(
        cell as int,
        0,
    ).tape[j] == q.cells[j] by {
        if j != cell {
            assert(p.used[j] && !p.runtime[j]);
        }
    }
}

/// **Dirty soundness, with blocks.** If the tape agrees with the pool
/// before a fair instruction, and the program of the instruction ends, the
/// tape agrees with what `simulate` records, and the head stands where
/// `simulate` records it.
#[verifier::rlimit(40)]
pub proof fn lemma_sound(i: Step, p: PoolModel, m: Machine, fuel: nat)
    requires
        instr_valid(i, p.cells.len() as int),
        p.wf(),
        m.wf(),
        0 <= m.head <= usize::MAX,
        consistent(m, p),
        fair(i, p),
        run(step_code(i, m.head as usize), m, fuel) is Some,
    ensures
        consistent(run(step_code(i, m.head as usize), m, fuel)->0, instr_pool(i, p)),
        run(step_code(i, m.head as usize), m, fuel)->0.head == instr_exit(i),
        run(step_code(i, m.head as usize), m, fuel)->0.wf(),
    decreases i, 0nat,
{
    let from = m.head as usize;
    match i {
        Step::If(condition, body) => {
            let n = body.len() as int;
            let round = if_round(condition, body);
            let lp = Op::Loop(round);
            lemma_run_add(moves(from, condition), seq![lp], m, fuel);
            lemma_run_moves(from, condition, m, fuel);
            let at = m.seek(condition as int);
            lemma_run_one(lp, at, fuel);
            lemma_block_keeps(body, n, p);
            let after = prefix_pool(body, n, p);
            lemma_merge_wf(p, after);
            if at.cur() == 0 {
                assert(at.put(condition as int, 0).tape =~= at.tape);
                if p.is_dirty(condition as int) {
                    lemma_merge_sound(p, after, at);
                    lemma_zeroed_sound(merge(p, after), at, condition);
                } else {
                    assert(m.tape[condition as int] == p.cells[condition as int]);
                    lemma_zeroed_sound(p, at, condition);
                }
            } else {
                let f = (fuel - 1) as nat;
                let inner = block_code(body, n, condition);
                let back = moves(prefix_exit(body, n, condition), condition);
                let clear = clear_code(condition, condition);
                lemma_run_add(inner + back, clear, at, f);
                lemma_run_add(inner, back, at, f);
                if !p.is_dirty(condition as int) {
                    assert(m.tape[condition as int] == p.cells[condition as int]);
                }
                lemma_block_sound(body, n, p, at, f);
                let m1 = run(inner, at, f)->0;
                lemma_run_moves(prefix_exit(body, n, condition), condition, m1, f);
                let m2 = m1.seek(condition as int);
                lemma_clear_runs(condition, condition, m2, f);
                let m3 = m2.put(condition as int, 0).seek(condition as int);
                assert(m3.cur() == 0);
                if f > 0 {
                    assert(step(lp, m3, f) == Some(m3));
                }
                if p.is_dirty(condition as int) {
                    lemma_merge_sound(p, after, m1);
                    lemma_zeroed_sound(merge(p, after), m1, condition);
                } else {
                    lemma_zeroed_sound(after, m1, condition);
                }
            }
        },
        Step::While(_, _) => {},
        _ => {
            lemma_dirty_soundness(i, p, m, fuel);
        },
    }
}

/// If the tape agrees with the pool before the first `k` instructions of
/// a fair block, and their program ends, the tape agrees with what
/// replaying them records.
pub proof fn lemma_block_sound(s: Seq<Step>, k: int, p: PoolModel, m: Machine, fuel: nat)
    requires
        block_valid(s, p.cells.len() as int),
        p.wf(),
        0 <= k <= s.len(),
        m.wf(),
        0 <= m.head <= usize::MAX,
        consistent(m, p),
        fair_block(s, k, p),
        run(block_code(s, k, m.head as usize), m, fuel) is Some,
    ensures
        consistent(run(block_code(s, k, m.head as usize), m, fuel)->0, prefix_pool(s, k, p)),
        run(block_code(s, k, m.head as usize), m, fuel)->0.head == prefix_exit(s, k, m.head as usize),
        run(block_code(s, k, m.head as usize), m, fuel)->0.wf(),
    decreases s, k,
{
    let from = m.head as usize;
    if k > 0 {
        let before = block_code(s, k - 1, from);
        let last = step_code(s[k - 1], prefix_exit(s, k - 1, from));
        lemma_run_add(before, last, m, fuel);
        lemma_block_sound(s, k - 1, p, m, fuel);
        lemma_block_keeps(s, k - 1, p);
        let mid = run(before, m, fuel)->0;
        lemma_sound(s[k - 1], prefix_pool(s, k - 1, p), mid, fuel);
    }
}

} // verus!
