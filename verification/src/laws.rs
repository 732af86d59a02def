//! Algebraic laws of the instruction set, stated once over what `simulate`
//! records and once over what the emitted programs do on the tape.

use crate::block::Step;
use crate::coherence::step_code;
use crate::idioms::{lemma_copy_runs, lemma_fold_runs, lemma_negate_runs};
use crate::instructions::{Add, BoolNegate, Instruction, Sub};
use crate::memory::GeneratorModel;
use crate::tape::{run, Machine, Op};
use vstd::prelude::*;

verus! {

/// Adding cell `b` into cell `a` and then, with `b` put back to what it
/// held, subtracting it again returns `a` to what it held.
pub proof fn lemma_add_then_sub_restores(g: GeneratorModel, a: usize, b: usize)
    requires
        g.memory.wf(),
        a != b,
        g.memory.known(a as int),
        g.memory.known(b as int),
    ensures
        ({
            let added = (Add { a, b }).simulated(g);
            let restored = added.with(added.memory.store(b as int, g.memory.cells[b as int]));
            let back = (Sub { a, b }).simulated(restored);
            &&& back.memory.known(a as int)
            &&& back.memory.cells[a as int] == g.memory.cells[a as int]
        }),
{
}

/// A copy leaves the source as it was and the scratch cell at zero, and
/// the destination holds the source's value if that was known.
pub proof fn lemma_copy_preserves_source(g: GeneratorModel, a: usize, tmp: usize, b: usize)
    requires
        g.memory.wf(),
        a != b,
        a != tmp,
        b != tmp,
        a < usize::MAX,
        tmp < usize::MAX,
        b < g.memory.cells.len(),
    ensures
        ({
            let after = (crate::instructions::Copy { a, tmp, b }).simulated(g).memory;
            &&& after.cells[b as int] == g.memory.cells[b as int]
            &&& after.is_dirty(b as int) == g.memory.is_dirty(b as int)
            &&& after.known(tmp as int)
            &&& after.cells[tmp as int] == 0
            &&& g.memory.known(b as int) ==> after.known(a as int) && after.cells[a as int]
                == g.memory.cells[b as int]
        }),
{
    g.memory.lemma_store_wf(tmp as int, 0);
    g.memory.store(tmp as int, 0).lemma_reach_wf(a as int);
}

/// Negating a cell that holds zero or one twice returns it to what it held.
pub proof fn lemma_negate_twice(g: GeneratorModel, a: usize, tmp: usize)
    requires
        g.memory.wf(),
        a != tmp,
        tmp < usize::MAX,
        g.memory.known(a as int),
        g.memory.cells[a as int] == 0 || g.memory.cells[a as int] == 1,
    ensures
        ({
            let once = (BoolNegate { a, tmp }).simulated(g);
            let twice = (BoolNegate { a, tmp }).simulated(once);
            &&& twice.memory.known(a as int)
            &&& twice.memory.cells[a as int] == g.memory.cells[a as int]
            &&& once.memory.cells[a as int] == 1 - g.memory.cells[a as int]
        }),
{
    g.memory.lemma_store_wf(a as int, 0);
    g.memory.lemma_store_wf(a as int, 1);
}


/// On the tape, the program of `Add(a, b)` and then, with `b` put back to
/// what it held, the program of `Sub(a, b)` return `a` to what it held.
pub proof fn lemma_add_then_sub_on_tape(a: usize, b: usize, m: Machine, fuel: nat)
    requires
        m.wf(),
        a != b,
        0 <= m.head <= usize::MAX,
        run(step_code(Step::Add(Add { a, b }), m.head as usize), m, fuel) is Some,
        ({
            let added = run(step_code(Step::Add(Add { a, b }), m.head as usize), m, fuel)->0;
            run(step_code(Step::Sub(Sub { a, b }), b), added.put(b as int, m.at(b as int)), fuel) is Some
        }),
    ensures
        ({
            let added = run(step_code(Step::Add(Add { a, b }), m.head as usize), m, fuel)->0;
            let back = run(step_code(Step::Sub(Sub { a, b }), b), added.put(b as int, m.at(b as int)), fuel)->0;
            back.at(a as int) == m.at(a as int)
        }),
{
    lemma_fold_runs(a, b, Op::Inc, m.head as usize, m, fuel);
    let added = run(step_code(Step::Add(Add { a, b }), m.head as usize), m, fuel)->0;
    lemma_fold_runs(a, b, Op::Dec, b, added.put(b as int, m.at(b as int)), fuel);
}

/// On the tape, the program of `Copy(a, tmp, b)` leaves `b` as it was,
/// `tmp` at zero, and in `a` what `b` holds.
pub proof fn lemma_copy_on_tape(a: usize, tmp: usize, b: usize, m: Machine, fuel: nat)
    requires
        m.wf(),
        a != b,
        a != tmp,
        b != tmp,
        0 <= m.head <= usize::MAX,
        run(step_code(Step::Copy(crate::instructions::Copy { a, tmp, b }), m.head as usize), m, fuel) is Some,
    ensures
        ({
            let done = run(
                step_code(Step::Copy(crate::instructions::Copy { a, tmp, b }), m.head as usize),
                m,
                fuel,
            )->0;
            &&& done.at(b as int) == m.at(b as int)
            &&& done.at(tmp as int) == 0
            &&& done.at(a as int) == m.at(b as int)
        }),
{
    lemma_copy_runs(a, tmp, b, m.head as usize, m, fuel);
}

/// On the tape, the program of `BoolNegate(a, tmp)` run twice returns a
/// cell that holds zero or one to what it held.
pub proof fn lemma_negate_twice_on_tape(a: usize, tmp: usize, m: Machine, fuel: nat)
    requires
        m.wf(),
        a != tmp,
        0 <= m.head <= usize::MAX,
        m.at(a as int) == 0 || m.at(a as int) == 1,
        run(step_code(Step::BoolNegate(BoolNegate { a, tmp }), m.head as usize), m, fuel) is Some,
        ({
            let once = run(step_code(Step::BoolNegate(BoolNegate { a, tmp }), m.head as usize), m, fuel)->0;
            run(step_code(Step::BoolNegate(BoolNegate { a, tmp }), a), once, fuel) is Some
        }),
    ensures
        ({
            let once = run(step_code(Step::BoolNegate(BoolNegate { a, tmp }), m.head as usize), m, fuel)->0;
            let twice = run(step_code(Step::BoolNegate(BoolNegate { a, tmp }), a), once, fuel)->0;
            &&& once.at(a as int) == 1 - m.at(a as int)
            &&& twice.at(a as int) == m.at(a as int)
        }),
{
    lemma_negate_runs(a, tmp, m.head as usize, m, fuel);
    let once = run(step_code(Step::BoolNegate(BoolNegate { a, tmp }), m.head as usize), m, fuel)->0;
    lemma_negate_runs(a, tmp, a, once, fuel);
}

} // verus!
