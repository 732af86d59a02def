//! Blocks of instructions and the two instructions that own a block.

use crate::builder::{tabs, travel, BFBuilder};
use crate::instructions::{
    clear_text, Add, BoolNegate, Clear, Command, Distance, Div, Goto, Input, Instruction, Move, Mul, Output,
    SetCell, Sub,
};
use crate::memory::{
    copy_cells, copy_indices, holds, marks, CellSize, Generator, GeneratorModel, MemoryPool, PoolModel,
};
use vstd::prelude::*;

verus! {

/// One instruction of a block: the closed family of operations.
pub enum Instr {
    Goto(Goto),
    Clear(Clear),
    SetCell(SetCell),
    Add(Add),
    Sub(Sub),
    Move(Move),
    BoolNegate(BoolNegate),
    Copy(crate::instructions::Copy),
    Mul(Mul),
    Div(Div),
    Distance(Distance),
    Input(Input),
    Output(Output),
    Command(Command),
    If(If),
    While(While),
}

/// An ordered sequence of instructions.
pub struct BFBlock {
    pub instructions: Vec<Instr>,
}

/// Runs its block once if the condition cell is not zero, and leaves the
/// condition cell at zero.
pub struct If {
    pub condition: usize,
    pub block: BFBlock,
}

/// Runs its block for as long as the condition cell is not zero.
pub struct While {
    pub condition: usize,
    pub block: BFBlock,
}

/// Mathematical value of an [`Instr`]: the same instruction with the block
/// of an `If` or a `While` as a sequence.
pub enum Step {
    Goto(Goto),
    Clear(Clear),
    SetCell(SetCell),
    Add(Add),
    Sub(Sub),
    Move(Move),
    BoolNegate(BoolNegate),
    Copy(crate::instructions::Copy),
    Mul(Mul),
    Div(Div),
    Distance(Distance),
    Input(Input),
    Output(Output),
    Command(Command),
    If(usize, Seq<Step>),
    While(usize, Seq<Step>),
}

/// The value of an instruction.
pub open spec fn instr_model(i: Instr) -> Step
    decreases i,
{
    match i {
        Instr::Goto(x) => Step::Goto(x),
        Instr::Clear(x) => Step::Clear(x),
        Instr::SetCell(x) => Step::SetCell(x),
        Instr::Add(x) => Step::Add(x),
        Instr::Sub(x) => Step::Sub(x),
        Instr::Move(x) => Step::Move(x),
        Instr::BoolNegate(x) => Step::BoolNegate(x),
        Instr::Copy(x) => Step::Copy(x),
        Instr::Mul(x) => Step::Mul(x),
        Instr::Div(x) => Step::Div(x),
        Instr::Distance(x) => Step::Distance(x),
        Instr::Input(x) => Step::Input(x),
        Instr::Output(x) => Step::Output(x),
        Instr::Command(x) => Step::Command(x),
        Instr::If(x) => Step::If(
            x.condition,
            Seq::new(
                x.block.instructions@.len(),
                |k: int|
                    if 0 <= k < x.block.instructions@.len() {
                        instr_model(x.block.instructions@[k])
                    } else {
                        arbitrary()
                    },
            ),
        ),
        Instr::While(x) => Step::While(
            x.condition,
            Seq::new(
                x.block.instructions@.len(),
                |k: int|
                    if 0 <= k < x.block.instructions@.len() {
                        instr_model(x.block.instructions@[k])
                    } else {
                        arbitrary()
                    },
            ),
        ),
    }
}

/// The values of a sequence of instructions.
pub open spec fn block_model(s: Seq<Instr>) -> Seq<Step> {
    Seq::new(
        s.len(),
        |k: int|
            if 0 <= k < s.len() {
                instr_model(s[k])
            } else {
                arbitrary()
            },
    )
}

/// The value of an `If` is its condition over the value of its block.
pub proof fn lemma_if_model(x: If)
    ensures
        instr_model(Instr::If(x)) == Step::If(x.condition, x.block@),
{
    assert(instr_model(Instr::If(x))->If_1 =~= x.block@);
}

/// The value of a `While` is its condition over the value of its block.
pub proof fn lemma_while_model(x: While)
    ensures
        instr_model(Instr::While(x)) == Step::While(x.condition, x.block@),
{
    assert(instr_model(Instr::While(x))->While_1 =~= x.block@);
}

impl View for Instr {
    type V = Step;

    open spec fn view(&self) -> Step {
        instr_model(*self)
    }
}

impl View for BFBlock {
    type V = Seq<Step>;

    open spec fn view(&self) -> Seq<Step> {
        block_model(self.instructions@)
    }
}

/// The instruction refers only to cells below `limit`, its operands alias
/// neither each other nor its block, and its block, if it needs one, is
/// reserved. The same holds of every instruction nested in it.
pub open spec fn instr_valid(i: Step, limit: int) -> bool
    decreases i,
{
    match i {
        Step::Goto(x) => x.cell < limit,
        Step::Clear(x) => x.cell < limit,
        Step::SetCell(x) => x.cell < limit,
        Step::Add(x) => x.a != x.b && x.a < limit && x.b < limit,
        Step::Sub(x) => x.a != x.b && x.a < limit && x.b < limit,
        Step::Move(x) => x.a != x.b && x.a < limit && x.b < limit,
        Step::BoolNegate(x) => x.a != x.tmp && x.a < limit && x.tmp < limit,
        Step::Copy(x) => x.a != x.b && x.a != x.tmp && x.b != x.tmp && x.a < limit && x.b < limit && x.tmp
            < limit,
        Step::Mul(x) => block_clear(x.block, 4, x.a, x.b, limit),
        Step::Div(x) => block_clear(x.block, 6, x.a, x.b, limit),
        Step::Distance(x) => block_clear(x.block, 7, x.a, x.b, limit) && x.gt_cell == x.block->0 + 3
            && x.lt_cell == x.block->0 + 5,
        Step::Input(x) => x.cell < limit,
        Step::Output(x) => x.cell < limit,
        Step::Command(x) => x.cell < limit,
        Step::If(condition, body) => condition < limit && block_valid(body, limit),
        Step::While(condition, body) => condition < limit && block_valid(body, limit),
    }
}

/// A reserved block of `size` cells below `limit` that holds neither operand.
pub open spec fn block_clear(block: Option<usize>, size: int, a: usize, b: usize, limit: int) -> bool {
    &&& block is Some
    &&& block->0 + size <= limit
    &&& a != b
    &&& a < limit
    &&& b < limit
    &&& !(block->0 <= a < block->0 + size)
    &&& !(block->0 <= b < block->0 + size)
}

/// Every instruction of the sequence is valid below `limit`.
pub open spec fn block_valid(s: Seq<Step>, limit: int) -> bool
    decreases s,
{
    forall|k: int| 0 <= k < s.len() ==> instr_valid(#[trigger] s[k], limit)
}

/// The cell is allocated.
pub open spec fn cell_live(used: Seq<bool>, cell: int) -> bool {
    0 <= cell < used.len() && used[cell]
}

/// The `size` cells from `base` on are allocated.
pub open spec fn run_live(used: Seq<bool>, base: int, size: int) -> bool {
    forall|j: int| base <= j < base + size ==> cell_live(used, j)
}

/// Every cell whose recorded value the instruction reads, or that it may
/// mark as unknown, is allocated. A cell that is only written need not be:
/// a scratch cell may have been released by the time its instruction is
/// replayed. The same holds of every instruction nested in it.
pub open spec fn instr_live(i: Step, used: Seq<bool>) -> bool
    decreases i,
{
    match i {
        Step::Goto(x) => true,
        Step::Clear(x) => true,
        Step::SetCell(x) => true,
        Step::Add(x) => cell_live(used, x.a as int) && cell_live(used, x.b as int),
        Step::Sub(x) => cell_live(used, x.a as int) && cell_live(used, x.b as int),
        Step::Move(x) => cell_live(used, x.a as int) && cell_live(used, x.b as int),
        Step::BoolNegate(x) => cell_live(used, x.a as int) && cell_live(used, x.tmp as int),
        Step::Copy(x) => cell_live(used, x.a as int) && cell_live(used, x.b as int),
        Step::Mul(x) => cell_live(used, x.a as int) && cell_live(used, x.b as int) && run_live(
            used,
            x.block->0 as int,
            4,
        ),
        Step::Div(x) => cell_live(used, x.a as int) && cell_live(used, x.b as int) && run_live(
            used,
            x.block->0 as int,
            6,
        ),
        Step::Distance(x) => cell_live(used, x.a as int) && cell_live(used, x.b as int) && run_live(
            used,
            x.block->0 as int,
            6,
        ),
        Step::Input(x) => cell_live(used, x.cell as int),
        Step::Output(x) => true,
        Step::Command(x) => cell_live(used, x.cell as int),
        Step::If(condition, body) => cell_live(used, condition as int) && block_live(body, used),
        Step::While(condition, body) => cell_live(used, condition as int) && block_live(body, used),
    }
}

/// Every instruction of the sequence is live.
pub open spec fn block_live(s: Seq<Step>, used: Seq<bool>) -> bool
    decreases s,
{
    forall|k: int| 0 <= k < s.len() ==> instr_live(#[trigger] s[k], used)
}

/// The cell on which the instruction leaves the head.
pub open spec fn instr_exit(i: Step) -> usize {
    match i {
        Step::Goto(x) => x.cell,
        Step::Clear(x) => x.cell,
        Step::SetCell(x) => x.cell,
        Step::Add(x) => x.b,
        Step::Sub(x) => x.b,
        Step::Move(x) => x.b,
        Step::BoolNegate(x) => x.a,
        Step::Copy(x) => x.a,
        Step::Mul(x) => x.block->0,
        Step::Div(x) => x.block->0,
        Step::Distance(x) => (x.block->0 + 2) as usize,
        Step::Input(x) => x.cell,
        Step::Output(x) => x.cell,
        Step::Command(x) => x.cell,
        Step::If(condition, _) => condition,
        Step::While(condition, _) => condition,
    }
}

/// The cell on which the first `k` instructions of `s` leave a head that
/// started on `from`.
pub open spec fn prefix_exit(s: Seq<Step>, k: int, from: usize) -> usize {
    if k <= 0 {
        from
    } else {
        instr_exit(s[k - 1])
    }
}

/// The text of one instruction, emitted in generator state `g`.
pub open spec fn instr_text(i: Step, g: GeneratorModel) -> Seq<char>
    decreases i, 0int,
{
    match i {
        Step::Goto(x) => x.emitted(g),
        Step::Clear(x) => x.emitted(g),
        Step::SetCell(x) => x.emitted(g),
        Step::Add(x) => x.emitted(g),
        Step::Sub(x) => x.emitted(g),
        Step::Move(x) => x.emitted(g),
        Step::BoolNegate(x) => x.emitted(g),
        Step::Copy(x) => x.emitted(g),
        Step::Mul(x) => x.emitted(g),
        Step::Div(x) => x.emitted(g),
        Step::Distance(x) => x.emitted(g),
        Step::Input(x) => x.emitted(g),
        Step::Output(x) => x.emitted(g),
        Step::Command(x) => x.emitted(g),
        Step::If(condition, body) => if_text(condition, body, g),
        Step::While(condition, body) => while_text(condition, body, g),
    }
}

/// The text of an `If` on `condition` over `body`: the guarded loop holds
/// the body, the way back to the condition cell, and the clearing of it.
pub open spec fn if_text(condition: usize, body: Seq<Step>, g: GeneratorModel) -> Seq<char>
    decreases body, body.len() + 1,
{
    guard_text(condition, g) + prefix_text(body, body.len() as int, g.at(condition)) + tabs(g.indent)
        + travel(prefix_exit(body, body.len() as int, condition), condition) + tabs(g.indent)
        + clear_text(condition, condition, g.indent) + BFBuilder::closing(g.indent) + "\n"@
}

/// The text of a `While` on `condition` over `body`: the guarded loop holds
/// the body and the way back to the condition cell.
pub open spec fn while_text(condition: usize, body: Seq<Step>, g: GeneratorModel) -> Seq<char>
    decreases body, body.len() + 1,
{
    guard_text(condition, g) + prefix_text(body, body.len() as int, g.at(condition)) + tabs(g.indent)
        + travel(prefix_exit(body, body.len() as int, condition), condition) + BFBuilder::closing(
        g.indent,
    ) + "\n"@
}

/// The text that leads to the condition cell and opens the loop on it.
pub open spec fn guard_text(condition: usize, g: GeneratorModel) -> Seq<char> {
    tabs(g.indent) + travel(g.cell, condition) + tabs(g.indent) + "["@
}

/// The text of the first `k` instructions of `s`, each emitted where its
/// predecessor left the head, the first in generator state `g`.
pub open spec fn prefix_text(s: Seq<Step>, k: int, g: GeneratorModel) -> Seq<char>
    decreases s, k,
{
    if 0 < k <= s.len() {
        prefix_text(s, k - 1, g) + instr_text(s[k - 1], g.at(prefix_exit(s, k - 1, g.cell)))
    } else {
        Seq::empty()
    }
}

/// A cell is unknown after a block that may or may not have run if it is
/// allocated and was unknown before, is unknown after, or changed its
/// recorded value.
pub open spec fn merge(before: PoolModel, after: PoolModel) -> PoolModel {
    PoolModel {
        runtime: Seq::new(
            after.cells.len(),
            |i: int|
                after.used[i] && (after.runtime[i] || before.runtime[i] || before.cells[i]
                    != after.cells[i]),
        ),
        ..after
    }
}

/// What replaying one instruction records in pool `m`.
pub open spec fn instr_pool(i: Step, m: PoolModel) -> PoolModel
    decreases i, 0int,
{
    let g = GeneratorModel { cell: 0, indent: 0, memory: m };
    match i {
        Step::Goto(x) => m,
        Step::Clear(x) => x.simulated(g).memory,
        Step::SetCell(x) => x.simulated(g).memory,
        Step::Add(x) => x.simulated(g).memory,
        Step::Sub(x) => x.simulated(g).memory,
        Step::Move(x) => x.simulated(g).memory,
        Step::BoolNegate(x) => x.simulated(g).memory,
        Step::Copy(x) => x.simulated(g).memory,
        Step::Mul(x) => x.simulated(g).memory,
        Step::Div(x) => x.simulated(g).memory,
        Step::Distance(x) => x.simulated(g).memory,
        Step::Input(x) => x.simulated(g).memory,
        Step::Output(x) => m,
        Step::Command(x) => x.simulated(g).memory,
        Step::If(condition, body) => if_pool(condition, body, m),
        Step::While(condition, body) => while_pool(condition, body, m),
    }
}

/// What replaying an `If` records.
///
/// With a known condition the body is replayed or skipped accordingly. With
/// an unknown one the body is replayed and every cell that it may have
/// changed is unknown afterwards. Either way the condition cell ends at
/// zero.
pub open spec fn if_pool(condition: usize, body: Seq<Step>, m: PoolModel) -> PoolModel
    decreases body, body.len() + 1,
{
    if m.is_dirty(condition as int) {
        merge(m, prefix_pool(body, body.len() as int, m)).store(condition as int, 0)
    } else if m.cells[condition as int] != 0 {
        prefix_pool(body, body.len() as int, m).store(condition as int, 0)
    } else {
        m.store(condition as int, 0)
    }
}

/// What replaying a `While` records.
///
/// With a condition known to be zero the body is skipped. Otherwise the
/// body is replayed once and every cell that this changed is unknown
/// afterwards. Either way the condition cell ends at zero.
pub open spec fn while_pool(condition: usize, body: Seq<Step>, m: PoolModel) -> PoolModel
    decreases body, body.len() + 1,
{
    if !m.is_dirty(condition as int) && m.cells[condition as int] == 0 {
        m.store(condition as int, 0)
    } else {
        merge(m, prefix_pool(body, body.len() as int, m)).store(condition as int, 0)
    }
}

/// What replaying the first `k` instructions of `s` records in pool `m`.
pub open spec fn prefix_pool(s: Seq<Step>, k: int, m: PoolModel) -> PoolModel
    decreases s, k,
{
    if 0 < k <= s.len() {
        instr_pool(s[k - 1], prefix_pool(s, k - 1, m))
    } else {
        m
    }
}

/// Marks as unknown every allocated cell that the snapshot lists as
/// unknown or whose recorded value differs from the snapshot's.
fn blur(owner: &mut Generator, cells: &Vec<CellSize>, runtime: &Vec<usize>)
    requires
        old(owner).wf(),
        cells@.len() == old(owner)@.memory.cells.len(),
    ensures
        final(owner).wf(),
        final(owner)@.cell == old(owner)@.cell,
        final(owner)@.indent == old(owner)@.indent,
        final(owner)@.memory == merge(
            PoolModel { cells: cells@, runtime: marks(runtime@, cells@.len()), ..old(owner)@.memory },
            old(owner)@.memory,
        ),
{
    let ghost before = PoolModel { cells: cells@, runtime: marks(runtime@, cells@.len()), ..old(owner)@.memory };
    let ghost after = old(owner)@.memory;
    let mut i: usize = 0;
    while i < cells.len()
        invariant
            i <= cells.len(),
            owner.wf(),
            cells@.len() == after.cells.len(),
            before == (PoolModel { cells: cells@, runtime: marks(runtime@, cells@.len()), ..after }),
            after.wf(),
            owner@.cell == old(owner)@.cell,
            owner@.indent == old(owner)@.indent,
            owner@.memory.cells == after.cells,
            owner@.memory.used == after.used,
            owner@.memory.free == after.free,
            owner@.memory.runtime.len() == after.cells.len(),
            forall|j: int| 0 <= j < i ==> owner@.memory.runtime[j] == merge(before, after).runtime[j],
            forall|j: int| i <= j < after.cells.len() ==> owner@.memory.runtime[j] == after.runtime[j],
        decreases cells.len() - i,
    {
        if owner.memory.is_used(i) && (holds(runtime, i) || cells[i] != owner.memory.get_raw(i)) {
            owner.memory.dirty(i);
        }
        i = i + 1;
    }
    assert(owner@.memory.runtime =~= merge(before, after).runtime);
}

/// Whether the cell is allocated.
fn used_cell(pool: &MemoryPool, cell: usize) -> (ok: bool)
    requires
        pool.wf(),
    ensures
        ok == cell_live(pool@.used, cell as int),
{
    pool.is_used(cell)
}

/// Whether the `size` cells of a reserved block are allocated.
fn used_run(pool: &MemoryPool, block: Option<usize>, size: usize) -> (ok: bool)
    requires
        pool.wf(),
        block is Some,
        block->0 + size <= usize::MAX,
    ensures
        ok == run_live(pool@.used, block->0 as int, size as int),
{
    let base = block.unwrap();
    let mut k: usize = 0;
    while k < size
        invariant
            k <= size,
            pool.wf(),
            block == Some(base),
            base + size <= usize::MAX,
            forall|j: int| base <= j < base + k ==> cell_live(pool@.used, j),
        decreases size - k,
    {
        if !used_cell(pool, base + k) {
            assert(!cell_live(pool@.used, base + k));
            return false;
        }
        k = k + 1;
    }
    true
}

impl Instr {
    /// An instruction of the same value.
    pub fn duplicate(&self) -> (d: Instr)
        ensures
            d@ == self@,
        decreases *self,
    {
        match self {
            Instr::Goto(x) => Instr::Goto(Goto { cell: x.cell }),
            Instr::Clear(x) => Instr::Clear(Clear { cell: x.cell }),
            Instr::SetCell(x) => Instr::SetCell(SetCell { cell: x.cell, value: x.value }),
            Instr::Add(x) => Instr::Add(Add { a: x.a, b: x.b }),
            Instr::Sub(x) => Instr::Sub(Sub { a: x.a, b: x.b }),
            Instr::Move(x) => Instr::Move(Move { a: x.a, b: x.b }),
            Instr::BoolNegate(x) => Instr::BoolNegate(BoolNegate { a: x.a, tmp: x.tmp }),
            Instr::Copy(x) => Instr::Copy(crate::instructions::Copy { a: x.a, tmp: x.tmp, b: x.b }),
            Instr::Mul(x) => Instr::Mul(Mul { a: x.a, b: x.b, block: x.block }),
            Instr::Div(x) => Instr::Div(Div { block: x.block, a: x.a, b: x.b }),
            Instr::Distance(x) => Instr::Distance(
                Distance { a: x.a, b: x.b, block: x.block, gt_cell: x.gt_cell, lt_cell: x.lt_cell },
            ),
            Instr::Input(x) => Instr::Input(Input { cell: x.cell }),
            Instr::Output(x) => Instr::Output(Output { cell: x.cell }),
            Instr::Command(x) => Instr::Command(Command { cell: x.cell }),
            Instr::If(x) => {
                let d = If { condition: x.condition, block: x.block.duplicate() };
                proof {
                    lemma_if_model(*x);
                    lemma_if_model(d);
                }
                Instr::If(d)
            },
            Instr::While(x) => {
                let d = While { condition: x.condition, block: x.block.duplicate() };
                proof {
                    lemma_while_model(*x);
                    lemma_while_model(d);
                }
                Instr::While(d)
            },
        }
    }

    /// Whether every cell that the instruction reads or may mark is
    /// allocated.
    pub fn live(&self, pool: &MemoryPool) -> (ok: bool)
        requires
            pool.wf(),
            instr_valid(self@, pool@.cells.len() as int),
        ensures
            ok == instr_live(self@, pool@.used),
        decreases *self,
    {
        match self {
            Instr::Goto(x) => true,
            Instr::Clear(x) => true,
            Instr::SetCell(x) => true,
            Instr::Add(x) => used_cell(pool, x.a) && used_cell(pool, x.b),
            Instr::Sub(x) => used_cell(pool, x.a) && used_cell(pool, x.b),
            Instr::Move(x) => used_cell(pool, x.a) && used_cell(pool, x.b),
            Instr::BoolNegate(x) => used_cell(pool, x.a) && used_cell(pool, x.tmp),
            Instr::Copy(x) => used_cell(pool, x.a) && used_cell(pool, x.b),
            Instr::Mul(x) => used_cell(pool, x.a) && used_cell(pool, x.b) && used_run(pool, x.block, 4),
            Instr::Div(x) => used_cell(pool, x.a) && used_cell(pool, x.b) && used_run(pool, x.block, 6),
            Instr::Distance(x) => used_cell(pool, x.a) && used_cell(pool, x.b) && used_run(pool, x.block, 6),
            Instr::Input(x) => used_cell(pool, x.cell),
            Instr::Output(x) => true,
            Instr::Command(x) => used_cell(pool, x.cell),
            Instr::If(x) => {
                proof {
                    lemma_if_model(*x);
                }
                used_cell(pool, x.condition) && x.block.live(pool)
            },
            Instr::While(x) => {
                proof {
                    lemma_while_model(*x);
                }
                used_cell(pool, x.condition) && x.block.live(pool)
            },
        }
    }

    /// Whether the instruction is valid below `limit`.
    pub fn check(&self, limit: usize) -> (ok: bool)
        ensures
            ok == instr_valid(self@, limit as int),
        decreases *self,
    {
        match self {
            Instr::Goto(x) => x.cell < limit,
            Instr::Clear(x) => x.cell < limit,
            Instr::SetCell(x) => x.cell < limit,
            Instr::Add(x) => x.a != x.b && x.a < limit && x.b < limit,
            Instr::Sub(x) => x.a != x.b && x.a < limit && x.b < limit,
            Instr::Move(x) => x.a != x.b && x.a < limit && x.b < limit,
            Instr::BoolNegate(x) => x.a != x.tmp && x.a < limit && x.tmp < limit,
            Instr::Copy(x) => x.a != x.b && x.a != x.tmp && x.b != x.tmp && x.a < limit && x.b < limit
                && x.tmp < limit,
            Instr::Mul(x) => check_block(x.block, 4, x.a, x.b, limit),
            Instr::Div(x) => check_block(x.block, 6, x.a, x.b, limit),
            Instr::Distance(x) => {
                check_block(x.block, 7, x.a, x.b, limit) && x.gt_cell == x.block.unwrap() + 3 && x.lt_cell
                    == x.block.unwrap() + 5
            },
            Instr::Input(x) => x.cell < limit,
            Instr::Output(x) => x.cell < limit,
            Instr::Command(x) => x.cell < limit,
            Instr::If(x) => {
                proof {
                    lemma_if_model(*x);
                }
                x.condition < limit && x.block.check(limit)
            },
            Instr::While(x) => {
                proof {
                    lemma_while_model(*x);
                }
                x.condition < limit && x.block.check(limit)
            },
        }
    }

    /// Emits the instruction's text and moves the head to where the text
    /// leaves it.
    pub fn emit(&self, owner: &mut Generator) -> (text: String)
        requires
            old(owner).wf(),
            instr_valid(self@, old(owner)@.memory.cells.len() as int),
        ensures
            final(owner).wf(),
            text@ == instr_text(self@, old(owner)@),
            final(owner)@ == old(owner)@.at(instr_exit(self@)),
        decreases *self, 0int,
    {
        match self {
            Instr::Goto(x) => {
                let mut t = Goto::new(x.cell);
                t.compile(owner)
            },
            Instr::Clear(x) => {
                let mut t = Clear::new(x.cell);
                t.compile(owner)
            },
            Instr::SetCell(x) => {
                let mut t = SetCell::new(x.cell, x.value);
                t.compile(owner)
            },
            Instr::Add(x) => {
                let mut t = Add::new(x.a, x.b);
                t.compile(owner)
            },
            Instr::Sub(x) => {
                let mut t = Sub::new(x.a, x.b);
                t.compile(owner)
            },
            Instr::Move(x) => {
                let mut t = Move::new(x.a, x.b);
                t.compile(owner)
            },
            Instr::BoolNegate(x) => {
                let mut t = BoolNegate::new(x.a, x.tmp);
                t.compile(owner)
            },
            Instr::Copy(x) => {
                let mut t = crate::instructions::Copy::new(x.a, x.tmp, x.b);
                t.compile(owner)
            },
            Instr::Mul(x) => {
                let mut t = Mul { a: x.a, b: x.b, block: x.block };
                t.compile(owner)
            },
            Instr::Div(x) => {
                let mut t = Div { a: x.a, b: x.b, block: x.block };
                t.compile(owner)
            },
            Instr::Distance(x) => {
                let mut t = Distance { a: x.a, b: x.b, block: x.block, gt_cell: x.gt_cell, lt_cell: x.lt_cell };
                t.compile(owner)
            },
            Instr::Input(x) => {
                let mut t = Input::new(x.cell);
                t.compile(owner)
            },
            Instr::Output(x) => {
                let mut t = Output::new(x.cell);
                t.compile(owner)
            },
            Instr::Command(x) => {
                let mut t = Command::new(x.cell);
                t.compile(owner)
            },
            Instr::If(x) => {
                proof {
                    lemma_if_model(*x);
                }
                x.emit(owner)
            },
            Instr::While(x) => {
                proof {
                    lemma_while_model(*x);
                }
                x.emit(owner)
            },
        }
    }

    /// Replays the instruction on the model: the head moves to the
    /// instruction's exit cell and the pool records its effect.
    pub fn run(&self, owner: &mut Generator)
        requires
            old(owner).wf(),
            instr_valid(self@, old(owner)@.memory.cells.len() as int),
            instr_live(self@, old(owner)@.memory.used),
        ensures
            final(owner).wf(),
            final(owner)@ == old(owner)@.at(instr_exit(self@)).with(instr_pool(self@, old(owner)@.memory)),
            final(owner)@.memory.cells.len() == old(owner)@.memory.cells.len(),
            final(owner)@.memory.used == old(owner)@.memory.used,
        decreases *self, 0int,
    {
        proof {
            if !(self@ is If) && !(self@ is While) {
                crate::coherence::lemma_pool_wf(self@, owner@.memory);
            }
            let used = owner@.memory.used;
            match self@ {
                Step::Mul(x) => {
                    assert(cell_live(used, x.block->0 + 1) && cell_live(used, x.block->0 + 2) && cell_live(
                        used,
                        x.block->0 + 3,
                    ));
                },
                Step::Div(x) => {
                    assert(cell_live(used, x.block->0 + 1) && cell_live(used, x.block->0 + 4) && cell_live(
                        used,
                        x.block->0 + 5,
                    ));
                },
                Step::Distance(x) => {
                    assert(cell_live(used, x.block->0 + 3) && cell_live(used, x.block->0 + 5));
                },
                _ => {},
            }
        }
        match self {
            Instr::Goto(x) => {
                let mut t = Goto::new(x.cell);
                t.simulate(owner)
            },
            Instr::Clear(x) => {
                let mut t = Clear::new(x.cell);
                t.simulate(owner)
            },
            Instr::SetCell(x) => {
                let mut t = SetCell::new(x.cell, x.value);
                t.simulate(owner)
            },
            Instr::Add(x) => {
                let mut t = Add::new(x.a, x.b);
                t.simulate(owner)
            },
            Instr::Sub(x) => {
                let mut t = Sub::new(x.a, x.b);
                t.simulate(owner)
            },
            Instr::Move(x) => {
                let mut t = Move::new(x.a, x.b);
                t.simulate(owner)
            },
            Instr::BoolNegate(x) => {
                let mut t = BoolNegate::new(x.a, x.tmp);
                t.simulate(owner)
            },
            Instr::Copy(x) => {
                let mut t = crate::instructions::Copy::new(x.a, x.tmp, x.b);
                t.simulate(owner)
            },
            Instr::Mul(x) => {
                let mut t = Mul { a: x.a, b: x.b, block: x.block };
                t.simulate(owner)
            },
            Instr::Div(x) => {
                let mut t = Div { a: x.a, b: x.b, block: x.block };
                t.simulate(owner)
            },
            Instr::Distance(x) => {
                let mut t = Distance { a: x.a, b: x.b, block: x.block, gt_cell: x.gt_cell, lt_cell: x.lt_cell };
                t.simulate(owner)
            },
            Instr::Input(x) => {
                let mut t = Input::new(x.cell);
                t.simulate(owner)
            },
            Instr::Output(x) => {
                let mut t = Output::new(x.cell);
                t.simulate(owner)
            },
            Instr::Command(x) => {
                let mut t = Command::new(x.cell);
                t.simulate(owner)
            },
            Instr::If(x) => {
                proof {
                    lemma_if_model(*x);
                }
                x.run(owner)
            },
            Instr::While(x) => {
                proof {
                    lemma_while_model(*x);
                }
                x.run(owner)
            },
        }
    }
}

/// Whether a reserved block of `size` cells lies below `limit` and holds
/// neither operand.
fn check_block(block: Option<usize>, size: usize, a: usize, b: usize, limit: usize) -> (ok: bool)
    ensures
        ok == block_clear(block, size as int, a, b, limit as int),
{
    match block {
        None => false,
        Some(base) => {
            base <= limit && size <= limit - base && a != b && a < limit && b < limit && !(base <= a && a
                - base < size) && !(base <= b && b - base < size)
        },
    }
}

impl BFBlock {
    pub fn new() -> (b: BFBlock)
        ensures
            b.instructions@ == Seq::<Instr>::empty(),
            b@ == Seq::<Step>::empty(),
    {
        let b = BFBlock { instructions: Vec::new() };
        assert(b@ =~= Seq::<Step>::empty());
        b
    }

    /// Appends an instruction; the block owns it from now on and hands it
    /// back for the caller to work on.
    pub fn add(&mut self, instruction: Instr) -> (added: &mut Instr)
        ensures
            *added == instruction,
            final(self).instructions@ == old(self).instructions@.push(*final(added)),
            final(self)@ == old(self)@.push(final(added)@),
    {
        self.instructions.push(instruction);
        let last = self.instructions.len() - 1;
        proof {
            let before = old(self).instructions@;
            assert forall|i: Instr| #[trigger] before.push(instruction).update(last as int, i) == before.push(i) by {
                assert(before.push(instruction).update(last as int, i) =~= before.push(i));
            }
            assert forall|i: Instr| #[trigger] block_model(before.push(i)) == block_model(before).push(i@) by {
                assert(block_model(before.push(i)) =~= block_model(before).push(i@));
            }
        }
        &mut self.instructions[last]
    }

    /// Whether every instruction of the block is valid below `limit`.
    pub fn check(&self, limit: usize) -> (ok: bool)
        ensures
            ok == block_valid(self@, limit as int),
        decreases *self,
    {
        let mut k: usize = 0;
        while k < self.instructions.len()
            invariant
                k <= self.instructions.len(),
                forall|j: int| 0 <= j < k ==> instr_valid(#[trigger] self@[j], limit as int),
            decreases self.instructions.len() - k,
        {
            assert(self@[k as int] == self.instructions@[k as int]@);
            if !self.instructions[k].check(limit) {
                return false;
            }
            k = k + 1;
        }
        true
    }

    /// A block of the same value.
    pub fn duplicate(&self) -> (d: BFBlock)
        ensures
            d@ == self@,
        decreases *self,
    {
        let mut instructions: Vec<Instr> = Vec::new();
        let mut k: usize = 0;
        while k < self.instructions.len()
            invariant
                k <= self.instructions.len(),
                instructions@.len() == k,
                forall|j: int| 0 <= j < k ==> (#[trigger] instructions@[j])@ == self.instructions@[j]@,
            decreases self.instructions.len() - k,
        {
            instructions.push(self.instructions[k].duplicate());
            k = k + 1;
        }
        let d = BFBlock { instructions };
        assert(d@ =~= self@);
        d
    }

    /// Whether every cell that the instructions of the block read or may
    /// mark is allocated.
    pub fn live(&self, pool: &MemoryPool) -> (ok: bool)
        requires
            pool.wf(),
            block_valid(self@, pool@.cells.len() as int),
        ensures
            ok == block_live(self@, pool@.used),
        decreases *self,
    {
        let mut k: usize = 0;
        while k < self.instructions.len()
            invariant
                k <= self.instructions.len(),
                pool.wf(),
                block_valid(self@, pool@.cells.len() as int),
                forall|j: int| 0 <= j < k ==> instr_live(#[trigger] self@[j], pool@.used),
            decreases self.instructions.len() - k,
        {
            assert(self@[k as int] == self.instructions@[k as int]@);
            if !self.instructions[k].live(pool) {
                return false;
            }
            k = k + 1;
        }
        true
    }

    /// Emits the text of all instructions in order.
    pub fn emit(&self, owner: &mut Generator) -> (text: String)
        requires
            old(owner).wf(),
            block_valid(self@, old(owner)@.memory.cells.len() as int),
        ensures
            final(owner).wf(),
            text@ == prefix_text(self@, self@.len() as int, old(owner)@),
            final(owner)@ == old(owner)@.at(
                prefix_exit(self@, self@.len() as int, old(owner)@.cell),
            ),
        decreases *self,
    {
        let mut text = String::new();
        let mut k: usize = 0;
        while k < self.instructions.len()
            invariant
                k <= self.instructions.len(),
                owner.wf(),
                block_valid(self@, old(owner)@.memory.cells.len() as int),
                text@ == prefix_text(self@, k as int, old(owner)@),
                owner@ == old(owner)@.at(prefix_exit(self@, k as int, old(owner)@.cell)),
            decreases self.instructions.len() - k,
        {
            assert(self@[k as int] == self.instructions@[k as int]@);
            let part = self.instructions[k].emit(owner);
            vstd::string::StringExecFns::append(&mut text, part.as_str());
            k = k + 1;
        }
        text
    }

    /// Replays all instructions in order.
    pub fn run(&self, owner: &mut Generator)
        requires
            old(owner).wf(),
            block_valid(self@, old(owner)@.memory.cells.len() as int),
            block_live(self@, old(owner)@.memory.used),
        ensures
            final(owner).wf(),
            final(owner)@ == old(owner)@.at(
                prefix_exit(self@, self@.len() as int, old(owner)@.cell),
            ).with(prefix_pool(self@, self@.len() as int, old(owner)@.memory)),
            final(owner)@.memory.cells.len() == old(owner)@.memory.cells.len(),
            final(owner)@.memory.used == old(owner)@.memory.used,
        decreases *self,
    {
        let mut k: usize = 0;
        while k < self.instructions.len()
            invariant
                k <= self.instructions.len(),
                owner.wf(),
                owner@.memory.cells.len() == old(owner)@.memory.cells.len(),
                owner@.memory.used == old(owner)@.memory.used,
                block_valid(self@, old(owner)@.memory.cells.len() as int),
                block_live(self@, old(owner)@.memory.used),
                owner@ == old(owner)@.at(prefix_exit(self@, k as int, old(owner)@.cell)).with(
                    prefix_pool(self@, k as int, old(owner)@.memory),
                ),
            decreases self.instructions.len() - k,
        {
            assert(self@[k as int] == self.instructions@[k as int]@);
            self.instructions[k].run(owner);
            k = k + 1;
        }
    }
}

impl If {
    pub fn new(condition: usize) -> (r: If)
        ensures
            r.condition == condition,
            r.block.instructions@ == Seq::<Instr>::empty(),
            r.block@ == Seq::<Step>::empty(),
    {
        If { condition, block: BFBlock::new() }
    }

    /// The condition cell and every cell that the body refers to lie below
    /// `limit`, and the body is valid.
    pub open spec fn valid(&self, limit: int) -> bool {
        self.condition < limit && block_valid(self.block@, limit)
    }

    /// The condition cell and every cell that the body reads or may mark
    /// are allocated.
    pub open spec fn live(&self, used: Seq<bool>) -> bool {
        cell_live(used, self.condition as int) && block_live(self.block@, used)
    }

    /// Emits the guarded loop around the body's text.
    pub fn emit(&self, owner: &mut Generator) -> (text: String)
        requires
            old(owner).wf(),
            self.valid(old(owner)@.memory.cells.len() as int),
        ensures
            final(owner).wf(),
            text@ == if_text(self.condition, self.block@, old(owner)@),
            final(owner)@ == old(owner)@.at(self.condition),
        decreases *self,
    {
        let mut builder = BFBuilder::new(owner.indent);
        let mut go = Goto::new(self.condition);
        builder.instruction(owner, &mut go);
        let mut lp = builder.bfloop(true);
        let body = self.block.emit(owner);
        lp.string(body.as_str());
        lp.instruction(owner, &mut go);
        let mut clear = Clear::new(self.condition);
        lp.instruction(owner, &mut clear);
        lp.end();
        builder.string(lp.data.as_str());
        builder.nl();
        assert(builder.data@ =~= if_text(self.condition, self.block@, old(owner)@));
        builder.data
    }

    /// Replays the instruction on the model.
    pub fn run(&self, owner: &mut Generator)
        requires
            old(owner).wf(),
            self.valid(old(owner)@.memory.cells.len() as int),
            self.live(old(owner)@.memory.used),
        ensures
            final(owner).wf(),
            final(owner)@ == old(owner)@.at(self.condition).with(
                if_pool(self.condition, self.block@, old(owner)@.memory),
            ),
            final(owner)@.memory.cells.len() == old(owner)@.memory.cells.len(),
            final(owner)@.memory.used == old(owner)@.memory.used,
        decreases *self,
    {
        owner.cell = self.condition;
        if owner.memory.is_dirty(self.condition) {
            let cells = copy_cells(&owner.memory.cells);
            let runtime = copy_indices(&owner.memory.runtime);
            self.block.run(owner);
            let ghost after = owner@.memory;
            blur(owner, &cells, &runtime);
            assert((PoolModel { cells: cells@, runtime: marks(runtime@, cells@.len()), ..after }) == (PoolModel {
                cells: old(owner)@.memory.cells,
                runtime: old(owner)@.memory.runtime,
                ..after
            }));
            assert(merge(PoolModel { cells: cells@, runtime: marks(runtime@, cells@.len()), ..after }, after) == merge(
                old(owner)@.memory,
                after,
            ));
        } else if owner.memory.get(self.condition) != 0 {
            self.block.run(owner);
        }
        owner.memory.set(self.condition, 0);
        owner.cell = self.condition;
    }
}

impl Instruction for If {
    open spec fn can_compile(&self, owner: GeneratorModel) -> bool {
        self.valid(owner.memory.cells.len() as int)
    }

    open spec fn can_simulate(&self, owner: GeneratorModel) -> bool {
        self.valid(owner.memory.cells.len() as int) && self.live(owner.memory.used)
    }

    open spec fn emitted(&self, owner: GeneratorModel) -> Seq<char> {
        if_text(self.condition, self.block@, owner)
    }

    open spec fn compiled(&self, owner: GeneratorModel) -> GeneratorModel {
        owner.at(self.condition)
    }

    open spec fn simulated(&self, owner: GeneratorModel) -> GeneratorModel {
        owner.at(self.condition).with(if_pool(self.condition, self.block@, owner.memory))
    }

    open spec fn settled(&self, owner: GeneratorModel) -> If {
        *self
    }

    fn simulate(&mut self, owner: &mut Generator) {
        self.run(owner)
    }

    fn compile(&mut self, owner: &mut Generator) -> (text: String) {
        self.emit(owner)
    }
}

impl While {
    pub fn new(condition: usize) -> (r: While)
        ensures
            r.condition == condition,
            r.block.instructions@ == Seq::<Instr>::empty(),
            r.block@ == Seq::<Step>::empty(),
    {
        While { condition, block: BFBlock::new() }
    }

    /// The condition cell and every cell that the body refers to lie below
    /// `limit`, and the body is valid.
    pub open spec fn valid(&self, limit: int) -> bool {
        self.condition < limit && block_valid(self.block@, limit)
    }

    /// The condition cell and every cell that the body reads or may mark
    /// are allocated.
    pub open spec fn live(&self, used: Seq<bool>) -> bool {
        cell_live(used, self.condition as int) && block_live(self.block@, used)
    }

    /// Emits the guarded loop around the body's text.
    pub fn emit(&self, owner: &mut Generator) -> (text: String)
        requires
            old(owner).wf(),
            self.valid(old(owner)@.memory.cells.len() as int),
        ensures
            final(owner).wf(),
            text@ == while_text(self.condition, self.block@, old(owner)@),
            final(owner)@ == old(owner)@.at(self.condition),
        decreases *self,
    {
        let mut builder = BFBuilder::new(owner.indent);
        let mut go = Goto::new(self.condition);
        builder.instruction(owner, &mut go);
        let mut lp = builder.bfloop(true);
        let body = self.block.emit(owner);
        lp.string(body.as_str());
        lp.instruction(owner, &mut go);
        lp.end();
        builder.string(lp.data.as_str());
        builder.nl();
        assert(builder.data@ =~= while_text(self.condition, self.block@, old(owner)@));
        builder.data
    }

    /// Replays the instruction on the model.
    pub fn run(&self, owner: &mut Generator)
        requires
            old(owner).wf(),
            self.valid(old(owner)@.memory.cells.len() as int),
            self.live(old(owner)@.memory.used),
        ensures
            final(owner).wf(),
            final(owner)@ == old(owner)@.at(self.condition).with(
                while_pool(self.condition, self.block@, old(owner)@.memory),
            ),
            final(owner)@.memory.cells.len() == old(owner)@.memory.cells.len(),
            final(owner)@.memory.used == old(owner)@.memory.used,
        decreases *self,
    {
        owner.cell = self.condition;
        if owner.memory.is_dirty(self.condition) || owner.memory.get(self.condition) != 0 {
            let cells = copy_cells(&owner.memory.cells);
            let runtime = copy_indices(&owner.memory.runtime);
            self.block.run(owner);
            let ghost after = owner@.memory;
            blur(owner, &cells, &runtime);
            assert((PoolModel { cells: cells@, runtime: marks(runtime@, cells@.len()), ..after }) == (PoolModel {
                cells: old(owner)@.memory.cells,
                runtime: old(owner)@.memory.runtime,
                ..after
            }));
            assert(merge(PoolModel { cells: cells@, runtime: marks(runtime@, cells@.len()), ..after }, after) == merge(
                old(owner)@.memory,
                after,
            ));
        }
        owner.memory.set(self.condition, 0);
        owner.cell = self.condition;
    }
}

impl Instruction for While {
    open spec fn can_compile(&self, owner: GeneratorModel) -> bool {
        self.valid(owner.memory.cells.len() as int)
    }

    open spec fn can_simulate(&self, owner: GeneratorModel) -> bool {
        self.valid(owner.memory.cells.len() as int) && self.live(owner.memory.used)
    }

    open spec fn emitted(&self, owner: GeneratorModel) -> Seq<char> {
        while_text(self.condition, self.block@, owner)
    }

    open spec fn compiled(&self, owner: GeneratorModel) -> GeneratorModel {
        owner.at(self.condition)
    }

    open spec fn simulated(&self, owner: GeneratorModel) -> GeneratorModel {
        owner.at(self.condition).with(while_pool(self.condition, self.block@, owner.memory))
    }

    open spec fn settled(&self, owner: GeneratorModel) -> While {
        *self
    }

    fn simulate(&mut self, owner: &mut Generator) {
        self.run(owner)
    }

    fn compile(&mut self, owner: &mut Generator) -> (text: String) {
        self.emit(owner)
    }
}

} // verus!
