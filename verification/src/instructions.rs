//! The instruction set: symbolic operations over cell indices, each able to
//! emit its tape program and to replay its effect on the compile-time model.

use crate::builder::{repeat, repeated, tabs, travel, BFBuilder};
use crate::memory::{cell_add, cell_mul, cell_sub, wrap, CellSize, Generator, GeneratorModel, PoolModel};
use vstd::prelude::*;

verus! {

/// An operation that can be lowered to tape text and replayed on the model.
///
/// `compile` appends nothing to the model's knowledge of cell values; it
/// returns the text and leaves the generator's head where the text leaves
/// the real head. `simulate` records what the text does to the cells.
pub trait Instruction: Sized {
    /// The instruction can be lowered in this generator state.
    spec fn can_compile(&self, owner: GeneratorModel) -> bool;

    /// The instruction can be replayed in this generator state.
    spec fn can_simulate(&self, owner: GeneratorModel) -> bool;

    /// The text that `compile` returns.
    spec fn emitted(&self, owner: GeneratorModel) -> Seq<char>;

    /// The generator after `compile`.
    spec fn compiled(&self, owner: GeneratorModel) -> GeneratorModel;

    /// The generator after `simulate`.
    spec fn simulated(&self, owner: GeneratorModel) -> GeneratorModel;

    /// The instruction itself after either operation.
    spec fn settled(&self, owner: GeneratorModel) -> Self;

    fn simulate(&mut self, owner: &mut Generator)
        requires
            old(owner).wf(),
            old(self).can_simulate(old(owner)@),
        ensures
            final(owner).wf(),
            final(owner)@ == old(self).simulated(old(owner)@),
            *final(self) == old(self).settled(old(owner)@),
    ;

    fn compile(&mut self, owner: &mut Generator) -> (text: String)
        requires
            old(owner).wf(),
            old(self).can_compile(old(owner)@),
        ensures
            final(owner).wf(),
            text@ == old(self).emitted(old(owner)@),
            final(owner)@ == old(self).compiled(old(owner)@),
            *final(self) == old(self).settled(old(owner)@),
    ;
}

/// Moves the head to a cell.
#[derive(Debug)]
pub struct Goto {
    pub cell: usize,
}

impl Goto {
    pub fn new(cell: usize) -> (g: Goto)
        ensures
            g.cell == cell,
    {
        Goto { cell }
    }
}

impl Instruction for Goto {
    open spec fn can_compile(&self, owner: GeneratorModel) -> bool {
        true
    }

    open spec fn can_simulate(&self, owner: GeneratorModel) -> bool {
        true
    }

    open spec fn emitted(&self, owner: GeneratorModel) -> Seq<char> {
        travel(owner.cell, self.cell)
    }

    open spec fn compiled(&self, owner: GeneratorModel) -> GeneratorModel {
        owner.at(self.cell)
    }

    open spec fn simulated(&self, owner: GeneratorModel) -> GeneratorModel {
        owner.at(self.cell)
    }

    open spec fn settled(&self, owner: GeneratorModel) -> Goto {
        *self
    }

    fn simulate(&mut self, owner: &mut Generator) {
        owner.cell = self.cell;
    }

    fn compile(&mut self, owner: &mut Generator) -> (text: String) {
        let text = if self.cell >= owner.cell {
            repeated('>', self.cell - owner.cell)
        } else {
            repeated('<', owner.cell - self.cell)
        };
        owner.cell = self.cell;
        text
    }
}

/// Text of `Clear(cell)` emitted with the head on `from`.
pub open spec fn clear_text(cell: usize, from: usize, indent: usize) -> Seq<char> {
    tabs(indent) + travel(from, cell) + tabs(indent) + "["@ + "-"@ + "]"@ + "\n"@
}

/// Sets a cell to zero.
pub struct Clear {
    pub cell: usize,
}

impl Clear {
    pub fn new(cell: usize) -> (c: Clear)
        ensures
            c.cell == cell,
    {
        Clear { cell }
    }
}

impl Instruction for Clear {
    open spec fn can_compile(&self, owner: GeneratorModel) -> bool {
        true
    }

    open spec fn can_simulate(&self, owner: GeneratorModel) -> bool {
        self.cell < usize::MAX
    }

    open spec fn emitted(&self, owner: GeneratorModel) -> Seq<char> {
        clear_text(self.cell, owner.cell, owner.indent)
    }

    open spec fn compiled(&self, owner: GeneratorModel) -> GeneratorModel {
        owner.at(self.cell)
    }

    open spec fn simulated(&self, owner: GeneratorModel) -> GeneratorModel {
        owner.at(self.cell).with(owner.memory.store(self.cell as int, 0))
    }

    open spec fn settled(&self, owner: GeneratorModel) -> Clear {
        *self
    }

    fn simulate(&mut self, owner: &mut Generator) {
        owner.cell = self.cell;
        owner.memory.set(self.cell, 0);
    }

    fn compile(&mut self, owner: &mut Generator) -> (text: String) {
        let mut builder = BFBuilder::new(owner.indent);
        let mut go = Goto::new(self.cell);
        builder.instruction(owner, &mut go);
        let mut lp = builder.bfloop(false);
        lp.string("-");
        lp.end();
        builder.string(lp.data.as_str());
        builder.nl();
        builder.data
    }
}


/// Text of `SetCell(cell, value)` emitted with the head on `from`.
pub open spec fn set_text(cell: usize, value: CellSize, from: usize, indent: usize) -> Seq<char> {
    tabs(indent) + travel(from, cell) + tabs(indent) + clear_text(cell, cell, indent) + repeat(
        '+',
        value as nat,
    )
}

/// Text of the loop that drains the cell under the head, `b`, into `a`,
/// applying `op` to `a` once per unit.
pub open spec fn drain_text(a: usize, b: usize, op: Seq<char>, indent: usize) -> Seq<char> {
    tabs(indent) + "["@ + "-"@ + travel(b, a) + op + travel(a, b) + "]"@ + "\n"@
}

/// Text of `Move(a, b)` emitted with the head on `from`.
pub open spec fn move_text(a: usize, b: usize, from: usize, indent: usize) -> Seq<char> {
    tabs(indent) + clear_text(a, from, indent) + tabs(indent) + travel(a, b) + drain_text(a, b, "+"@, indent)
}

/// Writes a constant into a cell.
#[derive(Debug)]
pub struct SetCell {
    pub cell: usize,
    pub value: CellSize,
}

impl SetCell {
    pub fn new(cell: usize, value: CellSize) -> (s: SetCell)
        ensures
            s.cell == cell,
            s.value == value,
    {
        SetCell { cell, value }
    }
}

impl Instruction for SetCell {
    open spec fn can_compile(&self, owner: GeneratorModel) -> bool {
        true
    }

    open spec fn can_simulate(&self, owner: GeneratorModel) -> bool {
        self.cell < usize::MAX
    }

    open spec fn emitted(&self, owner: GeneratorModel) -> Seq<char> {
        set_text(self.cell, self.value, owner.cell, owner.indent)
    }

    open spec fn compiled(&self, owner: GeneratorModel) -> GeneratorModel {
        owner.at(self.cell)
    }

    open spec fn simulated(&self, owner: GeneratorModel) -> GeneratorModel {
        owner.at(self.cell).with(owner.memory.store(self.cell as int, self.value))
    }

    open spec fn settled(&self, owner: GeneratorModel) -> SetCell {
        *self
    }

    fn simulate(&mut self, owner: &mut Generator) {
        owner.cell = self.cell;
        owner.memory.set(self.cell, self.value);
    }

    fn compile(&mut self, owner: &mut Generator) -> (text: String) {
        let mut builder = BFBuilder::new(owner.indent);
        let mut go = Goto::new(self.cell);
        builder.instruction(owner, &mut go);
        let mut clear = Clear::new(self.cell);
        builder.instruction(owner, &mut clear);
        let plus = repeated('+', self.value as usize);
        builder.string(plus.as_str());
        builder.data
    }
}

/// What `Add` and `Sub` record: the drained cell `b` is zero afterwards,
/// `a` holds `result` if both operands were known and is unknown otherwise.
pub open spec fn fold_pool(m: PoolModel, a: usize, b: usize, result: CellSize) -> PoolModel {
    if m.is_dirty(a as int) || m.is_dirty(b as int) {
        m.taint(a as int).store(b as int, 0)
    } else {
        m.store(a as int, result).store(b as int, 0)
    }
}

/// Adds cell `b` into cell `a`, draining `b`.
#[derive(Debug)]
pub struct Add {
    pub a: usize,
    pub b: usize,
}

impl Add {
    pub fn new(a: usize, b: usize) -> (r: Add)
        ensures
            r.a == a,
            r.b == b,
    {
        Add { a, b }
    }
}

impl Instruction for Add {
    open spec fn can_compile(&self, owner: GeneratorModel) -> bool {
        self.a != self.b
    }

    open spec fn can_simulate(&self, owner: GeneratorModel) -> bool {
        &&& self.a != self.b
        &&& owner.memory.is_used(self.a as int)
        &&& owner.memory.is_used(self.b as int)
    }

    open spec fn emitted(&self, owner: GeneratorModel) -> Seq<char> {
        tabs(owner.indent) + travel(owner.cell, self.b) + drain_text(self.a, self.b, "+"@, owner.indent)
    }

    open spec fn compiled(&self, owner: GeneratorModel) -> GeneratorModel {
        owner.at(self.b)
    }

    open spec fn simulated(&self, owner: GeneratorModel) -> GeneratorModel {
        let m = owner.memory;
        owner.at(self.b).with(
            fold_pool(m, self.a, self.b, wrap(m.cells[self.a as int] + m.cells[self.b as int])),
        )
    }

    open spec fn settled(&self, owner: GeneratorModel) -> Add {
        *self
    }

    fn simulate(&mut self, owner: &mut Generator) {
        owner.cell = self.b;
        if owner.memory.is_dirty(self.a) || owner.memory.is_dirty(self.b) {
            owner.memory.dirty(self.a);
            owner.memory.set(self.b, 0);
            return ;
        }
        let left = owner.memory.get(self.a);
        let right = owner.memory.get(self.b);
        owner.memory.set(self.a, cell_add(left, right));
        owner.memory.set(self.b, 0);
    }

    fn compile(&mut self, owner: &mut Generator) -> (text: String) {
        let mut builder = BFBuilder::new(owner.indent);
        let mut to_b = Goto::new(self.b);
        builder.instruction(owner, &mut to_b);
        let mut lp = builder.bfloop(false);
        lp.string("-");
        let mut to_a = Goto::new(self.a);
        lp.instruction(owner, &mut to_a);
        lp.string("+");
        let mut back = Goto::new(self.b);
        lp.instruction(owner, &mut back);
        lp.end();
        builder.string(lp.data.as_str());
        builder.nl();
        assert(tabs(0) =~= Seq::<char>::empty());
        builder.data
    }
}

/// Subtracts cell `b` from cell `a`, draining `b`.
#[derive(Debug)]
pub struct Sub {
    pub a: usize,
    pub b: usize,
}

impl Sub {
    pub fn new(a: usize, b: usize) -> (r: Sub)
        ensures
            r.a == a,
            r.b == b,
    {
        Sub { a, b }
    }
}

impl Instruction for Sub {
    open spec fn can_compile(&self, owner: GeneratorModel) -> bool {
        self.a != self.b
    }

    open spec fn can_simulate(&self, owner: GeneratorModel) -> bool {
        &&& self.a != self.b
        &&& owner.memory.is_used(self.a as int)
        &&& owner.memory.is_used(self.b as int)
    }

    open spec fn emitted(&self, owner: GeneratorModel) -> Seq<char> {
        tabs(owner.indent) + travel(owner.cell, self.b) + drain_text(self.a, self.b, "-"@, owner.indent)
    }

    open spec fn compiled(&self, owner: GeneratorModel) -> GeneratorModel {
        owner.at(self.b)
    }

    open spec fn simulated(&self, owner: GeneratorModel) -> GeneratorModel {
        let m = owner.memory;
        owner.at(self.b).with(
            fold_pool(m, self.a, self.b, wrap(m.cells[self.a as int] - m.cells[self.b as int])),
        )
    }

    open spec fn settled(&self, owner: GeneratorModel) -> Sub {
        *self
    }

    fn simulate(&mut self, owner: &mut Generator) {
        owner.cell = self.b;
        if owner.memory.is_dirty(self.a) || owner.memory.is_dirty(self.b) {
            owner.memory.dirty(self.a);
            owner.memory.set(self.b, 0);
            return ;
        }
        let left = owner.memory.get(self.a);
        let right = owner.memory.get(self.b);
        owner.memory.set(self.a, cell_sub(left, right));
        owner.memory.set(self.b, 0);
    }

    fn compile(&mut self, owner: &mut Generator) -> (text: String) {
        let mut builder = BFBuilder::new(owner.indent);
        let mut to_b = Goto::new(self.b);
        builder.instruction(owner, &mut to_b);
        let mut lp = builder.bfloop(false);
        lp.string("-");
        let mut to_a = Goto::new(self.a);
        lp.instruction(owner, &mut to_a);
        lp.string("-");
        let mut back = Goto::new(self.b);
        lp.instruction(owner, &mut back);
        lp.end();
        builder.string(lp.data.as_str());
        builder.nl();
        assert(tabs(0) =~= Seq::<char>::empty());
        builder.data
    }
}

/// What `Move(a, b)` records.
pub open spec fn move_pool(m: PoolModel, a: usize, b: usize) -> PoolModel {
    if m.is_dirty(b as int) {
        m.cloud(a as int).store(b as int, 0)
    } else {
        m.store(a as int, m.cells[b as int]).store(b as int, 0)
    }
}

/// Replaces the content of cell `a` with that of cell `b`, draining `b`.
pub struct Move {
    pub a: usize,
    pub b: usize,
}

impl Move {
    pub fn new(a: usize, b: usize) -> (r: Move)
        ensures
            r.a == a,
            r.b == b,
    {
        Move { a, b }
    }
}

impl Instruction for Move {
    open spec fn can_compile(&self, owner: GeneratorModel) -> bool {
        self.a != self.b
    }

    open spec fn can_simulate(&self, owner: GeneratorModel) -> bool {
        &&& self.a != self.b
        &&& self.a < usize::MAX
        &&& owner.memory.open_to(self.a as int)
        &&& owner.memory.is_used(self.b as int)
    }

    open spec fn emitted(&self, owner: GeneratorModel) -> Seq<char> {
        move_text(self.a, self.b, owner.cell, owner.indent)
    }

    open spec fn compiled(&self, owner: GeneratorModel) -> GeneratorModel {
        owner.at(self.b)
    }

    open spec fn simulated(&self, owner: GeneratorModel) -> GeneratorModel {
        owner.at(self.b).with(move_pool(owner.memory, self.a, self.b))
    }

    open spec fn settled(&self, owner: GeneratorModel) -> Move {
        *self
    }

    fn simulate(&mut self, owner: &mut Generator) {
        owner.cell = self.b;
        if owner.memory.is_dirty(self.b) {
            owner.memory.cloud(self.a);
            proof {
                owner.memory@.lemma_reach_wf(self.a as int);
            }
            owner.memory.set(self.b, 0);
            return ;
        }
        let value = owner.memory.get(self.b);
        owner.memory.set(self.a, value);
        owner.memory.set(self.b, 0);
    }

    fn compile(&mut self, owner: &mut Generator) -> (text: String) {
        let mut builder = BFBuilder::new(owner.indent);
        let mut clear = Clear::new(self.a);
        builder.instruction(owner, &mut clear);
        let mut to_b = Goto::new(self.b);
        builder.instruction(owner, &mut to_b);
        let mut lp = builder.bfloop(false);
        lp.string("-");
        let mut to_a = Goto::new(self.a);
        lp.instruction(owner, &mut to_a);
        lp.string("+");
        let mut back = Goto::new(self.b);
        lp.instruction(owner, &mut back);
        lp.end();
        builder.string(lp.data.as_str());
        builder.nl();
        assert(tabs(0) =~= Seq::<char>::empty());
        builder.data
    }
}

/// What `BoolNegate(a, tmp)` records.
pub open spec fn negate_pool(m: PoolModel, a: usize, tmp: usize) -> PoolModel {
    if m.is_dirty(a as int) {
        m.cloud(tmp as int)
    } else {
        m.store(a as int, if m.cells[a as int] == 0 { 1u8 } else { 0u8 }).store(tmp as int, 0)
    }
}

/// Text of `BoolNegate(a, tmp)` emitted with the head on `from`.
pub open spec fn negate_text(a: usize, tmp: usize, from: usize, indent: usize) -> Seq<char> {
    tabs(indent) + travel(from, tmp) + "[-]+\n"@ + tabs(indent) + travel(tmp, a) + tabs(indent) + "["@
        + "[-]"@ + travel(a, tmp) + "-"@ + travel(tmp, a) + "]"@ + tabs(indent) + travel(a, tmp) + tabs(
        indent,
    ) + "["@ + "-"@ + travel(tmp, a) + "+"@ + travel(a, tmp) + "]"@ + tabs(indent) + travel(tmp, a)
        + "\n"@
}

/// Replaces cell `a` by 1 if it holds zero and by 0 otherwise, using `tmp`
/// as scratch.
pub struct BoolNegate {
    pub a: usize,
    pub tmp: usize,
}

impl BoolNegate {
    pub fn new(a: usize, tmp: usize) -> (r: BoolNegate)
        ensures
            r.a == a,
            r.tmp == tmp,
    {
        BoolNegate { a, tmp }
    }

    /// Releases the scratch cell.
    pub fn clean(&self, owner: &mut Generator)
        requires
            old(owner).wf(),
        ensures
            final(owner).wf(),
            final(owner)@ == old(owner)@.with(old(owner)@.memory.release(self.tmp as int)),
    {
        owner.memory.free(self.tmp);
    }
}

impl Instruction for BoolNegate {
    open spec fn can_compile(&self, owner: GeneratorModel) -> bool {
        self.a != self.tmp
    }

    open spec fn can_simulate(&self, owner: GeneratorModel) -> bool {
        &&& self.a != self.tmp
        &&& owner.memory.is_used(self.a as int)
        &&& self.tmp < usize::MAX
        &&& owner.memory.open_to(self.tmp as int)
    }

    open spec fn emitted(&self, owner: GeneratorModel) -> Seq<char> {
        negate_text(self.a, self.tmp, owner.cell, owner.indent)
    }

    open spec fn compiled(&self, owner: GeneratorModel) -> GeneratorModel {
        owner.at(self.a)
    }

    open spec fn simulated(&self, owner: GeneratorModel) -> GeneratorModel {
        owner.at(self.a).with(negate_pool(owner.memory, self.a, self.tmp))
    }

    open spec fn settled(&self, owner: GeneratorModel) -> BoolNegate {
        *self
    }

    fn simulate(&mut self, owner: &mut Generator) {
        owner.cell = self.a;
        if owner.memory.is_dirty(self.a) {
            owner.memory.cloud(self.tmp);
            return ;
        }
        let value = owner.memory.get(self.a);
        owner.memory.set(self.a, if value == 0 { 1 } else { 0 });
        owner.memory.set(self.tmp, 0);
    }

    fn compile(&mut self, owner: &mut Generator) -> (text: String) {
        let mut builder = BFBuilder::new(owner.indent);
        let mut to_tmp = Goto::new(self.tmp);
        let mut to_a = Goto::new(self.a);
        builder.instruction(owner, &mut to_tmp);
        builder.string("[-]+\n");
        builder.instruction(owner, &mut to_a);
        let mut lp = builder.bfloop(false);
        lp.string("[-]");
        lp.instruction(owner, &mut to_tmp);
        lp.string("-");
        lp.instruction(owner, &mut to_a);
        lp.end();
        builder.string(lp.data.as_str());
        builder.instruction(owner, &mut to_tmp);
        let mut lp2 = builder.bfloop(false);
        lp2.string("-");
        lp2.instruction(owner, &mut to_a);
        lp2.string("+");
        lp2.instruction(owner, &mut to_tmp);
        lp2.end();
        builder.string(lp2.data.as_str());
        builder.instruction(owner, &mut to_a);
        builder.nl();
        assert(tabs(0) =~= Seq::<char>::empty());
        assert(builder.data@ =~= negate_text(self.a, self.tmp, old(owner).cell, old(owner).indent));
        builder.data
    }
}

/// What `Copy(a, tmp, b)` records.
pub open spec fn copy_pool(m: PoolModel, a: usize, tmp: usize, b: usize) -> PoolModel {
    let cleared = m.store(tmp as int, 0);
    if m.is_dirty(b as int) {
        cleared.cloud(a as int)
    } else {
        cleared.store(a as int, m.cells[b as int])
    }
}

/// Text of `Copy(a, tmp, b)` emitted with the head on `from`.
pub open spec fn copy_text(a: usize, tmp: usize, b: usize, from: usize, indent: usize) -> Seq<char> {
    tabs(indent) + clear_text(a, from, indent) + tabs(indent) + move_text(tmp, b, a, indent) + tabs(
        indent,
    ) + travel(b, tmp) + refill_text(a, tmp, b, indent) + tabs(indent) + travel(tmp, a) + "\n"@
}

/// Text of the loop that drains `tmp`, the cell under the head, into both
/// `a` and `b`.
pub open spec fn refill_text(a: usize, tmp: usize, b: usize, indent: usize) -> Seq<char> {
    tabs(indent) + "["@ + "-"@ + travel(tmp, a) + "+"@ + travel(a, b) + "+"@ + travel(b, tmp) + "]"@
}

/// Copies cell `b` into cell `a` through the scratch cell `tmp`; `b` keeps
/// its content and `tmp` ends at zero.
pub struct Copy {
    pub a: usize,
    pub tmp: usize,
    pub b: usize,
}

impl Copy {
    pub fn new(a: usize, tmp: usize, b: usize) -> (r: Copy)
        ensures
            r.a == a,
            r.tmp == tmp,
            r.b == b,
    {
        Copy { a, tmp, b }
    }

    /// Releases the scratch cell.
    pub fn clean(&self, owner: &mut Generator)
        requires
            old(owner).wf(),
        ensures
            final(owner).wf(),
            final(owner)@ == old(owner)@.with(old(owner)@.memory.release(self.tmp as int)),
    {
        owner.memory.free(self.tmp);
    }
}

impl Instruction for Copy {
    open spec fn can_compile(&self, owner: GeneratorModel) -> bool {
        &&& self.a != self.b
        &&& self.a != self.tmp
        &&& self.b != self.tmp
    }

    open spec fn can_simulate(&self, owner: GeneratorModel) -> bool {
        &&& self.a != self.b
        &&& self.a != self.tmp
        &&& self.b != self.tmp
        &&& self.a < usize::MAX
        &&& self.tmp < usize::MAX
        &&& owner.memory.open_to(self.a as int)
        &&& owner.memory.is_used(self.b as int)
    }

    open spec fn emitted(&self, owner: GeneratorModel) -> Seq<char> {
        copy_text(self.a, self.tmp, self.b, owner.cell, owner.indent)
    }

    open spec fn compiled(&self, owner: GeneratorModel) -> GeneratorModel {
        owner.at(self.a)
    }

    open spec fn simulated(&self, owner: GeneratorModel) -> GeneratorModel {
        owner.at(self.a).with(copy_pool(owner.memory, self.a, self.tmp, self.b))
    }

    open spec fn settled(&self, owner: GeneratorModel) -> Copy {
        *self
    }

    fn simulate(&mut self, owner: &mut Generator) {
        owner.cell = self.a;
        let unknown = owner.memory.is_dirty(self.b);
        let value = if unknown { 0 } else { owner.memory.get(self.b) };
        owner.memory.set(self.tmp, 0);
        if unknown {
            owner.memory.cloud(self.a);
            return ;
        }
        owner.memory.set(self.a, value);
    }

    fn compile(&mut self, owner: &mut Generator) -> (text: String) {
        let mut builder = BFBuilder::new(owner.indent);
        let mut clear = Clear::new(self.a);
        builder.instruction(owner, &mut clear);
        let mut mv = Move::new(self.tmp, self.b);
        builder.instruction(owner, &mut mv);
        let mut to_tmp = Goto::new(self.tmp);
        let mut to_a = Goto::new(self.a);
        let mut to_b = Goto::new(self.b);
        builder.instruction(owner, &mut to_tmp);
        let mut lp = builder.bfloop(false);
        lp.string("-");
        lp.instruction(owner, &mut to_a);
        lp.string("+");
        lp.instruction(owner, &mut to_b);
        lp.string("+");
        lp.instruction(owner, &mut to_tmp);
        lp.end();
        assert(lp.data@ =~= refill_text(self.a, self.tmp, self.b, old(owner).indent)) by {
            assert(tabs(0) =~= Seq::<char>::empty());
        }
        builder.string(lp.data.as_str());
        builder.instruction(owner, &mut to_a);
        builder.nl();
        assert(builder.data@ =~= copy_text(self.a, self.tmp, self.b, old(owner).cell, old(owner).indent));
        builder.data
    }
}

/// Reads one input value into a cell.
pub struct Input {
    pub cell: usize,
}

impl Input {
    pub fn new(cell: usize) -> (r: Input)
        ensures
            r.cell == cell,
    {
        Input { cell }
    }
}

impl Instruction for Input {
    open spec fn can_compile(&self, owner: GeneratorModel) -> bool {
        true
    }

    open spec fn can_simulate(&self, owner: GeneratorModel) -> bool {
        self.cell < usize::MAX && owner.memory.open_to(self.cell as int)
    }

    open spec fn emitted(&self, owner: GeneratorModel) -> Seq<char> {
        tabs(owner.indent) + travel(owner.cell, self.cell) + ","@ + "\n"@
    }

    open spec fn compiled(&self, owner: GeneratorModel) -> GeneratorModel {
        owner.at(self.cell)
    }

    open spec fn simulated(&self, owner: GeneratorModel) -> GeneratorModel {
        owner.at(self.cell).with(owner.memory.cloud(self.cell as int))
    }

    open spec fn settled(&self, owner: GeneratorModel) -> Input {
        *self
    }

    fn simulate(&mut self, owner: &mut Generator) {
        owner.cell = self.cell;
        owner.memory.cloud(self.cell);
    }

    fn compile(&mut self, owner: &mut Generator) -> (text: String) {
        let mut builder = BFBuilder::new(owner.indent);
        let mut go = Goto::new(self.cell);
        builder.instruction(owner, &mut go);
        builder.string(",");
        builder.nl();
        builder.data
    }
}

/// Writes the content of a cell to the output.
pub struct Output {
    pub cell: usize,
}

impl Output {
    pub fn new(cell: usize) -> (r: Output)
        ensures
            r.cell == cell,
    {
        Output { cell }
    }
}

impl Instruction for Output {
    open spec fn can_compile(&self, owner: GeneratorModel) -> bool {
        true
    }

    open spec fn can_simulate(&self, owner: GeneratorModel) -> bool {
        true
    }

    open spec fn emitted(&self, owner: GeneratorModel) -> Seq<char> {
        tabs(owner.indent) + travel(owner.cell, self.cell) + "."@ + "\n"@
    }

    open spec fn compiled(&self, owner: GeneratorModel) -> GeneratorModel {
        owner.at(self.cell)
    }

    open spec fn simulated(&self, owner: GeneratorModel) -> GeneratorModel {
        owner.at(self.cell)
    }

    open spec fn settled(&self, owner: GeneratorModel) -> Output {
        *self
    }

    fn simulate(&mut self, owner: &mut Generator) {
        owner.cell = self.cell;
    }

    fn compile(&mut self, owner: &mut Generator) -> (text: String) {
        let mut builder = BFBuilder::new(owner.indent);
        let mut go = Goto::new(self.cell);
        builder.instruction(owner, &mut go);
        builder.string(".");
        builder.nl();
        builder.data
    }
}

/// Hands a packed request to the host: the cell under the head selects the
/// operation, the cells after it carry the arguments, and the host writes
/// its answer over the selector.
pub struct Command {
    pub cell: usize,
}

impl Command {
    pub fn new(cell: usize) -> (r: Command)
        ensures
            r.cell == cell,
    {
        Command { cell }
    }
}

impl Instruction for Command {
    open spec fn can_compile(&self, owner: GeneratorModel) -> bool {
        true
    }

    open spec fn can_simulate(&self, owner: GeneratorModel) -> bool {
        self.cell < usize::MAX && owner.memory.open_to(self.cell as int)
    }

    open spec fn emitted(&self, owner: GeneratorModel) -> Seq<char> {
        tabs(owner.indent) + travel(owner.cell, self.cell) + "@"@ + "\n"@
    }

    open spec fn compiled(&self, owner: GeneratorModel) -> GeneratorModel {
        owner.at(self.cell)
    }

    open spec fn simulated(&self, owner: GeneratorModel) -> GeneratorModel {
        owner.at(self.cell).with(owner.memory.cloud(self.cell as int))
    }

    open spec fn settled(&self, owner: GeneratorModel) -> Command {
        *self
    }

    fn simulate(&mut self, owner: &mut Generator) {
        owner.cell = self.cell;
        owner.memory.cloud(self.cell);
    }

    fn compile(&mut self, owner: &mut Generator) -> (text: String) {
        let mut builder = BFBuilder::new(owner.indent);
        let mut go = Goto::new(self.cell);
        builder.instruction(owner, &mut go);
        builder.string("@");
        builder.nl();
        builder.data
    }
}


/// Text of `Mul` over the block at `base`, emitted with the head on `from`.
pub open spec fn mul_text(a: usize, b: usize, base: usize, from: usize, indent: usize) -> Seq<char> {
    tabs(indent) + move_text(base, a, from, indent) + tabs(indent) + move_text(
        (base + 1) as usize,
        b,
        a,
        indent,
    ) + tabs(indent) + travel(b, base) + "[>[->+>+<<]>[-<+>]<<-]"@ + "\n"@
}

/// What `Mul` over the block at `base` records.
///
/// The product is known only if both factors are known and the two upper
/// cells of the block are known to be zero; the factors end at zero.
pub open spec fn mul_pool(m: PoolModel, a: usize, b: usize, base: usize) -> PoolModel {
    let fresh = m.blank(base + 2) && m.blank(base + 3);
    let ka = !m.is_dirty(a as int);
    let kb = !m.is_dirty(b as int);
    let m1 = m.store(base as int, 0);
    let m2 = if kb && fresh {
        m1.store(base + 1, m.cells[b as int])
    } else {
        m1.cloud(base + 1)
    };
    let m3 = if fresh {
        m2.store(base + 2, 0)
    } else {
        m2.cloud(base + 2)
    };
    let m4 = if ka && kb && fresh {
        m3.store(base + 3, wrap(m.cells[a as int] * m.cells[b as int]))
    } else {
        m3.cloud(base + 3)
    };
    m4.store(a as int, 0).store(b as int, 0)
}

/// Multiplies cell `a` by cell `b` inside a block of four cells; the
/// product appears in the last cell of the block.
#[derive(Debug)]
pub struct Mul {
    pub a: usize,
    pub b: usize,
    pub block: Option<usize>,
}

impl Mul {
    pub fn new(a: usize, b: usize) -> (r: Mul)
        ensures
            r.a == a,
            r.b == b,
            r.block is None,
    {
        Mul { a, b, block: None }
    }

    /// First cell of the block, reserved or about to be.
    pub open spec fn base(&self, owner: GeneratorModel) -> usize {
        match self.block {
            Some(b) => b,
            None => owner.memory.cells.len() as usize,
        }
    }

    /// The pool once the block is reserved.
    pub open spec fn reserved(&self, owner: GeneratorModel) -> PoolModel {
        match self.block {
            Some(_) => owner.memory,
            None => owner.memory.allocate(4),
        }
    }

    /// The block lies on the tape.
    pub open spec fn placed(&self, owner: GeneratorModel) -> bool {
        match self.block {
            Some(b) => b + 4 <= usize::MAX,
            None => owner.memory.cells.len() + 4 <= usize::MAX,
        }
    }

    /// The block lies on the tape and neither operand aliases the other or
    /// a cell of the block.
    pub open spec fn fits(&self, owner: GeneratorModel) -> bool {
        let base = self.base(owner);
        &&& self.placed(owner)
        &&& self.a != self.b
        &&& !(base <= self.a < base + 4)
        &&& !(base <= self.b < base + 4)
    }

    /// The cell that will hold the product; reserves the block on first use.
    pub fn result(&mut self, owner: &mut Generator) -> (cell: usize)
        requires
            old(owner).wf(),
            old(self).placed(old(owner)@),
        ensures
            final(owner).wf(),
            cell == old(self).base(old(owner)@) + 3,
            final(self).block == Some(old(self).base(old(owner)@)),
            final(self).a == old(self).a,
            final(self).b == old(self).b,
            final(owner)@ == old(owner)@.with(old(self).reserved(old(owner)@)),
    {
        if self.block.is_none() {
            self.block = Some(owner.memory.allocate(4));
        }
        self.block.unwrap() + 3
    }
}

impl Instruction for Mul {
    open spec fn can_compile(&self, owner: GeneratorModel) -> bool {
        self.fits(owner)
    }

    open spec fn can_simulate(&self, owner: GeneratorModel) -> bool {
        &&& self.fits(owner)
        &&& owner.memory.is_used(self.a as int)
        &&& owner.memory.is_used(self.b as int)
        &&& self.reserved(owner).open_to(self.base(owner) + 1)
        &&& self.reserved(owner).open_to(self.base(owner) + 2)
        &&& self.reserved(owner).open_to(self.base(owner) + 3)
    }

    open spec fn emitted(&self, owner: GeneratorModel) -> Seq<char> {
        mul_text(self.a, self.b, self.base(owner), owner.cell, owner.indent)
    }

    open spec fn compiled(&self, owner: GeneratorModel) -> GeneratorModel {
        owner.at(self.base(owner)).with(self.reserved(owner))
    }

    open spec fn simulated(&self, owner: GeneratorModel) -> GeneratorModel {
        owner.at(self.base(owner)).with(mul_pool(self.reserved(owner), self.a, self.b, self.base(owner)))
    }

    open spec fn settled(&self, owner: GeneratorModel) -> Mul {
        Mul { a: self.a, b: self.b, block: Some(self.base(owner)) }
    }

    fn simulate(&mut self, owner: &mut Generator) {
        let loc = self.result(owner) - 3;
        owner.cell = loc;
        let fresh = owner.memory.is_blank(loc + 2) && owner.memory.is_blank(loc + 3);
        let ka = !owner.memory.is_dirty(self.a);
        let kb = !owner.memory.is_dirty(self.b);
        let left = if ka { owner.memory.get(self.a) } else { 0 };
        let right = if kb { owner.memory.get(self.b) } else { 0 };
        owner.memory.set(loc, 0);
        if kb && fresh {
            owner.memory.set(loc + 1, right);
        } else {
            owner.memory.cloud(loc + 1);
        }
        if fresh {
            owner.memory.set(loc + 2, 0);
        } else {
            owner.memory.cloud(loc + 2);
        }
        if ka && kb && fresh {
            owner.memory.set(loc + 3, cell_mul(left, right));
        } else {
            owner.memory.cloud(loc + 3);
        }
        owner.memory.set(self.a, 0);
        owner.memory.set(self.b, 0);
    }

    fn compile(&mut self, owner: &mut Generator) -> (text: String) {
        let loc = self.result(owner) - 3;
        let mut builder = BFBuilder::new(owner.indent);
        let mut first = Move::new(loc, self.a);
        builder.instruction(owner, &mut first);
        let mut second = Move::new(loc + 1, self.b);
        builder.instruction(owner, &mut second);
        let mut home = Goto::new(loc);
        builder.instruction(owner, &mut home);
        builder.string("[>[->+>+<<]>[-<+>]<<-]");
        builder.nl();
        builder.data
    }
}

/// Text of `Div` over the block at `base`, emitted with the head on `from`.
pub open spec fn div_text(a: usize, b: usize, base: usize, from: usize, indent: usize) -> Seq<char> {
    "\nDIV:\n"@ + tabs(indent) + move_text(base, a, from, indent) + tabs(indent) + move_text(
        (base + 4) as usize,
        b,
        a,
        indent,
    ) + tabs(indent) + set_text((base + 1) as usize, 0, b, indent) + tabs(indent) + set_text(
        (base + 2) as usize,
        0,
        (base + 1) as usize,
        indent,
    ) + tabs(indent) + set_text((base + 3) as usize, 0, (base + 2) as usize, indent) + tabs(indent)
        + set_text((base + 5) as usize, 0, (base + 3) as usize, indent) + tabs(indent) + travel(
        (base + 5) as usize,
        base,
    ) + "[->+>>+>-[<-]<[<<[->>>+<<<]>>>>+<<-<]<<]"@ + "\n"@
}

/// Remainder that the division idiom leaves for dividend `n` and divisor
/// `d`; a zero divisor behaves as one beyond every dividend.
pub open spec fn div_rest(n: CellSize, d: CellSize) -> CellSize {
    if d == 0 {
        n
    } else {
        (n % d) as CellSize
    }
}

/// Quotient that the division idiom leaves.
pub open spec fn div_quot(n: CellSize, d: CellSize) -> CellSize {
    if d == 0 {
        0
    } else {
        (n / d) as CellSize
    }
}

/// What `Div` over the block at `base` records: remainder in the second
/// cell, quotient in the sixth, what is left of the divisor's countdown in
/// the fifth, zero elsewhere and in both operands.
pub open spec fn div_pool(m: PoolModel, a: usize, b: usize, base: usize) -> PoolModel {
    let n = m.cells[a as int];
    let d = m.cells[b as int];
    let m1 = m.store(a as int, 0).store(b as int, 0).store(base as int, 0).store(base + 2, 0).store(
        base + 3,
        0,
    );
    if m.is_dirty(a as int) || m.is_dirty(b as int) {
        m1.cloud(base + 1).cloud(base + 4).cloud(base + 5)
    } else {
        m1.store(base + 1, div_rest(n, d)).store(base + 4, wrap(d - div_rest(n, d))).store(
            base + 5,
            div_quot(n, d),
        )
    }
}

/// Divides cell `a` by cell `b` inside a block of six cells.
pub struct Div {
    pub block: Option<usize>,
    pub a: usize,
    pub b: usize,
}

impl Div {
    pub fn new(a: usize, b: usize) -> (r: Div)
        ensures
            r.a == a,
            r.b == b,
            r.block is None,
    {
        Div { block: None, a, b }
    }

    /// First cell of the block, reserved or about to be.
    pub open spec fn base(&self, owner: GeneratorModel) -> usize {
        match self.block {
            Some(b) => b,
            None => owner.memory.cells.len() as usize,
        }
    }

    /// The pool once the block is reserved.
    pub open spec fn reserved(&self, owner: GeneratorModel) -> PoolModel {
        match self.block {
            Some(_) => owner.memory,
            None => owner.memory.allocate(6),
        }
    }

    /// The block lies on the tape.
    pub open spec fn placed(&self, owner: GeneratorModel) -> bool {
        match self.block {
            Some(b) => b + 6 <= usize::MAX,
            None => owner.memory.cells.len() + 6 <= usize::MAX,
        }
    }

    /// The block lies on the tape and neither operand aliases the other or
    /// a cell of the block.
    pub open spec fn fits(&self, owner: GeneratorModel) -> bool {
        let base = self.base(owner);
        &&& self.placed(owner)
        &&& self.a != self.b
        &&& !(base <= self.a < base + 6)
        &&& !(base <= self.b < base + 6)
    }

    /// The cell that will hold the quotient; reserves the block on first use.
    pub fn result(&mut self, owner: &mut Generator) -> (cell: usize)
        requires
            old(owner).wf(),
            old(self).placed(old(owner)@),
        ensures
            final(owner).wf(),
            cell == old(self).base(old(owner)@) + 5,
            final(self).block == Some(old(self).base(old(owner)@)),
            final(self).a == old(self).a,
            final(self).b == old(self).b,
            final(owner)@ == old(owner)@.with(old(self).reserved(old(owner)@)),
    {
        if self.block.is_none() {
            self.block = Some(owner.memory.allocate(6));
        }
        self.block.unwrap() + 5
    }

    /// Releases the cells of the block that hold neither quotient nor
    /// remainder.
    pub fn clean(&self, owner: &mut Generator)
        requires
            old(owner).wf(),
            self.block is Some,
            self.block->0 + 6 <= usize::MAX,
        ensures
            final(owner).wf(),
            final(owner)@ == old(owner)@.with(
                old(owner)@.memory.release(self.block->0 as int).release(self.block->0 + 2).release(
                    self.block->0 + 3,
                ).release(self.block->0 + 4),
            ),
    {
        let base = self.block.unwrap();
        owner.memory.free(base);
        owner.memory.free(base + 2);
        owner.memory.free(base + 3);
        owner.memory.free(base + 4);
    }
}

impl Instruction for Div {
    open spec fn can_compile(&self, owner: GeneratorModel) -> bool {
        self.fits(owner)
    }

    open spec fn can_simulate(&self, owner: GeneratorModel) -> bool {
        &&& self.fits(owner)
        &&& owner.memory.is_used(self.a as int)
        &&& owner.memory.is_used(self.b as int)
        &&& self.reserved(owner).open_to(self.base(owner) + 1)
        &&& self.reserved(owner).open_to(self.base(owner) + 4)
        &&& self.reserved(owner).open_to(self.base(owner) + 5)
    }

    open spec fn emitted(&self, owner: GeneratorModel) -> Seq<char> {
        div_text(self.a, self.b, self.base(owner), owner.cell, owner.indent)
    }

    open spec fn compiled(&self, owner: GeneratorModel) -> GeneratorModel {
        owner.at(self.base(owner)).with(self.reserved(owner))
    }

    open spec fn simulated(&self, owner: GeneratorModel) -> GeneratorModel {
        owner.at(self.base(owner)).with(div_pool(self.reserved(owner), self.a, self.b, self.base(owner)))
    }

    open spec fn settled(&self, owner: GeneratorModel) -> Div {
        Div { a: self.a, b: self.b, block: Some(self.base(owner)) }
    }

    fn simulate(&mut self, owner: &mut Generator) {
        let loc = self.result(owner) - 5;
        owner.cell = loc;
        let known = !owner.memory.is_dirty(self.a) && !owner.memory.is_dirty(self.b);
        let n = if known { owner.memory.get(self.a) } else { 0 };
        let d = if known { owner.memory.get(self.b) } else { 0 };
        owner.memory.set(self.a, 0);
        owner.memory.set(self.b, 0);
        owner.memory.set(loc, 0);
        owner.memory.set(loc + 2, 0);
        owner.memory.set(loc + 3, 0);
        if !known {
            owner.memory.cloud(loc + 1);
            owner.memory.cloud(loc + 4);
            owner.memory.cloud(loc + 5);
            return ;
        }
        let rest = if d == 0 { n } else { n % d };
        let quot = if d == 0 { 0 } else { n / d };
        owner.memory.set(loc + 1, rest);
        owner.memory.set(loc + 4, cell_sub(d, rest));
        owner.memory.set(loc + 5, quot);
    }

    fn compile(&mut self, owner: &mut Generator) -> (text: String) {
        let loc = self.result(owner) - 5;
        let mut builder = BFBuilder::new(owner.indent);
        builder.string("\nDIV:\n");
        let mut first = Move::new(loc, self.a);
        builder.instruction(owner, &mut first);
        let mut second = Move::new(loc + 4, self.b);
        builder.instruction(owner, &mut second);
        let mut zero = SetCell::new(loc + 1, 0);
        builder.instruction(owner, &mut zero);
        zero.cell = loc + 2;
        builder.instruction(owner, &mut zero);
        zero.cell = loc + 3;
        builder.instruction(owner, &mut zero);
        zero.cell = loc + 5;
        builder.instruction(owner, &mut zero);
        let mut home = Goto::new(loc);
        builder.instruction(owner, &mut home);
        builder.string("[->+>>+>-[<-]<[<<[->>>+<<<]>>>>+<<-<]<<]");
        builder.nl();
        assert(builder.data@ =~= div_text(self.a, self.b, loc, old(owner).cell, old(owner).indent));
        builder.data
    }
}

/// Text that zeroes the first `count` cells of the block at `base`, one
/// after the other, starting with the head on `from`.
pub open spec fn wipe_text(base: usize, count: nat, from: usize, indent: usize) -> Seq<char>
    decreases count,
{
    if count == 0 {
        Seq::empty()
    } else {
        wipe_text(base, (count - 1) as nat, from, indent) + tabs(indent) + set_text(
            (base + count - 1) as usize,
            0,
            if count == 1 {
                from
            } else {
                (base + count - 2) as usize
            },
            indent,
        )
    }
}

/// Text of `Distance` over the block at `base`, emitted with the head on
/// `from`.
pub open spec fn distance_text(a: usize, b: usize, base: usize, from: usize, indent: usize) -> Seq<char> {
    wipe_text(base, 6, from, indent) + tabs(indent) + set_text(base, 1, (base + 5) as usize, indent)
        + tabs(indent) + set_text((base + 1) as usize, 1, base, indent) + tabs(indent) + move_text(
        (base + 3) as usize,
        a,
        (base + 1) as usize,
        indent,
    ) + tabs(indent) + move_text((base + 5) as usize, b, a, indent) + tabs(indent) + travel(
        b,
        (base + 3) as usize,
    ) + "[->>[-[<]]<]<<<[>]"@ + "\n"@
}

/// What `Distance` over the block at `base` records.
///
/// The first two cells hold one, the third and fifth zero, both operands
/// zero. With known operands `n` and `d` the fourth cell holds `d - n`
/// wrapped if `n > d` and zero otherwise, and the sixth holds `d - n` if
/// `n < d` and zero otherwise; with an unknown operand both are unknown.
pub open spec fn distance_pool(m: PoolModel, a: usize, b: usize, base: usize) -> PoolModel {
    let n = m.cells[a as int];
    let d = m.cells[b as int];
    let m1 = m.store(base as int, 1).store(base + 1, 1).store(base + 2, 0).store(base + 4, 0).store(
        a as int,
        0,
    ).store(b as int, 0);
    if m.is_dirty(a as int) || m.is_dirty(b as int) {
        m1.cloud(base + 3).cloud(base + 5)
    } else if n > d {
        m1.store(base + 3, wrap(d - n)).store(base + 5, 0)
    } else {
        m1.store(base + 3, 0).store(base + 5, (d - n) as CellSize)
    }
}

/// Compares cell `a` with cell `b` inside a block of seven cells, leaving
/// what `a` exceeds `b` by, and what `b` exceeds `a` by, in two cells of
/// the block.
pub struct Distance {
    pub a: usize,
    pub b: usize,
    pub block: Option<usize>,
    pub gt_cell: usize,
    pub lt_cell: usize,
}

impl Distance {
    pub fn new(a: usize, b: usize) -> (r: Distance)
        ensures
            r.a == a,
            r.b == b,
            r.block is None,
            r.gt_cell == 0,
            r.lt_cell == 0,
    {
        Distance { a, b, block: None, gt_cell: 0, lt_cell: 0 }
    }

    /// First cell of the block, reserved or about to be.
    pub open spec fn base(&self, owner: GeneratorModel) -> usize {
        match self.block {
            Some(b) => b,
            None => owner.memory.cells.len() as usize,
        }
    }

    /// The pool once the block is reserved.
    pub open spec fn reserved(&self, owner: GeneratorModel) -> PoolModel {
        match self.block {
            Some(_) => owner.memory,
            None => owner.memory.allocate(7),
        }
    }

    /// The block lies on the tape, and the two handles point into it.
    pub open spec fn placed(&self, owner: GeneratorModel) -> bool {
        match self.block {
            Some(b) => b + 7 <= usize::MAX && self.gt_cell == b + 3 && self.lt_cell == b + 5,
            None => owner.memory.cells.len() + 7 <= usize::MAX,
        }
    }

    /// The block lies on the tape and neither operand aliases the other or
    /// a cell of the block.
    pub open spec fn fits(&self, owner: GeneratorModel) -> bool {
        let base = self.base(owner);
        &&& self.placed(owner)
        &&& self.a != self.b
        &&& !(base <= self.a < base + 7)
        &&& !(base <= self.b < base + 7)
    }

    /// The instruction with its block at `base`.
    pub open spec fn seated(&self, base: usize) -> Distance {
        Distance {
            a: self.a,
            b: self.b,
            block: Some(base),
            gt_cell: (base + 3) as usize,
            lt_cell: (base + 5) as usize,
        }
    }

    /// Reserves the block unless that was done already.
    fn reserve(&mut self, owner: &mut Generator) -> (base: usize)
        requires
            old(owner).wf(),
            old(self).placed(old(owner)@),
        ensures
            final(owner).wf(),
            base == old(self).base(old(owner)@),
            base + 7 <= usize::MAX,
            *final(self) == old(self).seated(base),
            final(owner)@ == old(owner)@.with(old(self).reserved(old(owner)@)),
    {
        if self.block.is_none() {
            let base = owner.memory.allocate(7);
            self.block = Some(base);
            self.gt_cell = base + 3;
            self.lt_cell = base + 5;
        }
        self.block.unwrap()
    }

    /// The cell that tells by how much `a` exceeds `b`; reserves the block
    /// on first use.
    pub fn gt(&mut self, owner: &mut Generator) -> (cell: usize)
        requires
            old(owner).wf(),
            old(self).placed(old(owner)@),
        ensures
            final(owner).wf(),
            cell == old(self).base(old(owner)@) + 3,
            *final(self) == old(self).seated(old(self).base(old(owner)@)),
            final(owner)@ == old(owner)@.with(old(self).reserved(old(owner)@)),
    {
        self.reserve(owner);
        self.gt_cell
    }

    /// The cell that tells by how much `b` exceeds `a`; reserves the block
    /// on first use.
    pub fn lt(&mut self, owner: &mut Generator) -> (cell: usize)
        requires
            old(owner).wf(),
            old(self).placed(old(owner)@),
        ensures
            final(owner).wf(),
            cell == old(self).base(old(owner)@) + 5,
            *final(self) == old(self).seated(old(self).base(old(owner)@)),
            final(owner)@ == old(owner)@.with(old(self).reserved(old(owner)@)),
    {
        self.reserve(owner);
        self.lt_cell
    }
}

impl Instruction for Distance {
    open spec fn can_compile(&self, owner: GeneratorModel) -> bool {
        self.fits(owner)
    }

    open spec fn can_simulate(&self, owner: GeneratorModel) -> bool {
        &&& self.fits(owner)
        &&& owner.memory.is_used(self.a as int)
        &&& owner.memory.is_used(self.b as int)
        &&& self.reserved(owner).open_to(self.base(owner) + 3)
        &&& self.reserved(owner).open_to(self.base(owner) + 5)
    }

    open spec fn emitted(&self, owner: GeneratorModel) -> Seq<char> {
        distance_text(self.a, self.b, self.base(owner), owner.cell, owner.indent)
    }

    open spec fn compiled(&self, owner: GeneratorModel) -> GeneratorModel {
        owner.at((self.base(owner) + 2) as usize).with(self.reserved(owner))
    }

    open spec fn simulated(&self, owner: GeneratorModel) -> GeneratorModel {
        owner.at((self.base(owner) + 2) as usize).with(
            distance_pool(self.reserved(owner), self.a, self.b, self.base(owner)),
        )
    }

    open spec fn settled(&self, owner: GeneratorModel) -> Distance {
        self.seated(self.base(owner))
    }

    fn simulate(&mut self, owner: &mut Generator) {
        let loc = self.reserve(owner);
        owner.cell = loc + 2;
        let known = !owner.memory.is_dirty(self.a) && !owner.memory.is_dirty(self.b);
        let n = if known { owner.memory.get(self.a) } else { 0 };
        let d = if known { owner.memory.get(self.b) } else { 0 };
        owner.memory.set(loc, 1);
        owner.memory.set(loc + 1, 1);
        owner.memory.set(loc + 2, 0);
        owner.memory.set(loc + 4, 0);
        owner.memory.set(self.a, 0);
        owner.memory.set(self.b, 0);
        if !known {
            owner.memory.cloud(loc + 3);
            owner.memory.cloud(loc + 5);
            return ;
        }
        if n > d {
            owner.memory.set(loc + 3, cell_sub(d, n));
            owner.memory.set(loc + 5, 0);
            return ;
        }
        owner.memory.set(loc + 3, 0);
        owner.memory.set(loc + 5, d - n);
    }

    fn compile(&mut self, owner: &mut Generator) -> (text: String) {
        let loc = self.reserve(owner);
        let mut builder = BFBuilder::new(owner.indent);
        let mut i: usize = 0;
        while i < 6
            invariant
                i <= 6,
                loc + 7 <= usize::MAX,
                owner.wf(),
                owner@.indent == old(owner)@.indent,
                owner@.memory == old(self).reserved(old(owner)@),
                owner@.cell == (if i == 0 { old(owner).cell } else { (loc + i - 1) as usize }),
                builder.indent == old(owner).indent,
                builder.data@ == wipe_text(loc, i as nat, old(owner).cell, old(owner).indent),
            decreases 6 - i,
        {
            let mut zero = SetCell::new(loc + i, 0);
            builder.instruction(owner, &mut zero);
            i = i + 1;
        }
        let mut one = SetCell::new(loc, 1);
        builder.instruction(owner, &mut one);
        one.cell = loc + 1;
        builder.instruction(owner, &mut one);
        let mut first = Move::new(loc + 3, self.a);
        builder.instruction(owner, &mut first);
        let mut second = Move::new(loc + 5, self.b);
        builder.instruction(owner, &mut second);
        let mut start = Goto::new(loc + 3);
        builder.instruction(owner, &mut start);
        builder.string("[->>[-[<]]<]<<<[>]");
        builder.nl();
        owner.cell = loc + 2;
        assert(builder.data@ =~= distance_text(self.a, self.b, loc, old(owner).cell, old(owner).indent));
        builder.data
    }
}

} // verus!
