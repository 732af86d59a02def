//! Lowers syntax trees to instructions and instructions to tape text.

use crate::analyzer::{
    count_argument, find, is_word, read_count, scope_at_end, type_of, Analyzer, Binding, InfoModel, ValueInfo,
};
use crate::block::{
    block_live, block_valid, instr_text, instr_valid, lemma_if_model, lemma_while_model, prefix_exit, prefix_pool,
    prefix_text, BFBlock, If, Instr, Step, While,
};
use crate::error::CompileError;
use crate::instructions::{Add, BoolNegate, Command, Distance, Div, Input, Move, Mul, Output, SetCell, Sub};
use crate::memory::{wrap, CellSize, Generator, GeneratorModel, PoolModel};
use crate::parser::{
    g_statement, lemma_expr_parts, lemma_statement_advances, lemma_stmt_parts, program_end, stmt_models, ExprModel,
    Expression, ExpressionType, Parser, Statement, StatementType, StmtModel,
};
use crate::tokenizer::{lemma_lex_advances, lex, TokenType, Tokenizer};
use vstd::prelude::*;
use vstd::string::{StrSliceExecFns, StringExecFns};

verus! {

/// A declared variable: its type, its name, the expression that defined it
/// and the first of its cells.
#[derive(Debug)]
pub struct Variable {
    pub typename: String,
    pub name: String,
    pub expression: Expression,
    pub cell: usize,
}

/// Mathematical value of a [`Variable`].
pub struct Slot {
    pub typename: Seq<char>,
    pub name: Seq<char>,
    pub expression: ExprModel,
    pub cell: usize,
}

impl View for Variable {
    type V = Slot;

    open spec fn view(&self) -> Slot {
        Slot { typename: self.typename@, name: self.name@, expression: self.expression@, cell: self.cell }
    }
}

impl Variable {
    pub fn new(typename: String, name: String, expression: Expression, cell: usize) -> (v: Variable)
        ensures
            v@ == (Slot { typename: typename@, name: name@, expression: expression@, cell }),
    {
        Variable { typename, name, expression, cell }
    }
}

impl Variable {
    /// A variable of the same value.
    pub fn duplicate(&self) -> (v: Variable)
        ensures
            v@ == self@,
    {
        Variable {
            typename: self.typename.clone(),
            name: self.name.clone(),
            expression: self.expression.duplicate(),
            cell: self.cell,
        }
    }
}

/// The slots of a sequence of variables.
pub open spec fn slots(v: Seq<Variable>) -> Seq<Slot> {
    Seq::new(v.len(), |i: int| v[i]@)
}

/// The index of the first of the first `k` slots that has the name, or `k`
/// if none has.
pub open spec fn slot_index(frame: Seq<Slot>, name: Seq<char>, k: int) -> int
    decreases k,
{
    if k <= 0 {
        0
    } else {
        let before = slot_index(frame, name, k - 1);
        if before < k - 1 || (k <= frame.len() && frame[k - 1].name == name) {
            before
        } else {
            k
        }
    }
}

/// The frame in which the slot stands in place of an earlier one of its
/// name, or at the end if there was none.
pub open spec fn install(frame: Seq<Slot>, slot: Slot) -> Seq<Slot> {
    let at = slot_index(frame, slot.name, frame.len() as int);
    if at < frame.len() {
        frame.update(at, slot)
    } else {
        frame.push(slot)
    }
}

/// The slot of `name` in the innermost frame that has one.
pub open spec fn lookup(frames: Seq<Seq<Slot>>, name: Seq<char>) -> Option<Slot>
    decreases frames.len(),
{
    if frames.len() == 0 {
        None
    } else {
        let at = slot_index(frames[0], name, frames[0].len() as int);
        if at < frames[0].len() {
            Some(frames[0][at])
        } else {
            lookup(frames.drop_first(), name)
        }
    }
}

/// The frames in which `slot` stands in place of the slot that `lookup`
/// finds for `name`.
pub open spec fn replaced(frames: Seq<Seq<Slot>>, name: Seq<char>, slot: Slot) -> Seq<Seq<Slot>>
    decreases frames.len(),
{
    if frames.len() == 0 {
        frames
    } else {
        let at = slot_index(frames[0], name, frames[0].len() as int);
        if at < frames[0].len() {
            frames.update(0, frames[0].update(at, slot))
        } else {
            seq![frames[0]] + replaced(frames.drop_first(), name, slot)
        }
    }
}

/// The frames in which the slot is installed in the innermost one.
pub open spec fn define(frames: Seq<Seq<Slot>>, slot: Slot) -> Seq<Seq<Slot>> {
    if frames.len() == 0 {
        frames
    } else {
        frames.update(0, install(frames[0], slot))
    }
}

/// The first `k` slots hold the name at the index given, and nowhere
/// before it.
pub proof fn lemma_slot_index(frame: Seq<Slot>, name: Seq<char>, k: int)
    requires
        0 <= k <= frame.len(),
    ensures
        0 <= slot_index(frame, name, k) <= k,
        slot_index(frame, name, k) < k ==> frame[slot_index(frame, name, k)].name == name,
    decreases k,
{
    if k > 0 {
        lemma_slot_index(frame, name, k - 1);
    }
}

/// Once the name is found among the first slots, looking further finds the
/// same one.
pub proof fn lemma_slot_found(frame: Seq<Slot>, name: Seq<char>, at: int, k: int)
    requires
        0 <= at < k <= frame.len(),
        slot_index(frame, name, at) == at,
        frame[at].name == name,
    ensures
        slot_index(frame, name, k) == at,
    decreases k - at,
{
    if k > at + 1 {
        lemma_slot_found(frame, name, at, k - 1);
    }
}

/// A lexical scope: its own variables and the scope around it.
#[derive(Debug)]
pub struct Scope {
    pub parent: Option<Box<Scope>>,
    pub variables: Vec<Variable>,
}

/// The frames of a scope, the innermost first.
pub open spec fn frames(scope: Scope) -> Seq<Seq<Slot>>
    decreases scope,
{
    seq![slots(scope.variables@)] + (match scope.parent {
        Some(p) => frames(*p),
        None => Seq::empty(),
    })
}

impl View for Scope {
    type V = Seq<Seq<Slot>>;

    open spec fn view(&self) -> Seq<Seq<Slot>> {
        frames(*self)
    }
}

impl Scope {
    pub fn new() -> (s: Scope)
        ensures
            s@ == seq![Seq::<Slot>::empty()],
            s.parent is None,
            s.variables@.len() == 0,
    {
        let s = Scope { parent: None, variables: Vec::new() };
        assert(slots(s.variables@) =~= Seq::<Slot>::empty());
        assert(s@ =~= seq![Seq::<Slot>::empty()]);
        s
    }

    /// The index of the first variable of this frame with that name, or the
    /// number of variables if there is none.
    fn position(&self, name: &String) -> (at: usize)
        ensures
            at == slot_index(slots(self.variables@), name@, self.variables@.len() as int),
            at <= self.variables@.len(),
    {
        let mut k: usize = 0;
        while k < self.variables.len()
            invariant
                k <= self.variables@.len(),
                slot_index(slots(self.variables@), name@, k as int) == k,
            decreases self.variables.len() - k,
        {
            if self.variables[k].name == *name {
                proof {
                    lemma_slot_found(slots(self.variables@), name@, k as int, self.variables@.len() as int);
                }
                return k;
            }
            k = k + 1;
        }
        k
    }

    /// Installs a copy of the variable in this frame.
    pub fn define(&mut self, var: &Variable)
        ensures
            final(self)@ == define(old(self)@, var@),
            final(self).parent == old(self).parent,
    {
        let at = self.position(&var.name);
        let ghost slot = var@;
        let ghost before = slots(self.variables@);
        if at < self.variables.len() {
            self.variables.set(at, var.duplicate());
            assert(slots(self.variables@) =~= before.update(at as int, slot));
        } else {
            self.variables.push(var.duplicate());
            assert(slots(self.variables@) =~= before.push(slot));
        }
        assert(self@ =~= define(old(self)@, slot));
    }

    /// The variable of that name in the innermost frame that has one.
    pub fn get(&self, name: &String) -> (r: Option<&Variable>)
        ensures
            match lookup(self@, name@) {
                Some(slot) => r is Some && r->0@ == slot,
                None => r is None,
            },
        decreases self,
    {
        let at = self.position(name);
        proof {
            reveal_with_fuel(lookup, 2);
            assert(self@.drop_first() =~= (match self.parent {
                Some(p) => frames(*p),
                None => Seq::empty(),
            }));
            assert(self@[0] == slots(self.variables@));
        }
        if at < self.variables.len() {
            return Some(&self.variables[at]);
        }
        match &self.parent {
            Some(parent) => parent.get(name),
            None => None,
        }
    }

    /// The variable of that name in the innermost frame that has one, to
    /// be changed in place.
    pub fn get_mut(&mut self, name: &String) -> (r: Option<&mut Variable>)
        ensures
            match lookup(old(self)@, name@) {
                Some(slot) => r is Some && r->0@ == slot,
                None => r is None,
            },
            match r {
                Some(var) => final(self)@ == replaced(old(self)@, name@, final(var)@),
                None => final(self)@ == old(self)@,
            },
        decreases *old(self),
    {
        let at = self.position(name);
        proof {
            reveal_with_fuel(lookup, 2);
            reveal_with_fuel(replaced, 2);
            assert(self@.drop_first() =~= (match self.parent {
                Some(p) => frames(*p),
                None => Seq::empty(),
            }));
            assert(self@[0] == slots(self.variables@));
        }
        if at < self.variables.len() {
            proof {
                let own = slots(self.variables@);
                let above = self@.drop_first();
                assert forall|v: Variable| #[trigger]
                    slots(self.variables@.update(at as int, v)) == own.update(at as int, v@) by {
                    assert(slots(self.variables@.update(at as int, v)) =~= own.update(at as int, v@));
                }
                assert forall|x: Seq<Slot>| #[trigger] (seq![x] + above) == self@.update(0, x) by {
                    assert((seq![x] + above) =~= self@.update(0, x));
                }
            }
            return Some(&mut self.variables[at]);
        }
        match &mut self.parent {
            Some(parent) => parent.get_mut(name),
            None => None,
        }
    }

    /// The first cell of the variable of that name.
    pub fn cell_of(&self, name: &String) -> (r: Option<usize>)
        ensures
            match lookup(self@, name@) {
                Some(slot) => r == Some(slot.cell),
                None => r is None,
            },
    {
        match self.get(name) {
            Some(var) => Some(var.cell),
            None => None,
        }
    }

    /// A scope of the same value: the same variables in the same frames.
    pub fn duplicate(&self) -> (s: Scope)
        ensures
            s@ == self@,
        decreases self,
    {
        let mut variables: Vec<Variable> = Vec::new();
        let mut k: usize = 0;
        while k < self.variables.len()
            invariant
                k <= self.variables.len(),
                variables@.len() == k,
                forall|i: int| 0 <= i < k ==> (#[trigger] variables@[i])@ == self.variables@[i]@,
            decreases self.variables.len() - k,
        {
            variables.push(self.variables[k].duplicate());
            k = k + 1;
        }
        assert(slots(variables@) =~= slots(self.variables@));
        let parent = match &self.parent {
            Some(parent) => Some(Box::new(parent.duplicate())),
            None => None,
        };
        Scope { parent, variables }
    }

    /// A new innermost scope around a copy of this one.
    pub fn create_child(&mut self) -> (child: Scope)
        ensures
            child@ == seq![Seq::<Slot>::empty()] + old(self)@,
            *final(self) == *old(self),
    {
        let mut child = Scope::new();
        child.parent = Some(Box::new(self.duplicate()));
        assert(slots(child.variables@) =~= Seq::<Slot>::empty());
        child
    }
}

/// What lowering works on: the allocator, the variables, what the last
/// intrinsic returned, and the instructions of the block being built.
pub struct Ctx {
    pub memory: PoolModel,
    pub frames: Seq<Seq<Slot>>,
    pub last_return: InfoModel,
    pub code: Seq<Step>,
}

/// A lowered expression: the state behind it and the first cell of its
/// result.
pub struct Placed {
    pub ctx: Ctx,
    pub cell: usize,
}

impl Ctx {
    /// There is room for `n` more cells.
    pub open spec fn room(self, n: int) -> bool {
        self.memory.cells.len() + n <= usize::MAX
    }

    /// The first of the next `n` cells that the allocator hands out.
    pub open spec fn base(self, n: int) -> usize {
        self.memory.block_base(n as nat) as usize
    }

    /// The state after `n` cells were allocated.
    pub open spec fn take(self, n: int) -> Ctx {
        Ctx { memory: self.memory.allocate(n as nat), ..self }
    }

    /// The state after a cell was released.
    pub open spec fn give(self, cell: usize) -> Ctx {
        Ctx { memory: self.memory.release(cell as int), ..self }
    }

    /// The state with one more instruction.
    pub open spec fn emit(self, step: Step) -> Ctx {
        Ctx { code: self.code.push(step), ..self }
    }

    /// The state with more instructions.
    pub open spec fn emit_all(self, steps: Seq<Step>) -> Ctx {
        Ctx { code: self.code + steps, ..self }
    }

    /// The state with another block under construction.
    pub open spec fn with_code(self, code: Seq<Step>) -> Ctx {
        Ctx { code, ..self }
    }

    /// The state after an intrinsic returned.
    pub open spec fn returned(self, typename: Seq<char>, size: usize) -> Ctx {
        Ctx { last_return: InfoModel { typename, size }, ..self }
    }
}

/// The instruction that writes `value` to `cell`.
pub open spec fn set_step(cell: int, value: CellSize) -> Step {
    Step::SetCell(SetCell { cell: cell as usize, value })
}

/// The instruction that copies `b` to `a` through `tmp`.
pub open spec fn copy_step(a: int, tmp: usize, b: int) -> Step {
    Step::Copy(crate::instructions::Copy { a: a as usize, tmp, b: b as usize })
}

/// The comparison block at `base` over `a` and `b`.
pub open spec fn distance_step(a: usize, b: usize, base: usize) -> Step {
    Step::Distance(
        Distance { a, b, block: Some(base), gt_cell: (base + 3) as usize, lt_cell: (base + 5) as usize },
    )
}

/// Whether a binary operation with this operator can be lowered.
pub open spec fn binary_operator(kind: TokenType) -> bool {
    kind == TokenType::EqualEqual || kind == TokenType::NotEqual || kind == TokenType::GT || kind
        == TokenType::GTEqual || kind == TokenType::LT || kind == TokenType::LTEqual || kind
        == TokenType::Plus || kind == TokenType::Minus || kind == TokenType::Times || kind
        == TokenType::Slash
}

/// A comparison of `left` with `right` through a fresh seven-cell block.
///
/// The strict forms first lower one operand by one and take the handle of
/// their direction. The others take both handles, negate the opposite
/// one and add it to their own, so that equality counts.
#[verifier::opaque]
pub open spec fn compare(kind: TokenType, left: usize, right: usize, ctx: Ctx) -> Result<Placed, CompileError> {
    if !ctx.room(7) {
        Err(CompileError::OutOfCells)
    } else {
        let base = ctx.base(7);
        let blocked = ctx.take(7);
        if !blocked.room(1) {
            Err(CompileError::OutOfCells)
        } else {
            let tmp = blocked.base(1);
            let ready = blocked.take(1);
            let gt = (base + 3) as usize;
            let lt = (base + 5) as usize;
            let dst = distance_step(left, right, base);
            if kind == TokenType::GT {
                Ok(
                    Placed {
                        ctx: ready.emit(set_step(tmp as int, 1)).emit(Step::Sub(Sub { a: left, b: tmp })).emit(
                            dst,
                        ),
                        cell: gt,
                    },
                )
            } else if kind == TokenType::GTEqual {
                Ok(
                    Placed {
                        ctx: ready.emit(dst).emit(Step::BoolNegate(BoolNegate { a: lt, tmp })).emit(
                            Step::Add(Add { a: gt, b: lt }),
                        ),
                        cell: gt,
                    },
                )
            } else if kind == TokenType::LT {
                Ok(
                    Placed {
                        ctx: ready.emit(set_step(tmp as int, 1)).emit(Step::Sub(Sub { a: right, b: tmp })).emit(
                            dst,
                        ),
                        cell: lt,
                    },
                )
            } else {
                Ok(
                    Placed {
                        ctx: ready.emit(dst).emit(Step::BoolNegate(BoolNegate { a: gt, tmp })).emit(
                            Step::Add(Add { a: lt, b: gt }),
                        ),
                        cell: lt,
                    },
                )
            }
        }
    }
}

/// A binary operation on two lowered operands.
///
/// Sum and difference end in the left operand. Equality is the negated
/// difference, inequality the difference itself. Product and quotient
/// appear in a fresh block of four and six cells.
#[verifier::opaque]
pub open spec fn binary(kind: TokenType, left: usize, right: usize, ctx: Ctx) -> Result<Placed, CompileError> {
    if kind == TokenType::EqualEqual {
        if !ctx.room(1) {
            Err(CompileError::OutOfCells)
        } else {
            Ok(
                Placed {
                    ctx: ctx.take(1).emit(Step::Sub(Sub { a: left, b: right })).emit(
                        Step::BoolNegate(BoolNegate { a: left, tmp: ctx.base(1) }),
                    ),
                    cell: left,
                },
            )
        }
    } else if kind == TokenType::NotEqual || kind == TokenType::Minus {
        Ok(Placed { ctx: ctx.emit(Step::Sub(Sub { a: left, b: right })), cell: left })
    } else if kind == TokenType::Plus {
        Ok(Placed { ctx: ctx.emit(Step::Add(Add { a: left, b: right })), cell: left })
    } else if kind == TokenType::Times {
        if !ctx.room(4) {
            Err(CompileError::OutOfCells)
        } else {
            Ok(
                Placed {
                    ctx: ctx.take(4).emit(Step::Mul(Mul { a: left, b: right, block: Some(ctx.base(4)) })),
                    cell: (ctx.base(4) + 3) as usize,
                },
            )
        }
    } else if kind == TokenType::Slash {
        if !ctx.room(6) {
            Err(CompileError::OutOfCells)
        } else {
            Ok(
                Placed {
                    ctx: ctx.take(6).emit(Step::Div(Div { a: left, b: right, block: Some(ctx.base(6)) })),
                    cell: (ctx.base(6) + 5) as usize,
                },
            )
        }
    } else if binary_operator(kind) {
        compare(kind, left, right, ctx)
    } else {
        Err(CompileError::Malformed)
    }
}

/// A value of one cell.
#[verifier::opaque]
pub open spec fn scalar(value: CellSize, ctx: Ctx) -> Result<Placed, CompileError> {
    if !ctx.room(1) {
        Err(CompileError::OutOfCells)
    } else {
        Ok(Placed { ctx: ctx.take(1).emit(set_step(ctx.base(1) as int, value)), cell: ctx.base(1) })
    }
}

/// A string: one cell per character and a zero behind them.
#[verifier::opaque]
pub open spec fn string_literal(s: Seq<char>, ctx: Ctx) -> Result<Placed, CompileError> {
    let cells = s.len() as int + 1;
    if !ctx.room(cells) {
        Err(CompileError::OutOfCells)
    } else {
        let base = ctx.base(cells);
        Ok(
            Placed {
                ctx: ctx.take(cells).emit_all(
                    Seq::new(s.len(), |i: int| set_step(base + i, char_cell(s[i]))),
                ).emit(set_step(base + s.len(), 0)),
                cell: base,
            },
        )
    }
}

/// The value of a variable: a fresh run of cells of the variable's size,
/// filled cell by cell from the variable's own through one scratch cell,
/// which is released afterwards.
#[verifier::opaque]
pub open spec fn variable_copy(slot: Slot, size: usize, ctx: Ctx) -> Result<Placed, CompileError> {
    if !ctx.room(size as int) || slot.cell + size > usize::MAX {
        Err(CompileError::OutOfCells)
    } else {
        let cell = ctx.base(size as int);
        let run = ctx.take(size as int);
        if !run.room(1) {
            Err(CompileError::OutOfCells)
        } else {
            let tmp = run.base(1);
            Ok(
                Placed {
                    ctx: run.take(1).emit_all(
                        Seq::new(size as nat, |i: int| copy_step(cell + i, tmp, slot.cell + i)),
                    ).give(tmp),
                    cell,
                },
            )
        }
    }
}

/// `print`: one output per cell of the argument's size.
#[verifier::opaque]
pub open spec fn print_call(arg: Placed, size: usize) -> Result<Placed, CompileError> {
    if arg.cell + size > usize::MAX {
        Err(CompileError::OutOfCells)
    } else {
        Ok(
            Placed {
                ctx: arg.ctx.emit_all(
                    Seq::new(size as nat, |i: int| Step::Output(Output { cell: (arg.cell + i) as usize })),
                ).returned("void"@, 0),
                cell: arg.cell,
            },
        )
    }
}

/// `read(n)`: `n` cells of input and a zero behind them.
#[verifier::opaque]
pub open spec fn read_call(n: usize, ctx: Ctx) -> Result<Placed, CompileError> {
    if !ctx.room(n + 1) {
        Err(CompileError::OutOfCells)
    } else {
        let base = ctx.base(n + 1);
        Ok(
            Placed {
                ctx: ctx.take(n + 1).emit_all(
                    Seq::new(n as nat, |i: int| Step::Input(Input { cell: (base + i) as usize })),
                ).emit(set_step(base + n, 0)).returned("string"@, n),
                cell: base,
            },
        )
    }
}

/// The number of cells that the argument of `open` or `write` occupies: the
/// length of a string literal, plus `extra`; the size of a variable; what
/// the last intrinsic returned for a call; one for anything else.
#[verifier::opaque]
pub open spec fn payload(arg: ExprModel, extra: int, sizes: Seq<Binding>, last_return: InfoModel) -> Result<
    int,
    CompileError,
> {
    if arg.kind == ExpressionType::Literal && arg.value is Some {
        if arg.value->0.kind == TokenType::String {
            Ok(arg.value->0.string.len() + extra)
        } else if arg.value->0.kind == TokenType::Identifier {
            match find(sizes, arg.value->0.string) {
                Some(info) => Ok(info.size as int),
                None => Err(CompileError::UnknownVariable),
            }
        } else {
            Ok(1)
        }
    } else if arg.kind == ExpressionType::Call {
        Ok(last_return.size as int)
    } else {
        Ok(1)
    }
}

/// The selector of the host operation that opens a file.
pub open spec fn open_code() -> CellSize {
    1
}

/// The selector of the host operation that writes a byte.
pub open spec fn write_code() -> CellSize {
    2
}

/// `open(path)`: a request of the selector and `len` cells of path, filled
/// from the lowered argument through one scratch cell.
#[verifier::opaque]
pub open spec fn open_call(arg: Placed, len: int) -> Result<Placed, CompileError> {
    let ctx = arg.ctx;
    if !ctx.room(len + 1) || arg.cell + len > usize::MAX {
        Err(CompileError::OutOfCells)
    } else {
        let op = ctx.base(len + 1);
        let request = ctx.take(len + 1);
        if !request.room(1) {
            Err(CompileError::OutOfCells)
        } else {
            let tmp = request.base(1);
            Ok(
                Placed {
                    ctx: request.take(1).emit(set_step(op as int, open_code())).emit_all(
                        Seq::new(len as nat, |i: int| copy_step(op + i + 1, tmp, arg.cell + i)),
                    ).emit(Step::Command(Command { cell: op })).returned("int"@, 1),
                    cell: op,
                },
            )
        }
    }
}

/// The state after `count` cells from `source` on were copied to the
/// cells from `dest` on, each through a scratch cell of its own.
pub open spec fn spread(ctx: Ctx, dest: int, source: int, count: nat) -> Result<Ctx, CompileError>
    decreases count,
{
    if count == 0 {
        Ok(ctx)
    } else {
        match spread(ctx, dest, source, (count - 1) as nat) {
            Err(e) => Err(e),
            Ok(before) => if !before.room(1) {
                Err(CompileError::OutOfCells)
            } else {
                Ok(
                    before.take(1).emit(
                        copy_step(dest + count - 1, before.base(1), source + count - 1),
                    ),
                )
            },
        }
    }
}

/// The request of `write` before the handle is lowered: the selector and
/// `len + 1` cells behind it.
#[verifier::opaque]
pub open spec fn write_request(data: Placed, len: int) -> Result<Placed, CompileError> {
    let ctx = data.ctx;
    if len == 0 {
        Err(CompileError::EmptyWrite)
    } else if !ctx.room(len + 2) || data.cell + len > usize::MAX {
        Err(CompileError::OutOfCells)
    } else {
        let op = ctx.base(len + 2);
        if op + len + 2 > usize::MAX {
            Err(CompileError::OutOfCells)
        } else {
            Ok(Placed { ctx: ctx.take(len + 2).emit(set_step(op as int, write_code())), cell: op })
        }
    }
}

/// `write(handle, data)` once both are lowered: the handle is copied
/// behind the selector, `len + 1` cells of data behind the handle, and the
/// request is handed to the host.
#[verifier::opaque]
pub open spec fn write_call(op: usize, handle: Placed, data: usize, len: int) -> Result<Placed, CompileError> {
    let ctx = handle.ctx;
    if !ctx.room(1) {
        Err(CompileError::OutOfCells)
    } else {
        let first = ctx.take(1).emit(copy_step(op + 1, ctx.base(1), handle.cell as int));
        match spread(first, op + 2, data as int, (len + 1) as nat) {
            Err(e) => Err(e),
            Ok(filled) => Ok(
                Placed {
                    ctx: filled.emit(Step::Command(Command { cell: op })).returned("int"@, 1),
                    cell: op,
                },
            ),
        }
    }
}

/// The argument `k` of a call.
pub open spec fn argument(e: ExprModel, k: int) -> Option<ExprModel> {
    if e.args is Some && 0 <= k < e.args->0.len() {
        Some(e.args->0[k])
    } else {
        None
    }
}

/// Lowers an expression: the state behind it and the first cell of its
/// result, or the reason why it cannot be lowered.
pub open spec fn lower_expr(e: ExprModel, ctx: Ctx, sizes: Seq<Binding>) -> Result<Placed, CompileError>
    decreases e, 2int,
{
    match e.kind {
        ExpressionType::Binary => match (e.left, e.operator, e.right) {
            (Some(l), Some(op), Some(r)) => if !binary_operator(op.kind) {
                Err(CompileError::Malformed)
            } else {
                match lower_expr(*l, ctx, sizes) {
                    Err(err) => Err(err),
                    Ok(left) => match lower_expr(*r, left.ctx, sizes) {
                        Err(err) => Err(err),
                        Ok(right) => binary(op.kind, left.cell, right.cell, right.ctx),
                    },
                }
            },
            _ => Err(CompileError::Malformed),
        },
        ExpressionType::Literal => lower_literal(e, ctx, sizes),
        ExpressionType::Call => lower_call(e, ctx, sizes),
        ExpressionType::Unary => Err(CompileError::Malformed),
    }
}

/// Lowers a literal: a number or a character to one cell, a string to its
/// characters and a zero, an identifier to a copy of the variable.
pub open spec fn lower_literal(e: ExprModel, ctx: Ctx, sizes: Seq<Binding>) -> Result<Placed, CompileError> {
    match e.value {
        None => Err(CompileError::Malformed),
        Some(token) => if token.kind == TokenType::Number {
            scalar(wrap(token.number as int), ctx)
        } else if token.kind == TokenType::Char {
            scalar(char_cell(token.char), ctx)
        } else if token.kind == TokenType::String {
            string_literal(token.string, ctx)
        } else if token.kind == TokenType::Identifier {
            match (lookup(ctx.frames, token.string), find(sizes, token.string)) {
                (Some(slot), Some(info)) => variable_copy(slot, info.size, ctx),
                _ => Err(CompileError::UnknownVariable),
            }
        } else {
            Err(CompileError::Malformed)
        },
    }
}

/// Lowers a call: `print`, `read`, `open` and `write` are known, nothing
/// else is.
pub open spec fn lower_call(e: ExprModel, ctx: Ctx, sizes: Seq<Binding>) -> Result<Placed, CompileError>
    decreases e, 1int,
{
    match e.target {
        None => Err(CompileError::Malformed),
        Some(target) => if target.string == "print"@ {
            lower_print(e, ctx, sizes)
        } else if target.string == "read"@ {
            match count_argument(e) {
                None => Err(CompileError::ReadNeedsLiteral),
                Some(n) => read_call(n, ctx),
            }
        } else if target.string == "open"@ {
            lower_open(e, ctx, sizes)
        } else if target.string == "write"@ {
            lower_write(e, ctx, sizes)
        } else {
            Err(CompileError::UnknownFunction)
        },
    }
}

/// Lowers `print(e)`: the argument, then one output per cell of its size.
pub open spec fn lower_print(e: ExprModel, ctx: Ctx, sizes: Seq<Binding>) -> Result<Placed, CompileError>
    decreases e, 0int,
{
    match argument(e, 0) {
        None => Err(CompileError::Malformed),
        Some(arg) => match lower_expr(arg, ctx, sizes) {
            Err(err) => Err(err),
            Ok(placed) => match type_of(arg, sizes) {
                Err(err) => Err(err),
                Ok(info) => print_call(placed, info.size),
            },
        },
    }
}

/// Lowers `open(path)`: the argument, then the request.
pub open spec fn lower_open(e: ExprModel, ctx: Ctx, sizes: Seq<Binding>) -> Result<Placed, CompileError>
    decreases e, 0int,
{
    match argument(e, 0) {
        None => Err(CompileError::Malformed),
        Some(arg) => match lower_expr(arg, ctx, sizes) {
            Err(err) => Err(err),
            Ok(placed) => match payload(arg, 0, sizes, placed.ctx.last_return) {
                Err(err) => Err(err),
                Ok(len) => open_call(placed, len),
            },
        },
    }
}

/// Lowers `write(handle, data)`: the data, the head of the request, the
/// handle, and the rest of the request.
pub open spec fn lower_write(e: ExprModel, ctx: Ctx, sizes: Seq<Binding>) -> Result<Placed, CompileError>
    decreases e, 0int,
{
    match (argument(e, 0), argument(e, 1)) {
        (Some(first), Some(second)) => match lower_expr(second, ctx, sizes) {
            Err(err) => Err(err),
            Ok(data) => match payload(second, 1, sizes, data.ctx.last_return) {
                Err(err) => Err(err),
                Ok(len) => match write_request(data, len) {
                    Err(err) => Err(err),
                    Ok(request) => match lower_expr(first, request.ctx, sizes) {
                        Err(err) => Err(err),
                        Ok(handle) => write_call(request.cell, handle, data.cell, len),
                    },
                },
            },
        },
        _ => Err(CompileError::Malformed),
    }
}

/// Lowers a statement: the state behind it, or the reason why it cannot
/// be lowered.
///
/// An `if` lowers its condition into the current block and its body into
/// a block of its own. A `while` does the same and then lowers the
/// condition once more at the end of the body, moving the fresh value into
/// the condition cell. A declaration installs the variable on the cells
/// of its lowered expression, an assignment moves the lowered expression
/// into the variable's first cell. A `return` lowers to nothing.
pub open spec fn lower_stmt(s: StmtModel, ctx: Ctx, sizes: Seq<Binding>) -> Result<Ctx, CompileError>
    decreases s, 0int,
{
    match s.kind {
        StatementType::If => match (s.condition, s.block) {
            (Some(c), Some(body)) => match lower_expr(c, ctx, sizes) {
                Err(e) => Err(e),
                Ok(guard) => match lower_stmts(
                    body,
                    body.len() as int,
                    guard.ctx.with_code(Seq::empty()),
                    sizes,
                ) {
                    Err(e) => Err(e),
                    Ok(inner) => Ok(inner.with_code(guard.ctx.code.push(Step::If(guard.cell, inner.code)))),
                },
            },
            _ => Err(CompileError::Malformed),
        },
        StatementType::While => match (s.condition, s.block) {
            (Some(c), Some(body)) => match lower_expr(c, ctx, sizes) {
                Err(e) => Err(e),
                Ok(guard) => match lower_stmts(
                    body,
                    body.len() as int,
                    guard.ctx.with_code(Seq::empty()),
                    sizes,
                ) {
                    Err(e) => Err(e),
                    Ok(inner) => match lower_expr(c, inner, sizes) {
                        Err(e) => Err(e),
                        Ok(again) => Ok(
                            again.ctx.with_code(
                                guard.ctx.code.push(
                                    Step::While(
                                        guard.cell,
                                        again.ctx.code.push(Step::Move(Move { a: guard.cell, b: again.cell })),
                                    ),
                                ),
                            ),
                        ),
                    },
                },
            },
            _ => Err(CompileError::Malformed),
        },
        StatementType::VarDecl => match (s.typename, s.name, s.expression) {
            (Some(typename), Some(name), Some(e)) => match lower_expr(e, ctx, sizes) {
                Err(err) => Err(err),
                Ok(placed) => Ok(
                    Ctx {
                        frames: define(
                            placed.ctx.frames,
                            Slot {
                                typename: typename.string,
                                name: name.string,
                                expression: e,
                                cell: placed.cell,
                            },
                        ),
                        ..placed.ctx
                    },
                ),
            },
            _ => Err(CompileError::Malformed),
        },
        StatementType::Assignment => match (s.name, s.expression) {
            (Some(name), Some(e)) => match lower_expr(e, ctx, sizes) {
                Err(err) => Err(err),
                Ok(placed) => match lookup(placed.ctx.frames, name.string) {
                    None => Err(CompileError::UnknownVariable),
                    Some(slot) => Ok(placed.ctx.emit(Step::Move(Move { a: slot.cell, b: placed.cell }))),
                },
            },
            _ => Err(CompileError::Malformed),
        },
        StatementType::Expression => match s.expression {
            Some(e) => match lower_expr(e, ctx, sizes) {
                Err(err) => Err(err),
                Ok(placed) => Ok(placed.ctx),
            },
            None => Err(CompileError::Malformed),
        },
        StatementType::Return => Ok(ctx),
    }
}

/// Lowers the first `k` statements of a sequence, one after the other.
pub open spec fn lower_stmts(s: Seq<StmtModel>, k: int, ctx: Ctx, sizes: Seq<Binding>) -> Result<
    Ctx,
    CompileError,
>
    decreases s, k,
{
    if 0 < k <= s.len() {
        match lower_stmts(s, k - 1, ctx, sizes) {
            Err(e) => Err(e),
            Ok(before) => lower_stmt(s[k - 1], before, sizes),
        }
    } else {
        Ok(ctx)
    }
}

/// A statement that cannot be lowered stops the lowering of the sequence.
pub proof fn lemma_lowering_stops(s: Seq<StmtModel>, k: int, n: int, ctx: Ctx, sizes: Seq<Binding>)
    requires
        0 <= k <= n <= s.len(),
        lower_stmts(s, k, ctx, sizes) is Err,
    ensures
        lower_stmts(s, n, ctx, sizes) == lower_stmts(s, k, ctx, sizes),
    decreases n - k,
{
    if k < n {
        lemma_lowering_stops(s, k, n - 1, ctx, sizes);
    }
}

/// A cell that cannot be filled stops the spreading.
pub proof fn lemma_spread_stops(ctx: Ctx, dest: int, source: int, k: nat, n: nat)
    requires
        k <= n,
        spread(ctx, dest, source, k) is Err,
    ensures
        spread(ctx, dest, source, n) == spread(ctx, dest, source, k),
    decreases n - k,
{
    if k < n {
        lemma_spread_stops(ctx, dest, source, k, (n - 1) as nat);
    }
}

/// The outcome of lowering an expression is the one that the rules
/// determine: the same error, or the same cell with the same state.
pub open spec fn lowered_as(r: Result<usize, CompileError>, want: Result<Placed, CompileError>, now: Ctx) -> bool {
    match want {
        Ok(p) => r == Ok::<usize, CompileError>(p.cell) && now == p.ctx,
        Err(e) => r == Err::<usize, CompileError>(e),
    }
}

/// The outcome of lowering a statement is the one that the rules determine.
pub open spec fn stated_as(r: Result<(), CompileError>, want: Result<Ctx, CompileError>, now: Ctx) -> bool {
    match want {
        Ok(ctx) => r is Ok && now == ctx,
        Err(e) => r == Err::<(), CompileError>(e),
    }
}

/// The cell value of a number literal.
pub fn number_cell(n: i64) -> (r: CellSize)
    ensures
        r == wrap(n as int),
{
    if n >= 0 {
        ((n as u64) % 0x100u64) as CellSize
    } else {
        let below: u64 = (-(n + 1)) as u64;
        let rest: u64 = below % 0x100u64;
        assert((n as int) % 0x100 == 0xff - rest) by {
            assert(n as int == -(below as int) - 1);
        }
        (0xffu64 - rest) as CellSize
    }
}

/// The cell value of a character: its code, wrapped.
pub open spec fn char_cell(c: char) -> CellSize {
    wrap(c as int)
}

/// The cell value of a character.
pub fn cell_of_char(c: char) -> (r: CellSize)
    ensures
        r == char_cell(c),
{
    ((c as u32) % 0x100u32) as CellSize
}

/// Whether a binary operation with this operator can be lowered.
pub fn is_binary_operator(kind: TokenType) -> (r: bool)
    ensures
        r == binary_operator(kind),
{
    kind == TokenType::EqualEqual || kind == TokenType::NotEqual || kind == TokenType::GT || kind
        == TokenType::GTEqual || kind == TokenType::LT || kind == TokenType::LTEqual || kind
        == TokenType::Plus || kind == TokenType::Minus || kind == TokenType::Times || kind
        == TokenType::Slash
}

/// Lowers the syntax tree of a source to instructions and emits their text.
pub struct Compiler<'a> {
    pub gen: Generator,
    pub scope: Scope,
    pub parser: Parser<'a>,
    pub output: String,
    pub analyzer: Analyzer<'a>,
    pub last_return: ValueInfo,
}

impl<'a> Compiler<'a> {
    /// The lowering state over the block `code`.
    pub open spec fn ctx(&self, code: Seq<Step>) -> Ctx {
        Ctx { memory: self.gen.memory@, frames: self.scope@, last_return: self.last_return@, code }
    }

    /// What the analyzer found.
    pub open spec fn sizes(&self) -> Seq<Binding> {
        self.analyzer.scope.frame()
    }

    /// The pool is well-formed and both parsers stand inside their source.
    pub open spec fn wf(&self) -> bool {
        &&& self.gen.wf()
        &&& self.parser.wf()
        &&& self.analyzer.parser.wf()
    }

    /// Lowering leaves the parser, the analyzer, the output and the head
    /// as they were.
    pub open spec fn steady(&self, before: &Compiler<'a>) -> bool {
        &&& self.gen.wf()
        &&& self.parser == before.parser
        &&& self.analyzer == before.analyzer
        &&& self.output == before.output
        &&& self.gen.cell == before.gen.cell
        &&& self.gen.indent == before.gen.indent
    }

    pub fn new(source: &'a [u8]) -> (c: Compiler<'a>)
        ensures
            c.wf(),
            c.parser.source() == source@,
            c.parser.position() == 0,
            c.analyzer.parser.source() == source@,
            c.analyzer.parser.position() == 0,
            c.sizes() == Seq::<Binding>::empty(),
            c.gen@ == (crate::memory::GeneratorModel { cell: 0, indent: 0, memory: PoolModel::empty() }),
            c.scope@ == seq![Seq::<Slot>::empty()],
            c.last_return@ == crate::analyzer::unknown_info(),
            c.output@ == Seq::<char>::empty(),
            c.parser.tokenizer.placed(),
            c.analyzer.parser.tokenizer.placed(),
    {
        Compiler {
            gen: Generator::new(),
            scope: Scope::new(),
            parser: Parser::new(Tokenizer::new(source)),
            output: String::new(),
            analyzer: Analyzer::new(source),
            last_return: ValueInfo::default(),
        }
    }

    /// Allocates `n` cells if there is room for them.
    fn take(&mut self, n: usize) -> (r: Result<usize, CompileError>)
        requires
            old(self).gen.wf(),
        ensures
            final(self).steady(old(self)),
            final(self).scope == old(self).scope,
            final(self).last_return == old(self).last_return,
            old(self).ctx(Seq::empty()).room(n as int) ==> r == Ok::<usize, CompileError>(
                old(self).ctx(Seq::empty()).base(n as int),
            ) && final(self).gen.memory@ == old(self).gen.memory@.allocate(n as nat) && r->Ok_0 + n
                <= final(self).gen.memory@.cells.len(),
            !old(self).ctx(Seq::empty()).room(n as int) ==> r == Err::<usize, CompileError>(
                CompileError::OutOfCells,
            ) && final(self).gen.memory@ == old(self).gen.memory@,
    {
        if n > usize::MAX - self.gen.memory.current {
            return Err(CompileError::OutOfCells);
        }
        proof {
            if self.gen.memory@.reuses(n as nat) {
                assert(self.gen.memory@.free[self.gen.memory@.free.len() - 1] == self.gen.memory@.free.last());
            }
        }
        Ok(self.gen.memory.allocate(n))
    }

    /// A value of one cell.
    fn scalar(&mut self, branch: &mut BFBlock, value: CellSize) -> (r: Result<usize, CompileError>)
        requires
            old(self).gen.wf(),
        ensures
            final(self).steady(old(self)),
            lowered_as(r, scalar(value, old(self).ctx(old(branch)@)), final(self).ctx(final(branch)@)),
    {
        reveal(scalar);
        let loc = self.take(1)?;
        branch.add(Instr::SetCell(SetCell::new(loc, value)));
        Ok(loc)
    }

    /// A string: one cell per character and a zero behind them.
    fn string_literal(&mut self, branch: &mut BFBlock, value: &String) -> (r: Result<usize, CompileError>)
        requires
            old(self).gen.wf(),
        ensures
            final(self).steady(old(self)),
            lowered_as(r, string_literal(value@, old(self).ctx(old(branch)@)), final(self).ctx(final(branch)@)),
    {
        reveal(string_literal);
        let n = value.as_str().unicode_len();
        if n == usize::MAX {
            return Err(CompileError::OutOfCells);
        }
        let loc = self.take(n + 1)?;
        let ghost before = branch@;
        let mut i: usize = 0;
        while i < n
            invariant
                i <= n,
                n == value@.len(),
                loc + n + 1 <= usize::MAX,
                branch@ == before + Seq::new(i as nat, |k: int| set_step(loc + k, char_cell(value@[k]))),
            decreases n - i,
        {
            let c = value.as_str().get_char(i);
            branch.add(Instr::SetCell(SetCell::new(loc + i, cell_of_char(c))));
            i = i + 1;
            assert(branch@ =~= before + Seq::new(i as nat, |k: int| set_step(loc + k, char_cell(value@[k]))));
        }
        branch.add(Instr::SetCell(SetCell::new(loc + n, 0)));
        Ok(loc)
    }

    /// The value of a variable, copied to fresh cells.
    fn variable_copy(&mut self, branch: &mut BFBlock, from: usize, size: usize) -> (r: Result<
        usize,
        CompileError,
    >)
        requires
            old(self).gen.wf(),
        ensures
            final(self).steady(old(self)),
            forall|slot: Slot|
                slot.cell == from ==> lowered_as(
                    r,
                    #[trigger] variable_copy(slot, size, old(self).ctx(old(branch)@)),
                    final(self).ctx(final(branch)@),
                ),
    {
        reveal(variable_copy);
        if size > usize::MAX - from {
            return Err(CompileError::OutOfCells);
        }
        let cell = self.take(size)?;
        let tmp = self.take(1)?;
        let ghost before = branch@;
        let mut i: usize = 0;
        while i < size
            invariant
                i <= size,
                cell + size <= usize::MAX,
                from + size <= usize::MAX,
                branch@ == before + Seq::new(i as nat, |k: int| copy_step(cell + k, tmp, from + k)),
            decreases size - i,
        {
            branch.add(Instr::Copy(crate::instructions::Copy::new(cell + i, tmp, from + i)));
            i = i + 1;
            assert(branch@ =~= before + Seq::new(i as nat, |k: int| copy_step(cell + k, tmp, from + k)));
        }
        self.gen.memory.free(tmp);
        Ok(cell)
    }

    /// A comparison through a fresh seven-cell block.
    fn compare(&mut self, branch: &mut BFBlock, kind: TokenType, left: usize, right: usize) -> (r: Result<
        usize,
        CompileError,
    >)
        requires
            old(self).gen.wf(),
        ensures
            final(self).steady(old(self)),
            lowered_as(
                r,
                compare(kind, left, right, old(self).ctx(old(branch)@)),
                final(self).ctx(final(branch)@),
            ),
    {
        reveal(compare);
        if 7 > usize::MAX - self.gen.memory.current {
            return Err(CompileError::OutOfCells);
        }
        let mut dst = Distance::new(left, right);
        let gt = dst.gt(&mut self.gen);
        let lt = dst.lt(&mut self.gen);
        let tmp = self.take(1)?;
        if kind == TokenType::GT {
            branch.add(Instr::SetCell(SetCell::new(tmp, 1)));
            branch.add(Instr::Sub(Sub::new(left, tmp)));
            branch.add(Instr::Distance(dst));
            return Ok(gt);
        }
        if kind == TokenType::GTEqual {
            branch.add(Instr::Distance(dst));
            branch.add(Instr::BoolNegate(BoolNegate::new(lt, tmp)));
            branch.add(Instr::Add(Add::new(gt, lt)));
            return Ok(gt);
        }
        if kind == TokenType::LT {
            branch.add(Instr::SetCell(SetCell::new(tmp, 1)));
            branch.add(Instr::Sub(Sub::new(right, tmp)));
            branch.add(Instr::Distance(dst));
            return Ok(lt);
        }
        branch.add(Instr::Distance(dst));
        branch.add(Instr::BoolNegate(BoolNegate::new(gt, tmp)));
        branch.add(Instr::Add(Add::new(lt, gt)));
        Ok(lt)
    }

    /// A binary operation on two lowered operands.
    fn binary(&mut self, branch: &mut BFBlock, kind: TokenType, left: usize, right: usize) -> (r: Result<
        usize,
        CompileError,
    >)
        requires
            old(self).gen.wf(),
        ensures
            final(self).steady(old(self)),
            lowered_as(
                r,
                binary(kind, left, right, old(self).ctx(old(branch)@)),
                final(self).ctx(final(branch)@),
            ),
    {
        reveal(binary);
        if kind == TokenType::EqualEqual {
            let tmp = self.take(1)?;
            branch.add(Instr::Sub(Sub::new(left, right)));
            branch.add(Instr::BoolNegate(BoolNegate::new(left, tmp)));
            return Ok(left);
        }
        if kind == TokenType::NotEqual || kind == TokenType::Minus {
            branch.add(Instr::Sub(Sub::new(left, right)));
            return Ok(left);
        }
        if kind == TokenType::Plus {
            branch.add(Instr::Add(Add::new(left, right)));
            return Ok(left);
        }
        if kind == TokenType::Times {
            if 4 > usize::MAX - self.gen.memory.current {
                return Err(CompileError::OutOfCells);
            }
            let mut mul = Mul::new(left, right);
            let result = mul.result(&mut self.gen);
            branch.add(Instr::Mul(mul));
            return Ok(result);
        }
        if kind == TokenType::Slash {
            if 6 > usize::MAX - self.gen.memory.current {
                return Err(CompileError::OutOfCells);
            }
            let mut div = Div::new(left, right);
            let result = div.result(&mut self.gen);
            branch.add(Instr::Div(div));
            return Ok(result);
        }
        if is_binary_operator(kind) {
            return self.compare(branch, kind, left, right);
        }
        Err(CompileError::Malformed)
    }

    /// `print`: one output per cell.
    fn print_call(&mut self, branch: &mut BFBlock, arg: usize, size: usize) -> (r: Result<usize, CompileError>)
        requires
            old(self).gen.wf(),
        ensures
            final(self).steady(old(self)),
            lowered_as(
                r,
                print_call(Placed { ctx: old(self).ctx(old(branch)@), cell: arg }, size),
                final(self).ctx(final(branch)@),
            ),
    {
        reveal(print_call);
        if size > usize::MAX - arg {
            return Err(CompileError::OutOfCells);
        }
        let ghost before = branch@;
        let mut i: usize = 0;
        while i < size
            invariant
                i <= size,
                arg + size <= usize::MAX,
                branch@ == before + Seq::new(
                    i as nat,
                    |k: int| Step::Output(Output { cell: (arg + k) as usize }),
                ),
            decreases size - i,
        {
            branch.add(Instr::Output(Output::new(arg + i)));
            i = i + 1;
            assert(branch@ =~= before + Seq::new(
                i as nat,
                |k: int| Step::Output(Output { cell: (arg + k) as usize }),
            ));
        }
        self.last_return = ValueInfo::new(String::from_str("void"), 0);
        Ok(arg)
    }

    /// `read(n)`: `n` cells of input and a zero behind them.
    fn read_call(&mut self, branch: &mut BFBlock, n: usize) -> (r: Result<usize, CompileError>)
        requires
            old(self).gen.wf(),
        ensures
            final(self).steady(old(self)),
            lowered_as(r, read_call(n, old(self).ctx(old(branch)@)), final(self).ctx(final(branch)@)),
    {
        reveal(read_call);
        if n == usize::MAX {
            return Err(CompileError::OutOfCells);
        }
        let cell = self.take(n + 1)?;
        let ghost before = branch@;
        let mut i: usize = 0;
        while i < n
            invariant
                i <= n,
                cell + n + 1 <= usize::MAX,
                branch@ == before + Seq::new(i as nat, |k: int| Step::Input(Input { cell: (cell + k) as usize })),
            decreases n - i,
        {
            branch.add(Instr::Input(Input::new(cell + i)));
            i = i + 1;
            assert(branch@ =~= before + Seq::new(
                i as nat,
                |k: int| Step::Input(Input { cell: (cell + k) as usize }),
            ));
        }
        branch.add(Instr::SetCell(SetCell::new(cell + n, 0)));
        self.last_return = ValueInfo::new(String::from_str("string"), n);
        Ok(cell)
    }

    /// The number of cells that the argument of `open` or `write` occupies.
    fn payload(&self, arg: &Expression, extra: usize) -> (r: Result<usize, CompileError>)
        ensures
            match payload(arg@, extra as int, self.sizes(), self.last_return@) {
                Ok(len) => if len <= usize::MAX {
                    r == Ok::<usize, CompileError>(len as usize)
                } else {
                    r == Err::<usize, CompileError>(CompileError::OutOfCells)
                },
                Err(e) => r == Err::<usize, CompileError>(e),
            },
            payload(arg@, extra as int, self.sizes(), self.last_return@) is Ok ==> payload(
                arg@,
                extra as int,
                self.sizes(),
                self.last_return@,
            )->Ok_0 >= 0,
    {
        reveal(payload);
        proof {
            lemma_expr_parts(*arg);
        }
        match arg.kind {
            ExpressionType::Literal => {
                match &arg.value {
                    Some(token) => {
                        if token.kind == TokenType::String {
                            let n = token.string.as_str().unicode_len();
                            if extra > usize::MAX - n {
                                return Err(CompileError::OutOfCells);
                            }
                            return Ok(n + extra);
                        }
                        if token.kind == TokenType::Identifier {
                            return match self.analyzer.scope.get(token.string.as_str()) {
                                Some(variable) => Ok(variable.value.size),
                                None => Err(CompileError::UnknownVariable),
                            };
                        }
                        Ok(1)
                    },
                    None => Ok(1),
                }
            },
            ExpressionType::Call => Ok(self.last_return.size),
            _ => Ok(1),
        }
    }

    /// `open(path)` once the path is lowered.
    fn open_call(&mut self, branch: &mut BFBlock, arg: usize, len: usize) -> (r: Result<usize, CompileError>)
        requires
            old(self).gen.wf(),
        ensures
            final(self).steady(old(self)),
            lowered_as(
                r,
                open_call(Placed { ctx: old(self).ctx(old(branch)@), cell: arg }, len as int),
                final(self).ctx(final(branch)@),
            ),
    {
        reveal(open_call);
        if len == usize::MAX || len > usize::MAX - arg {
            return Err(CompileError::OutOfCells);
        }
        let op = self.take(len + 1)?;
        let tmp = self.take(1)?;
        branch.add(Instr::SetCell(SetCell::new(op, 1)));
        let ghost before = branch@;
        let mut i: usize = 0;
        while i < len
            invariant
                i <= len,
                op + len + 1 <= usize::MAX,
                arg + len <= usize::MAX,
                branch@ == before + Seq::new(i as nat, |k: int| copy_step(op + k + 1, tmp, arg + k)),
            decreases len - i,
        {
            branch.add(Instr::Copy(crate::instructions::Copy::new(op + i + 1, tmp, arg + i)));
            i = i + 1;
            assert(branch@ =~= before + Seq::new(i as nat, |k: int| copy_step(op + k + 1, tmp, arg + k)));
        }
        branch.add(Instr::Command(Command::new(op)));
        self.last_return = ValueInfo::new(String::from_str("int"), 1);
        Ok(op)
    }

    /// The request of `write` before the handle is lowered.
    fn write_request(&mut self, branch: &mut BFBlock, data: usize, len: usize) -> (r: Result<usize, CompileError>)
        requires
            old(self).gen.wf(),
        ensures
            final(self).steady(old(self)),
            lowered_as(
                r,
                write_request(Placed { ctx: old(self).ctx(old(branch)@), cell: data }, len as int),
                final(self).ctx(final(branch)@),
            ),
            r is Ok ==> r->Ok_0 + len + 2 <= usize::MAX && data + len <= usize::MAX,
    {
        reveal(write_request);
        if len == 0 {
            return Err(CompileError::EmptyWrite);
        }
        if len > usize::MAX - 2 || len > usize::MAX - data {
            return Err(CompileError::OutOfCells);
        }
        let op = self.take(len + 2)?;
        branch.add(Instr::SetCell(SetCell::new(op, 2)));
        Ok(op)
    }

    /// `write(handle, data)` once both are lowered.
    fn write_call(&mut self, branch: &mut BFBlock, op: usize, handle: usize, data: usize, len: usize) -> (r:
        Result<usize, CompileError>)
        requires
            old(self).gen.wf(),
            op + len + 2 <= usize::MAX,
            data + len <= usize::MAX,
        ensures
            final(self).steady(old(self)),
            lowered_as(
                r,
                write_call(op, Placed { ctx: old(self).ctx(old(branch)@), cell: handle }, data, len as int),
                final(self).ctx(final(branch)@),
            ),
    {
        reveal(write_call);
        let tmp = self.take(1)?;
        branch.add(Instr::Copy(crate::instructions::Copy::new(op + 1, tmp, handle)));
        let ghost first = self.ctx(branch@);
        let mut i: usize = 0;
        while i < len + 1
            invariant
                i <= len + 1,
                op + len + 2 <= usize::MAX,
                data + len <= usize::MAX,
                self.steady(old(self)),
                first == old(self).ctx(old(branch)@).take(1).emit(
                    copy_step(op + 1, old(self).ctx(old(branch)@).base(1), handle as int),
                ),
                spread(first, op + 2, data as int, i as nat) == Ok::<Ctx, CompileError>(self.ctx(branch@)),
            decreases len + 1 - i,
        {
            let scratch = match self.take(1) {
                Ok(cell) => cell,
                Err(e) => {
                    proof {
                        reveal(write_call);
                        assert(spread(first, op + 2, data as int, (i + 1) as nat) is Err);
                        lemma_spread_stops(first, op + 2, data as int, (i + 1) as nat, (len + 1) as nat);
                    }
                    return Err(e);
                },
            };
            branch.add(Instr::Copy(crate::instructions::Copy::new(op + i + 2, scratch, data + i)));
            i = i + 1;
        }
        branch.add(Instr::Command(Command::new(op)));
        self.last_return = ValueInfo::new(String::from_str("int"), 1);
        Ok(op)
    }

    /// Lowers an expression into `branch` and returns the first cell of its
    /// result, leaving behind what was lowered before an error.
    fn lower(&mut self, branch: &mut BFBlock, expr: &Expression) -> (r: Result<usize, CompileError>)
        requires
            old(self).gen.wf(),
        ensures
            final(self).steady(old(self)),
            lowered_as(
                r,
                lower_expr(expr@, old(self).ctx(old(branch)@), old(self).sizes()),
                final(self).ctx(final(branch)@),
            ),
        decreases expr, 2int,
    {
        proof {
            lemma_expr_parts(*expr);
        }
        match expr.kind {
            ExpressionType::Binary => {
                let (l, op, r) = match (&expr.left, &expr.operator, &expr.right) {
                    (Some(l), Some(op), Some(r)) => (l, op, r),
                    _ => {
                        return Err(CompileError::Malformed);
                    },
                };
                if !is_binary_operator(op.kind) {
                    return Err(CompileError::Malformed);
                }
                let left = self.lower(branch, l)?;
                let right = self.lower(branch, r)?;
                self.binary(branch, op.kind, left, right)
            },
            ExpressionType::Literal => self.lower_literal(branch, expr),
            ExpressionType::Call => self.lower_call(branch, expr),
            ExpressionType::Unary => Err(CompileError::Malformed),
        }
    }

    /// Lowers a literal.
    fn lower_literal(&mut self, branch: &mut BFBlock, expr: &Expression) -> (r: Result<usize, CompileError>)
        requires
            old(self).gen.wf(),
        ensures
            final(self).steady(old(self)),
            lowered_as(
                r,
                lower_literal(expr@, old(self).ctx(old(branch)@), old(self).sizes()),
                final(self).ctx(final(branch)@),
            ),
    {
        proof {
            lemma_expr_parts(*expr);
        }
        let token = match &expr.value {
            Some(token) => token,
            None => {
                return Err(CompileError::Malformed);
            },
        };
        if token.kind == TokenType::Number {
            return self.scalar(branch, number_cell(token.number));
        }
        if token.kind == TokenType::Char {
            return self.scalar(branch, cell_of_char(token.char));
        }
        if token.kind == TokenType::String {
            return self.string_literal(branch, &token.string);
        }
        if token.kind == TokenType::Identifier {
            let from = match self.scope.cell_of(&token.string) {
                Some(cell) => cell,
                None => {
                    return Err(CompileError::UnknownVariable);
                },
            };
            let size = match self.analyzer.scope.get(token.string.as_str()) {
                Some(variable) => variable.value.size,
                None => {
                    return Err(CompileError::UnknownVariable);
                },
            };
            return self.variable_copy(branch, from, size);
        }
        Err(CompileError::Malformed)
    }

    /// Lowers a call of an intrinsic.
    fn lower_call(&mut self, branch: &mut BFBlock, expr: &Expression) -> (r: Result<usize, CompileError>)
        requires
            old(self).gen.wf(),
        ensures
            final(self).steady(old(self)),
            lowered_as(
                r,
                lower_call(expr@, old(self).ctx(old(branch)@), old(self).sizes()),
                final(self).ctx(final(branch)@),
            ),
        decreases expr, 1int,
    {
        proof {
            lemma_expr_parts(*expr);
        }
        let target = match &expr.target {
            Some(target) => target,
            None => {
                return Err(CompileError::Malformed);
            },
        };
        if is_word(&target.string, "print") {
            return self.lower_print(branch, expr);
        }
        if is_word(&target.string, "read") {
            return match read_count(expr) {
                Some(n) => self.read_call(branch, n),
                None => Err(CompileError::ReadNeedsLiteral),
            };
        }
        if is_word(&target.string, "open") {
            return self.lower_open(branch, expr);
        }
        if is_word(&target.string, "write") {
            return self.lower_write(branch, expr);
        }
        Err(CompileError::UnknownFunction)
    }

    /// Lowers a call of `print`.
    fn lower_print(&mut self, branch: &mut BFBlock, expr: &Expression) -> (r: Result<usize, CompileError>)
        requires
            old(self).gen.wf(),
        ensures
            final(self).steady(old(self)),
            lowered_as(
                r,
                lower_print(expr@, old(self).ctx(old(branch)@), old(self).sizes()),
                final(self).ctx(final(branch)@),
            ),
        decreases expr, 0int,
    {
        proof {
            lemma_expr_parts(*expr);
        }
        let arg = match first_of(&expr.args, 0) {
            Some(arg) => arg,
            None => {
                return Err(CompileError::Malformed);
            },
        };
        assert(argument(expr@, 0) == Some(arg@));
        let cell = self.lower(branch, arg)?;
        let info = self.analyzer.type_of_expr(arg)?;
        self.print_call(branch, cell, info.size)
    }

    /// Lowers a call of `open`.
    fn lower_open(&mut self, branch: &mut BFBlock, expr: &Expression) -> (r: Result<usize, CompileError>)
        requires
            old(self).gen.wf(),
        ensures
            final(self).steady(old(self)),
            lowered_as(
                r,
                lower_open(expr@, old(self).ctx(old(branch)@), old(self).sizes()),
                final(self).ctx(final(branch)@),
            ),
        decreases expr, 0int,
    {
        proof {
            lemma_expr_parts(*expr);
        }
        let arg = match first_of(&expr.args, 0) {
            Some(arg) => arg,
            None => {
                return Err(CompileError::Malformed);
            },
        };
        assert(argument(expr@, 0) == Some(arg@));
        let cell = self.lower(branch, arg)?;
        proof {
            lemma_open_needs_room(
                Placed { ctx: self.ctx(branch@), cell },
                payload(arg@, 0, self.sizes(), self.last_return@),
            );
        }
        let len = self.payload(arg, 0)?;
        self.open_call(branch, cell, len)
    }

    /// Lowers a call of `write`.
    fn lower_write(&mut self, branch: &mut BFBlock, expr: &Expression) -> (r: Result<usize, CompileError>)
        requires
            old(self).gen.wf(),
        ensures
            final(self).steady(old(self)),
            lowered_as(
                r,
                lower_write(expr@, old(self).ctx(old(branch)@), old(self).sizes()),
                final(self).ctx(final(branch)@),
            ),
        decreases expr, 0int,
    {
        proof {
            lemma_expr_parts(*expr);
        }
        let (first, second) = match (first_of(&expr.args, 0), first_of(&expr.args, 1)) {
            (Some(first), Some(second)) => (first, second),
            _ => {
                return Err(CompileError::Malformed);
            },
        };
        assert(argument(expr@, 0) == Some(first@));
        assert(argument(expr@, 1) == Some(second@));
        let data = self.lower(branch, second)?;
        proof {
            lemma_write_needs_room(
                Placed { ctx: self.ctx(branch@), cell: data },
                payload(second@, 1, self.sizes(), self.last_return@),
            );
        }
        let len = self.payload(second, 1)?;
        let op = self.write_request(branch, data, len)?;
        let handle = self.lower(branch, first)?;
        self.write_call(branch, op, handle, data, len)
    }

    /// Lowers an expression into `branch` and returns the first cell of its
    /// result. If that fails, the block, the generator, the variables and
    /// what the last intrinsic returned are left as they were.
    pub fn compile_expression(&mut self, branch: &mut BFBlock, expr: Expression) -> (r: Result<
        usize,
        CompileError,
    >)
        requires
            old(self).gen.wf(),
        ensures
            final(self).steady(old(self)),
            lowered_as(
                r,
                lower_expr(expr@, old(self).ctx(old(branch)@), old(self).sizes()),
                final(self).ctx(final(branch)@),
            ),
            r is Err ==> final(self).ctx(final(branch)@) == old(self).ctx(old(branch)@) && final(self).gen@ == old(
                self,
            ).gen@,
    {
        let gen = self.gen.duplicate();
        let scope = self.scope.duplicate();
        let last_return = self.last_return.duplicate();
        let code = branch.duplicate();
        match self.lower(branch, &expr) {
            Ok(cell) => Ok(cell),
            Err(e) => {
                self.gen = gen;
                self.scope = scope;
                self.last_return = last_return;
                *branch = code;
                Err(e)
            },
        }
    }

    /// Lowers the statements of a block into `branch`.
    fn lower_block(&mut self, branch: &mut BFBlock, body: &Vec<Statement>) -> (r: Result<(), CompileError>)
        requires
            old(self).gen.wf(),
        ensures
            final(self).steady(old(self)),
            stated_as(
                r,
                lower_stmts(
                    stmt_models(body@),
                    body@.len() as int,
                    old(self).ctx(old(branch)@),
                    old(self).sizes(),
                ),
                final(self).ctx(final(branch)@),
            ),
        decreases body,
    {
        let ghost start = self.ctx(branch@);
        let ghost sizes = self.sizes();
        let mut k: usize = 0;
        while k < body.len()
            invariant
                k <= body.len(),
                self.steady(old(self)),
                sizes == self.sizes(),
                start == old(self).ctx(old(branch)@),
                sizes == old(self).sizes(),
                lower_stmts(stmt_models(body@), k as int, start, sizes) == Ok::<Ctx, CompileError>(
                    self.ctx(branch@),
                ),
            decreases body.len() - k,
        {
            assert(stmt_models(body@)[k as int] == body@[k as int]@);
            match self.lower_statement(branch, &body[k]) {
                Ok(()) => {},
                Err(e) => {
                    proof {
                        lemma_lowering_stops(stmt_models(body@), k + 1, body@.len() as int, start, sizes);
                    }
                    return Err(e);
                },
            }
            k = k + 1;
        }
        Ok(())
    }

    /// Lowers a statement into `branch`, leaving behind what was lowered
    /// before an error.
    fn lower_statement(&mut self, branch: &mut BFBlock, stmt: &Statement) -> (r: Result<(), CompileError>)
        requires
            old(self).gen.wf(),
        ensures
            final(self).steady(old(self)),
            stated_as(
                r,
                lower_stmt(stmt@, old(self).ctx(old(branch)@), old(self).sizes()),
                final(self).ctx(final(branch)@),
            ),
        decreases stmt,
    {
        proof {
            lemma_stmt_parts(*stmt);
        }
        match stmt.kind {
            StatementType::If => {
                let (condition, body) = match (&stmt.condition, &stmt.block) {
                    (Some(condition), Some(body)) => (condition, body),
                    _ => {
                        return Err(CompileError::Malformed);
                    },
                };
                let cell = self.lower(branch, condition)?;
                let mut check = If::new(cell);
                self.lower_block(&mut check.block, body)?;
                proof {
                    lemma_if_model(check);
                }
                branch.add(Instr::If(check));
                Ok(())
            },
            StatementType::While => {
                let (condition, body) = match (&stmt.condition, &stmt.block) {
                    (Some(condition), Some(body)) => (condition, body),
                    _ => {
                        return Err(CompileError::Malformed);
                    },
                };
                let cell = self.lower(branch, condition)?;
                let mut check = While::new(cell);
                self.lower_block(&mut check.block, body)?;
                let again = self.lower(&mut check.block, condition)?;
                check.block.add(Instr::Move(Move::new(cell, again)));
                proof {
                    lemma_while_model(check);
                }
                branch.add(Instr::While(check));
                Ok(())
            },
            StatementType::VarDecl => {
                let (typename, name, expr) = match (&stmt.typename, &stmt.name, &stmt.expression) {
                    (Some(typename), Some(name), Some(expr)) => (typename, name, expr),
                    _ => {
                        return Err(CompileError::Malformed);
                    },
                };
                let cell = self.lower(branch, expr)?;
                let var = Variable::new(typename.string.clone(), name.string.clone(), expr.duplicate(), cell);
                self.scope.define(&var);
                Ok(())
            },
            StatementType::Assignment => {
                let (name, expr) = match (&stmt.name, &stmt.expression) {
                    (Some(name), Some(expr)) => (name, expr),
                    _ => {
                        return Err(CompileError::Malformed);
                    },
                };
                let cell = self.lower(branch, expr)?;
                let target = match self.scope.cell_of(&name.string) {
                    Some(target) => target,
                    None => {
                        return Err(CompileError::UnknownVariable);
                    },
                };
                branch.add(Instr::Move(Move::new(target, cell)));
                Ok(())
            },
            StatementType::Expression => {
                let expr = match &stmt.expression {
                    Some(expr) => expr,
                    None => {
                        return Err(CompileError::Malformed);
                    },
                };
                self.lower(branch, expr)?;
                Ok(())
            },
            StatementType::Return => Ok(()),
        }
    }

    /// Lowers a statement into `branch`. If that fails, the block, the
    /// generator, the variables and what the last intrinsic returned are
    /// left as they were.
    pub fn compile_statement(&mut self, branch: &mut BFBlock, stmt: Statement) -> (r: Result<(), CompileError>)
        requires
            old(self).gen.wf(),
        ensures
            final(self).steady(old(self)),
            stated_as(
                r,
                lower_stmt(stmt@, old(self).ctx(old(branch)@), old(self).sizes()),
                final(self).ctx(final(branch)@),
            ),
            r is Err ==> final(self).ctx(final(branch)@) == old(self).ctx(old(branch)@) && final(self).gen@ == old(
                self,
            ).gen@,
    {
        let gen = self.gen.duplicate();
        let scope = self.scope.duplicate();
        let last_return = self.last_return.duplicate();
        let code = branch.duplicate();
        match self.lower_statement(branch, &stmt) {
            Ok(()) => Ok(()),
            Err(e) => {
                self.gen = gen;
                self.scope = scope;
                self.last_return = last_return;
                *branch = code;
                Err(e)
            },
        }
    }

    /// Emits the text of a block, instruction by instruction, replaying
    /// each on the generator before the next is emitted.
    ///
    /// The block is refused if one of its instructions is not valid on the
    /// tape as it is materialized, or reads or may mark a cell that is not
    /// allocated.
    pub fn finish(&mut self, branch: &BFBlock) -> (r: Result<String, CompileError>)
        requires
            old(self).gen.wf(),
        ensures
            final(self).gen.wf(),
            final(self).parser == old(self).parser,
            final(self).analyzer == old(self).analyzer,
            final(self).scope == old(self).scope,
            final(self).last_return == old(self).last_return,
            final(self).output == old(self).output,
            match finished(branch@, old(self).gen@) {
                Ok(done) => r is Ok && r->Ok_0@ == done.text && final(self).gen@ == done.gen,
                Err(e) => r == Err::<String, CompileError>(e) && final(self).gen@ == old(self).gen@,
            },
            r is Ok ==> crate::tape::strip(r->Ok_0@) == crate::tape::written(
                crate::coherence::block_code(branch@, branch@.len() as int, old(self).gen.cell),
            ),
    {
        if !branch.check(self.gen.memory.current) {
            return Err(CompileError::InvalidInstruction);
        }
        if !branch.live(&self.gen.memory) {
            return Err(CompileError::InvalidInstruction);
        }
        proof {
            crate::writing::lemma_block_text(
                branch@,
                branch@.len() as int,
                self.gen@,
                self.gen@.memory.cells.len() as int,
            );
        }
        let ghost start = self.gen@;
        let ghost code = branch@;
        let mut text = String::new();
        let mut k: usize = 0;
        while k < branch.instructions.len()
            invariant
                k <= branch.instructions@.len(),
                code == branch@,
                code.len() == branch.instructions@.len(),
                self.gen.wf(),
                self.parser == old(self).parser,
                self.analyzer == old(self).analyzer,
                self.scope == old(self).scope,
                self.last_return == old(self).last_return,
                self.output == old(self).output,
                start == old(self).gen@,
                block_valid(code, start.memory.cells.len() as int),
                block_live(code, start.memory.used),
                self.gen@.memory.cells.len() == start.memory.cells.len(),
                self.gen@.memory.used == start.memory.used,
                text@ == prefix_text(code, k as int, start),
                self.gen@ == start.at(prefix_exit(code, k as int, start.cell)).with(
                    prefix_pool(code, k as int, start.memory),
                ),
            decreases branch.instructions.len() - k,
        {
            assert(code[k as int] == branch.instructions@[k as int]@);
            proof {
                lemma_text_ignores_pool(
                    code[k as int],
                    self.gen@,
                    start.at(prefix_exit(code, k as int, start.cell)),
                    start.memory.cells.len() as int,
                );
            }
            let part = branch.instructions[k].emit(&mut self.gen);
            vstd::string::StringExecFns::append(&mut text, part.as_str());
            branch.instructions[k].run(&mut self.gen);
            k = k + 1;
        }
        Ok(text)
    }

    /// Parses and lowers the next statement of the source, if there is one;
    /// tells whether the end of the source was found instead. If that
    /// fails, the parser, the block, the generator, the variables and what
    /// the last intrinsic returned are left as they were.
    pub fn advance(&mut self, branch: &mut BFBlock) -> (r: Result<bool, CompileError>)
        requires
            old(self).gen.wf(),
            old(self).parser.wf(),
        ensures
            final(self).gen.wf(),
            final(self).parser.follows(&old(self).parser),
            final(self).analyzer == old(self).analyzer,
            final(self).output == old(self).output,
            final(self).gen.cell == old(self).gen.cell,
            final(self).gen.indent == old(self).gen.indent,
            advanced(
                r,
                lower_source(
                    old(self).parser.source(),
                    old(self).parser.position(),
                    old(self).ctx(old(branch)@),
                    old(self).sizes(),
                ),
                lower_source(
                    old(self).parser.source(),
                    final(self).parser.position(),
                    final(self).ctx(final(branch)@),
                    old(self).sizes(),
                ),
                final(self).ctx(final(branch)@),
            ),
            r == Ok::<bool, CompileError>(false) ==> old(self).parser.position() < final(self).parser.position(),
            r is Ok ==> program_end(old(self).parser.source(), old(self).parser.position()) == program_end(
                old(self).parser.source(),
                final(self).parser.position(),
            ),
            r == Ok::<bool, CompileError>(true) ==> final(self).parser.position() == program_end(
                old(self).parser.source(),
                old(self).parser.position(),
            ),
            r is Err ==> {
                &&& final(self).parser == old(self).parser
                &&& final(self).ctx(final(branch)@) == old(self).ctx(old(branch)@)
                &&& final(self).gen@ == old(self).gen@
            },
    {
        let gen = self.gen.duplicate();
        let scope = self.scope.duplicate();
        let last_return = self.last_return.duplicate();
        let code = branch.duplicate();
        let position = self.parser.tokenizer.position;
        let line = self.parser.tokenizer.line;
        let column = self.parser.tokenizer.column;
        match self.step_on(branch) {
            Ok(done) => Ok(done),
            Err(e) => {
                self.gen = gen;
                self.scope = scope;
                self.last_return = last_return;
                *branch = code;
                self.parser.tokenizer.position = position;
                self.parser.tokenizer.line = line;
                self.parser.tokenizer.column = column;
                Err(e)
            },
        }
    }

    /// Parses and lowers the next statement of the source, if there is one,
    /// leaving behind what was lowered before an error.
    fn step_on(&mut self, branch: &mut BFBlock) -> (r: Result<bool, CompileError>)
        requires
            old(self).gen.wf(),
            old(self).parser.wf(),
        ensures
            final(self).gen.wf(),
            final(self).parser.follows(&old(self).parser),
            final(self).analyzer == old(self).analyzer,
            final(self).output == old(self).output,
            final(self).gen.cell == old(self).gen.cell,
            final(self).gen.indent == old(self).gen.indent,
            advanced(
                r,
                lower_source(
                    old(self).parser.source(),
                    old(self).parser.position(),
                    old(self).ctx(old(branch)@),
                    old(self).sizes(),
                ),
                lower_source(
                    old(self).parser.source(),
                    final(self).parser.position(),
                    final(self).ctx(final(branch)@),
                    old(self).sizes(),
                ),
                final(self).ctx(final(branch)@),
            ),
            r == Ok::<bool, CompileError>(false) ==> old(self).parser.position() < final(self).parser.position(),
            r is Ok ==> program_end(old(self).parser.source(), old(self).parser.position()) == program_end(
                old(self).parser.source(),
                final(self).parser.position(),
            ),
            r == Ok::<bool, CompileError>(true) ==> final(self).parser.position() == program_end(
                old(self).parser.source(),
                old(self).parser.position(),
            ),
    {
        let ghost src = self.parser.source();
        let ghost here = self.parser.position();
        reveal(lower_source);
        proof {
            lemma_lex_advances(src, here);
        }
        let token = self.parser.tokenizer.peek_token()?;
        if token.kind == TokenType::EndOfFile {
            return Ok(true);
        }
        let stmt = self.parser.statement()?;
        proof {
            lemma_statement_advances(src, here);
        }
        self.lower_statement(branch, &stmt)?;
        Ok(false)
    }

    /// Compiles the source: analyzes it, lowers its statements one by one
    /// as they are parsed, and emits the text of the instructions.
    ///
    /// The compilation fails as soon as something is wrong, and then leaves
    /// nothing behind: the generator, the variables, what the last
    /// intrinsic returned, the sizes that the analyzer holds and the two
    /// parsers are as they were. `output` is never touched.
    pub fn compile(&mut self) -> (r: Result<String, CompileError>)
        requires
            old(self).wf(),
        ensures
            final(self).gen.wf(),
            final(self).output == old(self).output,
            final(self).parser.follows(&old(self).parser),
            final(self).analyzer.parser.follows(&old(self).analyzer.parser),
            r is Ok ==> {
                &&& final(self).parser.position() == program_end(
                    old(self).parser.source(),
                    old(self).parser.position(),
                )
                &&& final(self).analyzer.parser.position() == program_end(
                    old(self).analyzer.parser.source(),
                    old(self).analyzer.parser.position(),
                )
            },
            match compiled(
                old(self).analyzer.parser.source(),
                old(self).analyzer.parser.position(),
                old(self).analyzer.scope.frame(),
                old(self).parser.source(),
                old(self).parser.position(),
                old(self).ctx(Seq::empty()),
                old(self).gen@,
            ) {
                Ok(done) => r is Ok && r->Ok_0@ == done.text && final(self).gen@ == done.gen,
                Err(e) => r == Err::<String, CompileError>(e),
            },
            r is Ok ==> settled(
                scope_at_end(
                    old(self).analyzer.parser.source(),
                    old(self).analyzer.parser.position(),
                    old(self).analyzer.scope.frame(),
                ),
                old(self).parser.source(),
                old(self).parser.position(),
                old(self).ctx(Seq::empty()),
                final(self).ctx(Seq::empty()),
                final(self).sizes(),
            ),
            r is Err ==> {
                &&& final(self).gen@ == old(self).gen@
                &&& final(self).scope@ == old(self).scope@
                &&& final(self).last_return@ == old(self).last_return@
                &&& final(self).parser == old(self).parser
                &&& final(self).analyzer.parser == old(self).analyzer.parser
                &&& final(self).sizes() == old(self).sizes()
            },
    {
        let gen = self.gen.duplicate();
        let scope = self.scope.duplicate();
        let last_return = self.last_return.duplicate();
        let sizes = self.analyzer.scope.copied();
        let here = self.parser.tokenizer.position;
        let line = self.parser.tokenizer.line;
        let column = self.parser.tokenizer.column;
        let seen = self.analyzer.parser.tokenizer.position;
        let seen_line = self.analyzer.parser.tokenizer.line;
        let seen_column = self.analyzer.parser.tokenizer.column;
        match self.build() {
            Ok(text) => Ok(text),
            Err(e) => {
                self.gen = gen;
                self.scope = scope;
                self.last_return = last_return;
                self.analyzer.scope.variables = sizes;
                self.parser.tokenizer.position = here;
                self.parser.tokenizer.line = line;
                self.parser.tokenizer.column = column;
                self.analyzer.parser.tokenizer.position = seen;
                self.analyzer.parser.tokenizer.line = seen_line;
                self.analyzer.parser.tokenizer.column = seen_column;
                Err(e)
            },
        }
    }

    /// Analyzes, lowers and emits, changing the compiler as it goes.
    fn build(&mut self) -> (r: Result<String, CompileError>)
        requires
            old(self).wf(),
        ensures
            final(self).gen.wf(),
            final(self).output == old(self).output,
            final(self).parser.follows(&old(self).parser),
            final(self).analyzer.parser.follows(&old(self).analyzer.parser),
            r is Ok ==> {
                &&& final(self).parser.position() == program_end(
                    old(self).parser.source(),
                    old(self).parser.position(),
                )
                &&& final(self).analyzer.parser.position() == program_end(
                    old(self).analyzer.parser.source(),
                    old(self).analyzer.parser.position(),
                )
            },
            match compiled(
                old(self).analyzer.parser.source(),
                old(self).analyzer.parser.position(),
                old(self).analyzer.scope.frame(),
                old(self).parser.source(),
                old(self).parser.position(),
                old(self).ctx(Seq::empty()),
                old(self).gen@,
            ) {
                Ok(done) => r is Ok && r->Ok_0@ == done.text && final(self).gen@ == done.gen,
                Err(e) => r == Err::<String, CompileError>(e),
            },
            r is Ok ==> settled(
                scope_at_end(
                    old(self).analyzer.parser.source(),
                    old(self).analyzer.parser.position(),
                    old(self).analyzer.scope.frame(),
                ),
                old(self).parser.source(),
                old(self).parser.position(),
                old(self).ctx(Seq::empty()),
                final(self).ctx(Seq::empty()),
                final(self).sizes(),
            ),
    {
        let ghost target = compiled(
            self.analyzer.parser.source(),
            self.analyzer.parser.position(),
            self.analyzer.scope.frame(),
            self.parser.source(),
            self.parser.position(),
            self.ctx(Seq::empty()),
            self.gen@,
        );
        self.analyzer.analyze()?;
        let ghost sizes = self.sizes();
        let ghost src = self.parser.source();
        let ghost begin = self.parser.position();
        let mut branch = BFBlock::new();
        let ghost first = self.ctx(branch@);
        let ghost head = self.gen@;
        let ghost goal = lower_source(src, begin, first, sizes);
        loop
            invariant_except_break
                goal == lower_source(src, self.parser.position(), self.ctx(branch@), sizes),
            invariant
                self.gen.wf(),
                self.parser.wf(),
                self.parser.source() == src,
                self.parser.follows(&old(self).parser),
                self.analyzer.parser.follows(&old(self).analyzer.parser),
                program_end(src, begin) == program_end(src, self.parser.position()),
                self.analyzer.parser.position() == program_end(
                    old(self).analyzer.parser.source(),
                    old(self).analyzer.parser.position(),
                ),
                self.output == old(self).output,
                sizes == self.sizes(),
                self.gen.cell == head.cell,
                self.gen.indent == head.indent,
                target == (match goal {
                    Err(e) => Err::<Finished, CompileError>(e),
                    Ok(done) => finished(done.code, head.with(done.memory)),
                }),
                target == compiled(
                    old(self).analyzer.parser.source(),
                    old(self).analyzer.parser.position(),
                    old(self).analyzer.scope.frame(),
                    old(self).parser.source(),
                    old(self).parser.position(),
                    old(self).ctx(Seq::empty()),
                    old(self).gen@,
                ),
            ensures
                self.gen.wf(),
                self.output == old(self).output,
                self.parser.follows(&old(self).parser),
                self.analyzer.parser.follows(&old(self).analyzer.parser),
                self.parser.position() == program_end(src, begin),
                self.analyzer.parser.position() == program_end(
                    old(self).analyzer.parser.source(),
                    old(self).analyzer.parser.position(),
                ),
                self.gen.cell == head.cell,
                self.gen.indent == head.indent,
                goal == Ok::<Ctx, CompileError>(self.ctx(branch@)),
            decreases self.parser.remaining(),
        {
            if self.step_on(&mut branch)? {
                break ;
            }
        }
        self.finish(&branch)
    }
}

/// The outcome of one step through the source is the one that the rules
/// determine: at the end of the source the lowering is complete, after a
/// statement it goes on from behind it, and an error ends it.
pub open spec fn advanced(
    r: Result<bool, CompileError>,
    whole: Result<Ctx, CompileError>,
    rest: Result<Ctx, CompileError>,
    now: Ctx,
) -> bool {
    match r {
        Ok(done) => if done {
            whole == Ok::<Ctx, CompileError>(now)
        } else {
            whole == rest
        },
        Err(e) => whole == Err::<Ctx, CompileError>(e),
    }
}

/// A payload too large to count is too large for a request of `open`.
pub proof fn lemma_open_needs_room(arg: Placed, len: Result<int, CompileError>)
    ensures
        len is Ok && len->Ok_0 > usize::MAX ==> open_call(arg, len->Ok_0) == Err::<Placed, CompileError>(
            CompileError::OutOfCells,
        ),
{
    reveal(open_call);
}

/// A payload too large to count is too large for a request of `write`.
pub proof fn lemma_write_needs_room(data: Placed, len: Result<int, CompileError>)
    ensures
        len is Ok && len->Ok_0 > usize::MAX ==> write_request(data, len->Ok_0) == Err::<Placed, CompileError>(
            CompileError::OutOfCells,
        ),
{
    reveal(write_request);
}

/// After a compilation that succeeded, the analyzer holds the sizes that
/// the analysis found, and the variables and what the last intrinsic
/// returned are those that the lowering of the source leaves.
pub open spec fn settled(
    analysis: Result<Seq<Binding>, CompileError>,
    src: Seq<u8>,
    pos: int,
    before: Ctx,
    after: Ctx,
    sizes: Seq<Binding>,
) -> bool {
    &&& analysis is Ok
    &&& sizes == analysis->Ok_0
    &&& lower_source(src, pos, before, sizes) is Ok
    &&& after.frames == lower_source(src, pos, before, sizes)->Ok_0.frames
    &&& after.last_return == lower_source(src, pos, before, sizes)->Ok_0.last_return
}

/// What finishing a block yields: the text and the generator behind it.
pub struct Finished {
    pub text: Seq<char>,
    pub gen: GeneratorModel,
}

/// The text of a block and the generator after it was emitted and replayed,
/// provided that every instruction is valid on the tape as it is
/// materialized and reads and marks allocated cells only.
pub open spec fn finished(code: Seq<Step>, g: GeneratorModel) -> Result<Finished, CompileError> {
    if block_valid(code, g.memory.cells.len() as int) && block_live(code, g.memory.used) {
        Ok(
            Finished {
                text: prefix_text(code, code.len() as int, g),
                gen: g.at(prefix_exit(code, code.len() as int, g.cell)).with(
                    prefix_pool(code, code.len() as int, g.memory),
                ),
            },
        )
    } else {
        Err(CompileError::InvalidInstruction)
    }
}

/// Lowers the statements of the source from `pos` on, each as soon as it
/// is parsed.
#[verifier::opaque]
pub open spec fn lower_source(src: Seq<u8>, pos: int, ctx: Ctx, sizes: Seq<Binding>) -> Result<Ctx, CompileError>
    decreases src.len() - pos,
{
    match lex(src, pos) {
        Err(e) => Err(e),
        Ok(t) => if t.kind == TokenType::EndOfFile {
            Ok(ctx)
        } else {
            match g_statement(src, pos) {
                Err(e) => Err(e),
                Ok(s) => match lower_stmt(s.value, ctx, sizes) {
                    Err(e) => Err(e),
                    Ok(next) => if pos < s.end <= src.len() {
                        lower_source(src, s.end, next, sizes)
                    } else {
                        Err(CompileError::UnexpectedToken)
                    },
                },
            }
        },
    }
}

/// What compiling yields: the analysis of one reading of the source gives
/// the sizes, the lowering of another the instructions, and finishing them
/// the text.
pub open spec fn compiled(
    analyzed: Seq<u8>,
    analyzed_from: int,
    known: Seq<Binding>,
    src: Seq<u8>,
    pos: int,
    ctx: Ctx,
    g: GeneratorModel,
) -> Result<Finished, CompileError> {
    match scope_at_end(analyzed, analyzed_from, known) {
        Err(e) => Err(e),
        Ok(sizes) => match lower_source(src, pos, ctx, sizes) {
            Err(e) => Err(e),
            Ok(done) => finished(done.code, g.with(done.memory)),
        },
    }
}

/// The text of a valid instruction depends on the head and the
/// indentation, not on what the pool holds.
pub proof fn lemma_text_ignores_pool(i: Step, g: GeneratorModel, h: GeneratorModel, limit: int)
    requires
        instr_valid(i, limit),
        g.cell == h.cell,
        g.indent == h.indent,
    ensures
        instr_text(i, g) == instr_text(i, h),
    decreases i, 0int,
{
    match i {
        Step::If(condition, body) => {
            lemma_texts_ignore_pool(body, body.len() as int, g.at(condition), h.at(condition), limit);
        },
        Step::While(condition, body) => {
            lemma_texts_ignore_pool(body, body.len() as int, g.at(condition), h.at(condition), limit);
        },
        _ => {},
    }
}

/// The text of valid instructions depends on the head and the indentation,
/// not on what the pool holds.
pub proof fn lemma_texts_ignore_pool(s: Seq<Step>, k: int, g: GeneratorModel, h: GeneratorModel, limit: int)
    requires
        block_valid(s, limit),
        g.cell == h.cell,
        g.indent == h.indent,
    ensures
        prefix_text(s, k, g) == prefix_text(s, k, h),
    decreases s, k,
{
    if 0 < k <= s.len() {
        lemma_texts_ignore_pool(s, k - 1, g, h, limit);
        lemma_text_ignores_pool(
            s[k - 1],
            g.at(prefix_exit(s, k - 1, g.cell)),
            h.at(prefix_exit(s, k - 1, h.cell)),
            limit,
        );
    }
}

/// The argument `k` of a call.
fn first_of(args: &Option<Vec<Expression>>, k: usize) -> (r: Option<&Expression>)
    ensures
        match r {
            Some(e) => args is Some && k < args->0@.len() && *e == args->0@[k as int],
            None => args is None || k >= args->0@.len(),
        },
{
    match args {
        Some(args) => if k < args.len() {
            Some(&args[k])
        } else {
            None
        },
        None => None,
    }
}

} // verus!
