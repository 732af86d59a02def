//! The tape machine that runs emitted programs: its state, the meaning of
//! a program, and the text that a program is written as.

use crate::builder::{repeat, travel};
use crate::memory::{wrap, CellSize};
use vstd::prelude::*;

verus! {

/// One operation of a tape program.
pub enum Op {
    /// `>`: the head moves one cell to the right.
    Right,
    /// `<`: the head moves one cell to the left.
    Left,
    /// `+`: the cell under the head grows by one.
    Inc,
    /// `-`: the cell under the head shrinks by one.
    Dec,
    /// `.`: the cell under the head is written to the output.
    Write,
    /// `,`: the next input value is read into the cell under the head.
    Read,
    /// `@`: the host answers a request into the cell under the head.
    Host,
    /// `[` ... `]`: the body runs for as long as the cell under the head is
    /// not zero.
    Loop(Seq<Op>),
}

/// The state of the tape machine.
pub struct Machine {
    pub tape: Map<int, CellSize>,
    pub head: int,
    pub input: Seq<CellSize>,
    pub answers: Seq<CellSize>,
    pub output: Seq<CellSize>,
}

impl Machine {
    /// The tape has a value in every cell.
    pub open spec fn wf(self) -> bool {
        forall|j: int| self.tape.dom().contains(j)
    }

    /// The value in cell `j`.
    pub open spec fn at(self, j: int) -> CellSize {
        self.tape[j]
    }

    /// The value under the head.
    pub open spec fn cur(self) -> CellSize {
        self.tape[self.head]
    }

    /// The machine with `v` in cell `j`.
    pub open spec fn put(self, j: int, v: CellSize) -> Machine {
        Machine { tape: self.tape.insert(j, v), ..self }
    }

    /// The machine with the head on cell `h`.
    pub open spec fn seek(self, h: int) -> Machine {
        Machine { head: h, ..self }
    }
}

/// The machine after one operation, if that ends within `fuel` rounds of
/// loops and never lacks an input or an answer.
pub open spec fn step(op: Op, m: Machine, fuel: nat) -> Option<Machine>
    decreases fuel, 0nat,
{
    match op {
        Op::Right => Some(m.seek(m.head + 1)),
        Op::Left => Some(m.seek(m.head - 1)),
        Op::Inc => Some(m.put(m.head, wrap(m.cur() + 1))),
        Op::Dec => Some(m.put(m.head, wrap(m.cur() - 1))),
        Op::Write => Some(Machine { output: m.output.push(m.cur()), ..m }),
        Op::Read => if m.input.len() > 0 {
            Some(Machine { input: m.input.drop_first(), ..m.put(m.head, m.input[0]) })
        } else {
            None
        },
        Op::Host => if m.answers.len() > 0 {
            Some(Machine { answers: m.answers.drop_first(), ..m.put(m.head, m.answers[0]) })
        } else {
            None
        },
        Op::Loop(body) => if fuel == 0 {
            None
        } else if m.cur() == 0 {
            Some(m)
        } else {
            match run(body, m, (fuel - 1) as nat) {
                Some(next) => step(Op::Loop(body), next, (fuel - 1) as nat),
                None => None,
            }
        },
    }
}

/// The machine after a program.
pub open spec fn run(ops: Seq<Op>, m: Machine, fuel: nat) -> Option<Machine>
    decreases fuel, ops.len() + 1,
{
    if ops.len() == 0 {
        Some(m)
    } else {
        match step(ops[0], m, fuel) {
            Some(next) => run(ops.drop_first(), next, fuel),
            None => None,
        }
    }
}

/// The machine after a program that continues where another one ended.
pub open spec fn run_on(from: Option<Machine>, ops: Seq<Op>, fuel: nat) -> Option<Machine> {
    match from {
        Some(m) => run(ops, m, fuel),
        None => None,
    }
}

/// Running two programs in a row is running the second where the first
/// ended.
pub proof fn lemma_run_add(x: Seq<Op>, y: Seq<Op>, m: Machine, fuel: nat)
    ensures
        run(x + y, m, fuel) == run_on(run(x, m, fuel), y, fuel),
    decreases x.len(),
{
    if x.len() == 0 {
        assert(x + y =~= y);
    } else {
        assert((x + y)[0] == x[0]);
        assert((x + y).drop_first() =~= x.drop_first() + y);
        match step(x[0], m, fuel) {
            Some(next) => lemma_run_add(x.drop_first(), y, next, fuel),
            None => {},
        }
    }
}

/// Running a program of one operation is taking that step.
pub proof fn lemma_run_one(op: Op, m: Machine, fuel: nat)
    ensures
        run(seq![op], m, fuel) == step(op, m, fuel),
{
    assert(seq![op].drop_first() =~= Seq::<Op>::empty());
    match step(op, m, fuel) {
        Some(next) => {
            assert(run(Seq::<Op>::empty(), next, fuel) == Some(next));
        },
        None => {},
    }
}

/// `n` copies of an operation.
pub open spec fn times(op: Op, n: nat) -> Seq<Op> {
    Seq::new(n, |i: int| op)
}

/// The head movements that lead from cell `from` to cell `to`.
pub open spec fn moves(from: usize, to: usize) -> Seq<Op> {
    if to >= from {
        times(Op::Right, (to - from) as nat)
    } else {
        times(Op::Left, (from - to) as nat)
    }
}

/// Moving right `n` times moves the head `n` cells to the right.
pub proof fn lemma_run_right(n: nat, m: Machine, fuel: nat)
    ensures
        run(times(Op::Right, n), m, fuel) == Some(m.seek(m.head + n)),
    decreases n,
{
    if n == 0 {
        assert(m.seek(m.head + 0) == m);
    } else {
        let ops = times(Op::Right, n);
        assert(ops[0] == Op::Right);
        assert(ops.drop_first() =~= times(Op::Right, (n - 1) as nat));
        assert(step(ops[0], m, fuel) == Some(m.seek(m.head + 1)));
        lemma_run_right((n - 1) as nat, m.seek(m.head + 1), fuel);
        assert(m.seek(m.head + 1).seek(m.head + 1 + (n - 1) as nat) == m.seek(m.head + n));
    }
}

/// Moving left `n` times moves the head `n` cells to the left.
pub proof fn lemma_run_left(n: nat, m: Machine, fuel: nat)
    ensures
        run(times(Op::Left, n), m, fuel) == Some(m.seek(m.head - n)),
    decreases n,
{
    if n == 0 {
        assert(m.seek(m.head - 0) == m);
    } else {
        let ops = times(Op::Left, n);
        assert(ops[0] == Op::Left);
        assert(ops.drop_first() =~= times(Op::Left, (n - 1) as nat));
        assert(step(ops[0], m, fuel) == Some(m.seek(m.head - 1)));
        lemma_run_left((n - 1) as nat, m.seek(m.head - 1), fuel);
        assert(m.seek(m.head - 1).seek(m.head - 1 - (n - 1) as nat) == m.seek(m.head - n));
    }
}

/// The movements from `from` to `to` take a head that stands on `from` to
/// `to`, and change nothing else.
pub proof fn lemma_run_moves(from: usize, to: usize, m: Machine, fuel: nat)
    ensures
        run(moves(from, to), m, fuel) == Some(m.seek(m.head + to - from)),
{
    if to >= from {
        lemma_run_right((to - from) as nat, m, fuel);
    } else {
        lemma_run_left((from - to) as nat, m, fuel);
    }
}

/// Incrementing `n` times adds `n` to the cell under the head.
pub proof fn lemma_run_incs(n: nat, m: Machine, fuel: nat)
    requires
        m.wf(),
    ensures
        run(times(Op::Inc, n), m, fuel) == Some(m.put(m.head, wrap(m.cur() + n))),
    decreases n,
{
    if n == 0 {
        assert(m.put(m.head, wrap(m.cur() + 0)).tape =~= m.tape);
    } else {
        let ops = times(Op::Inc, n);
        assert(ops[0] == Op::Inc);
        assert(ops.drop_first() =~= times(Op::Inc, (n - 1) as nat));
        let next = m.put(m.head, wrap(m.cur() + 1));
        assert(step(ops[0], m, fuel) == Some(next));
        lemma_run_incs((n - 1) as nat, next, fuel);
        assert(wrap(wrap(m.cur() + 1) + (n - 1)) == wrap(m.cur() + n)) by {
            lemma_wrap_sum(m.cur() + 1, n - 1);
        }
        assert(next.put(next.head, wrap(next.cur() + (n - 1))).tape =~= m.put(
            m.head,
            wrap(m.cur() + n),
        ).tape);
    }
}

/// Wrapping a sum is wrapping the sum of a wrapped part and the rest.
pub proof fn lemma_wrap_sum(a: int, b: int)
    ensures
        wrap(wrap(a) + b) == wrap(a + b),
{
    assert(((a % 0x100) + b) % 0x100 == (a + b) % 0x100);
}

/// An operation that ends within some rounds ends no differently when
/// more rounds are allowed.
pub proof fn lemma_step_lasts(op: Op, m: Machine, fuel: nat, more: nat)
    requires
        step(op, m, fuel) is Some,
        fuel <= more,
    ensures
        step(op, m, more) == step(op, m, fuel),
    decreases fuel, 0nat,
{
    match op {
        Op::Loop(body) => {
            if m.cur() != 0 {
                lemma_run_lasts(body, m, (fuel - 1) as nat, (more - 1) as nat);
                let next = run(body, m, (fuel - 1) as nat)->0;
                lemma_step_lasts(op, next, (fuel - 1) as nat, (more - 1) as nat);
            }
        },
        _ => {},
    }
}

/// A program that ends within some rounds ends no differently when more
/// rounds are allowed.
pub proof fn lemma_run_lasts(ops: Seq<Op>, m: Machine, fuel: nat, more: nat)
    requires
        run(ops, m, fuel) is Some,
        fuel <= more,
    ensures
        run(ops, m, more) == run(ops, m, fuel),
    decreases fuel, ops.len() + 1,
{
    if ops.len() > 0 {
        lemma_step_lasts(ops[0], m, fuel, more);
        lemma_run_lasts(ops.drop_first(), step(ops[0], m, fuel)->0, fuel, more);
    }
}

/// **A loop that counts down ends.** Let every round of a loop that
/// starts in a state of a kind, on a cell that is not zero, end within
/// `fuel` rounds of its inner loops in a state of that kind, and bring a
/// measure down. Then the loop ends from every state of that kind, after
/// at most as many rounds as the measure tells, in a state of that kind
/// with zero under the head.
pub proof fn lemma_loop_ends(
    body: Seq<Op>,
    m: Machine,
    fuel: nat,
    kind: spec_fn(Machine) -> bool,
    measure: spec_fn(Machine) -> nat,
)
    requires
        kind(m),
        forall|s: Machine|
            kind(s) && s.cur() != 0 ==> {
                &&& (#[trigger] run(body, s, fuel)) is Some
                &&& kind(run(body, s, fuel)->0)
                &&& measure(run(body, s, fuel)->0) < measure(s)
            },
    ensures
        step(Op::Loop(body), m, fuel + measure(m) + 1) is Some,
        kind(step(Op::Loop(body), m, fuel + measure(m) + 1)->0),
        step(Op::Loop(body), m, fuel + measure(m) + 1)->0.cur() == 0,
    decreases measure(m),
{
    if m.cur() != 0 {
        let next = run(body, m, fuel)->0;
        lemma_run_lasts(body, m, fuel, fuel + measure(m));
        lemma_loop_ends(body, next, fuel, kind, measure);
        lemma_step_lasts(Op::Loop(body), next, fuel + measure(next) + 1, fuel + measure(m));
    }
}

/// A loop whose rounds each end with the head where it stood and the cell
/// under it lowered by one ends after as many rounds as that cell holds,
/// with the head where it stood and zero under it.
pub proof fn lemma_countdown_ends(body: Seq<Op>, m: Machine, fuel: nat)
    requires
        forall|s: Machine|
            s.head == m.head && s.cur() != 0 ==> {
                &&& (#[trigger] run(body, s, fuel)) is Some
                &&& run(body, s, fuel)->0.head == m.head
                &&& run(body, s, fuel)->0.cur() == s.cur() - 1
            },
    ensures
        step(Op::Loop(body), m, fuel + (m.cur() as nat) + 1) is Some,
        step(Op::Loop(body), m, fuel + (m.cur() as nat) + 1)->0.head == m.head,
        step(Op::Loop(body), m, fuel + (m.cur() as nat) + 1)->0.cur() == 0,
{
    let kind = |s: Machine| s.head == m.head;
    let measure = |s: Machine| s.cur() as nat;
    lemma_loop_ends(body, m, fuel, kind, measure);
}

/// Whether a character is an operation of the tape language.
pub open spec fn is_command(c: char) -> bool {
    c == '>' || c == '<' || c == '+' || c == '-' || c == '.' || c == ',' || c == '[' || c == ']' || c
        == '@'
}

/// The text without the characters that are no operations.
pub open spec fn strip(text: Seq<char>) -> Seq<char>
    decreases text.len(),
{
    if text.len() == 0 {
        Seq::empty()
    } else if is_command(text.last()) {
        strip(text.drop_last()).push(text.last())
    } else {
        strip(text.drop_last())
    }
}

/// The text of an operation.
pub open spec fn render_op(op: Op) -> Seq<char>
    decreases op,
{
    match op {
        Op::Right => seq!['>'],
        Op::Left => seq!['<'],
        Op::Inc => seq!['+'],
        Op::Dec => seq!['-'],
        Op::Write => seq!['.'],
        Op::Read => seq![','],
        Op::Host => seq!['@'],
        Op::Loop(body) => seq!['['] + render(body, body.len() as int) + seq![']'],
    }
}

/// The text of the first `k` operations of a program.
pub open spec fn render(ops: Seq<Op>, k: int) -> Seq<char>
    decreases ops, k,
{
    if 0 < k <= ops.len() {
        render(ops, k - 1) + render_op(ops[k - 1])
    } else {
        Seq::empty()
    }
}

/// The text of a program.
pub open spec fn written(ops: Seq<Op>) -> Seq<char> {
    render(ops, ops.len() as int)
}

/// Stripping a text in two parts gives what stripping it whole gives.
pub proof fn lemma_strip_add(a: Seq<char>, b: Seq<char>)
    ensures
        strip(a + b) == strip(a) + strip(b),
    decreases b.len(),
{
    if b.len() == 0 {
        assert(a + b =~= a);
        assert(strip(a) + strip(b) =~= strip(a));
    } else {
        assert((a + b).drop_last() =~= a + b.drop_last());
        assert((a + b).last() == b.last());
        lemma_strip_add(a, b.drop_last());
        if is_command(b.last()) {
            assert(strip(a + b) =~= strip(a) + strip(b));
        }
    }
}

/// A text of operations only is left as it is.
pub proof fn lemma_strip_keeps(text: Seq<char>)
    requires
        forall|i: int| 0 <= i < text.len() ==> is_command(#[trigger] text[i]),
    ensures
        strip(text) == text,
    decreases text.len(),
{
    if text.len() > 0 {
        lemma_strip_keeps(text.drop_last());
        assert(text.drop_last().push(text.last()) =~= text);
    }
}

/// A text without operations is stripped to nothing.
pub proof fn lemma_strip_drops(text: Seq<char>)
    requires
        forall|i: int| 0 <= i < text.len() ==> !is_command(#[trigger] text[i]),
    ensures
        strip(text) == Seq::<char>::empty(),
    decreases text.len(),
{
    if text.len() > 0 {
        lemma_strip_drops(text.drop_last());
    }
}

/// The text of two programs in a row is the text of the one and then the
/// text of the other.
pub proof fn lemma_written_add(x: Seq<Op>, y: Seq<Op>)
    ensures
        written(x + y) == written(x) + written(y),
{
    lemma_render_add(x, y, y.len() as int);
    assert(written(x) + Seq::<char>::empty() =~= written(x));
}

proof fn lemma_render_add(x: Seq<Op>, y: Seq<Op>, k: int)
    requires
        0 <= k <= y.len(),
    ensures
        render(x + y, x.len() + k) == written(x) + render(y, k),
    decreases k,
{
    if k == 0 {
        lemma_render_prefix(x, y, x.len() as int);
        assert(written(x) + render(y, 0) =~= written(x));
    } else {
        lemma_render_add(x, y, k - 1);
        assert((x + y)[x.len() + k - 1] == y[k - 1]);
        assert(render(x + y, x.len() + k) =~= written(x) + render(y, k));
    }
}

proof fn lemma_render_prefix(x: Seq<Op>, y: Seq<Op>, k: int)
    requires
        0 <= k <= x.len(),
    ensures
        render(x + y, k) == render(x, k),
    decreases k,
{
    if k > 0 {
        lemma_render_prefix(x, y, k - 1);
        assert((x + y)[k - 1] == x[k - 1]);
    }
}

/// The text of a program of one operation is the text of the operation.
pub proof fn lemma_written_one(op: Op)
    ensures
        written(seq![op]) == render_op(op),
{
    assert(render(seq![op], 0) =~= Seq::<char>::empty());
    assert(render(seq![op], 1) =~= render_op(op));
}

/// The text of a loop is its body's text in brackets.
pub proof fn lemma_written_loop(body: Seq<Op>)
    ensures
        written(seq![Op::Loop(body)]) == seq!['['] + written(body) + seq![']'],
{
    lemma_written_one(Op::Loop(body));
}

/// The text of repeated movements or increments.
pub proof fn lemma_written_times(op: Op, c: char, n: nat)
    requires
        render_op(op) == seq![c],
    ensures
        written(times(op, n)) == repeat(c, n),
    decreases n,
{
    if n == 0 {
        assert(written(times(op, n)) =~= repeat(c, n));
    } else {
        lemma_written_times(op, c, (n - 1) as nat);
        lemma_render_same(times(op, n), times(op, (n - 1) as nat), n - 1);
        assert(written(times(op, n)) =~= repeat(c, n));
    }
}

proof fn lemma_render_same(x: Seq<Op>, y: Seq<Op>, k: int)
    requires
        0 <= k <= x.len(),
        k <= y.len(),
        forall|i: int| 0 <= i < k ==> x[i] == y[i],
    ensures
        render(x, k) == render(y, k),
    decreases k,
{
    if k > 0 {
        lemma_render_same(x, y, k - 1);
    }
}

/// The text of the movements between two cells is the travel between them.
pub proof fn lemma_written_moves(from: usize, to: usize)
    ensures
        written(moves(from, to)) == travel(from, to),
        strip(travel(from, to)) == travel(from, to),
{
    if to >= from {
        lemma_written_times(Op::Right, '>', (to - from) as nat);
    } else {
        lemma_written_times(Op::Left, '<', (from - to) as nat);
    }
    lemma_strip_keeps(travel(from, to));
}

} // verus!
