//! An interpreter for emitted programs. Input, output and host requests
//! are handed to the caller as events; the interpreter itself touches
//! nothing but its tape.

use crate::parser::{digits, natural_string};
use vstd::prelude::*;
use vstd::string::StringExecFns;

verus! {

/// The operations that a host offers to a program in extended mode.
#[derive(Debug, Clone, Copy, PartialEq, Eq, Structural)]
pub enum ExtendedBF {
    OpenFile,
    Write,
    Read,
}

impl ExtendedBF {
    /// The selector of the operation.
    pub open spec fn spec_code(self) -> u8 {
        match self {
            ExtendedBF::OpenFile => 1,
            ExtendedBF::Write => 2,
            ExtendedBF::Read => 3,
        }
    }

    /// The selector of the operation.
    pub fn code(self) -> (c: u8)
        ensures
            c == self.spec_code(),
    {
        match self {
            ExtendedBF::OpenFile => 1,
            ExtendedBF::Write => 2,
            ExtendedBF::Read => 3,
        }
    }

    /// The operation that a selector stands for.
    pub fn from_code(c: u8) -> (r: Option<ExtendedBF>)
        ensures
            match r {
                Some(op) => op.spec_code() == c,
                None => c == 0 || c > 3,
            },
    {
        if c == 1 {
            Some(ExtendedBF::OpenFile)
        } else if c == 2 {
            Some(ExtendedBF::Write)
        } else if c == 3 {
            Some(ExtendedBF::Read)
        } else {
            None
        }
    }
}

/// What a step of the interpreter asks of its caller.
#[derive(Debug, Clone, Copy, PartialEq, Eq, Structural)]
pub enum Event {
    /// Nothing: the program goes on.
    Quiet,
    /// The value was written to the output.
    Output(u8),
    /// The program waits for input; the step is taken once input is there.
    Input,
    /// The host is asked for the operation with this selector.
    Command(u8),
    /// The program has ended.
    Halt,
    /// A `]` without its `[`: the program cannot go on.
    Unbalanced,
    /// The step budget is used up.
    Paused,
}

/// Mathematical state of an [`Interpreter`].
pub struct InterpModel {
    pub position: usize,
    pub source: Seq<u8>,
    pub cells: Seq<u8>,
    pub pointer: usize,
    pub level: usize,
    pub stack: Seq<usize>,
    pub skipping: bool,
    pub skiplevel: usize,
    pub extended_mode: bool,
    pub input: Seq<u8>,
    pub output: Seq<u8>,
}

/// A state and what its last step asked for.
pub struct Outcome {
    pub state: InterpModel,
    pub event: Event,
}

impl InterpModel {
    /// The head stands on the tape, the tape is not empty, and `level`
    /// counts the loops that are open.
    pub open spec fn wf(self) -> bool {
        &&& self.pointer < self.cells.len()
        &&& self.level == self.stack.len()
        &&& self.cells.len() <= usize::MAX
        &&& self.source.len() <= usize::MAX
    }

    /// The state with the next operation under the program counter. The
    /// counter wraps, so that it comes to the first operation from the
    /// position before it.
    pub open spec fn onward(self) -> InterpModel {
        InterpModel {
            position: if self.position == usize::MAX {
                0usize
            } else {
                (self.position + 1) as usize
            },
            ..self
        }
    }

    /// The position before the program counter, from which a move onward
    /// comes back to it.
    pub open spec fn behind(self) -> usize {
        if self.position == 0 {
            usize::MAX
        } else {
            (self.position - 1) as usize
        }
    }

    /// The state with `v` under the head.
    pub open spec fn store(self, v: u8) -> InterpModel {
        InterpModel { cells: self.cells.update(self.pointer as int, v), ..self }
    }

    /// The state after a move to the left: at the left end the tape grows
    /// by a cell of zero.
    pub open spec fn left(self) -> InterpModel {
        if self.pointer == 0 {
            InterpModel { cells: seq![0u8] + self.cells, ..self }
        } else {
            InterpModel { pointer: (self.pointer - 1) as usize, ..self }
        }
    }

    /// The state after a move to the right: at the right end the tape
    /// grows by a cell of zero.
    pub open spec fn right(self) -> InterpModel {
        if self.pointer + 1 >= self.cells.len() {
            InterpModel { pointer: (self.pointer + 1) as usize, cells: self.cells.push(0u8), ..self }
        } else {
            InterpModel { pointer: (self.pointer + 1) as usize, ..self }
        }
    }

    /// The state and the event after one step.
    ///
    /// A step works on the operation under the program counter and leaves
    /// the counter where it is; only a `]` whose loop goes on sets it.
    /// While a loop is skipped, only brackets count. `[` opens a loop: it
    /// puts the position before itself on the stack, and starts skipping
    /// the loop if the cell under the head is zero. `]` closes its loop and
    /// takes that position from the stack; if the loop is not skipped and
    /// the cell under the head is not zero, it sets the counter to that
    /// position, from where a move onward comes to the `[` again.
    pub open spec fn step(self) -> Outcome {
        let c = self.source[self.position as int];
        let v = self.cells[self.pointer as int];
        if self.skipping && c != 91 && c != 93 {
            Outcome { state: self, event: Event::Quiet }
        } else if c == 43 {
            Outcome {
                state: self.store(
                    if v == 255 {
                        0u8
                    } else {
                        (v + 1) as u8
                    },
                ),
                event: Event::Quiet,
            }
        } else if c == 45 {
            Outcome {
                state: self.store(
                    if v == 0 {
                        255u8
                    } else {
                        (v - 1) as u8
                    },
                ),
                event: Event::Quiet,
            }
        } else if c == 60 {
            Outcome { state: self.left(), event: Event::Quiet }
        } else if c == 62 {
            Outcome { state: self.right(), event: Event::Quiet }
        } else if c == 44 {
            if self.input.len() == 0 {
                Outcome { state: self, event: Event::Input }
            } else {
                Outcome {
                    state: InterpModel { input: self.input.drop_first(), ..self.store(self.input[0]) },
                    event: Event::Quiet,
                }
            }
        } else if c == 46 {
            Outcome { state: InterpModel { output: self.output.push(v), ..self }, event: Event::Output(v) }
        } else if c == 91 {
            let entered = InterpModel {
                stack: self.stack.push(self.behind()),
                level: (self.stack.len() + 1) as usize,
                ..self
            };
            if !self.skipping && v == 0 {
                Outcome {
                    state: InterpModel { skipping: true, skiplevel: entered.level, ..entered },
                    event: Event::Quiet,
                }
            } else {
                Outcome { state: entered, event: Event::Quiet }
            }
        } else if c == 93 {
            if self.stack.len() == 0 {
                Outcome { state: self, event: Event::Unbalanced }
            } else {
                let open = self.stack.last();
                let closed = InterpModel {
                    stack: self.stack.drop_last(),
                    level: (self.stack.len() - 1) as usize,
                    ..self
                };
                if self.skipping {
                    Outcome {
                        state: InterpModel { skipping: self.level != self.skiplevel, ..closed },
                        event: Event::Quiet,
                    }
                } else if v != 0 {
                    Outcome { state: InterpModel { position: open, ..closed }, event: Event::Quiet }
                } else {
                    Outcome { state: closed, event: Event::Quiet }
                }
            }
        } else if c == 64 && self.extended_mode {
            Outcome { state: self, event: Event::Command(v) }
        } else {
            Outcome { state: self, event: Event::Quiet }
        }
    }

    /// The state and the event at which a run of at most `budget` steps
    /// stops. The run moves the program counter on after every step that
    /// was taken; it does not after a step that waits for input or found
    /// a `]` without its `[`. It stops at the first step that asks
    /// something of the caller, at the end of the program, or when the
    /// budget is used up.
    pub open spec fn run(self, budget: nat) -> Outcome
        decreases budget,
    {
        if self.position >= self.source.len() {
            Outcome { state: self, event: Event::Halt }
        } else if budget == 0 {
            Outcome { state: self, event: Event::Paused }
        } else {
            let o = self.step();
            if o.event == Event::Input || o.event == Event::Unbalanced {
                o
            } else if o.event != Event::Quiet {
                Outcome { state: o.state.onward(), event: o.event }
            } else {
                o.state.onward().run((budget - 1) as nat)
            }
        }
    }
}

/// The text that the cells from `pos` on spell, up to the first zero, the
/// end of the tape, or `max_len` characters.
pub open spec fn spelled(cells: Seq<u8>, pos: int, max_len: nat) -> Seq<char>
    decreases max_len,
{
    if max_len == 0 || pos < 0 || pos >= cells.len() || cells[pos] == 0 {
        Seq::empty()
    } else {
        seq![cells[pos] as char] + spelled(cells, pos + 1, (max_len - 1) as nat)
    }
}

/// The decimal text of a whole number, with its sign if it is negative.
pub open spec fn signed(n: int) -> Seq<char> {
    if n < 0 {
        "-"@ + digits((-n) as nat)
    } else {
        digits(n as nat)
    }
}

/// How a dump shows one cell: its value, between marks if the head stands
/// on it, and a line break behind every tenth cell.
pub open spec fn shown(cells: Seq<u8>, pointer: int, i: int) -> Seq<char> {
    (if i == pointer {
        ">"@ + digits(cells[i] as nat) + "< "@
    } else {
        digits(cells[i] as nat) + " "@
    }) + (if (i + 1) % 10 == 0 {
        "\n"@
    } else {
        Seq::empty()
    })
}

/// How a dump shows the first `k` cells.
pub open spec fn listed(cells: Seq<u8>, pointer: int, k: int) -> Seq<char>
    decreases k,
{
    if 0 < k <= cells.len() {
        listed(cells, pointer, k - 1) + shown(cells, pointer, k - 1)
    } else {
        Seq::empty()
    }
}

/// The dump of a tape: where the head stands, how many cells there are,
/// and the cells in rows of ten.
pub open spec fn dumped(cells: Seq<u8>, pointer: int) -> Seq<char> {
    "Pointer ["@ + signed(pointer) + "]\n"@ + "Cells ["@ + digits(cells.len()) + "]\n\n"@ + listed(
        cells,
        pointer,
        cells.len() as int,
    )
}

/// The tape machine: a program, a tape of byte cells that grows as the
/// head moves, the pending input and the output so far.
pub struct Interpreter<'a> {
    pub position: usize,
    pub size: usize,
    pub source: &'a [u8],
    pub cells: Vec<u8>,
    pub pointer: i32,
    pub level: i32,
    pub stack: Vec<usize>,
    pub skipping: bool,
    pub skiplevel: i32,
    pub extended_mode: bool,
    pub input: Vec<u8>,
    pub output: Vec<u8>,
}

impl<'a> View for Interpreter<'a> {
    type V = InterpModel;

    open spec fn view(&self) -> InterpModel {
        InterpModel {
            position: self.position,
            source: self.source@,
            cells: self.cells@,
            pointer: self.pointer as usize,
            level: self.level as usize,
            stack: self.stack@,
            skipping: self.skipping,
            skiplevel: self.skiplevel as usize,
            extended_mode: self.extended_mode,
            input: self.input@,
            output: self.output@,
        }
    }
}

impl<'a> Interpreter<'a> {
    /// The model is well-formed, `size` is the length of the program, and
    /// the head and the two levels are not negative.
    pub open spec fn wf(&self) -> bool {
        &&& self@.wf()
        &&& self.size == self.source@.len()
        &&& 0 <= self.pointer
        &&& 0 <= self.level
        &&& 0 <= self.skiplevel
    }

    pub fn new(src: &'a [u8]) -> (i: Interpreter<'a>)
        ensures
            i.wf(),
            i@ == (InterpModel {
                position: 0,
                source: src@,
                cells: seq![0u8],
                pointer: 0,
                level: 0,
                stack: Seq::empty(),
                skipping: false,
                skiplevel: 0,
                extended_mode: false,
                input: Seq::empty(),
                output: Seq::empty(),
            }),
    {
        let mut cells: Vec<u8> = Vec::new();
        cells.push(0);
        Interpreter {
            position: 0,
            size: src.len(),
            source: src,
            cells,
            pointer: 0,
            level: 0,
            stack: Vec::new(),
            skipping: false,
            skiplevel: 0,
            extended_mode: false,
            input: Vec::new(),
            output: Vec::new(),
        }
    }

    /// Lets `@` ask the host.
    pub fn enable_extended(&mut self)
        ensures
            final(self)@ == (InterpModel { extended_mode: true, ..old(self)@ }),
            final(self).size == old(self).size,
    {
        self.extended_mode = true;
    }

    /// Adds a value to the pending input.
    pub fn feed(&mut self, value: u8)
        ensures
            final(self)@ == (InterpModel { input: old(self)@.input.push(value), ..old(self)@ }),
            final(self).size == old(self).size,
    {
        self.input.push(value);
    }

    /// Writes the host's answer into the cell under the head.
    pub fn answer(&mut self, value: u8)
        requires
            old(self).wf(),
        ensures
            final(self).wf(),
            final(self)@ == old(self)@.store(value),
    {
        self.cells[self.pointer as usize] = value;
    }

    /// Moves the head one cell to the left.
    pub fn left(&mut self)
        requires
            old(self).wf(),
            old(self).pointer == 0 ==> old(self)@.cells.len() < usize::MAX,
        ensures
            final(self).wf(),
            final(self)@ == old(self)@.left(),
    {
        if self.pointer == 0 {
            self.cells.insert(0, 0);
            assert(self.cells@ =~= seq![0u8] + old(self).cells@);
        } else {
            self.pointer = self.pointer - 1;
        }
    }

    /// Moves the head one cell to the right.
    pub fn right(&mut self)
        requires
            old(self).wf(),
            old(self).pointer < i32::MAX,
        ensures
            final(self).wf(),
            final(self)@ == old(self)@.right(),
    {
        self.pointer = self.pointer + 1;
        if self.pointer as usize >= self.cells.len() {
            self.cells.push(0);
        }
    }

    /// Takes one step of the program: works on the operation under the
    /// program counter and leaves the counter to the caller, but for a `]`
    /// whose loop goes on.
    pub fn step(&mut self) -> (e: Event)
        requires
            old(self).wf(),
            old(self).position < old(self).size,
            old(self).pointer < i32::MAX,
            old(self).level < i32::MAX,
            old(self)@.cells.len() < usize::MAX,
        ensures
            final(self).wf(),
            final(self)@ == old(self)@.step().state,
            e == old(self)@.step().event,
            old(self).source@[old(self).position as int] != 93 ==> final(self).position == old(self).position,
            old(self).source@[old(self).position as int] == 93 ==> final(self).position == (if e == Event::Quiet
                && !old(self).skipping && old(self).cells@[old(self).pointer as int] != 0 {
                old(self).stack@.last()
            } else {
                old(self).position
            }),
    {
        let c = self.source[self.position];
        if self.skipping && c != 91 && c != 93 {
            return Event::Quiet;
        }
        if c == 43 {
            let v = self.cells[self.pointer as usize];
            self.cells[self.pointer as usize] = if v == 255 { 0 } else { v + 1 };
            return Event::Quiet;
        }
        if c == 45 {
            let v = self.cells[self.pointer as usize];
            self.cells[self.pointer as usize] = if v == 0 { 255 } else { v - 1 };
            return Event::Quiet;
        }
        if c == 60 {
            self.left();
            return Event::Quiet;
        }
        if c == 62 {
            self.right();
            return Event::Quiet;
        }
        if c == 44 {
            if self.input.len() == 0 {
                return Event::Input;
            }
            let v = self.input.remove(0);
            assert(self.input@ =~= old(self).input@.drop_first());
            self.cells[self.pointer as usize] = v;
            return Event::Quiet;
        }
        if c == 46 {
            let v = self.cells[self.pointer as usize];
            self.output.push(v);
            return Event::Output(v);
        }
        if c == 91 {
            self.level = self.level + 1;
            self.stack.push(if self.position == 0 { usize::MAX } else { self.position - 1 });
            if !self.skipping && self.cells[self.pointer as usize] == 0 {
                self.skipping = true;
                self.skiplevel = self.level;
            }
            return Event::Quiet;
        }
        if c == 93 {
            if self.stack.len() == 0 {
                return Event::Unbalanced;
            }
            let open = self.stack[self.stack.len() - 1];
            self.stack.pop();
            assert(self.stack@ =~= old(self).stack@.drop_last());
            if self.skipping {
                if self.level == self.skiplevel {
                    self.skipping = false;
                }
                self.level = self.level - 1;
                return Event::Quiet;
            }
            self.level = self.level - 1;
            if self.cells[self.pointer as usize] != 0 {
                self.position = open;
            }
            return Event::Quiet;
        }
        if c == 64 && self.extended_mode {
            return Event::Command(self.cells[self.pointer as usize]);
        }
        Event::Quiet
    }

    /// Runs the program until it asks something of the caller, ends, or has
    /// taken `budget` steps, moving the program counter on after every step
    /// that was taken.
    pub fn run(&mut self, budget: usize) -> (e: Event)
        requires
            old(self).wf(),
            old(self).pointer + budget < i32::MAX,
            old(self).level + budget < i32::MAX,
            old(self)@.cells.len() + budget < usize::MAX,
        ensures
            final(self).wf(),
            final(self)@ == old(self)@.run(budget as nat).state,
            e == old(self)@.run(budget as nat).event,
    {
        let mut left = budget;
        loop
            invariant
                self.wf(),
                left <= budget,
                self.pointer + left < i32::MAX,
                self.level + left < i32::MAX,
                self@.cells.len() + left < usize::MAX,
                self@.run(left as nat) == old(self)@.run(budget as nat),
            decreases left,
        {
            if self.position >= self.size {
                return Event::Halt;
            }
            if left == 0 {
                return Event::Paused;
            }
            let ghost before = self@;
            let e = self.step();
            assert(self@.pointer <= before.pointer + 1);
            assert(self@.level <= before.level + 1);
            assert(self@.cells.len() <= before.cells.len() + 1);
            if e == Event::Input || e == Event::Unbalanced {
                return e;
            }
            self.position = if self.position == usize::MAX { 0 } else { self.position + 1 };
            if e != Event::Quiet {
                return e;
            }
            left = left - 1;
        }
    }

    /// The text that the cells from `pos` on spell, up to the first zero,
    /// the end of the tape, or `max_len` characters.
    pub fn read_string(&self, pos: usize, max_len: usize) -> (s: String)
        ensures
            s@ == spelled(self.cells@, pos as int, max_len as nat),
    {
        let mut s = String::new();
        let mut i: usize = 0;
        while i < max_len
            invariant
                i <= max_len,
                pos + i <= usize::MAX,
                spelled(self.cells@, pos as int, max_len as nat) == s@ + spelled(
                    self.cells@,
                    pos + i,
                    (max_len - i) as nat,
                ),
            decreases max_len - i,
        {
            if pos + i >= self.cells.len() || self.cells[pos + i] == 0 {
                assert(s@ + Seq::<char>::empty() =~= s@);
                return s;
            }
            let ghost before = s@;
            s.push(self.cells[pos + i] as char);
            assert(before + (seq![self.cells@[pos + i] as char] + spelled(
                self.cells@,
                pos + i + 1,
                (max_len - i - 1) as nat,
            )) =~= s@ + spelled(self.cells@, pos + i + 1, (max_len - i - 1) as nat));
            if pos + i == usize::MAX {
                assert(s@ + Seq::<char>::empty() =~= s@);
                return s;
            }
            i = i + 1;
        }
        assert(s@ + Seq::<char>::empty() =~= s@);
        s
    }

    /// The state of the tape as text.
    pub fn dump(&self) -> (s: String)
        ensures
            s@ == dumped(self.cells@, self.pointer as int),
    {
        let mut data = String::new();
        data.append("Pointer [");
        if self.pointer < 0 {
            let size: i64 = 0 - (self.pointer as i64);
            data.append("-");
            data.append(natural_string(size as u64).as_str());
        } else {
            data.append(natural_string(self.pointer as u64).as_str());
        }
        data.append("]\n");
        data.append("Cells [");
        data.append(natural_string(self.cells.len() as u64).as_str());
        data.append("]\n\n");
        let ghost head = data@;
        let mut i: usize = 0;
        while i < self.cells.len()
            invariant
                i <= self.cells@.len(),
                data@ == head + listed(self.cells@, self.pointer as int, i as int),
            decreases self.cells.len() - i,
        {
            let ghost before = data@;
            let value = natural_string(self.cells[i] as u64);
            if self.pointer >= 0 && i == self.pointer as usize {
                data.append(">");
                data.append(value.as_str());
                data.append("< ");
            } else {
                data.append(value.as_str());
                data.append(" ");
            }
            if i % 10 == 9 {
                data.append("\n");
            }
            assert(data@ =~= before + shown(self.cells@, self.pointer as int, i as int));
            i = i + 1;
            assert(data@ =~= head + listed(self.cells@, self.pointer as int, i as int));
        }
        data
    }
}

} // verus!
