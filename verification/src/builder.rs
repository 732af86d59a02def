//! Text assembly for emitted tape programs.

use crate::instructions::Instruction;
use crate::memory::Generator;
use vstd::prelude::*;
use vstd::string::StringExecFns;

verus! {

/// `String::push` appends exactly the given character to the string.
pub assume_specification[ std::string::String::push ](s: &mut std::string::String, c: char)
    ensures
        final(s)@ == old(s)@.push(c),
;

/// `n` copies of `c`.
pub open spec fn repeat(c: char, n: nat) -> Seq<char> {
    Seq::new(n, |i: int| c)
}

/// The indentation prefix of depth `n`.
pub open spec fn tabs(n: usize) -> Seq<char> {
    repeat('\t', n as nat)
}

/// The head movements that lead from cell `from` to cell `to`.
pub open spec fn travel(from: usize, to: usize) -> Seq<char> {
    if to >= from {
        repeat('>', (to - from) as nat)
    } else {
        repeat('<', (from - to) as nat)
    }
}

/// `n` copies of `c` as a string.
pub fn repeated(c: char, n: usize) -> (s: String)
    ensures
        s@ == repeat(c, n as nat),
{
    let mut s = String::new();
    let mut k: usize = 0;
    while k < n
        invariant
            k <= n,
            s@ =~= repeat(c, k as nat),
        decreases n - k,
    {
        s.push(c);
        k = k + 1;
    }
    s
}

/// Accumulates emitted text at one indentation depth.
pub struct BFBuilder {
    pub data: String,
    pub indent: usize,
}

impl BFBuilder {
    /// What `end` appends at depth `indent`.
    pub open spec fn closing(indent: usize) -> Seq<char> {
        if indent == 0 {
            "]"@
        } else {
            tabs((indent - 1) as usize) + "]"@
        }
    }

    pub fn new(indent: usize) -> (b: BFBuilder)
        ensures
            b.data@ == Seq::<char>::empty(),
            b.indent == indent,
    {
        BFBuilder { data: String::new(), indent }
    }

    /// Appends the indentation prefix.
    pub fn indent(&mut self) -> (r: &mut BFBuilder)
        ensures
            r.data@ == old(self).data@ + tabs(old(self).indent),
            r.indent == old(self).indent,
            *final(self) == *final(r),
    {
        let pad = repeated('\t', self.indent);
        self.data.append(pad.as_str());
        self
    }

    /// Appends a line break.
    pub fn nl(&mut self) -> (r: &mut BFBuilder)
        ensures
            r.data@ == old(self).data@ + "\n"@,
            r.indent == old(self).indent,
            *final(self) == *final(r),
    {
        self.data.append("\n");
        self
    }

    /// Appends `text` as it is.
    pub fn string(&mut self, text: &str) -> (r: &mut BFBuilder)
        ensures
            r.data@ == old(self).data@ + text@,
            r.indent == old(self).indent,
            *final(self) == *final(r),
    {
        self.data.append(text);
        self
    }

    /// Appends the indentation prefix and the text that `ins` emits, lets
    /// the emission advance `owner`, and hands the instruction back.
    pub fn instruction<'a, T: Instruction>(&mut self, owner: &mut Generator, ins: &'a mut T) -> (emitted: &'a mut T)
        requires
            old(owner).wf(),
            old(ins).can_compile(old(owner)@),
        ensures
            final(self).data@ == old(self).data@ + tabs(old(self).indent) + old(ins).emitted(old(owner)@),
            final(self).indent == old(self).indent,
            final(owner).wf(),
            final(owner)@ == old(ins).compiled(old(owner)@),
            *emitted == old(ins).settled(old(owner)@),
            *final(ins) == *final(emitted),
    {
        let pad = repeated('\t', self.indent);
        self.data.append(pad.as_str());
        let text = ins.compile(owner);
        self.data.append(text.as_str());
        ins
    }

    /// Opens a loop: a new builder that starts with the indented `[`. Its
    /// own depth is this builder's if `indent` is set, zero otherwise.
    pub fn bfloop(&mut self, indent: bool) -> (l: BFBuilder)
        ensures
            l.data@ == tabs(old(self).indent) + "["@,
            l.indent == (if indent { old(self).indent } else { 0 }),
            *final(self) == *old(self),
    {
        let mut l = BFBuilder::new(self.indent);
        if !indent {
            l.indent = 0;
        }
        let pad = repeated('\t', self.indent);
        l.data.append(pad.as_str());
        l.data.append("[");
        l
    }

    /// Closes a loop: appends `]`, one level out from the builder's depth.
    pub fn end(&mut self) -> (r: &mut BFBuilder)
        ensures
            r.data@ == old(self).data@ + Self::closing(old(self).indent),
            r.indent == old(self).indent,
            *final(self) == *final(r),
    {
        if self.indent == 0 {
            self.data.append("]");
            return self;
        }
        let pad = repeated('\t', self.indent - 1);
        self.data.append(pad.as_str());
        self.data.append("]");
        self
    }
}

impl Generator {
    /// The indentation prefix at the generator's depth.
    pub fn indent(&self) -> (s: String)
        ensures
            s@ == tabs(self.indent),
    {
        repeated('\t', self.indent)
    }
}

} // verus!
