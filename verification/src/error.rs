//! The one error type of the compiler.

use vstd::prelude::*;

verus! {

/// Why a source text could not be compiled.
#[derive(Debug, Clone, Copy, PartialEq, Eq, Structural)]
pub enum CompileError {
    /// A string literal is not closed before the source ends.
    UnterminatedString,
    /// A character literal is not closed after its one character.
    UnterminatedChar,
    /// A number literal does not fit the number type.
    NumberTooLarge,
    /// A character that starts no token.
    UnexpectedCharacter,
    /// A token other than the one the grammar asks for.
    UnexpectedToken,
    /// A tree whose node lacks a part that its kind requires, or has a kind
    /// that cannot be lowered.
    Malformed,
    /// A name that no declaration introduced.
    UnknownVariable,
    /// An assignment whose value has another type than the variable.
    TypeMismatch,
    /// A call of something that is not an intrinsic.
    UnknownFunction,
    /// `read` with an argument that is not a number literal.
    ReadNeedsLiteral,
    /// `write` with data of size zero.
    EmptyWrite,
    /// The tape model cannot hold that many cells.
    OutOfCells,
    /// An instruction whose operands alias or lie beyond the allocated tape.
    InvalidInstruction,
    /// A read of a cell whose value is not known at compile time.
    DirtyCell,
    /// A read of a cell beyond the materialized tape.
    UnallocatedCell,
}

} // verus!
