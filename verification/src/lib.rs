//! A compiler from a small imperative scripting language to the eight-symbol
//! tape language, built around a symbolic model of the tape.
//!
//! The backend keeps a compile-time picture of the target machine, the
//! [`Generator`]: where the head stands, which cells are allocated, and
//! which values are known. Every instruction can emit its program against
//! that picture and replay its effect on it. The front end turns source text
//! into a syntax tree, an analysis pass finds the size of every variable,
//! and the [`Compiler`] lowers the tree to instructions and emits their text.
//!
//! The modules, from the leaves up:
//!
//! - [`memory`]: the cell allocator and the generator.
//! - [`builder`], [`instructions`], [`block`]: text assembly, the instruction
//!   set, and blocks with `If` and `While`.
//! - [`tokenizer`], [`parser`], [`analyzer`], [`compiler`]: the way from
//!   source text to emitted text.
//! - [`interp`]: an interpreter for emitted text.
//! - [`tape`], [`idioms`], [`writing`], [`coherence`], [`laws`]: the meaning
//!   of tape programs and the proofs that what the instructions record is
//!   what their programs do, and that those programs end.

pub mod analyzer;
pub mod block;
pub mod builder;
pub mod coherence;
pub mod compiler;
pub mod error;
pub mod idioms;
pub mod instructions;
pub mod interp;
pub mod laws;
pub mod memory;
pub mod parser;
pub mod tape;
pub mod tokenizer;
pub mod writing;

pub use analyzer::{Analyzer, ValueInfo};
pub use block::{BFBlock, If, Instr, Step, While};
pub use builder::BFBuilder;
pub use compiler::Compiler;
pub use error::CompileError;
pub use instructions::{
    Add, BoolNegate, Clear, Command, Distance, Div, Goto, Input, Instruction, Move, Mul, Output, SetCell, Sub,
};
pub use interp::{Event, ExtendedBF, Interpreter};
pub use memory::{CellSize, Generator, GeneratorModel, MemoryPool, PoolModel};
pub use parser::{Expression, ExpressionType, Parser, Statement, StatementType};
pub use tokenizer::{Token, TokenType, Tokenizer};
