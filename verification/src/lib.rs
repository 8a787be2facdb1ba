//! An interpreter for the eight-symbol tape language: a lexer, a loop resolver
//! and an execution engine that works on a circular tape of byte cells.
//!
//! The engine does no input or output of its own. Before each step it says
//! what the step needs from outside, and the caller hands in the answer.

pub mod brackets;
pub mod error;
pub mod instruction;
pub mod interpreter;
pub mod lexer;
pub mod pointer;
pub mod program;

pub use crate::error::InterpreterError;
pub use crate::instruction::{Instruction, InvalidCharacterError};
pub use crate::interpreter::{BrainfuckInterpreter, Outcome, Reply, Request};
pub use crate::pointer::MemoryPointer;
pub use crate::program::Program;
