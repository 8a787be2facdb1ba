use vstd::prelude::*;

verus! {

/// Everything that can stop a program from being loaded or from running on.
#[derive(Debug, Clone, Copy, PartialEq, Eq, Structural)]
pub enum InterpreterError {
    /// The loop start at this instruction index is never closed.
    UnmatchedLoopStart(usize),
    /// The loop end at this instruction index closes no loop.
    UnmatchedLoopEnd(usize),
    /// The input or output channel failed.
    IoFailure,
}

} // verus!
