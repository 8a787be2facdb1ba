use vstd::prelude::*;
use crate::brackets::{
    is_jump_table,
    is_loop_fault,
    lemma_partner_involution,
    partner,
    resolve_loops,
    well_bracketed,
};
use crate::error::InterpreterError;
use crate::instruction::Instruction;
use crate::lexer::{lex, lex_spec};

verus! {

/// A program that is ready to run: its instructions, well-bracketed, together
/// with the jump table that takes each end of a loop to the other.
#[derive(Debug)]
pub struct Program {
    instructions: Vec<Instruction>,
    jumps: Vec<usize>,
}

impl View for Program {
    type V = Seq<Instruction>;

    closed spec fn view(&self) -> Seq<Instruction> {
        self.instructions@
    }
}

impl Program {
    #[verifier::type_invariant]
    spec fn resolved(&self) -> bool {
        well_bracketed(self.instructions@) && is_jump_table(self.instructions@, self.jumps@)
    }

    /// The program without instructions.
    pub fn empty() -> (program: Self)
        ensures
            program@ == Seq::<Instruction>::empty(),
    {
        Program { instructions: Vec::new(), jumps: Vec::new() }
    }

    /// Resolves the loops of `instructions`. Succeeds exactly on well-bracketed
    /// instructions, which then make the program; otherwise reports what is
    /// wrong with the loops.
    pub fn new(instructions: Vec<Instruction>) -> (r: Result<Self, InterpreterError>)
        ensures
            r is Ok <==> well_bracketed(instructions@),
            match r {
                Ok(program) => program@ == instructions@,
                Err(fault) => is_loop_fault(instructions@, fault),
            },
    {
        match resolve_loops(instructions.as_slice()) {
            Ok(jumps) => Ok(Program { instructions, jumps }),
            Err(fault) => Err(fault),
        }
    }

    /// Lexes `source` and resolves its loops. Succeeds exactly on text whose
    /// instructions are well-bracketed; otherwise reports what is wrong with the
    /// loops.
    pub fn parse(source: &str) -> (r: Result<Self, InterpreterError>)
        ensures
            r is Ok <==> well_bracketed(lex_spec(source@)),
            match r {
                Ok(program) => program@ == lex_spec(source@),
                Err(fault) => is_loop_fault(lex_spec(source@), fault),
            },
    {
        Program::new(lex(source))
    }

    /// The number of instructions.
    pub fn len(&self) -> (n: usize)
        ensures
            n == self@.len(),
            well_bracketed(self@),
    {
        proof {
            use_type_invariant(self);
        }
        self.instructions.len()
    }

    /// The instruction at index `i`.
    pub fn get(&self, i: usize) -> (instruction: Instruction)
        requires
            i < self@.len(),
        ensures
            instruction == self@[i as int],
    {
        self.instructions[i]
    }

    /// The partner of the instruction at index `i`: for an end of a loop, the
    /// index of the other end; for any other instruction, `i`.
    pub fn jump(&self, i: usize) -> (target: usize)
        requires
            i < self@.len(),
        ensures
            target == partner(self@, i as int),
            target < self@.len(),
    {
        proof {
            use_type_invariant(self);
            lemma_partner_involution(self@, i as int);
        }
        self.jumps[i]
    }
}

} // verus!
