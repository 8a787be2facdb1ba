use vstd::prelude::*;
use crate::instruction::{command_of, Instruction};

verus! {

/// The instruction sequence that a source text denotes: its command symbols, in
/// order, each as its instruction. Every other character is a comment.
pub open spec fn lex_spec(source: Seq<char>) -> Seq<Instruction> {
    source.filter_map(|c: char| command_of(c))
}

/// How many characters of a text are command symbols.
pub open spec fn command_count(source: Seq<char>) -> nat
    decreases source.len(),
{
    if source.len() == 0 {
        0
    } else {
        let before = command_count(source.drop_last());
        if command_of(source.last()) is Some {
            before + 1
        } else {
            before
        }
    }
}

/// A text denotes exactly as many instructions as it holds command symbols:
/// comment characters contribute none.
pub proof fn lemma_lex_len(source: Seq<char>)
    ensures
        lex_spec(source).len() == command_count(source),
    decreases source.len(),
{
    if source.len() > 0 {
        lemma_lex_len(source.drop_last());
    }
}

/// Turns source text into instructions, dropping every character that is not a
/// command symbol.
pub fn lex(source: &str) -> (instructions: Vec<Instruction>)
    ensures
        instructions@ == lex_spec(source@),
        instructions@.len() == command_count(source@),
{
    let mut instructions: Vec<Instruction> = Vec::new();
    for c in iter: source.chars()
        invariant
            iter.seq() == source@,
            instructions@ == lex_spec(source@.take(iter.index())),
    {
        proof {
            assert(source@.take(iter.index() + 1).drop_last() == source@.take(iter.index()));
        }
        match Instruction::try_from(c) {
            Ok(instruction) => {
                instructions.push(instruction);
                assert(instructions@ == lex_spec(source@.take(iter.index())) + seq![instruction]);
            },
            Err(_) => {},
        }
    }
    proof {
        assert(source@.take(source@.len() as int) == source@);
        lemma_lex_len(source@);
    }
    instructions
}

} // verus!
