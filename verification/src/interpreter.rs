use vstd::prelude::*;
use crate::brackets::{
    is_loop_fault,
    is_pair,
    lemma_partner_involution,
    lemma_start_has_end,
    partner,
    well_bracketed,
};
use crate::error::InterpreterError;
use crate::instruction::Instruction;
use crate::lexer::lex_spec;
use crate::pointer::{lemma_step_left, lemma_step_right, wrap_left, wrap_right, MemoryPointer};
use crate::program::Program;

verus! {

/// What the interpreter needs from outside before its next step.
#[derive(Debug, Clone, Copy, PartialEq, Eq, Structural)]
pub enum Request {
    /// Nothing more: the program has run to its end.
    Halt,
    /// Nothing: the next instruction works on the tape alone.
    Proceed,
    /// One byte from the input channel.
    Input,
    /// That this byte be written to the output channel.
    Output(u8),
}

/// What the outside answers to a request.
#[derive(Debug, Clone, Copy, PartialEq, Eq, Structural)]
pub enum Reply {
    /// The request was carried out: there was nothing to do, or the byte was
    /// written.
    Done,
    /// The input channel delivered this byte.
    Byte(u8),
    /// The input channel is exhausted. The read then leaves its cell as it
    /// was; a caller that wants the cell set at the end of input replies with
    /// the byte of its choice instead.
    EndOfInput,
    /// The channel failed.
    Failed,
}

/// What a step did.
#[derive(Debug, Clone, Copy, PartialEq, Eq, Structural)]
pub enum Outcome {
    /// One instruction was executed.
    Advanced,
    /// A read instruction found the input exhausted and left its cell as it was.
    InputExhausted,
    /// There was no instruction left to execute.
    Halted,
}

/// The state of a run: the tape, the index of the addressed cell, and the index
/// of the next instruction.
pub struct State {
    pub tape: Seq<u8>,
    pub pointer: int,
    pub counter: int,
}

/// The state in which every run on a tape of `cells` cells starts.
pub open spec fn initial_state(cells: nat) -> State {
    State { tape: Seq::new(cells, |i: int| 0u8), pointer: 0, counter: 0 }
}

/// A state that a run of `code` on a tape of `cells` cells can be in.
pub open spec fn is_state_of(state: State, code: Seq<Instruction>, cells: nat) -> bool {
    &&& state.tape.len() == cells
    &&& 0 <= state.pointer < cells
    &&& 0 <= state.counter <= code.len()
}

/// The run has executed its last instruction.
pub open spec fn is_halted(code: Seq<Instruction>, state: State) -> bool {
    state.counter >= code.len()
}

/// A cell value plus one, with 255 wrapping to 0.
pub open spec fn incremented(cell: u8) -> u8 {
    if cell == 255 {
        0
    } else {
        (cell + 1) as u8
    }
}

/// A cell value minus one, with 0 wrapping to 255.
pub open spec fn decremented(cell: u8) -> u8 {
    if cell == 0 {
        255
    } else {
        (cell - 1) as u8
    }
}

/// What the next step of a run needs from outside.
pub open spec fn request_of(code: Seq<Instruction>, state: State) -> Request {
    if is_halted(code, state) {
        Request::Halt
    } else {
        match code[state.counter] {
            Instruction::ReadChar => Request::Input,
            Instruction::WriteChar => Request::Output(state.tape[state.pointer]),
            _ => Request::Proceed,
        }
    }
}

/// The reply answers the request: a request for input is answered by a byte or
/// by the end of input, every other request by its being done.
pub open spec fn is_answer(request: Request, reply: Reply) -> bool {
    match request {
        Request::Input => reply is Byte || reply is EndOfInput,
        _ => reply is Done,
    }
}

/// The state after one step. A halted run stays as it is, and so does a run
/// that gets a reply which does not answer its request.
pub open spec fn step_state(code: Seq<Instruction>, state: State, reply: Reply) -> State {
    if is_halted(code, state) || !is_answer(request_of(code, state), reply) {
        state
    } else {
        let cells = state.tape.len() as int;
        let cell = state.tape[state.pointer];
        let next = state.counter + 1;
        let across = partner(code, state.counter) + 1;
        match code[state.counter] {
            Instruction::IncreasePointer => State {
                pointer: wrap_right(state.pointer, 1, cells),
                counter: next,
                ..state
            },
            Instruction::DecreasePointer => State {
                pointer: wrap_left(state.pointer, 1, cells),
                counter: next,
                ..state
            },
            Instruction::IncreaseValue => State {
                tape: state.tape.update(state.pointer, incremented(cell)),
                counter: next,
                ..state
            },
            Instruction::DecreaseValue => State {
                tape: state.tape.update(state.pointer, decremented(cell)),
                counter: next,
                ..state
            },
            Instruction::StartLoop => State {
                counter: if cell == 0 {
                    across
                } else {
                    next
                },
                ..state
            },
            Instruction::EndLoop => State {
                counter: if cell != 0 {
                    across
                } else {
                    next
                },
                ..state
            },
            Instruction::ReadChar => match reply {
                Reply::Byte(byte) => State {
                    tape: state.tape.update(state.pointer, byte),
                    counter: next,
                    ..state
                },
                _ => State { counter: next, ..state },
            },
            Instruction::WriteChar => State { counter: next, ..state },
        }
    }
}

/// What one step reports: that the run is over, that the channel failed because
/// the reply does not answer the request, that a read found the input
/// exhausted, or that the run has advanced.
pub open spec fn step_result(code: Seq<Instruction>, state: State, reply: Reply) -> Result<
    Outcome,
    InterpreterError,
> {
    if is_halted(code, state) {
        Ok(Outcome::Halted)
    } else if !is_answer(request_of(code, state), reply) {
        Err(InterpreterError::IoFailure)
    } else if code[state.counter] == Instruction::ReadChar && reply is EndOfInput {
        Ok(Outcome::InputExhausted)
    } else {
        Ok(Outcome::Advanced)
    }
}

/// Cell arithmetic wraps round: one more than 255 is 0, one less than 0 is 255,
/// and adding one and subtracting one undo each other on every value.
pub proof fn lemma_cell_wraps(cell: u8)
    ensures
        incremented(255) == 0,
        decremented(0) == 255,
        decremented(incremented(cell)) == cell,
        incremented(decremented(cell)) == cell,
{
}

/// A read that is followed at once by a write passes its byte on: after the
/// read has taken `byte`, the run asks for `byte` to be written.
pub proof fn lemma_read_then_write(code: Seq<Instruction>, state: State, byte: u8)
    requires
        is_state_of(state, code, state.tape.len()),
        state.counter + 1 < code.len(),
        code[state.counter] == Instruction::ReadChar,
        code[state.counter + 1] == Instruction::WriteChar,
    ensures
        request_of(code, state) == Request::Input,
        request_of(code, step_state(code, state, Reply::Byte(byte))) == Request::Output(byte),
{
}

/// A loop is tested before it is entered: from a loop start on a zero cell one
/// step leads right behind the matching loop end, and nothing on the tape
/// changes.
pub proof fn lemma_zero_cell_skips_loop(code: Seq<Instruction>, state: State)
    requires
        well_bracketed(code),
        is_state_of(state, code, state.tape.len()),
        !is_halted(code, state),
        code[state.counter] == Instruction::StartLoop,
        state.tape[state.pointer] == 0,
    ensures
        is_pair(code, state.counter, partner(code, state.counter)),
        step_state(code, state, Reply::Done) == (State {
            counter: partner(code, state.counter) + 1,
            ..state
        }),
{
    lemma_start_has_end(code, state.counter);
}

/// A step of a run of well-bracketed code leads from a state of the run to a
/// state of the run: the pointer stays on the tape, the tape keeps its size, and
/// the counter never passes the end of the code.
pub proof fn lemma_step_keeps_state(
    code: Seq<Instruction>,
    state: State,
    reply: Reply,
    cells: nat,
)
    requires
        well_bracketed(code),
        is_state_of(state, code, cells),
    ensures
        is_state_of(step_state(code, state, reply), code, cells),
{
    if !is_halted(code, state) {
        lemma_partner_involution(code, state.counter);
        lemma_step_left(state.pointer, cells as int);
        lemma_step_right(state.pointer, cells as int);
    }
}

/// An interpreter with a tape of `N` cells, which runs one program step by
/// step. It never touches the outside world: what an instruction needs from
/// there it asks for, and the caller supplies the answer with the next step.
pub struct BrainfuckInterpreter<const N: usize> {
    memory: [u8; N],
    memory_pointer: MemoryPointer<N>,
    program: Program,
    program_counter: usize,
}

impl<const N: usize> View for BrainfuckInterpreter<N> {
    type V = State;

    closed spec fn view(&self) -> State {
        State {
            tape: self.memory@,
            pointer: self.memory_pointer@,
            counter: self.program_counter as int,
        }
    }
}

impl<const N: usize> BrainfuckInterpreter<N> {
    #[verifier::type_invariant]
    spec fn consistent(&self) -> bool {
        N > 0 && self.program_counter <= self.program@.len()
    }

    /// The instructions of the loaded program.
    pub closed spec fn code(&self) -> Seq<Instruction> {
        self.program@
    }

    /// What holds of every interpreter at all times: its program is
    /// well-bracketed, and its state is a state of a run of that program on `N`
    /// cells.
    pub open spec fn well_formed(&self) -> bool {
        well_bracketed(self.code()) && is_state_of(self@, self.code(), N as nat)
    }

    /// An interpreter with all cells zero, the pointer on the first cell, and no
    /// program.
    pub fn new() -> (interpreter: Self)
        requires
            N > 0,
        ensures
            interpreter@ == initial_state(N as nat),
            interpreter.code() == Seq::<Instruction>::empty(),
            interpreter.well_formed(),
    {
        let interpreter = Self {
            memory: [0; N],
            memory_pointer: MemoryPointer::<N>::new(),
            program: Program::empty(),
            program_counter: 0,
        };
        assert(interpreter@.tape == initial_state(N as nat).tape);
        interpreter
    }

    /// Loads the program that `source` denotes and makes the interpreter ready
    /// to run it from a cleared tape. Text whose loops are not well-bracketed is
    /// refused: the interpreter then stays exactly as it was, and the error says
    /// which loop is at fault.
    pub fn load(&mut self, source: &str) -> (r: Result<(), InterpreterError>)
        ensures
            r is Ok <==> well_bracketed(lex_spec(source@)),
            match r {
                Ok(_) => {
                    &&& final(self).code() == lex_spec(source@)
                    &&& final(self)@ == initial_state(N as nat)
                    &&& final(self).well_formed()
                },
                Err(fault) => {
                    &&& is_loop_fault(lex_spec(source@), fault)
                    &&& *final(self) == *old(self)
                },
            },
    {
        proof {
            use_type_invariant(&*self);
        }
        match Program::parse(source) {
            Ok(program) => {
                *self = Self {
                    memory: [0; N],
                    memory_pointer: MemoryPointer::<N>::new(),
                    program,
                    program_counter: 0,
                };
                assert(self@.tape == initial_state(N as nat).tape);
                Ok(())
            },
            Err(fault) => Err(fault),
        }
    }

    /// The index of the addressed cell.
    pub fn pointer(&self) -> (index: usize)
        ensures
            index == self@.pointer,
            index < N,
    {
        self.memory_pointer.index()
    }

    /// The index of the next instruction; the length of the program once the
    /// run is over.
    pub fn program_counter(&self) -> (counter: usize)
        ensures
            counter == self@.counter,
            counter <= self.code().len(),
    {
        proof {
            use_type_invariant(self);
        }
        self.program_counter
    }

    /// The tape.
    pub fn memory(&self) -> (tape: &[u8; N])
        ensures
            tape@ == self@.tape,
    {
        &self.memory
    }

    /// The loaded program.
    pub fn program(&self) -> (program: &Program)
        ensures
            program@ == self.code(),
    {
        &self.program
    }

    /// What the next step needs from outside.
    pub fn request(&self) -> (request: Request)
        ensures
            request == request_of(self.code(), self@),
            self.well_formed(),
    {
        proof {
            use_type_invariant(self);
        }
        let at = self.memory_pointer.index();
        if self.program_counter >= self.program.len() {
            return Request::Halt;
        }
        match self.program.get(self.program_counter) {
            Instruction::ReadChar => Request::Input,
            Instruction::WriteChar => Request::Output(self.memory[at]),
            _ => Request::Proceed,
        }
    }

    /// Executes the next instruction, given the reply to what `request` asked
    /// for. A halted run stays halted. A reply that does not answer the request
    /// is a failure of the channel: the step fails and changes nothing, so that
    /// it can be taken again.
    pub fn step(&mut self, reply: Reply) -> (r: Result<Outcome, InterpreterError>)
        ensures
            r == step_result(old(self).code(), old(self)@, reply),
            final(self)@ == step_state(old(self).code(), old(self)@, reply),
            final(self).code() == old(self).code(),
            final(self).well_formed(),
    {
        proof {
            use_type_invariant(&*self);
        }
        let pc = self.program_counter;
        let at = self.memory_pointer.index();
        let cell = self.memory[at];
        if pc >= self.program.len() {
            return Ok(Outcome::Halted);
        }
        let instruction = self.program.get(pc);
        let across = self.program.jump(pc);
        let answered = match (instruction, reply) {
            (Instruction::ReadChar, Reply::Byte(_)) => true,
            (Instruction::ReadChar, Reply::EndOfInput) => true,
            (Instruction::ReadChar, _) => false,
            (_, Reply::Done) => true,
            (_, _) => false,
        };
        if !answered {
            return Err(InterpreterError::IoFailure);
        }
        let mut outcome = Outcome::Advanced;
        let mut next = pc + 1;
        match instruction {
            Instruction::IncreasePointer => {
                self.memory_pointer.add(1);
            },
            Instruction::DecreasePointer => {
                self.memory_pointer.subtract(1);
            },
            Instruction::IncreaseValue => {
                self.memory[at] = cell.wrapping_add(1);
            },
            Instruction::DecreaseValue => {
                self.memory[at] = cell.wrapping_sub(1);
            },
            Instruction::StartLoop => {
                if cell == 0 {
                    next = across + 1;
                }
            },
            Instruction::EndLoop => {
                if cell != 0 {
                    next = across + 1;
                }
            },
            Instruction::ReadChar => {
                match reply {
                    Reply::Byte(byte) => {
                        self.memory[at] = byte;
                    },
                    _ => {
                        outcome = Outcome::InputExhausted;
                    },
                }
            },
            Instruction::WriteChar => {},
        }
        self.program_counter = next;
        Ok(outcome)
    }
}

} // verus!
