use vstd::prelude::*;
use vstd::std_specs::convert::TryFromSpecImpl;
use vstd::string::StringExecFns;

verus! {

/// One command of the eight-symbol language.
#[derive(Debug, Clone, Copy, PartialEq, Eq, Structural)]
pub enum Instruction {
    /// `>`: move the cell pointer one cell to the right.
    IncreasePointer,
    /// `<`: move the cell pointer one cell to the left.
    DecreasePointer,
    /// `+`: add one to the addressed cell.
    IncreaseValue,
    /// `-`: subtract one from the addressed cell.
    DecreaseValue,
    /// `[`: skip the loop body if the addressed cell is zero.
    StartLoop,
    /// `]`: repeat the loop body if the addressed cell is not zero.
    EndLoop,
    /// `,`: read one byte of input into the addressed cell.
    ReadChar,
    /// `.`: write the addressed cell as one byte of output.
    WriteChar,
}

/// Reports a character that is not one of the eight command symbols.
#[derive(Debug, Clone, Copy, PartialEq, Eq, Structural)]
pub struct InvalidCharacterError {
    pub character: char,
}

impl InvalidCharacterError {
    /// The error for the character `c`.
    pub fn new(c: char) -> (e: Self)
        ensures
            e.character == c,
    {
        Self { character: c }
    }

    /// The error as a line of text that names the character.
    pub fn message(&self) -> (text: String)
        ensures
            text@ == "Invalid character encountered: "@.push(self.character),
    {
        let mut text = String::from_str("Invalid character encountered: ");
        text.push(self.character);
        text
    }
}

/// Assumed of `String::push` in the standard library: it appends the character
/// to the end of the string and leaves the characters before it as they were.
pub assume_specification[ String::push ](text: &mut String, ch: char)
    ensures
        final(text)@ == old(text)@.push(ch),
;

/// The command that a character stands for, if it stands for one.
pub open spec fn command_of(c: char) -> Option<Instruction> {
    if c == '>' {
        Some(Instruction::IncreasePointer)
    } else if c == '<' {
        Some(Instruction::DecreasePointer)
    } else if c == '+' {
        Some(Instruction::IncreaseValue)
    } else if c == '-' {
        Some(Instruction::DecreaseValue)
    } else if c == '[' {
        Some(Instruction::StartLoop)
    } else if c == ']' {
        Some(Instruction::EndLoop)
    } else if c == ',' {
        Some(Instruction::ReadChar)
    } else if c == '.' {
        Some(Instruction::WriteChar)
    } else {
        None
    }
}

impl TryFrom<char> for Instruction {
    type Error = InvalidCharacterError;

    fn try_from(c: char) -> (r: Result<Self, Self::Error>) {
        match c {
            '>' => Ok(Instruction::IncreasePointer),
            '<' => Ok(Instruction::DecreasePointer),
            '+' => Ok(Instruction::IncreaseValue),
            '-' => Ok(Instruction::DecreaseValue),
            '[' => Ok(Instruction::StartLoop),
            ']' => Ok(Instruction::EndLoop),
            ',' => Ok(Instruction::ReadChar),
            '.' => Ok(Instruction::WriteChar),
            _ => Err(InvalidCharacterError::new(c)),
        }
    }
}

impl TryFromSpecImpl<char> for Instruction {
    open spec fn obeys_try_from_spec() -> bool {
        true
    }

    open spec fn try_from_spec(c: char) -> Result<Self, Self::Error> {
        match command_of(c) {
            Some(i) => Ok(i),
            None => Err(InvalidCharacterError { character: c }),
        }
    }
}

} // verus!
