//! Operators and instructions.
use vstd::prelude::*;

verus! {

/// One of the eight operations of the language.
#[derive(Clone, Copy, Debug, PartialEq, Eq, Structural)]
pub enum Operator {
    /// `>`: move the data pointer one cell to the right.
    IncDataPointer,
    /// `<`: move the data pointer one cell to the left.
    DecDataPointer,
    /// `+`: add one to the current cell.
    IncCell,
    /// `-`: subtract one from the current cell.
    DecCell,
    /// `.`: write the current cell.
    OutputCell,
    /// `,`: read one byte into the current cell.
    InputCell,
    /// `[`: jump past the matching `]` when the current cell is zero.
    JumpForward,
    /// `]`: jump back to the matching `[` when the current cell is not zero.
    JumpBackward,
}

/// The operator that a source character stands for; `None` for a comment
/// character.
pub open spec fn operator_of(c: char) -> Option<Operator> {
    if c == '>' {
        Some(Operator::IncDataPointer)
    } else if c == '<' {
        Some(Operator::DecDataPointer)
    } else if c == '+' {
        Some(Operator::IncCell)
    } else if c == '-' {
        Some(Operator::DecCell)
    } else if c == '.' {
        Some(Operator::OutputCell)
    } else if c == ',' {
        Some(Operator::InputCell)
    } else if c == '[' {
        Some(Operator::JumpForward)
    } else if c == ']' {
        Some(Operator::JumpBackward)
    } else {
        None
    }
}

impl Operator {
    /// Decodes one source character.
    pub fn from_char(c: char) -> (op: Option<Operator>)
        ensures
            op == operator_of(c),
    {
        match c {
            '>' => Some(Operator::IncDataPointer),
            '<' => Some(Operator::DecDataPointer),
            '+' => Some(Operator::IncCell),
            '-' => Some(Operator::DecCell),
            '.' => Some(Operator::OutputCell),
            ',' => Some(Operator::InputCell),
            '[' => Some(Operator::JumpForward),
            ']' => Some(Operator::JumpBackward),
            _ => None,
        }
    }
}

/// An operator with its operand. The operand of a jump is the position of
/// the matching bracket; every other instruction carries 0.
#[derive(Clone, Copy, Debug, PartialEq, Eq, Structural)]
pub struct Instruction {
    pub operator: Operator,
    pub operand: usize,
}

} // verus!
