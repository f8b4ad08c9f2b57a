use vstd::prelude::*;
use crate::text::{append_str, chars_of, decimal, push_decimal, string_of};

verus! {

/// Where an instruction stands in its source text; both counts start at 1.
#[derive(Debug, Clone, Copy, PartialEq, Eq, Structural)]
pub struct Position {
    pub line: usize,
    pub column: usize,
}

/// One operation of the machine.
#[derive(Debug, Clone, Copy, PartialEq, Eq, Structural)]
pub enum Opcode {
    Reverse(usize),
    Forward(usize),
    AddValue(u8),
    SubValue(u8),
    Output,
    Input,
    LoopStart(usize),
    LoopEnd(usize),
    FastZeroLeft(usize),
    FastZeroRight(usize),
    ClearCell,
    MoveLeft { left: usize, factor: u8 },
    MoveRight { right: usize, factor: u8 },
}

/// An opcode with the source position it came from.
#[derive(Debug, Clone, Copy, PartialEq, Eq, Structural)]
pub struct Instruction {
    pub opcode: Opcode,
    pub position: Position,
}

} // verus!

verus! {

/// How a position reads: `Line: <line>, Column: <column>`.
pub open spec fn position_text(p: Position) -> Seq<char> {
    "Line: "@ + decimal(p.line as nat) + ", Column: "@ + decimal(p.column as nat)
}

impl Position {
    /// The position as text, as `position_text` writes it.
    pub fn to_string(&self) -> (s: String)
        ensures
            s@ == position_text(*self),
    {
        let mut v = chars_of("Line: ");
        push_decimal(&mut v, self.line);
        append_str(&mut v, ", Column: ");
        push_decimal(&mut v, self.column);
        string_of(v.as_slice())
    }
}

} // verus!
