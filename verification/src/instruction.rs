//! The instruction set.
use vstd::prelude::*;

verus! {

/// One instruction of a compiled program.
#[derive(Clone, Copy, Debug, PartialEq, Eq, Structural)]
pub enum MooInst {
    /// `+`: add one to the active cell, wrapping from 255 to 0.
    Plus,
    /// `-`: subtract one from the active cell, wrapping from 0 to 255.
    Minus,
    /// `<`: move the active pointer one cell to the left.
    Left,
    /// `>`: move the active pointer one cell to the right.
    Right,
    /// `,`: read input. No input source is wired, so the instruction is inert.
    In,
    /// `.`: append the active cell to the output.
    Out,
    /// `[`: enter the loop if the active cell is not zero, else skip it.
    OpenLoop,
    /// `]`: go back to the `[` that was entered last.
    CloseLoop,
    /// Any other character: kept for display, without effect.
    Nop(char),
    /// `~name;`: call the subroutine with this id.
    Call(usize),
    /// `(name):{`: start of the definition of the subroutine with this id.
    FuncStart(usize),
    /// `}`: end of the definition of the subroutine with this id.
    FuncEnd(usize),
    /// `^`: switch between the data tape and the meta tape.
    MetaJump,
    /// End of program, appended by the compiler.
    Halt,
}

/// The instruction that a single character stands for when it opens neither
/// a definition nor a call and closes no definition.
pub open spec fn plain_instruction(c: char) -> MooInst {
    if c == '+' {
        MooInst::Plus
    } else if c == '-' {
        MooInst::Minus
    } else if c == '>' {
        MooInst::Right
    } else if c == '<' {
        MooInst::Left
    } else if c == '.' {
        MooInst::Out
    } else if c == ',' {
        MooInst::In
    } else if c == '[' {
        MooInst::OpenLoop
    } else if c == ']' {
        MooInst::CloseLoop
    } else if c == '^' {
        MooInst::MetaJump
    } else {
        MooInst::Nop(c)
    }
}

/// The characters to which the language gives a meaning of their own.
pub open spec fn is_reserved(c: char) -> bool {
    c == '+' || c == '-' || c == '>' || c == '<' || c == '.' || c == ',' || c == '[' || c == ']'
        || c == '^' || c == '(' || c == '}' || c == '~'
}

/// The subroutine that an instruction names, if it names one.
pub open spec fn subroutine_of(inst: MooInst) -> Option<usize> {
    match inst {
        MooInst::Call(id) => Some(id),
        MooInst::FuncStart(id) => Some(id),
        MooInst::FuncEnd(id) => Some(id),
        _ => None,
    }
}

impl MooInst {
    /// The instruction for a character that is not `(`, `}` or `~`.
    pub fn from_plain_char(c: char) -> (inst: MooInst)
        ensures
            inst == plain_instruction(c),
    {
        match c {
            '+' => MooInst::Plus,
            '-' => MooInst::Minus,
            '>' => MooInst::Right,
            '<' => MooInst::Left,
            '.' => MooInst::Out,
            ',' => MooInst::In,
            '[' => MooInst::OpenLoop,
            ']' => MooInst::CloseLoop,
            '^' => MooInst::MetaJump,
            _ => MooInst::Nop(c),
        }
    }

    /// Whether this is a no-op kept for display.
    pub fn is_nop(&self) -> (b: bool)
        ensures
            b == (*self is Nop),
    {
        match self {
            MooInst::Nop(_) => true,
            _ => false,
        }
    }
}

} // verus!
