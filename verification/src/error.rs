//! What can go wrong, at compile time and at run time.
use vstd::prelude::*;

verus! {

/// The reason a source text was rejected by the compiler.
#[derive(Clone, Copy, Debug, PartialEq, Eq, Structural)]
pub enum MooErrorKind {
    /// The first character of a subroutine name is not an ASCII lowercase letter.
    IdentifierNotLowercase,
    /// The source ends where a subroutine name is expected.
    EmptyIdentifier,
    /// A definition is opened while another one is still open.
    NestedDefinition,
    /// The name of a definition is not followed by `)`.
    ExpectedCloseParen,
    /// The `)` of a definition header is not followed by `:`.
    ExpectedColon,
    /// The `:` of a definition header is not followed by `{`.
    ExpectedOpenBrace,
    /// A `}` occurs while no definition is open.
    UnknownDefinitionEnd,
    /// The name of a call is not followed by `;`.
    ExpectedSemicolon,
    /// The source ends while a definition is still open.
    UnclosedDefinition,
}

/// The reason a step could not be performed. A faulting step leaves the
/// runner exactly as it was.
#[derive(Clone, Copy, Debug, PartialEq, Eq, Structural)]
pub enum MooFault {
    /// `]` or `}` was reached with an empty return stack.
    ReturnStackUnderflow,
    /// A call names a subroutine that is never defined.
    UnknownSubroutine(usize),
    /// `[` found the cell at zero and no matching `]` follows it.
    UnmatchedLoop,
    /// `<` was reached with the active pointer on the first cell of its
    /// tape, or `>` with the pointer on the last cell that can be addressed.
    /// The tape does not wrap and the pointer does not stick: the move is
    /// refused.
    PointerOutOfRange,
}

/// A compile error.
#[derive(Clone, Copy, Debug)]
pub struct MooError {
    kind: MooErrorKind,
}

impl View for MooError {
    type V = MooErrorKind;

    closed spec fn view(&self) -> MooErrorKind {
        self.kind
    }
}

/// The text that describes an error of the given kind.
pub open spec fn message_of(kind: MooErrorKind) -> Seq<char> {
    match kind {
        MooErrorKind::IdentifierNotLowercase => "First character in identifier is not lowercase"@,
        MooErrorKind::EmptyIdentifier => "Empty identifier"@,
        MooErrorKind::NestedDefinition => "Re-opening definition in one another"@,
        MooErrorKind::ExpectedCloseParen => "Expected ')' after function declaration header"@,
        MooErrorKind::ExpectedColon => "Expected ':' after function declaration header"@,
        MooErrorKind::ExpectedOpenBrace => "Expected '{' after function declaration header"@,
        MooErrorKind::UnknownDefinitionEnd => "Ended an unknown function definition"@,
        MooErrorKind::ExpectedSemicolon => "Expected ';' after function call identifier"@,
        MooErrorKind::UnclosedDefinition => "Function definition is never closed"@,
    }
}

impl MooError {
    pub fn new(kind: MooErrorKind) -> (e: Self)
        ensures
            e@ == kind,
    {
        Self { kind }
    }

    pub fn kind(&self) -> (k: MooErrorKind)
        ensures
            k == self@,
    {
        self.kind
    }

    pub fn message(&self) -> (msg: String)
        ensures
            msg@ == message_of(self@),
    {
        let text: &str = match self.kind {
            MooErrorKind::IdentifierNotLowercase => "First character in identifier is not lowercase",
            MooErrorKind::EmptyIdentifier => "Empty identifier",
            MooErrorKind::NestedDefinition => "Re-opening definition in one another",
            MooErrorKind::ExpectedCloseParen => "Expected ')' after function declaration header",
            MooErrorKind::ExpectedColon => "Expected ':' after function declaration header",
            MooErrorKind::ExpectedOpenBrace => "Expected '{' after function declaration header",
            MooErrorKind::UnknownDefinitionEnd => "Ended an unknown function definition",
            MooErrorKind::ExpectedSemicolon => "Expected ';' after function call identifier",
            MooErrorKind::UnclosedDefinition => "Function definition is never closed",
        };
        text.to_owned()
    }
}

} // verus!
