//! The errors of compilation.

use vstd::prelude::*;

verus! {

/// What was wrong with the source.
#[derive(Clone, Copy, Debug, PartialEq, Eq, Structural)]
pub enum ParseErrorKind {
    /// The source does not continue as the grammar asks.
    UnexpectedToken,
    /// A string literal has no closing quote.
    UnterminatedLiteral,
    /// A name is declared twice in one scope.
    DuplicateDeclaration,
    /// A name is used that no enclosing scope declares.
    UndeclaredVariable,
}

/// An error of compilation, with the line and column of the source at which
/// it was found, both counted from 1.
#[derive(Clone, Copy, Debug, PartialEq, Eq, Structural)]
pub struct ParseError {
    pub kind: ParseErrorKind,
    pub line: u32,
    pub col: u32,
}

} // verus!
