//! Errors found while reading a recipe file.
use crate::delimiter::Delimiter;
use crate::token::Token;
use vstd::prelude::*;

verus! {

/// What went wrong.
#[derive(Debug, PartialEq, Eq)]
#[allow(inconsistent_fields)]
pub enum CompileErrorKind {
    /// `function` was called with `found` arguments; it takes `min` to `max`.
    FunctionArgumentCountMismatch { function: String, found: usize, min: usize, max: usize },
    Include,
    InconsistentLeadingWhitespace { expected: String, found: String },
    Internal { message: String },
    InvalidEscapeSequence { character: char },
    MismatchedClosingDelimiter { close: Delimiter, open: Delimiter, open_line: usize },
    MixedLeadingWhitespace { whitespace: String },
    UnexpectedCharacter { expected: Vec<char> },
    UnexpectedClosingDelimiter { close: Delimiter },
    UndefinedVariable { variable: String },
    UnexpectedEndOfToken { expected: Vec<char> },
    UnknownFunction { function: String },
    UnknownStartOfToken { start: char },
    UnpairedCarriageReturn,
    UnterminatedBacktick,
    UnterminatedInterpolation,
    UnterminatedString,
}

/// An error, with the span of source text it concerns.
#[derive(Debug, PartialEq, Eq)]
pub struct CompileError {
    pub token: Token,
    pub kind: CompileErrorKind,
}

impl CompileError {
    /// The error `kind` at `token`.
    pub fn new(token: Token, kind: CompileErrorKind) -> (r: Self)
        ensures
            r.token == token,
            r.kind == kind,
    {
        CompileError { token, kind }
    }
}

} // verus!
