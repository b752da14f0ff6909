//! Opening and closing delimiters.
use crate::string_kind::StringKind;
use vstd::prelude::*;

verus! {

/// A delimiter that opens a bracketed region.
#[derive(Clone, Copy, Debug, Eq, PartialEq, Structural)]
pub enum Delimiter {
    Brace,
    Bracket,
    FormatString(StringKind),
    Paren,
}

impl Delimiter {
    /// How the delimiter opens.
    pub fn open(self) -> (r: &'static str)
        ensures
            r == (match self {
                Delimiter::Brace => "{",
                Delimiter::Bracket => "[",
                Delimiter::FormatString(_) => "{{",
                Delimiter::Paren => "(",
            }),
    {
        match self {
            Self::Brace => "{",
            Self::Bracket => "[",
            Self::FormatString(_) => "{{",
            Self::Paren => "(",
        }
    }

    /// How the delimiter closes.
    pub fn close(self) -> (r: &'static str)
        ensures
            r == (match self {
                Delimiter::Brace => "}",
                Delimiter::Bracket => "]",
                Delimiter::FormatString(_) => "}}",
                Delimiter::Paren => ")",
            }),
    {
        match self {
            Self::Brace => "}",
            Self::Bracket => "]",
            Self::FormatString(_) => "}}",
            Self::Paren => ")",
        }
    }
}

} // verus!
