//! The operators of conditional expressions.
use vstd::prelude::*;

verus! {

/// A conditional expression operator.
#[derive(PartialEq, Eq, Debug, Copy, Clone, Structural)]
pub enum ConditionalOperator {
    /// `==`
    Equality,
    /// `!=`
    Inequality,
    /// `=~`
    RegexMatch,
    /// `!~`
    RegexMismatch,
}

impl ConditionalOperator {
    /// How the operator is written.
    pub fn to_str(self) -> (r: &'static str)
        ensures
            r == (match self {
                ConditionalOperator::Equality => "==",
                ConditionalOperator::Inequality => "!=",
                ConditionalOperator::RegexMatch => "=~",
                ConditionalOperator::RegexMismatch => "!~",
            }),
    {
        match self {
            Self::Equality => "==",
            Self::Inequality => "!=",
            Self::RegexMatch => "=~",
            Self::RegexMismatch => "!~",
        }
    }
}

} // verus!
