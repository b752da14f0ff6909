//! What may not appear where only constants may be used.
use crate::text::append_str;
use crate::token::Token;
use vstd::prelude::*;

verus! {

/// A name as written in a recipe file: its token and its text.
#[derive(Clone, Debug, PartialEq, Eq)]
pub struct Name {
    pub token: Token,
    pub lexeme: String,
}

/// Something that cannot be evaluated in a constant context.
#[derive(Clone, Debug, PartialEq, Eq)]
pub enum ConstError {
    /// A backtick
    Backtick(Token),
    /// A call of the function with this name
    FunctionCall(Name),
    /// A variable that is not constant
    Variable(Name),
}

impl ConstError {
    /// The token that the error points at.
    pub fn context(&self) -> (r: Token)
        ensures
            r == match *self {
                ConstError::Backtick(token) => token,
                ConstError::FunctionCall(name) => name.token,
                ConstError::Variable(name) => name.token,
            },
    {
        match self {
            ConstError::Backtick(token) => *token,
            ConstError::FunctionCall(name) | ConstError::Variable(name) => name.token,
        }
    }

    /// The message of the error.
    pub fn message(&self) -> (r: String)
        ensures
            r@ == match *self {
                ConstError::Backtick(_) => "Cannot call backticks in const context"@,
                ConstError::FunctionCall(_) => "Cannot call functions in const context"@,
                ConstError::Variable(name) => "Cannot access non-const variable `"@ + name.lexeme@
                    + "` in const context"@,
            },
    {
        let mut r = String::new();
        match self {
            ConstError::Backtick(_) => append_str(&mut r, "Cannot call backticks in const context"),
            ConstError::FunctionCall(_) => append_str(
                &mut r,
                "Cannot call functions in const context",
            ),
            ConstError::Variable(name) => {
                append_str(&mut r, "Cannot access non-const variable `");
                append_str(&mut r, name.lexeme.as_str());
                append_str(&mut r, "` in const context");
            },
        }
        r
    }
}

} // verus!
