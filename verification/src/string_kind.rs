//! The kinds of string literal: backticks, double quotes and single quotes,
//! each either plain or indented (tripled delimiter).
use crate::compilation::CompileErrorKind;
use crate::text::occurs_at;
use crate::token::TokenKind;
use vstd::prelude::*;

verus! {

/// The delimiter of a string literal.
#[derive(Debug, PartialEq, Eq, Clone, Copy, Structural)]
pub enum StringDelimiter {
    Backtick,
    QuoteDouble,
    QuoteSingle,
}

/// A kind of string literal.
#[derive(Debug, PartialEq, Eq, Clone, Copy, Structural)]
pub struct StringKind {
    pub delimiter: StringDelimiter,
    pub indented: bool,
}

/// The characters that open and close a string of kind `kind`.
pub open spec fn spec_delimiter(kind: StringKind) -> Seq<char> {
    match (kind.delimiter, kind.indented) {
        (StringDelimiter::Backtick, false) => seq!['`'],
        (StringDelimiter::Backtick, true) => seq!['`', '`', '`'],
        (StringDelimiter::QuoteDouble, false) => seq!['"'],
        (StringDelimiter::QuoteDouble, true) => seq!['"', '"', '"'],
        (StringDelimiter::QuoteSingle, false) => seq!['\''],
        (StringDelimiter::QuoteSingle, true) => seq!['\'', '\'', '\''],
    }
}

/// The kinds of string, indented ones before plain ones so that the longer
/// delimiter is recognised first.
pub open spec fn spec_all_string_kinds() -> Seq<StringKind> {
    seq![
        StringKind { delimiter: StringDelimiter::Backtick, indented: true },
        StringKind { delimiter: StringDelimiter::Backtick, indented: false },
        StringKind { delimiter: StringDelimiter::QuoteDouble, indented: true },
        StringKind { delimiter: StringDelimiter::QuoteDouble, indented: false },
        StringKind { delimiter: StringDelimiter::QuoteSingle, indented: true },
        StringKind { delimiter: StringDelimiter::QuoteSingle, indented: false },
    ]
}

/// The string kind whose delimiter text at position `i` of `text` begins,
/// trying the kinds in the order of `spec_all_string_kinds`.
pub open spec fn spec_kind_at(text: Seq<char>, i: int) -> Option<StringKind> {
    let all = spec_all_string_kinds();
    if occurs_at(text, spec_delimiter(all[0]), i) {
        Some(all[0])
    } else if occurs_at(text, spec_delimiter(all[1]), i) {
        Some(all[1])
    } else if occurs_at(text, spec_delimiter(all[2]), i) {
        Some(all[2])
    } else if occurs_at(text, spec_delimiter(all[3]), i) {
        Some(all[3])
    } else if occurs_at(text, spec_delimiter(all[4]), i) {
        Some(all[4])
    } else if occurs_at(text, spec_delimiter(all[5]), i) {
        Some(all[5])
    } else {
        None
    }
}

impl StringKind {
    /// The delimiter as characters.
    pub fn delimiter_chars(self) -> (r: Vec<char>)
        ensures
            r@ == spec_delimiter(self),
    {
        let c = match self.delimiter {
            StringDelimiter::Backtick => '`',
            StringDelimiter::QuoteDouble => '"',
            StringDelimiter::QuoteSingle => '\'',
        };
        let r = if self.indented {
            vec![c, c, c]
        } else {
            vec![c]
        };
        assert(r@ =~= spec_delimiter(self));
        r
    }

    /// The number of characters (and bytes) of the delimiter.
    pub fn delimiter_len(self) -> (r: usize)
        ensures
            r == spec_delimiter(self).len(),
    {
        if self.indented {
            3
        } else {
            1
        }
    }

    /// The kind of token a string of this kind becomes.
    pub fn token_kind(self) -> (r: TokenKind)
        ensures
            r == (match self.delimiter {
                StringDelimiter::Backtick => TokenKind::Backtick,
                _ => TokenKind::StringToken,
            }),
    {
        match self.delimiter {
            StringDelimiter::QuoteDouble | StringDelimiter::QuoteSingle => TokenKind::StringToken,
            StringDelimiter::Backtick => TokenKind::Backtick,
        }
    }

    /// The error reported when a string of this kind is not closed.
    pub fn unterminated_error_kind(self) -> (r: CompileErrorKind)
        ensures
            r == (match self.delimiter {
                StringDelimiter::Backtick => CompileErrorKind::UnterminatedBacktick,
                _ => CompileErrorKind::UnterminatedString,
            }),
    {
        match self.delimiter {
            StringDelimiter::QuoteDouble | StringDelimiter::QuoteSingle => {
                CompileErrorKind::UnterminatedString
            },
            StringDelimiter::Backtick => CompileErrorKind::UnterminatedBacktick,
        }
    }

    /// Whether backslash escapes are recognised in strings of this kind.
    pub fn processes_escape_sequences(self) -> (r: bool)
        ensures
            r == (self.delimiter == StringDelimiter::QuoteDouble),
    {
        match self.delimiter {
            StringDelimiter::QuoteDouble => true,
            StringDelimiter::Backtick | StringDelimiter::QuoteSingle => false,
        }
    }

    /// Every kind, indented ones first.
    pub fn all() -> (r: Vec<StringKind>)
        ensures
            r@ == spec_all_string_kinds(),
    {
        let r = vec![
            StringKind { delimiter: StringDelimiter::Backtick, indented: true },
            StringKind { delimiter: StringDelimiter::Backtick, indented: false },
            StringKind { delimiter: StringDelimiter::QuoteDouble, indented: true },
            StringKind { delimiter: StringDelimiter::QuoteDouble, indented: false },
            StringKind { delimiter: StringDelimiter::QuoteSingle, indented: true },
            StringKind { delimiter: StringDelimiter::QuoteSingle, indented: false },
        ];
        assert(r@ =~= spec_all_string_kinds());
        r
    }

    /// The kind of string whose delimiter begins at position `i` of `text`.
    pub fn from_token_start(text: &[char], i: usize) -> (r: Option<StringKind>)
        ensures
            r == spec_kind_at(text@, i as int),
    {
        let all = Self::all();
        let mut k: usize = 0;
        while k < all.len()
            invariant
                all@ == spec_all_string_kinds(),
                k <= all.len(),
                forall|m: int| 0 <= m < k ==> !occurs_at(text@, spec_delimiter(#[trigger] all@[m]), i as int),
            decreases all.len() - k,
        {
            let d = all[k].delimiter_chars();
            if crate::text::occurs_at_exec(text, d.as_slice(), i) {
                return Some(all[k]);
            }
            k += 1;
        }
        None
    }
}

} // verus!
